//! A small gradient-training engine: dense vectors and matrices over a
//! caller-chosen scalar type, mini-batching, shuffling and early stopping.

pub mod error;
pub mod kernel;
pub mod vector;
pub mod matrix;
pub mod random;
pub mod solver_utils;
pub mod input;
pub mod loss;
pub mod activation;
pub mod stats;
