//! The description of one training run: hyperparameters and data.
use vstd::prelude::*;

use crate::matrix::Matrix;
use crate::vector::Vector;

verus! {

/// Which model a run trains. Multi-feature linear regression is the same
/// model over more than one feature column.
#[derive(Debug, Clone, Copy, PartialEq, Eq, Structural)]
pub enum ModelType {
    LinearRegression,
    MultiLinearRegression,
}

/// Hyperparameters and data of one training run, owned by that run.
#[derive(Debug, Clone)]
pub struct InternalInput<T> {
    pub epochs: u32,
    /// Rows per mini-batch; never zero once the input is built.
    pub batch_size: u32,
    /// Epochs without improvement tolerated before stopping early.
    pub early_stop: u32,
    pub learning_rate: T,
    pub model_type: ModelType,
    pub train_x: Matrix<T>,
    pub train_y: Vector<T>,
    pub test_x: Matrix<T>,
    pub test_y: Vector<T>,
}

impl<T: Copy> InternalInput<T> {
    /// Gathers a run's settings and data. A `batch_size` of zero stands for
    /// the whole training set: one batch per epoch.
    pub fn new(
        epochs: u32,
        batch_size: u32,
        early_stop: u32,
        learning_rate: T,
        model_type: ModelType,
        train_x: Matrix<T>,
        train_y: Vector<T>,
        test_x: Matrix<T>,
        test_y: Vector<T>,
    ) -> (r: InternalInput<T>)
        requires
            train_x.rows <= u32::MAX,
        ensures
            r.epochs == epochs,
            r.batch_size == (if batch_size == 0 {
                train_x.rows as u32
            } else {
                batch_size
            }),
            r.early_stop == early_stop,
            r.learning_rate == learning_rate,
            r.model_type == model_type,
            r.train_x == train_x,
            r.train_y == train_y,
            r.test_x == test_x,
            r.test_y == test_y,
    {
        let batch_size = if batch_size == 0 {
            train_x.rows as u32
        } else {
            batch_size
        };
        InternalInput {
            epochs,
            batch_size,
            early_stop,
            learning_rate,
            model_type,
            train_x,
            train_y,
            test_x,
            test_y,
        }
    }
}

} // verus!
