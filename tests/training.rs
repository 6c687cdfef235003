use synapse_math::error::Error;
use synapse_math::input::{InternalInput, ModelType};
use synapse_math::loss::{check_cross_entropy_operands, check_loss_operands};
use synapse_math::matrix::Matrix;
use synapse_math::random::{shuffle_indices, Random};
use synapse_math::solver_utils::{batches, batches_in_order, should_stop};
use synapse_math::stats::{check_paired_sample, check_sample};
use synapse_math::vector::Vector;

fn sample_data() -> (Matrix<f64>, Vector<f64>) {
    let x = Matrix {
        rows: 5,
        cols: 2,
        data: vec![1.0, 5.0, 2.0, 4.0, 3.0, 3.0, 4.0, 2.0, 5.0, 1.0],
    };
    let y = Vector::from_vec(vec![18.0, 17.0, 16.0, 15.0, 14.0]);
    (x, y)
}

#[test]
fn shuffle_indices_is_a_permutation() {
    let mut idx = shuffle_indices(100);
    assert_eq!(idx.len(), 100);
    idx.sort();
    assert_eq!(idx, (0..100).collect::<Vec<usize>>());
    assert!(shuffle_indices(0).is_empty());
}

#[test]
fn seeded_generators_agree() {
    let a = Random::new(Some(42));
    let b = Random::new(Some(42));
    let c = Random::new(Some(43));
    assert!(a.rng == b.rng);
    assert!(a.rng != c.rng);
    let _ = Random::new(None);
}

#[test]
fn batches_follow_the_given_order() {
    let (x, y) = sample_data();
    let order = vec![4, 0, 3, 1, 2];
    let out = batches_in_order(&x, &y, &order, 2);
    assert_eq!(out.len(), 3);
    assert_eq!(out[0].0.shape(), (2, 2));
    assert_eq!(out[0].0.data, vec![5.0, 1.0, 1.0, 5.0]);
    assert_eq!(out[0].1.data, vec![14.0, 18.0]);
    assert_eq!(out[1].0.data, vec![4.0, 2.0, 2.0, 4.0]);
    assert_eq!(out[1].1.data, vec![15.0, 17.0]);
    assert_eq!(out[2].0.shape(), (1, 2));
    assert_eq!(out[2].0.data, vec![3.0, 3.0]);
    assert_eq!(out[2].1.data, vec![16.0]);
}

#[test]
fn one_batch_when_size_covers_the_set() {
    let (x, y) = sample_data();
    let out = batches_in_order(&x, &y, &vec![0, 1, 2, 3, 4], 5);
    assert_eq!(out.len(), 1);
    assert_eq!(out[0].0.data, x.data);
    assert_eq!(out[0].1.data, y.data);
    let out = batches_in_order(&x, &y, &vec![0, 1, 2, 3, 4], 7);
    assert_eq!(out.len(), 1);
    assert_eq!(out[0].0.rows, 5);
    assert!(batches_in_order(&x, &y, &Vec::new(), 3).is_empty());
}

#[test]
fn shuffled_batches_cover_every_row_once() {
    let (x, y) = sample_data();
    let out = batches(&x, &y, 2);
    assert_eq!(out.len(), 3);
    assert_eq!(out[0].0.rows, 2);
    assert_eq!(out[1].0.rows, 2);
    assert_eq!(out[2].0.rows, 1);
    let mut targets: Vec<f64> = Vec::new();
    for (bx, by) in &out {
        assert_eq!(bx.cols, 2);
        for r in 0..bx.rows {
            let t = by.get(r).unwrap();
            let row = (0..5).find(|&i| y.data[i] == t).unwrap();
            assert_eq!(bx.get(r, 0), x.get(row, 0));
            assert_eq!(bx.get(r, 1), x.get(row, 1));
            targets.push(t);
        }
    }
    targets.sort_by(|a, b| a.partial_cmp(b).unwrap());
    assert_eq!(targets, vec![14.0, 15.0, 16.0, 17.0, 18.0]);
}

#[test]
fn early_stop_fires_when_patience_runs_out() {
    // First epoch sets the best loss; every later epoch fails to improve.
    let patience = 3;
    let mut counter = 0;
    let mut stopped_at = None;
    for epoch in 1..=10u32 {
        let improved = if epoch == 1 { None } else { Some(false) };
        if should_stop(improved, patience, &mut counter) {
            stopped_at = Some(epoch);
            break;
        }
    }
    assert_eq!(stopped_at, Some(4));
    assert_eq!(counter, 3);
}

#[test]
fn improvement_resets_the_counter() {
    let mut counter = 0;
    assert!(!should_stop(None, 2, &mut counter));
    assert!(!should_stop(Some(false), 2, &mut counter));
    assert_eq!(counter, 1);
    assert!(!should_stop(Some(true), 2, &mut counter));
    assert_eq!(counter, 0);
    assert!(!should_stop(Some(false), 2, &mut counter));
    assert!(should_stop(Some(false), 2, &mut counter));
    assert_eq!(counter, 2);
}

#[test]
fn zero_patience_stops_at_the_first_miss() {
    let mut counter = 0;
    assert!(!should_stop(None, 0, &mut counter));
    assert!(!should_stop(Some(true), 0, &mut counter));
    assert!(should_stop(Some(false), 0, &mut counter));
    assert_eq!(counter, 1);
}

#[test]
fn zero_batch_size_means_whole_training_set() {
    let (x, y) = sample_data();
    let input = InternalInput::new(
        10,
        0,
        3,
        0.01,
        ModelType::LinearRegression,
        x.clone(),
        y.clone(),
        x.clone(),
        y.clone(),
    );
    assert_eq!(input.batch_size, 5);
    assert_eq!(input.epochs, 10);
    assert_eq!(input.early_stop, 3);
    let input = InternalInput::new(1, 2, 0, 0.5, ModelType::MultiLinearRegression, x.clone(), y.clone(), x, y);
    assert_eq!(input.batch_size, 2);
    assert_eq!(input.model_type, ModelType::MultiLinearRegression);
}

#[test]
fn loss_operands_must_match_and_be_non_empty() {
    let v2 = Vector::new(2, 0.0);
    let v3 = Vector::new(3, 0.0);
    let empty: Vector<f64> = Vector::new(0, 0.0);
    assert_eq!(check_loss_operands(&v2, &v3), Err(Error::VectorDimensionMismatch));
    assert_eq!(check_loss_operands(&empty, &empty), Err(Error::VectorDimensionMismatch));
    assert_eq!(check_loss_operands(&v3, &v3), Ok(()));
}

#[test]
fn cross_entropy_operands_need_positive_predictions() {
    let target = Vector::from_vec(vec![1.0, 0.0]);
    let good = Vector::from_vec(vec![0.8, 0.2]);
    let zero = Vector::from_vec(vec![0.0, 1.0]);
    let negative = Vector::from_vec(vec![0.5, -0.1]);
    let short = Vector::from_vec(vec![0.5]);
    let positive = |p: f64| p > 0.0;
    assert_eq!(check_cross_entropy_operands(&good, &target, positive), Ok(()));
    assert_eq!(check_cross_entropy_operands(&zero, &target, positive), Err(Error::InsufficientData));
    assert_eq!(check_cross_entropy_operands(&negative, &target, positive), Err(Error::InsufficientData));
    assert_eq!(
        check_cross_entropy_operands(&short, &target, positive),
        Err(Error::VectorDimensionMismatch)
    );
}

#[test]
fn samples_need_degrees_of_freedom() {
    let x = Vector::from_vec(vec![1.0, 2.0, 3.0]);
    let z = Vector::from_vec(vec![1.0, 2.0]);
    let empty: Vector<f64> = Vector::from_vec(Vec::new());
    assert_eq!(check_sample(&x, 0), Ok(()));
    assert_eq!(check_sample(&x, 2), Ok(()));
    assert_eq!(check_sample(&x, 3), Err(Error::InsufficientData));
    assert_eq!(check_sample(&empty, 0), Err(Error::InsufficientData));
    assert_eq!(check_paired_sample(&x, &x, 1), Ok(()));
    assert_eq!(check_paired_sample(&x, &z, 0), Err(Error::InsufficientData));
}
