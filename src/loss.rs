//! Losses: squared error and cross-entropy. Their scalar formulas are
//! supplied with the scalar type; what operands they accept is decided here.
use vstd::prelude::*;

use crate::error::Error;
use crate::vector::Vector;

verus! {

/// Mean squared error: `mean((p - t)^2)`, gradient `(2/n)(p - t)`.
pub struct MSE;

/// Cross-entropy: `-mean(t * ln p)`, gradient `-(1/n)(t / p)`.
pub struct CrossEntropy;

/// Checks that a prediction and a target can be compared by a loss: both
/// must have the same, non-zero length, else `VectorDimensionMismatch`.
pub fn check_loss_operands<T>(pred: &Vector<T>, target: &Vector<T>) -> (r: Result<(), Error>)
    ensures
        r == (if pred@.len() != target@.len() || pred@.len() == 0 {
            Err(Error::VectorDimensionMismatch)
        } else {
            Ok(())
        }),
{
    let n = pred.data.len();
    if n != target.data.len() {
        return Err(Error::VectorDimensionMismatch);
    }
    if n == 0 {
        return Err(Error::VectorDimensionMismatch);
    }
    Ok(())
}

/// Checks the operands of cross-entropy: first as `check_loss_operands`
/// does, then that `positive` holds of every prediction, else
/// `InsufficientData` (a logarithm of a non-positive value is undefined).
pub fn check_cross_entropy_operands<T: Copy, P: Fn(T) -> bool>(
    pred: &Vector<T>,
    target: &Vector<T>,
    positive: P,
) -> (r: Result<(), Error>)
    requires
        forall|x: T| positive.requires((x,)),
    ensures
        pred@.len() != target@.len() || pred@.len() == 0 ==> r == Err::<(), Error>(
            Error::VectorDimensionMismatch,
        ),
        r == Ok::<(), Error>(()) ==> forall|i: int|
            0 <= i < pred@.len() ==> positive.ensures((#[trigger] pred@[i],), true),
        r == Err::<(), Error>(Error::InsufficientData) ==> exists|i: int|
            0 <= i < pred@.len() && positive.ensures((#[trigger] pred@[i],), false),
        pred@.len() == target@.len() && pred@.len() != 0 ==> r == Ok::<(), Error>(()) || r == Err::<
            (),
            Error,
        >(Error::InsufficientData),
{
    check_loss_operands(pred, target)?;
    let n = pred.data.len();
    let mut i: usize = 0;
    while i < n
        invariant
            n == pred@.len(),
            n == target@.len(),
            n > 0,
            i <= n,
            forall|x: T| positive.requires((x,)),
            forall|k: int| 0 <= k < i ==> positive.ensures((#[trigger] pred@[k],), true),
        decreases n - i,
    {
        if !positive(pred.data[i]) {
            return Err(Error::InsufficientData);
        }
        i += 1;
    }
    Ok(())
}

} // verus!
