//! What the descriptive statistics accept. Their formulas belong to the
//! scalar type and are supplied with it.
use vstd::prelude::*;

use crate::error::Error;
use crate::vector::Vector;

verus! {

/// Checks that `sample` leaves at least one degree of freedom after `ddof`
/// (so is non-empty), else `InsufficientData`. `ddof` is 0 for population
/// and 1 for sample statistics; a mean takes `ddof = 0`.
pub fn check_sample<T>(sample: &Vector<T>, ddof: usize) -> (r: Result<(), Error>)
    ensures
        r == (if sample@.len() == 0 || ddof >= sample@.len() {
            Err(Error::InsufficientData)
        } else {
            Ok(())
        }),
{
    let len = sample.data.len();
    if len == 0 || ddof >= len {
        return Err(Error::InsufficientData);
    }
    Ok(())
}

/// Checks two paired samples: of equal length, and each as `check_sample`
/// asks, else `InsufficientData`.
pub fn check_paired_sample<T>(x: &Vector<T>, y: &Vector<T>, ddof: usize) -> (r: Result<(), Error>)
    ensures
        r == (if x@.len() != y@.len() || x@.len() == 0 || ddof >= x@.len() {
            Err(Error::InsufficientData)
        } else {
            Ok(())
        }),
{
    if x.data.len() != y.data.len() {
        return Err(Error::InsufficientData);
    }
    check_sample(x, ddof)
}

} // verus!
