//! A dense vector: an ordered sequence of scalars whose length never changes.
use vstd::prelude::*;

use crate::error::Error;
use crate::kernel::{accumulates_to, folds_to, is_accumulation, is_fold, mapped_by, zipped_by};

verus! {

/// A dense vector of scalars of type `T`.
///
/// The arithmetic on `T` is handed in by the caller, so the same code serves
/// any scalar type.
#[derive(Debug, Clone)]
pub struct Vector<T> {
    pub data: Vec<T>,
}

impl<T> View for Vector<T> {
    type V = Seq<T>;

    open spec fn view(&self) -> Seq<T> {
        self.data@
    }
}

impl<T: Copy> Vector<T> {
    /// A vector of `len` copies of `value` (zeroes, ones, ...).
    pub fn new(len: usize, value: T) -> (r: Vector<T>)
        ensures
            r@ == Seq::new(len as nat, |_i: int| value),
    {
        let mut data: Vec<T> = Vec::with_capacity(len);
        let mut i: usize = 0;
        while i < len
            invariant
                i <= len,
                data@ == Seq::new(i as nat, |_i: int| value),
            decreases len - i,
        {
            data.push(value);
            i += 1;
        }
        Vector { data }
    }

    /// Builds a vector that owns `data`.
    pub fn from_vec(data: Vec<T>) -> (r: Vector<T>)
        ensures
            r@ == data@,
    {
        Vector { data }
    }

    pub fn len(&self) -> (r: usize)
        ensures
            r == self@.len(),
    {
        self.data.len()
    }

    pub fn is_empty(&self) -> (r: bool)
        ensures
            r == (self@.len() == 0),
    {
        self.data.len() == 0
    }

    /// The element at `idx`, or `None` past the end.
    pub fn get(&self, idx: usize) -> (r: Option<T>)
        ensures
            r == (if idx < self@.len() {
                Some(self@[idx as int])
            } else {
                None
            }),
    {
        if idx < self.data.len() {
            Some(self.data[idx])
        } else {
            None
        }
    }

    /// Writes `s` at `idx`; past the end it fails and leaves the vector as it was.
    pub fn set(&mut self, idx: usize, s: T) -> (r: Result<(), Error>)
        ensures
            idx < old(self)@.len() ==> r == Ok::<(), Error>(()) && final(self)@ == old(self)@.update(
                idx as int,
                s,
            ),
            idx >= old(self)@.len() ==> r == Err::<(), Error>(Error::IndexOutOfBounds)
                && final(self)@ == old(self)@,
    {
        if idx >= self.data.len() {
            return Err(Error::IndexOutOfBounds);
        }
        self.data.set(idx, s);
        Ok(())
    }

    /// Applies `f` to each element (scaling by a constant, for one).
    pub fn map<F: Fn(T) -> T>(&self, f: F) -> (r: Vector<T>)
        requires
            forall|x: T| f.requires((x,)),
        ensures
            mapped_by(f, self@, r@),
    {
        let n = self.data.len();
        let mut out: Vec<T> = Vec::with_capacity(n);
        let mut i: usize = 0;
        while i < n
            invariant
                n == self@.len(),
                i <= n,
                out@.len() == i,
                forall|x: T| f.requires((x,)),
                forall|k: int| 0 <= k < i ==> f.ensures((self@[k],), #[trigger] out@[k]),
            decreases n - i,
        {
            let y = f(self.data[i]);
            out.push(y);
            i += 1;
        }
        Vector { data: out }
    }

    /// Combines the two vectors element by element with `f` (`+` or `-`, for
    /// instance). Vectors of different lengths give `VectorDimensionMismatch`.
    pub fn zip_with<F: Fn(T, T) -> T>(&self, rhs: &Vector<T>, f: F) -> (r: Result<
        Vector<T>,
        Error,
    >)
        requires
            forall|x: T, y: T| f.requires((x, y)),
        ensures
            self@.len() != rhs@.len() ==> r == Err::<Vector<T>, Error>(
                Error::VectorDimensionMismatch,
            ),
            self@.len() == rhs@.len() ==> r is Ok && zipped_by(f, self@, rhs@, r->Ok_0@),
    {
        let n = self.data.len();
        if n != rhs.data.len() {
            return Err(Error::VectorDimensionMismatch);
        }
        let out = zip_vecs(&self.data, &rhs.data, &f);
        Ok(Vector { data: out })
    }

    /// The dot product, accumulated left to right from `init` by `step(acc, a, b)`
    /// (for the ordinary product, `acc + a * b` from zero).
    /// Vectors of different lengths give `VectorDimensionMismatch`.
    pub fn dot<F: Fn(T, T, T) -> T>(&self, other: &Vector<T>, init: T, step: F) -> (r: Result<
        T,
        Error,
    >)
        requires
            forall|acc: T, x: T, y: T| step.requires((acc, x, y)),
        ensures
            self@.len() != other@.len() ==> r == Err::<T, Error>(Error::VectorDimensionMismatch),
            self@.len() == other@.len() ==> r is Ok && accumulates_to(
                step,
                init,
                self@,
                other@,
                r->Ok_0,
            ),
    {
        if self.data.len() != other.data.len() {
            return Err(Error::VectorDimensionMismatch);
        }
        let r = accumulate(&self.data, &other.data, init, &step);
        Ok(r)
    }

    /// Folds `f` over the elements from `init`, left to right (a sum from zero
    /// with `+`).
    pub fn sum<F: Fn(T, T) -> T>(&self, init: T, f: F) -> (r: T)
        requires
            forall|acc: T, x: T| f.requires((acc, x)),
        ensures
            folds_to(f, init, self@, r),
    {
        let n = self.data.len();
        let mut total = init;
        let mut i: usize = 0;
        let ghost mut acc: Seq<T> = seq![init];
        while i < n
            invariant
                n == self@.len(),
                i <= n,
                forall|x: T, y: T| f.requires((x, y)),
                acc.len() == i + 1,
                acc[0] == init,
                acc.last() == total,
                forall|k: int|
                    0 < k <= i ==> f.ensures((acc[k - 1], self@[k - 1]), #[trigger] acc[k]),
            decreases n - i,
        {
            total = f(total, self.data[i]);
            proof {
                acc = acc.push(total);
            }
            i += 1;
        }
        assert(is_fold(f, init, self@, acc));
        total
    }
}

/// Combines `a` and `b` element by element with `f`.
pub(crate) fn zip_vecs<T: Copy, F: Fn(T, T) -> T>(a: &Vec<T>, b: &Vec<T>, f: &F) -> (r: Vec<T>)
    requires
        a@.len() == b@.len(),
        forall|x: T, y: T| f.requires((x, y)),
    ensures
        zipped_by(*f, a@, b@, r@),
{
    let n = a.len();
    let mut out: Vec<T> = Vec::with_capacity(n);
    let mut i: usize = 0;
    while i < n
        invariant
            n == a@.len(),
            n == b@.len(),
            i <= n,
            out@.len() == i,
            forall|x: T, y: T| f.requires((x, y)),
            forall|k: int| 0 <= k < i ==> f.ensures((a@[k], b@[k]), #[trigger] out@[k]),
        decreases n - i,
    {
        let y = f(a[i], b[i]);
        out.push(y);
        i += 1;
    }
    out
}

/// Accumulates `step` over the pairs of `a` and `b` from `init`, left to right.
pub(crate) fn accumulate<T: Copy, F: Fn(T, T, T) -> T>(
    a: &Vec<T>,
    b: &Vec<T>,
    init: T,
    step: &F,
) -> (r: T)
    requires
        a@.len() == b@.len(),
        forall|acc: T, x: T, y: T| step.requires((acc, x, y)),
    ensures
        accumulates_to(*step, init, a@, b@, r),
{
    let n = a.len();
    let mut total = init;
    let mut i: usize = 0;
    let ghost mut acc: Seq<T> = seq![init];
    while i < n
        invariant
            n == a@.len(),
            n == b@.len(),
            i <= n,
            forall|s: T, x: T, y: T| step.requires((s, x, y)),
            acc.len() == i + 1,
            acc[0] == init,
            acc.last() == total,
            forall|k: int|
                0 < k <= i ==> step.ensures((acc[k - 1], a@[k - 1], b@[k - 1]), #[trigger] acc[k]),
        decreases n - i,
    {
        total = step(total, a[i], b[i]);
        proof {
            acc = acc.push(total);
        }
        i += 1;
    }
    assert(is_accumulation(*step, init, a@, b@, acc));
    total
}

} // verus!
