//! The decisions of the training loop: how an epoch's rows are cut into
//! mini-batches, and when training stops early.
use vstd::prelude::*;

use crate::matrix::{lemma_index_in_grid, at, Matrix};
use crate::random::{is_index_permutation, shuffle_indices};
use crate::vector::Vector;

verus! {

/// `batch` holds, in order, the rows `order[start..end]` of `x` and the matching
/// entries of `y`.
pub open spec fn is_batch<T>(
    x: Matrix<T>,
    y: Seq<T>,
    order: Seq<usize>,
    start: int,
    end: int,
    batch: (Matrix<T>, Vector<T>),
) -> bool {
    &&& batch.0.wf()
    &&& batch.0.rows == end - start
    &&& batch.0.cols == x.cols
    &&& batch.1@.len() == end - start
    &&& forall|r: int, c: int|
        0 <= r < end - start && 0 <= c < x.cols ==> #[trigger] batch.0.entry(r, c) == x.entry(
            order[start + r] as int,
            c,
        )
    &&& forall|r: int| 0 <= r < end - start ==> #[trigger] batch.1@[r] == y[order[start + r] as int]
}

/// `batches` cuts `order` into consecutive chunks of `size` (the last one may be
/// shorter), each gathered from `x` and `y` as `is_batch` says.
pub open spec fn is_batching<T>(
    x: Matrix<T>,
    y: Seq<T>,
    order: Seq<usize>,
    size: int,
    batches: Seq<(Matrix<T>, Vector<T>)>,
) -> bool {
    &&& batches.len() * size >= order.len()
    &&& batches.len() == 0 || (batches.len() - 1) * size < order.len()
    &&& forall|b: int|
        0 <= b < batches.len() ==> is_batch(
            x,
            y,
            order,
            b * size,
            if b * size + size <= order.len() {
                b * size + size
            } else {
                order.len() as int
            },
            #[trigger] batches[b],
        )
}

/// Copies the rows `order[start..end]` of `x`, and the matching entries of `y`.
fn gather<T: Copy>(x: &Matrix<T>, y: &Vector<T>, order: &Vec<usize>, start: usize, end: usize) -> (r: (
    Matrix<T>,
    Vector<T>,
))
    requires
        x.wf(),
        start <= end <= order@.len(),
        (end - start) * x.cols <= usize::MAX,
        forall|k: int| 0 <= k < order@.len() ==> #[trigger] order@[k] < x.rows,
        forall|k: int| 0 <= k < order@.len() ==> #[trigger] order@[k] < y@.len(),
    ensures
        is_batch(*x, y@, order@, start as int, end as int, r),
{
    let cols = x.cols;
    let mut bx: Vec<T> = Vec::new();
    let mut by: Vec<T> = Vec::new();
    let mut k: usize = start;
    while k < end
        invariant
            x.wf(),
            cols == x.cols,
            start <= k <= end,
            end <= order@.len(),
            (end - start) * cols <= usize::MAX,
            forall|q: int| 0 <= q < order@.len() ==> #[trigger] order@[q] < x.rows,
            forall|q: int| 0 <= q < order@.len() ==> #[trigger] order@[q] < y@.len(),
            bx@.len() == (k - start) * cols,
            by@.len() == k - start,
            forall|r: int, c: int|
                0 <= r < k - start && 0 <= c < cols ==> #[trigger] at(bx@, cols as int, r, c)
                    == x.entry(order@[start + r] as int, c),
            forall|r: int| 0 <= r < k - start ==> #[trigger] by@[r] == y@[order@[start + r] as int],
        decreases end - k,
    {
        let i = order[k];
        let ghost row = (k - start) as int;
        let mut c: usize = 0;
        while c < cols
            invariant
                x.wf(),
                cols == x.cols,
                start <= k < end,
                row == k - start,
                i < x.rows,
                i == order@[k as int],
                (end - start) * cols <= usize::MAX,
                bx@.len() == row * cols + c,
                c <= cols,
                forall|r: int, cc: int|
                    0 <= r < row && 0 <= cc < cols ==> #[trigger] at(bx@, cols as int, r, cc)
                        == x.entry(order@[start + r] as int, cc),
                forall|cc: int|
                    0 <= cc < c ==> #[trigger] at(bx@, cols as int, row, cc) == x.entry(
                        i as int,
                        cc,
                    ),
            decreases cols - c,
        {
            proof {
                lemma_index_in_grid(i as int, c as int, x.rows as int, cols as int);
                lemma_index_in_grid(row, c as int, (end - start) as int, cols as int);
            }
            let ghost before = bx@;
            bx.push(x.data[i * cols + c]);
            proof {
                assert forall|r: int, cc: int| 0 <= r < row && 0 <= cc < cols implies #[trigger] at(
                    bx@,
                    cols as int,
                    r,
                    cc,
                ) == at(before, cols as int, r, cc) by {
                    lemma_index_in_grid(r, cc, row, cols as int);
                }
                assert forall|cc: int| 0 <= cc <= c implies #[trigger] at(
                    bx@,
                    cols as int,
                    row,
                    cc,
                ) == x.entry(i as int, cc) by {
                    if cc < c {
                        assert(at(bx@, cols as int, row, cc) == at(before, cols as int, row, cc));
                    }
                }
            }
            c += 1;
        }
        by.push(y.data[i]);
        proof {
            assert(bx@.len() == (row + 1) * cols) by (nonlinear_arith)
                requires
                    bx@.len() == row * cols + cols,
            ;
        }
        k += 1;
    }
    (Matrix { rows: end - start, cols, data: bx }, Vector { data: by })
}

/// Cuts `order` into consecutive chunks of `batch_size` rows (the last one may
/// be shorter) and gathers, for each chunk, those rows of `x` and the matching
/// entries of `y`, as fresh copies.
pub fn batches_in_order<T: Copy>(
    x: &Matrix<T>,
    y: &Vector<T>,
    order: &Vec<usize>,
    batch_size: usize,
) -> (r: Vec<(Matrix<T>, Vector<T>)>)
    requires
        x.wf(),
        batch_size > 0,
        order@.len() * x.cols <= usize::MAX,
        forall|k: int| 0 <= k < order@.len() ==> #[trigger] order@[k] < x.rows,
        forall|k: int| 0 <= k < order@.len() ==> #[trigger] order@[k] < y@.len(),
    ensures
        is_batching(*x, y@, order@, batch_size as int, r@),
{
    let n = order.len();
    let mut out: Vec<(Matrix<T>, Vector<T>)> = Vec::new();
    let mut start: usize = 0;
    assert(out@.len() * batch_size == 0);
    while start < n
        invariant
            x.wf(),
            n == order@.len(),
            batch_size > 0,
            n * x.cols <= usize::MAX,
            forall|k: int| 0 <= k < order@.len() ==> #[trigger] order@[k] < x.rows,
            forall|k: int| 0 <= k < order@.len() ==> #[trigger] order@[k] < y@.len(),
            start <= n,
            out@.len() * batch_size >= start,
            start == n || start == out@.len() * batch_size,
            out@.len() == 0 || (out@.len() - 1) * batch_size < start,
            forall|b: int|
                0 <= b < out@.len() ==> is_batch(
                    *x,
                    y@,
                    order@,
                    b * batch_size,
                    if b * batch_size + batch_size <= n {
                        b * batch_size + batch_size
                    } else {
                        n as int
                    },
                    #[trigger] out@[b],
                ),
        decreases n - start,
    {
        let end = if batch_size <= n - start {
            start + batch_size
        } else {
            n
        };
        proof {
            assert((end - start) * x.cols <= n * x.cols) by (nonlinear_arith)
                requires
                    end - start <= n,
            ;
        }
        let batch = gather(x, y, order, start, end);
        let ghost b = out@.len() as int;
        out.push(batch);
        proof {
            assert((b + 1) * batch_size == b * batch_size + batch_size) by (nonlinear_arith);
            assert(out@[b] == batch);
        }
        start = end;
    }
    out
}

/// Shuffles the row indices of `x` and cuts them into mini-batches of
/// `batch_size` rows (the last one may be shorter), copying the rows of `x`
/// and the matching entries of `y`.
pub fn batches<T: Copy>(x: &Matrix<T>, y: &Vector<T>, batch_size: usize) -> (r: Vec<
    (Matrix<T>, Vector<T>),
>)
    requires
        x.wf(),
        batch_size > 0,
        x.rows <= y@.len(),
    ensures
        exists|order: Seq<usize>|
            is_index_permutation(order, x.rows as nat) && #[trigger] is_batching(
                *x,
                y@,
                order,
                batch_size as int,
                r@,
            ),
{
    let order = shuffle_indices(x.rows);
    let r = batches_in_order(x, y, &order, batch_size);
    assert(is_batching(*x, y@, order@, batch_size as int, r@));
    r
}

/// Early stopping, one validation at a time: `improved` is `None` before any
/// best loss exists, and otherwise tells whether the new loss is strictly below
/// the best so far. Gives the no-improvement counter afterwards and whether to
/// stop.
pub open spec fn stop_step(improved: Option<bool>, patience: int, counter: int) -> (int, bool) {
    match improved {
        None => (counter, false),
        Some(true) => (0, false),
        Some(false) => (counter + 1, counter + 1 >= patience),
    }
}

/// The epoch, counted from one, at which early stopping fires over the
/// validation outcomes `events` (starting from `counter`), or `None` if it
/// never does.
pub open spec fn stopping_epoch(events: Seq<Option<bool>>, patience: int, counter: int) -> Option<
    int,
>
    decreases events.len(),
{
    if events.len() == 0 {
        None
    } else {
        let (next, stop) = stop_step(events[0], patience, counter);
        if stop {
            Some(1)
        } else {
            match stopping_epoch(events.drop_first(), patience, next) {
                Some(e) => Some(e + 1),
                None => None,
            }
        }
    }
}

/// Decides, after an epoch's validation, whether training stops.
///
/// `improved` is `None` while there is no best loss yet (the first epoch), and
/// otherwise whether the new validation loss is strictly lower than the best
/// so far. An improvement resets the counter; a miss increments it and stops
/// once it reaches `patience`.
pub fn should_stop(improved: Option<bool>, patience: u32, no_improve_counter: &mut u32) -> (r: bool)
    requires
        improved == Some(false) ==> *old(no_improve_counter) < u32::MAX,
    ensures
        (*final(no_improve_counter) as int, r) == stop_step(
            improved,
            patience as int,
            *old(no_improve_counter) as int,
        ),
{
    match improved {
        None => false,
        Some(true) => {
            *no_improve_counter = 0;
            false
        },
        Some(false) => {
            *no_improve_counter = *no_improve_counter + 1;
            *no_improve_counter >= patience
        },
    }
}

/// Over outcomes that never improve, starting from a counter below
/// `patience`, early stopping fires exactly when the counter reaches
/// `patience`, if the run is long enough.
proof fn lemma_misses_stop_at_patience(events: Seq<Option<bool>>, patience: int, counter: int)
    requires
        0 <= counter < patience,
        forall|k: int| 0 <= k < events.len() ==> #[trigger] events[k] == Some(false),
    ensures
        stopping_epoch(events, patience, counter) == (if events.len() >= patience - counter {
            Some(patience - counter)
        } else {
            None
        }),
    decreases events.len(),
{
    if events.len() > 0 {
        assert(events[0] == Some(false));
        if counter + 1 < patience {
            let rest = events.drop_first();
            assert forall|k: int| 0 <= k < rest.len() implies #[trigger] rest[k] == Some(false) by {
                assert(rest[k] == events[k + 1]);
            }
            lemma_misses_stop_at_patience(rest, patience, counter + 1);
        }
    }
}

/// Early stopping halts exactly at the epoch where the no-improvement counter
/// first reaches the patience: when the first epoch sets the best loss and no
/// later epoch improves on it, training stops at epoch `patience + 1` if it
/// runs that long, and otherwise not at all.
pub proof fn lemma_early_stop_at_patience(events: Seq<Option<bool>>, patience: u32)
    requires
        patience >= 1,
        events.len() >= 1,
        events[0] == None::<bool>,
        forall|k: int| 1 <= k < events.len() ==> #[trigger] events[k] == Some(false),
    ensures
        stopping_epoch(events, patience as int, 0) == (if events.len() > patience {
            Some(patience + 1)
        } else {
            None
        }),
{
    let rest = events.drop_first();
    assert forall|k: int| 0 <= k < rest.len() implies #[trigger] rest[k] == Some(false) by {
        assert(rest[k] == events[k + 1]);
    }
    lemma_misses_stop_at_patience(rest, patience as int, 0);
}

} // verus!
