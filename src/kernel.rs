//! What the element-wise and accumulating kernels compute, stated over the
//! scalar operations that a caller hands in as closures.
//!
//! A closure is a relation to Verus (`f.ensures(args, r)`): a kernel promises
//! that each value it produced is one that the closure returned for the
//! corresponding arguments.
use vstd::prelude::*;

verus! {

/// `r` holds, at each position, a result of `f` on the elements of `a` and `b` there.
pub open spec fn zipped_by<T, F: Fn(T, T) -> T>(f: F, a: Seq<T>, b: Seq<T>, r: Seq<T>) -> bool {
    &&& a.len() == b.len()
    &&& r.len() == a.len()
    &&& forall|i: int| 0 <= i < a.len() ==> f.ensures((a[i], b[i]), #[trigger] r[i])
}

/// `r` holds, at each position, a result of `f` on the element of `a` there.
pub open spec fn mapped_by<T, F: Fn(T) -> T>(f: F, a: Seq<T>, r: Seq<T>) -> bool {
    &&& r.len() == a.len()
    &&& forall|i: int| 0 <= i < a.len() ==> f.ensures((a[i],), #[trigger] r[i])
}

/// `acc` is a run of the multiply-accumulate `step` over the pairs `(a[k], b[k])`,
/// starting from `init`: `acc[k + 1]` is a result of `step(acc[k], a[k], b[k])`.
pub open spec fn is_accumulation<T, F: Fn(T, T, T) -> T>(
    step: F,
    init: T,
    a: Seq<T>,
    b: Seq<T>,
    acc: Seq<T>,
) -> bool {
    &&& a.len() == b.len()
    &&& acc.len() == a.len() + 1
    &&& acc[0] == init
    &&& forall|k: int|
        0 < k <= a.len() ==> step.ensures((acc[k - 1], a[k - 1], b[k - 1]), #[trigger] acc[k])
}

/// `r` is what accumulating `step` over `a` and `b` from `init` ends with
/// (for a product: `init + a[0]*b[0] + a[1]*b[1] + ...`, added left to right).
pub open spec fn accumulates_to<T, F: Fn(T, T, T) -> T>(
    step: F,
    init: T,
    a: Seq<T>,
    b: Seq<T>,
    r: T,
) -> bool {
    exists|acc: Seq<T>| #[trigger] is_accumulation(step, init, a, b, acc) && acc.last() == r
}

/// `acc` is a left fold of `f` over `a` from `init`: `acc[k + 1]` is a result of `f(acc[k], a[k])`.
pub open spec fn is_fold<T, F: Fn(T, T) -> T>(f: F, init: T, a: Seq<T>, acc: Seq<T>) -> bool {
    &&& acc.len() == a.len() + 1
    &&& acc[0] == init
    &&& forall|k: int| 0 < k <= a.len() ==> f.ensures((acc[k - 1], a[k - 1]), #[trigger] acc[k])
}

/// `r` is what folding `f` over `a` from `init` ends with.
pub open spec fn folds_to<T, F: Fn(T, T) -> T>(f: F, init: T, a: Seq<T>, r: T) -> bool {
    exists|acc: Seq<T>| #[trigger] is_fold(f, init, a, acc) && acc.last() == r
}

/// Adding `w` to `v` and then subtracting `w` again gives back `v`, entry by
/// entry, up to the tolerance `close`, whenever the scalar round trip
/// `(x + y) - y` lands within `close` of `x`.
pub proof fn lemma_add_sub_round_trip<T, FA: Fn(T, T) -> T, FS: Fn(T, T) -> T>(
    add: FA,
    sub: FS,
    close: spec_fn(T, T) -> bool,
    v: Seq<T>,
    w: Seq<T>,
    sum: Seq<T>,
    back: Seq<T>,
)
    requires
        zipped_by(add, v, w, sum),
        zipped_by(sub, sum, w, back),
        forall|x: T, y: T, u: T, z: T|
            #[trigger] add.ensures((x, y), u) && #[trigger] sub.ensures((u, y), z) ==> close(z, x),
    ensures
        back.len() == v.len(),
        forall|i: int| 0 <= i < v.len() ==> close(#[trigger] back[i], v[i]),
{
    assert forall|i: int| 0 <= i < v.len() implies close(#[trigger] back[i], v[i]) by {
        assert(add.ensures((v[i], w[i]), sum[i]));
        assert(sub.ensures((sum[i], w[i]), back[i]));
    }
}

/// Two runs of a symmetric, single-valued `step`, one over `(v, w)` and one
/// over `(w, v)`, agree up to position `k`.
proof fn lemma_symmetric_runs_agree<T, F: Fn(T, T, T) -> T>(
    step: F,
    init: T,
    v: Seq<T>,
    w: Seq<T>,
    p: Seq<T>,
    q: Seq<T>,
    k: int,
)
    requires
        0 <= k <= v.len(),
        is_accumulation(step, init, v, w, p),
        is_accumulation(step, init, w, v, q),
        forall|acc: T, a: T, b: T, x: T, y: T|
            #[trigger] step.ensures((acc, a, b), x) && #[trigger] step.ensures((acc, b, a), y) ==> x
                == y,
    ensures
        p[k] == q[k],
    decreases k,
{
    if k > 0 {
        lemma_symmetric_runs_agree(step, init, v, w, p, q, k - 1);
        assert(step.ensures((p[k - 1], v[k - 1], w[k - 1]), p[k]));
        assert(step.ensures((q[k - 1], w[k - 1], v[k - 1]), q[k]));
    }
}

/// The dot product does not depend on the order of its operands when each
/// multiply-accumulate step gives one result, the same with its two factors
/// swapped (as `acc + a * b` does for IEEE floats).
pub proof fn lemma_dot_symmetric<T, F: Fn(T, T, T) -> T>(
    step: F,
    init: T,
    v: Seq<T>,
    w: Seq<T>,
    vw: T,
    wv: T,
)
    requires
        accumulates_to(step, init, v, w, vw),
        accumulates_to(step, init, w, v, wv),
        forall|acc: T, a: T, b: T, x: T, y: T|
            #[trigger] step.ensures((acc, a, b), x) && #[trigger] step.ensures((acc, b, a), y) ==> x
                == y,
    ensures
        vw == wv,
{
    let p = choose|p: Seq<T>| #[trigger] is_accumulation(step, init, v, w, p) && p.last() == vw;
    let q = choose|q: Seq<T>| #[trigger] is_accumulation(step, init, w, v, q) && q.last() == wv;
    lemma_symmetric_runs_agree(step, init, v, w, p, q, v.len() as int);
}

} // verus!
