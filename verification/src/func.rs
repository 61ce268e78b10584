//! What the library assumes of the element operations that callers hand in.
//!
//! Element arithmetic (adding, multiplying, comparing numbers) is supplied by
//! the caller as a closure. Where a result folds many calls together, the
//! contract names the closure's value on given arguments, which needs the
//! closure to be total and to give one result per argument tuple.
use vstd::prelude::*;

verus! {

/// `f` accepts every argument and gives one result for each.
pub open spec fn is_function1<A, R, F: Fn(A) -> R>(f: F) -> bool {
    &&& forall|a: A| #[trigger] f.requires((a,))
    &&& forall|a: A, r1: R, r2: R|
        #![trigger f.ensures((a,), r1), f.ensures((a,), r2)]
        f.ensures((a,), r1) && f.ensures((a,), r2) ==> r1 == r2
}

/// `f` accepts every pair and gives one result for each.
pub open spec fn is_function2<A, B, R, F: Fn(A, B) -> R>(f: F) -> bool {
    &&& forall|a: A, b: B| #[trigger] f.requires((a, b))
    &&& forall|a: A, b: B, r1: R, r2: R|
        #![trigger f.ensures((a, b), r1), f.ensures((a, b), r2)]
        f.ensures((a, b), r1) && f.ensures((a, b), r2) ==> r1 == r2
}

/// `f` accepts every triple and gives one result for each.
pub open spec fn is_function3<A, B, C, R, F: Fn(A, B, C) -> R>(f: F) -> bool {
    &&& forall|a: A, b: B, c: C| #[trigger] f.requires((a, b, c))
    &&& forall|a: A, b: B, c: C, r1: R, r2: R|
        #![trigger f.ensures((a, b, c), r1), f.ensures((a, b, c), r2)]
        f.ensures((a, b, c), r1) && f.ensures((a, b, c), r2) ==> r1 == r2
}

/// The result of `f` on `a`.
pub open spec fn apply1<A, R, F: Fn(A) -> R>(f: F, a: A) -> R {
    choose|r: R| f.ensures((a,), r)
}

/// A result that a function returned is the one that `apply1` names.
pub proof fn lemma_apply1<A, R, F: Fn(A) -> R>(f: F, a: A, r: R)
    requires
        is_function1(f),
        f.ensures((a,), r),
    ensures
        apply1(f, a) == r,
{
    let chosen = apply1(f, a);
    assert(f.ensures((a,), chosen));
}

/// The result of `f` on `(a, b)`.
pub open spec fn apply2<A, B, R, F: Fn(A, B) -> R>(f: F, a: A, b: B) -> R {
    choose|r: R| f.ensures((a, b), r)
}

/// The result of `f` on `(a, b, c)`.
pub open spec fn apply3<A, B, C, R, F: Fn(A, B, C) -> R>(f: F, a: A, b: B, c: C) -> R {
    choose|r: R| f.ensures((a, b, c), r)
}

/// A result that a function returned is the one that `apply2` names.
pub proof fn lemma_apply2<A, B, R, F: Fn(A, B) -> R>(f: F, a: A, b: B, r: R)
    requires
        is_function2(f),
        f.ensures((a, b), r),
    ensures
        apply2(f, a, b) == r,
{
    let chosen = apply2(f, a, b);
    assert(f.ensures((a, b), chosen));
}

/// A result that a function returned is the one that `apply3` names.
pub proof fn lemma_apply3<A, B, C, R, F: Fn(A, B, C) -> R>(f: F, a: A, b: B, c: C, r: R)
    requires
        is_function3(f),
        f.ensures((a, b, c), r),
    ensures
        apply3(f, a, b, c) == r,
{
    let chosen = apply3(f, a, b, c);
    assert(f.ensures((a, b, c), chosen));
}

} // verus!
