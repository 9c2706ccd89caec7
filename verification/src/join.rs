//! Fork-join: run independent pieces of work in parallel and wait for all
//! of them.
use vstd::prelude::*;

verus! {

/// `rayon::join` calls both closures, possibly on different threads, and
/// returns their two results as a pair once both have returned. So both
/// closures must be callable, and each component of the pair is a result
/// its closure can return.
pub assume_specification<A, B, RA, RB>[ rayon::join::<A, B, RA, RB> ](oper_a: A, oper_b: B) -> (r: (
    RA,
    RB,
))
    where
        A: FnOnce() -> RA + Send,
        B: FnOnce() -> RB + Send,
        RA: Send,
        RB: Send,
    requires
        oper_a.requires(()),
        oper_b.requires(()),
    ensures
        oper_a.ensures((), r.0),
        oper_b.ensures((), r.1),
;

/// Runs four pieces of work in parallel and returns their results, in the
/// order of the arguments, once all four have finished.
pub fn join4<F1, F2, F3, F4, R1, R2, R3, R4>(f1: F1, f2: F2, f3: F3, f4: F4) -> (r: (
    R1,
    R2,
    R3,
    R4,
))
    where
        F1: FnOnce() -> R1 + Send,
        R1: Send,
        F2: FnOnce() -> R2 + Send,
        R2: Send,
        F3: FnOnce() -> R3 + Send,
        R3: Send,
        F4: FnOnce() -> R4 + Send,
        R4: Send,
    requires
        f1.requires(()),
        f2.requires(()),
        f3.requires(()),
        f4.requires(()),
    ensures
        f1.ensures((), r.0),
        f2.ensures((), r.1),
        f3.ensures((), r.2),
        f4.ensures((), r.3),
{
    let first = move || -> (p: (R1, R2))
        ensures
            f1.ensures((), p.0),
            f2.ensures((), p.1),
    {
        rayon::join(f1, f2)
    };
    let second = move || -> (p: (R3, R4))
        ensures
            f3.ensures((), p.0),
            f4.ensures((), p.1),
    {
        rayon::join(f3, f4)
    };
    let ((r1, r2), (r3, r4)) = rayon::join(first, second);
    (r1, r2, r3, r4)
}

/// Runs eight pieces of work in parallel and returns their results, in the
/// order of the arguments, once all eight have finished.
pub fn join8<F1, F2, F3, F4, F5, F6, F7, F8, R1, R2, R3, R4, R5, R6, R7, R8>(
    f1: F1,
    f2: F2,
    f3: F3,
    f4: F4,
    f5: F5,
    f6: F6,
    f7: F7,
    f8: F8,
) -> (r: (R1, R2, R3, R4, R5, R6, R7, R8))
    where
        F1: FnOnce() -> R1 + Send,
        R1: Send,
        F2: FnOnce() -> R2 + Send,
        R2: Send,
        F3: FnOnce() -> R3 + Send,
        R3: Send,
        F4: FnOnce() -> R4 + Send,
        R4: Send,
        F5: FnOnce() -> R5 + Send,
        R5: Send,
        F6: FnOnce() -> R6 + Send,
        R6: Send,
        F7: FnOnce() -> R7 + Send,
        R7: Send,
        F8: FnOnce() -> R8 + Send,
        R8: Send,
    requires
        f1.requires(()),
        f2.requires(()),
        f3.requires(()),
        f4.requires(()),
        f5.requires(()),
        f6.requires(()),
        f7.requires(()),
        f8.requires(()),
    ensures
        f1.ensures((), r.0),
        f2.ensures((), r.1),
        f3.ensures((), r.2),
        f4.ensures((), r.3),
        f5.ensures((), r.4),
        f6.ensures((), r.5),
        f7.ensures((), r.6),
        f8.ensures((), r.7),
{
    let first = move || -> (p: (R1, R2, R3, R4))
        ensures
            f1.ensures((), p.0),
            f2.ensures((), p.1),
            f3.ensures((), p.2),
            f4.ensures((), p.3),
    {
        join4(f1, f2, f3, f4)
    };
    let second = move || -> (p: (R5, R6, R7, R8))
        ensures
            f5.ensures((), p.0),
            f6.ensures((), p.1),
            f7.ensures((), p.2),
            f8.ensures((), p.3),
    {
        join4(f5, f6, f7, f8)
    };
    let ((r1, r2, r3, r4), (r5, r6, r7, r8)) = rayon::join(first, second);
    (r1, r2, r3, r4, r5, r6, r7, r8)
}

} // verus!
