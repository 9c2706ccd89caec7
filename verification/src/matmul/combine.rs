//! The elementwise combinator: `dest[i] op= src[i]` over whole buffers, or
//! over the rows of two windows into matrices, split in halves that run in
//! parallel while there is much to combine.
use crate::arith::{lemma_wrapping_add, lemma_wrapping_sub, wrap};
use vstd::prelude::*;

verus! {

/// Buffers of at most this many elements are combined in one serial pass.
pub const LINEAR_CHUNK: usize = 65536;

/// What the combinator does to each pair of elements.
#[derive(Clone, Copy, Debug, PartialEq, Eq)]
pub enum ElementOp {
    /// `dest[i] += src[i]`, wrapping on overflow.
    Plus,
    /// `dest[i] -= src[i]`, wrapping on overflow.
    Minus,
    /// `dest[i] = src[i]`.
    Assign,
}

/// The element that `op` leaves in the destination, given the destination's
/// element `d` and the source's element `s`.
pub open spec fn applied(op: ElementOp, d: i32, s: i32) -> i32 {
    match op {
        ElementOp::Plus => wrap(d + s),
        ElementOp::Minus => wrap(d - s),
        ElementOp::Assign => s,
    }
}

/// The buffer that combining `src` into `dest` leaves in `dest`.
pub open spec fn combined(op: ElementOp, src: Seq<i32>, dest: Seq<i32>) -> Seq<i32> {
    Seq::new(dest.len(), |i: int| applied(op, dest[i], src[i]))
}

/// Combining two halves separately combines the whole.
pub proof fn lemma_combined_halves(op: ElementOp, src: Seq<i32>, dest: Seq<i32>, mid: int)
    requires
        src.len() == dest.len(),
        0 <= mid <= dest.len(),
    ensures
        combined(op, src.subrange(0, mid), dest.subrange(0, mid)) + combined(
            op,
            src.subrange(mid, src.len() as int),
            dest.subrange(mid, dest.len() as int),
        ) == combined(op, src, dest),
{
    assert(combined(op, src.subrange(0, mid), dest.subrange(0, mid)) + combined(
        op,
        src.subrange(mid, src.len() as int),
        dest.subrange(mid, dest.len() as int),
    ) =~= combined(op, src, dest));
}

/// One element of the combination.
pub fn apply(op: ElementOp, d: i32, s: i32) -> (r: i32)
    ensures
        r == applied(op, d, s),
{
    proof {
        lemma_wrapping_add(d, s);
        lemma_wrapping_sub(d, s);
    }
    match op {
        ElementOp::Plus => d.wrapping_add(s),
        ElementOp::Minus => d.wrapping_sub(s),
        ElementOp::Assign => s,
    }
}

/// Combines `src` into `dest` in one serial pass.
pub fn combine_serial(op: ElementOp, src: &[i32], dest: &mut [i32])
    requires
        src@.len() == old(dest)@.len(),
    ensures
        final(dest)@ == combined(op, src@, old(dest)@),
{
    let n = dest.len();
    let mut i: usize = 0;
    while i < n
        invariant
            i <= n,
            n == dest@.len(),
            src@.len() == n,
            old(dest)@.len() == n,
            forall|k: int| 0 <= k < i ==> dest@[k] == applied(op, old(dest)@[k], src@[k]),
            forall|k: int| i <= k < n ==> dest@[k] == old(dest)@[k],
        decreases n - i,
    {
        let v = apply(op, dest[i], src[i]);
        dest[i] = v;
        i += 1;
    }
    assert(dest@ =~= combined(op, src@, old(dest)@));
}

/// Runs two combinations with `rayon::join`, which calls both closures,
/// possibly on different threads, and returns when both have returned. Each
/// closure is one call of [`combine_with_chunk`] on its own pair of
/// buffers, so on return each destination holds what that call leaves in
/// it. The closures write through mutable references, which is why this
/// call is not made in verified code.
#[verifier::external_body]
fn join_combine(
    chunk: usize,
    op: ElementOp,
    s1: &[i32],
    d1: &mut [i32],
    s2: &[i32],
    d2: &mut [i32],
)
    requires
        chunk >= 1,
        s1@.len() == old(d1)@.len(),
        s2@.len() == old(d2)@.len(),
    ensures
        final(d1)@ == combined(op, s1@, old(d1)@),
        final(d2)@ == combined(op, s2@, old(d2)@),
{
    rayon::join(
        || combine_with_chunk(chunk, op, s1, d1),
        || combine_with_chunk(chunk, op, s2, d2),
    );
}

/// Combines `src` into `dest` element by element, with the serial
/// threshold given: on return every `dest[i]` holds `op` applied to what it
/// held before and `src[i]`.
///
/// Buffers longer than `chunk` are split at the midpoint and the halves
/// combined in parallel, each by the same rule; shorter ones are combined
/// in one serial pass.
pub fn combine_with_chunk(chunk: usize, op: ElementOp, src: &[i32], dest: &mut [i32])
    requires
        chunk >= 1,
        src@.len() == old(dest)@.len(),
    ensures
        final(dest)@ == combined(op, src@, old(dest)@),
{
    if dest.len() <= chunk {
        combine_serial(op, src, dest);
        return ;
    }
    let mid = dest.len() / 2;
    let (s1, s2) = src.split_at(mid);
    let (d1, d2) = dest.split_at_mut(mid);
    join_combine(chunk, op, s1, d1, s2, d2);
    proof {
        lemma_combined_halves(op, src@, old(dest)@, mid as int);
    }
}

/// Combines `src` into `dest` element by element: on return every
/// `dest[i]` holds `op` applied to what it held before and `src[i]`.
///
/// This is [`combine_with_chunk`] with the threshold [`LINEAR_CHUNK`].
pub fn combine(op: ElementOp, src: &[i32], dest: &mut [i32])
    requires
        src@.len() == old(dest)@.len(),
    ensures
        final(dest)@ == combined(op, src@, old(dest)@),
{
    combine_with_chunk(LINEAR_CHUNK, op, src, dest);
}

/// The rows of `src` can be combined into the rows of `dest` with the
/// serial threshold `chunk`: the threshold is at least one, so that the
/// recursion ends, there are as many rows here as there, and every row has
/// `width` elements.
pub open spec fn can_combine_rows(
    chunk: usize,
    width: usize,
    src: Seq<&mut [i32]>,
    dest: Seq<&mut [i32]>,
) -> bool {
    &&& chunk >= 1
    &&& src.len() == dest.len()
    &&& forall|i: int| 0 <= i < dest.len() ==> #[trigger] src[i]@.len() == width
    &&& forall|i: int| 0 <= i < dest.len() ==> #[trigger] dest[i]@.len() == width
}

/// Runs two combinations of rows with `rayon::join`, which calls both
/// closures, possibly on different threads, and returns when both have
/// returned. Each closure is one call of [`combine_rows_with_chunk`] on its
/// own rows, and what is required here of each of the two is what that call
/// requires. So on return the rows of each destination hold what its call
/// leaves in them, and are the rows they were before. The closures write
/// through mutable references, which is why this call is not made in
/// verified code.
#[verifier::external_body]
fn join_combine_rows(
    chunk: usize,
    op: ElementOp,
    width: usize,
    s1: &[&mut [i32]],
    d1: &mut [&mut [i32]],
    s2: &[&mut [i32]],
    d2: &mut [&mut [i32]],
)
    requires
        can_combine_rows(chunk, width, s1@, old(d1)@),
        can_combine_rows(chunk, width, s2@, old(d2)@),
    ensures
        final(d1)@.len() == old(d1)@.len(),
        final(d2)@.len() == old(d2)@.len(),
        forall|i: int|
            0 <= i < old(d1)@.len() ==> #[trigger] final(d1)@[i]@
                == combined(op, s1@[i]@, old(d1)@[i]@),
        forall|i: int|
            0 <= i < old(d2)@.len() ==> #[trigger] final(d2)@[i]@
                == combined(op, s2@[i]@, old(d2)@[i]@),
        forall|i: int|
            0 <= i < old(d1)@.len() ==> final(#[trigger] final(d1)@[i])@
                == final(old(d1)@[i])@,
        forall|i: int|
            0 <= i < old(d2)@.len() ==> final(#[trigger] final(d2)@[i])@
                == final(old(d2)@[i])@,
{
    rayon::join(
        || combine_rows_with_chunk(chunk, op, width, s1, d1),
        || combine_rows_with_chunk(chunk, op, width, s2, d2),
    );
}

/// Combines the rows of `src` into the rows of `dest`, row `i` into row
/// `i`, element by element, with the serial threshold given.
///
/// The rows need not lie next to each other in memory, as the rows of a
/// window into a matrix do not. Two or more rows that together hold more
/// than `chunk` elements are split at the middle row and the halves
/// combined in parallel, each by the same rule; otherwise the rows are
/// combined one after the other by [`combine_with_chunk`], which splits a
/// row that is itself longer than `chunk`.
pub fn combine_rows_with_chunk(
    chunk: usize,
    op: ElementOp,
    width: usize,
    src: &[&mut [i32]],
    dest: &mut [&mut [i32]],
)
    requires
        can_combine_rows(chunk, width, src@, old(dest)@),
    ensures
        final(dest)@.len() == old(dest)@.len(),
        forall|i: int|
            0 <= i < old(dest)@.len() ==> #[trigger] final(dest)@[i]@
                == combined(op, src@[i]@, old(dest)@[i]@),
        forall|i: int|
            0 <= i < old(dest)@.len() ==> final(#[trigger] final(dest)@[i])@
                == final(old(dest)@[i])@,
{
    let m = dest.len();
    let large = match m.checked_mul(width) {
        Some(total) => total > chunk,
        None => true,
    };
    if m < 2 || !large {
        let ghost before = Seq::new(m as nat, |r: int| dest@[r]@);
        let ghost finals = Seq::new(m as nat, |r: int| final(dest@[r])@);
        let mut i: usize = 0;
        while i < m
            invariant
                i <= m,
                chunk >= 1,
                dest@.len() == m,
                src@.len() == m,
                before.len() == m,
                forall|r: int| 0 <= r < m ==> #[trigger] src@[r]@.len() == before[r].len(),
                forall|r: int| 0 <= r < m ==> final(#[trigger] dest@[r])@ == finals[r],
                forall|r: int|
                    0 <= r < i ==> #[trigger] dest@[r]@ == combined(op, src@[r]@, before[r]),
                forall|r: int| i <= r < m ==> #[trigger] dest@[r]@ == before[r],
            decreases m - i,
        {
            combine_with_chunk(chunk, op, &*src[i], &mut *dest[i]);
            i += 1;
        }
        return ;
    }
    let mid = m / 2;
    let ghost dest_g = dest;
    assert(dest_g@ == dest@);
    assert(final(dest_g)@ == final(dest)@);
    let (s1, s2) = src.split_at(mid);
    let (d1, d2) = dest.split_at_mut(mid);
    let ghost d1_g = d1;
    let ghost d2_g = d2;
    proof {
        assert forall|i: int| 0 <= i < d1_g@.len() implies #[trigger] s1@[i]@.len() == width by {
            assert(s1@[i] == src@[i]);
        }
        assert forall|i: int| 0 <= i < d1_g@.len() implies #[trigger] d1_g@[i]@.len() == width by {
            assert(d1_g@[i] == dest_g@[i]);
        }
        assert forall|i: int| 0 <= i < d2_g@.len() implies #[trigger] s2@[i]@.len() == width by {
            assert(s2@[i] == src@[mid + i]);
        }
        assert forall|i: int| 0 <= i < d2_g@.len() implies #[trigger] d2_g@[i]@.len() == width by {
            assert(d2_g@[i] == dest_g@[mid + i]);
        }
    }
    join_combine_rows(chunk, op, width, s1, d1, s2, d2);
    proof {
        assert(final(dest_g)@ == final(d1_g)@ + final(d2_g)@);
        assert forall|i: int| 0 <= i < m implies #[trigger] final(dest_g)@[i]@ == combined(
            op,
            src@[i]@,
            dest_g@[i]@,
        ) by {
            if i < mid {
                assert(final(dest_g)@[i] == final(d1_g)@[i]);
                assert(s1@[i] == src@[i]);
                assert(d1_g@[i] == dest_g@[i]);
            } else {
                assert(final(dest_g)@[i] == final(d2_g)@[i - mid]);
                assert(s2@[i - mid] == src@[i]);
                assert(d2_g@[i - mid] == dest_g@[i]);
            }
        }
        assert forall|i: int| 0 <= i < m implies final(#[trigger] final(dest_g)@[i])@
            == final(dest_g@[i])@ by {
            if i < mid {
                assert(final(dest_g)@[i] == final(d1_g)@[i]);
                assert(d1_g@[i] == dest_g@[i]);
            } else {
                assert(final(dest_g)@[i] == final(d2_g)@[i - mid]);
                assert(d2_g@[i - mid] == dest_g@[i]);
            }
        }
    }
}

/// Adds `src` to `dest` element by element, wrapping on overflow.
pub fn rmatsum(src: &[i32], dest: &mut [i32])
    requires
        src@.len() == old(dest)@.len(),
    ensures
        final(dest)@ == combined(ElementOp::Plus, src@, old(dest)@),
        final(dest)@.len() == old(dest)@.len(),
        forall|i: int|
            0 <= i < old(dest)@.len() ==> final(dest)@[i] == wrap(old(dest)@[i] + src@[i]),
{
    combine(ElementOp::Plus, src, dest);
}

/// Subtracts `src` from `dest` element by element, wrapping on overflow.
pub fn rmatsub(src: &[i32], dest: &mut [i32])
    requires
        src@.len() == old(dest)@.len(),
    ensures
        final(dest)@ == combined(ElementOp::Minus, src@, old(dest)@),
        final(dest)@.len() == old(dest)@.len(),
        forall|i: int|
            0 <= i < old(dest)@.len() ==> final(dest)@[i] == wrap(old(dest)@[i] - src@[i]),
{
    combine(ElementOp::Minus, src, dest);
}

/// Copies `src` over `dest`.
pub fn rcopy(src: &[i32], dest: &mut [i32])
    requires
        src@.len() == old(dest)@.len(),
    ensures
        final(dest)@ == src@,
{
    combine(ElementOp::Assign, src, dest);
    assert(dest@ =~= src@);
}

} // verus!
