//! The recursive fork-join product: eight quadrant products in parallel,
//! then one elementwise sum.
use crate::arith::{
    lemma_sum_pointwise, lemma_sum_split, lemma_wrap_add, lemma_wrap_fits, lemma_wrapping_add,
    lemma_wrapping_mul, sum, wrap,
};
use crate::matmul::combine::{combine_rows_with_chunk, combined, ElementOp, LINEAR_CHUNK};
use crate::matmul::model::{dot, lemma_coordinates, lemma_position, product, terms};
use crate::matmul::side::{is_power_of_two, lemma_side_squared, multipliable, side, side_of};
use crate::matmul::view::{
    lemma_entry_through_quadrant, lemma_quadrant, quadrant, quadrant_of, quarter_chunks,
    quarter_chunks_mut, MatrixView, MatrixViewMut,
};
use vstd::prelude::*;

verus! {

/// Matrices of at most this many entries are multiplied serially.
pub const MULT_CHUNK: usize = 1024;

/// The quadrants of `c` and `t` hold the eight quadrant products of `a` and
/// `b`, all of side `n`: those of `c` the products of the left quadrants of
/// `a` with the top quadrants of `b`, those of `t` the products of the right
/// quadrants of `a` with the bottom quadrants of `b`.
pub open spec fn holds_quadrant_products(
    a: Seq<i32>,
    b: Seq<i32>,
    c: Seq<i32>,
    t: Seq<i32>,
    n: nat,
) -> bool {
    let h = n / 2;
    &&& quadrant_of(c, n, 0) == product(quadrant_of(a, n, 0), quadrant_of(b, n, 0), h)
    &&& quadrant_of(c, n, 1) == product(quadrant_of(a, n, 0), quadrant_of(b, n, 1), h)
    &&& quadrant_of(c, n, 2) == product(quadrant_of(a, n, 2), quadrant_of(b, n, 0), h)
    &&& quadrant_of(c, n, 3) == product(quadrant_of(a, n, 2), quadrant_of(b, n, 1), h)
    &&& quadrant_of(t, n, 0) == product(quadrant_of(a, n, 1), quadrant_of(b, n, 2), h)
    &&& quadrant_of(t, n, 1) == product(quadrant_of(a, n, 1), quadrant_of(b, n, 3), h)
    &&& quadrant_of(t, n, 2) == product(quadrant_of(a, n, 3), quadrant_of(b, n, 2), h)
    &&& quadrant_of(t, n, 3) == product(quadrant_of(a, n, 3), quadrant_of(b, n, 3), h)
}

/// One half of a dot product of the whole matrices is a dot product of two
/// quadrants: the half over the columns of `a` and rows of `b` numbered
/// `half * h` to `half * h + h - 1`.
proof fn lemma_half_dot(a: Seq<i32>, b: Seq<i32>, n: nat, i: int, j: int, half: int)
    requires
        n >= 2,
        n % 2 == 0,
        0 <= i < n,
        0 <= j < n,
        0 <= half <= 1,
    ensures
        ({
            let h = (n / 2) as int;
            sum(|k: int| terms(a, b, n as int, i, j)(half * h + k), h) == dot(
                quadrant_of(a, n, 2 * (i / h) + half),
                quadrant_of(b, n, 2 * half + j / h),
                h,
                i % h,
                j % h,
            )
        }),
{
    let m = n as int;
    let h = m / 2;
    let ka = 2 * (i / h) + half;
    let kb = 2 * half + j / h;
    let whole = |k: int| terms(a, b, m, i, j)(half * h + k);
    let part = terms(quadrant_of(a, n, ka), quadrant_of(b, n, kb), h, i % h, j % h);
    lemma_quadrant(h, i, j);
    assert(half * h == (if half == 0 { 0int } else { h })) by (nonlinear_arith)
        requires
            0 <= half <= 1,
    ;
    assert(ka / 2 == i / h && ka % 2 == half);
    assert(kb / 2 == half && kb % 2 == j / h);
    assert forall|k: int| 0 <= k < h implies #[trigger] whole(k) == part(k) by {
        lemma_position(h, i % h, k);
        lemma_position(h, k, j % h);
        assert(((i / h) * h + i % h) * m + half * h + k == i * m + (half * h + k));
        assert((half * h + k) * m + (j / h) * h + j % h == (half * h + k) * m + j);
    }
    lemma_sum_pointwise(whole, part, h);
}

/// The block identity behind the recursion: when the quadrants of `c` and
/// `t` hold the eight quadrant products of `a` and `b`, the elementwise sum
/// of `c` and `t` is the product of `a` and `b`.
pub proof fn lemma_block_product(a: Seq<i32>, b: Seq<i32>, c: Seq<i32>, t: Seq<i32>, n: nat)
    requires
        n >= 2,
        n % 2 == 0,
        c.len() == n * n,
        t.len() == n * n,
        holds_quadrant_products(a, b, c, t, n),
    ensures
        combined(ElementOp::Plus, t, c) == product(a, b, n),
{
    let m = n as int;
    let h = m / 2;
    let dest = combined(ElementOp::Plus, t, c);
    let want = product(a, b, n);
    assert forall|p: int| 0 <= p < n * n implies dest[p] == want[p] by {
        lemma_coordinates(m, p);
        let i = p / m;
        let j = p % m;
        let k = quadrant(h, i, j);
        lemma_quadrant(h, i, j);
        lemma_entry_through_quadrant(c, n, i, j);
        lemma_entry_through_quadrant(t, n, i, j);
        let x = dot(quadrant_of(a, n, 2 * (i / h)), quadrant_of(b, n, j / h), h, i % h, j % h);
        let y = dot(
            quadrant_of(a, n, 2 * (i / h) + 1),
            quadrant_of(b, n, 2 + j / h),
            h,
            i % h,
            j % h,
        );
        assert(quadrant_of(c, n, k) == product(
            quadrant_of(a, n, 2 * (i / h)),
            quadrant_of(b, n, j / h),
            h as nat,
        ));
        assert(quadrant_of(t, n, k) == product(
            quadrant_of(a, n, 2 * (i / h) + 1),
            quadrant_of(b, n, 2 + j / h),
            h as nat,
        ));
        lemma_position(h, i % h, j % h);
        assert(c[p] == wrap(x));
        assert(t[p] == wrap(y));
        lemma_wrap_add(x, y);
        let f = terms(a, b, m, i, j);
        lemma_sum_split(f, h, m);
        lemma_half_dot(a, b, n, i, j, 0);
        lemma_half_dot(a, b, n, i, j, 1);
        lemma_sum_pointwise(|q: int| f(0 * h + q), f, h);
        lemma_sum_pointwise(|q: int| f(1 * h + q), |q: int| f(h + q), h);
    }
    assert(dest =~= want);
}

/// Entry `(i, j)` of the product of the matrices seen through `a` and `b`:
/// the dot product of row `i` of `a` and column `j` of `b`, wrapping on
/// overflow.
pub fn view_entry(a: &MatrixView, b: &MatrixView, i: usize, j: usize) -> (r: i32)
    requires
        a.wf(),
        b.wf(),
        a.side == b.side,
        i < a.side,
        j < a.side,
    ensures
        r == wrap(dot(a.matrix(), b.matrix(), a.side as int, i as int, j as int)),
{
    let n = a.side;
    let ghost f = terms(a.matrix(), b.matrix(), n as int, i as int, j as int);
    let mut acc: i32 = 0;
    let mut k: usize = 0;
    proof {
        lemma_wrap_fits(0);
    }
    while k < n
        invariant
            k <= n,
            n == a.side,
            a.wf(),
            b.wf(),
            a.side == b.side,
            i < n,
            j < n,
            f == terms(a.matrix(), b.matrix(), n as int, i as int, j as int),
            acc == wrap(sum(f, k as int)),
        decreases n - k,
    {
        let x = a.get(i, k);
        let y = b.get(k, j);
        let t = x.wrapping_mul(y);
        proof {
            a.lemma_in_bounds(i as int, k as int);
            b.lemma_in_bounds(k as int, j as int);
            lemma_wrapping_mul(x, y);
            lemma_wrapping_add(acc, t);
            lemma_wrap_add(sum(f, k as int), x * y);
            assert(f(k as int) == x * y);
        }
        acc = acc.wrapping_add(t);
        k += 1;
    }
    acc
}

/// `a`, `b` and `d` are windows of one side: the factors and the place of
/// the product of one multiplication.
pub open spec fn can_multiply(a: MatrixView, b: MatrixView, d: MatrixViewMut) -> bool {
    a.wf() && b.wf() && d.wf() && a.side == b.side && d.side() == a.side
}

/// `a`, `b` and `d` can go through the recursive product with the serial
/// threshold `chunk`: the threshold is at least one, so that the recursion
/// ends, the windows are of one side, and the side is a power of two, so
/// that it can be halved down to one.
pub open spec fn can_multiply_recursively(
    chunk: usize,
    a: MatrixView,
    b: MatrixView,
    d: MatrixViewMut,
) -> bool {
    chunk >= 1 && is_power_of_two(a.side as nat) && can_multiply(a, b, d)
}

/// The window `d` holds the product of the matrices seen through `a` and
/// `b`.
pub open spec fn is_view_product(a: MatrixView, b: MatrixView, d: MatrixViewMut) -> bool {
    d.wf() && d.side() == a.side && d.matrix() == product(a.matrix(), b.matrix(), a.side as nat)
}

/// The product by the classic triple loop, read from and written to
/// windows.
pub fn multiply_views_serial(a: &MatrixView, b: &MatrixView, dest: &mut MatrixViewMut)
    requires
        can_multiply(*a, *b, *old(dest)),
    ensures
        is_view_product(*a, *b, *final(dest)),
        forall|i: int|
            0 <= i < old(dest).rows@.len() ==> final(#[trigger] final(dest).rows@[i])@
                == final(old(dest).rows@[i])@,
{
    let n = a.side;
    let ghost want = product(a.matrix(), b.matrix(), n as nat);
    let ghost finals = Seq::new(n as nat, |r: int| final(dest.rows@[r])@);
    let mut i: usize = 0;
    while i < n
        invariant
            i <= n,
            n == a.side,
            a.wf(),
            b.wf(),
            a.side == b.side,
            dest.wf(),
            dest.side() == n,
            want == product(a.matrix(), b.matrix(), n as nat),
            forall|r: int| 0 <= r < n ==> final(#[trigger] dest.rows@[r])@ == finals[r],
            forall|r: int, c: int|
                0 <= r < i && 0 <= c < n ==> #[trigger] dest.rows@[r]@[c] == want[r * n + c],
        decreases n - i,
    {
        let mut j: usize = 0;
        while j < n
            invariant
                i < n,
                j <= n,
                n == a.side,
                a.wf(),
                b.wf(),
                a.side == b.side,
                dest.wf(),
                dest.side() == n,
                want == product(a.matrix(), b.matrix(), n as nat),
                forall|r: int| 0 <= r < n ==> final(#[trigger] dest.rows@[r])@ == finals[r],
                forall|r: int, c: int|
                    0 <= r < i && 0 <= c < n ==> #[trigger] dest.rows@[r]@[c] == want[r * n + c],
                forall|c: int|
                    0 <= c < j ==> #[trigger] dest.rows@[i as int]@[c]
                        == want[i * n + c],
            decreases n - j,
        {
            let v = view_entry(a, b, i, j);
            proof {
                lemma_position(n as int, i as int, j as int);
            }
            dest.rows[i][j] = v;
            j += 1;
        }
        i += 1;
    }
    proof {
        assert forall|p: int| 0 <= p < n * n implies dest.matrix()[p] == want[p] by {
            lemma_coordinates(n as int, p);
        }
        assert(dest.matrix() =~= want);
    }
}

/// Adds the matrix that `src` holds to the matrix that `dest` holds,
/// element by element, wrapping on overflow, with the elementwise
/// combinator: in parallel over the rows while they hold more than
/// [`LINEAR_CHUNK`] elements, serially below that.
pub fn add_views(src: &MatrixViewMut, dest: &mut MatrixViewMut)
    requires
        src.wf(),
        old(dest).wf(),
        src.side() == old(dest).side(),
    ensures
        final(dest).wf(),
        final(dest).side() == old(dest).side(),
        final(dest).matrix() == combined(ElementOp::Plus, src.matrix(), old(dest).matrix()),
        forall|i: int|
            0 <= i < old(dest).rows@.len() ==> final(#[trigger] final(dest).rows@[i])@
                == final(old(dest).rows@[i])@,
{
    let n = dest.rows.len();
    let ghost before = dest.matrix();
    let ghost rows0 = Seq::new(n as nat, |r: int| dest.rows@[r]@);
    let ghost want = combined(ElementOp::Plus, src.matrix(), before);
    combine_rows_with_chunk(
        LINEAR_CHUNK,
        ElementOp::Plus,
        n,
        src.rows.as_slice(),
        dest.rows.as_mut_slice(),
    );
    proof {
        assert forall|i: int| 0 <= i < n implies #[trigger] dest.rows@[i]@.len() == n by {
            assert(dest.rows@[i]@ == combined(ElementOp::Plus, src.rows@[i]@, rows0[i]));
        }
        assert forall|p: int| 0 <= p < n * n implies dest.matrix()[p] == want[p] by {
            lemma_coordinates(n as int, p);
            let i = p / (n as int);
            let j = p % (n as int);
            assert(dest.rows@[i]@ == combined(ElementOp::Plus, src.rows@[i]@, rows0[i]));
        }
        assert(dest.matrix() =~= want);
    }
}

/// Runs the eight quadrant products with `rayon::join`, which calls both of
/// its closures, possibly on different threads, and returns when both have
/// returned. The joins are nested three deep, so all eight products have
/// been computed when this returns. Each closure is one call of
/// [`matmulz_views`] on its own destination, and what is required here of
/// each of the eight is what that call requires, one clause per call. So on
/// return each destination holds what its call leaves in it and is the
/// window it was before. The
/// closures write through mutable references, which is why these calls are
/// not made in verified code; the destinations are eight different borrows,
/// so no two closures write to the same place.
#[verifier::external_body]
fn join8_products(
    chunk: usize,
    a1: MatrixView,
    a2: MatrixView,
    a3: MatrixView,
    a4: MatrixView,
    b1: MatrixView,
    b2: MatrixView,
    b3: MatrixView,
    b4: MatrixView,
    d1: &mut MatrixViewMut,
    d2: &mut MatrixViewMut,
    d3: &mut MatrixViewMut,
    d4: &mut MatrixViewMut,
    t1: &mut MatrixViewMut,
    t2: &mut MatrixViewMut,
    t3: &mut MatrixViewMut,
    t4: &mut MatrixViewMut,
)
    requires
        can_multiply_recursively(chunk, a1, b1, *old(d1)),
        can_multiply_recursively(chunk, a1, b2, *old(d2)),
        can_multiply_recursively(chunk, a3, b1, *old(d3)),
        can_multiply_recursively(chunk, a3, b2, *old(d4)),
        can_multiply_recursively(chunk, a2, b3, *old(t1)),
        can_multiply_recursively(chunk, a2, b4, *old(t2)),
        can_multiply_recursively(chunk, a4, b3, *old(t3)),
        can_multiply_recursively(chunk, a4, b4, *old(t4)),
    ensures
        is_view_product(a1, b1, *final(d1)),
        is_view_product(a1, b2, *final(d2)),
        is_view_product(a3, b1, *final(d3)),
        is_view_product(a3, b2, *final(d4)),
        is_view_product(a2, b3, *final(t1)),
        is_view_product(a2, b4, *final(t2)),
        is_view_product(a4, b3, *final(t3)),
        is_view_product(a4, b4, *final(t4)),
        forall|i: int|
            0 <= i < old(d1).rows@.len() ==> final(#[trigger] final(d1).rows@[i])@
                == final(old(d1).rows@[i])@,
        forall|i: int|
            0 <= i < old(d2).rows@.len() ==> final(#[trigger] final(d2).rows@[i])@
                == final(old(d2).rows@[i])@,
        forall|i: int|
            0 <= i < old(d3).rows@.len() ==> final(#[trigger] final(d3).rows@[i])@
                == final(old(d3).rows@[i])@,
        forall|i: int|
            0 <= i < old(d4).rows@.len() ==> final(#[trigger] final(d4).rows@[i])@
                == final(old(d4).rows@[i])@,
        forall|i: int|
            0 <= i < old(t1).rows@.len() ==> final(#[trigger] final(t1).rows@[i])@
                == final(old(t1).rows@[i])@,
        forall|i: int|
            0 <= i < old(t2).rows@.len() ==> final(#[trigger] final(t2).rows@[i])@
                == final(old(t2).rows@[i])@,
        forall|i: int|
            0 <= i < old(t3).rows@.len() ==> final(#[trigger] final(t3).rows@[i])@
                == final(old(t3).rows@[i])@,
        forall|i: int|
            0 <= i < old(t4).rows@.len() ==> final(#[trigger] final(t4).rows@[i])@
                == final(old(t4).rows@[i])@,
{
    rayon::join(
        || rayon::join(
            || rayon::join(|| matmulz_views(chunk, a1, b1, d1), || matmulz_views(chunk, a1, b2, d2)),
            || rayon::join(|| matmulz_views(chunk, a3, b1, d3), || matmulz_views(chunk, a3, b2, d4)),
        ),
        || rayon::join(
            || rayon::join(|| matmulz_views(chunk, a2, b3, t1), || matmulz_views(chunk, a2, b4, t2)),
            || rayon::join(|| matmulz_views(chunk, a4, b3, t3), || matmulz_views(chunk, a4, b4, t4)),
        ),
    );
}

/// What a window of side `2 * h` holds once its four quadrants, which held
/// `q0` to `q3` when they were given up, have been given up: quadrant `k`
/// of it is `qk`.
proof fn lemma_assembled(
    m: Seq<i32>,
    n: nat,
    k: int,
    q: Seq<i32>,
)
    requires
        n >= 2,
        n % 2 == 0,
        0 <= k <= 3,
        m.len() == n * n,
        q.len() == (n / 2) * (n / 2),
        forall|r: int, c: int|
            0 <= r < n / 2 && 0 <= c < n / 2 ==> m[((k / 2) * (n / 2) + r) * n + (k % 2) * (n / 2)
                + c] == #[trigger] q[r * (n / 2) + c],
    ensures
        quadrant_of(m, n, k) == q,
{
    let h = (n / 2) as int;
    assert forall|p: int| 0 <= p < h * h implies quadrant_of(m, n, k)[p] == q[p] by {
        lemma_coordinates(h, p);
        assert(q[(p / h) * h + p % h] == q[p]);
    }
    assert(quadrant_of(m, n, k) =~= q);
}

/// Multiplies the matrices seen through `a` and `b` into the window
/// `dest`, with the serial threshold given: matrices of at most `chunk`
/// entries are multiplied by the serial triple loop, larger ones by eight
/// products of their quadrants, run in parallel into the quadrants of
/// `dest` and of a scratch matrix, and one elementwise sum of the two.
pub fn matmulz_views(chunk: usize, a: MatrixView, b: MatrixView, dest: &mut MatrixViewMut)
    requires
        can_multiply_recursively(chunk, a, b, *old(dest)),
    ensures
        is_view_product(a, b, *final(dest)),
        forall|i: int|
            0 <= i < old(dest).rows@.len() ==> final(#[trigger] final(dest).rows@[i])@
                == final(old(dest).rows@[i])@,
{
    let n = a.side;
    let len = a.buf.len();
    proof {
        assert((n - 1) * n + n == n * n) by (nonlinear_arith);
        assert((n - 1) * n <= (n - 1) * a.stride) by (nonlinear_arith)
            requires
                n <= a.stride,
                n >= 1,
        ;
    }
    if n * n <= chunk {
        multiply_views_serial(&a, &b, dest);
        return ;
    }
    let h = n / 2;
    assert(n >= 2 && n % 2 == 0 && is_power_of_two(h as nat)) by {
        if n == 1 {
            assert(n * n == 1) by (nonlinear_arith)
                requires
                    n == 1,
            ;
        }
    }
    let ghost dest_finals = Seq::new(n as nat, |r: int| final(dest.rows@[r])@);
    // Scratch space for the second summand of every entry.
    let mut tmp: Vec<i32> = vec![0; n * n];
    let (a1, a2, a3, a4) = quarter_chunks(a);
    let (b1, b2, b3, b4) = quarter_chunks(b);
    let mut t = MatrixViewMut::new(tmp.as_mut_slice(), n);
    let ghost t_finals = Seq::new(n as nat, |r: int| final(t.rows@[r])@);
    let (mut d1, mut d2, mut d3, mut d4) = quarter_chunks_mut(dest);
    let (mut t1, mut t2, mut t3, mut t4) = quarter_chunks_mut(&mut t);
    let ghost fd1 = Seq::new(h as nat, |r: int| final(d1.rows@[r])@);
    let ghost fd2 = Seq::new(h as nat, |r: int| final(d2.rows@[r])@);
    let ghost fd3 = Seq::new(h as nat, |r: int| final(d3.rows@[r])@);
    let ghost fd4 = Seq::new(h as nat, |r: int| final(d4.rows@[r])@);
    let ghost ft1 = Seq::new(h as nat, |r: int| final(t1.rows@[r])@);
    let ghost ft2 = Seq::new(h as nat, |r: int| final(t2.rows@[r])@);
    let ghost ft3 = Seq::new(h as nat, |r: int| final(t3.rows@[r])@);
    let ghost ft4 = Seq::new(h as nat, |r: int| final(t4.rows@[r])@);
    // Multiply 8 submatrices.
    join8_products(
        chunk,
        a1,
        a2,
        a3,
        a4,
        b1,
        b2,
        b3,
        b4,
        &mut d1,
        &mut d2,
        &mut d3,
        &mut d4,
        &mut t1,
        &mut t2,
        &mut t3,
        &mut t4,
    );
    let ghost md1 = d1.matrix();
    let ghost md2 = d2.matrix();
    let ghost md3 = d3.matrix();
    let ghost md4 = d4.matrix();
    let ghost mt1 = t1.matrix();
    let ghost mt2 = t2.matrix();
    let ghost mt3 = t3.matrix();
    let ghost mt4 = t4.matrix();
    proof {
        lemma_given_up(d1, fd1, md1);
        lemma_given_up(d2, fd2, md2);
        lemma_given_up(d3, fd3, md3);
        lemma_given_up(d4, fd4, md4);
        lemma_given_up(t1, ft1, mt1);
        lemma_given_up(t2, ft2, mt2);
        lemma_given_up(t3, ft3, mt3);
        lemma_given_up(t4, ft4, mt4);
    }
    proof {
        let hh = h as int;
        let nn = n as int;
        assert forall|i: int| 0 <= i < n implies #[trigger] dest.rows@[i]@.len() == n by {
            if i < h {
                assert(dest.rows@[i]@ == fd1[i] + fd2[i]);
            } else {
                assert(dest.rows@[hh + (i - hh)]@ == fd3[i - hh] + fd4[i - hh]);
            }
        }
        assert forall|i: int| 0 <= i < n implies #[trigger] t.rows@[i]@.len() == n by {
            if i < h {
                assert(t.rows@[i]@ == ft1[i] + ft2[i]);
            } else {
                assert(t.rows@[hh + (i - hh)]@ == ft3[i - hh] + ft4[i - hh]);
            }
        }
        lemma_window_quadrant(*dest, fd1, fd2, fd3, fd4, md1, 0);
        lemma_window_quadrant(*dest, fd1, fd2, fd3, fd4, md2, 1);
        lemma_window_quadrant(*dest, fd1, fd2, fd3, fd4, md3, 2);
        lemma_window_quadrant(*dest, fd1, fd2, fd3, fd4, md4, 3);
        lemma_window_quadrant(t, ft1, ft2, ft3, ft4, mt1, 0);
        lemma_window_quadrant(t, ft1, ft2, ft3, ft4, mt2, 1);
        lemma_window_quadrant(t, ft1, ft2, ft3, ft4, mt3, 2);
        lemma_window_quadrant(t, ft1, ft2, ft3, ft4, mt4, 3);
        lemma_block_product(a.matrix(), b.matrix(), dest.matrix(), t.matrix(), n as nat);
    }
    // Sum the two summands of every entry.
    add_views(&t, dest);
}

/// A window that is no longer written holds in every row what that row
/// leaves behind.
proof fn lemma_given_up(d: MatrixViewMut, finals: Seq<Seq<i32>>, m: Seq<i32>)
    requires
        has_resolved(d),
        d.wf(),
        m == d.matrix(),
        finals.len() == d.side(),
        forall|r: int| 0 <= r < d.side() ==> final(#[trigger] d.rows@[r])@ == finals[r],
    ensures
        forall|r: int, c: int|
            0 <= r < d.side() && 0 <= c < d.side() ==> #[trigger] finals[r][c]
                == m[r * d.side() + c],
        forall|r: int| 0 <= r < d.side() ==> #[trigger] finals[r].len() == d.side(),
{
    let n = d.side() as int;
    assert(has_resolved(d.rows));
    assert forall|r: int| 0 <= r < n implies #[trigger] finals[r] == d.rows@[r]@ by {
        assert(has_resolved(d.rows@[r]));
    }
    assert forall|r: int, c: int| 0 <= r < n && 0 <= c < n implies #[trigger] finals[r][c] == m[r
        * n + c] by {
        lemma_position(n, r, c);
    }
}

/// Quadrant `k` of a window whose rows are put together from what the rows
/// of its four quadrants left behind is what quadrant `k` held.
proof fn lemma_window_quadrant(
    v: MatrixViewMut,
    f0: Seq<Seq<i32>>,
    f1: Seq<Seq<i32>>,
    f2: Seq<Seq<i32>>,
    f3: Seq<Seq<i32>>,
    m: Seq<i32>,
    k: int,
)
    requires
        v.wf(),
        v.side() >= 2,
        v.side() % 2 == 0,
        0 <= k <= 3,
        m.len() == (v.side() / 2) * (v.side() / 2),
        forall|i: int| 0 <= i < v.side() / 2 ==> #[trigger] v.rows@[i]@ == f0[i] + f1[i],
        forall|i: int|
            0 <= i < v.side() / 2 ==> #[trigger] v.rows@[v.side() / 2 + i]@ == f2[i] + f3[i],
        forall|r: int| 0 <= r < v.side() / 2 ==> #[trigger] f0[r].len() == v.side() / 2,
        forall|r: int| 0 <= r < v.side() / 2 ==> #[trigger] f2[r].len() == v.side() / 2,
        forall|r: int, c: int|
            0 <= r < v.side() / 2 && 0 <= c < v.side() / 2 ==> (if k == 0 {
                f0
            } else if k == 1 {
                f1
            } else if k == 2 {
                f2
            } else {
                f3
            })[r][c] == #[trigger] m[r * (v.side() / 2) + c],
    ensures
        quadrant_of(v.matrix(), v.side(), k) == m,
{
    let n = v.side() as int;
    let h = n / 2;
    let big = v.matrix();
    assert forall|r: int, c: int| 0 <= r < h && 0 <= c < h implies big[((k / 2) * h + r) * n + (k
        % 2) * h + c] == #[trigger] m[r * h + c] by {
        let down = k / 2;
        let right = k % 2;
        assert(down * h == (if k >= 2 { h } else { 0 })) by (nonlinear_arith)
            requires
                down == (if k >= 2 { 1int } else { 0int }),
        ;
        assert(right * h == (if k % 2 == 1 { h } else { 0 })) by (nonlinear_arith)
            requires
                right == (if k % 2 == 1 { 1int } else { 0int }),
        ;
        lemma_position(n, down * h + r, right * h + c);
        if k >= 2 {
            assert(v.rows@[h + r]@ == f2[r] + f3[r]);
        } else {
            assert(v.rows@[r]@ == f0[r] + f1[r]);
        }
    }
    lemma_assembled(big, n as nat, k, m);
}

/// Multiplies two square matrices whose side is a power of two, with the
/// serial threshold given: matrices of at most `chunk` entries are
/// multiplied by the serial triple loop, larger ones by eight products of
/// their quadrants, run in parallel, and one elementwise sum.
///
/// `a`, `b` and `dest` hold matrices in row-major order, entry `(i, j)` at
/// `i * n + j`. On return `dest` holds the product of `a` and `b`, the same
/// that the serial triple loop computes; what it held before is
/// overwritten. Arithmetic is 32-bit and wraps on overflow.
pub fn matmulz_with_chunk(chunk: usize, a: &[i32], b: &[i32], dest: &mut [i32])
    requires
        chunk >= 1,
        multipliable(a@, b@, old(dest)@),
    ensures
        final(dest)@ == product(a@, b@, side(a@.len())),
{
    let n = side_of(a.len());
    proof {
        lemma_side_squared(a@.len());
    }
    let ghost want = product(a@, b@, n as nat);
    let a_view = MatrixView::new(a, n);
    let b_view = MatrixView::new(b, n);
    let mut window = MatrixViewMut::new(dest, n);
    let ghost rows0 = window.rows@;
    let ghost finals = Seq::new(n as nat, |r: int| final(rows0[r])@);
    matmulz_views(chunk, a_view, b_view, &mut window);
    proof {
        lemma_given_up(window, finals, window.matrix());
        assert forall|i: int| 0 <= i < n implies #[trigger] final(rows0[i])@.len() == n by {
            assert(finals[i].len() == n);
        }
    }
    proof {
        assert forall|p: int| 0 <= p < n * n implies final(dest)@[p] == want[p] by {
            lemma_coordinates(n as int, p);
            let i = p / (n as int);
            let j = p % (n as int);
            assert(finals[i][j] == want[i * n + j]);
            assert(final(dest)@[i * n + j] == final(rows0[i])@[j]);
        }
        assert(final(dest)@ =~= want);
    }
}

/// Multiplies two square matrices whose side is a power of two.
///
/// This is [`matmulz_with_chunk`] with the threshold [`MULT_CHUNK`].
pub fn matmulz(a: &[i32], b: &[i32], dest: &mut [i32])
    requires
        multipliable(a@, b@, old(dest)@),
    ensures
        final(dest)@ == product(a@, b@, side(a@.len())),
{
    matmulz_with_chunk(MULT_CHUNK, a, b, dest);
}

} // verus!
