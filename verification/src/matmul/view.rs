//! Square views into matrices stored by rows, and the splitter that cuts a
//! view into its four quadrants.
//!
//! A matrix of side `n` lies in a flat buffer by rows, entry `(i, j)` at
//! `i * n + j`. A view is a square window into such a buffer: it starts at
//! an offset, has a side, and steps from one of its rows to the next by the
//! stride, the side of the matrix it was cut from. A view for reading
//! carries the offset, the side and the stride. A view for writing carries
//! one mutable slice per row, so the four quadrants of a matrix, whose rows
//! interleave in the buffer, can be handed out for writing at the same time
//! without any two of them sharing an element.
use crate::matmul::model::{lemma_coordinates, lemma_position};
use vstd::prelude::*;

verus! {

/// The quadrant of a matrix of side `2 * h` that holds entry `(i, j)`:
/// 0 top-left, 1 top-right, 2 bottom-left, 3 bottom-right.
pub open spec fn quadrant(h: int, i: int, j: int) -> int {
    2 * (i / h) + j / h
}

/// Quadrant `k` (0 top-left, 1 top-right, 2 bottom-left, 3 bottom-right) of
/// the matrix `m` of side `n`, by rows: its entry `(r, c)` is entry
/// `((k / 2) * h + r, (k % 2) * h + c)` of `m`, with `h` half of `n`.
pub open spec fn quadrant_of(m: Seq<i32>, n: nat, k: int) -> Seq<i32> {
    let h = (n / 2) as int;
    Seq::new((h * h) as nat, |p: int| m[((k / 2) * h + p / h) * n + (k % 2) * h + p % h])
}

/// Entry `(i, j)` of a matrix of side `2 * h` lies in quadrant
/// `quadrant(h, i, j)`, at row `i % h` and column `j % h` of it.
pub proof fn lemma_quadrant(h: int, i: int, j: int)
    requires
        h >= 1,
        0 <= i < 2 * h,
        0 <= j < 2 * h,
    ensures
        0 <= quadrant(h, i, j) <= 3,
        quadrant(h, i, j) / 2 == i / h,
        quadrant(h, i, j) % 2 == j / h,
        0 <= i % h < h,
        0 <= j % h < h,
        i / h == (if i < h { 0int } else { 1int }),
        j / h == (if j < h { 0int } else { 1int }),
        i % h == (if i < h { i } else { i - h }),
        j % h == (if j < h { j } else { j - h }),
        (i / h) * h + i % h == i,
        (j / h) * h + j % h == j,
{
    if i < h {
        vstd::arithmetic::div_mod::lemma_fundamental_div_mod_converse(i, h, 0, i);
    } else {
        vstd::arithmetic::div_mod::lemma_fundamental_div_mod_converse(i, h, 1, i - h);
    }
    if j < h {
        vstd::arithmetic::div_mod::lemma_fundamental_div_mod_converse(j, h, 0, j);
    } else {
        vstd::arithmetic::div_mod::lemma_fundamental_div_mod_converse(j, h, 1, j - h);
    }
    assert((i / h) * h == (if i < h { 0int } else { h })) by (nonlinear_arith)
        requires
            i / h == (if i < h { 0int } else { 1int }),
    ;
    assert((j / h) * h == (if j < h { 0int } else { h })) by (nonlinear_arith)
        requires
            j / h == (if j < h { 0int } else { 1int }),
    ;
}

/// Looking an entry up in the quadrant that covers it gives the entry of
/// the whole matrix.
pub proof fn lemma_entry_through_quadrant(m: Seq<i32>, n: nat, i: int, j: int)
    requires
        n >= 2,
        n % 2 == 0,
        0 <= i < n,
        0 <= j < n,
    ensures
        ({
            let h = (n / 2) as int;
            &&& 0 <= (i % h) * h + j % h < h * h
            &&& quadrant_of(m, n, quadrant(h, i, j))[(i % h) * h + j % h] == m[i * n + j]
        }),
{
    let h = (n / 2) as int;
    lemma_quadrant(h, i, j);
    lemma_position(h, i % h, j % h);
}

/// The four quadrants cover the matrix: two matrices with the same four
/// quadrants are the same matrix.
pub proof fn lemma_quadrants_cover(m1: Seq<i32>, m2: Seq<i32>, n: nat)
    requires
        n >= 2,
        n % 2 == 0,
        m1.len() == n * n,
        m2.len() == n * n,
        forall|k: int| 0 <= k <= 3 ==> #[trigger] quadrant_of(m1, n, k) == quadrant_of(m2, n, k),
    ensures
        m1 == m2,
{
    let m = n as int;
    let h = m / 2;
    assert forall|p: int| 0 <= p < n * n implies m1[p] == m2[p] by {
        lemma_coordinates(m, p);
        lemma_quadrant(h, p / m, p % m);
        lemma_entry_through_quadrant(m1, n, p / m, p % m);
        lemma_entry_through_quadrant(m2, n, p / m, p % m);
        assert(quadrant_of(m1, n, quadrant(h, p / m, p % m)) == quadrant_of(
            m2,
            n,
            quadrant(h, p / m, p % m),
        ));
    }
    assert(m1 =~= m2);
}

/// No two quadrants overlap: different entries of the quadrants, or
/// entries of different quadrants, are different entries of the matrix,
/// and every one of them lies in the matrix.
pub proof fn lemma_quadrants_disjoint(
    n: nat,
    k1: int,
    r1: int,
    c1: int,
    k2: int,
    r2: int,
    c2: int,
)
    requires
        n >= 2,
        n % 2 == 0,
        0 <= k1 <= 3,
        0 <= k2 <= 3,
        0 <= r1 < n / 2,
        0 <= c1 < n / 2,
        0 <= r2 < n / 2,
        0 <= c2 < n / 2,
        k1 != k2 || r1 != r2 || c1 != c2,
    ensures
        ({
            let h = (n / 2) as int;
            let place1 = ((k1 / 2) * h + r1) * n + (k1 % 2) * h + c1;
            let place2 = ((k2 / 2) * h + r2) * n + (k2 % 2) * h + c2;
            0 <= place1 < n * n && 0 <= place2 < n * n && place1 != place2
        }),
{
    let m = n as int;
    let h = m / 2;
    let row1 = (k1 / 2) * h + r1;
    let col1 = (k1 % 2) * h + c1;
    let row2 = (k2 / 2) * h + r2;
    let col2 = (k2 % 2) * h + c2;
    assert((k1 / 2) * h == (if k1 >= 2 { h } else { 0 }) && (k1 % 2) * h == (if k1 % 2 == 1 {
        h
    } else {
        0
    })) by (nonlinear_arith)
        requires
            0 <= k1 <= 3,
            k1 / 2 == (if k1 >= 2 { 1int } else { 0int }),
            k1 % 2 == (if k1 == 1 || k1 == 3 { 1int } else { 0int }),
    ;
    assert((k2 / 2) * h == (if k2 >= 2 { h } else { 0 }) && (k2 % 2) * h == (if k2 % 2 == 1 {
        h
    } else {
        0
    })) by (nonlinear_arith)
        requires
            0 <= k2 <= 3,
            k2 / 2 == (if k2 >= 2 { 1int } else { 0int }),
            k2 % 2 == (if k2 == 1 || k2 == 3 { 1int } else { 0int }),
    ;
    lemma_position(m, row1, col1);
    lemma_position(m, row2, col2);
}

/// A square window for reading into a matrix stored by rows.
#[derive(Clone, Copy)]
pub struct MatrixView<'a> {
    /// The buffer of the whole matrix.
    pub buf: &'a [i32],
    /// Where the top-left entry of the window lies in the buffer.
    pub offset: usize,
    /// The side of the window.
    pub side: usize,
    /// The distance in the buffer from one row of the window to the next.
    pub stride: usize,
}

impl<'a> MatrixView<'a> {
    /// The window is not empty and lies inside its buffer.
    pub open spec fn wf(&self) -> bool {
        &&& self.side >= 1
        &&& self.stride >= self.side
        &&& self.offset + (self.side - 1) * self.stride + self.side <= self.buf@.len()
    }

    /// Entry `(i, j)` of the window.
    pub open spec fn at(&self, i: int, j: int) -> i32 {
        self.buf@[self.offset + i * self.stride + j]
    }

    /// The matrix seen through the window, by rows.
    pub open spec fn matrix(&self) -> Seq<i32> {
        Seq::new(
            (self.side * self.side) as nat,
            |p: int| self.at(p / (self.side as int), p % (self.side as int)),
        )
    }

    /// Every entry of the window lies inside the buffer.
    pub proof fn lemma_in_bounds(&self, i: int, j: int)
        requires
            self.wf(),
            0 <= i < self.side,
            0 <= j < self.side,
        ensures
            0 <= self.offset + i * self.stride + j < self.buf@.len(),
            0 <= i * self.stride,
            self.matrix()[i * self.side + j] == self.at(i, j),
            0 <= i * self.side + j < self.side * self.side,
    {
        let s = self.stride as int;
        let n = self.side as int;
        assert(0 <= i * s <= (n - 1) * s) by (nonlinear_arith)
            requires
                0 <= i <= n - 1,
                s >= 0,
        ;
        lemma_position(n, i, j);
    }

    /// The view of a whole matrix of side `side` stored by rows in `buf`.
    pub fn new(buf: &'a [i32], side: usize) -> (v: Self)
        requires
            side >= 1,
            buf@.len() == side * side,
        ensures
            v.wf(),
            v.buf == buf,
            v.offset == 0,
            v.side == side,
            v.stride == side,
            v.matrix() == buf@,
    {
        let v = MatrixView { buf, offset: 0, side, stride: side };
        proof {
            let n = side as int;
            assert((n - 1) * n + n == n * n) by (nonlinear_arith);
            assert forall|p: int| 0 <= p < n * n implies v.matrix()[p] == buf@[p] by {
                lemma_coordinates(n, p);
            }
            assert(v.matrix() =~= buf@);
        }
        v
    }

    /// Entry `(i, j)` of the window.
    pub fn get(&self, i: usize, j: usize) -> (x: i32)
        requires
            self.wf(),
            i < self.side,
            j < self.side,
        ensures
            x == self.at(i as int, j as int),
    {
        let len = self.buf.len();
        proof {
            self.lemma_in_bounds(i as int, j as int);
            assert(i * self.stride <= self.offset + i * self.stride + j < len);
        }
        self.buf[self.offset + i * self.stride + j]
    }
}

/// Splits a square view of even side into its four quadrants: top-left,
/// top-right, bottom-left and bottom-right, in this order.
///
/// Each quadrant is a view into the same buffer with the same stride and
/// half the side, so that looking an entry up through the quadrant that
/// covers it gives the entry of the view that was split.
pub fn quarter_chunks<'a>(v: MatrixView<'a>) -> (r: (
    MatrixView<'a>,
    MatrixView<'a>,
    MatrixView<'a>,
    MatrixView<'a>,
))
    requires
        v.wf(),
        v.side % 2 == 0,
    ensures
        is_quadrant_view(v, r.0, 0),
        is_quadrant_view(v, r.1, 1),
        is_quadrant_view(v, r.2, 2),
        is_quadrant_view(v, r.3, 3),
{
    let h = v.side / 2;
    let len = v.buf.len();
    proof {
        let s = v.stride as int;
        let n = v.side as int;
        assert(h * s + (h - 1) * s + h + h <= (n - 1) * s + n) by (nonlinear_arith)
            requires
                n == 2 * h,
                h >= 1,
                s >= n,
        ;
        assert(0 <= (h - 1) * s && 0 <= h * s) by (nonlinear_arith)
            requires
                h >= 1,
                s >= 0,
        ;
    }
    let down = h * v.stride;
    let q0 = MatrixView { buf: v.buf, offset: v.offset, side: h, stride: v.stride };
    let q1 = MatrixView { buf: v.buf, offset: v.offset + h, side: h, stride: v.stride };
    let q2 = MatrixView { buf: v.buf, offset: v.offset + down, side: h, stride: v.stride };
    let q3 = MatrixView { buf: v.buf, offset: v.offset + down + h, side: h, stride: v.stride };
    proof {
        lemma_quadrant_view(v, q0, 0);
        lemma_quadrant_view(v, q1, 1);
        lemma_quadrant_view(v, q2, 2);
        lemma_quadrant_view(v, q3, 3);
    }
    (q0, q1, q2, q3)
}

/// `q` is quadrant `k` of the view `v`: a view into the same buffer with
/// the same stride and half the side, offset by `k / 2` half sides down and
/// `k % 2` half sides to the right, through which one sees quadrant `k` of
/// the matrix seen through `v`.
pub open spec fn is_quadrant_view(v: MatrixView, q: MatrixView, k: int) -> bool {
    let h = v.side / 2;
    &&& q.wf()
    &&& q.buf == v.buf
    &&& q.side == h
    &&& q.stride == v.stride
    &&& q.offset == v.offset + (k / 2) * h * v.stride + (k % 2) * h
    &&& q.matrix() == quadrant_of(v.matrix(), v.side as nat, k)
    &&& forall|r: int, c: int|
        0 <= r < h && 0 <= c < h ==> #[trigger] q.at(r, c) == v.at((k / 2) * h + r, (k % 2) * h + c)
}

/// A view with the fields of quadrant `k` shows quadrant `k`.
proof fn lemma_quadrant_view(v: MatrixView, q: MatrixView, k: int)
    requires
        v.wf(),
        v.side % 2 == 0,
        0 <= k <= 3,
        q.buf == v.buf,
        q.side == v.side / 2,
        q.stride == v.stride,
        q.offset == v.offset + (if k >= 2 { (v.side / 2) * v.stride } else { 0 }) + (if k % 2 == 1 {
            v.side / 2
        } else {
            0
        }),
    ensures
        is_quadrant_view(v, q, k),
{
    let h = (v.side / 2) as int;
    let n = v.side as int;
    let s = v.stride as int;
    let down = k / 2;
    let right = k % 2;
    assert(down * h * s == (if k >= 2 { h * s } else { 0 })) by (nonlinear_arith)
        requires
            down == (if k >= 2 { 1int } else { 0int }),
    ;
    assert(right * h == (if k % 2 == 1 { h } else { 0 })) by (nonlinear_arith)
        requires
            right == (if k % 2 == 1 { 1int } else { 0int }),
    ;
    assert(down * h == (if k >= 2 { h } else { 0 })) by (nonlinear_arith)
        requires
            down == (if k >= 2 { 1int } else { 0int }),
    ;
    assert(h * s + (h - 1) * s + h + h <= (n - 1) * s + n) by (nonlinear_arith)
        requires
            n == 2 * h,
            h >= 1,
            s >= n,
    ;
    assert(0 <= (h - 1) * s && 0 <= h * s) by (nonlinear_arith)
        requires
            h >= 1,
            s >= 0,
    ;
    assert forall|r: int, c: int| 0 <= r < h && 0 <= c < h implies #[trigger] q.at(r, c) == v.at(
        down * h + r,
        right * h + c,
    ) by {
        assert((down * h + r) * s == down * h * s + r * s) by (nonlinear_arith);
    }
    assert forall|p: int| 0 <= p < h * h implies q.matrix()[p] == quadrant_of(
        v.matrix(),
        n as nat,
        k,
    )[p] by {
        lemma_coordinates(h, p);
        let r = p / h;
        let c = p % h;
        assert(q.matrix()[p] == q.at(r, c));
        v.lemma_in_bounds(down * h + r, right * h + c);
    }
    assert(q.matrix() =~= quadrant_of(v.matrix(), n as nat, k));
}

/// A square window for writing into a matrix stored by rows: one mutable
/// slice per row of the window, each as long as the window is wide.
pub struct MatrixViewMut<'a> {
    /// The rows of the window, from the top.
    pub rows: Vec<&'a mut [i32]>,
}

impl<'a> MatrixViewMut<'a> {
    /// The side of the window.
    pub open spec fn side(&self) -> nat {
        self.rows@.len()
    }

    /// The window is not empty and square.
    pub open spec fn wf(&self) -> bool {
        &&& self.rows@.len() >= 1
        &&& forall|i: int|
            0 <= i < self.rows@.len() ==> #[trigger] self.rows@[i]@.len() == self.rows@.len()
    }

    /// The matrix that the window holds now, by rows.
    pub open spec fn matrix(&self) -> Seq<i32> {
        let n = self.rows@.len() as int;
        Seq::new((n * n) as nat, |p: int| self.rows@[p / n]@[p % n])
    }

    /// The window onto a whole matrix of side `side` stored by rows in
    /// `buf`. What is written through the window is what `buf` holds when
    /// the window is given up.
    pub fn new(buf: &'a mut [i32], side: usize) -> (v: Self)
        requires
            side >= 1,
            old(buf)@.len() == side * side,
        ensures
            v.wf(),
            v.side() == side,
            v.matrix() == old(buf)@,
            (forall|i: int| 0 <= i < side ==> #[trigger] final(v.rows@[i])@.len() == side) ==> {
                &&& final(buf)@.len() == old(buf)@.len()
                &&& forall|i: int, j: int|
                    0 <= i < side && 0 <= j < side ==> final(buf)@[i * side + j]
                        == #[trigger] final(v.rows@[i])@[j]
            },
    {
        let ghost before = buf@;
        let v = MatrixViewMut { rows: rows_of(buf, side, side) };
        proof {
            let n = side as int;
            assert forall|i: int| 0 <= i < n implies #[trigger] v.rows@[i]@.len() == n by {
                lemma_position(n, i, 0);
            }
            assert forall|p: int| 0 <= p < n * n implies v.matrix()[p] == before[p] by {
                lemma_coordinates(n, p);
                lemma_position(n, p / n, p % n);
                assert(v.rows@[p / n]@[p % n] == before[(p / n) * n + p % n]);
            }
            assert(v.matrix() =~= before);
        }
        v
    }
}

/// Cuts a buffer that holds `count` rows of `side` elements into its rows.
///
/// The rows borrow from the buffer: what is written to them is what the
/// buffer holds when they are given up.
pub fn rows_of<'a>(buf: &'a mut [i32], count: usize, side: usize) -> (rows: Vec<&'a mut [i32]>)
    requires
        side >= 1,
        old(buf)@.len() == count * side,
    ensures
        rows@.len() == count,
        forall|i: int|
            0 <= i < count ==> #[trigger] rows@[i]@
                == old(buf)@.subrange(i * side, i * side + side),
        (forall|i: int| 0 <= i < count ==> #[trigger] final(rows@[i])@.len() == side) ==> {
            &&& final(buf)@.len() == old(buf)@.len()
            &&& forall|i: int, j: int|
                0 <= i < count && 0 <= j < side ==> final(buf)@[i * side + j]
                    == #[trigger] final(rows@[i])@[j]
        },
    decreases count,
{
    if count == 0 {
        return Vec::new();
    }
    let len = buf.len();
    proof {
        assert((count - 1) * side + side == count * side) by (nonlinear_arith);
        assert((count - 1) * side >= 0) by (nonlinear_arith)
            requires
                count >= 1,
                side >= 0,
        ;
    }
    let ghost buf_g = buf;
    assert(buf_g@ == buf@);
    assert(final(buf_g)@ == final(buf)@);
    let (head, last) = buf.split_at_mut(len - side);
    let ghost head_g = head;
    let ghost last_view = last@;
    let ghost last_final = final(last)@;
    assert(final(buf_g)@ == final(head_g)@ + last_final);
    let mut rows = rows_of(head, count - 1, side);
    let ghost rows1 = rows@;
    rows.push(last);
    assert(rows@[count - 1]@ == last_view);
    assert(final(rows@[count - 1])@ == last_final);
    proof {
        let c = (count - 1) as int;
        let n = side as int;
        assert forall|i: int| 0 <= i < count implies #[trigger] rows@[i]@ == buf_g@.subrange(
            i * n,
            i * n + n,
        ) by {
            if i < c {
                assert(rows@[i] == rows1[i]);
                assert(i * n + n <= c * n) by (nonlinear_arith)
                    requires
                        0 <= i < c,
                        n >= 0,
                ;
                assert(0 <= i * n) by (nonlinear_arith)
                    requires
                        0 <= i,
                        n >= 0,
                ;
                assert(head_g@.subrange(i * n, i * n + n) =~= buf_g@.subrange(i * n, i * n + n));
            } else {
                assert(last_view =~= buf_g@.subrange(c * n, c * n + n));
            }
        }
        if forall|i: int| 0 <= i < count ==> #[trigger] final(rows@[i])@.len() == side {
            assert(last_final.len() == n);
            assert forall|i: int| 0 <= i < c implies #[trigger] final(rows1[i])@.len() == n by {
                assert(rows@[i] == rows1[i]);
            }
            assert(final(head_g)@.len() == c * n);
        }
        assert forall|i: int, j: int|
            (forall|i: int| 0 <= i < count ==> #[trigger] final(rows@[i])@.len() == side) && 0 <= i
                < count && 0 <= j < n implies
                    final(buf_g)@[i * n + j] == #[trigger] final(rows@[i])@[j] by {
            assert(final(head_g)@.len() == c * n);
            if i < c {
                assert(rows@[i] == rows1[i]);
                assert(final(head_g)@[i * n + j] == final(rows1[i])@[j]);
                assert(i * n + n <= c * n) by (nonlinear_arith)
                    requires
                        0 <= i < c,
                        n >= 0,
                ;
                assert(0 <= i * n) by (nonlinear_arith)
                    requires
                        0 <= i,
                        n >= 0,
                ;
            } else {
                assert(final(buf_g)@[c * n + j] == last_final[j]);
            }
        }
    }
    rows
}

/// Cuts every row of `rows` in two at `h` and appends the left parts to
/// `left` and the right parts to `right`.
///
/// The parts borrow from the rows: what is written to them is what the rows
/// hold when the parts are given up.
pub fn split_columns<'b, 'a>(
    rows: &'b mut [&'a mut [i32]],
    h: usize,
    left: &mut Vec<&'b mut [i32]>,
    right: &mut Vec<&'b mut [i32]>,
)
    requires
        forall|i: int| 0 <= i < old(rows)@.len() ==> #[trigger] old(rows)@[i]@.len() == 2 * h,
        old(left)@.len() == old(right)@.len(),
    ensures
        final(left)@.len() == old(left)@.len() + old(rows)@.len(),
        final(right)@.len() == old(right)@.len() + old(rows)@.len(),
        final(rows)@.len() == old(rows)@.len(),
        forall|i: int| 0 <= i < old(left)@.len() ==> final(left)@[i] == old(left)@[i],
        forall|i: int| 0 <= i < old(right)@.len() ==> final(right)@[i] == old(right)@[i],
        forall|i: int|
            0 <= i < old(rows)@.len() ==> #[trigger] final(left)@[old(left)@.len() + i]@
                == old(rows)@[i]@.subrange(0, h as int),
        forall|i: int|
            0 <= i < old(rows)@.len() ==> #[trigger] final(right)@[old(left)@.len() + i]@
                == old(rows)@[i]@.subrange(h as int, 2 * h),
        forall|i: int|
            0 <= i < old(rows)@.len() ==> #[trigger] final(rows)@[i]@
                == final(final(left)@[old(left)@.len() + i])@
                    + final(final(right)@[old(left)@.len() + i])@,
        forall|i: int|
            0 <= i < old(rows)@.len() ==> final(#[trigger] final(rows)@[i])@
                == final(old(rows)@[i])@,
    decreases old(rows)@.len(),
{
    if rows.len() == 0 {
        return ;
    }
    let ghost k = left@.len() as int;
    let ghost m = rows@.len() as int;
    let ghost rows_g = rows;
    assert(rows_g@ == rows@);
    assert(final(rows_g)@ == final(rows)@);
    let (first, rest) = rows.split_at_mut(1);
    let ghost first_g = first;
    let ghost rest_g = rest;
    let r: &'b mut [i32] = &mut *first[0];
    let ghost r_g = r;
    let (l, rr) = r.split_at_mut(h);
    left.push(l);
    right.push(rr);
    let ghost left1 = left@;
    let ghost right1 = right@;
    assert(left1[k]@ == r_g@.subrange(0, h as int));
    assert(right1[k]@ == r_g@.subrange(h as int, 2 * h));
    assert(final(r_g)@ == final(left1[k])@ + final(right1[k])@);
    split_columns(rest, h, left, right);
    proof {
        assert(final(rows_g)@ == final(first_g)@ + final(rest_g)@);
        assert(final(first_g)@.len() == 1);
        assert forall|i: int| 0 <= i < m implies {
            &&& #[trigger] left@[k + i]@ == rows_g@[i]@.subrange(0, h as int)
            &&& final(rows_g)@[i]@ == final(left@[k + i])@ + final(right@[k + i])@
            &&& final(final(rows_g)@[i])@ == final(rows_g@[i])@
        } by {
            if i == 0 {
                assert(left@[k] == left1[k]);
                assert(right@[k] == right1[k]);
                assert(rows_g@[0] == first_g@[0]);
                assert(final(rows_g)@[0] == final(first_g)@[0]);
            } else {
                assert(left@[k + i] == left@[(k + 1) + (i - 1)]);
                assert(right@[k + i] == right@[(k + 1) + (i - 1)]);
                assert(rows_g@[i] == rest_g@[i - 1]);
                assert(final(rows_g)@[i] == final(rest_g)@[i - 1]);
            }
        }
        assert forall|i: int| 0 <= i < m implies #[trigger] right@[k + i]@ == rows_g@[i]@.subrange(
            h as int,
            2 * h,
        ) by {
            if i == 0 {
                assert(right@[k] == right1[k]);
                assert(rows_g@[0] == first_g@[0]);
            } else {
                assert(right@[k + i] == right@[(k + 1) + (i - 1)]);
                assert(rows_g@[i] == rest_g@[i - 1]);
            }
        }
        assert forall|i: int| 0 <= i < m implies
            #[trigger] final(rows_g)@[i]@ == final(left@[k + i])@ + final(right@[k + i])@ by {
            assert(left@[k + i]@ == rows_g@[i]@.subrange(0, h as int));
        }
        assert forall|i: int| 0 <= i < m implies
            final(#[trigger] final(rows_g)@[i])@ == final(rows_g@[i])@ by {
            assert(left@[k + i]@ == rows_g@[i]@.subrange(0, h as int));
        }
    }
}

/// `q` holds quadrant `k` of what `v` holds: it is square with half the
/// side, and its entry `(r, c)` is entry `((k / 2) * h + r, (k % 2) * h + c)`
/// of `v`.
pub open spec fn is_quadrant_window(v: MatrixViewMut, q: MatrixViewMut, k: int) -> bool {
    let h = (v.side() / 2) as int;
    &&& q.wf()
    &&& q.side() == h
    &&& q.matrix() == quadrant_of(v.matrix(), v.side(), k)
    &&& forall|r: int, c: int|
        0 <= r < h && 0 <= c < h ==> #[trigger] q.rows@[r]@[c] == v.rows@[(k / 2) * h + r]@[(k % 2)
            * h + c]
}

/// Splits a square window of even side into its four quadrants for
/// writing: top-left, top-right, bottom-left and bottom-right, in this
/// order.
///
/// The quadrants borrow disjoint parts of the rows of `v`, so all four can
/// be written at the same time. When they are given up, every row of `v`
/// holds what was written to the two quadrants that cover it, the left one
/// first, and `v` is the window it was before.
pub fn quarter_chunks_mut<'b, 'a>(v: &'b mut MatrixViewMut<'a>) -> (r: (
    MatrixViewMut<'b>,
    MatrixViewMut<'b>,
    MatrixViewMut<'b>,
    MatrixViewMut<'b>,
))
    requires
        old(v).wf(),
        old(v).side() % 2 == 0,
    ensures
        is_quadrant_window(*old(v), r.0, 0),
        is_quadrant_window(*old(v), r.1, 1),
        is_quadrant_window(*old(v), r.2, 2),
        is_quadrant_window(*old(v), r.3, 3),
        final(v).rows@.len() == old(v).rows@.len(),
        forall|i: int|
            0 <= i < old(v).rows@.len() ==> final(#[trigger] final(v).rows@[i])@
                == final(old(v).rows@[i])@,
        forall|i: int|
            0 <= i < old(v).rows@.len() / 2 ==> #[trigger] final(v).rows@[i]@
                == final(r.0.rows@[i])@
                + final(r.1.rows@[i])@,
        forall|i: int|
            0 <= i < old(v).rows@.len() / 2 ==> #[trigger] final(v).rows@[old(v).rows@.len() / 2
                + i]@ == final(r.2.rows@[i])@ + final(r.3.rows@[i])@,
{
    let n = v.rows.len();
    let h = n / 2;
    let ghost v_g = *v;
    let ghost rows_g = v.rows;
    let all = v.rows.as_mut_slice();
    let ghost all_g = all;
    let (top, bottom) = all.split_at_mut(h);
    let ghost top_g = top;
    let ghost bottom_g = bottom;
    let mut q0: Vec<&'b mut [i32]> = Vec::new();
    let mut q1: Vec<&'b mut [i32]> = Vec::new();
    let mut q2: Vec<&'b mut [i32]> = Vec::new();
    let mut q3: Vec<&'b mut [i32]> = Vec::new();
    proof {
        assert forall|i: int| 0 <= i < top_g@.len() implies
            #[trigger] top_g@[i]@.len() == 2 * h by {
            assert(top_g@[i] == rows_g@[i]);
        }
        assert forall|i: int| 0 <= i < bottom_g@.len() implies #[trigger] bottom_g@[i]@.len() == 2
            * h by {
            assert(bottom_g@[i] == rows_g@[h + i]);
        }
    }
    split_columns(top, h, &mut q0, &mut q1);
    split_columns(bottom, h, &mut q2, &mut q3);
    let r0 = MatrixViewMut { rows: q0 };
    let r1 = MatrixViewMut { rows: q1 };
    let r2 = MatrixViewMut { rows: q2 };
    let r3 = MatrixViewMut { rows: q3 };
    proof {
        assert(final(all_g)@ == final(top_g)@ + final(bottom_g)@);
        assert forall|i: int| 0 <= i < h implies rows_g@[i] == top_g@[i] && rows_g@[h + i]
            == bottom_g@[i] by {}
        assert forall|r: int| 0 <= r < h implies
            #[trigger] r2.rows@[r]@ == v_g.rows@[h + r]@.subrange(
            0,
            h as int,
        ) by {
            assert(bottom_g@[r] == rows_g@[h + r]);
            assert(r2.rows@[0 + r]@ == bottom_g@[r]@.subrange(0, h as int));
        }
        assert forall|r: int| 0 <= r < h implies
            #[trigger] r3.rows@[r]@ == v_g.rows@[h + r]@.subrange(
            h as int,
            n as int,
        ) by {
            assert(bottom_g@[r] == rows_g@[h + r]);
            assert(r3.rows@[0 + r]@ == bottom_g@[r]@.subrange(h as int, 2 * h));
        }
        lemma_quadrant_window(v_g, r0, 0);
        lemma_quadrant_window(v_g, r1, 1);
        lemma_quadrant_window(v_g, r2, 2);
        lemma_quadrant_window(v_g, r3, 3);
        assert forall|i: int| 0 <= i < n implies
            final(#[trigger] final(all_g)@[i])@ == final(rows_g@[i])@ by {
            if i < h {
                assert(final(all_g)@[i] == final(top_g)@[i]);
                assert(rows_g@[i] == top_g@[i]);
            } else {
                assert(final(all_g)@[i] == final(bottom_g)@[i - h]);
                assert(rows_g@[i] == bottom_g@[i - h]);
            }
        }
        assert forall|i: int| 0 <= i < h implies
            #[trigger] final(all_g)@[i]@ == final(r0.rows@[i])@ + final(r1.rows@[i])@ by {
            assert(final(all_g)@[i] == final(top_g)@[i]);
        }
        assert forall|i: int| 0 <= i < h implies
            #[trigger] final(all_g)@[h + i]@ == final(r2.rows@[i])@ + final(r3.rows@[i])@ by {
            assert(final(all_g)@[h + i] == final(bottom_g)@[i]);
        }
    }
    (r0, r1, r2, r3)
}

/// A window whose rows are the left or right halves of the upper or lower
/// rows of `v` holds the quadrant of `v` at that place.
proof fn lemma_quadrant_window(v: MatrixViewMut, q: MatrixViewMut, k: int)
    requires
        v.wf(),
        v.side() % 2 == 0,
        0 <= k <= 3,
        q.rows@.len() == v.side() / 2,
        forall|r: int|
            0 <= r < v.side() / 2 ==> #[trigger] q.rows@[r]@ == v.rows@[(if k >= 2 {
                v.side() / 2
            } else {
                0
            }) + r]@.subrange(
                if k % 2 == 1 {
                    (v.side() / 2) as int
                } else {
                    0
                },
                if k % 2 == 1 {
                    v.side() as int
                } else {
                    (v.side() / 2) as int
                },
            ),
    ensures
        is_quadrant_window(v, q, k),
{
    let n = v.side() as int;
    let h = n / 2;
    let down = k / 2;
    let right = k % 2;
    assert(down * h == (if k >= 2 { h } else { 0 })) by (nonlinear_arith)
        requires
            down == (if k >= 2 { 1int } else { 0int }),
    ;
    assert(right * h == (if k % 2 == 1 { h } else { 0 })) by (nonlinear_arith)
        requires
            right == (if k % 2 == 1 { 1int } else { 0int }),
    ;
    assert forall|r: int, c: int| 0 <= r < h && 0 <= c < h implies #[trigger] q.rows@[r]@[c]
        == v.rows@[down * h + r]@[right * h + c] by {
        assert(q.rows@[r]@.len() == h);
    }
    assert forall|i: int| 0 <= i < h implies #[trigger] q.rows@[i]@.len() == h by {}
    assert forall|p: int| 0 <= p < h * h implies q.matrix()[p] == quadrant_of(
        v.matrix(),
        n as nat,
        k,
    )[p] by {
        lemma_coordinates(h, p);
        let r = p / h;
        let c = p % h;
        lemma_position(n, down * h + r, right * h + c);
        assert(q.rows@[r]@[c] == v.rows@[down * h + r]@[right * h + c]);
    }
    assert(q.matrix() =~= quadrant_of(v.matrix(), n as nat, k));
}

} // verus!
