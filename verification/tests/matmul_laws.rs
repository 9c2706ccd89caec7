use parallel_kernels::matmul::multiply::multiply;
use parallel_kernels::matmul::recursive::{
    add_views, matmulz, matmulz_views, matmulz_with_chunk, multiply_views_serial, view_entry,
    MULT_CHUNK,
};
use parallel_kernels::matmul::rows::matmul_par_row;
use parallel_kernels::matmul::serial::{matmul_seq, matmul_serial};
use parallel_kernels::matmul::side::{shifted_index, side_bits, side_of};
use parallel_kernels::matmul::view::{
    quarter_chunks, quarter_chunks_mut, rows_of, split_columns, MatrixView, MatrixViewMut,
};

/// A matrix of side `n` with entries that differ from place to place and
/// are large enough for products to overflow now and then.
fn sample(n: usize, seed: u32) -> Vec<i32> {
    let mut state = seed;
    let mut out = Vec::with_capacity(n * n);
    for _ in 0..n * n {
        state = state.wrapping_mul(1664525).wrapping_add(1013904223);
        out.push((state >> 8) as i32 - (1 << 23));
    }
    out
}

fn identity(n: usize) -> Vec<i32> {
    let mut out = vec![0; n * n];
    for i in 0..n {
        out[i * n + i] = 1;
    }
    out
}

/// The product by the definition, entry by entry.
fn by_definition(n: usize, a: &[i32], b: &[i32]) -> Vec<i32> {
    let mut out = vec![0i32; n * n];
    for i in 0..n {
        for j in 0..n {
            let mut sum = 0i32;
            for k in 0..n {
                sum = sum.wrapping_add(a[i * n + k].wrapping_mul(b[k * n + j]));
            }
            out[i * n + j] = sum;
        }
    }
    out
}

#[test]
fn multiply_equals_the_serial_product() {
    for n in [1usize, 2, 4, 8, 16, 32, 64, 128] {
        let a = sample(n, 1);
        let b = sample(n, 2);
        let mut serial = vec![0; n * n];
        matmul_serial(n, &a, &b, &mut serial);
        assert_eq!(serial, by_definition(n, &a, &b));
        assert_eq!(multiply(&a, &b), serial);
    }
}

#[test]
fn all_products_agree_on_a_matrix_above_the_threshold() {
    let n = 64;
    assert!(n * n > MULT_CHUNK);
    let a = sample(n, 3);
    let b = sample(n, 4);
    let want = by_definition(n, &a, &b);
    let mut c = vec![0; n * n];
    matmul_par_row(n, &a, &b, &mut c);
    assert_eq!(c, want);
    let mut c = vec![0; n * n];
    matmul_seq(&a, &b, &mut c);
    assert_eq!(c, want);
    let mut c = vec![0; n * n];
    matmulz(&a, &b, &mut c);
    assert_ne!(c, a);
    assert_eq!(c, want);
}

#[test]
fn recursive_product_equals_the_serial_product() {
    for n in [1usize, 2, 4, 8, 16, 32, 64, 128] {
        let a = sample(n, 13);
        let b = sample(n, 14);
        let mut serial = vec![0; n * n];
        matmul_serial(n, &a, &b, &mut serial);
        let mut c = vec![-1; n * n];
        matmulz(&a, &b, &mut c);
        assert_eq!(c, serial);
    }
}

#[test]
fn recursive_product_of_a_matrix_whose_sum_runs_in_parallel() {
    // Side 512: the matrices hold more entries than the combinator takes
    // in one serial pass.
    let n = 512;
    let a = sample(n, 17);
    let mut c = vec![0; n * n];
    matmulz(&a, &identity(n), &mut c);
    assert_eq!(c, a);
}

#[test]
fn recursive_product_with_every_threshold() {
    let n = 16;
    let a = sample(n, 5);
    let b = sample(n, 6);
    let want = by_definition(n, &a, &b);
    for chunk in [1usize, 3, 4, 16, 63, 64, 255, 256, 1024] {
        let mut c = vec![-1; n * n];
        matmulz_with_chunk(chunk, &a, &b, &mut c);
        assert_eq!(c, want);
    }
}

#[test]
fn sixty_four_by_sixty_four_times_identity_is_unchanged() {
    let a: Vec<i32> = (0..4096).collect();
    let b: Vec<i32> = (0..4096).map(|k| if k / 64 == k % 64 { 1 } else { 0 }).collect();
    let before_a = a.clone();
    let before_b = b.clone();
    let mut dest = vec![0; 4096];
    matmulz(&a, &b, &mut dest);
    assert_eq!(dest, a);
    assert_eq!((dest[0], dest[65], dest[4095]), (0, 65, 4095));
    assert_eq!(a, before_a);
    assert_eq!(b, before_b);
}

#[test]
fn identity_is_neutral() {
    for n in [1usize, 2, 4, 64] {
        let a = sample(n, 7);
        let i = identity(n);
        assert_eq!(multiply(&a, &i), a);
        assert_eq!(multiply(&i, &a), a);
        let mut c = vec![0; n * n];
        matmulz(&a, &i, &mut c);
        assert_eq!(c, a);
    }
}

#[test]
fn products_associate() {
    for n in [2usize, 4, 64] {
        let a = sample(n, 8);
        let b = sample(n, 9);
        let c = sample(n, 10);
        let left = multiply(&multiply(&a, &b), &c);
        let right = multiply(&a, &multiply(&b, &c));
        assert_eq!(left, right);
    }
}

#[test]
fn quadrant_lookup_round_trips() {
    for n in [2usize, 4, 8, 64] {
        let h = n / 2;
        let buffer = sample(n, 11);
        let view = MatrixView::new(&buffer, n);
        let (q0, q1, q2, q3) = quarter_chunks(view);
        let quarters = [q0, q1, q2, q3];
        for i in 0..n {
            for j in 0..n {
                let through = quarters[2 * (i / h) + j / h].get(i % h, j % h);
                assert_eq!(through, buffer[i * n + j]);
                assert_eq!(through, view.get(i, j));
            }
        }
    }
}

/// The entries seen through a view, row by row.
fn read(view: &MatrixView) -> Vec<i32> {
    let mut out = Vec::new();
    for r in 0..view.side {
        for c in 0..view.side {
            out.push(view.get(r, c));
        }
    }
    out
}

#[test]
fn quadrants_of_a_four_by_four_matrix() {
    let v: Vec<i32> = (0..16).collect();
    let (tl, tr, bl, br) = quarter_chunks(MatrixView::new(&v, 4));
    assert_eq!(read(&tl), vec![0, 1, 4, 5]);
    assert_eq!(read(&tr), vec![2, 3, 6, 7]);
    assert_eq!(read(&bl), vec![8, 9, 12, 13]);
    assert_eq!(read(&br), vec![10, 11, 14, 15]);
    assert_eq!((tl.offset, tr.offset, bl.offset, br.offset), (0, 2, 8, 10));
    assert_eq!((tl.side, tl.stride), (2, 4));
    // The quadrants split again.
    let (x0, x1, x2, x3) = quarter_chunks(br);
    assert_eq!((x0.get(0, 0), x1.get(0, 0), x2.get(0, 0), x3.get(0, 0)), (10, 11, 14, 15));
    assert_eq!(x3.stride, 4);
}

#[test]
fn quadrants_of_a_sixty_four_by_sixty_four_matrix() {
    let v: Vec<i32> = (0..4096).collect();
    let (tl, tr, bl, br) = quarter_chunks(MatrixView::new(&v, 64));
    for r in 0..32usize {
        for c in 0..32usize {
            assert_eq!(tl.get(r, c), (64 * r + c) as i32);
            assert_eq!(tr.get(r, c), (64 * r + 32 + c) as i32);
            assert_eq!(bl.get(r, c), (64 * (32 + r) + c) as i32);
            assert_eq!(br.get(r, c), (64 * (32 + r) + 32 + c) as i32);
        }
    }
}

#[test]
fn mutable_quadrants_read_the_parent() {
    for n in [2usize, 4, 8, 64] {
        let h = n / 2;
        let before = sample(n, 15);
        let mut v = before.clone();
        let mut window = MatrixViewMut::new(&mut v, n);
        let (q0, q1, q2, q3) = quarter_chunks_mut(&mut window);
        let quarters = [q0, q1, q2, q3];
        for i in 0..n {
            for j in 0..n {
                assert_eq!(quarters[2 * (i / h) + j / h].rows[i % h][j % h], before[i * n + j]);
            }
        }
    }
}

#[test]
fn a_write_through_a_mutable_quadrant_lands_in_the_parent() {
    let mut v: Vec<i32> = (0..64).collect();
    {
        let mut window = MatrixViewMut::new(&mut v, 8);
        let (_tl, _tr, _bl, mut br) = quarter_chunks_mut(&mut window);
        br.rows[0][0] = -1;
    }
    for k in 0..64 {
        assert_eq!(v[k], if k == 36 { -1 } else { k as i32 });
    }
}

#[test]
fn every_write_through_a_mutable_quadrant_lands_at_its_place() {
    for n in [2usize, 4, 8] {
        let h = n / 2;
        for i in 0..n {
            for j in 0..n {
                let before = sample(n, 16);
                let mut v = before.clone();
                {
                    let mut window = MatrixViewMut::new(&mut v, n);
                    let (q0, q1, q2, q3) = quarter_chunks_mut(&mut window);
                    let mut quarters = [q0, q1, q2, q3];
                    quarters[2 * (i / h) + j / h].rows[i % h][j % h] = 12345;
                }
                for k in 0..n * n {
                    assert_eq!(v[k], if k == i * n + j { 12345 } else { before[k] });
                }
            }
        }
    }
}

#[test]
fn all_four_mutable_quadrants_can_be_written_at_once() {
    let mut v = vec![0; 16];
    {
        let mut window = MatrixViewMut::new(&mut v, 4);
        let (mut tl, mut tr, mut bl, mut br) = quarter_chunks_mut(&mut window);
        rayon::join(
            || rayon::join(|| tl.rows[1][1] = 1, || tr.rows[0][0] = 2),
            || rayon::join(|| bl.rows[1][0] = 3, || br.rows[0][1] = 4),
        );
        // The window is whole again once its quadrants are given up.
        assert_eq!(window.rows.len(), 4);
        assert_eq!(window.rows[1][1], 1);
    }
    assert_eq!(v, vec![0, 0, 2, 0, 0, 1, 0, 0, 0, 0, 0, 4, 3, 0, 0, 0]);
}

#[test]
fn rows_and_columns_are_cut_in_order() {
    let mut v: Vec<i32> = (0..6).collect();
    {
        let mut rows = rows_of(&mut v, 3, 2);
        assert_eq!(rows.len(), 3);
        assert_eq!(rows[0], &[0, 1]);
        assert_eq!(rows[2], &[4, 5]);
        let mut left = Vec::new();
        let mut right = Vec::new();
        split_columns(&mut rows, 1, &mut left, &mut right);
        assert_eq!(left.len(), 3);
        assert_eq!((left[1][0], right[1][0]), (2, 3));
        right[2][0] = 50;
    }
    assert_eq!(v, vec![0, 1, 2, 3, 4, 50]);
    let mut empty: Vec<i32> = Vec::new();
    assert!(rows_of(&mut empty, 0, 4).is_empty());
}

#[test]
fn products_on_windows() {
    let a: Vec<i32> = (0..16).collect();
    let b: Vec<i32> = (0..16).map(|x| 2 * x + 1).collect();
    let want = by_definition(4, &a, &b);
    let av = MatrixView::new(&a, 4);
    let bv = MatrixView::new(&b, 4);
    assert_eq!(view_entry(&av, &bv, 2, 3), want[11]);
    let mut c = vec![0; 16];
    multiply_views_serial(&av, &bv, &mut MatrixViewMut::new(&mut c, 4));
    assert_eq!(c, want);
    let mut c = vec![0; 16];
    matmulz_views(1, av, bv, &mut MatrixViewMut::new(&mut c, 4));
    assert_eq!(c, want);
    // The product of two quadrants, written into a quadrant.
    let (a0, _, _, _) = quarter_chunks(av);
    let (_, b1, _, _) = quarter_chunks(bv);
    let mut c = vec![0; 16];
    {
        let mut window = MatrixViewMut::new(&mut c, 4);
        let (_, _, _, mut br) = quarter_chunks_mut(&mut window);
        matmulz_views(1, a0, b1, &mut br);
    }
    let small = by_definition(2, &[0, 1, 4, 5], &[5, 7, 13, 15]);
    assert_eq!(c, vec![0, 0, 0, 0, 0, 0, 0, 0, 0, 0, small[0], small[1], 0, 0, small[2], small[3]]);
    // The sum of two windows.
    let mut x = vec![1, 2, 3, i32::MAX];
    let mut y = vec![10, 20, 30, 1];
    add_views(&MatrixViewMut::new(&mut y, 2), &mut MatrixViewMut::new(&mut x, 2));
    assert_eq!(x, vec![11, 22, 33, i32::MIN]);
}

#[test]
fn side_of_a_power_of_four() {
    assert_eq!(side_of(1), 1);
    assert_eq!(side_of(4), 2);
    assert_eq!(side_of(16), 4);
    assert_eq!(side_of(1024), 32);
    assert_eq!(side_of(4096), 64);
    assert_eq!(side_of(1 << 30), 1 << 15);
    assert_eq!(side_bits(1), 0);
    assert_eq!(side_bits(4096), 6);
}

#[test]
fn shifted_index_is_row_times_side_plus_column() {
    assert_eq!(shifted_index(0, 0, 0), 0);
    assert_eq!(shifted_index(3, 2, 1), 13);
    assert_eq!(shifted_index(63, 6, 63), 4095);
    assert_eq!(shifted_index(5, 4, 0), 80);
}
