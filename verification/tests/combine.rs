use parallel_kernels::matmul::combine::{
    apply, combine, combine_rows_with_chunk, combine_serial, combine_with_chunk, rcopy, rmatsub,
    rmatsum, ElementOp, LINEAR_CHUNK,
};
use parallel_kernels::matmul::recursive::add_views;
use parallel_kernels::matmul::view::{rows_of, MatrixViewMut};

fn ramp(len: usize, step: i32) -> Vec<i32> {
    (0..len).map(|i| (i as i32).wrapping_mul(step)).collect()
}

#[test]
fn sum_below_at_and_above_the_threshold() {
    for len in [0usize, 1, 5, LINEAR_CHUNK - 1, LINEAR_CHUNK, LINEAR_CHUNK + 1, 3 * LINEAR_CHUNK + 7]
    {
        let src = ramp(len, 3);
        let before = ramp(len, -5);
        let mut dest = before.clone();
        rmatsum(&src, &mut dest);
        assert_eq!(dest.len(), len);
        for i in 0..len {
            assert_eq!(dest[i], before[i].wrapping_add(src[i]));
        }
    }
}

#[test]
fn sum_of_small_buffers() {
    let mut dest = vec![1, 2, 3];
    rmatsum(&[10, 20, 30], &mut dest);
    assert_eq!(dest, vec![11, 22, 33]);
    let mut dest = vec![i32::MAX, i32::MIN, -1];
    rmatsum(&[1, -1, 1], &mut dest);
    assert_eq!(dest, vec![i32::MIN, i32::MAX, 0]);
}

#[test]
fn difference_below_and_above_the_threshold() {
    let mut dest = vec![1, 2, i32::MIN];
    rmatsub(&[10, -20, 1], &mut dest);
    assert_eq!(dest, vec![-9, 22, i32::MAX]);
    let len = 2 * LINEAR_CHUNK + 1;
    let src = ramp(len, 7);
    let before = ramp(len, 2);
    let mut dest = before.clone();
    rmatsub(&src, &mut dest);
    for i in 0..len {
        assert_eq!(dest[i], before[i].wrapping_sub(src[i]));
    }
}

#[test]
fn copy_below_and_above_the_threshold() {
    let mut dest = vec![1, 2, 3];
    rcopy(&[7, 8, 9], &mut dest);
    assert_eq!(dest, vec![7, 8, 9]);
    let len = 2 * LINEAR_CHUNK + 3;
    let src = ramp(len, 11);
    let mut dest = vec![0; len];
    rcopy(&src, &mut dest);
    assert_eq!(dest, src);
}

#[test]
fn combine_by_operation() {
    assert_eq!(apply(ElementOp::Plus, 2, 3), 5);
    assert_eq!(apply(ElementOp::Minus, 2, 3), -1);
    assert_eq!(apply(ElementOp::Assign, 2, 3), 3);
    assert_eq!(apply(ElementOp::Plus, i32::MAX, 1), i32::MIN);
    assert_eq!(apply(ElementOp::Minus, i32::MIN, 1), i32::MAX);
    let mut dest = vec![5, 6];
    combine(ElementOp::Minus, &[1, 2], &mut dest);
    assert_eq!(dest, vec![4, 4]);
    let mut dest = vec![5, 6];
    combine_serial(ElementOp::Plus, &[1, 2], &mut dest);
    assert_eq!(dest, vec![6, 8]);
    assert_eq!(ElementOp::Plus, ElementOp::Plus);
    assert_ne!(ElementOp::Plus, ElementOp::Assign);
}

#[test]
fn combine_with_every_threshold() {
    let src = ramp(100, 3);
    let before = ramp(100, -7);
    for chunk in [1usize, 2, 3, 7, 50, 99, 100, 101] {
        let mut dest = before.clone();
        combine_with_chunk(chunk, ElementOp::Plus, &src, &mut dest);
        for i in 0..100 {
            assert_eq!(dest[i], before[i] + src[i]);
        }
        let mut dest = before.clone();
        combine_with_chunk(chunk, ElementOp::Assign, &src, &mut dest);
        assert_eq!(dest, src);
    }
}

#[test]
fn rows_combine_with_every_threshold() {
    for (count, width) in [(0usize, 3usize), (1, 1), (1, 40), (2, 5), (3, 4), (7, 6), (16, 16)] {
        let src_before = ramp(count * width, 3);
        let dest_before = ramp(count * width, -7);
        for chunk in [1usize, 2, 5, 7, 24, 41, 42, 255, 256, 257, 100000] {
            for op in [ElementOp::Plus, ElementOp::Minus, ElementOp::Assign] {
                let mut src = src_before.clone();
                let mut dest = dest_before.clone();
                {
                    let src_rows = rows_of(&mut src, count, width);
                    let mut dest_rows = rows_of(&mut dest, count, width);
                    combine_rows_with_chunk(chunk, op, width, &src_rows, &mut dest_rows);
                    assert_eq!(dest_rows.len(), count);
                }
                assert_eq!(src, src_before);
                for k in 0..count * width {
                    assert_eq!(dest[k], apply(op, dest_before[k], src_before[k]));
                }
            }
        }
    }
}

#[test]
fn rows_of_a_quadrant_combine_in_place() {
    // Rows that do not lie next to each other: the right half of every row
    // of a matrix of side 4.
    let mut dest: Vec<i32> = (0..16).collect();
    let mut src = vec![100; 16];
    {
        let mut dest_rows = rows_of(&mut dest, 4, 4);
        let mut src_rows = rows_of(&mut src, 4, 4);
        let (mut dl, mut dr) = (Vec::new(), Vec::new());
        let (mut sl, mut sr) = (Vec::new(), Vec::new());
        parallel_kernels::matmul::view::split_columns(&mut dest_rows, 2, &mut dl, &mut dr);
        parallel_kernels::matmul::view::split_columns(&mut src_rows, 2, &mut sl, &mut sr);
        combine_rows_with_chunk(3, ElementOp::Plus, 2, &sr, &mut dr);
    }
    assert_eq!(dest, vec![0, 1, 102, 103, 4, 5, 106, 107, 8, 9, 110, 111, 12, 13, 114, 115]);
}

#[test]
fn windows_add_below_and_above_the_threshold() {
    for n in [1usize, 2, 64, 256, 512] {
        let x_before = ramp(n * n, 5);
        let y_before = ramp(n * n, 11);
        let mut x = x_before.clone();
        let mut y = y_before.clone();
        add_views(&MatrixViewMut::new(&mut y, n), &mut MatrixViewMut::new(&mut x, n));
        assert_eq!(y, y_before);
        for k in 0..n * n {
            assert_eq!(x[k], x_before[k].wrapping_add(y_before[k]));
        }
    }
    assert!(512 * 512 > LINEAR_CHUNK && 256 * 256 <= LINEAR_CHUNK);
}
