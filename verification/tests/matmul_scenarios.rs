use parallel_kernels::matmul::multiply::multiply;
use parallel_kernels::matmul::recursive::{matmulz, matmulz_with_chunk};
use parallel_kernels::matmul::rows::matmul_par_row;
use parallel_kernels::matmul::serial::{matmul_seq, matmul_serial, multiply_row, row_entry};

#[test]
fn two_by_two_times_identity_is_unchanged() {
    let a = vec![1, 2, 3, 4];
    let b = vec![1, 0, 0, 1];
    let mut c = vec![0; 4];
    matmulz(&a, &b, &mut c);
    assert_eq!(c, vec![1, 2, 3, 4]);
    assert_eq!(multiply(&a, &b), vec![1, 2, 3, 4]);
}

#[test]
fn two_by_two_all_ones_squared_is_all_twos() {
    let a = vec![1, 1, 1, 1];
    let mut c = vec![0; 4];
    matmulz(&a, &a, &mut c);
    assert_eq!(c, vec![2, 2, 2, 2]);
    assert_eq!(multiply(&a, &a), vec![2, 2, 2, 2]);
}

#[test]
fn four_by_four_all_ones_squared_is_all_fours() {
    let a = vec![1; 16];
    let mut c = vec![7; 16];
    matmulz(&a, &a, &mut c);
    assert_eq!(c, vec![4; 16]);
    let mut d = vec![7; 16];
    matmulz_with_chunk(1, &a, &a, &mut d);
    assert_eq!(d, vec![4; 16]);
    assert_eq!(multiply(&a, &a), vec![4; 16]);
}

#[test]
fn one_by_one_product_is_the_product_of_the_entries() {
    let mut c = vec![0];
    matmulz(&[6], &[7], &mut c);
    assert_eq!(c, vec![42]);
    matmul_serial(1, &[-3], &[5], &mut c);
    assert_eq!(c, vec![-15]);
    matmul_seq(&[2], &[2], &mut c);
    assert_eq!(c, vec![4]);
    assert_eq!(multiply(&[9], &[-1]), vec![-9]);
}

#[test]
fn two_by_two_product_has_the_textbook_entries() {
    let a = vec![1, 2, 3, 4];
    let b = vec![5, 6, 7, 8];
    let want = vec![19, 22, 43, 50];
    let mut c = vec![0; 4];
    matmul_serial(2, &a, &b, &mut c);
    assert_eq!(c, want);
    let mut c = vec![0; 4];
    matmul_par_row(2, &a, &b, &mut c);
    assert_eq!(c, want);
    let mut c = vec![0; 4];
    matmul_seq(&a, &b, &mut c);
    assert_eq!(c, want);
    let mut c = vec![0; 4];
    matmulz(&a, &b, &mut c);
    assert_eq!(c, want);
    let mut c = vec![0; 4];
    matmulz_with_chunk(1, &a, &b, &mut c);
    assert_eq!(c, want);
    assert_eq!(multiply(&a, &b), want);
}

#[test]
fn serial_product_takes_sides_that_are_no_power_of_two() {
    let a = vec![1, 2, 3, 4, 5, 6, 7, 8, 9];
    let b = vec![9, 8, 7, 6, 5, 4, 3, 2, 1];
    let want = vec![30, 24, 18, 84, 69, 54, 138, 114, 90];
    let mut c = vec![0; 9];
    matmul_serial(3, &a, &b, &mut c);
    assert_eq!(c, want);
    let mut c = vec![0; 9];
    matmul_par_row(3, &a, &b, &mut c);
    assert_eq!(c, want);
}

#[test]
fn products_wrap_on_overflow() {
    let a = vec![i32::MAX, 1, 0, 2];
    let b = vec![2, 0, 1, i32::MIN];
    // row 0: MAX * 2 + 1 = 2^32 - 1, which wraps to -1; MAX * 0 + MIN = MIN.
    // row 1: 0 * 2 + 2 * 1 = 2; 2 * MIN = -2^32, which wraps to 0.
    let want = vec![-1, i32::MIN, 2, 0];
    let mut c = vec![0; 4];
    matmul_serial(2, &a, &b, &mut c);
    assert_eq!(c, want);
    let mut c = vec![0; 4];
    matmul_par_row(2, &a, &b, &mut c);
    assert_eq!(c, want);
    let mut c = vec![0; 4];
    matmul_seq(&a, &b, &mut c);
    assert_eq!(c, want);
    let mut c = vec![0; 4];
    matmulz_with_chunk(1, &a, &b, &mut c);
    assert_eq!(c, want);
    assert_eq!(multiply(&a, &b), want);
}

#[test]
fn one_row_times_a_matrix() {
    let b = vec![1, 2, 3, 4];
    assert_eq!(row_entry(2, &[10, 100], &b, 0), 310);
    assert_eq!(row_entry(2, &[10, 100], &b, 1), 420);
    let mut row = vec![0, 0];
    multiply_row(2, &[10, 100], &b, &mut row);
    assert_eq!(row, vec![310, 420]);
}

#[test]
fn serial_variants_agree_on_a_small_matrix() {
    let a: Vec<i32> = (0..16).collect();
    let b: Vec<i32> = (0..16).map(|x| 3 * x - 7).collect();
    let mut c1 = vec![0; 16];
    let mut c2 = vec![0; 16];
    let mut c3 = vec![0; 16];
    matmul_serial(4, &a, &b, &mut c1);
    matmul_par_row(4, &a, &b, &mut c2);
    matmul_seq(&a, &b, &mut c3);
    assert_eq!(c1[0], 0 * -7 + 1 * 5 + 2 * 17 + 3 * 29);
    assert_eq!(c1, c2);
    assert_eq!(c1, c3);
    assert_eq!(multiply(&a, &b), c1);
}
