use parallel_kernels::harness::{reports_speedup, runs_parallel, runs_serial, MAX_CODE};
use parallel_kernels::join::{join4, join8};
use parallel_kernels::mandelbrot::{parse_sizes, pixel_at, pixel_index};
use parallel_kernels::matmul::config::{num_mat_elements, parse_arguments};
use parallel_kernels::reduction;

#[test]
fn code_option_selects_the_variants() {
    assert_eq!(MAX_CODE, 2);
    assert!(runs_serial(0) && runs_parallel(0) && reports_speedup(0));
    assert!(!runs_serial(1) && runs_parallel(1) && !reports_speedup(1));
    assert!(runs_serial(2) && !runs_parallel(2) && !reports_speedup(2));
    assert!(!runs_serial(3) && !runs_parallel(3) && !reports_speedup(3));
}

#[test]
fn reduction_reads_the_code_option_the_other_way_round() {
    assert!(reduction::runs_serial(0) && reduction::runs_parallel(0));
    assert!(reduction::runs_serial(1) && !reduction::runs_parallel(1));
    assert!(!reduction::runs_serial(2) && reduction::runs_parallel(2));
}

#[test]
fn matrix_options_and_their_defaults() {
    let c = parse_arguments(None, None, None, None, 12).unwrap();
    assert_eq!((c.size, c.num_of_runs, c.num_threads, c.code_config), (1000, 1, 12, 0));
    let c = parse_arguments(Some(64), Some(3), Some(2), Some(1), 12).unwrap();
    assert_eq!((c.size, c.num_of_runs, c.num_threads, c.code_config), (64, 3, 2, 1));
    assert!(parse_arguments(Some(0), None, None, None, 12).is_none());
    assert!(parse_arguments(None, Some(0), None, None, 12).is_none());
    assert!(parse_arguments(None, None, Some(0), None, 12).is_none());
    assert!(parse_arguments(None, None, None, Some(3), 12).is_none());
    assert_eq!(num_mat_elements(1000), Some(1000000));
    assert_eq!(num_mat_elements(0), Some(0));
    assert_eq!(num_mat_elements(u64::MAX), None);
    assert_eq!(num_mat_elements(1 << 32), None);
}

#[test]
fn reduction_options_and_their_defaults() {
    let c = reduction::parse_arguments(None, None, None, None, None, 2).unwrap();
    assert_eq!(
        (c.num_elements, c.do_square, c.num_of_runs, c.num_threads, c.code_config),
        (1000000, false, 3, 2, 0)
    );
    let c = reduction::parse_arguments(Some(5), Some(true), Some(1), Some(9), Some(2), 2).unwrap();
    assert_eq!(
        (c.num_elements, c.do_square, c.num_of_runs, c.num_threads, c.code_config),
        (5, true, 1, 9, 2)
    );
    assert!(reduction::parse_arguments(Some(0), None, None, None, None, 2).is_none());
    assert!(reduction::parse_arguments(None, None, Some(0), None, None, 2).is_none());
    assert!(reduction::parse_arguments(None, None, None, Some(0), None, 2).is_none());
    assert!(reduction::parse_arguments(None, None, None, None, Some(3), 2).is_none());
}

#[test]
fn mandelbrot_options_and_their_defaults() {
    let s = parse_sizes(None, None, None, None, None, None, 6).unwrap();
    assert_eq!(
        (s.max_iter, s.img_size, s.num_of_runs, s.num_threads, s.view, s.code_config),
        (2048, 4096, 3, 6, 1, 0)
    );
    let s = parse_sizes(Some(10), Some(64), Some(1), Some(2), Some(6), Some(2), 6).unwrap();
    assert_eq!(
        (s.max_iter, s.img_size, s.num_of_runs, s.num_threads, s.view, s.code_config),
        (10, 64, 1, 2, 6, 2)
    );
    assert!(parse_sizes(Some(0), None, None, None, None, None, 6).is_none());
    assert!(parse_sizes(None, Some(0), None, None, None, None, 6).is_none());
    assert!(parse_sizes(None, None, Some(0), None, None, None, 6).is_none());
    assert!(parse_sizes(None, None, None, Some(0), None, None, 6).is_none());
    assert!(parse_sizes(None, None, None, None, Some(7), None, 6).is_none());
    assert!(parse_sizes(None, None, None, None, None, Some(3), 6).is_none());
}

#[test]
fn pixels_and_their_places() {
    assert_eq!(pixel_index(0, 0, 4), 0);
    assert_eq!(pixel_index(3, 2, 4), 11);
    assert_eq!(pixel_index(4095, 4095, 4096), 4096 * 4096 - 1);
    assert_eq!(pixel_at(11, 4), (3, 2));
    assert_eq!(pixel_at(0, 1), (0, 0));
    for n in 0..64 {
        let (x, y) = pixel_at(n, 8);
        assert_eq!(pixel_index(x, y, 8), n);
    }
}

#[test]
fn joins_return_every_result_in_order() {
    assert_eq!(join4(|| 1, || "two", || 3.0, || vec![4]), (1, "two", 3.0, vec![4]));
    let base = 10;
    let r = join8(
        || base + 1,
        || base + 2,
        || base + 3,
        || base + 4,
        || base + 5,
        || base + 6,
        || base + 7,
        || base + 8,
    );
    assert_eq!(r, (11, 12, 13, 14, 15, 16, 17, 18));
    let (a, b) = rayon::join(|| 6 * 7, || (1..=4).product::<u32>());
    assert_eq!((a, b), (42, 24));
}
