use parallel_kernels::fibonacci::{
    fib_join_12, fib_join_21, fib_serial_iterative, fibonacci_split_iterative, parse_arguments,
    split_fib,
};

#[test]
fn first_fibonacci_numbers() {
    let want = [0u64, 1, 1, 2, 3, 5, 8, 13, 21, 34, 55, 89, 144];
    for (n, f) in want.iter().enumerate() {
        assert_eq!(fib_serial_iterative(n as u64), *f);
        assert_eq!(fib_join_12(n as u64), *f);
        assert_eq!(fib_join_21(n as u64), *f);
        assert_eq!(fibonacci_split_iterative(n as u64), *f);
    }
}

#[test]
fn large_fibonacci_numbers() {
    assert_eq!(fib_serial_iterative(50), 12586269025);
    assert_eq!(fib_serial_iterative(90), 2880067194370816120);
    // The largest that fits in 64 bits.
    assert_eq!(fib_serial_iterative(93), 12200160415121876738);
    assert_eq!(fibonacci_split_iterative(50), 12586269025);
    assert_eq!(fibonacci_split_iterative(90), 2880067194370816120);
    assert_eq!(fib_join_12(25), 75025);
    assert_eq!(fib_join_21(25), 75025);
}

#[test]
fn fibonacci_numbers_wrap_beyond_sixty_four_bits() {
    // fib(94) = 19740274219868223167 = 2^64 + 1293530146158671551.
    assert_eq!(fib_serial_iterative(94), 1293530146158671551);
    // fib(95) = fib(94) + fib(93), modulo 2^64.
    assert_eq!(
        fib_serial_iterative(95),
        1293530146158671551u64.wrapping_add(12200160415121876738)
    );
    let a = fib_serial_iterative(998);
    let b = fib_serial_iterative(999);
    assert_eq!(fib_serial_iterative(1000), a.wrapping_add(b));
}

#[test]
fn split_step() {
    assert_eq!(split_fib(0), (0, None));
    assert_eq!(split_fib(1), (1, None));
    assert_eq!(split_fib(2), (0, Some(1)));
    assert_eq!(split_fib(10), (8, Some(9)));
    assert_eq!(split_fib(u64::MAX), (u64::MAX - 2, Some(u64::MAX - 1)));
}

#[test]
fn fibonacci_options_and_their_defaults() {
    let c = parse_arguments(None, None, None, None, 8).unwrap();
    assert_eq!((c.n, c.num_of_runs, c.num_threads, c.code_config), (1000, 3, 8, 0));
    let c = parse_arguments(Some(30), Some(5), Some(2), Some(2), 8).unwrap();
    assert_eq!((c.n, c.num_of_runs, c.num_threads, c.code_config), (30, 5, 2, 2));
    assert!(parse_arguments(Some(0), None, None, None, 8).is_none());
    assert!(parse_arguments(None, Some(0), None, None, 8).is_none());
    assert!(parse_arguments(None, None, Some(0), None, 8).is_none());
    assert!(parse_arguments(None, None, None, Some(3), 8).is_none());
    assert!(parse_arguments(None, None, None, None, 0).is_none());
}
