use parallel_kernels::quick_sort::{
    descending, is_sorted, parse_arguments, stable_sort_par, stable_sort_serial,
    unstable_sort_par, unstable_sort_serial, QSConfig,
};
use std::cmp::Ordering;

fn config(sort_order: u32) -> QSConfig {
    QSConfig { num_elements: 8, sort_order, num_of_runs: 1, num_threads: 1, code_config: 0 }
}

fn scrambled(len: usize) -> Vec<u64> {
    let mut state = 12345u64;
    (0..len)
        .map(|_| {
            state = state.wrapping_mul(6364136223846793005).wrapping_add(1442695040888963407);
            state >> 40
        })
        .collect()
}

#[test]
fn stable_serial_sort_both_ways() {
    let mut v = vec![5u64, 1, 4, 1, 3, 9, 2, 6];
    stable_sort_serial(&config(0), &mut v);
    assert_eq!(v, vec![1, 1, 2, 3, 4, 5, 6, 9]);
    let mut v = vec![5u64, 1, 4, 1, 3, 9, 2, 6];
    stable_sort_serial(&config(1), &mut v);
    assert_eq!(v, vec![9, 6, 5, 4, 3, 2, 1, 1]);
}

#[test]
fn unstable_serial_sort_both_ways() {
    let mut v = vec![5u64, 1, 4, 1, 3, 9, 2, 6];
    unstable_sort_serial(&config(0), &mut v);
    assert_eq!(v, vec![1, 1, 2, 3, 4, 5, 6, 9]);
    let mut v = vec![5u64, 1, 4, 1, 3, 9, 2, 6];
    unstable_sort_serial(&config(1), &mut v);
    assert_eq!(v, vec![9, 6, 5, 4, 3, 2, 1, 1]);
}

#[test]
fn stable_parallel_sort_both_ways() {
    let mut v = vec![5u64, 1, 4, 1, 3, 9, 2, 6];
    stable_sort_par(&config(0), &mut v);
    assert_eq!(v, vec![1, 1, 2, 3, 4, 5, 6, 9]);
    let mut v = vec![5u64, 1, 4, 1, 3, 9, 2, 6];
    stable_sort_par(&config(1), &mut v);
    assert_eq!(v, vec![9, 6, 5, 4, 3, 2, 1, 1]);
}

#[test]
fn unstable_parallel_sort_both_ways() {
    let mut v = vec![5u32, 1, 4, 1, 3, 9, 2, 6];
    unstable_sort_par(&config(0), &mut v);
    assert_eq!(v, vec![1, 1, 2, 3, 4, 5, 6, 9]);
    let mut v = vec![5u32, 1, 4, 1, 3, 9, 2, 6];
    unstable_sort_par(&config(1), &mut v);
    assert_eq!(v, vec![9, 6, 5, 4, 3, 2, 1, 1]);
}

#[test]
fn any_other_order_than_zero_sorts_descending() {
    let mut v = vec![2u64, 3, 1];
    stable_sort_serial(&config(7), &mut v);
    assert_eq!(v, vec![3, 2, 1]);
    assert!(is_sorted(&v, 7));
    assert!(!is_sorted(&v, 0));
}

#[test]
fn sorts_keep_the_elements_and_put_them_in_order() {
    let input = scrambled(50000);
    let mut reference = input.clone();
    reference.sort();
    for order in [0u32, 1] {
        let mut want = reference.clone();
        if order == 1 {
            want.reverse();
        }
        let mut v = input.clone();
        stable_sort_serial(&config(order), &mut v);
        assert_eq!(v, want);
        assert!(is_sorted(&v, order));
        let mut v = input.clone();
        unstable_sort_serial(&config(order), &mut v);
        assert_eq!(v, want);
        let mut v = input.clone();
        stable_sort_par(&config(order), &mut v);
        assert_eq!(v, want);
        let narrow: Vec<u32> = input.iter().map(|x| *x as u32).collect();
        let mut want32: Vec<u32> = narrow.clone();
        want32.sort();
        if order == 1 {
            want32.reverse();
        }
        let mut v = narrow.clone();
        unstable_sort_par(&config(order), &mut v);
        assert_eq!(v, want32);
        assert!(is_sorted(&v, order));
    }
}

#[test]
fn sorting_nothing_and_one_element() {
    let mut v: Vec<u64> = Vec::new();
    stable_sort_serial(&config(0), &mut v);
    assert!(v.is_empty());
    let mut v = vec![3u64];
    unstable_sort_serial(&config(1), &mut v);
    assert_eq!(v, vec![3]);
}

#[test]
fn order_is_checked_between_neighbours() {
    assert!(is_sorted::<u64>(&[], 0));
    assert!(is_sorted::<u64>(&[], 1));
    assert!(is_sorted(&[7u64], 0));
    assert!(is_sorted(&[1u64, 2, 2, 3], 0));
    assert!(!is_sorted(&[1u64, 2, 2, 3], 1));
    assert!(is_sorted(&[3u64, 2, 2, 1], 1));
    assert!(!is_sorted(&[3u64, 2, 2, 1], 0));
    assert!(is_sorted(&[2u32, 2, 2], 0));
    assert!(is_sorted(&[2u32, 2, 2], 1));
    assert!(!is_sorted(&[1i32, 3, 2], 0));
    assert!(!is_sorted(&[1i32, 3, 2], 1));
    assert!(is_sorted(&["a", "b", "c"], 0));
}

#[test]
fn descending_turns_the_comparison_round() {
    assert_eq!(descending(&1u64, &2u64), Ordering::Greater);
    assert_eq!(descending(&2u64, &1u64), Ordering::Less);
    assert_eq!(descending(&2u64, &2u64), Ordering::Equal);
}

#[test]
fn sort_options_and_their_defaults() {
    let c = parse_arguments(None, None, None, None, None, 4).unwrap();
    assert_eq!(
        (c.num_elements, c.sort_order, c.num_of_runs, c.num_threads, c.code_config),
        (1000000, 0, 3, 4, 0)
    );
    let c = parse_arguments(Some(10), Some(1), Some(2), Some(16), Some(1), 4).unwrap();
    assert_eq!(
        (c.num_elements, c.sort_order, c.num_of_runs, c.num_threads, c.code_config),
        (10, 1, 2, 16, 1)
    );
    assert!(parse_arguments(Some(0), None, None, None, None, 4).is_none());
    assert!(parse_arguments(None, Some(2), None, None, None, 4).is_none());
    assert!(parse_arguments(None, None, Some(0), None, None, 4).is_none());
    assert!(parse_arguments(None, None, None, Some(0), None, 4).is_none());
    assert!(parse_arguments(None, None, None, None, Some(3), 4).is_none());
}
