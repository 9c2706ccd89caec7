//! Fibonacci numbers: the serial loop, the fork-join recursions, and the
//! sum over a parallel split.
use crate::harness::MAX_CODE;
use rayon::iter::ParallelIterator;
use vstd::arithmetic::div_mod::{lemma_add_mod_noop, lemma_mod_bound, lemma_small_mod};
use vstd::prelude::*;
use vstd::wrapping::u64_specs;

verus! {

/// What a Fibonacci run is asked to do.
#[derive(Clone, Copy)]
pub struct FibConfig {
    /// Which Fibonacci number to compute.
    pub n: u64,
    /// How often to repeat the run.
    pub num_of_runs: u32,
    /// How many threads to use.
    pub num_threads: u32,
    /// 0 to run everything, 1 the parallel variants only, 2 the serial one.
    pub code_config: u32,
}

impl FibConfig {
    /// The configuration can be run: `n` is positive, there is at least
    /// one thread and one run, and the `code` option is known.
    pub open spec fn valid(self) -> bool {
        self.n > 0 && self.num_threads > 0 && self.num_of_runs > 0 && self.code_config <= MAX_CODE
    }
}

/// The configuration that the options given stand for, before it is
/// checked: the thousandth number, three runs, one thread per processor
/// and everything run, unless an option says otherwise.
pub open spec fn with_defaults(
    n: Option<u64>,
    num_of_runs: Option<u32>,
    num_threads: Option<u32>,
    code_config: Option<u32>,
    max_threads: u32,
) -> FibConfig {
    FibConfig {
        n: n.unwrap_or(1000),
        num_of_runs: num_of_runs.unwrap_or(3),
        num_threads: num_threads.unwrap_or(max_threads),
        code_config: code_config.unwrap_or(0),
    }
}

/// Builds the configuration from the options as read from the command
/// line, `None` standing for an option that was not given or could not be
/// read, and from the number of processors. Returns `None` when the
/// configuration cannot be run.
pub fn parse_arguments(
    n: Option<u64>,
    num_of_runs: Option<u32>,
    num_threads: Option<u32>,
    code_config: Option<u32>,
    max_threads: u32,
) -> (r: Option<FibConfig>)
    ensures
        ({
            let config = with_defaults(n, num_of_runs, num_threads, code_config, max_threads);
            r == (if config.valid() {
                Some(config)
            } else {
                None
            })
        }),
{
    let config = FibConfig {
        n: n.unwrap_or(1000),
        num_of_runs: num_of_runs.unwrap_or(3),
        num_threads: num_threads.unwrap_or(max_threads),
        code_config: code_config.unwrap_or(0),
    };
    if config.n > 0 && config.num_threads > 0 && config.num_of_runs > 0 && config.code_config
        <= MAX_CODE {
        Some(config)
    } else {
        None
    }
}

/// The `n`-th Fibonacci number: 0, 1, 1, 2, 3, 5, ...
pub open spec fn fib(n: nat) -> nat
    decreases n,
{
    if n < 2 {
        n
    } else {
        fib((n - 1) as nat) + fib((n - 2) as nat)
    }
}

/// The `n`-th Fibonacci number as 64-bit arithmetic that wraps on overflow
/// computes it: its residue modulo `2^64`.
pub open spec fn fib_wrapped(n: nat) -> u64 {
    (fib(n) % 0x1_0000_0000_0000_0000) as u64
}

/// Fibonacci numbers never decrease.
pub proof fn lemma_fib_monotone(i: nat, j: nat)
    requires
        i <= j,
    ensures
        fib(i) <= fib(j),
    decreases j,
{
    if i < j {
        if j >= 2 {
            lemma_fib_monotone(i, (j - 1) as nat);
        }
    }
}

/// The addition formula: `fib(m + n + 1)` is
/// `fib(m + 1) * fib(n + 1) + fib(m) * fib(n)`.
pub proof fn lemma_fib_addition(m: nat, n: nat)
    ensures
        fib(m + n + 1) == fib(m + 1) * fib(n + 1) + fib(m) * fib(n),
    decreases n,
{
    if n == 0 {
        assert(fib(m + 1) * 1 + fib(m) * 0 == fib(m + 1));
    } else if n == 1 {
        assert(fib(2) == 1) by {
            reveal_with_fuel(fib, 3);
        }
        assert(fib(m + 1) * 1 + fib(m) * 1 == fib(m + 1) + fib(m));
    } else {
        lemma_fib_addition(m, (n - 1) as nat);
        lemma_fib_addition(m, (n - 2) as nat);
        let a = fib(m + 1) as int;
        let b = fib(m) as int;
        let x = fib(n as nat) as int;
        let y = fib((n - 1) as nat) as int;
        let z = fib((n - 2) as nat) as int;
        assert(fib(n + 1) == x + y);
        assert(fib(m + n + 1) == fib(m + n) + fib((m + n - 1) as nat));
        assert((a * x + b * y) + (a * y + b * z) == a * (x + y) + b * (y + z))
            by (nonlinear_arith);
    }
}

/// The ninety-third Fibonacci number, the largest that fits in 64 bits.
pub proof fn lemma_fib_93()
    ensures
        fib(93) == 12200160415121876738,
{
    assert(fib(11) == 89 && fib(12) == 144 && fib(13) == 233) by {
        reveal_with_fuel(fib, 14);
    }
    lemma_fib_addition(11, 11);
    lemma_fib_addition(12, 11);
    assert(fib(23) == 144 * 144 + 89 * 89);
    assert(fib(24) == 233 * 144 + 144 * 89);
    assert(fib(24) == fib(23) + fib(22));
    lemma_fib_addition(23, 22);
    lemma_fib_addition(23, 23);
    assert(fib(46) == 46368 * 28657 + 28657 * 17711);
    assert(fib(47) == 46368 * 46368 + 28657 * 28657);
    lemma_fib_addition(46, 46);
    assert(fib(93) == 2971215073 * 2971215073 + 1836311903 * 1836311903);
}

/// The Fibonacci numbers up to the ninety-third fit in 64 bits.
pub proof fn lemma_fib_fits(n: nat)
    requires
        n <= 93,
    ensures
        fib(n) <= u64::MAX,
{
    lemma_fib_93();
    lemma_fib_monotone(n, 93);
}

/// A Fibonacci number that fits in 64 bits is its own residue.
pub proof fn lemma_fib_wrapped_fits(n: nat)
    requires
        fib(n) <= u64::MAX,
    ensures
        fib_wrapped(n) == fib(n),
{
    lemma_small_mod(fib(n), 0x1_0000_0000_0000_0000);
}

/// Wrapping addition of two residues is the residue of the sum.
proof fn lemma_wrapping_add_residues(x: nat, y: nat)
    ensures
        u64_specs::wrapping_add(
            (x % 0x1_0000_0000_0000_0000) as u64,
            (y % 0x1_0000_0000_0000_0000) as u64,
        ) == (x + y) % 0x1_0000_0000_0000_0000,
{
    let m = 0x1_0000_0000_0000_0000int;
    let a = (x as int) % m;
    let b = (y as int) % m;
    lemma_mod_bound(x as int, m);
    lemma_mod_bound(y as int, m);
    lemma_add_mod_noop(x as int, y as int, m);
    if a + b >= m {
        assert((a + b - m) % m == (a + b) % m) by {
            vstd::arithmetic::div_mod::lemma_mod_sub_multiples_vanish(a + b, m);
        }
        lemma_small_mod((a + b - m) as nat, m as nat);
    } else {
        lemma_small_mod((a + b) as nat, m as nat);
    }
}

/// The `n`-th Fibonacci number by the serial loop, in 64-bit arithmetic
/// that wraps on overflow.
pub fn fib_serial_iterative(n: u64) -> (r: u64)
    ensures
        r == fib_wrapped(n as nat),
        n <= 93 ==> r == fib(n as nat),
{
    proof {
        if n <= 93 {
            lemma_fib_fits(n as nat);
            lemma_fib_wrapped_fits(n as nat);
        }
    }
    let mut a: u64 = 0;
    let mut b: u64 = 1;
    let mut i: u64 = 0;
    proof {
        lemma_small_mod(0, 0x1_0000_0000_0000_0000);
        lemma_small_mod(1, 0x1_0000_0000_0000_0000);
    }
    while i < n
        invariant
            i <= n,
            a == fib_wrapped(i as nat),
            b == fib_wrapped((i + 1) as nat),
        decreases n - i,
    {
        proof {
            lemma_wrapping_add_residues(fib(i as nat), fib((i + 1) as nat));
        }
        let c = a.wrapping_add(b);
        a = b;
        b = c;
        i += 1;
    }
    a
}

/// The `n`-th Fibonacci number by fork-join recursion, in 64-bit arithmetic
/// that wraps on overflow. Of the two branches the larger, `n - 1`, is
/// handed over first.
pub fn fib_join_12(n: u64) -> (r: u64)
    ensures
        r == fib_wrapped(n as nat),
        n <= 93 ==> r == fib(n as nat),
    decreases n,
{
    proof {
        if n <= 93 {
            lemma_fib_fits(n as nat);
            lemma_fib_wrapped_fits(n as nat);
        }
    }
    if n < 2 {
        proof {
            lemma_small_mod(n as nat, 0x1_0000_0000_0000_0000);
        }
        return n;
    }
    let larger = || -> (x: u64)
        ensures
            x == fib_wrapped((n - 1) as nat),
    {
        fib_join_12(n - 1)
    };
    let smaller = || -> (y: u64)
        ensures
            y == fib_wrapped((n - 2) as nat),
    {
        fib_join_12(n - 2)
    };
    let (a, b) = rayon::join(larger, smaller);
    proof {
        lemma_wrapping_add_residues(fib((n - 1) as nat), fib((n - 2) as nat));
    }
    a.wrapping_add(b)
}

/// The `n`-th Fibonacci number by fork-join recursion, in 64-bit arithmetic
/// that wraps on overflow. Of the two branches the smaller, `n - 2`, is
/// handed over first.
pub fn fib_join_21(n: u64) -> (r: u64)
    ensures
        r == fib_wrapped(n as nat),
        n <= 93 ==> r == fib(n as nat),
    decreases n,
{
    proof {
        if n <= 93 {
            lemma_fib_fits(n as nat);
            lemma_fib_wrapped_fits(n as nat);
        }
    }
    if n < 2 {
        proof {
            lemma_small_mod(n as nat, 0x1_0000_0000_0000_0000);
        }
        return n;
    }
    let smaller = || -> (x: u64)
        ensures
            x == fib_wrapped((n - 2) as nat),
    {
        fib_join_21(n - 2)
    };
    let larger = || -> (y: u64)
        ensures
            y == fib_wrapped((n - 1) as nat),
    {
        fib_join_21(n - 1)
    };
    let (a, b) = rayon::join(smaller, larger);
    proof {
        lemma_wrapping_add_residues(fib((n - 2) as nat), fib((n - 1) as nat));
    }
    a.wrapping_add(b)
}

/// One step of the parallel split: `n` below two is a leaf; any other `n`
/// splits into `n - 2` and `n - 1`, whose Fibonacci numbers add up to that
/// of `n`.
pub fn split_fib(n: u64) -> (r: (u64, Option<u64>))
    ensures
        n < 2 ==> r == (n, None::<u64>),
        n >= 2 ==> r == ((n - 2) as u64, Some((n - 1) as u64)),
{
    if n < 2 {
        (n, None)
    } else {
        (n - 2, Some(n - 1))
    }
}

/// `items` is what splitting `n` can leave: `n` itself, or, for `n` of at
/// least two, what splitting `n - 2` can leave followed by what splitting
/// `n - 1` can leave.
pub open spec fn is_split_of(items: Seq<u64>, n: u64) -> bool
    decreases n,
{
    items == seq![n] || (n >= 2 && exists|k: int|
        #[trigger] is_cut(items, k) && is_split_of(items.subrange(0, k), (n - 2) as u64)
            && is_split_of(items.subrange(k, items.len() as int), (n - 1) as u64))
}

/// `k` is a place at which `items` can be cut in two.
pub open spec fn is_cut(items: Seq<u64>, k: int) -> bool {
    0 <= k <= items.len()
}

/// The sum of the Fibonacci numbers of `items`.
pub open spec fn fib_total(items: Seq<u64>) -> nat
    decreases items.len(),
{
    if items.len() == 0 {
        0
    } else {
        fib_total(items.drop_last()) + fib(items.last() as nat)
    }
}

/// The total of two sequences put together is the sum of their totals.
pub proof fn lemma_fib_total_concat(a: Seq<u64>, b: Seq<u64>)
    ensures
        fib_total(a + b) == fib_total(a) + fib_total(b),
    decreases b.len(),
{
    if b.len() == 0 {
        assert(a + b =~= a);
    } else {
        lemma_fib_total_concat(a, b.drop_last());
        assert((a + b).drop_last() =~= a + b.drop_last());
        assert((a + b).last() == b.last());
    }
}

/// However far `n` was split, the Fibonacci numbers of the parts add up to
/// the Fibonacci number of `n`.
pub proof fn lemma_split_total(items: Seq<u64>, n: u64)
    requires
        is_split_of(items, n),
    ensures
        fib_total(items) == fib(n as nat),
    decreases n,
{
    if items == seq![n] {
        assert(items.drop_last() =~= Seq::<u64>::empty());
        assert(fib_total(items.drop_last()) == 0);
        assert(items.last() == n);
    } else {
        let k = choose|k: int|
            #[trigger] is_cut(items, k) && is_split_of(items.subrange(0, k), (n - 2) as u64)
                && is_split_of(items.subrange(k, items.len() as int), (n - 1) as u64);
        let left = items.subrange(0, k);
        let right = items.subrange(k, items.len() as int);
        lemma_split_total(left, (n - 2) as u64);
        lemma_split_total(right, (n - 1) as u64);
        lemma_fib_total_concat(left, right);
        assert(left + right =~= items);
    }
}

/// `total` is the sum of the Fibonacci numbers of some split of `n`.
pub open spec fn is_total_of_split(n: u64, total: u64) -> bool {
    exists|items: Seq<u64>| #[trigger] is_split_of(items, n) && total == fib_total(items)
}

/// Splits `n` with rayon's `split`, maps every part with `map`, and adds
/// the results up with `sum`.
///
/// `split` applies the splitter to `n` and to the parts it gets, as far as
/// it finds useful for the threads it has, and never to a part for which
/// the splitter returned no second part; how far it goes differs from run
/// to run. `map` calls [`fib_serial_iterative`] once on every part that is
/// left, and `sum` adds the results with `+`. So the result is the total of
/// some split of `n`. The precondition keeps every sum `+` forms within 64
/// bits: each is a total of parts of one split, and none exceeds the
/// Fibonacci number of `n`.
#[verifier::external_body]
fn split_map_sum(n: u64) -> (r: u64)
    requires
        fib(n as nat) <= u64::MAX,
    ensures
        is_total_of_split(n, r),
{
    rayon::iter::split(n, |n| split_fib(n)).map(|n| fib_serial_iterative(n)).sum()
}

/// The `n`-th Fibonacci number as the sum over a parallel split of `n`:
/// the parts are computed by the serial loop and added up. The sum is
/// formed without wrapping, so `n` may be at most 93, the largest `n` whose
/// Fibonacci number fits in 64 bits.
pub fn fibonacci_split_iterative(n: u64) -> (r: u64)
    requires
        n <= 93,
    ensures
        r == fib(n as nat),
{
    proof {
        lemma_fib_fits(n as nat);
    }
    let r = split_map_sum(n);
    proof {
        let items = choose|items: Seq<u64>| #[trigger]
            is_split_of(items, n) && r == fib_total(items);
        lemma_split_total(items, n);
    }
    r
}

} // verus!
