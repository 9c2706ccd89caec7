//! Sorting integers, ascending or descending, serially or in parallel, and
//! checking the order.
use crate::harness::MAX_CODE;
use core::cmp::Ordering;
use rayon::slice::ParallelSliceMut;
use vstd::prelude::*;
use vstd::std_specs::cmp::{OrdSpec, PartialOrdIs, PartialOrdSpec};

verus! {

/// What a sorting run is asked to do.
#[derive(Clone, Copy)]
pub struct QSConfig {
    /// How many elements to sort.
    pub num_elements: u32,
    /// 0 to sort ascending, anything else to sort descending.
    pub sort_order: u32,
    /// How often to repeat the run.
    pub num_of_runs: u32,
    /// How many threads to use.
    pub num_threads: u32,
    /// 0 to run everything, 1 the parallel sorts only, 2 the serial ones.
    pub code_config: u32,
}

impl QSConfig {
    /// The configuration can be run: there is something to sort, the order
    /// is 0 or 1, there is at least one thread and one run, and the `code`
    /// option is known.
    pub open spec fn valid(self) -> bool {
        self.num_elements > 0 && (self.sort_order == 0 || self.sort_order == 1) && self.num_threads
            > 0 && self.num_of_runs > 0 && self.code_config <= MAX_CODE
    }
}

/// The configuration that the options given stand for, before it is
/// checked: a million elements, ascending, three runs, one thread per
/// processor and everything run, unless an option says otherwise.
pub open spec fn with_defaults(
    num_elements: Option<u32>,
    sort_order: Option<u32>,
    num_of_runs: Option<u32>,
    num_threads: Option<u32>,
    code_config: Option<u32>,
    max_threads: u32,
) -> QSConfig {
    QSConfig {
        num_elements: num_elements.unwrap_or(1000000),
        sort_order: sort_order.unwrap_or(0),
        num_of_runs: num_of_runs.unwrap_or(3),
        num_threads: num_threads.unwrap_or(max_threads),
        code_config: code_config.unwrap_or(0),
    }
}

/// Builds the configuration from the options as read from the command
/// line, `None` standing for an option that was not given or could not be
/// read, and from the number of processors. Returns `None` when the
/// configuration cannot be run.
pub fn parse_arguments(
    num_elements: Option<u32>,
    sort_order: Option<u32>,
    num_of_runs: Option<u32>,
    num_threads: Option<u32>,
    code_config: Option<u32>,
    max_threads: u32,
) -> (r: Option<QSConfig>)
    ensures
        ({
            let config = with_defaults(
                num_elements,
                sort_order,
                num_of_runs,
                num_threads,
                code_config,
                max_threads,
            );
            r == (if config.valid() {
                Some(config)
            } else {
                None
            })
        }),
{
    let config = QSConfig {
        num_elements: num_elements.unwrap_or(1000000),
        sort_order: sort_order.unwrap_or(0),
        num_of_runs: num_of_runs.unwrap_or(3),
        num_threads: num_threads.unwrap_or(max_threads),
        code_config: code_config.unwrap_or(0),
    };
    if config.num_elements > 0 && (config.sort_order == 0 || config.sort_order == 1)
        && config.num_threads > 0 && config.num_of_runs > 0 && config.code_config <= MAX_CODE {
        Some(config)
    } else {
        None
    }
}

/// `x` may stand before `y`: it is not above `y` in an ascending order,
/// not below `y` in a descending one.
pub open spec fn may_precede<T: Ord>(x: T, y: T, descending: bool) -> bool {
    if descending {
        x.is_ge(&y)
    } else {
        x.is_le(&y)
    }
}

/// Every element of `s` may stand after the one before it.
pub open spec fn neighbours_in_order<T: Ord>(s: Seq<T>, descending: bool) -> bool {
    forall|i: int| 1 <= i < s.len() ==> #[trigger] may_precede(s[i - 1], s[i], descending)
}

/// Every element of `s` may stand before every later one.
pub open spec fn in_order<T: Ord>(s: Seq<T>, descending: bool) -> bool {
    forall|i: int, j: int| 0 <= i < j < s.len() ==> #[trigger] may_precede(s[i], s[j], descending)
}

/// `after` is `before` sorted: the same elements, each as often as before,
/// in ascending or descending order.
pub open spec fn is_sorted_from<T: Ord>(before: Seq<T>, after: Seq<T>, descending: bool) -> bool {
    after.to_multiset() == before.to_multiset() && in_order(after, descending)
}

/// For 64-bit integers it is enough to compare neighbours: a sequence whose
/// neighbours are in order is in order throughout, and the other way round.
pub proof fn lemma_neighbours_suffice(s: Seq<u64>, descending: bool)
    ensures
        neighbours_in_order(s, descending) <==> in_order(s, descending),
{
    if neighbours_in_order(s, descending) {
        assert forall|i: int, j: int| 0 <= i < j < s.len() implies #[trigger] may_precede(
            s[i],
            s[j],
            descending,
        ) by {
            lemma_reaches(s, descending, i, j);
        }
    }
    if in_order(s, descending) {
        assert forall|i: int| 1 <= i < s.len() implies #[trigger] may_precede(
            s[i - 1],
            s[i],
            descending,
        ) by {
            assert(may_precede(s[i - 1], s[i], descending));
        }
    }
}

/// In a sequence whose neighbours are in order, an element may stand
/// before any later one.
proof fn lemma_reaches(s: Seq<u64>, descending: bool, i: int, j: int)
    requires
        neighbours_in_order(s, descending),
        0 <= i < j < s.len(),
    ensures
        may_precede(s[i], s[j], descending),
    decreases j - i,
{
    assert(may_precede(s[j - 1], s[j], descending));
    if i < j - 1 {
        lemma_reaches(s, descending, i, j - 1);
    }
}

/// Whether `v` is in the order `sort_order` asks for, ascending for 0 and
/// descending otherwise, found by comparing every element with the one
/// before it.
pub fn is_sorted<T: Send + Ord>(v: &[T], sort_order: u32) -> (b: bool)
    ensures
        T::obeys_partial_cmp_spec() ==> b == neighbours_in_order(v@, sort_order != 0),
{
    let n = v.len();
    let descending = sort_order != 0;
    let mut i: usize = 1;
    while i < n
        invariant
            1 <= i,
            n == v@.len(),
            descending == (sort_order != 0),
            T::obeys_partial_cmp_spec() ==> forall|k: int|
                1 <= k < i && k < n ==> #[trigger] may_precede(v@[k - 1], v@[k], descending),
        decreases n - i,
    {
        let in_order = if sort_order == 0 {
            v[i - 1] <= v[i]
        } else {
            v[i - 1] >= v[i]
        };
        if !in_order {
            assert(T::obeys_partial_cmp_spec() ==> !may_precede(
                v@[i - 1],
                v@[i + 0],
                descending,
            ));
            return false;
        }
        i += 1;
    }
    true
}

/// The comparison that sorts descending: `a` against `b` is `b` against
/// `a` in the natural order.
pub fn descending<T: Ord>(a: &T, b: &T) -> (o: Ordering)
    ensures
        T::obeys_cmp_spec() ==> o == b.cmp_spec(a),
{
    b.cmp(a)
}

/// std's `sort` on slices: sorts ascending and keeps equal elements in
/// their order, which for plain integers cannot be told from any other
/// ascending arrangement of the same elements.
#[verifier::external_body]
fn std_sort(v: &mut [u64])
    ensures
        is_sorted_from(old(v)@, final(v)@, false),
{
    v.sort();
}

/// std's `sort_by` on slices, with [`descending`] as the comparison: sorts
/// so that no element compares greater than a later one, which here means
/// descending, and keeps equal elements in their order.
#[verifier::external_body]
fn std_sort_descending(v: &mut [u64])
    ensures
        is_sorted_from(old(v)@, final(v)@, true),
{
    v.sort_by(|a, b| descending(a, b));
}

/// std's `sort_unstable` on slices: sorts ascending, and may reorder equal
/// elements.
#[verifier::external_body]
fn std_sort_unstable(v: &mut [u64])
    ensures
        is_sorted_from(old(v)@, final(v)@, false),
{
    v.sort_unstable();
}

/// std's `sort_unstable_by` on slices, with [`descending`] as the
/// comparison: sorts descending, and may reorder equal elements.
#[verifier::external_body]
fn std_sort_unstable_descending(v: &mut [u64])
    ensures
        is_sorted_from(old(v)@, final(v)@, true),
{
    v.sort_unstable_by(|a, b| descending(a, b));
}

/// rayon's `par_sort` on slices: sorts ascending, in parallel, and keeps
/// equal elements in their order.
#[verifier::external_body]
fn rayon_sort(v: &mut [u64])
    ensures
        is_sorted_from(old(v)@, final(v)@, false),
{
    v.par_sort();
}

/// rayon's `par_sort_by` on slices, with [`descending`] as the comparison:
/// sorts descending, in parallel, and keeps equal elements in their order.
#[verifier::external_body]
fn rayon_sort_descending(v: &mut [u64])
    ensures
        is_sorted_from(old(v)@, final(v)@, true),
{
    v.par_sort_by(|a, b| descending(a, b));
}

/// rayon's `par_sort_unstable` on slices: sorts ascending, in parallel, and
/// may reorder equal elements.
#[verifier::external_body]
fn rayon_sort_unstable(v: &mut [u32])
    ensures
        is_sorted_from(old(v)@, final(v)@, false),
{
    v.par_sort_unstable();
}

/// rayon's `par_sort_unstable_by` on slices, with [`descending`] as the
/// comparison: sorts descending, in parallel, and may reorder equal
/// elements.
#[verifier::external_body]
fn rayon_sort_unstable_descending(v: &mut [u32])
    ensures
        is_sorted_from(old(v)@, final(v)@, true),
{
    v.par_sort_unstable_by(|a, b| descending(a, b));
}

/// Sorts `num_vec` serially with a stable sort, ascending when
/// `sort_order` is 0 and descending otherwise.
pub fn stable_sort_serial(qs_config: &QSConfig, num_vec: &mut [u64])
    ensures
        is_sorted_from(old(num_vec)@, final(num_vec)@, qs_config.sort_order != 0),
{
    if qs_config.sort_order == 0 {
        std_sort(num_vec);
    } else {
        std_sort_descending(num_vec);
    }
}

/// Sorts `num_vec` serially with an unstable sort, ascending when
/// `sort_order` is 0 and descending otherwise.
pub fn unstable_sort_serial(qs_config: &QSConfig, num_vec: &mut [u64])
    ensures
        is_sorted_from(old(num_vec)@, final(num_vec)@, qs_config.sort_order != 0),
{
    if qs_config.sort_order == 0 {
        std_sort_unstable(num_vec);
    } else {
        std_sort_unstable_descending(num_vec);
    }
}

/// Sorts `num_vec` in parallel with a stable sort, ascending when
/// `sort_order` is 0 and descending otherwise.
pub fn stable_sort_par(qs_config: &QSConfig, num_vec: &mut [u64])
    ensures
        is_sorted_from(old(num_vec)@, final(num_vec)@, qs_config.sort_order != 0),
{
    if qs_config.sort_order == 0 {
        rayon_sort(num_vec);
    } else {
        rayon_sort_descending(num_vec);
    }
}

/// Sorts `num_vec` in parallel with an unstable sort, ascending when
/// `sort_order` is 0 and descending otherwise.
pub fn unstable_sort_par(qs_config: &QSConfig, num_vec: &mut [u32])
    ensures
        is_sorted_from(old(num_vec)@, final(num_vec)@, qs_config.sort_order != 0),
{
    if qs_config.sort_order == 0 {
        rayon_sort_unstable(num_vec);
    } else {
        rayon_sort_unstable_descending(num_vec);
    }
}

} // verus!
