//! What a benchmark run covers: the rules by which the drivers read their
//! `code` option.
use vstd::prelude::*;

verus! {

/// The largest value the `code` option may take.
pub const MAX_CODE: u32 = 2;

/// Whether a run with this `code` option covers the serial variants:
/// 0 covers everything, 2 the serial variants only.
pub fn runs_serial(code_config: u32) -> (r: bool)
    ensures
        r == (code_config == 0 || code_config == 2),
{
    code_config == 0 || code_config == 2
}

/// Whether a run with this `code` option covers the parallel variants:
/// 0 covers everything, 1 the parallel variants only.
pub fn runs_parallel(code_config: u32) -> (r: bool)
    ensures
        r == (code_config == 0 || code_config == 1),
{
    code_config == 0 || code_config == 1
}

/// Whether a run with this `code` option reports speedups: only a run of
/// everything has both times to compare.
pub fn reports_speedup(code_config: u32) -> (r: bool)
    ensures
        r == (code_config == 0),
{
    code_config == 0
}

} // verus!
