//! The reduction benchmark's configuration. The reduction itself sums
//! floating-point numbers and is not part of this library.
use crate::harness::MAX_CODE;
use vstd::prelude::*;

verus! {

/// What a reduction run is asked to do.
#[derive(Clone, Copy)]
pub struct ReduceConfig {
    /// How many elements to reduce.
    pub num_elements: u32,
    /// Whether to square every element before adding it.
    pub do_square: bool,
    /// How often to repeat the run.
    pub num_of_runs: u32,
    /// How many threads to use.
    pub num_threads: u32,
    /// 0 to run everything, 1 the serial reduction only, 2 the parallel one.
    pub code_config: u32,
}

impl ReduceConfig {
    /// The configuration can be run: there is something to reduce, at
    /// least one thread and one run, and the `code` option is known.
    pub open spec fn valid(self) -> bool {
        self.num_elements > 0 && self.num_threads > 0 && self.num_of_runs > 0 && self.code_config
            <= MAX_CODE
    }
}

/// The configuration that the options given stand for, before it is
/// checked: a million elements, no squaring, three runs, one thread per
/// processor and everything run, unless an option says otherwise.
pub open spec fn with_defaults(
    num_elements: Option<u32>,
    do_square: Option<bool>,
    num_of_runs: Option<u32>,
    num_threads: Option<u32>,
    code_config: Option<u32>,
    max_threads: u32,
) -> ReduceConfig {
    ReduceConfig {
        num_elements: num_elements.unwrap_or(1000000),
        do_square: do_square.unwrap_or(false),
        num_of_runs: num_of_runs.unwrap_or(3),
        num_threads: num_threads.unwrap_or(max_threads),
        code_config: code_config.unwrap_or(0),
    }
}

/// Builds the configuration from the options as read from the command
/// line, `None` standing for an option that was not given or could not be
/// read, and from the number of processors. Returns `None` when the
/// configuration cannot be run.
pub fn parse_arguments(
    num_elements: Option<u32>,
    do_square: Option<bool>,
    num_of_runs: Option<u32>,
    num_threads: Option<u32>,
    code_config: Option<u32>,
    max_threads: u32,
) -> (r: Option<ReduceConfig>)
    ensures
        ({
            let config = with_defaults(
                num_elements,
                do_square,
                num_of_runs,
                num_threads,
                code_config,
                max_threads,
            );
            r == (if config.valid() {
                Some(config)
            } else {
                None
            })
        }),
{
    let config = ReduceConfig {
        num_elements: num_elements.unwrap_or(1000000),
        do_square: do_square.unwrap_or(false),
        num_of_runs: num_of_runs.unwrap_or(3),
        num_threads: num_threads.unwrap_or(max_threads),
        code_config: code_config.unwrap_or(0),
    };
    if config.num_elements > 0 && config.num_threads > 0 && config.num_of_runs > 0
        && config.code_config <= MAX_CODE {
        Some(config)
    } else {
        None
    }
}

/// Whether a reduction run with this `code` option covers the serial
/// reduction: 0 covers both, 1 the serial one only.
pub fn runs_serial(code_config: u32) -> (r: bool)
    ensures
        r == (code_config == 0 || code_config == 1),
{
    code_config == 0 || code_config == 1
}

/// Whether a reduction run with this `code` option covers the parallel
/// reduction: 0 covers both, 2 the parallel one only.
pub fn runs_parallel(code_config: u32) -> (r: bool)
    ensures
        r == (code_config == 0 || code_config == 2),
{
    code_config == 0 || code_config == 2
}

} // verus!
