//! The matrix benchmark's configuration.
use crate::harness::MAX_CODE;
use vstd::prelude::*;

verus! {

/// What a matrix multiplication run is asked to do.
#[derive(Clone, Copy)]
pub struct MatMulConfig {
    /// The side of the square matrices.
    pub size: u64,
    /// How many threads to use.
    pub num_threads: u32,
    /// How often to repeat the run.
    pub num_of_runs: u32,
    /// 0 to run everything, 1 the parallel variants only, 2 the serial one.
    pub code_config: u32,
}

impl MatMulConfig {
    /// The configuration can be run: the matrices are not empty, there is
    /// at least one thread and one run, and the `code` option is known.
    pub open spec fn valid(self) -> bool {
        self.size > 0 && self.num_threads > 0 && self.num_of_runs > 0 && self.code_config
            <= MAX_CODE
    }
}

/// The configuration that the options given stand for, before it is
/// checked: side 1000, one run, one thread per processor and everything
/// run, unless an option says otherwise.
pub open spec fn with_defaults(
    size: Option<u64>,
    num_of_runs: Option<u32>,
    num_threads: Option<u32>,
    code_config: Option<u32>,
    max_threads: u32,
) -> MatMulConfig {
    MatMulConfig {
        size: size.unwrap_or(1000),
        num_threads: num_threads.unwrap_or(max_threads),
        num_of_runs: num_of_runs.unwrap_or(1),
        code_config: code_config.unwrap_or(0),
    }
}

/// Builds the configuration from the options as read from the command
/// line, `None` standing for an option that was not given or could not be
/// read, and from the number of processors. Returns `None` when the
/// configuration cannot be run.
pub fn parse_arguments(
    size: Option<u64>,
    num_of_runs: Option<u32>,
    num_threads: Option<u32>,
    code_config: Option<u32>,
    max_threads: u32,
) -> (r: Option<MatMulConfig>)
    ensures
        ({
            let config = with_defaults(size, num_of_runs, num_threads, code_config, max_threads);
            r == (if config.valid() {
                Some(config)
            } else {
                None
            })
        }),
{
    let config = MatMulConfig {
        size: size.unwrap_or(1000),
        num_threads: num_threads.unwrap_or(max_threads),
        num_of_runs: num_of_runs.unwrap_or(1),
        code_config: code_config.unwrap_or(0),
    };
    if config.size > 0 && config.num_threads > 0 && config.num_of_runs > 0 && config.code_config
        <= MAX_CODE {
        Some(config)
    } else {
        None
    }
}

/// The number of entries of a square matrix of side `size`, when a buffer
/// can hold that many.
pub fn num_mat_elements(size: u64) -> (r: Option<usize>)
    ensures
        r == (if size * size <= usize::MAX {
            Some((size * size) as usize)
        } else {
            None
        }),
{
    match size.checked_mul(size) {
        Some(n) => if n <= usize::MAX as u64 {
            Some(n as usize)
        } else {
            None
        },
        None => None,
    }
}

} // verus!
