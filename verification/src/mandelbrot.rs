//! The integer side of the Mandelbrot benchmark: where a pixel lies in the
//! image buffer, and which integer options a run accepts. The iteration
//! itself is floating-point arithmetic and is not part of this library.
use crate::harness::MAX_CODE;
use vstd::arithmetic::div_mod::{lemma_fundamental_div_mod, lemma_fundamental_div_mod_converse};
use vstd::prelude::*;

verus! {

/// The number of views the driver knows, numbered from 0.
pub const VIEWS: u32 = 7;

/// The integer options of a Mandelbrot run.
#[derive(Clone, Copy)]
pub struct MandelSizes {
    /// After how many iterations a point counts as inside the set.
    pub max_iter: u32,
    /// The side of the square image, in pixels.
    pub img_size: u32,
    /// How many threads to use.
    pub num_threads: u32,
    /// How often to repeat the run.
    pub num_of_runs: u32,
    /// Which of the views to compute.
    pub view: u32,
    /// 0 to run everything, 1 the parallel variants only, 2 the serial one.
    pub code_config: u32,
}

impl MandelSizes {
    /// The options can be run: there is at least one iteration, pixel,
    /// thread and run, and the view and the `code` option are known.
    pub open spec fn valid(self) -> bool {
        self.max_iter > 0 && self.img_size > 0 && self.num_threads > 0 && self.view < VIEWS
            && self.num_of_runs > 0 && self.code_config <= MAX_CODE
    }
}

/// The options that the values given stand for, before they are checked:
/// 2048 iterations, an image of side 4096, three runs, one thread per
/// processor, view 1 and everything run, unless an option says otherwise.
pub open spec fn with_defaults(
    max_iter: Option<u32>,
    img_size: Option<u32>,
    num_of_runs: Option<u32>,
    num_threads: Option<u32>,
    view: Option<u32>,
    code_config: Option<u32>,
    max_threads: u32,
) -> MandelSizes {
    MandelSizes {
        max_iter: max_iter.unwrap_or(2048),
        img_size: img_size.unwrap_or(4096),
        num_threads: num_threads.unwrap_or(max_threads),
        num_of_runs: num_of_runs.unwrap_or(3),
        view: view.unwrap_or(1),
        code_config: code_config.unwrap_or(0),
    }
}

/// Builds the integer options from the values as read from the command
/// line, `None` standing for an option that was not given or could not be
/// read, and from the number of processors. Returns `None` when they
/// cannot be run.
pub fn parse_sizes(
    max_iter: Option<u32>,
    img_size: Option<u32>,
    num_of_runs: Option<u32>,
    num_threads: Option<u32>,
    view: Option<u32>,
    code_config: Option<u32>,
    max_threads: u32,
) -> (r: Option<MandelSizes>)
    ensures
        ({
            let sizes = with_defaults(
                max_iter,
                img_size,
                num_of_runs,
                num_threads,
                view,
                code_config,
                max_threads,
            );
            r == (if sizes.valid() {
                Some(sizes)
            } else {
                None
            })
        }),
{
    let sizes = MandelSizes {
        max_iter: max_iter.unwrap_or(2048),
        img_size: img_size.unwrap_or(4096),
        num_threads: num_threads.unwrap_or(max_threads),
        num_of_runs: num_of_runs.unwrap_or(3),
        view: view.unwrap_or(1),
        code_config: code_config.unwrap_or(0),
    };
    if sizes.max_iter > 0 && sizes.img_size > 0 && sizes.num_threads > 0 && sizes.view < VIEWS
        && sizes.num_of_runs > 0 && sizes.code_config <= MAX_CODE {
        Some(sizes)
    } else {
        None
    }
}

/// Where the pixel in column `x` of row `y` lies in the buffer of an image
/// of side `img_size`, stored by rows.
pub fn pixel_index(x: u32, y: u32, img_size: u32) -> (index: usize)
    requires
        x < img_size,
        y < img_size,
        img_size * img_size <= u32::MAX,
    ensures
        index == y * img_size + x,
        index < img_size * img_size,
        (index as int) % (img_size as int) == x,
        (index as int) / (img_size as int) == y,
{
    proof {
        lemma_pixel_round_trip(x, y, img_size);
        assert(y * img_size + x < img_size * img_size) by (nonlinear_arith)
            requires
                0 <= x < img_size,
                0 <= y < img_size,
        ;
        assert(y * img_size >= 0) by (nonlinear_arith)
            requires
                0 <= y,
                0 <= img_size,
        ;
    }
    ((y * img_size) + x) as usize
}

/// The column and the row, in this order, of the pixel at place `n` of the
/// buffer of an image of side `img_size`, stored by rows.
pub fn pixel_at(n: usize, img_size: u32) -> (r: (u32, u32))
    requires
        img_size > 0,
        n < img_size * img_size,
        img_size * img_size <= u32::MAX,
    ensures
        r.0 == (n as int) % (img_size as int),
        r.1 == (n as int) / (img_size as int),
        r.0 < img_size,
        r.1 < img_size,
        r.1 * img_size + r.0 == n,
{
    let m = n as u32;
    let y = m / img_size;
    proof {
        lemma_fundamental_div_mod(n as int, img_size as int);
        vstd::arithmetic::div_mod::lemma_mod_bound(n as int, img_size as int);
        assert(img_size * y == y * img_size) by (nonlinear_arith);
        assert(y < img_size) by (nonlinear_arith)
            requires
                y * img_size + (n as int) % (img_size as int) == n,
                0 <= (n as int) % (img_size as int),
                n < img_size * img_size,
                img_size > 0,
        ;
    }
    let x = m - (y * img_size);
    (x, y)
}

/// Every pixel is found again at its index.
pub proof fn lemma_pixel_round_trip(x: u32, y: u32, img_size: u32)
    requires
        x < img_size,
        y < img_size,
    ensures
        (y * img_size + x) % (img_size as int) == x,
        (y * img_size + x) / (img_size as int) == y,
{
    lemma_fundamental_div_mod_converse(y * img_size + x, img_size as int, y as int, x as int);
}

} // verus!
