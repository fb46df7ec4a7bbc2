//! The engine's configuration and its validation.

use vstd::prelude::*;

verus! {

proof fn lemma_three_assoc(x: int, y: int)
    ensures
        3 * x * y == 3 * (x * y),
{
    assert(3 * x * y == 3 * (x * y)) by (nonlinear_arith);
}

/// Why an invocation of the engine failed.
#[derive(Clone, Copy, Debug, PartialEq, Eq, Structural)]
pub enum EngineError {
    /// The configuration was rejected before any work started: a zero image
    /// dimension, a zero iteration cap, a zero worker count, a zero chunk
    /// granularity, or sizes whose byte length or chunk count does not fit
    /// in `usize`.
    InvalidConfiguration,
    /// A worker fault: the whole invocation is aborted and no partial
    /// buffer is ever handed out as if it were complete.
    ComputationFailure,
}

/// The integer configuration of one engine invocation: image dimensions in
/// pixels, the iteration cap, the worker count, and the chunk granularity
/// (how many chunks each worker is given). The numeric domain rectangle is
/// not part of this configuration; it belongs to the iteration strategy.
#[derive(Clone, Copy, Debug, PartialEq, Eq, Structural)]
pub struct Options {
    pub img_size_x: usize,
    pub img_size_y: usize,
    pub iter: usize,
    pub tasks: usize,
    pub granularity: usize,
}

impl Options {
    /// A usable configuration: every field positive, the output buffer's
    /// byte length representable, and the chunk count representable.
    pub open spec fn valid(self) -> bool {
        &&& self.img_size_x >= 1
        &&& self.img_size_y >= 1
        &&& self.iter >= 1
        &&& self.tasks >= 1
        &&& self.granularity >= 1
        &&& 3 * self.img_size_x * self.img_size_y <= usize::MAX
        &&& self.tasks * self.granularity <= usize::MAX
    }

    /// The number of pixels of the output image.
    pub open spec fn pixel_count(self) -> int {
        self.img_size_x * self.img_size_y
    }

    /// The number of chunks the pixel index space is split into.
    pub open spec fn chunk_count(self) -> int {
        self.tasks * self.granularity
    }

    /// Numeric room that a valid configuration guarantees: the pixel count,
    /// the byte length and the chunk count all fit in `usize`, and the pixel
    /// and chunk counts are positive.
    pub proof fn lemma_valid_bounds(self)
        requires
            self.valid(),
        ensures
            1 <= self.pixel_count(),
            3 * self.pixel_count() <= usize::MAX,
            1 <= self.chunk_count() <= usize::MAX,
    {
        assert(1 <= self.pixel_count() && 3 * self.pixel_count() <= usize::MAX)
            by (nonlinear_arith)
            requires
                self.img_size_x >= 1,
                self.img_size_y >= 1,
                3 * self.img_size_x * self.img_size_y <= usize::MAX,
                self.pixel_count() == self.img_size_x * self.img_size_y,
        {
        }
        assert(1 <= self.chunk_count()) by (nonlinear_arith)
            requires
                self.tasks >= 1,
                self.granularity >= 1,
                self.chunk_count() == self.tasks * self.granularity,
        {
        }
    }

    /// Builds a configuration, rejecting exactly the invalid ones.
    pub fn new(
        img_size: (usize, usize),
        thread_count: usize,
        iter: usize,
        granularity: usize,
    ) -> (r: Result<Options, EngineError>)
        ensures
            ({
                let o = Options {
                    img_size_x: img_size.0,
                    img_size_y: img_size.1,
                    iter,
                    tasks: thread_count,
                    granularity,
                };
                match r {
                    Ok(got) => got == o && o.valid(),
                    Err(e) => e == EngineError::InvalidConfiguration && !o.valid(),
                }
            }),
    {
        if img_size.0 == 0 || img_size.1 == 0 || iter == 0 || thread_count == 0 || granularity == 0 {
            return Err(EngineError::InvalidConfiguration);
        }
        let pixels = match img_size.0.checked_mul(img_size.1) {
            Some(p) => p,
            None => {
                proof {
                    lemma_three_assoc(img_size.0 as int, img_size.1 as int);
                }
                return Err(EngineError::InvalidConfiguration);
            },
        };
        proof {
            lemma_three_assoc(img_size.0 as int, img_size.1 as int);
        }
        if pixels > usize::MAX / 3 {
            return Err(EngineError::InvalidConfiguration);
        }
        if thread_count.checked_mul(granularity).is_none() {
            return Err(EngineError::InvalidConfiguration);
        }
        Ok(Options {
            img_size_x: img_size.0,
            img_size_y: img_size.1,
            iter,
            tasks: thread_count,
            granularity,
        })
    }
}

} // verus!
