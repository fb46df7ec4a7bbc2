//! Mapping iteration outcomes to RGB triples.

use vstd::prelude::*;
use vstd::arithmetic::div_mod::lemma_multiply_divide_lt;
use vstd::arithmetic::mul::lemma_mul_strict_inequality;
use crate::kernel::IterationOutcome;

verus! {

/// The color of an outcome under an iteration cap of `max_iter`: bounded
/// points are white; a point escaped at step `k` gets brightness
/// `b = floor(255 * k / max_iter)` and the triple `(b / 2, 0, b)`, both
/// divisions truncating.
pub open spec fn spec_color(o: IterationOutcome, max_iter: int) -> (u8, u8, u8) {
    match o {
        IterationOutcome::Bounded => (255u8, 255u8, 255u8),
        IterationOutcome::Escaped(k) => {
            let b = 255 * k / max_iter;
            ((b / 2) as u8, 0u8, b as u8)
        },
    }
}

/// Maps one iteration outcome to its RGB triple.
pub fn color_of(o: IterationOutcome, max_iter: usize) -> (c: (u8, u8, u8))
    requires
        max_iter >= 1,
        o matches IterationOutcome::Escaped(k) ==> k < max_iter,
    ensures
        c == spec_color(o, max_iter as int),
{
    match o {
        IterationOutcome::Bounded => (255, 255, 255),
        IterationOutcome::Escaped(k) => {
            let num: u128 = (k as u128) * 255;
            let q: u128 = num / (max_iter as u128);
            proof {
                lemma_mul_strict_inequality(k as int, max_iter as int, 255);
                lemma_multiply_divide_lt(255 * (k as int), max_iter as int, 255);
                assert(q < 255);
            }
            let b: u8 = q as u8;
            (b / 2, 0, b)
        },
    }
}

} // verus!
