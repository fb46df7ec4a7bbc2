//! Filling the output buffer: one RGB triple per pixel, chunk by chunk.
//!
//! [`render_chunk`] computes the bytes of one chunk of the pixel index
//! space; [`compute`] assembles the whole image from its chunks in order.
//! The buffer either produces is pinned down pointwise by [`rendered`]: it
//! is a pure function of the image dimensions, the iteration cap and the
//! recurrence, so repeated runs, and runs with different worker counts or
//! granularities, produce byte-identical buffers.

use vstd::prelude::*;
use vstd::arithmetic::div_mod::{
    lemma_fundamental_div_mod, lemma_mod_division_less_than_divisor, lemma_multiply_divide_lt,
};
use crate::color::{color_of, spec_color};
use crate::kernel::{classify, lemma_outcome_characterization, spec_outcome, IterationOutcome, Recurrence};
use crate::options::Options;
use crate::partition::{chunk_bounds, chunk_end, chunk_start, lemma_chunk_size_pos};

verus! {

/// The color that pixel `i` (row-major) of the image must get: the color of
/// the outcome of iterating the pixel `(i % width, i / width)`.
pub open spec fn spec_pixel_color<R: Recurrence>(r: R, o: Options, i: int) -> (u8, u8, u8) {
    spec_color(
        spec_outcome(r, i % (o.img_size_x as int), i / (o.img_size_x as int), o.iter as int),
        o.iter as int,
    )
}

/// The three bytes of pixel `i` in a whole-image buffer hold exactly the
/// pixel's color.
pub open spec fn pixel_ok<R: Recurrence>(r: R, o: Options, buf: Seq<u8>, i: int) -> bool {
    let c = spec_pixel_color(r, o, i);
    &&& buf[3 * i] == c.0
    &&& buf[3 * i + 1] == c.1
    &&& buf[3 * i + 2] == c.2
}

/// The three bytes of pixel `i` in the bytes of the chunk that starts at
/// pixel `start` hold exactly the pixel's color.
pub open spec fn chunk_pixel_ok<R: Recurrence>(
    r: R,
    o: Options,
    start: int,
    bytes: Seq<u8>,
    i: int,
) -> bool {
    let c = spec_pixel_color(r, o, i);
    &&& bytes[3 * (i - start)] == c.0
    &&& bytes[3 * (i - start) + 1] == c.1
    &&& bytes[3 * (i - start) + 2] == c.2
}

/// `buf` is a complete render of the image: `3 * pixel_count` bytes,
/// row-major, three bytes per pixel, each triple the pixel's color.
pub open spec fn rendered<R: Recurrence>(r: R, o: Options, buf: Seq<u8>) -> bool {
    &&& buf.len() == 3 * o.pixel_count()
    &&& forall|i: int| 0 <= i < o.pixel_count() ==> #[trigger] pixel_ok(r, o, buf, i)
}

/// Splits a row-major pixel index into its (column, row) coordinates.
pub fn index_to_xy(i: usize, width: usize) -> (p: (usize, usize))
    requires
        width >= 1,
    ensures
        p.0 == i as int % width as int,
        p.1 == i as int / width as int,
        p.0 < width,
{
    (i % width, i / width)
}

/// The three bytes of entry `i` in a chunk's bytes hold exactly the color
/// of outcome `i`.
pub open spec fn outcome_bytes_ok(
    o: Options,
    outcomes: Seq<IterationOutcome>,
    bytes: Seq<u8>,
    i: int,
) -> bool {
    let c = spec_color(outcomes[i], o.iter as int);
    &&& bytes[3 * i] == c.0
    &&& bytes[3 * i + 1] == c.1
    &&& bytes[3 * i + 2] == c.2
}

/// Colors a chunk whose outcomes were already computed: the byte layout and
/// coloring of [`render_chunk`], for callers whose iteration strategy lives
/// outside the library and hands its results over as plain values.
pub fn render_chunk_outcomes(
    o: &Options,
    start: usize,
    end: usize,
    outcomes: &Vec<IterationOutcome>,
) -> (bytes: Vec<u8>)
    requires
        o.valid(),
        start <= end,
        end <= o.pixel_count(),
        outcomes@.len() == end - start,
        forall|i: int|
            0 <= i < outcomes@.len() ==> (#[trigger] outcomes@[i] matches IterationOutcome::Escaped(
                k,
            ) ==> k < o.iter),
    ensures
        bytes@.len() == 3 * (end - start),
        forall|i: int| 0 <= i < outcomes@.len() ==> #[trigger] outcome_bytes_ok(*o, outcomes@, bytes@, i),
{
    let mut bytes: Vec<u8> = Vec::new();
    let mut k: usize = 0;
    let count = end - start;
    proof {
        o.lemma_valid_bounds();
    }
    while k < count
        invariant
            o.valid(),
            k <= count,
            count == outcomes@.len(),
            count <= o.pixel_count(),
            3 * o.pixel_count() <= usize::MAX,
            forall|i: int|
                0 <= i < outcomes@.len() ==> (#[trigger] outcomes@[i] matches
                    IterationOutcome::Escaped(e) ==> e < o.iter),
            bytes@.len() == 3 * k,
            forall|i: int| 0 <= i < k ==> #[trigger] outcome_bytes_ok(*o, outcomes@, bytes@, i),
        decreases count - k,
    {
        let c = color_of(outcomes[k], o.iter);
        let ghost old_bytes = bytes@;
        bytes.push(c.0);
        bytes.push(c.1);
        bytes.push(c.2);
        proof {
            assert forall|i: int|
                0 <= i < k + 1 implies #[trigger] outcome_bytes_ok(*o, outcomes@, bytes@, i) by {
                if i < k {
                    assert(outcome_bytes_ok(*o, outcomes@, old_bytes, i));
                    assert(bytes@[3 * i] == old_bytes[3 * i]);
                    assert(bytes@[3 * i + 1] == old_bytes[3 * i + 1]);
                    assert(bytes@[3 * i + 2] == old_bytes[3 * i + 2]);
                } else {
                    assert(bytes@[3 * i] == c.0);
                    assert(bytes@[3 * i + 1] == c.1);
                    assert(bytes@[3 * i + 2] == c.2);
                }
            }
        }
        k = k + 1;
    }
    bytes
}

/// Computes the bytes of the pixels `[start, end)`: every pixel of the
/// chunk is classified and colored, and nothing else is produced.
pub fn render_chunk<R: Recurrence>(r: &R, o: &Options, start: usize, end: usize) -> (bytes: Vec<
    u8,
>)
    requires
        o.valid(),
        start <= end,
        end <= o.pixel_count(),
    ensures
        bytes@.len() == 3 * (end - start),
        forall|i: int|
            start <= i < end ==> #[trigger] chunk_pixel_ok(*r, *o, start as int, bytes@, i),
{
    let mut bytes: Vec<u8> = Vec::new();
    let mut p: usize = start;
    proof {
        o.lemma_valid_bounds();
    }
    while p < end
        invariant
            o.valid(),
            start <= p <= end,
            end <= o.pixel_count(),
            3 * o.pixel_count() <= usize::MAX,
            bytes@.len() == 3 * (p - start),
            forall|i: int|
                start <= i < p ==> #[trigger] chunk_pixel_ok(*r, *o, start as int, bytes@, i),
        decreases end - p,
    {
        let xy = index_to_xy(p, o.img_size_x);
        let outcome = classify(r, xy.0, xy.1, o.iter);
        proof {
            lemma_outcome_characterization(*r, xy.0 as int, xy.1 as int, o.iter as int);
        }
        let c = color_of(outcome, o.iter);
        let ghost old_bytes = bytes@;
        bytes.push(c.0);
        bytes.push(c.1);
        bytes.push(c.2);
        proof {
            assert forall|i: int|
                start <= i < p + 1 implies #[trigger] chunk_pixel_ok(
                *r,
                *o,
                start as int,
                bytes@,
                i,
            ) by {
                if i < p {
                    assert(chunk_pixel_ok(*r, *o, start as int, old_bytes, i));
                    assert(bytes@[3 * (i - start)] == old_bytes[3 * (i - start)]);
                    assert(bytes@[3 * (i - start) + 1] == old_bytes[3 * (i - start) + 1]);
                    assert(bytes@[3 * (i - start) + 2] == old_bytes[3 * (i - start) + 2]);
                } else {
                    assert(bytes@[3 * (i - start)] == c.0);
                    assert(bytes@[3 * (i - start) + 1] == c.1);
                    assert(bytes@[3 * (i - start) + 2] == c.2);
                }
            }
        }
        p = p + 1;
    }
    bytes
}

/// Computes the whole image: chunk by chunk, in chunk order, into one
/// buffer that is handed back only once it is complete. The result is
/// pinned down pointwise by `rendered`, so it does not depend on how the
/// chunks would be spread over workers.
pub fn compute<R: Recurrence>(r: &R, o: &Options) -> (buf: Vec<u8>)
    requires
        o.valid(),
    ensures
        rendered(*r, *o, buf@),
{
    proof {
        o.lemma_valid_bounds();
        lemma_chunk_size_pos(*o);
    }
    let cc = o.tasks * o.granularity;
    let mut buf: Vec<u8> = Vec::new();
    let mut n: usize = 0;
    while n < cc
        invariant
            o.valid(),
            cc == o.chunk_count(),
            n <= cc,
            buf@.len() == 3 * chunk_start(*o, n as int),
            forall|i: int|
                0 <= i < chunk_start(*o, n as int) ==> #[trigger] pixel_ok(*r, *o, buf@, i),
        decreases cc - n,
    {
        let bounds = chunk_bounds(o, n);
        let start = bounds.0;
        let end = bounds.1;
        let mut chunk = render_chunk(r, o, start, end);
        let ghost old_buf = buf@;
        let ghost chunk_bytes = chunk@;
        buf.append(&mut chunk);
        proof {
            assert(buf@ == old_buf + chunk_bytes);
            assert(chunk_end(*o, n as int) == chunk_start(*o, n as int + 1));
            assert forall|i: int|
                0 <= i < chunk_start(*o, n as int + 1) implies #[trigger] pixel_ok(
                *r,
                *o,
                buf@,
                i,
            ) by {
                if i < start {
                    assert(pixel_ok(*r, *o, old_buf, i));
                    assert(buf@[3 * i] == old_buf[3 * i]);
                    assert(buf@[3 * i + 1] == old_buf[3 * i + 1]);
                    assert(buf@[3 * i + 2] == old_buf[3 * i + 2]);
                } else {
                    assert(chunk_pixel_ok(*r, *o, start as int, chunk_bytes, i));
                    assert(buf@[3 * i] == chunk_bytes[3 * (i - start)]);
                    assert(buf@[3 * i + 1] == chunk_bytes[3 * (i - start) + 1]);
                    assert(buf@[3 * i + 2] == chunk_bytes[3 * (i - start) + 2]);
                }
            }
        }
        n = n + 1;
    }
    proof {
        lemma_chunk_size_pos(*o);
        assert(chunk_start(*o, cc as int) == o.pixel_count());
    }
    buf
}

/// A chunk's bytes depend only on the pixels' outcomes, never on who
/// computed them: bytes colored from the outcomes of the recurrence equal
/// the bytes the engine computes from the recurrence itself.
pub proof fn lemma_outcomes_determine_chunk<R: Recurrence>(
    r: R,
    o: Options,
    start: int,
    end: int,
    outcomes: Seq<IterationOutcome>,
    b1: Seq<u8>,
    b2: Seq<u8>,
)
    requires
        o.valid(),
        0 <= start <= end <= o.pixel_count(),
        outcomes.len() == end - start,
        forall|i: int|
            0 <= i < outcomes.len() ==> outcomes[i] == spec_outcome(
                r,
                (start + i) % (o.img_size_x as int),
                (start + i) / (o.img_size_x as int),
                o.iter as int,
            ),
        b1.len() == 3 * (end - start),
        b2.len() == 3 * (end - start),
        forall|i: int| 0 <= i < outcomes.len() ==> #[trigger] outcome_bytes_ok(o, outcomes, b1, i),
        forall|i: int| start <= i < end ==> #[trigger] chunk_pixel_ok(r, o, start, b2, i),
    ensures
        b1 == b2,
{
    assert forall|m: int| 0 <= m < b1.len() implies b1[m] == b2[m] by {
        let i = m / 3;
        lemma_fundamental_div_mod(m, 3);
        lemma_mod_division_less_than_divisor(m, 3);
        lemma_multiply_divide_lt(m, 3, end - start);
        assert(outcome_bytes_ok(o, outcomes, b1, i));
        assert(chunk_pixel_ok(r, o, start, b2, start + i));
        assert(spec_pixel_color(r, o, start + i) == spec_color(outcomes[i], o.iter as int));
        assert(m == 3 * i || m == 3 * i + 1 || m == 3 * i + 2);
    }
    assert(b1 =~= b2);
}

/// Determinism: a complete render of a fixed configuration and recurrence
/// is byte-identical across runs, because `rendered` pins every byte.
pub proof fn lemma_render_deterministic<R: Recurrence>(r: R, o: Options, b1: Seq<u8>, b2: Seq<u8>)
    requires
        o.valid(),
        rendered(r, o, b1),
        rendered(r, o, b2),
    ensures
        b1 == b2,
{
    lemma_rendered_unique(r, r, o, o, b1, b2);
}

/// Worker-count invariance: two configurations that agree on the image
/// dimensions and the iteration cap render to byte-identical buffers, no
/// matter their worker counts and granularities.
pub proof fn lemma_worker_count_invariance<R: Recurrence>(
    r: R,
    o1: Options,
    o2: Options,
    b1: Seq<u8>,
    b2: Seq<u8>,
)
    requires
        o1.img_size_x == o2.img_size_x,
        o1.img_size_y == o2.img_size_y,
        o1.iter == o2.iter,
        rendered(r, o1, b1),
        rendered(r, o2, b2),
    ensures
        b1 == b2,
{
    lemma_rendered_unique(r, r, o1, o2, b1, b2);
}

proof fn lemma_rendered_unique<R1: Recurrence, R2: Recurrence>(
    r1: R1,
    r2: R2,
    o1: Options,
    o2: Options,
    b1: Seq<u8>,
    b2: Seq<u8>,
)
    requires
        o1.img_size_x == o2.img_size_x,
        o1.img_size_y == o2.img_size_y,
        o1.iter == o2.iter,
        forall|i: int|
            0 <= i < o1.pixel_count() ==> spec_pixel_color(r1, o1, i) == spec_pixel_color(
                r2,
                o2,
                i,
            ),
        rendered(r1, o1, b1),
        rendered(r2, o2, b2),
    ensures
        b1 == b2,
{
    assert(b1.len() == b2.len());
    assert forall|m: int| 0 <= m < b1.len() implies b1[m] == b2[m] by {
        let i = m / 3;
        lemma_fundamental_div_mod(m, 3);
        lemma_mod_division_less_than_divisor(m, 3);
        lemma_multiply_divide_lt(m, 3, o1.pixel_count());
        assert(pixel_ok(r1, o1, b1, i));
        assert(pixel_ok(r2, o2, b2, i));
        assert(m == 3 * i || m == 3 * i + 1 || m == 3 * i + 2);
    }
    assert(b1 =~= b2);
}

} // verus!
