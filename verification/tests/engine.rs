use mandelbrot::color::color_of;
use mandelbrot::engine::{compute, render_chunk};
use mandelbrot::kernel::{classify, DiagonalRecurrence, IterationOutcome, ScriptRecurrence};
use mandelbrot::options::{EngineError, Options};
use mandelbrot::partition::{chunk_bounds, worker_chunk_indices};

fn opts(w: usize, h: usize, tasks: usize, iter: usize, granularity: usize) -> Options {
    Options::new((w, h), tasks, iter, granularity).unwrap()
}

#[test]
fn options_accepts_valid() {
    let o = opts(640, 480, 4, 50, 2);
    assert_eq!(o.img_size_x, 640);
    assert_eq!(o.img_size_y, 480);
    assert_eq!(o.tasks, 4);
    assert_eq!(o.iter, 50);
    assert_eq!(o.granularity, 2);
}

#[test]
fn options_rejects_zero_fields() {
    assert_eq!(
        Options::new((0, 480), 1, 50, 1),
        Err(EngineError::InvalidConfiguration)
    );
    assert_eq!(
        Options::new((640, 0), 1, 50, 1),
        Err(EngineError::InvalidConfiguration)
    );
    assert_eq!(
        Options::new((640, 480), 0, 50, 1),
        Err(EngineError::InvalidConfiguration)
    );
    assert_eq!(
        Options::new((640, 480), 1, 0, 1),
        Err(EngineError::InvalidConfiguration)
    );
    assert_eq!(
        Options::new((640, 480), 1, 50, 0),
        Err(EngineError::InvalidConfiguration)
    );
}

#[test]
fn options_rejects_oversized_buffer() {
    assert_eq!(
        Options::new((usize::MAX, 2), 1, 50, 1),
        Err(EngineError::InvalidConfiguration)
    );
}

#[test]
fn color_formula_midpoint() {
    // Escaping halfway through a cap of 50 gives brightness 127 and the
    // triple (63, 0, 127).
    assert_eq!(color_of(IterationOutcome::Escaped(25), 50), (63, 0, 127));
}

#[test]
fn color_bounded_is_white() {
    assert_eq!(
        color_of(IterationOutcome::Bounded, 50),
        (255, 255, 255)
    );
}

#[test]
fn color_immediate_escape_is_black() {
    assert_eq!(color_of(IterationOutcome::Escaped(0), 50), (0, 0, 0));
}

#[test]
fn color_last_step() {
    // 255 * 49 / 50 = 249 truncated.
    assert_eq!(color_of(IterationOutcome::Escaped(49), 50), (124, 0, 249));
}

#[test]
fn classify_reports_first_escaping_step() {
    // The value first escapes at step 2 (for instance because that step
    // produced a non-finite magnitude): the outcome is Escaped(2), not
    // Bounded, and not a later step.
    let r = ScriptRecurrence {
        steps: vec![false, false, true, true, false],
    };
    assert_eq!(classify(&r, 0, 0, 10), IterationOutcome::Escaped(2));
}

#[test]
fn classify_bounded_when_nothing_escapes() {
    let r = ScriptRecurrence {
        steps: vec![false, false, false],
    };
    assert_eq!(classify(&r, 0, 0, 10), IterationOutcome::Bounded);
}

#[test]
fn classify_zero_cap_is_bounded() {
    // A kernel allowed zero steps yields Bounded for every input point.
    let r = ScriptRecurrence {
        steps: vec![true, true, true],
    };
    assert_eq!(classify(&r, 0, 0, 0), IterationOutcome::Bounded);
    let d = DiagonalRecurrence {};
    assert_eq!(classify(&d, 5, 7, 0), IterationOutcome::Bounded);
}

#[test]
fn classify_escape_beyond_cap_is_bounded() {
    let d = DiagonalRecurrence {};
    // Pixel (1, 2) escapes at step 3, which a cap of 3 does not reach.
    assert_eq!(classify(&d, 1, 2, 3), IterationOutcome::Bounded);
    assert_eq!(classify(&d, 1, 2, 4), IterationOutcome::Escaped(3));
}

#[test]
fn chunks_cover_every_pixel_exactly_once() {
    // 15 pixels over 6 chunks of (rounded-up) size 3, and a non-dividing
    // 7-pixel case: every pixel index falls in exactly one chunk.
    for &(w, h, tasks, gran) in &[(5usize, 3usize, 2usize, 3usize), (7, 1, 2, 2), (4, 4, 8, 1)] {
        let o = opts(w, h, tasks, 10, gran);
        let pixels = w * h;
        let mut seen = vec![0usize; pixels];
        for n in 0..tasks * gran {
            let (s, e) = chunk_bounds(&o, n);
            assert!(s <= e && e <= pixels);
            for p in s..e {
                seen[p] += 1;
            }
        }
        for p in 0..pixels {
            assert_eq!(seen[p], 1, "pixel {} covered wrongly", p);
        }
    }
}

#[test]
fn workers_own_every_chunk_exactly_once() {
    let o = opts(5, 3, 3, 10, 4);
    let cc = 3 * 4;
    let mut seen = vec![0usize; cc];
    for worker in 0..3 {
        for n in worker_chunk_indices(&o, worker) {
            assert_eq!(n % 3, worker);
            seen[n] += 1;
        }
    }
    for n in 0..cc {
        assert_eq!(seen[n], 1, "chunk {} owned wrongly", n);
    }
}

#[test]
fn render_chunk_matches_whole_image() {
    let o = opts(4, 4, 2, 10, 2);
    let d = DiagonalRecurrence {};
    let whole = compute(&d, &o);
    for n in 0..4 {
        let (s, e) = chunk_bounds(&o, n);
        let part = render_chunk(&d, &o, s, e);
        assert_eq!(&whole[3 * s..3 * e], &part[..]);
    }
}

#[test]
fn end_to_end_four_by_four() {
    // A 4x4 image with an iteration cap of 10 and two workers: a 48-byte
    // buffer whose every pixel holds the color of its own outcome.
    let o = opts(4, 4, 2, 10, 1);
    let d = DiagonalRecurrence {};
    let buf = compute(&d, &o);
    assert_eq!(buf.len(), 48);
    for y in 0..4usize {
        for x in 0..4usize {
            // The diagonal strategy escapes pixel (x, y) at step x + y.
            let b = (255 * (x + y) / 10) as u8;
            let i = 3 * (y * 4 + x);
            assert_eq!(buf[i], b / 2, "pixel ({}, {})", x, y);
            assert_eq!(buf[i + 1], 0, "pixel ({}, {})", x, y);
            assert_eq!(buf[i + 2], b, "pixel ({}, {})", x, y);
        }
    }
}

#[test]
fn repeated_runs_are_identical() {
    let o = opts(6, 5, 3, 20, 2);
    let d = DiagonalRecurrence {};
    assert_eq!(compute(&d, &o), compute(&d, &o));
}

#[test]
fn worker_count_does_not_change_output() {
    let d = DiagonalRecurrence {};
    let one = compute(&d, &opts(4, 4, 1, 10, 1));
    let eight = compute(&d, &opts(4, 4, 8, 10, 3));
    assert_eq!(one, eight);
}
