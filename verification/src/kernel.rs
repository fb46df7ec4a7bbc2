//! Escape-time iteration control.
//!
//! A [`Recurrence`] is the iteration strategy: it decides, for a pixel and a
//! step index, whether the iterated point escapes at that step. [`classify`]
//! runs a recurrence for up to `max_iter` steps and reports the first escape,
//! or boundedness if no step escapes.

use vstd::prelude::*;

verus! {

/// The result of iterating one point: either the point escaped at a
/// zero-based step index, or it stayed bounded for the whole iteration cap.
#[derive(Clone, Copy, Debug, PartialEq, Eq, Structural)]
pub enum IterationOutcome {
    Escaped(usize),
    Bounded,
}

/// An escape-time iteration strategy.
///
/// `escapes(x, y, n)` says whether, for the point of pixel `(x, y)`, the
/// value computed by the n-th step (zero-based) escapes. It is a pure
/// function of the pixel and the step, which is what makes the whole engine
/// deterministic. `init` builds the strategy's starting state for a pixel
/// and `advance` performs one step, reporting whether that step escaped.
pub trait Recurrence: Sized {
    /// The per-pixel iteration state carried from step to step.
    type State;

    /// Whether step `n` (zero-based) escapes for pixel `(x, y)`.
    spec fn escapes(&self, x: int, y: int, n: int) -> bool;

    /// `s` is the state reached after `n` steps for pixel `(x, y)`.
    spec fn wf_state(&self, x: int, y: int, n: int, s: Self::State) -> bool;

    /// The starting state (before any step) for pixel `(x, y)`.
    fn init(&self, x: usize, y: usize) -> (s: Self::State)
        ensures
            self.wf_state(x as int, y as int, 0, s),
    ;

    /// Performs step `n`, returning the next state and whether the value
    /// computed by this step escaped.
    fn advance(&self, x: usize, y: usize, n: usize, s: Self::State) -> (r: (Self::State, bool))
        requires
            self.wf_state(x as int, y as int, n as int, s),
        ensures
            self.wf_state(x as int, y as int, n as int + 1, r.0),
            r.1 == self.escapes(x as int, y as int, n as int),
    ;
}

/// The outcome of iterating pixel `(x, y)` from step `n` up to `max_iter`:
/// the first escaping step in `[n, max_iter)`, or `Bounded` if there is none.
pub open spec fn first_escape<R: Recurrence>(
    r: R,
    x: int,
    y: int,
    n: int,
    max_iter: int,
) -> IterationOutcome
    decreases max_iter - n,
{
    if n >= max_iter {
        IterationOutcome::Bounded
    } else if r.escapes(x, y, n) {
        IterationOutcome::Escaped(n as usize)
    } else {
        first_escape(r, x, y, n + 1, max_iter)
    }
}

/// The outcome of iterating pixel `(x, y)` for at most `max_iter` steps.
pub open spec fn spec_outcome<R: Recurrence>(r: R, x: int, y: int, max_iter: int) -> IterationOutcome {
    first_escape(r, x, y, 0, max_iter)
}

proof fn lemma_first_escape_characterization<R: Recurrence>(
    r: R,
    x: int,
    y: int,
    n: int,
    max_iter: int,
)
    requires
        0 <= n <= max_iter,
        max_iter <= usize::MAX,
    ensures
        match first_escape(r, x, y, n, max_iter) {
            IterationOutcome::Escaped(k) => n <= k < max_iter && r.escapes(x, y, k as int)
                && (forall|j: int| n <= j < k ==> !r.escapes(x, y, j)),
            IterationOutcome::Bounded => forall|j: int| n <= j < max_iter ==> !r.escapes(x, y, j),
        },
    decreases max_iter - n,
{
    if n < max_iter && !r.escapes(x, y, n) {
        lemma_first_escape_characterization(r, x, y, n + 1, max_iter);
    }
}

/// The outcome is exactly the first escaping step: `Escaped(k)` holds if and
/// only if step `k` escapes and no earlier step does, and `Bounded` holds if
/// and only if no step below `max_iter` escapes.
pub proof fn lemma_outcome_characterization<R: Recurrence>(r: R, x: int, y: int, max_iter: int)
    requires
        0 <= max_iter <= usize::MAX,
    ensures
        match spec_outcome(r, x, y, max_iter) {
            IterationOutcome::Escaped(k) => k < max_iter && r.escapes(x, y, k as int)
                && (forall|j: int| 0 <= j < k ==> !r.escapes(x, y, j)),
            IterationOutcome::Bounded => forall|j: int| 0 <= j < max_iter ==> !r.escapes(x, y, j),
        },
{
    lemma_first_escape_characterization(r, x, y, 0, max_iter);
}

/// A kernel allowed zero steps classifies every point as bounded.
pub proof fn lemma_zero_iterations<R: Recurrence>(r: R, x: int, y: int)
    ensures
        spec_outcome(r, x, y, 0) == IterationOutcome::Bounded,
{
}

/// A recurrence whose value first escapes at step `k` (for instance because
/// that step produced a non-finite magnitude) yields `Escaped(k)`, never
/// `Bounded`, whenever the iteration cap allows step `k` to run.
pub proof fn lemma_first_escape_step<R: Recurrence>(r: R, x: int, y: int, k: int, max_iter: int)
    requires
        0 <= k < max_iter <= usize::MAX,
        r.escapes(x, y, k),
        forall|j: int| 0 <= j < k ==> !r.escapes(x, y, j),
    ensures
        spec_outcome(r, x, y, max_iter) == IterationOutcome::Escaped(k as usize),
{
    lemma_outcome_characterization(r, x, y, max_iter);
    match spec_outcome(r, x, y, max_iter) {
        IterationOutcome::Escaped(k2) => {
            if k2 < k {
                assert(!r.escapes(x, y, k2 as int));
            }
            if k < k2 {
                assert(!r.escapes(x, y, k));
            }
        },
        IterationOutcome::Bounded => {
            assert(!r.escapes(x, y, k));
        },
    }
}

/// Runs the recurrence for pixel `(x, y)` for at most `max_iter` steps and
/// returns the first escape, or `Bounded` if no step below the cap escapes.
pub fn classify<R: Recurrence>(r: &R, x: usize, y: usize, max_iter: usize) -> (o: IterationOutcome)
    ensures
        o == spec_outcome(*r, x as int, y as int, max_iter as int),
{
    let mut s = r.init(x, y);
    let mut n: usize = 0;
    while n < max_iter
        invariant
            n <= max_iter,
            r.wf_state(x as int, y as int, n as int, s),
            spec_outcome(*r, x as int, y as int, max_iter as int)
                == first_escape(*r, x as int, y as int, n as int, max_iter as int),
        decreases max_iter - n,
    {
        let step = r.advance(x, y, n, s);
        s = step.0;
        if step.1 {
            return IterationOutcome::Escaped(n);
        }
        n = n + 1;
    }
    IterationOutcome::Bounded
}

/// A scripted strategy for exercising the iteration control: step `n`
/// escapes exactly when entry `n` of the script is true, for every pixel
/// alike; steps beyond the script never escape.
pub struct ScriptRecurrence {
    pub steps: Vec<bool>,
}

impl Recurrence for ScriptRecurrence {
    type State = ();

    open spec fn escapes(&self, x: int, y: int, n: int) -> bool {
        0 <= n < self.steps@.len() && self.steps@[n]
    }

    open spec fn wf_state(&self, x: int, y: int, n: int, s: ()) -> bool {
        true
    }

    fn init(&self, x: usize, y: usize) -> (s: ()) {
        ()
    }

    fn advance(&self, x: usize, y: usize, n: usize, s: ()) -> (r: ((), bool)) {
        if n < self.steps.len() {
            ((), self.steps[n])
        } else {
            ((), false)
        }
    }
}

/// An integer strategy whose point for pixel `(x, y)` escapes exactly at
/// step `x + y`: useful for end-to-end runs, since distinct diagonals of the
/// image get distinct outcomes.
pub struct DiagonalRecurrence {}

impl Recurrence for DiagonalRecurrence {
    type State = ();

    open spec fn escapes(&self, x: int, y: int, n: int) -> bool {
        n == x + y
    }

    open spec fn wf_state(&self, x: int, y: int, n: int, s: ()) -> bool {
        true
    }

    fn init(&self, x: usize, y: usize) -> (s: ()) {
        ()
    }

    fn advance(&self, x: usize, y: usize, n: usize, s: ()) -> (r: ((), bool)) {
        ((), n >= x && n - x == y)
    }
}

} // verus!
