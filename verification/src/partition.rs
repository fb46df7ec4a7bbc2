//! Work partitioning: splitting the pixel index space into chunks and
//! assigning chunks to workers.
//!
//! The pixel index space `[0, pixel_count)` is cut into `chunk_count`
//! half-open ranges of `chunk_size` pixels each, the last one clipped to the
//! exact end of the space. The assignment is the static stride scheme:
//! worker `w` owns the chunks `w, w + tasks, w + 2 * tasks, ...` — a pure
//! function of the chunk index, needing no synchronization at run time.

use vstd::prelude::*;
use vstd::arithmetic::div_mod::{
    lemma_fundamental_div_mod, lemma_fundamental_div_mod_converse, lemma_div_is_ordered,
    lemma_multiply_divide_lt, lemma_remainder_lower, lemma_mod_division_less_than_divisor,
    lemma_div_pos_is_pos, lemma_div_nonincreasing,
};
use vstd::arithmetic::mul::{
    lemma_mul_inequality, lemma_mul_is_distributive_add_other_way, lemma_mul_is_commutative,
    lemma_mul_is_distributive_add, lemma_mul_basics_2,
};
use crate::options::Options;

verus! {

/// The size of a chunk in pixels: `pixel_count / chunk_count` rounded up,
/// so that `chunk_count` chunks always cover the whole space.
pub open spec fn chunk_size(o: Options) -> int {
    if o.pixel_count() % o.chunk_count() == 0 {
        o.pixel_count() / o.chunk_count()
    } else {
        o.pixel_count() / o.chunk_count() + 1
    }
}

/// The first pixel index of chunk `n` (clipped to the end of the space).
pub open spec fn chunk_start(o: Options, n: int) -> int {
    if n * chunk_size(o) <= o.pixel_count() {
        n * chunk_size(o)
    } else {
        o.pixel_count()
    }
}

/// One past the last pixel index of chunk `n`: chunks are contiguous, so
/// this is the start of chunk `n + 1`.
pub open spec fn chunk_end(o: Options, n: int) -> int {
    chunk_start(o, n + 1)
}

/// The worker that owns chunk `n` under the static stride assignment.
pub open spec fn chunk_owner(o: Options, n: int) -> int {
    n % (o.tasks as int)
}

/// A chunk holds at least one pixel's worth of room per step: the rounded-up
/// size is positive, and the chunk count times the size reaches the end.
pub proof fn lemma_chunk_size_pos(o: Options)
    requires
        o.valid(),
    ensures
        chunk_size(o) >= 1,
        o.chunk_count() * chunk_size(o) >= o.pixel_count(),
{
    let p = o.pixel_count();
    let cc = o.chunk_count();
    o.lemma_valid_bounds();
    lemma_fundamental_div_mod(p, cc);
    if p % cc == 0 {
        assert(chunk_size(o) == p / cc);
        assert(cc * (p / cc) == p);
        if p / cc < 1 {
            lemma_div_pos_is_pos(p, cc);
            assert(p / cc == 0);
            assert(cc * 0 == 0) by {
                lemma_mul_basics_2(cc);
            }
            assert(false);
        }
    } else {
        assert(chunk_size(o) == p / cc + 1);
        lemma_div_pos_is_pos(p, cc);
        assert(cc * (p / cc + 1) == cc * (p / cc) + cc * 1) by {
            lemma_mul_is_distributive_add(cc, p / cc, 1);
        }
        assert(cc * (p / cc) + p % cc == p);
        assert(p % cc < cc) by {
            lemma_mod_division_less_than_divisor(p, cc);
        }
    }
}

/// Every pixel index lies in the chunk `p / chunk_size`: the witness for
/// coverage of the whole pixel space.
pub proof fn lemma_chunks_cover(o: Options, p: int)
    requires
        o.valid(),
        0 <= p < o.pixel_count(),
    ensures
        ({
            let n = p / chunk_size(o);
            &&& 0 <= n < o.chunk_count()
            &&& chunk_start(o, n) <= p < chunk_end(o, n)
        }),
{
    let cs = chunk_size(o);
    let cc = o.chunk_count();
    lemma_chunk_size_pos(o);
    let n = p / cs;
    lemma_fundamental_div_mod(p, cs);
    lemma_mod_division_less_than_divisor(p, cs);
    assert(cs * n <= p < cs * n + cs);
    assert(cs * n == n * cs) by {
        lemma_mul_is_commutative(cs, n);
    }
    assert(cs * n + cs == (n + 1) * cs) by {
        lemma_mul_is_distributive_add_other_way(cs, n, 1);
        lemma_mul_is_commutative(cs, n + 1);
    }
    // n is within the chunk count: p < pixel_count <= cc * cs.
    assert(p < cs * cc);
    lemma_multiply_divide_lt(p, cs, cc);
    // start of chunk n is not clipped; end may be.
    assert(chunk_start(o, n) == n * cs);
    assert(chunk_end(o, n) > p);
}

/// Distinct chunks are disjoint: a pixel index inside chunk `n1` lies in no
/// other chunk.
pub proof fn lemma_chunks_disjoint(o: Options, n1: int, n2: int, p: int)
    requires
        o.valid(),
        0 <= n1,
        0 <= n2,
        n1 != n2,
        chunk_start(o, n1) <= p < chunk_end(o, n1),
    ensures
        !(chunk_start(o, n2) <= p < chunk_end(o, n2)),
{
    let cs = chunk_size(o);
    lemma_chunk_size_pos(o);
    if n1 < n2 {
        // end of n1 <= start of n2
        assert((n1 + 1) * cs <= n2 * cs) by {
            lemma_mul_inequality(n1 + 1, n2, cs);
        }
    } else {
        assert((n2 + 1) * cs <= n1 * cs) by {
            lemma_mul_inequality(n2 + 1, n1, cs);
        }
    }
}

/// Every chunk is owned by exactly one worker, and that worker's index is in
/// range.
pub proof fn lemma_owner_in_range(o: Options, n: int)
    requires
        o.valid(),
        0 <= n,
    ensures
        0 <= chunk_owner(o, n) < o.tasks,
{
    lemma_mod_division_less_than_divisor(n, o.tasks as int);
    lemma_remainder_lower(n, o.tasks as int);
}

/// Computes the pixel range `[start, end)` of chunk `n`.
pub fn chunk_bounds(o: &Options, n: usize) -> (r: (usize, usize))
    requires
        o.valid(),
        n < o.chunk_count(),
    ensures
        r.0 == chunk_start(*o, n as int),
        r.1 == chunk_end(*o, n as int),
        r.0 <= r.1 <= o.pixel_count(),
{
    proof {
        lemma_chunk_size_pos(*o);
        o.lemma_valid_bounds();
    }
    let pixels = o.img_size_x * o.img_size_y;
    let cc = o.tasks * o.granularity;
    proof {
        lemma_div_nonincreasing(pixels as int, cc as int);
    }
    let cs = if pixels % cc == 0 {
        pixels / cc
    } else {
        pixels / cc + 1
    };
    let start = match n.checked_mul(cs) {
        Some(v) => {
            if v <= pixels {
                v
            } else {
                pixels
            }
        },
        None => pixels,
    };
    let end = match (n + 1).checked_mul(cs) {
        Some(v) => {
            if v <= pixels {
                v
            } else {
                pixels
            }
        },
        None => pixels,
    };
    proof {
        if n as int * cs as int > usize::MAX {
            assert(chunk_start(*o, n as int) == o.pixel_count());
        }
        if (n + 1) as int * cs as int > usize::MAX {
            assert(chunk_end(*o, n as int) == o.pixel_count());
        }
        assert(n as int * cs <= (n + 1) as int * cs) by {
            lemma_mul_inequality(n as int, n as int + 1, cs as int);
        }
    }
    (start, end)
}

/// Lists, in increasing order, the chunk indices owned by `worker` under the
/// static stride assignment: exactly the chunks `n < chunk_count` with
/// `n % tasks == worker`.
pub fn worker_chunk_indices(o: &Options, worker: usize) -> (v: Vec<usize>)
    requires
        o.valid(),
        worker < o.tasks,
    ensures
        forall|j: int| 0 <= j < v@.len() ==> #[trigger] v@[j] == worker + j * o.tasks,
        forall|j: int| 0 <= j < v@.len() ==> #[trigger] v@[j] < o.chunk_count(),
        forall|n: int|
            0 <= n < o.chunk_count() && chunk_owner(*o, n) == worker ==> exists|j: int|
                0 <= j < v@.len() && #[trigger] v@[j] == n,
{
    let cc = o.tasks * o.granularity;
    proof {
        lemma_mul_inequality(1, o.granularity as int, o.tasks as int);
        lemma_mul_is_commutative(o.granularity as int, o.tasks as int);
        assert(o.tasks <= cc);
    }
    // Number of owned chunks: k ranges over worker + k * tasks < cc.
    let count = (cc - worker - 1) / o.tasks + 1;
    let mut v: Vec<usize> = Vec::new();
    let mut k: usize = 0;
    while k < count
        invariant
            o.valid(),
            worker < o.tasks,
            cc == o.chunk_count(),
            count == (cc - worker - 1) as int / o.tasks as int + 1,
            count <= cc,
            v@.len() == k,
            k <= count,
            forall|j: int| 0 <= j < k ==> #[trigger] v@[j] == worker + j * o.tasks,
            forall|j: int| 0 <= j < k ==> #[trigger] v@[j] < o.chunk_count(),
        decreases count - k,
    {
        proof {
            // worker + k * tasks <= worker + (count - 1) * tasks <= cc - 1
            lemma_mul_inequality(k as int, count - 1, o.tasks as int);
            lemma_fundamental_div_mod((cc - worker - 1) as int, o.tasks as int);
            lemma_mod_division_less_than_divisor((cc - worker - 1) as int, o.tasks as int);
            lemma_mul_is_commutative(count - 1, o.tasks as int);
            assert((count - 1) * o.tasks <= cc - worker - 1);
        }
        v.push(worker + k * o.tasks);
        k = k + 1;
    }
    proof {
        assert forall|n: int|
            0 <= n < o.chunk_count() && chunk_owner(*o, n) == worker implies exists|j: int|
            0 <= j < v@.len() && #[trigger] v@[j] == n by {
            let t = o.tasks as int;
            let j = n / t;
            lemma_fundamental_div_mod(n, t);
            assert(n == t * j + n % t);
            assert(n % t == worker);
            assert(t * j == j * t) by {
                lemma_mul_is_commutative(t, j);
            }
            // j < count because n <= cc - 1, so j <= (cc - worker - 1) / t.
            lemma_div_is_ordered(n - worker, cc - 1 - worker, t);
            assert((n - worker) / t == j) by {
                lemma_fundamental_div_mod_converse(n - worker, t, j, 0);
            }
            assert(v@[j] == worker + j * t);
        }
    }
    v
}

} // verus!
