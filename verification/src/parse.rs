//! Parsing of the image-size specification `"WIDTHxHEIGHT"`.

use vstd::prelude::*;
use vstd::string::StringSliceAdditionalSpecFns;

verus! {

/// An ASCII decimal digit.
pub open spec fn is_digit(b: u8) -> bool {
    48 <= b <= 57
}

/// Every byte of `s` is a decimal digit.
pub open spec fn all_digits(s: Seq<u8>) -> bool {
    forall|i: int| 0 <= i < s.len() ==> is_digit(#[trigger] s[i])
}

/// The digits of a field: an optional leading plus sign (byte 43) is
/// accepted, as in std's unsigned parsing, and is not itself a digit.
pub open spec fn field_digits(s: Seq<u8>) -> Seq<u8> {
    if s.len() > 0 && s[0] == 43 {
        s.subrange(1, s.len() as int)
    } else {
        s
    }
}

/// A usable decimal field: an optional plus sign followed by one or more
/// digits.
pub open spec fn numeric(s: Seq<u8>) -> bool {
    field_digits(s).len() > 0 && all_digits(field_digits(s))
}

/// The value a field spells: the value of its digits.
pub open spec fn field_value(s: Seq<u8>) -> int {
    digits_value(field_digits(s))
}

/// The value of a decimal digit string, most significant digit first.
pub open spec fn digits_value(s: Seq<u8>) -> int
    decreases s.len(),
{
    if s.len() == 0 {
        0
    } else {
        digits_value(s.drop_last()) * 10 + (s.last() - 48)
    }
}

/// `i` is the position of the first `'x'` (byte 120) in `s`.
pub open spec fn first_separator(s: Seq<u8>, i: int) -> bool {
    &&& 0 <= i < s.len()
    &&& s[i] == 120
    &&& forall|j: int| 0 <= j < i ==> s[j] != 120
}

/// The bytes `bs` spell `"WxH"`: a first separator splits them into two
/// decimal fields of values `w` and `h`.
pub open spec fn spec_size(bs: Seq<u8>, w: usize, h: usize) -> bool {
    exists|i: int|
        {
            &&& #[trigger] first_separator(bs, i)
            &&& numeric(bs.subrange(0, i))
            &&& field_value(bs.subrange(0, i)) == w
            &&& numeric(bs.subrange(i + 1, bs.len() as int))
            &&& field_value(bs.subrange(i + 1, bs.len() as int)) == h
        }
}

/// The size format determines its values: one byte string spells at most
/// one (width, height) pair, because the first separator is unique and a
/// digit string has one value.
pub proof fn lemma_size_unique(bs: Seq<u8>, w1: usize, h1: usize, w2: usize, h2: usize)
    requires
        spec_size(bs, w1, h1),
        spec_size(bs, w2, h2),
    ensures
        w1 == w2,
        h1 == h2,
{
    let i1 = choose|i: int|
        {
            &&& #[trigger] first_separator(bs, i)
            &&& numeric(bs.subrange(0, i))
            &&& field_value(bs.subrange(0, i)) == w1
            &&& numeric(bs.subrange(i + 1, bs.len() as int))
            &&& field_value(bs.subrange(i + 1, bs.len() as int)) == h1
        };
    let i2 = choose|i: int|
        {
            &&& #[trigger] first_separator(bs, i)
            &&& numeric(bs.subrange(0, i))
            &&& field_value(bs.subrange(0, i)) == w2
            &&& numeric(bs.subrange(i + 1, bs.len() as int))
            &&& field_value(bs.subrange(i + 1, bs.len() as int)) == h2
        };
    lemma_first_separator_unique(bs, i1, i2);
}

proof fn lemma_first_separator_unique(s: Seq<u8>, i1: int, i2: int)
    requires
        first_separator(s, i1),
        first_separator(s, i2),
    ensures
        i1 == i2,
{
    if i1 < i2 {
        assert(s[i1] != 120);
    }
    if i2 < i1 {
        assert(s[i2] != 120);
    }
}

proof fn lemma_digits_value_nonneg(s: Seq<u8>)
    requires
        all_digits(s),
    ensures
        digits_value(s) >= 0,
    decreases s.len(),
{
    if s.len() > 0 {
        let t = s.drop_last();
        assert forall|i: int| 0 <= i < t.len() implies is_digit(#[trigger] t[i]) by {
            assert(t[i] == s[i]);
        }
        lemma_digits_value_nonneg(t);
    }
}

/// The value of a digit string bounds the value of each of its prefixes.
proof fn lemma_digits_value_prefix(s: Seq<u8>, k: int)
    requires
        all_digits(s),
        0 <= k <= s.len(),
    ensures
        digits_value(s.subrange(0, k)) <= digits_value(s),
    decreases s.len() - k,
{
    if k == s.len() {
        assert(s.subrange(0, k) =~= s);
    } else {
        lemma_digits_value_prefix(s, k + 1);
        let t = s.subrange(0, k + 1);
        let u = s.subrange(0, k);
        assert(t.drop_last() =~= u);
        assert(is_digit(s[k]));
        assert(t.last() == s[k]);
        assert forall|i: int| 0 <= i < u.len() implies is_digit(#[trigger] u[i]) by {
            assert(u[i] == s[i]);
        }
        lemma_digits_value_nonneg(u);
        assert(digits_value(t) == digits_value(u) * 10 + (t.last() - 48));
        assert(digits_value(u) * 10 >= digits_value(u));
    }
}

fn find_separator(b: &[u8]) -> (r: Option<usize>)
    ensures
        match r {
            Some(i) => first_separator(b@, i as int),
            None => forall|j: int| 0 <= j < b@.len() ==> b@[j] != 120,
        },
{
    let n = b.len();
    let mut i: usize = 0;
    while i < n
        invariant
            i <= n,
            n == b@.len(),
            forall|j: int| 0 <= j < i ==> b@[j] != 120,
        decreases n - i,
    {
        if b[i] == 120 {
            return Some(i);
        }
        i = i + 1;
    }
    None
}

/// Parses the digit run `b[from..to]`, truncating nothing: the result is
/// `Some` exactly when the run is nonempty, all digits, and its value fits
/// in `usize`.
fn parse_digits(b: &[u8], from: usize, to: usize) -> (r: Option<usize>)
    requires
        from <= to <= b@.len(),
    ensures
        ({
            let s = b@.subrange(from as int, to as int);
            match r {
                Some(v) => s.len() > 0 && all_digits(s) && digits_value(s) == v,
                None => !(s.len() > 0 && all_digits(s) && digits_value(s) <= usize::MAX),
            }
        }),
{
    let ghost s = b@.subrange(from as int, to as int);
    if from == to {
        return None;
    }
    let mut acc: usize = 0;
    let mut k = from;
    while k < to
        invariant
            from <= k <= to,
            to <= b@.len(),
            s == b@.subrange(from as int, to as int),
            all_digits(b@.subrange(from as int, k as int)),
            acc == digits_value(b@.subrange(from as int, k as int)),
        decreases to - k,
    {
        let ghost pre = b@.subrange(from as int, k as int);
        let d = b[k];
        if d < 48 || d > 57 {
            proof {
                assert(s[k - from] == d);
            }
            return None;
        }
        proof {
            let cur = b@.subrange(from as int, k as int + 1);
            assert(cur.drop_last() =~= pre);
            assert(cur.last() == d);
            assert forall|i: int| 0 <= i < cur.len() implies is_digit(#[trigger] cur[i]) by {
                if i < k - from {
                    assert(cur[i] == pre[i]);
                } else {
                    assert(cur[i] == d);
                }
            }
            if all_digits(s) {
                lemma_digits_value_prefix(s, k as int + 1 - from);
                assert(b@.subrange(from as int, k as int + 1) =~= s.subrange(
                    0,
                    k as int + 1 - from,
                ));
            }
            lemma_digits_value_nonneg(pre);
        }
        let acc10 = match acc.checked_mul(10) {
            Some(v) => v,
            None => {
                return None;
            },
        };
        let acc2 = match acc10.checked_add((d - 48) as usize) {
            Some(v) => v,
            None => {
                return None;
            },
        };
        acc = acc2;
        k = k + 1;
    }
    proof {
        assert(s =~= b@.subrange(from as int, k as int));
    }
    Some(acc)
}

/// Parses the decimal field `b[from..to]`: an optional leading plus sign
/// followed by one or more digits, as std's unsigned parsing accepts. The
/// result is `Some` exactly when the field has that shape and its value
/// fits in `usize`.
fn parse_usize(b: &[u8], from: usize, to: usize) -> (r: Option<usize>)
    requires
        from <= to <= b@.len(),
    ensures
        ({
            let s = b@.subrange(from as int, to as int);
            match r {
                Some(v) => numeric(s) && field_value(s) == v,
                None => !(numeric(s) && field_value(s) <= usize::MAX),
            }
        }),
{
    let start = if from < to && b[from] == 43 {
        from + 1
    } else {
        from
    };
    let r = parse_digits(b, start, to);
    proof {
        let s = b@.subrange(from as int, to as int);
        assert(field_digits(s) =~= b@.subrange(start as int, to as int));
    }
    r
}

/// Parses an image size given as `"WIDTHxHEIGHT"`: two decimal fields
/// around the first `'x'`, each an optional plus sign followed by one or
/// more digits and fitting in `usize`. Returns `None` on every other
/// input.
pub fn parse_size(s: &str) -> (r: Option<(usize, usize)>)
    ensures
        match r {
            Some(p) => spec_size(s.spec_bytes(), p.0, p.1),
            None => forall|w: usize, h: usize| !spec_size(s.spec_bytes(), w, h),
        },
{
    let b = s.as_bytes();
    let n = b.len();
    let sep = find_separator(b);
    match sep {
        None => {
            proof {
                assert forall|w: usize, h: usize| !spec_size(b@, w, h) by {
                    if spec_size(b@, w, h) {
                        let i = choose|i: int| first_separator(b@, i);
                        assert(b@[i] != 120);
                    }
                }
            }
            None
        },
        Some(i) => {
            let head = parse_usize(b, 0, i);
            match head {
                None => {
                    proof {
                        lemma_no_size_when_field_bad(b@, i as int, true);
                    }
                    None
                },
                Some(w) => {
                    let tail = parse_usize(b, i + 1, n);
                    match tail {
                        None => {
                            proof {
                                lemma_no_size_when_field_bad(b@, i as int, false);
                            }
                            None
                        },
                        Some(h) => Some((w, h)),
                    }
                },
            }
        },
    }
}

/// If the field on the named side of the first separator is not a usable
/// decimal field, no values at all satisfy the size format.
proof fn lemma_no_size_when_field_bad(bs: Seq<u8>, i: int, head_bad: bool)
    requires
        first_separator(bs, i),
        head_bad ==> !(numeric(bs.subrange(0, i)) && field_value(bs.subrange(0, i))
            <= usize::MAX),
        !head_bad ==> !(numeric(bs.subrange(i + 1, bs.len() as int)) && field_value(
            bs.subrange(i + 1, bs.len() as int),
        ) <= usize::MAX),
    ensures
        forall|w: usize, h: usize| !spec_size(bs, w, h),
{
    assert forall|w: usize, h: usize| !spec_size(bs, w, h) by {
        if spec_size(bs, w, h) {
            let i2 = choose|i2: int|
                {
                    &&& #[trigger] first_separator(bs, i2)
                    &&& numeric(bs.subrange(0, i2))
                    &&& field_value(bs.subrange(0, i2)) == w
                    &&& numeric(bs.subrange(i2 + 1, bs.len() as int))
                    &&& field_value(bs.subrange(i2 + 1, bs.len() as int)) == h
                };
            lemma_first_separator_unique(bs, i, i2);
        }
    }
}

} // verus!
