//! Lexical layer of the wire codec: byte classes, whitespace skipping, the
//! JSON number grammar, exact keyword matching, and the numeric value of a
//! run of decimal digits.  Every scanner has a spec-level twin that the
//! executable version is proved to compute, so the whole codec is a function
//! of the input bytes alone.

use vstd::prelude::*;

verus! {

/// JSON insignificant whitespace: space, tab, line feed, carriage return.
pub open spec fn is_ws(b: u8) -> bool {
    b == 32 || b == 9 || b == 10 || b == 13
}

/// An ASCII decimal digit.
pub open spec fn is_digit(b: u8) -> bool {
    48 <= b && b <= 57
}

/// Exec twin of `is_ws`.
#[verifier::when_used_as_spec(is_ws)]
pub fn is_ws_byte(b: u8) -> (r: bool)
    ensures
        r == is_ws(b),
{
    b == 32 || b == 9 || b == 10 || b == 13
}

/// Exec twin of `is_digit`.
#[verifier::when_used_as_spec(is_digit)]
pub fn is_digit_byte(b: u8) -> (r: bool)
    ensures
        r == is_digit(b),
{
    48 <= b && b <= 57
}

/// The first index at or after `i` that does not hold whitespace.
pub open spec fn skip_ws(s: Seq<u8>, i: int) -> int
    decreases s.len() - i,
{
    if 0 <= i < s.len() && is_ws(s[i]) {
        skip_ws(s, i + 1)
    } else {
        i
    }
}

pub proof fn lemma_skip_ws_bounds(s: Seq<u8>, i: int)
    requires
        0 <= i <= s.len(),
    ensures
        i <= skip_ws(s, i) <= s.len(),
    decreases s.len() - i,
{
    if i < s.len() && is_ws(s[i]) {
        lemma_skip_ws_bounds(s, i + 1);
    }
}

/// Advances past whitespace, computing exactly `skip_ws`.
pub fn skip_ws_exec(s: &[u8], i: usize) -> (r: usize)
    requires
        i <= s@.len(),
    ensures
        r == skip_ws(s@, i as int),
        i <= r <= s@.len(),
{
    let mut j: usize = i;
    while j < s.len() && is_ws_byte(s[j])
        invariant
            i <= j <= s@.len(),
            skip_ws(s@, i as int) == skip_ws(s@, j as int),
        decreases s@.len() - j,
    {
        j = j + 1;
    }
    proof {
        assert(skip_ws(s@, j as int) == j);
    }
    j
}

/// The first index at or after `i` that does not hold a digit.
pub open spec fn digits_end(s: Seq<u8>, i: int) -> int
    decreases s.len() - i,
{
    if 0 <= i < s.len() && is_digit(s[i]) {
        digits_end(s, i + 1)
    } else {
        i
    }
}

pub proof fn lemma_digits_end_bounds(s: Seq<u8>, i: int)
    requires
        0 <= i <= s.len(),
    ensures
        i <= digits_end(s, i) <= s.len(),
        forall|m: int| i <= m < digits_end(s, i) ==> is_digit(s[m]),
    decreases s.len() - i,
{
    if i < s.len() && is_digit(s[i]) {
        lemma_digits_end_bounds(s, i + 1);
    }
}

/// Advances past digits, computing exactly `digits_end`.
pub fn digits_end_exec(s: &[u8], i: usize) -> (r: usize)
    requires
        i <= s@.len(),
    ensures
        r == digits_end(s@, i as int),
        i <= r <= s@.len(),
{
    let mut j: usize = i;
    while j < s.len() && is_digit_byte(s[j])
        invariant
            i <= j <= s@.len(),
            digits_end(s@, i as int) == digits_end(s@, j as int),
        decreases s@.len() - j,
    {
        j = j + 1;
    }
    proof {
        assert(digits_end(s@, j as int) == j);
    }
    j
}

/// End of a JSON unsigned-integer token starting at `i`: a single `0`, or a
/// nonzero digit followed by any digits.  `None` when no such token starts
/// there (leading zeros are not accepted by the grammar; a longer token
/// beginning with `0` simply ends after it and the surplus digit trips the
/// caller's next expectation).
pub open spec fn scan_uint(s: Seq<u8>, i: int) -> Option<int> {
    if i < s.len() && s[i] == 48 {
        Some(i + 1)
    } else if i < s.len() && is_digit(s[i]) {
        Some(digits_end(s, i))
    } else {
        None
    }
}

/// End of an optional fraction part at `i`: a `.` must be followed by at
/// least one digit; absent a `.`, the fraction is empty and `i` is returned.
pub open spec fn scan_frac(s: Seq<u8>, i: int) -> Option<int> {
    if i < s.len() && s[i] == 46 {
        if i + 1 < s.len() && is_digit(s[i + 1]) {
            Some(digits_end(s, i + 1))
        } else {
            None
        }
    } else {
        Some(i)
    }
}

/// End of an optional exponent part at `i`: `e` or `E`, an optional sign,
/// then at least one digit; absent the marker, `i` is returned.
pub open spec fn scan_exp(s: Seq<u8>, i: int) -> Option<int> {
    if i < s.len() && (s[i] == 101 || s[i] == 69) {
        let j = if i + 1 < s.len() && (s[i + 1] == 43 || s[i + 1] == 45) {
            i + 2
        } else {
            i + 1
        };
        if j < s.len() && is_digit(s[j]) {
            Some(digits_end(s, j))
        } else {
            None
        }
    } else {
        Some(i)
    }
}

/// End of a full JSON number token starting at `i`: optional minus sign,
/// integer part, optional fraction, optional exponent.
pub open spec fn scan_number(s: Seq<u8>, i: int) -> Option<int> {
    let j = if i < s.len() && s[i] == 45 {
        i + 1
    } else {
        i
    };
    match scan_uint(s, j) {
        None => None,
        Some(k) => match scan_frac(s, k) {
            None => None,
            Some(m) => scan_exp(s, m),
        },
    }
}

/// A byte sequence is one whole number token exactly when the token starts
/// at its beginning and ends at its end.
pub open spec fn is_number_token(t: Seq<u8>) -> bool {
    scan_number(t, 0) == Some(t.len() as int)
}

pub proof fn lemma_scan_number_bounds(s: Seq<u8>, i: int)
    requires
        0 <= i <= s.len(),
        scan_number(s, i) is Some,
    ensures
        i < scan_number(s, i)->Some_0 <= s.len(),
{
    let j = if i < s.len() && s[i] == 45 {
        i + 1
    } else {
        i
    };
    assert(scan_uint(s, j) is Some);
    let k = scan_uint(s, j)->Some_0;
    lemma_digits_end_bounds(s, j);
    if j < s.len() && s[j] == 48 {
    } else {
        assert(digits_end(s, j) == digits_end(s, j + 1));
        lemma_digits_end_bounds(s, j + 1);
    }
    assert(j < k <= s.len());
    assert(scan_frac(s, k) is Some);
    let m = scan_frac(s, k)->Some_0;
    if k < s.len() && s[k] == 46 {
        lemma_digits_end_bounds(s, k + 1);
    }
    assert(k <= m <= s.len());
    let r = scan_number(s, i)->Some_0;
    if m < s.len() && (s[m] == 101 || s[m] == 69) {
        let p = if m + 1 < s.len() && (s[m + 1] == 43 || s[m + 1] == 45) {
            m + 2
        } else {
            m + 1
        };
        lemma_digits_end_bounds(s, p);
    }
    assert(m <= r <= s.len());
}

/// Scans one number token, computing exactly `scan_number`.
pub fn scan_number_exec(s: &[u8], i: usize) -> (r: Option<usize>)
    requires
        i <= s@.len(),
    ensures
        match r {
            Some(k) => scan_number(s@, i as int) == Some(k as int) && i < k <= s@.len(),
            None => scan_number(s@, i as int) is None,
        },
{
    proof {
        if scan_number(s@, i as int) is Some {
            lemma_scan_number_bounds(s@, i as int);
        }
    }
    let j: usize = if i < s.len() && s[i] == 45 {
        i + 1
    } else {
        i
    };
    // integer part
    let k: usize = if j < s.len() && s[j] == 48 {
        j + 1
    } else if j < s.len() && is_digit_byte(s[j]) {
        digits_end_exec(s, j)
    } else {
        return None;
    };
    // fraction part
    let m: usize = if k < s.len() && s[k] == 46 {
        if k + 1 < s.len() && is_digit_byte(s[k + 1]) {
            digits_end_exec(s, k + 1)
        } else {
            return None;
        }
    } else {
        k
    };
    // exponent part
    if m < s.len() && (s[m] == 101 || s[m] == 69) {
        let p: usize = if m + 1 < s.len() && (s[m + 1] == 43 || s[m + 1] == 45) {
            m + 2
        } else {
            m + 1
        };
        if p < s.len() && is_digit_byte(s[p]) {
            Some(digits_end_exec(s, p))
        } else {
            None
        }
    } else {
        Some(m)
    }
}

/// A digit run confined to a window of `s` ends at the same place when the
/// window is cut out as its own sequence.
pub proof fn lemma_digits_end_subrange(s: Seq<u8>, a: int, b: int, i: int)
    requires
        0 <= a <= i <= b <= s.len(),
        digits_end(s, i) <= b,
    ensures
        digits_end(s.subrange(a, b), i - a) == digits_end(s, i) - a,
    decreases b - i,
{
    let t = s.subrange(a, b);
    if i < b && is_digit(s[i]) {
        assert(t[i - a] == s[i]);
        assert(digits_end(s, i) == digits_end(s, i + 1));
        lemma_digits_end_subrange(s, a, b, i + 1);
    } else if i == b {
        if i < s.len() && is_digit(s[i]) {
            assert(digits_end(s, i) == digits_end(s, i + 1));
            lemma_digits_end_bounds(s, i + 1);
            assert(false);
        }
        assert(digits_end(s, i) == i);
        assert(digits_end(t, i - a) == i - a);
    } else {
        assert(t[i - a] == s[i]);
        assert(digits_end(s, i) == i);
        assert(digits_end(t, i - a) == i - a);
    }
}

/// The span a successful number scan covers is, on its own, one whole
/// number token: cutting it out of the surrounding bytes scans to its own
/// end.  The token therefore stays meaningful after it leaves the payload
/// it was found in.
pub proof fn lemma_scan_number_token(s: Seq<u8>, i: int, k: int)
    requires
        0 <= i <= s.len(),
        scan_number(s, i) == Some(k),
    ensures
        is_number_token(s.subrange(i, k)),
{
    lemma_scan_number_bounds(s, i);
    let t = s.subrange(i, k);
    let j = if i < s.len() && s[i] == 45 {
        i + 1
    } else {
        i
    };
    assert(scan_uint(s, j) is Some);
    let u = scan_uint(s, j)->Some_0;
    lemma_digits_end_bounds(s, j);
    assert(scan_frac(s, u) is Some);
    let m = scan_frac(s, u)->Some_0;
    if u < s.len() && s[u] == 46 {
        lemma_digits_end_bounds(s, u + 1);
    }
    assert(u <= m);
    if m < s.len() && (s[m] == 101 || s[m] == 69) {
        let p = if m + 1 < s.len() && (s[m + 1] == 43 || s[m + 1] == 45) {
            m + 2
        } else {
            m + 1
        };
        lemma_digits_end_bounds(s, p);
    }
    assert(m <= k);
    assert(j <= u <= m <= k <= s.len());
    // the sign
    let jt = if 0 < t.len() && t[0] == 45 {
        1int
    } else {
        0int
    };
    assert(t[0] == s[i]);
    assert(jt == j - i);
    // the integer part
    if j < s.len() && s[j] == 48 {
        assert(u == j + 1);
        assert(t[j - i] == s[j]);
        assert(scan_uint(t, j - i) == Some(u - i));
    } else {
        assert(is_digit(s[j]));
        assert(u == digits_end(s, j));
        assert(digits_end(s, j) >= j + 1) by {
            assert(digits_end(s, j) == digits_end(s, j + 1));
            lemma_digits_end_bounds(s, j + 1);
        }
        lemma_digits_end_subrange(s, i, k, j);
        assert(t[j - i] == s[j]);
        assert(scan_uint(t, j - i) == Some(u - i));
    }
    // the fraction part
    if u == k {
        assert(scan_frac(t, u - i) == Some(u - i));
        assert(m == u);
    } else {
        assert(t[u - i] == s[u]);
        if s[u] == 46 {
            assert(u + 1 < s.len() && is_digit(s[u + 1]));
            assert(m == digits_end(s, u + 1));
            assert(m >= u + 2) by {
                assert(digits_end(s, u + 1) == digits_end(s, u + 2));
                lemma_digits_end_bounds(s, u + 2);
            }
            assert(t[u + 1 - i] == s[u + 1]);
            lemma_digits_end_subrange(s, i, k, u + 1);
            assert(scan_frac(t, u - i) == Some(m - i));
        } else {
            assert(m == u);
            assert(scan_frac(t, u - i) == Some(u - i));
        }
    }
    // the exponent part
    if m == k {
        assert(scan_exp(t, m - i) == Some(m - i));
    } else {
        assert(t[m - i] == s[m]);
        assert(s[m] == 101 || s[m] == 69);
        let p = if m + 1 < s.len() && (s[m + 1] == 43 || s[m + 1] == 45) {
            m + 2
        } else {
            m + 1
        };
        assert(p < s.len() && is_digit(s[p]));
        assert(k == digits_end(s, p));
        assert(k >= p + 1) by {
            assert(digits_end(s, p) == digits_end(s, p + 1));
            lemma_digits_end_bounds(s, p + 1);
        }
        assert(t[m + 1 - i] == s[m + 1]);
        let pt = if m + 1 - i < t.len() && (t[m + 1 - i] == 43 || t[m + 1 - i] == 45) {
            m + 2 - i
        } else {
            m + 1 - i
        };
        assert(pt == p - i);
        assert(t[p - i] == s[p]);
        lemma_digits_end_subrange(s, i, k, p);
        assert(scan_exp(t, m - i) == Some(k - i));
    }
    assert(scan_number(t, 0) == Some(t.len() as int));
}

/// Whether `pat` occurs in `s` exactly at index `i`.
pub open spec fn match_at(s: Seq<u8>, i: int, pat: Seq<u8>) -> bool {
    i + pat.len() <= s.len() && s.subrange(i, i + pat.len()) == pat
}

/// Compares a span of `s` against `pat`, computing exactly `match_at`.
pub fn match_at_exec(s: &[u8], i: usize, pat: &[u8]) -> (r: bool)
    requires
        i <= s@.len(),
    ensures
        r == match_at(s@, i as int, pat@),
{
    if s.len() - i < pat.len() {
        return false;
    }
    let mut j: usize = 0;
    while j < pat.len()
        invariant
            0 <= j <= pat@.len(),
            i + pat@.len() <= s@.len() <= usize::MAX,
            forall|m: int| 0 <= m < j ==> s@[i + m] == pat@[m],
        decreases pat@.len() - j,
    {
        proof {
            assert(i + j < s@.len());
        }
        if s[i + j] != pat[j] {
            proof {
                assert(s@.subrange(i as int, i + pat@.len())[j as int] != pat@[j as int]);
            }
            return false;
        }
        j = j + 1;
    }
    proof {
        assert(s@.subrange(i as int, i + pat@.len()) =~= pat@);
    }
    true
}

/// The value of the decimal digit run `s[i..j]`, most significant first.
pub open spec fn digits_val(s: Seq<u8>, i: int, j: int) -> int
    decreases j - i,
{
    if i >= j {
        0
    } else {
        digits_val(s, i, j - 1) * 10 + (s[j - 1] - 48)
    }
}

pub proof fn lemma_digits_val_nonneg(s: Seq<u8>, i: int, j: int)
    requires
        0 <= i <= j <= s.len(),
        forall|m: int| i <= m < j ==> is_digit(#[trigger] s[m]),
    ensures
        digits_val(s, i, j) >= 0,
    decreases j - i,
{
    if i < j {
        lemma_digits_val_nonneg(s, i, j - 1);
        assert(digits_val(s, i, j - 1) * 10 >= 0) by (nonlinear_arith)
            requires
                digits_val(s, i, j - 1) >= 0,
        ;
    }
}

/// A digit run's value never shrinks as the run is extended to the right.
pub proof fn lemma_digits_val_monotone(s: Seq<u8>, i: int, j: int, k: int)
    requires
        0 <= i <= j <= k <= s.len(),
        forall|m: int| i <= m < k ==> is_digit(#[trigger] s[m]),
    ensures
        digits_val(s, i, j) <= digits_val(s, i, k),
    decreases k - j,
{
    if j < k {
        lemma_digits_val_monotone(s, i, j, k - 1);
        lemma_digits_val_nonneg(s, i, k - 1);
        assert(digits_val(s, i, k - 1) * 10 >= digits_val(s, i, k - 1)) by (nonlinear_arith)
            requires
                digits_val(s, i, k - 1) >= 0,
        ;
    }
}

/// Evaluates the digit run `s[i..j]` as an unsigned 128-bit integer;
/// `None` exactly when the value does not fit.
pub fn digits_val_exec(s: &[u8], i: usize, j: usize) -> (r: Option<u128>)
    requires
        i <= j <= s@.len(),
        forall|m: int| i <= m < j ==> is_digit(s@[m]),
    ensures
        match r {
            Some(v) => v as int == digits_val(s@, i as int, j as int),
            None => digits_val(s@, i as int, j as int) > u128::MAX,
        },
{
    let mut acc: u128 = 0;
    let mut k: usize = i;
    while k < j
        invariant
            i <= k <= j <= s@.len(),
            forall|m: int| i <= m < j ==> is_digit(s@[m]),
            acc as int == digits_val(s@, i as int, k as int),
        decreases j - k,
    {
        let d: u8 = s[k] - 48;
        if acc > u128::MAX / 10 {
            proof {
                assert(acc * 10 + (s@[k as int] - 48) > u128::MAX) by (nonlinear_arith)
                    requires
                        acc > u128::MAX / 10,
                        s@[k as int] >= 48,
                ;
                lemma_digits_val_monotone(s@, i as int, k + 1, j as int);
            }
            return None;
        }
        let shifted: u128 = acc * 10;
        if d as u128 > u128::MAX - shifted {
            proof {
                lemma_digits_val_monotone(s@, i as int, k + 1, j as int);
            }
            return None;
        }
        acc = shifted + d as u128;
        k = k + 1;
    }
    Some(acc)
}

} // verus!
