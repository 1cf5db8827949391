use vstd::prelude::*;
use vstd::string::StrSliceExecFns;

verus! {

/// A decimal digit.
pub open spec fn is_digit_char(c: char) -> bool {
    '0' <= c && c <= '9'
}

/// Every character of `s` is a decimal digit.
pub open spec fn all_digits(s: Seq<char>) -> bool {
    forall|i: int| 0 <= i < s.len() ==> is_digit_char(#[trigger] s[i])
}

/// `u` splits at position `k` into digits, a decimal point, and digits.
pub open spec fn dot_split_at(u: Seq<char>, k: int) -> bool {
    0 <= k < u.len() && u[k] == '.' && all_digits(u.take(k)) && all_digits(u.skip(k + 1))
}

/// An unsigned decimal numeral: digits, with at most one decimal point and at
/// least one other character beside it.
pub open spec fn body_is_lit(u: Seq<char>) -> bool {
    (u.len() > 0 && all_digits(u)) || (u.len() > 1 && exists|k: int| dot_split_at(u, k))
}

/// A plain decimal numeral, optionally signed, with an optional fractional
/// part. Such a text is stored as a literal term and never routed through the
/// general expression grammar.
pub open spec fn is_lit(s: Seq<char>) -> bool {
    if s.len() > 0 && (s[0] == '-' || s[0] == '+') {
        body_is_lit(s.drop_first())
    } else {
        body_is_lit(s)
    }
}

proof fn lemma_bad_char(u: Seq<char>, j: int)
    requires
        0 <= j < u.len(),
        !is_digit_char(u[j]),
        u[j] != '.',
    ensures
        !body_is_lit(u),
{
    assert(!all_digits(u));
    assert forall|k: int| !dot_split_at(u, k) by {
        if 0 <= k < u.len() && u[k] == '.' {
            if j < k {
                assert(u.take(k)[j] == u[j]);
                assert(!all_digits(u.take(k)));
            } else if j > k {
                assert(u.skip(k + 1)[j - k - 1] == u[j]);
                assert(!all_digits(u.skip(k + 1)));
            }
        }
    }
}

proof fn lemma_two_dots(u: Seq<char>, j1: int, j2: int)
    requires
        0 <= j1 < j2 < u.len(),
        u[j1] == '.',
        u[j2] == '.',
    ensures
        !body_is_lit(u),
{
    assert(!is_digit_char(u[j1]));
    assert(!all_digits(u));
    assert forall|k: int| !dot_split_at(u, k) by {
        if 0 <= k < u.len() && u[k] == '.' {
            if j1 < k {
                assert(u.take(k)[j1] == u[j1]);
                assert(!all_digits(u.take(k)));
            } else {
                assert(u.skip(k + 1)[j2 - k - 1] == u[j2]);
                assert(!all_digits(u.skip(k + 1)));
            }
        }
    }
}

/// Decides whether a numeric field's text is a plain decimal literal, the
/// fast path that bypasses the general expression grammar.
pub fn check_literal(s: &str) -> (r: bool)
    ensures
        r == is_lit(s@),
{
    let n = s.unicode_len();
    let mut start: usize = 0;
    if n > 0 {
        let c0 = s.get_char(0);
        if c0 == '-' || c0 == '+' {
            start = 1;
        }
    }
    let ghost u: Seq<char> = s@.skip(start as int);
    proof {
        if start == 1 {
            assert(s@.drop_first() =~= u);
        } else {
            assert(s@.skip(0) =~= s@);
        }
        assert(is_lit(s@) == body_is_lit(u));
    }
    if n == start {
        return false;
    }
    let mut dot: Option<usize> = None;
    let mut i: usize = start;
    while i < n
        invariant
            n == s@.len(),
            start <= i <= n,
            start <= 1,
            u == s@.skip(start as int),
            is_lit(s@) == body_is_lit(u),
            match dot {
                Some(d) => start <= d < i && s@[d as int] == '.' && forall|j: int|
                    start <= j < i && j != d ==> is_digit_char(#[trigger] s@[j]),
                None => forall|j: int| start <= j < i ==> is_digit_char(#[trigger] s@[j]),
            },
        decreases n - i,
    {
        let c = s.get_char(i);
        if '0' <= c && c <= '9' {
        } else if c == '.' {
            match dot {
                None => {
                    dot = Some(i);
                },
                Some(d) => {
                    proof {
                        assert(u[d - start] == s@[d as int]);
                        assert(u[i - start] == s@[i as int]);
                        lemma_two_dots(u, d - start, i - start);
                    }
                    return false;
                },
            }
        } else {
            proof {
                assert(u[i - start] == s@[i as int]);
                lemma_bad_char(u, i - start);
            }
            return false;
        }
        i += 1;
    }
    match dot {
        None => {
            proof {
                assert forall|j: int| 0 <= j < u.len() implies is_digit_char(u[j]) by {
                    assert(u[j] == s@[start + j]);
                }
            }
            true
        },
        Some(d) => {
            if n - start >= 2 {
                proof {
                    let k = d - start;
                    assert(u[k] == s@[d as int]);
                    assert forall|j: int| 0 <= j < u.take(k).len() implies is_digit_char(
                        u.take(k)[j],
                    ) by {
                        assert(u.take(k)[j] == u[j]);
                        assert(u[j] == s@[start + j]);
                    }
                    assert forall|j: int| 0 <= j < u.skip(k + 1).len() implies is_digit_char(
                        #[trigger] u.skip(k + 1)[j],
                    ) by {
                        assert(u.skip(k + 1)[j] == u[k + 1 + j]);
                        assert(u[k + 1 + j] == s@[start + k + 1 + j]);
                        assert(start + k + 1 + j != d);
                    }
                    assert(dot_split_at(u, k));
                }
                true
            } else {
                proof {
                    assert(u.len() == 1);
                    assert(u[0] == s@[d as int]);
                    assert(!is_digit_char(u[0]));
                    assert(!all_digits(u));
                    assert(!body_is_lit(u));
                }
                false
            }
        },
    }
}

/// The bit pattern of the value a decimal literal denotes.
pub uninterp spec fn lit_bits_of(s: Seq<char>) -> u64;

/// Relies on `fasteval::ez_eval`: on a plain decimal numeral it returns that
/// numeral's value (fasteval reads constants with Rust's standard float
/// parsing), so the result depends on the characters alone; the value is
/// handed back as its bit pattern. A numeral beyond fasteval's length limit
/// falls back to a fixed pattern, equally a function of the text.
#[verifier::external_body]
pub(crate) fn parse_literal_bits(s: &str) -> (r: u64)
    requires
        is_lit(s@),
    ensures
        r == lit_bits_of(s@),
{
    match fasteval::ez_eval(s, &mut fasteval::EmptyNamespace) {
        Ok(v) => v.to_bits(),
        Err(_) => 0,
    }
}

} // verus!
