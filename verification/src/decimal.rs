//! Decimal numerals: what a run of digit bytes denotes, parsing the
//! decimal form of a 32-bit signed integer, and formatting an unsigned
//! value as digit bytes.

use crate::wire::digit_value;
use crate::wire::is_digit;
use vstd::prelude::*;

verus! {

/// Value of a run of decimal digit bytes, most significant first.
pub open spec fn digits_value(s: Seq<u8>) -> int
    decreases s.len(),
{
    if s.len() == 0 {
        0
    } else {
        digits_value(s.drop_last()) * 10 + digit_value(s.last())
    }
}

pub open spec fn all_digits(s: Seq<u8>) -> bool {
    forall|i: int| 0 <= i < s.len() ==> is_digit(#[trigger] s[i])
}

/// The decimal form of a 32-bit signed integer: an optional sign byte
/// (`+` or `-`), then at least one digit, and the signed value must fit.
pub open spec fn spec_parse_i32(s: Seq<u8>) -> Option<int> {
    let negative = s.len() > 0 && s[0] == 45;
    let body = if s.len() > 0 && (s[0] == 43 || s[0] == 45) {
        s.skip(1)
    } else {
        s
    };
    if body.len() == 0 || !all_digits(body) {
        None
    } else {
        let v = if negative {
            -digits_value(body)
        } else {
            digits_value(body)
        };
        if i32::MIN <= v <= i32::MAX {
            Some(v)
        } else {
            None
        }
    }
}

pub proof fn lemma_digits_value_nonneg(s: Seq<u8>)
    requires
        all_digits(s),
    ensures
        digits_value(s) >= 0,
    decreases s.len(),
{
    if s.len() > 0 {
        assert(all_digits(s.drop_last()));
        lemma_digits_value_nonneg(s.drop_last());
    }
}

/// Appending digits never shrinks the value.
pub proof fn lemma_digits_value_monotonic(s: Seq<u8>, j: int)
    requires
        all_digits(s),
        0 <= j <= s.len(),
    ensures
        digits_value(s.take(j)) <= digits_value(s),
    decreases s.len() - j,
{
    if j < s.len() {
        assert(all_digits(s.take(j)));
        lemma_digits_value_nonneg(s.take(j));
        assert(s.take(j + 1).drop_last() =~= s.take(j));
        assert(s.take(j + 1).last() == s[j]);
        lemma_digits_value_monotonic(s, j + 1);
    } else {
        assert(s.take(j) =~= s);
    }
}

/// Parse the decimal form of a 32-bit signed integer, exactly as
/// `spec_parse_i32` defines it.
pub fn parse_i32(s: &[u8]) -> (r: Option<i32>)
    ensures
        match r {
            Some(v) => spec_parse_i32(s@) == Some(v as int),
            None => spec_parse_i32(s@) is None,
        },
{
    let n = s.len();
    if n == 0 {
        return None;
    }
    let first = s[0];
    let negative = first == 45;
    let start: usize = if first == 43 || first == 45 {
        1
    } else {
        0
    };
    if start >= n {
        return None;
    }
    let ghost body = s@.skip(start as int);
    proof {
        if start == 0 {
            assert(body =~= s@);
        }
    }
    let mut acc: u64 = 0;
    let mut i: usize = start;
    while i < n
        invariant
            start <= i <= n,
            n == s@.len(),
            body == s@.skip(start as int),
            body == (if s@.len() > 0 && (s@[0] == 43 || s@[0] == 45) {
                s@.skip(1)
            } else {
                s@
            }),
            start < n,
            all_digits(body.take(i - start)),
            acc == digits_value(body.take(i - start)),
            acc <= 2147483648,
        decreases n - i,
    {
        let b = s[i];
        if b < 48 || b > 57 {
            assert(body[i - start] == s@[i as int]);
            assert(!is_digit(body[i - start]));
            assert(!all_digits(body));
            return None;
        }
        let d = (b - 48) as u64;
        proof {
            assert(body.take(i - start + 1).drop_last() =~= body.take(i - start));
            assert(body.take(i - start + 1).last() == s@[i as int]);
        }
        acc = acc * 10 + d;
        if acc > 2147483648 {
            proof {
                if all_digits(body) {
                    lemma_digits_value_monotonic(body, i - start + 1);
                }
            }
            return None;
        }
        i += 1;
    }
    proof {
        assert(body.take(n - start) =~= body);
    }
    if negative {
        Some((-(acc as i64)) as i32)
    } else {
        if acc == 2147483648 {
            None
        } else {
            Some(acc as i32)
        }
    }
}

/// Decimal digit bytes of `n`, most significant first.
pub open spec fn dec_digits(n: int) -> Seq<u8>
    recommends
        n >= 0,
    decreases n,
{
    if n < 10 {
        seq![(48 + n) as u8]
    } else {
        dec_digits(n / 10) + seq![(48 + n % 10) as u8]
    }
}

/// The digits of `s`, last first: the shape a division loop produces.
pub open spec fn rev_digits(s: Seq<u8>) -> Seq<u8>
    decreases s.len(),
{
    if s.len() == 0 {
        Seq::empty()
    } else {
        seq![s.last()] + rev_digits(s.drop_last())
    }
}

pub proof fn lemma_rev_digits_index(s: Seq<u8>)
    ensures
        rev_digits(s).len() == s.len(),
        forall|i: int| 0 <= i < s.len() ==> rev_digits(s)[i] == s[s.len() - 1 - i],
    decreases s.len(),
{
    if s.len() > 0 {
        lemma_rev_digits_index(s.drop_last());
    }
}

/// Format `val` as decimal digit bytes, exactly `dec_digits(val)`.
pub fn format_u64(val: u64) -> (r: Vec<u8>)
    ensures
        r@ == dec_digits(val as int),
{
    let mut rev: Vec<u8> = Vec::new();
    if val == 0 {
        rev.push(48);
        assert(rev@ =~= dec_digits(0));
        return rev;
    }
    let mut m: u64 = val;
    while m > 0
        invariant
            m > 0 ==> dec_digits(val as int) == dec_digits(m as int) + rev_digits(rev@),
            m == 0 ==> dec_digits(val as int) == rev_digits(rev@),
        decreases m,
    {
        let ghost rev0 = rev@;
        let ghost m0 = m as int;
        let d = (m % 10) as u8 + 48;
        rev.push(d);
        m = m / 10;
        proof {
            assert(rev@.last() == d);
            assert(rev@.drop_last() =~= rev0);
            assert(rev_digits(rev@) == seq![d] + rev_digits(rev0));
            if m0 < 10 {
                assert(dec_digits(m0) == seq![d]);
                assert(dec_digits(val as int) =~= rev_digits(rev@));
            } else {
                assert(dec_digits(m0) == dec_digits(m0 / 10) + seq![d]);
                assert(dec_digits(m0) + rev_digits(rev0) =~= dec_digits(m0 / 10) + (seq![d]
                    + rev_digits(rev0)));
            }
        }
    }
    let mut out: Vec<u8> = Vec::new();
    let mut j = rev.len();
    proof {
        lemma_rev_digits_index(rev@);
    }
    while j > 0
        invariant
            j <= rev@.len(),
            out@.len() == rev@.len() - j,
            forall|i: int| 0 <= i < out@.len() ==> out@[i] == rev@[rev@.len() - 1 - i],
        decreases j,
    {
        j = j - 1;
        let b = rev[j];
        out.push(b);
    }
    proof {
        lemma_rev_digits_index(rev@);
        assert(out@ =~= rev_digits(rev@));
    }
    out
}

} // verus!
