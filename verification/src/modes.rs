//! Parsing of the octal permission-mode argument.
//!
//! The accepted strings are exactly those `u32::from_str_radix(s, 8)`
//! accepts: an optional leading `+`, then at least one digit `0`..`7`, with
//! a value that fits in 32 bits.

use vstd::prelude::*;
use vstd::string::StrSliceExecFns;

use crate::errors::WriteError;

verus! {

pub open spec fn is_octal_digit(c: char) -> bool {
    '0' <= c && c <= '7'
}

/// The digit part of a mode string: everything after an optional leading `+`.
pub open spec fn octal_digits(s: Seq<char>) -> Seq<char> {
    if s.len() > 0 && s[0] == '+' {
        s.drop_first()
    } else {
        s
    }
}

pub open spec fn all_octal_digits(s: Seq<char>) -> bool {
    forall|i: int| 0 <= i < s.len() ==> is_octal_digit(#[trigger] s[i])
}

/// The value of a string of octal digits, most significant first.
pub open spec fn octal_value(s: Seq<char>) -> int
    decreases s.len(),
{
    if s.len() == 0 {
        0
    } else {
        octal_value(s.drop_last()) * 8 + (s.last() as int - '0' as int)
    }
}

/// A mode string is valid when its digit part is nonempty, all octal, and
/// its value fits in a `u32`.
pub open spec fn is_valid_mode(s: Seq<char>) -> bool {
    &&& octal_digits(s).len() > 0
    &&& all_octal_digits(octal_digits(s))
    &&& octal_value(octal_digits(s)) <= u32::MAX
}

proof fn lemma_octal_value_nonneg(s: Seq<char>)
    requires
        all_octal_digits(s),
    ensures
        octal_value(s) >= 0,
    decreases s.len(),
{
    if s.len() > 0 {
        assert(all_octal_digits(s.drop_last())) by {
            assert(forall|i: int| 0 <= i < s.len() - 1 ==> s.drop_last()[i] == s[i]);
        }
        lemma_octal_value_nonneg(s.drop_last());
    }
}

/// Extending a digit string can only grow its value.
proof fn lemma_octal_value_monotone(s: Seq<char>, n: int)
    requires
        all_octal_digits(s),
        0 <= n <= s.len(),
    ensures
        octal_value(s.subrange(0, n)) <= octal_value(s),
    decreases s.len() - n,
{
    if n == s.len() {
        assert(s.subrange(0, n) =~= s);
    } else {
        lemma_octal_value_monotone(s, n + 1);
        let t = s.subrange(0, n + 1);
        assert(t.drop_last() =~= s.subrange(0, n));
        assert(all_octal_digits(t.drop_last())) by {
            assert(forall|i: int| 0 <= i < n ==> s.subrange(0, n)[i] == s[i]);
        }
        lemma_octal_value_nonneg(t.drop_last());
        assert(octal_value(t) == octal_value(t.drop_last()) * 8 + (t.last() as int - '0' as int));
        assert(is_octal_digit(t.last()));
        assert(octal_value(t.drop_last()) <= octal_value(t));
    }
}

/// Parses a mode string exactly as a radix-8 `u32` reader does: an
/// optional leading `+`, then octal digits; fails on an empty digit part,
/// a non-octal character, or a value that overflows 32 bits.
pub fn parse_mode(s: &str) -> (r: Result<u32, WriteError>)
    ensures
        r is Ok <==> is_valid_mode(s@),
        r is Ok ==> r->Ok_0 == octal_value(octal_digits(s@)),
        r is Err ==> r->Err_0 == WriteError::InvalidMode,
{
    let n = s.unicode_len();
    let digits: &str = if n > 0 && s.get_char(0) == '+' {
        s.substring_char(1, n)
    } else {
        s.substring_char(0, n)
    };
    proof {
        assert(digits@ =~= octal_digits(s@));
    }
    let dn = digits.unicode_len();
    if dn == 0 {
        return Err(WriteError::InvalidMode);
    }
    let mut acc: u32 = 0;
    let mut i: usize = 0;
    while i < dn
        invariant
            dn == digits@.len(),
            0 <= i <= dn,
            digits@ == octal_digits(s@),
            all_octal_digits(digits@.subrange(0, i as int)),
            acc == octal_value(digits@.subrange(0, i as int)),
        decreases dn - i,
    {
        let c = digits.get_char(i);
        if c < '0' || c > '7' {
            proof {
                assert(!is_octal_digit(digits@[i as int]));
            }
            return Err(WriteError::InvalidMode);
        }
        let d: u32 = (c as u32) - ('0' as u32);
        if acc > 0x1FFF_FFFFu32 {
            proof {
                let p = digits@.subrange(0, i as int + 1);
                assert(p.drop_last() =~= digits@.subrange(0, i as int));
                assert(all_octal_digits(p)) by {
                    assert(forall|k: int| 0 <= k < i ==> p[k] == digits@.subrange(0, i as int)[k]);
                }
                assert(p.last() == digits@[i as int]);
                assert(octal_value(p) > u32::MAX);
                if all_octal_digits(digits@) {
                    lemma_octal_value_monotone(digits@, i as int + 1);
                }
                assert(!is_valid_mode(s@));
            }
            return Err(WriteError::InvalidMode);
        }
        proof {
            let p = digits@.subrange(0, i as int + 1);
            assert(p.drop_last() =~= digits@.subrange(0, i as int));
            assert(p.last() == digits@[i as int]);
        }
        acc = acc * 8 + d;
        i = i + 1;
    }
    proof {
        assert(digits@.subrange(0, dn as int) =~= digits@);
    }
    Ok(acc)
}

} // verus!
