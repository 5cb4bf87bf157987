//! Decimal integer literals.

use vstd::prelude::*;
use vstd::string::*;
use crate::error::IntErrorKind;

verus! {

/// Whether `c` is one of the ten ASCII decimal digits.
pub open spec fn is_digit(c: char) -> bool {
    48 <= c as u32 <= 57
}

/// The number that the decimal digit `c` stands for.
pub open spec fn digit_value(c: char) -> nat
    recommends
        is_digit(c),
{
    (c as u32 - 48) as nat
}

/// Reads `s` as a run of decimal digits from the left, most significant first,
/// and stops at the first character that is no digit or that takes the number
/// to `limit` or beyond. The empty run reads as zero.
pub open spec fn read_digits(s: Seq<char>, limit: nat) -> Result<nat, IntErrorKind>
    decreases s.len(),
{
    if s.len() == 0 {
        Ok(0)
    } else {
        match read_digits(s.drop_last(), limit) {
            Err(e) => Err(e),
            Ok(v) => if !is_digit(s.last()) {
                Err(IntErrorKind::InvalidDigit)
            } else if v * 10 + digit_value(s.last()) >= limit {
                Err(IntErrorKind::PosOverflow)
            } else {
                Ok(v * 10 + digit_value(s.last()))
            },
        }
    }
}

/// An unsigned literal below `limit`: one or more decimal digits.
pub open spec fn unsigned_literal(s: Seq<char>, limit: nat) -> Result<nat, IntErrorKind> {
    if s.len() == 0 {
        Err(IntErrorKind::Empty)
    } else {
        read_digits(s, limit)
    }
}

/// A literal of a byte-sized number: an optional `+`, then one or more decimal
/// digits, below 256.
pub open spec fn u8_literal(s: Seq<char>) -> Result<nat, IntErrorKind> {
    if s.len() == 0 {
        Err(IntErrorKind::Empty)
    } else if s[0] == '+' {
        if s.len() == 1 {
            Err(IntErrorKind::InvalidDigit)
        } else {
            read_digits(s.skip(1), 256)
        }
    } else {
        read_digits(s, 256)
    }
}

/// A failure within the first `k` characters is the failure of the whole run.
pub proof fn lemma_read_digits_prefix_error(s: Seq<char>, k: int, limit: nat)
    requires
        0 <= k <= s.len(),
        read_digits(s.take(k), limit) is Err,
    ensures
        read_digits(s, limit) == read_digits(s.take(k), limit),
    decreases s.len() - k,
{
    if k == s.len() {
        assert(s.take(k) =~= s);
    } else {
        assert(s.drop_last().take(k) =~= s.take(k));
        lemma_read_digits_prefix_error(s.drop_last(), k, limit);
    }
}

/// The number that a run of decimal digits writes, most significant digit
/// first.
pub open spec fn decimal_value(s: Seq<char>) -> nat
    decreases s.len(),
{
    if s.len() == 0 {
        0
    } else {
        decimal_value(s.drop_last()) * 10 + digit_value(s.last())
    }
}

/// Whether every character of `s` is a decimal digit.
pub open spec fn all_digits(s: Seq<char>) -> bool {
    forall|i: int| 0 <= i < s.len() ==> is_digit(#[trigger] s[i])
}

/// A run reads as a number exactly when it holds digits only and the number
/// they write lies below the limit, and it reads as that number.
pub proof fn lemma_read_digits_value(s: Seq<char>, limit: nat)
    ensures
        read_digits(s, limit) is Ok <==> all_digits(s) && (s.len() > 0 ==> decimal_value(s)
            < limit),
        read_digits(s, limit) matches Ok(v) ==> v == decimal_value(s),
    decreases s.len(),
{
    if s.len() > 0 {
        let front = s.drop_last();
        lemma_read_digits_value(front, limit);
        if all_digits(s) {
            assert forall|i: int| 0 <= i < front.len() implies is_digit(#[trigger] front[i]) by {
                assert(front[i] == s[i]);
            }
            assert(is_digit(s[s.len() - 1]));
        }
        if read_digits(s, limit) is Ok {
            assert forall|i: int| 0 <= i < s.len() implies is_digit(#[trigger] s[i]) by {
                if i < s.len() - 1 {
                    assert(front[i] == s[i]);
                }
            }
        }
    }
}

/// Reads the characters of `s` from position `from` on as decimal digits of a
/// number below `limit`.
pub fn read_digits_below(s: &str, from: usize, limit: u128) -> (r: Result<u128, IntErrorKind>)
    requires
        from <= s@.len(),
        limit <= 0x1_0000_0000_0000_0000,
    ensures
        match r {
            Ok(v) => read_digits(s@.skip(from as int), limit as nat) == Ok::<nat, IntErrorKind>(
                v as nat,
            ),
            Err(e) => read_digits(s@.skip(from as int), limit as nat) == Err::<nat, IntErrorKind>(
                e,
            ),
        },
{
    let n = s.unicode_len();
    let ghost tail = s@.skip(from as int);
    let mut acc: u128 = 0;
    let mut i: usize = from;
    proof {
        assert(tail.take(0) =~= Seq::<char>::empty());
    }
    while i < n
        invariant
            from <= i <= n,
            n == s@.len(),
            limit <= 0x1_0000_0000_0000_0000,
            tail == s@.skip(from as int),
            acc < limit || i == from,
            acc == 0 || i > from,
            read_digits(tail.take(i - from), limit as nat) == Ok::<nat, IntErrorKind>(acc as nat),
        decreases n - i,
    {
        let c = s.get_char(i);
        let code: u32 = c as u32;
        proof {
            assert(tail.take(i - from + 1).drop_last() =~= tail.take(i - from));
            assert(tail.take(i - from + 1).last() == c);
        }
        if code < 48 || code > 57 {
            proof {
                lemma_read_digits_prefix_error(tail, i - from + 1, limit as nat);
            }
            return Err(IntErrorKind::InvalidDigit);
        }
        let d: u128 = (code - 48) as u128;
        let next: u128 = acc * 10 + d;
        if next >= limit {
            proof {
                lemma_read_digits_prefix_error(tail, i - from + 1, limit as nat);
            }
            return Err(IntErrorKind::PosOverflow);
        }
        acc = next;
        i = i + 1;
    }
    proof {
        assert(tail.take(i - from) =~= tail);
    }
    Ok(acc)
}

/// A literal of a number of seconds: one or more decimal digits, below
/// `2^64`.
pub open spec fn u64_literal(s: Seq<char>) -> Result<nat, IntErrorKind> {
    unsigned_literal(s, 0x1_0000_0000_0000_0000)
}

/// Parses a number below `2^64` written as one or more decimal digits.
pub fn parse_u64(s: &str) -> (r: Result<u64, IntErrorKind>)
    ensures
        match r {
            Ok(v) => u64_literal(s@) == Ok::<nat, IntErrorKind>(v as nat),
            Err(e) => u64_literal(s@) == Err::<nat, IntErrorKind>(e),
        },
{
    if s.unicode_len() == 0 {
        return Err(IntErrorKind::Empty);
    }
    proof {
        assert(s@.skip(0) =~= s@);
    }
    match read_digits_below(s, 0, 0x1_0000_0000_0000_0000) {
        Ok(v) => Ok(v as u64),
        Err(e) => Err(e),
    }
}

/// Parses a byte-sized number: an optional `+`, then decimal digits.
pub fn parse_u8(s: &str) -> (r: Result<u8, IntErrorKind>)
    ensures
        match r {
            Ok(v) => u8_literal(s@) == Ok::<nat, IntErrorKind>(v as nat),
            Err(e) => u8_literal(s@) == Err::<nat, IntErrorKind>(e),
        },
{
    let n = s.unicode_len();
    if n == 0 {
        return Err(IntErrorKind::Empty);
    }
    if s.get_char(0) == '+' {
        if n == 1 {
            return Err(IntErrorKind::InvalidDigit);
        }
        match read_digits_below(s, 1, 256) {
            Ok(v) => Ok(v as u8),
            Err(e) => Err(e),
        }
    } else {
        proof {
            assert(s@.skip(0) =~= s@);
        }
        match read_digits_below(s, 0, 256) {
            Ok(v) => Ok(v as u8),
            Err(e) => Err(e),
        }
    }
}

} // verus!
