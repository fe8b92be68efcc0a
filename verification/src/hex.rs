//! Hexadecimal digits and numbers, as ASCII bytes.

use crate::error::DecodeError;
use vstd::prelude::*;

verus! {

/// `b` is the ASCII code of `0`..`9`, `A`..`F` or `a`..`f`.
pub open spec fn is_hex_digit(b: u8) -> bool {
    ||| 0x30 <= b <= 0x39
    ||| 0x41 <= b <= 0x46
    ||| 0x61 <= b <= 0x66
}

/// The number that the hexadecimal digit `b` stands for; 0 for any other byte.
pub open spec fn hex_digit_value(b: u8) -> nat {
    if 0x30 <= b <= 0x39 {
        (b - 0x30) as nat
    } else if 0x41 <= b <= 0x46 {
        (b - 0x41 + 10) as nat
    } else if 0x61 <= b <= 0x66 {
        (b - 0x61 + 10) as nat
    } else {
        0
    }
}

/// Every byte of `s` is a hexadecimal digit.
pub open spec fn all_hex(s: Seq<u8>) -> bool {
    forall|i: int| 0 <= i < s.len() ==> is_hex_digit(#[trigger] s[i])
}

/// The number written by the digits `s`, most significant digit first.
pub open spec fn hex_value(s: Seq<u8>) -> nat
    decreases s.len(),
{
    if s.len() == 0 {
        0
    } else {
        16 * hex_value(s.drop_last()) + hex_digit_value(s.last())
    }
}

/// 16 to the power `n`: one more than the largest number of `n` digits.
pub open spec fn hex_limit(n: nat) -> nat
    decreases n,
{
    if n == 0 {
        1
    } else {
        16 * hex_limit((n - 1) as nat)
    }
}

/// What a field of hexadecimal digits parses to: its value, where the field
/// is not empty, holds digits only and the value fits in 32 bits.
pub open spec fn parse_hex_spec(s: Seq<u8>) -> Result<u32, DecodeError> {
    if s.len() > 0 && all_hex(s) && hex_value(s) <= u32::MAX {
        Ok(hex_value(s) as u32)
    } else {
        Err(DecodeError::Format)
    }
}

/// A number of `n` digits is below 16 to the power `n`.
pub proof fn lemma_hex_value_bound(s: Seq<u8>)
    ensures
        hex_value(s) < hex_limit(s.len()),
    decreases s.len(),
{
    if s.len() > 0 {
        lemma_hex_value_bound(s.drop_last());
    }
}

/// The digits read so far never stand for more than the whole field does.
pub proof fn lemma_hex_value_prefix(s: Seq<u8>, k: int)
    requires
        0 <= k <= s.len(),
    ensures
        hex_value(s.take(k)) <= hex_value(s),
    decreases s.len() - k,
{
    if k == s.len() {
        assert(s.take(k) =~= s);
    } else {
        assert(s.drop_last().take(k) =~= s.take(k));
        lemma_hex_value_prefix(s.drop_last(), k);
    }
}

/// Any stretch of a run of digits is a run of digits.
pub proof fn lemma_all_hex_subrange(s: Seq<u8>, from: int, to: int)
    requires
        all_hex(s),
        0 <= from <= to <= s.len(),
    ensures
        all_hex(s.subrange(from, to)),
{
    let part = s.subrange(from, to);
    assert forall|i: int| 0 <= i < part.len() implies is_hex_digit(#[trigger] part[i]) by {
        assert(part[i] == s[from + i]);
    }
}

/// A field of at most eight digits always parses, to the number it writes.
pub proof fn lemma_parse_hex_fits(s: Seq<u8>)
    requires
        0 < s.len() <= 8,
        all_hex(s),
    ensures
        hex_value(s) <= u32::MAX,
        parse_hex_spec(s) == Ok::<u32, DecodeError>(hex_value(s) as u32),
{
    lemma_hex_value_bound(s);
    assert(hex_limit(8) == 0x1_0000_0000) by {
        reveal_with_fuel(hex_limit, 9);
    }
    lemma_hex_limit_grows(s.len(), 8);
}

/// Each further digit makes room for larger numbers.
pub proof fn lemma_hex_limit_grows(m: nat, n: nat)
    requires
        m <= n,
    ensures
        hex_limit(m) <= hex_limit(n),
    decreases n - m,
{
    if m < n {
        lemma_hex_limit_grows(m, (n - 1) as nat);
    }
}

/// The value of one hexadecimal digit, or `None` for any other byte.
pub fn hex_digit(b: u8) -> (r: Option<u8>)
    ensures
        r == if is_hex_digit(b) {
            Some(hex_digit_value(b) as u8)
        } else {
            None::<u8>
        },
{
    if 0x30 <= b && b <= 0x39 {
        Some(b - 0x30)
    } else if 0x41 <= b && b <= 0x46 {
        Some(b - 0x41 + 10)
    } else if 0x61 <= b && b <= 0x66 {
        Some(b - 0x61 + 10)
    } else {
        None
    }
}

/// Parses a whole field as one unsigned hexadecimal number.
///
/// Both letter cases are digits. A sign, a blank or any other byte makes the
/// field malformed, as does an empty field or a value above `u32::MAX`.
pub fn parse_hex(field: &[u8]) -> (r: Result<u32, DecodeError>)
    ensures
        r == parse_hex_spec(field@),
{
    let n: usize = field.len();
    if n == 0 {
        return Err(DecodeError::Format);
    }
    let mut acc: u32 = 0;
    let mut i: usize = 0;
    while i < n
        invariant
            n == field@.len(),
            0 <= i <= n,
            all_hex(field@.take(i as int)),
            acc == hex_value(field@.take(i as int)),
        decreases n - i,
    {
        let ghost next = field@.take(i + 1);
        proof {
            assert(next.drop_last() =~= field@.take(i as int));
            assert(next.last() == field@[i as int]);
        }
        match hex_digit(field[i]) {
            None => {
                assert(!is_hex_digit(field@[i as int]));
                return Err(DecodeError::Format);
            },
            Some(d) => {
                if acc > (u32::MAX - d as u32) / 16 {
                    proof {
                        lemma_hex_value_prefix(field@, i + 1);
                    }
                    return Err(DecodeError::Format);
                }
                acc = acc * 16 + d as u32;
                assert forall|j: int| 0 <= j < next.len() implies is_hex_digit(
                    #[trigger] next[j],
                ) by {
                    if j < i {
                        assert(next[j] == field@.take(i as int)[j]);
                    }
                }
            },
        }
        i += 1;
    }
    proof {
        assert(field@.take(n as int) =~= field@);
    }
    Ok(acc)
}

} // verus!
