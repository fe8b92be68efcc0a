//! Reading fixed-width fields at a cursor into the buffer.
//!
//! The cursor is a plain index owned by the caller and handed in by exclusive
//! reference. Every read either succeeds, and then the cursor has moved by
//! exactly the characters consumed, or fails and leaves the cursor where it was.

use crate::error::DecodeError;
use crate::hex::{
    all_hex, hex_digit_value, hex_value, is_hex_digit, parse_hex, parse_hex_spec,
};
use crate::text::{ascii_text, is_ascii_text, lossy_text, utf8_lossy};
use vstd::prelude::*;
use vstd::slice::slice_subrange;

verus! {

/// The `width` characters of `buf` that start at `pos`, where the buffer
/// holds that many.
pub open spec fn field_at(buf: Seq<u8>, pos: int, width: int) -> Result<Seq<u8>, DecodeError> {
    if 0 <= pos && 0 <= width && pos + width <= buf.len() {
        Ok(buf.subrange(pos, pos + width))
    } else {
        Err(DecodeError::Bounds)
    }
}

/// The number written by the `width` hexadecimal digits of `buf` at `pos`.
/// A field that does not fit in the buffer is a bounds error before its
/// characters are looked at.
pub open spec fn hex_field_at(buf: Seq<u8>, pos: int, width: int) -> Result<u32, DecodeError> {
    match field_at(buf, pos, width) {
        Ok(field) => parse_hex_spec(field),
        Err(e) => Err(e),
    }
}

/// The two characters of pair number `k`, counted from `pos`, are both
/// hexadecimal digits.
pub open spec fn pair_is_hex(buf: Seq<u8>, pos: int, k: int) -> bool {
    is_hex_digit(buf[pos + 2 * k]) && is_hex_digit(buf[pos + 2 * k + 1])
}

/// The byte written by pair number `k`, counted from `pos`.
pub open spec fn pair_value(buf: Seq<u8>, pos: int, k: int) -> u8 {
    (16 * hex_digit_value(buf[pos + 2 * k]) + hex_digit_value(buf[pos + 2 * k + 1])) as u8
}

/// The `n` bytes written by the `2 * n` characters of `buf` from `pos` on.
pub open spec fn byte_run(buf: Seq<u8>, pos: int, n: nat) -> Seq<u8> {
    Seq::new(n, |k: int| pair_value(buf, pos, k))
}

/// Among the first `n` pairs from `pos`, one that lies wholly inside the
/// buffer holds a character that is no hexadecimal digit.
pub open spec fn run_has_bad_pair(buf: Seq<u8>, pos: int, n: int) -> bool {
    exists|k: int| 0 <= k < n && pos + 2 * k + 2 <= buf.len() && !#[trigger] pair_is_hex(buf, pos, k)
}

/// What reading `n` bytes at `pos` gives. Pairs are taken in order, so a
/// malformed pair that is wholly there is met before the end of the buffer is.
pub open spec fn byte_run_at(buf: Seq<u8>, pos: int, n: int) -> Result<Seq<u8>, DecodeError> {
    if run_has_bad_pair(buf, pos, n) {
        Err(DecodeError::Format)
    } else if pos < 0 || n < 0 || pos + 2 * n > buf.len() {
        Err(DecodeError::Bounds)
    } else {
        Ok(byte_run(buf, pos, n as nat))
    }
}

/// Two digits stand for sixteen times the first plus the second.
pub proof fn lemma_hex_value_pair(s: Seq<u8>)
    requires
        s.len() == 2,
    ensures
        hex_value(s) == 16 * hex_digit_value(s[0]) + hex_digit_value(s[1]),
        hex_value(s) <= 255,
{
    let head = s.drop_last();
    assert(head.len() == 1);
    assert(head.last() == s[0]);
    assert(head.drop_last().len() == 0);
    assert(hex_value(head.drop_last()) == 0);
    assert(hex_value(head) == hex_digit_value(s[0]));
}

/// Where the whole run lies inside the buffer, it holds a malformed pair
/// exactly when one of its characters is no hexadecimal digit.
pub proof fn lemma_run_is_hex(buf: Seq<u8>, pos: int, n: int)
    requires
        0 <= pos,
        0 <= n,
        pos + 2 * n <= buf.len(),
    ensures
        run_has_bad_pair(buf, pos, n) <==> !all_hex(buf.subrange(pos, pos + 2 * n)),
{
    let run = buf.subrange(pos, pos + 2 * n);
    if run_has_bad_pair(buf, pos, n) {
        let k = choose|k: int|
            0 <= k < n && pos + 2 * k + 2 <= buf.len() && !#[trigger] pair_is_hex(buf, pos, k);
        assert(run[2 * k] == buf[pos + 2 * k]);
        assert(run[2 * k + 1] == buf[pos + 2 * k + 1]);
    }
    if !all_hex(run) {
        let i = choose|i: int| 0 <= i < run.len() && !is_hex_digit(#[trigger] run[i]);
        let k = i / 2;
        assert(run[i] == buf[pos + i]);
        assert(!pair_is_hex(buf, pos, k));
    }
}

/// Takes the `len` bytes at `*start` out of the buffer, as they are.
///
/// With `advance` the cursor moves past the field; without, the same
/// position can be read again at another width.
pub fn read_slice<'a>(buffer: &'a [u8], start: &mut usize, len: usize, advance: bool) -> (r:
    Result<&'a [u8], DecodeError>)
    ensures
        match r {
            Ok(field) => field_at(buffer@, *old(start) as int, len as int) == Ok::<
                Seq<u8>,
                DecodeError,
            >(field@),
            Err(e) => field_at(buffer@, *old(start) as int, len as int) == Err::<
                Seq<u8>,
                DecodeError,
            >(e),
        },
        *final(start) == if advance && r is Ok {
            *old(start) + len
        } else {
            *old(start) as int
        },
{
    let from: usize = *start;
    if from > buffer.len() || len > buffer.len() - from {
        return Err(DecodeError::Bounds);
    }
    let field = slice_subrange(buffer, from, from + len);
    if advance {
        *start = from + len;
    }
    Ok(field)
}

/// Reads the `len` bytes at `*start` as text: decoded as UTF-8, with the
/// replacement character in place of whatever is no UTF-8, so that no byte
/// makes the read fail. A field of ASCII bytes reads as those characters.
///
/// With `inc_index` the cursor moves past the field, by the `len` bytes read
/// and not by the size of the text; without, the same position can be read
/// again at another width.
pub fn read_chars(buffer: &[u8], start: &mut usize, len: usize, inc_index: bool) -> (r: Result<
    String,
    DecodeError,
>)
    ensures
        match r {
            Ok(text) => {
                &&& field_at(buffer@, *old(start) as int, len as int) matches Ok(field)
                &&& text@ == lossy_text(field)
                &&& is_ascii_text(field) ==> text@ == ascii_text(field)
            },
            Err(e) => field_at(buffer@, *old(start) as int, len as int) == Err::<
                Seq<u8>,
                DecodeError,
            >(e),
        },
        *final(start) == if inc_index && r is Ok {
            *old(start) + len
        } else {
            *old(start) as int
        },
{
    match read_slice(buffer, start, len, inc_index) {
        Ok(field) => Ok(utf8_lossy(field)),
        Err(e) => Err(e),
    }
}

/// Reads the `width` characters at `*pos` as one hexadecimal number.
///
/// With `advance` the cursor moves past the field once it has parsed.
pub fn read_hex(buffer: &[u8], pos: &mut usize, width: usize, advance: bool) -> (r: Result<
    u32,
    DecodeError,
>)
    ensures
        r == hex_field_at(buffer@, *old(pos) as int, width as int),
        *final(pos) == if advance && r is Ok {
            *old(pos) + width
        } else {
            *old(pos) as int
        },
{
    let mut cur: usize = *pos;
    let field = match read_slice(buffer, &mut cur, width, true) {
        Ok(field) => field,
        Err(e) => {
            return Err(e);
        },
    };
    let value = match parse_hex(field) {
        Ok(value) => value,
        Err(e) => {
            return Err(e);
        },
    };
    if advance {
        *pos = cur;
    }
    Ok(value)
}

/// Reads `len` bytes, each written as two hexadecimal digits, and moves the
/// cursor past the `2 * len` characters consumed.
pub fn read_bytes(buffer: &[u8], i: &mut usize, len: usize) -> (r: Result<Vec<u8>, DecodeError>)
    ensures
        match r {
            Ok(mem) => byte_run_at(buffer@, *old(i) as int, len as int) == Ok::<
                Seq<u8>,
                DecodeError,
            >(mem@),
            Err(e) => byte_run_at(buffer@, *old(i) as int, len as int) == Err::<
                Seq<u8>,
                DecodeError,
            >(e),
        },
        r matches Ok(mem) ==> mem@.len() == len,
        *final(i) == if r is Ok {
            *old(i) + 2 * len
        } else {
            *old(i) as int
        },
{
    let start: usize = *i;
    if start > buffer.len() {
        assert(!run_has_bad_pair(buffer@, start as int, len as int));
        return Err(DecodeError::Bounds);
    }
    let mut mem: Vec<u8> = Vec::new();
    let mut cur: usize = start;
    let mut k: usize = 0;
    while k < len
        invariant
            k <= len,
            cur == start + 2 * k,
            cur <= buffer@.len(),
            *i == start,
            mem@ =~= byte_run(buffer@, start as int, k as nat),
            forall|j: int| 0 <= j < k ==> #[trigger] pair_is_hex(buffer@, start as int, j),
        decreases len - k,
    {
        let ghost at = cur as int;
        match read_hex(buffer, &mut cur, 2, true) {
            Err(e) => {
                proof {
                    if at + 2 <= buffer@.len() {
                        let pair = buffer@.subrange(at, at + 2);
                        assert(pair[0] == buffer@[at] && pair[1] == buffer@[at + 1]);
                        lemma_hex_value_pair(pair);
                        assert(!pair_is_hex(buffer@, start as int, k as int));
                    }
                }
                return Err(e);
            },
            Ok(v) => {
                proof {
                    let pair = buffer@.subrange(at, at + 2);
                    assert(pair[0] == buffer@[at] && pair[1] == buffer@[at + 1]);
                    lemma_hex_value_pair(pair);
                    assert(pair_is_hex(buffer@, start as int, k as int));
                    assert(v == pair_value(buffer@, start as int, k as int));
                }
                mem.push(v as u8);
                k += 1;
            },
        }
    }
    *i = cur;
    Ok(mem)
}

} // verus!
