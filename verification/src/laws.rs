//! What holds of every buffer: statements about records and whole decodes,
//! each proved from the definitions in [`crate::record`] and [`crate::decode`].

use crate::cursor::{byte_run, hex_field_at};
use crate::decode::{
    apply_record, decode_from, decode_spec, decodes_to, is_line_break, segments_view, Image,
    ImageView, SegmentView,
};
use crate::error::DecodeError;
use crate::hex::{all_hex, hex_value};
use crate::record::{kind_of_tag, record_at, record_end, RecordKind, RecordView};
use vstd::prelude::*;

verus! {

/// The payload of a data record has exactly the bytes that its count leaves
/// once the address and the checksum are taken off: the count less 3 under
/// `S1`, less 4 under `S2`, less 5 under `S3`. No other record has a payload.
pub proof fn lemma_data_payload_length(buf: Seq<u8>, pos: int)
    requires
        record_at(buf, pos) is Ok,
    ensures
        ({
            let record = record_at(buf, pos)->Ok_0;
            &&& record.count == hex_value(buf.subrange(pos + 2, pos + 4))
            &&& record.kind matches RecordKind::Data(width) ==> record.payload.len()
                == record.count - width.overhead()
            &&& buf[pos + 1] == 0x31 ==> record.payload.len() == record.count - 3
            &&& buf[pos + 1] == 0x32 ==> record.payload.len() == record.count - 4
            &&& buf[pos + 1] == 0x33 ==> record.payload.len() == record.count - 5
            &&& !(record.kind is Data) ==> record.payload.len() == 0
        }),
{
    let tag = buf.subrange(pos, pos + 2);
    assert(tag[1] == buf[pos + 1]);
}

/// A record whose tag is known and whose count can be read, in a buffer that
/// ends before the declared count of bytes does, is a bounds error whatever
/// the bytes that are there hold.
pub proof fn lemma_short_record(buf: Seq<u8>, pos: int, count: u32)
    requires
        kind_of_tag(buf.subrange(pos, pos + 2)) is Some,
        hex_field_at(buf, pos + 2, 2) == Ok::<u32, DecodeError>(count),
        record_end(pos, count as int) > buf.len(),
    ensures
        record_at(buf, pos) == Err::<RecordView, DecodeError>(DecodeError::Bounds),
{
}

/// A record whose count field lies in the buffer and holds a character that
/// is no hexadecimal digit is a format error, whatever its tag.
pub proof fn lemma_malformed_count(buf: Seq<u8>, pos: int)
    requires
        0 <= pos,
        pos + 4 <= buf.len(),
        !all_hex(buf.subrange(pos + 2, pos + 4)),
    ensures
        record_at(buf, pos) == Err::<RecordView, DecodeError>(DecodeError::Format),
{
}

/// Following the records of `buf` from `from` on, each of them well-formed,
/// one comes to stand at `pos`.
pub open spec fn record_starts_at(buf: Seq<u8>, from: int, pos: int) -> bool
    decreases buf.len() - from,
{
    if from == pos {
        true
    } else if from < 0 || from > pos || from >= buf.len() {
        false
    } else if is_line_break(buf[from]) {
        record_starts_at(buf, from + 1, pos)
    } else {
        match record_at(buf, from) {
            Err(_) => false,
            Ok(record) => record_starts_at(buf, record_end(from, record.count as int), pos),
        }
    }
}

/// Decoding from `from` on gives the error of the first record that has one.
pub proof fn lemma_first_error_from(buf: Seq<u8>, from: int, pos: int, image: ImageView)
    requires
        0 <= from,
        record_starts_at(buf, from, pos),
        pos < buf.len(),
        !is_line_break(buf[pos]),
        record_at(buf, pos) is Err,
    ensures
        decode_from(buf, from, image) == Err::<ImageView, DecodeError>(
            record_at(buf, pos)->Err_0,
        ),
    decreases buf.len() - from,
{
    if from != pos {
        if is_line_break(buf[from]) {
            lemma_first_error_from(buf, from + 1, pos, image);
        } else {
            let record = record_at(buf, from)->Ok_0;
            lemma_first_error_from(
                buf,
                record_end(from, record.count as int),
                pos,
                apply_record(image, record),
            );
        }
    }
}

/// The first record that is in error decides: its error is the result of the
/// decode, and nothing of the records before it is handed out.
pub proof fn lemma_first_error(buf: Seq<u8>, pos: int)
    requires
        record_starts_at(buf, 0, pos),
        pos < buf.len(),
        !is_line_break(buf[pos]),
        record_at(buf, pos) is Err,
    ensures
        decode_spec(buf) == Err::<ImageView, DecodeError>(record_at(buf, pos)->Err_0),
{
    lemma_first_error_from(buf, 0, pos, (0u32, Seq::<SegmentView>::empty()));
}

/// Cutting the buffer inside a well-formed record turns the record into a
/// bounds error.
pub proof fn lemma_cut_record(buf: Seq<u8>, pos: int, n: int)
    requires
        record_at(buf, pos) is Ok,
        pos < n < record_end(pos, record_at(buf, pos)->Ok_0.count as int),
    ensures
        record_at(buf.take(n), pos) == Err::<RecordView, DecodeError>(DecodeError::Bounds),
{
    let cut = buf.take(n);
    if n >= pos + 2 {
        assert(cut.subrange(pos, pos + 2) =~= buf.subrange(pos, pos + 2));
    }
    if n >= pos + 4 {
        assert(cut.subrange(pos + 2, pos + 4) =~= buf.subrange(pos + 2, pos + 4));
    }
}

/// Cutting the buffer at or after the end of a well-formed record leaves the
/// record as it was, with one exception: a start record whose count is too
/// small to cover its address, where the cut falls inside that address, is
/// then a bounds error.
pub proof fn lemma_record_before_cut(buf: Seq<u8>, pos: int, n: int)
    requires
        record_at(buf, pos) is Ok,
        record_end(pos, record_at(buf, pos)->Ok_0.count as int) <= n <= buf.len(),
    ensures
        record_at(buf.take(n), pos) == if record_at(buf, pos)->Ok_0.kind matches RecordKind::Start(
            width,
        ) && pos + 4 + 2 * width.bytes() > n {
            Err::<RecordView, DecodeError>(DecodeError::Bounds)
        } else {
            record_at(buf, pos)
        },
{
    let cut = buf.take(n);
    let record = record_at(buf, pos)->Ok_0;
    let count = record.count;
    let at = pos + 4;
    assert(cut.subrange(pos, pos + 2) =~= buf.subrange(pos, pos + 2));
    assert(cut.subrange(pos + 2, pos + 4) =~= buf.subrange(pos + 2, pos + 4));
    match record.kind {
        RecordKind::Header | RecordKind::Count => {},
        RecordKind::Start(width) => {
            if at + 2 * width.bytes() <= n {
                assert(cut.subrange(at, at + 2 * width.bytes()) =~= buf.subrange(
                    at,
                    at + 2 * width.bytes(),
                ));
            }
        },
        RecordKind::Data(width) => {
            let payload_len = (count - width.overhead()) as nat;
            assert(cut.subrange(at, at + 2 * count) =~= buf.subrange(at, at + 2 * count));
            assert(cut.subrange(at, at + 2 * width.bytes()) =~= buf.subrange(
                at,
                at + 2 * width.bytes(),
            ));
            assert(byte_run(cut, at + 2 * width.bytes(), payload_len) =~= byte_run(
                buf,
                at + 2 * width.bytes(),
                payload_len,
            ));
        },
    }
}

/// Following the records of `buf` from `pos` on, each of them well-formed,
/// the place `n` lies inside one of them: after its first character and
/// before its end.
pub open spec fn cuts_record(buf: Seq<u8>, pos: int, n: int) -> bool
    decreases buf.len() - pos,
{
    if pos < 0 || pos >= n || pos >= buf.len() {
        false
    } else if is_line_break(buf[pos]) {
        cuts_record(buf, pos + 1, n)
    } else {
        match record_at(buf, pos) {
            Err(_) => false,
            Ok(record) => n < record_end(pos, record.count as int) || cuts_record(
                buf,
                record_end(pos, record.count as int),
                n,
            ),
        }
    }
}

/// Decoding the first `n` characters of `buf` from `pos` on is a bounds
/// error where `n` lies inside a record that is reached from `pos`.
pub proof fn lemma_truncated_from(buf: Seq<u8>, pos: int, n: int, image: ImageView)
    requires
        0 <= pos,
        n <= buf.len(),
        cuts_record(buf, pos, n),
    ensures
        decode_from(buf.take(n), pos, image) == Err::<ImageView, DecodeError>(
            DecodeError::Bounds,
        ),
    decreases buf.len() - pos,
{
    let cut = buf.take(n);
    assert(cut[pos] == buf[pos]);
    if is_line_break(buf[pos]) {
        lemma_truncated_from(buf, pos + 1, n, image);
    } else {
        let record = record_at(buf, pos)->Ok_0;
        let end = record_end(pos, record.count as int);
        if n < end {
            lemma_cut_record(buf, pos, n);
        } else {
            lemma_record_before_cut(buf, pos, n);
            if record_at(cut, pos) is Ok {
                lemma_truncated_from(buf, end, n, apply_record(image, record));
            }
        }
    }
}

/// A truncated buffer is a bounds error: where the first `n` characters of a
/// buffer end inside a record that the whole buffer holds well-formed, with
/// well-formed records before it, decoding those `n` characters gives no
/// image, and no other error than that.
pub proof fn lemma_truncated_buffer(buf: Seq<u8>, n: int)
    requires
        n <= buf.len(),
        cuts_record(buf, 0, n),
    ensures
        decode_spec(buf.take(n)) == Err::<ImageView, DecodeError>(DecodeError::Bounds),
{
    lemma_truncated_from(buf, 0, n, (0u32, Seq::<SegmentView>::empty()));
}

/// A record reads the same wherever it stands: dropping the first `k`
/// characters of the buffer moves it `k` places down and changes nothing else.
pub proof fn lemma_record_shift(buf: Seq<u8>, pos: int, k: int)
    requires
        0 <= k <= pos,
        k <= buf.len(),
    ensures
        record_at(buf.skip(k), pos - k) == record_at(buf, pos),
{
    let rest = buf.skip(k);
    let at = pos + 4;
    if pos + 2 <= buf.len() {
        assert(rest.subrange(pos - k, pos - k + 2) =~= buf.subrange(pos, pos + 2));
    }
    if at <= buf.len() {
        assert(rest.subrange(pos - k + 2, at - k) =~= buf.subrange(pos + 2, at));
    }
    if at <= buf.len() && hex_field_at(buf, pos + 2, 2) is Ok {
        let count = hex_field_at(buf, pos + 2, 2)->Ok_0 as nat;
        let width = match kind_of_tag(buf.subrange(pos, pos + 2)) {
            Some(RecordKind::Start(width)) => width.bytes(),
            Some(RecordKind::Data(width)) => width.bytes(),
            _ => 0,
        };
        if at + 2 * width <= buf.len() {
            assert(rest.subrange(at - k, at - k + 2 * width) =~= buf.subrange(at, at + 2 * width));
        }
        if at + 2 * count <= buf.len() {
            assert(rest.subrange(at - k, at - k + 2 * count) =~= buf.subrange(at, at + 2 * count));
            if count >= width + 1 {
                let payload_len = (count - width - 1) as nat;
                assert(byte_run(rest, at - k + 2 * width, payload_len) =~= byte_run(
                    buf,
                    at + 2 * width,
                    payload_len,
                ));
            }
        }
    }
}

/// Decoding does not depend on where in the buffer the records stand:
/// dropping the `k` characters before `pos` changes nothing.
pub proof fn lemma_decode_shift(buf: Seq<u8>, pos: int, k: int, image: ImageView)
    requires
        0 <= k <= pos,
        k <= buf.len(),
    ensures
        decode_from(buf.skip(k), pos - k, image) == decode_from(buf, pos, image),
    decreases buf.len() - pos,
{
    if pos < buf.len() {
        if is_line_break(buf[pos]) {
            lemma_decode_shift(buf, pos + 1, k, image);
        } else {
            lemma_record_shift(buf, pos, k);
            if let Ok(record) = record_at(buf, pos) {
                lemma_decode_shift(
                    buf,
                    record_end(pos, record.count as int),
                    k,
                    apply_record(image, record),
                );
            }
        }
    }
}

/// A buffer that starts with a well-formed record decodes to what the rest
/// of the buffer decodes to, taken alone, once that record has been applied.
/// So a header or count record leaves no trace: its bytes are in no segment,
/// and the segments that follow hold what they would hold without it.
pub proof fn lemma_first_record(buf: Seq<u8>, image: ImageView)
    requires
        record_at(buf, 0) is Ok,
    ensures
        ({
            let record = record_at(buf, 0)->Ok_0;
            let rest = buf.skip(record_end(0, record.count as int));
            &&& decode_from(buf, 0, image) == decode_from(rest, 0, apply_record(image, record))
            &&& record.kind is Header || record.kind is Count ==> decode_spec(buf) == decode_spec(
                rest,
            )
        }),
{
    let record = record_at(buf, 0)->Ok_0;
    let end = record_end(0, record.count as int);
    let tag = buf.subrange(0, 2);
    assert(tag[0] == buf[0]);
    lemma_decode_shift(buf, end, end, apply_record(image, record));
    lemma_decode_shift(buf, end, end, apply_record((0u32, Seq::<SegmentView>::empty()), record));
}

/// Decoding is a function of the buffer: two results for the same bytes are
/// both errors, and the same error, or both images, with the same entry
/// address and the same segments in the same order.
pub proof fn lemma_decoding_is_deterministic(
    first_buf: Seq<u8>,
    second_buf: Seq<u8>,
    first: Result<Image, DecodeError>,
    second: Result<Image, DecodeError>,
)
    requires
        first_buf =~= second_buf,
        decodes_to(first_buf, first),
        decodes_to(second_buf, second),
    ensures
        first is Ok <==> second is Ok,
        first matches Err(e) ==> second == Err::<Image, DecodeError>(e),
        first matches Ok(a) ==> ({
            let b = second->Ok_0;
            &&& a.0 == b.0
            &&& a.1@.len() == b.1@.len()
            &&& forall|i: int|
                0 <= i < a.1@.len() ==> (#[trigger] a.1@[i]).0 == b.1@[i].0 && a.1@[i].1@
                    == b.1@[i].1@
        }),
{
    if let Ok(a) = first {
        let b = second->Ok_0;
        assert(segments_view(a.1@).len() == a.1@.len());
        assert(segments_view(b.1@).len() == b.1@.len());
        assert forall|i: int| 0 <= i < a.1@.len() implies (#[trigger] a.1@[i]).0 == b.1@[i].0
            && a.1@[i].1@ == b.1@[i].1@ by {
            assert(segments_view(a.1@)[i] == segments_view(b.1@)[i]);
        }
    }
}

} // verus!
