//! Decoding a whole buffer: the entry address and the data segments.
//!
//! Records follow one another. Between two records, before the first and
//! after the last, any run of carriage returns and line feeds is passed over;
//! no other separator is accepted, so a blank or a tab where a record should
//! start is read as a tag and refused.

use crate::error::DecodeError;
use crate::record::{read_record, record_at, record_end, RecordKind, RecordView};
use vstd::prelude::*;

verus! {

/// A stretch of bytes and the address at which the first of them belongs.
pub type Segment = (u32, Vec<u8>);

/// What a buffer decodes to: the entry address, then the segments in the
/// order of their records.
pub type Image = (u32, Vec<Segment>);

/// A segment as a mathematical value.
pub type SegmentView = (u32, Seq<u8>);

/// An image as a mathematical value.
pub type ImageView = (u32, Seq<SegmentView>);

/// The segments of an image as mathematical values, in the same order.
pub open spec fn segments_view(segments: Seq<Segment>) -> Seq<SegmentView> {
    segments.map_values(|s: Segment| (s.0, s.1@))
}

/// `b` is a carriage return or a line feed.
pub open spec fn is_line_break(b: u8) -> bool {
    b == 0x0A || b == 0x0D
}

/// What one record does to the image decoded so far: a data record adds its
/// segment at the end, a start record replaces the entry address, any other
/// record changes nothing.
pub open spec fn apply_record(image: ImageView, record: RecordView) -> ImageView {
    match record.kind {
        RecordKind::Data(_) => (image.0, image.1.push((record.address, record.payload))),
        RecordKind::Start(_) => (record.address, image.1),
        RecordKind::Header | RecordKind::Count => image,
    }
}

/// The image that decoding `buf` from `pos` on gives, when `image` is what
/// the records before `pos` gave.
pub open spec fn decode_from(buf: Seq<u8>, pos: int, image: ImageView) -> Result<
    ImageView,
    DecodeError,
>
    decreases buf.len() - pos,
{
    if pos < 0 || pos >= buf.len() {
        Ok(image)
    } else if is_line_break(buf[pos]) {
        decode_from(buf, pos + 1, image)
    } else {
        match record_at(buf, pos) {
            Err(e) => Err(e),
            Ok(record) => decode_from(
                buf,
                record_end(pos, record.count as int),
                apply_record(image, record),
            ),
        }
    }
}

/// The image that `buf` decodes to: entry address 0 and no segment, changed
/// by each record in turn; or the error of the first record that has one.
pub open spec fn decode_spec(buf: Seq<u8>) -> Result<ImageView, DecodeError> {
    decode_from(buf, 0, (0u32, Seq::<SegmentView>::empty()))
}

/// `r` is what decoding `buf` gives.
pub open spec fn decodes_to(buf: Seq<u8>, r: Result<Image, DecodeError>) -> bool {
    match r {
        Ok(image) => decode_spec(buf) == Ok::<ImageView, DecodeError>(
            (image.0, segments_view(image.1@)),
        ),
        Err(e) => decode_spec(buf) == Err::<ImageView, DecodeError>(e),
    }
}

/// Decodes the whole text of an S-Record file.
///
/// Returns the entry address, which is that of the last start record or 0
/// where there is none, and one segment for each data record, in file order.
/// Nothing is merged, sorted or dropped. The first malformed record ends the
/// decoding with its error, and nothing of what came before is handed out.
pub fn read_srec(buffer: &[u8]) -> (r: Result<Image, DecodeError>)
    ensures
        decodes_to(buffer@, r),
{
    let mut entry: u32 = 0;
    let mut segments: Vec<Segment> = Vec::new();
    let mut i: usize = 0;
    assert(segments_view(segments@) =~= Seq::<SegmentView>::empty());
    while i < buffer.len()
        invariant
            i <= buffer@.len(),
            decode_from(buffer@, i as int, (entry, segments_view(segments@))) == decode_spec(
                buffer@,
            ),
        decreases buffer@.len() - i,
    {
        let b: u8 = buffer[i];
        if b == 0x0A || b == 0x0D {
            i += 1;
        } else {
            let record = match read_record(buffer, &mut i) {
                Ok(record) => record,
                Err(e) => {
                    return Err(e);
                },
            };
            match record.kind {
                RecordKind::Data(_) => {
                    let ghost before = segments_view(segments@);
                    segments.push((record.address, record.payload));
                    assert(segments_view(segments@) =~= before.push(
                        (record.address, record.payload@),
                    ));
                },
                RecordKind::Start(_) => {
                    entry = record.address;
                },
                RecordKind::Header | RecordKind::Count => {},
            }
        }
    }
    Ok((entry, segments))
}

} // verus!
