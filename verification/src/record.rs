//! One record: its tag, its byte count, and what the tag makes of its bytes.
//!
//! A record is laid out as
//!
//! ```text
//! S t cc aaaa.. dd dd .. kk
//! ```
//!
//! with `t` the type digit, `cc` the count of bytes that follow (two
//! characters each), `aaaa..` an address of two, three or four bytes, `dd` the
//! payload and `kk` a checksum byte. The checksum is read as a byte and then
//! dropped: it is not compared with the sum of the record.

use crate::cursor::{
    byte_run, field_at, hex_field_at, lemma_hex_value_pair, lemma_run_is_hex, read_bytes,
    read_hex, read_slice,
};
use crate::error::DecodeError;
use crate::hex::{all_hex, hex_value, is_hex_digit, lemma_all_hex_subrange, lemma_parse_hex_fits};
use vstd::prelude::*;

verus! {

/// How wide the address field of a record is.
#[derive(Debug, Clone, Copy, PartialEq, Eq, Structural)]
pub enum AddressWidth {
    Bits16,
    Bits24,
    Bits32,
}

impl AddressWidth {
    /// Bytes that the address takes in the record: two characters each.
    pub open spec fn bytes(self) -> int {
        match self {
            AddressWidth::Bits16 => 2,
            AddressWidth::Bits24 => 3,
            AddressWidth::Bits32 => 4,
        }
    }

    /// Bytes of a data record that are no payload: the address and the
    /// checksum.
    pub open spec fn overhead(self) -> int {
        self.bytes() + 1
    }

    /// Bytes that the address takes in the record.
    pub fn byte_len(self) -> (n: usize)
        ensures
            n == self.bytes(),
    {
        match self {
            AddressWidth::Bits16 => 2,
            AddressWidth::Bits24 => 3,
            AddressWidth::Bits32 => 4,
        }
    }
}

/// What a tag says its record is.
#[derive(Debug, Clone, Copy, PartialEq, Eq, Structural)]
pub enum RecordKind {
    /// `S0`: a header or comment; its bytes are passed over.
    Header,
    /// `S1`, `S2`, `S3`: an address and the bytes that belong there.
    Data(AddressWidth),
    /// `S5`: a count of records; its bytes are passed over.
    Count,
    /// `S9`, `S8`, `S7`: the address at which execution starts.
    Start(AddressWidth),
}

/// The dispatch table: the kind of record that a two-character tag selects.
pub open spec fn kind_of_tag(tag: Seq<u8>) -> Option<RecordKind> {
    if tag.len() != 2 || tag[0] != 0x53 {
        None
    } else if tag[1] == 0x30 {
        Some(RecordKind::Header)
    } else if tag[1] == 0x31 {
        Some(RecordKind::Data(AddressWidth::Bits16))
    } else if tag[1] == 0x32 {
        Some(RecordKind::Data(AddressWidth::Bits24))
    } else if tag[1] == 0x33 {
        Some(RecordKind::Data(AddressWidth::Bits32))
    } else if tag[1] == 0x35 {
        Some(RecordKind::Count)
    } else if tag[1] == 0x37 {
        Some(RecordKind::Start(AddressWidth::Bits32))
    } else if tag[1] == 0x38 {
        Some(RecordKind::Start(AddressWidth::Bits24))
    } else if tag[1] == 0x39 {
        Some(RecordKind::Start(AddressWidth::Bits16))
    } else {
        None
    }
}

/// Looks a tag up in the dispatch table.
pub fn classify(tag: &[u8]) -> (kind: Option<RecordKind>)
    ensures
        kind == kind_of_tag(tag@),
{
    if tag.len() != 2 || tag[0] != 0x53 {
        return None;
    }
    let t: u8 = tag[1];
    if t == 0x30 {
        Some(RecordKind::Header)
    } else if t == 0x31 {
        Some(RecordKind::Data(AddressWidth::Bits16))
    } else if t == 0x32 {
        Some(RecordKind::Data(AddressWidth::Bits24))
    } else if t == 0x33 {
        Some(RecordKind::Data(AddressWidth::Bits32))
    } else if t == 0x35 {
        Some(RecordKind::Count)
    } else if t == 0x37 {
        Some(RecordKind::Start(AddressWidth::Bits32))
    } else if t == 0x38 {
        Some(RecordKind::Start(AddressWidth::Bits24))
    } else if t == 0x39 {
        Some(RecordKind::Start(AddressWidth::Bits16))
    } else {
        None
    }
}

/// The address field of a record read at each of its three possible widths,
/// before the tag has said which one counts. A width that the tag does not
/// select is never an error of the record, whatever its reading gave.
#[derive(Debug, Clone, Copy)]
pub struct AddressCandidates {
    pub bits16: Result<u32, DecodeError>,
    pub bits24: Result<u32, DecodeError>,
    pub bits32: Result<u32, DecodeError>,
}

impl AddressCandidates {
    /// The three readings of the characters of `buf` at `pos`.
    pub open spec fn at(buf: Seq<u8>, pos: int) -> AddressCandidates {
        AddressCandidates {
            bits16: hex_field_at(buf, pos, 4),
            bits24: hex_field_at(buf, pos, 6),
            bits32: hex_field_at(buf, pos, 8),
        }
    }

    /// The reading at width `width`.
    pub open spec fn resolved(self, width: AddressWidth) -> Result<u32, DecodeError> {
        match width {
            AddressWidth::Bits16 => self.bits16,
            AddressWidth::Bits24 => self.bits24,
            AddressWidth::Bits32 => self.bits32,
        }
    }

    /// Reads the address at `pos` at all three widths. Each reading starts
    /// at `pos`; none moves a cursor.
    pub fn read(buffer: &[u8], pos: usize) -> (c: AddressCandidates)
        ensures
            c == AddressCandidates::at(buffer@, pos as int),
    {
        let mut cur: usize = pos;
        let bits16 = read_hex(buffer, &mut cur, 4, false);
        let bits24 = read_hex(buffer, &mut cur, 6, false);
        let bits32 = read_hex(buffer, &mut cur, 8, false);
        AddressCandidates { bits16, bits24, bits32 }
    }

    /// Picks the reading that the record's kind makes authoritative.
    pub fn resolve(&self, width: AddressWidth) -> (r: Result<u32, DecodeError>)
        ensures
            r == self.resolved(width),
    {
        match width {
            AddressWidth::Bits16 => self.bits16,
            AddressWidth::Bits24 => self.bits24,
            AddressWidth::Bits32 => self.bits32,
        }
    }
}

/// A record as read: what kind it is, the byte count it declared, and the
/// address and payload that its kind gives it. A record without an address
/// has address 0, and only a data record has a payload.
#[derive(Debug, PartialEq, Eq)]
pub struct Record {
    pub kind: RecordKind,
    pub count: u8,
    pub address: u32,
    pub payload: Vec<u8>,
}

/// A record as a mathematical value.
pub struct RecordView {
    pub kind: RecordKind,
    pub count: nat,
    pub address: u32,
    pub payload: Seq<u8>,
}

impl View for Record {
    type V = RecordView;

    open spec fn view(&self) -> RecordView {
        RecordView {
            kind: self.kind,
            count: self.count as nat,
            address: self.address,
            payload: self.payload@,
        }
    }
}

/// Where the record that starts at `pos` and declares `count` bytes ends:
/// after the tag, the count field and two characters for each byte.
pub open spec fn record_end(pos: int, count: int) -> int {
    pos + 4 + 2 * count
}

/// What the `count` bytes that start at `at` mean to a record of kind `kind`,
/// given that the buffer holds all of them.
///
/// A header or count record means nothing. A start record gives the address
/// read at its width, from `at` on, whatever `count` says. A data record must
/// hold an address and a checksum at least, and every one of its characters
/// must be a hexadecimal digit; its payload is what lies between the two.
pub open spec fn body_at(buf: Seq<u8>, at: int, kind: RecordKind, count: nat) -> Result<
    RecordView,
    DecodeError,
> {
    match kind {
        RecordKind::Header | RecordKind::Count => Ok(
            RecordView { kind, count, address: 0, payload: Seq::empty() },
        ),
        RecordKind::Start(width) => match hex_field_at(buf, at, 2 * width.bytes()) {
            Ok(address) => Ok(RecordView { kind, count, address, payload: Seq::empty() }),
            Err(e) => Err(e),
        },
        RecordKind::Data(width) => if count < width.overhead() || !all_hex(
            buf.subrange(at, at + 2 * count),
        ) {
            Err(DecodeError::Format)
        } else {
            Ok(
                RecordView {
                    kind,
                    count,
                    address: hex_value(buf.subrange(at, at + 2 * width.bytes())) as u32,
                    payload: byte_run(
                        buf,
                        at + 2 * width.bytes(),
                        (count - width.overhead()) as nat,
                    ),
                },
            )
        },
    }
}

/// The record that starts at `pos`, or the reason why there is none.
///
/// What is wrong with a record is found in this order: the tag, then the
/// count field, does not fit in the buffer; the count field is not
/// hexadecimal; the tag is not in the dispatch table; the buffer ends before
/// the declared count of bytes does; the body is malformed for its kind.
pub open spec fn record_at(buf: Seq<u8>, pos: int) -> Result<RecordView, DecodeError> {
    match field_at(buf, pos, 2) {
        Err(e) => Err(e),
        Ok(tag) => match hex_field_at(buf, pos + 2, 2) {
            Err(e) => Err(e),
            Ok(count) => match kind_of_tag(tag) {
                None => Err(DecodeError::UnsupportedRecord),
                Some(kind) => if record_end(pos, count as int) > buf.len() {
                    Err(DecodeError::Bounds)
                } else {
                    body_at(buf, pos + 4, kind, count as nat)
                },
            },
        },
    }
}

/// A data body whose address, payload and checksum are each made of
/// hexadecimal digits is made of hexadecimal digits throughout.
proof fn lemma_data_body_is_hex(buf: Seq<u8>, at: int, width: AddressWidth, count: int)
    requires
        0 <= at,
        width.overhead() <= count,
        at + 2 * count <= buf.len(),
        all_hex(buf.subrange(at, at + 2 * width.bytes())),
        all_hex(buf.subrange(at + 2 * width.bytes(), at + 2 * (count - 1))),
        all_hex(buf.subrange(at + 2 * (count - 1), at + 2 * count)),
    ensures
        all_hex(buf.subrange(at, at + 2 * count)),
{
    let body = buf.subrange(at, at + 2 * count);
    let address = buf.subrange(at, at + 2 * width.bytes());
    let payload = buf.subrange(at + 2 * width.bytes(), at + 2 * (count - 1));
    let checksum = buf.subrange(at + 2 * (count - 1), at + 2 * count);
    assert forall|i: int| 0 <= i < body.len() implies is_hex_digit(#[trigger] body[i]) by {
        if i < 2 * width.bytes() {
            assert(body[i] == address[i]);
        } else if i < 2 * (count - 1) {
            assert(body[i] == payload[i - 2 * width.bytes()]);
        } else {
            assert(body[i] == checksum[i - 2 * (count - 1)]);
        }
    }
}

/// Reads the record at `*pos` and moves the cursor to the first character
/// after it. Where the record cannot be read the cursor stays at its start.
pub fn read_record(buffer: &[u8], pos: &mut usize) -> (r: Result<Record, DecodeError>)
    ensures
        match r {
            Ok(record) => {
                &&& record_at(buffer@, *old(pos) as int) == Ok::<RecordView, DecodeError>(record@)
                &&& *final(pos) == record_end(*old(pos) as int, record.count as int)
            },
            Err(e) => {
                &&& record_at(buffer@, *old(pos) as int) == Err::<RecordView, DecodeError>(e)
                &&& *final(pos) == *old(pos)
            },
        },
        r matches Ok(record) ==> (record.kind matches RecordKind::Data(width)
            ==> record.payload@.len() == record.count - width.overhead()),
{
    let start: usize = *pos;
    let mut cur: usize = start;
    let tag = match read_slice(buffer, &mut cur, 2, true) {
        Ok(tag) => tag,
        Err(e) => {
            return Err(e);
        },
    };
    let count_field = match read_hex(buffer, &mut cur, 2, true) {
        Ok(value) => value,
        Err(e) => {
            return Err(e);
        },
    };
    proof {
        lemma_hex_value_pair(buffer@.subrange(start + 2, start + 4));
    }
    let count: u8 = count_field as u8;
    let candidates = AddressCandidates::read(buffer, cur);
    let kind = match classify(tag) {
        Some(kind) => kind,
        None => {
            return Err(DecodeError::UnsupportedRecord);
        },
    };
    let extent: usize = 2 * (count as usize);
    if buffer.len() - cur < extent {
        return Err(DecodeError::Bounds);
    }
    let ghost at = cur as int;
    match kind {
        RecordKind::Header | RecordKind::Count => {
            *pos = cur + extent;
            Ok(Record { kind, count, address: 0, payload: Vec::new() })
        },
        RecordKind::Start(width) => {
            let address = match candidates.resolve(width) {
                Ok(address) => address,
                Err(e) => {
                    return Err(e);
                },
            };
            *pos = cur + extent;
            Ok(Record { kind, count, address, payload: Vec::new() })
        },
        RecordKind::Data(width) => {
            let address_len: usize = width.byte_len();
            if (count as usize) < address_len + 1 {
                return Err(DecodeError::Format);
            }
            let ghost body = buffer@.subrange(at, at + 2 * count);
            let ghost address_field = buffer@.subrange(at, at + 2 * width.bytes());
            let ghost address_end = at + 2 * width.bytes();
            let ghost payload_end = at + 2 * (count - 1);
            proof {
                if all_hex(body) {
                    lemma_all_hex_subrange(body, 0, 2 * width.bytes());
                    assert(body.subrange(0, 2 * width.bytes()) =~= address_field);
                    lemma_parse_hex_fits(address_field);
                    lemma_all_hex_subrange(body, 2 * width.bytes(), 2 * (count - 1));
                    assert(body.subrange(2 * width.bytes(), 2 * (count - 1))
                        =~= buffer@.subrange(address_end, payload_end));
                    lemma_all_hex_subrange(body, 2 * (count - 1), 2 * count as int);
                    assert(body.subrange(2 * (count - 1), 2 * count as int) =~= buffer@.subrange(
                        payload_end,
                        payload_end + 2,
                    ));
                    lemma_parse_hex_fits(buffer@.subrange(payload_end, payload_end + 2));
                }
                lemma_run_is_hex(buffer@, address_end, count - width.overhead());
            }
            let address = match candidates.resolve(width) {
                Ok(address) => address,
                Err(e) => {
                    return Err(e);
                },
            };
            cur = cur + 2 * address_len;
            let payload = match read_bytes(buffer, &mut cur, count as usize - address_len - 1) {
                Ok(payload) => payload,
                Err(e) => {
                    return Err(e);
                },
            };
            match read_hex(buffer, &mut cur, 2, true) {
                Ok(_) => {},
                Err(e) => {
                    return Err(e);
                },
            }
            proof {
                lemma_parse_hex_fits(address_field);
                lemma_data_body_is_hex(buffer@, at, width, count as int);
            }
            *pos = cur;
            Ok(Record { kind, count, address, payload })
        },
    }
}

} // verus!
