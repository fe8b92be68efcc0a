use srec::error::DecodeError;
use srec::record::{classify, read_record, AddressCandidates, AddressWidth, Record, RecordKind};

#[test]
fn dispatch_table() {
    assert_eq!(classify(b"S0"), Some(RecordKind::Header));
    assert_eq!(classify(b"S1"), Some(RecordKind::Data(AddressWidth::Bits16)));
    assert_eq!(classify(b"S2"), Some(RecordKind::Data(AddressWidth::Bits24)));
    assert_eq!(classify(b"S3"), Some(RecordKind::Data(AddressWidth::Bits32)));
    assert_eq!(classify(b"S5"), Some(RecordKind::Count));
    assert_eq!(classify(b"S7"), Some(RecordKind::Start(AddressWidth::Bits32)));
    assert_eq!(classify(b"S8"), Some(RecordKind::Start(AddressWidth::Bits24)));
    assert_eq!(classify(b"S9"), Some(RecordKind::Start(AddressWidth::Bits16)));
}

#[test]
fn tags_outside_the_table() {
    assert_eq!(classify(b"S4"), None);
    assert_eq!(classify(b"S6"), None);
    assert_eq!(classify(b"S:"), None);
    assert_eq!(classify(b"s1"), None);
    assert_eq!(classify(b"T1"), None);
    assert_eq!(classify(b"S"), None);
    assert_eq!(classify(b""), None);
    assert_eq!(classify(b"S10"), None);
}

#[test]
fn address_widths_in_bytes() {
    assert_eq!(AddressWidth::Bits16.byte_len(), 2);
    assert_eq!(AddressWidth::Bits24.byte_len(), 3);
    assert_eq!(AddressWidth::Bits32.byte_len(), 4);
}

#[test]
fn candidates_at_each_width() {
    let buffer = b"S70512345678E6";
    let candidates = AddressCandidates::read(buffer, 4);
    assert_eq!(candidates.bits16, Ok(0x1234));
    assert_eq!(candidates.bits24, Ok(0x123456));
    assert_eq!(candidates.bits32, Ok(0x12345678));
    assert_eq!(candidates.resolve(AddressWidth::Bits16), Ok(0x1234));
    assert_eq!(candidates.resolve(AddressWidth::Bits24), Ok(0x123456));
    assert_eq!(candidates.resolve(AddressWidth::Bits32), Ok(0x12345678));
}

#[test]
fn a_candidate_that_fails_does_not_spoil_the_others() {
    let buffer = b"S9031234B6";
    let candidates = AddressCandidates::read(buffer, 4);
    assert_eq!(candidates.resolve(AddressWidth::Bits16), Ok(0x1234));
    assert_eq!(candidates.resolve(AddressWidth::Bits24), Ok(0x1234B6));
    assert_eq!(candidates.resolve(AddressWidth::Bits32), Err(DecodeError::Bounds));
    let buffer = b"S9031234\r\n";
    let candidates = AddressCandidates::read(buffer, 4);
    assert_eq!(candidates.resolve(AddressWidth::Bits16), Ok(0x1234));
    assert_eq!(candidates.resolve(AddressWidth::Bits24), Err(DecodeError::Format));
}

#[test]
fn payload_length_is_count_less_overhead() {
    for (tag, address_digits, overhead) in [("S1", 4usize, 3usize), ("S2", 6, 4), ("S3", 8, 5)] {
        for count in overhead..=255usize {
            let mut text = format!("{}{:02X}", tag, count);
            text.push_str(&"0".repeat(address_digits));
            for k in 0..count - overhead {
                text.push_str(&format!("{:02X}", k % 256));
            }
            text.push_str("FF");
            let mut pos = 0usize;
            let record = read_record(text.as_bytes(), &mut pos).unwrap();
            assert_eq!(record.count as usize, count);
            assert_eq!(record.payload.len(), count - overhead);
            assert_eq!(pos, text.len());
            assert_eq!(pos, 4 + 2 * count);
        }
    }
}

#[test]
fn data_record_fields() {
    let mut pos = 0usize;
    let record = read_record(b"S1051234ABCD3C", &mut pos).unwrap();
    assert_eq!(
        record,
        Record {
            kind: RecordKind::Data(AddressWidth::Bits16),
            count: 5,
            address: 0x1234,
            payload: vec![0xAB, 0xCD],
        }
    );
    assert_eq!(pos, 14);
}

#[test]
fn records_are_read_one_after_the_other() {
    let buffer = b"S00600004844521BS2060ABCDE010200S9031234B6";
    let mut pos = 0usize;
    let header = read_record(buffer, &mut pos).unwrap();
    assert_eq!(
        header,
        Record { kind: RecordKind::Header, count: 6, address: 0, payload: vec![] }
    );
    assert_eq!(pos, 16);
    let data = read_record(buffer, &mut pos).unwrap();
    assert_eq!(
        data,
        Record {
            kind: RecordKind::Data(AddressWidth::Bits24),
            count: 6,
            address: 0x0ABCDE,
            payload: vec![1, 2],
        }
    );
    assert_eq!(pos, 32);
    let start = read_record(buffer, &mut pos).unwrap();
    assert_eq!(
        start,
        Record {
            kind: RecordKind::Start(AddressWidth::Bits16),
            count: 3,
            address: 0x1234,
            payload: vec![],
        }
    );
    assert_eq!(pos, buffer.len());
}

#[test]
fn start_record_reads_its_address_whatever_the_count() {
    let mut pos = 0usize;
    let record = read_record(b"S9001234", &mut pos).unwrap();
    assert_eq!(record.address, 0x1234);
    assert_eq!(record.count, 0);
    assert_eq!(pos, 4);
    let mut pos = 0usize;
    assert_eq!(read_record(b"S90012", &mut pos), Err(DecodeError::Bounds));
}

#[test]
fn failed_record_leaves_the_cursor() {
    let buffer = b"S1051234ABCD3CS1051234ABCZ3CS4";
    let mut pos = 14usize;
    assert_eq!(read_record(buffer, &mut pos), Err(DecodeError::Format));
    assert_eq!(pos, 14);
    let mut pos = 28usize;
    assert_eq!(read_record(buffer, &mut pos), Err(DecodeError::Bounds));
    assert_eq!(pos, 28);
    let mut pos = 30usize;
    assert_eq!(read_record(buffer, &mut pos), Err(DecodeError::Bounds));
    assert_eq!(pos, 30);
    let mut pos = 31usize;
    assert_eq!(read_record(buffer, &mut pos), Err(DecodeError::Bounds));
    assert_eq!(pos, 31);
}

#[test]
fn record_errors_in_their_order() {
    let mut pos = 0usize;
    assert_eq!(read_record(b"Q", &mut pos), Err(DecodeError::Bounds));
    assert_eq!(read_record(b"Q10", &mut pos), Err(DecodeError::Bounds));
    assert_eq!(read_record(b"Q1ZZ", &mut pos), Err(DecodeError::Format));
    assert_eq!(read_record(b"Q1FF", &mut pos), Err(DecodeError::UnsupportedRecord));
    assert_eq!(read_record(b"S1FF", &mut pos), Err(DecodeError::Bounds));
    assert_eq!(read_record(b"S101ZZ", &mut pos), Err(DecodeError::Format));
    assert_eq!(pos, 0);
}
