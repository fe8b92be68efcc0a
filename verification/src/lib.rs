//! Decoder for Motorola S-Record images.
//!
//! An S-Record file is ASCII text: a sequence of records, each made of a
//! two-character tag (`S0` .. `S9`), a two-digit hexadecimal byte count, and
//! that many bytes written as pairs of hexadecimal digits. [`read_srec`] turns
//! the whole text into an entry address and the list of data segments, in file
//! order.
//!
//! Every function here is verified against a mathematical description of the
//! format: see [`decode::decode_spec`] for the meaning of a whole buffer and
//! [`record::record_at`] for that of a single record. No function panics, and
//! none asks anything of its arguments: what cannot be decoded is an error.
//!
//! What the decoder settles where the format leaves room:
//!
//! - Carriage returns and line feeds between records are passed over. Nothing
//!   else may stand between two records.
//! - Hexadecimal digits may be of either letter case. A sign is no digit.
//! - The checksum of a data record must be written in hexadecimal digits, but
//!   its value is not compared with the sum of the record.
//! - Once the tag of a record is known and its count has been read, a record
//!   that the buffer does not hold in full is a bounds error, also where the
//!   part of its body that is there is malformed. A count that is not
//!   hexadecimal, and after it a tag that is not known, are found first.
//! - Segments are not merged, sorted or de-duplicated.

pub mod cursor;
pub mod decode;
pub mod error;
pub mod hex;
pub mod laws;
pub mod record;
pub mod text;

pub use error::DecodeError;
pub use decode::{read_srec, Image, Segment};
