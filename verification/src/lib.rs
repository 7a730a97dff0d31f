//! Binary codec primitives that reproduce the C#-style binary serialization
//! wire format: fixed-width little-endian integers, a length-prefixed UTF-8
//! string format, and a base-128 variable-length ("7-bit encoded") integer
//! scheme.
//!
//! [`BinaryReader`] decodes typed values from an in-memory byte buffer that
//! holds the fully drained contents of a byte source; [`BinaryWriter`]
//! encodes typed values into a growable byte sink. Every decode either
//! succeeds or reports a [`DataDecodeError`]; no partial value is ever
//! substituted, and consumed bytes are never rewound.

mod binaryreader;
mod binarywriter;
mod laws;
mod signed;
mod varint;

pub use binaryreader::BinaryReader;
pub use binaryreader::DataDecodeError;
pub use binarywriter::BinaryWriter;
pub use laws::lemma_string_round_trip;
pub use laws::lemma_varint32_signed_round_trip;
pub use laws::lemma_varint64_signed_round_trip;
pub use signed::to_signed;
pub use signed::to_unsigned;
pub use varint::VarintOutcome;
pub use varint::decode_7bit;
pub use varint::decode_varint32;
pub use varint::decode_varint64;
pub use varint::encode_7bit;
pub use varint::lemma_encode_single_byte;
pub use varint::lemma_varint32_round_trip;
pub use varint::lemma_varint64_round_trip;
pub use varint::pow128;
