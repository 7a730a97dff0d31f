//! Round-trip laws: what the decoder yields when it is run on exactly what
//! the encoder produced.

use crate::signed::lemma_signed_round_trip;
use crate::signed::to_signed;
use crate::signed::to_unsigned;
use crate::varint::VarintOutcome;
use crate::varint::decode_varint32;
use crate::varint::decode_varint64;
use crate::varint::encode_7bit;
use crate::varint::lemma_decode_encode_7bit;
use crate::varint::lemma_varint32_round_trip;
use crate::varint::lemma_varint64_round_trip;
use crate::varint::pow128;
use vstd::prelude::*;
use vstd::utf8::decode_utf8;
use vstd::utf8::encode_utf8;
use vstd::utf8::valid_utf8;

verus! {

/// Law: the 32-bit variable-length integer format round-trips. Decoding
/// the encoding of any 32-bit signed value yields its unsigned wire value,
/// whose signed reading is the value again, and consumes exactly the
/// encoding, whatever bytes follow it.
pub proof fn lemma_varint32_signed_round_trip(v: i32, rest: Seq<u8>)
    ensures
        ({
            let wire = to_unsigned(v as int, 0x1_0000_0000);
            let enc = encode_7bit(wire as nat);
            &&& decode_varint32(enc + rest) == VarintOutcome::Value {
                value: wire as nat,
                len: enc.len(),
            }
            &&& to_signed(wire, 0x1_0000_0000) == v as int
        }),
{
    let wire = to_unsigned(v as int, 0x1_0000_0000);
    lemma_varint32_round_trip(wire as u32, rest);
    lemma_signed_round_trip(v as int, 0x1_0000_0000);
}

/// Law: the 64-bit variable-length integer format round-trips, exactly as
/// the 32-bit one does.
pub proof fn lemma_varint64_signed_round_trip(v: i64, rest: Seq<u8>)
    ensures
        ({
            let wire = to_unsigned(v as int, 0x1_0000_0000_0000_0000);
            let enc = encode_7bit(wire as nat);
            &&& decode_varint64(enc + rest) == VarintOutcome::Value {
                value: wire as nat,
                len: enc.len(),
            }
            &&& to_signed(wire, 0x1_0000_0000_0000_0000) == v as int
        }),
{
    let wire = to_unsigned(v as int, 0x1_0000_0000_0000_0000);
    lemma_varint64_round_trip(wire as u64, rest);
    lemma_signed_round_trip(v as int, 0x1_0000_0000_0000_0000);
}

/// Law: the length-prefixed string format round-trips for every text,
/// the empty text included. On the encoder's output — length prefix, then
/// UTF-8 payload — the decoder finds the length, the payload bytes are
/// valid UTF-8, and they decode to the original text, whatever bytes
/// follow them.
pub proof fn lemma_string_round_trip(text: Seq<char>, rest: Seq<u8>)
    requires
        encode_utf8(text).len() <= 0x7fff_ffff,
    ensures
        ({
            let payload = encode_utf8(text);
            let prefix = encode_7bit(payload.len());
            let stream = prefix + payload + rest;
            &&& decode_varint32(stream) == VarintOutcome::Value {
                value: payload.len(),
                len: prefix.len(),
            }
            &&& stream.subrange(
                prefix.len() as int,
                prefix.len() + payload.len() as int,
            ) == payload
            &&& valid_utf8(payload)
            &&& decode_utf8(payload) == text
        }),
{
    let payload = encode_utf8(text);
    let prefix = encode_7bit(payload.len());
    let stream = prefix + payload + rest;
    assert(pow128(4) * 0x10 == 0x1_0000_0000) by {
        reveal_with_fuel(pow128, 5);
    }
    lemma_decode_encode_7bit(payload.len(), payload + rest, 4, 0x0f);
    assert(stream =~= prefix + (payload + rest));
    assert(stream.subrange(prefix.len() as int, prefix.len() + payload.len() as int)
        =~= payload);
    vstd::utf8::encode_utf8_valid_utf8(text);
    vstd::utf8::encode_utf8_decode_utf8(text);
}

} // verus!
