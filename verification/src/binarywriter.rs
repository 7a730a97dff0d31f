//! The write side of the codec: a sequential encoder that appends the wire
//! encoding of typed values to a growable byte sink.

use crate::signed::i16_to_u16;
use crate::signed::i32_to_u32;
use crate::signed::i64_to_u64;
use crate::signed::i8_to_u8;
use crate::signed::to_unsigned;
use crate::varint::encode_7bit;
use crate::varint::lemma_encode_7bit_len;
use crate::varint::pow128;
use vstd::prelude::*;
use vstd::utf8::encode_scalar;
use vstd::utf8::encode_utf8;
use vstd::utf8::is_scalar;

verus! {

/// Writes typed values to a byte sink, in order.
///
/// The encoder appends to the buffer it was constructed with; the
/// surrounding code hands the accumulated bytes to the real sink.
pub struct BinaryWriter {
    output: Vec<u8>,
}

impl BinaryWriter {
    /// Every byte written to the sink so far, including those it already
    /// held at construction.
    pub closed spec fn written(&self) -> Seq<u8> {
        self.output@
    }

    /// Creates a writer that appends to the provided sink buffer.
    pub fn new(output: Vec<u8>) -> (r: Self)
        ensures
            r.written() == output@,
    {
        Self { output }
    }

    /// Hands back the sink buffer with everything written to it.
    pub fn into_inner(self) -> (r: Vec<u8>)
        ensures
            r@ == self.written(),
    {
        self.output
    }

    /// Writes a single byte. Returns how many bytes were written.
    pub fn write_byte(&mut self, data: u8) -> (r: usize)
        ensures
            final(self).written() == old(self).written().push(data),
            r == 1,
    {
        self.output.push(data);
        1
    }

    /// Writes the given bytes unchanged. Returns how many bytes were
    /// written.
    pub fn write_bytes(&mut self, data: &[u8]) -> (r: usize)
        ensures
            final(self).written() == old(self).written() + data@,
            r == data@.len(),
    {
        let num_bytes = data.len();
        let mut i: usize = 0;
        while i < num_bytes
            invariant
                i <= num_bytes,
                num_bytes == data@.len(),
                self.written() == old(self).written() + data@.take(i as int),
            decreases num_bytes - i,
        {
            let b = data[i];
            self.output.push(b);
            i = i + 1;
            proof {
                assert(self.written() =~= old(self).written() + data@.take(i as int));
            }
        }
        proof {
            assert(old(self).written() + data@.take(num_bytes as int) =~= old(self).written()
                + data@);
        }
        num_bytes
    }

    /// Appends the base-128 encoding of `value`: low seven bits first,
    /// high bit set on every byte but the last.
    fn write_7bit(&mut self, value: u64) -> (r: usize)
        ensures
            final(self).written() == old(self).written() + encode_7bit(value as nat),
            r == encode_7bit(value as nat).len(),
        decreases value,
    {
        if value < 0x80 {
            self.output.push(value as u8);
            proof {
                assert(self.written() =~= old(self).written() + encode_7bit(value as nat));
            }
            1
        } else {
            self.output.push((value % 0x80 + 0x80) as u8);
            let rest = self.write_7bit(value / 0x80);
            proof {
                reveal_with_fuel(pow128, 11);
                assert(pow128(10) > 0xffff_ffff_ffff_ffff);
                lemma_encode_7bit_len((value as nat) / 0x80, 10);
                assert(self.written() =~= old(self).written() + encode_7bit(value as nat));
            }
            1 + rest
        }
    }

    /// Encodes a 32-bit signed integer in the variable-length ("7-bit
    /// encoded") format: its unsigned 32-bit wire value, base 128.
    /// Returns how many bytes were written (1 to 5).
    pub fn write_7_bit_encoded_int(&mut self, data: i32) -> (r: usize)
        ensures
            final(self).written() == old(self).written() + encode_7bit(
                to_unsigned(data as int, 0x1_0000_0000) as nat,
            ),
            r == encode_7bit(to_unsigned(data as int, 0x1_0000_0000) as nat).len(),
    {
        let u = i32_to_u32(data);
        self.write_7bit(u as u64)
    }

    /// Encodes a 64-bit signed integer in the variable-length ("7-bit
    /// encoded") format: its unsigned 64-bit wire value, base 128.
    /// Returns how many bytes were written (1 to 10).
    pub fn write_7_bit_encoded_int64(&mut self, data: i64) -> (r: usize)
        ensures
            final(self).written() == old(self).written() + encode_7bit(
                to_unsigned(data as int, 0x1_0000_0000_0000_0000) as nat,
            ),
            r == encode_7bit(to_unsigned(data as int, 0x1_0000_0000_0000_0000) as nat).len(),
    {
        let u = i64_to_u64(data);
        self.write_7bit(u)
    }

    /// Encodes a boolean as one byte: `0x01` for true, `0x00` for false,
    /// regardless of how the host represents booleans in memory.
    pub fn write_boolean(&mut self, data: bool) -> (r: usize)
        ensures
            final(self).written() == old(self).written().push(
                if data {
                    1u8
                } else {
                    0u8
                },
            ),
            r == 1,
    {
        if data {
            self.write_byte(1)
        } else {
            self.write_byte(0)
        }
    }

    /// Encodes a string as a variable-length integer byte-length prefix
    /// followed by that many raw UTF-8 bytes, with no terminator.
    ///
    /// The wire format's length prefix is a 32-bit value, so the text's
    /// UTF-8 encoding must not be longer than `0x7fff_ffff` bytes.
    pub fn write_string(&mut self, data: &str) -> (r: usize)
        requires
            encode_utf8(data@).len() <= 0x7fff_ffff,
        ensures
            final(self).written() == old(self).written() + encode_7bit(encode_utf8(data@).len())
                + encode_utf8(data@),
            r == encode_7bit(encode_utf8(data@).len()).len() + encode_utf8(data@).len(),
    {
        let bytes: &[u8] = data.as_bytes();
        let num_bytes = bytes.len();
        let prefix = self.write_7bit(num_bytes as u64);
        proof {
            reveal_with_fuel(pow128, 6);
            lemma_encode_7bit_len(num_bytes as nat, 5);
        }
        let payload = self.write_bytes(bytes);
        proof {
            assert(old(self).written() + encode_7bit(num_bytes as nat) + bytes@ =~= self.written());
        }
        prefix + payload
    }

    /// Encodes an 8-bit signed integer as its one wire byte.
    pub fn write_i8(&mut self, data: i8) -> (r: usize)
        ensures
            final(self).written() == old(self).written().push(
                to_unsigned(data as int, 0x100) as u8,
            ),
            r == 1,
    {
        self.write_byte(i8_to_u8(data))
    }

    /// Encodes a 16-bit signed integer as two little-endian bytes.
    pub fn write_i16(&mut self, data: i16) -> (r: usize)
        ensures
            final(self).written() == old(self).written() + vstd::bytes::spec_u16_to_le_bytes(
                to_unsigned(data as int, 0x1_0000) as u16,
            ),
            r == 2,
    {
        self.write_u16(i16_to_u16(data))
    }

    /// Encodes a 32-bit signed integer as four little-endian bytes.
    pub fn write_i32(&mut self, data: i32) -> (r: usize)
        ensures
            final(self).written() == old(self).written() + vstd::bytes::spec_u32_to_le_bytes(
                to_unsigned(data as int, 0x1_0000_0000) as u32,
            ),
            r == 4,
    {
        self.write_u32(i32_to_u32(data))
    }

    /// Encodes a 64-bit signed integer as eight little-endian bytes.
    pub fn write_i64(&mut self, data: i64) -> (r: usize)
        ensures
            final(self).written() == old(self).written() + vstd::bytes::spec_u64_to_le_bytes(
                to_unsigned(data as int, 0x1_0000_0000_0000_0000) as u64,
            ),
            r == 8,
    {
        self.write_u64(i64_to_u64(data))
    }

    /// Encodes a 16-bit unsigned integer as two little-endian bytes.
    pub fn write_u16(&mut self, data: u16) -> (r: usize)
        ensures
            final(self).written() == old(self).written() + vstd::bytes::spec_u16_to_le_bytes(data),
            r == 2,
    {
        let b = vstd::bytes::u16_to_le_bytes(data);
        self.write_bytes(b.as_slice())
    }

    /// Encodes a 32-bit unsigned integer as four little-endian bytes.
    pub fn write_u32(&mut self, data: u32) -> (r: usize)
        ensures
            final(self).written() == old(self).written() + vstd::bytes::spec_u32_to_le_bytes(data),
            r == 4,
    {
        let b = vstd::bytes::u32_to_le_bytes(data);
        self.write_bytes(b.as_slice())
    }

    /// Encodes a 64-bit unsigned integer as eight little-endian bytes.
    pub fn write_u64(&mut self, data: u64) -> (r: usize)
        ensures
            final(self).written() == old(self).written() + vstd::bytes::spec_u64_to_le_bytes(data),
            r == 8,
    {
        let b = vstd::bytes::u64_to_le_bytes(data);
        self.write_bytes(b.as_slice())
    }

    /// Encodes a character as its 1 to 4 UTF-8 bytes, with no length
    /// prefix.
    pub fn write_char(&mut self, data: char) -> (r: usize)
        ensures
            final(self).written() == old(self).written() + encode_scalar(data as u32),
            r == encode_scalar(data as u32).len(),
    {
        let v = data as u32;
        proof {
            vstd::utf8::char_is_scalar(data);
        }
        if v < 0x80 {
            self.output.push((v & 0x7f) as u8);
            proof {
                assert(self.written() =~= old(self).written() + encode_scalar(v));
            }
            1
        } else if v < 0x800 {
            proof {
                assert(((v >> 6) & 0x1f) < 0x100 && (v & 0x3f) < 0x100) by (bit_vector);
            }
            self.output.push(0xc0 | (((v >> 6) & 0x1f) as u8));
            self.output.push(0x80 | ((v & 0x3f) as u8));
            proof {
                assert(self.written() =~= old(self).written() + encode_scalar(v));
            }
            2
        } else if v < 0x10000 {
            proof {
                assert(((v >> 12) & 0x0f) < 0x100 && ((v >> 6) & 0x3f) < 0x100 && (v & 0x3f)
                    < 0x100) by (bit_vector);
            }
            self.output.push(0xe0 | (((v >> 12) & 0x0f) as u8));
            self.output.push(0x80 | (((v >> 6) & 0x3f) as u8));
            self.output.push(0x80 | ((v & 0x3f) as u8));
            proof {
                assert(self.written() =~= old(self).written() + encode_scalar(v));
            }
            3
        } else {
            proof {
                assert(((v >> 18) & 0x07) < 0x100 && ((v >> 12) & 0x3f) < 0x100 && ((v >> 6)
                    & 0x3f) < 0x100 && (v & 0x3f) < 0x100) by (bit_vector);
            }
            self.output.push(0xf0 | (((v >> 18) & 0x07) as u8));
            self.output.push(0x80 | (((v >> 12) & 0x3f) as u8));
            self.output.push(0x80 | (((v >> 6) & 0x3f) as u8));
            self.output.push(0x80 | ((v & 0x3f) as u8));
            proof {
                assert(self.written() =~= old(self).written() + encode_scalar(v));
            }
            4
        }
    }
}

} // verus!
