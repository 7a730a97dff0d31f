//! The read side of the codec: a sequential decoder over an in-memory byte
//! buffer that holds the fully drained contents of a byte source.
//!
//! Bytes are consumed strictly in order; once a decode has consumed a byte
//! it is never un-read, and peeking never advances the stream.

use crate::signed::to_signed;
use crate::signed::u16_to_i16;
use crate::signed::u32_to_i32;
use crate::signed::u64_to_i64;
use crate::signed::u8_to_i8;
use crate::varint::VarintOutcome;
use crate::varint::decode_7bit;
use crate::varint::decode_varint32;
use crate::varint::decode_varint64;
use crate::varint::lemma_decode_value_bound;
use crate::varint::lemma_pow128_lower_bound;
use crate::varint::pow128;
use vstd::prelude::*;
use vstd::utf8::codepoint_width_1;
use vstd::utf8::codepoint_width_2;
use vstd::utf8::codepoint_width_3;
use vstd::utf8::codepoint_width_4;
use vstd::utf8::decode_first_scalar;
use vstd::utf8::decode_utf8;
use vstd::utf8::is_scalar;
use vstd::utf8::length_of_first_scalar;
use vstd::utf8::valid_first_scalar;
use vstd::utf8::valid_utf8;

verus! {

/// Why a decode failed.
///
/// Transport failures and data-shape failures are sibling variants of this
/// one error type, so no decode result ever nests one error inside another.
#[derive(Clone, Copy, PartialEq, Eq, Structural, Hash, Debug)]
pub enum DataDecodeError {
    /// The underlying byte source or sink reported an I/O failure. The
    /// decoder itself never produces this variant, because it works on an
    /// already drained buffer; the surrounding code that drains a source
    /// reports its failures with it.
    IO,
    /// The source was exhausted before enough bytes for the requested
    /// value had accumulated.
    NotEnoughBytes,
    /// A variable-length integer's final byte exceeded the legal bound for
    /// the target width; the encoded value does not fit.
    IntegerOverflow,
    /// The decoded bytes do not form valid UTF-8 text, or do not form
    /// exactly one Unicode scalar value.
    InvalidUtf8,
}

/// Reads typed values from the front of a byte buffer, in order.
///
/// The constructor takes the fully drained contents of the byte source;
/// every decode operation consumes bytes from the front of what remains.
pub struct BinaryReader {
    buf: Vec<u8>,
    pos: usize,
}

impl BinaryReader {
    /// The bytes not yet consumed, in the order they will be read.
    pub closed spec fn remaining(&self) -> Seq<u8> {
        self.buf@.skip(self.pos as int)
    }

    /// How many bytes decode operations have consumed so far.
    pub closed spec fn consumed(&self) -> nat {
        self.pos as nat
    }

    /// The cursor never runs past the end of the buffer.
    pub closed spec fn wf(&self) -> bool {
        self.pos <= self.buf@.len()
    }

    /// Creates a reader over the given bytes, which are the fully drained
    /// contents of the byte source.
    pub fn new(input: Vec<u8>) -> (r: Self)
        ensures
            r.wf(),
            r.remaining() == input@,
            r.consumed() == 0,
    {
        let r = Self { buf: input, pos: 0 };
        proof {
            assert(r.remaining() =~= r.buf@);
        }
        r
    }

    /// The total number of bytes consumed from the input so far. Peeks do
    /// not count; only consuming decodes do.
    pub fn num_bytes_read(&self) -> (r: u64)
        ensures
            r as nat == self.consumed(),
    {
        self.pos as u64
    }

    /// Reads one byte from the stream.
    pub fn read_byte(&mut self) -> (r: Result<u8, DataDecodeError>)
        requires
            old(self).wf(),
        ensures
            final(self).wf(),
            old(self).remaining().len() >= 1 ==> {
                &&& r matches Ok(b) && b == old(self).remaining()[0]
                &&& final(self).remaining() == old(self).remaining().drop_first()
                &&& final(self).consumed() == old(self).consumed() + 1
            },
            old(self).remaining().len() == 0 ==> {
                &&& r matches Err(e) && e == DataDecodeError::NotEnoughBytes
                &&& *final(self) == *old(self)
            },
    {
        if self.pos < self.buf.len() {
            let b = self.buf[self.pos];
            self.pos = self.pos + 1;
            proof {
                assert(final(self).remaining() =~= old(self).remaining().drop_first());
            }
            Ok(b)
        } else {
            Err(DataDecodeError::NotEnoughBytes)
        }
    }

    /// Reads the specified number of bytes. When fewer bytes remain, fails
    /// with [`DataDecodeError::NotEnoughBytes`] and consumes nothing.
    pub fn read_bytes(&mut self, num_bytes: usize) -> (r: Result<Vec<u8>, DataDecodeError>)
        requires
            old(self).wf(),
        ensures
            final(self).wf(),
            num_bytes <= old(self).remaining().len() ==> {
                &&& r matches Ok(v) && v@ == old(self).remaining().take(num_bytes as int)
                &&& final(self).remaining() == old(self).remaining().skip(num_bytes as int)
                &&& final(self).consumed() == old(self).consumed() + num_bytes
            },
            num_bytes > old(self).remaining().len() ==> {
                &&& r matches Err(e) && e == DataDecodeError::NotEnoughBytes
                &&& *final(self) == *old(self)
            },
    {
        if !self.ensure_internal_buffer_size(num_bytes) {
            return Err(DataDecodeError::NotEnoughBytes);
        }
        let mut out: Vec<u8> = Vec::new();
        let mut i: usize = 0;
        while i < num_bytes
            invariant
                self == old(self),
                self.wf(),
                i <= num_bytes,
                num_bytes <= self.remaining().len(),
                self.pos + num_bytes <= self.buf.len(),
                out@ == self.remaining().take(i as int),
            decreases num_bytes - i,
        {
            out.push(self.buf[self.pos + i]);
            i = i + 1;
            proof {
                assert(out@ =~= self.remaining().take(i as int));
            }
        }
        proof {
            assert(self.pos + num_bytes <= self.buf.len());
        }
        self.pos = self.pos + num_bytes;
        proof {
            assert(final(self).remaining() =~= old(self).remaining().skip(num_bytes as int));
        }
        Ok(out)
    }

    /// True when at least `min_size` bytes are still available. The whole
    /// source is drained into the buffer at construction, so no further
    /// pull can make more bytes available.
    fn ensure_internal_buffer_size(&self, min_size: usize) -> (r: bool)
        requires
            self.wf(),
        ensures
            r == (min_size <= self.remaining().len()),
    {
        min_size <= self.buf.len() - self.pos
    }

    /// Decodes a variable-length integer with `budget` full payload bytes
    /// and a final byte of at most `bound`, combining the payloads from the
    /// least significant end exactly as [`decode_7bit`] describes.
    fn read_7bit(&mut self, budget: usize, bound: u8) -> (r: Result<u64, DataDecodeError>)
        requires
            old(self).wf(),
            bound < 0x80,
            pow128(budget as nat) * (bound as nat + 1) <= 0x1_0000_0000_0000_0000,
        ensures
            final(self).wf(),
            match decode_7bit(old(self).remaining(), budget as nat, bound) {
                VarintOutcome::Value { value, len } => {
                    &&& r matches Ok(v) && v as nat == value
                    &&& final(self).remaining() == old(self).remaining().skip(len as int)
                    &&& final(self).consumed() == old(self).consumed() + len
                },
                VarintOutcome::Overflow => {
                    &&& r matches Err(e) && e == DataDecodeError::IntegerOverflow
                    &&& final(self).remaining() == old(self).remaining().skip(budget as int + 1)
                    &&& final(self).consumed() == old(self).consumed() + budget + 1
                },
                VarintOutcome::Short => {
                    &&& r matches Err(e) && e == DataDecodeError::NotEnoughBytes
                    &&& final(self).remaining() == Seq::<u8>::empty()
                    &&& final(self).consumed() == old(self).consumed() + old(
                        self,
                    ).remaining().len()
                },
            },
        decreases budget,
    {
        let ghost s = old(self).remaining();
        let b = match self.read_byte() {
            Err(e) => {
                proof {
                    assert(self.remaining() =~= Seq::<u8>::empty());
                }
                return Err(e);
            },
            Ok(b) => b,
        };
        if budget == 0 {
            if b > bound {
                Err(DataDecodeError::IntegerOverflow)
            } else {
                proof {
                    assert(s.drop_first() =~= s.skip(1));
                }
                Ok(b as u64)
            }
        } else if b < 0x80 {
            proof {
                assert(s.drop_first() =~= s.skip(1));
            }
            Ok(b as u64)
        } else {
            let ghost s1 = self.remaining();
            proof {
                assert(s1 == s.drop_first());
                let p = pow128((budget - 1) as nat) as int;
                let q = pow128(budget as nat) as int;
                let bb = bound as int + 1;
                assert(q == 128 * p);
                lemma_pow128_lower_bound((budget - 1) as nat);
                assert(p * bb <= q * bb) by (nonlinear_arith)
                    requires
                        q == 128 * p,
                        p >= 1,
                        bb >= 1,
                ;
            }
            match self.read_7bit(budget - 1, bound) {
                Err(e) => {
                    proof {
                        if decode_7bit(s1, (budget - 1) as nat, bound) is Overflow {
                            lemma_decode_value_bound(s1, (budget - 1) as nat, bound);
                            assert(s1.skip(budget as int) =~= s.skip(budget as int + 1));
                        }
                    }
                    Err(e)
                },
                Ok(v) => {
                    proof {
                        lemma_decode_value_bound(s1, (budget - 1) as nat, bound);
                        let p = pow128((budget - 1) as nat) as int;
                        let q = pow128(budget as nat) as int;
                        let bb = bound as int + 1;
                        assert(0x80 * (v as int) + 0x7f < q * bb) by (nonlinear_arith)
                            requires
                                (v as int) < p * bb,
                                q == 128 * p,
                                bb >= 1,
                                p >= 0,
                        ;
                        if let VarintOutcome::Value { value, len } = decode_7bit(
                            s1,
                            (budget - 1) as nat,
                            bound,
                        ) {
                            assert(s1.skip(len as int) =~= s.skip(len as int + 1));
                        }
                    }
                    Ok((b - 0x80) as u64 + 0x80 * v)
                },
            }
        }
    }

    /// Decodes a 32-bit variable-length ("7-bit encoded") integer.
    ///
    /// Fails with [`DataDecodeError::IntegerOverflow`] when the encoded
    /// value does not fit within 32 bits; the encoding's bytes are consumed
    /// even then. Fails with [`DataDecodeError::NotEnoughBytes`] when the
    /// source ends while a continuation bit is still set, consuming what
    /// was left.
    pub fn read_7_bit_encoded_int(&mut self) -> (r: Result<i32, DataDecodeError>)
        requires
            old(self).wf(),
        ensures
            final(self).wf(),
            match decode_varint32(old(self).remaining()) {
                VarintOutcome::Value { value, len } => {
                    &&& r matches Ok(v) && v as int == to_signed(value as int, 0x1_0000_0000)
                    &&& final(self).remaining() == old(self).remaining().skip(len as int)
                    &&& final(self).consumed() == old(self).consumed() + len
                },
                VarintOutcome::Overflow => {
                    &&& r matches Err(e) && e == DataDecodeError::IntegerOverflow
                    &&& final(self).remaining() == old(self).remaining().skip(5)
                    &&& final(self).consumed() == old(self).consumed() + 5
                },
                VarintOutcome::Short => {
                    &&& r matches Err(e) && e == DataDecodeError::NotEnoughBytes
                    &&& final(self).remaining() == Seq::<u8>::empty()
                    &&& final(self).consumed() == old(self).consumed() + old(
                        self,
                    ).remaining().len()
                },
            },
    {
        proof {
            reveal_with_fuel(pow128, 6);
        }
        match self.read_7bit(4, 0x0f) {
            Err(e) => Err(e),
            Ok(v) => {
                proof {
                    lemma_decode_value_bound(old(self).remaining(), 4, 0x0f);
                }
                Ok(u32_to_i32(v as u32))
            },
        }
    }

    /// Decodes a 64-bit variable-length ("7-bit encoded") integer.
    ///
    /// Fails with [`DataDecodeError::IntegerOverflow`] when the encoded
    /// value does not fit within 64 bits; the encoding's bytes are consumed
    /// even then. Fails with [`DataDecodeError::NotEnoughBytes`] when the
    /// source ends while a continuation bit is still set, consuming what
    /// was left.
    pub fn read_7_bit_encoded_int64(&mut self) -> (r: Result<i64, DataDecodeError>)
        requires
            old(self).wf(),
        ensures
            final(self).wf(),
            match decode_varint64(old(self).remaining()) {
                VarintOutcome::Value { value, len } => {
                    &&& r matches Ok(v) && v as int == to_signed(
                        value as int,
                        0x1_0000_0000_0000_0000,
                    )
                    &&& final(self).remaining() == old(self).remaining().skip(len as int)
                    &&& final(self).consumed() == old(self).consumed() + len
                },
                VarintOutcome::Overflow => {
                    &&& r matches Err(e) && e == DataDecodeError::IntegerOverflow
                    &&& final(self).remaining() == old(self).remaining().skip(10)
                    &&& final(self).consumed() == old(self).consumed() + 10
                },
                VarintOutcome::Short => {
                    &&& r matches Err(e) && e == DataDecodeError::NotEnoughBytes
                    &&& final(self).remaining() == Seq::<u8>::empty()
                    &&& final(self).consumed() == old(self).consumed() + old(
                        self,
                    ).remaining().len()
                },
            },
    {
        proof {
            reveal_with_fuel(pow128, 11);
            assert(pow128(9) == 0x8000_0000_0000_0000);
        }
        match self.read_7bit(9, 0x01) {
            Err(e) => Err(e),
            Ok(v) => Ok(u64_to_i64(v)),
        }
    }

    /// Decodes one byte as a boolean: zero is `false`, anything else is
    /// `true`.
    pub fn read_boolean(&mut self) -> (r: Result<bool, DataDecodeError>)
        requires
            old(self).wf(),
        ensures
            final(self).wf(),
            old(self).remaining().len() >= 1 ==> {
                &&& r matches Ok(b) && b == (old(self).remaining()[0] != 0)
                &&& final(self).remaining() == old(self).remaining().drop_first()
                &&& final(self).consumed() == old(self).consumed() + 1
            },
            old(self).remaining().len() == 0 ==> {
                &&& r matches Err(e) && e == DataDecodeError::NotEnoughBytes
                &&& *final(self) == *old(self)
            },
    {
        match self.read_byte() {
            Err(e) => Err(e),
            Ok(b) => Ok(b != 0),
        }
    }

    /// Decodes an 8-bit signed integer from one byte.
    pub fn read_i8(&mut self) -> (r: Result<i8, DataDecodeError>)
        requires
            old(self).wf(),
        ensures
            final(self).wf(),
            old(self).remaining().len() >= 1 ==> {
                &&& r matches Ok(x) && x as int == to_signed(
                    old(self).remaining()[0] as int,
                    0x100,
                )
                &&& final(self).remaining() == old(self).remaining().drop_first()
                &&& final(self).consumed() == old(self).consumed() + 1
            },
            old(self).remaining().len() == 0 ==> {
                &&& r matches Err(e) && e == DataDecodeError::NotEnoughBytes
                &&& *final(self) == *old(self)
            },
    {
        match self.read_byte() {
            Err(e) => Err(e),
            Ok(b) => Ok(u8_to_i8(b)),
        }
    }

    /// Decodes a 16-bit signed integer from two little-endian bytes.
    pub fn read_i16(&mut self) -> (r: Result<i16, DataDecodeError>)
        requires
            old(self).wf(),
        ensures
            final(self).wf(),
            old(self).remaining().len() >= 2 ==> {
                &&& r matches Ok(x) && x as int == to_signed(
                    vstd::bytes::spec_u16_from_le_bytes(old(self).remaining().take(2)) as int,
                    0x1_0000,
                )
                &&& final(self).remaining() == old(self).remaining().skip(2)
                &&& final(self).consumed() == old(self).consumed() + 2
            },
            old(self).remaining().len() < 2 ==> {
                &&& r matches Err(e) && e == DataDecodeError::NotEnoughBytes
                &&& *final(self) == *old(self)
            },
    {
        match self.read_bytes(2) {
            Err(e) => Err(e),
            Ok(v) => Ok(u16_to_i16(vstd::bytes::u16_from_le_bytes(v.as_slice()))),
        }
    }

    /// Decodes a 32-bit signed integer from four little-endian bytes.
    pub fn read_i32(&mut self) -> (r: Result<i32, DataDecodeError>)
        requires
            old(self).wf(),
        ensures
            final(self).wf(),
            old(self).remaining().len() >= 4 ==> {
                &&& r matches Ok(x) && x as int == to_signed(
                    vstd::bytes::spec_u32_from_le_bytes(old(self).remaining().take(4)) as int,
                    0x1_0000_0000,
                )
                &&& final(self).remaining() == old(self).remaining().skip(4)
                &&& final(self).consumed() == old(self).consumed() + 4
            },
            old(self).remaining().len() < 4 ==> {
                &&& r matches Err(e) && e == DataDecodeError::NotEnoughBytes
                &&& *final(self) == *old(self)
            },
    {
        match self.read_bytes(4) {
            Err(e) => Err(e),
            Ok(v) => Ok(u32_to_i32(vstd::bytes::u32_from_le_bytes(v.as_slice()))),
        }
    }

    /// Decodes a 64-bit signed integer from eight little-endian bytes.
    pub fn read_i64(&mut self) -> (r: Result<i64, DataDecodeError>)
        requires
            old(self).wf(),
        ensures
            final(self).wf(),
            old(self).remaining().len() >= 8 ==> {
                &&& r matches Ok(x) && x as int == to_signed(
                    vstd::bytes::spec_u64_from_le_bytes(old(self).remaining().take(8)) as int,
                    0x1_0000_0000_0000_0000,
                )
                &&& final(self).remaining() == old(self).remaining().skip(8)
                &&& final(self).consumed() == old(self).consumed() + 8
            },
            old(self).remaining().len() < 8 ==> {
                &&& r matches Err(e) && e == DataDecodeError::NotEnoughBytes
                &&& *final(self) == *old(self)
            },
    {
        match self.read_bytes(8) {
            Err(e) => Err(e),
            Ok(v) => Ok(u64_to_i64(vstd::bytes::u64_from_le_bytes(v.as_slice()))),
        }
    }

    /// Decodes a 16-bit unsigned integer from two little-endian bytes.
    pub fn read_u16(&mut self) -> (r: Result<u16, DataDecodeError>)
        requires
            old(self).wf(),
        ensures
            final(self).wf(),
            old(self).remaining().len() >= 2 ==> {
                &&& r matches Ok(x) && x == vstd::bytes::spec_u16_from_le_bytes(
                    old(self).remaining().take(2),
                )
                &&& final(self).remaining() == old(self).remaining().skip(2)
                &&& final(self).consumed() == old(self).consumed() + 2
            },
            old(self).remaining().len() < 2 ==> {
                &&& r matches Err(e) && e == DataDecodeError::NotEnoughBytes
                &&& *final(self) == *old(self)
            },
    {
        match self.read_bytes(2) {
            Err(e) => Err(e),
            Ok(v) => Ok(vstd::bytes::u16_from_le_bytes(v.as_slice())),
        }
    }

    /// Decodes a 32-bit unsigned integer from four little-endian bytes.
    pub fn read_u32(&mut self) -> (r: Result<u32, DataDecodeError>)
        requires
            old(self).wf(),
        ensures
            final(self).wf(),
            old(self).remaining().len() >= 4 ==> {
                &&& r matches Ok(x) && x == vstd::bytes::spec_u32_from_le_bytes(
                    old(self).remaining().take(4),
                )
                &&& final(self).remaining() == old(self).remaining().skip(4)
                &&& final(self).consumed() == old(self).consumed() + 4
            },
            old(self).remaining().len() < 4 ==> {
                &&& r matches Err(e) && e == DataDecodeError::NotEnoughBytes
                &&& *final(self) == *old(self)
            },
    {
        match self.read_bytes(4) {
            Err(e) => Err(e),
            Ok(v) => Ok(vstd::bytes::u32_from_le_bytes(v.as_slice())),
        }
    }

    /// Decodes a 64-bit unsigned integer from eight little-endian bytes.
    pub fn read_u64(&mut self) -> (r: Result<u64, DataDecodeError>)
        requires
            old(self).wf(),
        ensures
            final(self).wf(),
            old(self).remaining().len() >= 8 ==> {
                &&& r matches Ok(x) && x == vstd::bytes::spec_u64_from_le_bytes(
                    old(self).remaining().take(8),
                )
                &&& final(self).remaining() == old(self).remaining().skip(8)
                &&& final(self).consumed() == old(self).consumed() + 8
            },
            old(self).remaining().len() < 8 ==> {
                &&& r matches Err(e) && e == DataDecodeError::NotEnoughBytes
                &&& *final(self) == *old(self)
            },
    {
        match self.read_bytes(8) {
            Err(e) => Err(e),
            Ok(v) => Ok(vstd::bytes::u64_from_le_bytes(v.as_slice())),
        }
    }

    /// Decodes a length-prefixed UTF-8 string: a 32-bit variable-length
    /// integer gives the byte length, and exactly that many bytes follow as
    /// UTF-8 text with no terminator.
    ///
    /// A length prefix that does not fit the 32-bit format, or that names a
    /// negative length, fails with [`DataDecodeError::IntegerOverflow`];
    /// payload bytes that are not valid UTF-8 fail with
    /// [`DataDecodeError::InvalidUtf8`]. The prefix bytes, and on a UTF-8
    /// failure the payload bytes too, stay consumed: a failed string decode
    /// leaves the stream advanced.
    pub fn read_string(&mut self) -> (r: Result<String, DataDecodeError>)
        requires
            old(self).wf(),
        ensures
            final(self).wf(),
            ({
                let s = old(self).remaining();
                match decode_varint32(s) {
                    VarintOutcome::Value { value, len } => {
                        if value >= 0x8000_0000 {
                            &&& r matches Err(e) && e == DataDecodeError::IntegerOverflow
                            &&& final(self).remaining() == s.skip(len as int)
                            &&& final(self).consumed() == old(self).consumed() + len
                        } else if len + value > s.len() {
                            &&& r matches Err(e) && e == DataDecodeError::NotEnoughBytes
                            &&& final(self).remaining() == s.skip(len as int)
                            &&& final(self).consumed() == old(self).consumed() + len
                        } else if valid_utf8(s.subrange(len as int, (len + value) as int)) {
                            &&& r matches Ok(st) && st@ == decode_utf8(
                                s.subrange(len as int, (len + value) as int),
                            )
                            &&& final(self).remaining() == s.skip((len + value) as int)
                            &&& final(self).consumed() == old(self).consumed() + len + value
                        } else {
                            &&& r matches Err(e) && e == DataDecodeError::InvalidUtf8
                            &&& final(self).remaining() == s.skip((len + value) as int)
                            &&& final(self).consumed() == old(self).consumed() + len + value
                        }
                    },
                    VarintOutcome::Overflow => {
                        &&& r matches Err(e) && e == DataDecodeError::IntegerOverflow
                        &&& final(self).remaining() == s.skip(5)
                        &&& final(self).consumed() == old(self).consumed() + 5
                    },
                    VarintOutcome::Short => {
                        &&& r matches Err(e) && e == DataDecodeError::NotEnoughBytes
                        &&& final(self).remaining() == Seq::<u8>::empty()
                        &&& final(self).consumed() == old(self).consumed() + s.len()
                    },
                }
            }),
    {
        let ghost s = old(self).remaining();
        proof {
            reveal_with_fuel(pow128, 6);
        }
        let n64 = match self.read_7bit(4, 0x0f) {
            Err(e) => {
                return Err(e);
            },
            Ok(v) => v,
        };
        proof {
            lemma_decode_value_bound(s, 4, 0x0f);
        }
        if n64 >= 0x8000_0000 {
            return Err(DataDecodeError::IntegerOverflow);
        }
        let num_bytes = n64 as usize;
        let ghost prefix_len: nat = match decode_varint32(s) {
            VarintOutcome::Value { len, .. } => len,
            _ => 0,
        };
        let bytes = match self.read_bytes(num_bytes) {
            Err(e) => {
                return Err(e);
            },
            Ok(b) => b,
        };
        proof {
            assert(bytes@ =~= s.subrange(
                prefix_len as int,
                prefix_len as int + num_bytes as int,
            ));
            assert(self.remaining() =~= s.skip(prefix_len as int + num_bytes as int));
        }
        match string_from_utf8(bytes) {
            Some(st) => Ok(st),
            None => Err(DataDecodeError::InvalidUtf8),
        }
    }

    /// Decodes exactly one Unicode scalar value from its 1 to 4 byte UTF-8
    /// encoding, reading one byte at a time until the bytes read so far
    /// form one complete character.
    ///
    /// When the bytes cannot begin any character, bytes are read until
    /// four are consumed in all, and the decode fails with
    /// [`DataDecodeError::InvalidUtf8`]; when the source ends first, it
    /// fails with [`DataDecodeError::NotEnoughBytes`]. Either way the
    /// bytes read stay consumed.
    pub fn read_char(&mut self) -> (r: Result<char, DataDecodeError>)
        requires
            old(self).wf(),
        ensures
            final(self).wf(),
            valid_first_scalar(old(self).remaining()) ==> ({
                let s = old(self).remaining();
                &&& r matches Ok(c) && c as u32 == decode_first_scalar(s)
                &&& final(self).remaining() == s.skip(length_of_first_scalar(s))
                &&& final(self).consumed() == old(self).consumed() + length_of_first_scalar(s)
            }),
            !valid_first_scalar(old(self).remaining()) && old(self).remaining().len() >= 4 ==> {
                &&& r matches Err(e) && e == DataDecodeError::InvalidUtf8
                &&& final(self).remaining() == old(self).remaining().skip(4)
                &&& final(self).consumed() == old(self).consumed() + 4
            },
            !valid_first_scalar(old(self).remaining()) && old(self).remaining().len() < 4 ==> {
                &&& r matches Err(e) && e == DataDecodeError::NotEnoughBytes
                &&& final(self).remaining() == Seq::<u8>::empty()
                &&& final(self).consumed() == old(self).consumed() + old(self).remaining().len()
            },
    {
        let ghost s = old(self).remaining();
        let b0 = match self.read_byte() {
            Err(e) => {
                proof {
                    assert(self.remaining() =~= Seq::<u8>::empty());
                }
                return Err(e);
            },
            Ok(b) => b,
        };
        if b0 < 0x80 {
            // One-byte encoding: the byte is the scalar value.
            proof {
                assert(codepoint_width_1(b0) == b0 as u32) by (bit_vector)
                    requires
                        b0 < 0x80,
                ;
                assert(length_of_first_scalar(s) == 1);
                assert(s.drop_first() =~= s.skip(1));
            }
            return Ok(char_from_scalar(b0 as u32));
        }
        if b0 < 0xc0 {
            // A continuation byte cannot lead a character.
            return self.fail_char(1, Ghost(s));
        }
        if b0 < 0xe0 {
            // Two-byte encoding.
            let b1 = match self.read_byte() {
                Err(e) => {
                    proof {
                        assert(self.remaining() =~= Seq::<u8>::empty());
                    }
                    return Err(e);
                },
                Ok(b) => b,
            };
            if !(0x80 <= b1 && b1 < 0xc0) {
                return self.fail_char(2, Ghost(s));
            }
            let cp: u32 = (((b0 & 0x1f) as u32) << 6) | ((b1 & 0x3f) as u32);
            proof {
                assert(cp == codepoint_width_2(b0, b1));
                assert(cp <= 0x7ff) by (bit_vector)
                    requires
                        cp == (((b0 & 0x1f) as u32) << 6) | ((b1 & 0x3f) as u32),
                ;
            }
            if cp < 0x80 {
                // Overlong two-byte encoding of a one-byte value.
                return self.fail_char(2, Ghost(s));
            }
            proof {
                assert(length_of_first_scalar(s) == 2);
                assert(s.drop_first().drop_first() =~= s.skip(2));
            }
            return Ok(char_from_scalar(cp));
        }
        if b0 < 0xf0 {
            // Three-byte encoding.
            let b1 = match self.read_byte() {
                Err(e) => {
                    proof {
                        assert(self.remaining() =~= Seq::<u8>::empty());
                    }
                    return Err(e);
                },
                Ok(b) => b,
            };
            if !(0x80 <= b1 && b1 < 0xc0) {
                return self.fail_char(2, Ghost(s));
            }
            let b2 = match self.read_byte() {
                Err(e) => {
                    proof {
                        assert(self.remaining() =~= Seq::<u8>::empty());
                    }
                    return Err(e);
                },
                Ok(b) => b,
            };
            if !(0x80 <= b2 && b2 < 0xc0) {
                return self.fail_char(3, Ghost(s));
            }
            let cp: u32 = (((b0 & 0x0f) as u32) << 12) | (((b1 & 0x3f) as u32) << 6) | ((b2
                & 0x3f) as u32);
            proof {
                assert(cp == codepoint_width_3(b0, b1, b2));
                assert(cp <= 0xffff) by (bit_vector)
                    requires
                        cp == (((b0 & 0x0f) as u32) << 12) | (((b1 & 0x3f) as u32) << 6) | ((b2
                            & 0x3f) as u32),
                ;
            }
            if cp < 0x800 {
                // Overlong three-byte encoding of a shorter value.
                return self.fail_char(3, Ghost(s));
            }
            if 0xd800 <= cp && cp <= 0xdfff {
                // Surrogate codepoints are not scalar values.
                return self.fail_char(3, Ghost(s));
            }
            proof {
                assert(length_of_first_scalar(s) == 3);
                assert(s.drop_first().drop_first().drop_first() =~= s.skip(3));
            }
            return Ok(char_from_scalar(cp));
        }
        if b0 < 0xf8 {
            // Four-byte encoding.
            let b1 = match self.read_byte() {
                Err(e) => {
                    proof {
                        assert(self.remaining() =~= Seq::<u8>::empty());
                    }
                    return Err(e);
                },
                Ok(b) => b,
            };
            if !(0x80 <= b1 && b1 < 0xc0) {
                return self.fail_char(2, Ghost(s));
            }
            let b2 = match self.read_byte() {
                Err(e) => {
                    proof {
                        assert(self.remaining() =~= Seq::<u8>::empty());
                    }
                    return Err(e);
                },
                Ok(b) => b,
            };
            if !(0x80 <= b2 && b2 < 0xc0) {
                return self.fail_char(3, Ghost(s));
            }
            let b3 = match self.read_byte() {
                Err(e) => {
                    proof {
                        assert(self.remaining() =~= Seq::<u8>::empty());
                    }
                    return Err(e);
                },
                Ok(b) => b,
            };
            if !(0x80 <= b3 && b3 < 0xc0) {
                return self.fail_char(4, Ghost(s));
            }
            let cp: u32 = (((b0 & 0x07) as u32) << 18) | (((b1 & 0x3f) as u32) << 12) | (((b2
                & 0x3f) as u32) << 6) | ((b3 & 0x3f) as u32);
            proof {
                assert(cp == codepoint_width_4(b0, b1, b2, b3));
            }
            if cp < 0x10000 || cp > 0x10ffff {
                // Overlong encoding, or a codepoint beyond the last scalar.
                return self.fail_char(4, Ghost(s));
            }
            proof {
                assert(length_of_first_scalar(s) == 4);
                assert(s.drop_first().drop_first().drop_first().drop_first() =~= s.skip(4));
            }
            return Ok(char_from_scalar(cp));
        }
        // 0xf8 and above lead no encoding of any width.
        self.fail_char(1, Ghost(s))
    }

    /// Finishes a failed character decode: the decoder reads one byte at a
    /// time until four bytes are consumed in all or the source ends, so
    /// the failure consumes exactly that many. `have` counts the bytes of
    /// this character consumed so far; `start` is the stream as it stood
    /// when the character decode began.
    fn fail_char(&mut self, have: usize, start: Ghost<Seq<u8>>) -> (r: Result<
        char,
        DataDecodeError,
    >)
        requires
            old(self).wf(),
            1 <= have <= 4,
            have <= start@.len(),
            old(self).remaining() =~= start@.skip(have as int),
            !valid_first_scalar(start@),
        ensures
            final(self).wf(),
            start@.len() >= 4 ==> {
                &&& r matches Err(e) && e == DataDecodeError::InvalidUtf8
                &&& final(self).remaining() == start@.skip(4)
                &&& final(self).consumed() == old(self).consumed() + (4 - have)
            },
            start@.len() < 4 ==> {
                &&& r matches Err(e) && e == DataDecodeError::NotEnoughBytes
                &&& final(self).remaining() == Seq::<u8>::empty()
                &&& final(self).consumed() == old(self).consumed() + (start@.len() - have)
            },
    {
        let mut k: usize = have;
        while k < 4
            invariant
                self.wf(),
                have <= k <= 4,
                k <= start@.len(),
                self.remaining() == start@.skip(k as int),
                self.consumed() == old(self).consumed() + (k - have),
            decreases 4 - k,
        {
            match self.read_byte() {
                Err(e) => {
                    proof {
                        assert(start@.len() == k);
                        assert(self.remaining() =~= Seq::<u8>::empty());
                    }
                    return Err(e);
                },
                Ok(_) => {
                },
            }
            k = k + 1;
            proof {
                assert(start@.skip((k - 1) as int).drop_first() =~= start@.skip(k as int));
            }
        }
        Err(DataDecodeError::InvalidUtf8)
    }

    /// Returns the next byte without advancing the stream.
    pub fn peek_byte(&self) -> (r: Result<u8, DataDecodeError>)
        requires
            self.wf(),
        ensures
            self.remaining().len() >= 1 ==> (r matches Ok(b) && b == self.remaining()[0]),
            self.remaining().len() == 0 ==> (r matches Err(e) && e
                == DataDecodeError::NotEnoughBytes),
    {
        if self.pos < self.buf.len() {
            Ok(self.buf[self.pos])
        } else {
            Err(DataDecodeError::NotEnoughBytes)
        }
    }

    /// Returns the specified number of bytes, starting with the very next
    /// byte of the stream, without advancing it.
    pub fn peek_bytes(&self, num_bytes: usize) -> (r: Result<Vec<u8>, DataDecodeError>)
        requires
            self.wf(),
        ensures
            num_bytes <= self.remaining().len() ==> (r matches Ok(v) && v@
                == self.remaining().take(num_bytes as int)),
            num_bytes > self.remaining().len() ==> (r matches Err(e) && e
                == DataDecodeError::NotEnoughBytes),
    {
        if !self.ensure_internal_buffer_size(num_bytes) {
            return Err(DataDecodeError::NotEnoughBytes);
        }
        let mut out: Vec<u8> = Vec::new();
        let mut i: usize = 0;
        while i < num_bytes
            invariant
                self.wf(),
                i <= num_bytes,
                num_bytes <= self.remaining().len(),
                self.pos + num_bytes <= self.buf.len(),
                out@ == self.remaining().take(i as int),
            decreases num_bytes - i,
        {
            out.push(self.buf[self.pos + i]);
            i = i + 1;
            proof {
                assert(out@ =~= self.remaining().take(i as int));
            }
        }
        Ok(out)
    }
}

/// Relies on `String::from_utf8`: it succeeds exactly when the bytes are
/// valid UTF-8, and the returned string then consists of those bytes, that
/// is, its characters are their UTF-8 decoding.
#[verifier::external_body]
fn string_from_utf8(bytes: Vec<u8>) -> (r: Option<String>)
    ensures
        match r {
            Some(s) => valid_utf8(bytes@) && s@ == decode_utf8(bytes@),
            None => !valid_utf8(bytes@),
        },
{
    match String::from_utf8(bytes) {
        Ok(s) => Some(s),
        Err(_) => None,
    }
}

/// Relies on `char::from_u32`: every Unicode scalar value (at most
/// `0x10ffff` and not a surrogate) names exactly one `char`, whose numeric
/// value it is.
#[verifier::external_body]
fn char_from_scalar(v: u32) -> (r: char)
    requires
        is_scalar(v),
    ensures
        r as u32 == v,
{
    match char::from_u32(v) {
        Some(c) => c,
        None => ' ',
    }
}

} // verus!
