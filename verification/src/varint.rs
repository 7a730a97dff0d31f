//! Specification of the little-endian base-128 variable-length integer
//! format ("7-bit encoded" integers): each byte carries seven payload bits in
//! its low bits, and a set high bit means more payload bytes follow. A
//! decoder for an `n`-bit target accepts a fixed number of full payload bytes
//! and then one final byte that carries only the remaining bits; a final byte
//! above that bound means the encoded value does not fit in `n` bits.

use vstd::prelude::*;

verus! {

/// Powers of 128, the radix of the 7-bit encoding.
pub open spec fn pow128(n: nat) -> nat
    decreases n,
{
    if n == 0 {
        1
    } else {
        128 * pow128((n - 1) as nat)
    }
}

/// What decoding a variable-length integer from the front of a byte
/// sequence yields.
pub enum VarintOutcome {
    /// A value was decoded from the first `len` bytes.
    Value { value: nat, len: nat },
    /// The final byte exceeded the bound for the target width; the whole
    /// encoding (`budget + 1` bytes) is consumed.
    Overflow,
    /// The sequence ended while a continuation bit was still set; every
    /// byte of the sequence is consumed.
    Short,
}

/// Decodes a variable-length integer from the front of `s`.
///
/// `budget` is the number of payload bytes whose continuation bit is
/// honoured; the byte after them is final and must not exceed `bound`
/// (15 for the 32-bit format, 1 for the 64-bit format).
pub open spec fn decode_7bit(s: Seq<u8>, budget: nat, bound: u8) -> VarintOutcome
    decreases budget,
{
    if s.len() == 0 {
        VarintOutcome::Short
    } else if budget == 0 {
        if s[0] > bound {
            VarintOutcome::Overflow
        } else {
            VarintOutcome::Value { value: s[0] as nat, len: 1 }
        }
    } else if s[0] < 0x80 {
        VarintOutcome::Value { value: s[0] as nat, len: 1 }
    } else {
        match decode_7bit(s.drop_first(), (budget - 1) as nat, bound) {
            VarintOutcome::Value { value, len } => VarintOutcome::Value {
                value: (s[0] - 0x80) as nat + 0x80 * value,
                len: len + 1,
            },
            outcome => outcome,
        }
    }
}

/// The 32-bit decoder: 4 full payload bytes, then a final byte of at
/// most 15 (the remaining 4 of 32 bits).
pub open spec fn decode_varint32(s: Seq<u8>) -> VarintOutcome {
    decode_7bit(s, 4, 0x0f)
}

/// The 64-bit decoder: 9 full payload bytes, then a final byte of at
/// most 1 (the remaining 1 of 64 bits).
pub open spec fn decode_varint64(s: Seq<u8>) -> VarintOutcome {
    decode_7bit(s, 9, 0x01)
}

/// The encoding of the unsigned value `v`: low seven bits first, with the
/// high bit set on every byte except the last.
pub open spec fn encode_7bit(v: nat) -> Seq<u8>
    decreases v,
{
    if v < 0x80 {
        seq![v as u8]
    } else {
        seq![(v % 0x80 + 0x80) as u8] + encode_7bit(v / 0x80)
    }
}

/// A successfully decoded value fits in `budget` payload bytes plus a
/// final byte of at most `bound`.
pub proof fn lemma_decode_value_bound(s: Seq<u8>, budget: nat, bound: u8)
    ensures
        decode_7bit(s, budget, bound) matches VarintOutcome::Value { value, len } ==> {
            &&& value < pow128(budget) * (bound + 1)
            &&& 1 <= len <= budget + 1
            &&& len <= s.len()
        },
        decode_7bit(s, budget, bound) is Overflow ==> s.len() >= budget + 1,
    decreases budget,
{
    if s.len() == 0 {
    } else if budget == 0 {
        assert(pow128(0) == 1);
        let bb = bound as int + 1;
        assert(pow128(0) * bb == bb) by (nonlinear_arith)
            requires
                pow128(0) == 1,
        ;
    } else if s[0] < 0x80 {
        let p = pow128(budget) as int;
        let bb = bound as int + 1;
        lemma_pow128_lower_bound(budget);
        assert(p * bb >= p) by (nonlinear_arith)
            requires
                p >= 1,
                bb >= 1,
        ;
        lemma_pow128_at_least(budget, s[0] as nat);
    } else {
        lemma_decode_value_bound(s.drop_first(), (budget - 1) as nat, bound);
        let p = pow128((budget - 1) as nat) as int;
        let q = pow128(budget) as int;
        let bb = bound as int + 1;
        assert(q == 128 * p);
        if let VarintOutcome::Value { value, len } = decode_7bit(
            s.drop_first(),
            (budget - 1) as nat,
            bound,
        ) {
            let pay = s[0] as int - 0x80;
            assert(pay + 0x80 * value < q * bb) by (nonlinear_arith)
                requires
                    value < p * bb,
                    0 <= pay < 0x80,
                    q == 128 * p,
            ;
        }
    }
}

/// Any value below `0x80` is below `pow128(n)` for positive `n`.
proof fn lemma_pow128_at_least(n: nat, v: nat)
    requires
        n >= 1,
        v < 0x80,
    ensures
        v < pow128(n),
    decreases n,
{
    lemma_pow128_lower_bound((n - 1) as nat);
    assert(pow128(n) == 128 * pow128((n - 1) as nat));
    assert(128 * pow128((n - 1) as nat) >= 128) by (nonlinear_arith)
        requires
            pow128((n - 1) as nat) >= 1,
    ;
}

/// `pow128(n)` is at least one, so a value below `0x80` is below
/// `pow128(n) * (bound + 1)` for every width.
pub proof fn lemma_pow128_lower_bound(n: nat)
    ensures
        pow128(n) >= 1,
    decreases n,
{
    if n > 0 {
        lemma_pow128_lower_bound((n - 1) as nat);
    }
}

/// The encoding of a value below `pow128(k)` takes at least one and at
/// most `k` bytes.
pub proof fn lemma_encode_7bit_len(v: nat, k: nat)
    requires
        k >= 1,
        v < pow128(k),
    ensures
        1 <= encode_7bit(v).len() <= k,
    decreases k,
{
    if v >= 0x80 {
        assert(pow128(0) == 1);
        assert(pow128(1) == 128);
        assert(k >= 2);
        let p = pow128((k - 1) as nat) as int;
        assert(pow128(k) == 128 * pow128((k - 1) as nat));
        assert(v / 0x80 < p) by (nonlinear_arith)
            requires
                (v as int) < 128 * p,
                v >= 0,
        ;
        lemma_encode_7bit_len(v / 0x80, (k - 1) as nat);
    }
}

/// Decoding an encoding from the front of a longer stream yields the
/// encoded value back and consumes exactly the encoding, whatever bytes
/// follow it, provided the value fits the decoder's width.
pub proof fn lemma_decode_encode_7bit(v: nat, rest: Seq<u8>, budget: nat, bound: u8)
    requires
        bound < 0x80,
        v < pow128(budget) * (bound + 1),
    ensures
        decode_7bit(encode_7bit(v) + rest, budget, bound) == (VarintOutcome::Value {
            value: v,
            len: encode_7bit(v).len(),
        }),
    decreases v,
{
    let s = encode_7bit(v) + rest;
    if v < 0x80 {
        assert(s[0] == v as u8);
        if budget == 0 {
            assert(pow128(0) * (bound + 1) == bound + 1) by (nonlinear_arith)
                requires
                    pow128(0) == 1,
            ;
            assert(v <= bound);
        }
    } else {
        assert(budget > 0) by {
            if budget == 0 {
                assert(pow128(0) * (bound + 1) == bound + 1) by (nonlinear_arith)
                    requires
                        pow128(0) == 1,
                ;
            }
        }
        let tail = v / 0x80;
        let head = v % 0x80;
        assert(s[0] == (head + 0x80) as u8);
        assert(s[0] >= 0x80);
        assert(s.drop_first() =~= encode_7bit(tail) + rest);
        assert(tail < pow128((budget - 1) as nat) * (bound + 1)) by (nonlinear_arith)
            requires
                v < pow128(budget) * (bound + 1),
                pow128(budget) == 128 * pow128((budget - 1) as nat),
                tail == v / 0x80,
                v >= 0,
        ;
        assert(tail < v) by {
            vstd::arithmetic::div_mod::lemma_div_decreases(v as int, 0x80);
        }
        lemma_decode_encode_7bit(tail, rest, (budget - 1) as nat, bound);
        assert(head + 0x80 * tail == v) by {
            vstd::arithmetic::div_mod::lemma_fundamental_div_mod(v as int, 0x80);
        }
        assert(encode_7bit(v).len() == 1 + encode_7bit(tail).len());
    }
}

/// Every value up to `0x7f` is encoded as exactly one byte holding the
/// value itself, and decoding that byte returns the value.
pub proof fn lemma_encode_single_byte(n: u8)
    requires
        n <= 0x7f,
    ensures
        encode_7bit(n as nat) == seq![n],
        decode_varint32(seq![n]) == (VarintOutcome::Value { value: n as nat, len: 1 }),
        decode_varint64(seq![n]) == (VarintOutcome::Value { value: n as nat, len: 1 }),
{
    assert(encode_7bit(n as nat) =~= seq![n]);
    assert(seq![n].len() == 1);
    assert(seq![n][0] == n);
}

/// Round trip for the 32-bit format: decoding the encoding of any 32-bit
/// value yields that value, for every trailing stream content.
pub proof fn lemma_varint32_round_trip(v: u32, rest: Seq<u8>)
    ensures
        decode_varint32(encode_7bit(v as nat) + rest) == (VarintOutcome::Value {
            value: v as nat,
            len: encode_7bit(v as nat).len(),
        }),
{
    assert(pow128(4) * 0x10 == 0x1_0000_0000) by {
        reveal_with_fuel(pow128, 5);
    }
    lemma_decode_encode_7bit(v as nat, rest, 4, 0x0f);
}

/// Round trip for the 64-bit format: decoding the encoding of any 64-bit
/// value yields that value, for every trailing stream content.
pub proof fn lemma_varint64_round_trip(v: u64, rest: Seq<u8>)
    ensures
        decode_varint64(encode_7bit(v as nat) + rest) == (VarintOutcome::Value {
            value: v as nat,
            len: encode_7bit(v as nat).len(),
        }),
{
    assert(pow128(9) * 0x02 == 0x1_0000_0000_0000_0000) by {
        reveal_with_fuel(pow128, 10);
    }
    lemma_decode_encode_7bit(v as nat, rest, 9, 0x01);
}

} // verus!
