//! Manchester encoding and decoding for MIL-STD-1553B.
//!
//! Thomas-Manchester mapping (the standard's convention): logical 0 is the
//! high-to-low pair `10`, logical 1 is the low-to-high pair `01`.  Four
//! bit-pairs are packed into each output byte, least-significant pair first;
//! a 20-bit word therefore occupies exactly 5 encoded bytes.

use vstd::prelude::*;
use vstd::arithmetic::div_mod::lemma_div_denominator;
use vstd::arithmetic::div_mod::lemma_fundamental_div_mod;
use vstd::arithmetic::div_mod::lemma_fundamental_div_mod_converse;
use vstd::arithmetic::power2::lemma_pow2_unfold;
use vstd::arithmetic::power2::lemma2_to64;
use vstd::arithmetic::power2::pow2;
use crate::error::ParseError;

verus! {

/// Manchester encoding type for MIL-STD-1553B
#[derive(Debug, Clone, Copy, PartialEq, Eq, Structural)]
pub enum ManchesterType {
    /// IEEE 802.3 Manchester: 0 = low-to-high, 1 = high-to-low
    Ieee,
    /// Thomas Manchester: 0 = high-to-low, 1 = low-to-high
    Thomas,
}

impl ManchesterType {
    /// Get the default Manchester encoding for MIL-STD-1553B
    pub fn milstd() -> (r: ManchesterType)
        ensures
            r is Thomas,
    {
        ManchesterType::Thomas
    }
}

/// The 2-bit pair that encodes one logical bit.
pub open spec fn pair_for_bit(bit: bool) -> u8 {
    if bit {
        0b01u8
    } else {
        0b10u8
    }
}

/// A pair is a legal Thomas-Manchester transition; `00` and `11` are not.
pub open spec fn bit_pair_valid(pair: u8) -> bool {
    pair == 0b01 || pair == 0b10
}

/// The pair that the encoder places at pair position `i`, as an integer;
/// positions past the end of the input are filler zeros.
pub open spec fn encoded_pair(bits: Seq<bool>, i: int) -> int {
    if 0 <= i < bits.len() {
        pair_for_bit(bits[i]) as int
    } else {
        0
    }
}

/// Value of output byte `j` after its first `k` pair slots are filled.
pub open spec fn partial_byte(bits: Seq<bool>, j: int, k: int) -> int {
    if k <= 0 {
        0
    } else if k == 1 {
        encoded_pair(bits, 4 * j)
    } else if k == 2 {
        encoded_pair(bits, 4 * j) + 4 * encoded_pair(bits, 4 * j + 1)
    } else if k == 3 {
        encoded_pair(bits, 4 * j) + 4 * encoded_pair(bits, 4 * j + 1) + 16 * encoded_pair(
            bits,
            4 * j + 2,
        )
    } else {
        encoded_pair(bits, 4 * j) + 4 * encoded_pair(bits, 4 * j + 1) + 16 * encoded_pair(
            bits,
            4 * j + 2,
        ) + 64 * encoded_pair(bits, 4 * j + 3)
    }
}

/// Output byte `j` of the Manchester encoding of `bits`.
pub open spec fn encoded_byte(bits: Seq<bool>, j: int) -> u8 {
    partial_byte(bits, j, 4) as u8
}

/// The whole Manchester encoding of `bits`: one byte per 4 logical bits,
/// rounded up.
pub open spec fn manchester_bytes(bits: Seq<bool>) -> Seq<u8> {
    Seq::new(((bits.len() + 3) / 4) as nat, |j: int| encoded_byte(bits, j))
}

/// Divisor that moves pair slot `k` of a byte into the low two bits.
pub open spec fn pair_shift(k: int) -> int {
    if k == 0 {
        1
    } else if k == 1 {
        4
    } else if k == 2 {
        16
    } else {
        64
    }
}

/// Pair slot `k` (0 = least significant) of an encoded byte.
pub open spec fn pair_in_byte(byte: u8, k: int) -> u8 {
    (((byte as int) / pair_shift(k)) % 4) as u8
}

/// Pair number `i` of an encoded byte stream.
pub open spec fn pair_at(data: Seq<u8>, i: int) -> u8 {
    pair_in_byte(data[i / 4], i % 4)
}

/// The first `n` pairs of the stream are all legal transitions.
pub open spec fn pairs_valid_upto(data: Seq<u8>, n: int) -> bool {
    forall|i: int| 0 <= i < n ==> bit_pair_valid(#[trigger] pair_at(data, i))
}

/// The first `n` logical bits recovered from an encoded byte stream.
pub open spec fn decoded_bits(data: Seq<u8>, n: nat) -> Seq<bool> {
    Seq::new(n, |i: int| pair_at(data, i) == 1)
}

/// The 20 bits of a raw word value, least significant first.
pub open spec fn bits_of_word(w: u32) -> Seq<bool> {
    Seq::new(20, |i: int| ((w as int) / (pow2(i as nat) as int)) % 2 == 1)
}

/// The numeric value of a bit sequence, bit 0 least significant.
pub open spec fn word_of_bits(bits: Seq<bool>) -> nat
    decreases bits.len(),
{
    if bits.len() == 0 {
        0
    } else {
        ((if bits[0] {
            1nat
        } else {
            0nat
        }) + 2 * word_of_bits(bits.skip(1))) as nat
    }
}

/// Unpacking a byte recovers exactly the four pair values packed into it.
proof fn lemma_byte_unpack(p0: int, p1: int, p2: int, p3: int)
    requires
        0 <= p0 < 4,
        0 <= p1 < 4,
        0 <= p2 < 4,
        0 <= p3 < 4,
    ensures
        ({
            let s = p0 + 4 * p1 + 16 * p2 + 64 * p3;
            &&& (s / 1) % 4 == p0
            &&& (s / 4) % 4 == p1
            &&& (s / 16) % 4 == p2
            &&& (s / 64) % 4 == p3
        }),
{
    let s = p0 + 4 * p1 + 16 * p2 + 64 * p3;
    let s1 = p1 + 4 * p2 + 16 * p3;
    let s2 = p2 + 4 * p3;
    lemma_fundamental_div_mod_converse(s, 4, s1, p0);
    lemma_fundamental_div_mod_converse(s1, 4, s2, p1);
    lemma_fundamental_div_mod_converse(s2, 4, p3, p2);
    lemma_div_denominator(s, 4, 4);
    assert(s / 16 == s2);
    lemma_div_denominator(s, 16, 4);
    assert(s / 64 == p3);
    lemma_fundamental_div_mod_converse(s, 1, s, 0);
    lemma_fundamental_div_mod_converse(p3, 4, 0, p3);
}

/// Each pair of the encoded stream is the pair for the corresponding input
/// bit (or filler zero past the end of the input).
proof fn lemma_encoded_pair_at(bits: Seq<bool>, i: int)
    requires
        0 <= i < 4 * manchester_bytes(bits).len(),
    ensures
        pair_at(manchester_bytes(bits), i) as int == encoded_pair(bits, i),
{
    let enc = manchester_bytes(bits);
    let j = i / 4;
    let k = i % 4;
    lemma_fundamental_div_mod(i, 4);
    assert(0 <= j < enc.len());
    assert(enc[j] == encoded_byte(bits, j));
    let p0 = encoded_pair(bits, 4 * j);
    let p1 = encoded_pair(bits, 4 * j + 1);
    let p2 = encoded_pair(bits, 4 * j + 2);
    let p3 = encoded_pair(bits, 4 * j + 3);
    lemma_byte_unpack(p0, p1, p2, p3);
}

/// Manchester encoding round-trips: decoding the encoding of any bit
/// sequence recovers that sequence, every encoded pair being a legal
/// transition.
pub proof fn lemma_manchester_roundtrip(bits: Seq<bool>)
    ensures
        4 * manchester_bytes(bits).len() >= bits.len(),
        pairs_valid_upto(manchester_bytes(bits), bits.len() as int),
        decoded_bits(manchester_bytes(bits), bits.len()) == bits,
{
    let enc = manchester_bytes(bits);
    let n = bits.len() as int;
    lemma_fundamental_div_mod(n + 3, 4);
    assert(4 * enc.len() >= n);
    assert forall|i: int| 0 <= i < n implies bit_pair_valid(#[trigger] pair_at(enc, i))
        && (pair_at(enc, i) == 1) == bits[i] by {
        lemma_encoded_pair_at(bits, i);
    }
    assert(decoded_bits(enc, bits.len()) =~= bits);
}

/// The value of a bit sequence is below 2^len.
proof fn lemma_word_of_bits_bound(bits: Seq<bool>)
    ensures
        word_of_bits(bits) < pow2(bits.len()),
    decreases bits.len(),
{
    if bits.len() == 0 {
        lemma2_to64();
    } else {
        lemma_word_of_bits_bound(bits.skip(1));
        lemma_pow2_unfold(bits.len());
    }
}

/// Reading the bits of a value below 2^c, least significant first, and
/// reassembling them gives the value back.
proof fn lemma_value_bits_value(v: nat, c: nat)
    requires
        v < pow2(c),
    ensures
        word_of_bits(Seq::new(c, |i: int| ((v as int) / (pow2(i as nat) as int)) % 2 == 1)) == v,
    decreases c,
{
    let bits = Seq::new(c, |i: int| ((v as int) / (pow2(i as nat) as int)) % 2 == 1);
    if c == 0 {
        lemma2_to64();
        assert(v == 0);
    } else {
        let h = v / 2;
        lemma_pow2_unfold(c);
        lemma_fundamental_div_mod(v as int, 2);
        assert(h < pow2((c - 1) as nat));
        lemma_value_bits_value(h, (c - 1) as nat);
        let hbits = Seq::new(
            (c - 1) as nat,
            |i: int| ((h as int) / (pow2(i as nat) as int)) % 2 == 1,
        );
        assert(bits.skip(1) =~= hbits) by {
            assert forall|t: int| 0 <= t < c - 1 implies bits.skip(1)[t] == hbits[t] by {
                lemma_pow2_unfold((t + 1) as nat);
                vstd::arithmetic::power2::lemma_pow2_pos(t as nat);
                lemma_div_denominator(v as int, 2, pow2(t as nat) as int);
            }
        }
        assert(bits[0] == (v % 2 == 1)) by {
            lemma2_to64();
            lemma_fundamental_div_mod_converse(v as int, 1, v as int, 0);
        }
    }
}

/// A raw 20-bit word survives the Manchester round trip: its encoding is 5
/// bytes of legal pairs whose 20 decoded bits reassemble to the same value.
pub proof fn lemma_word_roundtrip(w: u32)
    requires
        w <= 0xFFFFF,
    ensures
        manchester_bytes(bits_of_word(w)).len() == 5,
        pairs_valid_upto(manchester_bytes(bits_of_word(w)), 20),
        word_of_bits(decoded_bits(manchester_bytes(bits_of_word(w)), 20)) == w,
{
    let bits = bits_of_word(w);
    lemma_manchester_roundtrip(bits);
    assert(decoded_bits(manchester_bytes(bits), 20) =~= bits);
    lemma2_to64();
    lemma_value_bits_value(w as nat, 20);
}

/// Manchester encoder for MIL-STD-1553B
pub struct ManchesterEncoder;

impl ManchesterEncoder {
    /// Encode a single bit using Thomas Manchester encoding (MIL-STD-1553B standard)
    ///
    /// 0 = high-to-low transition (1, 0)
    /// 1 = low-to-high transition (0, 1)
    pub fn encode_bit(bit: bool) -> (r: u8)
        ensures
            r == pair_for_bit(bit),
    {
        match bit {
            false => 0b10,
            true => 0b01,
        }
    }

    /// Encode multiple bits (little-endian bit order)
    ///
    /// Returns a vector of bytes representing the Manchester-encoded data
    pub fn encode_bits(data: &[bool]) -> (r: Vec<u8>)
        ensures
            r@ == manchester_bytes(data@),
    {
        let mut result: Vec<u8> = Vec::new();
        let mut byte: u8 = 0;
        let mut bit_pos: u8 = 0;
        let mut i: usize = 0;
        while i < data.len()
            invariant
                i <= data@.len(),
                bit_pos < 4,
                i == 4 * result@.len() + bit_pos,
                forall|t: int| 0 <= t < result@.len() ==> result@[t] == encoded_byte(data@, t),
                byte as int == partial_byte(data@, result@.len() as int, bit_pos as int),
            decreases data@.len() - i,
        {
            let enc = Self::encode_bit(data[i]);
            byte = match bit_pos {
                0 => byte + enc,
                1 => byte + enc * 4,
                2 => byte + enc * 16,
                _ => byte + enc * 64,
            };
            bit_pos = bit_pos + 1;
            i = i + 1;
            if bit_pos == 4 {
                result.push(byte);
                byte = 0;
                bit_pos = 0;
            }
        }
        if bit_pos > 0 {
            result.push(byte);
        }
        proof {
            lemma_fundamental_div_mod_converse(
                data@.len() as int + 3,
                4,
                result@.len() as int,
                if bit_pos == 0 {
                    3
                } else {
                    bit_pos as int - 1
                },
            );
            assert(result@ =~= manchester_bytes(data@));
        }
        result
    }

    /// Encode a word (20 bits) into Manchester-encoded data
    pub fn encode_word(word: u32) -> (r: Vec<u8>)
        ensures
            r@ == manchester_bytes(bits_of_word(word)),
            r@.len() == 5,
    {
        let mut bits: Vec<bool> = Vec::new();
        let mut cur = word;
        let mut i: usize = 0;
        proof {
            lemma2_to64();
        }
        while i < 20
            invariant
                i <= 20,
                bits@.len() == i,
                cur as int == (word as int) / (pow2(i as nat) as int),
                forall|t: int| 0 <= t < i ==> bits@[t] == bits_of_word(word)[t],
            decreases 20 - i,
        {
            bits.push(cur % 2 == 1);
            proof {
                lemma_pow2_unfold((i + 1) as nat);
                vstd::arithmetic::power2::lemma_pow2_pos(i as nat);
                lemma_div_denominator(word as int, pow2(i as nat) as int, 2);
            }
            cur = cur / 2;
            i = i + 1;
        }
        assert(bits@ =~= bits_of_word(word));
        Self::encode_bits(bits.as_slice())
    }
}

/// Manchester decoder for MIL-STD-1553B
pub struct ManchesterDecoder;

impl ManchesterDecoder {
    /// Decode a single Manchester-encoded bit pair (Thomas encoding)
    ///
    /// Returns Ok(bit) on valid encoding, Err on invalid pattern
    pub fn decode_bit(pair: u8) -> (r: Result<bool, ParseError>)
        ensures
            bit_pair_valid((pair % 4) as u8) ==> (r matches Ok(b) && b == (pair % 4 == 1)),
            !bit_pair_valid((pair % 4) as u8) ==> (r matches Err(e)
                && e is InvalidManchesterEncoding),
    {
        match pair % 4 {
            0b01 => Ok(true),
            0b10 => Ok(false),
            _ => Err(ParseError::invalid_manchester("invalid Manchester pattern")),
        }
    }

    /// Decode a sequence of Manchester-encoded bits
    ///
    /// Each byte contains 4 Manchester-encoded bits (2 bits per bit)
    pub fn decode_bits(data: &[u8], num_bits: usize) -> (r: Result<Vec<bool>, ParseError>)
        ensures
            r is Ok <==> (num_bits as int <= 4 * data@.len() && pairs_valid_upto(
                data@,
                num_bits as int,
            )),
            r matches Ok(bits) ==> bits@ == decoded_bits(data@, num_bits as nat),
            r matches Err(e) ==> ({
                let scanned: int = if num_bits as int <= 4 * data@.len() {
                    num_bits as int
                } else {
                    4 * data@.len() as int
                };
                &&& (!pairs_valid_upto(data@, scanned) ==> e is InvalidManchesterEncoding)
                &&& (pairs_valid_upto(data@, scanned) ==> e is InsufficientData && 4 * data@.len()
                    < num_bits as int)
            }),
    {
        let mut result: Vec<bool> = Vec::new();
        let mut bi: usize = 0;
        while bi < data.len() && result.len() < num_bits
            invariant
                bi <= data@.len(),
                result@.len() <= num_bits,
                result@.len() as int == (if 4 * bi <= num_bits as int {
                    4 * bi as int
                } else {
                    num_bits as int
                }),
                pairs_valid_upto(data@, result@.len() as int),
                forall|t: int| 0 <= t < result@.len() ==> result@[t] == (pair_at(data@, t) == 1),
            decreases data@.len() - bi,
        {
            let byte = data[bi];
            let mut k: u8 = 0;
            while k < 4 && result.len() < num_bits
                invariant
                    k <= 4,
                    bi < data@.len(),
                    result@.len() <= num_bits,
                    result@.len() as int == (if 4 * bi + k <= num_bits as int {
                        4 * bi + k
                    } else {
                        num_bits as int
                    }),
                    byte == data@[bi as int],
                    pairs_valid_upto(data@, result@.len() as int),
                    forall|t: int| 0 <= t < result@.len() ==> result@[t] == (pair_at(data@, t)
                        == 1),
                decreases 4 - k,
            {
                let pair = match k {
                    0 => byte % 4,
                    1 => (byte / 4) % 4,
                    2 => (byte / 16) % 4,
                    _ => (byte / 64) % 4,
                };
                proof {
                    let i = result@.len() as int;
                    lemma_fundamental_div_mod_converse(i, 4, bi as int, k as int);
                    assert(pair == pair_at(data@, i));
                }
                match Self::decode_bit(pair) {
                    Ok(bit) => {
                        result.push(bit);
                    },
                    Err(e) => {
                        proof {
                            let i = (result@.len()) as int;
                            assert(!bit_pair_valid(pair_at(data@, i)));
                        }
                        return Err(e);
                    },
                }
                k = k + 1;
            }
            bi = bi + 1;
        }
        if result.len() < num_bits {
            return Err(ParseError::insufficient_data("ran out of encoded bit pairs"));
        }
        proof {
            assert(result@ =~= decoded_bits(data@, num_bits as nat));
        }
        Ok(result)
    }

    /// Decode a Manchester-encoded word (20 bits)
    ///
    /// Expects 5 bytes (40 bits) of Manchester-encoded data
    pub fn decode_word(data: &[u8]) -> (r: Result<u32, ParseError>)
        ensures
            data@.len() < 5 ==> (r matches Err(e) && e is InsufficientData),
            data@.len() >= 5 && !pairs_valid_upto(data@, 20) ==> (r matches Err(e)
                && e is InvalidManchesterEncoding),
            data@.len() >= 5 && pairs_valid_upto(data@, 20) ==> (r matches Ok(w) && w as nat
                == word_of_bits(decoded_bits(data@, 20)) && w <= 0xFFFFF),
    {
        if data.len() < 5 {
            return Err(ParseError::insufficient_data("expected 5 bytes for a word"));
        }
        let bits = Self::decode_bits(data, 20)?;
        proof {
            lemma2_to64();
        }
        let ghost gbits = bits@;
        let mut word: u32 = 0;
        let mut i: usize = 20;
        while i > 0
            invariant
                i <= 20,
                bits@ == gbits,
                gbits.len() == 20,
                word as nat == word_of_bits(gbits.skip(i as int)),
                (word as nat) < pow2((20 - i) as nat),
                pow2(20) == 0x100000,
            decreases i,
        {
            proof {
                lemma_pow2_unfold((20 - (i - 1)) as nat);
                vstd::arithmetic::power2::lemma_pow2_strictly_increases((20 - i) as nat, 20);
                assert(gbits.skip(i as int - 1).skip(1) =~= gbits.skip(i as int));
            }
            let bit: u32 = if bits[i - 1] {
                1
            } else {
                0
            };
            word = word * 2 + bit;
            i = i - 1;
        }
        assert(gbits.skip(0) =~= gbits);
        proof {
            lemma_word_of_bits_bound(gbits);
        }
        Ok(word)
    }
}

} // verus!
