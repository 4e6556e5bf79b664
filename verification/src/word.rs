//! Core types for MIL-STD-1553B: bus identifiers, device addresses, and the
//! 20-bit bus word with its odd-parity rule.

use vstd::prelude::*;
use crate::error::ParseError;

verus! {

/// Bus identification
#[derive(Debug, Clone, Copy, PartialEq, Eq, Hash, Structural)]
pub enum Bus {
    /// Bus A (primary)
    BusA,
    /// Bus B (redundant)
    BusB,
}

impl Bus {
    /// Convert bus to bit representation
    pub fn as_bit(&self) -> (r: u8)
        ensures
            r == (if self is BusA { 0int } else { 1int }),
    {
        match self {
            Bus::BusA => 0,
            Bus::BusB => 1,
        }
    }

    /// Human-readable name of the bus; stands in for `Display`, which
    /// verified types cannot implement.
    pub fn label(&self) -> (r: String)
        ensures
            self is BusA ==> r@ == "Bus A"@,
            self is BusB ==> r@ == "Bus B"@,
    {
        match self {
            Bus::BusA => String::from_str("Bus A"),
            Bus::BusB => String::from_str("Bus B"),
        }
    }
}

/// Device address (0-30, with 31 being broadcast)
#[derive(Debug, Clone, Copy, PartialEq, Eq, PartialOrd, Ord, Hash, Structural)]
pub struct Address(u8);

impl View for Address {
    type V = u8;

    closed spec fn view(&self) -> u8 {
        self.0
    }
}

impl Address {
    /// Minimum address value (0)
    pub const MIN: u8 = 0;

    /// Maximum address value (31)
    pub const MAX: u8 = 31;

    /// Broadcast address
    pub const BROADCAST: u8 = 31;

    /// Create a new address, validating it's within range [0, 31]
    pub fn new(addr: u8) -> (r: Result<Address, ParseError>)
        ensures
            addr <= 31 ==> (r matches Ok(a) && a@ == addr),
            addr > 31 ==> (r matches Err(e) && e is InvalidAddress),
    {
        if addr > Self::MAX {
            return Err(ParseError::invalid_address("address out of range [0, 31]"));
        }
        Ok(Address(addr))
    }

    /// Create a broadcast address
    pub fn broadcast() -> (r: Address)
        ensures
            r@ == 31,
    {
        Address(Self::BROADCAST)
    }

    /// Get the raw address value
    pub fn value(&self) -> (r: u8)
        ensures
            r == self@,
    {
        self.0
    }

    /// Check if this is a broadcast address
    pub fn is_broadcast(&self) -> (r: bool)
        ensures
            r == (self@ == 31),
    {
        self.0 == Self::BROADCAST
    }

    /// Check if this is a valid Remote Terminal address (0-29); address 30 is
    /// reserved and not usable as an RT in this model.
    pub fn is_remote_terminal(&self) -> (r: bool)
        ensures
            r == (self@ < 30),
    {
        self.0 < 30
    }
}

/// Word type in MIL-STD-1553B
#[derive(Debug, Clone, Copy, PartialEq, Eq, Hash, Structural)]
pub enum WordType {
    /// Command word (from Bus Controller)
    Command,
    /// Data word
    Data,
    /// Status word (from Remote Terminal)
    Status,
    /// Mode code (special command)
    ModeCode,
}

/// Number of set bits in the binary representation of `n`.
pub open spec fn pop_count(n: nat) -> nat
    decreases n,
{
    if n == 0 {
        0
    } else {
        pop_count(n / 2) + n % 2
    }
}

pub proof fn lemma_pop_count_le(n: nat)
    ensures
        pop_count(n) <= n,
    decreases n,
{
    if n > 0 {
        lemma_pop_count_le(n / 2);
    }
}

/// The parity bit that completes `data_bits` to an odd total of set bits.
pub open spec fn parity_bit_for(data_bits: u16) -> u8 {
    if pop_count(data_bits as nat) % 2 == 0 {
        1u8
    } else {
        0u8
    }
}

/// Odd-parity rule over a raw 20-bit word: bits [16:0] (start bit plus the 16
/// data bits) together with the parity bit (bit 17) must contain an odd
/// number of ones.
pub open spec fn parity_valid(data: u32) -> bool {
    (pop_count((data as nat) % 0x20000) + ((data as nat) / 0x20000) % 2) % 2 == 1
}

/// A raw word assembled from 16 data bits: the data bits at offset 1 (above
/// the start bit, which is 0) and the completing parity bit at offset 17.
pub open spec fn frame_data_bits(data_bits: u16) -> u32 {
    ((parity_bit_for(data_bits) as int) * 0x20000 + (data_bits as int) * 2) as u32
}

/// The parity law round-trips: a word framed with its computed parity bit
/// always passes odd-parity validation.
pub proof fn lemma_framed_parity_valid(data_bits: u16)
    ensures
        parity_valid(frame_data_bits(data_bits)),
{
    let d = data_bits as nat;
    let p = parity_bit_for(data_bits) as nat;
    let v = frame_data_bits(data_bits) as nat;
    assert(v == p * 0x20000 + d * 2);
    assert(v % 0x20000 == d * 2 && v / 0x20000 == p) by {
        vstd::arithmetic::div_mod::lemma_fundamental_div_mod_converse(
            v as int,
            0x20000,
            p as int,
            (d * 2) as int,
        );
    }
    assert(pop_count(d * 2) == pop_count(d)) by {
        assert((d * 2) / 2 == d && (d * 2) % 2 == 0);
    }
    assert((pop_count(d) + p) % 2 == 1) by {
        if pop_count(d) % 2 == 0 {
            assert(p == 1);
            vstd::arithmetic::div_mod::lemma_add_mod_noop(pop_count(d) as int, 1, 2);
        } else {
            assert(p == 0);
        }
    }
}

/// Count the set bits of `x`.
fn count_ones_u32(x: u32) -> (c: u32)
    ensures
        c as nat == pop_count(x as nat),
{
    proof {
        lemma_pop_count_le(x as nat);
    }
    let mut n = x;
    let mut c: u32 = 0;
    while n > 0
        invariant
            c as nat + pop_count(n as nat) == pop_count(x as nat),
            pop_count(x as nat) <= x as nat,
        decreases n,
    {
        assert(pop_count(n as nat) == pop_count((n / 2) as nat) + (n % 2) as nat);
        c = c + n % 2;
        n = n / 2;
    }
    c
}

/// A single MIL-STD-1553B word
///
/// Format:
/// - 1 start bit (always 0 for valid Manchester encoding)
/// - 16 data bits
/// - 1 parity bit (odd parity over all 17 bits)
/// - 2 synchronization bits
///
/// Total: 20 bits
#[derive(Debug, Clone, Copy, PartialEq, Eq, Structural)]
pub struct Word {
    /// 20-bit word value
    data: u32,
    /// Type of word
    word_type: WordType,
}

impl Word {
    /// The raw 20-bit value, as seen by specifications.
    pub closed spec fn spec_data(self) -> u32 {
        self.data
    }

    /// The type tag, as seen by specifications.
    pub closed spec fn spec_word_type(self) -> WordType {
        self.word_type
    }

    /// Create a new word with validation
    ///
    /// The 16 data bits should be in bits 16:1, parity in bit 17
    pub fn new(data: u32, word_type: WordType) -> (r: Result<Word, ParseError>)
        ensures
            data > 0xFFFFF ==> (r matches Err(e) && e is InvalidWord),
            data <= 0xFFFFF && !parity_valid(data) ==> (r matches Err(e) && e is ParityError),
            data <= 0xFFFFF && parity_valid(data) ==> (r matches Ok(w) && w.spec_data() == data
                && w.spec_word_type() == word_type),
    {
        if data > 0xFFFFF {
            return Err(ParseError::invalid_word("word data exceeds 20 bits"));
        }
        Self::validate_parity(data)?;
        Ok(Word { data, word_type })
    }

    /// Create a word without parity validation
    ///
    /// Use with caution - only for constructing test data or when parity
    /// will be verified separately
    pub fn new_unchecked(data: u32, word_type: WordType) -> (r: Word)
        ensures
            r.spec_data() == data,
            r.spec_word_type() == word_type,
    {
        Word { data, word_type }
    }

    /// Get the raw word data (20 bits)
    pub fn data(&self) -> (r: u32)
        ensures
            r == self.spec_data(),
    {
        self.data
    }

    /// Get the word type
    pub fn word_type(&self) -> (r: WordType)
        ensures
            r == self.spec_word_type(),
    {
        self.word_type
    }

    /// Extract the 16 data bits (bits 16-1)
    pub fn get_data_bits(&self) -> (r: u16)
        ensures
            r as int == (self.spec_data() as int / 2) % 0x10000,
    {
        ((self.data / 2) % 0x10000) as u16
    }

    /// Extract the parity bit (bit 17)
    pub fn get_parity_bit(&self) -> (r: bool)
        ensures
            r == ((self.spec_data() as int / 0x20000) % 2 == 1),
    {
        (self.data / 0x20000) % 2 == 1
    }

    /// Extract the sync bits (bits 19-18)
    pub fn get_sync_bits(&self) -> (r: u8)
        ensures
            r as int == (self.spec_data() as int / 0x40000) % 4,
    {
        ((self.data / 0x40000) % 4) as u8
    }

    /// Validate odd parity across bits [16:0] together with the parity bit.
    fn validate_parity(data: u32) -> (r: Result<(), ParseError>)
        ensures
            r is Ok <==> parity_valid(data),
            r matches Err(e) ==> e is ParityError,
    {
        let low = data % 0x20000;
        let ones = count_ones_u32(low);
        proof {
            lemma_pop_count_le(low as nat);
        }
        let parity_bit = (data / 0x20000) % 2;
        if (ones + parity_bit) % 2 == 0 {
            return Err(ParseError::parity_error("even number of ones detected"));
        }
        Ok(())
    }

    /// Calculate the parity bit that gives a word odd parity
    pub fn calculate_parity(data_bits: u16) -> (r: u8)
        ensures
            r == parity_bit_for(data_bits),
    {
        let count = count_ones_u32(data_bits as u32);
        if count % 2 == 0 {
            1
        } else {
            0
        }
    }
}

} // verus!
