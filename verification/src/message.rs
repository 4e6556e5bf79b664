//! Message types for MIL-STD-1553B: command and status word layouts over the
//! 16 data bits, and the assembled `Message` shape.
//!
//! Command layout (MSB to LSB across the 16 data bits):
//! `[addr:4][tr:1][subaddr:5][wordcount:6]`; a wire word count of 0 encodes
//! 32.  Status layout: `[addr:4][flags:5][errcode:7]`.  The 4-bit address
//! field narrows the 0-31 address space to 0-15 by design.

use vstd::prelude::*;
use vstd::arithmetic::div_mod::lemma_fundamental_div_mod_converse;
use crate::error::ParseError;
use crate::word::{Address, Word, WordType};
use crate::word::{frame_data_bits, parity_bit_for, parity_valid, lemma_framed_parity_valid};

verus! {

/// Sub-address for Read/Write operations
#[derive(Debug, Clone, Copy, PartialEq, Eq, Hash, Structural)]
pub struct SubAddress(u8);

impl View for SubAddress {
    type V = u8;

    closed spec fn view(&self) -> u8 {
        self.0
    }
}

impl SubAddress {
    /// Create a new sub-address (0-31)
    pub fn new(addr: u8) -> (r: Result<SubAddress, ParseError>)
        ensures
            addr <= 31 ==> (r matches Ok(s) && s@ == addr),
            addr > 31 ==> (r matches Err(e) && e is InvalidAddress),
    {
        if addr > 31 {
            return Err(ParseError::invalid_address("sub-address out of range [0, 31]"));
        }
        Ok(SubAddress(addr))
    }

    /// Get the raw sub-address value
    pub fn value(&self) -> (r: u8)
        ensures
            r == self@,
    {
        self.0
    }
}

/// Command type in a command word
#[derive(Debug, Clone, Copy, PartialEq, Eq, Hash, Structural)]
pub enum CommandType {
    /// Transmit (Remote Terminal sends data)
    Transmit,
    /// Receive (Remote Terminal receives data)
    Receive,
}

/// Mode code command (special commands sent to specific addresses)
#[derive(Debug, Clone, Copy, PartialEq, Eq, Hash, Structural)]
pub enum ModeCode {
    /// Synchronize (broadcast mode code)
    Synchronize,
    /// Transmit Status Word
    TransmitStatusWord,
    /// Initiate Self Test
    InitiateSelfTest,
    /// Transmit Last Command Word
    TransmitLastCommandWord,
    /// Transmit Built-In Test Result
    TransmitBuiltInTestResult,
    /// Synchronize (alternate)
    SynchronizeAlt,
    /// Transmit Vector Word
    TransmitVectorWord,
    /// Synchronize (alternate 2)
    SynchronizeAlt2,
    /// Transmit Last Data Word
    TransmitLastDataWord,
}

impl ModeCode {
    /// Decode a mode code from its wire value (0-8)
    pub fn try_from(value: u8) -> (r: Result<ModeCode, ParseError>)
        ensures
            value == 0 ==> r == Ok::<ModeCode, ParseError>(ModeCode::Synchronize),
            value == 1 ==> r == Ok::<ModeCode, ParseError>(ModeCode::TransmitStatusWord),
            value == 2 ==> r == Ok::<ModeCode, ParseError>(ModeCode::InitiateSelfTest),
            value == 3 ==> r == Ok::<ModeCode, ParseError>(ModeCode::TransmitLastCommandWord),
            value == 4 ==> r == Ok::<ModeCode, ParseError>(ModeCode::TransmitBuiltInTestResult),
            value == 5 ==> r == Ok::<ModeCode, ParseError>(ModeCode::SynchronizeAlt),
            value == 6 ==> r == Ok::<ModeCode, ParseError>(ModeCode::TransmitVectorWord),
            value == 7 ==> r == Ok::<ModeCode, ParseError>(ModeCode::SynchronizeAlt2),
            value == 8 ==> r == Ok::<ModeCode, ParseError>(ModeCode::TransmitLastDataWord),
            value > 8 ==> (r matches Err(e) && e is InvalidMessageType),
    {
        match value {
            0 => Ok(ModeCode::Synchronize),
            1 => Ok(ModeCode::TransmitStatusWord),
            2 => Ok(ModeCode::InitiateSelfTest),
            3 => Ok(ModeCode::TransmitLastCommandWord),
            4 => Ok(ModeCode::TransmitBuiltInTestResult),
            5 => Ok(ModeCode::SynchronizeAlt),
            6 => Ok(ModeCode::TransmitVectorWord),
            7 => Ok(ModeCode::SynchronizeAlt2),
            8 => Ok(ModeCode::TransmitLastDataWord),
            _ => Err(ParseError::invalid_message_type("unknown mode code")),
        }
    }
}

/// A MIL-STD-1553B command word
///
/// Format (within the 16 data bits):
/// - Bits 15-12: Address (4 bits)
/// - Bit 11: Transmit/Receive flag
/// - Bits 10-6: Sub-address
/// - Bits 5-0: Data word count (0 encodes 32)
#[derive(Debug, Clone, PartialEq, Eq, Structural)]
pub struct Command {
    /// Address of the target device
    pub address: Address,
    /// Transmit or Receive
    pub command_type: CommandType,
    /// Sub-address (5 bits)
    pub sub_address: SubAddress,
    /// Data word count (1-32)
    pub word_count: u16,
}

/// The 16-bit field a command assembles, with each source field masked to
/// its layout width.
pub open spec fn command_data_bits(c: Command) -> u16 {
    (((c.address@ as int) % 16) * 0x1000 + (if c.command_type is Transmit {
        0x800int
    } else {
        0int
    }) + ((c.sub_address@ as int) % 32) * 0x40 + ((c.word_count as int) % 64)) as u16
}

/// Address field (bits 15-12) of a raw word's data bits.
pub open spec fn dec_addr(data: u32) -> int {
    (((data as int) / 2) / 0x1000) % 16
}

/// Transmit/Receive flag (bit 11) of a raw word's data bits.
pub open spec fn dec_is_transmit(data: u32) -> bool {
    ((((data as int) / 2) / 0x800) % 2) == 1
}

/// Sub-address field (bits 10-6) of a raw word's data bits.
pub open spec fn dec_sub(data: u32) -> int {
    (((data as int) / 2) / 0x40) % 32
}

/// Word-count field (bits 5-0) of a raw word's data bits, as on the wire.
pub open spec fn dec_wc_raw(data: u32) -> int {
    ((data as int) / 2) % 64
}

/// Decoded word count: a wire value of 0 means 32.
pub open spec fn dec_word_count(data: u32) -> int {
    if dec_wc_raw(data) == 0 {
        32
    } else {
        dec_wc_raw(data)
    }
}

impl Command {
    /// Create a new command
    pub fn new(
        address: Address,
        command_type: CommandType,
        sub_address: SubAddress,
        word_count: u16,
    ) -> (r: Result<Command, ParseError>)
        ensures
            word_count > 32 ==> (r matches Err(e) && e is InvalidCommand),
            word_count <= 32 ==> (r matches Ok(c) && c == (Command {
                address,
                command_type,
                sub_address,
                word_count,
            })),
    {
        if word_count > 32 {
            return Err(ParseError::invalid_command("word count exceeds maximum of 32"));
        }
        Ok(Command { address, command_type, sub_address, word_count })
    }

    /// Encode command as a word
    pub fn to_word(&self) -> (r: Result<Word, ParseError>)
        ensures
            r matches Ok(w) && w.spec_data() == frame_data_bits(command_data_bits(*self))
                && w.spec_word_type() is Command && parity_valid(w.spec_data()),
    {
        let mut field: u32 = (self.address.value() % 16) as u32 * 0x1000;
        field = field + (match self.command_type {
            CommandType::Transmit => 0x800,
            CommandType::Receive => 0,
        });
        field = field + (self.sub_address.value() % 32) as u32 * 0x40;
        field = field + (self.word_count % 64) as u32;
        assert(field == command_data_bits(*self));
        let parity = Word::calculate_parity(field as u16) as u32;
        let data = parity * 0x20000 + field * 2;
        proof {
            lemma_framed_parity_valid(field as u16);
        }
        Ok(Word::new_unchecked(data, WordType::Command))
    }

    /// Decode command from a word
    pub fn from_word(word: &Word) -> (r: Result<Command, ParseError>)
        ensures
            !(word.spec_word_type() is Command) ==> (r matches Err(e) && e is InvalidMessageType),
            word.spec_word_type() is Command ==> (r matches Ok(c) && c.address@ == dec_addr(
                word.spec_data(),
            ) && c.command_type == (if dec_is_transmit(word.spec_data()) {
                CommandType::Transmit
            } else {
                CommandType::Receive
            }) && c.sub_address@ == dec_sub(word.spec_data()) && c.word_count == dec_word_count(
                word.spec_data(),
            )),
    {
        if word.word_type() != WordType::Command {
            return Err(ParseError::invalid_message_type("expected command word"));
        }
        let data = word.data() / 2;
        let address = Address::new(((data / 0x1000) % 16) as u8)?;
        let command_type = if (data / 0x800) % 2 == 1 {
            CommandType::Transmit
        } else {
            CommandType::Receive
        };
        let sub_address = SubAddress::new(((data / 0x40) % 32) as u8)?;
        let word_count = (data % 64) as u16;
        Ok(
            Command {
                address,
                command_type,
                sub_address,
                word_count: if word_count == 0 {
                    32
                } else {
                    word_count
                },
            },
        )
    }
}

/// `c` is the command that decoding word `w` yields.
pub open spec fn decoded_command_of(w: Word, c: Command) -> bool {
    &&& c.address@ == dec_addr(w.spec_data())
    &&& c.command_type == (if dec_is_transmit(w.spec_data()) {
        CommandType::Transmit
    } else {
        CommandType::Receive
    })
    &&& c.sub_address@ == dec_sub(w.spec_data())
    &&& c.word_count == dec_word_count(w.spec_data())
}

/// `s` is the status word that decoding word `w` yields.
pub open spec fn decoded_status_of(w: Word, s: StatusWord) -> bool {
    &&& s.address@ == dec_addr(w.spec_data())
    &&& s.flags == flags_of_bits(dec_flag_bits(w.spec_data()))
    &&& s.error_code == dec_error_code(w.spec_data())
}

/// A command whose fields fit the wire layout round-trips exactly: decoding
/// the framed word recovers the address, direction, sub-address, and word
/// count, including the 0-means-32 rule.
pub proof fn lemma_command_roundtrip(c: Command)
    requires
        c.address@ <= 15,
        c.sub_address@ <= 31,
        1 <= c.word_count <= 32,
    ensures
        ({
            let d = frame_data_bits(command_data_bits(c));
            &&& dec_addr(d) == c.address@
            &&& dec_is_transmit(d) == (c.command_type is Transmit)
            &&& dec_sub(d) == c.sub_address@
            &&& dec_word_count(d) == c.word_count
        }),
{
    let a = c.address@ as int;
    let t: int = if c.command_type is Transmit {
        1
    } else {
        0
    };
    let s = c.sub_address@ as int;
    let w = c.word_count as int;
    let f = command_data_bits(c) as int;
    assert(f == a * 0x1000 + t * 0x800 + s * 0x40 + w);
    let p = parity_bit_for(command_data_bits(c)) as int;
    let d = frame_data_bits(command_data_bits(c)) as int;
    let d2 = p * 0x10000 + f;
    lemma_fundamental_div_mod_converse(d, 2, d2, 0);
    lemma_fundamental_div_mod_converse(d2, 0x1000, p * 16 + a, t * 0x800 + s * 0x40 + w);
    lemma_fundamental_div_mod_converse(p * 16 + a, 16, p, a);
    lemma_fundamental_div_mod_converse(d2, 0x800, p * 32 + a * 2 + t, s * 0x40 + w);
    lemma_fundamental_div_mod_converse(p * 32 + a * 2 + t, 2, p * 16 + a, t);
    lemma_fundamental_div_mod_converse(d2, 0x40, p * 0x400 + a * 0x40 + t * 0x20 + s, w);
    lemma_fundamental_div_mod_converse(
        p * 0x400 + a * 0x40 + t * 0x20 + s,
        32,
        p * 32 + a * 2 + t,
        s,
    );
    lemma_fundamental_div_mod_converse(d2, 64, p * 0x400 + a * 0x40 + t * 0x20 + s, w);
}

/// A MIL-STD-1553B status word
///
/// Format (within the 16 data bits):
/// - Bits 15-12: Address (4 bits)
/// - Bits 11-7: Status flags
/// - Bits 6-0: Message error code
#[derive(Debug, Clone, Copy, PartialEq, Eq, Structural)]
pub struct StatusWord {
    /// Address of the responding device
    pub address: Address,
    /// Status flags
    pub flags: StatusFlags,
    /// Message error code
    pub error_code: u16,
}

/// Status flags in a MIL-STD-1553B status word
#[derive(Debug, Clone, Copy, PartialEq, Eq, Structural)]
pub struct StatusFlags {
    /// Reserved flag
    pub reserved: bool,
    /// Subsystem flag
    pub subsystem_flag: bool,
    /// Busy flag
    pub busy: bool,
    /// BCast (broadcast) flag
    pub broadcast: bool,
    /// Parity error flag
    pub parity_error: bool,
}

/// The 5-bit field that packs the status flags.
pub open spec fn flags_bits(f: StatusFlags) -> int {
    (if f.reserved {
        16int
    } else {
        0int
    }) + (if f.subsystem_flag {
        8int
    } else {
        0int
    }) + (if f.busy {
        4int
    } else {
        0int
    }) + (if f.broadcast {
        2int
    } else {
        0int
    }) + (if f.parity_error {
        1int
    } else {
        0int
    })
}

/// The flags unpacked from a 5-bit field.
pub open spec fn flags_of_bits(bits: int) -> StatusFlags {
    StatusFlags {
        reserved: (bits / 16) % 2 == 1,
        subsystem_flag: (bits / 8) % 2 == 1,
        busy: (bits / 4) % 2 == 1,
        broadcast: (bits / 2) % 2 == 1,
        parity_error: bits % 2 == 1,
    }
}

/// The 16-bit field a status word assembles.
pub open spec fn status_data_bits(s: StatusWord) -> u16 {
    (((s.address@ as int) % 16) * 0x1000 + flags_bits(s.flags) * 0x80 + ((s.error_code as int)
        % 128)) as u16
}

/// Flags field (bits 11-7) of a raw word's data bits.
pub open spec fn dec_flag_bits(data: u32) -> int {
    (((data as int) / 2) / 0x80) % 32
}

/// Error-code field (bits 6-0) of a raw word's data bits.
pub open spec fn dec_error_code(data: u32) -> int {
    ((data as int) / 2) % 128
}

impl StatusFlags {
    /// Create a new status flags struct
    pub fn new(reserved: bool, subsystem: bool, busy: bool, broadcast: bool, parity: bool) -> (r:
        StatusFlags)
        ensures
            r == (StatusFlags {
                reserved,
                subsystem_flag: subsystem,
                busy,
                broadcast,
                parity_error: parity,
            }),
    {
        StatusFlags {
            reserved,
            subsystem_flag: subsystem,
            busy,
            broadcast,
            parity_error: parity,
        }
    }

    /// Encode flags as bits
    fn encode(&self) -> (r: u8)
        ensures
            r as int == flags_bits(*self),
            r < 32,
    {
        let mut flags: u8 = 0;
        if self.reserved {
            flags = flags + 0x10;
        }
        if self.subsystem_flag {
            flags = flags + 0x08;
        }
        if self.busy {
            flags = flags + 0x04;
        }
        if self.broadcast {
            flags = flags + 0x02;
        }
        if self.parity_error {
            flags = flags + 0x01;
        }
        flags
    }

    /// Decode flags from bits
    fn decode(bits: u8) -> (r: StatusFlags)
        ensures
            r == flags_of_bits(bits as int),
    {
        StatusFlags {
            reserved: (bits / 16) % 2 == 1,
            subsystem_flag: (bits / 8) % 2 == 1,
            busy: (bits / 4) % 2 == 1,
            broadcast: (bits / 2) % 2 == 1,
            parity_error: bits % 2 == 1,
        }
    }
}

/// Packing the five flags and unpacking the field gives the flags back.
pub proof fn lemma_flags_roundtrip(f: StatusFlags)
    ensures
        flags_of_bits(flags_bits(f)) == f,
{
    let r: int = if f.reserved {
        1
    } else {
        0
    };
    let s: int = if f.subsystem_flag {
        1
    } else {
        0
    };
    let b: int = if f.busy {
        1
    } else {
        0
    };
    let bc: int = if f.broadcast {
        1
    } else {
        0
    };
    let p: int = if f.parity_error {
        1
    } else {
        0
    };
    let v = flags_bits(f);
    assert(v == 16 * r + 8 * s + 4 * b + 2 * bc + p);
    lemma_fundamental_div_mod_converse(v, 16, r, 8 * s + 4 * b + 2 * bc + p);
    lemma_fundamental_div_mod_converse(r, 2, 0, r);
    lemma_fundamental_div_mod_converse(v, 8, 2 * r + s, 4 * b + 2 * bc + p);
    lemma_fundamental_div_mod_converse(2 * r + s, 2, r, s);
    lemma_fundamental_div_mod_converse(v, 4, 4 * r + 2 * s + b, 2 * bc + p);
    lemma_fundamental_div_mod_converse(4 * r + 2 * s + b, 2, 2 * r + s, b);
    lemma_fundamental_div_mod_converse(v, 2, 8 * r + 4 * s + 2 * b + bc, p);
    lemma_fundamental_div_mod_converse(8 * r + 4 * s + 2 * b + bc, 2, 4 * r + 2 * s + b, bc);
}

impl StatusWord {
    /// Create a new status word; the layout gives the error code 7 bits,
    /// so anything above 0x7F is rejected.
    pub fn new(address: Address, flags: StatusFlags, error_code: u16) -> (r: Result<
        StatusWord,
        ParseError,
    >)
        ensures
            error_code > 0x7F ==> (r matches Err(e) && e is InvalidResponse),
            error_code <= 0x7F ==> (r matches Ok(s) && s == (StatusWord {
                address,
                flags,
                error_code,
            })),
    {
        if error_code > 0x7F {
            return Err(ParseError::invalid_response("error code exceeds the 7-bit field"));
        }
        Ok(StatusWord { address, flags, error_code })
    }

    /// Encode status word as a word
    pub fn to_word(&self) -> (r: Result<Word, ParseError>)
        ensures
            r matches Ok(w) && w.spec_data() == frame_data_bits(status_data_bits(*self))
                && w.spec_word_type() is Status && parity_valid(w.spec_data()),
    {
        let mut field: u32 = (self.address.value() % 16) as u32 * 0x1000;
        field = field + (self.flags.encode() as u32) * 0x80;
        field = field + (self.error_code % 128) as u32;
        assert(field == status_data_bits(*self));
        let parity = Word::calculate_parity(field as u16) as u32;
        let data = parity * 0x20000 + field * 2;
        proof {
            lemma_framed_parity_valid(field as u16);
        }
        Ok(Word::new_unchecked(data, WordType::Status))
    }

    /// Decode status word from a word
    pub fn from_word(word: &Word) -> (r: Result<StatusWord, ParseError>)
        ensures
            !(word.spec_word_type() is Status) ==> (r matches Err(e) && e is InvalidMessageType),
            word.spec_word_type() is Status ==> (r matches Ok(s) && s.address@ == dec_addr(
                word.spec_data(),
            ) && s.flags == flags_of_bits(dec_flag_bits(word.spec_data())) && s.error_code
                == dec_error_code(word.spec_data())),
    {
        if word.word_type() != WordType::Status {
            return Err(ParseError::invalid_message_type("expected status word"));
        }
        let data = word.data() / 2;
        let address = Address::new(((data / 0x1000) % 16) as u8)?;
        let flags = StatusFlags::decode(((data / 0x80) % 32) as u8);
        let error_code = (data % 128) as u16;
        Ok(StatusWord { address, flags, error_code })
    }
}

/// A status word whose fields fit the wire layout round-trips exactly:
/// decoding the framed word recovers the address, the five flags, and the
/// error code (7 bits, the layout's real limit).
pub proof fn lemma_status_roundtrip(s: StatusWord)
    requires
        s.address@ <= 15,
        s.error_code <= 0x7F,
    ensures
        ({
            let d = frame_data_bits(status_data_bits(s));
            &&& dec_addr(d) == s.address@
            &&& flags_of_bits(dec_flag_bits(d)) == s.flags
            &&& dec_error_code(d) == s.error_code
        }),
{
    let a = s.address@ as int;
    let g = flags_bits(s.flags);
    let e = s.error_code as int;
    let f = status_data_bits(s) as int;
    assert(f == a * 0x1000 + g * 0x80 + e);
    let p = parity_bit_for(status_data_bits(s)) as int;
    let d = frame_data_bits(status_data_bits(s)) as int;
    let d2 = p * 0x10000 + f;
    lemma_fundamental_div_mod_converse(d, 2, d2, 0);
    lemma_fundamental_div_mod_converse(d2, 0x1000, p * 16 + a, g * 0x80 + e);
    lemma_fundamental_div_mod_converse(p * 16 + a, 16, p, a);
    lemma_fundamental_div_mod_converse(d2, 0x80, p * 512 + a * 32 + g, e);
    lemma_fundamental_div_mod_converse(p * 512 + a * 32 + g, 32, p * 16 + a, g);
    lemma_fundamental_div_mod_converse(d2, 128, p * 512 + a * 32 + g, e);
    lemma_flags_roundtrip(s.flags);
}

/// A complete message in MIL-STD-1553B protocol
#[derive(Debug, Clone, PartialEq, Eq)]
pub enum Message {
    /// Command followed by optional data words
    CommandData { command: Command, data_words: Vec<Word> },
    /// Status word response
    Status(StatusWord),
    /// Just a command word (for transmit commands)
    CommandOnly(Command),
}

impl Message {
    /// Get the address associated with this message
    pub fn address(&self) -> (r: Address)
        ensures
            self matches Message::CommandData { command, .. } ==> r == command.address,
            self matches Message::Status(status) ==> r == status.address,
            self matches Message::CommandOnly(command) ==> r == command.address,
    {
        match self {
            Message::CommandData { command, .. } => command.address,
            Message::Status(status) => status.address,
            Message::CommandOnly(command) => command.address,
        }
    }

    /// Get the number of data words if present
    pub fn data_word_count(&self) -> (r: Option<usize>)
        ensures
            self matches Message::CommandData { data_words, .. } ==> (r matches Some(n) && n
                == data_words@.len()),
            !(self is CommandData) ==> r is None,
    {
        match self {
            Message::CommandData { data_words, .. } => Some(data_words.len()),
            _ => None,
        }
    }
}

} // verus!
