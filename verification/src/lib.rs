//! Bit-exact codec and link-state tracker for the MIL-STD-1553B serial data
//! bus: Manchester (Thomas variant) physical-layer coding, 20-bit words with
//! odd parity, command/status word layouts, transaction assembly, and a Bus
//! Controller's view of its Remote Terminals.

pub mod encoding;
pub mod error;
pub mod message;
pub mod parser;
pub mod protocol;
pub mod word;

pub use error::ParseError;
pub use encoding::{ManchesterDecoder, ManchesterEncoder, ManchesterType};
pub use message::{Command, CommandType, Message, ModeCode, StatusFlags, StatusWord, SubAddress};
pub use parser::{Parser, ParserBuilder, Transaction};
pub use protocol::{BusController, MessageValidator, RTState, RTStats, RemoteTerminal};
pub use word::{Address, Bus, Word, WordType};
