//! Error taxonomy for MIL-STD-1553B parsing and validation.

use vstd::prelude::*;

verus! {

/// Error kinds encountered during MIL-STD-1553B parsing and validation.
/// Each variant carries a human-readable detail message.
#[derive(Debug, Clone, PartialEq, Eq)]
pub enum ParseError {
    /// Invalid word format or structure
    InvalidWord(String),
    /// Parity check failed
    ParityError(String),
    /// Invalid address specified
    InvalidAddress(String),
    /// Invalid message type
    InvalidMessageType(String),
    /// Insufficient data to parse
    InsufficientData(String),
    /// Invalid Manchester encoding
    InvalidManchesterEncoding(String),
    /// Invalid command format
    InvalidCommand(String),
    /// Invalid response format
    InvalidResponse(String),
    /// Status word error
    StatusError(String),
    /// Bus error detected
    BusError(String),
    /// Generic parsing error
    ParseFailed(String),
    /// Validation error
    ValidationError(String),
}

impl ParseError {
    /// Create a new InvalidWord error
    pub fn invalid_word(msg: &str) -> (r: ParseError)
        ensures
            r matches ParseError::InvalidWord(m) && m@ == msg@,
    {
        ParseError::InvalidWord(String::from_str(msg))
    }

    /// Create a new ParityError
    pub fn parity_error(msg: &str) -> (r: ParseError)
        ensures
            r matches ParseError::ParityError(m) && m@ == msg@,
    {
        ParseError::ParityError(String::from_str(msg))
    }

    /// Create a new InvalidAddress error
    pub fn invalid_address(msg: &str) -> (r: ParseError)
        ensures
            r matches ParseError::InvalidAddress(m) && m@ == msg@,
    {
        ParseError::InvalidAddress(String::from_str(msg))
    }

    /// Create a new InvalidMessageType error
    pub fn invalid_message_type(msg: &str) -> (r: ParseError)
        ensures
            r matches ParseError::InvalidMessageType(m) && m@ == msg@,
    {
        ParseError::InvalidMessageType(String::from_str(msg))
    }

    /// Create a new InsufficientData error
    pub fn insufficient_data(msg: &str) -> (r: ParseError)
        ensures
            r matches ParseError::InsufficientData(m) && m@ == msg@,
    {
        ParseError::InsufficientData(String::from_str(msg))
    }

    /// Create a new InvalidManchesterEncoding error
    pub fn invalid_manchester(msg: &str) -> (r: ParseError)
        ensures
            r matches ParseError::InvalidManchesterEncoding(m) && m@ == msg@,
    {
        ParseError::InvalidManchesterEncoding(String::from_str(msg))
    }

    /// Create a new ParseFailed error
    pub fn parse_failed(msg: &str) -> (r: ParseError)
        ensures
            r matches ParseError::ParseFailed(m) && m@ == msg@,
    {
        ParseError::ParseFailed(String::from_str(msg))
    }

    /// Create a new ValidationError
    pub fn validation_error(msg: &str) -> (r: ParseError)
        ensures
            r matches ParseError::ValidationError(m) && m@ == msg@,
    {
        ParseError::ValidationError(String::from_str(msg))
    }

    /// Create a new InvalidCommand error
    pub fn invalid_command(msg: &str) -> (r: ParseError)
        ensures
            r matches ParseError::InvalidCommand(m) && m@ == msg@,
    {
        ParseError::InvalidCommand(String::from_str(msg))
    }

    /// Create a new InvalidResponse error
    pub fn invalid_response(msg: &str) -> (r: ParseError)
        ensures
            r matches ParseError::InvalidResponse(m) && m@ == msg@,
    {
        ParseError::InvalidResponse(String::from_str(msg))
    }

    /// Render the error as "<kind>: <detail>"; stands in for `Display`,
    /// which verified types cannot implement.
    pub fn message(&self) -> (r: String)
        ensures
            self matches ParseError::InvalidWord(m) ==> r@ == "Invalid word: "@ + m@,
            self matches ParseError::ParityError(m) ==> r@ == "Parity error: "@ + m@,
            self matches ParseError::InvalidAddress(m) ==> r@ == "Invalid address: "@ + m@,
            self matches ParseError::InvalidMessageType(m) ==> r@ == "Invalid message type: "@ + m@,
            self matches ParseError::InsufficientData(m) ==> r@ == "Insufficient data: "@ + m@,
            self matches ParseError::InvalidManchesterEncoding(m) ==> r@ == "Invalid Manchester encoding: "@
                + m@,
            self matches ParseError::InvalidCommand(m) ==> r@ == "Invalid command: "@ + m@,
            self matches ParseError::InvalidResponse(m) ==> r@ == "Invalid response: "@ + m@,
            self matches ParseError::StatusError(m) ==> r@ == "Status error: "@ + m@,
            self matches ParseError::BusError(m) ==> r@ == "Bus error: "@ + m@,
            self matches ParseError::ParseFailed(m) ==> r@ == "Parse error: "@ + m@,
            self matches ParseError::ValidationError(m) ==> r@ == "Validation error: "@ + m@,
    {
        match self {
            ParseError::InvalidWord(m) => String::from_str("Invalid word: ").concat(m.as_str()),
            ParseError::ParityError(m) => String::from_str("Parity error: ").concat(m.as_str()),
            ParseError::InvalidAddress(m) => String::from_str("Invalid address: ").concat(m.as_str()),
            ParseError::InvalidMessageType(m) => String::from_str("Invalid message type: ").concat(
                m.as_str(),
            ),
            ParseError::InsufficientData(m) => String::from_str("Insufficient data: ").concat(
                m.as_str(),
            ),
            ParseError::InvalidManchesterEncoding(m) => String::from_str(
                "Invalid Manchester encoding: ",
            ).concat(m.as_str()),
            ParseError::InvalidCommand(m) => String::from_str("Invalid command: ").concat(m.as_str()),
            ParseError::InvalidResponse(m) => String::from_str("Invalid response: ").concat(
                m.as_str(),
            ),
            ParseError::StatusError(m) => String::from_str("Status error: ").concat(m.as_str()),
            ParseError::BusError(m) => String::from_str("Bus error: ").concat(m.as_str()),
            ParseError::ParseFailed(m) => String::from_str("Parse error: ").concat(m.as_str()),
            ParseError::ValidationError(m) => String::from_str("Validation error: ").concat(
                m.as_str(),
            ),
        }
    }
}

} // verus!
