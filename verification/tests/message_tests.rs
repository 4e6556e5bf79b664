use milstd1553b_parser::{
    Address, Command, CommandType, ModeCode, ParseError, StatusFlags, StatusWord, SubAddress,
};

#[test]
fn test_error_display() {
    let err = ParseError::invalid_word("test");
    assert!(err.message().contains("Invalid word"));
}

#[test]
fn test_subaddress_creation() {
    assert!(SubAddress::new(0).is_ok());
    assert!(SubAddress::new(31).is_ok());
    assert!(SubAddress::new(32).is_err());
}

#[test]
fn test_command_encode_decode() {
    let cmd = Command::new(
        Address::new(5).unwrap(),
        CommandType::Transmit,
        SubAddress::new(10).unwrap(),
        16,
    )
    .unwrap();

    let word = cmd.to_word().unwrap();
    let decoded = Command::from_word(&word).unwrap();

    assert_eq!(cmd, decoded);
}

#[test]
fn test_status_word_encode_decode() {
    let flags = StatusFlags::new(false, true, false, false, false);
    // Error code limited to 7 bits (0-127) due to word structure
    let status = StatusWord::new(Address::new(3).unwrap(), flags, 0x42).unwrap();

    let word = status.to_word().unwrap();
    let decoded = StatusWord::from_word(&word).unwrap();

    assert_eq!(status, decoded);
}

#[test]
fn test_mode_code_conversion() {
    let code = ModeCode::try_from(1u8).unwrap();
    assert_eq!(code, ModeCode::TransmitStatusWord);

    let result = ModeCode::try_from(99u8);
    assert!(result.is_err());
}
