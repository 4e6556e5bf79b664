use milstd1553b_parser::{Address, Bus, BusController, MessageValidator, RTState, RemoteTerminal};

#[test]
fn test_rt_creation() {
    let rt = RemoteTerminal::new(Address::new(5).unwrap());
    assert_eq!(rt.address.value(), 5);
    assert_eq!(rt.state, RTState::Idle);
    assert_eq!(rt.error_count, 0);
    assert_eq!(rt.success_count, 0);
}

#[test]
fn test_bc_register_rt() {
    let mut bc = BusController::new(Bus::BusA);
    bc.register_rt(Address::new(5).unwrap()).unwrap();
    assert_eq!(bc.rt_count(), 1);
    assert!(bc.get_rt(Address::new(5).unwrap()).is_some());
}

#[test]
fn test_bc_register_multiple_rts() {
    let mut bc = BusController::new(Bus::BusA);
    bc.register_rts(&[0, 5, 10, 15]).unwrap();
    assert_eq!(bc.rt_count(), 4);
}

#[test]
fn test_rt_recording() {
    let mut rt = RemoteTerminal::new(Address::new(5).unwrap());
    rt.record_success();
    assert_eq!(rt.success_count, 1);
    assert_eq!(rt.state, RTState::Idle);

    rt.record_error();
    assert_eq!(rt.error_count, 1);
    assert_eq!(rt.state, RTState::Error);
}

#[test]
fn test_message_validator() {
    MessageValidator::validate_word_count(16).unwrap();
    assert!(MessageValidator::validate_word_count(33).is_err());

    MessageValidator::validate_sub_address(31).unwrap();
    assert!(MessageValidator::validate_sub_address(32).is_err());
}
