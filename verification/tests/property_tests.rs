use milstd1553b_parser::{
    Address, Bus, BusController, Command, CommandType, ManchesterDecoder, ManchesterEncoder,
    ManchesterType, Message, ModeCode, ParseError, Parser, ParserBuilder, RemoteTerminal,
    StatusFlags, StatusWord, SubAddress, Word, WordType,
};

fn data_word(value: u16) -> Word {
    let parity = Word::calculate_parity(value) as u32;
    let word_value = (parity << 17) | ((value as u32) << 1);
    Word::new(word_value, WordType::Data).unwrap()
}

#[test]
fn address_roundtrip_all_values() {
    for addr in 0u8..=31 {
        let a = Address::new(addr).unwrap();
        assert_eq!(a.value(), addr);
    }
    for addr in 32u8..=255 {
        let e = Address::new(addr).unwrap_err();
        assert!(matches!(e, ParseError::InvalidAddress(_)));
    }
}

#[test]
fn parity_law_all_data_bits() {
    // Framing any 16-bit value with its computed parity always validates.
    for data_bits in 0u32..=0xFFFF {
        let parity = Word::calculate_parity(data_bits as u16) as u32;
        let word_value = (parity << 17) | (data_bits << 1);
        assert!(Word::new(word_value, WordType::Data).is_ok());
    }
}

#[test]
fn manchester_bits_roundtrip_various_lengths() {
    let patterns: Vec<Vec<bool>> = vec![
        vec![],
        vec![true],
        vec![false],
        vec![true, false, false],
        vec![true; 7],
        vec![false; 12],
        (0..20).map(|i| i % 3 == 0).collect(),
        (0..33).map(|i| i % 2 == 0).collect(),
    ];
    for bits in patterns {
        let encoded = ManchesterEncoder::encode_bits(&bits);
        let decoded = ManchesterDecoder::decode_bits(&encoded, bits.len()).unwrap();
        assert_eq!(decoded, bits);
    }
}

#[test]
fn manchester_word_roundtrip_sample_values() {
    for &w in &[0u32, 1, 0x12345, 0xABCDE, 0xFFFFF, 0x80000, 0x55555, 0xAAAAA] {
        let encoded = ManchesterEncoder::encode_word(w);
        assert_eq!(encoded.len(), 5);
        assert_eq!(ManchesterDecoder::decode_word(&encoded).unwrap(), w);
    }
}

#[test]
fn manchester_invalid_pairs_always_rejected() {
    for pair in [0b00u8, 0b11] {
        let e = ManchesterDecoder::decode_bit(pair).unwrap_err();
        assert!(matches!(e, ParseError::InvalidManchesterEncoding(_)));
    }
    let e = ManchesterDecoder::decode_bits(&[0b0000_0000], 1).unwrap_err();
    assert!(matches!(e, ParseError::InvalidManchesterEncoding(_)));
}

#[test]
fn command_roundtrip_all_valid_fields() {
    for addr in 0u8..=15 {
        for sub in [0u8, 10, 31] {
            for wc in [1u16, 16, 31, 32] {
                for ct in [CommandType::Transmit, CommandType::Receive] {
                    let cmd = Command::new(
                        Address::new(addr).unwrap(),
                        ct,
                        SubAddress::new(sub).unwrap(),
                        wc,
                    )
                    .unwrap();
                    let decoded = Command::from_word(&cmd.to_word().unwrap()).unwrap();
                    assert_eq!(decoded, cmd);
                }
            }
        }
    }
}

#[test]
fn command_wire_count_zero_decodes_to_32() {
    // A command constructed with word count 0 encodes a wire field of 0,
    // which decodes to 32 by the layout's rule.
    let cmd = Command::new(
        Address::new(1).unwrap(),
        CommandType::Receive,
        SubAddress::new(2).unwrap(),
        0,
    )
    .unwrap();
    let decoded = Command::from_word(&cmd.to_word().unwrap()).unwrap();
    assert_eq!(decoded.word_count, 32);
}

#[test]
fn status_roundtrip_all_flag_combinations() {
    for addr in [0u8, 3, 15] {
        for bits in 0u8..32 {
            let flags = StatusFlags::new(
                bits & 0x10 != 0,
                bits & 0x08 != 0,
                bits & 0x04 != 0,
                bits & 0x02 != 0,
                bits & 0x01 != 0,
            );
            for err_code in [0u16, 0x42, 0x7F] {
                let status = StatusWord::new(Address::new(addr).unwrap(), flags, err_code).unwrap();
                let decoded = StatusWord::from_word(&status.to_word().unwrap()).unwrap();
                assert_eq!(decoded, status);
            }
        }
    }
}

#[test]
fn command_example_exact_encoding() {
    // Command{address=5, Transmit, sub_address=10, word_count=16} has data
    // bits 0b0101_1_01010_010000 and the odd-parity completion 1.
    let cmd = Command::new(
        Address::new(5).unwrap(),
        CommandType::Transmit,
        SubAddress::new(10).unwrap(),
        16,
    )
    .unwrap();
    let word = cmd.to_word().unwrap();
    assert_eq!(word.get_data_bits(), 0b0101_1_01010_010000);
    assert_eq!(word.get_parity_bit(), true);
    assert_eq!(word.data(), 0x2B520);
    assert_eq!(word.word_type(), WordType::Command);
    let decoded = Command::from_word(&word).unwrap();
    assert_eq!(decoded.address.value(), 5);
    assert_eq!(decoded.command_type, CommandType::Transmit);
    assert_eq!(decoded.sub_address.value(), 10);
    assert_eq!(decoded.word_count, 16);
}

#[test]
fn parse_message_command_with_data_words() {
    let parser = Parser::new(Bus::BusA);
    let cmd = Command::new(
        Address::new(5).unwrap(),
        CommandType::Receive,
        SubAddress::new(1).unwrap(),
        3,
    )
    .unwrap();
    let mut words = vec![cmd.to_word().unwrap()];
    for v in [0x1111u16, 0x2222, 0x3333] {
        words.push(data_word(v));
    }
    let msg = parser.parse_message(&words).unwrap();
    match msg {
        Message::CommandData { command, data_words } => {
            assert_eq!(command, cmd);
            assert_eq!(data_words.len(), 3);
        },
        _ => panic!("expected CommandData"),
    }
}

#[test]
fn parse_message_stops_at_non_data_word() {
    let parser = Parser::new(Bus::BusA);
    let cmd = Command::new(
        Address::new(5).unwrap(),
        CommandType::Receive,
        SubAddress::new(1).unwrap(),
        2,
    )
    .unwrap();
    let status = StatusWord::new(
        Address::new(5).unwrap(),
        StatusFlags::new(false, false, false, false, false),
        0,
    )
    .unwrap();
    let words = vec![
        cmd.to_word().unwrap(),
        data_word(0xAAAA),
        data_word(0xBBBB),
        status.to_word().unwrap(),
        data_word(0xCCCC),
    ];
    let msg = parser.parse_message(&words).unwrap();
    assert_eq!(msg.data_word_count(), Some(2));
    assert_eq!(msg.address().value(), 5);
}

#[test]
fn parse_message_command_only_without_data() {
    let parser = Parser::new(Bus::BusA);
    let cmd = Command::new(
        Address::new(7).unwrap(),
        CommandType::Transmit,
        SubAddress::new(4).unwrap(),
        8,
    )
    .unwrap();
    let msg = parser.parse_message(&[cmd.to_word().unwrap()]).unwrap();
    match &msg {
        Message::CommandOnly(command) => assert_eq!(command, &cmd),
        _ => panic!("expected CommandOnly"),
    }
    assert_eq!(msg.data_word_count(), None);
}

#[test]
fn parse_message_status_and_rejections() {
    let parser = Parser::new(Bus::BusB);
    let status = StatusWord::new(
        Address::new(3).unwrap(),
        StatusFlags::new(true, false, true, false, false),
        0x21,
    )
    .unwrap();
    let msg = parser.parse_message(&[status.to_word().unwrap()]).unwrap();
    match msg {
        Message::Status(s) => assert_eq!(s, status),
        _ => panic!("expected Status"),
    }

    let e = parser.parse_message(&[]).unwrap_err();
    assert!(matches!(e, ParseError::InsufficientData(_)));

    let e = parser.parse_message(&[data_word(0x1234)]).unwrap_err();
    assert!(matches!(e, ParseError::InvalidMessageType(_)));
}

#[test]
fn parse_words_recovers_encoded_data_words() {
    let parser = Parser::new(Bus::BusA);
    let values = [0x0001u16, 0xFFFF, 0x5A5A];
    let bytes = parser.encode_data_words(&values).unwrap();
    assert_eq!(bytes.len(), 15);
    let words = parser.parse_words(&bytes).unwrap();
    assert_eq!(words.len(), 3);
    for (word, &v) in words.iter().zip(values.iter()) {
        assert_eq!(word.get_data_bits(), v);
        assert_eq!(word.word_type(), WordType::Data);
    }
}

#[test]
fn parse_transaction_raw_bytes_limitations() {
    let parser = Parser::new(Bus::BusA);

    // Empty input: nothing to parse.
    let e = parser.parse_transaction(&[]).unwrap_err();
    assert!(matches!(e, ParseError::InsufficientData(_)));

    // Raw bytes decode to provisionally Data-tagged words, which the
    // classification rejects.
    let cmd = Command::new(
        Address::new(5).unwrap(),
        CommandType::Transmit,
        SubAddress::new(10).unwrap(),
        16,
    )
    .unwrap();
    let bytes = parser.encode_command(&cmd).unwrap();
    let e = parser.parse_transaction(&bytes).unwrap_err();
    assert!(matches!(e, ParseError::InvalidMessageType(_)));
}

#[test]
fn encode_status_matches_word_encoding() {
    let parser = Parser::new(Bus::BusA);
    let status = StatusWord::new(
        Address::new(9).unwrap(),
        StatusFlags::new(false, false, false, true, true),
        5,
    )
    .unwrap();
    let bytes = parser.encode_status(&status).unwrap();
    let expected = ManchesterEncoder::encode_word(status.to_word().unwrap().data());
    assert_eq!(bytes, expected);
    assert_eq!(
        ManchesterDecoder::decode_word(&bytes).unwrap(),
        status.to_word().unwrap().data()
    );
}

#[test]
fn parser_builder_default_is_bus_a() {
    let parser = ParserBuilder::default().build();
    assert_eq!(parser.bus, Bus::BusA);
}

#[test]
fn error_variants_from_their_triggers() {
    assert!(matches!(
        Word::new(0x100000, WordType::Data).unwrap_err(),
        ParseError::InvalidWord(_)
    ));
    // Data bits 0 with parity bit 0 has an even (zero) count of ones.
    assert!(matches!(
        Word::new(0, WordType::Data).unwrap_err(),
        ParseError::ParityError(_)
    ));
    assert!(matches!(
        Address::new(40).unwrap_err(),
        ParseError::InvalidAddress(_)
    ));
    assert!(matches!(
        SubAddress::new(200).unwrap_err(),
        ParseError::InvalidAddress(_)
    ));
    let status_word = StatusWord::new(
        Address::new(1).unwrap(),
        StatusFlags::new(false, false, false, false, false),
        0,
    )
    .unwrap()
    .to_word()
    .unwrap();
    assert!(matches!(
        Command::from_word(&status_word).unwrap_err(),
        ParseError::InvalidMessageType(_)
    ));
    assert!(matches!(
        StatusWord::from_word(&data_word(7)).unwrap_err(),
        ParseError::InvalidMessageType(_)
    ));
    assert!(matches!(
        ManchesterDecoder::decode_word(&[0x66, 0x66, 0x66, 0x66]).unwrap_err(),
        ParseError::InsufficientData(_)
    ));
    // One byte of valid pairs holds only 4 of the 5 requested bits.
    assert!(matches!(
        ManchesterDecoder::decode_bits(&[0x66], 5).unwrap_err(),
        ParseError::InsufficientData(_)
    ));
    assert!(matches!(
        Command::new(
            Address::new(1).unwrap(),
            CommandType::Receive,
            SubAddress::new(0).unwrap(),
            33
        )
        .unwrap_err(),
        ParseError::InvalidCommand(_)
    ));
    assert!(matches!(
        StatusWord::new(
            Address::new(1).unwrap(),
            StatusFlags::new(false, false, false, false, false),
            0x800
        )
        .unwrap_err(),
        ParseError::InvalidResponse(_)
    ));
    assert!(matches!(
        milstd1553b_parser::MessageValidator::validate_word_count(33).unwrap_err(),
        ParseError::ValidationError(_)
    ));
}

#[test]
fn error_messages_carry_kind_and_detail() {
    assert_eq!(
        ParseError::parity_error("odd").message(),
        "Parity error: odd"
    );
    assert_eq!(
        ParseError::insufficient_data("x").message(),
        "Insufficient data: x"
    );
    assert_eq!(
        ParseError::invalid_manchester("p").message(),
        "Invalid Manchester encoding: p"
    );
    assert_eq!(ParseError::parse_failed("q").message(), "Parse error: q");
    assert_eq!(
        ParseError::validation_error("v").message(),
        "Validation error: v"
    );
    assert_eq!(
        ParseError::invalid_command("c").message(),
        "Invalid command: c"
    );
    assert_eq!(
        ParseError::invalid_response("r").message(),
        "Invalid response: r"
    );
    assert_eq!(
        ParseError::invalid_message_type("m").message(),
        "Invalid message type: m"
    );
    assert_eq!(
        ParseError::invalid_address("a").message(),
        "Invalid address: a"
    );
}

#[test]
fn rt_responding_window_is_exact() {
    let mut rt = RemoteTerminal::new(Address::new(5).unwrap());
    // Never seen: not responding at any time, for any timeout.
    assert!(!rt.is_responding_at(1_000_000, 0));
    assert!(!rt.is_responding(1_000_000_000));

    rt.record_success_at(1_000);
    assert_eq!(rt.last_seen, Some(1_000));
    // Within the window.
    assert!(rt.is_responding_at(12, 1_000));
    assert!(rt.is_responding_at(12, 1_011));
    // At and past the window's edge.
    assert!(!rt.is_responding_at(12, 1_012));
    assert!(!rt.is_responding_at(12, 2_000));
    // A zero timeout never responds.
    assert!(!rt.is_responding_at(0, 1_000));
    // A clock that ran backwards counts as just seen.
    assert!(rt.is_responding_at(12, 500));
}

#[test]
fn rt_responding_with_real_clock() {
    let mut rt = RemoteTerminal::new(Address::new(5).unwrap());
    assert!(!rt.is_responding(1_000_000_000));
    rt.record_success();
    // Generous window: just-recorded device responds.
    assert!(rt.is_responding(600_000_000_000));
    // Zero window: nothing responds.
    assert!(!rt.is_responding(0));
}

#[test]
fn bc_error_rate_counts() {
    let mut bc = BusController::new(Bus::BusA);
    let addr = Address::new(5).unwrap();
    bc.register_rt(addr).unwrap();

    let stats = bc.get_rt_stats(addr).unwrap();
    assert_eq!(stats.success_count, 0);
    assert_eq!(stats.error_count, 0);
    assert_eq!(stats.error_rate_ratio(), (0, 1));

    bc.record_rt_success(addr).unwrap();
    bc.record_rt_error(addr).unwrap();

    let stats = bc.get_rt_stats(addr).unwrap();
    assert_eq!(stats.success_count, 1);
    assert_eq!(stats.error_count, 1);
    let (num, den) = stats.error_rate_ratio();
    assert_eq!((num, den), (1, 2));
    assert_eq!(num as f32 / den as f32, 0.5);
}

#[test]
fn bc_registry_operations() {
    let mut bc = BusController::new(Bus::BusB);
    assert_eq!(bc.bus, Bus::BusB);
    assert_eq!(bc.response_timeout_us, 12);
    assert_eq!(bc.rt_count(), 0);

    // Addresses 30 and 31 are not valid Remote Terminals.
    assert!(matches!(
        bc.register_rt(Address::new(30).unwrap()).unwrap_err(),
        ParseError::InvalidAddress(_)
    ));
    assert!(matches!(
        bc.register_rt(Address::broadcast()).unwrap_err(),
        ParseError::InvalidAddress(_)
    ));
    assert!(matches!(
        bc.register_rts(&[1, 2, 30]).unwrap_err(),
        ParseError::InvalidAddress(_)
    ));
    // The valid prefix stayed registered.
    assert_eq!(bc.rt_count(), 2);

    // Re-registering overwrites with a fresh record.
    bc.record_rt_success(Address::new(1).unwrap()).unwrap();
    bc.register_rt(Address::new(1).unwrap()).unwrap();
    assert_eq!(bc.rt_count(), 2);
    let rt = bc.get_rt(Address::new(1).unwrap()).unwrap();
    assert_eq!(rt.success_count, 0);
    assert_eq!(rt.last_seen, None);

    // Unregistered addresses are rejected by the recorders.
    assert!(matches!(
        bc.record_rt_success(Address::new(9).unwrap()).unwrap_err(),
        ParseError::InvalidAddress(_)
    ));
    assert!(bc.get_rt(Address::new(9).unwrap()).is_none());

    let listed = bc.list_rts();
    assert_eq!(listed.len(), 2);
    assert_eq!(listed[0].address.value(), 1);
    assert_eq!(listed[1].address.value(), 2);
}

#[test]
fn bc_get_rt_mut_updates_in_place() {
    let mut bc = BusController::new(Bus::BusA);
    let addr = Address::new(4).unwrap();
    bc.register_rt(addr).unwrap();
    assert!(bc.get_rt_mut(Address::new(5).unwrap()).is_none());
    let rt = bc.get_rt_mut(addr).unwrap();
    rt.record_success();
    assert_eq!(bc.get_rt(addr).unwrap().success_count, 1);
}

#[test]
fn bc_responding_rts() {
    let mut bc = BusController::new(Bus::BusA);
    bc.register_rts(&[1, 2, 3]).unwrap();
    // Nothing recorded: nobody responds, whatever the clock says.
    assert!(bc.get_responding_rts().is_empty());

    bc.response_timeout_us = 600_000_000_000;
    bc.record_rt_success(Address::new(2).unwrap()).unwrap();
    let responding = bc.get_responding_rts();
    assert_eq!(responding.len(), 1);
    assert_eq!(responding[0].address.value(), 2);

    // A zero window excludes everyone.
    bc.response_timeout_us = 0;
    assert!(bc.get_responding_rts().is_empty());
}

#[test]
fn bc_all_stats_snapshot() {
    let mut bc = BusController::new(Bus::BusA);
    bc.register_rts(&[1, 2]).unwrap();
    bc.record_rt_error(Address::new(2).unwrap()).unwrap();
    let stats = bc.get_all_stats();
    assert_eq!(stats.len(), 2);
    assert_eq!(stats[0].address.value(), 1);
    assert_eq!(stats[0].error_count, 0);
    assert_eq!(stats[1].address.value(), 2);
    assert_eq!(stats[1].error_count, 1);
    assert_eq!(stats[1].state, milstd1553b_parser::RTState::Error);
}

#[test]
fn address_predicates() {
    assert!(Address::new(0).unwrap().is_remote_terminal());
    assert!(Address::new(29).unwrap().is_remote_terminal());
    assert!(!Address::new(30).unwrap().is_remote_terminal());
    assert!(!Address::broadcast().is_remote_terminal());
    assert!(!Address::new(29).unwrap().is_broadcast());
    assert_eq!(Bus::BusA.as_bit(), 0);
    assert_eq!(Bus::BusB.as_bit(), 1);
}

#[test]
fn word_bit_field_accessors() {
    // 0b01_1_0101101010010000_0: sync 0b01, parity 1, data 0x5A90, start 0.
    let raw = (0b01u32 << 18) | (1 << 17) | (0x5A90 << 1);
    let word = Word::new_unchecked(raw, WordType::Command);
    assert_eq!(word.get_sync_bits(), 0b01);
    assert_eq!(word.get_parity_bit(), true);
    assert_eq!(word.get_data_bits(), 0x5A90);
    assert_eq!(word.data(), raw);
    assert_eq!(word.word_type(), WordType::Command);
}

#[test]
fn manchester_type_for_milstd_is_thomas() {
    assert_eq!(ManchesterType::milstd(), ManchesterType::Thomas);
}

#[test]
fn mode_code_all_wire_values() {
    let expected = [
        ModeCode::Synchronize,
        ModeCode::TransmitStatusWord,
        ModeCode::InitiateSelfTest,
        ModeCode::TransmitLastCommandWord,
        ModeCode::TransmitBuiltInTestResult,
        ModeCode::SynchronizeAlt,
        ModeCode::TransmitVectorWord,
        ModeCode::SynchronizeAlt2,
        ModeCode::TransmitLastDataWord,
    ];
    for (value, want) in expected.iter().enumerate() {
        assert_eq!(ModeCode::try_from(value as u8).unwrap(), *want);
    }
    for value in 9u8..=20 {
        assert!(matches!(
            ModeCode::try_from(value).unwrap_err(),
            ParseError::InvalidMessageType(_)
        ));
    }
}

#[test]
fn message_address_of_status() {
    let parser = Parser::new(Bus::BusA);
    let status = StatusWord::new(
        Address::new(11).unwrap(),
        StatusFlags::new(false, false, false, false, false),
        0,
    )
    .unwrap();
    let msg = parser.parse_message(&[status.to_word().unwrap()]).unwrap();
    assert_eq!(msg.address().value(), 11);
    assert_eq!(msg.data_word_count(), None);
}

#[test]
fn status_error_code_layout_limit() {
    let addr = Address::new(2).unwrap();
    let flags = StatusFlags::new(false, false, false, false, false);
    // The layout gives the error code 7 bits: 0x7F is the last accepted
    // value, anything above is rejected before it could be truncated.
    assert!(StatusWord::new(addr, flags, 0x7F).is_ok());
    assert!(matches!(
        StatusWord::new(addr, flags, 0x80).unwrap_err(),
        ParseError::InvalidResponse(_)
    ));
    assert!(matches!(
        StatusWord::new(addr, flags, 0x7FF).unwrap_err(),
        ParseError::InvalidResponse(_)
    ));
}

#[test]
fn bc_recording_at_fixed_instants() {
    let mut bc = BusController::new(Bus::BusA);
    let addr = Address::new(6).unwrap();
    bc.register_rt(addr).unwrap();

    bc.record_rt_success_at(addr, 1_000).unwrap();
    let st = bc.get_rt_stats_at(addr, 1_005).unwrap();
    assert_eq!(st.success_count, 1);
    assert!(st.is_responding); // 5 < 12, the default window

    bc.record_rt_error_at(addr, 2_000).unwrap();
    let rt = bc.get_rt(addr).unwrap();
    assert_eq!(rt.last_seen, Some(2_000));
    assert_eq!(rt.error_count, 1);
    let st = bc.get_rt_stats_at(addr, 2_012).unwrap();
    assert!(!st.is_responding); // the elapsed 12 reaches the window's edge

    assert!(matches!(
        bc.record_rt_error_at(Address::new(7).unwrap(), 0).unwrap_err(),
        ParseError::InvalidAddress(_)
    ));
}

#[test]
fn bc_register_rts_keeps_valid_prefix_on_failure() {
    let mut bc = BusController::new(Bus::BusA);
    bc.register_rt(Address::new(9).unwrap()).unwrap();
    let e = bc.register_rts(&[3, 30, 4]).unwrap_err();
    assert!(matches!(e, ParseError::InvalidAddress(_)));
    // The address before the invalid one is registered fresh, the one after
    // it is not, and the previously registered record survives.
    assert_eq!(bc.rt_count(), 2);
    let rt3 = bc.get_rt(Address::new(3).unwrap()).unwrap();
    assert_eq!(rt3.success_count, 0);
    assert_eq!(rt3.last_seen, None);
    assert!(bc.get_rt(Address::new(4).unwrap()).is_none());
    assert!(bc.get_rt(Address::new(9).unwrap()).is_some());
}
