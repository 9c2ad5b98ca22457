use lockstep::messages::{AbilityId, Handshake, SetInputDelay, TimedCommand, TimingPacket, WireError};

#[test]
fn timing_packet_is_eight_little_endian_bytes() {
    let packet = TimingPacket { sequence_number: 0x0102_0304_0506_0708 };
    assert_eq!(packet.encode(), vec![8, 7, 6, 5, 4, 3, 2, 1]);
}

#[test]
fn timing_packet_round_trip() {
    for n in [0u64, 1, 10, 11, 0xdead_beef, u64::MAX] {
        let packet = TimingPacket { sequence_number: n };
        assert_eq!(TimingPacket::decode(&packet.encode()), Ok(packet));
    }
}

#[test]
fn timing_packet_decode_reads_the_last_eight_bytes() {
    let bytes = [0xee, 1, 0, 0, 0, 0, 0, 0, 0];
    assert_eq!(TimingPacket::decode(&bytes), Ok(TimingPacket { sequence_number: 1 }));
    let bytes = [0xee, 0xdd, 0, 1, 0, 0, 0, 0, 0, 0];
    assert_eq!(TimingPacket::decode(&bytes), Ok(TimingPacket { sequence_number: 256 }));
}

#[test]
fn timing_packet_decode_refuses_short_payloads() {
    assert_eq!(TimingPacket::decode(&[]), Err(WireError::Malformed));
    assert_eq!(TimingPacket::decode(&[1, 2, 3, 4, 5, 6, 7]), Err(WireError::Malformed));
}

#[test]
fn set_input_delay_is_eight_little_endian_bytes() {
    let message = SetInputDelay { input_delay: 5 };
    assert_eq!(message.encode(), vec![5, 0, 0, 0, 0, 0, 0, 0]);
}

#[test]
fn set_input_delay_round_trip() {
    for n in [0u64, 2, 3, 1 << 40, u64::MAX] {
        let message = SetInputDelay { input_delay: n };
        assert_eq!(SetInputDelay::decode(&message.encode()), Ok(message));
    }
}

#[test]
fn set_input_delay_decode_refuses_short_payloads() {
    assert_eq!(SetInputDelay::decode(&[0; 7]), Err(WireError::Malformed));
}

#[test]
fn handshake_is_text_then_end_offset_then_length() {
    let handshake = Handshake { my_name: String::from("ab") };
    assert_eq!(handshake.encode(), Some(vec![b'a', b'b', 2, 0, 0, 0, 2, 0, 0, 0]));
}

#[test]
fn handshake_with_empty_name_is_a_bare_reference() {
    let handshake = Handshake { my_name: String::new() };
    assert_eq!(handshake.encode(), Some(vec![0, 0, 0, 0, 0, 0, 0, 0]));
    let back = Handshake::decode(&[0, 0, 0, 0, 0, 0, 0, 0]).unwrap();
    assert_eq!(back.my_name, "");
}

#[test]
fn handshake_counts_bytes_not_characters() {
    let handshake = Handshake { my_name: String::from("é") };
    assert_eq!(handshake.encode(), Some(vec![0xc3, 0xa9, 2, 0, 0, 0, 2, 0, 0, 0]));
}

#[test]
fn handshake_round_trip() {
    for name in ["alice", "bob", "", "Zoë", "名前", "a much longer name with spaces in it"] {
        let handshake = Handshake { my_name: String::from(name) };
        let payload = handshake.encode().unwrap();
        assert_eq!(payload.len(), name.len() + 8);
        let back = Handshake::decode(&payload).unwrap();
        assert_eq!(back.my_name, name);
    }
}

#[test]
fn handshake_decode_follows_the_reference() {
    // The reference points at "bc": it ends at offset 3 and is 2 long.
    let bytes = [b'a', b'b', b'c', b'd', 3, 0, 0, 0, 2, 0, 0, 0];
    assert_eq!(Handshake::decode(&bytes).unwrap().my_name, "bc");
}

#[test]
fn handshake_decode_refuses_short_payloads() {
    assert!(matches!(Handshake::decode(&[]), Err(WireError::Malformed)));
    assert!(matches!(Handshake::decode(&[0; 7]), Err(WireError::Malformed)));
}

#[test]
fn handshake_decode_refuses_a_reference_that_points_outside() {
    // Ends at offset 3 of a body of 2 bytes.
    let bytes = [b'a', b'b', 3, 0, 0, 0, 1, 0, 0, 0];
    assert!(matches!(Handshake::decode(&bytes), Err(WireError::Malformed)));
    // 3 long but ends at offset 2.
    let bytes = [b'a', b'b', 2, 0, 0, 0, 3, 0, 0, 0];
    assert!(matches!(Handshake::decode(&bytes), Err(WireError::Malformed)));
}

#[test]
fn handshake_decode_refuses_bytes_that_are_not_utf8() {
    let bytes = [0xff, 0xfe, 2, 0, 0, 0, 2, 0, 0, 0];
    assert!(matches!(Handshake::decode(&bytes), Err(WireError::Malformed)));
    // Half of a two-byte character.
    let bytes = [0xc3, 0xa9, 1, 0, 0, 0, 1, 0, 0, 0];
    assert!(matches!(Handshake::decode(&bytes), Err(WireError::Malformed)));
}

#[test]
fn setup_messages_match_the_alkahest_formulas() {
    let mut direct = Vec::new();
    alkahest::serialize_to_vec::<u64, u64>(77, &mut direct);
    assert_eq!(TimingPacket { sequence_number: 77 }.encode(), direct);
    let mut direct = Vec::new();
    alkahest::serialize_to_vec::<String, &str>("carol", &mut direct);
    assert_eq!(Handshake { my_name: String::from("carol") }.encode(), Some(direct));
}

#[test]
fn timed_command_holds_its_tick_and_command() {
    let timed = TimedCommand { time: 12, command: AbilityId(3) };
    let copy = timed.clone();
    assert_eq!(copy.time, 12);
    assert_eq!(copy.command, AbilityId(3));
}
