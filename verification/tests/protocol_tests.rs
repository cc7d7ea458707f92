use dune_engine::protocol::{MessageData, ProtocolError, TAG_LOAD, TAG_LOADED, TAG_SERVER_INFO};

fn server_info(names: &[&str]) -> MessageData {
    MessageData::ServerInfo { players: names.iter().map(|s| s.to_string()).collect() }
}

#[test]
fn unit_messages_encode_to_their_tag_byte() {
    assert_eq!(MessageData::Load.into_bytes(), vec![TAG_LOAD]);
    assert_eq!(MessageData::Loaded.into_bytes(), vec![TAG_LOADED]);
}

#[test]
fn server_info_encoding_is_exact() {
    let bytes = server_info(&["A"]).into_bytes();
    let mut expected = vec![TAG_SERVER_INFO];
    expected.extend_from_slice(&1u64.to_le_bytes());
    expected.extend_from_slice(&1u64.to_le_bytes());
    expected.push(b'A');
    assert_eq!(bytes, expected);
}

#[test]
fn round_trip_reproduces_every_variant() {
    let messages = vec![
        MessageData::Load,
        MessageData::Loaded,
        server_info(&[]),
        server_info(&["A", "B"]),
        server_info(&["Zo\u{eb}", "\u{65e5}\u{672c}", ""]),
    ];
    for m in messages {
        let bytes = m.into_bytes();
        assert_eq!(MessageData::from_bytes(&bytes), Ok(m));
    }
}

#[test]
fn truncation_is_rejected_at_every_length() {
    let bytes = server_info(&["Alice", "Bob"]).into_bytes();
    for cut in 0..bytes.len() {
        assert_eq!(
            MessageData::from_bytes(&bytes[..cut]),
            Err(ProtocolError::InvalidMessage),
            "a strict prefix of length {} must not decode",
            cut
        );
    }
}

#[test]
fn trailing_bytes_are_rejected() {
    for m in [MessageData::Load, MessageData::Loaded, server_info(&["A"])] {
        let mut bytes = m.into_bytes();
        bytes.push(0);
        assert_eq!(MessageData::from_bytes(&bytes), Err(ProtocolError::InvalidMessage));
    }
}

#[test]
fn unknown_tags_and_empty_payloads_are_rejected() {
    assert_eq!(MessageData::from_bytes(&[]), Err(ProtocolError::InvalidMessage));
    assert_eq!(MessageData::from_bytes(&[3]), Err(ProtocolError::InvalidMessage));
    assert_eq!(MessageData::from_bytes(&[255]), Err(ProtocolError::InvalidMessage));
}

#[test]
fn invalid_utf8_in_a_name_is_rejected() {
    let mut bytes = vec![TAG_SERVER_INFO];
    bytes.extend_from_slice(&1u64.to_le_bytes());
    bytes.extend_from_slice(&1u64.to_le_bytes());
    bytes.push(0xFF);
    assert_eq!(MessageData::from_bytes(&bytes), Err(ProtocolError::InvalidMessage));
}

#[test]
fn name_length_overrunning_the_payload_is_rejected() {
    let mut bytes = vec![TAG_SERVER_INFO];
    bytes.extend_from_slice(&1u64.to_le_bytes());
    bytes.extend_from_slice(&100u64.to_le_bytes());
    bytes.push(b'A');
    assert_eq!(MessageData::from_bytes(&bytes), Err(ProtocolError::InvalidMessage));
}
