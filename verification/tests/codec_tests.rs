use dhcp::codec::{
    decode, encode, find_option, message_type, option_addr, CodecError, DhcpOption, Message,
    OperationCode, MSG_DISCOVER, OPTION_MESSAGE_TYPE, OPTION_REQUESTED_ADDRESS,
};

fn sample_message() -> Message {
    Message {
        operation_code: OperationCode::BootRequest,
        hardware_type: 1,
        hardware_length: 6,
        hops: 0,
        transaction_id: 0xDEAD_BEEF,
        seconds: 7,
        broadcast: true,
        client_address: 0,
        your_address: 0x0A00_000A,
        server_address: 0x0A00_0001,
        gateway_address: 0,
        chaddr: {
            let mut c = vec![0u8; 16];
            c[0] = 0x01;
            c[1] = 0x02;
            c[2] = 0x03;
            c[3] = 0x04;
            c[4] = 0x05;
            c[5] = 0x07;
            c
        },
        sname: vec![0u8; 64],
        file: vec![0u8; 128],
        options: vec![
            DhcpOption { code: OPTION_MESSAGE_TYPE, data: vec![MSG_DISCOVER] },
            DhcpOption { code: OPTION_REQUESTED_ADDRESS, data: vec![10, 0, 0, 10] },
            DhcpOption { code: 200, data: vec![1, 2, 3, 4, 5] },
        ],
    }
}

#[test]
fn round_trip_preserves_message() {
    let m = sample_message();
    let bytes = encode(&m);
    let decoded = decode(&bytes).expect("decode of encoded message");
    assert_eq!(decoded, sample_message());
}

#[test]
fn round_trip_keeps_unknown_options_opaque() {
    let m = sample_message();
    let bytes = encode(&m);
    let decoded = decode(&bytes).unwrap();
    assert_eq!(decoded.options[2].code, 200);
    assert_eq!(decoded.options[2].data, vec![1, 2, 3, 4, 5]);
}

#[test]
fn encode_lays_out_header_and_cookie() {
    let m = sample_message();
    let bytes = encode(&m);
    assert_eq!(bytes[0], 1); // BOOTREQUEST
    assert_eq!(&bytes[4..8], &[0xDE, 0xAD, 0xBE, 0xEF]);
    assert_eq!(bytes[10], 0x80); // broadcast flag
    assert_eq!(&bytes[16..20], &[10, 0, 0, 10]); // yiaddr
    assert_eq!(&bytes[236..240], &[99, 130, 83, 99]);
    assert_eq!(bytes[240], OPTION_MESSAGE_TYPE);
    assert_eq!(*bytes.last().unwrap(), 255);
}

#[test]
fn truncated_option_area_is_rejected() {
    let m = sample_message();
    let bytes = encode(&m);
    // Cut anywhere inside the option area, one byte at a time.
    for k in 240..bytes.len() {
        let cut = bytes[..k].to_vec();
        assert_eq!(decode(&cut), Err(CodecError::Truncated), "cut at {}", k);
    }
}

#[test]
fn short_buffer_is_rejected() {
    assert_eq!(decode(&vec![0u8; 239]), Err(CodecError::TooShort));
    assert_eq!(decode(&Vec::new()), Err(CodecError::TooShort));
}

#[test]
fn bad_cookie_is_rejected() {
    let m = sample_message();
    let mut bytes = encode(&m);
    bytes[236] = 0;
    assert_eq!(decode(&bytes), Err(CodecError::InvalidCookie));
}

#[test]
fn duplicate_option_codes_are_rejected() {
    let mut m = sample_message();
    m.options.push(DhcpOption { code: OPTION_MESSAGE_TYPE, data: vec![2] });
    let bytes = encode(&m);
    assert_eq!(decode(&bytes), Err(CodecError::DuplicateOption));
}

#[test]
fn padding_is_skipped_and_tail_ignored() {
    let m = sample_message();
    let mut bytes = encode(&m);
    // Insert pad bytes at the head of the option area.
    bytes.insert(240, 0);
    bytes.insert(240, 0);
    // Trailing garbage after the end code is ignored.
    bytes.push(0xAA);
    let decoded = decode(&bytes).unwrap();
    assert_eq!(decoded, sample_message());
}

#[test]
fn unknown_opcode_decodes_to_undefined() {
    let mut m = sample_message();
    m.operation_code = OperationCode::Undefined;
    let bytes = encode(&m);
    let decoded = decode(&bytes).unwrap();
    assert_eq!(decoded.operation_code, OperationCode::Undefined);
    assert_eq!(OperationCode::from(9), OperationCode::Undefined);
    assert_eq!(OperationCode::from(2), OperationCode::BootReply);
}

#[test]
fn option_lookup_finds_type_and_address() {
    let m = sample_message();
    assert_eq!(message_type(&m), Some(MSG_DISCOVER));
    assert_eq!(option_addr(&m, OPTION_REQUESTED_ADDRESS), Some(0x0A00_000A));
    assert!(find_option(&m, 123).is_none());
}
