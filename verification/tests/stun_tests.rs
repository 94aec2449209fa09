use jamjam::stun::{
    build_binding_request, new_binding_request, parse_binding_response, parse_mapped_address,
    parse_xor_mapped_address, SocketAddress, StunError, MAGIC_COOKIE,
};

#[test]
fn test_build_binding_request() {
    let txn_id = [1, 2, 3, 4, 5, 6, 7, 8, 9, 10, 11, 12];
    let request = build_binding_request(&txn_id);

    assert_eq!(request.len(), 20);
    assert_eq!(request[0], 0x00);
    assert_eq!(request[1], 0x01);
    assert_eq!(request[2], 0x00);
    assert_eq!(request[3], 0x00);
    assert_eq!(request[4], 0x21);
    assert_eq!(request[5], 0x12);
    assert_eq!(request[6], 0xA4);
    assert_eq!(request[7], 0x42);
    assert_eq!(&request[8..20], &txn_id);
}

#[test]
fn test_parse_xor_mapped_address_ipv4() {
    // XOR-MAPPED-ADDRESS for 192.168.1.100:5000
    let txn_id = [0u8; 12];
    let data = [0x00, 0x01, 0x32, 0x9A, 0xE1, 0xBA, 0xA5, 0x26];

    let result = parse_xor_mapped_address(&data, &txn_id).unwrap();
    assert_eq!(result.port(), 5000);
    match result {
        SocketAddress::V4 { ip, .. } => assert_eq!(ip, [192, 168, 1, 100]),
        _ => panic!("Expected an IPv4 address"),
    }
}

#[test]
fn test_parse_xor_mapped_address_ipv6() {
    let txn_id: [u8; 12] = [
        0x01, 0x02, 0x03, 0x04, 0x05, 0x06, 0x07, 0x08, 0x09, 0x0a, 0x0b, 0x0c,
    ];

    // 2001:db8::1
    let original_ip: [u8; 16] = [
        0x20, 0x01, 0x0d, 0xb8, 0x00, 0x00, 0x00, 0x00, 0x00, 0x00, 0x00, 0x00, 0x00, 0x00, 0x00,
        0x01,
    ];

    let mut xor_mask = [0u8; 16];
    xor_mask[0..4].copy_from_slice(&MAGIC_COOKIE.to_be_bytes());
    xor_mask[4..16].copy_from_slice(&txn_id);

    let mut xored_ip = [0u8; 16];
    for i in 0..16 {
        xored_ip[i] = original_ip[i] ^ xor_mask[i];
    }

    let mut data = vec![0x00, 0x02, 0x32, 0x9A];
    data.extend_from_slice(&xored_ip);

    let result = parse_xor_mapped_address(&data, &txn_id).unwrap();
    assert_eq!(result.port(), 5000);
    match result {
        SocketAddress::V6 { ip, .. } => assert_eq!(ip, original_ip),
        _ => panic!("Expected an IPv6 address"),
    }
}

#[test]
fn test_parse_mapped_address_ipv6() {
    let data = [
        0x00, 0x02, 0x1F, 0x90, 0x20, 0x01, 0x0d, 0xb8, 0x00, 0x00, 0x00, 0x00, 0x00, 0x00, 0x00,
        0x00, 0x00, 0x00, 0x00, 0x01,
    ];

    let result = parse_mapped_address(&data).unwrap();
    assert_eq!(result.port(), 8080);
    match result {
        SocketAddress::V6 { ip, .. } => assert_eq!(
            ip,
            [0x20, 0x01, 0x0d, 0xb8, 0, 0, 0, 0, 0, 0, 0, 0, 0, 0, 0, 0x01]
        ),
        _ => panic!("Expected an IPv6 address"),
    }
}

fn response_with(txn: &[u8; 12], attrs: &[u8]) -> Vec<u8> {
    let mut msg = vec![0x01, 0x01];
    msg.extend_from_slice(&(attrs.len() as u16).to_be_bytes());
    msg.extend_from_slice(&MAGIC_COOKIE.to_be_bytes());
    msg.extend_from_slice(txn);
    msg.extend_from_slice(attrs);
    msg
}

#[test]
fn binding_response_with_xor_mapped_address() {
    let txn = [7u8; 12];
    let attrs = [0x00, 0x20, 0x00, 0x08, 0x00, 0x01, 0x32, 0x9A, 0xE1, 0xBA, 0xA5, 0x26];
    let addr = parse_binding_response(&response_with(&txn, &attrs), &txn).unwrap();
    assert_eq!(addr.port(), 5000);
    match addr {
        SocketAddress::V4 { ip, .. } => assert_eq!(ip, [192, 168, 1, 100]),
        _ => panic!("Expected an IPv4 address"),
    }
}

#[test]
fn binding_response_errors() {
    let txn = [7u8; 12];
    assert_eq!(parse_binding_response(&[0u8; 10], &txn).unwrap_err(), StunError::ResponseTooShort);

    let mut wrong_type = response_with(&txn, &[]);
    wrong_type[1] = 0x11;
    assert_eq!(
        parse_binding_response(&wrong_type, &txn).unwrap_err(),
        StunError::UnexpectedMessageType(0x0111)
    );

    let mut bad_cookie = response_with(&txn, &[]);
    bad_cookie[4] = 0;
    assert_eq!(parse_binding_response(&bad_cookie, &txn).unwrap_err(), StunError::InvalidMagicCookie);

    let other_txn = [8u8; 12];
    assert_eq!(
        parse_binding_response(&response_with(&txn, &[]), &other_txn).unwrap_err(),
        StunError::TransactionIdMismatch
    );

    assert_eq!(
        parse_binding_response(&response_with(&txn, &[]), &txn).unwrap_err(),
        StunError::NoMappedAddress
    );
}

#[test]
fn mapped_address_unknown_family() {
    let data = [0x00, 0x03, 0x00, 0x50, 1, 2, 3, 4];
    assert_eq!(parse_mapped_address(&data).unwrap_err(), StunError::UnknownAddressFamily(3));
}

#[test]
fn fresh_binding_request_carries_its_transaction_id() {
    let (txn, request) = new_binding_request();
    assert_eq!(request, build_binding_request(&txn));
}
