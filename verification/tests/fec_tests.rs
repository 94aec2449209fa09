use jamjam::fec::{FecDecoder, FecEncoder, FecPacket};

#[test]
fn test_fec_encoder_basic() {
    let mut encoder = FecEncoder::with_group_size(4);

    assert!(encoder.add_packet(&[1, 2, 3]).is_none());
    assert!(encoder.add_packet(&[4, 5, 6]).is_none());
    assert!(encoder.add_packet(&[7, 8, 9]).is_none());

    let fec = encoder.add_packet(&[10, 11, 12]).unwrap();
    assert_eq!(fec.packet_count, 4);
    assert_eq!(fec.packet_lengths.len(), 4);
}

#[test]
fn test_fec_roundtrip() {
    let mut encoder = FecEncoder::with_group_size(4);

    let packets = vec![
        vec![1, 2, 3, 4],
        vec![5, 6, 7, 8],
        vec![9, 10, 11, 12],
        vec![13, 14, 15, 16],
    ];

    let mut fec = None;
    for packet in &packets {
        fec = encoder.add_packet(packet);
    }
    let fec = fec.unwrap();

    let bytes = fec.to_bytes();
    let parsed = FecPacket::from_bytes(&bytes).unwrap();
    assert_eq!(parsed.group_sequence, fec.group_sequence);
    assert_eq!(parsed.packet_count, fec.packet_count);
}

#[test]
fn test_fec_recovery() {
    let mut encoder = FecEncoder::with_group_size(4);

    let packets = vec![
        vec![1, 2, 3, 4],
        vec![5, 6, 7, 8],
        vec![9, 10, 11, 12],
        vec![13, 14, 15, 16],
    ];

    let mut fec = None;
    for packet in &packets {
        fec = encoder.add_packet(packet);
    }
    let fec = fec.unwrap();

    let mut decoder = FecDecoder::with_group_size(4);
    decoder.add_packet(0, 0, &packets[0]);
    decoder.add_packet(0, 1, &packets[1]);
    decoder.add_packet(0, 3, &packets[3]);

    let recovered = decoder.add_fec(fec).unwrap();
    assert_eq!(recovered.packet_index, 2);
    assert_eq!(recovered.data, packets[2]);
}

#[test]
fn test_fec_no_recovery_without_fec() {
    let mut decoder = FecDecoder::with_group_size(4);

    assert!(decoder.add_packet(0, 0, &[1, 2, 3]).is_none());
    assert!(decoder.add_packet(0, 1, &[4, 5, 6]).is_none());
    assert!(decoder.add_packet(0, 3, &[10, 11, 12]).is_none());
}

#[test]
fn test_fec_variable_length_packets() {
    let mut encoder = FecEncoder::with_group_size(3);

    let packets = vec![vec![1, 2], vec![3, 4, 5, 6], vec![7]];

    let mut fec = None;
    for packet in &packets {
        fec = encoder.add_packet(packet);
    }
    let fec = fec.unwrap();

    let mut decoder = FecDecoder::with_group_size(3);
    decoder.add_packet(0, 0, &packets[0]);
    decoder.add_packet(0, 2, &packets[2]);

    let recovered = decoder.add_fec(fec).unwrap();
    assert_eq!(recovered.packet_index, 1);
    assert_eq!(recovered.data, packets[1]);
}

#[test]
fn fec_data_is_xor_of_zero_padded_packets() {
    let mut encoder = FecEncoder::with_group_size(2);
    assert!(encoder.add_packet(&[0x0F, 0xF0]).is_none());
    let fec = encoder.add_packet(&[0xFF]).unwrap();
    assert_eq!(fec.fec_data, vec![0xF0, 0xF0]);
    assert_eq!(fec.packet_lengths, vec![2, 1]);
    assert_eq!(fec.group_sequence, 0);
    assert_eq!(encoder.group_sequence(), 1);
}

#[test]
fn fec_packet_bytes_layout() {
    let fec = FecPacket {
        group_sequence: 0x0102_0304,
        packet_count: 2,
        packet_lengths: vec![1, 0x0203],
        fec_data: vec![9, 8],
    };
    let bytes = fec.to_bytes();
    assert_eq!(bytes, vec![1, 2, 3, 4, 2, 0, 0, 1, 2, 3, 9, 8]);
    let back = FecPacket::from_bytes(&bytes).unwrap();
    assert_eq!(back.packet_lengths, vec![1, 0x0203]);
    assert_eq!(back.fec_data, vec![9, 8]);
}

#[test]
fn fec_packet_too_short_is_refused() {
    assert!(FecPacket::from_bytes(&[0, 0, 0, 0]).is_none());
    // claims two lengths but carries only one
    assert!(FecPacket::from_bytes(&[0, 0, 0, 0, 2, 0, 0, 1]).is_none());
}

#[test]
fn fec_recovery_when_fec_arrives_first() {
    let mut encoder = FecEncoder::with_group_size(3);
    let packets = vec![vec![1u8, 2, 3], vec![4, 5, 6], vec![7, 8, 9]];
    let mut fec = None;
    for p in &packets {
        fec = encoder.add_packet(p);
    }
    let mut decoder = FecDecoder::with_group_size(3);
    assert!(decoder.add_fec(fec.unwrap()).is_none());
    assert!(decoder.add_packet(0, 0, &packets[0]).is_none());
    let recovered = decoder.add_packet(0, 2, &packets[2]).unwrap();
    assert_eq!(recovered.packet_index, 1);
    assert_eq!(recovered.data, packets[1]);
}

fn encode_group(packets: &[Vec<u8>]) -> FecPacket {
    let mut encoder = FecEncoder::with_group_size(packets.len());
    let mut fec = None;
    for packet in packets {
        fec = encoder.add_packet(packet);
    }
    fec.unwrap()
}

#[test]
fn fec_arrival_order_does_not_matter() {
    let packets = vec![vec![1, 2, 3], vec![4, 5], vec![6, 7, 8, 9], vec![10], vec![11, 12]];
    // FEC first, then packets 4, 0, 1 out of order, then packet 3: packet 2 comes back
    let mut decoder = FecDecoder::with_group_size(5);
    assert!(decoder.add_fec(encode_group(&packets)).is_none());
    assert!(decoder.add_packet(0, 4, &packets[4]).is_none());
    assert!(decoder.add_packet(0, 0, &packets[0]).is_none());
    assert!(decoder.add_packet(0, 0, &packets[0]).is_none());
    assert!(decoder.add_packet(0, 1, &packets[1]).is_none());
    let r = decoder.add_packet(0, 3, &packets[3]).unwrap();
    assert_eq!((r.group_sequence, r.packet_index), (0, 2));
    assert_eq!(r.data, packets[2]);
}

#[test]
fn fec_group_gives_back_once() {
    let packets = vec![vec![1, 2], vec![3, 4], vec![5, 6]];
    let fec = encode_group(&packets);
    let mut decoder = FecDecoder::new();
    decoder.add_packet(0, 0, &packets[0]);
    assert!(decoder.add_fec(fec.clone()).is_none());
    assert!(decoder.add_packet(0, 2, &packets[2]).is_some());
    assert!(decoder.add_fec(fec).is_none());
    assert!(decoder.add_packet(0, 1, &packets[1]).is_none());
}

#[test]
fn fec_ignores_packets_beyond_the_group() {
    let packets = vec![vec![1, 2], vec![3, 4], vec![5, 6], vec![7, 8]];
    let fec = encode_group(&packets);
    // 2 and 3 are missing; a stray packet under index 5 does not make up for one
    let mut decoder = FecDecoder::new();
    decoder.add_packet(0, 0, &packets[0]);
    decoder.add_packet(0, 1, &packets[1]);
    decoder.add_packet(0, 5, &[9, 9]);
    assert!(decoder.add_fec(fec.clone()).is_none());
    // with only 2 missing, the stray packet takes no part in the XOR
    let r = decoder.add_packet(0, 3, &packets[3]).unwrap();
    assert_eq!(r.packet_index, 2);
    assert_eq!(r.data, packets[2]);
}
