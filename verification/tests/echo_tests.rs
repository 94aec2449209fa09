use jamjam::echo::EchoState;
use jamjam::packet::Packet;
use jamjam::stun::SocketAddress;

fn sender() -> SocketAddress {
    SocketAddress::V4 { ip: [127, 0, 0, 1], port: 5000 }
}

#[test]
fn echo_packets_wait_the_delay() {
    let mut q = EchoState::new(3000);
    assert_eq!(q.time_until_next(0), None);
    q.add_packet(Packet::audio(1, 0, vec![1]), sender(), 100);
    q.add_packet(Packet::audio(2, 0, vec![2]), sender(), 200);
    assert_eq!(q.packets_received(), 2);
    assert_eq!(q.buffered(), 2);
    assert_eq!(q.time_until_next(1000), Some(2100));
    assert!(q.get_ready_packets(3099).is_empty());
    let first = q.get_ready_packets(3100);
    assert_eq!(first.len(), 1);
    assert_eq!(first[0].packet.sequence, 1);
    assert_eq!(first[0].send_at, 3100);
    assert_eq!(q.time_until_next(5000), Some(0));
    let rest = q.get_ready_packets(10_000);
    assert_eq!(rest.len(), 1);
    assert_eq!(rest[0].packet.sequence, 2);
    assert_eq!(q.buffered(), 0);
    q.record_sent();
    assert_eq!(q.packets_sent(), 1);
}

#[test]
fn echo_ready_packets_come_in_arrival_order() {
    let mut q = EchoState::new(0);
    for seq in 0..5u32 {
        q.add_packet(Packet::audio(seq, 0, vec![]), sender(), 10);
    }
    let out = q.get_ready_packets(10);
    let seqs: Vec<u32> = out.iter().map(|p| p.packet.sequence).collect();
    assert_eq!(seqs, vec![0, 1, 2, 3, 4]);
}
