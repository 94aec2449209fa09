use jamjam::jitter_buffer::{JitterBuffer, JitterBufferConfig, JitterBufferResult};

#[test]
fn jitter_buffer_test_sequential_packets() {
    let config = JitterBufferConfig { initial_delay_frames: 2, ..Default::default() };
    let mut buffer = JitterBuffer::with_config(config);

    for i in 0..5 {
        buffer.insert(i, i * 120, vec![i as u8; 10]);
    }

    assert_eq!(buffer.depth(), 5);

    for i in 0..5 {
        match buffer.pop() {
            JitterBufferResult::Packet { sequence, .. } => {
                assert_eq!(sequence, i);
            }
            _ => panic!("Expected packet"),
        }
    }
}

#[test]
fn test_underrun() {
    let config = JitterBufferConfig { initial_delay_frames: 3, ..Default::default() };
    let mut buffer = JitterBuffer::with_config(config);

    buffer.insert(0, 0, vec![0; 10]);
    buffer.insert(1, 120, vec![1; 10]);

    match buffer.pop() {
        JitterBufferResult::Underrun => {}
        _ => panic!("Expected underrun"),
    }
}

#[test]
fn test_packet_loss() {
    let config = JitterBufferConfig { initial_delay_frames: 1, ..Default::default() };
    let mut buffer = JitterBuffer::with_config(config);

    buffer.insert(0, 0, vec![0; 10]);
    buffer.insert(2, 240, vec![2; 10]);
    buffer.insert(3, 360, vec![3; 10]);

    match buffer.pop() {
        JitterBufferResult::Packet { sequence, .. } => assert_eq!(sequence, 0),
        _ => panic!("Expected packet 0"),
    }

    match buffer.pop() {
        JitterBufferResult::Lost { sequence } => assert_eq!(sequence, 1),
        _ => panic!("Expected loss of packet 1"),
    }

    match buffer.pop() {
        JitterBufferResult::Packet { sequence, .. } => assert_eq!(sequence, 2),
        _ => panic!("Expected packet 2"),
    }
}

#[test]
fn jitter_buffer_test_out_of_order() {
    let config = JitterBufferConfig { initial_delay_frames: 2, ..Default::default() };
    let mut buffer = JitterBuffer::with_config(config);

    buffer.insert(2, 240, vec![2; 10]);
    buffer.insert(0, 0, vec![0; 10]);
    buffer.insert(1, 120, vec![1; 10]);
    buffer.insert(3, 360, vec![3; 10]);

    for i in 0..4 {
        match buffer.pop() {
            JitterBufferResult::Packet { sequence, .. } => {
                assert_eq!(sequence, i);
            }
            _ => panic!("Expected packet {}", i),
        }
    }
}

#[test]
fn test_stats() {
    let config = JitterBufferConfig { initial_delay_frames: 1, ..Default::default() };
    let mut buffer = JitterBuffer::with_config(config);

    buffer.insert(0, 0, vec![0; 10]);
    buffer.insert(2, 240, vec![2; 10]);

    buffer.pop();
    buffer.pop();
    buffer.pop();

    let stats = buffer.stats();
    assert_eq!(stats.packets_inserted, 2);
    assert_eq!(stats.packets_played, 2);
    assert_eq!(stats.packets_lost, 1);
}

#[test]
fn jitter_buffer_test_reset() {
    let mut buffer = JitterBuffer::new();

    buffer.insert(0, 0, vec![0; 10]);
    buffer.insert(1, 120, vec![1; 10]);

    buffer.reset();

    assert!(buffer.is_empty());
    assert!(!buffer.is_playing());
    assert_eq!(buffer.stats().packets_inserted, 0);
}

#[test]
fn test_config_validation() {
    let config = JitterBufferConfig { min_delay_frames: 0, max_delay_frames: 5, initial_delay_frames: 2 };
    let validated = config.validated();
    assert_eq!(validated.min_delay_frames, 1);

    let config = JitterBufferConfig { min_delay_frames: 5, max_delay_frames: 2, initial_delay_frames: 3 };
    let validated = config.validated();
    assert!(validated.max_delay_frames >= validated.min_delay_frames);

    let config = JitterBufferConfig { min_delay_frames: 2, max_delay_frames: 5, initial_delay_frames: 10 };
    let validated = config.validated();
    assert!(validated.initial_delay_frames <= validated.max_delay_frames);
}

#[test]
fn test_adapt_increases_on_loss() {
    let config = JitterBufferConfig {
        initial_delay_frames: 2,
        min_delay_frames: 1,
        max_delay_frames: 5,
    };
    let mut buffer = JitterBuffer::with_config(config);

    for i in 0..20u32 {
        if i % 3 != 0 {
            buffer.insert(i, i * 120, vec![i as u8; 10]);
        }
    }

    for _ in 0..25 {
        let result = buffer.pop();
        if matches!(result, JitterBufferResult::Underrun) {
            break;
        }
    }

    let initial_delay = buffer.stats().current_delay_frames;
    buffer.adapt();

    assert!(
        buffer.stats().current_delay_frames >= initial_delay,
        "Delay should increase on loss"
    );
}

#[test]
fn validated_config_values() {
    let v = JitterBufferConfig { min_delay_frames: 5, max_delay_frames: 2, initial_delay_frames: 3 }
        .validated();
    assert_eq!((v.min_delay_frames, v.max_delay_frames, v.initial_delay_frames), (5, 5, 5));
    let v = JitterBufferConfig { min_delay_frames: 2, max_delay_frames: 5, initial_delay_frames: 10 }
        .validated();
    assert_eq!((v.min_delay_frames, v.max_delay_frames, v.initial_delay_frames), (2, 5, 5));
}

#[test]
fn peek_and_payload_of_next_packet() {
    let config = JitterBufferConfig { initial_delay_frames: 1, ..Default::default() };
    let mut buffer = JitterBuffer::with_config(config);
    assert_eq!(buffer.peek(), None);
    buffer.insert(7, 840, vec![1, 2, 3]);
    assert_eq!(buffer.peek(), Some(7));
    match buffer.pop() {
        JitterBufferResult::Packet { sequence, timestamp, payload } => {
            assert_eq!((sequence, timestamp, payload), (7, 840, vec![1, 2, 3]));
        }
        _ => panic!("Expected packet"),
    }
    assert!(buffer.is_playing());
}
