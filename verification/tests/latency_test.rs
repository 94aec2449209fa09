use jamjam::config::AudioPreset;
use jamjam::fec::{FecDecoder, FecEncoder, FecPacket};
use jamjam::jitter_buffer::{JitterBuffer, JitterBufferConfig, JitterBufferResult};

/// The jitter buffer grows its delay when packets go missing.
#[test]
fn test_jitter_buffer_adaptive() {
    let config = JitterBufferConfig { min_delay_frames: 1, max_delay_frames: 8, initial_delay_frames: 2 };
    let mut buffer = JitterBuffer::with_config(config);
    // every other packet is missing
    for i in 0..20u32 {
        if i % 2 == 0 {
            buffer.insert(i, i * 120, vec![0; 4]);
        }
    }
    for _ in 0..20 {
        if matches!(buffer.pop(), JitterBufferResult::Underrun) {
            break;
        }
    }
    let before = buffer.stats().current_delay_frames;
    buffer.adapt();
    assert_eq!(buffer.stats().current_delay_frames, before + 1);
}

/// A stable network never takes the delay below the minimum.
#[test]
fn test_jitter_buffer_minimum_size() {
    let config = JitterBufferConfig { min_delay_frames: 2, max_delay_frames: 8, initial_delay_frames: 2 };
    let mut buffer = JitterBuffer::with_config(config);
    for i in 0..200u32 {
        buffer.insert(i, i * 120, vec![0; 4]);
        buffer.pop();
    }
    for _ in 0..10 {
        buffer.adapt();
    }
    assert_eq!(buffer.stats().current_delay_frames, 2);
}

/// With the minimum equal to the maximum the delay stays fixed.
#[test]
fn test_jitter_buffer_fixed_mode() {
    let config = JitterBufferConfig { min_delay_frames: 3, max_delay_frames: 3, initial_delay_frames: 3 };
    let mut buffer = JitterBuffer::with_config(config);
    for i in 0..30u32 {
        if i % 3 != 0 {
            buffer.insert(i, i * 120, vec![0; 4]);
        }
    }
    for _ in 0..30 {
        buffer.pop();
        buffer.adapt();
        assert_eq!(buffer.stats().current_delay_frames, 3);
    }
}

#[test]
fn test_fec_packet_recovery() {
    let mut encoder = FecEncoder::with_group_size(4);
    let mut decoder = FecDecoder::with_group_size(4);

    let packets = vec![
        vec![1, 2, 3, 4],
        vec![5, 6, 7, 8],
        vec![9, 10, 11, 12],
        vec![13, 14, 15, 16],
    ];

    let mut fec_packet: Option<FecPacket> = None;
    for packet in &packets {
        fec_packet = encoder.add_packet(packet);
    }
    let fec = fec_packet.expect("FEC packet should be generated");

    decoder.add_packet(0, 0, &packets[0]);
    decoder.add_packet(0, 1, &packets[1]);
    decoder.add_packet(0, 3, &packets[3]);

    let recovered = decoder.add_fec(fec);
    assert!(recovered.is_some(), "Packet should be recovered by FEC");

    let recovered = recovered.unwrap();
    assert_eq!(recovered.packet_index, 2);
    assert_eq!(recovered.data, packets[2]);
}

#[test]
fn test_fec_multiple_packet_loss() {
    let mut encoder = FecEncoder::with_group_size(4);
    let mut decoder = FecDecoder::with_group_size(4);

    let packets = vec![
        vec![1, 2, 3, 4],
        vec![5, 6, 7, 8],
        vec![9, 10, 11, 12],
        vec![13, 14, 15, 16],
    ];

    let mut fec_packet: Option<FecPacket> = None;
    for packet in &packets {
        fec_packet = encoder.add_packet(packet);
    }
    let fec = fec_packet.unwrap();

    decoder.add_packet(0, 0, &packets[0]);
    decoder.add_packet(0, 3, &packets[3]);

    let recovered = decoder.add_fec(fec);
    assert!(recovered.is_none(), "Should not recover with 2+ missing packets");
}

#[test]
fn test_lan_latency_target() {
    let frame_size = 64u32;
    let sample_rate = 48000u32;
    let jitter_frames = 1u32;
    assert_eq!(AudioPreset::UltraLowLatency.buffer_size(), frame_size);
    assert_eq!(AudioPreset::UltraLowLatency.jitter_buffer_frames(), jitter_frames);

    let frame_latency_ms = frame_size as f32 / sample_rate as f32 * 1000.0;
    let jitter_latency_ms = frame_latency_ms * jitter_frames as f32;
    let total_app_latency_ms = frame_latency_ms + jitter_latency_ms;

    assert!(total_app_latency_ms < 10.0, "App latency ({:.2}ms) should be under 10ms", total_app_latency_ms);
}

#[test]
fn test_internet_latency_target() {
    let frame_size = 128u32;
    let sample_rate = 48000u32;
    let jitter_frames = 4u32;
    assert_eq!(AudioPreset::Balanced.buffer_size(), frame_size);
    assert_eq!(AudioPreset::Balanced.jitter_buffer_frames(), jitter_frames);

    let frame_latency_ms = frame_size as f32 / sample_rate as f32 * 1000.0;
    let jitter_latency_ms = frame_latency_ms * jitter_frames as f32;
    let total_app_latency_ms = frame_latency_ms + jitter_latency_ms;

    assert!(total_app_latency_ms < 15.0, "App latency ({:.2}ms) should be under 15ms", total_app_latency_ms);
}

#[test]
fn test_connection_quality_indicator() {
    struct QualityCheck {
        rtt_ms: f32,
        packet_loss: f32,
        expected: &'static str,
    }

    let checks = vec![
        QualityCheck { rtt_ms: 20.0, packet_loss: 0.005, expected: "good" },
        QualityCheck { rtt_ms: 50.0, packet_loss: 0.02, expected: "fair" },
        QualityCheck { rtt_ms: 150.0, packet_loss: 0.01, expected: "poor" },
        QualityCheck { rtt_ms: 20.0, packet_loss: 0.10, expected: "poor" },
    ];

    for check in checks {
        let quality = if check.rtt_ms < 30.0 && check.packet_loss < 0.01 {
            "good"
        } else if check.rtt_ms < 100.0 && check.packet_loss < 0.05 {
            "fair"
        } else {
            "poor"
        };

        assert_eq!(
            quality, check.expected,
            "RTT: {}ms, Loss: {}% should be {}",
            check.rtt_ms,
            check.packet_loss * 100.0,
            check.expected
        );
    }
}
