use jamjam::config::{
    list_presets, validate_peer_name, AppConfig, AudioPreset, Timestamp, MAX_HISTORY_ENTRIES,
};

#[test]
fn test_default_config() {
    let config = AppConfig::default();
    assert_eq!(config.input_device_id, None);
    assert_eq!(config.output_device_id, None);
    assert_eq!(config.buffer_size, 64);
    assert_eq!(config.signaling_server_url, None);
}

#[test]
fn test_config_validation_valid() {
    let config = AppConfig {
        input_device_id: Some("device1".to_string()),
        output_device_id: Some("device2".to_string()),
        buffer_size: 64,
        signaling_server_url: Some("wss://example.com".to_string()),
        ..Default::default()
    };
    assert!(config.validate().is_ok());
}

#[test]
fn test_config_validation_invalid_buffer_size() {
    let config = AppConfig { buffer_size: 100, ..Default::default() };
    assert!(config.validate().is_err());
}

#[test]
fn test_config_validation_invalid_url() {
    let config = AppConfig { signaling_server_url: Some("http://example.com".to_string()), ..Default::default() };
    assert!(config.validate().is_err());
}

#[test]
fn validation_messages() {
    let config = AppConfig { buffer_size: 100, ..Default::default() };
    assert_eq!(
        config.validate().unwrap_err(),
        "Invalid buffer size: 100. Valid values are 32, 64, 128, 256"
    );
    let config = AppConfig { signaling_server_url: Some("http://x".to_string()), ..Default::default() };
    assert_eq!(
        config.validate().unwrap_err(),
        "Invalid signaling server URL: http://x. Must start with ws:// or wss://"
    );
    let config = AppConfig { signaling_server_url: Some("ws://x".to_string()), ..Default::default() };
    assert!(config.validate().is_ok());
}

#[test]
fn preset_names_roundtrip() {
    for p in AudioPreset::all() {
        assert_eq!(AudioPreset::from_name(p.name()), Some(p));
    }
    assert_eq!(AudioPreset::from_name("loud"), None);
    assert_eq!(AudioPreset::default(), AudioPreset::Balanced);
    assert_eq!(AudioPreset::UltraLowLatency.buffer_size(), 64);
    assert_eq!(AudioPreset::HighQuality.jitter_buffer_frames(), 8);
}

#[test]
fn presets_listed_in_order() {
    let list = list_presets();
    let ids: Vec<&str> = list.iter().map(|p| p.id.as_str()).collect();
    assert_eq!(ids, vec!["zero-latency", "ultra-low-latency", "balanced", "high-quality"]);
    assert_eq!(list[0].buffer_size, 32);
    assert_eq!(list[0].jitter_buffer_frames, 0);
}

#[test]
fn set_preset_takes_buffer_size() {
    let mut config = AppConfig::default();
    let info = config.set_preset("high-quality").unwrap();
    assert_eq!(info.buffer_size, 256);
    assert_eq!(config.buffer_size, 256);
    assert_eq!(config.preset, AudioPreset::HighQuality);
    assert_eq!(config.set_preset("nope").unwrap_err(), "Unknown preset: nope");
    assert_eq!(config.preset, AudioPreset::HighQuality);
}

fn at(secs: i64) -> Timestamp {
    Timestamp { secs, nanos: 0 }
}

#[test]
fn connection_history_moves_room_to_top_and_is_bounded() {
    let mut config = AppConfig::default();
    config.add_connection_history_at("AAAAAA".to_string(), None, at(1));
    config.add_connection_history_at("BBBBBB".to_string(), Some("band".to_string()), at(2));
    config.add_connection_history_at("AAAAAA".to_string(), None, at(3));
    let codes: Vec<&str> = config.connection_history.iter().map(|e| e.room_code.as_str()).collect();
    assert_eq!(codes, vec!["AAAAAA", "BBBBBB"]);
    assert_eq!(config.connection_history[0].connected_at, at(3));

    for i in 0..15 {
        config.add_connection_history_at(format!("ROOM{:02}", i), None, at(10 + i));
    }
    assert_eq!(config.connection_history.len(), MAX_HISTORY_ENTRIES);
    assert_eq!(config.connection_history[0].room_code, "ROOM14");

    config.remove_connection_history("ROOM14");
    assert_eq!(config.connection_history[0].room_code, "ROOM13");
    assert!(config.update_connection_history_label("ROOM13", Some("x".to_string())).is_ok());
    assert_eq!(config.connection_history[0].label.as_deref(), Some("x"));
    assert_eq!(
        config.update_connection_history_label("GONE", None).unwrap_err(),
        "Room code not found in history: GONE"
    );
    config.add_connection_history("NOW".to_string(), None);
    assert_eq!(config.connection_history[0].room_code, "NOW");
    config.clear_connection_history();
    assert!(config.connection_history.is_empty());
}

#[test]
fn peer_name_is_trimmed_and_checked() {
    assert_eq!(validate_peer_name("  Alice  ").unwrap(), "Alice");
    assert_eq!(validate_peer_name("   ").unwrap_err(), "Peer name cannot be empty");
    assert_eq!(
        validate_peer_name(&"x".repeat(33)).unwrap_err(),
        "Peer name cannot exceed 32 characters"
    );
    let mut config = AppConfig::default();
    assert_eq!(config.peer_name, "User");
    config.set_peer_name(" Bob ").unwrap();
    assert_eq!(config.peer_name, "Bob");
    assert!(config.set_peer_name("").is_err());
    assert_eq!(config.peer_name, "Bob");
}

#[test]
fn peer_name_trim_matches_str_trim() {
    let samples = ["\u{3000}Bob\t", "\u{a0}\u{2028} Ann \u{85}", "\n\r\u{b}", "Eve", " a b ", "\u{200b}Zed"];
    for s in samples {
        let expected = s.trim();
        match validate_peer_name(s) {
            Ok(n) => assert_eq!(n, expected),
            Err(_) => assert!(expected.is_empty() || expected.len() > 32),
        }
    }
    assert_eq!(validate_peer_name("\u{2003}Kai\u{205f}").unwrap(), "Kai");
}
