use jamjam::connection::{ConnectionState, ConnectionStatus};
use jamjam::desktop::{poll_step, AudioState, ChatLog, ChatMessage, SignalingEvent};
use jamjam::errors::NetworkError;
use jamjam::session::{SessionConfig, SessionRoster};
use jamjam::signaling::{PeerInfo, SignalingMessage};
use jamjam::stun::SocketAddress;

fn peer(id: u128, name: &str) -> PeerInfo {
    PeerInfo { id, name: name.to_string(), public_addr: None, local_addr: None }
}

fn addr(last: u8) -> SocketAddress {
    SocketAddress::V4 { ip: [192, 168, 0, last], port: 9000 }
}

#[test]
fn test_session_config() {
    let config = SessionConfig::default();
    assert_eq!(config.local_port, 0);
    assert_eq!(config.max_peers, 10);
    assert!(config.enable_mixing);
}

#[test]
fn roster_admits_up_to_its_size() {
    let mut roster = SessionRoster::new(2);
    assert!(roster.add_peer(peer(1, "a"), addr(1)).is_ok());
    assert!(roster.add_peer(peer(1, "a again"), addr(9)).is_ok());
    assert_eq!(roster.len(), 1);
    assert!(roster.add_peer(peer(2, "b"), addr(2)).is_ok());
    assert!(matches!(roster.add_peer(peer(3, "c"), addr(3)), Err(NetworkError::SessionFull)));
    // a full session refuses even a peer it has
    assert!(matches!(roster.add_peer(peer(1, "a"), addr(1)), Err(NetworkError::SessionFull)));
    let names: Vec<String> = roster.peers().into_iter().map(|p| p.name).collect();
    assert_eq!(names, vec!["a".to_string(), "b".to_string()]);
    assert_eq!(roster.peer_at(addr(2)), Some(2));
    assert_eq!(roster.peer_at(addr(9)), None);
    roster.remove_peer(1);
    assert_eq!(roster.len(), 1);
    assert_eq!(roster.peer_at(addr(1)), None);
}

#[test]
fn test_connection_initial_state() {
    let status = ConnectionStatus::new();
    assert_eq!(status.state(), ConnectionState::Disconnected);
    assert!(!status.state().is_connected());
    assert!(status.last_error().is_none());
}

#[test]
fn connection_state_bytes() {
    for v in 0u8..=6 {
        assert_eq!(ConnectionState::from_u8(v).to_u8(), v);
    }
    assert_eq!(ConnectionState::from_u8(200), ConnectionState::Disconnected);
    assert!(ConnectionState::Reconnecting.can_transmit());
    assert!(!ConnectionState::Reconnecting.is_connected());
    assert!(ConnectionState::GatheringCandidates.is_connecting());
    assert!(!ConnectionState::Failed.can_transmit());
}

#[test]
fn last_error_only_while_failed() {
    let mut status = ConnectionStatus::new();
    status.set_failed("Connection refused".to_string());
    assert_eq!(status.state(), ConnectionState::Failed);
    assert_eq!(status.last_error().as_deref(), Some("Connection refused"));
    status.set_state(ConnectionState::Failed);
    assert!(status.last_error().is_some());
    status.set_state(ConnectionState::Connecting);
    assert!(status.last_error().is_none());
}

#[test]
fn network_error_texts() {
    assert_eq!(NetworkError::NotConnected.message(), "Not connected");
    assert_eq!(NetworkError::Io("disk".to_string()).message(), "IO error: disk");
}

#[test]
fn audio_state_buffer_size() {
    let mut state = AudioState::new();
    assert_eq!(state.buffer_size(), 64);
    assert!(state.set_buffer_size(128).is_ok());
    assert_eq!(state.buffer_size(), 128);
    assert_eq!(
        state.set_buffer_size(100).unwrap_err(),
        "Invalid buffer size: 100. Valid values are 32, 64, 128, 256"
    );
    assert_eq!(state.buffer_size(), 128);
    state.set_input_device(Some("mic".to_string()));
    let devices = state.current_devices();
    assert_eq!(devices.input_device_id.as_deref(), Some("mic"));
    assert_eq!(devices.output_device_id, None);
}

#[test]
fn chat_log_filters_by_time() {
    let mut log = ChatLog::new();
    log.push(ChatMessage::join_notice("1".to_string(), "Ann", 100));
    log.push(ChatMessage::leave_notice("2".to_string(), 200));
    assert_eq!(log.messages_since(None).len(), 2);
    let later = log.messages_since(Some(100));
    assert_eq!(later.len(), 1);
    assert_eq!(later[0].content, "ユーザーが退出しました");
    assert_eq!(log.messages_since(None)[0].content, "Ann が参加しました");
    assert!(log.messages_since(Some(200)).is_empty());
}

#[test]
fn poll_step_adds_notices_and_events() {
    let mut log = ChatLog::new();
    let peer = PeerInfo { id: 7, name: "Aki".to_string(), public_addr: None, local_addr: None };
    let e = poll_step(&mut log, SignalingMessage::PeerJoined { peer }, "l1".to_string(), 100);
    assert!(matches!(e, Some(SignalingEvent::PeerJoined { ref peer }) if peer.name == "Aki"));
    let e = poll_step(&mut log, SignalingMessage::PeerLeft { peer_id: 0x0123_4567_89ab_cdef_0123_4567_89ab_cdef }, "l2".to_string(), 200);
    match e {
        Some(SignalingEvent::PeerLeft { peer_id }) => assert_eq!(peer_id, "01234567-89ab-cdef-0123-456789abcdef"),
        _ => panic!("expected a leave event"),
    }
    assert!(poll_step(&mut log, SignalingMessage::ListRooms, "l3".to_string(), 300).is_none());
    let lines = log.messages_since(None);
    assert_eq!(lines.len(), 2);
    assert_eq!(lines[0].content, "Aki が参加しました");
    assert_eq!(lines[0].id, "l1");
    assert!(lines[0].is_system);
    assert_eq!(lines[1].content, "ユーザーが退出しました");
    assert_eq!(lines[1].timestamp, 200);
}
