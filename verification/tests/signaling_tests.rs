use std::collections::HashSet;

use jamjam::stun::SocketAddress;

use jamjam::signaling::{
    first_reachable_peer, generate_invite_code, generate_room_id, is_invite_code_format, should_forward, ClientSession,
    FreshIds, PeerInfo, SignalingMessage, SignalingServer, INVITE_CODE_LENGTH, MAX_PEERS_PER_ROOM,
};

const INVITE_CODE_CHARS: &[u8] = b"ABCDEFGHJKMNPQRSTUVWXYZ23456789";

fn session() -> ClientSession {
    ClientSession { current_room: None, current_peer_id: None }
}

fn create(
    server: &mut SignalingServer,
    sess: &mut ClientSession,
    name: &str,
    password: Option<&str>,
    peer: &str,
) -> (String, u128, String) {
    let out = server.process_message(
        sess,
        SignalingMessage::CreateRoom {
            room_name: name.to_string(),
            password: password.map(|p| p.to_string()),
            peer_name: peer.to_string(),
        },
    );
    match out.reply {
        Some(SignalingMessage::RoomCreated { room_id, peer_id, invite_code }) => {
            (room_id, peer_id, invite_code)
        }
        other => panic!("Expected RoomCreated, got {:?}", other),
    }
}

fn join(
    server: &mut SignalingServer,
    sess: &mut ClientSession,
    key: &str,
    password: Option<&str>,
    peer: &str,
) -> jamjam::signaling::ServerOutcome {
    server.process_message(
        sess,
        SignalingMessage::JoinRoom {
            room_id: key.to_string(),
            password: password.map(|p| p.to_string()),
            peer_name: peer.to_string(),
        },
    )
}

#[test]
fn test_generate_room_id() {
    let id = generate_room_id();
    assert_eq!(id.len(), 8);
}

#[test]
fn test_generate_invite_code_length() {
    let code = generate_invite_code();
    assert_eq!(code.len(), INVITE_CODE_LENGTH);
}

#[test]
fn test_generate_invite_code_valid_chars() {
    for _ in 0..100 {
        let code = generate_invite_code();
        for c in code.chars() {
            assert!(
                INVITE_CODE_CHARS.contains(&(c as u8)),
                "Invalid character '{}' in invite code",
                c
            );
        }
    }
}

#[test]
fn test_generate_invite_code_excludes_confusing_chars() {
    let excluded_chars = ['0', 'O', 'I', '1', 'L'];
    for _ in 0..1000 {
        let code = generate_invite_code();
        for c in excluded_chars {
            assert!(
                !code.contains(c),
                "Invite code '{}' contains excluded character '{}'",
                code,
                c
            );
        }
    }
}

#[test]
fn test_generate_invite_code_uniqueness() {
    let mut codes = HashSet::new();
    for _ in 0..1000 {
        let code = generate_invite_code();
        codes.insert(code);
    }
    assert_eq!(codes.len(), 1000);
}

#[test]
fn test_is_invite_code_format_valid() {
    assert!(is_invite_code_format("ABC234"));
    assert!(is_invite_code_format("HJKMNP"));
    assert!(is_invite_code_format("QRSTUV"));
    assert!(is_invite_code_format("WXY789"));
}

#[test]
fn test_is_invite_code_format_invalid_length() {
    assert!(!is_invite_code_format("ABC23"));
    assert!(!is_invite_code_format("ABC2345"));
    assert!(!is_invite_code_format(""));
}

#[test]
fn test_is_invite_code_format_invalid_chars() {
    assert!(!is_invite_code_format("ABC230"));
    assert!(!is_invite_code_format("ABCDE1"));
    assert!(!is_invite_code_format("ABCDEO"));
    assert!(!is_invite_code_format("ABCDEI"));
    assert!(!is_invite_code_format("ABCDEL"));
    assert!(!is_invite_code_format("abc234"));
}

#[test]
fn test_is_invite_code_format_uuid_like_strings() {
    assert!(!is_invite_code_format("a1b2c3d4"));
    assert!(!is_invite_code_format("a1b2c3d4-e5f6"));
}

#[test]
fn test_invite_code_format() {
    for _ in 0..100 {
        let code = generate_invite_code();
        assert!(is_invite_code_format(&code), "Generated code '{}' should be valid", code);
    }
}

#[test]
fn invite_code_format_counts_characters() {
    // three characters, whatever their low bytes
    assert!(!is_invite_code_format("ŁŁŁ"));
    // six characters, one of them outside ASCII
    assert!(!is_invite_code_format("AAAAAŁ"));
}

#[test]
fn test_create_room() {
    let mut server = SignalingServer::new();
    let mut s = session();
    let (room_id, peer_id, invite_code) = create(&mut server, &mut s, "Test Room", None, "Host");
    assert!(!room_id.is_empty(), "Room ID should not be empty");
    assert!(peer_id != 0, "Peer ID should not be nil");
    assert!(is_invite_code_format(&invite_code));
    assert_eq!(s.current_room.as_deref(), Some(room_id.as_str()));
    assert_eq!(s.current_peer_id, Some(peer_id));
}

#[test]
fn test_join_room_via_invite_code() {
    let mut server = SignalingServer::new();
    let mut host = session();
    let (_, _, invite_code) = create(&mut server, &mut host, "Test Room", None, "Host");

    let mut guest = session();
    let out = join(&mut server, &mut guest, &invite_code, None, "Guest");
    match out.reply {
        Some(SignalingMessage::RoomJoined { peer_id, peers, .. }) => {
            assert!(peer_id != 0, "Peer ID should not be nil");
            assert_eq!(peers.len(), 1, "Should see host peer");
            assert_eq!(peers[0].name, "Host", "Host name should match");
        }
        other => panic!("Expected RoomJoined, got {:?}", other),
    }
}

#[test]
fn test_full_session_flow() {
    let mut server = SignalingServer::new();
    let mut host = session();
    let (room_id, host_id, invite_code) = create(&mut server, &mut host, "Session Room", None, "Host");

    let mut guest = session();
    let out = join(&mut server, &mut guest, &invite_code, None, "Guest");
    assert!(matches!(out.reply, Some(SignalingMessage::RoomJoined { .. })));
    let guest_id = guest.current_peer_id.unwrap();
    match out.broadcast {
        Some((to_room, SignalingMessage::PeerJoined { peer })) => {
            assert_eq!(to_room, room_id);
            assert_eq!(peer.name, "Guest", "Should receive guest join notification");
            let note = SignalingMessage::PeerJoined { peer };
            assert!(should_forward(&note, Some(host_id)));
            assert!(!should_forward(&note, Some(guest_id)));
        }
        other => panic!("Expected PeerJoined, got {:?}", other),
    }

    let out = server.process_message(&mut guest, SignalingMessage::LeaveRoom);
    assert!(out.reply.is_none());
    match out.broadcast {
        Some((to_room, SignalingMessage::PeerLeft { peer_id })) => {
            assert_eq!(to_room, room_id);
            assert_eq!(peer_id, guest_id);
        }
        other => panic!("Expected PeerLeft, got {:?}", other),
    }
    assert!(out.closed_room.is_none());
    assert!(guest.current_room.is_none() && guest.current_peer_id.is_none());
}

#[test]
fn test_join_nonexistent_room() {
    let mut server = SignalingServer::new();
    let mut s = session();
    let out = join(&mut server, &mut s, "NONEXISTENT", None, "Guest");
    match out.reply {
        Some(SignalingMessage::Error { message }) => {
            assert!(message.contains("not found"), "Error should indicate room not found");
        }
        other => panic!("Expected Error, got {:?}", other),
    }
    assert!(s.current_room.is_none());
}

#[test]
fn test_join_room_wrong_password() {
    let mut server = SignalingServer::new();
    let mut host = session();
    let (_, _, invite_code) = create(&mut server, &mut host, "Secure Room", Some("secret123"), "Host");

    let mut guest = session();
    let out = join(&mut server, &mut guest, &invite_code, Some("wrongpassword"), "Guest");
    match out.reply {
        Some(SignalingMessage::Error { message }) => {
            assert!(message.contains("password") || message.contains("Invalid"));
        }
        other => panic!("Expected Error, got {:?}", other),
    }
    assert!(out.broadcast.is_none());

    let out = join(&mut server, &mut guest, &invite_code, Some("secret123"), "Guest");
    assert!(matches!(out.reply, Some(SignalingMessage::RoomJoined { .. })));
}

#[test]
fn test_list_rooms() {
    let mut server = SignalingServer::new();
    let mut a = session();
    let mut b = session();
    create(&mut server, &mut a, "Room 1", None, "Host1");
    create(&mut server, &mut b, "Room 2", Some("secret"), "Host2");

    let mut c = session();
    let out = server.process_message(&mut c, SignalingMessage::ListRooms);
    match out.reply {
        Some(SignalingMessage::RoomList { rooms }) => {
            assert_eq!(rooms.len(), 2, "Should have 2 rooms");
            let room1 = rooms.iter().find(|r| r.name == "Room 1").expect("Room 1 should exist");
            assert!(!room1.has_password);
            assert_eq!(room1.peer_count, 1);
            assert_eq!(room1.max_peers, MAX_PEERS_PER_ROOM);
            let room2 = rooms.iter().find(|r| r.name == "Room 2").expect("Room 2 should exist");
            assert!(room2.has_password);
        }
        other => panic!("Expected RoomList, got {:?}", other),
    }
    assert_eq!(server.list_rooms().len(), 2);
}

#[test]
fn test_room_cleanup_on_disconnect() {
    let mut server = SignalingServer::new();
    let mut host = session();
    let (room_id, host_id, _) = create(&mut server, &mut host, "Temp Room", None, "Host");
    let out = server.disconnect(&mut host);
    match out.broadcast {
        Some((to_room, SignalingMessage::PeerLeft { peer_id })) => {
            assert_eq!(to_room, room_id);
            assert_eq!(peer_id, host_id);
        }
        other => panic!("Expected PeerLeft, got {:?}", other),
    }
    assert_eq!(out.closed_room.as_deref(), Some(room_id.as_str()));
    assert!(server.list_rooms().is_empty());
}

#[test]
fn room_refuses_peer_beyond_capacity() {
    let mut server = SignalingServer::new();
    let mut host = session();
    let (room_id, _, _) = create(&mut server, &mut host, "Big", None, "Host");
    for i in 1..MAX_PEERS_PER_ROOM {
        let mut g = session();
        let out = join(&mut server, &mut g, &room_id, None, &format!("Guest{}", i));
        assert!(matches!(out.reply, Some(SignalingMessage::RoomJoined { .. })));
    }
    let mut late = session();
    let out = join(&mut server, &mut late, &room_id, None, "Late");
    match out.reply {
        Some(SignalingMessage::Error { message }) => assert_eq!(message, "Room is full"),
        other => panic!("Expected Error, got {:?}", other),
    }
    assert_eq!(server.list_rooms()[0].peer_count, MAX_PEERS_PER_ROOM);
}

#[test]
fn update_peer_info_is_fanned_out() {
    let mut server = SignalingServer::new();
    let mut host = session();
    let (room_id, host_id, _) = create(&mut server, &mut host, "R", None, "Host");
    let addr = jamjam::stun::SocketAddress::V4 { ip: [10, 0, 0, 1], port: 4000 };
    let out = server.process_message(
        &mut host,
        SignalingMessage::UpdatePeerInfo { public_addr: Some(addr), local_addr: None },
    );
    assert!(out.reply.is_none());
    match out.broadcast {
        Some((to_room, SignalingMessage::PeerUpdated { peer })) => {
            assert_eq!(to_room, room_id);
            assert_eq!(peer.id, host_id);
            assert_eq!(peer.public_addr.map(|a| a.port()), Some(4000));
        }
        other => panic!("Expected PeerUpdated, got {:?}", other),
    }
}

#[test]
fn apply_message_with_chosen_ids() {
    let mut server = SignalingServer::new();
    let mut s = session();
    let out = server.apply_message(
        &mut s,
        SignalingMessage::CreateRoom {
            room_name: "Fixed".to_string(),
            password: None,
            peer_name: "Host".to_string(),
        },
        FreshIds { room_id: "abcd1234".to_string(), peer_id: 42, invite_code: "ABCDEF".to_string() },
    );
    match out.reply {
        Some(SignalingMessage::RoomCreated { room_id, peer_id, invite_code }) => {
            assert_eq!((room_id.as_str(), peer_id, invite_code.as_str()), ("abcd1234", 42, "ABCDEF"));
        }
        other => panic!("Expected RoomCreated, got {:?}", other),
    }
    let mut g = session();
    let out = server.apply_message(
        &mut g,
        SignalingMessage::JoinRoom { room_id: "abcd1234".to_string(), password: None, peer_name: "G".to_string() },
        FreshIds { room_id: String::new(), peer_id: 7, invite_code: String::new() },
    );
    match out.reply {
        Some(SignalingMessage::RoomJoined { room_id, peer_id, peers }) => {
            assert_eq!(room_id, "abcd1234");
            assert_eq!(peer_id, 7);
            assert_eq!(peers.iter().map(|p: &PeerInfo| p.id).collect::<Vec<_>>(), vec![42]);
        }
        other => panic!("Expected RoomJoined, got {:?}", other),
    }
}

#[test]
fn server_messages_from_clients_are_ignored() {
    let mut server = SignalingServer::new();
    let mut s = session();
    let out = server.process_message(&mut s, SignalingMessage::PeerLeft { peer_id: 3 });
    assert!(out.reply.is_none() && out.broadcast.is_none() && out.closed_room.is_none());
}

#[test]
fn joiner_connects_to_first_peer_with_an_address() {
    let addr = SocketAddress::V4 { ip: [10, 0, 0, 2], port: 5000 };
    let peers = vec![
        PeerInfo { id: 1, name: "a".to_string(), public_addr: None, local_addr: Some(addr) },
        PeerInfo { id: 2, name: "b".to_string(), public_addr: Some(addr), local_addr: None },
        PeerInfo { id: 3, name: "c".to_string(), public_addr: Some(addr), local_addr: None },
    ];
    assert_eq!(first_reachable_peer(&peers), Some(1));
    assert_eq!(first_reachable_peer(&peers[..1].to_vec()), None);
    assert_eq!(first_reachable_peer(&Vec::new()), None);
}
