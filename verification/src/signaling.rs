//! Rooms, peers and invite codes of the signaling service.
//!
//! The server keeps a list of rooms; each client connection carries a
//! `ClientSession` naming the room it joined. A request from a client is
//! answered by `SignalingServer::process_message`, which returns the reply for
//! that client, the message to fan out to the members of a room, and the room
//! that went away. Transport and fan-out are left to the caller.
use vstd::prelude::*;
use crate::stun::SocketAddress;
use rand::Rng;
use vstd::utf8::{encode_utf8, is_ascii_chars};

verus! {

/// Most peers a room holds.
pub const MAX_PEERS_PER_ROOM: usize = 10;

/// Number of characters of an invite code.
pub const INVITE_CODE_LENGTH: usize = 6;

/// Number of characters an invite code is drawn from.
pub const INVITE_ALPHABET_SIZE: usize = 31;

/// The characters of invite codes: `A`-`H`, `J`, `K`, `M`, `N`, `P`-`Z` and
/// `2`-`9`, which leaves out the look-alikes `0`, `O`, `I`, `1` and `L`.
pub open spec fn is_invite_char(c: u8) -> bool {
    (65 <= c <= 72) || c == 74 || c == 75 || c == 77 || c == 78 || (80 <= c <= 90) || (50 <= c
        <= 57)
}

/// The `i`-th character of the invite alphabet, in the order
/// `ABCDEFGHJKMNPQRSTUVWXYZ23456789`.
pub open spec fn invite_alphabet_at(i: int) -> u8 {
    if i < 8 {
        (65 + i) as u8
    } else if i == 8 {
        74
    } else if i == 9 {
        75
    } else if i == 10 {
        77
    } else if i == 11 {
        78
    } else if i < 23 {
        (80 + (i - 12)) as u8
    } else {
        (50 + (i - 23)) as u8
    }
}

/// A character of the invite alphabet: an ASCII character whose code is one
/// of the alphabet's.
pub open spec fn is_invite_character(c: char) -> bool {
    (c as u32) < 128 && is_invite_char(c as u8)
}

/// A text has the shape of an invite code: six characters, each of the
/// invite alphabet.
pub open spec fn invite_code_format(s: Seq<char>) -> bool {
    &&& s.len() == INVITE_CODE_LENGTH
    &&& forall|i: int| 0 <= i < s.len() ==> is_invite_character(#[trigger] s[i])
}

/// Whether `c` is a character of the invite alphabet.
pub fn is_invite_char_byte(c: u8) -> (r: bool)
    ensures
        r == is_invite_char(c),
{
    (65 <= c && c <= 72) || c == 74 || c == 75 || c == 77 || c == 78 || (80 <= c && c <= 90) || (
    50 <= c && c <= 57)
}

/// The `i`-th character of the invite alphabet.
pub fn invite_char_at(i: usize) -> (c: u8)
    requires
        i < INVITE_ALPHABET_SIZE,
    ensures
        c == invite_alphabet_at(i as int),
        is_invite_char(c),
{
    let b = i as u8;
    if b < 8 {
        65 + b
    } else if b == 8 {
        74
    } else if b == 9 {
        75
    } else if b == 10 {
        77
    } else if b == 11 {
        78
    } else if b < 23 {
        80 + (b - 12)
    } else {
        50 + (b - 23)
    }
}

/// Every character of the invite alphabet is one of its entries, and the
/// alphabet holds none of `0`, `O`, `I`, `1`, `L`.
pub proof fn lemma_invite_alphabet(c: u8)
    ensures
        is_invite_char(c) <==> exists|i: int| 0 <= i < INVITE_ALPHABET_SIZE && invite_alphabet_at(i) == c,
        is_invite_char(c) ==> c != 48 && c != 79 && c != 73 && c != 49 && c != 76,
{
    if is_invite_char(c) {
        let i: int = if c <= 57 {
            c - 50 + 23
        } else if c <= 72 {
            c - 65
        } else if c == 74 {
            8
        } else if c == 75 {
            9
        } else if c == 77 {
            10
        } else if c == 78 {
            11
        } else {
            c - 80 + 12
        };
        assert(invite_alphabet_at(i) == c);
    }
    if exists|i: int| 0 <= i < INVITE_ALPHABET_SIZE && invite_alphabet_at(i) == c {
        let i = choose|i: int| 0 <= i < INVITE_ALPHABET_SIZE && invite_alphabet_at(i) == c;
        assert(is_invite_char(invite_alphabet_at(i)));
    }
}

/// Whether `s` has the shape of an invite code: six characters, each of the
/// invite alphabet.
pub fn is_invite_code_format(s: &str) -> (r: bool)
    ensures
        r == invite_code_format(s@),
{
    let n = s.unicode_len();
    if n != INVITE_CODE_LENGTH {
        return false;
    }
    let mut i: usize = 0;
    while i < n
        invariant
            n == s@.len(),
            n == INVITE_CODE_LENGTH,
            i <= n,
            forall|j: int| 0 <= j < i ==> is_invite_character(#[trigger] s@[j]),
        decreases n - i,
    {
        let c = s.get_char(i);
        let code = c as u32;
        if code >= 128 || !is_invite_char_byte(code as u8) {
            assert(!is_invite_character(s@[i as int]));
            return false;
        }
        assert(is_invite_character(s@[i as int]));
        i = i + 1;
    }
    true
}

/// `std::string::String::from_utf8` on bytes that are all ASCII: the string
/// whose characters are those bytes.
#[verifier::external_body]
fn ascii_string(bytes: Vec<u8>) -> (r: String)
    requires
        forall|i: int| 0 <= i < bytes@.len() ==> bytes@[i] < 128,
    ensures
        r@ == bytes@.map_values(|b: u8| b as char),
{
    String::from_utf8(bytes).unwrap()
}

/// `rand::Rng::gen_range` on the thread-local generator of `rand`: a number
/// drawn from `0..bound`.
#[verifier::external_body]
fn random_below(bound: usize) -> (r: usize)
    requires
        bound > 0,
    ensures
        r < bound,
{
    rand::thread_rng().gen_range(0..bound)
}

/// The characters of `bytes`, as a string, have the shape of an invite code.
proof fn lemma_code_of_invite_bytes(bytes: Seq<u8>, s: Seq<char>)
    requires
        bytes.len() == INVITE_CODE_LENGTH,
        forall|i: int| 0 <= i < bytes.len() ==> is_invite_char(#[trigger] bytes[i]),
        s == bytes.map_values(|b: u8| b as char),
    ensures
        invite_code_format(s),
{
    assert forall|i: int| 0 <= i < s.len() implies is_invite_character(#[trigger] s[i]) by {
        let b = bytes[i];
        assert(is_invite_char(b));
        assert(s[i] == b as char);
        assert((b as char) as u32 == b);
    }
}

/// A random invite code: six characters, each drawn from the invite alphabet.
pub fn generate_invite_code() -> (code: String)
    ensures
        invite_code_format(code@),
        code@.len() == INVITE_CODE_LENGTH,
{
    let mut bytes: Vec<u8> = Vec::new();
    let mut i: usize = 0;
    while i < INVITE_CODE_LENGTH
        invariant
            i <= INVITE_CODE_LENGTH,
            bytes@.len() == i,
            forall|j: int| 0 <= j < i ==> is_invite_char(#[trigger] bytes@[j]),
        decreases INVITE_CODE_LENGTH - i,
    {
        let idx = random_below(INVITE_ALPHABET_SIZE);
        bytes.push(invite_char_at(idx));
        i = i + 1;
    }
    let ghost b = bytes@;
    let code = ascii_string(bytes);
    proof {
        lemma_code_of_invite_bytes(b, code@);
    }
    code
}


// ---------------------------------------------------------------------------
// Peers, rooms and messages
// ---------------------------------------------------------------------------

/// A member of a room.
#[derive(Debug)]
pub struct PeerInfo {
    pub id: u128,
    pub name: String,
    pub public_addr: Option<SocketAddress>,
    pub local_addr: Option<SocketAddress>,
}

/// A peer as plain values.
pub struct PeerModel {
    pub id: u128,
    pub name: Seq<char>,
    pub public_addr: Option<SocketAddress>,
    pub local_addr: Option<SocketAddress>,
}

impl View for PeerInfo {
    type V = PeerModel;

    open spec fn view(&self) -> PeerModel {
        PeerModel {
            id: self.id,
            name: self.name@,
            public_addr: self.public_addr,
            local_addr: self.local_addr,
        }
    }
}

impl Clone for PeerInfo {
    fn clone(&self) -> (r: Self)
        ensures
            r@ == self@,
    {
        PeerInfo {
            id: self.id,
            name: self.name.clone(),
            public_addr: self.public_addr,
            local_addr: self.local_addr,
        }
    }
}

/// What a room list shows of a room.
#[derive(Debug)]
pub struct RoomInfo {
    pub id: String,
    pub name: String,
    pub peer_count: usize,
    pub max_peers: usize,
    pub has_password: bool,
    /// Six-character code for sharing the room
    pub invite_code: String,
}

/// A room list entry as plain values.
pub struct RoomInfoModel {
    pub id: Seq<char>,
    pub name: Seq<char>,
    pub peer_count: nat,
    pub max_peers: nat,
    pub has_password: bool,
    pub invite_code: Seq<char>,
}

impl View for RoomInfo {
    type V = RoomInfoModel;

    open spec fn view(&self) -> RoomInfoModel {
        RoomInfoModel {
            id: self.id@,
            name: self.name@,
            peer_count: self.peer_count as nat,
            max_peers: self.max_peers as nat,
            has_password: self.has_password,
            invite_code: self.invite_code@,
        }
    }
}

/// The views of a list of peers.
pub open spec fn peers_view(v: Seq<PeerInfo>) -> Seq<PeerModel> {
    v.map_values(|p: PeerInfo| p@)
}

/// The views of a list of room list entries.
pub open spec fn infos_view(v: Seq<RoomInfo>) -> Seq<RoomInfoModel> {
    v.map_values(|r: RoomInfo| r@)
}

/// The view of an optional string.
pub open spec fn opt_str(o: Option<String>) -> Option<Seq<char>> {
    match o {
        Some(s) => Some(s@),
        None => None,
    }
}

/// Messages between clients and the signaling server.
#[derive(Debug)]
pub enum SignalingMessage {
    // client to server
    CreateRoom { room_name: String, password: Option<String>, peer_name: String },
    JoinRoom { room_id: String, password: Option<String>, peer_name: String },
    LeaveRoom,
    UpdatePeerInfo { public_addr: Option<SocketAddress>, local_addr: Option<SocketAddress> },
    ListRooms,
    // server to client
    RoomCreated { room_id: String, peer_id: u128, invite_code: String },
    RoomJoined { room_id: String, peer_id: u128, peers: Vec<PeerInfo> },
    PeerJoined { peer: PeerInfo },
    PeerLeft { peer_id: u128 },
    PeerUpdated { peer: PeerInfo },
    RoomList { rooms: Vec<RoomInfo> },
    Error { message: String },
}

/// A message as plain values.
pub enum MessageModel {
    CreateRoom { room_name: Seq<char>, password: Option<Seq<char>>, peer_name: Seq<char> },
    JoinRoom { room_id: Seq<char>, password: Option<Seq<char>>, peer_name: Seq<char> },
    LeaveRoom,
    UpdatePeerInfo { public_addr: Option<SocketAddress>, local_addr: Option<SocketAddress> },
    ListRooms,
    RoomCreated { room_id: Seq<char>, peer_id: u128, invite_code: Seq<char> },
    RoomJoined { room_id: Seq<char>, peer_id: u128, peers: Seq<PeerModel> },
    PeerJoined { peer: PeerModel },
    PeerLeft { peer_id: u128 },
    PeerUpdated { peer: PeerModel },
    RoomList { rooms: Seq<RoomInfoModel> },
    Error { message: Seq<char> },
}

impl View for SignalingMessage {
    type V = MessageModel;

    open spec fn view(&self) -> MessageModel {
        match self {
            SignalingMessage::CreateRoom { room_name, password, peer_name } => MessageModel::CreateRoom {
                room_name: room_name@,
                password: opt_str(*password),
                peer_name: peer_name@,
            },
            SignalingMessage::JoinRoom { room_id, password, peer_name } => MessageModel::JoinRoom {
                room_id: room_id@,
                password: opt_str(*password),
                peer_name: peer_name@,
            },
            SignalingMessage::LeaveRoom => MessageModel::LeaveRoom,
            SignalingMessage::UpdatePeerInfo { public_addr, local_addr } => MessageModel::UpdatePeerInfo {
                public_addr: *public_addr,
                local_addr: *local_addr,
            },
            SignalingMessage::ListRooms => MessageModel::ListRooms,
            SignalingMessage::RoomCreated { room_id, peer_id, invite_code } => MessageModel::RoomCreated {
                room_id: room_id@,
                peer_id: *peer_id,
                invite_code: invite_code@,
            },
            SignalingMessage::RoomJoined { room_id, peer_id, peers } => MessageModel::RoomJoined {
                room_id: room_id@,
                peer_id: *peer_id,
                peers: peers_view(peers@),
            },
            SignalingMessage::PeerJoined { peer } => MessageModel::PeerJoined { peer: peer@ },
            SignalingMessage::PeerLeft { peer_id } => MessageModel::PeerLeft { peer_id: *peer_id },
            SignalingMessage::PeerUpdated { peer } => MessageModel::PeerUpdated { peer: peer@ },
            SignalingMessage::RoomList { rooms } => MessageModel::RoomList { rooms: infos_view(rooms@) },
            SignalingMessage::Error { message } => MessageModel::Error { message: message@ },
        }
    }
}

/// Whether a message that was fanned out to a room goes on to the client of
/// peer `me`: news about a peer does not go back to that peer.
pub open spec fn forwards_to(m: MessageModel, me: Option<u128>) -> bool {
    match m {
        MessageModel::PeerJoined { peer } => Some(peer.id) != me,
        MessageModel::PeerUpdated { peer } => Some(peer.id) != me,
        _ => true,
    }
}

/// The first peer of a room that announced a public address: the one a
/// client connects to when it joins.
pub fn first_reachable_peer(peers: &Vec<PeerInfo>) -> (r: Option<usize>)
    ensures
        match r {
            Some(i) => i < peers@.len() && peers@[i as int].public_addr is Some && forall|j: int|
                0 <= j < i ==> (#[trigger] peers@[j]).public_addr is None,
            None => forall|j: int| 0 <= j < peers@.len() ==> (#[trigger] peers@[j]).public_addr is None,
        },
{
    let mut i: usize = 0;
    while i < peers.len()
        invariant
            i <= peers@.len(),
            forall|j: int| 0 <= j < i ==> (#[trigger] peers@[j]).public_addr is None,
        decreases peers@.len() - i,
    {
        if peers[i].public_addr.is_some() {
            return Some(i);
        }
        i = i + 1;
    }
    None
}

/// Whether a message fanned out to a room goes on to the client of peer `me`.
pub fn should_forward(msg: &SignalingMessage, me: Option<u128>) -> (r: bool)
    ensures
        r == forwards_to(msg@, me),
{
    match msg {
        SignalingMessage::PeerJoined { peer } => match me {
            Some(id) => peer.id != id,
            None => true,
        },
        SignalingMessage::PeerUpdated { peer } => match me {
            Some(id) => peer.id != id,
            None => true,
        },
        _ => true,
    }
}


// ---------------------------------------------------------------------------
// Server state
// ---------------------------------------------------------------------------

/// A room on the server.
struct Room {
    id: String,
    name: String,
    password: Option<String>,
    peers: Vec<PeerInfo>,
    invite_code: String,
}

/// A room as plain values.
pub struct RoomModel {
    pub id: Seq<char>,
    pub name: Seq<char>,
    pub password: Option<Seq<char>>,
    pub peers: Seq<PeerModel>,
    pub invite_code: Seq<char>,
}

impl View for Room {
    type V = RoomModel;

    closed spec fn view(&self) -> RoomModel {
        RoomModel {
            id: self.id@,
            name: self.name@,
            password: opt_str(self.password),
            peers: peers_view(self.peers@),
            invite_code: self.invite_code@,
        }
    }
}

/// The rooms of a signaling server, in the order they were made.
pub struct SignalingServer {
    rooms: Vec<Room>,
}

impl View for SignalingServer {
    type V = Seq<RoomModel>;

    closed spec fn view(&self) -> Seq<RoomModel> {
        self.rooms@.map_values(|r: Room| r@)
    }
}

/// What one client connection has joined.
#[derive(Debug)]
pub struct ClientSession {
    pub current_room: Option<String>,
    pub current_peer_id: Option<u128>,
}

/// A client session as plain values: the room id and the peer id.
pub type SessionModel = (Option<Seq<char>>, Option<u128>);

impl View for ClientSession {
    type V = SessionModel;

    open spec fn view(&self) -> SessionModel {
        (opt_str(self.current_room), self.current_peer_id)
    }
}

/// What the server does in answer to one message: the reply to the sender,
/// a message for every member of a room (room id first), and the id of a room
/// that was removed.
#[derive(Debug)]
pub struct ServerOutcome {
    pub reply: Option<SignalingMessage>,
    pub broadcast: Option<(String, SignalingMessage)>,
    pub closed_room: Option<String>,
}

/// An outcome as plain values.
pub struct OutcomeModel {
    pub reply: Option<MessageModel>,
    pub broadcast: Option<(Seq<char>, MessageModel)>,
    pub closed_room: Option<Seq<char>>,
}

impl View for ServerOutcome {
    type V = OutcomeModel;

    open spec fn view(&self) -> OutcomeModel {
        OutcomeModel {
            reply: match self.reply {
                Some(m) => Some(m@),
                None => None,
            },
            broadcast: match self.broadcast {
                Some((r, m)) => Some((r@, m@)),
                None => None,
            },
            closed_room: opt_str(self.closed_room),
        }
    }
}

/// The values a request may need that the server draws at random: the id
/// of a new room, the id of a new peer and the invite code of a new room.
#[derive(Debug)]
pub struct FreshIds {
    pub room_id: String,
    pub peer_id: u128,
    pub invite_code: String,
}

/// Fresh ids as plain values.
pub type FreshModel = (Seq<char>, u128, Seq<char>);

impl View for FreshIds {
    type V = FreshModel;

    open spec fn view(&self) -> FreshModel {
        (self.room_id@, self.peer_id, self.invite_code@)
    }
}

// ---------------------------------------------------------------------------
// The rules, over plain values
// ---------------------------------------------------------------------------

/// The first room whose id is `id`, or -1.
#[verifier::opaque]
pub open spec fn room_with_id(rooms: Seq<RoomModel>, id: Seq<char>) -> int {
    if exists|i: int| 0 <= i < rooms.len() && (#[trigger] rooms[i]).id == id {
        choose|i: int|
            0 <= i < rooms.len() && rooms[i].id == id && forall|j: int|
                0 <= j < i ==> (#[trigger] rooms[j]).id != id
    } else {
        -1
    }
}

/// The first room whose invite code is `code`, or -1.
#[verifier::opaque]
pub open spec fn room_with_code(rooms: Seq<RoomModel>, code: Seq<char>) -> int {
    if exists|i: int| 0 <= i < rooms.len() && (#[trigger] rooms[i]).invite_code == code {
        choose|i: int|
            0 <= i < rooms.len() && rooms[i].invite_code == code && forall|j: int|
                0 <= j < i ==> (#[trigger] rooms[j]).invite_code != code
    } else {
        -1
    }
}

/// The first peer whose id is `id`, or -1.
#[verifier::opaque]
pub open spec fn peer_with_id(peers: Seq<PeerModel>, id: u128) -> int {
    if exists|i: int| 0 <= i < peers.len() && (#[trigger] peers[i]).id == id {
        choose|i: int|
            0 <= i < peers.len() && peers[i].id == id && forall|j: int|
                0 <= j < i ==> (#[trigger] peers[j]).id != id
    } else {
        -1
    }
}

/// The room a join request names: by invite code when the text has the
/// shape of one, else by room id; -1 when there is none.
pub open spec fn join_target(rooms: Seq<RoomModel>, key: Seq<char>) -> int {
    if invite_code_format(key) {
        room_with_code(rooms, key)
    } else {
        room_with_id(rooms, key)
    }
}

/// `rooms` with `room` in place of the first room of the same id, or with
/// `room` added last.
pub open spec fn put_room(rooms: Seq<RoomModel>, room: RoomModel) -> Seq<RoomModel> {
    let i = room_with_id(rooms, room.id);
    if i >= 0 {
        rooms.update(i, room)
    } else {
        rooms.push(room)
    }
}

/// `peers` with `peer` in place of the first peer of the same id, or with
/// `peer` added last.
pub open spec fn put_peer(peers: Seq<PeerModel>, peer: PeerModel) -> Seq<PeerModel> {
    let i = peer_with_id(peers, peer.id);
    if i >= 0 {
        peers.update(i, peer)
    } else {
        peers.push(peer)
    }
}

/// `peers` without the first peer whose id is `id`.
pub open spec fn drop_peer(peers: Seq<PeerModel>, id: u128) -> Seq<PeerModel> {
    let i = peer_with_id(peers, id);
    if i >= 0 {
        peers.remove(i)
    } else {
        peers
    }
}

/// The list entry of a room.
pub open spec fn room_info(r: RoomModel) -> RoomInfoModel {
    RoomInfoModel {
        id: r.id,
        name: r.name,
        peer_count: r.peers.len(),
        max_peers: MAX_PEERS_PER_ROOM as nat,
        has_password: r.password is Some,
        invite_code: r.invite_code,
    }
}

pub open spec fn no_outcome() -> OutcomeModel {
    OutcomeModel { reply: None, broadcast: None, closed_room: None }
}

pub open spec fn reply_only(m: MessageModel) -> OutcomeModel {
    OutcomeModel { reply: Some(m), broadcast: None, closed_room: None }
}

/// A new peer with no addresses yet.
pub open spec fn new_peer(id: u128, name: Seq<char>) -> PeerModel {
    PeerModel { id, name, public_addr: None, local_addr: None }
}

/// The effect of one step: the rooms, the sender's session and the outcome.
pub type StepModel = (Seq<RoomModel>, SessionModel, OutcomeModel);

/// Creating a room: the sender becomes its first peer.
pub open spec fn create_step(
    rooms: Seq<RoomModel>,
    room_name: Seq<char>,
    password: Option<Seq<char>>,
    peer_name: Seq<char>,
    fresh: FreshModel,
) -> StepModel {
    let room = RoomModel {
        id: fresh.0,
        name: room_name,
        password,
        peers: seq![new_peer(fresh.1, peer_name)],
        invite_code: fresh.2,
    };
    (
        put_room(rooms, room),
        (Some(fresh.0), Some(fresh.1)),
        reply_only(
            MessageModel::RoomCreated { room_id: fresh.0, peer_id: fresh.1, invite_code: fresh.2 },
        ),
    )
}

/// Joining a room: refused with a reason when there is no such room, when a
/// password is set and not given, or when the room is full.
pub open spec fn join_step(
    rooms: Seq<RoomModel>,
    sess: SessionModel,
    key: Seq<char>,
    password: Option<Seq<char>>,
    peer_name: Seq<char>,
    fresh: FreshModel,
) -> StepModel {
    let i = join_target(rooms, key);
    if i < 0 {
        (rooms, sess, reply_only(MessageModel::Error { message: "Room not found"@ }))
    } else if rooms[i].password is Some && rooms[i].password != password {
        (rooms, sess, reply_only(MessageModel::Error { message: "Invalid password"@ }))
    } else if rooms[i].peers.len() >= MAX_PEERS_PER_ROOM {
        (rooms, sess, reply_only(MessageModel::Error { message: "Room is full"@ }))
    } else {
        let room = rooms[i];
        let peer = new_peer(fresh.1, peer_name);
        (
            rooms.update(i, RoomModel { peers: put_peer(room.peers, peer), ..room }),
            (Some(room.id), Some(fresh.1)),
            OutcomeModel {
                reply: Some(
                    MessageModel::RoomJoined { room_id: room.id, peer_id: fresh.1, peers: room.peers },
                ),
                broadcast: Some((room.id, MessageModel::PeerJoined { peer })),
                closed_room: None,
            },
        )
    }
}

/// Leaving: the session is cleared; the peer leaves its room, the room hears
/// of it, and a room left empty is removed.
pub open spec fn leave_step(rooms: Seq<RoomModel>, sess: SessionModel) -> StepModel {
    match sess {
        (Some(rid), Some(pid)) => {
            let i = room_with_id(rooms, rid);
            if i < 0 {
                (rooms, (None, None), no_outcome())
            } else {
                let peers = drop_peer(rooms[i].peers, pid);
                let note = Some((rid, MessageModel::PeerLeft { peer_id: pid }));
                if peers.len() == 0 {
                    (
                        rooms.remove(i),
                        (None, None),
                        OutcomeModel { reply: None, broadcast: note, closed_room: Some(rid) },
                    )
                } else {
                    (
                        rooms.update(i, RoomModel { peers, ..rooms[i] }),
                        (None, None),
                        OutcomeModel { reply: None, broadcast: note, closed_room: None },
                    )
                }
            }
        },
        _ => (rooms, (None, None), no_outcome()),
    }
}

/// Updating the sender's addresses, which its room hears of.
pub open spec fn update_step(
    rooms: Seq<RoomModel>,
    sess: SessionModel,
    public_addr: Option<SocketAddress>,
    local_addr: Option<SocketAddress>,
) -> StepModel {
    match sess {
        (Some(rid), Some(pid)) => {
            let i = room_with_id(rooms, rid);
            if i < 0 {
                (rooms, sess, no_outcome())
            } else {
                let k = peer_with_id(rooms[i].peers, pid);
                if k < 0 {
                    (rooms, sess, no_outcome())
                } else {
                    let peer = PeerModel { public_addr, local_addr, ..rooms[i].peers[k] };
                    (
                        rooms.update(i, RoomModel { peers: rooms[i].peers.update(k, peer), ..rooms[i] }),
                        sess,
                        OutcomeModel {
                            reply: None,
                            broadcast: Some((rid, MessageModel::PeerUpdated { peer })),
                            closed_room: None,
                        },
                    )
                }
            }
        },
        _ => (rooms, sess, no_outcome()),
    }
}

/// The effect of one message from a client. Messages that only a server
/// sends are ignored.
pub open spec fn server_step(
    rooms: Seq<RoomModel>,
    sess: SessionModel,
    msg: MessageModel,
    fresh: FreshModel,
) -> StepModel {
    match msg {
        MessageModel::CreateRoom { room_name, password, peer_name } => create_step(
            rooms,
            room_name,
            password,
            peer_name,
            fresh,
        ),
        MessageModel::JoinRoom { room_id, password, peer_name } => join_step(
            rooms,
            sess,
            room_id,
            password,
            peer_name,
            fresh,
        ),
        MessageModel::LeaveRoom => leave_step(rooms, sess),
        MessageModel::UpdatePeerInfo { public_addr, local_addr } => update_step(
            rooms,
            sess,
            public_addr,
            local_addr,
        ),
        MessageModel::ListRooms => (
            rooms,
            sess,
            reply_only(MessageModel::RoomList { rooms: rooms.map_values(|r: RoomModel| room_info(r)) }),
        ),
        _ => (rooms, sess, no_outcome()),
    }
}


// ---------------------------------------------------------------------------
// Lookups
// ---------------------------------------------------------------------------

proof fn lemma_room_with_id(rooms: Seq<RoomModel>, id: Seq<char>, i: int)
    requires
        -1 <= i < rooms.len(),
        i >= 0 ==> rooms[i].id == id,
        forall|j: int| 0 <= j < i ==> (#[trigger] rooms[j]).id != id,
        i < 0 ==> forall|j: int| 0 <= j < rooms.len() ==> (#[trigger] rooms[j]).id != id,
    ensures
        room_with_id(rooms, id) == i,
{
    reveal(room_with_id);
    if i >= 0 {
        let k = room_with_id(rooms, id);
        assert(0 <= k < rooms.len() && rooms[k].id == id);
        if k < i {
            assert(rooms[k].id != id);
        }
        if k > i {
            assert(rooms[i].id != id);
        }
    }
}

proof fn lemma_room_with_code(rooms: Seq<RoomModel>, code: Seq<char>, i: int)
    requires
        -1 <= i < rooms.len(),
        i >= 0 ==> rooms[i].invite_code == code,
        forall|j: int| 0 <= j < i ==> (#[trigger] rooms[j]).invite_code != code,
        i < 0 ==> forall|j: int| 0 <= j < rooms.len() ==> (#[trigger] rooms[j]).invite_code != code,
    ensures
        room_with_code(rooms, code) == i,
{
    reveal(room_with_code);
    if i >= 0 {
        let k = room_with_code(rooms, code);
        assert(0 <= k < rooms.len() && rooms[k].invite_code == code);
        if k < i {
            assert(rooms[k].invite_code != code);
        }
        if k > i {
            assert(rooms[i].invite_code != code);
        }
    }
}

proof fn lemma_peer_with_id(peers: Seq<PeerModel>, id: u128, i: int)
    requires
        -1 <= i < peers.len(),
        i >= 0 ==> peers[i].id == id,
        forall|j: int| 0 <= j < i ==> (#[trigger] peers[j]).id != id,
        i < 0 ==> forall|j: int| 0 <= j < peers.len() ==> (#[trigger] peers[j]).id != id,
    ensures
        peer_with_id(peers, id) == i,
{
    reveal(peer_with_id);
    if i >= 0 {
        let k = peer_with_id(peers, id);
        assert(0 <= k < peers.len() && peers[k].id == id);
        if k < i {
            assert(peers[k].id != id);
        }
        if k > i {
            assert(peers[i].id != id);
        }
    }
}

/// The position of the first peer with id `id`.
fn find_peer(peers: &Vec<PeerInfo>, id: u128) -> (r: Option<usize>)
    ensures
        match r {
            Some(i) => i < peers@.len() && i as int == peer_with_id(peers_view(peers@), id),
            None => peer_with_id(peers_view(peers@), id) == -1,
        },
{
    let ghost v = peers_view(peers@);
    let mut i: usize = 0;
    while i < peers.len()
        invariant
            i <= peers@.len(),
            v == peers_view(peers@),
            forall|j: int| 0 <= j < i ==> (#[trigger] v[j]).id != id,
        decreases peers.len() - i,
    {
        if peers[i].id == id {
            proof {
                lemma_peer_with_id(v, id, i as int);
            }
            return Some(i);
        }
        i = i + 1;
    }
    proof {
        lemma_peer_with_id(v, id, -1);
    }
    None
}

/// A copy of every peer of `peers`.
fn copy_peers(peers: &Vec<PeerInfo>) -> (r: Vec<PeerInfo>)
    ensures
        peers_view(r@) == peers_view(peers@),
{
    let mut out: Vec<PeerInfo> = Vec::new();
    let mut i: usize = 0;
    while i < peers.len()
        invariant
            i <= peers@.len(),
            out@.len() == i,
            peers_view(out@) == peers_view(peers@).subrange(0, i as int),
        decreases peers.len() - i,
    {
        let p = peers[i].clone();
        assert(p@ == peers_view(peers@)[i as int]);
        out.push(p);
        i = i + 1;
        assert(peers_view(out@) =~= peers_view(peers@).subrange(0, i as int));
    }
    assert(peers_view(peers@).subrange(0, peers@.len() as int) =~= peers_view(peers@));
    out
}

/// Puts `peer` in place of the first peer of its id, or adds it last.
fn put_peer_into(peers: &mut Vec<PeerInfo>, peer: PeerInfo)
    ensures
        peers_view(final(peers)@) == put_peer(peers_view(old(peers)@), peer@),
{
    let ghost before = peers_view(peers@);
    let ghost p = peer@;
    match find_peer(peers, peer.id) {
        Some(i) => {
            peers.remove(i);
            peers.insert(i, peer);
            assert(peers_view(peers@) =~= before.update(i as int, p));
        },
        None => {
            peers.push(peer);
            assert(peers_view(peers@) =~= before.push(p));
        },
    }
}

/// Removes the first peer with id `id`.
fn drop_peer_from(peers: &mut Vec<PeerInfo>, id: u128)
    ensures
        peers_view(final(peers)@) == drop_peer(peers_view(old(peers)@), id),
{
    let ghost before = peers_view(peers@);
    match find_peer(peers, id) {
        Some(i) => {
            peers.remove(i);
            assert(peers_view(peers@) =~= before.remove(i as int));
        },
        None => {},
    }
}

impl SignalingServer {
    /// A server with no rooms.
    pub fn new() -> (s: Self)
        ensures
            s@ == Seq::<RoomModel>::empty(),
    {
        let s = SignalingServer { rooms: Vec::new() };
        assert(s@ =~= Seq::<RoomModel>::empty());
        s
    }

    /// The position of the first room with id `id`.
    fn find_by_id(&self, id: &String) -> (r: Option<usize>)
        ensures
            match r {
                Some(i) => i < self@.len() && i as int == room_with_id(self@, id@),
                None => room_with_id(self@, id@) == -1,
            },
    {
        let mut i: usize = 0;
        while i < self.rooms.len()
            invariant
                i <= self@.len(),
                self@.len() == self.rooms@.len(),
                forall|j: int| 0 <= j < i ==> (#[trigger] self@[j]).id != id@,
            decreases self.rooms.len() - i,
        {
            if self.rooms[i].id == *id {
                proof {
                    lemma_room_with_id(self@, id@, i as int);
                }
                return Some(i);
            }
            assert(self@[i as int] == self.rooms@[i as int]@);
            i = i + 1;
        }
        proof {
            lemma_room_with_id(self@, id@, -1);
        }
        None
    }

    /// The position of the first room with invite code `code`.
    fn find_by_code(&self, code: &String) -> (r: Option<usize>)
        ensures
            match r {
                Some(i) => i < self@.len() && i as int == room_with_code(self@, code@),
                None => room_with_code(self@, code@) == -1,
            },
    {
        let mut i: usize = 0;
        while i < self.rooms.len()
            invariant
                i <= self@.len(),
                self@.len() == self.rooms@.len(),
                forall|j: int| 0 <= j < i ==> (#[trigger] self@[j]).invite_code != code@,
            decreases self.rooms.len() - i,
        {
            if self.rooms[i].invite_code == *code {
                proof {
                    lemma_room_with_code(self@, code@, i as int);
                }
                return Some(i);
            }
            assert(self@[i as int] == self.rooms@[i as int]@);
            i = i + 1;
        }
        proof {
            lemma_room_with_code(self@, code@, -1);
        }
        None
    }

    /// Whether some room has invite code `code`.
    pub fn invite_code_in_use(&self, code: &String) -> (r: bool)
        ensures
            r == (room_with_code(self@, code@) >= 0),
    {
        self.find_by_code(code).is_some()
    }

    /// The list entries of all rooms.
    pub fn list_rooms(&self) -> (r: Vec<RoomInfo>)
        ensures
            infos_view(r@) == self@.map_values(|m: RoomModel| room_info(m)),
    {
        let mut out: Vec<RoomInfo> = Vec::new();
        let mut i: usize = 0;
        while i < self.rooms.len()
            invariant
                i <= self.rooms@.len(),
                out@.len() == i,
                infos_view(out@) == self@.map_values(|m: RoomModel| room_info(m)).subrange(
                    0,
                    i as int,
                ),
            decreases self.rooms.len() - i,
        {
            let room = &self.rooms[i];
            let has_password = room.password.is_some();
            out.push(
                RoomInfo {
                    id: room.id.clone(),
                    name: room.name.clone(),
                    peer_count: room.peers.len(),
                    max_peers: MAX_PEERS_PER_ROOM,
                    has_password,
                    invite_code: room.invite_code.clone(),
                },
            );
            assert(out@[i as int]@ == room_info(self@[i as int]));
            i = i + 1;
            assert(infos_view(out@) =~= self@.map_values(|m: RoomModel| room_info(m)).subrange(
                0,
                i as int,
            ));
        }
        assert(self@.map_values(|m: RoomModel| room_info(m)).subrange(0, self.rooms@.len() as int)
            =~= self@.map_values(|m: RoomModel| room_info(m)));
        out
    }
}


/// The room list as plain values.
pub open spec fn rooms_listed(rooms: Seq<RoomModel>) -> Seq<RoomInfoModel> {
    rooms.map_values(|r: RoomModel| room_info(r))
}

/// An error reply with the given text.
fn error_reply(message: &str) -> (o: ServerOutcome)
    ensures
        o@ == reply_only(MessageModel::Error { message: message@ }),
{
    ServerOutcome {
        reply: Some(SignalingMessage::Error { message: message.to_string() }),
        broadcast: None,
        closed_room: None,
    }
}

fn nothing() -> (o: ServerOutcome)
    ensures
        o@ == no_outcome(),
{
    ServerOutcome { reply: None, broadcast: None, closed_room: None }
}

/// Whether a password set on a room refuses the given one.
fn password_refused(set: &Option<String>, given: &Option<String>) -> (r: bool)
    ensures
        r == (opt_str(*set) is Some && opt_str(*set) != opt_str(*given)),
{
    match set {
        None => false,
        Some(p) => match given {
            None => true,
            Some(g) => !(*p == *g),
        },
    }
}

impl SignalingServer {
    /// Puts `room` in place of the first room of its id, or adds it last.
    fn put_room_in(&mut self, room: Room)
        ensures
            final(self)@ == put_room(old(self)@, room@),
    {
        let ghost before = self@;
        let ghost r = room@;
        match self.find_by_id(&room.id) {
            Some(i) => {
                self.rooms.remove(i);
                self.rooms.insert(i, room);
                assert(self@ =~= before.update(i as int, r));
            },
            None => {
                self.rooms.push(room);
                assert(self@ =~= before.push(r));
            },
        }
    }

    fn create_room(
        &mut self,
        session: &mut ClientSession,
        room_name: String,
        password: Option<String>,
        peer_name: String,
        fresh: FreshIds,
    ) -> (o: ServerOutcome)
        ensures
            (final(self)@, final(session)@, o@) == create_step(
                old(self)@,
                room_name@,
                opt_str(password),
                peer_name@,
                fresh@,
            ),
    {
        let ghost f = fresh@;
        let peer = PeerInfo { id: fresh.peer_id, name: peer_name, public_addr: None, local_addr: None };
        let mut peers: Vec<PeerInfo> = Vec::new();
        peers.push(peer);
        let room = Room {
            id: fresh.room_id.clone(),
            name: room_name,
            password,
            peers,
            invite_code: fresh.invite_code.clone(),
        };
        assert(peers_view(room.peers@) =~= seq![new_peer(f.1, peer_name@)]);
        self.put_room_in(room);
        session.current_room = Some(fresh.room_id.clone());
        session.current_peer_id = Some(fresh.peer_id);
        ServerOutcome {
            reply: Some(
                SignalingMessage::RoomCreated {
                    room_id: fresh.room_id,
                    peer_id: fresh.peer_id,
                    invite_code: fresh.invite_code,
                },
            ),
            broadcast: None,
            closed_room: None,
        }
    }

    fn join_room(
        &mut self,
        session: &mut ClientSession,
        room_id: String,
        password: Option<String>,
        peer_name: String,
        fresh: FreshIds,
    ) -> (o: ServerOutcome)
        ensures
            (final(self)@, final(session)@, o@) == join_step(
                old(self)@,
                old(session)@,
                room_id@,
                opt_str(password),
                peer_name@,
                fresh@,
            ),
    {
        let ghost before = self@;
        let target = if is_invite_code_format(room_id.as_str()) {
            self.find_by_code(&room_id)
        } else {
            self.find_by_id(&room_id)
        };
        let i = match target {
            None => {
                return error_reply("Room not found");
            },
            Some(i) => i,
        };
        assert(self@[i as int] == self.rooms@[i as int]@);
        if password_refused(&self.rooms[i].password, &password) {
            return error_reply("Invalid password");
        }
        if self.rooms[i].peers.len() >= MAX_PEERS_PER_ROOM {
            return error_reply("Room is full");
        }
        let ghost old_room = self@[i as int];
        let existing = copy_peers(&self.rooms[i].peers);
        let rid = self.rooms[i].id.clone();
        let peer = PeerInfo { id: fresh.peer_id, name: peer_name, public_addr: None, local_addr: None };
        let announced = peer.clone();
        let mut room = self.rooms.remove(i);
        put_peer_into(&mut room.peers, peer);
        let ghost new_room = room@;
        self.rooms.insert(i, room);
        assert(new_room == RoomModel {
            peers: put_peer(old_room.peers, new_peer(fresh.peer_id, peer_name@)),
            ..old_room
        });
        assert(self@ =~= before.update(i as int, new_room));
        session.current_room = Some(rid.clone());
        session.current_peer_id = Some(fresh.peer_id);
        ServerOutcome {
            reply: Some(
                SignalingMessage::RoomJoined {
                    room_id: rid.clone(),
                    peer_id: fresh.peer_id,
                    peers: existing,
                },
            ),
            broadcast: Some((rid, SignalingMessage::PeerJoined { peer: announced })),
            closed_room: None,
        }
    }

    /// Takes the sender out of its room, as on a leave request.
    fn leave_room(&mut self, session: &mut ClientSession) -> (o: ServerOutcome)
        ensures
            (final(self)@, final(session)@, o@) == leave_step(old(self)@, old(session)@),
    {
        let ghost before = self@;
        let room_opt = session.current_room.take();
        let peer_opt = session.current_peer_id.take();
        match (room_opt, peer_opt) {
            (Some(rid), Some(pid)) => {
                match self.find_by_id(&rid) {
                    None => nothing(),
                    Some(i) => {
                        assert(self@[i as int] == self.rooms@[i as int]@);
                        let ghost old_room = self@[i as int];
                        let mut room = self.rooms.remove(i);
                        drop_peer_from(&mut room.peers, pid);
                        let note = Some((rid.clone(), SignalingMessage::PeerLeft { peer_id: pid }));
                        if room.peers.len() == 0 {
                            assert(self@ =~= before.remove(i as int));
                            ServerOutcome { reply: None, broadcast: note, closed_room: Some(rid) }
                        } else {
                            let ghost new_room = room@;
                            self.rooms.insert(i, room);
                            assert(self@ =~= before.update(i as int, new_room));
                            ServerOutcome { reply: None, broadcast: note, closed_room: None }
                        }
                    },
                }
            },
            _ => nothing(),
        }
    }

    fn update_peer(
        &mut self,
        session: &ClientSession,
        public_addr: Option<SocketAddress>,
        local_addr: Option<SocketAddress>,
    ) -> (o: ServerOutcome)
        ensures
            (final(self)@, session@, o@) == update_step(old(self)@, session@, public_addr, local_addr),
    {
        let ghost before = self@;
        match (&session.current_room, &session.current_peer_id) {
            (Some(rid), Some(pid)) => {
                match self.find_by_id(rid) {
                    None => nothing(),
                    Some(i) => {
                        assert(self@[i as int] == self.rooms@[i as int]@);
                        match find_peer(&self.rooms[i].peers, *pid) {
                            None => nothing(),
                            Some(k) => {
                                let ghost old_room = self@[i as int];
                                let mut room = self.rooms.remove(i);
                                let mut peer = room.peers.remove(k);
                                peer.public_addr = public_addr;
                                peer.local_addr = local_addr;
                                let announced = peer.clone();
                                room.peers.insert(k, peer);
                                let ghost new_room = room@;
                                assert(new_room.peers =~= old_room.peers.update(k as int, announced@));
                                self.rooms.insert(i, room);
                                assert(self@ =~= before.update(i as int, new_room));
                                ServerOutcome {
                                    reply: None,
                                    broadcast: Some(
                                        (rid.clone(), SignalingMessage::PeerUpdated { peer: announced }),
                                    ),
                                    closed_room: None,
                                }
                            },
                        }
                    },
                }
            },
            _ => nothing(),
        }
    }

    /// Answers one message from the client of `session`, with the values it
    /// needs drawn beforehand.
    pub fn apply_message(
        &mut self,
        session: &mut ClientSession,
        msg: SignalingMessage,
        fresh: FreshIds,
    ) -> (o: ServerOutcome)
        ensures
            (final(self)@, final(session)@, o@) == server_step(old(self)@, old(session)@, msg@, fresh@),
    {
        match msg {
            SignalingMessage::CreateRoom { room_name, password, peer_name } => self.create_room(
                session,
                room_name,
                password,
                peer_name,
                fresh,
            ),
            SignalingMessage::JoinRoom { room_id, password, peer_name } => self.join_room(
                session,
                room_id,
                password,
                peer_name,
                fresh,
            ),
            SignalingMessage::LeaveRoom => self.leave_room(session),
            SignalingMessage::UpdatePeerInfo { public_addr, local_addr } => self.update_peer(
                session,
                public_addr,
                local_addr,
            ),
            SignalingMessage::ListRooms => {
                let rooms = self.list_rooms();
                ServerOutcome {
                    reply: Some(SignalingMessage::RoomList { rooms }),
                    broadcast: None,
                    closed_room: None,
                }
            },
            _ => nothing(),
        }
    }

    /// Cleans up after a client that went away: as a leave request.
    pub fn disconnect(&mut self, session: &mut ClientSession) -> (o: ServerOutcome)
        ensures
            (final(self)@, final(session)@, o@) == leave_step(old(self)@, old(session)@),
    {
        self.leave_room(session)
    }
}


// ---------------------------------------------------------------------------
// Drawing ids
// ---------------------------------------------------------------------------

/// The lower-case hexadecimal digit of `n`, for `n` below 16.
pub open spec fn hex_lower(n: int) -> char {
    if n < 10 {
        (48 + n) as char
    } else {
        (97 + (n - 10)) as char
    }
}

/// Whether position `p` of a hyphenated uuid holds a hyphen.
pub open spec fn uuid_dash_at(p: int) -> bool {
    p == 8 || p == 13 || p == 18 || p == 23
}

/// The number of hex digits before position `p` of a hyphenated uuid.
pub open spec fn uuid_digit_index(p: int) -> int {
    p - (if p > 8 { 1int } else { 0 }) - (if p > 13 { 1int } else { 0 }) - (if p > 18 { 1int } else { 0 })
        - (if p > 23 { 1int } else { 0 })
}

/// The hyphenated form of uuid `id`: its 32 hex digits, most significant
/// first, in groups of 8, 4, 4, 4 and 12 joined by hyphens.
pub open spec fn uuid_hyphenated(id: u128) -> Seq<char> {
    Seq::new(
        36,
        |p: int|
            if uuid_dash_at(p) {
                '-'
            } else {
                hex_lower(((id >> ((4 * (31 - uuid_digit_index(p))) as u128)) % 16) as int)
            },
    )
}

/// `uuid::Uuid::new_v4` read as a `u128`: a random version-4 uuid, whose
/// version nibble is 4 and whose variant bits are `10`.
#[verifier::external_body]
fn new_uuid() -> (r: u128)
    ensures
        (r >> 76u128) & 0xfu128 == 4,
        (r >> 62u128) & 0x3u128 == 2,
{
    uuid::Uuid::new_v4().as_u128()
}

/// `uuid::Uuid::to_string` on `Uuid::from_u128(id)`: the hyphenated
/// lower-case form.
#[verifier::external_body]
pub(crate) fn uuid_text(id: u128) -> (r: String)
    ensures
        r@ == uuid_hyphenated(id),
{
    uuid::Uuid::from_u128(id).to_string()
}

proof fn lemma_uuid_text_ascii(id: u128)
    ensures
        is_ascii_chars(uuid_hyphenated(id)),
        uuid_hyphenated(id).len() == 36,
{
    let t = uuid_hyphenated(id);
    assert forall|i: int| 0 <= i < t.len() implies '\0' <= #[trigger] t[i] <= '\u{7f}' by {
        if !uuid_dash_at(i) {
            let n = ((id >> ((4 * (31 - uuid_digit_index(i))) as u128)) % 16) as int;
            assert(0 <= n < 16);
        }
    }
}

/// A room id: the first eight characters of the hyphenated form of a fresh
/// random uuid.
pub fn generate_room_id() -> (r: String)
    ensures
        r@.len() == 8,
        is_ascii_chars(r@),
        exists|id: u128| r@ == #[trigger] uuid_hyphenated(id).subrange(0, 8),
{
    let id = new_uuid();
    let text = uuid_text(id);
    proof {
        lemma_uuid_text_ascii(id);
    }
    let prefix = text.as_str().substring_ascii(0, 8);
    let r = prefix.to_string();
    assert(r@ == uuid_hyphenated(id).subrange(0, 8));
    r
}

/// Text of eight characters, such as a room id, never has the shape of an
/// invite code, so a join request by room id is never read as one by code.
pub proof fn lemma_room_id_not_invite_code(s: Seq<char>)
    requires
        s.len() == 8,
    ensures
        !invite_code_format(s),
{
}

/// A version-4 uuid: its version nibble is 4 and its variant bits are `10`.
pub open spec fn uuid_v4(id: u128) -> bool {
    &&& (id >> 76u128) & 0xfu128 == 4
    &&& (id >> 62u128) & 0x3u128 == 2
}

/// Ids drawn for a request are of the shape the server makes them: a room
/// id of the first eight characters of a uuid's hyphenated form, a peer id
/// that is a version-4 uuid, and an invite code of the invite shape.
pub open spec fn fresh_ids_shaped(f: FreshModel) -> bool {
    &&& f.0.len() == 8
    &&& is_ascii_chars(f.0)
    &&& exists|id: u128| f.0 == #[trigger] uuid_hyphenated(id).subrange(0, 8)
    &&& uuid_v4(f.1)
    &&& invite_code_format(f.2)
}

impl SignalingServer {
    /// A random invite code that no room uses, drawing again while the code
    /// is taken, at most 100 more times.
    fn draw_invite_code(&self) -> (r: String)
        ensures
            invite_code_format(r@),
    {
        let mut code = generate_invite_code();
        let mut attempts: u32 = 0;
        while self.invite_code_in_use(&code) && attempts < 100
            invariant
                invite_code_format(code@),
                attempts <= 100,
            decreases 100 - attempts,
        {
            code = generate_invite_code();
            attempts = attempts + 1;
        }
        code
    }

    /// Answers one message from the client of `session`, drawing the ids a
    /// new room or peer needs.
    pub fn process_message(&mut self, session: &mut ClientSession, msg: SignalingMessage) -> (o:
        ServerOutcome)
        ensures
            exists|f: FreshModel|
                #![trigger server_step(old(self)@, old(session)@, msg@, f)]
                (msg@ is CreateRoom ==> fresh_ids_shaped(f)) && (msg@ is JoinRoom ==> uuid_v4(f.1))
                    && (final(self)@, final(session)@, o@) == server_step(
                    old(self)@,
                    old(session)@,
                    msg@,
                    f,
                ),
    {
        let fresh = match &msg {
            SignalingMessage::CreateRoom { .. } => FreshIds {
                room_id: generate_room_id(),
                peer_id: new_uuid(),
                invite_code: self.draw_invite_code(),
            },
            SignalingMessage::JoinRoom { .. } => FreshIds {
                room_id: String::new(),
                peer_id: new_uuid(),
                invite_code: String::new(),
            },
            _ => FreshIds { room_id: String::new(), peer_id: 0, invite_code: String::new() },
        };
        let ghost f = fresh@;
        let ghost m = msg@;
        let ghost rooms = self@;
        let ghost sess = session@;
        let o = self.apply_message(session, msg, fresh);
        assert((m is CreateRoom ==> fresh_ids_shaped(f)) && (m is JoinRoom ==> uuid_v4(f.1)) && (
        self@, session@, o@) == server_step(
            rooms,
            sess,
            m,
            f,
        ));
        o
    }
}


// ---------------------------------------------------------------------------
// Laws
// ---------------------------------------------------------------------------

/// No two peers of a room share an id.
pub open spec fn distinct_peer_ids(peers: Seq<PeerModel>) -> bool {
    forall|a: int, b: int|
        0 <= a < peers.len() && 0 <= b < peers.len() && a != b ==> (#[trigger] peers[a]).id != (
        #[trigger] peers[b]).id
}

/// A room holds between one and `MAX_PEERS_PER_ROOM` peers, with distinct ids.
pub open spec fn room_wf(r: RoomModel) -> bool {
    &&& 1 <= r.peers.len() <= MAX_PEERS_PER_ROOM
    &&& distinct_peer_ids(r.peers)
}

/// Room ids are distinct and every room is well formed.
pub open spec fn rooms_wf(rooms: Seq<RoomModel>) -> bool {
    &&& forall|a: int, b: int|
        0 <= a < rooms.len() && 0 <= b < rooms.len() && a != b ==> (#[trigger] rooms[a]).id != (
        #[trigger] rooms[b]).id
    &&& forall|a: int| 0 <= a < rooms.len() ==> room_wf(#[trigger] rooms[a])
}

proof fn lemma_first_peer_exists(peers: Seq<PeerModel>, id: u128, i: int)
    requires
        0 <= i < peers.len(),
        peers[i].id == id,
    ensures
        exists|k: int|
            0 <= k <= i && peers[k].id == id && forall|j: int| 0 <= j < k ==> (#[trigger] peers[j]).id != id,
    decreases i,
{
    if exists|j: int| 0 <= j < i && (#[trigger] peers[j]).id == id {
        let j = choose|j: int| 0 <= j < i && (#[trigger] peers[j]).id == id;
        lemma_first_peer_exists(peers, id, j);
    } else {
        assert(forall|j: int| 0 <= j < i ==> (#[trigger] peers[j]).id != id);
    }
}

/// What the peer lookup gives: a position holding the id, or -1 when none does.
pub proof fn lemma_peer_lookup(peers: Seq<PeerModel>, id: u128)
    ensures
        peer_with_id(peers, id) >= 0 ==> peer_with_id(peers, id) < peers.len() && peers[peer_with_id(
            peers,
            id,
        )].id == id,
        peer_with_id(peers, id) < 0 ==> peer_with_id(peers, id) == -1 && forall|j: int|
            0 <= j < peers.len() ==> (#[trigger] peers[j]).id != id,
{
    reveal(peer_with_id);
    if exists|i: int| 0 <= i < peers.len() && (#[trigger] peers[i]).id == id {
        let i = choose|i: int| 0 <= i < peers.len() && (#[trigger] peers[i]).id == id;
        lemma_first_peer_exists(peers, id, i);
    }
}

proof fn lemma_first_room_exists(rooms: Seq<RoomModel>, id: Seq<char>, i: int)
    requires
        0 <= i < rooms.len(),
        rooms[i].id == id,
    ensures
        exists|k: int|
            0 <= k <= i && rooms[k].id == id && forall|j: int| 0 <= j < k ==> (#[trigger] rooms[j]).id != id,
    decreases i,
{
    if exists|j: int| 0 <= j < i && (#[trigger] rooms[j]).id == id {
        let j = choose|j: int| 0 <= j < i && (#[trigger] rooms[j]).id == id;
        lemma_first_room_exists(rooms, id, j);
    } else {
        assert(forall|j: int| 0 <= j < i ==> (#[trigger] rooms[j]).id != id);
    }
}

/// What the room lookup by id gives: a position holding the id, or -1 when
/// none does.
pub proof fn lemma_room_lookup(rooms: Seq<RoomModel>, id: Seq<char>)
    ensures
        room_with_id(rooms, id) >= 0 ==> room_with_id(rooms, id) < rooms.len() && rooms[room_with_id(
            rooms,
            id,
        )].id == id,
        room_with_id(rooms, id) < 0 ==> room_with_id(rooms, id) == -1 && forall|j: int|
            0 <= j < rooms.len() ==> (#[trigger] rooms[j]).id != id,
{
    reveal(room_with_id);
    if exists|i: int| 0 <= i < rooms.len() && (#[trigger] rooms[i]).id == id {
        let i = choose|i: int| 0 <= i < rooms.len() && (#[trigger] rooms[i]).id == id;
        lemma_first_room_exists(rooms, id, i);
    }
}

proof fn lemma_first_code_exists(rooms: Seq<RoomModel>, code: Seq<char>, i: int)
    requires
        0 <= i < rooms.len(),
        rooms[i].invite_code == code,
    ensures
        exists|k: int|
            0 <= k <= i && rooms[k].invite_code == code && forall|j: int|
                0 <= j < k ==> (#[trigger] rooms[j]).invite_code != code,
    decreases i,
{
    if exists|j: int| 0 <= j < i && (#[trigger] rooms[j]).invite_code == code {
        let j = choose|j: int| 0 <= j < i && (#[trigger] rooms[j]).invite_code == code;
        lemma_first_code_exists(rooms, code, j);
    } else {
        assert(forall|j: int| 0 <= j < i ==> (#[trigger] rooms[j]).invite_code != code);
    }
}

/// What the room lookup by invite code gives: a position holding the code,
/// or -1 when none does.
pub proof fn lemma_code_lookup(rooms: Seq<RoomModel>, code: Seq<char>)
    ensures
        room_with_code(rooms, code) >= 0 ==> room_with_code(rooms, code) < rooms.len()
            && rooms[room_with_code(rooms, code)].invite_code == code,
        room_with_code(rooms, code) < 0 ==> room_with_code(rooms, code) == -1,
{
    reveal(room_with_code);
    if exists|i: int| 0 <= i < rooms.len() && (#[trigger] rooms[i]).invite_code == code {
        let i = choose|i: int| 0 <= i < rooms.len() && (#[trigger] rooms[i]).invite_code == code;
        lemma_first_code_exists(rooms, code, i);
    }
}

proof fn lemma_put_peer_wf(peers: Seq<PeerModel>, peer: PeerModel)
    requires
        distinct_peer_ids(peers),
    ensures
        distinct_peer_ids(put_peer(peers, peer)),
        put_peer(peers, peer).len() <= peers.len() + 1,
        put_peer(peers, peer).len() >= peers.len(),
        put_peer(peers, peer).len() >= 1,
{
    lemma_peer_lookup(peers, peer.id);
    let r = put_peer(peers, peer);
    let i = peer_with_id(peers, peer.id);
    assert forall|a: int, b: int| 0 <= a < r.len() && 0 <= b < r.len() && a != b implies (
    #[trigger] r[a]).id != (#[trigger] r[b]).id by {
        if i < 0 {
            if a == peers.len() {
                assert(peers[b].id != peer.id);
            } else if b == peers.len() {
                assert(peers[a].id != peer.id);
            } else {
                assert(peers[a].id != peers[b].id);
            }
        } else {
            if a == i {
                assert(peers[b].id != peers[i].id);
            } else if b == i {
                assert(peers[a].id != peers[i].id);
            } else {
                assert(peers[a].id != peers[b].id);
            }
        }
    }
}

proof fn lemma_drop_peer_wf(peers: Seq<PeerModel>, id: u128)
    requires
        distinct_peer_ids(peers),
    ensures
        distinct_peer_ids(drop_peer(peers, id)),
        forall|k: int|
            0 <= k < drop_peer(peers, id).len() ==> (#[trigger] drop_peer(peers, id)[k]).id != id,
        drop_peer(peers, id).len() <= peers.len(),
        peer_with_id(peers, id) < 0 ==> drop_peer(peers, id) == peers,
{
    lemma_peer_lookup(peers, id);
    let r = drop_peer(peers, id);
    let i = peer_with_id(peers, id);
    if i >= 0 {
        assert forall|a: int, b: int| 0 <= a < r.len() && 0 <= b < r.len() && a != b implies (
        #[trigger] r[a]).id != (#[trigger] r[b]).id by {
            let a2 = if a < i { a } else { a + 1 };
            let b2 = if b < i { b } else { b + 1 };
            assert(r[a] == peers[a2] && r[b] == peers[b2]);
        }
        assert forall|k: int| 0 <= k < r.len() implies (#[trigger] r[k]).id != id by {
            let k2 = if k < i { k } else { k + 1 };
            assert(r[k] == peers[k2]);
            assert(k2 != i);
        }
    }
}

/// Every message keeps the rooms well formed: room ids stay distinct, and
/// every room keeps between one and `MAX_PEERS_PER_ROOM` peers with distinct
/// ids. A room that loses its last peer is gone.
pub proof fn lemma_step_keeps_rooms_wf(
    rooms: Seq<RoomModel>,
    sess: SessionModel,
    msg: MessageModel,
    fresh: FreshModel,
)
    requires
        rooms_wf(rooms),
    ensures
        rooms_wf(server_step(rooms, sess, msg, fresh).0),
{
    let r2 = server_step(rooms, sess, msg, fresh).0;
    match msg {
        MessageModel::CreateRoom { room_name, password, peer_name } => {
            let room = RoomModel {
                id: fresh.0,
                name: room_name,
                password,
                peers: seq![new_peer(fresh.1, peer_name)],
                invite_code: fresh.2,
            };
            lemma_room_lookup(rooms, fresh.0);
            assert(room_wf(room));
            let i = room_with_id(rooms, fresh.0);
            assert forall|a: int, b: int| 0 <= a < r2.len() && 0 <= b < r2.len() && a != b implies (
            #[trigger] r2[a]).id != (#[trigger] r2[b]).id by {
                if i < 0 {
                    if a == rooms.len() {
                        assert(rooms[b].id != fresh.0);
                    } else if b == rooms.len() {
                        assert(rooms[a].id != fresh.0);
                    }
                } else {
                    if a == i {
                        assert(rooms[b].id != rooms[i].id);
                    } else if b == i {
                        assert(rooms[a].id != rooms[i].id);
                    }
                }
            }
            assert forall|a: int| 0 <= a < r2.len() implies room_wf(#[trigger] r2[a]) by {
                if !(i < 0 && a == rooms.len()) && a != i {
                    assert(r2[a] == rooms[a]);
                }
            }
        },
        MessageModel::JoinRoom { room_id, password, peer_name } => {
            let i = join_target(rooms, room_id);
            if i >= 0 && !(rooms[i].password is Some && rooms[i].password != password)
                && rooms[i].peers.len() < MAX_PEERS_PER_ROOM {
                if invite_code_format(room_id) {
                    lemma_code_lookup(rooms, room_id);
                } else {
                    lemma_room_lookup(rooms, room_id);
                }
                lemma_put_peer_wf(rooms[i].peers, new_peer(fresh.1, peer_name));
                assert forall|a: int| 0 <= a < r2.len() implies room_wf(#[trigger] r2[a]) by {
                    if a != i {
                        assert(r2[a] == rooms[a]);
                    }
                }
                assert forall|a: int, b: int|
                    0 <= a < r2.len() && 0 <= b < r2.len() && a != b implies (#[trigger] r2[a]).id
                    != (#[trigger] r2[b]).id by {
                    assert(r2[a].id == rooms[a].id && r2[b].id == rooms[b].id);
                }
            }
        },
        MessageModel::LeaveRoom => {
            if let (Some(rid), Some(pid)) = sess {
                lemma_room_lookup(rooms, rid);
                let i = room_with_id(rooms, rid);
                if i >= 0 {
                    lemma_drop_peer_wf(rooms[i].peers, pid);
                    let peers = drop_peer(rooms[i].peers, pid);
                    if peers.len() == 0 {
                        assert forall|a: int, b: int|
                            0 <= a < r2.len() && 0 <= b < r2.len() && a != b implies (
                        #[trigger] r2[a]).id != (#[trigger] r2[b]).id by {
                            let a2 = if a < i { a } else { a + 1 };
                            let b2 = if b < i { b } else { b + 1 };
                            assert(r2[a] == rooms[a2] && r2[b] == rooms[b2]);
                        }
                        assert forall|a: int| 0 <= a < r2.len() implies room_wf(#[trigger] r2[a]) by {
                            let a2 = if a < i { a } else { a + 1 };
                            assert(r2[a] == rooms[a2]);
                        }
                    } else {
                        assert forall|a: int| 0 <= a < r2.len() implies room_wf(#[trigger] r2[a]) by {
                            if a != i {
                                assert(r2[a] == rooms[a]);
                            }
                        }
                        assert forall|a: int, b: int|
                            0 <= a < r2.len() && 0 <= b < r2.len() && a != b implies (
                        #[trigger] r2[a]).id != (#[trigger] r2[b]).id by {
                            assert(r2[a].id == rooms[a].id && r2[b].id == rooms[b].id);
                        }
                    }
                }
            }
        },
        MessageModel::UpdatePeerInfo { public_addr, local_addr } => {
            if let (Some(rid), Some(pid)) = sess {
                lemma_room_lookup(rooms, rid);
                let i = room_with_id(rooms, rid);
                if i >= 0 {
                    lemma_peer_lookup(rooms[i].peers, pid);
                    let k = peer_with_id(rooms[i].peers, pid);
                    if k >= 0 {
                        let ps = rooms[i].peers;
                        let ps2 = ps.update(k, PeerModel { public_addr, local_addr, ..ps[k] });
                        assert forall|a: int, b: int|
                            0 <= a < ps2.len() && 0 <= b < ps2.len() && a != b implies (
                        #[trigger] ps2[a]).id != (#[trigger] ps2[b]).id by {
                            assert(ps2[a].id == ps[a].id && ps2[b].id == ps[b].id);
                        }
                        assert forall|a: int| 0 <= a < r2.len() implies room_wf(#[trigger] r2[a]) by {
                            if a != i {
                                assert(r2[a] == rooms[a]);
                            }
                        }
                        assert forall|a: int, b: int|
                            0 <= a < r2.len() && 0 <= b < r2.len() && a != b implies (
                        #[trigger] r2[a]).id != (#[trigger] r2[b]).id by {
                            assert(r2[a].id == rooms[a].id && r2[b].id == rooms[b].id);
                        }
                    }
                }
            }
        },
        _ => {},
    }
}


/// A join request is granted exactly when the named room exists, its
/// password, if it has one, was given, and it has room for one more peer.
/// A refused request is answered with an error and changes nothing.
pub proof fn lemma_join_granted_iff(
    rooms: Seq<RoomModel>,
    sess: SessionModel,
    key: Seq<char>,
    password: Option<Seq<char>>,
    peer_name: Seq<char>,
    fresh: FreshModel,
)
    ensures
        ({
            let i = join_target(rooms, key);
            let step = join_step(rooms, sess, key, password, peer_name, fresh);
            &&& (step.2.reply matches Some(MessageModel::RoomJoined { .. })) <==> (i >= 0 && (
            rooms[i].password is None || rooms[i].password == password) && rooms[i].peers.len()
                < MAX_PEERS_PER_ROOM)
            &&& !(step.2.reply matches Some(MessageModel::RoomJoined { .. })) ==> {
                &&& step.0 == rooms
                &&& step.1 == sess
                &&& step.2.broadcast is None
                &&& step.2.reply matches Some(MessageModel::Error { .. })
            }
        }),
{
}

/// After leaving, the peer is in no room of the id it had joined, and its
/// session names no room.
pub proof fn lemma_leave_removes_peer(rooms: Seq<RoomModel>, rid: Seq<char>, pid: u128)
    requires
        rooms_wf(rooms),
    ensures
        ({
            let step = leave_step(rooms, (Some(rid), Some(pid)));
            &&& step.1 == (None::<Seq<char>>, None::<u128>)
            &&& forall|a: int, k: int|
                0 <= a < step.0.len() && step.0[a].id == rid && 0 <= k < step.0[a].peers.len()
                    ==> (#[trigger] step.0[a].peers[k]).id != pid
        }),
{
    lemma_room_lookup(rooms, rid);
    let i = room_with_id(rooms, rid);
    let r2 = leave_step(rooms, (Some(rid), Some(pid))).0;
    if i >= 0 {
        lemma_drop_peer_wf(rooms[i].peers, pid);
        let peers = drop_peer(rooms[i].peers, pid);
        assert forall|a: int, k: int|
            0 <= a < r2.len() && r2[a].id == rid && 0 <= k < r2[a].peers.len() implies (
        #[trigger] r2[a].peers[k]).id != pid by {
            if peers.len() == 0 {
                let a2 = if a < i { a } else { a + 1 };
                assert(r2[a] == rooms[a2]);
                assert(a2 != i);
                assert(rooms[a2].id != rooms[i].id);
            } else if a != i {
                assert(r2[a] == rooms[a]);
                assert(rooms[a].id != rooms[i].id);
            }
        }
    }
}


impl Default for SignalingServer {
    fn default() -> (s: Self)
        ensures
            s@ == Seq::<RoomModel>::empty(),
    {
        SignalingServer::new()
    }
}

/// Where a client finds its signaling server
#[derive(Debug)]
pub struct SignalingClient {
    server_url: String,
}

impl SignalingClient {
    pub fn new(server_url: &str) -> (c: Self)
        ensures
            c.url() == server_url@,
    {
        SignalingClient { server_url: server_url.to_string() }
    }

    pub closed spec fn url(&self) -> Seq<char> {
        self.server_url@
    }

    /// The URL of the server.
    pub fn server_url(&self) -> (r: &str)
        ensures
            r@ == self.url(),
    {
        self.server_url.as_str()
    }
}

/// An address update of a peer in a room stores both given addresses in
/// that peer's entry, keeps its id and name, leaves every other entry and
/// room as it was, and tells the room the updated peer.
pub proof fn lemma_update_sets_addresses(
    rooms: Seq<RoomModel>,
    rid: Seq<char>,
    pid: u128,
    a: int,
    k: int,
    public_addr: Option<SocketAddress>,
    local_addr: Option<SocketAddress>,
)
    requires
        rooms_wf(rooms),
        0 <= a < rooms.len(),
        rooms[a].id == rid,
        0 <= k < rooms[a].peers.len(),
        rooms[a].peers[k].id == pid,
    ensures
        ({
            let step = update_step(rooms, (Some(rid), Some(pid)), public_addr, local_addr);
            let old_peer = rooms[a].peers[k];
            let new_peer = step.0[a].peers[k];
            &&& step.0.len() == rooms.len()
            &&& step.0[a].peers.len() == rooms[a].peers.len()
            &&& new_peer.public_addr == public_addr
            &&& new_peer.local_addr == local_addr
            &&& new_peer.id == pid
            &&& new_peer.name == old_peer.name
            &&& forall|j: int| 0 <= j < rooms[a].peers.len() && j != k ==> step.0[a].peers[j] == rooms[a].peers[j]
            &&& forall|b: int| 0 <= b < rooms.len() && b != a ==> step.0[b] == rooms[b]
            &&& step.2.broadcast == Some((rid, MessageModel::PeerUpdated { peer: new_peer }))
            &&& step.2.reply is None
        }),
{
    lemma_room_lookup(rooms, rid);
    let i = room_with_id(rooms, rid);
    assert(i == a) by {
        if i != a {
            assert(rooms[i].id == rid);
        }
    }
    lemma_peer_lookup(rooms[a].peers, pid);
    let p = peer_with_id(rooms[a].peers, pid);
    assert(p == k) by {
        assert(room_wf(rooms[a]));
        if p != k {
            assert(rooms[a].peers[p].id == pid);
        }
    }
}

} // verus!
