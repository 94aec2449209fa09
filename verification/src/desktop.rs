//! State and messages of the desktop application: the chosen devices and
//! buffer size, and the chat log of the current room.
use vstd::prelude::*;
use crate::config::check_buffer_size;
use crate::config::{buffer_size_refusal, valid_buffer_size};
use crate::device::AudioDevice;
use crate::signaling::{uuid_hyphenated, uuid_text, PeerInfo, PeerModel, SignalingMessage};

verus! {

/// An audio device as the settings screen lists it
#[derive(Debug)]
pub struct AudioDeviceInfo {
    pub id: String,
    pub name: String,
    pub supported_sample_rates: Vec<u32>,
    pub supported_channels: Vec<u16>,
    pub is_default: bool,
    pub is_asio: bool,
}

impl AudioDeviceInfo {
    /// The listing of `d`.
    pub fn from_device(d: AudioDevice) -> (r: Self)
        ensures
            r.id@ == d.id.0@,
            r.name@ == d.name@,
            r.supported_sample_rates@ == d.supported_sample_rates@,
            r.supported_channels@ == d.supported_channels@,
            r.is_default == d.is_default,
            r.is_asio == d.is_asio,
    {
        AudioDeviceInfo {
            id: d.id.0,
            name: d.name,
            supported_sample_rates: d.supported_sample_rates,
            supported_channels: d.supported_channels,
            is_default: d.is_default,
            is_asio: d.is_asio,
        }
    }
}

/// The devices chosen (None = the system default)
#[derive(Debug)]
pub struct CurrentDevices {
    pub input_device_id: Option<String>,
    pub output_device_id: Option<String>,
}

pub open spec fn opt_chars(o: Option<String>) -> Option<Seq<char>> {
    match o {
        Some(s) => Some(s@),
        None => None,
    }
}

fn copy_opt(o: &Option<String>) -> (r: Option<String>)
    ensures
        opt_chars(r) == opt_chars(*o),
{
    match o {
        Some(s) => Some(s.clone()),
        None => None,
    }
}

/// The audio choices of the application: input and output device and
/// buffer size.
#[derive(Debug)]
pub struct AudioState {
    current_input_id: Option<String>,
    current_output_id: Option<String>,
    buffer_size: u32,
}

/// The audio choices as plain values.
pub struct AudioStateModel {
    pub input: Option<Seq<char>>,
    pub output: Option<Seq<char>>,
    pub buffer_size: u32,
}

impl View for AudioState {
    type V = AudioStateModel;

    closed spec fn view(&self) -> AudioStateModel {
        AudioStateModel {
            input: opt_chars(self.current_input_id),
            output: opt_chars(self.current_output_id),
            buffer_size: self.buffer_size,
        }
    }
}

impl AudioState {
    /// System default devices and 64 samples (1.33 ms at 48 kHz).
    pub fn new() -> (s: Self)
        ensures
            s@.input is None && s@.output is None && s@.buffer_size == 64,
    {
        AudioState { current_input_id: None, current_output_id: None, buffer_size: 64 }
    }

    pub fn set_input_device(&mut self, device_id: Option<String>)
        ensures
            final(self)@ == (AudioStateModel { input: opt_chars(device_id), ..old(self)@ }),
    {
        self.current_input_id = device_id;
    }

    pub fn set_output_device(&mut self, device_id: Option<String>)
        ensures
            final(self)@ == (AudioStateModel { output: opt_chars(device_id), ..old(self)@ }),
    {
        self.current_output_id = device_id;
    }

    pub fn current_devices(&self) -> (r: CurrentDevices)
        ensures
            opt_chars(r.input_device_id) == self@.input,
            opt_chars(r.output_device_id) == self@.output,
    {
        CurrentDevices {
            input_device_id: copy_opt(&self.current_input_id),
            output_device_id: copy_opt(&self.current_output_id),
        }
    }

    pub fn buffer_size(&self) -> (r: u32)
        ensures
            r == self@.buffer_size,
    {
        self.buffer_size
    }

    /// Sets the buffer size; only 32, 64, 128 and 256 are accepted.
    pub fn set_buffer_size(&mut self, size: u32) -> (r: Result<(), String>)
        ensures
            valid_buffer_size(size) ==> r is Ok && final(self)@ == (AudioStateModel {
                buffer_size: size,
                ..old(self)@
            }),
            !valid_buffer_size(size) ==> (r matches Err(m) && m@ == buffer_size_refusal(size))
                && final(self)@ == old(self)@,
    {
        check_buffer_size(size)?;
        self.buffer_size = size;
        Ok(())
    }
}

/// A chat line as the chat panel shows it
#[derive(Debug)]
pub struct ChatMessage {
    pub id: String,
    pub sender_id: String,
    pub sender_name: String,
    pub content: String,
    /// Milliseconds since the Unix epoch
    pub timestamp: u64,
    /// True for notices of peers joining and leaving
    pub is_system: bool,
}

/// A chat line as plain values.
pub struct ChatModel {
    pub id: Seq<char>,
    pub sender_id: Seq<char>,
    pub sender_name: Seq<char>,
    pub content: Seq<char>,
    pub timestamp: u64,
    pub is_system: bool,
}

impl View for ChatMessage {
    type V = ChatModel;

    open spec fn view(&self) -> ChatModel {
        ChatModel {
            id: self.id@,
            sender_id: self.sender_id@,
            sender_name: self.sender_name@,
            content: self.content@,
            timestamp: self.timestamp,
            is_system: self.is_system,
        }
    }
}

impl Clone for ChatMessage {
    fn clone(&self) -> (r: Self)
        ensures
            r@ == self@,
    {
        ChatMessage {
            id: self.id.clone(),
            sender_id: self.sender_id.clone(),
            sender_name: self.sender_name.clone(),
            content: self.content.clone(),
            timestamp: self.timestamp,
            is_system: self.is_system,
        }
    }
}

pub open spec fn chat_view(v: Seq<ChatMessage>) -> Seq<ChatModel> {
    v.map_values(|m: ChatMessage| m@)
}

/// The lines of `log` later than `since`, in order; all lines when `since`
/// is None.
pub open spec fn lines_since(log: Seq<ChatModel>, since: Option<u64>) -> Seq<ChatModel>
    decreases log.len(),
{
    if log.len() == 0 {
        Seq::empty()
    } else {
        let rest = lines_since(log.drop_last(), since);
        if since is None || log.last().timestamp > since->0 {
            rest.push(log.last())
        } else {
            rest
        }
    }
}

/// The notice that a peer joined.
pub open spec fn join_notice_text(name: Seq<char>) -> Seq<char> {
    name + " が参加しました"@
}

/// The notice that a peer left.
pub open spec fn leave_notice_text() -> Seq<char> {
    "ユーザーが退出しました"@
}

impl ChatMessage {
    /// The system line announcing that `peer_name` joined.
    pub fn join_notice(id: String, peer_name: &str, timestamp: u64) -> (r: Self)
        ensures
            r.id@ == id@,
            r.sender_id@ == Seq::<char>::empty(),
            r.sender_name@ == Seq::<char>::empty(),
            r.content@ == join_notice_text(peer_name@),
            r.timestamp == timestamp,
            r.is_system,
    {
        ChatMessage {
            id,
            sender_id: String::new(),
            sender_name: String::new(),
            content: peer_name.to_string().concat(" が参加しました"),
            timestamp,
            is_system: true,
        }
    }

    /// The system line announcing that a peer left.
    pub fn leave_notice(id: String, timestamp: u64) -> (r: Self)
        ensures
            r.id@ == id@,
            r.sender_id@ == Seq::<char>::empty(),
            r.sender_name@ == Seq::<char>::empty(),
            r.content@ == leave_notice_text(),
            r.timestamp == timestamp,
            r.is_system,
    {
        ChatMessage {
            id,
            sender_id: String::new(),
            sender_name: String::new(),
            content: "ユーザーが退出しました".to_string(),
            timestamp,
            is_system: true,
        }
    }
}

/// The chat lines of the current room, oldest first.
#[derive(Debug)]
pub struct ChatLog {
    messages: Vec<ChatMessage>,
}

impl View for ChatLog {
    type V = Seq<ChatModel>;

    closed spec fn view(&self) -> Seq<ChatModel> {
        chat_view(self.messages@)
    }
}

impl ChatLog {
    pub fn new() -> (l: Self)
        ensures
            l@ == Seq::<ChatModel>::empty(),
    {
        let l = ChatLog { messages: Vec::new() };
        assert(l@ =~= Seq::<ChatModel>::empty());
        l
    }

    /// Adds a line at the end.
    pub fn push(&mut self, m: ChatMessage)
        ensures
            final(self)@ == old(self)@.push(m@),
    {
        let ghost before = self@;
        let ghost mv = m@;
        self.messages.push(m);
        assert(self@ =~= before.push(mv));
    }

    /// The lines later than `since`, or all lines.
    pub fn messages_since(&self, since: Option<u64>) -> (r: Vec<ChatMessage>)
        ensures
            chat_view(r@) == lines_since(self@, since),
    {
        let ghost log = self@;
        let mut out: Vec<ChatMessage> = Vec::new();
        let mut i: usize = 0;
        while i < self.messages.len()
            invariant
                i <= self.messages@.len(),
                log == chat_view(self.messages@),
                chat_view(out@) == lines_since(log.subrange(0, i as int), since),
            decreases self.messages.len() - i,
        {
            assert(log.subrange(0, i as int + 1).drop_last() =~= log.subrange(0, i as int));
            let keep = match since {
                None => true,
                Some(t) => self.messages[i].timestamp > t,
            };
            if keep {
                let ghost before = out@;
                let m = self.messages[i].clone();
                out.push(m);
                assert(chat_view(out@) =~= chat_view(before).push(log[i as int]));
            }
            i = i + 1;
        }
        assert(log.subrange(0, self.messages@.len() as int) =~= log);
        out
    }
}

/// Audio health shown to the user
#[derive(Debug, Clone, Copy, PartialEq, Eq, Structural)]
pub struct AudioQuality {
    /// Buffer underruns (glitches from CPU or scheduling)
    pub underrun_count: u64,
}

/// Answer of the audio thread to a command
#[derive(Debug)]
pub enum AudioResponse {
    /// The command was carried out
    Success,
    Error(String),
}

/// What the desktop shows of a message from the signaling server
#[derive(Debug)]
pub enum SignalingEvent {
    /// A peer joined the room
    PeerJoined { peer: PeerInfo },
    /// A peer left the room; its id as hyphenated text
    PeerLeft { peer_id: String },
    /// A peer's info was updated
    PeerUpdated { peer: PeerInfo },
}

/// An event as plain values.
pub enum EventModel {
    PeerJoined { peer: PeerModel },
    PeerLeft { peer_id: Seq<char> },
    PeerUpdated { peer: PeerModel },
}

impl View for SignalingEvent {
    type V = EventModel;

    open spec fn view(&self) -> EventModel {
        match self {
            SignalingEvent::PeerJoined { peer } => EventModel::PeerJoined { peer: peer@ },
            SignalingEvent::PeerLeft { peer_id } => EventModel::PeerLeft { peer_id: peer_id@ },
            SignalingEvent::PeerUpdated { peer } => EventModel::PeerUpdated { peer: peer@ },
        }
    }
}

/// A system chat line as plain values: id, content and time.
pub open spec fn system_line(id: Seq<char>, content: Seq<char>, timestamp: u64) -> ChatModel {
    ChatModel {
        id,
        sender_id: Seq::empty(),
        sender_name: Seq::empty(),
        content,
        timestamp,
        is_system: true,
    }
}

/// Takes one message from the signaling server into the room's chat log:
/// a peer joining or leaving adds a system line, with id `line_id` and time
/// `timestamp`, and comes out as an event; a peer update comes out as an
/// event alone; other messages are not shown.
pub fn poll_step(log: &mut ChatLog, msg: SignalingMessage, line_id: String, timestamp: u64) -> (r:
    Option<SignalingEvent>)
    ensures
        match msg@ {
            crate::signaling::MessageModel::PeerJoined { peer } => {
                &&& final(log)@ == old(log)@.push(
                    system_line(line_id@, join_notice_text(peer.name), timestamp),
                )
                &&& r matches Some(e) && e@ == (EventModel::PeerJoined { peer })
            },
            crate::signaling::MessageModel::PeerLeft { peer_id } => {
                &&& final(log)@ == old(log)@.push(system_line(line_id@, leave_notice_text(), timestamp))
                &&& r matches Some(e) && e@ == (EventModel::PeerLeft {
                    peer_id: uuid_hyphenated(peer_id),
                })
            },
            crate::signaling::MessageModel::PeerUpdated { peer } => {
                &&& final(log)@ == old(log)@
                &&& r matches Some(e) && e@ == (EventModel::PeerUpdated { peer })
            },
            _ => final(log)@ == old(log)@ && r is None,
        },
{
    match msg {
        SignalingMessage::PeerJoined { peer } => {
            let line = ChatMessage::join_notice(line_id, peer.name.as_str(), timestamp);
            log.push(line);
            Some(SignalingEvent::PeerJoined { peer })
        },
        SignalingMessage::PeerLeft { peer_id } => {
            let line = ChatMessage::leave_notice(line_id, timestamp);
            log.push(line);
            Some(SignalingEvent::PeerLeft { peer_id: uuid_text(peer_id) })
        },
        SignalingMessage::PeerUpdated { peer } => Some(SignalingEvent::PeerUpdated { peer }),
        _ => None,
    }
}

} // verus!
