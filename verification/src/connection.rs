//! States of a connection to a peer.
//!
//! ```text
//! Disconnected --> Connecting: connect()
//! Connecting --> GatheringCandidates: ICE start
//! GatheringCandidates --> CheckingConnectivity: candidates ready
//! CheckingConnectivity --> Connected: ICE success
//! CheckingConnectivity --> Failed: ICE failed
//! Connected --> Reconnecting: connection lost
//! Reconnecting --> Connected: reconnect success
//! Reconnecting --> Failed: timeout
//! Connected --> Disconnected: disconnect()
//! Failed --> Disconnected: reset()
//! ```
use vstd::prelude::*;

verus! {

/// State of a connection, stored as a byte so threads can share it.
#[derive(Debug, Clone, Copy, PartialEq, Eq, Structural)]
pub enum ConnectionState {
    /// Not connected (0)
    Disconnected,
    /// Initiating connection (1)
    Connecting,
    /// Gathering ICE candidates (2)
    GatheringCandidates,
    /// Checking connectivity with candidates (3)
    CheckingConnectivity,
    /// Connected (4)
    Connected,
    /// Reconnecting after the connection was lost (5)
    Reconnecting,
    /// Connection failed (6)
    Failed,
}

impl Default for ConnectionState {
    fn default() -> (r: Self)
        ensures
            r == ConnectionState::Disconnected,
    {
        ConnectionState::Disconnected
    }
}

/// The byte a state is stored as.
pub open spec fn state_code(s: ConnectionState) -> u8 {
    match s {
        ConnectionState::Disconnected => 0,
        ConnectionState::Connecting => 1,
        ConnectionState::GatheringCandidates => 2,
        ConnectionState::CheckingConnectivity => 3,
        ConnectionState::Connected => 4,
        ConnectionState::Reconnecting => 5,
        ConnectionState::Failed => 6,
    }
}

/// The state a stored byte stands for; unknown bytes read as Disconnected.
pub open spec fn state_of(value: u8) -> ConnectionState {
    if value == 1 {
        ConnectionState::Connecting
    } else if value == 2 {
        ConnectionState::GatheringCandidates
    } else if value == 3 {
        ConnectionState::CheckingConnectivity
    } else if value == 4 {
        ConnectionState::Connected
    } else if value == 5 {
        ConnectionState::Reconnecting
    } else if value == 6 {
        ConnectionState::Failed
    } else {
        ConnectionState::Disconnected
    }
}

impl ConnectionState {
    /// The state a stored byte stands for.
    pub fn from_u8(value: u8) -> (r: Self)
        ensures
            r == state_of(value),
    {
        match value {
            0 => ConnectionState::Disconnected,
            1 => ConnectionState::Connecting,
            2 => ConnectionState::GatheringCandidates,
            3 => ConnectionState::CheckingConnectivity,
            4 => ConnectionState::Connected,
            5 => ConnectionState::Reconnecting,
            6 => ConnectionState::Failed,
            _ => ConnectionState::Disconnected,
        }
    }

    /// The byte this state is stored as.
    pub fn to_u8(self) -> (r: u8)
        ensures
            r == state_code(self),
    {
        match self {
            ConnectionState::Disconnected => 0,
            ConnectionState::Connecting => 1,
            ConnectionState::GatheringCandidates => 2,
            ConnectionState::CheckingConnectivity => 3,
            ConnectionState::Connected => 4,
            ConnectionState::Reconnecting => 5,
            ConnectionState::Failed => 6,
        }
    }

    /// Whether the connection is up.
    pub fn is_connected(&self) -> (r: bool)
        ensures
            r == (*self == ConnectionState::Connected),
    {
        match self {
            ConnectionState::Connected => true,
            _ => false,
        }
    }

    /// Whether a connection is being set up.
    pub fn is_connecting(&self) -> (r: bool)
        ensures
            r == (*self == ConnectionState::Connecting || *self == ConnectionState::GatheringCandidates
                || *self == ConnectionState::CheckingConnectivity),
    {
        match self {
            ConnectionState::Connecting => true,
            ConnectionState::GatheringCandidates => true,
            ConnectionState::CheckingConnectivity => true,
            _ => false,
        }
    }

    /// Whether data may be sent and received: when connected, and while
    /// reconnecting.
    pub fn can_transmit(&self) -> (r: bool)
        ensures
            r == (*self == ConnectionState::Connected || *self == ConnectionState::Reconnecting),
    {
        match self {
            ConnectionState::Connected => true,
            ConnectionState::Reconnecting => true,
            _ => false,
        }
    }
}

/// Storing a state as a byte and reading it back gives the state; and no
/// state is both being set up and able to transmit.
pub proof fn lemma_state_code_roundtrip(s: ConnectionState)
    ensures
        state_of(state_code(s)) == s,
        !((s == ConnectionState::Connecting || s == ConnectionState::GatheringCandidates || s
            == ConnectionState::CheckingConnectivity) && (s == ConnectionState::Connected || s
            == ConnectionState::Reconnecting)),
        s == ConnectionState::Connected ==> (s == ConnectionState::Connected || s
            == ConnectionState::Reconnecting),
{
}


/// The state of a connection together with the error that failed it.
#[derive(Debug)]
pub struct ConnectionStatus {
    state: ConnectionState,
    last_error: Option<String>,
}

impl View for ConnectionStatus {
    type V = (ConnectionState, Option<Seq<char>>);

    closed spec fn view(&self) -> (ConnectionState, Option<Seq<char>>) {
        (
            self.state,
            match self.last_error {
                Some(e) => Some(e@),
                None => None,
            },
        )
    }
}

impl ConnectionStatus {
    /// Disconnected, with no error.
    pub fn new() -> (s: Self)
        ensures
            s@ == (ConnectionState::Disconnected, None::<Seq<char>>),
    {
        ConnectionStatus { state: ConnectionState::Disconnected, last_error: None }
    }

    pub fn state(&self) -> (r: ConnectionState)
        ensures
            r == self@.0,
    {
        self.state
    }

    /// Moves to `state`; any state but Failed forgets the last error.
    pub fn set_state(&mut self, state: ConnectionState)
        ensures
            final(self)@.0 == state,
            final(self)@.1 == (if state == ConnectionState::Failed {
                old(self)@.1
            } else {
                None
            }),
    {
        if state != ConnectionState::Failed {
            self.last_error = None;
        }
        self.state = state;
    }

    /// Fails the connection with the given error text.
    pub fn set_failed(&mut self, error: String)
        ensures
            final(self)@ == (ConnectionState::Failed, Some(error@)),
    {
        self.last_error = Some(error);
        self.state = ConnectionState::Failed;
    }

    /// The error that failed the connection, while it stays failed.
    pub fn last_error(&self) -> (r: Option<String>)
        ensures
            match r {
                Some(e) => self@.1 == Some(e@),
                None => self@.1 is None,
            },
    {
        match &self.last_error {
            Some(e) => Some(e.clone()),
            None => None,
        }
    }
}

} // verus!
