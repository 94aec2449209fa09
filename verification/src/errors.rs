//! Error types of the audio and network layers.
use vstd::prelude::*;

verus! {

/// Errors of the network layer.
#[derive(Debug)]
pub enum NetworkError {
    ConnectionTimeout,
    ConnectionRefused,
    AlreadyConnected,
    NotConnected,
    SendBufferFull,
    /// An I/O failure, with its description
    Io(String),
    InvalidPacket,
    /// An address that did not parse, with the parser's description
    AddrParse(String),
    SessionFull,
    PeerNotFound(String),
    SignalingError(String),
    EncryptionError(String),
    StunFailed(String),
}

/// The text a NetworkError is shown with.
pub open spec fn network_error_text(e: NetworkError) -> Seq<char> {
    match e {
        NetworkError::ConnectionTimeout => "Connection timeout"@,
        NetworkError::ConnectionRefused => "Connection refused"@,
        NetworkError::AlreadyConnected => "Already connected"@,
        NetworkError::NotConnected => "Not connected"@,
        NetworkError::SendBufferFull => "Send buffer full"@,
        NetworkError::Io(m) => "IO error: "@ + m@,
        NetworkError::InvalidPacket => "Invalid packet"@,
        NetworkError::AddrParse(m) => "Address parse error: "@ + m@,
        NetworkError::SessionFull => "Session is full"@,
        NetworkError::PeerNotFound(m) => "Peer not found: "@ + m@,
        NetworkError::SignalingError(m) => "Signaling error: "@ + m@,
        NetworkError::EncryptionError(m) => "Encryption error: "@ + m@,
        NetworkError::StunFailed(m) => "STUN failed: "@ + m@,
    }
}

impl NetworkError {
    /// The text the error is shown with.
    pub fn message(&self) -> (r: String)
        ensures
            r@ == network_error_text(*self),
    {
        match self {
            NetworkError::ConnectionTimeout => "Connection timeout".to_string(),
            NetworkError::ConnectionRefused => "Connection refused".to_string(),
            NetworkError::AlreadyConnected => "Already connected".to_string(),
            NetworkError::NotConnected => "Not connected".to_string(),
            NetworkError::SendBufferFull => "Send buffer full".to_string(),
            NetworkError::Io(m) => "IO error: ".to_string().concat(m.as_str()),
            NetworkError::InvalidPacket => "Invalid packet".to_string(),
            NetworkError::AddrParse(m) => "Address parse error: ".to_string().concat(m.as_str()),
            NetworkError::SessionFull => "Session is full".to_string(),
            NetworkError::PeerNotFound(m) => "Peer not found: ".to_string().concat(m.as_str()),
            NetworkError::SignalingError(m) => "Signaling error: ".to_string().concat(m.as_str()),
            NetworkError::EncryptionError(m) => "Encryption error: ".to_string().concat(m.as_str()),
            NetworkError::StunFailed(m) => "STUN failed: ".to_string().concat(m.as_str()),
        }
    }
}

/// Errors of the audio layer.
#[derive(Debug)]
pub enum AudioError {
    DeviceNotFound(String),
    DeviceOpenFailed(String),
    UnsupportedConfig(String),
    StreamError(String),
    BufferOverflow,
    BufferUnderrun,
    RecordingError(String),
    PluginError(String),
}

/// The text a AudioError is shown with.
pub open spec fn audio_error_text(e: AudioError) -> Seq<char> {
    match e {
        AudioError::DeviceNotFound(m) => "Device not found: "@ + m@,
        AudioError::DeviceOpenFailed(m) => "Failed to open device: "@ + m@,
        AudioError::UnsupportedConfig(m) => "Unsupported configuration: "@ + m@,
        AudioError::StreamError(m) => "Stream error: "@ + m@,
        AudioError::BufferOverflow => "Buffer overflow"@,
        AudioError::BufferUnderrun => "Buffer underrun"@,
        AudioError::RecordingError(m) => "Recording error: "@ + m@,
        AudioError::PluginError(m) => "Plugin error: "@ + m@,
    }
}

impl AudioError {
    /// The text the error is shown with.
    pub fn message(&self) -> (r: String)
        ensures
            r@ == audio_error_text(*self),
    {
        match self {
            AudioError::DeviceNotFound(m) => "Device not found: ".to_string().concat(m.as_str()),
            AudioError::DeviceOpenFailed(m) => "Failed to open device: ".to_string().concat(m.as_str()),
            AudioError::UnsupportedConfig(m) => "Unsupported configuration: ".to_string().concat(m.as_str()),
            AudioError::StreamError(m) => "Stream error: ".to_string().concat(m.as_str()),
            AudioError::BufferOverflow => "Buffer overflow".to_string(),
            AudioError::BufferUnderrun => "Buffer underrun".to_string(),
            AudioError::RecordingError(m) => "Recording error: ".to_string().concat(m.as_str()),
            AudioError::PluginError(m) => "Plugin error: ".to_string().concat(m.as_str()),
        }
    }
}

} // verus!
