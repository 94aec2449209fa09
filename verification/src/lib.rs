//! Low-latency peer-to-peer audio for musicians: the wire formats, loss
//! recovery, buffering and room logic of the jamjam session stack.
pub mod bytes;
pub mod text;
pub mod errors;
pub mod keyed;
pub mod packet;
pub mod fec;
pub mod sequence_tracker;
pub mod jitter_buffer;
pub mod stun;
pub mod signaling;
pub mod encryption;
pub mod config;
pub mod device;
pub mod engine;
pub mod codec;
pub mod recording;
pub mod metronome;
pub mod connection;
pub mod session;
pub mod plugin;
pub mod desktop;
pub mod echo;
