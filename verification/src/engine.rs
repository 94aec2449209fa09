//! Configuration of audio capture and playback.
use vstd::prelude::*;

verus! {

/// What can happen to a running audio stream
#[derive(Debug)]
pub enum AudioEvent {
    /// The input device went away
    InputDeviceDisconnected,
    /// The output device went away
    OutputDeviceDisconnected,
    /// The stream reported an error
    StreamError(String),
}

/// Sample formats
#[derive(Debug, Clone, Copy, PartialEq, Eq, Structural)]
pub enum BitDepth {
    /// 16-bit signed integer
    I16,
    /// 24-bit signed integer
    I24,
    /// 32-bit floating point
    F32,
}

impl Default for BitDepth {
    fn default() -> (r: Self)
        ensures
            r == BitDepth::F32,
    {
        BitDepth::F32
    }
}

/// Shape of the audio stream, shared by capture and playback
#[derive(Debug, Clone, Copy, PartialEq, Eq, Structural)]
pub struct AudioConfig {
    /// Sample rate in Hz
    pub sample_rate: u32,
    /// Number of channels
    pub channels: u16,
    /// Frame size in samples
    pub frame_size: u32,
}

impl Default for AudioConfig {
    fn default() -> (r: Self)
        ensures
            r.sample_rate == 48000 && r.channels == 1 && r.frame_size == 64,
    {
        AudioConfig { sample_rate: 48000, channels: 1, frame_size: 64 }
    }
}

/// Capture settings
#[derive(Debug, Clone, Copy, PartialEq, Eq, Structural)]
pub struct CaptureConfig {
    /// Sample rate in Hz
    pub sample_rate: u32,
    /// Number of channels
    pub channels: u16,
    /// Frame size in samples
    pub frame_size: u32,
    /// Sample format
    pub bit_depth: BitDepth,
}

impl Default for CaptureConfig {
    fn default() -> (r: Self)
        ensures
            r.sample_rate == 48000 && r.channels == 1 && r.frame_size == 64 && r.bit_depth
                == BitDepth::F32,
    {
        CaptureConfig { sample_rate: 48000, channels: 1, frame_size: 64, bit_depth: BitDepth::F32 }
    }
}

/// Playback settings
#[derive(Debug, Clone, Copy, PartialEq, Eq, Structural)]
pub struct PlaybackConfig {
    /// Sample rate in Hz
    pub sample_rate: u32,
    /// Number of channels
    pub channels: u16,
    /// Frame size in samples
    pub frame_size: u32,
    /// Sample format
    pub bit_depth: BitDepth,
}

impl Default for PlaybackConfig {
    fn default() -> (r: Self)
        ensures
            r.sample_rate == 48000 && r.channels == 1 && r.frame_size == 64 && r.bit_depth
                == BitDepth::F32,
    {
        PlaybackConfig { sample_rate: 48000, channels: 1, frame_size: 64, bit_depth: BitDepth::F32 }
    }
}

impl From<CaptureConfig> for AudioConfig {
    fn from(config: CaptureConfig) -> (r: Self) {
        AudioConfig {
            sample_rate: config.sample_rate,
            channels: config.channels,
            frame_size: config.frame_size,
        }
    }
}

impl vstd::std_specs::convert::FromSpecImpl<CaptureConfig> for AudioConfig {
    open spec fn obeys_from_spec() -> bool {
        true
    }

    open spec fn from_spec(config: CaptureConfig) -> AudioConfig {
        AudioConfig {
            sample_rate: config.sample_rate,
            channels: config.channels,
            frame_size: config.frame_size,
        }
    }
}

impl From<PlaybackConfig> for AudioConfig {
    fn from(config: PlaybackConfig) -> (r: Self) {
        AudioConfig {
            sample_rate: config.sample_rate,
            channels: config.channels,
            frame_size: config.frame_size,
        }
    }
}

impl vstd::std_specs::convert::FromSpecImpl<PlaybackConfig> for AudioConfig {
    open spec fn obeys_from_spec() -> bool {
        true
    }

    open spec fn from_spec(config: PlaybackConfig) -> AudioConfig {
        AudioConfig {
            sample_rate: config.sample_rate,
            channels: config.channels,
            frame_size: config.frame_size,
        }
    }
}

} // verus!
