//! Audio codecs: which one a stream uses, and the byte layout of raw PCM.
//!
//! PCM frames carry each sample as the four little-endian bytes of its
//! 32-bit float. Here a sample is handled by its bit pattern (`f32::to_bits`),
//! so the framing is exact; the float conversion is left to the caller.
use vstd::prelude::*;
use crate::bytes::{le32, lemma_le32_roundtrip, push_le32, read_le32, read_le32_at};
use crate::text::{decimal, write_decimal};

verus! {

/// Codec of an audio stream
#[derive(Debug, Clone, Copy, PartialEq, Eq, Structural)]
pub enum CodecType {
    /// Raw PCM, no compression (LAN mode)
    Pcm,
    /// Opus (internet mode)
    Opus,
}

impl Default for CodecType {
    fn default() -> (r: Self)
        ensures
            r == CodecType::Pcm,
    {
        CodecType::Pcm
    }
}

/// The codec that the low two bits of a flags byte name; unknown values
/// mean PCM.
pub open spec fn codec_of_flags(value: u8) -> CodecType {
    if value & 3u8 == 1u8 {
        CodecType::Opus
    } else {
        CodecType::Pcm
    }
}

pub open spec fn codec_flags(c: CodecType) -> u8 {
    match c {
        CodecType::Pcm => 0,
        CodecType::Opus => 1,
    }
}

impl CodecType {
    /// The codec named by the low two bits of a flags byte.
    pub fn from_flags(value: u8) -> (r: Self)
        ensures
            r == codec_of_flags(value),
    {
        let bits = value & 0b11u8;
        if bits == 1 {
            CodecType::Opus
        } else {
            CodecType::Pcm
        }
    }

    /// The flags value of this codec.
    pub fn to_flags(&self) -> (r: u8)
        ensures
            r == codec_flags(*self),
    {
        match self {
            CodecType::Pcm => 0,
            CodecType::Opus => 1,
        }
    }

    /// Whether this build can encode and decode with the codec: PCM always,
    /// Opus not, as this build carries no Opus library.
    pub fn is_available(&self) -> (r: bool)
        ensures
            r == (*self == CodecType::Pcm),
    {
        match self {
            CodecType::Pcm => true,
            CodecType::Opus => false,
        }
    }
}

/// A codec's flags value names it again.
pub proof fn lemma_codec_flags_roundtrip(c: CodecType)
    ensures
        codec_of_flags(codec_flags(c)) == c,
{
    assert(0u8 & 3u8 == 0u8 && 1u8 & 3u8 == 1u8) by (bit_vector);
}

/// Codec settings
#[derive(Debug, Clone, Copy, PartialEq, Eq, Structural)]
pub struct CodecConfig {
    /// Codec to use
    pub codec_type: CodecType,
    /// Sample rate in Hz
    pub sample_rate: u32,
    /// Number of channels (1 = mono, 2 = stereo)
    pub channels: u16,
    /// Frame size in samples per channel (120 = 2.5ms @ 48kHz)
    pub frame_size: u32,
    /// Opus bitrate in bits per second
    pub bitrate: u32,
}

impl Default for CodecConfig {
    fn default() -> (r: Self)
        ensures
            r.codec_type == CodecType::Pcm && r.sample_rate == 48000 && r.channels == 1
                && r.frame_size == 120 && r.bitrate == 128000,
    {
        CodecConfig {
            codec_type: CodecType::Pcm,
            sample_rate: 48000,
            channels: 1,
            frame_size: 120,
            bitrate: 128000,
        }
    }
}

/// Codec failures
#[derive(Debug)]
pub enum CodecError {
    InitializationFailed(String),
    EncodeFailed(String),
    DecodeFailed(String),
    InvalidFrameSize { expected: usize, actual: usize },
    InvalidData(String),
    NotAvailable(String),
}

/// The bytes of PCM samples: four little-endian bytes per sample.
pub open spec fn pcm_bytes(samples: Seq<u32>) -> Seq<u8>
    decreases samples.len(),
{
    if samples.len() == 0 {
        Seq::empty()
    } else {
        pcm_bytes(samples.drop_last()) + le32(samples.last())
    }
}

/// The samples of PCM bytes whose length is a multiple of four.
pub open spec fn pcm_samples(data: Seq<u8>) -> Seq<u32> {
    Seq::new(data.len() / 4, |i: int| read_le32_at(data, 4 * i))
}

/// Why PCM bytes of the given length are refused.
pub open spec fn pcm_length_refusal(len: nat) -> Seq<char> {
    "PCM data length "@ + decimal(len) + " is not a multiple of 4"@
}

/// The refusal of PCM bytes of length `len`.
fn format_pcm_length_refusal(len: usize) -> (r: String)
    ensures
        r@ == pcm_length_refusal(len as nat),
{
    let mut r = String::from_str("PCM data length ");
    write_decimal(len as u64, &mut r);
    r.append(" is not a multiple of 4");
    r
}

/// The message of a codec that this build lacks.
pub open spec fn opus_missing() -> Seq<char> {
    "Opus codec requires the 'opus-codec' feature and libopus system library"@
}

proof fn lemma_pcm_bytes_len(samples: Seq<u32>)
    ensures
        pcm_bytes(samples).len() == 4 * samples.len(),
    decreases samples.len(),
{
    if samples.len() > 0 {
        lemma_pcm_bytes_len(samples.drop_last());
    }
}

proof fn lemma_pcm_bytes_at(samples: Seq<u32>, i: int)
    requires
        0 <= i < samples.len(),
    ensures
        pcm_bytes(samples).subrange(4 * i, 4 * i + 4) == le32(samples[i]),
    decreases samples.len(),
{
    lemma_pcm_bytes_len(samples);
    lemma_pcm_bytes_len(samples.drop_last());
    let prev = pcm_bytes(samples.drop_last());
    if i < samples.len() - 1 {
        lemma_pcm_bytes_at(samples.drop_last(), i);
        assert(pcm_bytes(samples).subrange(4 * i, 4 * i + 4) =~= prev.subrange(4 * i, 4 * i + 4));
    } else {
        assert(pcm_bytes(samples).subrange(4 * i, 4 * i + 4) =~= le32(samples.last()));
    }
}

/// Decoding the bytes of samples gives the samples back.
pub proof fn lemma_pcm_roundtrip(samples: Seq<u32>)
    ensures
        pcm_bytes(samples).len() % 4 == 0,
        pcm_samples(pcm_bytes(samples)) == samples,
{
    lemma_pcm_bytes_len(samples);
    let b = pcm_bytes(samples);
    assert forall|i: int| 0 <= i < samples.len() implies #[trigger] read_le32_at(b, 4 * i)
        == samples[i] by {
        lemma_pcm_bytes_at(samples, i);
        lemma_le32_roundtrip(samples[i]);
        let w = b.subrange(4 * i, 4 * i + 4);
        assert(w[0] == b[4 * i] && w[1] == b[4 * i + 1] && w[2] == b[4 * i + 2] && w[3] == b[4 * i
            + 3]);
    }
    assert(pcm_samples(b) =~= samples);
}

/// PCM codec: samples pass through as bytes
#[derive(Debug)]
pub struct PcmCodec {
    frame_size: u32,
    channels: u16,
}

impl PcmCodec {
    /// A PCM codec with the frame size and channel count of `config`.
    pub fn new(config: &CodecConfig) -> (c: Self)
        ensures
            c.spec_frame_size() == config.frame_size,
            c.spec_channels() == config.channels,
    {
        PcmCodec { frame_size: config.frame_size, channels: config.channels }
    }

    pub closed spec fn spec_frame_size(&self) -> u32 {
        self.frame_size
    }

    pub closed spec fn spec_channels(&self) -> u16 {
        self.channels
    }

    pub fn codec_type(&self) -> (r: CodecType)
        ensures
            r == CodecType::Pcm,
    {
        CodecType::Pcm
    }

    /// Frame size in samples per channel.
    pub fn frame_size(&self) -> (r: u32)
        ensures
            r == self.spec_frame_size(),
    {
        self.frame_size
    }

    pub fn channels(&self) -> (r: u16)
        ensures
            r == self.spec_channels(),
    {
        self.channels
    }

    /// The bytes of the samples whose bit patterns are `samples`.
    pub fn encode_bits(&self, samples: &[u32]) -> (r: Vec<u8>)
        ensures
            r@ == pcm_bytes(samples@),
    {
        let mut out: Vec<u8> = Vec::new();
        let mut i: usize = 0;
        while i < samples.len()
            invariant
                i <= samples@.len(),
                out@ == pcm_bytes(samples@.subrange(0, i as int)),
            decreases samples.len() - i,
        {
            let ghost before = samples@.subrange(0, i as int);
            push_le32(&mut out, samples[i]);
            i = i + 1;
            assert(samples@.subrange(0, i as int).drop_last() =~= before);
        }
        assert(samples@.subrange(0, samples@.len() as int) =~= samples@);
        out
    }

    /// The bit patterns of the samples in `data`; refused unless its length
    /// is a multiple of four.
    pub fn decode_bits(&self, data: &[u8]) -> (r: Result<Vec<u32>, CodecError>)
        ensures
            match r {
                Ok(s) => data@.len() % 4 == 0 && s@ == pcm_samples(data@),
                Err(e) => data@.len() % 4 != 0 && (e matches CodecError::InvalidData(m) && m@
                    == pcm_length_refusal(data@.len())),
            },
    {
        if data.len() % 4 != 0 {
            return Err(CodecError::InvalidData(format_pcm_length_refusal(data.len())));
        }
        let n = data.len() / 4;
        let mut out: Vec<u32> = Vec::new();
        let mut i: usize = 0;
        while i < n
            invariant
                n == data@.len() / 4,
                data@.len() % 4 == 0,
                data@.len() <= usize::MAX,
                i <= n,
                out@ == pcm_samples(data@).subrange(0, i as int),
            decreases n - i,
        {
            assert(4 * i + 4 <= data@.len()) by (nonlinear_arith)
                requires
                    i < n,
                    n == data@.len() / 4,
            ;
            out.push(read_le32(data, 4 * i));
            i = i + 1;
            assert(out@ =~= pcm_samples(data@).subrange(0, i as int));
        }
        assert(pcm_samples(data@).subrange(0, n as int) =~= pcm_samples(data@));
        Ok(out)
    }

    /// The number of samples of concealment for `frame_size` samples per
    /// channel: PCM conceals with that many samples of silence.
    pub fn plc_sample_count(&self, frame_size: usize) -> (r: usize)
        requires
            frame_size * self.spec_channels() <= usize::MAX,
        ensures
            r == frame_size * self.spec_channels(),
    {
        frame_size * (self.channels as usize)
    }
}

/// The Opus codec, which this build does not carry.
#[derive(Debug)]
pub struct OpusCodec;

impl OpusCodec {
    /// Always refused: this build has no Opus library.
    pub fn new(config: &CodecConfig) -> (r: Result<Self, CodecError>)
        ensures
            r matches Err(CodecError::NotAvailable(m)) && m@ == opus_missing(),
    {
        Err(CodecError::NotAvailable(
            "Opus codec requires the 'opus-codec' feature and libopus system library".to_string(),
        ))
    }
}

/// The codec a configuration asks for: PCM, or the refusal of Opus.
pub fn select_codec(config: &CodecConfig) -> (r: Result<PcmCodec, CodecError>)
    ensures
        config.codec_type == CodecType::Pcm ==> (r matches Ok(c) && c.spec_frame_size()
            == config.frame_size && c.spec_channels() == config.channels),
        config.codec_type == CodecType::Opus ==> (r matches Err(CodecError::NotAvailable(m)) && m@
            == opus_missing()),
{
    match config.codec_type {
        CodecType::Pcm => Ok(PcmCodec::new(config)),
        CodecType::Opus => Err(CodecError::NotAvailable(
            "Opus codec requires the 'opus-codec' feature and libopus system library".to_string(),
        )),
    }
}

} // verus!
