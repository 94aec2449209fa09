//! The WAV file header of session recordings.
use vstd::prelude::*;
use crate::bytes::{le16, le32, push_le16, push_le32};
use crate::errors::AudioError;

verus! {

/// Length of the header in bytes.
pub const WAV_HEADER_SIZE: usize = 44;

/// The ASCII bytes of `RIFF`, `WAVE`, `fmt ` and `data`.
pub open spec fn riff_tag() -> Seq<u8> {
    seq![82u8, 73u8, 70u8, 70u8]
}

pub open spec fn wave_tag() -> Seq<u8> {
    seq![87u8, 65u8, 86u8, 69u8]
}

pub open spec fn fmt_tag() -> Seq<u8> {
    seq![102u8, 109u8, 116u8, 32u8]
}

pub open spec fn data_tag() -> Seq<u8> {
    seq![100u8, 97u8, 116u8, 97u8]
}

/// The sample format code: 3 (IEEE float) for 32-bit samples, else 1 (PCM).
pub open spec fn wav_format(bits_per_sample: u16) -> u16 {
    if bits_per_sample == 32 {
        3
    } else {
        1
    }
}

/// The header fits the machine: its products and sums stay in range.
pub open spec fn wav_header_fits(sample_rate: u32, channels: u16, bits_per_sample: u16, data_size: u32) -> bool {
    &&& sample_rate * channels <= u32::MAX
    &&& sample_rate * channels * bits_per_sample <= u32::MAX
    &&& channels * bits_per_sample <= u16::MAX
    &&& data_size + 36 <= u32::MAX
}

/// The 44 bytes of a WAV header: the RIFF chunk with the file size, the
/// `fmt ` chunk (format, channels, rate, byte rate, block alignment, bits
/// per sample) and the `data` chunk header, all little-endian.
pub open spec fn wav_header_bytes(sample_rate: u32, channels: u16, bits_per_sample: u16, data_size: u32) -> Seq<u8> {
    let byte_rate = (sample_rate * channels * bits_per_sample / 8) as u32;
    let block_align = (channels * bits_per_sample / 8) as u16;
    riff_tag() + le32((36 + data_size) as u32) + wave_tag() + fmt_tag() + le32(16) + le16(
        wav_format(bits_per_sample),
    ) + le16(channels) + le32(sample_rate) + le32(byte_rate) + le16(block_align) + le16(
        bits_per_sample,
    ) + data_tag() + le32(data_size)
}

fn push_tag(buf: &mut Vec<u8>, a: u8, b: u8, c: u8, d: u8)
    ensures
        final(buf)@ == old(buf)@ + seq![a, b, c, d],
{
    buf.push(a);
    buf.push(b);
    buf.push(c);
    buf.push(d);
    assert(final(buf)@ =~= old(buf)@ + seq![a, b, c, d]);
}

/// Appends a WAV header to `buf`. Writing into memory cannot fail.
pub fn write_wav_header(
    buf: &mut Vec<u8>,
    sample_rate: u32,
    channels: u16,
    bits_per_sample: u16,
    data_size: u32,
) -> (r: Result<(), AudioError>)
    requires
        wav_header_fits(sample_rate, channels, bits_per_sample, data_size),
    ensures
        r is Ok,
        final(buf)@ == old(buf)@ + wav_header_bytes(sample_rate, channels, bits_per_sample, data_size),
        wav_header_bytes(sample_rate, channels, bits_per_sample, data_size).len() == WAV_HEADER_SIZE,
{
    let ghost start = buf@;
    let sc = sample_rate * (channels as u32);
    assert(sc * bits_per_sample == sample_rate * channels * bits_per_sample) by (nonlinear_arith)
        requires
            sc == sample_rate * channels,
    ;
    let byte_rate = sc * (bits_per_sample as u32) / 8;
    let block_align = channels * bits_per_sample / 8;
    let file_size = 36 + data_size;
    push_tag(buf, 82, 73, 70, 70);
    push_le32(buf, file_size);
    push_tag(buf, 87, 65, 86, 69);
    push_tag(buf, 102, 109, 116, 32);
    push_le32(buf, 16);
    let format: u16 = if bits_per_sample == 32 {
        3
    } else {
        1
    };
    push_le16(buf, format);
    push_le16(buf, channels);
    push_le32(buf, sample_rate);
    push_le32(buf, byte_rate);
    push_le16(buf, block_align);
    push_le16(buf, bits_per_sample);
    push_tag(buf, 100, 97, 116, 97);
    push_le32(buf, data_size);
    assert(buf@ =~= start + wav_header_bytes(sample_rate, channels, bits_per_sample, data_size));
    Ok(())
}

/// The format field (bytes 20 and 21) of a header says IEEE float (3) for
/// 32-bit samples and PCM (1) for every other sample width; the width,
/// channel count and rate stand in their own fields.
pub proof fn lemma_wav_format_field(sample_rate: u32, channels: u16, bits_per_sample: u16, data_size: u32)
    ensures
        wav_header_bytes(sample_rate, channels, bits_per_sample, data_size).subrange(20, 22) == (if bits_per_sample
            == 32 {
            seq![3u8, 0u8]
        } else {
            seq![1u8, 0u8]
        }),
        wav_header_bytes(sample_rate, channels, bits_per_sample, data_size).subrange(22, 24) == le16(
            channels,
        ),
        wav_header_bytes(sample_rate, channels, bits_per_sample, data_size).subrange(34, 36) == le16(
            bits_per_sample,
        ),
{
    let byte_rate = (sample_rate * channels * bits_per_sample / 8) as u32;
    let block_align = (channels * bits_per_sample / 8) as u16;
    let pre = riff_tag() + le32((36 + data_size) as u32) + wave_tag() + fmt_tag() + le32(16);
    let f = le16(wav_format(bits_per_sample));
    let ch = le16(channels);
    let mid = le32(sample_rate) + le32(byte_rate) + le16(block_align);
    let bits = le16(bits_per_sample);
    let tail = data_tag() + le32(data_size);
    let h = wav_header_bytes(sample_rate, channels, bits_per_sample, data_size);
    assert(pre.len() == 20);
    assert(mid.len() == 10);
    assert(h == pre + f + ch + mid + bits + tail);
    assert(h.subrange(20, 22) =~= f);
    assert(h.subrange(22, 24) =~= ch);
    assert(h.subrange(34, 36) =~= bits);
    assert(le16(3u16) =~= seq![3u8, 0u8]) by {
        assert((3u16 & 0xffu16) as u8 == 3u8 && (3u16 >> 8u16) as u8 == 0u8) by (bit_vector);
    }
    assert(le16(1u16) =~= seq![1u8, 0u8]) by {
        assert((1u16 & 0xffu16) as u8 == 1u8 && (1u16 >> 8u16) as u8 == 0u8) by (bit_vector);
    }
}

} // verus!
