use jamjam::codec::{select_codec, CodecConfig, CodecError, CodecType, OpusCodec, PcmCodec};

fn to_bits(samples: &[f32]) -> Vec<u32> {
    samples.iter().map(|s| s.to_bits()).collect()
}

fn from_bits(words: &[u32]) -> Vec<f32> {
    words.iter().map(|w| f32::from_bits(*w)).collect()
}

#[test]
fn test_pcm_codec_roundtrip() {
    let config = CodecConfig { codec_type: CodecType::Pcm, frame_size: 120, channels: 1, ..Default::default() };

    let codec = PcmCodec::new(&config);

    let samples: Vec<f32> = (0..120).map(|i| (i as f32 / 120.0) * 2.0 - 1.0).collect();

    let encoded = codec.encode_bits(&to_bits(&samples));
    assert_eq!(encoded.len(), samples.len() * 4);

    let decoded = from_bits(&codec.decode_bits(&encoded).unwrap());
    assert_eq!(decoded.len(), samples.len());

    for (orig, dec) in samples.iter().zip(decoded.iter()) {
        assert!((orig - dec).abs() < 1e-6);
    }
}

#[test]
fn test_pcm_codec_stereo() {
    let config = CodecConfig { codec_type: CodecType::Pcm, frame_size: 120, channels: 2, ..Default::default() };

    let codec = PcmCodec::new(&config);

    let samples: Vec<f32> = (0..240).map(|i| (i as f32 / 240.0) * 2.0 - 1.0).collect();

    let encoded = codec.encode_bits(&to_bits(&samples));
    let decoded = codec.decode_bits(&encoded).unwrap();

    assert_eq!(decoded.len(), samples.len());
}

#[test]
fn test_codec_type_flags() {
    assert_eq!(CodecType::Pcm.to_flags(), 0);
    assert_eq!(CodecType::Opus.to_flags(), 1);

    assert_eq!(CodecType::from_flags(0), CodecType::Pcm);
    assert_eq!(CodecType::from_flags(1), CodecType::Opus);
    assert_eq!(CodecType::from_flags(2), CodecType::Pcm);
}

#[test]
fn test_codec_availability() {
    assert!(CodecType::Pcm.is_available());
    assert!(!CodecType::Opus.is_available());
}

#[test]
fn pcm_samples_are_little_endian_f32() {
    let codec = PcmCodec::new(&CodecConfig::default());
    let bytes = codec.encode_bits(&to_bits(&[1.0f32]));
    assert_eq!(bytes, vec![0x00, 0x00, 0x80, 0x3F]);
}

#[test]
fn pcm_decode_refuses_partial_sample() {
    let codec = PcmCodec::new(&CodecConfig::default());
    match codec.decode_bits(&[1, 2, 3, 4, 5]) {
        Err(CodecError::InvalidData(m)) => assert_eq!(m, "PCM data length 5 is not a multiple of 4"),
        other => panic!("Expected InvalidData, got {:?}", other),
    }
}

#[test]
fn flags_use_low_two_bits() {
    assert_eq!(CodecType::from_flags(0b101), CodecType::Opus);
    assert_eq!(CodecType::from_flags(0b11), CodecType::Pcm);
}

#[test]
fn opus_is_not_available_in_this_build() {
    assert!(matches!(OpusCodec::new(&CodecConfig::default()), Err(CodecError::NotAvailable(_))));
    let config = CodecConfig { codec_type: CodecType::Opus, ..Default::default() };
    assert!(matches!(select_codec(&config), Err(CodecError::NotAvailable(_))));
    let pcm = select_codec(&CodecConfig::default()).unwrap();
    assert_eq!(pcm.frame_size(), 120);
    assert_eq!(pcm.channels(), 1);
    assert_eq!(pcm.codec_type(), CodecType::Pcm);
    assert_eq!(pcm.plc_sample_count(120), 120);
}
