use jamjam::device::{device_capabilities, ConfigRange};
use jamjam::engine::{AudioConfig, BitDepth, CaptureConfig, PlaybackConfig};
use jamjam::metronome::{MetronomeClock, MetronomeState, MetronomeSync};
use jamjam::plugin::{
    basic_plugin_info, default_plugin_paths, format_for, plugin_load_refusal, scan_plugin, PluginInfo, PluginFormat, PluginScanner, TargetOs,
};
use jamjam::recording::write_wav_header;

#[test]
fn test_audio_config_default() {
    let config = AudioConfig::default();
    assert_eq!(config.sample_rate, 48000);
    assert_eq!(config.channels, 1);
    assert_eq!(config.frame_size, 64);
}

#[test]
fn capture_and_playback_defaults() {
    let capture = CaptureConfig::default();
    let playback = PlaybackConfig::default();
    assert_eq!(capture.bit_depth, BitDepth::F32);
    assert_eq!(playback.bit_depth, BitDepth::F32);
    let a: AudioConfig = capture.into();
    assert_eq!((a.sample_rate, a.channels, a.frame_size), (48000, 1, 64));
    let b = AudioConfig::from(PlaybackConfig { sample_rate: 96000, channels: 2, frame_size: 256, bit_depth: BitDepth::I24 });
    assert_eq!((b.sample_rate, b.channels, b.frame_size), (96000, 2, 256));
}

#[test]
fn test_wav_header() {
    let mut buffer = Vec::new();
    write_wav_header(&mut buffer, 48000, 2, 16, 1000).unwrap();

    assert_eq!(&buffer[0..4], b"RIFF");
    assert_eq!(&buffer[8..12], b"WAVE");
    assert_eq!(&buffer[12..16], b"fmt ");
}

#[test]
fn wav_header_fields() {
    let mut buffer = Vec::new();
    write_wav_header(&mut buffer, 48000, 2, 16, 1000).unwrap();
    assert_eq!(buffer.len(), 44);
    assert_eq!(&buffer[4..8], &1036u32.to_le_bytes());
    assert_eq!(&buffer[20..22], &1u16.to_le_bytes());
    assert_eq!(&buffer[22..24], &2u16.to_le_bytes());
    assert_eq!(&buffer[24..28], &48000u32.to_le_bytes());
    assert_eq!(&buffer[28..32], &192000u32.to_le_bytes());
    assert_eq!(&buffer[32..34], &4u16.to_le_bytes());
    assert_eq!(&buffer[34..36], &16u16.to_le_bytes());
    assert_eq!(&buffer[36..40], b"data");
    assert_eq!(&buffer[40..44], &1000u32.to_le_bytes());

    let mut float_header = Vec::new();
    write_wav_header(&mut float_header, 44100, 1, 32, 0).unwrap();
    assert_eq!(&float_header[20..22], &3u16.to_le_bytes());
}

#[test]
fn test_metronome_creation() {
    let metro = MetronomeClock::new(120, 4, 48000);
    assert!(!metro.is_running());
    assert_eq!(metro.bpm(), 120);
}

#[test]
fn test_metronome_start_stop() {
    let mut metro = MetronomeClock::new(120, 4, 48000);
    metro.start();
    assert!(metro.is_running());
    metro.stop();
    assert!(!metro.is_running());
}

#[test]
fn test_metronome_sync() {
    let mut metro = MetronomeClock::new(120, 4, 48000);
    metro.start();
    for _ in 0..10000 {
        metro.next_sample();
    }

    let sync = MetronomeSync::from_clock(&metro);
    let bytes = sync.to_bytes();
    let parsed = MetronomeSync::from_bytes(&bytes).unwrap();

    assert_eq!(sync.bpm, parsed.bpm);
    assert_eq!(sync.current_beat, parsed.current_beat);
    assert_eq!(sync, parsed);
}

#[test]
fn test_set_bpm() {
    let mut metro = MetronomeClock::new(120, 4, 48000);

    metro.set_bpm(140);
    assert_eq!(metro.bpm(), 140);

    metro.set_bpm(10);
    assert_eq!(metro.bpm(), 20);

    metro.set_bpm(400);
    assert_eq!(metro.bpm(), 300);
}

#[test]
fn metronome_counts_beats_and_measures() {
    // 120 bpm at 48 kHz: 24000 samples per beat, clicks of 2400 samples
    let mut metro = MetronomeClock::new(120, 4, 48000);
    metro.start();
    let first = metro.next_sample().unwrap();
    assert!(first.downbeat);
    assert_eq!(first.position_in_beat, 0);
    for _ in 1..24000 {
        metro.next_sample();
    }
    let s = metro.state();
    assert_eq!((s.current_beat, s.measure, s.sample_position), (1, 0, 24000));
    let second_beat = metro.next_sample().unwrap();
    assert!(!second_beat.downbeat);
    for _ in 0..(3 * 24000 - 1) {
        metro.next_sample();
    }
    let s = metro.state();
    assert_eq!((s.current_beat, s.measure, s.total_samples), (0, 1, 96000));
}

#[test]
fn stopped_metronome_is_silent_and_still() {
    let mut metro = MetronomeClock::new(120, 4, 48000);
    assert!(metro.next_sample().is_none());
    assert_eq!(metro.state().sample_position, 0);
    metro.sync_to(MetronomeState { current_beat: 2, measure: 5, sample_position: 7, total_samples: 9 });
    assert_eq!(metro.state().measure, 5);
}

#[test]
fn sync_message_too_short() {
    assert!(MetronomeSync::from_bytes(&[0u8; 23]).is_none());
    let m = MetronomeSync { bpm: 1, beats_per_measure: 2, current_beat: 3, measure: 4, sample_position: 5 };
    let b = m.to_bytes();
    assert_eq!(b.len(), 24);
    assert_eq!(&b[0..4], &[0, 0, 0, 1]);
    assert_eq!(&b[16..24], &[0, 0, 0, 0, 0, 0, 0, 5]);
}

#[test]
fn test_default_plugin_paths() {
    let paths = default_plugin_paths(Some("/home/me"), TargetOs::Linux);
    assert!(!paths.is_empty());
    assert_eq!(paths[0], "/home/me/.vst3");
    assert_eq!(default_plugin_paths(None, TargetOs::Linux).len(), 4);
}

#[test]
fn plugin_paths_per_system() {
    let mac = default_plugin_paths(Some("/Users/me"), TargetOs::MacOs);
    assert_eq!(mac.len(), 6);
    assert_eq!(mac[0], "/Library/Audio/Plug-Ins/VST3");
    assert_eq!(mac[1], "/Users/me/Library/Audio/Plug-Ins/VST3");
    assert_eq!(mac[5], "/Users/me/Library/Audio/Plug-Ins/Components");
    assert_eq!(default_plugin_paths(None, TargetOs::MacOs).len(), 3);
    let win = default_plugin_paths(Some("C:\\Users\\me"), TargetOs::Windows);
    assert_eq!(win.len(), 4);
    assert_eq!(win[0], "C:\\Program Files\\Common Files\\VST3");
    assert_eq!(win[3], "C:\\Program Files (x86)\\Common Files\\CLAP");
    assert!(default_plugin_paths(Some("/home/me"), TargetOs::Other).is_empty());
}

#[test]
fn test_plugin_scanner_creation() {
    let mut scanner = PluginScanner::new(None, TargetOs::Linux);
    scanner.add_search_path("/opt/plugins");
    assert_eq!(scanner.search_paths().last().map(|s| s.as_str()), Some("/opt/plugins"));
}

#[test]
fn plugin_formats_from_names() {
    let l = TargetOs::Linux;
    assert_eq!(format_for("vst3", "/x/a.vst3", l), Some(PluginFormat::Vst3));
    assert_eq!(format_for("clap", "/x/a.clap", l), Some(PluginFormat::Clap));
    assert_eq!(format_for("component", "/x/a.component", l), Some(PluginFormat::AudioUnit));
    assert_eq!(format_for("so", "/usr/lib/clap/a.so", l), Some(PluginFormat::Clap));
    assert_eq!(format_for("so", "/usr/lib/VST3/a.so", l), Some(PluginFormat::Vst3));
    assert_eq!(format_for("so", "/usr/lib/a.so", l), None);
    assert_eq!(format_for("dll", "/x/a.dll", l), None);
    assert_eq!(format_for("so", "/usr/lib/clap/a.so", TargetOs::MacOs), None);
    assert_eq!(format_for("so", "/usr/lib/vst3/a.so", TargetOs::Windows), None);
    assert_eq!(format_for("clap", "/x/a.clap", TargetOs::Windows), Some(PluginFormat::Clap));
    let info = basic_plugin_info("/usr/lib/vst3/Reverb.vst3", l).unwrap();
    assert_eq!(info.name, "Reverb");
    assert_eq!(info.uid, "Reverb");
    assert_eq!(info.vendor, "Unknown");
    assert_eq!(info.format, PluginFormat::Vst3);
    assert!(basic_plugin_info("/usr/lib/readme.txt", l).is_none());
    assert!(basic_plugin_info("/usr/lib/clap/Synth.so", TargetOs::MacOs).is_none());
    assert_eq!(basic_plugin_info("/usr/lib/clap/Synth.so", l).unwrap().format, PluginFormat::Clap);
}

#[test]
fn device_capabilities_from_configs() {
    let configs = [
        ConfigRange { min_sample_rate: 44100, max_sample_rate: 48000, channels: 2 },
        ConfigRange { min_sample_rate: 8000, max_sample_rate: 96000, channels: 1 },
        ConfigRange { min_sample_rate: 44100, max_sample_rate: 44100, channels: 2 },
    ];
    let (rates, channels) = device_capabilities(&configs);
    assert_eq!(rates, vec![44100, 48000, 96000]);
    assert_eq!(channels, vec![1, 2]);
    let (rates, channels) = device_capabilities(&[]);
    assert_eq!(rates, vec![44100, 48000]);
    assert_eq!(channels, vec![1, 2]);
}

#[test]
fn test_mono_input() {
    let config = CaptureConfig {
        sample_rate: 48000,
        channels: 1,
        frame_size: 128,
        bit_depth: BitDepth::F32,
    };

    assert_eq!(config.channels, 1);
}

#[test]
fn test_stereo_input() {
    let config = CaptureConfig {
        sample_rate: 48000,
        channels: 2,
        frame_size: 128,
        bit_depth: BitDepth::F32,
    };

    assert_eq!(config.channels, 2);
}

#[test]
fn test_frame_size_64() {
    let config = AudioConfig {
        sample_rate: 48000,
        channels: 1,
        frame_size: 64,
    };

    assert_eq!(config.frame_size, 64);

    let latency_ms = config.frame_size as f32 / config.sample_rate as f32 * 1000.0;
    assert!((latency_ms - 1.33).abs() < 0.1);
}

#[test]
fn test_frame_size_256() {
    let config = AudioConfig {
        sample_rate: 48000,
        channels: 1,
        frame_size: 256,
    };

    assert_eq!(config.frame_size, 256);

    let latency_ms = config.frame_size as f32 / config.sample_rate as f32 * 1000.0;
    assert!((latency_ms - 5.33).abs() < 0.1);
}

#[test]
fn test_bit_depth_options() {
    let config_i16 = CaptureConfig {
        bit_depth: BitDepth::I16,
        ..Default::default()
    };
    assert_eq!(config_i16.bit_depth, BitDepth::I16);

    let config_i24 = CaptureConfig {
        bit_depth: BitDepth::I24,
        ..Default::default()
    };
    assert_eq!(config_i24.bit_depth, BitDepth::I24);

    let config_f32 = CaptureConfig {
        bit_depth: BitDepth::F32,
        ..Default::default()
    };
    assert_eq!(config_f32.bit_depth, BitDepth::F32);
}

#[test]
fn plugin_loading_by_extension() {
    assert_eq!(plugin_load_refusal("clap"), None);
    assert_eq!(plugin_load_refusal("so"), None);
    assert_eq!(plugin_load_refusal("vst3").unwrap(), "VST3 plugin loading not yet implemented");
    assert_eq!(plugin_load_refusal("dll").unwrap(), "Unknown plugin format: dll");
    assert_eq!(plugin_load_refusal("").unwrap(), "Unknown plugin format: ");
}

fn described(name: &str) -> PluginInfo {
    PluginInfo {
        name: name.to_string(),
        vendor: "Maker".to_string(),
        version: "2.1".to_string(),
        format: PluginFormat::Clap,
        path: "/p".to_string(),
        uid: "com.maker.synth".to_string(),
        num_inputs: 2,
        num_outputs: 2,
        has_editor: true,
    }
}

#[test]
fn scan_plugin_prefers_the_loaded_descriptor() {
    let l = TargetOs::Linux;
    let r = scan_plugin("/usr/lib/clap/Synth.clap", l, Some(described("Synth Pro"))).unwrap();
    assert_eq!(r.name, "Synth Pro");
    assert_eq!(r.vendor, "Maker");
    let r = scan_plugin("/usr/lib/clap/Synth.clap", l, None).unwrap();
    assert_eq!(r.name, "Synth");
    assert_eq!(r.vendor, "Unknown");
    // a descriptor is used for CLAP plugins only
    let r = scan_plugin("/usr/lib/vst3/Verb.vst3", l, Some(described("Other"))).unwrap();
    assert_eq!(r.name, "Verb");
    assert_eq!(r.format, PluginFormat::Vst3);
    assert!(scan_plugin("/usr/lib/readme.txt", l, Some(described("X"))).is_none());
}
