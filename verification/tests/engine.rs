use prism_llae::engine::{accept_capture, wants_capture};
use prism_llae::{
    list_devices, Backend, EngineConfig, EngineError, Inventory, SampleFormat, ShareMode,
    StreamFormat, StreamInfo, StreamStats,
};

fn info() -> StreamInfo {
    StreamInfo {
        backend: Backend::Wasapi,
        share_mode: ShareMode::Shared,
        capture_format: None,
        render_format: StreamFormat::new(48_000, 2, SampleFormat::F32),
        channels: 2,
        period_frames: 480,
        capture_period_frames: 144,
    }
}

#[test]
fn default_configuration_leaves_all_to_the_device() {
    let c = EngineConfig::default();
    assert_eq!(c.backend, Backend::Wasapi);
    assert_eq!(c.share_mode, ShareMode::Shared);
    assert_eq!((c.sample_rate, c.channels, c.buffer_frames), (0, 0, 0));
    assert_eq!((c.input_channel, c.output_channel), (0, 0));
    assert!(c.capture_device.is_none() && c.render_device.is_none());
    assert!(c.force_format.is_none());
    assert!(!c.output_only);
}

#[test]
fn nominal_buffering_is_both_periods() {
    assert_eq!(info().nominal_buffer_frames(), 624);
}

#[test]
fn snapshot_copies_every_counter() {
    let s = StreamStats {
        underruns: 1,
        overruns: 2,
        glitches: 3,
        render_calls: 4,
        capture_calls: 5,
        capture_frames: 6,
        render_frames: 7,
    };
    let t = s.snapshot();
    assert_eq!((t.underruns, t.overruns, t.glitches), (1, 2, 3));
    assert_eq!((t.render_calls, t.capture_calls), (4, 5));
    assert_eq!((t.capture_frames, t.render_frames), (6, 7));
    let z = StreamStats::default().snapshot();
    assert_eq!((z.underruns, z.glitches, z.render_frames), (0, 0, 0));
}

#[test]
fn missing_default_capture_is_graceful_but_a_named_one_is_not() {
    let open = EngineConfig::default();
    let named = EngineConfig { capture_device: Some("Mic".to_string()), ..EngineConfig::default() };
    assert!(wants_capture(&open) && wants_capture(&named));
    assert!(matches!(accept_capture(&open, Some(Ok(5))), Ok(Some(5))));
    assert!(matches!(accept_capture::<u8>(&open, Some(Err(EngineError::NoDevice))), Ok(None)));
    assert!(matches!(accept_capture::<u8>(&open, None), Ok(None)));
    assert!(matches!(accept_capture(&named, Some(Ok(5))), Ok(Some(5))));
    assert!(matches!(
        accept_capture::<u8>(&named, Some(Err(EngineError::PinNotFound))),
        Err(EngineError::PinNotFound)
    ));
}

#[test]
fn an_output_only_stream_captures_from_nothing() {
    for name in [None, Some("Mic".to_string())] {
        let config =
            EngineConfig { capture_device: name, output_only: true, ..EngineConfig::default() };
        assert!(!wants_capture(&config));
        assert!(matches!(accept_capture::<u8>(&config, None), Ok(None)));
        assert!(matches!(accept_capture(&config, Some(Ok(5))), Ok(None)));
        assert!(matches!(
            accept_capture::<u8>(&config, Some(Err(EngineError::NoDevice))),
            Ok(None)
        ));
    }
}

#[test]
fn error_messages() {
    assert_eq!(EngineError::NoDevice.message_with(""), "no matching audio device found");
    assert_eq!(
        EngineError::FormatNotSupported("x".to_string()).message_with(""),
        "format not supported: x"
    );
    assert_eq!(
        EngineError::PinNotFound.message_with(""),
        "no suitable kernel-streaming pin found"
    );
    assert_eq!(
        EngineError::Config("bad".to_string()).message_with(""),
        "invalid configuration: bad"
    );
    assert_eq!(EngineError::Backend("b".to_string()).message_with(""), "backend error: b");
    let e = EngineError::from(windows_core::Error::OK);
    assert!(matches!(e, EngineError::Windows(_)));
    assert_eq!(e.message_with("code"), "windows error: code");
}

#[test]
fn an_empty_inventory_lists_nothing() {
    assert!(list_devices(&Inventory::Asio(Vec::new())).is_empty());
    assert!(list_devices(&Inventory::WdmKs(Vec::new())).is_empty());
    assert!(list_devices(&Inventory::Wasapi { render: Vec::new(), capture: Vec::new() }).is_empty());
}
