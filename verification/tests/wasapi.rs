use prism_llae::wasapi::{
    aligned_period, candidates, drift_warning, exclusive_period, exclusive_rate, frames_to_hns,
    list_devices, mix_format, mix_rate_channels, negotiate_exclusive, no_exclusive_format,
    pick_device, plan_stream, render_frames, shared_period, wants_alignment, EndpointName,
    ExclusiveSetup, Opened, PacketFlags, SetupStep, NOT_ALIGNED,
};
use prism_llae::wfx::{WaveFormat, WAVE_FORMAT_PCM};
use prism_llae::{EngineConfig, EngineError, SampleFormat, ShareMode, StreamFormat};

fn text(s: &str) -> String {
    s.to_string()
}

#[test]
fn endpoints_are_listed_render_first() {
    let render = vec![EndpointName { id: text("r1"), name: Some(text("Speakers")) }];
    let capture = vec![
        EndpointName { id: text("c1"), name: None },
        EndpointName { id: text("c2"), name: Some(text("Mic")) },
    ];
    let got: Vec<(String, String, bool)> = list_devices(&render, &capture)
        .into_iter()
        .map(|d| (d.id, d.name, d.is_capture))
        .collect();
    assert_eq!(
        got,
        vec![
            (text("r1"), text("Speakers"), false),
            (text("c1"), text("<unknown>"), true),
            (text("c2"), text("Mic"), true),
        ]
    );
}

#[test]
fn devices_are_picked_by_id() {
    let ids = vec![text("a"), text("b"), text("b")];
    assert!(matches!(pick_device(&ids, "b"), Ok(1)));
    assert!(matches!(pick_device(&ids, "B"), Err(EngineError::NoDevice)));
}

#[test]
fn durations_round_to_nearest() {
    assert_eq!(frames_to_hns(480, 48_000), 100_000);
    assert_eq!(frames_to_hns(441, 44_100), 100_000);
    assert_eq!(frames_to_hns(1, 48_000), 208);
    assert_eq!(frames_to_hns(144, 48_000), 30_000);
    assert_eq!(frames_to_hns(1, 3), 3_333_333);
    assert_eq!(frames_to_hns(2, 3), 6_666_667);
    assert_eq!(frames_to_hns(0, 1), 0);
    assert_eq!(frames_to_hns(u32::MAX, 1), 42_949_672_950_000_000);
}

#[test]
fn shared_periods_are_multiples_within_limits() {
    assert_eq!(shared_period(0, 16, 128, 480), 128);
    assert_eq!(shared_period(200, 16, 128, 480), 208);
    assert_eq!(shared_period(199, 16, 128, 480), 192);
    assert_eq!(shared_period(10, 16, 128, 480), 128);
    assert_eq!(shared_period(5000, 16, 128, 480), 480);
    assert_eq!(shared_period(300, 0, 128, 480), 300);
}

#[test]
fn exclusive_formats_are_tried_by_fidelity() {
    let all = candidates(48_000, 0, 2, None);
    let kinds: Vec<(SampleFormat, u16, u16)> =
        all.iter().map(|f| (f.sample_format, f.valid_bits, f.channels)).collect();
    assert_eq!(
        kinds,
        vec![
            (SampleFormat::I24, 24, 2),
            (SampleFormat::I32, 24, 2),
            (SampleFormat::I32, 32, 2),
            (SampleFormat::I16, 16, 2),
            (SampleFormat::F32, 32, 2),
        ]
    );
    let both = candidates(48_000, 1, 2, Some(SampleFormat::I32));
    let kinds: Vec<(u16, u16)> = both.iter().map(|f| (f.channels, f.valid_bits)).collect();
    assert_eq!(kinds, vec![(1, 24), (1, 32), (2, 24), (2, 32)]);
    assert!(both.iter().all(|f| f.sample_format == SampleFormat::I32));
    assert_eq!(candidates(48_000, 2, 2, None).len(), 5);
}

#[test]
fn the_first_accepted_format_is_taken() {
    let sixteen = |w: &WaveFormat| w.bits_per_sample == 16;
    let got = negotiate_exclusive(44_100, 1, 2, None, &sixteen).unwrap();
    assert_eq!((got.sample_format, got.channels), (SampleFormat::I16, 1));
    let none = |_: &WaveFormat| false;
    assert_eq!(negotiate_exclusive(44_100, 1, 2, None, &none), None);
    let stereo = |w: &WaveFormat| w.channels == 2;
    let got = negotiate_exclusive(44_100, 1, 2, Some(SampleFormat::F32), &stereo).unwrap();
    assert_eq!((got.sample_format, got.channels), (SampleFormat::F32, 2));
    match no_exclusive_format(44_100) {
        EngineError::FormatNotSupported(s) => assert_eq!(s, "no exclusive PCM format at 44100 Hz"),
        _ => panic!("another error"),
    }
}

#[test]
fn exclusive_rate_and_period() {
    let mut c = EngineConfig::default();
    assert_eq!(exclusive_rate(&c, 44_100), 44_100);
    c.sample_rate = 96_000;
    assert_eq!(exclusive_rate(&c, 44_100), 96_000);
    assert_eq!(exclusive_period(0, 48_000, 30_000), 30_000);
    assert_eq!(exclusive_period(480, 48_000, 30_000), 100_000);
    assert_eq!(exclusive_period(48, 48_000, 30_000), 30_000);
}

#[test]
fn only_a_misaligned_buffer_is_tried_again() {
    assert!(wants_alignment(NOT_ALIGNED));
    assert!(wants_alignment(0x8889_0019u32 as i32));
    assert!(!wants_alignment(0x8889_0008u32 as i32));
    assert_eq!(aligned_period(144, 48_000), Some(30_000));
    assert_eq!(aligned_period(0, 48_000), None);
}

#[test]
fn exclusive_setups() {
    let mut s = ExclusiveSetup::new(48_000, 30_000);
    assert_eq!(s.step, SetupStep::Initialize { period: 30_000 });
    s.initialized(None);
    assert_eq!(s.step, SetupStep::Ready);

    let mut s = ExclusiveSetup::new(48_000, 30_000);
    s.initialized(Some(NOT_ALIGNED));
    assert_eq!(s.step, SetupStep::AskAlignment);
    s.aligned(160);
    assert_eq!(s.step, SetupStep::Reset { period: 33_333 });
    s.reset(true);
    assert_eq!(s.step, SetupStep::Initialize { period: 33_333 });
    // there is no third try
    s.initialized(Some(NOT_ALIGNED));
    assert_eq!(s.step, SetupStep::Refused);

    let mut s = ExclusiveSetup::new(48_000, 30_000);
    s.initialized(Some(-1));
    assert_eq!(s.step, SetupStep::Refused);
    let mut s = ExclusiveSetup::new(48_000, 30_000);
    s.initialized(Some(NOT_ALIGNED));
    s.aligned(0);
    assert_eq!(s.step, SetupStep::Refused);
    let mut s = ExclusiveSetup::new(48_000, 30_000);
    s.initialized(Some(NOT_ALIGNED));
    s.aligned(1);
    s.reset(false);
    assert_eq!(s.step, SetupStep::Refused);
}

#[test]
fn mix_formats() {
    let mut w = WaveFormat {
        format_tag: WAVE_FORMAT_PCM,
        channels: 2,
        samples_per_sec: 44_100,
        avg_bytes_per_sec: 176_400,
        block_align: 4,
        bits_per_sample: 16,
        extra_size: 0,
        extension: None,
    };
    assert!(matches!(mix_rate_channels(&w), Ok((44_100, 2))));
    assert_eq!(mix_format(&w).ok().unwrap(), StreamFormat::new(44_100, 2, SampleFormat::I16));
    w.format_tag = 99;
    match mix_format(&w) {
        Err(EngineError::FormatNotSupported(s)) => assert_eq!(s, "mix format"),
        _ => panic!("another outcome"),
    }
}

#[test]
fn packet_flags() {
    let mut p = PacketFlags::new();
    let first = p.read(1, true);
    assert!(!first.discontinuity && !first.silent);
    let second = p.read(1, true);
    assert!(second.discontinuity && !second.silent);
    let third = p.read(2, true);
    assert!(!third.discontinuity && third.silent);
    let fourth = p.read(4, false);
    assert!(!fourth.discontinuity && fourth.silent);
    assert!(p.read(3, true).discontinuity);
}

#[test]
fn frames_to_render() {
    assert_eq!(render_frames(true, 144, 100), 144);
    assert_eq!(render_frames(false, 480, 100), 380);
    assert_eq!(render_frames(false, 480, 480), 0);
}

#[test]
fn a_stream_with_capture() {
    let config = EngineConfig { share_mode: ShareMode::Exclusive, ..EngineConfig::default() };
    let render = Opened { format: StreamFormat::new(48_000, 2, SampleFormat::I24), buffer_frames: 144 };
    let capture = Opened { format: StreamFormat::new(44_100, 1, SampleFormat::I16), buffer_frames: 160 };
    let p = plan_stream(&config, render, Some(capture));
    assert_eq!(p.info.share_mode, ShareMode::Exclusive);
    assert_eq!(p.info.capture_format, Some(capture.format));
    assert_eq!((p.info.period_frames, p.info.capture_period_frames), (144, 160));
    assert_eq!((p.ring_frames, p.prime_frames, p.proc_ch), (1024, 144, 2));
    assert!(p.drift);
    assert_eq!(
        drift_warning(44_100, 48_000),
        "warning: capture 44100 Hz != render 48000 Hz; duplex will drift"
    );
}

#[test]
fn a_render_only_stream() {
    let config = EngineConfig::default();
    let render = Opened { format: StreamFormat::new(48_000, 2, SampleFormat::F32), buffer_frames: 480 };
    let p = plan_stream(&config, render, None);
    assert_eq!(p.info.capture_format, None);
    assert_eq!(p.info.capture_period_frames, 0);
    assert_eq!(p.capture_format, render.format);
    assert_eq!((p.ring_frames, p.prime_frames), (2048, 0));
    assert!(!p.drift);
}
