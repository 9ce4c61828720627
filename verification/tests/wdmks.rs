use prism_llae::wdmks::{
    candidate_pin, captured_frames, create_pin, filter_name, filter_selected, find_pin,
    has_channel_limit, is_audio_pcm, list_devices, match_pins, negotiate_pin_format, pin_created,
    plan_stream, submitted, wanted, FilterFacts, GlitchDetector, GlitchMode, PinFacts, PinMatch,
    PinWish, SPECIFIER_WAVEFORMATEX, TYPE_AUDIO,
};
use prism_llae::wfx::SUBTYPE_PCM;
use prism_llae::{EngineConfig, EngineError, SampleFormat, ShareMode, StreamFormat};

fn wide(s: &str) -> Vec<u16> {
    s.encode_utf16().chain(std::iter::once(0)).collect()
}

// the sixteen bytes of an identifier as they lie in memory
fn guid_bytes(id: u128) -> Vec<u8> {
    let mut b = ((id >> 96) as u32).to_le_bytes().to_vec();
    b.extend(((id >> 80) as u16).to_le_bytes());
    b.extend(((id >> 64) as u16).to_le_bytes());
    b.extend((id as u64).to_be_bytes());
    b
}

fn range(size: u32, sub: u128, channels: u32, bits: (u32, u32), rates: (u32, u32)) -> Vec<u8> {
    let mut b = size.to_le_bytes().to_vec();
    b.extend([0u8; 12]);
    b.extend(guid_bytes(TYPE_AUDIO));
    b.extend(guid_bytes(sub));
    b.extend(guid_bytes(SPECIFIER_WAVEFORMATEX));
    for v in [channels, bits.0, bits.1, rates.0, rates.1] {
        b.extend(v.to_le_bytes());
    }
    b.resize((b.len().max(size as usize) + 7) / 8 * 8, 0);
    b
}

fn answer(ranges: &[Vec<u8>]) -> Vec<u8> {
    let body: Vec<u8> = ranges.concat();
    let mut b = (8 + body.len() as u32).to_le_bytes().to_vec();
    b.extend((ranges.len() as u32).to_le_bytes());
    b.extend(body);
    b
}

fn negotiate(b: &[u8], rate: u32, ch: u16, force: Option<SampleFormat>) -> Option<StreamFormat> {
    assert!(has_channel_limit(b, b.len(), rate, force));
    negotiate_pin_format(b, b.len(), rate, ch, force)
}

#[test]
fn pcm_identifiers() {
    assert!(is_audio_pcm(TYPE_AUDIO, SUBTYPE_PCM, SPECIFIER_WAVEFORMATEX));
    assert!(is_audio_pcm(0, 0, 0));
    assert!(!is_audio_pcm(1, SUBTYPE_PCM, SPECIFIER_WAVEFORMATEX));
    assert!(!is_audio_pcm(TYPE_AUDIO, SUBTYPE_PCM + 1, 0));
    assert!(!is_audio_pcm(TYPE_AUDIO, 0, 7));
}

#[test]
fn formats_from_data_ranges() {
    let b = answer(&[range(84, SUBTYPE_PCM, 2, (16, 32), (8_000, 48_000))]);
    assert_eq!(b.len(), 8 + 88);
    assert_eq!(
        negotiate(&b, 48_000, 2, None),
        Some(StreamFormat::new(48_000, 2, SampleFormat::I16))
    );
    assert_eq!(
        negotiate(&b, 44_100, 6, Some(SampleFormat::I24)),
        Some(StreamFormat::new(44_100, 2, SampleFormat::I24))
    );
    assert_eq!(
        negotiate(&b, 44_100, 0, Some(SampleFormat::I32)),
        Some(StreamFormat::new(44_100, 1, SampleFormat::I32))
    );
    assert_eq!(
        negotiate(&b, 48_000, 1, Some(SampleFormat::F32)),
        Some(StreamFormat::new(48_000, 1, SampleFormat::I16))
    );
    assert_eq!(negotiate(&b, 96_000, 2, None), None);
    assert_eq!(negotiate(&b, 4_000, 2, None), None);
}

#[test]
fn later_ranges_are_reached_by_their_stride() {
    let b = answer(&[
        range(84, SUBTYPE_PCM + 2, 2, (32, 32), (1, 200_000)),
        range(100, SUBTYPE_PCM, 2, (16, 16), (44_100, 44_100)),
        range(84, SUBTYPE_PCM, 8, (24, 24), (48_000, 48_000)),
    ]);
    assert_eq!(
        negotiate(&b, 48_000, 7, None),
        Some(StreamFormat::new(48_000, 7, SampleFormat::I24))
    );
    // no range that covers the rate has the depth
    assert_eq!(negotiate(&b, 48_000, 7, Some(SampleFormat::I16)), None);
    // a range that would run past the end ends the search
    let cut = &b[..b.len() - 8];
    assert_eq!(negotiate(cut, 48_000, 7, None), None);
    assert!(negotiate(cut, 44_100, 2, None).is_some());
}

#[test]
fn short_answers_offer_nothing() {
    let b = answer(&[range(84, SUBTYPE_PCM, 2, (16, 16), (1, 200_000))]);
    assert_eq!(negotiate_pin_format(&b, 7, 48_000, 2, None), None);
    assert_eq!(negotiate_pin_format(&b[..7], 8, 48_000, 2, None), None);
    assert_eq!(negotiate_pin_format(&answer(&[]), 8, 48_000, 2, None), None);
    let odd = answer(&[range(84, SUBTYPE_PCM, 0x1_0000, (16, 16), (1, 200_000))]);
    assert!(!has_channel_limit(&odd, odd.len(), 48_000, None));
    assert!(!has_channel_limit(&odd, odd.len(), 48_000, Some(SampleFormat::I24)));
    assert!(has_channel_limit(&odd, odd.len(), 300_000, None));
}

#[test]
fn ranges_without_the_forced_depth_are_passed_over() {
    let good = range(84, SUBTYPE_PCM, 2, (16, 16), (44_100, 48_000));
    let b = answer(&[good.clone(), range(84, SUBTYPE_PCM, 2, (24, 24), (44_100, 48_000))]);
    for (force, want) in [
        (None, Some(SampleFormat::I16)),
        (Some(SampleFormat::I16), Some(SampleFormat::I16)),
        (Some(SampleFormat::I24), Some(SampleFormat::I24)),
        (Some(SampleFormat::I32), None),
    ] {
        let got = negotiate(&b, 48_000, 2, force);
        assert_eq!(got, want.map(|sf| StreamFormat::new(48_000, 2, sf)));
    }
    // a limit matters only where its range is read
    let odd = answer(&[good, range(84, SUBTYPE_PCM, 0x1_0000, (24, 24), (1, 200_000))]);
    assert!(has_channel_limit(&odd, odd.len(), 48_000, None));
    assert!(!has_channel_limit(&odd, odd.len(), 48_000, Some(SampleFormat::I24)));
}

#[test]
fn candidate_pins() {
    assert!(candidate_pin(1, 1, true));
    assert!(candidate_pin(3, 2, false));
    assert!(!candidate_pin(1, 1, false));
    assert!(!candidate_pin(2, 1, true));
    assert!(!candidate_pin(0, 0, true));
}

fn pin(communication: u32, dataflow: u32, ranges: &[Vec<u8>]) -> PinFacts {
    let b = answer(ranges);
    let got = b.len();
    PinFacts { communication, dataflow, ranges: Some((b, got)) }
}

#[test]
fn the_first_fitting_pin_of_the_first_selected_filter_is_found() {
    let good = range(84, SUBTYPE_PCM, 2, (16, 24), (48_000, 48_000));
    let poor = range(84, SUBTYPE_PCM, 2, (16, 24), (8_000, 8_000));
    let wish = PinWish { render: true, rate: 48_000, channels: 2, force: None };
    let pins = vec![
        pin(1, 2, &[good.clone()]),
        PinFacts { communication: 1, dataflow: 1, ranges: None },
        pin(1, 1, &[poor.clone()]),
        pin(3, 1, &[good.clone()]),
    ];
    let format = StreamFormat::new(48_000, 2, SampleFormat::I16);
    assert_eq!(match_pins(&pins, wish), Some(PinMatch { pin_id: 3, format }));

    let paths = vec![wide("x_out_1"), wide("y_out_2"), wide("z_out_2")];
    let probe = |i: usize| -> Option<Vec<PinFacts>> {
        match i {
            0 => Some(vec![pin(1, 1, &[good.clone()])]),
            1 => None,
            _ => Some(vec![pin(1, 1, &[poor.clone()]), pin(1, 1, &[good.clone()])]),
        }
    };
    assert!(matches!(find_pin(&paths, None, wish, &probe), Ok((0, m)) if m.pin_id == 0));
    assert!(matches!(find_pin(&paths, Some("out_2"), wish, &probe), Ok((2, m)) if m.pin_id == 1));
    assert!(matches!(find_pin(&paths, Some("out_2\0"), wish, &probe), Ok((2, _))));
    assert!(matches!(find_pin(&paths, Some("none"), wish, &probe), Err(EngineError::PinNotFound)));
    let other = PinWish { rate: 44_100, ..wish };
    assert!(matches!(find_pin(&paths, None, other, &probe), Err(EngineError::PinNotFound)));
}

#[test]
fn filters_are_selected_by_a_part_of_their_path() {
    assert!(filter_selected(&wide("abc"), None));
    assert!(filter_selected(&wide("abc"), Some("bc\0\0")));
    assert!(!filter_selected(&wide("abc"), Some("BC")));
}

#[test]
fn filters_are_listed_by_direction() {
    let filters = vec![
        FilterFacts { path: wide("p"), name: "Card".to_string(), pins: vec![(1, 1), (3, 2)] },
        FilterFacts { path: wide("q"), name: "Mixer".to_string(), pins: vec![(2, 1), (1, 7)] },
        FilterFacts { path: wide("r"), name: "Mic".to_string(), pins: vec![(1, 2), (1, 2)] },
    ];
    let got: Vec<(String, String, bool)> =
        list_devices(&filters).into_iter().map(|d| (d.id, d.name, d.is_capture)).collect();
    assert_eq!(
        got,
        vec![
            ("p\0".to_string(), "Card (render)".to_string(), false),
            ("p\0".to_string(), "Card (capture)".to_string(), true),
            ("r\0".to_string(), "Mic (capture)".to_string(), true),
        ]
    );
}

#[test]
fn filters_are_named_after_their_properties() {
    let friendly = Some(wide("Friendly"));
    let described = Some(wide("Described"));
    assert_eq!(filter_name(&friendly, &described), "Friendly");
    assert_eq!(filter_name(&Some(wide("")), &described), "Described");
    assert_eq!(filter_name(&None, &described), "Described");
    // a text without an end is no text
    assert_eq!(filter_name(&Some(vec![65, 66]), &None), "<ks audio>");
}

#[test]
fn connection_requests() {
    let f = StreamFormat::new(48_000, 2, SampleFormat::I24);
    let r = create_pin(3, f, true);
    assert_eq!((r.pin_id, r.access, r.format_size, r.sample_size), (3, 0x4000_0000, 82, 6));
    assert_eq!((r.priority_class, r.priority_sub_class), (1, 1));
    assert_eq!(r.interface.set, 0x1a8766a0_62ce_11cf_a5d6_28db04c10000);
    assert_eq!(r.medium.set, 0x4747b320_62ce_11cf_a5d6_28db04c10000);
    assert_eq!((r.major_format, r.sub_format), (TYPE_AUDIO, SUBTYPE_PCM));
    assert_eq!(r.specifier, SPECIFIER_WAVEFORMATEX);
    assert_eq!((r.wave.format_tag, r.wave.block_align, r.wave.extra_size), (1, 6, 0));
    assert_eq!((r.wave.avg_bytes_per_sec, r.wave.bits_per_sample), (288_000, 24));
    assert_eq!(create_pin(3, f, false).access, 0x8000_0000);
}

#[test]
fn refused_connections() {
    let f = StreamFormat::new(48_000, 2, SampleFormat::I24);
    assert!(pin_created(0, true, f).is_ok());
    match pin_created(0xC000_00BB, true, f) {
        Err(EngineError::Backend(s)) => {
            assert_eq!(s, "KsCreatePin failed (status 0xc00000bb) for 48000 Hz, 2 ch, i24")
        }
        _ => panic!("another outcome"),
    }
    match pin_created(0, false, f) {
        Err(EngineError::Backend(s)) => {
            assert_eq!(s, "KsCreatePin failed (status 0x00000000) for 48000 Hz, 2 ch, i24")
        }
        _ => panic!("another outcome"),
    }
}

#[test]
fn pending_buffers_are_on_their_way() {
    assert!(submitted(None));
    assert!(submitted(Some(0x8007_03E5u32 as i32)));
    assert!(!submitted(Some(0x8007_001Fu32 as i32)));
}

#[test]
fn captured_bytes_count_in_whole_frames() {
    assert_eq!(captured_frames(25, 6), Some(4));
    assert_eq!(captured_frames(6, 6), Some(1));
    assert_eq!(captured_frames(5, 6), None);
}

#[test]
fn glitches_by_time_stamp() {
    let mut d = GlitchDetector::new(48_000, 480);
    // 480 frames last 100000 units; half a period late is still on time
    assert!(d.can_observe(16, 0, 480));
    assert!(!d.observe(16, 0, 480, false).glitch);
    assert_eq!(d.mode, Some(GlitchMode::Timestamp { next_expected_pts: 100_000 }));
    assert!(!d.observe(16, 150_000, 480, false).glitch);
    assert!(d.observe(16, 300_001, 480, false).glitch);
    assert!(!d.observe(16, 400_001, 480, true).glitch);
    assert!(d.observe(16 | 4, 500_001, 480, false).glitch);
    assert!(d.observe(64, 600_001, 480, false).glitch);
    assert!(!d.can_observe(16, i64::MAX, 480));
}

#[test]
fn glitches_by_clock() {
    let mut d = GlitchDetector::new(48_000, 32);
    let first = d.observe(0, 0, 32, true);
    assert!(!first.glitch && first.restart_clock);
    assert_eq!(d.frames_on_clock(32), Some(32));
    let second = d.observe(0, 0, 32, false);
    assert!(!second.glitch && !second.restart_clock);
    assert_eq!(d.frames_on_clock(10), Some(42));
    let third = d.observe(0, 0, 32, true);
    assert!(third.glitch && third.restart_clock);
    assert_eq!(d.mode, Some(GlitchMode::WallClock { frames_total: 0 }));
    assert!(d.observe(4, 0, 32, false).glitch);
    assert_eq!(GlitchDetector::new(0, 32).rate, 1);
}

#[test]
fn open_choices_are_completed() {
    let w = wanted(&EngineConfig::default());
    assert_eq!((w.rate, w.channels, w.period_frames), (48_000, 2, 256));
    let c = EngineConfig { sample_rate: 96_000, channels: 1, buffer_frames: 32, ..Default::default() };
    let w = wanted(&c);
    assert_eq!((w.rate, w.channels, w.period_frames), (96_000, 1, 32));
}

#[test]
fn stream_plans() {
    let render = StreamFormat::new(48_000, 2, SampleFormat::I24);
    let capture = StreamFormat::new(48_000, 1, SampleFormat::I16);
    let p = plan_stream(32, render, Some(capture));
    assert_eq!((p.ring_frames, p.prime_frames, p.proc_ch), (512, 64, 2));
    assert_eq!(p.info.share_mode, ShareMode::Exclusive);
    assert_eq!((p.info.capture_format, p.info.capture_period_frames), (Some(capture), 32));
    let p = plan_stream(256, render, None);
    assert_eq!((p.info.capture_format, p.info.capture_period_frames), (None, 0));
    assert_eq!((p.capture_format, p.ring_frames, p.prime_frames), (render, 4096, 0));
}
