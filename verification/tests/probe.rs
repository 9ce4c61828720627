use prism_llae::probe::{
    delivered_periods, hit_stats, hits_summary, no_hits_summary, trials_to_run, HitStats,
    LatencyFigures, LatencyProbe, Phase, ProbeEvent, IMPULSE, LEAST_THRESHOLD,
};
use prism_llae::{Backend, SampleFormat, ShareMode, StatsSnapshot, StreamFormat, StreamInfo};

fn started(trials: usize, rate: u32, channels: u16) -> LatencyProbe {
    let mut p = LatencyProbe::new(trials);
    p.on_start(&StreamInfo {
        backend: Backend::Wasapi,
        share_mode: ShareMode::Shared,
        capture_format: None,
        render_format: StreamFormat::new(rate, channels, SampleFormat::F32),
        channels,
        period_frames: 10,
        capture_period_frames: 0,
    });
    p
}

fn bits(v: &[f32]) -> Vec<u32> {
    v.iter().map(|s| s.to_bits()).collect()
}

#[test]
fn constants_are_the_intended_numbers() {
    assert_eq!(f32::from_bits(IMPULSE), 1.0);
    assert_eq!(f32::from_bits(LEAST_THRESHOLD), 0.06);
    assert_eq!(f32::from_bits(LatencyProbe::new(1).threshold), 0.1);
    assert_eq!((trials_to_run(0), trials_to_run(1), trials_to_run(9)), (1, 1, 9));
}

#[test]
fn a_new_probe_and_its_start() {
    let p = LatencyProbe::new(3);
    assert_eq!((p.rate, p.channels, p.trials_left), (48_000, 2, 3));
    let p = started(3, 44_100, 1);
    assert_eq!((p.rate, p.channels), (44_100, 1));
    assert_eq!((p.warmup_frames, p.timeout_frames, p.cooldown_frames), (22_050, 22_050, 8_820));
}

#[test]
fn scans_find_the_first_greatest_magnitude() {
    let p = started(1, 48_000, 2);
    let (peak, at) = p.scan(&bits(&[0.1, -0.5, 0.2, 0.5, f32::NAN, 0.3]));
    assert_eq!((f32::from_bits(peak), at), (0.5, 0));
    let (peak, at) = p.scan(&bits(&[0.0, 0.0, 0.0, 0.0, 0.0, -0.25]));
    assert_eq!((f32::from_bits(peak), at), (0.25, 2));
    assert_eq!(p.scan(&bits(&[0.0, -0.0])), (0, 0));
    assert_eq!(p.scan(&[]), (0, 0));
    let (peak, at) = p.scan(&bits(&[1.0, f32::NEG_INFINITY]));
    assert_eq!((f32::from_bits(peak), at), (f32::INFINITY, 0));
}

#[test]
fn thresholds_follow_the_noise() {
    for noise in [0.0f32, 1e-44, 1e-30, 0.001, 0.0074, 0.0076, 0.01, 0.9, 1e38, f32::INFINITY] {
        let mut p = started(1, 48_000, 1);
        p.frame_pos = p.warmup_frames;
        let mut out = vec![1u32; 4];
        let event = p.process(&bits(&[noise, 0.0, 0.0, 0.0]), &mut out);
        let want = (noise * 8.0).max(0.06);
        assert_eq!(
            event,
            Some(ProbeEvent::Calibrated { noise_floor: noise.to_bits(), threshold: want.to_bits() }),
            "{noise}"
        );
        assert_eq!(p.phase, Phase::Arm);
        assert_eq!(out, vec![0; 4]);
    }
}

// a loopback that returns the output after `delay` frames
fn measure(delay: usize, trials: usize) -> (Vec<u32>, usize, LatencyProbe) {
    let mut p = started(trials, 1_000, 2);
    let mut line: Vec<u32> = vec![0; delay * 2];
    let (mut hits, mut misses) = (Vec::new(), 0);
    for _ in 0..100_000 {
        let input: Vec<u32> = line.drain(..20).collect();
        let mut output = vec![5u32; 20];
        let event = p.process(&input, &mut output);
        line.extend(&output);
        match event {
            Some(ProbeEvent::Hit { frames }) => hits.push(frames),
            Some(ProbeEvent::Miss) => misses += 1,
            Some(ProbeEvent::Done) => break,
            _ => {}
        }
    }
    (hits, misses, p)
}

#[test]
fn a_loopback_is_measured_to_the_frame() {
    for delay in [10usize, 11, 37, 123, 499] {
        let (hits, misses, p) = measure(delay, 4);
        assert_eq!(hits, vec![delay as u32; 4], "delay {delay}");
        assert_eq!(misses, 0);
        assert_eq!(p.trials_left, 0);
    }
}

#[test]
fn a_lost_click_is_a_miss() {
    let mut p = started(2, 1_000, 1);
    let silence = vec![0u32; 100];
    let mut events = Vec::new();
    for _ in 0..60 {
        let mut out = vec![1u32; 100];
        if let Some(e) = p.process(&silence, &mut out) {
            events.push(e);
            if e == ProbeEvent::Done {
                break;
            }
        }
    }
    let least = ProbeEvent::Calibrated { noise_floor: 0, threshold: LEAST_THRESHOLD };
    assert_eq!(events, vec![least, ProbeEvent::Miss, ProbeEvent::Miss, ProbeEvent::Done]);
    assert_eq!(p.trials_left, 0);
}

#[test]
fn the_click_is_one_frame_on_all_channels() {
    let mut p = started(1, 48_000, 3);
    p.phase = Phase::Arm;
    let mut out = vec![9u32; 9];
    assert_eq!(p.process(&[0; 9], &mut out), None);
    assert_eq!(out, vec![IMPULSE, IMPULSE, IMPULSE, 0, 0, 0, 0, 0, 0]);
    assert_eq!(p.phase, Phase::Listen { out_frame: 0, deadline: 24_000 });
    assert_eq!(p.frame_pos, 3);
}

#[test]
fn figures_of_the_hits() {
    assert_eq!(hit_stats(&[]), None);
    assert_eq!(
        hit_stats(&[5]),
        Some(HitStats { min: 5, median: 5, sum: 5, count: 1, max: 5 })
    );
    assert_eq!(
        hit_stats(&[9, 1, 7, 3]),
        Some(HitStats { min: 1, median: 7, sum: 20, count: 4, max: 9 })
    );
    assert_eq!(
        hit_stats(&[2, 2, u32::MAX]),
        Some(HitStats { min: 2, median: 2, sum: 4 + u32::MAX as u128, count: 3, max: u32::MAX })
    );
}

#[test]
fn delivered_render_periods() {
    let s = |render_calls, underruns| StatsSnapshot { render_calls, underruns, ..Default::default() };
    assert_eq!(delivered_periods(&s(100, 15)), 85);
    assert_eq!(delivered_periods(&s(0, 0)), 0);
    assert_eq!(delivered_periods(&s(3, 5)), 0);
}

#[test]
fn summaries() {
    let text = |s: &str| s.to_string();
    let h = HitStats { min: 455, median: 456, sum: 1367, count: 3, max: 456 };
    let f = LatencyFigures {
        mean: text("455.7"),
        min_ms: text("9.48"),
        median_ms: text("9.50"),
        mean_ms: text("9.49"),
        max_ms: text("9.50"),
    };
    assert_eq!(
        hits_summary(&h, 2, &f),
        "\nroundtrip latency over 3 hits (2 misses):\n  min    :    455 frames     9.48 ms\n  median :    456 frames     9.50 ms\n  mean   :     455.7 frames     9.49 ms\n  max    :    456 frames     9.50 ms\n"
    );
    assert_eq!(
        no_hits_summary(true, "12", 4),
        "\nThe input is only delivering 12% of the frames the output consumes, so\nthe captured stream is mostly silence and no impulse can be detected.\nFor KS this is a capture-pin limitation on some devices; otherwise check routing.\n"
    );
    assert_eq!(
        no_hits_summary(false, "100", 4),
        "\nNo impulses detected (4 misses), but both directions were streaming at full\nrate. The output is most likely not routed back to the input. Provide a loopback\npath (cable or the interface's loopback input) via --out / --in / --out-ch.\n"
    );
}
