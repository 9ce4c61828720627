use prism_llae::duplex::make_duplex;
use prism_llae::{Processor, SampleFormat, StreamFormat, StreamInfo, StreamStats};

struct Inverter {
    periods: usize,
    started: bool,
}

impl Processor for Inverter {
    fn process(&mut self, input: &[u32], output: &mut [u32], channels: usize) {
        assert_eq!(input.len(), output.len());
        assert_eq!(channels, 2);
        assert!(output.iter().all(|o| *o == 0));
        for (o, i) in output.iter_mut().zip(input) {
            *o = (-f32::from_bits(*i)).to_bits();
        }
        self.periods += 1;
    }

    fn on_start(&mut self, _info: &StreamInfo) {
        self.started = true;
    }
}

#[derive(Default)]
struct Recorder {
    heard: Vec<f32>,
}

impl Processor for Recorder {
    fn process(&mut self, input: &[u32], _output: &mut [u32], _channels: usize) {
        self.heard.extend(input.iter().map(|s| f32::from_bits(*s)));
    }
}

fn average(frame: &[u32]) -> u32 {
    let sum: f32 = frame.iter().map(|s| f32::from_bits(*s)).sum();
    (sum / frame.len() as f32).to_bits()
}

fn bytes16(v: &[i16]) -> Vec<u8> {
    v.iter().flat_map(|s| s.to_le_bytes()).collect()
}

fn words16(v: &[u8]) -> Vec<i16> {
    v.chunks(2).map(|c| i16::from_le_bytes([c[0], c[1]])).collect()
}

#[test]
fn captured_samples_come_out_behind_the_priming_silence() {
    let f = StreamFormat::new(48_000, 2, SampleFormat::I16);
    let proc = Inverter { periods: 0, started: false };
    let (mut sink, mut source, mut slots) = make_duplex(f, f, 2, 8, 1, proc);
    assert_eq!(slots.len(), 16);
    let mut stats = StreamStats::default();
    let packet = bytes16(&[8192, -8192, 16384, 0]);
    let tail = source.cons.tail();
    sink.submit(&mut slots, tail, &mut stats, &packet, 2, false, &average);
    assert_eq!((stats.capture_calls, stats.capture_frames, stats.overruns), (1, 2, 0));

    let mut dst = vec![0u8; 8];
    let head = sink.prod.head();
    source.fill(&slots, head, &mut stats, &mut dst, 2);
    // one frame of silence, then the first captured frame, inverted
    assert_eq!(words16(&dst), vec![0, 0, -8191, 8191]);
    assert_eq!((stats.render_calls, stats.render_frames, stats.underruns), (1, 2, 0));

    // one frame is left: the period runs short and is filled up with silence
    source.fill(&slots, head, &mut stats, &mut dst, 2);
    assert_eq!(words16(&dst), vec![-16383, 0, 0, 0]);
    assert_eq!((stats.render_calls, stats.underruns), (2, 1));
    assert_eq!(source.proc.periods, 2);
}

#[test]
fn priming_delays_the_input_by_its_own_length() {
    let f = StreamFormat::new(48_000, 1, SampleFormat::F32);
    let (mut sink, mut source, mut slots) = make_duplex(f, f, 1, 16, 3, Recorder::default());
    let mut stats = StreamStats::default();
    let mut dst = vec![0u8; 8];
    for packet in [[0.5f32, -0.25], [0.125, 1.0], [-1.0, 0.75]] {
        let native: Vec<u8> = packet.iter().flat_map(|s| s.to_le_bytes()).collect();
        let tail = source.cons.tail();
        sink.submit(&mut slots, tail, &mut stats, &native, 2, false, &average);
        source.fill(&slots, sink.prod.head(), &mut stats, &mut dst, 2);
    }
    // three samples of silence, then the first three that were submitted
    assert_eq!(source.proc.heard, vec![0.0, 0.0, 0.0, 0.5, -0.25, 0.125]);
    assert_eq!((stats.underruns, stats.overruns), (0, 0));

    // the rest comes with the same delay, and silence where the ring runs out
    source.proc.heard.clear();
    let mut rest = vec![0u8; 20];
    source.fill(&slots, sink.prod.head(), &mut stats, &mut rest, 5);
    assert_eq!(source.proc.heard, vec![1.0, -1.0, 0.75, 0.0, 0.0]);
    assert_eq!(stats.underruns, 1);
}

#[test]
fn a_priming_as_long_as_the_ring_is_kept_whole() {
    let f = StreamFormat::new(48_000, 3, SampleFormat::F32);
    let (sink, source, slots) = make_duplex(f, f, 3, 5, 5, Recorder::default());
    assert_eq!((slots.len(), sink.prod.head() - source.cons.tail()), (16, 15));
    // a longer one is cut to what the ring holds
    let (sink, source, _) = make_duplex(f, f, 3, 5, 6, Recorder::default());
    assert_eq!(sink.prod.head() - source.cons.tail(), 16);
}

#[test]
fn a_packet_that_does_not_fit_is_an_overrun() {
    let f = StreamFormat::new(48_000, 1, SampleFormat::I16);
    let g = StreamFormat::new(48_000, 2, SampleFormat::I16);
    let proc = Inverter { periods: 0, started: false };
    let (mut sink, source, mut slots) = make_duplex(f, g, 2, 2, 0, proc);
    let mut stats = StreamStats::default();
    let packet = bytes16(&[1, 2, 3]);
    let tail = source.cons.tail();
    sink.submit(&mut slots, tail, &mut stats, &packet, 3, true, &average);
    assert_eq!((stats.overruns, stats.glitches, stats.capture_frames), (1, 1, 3));
    // mono is repeated on both channels, and the ring holds two frames
    assert_eq!(sink.prod.head(), 4);
    assert_eq!(slots[0], slots[1]);
    assert_eq!(f32::from_bits(slots[2]), 2.0 / 32_768.0);
}

#[test]
fn a_render_only_stream_hears_silence() {
    let f = StreamFormat::new(48_000, 2, SampleFormat::F32);
    let proc = Inverter { periods: 0, started: false };
    let (sink, mut source, slots) = make_duplex(f, f, 2, 16, 0, proc);
    let mut stats = StreamStats::default();
    let head = sink.prod.head();
    for period in 1..=5u64 {
        let mut dst = vec![1u8; 32];
        source.fill(&slots, head, &mut stats, &mut dst, 4);
        assert!(source.in_buf.iter().all(|s| *s == 0));
        assert_eq!(dst.chunks(4).filter(|c| *c == (-0.0f32).to_le_bytes()).count(), 8);
        assert_eq!(stats.render_calls, period);
        assert_eq!(stats.underruns, stats.render_calls);
    }
}

#[test]
fn a_primed_ring_is_heard_before_it_runs_short() {
    let f = StreamFormat::new(48_000, 2, SampleFormat::F32);
    let proc = Inverter { periods: 0, started: false };
    let (sink, mut source, slots) = make_duplex(f, f, 2, 16, 8, proc);
    let mut stats = StreamStats::default();
    let head = sink.prod.head();
    for period in 1..=5u64 {
        let mut dst = vec![1u8; 32];
        source.fill(&slots, head, &mut stats, &mut dst, 4);
        assert!(source.in_buf.iter().all(|s| *s == 0));
        assert_eq!(stats.underruns, period.saturating_sub(2));
    }
}

#[test]
fn the_processor_is_told_of_the_start() {
    let f = StreamFormat::new(48_000, 2, SampleFormat::F32);
    let proc = Inverter { periods: 0, started: false };
    let (_sink, mut source, _slots) = make_duplex(f, f, 2, 16, 4, proc);
    source.on_start(&StreamInfo {
        backend: prism_llae::Backend::WdmKs,
        share_mode: prism_llae::ShareMode::Exclusive,
        capture_format: None,
        render_format: f,
        channels: 2,
        period_frames: 4,
        capture_period_frames: 0,
    });
    assert!(source.proc.started);
}
