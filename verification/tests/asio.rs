use prism_llae::asio::{
    asio_message, buffer_half, bytes_of_type, list_devices, pick_driver, read_sample,
    sample_format_of, valid_bits_of, write_sample, AsioRuntime, Driver, NullProc,
};
use prism_llae::{EngineConfig, Processor, SampleFormat, StreamStats};

const TYPES: [i32; 8] = [16, 17, 18, 19, 24, 25, 26, 27];

fn drivers() -> Vec<Driver> {
    vec![
        Driver { name: "Realtek ASIO".to_string(), clsid: 0x1 },
        Driver {
            name: "Arturia MiniFuse".to_string(),
            clsid: 0x1A8766A0_62CE_11CF_A5D6_28DB04C10000,
        },
    ]
}

#[test]
fn drivers_show_on_both_sides() {
    let got: Vec<(String, String, bool)> =
        list_devices(&drivers()).into_iter().map(|d| (d.id, d.name, d.is_capture)).collect();
    let id = "1A8766A0-62CE-11CF-A5D6-28DB04C10000";
    assert_eq!(got.len(), 4);
    assert_eq!(got[0].0, "00000000-0000-0000-0000-000000000001");
    assert_eq!(got[1].1, "Realtek ASIO (capture)");
    assert_eq!(got[2], (id.to_string(), "Arturia MiniFuse (render)".to_string(), false));
    assert_eq!(got[3], (id.to_string(), "Arturia MiniFuse (capture)".to_string(), true));
}

#[test]
fn drivers_are_picked_by_name_or_identifier() {
    let pick = |render: Option<&str>, capture: Option<&str>| {
        let c = EngineConfig {
            render_device: render.map(String::from),
            capture_device: capture.map(String::from),
            ..EngineConfig::default()
        };
        pick_driver(&drivers(), &c)
    };
    assert_eq!(pick(None, None), Some(0));
    assert_eq!(pick(Some("minifuse"), None), Some(1));
    assert_eq!(pick(None, Some("ARTURIA")), Some(1));
    assert_eq!(pick(Some("asio"), Some("minifuse")), Some(0));
    assert_eq!(pick(Some("28DB04C1"), None), Some(1));
    // an identifier counts letter for letter
    assert_eq!(pick(Some("28db04c1"), None), None);
    assert_eq!(pick_driver(&[], &EngineConfig::default()), None);
}

#[test]
fn sample_types() {
    let f: Vec<SampleFormat> = TYPES.iter().map(|t| sample_format_of(*t)).collect();
    assert_eq!(f, vec![
        SampleFormat::I16,
        SampleFormat::I24,
        SampleFormat::I32,
        SampleFormat::F32,
        SampleFormat::I32,
        SampleFormat::I32,
        SampleFormat::I32,
        SampleFormat::I32,
    ]);
    let v: Vec<u16> = TYPES.iter().map(|t| valid_bits_of(*t)).collect();
    assert_eq!(v, vec![16, 24, 32, 32, 16, 18, 20, 24]);
    let b: Vec<usize> = TYPES.iter().map(|t| bytes_of_type(*t)).collect();
    assert_eq!(b, vec![2, 3, 4, 4, 4, 4, 4, 4]);
    assert_eq!((sample_format_of(0), valid_bits_of(0), bytes_of_type(0)), (SampleFormat::I32, 32, 0));
}

#[test]
fn samples_are_read_and_written_as_the_float_unit_does() {
    let mut values: Vec<f32> = vec![
        0.0, -0.0, 1.0, -1.0, 1.5, -7.0, 0.95, 1e-9, f32::NAN, f32::INFINITY, -0.333_333_34,
    ];
    for k in -999..1000 {
        values.push(k as f32 / 1000.0 + 1e-5);
    }
    for v in values {
        let c = v.clamp(-1.0, 1.0);
        for (st, scale) in [(24, 32_767.0f32), (25, 131_071.0), (26, 524_287.0), (27, 8_388_607.0)] {
            let mut b = [0u8; 12];
            write_sample(&mut b, st, 1, v.to_bits());
            let want = (c * scale) as i32;
            assert_eq!(b[4..8], want.to_le_bytes(), "{v} as {st}");
            assert_eq!(b[..4], [0; 4]);
            let got = f32::from_bits(read_sample(&b, st, 1));
            assert_eq!(got.to_bits(), (want as f32 / (scale + 1.0)).to_bits());
        }
        let mut b = [0u8; 8];
        write_sample(&mut b, 19, 1, v.to_bits());
        assert_eq!(b[4..8], c.to_le_bytes());
        let mut b = [0u8; 6];
        write_sample(&mut b, 17, 1, v.to_bits());
        assert_eq!(b[3..6], ((c * 8_388_607.0) as i32).to_le_bytes()[..3]);
        let mut b = [0u8; 4];
        write_sample(&mut b, 16, 1, v.to_bits());
        assert_eq!(b[2..4], ((c * 32_767.0) as i16).to_le_bytes());
        let mut b = [0u8; 4];
        write_sample(&mut b, 18, 0, v.to_bits());
        assert_eq!(b, ((c as f64 * 2_147_483_647.0) as i32).to_le_bytes());
    }
    // a type that is not known reads as silence and is not written
    let mut b = [9u8; 4];
    write_sample(&mut b, 99, 0, 1.0f32.to_bits());
    assert_eq!(b, [9; 4]);
    assert_eq!(read_sample(&b, 99, 0), 0);
}

struct Swap {
    calls: u32,
}

impl Processor for Swap {
    fn process(&mut self, input: &[u32], output: &mut [u32], channels: usize) {
        assert_eq!(channels, 2);
        self.calls += 1;
        for (o, i) in output.chunks_mut(2).zip(input.chunks(2)) {
            assert_eq!(o, &[0, 0]);
            o[0] = i[1];
            o[1] = i[0];
        }
    }
}

#[test]
fn a_buffer_switch_interleaves_processes_and_separates() {
    let mut rt = AsioRuntime::new(2, 16, 3, Swap { calls: 0 }, false);
    let left: Vec<u8> = [1i16, 2, 3].iter().flat_map(|s| (s * 1000).to_le_bytes()).collect();
    let right: Vec<u8> = [-1i16, -2, -3].iter().flat_map(|s| (s * 1000).to_le_bytes()).collect();
    let mut stats = StreamStats::default();
    rt.gather(&[&left, &right]);
    assert_eq!(f32::from_bits(rt.in_f32[3]), -2000.0 / 32_768.0);
    rt.run(&mut stats);
    assert_eq!(rt.proc.calls, 1);
    let mut out = vec![0u8; 6];
    rt.scatter(0, &mut out);
    let words: Vec<i16> = out.chunks(2).map(|c| i16::from_le_bytes([c[0], c[1]])).collect();
    assert_eq!(words, vec![-999, -1999, -2999]);
    rt.scatter(1, &mut out);
    let words: Vec<i16> = out.chunks(2).map(|c| i16::from_le_bytes([c[0], c[1]])).collect();
    assert_eq!(words, vec![999, 1999, 2999]);
    assert_eq!((stats.render_calls, stats.capture_calls), (1, 1));
    assert_eq!((stats.render_frames, stats.capture_frames), (3, 3));
    assert_eq!((stats.underruns, stats.overruns, stats.glitches), (0, 0, 0));
}

#[test]
fn a_render_only_switch_hears_silence() {
    let mut rt = AsioRuntime::new(2, 18, 2, NullProc, true);
    rt.in_f32[1] = 77;
    rt.gather(&[]);
    assert!(rt.in_f32.iter().all(|s| *s == 0));
    rt.out_f32[0] = 77;
    let mut stats = StreamStats::default();
    rt.run(&mut stats);
    let mut out = vec![1u8; 8];
    rt.scatter(0, &mut out);
    assert_eq!(out, vec![0; 8]);
}

#[test]
fn answers_to_messages() {
    let supported: Vec<i32> = (0..10).map(|v| asio_message(1, v)).collect();
    assert_eq!(supported, vec![0, 0, 1, 1, 1, 1, 1, 1, 0, 0]);
    assert_eq!(asio_message(2, 0), 2);
    assert_eq!(asio_message(7, 0), 0);
    assert_eq!(asio_message(99, 2), 0);
    assert_eq!((buffer_half(-1), buffer_half(0), buffer_half(1)), (0, 0, 1));
}
