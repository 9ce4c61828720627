use prism_llae::format::{f32_to_native, native_to_f32, remap_channels, SampleFormat, StreamFormat};

fn decode(src: &[u8], fmt: SampleFormat) -> Vec<f32> {
    let mut out = Vec::new();
    native_to_f32(src, fmt, &mut out);
    out.into_iter().map(f32::from_bits).collect()
}

fn encode(src: &[f32], fmt: SampleFormat) -> Vec<u8> {
    let bits: Vec<u32> = src.iter().map(|s| s.to_bits()).collect();
    let mut dst = vec![0xAA; src.len() * fmt.bytes()];
    f32_to_native(&bits, fmt, &mut dst);
    dst
}

// a fixed pseudo-random sequence
fn noise(n: usize) -> Vec<u32> {
    let mut x = 0x1234_5678u32;
    (0..n)
        .map(|_| {
            x ^= x << 13;
            x ^= x >> 17;
            x ^= x << 5;
            x
        })
        .collect()
}

fn interesting() -> Vec<f32> {
    let mut v = vec![
        0.0, -0.0, 1.0, -1.0, 0.5, -0.5, 0.95, 0.999_999_9, -0.999_999_9, 2.0, -3.5, 1e30, -1e30,
        1e-30, -1e-30, 1e-42, f32::MIN_POSITIVE, f32::MAX, f32::MIN, f32::INFINITY,
        f32::NEG_INFINITY, f32::NAN, 3.051_850_9e-5, 1.192_093e-7, 2.0f32.powi(-24),
    ];
    v.extend(noise(20_000).into_iter().map(f32::from_bits));
    v.extend(noise(20_000).into_iter().map(|x| x as f32 / 2_147_483_648.0 - 1.0));
    for k in 0..=32_767i32 {
        v.push(k as f32 / 32_767.0);
    }
    v
}

#[test]
fn sizes_of_the_formats() {
    for (f, bytes, bits, float) in [
        (SampleFormat::I16, 2, 16, false),
        (SampleFormat::I24, 3, 24, false),
        (SampleFormat::I32, 4, 32, false),
        (SampleFormat::F32, 4, 32, true),
    ] {
        assert_eq!(f.bytes(), bytes);
        assert_eq!(f.bits(), bits);
        assert_eq!(f.is_float(), float);
    }
    let f = StreamFormat::new(48_000, 6, SampleFormat::I24);
    assert_eq!(f.valid_bits, 24);
    assert_eq!(f.frame_bytes(), 18);
}

#[test]
fn descriptions() {
    assert_eq!(StreamFormat::new(48_000, 2, SampleFormat::F32).describe(), "48000 Hz, 2 ch, f32");
    let f = StreamFormat { valid_bits: 24, ..StreamFormat::new(44_100, 1, SampleFormat::I32) };
    assert_eq!(f.describe(), "44100 Hz, 1 ch, i32/24");
    assert_eq!(StreamFormat::new(0, 0, SampleFormat::I16).describe(), "0 Hz, 0 ch, i16");
}

#[test]
fn every_16_bit_sample_decodes_as_the_float_unit_does() {
    let all: Vec<u8> = (i16::MIN..=i16::MAX).flat_map(|s| s.to_le_bytes()).collect();
    let got = decode(&all, SampleFormat::I16);
    for (s, g) in (i16::MIN..=i16::MAX).zip(got) {
        assert_eq!(g.to_bits(), (s as f32 / 32_768.0).to_bits(), "{s}");
    }
}

#[test]
fn wide_integers_decode_as_the_float_unit_does() {
    let mut raw = noise(50_000);
    raw.extend([0, 1, 0x7FFF_FFFF, 0x8000_0000, 0xFFFF_FFFF, 0x0100_0001, 0x0180_0001, 0x7FFF_FFC0]);
    for x in raw {
        let b = x.to_le_bytes();
        let want = x as i32 as f32 / 2_147_483_648.0;
        assert_eq!(decode(&b, SampleFormat::I32)[0].to_bits(), want.to_bits(), "{x:#x}");
        let s24 = ((x << 8) as i32) >> 8;
        let want = s24 as f32 / 8_388_608.0;
        assert_eq!(decode(&b[..3], SampleFormat::I24)[0].to_bits(), want.to_bits(), "{x:#x}");
        assert_eq!(decode(&b, SampleFormat::F32)[0].to_bits(), x);
    }
}

#[test]
fn partial_samples_are_left_out() {
    assert_eq!(decode(&[0, 0x40, 9], SampleFormat::I16), vec![0.5]);
    assert_eq!(decode(&[0, 0], SampleFormat::I24), Vec::<f32>::new());
    let mut out = vec![7u32];
    native_to_f32(&[0, 0xC0], SampleFormat::I16, &mut out);
    assert_eq!(out, vec![7, (-0.5f32).to_bits()]);
}

#[test]
fn floats_encode_as_the_float_unit_does() {
    for s in interesting() {
        let w = ((s.clamp(-1.0, 1.0) * 32_767.0) as i16).to_le_bytes();
        assert_eq!(encode(&[s], SampleFormat::I16), w, "{s:e}");
        let w = ((s.clamp(-1.0, 1.0) * 8_388_607.0) as i32).to_le_bytes();
        assert_eq!(encode(&[s], SampleFormat::I24), &w[..3], "{s:e}");
        let w = ((s.clamp(-1.0, 1.0) as f64 * 2_147_483_647.0) as i32).to_le_bytes();
        assert_eq!(encode(&[s], SampleFormat::I32), w, "{s:e}");
        assert_eq!(encode(&[s], SampleFormat::F32), s.to_le_bytes(), "{s:e}");
    }
}

#[test]
fn encoding_stops_where_source_or_room_ends() {
    let bits = [1.0f32.to_bits(), (-1.0f32).to_bits(), 1.0f32.to_bits()];
    let mut dst = [9u8; 5];
    f32_to_native(&bits, SampleFormat::I16, &mut dst);
    assert_eq!(dst, [0xFF, 0x7F, 0x01, 0x80, 9]);
    let mut dst = [9u8; 8];
    f32_to_native(&bits[..1], SampleFormat::I24, &mut dst);
    assert_eq!(dst, [0xFF, 0xFF, 0x7F, 9, 9, 9, 9, 9]);
}

fn average(frame: &[u32]) -> u32 {
    let mut acc = 0.0f32;
    for s in frame {
        acc += f32::from_bits(*s);
    }
    (acc / frame.len() as f32).to_bits()
}

fn remap(src: &[f32], from: usize, to: usize) -> Vec<f32> {
    let bits: Vec<u32> = src.iter().map(|s| s.to_bits()).collect();
    let mut dst = Vec::new();
    remap_channels(&bits, from, &mut dst, to, &average);
    dst.into_iter().map(f32::from_bits).collect()
}

#[test]
fn channels_are_repeated_averaged_or_kept() {
    assert_eq!(remap(&[0.1, 0.2], 2, 2), vec![0.1, 0.2]);
    assert_eq!(remap(&[0.1, 0.2], 1, 3), vec![0.1, 0.1, 0.1, 0.2, 0.2, 0.2]);
    assert_eq!(remap(&[0.5, 0.25, -0.5, 0.0], 2, 1), vec![0.375, -0.25]);
    assert_eq!(remap(&[1.0, 2.0, 3.0, 4.0], 2, 3), vec![1.0, 2.0, 0.0, 3.0, 4.0, 0.0]);
    assert_eq!(remap(&[1.0, 2.0, 3.0, 4.0, 5.0], 3, 2), vec![1.0, 2.0]);
    assert_eq!(remap(&[1.0, 2.0], 2, 0), Vec::<f32>::new());
}

#[test]
fn integer_samples_lie_within_one() {
    for (fmt, least, greatest, top) in [
        (SampleFormat::I16, vec![0x00, 0x80], vec![0xFF, 0x7F], 32_767.0 / 32_768.0),
        (SampleFormat::I24, vec![0, 0, 0x80], vec![0xFF, 0xFF, 0x7F], 8_388_607.0 / 8_388_608.0),
        (SampleFormat::I32, vec![0, 0, 0, 0x80], vec![0xFF, 0xFF, 0xFF, 0x7F], 1.0f32),
    ] {
        assert_eq!(decode(&least, fmt), [-1.0]);
        assert_eq!(decode(&greatest, fmt), [top]);
    }
}

#[test]
fn stored_samples_are_read_back_closely() {
    let src: Vec<f32> = interesting().into_iter().filter(|s| !s.is_nan()).collect();
    assert_eq!(decode(&encode(&src, SampleFormat::F32), SampleFormat::F32), src);
    for (fmt, bound) in [
        (SampleFormat::I16, 3.0 / 32_768.0),
        (SampleFormat::I24, 3.0 / 8_388_608.0),
        (SampleFormat::I32, 1.0 / 8_388_608.0),
    ] {
        let out = decode(&encode(&src, fmt), fmt);
        assert_eq!(out.len(), src.len());
        for (s, o) in src.iter().zip(&out) {
            assert!((-1.0..=1.0).contains(o));
            assert!((*o as f64 - s.clamp(-1.0, 1.0) as f64).abs() <= bound, "{fmt:?} {s} {o}");
        }
    }
    assert_eq!(decode(&encode(&[0.5], SampleFormat::I16), SampleFormat::I16), [16_383.0 / 32_768.0]);
}
