use prism_llae::wfx::{
    build_extensible_ex, channel_mask, fits, parse, Extension, WaveFormat, SUBTYPE_IEEE_FLOAT,
    SUBTYPE_PCM, WAVE_FORMAT_EXTENSIBLE, WAVE_FORMAT_IEEE_FLOAT, WAVE_FORMAT_PCM,
};
use prism_llae::{SampleFormat, StreamFormat};

fn plain(tag: u16, bits: u16) -> WaveFormat {
    WaveFormat {
        format_tag: tag,
        channels: 2,
        samples_per_sec: 48_000,
        avg_bytes_per_sec: 0,
        block_align: 0,
        bits_per_sample: bits,
        extra_size: 0,
        extension: None,
    }
}

fn extended(sub_format: u128, bits: u16, valid_bits: u16) -> WaveFormat {
    WaveFormat {
        extension: Some(Extension { valid_bits, channel_mask: 3, sub_format }),
        ..plain(WAVE_FORMAT_EXTENSIBLE, bits)
    }
}

#[test]
fn masks_of_the_usual_channel_counts() {
    let masks: Vec<u32> = (0..10).map(channel_mask).collect();
    assert_eq!(masks, vec![0, 4, 3, 0, 0x33, 0, 0x3F, 0, 0xFF, 0]);
}

#[test]
fn plain_formats_are_read() {
    let f = |tag, bits| parse(&plain(tag, bits)).map(|f| (f.sample_format, f.valid_bits));
    assert_eq!(f(WAVE_FORMAT_PCM, 16), Some((SampleFormat::I16, 16)));
    assert_eq!(f(WAVE_FORMAT_PCM, 24), Some((SampleFormat::I24, 24)));
    assert_eq!(f(WAVE_FORMAT_PCM, 32), Some((SampleFormat::I32, 32)));
    assert_eq!(f(WAVE_FORMAT_PCM, 20), Some((SampleFormat::I16, 16)));
    assert_eq!(f(WAVE_FORMAT_PCM, 8), None);
    assert_eq!(f(WAVE_FORMAT_IEEE_FLOAT, 32), Some((SampleFormat::F32, 32)));
    assert_eq!(f(WAVE_FORMAT_IEEE_FLOAT, 64), None);
    assert_eq!(f(2, 16), None);
}

#[test]
fn extended_formats_are_read() {
    let f = |sub, bits, valid| parse(&extended(sub, bits, valid));
    let got = f(SUBTYPE_PCM, 32, 24).unwrap();
    assert_eq!((got.sample_format, got.valid_bits), (SampleFormat::I32, 24));
    assert_eq!((got.sample_rate, got.channels), (48_000, 2));
    assert_eq!(f(SUBTYPE_PCM, 24, 0).unwrap().valid_bits, 24);
    assert_eq!(f(SUBTYPE_PCM, 16, 99).unwrap().valid_bits, 16);
    assert_eq!(f(SUBTYPE_IEEE_FLOAT, 32, 32).unwrap().sample_format, SampleFormat::F32);
    assert_eq!(f(SUBTYPE_IEEE_FLOAT, 16, 16), None);
    assert_eq!(f(SUBTYPE_PCM + 1, 16, 16), None);
}

#[test]
fn built_formats_read_back() {
    for sf in [SampleFormat::I16, SampleFormat::I24, SampleFormat::I32, SampleFormat::F32] {
        for valid in [1, 16, 20, 24, 32] {
            let f = StreamFormat::new(96_000, 2, sf);
            let w = build_extensible_ex(f, valid);
            let want = if valid > sf.bits() { sf.bits() } else { valid };
            assert_eq!(parse(&w), Some(StreamFormat { valid_bits: want, ..f }));
        }
    }
}

#[test]
fn built_format_in_full() {
    let f = StreamFormat::new(48_000, 2, SampleFormat::I32);
    let w = build_extensible_ex(f, 24);
    assert_eq!(w.format_tag, 0xFFFE);
    assert_eq!((w.channels, w.samples_per_sec, w.avg_bytes_per_sec), (2, 48_000, 384_000));
    assert_eq!((w.block_align, w.bits_per_sample, w.extra_size), (8, 32, 22));
    assert_eq!(
        w.extension,
        Some(Extension { valid_bits: 24, channel_mask: 3, sub_format: SUBTYPE_PCM })
    );
}

#[test]
fn sizes_that_do_not_fit() {
    assert!(fits(StreamFormat::new(192_000, 8, SampleFormat::F32)));
    assert!(!fits(StreamFormat::new(48_000, 20_000, SampleFormat::F32)));
    assert!(!fits(StreamFormat::new(u32::MAX, 2, SampleFormat::I16)));
}
