//! Wave format descriptions: reading what a device offers, and writing what it
//! is asked for.

use vstd::prelude::*;
use windows::Win32::Media::KernelStreaming::KSDATAFORMAT_SUBTYPE_PCM;
use windows::Win32::Media::Multimedia::KSDATAFORMAT_SUBTYPE_IEEE_FLOAT;

use crate::format::{SampleFormat, StreamFormat};

verus! {

pub const WAVE_FORMAT_PCM: u16 = 1;

pub const WAVE_FORMAT_IEEE_FLOAT: u16 = 3;

pub const WAVE_FORMAT_EXTENSIBLE: u16 = 0xFFFE;

/// The identifier of PCM samples.
pub const SUBTYPE_PCM: u128 = 0x00000001_0000_0010_8000_00aa00389b71;

/// The identifier of floating point samples.
pub const SUBTYPE_IEEE_FLOAT: u128 = 0x00000003_0000_0010_8000_00aa00389b71;

/// The constant `KSDATAFORMAT_SUBTYPE_PCM` as a number.
#[verifier::external_body]
pub(crate) fn subtype_pcm() -> (r: u128)
    ensures
        r == SUBTYPE_PCM,
{
    KSDATAFORMAT_SUBTYPE_PCM.to_u128()
}

/// The constant `KSDATAFORMAT_SUBTYPE_IEEE_FLOAT` as a number.
#[verifier::external_body]
fn subtype_ieee_float() -> (r: u128)
    ensures
        r == SUBTYPE_IEEE_FLOAT,
{
    KSDATAFORMAT_SUBTYPE_IEEE_FLOAT.to_u128()
}

/// What the extensible form adds to a wave format.
#[derive(Clone, Copy, PartialEq, Eq, Debug, Structural)]
pub struct Extension {
    pub valid_bits: u16,
    pub channel_mask: u32,
    pub sub_format: u128,
}

/// A wave format as a device states it.
#[derive(Clone, Copy, PartialEq, Eq, Debug, Structural)]
pub struct WaveFormat {
    pub format_tag: u16,
    pub channels: u16,
    pub samples_per_sec: u32,
    pub avg_bytes_per_sec: u32,
    pub block_align: u16,
    pub bits_per_sample: u16,
    /// The size of what follows, in bytes.
    pub extra_size: u16,
    pub extension: Option<Extension>,
}

impl WaveFormat {
    /// The extensible tag announces the extension.
    pub open spec fn wf(self) -> bool {
        self.format_tag == WAVE_FORMAT_EXTENSIBLE ==> self.extension is Some
    }
}

/// The speakers that the usual channel counts stand for.
pub open spec fn speaker_mask(channels: u16) -> u32 {
    if channels == 1 {
        0x4
    } else if channels == 2 {
        0x3
    } else if channels == 4 {
        0x33
    } else if channels == 6 {
        0x3F
    } else if channels == 8 {
        0xFF
    } else {
        0
    }
}

pub fn channel_mask(channels: u16) -> (r: u32)
    ensures
        r == speaker_mask(channels),
{
    match channels {
        // front centre
        1 => 0x4,
        // front left and right
        2 => 0x3,
        // and back left and right
        4 => 0x33,
        6 => 0x3F,
        8 => 0xFF,
        _ => 0,
    }
}

/// Whether the samples are floats, `None` where they are neither floats nor PCM.
pub open spec fn states_float(w: WaveFormat) -> Option<bool> {
    if w.format_tag == WAVE_FORMAT_EXTENSIBLE {
        let sub = w.extension->0.sub_format;
        if sub == SUBTYPE_IEEE_FLOAT {
            Some(true)
        } else if sub == SUBTYPE_PCM {
            Some(false)
        } else {
            None
        }
    } else if w.format_tag == WAVE_FORMAT_IEEE_FLOAT {
        Some(true)
    } else if w.format_tag == WAVE_FORMAT_PCM {
        Some(false)
    } else {
        None
    }
}

/// The valid bits as stated; 0 and more than the container both mean all.
pub open spec fn stated_valid_bits(w: WaveFormat) -> u16 {
    let stated = if w.format_tag == WAVE_FORMAT_EXTENSIBLE {
        w.extension->0.valid_bits
    } else {
        w.bits_per_sample
    };
    let container = (w.bits_per_sample / 8 * 8) as u16;
    if stated == 0 || stated > container {
        container
    } else {
        stated
    }
}

/// The sample format for a kind of samples and their size in bytes.
pub open spec fn sample_format_of(float: bool, bytes: nat) -> Option<SampleFormat> {
    if float && bytes == 4 {
        Some(SampleFormat::F32)
    } else if !float && bytes == 2 {
        Some(SampleFormat::I16)
    } else if !float && bytes == 3 {
        Some(SampleFormat::I24)
    } else if !float && bytes == 4 {
        Some(SampleFormat::I32)
    } else {
        None
    }
}

/// The stream format that a wave format describes, `None` where the engine has
/// none for it.
pub open spec fn parsed(w: WaveFormat) -> Option<StreamFormat> {
    match states_float(w) {
        None => None,
        Some(float) => match sample_format_of(float, (w.bits_per_sample / 8) as nat) {
            None => None,
            Some(sample_format) => Some(
                StreamFormat {
                    sample_rate: w.samples_per_sec,
                    channels: w.channels,
                    sample_format,
                    valid_bits: stated_valid_bits(w),
                },
            ),
        },
    }
}

pub fn parse(w: &WaveFormat) -> (r: Option<StreamFormat>)
    requires
        w.wf(),
    ensures
        r == parsed(*w),
{
    let bytes: u16 = w.bits_per_sample / 8;
    let mut stated: u16 = w.bits_per_sample;
    let float: bool;
    if w.format_tag == WAVE_FORMAT_EXTENSIBLE {
        let ext: Extension = w.extension.unwrap();
        float = ext.sub_format == subtype_ieee_float();
        if !float && ext.sub_format != subtype_pcm() {
            return None;
        }
        stated = ext.valid_bits;
    } else if w.format_tag == WAVE_FORMAT_IEEE_FLOAT {
        float = true;
    } else if w.format_tag == WAVE_FORMAT_PCM {
        float = false;
    } else {
        return None;
    }
    let sample_format: SampleFormat = match (float, bytes) {
        (true, 4) => SampleFormat::F32,
        (false, 2) => SampleFormat::I16,
        (false, 3) => SampleFormat::I24,
        (false, 4) => SampleFormat::I32,
        _ => return None,
    };
    let container: u16 = bytes * 8;
    let valid_bits: u16 = if stated == 0 || stated > container {
        container
    } else {
        stated
    };
    Some(
        StreamFormat {
            sample_rate: w.samples_per_sec,
            channels: w.channels,
            sample_format,
            valid_bits,
        },
    )
}

/// Whether the sizes of a stream format fit the fields of a wave format.
pub open spec fn sizes_fit(sf: StreamFormat) -> bool {
    &&& sf.spec_frame_bytes() <= u16::MAX
    &&& sf.sample_rate * sf.spec_frame_bytes() <= u32::MAX
}

/// Whether the sizes of a stream format fit the fields of a wave format.
pub fn fits(sf: StreamFormat) -> (r: bool)
    ensures
        r == sizes_fit(sf),
{
    let frame: usize = sf.frame_bytes();
    assert(sf.sample_rate * frame <= u64::MAX) by (nonlinear_arith)
        requires
            sf.sample_rate <= u32::MAX,
            frame <= 4 * 65535,
    ;
    frame <= 65535 && sf.sample_rate as u64 * frame as u64 <= 0xFFFF_FFFF
}

/// The extensible form of a stream format.
pub open spec fn extensible(sf: StreamFormat, valid_bits: u16) -> WaveFormat {
    WaveFormat {
        format_tag: WAVE_FORMAT_EXTENSIBLE,
        channels: sf.channels,
        samples_per_sec: sf.sample_rate,
        avg_bytes_per_sec: (sf.sample_rate * sf.spec_frame_bytes()) as u32,
        block_align: sf.spec_frame_bytes() as u16,
        bits_per_sample: (8 * sf.sample_format.spec_bytes()) as u16,
        extra_size: 22,
        extension: Some(
            Extension {
                valid_bits,
                channel_mask: speaker_mask(sf.channels),
                sub_format: if sf.sample_format is F32 {
                    SUBTYPE_IEEE_FLOAT
                } else {
                    SUBTYPE_PCM
                },
            },
        ),
    }
}

/// Writes the extensible form, with the valid bits given explicitly, as in
/// 24-in-32.
pub fn build_extensible_ex(sf: StreamFormat, valid_bits: u16) -> (r: WaveFormat)
    requires
        sizes_fit(sf),
    ensures
        r == extensible(sf, valid_bits),
{
    let frame: usize = sf.frame_bytes();
    let block_align: u16 = frame as u16;
    assert(sf.sample_rate as u32 * block_align as u32 == sf.sample_rate * sf.spec_frame_bytes())
        by (nonlinear_arith)
        requires
            block_align == sf.spec_frame_bytes(),
    ;
    let sub_format: u128 = if sf.sample_format.is_float() {
        subtype_ieee_float()
    } else {
        subtype_pcm()
    };
    WaveFormat {
        format_tag: WAVE_FORMAT_EXTENSIBLE,
        channels: sf.channels,
        samples_per_sec: sf.sample_rate,
        avg_bytes_per_sec: sf.sample_rate * block_align as u32,
        block_align,
        bits_per_sample: sf.sample_format.bits(),
        extra_size: 22,
        extension: Some(
            Extension { valid_bits, channel_mask: channel_mask(sf.channels), sub_format },
        ),
    }
}

/// Reading back what was written gives the stream format, with the valid bits
/// that were written; 0 and more than the container both read as all.
pub proof fn law_extensible_reads_back(sf: StreamFormat, valid_bits: u16)
    ensures
        extensible(sf, valid_bits).wf(),
        parsed(extensible(sf, valid_bits)) == Some(
            StreamFormat {
                valid_bits: if valid_bits == 0 || valid_bits > 8 * sf.sample_format.spec_bytes() {
                    (8 * sf.sample_format.spec_bytes()) as u16
                } else {
                    valid_bits
                },
                ..sf
            },
        ),
{
}

/// How many bits of a number are set.
pub open spec fn bits_set(n: nat) -> nat
    decreases n,
{
    if n == 0 {
        0
    } else {
        n % 2 + bits_set(n / 2)
    }
}

/// A speaker mask names as many speakers as there are channels, or none at all where
/// the channel count is not one of the usual ones. One channel is the centre, and any
/// usual even count starts with left and right.
pub proof fn law_mask_names_a_speaker_for_each_channel(channels: u16)
    ensures
        speaker_mask(channels) != 0 ==> bits_set(speaker_mask(channels) as nat) == channels,
        speaker_mask(channels) != 0 <==> channels == 1 || channels == 2 || channels == 4 || channels
            == 6 || channels == 8,
        channels == 1 ==> speaker_mask(channels) == 4,
        speaker_mask(channels) != 0 && channels > 1 ==> speaker_mask(channels) % 4 == 3,
{
    reveal_with_fuel(bits_set, 9);
}

/// What a device states is taken as stated: the rate and the channels as they are,
/// samples as wide as the container, floats only where it says so, and never more
/// valid bits than the container holds.
pub proof fn law_stated_format_is_taken(w: WaveFormat)
    requires
        w.wf(),
    ensures
        parsed(w) matches Some(f) ==> {
            &&& f.sample_rate == w.samples_per_sec
            &&& f.channels == w.channels
            &&& f.sample_format.spec_bytes() == w.bits_per_sample / 8
            &&& f.sample_format is F32 <==> states_float(w) == Some(true)
            &&& 0 < f.valid_bits <= 8 * f.sample_format.spec_bytes()
        },
        w.format_tag == WAVE_FORMAT_PCM && (w.bits_per_sample == 16 || w.bits_per_sample == 24
            || w.bits_per_sample == 32) ==> (parsed(w) matches Some(f) && f.sample_format !is F32
            && f.valid_bits == w.bits_per_sample),
        w.format_tag == WAVE_FORMAT_IEEE_FLOAT && w.bits_per_sample == 32 ==> (parsed(
            w,
        ) matches Some(f) && f.sample_format is F32 && f.valid_bits == 32),
        w.format_tag == WAVE_FORMAT_EXTENSIBLE ==> (parsed(w) matches Some(f) ==> (f.valid_bits
            == w.extension->0.valid_bits || w.extension->0.valid_bits == 0
            || w.extension->0.valid_bits > 8 * f.sample_format.spec_bytes())),
        w.format_tag != WAVE_FORMAT_PCM && w.format_tag != WAVE_FORMAT_IEEE_FLOAT && w.format_tag
            != WAVE_FORMAT_EXTENSIBLE ==> parsed(w) is None,
{
}

/// A written wave format fits together: a frame has the bytes of all its channels, a
/// second those of all its frames, and the extension is announced with its size.
pub proof fn law_written_format_fits_together(sf: StreamFormat, valid_bits: u16)
    requires
        sizes_fit(sf),
    ensures
        ({
            let w = extensible(sf, valid_bits);
            &&& 8 * w.block_align == w.channels * w.bits_per_sample
            &&& w.avg_bytes_per_sec == w.samples_per_sec * w.block_align
            &&& w.samples_per_sec == sf.sample_rate && w.channels == sf.channels
            &&& w.extra_size == 22
            &&& w.extension matches Some(e) && e.channel_mask == speaker_mask(sf.channels)
        }),
{
    let a = sf.sample_rate as int;
    let n = sf.spec_frame_bytes() as int;
    let c = sf.channels as int;
    let b = sf.sample_format.spec_bytes() as int;
    assert(a * n >= 0) by (nonlinear_arith)
        requires
            a >= 0,
            n >= 0,
    ;
    assert(8 * (c * b) == c * (8 * b)) by (nonlinear_arith);
}

} // verus!
