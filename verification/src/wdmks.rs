//! WDM kernel streaming backend: which pin of which filter to use, in which
//! format, and what the stream headers say of the captured packets.

use vstd::prelude::*;
use windows::Win32::Foundation::ERROR_IO_PENDING;
use windows::Win32::Media::KernelStreaming::{
    KSINTERFACESETID_Standard, KSMEDIUMSETID_Standard, KSDATAFORMAT_SPECIFIER_WAVEFORMATEX,
    KSDATAFORMAT_TYPE_AUDIO, KSPIN_COMMUNICATION_BOTH, KSPIN_COMMUNICATION_SINK,
    KSPIN_DATAFLOW_IN, KSPIN_DATAFLOW_OUT, KSSTREAM_HEADER_OPTIONSF_DATADISCONTINUITY,
    KSSTREAM_HEADER_OPTIONSF_TIMEDISCONTINUITY, KSSTREAM_HEADER_OPTIONSF_TIMEVALID,
};

use crate::engine::{
    device_views, Backend, DeviceInfo, DeviceView, EngineConfig, ShareMode, StreamInfo,
};
use crate::error::{EngineError, Result};
use crate::format::{le_value, SampleFormat, StreamFormat};
use crate::ring::{is_pow2, lemma_next_pow2, next_pow2, next_power_of_two};
use crate::text::{
    contains, from_utf16_lossy, has_substring, hex, law_substrings_nest, push_hex, trim_nuls,
    utf16_text, without_trailing_nuls,
};
use crate::wfx::{subtype_pcm, WaveFormat, SUBTYPE_PCM, WAVE_FORMAT_PCM};

verus! {

/// Three buffers in flight per pin: free of glitches down to periods of about
/// 32 frames, at little latency.
pub const N_BUFFERS: usize = 3;

pub const GENERIC_READ: u32 = 0x8000_0000;

pub const GENERIC_WRITE: u32 = 0x4000_0000;

/// The identifier that stands for any other.
pub const GUID_NULL: u128 = 0;

pub const TYPE_AUDIO: u128 = 0x73647561_0000_0010_8000_00aa00389b71;

pub const SPECIFIER_WAVEFORMATEX: u128 = 0x05589f81_c356_11ce_bf01_00aa0055595a;

pub const INTERFACESETID_STANDARD: u128 = 0x1a8766a0_62ce_11cf_a5d6_28db04c10000;

pub const MEDIUMSETID_STANDARD: u128 = 0x4747b320_62ce_11cf_a5d6_28db04c10000;

pub const INTERFACE_STANDARD_STREAMING: u32 = 0;

pub const MEDIUM_STANDARD_DEVIO: u32 = 0;

pub const DATAFLOW_IN: i32 = 1;

pub const DATAFLOW_OUT: i32 = 2;

pub const COMMUNICATION_SINK: i32 = 1;

pub const COMMUNICATION_BOTH: i32 = 3;

pub const DATADISCONTINUITY: u32 = 4;

pub const TIMEVALID: u32 = 16;

pub const TIMEDISCONTINUITY: u32 = 64;

/// The code of an operation that is under way.
pub const IO_PENDING: i32 = -2_147_023_899;

pub const HNS_PER_SEC: i64 = 10_000_000;

/// The constant `KSDATAFORMAT_TYPE_AUDIO` as a number.
#[verifier::external_body]
fn type_audio() -> (r: u128)
    ensures
        r == TYPE_AUDIO,
{
    KSDATAFORMAT_TYPE_AUDIO.to_u128()
}

/// The constant `KSDATAFORMAT_SPECIFIER_WAVEFORMATEX` as a number.
#[verifier::external_body]
fn specifier_waveformatex() -> (r: u128)
    ensures
        r == SPECIFIER_WAVEFORMATEX,
{
    KSDATAFORMAT_SPECIFIER_WAVEFORMATEX.to_u128()
}

/// The constant `KSINTERFACESETID_Standard` as a number.
#[verifier::external_body]
fn interfacesetid_standard() -> (r: u128)
    ensures
        r == INTERFACESETID_STANDARD,
{
    KSINTERFACESETID_Standard.to_u128()
}

/// The constant `KSMEDIUMSETID_Standard` as a number.
#[verifier::external_body]
fn mediumsetid_standard() -> (r: u128)
    ensures
        r == MEDIUMSETID_STANDARD,
{
    KSMEDIUMSETID_Standard.to_u128()
}

/// The constant `KSPIN_DATAFLOW_IN` as a number.
#[verifier::external_body]
fn dataflow_in() -> (r: i32)
    ensures
        r == DATAFLOW_IN,
{
    KSPIN_DATAFLOW_IN.0
}

/// The constant `KSPIN_DATAFLOW_OUT` as a number.
#[verifier::external_body]
fn dataflow_out() -> (r: i32)
    ensures
        r == DATAFLOW_OUT,
{
    KSPIN_DATAFLOW_OUT.0
}

/// The constant `KSPIN_COMMUNICATION_SINK` as a number.
#[verifier::external_body]
fn communication_sink() -> (r: i32)
    ensures
        r == COMMUNICATION_SINK,
{
    KSPIN_COMMUNICATION_SINK.0
}

/// The constant `KSPIN_COMMUNICATION_BOTH` as a number.
#[verifier::external_body]
fn communication_both() -> (r: i32)
    ensures
        r == COMMUNICATION_BOTH,
{
    KSPIN_COMMUNICATION_BOTH.0
}

/// The constant `KSSTREAM_HEADER_OPTIONSF_DATADISCONTINUITY`.
#[verifier::external_body]
fn optionsf_datadiscontinuity() -> (r: u32)
    ensures
        r == DATADISCONTINUITY,
{
    KSSTREAM_HEADER_OPTIONSF_DATADISCONTINUITY
}

/// The constant `KSSTREAM_HEADER_OPTIONSF_TIMEVALID`.
#[verifier::external_body]
fn optionsf_timevalid() -> (r: u32)
    ensures
        r == TIMEVALID,
{
    KSSTREAM_HEADER_OPTIONSF_TIMEVALID
}

/// The constant `KSSTREAM_HEADER_OPTIONSF_TIMEDISCONTINUITY`.
#[verifier::external_body]
fn optionsf_timediscontinuity() -> (r: u32)
    ensures
        r == TIMEDISCONTINUITY,
{
    KSSTREAM_HEADER_OPTIONSF_TIMEDISCONTINUITY
}

/// `WIN32_ERROR::to_hresult` of the constant `ERROR_IO_PENDING`.
#[verifier::external_body]
fn io_pending() -> (r: i32)
    ensures
        r == IO_PENDING,
{
    ERROR_IO_PENDING.to_hresult().0
}

/// The big-endian number in the eight bytes at `at`.
pub open spec fn be8_value(b: Seq<u8>, at: int, n: nat) -> nat
    decreases n,
{
    if n == 0 {
        0
    } else {
        256 * be8_value(b, at, (n - 1) as nat) + b[at + n - 1] as nat
    }
}

/// The identifier in the sixteen bytes at `at`: three little-endian fields, then
/// eight bytes in order.
pub open spec fn guid_value(b: Seq<u8>, at: int) -> nat {
    le_value(b, at, 4) * 0x1_0000_0000_0000_0000_0000_0000 + le_value(b, at + 4, 2)
        * 0x1_0000_0000_0000_0000_0000 + le_value(b, at + 6, 2) * 0x1_0000_0000_0000_0000
        + be8_value(b, at + 8, 8)
}

/// The size of a data range as it lies in a pin's answer.
pub const RANGE_SIZE: usize = 84;

/// A range of formats that a pin offers.
#[derive(Clone, Copy, PartialEq, Eq, Debug, Structural)]
pub struct DataRange {
    pub format_size: u32,
    pub major_format: u128,
    pub sub_format: u128,
    pub specifier: u128,
    pub max_channels: u32,
    pub min_bits: u32,
    pub max_bits: u32,
    pub min_rate: u32,
    pub max_rate: u32,
}

/// The data range in the bytes at `at`.
pub open spec fn range_at(b: Seq<u8>, at: int) -> DataRange {
    DataRange {
        format_size: le_value(b, at, 4) as u32,
        major_format: guid_value(b, at + 16) as u128,
        sub_format: guid_value(b, at + 32) as u128,
        specifier: guid_value(b, at + 48) as u128,
        max_channels: le_value(b, at + 64, 4) as u32,
        min_bits: le_value(b, at + 68, 4) as u32,
        max_bits: le_value(b, at + 72, 4) as u32,
        min_rate: le_value(b, at + 76, 4) as u32,
        max_rate: le_value(b, at + 80, 4) as u32,
    }
}

fn read_u32(b: &[u8], at: usize) -> (r: u32)
    requires
        at + 4 <= b@.len(),
    ensures
        r == le_value(b@, at as int, 4),
{
    proof {
        reveal_with_fuel(le_value, 5);
    }
    b[at] as u32 + 0x100 * (b[at + 1] as u32) + 0x1_0000 * (b[at + 2] as u32) + 0x100_0000 * (b[at
        + 3] as u32)
}

fn read_u16(b: &[u8], at: usize) -> (r: u32)
    requires
        at + 2 <= b@.len(),
    ensures
        r == le_value(b@, at as int, 2),
        r < 0x1_0000,
{
    proof {
        reveal_with_fuel(le_value, 3);
    }
    b[at] as u32 + 0x100 * (b[at + 1] as u32)
}

fn read_guid(b: &[u8], at: usize) -> (r: u128)
    requires
        at + 16 <= b@.len(),
    ensures
        r == guid_value(b@, at as int),
{
    let len: usize = b.len();
    let a: u128 = read_u32(b, at) as u128;
    let c: u128 = read_u16(b, at + 4) as u128;
    let d: u128 = read_u16(b, at + 6) as u128;
    let mut low: u64 = 0;
    let mut i: usize = 0;
    let ghost bound: int = 1;
    while i < 8
        invariant
            i <= 8,
            at + 16 <= b@.len() == len,
            low == be8_value(b@, at + 8, i as nat),
            i == 0 ==> bound == 1,
            i == 1 ==> bound == 0x100,
            i == 2 ==> bound == 0x1_0000,
            i == 3 ==> bound == 0x100_0000,
            i == 4 ==> bound == 0x1_0000_0000,
            i == 5 ==> bound == 0x100_0000_0000,
            i == 6 ==> bound == 0x1_0000_0000_0000,
            i == 7 ==> bound == 0x100_0000_0000_0000,
            i == 8 ==> bound == 0x1_0000_0000_0000_0000,
            low < bound,
        decreases 8 - i,
    {
        low = 256 * low + b[at + 8 + i] as u64;
        i = i + 1;
        proof {
            bound = 256 * bound;
        }
    }
    a * 0x1_0000_0000_0000_0000_0000_0000 + c * 0x1_0000_0000_0000_0000_0000 + d
        * 0x1_0000_0000_0000_0000 + low as u128
}

fn read_range(b: &[u8], at: usize) -> (r: DataRange)
    requires
        at + RANGE_SIZE <= b@.len(),
    ensures
        r == range_at(b@, at as int),
{
    let len: usize = b.len();
    DataRange {
        format_size: read_u32(b, at),
        major_format: read_guid(b, at + 16),
        sub_format: read_guid(b, at + 32),
        specifier: read_guid(b, at + 48),
        max_channels: read_u32(b, at + 64),
        min_bits: read_u32(b, at + 68),
        max_bits: read_u32(b, at + 72),
        min_rate: read_u32(b, at + 76),
        max_rate: read_u32(b, at + 80),
    }
}

/// Whether the identifiers are those of PCM audio, or stand for any.
pub open spec fn names_audio_pcm(major: u128, sub: u128, spec_id: u128) -> bool {
    &&& major == TYPE_AUDIO || major == GUID_NULL
    &&& sub == SUBTYPE_PCM || sub == GUID_NULL
    &&& spec_id == SPECIFIER_WAVEFORMATEX || spec_id == GUID_NULL
}

pub fn is_audio_pcm(major: u128, sub: u128, spec_id: u128) -> (r: bool)
    ensures
        r == names_audio_pcm(major, sub, spec_id),
{
    let major_ok: bool = major == type_audio() || major == GUID_NULL;
    let sub_ok: bool = sub == subtype_pcm() || sub == GUID_NULL;
    let spec_ok: bool = spec_id == specifier_waveformatex() || spec_id == GUID_NULL;
    major_ok && sub_ok && spec_ok
}

impl DataRange {
    /// Whether the range is PCM audio at the wanted rate.
    pub open spec fn covers(self, rate: u32) -> bool {
        &&& names_audio_pcm(self.major_format, self.sub_format, self.specifier)
        &&& self.max_channels >= 1
        &&& self.min_rate <= rate <= self.max_rate
    }

    /// How far the next range lies behind this one: its stated size, but at
    /// least that of a range, rounded up to eight bytes.
    pub open spec fn stride(self) -> int {
        let size = if self.format_size > RANGE_SIZE {
            self.format_size as int
        } else {
            RANGE_SIZE as int
        };
        (size + 7) / 8 * 8
    }

    pub open spec fn has_depth(self, bits: u32) -> bool {
        self.min_bits <= bits <= self.max_bits
    }

    /// The sample format to ask for: the forced one if the range has its depth;
    /// without a force, the least depth of 16, 24 and 32 that it has.
    pub open spec fn depth(self, force: Option<SampleFormat>) -> Option<SampleFormat> {
        let any = force is None || force == Some(SampleFormat::F32);
        if self.has_depth(16) && (any || force == Some(SampleFormat::I16)) {
            Some(SampleFormat::I16)
        } else if self.has_depth(24) && (any || force == Some(SampleFormat::I24)) {
            Some(SampleFormat::I24)
        } else if self.has_depth(32) && (any || force == Some(SampleFormat::I32)) {
            Some(SampleFormat::I32)
        } else {
            None
        }
    }

    /// The channel count to ask for: the wanted one, within the range's limit.
    pub open spec fn channel_count(self, want: u16) -> u16 {
        let most = (self.max_channels % 0x1_0000) as u16;
        if want < 1 {
            1
        } else if want > most {
            most
        } else {
            want
        }
    }

    /// The format to ask of the range.
    pub open spec fn offer(self, rate: u32, want_ch: u16, force: Option<SampleFormat>) -> Option<
        StreamFormat,
    > {
        match self.depth(force) {
            Some(sf) => Some(StreamFormat::spec_new(rate, self.channel_count(want_ch), sf)),
            None => None,
        }
    }

    fn is_covering(&self, rate: u32) -> (r: bool)
        ensures
            r == self.covers(rate),
    {
        is_audio_pcm(self.major_format, self.sub_format, self.specifier) && self.max_channels >= 1
            && rate >= self.min_rate && rate <= self.max_rate
    }

    fn offered(&self, rate: u32, want_ch: u16, force: Option<SampleFormat>) -> (r: Option<
        StreamFormat,
    >)
        requires
            self.max_channels % 0x1_0000 != 0,
        ensures
            r == self.offer(rate, want_ch, force),
    {
        let most: u16 = (self.max_channels % 0x1_0000) as u16;
        let ch: u16 = if want_ch < 1 {
            1
        } else if want_ch > most {
            most
        } else {
            want_ch
        };
        let (try16, try24, try32): (bool, bool, bool) = match force {
            Some(SampleFormat::I16) => (true, false, false),
            Some(SampleFormat::I24) => (false, true, false),
            Some(SampleFormat::I32) => (false, false, true),
            Some(SampleFormat::F32) | None => (true, true, true),
        };
        if try16 && 16 >= self.min_bits && 16 <= self.max_bits {
            Some(StreamFormat::new(rate, ch, SampleFormat::I16))
        } else if try24 && 24 >= self.min_bits && 24 <= self.max_bits {
            Some(StreamFormat::new(rate, ch, SampleFormat::I24))
        } else if try32 && 32 >= self.min_bits && 32 <= self.max_bits {
            Some(StreamFormat::new(rate, ch, SampleFormat::I32))
        } else {
            None
        }
    }
}

/// The offer of the first of `count` ranges, from `at` on, that covers the rate and
/// has a fitting depth. Ranges that would run past the end of the answer are left
/// out, with all that follow.
pub open spec fn first_offer(
    b: Seq<u8>,
    at: int,
    count: nat,
    rate: u32,
    want_ch: u16,
    force: Option<SampleFormat>,
) -> Option<StreamFormat>
    decreases count,
{
    if count == 0 || at + RANGE_SIZE > b.len() {
        None
    } else {
        let r = range_at(b, at);
        let o = if r.covers(rate) {
            r.offer(rate, want_ch, force)
        } else {
            None
        };
        if o is Some {
            o
        } else {
            first_offer(b, at + r.stride(), (count - 1) as nat, rate, want_ch, force)
        }
    }
}

/// Whether each range that covers the rate leaves a channel count to choose, of
/// `count` ranges from `at` on, up to the one that makes an offer. A limit whose
/// low sixteen bits are zero leaves no count to choose.
pub open spec fn limits_sound(
    b: Seq<u8>,
    at: int,
    count: nat,
    rate: u32,
    force: Option<SampleFormat>,
) -> bool
    decreases count,
{
    if count == 0 || at + RANGE_SIZE > b.len() {
        true
    } else {
        let r = range_at(b, at);
        &&& r.covers(rate) ==> r.max_channels % 0x1_0000 != 0
        &&& (r.covers(rate) && r.depth(force) is Some) || limits_sound(
            b,
            at + r.stride(),
            (count - 1) as nat,
            rate,
            force,
        )
    }
}

/// The format to ask of a pin, given its answer `b` of which `got` bytes were
/// filled. An answer starts with its size and the number of ranges.
pub open spec fn pin_format(
    b: Seq<u8>,
    got: nat,
    rate: u32,
    want_ch: u16,
    force: Option<SampleFormat>,
) -> Option<StreamFormat> {
    if b.len() < 8 || got < 8 {
        None
    } else {
        first_offer(b, 8, le_value(b, 4, 4), rate, want_ch, force)
    }
}

/// Whether the ranges of a pin's answer that are read leave a channel count to
/// choose.
pub open spec fn pin_limits_sound(
    b: Seq<u8>,
    got: nat,
    rate: u32,
    force: Option<SampleFormat>,
) -> bool {
    b.len() < 8 || got < 8 || limits_sound(b, 8, le_value(b, 4, 4), rate, force)
}

/// Where the range behind the one at `at` lies, `None` where it would lie past the
/// end of the answer.
fn next_range(b: &[u8], at: usize, r: &DataRange) -> (next: Option<usize>)
    requires
        at <= b@.len(),
    ensures
        match next {
            Some(n) => n == at + r.stride() && n <= b@.len(),
            None => at + r.stride() > b@.len(),
        },
{
    let size: u64 = if r.format_size > 84 {
        r.format_size as u64
    } else {
        84
    };
    let stride: u64 = (size + 7) / 8 * 8;
    if stride > (b.len() - at) as u64 {
        None
    } else {
        Some(at + stride as usize)
    }
}

/// Whether a format can be negotiated from a pin's answer: every range that is read
/// and covers the rate leaves a channel count to choose.
pub fn has_channel_limit(b: &[u8], got: usize, rate: u32, force: Option<SampleFormat>) -> (r: bool)
    ensures
        r == pin_limits_sound(b@, got as nat, rate, force),
{
    let len: usize = b.len();
    if len < 8 || got < 8 {
        return true;
    }
    let mut at: usize = 8;
    let mut left: u32 = read_u32(b, 4);
    while left > 0
        invariant
            8 <= at <= len == b@.len(),
            pin_limits_sound(b@, got as nat, rate, force) == limits_sound(
                b@,
                at as int,
                left as nat,
                rate,
                force,
            ),
        decreases left,
    {
        if len - at < RANGE_SIZE {
            return true;
        }
        let range: DataRange = read_range(b, at);
        if range.is_covering(rate) {
            if range.max_channels % 0x1_0000 == 0 {
                return false;
            }
            if range.offered(rate, 1, force).is_some() {
                return true;
            }
        }
        left = left - 1;
        match next_range(b, at, &range) {
            Some(next) => {
                at = next;
            },
            None => {
                assert(limits_sound(b@, at + range.stride(), left as nat, rate, force));
                return true;
            },
        }
    }
    true
}

/// Picks a concrete PCM format from a pin's data ranges. A range without a fitting
/// depth is passed over, and the next one tried.
pub fn negotiate_pin_format(
    b: &[u8],
    got: usize,
    rate: u32,
    want_ch: u16,
    force: Option<SampleFormat>,
) -> (r: Option<StreamFormat>)
    requires
        pin_limits_sound(b@, got as nat, rate, force),
    ensures
        r == pin_format(b@, got as nat, rate, want_ch, force),
{
    let len: usize = b.len();
    if len < 8 || got < 8 {
        return None;
    }
    let mut at: usize = 8;
    let mut left: u32 = read_u32(b, 4);
    while left > 0
        invariant
            8 <= at <= len == b@.len(),
            limits_sound(b@, at as int, left as nat, rate, force),
            pin_format(b@, got as nat, rate, want_ch, force) == first_offer(
                b@,
                at as int,
                left as nat,
                rate,
                want_ch,
                force,
            ),
        decreases left,
    {
        if len - at < RANGE_SIZE {
            return None;
        }
        let range: DataRange = read_range(b, at);
        if range.is_covering(rate) {
            let offer: Option<StreamFormat> = range.offered(rate, want_ch, force);
            if offer.is_some() {
                return offer;
            }
        }
        left = left - 1;
        match next_range(b, at, &range) {
            Some(next) => {
                at = next;
            },
            None => {
                assert(first_offer(
                    b@,
                    at + range.stride(),
                    left as nat,
                    rate,
                    want_ch,
                    force,
                ) is None);
                return None;
            },
        }
    }
    None
}

proof fn lemma_offer_is_as_wished(
    b: Seq<u8>,
    at: int,
    count: nat,
    rate: u32,
    want_ch: u16,
    force: Option<SampleFormat>,
)
    ensures
        first_offer(b, at, count, rate, want_ch, force) matches Some(f) ==> {
            &&& f.sample_rate == rate
            &&& f.sample_format !is F32
            &&& force is Some && force != Some(SampleFormat::F32) ==> force == Some(f.sample_format)
        },
    decreases count,
{
    if count > 0 && at + RANGE_SIZE <= b.len() {
        let r = range_at(b, at);
        lemma_offer_is_as_wished(b, at + r.stride(), (count - 1) as nat, rate, want_ch, force);
    }
}

/// A negotiated format has the wanted rate, holds integers, and has the forced
/// depth, if one is forced.
pub proof fn law_negotiated_format_is_as_wished(
    b: Seq<u8>,
    got: nat,
    rate: u32,
    want_ch: u16,
    force: Option<SampleFormat>,
)
    ensures
        pin_format(b, got, rate, want_ch, force) matches Some(f) ==> {
            &&& f.sample_rate == rate
            &&& f.sample_format !is F32
            &&& force is Some && force != Some(SampleFormat::F32) ==> force == Some(f.sample_format)
        },
{
    lemma_offer_is_as_wished(b, 8, le_value(b, 4, 4), rate, want_ch, force);
}

/// What a pin states of itself: zero where it states nothing.
pub struct PinFacts {
    pub communication: u32,
    pub dataflow: u32,
    /// The answer to the question for its data ranges, where there is one, and
    /// how many bytes of it were filled.
    pub ranges: Option<(Vec<u8>, usize)>,
}

/// Whether the pin takes a connection, and in the wanted direction.
pub open spec fn is_candidate(communication: u32, dataflow: u32, render: bool) -> bool {
    &&& communication == COMMUNICATION_SINK || communication == COMMUNICATION_BOTH
    &&& dataflow == if render {
        DATAFLOW_IN
    } else {
        DATAFLOW_OUT
    }
}

fn connectable(communication: u32) -> (r: bool)
    ensures
        r == (communication == COMMUNICATION_SINK || communication == COMMUNICATION_BOTH),
{
    communication as i64 == communication_sink() as i64 || communication as i64
        == communication_both() as i64
}

fn flow_is(dataflow: u32, render: bool) -> (r: bool)
    ensures
        r == (dataflow == if render {
            DATAFLOW_IN
        } else {
            DATAFLOW_OUT
        }),
{
    let want: i32 = if render {
        dataflow_in()
    } else {
        dataflow_out()
    };
    dataflow as i64 == want as i64
}

/// Whether the pin's data ranges are worth asking for.
pub fn candidate_pin(communication: u32, dataflow: u32, render: bool) -> (r: bool)
    ensures
        r == is_candidate(communication, dataflow, render),
{
    connectable(communication) && flow_is(dataflow, render)
}

/// What is asked of a pin.
#[derive(Clone, Copy, PartialEq, Eq, Debug, Structural)]
pub struct PinWish {
    pub render: bool,
    pub rate: u32,
    pub channels: u16,
    pub force: Option<SampleFormat>,
}

impl PinFacts {
    /// The format in which the pin grants a wish.
    pub open spec fn grants(self, wish: PinWish) -> Option<StreamFormat> {
        if is_candidate(self.communication, self.dataflow, wish.render) {
            match self.ranges {
                Some((b, got)) => pin_format(b@, got as nat, wish.rate, wish.channels, wish.force),
                None => None,
            }
        } else {
            None
        }
    }

    /// Where the pin's data ranges matter, they leave a channel count to choose.
    pub open spec fn sound(self, wish: PinWish) -> bool {
        is_candidate(self.communication, self.dataflow, wish.render) ==> (self.ranges matches Some(
            (b, got),
        ) ==> pin_limits_sound(b@, got as nat, wish.rate, wish.force))
    }

    fn granted(&self, wish: PinWish) -> (r: Option<StreamFormat>)
        requires
            self.sound(wish),
        ensures
            r == self.grants(wish),
    {
        if !candidate_pin(self.communication, self.dataflow, wish.render) {
            return None;
        }
        match &self.ranges {
            Some(answer) => negotiate_pin_format(
                answer.0.as_slice(),
                answer.1,
                wish.rate,
                wish.channels,
                wish.force,
            ),
            None => None,
        }
    }
}

/// A pin, and the format to open it in.
#[derive(Clone, Copy, PartialEq, Eq, Debug, Structural)]
pub struct PinMatch {
    pub pin_id: usize,
    pub format: StreamFormat,
}

/// Whether pin `k` of a filter is reached: none before it grants the wish.
pub open spec fn is_reached(pins: Seq<PinFacts>, wish: PinWish, k: int) -> bool {
    forall|j: int| 0 <= j < k ==> (#[trigger] pins[j]).grants(wish) is None
}

/// Whether `m` is the first of a filter's pins that grants a wish.
pub open spec fn is_first_grant(pins: Seq<PinFacts>, wish: PinWish, m: PinMatch) -> bool {
    &&& m.pin_id < pins.len()
    &&& pins[m.pin_id as int].grants(wish) == Some(m.format)
    &&& is_reached(pins, wish, m.pin_id as int)
}

/// Whether none of a filter's pins grants a wish.
pub open spec fn none_grants(pins: Seq<PinFacts>, wish: PinWish) -> bool {
    is_reached(pins, wish, pins.len() as int)
}

/// Whether every pin that is reached is sound.
pub open spec fn pins_sound(pins: Seq<PinFacts>, wish: PinWish) -> bool {
    forall|k: int|
        0 <= k < pins.len() && is_reached(pins, wish, k) ==> (#[trigger] pins[k]).sound(wish)
}

/// Finds the first of a filter's pins that grants a wish.
pub fn match_pins(pins: &[PinFacts], wish: PinWish) -> (r: Option<PinMatch>)
    requires
        pins_sound(pins@, wish),
    ensures
        match r {
            Some(m) => is_first_grant(pins@, wish, m),
            None => none_grants(pins@, wish),
        },
{
    let mut i: usize = 0;
    while i < pins.len()
        invariant
            i <= pins@.len(),
            pins_sound(pins@, wish),
            is_reached(pins@, wish, i as int),
        decreases pins@.len() - i,
    {
        if let Some(format) = pins[i].granted(wish) {
            return Some(PinMatch { pin_id: i, format });
        }
        i = i + 1;
    }
    None
}

/// Whether a filter is selected: its path holds the selection, if there is one.
pub open spec fn is_selected(path: Seq<u16>, select: Option<&str>) -> bool {
    select matches Some(sel) ==> has_substring(utf16_text(path), without_trailing_nuls(sel@))
}

/// Whether a filter is selected by its path.
pub fn filter_selected(path: &[u16], select: Option<&str>) -> (r: bool)
    ensures
        r == is_selected(path@, select),
{
    match select {
        Some(sel) => {
            let text = from_utf16_lossy(path);
            contains(text.as_str(), trim_nuls(sel))
        },
        None => true,
    }
}

/// Whether filter `i` has been passed over: it was not selected, could not be
/// opened, or has no pin that grants the wish.
pub open spec fn passed_over<F: Fn(usize) -> Option<Vec<PinFacts>>>(
    paths: Seq<Vec<u16>>,
    select: Option<&str>,
    wish: PinWish,
    probe: F,
    i: int,
) -> bool {
    is_selected(paths[i]@, select) ==> exists|pins: Option<Vec<PinFacts>>| #[trigger]
        probe.ensures((i as usize,), pins) && (pins matches Some(p) ==> none_grants(p@, wish))
}

/// Whether filter `i` is probed: it is selected, and all before it are passed
/// over.
pub open spec fn is_probed<F: Fn(usize) -> Option<Vec<PinFacts>>>(
    paths: Seq<Vec<u16>>,
    select: Option<&str>,
    wish: PinWish,
    probe: F,
    i: int,
) -> bool {
    &&& 0 <= i < paths.len()
    &&& is_selected(paths[i]@, select)
    &&& forall|j: int| 0 <= j < i ==> passed_over(paths, select, wish, probe, j)
}

/// Scans the filters for a pin that grants a wish. `probe` opens a filter and
/// reads its pins; `None` means that it cannot be opened.
pub fn find_pin<F: Fn(usize) -> Option<Vec<PinFacts>>>(
    paths: &[Vec<u16>],
    select: Option<&str>,
    wish: PinWish,
    probe: &F,
) -> (r: Result<(usize, PinMatch)>)
    requires
        forall|i: usize|
            is_probed(paths@, select, wish, *probe, i as int) ==> #[trigger] probe.requires((i,)),
        forall|i: usize, pins: Option<Vec<PinFacts>>| #[trigger]
            probe.ensures((i,), pins) && is_probed(paths@, select, wish, *probe, i as int)
                && pins is Some ==> pins_sound(pins->0@, wish),
    ensures
        match r {
            Ok((i, m)) => {
                &&& is_probed(paths@, select, wish, *probe, i as int)
                &&& exists|pins: Vec<PinFacts>| #[trigger]
                    probe.ensures((i,), Some(pins)) && is_first_grant(pins@, wish, m)
            },
            Err(e) => e is PinNotFound && forall|j: int|
                0 <= j < paths@.len() ==> passed_over(paths@, select, wish, *probe, j),
        },
{
    let mut i: usize = 0;
    while i < paths.len()
        invariant
            i <= paths@.len(),
            forall|i: usize|
                is_probed(paths@, select, wish, *probe, i as int) ==> #[trigger] probe.requires(
                    (i,),
                ),
            forall|i: usize, pins: Option<Vec<PinFacts>>| #[trigger]
                probe.ensures((i,), pins) && is_probed(paths@, select, wish, *probe, i as int)
                    && pins is Some ==> pins_sound(pins->0@, wish),
            forall|j: int| 0 <= j < i ==> passed_over(paths@, select, wish, *probe, j),
        decreases paths@.len() - i,
    {
        if filter_selected(paths[i].as_slice(), select) {
            let found: Option<Vec<PinFacts>> = probe(i);
            if let Some(pins) = &found {
                if let Some(m) = match_pins(pins.as_slice(), wish) {
                    assert(probe.ensures((i,), Some(*pins)));
                    return Ok((i, m));
                }
            }
            assert(probe.ensures(((i as int) as usize,), found));
        }
        assert(passed_over(paths@, select, wish, *probe, i as int));
        i = i + 1;
    }
    Err(EngineError::PinNotFound)
}

/// A filter that can be opened, as it is listed.
pub struct FilterFacts {
    pub path: Vec<u16>,
    pub name: String,
    /// What each pin states: communication and data flow.
    pub pins: Vec<(u32, u32)>,
}

/// Whether a filter has a pin to connect to in the given direction.
pub open spec fn has_pin(pins: Seq<(u32, u32)>, render: bool) -> bool {
    exists|k: int|
        0 <= k < pins.len() && is_candidate((#[trigger] pins[k]).0, pins[k].1, render)
}

fn any_pin(pins: &Vec<(u32, u32)>, render: bool) -> (r: bool)
    ensures
        r == has_pin(pins@, render),
{
    let mut i: usize = 0;
    while i < pins.len()
        invariant
            i <= pins@.len(),
            forall|k: int|
                0 <= k < i ==> !is_candidate((#[trigger] pins@[k]).0, pins@[k].1, render),
        decreases pins@.len() - i,
    {
        if candidate_pin(pins[i].0, pins[i].1, render) {
            return true;
        }
        i = i + 1;
    }
    false
}

/// How a filter is listed: as a render device, as a capture device, or both.
pub open spec fn filter_entries(f: FilterFacts) -> Seq<DeviceView> {
    let render = if has_pin(f.pins@, true) {
        seq![
            DeviceView {
                id: utf16_text(f.path@),
                name: f.name@ + " (render)"@,
                is_capture: false,
            },
        ]
    } else {
        Seq::empty()
    };
    let capture = if has_pin(f.pins@, false) {
        seq![
            DeviceView {
                id: utf16_text(f.path@),
                name: f.name@ + " (capture)"@,
                is_capture: true,
            },
        ]
    } else {
        Seq::empty()
    };
    render + capture
}

/// How the first `n` filters are listed.
pub open spec fn filters_listed(filters: Seq<FilterFacts>, n: nat) -> Seq<DeviceView>
    decreases n,
{
    if n == 0 {
        Seq::empty()
    } else {
        filters_listed(filters, (n - 1) as nat) + filter_entries(filters[n - 1])
    }
}

/// Lists the directions that each filter offers.
pub fn list_devices(filters: &[FilterFacts]) -> (r: Vec<DeviceInfo>)
    ensures
        device_views(r@) == filters_listed(filters@, filters@.len()),
{
    let mut out: Vec<DeviceInfo> = Vec::new();
    assert(device_views(out@) =~= Seq::<DeviceView>::empty());
    let mut i: usize = 0;
    while i < filters.len()
        invariant
            i <= filters@.len(),
            device_views(out@) == filters_listed(filters@, i as nat),
        decreases filters@.len() - i,
    {
        let f: &FilterFacts = &filters[i];
        let ghost before = device_views(out@);
        if any_pin(&f.pins, true) {
            let mut name = f.name.clone();
            name.append(" (render)");
            out.push(
                DeviceInfo { id: from_utf16_lossy(f.path.as_slice()), name, is_capture: false },
            );
        }
        if any_pin(&f.pins, false) {
            let mut name = f.name.clone();
            name.append(" (capture)");
            out.push(
                DeviceInfo { id: from_utf16_lossy(f.path.as_slice()), name, is_capture: true },
            );
        }
        assert(device_views(out@) =~= before + filter_entries(*f));
        i = i + 1;
    }
    out
}

/// The text in `wide`: up to the first NUL, nothing without one.
pub open spec fn registry_text(wide: Seq<u16>) -> Seq<u16> {
    if exists|k: int| 0 <= k < wide.len() && #[trigger] wide[k] == 0 {
        let n = choose|n: int|
            0 <= n < wide.len() && #[trigger] wide[n] == 0 && forall|k: int|
                0 <= k < n ==> #[trigger] wide[k] != 0;
        wide.take(n)
    } else {
        Seq::empty()
    }
}

fn registry_len(wide: &[u16]) -> (r: usize)
    ensures
        r <= wide@.len(),
        wide@.take(r as int) == registry_text(wide@),
{
    let mut i: usize = 0;
    while i < wide.len()
        invariant
            i <= wide@.len(),
            forall|k: int| 0 <= k < i ==> #[trigger] wide@[k] != 0,
        decreases wide@.len() - i,
    {
        if wide[i] == 0 {
            proof {
                let n = choose|n: int|
                    0 <= n < wide@.len() && #[trigger] wide@[n] == 0 && forall|k: int|
                        0 <= k < n ==> #[trigger] wide@[k] != 0;
                assert(wide@[i as int] == 0);
                assert(n == i);
            }
            return i;
        }
        i = i + 1;
    }
    assert(wide@.take(0) =~= Seq::<u16>::empty());
    0
}

/// The name of a filter: its friendly name, else its description, else a
/// placeholder. A property that cannot be read, or is empty, is passed over.
pub open spec fn name_of_filter(friendly: Option<Seq<u16>>, description: Option<Seq<u16>>) -> Seq<
    char,
> {
    if friendly matches Some(w) && registry_text(w).len() > 0 {
        utf16_text(registry_text(friendly->0))
    } else if description matches Some(w) && registry_text(w).len() > 0 {
        utf16_text(registry_text(description->0))
    } else {
        "<ks audio>"@
    }
}

/// The contents of a property as read.
pub open spec fn property_view(p: Option<Vec<u16>>) -> Option<Seq<u16>> {
    match p {
        Some(v) => Some(v@),
        None => None,
    }
}

/// Names a filter after its registry properties.
pub fn filter_name(friendly: &Option<Vec<u16>>, description: &Option<Vec<u16>>) -> (r: String)
    ensures
        r@ == name_of_filter(property_view(*friendly), property_view(*description)),
{
    if let Some(w) = friendly {
        let n: usize = registry_len(w.as_slice());
        if n > 0 {
            return from_utf16_lossy(vstd::slice::slice_subrange(w.as_slice(), 0, n));
        }
    }
    if let Some(w) = description {
        let n: usize = registry_len(w.as_slice());
        if n > 0 {
            return from_utf16_lossy(vstd::slice::slice_subrange(w.as_slice(), 0, n));
        }
    }
    "<ks audio>".to_owned()
}

/// A property identifier: its set, and its number in the set.
#[derive(Clone, Copy, PartialEq, Eq, Debug, Structural)]
pub struct Identifier {
    pub set: u128,
    pub id: u32,
    pub flags: u32,
}

/// What a filter is asked for to connect to a pin.
#[derive(Clone, Copy, PartialEq, Eq, Debug, Structural)]
pub struct PinRequest {
    pub interface: Identifier,
    pub medium: Identifier,
    pub pin_id: u32,
    pub priority_class: u32,
    pub priority_sub_class: u32,
    pub format_size: u32,
    pub format_flags: u32,
    pub sample_size: u32,
    pub major_format: u128,
    pub sub_format: u128,
    pub specifier: u128,
    pub wave: WaveFormat,
    pub access: u32,
}

/// The size of a frame as a wave format states it, in sixteen bits.
pub open spec fn block_align(format: StreamFormat) -> nat {
    format.spec_frame_bytes() % 0x1_0000
}

/// The request for a PCM connection in the given format.
pub open spec fn request_for(pin_id: u32, format: StreamFormat, render: bool) -> PinRequest {
    PinRequest {
        interface: Identifier {
            set: INTERFACESETID_STANDARD,
            id: INTERFACE_STANDARD_STREAMING,
            flags: 0,
        },
        medium: Identifier { set: MEDIUMSETID_STANDARD, id: MEDIUM_STANDARD_DEVIO, flags: 0 },
        pin_id,
        priority_class: 1,
        priority_sub_class: 1,
        format_size: 82,
        format_flags: 0,
        sample_size: block_align(format) as u32,
        major_format: TYPE_AUDIO,
        sub_format: SUBTYPE_PCM,
        specifier: SPECIFIER_WAVEFORMATEX,
        wave: WaveFormat {
            format_tag: WAVE_FORMAT_PCM,
            channels: format.channels,
            samples_per_sec: format.sample_rate,
            avg_bytes_per_sec: (format.sample_rate * block_align(format)) as u32,
            block_align: block_align(format) as u16,
            bits_per_sample: (8 * format.sample_format.spec_bytes()) as u16,
            extra_size: 0,
            extension: None,
        },
        access: if render {
            GENERIC_WRITE
        } else {
            GENERIC_READ
        },
    }
}

/// Describes the connection to ask for; `render` decides on the access.
pub fn create_pin(pin_id: u32, format: StreamFormat, render: bool) -> (r: PinRequest)
    requires
        format.sample_rate * block_align(format) <= u32::MAX,
    ensures
        r == request_for(pin_id, format, render),
{
    let align: u16 = (format.frame_bytes() % 0x1_0000) as u16;
    proof {
        let a = format.sample_rate as int;
        let b = align as int;
        assert(a * b >= 0) by (nonlinear_arith)
            requires
                a >= 0,
                b >= 0,
        ;
    }
    PinRequest {
        interface: Identifier {
            set: interfacesetid_standard(),
            id: INTERFACE_STANDARD_STREAMING,
            flags: 0,
        },
        medium: Identifier { set: mediumsetid_standard(), id: MEDIUM_STANDARD_DEVIO, flags: 0 },
        pin_id,
        priority_class: 1,
        priority_sub_class: 1,
        format_size: 64 + 18,
        format_flags: 0,
        sample_size: align as u32,
        major_format: type_audio(),
        sub_format: subtype_pcm(),
        specifier: specifier_waveformatex(),
        wave: WaveFormat {
            format_tag: WAVE_FORMAT_PCM,
            channels: format.channels,
            samples_per_sec: format.sample_rate,
            avg_bytes_per_sec: format.sample_rate * align as u32,
            block_align: align,
            bits_per_sample: format.sample_format.bits(),
            extra_size: 0,
            extension: None,
        },
        access: if render {
            GENERIC_WRITE
        } else {
            GENERIC_READ
        },
    }
}

/// What became of a request for a connection: an error unless the status is zero
/// and the handle is good.
pub fn pin_created(status: u32, handle_ok: bool, format: StreamFormat) -> (r: Result<()>)
    ensures
        r is Ok <==> status == 0 && handle_ok,
        r matches Err(e) ==> e matches EngineError::Backend(s) && s@
            == "KsCreatePin failed (status 0x"@ + hex(status as nat, 8) + ") for "@
            + format.description(),
{
    if status == 0 && handle_ok {
        return Ok(());
    }
    let mut s = "KsCreatePin failed (status 0x".to_owned();
    push_hex(&mut s, status, 8);
    s.append(") for ");
    s.append(format.describe().as_str());
    Err(EngineError::Backend(s))
}

/// Whether a submitted buffer is on its way: done at once, or pending. `code` is
/// the code of the error, if there was one.
pub fn submitted(code: Option<i32>) -> (r: bool)
    ensures
        r == (code matches Some(c) ==> c == IO_PENDING),
{
    match code {
        None => true,
        Some(c) => c == io_pending(),
    }
}

/// How many whole frames a completed read brought; `None` where it brought not
/// even one.
pub fn captured_frames(data_used: u32, frame_bytes: usize) -> (r: Option<usize>)
    requires
        frame_bytes > 0,
    ensures
        match r {
            Some(n) => n == data_used as nat / frame_bytes as nat && n >= 1,
            None => data_used < frame_bytes,
        },
        r matches Some(n) ==> n * frame_bytes <= data_used < (n + 1) * frame_bytes,
{
    let n: usize = data_used as usize;
    if n >= frame_bytes {
        proof {
            let (a, d) = (n as int, frame_bytes as int);
            vstd::arithmetic::div_mod::lemma_fundamental_div_mod(a, d);
            assert((a / d) * d <= a < (a / d + 1) * d) by (nonlinear_arith)
                requires
                    a == d * (a / d) + a % d,
                    0 <= a % d < d,
            ;
        }
        assert(n / frame_bytes >= 1) by (nonlinear_arith)
            requires
                n >= frame_bytes,
                frame_bytes > 0,
        ;
        Some(n / frame_bytes)
    } else {
        None
    }
}

/// How discontinuities are inferred: kernel streaming has no flag for them that
/// can be relied on.
#[derive(Clone, Copy, PartialEq, Eq, Debug, Structural)]
pub enum GlitchMode {
    /// From the time stamps: when the next packet is due.
    Timestamp { next_expected_pts: i64 },
    /// From the clock: how many frames have come since it was started.
    WallClock { frames_total: u64 },
}

/// Infers discontinuities from what the captured packets state.
pub struct GlitchDetector {
    pub rate: i64,
    pub period_frames: usize,
    pub mode: Option<GlitchMode>,
}

/// What a packet came to.
#[derive(Clone, Copy, PartialEq, Eq, Debug, Structural)]
pub struct Observation {
    pub glitch: bool,
    /// The clock is to be started anew.
    pub restart_clock: bool,
}

impl GlitchDetector {
    pub open spec fn wf(self) -> bool {
        &&& 1 <= self.rate <= u32::MAX
        &&& self.period_frames <= u32::MAX
    }

    /// How long `frames` frames last, in units of 100 ns.
    pub open spec fn duration(self, frames: nat) -> int {
        frames * HNS_PER_SEC / (self.rate as int)
    }

    /// How late a packet may come: half a period.
    pub open spec fn tolerance(self) -> int {
        let period = if self.period_frames > 1 {
            self.period_frames as int
        } else {
            1
        };
        period * HNS_PER_SEC / (self.rate as int) / 2
    }

    pub open spec fn is_hinted(flags: u32) -> bool {
        flags & (DATADISCONTINUITY | TIMEDISCONTINUITY) != 0
    }

    /// Whether the sums for a packet stay within their types.
    pub open spec fn in_range(self, flags: u32, pts: i64, frames: nat) -> bool {
        match self.mode {
            None => flags & TIMEVALID != 0 ==> pts + self.duration(frames) <= i64::MAX,
            Some(GlitchMode::Timestamp { next_expected_pts }) => {
                &&& pts + self.duration(frames) <= i64::MAX
                &&& i64::MIN <= pts - next_expected_pts <= i64::MAX
            },
            Some(GlitchMode::WallClock { frames_total }) => frames_total + frames <= u64::MAX,
        }
    }

    /// The mode after a packet.
    pub open spec fn next_mode(self, flags: u32, pts: i64, frames: nat, late: bool) -> GlitchMode {
        match self.mode {
            None => if flags & TIMEVALID != 0 {
                GlitchMode::Timestamp { next_expected_pts: (pts + self.duration(frames)) as i64 }
            } else {
                GlitchMode::WallClock { frames_total: 0 }
            },
            Some(GlitchMode::Timestamp { .. }) => GlitchMode::Timestamp {
                next_expected_pts: (pts + self.duration(frames)) as i64,
            },
            Some(GlitchMode::WallClock { frames_total }) => GlitchMode::WallClock {
                frames_total: if late {
                    0
                } else {
                    (frames_total + frames) as u64
                },
            },
        }
    }

    /// Whether a packet is a glitch: never the first, otherwise one that comes
    /// too late or is flagged.
    pub open spec fn is_glitch(self, flags: u32, pts: i64, late: bool) -> bool {
        match self.mode {
            None => false,
            Some(GlitchMode::Timestamp { next_expected_pts }) => pts - next_expected_pts
                > self.tolerance() || Self::is_hinted(flags),
            Some(GlitchMode::WallClock { .. }) => late || Self::is_hinted(flags),
        }
    }

    pub fn new(sample_rate: u32, period_frames: usize) -> (r: Self)
        requires
            period_frames <= u32::MAX,
        ensures
            r.wf(),
            r.rate == if sample_rate > 1 {
                sample_rate as int
            } else {
                1
            },
            r.period_frames == period_frames,
            r.mode is None,
    {
        let rate: i64 = if sample_rate > 1 {
            sample_rate as i64
        } else {
            1
        };
        GlitchDetector { rate, period_frames, mode: None }
    }

    /// The frames to hold against the clock, those of the coming packet counted
    /// in; `None` where the clock does not matter.
    pub fn frames_on_clock(&self, frames: u32) -> (r: Option<u64>)
        requires
            self.mode matches Some(GlitchMode::WallClock { frames_total }) ==> frames_total + frames
                <= u64::MAX,
        ensures
            match self.mode {
                Some(GlitchMode::WallClock { frames_total }) => r == Some(
                    (frames_total + frames) as u64,
                ),
                _ => r is None,
            },
    {
        match self.mode {
            Some(GlitchMode::WallClock { frames_total }) => Some(frames_total + frames as u64),
            _ => None,
        }
    }

    /// Whether the sums for a packet stay within their types.
    pub fn can_observe(&self, flags: u32, pts: i64, frames: u32) -> (r: bool)
        requires
            self.wf(),
        ensures
            r == self.in_range(flags, pts, frames as nat),
    {
        let dur: i64 = self.frames_duration(frames);
        let sum_ok: bool = pts <= 0 || dur <= i64::MAX - pts;
        match self.mode {
            None => flags & optionsf_timevalid() == 0 || sum_ok,
            Some(GlitchMode::Timestamp { next_expected_pts }) => {
                let gap: i128 = pts as i128 - next_expected_pts as i128;
                sum_ok && gap <= i64::MAX as i128 && gap >= i64::MIN as i128
            },
            Some(GlitchMode::WallClock { frames_total }) => frames_total <= u64::MAX - frames
                as u64,
        }
    }

    fn frames_duration(&self, frames: u32) -> (r: i64)
        requires
            self.wf(),
        ensures
            r == self.duration(frames as nat),
            0 <= r,
    {
        let n: i64 = frames as i64 * HNS_PER_SEC;
        proof {
            let a = n as int;
            let d = self.rate as int;
            assert(0 <= a / d <= a) by (nonlinear_arith)
                requires
                    a >= 0,
                    d >= 1,
            ;
        }
        n / self.rate
    }

    /// Takes in a packet. `late` says whether the clock is ahead of the frames by
    /// more than the buffers in flight can explain.
    pub fn observe(&mut self, flags: u32, pts: i64, frames: u32, late: bool) -> (r: Observation)
        requires
            old(self).wf(),
            old(self).in_range(flags, pts, frames as nat),
        ensures
            final(self).wf(),
            final(self).rate == old(self).rate,
            final(self).period_frames == old(self).period_frames,
            final(self).mode == Some(old(self).next_mode(flags, pts, frames as nat, late)),
            r.glitch == old(self).is_glitch(flags, pts, late),
            r.restart_clock == match old(self).mode {
                None => flags & TIMEVALID == 0,
                Some(GlitchMode::Timestamp { .. }) => false,
                Some(GlitchMode::WallClock { .. }) => late,
            },
    {
        let hinted: bool = flags & (optionsf_datadiscontinuity() | optionsf_timediscontinuity())
            != 0;
        let dur: i64 = self.frames_duration(frames);
        match self.mode {
            None => {
                if flags & optionsf_timevalid() != 0 {
                    self.mode = Some(GlitchMode::Timestamp { next_expected_pts: pts + dur });
                    Observation { glitch: false, restart_clock: false }
                } else {
                    self.mode = Some(GlitchMode::WallClock { frames_total: 0 });
                    Observation { glitch: false, restart_clock: true }
                }
            },
            Some(GlitchMode::Timestamp { next_expected_pts }) => {
                let period: u32 = if self.period_frames > 1 {
                    self.period_frames as u32
                } else {
                    1
                };
                let tol: i64 = self.frames_duration(period) / 2;
                let gap: bool = pts - next_expected_pts > tol;
                self.mode = Some(GlitchMode::Timestamp { next_expected_pts: pts + dur });
                Observation { glitch: gap || hinted, restart_clock: false }
            },
            Some(GlitchMode::WallClock { frames_total }) => {
                if late {
                    self.mode = Some(GlitchMode::WallClock { frames_total: 0 });
                    Observation { glitch: true, restart_clock: true }
                } else {
                    let total: u64 = frames_total + frames as u64;
                    self.mode = Some(GlitchMode::WallClock { frames_total: total });
                    Observation { glitch: hinted, restart_clock: false }
                }
            },
        }
    }
}

/// A detector never changes its mind about where discontinuities show: once it
/// goes by time stamps, or by the clock, it stays with that.
pub proof fn law_glitch_mode_is_settled(
    d: GlitchDetector,
    flags: u32,
    pts: i64,
    frames: nat,
    late: bool,
)
    requires
        d.mode is Some,
    ensures
        d.next_mode(flags, pts, frames, late) is Timestamp == (d.mode->0 is Timestamp),
{
}

/// Packets that come exactly when they are due, and are not flagged, are no
/// glitches.
pub proof fn law_packets_on_time_are_no_glitches(d: GlitchDetector, flags: u32, pts: i64)
    requires
        d.wf(),
        d.mode == Some(GlitchMode::Timestamp { next_expected_pts: pts }),
        !GlitchDetector::is_hinted(flags),
    ensures
        !d.is_glitch(flags, pts, false),
{
    let period = if d.period_frames > 1 {
        d.period_frames as int
    } else {
        1
    };
    let a = period * HNS_PER_SEC;
    let r = d.rate as int;
    assert(a / r >= 0) by (nonlinear_arith)
        requires
            a >= 0,
            r >= 1,
    ;
}

/// What to look for where the configuration leaves it open: the rate, the
/// channel count and the period.
#[derive(Clone, Copy, PartialEq, Eq, Debug, Structural)]
pub struct Wanted {
    pub rate: u32,
    pub channels: u16,
    pub period_frames: u32,
}

/// The choices of the configuration, completed by 48 kHz, stereo and 256 frames.
pub open spec fn wanted_of(config: EngineConfig) -> Wanted {
    Wanted {
        rate: if config.sample_rate != 0 {
            config.sample_rate
        } else {
            48_000
        },
        channels: if config.channels != 0 {
            config.channels
        } else {
            2
        },
        period_frames: if config.buffer_frames != 0 {
            config.buffer_frames
        } else {
            256
        },
    }
}

pub fn wanted(config: &EngineConfig) -> (r: Wanted)
    ensures
        r == wanted_of(*config),
{
    Wanted {
        rate: if config.sample_rate != 0 {
            config.sample_rate
        } else {
            48_000
        },
        channels: if config.channels != 0 {
            config.channels
        } else {
            2
        },
        period_frames: if config.buffer_frames != 0 {
            config.buffer_frames
        } else {
            256
        },
    }
}

/// How a stream is put together from its pins.
pub struct StreamPlan {
    pub info: StreamInfo,
    pub capture_format: StreamFormat,
    pub proc_ch: usize,
    pub ring_frames: usize,
    pub prime_frames: usize,
}

/// Puts a stream together. The ring has room for a few rounds of the buffers in
/// flight; two periods of silence keep the render side from running ahead of a
/// capture side.
pub fn plan_stream(period_frames: u32, render: StreamFormat, capture: Option<StreamFormat>) -> (r:
    StreamPlan)
    requires
        12 * period_frames <= usize::MAX / 2 + 1,
    ensures
        r.info.backend == Backend::WdmKs,
        r.info.share_mode == ShareMode::Exclusive,
        r.info.capture_format == capture,
        r.info.render_format == render,
        r.info.channels == render.channels,
        r.info.period_frames == period_frames,
        r.info.capture_period_frames == if capture is Some {
            period_frames
        } else {
            0
        },
        r.info.wf(),
        r.capture_format == match capture {
            Some(c) => c,
            None => render,
        },
        r.proc_ch == render.channels,
        r.ring_frames == next_pow2((period_frames * N_BUFFERS * 4) as nat),
        r.prime_frames == if capture is Some {
            2 * period_frames
        } else {
            0
        },
        r.ring_frames >= 4 * N_BUFFERS * period_frames,
        r.prime_frames <= r.ring_frames,
        is_pow2(r.ring_frames as nat),
{
    proof {
        lemma_next_pow2((period_frames * N_BUFFERS * 4) as nat);
    }
    let period: usize = period_frames as usize;
    StreamPlan {
        info: StreamInfo {
            backend: Backend::WdmKs,
            share_mode: ShareMode::Exclusive,
            capture_format: capture,
            render_format: render,
            channels: render.channels,
            period_frames,
            capture_period_frames: if capture.is_some() {
                period_frames
            } else {
                0
            },
        },
        capture_format: match capture {
            Some(c) => c,
            None => render,
        },
        proc_ch: render.channels as usize,
        ring_frames: next_power_of_two(period * N_BUFFERS * 4),
        prime_frames: if capture.is_some() {
            period * 2
        } else {
            0
        },
    }
}

/// A range is asked for a depth that it has: the forced one, or, where none is forced
/// or floats are, the least of 16, 24 and 32 bits that it has. It is passed over
/// exactly where it has none of those.
pub proof fn law_range_is_asked_for_a_depth_it_has(r: DataRange, force: Option<SampleFormat>)
    ensures
        r.depth(force) matches Some(f) ==> {
            &&& r.min_bits <= 8 * f.spec_bytes() <= r.max_bits
            &&& f !is F32
            &&& force is Some && force != Some(SampleFormat::F32) ==> force == Some(f)
        },
        force is None || force == Some(SampleFormat::F32) ==> {
            &&& r.depth(force) is None ==> !r.has_depth(16) && !r.has_depth(24) && !r.has_depth(32)
            &&& r.depth(force) == Some(SampleFormat::I24) ==> !r.has_depth(16)
            &&& r.depth(force) == Some(SampleFormat::I32) ==> !r.has_depth(16) && !r.has_depth(24)
        },
        force is Some && force != Some(SampleFormat::F32) && r.has_depth(
            (8 * force->0.spec_bytes()) as u32,
        ) ==> r.depth(force) == force,
{
}

/// A range is asked for as many channels as are wanted, where it has them, for as many
/// as it has where it has fewer, and never for none.
pub proof fn law_range_is_asked_for_channels_it_has(r: DataRange, want: u16)
    requires
        1 <= r.max_channels <= u16::MAX,
    ensures
        1 <= r.channel_count(want) <= r.max_channels,
        1 <= want <= r.max_channels ==> r.channel_count(want) == want,
        want > r.max_channels ==> r.channel_count(want) == r.max_channels,
{
}

/// What is asked of a range is what was wanted of it: the rate as it is, the channels
/// and the depth as far as the range has them, and samples that fill their container.
pub proof fn law_offer_is_what_was_wanted(
    r: DataRange,
    rate: u32,
    want: u16,
    force: Option<SampleFormat>,
)
    ensures
        r.offer(rate, want, force) matches Some(f) ==> {
            &&& f.sample_rate == rate
            &&& f.channels == r.channel_count(want)
            &&& r.depth(force) == Some(f.sample_format)
            &&& f.valid_bits == 8 * f.sample_format.spec_bytes()
        },
        r.offer(rate, want, force) is None <==> r.depth(force) is None,
{
}

/// A range is used at the rates that it covers and at no others, and only for audio.
pub proof fn law_range_is_used_within_its_rates(r: DataRange, rate: u32, low: u32, high: u32)
    ensures
        r.covers(rate) ==> r.min_rate <= rate <= r.max_rate && r.max_channels >= 1,
        r.covers(low) && r.covers(high) && low <= rate <= high ==> r.covers(rate),
        r.covers(rate) ==> (r.major_format == TYPE_AUDIO || r.major_format == GUID_NULL) && (
        r.sub_format == SUBTYPE_PCM || r.sub_format == GUID_NULL) && (r.specifier
            == SPECIFIER_WAVEFORMATEX || r.specifier == GUID_NULL),
        r.min_rate <= rate <= r.max_rate && r.max_channels >= 1 && r.major_format == TYPE_AUDIO
            && r.sub_format == SUBTYPE_PCM && r.specifier == SPECIFIER_WAVEFORMATEX ==> r.covers(
            rate,
        ),
{
}

/// The ranges of an answer do not overlap, and each starts at a multiple of eight
/// bytes behind the one before it.
pub proof fn law_ranges_are_aligned(r: DataRange)
    ensures
        r.stride() >= RANGE_SIZE,
        r.stride() >= r.format_size,
        r.stride() % 8 == 0,
        r.stride() < 8 + if r.format_size > RANGE_SIZE {
            r.format_size as int
        } else {
            RANGE_SIZE as int
        },
{
}

/// A pin serves one direction: one that takes data renders, one that gives data
/// captures, and none does both. A pin that takes no connection serves none.
pub proof fn law_pins_serve_one_direction(communication: u32, dataflow: u32)
    ensures
        !(is_candidate(communication, dataflow, true) && is_candidate(
            communication,
            dataflow,
            false,
        )),
        is_candidate(communication, dataflow, true) ==> dataflow == DATAFLOW_IN,
        is_candidate(communication, dataflow, false) ==> dataflow == DATAFLOW_OUT,
        communication != COMMUNICATION_SINK && communication != COMMUNICATION_BOTH
            ==> !is_candidate(communication, dataflow, true) && !is_candidate(
            communication,
            dataflow,
            false,
        ),
{
}

/// A filter without a selection is always selected; one whose path is the selection,
/// or holds it, is selected too, whatever NULs stand behind the selection.
pub proof fn law_filters_are_selected_by_their_path(path: Seq<u16>, sel: &str)
    ensures
        is_selected(path, None),
        is_selected(path, Some(sel)) <==> has_substring(
            utf16_text(path),
            without_trailing_nuls(sel@),
        ),
        utf16_text(path) == without_trailing_nuls(sel@) ==> is_selected(path, Some(sel)),
{
    law_substrings_nest(utf16_text(path), Seq::empty(), Seq::empty());
}

/// A filter is listed once for each direction in which it has a pin, under its path,
/// and with its name.
pub proof fn law_filters_are_listed_by_direction(f: FilterFacts, i: int)
    ensures
        has_pin(f.pins@, true) || has_pin(f.pins@, false) <==> filter_entries(f).len() > 0,
        has_pin(f.pins@, true) && has_pin(f.pins@, false) <==> filter_entries(f).len() == 2,
        0 <= i < filter_entries(f).len() ==> {
            let e = filter_entries(f)[i];
            &&& e.id == utf16_text(f.path@)
            &&& has_pin(f.pins@, !e.is_capture)
            &&& e.name == f.name@ + if e.is_capture {
                " (capture)"@
            } else {
                " (render)"@
            }
        },
        filter_entries(f).len() == 2 ==> filter_entries(f)[0].is_capture != filter_entries(
            f,
        )[1].is_capture,
{
}

/// A registry text ends before its first NUL; one that has none is not used at all.
pub proof fn law_registry_text_ends_at_the_first_nul(wide: Seq<u16>, n: int)
    requires
        0 <= n <= wide.len(),
        forall|k: int| 0 <= k < n ==> #[trigger] wide[k] != 0,
    ensures
        n < wide.len() && wide[n] == 0 ==> registry_text(wide) == wide.take(n),
        n == wide.len() ==> registry_text(wide).len() == 0,
{
    if n < wide.len() && wide[n] == 0 {
        let m = choose|m: int|
            0 <= m < wide.len() && #[trigger] wide[m] == 0 && forall|k: int|
                0 <= k < m ==> #[trigger] wide[k] != 0;
        assert(m == n);
    }
}

/// The friendly name of a filter comes before its description, and either before the
/// placeholder.
pub proof fn law_friendly_name_comes_first(
    friendly: Option<Seq<u16>>,
    description: Option<Seq<u16>>,
)
    ensures
        friendly matches Some(w) ==> registry_text(w).len() > 0 ==> name_of_filter(
            friendly,
            description,
        ) == utf16_text(registry_text(w)),
        friendly is None || registry_text(friendly->0).len() == 0 ==> (description matches Some(w)
            ==> registry_text(w).len() > 0 ==> name_of_filter(friendly, description)
            == utf16_text(registry_text(w))),
        friendly is None && description is None ==> name_of_filter(friendly, description)
            == "<ks audio>"@,
{
}

/// What a pin is asked for fits together: the size of a frame is that of all its
/// channels, a second has as many bytes as its frames, the depth is that of the sample
/// format, and the access is writing for a render pin and reading for a capture pin.
pub proof fn law_pin_request_fits_together(pin_id: u32, format: StreamFormat, render: bool)
    requires
        format.spec_frame_bytes() < 0x1_0000,
        format.sample_rate * format.spec_frame_bytes() <= u32::MAX,
    ensures
        ({
            let r = request_for(pin_id, format, render);
            &&& r.pin_id == pin_id
            &&& r.wave.channels == format.channels
            &&& r.wave.samples_per_sec == format.sample_rate
            &&& 8 * r.wave.block_align == r.wave.channels * r.wave.bits_per_sample
            &&& r.wave.avg_bytes_per_sec == r.wave.samples_per_sec * r.wave.block_align
            &&& r.sample_size == r.wave.block_align
            &&& r.wave.bits_per_sample == 8 * format.sample_format.spec_bytes()
            &&& render <==> r.access == GENERIC_WRITE
            &&& !render <==> r.access == GENERIC_READ
        }),
{
    let a = format.sample_rate as int;
    let n = format.spec_frame_bytes() as int;
    let c = format.channels as int;
    let b = format.sample_format.spec_bytes() as int;
    assert(a * n >= 0) by (nonlinear_arith)
        requires
            a >= 0,
            n >= 0,
    ;
    assert(8 * (c * b) == c * (8 * b)) by (nonlinear_arith);
    assert(block_align(format) == n);
}

/// Durations add up to within a unit, and a whole second is ten million units: so
/// the time at which a packet is due follows from the frames before it.
pub proof fn law_durations_follow_the_frames(d: GlitchDetector, a: nat, b: nat)
    requires
        d.wf(),
    ensures
        d.duration(0) == 0,
        d.duration(d.rate as nat) == HNS_PER_SEC,
        d.duration(a) + d.duration(b) <= d.duration(a + b) <= d.duration(a) + d.duration(b) + 1,
        d.duration(a) * d.rate <= a * HNS_PER_SEC < (d.duration(a) + 1) * d.rate,
{
    let r = d.rate as int;
    let h = HNS_PER_SEC as int;
    vstd::arithmetic::div_mod::lemma_fundamental_div_mod(a * h, r);
    vstd::arithmetic::div_mod::lemma_fundamental_div_mod(b * h, r);
    vstd::arithmetic::div_mod::lemma_fundamental_div_mod((a + b) * h, r);
    vstd::arithmetic::div_mod::lemma_fundamental_div_mod_converse(0 * h, r, 0, 0);
    assert(r * h == h * r + 0) by (nonlinear_arith);
    vstd::arithmetic::div_mod::lemma_fundamental_div_mod_converse(r * h, r, h, 0);
    let (qa, qb, qc) = (a * h / r, b * h / r, (a + b) * h / r);
    let (ma, mb, mc) = (a * h % r, b * h % r, (a + b) * h % r);
    assert((a + b) * h == a * h + b * h) by (nonlinear_arith);
    assert(qa + qb <= qc <= qa + qb + 1) by (nonlinear_arith)
        requires
            r >= 1,
            r * qc + mc == r * qa + ma + r * qb + mb,
            0 <= ma < r,
            0 <= mb < r,
            0 <= mc < r,
    ;
    assert(qa * r <= a * h < (qa + 1) * r) by (nonlinear_arith)
        requires
            a * h == r * qa + ma,
            0 <= ma < r,
    ;
}

/// A packet is a glitch exactly when it is flagged as one or comes more than half a
/// period after it was due, and never when it is the first. The next packet is due
/// when the frames of this one have passed.
pub proof fn law_late_packets_are_glitches(
    d: GlitchDetector,
    flags: u32,
    pts: i64,
    frames: nat,
    late: bool,
    due: i64,
)
    requires
        d.wf(),
        d.period_frames >= 1,
        d.mode == Some(GlitchMode::Timestamp { next_expected_pts: due }),
        d.in_range(flags, pts, frames),
    ensures
        flags & (DATADISCONTINUITY | TIMEDISCONTINUITY) != 0 ==> d.is_glitch(flags, pts, late),
        2 * (pts - due) * d.rate > d.period_frames * HNS_PER_SEC ==> d.is_glitch(flags, pts, late),
        pts <= due && flags & (DATADISCONTINUITY | TIMEDISCONTINUITY) == 0 ==> !d.is_glitch(
            flags,
            pts,
            late,
        ),
        (2 * (pts - due) + 3) * d.rate <= d.period_frames * HNS_PER_SEC && flags & (
        DATADISCONTINUITY | TIMEDISCONTINUITY) == 0 ==> !d.is_glitch(flags, pts, late),
        d.next_mode(flags, pts, frames, late) == (GlitchMode::Timestamp {
            next_expected_pts: (pts + d.duration(frames)) as i64,
        }),
{
    let r = d.rate as int;
    let a = d.period_frames * HNS_PER_SEC;
    let q = a / r;
    let m = a % r;
    let gap = pts - due;
    vstd::arithmetic::div_mod::lemma_fundamental_div_mod(a, r);
    assert(d.tolerance() == q / 2);
    assert(q >= 0) by (nonlinear_arith)
        requires
            a >= 0,
            r >= 1,
            q == a / r,
    ;
    if 2 * gap * r > a {
        assert(2 * gap > q) by (nonlinear_arith)
            requires
                2 * gap * r > a,
                a == r * q + m,
                0 <= m,
                r >= 1,
        ;
    }
    if (2 * gap + 3) * r <= a {
        assert(2 * gap + 2 <= q) by (nonlinear_arith)
            requires
                (2 * gap + 3) * r <= a,
                a == r * q + m,
                m < r,
                r >= 1,
        ;
    }
}

/// The first packet is never a glitch, and settles how the others are judged: by
/// their time stamps where they have any, by the clock where they have none. By the
/// clock a packet is a glitch when it is late or flagged, and lateness starts the
/// count anew.
pub proof fn law_first_packet_settles_the_mode(
    d: GlitchDetector,
    flags: u32,
    pts: i64,
    frames: nat,
    late: bool,
    total: u64,
)
    ensures
        d.mode is None ==> !d.is_glitch(flags, pts, late),
        d.mode is None ==> (d.next_mode(flags, pts, frames, late) is Timestamp <==> flags
            & TIMEVALID != 0),
        d.mode == Some(GlitchMode::WallClock { frames_total: total }) ==> {
            &&& d.is_glitch(flags, pts, late) <==> late || flags & (DATADISCONTINUITY
                | TIMEDISCONTINUITY) != 0
            &&& late ==> d.next_mode(flags, pts, frames, late) == (GlitchMode::WallClock {
                frames_total: 0,
            })
            &&& !late && total + frames <= u64::MAX ==> d.next_mode(flags, pts, frames, late) == (
            GlitchMode::WallClock { frames_total: (total + frames) as u64 })
        },
{
}

/// What the configuration asks for is what is looked for; only what it leaves open is
/// filled in, with 48 kHz, stereo and 256 frames.
pub proof fn law_stated_choices_are_kept(config: EngineConfig)
    ensures
        config.sample_rate != 0 ==> wanted_of(config).rate == config.sample_rate,
        config.channels != 0 ==> wanted_of(config).channels == config.channels,
        config.buffer_frames != 0 ==> wanted_of(config).period_frames == config.buffer_frames,
        config.sample_rate == 0 ==> wanted_of(config).rate == 48_000,
        config.channels == 0 ==> wanted_of(config).channels == 2,
        config.buffer_frames == 0 ==> wanted_of(config).period_frames == 256,
{
}

/// Whether the range at `at` of an answer can be used as wanted.
pub open spec fn is_usable(b: Seq<u8>, at: int, rate: u32, force: Option<SampleFormat>) -> bool {
    range_at(b, at).covers(rate) && range_at(b, at).depth(force) is Some
}

/// Of the ranges of a pin the first that can be used is used: one that can is asked
/// as it is, one that cannot is passed over for the one behind it, and an answer
/// without a range, or too short for one, gives no format.
pub proof fn law_first_usable_range_is_used(
    b: Seq<u8>,
    at: int,
    count: nat,
    rate: u32,
    want_ch: u16,
    force: Option<SampleFormat>,
)
    ensures
        count > 0 && at + RANGE_SIZE <= b.len() && is_usable(b, at, rate, force) ==> first_offer(
            b,
            at,
            count,
            rate,
            want_ch,
            force,
        ) == range_at(b, at).offer(rate, want_ch, force),
        count > 0 && at + RANGE_SIZE <= b.len() && !is_usable(b, at, rate, force) ==> first_offer(
            b,
            at,
            count,
            rate,
            want_ch,
            force,
        ) == first_offer(
            b,
            at + range_at(b, at).stride(),
            (count - 1) as nat,
            rate,
            want_ch,
            force,
        ),
        count == 0 || at + RANGE_SIZE > b.len() ==> first_offer(b, at, count, rate, want_ch, force)
            is None,
{
}

/// Every filter is listed as it offers itself, behind those that were found before it
/// and before those that were found after it.
pub proof fn law_every_filter_is_listed(filters: Seq<FilterFacts>, m: nat, n: nat)
    requires
        m < n <= filters.len(),
    ensures
        ({
            let from = filters_listed(filters, m).len() as int;
            let entries = filter_entries(filters[m as int]);
            let all = filters_listed(filters, n);
            &&& all.len() >= from + entries.len()
            &&& all.subrange(from, from + entries.len()) == entries
        }),
    decreases n,
{
    let from = filters_listed(filters, m).len() as int;
    let entries = filter_entries(filters[m as int]);
    let all = filters_listed(filters, n);
    if m == n - 1 {
        assert(all.subrange(from, from + entries.len()) =~= entries);
    } else {
        law_every_filter_is_listed(filters, m, (n - 1) as nat);
        let before = filters_listed(filters, (n - 1) as nat);
        assert(all.subrange(from, from + entries.len()) =~= before.subrange(
            from,
            from + entries.len(),
        ));
    }
}

/// A pin grants a wish only if it serves the wanted direction and has answered, and
/// then at the wanted rate and in the forced format, if one is forced.
pub proof fn law_granted_wish_is_kept(pin: PinFacts, wish: PinWish)
    ensures
        pin.grants(wish) matches Some(f) ==> {
            &&& is_candidate(pin.communication, pin.dataflow, wish.render)
            &&& pin.ranges is Some
            &&& f.sample_rate == wish.rate
            &&& f.sample_format !is F32
            &&& wish.force is Some && wish.force != Some(SampleFormat::F32) ==> wish.force == Some(
                f.sample_format,
            )
        },
        pin.ranges is None ==> pin.grants(wish) is None,
{
    if let Some((b, got)) = pin.ranges {
        law_negotiated_format_is_as_wished(
            b@,
            got as nat,
            wish.rate,
            wish.channels,
            wish.force,
        );
    }
}

/// Of a filter's pins the first that grants a wish is taken, so that the same filter
/// always gives the same pin in the same format.
pub proof fn law_first_granting_pin_is_settled(
    pins: Seq<PinFacts>,
    wish: PinWish,
    a: PinMatch,
    b: PinMatch,
    k: int,
)
    requires
        is_first_grant(pins, wish, a),
        is_first_grant(pins, wish, b),
    ensures
        a == b,
        a.pin_id < pins.len() && pins[a.pin_id as int].grants(wish) == Some(a.format),
        0 <= k < a.pin_id ==> pins[k].grants(wish) is None,
        !none_grants(pins, wish),
{
    if a.pin_id < b.pin_id {
        assert(pins[a.pin_id as int].grants(wish) is None);
    } else if b.pin_id < a.pin_id {
        assert(pins[b.pin_id as int].grants(wish) is None);
    }
    assert(pins[a.pin_id as int].grants(wish) is Some);
}

} // verus!
