//! WASAPI backend: what it asks of an endpoint in shared and in exclusive mode,
//! and how it reads what an endpoint answers.

use vstd::prelude::*;
use windows::Win32::Media::Audio::{
    AUDCLNT_BUFFERFLAGS_DATA_DISCONTINUITY, AUDCLNT_BUFFERFLAGS_SILENT,
    AUDCLNT_E_BUFFER_SIZE_NOT_ALIGNED,
};

use crate::engine::{device_views, Backend, DeviceInfo, DeviceView, EngineConfig, StreamInfo};
use crate::error::{EngineError, Result};
use crate::format::{SampleFormat, StreamFormat};
use crate::ring::{is_pow2, lemma_next_pow2, next_pow2, next_power_of_two};
use crate::text::{decimal, push_decimal, same_text};
use crate::wfx::{build_extensible_ex, extensible, parse, parsed, sizes_fit, WaveFormat};

verus! {

/// The flag of a packet that does not follow on the one before.
pub const FLAG_DATA_DISCONTINUITY: u32 = 1;

/// The flag of a packet to be taken as silence.
pub const FLAG_SILENT: u32 = 2;

/// The code of the error that asks for an aligned buffer size.
pub const NOT_ALIGNED: i32 = -2_004_287_463;

/// The constant `AUDCLNT_BUFFERFLAGS_DATA_DISCONTINUITY` as a number.
#[verifier::external_body]
fn flag_data_discontinuity() -> (r: u32)
    ensures
        r == FLAG_DATA_DISCONTINUITY,
{
    AUDCLNT_BUFFERFLAGS_DATA_DISCONTINUITY.0 as u32
}

/// The constant `AUDCLNT_BUFFERFLAGS_SILENT` as a number.
#[verifier::external_body]
fn flag_silent() -> (r: u32)
    ensures
        r == FLAG_SILENT,
{
    AUDCLNT_BUFFERFLAGS_SILENT.0 as u32
}

/// The constant `AUDCLNT_E_BUFFER_SIZE_NOT_ALIGNED` as a number.
#[verifier::external_body]
fn not_aligned() -> (r: i32)
    ensures
        r == NOT_ALIGNED,
{
    AUDCLNT_E_BUFFER_SIZE_NOT_ALIGNED.0
}

/// An active endpoint. The name is missing where it cannot be read.
pub struct EndpointName {
    pub id: String,
    pub name: Option<String>,
}

/// How an endpoint is listed.
pub open spec fn endpoint_entry(e: EndpointName, is_capture: bool) -> DeviceView {
    DeviceView {
        id: e.id@,
        name: match e.name {
            Some(name) => name@,
            None => "<unknown>"@,
        },
        is_capture,
    }
}

/// How the endpoints of one direction are listed.
pub open spec fn endpoints_listed(endpoints: Seq<EndpointName>, is_capture: bool) -> Seq<
    DeviceView,
> {
    Seq::new(endpoints.len(), |i: int| endpoint_entry(endpoints[i], is_capture))
}

fn push_endpoints(out: &mut Vec<DeviceInfo>, endpoints: &[EndpointName], is_capture: bool)
    ensures
        device_views(final(out)@) == device_views(old(out)@) + endpoints_listed(
            endpoints@,
            is_capture,
        ),
{
    let ghost before = device_views(out@);
    let ghost all = endpoints_listed(endpoints@, is_capture);
    let mut i: usize = 0;
    assert(all.take(0) =~= Seq::<DeviceView>::empty());
    while i < endpoints.len()
        invariant
            i <= endpoints@.len(),
            all == endpoints_listed(endpoints@, is_capture),
            device_views(out@) == before + all.take(i as int),
        decreases endpoints@.len() - i,
    {
        let e: &EndpointName = &endpoints[i];
        let name = match &e.name {
            Some(name) => name.clone(),
            None => "<unknown>".to_owned(),
        };
        let ghost prev = device_views(out@);
        out.push(DeviceInfo { id: e.id.clone(), name, is_capture });
        i = i + 1;
        assert(device_views(out@) =~= prev.push(all[i - 1]));
        assert(device_views(out@) =~= before + all.take(i as int));
    }
    assert(all.take(all.len() as int) =~= all);
}

/// Lists the endpoints: render endpoints first, then capture endpoints.
pub fn list_devices(render: &[EndpointName], capture: &[EndpointName]) -> (r: Vec<DeviceInfo>)
    ensures
        device_views(r@) == endpoints_listed(render@, false) + endpoints_listed(capture@, true),
{
    let mut out: Vec<DeviceInfo> = Vec::new();
    push_endpoints(&mut out, render, false);
    assert(device_views(out@) =~= endpoints_listed(render@, false));
    push_endpoints(&mut out, capture, true);
    out
}

/// Finds the endpoint whose id is `want`.
pub fn pick_device(ids: &[String], want: &str) -> (r: Result<usize>)
    ensures
        match r {
            Ok(i) => i < ids@.len() && ids@[i as int]@ == want@ && forall|k: int|
                0 <= k < i ==> (#[trigger] ids@[k])@ != want@,
            Err(e) => e is NoDevice && forall|k: int|
                0 <= k < ids@.len() ==> (#[trigger] ids@[k])@ != want@,
        },
{
    let mut i: usize = 0;
    while i < ids.len()
        invariant
            i <= ids@.len(),
            forall|k: int| 0 <= k < i ==> (#[trigger] ids@[k])@ != want@,
        decreases ids@.len() - i,
    {
        if same_text(ids[i].as_str(), want) {
            return Ok(i);
        }
        i = i + 1;
    }
    Err(EngineError::NoDevice)
}

/// A duration in frames as units of 100 ns, to the nearest.
pub open spec fn hns(frames: int, rate: int) -> int {
    (frames * 10_000_000 + rate / 2) / rate
}

pub fn frames_to_hns(frames: u32, rate: u32) -> (r: i64)
    requires
        rate > 0,
    ensures
        r == hns(frames as int, rate as int),
        0 <= r,
{
    let sum: u64 = frames as u64 * 10_000_000 + (rate / 2) as u64;
    proof {
        let s = sum as int;
        let d = rate as int;
        assert(0 <= s / d <= s) by (nonlinear_arith)
            requires
                s >= 0,
                d >= 1,
        ;
    }
    (sum / rate as u64) as i64
}

/// The multiple of `f` nearest to `n`, the larger where two are equally near.
pub open spec fn nearest_multiple(n: int, f: int) -> int {
    (n + f / 2) / f * f
}

/// The period of a shared stream: the least, or the request rounded to a
/// multiple of the fundamental period and kept between least and greatest.
pub open spec fn shared_period_frames(requested: int, fundamental: int, min: int, max: int) -> int {
    if requested == 0 {
        min
    } else {
        let f = if fundamental > 1 {
            fundamental
        } else {
            1
        };
        let rounded = nearest_multiple(requested, f);
        if rounded < min {
            min
        } else if rounded > max {
            max
        } else {
            rounded
        }
    }
}

pub fn shared_period(requested: u32, fundamental: u32, min: u32, max: u32) -> (r: u32)
    requires
        requested != 0 ==> min <= max && requested + fundamental / 2 <= u32::MAX,
    ensures
        r == shared_period_frames(requested as int, fundamental as int, min as int, max as int),
{
    if requested == 0 {
        return min;
    }
    let f: u32 = if fundamental > 1 {
        fundamental
    } else {
        1
    };
    let sum: u32 = requested + f / 2;
    assert(sum / f * f <= sum) by (nonlinear_arith)
        requires
            f > 0,
    ;
    let rounded: u32 = sum / f * f;
    if rounded < min {
        min
    } else if rounded > max {
        max
    } else {
        rounded
    }
}

/// The formats to try in exclusive mode, in the order of their fidelity:
/// sample format and valid bits.
pub open spec fn exclusive_formats() -> Seq<(SampleFormat, u16)> {
    seq![
        (SampleFormat::I24, 24u16),
        (SampleFormat::I32, 24u16),
        (SampleFormat::I32, 32u16),
        (SampleFormat::I16, 16u16),
        (SampleFormat::F32, 32u16),
    ]
}

/// Those of the formats that a forced sample format leaves.
pub open spec fn formats_left(force: Option<SampleFormat>) -> Seq<(SampleFormat, u16)> {
    match force {
        None => exclusive_formats(),
        Some(f) => exclusive_formats().filter(|c: (SampleFormat, u16)| c.0 == f),
    }
}

/// The channel counts to try: the preferred one, then that of the mix format.
pub open spec fn channel_counts(pref_ch: u16, mix_ch: u16) -> Seq<u16> {
    if pref_ch != 0 && pref_ch != mix_ch {
        seq![pref_ch, mix_ch]
    } else {
        seq![mix_ch]
    }
}

pub open spec fn candidate(rate: u32, channels: u16, c: (SampleFormat, u16)) -> StreamFormat {
    StreamFormat { sample_rate: rate, channels, sample_format: c.0, valid_bits: c.1 }
}

/// The stream formats to try in exclusive mode, in order.
pub open spec fn exclusive_candidates(
    rate: u32,
    pref_ch: u16,
    mix_ch: u16,
    force: Option<SampleFormat>,
) -> Seq<StreamFormat> {
    let chans = channel_counts(pref_ch, mix_ch);
    let formats = formats_left(force);
    let first = Seq::new(formats.len(), |i: int| candidate(rate, chans[0], formats[i]));
    if chans.len() == 1 {
        first
    } else {
        first + Seq::new(formats.len(), |i: int| candidate(rate, chans[1], formats[i]))
    }
}

fn formats_to_try(force: Option<SampleFormat>) -> (r: Vec<(SampleFormat, u16)>)
    ensures
        r@ == formats_left(force),
{
    let mut all: Vec<(SampleFormat, u16)> = Vec::new();
    all.push((SampleFormat::I24, 24));
    all.push((SampleFormat::I32, 24));
    all.push((SampleFormat::I32, 32));
    all.push((SampleFormat::I16, 16));
    all.push((SampleFormat::F32, 32));
    assert(all@ =~= exclusive_formats());
    match force {
        None => all,
        Some(f) => {
            let ghost keep = |c: (SampleFormat, u16)| c.0 == f;
            let mut left: Vec<(SampleFormat, u16)> = Vec::new();
            let mut i: usize = 0;
            proof {
                assert(all@.take(0).filter(keep) =~= Seq::<(SampleFormat, u16)>::empty()) by {
                    reveal(Seq::filter);
                }
            }
            while i < all.len()
                invariant
                    i <= all@.len(),
                    keep == (|c: (SampleFormat, u16)| c.0 == f),
                    left@ == all@.take(i as int).filter(keep),
                decreases all@.len() - i,
            {
                let c: (SampleFormat, u16) = all[i];
                if c.0 == f {
                    left.push(c);
                }
                proof {
                    let next = all@.take(i + 1);
                    assert(next.drop_last() =~= all@.take(i as int));
                    assert(next.last() == c);
                    reveal(Seq::filter);
                }
                i = i + 1;
            }
            assert(all@.take(all@.len() as int) =~= all@);
            left
        },
    }
}

fn push_candidates(
    out: &mut Vec<StreamFormat>,
    rate: u32,
    channels: u16,
    formats: &Vec<(SampleFormat, u16)>,
)
    ensures
        final(out)@ == old(out)@ + Seq::new(
            formats@.len(),
            |i: int| candidate(rate, channels, formats@[i]),
        ),
{
    let ghost before = out@;
    let ghost all = Seq::new(formats@.len(), |i: int| candidate(rate, channels, formats@[i]));
    let mut i: usize = 0;
    while i < formats.len()
        invariant
            i <= formats@.len(),
            all == Seq::new(formats@.len(), |i: int| candidate(rate, channels, formats@[i])),
            out@ == before + all.take(i as int),
        decreases formats@.len() - i,
    {
        let c: (SampleFormat, u16) = formats[i];
        out.push(
            StreamFormat { sample_rate: rate, channels, sample_format: c.0, valid_bits: c.1 },
        );
        i = i + 1;
        assert(out@ =~= before + all.take(i as int));
    }
    assert(all.take(all.len() as int) =~= all);
}

/// The stream formats to try in exclusive mode, in order.
pub fn candidates(rate: u32, pref_ch: u16, mix_ch: u16, force: Option<SampleFormat>) -> (r: Vec<
    StreamFormat,
>)
    ensures
        r@ == exclusive_candidates(rate, pref_ch, mix_ch, force),
{
    let formats: Vec<(SampleFormat, u16)> = formats_to_try(force);
    let mut out: Vec<StreamFormat> = Vec::new();
    if pref_ch != 0 && pref_ch != mix_ch {
        push_candidates(&mut out, rate, pref_ch, &formats);
    }
    push_candidates(&mut out, rate, mix_ch, &formats);
    assert(out@ =~= exclusive_candidates(rate, pref_ch, mix_ch, force));
    out
}

/// Whether the endpoint may have refused all of `formats`.
pub open spec fn all_refused<F: Fn(&WaveFormat) -> bool>(
    formats: Seq<StreamFormat>,
    accepts: F,
) -> bool {
    forall|j: int|
        0 <= j < formats.len() ==> accepts.ensures(
            (&extensible(#[trigger] formats[j], formats[j].valid_bits),),
            false,
        )
}

/// Finds the first exclusive format that the endpoint accepts. `accepts` asks
/// the endpoint.
pub fn negotiate_exclusive<F: Fn(&WaveFormat) -> bool>(
    rate: u32,
    pref_ch: u16,
    mix_ch: u16,
    force: Option<SampleFormat>,
    accepts: &F,
) -> (r: Option<StreamFormat>)
    requires
        forall|w: &WaveFormat| #[trigger] accepts.requires((w,)),
        forall|i: int|
            0 <= i < exclusive_candidates(rate, pref_ch, mix_ch, force).len() && all_refused(
                exclusive_candidates(rate, pref_ch, mix_ch, force).take(i),
                *accepts,
            ) ==> sizes_fit(#[trigger] exclusive_candidates(rate, pref_ch, mix_ch, force)[i]),
    ensures
        ({
            let all = exclusive_candidates(rate, pref_ch, mix_ch, force);
            match r {
                Some(f) => exists|k: int|
                    {
                        &&& 0 <= k < all.len()
                        &&& f == #[trigger] all[k]
                        &&& accepts.ensures((&extensible(f, f.valid_bits),), true)
                        &&& all_refused(all.take(k), *accepts)
                    },
                None => all_refused(all, *accepts),
            }
        }),
{
    let all: Vec<StreamFormat> = candidates(rate, pref_ch, mix_ch, force);
    let mut i: usize = 0;
    while i < all.len()
        invariant
            i <= all@.len(),
            all@ == exclusive_candidates(rate, pref_ch, mix_ch, force),
            forall|w: &WaveFormat| #[trigger] accepts.requires((w,)),
            forall|k: int|
                0 <= k < all@.len() && all_refused(all@.take(k), *accepts) ==> sizes_fit(
                    #[trigger] all@[k],
                ),
            all_refused(all@.take(i as int), *accepts),
        decreases all@.len() - i,
    {
        let f: StreamFormat = all[i];
        let w: WaveFormat = build_extensible_ex(f, f.valid_bits);
        if accepts(&w) {
            return Some(f);
        }
        assert(all@.take(i + 1) =~= all@.take(i as int).push(f));
        i = i + 1;
    }
    assert(all@.take(all@.len() as int) =~= all@);
    None
}

/// The rate of an exclusive stream: the requested one, or that of the mix format.
pub fn exclusive_rate(config: &EngineConfig, mix_rate: u32) -> (r: u32)
    ensures
        r == if config.sample_rate != 0 {
            config.sample_rate
        } else {
            mix_rate
        },
{
    if config.sample_rate != 0 {
        config.sample_rate
    } else {
        mix_rate
    }
}

/// The error for a rate at which the endpoint accepts no exclusive format.
pub fn no_exclusive_format(rate: u32) -> (r: EngineError)
    ensures
        r matches EngineError::FormatNotSupported(s) && s@ == "no exclusive PCM format at "@
            + decimal(rate as nat) + " Hz"@,
{
    let mut s = "no exclusive PCM format at ".to_owned();
    push_decimal(&mut s, rate as u64);
    s.append(" Hz");
    EngineError::FormatNotSupported(s)
}

/// The period of an exclusive stream in units of 100 ns: the request, if any,
/// but no less than the device's minimum.
pub fn exclusive_period(buffer_frames: u32, rate: u32, min_period: i64) -> (r: i64)
    requires
        buffer_frames != 0 ==> rate > 0,
    ensures
        r == if buffer_frames != 0 && hns(buffer_frames as int, rate as int) > min_period {
            hns(buffer_frames as int, rate as int)
        } else {
            min_period as int
        },
        r >= min_period,
        buffer_frames != 0 ==> r >= hns(buffer_frames as int, rate as int),
        buffer_frames == 0 ==> r == min_period,
{
    if buffer_frames == 0 {
        return min_period;
    }
    let wanted: i64 = frames_to_hns(buffer_frames, rate);
    if wanted > min_period {
        wanted
    } else {
        min_period
    }
}

/// Whether a failed initialisation is worth another try: only where the device
/// wants an aligned size.
pub fn wants_alignment(code: i32) -> (r: bool)
    ensures
        r == (code == NOT_ALIGNED),
{
    code == not_aligned()
}

/// The period of the second try, given the size that the device would align to;
/// `None` where it names none.
pub fn aligned_period(aligned_frames: u32, rate: u32) -> (r: Option<i64>)
    requires
        rate > 0,
    ensures
        match r {
            Some(p) => aligned_frames > 0 && p == hns(aligned_frames as int, rate as int),
            None => aligned_frames == 0,
        },
{
    if aligned_frames > 0 {
        Some(frames_to_hns(aligned_frames, rate))
    } else {
        None
    }
}

/// What the setup of an exclusive endpoint does next.
#[derive(Clone, Copy, PartialEq, Eq, Debug, Structural)]
pub enum SetupStep {
    /// Initialise the endpoint with this period.
    Initialize { period: i64 },
    /// Ask for the buffer size that the endpoint would align to.
    AskAlignment,
    /// Reset the endpoint, to initialise it with this period.
    Reset { period: i64 },
    /// The endpoint is initialised.
    Ready,
    /// The endpoint cannot be initialised; the last error stands.
    Refused,
}

/// The setup of an exclusive endpoint: one try, and a second one where the
/// endpoint wants another buffer size.
#[derive(Clone, Copy, PartialEq, Eq, Debug, Structural)]
pub struct ExclusiveSetup {
    pub rate: u32,
    pub step: SetupStep,
    /// The second try is under way, or was made.
    pub retried: bool,
}

impl ExclusiveSetup {
    pub open spec fn spec_new(rate: u32, period: i64) -> Self {
        ExclusiveSetup { rate, step: SetupStep::Initialize { period }, retried: false }
    }

    /// What follows an initialisation; `code` is that of its error, if any.
    pub open spec fn after_initialize(self, code: Option<i32>) -> Self {
        ExclusiveSetup {
            step: match code {
                None => SetupStep::Ready,
                Some(c) => if c == NOT_ALIGNED && !self.retried {
                    SetupStep::AskAlignment
                } else {
                    SetupStep::Refused
                },
            },
            ..self
        }
    }

    /// What follows the answer to the question for the aligned size.
    pub open spec fn after_alignment(self, frames: u32) -> Self {
        ExclusiveSetup {
            step: if frames > 0 {
                SetupStep::Reset { period: hns(frames as int, self.rate as int) as i64 }
            } else {
                SetupStep::Refused
            },
            retried: true,
            ..self
        }
    }

    /// What follows a reset.
    pub open spec fn after_reset(self, ok: bool) -> Self {
        ExclusiveSetup {
            step: if ok {
                SetupStep::Initialize { period: self.step->Reset_period }
            } else {
                SetupStep::Refused
            },
            ..self
        }
    }

    /// A setup with the given period.
    pub fn new(rate: u32, period: i64) -> (r: Self)
        ensures
            r == Self::spec_new(rate, period),
    {
        ExclusiveSetup { rate, step: SetupStep::Initialize { period }, retried: false }
    }

    /// Takes in how the initialisation went.
    pub fn initialized(&mut self, code: Option<i32>)
        requires
            old(self).step is Initialize,
        ensures
            *final(self) == old(self).after_initialize(code),
    {
        self.step =
        match code {
            None => SetupStep::Ready,
            Some(c) => {
                if wants_alignment(c) && !self.retried {
                    SetupStep::AskAlignment
                } else {
                    SetupStep::Refused
                }
            },
        };
    }

    /// Takes in the size that the endpoint would align to, 0 where it names none.
    pub fn aligned(&mut self, frames: u32)
        requires
            old(self).step is AskAlignment,
            old(self).rate > 0,
        ensures
            *final(self) == old(self).after_alignment(frames),
    {
        self.retried = true;
        self.step =
        match aligned_period(frames, self.rate) {
            Some(period) => SetupStep::Reset { period },
            None => SetupStep::Refused,
        };
    }

    /// Takes in how the reset went.
    pub fn reset(&mut self, ok: bool)
        requires
            old(self).step is Reset,
        ensures
            *final(self) == old(self).after_reset(ok),
    {
        if let SetupStep::Reset { period } = self.step {
            self.step =
            if ok {
                SetupStep::Initialize { period }
            } else {
                SetupStep::Refused
            };
        }
    }

    /// A reset comes only with the second try.
    pub open spec fn wf(self) -> bool {
        &&& self.step is Reset ==> self.retried
        &&& self.step is AskAlignment ==> !self.retried
    }

    /// How many steps are left at most.
    pub open spec fn steps_left(self) -> nat {
        match self.step {
            SetupStep::Initialize { .. } => if self.retried {
                1
            } else {
                4
            },
            SetupStep::AskAlignment => 3,
            SetupStep::Reset { .. } => 2,
            SetupStep::Ready => 0,
            SetupStep::Refused => 0,
        }
    }
}

/// The setup of an exclusive endpoint comes to an end: every answer brings it
/// closer, so that it initialises the endpoint twice at most.
pub proof fn law_exclusive_setup_ends(s: ExclusiveSetup, code: Option<i32>, frames: u32, ok: bool)
    requires
        s.wf(),
    ensures
        s.step is Initialize ==> s.after_initialize(code).wf() && s.after_initialize(
            code,
        ).steps_left() < s.steps_left(),
        s.step is AskAlignment ==> s.after_alignment(frames).wf() && s.after_alignment(
            frames,
        ).steps_left() < s.steps_left(),
        s.step is Reset ==> s.after_reset(ok).wf() && s.after_reset(ok).steps_left()
            < s.steps_left(),
        s.retried && s.step is Initialize ==> !(s.after_initialize(code).step is AskAlignment),
{
}

/// The format of an endpoint's shared mix.
pub fn mix_format(mix: &WaveFormat) -> (r: Result<StreamFormat>)
    requires
        mix.wf(),
    ensures
        match r {
            Ok(f) => parsed(*mix) == Some(f),
            Err(e) => parsed(*mix) is None && (e matches EngineError::FormatNotSupported(s) && s@
                == "mix format"@),
        },
{
    match parse(mix) {
        Some(f) => Ok(f),
        None => Err(EngineError::FormatNotSupported("mix format".to_owned())),
    }
}

/// The rate and the channel count of an endpoint's shared mix.
pub fn mix_rate_channels(mix: &WaveFormat) -> (r: Result<(u32, u16)>)
    requires
        mix.wf(),
    ensures
        match r {
            Ok(v) => parsed(*mix) matches Some(f) && v == (f.sample_rate, f.channels),
            Err(e) => parsed(*mix) is None && (e matches EngineError::FormatNotSupported(s) && s@
                == "mix format"@),
        },
{
    match mix_format(mix) {
        Ok(f) => Ok((f.sample_rate, f.channels)),
        Err(e) => Err(e),
    }
}

/// How a captured packet is to be taken.
#[derive(Clone, Copy, PartialEq, Eq, Debug, Structural)]
pub struct PacketUse {
    pub discontinuity: bool,
    pub silent: bool,
}

/// Reads the flags of captured packets.
pub struct PacketFlags {
    pub first_packet: bool,
}

impl PacketFlags {
    /// The reader of a stream that has captured nothing yet.
    pub fn new() -> (r: Self)
        ensures
            r.first_packet,
    {
        PacketFlags { first_packet: true }
    }

    /// Reads the flags of the next packet. The first packet of a stream is never
    /// a discontinuity; a packet without data is silence.
    pub fn read(&mut self, flags: u32, has_data: bool) -> (r: PacketUse)
        ensures
            !final(self).first_packet,
            r.discontinuity == (flags & FLAG_DATA_DISCONTINUITY != 0 && !old(self).first_packet),
            r.silent == (flags & FLAG_SILENT != 0 || !has_data),
    {
        let discontinuity: bool = flags & flag_data_discontinuity() != 0 && !self.first_packet;
        self.first_packet = false;
        PacketUse { discontinuity, silent: flags & flag_silent() != 0 || !has_data }
    }
}

/// How many frames to render: the whole buffer in exclusive mode, otherwise what
/// the device has played.
pub fn render_frames(exclusive: bool, buffer_frames: u32, padding: u32) -> (r: u32)
    requires
        !exclusive ==> padding <= buffer_frames,
    ensures
        r == if exclusive {
            buffer_frames as int
        } else {
            buffer_frames - padding
        },
        exclusive ==> r == buffer_frames,
        !exclusive ==> r + padding == buffer_frames,
{
    if exclusive {
        buffer_frames
    } else {
        buffer_frames - padding
    }
}

/// An opened endpoint: its format and the size of its buffer.
#[derive(Clone, Copy, PartialEq, Eq, Debug, Structural)]
pub struct Opened {
    pub format: StreamFormat,
    pub buffer_frames: u32,
}

/// How a stream is put together from its endpoints.
pub struct StreamPlan {
    pub info: StreamInfo,
    pub capture_format: StreamFormat,
    pub proc_ch: usize,
    pub ring_frames: usize,
    pub prime_frames: usize,
    /// The two endpoints run at different rates.
    pub drift: bool,
}

/// The larger of the two buffers.
pub open spec fn larger_buffer(render: Opened, capture: Option<Opened>) -> u32 {
    match capture {
        Some(c) => if c.buffer_frames > render.buffer_frames {
            c.buffer_frames
        } else {
            render.buffer_frames
        },
        None => render.buffer_frames,
    }
}

/// Puts a stream together. The ring has slack for a few periods, so that the
/// two threads may jitter; one render buffer of silence primes it where there is
/// something to wait for.
pub fn plan_stream(config: &EngineConfig, render: Opened, capture: Option<Opened>) -> (r: StreamPlan)
    requires
        4 * larger_buffer(render, capture) <= usize::MAX / 2 + 1,
    ensures
        r.info.backend == Backend::Wasapi,
        r.info.share_mode == config.share_mode,
        r.info.render_format == render.format,
        r.info.channels == render.format.channels,
        r.info.period_frames == render.buffer_frames,
        r.info.wf(),
        match capture {
            Some(c) => {
                &&& r.info.capture_format == Some(c.format)
                &&& r.info.capture_period_frames == c.buffer_frames
                &&& r.capture_format == c.format
                &&& r.drift == (c.format.sample_rate != render.format.sample_rate)
            },
            None => {
                &&& r.info.capture_format is None
                &&& r.info.capture_period_frames == 0
                &&& r.capture_format == render.format
                &&& !r.drift
            },
        },
        r.proc_ch == render.format.channels,
        r.ring_frames == next_pow2((4 * larger_buffer(render, capture)) as nat),
        r.prime_frames == if capture is Some {
            render.buffer_frames
        } else {
            0
        },
        r.ring_frames >= 4 * render.buffer_frames,
        capture matches Some(c) ==> r.ring_frames >= 4 * c.buffer_frames,
        r.prime_frames <= r.ring_frames,
        is_pow2(r.ring_frames as nat),
{
    proof {
        lemma_next_pow2((4 * larger_buffer(render, capture)) as nat);
    }
    let mut capture_format: StreamFormat = render.format;
    let mut stated: Option<StreamFormat> = None;
    let mut capture_period_frames: u32 = 0;
    let mut largest: u32 = render.buffer_frames;
    let mut drift: bool = false;
    let mut prime_frames: usize = 0;
    if let Some(c) = capture {
        prime_frames = render.buffer_frames as usize;
        capture_format = c.format;
        stated = Some(c.format);
        capture_period_frames = c.buffer_frames;
        if c.buffer_frames > largest {
            largest = c.buffer_frames;
        }
        drift = c.format.sample_rate != render.format.sample_rate;
    }
    let ring_frames: usize = next_power_of_two(largest as usize * 4);
    StreamPlan {
        info: StreamInfo {
            backend: Backend::Wasapi,
            share_mode: config.share_mode,
            capture_format: stated,
            render_format: render.format,
            channels: render.format.channels,
            period_frames: render.buffer_frames,
            capture_period_frames,
        },
        capture_format,
        proc_ch: render.format.channels as usize,
        ring_frames,
        prime_frames,
        drift,
    }
}

/// The warning for endpoints that run at different rates.
pub fn drift_warning(capture_rate: u32, render_rate: u32) -> (r: String)
    ensures
        r@ == "warning: capture "@ + decimal(capture_rate as nat) + " Hz != render "@ + decimal(
            render_rate as nat,
        ) + " Hz; duplex will drift"@,
{
    let mut s = "warning: capture ".to_owned();
    push_decimal(&mut s, capture_rate as u64);
    s.append(" Hz != render ");
    push_decimal(&mut s, render_rate as u64);
    s.append(" Hz; duplex will drift");
    s
}

/// A duration in frames and the same in units of 100 ns differ by less than
/// half a unit.
pub proof fn law_hns_is_nearest(frames: int, rate: int)
    requires
        0 <= frames,
        0 < rate,
    ensures
        2 * (frames * 10_000_000 - hns(frames, rate) * rate) < rate,
        2 * (hns(frames, rate) * rate - frames * 10_000_000) <= rate,
{
    let a = frames * 10_000_000;
    let h = rate / 2;
    let q = hns(frames, rate);
    vstd::arithmetic::div_mod::lemma_fundamental_div_mod(a + h, rate);
    let m = (a + h) % rate;
    assert(q * rate == a + h - m) by (nonlinear_arith)
        requires
            a + h == rate * q + m,
    ;
}

/// A shared period lies between the engine's least and greatest.
pub proof fn law_shared_period_is_in_range(requested: int, fundamental: int, min: int, max: int)
    requires
        min <= max,
    ensures
        min <= shared_period_frames(requested, fundamental, min, max) <= max,
{
}

/// A forced sample format is the only one tried.
pub proof fn law_forced_format_is_the_only_one_tried(
    rate: u32,
    pref_ch: u16,
    mix_ch: u16,
    force: SampleFormat,
    i: int,
)
    requires
        0 <= i < exclusive_candidates(rate, pref_ch, mix_ch, Some(force)).len(),
    ensures
        exclusive_candidates(rate, pref_ch, mix_ch, Some(force))[i].sample_format == force,
        exclusive_candidates(rate, pref_ch, mix_ch, Some(force))[i].sample_rate == rate,
{
    let keep = |c: (SampleFormat, u16)| c.0 == force;
    let formats = formats_left(Some(force));
    assert forall|k: int| 0 <= k < formats.len() implies (#[trigger] formats[k]).0 == force by {
        exclusive_formats().lemma_filter_pred(keep, k);
    }
}

/// The nearest multiple is a multiple, and at most half a step away, upwards where
/// two are equally near; a multiple is its own nearest one.
pub proof fn law_nearest_multiple_is_nearest(n: int, f: int)
    requires
        0 <= n,
        0 < f,
    ensures
        nearest_multiple(n, f) % f == 0,
        2 * (nearest_multiple(n, f) - n) <= f,
        2 * (n - nearest_multiple(n, f)) < f,
        n % f == 0 ==> nearest_multiple(n, f) == n,
{
    let h = f / 2;
    let q = (n + h) / f;
    let m = (n + h) % f;
    vstd::arithmetic::div_mod::lemma_fundamental_div_mod(n + h, f);
    assert(q * f == n + h - m) by (nonlinear_arith)
        requires
            n + h == f * q + m,
    ;
    vstd::arithmetic::div_mod::lemma_mod_multiples_basic(q, f);
    if n % f == 0 {
        let p = n / f;
        vstd::arithmetic::div_mod::lemma_fundamental_div_mod(n, f);
        assert(n + h == f * p + h);
        assert(n + h == p * f + h) by (nonlinear_arith)
            requires
                n + h == f * p + h,
        ;
        vstd::arithmetic::div_mod::lemma_fundamental_div_mod_converse(n + h, f, p, h);
        assert(q * f == n) by (nonlinear_arith)
            requires
                q == p,
                n == f * p,
        ;
    }
}

/// A requested shared period that the engine offers is the one used, and without a
/// request the least period is. Any other request comes to an offered period at most
/// half a step away, or to the end of the range.
pub proof fn law_offered_shared_period_is_used(
    requested: int,
    fundamental: int,
    min: int,
    max: int,
)
    requires
        0 <= requested,
        0 < fundamental,
        min <= max,
    ensures
        ({
            let used = shared_period_frames(requested, fundamental, min, max);
            &&& requested == 0 ==> used == min
            &&& requested > 0 && min <= requested <= max && requested % fundamental == 0 ==> used
                == requested
            &&& requested > 0 && min < used < max ==> used % fundamental == 0 && 2 * (used
                - requested) <= fundamental && 2 * (requested - used) <= fundamental
            &&& requested > 0 && used == min && min < max ==> 2 * requested <= 2 * min
                + fundamental
            &&& requested > 0 && used == max && min < max ==> 2 * requested >= 2 * max
                - fundamental
        }),
{
    law_nearest_multiple_is_nearest(requested, fundamental);
}

/// A longer duration is never fewer units, a whole second is ten million of them, and
/// no time is none.
pub proof fn law_hns_counts_seconds(a: int, b: int, rate: int)
    requires
        0 <= a <= b,
        0 < rate,
    ensures
        hns(a, rate) <= hns(b, rate),
        hns(rate, rate) == 10_000_000,
        hns(0, rate) == 0,
{
    let h = rate / 2;
    vstd::arithmetic::div_mod::lemma_div_is_ordered(a * 10_000_000 + h, b * 10_000_000 + h, rate);
    vstd::arithmetic::div_mod::lemma_fundamental_div_mod_converse(
        rate * 10_000_000 + h,
        rate,
        10_000_000,
        h,
    );
    vstd::arithmetic::div_mod::lemma_fundamental_div_mod_converse(h, rate, 0, h);
}

/// Whether a format of this kind is among the candidates.
pub open spec fn is_tried(
    all: Seq<StreamFormat>,
    channels: u16,
    format: SampleFormat,
    bits: u16,
) -> bool {
    exists|i: int|
        0 <= i < all.len() && (#[trigger] all[i]).channels == channels && all[i].sample_format
            == format && all[i].valid_bits == bits
}

proof fn lemma_format_is_left(force: Option<SampleFormat>, c: (SampleFormat, u16), at: int)
    requires
        0 <= at < exclusive_formats().len(),
        exclusive_formats()[at] == c,
        force is None || force == Some(c.0),
    ensures
        formats_left(force).contains(c),
        formats_left(force).len() > 0,
{
    let all = exclusive_formats();
    assert(all.contains(c));
    if let Some(f) = force {
        let keep = |c: (SampleFormat, u16)| c.0 == f;
        all.lemma_filter_contains(keep, at);
        assert(all.filter(keep).contains(c));
    }
    let k = choose|k: int| 0 <= k < formats_left(force).len() && formats_left(force)[k] == c;
    assert(formats_left(force).len() > k);
}

proof fn lemma_left_format_is_tried(
    rate: u32,
    pref_ch: u16,
    mix_ch: u16,
    force: Option<SampleFormat>,
    c: (SampleFormat, u16),
)
    requires
        formats_left(force).contains(c),
    ensures
        is_tried(exclusive_candidates(rate, pref_ch, mix_ch, force), mix_ch, c.0, c.1),
        pref_ch != 0 ==> is_tried(
            exclusive_candidates(rate, pref_ch, mix_ch, force),
            pref_ch,
            c.0,
            c.1,
        ),
{
    let all = exclusive_candidates(rate, pref_ch, mix_ch, force);
    let formats = formats_left(force);
    let n = formats.len() as int;
    let k = choose|k: int| 0 <= k < n && formats[k] == c;
    if pref_ch != 0 && pref_ch != mix_ch {
        assert(all[k] == candidate(rate, pref_ch, c));
        assert(all[n + k] == candidate(rate, mix_ch, c));
    } else {
        assert(all[k] == candidate(rate, mix_ch, c));
    }
}

/// In exclusive mode every sample format is tried unless another one is forced, with
/// all the bits of its container, and 24 bits in 32 as well. The wanted channel count
/// is tried first, and that of the mix is tried too.
pub proof fn law_every_exclusive_format_is_tried(
    rate: u32,
    pref_ch: u16,
    mix_ch: u16,
    force: Option<SampleFormat>,
    format: SampleFormat,
)
    requires
        force is None || force == Some(format),
    ensures
        ({
            let all = exclusive_candidates(rate, pref_ch, mix_ch, force);
            let bits = (8 * format.spec_bytes()) as u16;
            &&& is_tried(all, mix_ch, format, bits)
            &&& pref_ch != 0 ==> is_tried(all, pref_ch, format, bits)
            &&& format is I32 ==> is_tried(all, mix_ch, format, 24)
            &&& pref_ch != 0 ==> all[0].channels == pref_ch
            &&& pref_ch == 0 ==> all[0].channels == mix_ch
        }),
{
    let bits = (8 * format.spec_bytes()) as u16;
    let place: int = match format {
        SampleFormat::I24 => 0,
        SampleFormat::I32 => 2,
        SampleFormat::I16 => 3,
        SampleFormat::F32 => 4,
    };
    lemma_format_is_left(force, (format, bits), place);
    lemma_left_format_is_tried(rate, pref_ch, mix_ch, force, (format, bits));
    if format is I32 {
        lemma_format_is_left(force, (format, 24u16), 1);
        lemma_left_format_is_tried(rate, pref_ch, mix_ch, force, (format, 24u16));
    }
}

/// Every format that is tried has the wanted rate, the wanted channel count or that
/// of the mix, and no more valid bits than its container holds. Without a forced
/// format the first one is packed 24-bit, and floats come last.
pub proof fn law_tried_formats_are_sound(
    rate: u32,
    pref_ch: u16,
    mix_ch: u16,
    force: Option<SampleFormat>,
    i: int,
)
    requires
        0 <= i < exclusive_candidates(rate, pref_ch, mix_ch, force).len(),
    ensures
        ({
            let f = exclusive_candidates(rate, pref_ch, mix_ch, force)[i];
            &&& f.sample_rate == rate
            &&& f.channels == mix_ch || (f.channels == pref_ch && pref_ch != 0)
            &&& f.valid_bits <= 8 * f.sample_format.spec_bytes()
            &&& f.valid_bits >= 16
        }),
        force is None ==> exclusive_candidates(rate, pref_ch, mix_ch, force)[0].sample_format is I24,
        force is None ==> exclusive_candidates(
            rate,
            pref_ch,
            mix_ch,
            force,
        ).last().sample_format is F32,
{
    let formats = formats_left(force);
    assert forall|k: int| 0 <= k < formats.len() implies exclusive_formats().contains(
        #[trigger] formats[k],
    ) by {
        if let Some(f) = force {
            let keep = |c: (SampleFormat, u16)| c.0 == f;
            exclusive_formats().lemma_filter_contains_rev(keep, formats[k]);
        }
    }
    let n = formats.len() as int;
    let k = if i < n {
        i
    } else {
        i - n
    };
    assert(exclusive_formats().contains(formats[k]));
}

/// The larger of two buffers is one of them, and no less than either.
pub proof fn law_larger_buffer_covers_both(render: Opened, capture: Option<Opened>)
    ensures
        larger_buffer(render, capture) >= render.buffer_frames,
        capture matches Some(c) ==> larger_buffer(render, capture) >= c.buffer_frames,
        larger_buffer(render, capture) == render.buffer_frames || (capture matches Some(c)
            && larger_buffer(render, capture) == c.buffer_frames),
{
}

/// The second try of an exclusive setup asks for the size that the endpoint named: it
/// is made only after the endpoint has refused the first for its alignment, with the
/// duration of that many frames at the stream's rate. Any other refusal stands.
pub proof fn law_second_try_takes_the_aligned_size(
    s: ExclusiveSetup,
    code: Option<i32>,
    frames: u32,
)
    ensures
        code is None ==> s.after_initialize(code).step is Ready,
        s.after_initialize(code).step is AskAlignment ==> code == Some(NOT_ALIGNED) && !s.retried,
        code is Some && code != Some(NOT_ALIGNED) ==> s.after_initialize(code).step is Refused,
        code == Some(NOT_ALIGNED) && !s.retried ==> s.after_initialize(code).step is AskAlignment,
        code == Some(NOT_ALIGNED) && s.retried ==> s.after_initialize(code).step is Refused,
        s.rate > 0 && frames > 0 ==> ({
            let a = s.after_alignment(frames);
            let again = a.after_reset(true);
            &&& again.step == SetupStep::Initialize {
                period: hns(frames as int, s.rate as int) as i64,
            }
            &&& again.retried && again.rate == s.rate
            &&& a.after_reset(false).step is Refused
        }),
        frames == 0 ==> s.after_alignment(frames).step is Refused,
{
}

/// An endpoint is listed once, by its identifier, in its own direction, and by its
/// name where it has one.
pub proof fn law_every_endpoint_is_listed(
    endpoints: Seq<EndpointName>,
    is_capture: bool,
    i: int,
)
    requires
        0 <= i < endpoints.len(),
    ensures
        endpoints_listed(endpoints, is_capture).len() == endpoints.len(),
        endpoints_listed(endpoints, is_capture)[i].id == endpoints[i].id@,
        endpoints_listed(endpoints, is_capture)[i].is_capture == is_capture,
        endpoints[i].name matches Some(n) ==> endpoints_listed(endpoints, is_capture)[i].name
            == n@,
        endpoints[i].name is None ==> endpoints_listed(endpoints, is_capture)[i].name
            == "<unknown>"@,
{
}

} // verus!
