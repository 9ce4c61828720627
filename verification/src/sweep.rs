//! The benchmark sweep: which configurations it runs, what it records of each,
//! and the log and report it makes of the records.

use vstd::arithmetic::power2::{lemma2_to64, pow2};
use vstd::prelude::*;

use crate::engine::{Backend, DeviceInfo, EngineConfig, ShareMode, StreamInfo};
use crate::error::{EngineError, Result};
use crate::format::SampleFormat;
use crate::opts::{backend_name, backend_text, chars, law_backend_names_differ, Opts};
use crate::probe::{
    hit_stats, is_sorted_copy, is_summary, law_summary_bounds_the_hits, sum_of, HitStats,
};
use crate::report::Row;
use crate::text::{
    contains, decimal, fields, has_substring, is_free_of, joined, law_numerals_differ,
    law_substrings_nest, lemma_decimal_is_free_of, lemma_joined_agrees, lemma_next_field,
    lemma_one_field, lemma_regroup, lower_text, push_decimal, same_text, to_lowercase,
};

verus! {

/// The short name of a sample format, with the valid bits where they do not fill
/// the container.
pub open spec fn label_text(sf: SampleFormat, valid: u16) -> Seq<char> {
    if valid != 8 * sf.spec_bytes() {
        sf.spec_name() + "/"@ + decimal(valid as nat)
    } else {
        sf.spec_name()
    }
}

pub fn fmt_label(sf: SampleFormat, valid: u16) -> (r: String)
    ensures
        r@ == label_text(sf, valid),
{
    let mut s = sf.name().to_owned();
    if valid != sf.bits() {
        s.append("/");
        push_decimal(&mut s, valid as u64);
    }
    s
}

/// The sample format that a name stands for; none for any other text.
pub open spec fn format_named(s: Seq<char>) -> Option<SampleFormat> {
    if s == "i16"@ {
        Some(SampleFormat::I16)
    } else if s == "i24"@ {
        Some(SampleFormat::I24)
    } else if s == "i32"@ {
        Some(SampleFormat::I32)
    } else if s == "f32"@ {
        Some(SampleFormat::F32)
    } else {
        None
    }
}

pub fn fmt_from_str(s: &str) -> (r: Option<SampleFormat>)
    ensures
        r == format_named(s@),
{
    if same_text(s, "i16") {
        Some(SampleFormat::I16)
    } else if same_text(s, "i24") {
        Some(SampleFormat::I24)
    } else if same_text(s, "i32") {
        Some(SampleFormat::I32)
    } else if same_text(s, "f32") {
        Some(SampleFormat::F32)
    } else {
        None
    }
}

/// Whether a device goes by `name`, in the wanted direction: by a part of its
/// name, in any case.
pub open spec fn goes_by(d: DeviceInfo, name: Seq<char>, capture: bool) -> bool {
    d.is_capture == capture && has_substring(lower_text(d.name@), lower_text(name))
}

/// Finds the first device that goes by `name`.
pub fn resolve_device(devices: &[DeviceInfo], name: &str, capture: bool) -> (r: Option<usize>)
    ensures
        match r {
            Some(i) => i < devices@.len() && goes_by(devices@[i as int], name@, capture)
                && forall|k: int| 0 <= k < i ==> !goes_by(#[trigger] devices@[k], name@, capture),
            None => forall|k: int|
                0 <= k < devices@.len() ==> !goes_by(#[trigger] devices@[k], name@, capture),
        },
{
    let want = to_lowercase(name);
    let mut i: usize = 0;
    while i < devices.len()
        invariant
            i <= devices@.len(),
            want@ == lower_text(name@),
            forall|k: int| 0 <= k < i ==> !goes_by(#[trigger] devices@[k], name@, capture),
        decreases devices@.len() - i,
    {
        let d: &DeviceInfo = &devices[i];
        if d.is_capture == capture {
            let lower = to_lowercase(d.name.as_str());
            if contains(lower.as_str(), want.as_str()) {
                return Some(i);
            }
        }
        i = i + 1;
    }
    None
}

/// One configuration to run.
pub struct Job {
    pub backend: Backend,
    pub mode: &'static str,
    pub req_rate: u32,
    pub req_format: &'static str,
    pub req_block: u32,
    pub config: EngineConfig,
}

/// What a job asks for.
pub struct JobView {
    pub backend: Backend,
    pub mode: Seq<char>,
    pub req_rate: u32,
    pub req_format: Seq<char>,
    pub req_block: u32,
    pub config_backend: Backend,
    pub share_mode: ShareMode,
    pub sample_rate: u32,
    pub channels: u16,
    pub buffer_frames: u32,
    pub capture_device: Option<Seq<char>>,
    pub render_device: Option<Seq<char>>,
    pub input_channel: u16,
    pub output_channel: u16,
    pub force_format: Option<SampleFormat>,
    pub output_only: bool,
}

impl View for Job {
    type V = JobView;

    open spec fn view(&self) -> JobView {
        JobView {
            backend: self.backend,
            mode: self.mode@,
            req_rate: self.req_rate,
            req_format: self.req_format@,
            req_block: self.req_block,
            config_backend: self.config.backend,
            share_mode: self.config.share_mode,
            sample_rate: self.config.sample_rate,
            channels: self.config.channels,
            buffer_frames: self.config.buffer_frames,
            capture_device: chars(self.config.capture_device),
            render_device: chars(self.config.render_device),
            input_channel: self.config.input_channel,
            output_channel: self.config.output_channel,
            force_format: self.config.force_format,
            output_only: self.config.output_only,
        }
    }
}

/// What each job of a list asks for.
pub open spec fn job_views(jobs: Seq<Job>) -> Seq<JobView> {
    Seq::new(jobs.len(), |i: int| jobs[i]@)
}

/// The sample rates of a full sweep.
pub open spec fn all_rates() -> Seq<u32> {
    seq![44_100u32, 48_000u32, 88_200u32, 96_000u32, 176_400u32, 192_000u32]
}

/// The block sizes to run in WASAPI exclusive mode; 0 is the device's own.
pub open spec fn exclusive_blocks() -> Seq<u32> {
    seq![0u32, 128u32, 192u32, 256u32, 384u32, 512u32, 768u32, 1024u32]
}

/// The block sizes to run on kernel streaming.
pub open spec fn ks_blocks() -> Seq<u32> {
    seq![16u32, 32u32, 64u32, 128u32, 256u32, 512u32, 1024u32, 2048u32]
}

/// The block sizes to run on ASIO.
pub open spec fn asio_blocks() -> Seq<u32> {
    seq![8u32, 16u32, 32u32, 64u32, 128u32, 256u32, 512u32, 1024u32, 2048u32]
}

/// What a sweep runs.
pub struct SweepPlan {
    pub wasapi: bool,
    pub ks: bool,
    pub asio: bool,
    pub rates: Vec<u32>,
}

/// Whether the options name the devices of a backend.
pub open spec fn sweeps_wasapi(o: Opts) -> bool {
    o.out_sel is Some && o.in_sel is Some
}

pub open spec fn sweeps_ks(o: Opts) -> bool {
    o.ks_out is Some && o.ks_in is Some
}

pub open spec fn sweeps_asio(o: Opts) -> bool {
    o.asio_sel is Some
}

fn full_rates() -> (r: Vec<u32>)
    ensures
        r@ == all_rates(),
{
    let mut v: Vec<u32> = Vec::new();
    v.push(44_100);
    v.push(48_000);
    v.push(88_200);
    v.push(96_000);
    v.push(176_400);
    v.push(192_000);
    assert(v@ =~= all_rates());
    v
}

/// Plans a sweep. A backend takes part if its devices are named; more than one
/// rate needs ASIO, which alone can change the device's rate.
pub fn plan_sweep(o: &Opts) -> (r: Result<SweepPlan>)
    ensures
        match r {
            Ok(p) => {
                &&& p.wasapi == sweeps_wasapi(*o)
                &&& p.ks == sweeps_ks(*o)
                &&& p.asio == sweeps_asio(*o)
                &&& p.wasapi || p.ks || p.asio
                &&& if o.rate != 0 {
                    p.rates@ == seq![o.rate]
                } else {
                    p.asio && p.rates@ == all_rates()
                }
            },
            Err(e) => if !sweeps_wasapi(*o) && !sweeps_ks(*o) && !sweeps_asio(*o) {
                e matches EngineError::Backend(s) && s@
                    == "nothing to sweep: pass --out/--in (WASAPI), --ks-out/--ks-in (KS), and/or --asio"@
            } else {
                o.rate == 0 && !sweeps_asio(*o) && (e matches EngineError::Backend(s) && s@
                    == "multi-rate sweep needs --asio to change the device rate; or pass --rate for one rate"@)
            },
        },
        r is Ok <==> (sweeps_asio(*o) || (o.rate != 0 && (sweeps_wasapi(*o) || sweeps_ks(*o)))),
{
    let wasapi: bool = o.out_sel.is_some() && o.in_sel.is_some();
    let ks: bool = o.ks_out.is_some() && o.ks_in.is_some();
    let asio: bool = o.asio_sel.is_some();
    if !wasapi && !ks && !asio {
        return Err(
            EngineError::Backend(
                "nothing to sweep: pass --out/--in (WASAPI), --ks-out/--ks-in (KS), and/or --asio".to_owned(),
            ),
        );
    }
    if o.rate != 0 {
        let mut rates: Vec<u32> = Vec::new();
        rates.push(o.rate);
        assert(rates@ =~= seq![o.rate]);
        Ok(SweepPlan { wasapi, ks, asio, rates })
    } else if asio {
        Ok(SweepPlan { wasapi, ks, asio, rates: full_rates() })
    } else {
        Err(
            EngineError::Backend(
                "multi-rate sweep needs --asio to change the device rate; or pass --rate for one rate".to_owned(),
            ),
        )
    }
}

impl SweepPlan {
    /// How many configurations there are at one rate.
    pub open spec fn per_rate(self) -> nat {
        (if self.wasapi {
            1 + 4 * exclusive_blocks().len()
        } else {
            0
        }) + (if self.ks {
            3 * ks_blocks().len()
        } else {
            0
        }) + (if self.asio {
            asio_blocks().len()
        } else {
            0
        })
    }

    /// How many configurations there are at most.
    pub fn total(&self) -> (r: usize)
        requires
            self.rates@.len() * self.per_rate() <= usize::MAX,
        ensures
            r == self.rates@.len() * self.per_rate(),
    {
        let mut n: usize = 0;
        if self.wasapi {
            n = n + 33;
        }
        if self.ks {
            n = n + 24;
        }
        if self.asio {
            n = n + 9;
        }
        assert(n == self.per_rate());
        self.rates.len() * n
    }
}

/// The devices of a sweep: identifiers for WASAPI, names for the others.
pub struct SweepDevices {
    pub wasapi_out: Option<String>,
    pub wasapi_in: Option<String>,
    pub ks_out: Option<String>,
    pub ks_in: Option<String>,
    pub asio: Option<String>,
    pub asio_channel: u16,
}

/// A WASAPI job; shared streams run at the device's own rate.
pub open spec fn wasapi_job(
    d: SweepDevices,
    rate: u32,
    exclusive: bool,
    format: Seq<char>,
    block: u32,
) -> JobView {
    JobView {
        backend: Backend::Wasapi,
        mode: if exclusive {
            "exclusive"@
        } else {
            "shared"@
        },
        req_rate: rate,
        req_format: format,
        req_block: block,
        config_backend: Backend::Wasapi,
        share_mode: if exclusive {
            ShareMode::Exclusive
        } else {
            ShareMode::Shared
        },
        sample_rate: if exclusive {
            rate
        } else {
            0
        },
        channels: 2,
        buffer_frames: block,
        capture_device: chars(d.wasapi_in),
        render_device: chars(d.wasapi_out),
        input_channel: 0,
        output_channel: 0,
        force_format: format_named(format),
        output_only: false,
    }
}

/// A kernel streaming job.
pub open spec fn ks_job(d: SweepDevices, rate: u32, format: Seq<char>, block: u32) -> JobView {
    JobView {
        backend: Backend::WdmKs,
        mode: "-"@,
        req_rate: rate,
        req_format: format,
        req_block: block,
        config_backend: Backend::WdmKs,
        share_mode: ShareMode::Shared,
        sample_rate: rate,
        channels: 2,
        buffer_frames: block,
        capture_device: chars(d.ks_in),
        render_device: chars(d.ks_out),
        input_channel: 0,
        output_channel: 0,
        force_format: format_named(format),
        output_only: false,
    }
}

/// An ASIO job: the same first channel on both sides.
pub open spec fn asio_job(d: SweepDevices, rate: u32, block: u32) -> JobView {
    JobView {
        backend: Backend::Asio,
        mode: "-"@,
        req_rate: rate,
        req_format: "auto"@,
        req_block: block,
        config_backend: Backend::Asio,
        share_mode: ShareMode::Shared,
        sample_rate: rate,
        channels: 2,
        buffer_frames: block,
        capture_device: None,
        render_device: chars(d.asio),
        input_channel: d.asio_channel,
        output_channel: d.asio_channel,
        force_format: None,
        output_only: false,
    }
}

/// One job for each block size.
pub open spec fn for_blocks(blocks: Seq<u32>, job: spec_fn(u32) -> JobView) -> Seq<JobView> {
    Seq::new(blocks.len(), |i: int| job(blocks[i]))
}

/// The WASAPI jobs at one rate: shared, then every format in exclusive mode.
pub open spec fn wasapi_jobs(d: SweepDevices, rate: u32) -> Seq<JobView> {
    seq![wasapi_job(d, rate, false, "auto"@, 0)] + for_blocks(
        exclusive_blocks(),
        |b: u32| wasapi_job(d, rate, true, "i16"@, b),
    ) + for_blocks(exclusive_blocks(), |b: u32| wasapi_job(d, rate, true, "i24"@, b)) + for_blocks(
        exclusive_blocks(),
        |b: u32| wasapi_job(d, rate, true, "i32"@, b),
    ) + for_blocks(exclusive_blocks(), |b: u32| wasapi_job(d, rate, true, "f32"@, b))
}

/// The kernel streaming jobs at one rate: every integer format.
pub open spec fn ks_jobs(d: SweepDevices, rate: u32) -> Seq<JobView> {
    for_blocks(ks_blocks(), |b: u32| ks_job(d, rate, "i16"@, b)) + for_blocks(
        ks_blocks(),
        |b: u32| ks_job(d, rate, "i24"@, b),
    ) + for_blocks(ks_blocks(), |b: u32| ks_job(d, rate, "i32"@, b))
}

/// The ASIO jobs at one rate.
pub open spec fn asio_jobs(d: SweepDevices, rate: u32) -> Seq<JobView> {
    for_blocks(asio_blocks(), |b: u32| asio_job(d, rate, b))
}

/// The jobs at one rate. WASAPI takes part where both its endpoints were found.
pub open spec fn planned_jobs(d: SweepDevices, ks: bool, rate: u32) -> Seq<JobView> {
    (if d.wasapi_out is Some && d.wasapi_in is Some {
        wasapi_jobs(d, rate)
    } else {
        Seq::empty()
    }) + (if ks {
        ks_jobs(d, rate)
    } else {
        Seq::empty()
    }) + (if d.asio is Some {
        asio_jobs(d, rate)
    } else {
        Seq::empty()
    })
}

fn copy_text(s: &Option<String>) -> (r: Option<String>)
    ensures
        chars(r) == chars(*s),
{
    match s {
        Some(text) => Some(text.clone()),
        None => None,
    }
}

fn blocks_exclusive() -> (r: Vec<u32>)
    ensures
        r@ == exclusive_blocks(),
{
    let mut v: Vec<u32> = Vec::new();
    v.push(0);
    v.push(128);
    v.push(192);
    v.push(256);
    v.push(384);
    v.push(512);
    v.push(768);
    v.push(1024);
    assert(v@ =~= exclusive_blocks());
    v
}

fn blocks_ks() -> (r: Vec<u32>)
    ensures
        r@ == ks_blocks(),
{
    let mut v: Vec<u32> = Vec::new();
    v.push(16);
    v.push(32);
    v.push(64);
    v.push(128);
    v.push(256);
    v.push(512);
    v.push(1024);
    v.push(2048);
    assert(v@ =~= ks_blocks());
    v
}

fn blocks_asio() -> (r: Vec<u32>)
    ensures
        r@ == asio_blocks(),
{
    let mut v: Vec<u32> = Vec::new();
    v.push(8);
    v.push(16);
    v.push(32);
    v.push(64);
    v.push(128);
    v.push(256);
    v.push(512);
    v.push(1024);
    v.push(2048);
    assert(v@ =~= asio_blocks());
    v
}

fn make_wasapi_job(
    d: &SweepDevices,
    rate: u32,
    exclusive: bool,
    format: &'static str,
    block: u32,
) -> (r: Job)
    ensures
        r@ == wasapi_job(*d, rate, exclusive, format@, block),
{
    let config = EngineConfig {
        backend: Backend::Wasapi,
        share_mode: if exclusive {
            ShareMode::Exclusive
        } else {
            ShareMode::Shared
        },
        sample_rate: if exclusive {
            rate
        } else {
            0
        },
        channels: 2,
        buffer_frames: block,
        capture_device: copy_text(&d.wasapi_in),
        render_device: copy_text(&d.wasapi_out),
        force_format: fmt_from_str(format),
        ..EngineConfig::default()
    };
    Job {
        backend: Backend::Wasapi,
        mode: if exclusive {
            "exclusive"
        } else {
            "shared"
        },
        req_rate: rate,
        req_format: format,
        req_block: block,
        config,
    }
}

fn make_ks_job(d: &SweepDevices, rate: u32, format: &'static str, block: u32) -> (r: Job)
    ensures
        r@ == ks_job(*d, rate, format@, block),
{
    let config = EngineConfig {
        backend: Backend::WdmKs,
        sample_rate: rate,
        channels: 2,
        buffer_frames: block,
        capture_device: copy_text(&d.ks_in),
        render_device: copy_text(&d.ks_out),
        force_format: fmt_from_str(format),
        ..EngineConfig::default()
    };
    Job {
        backend: Backend::WdmKs,
        mode: "-",
        req_rate: rate,
        req_format: format,
        req_block: block,
        config,
    }
}

fn make_asio_job(d: &SweepDevices, rate: u32, block: u32) -> (r: Job)
    ensures
        r@ == asio_job(*d, rate, block),
{
    let config = EngineConfig {
        backend: Backend::Asio,
        sample_rate: rate,
        channels: 2,
        buffer_frames: block,
        input_channel: d.asio_channel,
        output_channel: d.asio_channel,
        render_device: copy_text(&d.asio),
        ..EngineConfig::default()
    };
    Job {
        backend: Backend::Asio,
        mode: "-",
        req_rate: rate,
        req_format: "auto",
        req_block: block,
        config,
    }
}

fn push_exclusive(jobs: &mut Vec<Job>, d: &SweepDevices, rate: u32, format: &'static str)
    ensures
        job_views(final(jobs)@) == job_views(old(jobs)@) + for_blocks(
            exclusive_blocks(),
            |b: u32| wasapi_job(*d, rate, true, format@, b),
        ),
{
    let blocks: Vec<u32> = blocks_exclusive();
    let ghost before = job_views(jobs@);
    let ghost all = for_blocks(
        exclusive_blocks(),
        |b: u32| wasapi_job(*d, rate, true, format@, b),
    );
    let mut i: usize = 0;
    assert(all.take(0) =~= Seq::<JobView>::empty());
    while i < blocks.len()
        invariant
            i <= blocks@.len(),
            blocks@ == exclusive_blocks(),
            all == for_blocks(
                exclusive_blocks(),
                |b: u32| wasapi_job(*d, rate, true, format@, b),
            ),
            job_views(jobs@) == before + all.take(i as int),
        decreases blocks@.len() - i,
    {
        let ghost prev = job_views(jobs@);
        jobs.push(make_wasapi_job(d, rate, true, format, blocks[i]));
        i = i + 1;
        assert(job_views(jobs@) =~= prev.push(all[i - 1]));
        assert(job_views(jobs@) =~= before + all.take(i as int));
    }
    assert(all.take(all.len() as int) =~= all);
}

fn push_ks(jobs: &mut Vec<Job>, d: &SweepDevices, rate: u32, format: &'static str)
    ensures
        job_views(final(jobs)@) == job_views(old(jobs)@) + for_blocks(
            ks_blocks(),
            |b: u32| ks_job(*d, rate, format@, b),
        ),
{
    let blocks: Vec<u32> = blocks_ks();
    let ghost before = job_views(jobs@);
    let ghost all = for_blocks(ks_blocks(), |b: u32| ks_job(*d, rate, format@, b));
    let mut i: usize = 0;
    assert(all.take(0) =~= Seq::<JobView>::empty());
    while i < blocks.len()
        invariant
            i <= blocks@.len(),
            blocks@ == ks_blocks(),
            all == for_blocks(ks_blocks(), |b: u32| ks_job(*d, rate, format@, b)),
            job_views(jobs@) == before + all.take(i as int),
        decreases blocks@.len() - i,
    {
        let ghost prev = job_views(jobs@);
        jobs.push(make_ks_job(d, rate, format, blocks[i]));
        i = i + 1;
        assert(job_views(jobs@) =~= prev.push(all[i - 1]));
        assert(job_views(jobs@) =~= before + all.take(i as int));
    }
    assert(all.take(all.len() as int) =~= all);
}

fn push_asio(jobs: &mut Vec<Job>, d: &SweepDevices, rate: u32)
    ensures
        job_views(final(jobs)@) == job_views(old(jobs)@) + asio_jobs(*d, rate),
{
    let blocks: Vec<u32> = blocks_asio();
    let ghost before = job_views(jobs@);
    let ghost all = asio_jobs(*d, rate);
    let mut i: usize = 0;
    assert(all.take(0) =~= Seq::<JobView>::empty());
    while i < blocks.len()
        invariant
            i <= blocks@.len(),
            blocks@ == asio_blocks(),
            all == asio_jobs(*d, rate),
            job_views(jobs@) == before + all.take(i as int),
        decreases blocks@.len() - i,
    {
        let ghost prev = job_views(jobs@);
        jobs.push(make_asio_job(d, rate, blocks[i]));
        i = i + 1;
        assert(job_views(jobs@) =~= prev.push(all[i - 1]));
        assert(job_views(jobs@) =~= before + all.take(i as int));
    }
    assert(all.take(all.len() as int) =~= all);
}

/// The jobs to run at one rate, in order.
pub fn jobs_at_rate(d: &SweepDevices, ks: bool, rate: u32) -> (r: Vec<Job>)
    ensures
        job_views(r@) == planned_jobs(*d, ks, rate),
        forall|i: int|
            0 <= i < r@.len() ==> {
                let c = (#[trigger] r@[i]).config;
                &&& c.backend == r@[i].backend
                &&& c.backend == Backend::Wasapi ==> chars(c.capture_device) == chars(d.wasapi_in)
                    && chars(c.render_device) == chars(d.wasapi_out)
                &&& c.backend == Backend::WdmKs ==> chars(c.capture_device) == chars(d.ks_in)
                    && chars(c.render_device) == chars(d.ks_out)
                &&& c.backend == Backend::Asio ==> c.capture_device is None && chars(
                    c.render_device,
                ) == chars(d.asio) && c.input_channel == d.asio_channel && c.output_channel
                    == d.asio_channel
                &&& r@[i].req_rate == rate
                &&& c.buffer_frames == r@[i].req_block
                &&& !c.output_only
            },
{
    let mut jobs: Vec<Job> = Vec::new();
    assert(job_views(jobs@) =~= Seq::<JobView>::empty());
    let ghost mut done: Seq<JobView> = Seq::empty();
    if d.wasapi_out.is_some() && d.wasapi_in.is_some() {
        jobs.push(make_wasapi_job(d, rate, false, "auto", 0));
        assert(job_views(jobs@) =~= seq![wasapi_job(*d, rate, false, "auto"@, 0)]);
        push_exclusive(&mut jobs, d, rate, "i16");
        push_exclusive(&mut jobs, d, rate, "i24");
        push_exclusive(&mut jobs, d, rate, "i32");
        push_exclusive(&mut jobs, d, rate, "f32");
        proof {
            done = wasapi_jobs(*d, rate);
        }
    }
    assert(job_views(jobs@) =~= done);
    if ks {
        push_ks(&mut jobs, d, rate, "i16");
        push_ks(&mut jobs, d, rate, "i24");
        push_ks(&mut jobs, d, rate, "i32");
        proof {
            assert(job_views(jobs@) =~= done + ks_jobs(*d, rate));
            done = done + ks_jobs(*d, rate);
        }
    }
    if d.asio.is_some() {
        push_asio(&mut jobs, d, rate);
    }
    assert(job_views(jobs@) =~= planned_jobs(*d, ks, rate));
    proof {
        assert forall|i: int| 0 <= i < jobs@.len() implies (#[trigger] jobs@[i])@
            == planned_jobs(*d, ks, rate)[i] by {
            assert(job_views(jobs@)[i] == jobs@[i]@);
        }
        assert forall|i: int| 0 <= i < jobs@.len() implies runs_as_planned(
            *d,
            rate,
            (#[trigger] jobs@[i])@,
        ) by {
            law_jobs_use_the_devices_of_their_backend(*d, ks, rate, i);
        }
    }
    jobs
}

/// Where every device of a plan is found, a rate has as many jobs as the plan
/// counts for it.
pub proof fn law_plan_counts_its_jobs(p: SweepPlan, d: SweepDevices, rate: u32)
    requires
        p.wasapi == (d.wasapi_out is Some && d.wasapi_in is Some),
        p.asio == (d.asio is Some),
    ensures
        planned_jobs(d, p.ks, rate).len() == p.per_rate(),
{
}

/// What a sweep does next.
#[derive(Clone, Copy, PartialEq, Eq, Debug, Structural)]
pub enum SweepStep {
    /// Set the rate through the ASIO driver.
    Tune,
    /// Find the WASAPI endpoints, which a new rate may have renamed.
    Locate,
    /// Run the jobs of the rate.
    Run,
    /// Write the log.
    WriteLog,
    /// Write the report.
    WriteReport,
    Finished,
}

/// The way of a sweep through its rates.
#[derive(Clone, Copy, PartialEq, Eq, Debug, Structural)]
pub struct SweepWalk {
    /// The place of the present rate.
    pub at: usize,
    pub step: SweepStep,
}

impl SweepWalk {
    /// The first step at the rate in place `at`, or after the last rate.
    pub open spec fn entering(p: SweepPlan, at: int) -> SweepWalk {
        SweepWalk {
            at: at as usize,
            step: if at >= p.rates@.len() {
                SweepStep::WriteLog
            } else if p.asio {
                SweepStep::Tune
            } else {
                SweepStep::Locate
            },
        }
    }

    /// A rate is under way only while there are rates left.
    pub open spec fn wf(self, p: SweepPlan) -> bool {
        &&& self.at <= p.rates@.len()
        &&& (self.step is Tune || self.step is Locate || self.step is Run) ==> self.at
            < p.rates@.len()
    }

    /// What follows a step, by whether the step worked out. A rate that cannot be
    /// set is passed over; a log that cannot be written ends the sweep.
    pub open spec fn after(self, p: SweepPlan, report: bool, ok: bool) -> SweepWalk {
        match self.step {
            SweepStep::Tune => if ok {
                SweepWalk { step: SweepStep::Locate, ..self }
            } else {
                Self::entering(p, self.at + 1)
            },
            SweepStep::Locate => SweepWalk { step: SweepStep::Run, ..self },
            SweepStep::Run => Self::entering(p, self.at + 1),
            SweepStep::WriteLog => SweepWalk {
                step: if ok && report {
                    SweepStep::WriteReport
                } else {
                    SweepStep::Finished
                },
                ..self
            },
            SweepStep::WriteReport => SweepWalk { step: SweepStep::Finished, ..self },
            SweepStep::Finished => self,
        }
    }

    fn enter(p: &SweepPlan, at: usize) -> (r: Self)
        ensures
            r == Self::entering(*p, at as int),
    {
        SweepWalk {
            at,
            step: if at >= p.rates.len() {
                SweepStep::WriteLog
            } else if p.asio {
                SweepStep::Tune
            } else {
                SweepStep::Locate
            },
        }
    }

    /// A sweep before its first rate.
    pub fn new(p: &SweepPlan) -> (r: Self)
        ensures
            r == Self::entering(*p, 0),
            r.wf(*p),
    {
        Self::enter(p, 0)
    }

    /// Takes in how the present step went, and moves on to the next.
    pub fn done(&mut self, p: &SweepPlan, report: bool, ok: bool)
        requires
            old(self).wf(*p),
        ensures
            *final(self) == old(self).after(*p, report, ok),
            final(self).wf(*p),
    {
        assert(p.rates@.len() == p.rates.len());
        match self.step {
            SweepStep::Tune => {
                if ok {
                    self.step = SweepStep::Locate;
                } else {
                    *self = Self::enter(p, self.at + 1);
                }
            },
            SweepStep::Locate => {
                self.step = SweepStep::Run;
            },
            SweepStep::Run => {
                *self = Self::enter(p, self.at + 1);
            },
            SweepStep::WriteLog => {
                self.step =
                if ok && report {
                    SweepStep::WriteReport
                } else {
                    SweepStep::Finished
                };
            },
            SweepStep::WriteReport => {
                self.step = SweepStep::Finished;
            },
            SweepStep::Finished => {},
        }
    }

    /// How many steps are left at most.
    pub open spec fn steps_left(self, p: SweepPlan) -> int {
        match self.step {
            SweepStep::Tune => 3 * (p.rates@.len() - self.at) + 2,
            SweepStep::Locate => 3 * (p.rates@.len() - self.at) + 1,
            SweepStep::Run => 3 * (p.rates@.len() - self.at),
            SweepStep::WriteLog => 2,
            SweepStep::WriteReport => 1,
            SweepStep::Finished => 0,
        }
    }
}

/// A sweep takes its rates in order, leaves none out, and comes to its log: every
/// step either stays with the present rate or goes on to the next one, and brings
/// the sweep closer to its end.
pub proof fn law_sweep_takes_every_rate_in_order(w: SweepWalk, p: SweepPlan, report: bool, ok: bool)
    requires
        w.wf(p),
        p.rates@.len() <= usize::MAX,
        w.step != SweepStep::Finished,
    ensures
        w.after(p, report, ok).wf(p),
        w.after(p, report, ok).at == w.at || w.after(p, report, ok).at == w.at + 1,
        w.after(p, report, ok).at == w.at + 1 ==> w.step is Run || (w.step is Tune && !ok),
        w.after(p, report, ok).steps_left(p) < w.steps_left(p),
        w.after(p, report, ok).step is WriteLog ==> w.after(p, report, ok).at == p.rates@.len(),
{
}

/// How a run went.
#[derive(Clone, Copy, PartialEq, Eq, Debug, Structural)]
pub enum Status {
    /// Clicks came back.
    Detected,
    /// No click came back.
    Silent,
    /// The configuration is not supported.
    Failed,
}

pub open spec fn status_text(s: Status) -> Seq<char> {
    match s {
        Status::Detected => "ok"@,
        Status::Silent => "no-detect"@,
        Status::Failed => "error"@,
    }
}

pub fn status_name(s: Status) -> (r: &'static str)
    ensures
        r@ == status_text(s),
{
    match s {
        Status::Detected => "ok",
        Status::Silent => "no-detect",
        Status::Failed => "error",
    }
}

/// What is recorded of a run. Figures that are not whole numbers are text.
pub struct Record {
    pub backend: Backend,
    pub mode: &'static str,
    pub req_rate: u32,
    pub req_format: String,
    pub req_block: u32,
    pub status: Status,
    pub act_rate: u32,
    pub act_format: String,
    pub act_block: u32,
    pub channels: u16,
    pub trials: usize,
    pub hits: usize,
    pub misses: usize,
    pub delivery: String,
    pub underruns: u64,
    pub overruns: u64,
    pub glitches: u64,
    pub min_f: u32,
    pub median_f: u32,
    pub mean_f: String,
    pub max_f: u32,
    pub min_ms: String,
    pub median_ms: String,
    pub mean_ms: String,
    pub max_ms: String,
    pub jitter: u32,
    pub detail: String,
}

/// What a run came to. `delivery` is in percent, to one place.
pub struct Outcome {
    pub info: StreamInfo,
    pub hits: Vec<u32>,
    pub misses: usize,
    pub delivery: String,
    pub underruns: u64,
    pub overruns: u64,
    pub glitches: u64,
}

/// The figures of a run that are not whole numbers, as text: the mean in frames,
/// and all in milliseconds to three places.
pub struct Figures {
    pub mean_f: String,
    pub min_ms: String,
    pub median_ms: String,
    pub mean_ms: String,
    pub max_ms: String,
}

/// What becomes of a run in the log.
#[derive(Clone, Copy, PartialEq, Eq, Debug, Structural)]
pub enum Verdict {
    /// The same actual configuration was recorded before.
    Duplicate,
    Recorded,
    Unsupported,
}

/// What tells actual configurations apart.
pub open spec fn config_key(
    backend: Backend,
    mode: Seq<char>,
    rate: u32,
    format: Seq<char>,
    block: u32,
) -> Seq<char> {
    backend_text(backend) + "|"@ + mode + "|"@ + decimal(rate as nat) + "|"@ + format + "|"@
        + decimal(block as nat)
}

/// The actual configuration of a recorded run.
pub open spec fn record_key(r: Record) -> Seq<char> {
    config_key(r.backend, r.mode@, r.act_rate, r.act_format@, r.act_block)
}

/// The actual configuration of a run.
pub open spec fn outcome_key(job: Job, o: Outcome) -> Seq<char> {
    config_key(
        job.backend,
        job.mode@,
        o.info.render_format.sample_rate,
        label_text(o.info.render_format.sample_format, o.info.render_format.valid_bits),
        o.info.period_frames,
    )
}

fn key_of(job: &Job, rate: u32, format: &str, block: u32) -> (r: String)
    ensures
        r@ == config_key(job.backend, job.mode@, rate, format@, block),
{
    let mut s = backend_name(job.backend).to_owned();
    s.append("|");
    s.append(job.mode);
    s.append("|");
    push_decimal(&mut s, rate as u64);
    s.append("|");
    s.append(format);
    s.append("|");
    push_decimal(&mut s, block as u64);
    s
}

/// Whether `key` is among the texts in `seen`.
pub open spec fn is_among(seen: Seq<String>, key: Seq<char>) -> bool {
    exists|k: int| 0 <= k < seen.len() && (#[trigger] seen[k])@ == key
}

fn among(seen: &Vec<String>, key: &str) -> (r: bool)
    ensures
        r == is_among(seen@, key@),
{
    let mut i: usize = 0;
    while i < seen.len()
        invariant
            i <= seen@.len(),
            forall|k: int| 0 <= k < i ==> (#[trigger] seen@[k])@ != key@,
        decreases seen@.len() - i,
    {
        if same_text(seen[i].as_str(), key) {
            return true;
        }
        i = i + 1;
    }
    false
}

/// What the hits of a run come to; all zero without a hit.
pub open spec fn is_stats(hits: Seq<u32>, h: HitStats) -> bool {
    if hits.len() == 0 {
        h == (HitStats { min: 0, median: 0, sum: 0, count: 0, max: 0 })
    } else {
        &&& h.count == hits.len()
        &&& h.sum == sum_of(hits)
        &&& exists|s: Seq<u32>| #[trigger]
            is_sorted_copy(s, hits) && h.min == s[0] && h.median == s[(s.len() / 2) as int]
                && h.max == s[s.len() - 1]
    }
}

/// Whether `r` is the record of a run that worked.
pub open spec fn records_outcome<F: Fn(HitStats, u32) -> Figures>(
    r: Record,
    job: Job,
    trials: usize,
    o: Outcome,
    figures: F,
) -> bool {
    exists|h: HitStats, f: Figures|
        {
            &&& #[trigger] is_stats(o.hits@, h)
            &&& #[trigger] figures.ensures((h, o.info.render_format.sample_rate), f)
            &&& r.backend == job.backend
            &&& r.mode == job.mode
            &&& r.req_rate == job.req_rate
            &&& r.req_format@ == job.req_format@
            &&& r.req_block == job.req_block
            &&& r.status == if o.hits@.len() == 0 {
                Status::Silent
            } else {
                Status::Detected
            }
            &&& r.act_rate == o.info.render_format.sample_rate
            &&& r.act_format@ == label_text(
                o.info.render_format.sample_format,
                o.info.render_format.valid_bits,
            )
            &&& r.act_block == o.info.period_frames
            &&& r.channels == o.info.channels
            &&& r.trials == trials
            &&& r.hits == o.hits@.len()
            &&& r.misses == o.misses
            &&& r.delivery@ == o.delivery@
            &&& r.underruns == o.underruns
            &&& r.overruns == o.overruns
            &&& r.glitches == o.glitches
            &&& r.min_f == h.min
            &&& r.median_f == h.median
            &&& r.mean_f == f.mean_f
            &&& r.max_f == h.max
            &&& r.min_ms == f.min_ms
            &&& r.median_ms == f.median_ms
            &&& r.mean_ms == f.mean_ms
            &&& r.max_ms == f.max_ms
            &&& r.jitter == if h.max > h.min {
                h.max - h.min
            } else {
                0
            }
            &&& r.detail@ == Seq::<char>::empty()
        }
}

/// A text without commas and line ends: each becomes a space.
pub open spec fn flattened(s: Seq<char>) -> Seq<char> {
    s.map_values(
        |c: char|
            if c == ',' || c == '\n' {
                ' '
            } else {
                c
            },
    )
}

/// An error message never breaks the log into other fields or lines.
pub proof fn law_flattened_text_is_one_field(s: Seq<char>, i: int)
    requires
        0 <= i < s.len(),
    ensures
        flattened(s).len() == s.len(),
        flattened(s)[i] != ',',
        flattened(s)[i] != '\n',
{
}

fn flatten(s: &str) -> (r: String)
    ensures
        r@ == flattened(s@),
{
    let n: usize = s.unicode_len();
    let mut out = String::new();
    let mut i: usize = 0;
    while i < n
        invariant
            i <= n == s@.len(),
            out@ == flattened(s@.take(i as int)),
        decreases n - i,
    {
        let c: char = s.get_char(i);
        out.push(
            if c == ',' || c == '\n' {
                ' '
            } else {
                c
            },
        );
        i = i + 1;
        assert(out@ =~= flattened(s@.take(i as int)));
    }
    assert(s@.take(n as int) =~= s@);
    out
}

/// Whether `r` is the record of a run that failed with the message `error`.
pub open spec fn records_error(r: Record, job: Job, trials: usize, error: Seq<char>) -> bool {
    &&& r.backend == job.backend
    &&& r.mode == job.mode
    &&& r.req_rate == job.req_rate
    &&& r.req_format@ == job.req_format@
    &&& r.req_block == job.req_block
    &&& r.status == Status::Failed
    &&& r.act_rate == 0
    &&& r.act_format@ == Seq::<char>::empty()
    &&& r.act_block == 0
    &&& r.channels == job.config.channels
    &&& r.trials == trials
    &&& r.hits == 0
    &&& r.misses == 0
    &&& r.delivery@ == "0.0"@
    &&& r.underruns == 0
    &&& r.overruns == 0
    &&& r.glitches == 0
    &&& r.min_f == 0
    &&& r.median_f == 0
    &&& r.mean_f@ == "0"@
    &&& r.max_f == 0
    &&& r.min_ms@ == "0.000"@
    &&& r.median_ms@ == "0.000"@
    &&& r.mean_ms@ == "0.000"@
    &&& r.max_ms@ == "0.000"@
    &&& r.jitter == 0
    &&& r.detail@ == flattened(error)
}

fn error_record(job: &Job, trials: usize, error: &str) -> (r: Record)
    ensures
        records_error(r, *job, trials, error@),
{
    Record {
        backend: job.backend,
        mode: job.mode,
        req_rate: job.req_rate,
        req_format: job.req_format.to_owned(),
        req_block: job.req_block,
        status: Status::Failed,
        act_rate: 0,
        act_format: String::new(),
        act_block: 0,
        channels: job.config.channels,
        trials,
        hits: 0,
        misses: 0,
        delivery: "0.0".to_owned(),
        underruns: 0,
        overruns: 0,
        glitches: 0,
        min_f: 0,
        median_f: 0,
        mean_f: "0".to_owned(),
        max_f: 0,
        min_ms: "0.000".to_owned(),
        median_ms: "0.000".to_owned(),
        mean_ms: "0.000".to_owned(),
        max_ms: "0.000".to_owned(),
        jitter: 0,
        detail: flatten(error),
    }
}

fn outcome_record<F: Fn(HitStats, u32) -> Figures>(
    job: &Job,
    trials: usize,
    o: &Outcome,
    act_format: String,
    figures: &F,
) -> (r: Record)
    requires
        forall|h: HitStats, rate: u32| #[trigger] figures.requires((h, rate)),
        act_format@ == label_text(
            o.info.render_format.sample_format,
            o.info.render_format.valid_bits,
        ),
    ensures
        records_outcome(r, *job, trials, *o, *figures),
{
    let h: HitStats = match hit_stats(o.hits.as_slice()) {
        Some(h) => h,
        None => HitStats { min: 0, median: 0, sum: 0, count: 0, max: 0 },
    };
    assert(is_stats(o.hits@, h));
    let act_rate: u32 = o.info.render_format.sample_rate;
    let f: Figures = figures(h, act_rate);
    assert(figures.ensures((h, act_rate), f));
    Record {
        backend: job.backend,
        mode: job.mode,
        req_rate: job.req_rate,
        req_format: job.req_format.to_owned(),
        req_block: job.req_block,
        status: if o.hits.len() == 0 {
            Status::Silent
        } else {
            Status::Detected
        },
        act_rate,
        act_format,
        act_block: o.info.period_frames,
        channels: o.info.channels,
        trials,
        hits: o.hits.len(),
        misses: o.misses,
        delivery: o.delivery.clone(),
        underruns: o.underruns,
        overruns: o.overruns,
        glitches: o.glitches,
        min_f: h.min,
        median_f: h.median,
        mean_f: f.mean_f,
        max_f: h.max,
        min_ms: f.min_ms,
        median_ms: f.median_ms,
        mean_ms: f.mean_ms,
        max_ms: f.max_ms,
        jitter: if h.max > h.min {
            h.max - h.min
        } else {
            0
        },
        detail: String::new(),
    }
}

/// Records a run. Runs that came to the same actual configuration are recorded
/// once; `seen` holds what tells them apart. `figures` words the figures that
/// are not whole numbers.
pub fn record_job<F: Fn(HitStats, u32) -> Figures>(
    job: &Job,
    trials: usize,
    outcome: &std::result::Result<Outcome, String>,
    figures: &F,
    out: &mut Vec<Record>,
    seen: &mut Vec<String>,
) -> (r: Verdict)
    requires
        forall|h: HitStats, rate: u32| #[trigger] figures.requires((h, rate)),
    ensures
        match *outcome {
            Ok(o) => if is_among(old(seen)@, outcome_key(*job, o)) {
                &&& r == Verdict::Duplicate
                &&& final(out)@ == old(out)@
                &&& final(seen)@ == old(seen)@
            } else {
                &&& r == Verdict::Recorded
                &&& final(out)@.len() == old(out)@.len() + 1
                &&& final(out)@.drop_last() == old(out)@
                &&& records_outcome(final(out)@.last(), *job, trials, o, *figures)
                &&& final(seen)@.len() == old(seen)@.len() + 1
                &&& final(seen)@.drop_last() == old(seen)@
                &&& final(seen)@.last()@ == outcome_key(*job, o)
            },
            Err(e) => {
                &&& r == Verdict::Unsupported
                &&& final(out)@.len() == old(out)@.len() + 1
                &&& final(out)@.drop_last() == old(out)@
                &&& records_error(final(out)@.last(), *job, trials, e@)
                &&& final(seen)@ == old(seen)@
            },
        },
{
    match outcome {
        Ok(o) => {
            let format = fmt_label(
                o.info.render_format.sample_format,
                o.info.render_format.valid_bits,
            );
            let key = key_of(
                job,
                o.info.render_format.sample_rate,
                format.as_str(),
                o.info.period_frames,
            );
            if among(seen, key.as_str()) {
                return Verdict::Duplicate;
            }
            seen.push(key);
            let record: Record = outcome_record(job, trials, o, format, figures);
            out.push(record);
            assert(seen@.drop_last() =~= old(seen)@);
            assert(out@.drop_last() =~= old(out)@);
            Verdict::Recorded
        },
        Err(e) => {
            out.push(error_record(job, trials, e.as_str()));
            assert(out@.drop_last() =~= old(out)@);
            Verdict::Unsupported
        },
    }
}

/// Whether the log is in order: no actual configuration is recorded twice, and
/// `seen` knows them all.
pub open spec fn ledger_ok(out: Seq<Record>, seen: Seq<String>) -> bool {
    &&& forall|i: int|
        0 <= i < out.len() && (#[trigger] out[i]).status != Status::Failed ==> is_among(
            seen,
            record_key(out[i]),
        )
    &&& forall|i: int, j: int|
        0 <= i < j < out.len() && (#[trigger] out[i]).status != Status::Failed && (
        #[trigger] out[j]).status != Status::Failed ==> record_key(out[i]) != record_key(out[j])
}

/// Whether no text occurs twice in `seen`.
pub open spec fn is_distinct(seen: Seq<String>) -> bool {
    forall|i: int, j: int|
        0 <= i < j < seen.len() ==> (#[trigger] seen[i])@ != (#[trigger] seen[j])@
}

/// What was seen holds nothing twice: noting a text that is not among it keeps it
/// so.
pub proof fn law_nothing_is_noted_twice(seen: Seq<String>, key: String)
    requires
        is_distinct(seen),
        !is_among(seen, key@),
    ensures
        is_distinct(seen.push(key)),
{
}

/// No actual configuration is ever recorded twice: recording a run whose
/// configuration is new, and noting it as seen, keeps the log in order, and so
/// does recording an error.
pub proof fn law_no_configuration_is_recorded_twice<F: Fn(HitStats, u32) -> Figures>(
    out: Seq<Record>,
    seen: Seq<String>,
    r: Record,
    key: String,
    job: Job,
    trials: usize,
    o: Outcome,
    figures: F,
    error: Seq<char>,
)
    requires
        ledger_ok(out, seen),
    ensures
        !is_among(seen, outcome_key(job, o)) && key@ == outcome_key(job, o) && records_outcome(
            r,
            job,
            trials,
            o,
            figures,
        ) ==> ledger_ok(out.push(r), seen.push(key)),
        records_error(r, job, trials, error) ==> ledger_ok(out.push(r), seen),
{
    if records_error(r, job, trials, error) {
        let after = out.push(r);
        assert forall|i: int|
            0 <= i < after.len() && (#[trigger] after[i]).status != Status::Failed implies is_among(
            seen,
            record_key(after[i]),
        ) by {
            assert(after[i] == out[i]);
        }
        assert forall|i: int, j: int|
            0 <= i < j < after.len() && (#[trigger] after[i]).status != Status::Failed && (
            #[trigger] after[j]).status != Status::Failed implies record_key(after[i]) != record_key(
            after[j],
        ) by {
            assert(after[i] == out[i] && after[j] == out[j]);
        }
    }
    if !is_among(seen, outcome_key(job, o)) && key@ == outcome_key(job, o) && records_outcome(
        r,
        job,
        trials,
        o,
        figures,
    ) {
        let after = out.push(r);
        let noted = seen.push(key);
        assert(record_key(r) == key@);
        assert forall|i: int|
            0 <= i < after.len() && (#[trigger] after[i]).status != Status::Failed implies is_among(
            noted,
            record_key(after[i]),
        ) by {
            if i < out.len() {
                assert(after[i] == out[i]);
                let k = choose|k: int|
                    0 <= k < seen.len() && (#[trigger] seen[k])@ == record_key(out[i]);
                assert(noted[k] == seen[k]);
            } else {
                assert(noted[seen.len() as int] == key);
            }
        }
        assert forall|i: int, j: int|
            0 <= i < j < after.len() && (#[trigger] after[i]).status != Status::Failed && (
            #[trigger] after[j]).status != Status::Failed implies record_key(after[i]) != record_key(
            after[j],
        ) by {
            assert(after[i] == out[i]);
            if j < out.len() {
                assert(after[j] == out[j]);
            }
        }
    }
}

/// The heading of the log.
pub const CSV_HEADER: &'static str = "backend,mode,req_rate,req_format,req_block,status,act_rate,act_format,act_period_frames,channels,trials,hits,misses,delivery_pct,underruns,overruns,glitches,min_frames,median_frames,mean_frames,max_frames,min_ms,median_ms,mean_ms,max_ms,jitter_frames,detail";

/// A line of the log.
pub open spec fn csv_text(r: Record) -> Seq<char> {
    backend_text(r.backend)
        + ","@ + r.mode@
        + ","@ + decimal(r.req_rate as nat)
        + ","@ + r.req_format@
        + ","@ + decimal(r.req_block as nat)
        + ","@ + status_text(r.status)
        + ","@ + decimal(r.act_rate as nat)
        + ","@ + r.act_format@
        + ","@ + decimal(r.act_block as nat)
        + ","@ + decimal(r.channels as nat)
        + ","@ + decimal(r.trials as nat)
        + ","@ + decimal(r.hits as nat)
        + ","@ + decimal(r.misses as nat)
        + ","@ + r.delivery@
        + ","@ + decimal(r.underruns as nat)
        + ","@ + decimal(r.overruns as nat)
        + ","@ + decimal(r.glitches as nat)
        + ","@ + decimal(r.min_f as nat)
        + ","@ + decimal(r.median_f as nat)
        + ","@ + r.mean_f@
        + ","@ + decimal(r.max_f as nat)
        + ","@ + r.min_ms@
        + ","@ + r.median_ms@
        + ","@ + r.mean_ms@
        + ","@ + r.max_ms@
        + ","@ + decimal(r.jitter as nat)
        + ","@ + r.detail@
}

pub fn csv_line(r: &Record) -> (s: String)
    ensures
        s@ == csv_text(*r),
{
    let mut s = backend_name(r.backend).to_owned();
    s.append(",");
    s.append(r.mode);
    s.append(",");
    push_decimal(&mut s, r.req_rate as u64);
    s.append(",");
    s.append(r.req_format.as_str());
    s.append(",");
    push_decimal(&mut s, r.req_block as u64);
    s.append(",");
    s.append(status_name(r.status));
    s.append(",");
    push_decimal(&mut s, r.act_rate as u64);
    s.append(",");
    s.append(r.act_format.as_str());
    s.append(",");
    push_decimal(&mut s, r.act_block as u64);
    s.append(",");
    push_decimal(&mut s, r.channels as u64);
    s.append(",");
    push_decimal(&mut s, r.trials as u64);
    s.append(",");
    push_decimal(&mut s, r.hits as u64);
    s.append(",");
    push_decimal(&mut s, r.misses as u64);
    s.append(",");
    s.append(r.delivery.as_str());
    s.append(",");
    push_decimal(&mut s, r.underruns as u64);
    s.append(",");
    push_decimal(&mut s, r.overruns as u64);
    s.append(",");
    push_decimal(&mut s, r.glitches as u64);
    s.append(",");
    push_decimal(&mut s, r.min_f as u64);
    s.append(",");
    push_decimal(&mut s, r.median_f as u64);
    s.append(",");
    s.append(r.mean_f.as_str());
    s.append(",");
    push_decimal(&mut s, r.max_f as u64);
    s.append(",");
    s.append(r.min_ms.as_str());
    s.append(",");
    s.append(r.median_ms.as_str());
    s.append(",");
    s.append(r.mean_ms.as_str());
    s.append(",");
    s.append(r.max_ms.as_str());
    s.append(",");
    push_decimal(&mut s, r.jitter as u64);
    s.append(",");
    s.append(r.detail.as_str());
    s
}

/// The log of a sweep.
pub open spec fn log_text(records: Seq<Record>) -> Seq<char> {
    CSV_HEADER@ + "\r\n"@ + joined(records.len(), |i: int| csv_text(records[i]) + "\r\n"@)
}

/// Writes the log: a heading, and a line for each record.
pub fn csv(records: &[Record]) -> (r: String)
    ensures
        r@ == CSV_HEADER@ + "\r\n"@ + joined(
            records@.len(),
            |i: int| csv_text(records@[i]) + "\r\n"@,
        ),
        r@ == log_text(records@),
{
    let ghost part = |i: int| csv_text(records@[i]) + "\r\n"@;
    let mut body = String::new();
    let mut i: usize = 0;
    while i < records.len()
        invariant
            i <= records@.len(),
            part == (|i: int| csv_text(records@[i]) + "\r\n"@),
            body@ == joined(i as nat, part),
        decreases records@.len() - i,
    {
        let mut line = csv_line(&records[i]);
        line.append("\r\n");
        body.append(line.as_str());
        i = i + 1;
    }
    let mut s = CSV_HEADER.to_owned();
    s.append("\r\n");
    s.append(body.as_str());
    s
}

/// Whether `row` shows a record.
pub open spec fn shows(row: Row, r: Record) -> bool {
    &&& row.rate == r.act_rate
    &&& row.backend@ == backend_text(r.backend)
    &&& row.mode@ == r.mode@
    &&& row.req_format@ == r.req_format@
    &&& row.act_format@ == r.act_format@
    &&& row.req_block == r.req_block
    &&& row.act_block == r.act_block
    &&& row.min_f == r.min_f
    &&& row.median_f == r.median_f
    &&& row.mean_f@ == r.mean_f@
    &&& row.max_f == r.max_f
    &&& row.min_ms@ == r.min_ms@
    &&& row.median_ms@ == r.median_ms@
    &&& row.mean_ms@ == r.mean_ms@
    &&& row.max_ms@ == r.max_ms@
    &&& row.jitter == r.jitter
}

/// The places of the successful runs among the first `n` records.
pub open spec fn ok_places(records: Seq<Record>, n: nat) -> Seq<int>
    decreases n,
{
    if n == 0 {
        Seq::empty()
    } else {
        let above = ok_places(records, (n - 1) as nat);
        if records[n - 1].status == Status::Detected {
            above.push(n - 1)
        } else {
            above
        }
    }
}

fn row_of(r: &Record) -> (row: Row)
    ensures
        shows(row, *r),
{
    Row {
        rate: r.act_rate,
        backend: backend_name(r.backend).to_owned(),
        mode: r.mode.to_owned(),
        req_format: r.req_format.clone(),
        act_format: r.act_format.clone(),
        req_block: r.req_block,
        act_block: r.act_block,
        min_f: r.min_f,
        median_f: r.median_f,
        mean_f: r.mean_f.clone(),
        max_f: r.max_f,
        min_ms: r.min_ms.clone(),
        median_ms: r.median_ms.clone(),
        mean_ms: r.mean_ms.clone(),
        max_ms: r.max_ms.clone(),
        jitter: r.jitter,
    }
}

/// The rows of the report: the successful runs, in order.
pub fn report_rows(records: &[Record]) -> (r: Vec<Row>)
    ensures
        r@.len() == ok_places(records@, records@.len()).len(),
        forall|k: int|
            0 <= k < r@.len() ==> shows(
                #[trigger] r@[k],
                records@[ok_places(records@, records@.len())[k]],
            ),
{
    let mut rows: Vec<Row> = Vec::new();
    let mut i: usize = 0;
    while i < records.len()
        invariant
            i <= records@.len(),
            rows@.len() == ok_places(records@, i as nat).len(),
            forall|k: int|
                0 <= k < rows@.len() ==> shows(
                    #[trigger] rows@[k],
                    records@[ok_places(records@, i as nat)[k]],
                ),
        decreases records@.len() - i,
    {
        if records[i].status == Status::Detected {
            rows.push(row_of(&records[i]));
        }
        i = i + 1;
    }
    rows
}

/// The device that a report names: the ASIO driver, else the WASAPI or the
/// kernel streaming output.
pub open spec fn device_text(o: Opts) -> Seq<char> {
    if o.asio_sel is Some {
        o.asio_sel->0@
    } else if o.out_sel is Some {
        o.out_sel->0@
    } else if o.ks_out is Some {
        o.ks_out->0@
    } else {
        "unknown"@
    }
}

pub fn report_device(o: &Opts) -> (r: String)
    ensures
        r@ == device_text(*o),
{
    if let Some(s) = &o.asio_sel {
        return s.clone();
    }
    if let Some(s) = &o.out_sel {
        return s.clone();
    }
    if let Some(s) = &o.ks_out {
        return s.clone();
    }
    "unknown".to_owned()
}

/// Whether a job asks for what its backend needs: the input and the output device of
/// that backend and no other, the rate and the block that are to be run, and the
/// sample format that its label names.
pub open spec fn runs_as_planned(d: SweepDevices, rate: u32, j: JobView) -> bool {
    &&& j.config_backend == j.backend
    &&& j.req_rate == rate
    &&& j.buffer_frames == j.req_block
    &&& j.channels == 2
    &&& !j.output_only
    &&& match j.force_format {
        Some(f) => j.req_format == f.spec_name(),
        None => j.req_format == "auto"@,
    }
    &&& match j.backend {
        Backend::Wasapi => {
            &&& j.capture_device == chars(d.wasapi_in)
            &&& j.render_device == chars(d.wasapi_out)
            &&& j.share_mode == ShareMode::Shared ==> j.mode == "shared"@ && j.sample_rate == 0
            &&& j.share_mode == ShareMode::Exclusive ==> j.mode == "exclusive"@ && j.sample_rate
                == rate
        },
        Backend::WdmKs => {
            &&& j.capture_device == chars(d.ks_in)
            &&& j.render_device == chars(d.ks_out)
            &&& j.sample_rate == rate
            &&& j.mode == "-"@
        },
        Backend::Asio => {
            &&& j.capture_device is None
            &&& j.render_device == chars(d.asio)
            &&& j.input_channel == d.asio_channel
            &&& j.output_channel == d.asio_channel
            &&& j.sample_rate == rate
            &&& j.mode == "-"@
        },
    }
}

/// The name of a sample format reads back as that format, and no other text does.
pub proof fn law_format_names_read_back(f: SampleFormat, s: Seq<char>)
    ensures
        format_named(f.spec_name()) == Some(f),
        format_named(s) matches Some(g) ==> s == g.spec_name(),
        format_named("auto"@) is None,
{
    reveal_strlit("i16");
    reveal_strlit("i24");
    reveal_strlit("i32");
    reveal_strlit("f32");
    reveal_strlit("auto");
    assert("i16"@[1] == '1' && "i24"@[1] == '2' && "i32"@[1] == '3');
    assert("i16"@[0] == 'i' && "i24"@[0] == 'i' && "i32"@[0] == 'i' && "f32"@[0] == 'f');
    assert("auto"@.len() == 4 && "i16"@.len() == 3 && "i24"@.len() == 3);
    assert("i32"@.len() == 3 && "f32"@.len() == 3);
}

proof fn lemma_named_formats()
    ensures
        format_named("i16"@) == Some(SampleFormat::I16),
        format_named("i24"@) == Some(SampleFormat::I24),
        format_named("i32"@) == Some(SampleFormat::I32),
        format_named("f32"@) == Some(SampleFormat::F32),
        format_named("auto"@) is None,
{
    law_format_names_read_back(SampleFormat::I16, "auto"@);
    law_format_names_read_back(SampleFormat::I24, "auto"@);
    law_format_names_read_back(SampleFormat::I32, "auto"@);
    law_format_names_read_back(SampleFormat::F32, "auto"@);
}

/// Every job of a sweep captures from the input device of its own backend and
/// renders to its output device, at the rate that is being run, with the block and
/// the sample format that it is labelled with; and a backend takes part only if its
/// devices are there.
pub proof fn law_jobs_use_the_devices_of_their_backend(
    d: SweepDevices,
    ks: bool,
    rate: u32,
    i: int,
)
    requires
        0 <= i < planned_jobs(d, ks, rate).len(),
    ensures
        runs_as_planned(d, rate, planned_jobs(d, ks, rate)[i]),
        planned_jobs(d, ks, rate)[i].backend == Backend::Wasapi ==> d.wasapi_in is Some
            && d.wasapi_out is Some,
        planned_jobs(d, ks, rate)[i].backend == Backend::WdmKs ==> ks,
        planned_jobs(d, ks, rate)[i].backend == Backend::Asio ==> d.asio is Some,
{
    lemma_named_formats();
    let a = if d.wasapi_out is Some && d.wasapi_in is Some {
        wasapi_jobs(d, rate)
    } else {
        Seq::empty()
    };
    let b = if ks {
        ks_jobs(d, rate)
    } else {
        Seq::empty()
    };
    let j = planned_jobs(d, ks, rate)[i];
    if i < a.len() {
        assert(j == a[i]);
        let s0 = seq![wasapi_job(d, rate, false, "auto"@, 0)];
        let s1 = for_blocks(exclusive_blocks(), |b: u32| wasapi_job(d, rate, true, "i16"@, b));
        let s2 = for_blocks(exclusive_blocks(), |b: u32| wasapi_job(d, rate, true, "i24"@, b));
        let s3 = for_blocks(exclusive_blocks(), |b: u32| wasapi_job(d, rate, true, "i32"@, b));
        let s4 = for_blocks(exclusive_blocks(), |b: u32| wasapi_job(d, rate, true, "f32"@, b));
        assert(a == s0 + s1 + s2 + s3 + s4);
        if i < 1 {
            assert(j == s0[i]);
        } else if i < 9 {
            assert(j == s1[i - 1]);
        } else if i < 17 {
            assert(j == s2[i - 9]);
        } else if i < 25 {
            assert(j == s3[i - 17]);
        } else {
            assert(j == s4[i - 25]);
        }
    } else if i < a.len() + b.len() {
        let k = i - a.len();
        assert(j == b[k]);
        let s1 = for_blocks(ks_blocks(), |b: u32| ks_job(d, rate, "i16"@, b));
        let s2 = for_blocks(ks_blocks(), |b: u32| ks_job(d, rate, "i24"@, b));
        let s3 = for_blocks(ks_blocks(), |b: u32| ks_job(d, rate, "i32"@, b));
        assert(b == s1 + s2 + s3);
        if k < 8 {
            assert(j == s1[k]);
        } else if k < 16 {
            assert(j == s2[k - 8]);
        } else {
            assert(j == s3[k - 16]);
        }
    } else {
        let k = i - a.len() - b.len();
        assert(j == asio_jobs(d, rate)[k]);
    }
}

/// Whether a job of the list runs `backend` in the given share mode, sample format
/// and block.
pub open spec fn has_job(
    jobs: Seq<JobView>,
    backend: Backend,
    share_mode: ShareMode,
    format: Option<SampleFormat>,
    block: u32,
) -> bool {
    exists|i: int|
        0 <= i < jobs.len() && (#[trigger] jobs[i]).backend == backend && jobs[i].share_mode
            == share_mode && jobs[i].force_format == format && jobs[i].buffer_frames == block
}

/// A sweep runs the whole matrix: WASAPI shared as the device has it, WASAPI
/// exclusive in every sample format and block size, kernel streaming in every
/// integer format and block size, and ASIO in every block size.
pub proof fn law_sweep_runs_the_whole_matrix(
    d: SweepDevices,
    ks: bool,
    rate: u32,
    format: SampleFormat,
    k: int,
)
    ensures
        d.wasapi_out is Some && d.wasapi_in is Some ==> has_job(
            planned_jobs(d, ks, rate),
            Backend::Wasapi,
            ShareMode::Shared,
            None,
            0,
        ),
        d.wasapi_out is Some && d.wasapi_in is Some && 0 <= k < exclusive_blocks().len() ==> has_job(
            planned_jobs(d, ks, rate),
            Backend::Wasapi,
            ShareMode::Exclusive,
            Some(format),
            exclusive_blocks()[k],
        ),
        ks && format !is F32 && 0 <= k < ks_blocks().len() ==> has_job(
            planned_jobs(d, ks, rate),
            Backend::WdmKs,
            ShareMode::Shared,
            Some(format),
            ks_blocks()[k],
        ),
        d.asio is Some && 0 <= k < asio_blocks().len() ==> has_job(
            planned_jobs(d, ks, rate),
            Backend::Asio,
            ShareMode::Shared,
            None,
            asio_blocks()[k],
        ),
{
    lemma_named_formats();
    let all = planned_jobs(d, ks, rate);
    let w: int = if d.wasapi_out is Some && d.wasapi_in is Some {
        33
    } else {
        0
    };
    let n: int = if ks {
        24
    } else {
        0
    };
    let place: int = match format {
        SampleFormat::I16 => 0,
        SampleFormat::I24 => 1,
        SampleFormat::I32 => 2,
        SampleFormat::F32 => 3,
    };
    if w > 0 {
        assert(all[0] == wasapi_job(d, rate, false, "auto"@, 0));
        if 0 <= k < exclusive_blocks().len() {
            let i = 1 + 8 * place + k;
            assert(all[i] == wasapi_job(d, rate, true, format.spec_name(), exclusive_blocks()[k]));
        }
    }
    if ks && format !is F32 && 0 <= k < ks_blocks().len() {
        let i = w + 8 * place + k;
        assert(all[i] == ks_job(d, rate, format.spec_name(), ks_blocks()[k]));
    }
    if d.asio is Some && 0 <= k < asio_blocks().len() {
        assert(all[w + n + k] == asio_job(d, rate, asio_blocks()[k]));
    }
}

/// Whether numbers go up from each to the next.
pub open spec fn goes_up(v: Seq<u32>) -> bool {
    forall|i: int, k: int| 0 <= i < k < v.len() ==> #[trigger] v[i] < #[trigger] v[k]
}

/// The block sizes go up, and are every power of two: from 8 to 2048 frames for
/// ASIO, from 16 to 2048 for kernel streaming, and from 128 to 1024 for WASAPI
/// exclusive, which also runs the size halfway between each two and the device's own.
pub proof fn law_blocks_are_the_powers_of_two(k: nat)
    ensures
        goes_up(asio_blocks()),
        goes_up(ks_blocks()),
        goes_up(exclusive_blocks()),
        3 <= k <= 11 ==> asio_blocks()[k - 3] == pow2(k),
        asio_blocks().len() == 9,
        4 <= k <= 11 ==> ks_blocks()[k - 4] == pow2(k),
        ks_blocks().len() == 8,
        exclusive_blocks()[0] == 0,
        7 <= k <= 10 ==> exclusive_blocks()[2 * (k - 7) + 1] == pow2(k),
        7 <= k < 10 ==> 2 * exclusive_blocks()[2 * (k - 7) + 2] == pow2(k) + pow2(k + 1),
        exclusive_blocks().len() == 8,
{
    lemma2_to64();
}

/// The rates of a full sweep go up, and are the two base rates, 44.1 kHz and 48 kHz,
/// with their doubles and their quadruples.
pub proof fn law_rates_are_the_two_families(k: int)
    requires
        0 <= k < 3,
    ensures
        goes_up(all_rates()),
        all_rates().len() == 6,
        all_rates()[2 * k] == 44_100 * pow2(k as nat),
        all_rates()[2 * k + 1] == 48_000 * pow2(k as nat),
{
    lemma2_to64();
}

/// At every rate that can be set the jobs are run: after a successful change of the
/// rate the endpoints are looked up anew, then the jobs run, and only then comes the
/// next rate. The rate is changed through ASIO alone, and not without it.
pub proof fn law_jobs_run_at_every_rate(p: SweepPlan, at: int, report: bool, ok: bool)
    requires
        0 <= at < p.rates@.len() <= usize::MAX,
    ensures
        ({
            let w = SweepWalk::entering(p, at);
            let found = if p.asio {
                w.after(p, report, true)
            } else {
                w
            };
            let running = found.after(p, report, ok);
            &&& w.at == at
            &&& w.step is Tune <==> p.asio
            &&& found.step is Locate && found.at == at
            &&& running.step is Run && running.at == at
            &&& running.after(p, report, ok) == SweepWalk::entering(p, at + 1)
            &&& p.asio ==> w.after(p, report, false) == SweepWalk::entering(p, at + 1)
        }),
{
}

/// After the last rate the log is written, then, if one was asked for and the log
/// could be written, the report, and that is all.
pub proof fn law_log_comes_before_the_report(p: SweepPlan, report: bool, ok: bool, any: bool)
    requires
        p.rates@.len() <= usize::MAX,
    ensures
        ({
            let w = SweepWalk::entering(p, p.rates@.len() as int);
            let next = w.after(p, report, ok);
            &&& w.step is WriteLog
            &&& next.step is WriteReport <==> ok && report
            &&& next.step is Finished <==> !(ok && report)
            &&& next.step is WriteReport ==> next.after(p, report, any).step is Finished
        }),
{
}

proof fn lemma_first_heading(h: Seq<char>, name: Seq<char>)
    requires
        name.len() <= h.len(),
        forall|j: int| 0 <= j < name.len() ==> #[trigger] h[j] == name[j],
        is_free_of(name, ','),
    ensures
        fields(h.take(name.len() as int), ',') == seq![name],
{
    assert(h.take(name.len() as int) =~= name);
    lemma_one_field(name, ',');
}

proof fn lemma_heading(h: Seq<char>, at: int, name: Seq<char>)
    requires
        0 <= at,
        at + 1 + name.len() <= h.len(),
        h[at] == ',',
        forall|j: int| 0 <= j < name.len() ==> h[at + 1 + j] == #[trigger] name[j],
        is_free_of(name, ','),
    ensures
        fields(h.take(at + 1 + name.len()), ',') == fields(h.take(at), ',').push(name),
{
    assert(h.take(at + 1 + name.len()) =~= h.take(at) + seq![','] + name);
    lemma_next_field(h.take(at), seq![','], name, ',');
}

/// The headings of the log, in order.
#[verifier::spinoff_prover]
#[verifier::rlimit(100)]
proof fn lemma_headings()
    ensures
        fields(CSV_HEADER@, ',').len() == 27,
        fields(CSV_HEADER@, ',')[0] == "backend"@,
        fields(CSV_HEADER@, ',')[1] == "mode"@,
        fields(CSV_HEADER@, ',')[2] == "req_rate"@,
        fields(CSV_HEADER@, ',')[3] == "req_format"@,
        fields(CSV_HEADER@, ',')[4] == "req_block"@,
        fields(CSV_HEADER@, ',')[5] == "status"@,
        fields(CSV_HEADER@, ',')[6] == "act_rate"@,
        fields(CSV_HEADER@, ',')[7] == "act_format"@,
        fields(CSV_HEADER@, ',')[8] == "act_period_frames"@,
        fields(CSV_HEADER@, ',')[9] == "channels"@,
        fields(CSV_HEADER@, ',')[10] == "trials"@,
        fields(CSV_HEADER@, ',')[11] == "hits"@,
        fields(CSV_HEADER@, ',')[12] == "misses"@,
        fields(CSV_HEADER@, ',')[13] == "delivery_pct"@,
        fields(CSV_HEADER@, ',')[14] == "underruns"@,
        fields(CSV_HEADER@, ',')[15] == "overruns"@,
        fields(CSV_HEADER@, ',')[16] == "glitches"@,
        fields(CSV_HEADER@, ',')[17] == "min_frames"@,
        fields(CSV_HEADER@, ',')[18] == "median_frames"@,
        fields(CSV_HEADER@, ',')[19] == "mean_frames"@,
        fields(CSV_HEADER@, ',')[20] == "max_frames"@,
        fields(CSV_HEADER@, ',')[21] == "min_ms"@,
        fields(CSV_HEADER@, ',')[22] == "median_ms"@,
        fields(CSV_HEADER@, ',')[23] == "mean_ms"@,
        fields(CSV_HEADER@, ',')[24] == "max_ms"@,
        fields(CSV_HEADER@, ',')[25] == "jitter_frames"@,
        fields(CSV_HEADER@, ',')[26] == "detail"@,
{
    reveal_strlit("backend,mode,req_rate,req_format,req_block,status,act_rate,act_format,act_period_frames,channels,trials,hits,misses,delivery_pct,underruns,overruns,glitches,min_frames,median_frames,mean_frames,max_frames,min_ms,median_ms,mean_ms,max_ms,jitter_frames,detail");
    let h = CSV_HEADER@;
    reveal_strlit("backend");
    lemma_first_heading(h, "backend"@);
    reveal_strlit("mode");
    lemma_heading(h, 7, "mode"@);
    reveal_strlit("req_rate");
    lemma_heading(h, 12, "req_rate"@);
    reveal_strlit("req_format");
    lemma_heading(h, 21, "req_format"@);
    reveal_strlit("req_block");
    lemma_heading(h, 32, "req_block"@);
    reveal_strlit("status");
    lemma_heading(h, 42, "status"@);
    reveal_strlit("act_rate");
    lemma_heading(h, 49, "act_rate"@);
    reveal_strlit("act_format");
    lemma_heading(h, 58, "act_format"@);
    reveal_strlit("act_period_frames");
    lemma_heading(h, 69, "act_period_frames"@);
    reveal_strlit("channels");
    lemma_heading(h, 87, "channels"@);
    reveal_strlit("trials");
    lemma_heading(h, 96, "trials"@);
    reveal_strlit("hits");
    lemma_heading(h, 103, "hits"@);
    reveal_strlit("misses");
    lemma_heading(h, 108, "misses"@);
    reveal_strlit("delivery_pct");
    lemma_heading(h, 115, "delivery_pct"@);
    reveal_strlit("underruns");
    lemma_heading(h, 128, "underruns"@);
    reveal_strlit("overruns");
    lemma_heading(h, 138, "overruns"@);
    reveal_strlit("glitches");
    lemma_heading(h, 147, "glitches"@);
    reveal_strlit("min_frames");
    lemma_heading(h, 156, "min_frames"@);
    reveal_strlit("median_frames");
    lemma_heading(h, 167, "median_frames"@);
    reveal_strlit("mean_frames");
    lemma_heading(h, 181, "mean_frames"@);
    reveal_strlit("max_frames");
    lemma_heading(h, 193, "max_frames"@);
    reveal_strlit("min_ms");
    lemma_heading(h, 204, "min_ms"@);
    reveal_strlit("median_ms");
    lemma_heading(h, 211, "median_ms"@);
    reveal_strlit("mean_ms");
    lemma_heading(h, 221, "mean_ms"@);
    reveal_strlit("max_ms");
    lemma_heading(h, 229, "max_ms"@);
    reveal_strlit("jitter_frames");
    lemma_heading(h, 236, "jitter_frames"@);
    reveal_strlit("detail");
    lemma_heading(h, 250, "detail"@);
    assert(h.take(h.len() as int) =~= h);
}

/// Whether a line of the log has `value` in the column that is headed `heading`.
pub open spec fn stands_under(line: Seq<char>, heading: Seq<char>, value: Seq<char>) -> bool {
    exists|i: int|
        0 <= i < fields(CSV_HEADER@, ',').len() && i < fields(line, ',').len()
            && #[trigger] fields(CSV_HEADER@, ',')[i] == heading && fields(line, ',')[i] == value
}

/// Whether the texts of a record keep to one field each.
pub open spec fn holds_no_comma(r: Record) -> bool {
    &&& is_free_of(r.mode@, ',')
    &&& is_free_of(r.req_format@, ',')
    &&& is_free_of(r.act_format@, ',')
    &&& is_free_of(r.delivery@, ',')
    &&& is_free_of(r.mean_f@, ',')
    &&& is_free_of(r.min_ms@, ',')
    &&& is_free_of(r.median_ms@, ',')
    &&& is_free_of(r.mean_ms@, ',')
    &&& is_free_of(r.max_ms@, ',')
    &&& is_free_of(r.detail@, ',')
}

/// The fields of a line of the log stand under their headings: there are as many of
/// them as there are headings, and each figure is in the column that names it.
#[verifier::rlimit(60)]
pub proof fn law_fields_stand_under_their_headings(r: Record)
    requires
        holds_no_comma(r),
    ensures
        fields(csv_text(r), ',').len() == fields(CSV_HEADER@, ',').len(),
        stands_under(csv_text(r), "backend"@, backend_text(r.backend)),
        stands_under(csv_text(r), "mode"@, r.mode@),
        stands_under(csv_text(r), "req_rate"@, decimal(r.req_rate as nat)),
        stands_under(csv_text(r), "req_format"@, r.req_format@),
        stands_under(csv_text(r), "req_block"@, decimal(r.req_block as nat)),
        stands_under(csv_text(r), "status"@, status_text(r.status)),
        stands_under(csv_text(r), "act_rate"@, decimal(r.act_rate as nat)),
        stands_under(csv_text(r), "act_format"@, r.act_format@),
        stands_under(csv_text(r), "act_period_frames"@, decimal(r.act_block as nat)),
        stands_under(csv_text(r), "channels"@, decimal(r.channels as nat)),
        stands_under(csv_text(r), "trials"@, decimal(r.trials as nat)),
        stands_under(csv_text(r), "hits"@, decimal(r.hits as nat)),
        stands_under(csv_text(r), "misses"@, decimal(r.misses as nat)),
        stands_under(csv_text(r), "delivery_pct"@, r.delivery@),
        stands_under(csv_text(r), "underruns"@, decimal(r.underruns as nat)),
        stands_under(csv_text(r), "overruns"@, decimal(r.overruns as nat)),
        stands_under(csv_text(r), "glitches"@, decimal(r.glitches as nat)),
        stands_under(csv_text(r), "min_frames"@, decimal(r.min_f as nat)),
        stands_under(csv_text(r), "median_frames"@, decimal(r.median_f as nat)),
        stands_under(csv_text(r), "mean_frames"@, r.mean_f@),
        stands_under(csv_text(r), "max_frames"@, decimal(r.max_f as nat)),
        stands_under(csv_text(r), "min_ms"@, r.min_ms@),
        stands_under(csv_text(r), "median_ms"@, r.median_ms@),
        stands_under(csv_text(r), "mean_ms"@, r.mean_ms@),
        stands_under(csv_text(r), "max_ms"@, r.max_ms@),
        stands_under(csv_text(r), "jitter_frames"@, decimal(r.jitter as nat)),
        stands_under(csv_text(r), "detail"@, r.detail@),
{
    lemma_headings();
    reveal_strlit(",");
    assert(","@ =~= seq![',']);
    reveal_strlit("WASAPI");
    reveal_strlit("WDM/KS");
    reveal_strlit("ASIO");
    reveal_strlit("ok");
    reveal_strlit("no-detect");
    reveal_strlit("error");
    assert(is_free_of(status_text(r.status), ','));
    let s0 = backend_text(r.backend);
    lemma_one_field(s0, ',');
    let s1 = s0 + ","@ + r.mode@;
    lemma_next_field(s0, ","@, r.mode@, ',');
    lemma_decimal_is_free_of(r.req_rate as nat, ',');
    let s2 = s1 + ","@ + decimal(r.req_rate as nat);
    lemma_next_field(s1, ","@, decimal(r.req_rate as nat), ',');
    let s3 = s2 + ","@ + r.req_format@;
    lemma_next_field(s2, ","@, r.req_format@, ',');
    lemma_decimal_is_free_of(r.req_block as nat, ',');
    let s4 = s3 + ","@ + decimal(r.req_block as nat);
    lemma_next_field(s3, ","@, decimal(r.req_block as nat), ',');
    let s5 = s4 + ","@ + status_text(r.status);
    lemma_next_field(s4, ","@, status_text(r.status), ',');
    lemma_decimal_is_free_of(r.act_rate as nat, ',');
    let s6 = s5 + ","@ + decimal(r.act_rate as nat);
    lemma_next_field(s5, ","@, decimal(r.act_rate as nat), ',');
    let s7 = s6 + ","@ + r.act_format@;
    lemma_next_field(s6, ","@, r.act_format@, ',');
    lemma_decimal_is_free_of(r.act_block as nat, ',');
    let s8 = s7 + ","@ + decimal(r.act_block as nat);
    lemma_next_field(s7, ","@, decimal(r.act_block as nat), ',');
    lemma_decimal_is_free_of(r.channels as nat, ',');
    let s9 = s8 + ","@ + decimal(r.channels as nat);
    lemma_next_field(s8, ","@, decimal(r.channels as nat), ',');
    lemma_decimal_is_free_of(r.trials as nat, ',');
    let s10 = s9 + ","@ + decimal(r.trials as nat);
    lemma_next_field(s9, ","@, decimal(r.trials as nat), ',');
    lemma_decimal_is_free_of(r.hits as nat, ',');
    let s11 = s10 + ","@ + decimal(r.hits as nat);
    lemma_next_field(s10, ","@, decimal(r.hits as nat), ',');
    lemma_decimal_is_free_of(r.misses as nat, ',');
    let s12 = s11 + ","@ + decimal(r.misses as nat);
    lemma_next_field(s11, ","@, decimal(r.misses as nat), ',');
    let s13 = s12 + ","@ + r.delivery@;
    lemma_next_field(s12, ","@, r.delivery@, ',');
    lemma_decimal_is_free_of(r.underruns as nat, ',');
    let s14 = s13 + ","@ + decimal(r.underruns as nat);
    lemma_next_field(s13, ","@, decimal(r.underruns as nat), ',');
    lemma_decimal_is_free_of(r.overruns as nat, ',');
    let s15 = s14 + ","@ + decimal(r.overruns as nat);
    lemma_next_field(s14, ","@, decimal(r.overruns as nat), ',');
    lemma_decimal_is_free_of(r.glitches as nat, ',');
    let s16 = s15 + ","@ + decimal(r.glitches as nat);
    lemma_next_field(s15, ","@, decimal(r.glitches as nat), ',');
    lemma_decimal_is_free_of(r.min_f as nat, ',');
    let s17 = s16 + ","@ + decimal(r.min_f as nat);
    lemma_next_field(s16, ","@, decimal(r.min_f as nat), ',');
    lemma_decimal_is_free_of(r.median_f as nat, ',');
    let s18 = s17 + ","@ + decimal(r.median_f as nat);
    lemma_next_field(s17, ","@, decimal(r.median_f as nat), ',');
    let s19 = s18 + ","@ + r.mean_f@;
    lemma_next_field(s18, ","@, r.mean_f@, ',');
    lemma_decimal_is_free_of(r.max_f as nat, ',');
    let s20 = s19 + ","@ + decimal(r.max_f as nat);
    lemma_next_field(s19, ","@, decimal(r.max_f as nat), ',');
    let s21 = s20 + ","@ + r.min_ms@;
    lemma_next_field(s20, ","@, r.min_ms@, ',');
    let s22 = s21 + ","@ + r.median_ms@;
    lemma_next_field(s21, ","@, r.median_ms@, ',');
    let s23 = s22 + ","@ + r.mean_ms@;
    lemma_next_field(s22, ","@, r.mean_ms@, ',');
    let s24 = s23 + ","@ + r.max_ms@;
    lemma_next_field(s23, ","@, r.max_ms@, ',');
    lemma_decimal_is_free_of(r.jitter as nat, ',');
    let s25 = s24 + ","@ + decimal(r.jitter as nat);
    lemma_next_field(s24, ","@, decimal(r.jitter as nat), ',');
    let s26 = s25 + ","@ + r.detail@;
    lemma_next_field(s25, ","@, r.detail@, ',');
    assert(csv_text(r) == s26);
    let head = fields(CSV_HEADER@, ',');
    let line = fields(csv_text(r), ',');
    assert(head[0] == "backend"@ && line[0] == backend_text(r.backend));
    assert(head[1] == "mode"@ && line[1] == r.mode@);
    assert(head[2] == "req_rate"@ && line[2] == decimal(r.req_rate as nat));
    assert(head[3] == "req_format"@ && line[3] == r.req_format@);
    assert(head[4] == "req_block"@ && line[4] == decimal(r.req_block as nat));
    assert(head[5] == "status"@ && line[5] == status_text(r.status));
    assert(head[6] == "act_rate"@ && line[6] == decimal(r.act_rate as nat));
    assert(head[7] == "act_format"@ && line[7] == r.act_format@);
    assert(head[8] == "act_period_frames"@ && line[8] == decimal(r.act_block as nat));
    assert(head[9] == "channels"@ && line[9] == decimal(r.channels as nat));
    assert(head[10] == "trials"@ && line[10] == decimal(r.trials as nat));
    assert(head[11] == "hits"@ && line[11] == decimal(r.hits as nat));
    assert(head[12] == "misses"@ && line[12] == decimal(r.misses as nat));
    assert(head[13] == "delivery_pct"@ && line[13] == r.delivery@);
    assert(head[14] == "underruns"@ && line[14] == decimal(r.underruns as nat));
    assert(head[15] == "overruns"@ && line[15] == decimal(r.overruns as nat));
    assert(head[16] == "glitches"@ && line[16] == decimal(r.glitches as nat));
    assert(head[17] == "min_frames"@ && line[17] == decimal(r.min_f as nat));
    assert(head[18] == "median_frames"@ && line[18] == decimal(r.median_f as nat));
    assert(head[19] == "mean_frames"@ && line[19] == r.mean_f@);
    assert(head[20] == "max_frames"@ && line[20] == decimal(r.max_f as nat));
    assert(head[21] == "min_ms"@ && line[21] == r.min_ms@);
    assert(head[22] == "median_ms"@ && line[22] == r.median_ms@);
    assert(head[23] == "mean_ms"@ && line[23] == r.mean_ms@);
    assert(head[24] == "max_ms"@ && line[24] == r.max_ms@);
    assert(head[25] == "jitter_frames"@ && line[25] == decimal(r.jitter as nat));
    assert(head[26] == "detail"@ && line[26] == r.detail@);
}

/// The log of a sweep without a run is its heading, and every further run adds its
/// line at the end and changes nothing above it.
pub proof fn law_log_grows_line_by_line(records: Seq<Record>, r: Record)
    ensures
        log_text(Seq::empty()) == CSV_HEADER@ + "\r\n"@,
        log_text(records.push(r)) == log_text(records) + (csv_text(r) + "\r\n"@),
{
    let none: Seq<Record> = Seq::empty();
    assert(log_text(none) =~= CSV_HEADER@ + "\r\n"@);
    let more = records.push(r);
    let a = |i: int| csv_text(records[i]) + "\r\n"@;
    let b = |i: int| csv_text(more[i]) + "\r\n"@;
    lemma_joined_agrees(records.len(), a, b);
    assert(b(records.len() as int) == csv_text(r) + "\r\n"@);
    assert(joined(more.len(), b) == joined(records.len(), b) + b(records.len() as int));
    lemma_regroup(
        CSV_HEADER@ + "\r\n"@,
        joined(records.len(), a),
        csv_text(r) + "\r\n"@,
    );
}

/// The record of a run that worked says what was asked for and what came of it: the
/// request is the job's, the actual configuration is the stream's, the frame figures
/// bound the hits, the jitter is the spread between the least and the greatest, and
/// the figures in milliseconds are those of the hits, each in its own place.
pub proof fn law_record_shows_the_run<F: Fn(HitStats, u32) -> Figures>(
    r: Record,
    job: Job,
    trials: usize,
    o: Outcome,
    figures: F,
)
    requires
        records_outcome(r, job, trials, o, figures),
    ensures
        r.backend == job.backend && r.mode == job.mode,
        r.req_rate == job.req_rate && r.req_format@ == job.req_format@ && r.req_block
            == job.req_block,
        r.act_rate == o.info.render_format.sample_rate,
        r.act_block == o.info.period_frames,
        fields(r.act_format@, '/')[0] == o.info.render_format.sample_format.spec_name(),
        r.detail@.len() == 0,
        r.channels == o.info.channels,
        r.trials == trials && r.hits == o.hits@.len() && r.misses == o.misses,
        r.underruns == o.underruns && r.overruns == o.overruns && r.glitches == o.glitches,
        r.delivery@ == o.delivery@,
        r.status == Status::Detected <==> o.hits@.len() > 0,
        r.status == Status::Silent <==> o.hits@.len() == 0,
        forall|i: int| 0 <= i < o.hits@.len() ==> r.min_f <= #[trigger] o.hits@[i] <= r.max_f,
        o.hits@.len() > 0 ==> o.hits@.contains(r.min_f) && o.hits@.contains(r.median_f)
            && o.hits@.contains(r.max_f),
        o.hits@.len() > 0 ==> 2 * o.hits@.to_multiset().filter(|x: u32| x < r.median_f).len()
            <= o.hits@.len(),
        o.hits@.len() > 0 ==> 2 * o.hits@.to_multiset().filter(|x: u32| x > r.median_f).len()
            < o.hits@.len(),
        o.hits@.len() == 0 ==> r.min_f == 0 && r.median_f == 0 && r.max_f == 0 && r.jitter == 0,
        r.min_f <= r.max_f && r.jitter == r.max_f - r.min_f,
        exists|h: HitStats, f: Figures|
            {
                &&& #[trigger] figures.ensures((h, o.info.render_format.sample_rate), f)
                &&& h.min == r.min_f && h.median == r.median_f && h.max == r.max_f
                &&& h.count == o.hits@.len() && h.sum == sum_of(o.hits@)
                &&& r.mean_f == f.mean_f && r.min_ms == f.min_ms && r.median_ms == f.median_ms
                &&& r.mean_ms == f.mean_ms && r.max_ms == f.max_ms
            },
{
    let (h, f) = choose|h: HitStats, f: Figures|
        {
            &&& #[trigger] is_stats(o.hits@, h)
            &&& #[trigger] figures.ensures((h, o.info.render_format.sample_rate), f)
            &&& r.min_f == h.min
            &&& r.median_f == h.median
            &&& r.mean_f == f.mean_f
            &&& r.max_f == h.max
            &&& r.min_ms == f.min_ms
            &&& r.median_ms == f.median_ms
            &&& r.mean_ms == f.mean_ms
            &&& r.max_ms == f.max_ms
            &&& r.jitter == if h.max > h.min {
                h.max - h.min
            } else {
                0
            }
        };
    if o.hits@.len() > 0 {
        assert(is_summary(o.hits@, h));
        law_summary_bounds_the_hits(o.hits@, h);
    } else {
        assert(sum_of(o.hits@) == 0);
    }
    assert(figures.ensures((h, o.info.render_format.sample_rate), f));
    lemma_label_fields(o.info.render_format.sample_format, o.info.render_format.valid_bits);
}

/// The record of a run that failed says what was asked for and why it failed, and no
/// figures; its message stays in its own field and on its own line.
pub proof fn law_error_record_keeps_to_its_line(
    r: Record,
    job: Job,
    trials: usize,
    error: Seq<char>,
)
    requires
        records_error(r, job, trials, error),
    ensures
        r.status == Status::Failed,
        r.backend == job.backend && r.mode == job.mode && r.req_rate == job.req_rate,
        r.req_format@ == job.req_format@ && r.req_block == job.req_block && r.trials == trials,
        r.channels == job.config.channels,
        r.underruns == 0 && r.overruns == 0 && r.glitches == 0,
        r.hits == 0 && r.misses == 0 && r.jitter == 0,
        r.min_f == 0 && r.median_f == 0 && r.max_f == 0,
        r.act_rate == 0 && r.act_block == 0 && r.act_format@.len() == 0,
        is_free_of(r.detail@, ',') && is_free_of(r.detail@, '\n'),
        r.detail@.len() == error.len(),
        forall|i: int|
            0 <= i < error.len() && error[i] != ',' && error[i] != '\n' ==> #[trigger] r.detail@[i]
                == error[i],
        is_free_of(job.mode@, ',') && is_free_of(job.req_format@, ',') ==> holds_no_comma(r),
{
    assert forall|i: int| 0 <= i < r.detail@.len() implies #[trigger] r.detail@[i] != ','
        && r.detail@[i] != '\n' by {
        law_flattened_text_is_one_field(error, i);
    }
    reveal_strlit("0.0");
    reveal_strlit("0");
    reveal_strlit("0.000");
}

proof fn lemma_ok_places(records: Seq<Record>, n: nat)
    requires
        n <= records.len(),
    ensures
        forall|k: int|
            0 <= k < ok_places(records, n).len() ==> {
                &&& 0 <= #[trigger] ok_places(records, n)[k] < n
                &&& records[ok_places(records, n)[k]].status == Status::Detected
            },
        forall|a: int, b: int|
            0 <= a < b < ok_places(records, n).len() ==> #[trigger] ok_places(records, n)[a]
                < #[trigger] ok_places(records, n)[b],
        forall|i: int|
            0 <= i < n && (#[trigger] records[i]).status == Status::Detected ==> ok_places(
                records,
                n,
            ).contains(i),
    decreases n,
{
    if n > 0 {
        let m = (n - 1) as nat;
        lemma_ok_places(records, m);
        let above = ok_places(records, m);
        let all = ok_places(records, n);
        assert forall|i: int| 0 <= i < n && (#[trigger] records[i]).status
            == Status::Detected implies all.contains(i) by {
            if i < m {
                assert(above.contains(i));
                let k = choose|k: int| 0 <= k < above.len() && above[k] == i;
                assert(all[k] == i);
            } else {
                assert(all[above.len() as int] == i);
            }
        }
    }
}

/// The report has a row for every run whose clicks came back and for no other, in
/// the order of the log.
pub proof fn law_report_shows_the_detected_runs(records: Seq<Record>, i: int)
    ensures
        ({
            let places = ok_places(records, records.len());
            &&& forall|k: int|
                0 <= k < places.len() ==> 0 <= #[trigger] places[k] < records.len()
                    && records[places[k]].status == Status::Detected
            &&& forall|a: int, b: int|
                0 <= a < b < places.len() ==> #[trigger] places[a] < #[trigger] places[b]
            &&& 0 <= i < records.len() && records[i].status == Status::Detected ==> places.contains(
                i,
            )
        }),
{
    lemma_ok_places(records, records.len());
}

/// A row of the report shows the run itself: the rate, block and format that the
/// stream had, those that were asked for, and figures that bound its hits.
pub proof fn law_report_row_shows_the_run<F: Fn(HitStats, u32) -> Figures>(
    row: Row,
    r: Record,
    job: Job,
    trials: usize,
    o: Outcome,
    figures: F,
)
    requires
        records_outcome(r, job, trials, o, figures),
        shows(row, r),
    ensures
        row.rate == o.info.render_format.sample_rate,
        row.backend@ == backend_text(job.backend) && row.mode@ == job.mode@,
        row.req_format@ == job.req_format@ && row.req_block == job.req_block,
        row.act_block == o.info.period_frames,
        row.act_format@ == label_text(
            o.info.render_format.sample_format,
            o.info.render_format.valid_bits,
        ),
        forall|i: int| 0 <= i < o.hits@.len() ==> row.min_f <= #[trigger] o.hits@[i] <= row.max_f,
        o.hits@.len() > 0 ==> o.hits@.contains(row.min_f) && o.hits@.contains(row.median_f)
            && o.hits@.contains(row.max_f),
        row.median_f == r.median_f,
        row.jitter == row.max_f - row.min_f,
        row.mean_f@ == r.mean_f@ && row.min_ms@ == r.min_ms@ && row.median_ms@ == r.median_ms@,
        row.mean_ms@ == r.mean_ms@ && row.max_ms@ == r.max_ms@,
{
    law_record_shows_the_run(r, job, trials, o, figures);
}

proof fn lemma_key_fields(b: Backend, mode: Seq<char>, rate: u32, format: Seq<char>, block: u32)
    requires
        is_free_of(mode, '|'),
        is_free_of(format, '|'),
    ensures
        fields(config_key(b, mode, rate, format, block), '|') == seq![
            backend_text(b),
            mode,
            decimal(rate as nat),
            format,
            decimal(block as nat),
        ],
{
    reveal_strlit("|");
    assert("|"@ =~= seq!['|']);
    reveal_strlit("WASAPI");
    reveal_strlit("WDM/KS");
    reveal_strlit("ASIO");
    let s0 = backend_text(b);
    lemma_one_field(s0, '|');
    let s1 = s0 + "|"@ + mode;
    lemma_next_field(s0, "|"@, mode, '|');
    let s2 = s1 + "|"@ + decimal(rate as nat);
    lemma_decimal_is_free_of(rate as nat, '|');
    lemma_next_field(s1, "|"@, decimal(rate as nat), '|');
    let s3 = s2 + "|"@ + format;
    lemma_next_field(s2, "|"@, format, '|');
    lemma_decimal_is_free_of(block as nat, '|');
    lemma_next_field(s3, "|"@, decimal(block as nat), '|');
    assert(fields(config_key(b, mode, rate, format, block), '|') =~= seq![
        backend_text(b),
        mode,
        decimal(rate as nat),
        format,
        decimal(block as nat),
    ]);
}

/// Two runs count as the same configuration exactly when backend, mode, rate, sample
/// format and block are all the same.
pub proof fn law_keys_tell_configurations_apart(
    b: Backend,
    mode: Seq<char>,
    rate: u32,
    format: Seq<char>,
    block: u32,
    b2: Backend,
    mode2: Seq<char>,
    rate2: u32,
    format2: Seq<char>,
    block2: u32,
)
    requires
        is_free_of(mode, '|') && is_free_of(format, '|'),
        is_free_of(mode2, '|') && is_free_of(format2, '|'),
    ensures
        config_key(b, mode, rate, format, block) == config_key(b2, mode2, rate2, format2, block2)
            <==> b == b2 && mode == mode2 && rate == rate2 && format == format2 && block == block2,
{
    lemma_key_fields(b, mode, rate, format, block);
    lemma_key_fields(b2, mode2, rate2, format2, block2);
    if config_key(b, mode, rate, format, block) == config_key(b2, mode2, rate2, format2, block2) {
        let f = fields(config_key(b, mode, rate, format, block), '|');
        assert(f[0] == backend_text(b) && f[0] == backend_text(b2));
        assert(f[1] == mode && f[1] == mode2);
        assert(f[2] == decimal(rate as nat) && f[2] == decimal(rate2 as nat));
        assert(f[3] == format && f[3] == format2);
        assert(f[4] == decimal(block as nat) && f[4] == decimal(block2 as nat));
        law_backend_names_differ(b, b2);
        law_numerals_differ(rate as nat, rate2 as nat);
        law_numerals_differ(block as nat, block2 as nat);
    }
}

/// The label of a format starts with the name of the format, and names the valid
/// bits exactly where they do not fill the container, so that different formats have
/// different labels.
pub proof fn law_labels_tell_formats_apart(a: SampleFormat, va: u16, b: SampleFormat, vb: u16)
    ensures
        label_text(a, va) == label_text(b, vb) <==> a == b && va == vb,
        fields(label_text(a, va), '/')[0] == a.spec_name(),
        fields(label_text(a, va), '/').len() == 2 <==> va != 8 * a.spec_bytes(),
        va != 8 * a.spec_bytes() ==> fields(label_text(a, va), '/')[1] == decimal(va as nat),
{
    lemma_label_fields(a, va);
    lemma_label_fields(b, vb);
    if label_text(a, va) == label_text(b, vb) {
        let f = fields(label_text(a, va), '/');
        assert(f[0] == a.spec_name() && f[0] == b.spec_name());
        law_format_names_read_back(a, "auto"@);
        law_format_names_read_back(b, "auto"@);
        if va != 8 * a.spec_bytes() {
            law_numerals_differ(va as nat, vb as nat);
        }
    }
}

proof fn lemma_label_fields(a: SampleFormat, va: u16)
    ensures
        fields(label_text(a, va), '/')[0] == a.spec_name(),
        fields(label_text(a, va), '/').len() == if va != 8 * a.spec_bytes() {
            2nat
        } else {
            1
        },
        va != 8 * a.spec_bytes() ==> fields(label_text(a, va), '/')[1] == decimal(va as nat),
{
    reveal_strlit("/");
    assert("/"@ =~= seq!['/']);
    reveal_strlit("i16");
    reveal_strlit("i24");
    reveal_strlit("i32");
    reveal_strlit("f32");
    assert(is_free_of(a.spec_name(), '/'));
    lemma_one_field(a.spec_name(), '/');
    lemma_decimal_is_free_of(va as nat, '/');
    lemma_next_field(a.spec_name(), "/"@, decimal(va as nat), '/');
}

/// Every status has its own name in the log.
pub proof fn law_status_names_differ(a: Status, b: Status)
    requires
        status_text(a) == status_text(b),
    ensures
        a == b,
{
    reveal_strlit("ok");
    reveal_strlit("no-detect");
    reveal_strlit("error");
    assert("ok"@.len() == 2 && "no-detect"@.len() == 9 && "error"@.len() == 5);
}

/// A device goes by any part of its name, in any case and in its own direction
/// alone.
pub proof fn law_devices_go_by_their_names(d: DeviceInfo, name: Seq<char>)
    ensures
        goes_by(d, d.name@, d.is_capture),
        !goes_by(d, name, !d.is_capture),
        goes_by(d, name, d.is_capture) <==> has_substring(lower_text(d.name@), lower_text(name)),
{
    law_substrings_nest(lower_text(d.name@), Seq::empty(), Seq::empty());
}

/// The device that a report names is one that the options name, where they name one;
/// the ASIO driver, if there is one, comes before all others.
pub proof fn law_report_names_a_device_of_the_options(o: Opts)
    ensures
        o.asio_sel matches Some(s) ==> device_text(o) == s@,
        o.asio_sel is None ==> (o.out_sel matches Some(s) ==> device_text(o) == s@),
        o.asio_sel is None && o.out_sel is None ==> (o.ks_out matches Some(s) ==> device_text(o)
            == s@),
        o.asio_sel is None && o.out_sel is None && o.ks_out is None ==> device_text(o)
            == "unknown"@,
{
}

/// A backend takes part in a sweep only if the options name all of its devices.
pub proof fn law_backends_are_opt_in(o: Opts)
    ensures
        sweeps_wasapi(o) <==> !(o.out_sel is None) && !(o.in_sel is None),
        sweeps_ks(o) <==> !(o.ks_out is None) && !(o.ks_in is None),
        sweeps_asio(o) <==> !(o.asio_sel is None),
{
}

} // verus!
