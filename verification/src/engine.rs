//! Configuration, negotiated parameters and health counters of a stream.

use vstd::prelude::*;

use crate::error::Result;
use crate::format::{SampleFormat, StreamFormat};

verus! {

#[derive(Clone, Copy, PartialEq, Eq, Debug, Structural)]
pub enum Backend {
    Wasapi,
    WdmKs,
    Asio,
}

#[derive(Clone, Copy, PartialEq, Eq, Debug, Structural)]
pub enum ShareMode {
    Shared,
    Exclusive,
}

/// What to open. A zero means the device's default or minimum.
#[derive(Clone, Debug)]
pub struct EngineConfig {
    pub backend: Backend,
    pub share_mode: ShareMode,
    pub sample_rate: u32,
    pub channels: u16,
    pub buffer_frames: u32,
    pub capture_device: Option<String>,
    pub render_device: Option<String>,
    /// ASIO only.
    pub input_channel: u16,
    /// ASIO only.
    pub output_channel: u16,
    /// WASAPI exclusive and KS only.
    pub force_format: Option<SampleFormat>,
    /// Open no capture device; the processor hears silence.
    pub output_only: bool,
}

impl EngineConfig {
    /// A configuration that leaves every choice to the device.
    pub open spec fn spec_default() -> Self {
        EngineConfig {
            backend: Backend::Wasapi,
            share_mode: ShareMode::Shared,
            sample_rate: 0,
            channels: 0,
            buffer_frames: 0,
            capture_device: None,
            render_device: None,
            input_channel: 0,
            output_channel: 0,
            force_format: None,
            output_only: false,
        }
    }
}

impl Default for EngineConfig {
    fn default() -> (r: Self)
        ensures
            r == EngineConfig::spec_default(),
    {
        EngineConfig {
            backend: Backend::Wasapi,
            share_mode: ShareMode::Shared,
            sample_rate: 0,
            channels: 0,
            buffer_frames: 0,
            capture_device: None,
            render_device: None,
            input_channel: 0,
            output_channel: 0,
            force_format: None,
            output_only: false,
        }
    }
}

/// The realtime callback. It runs on the render thread and must not block,
/// allocate or lock. Samples are interleaved, as bit patterns.
pub trait Processor: Send {
    /// Whether this processor may turn `output` into `after` when it hears
    /// `input`. Unless an implementation says more, it may make anything of it.
    open spec fn answers(
        &self,
        input: Seq<u32>,
        output: Seq<u32>,
        channels: usize,
        after: Seq<u32>,
    ) -> bool {
        true
    }

    fn process(&mut self, input: &[u32], output: &mut [u32], channels: usize)
        ensures
            final(output)@.len() == old(output)@.len(),
            old(self).answers(input@, old(output)@, channels, final(output)@),
    ;

    fn on_start(&mut self, _info: &StreamInfo) {
    }
}

/// Negotiated stream parameters, reported after start.
#[derive(Clone, Debug)]
pub struct StreamInfo {
    pub backend: Backend,
    pub share_mode: ShareMode,
    /// `None` where nothing is captured.
    pub capture_format: Option<StreamFormat>,
    pub render_format: StreamFormat,
    pub channels: u16,
    pub period_frames: u32,
    /// 0 where nothing is captured.
    pub capture_period_frames: u32,
}

impl StreamInfo {
    /// A render-only stream has neither a capture format nor a capture period.
    pub open spec fn wf(self) -> bool {
        self.capture_format is None ==> self.capture_period_frames == 0
    }

    /// One-way engine buffering in frames, without the converters' delay.
    pub fn nominal_buffer_frames(&self) -> (r: u32)
        requires
            self.period_frames + self.capture_period_frames <= u32::MAX,
        ensures
            r == self.period_frames + self.capture_period_frames,
    {
        self.period_frames + self.capture_period_frames
    }
}

/// Counters of a stream's health.
pub struct StreamStats {
    /// Render periods that the ring could not fill.
    pub underruns: u64,
    /// Captured packets that the ring could not take whole.
    pub overruns: u64,
    /// Capture discontinuities.
    pub glitches: u64,
    pub render_calls: u64,
    pub capture_calls: u64,
    pub capture_frames: u64,
    pub render_frames: u64,
}

impl StreamStats {
    pub open spec fn spec_default() -> Self {
        StreamStats {
            underruns: 0,
            overruns: 0,
            glitches: 0,
            render_calls: 0,
            capture_calls: 0,
            capture_frames: 0,
            render_frames: 0,
        }
    }

    /// A copy of the counters.
    pub fn snapshot(&self) -> (r: StatsSnapshot)
        ensures
            r.underruns == self.underruns,
            r.overruns == self.overruns,
            r.glitches == self.glitches,
            r.render_calls == self.render_calls,
            r.capture_calls == self.capture_calls,
            r.capture_frames == self.capture_frames,
            r.render_frames == self.render_frames,
    {
        StatsSnapshot {
            underruns: self.underruns,
            overruns: self.overruns,
            glitches: self.glitches,
            render_calls: self.render_calls,
            capture_calls: self.capture_calls,
            capture_frames: self.capture_frames,
            render_frames: self.render_frames,
        }
    }
}

impl Default for StreamStats {
    fn default() -> (r: Self)
        ensures
            r == StreamStats::spec_default(),
    {
        StreamStats {
            underruns: 0,
            overruns: 0,
            glitches: 0,
            render_calls: 0,
            capture_calls: 0,
            capture_frames: 0,
            render_frames: 0,
        }
    }
}

/// The counters at one moment.
#[derive(Clone, Copy, Debug, Default)]
pub struct StatsSnapshot {
    pub underruns: u64,
    pub overruns: u64,
    pub glitches: u64,
    pub render_calls: u64,
    pub capture_calls: u64,
    pub capture_frames: u64,
    pub render_frames: u64,
}

#[derive(Clone, Debug)]
pub struct DeviceInfo {
    pub id: String,
    pub name: String,
    pub is_capture: bool,
}

/// What a listed device shows.
pub struct DeviceView {
    pub id: Seq<char>,
    pub name: Seq<char>,
    pub is_capture: bool,
}

impl View for DeviceInfo {
    type V = DeviceView;

    open spec fn view(&self) -> DeviceView {
        DeviceView { id: self.id@, name: self.name@, is_capture: self.is_capture }
    }
}

/// What a list of devices shows.
pub open spec fn device_views(devices: Seq<DeviceInfo>) -> Seq<DeviceView> {
    Seq::new(devices.len(), |i: int| devices[i]@)
}

/// Whether a stream looks for a capture device at all: an output-only stream
/// does not.
pub fn wants_capture(config: &EngineConfig) -> (r: bool)
    ensures
        r == !config.output_only,
{
    !config.output_only
}

/// What a stream captures from, where `found` is what the search for a device
/// came to and is `None` where there was no search. An output-only stream
/// captures from nothing, whatever was found. Otherwise a device that was found is
/// used, a missing default device leaves the stream render-only, and a named
/// device that is missing is an error.
pub open spec fn capture_accepted<T>(
    config: EngineConfig,
    found: Option<Result<T>>,
) -> Result<Option<T>> {
    if config.output_only {
        Ok(None)
    } else {
        match found {
            None => Ok(None),
            Some(Ok(device)) => Ok(Some(device)),
            Some(Err(e)) => if config.capture_device is None {
                Ok(None)
            } else {
                Err(e)
            },
        }
    }
}

/// Decides what a stream captures from, given what the search for the device
/// came to.
pub fn accept_capture<T>(config: &EngineConfig, found: Option<Result<T>>) -> (r: Result<Option<T>>)
    ensures
        r == capture_accepted(*config, found),
{
    if config.output_only {
        return Ok(None);
    }
    match found {
        None => Ok(None),
        Some(Ok(device)) => Ok(Some(device)),
        Some(Err(e)) => {
            if config.capture_device.is_none() {
                Ok(None)
            } else {
                Err(e)
            }
        },
    }
}

/// An output-only stream never captures and never fails for want of a capture
/// device. Nor does one without a named capture device fail. One that names its
/// capture device opens with that device or not at all.
pub proof fn law_capture_is_optional_unless_named<T>(config: EngineConfig, found: Result<T>)
    ensures
        config.output_only ==> (capture_accepted(config, Some(found)) matches Ok(device)
            && device is None),
        capture_accepted::<T>(config, None) matches Ok(device) && device is None,
        !config.output_only && found is Ok ==> (capture_accepted(config, Some(found)) matches Ok(
            device,
        ) && device == Some(found->Ok_0)),
        config.capture_device is None && found is Err ==> (capture_accepted(
            config,
            Some(found),
        ) matches Ok(device) && device is None),
        config.output_only || config.capture_device is None ==> capture_accepted(
            config,
            Some(found),
        ) is Ok,
        !config.output_only && config.capture_device is Some ==> match capture_accepted(
            config,
            Some(found),
        ) {
            Ok(device) => found is Ok && device == Some(found->Ok_0),
            Err(e) => found is Err && e == found->Err_0,
        },
{
}

} // verus!
