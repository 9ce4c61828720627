//! The latency probe: it emits single-sample clicks and counts the frames until
//! each comes back on the input. Samples are bit patterns (see
//! [`crate::float32`]).

use vstd::prelude::*;

use crate::engine::{StatsSnapshot, StreamInfo};
use crate::float32::{
    is_nan, law_patterns_are_ordered, lemma_eight_times, magnitude, units, INFINITY, ONE, ZERO,
};
use crate::text::{
    decimal, decimal_string, has_substring, lemma_part_at_end, lemma_part_stays, lemma_regroup,
    push_decimal, push_right_aligned, right_aligned,
};

verus! {

/// The click: full scale, 1.0.
pub const IMPULSE: u32 = 0x3F80_0000;

/// The threshold before it is measured: 0.1.
pub const INITIAL_THRESHOLD: u32 = 0x3DCC_CCCD;

/// The least threshold: 0.06.
pub const LEAST_THRESHOLD: u32 = 0x3D75_C28F;

/// Whether `peak` is the greatest magnitude in `input`, NaN left aside, and `at`
/// the place where it comes first; both are zero for silence.
pub open spec fn is_peak(input: Seq<u32>, peak: u32, at: int) -> bool {
    &&& forall|i: int|
        0 <= i < input.len() && !is_nan(#[trigger] input[i]) ==> magnitude(input[i]) <= peak
    &&& if peak == 0 {
        at == 0
    } else {
        &&& 0 <= at < input.len()
        &&& !is_nan(input[at])
        &&& magnitude(input[at]) == peak
        &&& forall|i: int|
            0 <= i < at && !is_nan(#[trigger] input[i]) ==> magnitude(input[i]) < peak
    }
}

/// Whether the greatest magnitude in `input` is `peak`, and comes first in frame
/// `frame`.
pub open spec fn is_peak_frame(input: Seq<u32>, channels: nat, peak: u32, frame: int) -> bool {
    exists|at: int| #[trigger] is_peak(input, peak, at) && frame == at / (channels as int)
}

/// Eight times a magnitude, but at least the least threshold. Below the normal
/// numbers eight times is still less than that, and counts as nothing.
pub open spec fn threshold_for(noise: u32) -> u32 {
    let e = noise / 0x80_0000;
    let eight = if e == 0 {
        ZERO
    } else if e >= 252 {
        INFINITY
    } else {
        (noise + 3 * 0x80_0000) as u32
    };
    if eight > LEAST_THRESHOLD {
        eight
    } else {
        LEAST_THRESHOLD
    }
}

/// What the probe is about.
#[derive(Clone, Copy, PartialEq, Eq, Debug, Structural)]
pub enum Phase {
    /// Measuring the noise.
    Warmup,
    /// About to emit a click.
    Arm,
    /// Waiting for the click that went out at `out_frame`.
    Listen { out_frame: u64, deadline: u64 },
    /// Letting the echo die down.
    Cooldown { until: u64 },
}

/// What the probe found out in a period.
#[derive(Clone, Copy, PartialEq, Eq, Debug, Structural)]
pub enum ProbeEvent {
    /// The noise was measured.
    Calibrated { noise_floor: u32, threshold: u32 },
    /// A click came back after so many frames.
    Hit { frames: u32 },
    /// A click did not come back in time.
    Miss,
    /// All trials are over.
    Done,
}

#[derive(Clone, Copy, PartialEq, Eq, Debug, Structural)]
pub struct LatencyProbe {
    pub rate: u32,
    pub channels: usize,
    pub frame_pos: u64,
    pub phase: Phase,
    pub trials_left: usize,
    pub warmup_frames: u64,
    pub timeout_frames: u64,
    pub cooldown_frames: u64,
    pub noise_floor: u32,
    pub threshold: u32,
}

/// The number of trials to run: at least one.
pub fn trials_to_run(trials: usize) -> (r: usize)
    ensures
        r >= 1,
        trials >= 1 ==> r == trials,
        r == if trials > 1 {
            trials
        } else {
            1
        },
{
    if trials > 1 {
        trials
    } else {
        1
    }
}

impl LatencyProbe {
    /// A click is out, or about to go out, only while there are trials left.
    pub open spec fn wf(self) -> bool {
        (self.phase is Warmup || self.phase is Arm || self.phase is Listen) ==> self.trials_left > 0
    }

    /// The channel count to divide by.
    pub open spec fn divisor(self) -> nat {
        if self.channels > 1 {
            self.channels as nat
        } else {
            1
        }
    }

    /// Whether the positions stay within their type for a period of `frames`
    /// frames, with an input of `heard` samples.
    pub open spec fn in_range(self, frames: nat, heard: nat) -> bool {
        &&& self.frame_pos + frames <= u64::MAX
        &&& self.phase is Arm ==> self.frame_pos + self.timeout_frames <= u64::MAX
        &&& self.phase is Listen ==> self.frame_pos + self.cooldown_frames <= u64::MAX
        &&& self.phase is Listen ==> self.frame_pos + heard <= u64::MAX
    }

    /// The probe after the trial that is under way.
    pub open spec fn trial_over(self) -> Self {
        LatencyProbe {
            trials_left: if self.trials_left > 0 {
                (self.trials_left - 1) as usize
            } else {
                0
            },
            phase: Phase::Cooldown { until: (self.frame_pos + self.cooldown_frames) as u64 },
            ..self
        }
    }

    /// What a period makes of the probe, but for its position, and what it finds
    /// out. `peak` is the greatest magnitude of the input, in frame `at` of the
    /// period.
    pub open spec fn reaction(self, peak: u32, at: int) -> (Self, Option<ProbeEvent>) {
        match self.phase {
            Phase::Warmup => {
                let noise_floor = if peak > self.noise_floor {
                    peak
                } else {
                    self.noise_floor
                };
                let heard = LatencyProbe { noise_floor, ..self };
                if self.frame_pos >= self.warmup_frames {
                    let threshold = threshold_for(noise_floor);
                    (
                        LatencyProbe { threshold, phase: Phase::Arm, ..heard },
                        Some(ProbeEvent::Calibrated { noise_floor, threshold }),
                    )
                } else {
                    (heard, None)
                }
            },
            Phase::Arm => (
                LatencyProbe {
                    phase: Phase::Listen {
                        out_frame: self.frame_pos,
                        deadline: (self.frame_pos + self.timeout_frames) as u64,
                    },
                    ..self
                },
                None,
            ),
            Phase::Listen { out_frame, deadline } => if peak >= self.threshold {
                let in_frame = self.frame_pos + at;
                let frames = if in_frame > out_frame {
                    (in_frame - out_frame) % 0x1_0000_0000
                } else {
                    0
                };
                (self.trial_over(), Some(ProbeEvent::Hit { frames: frames as u32 }))
            } else if self.frame_pos >= deadline {
                (self.trial_over(), Some(ProbeEvent::Miss))
            } else {
                (self, None)
            },
            Phase::Cooldown { until } => if self.frame_pos >= until {
                if self.trials_left == 0 {
                    (self, Some(ProbeEvent::Done))
                } else {
                    (LatencyProbe { phase: Phase::Arm, ..self }, None)
                }
            } else {
                (self, None)
            },
        }
    }

    /// The probe after a period of `frames` frames.
    pub open spec fn after(self, frames: nat, peak: u32, at: int) -> Self {
        LatencyProbe {
            frame_pos: (self.frame_pos + frames) as u64,
            ..self.reaction(peak, at).0
        }
    }

    /// What the probe emits: silence, and a click in the first frame of a period
    /// for which it is armed.
    pub open spec fn emission(self, len: nat) -> Seq<u32> {
        Seq::new(
            len,
            |i: int|
                if self.phase is Arm && i < self.channels {
                    IMPULSE
                } else {
                    ZERO
                },
        )
    }

    /// A probe for `trials` clicks.
    pub fn new(trials: usize) -> (r: Self)
        ensures
            r == (LatencyProbe {
                rate: 48_000,
                channels: 2,
                frame_pos: 0,
                phase: Phase::Warmup,
                trials_left: trials,
                warmup_frames: 0,
                timeout_frames: 0,
                cooldown_frames: 0,
                noise_floor: ZERO,
                threshold: INITIAL_THRESHOLD,
            }),
            trials > 0 ==> r.wf(),
    {
        LatencyProbe {
            rate: 48_000,
            channels: 2,
            frame_pos: 0,
            phase: Phase::Warmup,
            trials_left: trials,
            warmup_frames: 0,
            timeout_frames: 0,
            cooldown_frames: 0,
            noise_floor: ZERO,
            threshold: INITIAL_THRESHOLD,
        }
    }

    /// The probe adapted to a stream.
    pub open spec fn started(self, info: StreamInfo) -> Self {
        LatencyProbe {
            rate: info.render_format.sample_rate,
            channels: info.channels as usize,
            warmup_frames: (info.render_format.sample_rate / 2) as u64,
            timeout_frames: (info.render_format.sample_rate / 2) as u64,
            cooldown_frames: (info.render_format.sample_rate / 5) as u64,
            ..self
        }
    }

    /// Adapts the probe to a stream: half a second to warm up and for each click,
    /// a fifth of a second between clicks.
    pub fn on_start(&mut self, info: &StreamInfo)
        ensures
            *final(self) == (LatencyProbe {
                rate: info.render_format.sample_rate,
                channels: info.channels as usize,
                warmup_frames: (info.render_format.sample_rate / 2) as u64,
                timeout_frames: (info.render_format.sample_rate / 2) as u64,
                cooldown_frames: (info.render_format.sample_rate / 5) as u64,
                ..*old(self)
            }),
            *final(self) == old(self).started(*info),
    {
        self.rate = info.render_format.sample_rate;
        self.channels = info.channels as usize;
        self.warmup_frames = (self.rate / 2) as u64;
        self.timeout_frames = (self.rate / 2) as u64;
        self.cooldown_frames = (self.rate / 5) as u64;
    }

    /// Finds the greatest magnitude in the input, and the frame where it comes
    /// first.
    pub fn scan(&self, input: &[u32]) -> (r: (u32, usize))
        ensures
            is_peak_frame(input@, self.divisor(), r.0, r.1 as int),
    {
        let mut peak: u32 = 0;
        let mut at: usize = 0;
        let mut i: usize = 0;
        while i < input.len()
            invariant
                i <= input@.len(),
                is_peak(input@.take(i as int), peak, at as int),
            decreases input@.len() - i,
        {
            let mag: u32 = input[i] % 0x8000_0000;
            let ghost before = input@.take(i as int);
            let ghost next = input@.take(i + 1);
            assert forall|k: int| 0 <= k < i implies #[trigger] next[k] == before[k] by {}
            assert(next[i as int] == input@[i as int]);
            if mag > peak && mag <= INFINITY {
                peak = mag;
                at = i;
            }
            i = i + 1;
        }
        assert(input@.take(input@.len() as int) =~= input@);
        assert(is_peak(input@, peak, at as int));
        let channels: usize = if self.channels > 1 {
            self.channels
        } else {
            1
        };
        (peak, at / channels)
    }

    fn trial_ends(&mut self)
        requires
            old(self).frame_pos + old(self).cooldown_frames <= u64::MAX,
        ensures
            *final(self) == old(self).trial_over(),
    {
        if self.trials_left > 0 {
            self.trials_left = self.trials_left - 1;
        }
        self.phase = Phase::Cooldown { until: self.frame_pos + self.cooldown_frames };
    }

    /// Takes in what was heard, and returns what was found out.
    fn react(&mut self, peak: u32, at: usize) -> (r: Option<ProbeEvent>)
        requires
            old(self).in_range(0, at as nat),
        ensures
            (*final(self), r) == old(self).reaction(peak, at as int),
    {
        match self.phase {
            Phase::Warmup => {
                if peak > self.noise_floor {
                    self.noise_floor = peak;
                }
                if self.frame_pos >= self.warmup_frames {
                    let e: u32 = self.noise_floor / 0x80_0000;
                    let eight: u32 = if e == 0 {
                        ZERO
                    } else if e >= 252 {
                        INFINITY
                    } else {
                        self.noise_floor + 3 * 0x80_0000
                    };
                    self.threshold = if eight > LEAST_THRESHOLD {
                        eight
                    } else {
                        LEAST_THRESHOLD
                    };
                    self.phase = Phase::Arm;
                    return Some(
                        ProbeEvent::Calibrated {
                            noise_floor: self.noise_floor,
                            threshold: self.threshold,
                        },
                    );
                }
                None
            },
            Phase::Arm => {
                self.phase =
                Phase::Listen {
                    out_frame: self.frame_pos,
                    deadline: self.frame_pos + self.timeout_frames,
                };
                None
            },
            Phase::Listen { out_frame, deadline } => {
                if peak >= self.threshold {
                    let in_frame: u64 = self.frame_pos + at as u64;
                    let latency: u64 = if in_frame > out_frame {
                        in_frame - out_frame
                    } else {
                        0
                    };
                    self.trial_ends();
                    Some(ProbeEvent::Hit { frames: (latency % 0x1_0000_0000) as u32 })
                } else if self.frame_pos >= deadline {
                    self.trial_ends();
                    Some(ProbeEvent::Miss)
                } else {
                    None
                }
            },
            Phase::Cooldown { until } => {
                if self.frame_pos >= until {
                    if self.trials_left == 0 {
                        return Some(ProbeEvent::Done);
                    }
                    self.phase = Phase::Arm;
                }
                None
            },
        }
    }

    /// Handles a period: hears `input`, fills `output`, and returns what was
    /// found out.
    pub fn process(&mut self, input: &[u32], output: &mut [u32]) -> (r: Option<ProbeEvent>)
        requires
            old(self).in_range(
                (old(output)@.len() / old(self).divisor()) as nat,
                input@.len(),
            ),
            old(self).phase is Arm ==> old(self).channels <= old(output)@.len(),
        ensures
            final(output)@ == old(self).emission(old(output)@.len()),
            exists|peak: u32, frame: int| #[trigger]
                is_peak_frame(input@, old(self).divisor(), peak, frame) && ({
                    let frames = old(output)@.len() / old(self).divisor();
                    &&& *final(self) == old(self).after(frames, peak, frame)
                    &&& r == old(self).reaction(peak, frame).1
                }),
    {
        let len: usize = output.len();
        let armed: bool = match self.phase {
            Phase::Arm => true,
            _ => false,
        };
        let ghost want = old(self).emission(len as nat);
        let mut i: usize = 0;
        while i < len
            invariant
                i <= len == output@.len(),
                armed == (old(self).phase is Arm),
                self.channels == old(self).channels,
                *self == *old(self),
                want == old(self).emission(len as nat),
                forall|k: int| 0 <= k < i ==> output@[k] == want[k],
            decreases len - i,
        {
            output[i] =
            if armed && i < self.channels {
                IMPULSE
            } else {
                ZERO
            };
            i = i + 1;
        }
        assert(output@ =~= want);
        let channels: usize = if self.channels > 1 {
            self.channels
        } else {
            1
        };
        let frames: usize = len / channels;
        let (peak, frame) = self.scan(input);
        let ghost at = choose|at: int| #[trigger]
            is_peak(input@, peak, at) && frame == at / (old(self).divisor() as int);
        proof {
            let d = channels as int;
            assert(0 <= at / d <= at) by (nonlinear_arith)
                requires
                    0 <= at,
                    d >= 1,
            ;
        }
        let r: Option<ProbeEvent> = self.react(peak, frame);
        self.frame_pos = self.frame_pos + frames as u64;
        r
    }
}

/// The latency is counted from the frame of the click to the frame of its echo:
/// a click that goes out at frame `p` and comes back in frame `at` of a period
/// that starts at frame `q` is reported as `q + at - p` frames.
pub proof fn law_hit_counts_frames_from_click_to_echo(
    armed: LatencyProbe,
    frames: nat,
    listening: LatencyProbe,
    peak: u32,
    at: int,
)
    requires
        armed.phase is Arm,
        armed.in_range(frames, 0),
        listening.phase == armed.after(frames, 0, 0).phase,
        listening.frame_pos >= armed.frame_pos,
        peak >= listening.threshold,
        at >= 0,
        listening.frame_pos + at - armed.frame_pos <= u32::MAX,
    ensures
        listening.reaction(peak, at).1 == Some(
            ProbeEvent::Hit { frames: (listening.frame_pos + at - armed.frame_pos) as u32 },
        ),
{
}

/// Every trial ends in exactly one hit or one miss: those events, and no others,
/// take one off the trials that are left.
pub proof fn law_every_trial_is_a_hit_or_a_miss(p: LatencyProbe, frames: nat, peak: u32, at: int)
    requires
        p.wf(),
        p.in_range(frames, 0),
    ensures
        p.after(frames, peak, at).wf(),
        p.after(frames, peak, at).trials_left == p.trials_left - (match p.reaction(peak, at).1 {
            Some(ProbeEvent::Hit { .. }) => 1int,
            Some(ProbeEvent::Miss) => 1int,
            _ => 0int,
        }),
{
}

/// The probe is done exactly when no trial is left and the last echo has died
/// down.
pub proof fn law_done_means_no_trials_left(p: LatencyProbe, peak: u32, at: int)
    requires
        p.wf(),
    ensures
        p.reaction(peak, at).1 == Some(ProbeEvent::Done) <==> p.trials_left == 0
            && (p.phase matches Phase::Cooldown { until } && p.frame_pos >= until),
{
}

/// The threshold is never below its least value, and a click is above the least
/// threshold.
pub proof fn law_threshold_has_a_floor(noise: u32)
    ensures
        threshold_for(noise) >= LEAST_THRESHOLD,
        IMPULSE > LEAST_THRESHOLD,
{
}

/// Whether `s` holds the same numbers as `v`, in order of size.
pub open spec fn is_sorted_copy(s: Seq<u32>, v: Seq<u32>) -> bool {
    &&& s.to_multiset() == v.to_multiset()
    &&& s.len() == v.len()
    &&& forall|i: int, j: int| 0 <= i <= j < s.len() ==> s[i] <= s[j]
}

fn sorted(v: &[u32]) -> (r: Vec<u32>)
    ensures
        is_sorted_copy(r@, v@),
{
    let mut out: Vec<u32> = Vec::new();
    let mut i: usize = 0;
    assert(v@.take(0) =~= out@);
    while i < v.len()
        invariant
            i <= v@.len(),
            out@.len() == i,
            is_sorted_copy(out@, v@.take(i as int)),
        decreases v@.len() - i,
    {
        let x: u32 = v[i];
        let mut at: usize = out.len();
        while at > 0 && out[at - 1] > x
            invariant
                at <= out@.len(),
                forall|k: int| at <= k < out@.len() ==> out@[k] > x,
            decreases at,
        {
            at = at - 1;
        }
        proof {
            let before = v@.take(i as int);
            assert(v@.take(i + 1) =~= before.push(x));
            vstd::seq_lib::to_multiset_build(before, x);
            vstd::seq_lib::to_multiset_insert(out@, at as int, x);
        }
        let ghost old_out = out@;
        out.insert(at, x);
        proof {
            assert forall|a: int, b: int| 0 <= a <= b < out@.len() implies out@[a] <= out@[b] by {
                let a0 = if a < at { a } else { a - 1 };
                let b0 = if b < at { b } else { b - 1 };
                if a != at && b != at {
                    assert(out@[a] == old_out[a0] && out@[b] == old_out[b0]);
                    assert(old_out[a0] <= old_out[b0]);
                } else if a == at && b != at {
                    assert(out@[b] == old_out[b0]);
                } else if a != at && b == at {
                    assert(out@[a] == old_out[a0]);
                    assert(old_out[a0] <= old_out[at - 1]);
                }
            }
        }
        i = i + 1;
    }
    assert(v@.take(v@.len() as int) =~= v@);
    out
}

/// The sum of the numbers.
pub open spec fn sum_of(v: Seq<u32>) -> nat
    decreases v.len(),
{
    if v.len() == 0 {
        0
    } else {
        sum_of(v.drop_last()) + v.last() as nat
    }
}

/// What a run's hits come to. The mean is `sum` over `count`.
#[derive(Clone, Copy, PartialEq, Eq, Debug, Structural)]
pub struct HitStats {
    pub min: u32,
    pub median: u32,
    pub sum: u128,
    pub count: u64,
    pub max: u32,
}

/// Whether `h` sums up the hits of a run.
pub open spec fn is_summary(hits: Seq<u32>, h: HitStats) -> bool {
    &&& hits.len() > 0
    &&& h.count == hits.len()
    &&& h.sum == sum_of(hits)
    &&& exists|s: Seq<u32>| #[trigger]
        is_sorted_copy(s, hits) && h.min == s[0] && h.median == s[(s.len() / 2) as int] && h.max
            == s[s.len() - 1]
}

/// Sums up the hits of a run; `None` without a hit. The median of an even count
/// is the upper one.
pub fn hit_stats(frames: &[u32]) -> (r: Option<HitStats>)
    ensures
        match r {
            None => frames@.len() == 0,
            Some(h) => frames@.len() > 0 && h.count == frames@.len() && h.sum == sum_of(frames@)
                && exists|s: Seq<u32>| #[trigger]
                is_sorted_copy(s, frames@) && h.min == s[0] && h.median == s[(s.len() / 2) as int]
                    && h.max == s[s.len() - 1],
        },
        r matches Some(h) ==> is_summary(frames@, h),
        r matches Some(h) ==> forall|i: int|
            0 <= i < frames@.len() ==> h.min <= #[trigger] frames@[i] <= h.max,
        r matches Some(h) ==> h.min * h.count <= h.sum <= h.max * h.count,
{
    let n: usize = frames.len();
    if n == 0 {
        return None;
    }
    let v: Vec<u32> = sorted(frames);
    let mut sum: u128 = 0;
    let mut i: usize = 0;
    assert(frames@.take(0) =~= Seq::<u32>::empty());
    while i < n
        invariant
            i <= n == frames@.len(),
            sum == sum_of(frames@.take(i as int)),
            sum <= i * 0xFFFF_FFFF,
        decreases n - i,
    {
        proof {
            assert(frames@.take(i + 1).drop_last() =~= frames@.take(i as int));
        }
        sum = sum + frames[i] as u128;
        i = i + 1;
    }
    assert(frames@.take(n as int) =~= frames@);
    let h = HitStats { min: v[0], median: v[n / 2], sum, count: n as u64, max: v[n - 1] };
    proof {
        law_summary_bounds_the_hits(frames@, h);
    }
    Some(h)
}

/// How many of a stream's render periods had no underrun.
pub open spec fn delivered(stats: StatsSnapshot) -> int {
    if stats.render_calls > stats.underruns {
        stats.render_calls - stats.underruns
    } else {
        0
    }
}

/// The render periods without an underrun.
pub fn delivered_periods(stats: &StatsSnapshot) -> (r: u64)
    ensures
        r == delivered(*stats),
        r == if stats.render_calls > stats.underruns {
            stats.render_calls - stats.underruns
        } else {
            0
        },
{
    if stats.render_calls > stats.underruns {
        stats.render_calls - stats.underruns
    } else {
        0
    }
}

/// The figures of a run that are not whole numbers, as text: the mean in frames
/// to one place, and all in milliseconds to two places.
pub struct LatencyFigures {
    pub mean: String,
    pub min_ms: String,
    pub median_ms: String,
    pub mean_ms: String,
    pub max_ms: String,
}

/// A line of the summary: a label, a figure in frames and the same in
/// milliseconds.
pub open spec fn figure_text(
    label: Seq<char>,
    frames: Seq<char>,
    width: nat,
    ms: Seq<char>,
) -> Seq<char> {
    label + right_aligned(frames, width) + " frames  "@ + right_aligned(ms, 7) + " ms\n"@
}

fn figure_line(label: &str, frames: &str, width: usize, ms: &str) -> (r: String)
    ensures
        r@ == figure_text(label@, frames@, width as nat, ms@),
{
    let mut s = label.to_owned();
    push_right_aligned(&mut s, frames, width);
    s.append(" frames  ");
    push_right_aligned(&mut s, ms, 7);
    s.append(" ms\n");
    s
}

/// The summary of a run with hits.
pub open spec fn hits_text(h: HitStats, misses: nat, f: LatencyFigures) -> Seq<char> {
    "\nroundtrip latency over "@ + decimal(h.count as nat) + " hits ("@ + decimal(misses)
        + " misses):\n"@ + figure_text("  min    : "@, decimal(h.min as nat), 6, f.min_ms@)
        + figure_text("  median : "@, decimal(h.median as nat), 6, f.median_ms@) + figure_text(
        "  mean   : "@,
        f.mean@,
        9,
        f.mean_ms@,
    ) + figure_text("  max    : "@, decimal(h.max as nat), 6, f.max_ms@)
}

/// Summarises a run with hits.
pub fn hits_summary(h: &HitStats, misses: usize, f: &LatencyFigures) -> (r: String)
    ensures
        r@ == hits_text(*h, misses as nat, *f),
{
    let mut s = "\nroundtrip latency over ".to_owned();
    push_decimal(&mut s, h.count);
    s.append(" hits (");
    push_decimal(&mut s, misses as u64);
    s.append(" misses):\n");
    let min = decimal_string(h.min as u64);
    let median = decimal_string(h.median as u64);
    let max = decimal_string(h.max as u64);
    s.append(figure_line("  min    : ", min.as_str(), 6, f.min_ms.as_str()).as_str());
    s.append(figure_line("  median : ", median.as_str(), 6, f.median_ms.as_str()).as_str());
    s.append(figure_line("  mean   : ", f.mean.as_str(), 9, f.mean_ms.as_str()).as_str());
    s.append(figure_line("  max    : ", max.as_str(), 6, f.max_ms.as_str()).as_str());
    s
}

/// Why a run has no hits: the input starves, or the output does not come back.
/// `delivery` is the part of the periods that were filled, in whole percent.
pub open spec fn no_hits_text(starved: bool, delivery: Seq<char>, misses: nat) -> Seq<char> {
    if starved {
        "\nThe input is only delivering "@ + delivery
            + "% of the frames the output consumes, so\nthe captured stream is mostly silence and no impulse can be detected.\nFor KS this is a capture-pin limitation on some devices; otherwise check routing.\n"@
    } else {
        "\nNo impulses detected ("@ + decimal(misses)
            + " misses), but both directions were streaming at full\nrate. The output is most likely not routed back to the input. Provide a loopback\npath (cable or the interface's loopback input) via --out / --in / --out-ch.\n"@
    }
}

/// Explains why a run has no hits.
pub fn no_hits_summary(starved: bool, delivery: &str, misses: usize) -> (r: String)
    ensures
        r@ == no_hits_text(starved, delivery@, misses as nat),
{
    if starved {
        let mut s = "\nThe input is only delivering ".to_owned();
        s.append(delivery);
        s.append(
            "% of the frames the output consumes, so\nthe captured stream is mostly silence and no impulse can be detected.\nFor KS this is a capture-pin limitation on some devices; otherwise check routing.\n",
        );
        s
    } else {
        let mut s = "\nNo impulses detected (".to_owned();
        push_decimal(&mut s, misses as u64);
        s.append(
            " misses), but both directions were streaming at full\nrate. The output is most likely not routed back to the input. Provide a loopback\npath (cable or the interface's loopback input) via --out / --in / --out-ch.\n",
        );
        s
    }
}

/// The least, the median and the greatest of the hits are in this order, and
/// each of them is one of the hits.
pub proof fn law_hit_stats_are_ordered(v: Seq<u32>, s: Seq<u32>)
    requires
        v.len() > 0,
        is_sorted_copy(s, v),
    ensures
        s[0] <= s[(s.len() / 2) as int] <= s[s.len() - 1],
        v.contains(s[0]),
        v.contains(s[(s.len() / 2) as int]),
        v.contains(s[s.len() - 1]),
{
    broadcast use vstd::seq_lib::to_multiset_contains;

    assert forall|i: int| 0 <= i < s.len() implies v.contains(#[trigger] s[i]) by {
        assert(s.contains(s[i]));
        assert(s.to_multiset().contains(s[i]));
        assert(v.to_multiset().contains(s[i]));
    }
}

proof fn lemma_sum_bounds(v: Seq<u32>, lo: u32, hi: u32)
    requires
        forall|i: int| 0 <= i < v.len() ==> lo <= #[trigger] v[i] <= hi,
    ensures
        lo * v.len() <= sum_of(v) <= hi * v.len(),
    decreases v.len(),
{
    if v.len() > 0 {
        let init = v.drop_last();
        assert forall|i: int| 0 <= i < init.len() implies lo <= #[trigger] init[i] <= hi by {
            assert(init[i] == v[i]);
        }
        lemma_sum_bounds(init, lo, hi);
        let n = init.len() as int;
        assert(lo <= v[v.len() - 1] <= hi);
        assert(lo * (n + 1) == lo * n + lo && hi * (n + 1) == hi * n + hi) by (nonlinear_arith);
    }
}

proof fn lemma_few_satisfy(s: Seq<u32>, test: spec_fn(u32) -> bool, lo: int, hi: int)
    requires
        0 <= lo <= hi,
        forall|i: int|
            0 <= i < s.len() && !(lo <= i < hi) ==> !test(#[trigger] s[i]),
    ensures
        s.to_multiset().filter(test).len() <= hi - lo,
    decreases s.len(),
{
    s.to_multiset_ensures();
    if s.len() == 0 {
        assert(s.to_multiset().filter(test) =~= vstd::multiset::Multiset::empty());
    } else {
        let init = s.drop_last();
        let x = s.last();
        assert(init.push(x) =~= s);
        vstd::seq_lib::to_multiset_build(init, x);
        let m = init.to_multiset();
        let last = s.len() - 1;
        assert forall|i: int| 0 <= i < init.len() && !(lo <= i < hi) implies !test(
            #[trigger] init[i],
        ) by {
            assert(init[i] == s[i]);
        }
        if test(x) {
            assert(test(s[last]));
            assert forall|i: int| 0 <= i < init.len() && !(lo <= i < hi - 1) implies !test(
                #[trigger] init[i],
            ) by {
                assert(init[i] == s[i]);
                assert(hi > last);
                if i >= lo {
                    assert(i >= hi - 1 >= last);
                }
            }
            lemma_few_satisfy(init, test, lo, hi - 1);
            assert(m.insert(x).filter(test) =~= m.filter(test).insert(x));
        } else {
            lemma_few_satisfy(init, test, lo, hi);
            assert(m.insert(x).filter(test) =~= m.filter(test));
        }
    }
}

/// The figures of a run say what its hits are: no hit is below the least or above
/// the greatest, both are hits, and so is the median; at most half of the hits are
/// below the median, and fewer than half are above it; and the mean lies between
/// the least and the greatest.
pub proof fn law_summary_bounds_the_hits(hits: Seq<u32>, h: HitStats)
    requires
        is_summary(hits, h),
    ensures
        forall|i: int| 0 <= i < hits.len() ==> h.min <= #[trigger] hits[i] <= h.max,
        hits.contains(h.min),
        hits.contains(h.median),
        hits.contains(h.max),
        h.min <= h.median <= h.max,
        h.count == hits.len(),
        h.min * h.count <= h.sum <= h.max * h.count,
        2 * hits.to_multiset().filter(|x: u32| x < h.median).len() <= hits.len(),
        2 * hits.to_multiset().filter(|x: u32| x > h.median).len() < hits.len(),
{
    let s = choose|s: Seq<u32>| #[trigger]
        is_sorted_copy(s, hits) && h.min == s[0] && h.median == s[(s.len() / 2) as int] && h.max
            == s[s.len() - 1];
    law_hit_stats_are_ordered(hits, s);
    broadcast use vstd::seq_lib::to_multiset_contains;

    assert forall|i: int| 0 <= i < hits.len() implies h.min <= #[trigger] hits[i] <= h.max by {
        assert(hits.contains(hits[i]));
        assert(hits.to_multiset().contains(hits[i]));
        assert(s.to_multiset().contains(hits[i]));
        let k = choose|k: int| 0 <= k < s.len() && s[k] == hits[i];
        assert(s[0] <= s[k] <= s[s.len() - 1]);
    }
    lemma_sum_bounds(hits, h.min, h.max);
    let mid = (s.len() / 2) as int;
    let less = |x: u32| x < h.median;
    let more = |x: u32| x > h.median;
    assert forall|i: int| 0 <= i < s.len() && !(0 <= i < mid) implies !less(#[trigger] s[i]) by {
        assert(s[mid] <= s[i]);
    }
    lemma_few_satisfy(s, less, 0, mid);
    assert forall|i: int| 0 <= i < s.len() && !(mid + 1 <= i < s.len()) implies !more(
        #[trigger] s[i],
    ) by {
        assert(s[i] <= s[mid]);
    }
    lemma_few_satisfy(s, more, mid + 1, s.len() as int);
}

/// Sums add up: the sum of two runs together is that of the one and that of the
/// other, and the sum of a single hit is that hit.
pub proof fn law_sums_add_up(a: Seq<u32>, b: Seq<u32>)
    ensures
        sum_of(a + b) == sum_of(a) + sum_of(b),
        a.len() == 1 ==> sum_of(a) == a[0],
    decreases b.len(),
{
    if b.len() == 0 {
        assert(a + b =~= a);
    } else {
        law_sums_add_up(a, b.drop_last());
        assert((a + b).drop_last() =~= a + b.drop_last());
    }
    if a.len() == 1 {
        assert(sum_of(a.drop_last()) == 0);
    }
}

/// The noise floor never falls during the warm-up: after a period it is no less
/// than before and no less than the peak of the period, and it is one of the two.
/// The warm-up ends with the first period that starts when it is due, and what is
/// then announced is that noise floor.
pub proof fn law_noise_floor_keeps_the_greatest_peak(
    p: LatencyProbe,
    frames: nat,
    peak: u32,
    at: int,
)
    requires
        p.phase is Warmup,
    ensures
        ({
            let n = p.after(frames, peak, at);
            &&& n.noise_floor >= p.noise_floor
            &&& n.noise_floor >= peak
            &&& n.noise_floor == p.noise_floor || n.noise_floor == peak
            &&& n.phase is Warmup <==> p.frame_pos < p.warmup_frames
            &&& !(n.phase is Warmup) ==> n.phase is Arm && p.reaction(peak, at).1 == Some(
                ProbeEvent::Calibrated { noise_floor: n.noise_floor, threshold: n.threshold },
            )
            &&& n.phase is Warmup ==> p.reaction(peak, at).1 is None
        }),
{
}

/// The probe after periods of `frames` frames with the given peaks.
pub open spec fn after_peaks(p: LatencyProbe, frames: nat, peaks: Seq<u32>) -> LatencyProbe
    decreases peaks.len(),
{
    if peaks.len() == 0 {
        p
    } else {
        after_peaks(p, frames, peaks.drop_last()).after(frames, peaks.last(), 0)
    }
}

/// The noise floor that the warm-up comes to is the greatest peak of all its
/// periods, wherever among them it was heard.
pub proof fn law_noise_floor_is_that_of_the_whole_warmup(
    p: LatencyProbe,
    frames: nat,
    peaks: Seq<u32>,
)
    requires
        p.noise_floor == ZERO,
        peaks.len() > 0,
        forall|k: int|
            0 <= k < peaks.len() ==> (#[trigger] after_peaks(p, frames, peaks.take(k))).phase is Warmup,
    ensures
        forall|i: int|
            0 <= i < peaks.len() ==> #[trigger] peaks[i] <= after_peaks(
                p,
                frames,
                peaks,
            ).noise_floor,
        after_peaks(p, frames, peaks).noise_floor == ZERO || peaks.contains(
            after_peaks(p, frames, peaks).noise_floor,
        ),
    decreases peaks.len(),
{
    let init = peaks.drop_last();
    assert(peaks.take(init.len() as int) =~= init);
    let q = after_peaks(p, frames, init);
    assert(after_peaks(p, frames, peaks.take(init.len() as int)).phase is Warmup);
    law_noise_floor_keeps_the_greatest_peak(q, frames, peaks.last(), 0);
    let floor = after_peaks(p, frames, peaks).noise_floor;
    if init.len() > 0 {
        assert forall|k: int| 0 <= k < init.len() implies (#[trigger] after_peaks(
            p,
            frames,
            init.take(k),
        )).phase is Warmup by {
            assert(init.take(k) =~= peaks.take(k));
            assert(after_peaks(p, frames, peaks.take(k)).phase is Warmup);
        }
        law_noise_floor_is_that_of_the_whole_warmup(p, frames, init);
        assert forall|i: int| 0 <= i < peaks.len() implies #[trigger] peaks[i] <= floor by {
            if i < init.len() {
                assert(init[i] <= q.noise_floor);
            }
        }
        if floor != ZERO && floor != peaks.last() {
            assert(init.contains(floor));
            let i = choose|i: int| 0 <= i < init.len() && init[i] == floor;
            assert(peaks[i] == floor);
        }
    } else {
        assert(init =~= Seq::<u32>::empty());
    }
    if floor == peaks.last() {
        assert(peaks[peaks.len() - 1] == floor);
    }
}

/// The threshold is eight times the noise, unless that is less than the least
/// threshold or more than any number. So nothing as loud as the noise is ever taken
/// for a click.
pub proof fn law_threshold_is_eight_times_the_noise(noise: u32)
    requires
        noise < INFINITY,
    ensures
        8 * units(noise) <= units(LEAST_THRESHOLD) ==> threshold_for(noise) == LEAST_THRESHOLD,
        8 * units(noise) > units(LEAST_THRESHOLD) && threshold_for(noise) != INFINITY ==> units(
            threshold_for(noise),
        ) == 8 * units(noise),
        threshold_for(noise) == INFINITY ==> noise >= 252 * 0x80_0000,
        noise < threshold_for(noise),
{
    if noise < 0x80_0000 {
        law_patterns_are_ordered(noise, 0x80_0000);
        lemma_eight_times(0x80_0000);
        law_patterns_are_ordered(0x200_0000, LEAST_THRESHOLD);
        if noise > 0 {
            law_patterns_are_ordered(0, noise);
        }
    } else if noise < 252 * 0x80_0000 {
        lemma_eight_times(noise);
        let eight = (noise + 3 * 0x80_0000) as u32;
        if eight < LEAST_THRESHOLD {
            law_patterns_are_ordered(eight, LEAST_THRESHOLD);
        } else if eight > LEAST_THRESHOLD {
            law_patterns_are_ordered(LEAST_THRESHOLD, eight);
        }
    } else {
        law_patterns_are_ordered(LEAST_THRESHOLD, noise);
        law_patterns_are_ordered(0, LEAST_THRESHOLD);
    }
}

/// A click is a single frame: where the probe is armed, every channel of the first
/// frame of the period is at full scale and all else is silence; where it is not,
/// all is silence. The probe listens from the period on in which the click went
/// out, and counts from the frame of the click.
pub proof fn law_one_click_for_each_listening(
    p: LatencyProbe,
    len: nat,
    frames: nat,
    peak: u32,
    at: int,
    i: int,
)
    requires
        p.in_range(frames, 0),
        0 <= i < len,
    ensures
        p.emission(len).len() == len,
        p.phase is Arm && i < p.channels ==> p.emission(len)[i] == ONE,
        !(p.phase is Arm) || i >= p.channels ==> p.emission(len)[i] == ZERO,
        p.phase is Arm ==> (p.after(frames, peak, at).phase matches Phase::Listen {
            out_frame,
            deadline,
        } && out_frame == p.frame_pos && deadline == p.frame_pos + p.timeout_frames),
        p.after(frames, peak, at).phase is Listen && !(p.phase is Listen) ==> p.phase is Arm,
{
}

/// A click counts as heard exactly when something reaches the threshold while the
/// probe listens, as missed exactly when its time is up and nothing does, and is
/// waited for otherwise. Outside of that nothing is ever taken for an echo.
pub proof fn law_echo_is_what_reaches_the_threshold(p: LatencyProbe, peak: u32, at: int)
    ensures
        p.reaction(peak, at).1 matches Some(ProbeEvent::Hit { .. }) <==> p.phase is Listen && peak
            >= p.threshold,
        p.reaction(peak, at).1 == Some(ProbeEvent::Miss) <==> (p.phase matches Phase::Listen {
            out_frame,
            deadline,
        } && peak < p.threshold && p.frame_pos >= deadline),
        (p.phase matches Phase::Listen { out_frame, deadline } && peak < p.threshold && p.frame_pos
            < deadline) ==> p.reaction(peak, at).0 == p,
{
}

/// Between two clicks the echo has time to die down: after a hit or a miss the probe
/// is not armed before the cooldown has passed, and is armed then if a trial is
/// left.
pub proof fn law_clicks_keep_their_distance(
    p: LatencyProbe,
    frames: nat,
    peak: u32,
    at: int,
    q: LatencyProbe,
)
    requires
        p.phase is Listen,
        p.in_range(frames, 0),
        !(p.reaction(peak, at).1 is None),
        q.phase == p.after(frames, peak, at).phase,
    ensures
        q.frame_pos < p.frame_pos + p.cooldown_frames ==> q.reaction(peak, at).0.phase == q.phase
            && q.reaction(peak, at).1 is None,
        q.frame_pos >= p.frame_pos + p.cooldown_frames && q.trials_left > 0 ==> q.reaction(
            peak,
            at,
        ).0.phase is Arm,
        q.frame_pos >= p.frame_pos + p.cooldown_frames && q.trials_left == 0 ==> q.reaction(
            peak,
            at,
        ).1 == Some(ProbeEvent::Done),
{
}

/// Every period moves the probe on by its frames, and nothing but the warm-up
/// changes what the probe takes for noise.
pub proof fn law_periods_move_the_probe_on(p: LatencyProbe, frames: nat, peak: u32, at: int)
    requires
        p.in_range(frames, 0),
    ensures
        p.after(frames, peak, at).frame_pos == p.frame_pos + frames,
        p.after(frames, peak, at).channels == p.channels,
        p.after(frames, peak, at).rate == p.rate,
        p.after(frames, peak, at).warmup_frames == p.warmup_frames,
        p.after(frames, peak, at).timeout_frames == p.timeout_frames,
        p.after(frames, peak, at).cooldown_frames == p.cooldown_frames,
        !(p.phase is Warmup) ==> p.after(frames, peak, at).noise_floor == p.noise_floor && p.after(
            frames,
            peak,
            at,
        ).threshold == p.threshold,
{
}

/// The probe keeps its times at any rate: half a second to warm up, half a second
/// for each click, and a fifth of a second between clicks, to the frame.
pub proof fn law_times_follow_the_rate(p: LatencyProbe, info: StreamInfo)
    ensures
        ({
            let s = p.started(info);
            let rate = info.render_format.sample_rate;
            &&& 2 * s.warmup_frames <= rate < 2 * (s.warmup_frames + 1)
            &&& 2 * s.timeout_frames <= rate < 2 * (s.timeout_frames + 1)
            &&& 5 * s.cooldown_frames <= rate < 5 * (s.cooldown_frames + 1)
            &&& s.channels == info.channels
            &&& s.rate == rate
            &&& s.phase == p.phase && s.trials_left == p.trials_left
            &&& s.frame_pos == p.frame_pos && s.noise_floor == p.noise_floor
        }),
{
}

/// A period of an input has one peak and one place of it: the place is the first
/// frame in which any channel is as loud as the loudest of the period.
pub proof fn law_peak_is_settled(input: Seq<u32>, p: u32, i: int, q: u32, k: int)
    requires
        is_peak(input, p, i),
        is_peak(input, q, k),
    ensures
        p == q,
        i == k,
{
    if p != 0 {
        assert(magnitude(input[i]) <= q);
    }
    if q != 0 {
        assert(magnitude(input[k]) <= p);
    }
    if p != 0 && i < k {
        assert(magnitude(input[i]) < q);
    }
    if p != 0 && k < i {
        assert(magnitude(input[k]) < p);
    }
}

/// The summary of a run shows each figure behind its own label, in frames and in
/// milliseconds, and says how many clicks came back and how many did not.
pub proof fn law_summary_labels_its_figures(h: HitStats, misses: nat, f: LatencyFigures)
    ensures
        ({
            let t = hits_text(h, misses, f);
            &&& has_substring(
                t,
                figure_text("  min    : "@, decimal(h.min as nat), 6, f.min_ms@),
            )
            &&& has_substring(
                t,
                figure_text("  median : "@, decimal(h.median as nat), 6, f.median_ms@),
            )
            &&& has_substring(t, figure_text("  mean   : "@, f.mean@, 9, f.mean_ms@))
            &&& has_substring(
                t,
                figure_text("  max    : "@, decimal(h.max as nat), 6, f.max_ms@),
            )
            &&& has_substring(
                t,
                decimal(h.count as nat) + (" hits ("@ + (decimal(misses) + " misses)"@)),
            )
        }),
{
    let a = "\nroundtrip latency over "@ + decimal(h.count as nat) + " hits ("@ + decimal(misses)
        + " misses):\n"@;
    let p1 = figure_text("  min    : "@, decimal(h.min as nat), 6, f.min_ms@);
    let p2 = figure_text("  median : "@, decimal(h.median as nat), 6, f.median_ms@);
    let p3 = figure_text("  mean   : "@, f.mean@, 9, f.mean_ms@);
    let p4 = figure_text("  max    : "@, decimal(h.max as nat), 6, f.max_ms@);
    let said = decimal(h.count as nat) + (" hits ("@ + (decimal(misses) + " misses)"@));
    reveal_strlit(" misses)");
    reveal_strlit(" misses):\n");
    assert(" misses):\n"@ =~= " misses)"@ + seq![':', '\n']);
    assert(a =~= "\nroundtrip latency over "@ + said + seq![':', '\n']);
    lemma_part_at_end("\nroundtrip latency over "@, said);
    lemma_part_stays("\nroundtrip latency over "@ + said, seq![':', '\n'], said);
    lemma_part_at_end(a, p1);
    lemma_part_stays(a, p1, said);
    lemma_part_at_end(a + p1, p2);
    lemma_part_stays(a + p1, p2, said);
    lemma_part_stays(a + p1, p2, p1);
    lemma_part_at_end(a + p1 + p2, p3);
    lemma_part_stays(a + p1 + p2, p3, said);
    lemma_part_stays(a + p1 + p2, p3, p1);
    lemma_part_stays(a + p1 + p2, p3, p2);
    lemma_part_at_end(a + p1 + p2 + p3, p4);
    lemma_part_stays(a + p1 + p2 + p3, p4, said);
    lemma_part_stays(a + p1 + p2 + p3, p4, p1);
    lemma_part_stays(a + p1 + p2 + p3, p4, p2);
    lemma_part_stays(a + p1 + p2 + p3, p4, p3);
}

/// The frame that an echo is counted to is the first one that holds the peak: one of
/// its channels is as loud as the loudest sample of the period, and no channel of
/// any frame before it is.
pub proof fn law_echo_is_in_its_frame(p: LatencyProbe, input: Seq<u32>, peak: u32, frame: int)
    requires
        is_peak_frame(input, p.divisor(), peak, frame),
        peak > 0,
    ensures
        p.channels > 0 ==> p.divisor() == p.channels,
        exists|i: int|
            frame * p.divisor() <= i < (frame + 1) * p.divisor() && 0 <= i < input.len()
                && magnitude(#[trigger] input[i]) == peak && !is_nan(input[i]),
        forall|i: int|
            0 <= i < frame * p.divisor() && !is_nan(#[trigger] input[i]) ==> magnitude(input[i])
                < peak,
{
    let d = p.divisor() as int;
    let at = choose|at: int| #[trigger] is_peak(input, peak, at) && frame == at / d;
    vstd::arithmetic::div_mod::lemma_fundamental_div_mod(at, d);
    assert(frame * d <= at < (frame + 1) * d) by (nonlinear_arith)
        requires
            at == d * frame + at % d,
            0 <= at % d < d,
    ;
    assert(magnitude(input[at]) == peak);
}

/// The periods with and those without an underrun are all periods, as long as no more
/// of them ran short than ran; a stream that always ran short has delivered nothing.
pub proof fn law_delivered_and_short_are_all(stats: StatsSnapshot)
    ensures
        stats.underruns <= stats.render_calls ==> delivered(stats) + stats.underruns
            == stats.render_calls,
        stats.underruns >= stats.render_calls ==> delivered(stats) == 0,
        0 <= delivered(stats) <= stats.render_calls,
{
}

/// A run without hits is explained by what was measured: by how little of the input
/// came through where it starves, and otherwise by how many clicks were missed.
pub proof fn law_explanation_names_what_was_measured(delivery: Seq<char>, misses: nat)
    ensures
        has_substring(no_hits_text(true, delivery, misses), delivery + "%"@),
        has_substring(no_hits_text(false, delivery, misses), decimal(misses) + " misses)"@),
        no_hits_text(true, delivery, misses) != no_hits_text(false, delivery, misses),
{
    reveal_strlit("\nThe input is only delivering ");
    reveal_strlit("\nNo impulses detected (");
    reveal_strlit("%");
    reveal_strlit(" misses)");
    reveal_strlit(
        "% of the frames the output consumes, so\nthe captured stream is mostly silence and no impulse can be detected.\nFor KS this is a capture-pin limitation on some devices; otherwise check routing.\n",
    );
    reveal_strlit(
        " misses), but both directions were streaming at full\nrate. The output is most likely not routed back to the input. Provide a loopback\npath (cable or the interface's loopback input) via --out / --in / --out-ch.\n",
    );
    let a = "\nThe input is only delivering "@;
    let x =
        "% of the frames the output consumes, so\nthe captured stream is mostly silence and no impulse can be detected.\nFor KS this is a capture-pin limitation on some devices; otherwise check routing.\n"@;
    let b = "\nNo impulses detected ("@;
    let y =
        " misses), but both directions were streaming at full\nrate. The output is most likely not routed back to the input. Provide a loopback\npath (cable or the interface's loopback input) via --out / --in / --out-ch.\n"@;
    assert(x =~= "%"@ + x.skip(1));
    assert(y =~= " misses)"@ + y.skip(8));
    let said = delivery + "%"@;
    let told = decimal(misses) + " misses)"@;
    assert(a + delivery + x =~= a + said + x.skip(1)) by {
        lemma_regroup(a, delivery, "%"@);
        lemma_regroup(a + delivery, "%"@, x.skip(1));
    }
    assert(b + decimal(misses) + y =~= b + told + y.skip(8)) by {
        lemma_regroup(b, decimal(misses), " misses)"@);
        lemma_regroup(b + decimal(misses), " misses)"@, y.skip(8));
    }
    lemma_part_at_end(a, said);
    lemma_part_stays(a + said, x.skip(1), said);
    lemma_part_at_end(b, told);
    lemma_part_stays(b + told, y.skip(8), told);
    assert(a[1] == 'T' && b[1] == 'N');
    assert(no_hits_text(true, delivery, misses)[1] == 'T');
    assert(no_hits_text(false, delivery, misses)[1] == 'N');
}

} // verus!
