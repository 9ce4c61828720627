//! Shared full-duplex plumbing: captured bytes go into the ring, out of the ring
//! through the processor, and on to the render device as bytes.

use vstd::prelude::*;

use crate::engine::{Processor, StreamInfo, StreamStats};
use crate::float32::ZERO;
use crate::format::{
    decoded_all, encoded_over, f32_to_native, is_spread, native_to_f32, remap_channels,
    StreamFormat,
};
use crate::ring::{
    contents, cursors_ok, distance, lemma_next_pow2, ring, ring_capacity, Consumer, Producer, Slots,
};

verus! {

/// `n` samples of silence.
pub open spec fn silence(n: nat) -> Seq<u32> {
    Seq::new(n, |i: int| ZERO)
}

/// Makes `v` hold `n` samples of silence, in the memory that it has.
fn silence_buffer(v: &mut Vec<u32>, n: usize)
    ensures
        final(v)@ == silence(n as nat),
{
    v.truncate(n);
    let len: usize = v.len();
    let mut i: usize = 0;
    while i < len
        invariant
            i <= len == v@.len(),
            len <= n,
            forall|k: int| 0 <= k < i ==> v@[k] == ZERO,
        decreases len - i,
    {
        v[i] = ZERO;
        i = i + 1;
    }
    while i < n
        invariant
            i <= n,
            v@.len() == i,
            forall|k: int| 0 <= k < i ==> v@[k] == ZERO,
        decreases n - i,
    {
        v.push(ZERO);
        i = i + 1;
    }
    assert(v@ =~= silence(n as nat));
}

/// The counters after a captured packet.
pub open spec fn captured(
    stats: StreamStats,
    frames: nat,
    overrun: bool,
    discontinuity: bool,
) -> StreamStats {
    StreamStats {
        overruns: if overrun {
            stats.overruns.wrapping_add(1)
        } else {
            stats.overruns
        },
        glitches: if discontinuity {
            stats.glitches.wrapping_add(1)
        } else {
            stats.glitches
        },
        capture_calls: stats.capture_calls.wrapping_add(1),
        capture_frames: stats.capture_frames.wrapping_add(frames as u64),
        ..stats
    }
}

/// The counters after a render period.
pub open spec fn rendered(stats: StreamStats, frames: nat, underrun: bool) -> StreamStats {
    StreamStats {
        underruns: if underrun {
            stats.underruns.wrapping_add(1)
        } else {
            stats.underruns
        },
        render_calls: stats.render_calls.wrapping_add(1),
        render_frames: stats.render_frames.wrapping_add(frames as u64),
        ..stats
    }
}

/// The capture thread's end: device bytes go into the ring.
pub struct CaptureSink {
    pub prod: Producer,
    pub cap_fmt: StreamFormat,
    pub proc_ch: usize,
    pub f32_buf: Vec<u32>,
    pub remap_buf: Vec<u32>,
}

impl CaptureSink {
    /// Puts a packet of `frames` frames into the ring and counts it. `tail` is
    /// the consumer's published cursor; samples that find no room are dropped.
    pub fn submit<S: Slots<u32>, F: Fn(&[u32]) -> u32>(
        &mut self,
        slots: &mut S,
        tail: usize,
        stats: &mut StreamStats,
        native: &[u8],
        frames: usize,
        discontinuity: bool,
        average: &F,
    )
        requires
            old(slots).cells().len() == old(self).prod.spec_capacity(),
            cursors_ok(old(self).prod.spec_capacity(), tail, old(self).prod.spec_head()),
            native@.len() == frames * old(self).cap_fmt.spec_frame_bytes(),
            frames * old(self).proc_ch <= usize::MAX,
            forall|frame: &[u32]| #[trigger] average.requires((frame,)),
        ensures
            final(self).cap_fmt == old(self).cap_fmt,
            final(self).proc_ch == old(self).proc_ch,
            final(self).prod.spec_capacity() == old(self).prod.spec_capacity(),
            final(slots).cells().len() == old(slots).cells().len(),
            exists|samples: Seq<u32>, n: int|
                {
                    let room = old(self).prod.spec_capacity() - distance(
                        old(self).prod.spec_head(),
                        tail,
                    );
                    &&& #[trigger] is_spread(
                        decoded_all(native@, old(self).cap_fmt.sample_format),
                        old(self).cap_fmt.channels as nat,
                        old(self).proc_ch as nat,
                        *average,
                        samples,
                    )
                    &&& n == if room < samples.len() {
                        room
                    } else {
                        samples.len() as int
                    }
                    &&& contents(final(slots).cells(), tail, final(self).prod.spec_head())
                        == contents(old(slots).cells(), tail, old(self).prod.spec_head())
                        + #[trigger] samples.take(n)
                    &&& distance(final(self).prod.spec_head(), tail) == distance(
                        old(self).prod.spec_head(),
                        tail,
                    ) + n
                    &&& *final(stats) == captured(
                        *old(stats),
                        frames as nat,
                        n < frames * old(self).proc_ch,
                        discontinuity,
                    )
                },
    {
        let cap_ch: usize = self.cap_fmt.channels as usize;
        self.f32_buf.clear();
        native_to_f32(native, self.cap_fmt.sample_format, &mut self.f32_buf);
        let ghost decoded = decoded_all(native@, old(self).cap_fmt.sample_format);
        assert(self.f32_buf@ =~= decoded);
        let ghost samples: Seq<u32>;
        let pushed: usize;
        if cap_ch == self.proc_ch {
            pushed = self.prod.push(slots, tail, self.f32_buf.as_slice());
            proof {
                samples = decoded;
            }
        } else {
            self.remap_buf.clear();
            remap_channels(
                self.f32_buf.as_slice(),
                cap_ch,
                &mut self.remap_buf,
                self.proc_ch,
                average,
            );
            assert(self.remap_buf@.skip(0) =~= self.remap_buf@);
            pushed = self.prod.push(slots, tail, self.remap_buf.as_slice());
            proof {
                samples = self.remap_buf@;
            }
        }
        let wanted: usize = frames * self.proc_ch;
        if pushed < wanted {
            stats.overruns = stats.overruns.wrapping_add(1);
        }
        if discontinuity {
            stats.glitches = stats.glitches.wrapping_add(1);
        }
        stats.capture_calls = stats.capture_calls.wrapping_add(1);
        stats.capture_frames = stats.capture_frames.wrapping_add(frames as u64);
        assert(is_spread(
            decoded,
            cap_ch as nat,
            old(self).proc_ch as nat,
            *average,
            samples,
        ));
        let ghost kept = samples.take(pushed as int);
    }
}

/// What the processor hears in a period of `n` samples: the oldest unread
/// samples, and silence where there are too few.
pub open spec fn heard(unread: Seq<u32>, n: nat) -> Seq<u32> {
    if unread.len() < n {
        unread + silence((n - unread.len()) as nat)
    } else {
        unread.take(n as int)
    }
}

/// The render thread's end: out of the ring, through the processor, to bytes.
pub struct RenderSource<P: Processor> {
    pub cons: Consumer,
    pub proc: P,
    pub render_fmt: StreamFormat,
    pub proc_ch: usize,
    pub in_buf: Vec<u32>,
    pub out_buf: Vec<u32>,
}

impl<P: Processor> RenderSource<P> {
    /// Takes the input of a period out of the ring and clears the output.
    /// Returns whether the ring held too little.
    pub fn stage<S: Slots<u32>>(&mut self, slots: &S, head: usize, frames: usize) -> (short: bool)
        requires
            slots.cells().len() == old(self).cons.spec_capacity(),
            cursors_ok(old(self).cons.spec_capacity(), old(self).cons.spec_tail(), head),
            frames * old(self).proc_ch <= usize::MAX,
        ensures
            final(self).proc == old(self).proc,
            final(self).render_fmt == old(self).render_fmt,
            final(self).proc_ch == old(self).proc_ch,
            final(self).cons.spec_capacity() == old(self).cons.spec_capacity(),
            short == (distance(head, old(self).cons.spec_tail()) < frames * old(self).proc_ch),
            final(self).in_buf@ == heard(
                contents(slots.cells(), old(self).cons.spec_tail(), head),
                (frames * old(self).proc_ch) as nat,
            ),
            final(self).out_buf@ == silence((frames * old(self).proc_ch) as nat),
            distance(head, final(self).cons.spec_tail()) == if short {
                0
            } else {
                distance(head, old(self).cons.spec_tail()) - frames * old(self).proc_ch
            },
            contents(slots.cells(), final(self).cons.spec_tail(), head) == contents(
                slots.cells(),
                old(self).cons.spec_tail(),
                head,
            ).skip(
                if short {
                    distance(head, old(self).cons.spec_tail()) as int
                } else {
                    frames * old(self).proc_ch
                },
            ),
    {
        let n: usize = frames * self.proc_ch;
        silence_buffer(&mut self.in_buf, n);
        silence_buffer(&mut self.out_buf, n);
        let ghost unread = contents(slots.cells(), self.cons.spec_tail(), head);
        let got: usize = self.cons.pop(slots, head, self.in_buf.as_mut_slice());
        proof {
            let rest = contents(slots.cells(), self.cons.spec_tail(), head);
            assert(rest.len() == unread.skip(got as int).len());
            assert(self.in_buf@ =~= heard(unread, n as nat));
        }
        got < n
    }

    /// Fills `dst` with a period of `frames` frames and counts it. `head` is the
    /// producer's published cursor. The processor runs once: it is given as many
    /// samples as it produces, and an output of silence to write on.
    pub fn fill<S: Slots<u32>>(
        &mut self,
        slots: &S,
        head: usize,
        stats: &mut StreamStats,
        dst: &mut [u8],
        frames: usize,
    )
        requires
            slots.cells().len() == old(self).cons.spec_capacity(),
            cursors_ok(old(self).cons.spec_capacity(), old(self).cons.spec_tail(), head),
            frames * old(self).proc_ch <= usize::MAX,
        ensures
            final(self).render_fmt == old(self).render_fmt,
            final(self).proc_ch == old(self).proc_ch,
            final(self).cons.spec_capacity() == old(self).cons.spec_capacity(),
            final(self).in_buf@ == heard(
                contents(slots.cells(), old(self).cons.spec_tail(), head),
                (frames * old(self).proc_ch) as nat,
            ),
            final(self).out_buf@.len() == frames * old(self).proc_ch,
            old(self).proc.answers(
                final(self).in_buf@,
                silence((frames * old(self).proc_ch) as nat),
                old(self).proc_ch,
                final(self).out_buf@,
            ),
            exists|p: &mut P, i: &[u32], o: &mut [u32]|
                {
                    &&& *p == old(self).proc
                    &&& *final(p) == final(self).proc
                    &&& i@ == final(self).in_buf@
                    &&& o@ == silence((frames * old(self).proc_ch) as nat)
                    &&& final(o)@ == final(self).out_buf@
                    &&& #[trigger] call_ensures(P::process, (p, i, o, old(self).proc_ch), ())
                },
            final(dst)@ == encoded_over(
                final(self).out_buf@,
                old(self).render_fmt.sample_format,
                old(dst)@,
            ),
            cursors_ok(final(self).cons.spec_capacity(), final(self).cons.spec_tail(), head),
            contents(slots.cells(), final(self).cons.spec_tail(), head) == contents(
                slots.cells(),
                old(self).cons.spec_tail(),
                head,
            ).skip(
                if distance(head, old(self).cons.spec_tail()) < frames * old(self).proc_ch {
                    distance(head, old(self).cons.spec_tail()) as int
                } else {
                    frames * old(self).proc_ch
                },
            ),
            *final(stats) == rendered(
                *old(stats),
                frames as nat,
                distance(head, old(self).cons.spec_tail()) < frames * old(self).proc_ch,
            ),
    {
        let short: bool = self.stage(slots, head, frames);
        if short {
            stats.underruns = stats.underruns.wrapping_add(1);
        }
        self.proc.process(self.in_buf.as_slice(), self.out_buf.as_mut_slice(), self.proc_ch);
        f32_to_native(self.out_buf.as_slice(), self.render_fmt.sample_format, dst);
        stats.render_calls = stats.render_calls.wrapping_add(1);
        stats.render_frames = stats.render_frames.wrapping_add(frames as u64);
    }

    /// Tells the processor of the stream: it becomes what its own `on_start` makes
    /// of it, given `info`.
    pub fn on_start(&mut self, info: &StreamInfo)
        ensures
            final(self).cons == old(self).cons,
            final(self).render_fmt == old(self).render_fmt,
            final(self).proc_ch == old(self).proc_ch,
            final(self).in_buf == old(self).in_buf,
            final(self).out_buf == old(self).out_buf,
            exists|p: &mut P|
                {
                    &&& *p == old(self).proc
                    &&& *final(p) == final(self).proc
                    &&& #[trigger] call_ensures(P::on_start, (p, info), ())
                },
    {
        self.proc.on_start(info);
    }
}

/// The two ends of a stream and the ring between them. The ring starts with
/// `prime_frames` of silence, which is real latency: keep it small.
pub fn make_duplex<P: Processor>(
    cap_fmt: StreamFormat,
    render_fmt: StreamFormat,
    proc_ch: usize,
    ring_frames: usize,
    prime_frames: usize,
    proc: P,
) -> (r: (CaptureSink, RenderSource<P>, Vec<u32>))
    requires
        ring_frames * proc_ch <= usize::MAX / 2 + 1,
        prime_frames * proc_ch <= usize::MAX,
    ensures
        r.0.cap_fmt == cap_fmt,
        r.0.proc_ch == proc_ch,
        r.1.proc == proc,
        r.1.render_fmt == render_fmt,
        r.1.proc_ch == proc_ch,
        r.0.prod.spec_capacity() == ring_capacity((ring_frames * proc_ch) as nat),
        r.1.cons.spec_capacity() == ring_capacity((ring_frames * proc_ch) as nat),
        r.2@.len() == ring_capacity((ring_frames * proc_ch) as nat),
        r.1.cons.spec_tail() == 0,
        contents(r.2@, r.1.cons.spec_tail(), r.0.prod.spec_head()) == silence(
            (if r.2@.len() < prime_frames * proc_ch {
                r.2@.len() as int
            } else {
                prime_frames * proc_ch
            }) as nat,
        ),
        cursors_ok(r.2@.len(), r.1.cons.spec_tail(), r.0.prod.spec_head()),
{
    let size: usize = ring_frames * proc_ch;
    let (mut prod, cons, mut slots) = ring(size, ZERO);
    assert(contents(slots@, 0, 0) =~= Seq::<u32>::empty());
    let mut quiet: Vec<u32> = Vec::new();
    silence_buffer(&mut quiet, prime_frames * proc_ch);
    let primed: usize = prod.push(&mut slots, 0, quiet.as_slice());
    assert(contents(slots@, 0, prod.spec_head()) =~= silence(primed as nat));
    (
        CaptureSink { prod, cap_fmt, proc_ch, f32_buf: Vec::with_capacity(size), remap_buf: Vec::with_capacity(size) },
        RenderSource { cons, proc, render_fmt, proc_ch, in_buf: Vec::new(), out_buf: Vec::new() },
        slots,
    )
}

/// A render-only stream hears silence: where all that is unread is silence, a
/// period of any length hears silence, and what stays unread is silence.
pub proof fn law_silent_ring_is_heard_as_silence(unread: Seq<u32>, n: nat, k: int)
    requires
        unread == silence(unread.len()),
        0 <= k <= unread.len(),
    ensures
        heard(unread, n) == silence(n),
        unread.skip(k) == silence((unread.len() - k) as nat),
{
    assert(heard(unread, n) =~= silence(n));
    assert(unread.skip(k) =~= silence((unread.len() - k) as nat));
}

/// A render-only stream, whose ring is never filled, delivers nothing: every
/// period runs short, so that the periods that ran short are all that ran.
pub proof fn law_empty_ring_delivers_nothing(
    stats: StreamStats,
    cells: Seq<u32>,
    cursor: usize,
    frames: nat,
    samples: nat,
)
    requires
        stats.underruns == stats.render_calls,
        samples > 0,
    ensures
        distance(cursor, cursor) < samples,
        heard(contents(cells, cursor, cursor), samples) == silence(samples),
        ({
            let after = rendered(stats, frames, distance(cursor, cursor) < samples);
            after.underruns == after.render_calls
        }),
{
    assert(heard(contents(cells, cursor, cursor), samples) =~= silence(samples));
}

/// A ring has room for any priming of at most its own frames, so that the whole
/// of such a priming is there at the start.
pub proof fn law_priming_fits(ring_frames: nat, prime_frames: nat, proc_ch: nat)
    requires
        prime_frames <= ring_frames,
    ensures
        prime_frames * proc_ch <= ring_capacity(ring_frames * proc_ch),
{
    assert(prime_frames * proc_ch <= ring_frames * proc_ch) by (nonlinear_arith)
        requires
            prime_frames <= ring_frames,
    ;
    lemma_next_pow2(
        if ring_frames * proc_ch > 2 {
            ring_frames * proc_ch
        } else {
            2
        },
    );
}

/// The state of a stream whose ring started with `primed` samples of silence:
/// that silence and then the submitted samples, in order, are what the processor
/// has taken from the ring and then what is unread.
pub open spec fn is_delayed(
    primed: nat,
    submitted: Seq<u32>,
    taken: Seq<u32>,
    unread: Seq<u32>,
) -> bool {
    silence(primed) + submitted == taken + unread
}

/// Priming delays the input by exactly the samples that the ring was primed with.
/// The state that says so holds at the start, is kept by every packet and by every
/// period, short or not, and gives what the processor takes: the sample at each
/// place is silence within the priming, and after it the sample that was submitted
/// `primed` places before. A period hears what it takes, and silence where the
/// ring runs out.
pub proof fn law_priming_delays_the_input(
    primed: nat,
    submitted: Seq<u32>,
    taken: Seq<u32>,
    unread: Seq<u32>,
    packet: Seq<u32>,
    n: nat,
)
    requires
        is_delayed(primed, submitted, taken, unread),
    ensures
        is_delayed(primed, Seq::empty(), Seq::empty(), silence(primed)),
        is_delayed(primed, submitted + packet, taken, unread + packet),
        ({
            let m = if unread.len() < n {
                unread.len() as int
            } else {
                n as int
            };
            &&& heard(unread, n) == unread.take(m) + silence((n - m) as nat)
            &&& is_delayed(primed, submitted, taken + unread.take(m), unread.skip(m))
        }),
        taken.len() <= primed + submitted.len(),
        forall|i: int|
            0 <= i < taken.len() ==> #[trigger] taken[i] == if i < primed {
                ZERO
            } else {
                submitted[i - primed]
            },
{
    let m = if unread.len() < n {
        unread.len() as int
    } else {
        n as int
    };
    let line = silence(primed) + submitted;
    assert(line.len() == taken.len() + unread.len());
    assert(silence(primed) + Seq::<u32>::empty() =~= Seq::<u32>::empty() + silence(primed));
    assert(silence(primed) + (submitted + packet) =~= line + packet);
    assert((taken + unread) + packet =~= taken + (unread + packet));
    assert(heard(unread, n) =~= unread.take(m) + silence((n - m) as nat));
    assert((taken + unread.take(m)) + unread.skip(m) =~= taken + unread);
    assert forall|i: int| 0 <= i < taken.len() implies #[trigger] taken[i] == if i < primed {
        ZERO
    } else {
        submitted[i - primed]
    } by {
        assert((taken + unread)[i] == line[i]);
    }
}

/// Every period hears exactly as many samples as it produces.
pub proof fn law_period_hears_what_it_produces(unread: Seq<u32>, n: nat)
    ensures
        heard(unread, n).len() == n,
{
}

/// Until a counter wraps, no more render periods have run short than have run.
pub proof fn law_underruns_within_calls(stats: StreamStats, frames: nat, underrun: bool)
    requires
        stats.underruns <= stats.render_calls < u64::MAX,
    ensures
        rendered(stats, frames, underrun).underruns <= rendered(
            stats,
            frames,
            underrun,
        ).render_calls,
{
}

/// Until a counter wraps, no more packets have overrun or been discontinuous
/// than have been captured.
pub proof fn law_overruns_and_glitches_within_calls(
    stats: StreamStats,
    frames: nat,
    overrun: bool,
    discontinuity: bool,
)
    requires
        stats.overruns <= stats.capture_calls < u64::MAX,
        stats.glitches <= stats.capture_calls,
    ensures
        ({
            let after = captured(stats, frames, overrun, discontinuity);
            after.overruns <= after.capture_calls && after.glitches <= after.capture_calls
        }),
{
}

/// A captured packet is counted once, with its frames, as an overrun and as a glitch
/// where it is one, and touches no counter of the render side.
pub proof fn law_packet_is_counted_once(
    stats: StreamStats,
    frames: nat,
    overrun: bool,
    discontinuity: bool,
)
    requires
        stats.capture_calls < u64::MAX,
        stats.overruns < u64::MAX,
        stats.glitches < u64::MAX,
        stats.capture_frames + frames <= u64::MAX,
    ensures
        ({
            let after = captured(stats, frames, overrun, discontinuity);
            &&& after.capture_calls == stats.capture_calls + 1
            &&& after.capture_frames == stats.capture_frames + frames
            &&& overrun <==> after.overruns == stats.overruns + 1
            &&& !overrun <==> after.overruns == stats.overruns
            &&& discontinuity <==> after.glitches == stats.glitches + 1
            &&& !discontinuity <==> after.glitches == stats.glitches
            &&& after.render_calls == stats.render_calls
            &&& after.render_frames == stats.render_frames
            &&& after.underruns == stats.underruns
        }),
{
}

/// A render period is counted once, with its frames, as an underrun where it is one,
/// and touches no counter of the capture side.
pub proof fn law_period_is_counted_once(stats: StreamStats, frames: nat, underrun: bool)
    requires
        stats.render_calls < u64::MAX,
        stats.underruns < u64::MAX,
        stats.render_frames + frames <= u64::MAX,
    ensures
        ({
            let after = rendered(stats, frames, underrun);
            &&& after.render_calls == stats.render_calls + 1
            &&& after.render_frames == stats.render_frames + frames
            &&& underrun <==> after.underruns == stats.underruns + 1
            &&& !underrun <==> after.underruns == stats.underruns
            &&& after.capture_calls == stats.capture_calls
            &&& after.capture_frames == stats.capture_frames
            &&& after.overruns == stats.overruns
            &&& after.glitches == stats.glitches
        }),
{
}

} // verus!
