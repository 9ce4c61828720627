//! The control thread of an ASIO stream: what it asks of the driver, given what
//! the driver states of itself, and what it reports.

use vstd::prelude::*;

use crate::asio::{
    bits_of_type, format_of_type, fraction_bits, is_right_justified, sample_format_of, type_bytes,
    valid_bits_of,
};
use crate::engine::{Backend, EngineConfig, ShareMode, StreamInfo};
use crate::format::StreamFormat;
use crate::text::{
    from_utf8_lossy, has_substring, lemma_part_at_end, lemma_regroup, push_signed, signed_decimal,
    utf8_text,
};

verus! {

/// What a driver states of one of its channels.
pub struct AsioChannelInfo {
    pub channel: i32,
    pub is_input: i32,
    pub is_active: i32,
    pub channel_group: i32,
    pub sample_type: i32,
    pub name: [u8; 32],
}

impl AsioChannelInfo {
    pub open spec fn is_zero(self) -> bool {
        &&& self.channel == 0
        &&& self.is_input == 0
        &&& self.is_active == 0
        &&& self.channel_group == 0
        &&& self.sample_type == 0
        &&& forall|i: int| 0 <= i < 32 ==> self.name@[i] == 0
    }
}

impl Default for AsioChannelInfo {
    fn default() -> (r: Self)
        ensures
            r.is_zero(),
    {
        AsioChannelInfo {
            channel: 0,
            is_input: 0,
            is_active: 0,
            channel_group: 0,
            sample_type: 0,
            name: [0;32],
        }
    }
}

/// A text that ends at the first NUL, if there is one.
pub open spec fn until_nul(b: Seq<u8>) -> Seq<u8> {
    if exists|k: int| 0 <= k < b.len() && #[trigger] b[k] == 0 {
        b.take(
            choose|n: int|
                0 <= n < b.len() && #[trigger] b[n] == 0 && forall|k: int|
                    0 <= k < n ==> #[trigger] b[k] != 0,
        )
    } else {
        b
    }
}

fn nul_position(b: &[u8]) -> (r: usize)
    ensures
        r <= b@.len(),
        b@.take(r as int) == until_nul(b@),
{
    let mut i: usize = 0;
    while i < b.len()
        invariant
            i <= b@.len(),
            forall|k: int| 0 <= k < i ==> #[trigger] b@[k] != 0,
        decreases b@.len() - i,
    {
        if b[i] == 0 {
            proof {
                let n = choose|n: int|
                    0 <= n < b@.len() && #[trigger] b@[n] == 0 && forall|k: int|
                        0 <= k < n ==> #[trigger] b@[k] != 0;
                assert(b@[i as int] == 0);
                assert(n == i);
            }
            return i;
        }
        i = i + 1;
    }
    assert(b@.take(i as int) =~= b@);
    i
}

/// The text in a driver's buffer, up to the first NUL.
pub fn driver_text(b: &[u8]) -> (r: String)
    ensures
        r@ == utf8_text(until_nul(b@)),
{
    let n: usize = nul_position(b);
    from_utf8_lossy(vstd::slice::slice_subrange(b, 0, n))
}

/// A line of the channel map.
pub open spec fn channel_line_text(is_input: bool, channel: int, name: Seq<u8>) -> Seq<char> {
    "[dbg] "@ + (if is_input {
        "in "@
    } else {
        "out"@
    }) + " ch "@ + signed_decimal(channel) + ": "@ + utf8_text(until_nul(name))
}

/// Describes a channel for the channel map.
pub fn channel_line(info: &AsioChannelInfo) -> (r: String)
    ensures
        r@ == channel_line_text(info.is_input == 1, info.channel as int, info.name@),
{
    let mut s = "[dbg] ".to_owned();
    s.append(
        if info.is_input == 1 {
            "in "
        } else {
            "out"
        },
    );
    s.append(" ch ");
    push_signed(&mut s, info.channel);
    s.append(": ");
    let name: &[u8] = vstd::array::array_as_slice(&info.name);
    s.append(driver_text(name).as_str());
    s
}

/// What a driver states of itself once its rate is set.
pub struct DriverFacts {
    pub n_in: i32,
    pub n_out: i32,
    pub rate: u32,
    pub min_buffer: i32,
    pub max_buffer: i32,
    pub preferred_buffer: i32,
    pub sample_type: i32,
}

pub open spec fn lesser(a: int, b: int) -> int {
    if a < b {
        a
    } else {
        b
    }
}

pub open spec fn greater(a: int, b: int) -> int {
    if a > b {
        a
    } else {
        b
    }
}

/// The number of channels: as many as wanted, two by default, as far as the
/// driver has them on both sides, and at least one.
pub open spec fn channel_count(config: EngineConfig, facts: DriverFacts) -> int {
    let want = if config.channels != 0 {
        config.channels as int
    } else {
        2
    };
    greater(lesser(lesser(want, facts.n_in as int), facts.n_out as int), 1)
}

fn channels_of(config: &EngineConfig, facts: &DriverFacts) -> (r: i32)
    ensures
        r == channel_count(*config, *facts),
        1 <= r <= 65535,
{
    let mut n: i32 = if config.channels != 0 {
        config.channels as i32
    } else {
        2
    };
    if facts.n_in < n {
        n = facts.n_in;
    }
    if facts.n_out < n {
        n = facts.n_out;
    }
    if n > 1 {
        n
    } else {
        1
    }
}

/// The buffer size: the driver's preference, or the request within the driver's
/// limits. A request that does not fit 31 bits counts as less than any limit.
pub open spec fn buffer_frames(config: EngineConfig, facts: DriverFacts) -> int {
    let least = greater(facts.min_buffer as int, 1);
    let most = greater(facts.max_buffer as int, least);
    if config.buffer_frames == 0 {
        greater(facts.preferred_buffer as int, 1)
    } else if config.buffer_frames > i32::MAX {
        least
    } else {
        lesser(greater(config.buffer_frames as int, least), most)
    }
}

fn buffer_size_of(config: &EngineConfig, facts: &DriverFacts) -> (r: u32)
    ensures
        r == buffer_frames(*config, *facts),
        1 <= r <= i32::MAX,
{
    let least: i32 = if facts.min_buffer > 1 {
        facts.min_buffer
    } else {
        1
    };
    let most: i32 = if facts.max_buffer > least {
        facts.max_buffer
    } else {
        least
    };
    if config.buffer_frames == 0 {
        if facts.preferred_buffer > 1 {
            facts.preferred_buffer as u32
        } else {
            1
        }
    } else if config.buffer_frames > 0x7FFF_FFFF {
        least as u32
    } else if config.buffer_frames < least as u32 {
        least as u32
    } else if config.buffer_frames > most as u32 {
        most as u32
    } else {
        config.buffer_frames
    }
}

/// The first of `channels` channels: the wanted one, moved down so far that all
/// of them lie among the driver's `count`.
pub open spec fn base_channel(want: u16, count: i32, channels: int) -> int {
    lesser(want as int, greater(count - channels, 0))
}

fn base_of(want: u16, count: i32, channels: i32) -> (r: i32)
    requires
        i32::MIN <= count - channels <= i32::MAX,
    ensures
        r == base_channel(want, count, channels as int),
        0 <= r <= 65535,
{
    let room: i32 = if count - channels > 0 {
        count - channels
    } else {
        0
    };
    if (want as i32) < room {
        want as i32
    } else {
        room
    }
}

/// A buffer to ask the driver for.
#[derive(Clone, Copy, PartialEq, Eq, Debug, Structural)]
pub struct BufferRequest {
    pub is_input: bool,
    pub channel: i32,
}

/// What a stream asks of the driver, and what it will report.
pub struct Session {
    pub channels: usize,
    pub buffer_size: usize,
    pub sample_type: i32,
    /// All inputs, then all outputs.
    pub buffers: Vec<BufferRequest>,
    pub info: StreamInfo,
}

/// The buffers to ask for: the inputs from `in_base`, then the outputs from
/// `out_base`.
pub open spec fn buffer_requests(channels: int, in_base: int, out_base: int) -> Seq<BufferRequest> {
    Seq::new(
        (2 * channels) as nat,
        |i: int|
            if i < channels {
                BufferRequest { is_input: true, channel: (in_base + i) as i32 }
            } else {
                BufferRequest { is_input: false, channel: (out_base + i - channels) as i32 }
            },
    )
}

/// The format of the stream: the same on both sides.
pub open spec fn session_format(channels: int, facts: DriverFacts) -> StreamFormat {
    StreamFormat {
        sample_rate: facts.rate,
        channels: channels as u16,
        sample_format: format_of_type(facts.sample_type),
        valid_bits: bits_of_type(facts.sample_type),
    }
}

/// Puts a session together from the configuration and what the driver states.
pub fn plan_session(config: &EngineConfig, facts: &DriverFacts) -> (r: Session)
    requires
        facts.n_in - channel_count(*config, *facts) >= i32::MIN,
        facts.n_out - channel_count(*config, *facts) >= i32::MIN,
    ensures
        ({
            let channels = channel_count(*config, *facts);
            let format = session_format(channels, *facts);
            &&& r.channels == channels
            &&& r.buffer_size == buffer_frames(*config, *facts)
            &&& r.sample_type == facts.sample_type
            &&& r.buffers@ == buffer_requests(
                channels,
                base_channel(config.input_channel, facts.n_in, channels),
                base_channel(config.output_channel, facts.n_out, channels),
            )
            &&& r.info.backend == Backend::Asio
            &&& r.info.share_mode == ShareMode::Exclusive
            &&& r.info.render_format == format
            &&& r.info.channels == channels
            &&& r.info.period_frames == buffer_frames(*config, *facts)
            &&& r.info.capture_format == if config.output_only {
                None
            } else {
                Some(format)
            }
            &&& r.info.capture_period_frames == if config.output_only {
                0
            } else {
                buffer_frames(*config, *facts)
            }
            &&& r.info.wf()
        }),
        1 <= facts.min_buffer <= config.buffer_frames <= facts.max_buffer ==> r.buffer_size
            == config.buffer_frames,
        config.buffer_frames == 0 && facts.preferred_buffer >= 1 ==> r.buffer_size
            == facts.preferred_buffer,
        r.info.period_frames == r.buffer_size,
        r.info.channels == r.channels,
        r.buffers@.len() == 2 * r.channels,
        r.info.render_format.sample_rate == facts.rate,
        r.info.render_format.channels == r.channels,
{
    let channels: i32 = channels_of(config, facts);
    let buffer_size: u32 = buffer_size_of(config, facts);
    let in_base: i32 = base_of(config.input_channel, facts.n_in, channels);
    let out_base: i32 = base_of(config.output_channel, facts.n_out, channels);
    let ghost all = buffer_requests(channels as int, in_base as int, out_base as int);
    let mut buffers: Vec<BufferRequest> = Vec::new();
    let mut c: i32 = 0;
    while c < channels
        invariant
            0 <= c <= channels <= 65535,
            0 <= in_base <= 65535,
            all == buffer_requests(channels as int, in_base as int, out_base as int),
            buffers@ == all.take(c as int),
        decreases channels - c,
    {
        buffers.push(BufferRequest { is_input: true, channel: in_base + c });
        c = c + 1;
        assert(buffers@ =~= all.take(c as int));
    }
    let mut d: i32 = 0;
    while d < channels
        invariant
            0 <= d <= channels <= 65535,
            0 <= out_base <= 65535,
            all == buffer_requests(channels as int, in_base as int, out_base as int),
            buffers@ == all.take(channels + d),
        decreases channels - d,
    {
        buffers.push(BufferRequest { is_input: false, channel: out_base + d });
        d = d + 1;
        assert(buffers@ =~= all.take(channels + d));
    }
    assert(all.take(all.len() as int) =~= all);
    let format = StreamFormat {
        sample_rate: facts.rate,
        channels: channels as u16,
        sample_format: sample_format_of(facts.sample_type),
        valid_bits: valid_bits_of(facts.sample_type),
    };
    Session {
        channels: channels as usize,
        buffer_size: buffer_size as usize,
        sample_type: facts.sample_type,
        buffers,
        info: StreamInfo {
            backend: Backend::Asio,
            share_mode: ShareMode::Exclusive,
            capture_format: if config.output_only {
                None
            } else {
                Some(format)
            },
            render_format: format,
            channels: channels as u16,
            period_frames: buffer_size,
            capture_period_frames: if config.output_only {
                0
            } else {
                buffer_size
            },
        },
    }
}

/// Every buffer asked for is one that the driver has, where it has at least one
/// channel on each side.
pub proof fn law_buffers_lie_within_driver(config: EngineConfig, facts: DriverFacts, i: int)
    requires
        facts.n_in >= 1,
        facts.n_out >= 1,
        0 <= i < 2 * channel_count(config, facts),
    ensures
        ({
            let channels = channel_count(config, facts);
            let b = buffer_requests(
                channels,
                base_channel(config.input_channel, facts.n_in, channels),
                base_channel(config.output_channel, facts.n_out, channels),
            )[i];
            0 <= b.channel < if b.is_input {
                facts.n_in
            } else {
                facts.n_out
            }
        }),
{
}

/// A buffer size lies within the driver's limits, where the limits make sense.
pub proof fn law_buffer_size_within_limits(config: EngineConfig, facts: DriverFacts)
    requires
        1 <= facts.min_buffer <= facts.preferred_buffer <= facts.max_buffer,
    ensures
        facts.min_buffer <= buffer_frames(config, facts) <= facts.max_buffer,
{
}

/// A requested buffer size that the driver allows is the one used. One that it does
/// not allow gives way to the nearest size that it does, and without a request the
/// driver's preference is used.
pub proof fn law_allowed_buffer_size_is_used(config: EngineConfig, facts: DriverFacts, size: int)
    requires
        1 <= facts.min_buffer <= facts.max_buffer,
        config.buffer_frames <= i32::MAX,
        facts.min_buffer <= size <= facts.max_buffer,
    ensures
        facts.min_buffer <= config.buffer_frames <= facts.max_buffer ==> buffer_frames(
            config,
            facts,
        ) == config.buffer_frames,
        config.buffer_frames != 0 ==> {
            let used = buffer_frames(config, facts);
            &&& facts.min_buffer <= used <= facts.max_buffer
            &&& used >= config.buffer_frames ==> used - config.buffer_frames <= if size
                > config.buffer_frames {
                size - config.buffer_frames
            } else {
                config.buffer_frames - size
            }
            &&& used <= config.buffer_frames ==> config.buffer_frames - used <= if size
                > config.buffer_frames {
                size - config.buffer_frames
            } else {
                config.buffer_frames - size
            }
        },
        config.buffer_frames == 0 && facts.preferred_buffer >= 1 ==> buffer_frames(config, facts)
            == facts.preferred_buffer,
{
}

/// A larger request never comes to a smaller buffer.
pub proof fn law_buffer_size_follows_the_request(
    a: EngineConfig,
    b: EngineConfig,
    facts: DriverFacts,
)
    requires
        0 < a.buffer_frames <= b.buffer_frames <= i32::MAX,
    ensures
        1 <= buffer_frames(a, facts) <= buffer_frames(b, facts),
{
}

/// A stream has as many channels as were asked for, two where nothing was asked
/// for, as far as the driver has them on both sides: no more than any of the three,
/// and no fewer than all three allow.
pub proof fn law_channel_count_is_the_most_there_is(
    config: EngineConfig,
    facts: DriverFacts,
    n: int,
)
    requires
        facts.n_in >= 1,
        facts.n_out >= 1,
    ensures
        1 <= channel_count(config, facts) <= facts.n_in,
        channel_count(config, facts) <= facts.n_out,
        config.channels != 0 ==> channel_count(config, facts) <= config.channels,
        config.channels == 0 ==> channel_count(config, facts) <= 2,
        n <= facts.n_in && n <= facts.n_out && (config.channels == 0 ==> n <= 2) && (
        config.channels != 0 ==> n <= config.channels) ==> n <= channel_count(config, facts),
{
}

/// The buffers of a session are as many inputs as outputs, one for each channel of
/// the stream, inputs first. Each side is a run of neighbouring channels of the
/// driver, and starts with the channel that was asked for where the run fits in
/// behind it, and otherwise with the last channel behind which it does.
pub proof fn law_buffers_start_with_the_wanted_channel(
    config: EngineConfig,
    facts: DriverFacts,
    i: int,
)
    requires
        facts.n_in >= 1,
        facts.n_out >= 1,
        0 <= i < channel_count(config, facts),
    ensures
        ({
            let n = channel_count(config, facts);
            let all = buffer_requests(
                n,
                base_channel(config.input_channel, facts.n_in, n),
                base_channel(config.output_channel, facts.n_out, n),
            );
            &&& all.len() == 2 * n
            &&& all[i].is_input && !all[n + i].is_input
            &&& all[i].channel == all[0].channel + i
            &&& all[n + i].channel == all[n].channel + i
            &&& config.input_channel + n <= facts.n_in ==> all[0].channel == config.input_channel
            &&& config.output_channel + n <= facts.n_out ==> all[n].channel
                == config.output_channel
            &&& config.input_channel + n > facts.n_in ==> all[n - 1].channel == facts.n_in - 1
            &&& config.output_channel + n > facts.n_out ==> all[2 * n - 1].channel == facts.n_out
                - 1
        }),
{
}

/// The format that a session reports is the driver's: its rate, the channels of the
/// session, samples as wide as those in the driver's buffers, and no more valid
/// bits than they have.
pub proof fn law_session_reports_the_driver_format(channels: int, facts: DriverFacts)
    requires
        0 <= channels <= u16::MAX,
    ensures
        session_format(channels, facts).sample_rate == facts.rate,
        session_format(channels, facts).channels == channels,
        type_bytes(facts.sample_type) > 0 ==> session_format(
            channels,
            facts,
        ).sample_format.spec_bytes() == type_bytes(facts.sample_type),
        session_format(channels, facts).valid_bits <= 8 * session_format(
            channels,
            facts,
        ).sample_format.spec_bytes(),
        is_right_justified(facts.sample_type) ==> session_format(channels, facts).valid_bits
            == fraction_bits(facts.sample_type) + 1,
        !is_right_justified(facts.sample_type) ==> session_format(channels, facts).valid_bits == 8
            * session_format(channels, facts).sample_format.spec_bytes(),
{
}

/// The text in a driver's buffer ends before its first NUL, and with the buffer
/// where there is none.
pub proof fn law_driver_text_ends_at_the_first_nul(b: Seq<u8>, n: int)
    requires
        0 <= n <= b.len(),
        forall|k: int| 0 <= k < n ==> #[trigger] b[k] != 0,
        n < b.len() ==> b[n] == 0,
    ensures
        until_nul(b) == b.take(n),
{
    if n < b.len() {
        let m = choose|m: int|
            0 <= m < b.len() && #[trigger] b[m] == 0 && forall|k: int|
                0 <= k < m ==> #[trigger] b[k] != 0;
        assert(b[n] == 0);
        assert(m == n);
    } else {
        assert(b.take(n) =~= b);
    }
}

/// A line of the channel map says which side the channel is on, its number and its
/// name.
pub proof fn law_channel_line_shows_the_channel(is_input: bool, channel: int, name: Seq<u8>)
    ensures
        ({
            let t = channel_line_text(is_input, channel, name);
            let rest = signed_decimal(channel) + (": "@ + utf8_text(until_nul(name)));
            &&& is_input ==> has_substring(t, "in "@ + (" ch "@ + rest))
            &&& !is_input ==> has_substring(t, "out"@ + (" ch "@ + rest))
        }),
{
    let side = if is_input {
        "in "@
    } else {
        "out"@
    };
    let number = signed_decimal(channel);
    let text = utf8_text(until_nul(name));
    let rest = number + (": "@ + text);
    let said = side + (" ch "@ + rest);
    lemma_part_at_end("[dbg] "@, said);
    lemma_regroup("[dbg] "@ + side + " ch "@ + number, ": "@, text);
    lemma_regroup("[dbg] "@ + side + " ch "@, number, ": "@ + text);
    lemma_regroup("[dbg] "@ + side, " ch "@, rest);
    lemma_regroup("[dbg] "@, side, " ch "@ + rest);
}

} // verus!
