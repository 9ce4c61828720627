//! ASIO backend. It is full-duplex by nature: the processor runs in the driver's
//! buffer switch, without a ring. One driver is active at a time.

use vstd::prelude::*;
use windows_core::GUID;

use crate::duplex::silence;
use crate::engine::{
    device_views, DeviceInfo, DeviceView, EngineConfig, Processor, StreamStats,
};
use crate::float32::{
    clamp_unit, clamped, from_ratio, is_nan, lemma_scaled_round_trip, ratio_bits, scaled,
    to_scaled, ZERO,
};
use crate::format::{
    byte_of, decode, decoded, encode, encoded_value, is_near, law_float_samples_pass_unchanged,
    le_value, lemma_bytes_read_back, read_le, signed, write_le, SampleFormat,
};
use crate::text::{
    contains, has_substring, law_substrings_nest, lower_text, to_lowercase, upper_hex,
};

verus! {

pub const ASE_OK: i32 = 0;

pub const ASIO_TRUE: i32 = 1;

pub const ASIOST_INT16_LSB: i32 = 16;

pub const ASIOST_INT24_LSB: i32 = 17;

pub const ASIOST_INT32_LSB: i32 = 18;

pub const ASIOST_FLOAT32_LSB: i32 = 19;

pub const ASIOST_INT32_LSB16: i32 = 24;

pub const ASIOST_INT32_LSB18: i32 = 25;

pub const ASIOST_INT32_LSB20: i32 = 26;

pub const ASIOST_INT32_LSB24: i32 = 27;

pub const K_ASIO_SELECTOR_SUPPORTED: i32 = 1;

pub const K_ASIO_ENGINE_VERSION: i32 = 2;

pub const K_ASIO_RESET_REQUEST: i32 = 3;

pub const K_ASIO_BUFFER_SIZE_CHANGE: i32 = 4;

pub const K_ASIO_RESYNC_REQUEST: i32 = 5;

pub const K_ASIO_LATENCIES_CHANGED: i32 = 6;

pub const K_ASIO_SUPPORTS_TIME_INFO: i32 = 7;

/// The text of an identifier: its fields in upper-case hexadecimal, in groups of
/// 8, 4, 4, 4 and 12 digits.
pub open spec fn guid_string(id: nat) -> Seq<char> {
    upper_hex(id / 0x1_0000_0000_0000_0000_0000_0000, 8) + "-"@ + upper_hex(
        id / 0x1_0000_0000_0000_0000_0000,
        4,
    ) + "-"@ + upper_hex(id / 0x1_0000_0000_0000_0000, 4) + "-"@ + upper_hex(
        id / 0x1_0000_0000_0000,
        4,
    ) + "-"@ + upper_hex(id, 12)
}

/// The `Debug` form of `windows_core::GUID`, made by `GUID::from_u128`: the
/// fields in upper-case hexadecimal, padded with zeros, with dashes between.
#[verifier::external_body]
fn guid_text(id: u128) -> (r: String)
    ensures
        r@ == guid_string(id as nat),
{
    format!("{:?}", GUID::from_u128(id))
}

/// An installed driver: its name and its class identifier.
pub struct Driver {
    pub name: String,
    pub clsid: u128,
}

/// How a driver is listed. It is one full-duplex device, so it shows on both
/// sides.
pub open spec fn driver_entries(d: Driver) -> Seq<DeviceView> {
    seq![
        DeviceView {
            id: guid_string(d.clsid as nat),
            name: d.name@ + " (render)"@,
            is_capture: false,
        },
        DeviceView {
            id: guid_string(d.clsid as nat),
            name: d.name@ + " (capture)"@,
            is_capture: true,
        },
    ]
}

/// How the first `n` drivers are listed.
pub open spec fn drivers_listed(drivers: Seq<Driver>, n: nat) -> Seq<DeviceView>
    decreases n,
{
    if n == 0 {
        Seq::empty()
    } else {
        drivers_listed(drivers, (n - 1) as nat) + driver_entries(drivers[n - 1])
    }
}

/// Lists each driver as a render and as a capture device.
pub fn list_devices(drivers: &[Driver]) -> (r: Vec<DeviceInfo>)
    ensures
        device_views(r@) == drivers_listed(drivers@, drivers@.len()),
{
    let mut out: Vec<DeviceInfo> = Vec::new();
    assert(device_views(out@) =~= Seq::<DeviceView>::empty());
    let mut i: usize = 0;
    while i < drivers.len()
        invariant
            i <= drivers@.len(),
            device_views(out@) == drivers_listed(drivers@, i as nat),
        decreases drivers@.len() - i,
    {
        let d: &Driver = &drivers[i];
        let ghost before = device_views(out@);
        let id = guid_text(d.clsid);
        let mut render = d.name.clone();
        render.append(" (render)");
        let mut capture = d.name.clone();
        capture.append(" (capture)");
        out.push(DeviceInfo { id: id.clone(), name: render, is_capture: false });
        out.push(DeviceInfo { id, name: capture, is_capture: true });
        assert(device_views(out@) =~= before + driver_entries(*d));
        i = i + 1;
    }
    out
}

/// Whether a driver answers to `want`: by a part of its name in any case, or by
/// a part of its identifier.
pub open spec fn answers_to(d: Driver, want: Seq<char>) -> bool {
    has_substring(lower_text(d.name@), lower_text(want)) || has_substring(
        guid_string(d.clsid as nat),
        want,
    )
}

/// The device name that selects a driver: that of the render device, else that
/// of the capture device.
pub open spec fn driver_selection(config: EngineConfig) -> Option<Seq<char>> {
    match config.render_device {
        Some(name) => Some(name@),
        None => match config.capture_device {
            Some(name) => Some(name@),
            None => None,
        },
    }
}

/// Whether driver `d` is one that the selection allows.
pub open spec fn is_allowed(d: Driver, select: Option<Seq<char>>) -> bool {
    select matches Some(want) ==> answers_to(d, want)
}

fn find_driver(drivers: &[Driver], want: &str) -> (r: Option<usize>)
    ensures
        match r {
            Some(i) => i < drivers@.len() && answers_to(drivers@[i as int], want@) && forall|k: int|
                0 <= k < i ==> !answers_to(#[trigger] drivers@[k], want@),
            None => forall|k: int|
                0 <= k < drivers@.len() ==> !answers_to(#[trigger] drivers@[k], want@),
        },
{
    let lower = to_lowercase(want);
    let mut i: usize = 0;
    while i < drivers.len()
        invariant
            i <= drivers@.len(),
            lower@ == lower_text(want@),
            forall|k: int| 0 <= k < i ==> !answers_to(#[trigger] drivers@[k], want@),
        decreases drivers@.len() - i,
    {
        let name = to_lowercase(drivers[i].name.as_str());
        let id = guid_text(drivers[i].clsid);
        if contains(name.as_str(), lower.as_str()) || contains(id.as_str(), want) {
            return Some(i);
        }
        i = i + 1;
    }
    None
}

/// Picks the first driver that the configuration's device name allows; without
/// a name, the first driver.
pub fn pick_driver(drivers: &[Driver], config: &EngineConfig) -> (r: Option<usize>)
    ensures
        match r {
            Some(i) => i < drivers@.len() && is_allowed(
                drivers@[i as int],
                driver_selection(*config),
            ) && forall|k: int|
                0 <= k < i ==> !is_allowed(#[trigger] drivers@[k], driver_selection(*config)),
            None => forall|k: int|
                0 <= k < drivers@.len() ==> !is_allowed(
                    #[trigger] drivers@[k],
                    driver_selection(*config),
                ),
        },
{
    match &config.render_device {
        Some(name) => find_driver(drivers, name.as_str()),
        None => match &config.capture_device {
            Some(name) => find_driver(drivers, name.as_str()),
            None => {
                if drivers.len() > 0 {
                    Some(0)
                } else {
                    None
                }
            },
        },
    }
}

/// The size of a sample of the given type in a driver's buffer; 0 for a type
/// that the engine does not know.
pub open spec fn type_bytes(st: i32) -> nat {
    if st == ASIOST_INT16_LSB {
        2
    } else if st == ASIOST_INT24_LSB {
        3
    } else if st == ASIOST_INT32_LSB || st == ASIOST_FLOAT32_LSB || is_right_justified(st) {
        4
    } else {
        0
    }
}

/// Whether the type is an integer right-justified in 32 bits.
pub open spec fn is_right_justified(st: i32) -> bool {
    ASIOST_INT32_LSB16 <= st <= ASIOST_INT32_LSB24
}

/// The bits behind the sign of a right-justified integer.
pub open spec fn fraction_bits(st: i32) -> nat {
    if st == ASIOST_INT32_LSB16 {
        15
    } else if st == ASIOST_INT32_LSB18 {
        17
    } else if st == ASIOST_INT32_LSB20 {
        19
    } else {
        23
    }
}

pub fn bytes_of_type(st: i32) -> (r: usize)
    ensures
        r == type_bytes(st),
{
    match st {
        ASIOST_INT16_LSB => 2,
        ASIOST_INT24_LSB => 3,
        ASIOST_INT32_LSB | ASIOST_FLOAT32_LSB => 4,
        ASIOST_INT32_LSB16 | ASIOST_INT32_LSB18 | ASIOST_INT32_LSB20 | ASIOST_INT32_LSB24 => 4,
        _ => 0,
    }
}

fn shift_of_type(st: i32) -> (r: u32)
    ensures
        r == fraction_bits(st),
        15 <= r <= 23,
{
    match st {
        ASIOST_INT32_LSB16 => 15,
        ASIOST_INT32_LSB18 => 17,
        ASIOST_INT32_LSB20 => 19,
        _ => 23,
    }
}

pub open spec fn format_of_type(st: i32) -> SampleFormat {
    if st == ASIOST_INT16_LSB {
        SampleFormat::I16
    } else if st == ASIOST_INT24_LSB {
        SampleFormat::I24
    } else if st == ASIOST_FLOAT32_LSB {
        SampleFormat::F32
    } else {
        SampleFormat::I32
    }
}

/// The sample format of a driver's sample type; integers in 32 bits are one.
pub fn sample_format_of(st: i32) -> (r: SampleFormat)
    ensures
        r == format_of_type(st),
{
    match st {
        ASIOST_INT16_LSB => SampleFormat::I16,
        ASIOST_INT24_LSB => SampleFormat::I24,
        ASIOST_FLOAT32_LSB => SampleFormat::F32,
        _ => SampleFormat::I32,
    }
}

pub open spec fn bits_of_type(st: i32) -> u16 {
    if st == ASIOST_INT16_LSB || st == ASIOST_INT32_LSB16 {
        16
    } else if st == ASIOST_INT24_LSB || st == ASIOST_INT32_LSB24 {
        24
    } else if st == ASIOST_INT32_LSB18 {
        18
    } else if st == ASIOST_INT32_LSB20 {
        20
    } else {
        32
    }
}

/// The valid bits of a driver's sample type.
pub fn valid_bits_of(st: i32) -> (r: u16)
    ensures
        r == bits_of_type(st),
{
    match st {
        ASIOST_INT16_LSB => 16,
        ASIOST_INT24_LSB => 24,
        ASIOST_INT32_LSB16 => 16,
        ASIOST_INT32_LSB18 => 18,
        ASIOST_INT32_LSB20 => 20,
        ASIOST_INT32_LSB24 => 24,
        ASIOST_FLOAT32_LSB => 32,
        _ => 32,
    }
}

/// The sample of frame `frame` in one channel's buffer. Types that the engine
/// does not know read as silence.
pub open spec fn sample_read(base: Seq<u8>, st: i32, frame: int) -> int {
    let at = frame * type_bytes(st);
    if is_right_justified(st) {
        from_ratio(signed(le_value(base, at, 4), 32), fraction_bits(st))
    } else if type_bytes(st) > 0 {
        decoded(base, at, format_of_type(st))
    } else {
        ZERO as int
    }
}

/// Reads the sample of frame `frame` from one channel's buffer.
pub fn read_sample(base: &[u8], st: i32, frame: usize) -> (r: u32)
    requires
        (frame + 1) * type_bytes(st) <= base@.len(),
    ensures
        r == sample_read(base@, st, frame as int),
{
    let size: usize = bytes_of_type(st);
    if size == 0 {
        return ZERO;
    }
    let len: usize = base.len();
    assert(0 <= frame * size && frame * size + size <= len) by (nonlinear_arith)
        requires
            (frame + 1) * size <= len,
            size >= 0,
            frame >= 0,
    ;
    let at: usize = frame * size;
    match st {
        ASIOST_INT32_LSB16 | ASIOST_INT32_LSB18 | ASIOST_INT32_LSB20 | ASIOST_INT32_LSB24 => {
            let u: u32 = read_le(base, at, 4);
            proof {
                vstd::arithmetic::power2::lemma2_to64();
            }
            let v: i32 = if u >= 0x8000_0000 {
                (u as i64 - 0x1_0000_0000) as i32
            } else {
                u as i32
            };
            ratio_bits(v, shift_of_type(st))
        },
        _ => decode(base, at, sample_format_of(st)),
    }
}

/// The integer that stands for a sample of the given type.
pub open spec fn stored_value(v: u32, st: i32) -> int {
    if is_right_justified(st) {
        to_scaled(v, (vstd::arithmetic::power2::pow2(fraction_bits(st)) - 1) as nat, 24)
    } else if st == ASIOST_FLOAT32_LSB {
        clamped(v) as int
    } else {
        encoded_value(v, format_of_type(st))
    }
}

/// One channel's buffer after the sample of frame `frame` has been written.
pub open spec fn sample_written(base: Seq<u8>, st: i32, frame: int, v: u32) -> Seq<u8> {
    let size = type_bytes(st) as int;
    let at = frame * size;
    Seq::new(
        base.len(),
        |m: int|
            if at <= m < at + size {
                byte_of(stored_value(v, st), m - at)
            } else {
                base[m]
            },
    )
}

/// Writes the sample of frame `frame` into one channel's buffer, kept within
/// [-1, 1]. Nothing is written for types that the engine does not know.
pub fn write_sample(base: &mut [u8], st: i32, frame: usize, v: u32)
    requires
        (frame + 1) * type_bytes(st) <= old(base)@.len(),
    ensures
        final(base)@ == sample_written(old(base)@, st, frame as int, v),
{
    let size: usize = bytes_of_type(st);
    let ghost before = base@;
    if size == 0 {
        assert(base@ =~= sample_written(before, st, frame as int, v));
        return;
    }
    let len: usize = base.len();
    assert(0 <= frame * size && frame * size + size <= len) by (nonlinear_arith)
        requires
            (frame + 1) * size <= len,
            size >= 0,
            frame >= 0,
    ;
    let at: usize = frame * size;
    proof {
        vstd::arithmetic::power2::lemma2_to64();
    }
    let stored: u32 = match st {
        ASIOST_INT32_LSB16 | ASIOST_INT32_LSB18 | ASIOST_INT32_LSB20 | ASIOST_INT32_LSB24 => {
            let scale: u32 = match st {
                ASIOST_INT32_LSB16 => 0x7FFF,
                ASIOST_INT32_LSB18 => 0x1_FFFF,
                ASIOST_INT32_LSB20 => 0x7_FFFF,
                _ => 0x7F_FFFF,
            };
            let s: i64 = scaled(v, scale, 24);
            if s < 0 {
                (s + 0x1_0000_0000) as u32
            } else {
                s as u32
            }
        },
        ASIOST_FLOAT32_LSB => clamp_unit(v),
        _ => encode(v, sample_format_of(st)),
    };
    write_le(base, at, stored, size);
    assert forall|m: int| 0 <= m < before.len() implies base@[m] == sample_written(
        before,
        st,
        frame as int,
        v,
    )[m] by {
        if at <= m < at + size {
            assert(byte_of(stored as int, m - at) == byte_of(stored_value(v, st), m - at));
        }
    }
    assert(base@ =~= sample_written(before, st, frame as int, v));
}

/// A processor that leaves its output as it is.
pub struct NullProc;

impl Processor for NullProc {
    open spec fn answers(
        &self,
        input: Seq<u32>,
        output: Seq<u32>,
        channels: usize,
        after: Seq<u32>,
    ) -> bool {
        after == output
    }

    fn process(&mut self, _input: &[u32], _output: &mut [u32], _channels: usize) {
    }
}

/// The place of channel `c` of frame `f` among interleaved samples.
pub open spec fn place(f: int, c: int, channels: nat) -> int {
    f * channels + c
}

proof fn lemma_place_range(f: int, c: int, channels: nat, frames: nat)
    requires
        0 <= f < frames,
        0 <= c < channels,
    ensures
        0 <= place(f, c, channels) < frames * channels,
{
    assert(0 <= f * channels && f * channels + c < frames * channels) by (nonlinear_arith)
        requires
            0 <= f < frames,
            0 <= c < channels,
    ;
}

proof fn lemma_place_unique(f: int, c: int, g: int, d: int, channels: nat)
    requires
        0 <= c < channels,
        0 <= d < channels,
        place(f, c, channels) == place(g, d, channels),
    ensures
        f == g,
        c == d,
{
    vstd::arithmetic::div_mod::lemma_fundamental_div_mod_converse(
        place(f, c, channels),
        channels as int,
        f,
        c,
    );
    vstd::arithmetic::div_mod::lemma_fundamental_div_mod_converse(
        place(g, d, channels),
        channels as int,
        g,
        d,
    );
}

/// What the driver's buffer switch works with.
pub struct AsioRuntime<P: Processor> {
    pub channels: usize,
    pub sample_type: i32,
    pub buffer_size: usize,
    pub in_f32: Vec<u32>,
    pub out_f32: Vec<u32>,
    pub proc: P,
    pub output_only: bool,
}

impl<P: Processor> AsioRuntime<P> {
    /// The two buffers hold one sample for each channel of each frame.
    pub open spec fn wf(self) -> bool {
        &&& self.in_f32@.len() == self.buffer_size * self.channels
        &&& self.out_f32@.len() == self.buffer_size * self.channels
    }

    /// The size of one channel's buffer in bytes.
    pub open spec fn channel_bytes(self) -> int {
        self.buffer_size * type_bytes(self.sample_type)
    }

    /// The input of channel `c` in frame `f`.
    pub open spec fn input(self, f: int, c: int) -> u32 {
        self.in_f32@[place(f, c, self.channels as nat)]
    }

    /// The output of channel `c` in frame `f`.
    pub open spec fn output(self, f: int, c: int) -> u32 {
        self.out_f32@[place(f, c, self.channels as nat)]
    }

    /// All but the buffers.
    pub open spec fn same_shape(self, other: Self) -> bool {
        &&& self.channels == other.channels
        &&& self.sample_type == other.sample_type
        &&& self.buffer_size == other.buffer_size
        &&& self.output_only == other.output_only
    }

    /// A runtime whose buffers hold silence.
    pub fn new(
        channels: usize,
        sample_type: i32,
        buffer_size: usize,
        proc: P,
        output_only: bool,
    ) -> (r: Self)
        requires
            buffer_size * channels <= usize::MAX,
        ensures
            r.wf(),
            r.channels == channels,
            r.sample_type == sample_type,
            r.buffer_size == buffer_size,
            r.proc == proc,
            r.output_only == output_only,
            forall|i: int| 0 <= i < r.in_f32@.len() ==> r.in_f32@[i] == ZERO,
            forall|i: int| 0 <= i < r.out_f32@.len() ==> r.out_f32@[i] == ZERO,
    {
        let n: usize = buffer_size * channels;
        let mut in_f32: Vec<u32> = Vec::with_capacity(n);
        let mut out_f32: Vec<u32> = Vec::with_capacity(n);
        let mut i: usize = 0;
        while i < n
            invariant
                i <= n,
                in_f32@.len() == i,
                out_f32@.len() == i,
                forall|k: int| 0 <= k < i ==> in_f32@[k] == ZERO,
                forall|k: int| 0 <= k < i ==> out_f32@[k] == ZERO,
            decreases n - i,
        {
            in_f32.push(ZERO);
            out_f32.push(ZERO);
            i = i + 1;
        }
        AsioRuntime { channels, sample_type, buffer_size, in_f32, out_f32, proc, output_only }
    }

    /// Takes in one channel's buffer.
    fn gather_channel(&mut self, c: usize, base: &[u8])
        requires
            old(self).wf(),
            c < old(self).channels,
            base@.len() == old(self).channel_bytes(),
        ensures
            final(self).wf(),
            final(self).same_shape(*old(self)),
            final(self).proc == old(self).proc,
            final(self).out_f32 == old(self).out_f32,
            forall|f: int, d: int|
                0 <= f < old(self).buffer_size && 0 <= d < old(self).channels ==> #[trigger] final(self).input(f, d) == if d == c {
                    sample_read(base@, old(self).sample_type, f)
                } else {
                    old(self).input(f, d) as int
                },
    {
        let n: usize = self.buffer_size;
        let ch: usize = self.channels;
        let st: i32 = self.sample_type;
        let size: usize = self.in_f32.len();
        let mut f: usize = 0;
        while f < n
            invariant
                f <= n,
                c < ch,
                self.wf(),
                size == self.in_f32@.len(),
                n == self.buffer_size,
                ch == self.channels,
                st == self.sample_type,
                base@.len() == n * type_bytes(st),
                self.same_shape(*old(self)),
                self.proc == old(self).proc,
                self.out_f32 == old(self).out_f32,
                forall|g: int, d: int|
                    0 <= g < n && 0 <= d < ch ==> #[trigger] self.input(g, d) == if d == c && g < f {
                        sample_read(base@, st, g)
                    } else {
                        old(self).input(g, d) as int
                    },
            decreases n - f,
        {
            proof {
                lemma_place_range(f as int, c as int, ch as nat, n as nat);
                let b = type_bytes(st) as int;
                assert((f + 1) * b <= n * b) by (nonlinear_arith)
                    requires
                        f < n,
                        b >= 0,
                ;
                assert(0 <= f * ch) by (nonlinear_arith);
            }
            let v: u32 = read_sample(base, st, f);
            let ghost prev = *self;
            self.in_f32[f * ch + c] = v;
            proof {
                assert forall|g: int, d: int| 0 <= g < n && 0 <= d < ch implies #[trigger] self.input(
                    g,
                    d,
                ) == if d == c && g < f + 1 {
                    sample_read(base@, st, g)
                } else {
                    old(self).input(g, d) as int
                } by {
                    lemma_place_range(g, d, ch as nat, n as nat);
                    if place(g, d, ch as nat) == place(f as int, c as int, ch as nat) {
                        lemma_place_unique(g, d, f as int, c as int, ch as nat);
                    }
                    assert(prev.input(g, d) == if d == c && g < f {
                        sample_read(base@, st, g)
                    } else {
                        old(self).input(g, d) as int
                    });
                }
            }
            f = f + 1;
        }
    }

    /// Takes in the buffers of all channels; a render-only stream hears silence
    /// instead.
    pub fn gather(&mut self, bases: &[&[u8]])
        requires
            old(self).wf(),
            !old(self).output_only ==> bases@.len() == old(self).channels,
            forall|c: int|
                0 <= c < bases@.len() ==> (#[trigger] bases@[c])@.len() == old(self).channel_bytes(),
        ensures
            final(self).wf(),
            final(self).same_shape(*old(self)),
            final(self).proc == old(self).proc,
            final(self).out_f32 == old(self).out_f32,
            forall|f: int, c: int|
                0 <= f < old(self).buffer_size && 0 <= c < old(self).channels ==> #[trigger] final(self).input(f, c) == if old(self).output_only {
                    ZERO as int
                } else {
                    sample_read(bases@[c]@, old(self).sample_type, f)
                },
    {
        if self.output_only {
            let size: usize = self.in_f32.len();
            let mut i: usize = 0;
            while i < size
                invariant
                    i <= size,
                    size == self.in_f32@.len(),
                    self.wf(),
                    self.same_shape(*old(self)),
                    self.proc == old(self).proc,
                    self.out_f32 == old(self).out_f32,
                    forall|k: int| 0 <= k < i ==> self.in_f32@[k] == ZERO,
                decreases size - i,
            {
                self.in_f32[i] = ZERO;
                i = i + 1;
            }
            proof {
                assert forall|f: int, c: int|
                    0 <= f < self.buffer_size && 0 <= c < self.channels implies #[trigger] self.input(
                    f,
                    c,
                ) == ZERO by {
                    lemma_place_range(f, c, self.channels as nat, self.buffer_size as nat);
                }
            }
            return;
        }
        let ch: usize = self.channels;
        let mut c: usize = 0;
        while c < ch
            invariant
                c <= ch,
                ch == self.channels,
                bases@.len() == ch,
                self.wf(),
                self.same_shape(*old(self)),
                self.proc == old(self).proc,
                self.out_f32 == old(self).out_f32,
                forall|d: int|
                    0 <= d < bases@.len() ==> (#[trigger] bases@[d])@.len() == self.channel_bytes(),
                forall|f: int, d: int|
                    0 <= f < self.buffer_size && 0 <= d < c ==> #[trigger] self.input(f, d)
                        == sample_read(bases@[d]@, self.sample_type, f),
            decreases ch - c,
        {
            let ghost prev = *self;
            self.gather_channel(c, bases[c]);
            assert forall|f: int, d: int| 0 <= f < self.buffer_size && 0 <= d < c + 1 implies
                #[trigger] self.input(f, d) == sample_read(bases@[d]@, self.sample_type, f) by {
                if d < c {
                    assert(prev.input(f, d) == sample_read(bases@[d]@, self.sample_type, f));
                }
            }
            c = c + 1;
        }
    }

    /// Runs the processor once on the input, with an output of silence to write on,
    /// and counts the period. The counters of the ring stay as they are: there is
    /// none.
    pub fn run(&mut self, stats: &mut StreamStats)
        requires
            old(self).wf(),
        ensures
            final(self).wf(),
            final(self).same_shape(*old(self)),
            final(self).in_f32 == old(self).in_f32,
            old(self).proc.answers(
                old(self).in_f32@,
                silence((old(self).buffer_size * old(self).channels) as nat),
                old(self).channels,
                final(self).out_f32@,
            ),
            exists|p: &mut P, i: &[u32], o: &mut [u32]|
                {
                    &&& *p == old(self).proc
                    &&& *final(p) == final(self).proc
                    &&& i@ == old(self).in_f32@
                    &&& o@ == silence((old(self).buffer_size * old(self).channels) as nat)
                    &&& final(o)@ == final(self).out_f32@
                    &&& #[trigger] call_ensures(P::process, (p, i, o, old(self).channels), ())
                },
            *final(stats) == switched(*old(stats), old(self).buffer_size as nat),
    {
        let size: usize = self.out_f32.len();
        let mut i: usize = 0;
        while i < size
            invariant
                i <= size,
                size == self.out_f32@.len(),
                self.wf(),
                self.same_shape(*old(self)),
                self.in_f32 == old(self).in_f32,
                self.proc == old(self).proc,
                forall|k: int| 0 <= k < i ==> self.out_f32@[k] == ZERO,
            decreases size - i,
        {
            self.out_f32[i] = ZERO;
            i = i + 1;
        }
        assert(self.out_f32@ =~= silence((self.buffer_size * self.channels) as nat));
        self.proc.process(self.in_f32.as_slice(), self.out_f32.as_mut_slice(), self.channels);
        stats.render_calls = stats.render_calls.wrapping_add(1);
        stats.capture_calls = stats.capture_calls.wrapping_add(1);
        stats.render_frames = stats.render_frames.wrapping_add(self.buffer_size as u64);
        stats.capture_frames = stats.capture_frames.wrapping_add(self.buffer_size as u64);
    }

    /// Hands one channel of the output to the driver's buffer.
    pub fn scatter(&self, c: usize, base: &mut [u8])
        requires
            self.wf(),
            c < self.channels,
            old(base)@.len() == self.channel_bytes(),
        ensures
            final(base)@ == channel_bytes_of(*self, c as int),
    {
        let n: usize = self.buffer_size;
        let ch: usize = self.channels;
        let st: i32 = self.sample_type;
        let size: usize = self.out_f32.len();
        let ghost b = type_bytes(st) as int;
        let ghost want = channel_bytes_of(*self, c as int);
        let mut f: usize = 0;
        while f < n
            invariant
                f <= n,
                c < ch,
                self.wf(),
                size == self.out_f32@.len(),
                n == self.buffer_size,
                ch == self.channels,
                st == self.sample_type,
                b == type_bytes(st),
                want == channel_bytes_of(*self, c as int),
                base@.len() == n * b,
                forall|m: int| 0 <= m < f * b ==> base@[m] == want[m],
            decreases n - f,
        {
            proof {
                lemma_place_range(f as int, c as int, ch as nat, n as nat);
                assert((f + 1) * b <= n * b) by (nonlinear_arith)
                    requires
                        f < n,
                        b >= 0,
                ;
                assert((f + 1) * b == f * b + b) by (nonlinear_arith);
                assert(0 <= f * ch) by (nonlinear_arith);
                assert(0 <= f * b) by (nonlinear_arith)
                    requires
                        b >= 0,
                        f >= 0,
                ;
            }
            write_sample(base, st, f, self.out_f32[f * ch + c]);
            assert forall|m: int| f * b <= m < f * b + b implies base@[m] == want[m] by {
                vstd::arithmetic::div_mod::lemma_fundamental_div_mod_converse(
                    m,
                    b,
                    f as int,
                    m - f * b,
                );
            }
            f = f + 1;
        }
        assert(base@ =~= want);
    }
}

/// The counters after a buffer switch.
pub open spec fn switched(stats: StreamStats, frames: nat) -> StreamStats {
    StreamStats {
        render_calls: stats.render_calls.wrapping_add(1),
        capture_calls: stats.capture_calls.wrapping_add(1),
        render_frames: stats.render_frames.wrapping_add(frames as u64),
        capture_frames: stats.capture_frames.wrapping_add(frames as u64),
        ..stats
    }
}

/// Without a ring there is nothing to run short or over: a buffer switch leaves
/// those counters alone.
pub proof fn law_buffer_switch_counts_no_ring_trouble(stats: StreamStats, frames: nat)
    ensures
        switched(stats, frames).underruns == stats.underruns,
        switched(stats, frames).overruns == stats.overruns,
        switched(stats, frames).glitches == stats.glitches,
{
}

/// A channel's buffer filled with its output, sample by sample.
pub open spec fn channel_bytes_of<P: Processor>(rt: AsioRuntime<P>, c: int) -> Seq<u8> {
    let size = type_bytes(rt.sample_type) as int;
    Seq::new(
        rt.channel_bytes() as nat,
        |m: int| byte_of(stored_value(rt.output(m / size, c), rt.sample_type), m % size),
    )
}

/// What the engine answers to a driver's message.
pub open spec fn message_answer(selector: i32, value: i32) -> i32 {
    if selector == K_ASIO_SELECTOR_SUPPORTED {
        if K_ASIO_ENGINE_VERSION <= value <= K_ASIO_SUPPORTS_TIME_INFO {
            1
        } else {
            0
        }
    } else if selector == K_ASIO_ENGINE_VERSION {
        2
    } else {
        0
    }
}

/// Answers a driver's message: the engine speaks version 2, knows the requests
/// of that version, and wants the plain buffer switch, without time info.
pub fn asio_message(selector: i32, value: i32) -> (r: i32)
    ensures
        r == message_answer(selector, value),
{
    match selector {
        K_ASIO_SELECTOR_SUPPORTED => match value {
            K_ASIO_ENGINE_VERSION | K_ASIO_RESET_REQUEST | K_ASIO_BUFFER_SIZE_CHANGE => 1,
            K_ASIO_RESYNC_REQUEST | K_ASIO_LATENCIES_CHANGED | K_ASIO_SUPPORTS_TIME_INFO => 1,
            _ => 0,
        },
        K_ASIO_ENGINE_VERSION => 2,
        K_ASIO_SUPPORTS_TIME_INFO => 0,
        _ => 0,
    }
}

/// The half of the double buffer that a buffer switch names.
pub fn buffer_half(index: i32) -> (r: usize)
    ensures
        r == if index < 0 {
            0
        } else {
            index as int
        },
{
    if index < 0 {
        0
    } else {
        index as usize
    }
}

/// A driver is listed on both sides, under its identifier and with its name on both.
pub proof fn law_drivers_are_listed_on_both_sides(d: Driver)
    ensures
        ({
            let e = driver_entries(d);
            &&& e.len() == 2
            &&& e[0].is_capture != e[1].is_capture
            &&& e[0].id == e[1].id
            &&& e[0].id == guid_string(d.clsid as nat)
            &&& forall|i: int|
                0 <= i < 2 ==> (#[trigger] e[i]).name == d.name@ + if e[i].is_capture {
                    " (capture)"@
                } else {
                    " (render)"@
                }
        }),
{
}

/// A driver answers to any part of its name, in any case, and to its identifier as it
/// is listed.
pub proof fn law_drivers_answer_to_their_names(d: Driver, want: Seq<char>)
    ensures
        answers_to(d, d.name@),
        answers_to(d, guid_string(d.clsid as nat)),
        has_substring(lower_text(d.name@), lower_text(want)) ==> answers_to(d, want),
        answers_to(d, want) ==> has_substring(lower_text(d.name@), lower_text(want))
            || has_substring(guid_string(d.clsid as nat), want),
{
    law_substrings_nest(lower_text(d.name@), Seq::empty(), Seq::empty());
    law_substrings_nest(guid_string(d.clsid as nat), Seq::empty(), Seq::empty());
}

/// The render device of the configuration selects the driver; the capture device does
/// only where no render device is named, and without either every driver will do.
pub proof fn law_render_device_selects_the_driver(config: EngineConfig, d: Driver)
    ensures
        config.render_device matches Some(name) ==> (is_allowed(d, driver_selection(config)) <==>
            answers_to(d, name@)),
        config.render_device is None ==> (config.capture_device matches Some(name) ==> (is_allowed(
            d,
            driver_selection(config),
        ) <==> answers_to(d, name@))),
        config.render_device is None && config.capture_device is None ==> is_allowed(
            d,
            driver_selection(config),
        ),
{
}

/// The sample types that the engine knows are read and written in the width that they
/// have in the driver's buffers, and hold as many bits as they state.
pub proof fn law_sample_types_fit_their_width(st: i32)
    ensures
        type_bytes(st) > 0 ==> bits_of_type(st) <= 8 * type_bytes(st),
        type_bytes(st) > 0 ==> format_of_type(st).spec_bytes() == type_bytes(st),
        is_right_justified(st) ==> type_bytes(st) == 4 && bits_of_type(st) == fraction_bits(st) + 1,
        type_bytes(st) > 0 && !is_right_justified(st) ==> bits_of_type(st) == 8 * type_bytes(st),
        format_of_type(st) is F32 <==> st == ASIOST_FLOAT32_LSB,
{
}

/// A written sample changes its own frame and no other.
pub proof fn law_written_sample_stays_in_its_frame(
    base: Seq<u8>,
    st: i32,
    frame: int,
    v: u32,
    m: int,
)
    requires
        0 <= m < base.len(),
        m < frame * type_bytes(st) || m >= (frame + 1) * type_bytes(st),
    ensures
        sample_written(base, st, frame, v).len() == base.len(),
        sample_written(base, st, frame, v)[m] == base[m],
{
    let b = type_bytes(st) as int;
    assert((frame + 1) * b == frame * b + b) by (nonlinear_arith);
}

/// A sample that was written is read back: floats unchanged but for the clamping, and
/// integers within three steps of their last bit, or within 131 of the last of 32.
/// Nothing is read back of a type that the engine does not know.
pub proof fn law_written_samples_are_read_back(base: Seq<u8>, st: i32, frame: int, v: u32)
    requires
        0 <= frame,
        (frame + 1) * type_bytes(st) <= base.len(),
        !is_nan(v),
    ensures
        ({
            let r = sample_read(sample_written(base, st, frame, v), st, frame) as u32;
            let bits = if is_right_justified(st) {
                fraction_bits(st)
            } else {
                (8 * type_bytes(st) - 1) as nat
            };
            let steps = if bits <= 24 {
                3nat
            } else {
                131
            };
            &&& st == ASIOST_FLOAT32_LSB ==> r == clamped(v)
            &&& type_bytes(st) > 0 && st != ASIOST_FLOAT32_LSB ==> is_near(
                r,
                clamped(v),
                steps,
                bits,
            )
            &&& type_bytes(st) == 0 ==> r == ZERO
        }),
{
    vstd::arithmetic::power2::lemma2_to64();
    vstd::arithmetic::power2::lemma2_to64_rest();
    let b = type_bytes(st) as int;
    let at = frame * b;
    let out = sample_written(base, st, frame, v);
    assert((frame + 1) * b == at + b) by (nonlinear_arith)
        requires
            at == frame * b,
    ;
    assert(0 <= at) by (nonlinear_arith)
        requires
            0 <= frame,
            0 <= b,
            at == frame * b,
    ;
    let value = stored_value(v, st);
    assert forall|k: int| 0 <= k < b implies #[trigger] out[at + k] == byte_of(value, k) by {}
    if is_right_justified(st) {
        let sh = fraction_bits(st);
        lemma_scaled_round_trip(v, (vstd::arithmetic::power2::pow2(sh) - 1) as nat, 24, sh);
        lemma_bytes_read_back(value, out, at, 4);
    } else if st == ASIOST_FLOAT32_LSB {
        law_float_samples_pass_unchanged(clamped(v), out, at);
    } else if st == ASIOST_INT16_LSB {
        lemma_scaled_round_trip(v, 32_767, 24, 15);
        lemma_bytes_read_back(value, out, at, 2);
    } else if st == ASIOST_INT24_LSB {
        lemma_scaled_round_trip(v, 8_388_607, 24, 23);
        lemma_bytes_read_back(value, out, at, 3);
    } else if st == ASIOST_INT32_LSB {
        lemma_scaled_round_trip(v, 2_147_483_647, 53, 31);
        lemma_bytes_read_back(value, out, at, 4);
    }
}

/// Every sample of every channel has a place of its own among the interleaved ones,
/// and the channels of a frame stand next to each other.
pub proof fn law_samples_have_their_own_places(f: int, c: int, g: int, d: int, channels: nat)
    requires
        0 <= c < channels,
        0 <= d < channels,
    ensures
        place(f, c, channels) == place(g, d, channels) <==> f == g && c == d,
        place(f, c, channels) - place(f, 0, channels) == c,
        place(f + 1, 0, channels) == place(f, 0, channels) + channels,
{
    if place(f, c, channels) == place(g, d, channels) {
        lemma_place_unique(f, c, g, d, channels);
    }
    assert((f + 1) * channels == f * channels + channels) by (nonlinear_arith);
}

/// A buffer switch counts one call and its frames on both sides.
pub proof fn law_buffer_switch_counts_both_sides(stats: StreamStats, frames: nat)
    requires
        stats.render_calls < u64::MAX,
        stats.capture_calls < u64::MAX,
        stats.render_frames + frames <= u64::MAX,
        stats.capture_frames + frames <= u64::MAX,
    ensures
        switched(stats, frames).render_calls == stats.render_calls + 1,
        switched(stats, frames).capture_calls == stats.capture_calls + 1,
        switched(stats, frames).render_frames == stats.render_frames + frames,
        switched(stats, frames).capture_frames == stats.capture_frames + frames,
{
}

/// Asked whether it knows a message, the engine says yes to the messages of version 2
/// of the interface and to no other; it never asks for time info, and names version 2
/// when it is asked for its version.
pub proof fn law_engine_speaks_version_two(selector: i32, value: i32)
    ensures
        message_answer(K_ASIO_SELECTOR_SUPPORTED, value) == 1 <==> value == K_ASIO_ENGINE_VERSION
            || value == K_ASIO_RESET_REQUEST || value == K_ASIO_BUFFER_SIZE_CHANGE || value
            == K_ASIO_RESYNC_REQUEST || value == K_ASIO_LATENCIES_CHANGED || value
            == K_ASIO_SUPPORTS_TIME_INFO,
        message_answer(K_ASIO_SELECTOR_SUPPORTED, value) == 0
            || message_answer(K_ASIO_SELECTOR_SUPPORTED, value) == 1,
        message_answer(K_ASIO_ENGINE_VERSION, value) == 2,
        selector != K_ASIO_SELECTOR_SUPPORTED && selector != K_ASIO_ENGINE_VERSION
            ==> message_answer(selector, value) == 0,
{
}

/// The text of an identifier has the groups of digits of its fields between dashes:
/// 8, 4, 4, 4 and 12 of them, from the highest to the lowest.
pub proof fn law_identifier_text_has_its_groups(id: nat)
    requires
        id < 0x1_0000_0000_0000_0000_0000_0000_0000_0000,
    ensures
        guid_string(id).len() == 36,
        guid_string(id)[8] == '-' && guid_string(id)[13] == '-' && guid_string(id)[18] == '-'
            && guid_string(id)[23] == '-',
        guid_string(id).take(8) == upper_hex(id / 0x1_0000_0000_0000_0000_0000_0000, 8),
        guid_string(id).subrange(9, 13) == upper_hex(id / 0x1_0000_0000_0000_0000_0000, 4),
        guid_string(id).subrange(14, 18) == upper_hex(id / 0x1_0000_0000_0000_0000, 4),
        guid_string(id).subrange(19, 23) == upper_hex(id / 0x1_0000_0000_0000, 4),
        guid_string(id).skip(24) == upper_hex(id, 12),
{
    reveal_strlit("-");
    lemma_upper_hex_len(id / 0x1_0000_0000_0000_0000_0000_0000, 8);
    lemma_upper_hex_len(id / 0x1_0000_0000_0000_0000_0000, 4);
    lemma_upper_hex_len(id / 0x1_0000_0000_0000_0000, 4);
    lemma_upper_hex_len(id / 0x1_0000_0000_0000, 4);
    lemma_upper_hex_len(id, 12);
    assert(guid_string(id).take(8) =~= upper_hex(
        id / 0x1_0000_0000_0000_0000_0000_0000,
        8,
    ));
    assert(guid_string(id).subrange(9, 13) =~= upper_hex(id / 0x1_0000_0000_0000_0000_0000, 4));
    assert(guid_string(id).subrange(14, 18) =~= upper_hex(id / 0x1_0000_0000_0000_0000, 4));
    assert(guid_string(id).subrange(19, 23) =~= upper_hex(id / 0x1_0000_0000_0000, 4));
    assert(guid_string(id).skip(24) =~= upper_hex(id, 12));
}

proof fn lemma_upper_hex_len(n: nat, width: nat)
    ensures
        upper_hex(n, width).len() == width,
    decreases width,
{
    if width > 0 {
        lemma_upper_hex_len(n / 16, (width - 1) as nat);
    }
}

/// Every driver is listed, in the order in which the drivers were found, and nothing
/// else is.
pub proof fn law_every_driver_is_listed(drivers: Seq<Driver>, n: nat, i: int)
    requires
        0 <= i < n <= drivers.len(),
    ensures
        drivers_listed(drivers, n).len() == 2 * n,
        drivers_listed(drivers, n)[2 * i] == driver_entries(drivers[i])[0],
        drivers_listed(drivers, n)[2 * i + 1] == driver_entries(drivers[i])[1],
    decreases n,
{
    if n > 1 {
        if i < n - 1 {
            law_every_driver_is_listed(drivers, (n - 1) as nat, i);
        } else {
            law_every_driver_is_listed(drivers, (n - 1) as nat, 0);
        }
    } else {
        assert(drivers_listed(drivers, 0).len() == 0);
    }
}

} // verus!
