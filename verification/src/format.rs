//! Native PCM sample formats and their conversion to and from interleaved
//! single-precision samples, held as bit patterns (see [`crate::float32`]).

use vstd::arithmetic::power2::{lemma2_to64, pow2};
use vstd::prelude::*;

use crate::float32::{
    clamped, from_ratio, is_nan, law_small_ratios_are_exact, lemma_ratio_within_unit,
    lemma_scaled_round_trip, magnitude, ratio_bits, scaled, to_scaled, units, ONE, ZERO,
};
use crate::text::{
    decimal, has_substring, lemma_part_at_end, lemma_part_stays, lemma_regroup, push_decimal,
};

verus! {

#[derive(Clone, Copy, PartialEq, Eq, Debug, Structural)]
pub enum SampleFormat {
    I16,
    /// Packed in three bytes, little-endian.
    I24,
    I32,
    F32,
}

impl SampleFormat {
    pub open spec fn spec_bytes(self) -> nat {
        match self {
            SampleFormat::I16 => 2,
            SampleFormat::I24 => 3,
            SampleFormat::I32 => 4,
            SampleFormat::F32 => 4,
        }
    }

    /// The size of one sample in bytes.
    pub fn bytes(self) -> (r: usize)
        ensures
            r == self.spec_bytes(),
    {
        match self {
            SampleFormat::I16 => 2,
            SampleFormat::I24 => 3,
            SampleFormat::I32 => 4,
            SampleFormat::F32 => 4,
        }
    }

    /// The size of one sample in bits.
    pub fn bits(self) -> (r: u16)
        ensures
            r == 8 * self.spec_bytes(),
    {
        match self {
            SampleFormat::I16 => 16,
            SampleFormat::I24 => 24,
            SampleFormat::I32 => 32,
            SampleFormat::F32 => 32,
        }
    }

    pub fn is_float(self) -> (r: bool)
        ensures
            r == (self is F32),
    {
        matches!(self, SampleFormat::F32)
    }

    /// The short name of the format.
    pub open spec fn spec_name(self) -> Seq<char> {
        match self {
            SampleFormat::F32 => "f32"@,
            SampleFormat::I16 => "i16"@,
            SampleFormat::I24 => "i24"@,
            SampleFormat::I32 => "i32"@,
        }
    }

    /// The short name of the format.
    pub fn name(self) -> (r: &'static str)
        ensures
            r@ == self.spec_name(),
    {
        match self {
            SampleFormat::F32 => "f32",
            SampleFormat::I16 => "i16",
            SampleFormat::I24 => "i24",
            SampleFormat::I32 => "i32",
        }
    }
}

#[derive(Clone, Copy, PartialEq, Eq, Debug, Structural)]
pub struct StreamFormat {
    pub sample_rate: u32,
    pub channels: u16,
    pub sample_format: SampleFormat,
    /// May be less than the container, as in 24-in-32.
    pub valid_bits: u16,
}

impl StreamFormat {
    pub open spec fn spec_new(sample_rate: u32, channels: u16, sample_format: SampleFormat) -> Self {
        StreamFormat {
            sample_rate,
            channels,
            sample_format,
            valid_bits: (8 * sample_format.spec_bytes()) as u16,
        }
    }

    /// A format whose samples fill their container.
    pub fn new(sample_rate: u32, channels: u16, sample_format: SampleFormat) -> (r: Self)
        ensures
            r == Self::spec_new(sample_rate, channels, sample_format),
    {
        StreamFormat { sample_rate, channels, sample_format, valid_bits: sample_format.bits() }
    }

    pub open spec fn spec_frame_bytes(self) -> nat {
        self.channels as nat * self.sample_format.spec_bytes()
    }

    /// The size of one frame, that is one sample of every channel, in bytes.
    pub fn frame_bytes(self) -> (r: usize)
        ensures
            r == self.spec_frame_bytes(),
            r <= 4 * 65535,
    {
        proof {
            let c = self.channels as int;
            let b = self.sample_format.spec_bytes() as int;
            assert(c * b <= 65535 * 4) by (nonlinear_arith)
                requires
                    0 <= c <= 65535,
                    0 <= b <= 4,
            ;
        }
        self.channels as usize * self.sample_format.bytes()
    }

    /// Rate, channel count and sample format, with the valid bits where they
    /// do not fill the container.
    pub open spec fn description(self) -> Seq<char> {
        let head = decimal(self.sample_rate as nat) + " Hz, "@ + decimal(self.channels as nat)
            + " ch, "@ + self.sample_format.spec_name();
        if self.valid_bits != 8 * self.sample_format.spec_bytes() {
            head + "/"@ + decimal(self.valid_bits as nat)
        } else {
            head
        }
    }

    pub fn describe(self) -> (r: String)
        ensures
            r@ == self.description(),
    {
        let mut s = String::new();
        push_decimal(&mut s, self.sample_rate as u64);
        s.append(" Hz, ");
        push_decimal(&mut s, self.channels as u64);
        s.append(" ch, ");
        s.append(self.sample_format.name());
        if self.valid_bits != self.sample_format.bits() {
            s.append("/");
            push_decimal(&mut s, self.valid_bits as u64);
        }
        assert(s@ =~= self.description());
        s
    }
}

/// The unsigned number in `n` bytes at `at`, little-endian.
pub open spec fn le_value(src: Seq<u8>, at: int, n: nat) -> nat
    decreases n,
{
    if n == 0 {
        0
    } else {
        src[at] as nat + 256 * le_value(src, at + 1, (n - 1) as nat)
    }
}

/// Reads `u` as a two's complement number of `bits` bits.
pub open spec fn signed(u: nat, bits: nat) -> int {
    if 2 * u >= pow2(bits) {
        u - pow2(bits)
    } else {
        u as int
    }
}

/// The sample that the bytes at `at` stand for: integers are scaled to
/// [-1, 1], floats are taken as they are.
pub open spec fn decoded(src: Seq<u8>, at: int, fmt: SampleFormat) -> int {
    let u = le_value(src, at, fmt.spec_bytes());
    match fmt {
        SampleFormat::F32 => u as int,
        SampleFormat::I16 => from_ratio(signed(u, 16), 15),
        SampleFormat::I24 => from_ratio(signed(u, 24), 23),
        SampleFormat::I32 => from_ratio(signed(u, 32), 31),
    }
}

/// The samples in `src`; a partial sample at the end is left out.
pub open spec fn decoded_all(src: Seq<u8>, fmt: SampleFormat) -> Seq<u32> {
    Seq::new(
        src.len() / fmt.spec_bytes(),
        |i: int| decoded(src, i * fmt.spec_bytes(), fmt) as u32,
    )
}

/// The integer that stands for a sample in the given format.
pub open spec fn encoded_value(sample: u32, fmt: SampleFormat) -> int {
    match fmt {
        SampleFormat::F32 => sample as int,
        SampleFormat::I16 => to_scaled(sample, 32_767, 24),
        SampleFormat::I24 => to_scaled(sample, 8_388_607, 24),
        SampleFormat::I32 => to_scaled(sample, 2_147_483_647, 53),
    }
}

/// Byte `k` of `v`, in two's complement, counted from the lowest.
pub open spec fn byte_of(v: int, k: int) -> u8 {
    let u = v % 0x1_0000_0000;
    (if k == 0 {
        u % 256
    } else if k == 1 {
        u / 0x100 % 256
    } else if k == 2 {
        u / 0x1_0000 % 256
    } else {
        u / 0x100_0000 % 256
    }) as u8
}

/// `dst` with the first samples of `src` written over it, as many as both hold.
pub open spec fn encoded_over(src: Seq<u32>, fmt: SampleFormat, dst: Seq<u8>) -> Seq<u8> {
    let b = fmt.spec_bytes() as int;
    Seq::new(
        dst.len(),
        |j: int|
            if j / b < src.len() && j / b < dst.len() as int / b {
                byte_of(encoded_value(src[j / b], fmt), j % b)
            } else {
                dst[j]
            },
    )
}

pub(crate) fn read_le(src: &[u8], at: usize, n: usize) -> (r: u32)
    requires
        at + n <= src@.len(),
        2 <= n <= 4,
    ensures
        r == le_value(src@, at as int, n as nat),
        n == 2 ==> r < 0x1_0000,
        n == 3 ==> r < 0x100_0000,
{
    proof {
        reveal_with_fuel(le_value, 5);
    }
    let low: u32 = src[at] as u32 + 256 * (src[at + 1] as u32);
    if n == 2 {
        low
    } else if n == 3 {
        low + 0x1_0000 * (src[at + 2] as u32)
    } else {
        low + 0x1_0000 * (src[at + 2] as u32) + 0x100_0000 * (src[at + 3] as u32)
    }
}

pub(crate) fn decode(src: &[u8], at: usize, fmt: SampleFormat) -> (r: u32)
    requires
        at + fmt.spec_bytes() <= src@.len(),
    ensures
        r == decoded(src@, at as int, fmt),
{
    let u: u32 = read_le(src, at, fmt.bytes());
    proof {
        lemma2_to64();
    }
    match fmt {
        SampleFormat::F32 => u,
        SampleFormat::I16 => {
            let v: i32 = if u >= 0x8000 {
                u as i32 - 0x1_0000
            } else {
                u as i32
            };
            ratio_bits(v, 15)
        },
        SampleFormat::I24 => {
            let v: i32 = if u >= 0x80_0000 {
                u as i32 - 0x100_0000
            } else {
                u as i32
            };
            ratio_bits(v, 23)
        },
        SampleFormat::I32 => {
            let v: i32 = if u >= 0x8000_0000 {
                (u as i64 - 0x1_0000_0000) as i32
            } else {
                u as i32
            };
            ratio_bits(v, 31)
        },
    }
}

/// Appends the samples in `src` to `out`.
pub fn native_to_f32(src: &[u8], fmt: SampleFormat, out: &mut Vec<u32>)
    ensures
        final(out)@ == old(out)@ + decoded_all(src@, fmt),
{
    let b: usize = fmt.bytes();
    let n: usize = src.len() / b;
    let ghost before = out@;
    let mut i: usize = 0;
    while i < n
        invariant
            i <= n,
            b == fmt.spec_bytes(),
            n == src@.len() / fmt.spec_bytes(),
            src@.len() <= usize::MAX,
            before == old(out)@,
            out@ == before + decoded_all(src@, fmt).take(i as int),
        decreases n - i,
    {
        assert(0 <= i * b && i * b + b <= src@.len()) by (nonlinear_arith)
            requires
                i < n,
                n == src@.len() / (b as nat),
                b > 0,
        ;
        let s: u32 = decode(src, i * b, fmt);
        out.push(s);
        i = i + 1;
        assert(out@ =~= before + decoded_all(src@, fmt).take(i as int));
    }
    assert(out@ =~= before + decoded_all(src@, fmt));
}

pub(crate) fn encode(sample: u32, fmt: SampleFormat) -> (r: u32)
    ensures
        forall|k: int|
            0 <= k < fmt.spec_bytes() ==> byte_of(r as int, k) == #[trigger] byte_of(
                encoded_value(sample, fmt),
                k,
            ),
{
    proof {
        lemma2_to64();
        vstd::arithmetic::power2::lemma2_to64_rest();
    }
    let v: i64 = match fmt {
        SampleFormat::F32 => sample as i64,
        SampleFormat::I16 => scaled(sample, 32_767, 24),
        SampleFormat::I24 => scaled(sample, 8_388_607, 24),
        SampleFormat::I32 => scaled(sample, 2_147_483_647, 53),
    };
    if v < 0 {
        (v + 0x1_0000_0000) as u32
    } else {
        v as u32
    }
}

fn nth_byte(v: u32, k: usize) -> (r: u8)
    requires
        k < 4,
    ensures
        r == byte_of(v as int, k as int),
{
    if k == 0 {
        (v % 256) as u8
    } else if k == 1 {
        (v / 0x100 % 256) as u8
    } else if k == 2 {
        (v / 0x1_0000 % 256) as u8
    } else {
        (v / 0x100_0000 % 256) as u8
    }
}

pub(crate) fn write_le(dst: &mut [u8], at: usize, v: u32, n: usize)
    requires
        n <= 4,
        at + n <= old(dst)@.len(),
    ensures
        final(dst)@.len() == old(dst)@.len(),
        forall|m: int|
            0 <= m < old(dst)@.len() ==> #[trigger] final(dst)@[m] == if at <= m < at + n {
                byte_of(v as int, m - at)
            } else {
                old(dst)@[m]
            },
{
    let ghost before = dst@;
    let len: usize = dst.len();
    let mut k: usize = 0;
    while k < n
        invariant
            k <= n <= 4,
            at + n <= before.len() == len,
            dst@.len() == before.len(),
            forall|m: int|
                0 <= m < before.len() ==> #[trigger] dst@[m] == if at <= m < at + k {
                    byte_of(v as int, m - at)
                } else {
                    before[m]
                },
        decreases n - k,
    {
        dst[at + k] = nth_byte(v, k);
        k = k + 1;
    }
}

/// Writes the samples in `src` over the start of `dst`, as many as both hold.
pub fn f32_to_native(src: &[u32], fmt: SampleFormat, dst: &mut [u8])
    ensures
        final(dst)@ == encoded_over(src@, fmt, old(dst)@),
{
    let b: usize = fmt.bytes();
    let room: usize = dst.len() / b;
    let n: usize = if src.len() < room {
        src.len()
    } else {
        room
    };
    let ghost before = dst@;
    let ghost after = encoded_over(src@, fmt, before);
    let mut i: usize = 0;
    while i < n
        invariant
            i <= n,
            n <= src@.len(),
            n <= before.len() / (b as nat),
            before.len() <= usize::MAX,
            b == fmt.spec_bytes(),
            after == encoded_over(src@, fmt, before),
            dst@.len() == before.len(),
            forall|m: int| 0 <= m < i * b ==> dst@[m] == after[m],
            forall|m: int| i * b <= m < before.len() ==> dst@[m] == before[m],
        decreases n - i,
    {
        assert(0 <= i * b && i * b + b <= before.len()) by (nonlinear_arith)
            requires
                i < n,
                n <= before.len() / (b as nat),
                b > 0,
        ;
        let v: u32 = encode(src[i], fmt);
        write_le(dst, i * b, v, b);
        assert forall|m: int| i * b <= m < i * b + b implies dst@[m] == after[m] by {
            let d = b as int;
            let k = m - i * d;
            assert(m / d == i && m % d == k) by {
                vstd::arithmetic::div_mod::lemma_fundamental_div_mod_converse(m, d, i as int, k);
            }
            assert(byte_of(v as int, k) == byte_of(encoded_value(src@[i as int], fmt), k));
        }
        assert((i + 1) * b == i * b + b) by (nonlinear_arith);
        i = i + 1;
    }
    assert forall|m: int| n * b <= m < before.len() implies before[m] == after[m] by {
        let d = b as int;
        assert(m / d >= n) by (nonlinear_arith)
            requires
                m >= n * d,
                d > 0,
        ;
    }
    assert(dst@ =~= after);
}

/// Silence is silence in every format: the sample 0.0 is stored as zero bytes,
/// and zero bytes are read as the sample 0.0.
pub proof fn law_silence_is_zero_bytes(src: Seq<u8>, at: int, fmt: SampleFormat, k: int)
    requires
        0 <= at,
        at + fmt.spec_bytes() <= src.len(),
        forall|i: int| at <= i < at + fmt.spec_bytes() ==> src[i] == 0,
    ensures
        byte_of(encoded_value(ZERO, fmt), k) == 0,
        decoded(src, at, fmt) == ZERO,
{
    reveal_with_fuel(le_value, 5);
    reveal_with_fuel(crate::float32::msb, 2);
    lemma2_to64();
    vstd::arithmetic::power2::lemma_pow2_pos(149);
    assert(0nat / pow2(149) == 0) by (nonlinear_arith)
        requires
            pow2(149) > 0,
    ;
    assert(0nat * 32_767 == 0 && 0nat * 8_388_607 == 0 && 0nat * 2_147_483_647 == 0);
}

/// Float samples pass through unchanged: the four bytes that a sample is stored
/// as are read as the same sample.
pub proof fn law_float_samples_pass_unchanged(sample: u32, src: Seq<u8>, at: int)
    requires
        0 <= at,
        at + 4 <= src.len(),
        forall|k: int|
            0 <= k < 4 ==> #[trigger] src[at + k] == byte_of(
                encoded_value(sample, SampleFormat::F32),
                k,
            ),
    ensures
        decoded(src, at, SampleFormat::F32) == sample,
{
    reveal_with_fuel(le_value, 5);
    assert(src[at + 0] == byte_of(sample as int, 0));
    assert(src[at + 1] == byte_of(sample as int, 1));
    assert(src[at + 2] == byte_of(sample as int, 2));
    assert(src[at + 3] == byte_of(sample as int, 3));
}

/// Integer samples are read as numbers within [-1, 1].
pub proof fn law_integer_samples_within_unit(src: Seq<u8>, at: int, fmt: SampleFormat)
    requires
        0 <= at,
        at + fmt.spec_bytes() <= src.len(),
        fmt !is F32,
    ensures
        0 <= decoded(src, at, fmt) <= u32::MAX,
        magnitude(decoded(src, at, fmt) as u32) <= ONE,
{
    reveal_with_fuel(le_value, 5);
    lemma2_to64();
    let u = le_value(src, at, fmt.spec_bytes());
    match fmt {
        SampleFormat::I16 => lemma_ratio_within_unit(signed(u, 16), 15),
        SampleFormat::I24 => lemma_ratio_within_unit(signed(u, 24), 23),
        SampleFormat::I32 => lemma_ratio_within_unit(signed(u, 32), 31),
        SampleFormat::F32 => {},
    }
}

/// How far storing a sample and reading it back may move it: by the first number,
/// over two to the power of the second.
pub open spec fn storing_error(fmt: SampleFormat) -> (nat, nat) {
    match fmt {
        SampleFormat::I16 => (3, 15),
        SampleFormat::I24 => (3, 23),
        SampleFormat::I32 => (1, 23),
        SampleFormat::F32 => (0, 0),
    }
}

/// Whether two samples differ by at most `n / 2^k`.
pub open spec fn is_near(a: u32, b: u32, n: nat, k: nat) -> bool {
    -n * pow2(149) <= (units(a) - units(b)) * pow2(k) <= n * pow2(149)
}

proof fn lemma_low_bytes(u: int)
    requires
        0 <= u < 0x1_0000_0000,
    ensures
        u % 256 + 256 * (u / 0x100 % 256) == u % 0x1_0000,
        u % 0x1_0000 + 0x1_0000 * (u / 0x1_0000 % 256) == u % 0x100_0000,
        u % 0x100_0000 + 0x100_0000 * (u / 0x100_0000 % 256) == u,
{
}

/// The bytes of a number read as what they hold of it.
proof fn lemma_bytes_hold(v: int, src: Seq<u8>, at: int, n: nat)
    requires
        0 <= at,
        at + n <= src.len(),
        2 <= n <= 4,
        forall|k: int| 0 <= k < n ==> #[trigger] src[at + k] == byte_of(v, k),
    ensures
        n == 2 ==> le_value(src, at, n) == v % 0x1_0000_0000 % 0x1_0000,
        n == 3 ==> le_value(src, at, n) == v % 0x1_0000_0000 % 0x100_0000,
        n == 4 ==> le_value(src, at, n) == v % 0x1_0000_0000,
{
    let u = v % 0x1_0000_0000;
    lemma_low_bytes(u);
    let (b0, b1, b2, b3) = (u % 256, u / 0x100 % 256, u / 0x1_0000 % 256, u / 0x100_0000 % 256);
    assert(src[at + 0] == b0);
    assert(src[at + 1] == b1);
    assert(n > 2 ==> src[at + 2] == b2);
    assert(n > 3 ==> src[at + 3] == b3);
    reveal_with_fuel(le_value, 5);
    if n == 2 {
        assert(le_value(src, at, n) == b0 + 256 * b1);
    } else if n == 3 {
        assert(le_value(src, at, n) == b0 + 256 * b1 + 0x1_0000 * b2);
    } else {
        assert(le_value(src, at, n) == b0 + 256 * b1 + 0x1_0000 * b2 + 0x100_0000 * b3);
    }
}

/// The bytes of a number that fits them read as the number.
pub proof fn lemma_bytes_read_back(v: int, src: Seq<u8>, at: int, n: nat)
    requires
        0 <= at,
        at + n <= src.len(),
        2 <= n <= 4,
        forall|k: int| 0 <= k < n ==> #[trigger] src[at + k] == byte_of(v, k),
        n == 2 ==> -0x8000 <= v < 0x8000,
        n == 3 ==> -0x80_0000 <= v < 0x80_0000,
        n == 4 ==> -0x8000_0000 <= v < 0x8000_0000,
    ensures
        signed(le_value(src, at, n), 8 * n) == v,
{
    lemma_bytes_hold(v, src, at, n);
    lemma2_to64();
}

proof fn lemma_stored_sample_is_near(sample: u32, src: Seq<u8>, at: int, fmt: SampleFormat)
    requires
        0 <= at,
        at + fmt.spec_bytes() <= src.len(),
        fmt !is F32,
        !is_nan(sample),
        forall|k: int|
            0 <= k < fmt.spec_bytes() ==> #[trigger] src[at + k] == byte_of(
                encoded_value(sample, fmt),
                k,
            ),
    ensures
        is_near(
            decoded(src, at, fmt) as u32,
            clamped(sample),
            storing_error(fmt).0,
            storing_error(fmt).1,
        ),
{
    lemma2_to64();
    vstd::arithmetic::power2::lemma2_to64_rest();
    let v = encoded_value(sample, fmt);
    match fmt {
        SampleFormat::I16 => {
            lemma_scaled_round_trip(sample, 32_767, 24, 15);
            lemma_bytes_read_back(v, src, at, 2);
        },
        SampleFormat::I24 => {
            lemma_scaled_round_trip(sample, 8_388_607, 24, 23);
            lemma_bytes_read_back(v, src, at, 3);
        },
        SampleFormat::I32 => {
            lemma_scaled_round_trip(sample, 2_147_483_647, 53, 31);
            lemma_bytes_read_back(v, src, at, 4);
        },
        SampleFormat::F32 => {},
    }
}

/// What is stored is read back: as many samples, floats unchanged, and the others
/// within [-1, 1] and close to the clamped sample, by at most 3/2^15 for 16 bits,
/// 3/2^23 for 24 bits and 1/2^23 for 32 bits.
pub proof fn law_stored_samples_are_read_back(
    src: Seq<u32>,
    fmt: SampleFormat,
    dst: Seq<u8>,
    i: int,
)
    requires
        dst.len() == src.len() * fmt.spec_bytes(),
        0 <= i < src.len(),
    ensures
        ({
            let out = decoded_all(encoded_over(src, fmt, dst), fmt);
            &&& out.len() == src.len()
            &&& fmt is F32 ==> out[i] == src[i]
            &&& fmt !is F32 ==> magnitude(out[i]) <= ONE
            &&& fmt !is F32 && !is_nan(src[i]) ==> is_near(
                out[i],
                clamped(src[i]),
                storing_error(fmt).0,
                storing_error(fmt).1,
            )
        }),
{
    let b = fmt.spec_bytes() as int;
    let n = src.len() as int;
    let stored = encoded_over(src, fmt, dst);
    let at = i * b;
    assert(0 <= at && at + b <= n * b) by (nonlinear_arith)
        requires
            0 <= i < n,
            b > 0,
            at == i * b,
    ;
    assert(dst.len() as int / b == n) by {
        vstd::arithmetic::div_mod::lemma_div_multiples_vanish(n, b);
    }
    assert forall|k: int| 0 <= k < b implies #[trigger] stored[at + k] == byte_of(
        encoded_value(src[i], fmt),
        k,
    ) by {
        vstd::arithmetic::div_mod::lemma_fundamental_div_mod_converse(at + k, b, i, k);
    }
    if fmt is F32 {
        law_float_samples_pass_unchanged(src[i], stored, at);
    } else {
        law_integer_samples_within_unit(stored, at, fmt);
        if !is_nan(src[i]) {
            lemma_stored_sample_is_near(src[i], stored, at, fmt);
        }
    }
}

/// The number of frames of `channels` channels that `len` samples fill.
pub open spec fn frames_in(len: nat, channels: nat) -> nat {
    if channels == 0 {
        len
    } else {
        len / channels
    }
}

/// Whether `v` may stand in channel `c` of frame `f` after `src` has been
/// spread from `src_ch` to another number of channels. One channel is repeated,
/// many are averaged into one, otherwise channels keep their places and new
/// ones are silent.
pub open spec fn is_remapped<F: Fn(&[u32]) -> u32>(
    src: Seq<u32>,
    src_ch: nat,
    dst_ch: nat,
    average: F,
    f: int,
    c: int,
    v: u32,
) -> bool {
    if src_ch == 1 {
        v == src[f]
    } else if dst_ch == 1 {
        exists|frame: &[u32]| #[trigger]
            frame@ == src.subrange(f * src_ch, f * src_ch + src_ch) && average.ensures((frame,), v)
    } else if c < src_ch {
        v == src[f * src_ch + c]
    } else {
        v == ZERO
    }
}

/// Whether `out` is `src` spread from `src_ch` to `dst_ch` channels.
pub open spec fn is_spread<F: Fn(&[u32]) -> u32>(
    src: Seq<u32>,
    src_ch: nat,
    dst_ch: nat,
    average: F,
    out: Seq<u32>,
) -> bool {
    if src_ch == dst_ch {
        out == src
    } else {
        &&& out.len() == frames_in(src.len(), src_ch) * dst_ch
        &&& forall|f: int, c: int|
            0 <= f < frames_in(src.len(), src_ch) && 0 <= c < dst_ch ==> is_remapped(
                src,
                src_ch,
                dst_ch,
                average,
                f,
                c,
                #[trigger] out[f * dst_ch + c],
            )
    }
}

/// Appends `src` to `dst`, its frames spread from `src_ch` to `dst_ch` channels.
pub fn remap_channels<F: Fn(&[u32]) -> u32>(
    src: &[u32],
    src_ch: usize,
    dst: &mut Vec<u32>,
    dst_ch: usize,
    average: &F,
)
    requires
        forall|frame: &[u32]| #[trigger] average.requires((frame,)),
    ensures
        final(dst)@.len() >= old(dst)@.len(),
        final(dst)@.take(old(dst)@.len() as int) == old(dst)@,
        is_spread(
            src@,
            src_ch as nat,
            dst_ch as nat,
            *average,
            final(dst)@.skip(old(dst)@.len() as int),
        ),
{
    let ghost before = dst@;
    if src_ch == dst_ch {
        let mut i: usize = 0;
        while i < src.len()
            invariant
                i <= src@.len(),
                dst@ == before + src@.take(i as int),
            decreases src@.len() - i,
        {
            dst.push(src[i]);
            i = i + 1;
            assert(dst@ =~= before + src@.take(i as int));
        }
        assert(src@.take(src@.len() as int) =~= src@);
        assert(dst@.take(before.len() as int) =~= before);
        assert(dst@.skip(before.len() as int) =~= src@);
        return;
    }
    let len: usize = src.len();
    let frames: usize = if src_ch == 0 {
        len
    } else {
        len / src_ch
    };
    let mut f: usize = 0;
    while f < frames
        invariant
            src_ch != dst_ch,
            f <= frames,
            len == src@.len(),
            frames == frames_in(src@.len(), src_ch as nat),
            forall|frame: &[u32]| #[trigger] average.requires((frame,)),
            dst@.len() == before.len() + f * dst_ch,
            dst@.take(before.len() as int) == before,
            forall|g: int, c: int|
                0 <= g < f && 0 <= c < dst_ch ==> is_remapped(
                    src@,
                    src_ch as nat,
                    dst_ch as nat,
                    *average,
                    g,
                    c,
                    #[trigger] dst@[before.len() + g * dst_ch + c],
                ),
        decreases frames - f,
    {
        assert(0 <= f * src_ch && f * src_ch + src_ch <= src@.len()) by (nonlinear_arith)
            requires
                f < frames,
                frames == (if src_ch == 0 {
                    len
                } else {
                    len / src_ch
                }),
                len == src@.len(),
        ;
        let base: usize = f * src_ch;
        assert(src_ch == 1 ==> base == f) by (nonlinear_arith)
            requires
                base == f * src_ch,
        ;
        let ghost start = dst@;
        let mut c: usize = 0;
        while c < dst_ch
            invariant
                src_ch != dst_ch,
                c <= dst_ch,
                f < frames,
                base == f * src_ch,
                base + src_ch <= src@.len() == len,
                src_ch == 0 ==> f < len,
                src_ch == 1 ==> base == f,
                forall|frame: &[u32]| #[trigger] average.requires((frame,)),
                start.len() == before.len() + f * dst_ch,
                dst@.len() == start.len() + c,
                dst@.take(start.len() as int) == start,
                forall|k: int|
                    0 <= k < c ==> is_remapped(
                        src@,
                        src_ch as nat,
                        dst_ch as nat,
                        *average,
                        f as int,
                        k,
                        #[trigger] dst@[start.len() + k],
                    ),
            decreases dst_ch - c,
        {
            let v: u32 = if src_ch == 1 {
                src[base]
            } else if dst_ch == 1 {
                let frame: &[u32] = vstd::slice::slice_subrange(src, base, base + src_ch);
                average(frame)
            } else if c < src_ch {
                src[base + c]
            } else {
                ZERO
            };
            assert(is_remapped(
                src@,
                src_ch as nat,
                dst_ch as nat,
                *average,
                f as int,
                c as int,
                v,
            ));
            let ghost prev = dst@;
            dst.push(v);
            c = c + 1;
            assert(dst@.take(start.len() as int) =~= prev.take(start.len() as int));
            assert forall|k: int| 0 <= k < c implies is_remapped(
                src@,
                src_ch as nat,
                dst_ch as nat,
                *average,
                f as int,
                k,
                #[trigger] dst@[start.len() + k],
            ) by {
                if k < c - 1 {
                    assert(dst@[start.len() + k] == prev[start.len() + k]);
                }
            }
        }
        assert forall|g: int, k: int| 0 <= g < f + 1 && 0 <= k < dst_ch implies is_remapped(
            src@,
            src_ch as nat,
            dst_ch as nat,
            *average,
            g,
            k,
            #[trigger] dst@[before.len() + g * dst_ch + k],
        ) by {
            if g < f {
                assert(0 <= g * dst_ch && g * dst_ch + k < f * dst_ch) by (nonlinear_arith)
                    requires
                        0 <= g < f,
                        0 <= k < dst_ch,
                ;
                let at = before.len() + g * dst_ch + k;
                assert(dst@[at] == dst@.take(start.len() as int)[at]);
                assert(dst@[at] == start[at]);
            } else {
                assert(dst@[start.len() + k] == dst@[before.len() + g * dst_ch + k]);
            }
        }
        assert(dst@.take(before.len() as int) =~= start.take(before.len() as int)) by {
            assert(0 <= f * dst_ch) by (nonlinear_arith);
            assert forall|m: int| 0 <= m < before.len() implies dst@[m] == start[m] by {
                assert(dst@[m] == dst@.take(start.len() as int)[m]);
            }
        }
        assert((f + 1) * dst_ch == f * dst_ch + dst_ch) by (nonlinear_arith);
        f = f + 1;
    }
    assert(0 <= frames * dst_ch) by (nonlinear_arith);
    let ghost out = dst@.skip(before.len() as int);
    assert forall|g: int, k: int| 0 <= g < frames && 0 <= k < dst_ch implies is_remapped(
        src@,
        src_ch as nat,
        dst_ch as nat,
        *average,
        g,
        k,
        #[trigger] out[g * dst_ch + k],
    ) by {
        assert(0 <= g * dst_ch && g * dst_ch + k < frames * dst_ch) by (nonlinear_arith)
            requires
                0 <= g < frames,
                0 <= k < dst_ch,
        ;
        assert(out[g * dst_ch + k] == dst@[before.len() + g * dst_ch + k]);
    }
}

/// Integers are read as the fractions that they stand for: the number in the bytes,
/// in two's complement, over half the range of its format. Up to 24 bits nothing is
/// lost.
pub proof fn law_integers_are_read_as_fractions(src: Seq<u8>, at: int, fmt: SampleFormat)
    requires
        0 <= at,
        at + fmt.spec_bytes() <= src.len(),
        fmt is I16 || fmt is I24,
    ensures
        units(decoded(src, at, fmt) as u32) * pow2((8 * fmt.spec_bytes() - 1) as nat) == signed(
            le_value(src, at, fmt.spec_bytes()),
            8 * fmt.spec_bytes(),
        ) * pow2(149),
{
    reveal_with_fuel(le_value, 5);
    lemma2_to64();
    let u = le_value(src, at, fmt.spec_bytes());
    if fmt is I16 {
        law_small_ratios_are_exact(signed(u, 16), 15);
    } else {
        law_small_ratios_are_exact(signed(u, 24), 23);
    }
}

/// A frame that is spread over more channels keeps its samples in their places and
/// gains silence; one that is spread over fewer loses its last ones; a single channel
/// goes to all of them, and all of them are averaged into a single one.
pub proof fn law_channels_keep_their_places<F: Fn(&[u32]) -> u32>(
    src: Seq<u32>,
    src_ch: nat,
    dst_ch: nat,
    average: F,
    out: Seq<u32>,
    f: int,
    c: int,
)
    requires
        is_spread(src, src_ch, dst_ch, average, out),
        src_ch > 0,
        dst_ch > 0,
        src.len() % src_ch == 0,
        0 <= f < src.len() / src_ch,
        0 <= c < dst_ch,
    ensures
        out.len() * src_ch == src.len() * dst_ch,
        src_ch == 1 ==> out[f * dst_ch + c] == src[f],
        src_ch > 1 && dst_ch > 1 && c < src_ch ==> out[f * dst_ch + c] == src[f * src_ch + c],
        src_ch > 1 && dst_ch > 1 && c >= src_ch ==> out[f * dst_ch + c] == ZERO,
        src_ch > 1 && dst_ch == 1 ==> exists|frame: &[u32]| #[trigger]
            frame@ == src.subrange(f * src_ch, f * src_ch + src_ch) && average.ensures(
                (frame,),
                out[f],
            ),
        src_ch == dst_ch ==> out == src,
{
    let n = src.len() / src_ch;
    vstd::arithmetic::div_mod::lemma_fundamental_div_mod(src.len() as int, src_ch as int);
    assert(n * dst_ch * src_ch == src.len() * dst_ch) by (nonlinear_arith)
        requires
            src.len() == src_ch * n,
    ;
    assert(f * 1 == f) by (nonlinear_arith);
    if src_ch != dst_ch {
        assert(is_remapped(src, src_ch, dst_ch, average, f, c, out[f * dst_ch + c]));
        assert(dst_ch == 1 ==> f * dst_ch + c == f);
    } else if src_ch == 1 {
        assert(c == 0);
        assert(f * dst_ch == f) by (nonlinear_arith)
            requires
                dst_ch == 1,
        ;
    }
}

/// Sizes follow from each other: a sample has as many bits as its bytes, a frame as
/// many bytes as the samples of all its channels, and a new format fills its
/// container.
pub proof fn law_sizes_follow_from_each_other(rate: u32, channels: u16, fmt: SampleFormat)
    ensures
        ({
            let f = StreamFormat::spec_new(rate, channels, fmt);
            &&& f.sample_rate == rate && f.channels == channels && f.sample_format == fmt
            &&& f.valid_bits == 8 * fmt.spec_bytes()
            &&& f.spec_frame_bytes() == channels * fmt.spec_bytes()
            &&& 2 <= fmt.spec_bytes() <= 4
            &&& fmt is F32 ==> fmt.spec_bytes() == 4
        }),
{
}

/// The description of a format names its rate, its channels and its sample format, and
/// its valid bits exactly where they do not fill the container.
pub proof fn law_description_names_the_format(f: StreamFormat)
    ensures
        has_substring(f.description(), decimal(f.sample_rate as nat) + " Hz, "@),
        has_substring(f.description(), decimal(f.channels as nat) + " ch, "@),
        has_substring(f.description(), " ch, "@ + f.sample_format.spec_name()),
        f.valid_bits != 8 * f.sample_format.spec_bytes() ==> has_substring(
            f.description(),
            f.sample_format.spec_name() + ("/"@ + decimal(f.valid_bits as nat)),
        ),
        f.valid_bits == 8 * f.sample_format.spec_bytes() ==> f.description().skip(
            f.description().len() - f.sample_format.spec_name().len(),
        ) == f.sample_format.spec_name(),
{
    let rate = decimal(f.sample_rate as nat);
    let ch = decimal(f.channels as nat);
    let name = f.sample_format.spec_name();
    let tail = "/"@ + decimal(f.valid_bits as nat);
    let a = rate + " Hz, "@;
    let b = a + ch;
    let c = b + " ch, "@;
    let head = c + name;
    lemma_part_at_end(Seq::empty(), a);
    assert(Seq::<char>::empty() + a =~= a);
    lemma_regroup(a, ch, " ch, "@);
    lemma_part_stays(a, ch + " ch, "@, a);
    lemma_part_at_end(a, ch + " ch, "@);
    lemma_part_stays(c, name, a);
    lemma_part_stays(c, name, ch + " ch, "@);
    lemma_regroup(b, " ch, "@, name);
    lemma_part_at_end(b, " ch, "@ + name);
    if f.valid_bits != 8 * f.sample_format.spec_bytes() {
        lemma_regroup(head, "/"@, decimal(f.valid_bits as nat));
        lemma_part_stays(head, tail, a);
        lemma_part_stays(head, tail, ch + " ch, "@);
        lemma_part_stays(head, tail, " ch, "@ + name);
        lemma_regroup(c, name, tail);
        lemma_part_at_end(c, name + tail);
    } else {
        assert(f.description() == head);
        assert(head.skip(head.len() - name.len()) =~= name);
    }
}

/// Writing samples changes their own bytes alone: the buffer keeps its size, and what
/// lies behind the samples, or is too short for one, stays as it is. More samples never
/// change what fewer of them have written.
pub proof fn law_encoding_leaves_the_rest(
    src: Seq<u32>,
    more: u32,
    fmt: SampleFormat,
    dst: Seq<u8>,
    j: int,
)
    requires
        0 <= j < dst.len(),
    ensures
        encoded_over(src, fmt, dst).len() == dst.len(),
        j >= src.len() * fmt.spec_bytes() ==> encoded_over(src, fmt, dst)[j] == dst[j],
        j >= (dst.len() / fmt.spec_bytes()) * fmt.spec_bytes() ==> encoded_over(src, fmt, dst)[j]
            == dst[j],
        j < src.len() * fmt.spec_bytes() ==> encoded_over(src.push(more), fmt, dst)[j]
            == encoded_over(src, fmt, dst)[j],
{
    let b = fmt.spec_bytes() as int;
    let n = src.len() as int;
    let m = dst.len() as int / b;
    let q = j / b;
    vstd::arithmetic::div_mod::lemma_fundamental_div_mod(j, b);
    assert(j >= n * b ==> q >= n) by (nonlinear_arith)
        requires
            j == b * q + j % b,
            0 <= j % b < b,
    ;
    assert(j >= m * b ==> q >= m) by (nonlinear_arith)
        requires
            j == b * q + j % b,
            0 <= j % b < b,
    ;
    assert(j < n * b ==> q < n) by (nonlinear_arith)
        requires
            j == b * q + j % b,
            0 <= j % b,
            b > 0,
    ;
    assert(q >= 0) by (nonlinear_arith)
        requires
            j >= 0,
            b > 0,
            q == j / b,
    ;
}

} // verus!
