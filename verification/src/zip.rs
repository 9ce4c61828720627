//! A minimal ZIP archive: entries are stored, not compressed.

use vstd::arithmetic::div_mod::lemma_breakdown;
use vstd::arithmetic::power::{lemma_pow_positive, pow};
use vstd::prelude::*;

use crate::text::{bytes_of, utf8};

verus! {

/// The `k` low bytes of `n`, lowest first.
pub open spec fn le_bytes(n: nat, k: nat) -> Seq<u8>
    decreases k,
{
    if k == 0 {
        Seq::empty()
    } else {
        seq![(n % 256) as u8] + le_bytes(n / 256, (k - 1) as nat)
    }
}

fn push_u16(out: &mut Vec<u8>, v: u16)
    ensures
        final(out)@ == old(out)@ + le_bytes(v as nat, 2),
{
    proof {
        reveal_with_fuel(le_bytes, 3);
    }
    out.push((v % 256) as u8);
    out.push((v / 256) as u8);
    assert(out@ =~= old(out)@ + le_bytes(v as nat, 2));
}

fn push_u32(out: &mut Vec<u8>, v: u32)
    ensures
        final(out)@ == old(out)@ + le_bytes(v as nat, 4),
{
    proof {
        reveal_with_fuel(le_bytes, 5);
    }
    out.push((v % 256) as u8);
    out.push((v / 256 % 256) as u8);
    out.push((v / 256 / 256 % 256) as u8);
    out.push((v / 256 / 256 / 256) as u8);
    assert(out@ =~= old(out)@ + le_bytes(v as nat, 4));
}

fn push_bytes(out: &mut Vec<u8>, data: &[u8])
    ensures
        final(out)@ == old(out)@ + data@,
{
    let ghost before = out@;
    let mut i: usize = 0;
    while i < data.len()
        invariant
            i <= data@.len(),
            out@ == before + data@.take(i as int),
        decreases data@.len() - i,
    {
        out.push(data[i]);
        i = i + 1;
        assert(out@ =~= before + data@.take(i as int));
    }
    assert(data@.take(data@.len() as int) =~= data@);
}

/// One step of the reflected CRC-32 polynomial division.
pub open spec fn crc_shift(crc: u32) -> u32 {
    if crc & 1 == 1 {
        (crc >> 1) ^ 0xEDB8_8320
    } else {
        crc >> 1
    }
}

pub open spec fn crc_shifts(crc: u32, n: nat) -> u32
    decreases n,
{
    if n == 0 {
        crc
    } else {
        crc_shift(crc_shifts(crc, (n - 1) as nat))
    }
}

/// The remainder after the bytes of `data`, before the final inversion.
pub open spec fn crc_remainder(data: Seq<u8>) -> u32
    decreases data.len(),
{
    if data.len() == 0 {
        0xFFFF_FFFF
    } else {
        crc_shifts(crc_remainder(data.drop_last()) ^ data.last() as u32, 8)
    }
}

/// The CRC-32 of `data`.
pub open spec fn crc_of(data: Seq<u8>) -> u32 {
    !crc_remainder(data)
}

pub fn crc32(data: &[u8]) -> (r: u32)
    ensures
        r == crc_of(data@),
{
    let mut crc: u32 = 0xFFFF_FFFF;
    let mut i: usize = 0;
    assert(data@.take(0) =~= Seq::empty());
    while i < data.len()
        invariant
            i <= data@.len(),
            crc == crc_remainder(data@.take(i as int)),
        decreases data@.len() - i,
    {
        let start: u32 = crc ^ data[i] as u32;
        crc = start;
        let mut k: u32 = 0;
        while k < 8
            invariant
                k <= 8,
                crc == crc_shifts(start, k as nat),
            decreases 8 - k,
        {
            if crc & 1 == 1 {
                crc = (crc >> 1) ^ 0xEDB8_8320;
            } else {
                crc = crc >> 1;
            }
            k = k + 1;
        }
        i = i + 1;
        assert(data@.take(i as int).drop_last() =~= data@.take(i - 1));
    }
    assert(data@.take(data@.len() as int) =~= data@);
    !crc
}

/// A name and the bytes stored under it.
pub type Entry<'a> = (&'a str, Vec<u8>);

/// The name and the bytes of each entry.
pub open spec fn stored(entries: Seq<Entry>) -> Seq<(Seq<u8>, Seq<u8>)> {
    Seq::new(entries.len(), |i: int| (utf8(entries[i].0@), entries[i].1@))
}

/// What the two headers of an entry have in common: checksum, sizes, and the
/// length of the name, with no extra field.
pub open spec fn entry_facts(name: Seq<u8>, data: Seq<u8>) -> Seq<u8> {
    le_bytes(crc_of(data) as nat, 4) + le_bytes(data.len(), 4) + le_bytes(data.len(), 4) + le_bytes(
        name.len(),
        2,
    ) + le_bytes(0, 2)
}

/// An entry where its data is stored.
pub open spec fn local_part(name: Seq<u8>, data: Seq<u8>) -> Seq<u8> {
    le_bytes(0x0403_4b50, 4) + le_bytes(20, 2) + le_bytes(0, 2) + le_bytes(0, 2) + le_bytes(0, 2)
        + le_bytes(0, 2) + entry_facts(name, data) + name + data
}

/// An entry of the central directory, whose data is stored at `offset`.
pub open spec fn central_part(name: Seq<u8>, data: Seq<u8>, offset: nat) -> Seq<u8> {
    le_bytes(0x0201_4b50, 4) + le_bytes(20, 2) + le_bytes(20, 2) + le_bytes(0, 2) + le_bytes(0, 2)
        + le_bytes(0, 2) + le_bytes(0, 2) + entry_facts(name, data) + le_bytes(0, 2) + le_bytes(
        0,
        2,
    ) + le_bytes(0, 2) + le_bytes(0, 4) + le_bytes(offset, 4) + name
}

/// The first `n` entries where their data is stored.
pub open spec fn locals(entries: Seq<(Seq<u8>, Seq<u8>)>, n: nat) -> Seq<u8>
    decreases n,
{
    if n == 0 {
        Seq::empty()
    } else {
        locals(entries, (n - 1) as nat) + local_part(
            entries[n - 1].0,
            entries[n - 1].1,
        )
    }
}

/// The central directory of the first `n` entries.
pub open spec fn central(entries: Seq<(Seq<u8>, Seq<u8>)>, n: nat) -> Seq<u8>
    decreases n,
{
    if n == 0 {
        Seq::empty()
    } else {
        central(entries, (n - 1) as nat) + central_part(
            entries[n - 1].0,
            entries[n - 1].1,
            locals(entries, (n - 1) as nat).len(),
        )
    }
}

/// The record at the end of an archive of `n` entries.
pub open spec fn end_record(n: nat, size: nat, offset: nat) -> Seq<u8> {
    le_bytes(0x0605_4b50, 4) + le_bytes(0, 2) + le_bytes(0, 2) + le_bytes(n, 2) + le_bytes(n, 2)
        + le_bytes(size, 4) + le_bytes(offset, 4) + le_bytes(0, 2)
}

/// The whole archive.
pub open spec fn archive(entries: Seq<(Seq<u8>, Seq<u8>)>) -> Seq<u8> {
    let n = entries.len();
    locals(entries, n) + central(entries, n) + end_record(
        n,
        central(entries, n).len(),
        locals(entries, n).len(),
    )
}

proof fn lemma_le_bytes_cut(n: nat, k: nat)
    ensures
        le_bytes(n, k) == le_bytes(n % pow(256, k) as nat, k),
    decreases k,
{
    lemma_pow_positive(256, k);
    if k > 0 {
        let m = pow(256, (k - 1) as nat);
        lemma_pow_positive(256, (k - 1) as nat);
        assert(pow(256, k) == 256 * m) by {
            reveal(pow);
        }
        lemma_breakdown(n as int, 256, m);
        let cut = (n % pow(256, k) as nat) as nat;
        assert(cut == 256 * ((n / 256) as int % m) + n % 256);
        assert(cut % 256 == n % 256);
        assert(cut / 256 == (n / 256) as int % m);
        lemma_le_bytes_cut(n / 256, (k - 1) as nat);
        assert(cut / 256 == (n / 256) % (m as nat));
        assert(le_bytes(cut, k) == seq![(cut % 256) as u8] + le_bytes(cut / 256, (k - 1) as nat));
    }
}

proof fn lemma_byte_powers()
    ensures
        pow(256, 2) == 0x1_0000,
        pow(256, 4) == 0x1_0000_0000,
{
    reveal(pow);
    reveal_with_fuel(pow, 5);
}

/// Writes the low 32 bits of a length.
fn push_len(out: &mut Vec<u8>, len: usize)
    ensures
        final(out)@ == old(out)@ + le_bytes(len as nat, 4),
{
    proof {
        lemma_byte_powers();
        lemma_le_bytes_cut(len as nat, 4);
    }
    push_u32(out, (len as u64 % 0x1_0000_0000) as u32);
}

/// Writes the low 16 bits of a length.
fn push_short_len(out: &mut Vec<u8>, len: usize)
    ensures
        final(out)@ == old(out)@ + le_bytes(len as nat, 2),
{
    proof {
        lemma_byte_powers();
        lemma_le_bytes_cut(len as nat, 2);
    }
    push_u16(out, (len % 0x1_0000) as u16);
}

fn facts_of(name: &[u8], data: &[u8]) -> (r: Vec<u8>)
    ensures
        r@ == entry_facts(name@, data@),
{
    let mut out: Vec<u8> = Vec::new();
    push_u32(&mut out, crc32(data));
    push_len(&mut out, data.len());
    push_len(&mut out, data.len());
    push_short_len(&mut out, name.len());
    push_u16(&mut out, 0);
    assert(out@ =~= entry_facts(name@, data@));
    out
}

fn local_of(name: &[u8], data: &[u8]) -> (r: Vec<u8>)
    ensures
        r@ == local_part(name@, data@),
{
    let mut out: Vec<u8> = Vec::new();
    push_u32(&mut out, 0x0403_4b50);
    push_u16(&mut out, 20);
    push_u16(&mut out, 0);
    push_u16(&mut out, 0);
    push_u16(&mut out, 0);
    push_u16(&mut out, 0);
    let facts: Vec<u8> = facts_of(name, data);
    push_bytes(&mut out, facts.as_slice());
    push_bytes(&mut out, name);
    push_bytes(&mut out, data);
    assert(Seq::<u8>::empty() + le_bytes(0x0403_4b50, 4) =~= le_bytes(0x0403_4b50, 4));
    out
}

fn central_of(name: &[u8], data: &[u8], offset: usize) -> (r: Vec<u8>)
    ensures
        r@ == central_part(name@, data@, offset as nat),
{
    let mut out: Vec<u8> = Vec::new();
    push_u32(&mut out, 0x0201_4b50);
    push_u16(&mut out, 20);
    push_u16(&mut out, 20);
    push_u16(&mut out, 0);
    push_u16(&mut out, 0);
    push_u16(&mut out, 0);
    push_u16(&mut out, 0);
    let facts: Vec<u8> = facts_of(name, data);
    push_bytes(&mut out, facts.as_slice());
    push_u16(&mut out, 0);
    push_u16(&mut out, 0);
    push_u16(&mut out, 0);
    push_u32(&mut out, 0);
    push_len(&mut out, offset);
    push_bytes(&mut out, name);
    assert(Seq::<u8>::empty() + le_bytes(0x0201_4b50, 4) =~= le_bytes(0x0201_4b50, 4));
    out
}

/// Stores `entries` in an archive, in the order given.
pub fn zip_store(entries: &[Entry]) -> (r: Vec<u8>)
    ensures
        r@ == archive(stored(entries@)),
{
    let n: usize = entries.len();
    let mut out: Vec<u8> = Vec::new();
    let mut dir: Vec<u8> = Vec::new();
    let mut i: usize = 0;
    while i < n
        invariant
            i <= n == entries@.len(),
            out@ == locals(stored(entries@), i as nat),
            dir@ == central(stored(entries@), i as nat),
        decreases n - i,
    {
        let name: &[u8] = bytes_of(entries[i].0);
        let data: &[u8] = entries[i].1.as_slice();
        let header: Vec<u8> = central_of(name, data, out.len());
        push_bytes(&mut dir, header.as_slice());
        let local: Vec<u8> = local_of(name, data);
        push_bytes(&mut out, local.as_slice());
        i = i + 1;
    }
    let offset: usize = out.len();
    push_bytes(&mut out, dir.as_slice());
    let mut end: Vec<u8> = Vec::new();
    push_u32(&mut end, 0x0605_4b50);
    push_u16(&mut end, 0);
    push_u16(&mut end, 0);
    push_short_len(&mut end, n);
    push_short_len(&mut end, n);
    push_len(&mut end, dir.len());
    push_len(&mut end, offset);
    push_u16(&mut end, 0);
    assert(Seq::<u8>::empty() + le_bytes(0x0605_4b50, 4) =~= le_bytes(0x0605_4b50, 4));
    push_bytes(&mut out, end.as_slice());
    out
}

proof fn lemma_le_bytes_len(n: nat, k: nat)
    ensures
        le_bytes(n, k).len() == k,
    decreases k,
{
    if k > 0 {
        lemma_le_bytes_len(n / 256, (k - 1) as nat);
    }
}

proof fn lemma_locals_prefix(entries: Seq<(Seq<u8>, Seq<u8>)>, m: nat, n: nat)
    requires
        m <= n <= entries.len(),
    ensures
        locals(entries, m).len() <= locals(entries, n).len(),
        locals(entries, n).take(locals(entries, m).len() as int) == locals(entries, m),
    decreases n,
{
    if m == n {
        assert(locals(entries, n).take(locals(entries, m).len() as int) =~= locals(entries, m));
    } else {
        lemma_locals_prefix(entries, m, (n - 1) as nat);
        let inner = locals(entries, (n - 1) as nat);
        assert(locals(entries, n).take(locals(entries, m).len() as int) =~= inner.take(
            locals(entries, m).len() as int,
        ));
    }
}

/// Where the directory says that entry `i` lies, the archive holds its header,
/// its name and its data.
pub proof fn law_directory_offset_finds_entry(entries: Seq<(Seq<u8>, Seq<u8>)>, i: int)
    requires
        0 <= i < entries.len(),
    ensures
        ({
            let offset = locals(entries, i as nat).len() as int;
            let part = local_part(entries[i].0, entries[i].1);
            offset + part.len() <= archive(entries).len() && archive(entries).subrange(
                offset,
                offset + part.len(),
            ) == part
        }),
        central(entries, (i + 1) as nat) == central(entries, i as nat) + central_part(
            entries[i].0,
            entries[i].1,
            locals(entries, i as nat).len(),
        ),
{
    let n = entries.len();
    let offset = locals(entries, i as nat).len() as int;
    let part = local_part(entries[i].0, entries[i].1);
    lemma_locals_prefix(entries, (i + 1) as nat, n);
    let upto = locals(entries, (i + 1) as nat);
    assert(upto =~= locals(entries, i as nat) + part);
    let a = archive(entries);
    assert(upto.len() <= a.len());
    assert forall|k: int| offset <= k < offset + part.len() implies a[k] == part[k - offset] by {
        assert(locals(entries, n).take(upto.len() as int)[k] == upto[k]);
    }
    assert(a.subrange(offset, offset + part.len()) =~= part);
}

/// The data of an entry lies 30 bytes and the name behind its header's start.
pub proof fn law_entry_data_position(name: Seq<u8>, data: Seq<u8>)
    ensures
        local_part(name, data).len() == 30 + name.len() + data.len(),
        local_part(name, data).subrange(30, 30 + name.len() as int) == name,
        local_part(name, data).skip(30 + name.len() as int) == data,
{
    lemma_le_bytes_len(0x0403_4b50, 4);
    lemma_le_bytes_len(20, 2);
    lemma_le_bytes_len(0, 2);
    lemma_le_bytes_len(crc_of(data) as nat, 4);
    lemma_le_bytes_len(data.len(), 4);
    lemma_le_bytes_len(name.len(), 2);
    assert(local_part(name, data).subrange(30, 30 + name.len() as int) =~= name);
    assert(local_part(name, data).skip(30 + name.len() as int) =~= data);
}

/// The record at the end says where the central directory lies.
pub proof fn law_end_record_finds_directory(entries: Seq<(Seq<u8>, Seq<u8>)>)
    ensures
        ({
            let n = entries.len();
            let offset = locals(entries, n).len() as int;
            let size = central(entries, n).len() as int;
            &&& archive(entries).len() == offset + size + 22
            &&& archive(entries).subrange(offset, offset + size) == central(entries, n)
            &&& archive(entries).skip(offset + size) == end_record(n, size as nat, offset as nat)
        }),
{
    let n = entries.len();
    let offset = locals(entries, n).len() as int;
    let size = central(entries, n).len() as int;
    lemma_le_bytes_len(0x0605_4b50, 4);
    lemma_le_bytes_len(0, 2);
    lemma_le_bytes_len(n, 2);
    lemma_le_bytes_len(size as nat, 4);
    lemma_le_bytes_len(offset as nat, 4);
    let a = archive(entries);
    assert(a.subrange(offset, offset + size) =~= central(entries, n));
    assert(a.skip(offset + size) =~= end_record(n, size as nat, offset as nat));
}

/// The checksum goes on byte by byte: that of a longer file follows from that of the
/// shorter one and the bytes behind it.
pub proof fn law_checksum_goes_on_byte_by_byte(data: Seq<u8>, byte: u8)
    ensures
        crc_of(Seq::empty()) == 0,
        crc_of(data.push(byte)) == !crc_shifts(!crc_of(data) ^ byte as u32, 8),
{
    let more = data.push(byte);
    assert(more.drop_last() =~= data);
    let r = crc_remainder(data);
    assert(!!r == r) by (bit_vector);
    assert(!0xFFFF_FFFFu32 == 0) by (bit_vector);
}

/// The number that is stored in `k` bytes at `at`.
pub open spec fn number_at(b: Seq<u8>, at: int, k: nat) -> nat
    decreases k,
{
    if k == 0 {
        0
    } else {
        b[at] as nat + 256 * number_at(b, at + 1, (k - 1) as nat)
    }
}

proof fn lemma_number_at(b: Seq<u8>, at: int, n: nat, k: nat)
    requires
        0 <= at,
        at + k <= b.len(),
        n < pow(256, k),
        forall|i: int| 0 <= i < k ==> #[trigger] b[at + i] == le_bytes(n, k)[i],
    ensures
        number_at(b, at, k) == n,
    decreases k,
{
    reveal(pow);
    if k > 0 {
        let rest = le_bytes(n / 256, (k - 1) as nat);
        lemma_le_bytes_len(n / 256, (k - 1) as nat);
        assert(pow(256, k) == 256 * pow(256, (k - 1) as nat));
        assert(b[at + 0] == le_bytes(n, k)[0]);
        assert forall|i: int| 0 <= i < k - 1 implies #[trigger] b[at + 1 + i] == rest[i] by {
            assert(b[at + (1 + i)] == le_bytes(n, k)[1 + i]);
        }
        lemma_number_at(b, at + 1, n / 256, (k - 1) as nat);
    }
}

/// The headers of an entry state what it holds: the beginning of the entry names its
/// checksum, the sizes of its data, stored as they are, and the length of its name; and
/// its place in the directory states where it lies.
pub proof fn law_headers_state_the_entry(name: Seq<u8>, data: Seq<u8>, offset: nat)
    requires
        data.len() < 0x1_0000_0000,
        name.len() < 0x1_0000,
        offset < 0x1_0000_0000,
    ensures
        ({
            let l = local_part(name, data);
            let c = central_part(name, data, offset);
            &&& number_at(l, 0, 4) == 0x0403_4b50
            &&& number_at(l, 8, 2) == 0
            &&& number_at(l, 14, 4) == crc_of(data)
            &&& number_at(l, 18, 4) == data.len()
            &&& number_at(l, 22, 4) == data.len()
            &&& number_at(l, 26, 2) == name.len()
            &&& number_at(l, 28, 2) == 0
            &&& number_at(c, 0, 4) == 0x0201_4b50
            &&& number_at(c, 10, 2) == 0
            &&& number_at(c, 16, 4) == crc_of(data)
            &&& number_at(c, 20, 4) == data.len()
            &&& number_at(c, 24, 4) == data.len()
            &&& number_at(c, 28, 2) == name.len()
            &&& number_at(c, 42, 4) == offset
            &&& c.len() == 46 + name.len()
            &&& c.skip(46) == name
        }),
{
    lemma_byte_powers();
    lemma_le_bytes_len(0x0403_4b50, 4);
    lemma_le_bytes_len(0x0201_4b50, 4);
    lemma_le_bytes_len(20, 2);
    lemma_le_bytes_len(0, 2);
    lemma_le_bytes_len(0, 4);
    lemma_le_bytes_len(crc_of(data) as nat, 4);
    lemma_le_bytes_len(data.len(), 4);
    lemma_le_bytes_len(name.len(), 2);
    lemma_le_bytes_len(offset, 4);
    let l = local_part(name, data);
    let c = central_part(name, data, offset);
    lemma_number_at(l, 0, 0x0403_4b50, 4);
    lemma_number_at(l, 8, 0, 2);
    lemma_number_at(l, 14, crc_of(data) as nat, 4);
    lemma_number_at(l, 18, data.len(), 4);
    lemma_number_at(l, 22, data.len(), 4);
    lemma_number_at(l, 26, name.len(), 2);
    lemma_number_at(l, 28, 0, 2);
    lemma_number_at(c, 0, 0x0201_4b50, 4);
    lemma_number_at(c, 10, 0, 2);
    lemma_number_at(c, 16, crc_of(data) as nat, 4);
    lemma_number_at(c, 20, data.len(), 4);
    lemma_number_at(c, 24, data.len(), 4);
    lemma_number_at(c, 28, name.len(), 2);
    lemma_number_at(c, 42, offset, 4);
    assert(c.skip(46) =~= name);
}

/// The record at the end states how many entries there are, how large the directory is
/// and where it starts.
pub proof fn law_end_record_states_the_directory(n: nat, size: nat, offset: nat)
    requires
        n < 0x1_0000,
        size < 0x1_0000_0000,
        offset < 0x1_0000_0000,
    ensures
        ({
            let e = end_record(n, size, offset);
            &&& e.len() == 22
            &&& number_at(e, 0, 4) == 0x0605_4b50
            &&& number_at(e, 8, 2) == n
            &&& number_at(e, 10, 2) == n
            &&& number_at(e, 12, 4) == size
            &&& number_at(e, 16, 4) == offset
            &&& number_at(e, 20, 2) == 0
        }),
{
    lemma_byte_powers();
    lemma_le_bytes_len(0x0605_4b50, 4);
    lemma_le_bytes_len(0, 2);
    lemma_le_bytes_len(n, 2);
    lemma_le_bytes_len(size, 4);
    lemma_le_bytes_len(offset, 4);
    let e = end_record(n, size, offset);
    lemma_number_at(e, 0, 0x0605_4b50, 4);
    lemma_number_at(e, 8, n, 2);
    lemma_number_at(e, 10, n, 2);
    lemma_number_at(e, 12, size, 4);
    lemma_number_at(e, 16, offset, 4);
    lemma_number_at(e, 20, 0, 2);
}

} // verus!
