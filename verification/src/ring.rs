//! Wait-free single-producer single-consumer ring that carries samples from the
//! capture thread to the render thread.
//!
//! Each side owns one cursor and reads a published copy of the other's. Cursors
//! run on through the whole range of `usize`; a slot is found by the low bits.

use vstd::arithmetic::div_mod::lemma_mod_multiples_vanish;
use vstd::arithmetic::power2::{
    lemma2_to64, lemma_pow2_adds, lemma_pow2_pos, lemma_pow2_strictly_increases,
    lemma_pow2_unfold, pow2,
};
use vstd::bits::{lemma_usize_low_bits_mask_is_mod, low_bits_mask};
use vstd::prelude::*;

verus! {

/// The least power of two that is at least `n`.
pub open spec fn next_pow2(n: nat) -> nat
    decreases n,
{
    if n <= 1 {
        1
    } else {
        2 * next_pow2((n - n / 2) as nat)
    }
}

pub open spec fn is_pow2(n: nat) -> bool {
    exists|k: nat| n == #[trigger] pow2(k)
}

/// `next_pow2` is a power of two, reaches `n`, and half of it does not.
pub proof fn lemma_next_pow2(n: nat)
    ensures
        is_pow2(next_pow2(n)),
        n <= next_pow2(n),
        n > 1 ==> next_pow2(n) < 2 * n,
    decreases n,
{
    lemma2_to64();
    if n <= 1 {
        assert(next_pow2(n) == pow2(0));
    } else {
        let half = (n - n / 2) as nat;
        lemma_next_pow2(half);
        let k = choose|k: nat| next_pow2(half) == #[trigger] pow2(k);
        lemma_pow2_unfold(k + 1);
        assert(next_pow2(n) == pow2(k + 1));
        lemma_next_pow2_tight(n);
    }
}

proof fn lemma_next_pow2_tight(n: nat)
    requires
        n > 1,
    ensures
        next_pow2(n) < 2 * n,
    decreases n,
{
    let k = lemma_next_pow2_exponent(n);
    if next_pow2(n) >= 2 * n {
        lemma_pow2_unfold(k);
        lemma_next_pow2_below(n, (k - 1) as nat);
    }
}

proof fn lemma_next_pow2_exponent(n: nat) -> (k: nat)
    ensures
        next_pow2(n) == pow2(k),
        n > 1 ==> k > 0,
    decreases n,
{
    lemma2_to64();
    if n <= 1 {
        0
    } else {
        let k = lemma_next_pow2_exponent((n - n / 2) as nat);
        lemma_pow2_unfold(k + 1);
        k + 1
    }
}

/// A power of two that reaches `n` reaches `next_pow2(n)`.
pub proof fn lemma_next_pow2_below(n: nat, k: nat)
    requires
        n <= pow2(k),
    ensures
        next_pow2(n) <= pow2(k),
    decreases n,
{
    lemma2_to64();
    lemma_pow2_pos(k);
    if n > 1 {
        if k == 0 {
            assert(false);
        }
        lemma_pow2_unfold(k);
        lemma_next_pow2_below((n - n / 2) as nat, (k - 1) as nat);
    }
}

proof fn lemma_word_size() -> (bits: nat)
    ensures
        usize::MAX + 1 == pow2(bits),
        bits == 32 || bits == 64,
        bits == usize::BITS,
{
    lemma2_to64();
    if usize::BITS == 32 {
        32
    } else {
        64
    }
}

/// Rounds up to a power of two.
pub fn next_power_of_two(n: usize) -> (r: usize)
    requires
        n <= usize::MAX / 2 + 1,
    ensures
        r == next_pow2(n as nat),
    decreases n,
{
    if n <= 1 {
        1
    } else {
        let r: usize = next_power_of_two(n - n / 2);
        proof {
            let bits = lemma_word_size();
            lemma_pow2_unfold(bits);
            lemma_pow2_unfold((bits - 1) as nat);
            lemma_next_pow2_below((n - n / 2) as nat, (bits - 2) as nat);
        }
        2 * r
    }
}

/// Storage for the slots of a ring.
pub trait Slots<T> {
    /// What the slots hold.
    open spec fn cells(&self) -> Seq<T> {
        arbitrary()
    }

    fn put(&mut self, i: usize, v: T)
        requires
            i < old(self).cells().len(),
        ensures
            final(self).cells() == old(self).cells().update(i as int, v),
    ;

    fn get(&self, i: usize) -> (v: T)
        requires
            i < self.cells().len(),
        ensures
            v == self.cells()[i as int],
    ;
}

impl<T: Copy> Slots<T> for Vec<T> {
    open spec fn cells(&self) -> Seq<T> {
        self@
    }

    fn put(&mut self, i: usize, v: T) {
        self[i] = v;
    }

    fn get(&self, i: usize) -> (v: T) {
        self[i]
    }
}

/// How far `head` has run ahead of `tail`.
pub open spec fn distance(head: usize, tail: usize) -> nat {
    head.wrapping_sub(tail) as nat
}

/// The unread samples between the cursors, oldest first.
pub open spec fn contents<T>(cells: Seq<T>, tail: usize, head: usize) -> Seq<T> {
    Seq::new(distance(head, tail), |i: int| cells[(tail + i) % (cells.len() as int)])
}

/// Whether the cursors are those of a ring of `capacity` slots: what lies
/// between them fits.
pub open spec fn cursors_ok(capacity: nat, tail: usize, head: usize) -> bool {
    distance(head, tail) <= capacity
}

/// The capacity of a ring: a power of two.
pub open spec fn ring_capacity(min_capacity: nat) -> nat {
    next_pow2(if min_capacity > 2 {
        min_capacity
    } else {
        2
    })
}

/// The writing end. It alone moves `head`.
pub struct Producer {
    head: usize,
    mask: usize,
}

/// The reading end. It alone moves `tail`.
pub struct Consumer {
    tail: usize,
    mask: usize,
}

impl Producer {
    #[verifier::type_invariant]
    spec fn wf(self) -> bool {
        self.mask < usize::MAX && is_pow2((self.mask + 1) as nat)
    }

    pub closed spec fn spec_head(self) -> usize {
        self.head
    }

    pub closed spec fn spec_capacity(self) -> nat {
        (self.mask + 1) as nat
    }
}

impl Consumer {
    #[verifier::type_invariant]
    spec fn wf(self) -> bool {
        self.mask < usize::MAX && is_pow2((self.mask + 1) as nat)
    }

    pub closed spec fn spec_tail(self) -> usize {
        self.tail
    }

    pub closed spec fn spec_capacity(self) -> nat {
        (self.mask + 1) as nat
    }
}

/// A ring whose capacity is rounded up to a power of two: the two ends, and the
/// slots filled with `fill`.
pub fn ring<T: Copy>(min_capacity: usize, fill: T) -> (r: (Producer, Consumer, Vec<T>))
    requires
        min_capacity <= usize::MAX / 2 + 1,
    ensures
        r.0.spec_capacity() == ring_capacity(min_capacity as nat),
        r.1.spec_capacity() == ring_capacity(min_capacity as nat),
        r.0.spec_head() == 0,
        r.1.spec_tail() == 0,
        r.2@.len() == ring_capacity(min_capacity as nat),
        forall|i: int| 0 <= i < r.2@.len() ==> r.2@[i] == fill,
{
    let cap: usize = next_power_of_two(
        if min_capacity > 2 {
            min_capacity
        } else {
            2
        },
    );
    proof {
        lemma_next_pow2(if min_capacity > 2 {
            min_capacity as nat
        } else {
            2
        });
    }
    let mut slots: Vec<T> = Vec::with_capacity(cap);
    let mut i: usize = 0;
    while i < cap
        invariant
            i <= cap,
            slots@.len() == i,
            forall|k: int| 0 <= k < i ==> slots@[k] == fill,
        decreases cap - i,
    {
        slots.push(fill);
        i = i + 1;
    }
    (Producer { head: 0, mask: cap - 1 }, Consumer { tail: 0, mask: cap - 1 }, slots)
}

proof fn lemma_slot(cursor: usize, i: usize, mask: usize)
    requires
        mask < usize::MAX,
        is_pow2((mask + 1) as nat),
    ensures
        cursor.wrapping_add(i) & mask == (cursor + i) % (mask + 1),
{
    let cap = (mask + 1) as nat;
    let k = choose|k: nat| cap == #[trigger] pow2(k);
    let bits = lemma_word_size();
    if k >= bits {
        if k > bits {
            lemma_pow2_strictly_increases(bits, k);
        }
    }
    assert(k < bits);
    let at = cursor.wrapping_add(i);
    lemma_usize_low_bits_mask_is_mod(at, k);
    assert(low_bits_mask(k) == mask);
    lemma_pow2_adds(k, (bits - k) as nat);
    let rest = pow2((bits - k) as nat) as int;
    if cursor + i > usize::MAX {
        lemma_mod_multiples_vanish(rest, cursor + i - (usize::MAX + 1), cap as int);
        assert(cap * rest + (cursor + i - (usize::MAX + 1)) == cursor + i);
    }
}

/// Two cursors that are less than the capacity apart never share a slot.
proof fn lemma_slots_differ(tail: int, i: int, j: int, cap: int)
    requires
        0 <= i < j < cap + i,
        0 <= tail,
    ensures
        (tail + i) % cap != (tail + j) % cap,
{
    vstd::arithmetic::div_mod::lemma_fundamental_div_mod(tail + i, cap);
    vstd::arithmetic::div_mod::lemma_fundamental_div_mod(tail + j, cap);
    if (tail + i) % cap == (tail + j) % cap {
        let a = (tail + i) / cap;
        let b = (tail + j) / cap;
        assert(cap * b - cap * a == j - i);
        assert(false) by (nonlinear_arith)
            requires
                cap * b - cap * a == j - i,
                0 < j - i < cap,
        ;
    }
}

impl Producer {
    /// The cursor to publish: where the next sample will be written.
    pub fn head(&self) -> (r: usize)
        ensures
            r == self.spec_head(),
    {
        self.head
    }

    pub fn capacity(&self) -> (r: usize)
        ensures
            r == self.spec_capacity(),
    {
        proof {
            use_type_invariant(self);
        }
        self.mask + 1
    }

    /// How many samples can be pushed, given the consumer's published cursor.
    pub fn free(&self, tail: usize) -> (r: usize)
        requires
            cursors_ok(self.spec_capacity(), tail, self.spec_head()),
        ensures
            r == self.spec_capacity() - distance(self.spec_head(), tail),
    {
        self.capacity() - self.head.wrapping_sub(tail)
    }

    /// Pushes as many of `data` as fit; returns how many those are.
    pub fn push<T: Copy, S: Slots<T>>(&mut self, slots: &mut S, tail: usize, data: &[T]) -> (n:
        usize)
        requires
            old(slots).cells().len() == old(self).spec_capacity(),
            cursors_ok(old(self).spec_capacity(), tail, old(self).spec_head()),
        ensures
            n == if old(self).spec_capacity() - distance(old(self).spec_head(), tail) < data@.len() {
                old(self).spec_capacity() - distance(old(self).spec_head(), tail)
            } else {
                data@.len() as int
            },
            final(self).spec_capacity() == old(self).spec_capacity(),
            final(self).spec_head() == old(self).spec_head().wrapping_add(n),
            distance(final(self).spec_head(), tail) == distance(old(self).spec_head(), tail) + n,
            final(slots).cells().len() == old(slots).cells().len(),
            contents(final(slots).cells(), tail, final(self).spec_head()) == contents(
                old(slots).cells(),
                tail,
                old(self).spec_head(),
            ) + data@.take(n as int),
    {
        let free: usize = self.free(tail);
        let n: usize = if free < data.len() {
            free
        } else {
            data.len()
        };
        let head: usize = self.head;
        let mask: usize = self.mask;
        let ghost cap = self.spec_capacity() as int;
        let ghost before = slots.cells();
        let ghost d = distance(head, tail);
        proof {
            use_type_invariant(&*self);
        }
        let mut i: usize = 0;
        while i < n
            invariant
                i <= n <= data@.len(),
                mask < usize::MAX,
                is_pow2((mask + 1) as nat),
                cap == mask + 1,
                d == distance(head, tail),
                d + n <= cap,
                before.len() == cap,
                slots.cells().len() == cap,
                forall|k: int|
                    0 <= k < d ==> slots.cells()[#[trigger] ((tail + k) % cap)] == before[(tail + k)
                        % cap],
                forall|k: int|
                    0 <= k < i ==> slots.cells()[#[trigger] ((tail + d + k) % cap)] == data@[k],
            decreases n - i,
        {
            let idx: usize = head.wrapping_add(i) & mask;
            proof {
                lemma_slot(head, i, mask);
                lemma_ahead(head, tail, i as int, mask);
                assert(idx == (tail + d + i) % cap);
                assert forall|k: int| 0 <= k < d + i implies #[trigger] ((tail + k) % cap) != idx by {
                    lemma_slots_differ(tail as int, k, d + i, cap);
                }
                assert forall|k: int| 0 <= k < i implies #[trigger] ((tail + d + k) % cap)
                    != idx by {
                    assert((tail + (d + k)) % cap != idx);
                }
            }
            slots.put(idx, data[i]);
            i = i + 1;
        }
        self.head = head.wrapping_add(n);
        proof {
            assert(distance(self.head, tail) == d + n);
            assert forall|k: int| 0 <= k < d + n implies contents(
                slots.cells(),
                tail,
                self.head,
            )[k] == (contents(before, tail, head) + data@.take(n as int))[k] by {
                if k < d {
                    assert(slots.cells()[(tail + k) % cap] == before[(tail + k) % cap]);
                } else {
                    assert((tail + d + (k - d)) % cap == (tail + k) % cap);
                }
            }
            assert(contents(slots.cells(), tail, self.head) =~= contents(before, tail, head)
                + data@.take(n as int));
        }
        n
    }
}

/// A cursor `i` past `head` finds the same slot as one `distance + i` past `tail`.
proof fn lemma_ahead(head: usize, tail: usize, i: int, mask: usize)
    requires
        mask < usize::MAX,
        is_pow2((mask + 1) as nat),
        0 <= i,
    ensures
        (head + i) % (mask + 1) == (tail + distance(head, tail) + i) % (mask + 1),
{
    let cap = (mask + 1) as nat;
    let k = choose|k: nat| cap == #[trigger] pow2(k);
    let bits = lemma_word_size();
    if k > bits {
        lemma_pow2_strictly_increases(bits, k);
    }
    lemma_pow2_adds(k, (bits - k) as nat);
    let rest = pow2((bits - k) as nat) as int;
    if head < tail {
        lemma_mod_multiples_vanish(rest, head + i, cap as int);
        assert(cap * rest + (head + i) == tail + distance(head, tail) + i);
    }
}

impl Consumer {
    /// The cursor to publish: where the next sample will be read.
    pub fn tail(&self) -> (r: usize)
        ensures
            r == self.spec_tail(),
    {
        self.tail
    }

    /// How many samples can be read, given the producer's published cursor.
    pub fn available(&self, head: usize) -> (r: usize)
        ensures
            r == distance(head, self.spec_tail()),
    {
        head.wrapping_sub(self.tail)
    }

    /// Pops as many samples into `out` as there are and fit; returns how many
    /// those are.
    pub fn pop<T: Copy, S: Slots<T>>(&mut self, slots: &S, head: usize, out: &mut [T]) -> (n: usize)
        requires
            slots.cells().len() == old(self).spec_capacity(),
            cursors_ok(old(self).spec_capacity(), old(self).spec_tail(), head),
        ensures
            n == if distance(head, old(self).spec_tail()) < old(out)@.len() {
                distance(head, old(self).spec_tail())
            } else {
                old(out)@.len()
            },
            final(self).spec_capacity() == old(self).spec_capacity(),
            final(self).spec_tail() == old(self).spec_tail().wrapping_add(n),
            final(out)@ == contents(slots.cells(), old(self).spec_tail(), head).take(n as int)
                + old(out)@.skip(n as int),
            contents(slots.cells(), final(self).spec_tail(), head) == contents(
                slots.cells(),
                old(self).spec_tail(),
                head,
            ).skip(n as int),
    {
        let avail: usize = self.available(head);
        let n: usize = if avail < out.len() {
            avail
        } else {
            out.len()
        };
        let tail: usize = self.tail;
        let mask: usize = self.mask;
        let ghost before = out@;
        let ghost unread = contents(slots.cells(), tail, head);
        proof {
            use_type_invariant(&*self);
        }
        let mut i: usize = 0;
        while i < n
            invariant
                i <= n <= before.len(),
                n <= unread.len(),
                mask < usize::MAX,
                is_pow2((mask + 1) as nat),
                slots.cells().len() == mask + 1,
                unread == contents(slots.cells(), tail, head),
                out@ =~= unread.take(i as int) + before.skip(i as int),
            decreases n - i,
        {
            proof {
                lemma_slot(tail, i, mask);
            }
            let idx: usize = tail.wrapping_add(i) & mask;
            out[i] = slots.get(idx);
            i = i + 1;
        }
        self.tail = tail.wrapping_add(n);
        proof {
            lemma_contents_after_read(slots.cells(), tail, head, n);
        }
        n
    }

    /// Discards up to `n` samples; returns how many those are. They are the oldest
    /// ones, and the rest stays unread: see [`lemma_contents_after_read`].
    pub fn skip(&mut self, head: usize, n: usize) -> (dropped: usize)
        ensures
            dropped == if distance(head, old(self).spec_tail()) < n {
                distance(head, old(self).spec_tail())
            } else {
                n as nat
            },
            final(self).spec_capacity() == old(self).spec_capacity(),
            final(self).spec_tail() == old(self).spec_tail().wrapping_add(dropped),
            is_pow2(old(self).spec_capacity()),
            old(self).spec_capacity() <= usize::MAX,
            distance(head, final(self).spec_tail()) == distance(head, old(self).spec_tail())
                - dropped,
    {
        let avail: usize = self.available(head);
        let dropped: usize = if avail < n {
            avail
        } else {
            n
        };
        proof {
            use_type_invariant(&*self);
        }
        self.tail = self.tail.wrapping_add(dropped);
        dropped
    }
}

/// Reading `n` samples takes the oldest `n` from the contents and leaves the
/// rest as they were. With [`Producer::push`] and [`Consumer::pop`] this makes
/// the ring first in, first out.
pub proof fn lemma_contents_after_read<T>(cells: Seq<T>, tail: usize, head: usize, n: usize)
    requires
        is_pow2(cells.len()),
        cells.len() <= usize::MAX,
        n <= distance(head, tail),
    ensures
        distance(head, tail.wrapping_add(n)) == distance(head, tail) - n,
        contents(cells, tail.wrapping_add(n), head) == contents(cells, tail, head).skip(n as int),
{
    let k = choose|k: nat| cells.len() == #[trigger] pow2(k);
    lemma_pow2_pos(k);
    let mask = (cells.len() - 1) as usize;
    let later = tail.wrapping_add(n);
    assert forall|i: int| 0 <= i < distance(head, later) implies contents(cells, later, head)[i]
        == contents(cells, tail, head).skip(n as int)[i] by {
        lemma_ahead(later, tail, i, mask);
        assert(distance(later, tail) == n);
    }
    assert(contents(cells, later, head) =~= contents(cells, tail, head).skip(n as int));
}

/// What has been pushed is what has been popped followed by what is unread.
pub open spec fn in_order<T>(
    pushed: Seq<T>,
    popped: Seq<T>,
    cells: Seq<T>,
    tail: usize,
    head: usize,
) -> bool {
    pushed == popped + contents(cells, tail, head)
}

/// First in, first out: a push keeps the order of all samples that ever went in.
pub proof fn law_push_keeps_order<T>(
    pushed: Seq<T>,
    popped: Seq<T>,
    cells: Seq<T>,
    cells_after: Seq<T>,
    tail: usize,
    head: usize,
    head_after: usize,
    data: Seq<T>,
)
    requires
        in_order(pushed, popped, cells, tail, head),
        contents(cells_after, tail, head_after) == contents(cells, tail, head) + data,
    ensures
        in_order(pushed + data, popped, cells_after, tail, head_after),
{
    assert(pushed + data =~= popped + contents(cells_after, tail, head_after));
}

/// First in, first out: a pop of `n` samples hands out the oldest ones and keeps
/// the order.
pub proof fn law_pop_keeps_order<T>(
    pushed: Seq<T>,
    popped: Seq<T>,
    cells: Seq<T>,
    tail: usize,
    head: usize,
    n: usize,
)
    requires
        is_pow2(cells.len()),
        cells.len() <= usize::MAX,
        n <= distance(head, tail),
        in_order(pushed, popped, cells, tail, head),
    ensures
        in_order(
            pushed,
            popped + contents(cells, tail, head).take(n as int),
            cells,
            tail.wrapping_add(n),
            head,
        ),
{
    lemma_contents_after_read(cells, tail, head, n);
    let unread = contents(cells, tail, head);
    assert(unread =~= unread.take(n as int) + unread.skip(n as int));
    assert(pushed =~= popped + unread.take(n as int) + contents(
        cells,
        tail.wrapping_add(n),
        head,
    ));
}

/// A producer that works with an outdated `tail` loses nothing: where the
/// consumer has meanwhile read `k` samples, the push adds the same data behind
/// what is still unread.
pub proof fn law_push_with_stale_tail<T>(
    cells: Seq<T>,
    cells_after: Seq<T>,
    tail: usize,
    k: usize,
    head: usize,
    head_after: usize,
    data: Seq<T>,
)
    requires
        is_pow2(cells.len()),
        cells.len() <= usize::MAX,
        cells_after.len() == cells.len(),
        k <= distance(head, tail),
        distance(head_after, tail) == distance(head, tail) + data.len(),
        contents(cells_after, tail, head_after) == contents(cells, tail, head) + data,
    ensures
        contents(cells_after, tail.wrapping_add(k), head_after) == contents(
            cells,
            tail.wrapping_add(k),
            head,
        ) + data,
{
    lemma_contents_after_read(cells, tail, head, k);
    lemma_contents_after_read(cells_after, tail, head_after, k);
    assert((contents(cells, tail, head) + data).skip(k as int) =~= contents(cells, tail, head).skip(
        k as int,
    ) + data);
}

/// A consumer that works with an outdated `head` sees the older part of what is
/// unread.
pub proof fn law_pop_with_stale_head<T>(cells: Seq<T>, tail: usize, head: usize, k: usize)
    requires
        distance(head.wrapping_add(k), tail) == distance(head, tail) + k,
    ensures
        contents(cells, tail, head) == contents(cells, tail, head.wrapping_add(k)).take(
            distance(head, tail) as int,
        ),
{
    assert(contents(cells, tail, head) =~= contents(cells, tail, head.wrapping_add(k)).take(
        distance(head, tail) as int,
    ));
}

/// Not even half of a push is seen: a write to a free slot changes nothing of what
/// is unread, whichever cursors a consumer works with at the time. The slot lies
/// `i` behind `head`; the consumer has read `k` samples since the producer looked,
/// and has seen the producer's cursor at `seen`.
pub proof fn law_single_write_is_unseen<T>(
    cells: Seq<T>,
    tail: usize,
    head: usize,
    i: nat,
    v: T,
    k: usize,
    seen: usize,
)
    requires
        is_pow2(cells.len()),
        cells.len() <= usize::MAX,
        distance(head, tail) + i < cells.len(),
        k <= distance(seen, tail) <= distance(head, tail),
    ensures
        ({
            let slot = (tail + distance(head, tail) + i) % (cells.len() as int);
            let written = cells.update(slot, v);
            contents(written, tail.wrapping_add(k), seen) == contents(
                cells,
                tail.wrapping_add(k),
                seen,
            )
        }),
{
    let cap = cells.len() as int;
    let d = distance(head, tail) as int;
    let slot = (tail + d + i) % cap;
    let written = cells.update(slot, v);
    lemma_contents_after_read(cells, tail, seen, k);
    lemma_contents_after_read(written, tail, seen, k);
    assert forall|p: int| 0 <= p < distance(seen, tail) implies contents(written, tail, seen)[p]
        == contents(cells, tail, seen)[p] by {
        lemma_slots_differ(tail as int, p, d + i, cap);
        assert((tail + (d + i)) % cap == slot);
    }
    assert(contents(written, tail, seen) =~= contents(cells, tail, seen));
}

/// A push never changes a sample that a consumer may be reading at the time.
pub proof fn law_push_leaves_unread<T>(
    cells: Seq<T>,
    cells_after: Seq<T>,
    tail: usize,
    head: usize,
    n: usize,
    data: Seq<T>,
)
    requires
        data.len() == n,
        distance(head.wrapping_add(n), tail) == distance(head, tail) + n,
        contents(cells_after, tail, head.wrapping_add(n)) == contents(cells, tail, head) + data,
    ensures
        contents(cells_after, tail, head) == contents(cells, tail, head),
{
    law_pop_with_stale_head(cells_after, tail, head, n);
    assert((contents(cells, tail, head) + data).take(distance(head, tail) as int) =~= contents(
        cells,
        tail,
        head,
    ));
}

/// A ring has room for what was asked, in a power of two of cells, and less than twice
/// as much as was asked, or than the least ring has.
pub proof fn law_ring_has_the_room_asked_for(min_capacity: nat)
    ensures
        ring_capacity(min_capacity) >= min_capacity,
        ring_capacity(min_capacity) >= 2,
        is_pow2(ring_capacity(min_capacity)),
        min_capacity > 2 ==> ring_capacity(min_capacity) < 2 * min_capacity,
        min_capacity <= 2 ==> ring_capacity(min_capacity) < 4,
{
    lemma_next_pow2(
        if min_capacity > 2 {
            min_capacity
        } else {
            2
        },
    );
}

} // verus!
