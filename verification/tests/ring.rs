use prism_llae::ring::{next_power_of_two, ring};

#[test]
fn roundtrip() {
    let (mut p, mut c, mut slots) = ring(8, 0.0f32);
    assert_eq!(p.push(&mut slots, c.tail(), &[1.0, 2.0, 3.0]), 3);
    let mut out = [0.0f32; 4];
    assert_eq!(c.pop(&slots, p.head(), &mut out), 3);
    assert_eq!(&out[..3], &[1.0, 2.0, 3.0]);
}

#[test]
fn fills_and_wraps() {
    let (mut p, mut c, mut slots) = ring(4, 0.0f32); // capacity 4
    assert_eq!(p.push(&mut slots, c.tail(), &[1.0, 2.0, 3.0, 4.0, 5.0]), 4);
    let mut out = [0.0f32; 2];
    assert_eq!(c.pop(&slots, p.head(), &mut out), 2);
    assert_eq!(p.push(&mut slots, c.tail(), &[6.0, 7.0]), 2);
    let mut out2 = [0.0f32; 8];
    assert_eq!(c.pop(&slots, p.head(), &mut out2), 4);
    assert_eq!(&out2[..4], &[3.0, 4.0, 6.0, 7.0]);
}

#[test]
fn capacity_is_a_power_of_two() {
    for (want, have) in [(0, 2), (1, 2), (2, 2), (3, 4), (4, 4), (5, 8), (1000, 1024)] {
        let (p, _c, slots) = ring(want, 0u32);
        assert_eq!(p.capacity(), have);
        assert_eq!(slots.len(), have);
        assert_eq!(p.free(0), have);
    }
    assert_eq!(next_power_of_two(0), 1);
    assert_eq!(next_power_of_two(1), 1);
    assert_eq!(next_power_of_two(6000), 8192);
}

#[test]
fn skip_discards_the_oldest() {
    let (mut p, mut c, mut slots) = ring(8, 0u32);
    p.push(&mut slots, c.tail(), &[1, 2, 3, 4]);
    assert_eq!(c.available(p.head()), 4);
    assert_eq!(c.skip(p.head(), 3), 3);
    let mut out = [0u32; 4];
    assert_eq!(c.pop(&slots, p.head(), &mut out), 1);
    assert_eq!(out, [4, 0, 0, 0]);
    assert_eq!(c.skip(p.head(), 9), 0);
}

#[test]
fn first_in_first_out_over_many_rounds() {
    let (mut p, mut c, mut slots) = ring(16, 0u32);
    let mut sent = 0u32;
    let mut received = 0u32;
    for round in 0..500usize {
        let data: Vec<u32> = (0..(round % 11) as u32).map(|i| sent + i).collect();
        sent += p.push(&mut slots, c.tail(), &data) as u32;
        let mut out = vec![0u32; round % 7];
        let n = c.pop(&slots, p.head(), &mut out);
        for v in &out[..n] {
            assert_eq!(*v, received);
            received += 1;
        }
        assert_eq!(c.available(p.head()) as u32, sent - received);
    }
    assert!(received > 1000);
}

#[test]
fn outdated_cursors_lose_nothing() {
    let (mut p, mut c, mut slots) = ring(8, 0u32);
    let stale_tail = c.tail();
    p.push(&mut slots, c.tail(), &[1, 2, 3, 4, 5, 6]);
    let mut out = [0u32; 4];
    c.pop(&slots, p.head(), &mut out);
    // the producer still believes that nothing was read: it sees room for two
    assert_eq!(p.free(stale_tail), 2);
    let stale_head = p.head();
    assert_eq!(p.push(&mut slots, stale_tail, &[7, 8, 9]), 2);
    // the consumer still believes that nothing was pushed: it sees 5 and 6
    let mut seen = [0u32; 8];
    assert_eq!(c.pop(&slots, stale_head, &mut seen), 2);
    assert_eq!(&seen[..2], &[5, 6]);
    assert_eq!(c.pop(&slots, p.head(), &mut seen), 2);
    assert_eq!(&seen[..2], &[7, 8]);
}

#[test]
fn writes_to_free_slots_are_not_read() {
    let (mut p, mut c, mut slots) = ring(4, 0u32);
    assert_eq!(p.push(&mut slots, 0, &[1, 2]), 2);
    let seen = p.head();
    // the first half of a push of which the cursor is not published yet
    slots[seen & 3] = 9;
    let mut out = [0; 4];
    assert_eq!(c.pop(&slots, seen, &mut out), 2);
    assert_eq!(out, [1, 2, 0, 0]);
    assert_eq!(p.push(&mut slots, c.tail(), &[3, 4]), 2);
    assert_eq!(c.pop(&slots, p.head(), &mut out), 2);
    assert_eq!(out, [3, 4, 0, 0]);
}
