//! The ring between reader and consumer.

use viture_v2::ring::Ring;

#[test]
fn preserves_fifo_order() {
    let mut r: Ring<u32, 8> = Ring::new();
    for i in 0..5 {
        r.push(i);
    }
    let mut out = Vec::new();
    r.drain(&mut out);
    assert_eq!(out, vec![0, 1, 2, 3, 4]);
    assert!(r.is_empty());
}

#[test]
fn overflow_drops_newest_and_counts() {
    let mut r: Ring<u32, 4> = Ring::new();
    let accepted = (0..6).filter(|&i| r.push(i)).count();
    assert_eq!(accepted, 4);
    assert_eq!(r.dropped(), 2);
    let mut out = Vec::new();
    r.drain(&mut out);
    assert_eq!(out, vec![0, 1, 2, 3]);
}

#[test]
fn take_latest_skips_backlog() {
    let mut r: Ring<u32, 8> = Ring::new();
    for i in 0..5 {
        r.push(i);
    }
    assert_eq!(r.take_latest(), Some(4));
    assert!(r.is_empty());
}

#[test]
fn an_empty_ring_gives_nothing() {
    let mut r: Ring<u8, 1> = Ring::new();
    assert_eq!(r.pop(), None);
    assert_eq!(r.take_latest(), None);
    let mut out = vec![7];
    assert_eq!(r.drain(&mut out), 0);
    assert_eq!(out, vec![7]);
    assert_eq!((r.len(), r.dropped()), (0, 0));
}

#[test]
fn draining_adds_to_what_is_there() {
    let mut r: Ring<u8, 2> = Ring::new();
    r.push(1);
    r.push(2);
    let mut out = vec![0];
    assert_eq!(r.drain(&mut out), 2);
    assert_eq!(out, vec![0, 1, 2]);
}

/// Everything pushed either comes out, in order, or is counted as dropped, however pushes and pops
/// are interleaved.
#[test]
fn order_and_accounting_over_a_long_run() {
    let mut r: Ring<u64, 64> = Ring::new();
    let mut seed = 1u64;
    let mut accepted = 0u64;
    let mut collected = 0u64;
    let mut last: Option<u64> = None;
    let pushes = 20_000u64;
    for i in 0..pushes {
        if r.push(i) {
            accepted += 1;
        }
        seed = seed.wrapping_mul(6_364_136_223_846_793_005).wrapping_add(1);
        // One pop for two pushes on the whole, so the ring does run full.
        if seed >> 63 == 1 {
            if let Some(v) = r.pop() {
                assert!(last.map_or(true, |l| v > l), "order violated at {v}");
                last = Some(v);
                collected += 1;
            }
        }
        assert!(r.len() <= 64);
    }
    let mut rest = Vec::new();
    collected += r.drain(&mut rest) as u64;
    assert!(rest.windows(2).all(|w| w[0] < w[1]));
    assert_eq!(collected, accepted, "everything accepted must arrive");
    assert_eq!(accepted + r.dropped(), pushes, "accounting must balance");
    assert!(r.dropped() > 0, "the ring never ran full");
}

/// What was accepted is what has left and then what waits, whatever is done to the ring.
#[test]
fn the_books_balance_over_every_operation() {
    let mut r: Ring<u32, 8> = Ring::new();
    let (mut accepted, mut left) = (Vec::new(), Vec::new());
    let mut pushes = 0u64;
    let mut seed = 3u64;
    for i in 0..5_000u32 {
        seed = seed.wrapping_mul(6_364_136_223_846_793_005).wrapping_add(1);
        let full = r.len() == 8;
        match seed >> 59 {
            0 => {
                let waiting = r.len();
                assert_eq!(r.drain(&mut left), waiting);
            }
            1 => {
                let newest = accepted[left.len()..].last().copied();
                assert_eq!(r.take_latest(), newest);
                left = accepted.clone();
            }
            2..=6 => left.extend(r.pop()),
            _ => {
                pushes += 1;
                let taken = r.push(i);
                assert_eq!(taken, !full);
                if taken {
                    accepted.push(i);
                }
            }
        }
        assert_eq!(left[..], accepted[..left.len()]);
        assert_eq!(r.len(), accepted.len() - left.len());
        assert!(r.len() <= 8);
        assert_eq!(accepted.len() as u64 + r.dropped(), pushes);
    }
    assert!(r.dropped() > 0);
}
