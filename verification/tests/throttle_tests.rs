use crust::server::throttle::{ConnectionThrottle, PacketLimiter, MILLI_NANOS, PACKETS_PER_SECOND, SECOND_NANOS};

#[test]
fn throttle_refuses_after_limit_within_window() {
    let mut t = ConnectionThrottle::new(5000, 2, 0);
    let a: u128 = 1;
    let b: u128 = 2;
    assert!(t.accept(a, 10));
    assert!(t.accept(a, 20));
    assert!(!t.accept(a, 30));
    assert!(!t.accept(a, 40));
    assert!(t.accept(b, 50));
    // the window of five seconds runs out: everyone starts afresh
    assert!(t.accept(a, 5000 * MILLI_NANOS));
    assert!(t.accept(a, 5000 * MILLI_NANOS + 1));
    assert!(t.accept(a, 5000 * MILLI_NANOS + 2));
    assert!(!t.accept(a, 5000 * MILLI_NANOS + 3));
}

#[test]
fn throttle_off_lets_everyone_in() {
    let mut t = ConnectionThrottle::new(0, 0, 0);
    for n in 0..100u64 {
        assert!(t.accept(7, n));
    }
    let mut t = ConnectionThrottle::new(-1, 0, 0);
    assert!(t.accept(7, 1));
}

#[test]
fn throttle_limit_zero_refuses_within_window() {
    let mut t = ConnectionThrottle::new(1, 0, 0);
    assert!(!t.accept(9, 0));
    assert!(t.accept(9, MILLI_NANOS));
}

#[test]
fn limiter_cuts_a_flood() {
    let mut l = PacketLimiter::new(0);
    for n in 0..(PACKETS_PER_SECOND as u64 - 1) {
        assert!(l.on_packet(n));
    }
    assert!(!l.on_packet(SECOND_NANOS - 1));
}

#[test]
fn limiter_resets_after_a_second() {
    let mut l = PacketLimiter::new(0);
    for _ in 0..(PACKETS_PER_SECOND - 1) {
        assert!(l.on_packet(1));
    }
    assert!(l.on_packet(SECOND_NANOS));
    for _ in 0..(PACKETS_PER_SECOND - 1) {
        assert!(l.on_packet(SECOND_NANOS + 1));
    }
    assert!(!l.on_packet(SECOND_NANOS + 2));
}

#[test]
fn limiter_only_counts_while_clock_goes_back() {
    let mut l = PacketLimiter::new(SECOND_NANOS * 10);
    for _ in 0..(PACKETS_PER_SECOND * 2) {
        assert!(l.on_packet(0));
    }
}
