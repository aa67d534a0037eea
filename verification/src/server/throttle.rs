//! Rate limits: the connection throttle of the listener and the packet
//! limiter of a player's connection.
//!
//! Both are state machines driven by the caller, who reports each event
//! with the current time in nanoseconds and acts on the answer.
use std::collections::HashMap;
use vstd::prelude::*;

verus! {

broadcast use vstd::std_specs::hash::group_hash_axioms;

/// Nanoseconds in a millisecond.
pub const MILLI_NANOS: u64 = 1_000_000;

/// Nanoseconds in a second.
pub const SECOND_NANOS: u64 = 1_000_000_000;

/// Packets a client may send before the limiter looks at the clock.
pub const PACKETS_PER_SECOND: usize = 2000;

// ---------------------------------------------------------------------------
// Connection throttle
// ---------------------------------------------------------------------------

/// A connection throttle as spec values.
pub struct ThrottleView {
    /// Whether the throttle is on at all.
    pub enabled: bool,
    /// The length of a window, in nanoseconds.
    pub interval: u64,
    /// The attempts an address may make in one window.
    pub limit: u8,
    /// When the current window began.
    pub window_start: u64,
    /// The attempts counted per address in the current window.
    pub counts: Map<u128, u8>,
}

/// A counter after one more attempt; like an unchecked `u8`, it wraps.
pub open spec fn bumped(c: u8) -> u8 {
    if c == 255 {
        0
    } else {
        (c + 1) as u8
    }
}

/// The attempts counted for an address, zero where none are.
pub open spec fn count_of(counts: Map<u128, u8>, addr: u128) -> u8 {
    if counts.contains_key(addr) {
        counts[addr]
    } else {
        0
    }
}

/// The time from `from` to `to`, zero where the clock seems to go back.
pub open spec fn elapsed(from: u64, to: u64) -> int {
    if to >= from {
        to - from
    } else {
        0
    }
}

/// One connection attempt from `addr` at `now`: the throttle after it, and
/// whether the connection is let in. When the window has run out, the counts
/// start afresh and the connection is let in; else the address's count goes
/// up, and the connection is let in while the count is at most the limit.
pub open spec fn throttle_step(s: ThrottleView, addr: u128, now: u64) -> (ThrottleView, bool) {
    if !s.enabled {
        (s, true)
    } else if elapsed(s.window_start, now) >= s.interval {
        (
            ThrottleView {
                enabled: s.enabled,
                interval: s.interval,
                limit: s.limit,
                window_start: now,
                counts: Map::empty(),
            },
            true,
        )
    } else {
        let c = bumped(count_of(s.counts, addr));
        (
            ThrottleView {
                enabled: s.enabled,
                interval: s.interval,
                limit: s.limit,
                window_start: s.window_start,
                counts: s.counts.insert(addr, c),
            },
            c <= s.limit,
        )
    }
}

/// The connection throttle of the listener: it refuses an address that has
/// tried to connect more than a limit of times within one window.
pub struct ConnectionThrottle {
    enabled: bool,
    interval: u64,
    limit: u8,
    window_start: u64,
    counters: HashMap<u128, u8>,
}

impl ConnectionThrottle {
    pub closed spec fn view(&self) -> ThrottleView {
        ThrottleView {
            enabled: self.enabled,
            interval: self.interval,
            limit: self.limit,
            window_start: self.window_start,
            counts: self.counters@,
        }
    }

    /// A throttle whose first window begins at `now`. `throttle_time` is the
    /// length of a window in milliseconds; zero or less turns the throttle
    /// off.
    pub fn new(throttle_time: i32, limit: u8, now: u64) -> (r: ConnectionThrottle)
        ensures
            r@ == (ThrottleView {
                enabled: throttle_time > 0,
                interval: if throttle_time > 0 {
                    (throttle_time * MILLI_NANOS) as u64
                } else {
                    0
                },
                limit,
                window_start: now,
                counts: Map::empty(),
            }),
    {
        let enabled = throttle_time > 0;
        let interval: u64 = if enabled {
            (throttle_time as u64) * MILLI_NANOS
        } else {
            0
        };
        ConnectionThrottle { enabled, interval, limit, window_start: now, counters: HashMap::new() }
    }

    /// Counts a connection attempt from `addr` at `now` and says whether to
    /// let it in.
    pub fn accept(&mut self, addr: u128, now: u64) -> (r: bool)
        ensures
            (final(self)@, r) == throttle_step(old(self)@, addr, now),
    {
        if !self.enabled {
            return true;
        }
        let passed: u64 = if now >= self.window_start {
            now - self.window_start
        } else {
            0
        };
        if passed >= self.interval {
            self.window_start = now;
            self.counters.clear();
            proof { assert(self.counters@ =~= Map::<u128, u8>::empty()); }
            return true;
        }
        let before: u8 = match self.counters.get(&addr) {
            Some(c) => *c,
            None => 0,
        };
        let c: u8 = if before == 255 {
            0
        } else {
            before + 1
        };
        self.counters.insert(addr, c);
        c <= self.limit
    }
}

/// The attempts from `addr` among `events`.
pub open spec fn attempts_from(events: Seq<(u128, u64)>, addr: u128) -> nat
    decreases events.len(),
{
    if events.len() == 0 {
        0
    } else {
        (if events[0].0 == addr {
            1nat
        } else {
            0nat
        }) + attempts_from(events.drop_first(), addr)
    }
}

/// The connections from `addr` let in when `events` reach the throttle in
/// turn, starting from `s`.
pub open spec fn accepted_from(s: ThrottleView, events: Seq<(u128, u64)>, addr: u128) -> nat
    decreases events.len(),
{
    if events.len() == 0 {
        0
    } else {
        let (next, ok) = throttle_step(s, events[0].0, events[0].1);
        (if ok && events[0].0 == addr {
            1nat
        } else {
            0nat
        }) + accepted_from(next, events.drop_first(), addr)
    }
}

/// Whether every event comes before the window of `s` runs out.
pub open spec fn within_window(s: ThrottleView, events: Seq<(u128, u64)>) -> bool {
    forall|i: int| 0 <= i < events.len() ==> elapsed(s.window_start, (#[trigger] events[i]).1) < s.interval
}

/// Within one window, the throttle lets an address in at most `limit` times
/// in all: of the attempts still to come, at most as many as the limit leaves
/// over the attempts already counted. (The counter of an address is a `u8`:
/// the law holds while it does not wrap.)
pub proof fn law_throttle_limit(s: ThrottleView, events: Seq<(u128, u64)>, addr: u128)
    requires
        s.enabled,
        within_window(s, events),
        count_of(s.counts, addr) + attempts_from(events, addr) <= 255,
    ensures
        accepted_from(s, events, addr) <= (if count_of(s.counts, addr) >= s.limit {
            0
        } else {
            s.limit - count_of(s.counts, addr)
        }),
    decreases events.len(),
{
    if events.len() > 0 {
        let (next, ok) = throttle_step(s, events[0].0, events[0].1);
        let rest = events.drop_first();
        assert(elapsed(s.window_start, events[0].1) < s.interval);
        assert(within_window(next, rest)) by {
            assert forall|i: int| 0 <= i < rest.len() implies elapsed(next.window_start, (#[trigger] rest[i]).1)
                < next.interval by {
                assert(rest[i] == events[i + 1]);
            }
        }
        if events[0].0 == addr {
            assert(count_of(next.counts, addr) == count_of(s.counts, addr) + 1);
        } else {
            assert(count_of(next.counts, addr) == count_of(s.counts, addr));
        }
        law_throttle_limit(next, rest, addr);
    }
}

// ---------------------------------------------------------------------------
// Packet limiter
// ---------------------------------------------------------------------------

/// A packet limiter as spec values.
pub struct LimiterView {
    /// The packets counted since the last reset.
    pub count: usize,
    /// When the count was last reset, in nanoseconds.
    pub last_reset: u64,
}

/// One packet at `now`: the limiter after it, and whether the connection may
/// go on. Once the count reaches `PACKETS_PER_SECOND`, the limiter looks at
/// the clock: if less than a second has passed since the last reset the
/// connection is cut; otherwise the count starts afresh. While the clock
/// reads earlier than the last reset, it only counts.
pub open spec fn limiter_step(s: LimiterView, now: u64) -> (LimiterView, bool) {
    let count: usize = if s.count == usize::MAX {
        0
    } else {
        (s.count + 1) as usize
    };
    if count >= PACKETS_PER_SECOND && now >= s.last_reset {
        if now - s.last_reset < SECOND_NANOS {
            (LimiterView { count, last_reset: s.last_reset }, false)
        } else {
            (LimiterView { count: 0, last_reset: now }, true)
        }
    } else {
        (LimiterView { count, last_reset: s.last_reset }, true)
    }
}

/// The packet limiter of a client connection.
pub struct PacketLimiter {
    count: usize,
    last_reset: u64,
}

impl PacketLimiter {
    pub closed spec fn view(&self) -> LimiterView {
        LimiterView { count: self.count, last_reset: self.last_reset }
    }

    /// A limiter that has counted nothing, last reset at `now`.
    pub fn new(now: u64) -> (r: PacketLimiter)
        ensures
            r@ == (LimiterView { count: 0, last_reset: now }),
    {
        PacketLimiter { count: 0, last_reset: now }
    }

    /// Counts a packet received at `now` and says whether the connection may
    /// go on.
    pub fn on_packet(&mut self, now: u64) -> (r: bool)
        ensures
            (final(self)@, r) == limiter_step(old(self)@, now),
    {
        self.count = if self.count == usize::MAX {
            0
        } else {
            self.count + 1
        };
        if self.count >= PACKETS_PER_SECOND && now >= self.last_reset {
            if now - self.last_reset < SECOND_NANOS {
                return false;
            }
            self.last_reset = now;
            self.count = 0;
        }
        true
    }
}

/// Whether every packet of `times`, arriving in turn from `s`, lets the
/// connection go on.
pub open spec fn limiter_lets_through(s: LimiterView, times: Seq<u64>) -> bool
    decreases times.len(),
{
    if times.len() == 0 {
        true
    } else {
        let (next, ok) = limiter_step(s, times[0]);
        ok && limiter_lets_through(next, times.drop_first())
    }
}

/// The limiter never cuts a connection before `PACKETS_PER_SECOND` packets
/// have been counted since its last reset, whatever the clock says.
pub proof fn law_limiter_lets_through(s: LimiterView, times: Seq<u64>)
    requires
        s.count + times.len() < PACKETS_PER_SECOND,
    ensures
        limiter_lets_through(s, times),
    decreases times.len(),
{
    if times.len() > 0 {
        let (next, ok) = limiter_step(s, times[0]);
        assert(next.count == s.count + 1);
        law_limiter_lets_through(next, times.drop_first());
    }
}

} // verus!
