//! Points in time and spans of time, counted in microseconds.
use vstd::prelude::*;

verus! {

/// A point in time, in microseconds from an arbitrary epoch.
#[derive(Debug, Clone, Copy, PartialEq, Eq, Structural)]
pub struct Instant {
    pub micros: i64,
}

/// A span of time, in microseconds.
#[derive(Debug, Clone, Copy, PartialEq, Eq, Structural)]
pub struct Duration {
    pub micros: u64,
}

/// The earlier of two instants.
pub open spec fn earlier_of(a: Instant, b: Instant) -> Instant {
    if a.micros <= b.micros {
        a
    } else {
        b
    }
}

/// The instant `delay` after `start`, where the clock can represent it.
pub open spec fn instant_after(start: Instant, delay: Duration) -> Instant {
    Instant { micros: (start.micros + delay.micros) as i64 }
}

impl Instant {
    /// The instant `micros` microseconds after the epoch.
    pub fn from_micros(micros: i64) -> (instant: Instant)
        ensures
            instant.micros == micros,
    {
        Instant { micros }
    }

    /// The instant `millis` milliseconds after the epoch.
    pub fn from_millis(millis: i64) -> (instant: Instant)
        requires
            i64::MIN <= millis * 1000 <= i64::MAX,
        ensures
            instant.micros == millis * 1000,
    {
        Instant { micros: millis * 1000 }
    }

    /// The instant `delay` later.
    pub fn after(self, delay: Duration) -> (instant: Instant)
        requires
            self.micros + delay.micros <= i64::MAX,
        ensures
            instant == instant_after(self, delay),
            instant.micros == self.micros + delay.micros,
    {
        Instant { micros: ((self.micros as i128) + (delay.micros as i128)) as i64 }
    }

    /// The time that has passed since `earlier`.
    pub fn since(self, earlier: Instant) -> (span: Duration)
        requires
            earlier.micros <= self.micros,
        ensures
            span.micros == self.micros - earlier.micros,
    {
        Duration { micros: ((self.micros as i128) - (earlier.micros as i128)) as u64 }
    }

    /// Whether `other` is not later than this instant.
    pub fn reached(self, other: Instant) -> (r: bool)
        ensures
            r == (self.micros >= other.micros),
    {
        self.micros >= other.micros
    }

    /// The earlier of this instant and `other`.
    pub fn min(self, other: Instant) -> (r: Instant)
        ensures
            r == earlier_of(self, other),
    {
        if self.micros <= other.micros {
            self
        } else {
            other
        }
    }

    /// The later of this instant and `other`.
    pub fn max(self, other: Instant) -> (r: Instant)
        ensures
            r == if self.micros <= other.micros {
                other
            } else {
                self
            },
    {
        if self.micros <= other.micros {
            other
        } else {
            self
        }
    }
}

impl Duration {
    /// A span of `micros` microseconds.
    pub fn from_micros(micros: u64) -> (span: Duration)
        ensures
            span.micros == micros,
    {
        Duration { micros }
    }

    /// A span of `millis` milliseconds.
    pub fn from_millis(millis: u64) -> (span: Duration)
        requires
            millis * 1000 <= u64::MAX,
        ensures
            span.micros == millis * 1000,
    {
        Duration { micros: millis * 1000 }
    }

    /// The whole milliseconds in this span.
    pub fn total_millis(self) -> (millis: u64)
        ensures
            millis == self.micros / 1000,
    {
        self.micros / 1000
    }

    /// The whole seconds in this span.
    pub fn secs(self) -> (secs: u64)
        ensures
            secs == self.micros / 1_000_000,
    {
        self.micros / 1_000_000
    }

    /// The whole milliseconds past the last whole second.
    pub fn millis(self) -> (millis: u64)
        ensures
            millis == self.micros / 1000 % 1000,
    {
        self.micros / 1000 % 1000
    }

    /// One of `parts` equal parts of this span, rounded down.
    pub fn divided_by(self, parts: u32) -> (span: Duration)
        requires
            parts > 0,
        ensures
            span.micros == self.micros as int / parts as int,
    {
        Duration { micros: self.micros / (parts as u64) }
    }
}

} // verus!
