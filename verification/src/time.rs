//! System time, counted in timer ticks.

use std::cmp::Ordering;
use vstd::prelude::*;
use vstd::std_specs::cmp::PartialOrdSpecImpl;

verus! {

/// Timer interrupts per second.
pub const PIT_HZ: usize = 1000;

/// Counts timer interrupts. This is the source of time.
#[derive(Clone, Copy, Debug, PartialEq, Eq, Structural)]
pub struct Clock {
    pub ticks: usize,
}

/// A system time: the number of ticks since the clock started.
#[derive(Clone, Copy, Debug, PartialEq, Eq, Structural, Ord)]
pub struct SysTime(pub usize);

impl PartialOrd for SysTime {
    fn partial_cmp(&self, other: &SysTime) -> (r: Option<Ordering>) {
        if self.0 < other.0 {
            Some(Ordering::Less)
        } else if self.0 == other.0 {
            Some(Ordering::Equal)
        } else {
            Some(Ordering::Greater)
        }
    }
}

impl PartialOrdSpecImpl for SysTime {
    open spec fn obeys_partial_cmp_spec() -> bool {
        true
    }

    open spec fn partial_cmp_spec(&self, other: &SysTime) -> Option<Ordering> {
        if self.0 < other.0 {
            Some(Ordering::Less)
        } else if self.0 == other.0 {
            Some(Ordering::Equal)
        } else {
            Some(Ordering::Greater)
        }
    }
}

impl Clock {
    /// A clock that has seen no tick yet.
    pub fn new() -> (clock: Clock)
        ensures
            clock.ticks == 0,
    {
        Clock { ticks: 0 }
    }
}

impl SysTime {
    /// The number of ticks this time stands for.
    pub open spec fn ticks(self) -> nat {
        self.0 as nat
    }

    /// The current system time: the ticks counted so far.
    pub fn now(clock: &Clock) -> (r: SysTime)
        ensures
            r.ticks() == clock.ticks,
    {
        SysTime(clock.ticks)
    }

    /// The time `millis` milliseconds after `self`.
    pub fn after_ms(self, millis: usize) -> (r: SysTime)
        requires
            millis * PIT_HZ <= usize::MAX,
            self.ticks() + (millis * PIT_HZ) / 1000 <= usize::MAX,
        ensures
            r.ticks() == self.ticks() + (millis * PIT_HZ) / 1000,
    {
        SysTime(self.0 + millis * PIT_HZ / 1000)
    }

    /// The milliseconds that have passed since the clock started.
    pub fn millis(self) -> (r: usize)
        requires
            self.ticks() * 1000 <= usize::MAX,
        ensures
            r == (self.ticks() * 1000) / (PIT_HZ as nat),
    {
        self.0 * 1000 / PIT_HZ
    }
}

/// Ticks the clock once. The counter wraps around to zero after `usize::MAX`.
pub fn tick(clock: &mut Clock)
    ensures
        final(clock).ticks == if old(clock).ticks == usize::MAX {
            0
        } else {
            old(clock).ticks + 1
        },
{
    clock.ticks = if clock.ticks == usize::MAX {
        0
    } else {
        clock.ticks + 1
    };
}

} // verus!
