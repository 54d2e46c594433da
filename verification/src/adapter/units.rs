//! Time units and durations of benchmark measurements.
use vstd::prelude::*;

verus! {

/// The time unit that the benchmark harness prints after a measurement.
#[derive(Clone, Copy, Debug, PartialEq, Eq, Structural)]
pub enum Units {
    Nano,
    Micro,
    Milli,
    Sec,
}

/// A span of time, counted in nanoseconds.
#[derive(Clone, Copy, Debug, PartialEq, Eq, Structural)]
pub struct Duration {
    pub nanos: u128,
}

/// The latency of one benchmark: the time per iteration and its spread.
#[derive(Clone, Copy, Debug, PartialEq, Eq, Structural)]
pub struct Latency {
    pub duration: Duration,
    pub variance: Duration,
}

/// What the harness reports for one test.
#[derive(Clone, Copy, Debug, PartialEq, Eq, Structural)]
pub enum Test {
    Ignored,
    Metric(Latency),
}

/// `s`, in UTF-8.
pub open spec fn name_s() -> Seq<u8> {
    seq![115u8]
}

/// `ns`, in UTF-8.
pub open spec fn name_ns() -> Seq<u8> {
    seq![110u8, 115u8]
}

/// `μs`, in UTF-8 (the Greek small letter mu is two bytes).
pub open spec fn name_us() -> Seq<u8> {
    seq![0xCEu8, 0xBCu8, 115u8]
}

/// `ms`, in UTF-8.
pub open spec fn name_ms() -> Seq<u8> {
    seq![109u8, 115u8]
}

/// The unit that an abbreviation names, if it names one.
pub open spec fn units_of(t: Seq<u8>) -> Option<Units> {
    if t == name_ns() {
        Some(Units::Nano)
    } else if t == name_us() {
        Some(Units::Micro)
    } else if t == name_ms() {
        Some(Units::Milli)
    } else if t == name_s() {
        Some(Units::Sec)
    } else {
        None
    }
}

impl Units {
    /// Nanoseconds in one of this unit.
    pub open spec fn nanos_per(self) -> nat {
        match self {
            Units::Nano => 1,
            Units::Micro => 1_000,
            Units::Milli => 1_000_000,
            Units::Sec => 1_000_000_000,
        }
    }

    /// The unit named by a time abbreviation (`ns`, `μs`, `ms` or `s`), or
    /// `None` for any other text.
    pub fn parse(time: &[u8]) -> (res: Option<Units>)
        ensures
            res == units_of(time@),
    {
        let n = time.len();
        if n == 1 && time[0] == 115 {
            assert(time@ =~= name_s());
            Some(Units::Sec)
        } else if n == 2 && time[0] == 110 && time[1] == 115 {
            assert(time@ =~= name_ns());
            Some(Units::Nano)
        } else if n == 2 && time[0] == 109 && time[1] == 115 {
            assert(time@ =~= name_ms());
            Some(Units::Milli)
        } else if n == 3 && time[0] == 0xCE && time[1] == 0xBC && time[2] == 115 {
            assert(time@ =~= name_us());
            Some(Units::Micro)
        } else {
            proof {
                if time@ == name_s() {
                    assert(time@[0] == 115);
                }
                if time@ == name_ns() {
                    assert(time@[0] == 110 && time@[1] == 115);
                }
                if time@ == name_ms() {
                    assert(time@[0] == 109 && time@[1] == 115);
                }
                if time@ == name_us() {
                    assert(time@[0] == 0xCE && time@[1] == 0xBC && time@[2] == 115);
                }
            }
            None
        }
    }

    /// The unit named by a time abbreviation. Any text other than `ns`,
    /// `μs`, `ms` or `s` is refused by the precondition.
    pub fn from(time: &[u8]) -> (res: Units)
        requires
            units_of(time@) is Some,
        ensures
            units_of(time@) == Some(res),
    {
        match Units::parse(time) {
            Some(u) => u,
            None => Units::Sec,
        }
    }
}

/// A measurement in the given unit, as a span of time.
pub fn to_duration(time: u64, units: &Units) -> (res: Duration)
    ensures
        res.nanos == time * units.nanos_per(),
{
    let t = time as u128;
    match units {
        Units::Nano => Duration { nanos: t },
        Units::Micro => Duration { nanos: t * 1_000 },
        Units::Milli => Duration { nanos: t * 1_000_000 },
        Units::Sec => Duration { nanos: t * 1_000_000_000 },
    }
}

} // verus!
