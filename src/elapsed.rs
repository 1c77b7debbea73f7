//! A stopwatch on the monotonic clock.
use std::time::Instant;
use vstd::prelude::*;
use vstd::string::*;
use crate::clock::nanos_since;
use crate::text::{decimal, push_decimal};

verus! {

/// A duration of `nanos` nanoseconds as the stopwatch shows it: whole
/// milliseconds with "ms" below one second, else seconds rounded to two
/// decimals with "s".
pub open spec fn duration_text(nanos: nat) -> Seq<char> {
    let ms = nanos / 1_000_000;
    if ms < 1000 {
        decimal(ms, 1) + "ms"@
    } else {
        let centis = (nanos + 5_000_000) / 10_000_000;
        decimal(centis / 100, 1) + "."@ + decimal(centis % 100, 2) + "s"@
    }
}

/// Formats a duration of `nanos` nanoseconds: "250ms", "1.50s".
pub fn format_duration(nanos: u128) -> (r: String)
    ensures
        r@ == duration_text(nanos as nat),
{
    let ms = nanos / 1_000_000;
    let mut s = String::new();
    if ms < 1000 {
        push_decimal(&mut s, ms, 1);
        s.append("ms");
    } else {
        let centis = nanos / 10_000_000 + if nanos % 10_000_000 >= 5_000_000 {
            1
        } else {
            0
        };
        assert(centis == (nanos + 5_000_000) / 10_000_000);
        push_decimal(&mut s, centis / 100, 1);
        s.append(".");
        push_decimal(&mut s, centis % 100, 2);
        s.append("s");
    }
    proof {
        assert(s@ =~= duration_text(nanos as nat));
    }
    s
}

/// A stopwatch: the monotonic instant at which it started.
pub struct Elapsed {
    start: Instant,
}

impl Elapsed {
    /// Starts a stopwatch now.
    pub fn start() -> Self {
        Elapsed { start: Instant::now() }
    }

    /// Nanoseconds since the start.
    pub fn elapsed_nanos(&self) -> u128 {
        nanos_since(&self.start)
    }

    /// Whole microseconds since the start.
    pub fn elapsed_us(&self) -> u128 {
        nanos_since(&self.start) / 1_000
    }

    /// Whole milliseconds since the start.
    pub fn elapsed_ms(&self) -> u128 {
        nanos_since(&self.start) / 1_000_000
    }

    /// The time since the start as `format_duration` shows it.
    pub fn to_string(&self) -> (r: String)
        ensures
            exists|nanos: nat| r@ == duration_text(nanos),
    {
        let nanos = nanos_since(&self.start);
        let r = format_duration(nanos);
        assert(r@ == duration_text(nanos as nat));
        r
    }
}

} // verus!
