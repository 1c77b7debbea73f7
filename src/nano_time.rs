//! The timestamp type: validated calendar fields with nanosecond resolution.
use std::time::SystemTime;
use vstd::prelude::*;
use vstd::string::*;
use crate::calendar::{
    days_before_month_index, days_from_epoch, days_in_month, era_days_before,
    lemma_before_1970, lemma_civil_from_days, lemma_date_order, lemma_days_from_civil,
    lemma_epoch_days_range, lemma_time_of_day, lemma_year_below_65536, month_index, month_length,
    month_of_index, valid_date, year_of_era,
};
use crate::clock::since_unix_epoch;
use crate::text::{decimal, lemma_decimal_drop_last, lemma_decimal_len, pow10, push_decimal};

verus! {

/// The last second of the year 65535, the latest instant a timestamp holds.
pub const MAX_EPOCH_SECS: u64 = 2005949145599;

/// The fields of a timestamp as mathematical values.
pub struct CivilTime {
    pub year: nat,
    pub month: nat,
    pub day: nat,
    pub hour: nat,
    pub minute: nat,
    pub second: nat,
    pub nanosecond: nat,
}

impl CivilTime {
    /// Every field within its range, the day within its month.
    pub open spec fn wf(self) -> bool {
        &&& self.year <= 65535
        &&& valid_date(self.year as int, self.month as int, self.day as int)
        &&& self.hour <= 23
        &&& self.minute <= 59
        &&& self.second <= 59
        &&& self.nanosecond <= 999_999_999
    }

    /// Days from 1970-01-01 to this date.
    pub open spec fn epoch_days(self) -> int {
        days_from_epoch(self.year, self.month, self.day)
    }

    /// Whole seconds from 1970-01-01T00:00:00.
    pub open spec fn epoch_secs(self) -> int {
        self.epoch_days() * 86400 + self.hour * 3600 + self.minute * 60 + self.second
    }

    pub open spec fn epoch_millis(self) -> int {
        self.epoch_secs() * 1000 + self.nanosecond / 1_000_000
    }

    pub open spec fn epoch_micros(self) -> int {
        self.epoch_secs() * 1_000_000 + self.nanosecond / 1_000
    }

    pub open spec fn epoch_nanos(self) -> int {
        self.epoch_secs() * 1_000_000_000 + self.nanosecond
    }

    /// `YYYY-MM-DD`, the year widening past four digits.
    pub open spec fn date_text(self) -> Seq<char> {
        decimal(self.year, 4) + "-"@ + decimal(self.month, 2) + "-"@ + decimal(self.day, 2)
    }

    /// `HH:MM:SS`.
    pub open spec fn hms_text(self) -> Seq<char> {
        decimal(self.hour, 2) + ":"@ + decimal(self.minute, 2) + ":"@ + decimal(self.second, 2)
    }

    /// `HH:MM:SS.mmm`.
    pub open spec fn clock_text(self) -> Seq<char> {
        self.hms_text() + "."@ + decimal(self.nanosecond / 1_000_000, 3)
    }

    /// `YYYY-MM-DD HH:MM:SS.mmm`.
    pub open spec fn datetime_text(self) -> Seq<char> {
        self.date_text() + " "@ + self.clock_text()
    }

    /// `YYYY-MM-DD HH:MM:SS` followed, for a precision `p` above zero, by a
    /// point and the first `p` of the nine nanosecond digits; a precision
    /// above nine counts as nine.
    pub open spec fn datetime_fmt_text(self, precision: nat) -> Seq<char> {
        let p: nat = if precision > 9 { 9 } else { precision };
        self.date_text() + " "@ + self.hms_text() + if p == 0 {
            Seq::<char>::empty()
        } else {
            "."@ + decimal(self.nanosecond, 9).take(p as int)
        }
    }

    /// A valid instant from the start of 1970 on lies within the seconds a
    /// timestamp can hold.
    pub proof fn lemma_epoch_secs_range(self)
        requires
            self.wf(),
            1970 <= self.year,
        ensures
            0 <= self.epoch_secs() <= MAX_EPOCH_SECS,
    {
        lemma_epoch_days_range(self.year as int, self.month as int, self.day as int);
    }
}

/// A point in time as proleptic Gregorian calendar fields (UTC or an
/// already-applied local offset) with nanosecond resolution.
///
/// Every value is valid: a constructor either checks the fields or
/// derives them from an epoch count. The derived order is chronological.
#[derive(Debug, Clone, Copy, PartialEq, Eq, PartialOrd, Ord, Hash)]
pub struct NanoTime {
    year: u16,
    month: u8,
    day: u8,
    hour: u8,
    minute: u8,
    second: u8,
    nanosecond: u32,
}

impl View for NanoTime {
    type V = CivilTime;

    closed spec fn view(&self) -> CivilTime {
        CivilTime {
            year: self.year as nat,
            month: self.month as nat,
            day: self.day as nat,
            hour: self.hour as nat,
            minute: self.minute as nat,
            second: self.second as nat,
            nanosecond: self.nanosecond as nat,
        }
    }
}

/// The label of a distance of `diff` seconds, in its largest whole unit.
pub open spec fn distance_label(diff: nat) -> Seq<char> {
    if diff < 60 {
        decimal(diff, 1) + "s"@
    } else if diff < 3600 {
        decimal(diff / 60, 1) + "m"@
    } else if diff < 86400 {
        decimal(diff / 3600, 1) + "h"@
    } else {
        decimal(diff / 86400, 1) + "d"@
    }
}

/// How an instant at `secs` reads beside one at `other` (both in epoch
/// seconds): "just now" when they are equal, else the distance followed by
/// " ago" when `secs` is earlier, or preceded by "in " when it is later.
pub open spec fn relative_text(secs: int, other: int) -> Seq<char> {
    if secs == other {
        "just now"@
    } else if secs < other {
        distance_label((other - secs) as nat) + " ago"@
    } else {
        "in "@ + distance_label((secs - other) as nat)
    }
}

/// The instant with a zero nanosecond that lies `secs` seconds after
/// 1970-01-01T00:00:00 (there is one for every `secs` from 0 to
/// `MAX_EPOCH_SECS`).
pub open spec fn civil_of_epoch(secs: int) -> CivilTime {
    choose|t: CivilTime| t.wf() && t.nanosecond == 0 && t.epoch_secs() == secs
}

/// The instant of a clock reading of `secs` seconds and `nanos` nanoseconds
/// since the epoch, the seconds held to at most `MAX_EPOCH_SECS`.
pub open spec fn unix_time_fields(secs: int, nanos: int) -> CivilTime {
    CivilTime {
        nanosecond: nanos as nat,
        ..civil_of_epoch(if secs > MAX_EPOCH_SECS { MAX_EPOCH_SECS as int } else { secs })
    }
}

/// Whether `a` comes before `b` field by field, from the year down to the
/// nanosecond: the order that `NanoTime` derives.
pub open spec fn fields_before(a: CivilTime, b: CivilTime) -> bool {
    a.year < b.year || (a.year == b.year && (a.month < b.month || (a.month == b.month && (a.day
        < b.day || (a.day == b.day && (a.hour < b.hour || (a.hour == b.hour && (a.minute
        < b.minute || (a.minute == b.minute && (a.second < b.second || (a.second == b.second
        && a.nanosecond < b.nanosecond)))))))))))
}

/// The fields given one by one.
pub open spec fn civil(
    year: nat,
    month: nat,
    day: nat,
    hour: nat,
    minute: nat,
    second: nat,
    nanosecond: nat,
) -> CivilTime {
    CivilTime { year, month, day, hour, minute, second, nanosecond }
}

impl NanoTime {
    /// Every timestamp holds valid fields.
    #[verifier::type_invariant]
    pub open spec fn inv(self) -> bool {
        self@.wf()
    }

    /// Holds the fields if they name a valid instant; `None` if any one of
    /// them is out of range.
    pub fn new(
        year: u16,
        month: u8,
        day: u8,
        hour: u8,
        minute: u8,
        second: u8,
        nanosecond: u32,
    ) -> (r: Option<Self>)
        ensures
            r is Some <==> civil(
                year as nat,
                month as nat,
                day as nat,
                hour as nat,
                minute as nat,
                second as nat,
                nanosecond as nat,
            ).wf(),
            r matches Some(t) ==> t@ == civil(
                year as nat,
                month as nat,
                day as nat,
                hour as nat,
                minute as nat,
                second as nat,
                nanosecond as nat,
            ),
    {
        if !(1 <= month && month <= 12) {
            return None;
        }
        if day < 1 || day > days_in_month(year, month) {
            return None;
        }
        if hour > 23 {
            return None;
        }
        if minute > 59 {
            return None;
        }
        if second > 59 {
            return None;
        }
        if nanosecond > 999_999_999 {
            return None;
        }
        Some(NanoTime { year, month, day, hour, minute, second, nanosecond })
    }

    pub fn year(&self) -> (r: u16)
        ensures
            r == self@.year,
    {
        self.year
    }

    pub fn month(&self) -> (r: u8)
        ensures
            r == self@.month,
    {
        self.month
    }

    pub fn day(&self) -> (r: u8)
        ensures
            r == self@.day,
    {
        self.day
    }

    pub fn hour(&self) -> (r: u8)
        ensures
            r == self@.hour,
    {
        self.hour
    }

    pub fn minute(&self) -> (r: u8)
        ensures
            r == self@.minute,
    {
        self.minute
    }

    pub fn second(&self) -> (r: u8)
        ensures
            r == self@.second,
    {
        self.second
    }

    pub fn nanosecond(&self) -> (r: u32)
        ensures
            r == self@.nanosecond,
    {
        self.nanosecond
    }

    /// The millisecond within the second (0..=999).
    pub fn millisecond(&self) -> (r: u16)
        ensures
            r == self@.nanosecond / 1_000_000,
    {
        proof {
            use_type_invariant(self);
        }
        (self.nanosecond / 1_000_000) as u16
    }

    /// The microsecond within the second (0..=999_999).
    pub fn microsecond(&self) -> (r: u32)
        ensures
            r == self@.nanosecond / 1_000,
    {
        self.nanosecond / 1_000
    }

    /// The timestamp `secs` seconds after 1970-01-01T00:00:00, with a zero
    /// nanosecond.
    pub fn from_epoch(secs: u64) -> (r: Self)
        requires
            secs <= MAX_EPOCH_SECS,
        ensures
            r@ == civil_of_epoch(secs as int),
            r@.epoch_secs() == secs,
            r@.wf(),
            1970 <= r@.year,
            r@.nanosecond == 0,
            r@.hour == secs % 86400 / 3600,
            r@.minute == secs % 3600 / 60,
            r@.second == secs % 60,
            r@.hour <= 23 && r@.minute <= 59 && r@.second <= 59,
            1 <= r@.month <= 12 && 1 <= r@.day <= 31,
    {
        let r = epoch_to_date(secs);
        proof {
            use_type_invariant(r);
            lemma_epoch_secs_reached(secs as int);
            lemma_epoch_secs_injective(r@, civil_of_epoch(secs as int));
        }
        r
    }

    /// The same instant with its nanosecond replaced.
    fn with_nanosecond(self, nanosecond: u32) -> (r: Self)
        requires
            nanosecond <= 999_999_999,
        ensures
            r@ == (CivilTime { nanosecond: nanosecond as nat, ..self@ }),
    {
        proof {
            use_type_invariant(self);
        }
        NanoTime {
            year: self.year,
            month: self.month,
            day: self.day,
            hour: self.hour,
            minute: self.minute,
            second: self.second,
            nanosecond,
        }
    }

    /// The current time in UTC, from the system clock, as
    /// `from_unix_time` reads it.
    pub fn now_utc() -> (r: Self)
        ensures
            1970 <= r@.year,
            exists|secs: u64, nanos: u32|
                nanos < 1_000_000_000 && r@ == unix_time_fields(secs as int, nanos as int),
    {
        let (secs, nanos) = since_unix_epoch(&SystemTime::now());
        let r = NanoTime::from_unix_time(secs, nanos);
        assert(nanos < 1_000_000_000 && r@ == unix_time_fields(secs as int, nanos as int));
        r
    }

    /// The instant of a clock reading of `secs` whole seconds and `nanos`
    /// nanoseconds since 1970-01-01T00:00:00 UTC. A reading past the year
    /// 65535 gives the last second of that year.
    pub fn from_unix_time(secs: u64, nanos: u32) -> (r: Self)
        requires
            nanos < 1_000_000_000,
        ensures
            r@ == unix_time_fields(secs as int, nanos as int),
            r@.epoch_secs() == if secs > MAX_EPOCH_SECS {
                MAX_EPOCH_SECS as int
            } else {
                secs as int
            },
            r@.nanosecond == nanos,
            1970 <= r@.year,
    {
        let clamped = if secs > MAX_EPOCH_SECS {
            MAX_EPOCH_SECS
        } else {
            secs
        };
        let r = NanoTime::from_epoch(clamped).with_nanosecond(nanos);
        r
    }

    /// The timestamp `nanos` nanoseconds after 1970-01-01T00:00:00.
    pub fn from_epoch_nanos(nanos: u128) -> (r: Self)
        requires
            nanos / 1_000_000_000 <= MAX_EPOCH_SECS,
        ensures
            r@.epoch_secs() == nanos / 1_000_000_000,
            1970 <= r@.year,
            r@.nanosecond == nanos % 1_000_000_000,
            r@.epoch_nanos() == nanos,
    {
        let secs = (nanos / 1_000_000_000) as u64;
        let sub_nanos = (nanos % 1_000_000_000) as u32;
        let nt = epoch_to_date(secs);
        nt.with_nanosecond(sub_nanos)
    }

    /// The timestamp `ms` milliseconds after 1970-01-01T00:00:00.
    pub fn from_epoch_ms(ms: u64) -> (r: Self)
        requires
            ms / 1_000 <= MAX_EPOCH_SECS,
        ensures
            r@.epoch_secs() == ms / 1_000,
            1970 <= r@.year,
            r@.nanosecond == (ms % 1_000) * 1_000_000,
            r@.epoch_millis() == ms,
    {
        let secs = ms / 1_000;
        let sub_ms = (ms % 1_000) as u32;
        let nt = epoch_to_date(secs);
        nt.with_nanosecond(sub_ms * 1_000_000)
    }

    /// The timestamp `us` microseconds after 1970-01-01T00:00:00.
    pub fn from_epoch_us(us: u128) -> (r: Self)
        requires
            us / 1_000_000 <= MAX_EPOCH_SECS,
        ensures
            r@.epoch_secs() == us / 1_000_000,
            1970 <= r@.year,
            r@.nanosecond == (us % 1_000_000) * 1_000,
            r@.epoch_micros() == us,
    {
        let secs = (us / 1_000_000) as u64;
        let sub_us = (us % 1_000_000) as u32;
        let nt = epoch_to_date(secs);
        nt.with_nanosecond(sub_us * 1_000)
    }

    /// Whole seconds from 1970-01-01T00:00:00 to this instant.
    pub fn to_epoch_secs(&self) -> (r: u64)
        requires
            1970 <= self@.year,
        ensures
            r == self@.epoch_secs(),
            r <= MAX_EPOCH_SECS,
    {
        proof {
            use_type_invariant(self);
        }
        let y: i64 = if self.month <= 2 {
            self.year as i64 - 1
        } else {
            self.year as i64
        };
        let era: i64 = (if y >= 0 { y } else { y - 399 }) / 400;
        let yoe: u32 = (y - era * 400) as u32;
        let m = self.month as u32;
        let d = self.day as u32;
        let doy: u32 = (153 * (if m > 2 { m - 3 } else { m + 9 }) + 2) / 5 + d - 1;
        let doe: u32 = yoe * 365 + yoe / 4 - yoe / 100 + doy;
        let days: i64 = era * 146097 + doe as i64 - 719468;
        proof {
            lemma_days_from_civil(
                self.year as int,
                self.month as int,
                self.day as int,
                y as int,
                era as int,
                yoe as int,
                doy as int,
                doe as int,
            );
            lemma_epoch_days_range(self.year as int, self.month as int, self.day as int);
        }
        (days as u64) * 86400 + self.hour as u64 * 3600 + self.minute as u64 * 60
            + self.second as u64
    }

    /// Nanoseconds from 1970-01-01T00:00:00 to this instant.
    pub fn to_epoch_nanos(&self) -> (r: u128)
        requires
            1970 <= self@.year,
        ensures
            r == self@.epoch_nanos(),
    {
        self.to_epoch_secs() as u128 * 1_000_000_000 + self.nanosecond as u128
    }

    /// Whole milliseconds from 1970-01-01T00:00:00 to this instant.
    pub fn to_epoch_ms(&self) -> (r: u64)
        requires
            1970 <= self@.year,
        ensures
            r == self@.epoch_millis(),
    {
        self.to_epoch_secs() * 1_000 + (self.nanosecond / 1_000_000) as u64
    }

    /// Whole microseconds from 1970-01-01T00:00:00 to this instant.
    pub fn to_epoch_us(&self) -> (r: u128)
        requires
            1970 <= self@.year,
        ensures
            r == self@.epoch_micros(),
    {
        self.to_epoch_secs() as u128 * 1_000_000 + self.microsecond() as u128
    }

    /// Formats as `YYYY-MM-DD`.
    pub fn date(&self) -> (r: String)
        ensures
            r@ == self@.date_text(),
    {
        let mut s = String::new();
        push_decimal(&mut s, self.year as u128, 4);
        s.append("-");
        push_decimal(&mut s, self.month as u128, 2);
        s.append("-");
        push_decimal(&mut s, self.day as u128, 2);
        proof {
            assert(s@ =~= self@.date_text());
        }
        s
    }

    /// Appends `HH:MM:SS`.
    fn push_hms(&self, s: &mut String)
        ensures
            final(s)@ == old(s)@ + self@.hms_text(),
    {
        push_decimal(s, self.hour as u128, 2);
        s.append(":");
        push_decimal(s, self.minute as u128, 2);
        s.append(":");
        push_decimal(s, self.second as u128, 2);
        proof {
            assert(final(s)@ =~= old(s)@ + self@.hms_text());
        }
    }

    /// Formats as `HH:MM:SS.mmm`, the canonical display form.
    pub fn to_string(&self) -> (r: String)
        ensures
            r@ == self@.clock_text(),
    {
        let mut s = String::new();
        self.push_hms(&mut s);
        s.append(".");
        push_decimal(&mut s, self.millisecond() as u128, 3);
        proof {
            assert(s@ =~= self@.clock_text());
        }
        s
    }

    /// Formats as `YYYY-MM-DD HH:MM:SS.mmm`.
    pub fn datetime(&self) -> (r: String)
        ensures
            r@ == self@.datetime_text(),
    {
        let mut s = self.date();
        s.append(" ");
        let clock = self.to_string();
        s.append(clock.as_str());
        proof {
            assert(s@ =~= self@.datetime_text());
        }
        s
    }

    /// Formats as `YYYY-MM-DD HH:MM:SS` with `precision` fractional digits,
    /// truncated; a precision above 9 counts as 9.
    pub fn datetime_fmt(&self, precision: u8) -> (r: String)
        ensures
            r@ == self@.datetime_fmt_text(precision as nat),
    {
        proof {
            use_type_invariant(self);
        }
        let p: u8 = if precision > 9 {
            9
        } else {
            precision
        };
        let mut s = self.date();
        s.append(" ");
        self.push_hms(&mut s);
        if p > 0 {
            s.append(".");
            push_fraction(&mut s, self.nanosecond, p);
        }
        proof {
            assert(s@ =~= self@.datetime_fmt_text(precision as nat));
        }
        s
    }

    /// How this instant reads beside `other`, to the whole second:
    /// "just now", "30s ago", "in 2h", "1d ago".
    pub fn relative_to(&self, other: &NanoTime) -> (r: String)
        requires
            1970 <= self@.year,
            1970 <= other@.year,
        ensures
            r@ == relative_text(self@.epoch_secs(), other@.epoch_secs()),
    {
        let self_secs = self.to_epoch_secs();
        let other_secs = other.to_epoch_secs();

        let (diff, past) = if self_secs <= other_secs {
            (other_secs - self_secs, true)
        } else {
            (self_secs - other_secs, false)
        };

        if diff == 0 {
            return String::from_str("just now");
        }
        let mut label = String::new();
        if diff < 60 {
            push_decimal(&mut label, diff as u128, 1);
            label.append("s");
        } else if diff < 3600 {
            push_decimal(&mut label, (diff / 60) as u128, 1);
            label.append("m");
        } else if diff < 86400 {
            push_decimal(&mut label, (diff / 3600) as u128, 1);
            label.append("h");
        } else {
            push_decimal(&mut label, (diff / 86400) as u128, 1);
            label.append("d");
        }
        assert(label@ =~= distance_label(diff as nat));
        if past {
            label.append(" ago");
            label
        } else {
            let mut s = String::from_str("in ");
            s.append(label.as_str());
            s
        }
    }

    /// How this instant reads beside the current time in UTC.
    pub fn ago(&self) -> (r: String)
        requires
            1970 <= self@.year,
        ensures
            exists|now: CivilTime|
                now.wf() && 1970 <= now.year && r@ == relative_text(
                    self@.epoch_secs(),
                    now.epoch_secs(),
                ),
    {
        let now = NanoTime::now_utc();
        proof {
            use_type_invariant(now);
        }
        let r = self.relative_to(&now);
        assert(now@.wf() && 1970 <= now@.year && r@ == relative_text(
            self@.epoch_secs(),
            now@.epoch_secs(),
        ));
        r
    }

    /// Signed seconds from `other` to `self`: positive when `self` is later.
    pub fn diff_secs(&self, other: &NanoTime) -> (r: i64)
        requires
            1970 <= self@.year,
            1970 <= other@.year,
        ensures
            r == self@.epoch_secs() - other@.epoch_secs(),
    {
        self.to_epoch_secs() as i64 - other.to_epoch_secs() as i64
    }

    /// Signed nanoseconds from `other` to `self`.
    pub fn diff_nanos(&self, other: &NanoTime) -> (r: i128)
        requires
            1970 <= self@.year,
            1970 <= other@.year,
        ensures
            r == self@.epoch_nanos() - other@.epoch_nanos(),
    {
        proof {
            use_type_invariant(self);
            use_type_invariant(other);
            self@.lemma_epoch_secs_range();
            other@.lemma_epoch_secs_range();
        }
        self.to_epoch_nanos() as i128 - other.to_epoch_nanos() as i128
    }

    /// Signed milliseconds from `other` to `self`.
    pub fn diff_ms(&self, other: &NanoTime) -> (r: i64)
        requires
            1970 <= self@.year,
            1970 <= other@.year,
        ensures
            r == self@.epoch_millis() - other@.epoch_millis(),
    {
        proof {
            use_type_invariant(self);
            use_type_invariant(other);
            self@.lemma_epoch_secs_range();
            other@.lemma_epoch_secs_range();
        }
        self.to_epoch_ms() as i64 - other.to_epoch_ms() as i64
    }

    /// Signed microseconds from `other` to `self`.
    pub fn diff_us(&self, other: &NanoTime) -> (r: i128)
        requires
            1970 <= self@.year,
            1970 <= other@.year,
        ensures
            r == self@.epoch_micros() - other@.epoch_micros(),
    {
        proof {
            use_type_invariant(self);
            use_type_invariant(other);
            self@.lemma_epoch_secs_range();
            other@.lemma_epoch_secs_range();
        }
        self.to_epoch_us() as i128 - other.to_epoch_us() as i128
    }
}

/// The order of fields is the order of time: of two valid instants, the one
/// whose fields come first has the smaller count of nanoseconds since
/// 1970-01-01T00:00:00.
pub proof fn lemma_order_is_chronological(a: CivilTime, b: CivilTime)
    requires
        a.wf(),
        b.wf(),
        fields_before(a, b),
    ensures
        a.epoch_nanos() < b.epoch_nanos(),
{
    if a.year != b.year || a.month != b.month || a.day != b.day {
        lemma_date_order(a.year, a.month, a.day, b.year, b.month, b.day);
    }
}

/// Two valid instants with the same epoch seconds and nanosecond have the
/// same fields.
pub proof fn lemma_epoch_secs_injective(a: CivilTime, b: CivilTime)
    requires
        a.wf(),
        b.wf(),
        a.epoch_secs() == b.epoch_secs(),
        a.nanosecond == b.nanosecond,
    ensures
        a == b,
{
    if fields_before(a, b) {
        lemma_order_is_chronological(a, b);
    } else if fields_before(b, a) {
        lemma_order_is_chronological(b, a);
    }
}

/// Every count of seconds from 0 to `MAX_EPOCH_SECS` is the epoch seconds
/// of a valid instant with a zero nanosecond.
pub proof fn lemma_epoch_secs_reached(secs: int)
    requires
        0 <= secs <= MAX_EPOCH_SECS,
    ensures
        exists|t: CivilTime| t.wf() && t.nanosecond == 0 && t.epoch_secs() == secs,
{
    lemma_time_of_day(secs);
    let z = secs / 86400 + 719468;
    let era = z / 146097;
    let doe = z - era * 146097;
    let yoe = year_of_era(doe);
    let doy = doe - era_days_before(yoe);
    let mp = month_index(doy);
    let day = doy - days_before_month_index(mp) + 1;
    let month = month_of_index(mp);
    let year = yoe + era * 400 + if month <= 2 { 1int } else { 0 };
    lemma_civil_from_days(z, era, doe, yoe, doy, mp, day, month, year);
    lemma_year_below_65536(year, month, day);
    let t = CivilTime {
        year: year as nat,
        month: month as nat,
        day: day as nat,
        hour: (secs % 86400 / 3600) as nat,
        minute: (secs % 3600 / 60) as nat,
        second: (secs % 60) as nat,
        nanosecond: 0,
    };
    assert(t.wf() && t.nanosecond == 0 && t.epoch_secs() == secs);
}

/// Seconds to fields and back: for every `secs` from 0 to `MAX_EPOCH_SECS`,
/// the instant `secs` seconds after the epoch has epoch seconds `secs`.
pub proof fn lemma_epoch_round_trip(secs: int)
    requires
        0 <= secs <= MAX_EPOCH_SECS,
    ensures
        civil_of_epoch(secs).epoch_secs() == secs,
{
    lemma_epoch_secs_reached(secs);
}

/// Fields to seconds and back: a valid instant from 1970 on with a zero
/// nanosecond is the instant of its own epoch seconds.
pub proof fn lemma_fields_round_trip(t: CivilTime)
    requires
        t.wf(),
        t.nanosecond == 0,
        1970 <= t.year,
    ensures
        civil_of_epoch(t.epoch_secs()) == t,
{
    t.lemma_epoch_secs_range();
    lemma_epoch_secs_reached(t.epoch_secs());
    lemma_epoch_secs_injective(civil_of_epoch(t.epoch_secs()), t);
}

/// The fields derived from any `secs` from 0 to `MAX_EPOCH_SECS` are in
/// range: hour to 23, minute and second to 59, month 1 to 12, day 1 to 31
/// and within its month.
pub proof fn lemma_epoch_fields_valid(secs: int)
    requires
        0 <= secs <= MAX_EPOCH_SECS,
    ensures
        civil_of_epoch(secs).wf(),
        civil_of_epoch(secs).hour <= 23,
        civil_of_epoch(secs).minute <= 59,
        civil_of_epoch(secs).second <= 59,
        1 <= civil_of_epoch(secs).month <= 12,
        1 <= civil_of_epoch(secs).day <= 31,
{
    lemma_epoch_secs_reached(secs);
}

/// Constructing then reading back: when the fields are valid, `new` holds
/// exactly them, so each accessor returns its field, the millisecond is
/// `nanosecond / 1_000_000` and the microsecond `nanosecond / 1_000`.
pub proof fn lemma_fields_read_back(
    year: u16,
    month: u8,
    day: u8,
    hour: u8,
    minute: u8,
    second: u8,
    nanosecond: u32,
)
    requires
        valid_date(year as int, month as int, day as int),
        hour <= 23,
        minute <= 59,
        second <= 59,
        nanosecond <= 999_999_999,
    ensures
        ({
            let f = civil(
                year as nat,
                month as nat,
                day as nat,
                hour as nat,
                minute as nat,
                second as nat,
                nanosecond as nat,
            );
            &&& f.wf()
            &&& f.year == year && f.month == month && f.day == day
            &&& f.hour == hour && f.minute == minute && f.second == second
            &&& f.nanosecond == nanosecond
            &&& f.nanosecond / 1_000_000 == nanosecond / 1_000_000
            &&& f.nanosecond / 1_000 == nanosecond / 1_000
        }),
{
}

/// One field out of range makes the fields invalid, so `new` returns
/// `None`, whatever the other fields hold.
pub proof fn lemma_out_of_range_rejected(
    year: u16,
    month: u8,
    day: u8,
    hour: u8,
    minute: u8,
    second: u8,
    nanosecond: u32,
)
    requires
        month < 1 || month > 12 || day < 1 || day > month_length(year as int, month as int) || hour
            > 23 || minute > 59 || second > 59 || nanosecond > 999_999_999,
    ensures
        !civil(
            year as nat,
            month as nat,
            day as nat,
            hour as nat,
            minute as nat,
            second as nat,
            nanosecond as nat,
        ).wf(),
{
}

/// Differences in seconds are antisymmetric: the difference from `b` to `a`
/// is the negation of the one from `a` to `b`, and zero exactly when the
/// two share their epoch seconds.
pub proof fn lemma_diff_secs_antisymmetric(a: CivilTime, b: CivilTime)
    ensures
        a.epoch_secs() - b.epoch_secs() == -(b.epoch_secs() - a.epoch_secs()),
        (a.epoch_secs() - b.epoch_secs() == 0) == (a.epoch_secs() == b.epoch_secs()),
{
}

/// Appends the first `p` of the nine digits of `nanos`.
fn push_fraction(s: &mut String, nanos: u32, p: u8)
    requires
        nanos <= 999_999_999,
        1 <= p <= 9,
    ensures
        final(s)@ == old(s)@ + decimal(nanos as nat, 9).take(p as int),
{
    let mut q: u32 = nanos;
    let mut k: u8 = 9;
    proof {
        reveal_with_fuel(pow10, 10);
        lemma_decimal_len(nanos as nat, 9);
        assert(decimal(nanos as nat, 9).take(9) =~= decimal(nanos as nat, 9));
    }
    while k > p
        invariant
            1 <= p <= k <= 9,
            q < pow10(k as nat),
            decimal(nanos as nat, 9).len() == 9,
            decimal(nanos as nat, 9).take(k as int) == decimal(q as nat, k as nat),
        decreases k,
    {
        proof {
            lemma_decimal_drop_last(q as nat, k as nat);
            assert(decimal(nanos as nat, 9).take(k - 1) =~= decimal(nanos as nat, 9).take(
                k as int,
            ).take(k - 1));
        }
        q = q / 10;
        k = k - 1;
    }
    push_decimal(s, q as u128, k);
}

/// Converts seconds since 1970-01-01T00:00:00 to calendar fields by the
/// era arithmetic of days-to-civil: day 0 is moved to 0000-03-01 so that
/// the leap day ends each 400-year era's years.
fn epoch_to_date(secs: u64) -> (r: NanoTime)
    requires
        secs <= MAX_EPOCH_SECS,
    ensures
        r@.epoch_secs() == secs,
        r@.wf(),
        1970 <= r@.year,
        r@.nanosecond == 0,
        r@.hour == secs % 86400 / 3600,
        r@.minute == secs % 3600 / 60,
        r@.second == secs % 60,
        r@.hour <= 23 && r@.minute <= 59 && r@.second <= 59,
        1 <= r@.month <= 12 && 1 <= r@.day <= 31,
{
    let day_secs = secs % 86400;
    let hour = (day_secs / 3600) as u8;
    let minute = ((day_secs % 3600) / 60) as u8;
    let second = (day_secs % 60) as u8;
    proof {
        lemma_time_of_day(secs as int);
    }

    // Days since 1970-01-01, shifted so that day 0 is 0000-03-01.
    let z: i64 = (secs / 86400) as i64 + 719468;
    let era: i64 = (if z >= 0 { z } else { z - 146096 }) / 146097;
    assert(era == z / 146097);
    let doe: u32 = (z - era * 146097) as u32;
    let yoe: u32 = (doe - doe / 1460 + doe / 36524 - doe / 146096) / 365;
    assert(yoe == year_of_era(doe as int));
    proof {
        crate::calendar::lemma_year_of_era(doe as int);
    }
    let y: i64 = (yoe as i64) + era * 400;
    let doy: u32 = doe - (365 * yoe + yoe / 4 - yoe / 100);
    let mp: u32 = (5 * doy + 2) / 153;
    proof {
        crate::calendar::lemma_day_of_year_splits(doy as int);
    }
    let day: u8 = (doy - (153 * mp + 2) / 5 + 1) as u8;
    let month: u8 = (if mp < 10 { mp + 3 } else { mp - 9 }) as u8;
    let ghost year_int: int = if month <= 2 { y + 1 } else { y as int };
    proof {
        lemma_civil_from_days(
            z as int,
            era as int,
            doe as int,
            yoe as int,
            doy as int,
            mp as int,
            day as int,
            month as int,
            year_int,
        );
        lemma_year_below_65536(year_int, month as int, day as int);
    }
    let year: u16 = (if month <= 2 { y + 1 } else { y }) as u16;
    NanoTime { year, month, day, hour, minute, second, nanosecond: 0 }
}

} // verus!
