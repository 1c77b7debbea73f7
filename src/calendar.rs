//! Leap years, month lengths and the day count of a calendar date.
use vstd::prelude::*;

verus! {

/// The Gregorian leap-year rule.
pub open spec fn is_leap(y: int) -> bool {
    y % 4 == 0 && (y % 100 != 0 || y % 400 == 0)
}

/// The number of days in month `m` of year `y`; zero for a month outside 1..=12.
pub open spec fn month_length(y: int, m: int) -> int {
    if m == 1 || m == 3 || m == 5 || m == 7 || m == 8 || m == 10 || m == 12 {
        31
    } else if m == 4 || m == 6 || m == 9 || m == 11 {
        30
    } else if m == 2 {
        if is_leap(y) { 29 } else { 28 }
    } else {
        0
    }
}

pub open spec fn year_length(y: int) -> int {
    if is_leap(y) { 366 } else { 365 }
}

/// Whether `year`, `month`, `day` name a day of the calendar.
pub open spec fn valid_date(year: int, month: int, day: int) -> bool {
    1 <= month <= 12 && 1 <= day <= month_length(year, month)
}

/// Returns whether `year` is a leap year.
pub fn is_leap_year(year: u16) -> (r: bool)
    ensures
        r == is_leap(year as int),
{
    (year % 4 == 0 && year % 100 != 0) || year % 400 == 0
}

/// Returns the number of days in `month` of `year`, or 0 for a month
/// outside 1..=12.
pub fn days_in_month(year: u16, month: u8) -> (r: u8)
    ensures
        r as int == month_length(year as int, month as int),
{
    match month {
        1 | 3 | 5 | 7 | 8 | 10 | 12 => 31,
        4 | 6 | 9 | 11 => 30,
        2 => {
            if is_leap_year(year) {
                29
            } else {
                28
            }
        },
        _ => 0,
    }
}

/// Days from 0000-01-01 to the first day of year `y`.
pub open spec fn days_before_year(y: nat) -> int
    decreases y,
{
    if y == 0 {
        0
    } else {
        days_before_year((y - 1) as nat) + year_length(y - 1)
    }
}

/// Days from the first of January of year `y` to the first day of month `m`.
pub open spec fn days_before_month(y: int, m: nat) -> int
    decreases m,
{
    if m <= 1 {
        0
    } else {
        days_before_month(y, (m - 1) as nat) + month_length(y, m - 1)
    }
}

/// Days from 1970-01-01 to the given date: negative before it.
pub open spec fn days_from_epoch(year: nat, month: nat, day: nat) -> int {
    days_before_year(year) + days_before_month(year as int, month) + day - 1 - days_before_year(1970)
}

/// Days within a 400-year era from its start (a first of March) to the
/// first of March of its year `yoe`.
pub open spec fn era_days_before(yoe: int) -> int {
    365 * yoe + yoe / 4 - yoe / 100
}

/// The year of era that the division identities give for day `doe` of an era.
pub open spec fn year_of_era(doe: int) -> int {
    (doe - doe / 1460 + doe / 36524 - doe / 146096) / 365
}

pub(crate) proof fn lemma_days_before_year_closed(y: nat)
    ensures
        days_before_year(y) == 365 * y + (y + 3) / 4 - (y + 99) / 100 + (y + 399) / 400,
    decreases y,
{
    if y > 0 {
        lemma_days_before_year_closed((y - 1) as nat);
    }
}

/// Day `doe` of an era lies in year `year_of_era(doe)`, which is at most 399,
/// and is day `doe - era_days_before(yoe)` of that (March-based) year.
pub(crate) proof fn lemma_year_of_era(doe: int)
    requires
        0 <= doe < 146097,
    ensures
        0 <= year_of_era(doe) < 400,
        0 <= doe - era_days_before(year_of_era(doe)),
        doe - era_days_before(year_of_era(doe)) < year_length(year_of_era(doe) + 1) ,
{
    let c: int = if doe / 36524 < 3 { doe / 36524 } else { 3 };
    let r1: int = doe - 36524 * c;
    let a: int = r1 / 1461;
    let r2: int = r1 - 1461 * a;
    let b: int = if r2 / 365 < 3 { r2 / 365 } else { 3 };
    let t: int = r2 - 365 * b;
    let k: int = 100 * c + 4 * a + b;
    assert(0 <= c <= 3);
    assert(0 <= r1 <= 36524);
    assert(c < 3 ==> r1 < 36524);
    assert(0 <= a <= 24);
    assert(0 <= r2 < 1461);
    assert(a == 24 && c < 3 ==> r2 < 1460);
    assert(0 <= b <= 3);
    assert(0 <= t <= 365);
    assert(t == 365 ==> b == 3);
    assert(k / 4 == 25 * c + a);
    assert(k / 100 == c);
    assert(doe == era_days_before(k) + t);
    assert(is_leap(k + 1) <==> (b == 3 && (a < 24 || c == 3)));
    let e: int = if 24 * c + a + 365 * b + t >= 1460 { 1 } else { 0 };
    if doe == 146096 {
        assert(k == 399 && t == 365);
    } else {
        assert(doe / 146096 == 0);
        assert(doe / 36524 == c);
        assert(doe / 1460 == 25 * c + a + e);
        assert(doe - doe / 1460 + doe / 36524 - doe / 146096 == 365 * k + t - e);
        assert(0 <= t - e < 365);
    }
    assert(year_of_era(doe) == k);
}

/// The month of a (March-based) day of year `doy`, counted from March as 0.
pub open spec fn month_index(doy: int) -> int {
    (5 * doy + 2) / 153
}

/// Days from the first of March to the first day of month index `mp`.
pub open spec fn days_before_month_index(mp: int) -> int {
    (153 * mp + 2) / 5
}

/// The calendar month (1..=12) of month index `mp` (0 is March).
pub open spec fn month_of_index(mp: int) -> int {
    if mp < 10 { mp + 3 } else { mp - 9 }
}

/// The month index (0 is March) of calendar month `m`.
pub open spec fn index_of_month(m: int) -> int {
    if m > 2 { m - 3 } else { m + 9 }
}

pub(crate) open spec fn day_of_year_splits(doy: int) -> bool {
    let mp = month_index(doy);
    let day = doy - days_before_month_index(mp) + 1;
    let month = month_of_index(mp);
    &&& 0 <= mp <= 11
    &&& 1 <= day
    &&& day <= month_length(1, month) || (month == 2 && day == 29 && doy == 365)
}

pub(crate) proof fn lemma_day_of_year_splits(doy: int)
    requires
        0 <= doy <= 365,
    ensures
        day_of_year_splits(doy),
{
    let b = days_before_month_index(month_index(doy));
    if doy < 31 {
        assert(month_index(doy) == 0 && b == 0);
    } else if doy < 61 {
        assert(month_index(doy) == 1 && b == 31);
    } else if doy < 92 {
        assert(month_index(doy) == 2 && b == 61);
    } else if doy < 122 {
        assert(month_index(doy) == 3 && b == 92);
    } else if doy < 153 {
        assert(month_index(doy) == 4 && b == 122);
    } else if doy < 184 {
        assert(month_index(doy) == 5 && b == 153);
    } else if doy < 214 {
        assert(month_index(doy) == 6 && b == 184);
    } else if doy < 245 {
        assert(month_index(doy) == 7 && b == 214);
    } else if doy < 275 {
        assert(month_index(doy) == 8 && b == 245);
    } else if doy < 306 {
        assert(month_index(doy) == 9 && b == 275);
    } else if doy < 337 {
        assert(month_index(doy) == 10 && b == 306);
    } else {
        assert(month_index(doy) == 11 && b == 337);
    }
}

/// The leap-year rule repeats every 400 years.
pub(crate) proof fn lemma_leap_period(x: int, e: int)
    ensures
        is_leap(x + 400 * e) == is_leap(x),
{
    let y = x + 400 * e;
    assert(y % 4 == x % 4 && y % 100 == x % 100 && y % 400 == x % 400) by (nonlinear_arith)
        requires
            y == x + 400 * e,
    ;
}

/// Days from 0000-03-01 to the first of March of year `yp`, by eras.
pub(crate) proof fn lemma_era_days(yp: int)
    requires
        -1 <= yp,
    ensures
        (yp / 400) * 146097 + era_days_before(yp - (yp / 400) * 400) == days_before_year(
            (yp + 1) as nat,
        ) - 366,
{
    let e = yp / 400;
    let r = yp - e * 400;
    assert(0 <= r < 400);
    assert((yp + 4) / 4 == 100 * e + r / 4 + 1);
    assert((yp + 100) / 100 == 4 * e + r / 100 + 1);
    assert((yp + 400) / 400 == e + 1);
    lemma_days_before_year_closed((yp + 1) as nat);
}

/// Days before month `m` of year `y`, from the days before its month index.
pub(crate) proof fn lemma_days_before_month(y: int, m: int)
    requires
        1 <= m <= 12,
    ensures
        days_before_month(y, m as nat) == days_before_month_index(index_of_month(m)) - 306 + (
        if m > 2 {
            year_length(y)
        } else {
            0
        }),
{
    reveal_with_fuel(days_before_month, 13);
}

/// The era arithmetic on a valid date counts its days from 1970-01-01.
pub(crate) proof fn lemma_days_from_civil(
    year: int,
    month: int,
    day: int,
    yp: int,
    era: int,
    yoe: int,
    doy: int,
    doe: int,
)
    requires
        0 <= year,
        valid_date(year, month, day),
        yp == if month <= 2 { year - 1 } else { year },
        era == yp / 400,
        yoe == yp - era * 400,
        doy == days_before_month_index(index_of_month(month)) + day - 1,
        doe == era_days_before(yoe) + doy,
    ensures
        era * 146097 + doe - 719468 == days_from_epoch(year as nat, month as nat, day as nat),
{
    lemma_days_before_year_closed(1970);
    lemma_era_days(yp);
    lemma_days_before_month(year, month);
    if month > 2 {
        assert(days_before_year((yp + 1) as nat) == days_before_year(year as nat) + year_length(
            year,
        ));
    }
}

/// The era arithmetic takes day `z` counted from 0000-03-01 to a valid
/// date whose count of days from 1970-01-01 is `z - 719468`.
pub(crate) proof fn lemma_civil_from_days(
    z: int,
    era: int,
    doe: int,
    yoe: int,
    doy: int,
    mp: int,
    day: int,
    month: int,
    year: int,
)
    requires
        0 <= z,
        era == z / 146097,
        doe == z - era * 146097,
        yoe == year_of_era(doe),
        doy == doe - era_days_before(yoe),
        mp == month_index(doy),
        day == doy - days_before_month_index(mp) + 1,
        month == month_of_index(mp),
        year == yoe + era * 400 + if month <= 2 { 1int } else { 0 },
    ensures
        0 <= yoe < 400,
        0 <= doy <= 365,
        0 <= mp <= 11,
        0 <= year,
        valid_date(year, month, day),
        days_from_epoch(year as nat, month as nat, day as nat) == z - 719468,
{
    lemma_year_of_era(doe);
    lemma_day_of_year_splits(doy);
    if month <= 2 {
        lemma_leap_period(yoe + 1, era);
    }
    let yp = if month <= 2 { year - 1 } else { year };
    assert(yp / 400 == era);
    lemma_days_from_civil(year, month, day, yp, era, yoe, doy, doe);
}

/// Days before a year grow with the year.
pub proof fn lemma_days_before_year_monotone(a: nat, b: nat)
    requires
        a <= b,
    ensures
        days_before_year(a) <= days_before_year(b),
    decreases b - a,
{
    if a < b {
        lemma_days_before_year_monotone(a, (b - 1) as nat);
    }
}

/// A valid date lies within its year.
pub proof fn lemma_day_within_year(y: int, m: int, d: int)
    requires
        valid_date(y, m, d),
    ensures
        0 <= days_before_month(y, m as nat) + d - 1 < year_length(y),
{
    lemma_days_before_month(y, m);
}

/// A date whose day count from 1970-01-01 is below that of 65536-01-01
/// lies in a year that fits in 16 bits.
pub(crate) proof fn lemma_year_below_65536(y: int, m: int, d: int)
    requires
        0 <= y,
        valid_date(y, m, d),
        days_from_epoch(y as nat, m as nat, d as nat) < 23217004,
    ensures
        y <= 65535,
{
    lemma_day_within_year(y, m, d);
    lemma_days_before_year_closed(65536);
    lemma_days_before_year_closed(1970);
    if y > 65535 {
        lemma_days_before_year_monotone(65536, y as nat);
    }
}

/// A count of seconds within a day splits into hours, minutes and seconds.
pub(crate) proof fn lemma_time_of_day(secs: int)
    requires
        0 <= secs,
    ensures
        secs == secs / 86400 * 86400 + (secs % 86400 / 3600) * 3600 + (secs % 3600 / 60) * 60 + secs % 60,
        secs % 86400 / 3600 <= 23,
        secs % 3600 / 60 <= 59,
        (secs % 86400) % 3600 == secs % 3600,
        (secs % 86400) % 60 == secs % 60,
{
    let q = secs / 86400;
    let r = secs % 86400;
    let h = r / 3600;
    assert(secs % 3600 == r % 3600) by (nonlinear_arith)
        requires
            secs == q * 86400 + r,
            0 <= r < 86400,
    {
        assert(secs == (q * 24 + r / 3600) * 3600 + r % 3600);
    }
    assert(secs % 60 == r % 60) by (nonlinear_arith)
        requires
            secs == q * 86400 + r,
            0 <= r < 86400,
    {
        assert(secs == (q * 1440 + r / 60) * 60 + r % 60);
    }
}

/// A valid date of a year from 1970 to 65535 lies between 1970-01-01 and
/// 65535-12-31.
pub(crate) proof fn lemma_epoch_days_range(y: int, m: int, d: int)
    requires
        1970 <= y <= 65535,
        valid_date(y, m, d),
    ensures
        0 <= days_from_epoch(y as nat, m as nat, d as nat) < 23217004,
{
    lemma_day_within_year(y, m, d);
    lemma_days_before_year_closed(65536);
    lemma_days_before_year_closed(1970);
    lemma_days_before_year_monotone(1970, y as nat);
    lemma_days_before_year_monotone((y + 1) as nat, 65536);
}

/// A valid date before 1970 lies before 1970-01-01.
pub(crate) proof fn lemma_before_1970(y: int, m: int, d: int)
    requires
        0 <= y < 1970,
        valid_date(y, m, d),
    ensures
        days_from_epoch(y as nat, m as nat, d as nat) < 0,
{
    lemma_day_within_year(y, m, d);
    lemma_days_before_year_monotone((y + 1) as nat, 1970);
}

/// Days before a later month of a year include the whole earlier month.
pub proof fn lemma_days_before_month_monotone(y: int, m1: nat, m2: nat)
    requires
        1 <= m1 < m2,
    ensures
        days_before_month(y, m1) + month_length(y, m1 as int) <= days_before_month(y, m2),
    decreases m2,
{
    if m1 + 1 < m2 {
        lemma_days_before_month_monotone(y, m1, (m2 - 1) as nat);
    }
}

/// Day counts follow the order of dates: a date earlier by year, then
/// month, then day has the smaller count.
pub proof fn lemma_date_order(y1: nat, m1: nat, d1: nat, y2: nat, m2: nat, d2: nat)
    requires
        valid_date(y1 as int, m1 as int, d1 as int),
        valid_date(y2 as int, m2 as int, d2 as int),
        y1 < y2 || (y1 == y2 && m1 < m2) || (y1 == y2 && m1 == m2 && d1 < d2),
    ensures
        days_from_epoch(y1, m1, d1) < days_from_epoch(y2, m2, d2),
{
    lemma_day_within_year(y1 as int, m1 as int, d1 as int);
    lemma_day_within_year(y2 as int, m2 as int, d2 as int);
    if y1 < y2 {
        lemma_days_before_year_monotone(y1 + 1, y2);
    } else if m1 < m2 {
        lemma_days_before_month_monotone(y1 as int, m1, m2);
    }
}

} // verus!
