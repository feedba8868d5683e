//! The current year, from the system clock: days since 1970-01-01 turned into a
//! year of the Gregorian calendar.
use vstd::prelude::*;

verus! {

/// The number of days from 0000-03-01 to March 1st of year `y`: 365 a year, plus
/// one for each February 29th in between (years divisible by 4, except centuries
/// not divisible by 400).
pub open spec fn march_year_start(y: int) -> int {
    365 * y + y / 4 - y / 100 + y / 400
}

/// The day, counted from 1970-01-01 (day 0), on which year `y` begins: March 1st
/// of the year before, plus the 306 days from March 1st to January 1st.
pub open spec fn year_start(y: int) -> int {
    march_year_start(y - 1) + 306 - 719468
}

/// Day `day` (counted from 1970-01-01) falls in year `y`.
pub open spec fn in_year(day: int, y: int) -> bool {
    year_start(y) <= day < year_start(y + 1)
}

/// The year day `day` falls in.
pub open spec fn year_of_day(day: int) -> int {
    choose|y: int| in_year(day, y)
}

proof fn lemma_year_length(y: int)
    ensures
        365 <= year_start(y + 1) - year_start(y) <= 366,
{
}

proof fn lemma_year_start_monotone(a: int, b: int)
    requires
        a <= b,
    ensures
        year_start(a) <= year_start(b),
        a < b ==> year_start(a + 1) <= year_start(b),
    decreases b - a,
{
    if a < b {
        lemma_year_length(b - 1);
        lemma_year_start_monotone(a, b - 1);
    }
}

/// Every day falls in exactly one year.
pub proof fn lemma_year_unique(day: int, y1: int, y2: int)
    requires
        in_year(day, y1),
        in_year(day, y2),
    ensures
        y1 == y2,
{
    if y1 < y2 {
        lemma_year_start_monotone(y1, y2);
    }
    if y2 < y1 {
        lemma_year_start_monotone(y2, y1);
    }
}

/// Within a cycle of 400 years (146097 days), day `x` falls in the March-based
/// year that the estimate below gives.
#[verifier::rlimit(100)]
proof fn lemma_year_of_era(x: u32)
    requires
        x < 146097,
    ensures
        ({
            let yoe = (x - x / 1460 + x / 36524 - x / 146096) / 365;
            &&& 0 <= yoe <= 399
            &&& march_year_start(yoe) <= x < march_year_start(yoe + 1)
        }),
{
    assert(x < 146097 ==> (x - x / 1460 + x / 36524 - x / 146096) / 365 <= 399) by (bit_vector);
    assert(x < 146097 ==> ({
        let yoe = (x - x / 1460 + x / 36524 - x / 146096) / 365;
        365 * yoe + yoe / 4 - yoe / 100 <= x
    })) by (bit_vector);
    assert(x < 146097 ==> ({
        let yoe = (x - x / 1460 + x / 36524 - x / 146096) / 365;
        x < 365 * (yoe + 1) + (yoe + 1) / 4 - (yoe + 1) / 100 + (yoe + 1) / 400
    })) by (bit_vector);
}

/// The March-based year and the day in it that Hinnant's estimate gives for a day
/// counted from 0000-03-01.
proof fn lemma_march_year(z: int, era: int, doe: int, yoe: int)
    requires
        era == z / 146097,
        doe == z - era * 146097,
        0 <= yoe <= 399,
        march_year_start(yoe) <= doe < march_year_start(yoe + 1),
    ensures
        march_year_start(yoe + era * 400) <= z < march_year_start(yoe + era * 400 + 1),
        doe - (365 * yoe + yoe / 4 - yoe / 100) == z - march_year_start(yoe + era * 400),
{
    assert(march_year_start(yoe + 400 * era) == march_year_start(yoe) + 146097 * era);
    assert(march_year_start(yoe + 1 + 400 * era) == march_year_start(yoe + 1) + 146097 * era);
}

/// From the March-based year of a day to its year.
proof fn lemma_civil_year(days: int, y: int, doy: int)
    requires
        march_year_start(y) <= days + 719468 < march_year_start(y + 1),
        doy == days + 719468 - march_year_start(y),
    ensures
        doy >= 306 ==> in_year(days, y + 1),
        doy < 306 ==> in_year(days, y),
{
    lemma_year_length(y);
    lemma_year_length(y + 1);
}

/// Days since 1970-01-01 as the clock reading gives them: whole days of the
/// seconds read as a signed number (`secs as i64 / 86_400`, dividing toward zero),
/// or day 0 when the clock could not be read.
pub open spec fn unix_days_spec(secs: Option<u64>) -> int {
    match secs {
        Some(s) => if s <= i64::MAX {
            (s / 86400) as int
        } else {
            -((18446744073709551616 - s) / 86400)
        },
        None => 0,
    }
}

/// The days a clock reading stands for.
pub fn unix_days(secs: Option<u64>) -> (days: i64)
    ensures
        days == unix_days_spec(secs),
        -106751991167301 <= days <= 106751991167300,
{
    match secs {
        Some(s) => if s <= 9223372036854775807 {
            (s / 86400) as i64
        } else {
            let back: u64 = u64::MAX - s + 1;
            -((back / 86400) as i64)
        },
        None => 0,
    }
}

/// The year (Gregorian calendar, years counted as integers) that day `days` falls
/// in, where day 0 is 1970-01-01; as an `i32`, which wraps only past two billion
/// years.
#[verifier::rlimit(50)]
#[verifier::spinoff_prover]
pub fn year_from_unix_days(days: i64) -> (year: i32)
    requires
        -106751991167301 <= days <= 106751991167300,
    ensures
        in_year(days as int, year_of_day(days as int)),
        year == year_of_day(days as int) as i32,
{
    let z = days + 719_468;
    let era = if z >= 0 { z } else { z - 146_096 } / 146_097;
    let doe = z - era * 146_097;
    let yoe = (doe - doe / 1_460 + doe / 36_524 - doe / 146_096) / 365;
    let y = yoe + era * 400;
    let doy = doe - (365 * yoe + yoe / 4 - yoe / 100);
    let mp = (5 * doy + 2) / 153;
    let m = mp + if mp < 10 { 3 } else { -9 };
    let civil = y + if m <= 2 { 1 } else { 0 };
    proof {
        assert(era as int == z as int / 146097);
        lemma_year_of_era(doe as u32);
        lemma_march_year(z as int, era as int, doe as int, yoe as int);
        lemma_civil_year(days as int, y as int, doy as int);
        assert((m <= 2) == (doy >= 306));
        lemma_year_unique(days as int, civil as int, year_of_day(days as int));
    }
    civil as i32
}

#[verifier::external_type_specification]
#[verifier::external_body]
pub struct ExSystemTime(std::time::SystemTime);

/// `SystemTime::now`: the system clock's reading. Nothing is stated of it: it is
/// the time.
#[verifier::external_body]
fn system_now() -> (now: std::time::SystemTime) {
    std::time::SystemTime::now()
}

/// `SystemTime::duration_since(UNIX_EPOCH)`: how long after 1970-01-01 00:00:00 UTC
/// the reading is, or nothing for a reading before it. Nothing is stated of the
/// duration.
#[verifier::external_body]
fn duration_since_epoch(t: std::time::SystemTime) -> (d: Option<std::time::Duration>) {
    t.duration_since(std::time::UNIX_EPOCH).ok()
}

/// `Duration::as_secs`: the whole seconds of a duration. A duration is opaque
/// here, so nothing is stated of the number.
#[verifier::external_body]
fn duration_secs(d: &std::time::Duration) -> (secs: u64) {
    d.as_secs()
}

/// Seconds since 1970-01-01 00:00:00 UTC on the system clock, if it can be read.
fn unix_time_secs() -> (secs: Option<u64>) {
    match duration_since_epoch(system_now()) {
        Some(d) => Some(duration_secs(&d)),
        None => None,
    }
}

/// The current year in UTC, from the system clock (1970 when it cannot be read).
pub fn current_year_utc() -> (year: i32)
    ensures
        exists|secs: Option<u64>| year == year_of_day(#[trigger] unix_days_spec(secs)) as i32,
{
    let secs = unix_time_secs();
    let days = unix_days(secs);
    let year = year_from_unix_days(days);
    assert(year == year_of_day(unix_days_spec(secs)) as i32);
    year
}

} // verus!
