//! Calendar arithmetic for the clock display.
//!
//! Timestamps are seconds since 1970-01-01 00:00 (the client adds its time zone
//! offset before calling in here), split into the proleptic Gregorian date, the
//! time of day and the weekday.

use vstd::prelude::*;

verus! {

/// Abbreviated weekday names, indexed by the weekday number (0 = Sunday).
pub const DOW_STR: [&'static str; 7] = ["Sun", "Mon", "Tue", "Wed", "Thu", "Fri", "Sat"];

// ── Calendar model ──────────────────────────────────────────────────────────

pub open spec fn is_leap_year(y: int) -> bool {
    y % 4 == 0 && (y % 100 != 0 || y % 400 == 0)
}

pub open spec fn days_in_month(y: int, m: int) -> int {
    if m == 2 {
        if is_leap_year(y) { 29 } else { 28 }
    } else if m == 4 || m == 6 || m == 9 || m == 11 {
        30
    } else {
        31
    }
}

/// Days of year `y` that lie before the first of month `m`.
pub open spec fn days_before_month(y: int, m: int) -> int {
    let common: int = if m <= 1 { 0 } else if m == 2 { 31 } else if m == 3 { 59 } else if m == 4 { 90 }
        else if m == 5 { 120 } else if m == 6 { 151 } else if m == 7 { 181 } else if m == 8 { 212 }
        else if m == 9 { 243 } else if m == 10 { 273 } else if m == 11 { 304 } else { 334 };
    if m > 2 && is_leap_year(y) { common + 1 } else { common }
}

/// Number of leap years among the years 1 ..= y - 1 (extended to all `y` by floor division).
pub open spec fn leap_years_before(y: int) -> int {
    (y - 1) / 4 - (y - 1) / 100 + (y - 1) / 400
}

/// Day number of the date `y-m-d`, counted from 1970-01-01 (day 0).
pub open spec fn days_from_civil(y: int, m: int, d: int) -> int {
    365 * (y - 1970) + leap_years_before(y) - leap_years_before(1970) + days_before_month(y, m) + d - 1
}

pub open spec fn is_valid_date(y: int, m: int, d: int) -> bool {
    1 <= m <= 12 && 1 <= d <= days_in_month(y, m)
}

/// The parts of the Unix timestamp `t`: the date and the time of day (hour,
/// minute, second) that add back up to `t`, and the weekday (0 = Sunday;
/// 1970-01-01 was a Thursday). Times before 1970 count back from the epoch.
pub open spec fn epoch_parts(t: int, p: (i32, u8, u8, u8, u8, u8, u8)) -> bool {
    let days = days_from_civil(p.0 as int, p.1 as int, p.2 as int);
    &&& is_valid_date(p.0 as int, p.1 as int, p.2 as int)
    &&& p.3 < 24
    &&& p.4 < 60
    &&& p.5 < 60
    &&& days * 86400 + p.3 * 3600 + p.4 * 60 + p.5 == t
    &&& p.6 as int == (days + 4) % 7
}

// ── Proofs about the conversion ─────────────────────────────────────────────

/// Splitting a day-of-era into year-of-era and day-of-year (years starting in March).
proof fn lemma_year_of_era(doe: u32)
    requires
        doe < 146097,
    ensures
        ({
            let yoe = (doe - doe / 1460 + doe / 36524 - doe / 146096) / 365;
            let base = 365 * yoe + yoe / 4 - yoe / 100;
            &&& yoe <= 399
            &&& base <= doe
            &&& doe - base <= 365
            &&& doe - base == 365 ==> (yoe + 1) % 4 == 0 && ((yoe + 1) % 100 != 0 || yoe == 399)
        }),
{
    assert({
        let yoe = (doe - doe / 1460 + doe / 36524 - doe / 146096) / 365;
        let base = 365 * yoe + yoe / 4 - yoe / 100;
        &&& yoe <= 399
        &&& base <= doe
        &&& doe - base <= 365
        &&& doe - base == 365 ==> (yoe + 1) % 4 == 0 && ((yoe + 1) % 100 != 0 || yoe == 399)
    }) by (bit_vector)
        requires
            doe < 146097,
    ;
}

/// Month and day within a March-based year.
proof fn lemma_month_of_year(doy: u32)
    requires
        doy <= 365,
    ensures
        ({
            let mp = (5 * doy + 2) / 153;
            let d = doy - (153 * mp + 2) / 5 + 1;
            &&& mp <= 11
            &&& (153 * mp + 2) / 5 <= doy
            &&& 1 <= d
            &&& (mp == 0 || mp == 2 || mp == 4 || mp == 5 || mp == 7 || mp == 9 || mp == 10) ==> d <= 31
            &&& (mp == 1 || mp == 3 || mp == 6 || mp == 8) ==> d <= 30
            &&& mp == 11 ==> d <= 29
            &&& mp == 11 && d == 29 ==> doy == 365
        }),
{
    assert({
        let mp = (5 * doy + 2) / 153;
        let d = doy - (153 * mp + 2) / 5 + 1;
        &&& mp <= 11
        &&& (153 * mp + 2) / 5 <= doy
        &&& 1 <= d
        &&& (mp == 0 || mp == 2 || mp == 4 || mp == 5 || mp == 7 || mp == 9 || mp == 10) ==> d <= 31
        &&& (mp == 1 || mp == 3 || mp == 6 || mp == 8) ==> d <= 30
        &&& mp == 11 ==> d <= 29
        &&& mp == 11 && d == 29 ==> doy == 365
    }) by (bit_vector)
        requires
            doy <= 365,
    ;
}

/// Leap days counted from the start of an era, for a year of era `yoe >= 1`.
proof fn lemma_leap_count_in_era(yoe: u32)
    requires
        1 <= yoe <= 399,
    ensures
        (yoe - 1) / 4 - (yoe - 1) / 100 + (if yoe % 4 == 0 && yoe % 100 != 0 { 1int } else { 0int })
            == yoe / 4 - yoe / 100,
{
    assert((yoe - 1) / 4 - (yoe - 1) / 100 + (if yoe % 4 == 0 && yoe % 100 != 0 { 1u32 } else { 0u32 })
            == yoe / 4 - yoe / 100) by (bit_vector)
        requires
            1 <= yoe <= 399,
    ;
}


/// Offset of the first of a March-based month `mp` within its year.
proof fn lemma_month_offsets(y: int, mp: int)
    requires
        0 <= mp <= 11,
    ensures
        mp < 10 ==> days_before_month(y, mp + 3) == 59 + (if is_leap_year(y) { 1int } else { 0int })
            + (153 * mp + 2) / 5,
        mp >= 10 ==> days_before_month(y, mp - 9) == (153 * mp + 2) / 5 - 306,
{
    if mp == 0 {} else if mp == 1 {} else if mp == 2 {} else if mp == 3 {} else if mp == 4 {}
    else if mp == 5 {} else if mp == 6 {} else if mp == 7 {} else if mp == 8 {} else if mp == 9 {}
    else if mp == 10 {} else {}
}

/// Leap years before year `400 * era + yoe`, split into whole eras and the rest.
#[verifier::spinoff_prover]
proof fn lemma_leap_years_before_era(era: int, yoe: int)
    requires
        0 <= yoe <= 399,
    ensures
        leap_years_before(400 * era + yoe) == 97 * era + (yoe - 1) / 4 - (yoe - 1) / 100 + (yoe - 1) / 400,
        is_leap_year(400 * era + yoe) == is_leap_year(yoe),
{
    let x = yoe - 1;
    assert((400 * era + x) / 4 == 100 * era + x / 4);
    assert((400 * era + x) / 100 == 4 * era + x / 100);
    assert((400 * era + x) / 400 == era + x / 400);
    assert((400 * era + yoe) % 4 == yoe % 4);
    assert((400 * era + yoe) % 100 == yoe % 100);
    assert((400 * era + yoe) % 400 == yoe % 400);
}

/// The date assembled from era, year of era, day of year and March-based month
/// is a valid date whose day number is the one it was taken from.
proof fn lemma_civil_assembly(era: int, yoe: int, doy: int, mp: int, d: int)
    requires
        0 <= yoe <= 399,
        0 <= doy <= 365,
        doy == 365 ==> (yoe + 1) % 4 == 0 && ((yoe + 1) % 100 != 0 || yoe == 399),
        0 <= mp <= 11,
        (153 * mp + 2) / 5 <= doy,
        d == doy - (153 * mp + 2) / 5 + 1,
        1 <= d,
        (mp == 0 || mp == 2 || mp == 4 || mp == 5 || mp == 7 || mp == 9 || mp == 10) ==> d <= 31,
        (mp == 1 || mp == 3 || mp == 6 || mp == 8) ==> d <= 30,
        mp == 11 ==> d <= 29,
        mp == 11 && d == 29 ==> doy == 365,
    ensures
        ({
            let m = if mp < 10 { mp + 3 } else { mp - 9 };
            let y = if m <= 2 { 400 * era + yoe + 1 } else { 400 * era + yoe };
            &&& is_valid_date(y, m, d)
            &&& days_from_civil(y, m, d) == 146097 * era + 365 * yoe + yoe / 4 - yoe / 100 + doy - 719468
        }),
{
    let big_y = 400 * era + yoe;
    lemma_leap_years_before_era(era, yoe);
    lemma_month_offsets(big_y, mp);
    lemma_month_offsets(big_y + 1, mp);
    assert(leap_years_before(1970) == 477);
    // Leap days of the era before the March that starts year `big_y`.
    if yoe == 0 {
        assert((yoe - 1) / 4 - (yoe - 1) / 100 + (yoe - 1) / 400 == -1);
    } else {
        lemma_leap_count_in_era(yoe as u32);
    }
    assert((yoe - 1) / 4 - (yoe - 1) / 100 + (yoe - 1) / 400 + (if is_leap_year(yoe) { 1int } else { 0int })
        == yoe / 4 - yoe / 100);
    // `big_y + 1` is a leap year exactly when the year of era after `yoe` is.
    if yoe == 399 {
        lemma_leap_years_before_era(era + 1, 0);
        assert(400 * (era + 1) + 0 == big_y + 1);
    } else {
        lemma_leap_years_before_era(era, yoe + 1);
    }
    // Leap years before `big_y + 1`.
    assert(leap_years_before(big_y + 1) == leap_years_before(big_y) + (if is_leap_year(big_y) { 1int } else { 0int })) by {
        let x = big_y - 1;
        assert(big_y / 4 == x / 4 + (if big_y % 4 == 0 { 1int } else { 0int }));
        assert(big_y / 100 == x / 100 + (if big_y % 100 == 0 { 1int } else { 0int }));
        assert(big_y / 400 == x / 400 + (if big_y % 400 == 0 { 1int } else { 0int }));
    }
}


// ── Laws of the calendar and of the conversion ───────────────────────────────

/// The date after `y-m-d`.
pub open spec fn next_date(y: int, m: int, d: int) -> (int, int, int) {
    if d < days_in_month(y, m) {
        (y, m, d + 1)
    } else if m < 12 {
        (y, m + 1, 1)
    } else {
        (y + 1, 1, 1)
    }
}

/// Day 0 is 1970-01-01.
pub proof fn lemma_day_zero_is_unix_epoch()
    ensures
        days_from_civil(1970, 1, 1) == 0,
        is_valid_date(1970, 1, 1),
{
    assert(leap_years_before(1970) == 477);
}

/// A year has one more leap year before its successor exactly when it is a leap year.
proof fn lemma_leap_years_step(y: int)
    ensures
        leap_years_before(y + 1) == leap_years_before(y) + (if is_leap_year(y) { 1int } else { 0int }),
{
    let x = y - 1;
    assert(y / 4 == x / 4 + (if y % 4 == 0 { 1int } else { 0int }));
    assert(y / 100 == x / 100 + (if y % 100 == 0 { 1int } else { 0int }));
    assert(y / 400 == x / 400 + (if y % 400 == 0 { 1int } else { 0int }));
}

/// Consecutive dates have consecutive day numbers: the day numbering is the calendar's.
pub proof fn lemma_next_date(y: int, m: int, d: int)
    requires
        is_valid_date(y, m, d),
    ensures
        is_valid_date(next_date(y, m, d).0, next_date(y, m, d).1, next_date(y, m, d).2),
        days_from_civil(next_date(y, m, d).0, next_date(y, m, d).1, next_date(y, m, d).2)
            == days_from_civil(y, m, d) + 1,
{
    lemma_leap_years_step(y);
}

/// Day number of the first day of year `y`, and of the first day after it.
proof fn lemma_year_span(y: int, m: int, d: int)
    requires
        is_valid_date(y, m, d),
    ensures
        days_from_civil(y, 1, 1) <= days_from_civil(y, m, d) < days_from_civil(y + 1, 1, 1),
{
    lemma_leap_years_step(y);
}

proof fn lemma_year_start_monotone(y1: int, y2: int)
    requires
        y1 <= y2,
    ensures
        days_from_civil(y1, 1, 1) <= days_from_civil(y2, 1, 1),
    decreases y2 - y1,
{
    if y1 < y2 {
        lemma_year_start_monotone(y1, y2 - 1);
        lemma_leap_years_step(y2 - 1);
    }
}

/// Distinct valid dates have distinct day numbers, so a day number names one date.
pub proof fn lemma_date_of_day_is_unique(y1: int, m1: int, d1: int, y2: int, m2: int, d2: int)
    requires
        is_valid_date(y1, m1, d1),
        is_valid_date(y2, m2, d2),
        days_from_civil(y1, m1, d1) == days_from_civil(y2, m2, d2),
    ensures
        y1 == y2 && m1 == m2 && d1 == d2,
{
    lemma_year_span(y1, m1, d1);
    lemma_year_span(y2, m2, d2);
    if y1 < y2 {
        lemma_year_start_monotone(y1 + 1, y2);
    } else if y2 < y1 {
        lemma_year_start_monotone(y2 + 1, y1);
    }
    assert(y1 == y2);
    // Within one year, the months occupy disjoint ranges of day numbers.
    if m1 != m2 {
        assert(days_before_month(y1, m1) + d1 != days_before_month(y1, m2) + d2);
    }
}

/// A timestamp has one set of parts: the date, the time of day and the weekday
/// are determined by it.
pub proof fn lemma_epoch_parts_unique(t: int, p: (i32, u8, u8, u8, u8, u8, u8), q: (i32, u8, u8, u8, u8, u8, u8))
    requires
        epoch_parts(t, p),
        epoch_parts(t, q),
    ensures
        p == q,
{
    let dp = days_from_civil(p.0 as int, p.1 as int, p.2 as int);
    let dq = days_from_civil(q.0 as int, q.1 as int, q.2 as int);
    let sp = p.3 * 3600 + p.4 * 60 + p.5;
    let sq = q.3 * 3600 + q.4 * 60 + q.5;
    assert(0 <= sp < 86400 && 0 <= sq < 86400);
    assert(dp == dq) by {
        if dp < dq {
            assert(dp * 86400 + 86400 <= dq * 86400) by (nonlinear_arith)
                requires dp < dq;
        } else if dq < dp {
            assert(dq * 86400 + 86400 <= dp * 86400) by (nonlinear_arith)
                requires dq < dp;
        }
    }
    assert(sp == sq);
    lemma_date_of_day_is_unique(p.0 as int, p.1 as int, p.2 as int, q.0 as int, q.1 as int, q.2 as int);
    assert(p.3 == q.3);
    assert(p.4 == q.4);
}

// ── Conversion ───────────────────────────────────────────────────────────────

/// The proleptic Gregorian date of day number `days` (0 = 1970-01-01).
fn civil_from_days(days: i32) -> (r: (i32, u8, u8))
    requires
        -24856 <= days <= 24856,
    ensures
        is_valid_date(r.0 as int, r.1 as int, r.2 as int),
        days_from_civil(r.0 as int, r.1 as int, r.2 as int) == days,
{
    let z = days + 719468;
    // `z` is positive here, so `/` is the Euclidean quotient.
    let era = z / 146097;
    let doe = z - era * 146097;
    assert(4 <= era <= 5 && 0 <= doe < 146097) by {
        assert(0 <= z - era * 146097 < 146097);
    }
    proof {
        lemma_year_of_era(doe as u32);
    }
    let yoe = (doe - doe / 1460 + doe / 36524 - doe / 146096) / 365;
    let y = yoe + era * 400;
    let doy = doe - (365 * yoe + yoe / 4 - yoe / 100);
    proof {
        lemma_month_of_year(doy as u32);
    }
    let mp = (5 * doy + 2) / 153;
    let d = doy - (153 * mp + 2) / 5 + 1;
    let m = if mp < 10 { mp + 3 } else { mp - 9 };
    let y = if m <= 2 { y + 1 } else { y };
    proof {
        lemma_civil_assembly(era as int, yoe as int, doy as int, mp as int, d as int);
    }
    (y, m as u8, d as u8)
}

#[verifier::spinoff_prover]
/// Converts a Unix timestamp to (year, month 1-12, day 1-31, hour, min, sec,
/// weekday 0=Sun); times before 1970 give the dates before it.
pub fn epoch_to_parts(t: i32) -> (r: (i32, u8, u8, u8, u8, u8, u8))
    ensures
        epoch_parts(t as int, r),
{
    // Shifted by whole days so that the division is of a number >= 0, which
    // makes it floor division.
    let shifted: i64 = t as i64 + 86400 * 24856;
    let q: i64 = shifted / 86400;
    let sod: i64 = shifted % 86400;
    let days: i32 = (q - 24856) as i32;
    assert(t as int == days * 86400 + sod && 0 <= sod < 86400 && -24856 <= days <= 24856);

    let hour = (sod / 3600) as u8;
    let min = (sod % 3600 / 60) as u8;
    let sec = (sod % 60) as u8;
    assert(sod == hour * 3600 + min * 60 + sec && hour < 24 && min < 60 && sec < 60);

    let w: i32 = (days + 4 + 7 * 3600) % 7;
    proof {
        vstd::arithmetic::div_mod::lemma_mod_multiples_vanish(3600, days + 4, 7);
    }
    let dow = w as u8;

    let (y, m, d) = civil_from_days(days);
    (y, m, d, hour, min, sec, dow)
}

/// Whole seconds from `base_ms` to `now_ms` as the client counts them: none if
/// the millisecond counter is behind, and taken as an `i32` (wrapping).
pub open spec fn elapsed_secs(base_ms: u64, now_ms: u64) -> i32 {
    if now_ms >= base_ms { ((now_ms - base_ms) / 1000) as i32 } else { 0 }
}

/// The clock counts the whole seconds since the synchronisation: none while the
/// millisecond counter is behind it, and otherwise `e` with
/// `e * 1000 <= now_ms - base_ms < e * 1000 + 1000`, while that fits an `i32`.
pub proof fn lemma_elapsed_whole_seconds(base_ms: u64, now_ms: u64)
    ensures
        now_ms < base_ms ==> elapsed_secs(base_ms, now_ms) == 0,
        now_ms >= base_ms && now_ms - base_ms < 1000 * 0x8000_0000 ==> {
            let e = elapsed_secs(base_ms, now_ms) as int;
            &&& e * 1000 <= now_ms - base_ms
            &&& now_ms - base_ms < e * 1000 + 1000
        },
{
    if now_ms >= base_ms && now_ms - base_ms < 1000 * 0x8000_0000 {
        let x = (now_ms - base_ms) as int;
        vstd::arithmetic::div_mod::lemma_fundamental_div_mod(x, 1000);
        assert(x / 1000 < 0x8000_0000);
        assert(elapsed_secs(base_ms, now_ms) as int == x / 1000);
    }
}

/// The clock does not go back and gains a second for every 1000 ms: between
/// two readings at or after the synchronisation, the later one counts at least
/// as many seconds, and at least one more once 1000 ms lie between them.
pub proof fn lemma_clock_advances(base_ms: u64, now1: u64, now2: u64)
    requires
        base_ms <= now1 <= now2,
        now2 - base_ms < 1000 * 0x8000_0000,
    ensures
        elapsed_secs(base_ms, now1) <= elapsed_secs(base_ms, now2),
        now2 - now1 >= 1000 ==> elapsed_secs(base_ms, now1) + 1 <= elapsed_secs(base_ms, now2),
{
    lemma_elapsed_whole_seconds(base_ms, now1);
    lemma_elapsed_whole_seconds(base_ms, now2);
    let e1 = elapsed_secs(base_ms, now1) as int;
    let e2 = elapsed_secs(base_ms, now2) as int;
    if e2 < e1 {
        assert(e2 * 1000 + 1000 <= e1 * 1000) by (nonlinear_arith)
            requires e2 < e1;
    }
    if now2 - now1 >= 1000 && e2 < e1 + 1 {
        assert(e2 * 1000 <= e1 * 1000) by (nonlinear_arith)
            requires e2 <= e1;
    }
}

/// The clock `now_ms` milliseconds into the run, given that the timestamp
/// `base_secs` was synchronised at `base_ms`; 2000-01-01 00:00 (a Sunday in the
/// display) while nothing has been synchronised (`base_secs == 0`).
pub fn current_time_at(base_secs: i32, base_ms: u64, now_ms: u64) -> (r: (i32, u8, u8, u8, u8, u8, u8))
    requires
        base_secs != 0 ==> i32::MIN <= base_secs + elapsed_secs(base_ms, now_ms) <= i32::MAX,
    ensures
        base_secs == 0 ==> r == (2000i32, 1u8, 1u8, 0u8, 0u8, 0u8, 0u8),
        base_secs != 0 ==> epoch_parts(base_secs + elapsed_secs(base_ms, now_ms), r),
{
    if base_secs == 0 {
        return (2000, 1, 1, 0, 0, 0, 0);
    }
    let elapsed = if now_ms >= base_ms { ((now_ms - base_ms) / 1000) as i32 } else { 0 };
    epoch_to_parts(base_secs + elapsed)
}

} // verus!
