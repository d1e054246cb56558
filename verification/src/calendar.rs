//! Proleptic Gregorian calendar dates of day counts since 1970-01-01, and
//! the `YYYY-MM-DD HH:MM` timestamp shown on save slots.

use vstd::prelude::*;
use vstd::arithmetic::div_mod::{lemma_fundamental_div_mod, lemma_fundamental_div_mod_converse};
use crate::numfmt::{push_zero_padded, zero_padded};
use crate::strings::push_char;

verus! {

pub open spec fn is_leap_year(year: int) -> bool {
    year % 4 == 0 && (year % 100 != 0 || year % 400 == 0)
}

pub open spec fn days_in_month(year: int, month: int) -> int {
    if month == 2 {
        if is_leap_year(year) { 29 } else { 28 }
    } else if month == 4 || month == 6 || month == 9 || month == 11 {
        30
    } else {
        31
    }
}

/// Days of the year before the first of `month`.
pub open spec fn days_before_month(year: int, month: int) -> int {
    let common: int = if month <= 1 {
        0
    } else if month == 2 {
        31
    } else if month == 3 {
        59
    } else if month == 4 {
        90
    } else if month == 5 {
        120
    } else if month == 6 {
        151
    } else if month == 7 {
        181
    } else if month == 8 {
        212
    } else if month == 9 {
        243
    } else if month == 10 {
        273
    } else if month == 11 {
        304
    } else {
        334
    };
    common + if month > 2 && is_leap_year(year) { 1int } else { 0int }
}

/// Leap years among the years `1 ..= year - 1` (negated for years before
/// year 1): every fourth year, except centuries, except every fourth
/// century.
pub open spec fn leap_years_before(year: int) -> int {
    (year - 1) / 4 - (year - 1) / 100 + (year - 1) / 400
}

/// The day count since 1970-01-01 of the date `year-month-day`.
pub open spec fn days_from_civil(year: int, month: int, day: int) -> int {
    365 * (year - 1970) + leap_years_before(year) - leap_years_before(1970) + days_before_month(year, month) + day
        - 1
}

pub open spec fn valid_date(year: int, month: int, day: int) -> bool {
    1 <= month <= 12 && 1 <= day <= days_in_month(year, month)
}

proof fn lemma_year_of_era(doe: u32, yoe: u32, next: u32)
    by (bit_vector)
    requires
        doe <= 146096,
        yoe == (doe - doe / 1460 + doe / 36524 - doe / 146096) / 365,
        next == yoe + 1,
    ensures
        yoe <= 399,
        365 * yoe + yoe / 4 - yoe / 100 <= doe,
        doe < 365 * next + next / 4 - next / 100 + next / 400,
{
}

proof fn lemma_month_of_year(doy: u32, mp: u32)
    by (bit_vector)
    requires
        doy <= 365,
        mp == (5 * doy + 2) / 153,
    ensures
        mp <= 11,
{
}

/// Leap years before year `400 * era + k + 1`, for a year `k` of an era.
proof fn lemma_leap_years_in_era(era: int, k: int)
    requires
        0 <= k <= 399,
    ensures
        leap_years_before(400 * era + k + 1) == 97 * era + k / 4 - k / 100,
{
    lemma_fundamental_div_mod(k, 4);
    lemma_fundamental_div_mod(k, 100);
    lemma_fundamental_div_mod_converse(400 * era + k, 4, 100 * era + k / 4, k % 4);
    lemma_fundamental_div_mod_converse(400 * era + k, 100, 4 * era + k / 100, k % 100);
    lemma_fundamental_div_mod_converse(400 * era + k, 400, era, k);
}

/// Whether year `400 * era + k` is leap depends on `k` alone.
proof fn lemma_leap_year_in_era(era: int, k: int)
    requires
        0 <= k <= 400,
    ensures
        is_leap_year(400 * era + k) == is_leap_year(k),
{
    lemma_fundamental_div_mod(k, 4);
    lemma_fundamental_div_mod(k, 100);
    lemma_fundamental_div_mod(k, 400);
    lemma_fundamental_div_mod_converse(400 * era + k, 4, 100 * era + k / 4, k % 4);
    lemma_fundamental_div_mod_converse(400 * era + k, 100, 4 * era + k / 100, k % 100);
    lemma_fundamental_div_mod_converse(400 * era + k, 400, era + k / 400, k % 400);
}

/// The length of March-based year `k - 1` of an era (March of year
/// `k - 1` to the end of February of year `k`) exceeds 365 days exactly
/// when year `k` is leap.
proof fn lemma_era_year_length(k: int)
    requires
        1 <= k <= 400,
    ensures
        (365 * k + k / 4 - k / 100 + k / 400) - (365 * (k - 1) + (k - 1) / 4 - (k - 1) / 100) == if is_leap_year(k) {
            366int
        } else {
            365int
        },
{
    lemma_fundamental_div_mod(k, 4);
    lemma_fundamental_div_mod(k, 100);
    lemma_fundamental_div_mod(k, 400);
    lemma_fundamental_div_mod(k - 1, 4);
    lemma_fundamental_div_mod(k - 1, 100);
    if k % 4 == 0 {
        lemma_fundamental_div_mod_converse(k - 1, 4, k / 4 - 1, 3);
    } else {
        lemma_fundamental_div_mod_converse(k - 1, 4, k / 4, k % 4 - 1);
    }
    if k % 100 == 0 {
        lemma_fundamental_div_mod_converse(k - 1, 100, k / 100 - 1, 99);
    } else {
        lemma_fundamental_div_mod_converse(k - 1, 100, k / 100, k % 100 - 1);
    }
    if k < 400 {
        lemma_fundamental_div_mod_converse(k, 400, 0, k);
    } else {
        lemma_fundamental_div_mod_converse(k, 400, 1, 0);
    }
}

/// Each year adds one to the leap-year count exactly when it is leap.
proof fn lemma_leap_years_step(year: int)
    ensures
        leap_years_before(year + 1) - leap_years_before(year) == if is_leap_year(year) { 1int } else { 0int },
{
    lemma_fundamental_div_mod(year, 4);
    lemma_fundamental_div_mod(year, 100);
    lemma_fundamental_div_mod(year, 400);
    if year % 4 == 0 {
        lemma_fundamental_div_mod_converse(year - 1, 4, year / 4 - 1, 3);
    } else {
        lemma_fundamental_div_mod_converse(year - 1, 4, year / 4, year % 4 - 1);
    }
    if year % 100 == 0 {
        lemma_fundamental_div_mod_converse(year - 1, 100, year / 100 - 1, 99);
    } else {
        lemma_fundamental_div_mod_converse(year - 1, 100, year / 100, year % 100 - 1);
    }
    if year % 400 == 0 {
        lemma_fundamental_div_mod_converse(year - 1, 400, year / 400 - 1, 399);
    } else {
        lemma_fundamental_div_mod_converse(year - 1, 400, year / 400, year % 400 - 1);
    }
}

/// The date arithmetic of `civil_from_days`, from the era decomposition
/// of the day count to a valid date with that day count.
proof fn lemma_civil_date(
    days: int,
    era: int,
    doe: int,
    yoe: int,
    doy: int,
    mp: int,
    day: int,
    month: int,
    year: int,
)
    requires
        era * 146097 + doe == days + 719468,
        0 <= doe <= 146096,
        0 <= yoe <= 399,
        365 * yoe + yoe / 4 - yoe / 100 <= doe,
        doe < 365 * (yoe + 1) + (yoe + 1) / 4 - (yoe + 1) / 100 + (yoe + 1) / 400,
        doy == doe - (365 * yoe + yoe / 4 - yoe / 100),
        0 <= mp <= 11,
        mp == (5 * doy + 2) / 153,
        day == doy - (153 * mp + 2) / 5 + 1,
        month == if mp < 10 { mp + 3 } else { mp - 9 },
        year == 400 * era + yoe + if month <= 2 { 1int } else { 0int },
    ensures
        valid_date(year, month, day),
        days_from_civil(year, month, day) == days,
{
    lemma_era_year_length(yoe + 1);
    lemma_fundamental_div_mod(5 * doy + 2, 153);
    assert(leap_years_before(1970) == 477);
    if month <= 2 {
        lemma_leap_year_in_era(era, yoe + 1);
        lemma_leap_years_in_era(era, yoe);
    } else {
        lemma_leap_year_in_era(era, yoe);
        lemma_leap_years_in_era(era, yoe);
        lemma_leap_years_step(year);
    }
    if mp == 0 {
    } else if mp == 1 {
    } else if mp == 2 {
    } else if mp == 3 {
    } else if mp == 4 {
    } else if mp == 5 {
    } else if mp == 6 {
    } else if mp == 7 {
    } else if mp == 8 {
    } else if mp == 9 {
    } else if mp == 10 {
    } else {
    }
}

/// The day count of 1 January of `year`.
pub open spec fn year_start(year: int) -> int {
    days_from_civil(year, 1, 1)
}

proof fn lemma_year_start_step(year: int)
    ensures
        year_start(year + 1) - year_start(year) == if is_leap_year(year) { 366int } else { 365int },
{
    lemma_leap_years_step(year);
}

proof fn lemma_year_start_increasing(a: int, b: int)
    requires
        a < b,
    ensures
        year_start(a + 1) <= year_start(b),
    decreases b - a,
{
    if b > a + 1 {
        lemma_year_start_increasing(a, b - 1);
        lemma_year_start_step(b - 1);
    }
}

/// A valid date lies within its year: from 1 January of its year up to
/// (not including) 1 January of the next.
proof fn lemma_date_within_year(year: int, month: int, day: int)
    requires
        valid_date(year, month, day),
    ensures
        year_start(year) <= days_from_civil(year, month, day) < year_start(year + 1),
{
    lemma_year_start_step(year);
}

/// Distinct valid dates have distinct day counts.
pub proof fn lemma_days_from_civil_injective(y1: int, m1: int, d1: int, y2: int, m2: int, d2: int)
    requires
        valid_date(y1, m1, d1),
        valid_date(y2, m2, d2),
        days_from_civil(y1, m1, d1) == days_from_civil(y2, m2, d2),
    ensures
        y1 == y2 && m1 == m2 && d1 == d2,
{
    lemma_date_within_year(y1, m1, d1);
    lemma_date_within_year(y2, m2, d2);
    if y1 < y2 {
        lemma_year_start_increasing(y1, y2);
    } else if y2 < y1 {
        lemma_year_start_increasing(y2, y1);
    }
    assert(y1 == y2);
    assert(m1 == m2);
}

/// The valid date whose day count is `days`.
pub open spec fn civil_date(days: int) -> (int, int, int) {
    choose|date: (int, int, int)| valid_date(date.0, date.1, date.2) && days_from_civil(date.0, date.1, date.2) == days
}

/// The date `(year, month, day)` of the day `days_since_epoch` days after
/// 1970-01-01 (before it, for a negative count), in the proleptic
/// Gregorian calendar.
pub fn civil_from_days(days_since_epoch: i64) -> (date: (i64, u32, u32))
    requires
        days_since_epoch + 719_468 <= i64::MAX,
    ensures
        valid_date(date.0 as int, date.1 as int, date.2 as int),
        days_from_civil(date.0 as int, date.1 as int, date.2 as int) == days_since_epoch,
        (date.0 as int, date.1 as int, date.2 as int) == civil_date(days_since_epoch as int),
{
    let z = days_since_epoch + 719_468;
    let era: i64 = if z >= 0 {
        z / 146_097
    } else {
        let back: i128 = 146_096i128 - z as i128;
        -((back / 146_097) as i64)
    };
    proof {
        if z >= 0 {
            lemma_fundamental_div_mod(z as int, 146_097);
        } else {
            let q = (146_096 - z) / 146_097;
            lemma_fundamental_div_mod((146_096 - z) as int, 146_097);
            assert(z == 146_097 * (-q) + (146_096 - (146_096 - z) % 146_097));
        }
    }
    let day_of_era = (z - era * 146_097) as u64;
    let year_of_era = (day_of_era - day_of_era / 1460 + day_of_era / 36_524 - day_of_era / 146_096) / 365;
    proof {
        lemma_year_of_era(day_of_era as u32, year_of_era as u32, (year_of_era + 1) as u32);
    }
    let day_of_year = day_of_era - (365 * year_of_era + year_of_era / 4 - year_of_era / 100);
    let month_prime = (5 * day_of_year + 2) / 153;
    proof {
        lemma_era_year_length(year_of_era + 1);
        lemma_month_of_year(day_of_year as u32, month_prime as u32);
        let ghost month = if month_prime < 10 { month_prime + 3 } else { month_prime - 9 };
        let ghost year = 400 * era + year_of_era + if month <= 2 { 1int } else { 0int };
        lemma_civil_date(
            days_since_epoch as int,
            era as int,
            day_of_era as int,
            year_of_era as int,
            day_of_year as int,
            month_prime as int,
            day_of_year - (153 * month_prime + 2) / 5 + 1,
            month as int,
            year,
        );
    }
    let day = (day_of_year - (153 * month_prime + 2) / 5 + 1) as u32;
    let month = (if month_prime < 10 {
        month_prime + 3
    } else {
        month_prime - 9
    }) as u32;
    let year = year_of_era as i64 + era * 400;
    let year = if month <= 2 {
        year + 1
    } else {
        year
    };
    proof {
        let found = (year as int, month as int, day as int);
        let chosen = civil_date(days_since_epoch as int);
        assert(valid_date(found.0, found.1, found.2) && days_from_civil(found.0, found.1, found.2)
            == days_since_epoch);
        lemma_days_from_civil_injective(found.0, found.1, found.2, chosen.0, chosen.1, chosen.2);
    }
    (year, month, day)
}

/// `epoch_millis` (milliseconds since 1970-01-01 00:00 UTC) as
/// `YYYY-MM-DD HH:MM` in UTC, each field zero-padded.
pub open spec fn spec_format_timestamp(epoch_millis: int) -> Seq<char> {
    let seconds = epoch_millis / 1000;
    let days = seconds / 86_400;
    let second_of_day = seconds % 86_400;
    let date = civil_date(days);
    zero_padded(date.0, 4) + seq!['-'] + zero_padded(date.1, 2) + seq!['-'] + zero_padded(date.2, 2) + seq![' ']
        + zero_padded(second_of_day / 3600, 2) + seq![':'] + zero_padded((second_of_day % 3600) / 60, 2)
}

pub fn format_timestamp(epoch_millis: i64) -> (text: String)
    ensures
        text@ == spec_format_timestamp(epoch_millis as int),
{
    let total_seconds = match epoch_millis.checked_div_euclid(1000) {
        Some(seconds) => seconds,
        None => 0,
    };
    let days = match total_seconds.checked_div_euclid(86_400) {
        Some(days) => days,
        None => 0,
    };
    let seconds_of_day = match total_seconds.checked_rem_euclid(86_400) {
        Some(rest) => rest,
        None => 0,
    };
    proof {
        lemma_fundamental_div_mod(epoch_millis as int, 1000);
        lemma_fundamental_div_mod(total_seconds as int, 86_400);
    }
    let hour = seconds_of_day / 3600;
    let minute = (seconds_of_day % 3600) / 60;
    let (year, month, day) = civil_from_days(days);
    let mut text = String::new();
    push_zero_padded(&mut text, year, 4);
    push_char(&mut text, '-');
    push_zero_padded(&mut text, month as i64, 2);
    push_char(&mut text, '-');
    push_zero_padded(&mut text, day as i64, 2);
    push_char(&mut text, ' ');
    push_zero_padded(&mut text, hour, 2);
    push_char(&mut text, ':');
    push_zero_padded(&mut text, minute, 2);
    proof {
        assert(text@ =~= spec_format_timestamp(epoch_millis as int));
    }
    text
}

} // verus!
