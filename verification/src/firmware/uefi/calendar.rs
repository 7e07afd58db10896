//! The calendar: seconds since the UNIX epoch, and dates and times of day.
use vstd::prelude::*;

verus! {

/// Whether a year has a 29th of February.
pub open spec fn is_leap(year: int) -> bool {
    year % 4 == 0 && (year % 100 != 0 || year % 400 == 0)
}

/// How many days a month of a year has.
pub open spec fn days_in(year: int, month: int) -> int {
    if month == 2 {
        if is_leap(year) {
            29
        } else {
            28
        }
    } else if month == 4 || month == 6 || month == 9 || month == 11 {
        30
    } else {
        31
    }
}

/// How many days of a year lie before a month.
pub open spec fn days_before_month(year: int, month: int) -> int
    decreases month,
{
    if month <= 1 {
        0
    } else {
        days_before_month(year, month - 1) + days_in(year, month - 1)
    }
}

/// How many days lie before a year, counted from the first of January of year one.
pub open spec fn days_before_year(year: int) -> int {
    365 * (year - 1) + (year - 1) / 4 - (year - 1) / 100 + (year - 1) / 400
}

/// The number of a day, counted from the first of January 1970.
pub open spec fn day_number(year: int, month: int, day: int) -> int {
    days_before_year(year) + days_before_month(year, month) + day - 1 - 719_162
}

/// Whether a date is one of the calendar.
pub open spec fn is_date(year: int, month: int, day: int) -> bool {
    1 <= month <= 12 && 1 <= day <= days_in(year, month)
}

/// A year is 365 days long, or 366 when it is a leap year.
pub proof fn law_years_have_their_length(year: int)
    ensures
        days_before_year(year + 1) - days_before_year(year) == (if is_leap(year) {
            366int
        } else {
            365
        }),
        days_before_month(year, 13) == (if is_leap(year) {
            366int
        } else {
            365
        }),
        day_number(1970, 1, 1) == 0,
{
    lemma_months(year);
}

/// How many days lie before each month.
proof fn lemma_months(year: int)
    ensures
        ({
            let leap = if is_leap(year) {
                1int
            } else {
                0
            };
            &&& days_before_month(year, 1) == 0
            &&& days_before_month(year, 2) == 31
            &&& days_before_month(year, 3) == 59 + leap
            &&& days_before_month(year, 4) == 90 + leap
            &&& days_before_month(year, 5) == 120 + leap
            &&& days_before_month(year, 6) == 151 + leap
            &&& days_before_month(year, 7) == 181 + leap
            &&& days_before_month(year, 8) == 212 + leap
            &&& days_before_month(year, 9) == 243 + leap
            &&& days_before_month(year, 10) == 273 + leap
            &&& days_before_month(year, 11) == 304 + leap
            &&& days_before_month(year, 12) == 334 + leap
            &&& days_before_month(year, 13) == 365 + leap
        }),
{
    reveal_with_fuel(days_before_month, 14);
}

/// A date and a time of day.
#[derive(Clone, Copy, PartialEq, Eq, Structural, Debug)]
pub struct Civil {
    pub year: i64,
    pub month: u32,
    pub day: u32,
    pub hour: u32,
    pub minute: u32,
    pub second: u32,
}

/// The seconds from the UNIX epoch to a date and a time of day.
pub open spec fn epoch_seconds(c: Civil) -> int {
    day_number(c.year as int, c.month as int, c.day as int) * 86_400 + c.hour * 3600 + c.minute * 60
        + c.second
}

/// Whether a date and a time are ones that a clock shows.
pub open spec fn is_civil(c: Civil) -> bool {
    is_date(c.year as int, c.month as int, c.day as int) && c.hour < 24 && c.minute < 60 && c.second
        < 60
}

/// How many days of a 400-year cycle that begins in March lie before a year of it.
spec fn before_year_of_era(y: int) -> int {
    365 * y + y / 4 - y / 100
}

/// The year of a 400-year cycle that begins in March, from a day of it that is not
/// the last.
proof fn lemma_year_by_division(day: int, y: int, u: int)
    requires
        0 <= day < 146_096,
        0 <= y < 400,
        0 <= u <= 365,
        day == before_year_of_era(y) + u,
        day / 36_524 == y / 100,
        u == 365 ==> (y + 1) % 4 == 0,
    ensures
        (day - day / 1460 + day / 36_524 - day / 146_096) / 365 == y,
{
    let q = day / 1460;
    let k = y / 4;
    assert(1460 * q <= day < 1460 * (q + 1));
    assert(4 * k <= y <= 4 * k + 3);
    assert(y / 100 <= k);
    assert(q <= k + u);
    assert(k + u - q < 365);
    assert(day / 146_096 == 0);
    assert(365 * y <= day - q + y / 100 < 365 * (y + 1));
}

/// Which year of a 400-year cycle that begins in March a day of the cycle is in.
#[verifier::spinoff_prover]
#[verifier::rlimit(40)]
proof fn lemma_year_of_era(day: int)
    requires
        0 <= day < 146_097,
    ensures
        ({
            let y = (day - day / 1460 + day / 36_524 - day / 146_096) / 365;
            &&& 0 <= y < 400
            &&& 0 <= day - before_year_of_era(y) <= 365
            &&& day - before_year_of_era(y) == 365 ==> (y + 1) % 4 == 0 && ((y + 1) % 100 != 0 || y
                == 399)
        }),
{
    if day < 146_096 {
        let c = day / 36_524;
        let r = day % 36_524;
        let f = r / 1461;
        let t = r % 1461;
        let h = if t == 1460 {
            3int
        } else {
            t / 365
        };
        let y = 100 * c + 4 * f + h;
        let u = t - 365 * h;
        assert(day == 36_524 * c + r);
        assert(r == 1461 * f + t);
        assert(0 <= c <= 3 && 0 <= f <= 24 && 0 <= h <= 3 && 0 <= u <= 365);
        assert(y / 4 == 25 * c + f);
        assert(y / 100 == c);
        assert(day == before_year_of_era(y) + u);
        if u == 365 {
            assert(t == 1460 && f <= 23);
            assert((y + 1) % 4 == 0);
            assert((y + 1) % 100 == 4 * (f + 1));
        }
        lemma_year_by_division(day, y, u);
    }
}

/// The first of March, by the years that lie before it.
proof fn lemma_march(year: int)
    ensures
        days_before_year(year) + days_before_month(year, 3) == 365 * year + year / 4 - year / 100
            + year / 400 - 306,
{
    lemma_months(year);
    law_years_have_their_length(year);
}

/// The first day of a month, counted from the first of March before it.
proof fn lemma_shifted_month(year: int, shifted: int)
    requires
        0 <= shifted < 12,
    ensures
        ({
            let month = if shifted < 10 {
                shifted + 3
            } else {
                shifted - 9
            };
            let in_year = if shifted < 10 {
                year
            } else {
                year + 1
            };
            days_before_year(in_year) + days_before_month(in_year, month) == days_before_year(year)
                + days_before_month(year, 3) + (153 * shifted + 2) / 5
        }),
{
    lemma_months(year);
    lemma_months(year + 1);
    law_years_have_their_length(year);
    assert(shifted == 0 || shifted == 1 || shifted == 2 || shifted == 3 || shifted == 4 || shifted
        == 5 || shifted == 6 || shifted == 7 || shifted == 8 || shifted == 9 || shifted == 10
        || shifted == 11);
}

/// The days of a shifted month.
proof fn lemma_day_of_month(year: int, day_of_year: int)
    requires
        0 <= day_of_year <= 365,
        day_of_year == 365 ==> is_leap(year + 1),
    ensures
        ({
            let shifted = (5 * day_of_year + 2) / 153;
            let day = day_of_year - (153 * shifted + 2) / 5 + 1;
            &&& 0 <= shifted < 12
            &&& if shifted < 10 {
                is_date(year, shifted + 3, day)
            } else {
                is_date(year + 1, shifted - 9, day)
            }
        }),
{
    let shifted = (5 * day_of_year + 2) / 153;
    assert(shifted == 0 || shifted == 1 || shifted == 2 || shifted == 3 || shifted == 4 || shifted
        == 5 || shifted == 6 || shifted == 7 || shifted == 8 || shifted == 9 || shifted == 10
        || shifted == 11);
}

/// The date of a day.
#[verifier::spinoff_prover]
#[verifier::rlimit(40)]
proof fn lemma_date(days: int)
    requires
        0 <= days,
    ensures
        ({
            let z = days + 719_468;
            let era = z / 146_097;
            let day_of_era = z % 146_097;
            let y = (day_of_era - day_of_era / 1460 + day_of_era / 36_524 - day_of_era / 146_096)
                / 365;
            let day_of_year = day_of_era - before_year_of_era(y);
            let shifted = (5 * day_of_year + 2) / 153;
            let day = day_of_year - (153 * shifted + 2) / 5 + 1;
            let month = if shifted < 10 {
                shifted + 3
            } else {
                shifted - 9
            };
            let year = y + era * 400 + if month <= 2 {
                1int
            } else {
                0
            };
            &&& 0 <= y < 400
            &&& 0 <= day_of_year <= 365
            &&& 0 <= shifted < 12
            &&& is_date(year, month, day)
            &&& day_number(year, month, day) == days
        }),
{
    let z = days + 719_468;
    let era = z / 146_097;
    let day_of_era = z % 146_097;
    lemma_year_of_era(day_of_era);
    let y = (day_of_era - day_of_era / 1460 + day_of_era / 36_524 - day_of_era / 146_096) / 365;
    let march = y + era * 400;
    assert(march / 4 == y / 4 + 100 * era);
    assert(march / 100 == y / 100 + 4 * era);
    assert(march / 400 == era);
    lemma_march(march);
    let day_of_year = day_of_era - before_year_of_era(y);
    if day_of_year == 365 {
        assert((march + 1) % 4 == (y + 1) % 4);
        assert((march + 1) % 100 == (y + 1) % 100);
        assert((march + 1) % 400 == (y + 1) % 400);
    }
    lemma_day_of_month(march, day_of_year);
    lemma_shifted_month(march, (5 * day_of_year + 2) / 153);
}

/// The year of a day from the epoch on, by how many days there are.
proof fn lemma_year_bounds(year: int, month: int, day: int)
    requires
        is_date(year, month, day),
        day_number(year, month, day) >= 0,
    ensures
        1970 <= year <= 1970 + day_number(year, month, day) / 365,
{
    lemma_months(year);
    law_years_have_their_length(year);
    assert(days_before_month(year, month) + day <= days_before_month(year, 13)) by {
        reveal_with_fuel(days_before_month, 14);
        assert(month == 1 || month == 2 || month == 3 || month == 4 || month == 5 || month == 6
            || month == 7 || month == 8 || month == 9 || month == 10 || month == 11 || month
            == 12);
    }
    assert(days_before_month(year, month) >= 0) by {
        assert(month == 1 || month == 2 || month == 3 || month == 4 || month == 5 || month == 6
            || month == 7 || month == 8 || month == 9 || month == 10 || month == 11 || month
            == 12);
    }
}

/// Converts seconds since the UNIX epoch into calendar fields.
///
/// Uses the civil-days algorithm: count days from 1970-01-01, then walk the 400-year
/// cycle. No table, no month arithmetic that drifts.
pub fn civil_from_epoch(seconds: u64) -> (civil: Civil)
    ensures
        is_civil(civil),
        epoch_seconds(civil) == seconds,
        1970 <= civil.year <= 1970 + (seconds / 86_400) / 365,
{
    let days: u64 = seconds / 86_400;
    let second_of_day: u64 = seconds % 86_400;
    let hour: u64 = second_of_day / 3600;
    let minute: u64 = (second_of_day % 3600) / 60;
    let second: u64 = second_of_day % 60;
    proof {
        lemma_date(days as int);
    }

    let z: u64 = days + 719_468;
    let era: u64 = z / 146_097;
    let day_of_era: u64 = z % 146_097;
    let year_of_era: u64 = (day_of_era - day_of_era / 1460 + day_of_era / 36_524 - day_of_era
        / 146_096) / 365;
    let year: u64 = year_of_era + era * 400;
    let day_of_year: u64 = day_of_era - (365 * year_of_era + year_of_era / 4 - year_of_era / 100);
    let shifted_month: u64 = (5 * day_of_year + 2) / 153;
    let day: u64 = day_of_year - (153 * shifted_month + 2) / 5 + 1;
    let month: u64 = if shifted_month < 10 {
        shifted_month + 3
    } else {
        shifted_month - 9
    };
    let year: u64 = if month <= 2 {
        year + 1
    } else {
        year
    };
    proof {
        lemma_year_bounds(year as int, month as int, day as int);
    }
    Civil {
        year: year as i64,
        month: month as u32,
        day: day as u32,
        hour: hour as u32,
        minute: minute as u32,
        second: second as u32,
    }
}

/// The day a date stands for, by the calculation over 400-year cycles.
proof fn lemma_days(year: int, month: int, day: int)
    requires
        1 <= month <= 12,
    ensures
        ({
            let from = if month <= 2 {
                year - 1
            } else {
                year
            };
            let era = from / 400;
            let y = from % 400;
            let shifted = if month > 2 {
                month - 3
            } else {
                month + 9
            };
            era * 146_097 + (before_year_of_era(y) + ((153 * shifted + 2) / 5 + day - 1)) - 719_468
                == day_number(year, month, day)
        }),
{
    let from = if month <= 2 {
        year - 1
    } else {
        year
    };
    let era = from / 400;
    let y = from % 400;
    let shifted = if month > 2 {
        month - 3
    } else {
        month + 9
    };
    assert(from / 4 == y / 4 + 100 * era);
    assert(from / 100 == y / 100 + 4 * era);
    lemma_march(from);
    lemma_shifted_month(from, shifted);
}

/// The inverse of `civil_from_epoch`: the seconds to a date from the epoch on, as far
/// as they can be counted. A day past the end of its month counts into the next.
pub fn epoch_from_civil(civil: Civil) -> (seconds: u64)
    requires
        1 <= civil.month <= 12,
        1 <= civil.day,
        1970 <= civil.year,
        epoch_seconds(civil) <= u64::MAX,
    ensures
        seconds == epoch_seconds(civil),
{
    proof {
        lemma_days(civil.year as int, civil.month as int, civil.day as int);
        lemma_far_enough(civil.year as int, civil.month as int, civil.day as int);
    }
    let year: u64 = if civil.month <= 2 {
        civil.year as u64 - 1
    } else {
        civil.year as u64
    };
    let era: u64 = year / 400;
    let year_of_era: u64 = year % 400;
    let month: u64 = civil.month as u64;
    let shifted_month: u64 = if month > 2 {
        month - 3
    } else {
        month + 9
    };
    let day_of_year: u64 = (153 * shifted_month + 2) / 5 + civil.day as u64 - 1;
    let day_of_era: u64 = year_of_era * 365 + year_of_era / 4 - year_of_era / 100 + day_of_year;
    let days: u64 = era * 146_097 + day_of_era - 719_468;
    days * 86_400 + civil.hour as u64 * 3600 + civil.minute as u64 * 60 + civil.second as u64
}

/// A day from 1970 on is not before the epoch, and no year before it has fewer than
/// 365 days.
proof fn lemma_far_enough(year: int, month: int, day: int)
    requires
        1970 <= year,
        1 <= month <= 12,
        1 <= day,
    ensures
        365 * (year - 1970) <= day_number(year, month, day),
        day - 1 <= day_number(year, month, day),
{
    lemma_months(year);
    assert(month == 1 || month == 2 || month == 3 || month == 4 || month == 5 || month == 6 || month
        == 7 || month == 8 || month == 9 || month == 10 || month == 11 || month == 12);
}

/// A day from 1970 on is not before the epoch, and one of a year of sixteen bits is
/// not far from it.
pub proof fn lemma_not_before_epoch(year: int, month: int, day: int)
    requires
        1970 <= year <= 0xffff,
        1 <= month <= 12,
        1 <= day <= 31,
    ensures
        0 <= day_number(year, month, day) <= 0x200_0000,
{
    lemma_months(year);
    assert(month == 1 || month == 2 || month == 3 || month == 4 || month == 5 || month == 6 || month
        == 7 || month == 8 || month == 9 || month == 10 || month == 11 || month == 12);
}

/// No two dates are the same day.
proof fn lemma_days_differ(year: int, month: int, day: int, y: int, m: int, d: int)
    requires
        is_date(year, month, day),
        is_date(y, m, d),
        year < y || (year == y && (month < m || (month == m && day < d))),
    ensures
        day_number(year, month, day) < day_number(y, m, d),
{
    lemma_months(year);
    lemma_months(y);
    law_years_have_their_length(year);
    assert(month == 1 || month == 2 || month == 3 || month == 4 || month == 5 || month == 6 || month
        == 7 || month == 8 || month == 9 || month == 10 || month == 11 || month == 12);
    assert(m == 1 || m == 2 || m == 3 || m == 4 || m == 5 || m == 6 || m == 7 || m == 8 || m == 9
        || m == 10 || m == 11 || m == 12);
    assert(days_before_month(year, month) + day <= days_before_month(year, 13));
    if year < y {
        assert(days_before_year(year + 1) <= days_before_year(y));
    }
}

/// The two conversions undo each other: a date and a time of day are those of exactly
/// one number of seconds.
pub proof fn law_seconds_name_one_time(a: Civil, b: Civil)
    requires
        is_civil(a),
        is_civil(b),
        epoch_seconds(a) == epoch_seconds(b),
    ensures
        a == b,
{
    let x = day_number(a.year as int, a.month as int, a.day as int);
    let y = day_number(b.year as int, b.month as int, b.day as int);
    assert(0 <= a.hour * 3600 + a.minute * 60 + a.second < 86_400);
    assert(0 <= b.hour * 3600 + b.minute * 60 + b.second < 86_400);
    assert(x == y);
    if a.year < b.year || (a.year == b.year && (a.month < b.month || (a.month == b.month && a.day
        < b.day))) {
        lemma_days_differ(
            a.year as int,
            a.month as int,
            a.day as int,
            b.year as int,
            b.month as int,
            b.day as int,
        );
    } else if a.year != b.year || a.month != b.month || a.day != b.day {
        lemma_days_differ(
            b.year as int,
            b.month as int,
            b.day as int,
            a.year as int,
            a.month as int,
            a.day as int,
        );
    }
}

/// The date of a number of seconds is one that counts back to them, whatever the
/// number: the two conversions undo each other on everything a clock can count.
pub proof fn law_dates_count_back(seconds: u64, civil: Civil)
    requires
        is_civil(civil),
        epoch_seconds(civil) == seconds,
    ensures
        1970 <= civil.year,
        1 <= civil.month <= 12,
        1 <= civil.day,
        epoch_seconds(civil) <= u64::MAX,
        forall|other: Civil|
            is_civil(other) && #[trigger] epoch_seconds(other) == seconds ==> other == civil,
{
    assert(0 <= civil.hour * 3600 + civil.minute * 60 + civil.second < 86_400);
    let days = day_number(civil.year as int, civil.month as int, civil.day as int);
    assert(days >= 0);
    lemma_year_bounds(civil.year as int, civil.month as int, civil.day as int);
    assert forall|other: Civil|
        is_civil(other) && #[trigger] epoch_seconds(other) == seconds implies other == civil by {
        law_seconds_name_one_time(other, civil);
    }
}

/// Later times of day and later dates are later in seconds.
pub proof fn law_later_is_more_seconds(a: Civil, b: Civil)
    requires
        is_civil(a),
        is_civil(b),
        a.year < b.year || (a.year == b.year && (a.month < b.month || (a.month == b.month && a.day
            < b.day))),
    ensures
        epoch_seconds(a) < epoch_seconds(b),
{
    lemma_days_differ(
        a.year as int,
        a.month as int,
        a.day as int,
        b.year as int,
        b.month as int,
        b.day as int,
    );
}

} // verus!
