//! Days and moments: which days there are, on which day of the week they fall, and
//! how a clock with its calendar shows a moment.

use vstd::prelude::*;

use crate::outside::local_time;
use crate::text::{decimal, padded};

verus! {

/// Whether a year has a day more.
pub open spec fn leap_year(year: int) -> bool {
    year % 4 == 0 && (year % 100 != 0 || year % 400 == 0)
}

/// How many days a month has.
pub open spec fn month_days(year: int, month: int) -> int {
    if month == 2 {
        if leap_year(year) {
            29
        } else {
            28
        }
    } else if month == 4 || month == 6 || month == 9 || month == 11 {
        30
    } else {
        31
    }
}

/// Whether there is such a day, in a year that `chrono` can count.
pub open spec fn day_exists(year: int, month: int, day: int) -> bool {
    -262143 <= year <= 262142 && 1 <= month <= 12 && 1 <= day <= month_days(year, month)
}

/// How many days of a year lie before a month.
pub open spec fn days_before(year: int, month: int) -> int
    decreases month,
{
    if month <= 1 {
        0
    } else {
        days_before(year, month - 1) + month_days(year, month - 1)
    }
}

/// How many days lie between the first day of the year 1 and a day.
pub open spec fn day_number(year: int, month: int, day: int) -> int {
    let past = year - 1;
    365 * past + past / 4 - past / 100 + past / 400 + days_before(year, month) + day - 1
}

/// A year in four digits, with a sign where these are not enough.
pub open spec fn year_text(year: int) -> Seq<char> {
    if year < 0 {
        "-"@ + padded(decimal((-year) as nat), 4)
    } else if year > 9999 {
        "+"@ + decimal(year as nat)
    } else {
        padded(decimal(year as nat), 4)
    }
}

/// A day with or without dashes between year, month and day; `None` where there
/// is no such day.
pub open spec fn day_text(year: int, month: int, day: int, dashed: bool) -> Option<Seq<char>> {
    let dash = if dashed {
        "-"@
    } else {
        Seq::empty()
    };
    if day_exists(year, month, day) {
        Some(
            year_text(year) + dash + padded(decimal(month as nat), 2) + dash + padded(
                decimal(day as nat),
                2,
            ),
        )
    } else {
        None
    }
}

/// The days that have passed since the last Monday; `None` where there is no
/// such day. The first day of the year 1 was a Monday.
pub open spec fn weekday_of(year: int, month: int, day: int) -> Option<int> {
    if day_exists(year, month, day) {
        Some(day_number(year, month, day) % 7)
    } else {
        None
    }
}

/// The centuries that are over in the four centuries that a day is in, and the
/// days that have passed since.
pub open spec fn in_century(day: int) -> (int, int) {
    let n = if day / 36524 > 3 {
        3
    } else {
        day / 36524
    };
    (n, day - 36524 * n)
}

/// The years that are over in the four years that a day is in, and the days that
/// have passed since.
pub open spec fn in_year(day: int) -> (int, int) {
    let n = if day / 365 > 3 {
        3
    } else {
        day / 365
    };
    (n, day - 365 * n)
}

/// The year of a day that lies `n` days behind the first one of the year 1, and
/// the days of that year before it.
pub open spec fn year_on(n: int) -> (int, int) {
    let (centuries, rest) = in_century(n % 146097);
    let (years, day) = in_year(rest % 1461);
    (400 * (n / 146097) + 100 * centuries + 4 * (rest / 1461) + years + 1, day)
}

/// The month and day that lie `rest` days behind the first day of a month.
pub open spec fn month_on(year: int, month: int, rest: int) -> (int, int)
    decreases 12 - month,
{
    if month >= 12 || rest < month_days(year, month) {
        (month, rest + 1)
    } else {
        month_on(year, month + 1, rest - month_days(year, month))
    }
}

/// The year, month and day that lie `n` days behind the first day of the year 1.
pub open spec fn date_on(n: int) -> (int, int, int) {
    let (year, rest) = year_on(n);
    let (month, day) = month_on(year, 1, rest);
    (year, month, day)
}

/// Two digits.
pub open spec fn two(n: int) -> Seq<char> {
    padded(decimal(n as nat), 2)
}

/// A moment on a clock, given in seconds since the beginning of 1970 on that
/// clock, as one of three patterns writes it: hours and minutes, with the seconds
/// behind them, or with month and day before them.
pub open spec fn moment_text(seconds: int, pattern: Seq<char>) -> Seq<char> {
    let second = seconds % 86400;
    let time = two(second / 3600) + ":"@ + two(second / 60 % 60);
    if pattern == "%H:%M"@ {
        time
    } else if pattern == "%H:%M:%S"@ {
        time + ":"@ + two(second % 60)
    } else {
        let date = date_on(seconds / 86400 + 719162);
        two(date.1) + "-"@ + two(date.2) + " "@ + time
    }
}

/// Whether a moment, in seconds since 1970, lies in the years that `chrono` can
/// count.
pub open spec fn moment_exists(seconds: int) -> bool {
    -8_334_601_228_800 <= seconds <= 8_210_266_876_799
}

/// How many seconds the clock in China is ahead.
pub const CHINA_AHEAD: i32 = 28800;

/// How the clock in China shows a moment; `None` for one that cannot be counted.
pub open spec fn china_text(seconds: int, pattern: Seq<char>) -> Option<Seq<char>> {
    if moment_exists(seconds) {
        Some(moment_text(seconds + CHINA_AHEAD, pattern))
    } else {
        None
    }
}

/// How the clock in China shows a moment; `None` for one that cannot be counted.
pub fn china_time(seconds: i64, pattern: &str) -> (r: Option<String>)
    requires
        pattern@ == "%H:%M"@ || pattern@ == "%H:%M:%S"@ || pattern@ == "%m-%d %H:%M"@,
    ensures
        match r {
            Some(s) => china_text(seconds as int, pattern@) == Some(s@),
            None => china_text(seconds as int, pattern@) is None,
        },
{
    local_time(seconds, CHINA_AHEAD, pattern)
}

proof fn lemma_month_on(year: int, month: int, rest: int)
    requires
        1 <= month <= 12,
        0 <= rest,
        days_before(year, month) + rest < days_before(year, 12) + 31,
    ensures
        ({
            let (m, d) = month_on(year, month, rest);
            &&& month <= m <= 12
            &&& 1 <= d <= month_days(year, m)
            &&& days_before(year, m) + d == days_before(year, month) + rest + 1
        }),
    decreases 12 - month,
{
    if month < 12 && rest >= month_days(year, month) {
        assert(days_before(year, month + 1) == days_before(year, month) + month_days(year, month));
        lemma_month_on(year, month + 1, rest - month_days(year, month));
    }
}

/// Days and their numbers agree: the date that a number stands for is a day of the
/// calendar, and that day has the number.
pub proof fn law_days_have_their_numbers(n: int)
    ensures
        ({
            let (year, month, day) = date_on(n);
            &&& 1 <= month <= 12
            &&& 1 <= day <= month_days(year, month)
            &&& day_number(year, month, day) == n
        }),
{
    let (year, rest) = year_on(n);
    let (centuries, r) = in_century(n % 146097);
    let (years, d) = in_year(r % 1461);
    let fours = r / 1461;
    let cycles = n / 146097;
    let past = year - 1;
    assert(past == 400 * cycles + 100 * centuries + 4 * fours + years);
    assert(0 <= centuries <= 3 && 0 <= fours <= 24 && 0 <= years <= 3);
    assert(past / 400 == cycles);
    assert(past / 100 == 4 * cycles + centuries);
    assert(past / 4 == 100 * cycles + 25 * centuries + fours);
    assert(365 * past + past / 4 - past / 100 + past / 400 + rest == n);
    reveal_with_fuel(days_before, 13);
    assert(days_before(year, 12) + 31 == 365 + if leap_year(year) {
        1int
    } else {
        0int
    });
    assert(0 <= rest < 366);
    assert(rest == 365 ==> leap_year(year));
    lemma_month_on(year, 1, rest);
}

/// Days follow one another: the next day of a month, the first of the next month after
/// the last of one, and the first of the next year after the last of one have the next
/// number. The first of January of the year 1 has the number 0.
pub proof fn law_days_follow_one_another(year: int, month: int, day: int)
    requires
        1 <= month <= 12,
        1 <= day <= month_days(year, month),
    ensures
        day_number(1, 1, 1) == 0,
        day_number(year, month, day + 1) == day_number(year, month, day) + 1,
        month < 12 && day == month_days(year, month) ==> day_number(year, month + 1, 1)
            == day_number(year, month, day) + 1,
        month == 12 && day == 31 ==> day_number(year + 1, 1, 1) == day_number(year, month, day) + 1,
{
    if month == 12 && day == 31 {
        lemma_year_length(year);
        lemma_leap_days(year);
    }
}

proof fn lemma_year_length(year: int)
    ensures
        days_before(year, 12) == if leap_year(year) {
            335int
        } else {
            334
        },
{
    reveal_with_fuel(days_before, 13);
}

proof fn lemma_leap_days(year: int)
    ensures
        ({
            let past = year - 1;
            year / 4 - year / 100 + year / 400 == past / 4 - past / 100 + past / 400
                + if leap_year(year) {
                1int
            } else {
                0
            }
        }),
{
    let past = year - 1;
    let q = year / 400;
    let r = year % 400;
    assert(year == 400 * q + r && 0 <= r < 400);
    assert(year / 4 == 100 * q + r / 4);
    assert(year / 100 == 4 * q + r / 100);
    assert(past / 4 == 100 * q + (r - 1) / 4);
    assert(past / 100 == 4 * q + (r - 1) / 100);
    assert(past / 400 == q + (r - 1) / 400);
    assert(year % 4 == r % 4);
    assert(year % 100 == r % 100);
}

/// The days of the week follow one another too, from Monday to Sunday and round again.
pub proof fn law_weekdays_follow_one_another(year: int, month: int, day: int)
    requires
        day_exists(year, month, day),
        day_exists(year, month, day + 1),
    ensures
        weekday_of(1, 1, 1) == Some(0int),
        weekday_of(year, month, day) matches Some(n) && 0 <= n < 7 && weekday_of(
            year,
            month,
            day + 1,
        ) == Some(
            if n == 6 {
                0
            } else {
                n + 1
            },
        ),
{
    law_days_follow_one_another(year, month, day);
    law_days_follow_one_another(1, 1, 1);
}

/// A day is written as year, month and day, in four, two and two digits.
pub proof fn law_day_is_written_in_full(year: int, month: int, day: int)
    requires
        day_exists(year, month, day),
        0 <= year <= 9999,
    ensures
        day_text(year, month, day, true) == Some(
            padded(decimal(year as nat), 4) + "-"@ + padded(decimal(month as nat), 2) + "-"@
                + padded(decimal(day as nat), 2),
        ),
        day_text(year, month, day, false) == Some(
            padded(decimal(year as nat), 4) + padded(decimal(month as nat), 2) + padded(
                decimal(day as nat),
                2,
            ),
        ),
{
    let y = padded(decimal(year as nat), 4);
    assert(y + Seq::<char>::empty() =~= y);
    let m = padded(decimal(month as nat), 2);
    assert(y + m + Seq::<char>::empty() =~= y + m);
}

/// The clock in China is eight hours ahead: it shows the hour, the minute and the second
/// of the day that it is in there, and before them, where it is asked for, the month
/// and the day.
pub proof fn law_clock_is_eight_hours_ahead(days: int, hour: int, minute: int, second: int)
    requires
        0 <= hour < 24,
        0 <= minute < 60,
        0 <= second < 60,
        moment_exists(86400 * days + 3600 * hour + 60 * minute + second - 8 * 3600),
    ensures
        ({
            let moment = 86400 * days + 3600 * hour + 60 * minute + second - 8 * 3600;
            let time = padded(decimal(hour as nat), 2) + ":"@ + padded(decimal(minute as nat), 2);
            let date = date_on(days + day_number(1970, 1, 1));
            &&& china_text(moment, "%H:%M"@) == Some(time)
            &&& china_text(moment, "%H:%M:%S"@) == Some(
                time + ":"@ + padded(decimal(second as nat), 2),
            )
            &&& china_text(moment, "%m-%d %H:%M"@) == Some(
                padded(decimal(date.1 as nat), 2) + "-"@ + padded(decimal(date.2 as nat), 2)
                    + " "@ + time,
            )
        }),
{
    reveal_strlit("%H:%M");
    reveal_strlit("%H:%M:%S");
    reveal_strlit("%m-%d %H:%M");
    assert("%H:%M"@.len() == 5 && "%H:%M:%S"@.len() == 8 && "%m-%d %H:%M"@.len() == 11);
    let s = 86400 * days + 3600 * hour + 60 * minute + second;
    lemma_time_of_day(days, hour, minute, second);
    lemma_first_day();
    let date = date_on(days + 719162);
    assert(moment_text(s, "%H:%M"@) == two(hour) + ":"@ + two(minute));
    assert(moment_text(s, "%H:%M:%S"@) == two(hour) + ":"@ + two(minute) + ":"@ + two(second));
    assert(moment_text(s, "%m-%d %H:%M"@) == two(date.1) + "-"@ + two(date.2) + " "@ + (two(hour)
        + ":"@ + two(minute)));
}

proof fn lemma_first_day()
    ensures
        day_number(1970, 1, 1) == 719162,
{
    assert(days_before(1970, 1) == 0);
}

proof fn lemma_time_of_day(days: int, hour: int, minute: int, second: int)
    requires
        0 <= hour < 24,
        0 <= minute < 60,
        0 <= second < 60,
    ensures
        ({
            let s = 86400 * days + 3600 * hour + 60 * minute + second;
            &&& s / 86400 == days
            &&& s % 86400 / 3600 == hour
            &&& s % 86400 / 60 % 60 == minute
            &&& s % 86400 % 60 == second
        }),
{
    let s = 86400 * days + 3600 * hour + 60 * minute + second;
    let rest = 3600 * hour + 60 * minute + second;
    assert(s % 86400 == rest && s / 86400 == days);
    assert(rest / 3600 == hour);
    assert(rest / 60 == 60 * hour + minute);
    assert(rest % 60 == second);
}

} // verus!
