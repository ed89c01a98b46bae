//! The system bar's clock: calendar arithmetic on Unix time and the text that
//! the bar shows ("MM/DD Www" and "HH:MM").
use crate::platform::{ClockState, PlatformError};
use crate::text::push_char;
use vstd::prelude::*;

verus! {

/// The decimal digit characters, by value.
pub open spec fn digit_chars() -> Seq<char> {
    seq!['0', '1', '2', '3', '4', '5', '6', '7', '8', '9']
}

/// The decimal representation of `n`, without leading zeros.
pub open spec fn decimal(n: nat) -> Seq<char>
    decreases n,
{
    if n < 10 {
        seq![digit_chars()[n as int]]
    } else {
        decimal(n / 10).push(digit_chars()[(n % 10) as int])
    }
}

/// `n` as Rust's `{:02}` writes it: at least two characters wide, padded with
/// zeros after any sign.
pub open spec fn zero_padded(n: int) -> Seq<char> {
    if 0 <= n < 10 {
        seq!['0'] + decimal(n as nat)
    } else if n >= 10 {
        decimal(n as nat)
    } else {
        seq!['-'] + decimal((-n) as nat)
    }
}

/// The abbreviated names of the days of the week, Sunday first.
pub open spec fn weekday_names() -> Seq<Seq<char>> {
    seq![
        seq!['S', 'u', 'n'],
        seq!['M', 'o', 'n'],
        seq!['T', 'u', 'e'],
        seq!['W', 'e', 'd'],
        seq!['T', 'h', 'u'],
        seq!['F', 'r', 'i'],
        seq!['S', 'a', 't'],
    ]
}

/// The name of the day of the week numbered `weekday` from Sunday, or nothing
/// for a number outside the week.
pub open spec fn weekday_name(weekday: int) -> Seq<char> {
    if 0 <= weekday < 7 {
        weekday_names()[weekday]
    } else {
        Seq::empty()
    }
}

/// The date as the system bar shows it: "MM/DD Www".
pub open spec fn date_text(month: int, day: int, weekday: int) -> Seq<char> {
    zero_padded(month) + seq!['/'] + zero_padded(day) + seq![' '] + weekday_name(weekday)
}

/// The time of day as the system bar shows it: "HH:MM".
pub open spec fn time_text(hour: int, minute: int) -> Seq<char> {
    zero_padded(hour) + seq![':'] + zero_padded(minute)
}

pub(crate) fn push_decimal(out: &mut String, n: u64)
    ensures
        final(out)@ == old(out)@ + decimal(n as nat),
    decreases n,
{
    let digits = ['0', '1', '2', '3', '4', '5', '6', '7', '8', '9'];
    assert(digits@ == digit_chars());
    if n < 10 {
        push_char(out, digits[n as usize]);
    } else {
        push_decimal(out, n / 10);
        push_char(out, digits[(n % 10) as usize]);
    }
}

fn push_zero_padded(out: &mut String, n: i64)
    ensures
        final(out)@ == old(out)@ + zero_padded(n as int),
{
    if 0 <= n && n < 10 {
        push_char(out, '0');
        push_decimal(out, n as u64);
    } else if n >= 10 {
        push_decimal(out, n as u64);
    } else {
        push_char(out, '-');
        let magnitude: u64 = ((-(n + 1)) as u64) + 1;
        assert(magnitude == -n);
        push_decimal(out, magnitude);
    }
}

pub(crate) fn push_text(out: &mut String, text: &str)
    ensures
        final(out)@ == old(out)@ + text@,
{
    let chars = crate::text::chars_of(text);
    let ghost start = out@;
    let mut index: usize = 0;
    while index < chars.len()
        invariant
            index <= chars@.len(),
            chars@ == text@,
            out@ == start + chars@.take(index as int),
        decreases chars@.len() - index,
    {
        push_char(out, chars[index]);
        index = index + 1;
        assert(out@ =~= start + chars@.take(index as int));
    }
    assert(chars@.take(chars@.len() as int) =~= chars@);
}

/// The system bar's clock for a date and a time of day: the month (1 for
/// January), the day of the month, the day of the week counted from Sunday,
/// the hour and the minute.
pub fn clock_state(month: i64, day: i64, weekday: i64, hour: i64, minute: i64) -> (clock: ClockState)
    ensures
        clock.date@ == date_text(month as int, day as int, weekday as int),
        clock.time@ == time_text(hour as int, minute as int),
{
    proof {
        reveal_strlit("Sun");
        reveal_strlit("Mon");
        reveal_strlit("Tue");
        reveal_strlit("Wed");
        reveal_strlit("Thu");
        reveal_strlit("Fri");
        reveal_strlit("Sat");
    }
    let mut date = String::new();
    push_zero_padded(&mut date, month);
    push_char(&mut date, '/');
    push_zero_padded(&mut date, day);
    push_char(&mut date, ' ');
    let name: &str = if weekday == 0 {
        "Sun"
    } else if weekday == 1 {
        "Mon"
    } else if weekday == 2 {
        "Tue"
    } else if weekday == 3 {
        "Wed"
    } else if weekday == 4 {
        "Thu"
    } else if weekday == 5 {
        "Fri"
    } else if weekday == 6 {
        "Sat"
    } else {
        ""
    };
    proof {
        reveal_strlit("");
    }
    assert(name@ == weekday_name(weekday as int));
    push_text(&mut date, name);
    assert(date@ =~= date_text(month as int, day as int, weekday as int));
    let mut time = String::new();
    push_zero_padded(&mut time, hour);
    push_char(&mut time, ':');
    push_zero_padded(&mut time, minute);
    assert(time@ =~= time_text(hour as int, minute as int));
    ClockState { date, time }
}

/// Whole days since 1970-01-01 at `seconds` after the Unix epoch, rounded
/// towards the past.
pub open spec fn days_since_epoch(seconds: int) -> int {
    seconds / 86_400
}

/// Seconds elapsed since midnight.
pub open spec fn second_of_day(seconds: int) -> int {
    seconds % 86_400
}

/// The day within its 400-year era of the Gregorian calendar, eras starting
/// on a March 1st; day 719468 before the Unix epoch began one.
pub open spec fn day_of_era(days: int) -> int {
    (days + 719_468) % 146_097
}

/// The day of its era on which the year `y` of that era begins.
pub open spec fn year_start(y: int) -> int {
    365 * y + y / 4 - y / 100
}

/// The year within its era of the day `doe` of that era.
pub open spec fn year_of_era(doe: int) -> int {
    (doe - doe / 1_460 + doe / 36_524 - doe / 146_096) / 365
}


/// The day within its March-based year.
pub open spec fn day_of_year(doe: int) -> int {
    doe - year_start(year_of_era(doe))
}

/// The month counted from March (0) to February (11).
pub open spec fn month_phase(doy: int) -> int {
    (5 * doy + 2) / 153
}

/// The day of the month, from 1.
pub open spec fn civil_day(days: int) -> int {
    let doy = day_of_year(day_of_era(days));
    doy - (153 * month_phase(doy) + 2) / 5 + 1
}

/// The month of the year, January being 1.
pub open spec fn civil_month(days: int) -> int {
    let phase = month_phase(day_of_year(day_of_era(days)));
    if phase < 10 {
        phase + 3
    } else {
        phase - 9
    }
}

/// The day of the week counted from Sunday; 1970-01-01 was a Thursday.
pub open spec fn weekday_of(days: int) -> int {
    (days + 4) % 7
}

/// The system bar's clock at `seconds` after the Unix epoch, in UTC.
pub open spec fn clock_at(seconds: int) -> (Seq<char>, Seq<char>) {
    let days = days_since_epoch(seconds);
    (
        date_text(civil_month(days), civil_day(days), weekday_of(days)),
        time_text(second_of_day(seconds) / 3_600, second_of_day(seconds) % 3_600 / 60),
    )
}

/// The days of an era before `doe`, with every leap day taken out: 365 for
/// each whole year.
spec fn days_without_leap_days(doe: int) -> int {
    doe - doe / 1_460 + doe / 36_524 - doe / 146_096
}

proof fn lemma_year_start_count(y: int)
    requires
        0 <= y < 400,
    ensures
        days_without_leap_days(year_start(y)) == 365 * y,
        year_start(y) <= 145_731,
        y > 0 ==> days_without_leap_days(year_start(y) - 1) < 365 * y,
{
    let a = y / 100;
    let b = (y % 100) / 4;
    let c = y % 4;
    assert(y == 100 * a + 4 * b + c);
    assert(0 <= a < 4 && 0 <= b < 25 && 0 <= c < 4);
    assert(y / 4 == 25 * a + b);
    assert(y / 100 == a);
    let d = year_start(y);
    assert(d == 36_524 * a + 1_461 * b + 365 * c);
    assert(d / 1_460 == 25 * a + b);
    assert(d / 36_524 == a);
    assert(d / 146_096 == 0);
    if y > 0 {
        assert((d - 1) / 1_460 == 25 * a + b);
        assert((d - 1) / 36_524 <= a);
        assert((d - 1) / 146_096 == 0);
    }
}

proof fn lemma_year_of_era_monotone(d1: int, d2: int)
    requires
        0 <= d1 <= d2 <= 146_096,
    ensures
        days_without_leap_days(d1) <= days_without_leap_days(d2),
        year_of_era(d1) <= year_of_era(d2),
{
}

/// Every day of an era falls within a year of 365 or 366 days.
pub proof fn lemma_day_of_year_in_range(doe: int)
    requires
        0 <= doe < 146_097,
    ensures
        0 <= day_of_year(doe) <= 365,
{
    let y = year_of_era(doe);
    lemma_year_of_era_monotone(0, doe);
    lemma_year_of_era_monotone(doe, 146_096);
    assert(year_of_era(0) == 0);
    assert(days_without_leap_days(146_096) == 145_999);
    assert(year_of_era(146_096) == 399);
    lemma_year_start_count(y);
    if doe < year_start(y) {
        lemma_year_of_era_monotone(doe, year_start(y) - 1);
        assert(false);
    }
    if y + 1 < 400 {
        lemma_year_start_count(y + 1);
        if doe >= year_start(y + 1) {
            lemma_year_of_era_monotone(year_start(y + 1), doe);
            assert(false);
        }
    } else {
        assert(year_start(399) == 145_731);
    }
}

/// The calendar arithmetic gives a month from 1 to 12 and a day from 1 to 31
/// for every day.
pub proof fn lemma_calendar_in_range(days: int)
    ensures
        1 <= civil_month(days) <= 12,
        1 <= civil_day(days) <= 31,
{
    lemma_day_of_year_in_range(day_of_era(days));
}

/// The day of a March-based year on which each of its months begins:
/// March, April, ..., January, February, each as long as the calendar makes
/// it (31, 30, 31, 30, 31, 31, 30, 31, 30, 31, 31 days and then February);
/// `march_month_start(12)` is the length of a leap year.
pub open spec fn march_month_start(phase: int) -> int {
    if phase <= 0 {
        0
    } else if phase == 1 {
        31
    } else if phase == 2 {
        61
    } else if phase == 3 {
        92
    } else if phase == 4 {
        122
    } else if phase == 5 {
        153
    } else if phase == 6 {
        184
    } else if phase == 7 {
        214
    } else if phase == 8 {
        245
    } else if phase == 9 {
        275
    } else if phase == 10 {
        306
    } else if phase == 11 {
        337
    } else {
        366
    }
}

/// Whether the year `y` of an era (eras begin on a March 1st of a year
/// divisible by 400) ends with a leap day: the February that closes it
/// belongs to a year divisible by 4 but not by 100.
pub open spec fn ends_with_leap_day(y: int) -> bool {
    (y + 1) % 4 == 0 && (y + 1) % 100 != 0
}

/// The calendar the arithmetic keeps. Within a March-based year, the month
/// is the one whose span of days holds the day, and the day of the month
/// counts from that month's first day; a year of an era lasts 366 days
/// where it ends with a leap day and 365 otherwise.
pub proof fn lemma_calendar_counts_months_and_years(doy: int, y: int)
    requires
        0 <= doy <= 365,
        0 <= y < 399,
    ensures
        0 <= month_phase(doy) < 12,
        march_month_start(month_phase(doy)) <= doy < march_month_start(month_phase(doy) + 1),
        (153 * month_phase(doy) + 2) / 5 == march_month_start(month_phase(doy)),
        year_start(y + 1) - year_start(y) == (if ends_with_leap_day(y) {
            366int
        } else {
            365int
        }),
{
    let p = month_phase(doy);
    assert(0 <= p < 12);
    assert(march_month_start(p) <= doy < march_month_start(p + 1)) by {
        if p == 0 {
        } else if p == 1 {
        } else if p == 2 {
        } else if p == 3 {
        } else if p == 4 {
        } else if p == 5 {
        } else if p == 6 {
        } else if p == 7 {
        } else if p == 8 {
        } else if p == 9 {
        } else if p == 10 {
        } else {
        }
    }
    let q = y + 1;
    assert(q / 4 - y / 4 == (if q % 4 == 0 { 1int } else { 0int }));
    assert(q / 100 - y / 100 == (if q % 100 == 0 { 1int } else { 0int }));
    if q % 100 == 0 {
        assert(q % 4 == 0);
    }
}

fn civil_month_and_day(doe: u64) -> (md: (i64, i64))
    requires
        doe < 146_097,
    ensures
        md.0 == (if month_phase(day_of_year(doe as int)) < 10 {
            month_phase(day_of_year(doe as int)) + 3
        } else {
            month_phase(day_of_year(doe as int)) - 9
        }),
        md.1 == day_of_year(doe as int) - (153 * month_phase(day_of_year(doe as int)) + 2) / 5 + 1,
{
    proof {
        lemma_day_of_year_in_range(doe as int);
    }
    let yoe: u64 = (doe - doe / 1_460 + doe / 36_524 - doe / 146_096) / 365;
    let doy: u64 = doe - (365 * yoe + yoe / 4 - yoe / 100);
    let phase: u64 = (5 * doy + 2) / 153;
    let day: i64 = (doy - (153 * phase + 2) / 5 + 1) as i64;
    let month: i64 = if phase < 10 {
        (phase + 3) as i64
    } else {
        (phase - 9) as i64
    };
    (month, day)
}

/// The system bar's clock at `seconds` after the Unix epoch, in UTC.
pub fn clock_from_unix_seconds(seconds: i64) -> (clock: Result<ClockState, PlatformError>)
    ensures
        clock is Ok,
        clock->Ok_0.date@ == clock_at(seconds as int).0,
        clock->Ok_0.time@ == clock_at(seconds as int).1,
{
    let days: i64 = match seconds.checked_div_euclid(86_400) {
        Some(d) => d,
        None => return Err(PlatformError::InvalidResponse),
    };
    let seconds_in_day: i64 = match seconds.checked_rem_euclid(86_400) {
        Some(r) => r,
        None => return Err(PlatformError::InvalidResponse),
    };
    let hour: i64 = seconds_in_day / 3_600;
    let minute: i64 = (seconds_in_day % 3_600) / 60;
    let shifted_days: i64 = match days.checked_add(719_468) {
        Some(s) => s,
        None => return Err(PlatformError::InvalidResponse),
    };
    let doe: i64 = match shifted_days.checked_rem_euclid(146_097) {
        Some(r) => r,
        None => return Err(PlatformError::InvalidResponse),
    };
    let (month, day) = civil_month_and_day(doe as u64);
    proof {
        lemma_calendar_in_range(days as int);
    }
    if !(1 <= month && month <= 12 && 1 <= day && day <= 31) {
        return Err(PlatformError::InvalidResponse);
    }
    let weekday: i64 = match (days + 4).checked_rem_euclid(7) {
        Some(w) => w,
        None => return Err(PlatformError::InvalidResponse),
    };
    Ok(clock_state(month, day, weekday, hour, minute))
}

} // verus!
