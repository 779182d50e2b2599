//! Calendar arithmetic: day counts to civil dates, for the day columns of
//! column files and for the serial dates of spreadsheets.
use crate::text;
use vstd::prelude::*;

verus! {

/// Whether `y` is a leap year of the Gregorian calendar.
pub open spec fn leap(y: int) -> bool {
    (y % 4 == 0 && y % 100 != 0) || y % 400 == 0
}

/// The number of days of month `m` (1 is January) of year `y`.
pub open spec fn month_len(y: int, m: int) -> int {
    if m == 2 {
        if leap(y) { 29 } else { 28 }
    } else if m == 4 || m == 6 || m == 9 || m == 11 {
        30
    } else {
        31
    }
}

/// The days from 0000-01-01 to the first day of year `y`.
pub open spec fn days_before_year(y: int) -> int {
    365 * y + (y + 3) / 4 - (y + 99) / 100 + (y + 399) / 400
}

/// The days of year `y` before the first day of month `m`.
pub open spec fn days_before_month(y: int, m: int) -> int
    decreases m,
{
    if m <= 1 {
        0
    } else {
        days_before_month(y, m - 1) + month_len(y, m - 1)
    }
}

/// A day of the proleptic Gregorian calendar.
#[derive(Clone, Copy, Debug, PartialEq, Eq, Structural)]
pub struct Date {
    pub year: i64,
    /// 1 is January.
    pub month: u8,
    /// Counted from 1.
    pub day: u8,
}

impl Date {
    /// The month exists and has that day.
    pub open spec fn valid(self) -> bool {
        &&& 1 <= self.month <= 12
        &&& 1 <= self.day <= month_len(self.year as int, self.month as int)
    }

    /// The days from 1970-01-01 to this day.
    pub open spec fn day_number(self) -> int {
        days_before_year(self.year as int) + days_before_month(
            self.year as int,
            self.month as int,
        ) + self.day - 1 - 719528
    }
}

/// `y-mm-dd`, the year with at least `year_width` characters.
pub open spec fn date_text(date: Date, year_width: int) -> Seq<char> {
    text::zero_padded(date.year as int, year_width) + seq!['-'] + text::zero_padded(
        date.month as int,
        2,
    ) + seq!['-'] + text::zero_padded(date.day as int, 2)
}

/// The date that is `n` days after 1970-01-01.
pub open spec fn date_of(n: int) -> Date {
    choose|date: Date| date.valid() && date.day_number() == n
}

/// A year has 366 days if it is a leap year and 365 if not.
pub proof fn lemma_year_length(y: int)
    ensures
        days_before_year(y + 1) - days_before_year(y) == (if leap(y) {
            366int
        } else {
            365
        }),
        days_before_month(y, 13) == days_before_year(y + 1) - days_before_year(y),
{
    lemma_rounded_up_step(y, 4);
    lemma_rounded_up_step(y, 100);
    lemma_rounded_up_step(y, 400);
    lemma_multiples(y);
    assert(days_before_month(y, 13) == (if leap(y) {
        366int
    } else {
        365
    })) by {
        reveal_with_fuel(days_before_month, 13);
    }
}

/// A quotient that is rounded up grows just behind the multiples of the divisor.
proof fn lemma_rounded_up_step(y: int, d: int)
    requires
        d > 0,
    ensures
        (y + d) / d - (y + d - 1) / d == (if y % d == 0 {
            1int
        } else {
            0
        }),
{
    let q = y / d;
    let r = y % d;
    vstd::arithmetic::div_mod::lemma_fundamental_div_mod(y, d);
    vstd::arithmetic::div_mod::lemma_mod_bound(y, d);
    assert(y + d == (q + 1) * d + r) by (nonlinear_arith)
        requires
            y == d * q + r,
    ;
    vstd::arithmetic::div_mod::lemma_fundamental_div_mod_converse(y + d, d, q + 1, r);
    if r == 0 {
        assert(y + d - 1 == q * d + (d - 1)) by (nonlinear_arith)
            requires
                y == d * q + r,
                r == 0,
        ;
        vstd::arithmetic::div_mod::lemma_fundamental_div_mod_converse(y + d - 1, d, q, d - 1);
    } else {
        vstd::arithmetic::div_mod::lemma_fundamental_div_mod_converse(
            y + d - 1,
            d,
            q + 1,
            r - 1,
        );
    }
}

/// Multiples of 400 are multiples of 100, and those are multiples of 4.
proof fn lemma_multiples(y: int)
    ensures
        y % 400 == 0 ==> y % 100 == 0,
        y % 100 == 0 ==> y % 4 == 0,
{
    vstd::arithmetic::div_mod::lemma_fundamental_div_mod(y, 400);
    vstd::arithmetic::div_mod::lemma_fundamental_div_mod(y, 100);
    lemma_shift(0, 4 * (y / 400), 100);
    lemma_shift(0, 25 * (y / 100), 4);
}

proof fn lemma_years_apart(y1: int, y2: int)
    requires
        y1 < y2,
    ensures
        days_before_year(y1) + 365 <= days_before_year(y1 + 1) <= days_before_year(y2),
{
    lemma_year_length(y1);
}

proof fn lemma_months_apart(y: int, m1: int, m2: int)
    requires
        1 <= m1 <= m2,
    ensures
        0 <= days_before_month(y, m1) <= days_before_month(y, m2),
        m1 < m2 ==> days_before_month(y, m1) + month_len(y, m1) <= days_before_month(y, m2),
    decreases m2,
{
    if m1 < m2 {
        lemma_months_apart(y, m1, m2 - 1);
    } else if m1 > 1 {
        lemma_months_apart(y, m1 - 1, m1 - 1);
    }
}

/// Two valid dates with the same day number are the same date.
pub proof fn lemma_day_number_injective(a: Date, b: Date)
    requires
        a.valid(),
        b.valid(),
        a.day_number() == b.day_number(),
    ensures
        a == b,
{
    lemma_day_within_year(a);
    lemma_day_within_year(b);
    if a.year < b.year {
        lemma_years_apart(a.year as int, b.year as int);
    } else if b.year < a.year {
        lemma_years_apart(b.year as int, a.year as int);
    } else if a.month < b.month {
        lemma_months_apart(a.year as int, a.month as int, b.month as int);
    } else if b.month < a.month {
        lemma_months_apart(a.year as int, b.month as int, a.month as int);
    }
}

proof fn lemma_day_within_year(a: Date)
    requires
        a.valid(),
    ensures
        days_before_year(a.year as int) <= a.day_number() + 719528 < days_before_year(a.year + 1),
{
    lemma_year_length(a.year as int);
    lemma_months_apart(a.year as int, a.month as int, 13);
    lemma_months_apart(a.year as int, 1, a.month as int);
}

/// `date_of` is the date with that day number, wherever there is one.
pub proof fn lemma_date_of(date: Date)
    requires
        date.valid(),
    ensures
        date_of(date.day_number()) == date,
{
    lemma_day_number_injective(date_of(date.day_number()), date);
}

/// The days of a year that starts in March, before its month `mp` (0 is March).
spec fn march_days(mp: int) -> int {
    (153 * mp + 2) / 5
}

/// The days before year `yoe` of a four-century cycle that starts in March.
spec fn cycle_days(yoe: int) -> int {
    365 * yoe + yoe / 4 - yoe / 100
}

proof fn lemma_year_of_cycle(doe: int, yoe: int)
    requires
        0 <= doe <= 146096,
        yoe == (doe - doe / 1460 + doe / 36524 - doe / 146096) / 365,
    ensures
        0 <= yoe <= 399,
        cycle_days(yoe) <= doe,
        doe < cycle_days(yoe + 1) || (yoe == 399 && doe == 146096),
{
}

/// The day `doy` of the March-based year `y` is day `doy - march_days(mp)` of
/// its month `mp`, and its civil date lies in year `y` or, for January and
/// February, in the next one.
proof fn lemma_march_date(y: int, doy: int, mp: int)
    requires
        0 <= doy <= 365,
        doy == 365 ==> leap(y + 1),
        mp == (5 * doy + 2) / 153,
    ensures
        0 <= mp <= 11,
        ({
            let m = if mp < 10 { mp + 3 } else { mp - 9 };
            let cy = if m <= 2 { y + 1 } else { y };
            let d = doy - march_days(mp) + 1;
            &&& 1 <= d <= month_len(cy, m)
            &&& days_before_year(cy) + days_before_month(cy, m) + d - 1 == days_before_year(y)
                + days_before_month(y, 3) + doy
        }),
{
    lemma_year_length(y);
    reveal_with_fuel(days_before_month, 13);
    assert(0 <= mp <= 11);
}

/// The days before March of year `400 * era + yoe`.
proof fn lemma_cycle_start(era: int, yoe: int)
    requires
        0 <= yoe <= 399,
    ensures
        ({
            let y = yoe + era * 400;
            days_before_year(y) + days_before_month(y, 3) == 146097 * era + cycle_days(yoe) + 60
        }),
        yoe < 399 ==> (cycle_days(yoe + 1) - cycle_days(yoe) == 366 ==> leap(yoe + 1 + era * 400)),
        yoe < 399 ==> 365 <= cycle_days(yoe + 1) - cycle_days(yoe) <= 366,
        yoe == 399 ==> leap(yoe + 1 + era * 400) && cycle_days(yoe) == 146096 - 365,
{
    lemma_cycle_shift(era, yoe);
    lemma_cycle_shift(era, yoe + 1);
    reveal_with_fuel(days_before_month, 4);
}

/// Four centuries have 146097 days and repeat their leap years.
pub proof fn lemma_cycle_shift(era: int, y: int)
    ensures
        days_before_year(y + era * 400) == days_before_year(y) + 146097 * era,
        leap(y + era * 400) == leap(y),
{
    lemma_shift(y, era * 100, 4);
    lemma_shift(y, era * 4, 100);
    lemma_shift(y, era, 400);
    lemma_shift(y + 3, era * 100, 4);
    lemma_shift(y + 99, era * 4, 100);
    lemma_shift(y + 399, era, 400);
}

/// Multiples of the divisor only shift the quotient.
proof fn lemma_shift(a: int, k: int, d: int)
    requires
        d > 0,
    ensures
        (a + k * d) / d == a / d + k,
        (a + k * d) % d == a % d,
{
    vstd::arithmetic::div_mod::lemma_fundamental_div_mod(a, d);
    vstd::arithmetic::div_mod::lemma_mod_bound(a, d);
    assert(a + k * d == (a / d + k) * d + a % d) by (nonlinear_arith)
        requires
            a == d * (a / d) + a % d,
    ;
    vstd::arithmetic::div_mod::lemma_fundamental_div_mod_converse(a + k * d, d, a / d + k, a % d);
}

/// The civil date that is `days` days after 1970-01-01.
pub fn civil_from_days(days: i64) -> (date: Date)
    ensures
        date.valid(),
        date.day_number() == days,
{
    // Shift the epoch from 1970-01-01 to 0000-03-01.
    let z: i128 = days as i128 + 719468;
    let era: i128 = if z >= 0 { z / 146097 } else { -((146096 - z) / 146097) };
    let doe: i128 = z - era * 146097;
    let yoe: i128 = (doe - doe / 1460 + doe / 36524 - doe / 146096) / 365;
    proof {
        lemma_year_of_cycle(doe as int, yoe as int);
        lemma_cycle_start(era as int, yoe as int);
    }
    let y: i128 = yoe + era * 400;
    let doy: i128 = doe - (365 * yoe + yoe / 4 - yoe / 100);
    let mp: i128 = (5 * doy + 2) / 153;
    proof {
        lemma_march_date(y as int, doy as int, mp as int);
    }
    let day: i128 = doy - (153 * mp + 2) / 5 + 1;
    let month: i128 = if mp < 10 { mp + 3 } else { mp - 9 };
    let year: i128 = if month <= 2 { y + 1 } else { y };
    Date { year: year as i64, month: month as u8, day: day as u8 }
}

/// Appends `y-mm-dd`.
fn push_date(out: &mut String, date: Date, year_width: usize)
    ensures
        final(out)@ == old(out)@ + date_text(date, year_width as int),
{
    text::push_zero_padded(out, date.year as i128, year_width);
    out.push('-');
    text::push_zero_padded(out, date.month as i128, 2);
    out.push('-');
    text::push_zero_padded(out, date.day as i128, 2);
    assert(out@ =~= old(out)@ + date_text(date, year_width as int));
}

/// The day `days` after 1970-01-01 as `YYYY-MM-DD`, for every day count.
pub fn unix_days_to_date(days: i64) -> (text: String)
    ensures
        text@ == date_text(date_of(days as int), 4),
{
    let date = civil_from_days(days);
    proof {
        lemma_date_of(date);
    }
    let mut out = String::new();
    push_date(&mut out, date, 4);
    assert(out@ =~= date_text(date, 4));
    out
}

/// Whether `y` is a leap year of the Gregorian calendar.
#[verifier::spinoff_prover]
pub fn is_leap(y: i64) -> (b: bool)
    ensures
        b == leap(y as int),
{
    (y % 4 == 0 && y % 100 != 0) || y % 400 == 0
}

/// The number of days of month `m` of year `y`.
fn month_days(y: i64, m: u8) -> (n: u8)
    requires
        1 <= m <= 12,
    ensures
        n == month_len(y as int, m as int),
{
    if m == 2 {
        if is_leap(y) {
            29
        } else {
            28
        }
    } else if m == 4 || m == 6 || m == 9 || m == 11 {
        30
    } else {
        31
    }
}

/// Moves `date` to the next day.
fn step_forward(date: &mut Date)
    requires
        old(date).valid(),
        old(date).year < i64::MAX,
    ensures
        final(date).valid(),
        final(date).day_number() == old(date).day_number() + 1,
{
    proof {
        lemma_year_length(date.year as int);
        reveal_with_fuel(days_before_month, 2);
    }
    if date.day < month_days(date.year, date.month) {
        date.day = date.day + 1;
    } else if date.month < 12 {
        date.day = 1;
        date.month = date.month + 1;
    } else {
        date.day = 1;
        date.month = 1;
        date.year = date.year + 1;
    }
}

/// Moves `date` to the day before.
fn step_back(date: &mut Date)
    requires
        old(date).valid(),
        old(date).year > i64::MIN,
    ensures
        final(date).valid(),
        final(date).day_number() == old(date).day_number() - 1,
{
    proof {
        lemma_year_length(date.year - 1);
        reveal_with_fuel(days_before_month, 2);
    }
    if date.day > 1 {
        date.day = date.day - 1;
    } else if date.month > 1 {
        date.month = date.month - 1;
        date.day = month_days(date.year, date.month);
    } else {
        date.year = date.year - 1;
        date.month = 12;
        date.day = month_days(date.year, 12);
    }
}

/// The day number of 1899-12-31, from which spreadsheets count.
pub open spec fn spreadsheet_epoch() -> int {
    -25568
}

/// The day `days` after 1899-12-31 as `y-MM-DD`, found by walking the calendar.
pub fn days_to_ymd(days: i64) -> (text: String)
    ensures
        text@ == date_text(date_of(spreadsheet_epoch() + days), 0),
{
    let mut date = Date { year: 1899, month: 12, day: 31 };
    proof {
        reveal_with_fuel(days_before_month, 13);
        assert(date.day_number() == spreadsheet_epoch());
    }
    let mut left: i64 = days;
    while left > 0
        invariant
            date.valid(),
            left == days || 0 <= left < days,
            date.day_number() + left == spreadsheet_epoch() + days,
        decreases left,
    {
        proof {
            lemma_day_within_year(date);
        }
        step_forward(&mut date);
        left = left - 1;
    }
    while left < 0
        invariant
            date.valid(),
            left == 0 || days <= left < 0,
            date.day_number() + left == spreadsheet_epoch() + days,
        decreases -left,
    {
        proof {
            lemma_day_within_year(date);
        }
        step_back(&mut date);
        left = left + 1;
    }
    proof {
        lemma_date_of(date);
    }
    let mut out = String::new();
    push_date(&mut out, date, 0);
    assert(out@ =~= date_text(date, 0));
    out
}

/// The day number of the spreadsheet serial number `days`.
pub open spec fn spreadsheet_serial_day(days: int) -> int {
    spreadsheet_epoch() + (if days > 60 { days - 1 } else { days })
}

/// The text of a spreadsheet date whose serial number has the whole part
/// `days` and is itself written as `plain`.
///
/// Serial 60 is the day 1900-02-29, which never was; the days after it are
/// therefore one behind the calendar.
pub open spec fn serial_date_text(days: int, plain: Seq<char>) -> Seq<char> {
    if days <= 0 {
        plain
    } else if days == 60 {
        "1900-02-29"@
    } else {
        date_text(date_of(spreadsheet_serial_day(days)), 0)
    }
}

/// The date of a spreadsheet serial number, given the whole part of the number
/// and the number as it is displayed.
pub fn excel_serial_to_date(days: i64, plain: &str) -> (text: String)
    ensures
        text@ == serial_date_text(days as int, plain@),
{
    if days <= 0 {
        return plain.to_owned();
    }
    if days == 60 {
        return "1900-02-29".to_owned();
    }
    if days > 60 {
        days_to_ymd(days - 1)
    } else {
        days_to_ymd(days)
    }
}

/// Up to serial 59 and from serial 61 on, the next serial number is the next
/// day; serials 59 and 61 lie on adjacent days.
pub proof fn lemma_serial_days(days: int)
    requires
        0 < days,
    ensures
        spreadsheet_serial_day(59) + 1 == spreadsheet_serial_day(61),
        days != 59 && days != 60 ==> spreadsheet_serial_day(days + 1) == spreadsheet_serial_day(
            days,
        ) + 1,
{
}

// ---------------------------------------------------------------------------
// What dates are
// ---------------------------------------------------------------------------

/// `n` in two digits.
pub open spec fn two_digits(s: Seq<char>, n: int) -> bool {
    &&& s.len() == 2
    &&& text::all_digits(s)
    &&& text::value_of(s) == n
}

/// A number below a hundred takes two digits.
pub proof fn lemma_two_digits(n: int)
    requires
        0 <= n < 100,
    ensures
        two_digits(text::zero_padded(n, 2), n),
{
    text::lemma_padded_reads_back(n, 2);
    reveal_with_fuel(text::digits, 3);
}

/// `date` is a day of the calendar: the months have the lengths that they have, and
/// February has 29 days in the years that are multiples of 4, but for those that are
/// multiples of 100 and not of 400.
pub open spec fn on_calendar(year: int, month: int, day: int) -> bool {
    &&& 1 <= month <= 12
    &&& 1 <= day <= 31
    &&& month == 4 || month == 6 || month == 9 || month == 11 ==> day <= 30
    &&& month == 2 ==> day <= 29
    &&& month == 2 && day == 29 ==> year % 4 == 0 && (year % 100 != 0 || year % 400 == 0)
}

/// There is a date for every number of days that a machine can hold, and it is on the
/// calendar.
pub proof fn lemma_date_is_on_calendar(n: int)
    requires
        i64::MIN <= n <= i64::MAX,
    ensures
        date_of(n).valid(),
        date_of(n).day_number() == n,
        on_calendar(
            date_of(n).year as int,
            date_of(n).month as int,
            date_of(n).day as int,
        ),
{
    lemma_date_exists(n);
}

/// The date of a day is found as `civil_from_days` finds it.
proof fn lemma_date_exists(n: int)
    requires
        i64::MIN <= n <= i64::MAX,
    ensures
        date_of(n).valid() && date_of(n).day_number() == n,
{
    let z = n + 719468;
    let era = z / 146097;
    let doe = z % 146097;
    vstd::arithmetic::div_mod::lemma_fundamental_div_mod(z, 146097);
    let yoe = (doe - doe / 1460 + doe / 36524 - doe / 146096) / 365;
    lemma_year_of_cycle(doe, yoe);
    lemma_cycle_start(era, yoe);
    let y = yoe + era * 400;
    let doy = doe - (365 * yoe + yoe / 4 - yoe / 100);
    let mp = (5 * doy + 2) / 153;
    lemma_march_date(y, doy, mp);
    let month = if mp < 10 {
        mp + 3
    } else {
        mp - 9
    };
    let year = if month <= 2 {
        y + 1
    } else {
        y
    };
    let day = doy - march_days(mp) + 1;
    assert(i64::MIN <= year <= i64::MAX);
    let date = Date { year: year as i64, month: month as u8, day: day as u8 };
    assert(date.valid() && date.day_number() == n);
}

/// Day 0 is 1970-01-01, and the date of the next day is the next date of the calendar:
/// the next day of the month, or the first of the next month where the month is over.
pub proof fn lemma_next_day(n: int)
    requires
        i64::MIN <= n < i64::MAX,
    ensures
        date_of(0) == (Date { year: 1970, month: 1, day: 1 }),
        ({
            let today = date_of(n);
            let tomorrow = date_of(n + 1);
            ||| tomorrow == Date { day: (today.day + 1) as u8, ..today }
            ||| tomorrow == Date { month: (today.month + 1) as u8, day: 1, ..today }
                && !on_calendar(today.year as int, today.month as int, today.day + 1)
            ||| tomorrow == Date { year: (today.year + 1) as i64, month: 1, day: 1 }
                && today.month == 12 && today.day == 31
        }),
{
    lemma_date_exists(n);
    lemma_date_exists(n + 1);
    let today = date_of(n);
    let y = today.year as int;
    let m = today.month as int;
    lemma_year_length(y);
    lemma_day_within_year(today);
    reveal_with_fuel(days_before_month, 13);
    let epoch = Date { year: 1970, month: 1, day: 1 };
    assert(epoch.valid() && epoch.day_number() == 0);
    lemma_date_of(epoch);
    if today.day < month_len(y, m) {
        let next = Date { day: (today.day + 1) as u8, ..today };
        assert(next.valid() && next.day_number() == n + 1);
        lemma_date_of(next);
    } else if m < 12 {
        let next = Date { month: (today.month + 1) as u8, day: 1, ..today };
        assert(next.valid() && next.day_number() == n + 1);
        lemma_date_of(next);
    } else {
        let next = Date { year: (today.year + 1) as i64, month: 1, day: 1 };
        assert(next.valid() && next.day_number() == n + 1);
        lemma_date_of(next);
    }
}

/// A date is written as its year, its month in two digits and its day in two digits,
/// with a hyphen between them. A year from 0 on is digits alone, at least as many as
/// were asked for.
pub proof fn lemma_date_reads_back(date: Date, year_width: int)
    requires
        date.valid(),
        date.year >= 0,
    ensures
        ({
            let s = date_text(date, year_width);
            let n = s.len() - 6;
            &&& n >= 1
            &&& n >= year_width
            &&& text::all_digits(s.take(n))
            &&& text::value_of(s.take(n)) == date.year
            &&& n == year_width || text::reads_as(s.take(n), date.year as int)
            &&& s[n] == '-'
            &&& two_digits(s.subrange(n + 1, n + 3), date.month as int)
            &&& s[n + 3] == '-'
            &&& two_digits(s.subrange(n + 4, n + 6), date.day as int)
        }),
{
    text::lemma_padded_reads_back(date.year as int, year_width);
    text::lemma_digits_read_back(date.year as nat);
    lemma_two_digits(date.month as int);
    lemma_two_digits(date.day as int);
    let s = date_text(date, year_width);
    let year = text::zero_padded(date.year as int, year_width);
    let n = year.len() as int;
    assert(s.len() == n + 6);
    assert(s.take(n) =~= year);
    assert(s.subrange(n + 1, n + 3) =~= text::zero_padded(date.month as int, 2));
    assert(s.subrange(n + 4, n + 6) =~= text::zero_padded(date.day as int, 2));
}

/// The serial numbers of spreadsheets count the days of the calendar: up to 59 from the
/// day before 1900-01-01, which lies 25568 days before 1970-01-01, and from 61 on one
/// day less, since serial 60 is a day that never was. Numbers below 1 are no dates.
pub proof fn lemma_serial_is_a_day(days: int, plain: Seq<char>)
    ensures
        days <= 0 ==> serial_date_text(days, plain) == plain,
        1 <= days <= 59 ==> serial_date_text(days, plain) == date_text(date_of(days - 25568), 0),
        days == 60 ==> serial_date_text(days, plain) == "1900-02-29"@,
        days > 60 ==> serial_date_text(days, plain) == date_text(date_of(days - 25569), 0),
{
}

/// A date before the year 0 is written in the same way, with a minus sign in front of
/// the digits of its year.
pub proof fn lemma_early_date_reads_back(date: Date, year_width: int)
    requires
        date.valid(),
        date.year < 0,
    ensures
        ({
            let s = date_text(date, year_width);
            let n = s.len() - 6;
            &&& n >= 2
            &&& n >= year_width
            &&& s[0] == '-'
            &&& text::all_digits(s.subrange(1, n))
            &&& text::value_of(s.subrange(1, n)) == -date.year
            &&& s[n] == '-'
            &&& two_digits(s.subrange(n + 1, n + 3), date.month as int)
            &&& s[n + 3] == '-'
            &&& two_digits(s.subrange(n + 4, n + 6), date.day as int)
        }),
{
    text::lemma_padded_negative_reads_back(date.year as int, year_width);
    lemma_two_digits(date.month as int);
    lemma_two_digits(date.day as int);
    let s = date_text(date, year_width);
    let year = text::zero_padded(date.year as int, year_width);
    let n = year.len() as int;
    assert(s.len() == n + 6);
    assert(s.subrange(1, n) =~= year.skip(1));
    assert(s.subrange(n + 1, n + 3) =~= text::zero_padded(date.month as int, 2));
    assert(s.subrange(n + 4, n + 6) =~= text::zero_padded(date.day as int, 2));
}

} // verus!
