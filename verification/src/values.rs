//! The values that column files and spreadsheets hold, and how a cell of the
//! table shows them.
use crate::dates;
use crate::text;
use vstd::prelude::*;

verus! {

// ---------------------------------------------------------------------------
// Division that rounds toward zero
// ---------------------------------------------------------------------------

/// `a / b` rounded toward zero, for a positive `b`.
pub open spec fn quotient(a: int, b: int) -> int {
    if a >= 0 {
        a / b
    } else {
        -((-a) / b)
    }
}

/// What `quotient` leaves; it has the sign of `a`.
pub open spec fn remainder(a: int, b: int) -> int {
    if a >= 0 {
        a % b
    } else {
        -((-a) % b)
    }
}

fn quotient_of(a: i128, b: i128) -> (q: i128)
    requires
        i128::MIN < a,
        0 < b,
    ensures
        q == quotient(a as int, b as int),
{
    if a >= 0 {
        a / b
    } else {
        proof {
            vstd::arithmetic::div_mod::lemma_div_pos_is_pos(-a as int, b as int);
            vstd::arithmetic::div_mod::lemma_div_is_ordered_by_denominator(-a as int, 1, b as int);
        }
        -((-a) / b)
    }
}

fn remainder_of(a: i128, b: i128) -> (r: i128)
    requires
        i128::MIN < a,
        0 < b,
    ensures
        r == remainder(a as int, b as int),
        -b < r < b,
{
    if a >= 0 {
        a % b
    } else {
        -((-a) % b)
    }
}

// ---------------------------------------------------------------------------
// Times of day
// ---------------------------------------------------------------------------

/// The unit that a time, a timestamp or a duration is counted in.
#[derive(Clone, Copy, Debug, PartialEq, Eq, Structural)]
pub enum TimeUnit {
    Second,
    Millisecond,
    Microsecond,
    Nanosecond,
}

impl TimeUnit {
    /// How many of the unit make a second.
    pub open spec fn per_second(self) -> int {
        match self {
            TimeUnit::Second => 1,
            TimeUnit::Millisecond => 1_000,
            TimeUnit::Microsecond => 1_000_000,
            TimeUnit::Nanosecond => 1_000_000_000,
        }
    }

    /// How many decimals show a second to the precision of the unit.
    pub open spec fn decimals(self) -> int {
        match self {
            TimeUnit::Second => 0,
            TimeUnit::Millisecond => 3,
            TimeUnit::Microsecond => 6,
            TimeUnit::Nanosecond => 9,
        }
    }

    fn per_second_of(self) -> (n: i128)
        ensures
            n == self.per_second(),
            1 <= n <= 1_000_000_000,
    {
        match self {
            TimeUnit::Second => 1,
            TimeUnit::Millisecond => 1_000,
            TimeUnit::Microsecond => 1_000_000,
            TimeUnit::Nanosecond => 1_000_000_000,
        }
    }

    fn decimals_of(self) -> (n: usize)
        ensures
            n == self.decimals(),
            n <= 9,
    {
        match self {
            TimeUnit::Second => 0,
            TimeUnit::Millisecond => 3,
            TimeUnit::Microsecond => 6,
            TimeUnit::Nanosecond => 9,
        }
    }
}

/// The digits of a number of seconds that is counted in `unit`: the whole
/// seconds and, for the finer units, a point and the decimals.
pub open spec fn second_digits(count: nat, unit: TimeUnit) -> Seq<char> {
    let whole = text::digits((count as int / unit.per_second()) as nat);
    if unit.decimals() == 0 {
        whole
    } else {
        whole + seq!['.'] + text::zero_padded(count as int % unit.per_second(), unit.decimals())
    }
}

/// A signed number of seconds that is counted in `unit`, with zeros between the
/// sign and the digits so that the whole seconds have two places.
pub open spec fn seconds_text(count: int, unit: TimeUnit) -> Seq<char> {
    let width: int = if unit.decimals() == 0 { 2 } else { unit.decimals() + 3 };
    let body = second_digits(text::magnitude(count), unit);
    text::sign(count) + text::repeated('0', width - text::sign(count).len() - body.len()) + body
}

/// `hh:mm:ss`, with the decimals of `unit`.
pub open spec fn clock_text(count: int, unit: TimeUnit) -> Seq<char> {
    let s = unit.per_second();
    text::zero_padded(quotient(count, 3600 * s), 2) + seq![':'] + text::zero_padded(
        quotient(remainder(count, 3600 * s), 60 * s),
        2,
    ) + seq![':'] + seconds_text(remainder(count, 60 * s), unit)
}

/// The date and the time of day that lie `count` units after 1970-01-01.
pub open spec fn timestamp_text(count: int, unit: TimeUnit) -> Seq<char> {
    let day = 86400 * unit.per_second();
    dates::date_text(dates::date_of(count / day), 4) + seq![' '] + clock_text(count % day, unit)
}

fn push_seconds(out: &mut String, count: i128, unit: TimeUnit)
    requires
        -0x1_0000_0000_0000_0000 < count < 0x1_0000_0000_0000_0000,
    ensures
        final(out)@ == old(out)@ + seconds_text(count as int, unit),
{
    let scale = unit.per_second_of();
    let places = unit.decimals_of();
    let negative = count < 0;
    let size: i128 = if negative { -count } else { count };
    let whole: i128 = size / scale;
    proof {
        vstd::arithmetic::div_mod::lemma_div_pos_is_pos(size as int, scale as int);
    }
    let mut body = String::new();
    text::push_digits(&mut body, whole as u128);
    if places > 0 {
        body.push('.');
        text::push_zero_padded(&mut body, size % scale, places);
    }
    assert(body@ =~= second_digits(text::magnitude(count as int), unit));
    let width: usize = if places == 0 { 2 } else { places + 3 };
    let total = body.as_str().unicode_len();
    let signed: usize = if negative { 1 } else { 0 };
    if negative {
        out.push('-');
    }
    if total < width && total + signed < width {
        text::push_repeated(out, '0', width - total - signed);
    }
    out.append(body.as_str());
    assert(out@ =~= old(out)@ + seconds_text(count as int, unit));
}

fn push_clock(out: &mut String, count: i64, unit: TimeUnit)
    ensures
        final(out)@ == old(out)@ + clock_text(count as int, unit),
{
    let scale = unit.per_second_of();
    let hour: i128 = 3600 * scale;
    let minute: i128 = 60 * scale;
    let hours = quotient_of(count as i128, hour);
    let past_hour = remainder_of(count as i128, hour);
    text::push_zero_padded(out, hours, 2);
    out.push(':');
    text::push_zero_padded(out, quotient_of(past_hour, minute), 2);
    out.push(':');
    push_seconds(out, remainder_of(count as i128, minute), unit);
    assert(out@ =~= old(out)@ + clock_text(count as int, unit));
}

/// `count / size` rounded down, and what it leaves.
fn floor_parts(count: i64, size: i128) -> (parts: (i64, i64))
    requires
        1 <= size <= 86_400_000_000_000,
    ensures
        parts.0 == count as int / size as int,
        parts.1 == count as int % size as int,
{
    let c: i128 = count as i128;
    let q: i128 = if c >= 0 { c / size } else { -((size - 1 - c) / size) };
    proof {
        lemma_floor_quotient(c as int, size as int);
    }
    (q as i64, (c - q * size) as i64)
}

/// The rounded down quotient of a negative number, found from a positive one;
/// it is no farther from zero than the number itself.
proof fn lemma_floor_quotient(a: int, b: int)
    requires
        1 <= b,
    ensures
        a < 0 ==> a / b == -((b - 1 - a) / b),
        a == (a / b) * b + a % b,
        0 <= a % b < b,
        a < 0 ==> a <= a / b < 0,
        a >= 0 ==> 0 <= a / b <= a,
{
    let k = (b - 1 - a) / b;
    let r = (b - 1 - a) % b;
    vstd::arithmetic::div_mod::lemma_fundamental_div_mod(a, b);
    vstd::arithmetic::div_mod::lemma_fundamental_div_mod(b - 1 - a, b);
    assert((-k) * b == -(b * k) && (a / b) * b == b * (a / b)) by (nonlinear_arith);
    vstd::arithmetic::div_mod::lemma_fundamental_div_mod_converse(a, b, -k, b - 1 - r);
    let q = a / b;
    let s = a % b;
    assert(a < 0 ==> a <= q < 0) by (nonlinear_arith)
        requires
            1 <= b,
            a == b * q + s,
            0 <= s < b,
    ;
    assert(a >= 0 ==> 0 <= q <= a) by (nonlinear_arith)
        requires
            1 <= b,
            a == b * q + s,
            0 <= s < b,
    ;
}

// ---------------------------------------------------------------------------
// Values of column files
// ---------------------------------------------------------------------------

/// One value of a column file. Floating-point values are carried as the text
/// that displays them.
#[derive(Debug)]
pub enum ArrowValue {
    /// No value.
    Null,
    Int(i64),
    UInt(u64),
    Bool(bool),
    /// A string, or a floating-point number as it is displayed.
    Text(String),
    /// Days since 1970-01-01.
    Date32(i32),
    /// Milliseconds since 1970-01-01.
    Date64(i64),
    /// Units since 1970-01-01.
    Timestamp(TimeUnit, i64),
    /// Units since midnight.
    Time(TimeUnit, i64),
    /// A duration in whole seconds.
    DurationSecond(i64),
    /// A duration in a finer unit, as its number of seconds is displayed.
    DurationText(String),
    /// A value of a type that has no display.
    Other,
}

/// The text of a cell of a column file.
pub open spec fn arrow_text(value: ArrowValue) -> Seq<char> {
    match value {
        ArrowValue::Null => seq![],
        ArrowValue::Int(v) => text::decimal(v as int),
        ArrowValue::UInt(v) => text::decimal(v as int),
        ArrowValue::Bool(b) => if b { "true"@ } else { "false"@ },
        ArrowValue::Text(s) => s@,
        ArrowValue::Date32(days) => dates::date_text(dates::date_of(days as int), 4),
        ArrowValue::Date64(ms) => dates::date_text(dates::date_of(ms as int / 86_400_000), 4),
        ArrowValue::Timestamp(unit, v) => timestamp_text(v as int, unit),
        ArrowValue::Time(unit, v) => clock_text(v as int, unit),
        ArrowValue::DurationSecond(v) => text::decimal(v as int) + seq!['s'],
        ArrowValue::DurationText(s) => s@ + seq!['s'],
        ArrowValue::Other => seq![],
    }
}

/// A day shows the same whether it is counted in days or in milliseconds, at any
/// time of the day.
pub proof fn lemma_day_in_milliseconds(days: i32, ms: i64)
    requires
        days * 86_400_000 <= ms < (days + 1) * 86_400_000,
    ensures
        arrow_text(ArrowValue::Date64(ms)) == arrow_text(ArrowValue::Date32(days)),
{
    vstd::arithmetic::div_mod::lemma_fundamental_div_mod_converse(
        ms as int,
        86_400_000,
        days as int,
        ms - days * 86_400_000,
    );
}

/// A point in time begins with the date of its day, in whatever unit it is
/// counted.
pub proof fn lemma_timestamp_begins_with_date(unit: TimeUnit, days: i32, time: i64)
    requires
        0 <= time < 86400 * unit.per_second(),
        i64::MIN <= days * (86400 * unit.per_second()) + time <= i64::MAX,
    ensures
        arrow_text(
            ArrowValue::Timestamp(
                unit,
                (days * (86400 * unit.per_second()) + time) as i64,
            ),
        ) == arrow_text(ArrowValue::Date32(days)) + seq![' '] + arrow_text(
            ArrowValue::Time(unit, time),
        ),
{
    vstd::arithmetic::div_mod::lemma_fundamental_div_mod_converse(
        days * (86400 * unit.per_second()) + time,
        86400 * unit.per_second(),
        days as int,
        time as int,
    );
}

fn bool_text(b: bool) -> (text: String)
    ensures
        text@ == (if b { "true"@ } else { "false"@ }),
{
    if b {
        "true".to_owned()
    } else {
        "false".to_owned()
    }
}

/// The text that a cell shows for a value of a column file.
pub fn arrow_value_to_str(value: &ArrowValue) -> (text: String)
    ensures
        text@ == arrow_text(*value),
{
    match value {
        ArrowValue::Null => String::new(),
        ArrowValue::Int(v) => text::decimal_text(*v as i128),
        ArrowValue::UInt(v) => text::decimal_text(*v as i128),
        ArrowValue::Bool(b) => bool_text(*b),
        ArrowValue::Text(s) => s.clone(),
        ArrowValue::Date32(days) => dates::unix_days_to_date(*days as i64),
        ArrowValue::Date64(ms) => dates::unix_days_to_date(floor_parts(*ms, 86_400_000).0),
        ArrowValue::Timestamp(unit, v) => {
            let parts = floor_parts(*v, 86400 * unit.per_second_of());
            let mut out = dates::unix_days_to_date(parts.0);
            out.push(' ');
            push_clock(&mut out, parts.1, *unit);
            assert(out@ =~= timestamp_text(*v as int, *unit));
            out
        },
        ArrowValue::Time(unit, v) => {
            let mut out = String::new();
            push_clock(&mut out, *v, *unit);
            assert(out@ =~= clock_text(*v as int, *unit));
            out
        },
        ArrowValue::DurationSecond(v) => {
            let mut out = text::decimal_text(*v as i128);
            out.push('s');
            out
        },
        ArrowValue::DurationText(s) => {
            let mut out = s.clone();
            out.push('s');
            out
        },
        ArrowValue::Other => String::new(),
    }
}

// ---------------------------------------------------------------------------
// Values of spreadsheet cells
// ---------------------------------------------------------------------------

/// The value of a spreadsheet cell. Floating-point numbers are carried as the
/// texts and whole numbers that the display needs of them.
#[derive(Debug)]
pub enum CellValue {
    Empty,
    Text(String),
    /// A number, written with ten decimals.
    Float(String),
    Int(i64),
    Bool(bool),
    /// A date by its serial number: the whole part and the number as displayed.
    DateTime { days: i64, plain: String },
    /// A duration, in seconds.
    Duration(i64),
    DateTimeIso(String),
    DurationIso(String),
    /// An error value, by its display name.
    Error(String),
}

/// `s` without the copies of `c` at its end.
pub open spec fn trimmed_end(s: Seq<char>, c: char) -> Seq<char>
    decreases s.len(),
{
    if s.len() > 0 && s.last() == c {
        trimmed_end(s.drop_last(), c)
    } else {
        s
    }
}

/// `h:mm:ss`.
pub open spec fn duration_text(seconds: int) -> Seq<char> {
    text::decimal(quotient(seconds, 3600)) + seq![':'] + text::zero_padded(
        quotient(remainder(seconds, 3600), 60),
        2,
    ) + seq![':'] + text::zero_padded(remainder(seconds, 60), 2)
}

/// The text of a spreadsheet cell.
pub open spec fn cell_text(cell: CellValue) -> Seq<char> {
    match cell {
        CellValue::Empty => seq![],
        CellValue::Text(s) => s@,
        CellValue::Float(s) => trimmed_end(trimmed_end(s@, '0'), '.'),
        CellValue::Int(v) => text::decimal(v as int),
        CellValue::Bool(b) => if b { "true"@ } else { "false"@ },
        CellValue::DateTime { days, plain } => dates::serial_date_text(days as int, plain@),
        CellValue::Duration(seconds) => duration_text(seconds as int),
        CellValue::DateTimeIso(s) => s@,
        CellValue::DurationIso(s) => s@,
        CellValue::Error(name) => "#ERROR: "@ + name@,
    }
}

/// `s` without the copies of `c` at its end.
fn trim_end(s: &str, c: char) -> (t: &str)
    ensures
        t@ == trimmed_end(s@, c),
{
    let mut end = s.unicode_len();
    assert(s@.take(end as int) =~= s@);
    while end > 0 && s.get_char(end - 1) == c
        invariant
            end <= s@.len(),
            trimmed_end(s@.take(end as int), c) == trimmed_end(s@, c),
        decreases end,
    {
        assert(s@.take(end as int).drop_last() =~= s@.take(end - 1));
        end = end - 1;
    }
    assert(s@.subrange(0, end as int) =~= s@.take(end as int));
    s.substring_char(0, end)
}

/// The text that a table cell shows for a spreadsheet cell.
pub fn cell_to_string(cell: &CellValue) -> (text: String)
    ensures
        text@ == cell_text(*cell),
{
    match cell {
        CellValue::Empty => String::new(),
        CellValue::Text(s) => s.clone(),
        CellValue::Float(s) => trim_end(trim_end(s.as_str(), '0'), '.').to_owned(),
        CellValue::Int(v) => text::decimal_text(*v as i128),
        CellValue::Bool(b) => bool_text(*b),
        CellValue::DateTime { days, plain } => dates::excel_serial_to_date(*days, plain.as_str()),
        CellValue::Duration(seconds) => {
            let total: i128 = *seconds as i128;
            let mut out = text::decimal_text(quotient_of(total, 3600));
            out.push(':');
            text::push_zero_padded(&mut out, quotient_of(remainder_of(total, 3600), 60), 2);
            out.push(':');
            text::push_zero_padded(&mut out, remainder_of(total, 60), 2);
            assert(out@ =~= duration_text(*seconds as int));
            out
        },
        CellValue::DateTimeIso(s) => s.clone(),
        CellValue::DurationIso(s) => s.clone(),
        CellValue::Error(name) => {
            let mut out = "#ERROR: ".to_owned();
            out.append(name.as_str());
            out
        },
    }
}

// ---------------------------------------------------------------------------
// What cells show
// ---------------------------------------------------------------------------

/// Whole numbers read back as what they are, in decimal, whichever type they have: a
/// number that several types can hold has the same text in each.
pub proof fn lemma_integers_read_back(v: i64, u: u64)
    ensures
        text::reads_as(arrow_text(ArrowValue::Int(v)), v as int),
        text::reads_as(arrow_text(ArrowValue::UInt(u)), u as int),
        text::reads_as(cell_text(CellValue::Int(v)), v as int),
        v == u ==> arrow_text(ArrowValue::Int(v)) == arrow_text(ArrowValue::UInt(u)),
        arrow_text(ArrowValue::Int(v)) == cell_text(CellValue::Int(v)),
        v >= 0 ==> text::all_digits(arrow_text(ArrowValue::Int(v))),
{
    text::lemma_decimal_reads_back(v as int);
    text::lemma_decimal_reads_back(u as int);
}

/// A duration in whole seconds is the number of seconds and an `s`.
pub proof fn lemma_seconds_read_back(v: i64)
    ensures
        arrow_text(ArrowValue::DurationSecond(v)).len() >= 2,
        arrow_text(ArrowValue::DurationSecond(v)).last() == 's',
        text::reads_as(arrow_text(ArrowValue::DurationSecond(v)).drop_last(), v as int),
{
    text::lemma_decimal_reads_back(v as int);
    assert(arrow_text(ArrowValue::DurationSecond(v)).drop_last() =~= text::decimal(v as int));
}

/// What is no value shows nothing, and texts show themselves. Truth values are words.
pub proof fn lemma_texts_show_themselves(s: String, b: bool)
    ensures
        arrow_text(ArrowValue::Null).len() == 0,
        arrow_text(ArrowValue::Other).len() == 0,
        cell_text(CellValue::Empty).len() == 0,
        arrow_text(ArrowValue::Text(s)) == s@,
        cell_text(CellValue::Text(s)) == s@,
        cell_text(CellValue::DateTimeIso(s)) == s@,
        cell_text(CellValue::DurationIso(s)) == s@,
        arrow_text(ArrowValue::DurationText(s)).drop_last() == s@,
        arrow_text(ArrowValue::DurationText(s)).last() == 's',
        cell_text(CellValue::Error(s)).len() == 8 + s@.len(),
        cell_text(CellValue::Error(s)).skip(8) == s@,
        arrow_text(ArrowValue::Bool(b)) == cell_text(CellValue::Bool(b)),
        arrow_text(ArrowValue::Bool(true)) == seq!['t', 'r', 'u', 'e'],
        arrow_text(ArrowValue::Bool(false)) == seq!['f', 'a', 'l', 's', 'e'],
{
    reveal_strlit("true");
    reveal_strlit("false");
    reveal_strlit("#ERROR: ");
    assert(arrow_text(ArrowValue::DurationText(s)).drop_last() =~= s@);
    assert(cell_text(CellValue::Error(s)).skip(8) =~= s@);
    assert(arrow_text(ArrowValue::Bool(true)) =~= seq!['t', 'r', 'u', 'e']);
    assert(arrow_text(ArrowValue::Bool(false)) =~= seq!['f', 'a', 'l', 's', 'e']);
}

/// Days and milliseconds show the date of the day that they fall on. `date` is that
/// date: a day of the calendar, `days` days after 1970-01-01.
pub proof fn lemma_days_show_their_date(date: dates::Date, days: i32, ms: i64)
    requires
        date.valid(),
        date.day_number() == days,
        days * 86_400_000 <= ms < (days + 1) * 86_400_000,
    ensures
        arrow_text(ArrowValue::Date32(days)) == dates::date_text(date, 4),
        arrow_text(ArrowValue::Date64(ms)) == dates::date_text(date, 4),
{
    dates::lemma_date_of(date);
    lemma_day_in_milliseconds(days, ms);
}

/// A time of the day reads back: two digits each for the hours, the minutes and the
/// seconds, and behind a point the decimals of its unit, three for milliseconds, six for
/// microseconds and nine for nanoseconds. `h`, `m`, `s` and `part` are what it is made
/// of: `part` of the unit beyond `h` hours, `m` minutes and `s` seconds.
pub proof fn lemma_time_reads_back(unit: TimeUnit, h: int, m: int, s: int, part: int, v: i64)
    requires
        0 <= h < 24,
        0 <= m < 60,
        0 <= s < 60,
        ({
            let size: int = match unit {
                TimeUnit::Second => 1,
                TimeUnit::Millisecond => 1_000,
                TimeUnit::Microsecond => 1_000_000,
                TimeUnit::Nanosecond => 1_000_000_000,
            };
            0 <= part < size && v == ((h * 60 + m) * 60 + s) * size + part
        }),
    ensures
        ({
            let places: int = match unit {
                TimeUnit::Second => 0,
                TimeUnit::Millisecond => 3,
                TimeUnit::Microsecond => 6,
                TimeUnit::Nanosecond => 9,
            };
            let t = arrow_text(ArrowValue::Time(unit, v));
            &&& t.len() == (if places == 0 {
                8
            } else {
                9 + places
            })
            &&& dates::two_digits(t.subrange(0, 2), h)
            &&& t[2] == ':'
            &&& dates::two_digits(t.subrange(3, 5), m)
            &&& t[5] == ':'
            &&& dates::two_digits(t.subrange(6, 8), s)
            &&& places > 0 ==> {
                &&& t[8] == '.'
                &&& text::all_digits(t.skip(9))
                &&& text::value_of(t.skip(9)) == part
            }
        }),
{
    let size = unit.per_second();
    let places = unit.decimals();
    let count = v as int;
    let past_hour = (m * 60 + s) * size + part;
    let past_minute = s * size + part;
    assert(count == h * (3600 * size) + past_hour && past_hour == m * (60 * size) + past_minute
        && 0 <= past_hour < 3600 * size && 0 <= past_minute < 60 * size && count >= 0
        && count == (h * 60 + m) * (60 * size) + past_minute) by (nonlinear_arith)
        requires
            count == ((h * 60 + m) * 60 + s) * size + part,
            past_hour == (m * 60 + s) * size + part,
            past_minute == s * size + part,
            0 <= h,
            0 <= m < 60,
            0 <= s < 60,
            0 <= part < size,
    ;
    vstd::arithmetic::div_mod::lemma_fundamental_div_mod_converse(
        count,
        3600 * size,
        h,
        past_hour,
    );
    vstd::arithmetic::div_mod::lemma_fundamental_div_mod_converse(
        past_hour,
        60 * size,
        m,
        past_minute,
    );
    vstd::arithmetic::div_mod::lemma_fundamental_div_mod_converse(
        count,
        60 * size,
        h * 60 + m,
        past_minute,
    );
    vstd::arithmetic::div_mod::lemma_fundamental_div_mod_converse(past_minute, size, s, part);
    dates::lemma_two_digits(h);
    dates::lemma_two_digits(m);
    dates::lemma_two_digits(s);
    lemma_seconds_text(unit, s, part);
    let t = arrow_text(ArrowValue::Time(unit, v));
    let tail = seconds_text(past_minute, unit);
    assert(t =~= text::zero_padded(h, 2) + seq![':'] + text::zero_padded(m, 2) + seq![':'] + tail);
    assert(t.subrange(0, 2) =~= text::zero_padded(h, 2));
    assert(t.subrange(3, 5) =~= text::zero_padded(m, 2));
    assert(t.subrange(6, 8) =~= tail.take(2));
    if places > 0 {
        assert(t.skip(9) =~= tail.skip(3));
    }
}

/// Seconds below a minute: two digits, and the decimals of the unit.
proof fn lemma_seconds_text(unit: TimeUnit, s: int, part: int)
    requires
        0 <= s < 60,
        0 <= part < unit.per_second(),
    ensures
        ({
            let t = seconds_text(s * unit.per_second() + part, unit);
            let places = unit.decimals();
            &&& t.len() == (if places == 0 {
                2
            } else {
                3 + places
            })
            &&& dates::two_digits(t.take(2), s)
            &&& places > 0 ==> t[2] == '.' && text::all_digits(t.skip(3)) && text::value_of(
                t.skip(3),
            ) == part
        }),
{
    let size = unit.per_second();
    let places = unit.decimals();
    let count = s * size + part;
    assert(count >= 0) by (nonlinear_arith)
        requires
            count == s * size + part,
            0 <= s,
            0 <= part < size,
    ;
    vstd::arithmetic::div_mod::lemma_fundamental_div_mod_converse(count, size, s, part);
    let whole = text::digits(s as nat);
    reveal_with_fuel(text::digits, 3);
    dates::lemma_two_digits(s);
    let t = seconds_text(count, unit);
    let padded = text::zero_padded(s, 2);
    if places == 0 {
        assert(t =~= padded);
        assert(t.take(2) =~= padded);
    } else {
        text::lemma_padded_reads_back(part, places);
        lemma_part_digits(part, places);
        let decimals = text::zero_padded(part, places);
        assert(decimals.len() == places);
        assert(t =~= padded + seq!['.'] + decimals);
        assert(t.take(2) =~= padded);
        assert(t.skip(3) =~= decimals);
    }
}

/// Decimals have as many places as there are.
proof fn lemma_part_digits(part: int, places: int)
    requires
        places == 3 && 0 <= part < 1_000 || places == 6 && 0 <= part < 1_000_000 || places == 9
            && 0 <= part < 1_000_000_000,
    ensures
        text::digits(part as nat).len() <= places,
{
    reveal_with_fuel(text::digits, 10);
}

/// A duration of a spreadsheet reads back: `h` hours, and two digits each for `m`
/// minutes and `s` seconds.
pub proof fn lemma_duration_reads_back(h: int, m: int, s: int, v: i64)
    requires
        0 <= h,
        0 <= m < 60,
        0 <= s < 60,
        v == (h * 60 + m) * 60 + s,
    ensures
        ({
            let t = cell_text(CellValue::Duration(v));
            let n = t.len() - 6;
            &&& n >= 1
            &&& text::reads_as(t.take(n), h)
            &&& t[n] == ':'
            &&& dates::two_digits(t.subrange(n + 1, n + 3), m)
            &&& t[n + 3] == ':'
            &&& dates::two_digits(t.subrange(n + 4, n + 6), s)
        }),
{
    text::lemma_decimal_reads_back(h);
    dates::lemma_two_digits(m);
    dates::lemma_two_digits(s);
    let t = cell_text(CellValue::Duration(v));
    let hours = text::decimal(h);
    let n = hours.len() as int;
    assert(quotient(v as int, 3600) == h && remainder(v as int, 3600) == m * 60 + s);
    assert(t =~= hours + seq![':'] + text::zero_padded(m, 2) + seq![':'] + text::zero_padded(s, 2));
    assert(t.take(n) =~= hours);
    assert(t.subrange(n + 1, n + 3) =~= text::zero_padded(m, 2));
    assert(t.subrange(n + 4, n + 6) =~= text::zero_padded(s, 2));
}

/// Only copies of the character are cut off, and all of them.
pub proof fn lemma_trimmed_end(s: Seq<char>, c: char)
    ensures
        trimmed_end(s, c).len() <= s.len(),
        trimmed_end(s, c) == s.take(trimmed_end(s, c).len() as int),
        forall|i: int| trimmed_end(s, c).len() <= i < s.len() ==> #[trigger] s[i] == c,
        trimmed_end(s, c).len() > 0 ==> trimmed_end(s, c).last() != c,
    decreases s.len(),
{
    if s.len() > 0 && s.last() == c {
        lemma_trimmed_end(s.drop_last(), c);
        let t = trimmed_end(s, c);
        assert(s.take(t.len() as int) =~= s.drop_last().take(t.len() as int));
        assert forall|i: int| t.len() <= i < s.len() implies #[trigger] s[i] == c by {
            if i < s.len() - 1 {
                assert(s.drop_last()[i] == c);
            }
        }
    } else {
        assert(s.take(s.len() as int) =~= s);
    }
}

/// A number with decimals loses the zeros at its end, and its point where no decimals
/// are left, and nothing else: `whole` digits, a point, and decimals of which `kept` stay.
pub proof fn lemma_float_loses_zeros(s: String, whole: int, kept: int)
    requires
        0 < whole,
        whole + 1 + kept <= s@.len(),
        0 <= kept,
        s@[whole] == '.',
        s@[whole - 1] != '.',
        kept > 0 ==> s@[whole + kept] != '0' && s@[whole + kept] != '.',
        forall|i: int| whole + 1 + kept <= i < s@.len() ==> #[trigger] s@[i] == '0',
    ensures
        kept == 0 ==> cell_text(CellValue::Float(s)) == s@.take(whole),
        kept > 0 ==> cell_text(CellValue::Float(s)) == s@.take(whole + 1 + kept),
{
    let t = trimmed_end(s@, '0');
    let u = trimmed_end(t, '.');
    lemma_trimmed_end(s@, '0');
    lemma_trimmed_end(t, '.');
    let n = whole + 1 + kept;
    if t.len() > n {
        assert(t.last() == s@[t.len() - 1]);
        assert(s@[t.len() - 1] == '0');
    }
    if t.len() < n {
        assert(s@[n - 1] == '0');
    }
    assert(t =~= s@.take(n));
    if kept > 0 {
        if u.len() < n {
            assert(t[n - 1] == '.');
        }
        assert(u =~= s@.take(n));
    } else {
        if u.len() > whole {
            assert(u.last() == t[u.len() - 1]);
            assert(u.last() == s@[whole]);
        }
        if u.len() < whole {
            assert(t[whole - 1] == '.');
        }
        assert(u =~= s@.take(whole));
    }
}

/// Division rounds toward zero: what is left has the sign of the dividend.
pub proof fn lemma_quotient_and_remainder(a: int, b: int)
    requires
        b > 0,
    ensures
        a == quotient(a, b) * b + remainder(a, b),
        -b < remainder(a, b) < b,
        a >= 0 ==> remainder(a, b) >= 0 && quotient(a, b) >= 0,
        a <= 0 ==> remainder(a, b) <= 0 && quotient(a, b) <= 0,
{
    let m: int = if a >= 0 {
        a
    } else {
        -a
    };
    vstd::arithmetic::div_mod::lemma_fundamental_div_mod(m, b);
    vstd::arithmetic::div_mod::lemma_mod_bound(m, b);
    vstd::arithmetic::div_mod::lemma_div_pos_is_pos(m, b);
    let q = m / b;
    assert(q * b == b * q && (-q) * b == -(b * q)) by (nonlinear_arith);
}

/// A negative duration is written as its hours, minutes and seconds, each with the sign
/// that it has.
pub proof fn lemma_negative_duration(h: int, m: int, s: int, v: i64)
    requires
        h <= 0,
        -60 < m <= 0,
        -60 < s <= 0,
        v == (h * 60 + m) * 60 + s,
    ensures
        cell_text(CellValue::Duration(v)) == text::decimal(h) + seq![':'] + text::zero_padded(m, 2)
            + seq![':'] + text::zero_padded(s, 2),
{
    assert(quotient(v as int, 3600) == h && remainder(v as int, 3600) == m * 60 + s);
    assert(quotient(m * 60 + s, 60) == m && remainder(v as int, 60) == s);
}

/// A date of a spreadsheet shows what its serial number stands for, and in the years of
/// four digits the same as that day shows in a columnar file.
pub proof fn lemma_spreadsheet_dates(days: i64, plain: String, n: i32)
    requires
        60 < days,
        n == days - 25569,
        1000 <= dates::date_of(n as int).year <= 9999,
    ensures
        cell_text(CellValue::DateTime { days, plain }) == arrow_text(ArrowValue::Date32(n)),
{
    let date = dates::date_of(n as int);
    let year = text::digits(date.year as nat);
    reveal_with_fuel(text::digits, 5);
    assert(year.len() == 4);
    assert(text::zero_padded(date.year as int, 0) =~= year);
    assert(text::zero_padded(date.year as int, 4) =~= year);
}

} // verus!
