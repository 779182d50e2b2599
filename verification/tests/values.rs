use dview::colors::{Color, ColorPalette};
use dview::dates::{civil_from_days, days_to_ymd, excel_serial_to_date, is_leap, unix_days_to_date, Date};
use dview::table::DataTable;
use dview::values::{arrow_value_to_str, cell_to_string, ArrowValue, CellValue, TimeUnit};

fn timestamp(unit: TimeUnit, v: i64) -> String {
    arrow_value_to_str(&ArrowValue::Timestamp(unit, v))
}

fn time(unit: TimeUnit, v: i64) -> String {
    arrow_value_to_str(&ArrowValue::Time(unit, v))
}

#[test]
fn plain_values() {
    assert_eq!(arrow_value_to_str(&ArrowValue::Int(i64::MIN)), "-9223372036854775808");
    assert_eq!(arrow_value_to_str(&ArrowValue::Int(0)), "0");
    assert_eq!(arrow_value_to_str(&ArrowValue::UInt(u64::MAX)), "18446744073709551615");
    assert_eq!(arrow_value_to_str(&ArrowValue::Bool(true)), "true");
    assert_eq!(arrow_value_to_str(&ArrowValue::Bool(false)), "false");
    assert_eq!(arrow_value_to_str(&ArrowValue::Text("0.1".to_string())), "0.1");
    assert_eq!(arrow_value_to_str(&ArrowValue::DurationSecond(-5)), "-5s");
    assert_eq!(arrow_value_to_str(&ArrowValue::DurationText("1.5".to_string())), "1.5s");
    assert_eq!(arrow_value_to_str(&ArrowValue::Other), "");
}

#[test]
fn timestamps_in_every_unit() {
    let day = 10957 * 86400 + 12 * 3600 + 34 * 60 + 5;
    assert_eq!(timestamp(TimeUnit::Second, day), "2000-01-01 12:34:05");
    assert_eq!(timestamp(TimeUnit::Millisecond, day * 1000 + 6), "2000-01-01 12:34:05.006");
    assert_eq!(
        timestamp(TimeUnit::Microsecond, day * 1_000_000 + 60_070),
        "2000-01-01 12:34:05.060070"
    );
    assert_eq!(
        timestamp(TimeUnit::Nanosecond, day * 1_000_000_000 + 999_999_999),
        "2000-01-01 12:34:05.999999999"
    );
    assert_eq!(timestamp(TimeUnit::Second, -1), "1969-12-31 23:59:59");
    assert_eq!(timestamp(TimeUnit::Millisecond, -1), "1969-12-31 23:59:59.999");
}

#[test]
fn timestamp_begins_with_the_date() {
    for days in [-800_000i32, -1, 0, 59, 60, 10957, 800_000] {
        let date = arrow_value_to_str(&ArrowValue::Date32(days));
        let noon = i64::from(days) * 86400 + 43200;
        assert_eq!(timestamp(TimeUnit::Second, noon), format!("{} 12:00:00", date));
        assert_eq!(arrow_value_to_str(&ArrowValue::Date64(noon * 1000)), date);
    }
}

#[test]
fn times_of_day() {
    assert_eq!(time(TimeUnit::Second, 3661), "01:01:01");
    assert_eq!(time(TimeUnit::Millisecond, 3_661_001), "01:01:01.001");
    assert_eq!(time(TimeUnit::Microsecond, 3_661_000_001), "01:01:01.000001");
    assert_eq!(time(TimeUnit::Nanosecond, 3_661_000_000_001), "01:01:01.000000001");
    assert_eq!(time(TimeUnit::Second, 360_000), "100:00:00");
    assert_eq!(time(TimeUnit::Second, -3661), "-1:-1:-1");
    assert_eq!(time(TimeUnit::Millisecond, -1), "00:00:-0.001");
}

#[test]
fn numbers_of_cells_lose_their_trailing_zeros() {
    let float = |f: f64| cell_to_string(&CellValue::Float(format!("{:.10}", f)));
    assert_eq!(float(1.5), "1.5");
    assert_eq!(float(100.0), "100");
    assert_eq!(float(0.0), "0");
    assert_eq!(float(-2.25), "-2.25");
    assert_eq!(float(0.1 + 0.2), "0.3");
}

#[test]
fn other_cells() {
    assert_eq!(cell_to_string(&CellValue::Empty), "");
    assert_eq!(cell_to_string(&CellValue::Text("a b".to_string())), "a b");
    assert_eq!(cell_to_string(&CellValue::Int(-7)), "-7");
    assert_eq!(cell_to_string(&CellValue::Bool(true)), "true");
    assert_eq!(cell_to_string(&CellValue::Duration(90_061)), "25:01:01");
    assert_eq!(cell_to_string(&CellValue::Duration(59)), "0:00:59");
    assert_eq!(cell_to_string(&CellValue::DurationIso("PT1H".to_string())), "PT1H");
    assert_eq!(cell_to_string(&CellValue::Error("#DIV/0!".to_string())), "#ERROR: #DIV/0!");
    let early = CellValue::DateTime { days: 0, plain: "0.5".to_string() };
    assert_eq!(cell_to_string(&early), "0.5");
}

#[test]
fn serial_dates() {
    assert_eq!(excel_serial_to_date(-3, "-2.5"), "-2.5");
    assert_eq!(excel_serial_to_date(2_958_465, ""), "9999-12-31");
    assert_eq!(days_to_ymd(0), "1899-12-31");
    assert_eq!(days_to_ymd(1), "1900-01-01");
    assert_eq!(days_to_ymd(-1), "1899-12-30");
    assert_eq!(days_to_ymd(-365), "1898-12-31");
}

#[test]
fn dates_far_away() {
    assert_eq!(unix_days_to_date(2_932_896), "9999-12-31");
    assert_eq!(unix_days_to_date(2_932_897), "10000-01-01");
    assert_eq!(unix_days_to_date(-719_529), "-001-12-31");
    // There is a date for every number of days.
    let last = civil_from_days(i64::MAX);
    assert!(1 <= last.month && last.month <= 12);
    let first = civil_from_days(i64::MIN);
    assert!(first.year < -25_000_000_000_000_000);
    assert_eq!(civil_from_days(-1), Date { year: 1969, month: 12, day: 31 });
}

#[test]
fn leap_years() {
    for y in [2000, 2024, 1600, 0, -4] {
        assert!(is_leap(y));
    }
    for y in [1900, 2023, 2100, -1, -100] {
        assert!(!is_leap(y));
    }
}

#[test]
fn column_widths_are_display_widths() {
    let table = DataTable::new(
        vec!["ID".to_string(), "x".to_string()],
        vec![vec!["北京上海".to_string()], vec!["1".to_string(), "12345".to_string(), "extra".to_string()]],
    );
    assert_eq!(table.column_widths, vec![8, 5]);
}

#[test]
fn refining_never_narrows() {
    let mut table = DataTable::new(vec!["long header".to_string(), "b".to_string()], vec![]);
    table.refine_widths(&["x".to_string(), "123456".to_string(), "beyond".to_string()]);
    assert_eq!(table.column_widths, vec![11, 6]);
}

#[test]
fn colours_take_turns() {
    let palette = ColorPalette::default();
    assert_eq!(palette.column_color(0), Color::Rgb(0xff, 0x6b, 0x6b));
    assert_eq!(palette.column_color(7), Color::Rgb(0xf0, 0x65, 0x95));
    for i in 0..20 {
        assert_eq!(palette.column_color(i), palette.column_color(i + 8));
    }
    assert_eq!(palette.cursor_fg, Color::White);
}
