use dview::dates::{excel_serial_to_date, unix_days_to_date};
use dview::load::{file_format, load_file, Contents, Format, LoadError};
use dview::table::{DataTable, Fetch, Reply};
use dview::values::{arrow_value_to_str, cell_to_string, ArrowValue, CellValue, TimeUnit};

/// A file: its extension and its bytes.
struct DataFile {
    extension: &'static str,
    bytes: Vec<u8>,
}

fn file_of(extension: &'static str, content: &str) -> DataFile {
    DataFile { extension, bytes: content.as_bytes().to_vec() }
}

/// Loads a delimited file.
fn load(file: &DataFile) -> Result<Vec<(String, DataTable)>, LoadError> {
    match file_format(file.extension)? {
        Format::Delimited(delimiter) => load_file(
            Some("test".to_string()),
            Contents::Bytes { raw: file.bytes.clone(), delimiter },
        ),
        other => panic!("not a delimited file: {:?}", other),
    }
}

/// Row `idx`, with what is to be read from the file for it.
fn row_of(table: &mut DataTable, file: &DataFile, idx: usize) -> Vec<String> {
    if let Some(fetch) = table.row_fetch(idx) {
        match fetch {
            Fetch::Bytes(w) => {
                let bytes = file.bytes[w.start as usize..w.end as usize].to_vec();
                table.supply(fetch, Reply::Bytes(bytes));
            }
            Fetch::Rows(_) => unreachable!(),
        }
    }
    table.get_row(idx).to_vec()
}

// -----------------------------------------------------------------------
// CSV basic
// -----------------------------------------------------------------------

#[test]
fn test_load_csv() {
    let file = file_of("csv", "Name,Age,Score\nAlice,30,95.5\nBob,25,87.3\n");
    let sheets = load(&file).unwrap();
    let table = &sheets[0].1;
    assert_eq!(table.headers, vec!["Name", "Age", "Score"]);
    assert_eq!(table.total_rows(), 2);
    assert_eq!(table.total_cols(), 3);

    // CSV uses lazy backend — check via get_row.
    let mut table = load(&file).unwrap().into_iter().next().unwrap().1;
    assert_eq!(table.get_row(0), vec!["Alice", "30", "95.5"]);
    assert_eq!(table.get_row(1), vec!["Bob", "25", "87.3"]);
    for w in &table.column_widths {
        assert!(*w >= 4);
    }
}

// -----------------------------------------------------------------------
// TSV
// -----------------------------------------------------------------------

#[test]
fn test_load_tsv() {
    let file = file_of("tsv", "ColA\tColB\nx1\ty1\n");
    let mut table = load(&file).unwrap().into_iter().next().unwrap().1;
    assert_eq!(table.headers, vec!["ColA", "ColB"]);
    assert_eq!(table.total_rows(), 1);
    assert_eq!(table.get_row(0), vec!["x1", "y1"]);
}

#[test]
fn test_load_tab_extension() {
    let file = file_of("tab", "X\tY\n1\t2\n");
    let table = load(&file).unwrap().into_iter().next().unwrap().1;
    assert_eq!(table.headers, vec!["X", "Y"]);
    assert_eq!(table.total_rows(), 1);
}

// -----------------------------------------------------------------------
// CSV edge cases
// -----------------------------------------------------------------------

#[test]
fn test_csv_empty_fields() {
    let file = file_of("csv", "A,B,C\n,,\nalpha,,gamma\n");
    let mut table = load(&file).unwrap().into_iter().next().unwrap().1;
    assert_eq!(table.get_row(0), vec!["", "", ""]);
    assert_eq!(table.get_row(1), vec!["alpha", "", "gamma"]);
}

#[test]
fn test_csv_quoted_fields() {
    let file = file_of(
        "csv",
        "Name,Note\nAlice,\"hello, world\"\nBob,\"say \"\"hi\"\"\"\n",
    );
    let mut table = load(&file).unwrap().into_iter().next().unwrap().1;
    assert_eq!(table.get_row(0)[1], "hello, world");
    assert!(table.get_row(1)[1].contains("hi"));
}

#[test]
fn test_csv_headers_only() {
    let file = file_of("csv", "Col1,Col2,Col3\n");
    let table = load(&file).unwrap().into_iter().next().unwrap().1;
    assert_eq!(table.headers.len(), 3);
    assert_eq!(table.total_rows(), 0);
}

#[test]
fn test_csv_single_column() {
    let file = file_of("csv", "Only\n1\n2\n3\n");
    let mut table = load(&file).unwrap().into_iter().next().unwrap().1;
    assert_eq!(table.total_cols(), 1);
    assert_eq!(table.total_rows(), 3);
    assert_eq!(table.get_row(2), vec!["3"]);
}

// -----------------------------------------------------------------------
// CJK / Unicode width
// -----------------------------------------------------------------------

#[test]
fn test_cjk_column_widths() {
    let file = file_of("csv", "ID,城市\n1,北京\n2,上海\n");
    let table = load(&file).unwrap().into_iter().next().unwrap().1;
    assert_eq!(table.column_widths[0], 4);
    assert_eq!(table.column_widths[1], 4);
}

#[test]
fn test_cjk_data_loaded_correctly() {
    let file = file_of("csv", "名称,价格\n苹果,5\n香蕉,3\n");
    let mut table = load(&file).unwrap().into_iter().next().unwrap().1;
    assert_eq!(table.get_row(0), vec!["苹果", "5"]);
    assert_eq!(table.get_row(1), vec!["香蕉", "3"]);
}

// -----------------------------------------------------------------------
// Excel date conversion
// -----------------------------------------------------------------------

fn serial_to_date(serial: f64) -> String {
    excel_serial_to_date(serial.floor() as i64, &format!("{}", serial))
}

#[test]
fn test_excel_serial_date_conversion() {
    assert_eq!(serial_to_date(1.0), "1900-01-01");
    assert_eq!(serial_to_date(59.0), "1900-02-28");
    assert_eq!(serial_to_date(60.0), "1900-02-29");
    assert_eq!(serial_to_date(61.0), "1900-03-01");
    assert_eq!(serial_to_date(36526.0), "2000-01-01");
    assert_eq!(serial_to_date(42380.0), "2016-01-11");
    assert_eq!(serial_to_date(42380.5), "2016-01-11");
    assert_eq!(serial_to_date(0.0), "0");
}

#[test]
fn test_unsupported_extension() {
    let file = file_of("json", "{}");
    let err = load(&file).unwrap_err();
    assert!(err.message().unwrap().contains("Unsupported"));
}

// -----------------------------------------------------------------------
// UNIX days → date conversion (used for Parquet Date32/Date64)
// -----------------------------------------------------------------------

#[test]
fn test_unix_days_to_date_epoch() {
    assert_eq!(unix_days_to_date(0), "1970-01-01");
}

#[test]
fn test_unix_days_to_date_known() {
    assert_eq!(unix_days_to_date(10957), "2000-01-01"); // 2000-01-01
    assert_eq!(unix_days_to_date(17167), "2017-01-01");
    assert_eq!(unix_days_to_date(-1), "1969-12-31");
    assert_eq!(unix_days_to_date(-719528), "0000-01-01"); // day before epoch 0000-03-01
}

#[test]
fn test_unix_days_to_date_leap_year() {
    assert_eq!(unix_days_to_date(10957 + 59), "2000-02-29"); // 2000 leap year
    assert_eq!(unix_days_to_date(10957 + 60), "2000-03-01");
}

#[test]
fn test_arrow_value_to_str_date32() {
    let dates = [0i32, 10957, -1].map(ArrowValue::Date32);
    assert_eq!(arrow_value_to_str(&dates[0]), "1970-01-01");
    assert_eq!(arrow_value_to_str(&dates[1]), "2000-01-01");
    assert_eq!(arrow_value_to_str(&dates[2]), "1969-12-31");
}

#[test]
fn test_arrow_value_to_str_date32_null() {
    assert_eq!(arrow_value_to_str(&ArrowValue::Null), "");
}

#[test]
fn test_arrow_value_to_str_date64() {
    // Date64 stores milliseconds since epoch
    let ms_per_day: i64 = 86_400_000;
    let dates = [0i64, 10957 * ms_per_day, -ms_per_day].map(ArrowValue::Date64);
    assert_eq!(arrow_value_to_str(&dates[0]), "1970-01-01");
    assert_eq!(arrow_value_to_str(&dates[1]), "2000-01-01");
    assert_eq!(arrow_value_to_str(&dates[2]), "1969-12-31");
}

#[test]
fn test_arrow_value_to_str_timestamp_second() {
    // noon UTC on 2000-01-01
    let ts = [0i64, 10957 * 86400 + 12 * 3600].map(|v| ArrowValue::Timestamp(TimeUnit::Second, v));
    assert_eq!(arrow_value_to_str(&ts[0]), "1970-01-01 00:00:00");
    assert_eq!(arrow_value_to_str(&ts[1]), "2000-01-01 12:00:00");
}

// -----------------------------------------------------------------------
// DataTable construction (InMemory)
// -----------------------------------------------------------------------

#[test]
fn test_datatable_empty() {
    let table = DataTable::new(vec![], vec![]);
    assert_eq!(table.total_rows(), 0);
    assert_eq!(table.total_cols(), 0);
    assert!(table.column_widths.is_empty());
}

fn dt(f: f64) -> CellValue {
    CellValue::DateTime { days: f.floor() as i64, plain: format!("{}", f) }
}
fn dt_iso(s: &str) -> CellValue {
    CellValue::DateTimeIso(s.into())
}

#[test]
fn test_cell_to_string_datetime() {
    assert_eq!(cell_to_string(&dt(42380.0)), "2016-01-11");
    assert_eq!(cell_to_string(&dt(36526.0)), "2000-01-01");
    assert_eq!(
        cell_to_string(&dt_iso("2024-03-15T10:30:00")),
        "2024-03-15T10:30:00"
    );
}

#[test]
fn test_datatable_compute_widths() {
    let table = DataTable::new(
        vec!["short".into(), "very_long_header".into()],
        vec![vec!["x".into(), "data".into()]],
    );
    assert_eq!(table.column_widths[0], 5);
    assert_eq!(table.column_widths[1], 16);
}

// -----------------------------------------------------------------------
// InMemory backend — get_row
// -----------------------------------------------------------------------

#[test]
fn test_datatable_get_row_inmemory() {
    let mut table = DataTable::new(
        vec!["A".into(), "B".into()],
        vec![vec!["1".into(), "2".into()], vec!["3".into(), "4".into()]],
    );
    assert_eq!(table.get_row(0), &["1", "2"]);
    assert_eq!(table.get_row(1), &["3", "4"]);
}

#[test]
fn test_refine_widths() {
    let mut table = DataTable::new(vec!["X".into()], vec![vec!["short".into()]]);
    let initial = table.column_widths[0];
    table.refine_widths(&["much_longer_value".into()]);
    assert!(table.column_widths[0] > initial);
    assert_eq!(table.column_widths[0], 17); // "much_longer_value".width()
}

// -----------------------------------------------------------------------
// CsvBackend specific tests
// -----------------------------------------------------------------------

#[test]
fn test_csv_backend_cache_reload() {
    // Create a CSV with enough rows to exceed the cache window.
    let mut csv = String::from("A,B\n");
    for i in 0..1200 {
        csv.push_str(&format!("r{},c{}\n", i, i));
    }
    let file = file_of("csv", &csv);
    let mut table = load(&file).unwrap().into_iter().next().unwrap().1;

    // Read row 0 — should be in cache.
    assert_eq!(table.get_row(0), &["r0", "c0"]);
    // Read row 1000 — far away, triggers cache reload.
    assert_eq!(table.get_row(1000), &["r1000", "c1000"]);
    // Row 0 may no longer be cached, but re-reading should work anyway.
    assert_eq!(table.get_row(0), &["r0", "c0"]);
}

#[test]
fn test_csv_backend_large_file_keeps_header_and_first_row() {
    let mut csv = String::from("Date,Code,Value\n");
    for i in 0..5_000 {
        csv.push_str(&format!(
            "2026-01-{:05},CODE{i:05},{i}.123456789012345\n",
            i
        ));
    }
    assert!(csv.len() > 64 * 1024);

    let file = file_of("csv", &csv);
    let mut table = load(&file).unwrap().into_iter().next().unwrap().1;
    assert_eq!(table.headers, vec!["Date", "Code", "Value"]);
    assert_eq!(table.total_rows(), 5_000);
    assert_eq!(
        row_of(&mut table, &file, 0),
        &["2026-01-00000", "CODE00000", "0.123456789012345"]
    );
    assert_eq!(
        row_of(&mut table, &file, 4_999),
        &["2026-01-04999", "CODE04999", "4999.123456789012345"]
    );
}

#[test]
fn test_csv_backend_empty() {
    let file = file_of("csv", "H1,H2\n");
    let table = load(&file).unwrap().into_iter().next().unwrap().1;
    assert_eq!(table.total_rows(), 0);
    assert_eq!(table.headers.len(), 2);
}

#[test]
fn test_csv_backend_quoted_newlines() {
    let file = file_of("csv", "Col\n\"line1\nline2\"\n\"normal\"\n");
    let mut table = load(&file).unwrap().into_iter().next().unwrap().1;
    assert_eq!(table.total_rows(), 2);
    assert_eq!(table.get_row(0), &["line1\nline2"]);
    assert_eq!(table.get_row(1), &["normal"]);
}

#[test]
fn test_csv_backend_prefetch() {
    let mut csv = String::from("X,Y\n");
    for i in 0..100 {
        csv.push_str(&format!("a{},b{}\n", i, i));
    }
    let file = file_of("csv", &csv);
    let mut table = load(&file).unwrap().into_iter().next().unwrap().1;

    table.prefetch_range(40, 20);
    // Rows 40..60 should all be in cache.
    for i in 40..60 {
        assert_eq!(table.get_row(i), &[format!("a{}", i), format!("b{}", i)]);
    }
}

// -----------------------------------------------------------------------
// Encoding detection — legacy (non-UTF-8) CSV files
// -----------------------------------------------------------------------

/// A file with `text` in `encoding`.
fn encoded(
    extension: &'static str,
    text: &str,
    encoding: &'static encoding_rs::Encoding,
) -> DataFile {
    let (bytes, _, _) = encoding.encode(text);
    DataFile { extension, bytes: bytes.into_owned() }
}

fn load_csv_rows(file: &DataFile) -> (Vec<String>, usize, Vec<String>) {
    let mut table = load(file).unwrap().into_iter().next().unwrap().1;
    let headers = table.headers.clone();
    let rows: Vec<String> = (0..table.total_rows())
        .map(|i| table.get_row(i).join("|"))
        .collect();
    (headers, table.total_rows(), rows)
}

#[test]
fn test_csv_gbk_encoding() {
    let file = encoded(
        "csv",
        "持仓,收盘价,数量\n10.5,11.20,100\n",
        encoding_rs::GBK,
    );
    let (headers, total, rows) = load_csv_rows(&file);
    assert_eq!(headers, vec!["持仓", "收盘价", "数量"]);
    assert_eq!(total, 1);
    assert_eq!(rows, vec!["10.5|11.20|100"]);
}

#[test]
fn test_csv_gb2312_encoding() {
    let file = encoded(
        "csv",
        "股票,涨跌幅\n平安银行,3.21\n招商银行,-1.05\n",
        encoding_rs::GBK, // GBK superset; chars above are GB2312-compatible
    );
    let (headers, total, rows) = load_csv_rows(&file);
    assert_eq!(headers, vec!["股票", "涨跌幅"]);
    assert_eq!(total, 2);
    assert_eq!(rows, vec!["平安银行|3.21", "招商银行|-1.05"]);
}

#[test]
fn test_csv_gb18030_encoding() {
    // 𠀀 (U+20000) is outside GBK and requires a GB18030 4-byte sequence.
    let file = encoded("csv", "字符,值\n𠀀,1\n", encoding_rs::GB18030);
    let (headers, total, rows) = load_csv_rows(&file);
    assert_eq!(headers, vec!["字符", "值"]);
    assert_eq!(total, 1);
    assert_eq!(rows, vec!["𠀀|1"]);
}

#[test]
fn test_csv_utf16le_bom_encoding() {
    let file = encoded(
        "csv",
        "\u{FEFF}名称,日期\n项目A,2026-01-01\n",
        encoding_rs::UTF_16LE,
    );
    let (headers, total, rows) = load_csv_rows(&file);
    assert_eq!(headers, vec!["名称", "日期"]);
    assert_eq!(total, 1);
    assert_eq!(rows, vec!["项目A|2026-01-01"]);
}

#[test]
fn test_csv_utf8_bom_encoding() {
    // BOM is valid UTF-8, so this must keep working on the fast path.
    let file = encoded(
        "csv",
        "\u{FEFF}名称,日期\n项目A,2026-01-01\n",
        encoding_rs::UTF_8,
    );
    let (headers, total, rows) = load_csv_rows(&file);
    assert_eq!(headers, vec!["名称", "日期"]);
    assert_eq!(total, 1);
    assert_eq!(rows, vec!["项目A|2026-01-01"]);
}

#[test]
fn test_csv_big5_encoding() {
    let file = encoded(
        "csv",
        "股票,收盤價\n台積電,950.0\n鴻海,198.5\n",
        encoding_rs::BIG5,
    );
    let (headers, total, rows) = load_csv_rows(&file);
    assert_eq!(headers, vec!["股票", "收盤價"]);
    assert_eq!(total, 2);
    assert_eq!(rows, vec!["台積電|950.0", "鴻海|198.5"]);
}

#[test]
fn test_csv_ragged_rows() {
    // Rows with more/fewer fields than the header must not abort loading.
    let file = file_of("csv", "A,B\n1,2\n1,2,3\n1\n");
    let mut table = load(&file).unwrap().into_iter().next().unwrap().1;
    assert_eq!(table.total_rows(), 3);
    assert_eq!(table.get_row(0), &["1", "2"]);
    assert_eq!(table.get_row(1), &["1", "2", "3"]);
    assert_eq!(table.get_row(2), &["1"]);
}
