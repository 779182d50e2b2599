use dview::csv_backend::{ByteWindow, CsvBackend, Source};
use dview::encoding::{detect_encoding, is_doubtful, prefer_gb18030};
use dview::load::{
    file_format, format_of_lowercase, load_csv, load_excel, load_file, load_parquet, Contents,
    Format, LoadError,
};
use dview::parquet_backend::{clip_window, find_row_group, GroupWindow, ParquetBackend};
use dview::table::{DataTable, Fetch, Reply, RowBackend, RowReader};
use dview::values::{ArrowValue, CellValue};

fn texts(row: &[&str]) -> Vec<String> {
    row.iter().map(|s| s.to_string()).collect()
}

/// The data rows that one read of the whole file gives.
fn whole(bytes: &[u8]) -> Vec<Vec<String>> {
    csv::ReaderBuilder::new()
        .flexible(true)
        .from_reader(bytes)
        .records()
        .map(|record| record.unwrap().iter().map(|f| f.to_string()).collect())
        .collect()
}

/// Every row of a table over `bytes`, last row first.
fn all_rows(bytes: &[u8]) -> Vec<Vec<String>> {
    let mut table = load_csv(bytes.to_vec(), b',').unwrap();
    let mut rows: Vec<Vec<String>> = (0..table.total_rows())
        .rev()
        .map(|idx| {
            if let Some(fetch) = table.row_fetch(idx) {
                if let Fetch::Bytes(w) = fetch {
                    let part = bytes[w.start as usize..w.end as usize].to_vec();
                    table.supply(fetch, Reply::Bytes(part));
                }
            }
            table.get_row(idx).to_vec()
        })
        .collect();
    rows.reverse();
    rows
}

fn is_lazy(bytes: &[u8]) -> bool {
    match load_csv(bytes.to_vec(), b',').unwrap().backend {
        RowBackend::Csv(b) => matches!(b.source, Source::File),
        _ => false,
    }
}

// ---------------------------------------------------------------------------
// Delimited files
// ---------------------------------------------------------------------------

fn check_windows(line: fn(usize) -> String, rows: usize) {
    let mut content = String::from("A,B\n");
    for i in 0..rows {
        content.push_str(&line(i));
    }
    let expected = whole(content.as_bytes());
    assert!(expected.len() > 1000);
    assert_eq!(all_rows(content.as_bytes()), expected);
}

#[test]
fn windows_give_the_rows_of_the_file() {
    check_windows(|i| format!("r{},c{}\n", i, i), 1200);
}

#[test]
fn windows_with_crlf() {
    check_windows(|i| format!("r{},c{}\r\n", i, i), 1200);
}

#[test]
fn windows_with_cr_only() {
    check_windows(|i| format!("r{},c{}\r", i, i), 1200);
}

#[test]
fn windows_with_blank_lines() {
    check_windows(|i| format!("r{}\n\n\r\n", i), 1200);
}

#[test]
fn windows_with_quotes_and_newlines() {
    check_windows(|i| format!("\"a\n{}\",\"say \"\"hi\"\"\r\n\"\r\n", i), 1200);
}

#[test]
fn windows_of_a_long_file() {
    let line = |i: usize| format!("row number {},\"with, a comma\",{}\r\n", i, "x".repeat(i % 50));
    check_windows(line, 2000);
    let mut content = String::from("A,B\n");
    for i in 0..2000 {
        content.push_str(&line(i));
    }
    assert!(is_lazy(content.as_bytes()));
    assert!(!is_lazy(b"A,B\n1,2\n"));
}

#[test]
fn character_across_the_end_of_the_probe() {
    for shift in 0..4 {
        let mut content = "A,B\n".to_string();
        content.push_str(&"x".repeat(0x10000 - 4 - shift));
        content.push_str("北京,2\n3,4\n");
        assert!(content.len() > 0x10000);
        assert!(is_lazy(content.as_bytes()));
        assert_eq!(all_rows(content.as_bytes()), whole(content.as_bytes()));
    }
}

#[test]
fn long_file_in_a_legacy_encoding() {
    let mut content = "名称,价格\n".to_string();
    for i in 0..8000 {
        content.push_str(&format!("平安银行,{}\n", i));
    }
    let (bytes, _, _) = encoding_rs::GBK.encode(&content);
    assert!(bytes.len() > 0x10000);
    let mut table = load_csv(bytes.to_vec(), b',').unwrap();
    assert!(table.row_fetch(7999).is_none());
    assert_eq!(table.headers, vec!["名称", "价格"]);
    assert_eq!(table.get_row(7999), &["平安银行", "7999"]);
}

#[test]
fn legacy_encoding_far_into_a_file() {
    // The first rows are ASCII, far beyond the head of the file.
    let mut content = "A,B\n".to_string();
    for i in 0..10_000 {
        let name = if i < 9_000 { "some text" } else { "平安银行" };
        content.push_str(&format!("{},{}\n", i, name));
    }
    let (bytes, _, _) = encoding_rs::GBK.encode(&content);
    assert!(std::str::from_utf8(&bytes[..0x10000]).is_ok());
    assert!(std::str::from_utf8(&bytes).is_err());
    assert!(!is_lazy(&bytes));
    let rows = all_rows(&bytes);
    assert_eq!(rows, whole(content.as_bytes()));
    assert_eq!(rows.len(), 10_000);
    assert_eq!(rows[8_999], texts(&["8999", "some text"]));
    assert_eq!(rows[9_000], texts(&["9000", "平安银行"]));
}

#[test]
fn bad_byte_far_into_a_file() {
    let mut bytes = b"A,B\n".to_vec();
    for i in 0..10_000 {
        if i == 9_990 {
            bytes.extend(b"9990,\xff\n");
        } else {
            bytes.extend(format!("{},some text\n", i).as_bytes());
        }
    }
    assert!(!is_lazy(&bytes));
    let mut table = load_csv(bytes, b',').unwrap();
    assert_eq!(table.total_rows(), 10_000);
    for i in [0, 9_989, 9_990, 9_991, 9_999] {
        assert_eq!(table.get_row(i)[0], i.to_string());
    }
}

#[test]
fn last_row_without_newline() {
    assert_eq!(all_rows(b"A,B\n1,2\n3,4"), vec![texts(&["1", "2"]), texts(&["3", "4"])]);
}

#[test]
fn empty_file_has_no_columns() {
    let table = load_csv(Vec::new(), b',').unwrap();
    assert_eq!(table.total_rows(), 0);
    assert_eq!(table.total_cols(), 0);
}

#[test]
fn header_that_is_not_text_is_an_error() {
    // With this delimiter the rest of a two-byte character is a field.
    let raw = "é,x\n1\n".as_bytes().to_vec();
    assert!(load_csv(raw.clone(), 0xc3).is_err());
    assert!(load_csv(raw.clone(), b',').is_ok());
    let loaded = load_file(None, Contents::Bytes { raw, delimiter: 0xc3 });
    assert!(matches!(loaded, Err(LoadError::Csv(_))));
    assert!(loaded.unwrap_err().message().is_none());
}

#[test]
fn row_that_cannot_be_read_is_empty() {
    let mut content = String::from("A\n");
    for i in 0..20_000 {
        content.push_str(&format!("{}\n", i));
    }
    let mut table = load_csv(content.as_bytes().to_vec(), b',').unwrap();
    let fetch = table.row_fetch(7).unwrap();
    table.supply(fetch, Reply::Failed);
    assert!(table.get_row(7).is_empty());
    // Too few bytes are a failed read.
    table.supply(fetch, Reply::Bytes(b"0\n".to_vec()));
    assert!(table.get_row(7).is_empty());
    // A reply to another question changes nothing.
    table.supply(fetch, Reply::Bytes(match fetch {
        Fetch::Bytes(w) => content.as_bytes()[w.start as usize..w.end as usize].to_vec(),
        Fetch::Rows(_) => unreachable!(),
    }));
    assert_eq!(table.get_row(7), &["7"]);
    let other = GroupWindow { group: 0, offset: 0, count: 1, start: 0, row: None, follows: false };
    table.supply(Fetch::Rows(other), Reply::Failed);
    assert_eq!(table.get_row(7), &["7"]);
    assert!(table.row_fetch(7).is_none());
}

#[test]
fn windows_around_rows() {
    let mut content = String::from("A\n");
    for i in 0..20_000 {
        content.push_str(&format!("{:05}\n", i));
    }
    let (_, _, mut backend) = CsvBackend::open(content.into_bytes(), b',').unwrap();
    let offset = |row: usize| 2 + 6 * row as u64;
    let window = |first: usize, end: usize| {
        // The line end in front of the first row comes with it.
        Some(ByteWindow { row: first, start: offset(first) - 1, end: offset(end) })
    };
    assert_eq!(backend.row_fetch(0), window(0, 500));
    assert_eq!(backend.row_fetch(249), window(0, 500));
    assert_eq!(backend.row_fetch(1000), window(750, 1250));
    assert_eq!(backend.row_fetch(19_999), window(19_749, 20_000));
    assert_eq!(backend.prefetch_range(0, 10), window(0, 110));
    assert_eq!(backend.prefetch_range(500, 20), window(400, 620));
    assert_eq!(backend.prefetch_range(19_990, 20), window(19_890, 20_000));
    assert_eq!(backend.prefetch_range(20_000, 20), window(19_900, 20_000));
    assert_eq!(backend.prefetch_range(30_000, 20), None);
}

#[test]
fn mark_in_the_middle_of_a_file() {
    // A row that begins with a byte order mark keeps it, wherever its window
    // begins.
    let mut content = String::from("A\n");
    for i in 0..600 {
        let mark = if i == 300 { "\u{feff}" } else { "" };
        content.push_str(&format!("{}{}\n", mark, i));
    }
    let mut table = load_csv(content.into_bytes(), b',').unwrap();
    assert_eq!(table.get_row(0), &["0"]);
    assert_eq!(table.get_row(300), &["\u{feff}300"]);
    assert_eq!(table.get_row(599), &["599"]);
    assert_eq!(table.get_row(0), &["0"]);
    assert_eq!(table.get_row(550), &["550"]);
    assert_eq!(table.get_row(300), &["\u{feff}300"]);
    assert_eq!(table.get_row(301), &["301"]);
}

#[test]
fn mark_in_the_first_rows() {
    for (bytes, rows) in [
        ("A\n\u{feff}0\n1\n", vec![texts(&["\u{feff}0"]), texts(&["1"])]),
        ("\u{feff}A\r\n\u{feff}0\r\n1\r\n", vec![texts(&["\u{feff}0"]), texts(&["1"])]),
        ("A,B\r\u{feff}\"0\",x\r1,2", vec![texts(&["\u{feff}\"0\"", "x"]), texts(&["1", "2"])]),
        ("A\n\u{feff}\n\u{feff}\u{feff}1", vec![texts(&["\u{feff}"]), texts(&["\u{feff}\u{feff}1"])]),
    ] {
        assert_eq!(all_rows(bytes.as_bytes()), rows);
        assert_eq!(all_rows(bytes.as_bytes()), whole(bytes.as_bytes()));
    }
}

#[test]
fn marks_at_the_start_of_windows_on_disk() {
    // Every row begins with a mark, so every window does.
    let mut content = String::from("A,B\n");
    for i in 0..9000 {
        content.push_str(&format!("\u{feff}{},x\n", i));
    }
    assert!(is_lazy(content.as_bytes()));
    let rows = all_rows(content.as_bytes());
    assert_eq!(rows, whole(content.as_bytes()));
    assert_eq!(rows[8_999][0], "\u{feff}8999");
}

#[test]
fn widths_of_a_large_file_are_sampled() {
    let mut content = String::from("A,B\n");
    for i in 0..110_000 {
        let b = if i == 1 { "this row is not looked at" } else { "x" };
        content.push_str(&format!("{:0>18},{}\n", i, b));
    }
    let size = content.len();
    assert!(size / 20 > 100_000);
    assert_eq!(size / 20 / 2000, 57);
    let table = load_csv(content.into_bytes(), b',').unwrap();
    assert_eq!(table.column_widths, vec![18, 4]);

    let mut content = String::from("A,B\n");
    for i in 0..110_000 {
        let b = if i == 114 { "but this row is" } else { "x" };
        content.push_str(&format!("{:0>18},{}\n", i, b));
    }
    let table = load_csv(content.into_bytes(), b',').unwrap();
    assert_eq!(table.column_widths, vec![18, 15]);
}

#[test]
fn widths_count_cells_beyond_the_header_not_at_all() {
    let table = load_csv(b"A,B\n1,123456\n1,2,a very long cell\n".to_vec(), b',').unwrap();
    assert_eq!(table.column_widths, vec![4, 6]);
}

#[test]
fn prefetch_makes_rows_ready() {
    let mut content = String::from("A\n");
    for i in 0..1000 {
        content.push_str(&format!("{}\n", i));
    }
    let mut table = load_csv(content.into_bytes(), b',').unwrap();
    assert!(table.prefetch_range(500, 10).is_empty());
    match &table.backend {
        RowBackend::Csv(b) => {
            assert_eq!(b.cache_start, 400);
            assert_eq!(b.cache.len(), 210);
        }
        _ => unreachable!(),
    }
    // Rows that are held are not read again.
    assert!(table.prefetch_range(450, 100).is_empty());
    match &table.backend {
        RowBackend::Csv(b) => assert_eq!(b.cache_start, 400),
        _ => unreachable!(),
    }
}

// ---------------------------------------------------------------------------
// Encodings
// ---------------------------------------------------------------------------

fn utf16(text: &str, big: bool) -> Vec<u8> {
    let mut bytes = Vec::new();
    for unit in text.encode_utf16() {
        bytes.extend(if big { unit.to_be_bytes() } else { unit.to_le_bytes() });
    }
    bytes
}

#[test]
fn byte_order_marks_tell_the_encoding() {
    assert_eq!(detect_encoding(b"\xef\xbb\xbfA"), "UTF-8");
    assert_eq!(detect_encoding(b"\xff\xfeA\0"), "UTF-16LE");
    assert_eq!(detect_encoding(b"\xfe\xff\0A"), "UTF-16BE");
}

#[test]
fn utf16_files_are_read() {
    let text = "\u{feff}名称,日期\n项目A,2026-01-01\n";
    for big in [false, true] {
        let mut table = load_csv(utf16(text, big), b',').unwrap();
        assert_eq!(table.headers, vec!["名称", "日期"]);
        assert_eq!(table.get_row(0), &["项目A", "2026-01-01"]);
    }
}

#[test]
fn legacy_encodings_are_guessed() {
    let (bytes, _, _) = encoding_rs::SHIFT_JIS.encode("これは日本語のテキストです。東京都の天気は晴れです。");
    assert_eq!(detect_encoding(&bytes), "Shift_JIS");
    let (bytes, _, _) = encoding_rs::GBK.encode("持仓,收盘价,数量\n10.5,11.20,100\n");
    let name = detect_encoding(&bytes);
    assert!(name == "GBK" || name == "GB18030");
}

#[test]
fn clean_gb18030_is_preferred_to_doubtful_guesses() {
    for guess in ["EUC-JP", "EUC-KR"] {
        assert!(is_doubtful(guess));
        assert_eq!(prefer_gb18030(guess.to_string(), false), "GB18030");
        assert_eq!(prefer_gb18030(guess.to_string(), true), guess);
    }
    for guess in ["GBK", "Big5", "UTF-8", "euc-jp"] {
        assert!(!is_doubtful(guess));
        assert_eq!(prefer_gb18030(guess.to_string(), false), guess);
    }
}

// ---------------------------------------------------------------------------
// Formats
// ---------------------------------------------------------------------------

#[test]
fn formats_by_extension() {
    assert!(matches!(file_format("csv"), Ok(Format::Delimited(b','))));
    assert!(matches!(file_format("CSV"), Ok(Format::Delimited(b','))));
    assert!(matches!(file_format("Tsv"), Ok(Format::Delimited(b'\t'))));
    assert!(matches!(file_format("tab"), Ok(Format::Delimited(b'\t'))));
    for ext in ["xls", "xlsx", "XLSM", "xlsb"] {
        assert!(matches!(file_format(ext), Ok(Format::Workbook)));
    }
    for ext in ["parquet", "PQ"] {
        assert!(matches!(file_format(ext), Ok(Format::Columnar)));
    }
    assert!(matches!(format_of_lowercase("CSV".to_string()), Err(LoadError::Unsupported(_))));
}

#[test]
fn unsupported_format_is_named() {
    assert_eq!(
        file_format("JSON").unwrap_err().message().unwrap(),
        "Unsupported file format: .json\nSupported: csv, tsv, xls, xlsx, parquet"
    );
    assert_eq!(
        file_format("").unwrap_err().message().unwrap(),
        "Unsupported file format: .\nSupported: csv, tsv, xls, xlsx, parquet"
    );
}

#[test]
fn tables_are_named_after_the_file() {
    let contents = || Contents::Bytes { raw: b"A\n1\n".to_vec(), delimiter: b',' };
    assert_eq!(load_file(Some("prices".to_string()), contents()).unwrap()[0].0, "prices");
    assert_eq!(load_file(None, contents()).unwrap()[0].0, "data");
}

// ---------------------------------------------------------------------------
// Workbooks
// ---------------------------------------------------------------------------

fn cell(text: &str) -> CellValue {
    if text.is_empty() {
        CellValue::Empty
    } else {
        CellValue::Text(text.to_string())
    }
}

fn cells(row: &[&str]) -> Vec<CellValue> {
    row.iter().map(|text| cell(text)).collect()
}

#[test]
fn workbook_without_sheets_is_an_error() {
    let error = load_excel(&Vec::new()).unwrap_err();
    assert_eq!(error.message().unwrap(), "Excel file has no sheets");
    let loaded = load_file(None, Contents::Sheets(Vec::new()));
    assert!(matches!(loaded, Err(LoadError::NoSheets)));
}

#[test]
fn sheets_are_fitted_to_their_headers() {
    let sheets = vec![
        (
            "One".to_string(),
            vec![
                cells(&["A", "B"]),
                cells(&["1"]),
                cells(&["", ""]),
                cells(&["2", "3", "4"]),
                cells(&[]),
                cells(&["", "", "beyond the header"]),
            ],
        ),
        ("Two".to_string(), vec![]),
    ];
    let mut tables = load_file(Some("book".to_string()), Contents::Sheets(sheets)).unwrap();
    assert_eq!(tables.len(), 2);
    assert_eq!(tables[0].0, "One");
    let one = &mut tables[0].1;
    assert_eq!(one.headers, vec!["A", "B"]);
    assert_eq!(one.total_rows(), 2);
    assert_eq!(one.get_row(0), &["1", ""]);
    assert_eq!(one.get_row(1), &["2", "3"]);
    assert_eq!(one.column_widths, vec![4, 4]);
    assert_eq!(tables[1].0, "Two");
    assert_eq!(tables[1].1.total_rows(), 0);
    assert_eq!(tables[1].1.total_cols(), 0);
}

// ---------------------------------------------------------------------------
// Columnar files
// ---------------------------------------------------------------------------

fn values(rows: std::ops::Range<usize>) -> Vec<Vec<ArrowValue>> {
    rows.map(|i| vec![ArrowValue::UInt(i as u64)]).collect()
}

fn columnar(counts: &[usize], sample: std::ops::Range<usize>) -> DataTable {
    load_parquet(vec!["N".to_string()], counts, &values(sample))
}

#[test]
fn row_groups_are_found() {
    let bounds = [(0, 3), (3, 0), (3, 5), (8, 1)];
    assert_eq!(find_row_group(&bounds, 0), 0);
    assert_eq!(find_row_group(&bounds, 2), 0);
    assert_eq!(find_row_group(&bounds, 3), 2);
    assert_eq!(find_row_group(&bounds, 7), 2);
    assert_eq!(find_row_group(&bounds, 8), 3);
    assert_eq!(find_row_group(&bounds, 9), 0);
    assert_eq!(find_row_group(&[], 5), 0);
}

#[test]
fn windows_are_clipped_to_their_group() {
    assert_eq!(clip_window((10, 5), 2, 2), (2, 2));
    assert_eq!(clip_window((10, 5), 2, 20), (2, 3));
    assert_eq!(clip_window((10, 5), 9, 20), (4, 1));
    assert_eq!(clip_window((10, 0), 0, 20), (0, 0));
}

#[test]
fn first_rows_are_sampled() {
    assert_eq!(
        ParquetBackend::sample_window(&[10, 5]),
        Some(GroupWindow { group: 0, offset: 0, count: 10, start: 0, row: None, follows: false })
    );
    assert_eq!(
        ParquetBackend::sample_window(&[5000]),
        Some(GroupWindow { group: 0, offset: 0, count: 2000, start: 0, row: None, follows: false })
    );
    assert_eq!(ParquetBackend::sample_window(&[0, 5]), None);
    assert_eq!(ParquetBackend::sample_window(&[]), None);
    let table = load_parquet(
        vec!["N".to_string(), "M".to_string()],
        &[1],
        &vec![vec![ArrowValue::Text("a wide cell".to_string()), ArrowValue::Null]],
    );
    assert_eq!(table.column_widths, vec![11, 4]);
    assert_eq!(table.total_rows(), 1);
}

#[test]
fn columnar_rows_are_read_by_windows() {
    let mut table = columnar(&[3000, 500], 0..2000);
    assert_eq!(table.total_rows(), 3500);
    assert!(table.row_fetch(1999).is_none());
    assert_eq!(table.get_row(1999), &["1999"]);

    let fetch = table.row_fetch(2900).unwrap();
    assert_eq!(
        fetch,
        Fetch::Rows(GroupWindow { group: 0, offset: 2700, count: 300, start: 2700, row: Some(2900), follows: false })
    );
    table.supply(fetch, Reply::Rows(values(2700..3000)));
    assert_eq!(table.get_row(2900), &["2900"]);
    assert_eq!(table.get_row(2999), &["2999"]);

    let fetch = table.row_fetch(3000).unwrap();
    assert_eq!(
        fetch,
        Fetch::Rows(GroupWindow { group: 1, offset: 0, count: 201, start: 3000, row: Some(3000), follows: false })
    );
    table.supply(fetch, Reply::Rows(values(3000..3201)));
    assert_eq!(table.get_row(3200), &["3200"]);
}

fn part(group: usize, offset: usize, count: usize, start: usize, follows: bool) -> Fetch {
    Fetch::Rows(GroupWindow { group, offset, count, start, row: None, follows })
}

/// Supplies the rows that are wanted, and tells in how many parts.
fn supply_rows(table: &mut DataTable, wanted: Vec<Fetch>) -> usize {
    for fetch in &wanted {
        match *fetch {
            Fetch::Rows(w) => table.supply(*fetch, Reply::Rows(values(w.start..w.start + w.count))),
            Fetch::Bytes(_) => unreachable!(),
        }
    }
    wanted.len()
}

#[test]
fn columnar_prefetch_covers_all_groups() {
    let mut table = columnar(&[3000, 500], 0..2000);
    assert_eq!(table.prefetch_range(0, 50), vec![]);
    assert_eq!(table.prefetch_range(3500, 50), vec![]);
    assert_eq!(table.prefetch_range(100, 0), vec![]);
    assert_eq!(table.prefetch_range(2500, 50), vec![part(0, 2300, 450, 2300, false)]);
    assert_eq!(
        table.prefetch_range(2990, 50),
        vec![part(0, 2790, 210, 2790, false), part(1, 0, 240, 3000, true)]
    );
    assert_eq!(table.prefetch_range(3400, usize::MAX), vec![part(1, 200, 300, 3200, false)]);
}

#[test]
fn columnar_prefetch_of_small_groups() {
    let mut table = columnar(&[10, 10], 0..2);
    let wanted = table.prefetch_range(8, 4);
    assert_eq!(wanted, vec![part(0, 0, 10, 0, false), part(1, 0, 10, 10, true)]);
    supply_rows(&mut table, wanted);
    for i in 8..12 {
        assert!(table.row_fetch(i).is_none());
        assert_eq!(table.get_row(i), &[i.to_string()]);
    }
    assert!(table.prefetch_range(8, 4).is_empty());
}

#[test]
fn columnar_prefetch_skips_empty_groups() {
    let mut table = columnar(&[300, 0, 2, 0, 0, 300, 300], 0..300);
    let wanted = table.prefetch_range(298, 10);
    assert_eq!(
        wanted,
        vec![part(0, 98, 202, 98, false), part(2, 0, 2, 300, true), part(5, 0, 206, 302, true)]
    );
    assert_eq!(supply_rows(&mut table, wanted), 3);
    assert!(table.prefetch_range(98, 410).is_empty());
    for i in 98..508 {
        assert!(table.row_fetch(i).is_none());
        assert_eq!(table.get_row(i), &[i.to_string()]);
    }
    assert!(table.row_fetch(508).is_some());
}

#[test]
fn columnar_part_that_fails() {
    // A part that does not go on where the rows that are held end takes their place.
    let mut table = columnar(&[10, 10, 10], 0..2);
    let wanted = table.prefetch_range(8, 14);
    assert_eq!(wanted.len(), 3);
    table.supply(wanted[0], Reply::Rows(values(0..10)));
    table.supply(wanted[1], Reply::Failed);
    assert_eq!(table.get_row(9), &["9"]);
    table.supply(wanted[2], Reply::Rows(values(20..30)));
    assert!(table.row_fetch(9).is_some());
    assert!(table.row_fetch(15).is_some());
    assert_eq!(table.get_row(25), &["25"]);
}

#[test]
fn columnar_read_that_fails() {
    let mut table = columnar(&[3000], 0..2000);
    // What was made ready stays.
    let wanted = table.prefetch_range(2500, 10);
    assert_eq!(wanted.len(), 1);
    table.supply(wanted[0], Reply::Failed);
    assert_eq!(table.get_row(5), &["5"]);
    // A row that was asked for is empty.
    let fetch = table.row_fetch(2500).unwrap();
    table.supply(fetch, Reply::Failed);
    assert!(table.get_row(2500).is_empty());
    assert!(table.get_row(5).is_empty());
}

#[test]
fn columnar_file_without_rows() {
    let table = columnar(&[0, 0], 0..0);
    assert_eq!(table.total_rows(), 0);
    assert_eq!(table.column_widths, vec![4]);
}

// ---------------------------------------------------------------------------
// Several rows
// ---------------------------------------------------------------------------

#[test]
fn rows_across_groups() {
    let mut table = columnar(&[300, 300, 300], 0..300);
    let mut reader = RowReader::new(290, 610);
    let mut fetches = 0;
    while let Some(fetch) = reader.step(&mut table) {
        fetches += 1;
        match fetch {
            Fetch::Rows(w) => table.supply(fetch, Reply::Rows(values(w.start..w.start + w.count))),
            Fetch::Bytes(_) => unreachable!(),
        }
    }
    assert_eq!(fetches, 3);
    let expected: Vec<Vec<String>> = (290..610).map(|i| vec![i.to_string()]).collect();
    assert_eq!(reader.rows, expected);
}

#[test]
fn rows_that_fail_are_taken_as_they_are() {
    let mut table = columnar(&[300, 300], 0..300);
    let mut reader = RowReader::new(298, 303);
    while let Some(fetch) = reader.step(&mut table) {
        table.supply(fetch, Reply::Failed);
    }
    assert_eq!(
        reader.rows,
        vec![texts(&["298"]), texts(&["299"]), texts(&[]), texts(&[]), texts(&[])]
    );
}

#[test]
fn rows_in_memory_need_no_reading() {
    let mut table = DataTable::new(texts(&["A"]), vec![texts(&["x"]), texts(&["y"]), texts(&["z"])]);
    let mut reader = RowReader::new(1, 3);
    assert_eq!(reader.step(&mut table), None);
    assert_eq!(reader.rows, vec![texts(&["y"]), texts(&["z"])]);
}

#[test]
fn reader_goes_on_after_a_failed_read() {
    let mut content = String::from("A\n");
    for i in 0..20_000 {
        content.push_str(&format!("{}\n", i));
    }
    let mut table = load_csv(content.into_bytes(), b',').unwrap();
    let mut reader = RowReader::new(5, 7);
    assert!(reader.step(&mut table).is_some());
    assert_eq!((reader.next, reader.asked), (5, true));
    let fetch = reader.step(&mut table);
    assert_eq!((reader.next, reader.asked), (6, true));
    table.supply(fetch.unwrap(), Reply::Failed);
    assert!(reader.step(&mut table).is_none());
    assert_eq!(reader.rows, vec![texts(&[]), texts(&[])]);
}

#[test]
fn use_of_a_table_keeps_its_rows() {
    let mut content = String::from("A,B\n");
    for i in 0..3000 {
        content.push_str(&format!("row {},{}\n", i, "x".repeat(i % 60)));
    }
    let bytes = content.as_bytes();
    let expected = whole(bytes);
    assert!(is_lazy(bytes));
    let mut table = load_csv(bytes.to_vec(), b',').unwrap();
    let (headers, widths) = (table.headers.clone(), table.column_widths.clone());
    for (start, count) in [(0, 40), (2990, 40), (100, 700), (1500, 1), (1510, 30), (5000, 3)] {
        for fetch in table.prefetch_range(start, count) {
            match fetch {
                Fetch::Bytes(w) => {
                    let part = bytes[w.start as usize..w.end as usize].to_vec();
                    table.supply(fetch, Reply::Bytes(part));
                }
                Fetch::Rows(_) => unreachable!(),
            }
        }
        for i in start..(start + count).min(3000) {
            assert!(table.row_fetch(i).is_none());
            assert_eq!(table.get_row(i), expected[i]);
        }
    }
    assert_eq!(table.headers, headers);
    assert_eq!(table.column_widths, widths);
    assert_eq!(table.total_rows(), 3000);
    // Only rows that are handed over on purpose widen columns.
    table.refine_widths(&texts(&["a cell that is wider than the others", ""]));
    assert_eq!(table.column_widths, vec![36, widths[1]]);
}
