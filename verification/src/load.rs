//! Which files can be shown, and how their contents become tables.
use crate::csv_backend;
use crate::csv_backend::CsvBackend;
use crate::encoding;
use crate::parquet_backend;
use crate::parquet_backend::ParquetBackend;
use crate::records;
use crate::table;
use crate::table::{DataTable, RowBackend};
use crate::text;
use crate::text::same_text;
use crate::values;
use crate::values::{cell_to_string, ArrowValue, CellValue};
use crate::viewport;
use crate::width;
use vstd::prelude::*;
use vstd::utf8;

verus! {

/// The kinds of files that can be shown.
#[derive(Clone, Copy, Debug, PartialEq, Eq, Structural)]
pub enum Format {
    /// Rows of fields with this byte between them.
    Delimited(u8),
    /// Sheets of cells.
    Workbook,
    /// Row groups of columns.
    Columnar,
}

/// The cells of a sheet, row by row, with the name of the sheet.
pub type Sheet = (String, Vec<Vec<CellValue>>);

/// What was read from a file.
#[derive(Debug)]
pub enum Contents {
    /// All bytes of a delimited file.
    Bytes { raw: Vec<u8>, delimiter: u8 },
    /// All sheets of a workbook.
    Sheets(Vec<Sheet>),
    /// The columns of a columnar file, the rows of each of its row groups, and
    /// its first rows.
    Columns { headers: Vec<String>, counts: Vec<usize>, sample: Vec<Vec<ArrowValue>> },
}

/// Why a file cannot be shown.
#[derive(Debug)]
pub enum LoadError {
    /// No format has this extension.
    Unsupported(String),
    /// The workbook is empty.
    NoSheets,
    /// The header of a delimited file is not text.
    Csv(csv::Error),
}

impl LoadError {
    /// The words for errors of this library. `None` for an error of the `csv`
    /// crate, which has its own.
    pub fn message(&self) -> (message: Option<String>)
        ensures
            match self {
                LoadError::Unsupported(ext) => message matches Some(m) && m@
                    == "Unsupported file format: ."@ + ext@
                    + "\nSupported: csv, tsv, xls, xlsx, parquet"@,
                LoadError::NoSheets => message matches Some(m) && m@
                    == "Excel file has no sheets"@,
                LoadError::Csv(_) => message is None,
            },
    {
        match self {
            LoadError::Unsupported(ext) => {
                let mut message = "Unsupported file format: .".to_owned();
                message.append(ext.as_str());
                message.append("\nSupported: csv, tsv, xls, xlsx, parquet");
                Some(message)
            },
            LoadError::NoSheets => Some("Excel file has no sheets".to_owned()),
            LoadError::Csv(_) => None,
        }
    }
}

// ---------------------------------------------------------------------------
// Format detection
// ---------------------------------------------------------------------------

/// The lowercase text that `str::to_lowercase` of std makes of a text.
pub uninterp spec fn lowercase(text: Seq<char>) -> Seq<char>;

/// An ASCII letter in lowercase.
pub open spec fn ascii_lower(c: char) -> char {
    if 'A' <= c <= 'Z' {
        (c as int + 32) as char
    } else {
        c
    }
}

/// Only ASCII characters.
pub open spec fn ascii(text: Seq<char>) -> bool {
    forall|i: int| 0 <= i < text.len() ==> (#[trigger] text[i]) < '\u{80}'
}

/// `str::to_lowercase` of std makes the lowercase of a text, which depends on
/// the text alone. In an ASCII text it is that of each letter.
#[verifier::external_body]
fn to_lowercase(text: &str) -> (lower: String)
    ensures
        lower@ == lowercase(text@),
        ascii(text@) ==> lower@ == text@.map_values(|c: char| ascii_lower(c)),
{
    text.to_lowercase()
}

/// The format that goes with an extension in lowercase.
pub open spec fn format_named(ext: Seq<char>) -> Option<Format> {
    if ext == "csv"@ {
        Some(Format::Delimited(0x2c))
    } else if ext == "tsv"@ || ext == "tab"@ {
        Some(Format::Delimited(0x09))
    } else if ext == "xls"@ || ext == "xlsx"@ || ext == "xlsm"@ || ext == "xlsb"@ {
        Some(Format::Workbook)
    } else if ext == "parquet"@ || ext == "pq"@ {
        Some(Format::Columnar)
    } else {
        None
    }
}

/// The format that goes with an extension in lowercase.
pub fn format_of_lowercase(ext: String) -> (format: Result<Format, LoadError>)
    ensures
        format is Ok <==> format_named(ext@) is Some,
        format matches Ok(f) ==> format_named(ext@) == Some(f),
        format matches Err(e) ==> e == LoadError::Unsupported(ext),
{
    if same_text(ext.as_str(), "csv") {
        Ok(Format::Delimited(0x2c))
    } else if same_text(ext.as_str(), "tsv") || same_text(ext.as_str(), "tab") {
        Ok(Format::Delimited(0x09))
    } else if same_text(ext.as_str(), "xls") || same_text(ext.as_str(), "xlsx") || same_text(
        ext.as_str(),
        "xlsm",
    ) || same_text(ext.as_str(), "xlsb") {
        Ok(Format::Workbook)
    } else if same_text(ext.as_str(), "parquet") || same_text(ext.as_str(), "pq") {
        Ok(Format::Columnar)
    } else {
        Err(LoadError::Unsupported(ext))
    }
}

/// The case of an extension does not matter.
pub proof fn lemma_format_ignores_case(ext: Seq<char>, other: Seq<char>)
    requires
        ext.len() == other.len(),
        forall|i: int|
            0 <= i < ext.len() ==> ascii_lower(#[trigger] ext[i]) == ascii_lower(other[i]),
    ensures
        format_named(ext.map_values(|c: char| ascii_lower(c))) == format_named(
            other.map_values(|c: char| ascii_lower(c)),
        ),
{
    assert(ext.map_values(|c: char| ascii_lower(c)) =~= other.map_values(
        |c: char| ascii_lower(c),
    ));
}

/// Detect format by extension.
pub fn file_format(extension: &str) -> (format: Result<Format, LoadError>)
    ensures
        format is Ok <==> format_named(lowercase(extension@)) is Some,
        format matches Ok(f) ==> format_named(lowercase(extension@)) == Some(f),
        format matches Err(e) ==> e matches LoadError::Unsupported(ext) && ext@ == lowercase(
            extension@,
        ),
        ascii(extension@) ==> lowercase(extension@) == extension@.map_values(
            |c: char| ascii_lower(c),
        ),
{
    format_of_lowercase(to_lowercase(extension))
}

// ---------------------------------------------------------------------------
// Delimited files
// ---------------------------------------------------------------------------

/// A table over the records of a delimited file with these bytes.
pub open spec fn csv_table(table: DataTable, raw: Seq<u8>, delimiter: u8) -> bool {
    let content = csv_backend::served(raw);
    let found = records::records_of(content, delimiter);
    &&& text::texts(table.headers@) == records::field_texts(csv_backend::header_fields(found))
    &&& table.column_widths@ == csv_backend::sampled_widths(found, raw.len() as int)
    &&& table.backend matches RowBackend::Csv(b) && {
        &&& b.wf()
        &&& b.indexes(content)
        &&& b.delimiter == delimiter
        &&& b.source is File <==> csv_backend::lazily(raw)
        &&& b.cache@.len() == 0
        &&& b.cache_start == 0
    }
}

/// The header of a delimited file with these bytes is text.
pub open spec fn header_is_text(raw: Seq<u8>, delimiter: u8) -> bool {
    records::is_text(
        csv_backend::header_fields(records::records_of(csv_backend::served(raw), delimiter)),
    )
}

/// The table of a delimited file.
pub fn load_csv(raw: Vec<u8>, delimiter: u8) -> (loaded: Result<DataTable, csv::Error>)
    requires
        utf8::valid_utf8(raw@) || encoding::decodable_len(raw@.len()),
    ensures
        loaded is Ok <==> header_is_text(raw@, delimiter),
        delimiter < 0x80 ==> loaded is Ok,
        loaded matches Ok(table) ==> table.wf() && csv_table(table, raw@, delimiter),
{
    match CsvBackend::open(raw, delimiter) {
        Ok((headers, column_widths, backend)) => Ok(
            DataTable { headers, column_widths, backend: RowBackend::Csv(backend) },
        ),
        Err(error) => Err(error),
    }
}

/// A table that was just loaded from a delimited file presents the rows of the
/// file: each row that is asked for has the texts of its record. A file that is
/// not read by windows from disk can give every row at once. The delimiter is
/// ASCII, as those of all formats are.
pub proof fn lemma_csv_table_presents_rows(table: DataTable, raw: Seq<u8>, delimiter: u8)
    requires
        csv_table(table, raw, delimiter),
        delimiter < 0x80,
    ensures
        table.backend.presents_file(
            csv_backend::served(raw),
            csv_backend::rows_of(csv_backend::served(raw), delimiter),
        ),
        !csv_backend::lazily(raw) ==> forall|idx: int| #[trigger] table.backend.ready(idx),
        utf8::valid_utf8(raw) ==> csv_backend::served(raw) == raw,
{
    csv_backend::lemma_served_is_utf8(raw);
    if let RowBackend::Csv(b) = table.backend {
        assert(b.faithful(csv_backend::served(raw)));
    }
}

/// However a table of a delimited file was used since it was loaded, its headers,
/// column widths and number of rows are those that it was loaded with, and a row that
/// is asked for and can be given has the texts of its record. Where the file is not
/// read by windows from disk, each row can be given.
pub proof fn lemma_csv_rows_read_back(tables: Seq<DataTable>, raw: Seq<u8>, delimiter: u8)
    requires
        tables.len() > 0,
        csv_table(tables[0], raw, delimiter),
        delimiter < 0x80,
        forall|k: int|
            0 < k < tables.len() ==> table::used(
                tables[k - 1],
                #[trigger] tables[k],
                csv_backend::served(raw),
                csv_backend::rows_of(csv_backend::served(raw), delimiter),
            ),
    ensures
        tables.last().wf(),
        tables.last().same_table(tables[0]),
        tables.last().backend.row_count() == csv_backend::row_count(
            records::records_of(csv_backend::served(raw), delimiter),
        ),
        forall|idx: int|
            0 <= idx < tables.last().backend.row_count() && (tables.last().backend.ready(idx)
                || !csv_backend::lazily(raw)) ==> #[trigger] tables.last().backend.given(idx)
                == records::field_texts(
                records::records_of(csv_backend::served(raw), delimiter)[idx + 1].fields,
            ),
{
    let content = csv_backend::rows_of(csv_backend::served(raw), delimiter);
    lemma_csv_table_presents_rows(tables[0], raw, delimiter);
    table::lemma_rows_stay(tables, csv_backend::served(raw), content);
    table::lemma_held_rows(tables.last().backend, csv_backend::served(raw), content);
}

/// The columns of a delimited file: four cells wide at least, as wide as the header, and
/// as wide as every cell of the rows that are measured. Of a file of up to two million
/// bytes these are all rows. No column is wider than its widest text.
pub proof fn lemma_csv_columns_fit_cells(table: DataTable, raw: Seq<u8>, delimiter: u8, col: int)
    requires
        csv_table(table, raw, delimiter),
        delimiter < 0x80,
        0 <= col < table.headers@.len(),
    ensures
        ({
            let rows = csv_backend::rows_of(csv_backend::served(raw), delimiter);
            let size = raw.len() as int;
            &&& table.column_widths@.len() == table.headers@.len()
            &&& table.column_widths@[col] >= 4
            &&& width::display_width(table.headers@[col]@) <= table.column_widths@[col]
            &&& forall|r: int|
                0 <= r < rows.len() && col < rows[r].len() && (size / 20 <= 100_000 || r % (size
                    / 20 / 2000) == 0) ==> width::display_width(#[trigger] rows[r][col])
                    <= table.column_widths@[col]
            &&& table.column_widths@[col] == 4 || table.column_widths@[col]
                == width::display_width(table.headers@[col]@) || exists|r: int|
                0 <= r < rows.len() && col < rows[r].len() && width::display_width(
                    #[trigger] rows[r][col],
                ) == table.column_widths@[col]
        }),
{
    let content = csv_backend::served(raw);
    let found = records::records_of(content, delimiter);
    let rows = csv_backend::rows_of(content, delimiter);
    let size = raw.len() as int;
    csv_backend::lemma_served_is_utf8(raw);
    assert(text::texts(table.headers@)[col] == table.headers@[col]@);
    assert(found.len() > 0);
    assert(records::is_text(found[0].fields));
    csv_backend::lemma_widths_measure_rows(found, size, col);
    assert(table.headers@[col]@ == utf8::decode_utf8(found[0].fields[col]));
    assert forall|r: int|
        0 <= r < rows.len() && col < rows[r].len() && (size / 20 <= 100_000 || r % (size / 20
            / 2000) == 0) implies width::display_width(#[trigger] rows[r][col])
        <= table.column_widths@[col] by {
        assert(rows[r][col] == utf8::decode_utf8(found[r + 1].fields[col]));
    }
    if table.column_widths@[col] != 4 {
        let row = choose|row: int|
            0 <= row < found.len() && col < found[row].fields.len() && table.column_widths@[col]
                == width::display_width(utf8::decode_utf8(#[trigger] found[row].fields[col]));
        if row > 0 {
            assert(rows[row - 1][col] == utf8::decode_utf8(found[row].fields[col]));
        }
    }
}

/// The headers of a delimited file are the fields of its first record, and its rows
/// are the fields of the records behind it, one row for each, in their order.
pub proof fn lemma_csv_rows_are_records(table: DataTable, raw: Seq<u8>, delimiter: u8, i: int)
    requires
        csv_table(table, raw, delimiter),
    ensures
        ({
            let content = if utf8::valid_utf8(raw) {
                raw
            } else {
                utf8::encode_utf8(encoding::decoded_text(raw))
            };
            let found = records::records_of(content, delimiter);
            let rows = csv_backend::rows_of(csv_backend::served(raw), delimiter);
            &&& found.len() == 0 ==> table.headers@.len() == 0 && rows.len() == 0
            &&& found.len() > 0 ==> {
                &&& table.headers@.len() == found[0].fields.len()
                &&& rows.len() == found.len() - 1 == table.backend.row_count()
                &&& 0 <= i < found[0].fields.len() ==> table.headers@[i]@ == utf8::decode_utf8(
                    found[0].fields[i],
                )
                &&& 0 <= i < rows.len() ==> {
                    &&& rows[i].len() == found[i + 1].fields.len()
                    &&& forall|col: int|
                        0 <= col < rows[i].len() ==> #[trigger] rows[i][col] == utf8::decode_utf8(
                            found[i + 1].fields[col],
                        )
                }
            }
        }),
{
    let heads = text::texts(table.headers@);
    assert(heads.len() == table.headers@.len());
    if 0 <= i < heads.len() {
        assert(heads[i] == table.headers@[i]@);
    }
}

// ---------------------------------------------------------------------------
// Workbooks
// ---------------------------------------------------------------------------

/// The texts of a row of cells.
pub open spec fn cell_texts(row: Seq<CellValue>) -> Seq<Seq<char>> {
    row.map_values(|c: CellValue| values::cell_text(c))
}

/// A row of cells cut or filled up to `cols` columns.
pub open spec fn fitted(row: Seq<CellValue>, cols: nat) -> Seq<Seq<char>> {
    Seq::new(
        cols,
        |i: int|
            if i < row.len() {
                values::cell_text(row[i])
            } else {
                Seq::empty()
            },
    )
}

/// Some text is not empty.
pub open spec fn any_text(row: Seq<Seq<char>>) -> bool {
    exists|i: int| 0 <= i < row.len() && (#[trigger] row[i]).len() > 0
}

/// The data rows among the first `n` rows of a sheet: those behind the header,
/// fitted to the header, that hold any text.
pub open spec fn data_rows(rows: Seq<Vec<CellValue>>, n: int) -> Seq<Seq<Seq<char>>>
    decreases n,
{
    if n <= 1 {
        Seq::empty()
    } else {
        let row = fitted(rows[n - 1]@, rows[0]@.len());
        if any_text(row) {
            data_rows(rows, n - 1).push(row)
        } else {
            data_rows(rows, n - 1)
        }
    }
}

/// Every data row of a sheet is as long as the header and holds some text.
pub proof fn lemma_data_rows_shape(rows: Seq<Vec<CellValue>>, n: int)
    requires
        n <= rows.len(),
    ensures
        forall|i: int|
            0 <= i < data_rows(rows, n).len() ==> (#[trigger] data_rows(rows, n)[i]).len()
                == rows[0]@.len() && any_text(data_rows(rows, n)[i]),
        n >= 1 ==> data_rows(rows, n).len() < n,
    decreases n,
{
    if n > 1 {
        lemma_data_rows_shape(rows, n - 1);
    }
}

/// A row behind the header is left out of a sheet only if it shows no text below any
/// header: a row with some text in column `col` is among the data rows, cut or filled up
/// to the length of the header.
pub proof fn lemma_rows_with_text_are_kept(
    rows: Seq<Vec<CellValue>>,
    n: int,
    i: int,
    col: int,
    row: Seq<Seq<char>>,
)
    requires
        0 < i < n <= rows.len(),
        0 <= col < rows[0]@.len(),
        col < rows[i]@.len(),
        values::cell_text(rows[i]@[col]).len() > 0,
        row.len() == rows[0]@.len(),
        forall|c: int|
            0 <= c < row.len() ==> #[trigger] row[c] == (if c < rows[i]@.len() {
                values::cell_text(rows[i]@[c])
            } else {
                Seq::empty()
            }),
    ensures
        data_rows(rows, n).contains(row),
    decreases n,
{
    let fit = fitted(rows[i]@, rows[0]@.len());
    assert(fit =~= row);
    assert(fit[col].len() > 0);
    if i == n - 1 {
        assert(data_rows(rows, n).last() == row);
    } else {
        lemma_rows_with_text_are_kept(rows, n - 1, i, col, row);
        let before = data_rows(rows, n - 1);
        let k = choose|k: int| 0 <= k < before.len() && before[k] == row;
        assert(data_rows(rows, n)[k] == row);
    }
}

/// The data rows of a sheet are rows behind its header, in their order, and each of
/// them shows some text: `at` tells the row of the sheet that a data row comes from.
pub proof fn lemma_data_rows_come_from_the_sheet(rows: Seq<Vec<CellValue>>, n: int) -> (at: Seq<
    int,
>)
    requires
        n <= rows.len(),
    ensures
        at.len() == data_rows(rows, n).len(),
        forall|a: int, b: int| 0 <= a < b < at.len() ==> #[trigger] at[a] < #[trigger] at[b],
        forall|a: int|
            0 <= a < at.len() ==> {
                let row = data_rows(rows, n)[a];
                let cells = rows[#[trigger] at[a]]@;
                &&& 1 <= at[a] < n
                &&& row.len() == rows[0]@.len()
                &&& forall|c: int|
                    0 <= c < row.len() ==> #[trigger] row[c] == (if c < cells.len() {
                        values::cell_text(cells[c])
                    } else {
                        Seq::empty()
                    })
                &&& exists|c: int|
                    0 <= c < row.len() && c < cells.len() && values::cell_text(
                        #[trigger] cells[c],
                    ).len() > 0
            },
        forall|i: int|
            1 <= i < n && !at.contains(i) ==> forall|c: int|
                0 <= c < rows[0]@.len() && c < rows[i]@.len() ==> values::cell_text(
                    #[trigger] rows[i]@[c],
                ).len() == 0,
    decreases n,
{
    if n <= 1 {
        Seq::empty()
    } else {
        let before = lemma_data_rows_come_from_the_sheet(rows, n - 1);
        let row = fitted(rows[n - 1]@, rows[0]@.len());
        let at = if any_text(row) {
            before.push(n - 1)
        } else {
            before
        };
        assert forall|a: int| 0 <= a < at.len() implies {
            let row = data_rows(rows, n)[a];
            let cells = rows[#[trigger] at[a]]@;
            &&& 1 <= at[a] < n
            &&& row.len() == rows[0]@.len()
            &&& forall|c: int|
                0 <= c < row.len() ==> #[trigger] row[c] == (if c < cells.len() {
                    values::cell_text(cells[c])
                } else {
                    Seq::empty()
                })
            &&& exists|c: int|
                0 <= c < row.len() && c < cells.len() && values::cell_text(
                    #[trigger] cells[c],
                ).len() > 0
        } by {
            if a < before.len() {
                assert(at[a] == before[a]);
                assert(data_rows(rows, n)[a] == data_rows(rows, n - 1)[a]);
            } else {
                let c = choose|c: int| 0 <= c < row.len() && (#[trigger] row[c]).len() > 0;
                assert(values::cell_text(rows[n - 1]@[c]).len() > 0);
            }
        }
        assert forall|i: int| 1 <= i < n && !at.contains(i) implies forall|c: int|
            0 <= c < rows[0]@.len() && c < rows[i]@.len() ==> values::cell_text(
                #[trigger] rows[i]@[c],
            ).len() == 0 by {
            if i == n - 1 {
                if any_text(row) {
                    assert(at[at.len() - 1] == i);
                }
                assert forall|c: int| 0 <= c < rows[0]@.len() && c < rows[i]@.len()
                    implies values::cell_text(#[trigger] rows[i]@[c]).len() == 0 by {
                    assert(row[c].len() == 0);
                }
            } else if before.contains(i) {
                let k = choose|k: int| 0 <= k < before.len() && before[k] == i;
                assert(at[k] == i);
            }
        }
        at
    }
}

/// The header of a sheet: the texts of its first row.
pub open spec fn sheet_headers(rows: Seq<Vec<CellValue>>) -> Seq<Seq<char>> {
    if rows.len() == 0 {
        Seq::empty()
    } else {
        cell_texts(rows[0]@)
    }
}

/// Whether some text is not empty.
fn has_text(row: &Vec<String>) -> (found: bool)
    ensures
        found == any_text(text::texts(row@)),
{
    let mut i: usize = 0;
    while i < row.len()
        invariant
            i <= row@.len(),
            forall|k: int| 0 <= k < i ==> (#[trigger] text::texts(row@)[k]).len() == 0,
        decreases row@.len() - i,
    {
        if !row[i].as_str().is_empty() {
            assert(text::texts(row@)[i as int].len() > 0);
            return true;
        }
        assert(text::texts(row@)[i as int].len() == 0);
        i = i + 1;
    }
    false
}

/// The texts of a row of cells.
fn row_of_cells(row: &Vec<CellValue>) -> (texts: Vec<String>)
    ensures
        text::texts(texts@) == cell_texts(row@),
{
    fit_row(row, row.len())
}

/// A row of cells cut or filled up to `cols` columns.
fn fit_row(row: &Vec<CellValue>, cols: usize) -> (texts: Vec<String>)
    ensures
        text::texts(texts@) == fitted(row@, cols as nat),
        cols == row@.len() ==> text::texts(texts@) == cell_texts(row@),
{
    let mut texts: Vec<String> = Vec::new();
    let mut i: usize = 0;
    while i < cols
        invariant
            i <= cols,
            text::texts(texts@) == fitted(row@, cols as nat).take(i as int),
        decreases cols - i,
    {
        let ghost before = texts@;
        let cell = if i < row.len() {
            cell_to_string(&row[i])
        } else {
            String::new()
        };
        texts.push(cell);
        i = i + 1;
        proof {
            assert(text::texts(texts@) =~= text::texts(before).push(cell@));
            assert(fitted(row@, cols as nat).take(i as int) =~= fitted(row@, cols as nat).take(
                i - 1,
            ).push(cell@));
        }
    }
    proof {
        assert(fitted(row@, cols as nat).take(cols as int) =~= fitted(row@, cols as nat));
        if cols == row@.len() {
            assert(fitted(row@, cols as nat) =~= cell_texts(row@));
        }
    }
    texts
}

/// The table of a sheet.
fn load_sheet(cells: &Vec<Vec<CellValue>>) -> (table: DataTable)
    ensures
        table.wf(),
        table.holds_table(sheet_headers(cells@), data_rows(cells@, cells@.len() as int)),
{
    if cells.len() == 0 {
        let table = DataTable::new(Vec::new(), Vec::new());
        proof {
            assert(text::texts(table.headers@) =~= Seq::empty());
            assert(text::grid(Seq::<Vec<String>>::empty()) =~= Seq::empty());
        }
        return table;
    }
    let headers = row_of_cells(&cells[0]);
    let mut rows: Vec<Vec<String>> = Vec::new();
    let mut i: usize = 1;
    assert(text::texts(headers@).len() == headers@.len());
    assert(text::grid(rows@) =~= Seq::empty());
    while i < cells.len()
        invariant
            1 <= i <= cells@.len(),
            headers@.len() == cells@[0]@.len(),
            text::grid(rows@) == data_rows(cells@, i as int),
        decreases cells@.len() - i,
    {
        let ghost before = rows@;
        let row = fit_row(&cells[i], headers.len());
        if has_text(&row) {
            rows.push(row);
            assert(text::grid(rows@) =~= text::grid(before).push(text::texts(row@)));
        }
        i = i + 1;
    }
    DataTable::new(headers, rows)
}

/// The tables of the sheets of a workbook.
pub open spec fn workbook_tables(
    tables: Seq<(String, DataTable)>,
    sheets: Seq<Sheet>,
) -> bool {
    &&& tables.len() == sheets.len()
    &&& forall|i: int|
        0 <= i < sheets.len() ==> {
            &&& (#[trigger] tables[i]).0@ == sheets[i].0@
            &&& tables[i].1.wf()
            &&& tables[i].1.holds_table(
                sheet_headers(sheets[i].1@),
                data_rows(sheets[i].1@, sheets[i].1@.len() as int),
            )
        }
}

/// The tables of a workbook, one for each sheet, with the names of the sheets.
pub fn load_excel(sheets: &Vec<Sheet>) -> (loaded: Result<Vec<(String, DataTable)>, LoadError>)
    ensures
        sheets@.len() == 0 <==> loaded is Err,
        loaded matches Err(e) ==> e is NoSheets,
        loaded matches Ok(tables) ==> workbook_tables(tables@, sheets@),
{
    if sheets.len() == 0 {
        return Err(LoadError::NoSheets);
    }
    let mut tables: Vec<(String, DataTable)> = Vec::new();
    let mut i: usize = 0;
    while i < sheets.len()
        invariant
            i <= sheets@.len(),
            tables@.len() == i,
            forall|k: int|
                0 <= k < i ==> {
                    &&& (#[trigger] tables@[k]).0@ == sheets@[k].0@
                    &&& tables@[k].1.wf()
                    &&& tables@[k].1.holds_table(
                        sheet_headers(sheets@[k].1@),
                        data_rows(sheets@[k].1@, sheets@[k].1@.len() as int),
                    )
                },
        decreases sheets@.len() - i,
    {
        let sheet = &sheets[i];
        tables.push((sheet.0.clone(), load_sheet(&sheet.1)));
        i = i + 1;
    }
    Ok(tables)
}

// ---------------------------------------------------------------------------
// Columnar files
// ---------------------------------------------------------------------------

/// A table over the row groups of a columnar file.
pub open spec fn columnar_table(
    table: DataTable,
    headers: Seq<String>,
    counts: Seq<usize>,
    sample: Seq<Vec<ArrowValue>>,
) -> bool {
    let total = parquet_backend::rows_before(counts, counts.len() as int);
    let first = if total > 0 {
        parquet_backend::value_rows(sample)
    } else {
        Seq::empty()
    };
    &&& table.headers@ == headers
    &&& table.column_widths@ == width::table_widths(text::texts(headers), first)
    &&& table.backend matches RowBackend::Parquet(b) && {
        &&& b.wf()
        &&& b.row_group_bounds@ == parquet_backend::bounds_of(counts)
        &&& b.total_rows == total
        &&& b.held() == (0int, first)
        &&& b.cached_group_idx == (if total > 0 {
            Some(0usize)
        } else {
            None
        })
    }
}

/// A table that was just loaded from a columnar file presents the rows of the
/// file, if its first rows were read as they are.
pub proof fn lemma_columnar_table_presents_rows(
    table: DataTable,
    headers: Seq<String>,
    counts: Seq<usize>,
    sample: Seq<Vec<ArrowValue>>,
    content: Seq<Seq<Seq<char>>>,
)
    requires
        columnar_table(table, headers, counts, sample),
        content.len() == parquet_backend::rows_before(counts, counts.len() as int),
        sample.len() <= content.len(),
        parquet_backend::value_rows(sample) == content.take(sample.len() as int),
    ensures
        forall|bytes: Seq<u8>| #[trigger] table.backend.presents_file(bytes, content),
{
    if let RowBackend::Parquet(b) = table.backend {
        assert(text::grid(b.cache@).len() == b.cache@.len());
        assert forall|i: int| b.holds(i) implies #[trigger] b.row_at(i) == content[i] by {
            assert(b.row_at(i) == text::grid(b.cache@)[i]);
        }
    }
}

/// The tables of a workbook present their data rows.
pub proof fn lemma_workbook_tables_present_rows(
    tables: Seq<(String, DataTable)>,
    sheets: Seq<Sheet>,
    i: int,
)
    requires
        workbook_tables(tables, sheets),
        0 <= i < sheets.len(),
    ensures
        forall|bytes: Seq<u8>| #[trigger]
            tables[i].1.backend.presents_file(
                bytes,
                data_rows(sheets[i].1@, sheets[i].1@.len() as int),
            ),
{
    assert(tables[i].1.wf());
}

/// The table of a columnar file.
pub fn load_parquet(
    headers: Vec<String>,
    counts: &[usize],
    sample: &Vec<Vec<ArrowValue>>,
) -> (table: DataTable)
    requires
        parquet_backend::rows_before(counts@, counts@.len() as int) <= usize::MAX,
    ensures
        table.wf(),
        columnar_table(table, headers@, counts@, sample@),
{
    let ghost names = text::texts(headers@);
    let (headers, column_widths, backend) = ParquetBackend::open(headers, counts, sample);
    proof {
        assert(width::widened_all(width::header_widths(names), Seq::empty())
            =~= width::header_widths(names));
    }
    DataTable { headers, column_widths, backend: RowBackend::Parquet(backend) }
}

// ---------------------------------------------------------------------------
// Any file
// ---------------------------------------------------------------------------

/// What the table of a file without sheets is called: the name of the file
/// without its extension, or `data`.
pub open spec fn table_name(stem: Option<Seq<char>>) -> Seq<char> {
    match stem {
        Some(name) => name,
        None => "data"@,
    }
}

/// The text of an optional string.
pub open spec fn optional_text(text: Option<String>) -> Option<Seq<char>> {
    match text {
        Some(t) => Some(t@),
        None => None,
    }
}

/// Load what was read from a file. Returns a list of (sheet_name, DataTable)
/// pairs.
pub fn load_file(stem: Option<String>, contents: Contents) -> (loaded: Result<
    Vec<(String, DataTable)>,
    LoadError,
>)
    requires
        contents matches Contents::Bytes { raw, delimiter } ==> utf8::valid_utf8(raw@)
            || encoding::decodable_len(raw@.len()),
        contents matches Contents::Columns { headers, counts, sample }
            ==> parquet_backend::rows_before(counts@, counts@.len() as int) <= usize::MAX,
    ensures
        match contents {
            Contents::Bytes { raw, delimiter } => {
                &&& loaded is Ok <==> header_is_text(raw@, delimiter)
                &&& delimiter < 0x80 ==> loaded is Ok
                &&& loaded matches Err(e) ==> e is Csv
                &&& loaded matches Ok(tables) ==> tables@.len() == 1 && tables@[0].0@
                    == table_name(optional_text(stem)) && tables@[0].1.wf() && csv_table(
                    tables@[0].1,
                    raw@,
                    delimiter,
                )
            },
            Contents::Sheets(sheets) => {
                &&& sheets@.len() == 0 <==> loaded is Err
                &&& loaded matches Err(e) ==> e is NoSheets
                &&& loaded matches Ok(tables) ==> workbook_tables(tables@, sheets@)
            },
            Contents::Columns { headers, counts, sample } => {
                &&& loaded matches Ok(tables) && tables@.len() == 1 && tables@[0].0@
                    == table_name(optional_text(stem)) && tables@[0].1.wf() && columnar_table(
                    tables@[0].1,
                    headers@,
                    counts@,
                    sample@,
                )
            },
        },
{
    let name = match stem {
        Some(name) => name,
        None => "data".to_owned(),
    };
    let table = match contents {
        Contents::Bytes { raw, delimiter } => {
            match load_csv(raw, delimiter) {
                Ok(table) => table,
                Err(error) => {
                    return Err(LoadError::Csv(error));
                },
            }
        },
        Contents::Sheets(sheets) => {
            return load_excel(&sheets);
        },
        Contents::Columns { headers, counts, sample } => load_parquet(
            headers,
            counts.as_slice(),
            &sample,
        ),
    };
    let mut tables: Vec<(String, DataTable)> = Vec::new();
    tables.push((name, table));
    Ok(tables)
}

/// Which extensions go with which format, in lowercase.
pub proof fn lemma_formats(ext: Seq<char>)
    ensures
        (format_named(ext) matches Some(Format::Delimited(d)) ==> d == 44 || d == 9),
        ext == "csv"@ <==> format_named(ext) == Some(Format::Delimited(44)),
        ext == "tsv"@ || ext == "tab"@ <==> format_named(ext) == Some(Format::Delimited(9)),
        ext == "xls"@ || ext == "xlsx"@ || ext == "xlsm"@ || ext == "xlsb"@ <==> format_named(ext)
            == Some(Format::Workbook),
        ext == "parquet"@ || ext == "pq"@ <==> format_named(ext) == Some(Format::Columnar),
{
    reveal_strlit("csv");
    reveal_strlit("tsv");
    reveal_strlit("tab");
    reveal_strlit("xls");
    reveal_strlit("xlsx");
    reveal_strlit("xlsm");
    reveal_strlit("xlsb");
    reveal_strlit("parquet");
    reveal_strlit("pq");
    assert("csv"@[0] == 'c' && "tsv"@[0] == 't' && "tab"@[0] == 't');
    assert("xls"@[0] == 'x' && "xlsx"@[0] == 'x' && "xlsm"@[0] == 'x' && "xlsb"@[0] == 'x');
    assert("parquet"@[0] == 'p' && "pq"@[0] == 'p');
}

/// The tables of a workbook are those of its sheets, in their order and under their
/// names. The headers of a sheet are the texts of the cells of its first row.
pub proof fn lemma_workbook_tables_are_its_sheets(
    tables: Seq<(String, DataTable)>,
    sheets: Seq<Sheet>,
    i: int,
    col: int,
)
    requires
        workbook_tables(tables, sheets),
        0 <= i < sheets.len(),
    ensures
        tables.len() == sheets.len(),
        tables[i].0@ == sheets[i].0@,
        sheets[i].1@.len() == 0 ==> tables[i].1.headers@.len() == 0
            && tables[i].1.backend.row_count() == 0,
        sheets[i].1@.len() > 0 ==> {
            &&& tables[i].1.headers@.len() == sheets[i].1@[0]@.len()
            &&& 0 <= col < sheets[i].1@[0]@.len() ==> tables[i].1.headers@[col]@
                == values::cell_text(sheets[i].1@[0]@[col])
        },
        tables[i].1.backend.row_count() == data_rows(
            sheets[i].1@,
            sheets[i].1@.len() as int,
        ).len(),
{
    let table = tables[i].1;
    let heads = text::texts(table.headers@);
    assert(heads.len() == table.headers@.len());
    if 0 <= col < heads.len() {
        assert(heads[col] == table.headers@[col]@);
    }
    if let RowBackend::InMemory(rows) = table.backend {
        assert(text::grid(rows@).len() == rows@.len());
    }
}

/// A table in memory has columns as wide as their widest text, and four cells at least.
pub proof fn lemma_sheet_columns_fit_cells(
    tables: Seq<(String, DataTable)>,
    sheets: Seq<Sheet>,
    i: int,
    col: int,
    r: int,
)
    requires
        workbook_tables(tables, sheets),
        0 <= i < sheets.len(),
        0 <= col < tables[i].1.headers@.len(),
    ensures
        ({
            let rows = data_rows(sheets[i].1@, sheets[i].1@.len() as int);
            let w = tables[i].1.column_widths@[col];
            &&& tables[i].1.column_widths@.len() == tables[i].1.headers@.len()
            &&& w >= 4
            &&& width::display_width(tables[i].1.headers@[col]@) <= w
            &&& 0 <= r < rows.len() ==> width::display_width(rows[r][col]) <= w
            &&& w == 4 || w == width::display_width(tables[i].1.headers@[col]@) || exists|k: int|
                0 <= k < rows.len() && col < rows[k].len() && width::display_width(
                    #[trigger] rows[k][col],
                ) == w
        }),
{
    let table = tables[i].1;
    let heads = text::texts(table.headers@);
    let rows = data_rows(sheets[i].1@, sheets[i].1@.len() as int);
    assert(heads[col] == table.headers@[col]@);
    width::lemma_table_widths_cover(heads, rows, col);
    width::lemma_table_widths_are_needed(heads, rows, col);
    lemma_data_rows_shape(sheets[i].1@, sheets[i].1@.len() as int);
    if 0 <= r < rows.len() {
        assert(rows[r].len() == heads.len());
        assert(width::display_width(rows[r][col]) <= table.column_widths@[col]);
    }
}

/// A columnar file has as many rows as its row groups have together, and the group of a
/// row begins behind the rows of the groups before it. Its columns are as wide as the
/// header and each cell of the rows that were read first.
pub proof fn lemma_columnar_rows_and_columns(
    table: DataTable,
    headers: Seq<String>,
    counts: Seq<usize>,
    sample: Seq<Vec<ArrowValue>>,
    col: int,
    r: int,
    sizes: Seq<int>,
)
    requires
        columnar_table(table, headers, counts, sample),
        sizes.len() == counts.len(),
        forall|g: int| 0 <= g < sizes.len() ==> #[trigger] sizes[g] == counts[g],
        0 <= col < headers.len(),
    ensures
        table.headers@ == headers,
        table.backend.row_count() == viewport::total(sizes),
        table.column_widths@.len() == headers.len(),
        table.column_widths@[col] >= 4,
        width::display_width(headers[col]@) <= table.column_widths@[col],
        table.backend.row_count() > 0 && 0 <= r < sample.len() && col < sample[r]@.len()
            ==> width::display_width(values::arrow_text(sample[r]@[col]))
            <= table.column_widths@[col],
        table.backend.row_count() > 0 && 0 <= r < sample.len() && col < sample[r]@.len()
            ==> table.backend.row_at(r)[col] == values::arrow_text(sample[r]@[col]),
{
    lemma_rows_before_is_total(counts, sizes, counts.len() as int);
    assert(sizes.take(sizes.len() as int) =~= sizes);
    let first = if table.backend.row_count() > 0 {
        parquet_backend::value_rows(sample)
    } else {
        Seq::empty()
    };
    let heads = text::texts(headers);
    assert(heads[col] == headers[col]@);
    width::lemma_table_widths_cover(heads, first, col);
    if table.backend.row_count() > 0 && 0 <= r < sample.len() && col < sample[r]@.len() {
        assert(first[r][col] == values::arrow_text(sample[r]@[col]));
        assert(width::display_width(first[r][col]) <= table.column_widths@[col]);
        if let RowBackend::Parquet(b) = table.backend {
            assert(text::grid(b.cache@).len() == b.cache@.len());
            assert(b.row_at(r) == first[r]);
        }
    }
}

proof fn lemma_rows_before_is_total(counts: Seq<usize>, sizes: Seq<int>, n: int)
    requires
        0 <= n <= counts.len(),
        sizes.len() == counts.len(),
        forall|g: int| 0 <= g < sizes.len() ==> #[trigger] sizes[g] == counts[g],
    ensures
        parquet_backend::rows_before(counts, n) == viewport::total(sizes.take(n)),
    decreases n,
{
    if n > 0 {
        lemma_rows_before_is_total(counts, sizes, n - 1);
        assert(sizes.take(n).drop_last() =~= sizes.take(n - 1));
        assert(sizes[n - 1] == counts[n - 1]);
    }
}

/// A file without sheets lends its table its name; without a name it is `data`.
pub proof fn lemma_table_name(name: Seq<char>)
    ensures
        table_name(Some(name)) == name,
        table_name(None) == seq!['d', 'a', 't', 'a'],
{
    reveal_strlit("data");
    assert("data"@ =~= seq!['d', 'a', 't', 'a']);
}

} // verus!
