//! Rows of a delimited file: an index of byte offsets, and a window of rows
//! that is read again as needed.
use crate::encoding;
use crate::encoding::transcode;
use crate::records;
use crate::records::{
    open_reader, read_byte_record, read_headers, read_position, read_window, Record,
};
use crate::text;
use crate::text::utf8_text;
use crate::width;
use crate::width::{widen, widths_of_headers};
use vstd::prelude::*;
use vstd::slice::slice_subrange;
use vstd::utf8;

verus! {

/// Number of rows to load in one go when the cache misses.
pub const CSV_CACHE_WINDOW: usize = 500;

/// Rows that are loaded on each side of a range that is asked for.
pub const CSV_PREFETCH_MARGIN: usize = 100;

/// The longest file that is served from memory though it is UTF-8.
pub const PROBE_LEN: usize = 0x10000;

/// Where the bytes of the rows are.
#[derive(Debug)]
pub enum Source {
    /// In memory: a file that is short, or that had to be transcoded.
    Memory(Vec<u8>),
    /// On disk, to be read by windows.
    File,
}

/// A range of bytes of the file to be read: the rows from `row` on, and in front of
/// them the line end of the record before.
#[derive(Clone, Copy, Debug, PartialEq, Eq, Structural)]
pub struct ByteWindow {
    pub row: usize,
    pub start: u64,
    pub end: u64,
}

#[derive(Debug)]
pub struct CsvBackend {
    pub source: Source,
    /// Byte offset of the start of each data row.  `row_offsets[i]` is the
    /// first byte of row `i`.  There are `total_rows + 1` entries so that
    /// `row_offsets[i + 1]` gives the exclusive end of row `i`.
    pub row_offsets: Vec<u64>,
    pub delimiter: u8,
    pub total_rows: usize,
    /// Index of the first row currently held in `cache`.
    pub cache_start: usize,
    pub cache: Vec<Vec<String>>,
}

// ---------------------------------------------------------------------------
// What a file holds
// ---------------------------------------------------------------------------

/// The bytes that rows are read from: the file itself if it is valid UTF-8, else
/// the text that it holds in the encoding that is detected for it.
pub open spec fn served(raw: Seq<u8>) -> Seq<u8> {
    if utf8::valid_utf8(raw) {
        raw
    } else {
        utf8::encode_utf8(encoding::decoded_text(raw))
    }
}

/// The file is read by windows from disk.
pub open spec fn lazily(raw: Seq<u8>) -> bool {
    utf8::valid_utf8(raw) && raw.len() > PROBE_LEN
}

/// Rows are always read from valid UTF-8.
pub proof fn lemma_served_is_utf8(raw: Seq<u8>)
    ensures
        utf8::valid_utf8(served(raw)),
{
    utf8::encode_utf8_valid_utf8(encoding::decoded_text(raw));
}

/// Data row `i`, a record that is text: the header comes before the first row.
pub open spec fn row_text(records: Seq<Record>, i: int) -> Seq<Seq<char>> {
    records::field_texts(records[i + 1].fields)
}

/// The data rows of a file with this content.
pub open spec fn rows_of(content: Seq<u8>, delimiter: u8) -> Seq<Seq<Seq<char>>> {
    let found = records::records_of(content, delimiter);
    Seq::new(row_count(found) as nat, |i: int| row_text(found, i))
}

/// Number of data rows.
pub open spec fn row_count(records: Seq<Record>) -> int {
    if records.len() == 0 {
        0
    } else {
        records.len() - 1
    }
}

/// The fields of the header.
pub open spec fn header_fields(records: Seq<Record>) -> Seq<Seq<u8>> {
    if records.len() == 0 {
        Seq::empty()
    } else {
        records[0].fields
    }
}

/// Widths of a large file are taken from every row whose number is a multiple
/// of this; a row is guessed to take 20 bytes. Widths of a small file are exact.
pub open spec fn sample_interval(file_size: int) -> int {
    if file_size / 20 > 100_000 {
        file_size / 20 / 2000
    } else {
        1
    }
}

/// The text of a field for its width: nothing where it is not valid UTF-8.
pub open spec fn lossy_text(field: Seq<u8>) -> Seq<char> {
    if utf8::valid_utf8(field) {
        utf8::decode_utf8(field)
    } else {
        Seq::empty()
    }
}

/// The texts of the fields of a row for its width.
pub open spec fn lossy_texts(fields: Seq<Seq<u8>>) -> Seq<Seq<char>> {
    fields.map_values(|f: Seq<u8>| lossy_text(f))
}

/// Those of the first `n` data rows that widths are taken from.
pub open spec fn sampled_rows(records: Seq<Record>, interval: int, n: int) -> Seq<Seq<Seq<char>>>
    decreases n,
{
    if n <= 0 {
        Seq::empty()
    } else {
        let rows = sampled_rows(records, interval, n - 1);
        if (n - 1) % interval == 0 {
            rows.push(lossy_texts(records[n].fields))
        } else {
            rows
        }
    }
}

/// The column widths of a file of `file_size` bytes with these records.
pub open spec fn sampled_widths(records: Seq<Record>, file_size: int) -> Seq<usize> {
    width::widened_all(
        width::header_widths(records::field_texts(header_fields(records))),
        sampled_rows(records, sample_interval(file_size), row_count(records)),
    )
}

/// The offsets are those of the rows of `content`, the end of the last one
/// included.
pub open spec fn offsets_of(offsets: Seq<u64>, content: Seq<u8>, records: Seq<Record>) -> bool {
    &&& offsets.len() == row_count(records) + 1
    &&& if records.len() == 0 {
        offsets[0] == content.len()
    } else {
        forall|i: int| 0 <= i < offsets.len() ==> #[trigger] offsets[i] == records[i].end
    }
}

/// Every data row is text.
pub open spec fn plain_rows(records: Seq<Record>) -> bool {
    forall|i: int| 1 <= i < records.len() ==> records::is_text(#[trigger] records[i].fields)
}

// ---------------------------------------------------------------------------
// Windows
// ---------------------------------------------------------------------------

/// Rows `start..end`, if there are such rows.
pub open spec fn rows_within(start: int, end: int, total: int) -> Option<(int, int)> {
    if start < end && end <= total {
        Some((start, end))
    } else {
        None
    }
}

/// The window that is loaded around a row.
pub open spec fn window_around(idx: int, total: int) -> Option<(int, int)> {
    let start = if idx >= CSV_CACHE_WINDOW / 2 {
        idx - CSV_CACHE_WINDOW / 2
    } else {
        0
    };
    let end = if start + CSV_CACHE_WINDOW <= total {
        start + CSV_CACHE_WINDOW
    } else {
        total
    };
    rows_within(start, end, total)
}

/// The window that is loaded for rows `start..end`: those and a margin.
pub open spec fn window_over(start: int, end: int, total: int) -> Option<(int, int)> {
    let first = if start >= CSV_PREFETCH_MARGIN {
        start - CSV_PREFETCH_MARGIN
    } else {
        0
    };
    let last = if end + CSV_PREFETCH_MARGIN <= total {
        end + CSV_PREFETCH_MARGIN
    } else {
        total
    };
    rows_within(first, last, total)
}

impl CsvBackend {
    /// The index is complete, and lies within the bytes where they are known.
    pub open spec fn wf(self) -> bool {
        &&& self.row_offsets@.len() == self.total_rows + 1
        &&& forall|i: int, j: int|
            0 <= i < j < self.row_offsets@.len() ==> self.row_offsets@[i] < self.row_offsets@[j]
        &&& self.total_rows > 0 ==> self.row_offsets@[0] > 0
        &&& self.source matches Source::Memory(bytes) ==> self.row_offsets@.last()
            <= bytes@.len()
    }

    /// This is an index of `content`.
    pub open spec fn indexes(self, content: Seq<u8>) -> bool {
        let found = records::records_of(content, self.delimiter);
        &&& self.total_rows == row_count(found)
        &&& offsets_of(self.row_offsets@, content, found)
        &&& records::in_order(found, content)
        &&& records::seekable(content, self.delimiter, found)
        &&& records::keeps_text(content, self.delimiter, found)
        &&& self.source matches Source::Memory(bytes) ==> bytes@ == content
    }

    /// Every row that is held is the row of `content` with its number.
    pub open spec fn holds_rows_of(self, content: Seq<u8>) -> bool {
        let found = records::records_of(content, self.delimiter);
        &&& self.cache@.len() == 0 || self.cache_start + self.cache@.len() <= self.total_rows
        &&& forall|i: int| self.holds(i) ==> #[trigger] self.row_at(i) == row_text(found, i)
    }

    /// This is an index of `content`, whose rows are plain, and every row that
    /// is held is the row of `content` with its number.
    pub open spec fn faithful(self, content: Seq<u8>) -> bool {
        &&& self.indexes(content)
        &&& plain_rows(records::records_of(content, self.delimiter))
        &&& self.holds_rows_of(content)
    }

    /// Row `idx` is held.
    pub open spec fn holds(self, idx: int) -> bool {
        self.cache_start <= idx < self.cache_start + self.cache@.len()
    }

    /// What is given for row `idx`: nothing where it is not held.
    pub open spec fn row_at(self, idx: int) -> Seq<Seq<char>> {
        if self.holds(idx) {
            text::grid(self.cache@)[idx - self.cache_start]
        } else {
            Seq::empty()
        }
    }

    /// The rows that are held, and the number of the first one.
    pub open spec fn held(self) -> (int, Seq<Seq<Seq<char>>>) {
        (self.cache_start as int, text::grid(self.cache@))
    }

    /// All but the cache is as in `other`.
    pub open spec fn same_index(self, other: CsvBackend) -> bool {
        &&& self.source == other.source
        &&& self.row_offsets == other.row_offsets
        &&& self.delimiter == other.delimiter
        &&& self.total_rows == other.total_rows
    }

    /// The window to be loaded for row `idx`, if it is not held.
    pub open spec fn row_window(self, idx: int) -> Option<(int, int)> {
        if self.holds(idx) {
            None
        } else {
            window_around(idx, self.total_rows as int)
        }
    }

    /// The window to be loaded for `count` rows from `start` on, if they are not
    /// all held.
    pub open spec fn range_window(self, start: int, count: int) -> Option<(int, int)> {
        let end = if start + count <= self.total_rows {
            start + count
        } else {
            self.total_rows as int
        };
        if end == 0 {
            None
        } else if self.cache_start <= start && end <= self.cache_start + self.cache@.len() {
            None
        } else {
            window_over(start, end, self.total_rows as int)
        }
    }

    /// The bytes of a window of rows, and in front of them the line end of the record
    /// before: behind it a byte order mark is a character like any other.
    pub open spec fn bytes_of(self, window: (int, int)) -> ByteWindow {
        ByteWindow {
            row: window.0 as usize,
            start: (self.row_offsets@[window.0] - 1) as u64,
            end: self.row_offsets@[window.1],
        }
    }

    /// What is held once a window was loaded from memory. From disk nothing is
    /// loaded here.
    pub open spec fn held_after(self, window: Option<(int, int)>) -> (int, Seq<Seq<Seq<char>>>) {
        match (window, self.source) {
            (Some(w), Source::Memory(bytes)) => (
                w.0,
                records::window_rows(
                    bytes@.subrange(
                        self.row_offsets@[w.0] - 1,
                        self.row_offsets@[w.1] as int,
                    ),
                    self.delimiter,
                ),
            ),
            _ => self.held(),
        }
    }

    /// What is to be read from disk for a window.
    pub open spec fn wanted(self, window: Option<(int, int)>) -> Option<ByteWindow> {
        match (window, self.source) {
            (Some(w), Source::File) => Some(self.bytes_of(w)),
            _ => None,
        }
    }
}

/// The bytes of a window of rows hold these rows.
pub proof fn lemma_window_rows(b: CsvBackend, content: Seq<u8>, window: (int, int))
    requires
        b.indexes(content),
        plain_rows(records::records_of(content, b.delimiter)),
        0 <= window.0 < window.1 <= b.total_rows,
    ensures
        records::window_rows(
            content.subrange(b.row_offsets@[window.0] - 1, b.row_offsets@[window.1] as int),
            b.delimiter,
        ) == Seq::new(
            (window.1 - window.0) as nat,
            |k: int|
                row_text(records::records_of(content, b.delimiter), window.0 + k),
        ),
{
    let found = records::records_of(content, b.delimiter);
    let bytes = content.subrange(
        b.row_offsets@[window.0] - 1,
        b.row_offsets@[window.1] as int,
    );
    let part = records::records_of(bytes, b.delimiter);
    assert(b.row_offsets@[window.0] == found[window.0].end);
    assert(b.row_offsets@[window.1] == found[window.1].end);
    assert(records::all_fields(part) == records::all_fields(found).subrange(
        window.0 + 1,
        window.1 + 1,
    ));
    assert(part.len() == records::all_fields(part).len());
    assert forall|k: int| 0 <= k < part.len() implies (#[trigger] part[k]).fields == found[window.0
        + 1 + k].fields && records::is_text(part[k].fields) by {
        assert(records::all_fields(part)[k] == part[k].fields);
    }
    records::lemma_readable_rows_of_text(part);
    assert(records::readable_rows(part) =~= Seq::new(
        (window.1 - window.0) as nat,
        |k: int| row_text(found, window.0 + k),
    ));
}

// ---------------------------------------------------------------------------
// Opening
// ---------------------------------------------------------------------------

/// The texts of the fields of a row for its width.
fn lossy_row(fields: &Vec<Vec<u8>>) -> (row: Vec<String>)
    ensures
        text::texts(row@) == lossy_texts(records::field_bytes(fields@)),
{
    let mut row: Vec<String> = Vec::new();
    let mut i: usize = 0;
    while i < fields.len()
        invariant
            i <= fields@.len(),
            text::texts(row@) == lossy_texts(records::field_bytes(fields@)).take(i as int),
        decreases fields@.len() - i,
    {
        let ghost before = row@;
        let cell = match utf8_text(fields[i].as_slice()) {
            Some(cell) => cell,
            None => String::new(),
        };
        row.push(cell);
        i = i + 1;
        proof {
            assert(text::texts(row@) =~= text::texts(before).push(cell@));
            assert(lossy_texts(records::field_bytes(fields@)).take(i as int) =~= lossy_texts(
                records::field_bytes(fields@),
            ).take(i - 1).push(lossy_text(fields@[i - 1]@)));
        }
    }
    row
}

/// The bytes that rows are read from, and whether they are read by windows
/// from disk. Valid UTF-8 files that are long are; of other files a copy is
/// kept. Files that are not UTF-8 (GBK, Big5, Shift_JIS, …) are transcoded in
/// full: stateful multibyte encodings cannot be seeked by byte offset.
fn serve(raw: Vec<u8>) -> (found: (Vec<u8>, bool))
    requires
        utf8::valid_utf8(raw@) || encoding::decodable_len(raw@.len()),
    ensures
        found.0@ == served(raw@),
        found.1 == lazily(raw@),
{
    if utf8_text(raw.as_slice()).is_some() {
        let lazy = raw.len() > PROBE_LEN;
        (raw, lazy)
    } else {
        (transcode(raw.as_slice()), false)
    }
}

impl CsvBackend {
    /// Build a byte-offset index from the bytes of a CSV/TSV file.  Returns
    /// headers, estimated column widths, and the backend.
    pub fn open(raw: Vec<u8>, delimiter: u8) -> (opened: Result<
        (Vec<String>, Vec<usize>, Self),
        csv::Error,
    >)
        requires
            utf8::valid_utf8(raw@) || encoding::decodable_len(raw@.len()),
        ensures
            opened is Ok <==> records::is_text(
                header_fields(records::records_of(served(raw@), delimiter)),
            ),
            delimiter < 0x80 ==> opened is Ok,
            (opened matches Ok(table) ==> {
                let found = records::records_of(served(raw@), delimiter);
                &&& text::texts(table.0@) == records::field_texts(header_fields(found))
                &&& table.1@ == sampled_widths(found, raw@.len() as int)
                &&& table.2.wf()
                &&& table.2.indexes(served(raw@))
                &&& table.2.delimiter == delimiter
                &&& table.2.source is File <==> lazily(raw@)
                &&& table.2.cache_start == 0
                &&& table.2.cache@.len() == 0
            }),
    {
        let file_size = raw.len();
        // Sample rate for width tracking on large files: check every K-th row.
        let estimated_rows = file_size / 20;
        let interval: usize = if estimated_rows > 100_000 {
            estimated_rows / 2000
        } else {
            1
        };
        let ghost raw_bytes = raw@;
        let (bytes, lazy) = serve(raw);
        let ghost found = records::records_of(bytes@, delimiter);

        let mut reader = open_reader(bytes.as_slice(), delimiter, true);
        proof {
            lemma_served_is_utf8(raw_bytes);
        }
        let headers = match read_headers(&mut reader) {
            Ok(headers) => headers,
            Err(error) => {
                return Err(error);
            },
        };
        let mut widths = widths_of_headers(headers.as_slice());
        let ghost first_widths = widths@;

        // The byte position at the start of the first data row.
        let mut offsets: Vec<u64> = Vec::new();
        offsets.push(read_position(&reader));
        let mut rows: usize = 0;
        let ghost total = row_count(found);
        proof {
            assert(records::reader_state(reader).pending =~= found.skip(found.len() - total));
            assert(sampled_rows(found, interval as int, 0) =~= Seq::empty());
            assert(width::widened_all(first_widths, Seq::empty()) =~= first_widths);
        }
        loop
            invariant_except_break
                found == records::records_of(bytes@, delimiter),
                records::in_order(found, bytes@),
                total == row_count(found),
                0 <= rows <= total,
                interval > 0,
                records::reader_state(reader).flexible,
                !records::reader_state(reader).header_due,
                records::reader_state(reader).pending == found.skip(found.len() - total + rows),
                offsets@.len() == rows + 1,
                found.len() == 0 ==> offsets@[0] == bytes@.len(),
                found.len() > 0 ==> forall|i: int|
                    0 <= i < offsets@.len() ==> #[trigger] offsets@[i] == found[i].end,
                widths@ == width::widened_all(
                    first_widths,
                    sampled_rows(found, interval as int, rows as int),
                ),
            ensures
                rows == total,
                offsets@.len() == rows + 1,
                found.len() == 0 ==> offsets@[0] == bytes@.len(),
                found.len() > 0 ==> forall|i: int|
                    0 <= i < offsets@.len() ==> #[trigger] offsets@[i] == found[i].end,
                widths@ == width::widened_all(
                    first_widths,
                    sampled_rows(found, interval as int, rows as int),
                ),
            decreases total - rows,
        {
            let ghost state = records::reader_state(reader);
            let record = match read_byte_record(&mut reader) {
                Ok(record) => record,
                Err(error) => {
                    return Err(error);
                },
            };
            let fields = match record {
                Some(fields) => fields,
                None => {
                    break;
                },
            };
            assert(state.pending[0] == found[rows + 1]);
            assert(state.pending.drop_first() =~= found.skip(found.len() - total + rows + 1));
            offsets.push(read_position(&reader));

            // Track widths from sampled rows only.
            if rows % interval == 0 {
                let row = lossy_row(&fields);
                widen(&mut widths, row.as_slice());
                proof {
                    width::lemma_widen_one_more(
                        first_widths,
                        sampled_rows(found, interval as int, rows as int),
                        lossy_texts(found[rows + 1].fields),
                    );
                }
            }
            rows = offsets.len() - 1;
        }
        let source = if lazy {
            Source::File
        } else {
            Source::Memory(bytes)
        };
        let backend = CsvBackend {
            source,
            row_offsets: offsets,
            delimiter,
            total_rows: rows,
            cache_start: 0,
            cache: Vec::new(),
        };
        Ok((headers, widths, backend))
    }
}

// ---------------------------------------------------------------------------
// Reading rows
// ---------------------------------------------------------------------------

/// Rows `start..end`, if there are such rows.
fn rows_in(start: usize, end: usize, total: usize) -> (rows: Option<(usize, usize)>)
    ensures
        window_view(rows) == rows_within(start as int, end as int, total as int),
{
    if start >= end || end > total {
        None
    } else {
        Some((start, end))
    }
}

/// A window in mathematical integers.
pub open spec fn window_view(window: Option<(usize, usize)>) -> Option<(int, int)> {
    match window {
        Some(w) => Some((w.0 as int, w.1 as int)),
        None => None,
    }
}

impl CsvBackend {
    /// Whether row `idx` is held.
    fn has(&self, idx: usize) -> (held: bool)
        ensures
            held == self.holds(idx as int),
    {
        idx >= self.cache_start && idx - self.cache_start < self.cache.len()
    }

    /// The window around row `idx`, if that row is not held.
    fn window_for_row(&self, idx: usize) -> (window: Option<(usize, usize)>)
        ensures
            window_view(window) == self.row_window(idx as int),
    {
        if self.has(idx) {
            return None;
        }
        let start = idx.saturating_sub(CSV_CACHE_WINDOW / 2);
        let end = start.saturating_add(CSV_CACHE_WINDOW);
        rows_in(
            start,
            if end < self.total_rows {
                end
            } else {
                self.total_rows
            },
            self.total_rows,
        )
    }

    /// The window over `count` rows from `start` on with some margin, if these
    /// rows are not all held.
    fn window_for_range(&self, start: usize, count: usize) -> (window: Option<(usize, usize)>)
        ensures
            window_view(window) == self.range_window(start as int, count as int),
    {
        let asked = start.saturating_add(count);
        let end: usize = if asked < self.total_rows {
            asked
        } else {
            self.total_rows
        };
        if end == 0 {
            return None;
        }
        if start >= self.cache_start && (end <= self.cache_start || end - self.cache_start
            <= self.cache.len()) {
            return None;
        }
        let first = start.saturating_sub(CSV_PREFETCH_MARGIN);
        let reach = end.saturating_add(CSV_PREFETCH_MARGIN);
        let last: usize = if reach < self.total_rows {
            reach
        } else {
            self.total_rows
        };
        rows_in(first, last, self.total_rows)
    }

    /// What is to be read from disk for a window.
    fn window_on_disk(&self, window: Option<(usize, usize)>) -> (wanted: Option<ByteWindow>)
        requires
            self.wf(),
            window matches Some(w) ==> w.0 < w.1 <= self.total_rows,
        ensures
            wanted == self.wanted(window_view(window)),
    {
        match (&self.source, window) {
            (Source::File, Some((start, end))) => Some(
                ByteWindow {
                    row: start,
                    start: self.row_offsets[start] - 1,
                    end: self.row_offsets[end],
                },
            ),
            _ => None,
        }
    }

    /// Load rows `start..end` from memory.
    fn load_range(&mut self, start: usize, end: usize)
        requires
            old(self).wf(),
            start < end <= old(self).total_rows,
        ensures
            final(self).wf(),
            final(self).same_index(*old(self)),
            final(self).held() == old(self).held_after(Some((start as int, end as int))),
    {
        let rows = match &self.source {
            Source::Memory(bytes) => {
                let byte_start = self.row_offsets[start] - 1;
                let byte_end = self.row_offsets[end];
                assert(byte_end <= self.row_offsets@.last() <= bytes.len());
                read_window(
                    slice_subrange(bytes.as_slice(), byte_start as usize, byte_end as usize),
                    self.delimiter,
                )
            },
            Source::File => {
                return;
            },
        };
        self.cache_start = start;
        self.cache = rows;
    }

    /// What is to be read from disk before row `idx` is asked for.
    pub fn row_fetch(&self, idx: usize) -> (wanted: Option<ByteWindow>)
        requires
            self.wf(),
        ensures
            wanted == self.wanted(self.row_window(idx as int)),
    {
        self.window_on_disk(self.window_for_row(idx))
    }

    /// Row `idx`. Where it is not held, a window around it is loaded from
    /// memory; a row that cannot be had is empty.
    pub fn get_row(&mut self, idx: usize) -> (row: &[String])
        requires
            old(self).wf(),
            idx < old(self).total_rows,
        ensures
            final(self).wf(),
            final(self).same_index(*old(self)),
            final(self).held() == old(self).held_after(old(self).row_window(idx as int)),
            text::texts(row@) == final(self).row_at(idx as int),
    {
        let window = self.window_for_row(idx);
        if let Some((start, end)) = window {
            self.load_range(start, end);
        }
        if self.has(idx) {
            self.cache[idx - self.cache_start].as_slice()
        } else {
            &[]
        }
    }

    /// Ensure that rows `[start, start + count)` are held, as far as they come
    /// from memory; else tell what is to be read from disk for them.
    pub fn prefetch_range(&mut self, start: usize, count: usize) -> (wanted: Option<ByteWindow>)
        requires
            old(self).wf(),
        ensures
            final(self).wf(),
            final(self).same_index(*old(self)),
            final(self).held() == old(self).held_after(
                old(self).range_window(start as int, count as int),
            ),
            wanted == old(self).wanted(old(self).range_window(start as int, count as int)),
    {
        let window = self.window_for_range(start, count);
        let wanted = self.window_on_disk(window);
        if let Some((first, last)) = window {
            self.load_range(first, last);
        }
        wanted
    }

    /// Takes what was read from disk for `window`: its bytes, or nothing where
    /// reading failed. Then, and where the bytes are too many or too few,
    /// nothing is held, and the rows are empty.
    pub fn supply(&mut self, window: ByteWindow, bytes: Option<&[u8]>)
        ensures
            final(self).same_index(*old(self)),
            final(self).held() == (match bytes {
                Some(b) if b@.len() == window.end - window.start => (
                    window.row as int,
                    records::window_rows(b@, old(self).delimiter),
                ),
                _ => (window.row as int, Seq::empty()),
            }),
    {
        let rows = match bytes {
            Some(b) => {
                if window.start <= window.end && b.len() as u64 == window.end - window.start {
                    read_window(b, self.delimiter)
                } else {
                    Vec::new()
                }
            },
            None => Vec::new(),
        };
        self.cache_start = window.row;
        self.cache = rows;
        assert(bytes is None ==> text::grid(self.cache@) =~= Seq::empty());
    }
}

/// A window that is loaded for a row holds the row, and a window that is loaded
/// for a range of rows holds those of them that there are. No window is needed
/// just where they are held already.
pub proof fn lemma_windows_cover(b: CsvBackend, idx: int, start: int, count: int)
    requires
        0 <= idx < b.total_rows,
        0 <= start,
        0 < count,
        start < b.total_rows,
    ensures
        b.row_window(idx) is None <==> b.holds(idx),
        b.row_window(idx) matches Some(w) ==> 0 <= w.0 <= idx < w.1 <= b.total_rows,
        b.range_window(start, count) is None <==> forall|i: int|
            start <= i < start + count && i < b.total_rows ==> #[trigger] b.holds(i),
        b.range_window(start, count) matches Some(w) ==> 0 <= w.0 <= start && w.0 < w.1
            <= b.total_rows && (start + count <= w.1 || b.total_rows == w.1),
{
    if b.range_window(start, count) is Some {
        let end = if start + count <= b.total_rows {
            start + count
        } else {
            b.total_rows as int
        };
        if b.cache_start > start {
            assert(!b.holds(start));
        } else {
            assert(!b.holds(end - 1));
        }
    }
}

/// Once the bytes of a window were read, every row that is held is the row of
/// the content with its number, and every row of the window is held.
pub proof fn lemma_loaded_rows(
    before: CsvBackend,
    after: CsvBackend,
    content: Seq<u8>,
    window: (int, int),
)
    requires
        before.indexes(content),
        plain_rows(records::records_of(content, before.delimiter)),
        0 <= window.0 < window.1 <= before.total_rows,
        after.same_index(before),
        after.held() == (
            window.0,
            records::window_rows(
                content.subrange(
                    before.row_offsets@[window.0] - 1,
                    before.row_offsets@[window.1] as int,
                ),
                before.delimiter,
            ),
        ),
    ensures
        after.faithful(content),
        forall|i: int| window.0 <= i < window.1 ==> #[trigger] after.holds(i),
{
    lemma_window_rows(before, content, window);
    let found = records::records_of(content, before.delimiter);
    let rows = Seq::new(
        (window.1 - window.0) as nat,
        |k: int| row_text(found, window.0 + k),
    );
    assert(after.held() == (window.0, rows));
    assert(text::grid(after.cache@).len() == after.cache@.len());
    assert forall|i: int| after.holds(i) implies #[trigger] after.row_at(i) == row_text(
        found,
        i,
    ) by {
        assert(after.row_at(i) == rows[i - window.0]);
    }
}

/// Loading a window keeps every row that is held a row of the content.
pub proof fn lemma_load_keeps_rows(
    before: CsvBackend,
    after: CsvBackend,
    content: Seq<u8>,
    window: Option<(int, int)>,
)
    requires
        before.faithful(content),
        after.same_index(before),
        after.held() == before.held_after(window),
        window matches Some(w) ==> 0 <= w.0 < w.1 <= before.total_rows,
    ensures
        after.faithful(content),
        before.source is Memory ==> (window matches Some(w) ==> forall|i: int|
            w.0 <= i < w.1 ==> #[trigger] after.holds(i)),
        before.source is File || window is None ==> forall|i: int|
            before.holds(i) ==> #[trigger] after.holds(i),
{
    match (window, before.source) {
        (Some(w), Source::Memory(_)) => {
            lemma_loaded_rows(before, after, content, w);
        },
        _ => {
            assert(text::grid(after.cache@).len() == after.cache@.len());
            assert(text::grid(before.cache@).len() == before.cache@.len());
            assert forall|i: int| after.holds(i) implies #[trigger] after.row_at(i) == row_text(
                records::records_of(content, after.delimiter),
                i,
            ) by {
                assert(before.row_at(i) == after.row_at(i));
            }
        },
    }
}

/// Widths are taken from the rows whose numbers are multiples of the interval, and
/// from no other rows.
proof fn lemma_sampled_rows(found: Seq<Record>, interval: int, n: int)
    requires
        interval > 0,
        0 <= n < found.len() || n == 0,
    ensures
        forall|r: int|
            1 <= r <= n && (r - 1) % interval == 0 ==> sampled_rows(
                found,
                interval,
                n,
            ).contains(lossy_texts((#[trigger] found[r]).fields)),
        forall|k: int|
            0 <= k < sampled_rows(found, interval, n).len() ==> is_row_of(
                found,
                n,
                #[trigger] sampled_rows(found, interval, n)[k],
            ),
    decreases n,
{
    if n > 0 {
        lemma_sampled_rows(found, interval, n - 1);
        let before = sampled_rows(found, interval, n - 1);
        let rows = sampled_rows(found, interval, n);
        assert forall|r: int| 1 <= r <= n && (r - 1) % interval == 0 implies rows.contains(
            lossy_texts((#[trigger] found[r]).fields),
        ) by {
            let row = lossy_texts(found[r].fields);
            if r == n {
                assert(rows[rows.len() - 1] == row);
            } else {
                let k = choose|k: int| 0 <= k < before.len() && before[k] == row;
                assert(rows[k] == row);
            }
        }
        assert forall|k: int| 0 <= k < rows.len() implies is_row_of(
            found,
            n,
            #[trigger] rows[k],
        ) by {
            if k < before.len() {
                assert(rows[k] == before[k]);
                assert(is_row_of(found, n - 1, before[k]));
            } else {
                assert(rows[k] == lossy_texts(found[n].fields));
            }
        }
    }
}

/// `row` holds the texts of one of the first `n` data rows.
spec fn is_row_of(found: Seq<Record>, n: int, row: Seq<Seq<char>>) -> bool {
    exists|r: int| 1 <= r <= n && row == lossy_texts((#[trigger] found[r]).fields)
}

/// The widths of a file of `size` bytes with these records: every column is four cells
/// wide at least, as wide as its header, and as wide as each of its cells in a row that
/// is measured. Of a file that is guessed to have at most a hundred thousand rows, at
/// twenty bytes for a row, every row is measured; of a larger one every row whose number
/// is a multiple of the two-thousandth part of that guess. No column is wider than it
/// has to be.
pub proof fn lemma_widths_measure_rows(found: Seq<Record>, size: int, col: int)
    requires
        found.len() > 0,
        records::is_text(found[0].fields),
        plain_rows(found),
        0 <= size,
        0 <= col < found[0].fields.len(),
    ensures
        sampled_widths(found, size).len() == found[0].fields.len(),
        sampled_widths(found, size)[col] >= 4,
        width::display_width(utf8::decode_utf8(found[0].fields[col])) <= sampled_widths(
            found,
            size,
        )[col],
        forall|row: int|
            1 <= row < found.len() && col < found[row].fields.len() && (size / 20 <= 100_000
                || (row - 1) % (size / 20 / 2000) == 0) ==> width::display_width(
                utf8::decode_utf8(#[trigger] found[row].fields[col]),
            ) <= sampled_widths(found, size)[col],
        sampled_widths(found, size)[col] == 4 || exists|row: int|
            0 <= row < found.len() && col < found[row].fields.len() && sampled_widths(
                found,
                size,
            )[col] == width::display_width(
                utf8::decode_utf8(#[trigger] found[row].fields[col]),
            ),
{
    let interval = sample_interval(size);
    let n = row_count(found);
    let rows = sampled_rows(found, interval, n);
    let headers = records::field_texts(found[0].fields);
    let widths = sampled_widths(found, size);
    lemma_sampled_rows(found, interval, n);
    width::lemma_widened_is_widest(
        width::header_widths(headers)[col],
        rows,
        col,
        rows.len() as int,
    );
    assert forall|row: int|
        1 <= row < found.len() && col < found[row].fields.len() && (size / 20 <= 100_000 || (row
            - 1) % (size / 20 / 2000) == 0) implies width::display_width(
        utf8::decode_utf8(#[trigger] found[row].fields[col]),
    ) <= widths[col] by {
        assert((row - 1) % interval == 0);
        let cells = lossy_texts(found[row].fields);
        assert(rows.contains(cells));
        let k = choose|k: int| 0 <= k < rows.len() && rows[k] == cells;
        assert(records::is_text(found[row].fields));
        assert(rows[k][col] == utf8::decode_utf8(found[row].fields[col]));
        assert(width::cell_width(rows[k][col]) <= widths[col]);
    }
    if widths[col] != 4 {
        if widths[col] == width::header_widths(headers)[col] {
            assert(widths[col] == width::display_width(utf8::decode_utf8(found[0].fields[col])));
        } else {
            let k = choose|k: int|
                0 <= k < rows.len() && col < rows[k].len() && widths[col] == width::cell_width(
                    #[trigger] rows[k][col],
                );
            assert(is_row_of(found, n, rows[k]));
            let r = choose|r: int|
                1 <= r <= n && rows[k] == lossy_texts((#[trigger] found[r]).fields);
            assert(records::is_text(found[r].fields));
            assert(rows[k][col] == utf8::decode_utf8(found[r].fields[col]));
        }
    }
}

/// A file is read by windows from disk just where it is valid UTF-8 and longer than
/// 65536 bytes. A file that is not valid UTF-8 is read as the text that it holds in the
/// encoding that is detected for it, and any other as it is.
pub proof fn lemma_what_is_served(raw: Seq<u8>)
    ensures
        lazily(raw) <==> utf8::valid_utf8(raw) && raw.len() > 65536,
        utf8::valid_utf8(raw) ==> served(raw) == raw,
        !utf8::valid_utf8(raw) ==> utf8::decode_utf8(served(raw)) == (encoding::decoded(
            encoding::encoding_of(raw),
            raw,
        )->0).0,
{
    utf8::encode_utf8_decode_utf8(encoding::decoded_text(raw));
}

} // verus!
