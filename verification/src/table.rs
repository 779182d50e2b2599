//! The data table: headers, column widths, and rows that may be read from disk
//! as they are asked for.
use crate::csv_backend;
use crate::csv_backend::{ByteWindow, CsvBackend};
use crate::numbers;
use crate::parquet_backend;
use crate::parquet_backend::{GroupWindow, ParquetBackend};
use crate::records;
use crate::text;
use crate::values::ArrowValue;
use crate::width;
use crate::width::{widen, widths_of_table};
use vstd::prelude::*;

verus! {

/// Where the rows of a table come from.
#[derive(Debug)]
pub enum RowBackend {
    InMemory(Vec<Vec<String>>),
    Csv(CsvBackend),
    Parquet(ParquetBackend),
}

/// Unified data table representation. Headers and column widths are always in
/// memory; rows are provided by a `RowBackend` that may be lazy.
#[derive(Debug)]
pub struct DataTable {
    pub headers: Vec<String>,
    /// Max display width per column (min 4), updated as rows are read: those that
    /// are read when the table is opened, and each row that `refine_widths` is
    /// given. To ask for rows, or to supply them, leaves the widths as they are.
    pub column_widths: Vec<usize>,
    pub backend: RowBackend,
}

/// Something to be read from the file of a table.
#[derive(Clone, Copy, Debug, PartialEq, Eq, Structural)]
pub enum Fetch {
    /// Bytes of a delimited file.
    Bytes(ByteWindow),
    /// Rows of a columnar file.
    Rows(GroupWindow),
}

/// What came of reading it.
#[derive(Debug)]
pub enum Reply {
    Bytes(Vec<u8>),
    Rows(Vec<Vec<ArrowValue>>),
    Failed,
}

/// What is to be read for windows of a columnar file.
pub open spec fn row_fetches(windows: Seq<GroupWindow>) -> Seq<Fetch> {
    windows.map_values(|w: GroupWindow| Fetch::Rows(w))
}

/// `reply` holds what `fetch` asks for, of a file with these bytes and rows.
pub open spec fn answered(
    fetch: Fetch,
    reply: Reply,
    bytes: Seq<u8>,
    content: Seq<Seq<Seq<char>>>,
) -> bool {
    match (fetch, reply) {
        (Fetch::Bytes(w), Reply::Bytes(read)) => read@ == bytes.subrange(
            w.start as int,
            w.end as int,
        ),
        (Fetch::Rows(w), Reply::Rows(rows)) => parquet_backend::value_rows(rows@)
            == content.subrange(w.start as int, w.start + w.count),
        _ => false,
    }
}

impl RowBackend {
    /// The index of the rows is complete.
    pub open spec fn wf(self) -> bool {
        match self {
            RowBackend::InMemory(_) => true,
            RowBackend::Csv(b) => b.wf(),
            RowBackend::Parquet(b) => b.wf(),
        }
    }

    /// Number of rows.
    pub open spec fn row_count(self) -> int {
        match self {
            RowBackend::InMemory(rows) => rows@.len() as int,
            RowBackend::Csv(b) => b.total_rows as int,
            RowBackend::Parquet(b) => b.total_rows as int,
        }
    }

    /// What is given for row `idx`, as far as it is in memory.
    pub open spec fn row_at(self, idx: int) -> Seq<Seq<char>> {
        match self {
            RowBackend::InMemory(rows) => text::texts(rows@[idx]@),
            RowBackend::Csv(b) => b.row_at(idx),
            RowBackend::Parquet(b) => b.row_at(idx),
        }
    }

    /// Row `idx` is held in memory.
    pub open spec fn holds(self, idx: int) -> bool {
        match self {
            RowBackend::InMemory(rows) => 0 <= idx < rows@.len(),
            RowBackend::Csv(b) => b.holds(idx),
            RowBackend::Parquet(b) => b.holds(idx),
        }
    }

    /// The rows are those of `content`, and every row that is held in memory is
    /// the one with its number. A delimited file has these bytes, and its rows
    /// are those of its records.
    pub open spec fn presents_file(self, bytes: Seq<u8>, content: Seq<Seq<Seq<char>>>) -> bool {
        match self {
            RowBackend::InMemory(rows) => text::grid(rows@) == content,
            RowBackend::Csv(b) => b.faithful(bytes) && content == csv_backend::rows_of(
                bytes,
                b.delimiter,
            ),
            RowBackend::Parquet(b) => b.holds_rows_of(content) && content.len() == b.total_rows,
        }
    }

    /// Every row can be given without reading from the file.
    pub open spec fn in_memory(self) -> bool {
        match self {
            RowBackend::InMemory(_) => true,
            RowBackend::Csv(b) => b.source is Memory,
            RowBackend::Parquet(_) => false,
        }
    }

    /// Row `idx` can be given without reading from the file.
    pub open spec fn ready(self, idx: int) -> bool {
        self.in_memory() || self.holds(idx)
    }

    /// What is given for row `idx` when it is asked for. A row of a delimited file
    /// that is neither held nor can be loaded from memory is empty.
    pub open spec fn given(self, idx: int) -> Seq<Seq<char>> {
        match self {
            RowBackend::Csv(b) => {
                let (start, rows) = b.held_after(b.row_window(idx));
                if start <= idx < start + rows.len() {
                    rows[idx - start]
                } else {
                    Seq::empty()
                }
            },
            _ => self.row_at(idx),
        }
    }

    /// `next` is this backend once row `idx` was asked for.
    pub open spec fn asked_row(self, idx: int, next: RowBackend) -> bool {
        match (self, next) {
            (RowBackend::Csv(a), RowBackend::Csv(b)) => {
                &&& b.same_index(a)
                &&& b.held() == a.held_after(a.row_window(idx))
            },
            _ => next == self,
        }
    }

    /// `next` is this backend once `count` rows from `start` on were to be made
    /// ready.
    pub open spec fn asked_range(self, start: int, count: int, next: RowBackend) -> bool {
        match (self, next) {
            (RowBackend::Csv(a), RowBackend::Csv(b)) => {
                &&& b.same_index(a)
                &&& b.held() == a.held_after(a.range_window(start, count))
            },
            _ => next == self,
        }
    }

    /// `wanted` is what is to be read before row `idx` is asked for.
    pub open spec fn wants_row(self, idx: int, wanted: Option<Fetch>) -> bool {
        match self {
            RowBackend::InMemory(_) => wanted is None,
            RowBackend::Csv(b) => wanted == (match b.wanted(b.row_window(idx)) {
                Some(w) => Some(Fetch::Bytes(w)),
                None => None,
            }),
            RowBackend::Parquet(b) => match wanted {
                Some(Fetch::Rows(w)) => b.wants_row(idx, Some(w)),
                Some(_) => false,
                None => b.wants_row(idx, None),
            },
        }
    }

    /// `wanted` is what is to be read before `count` rows from `start` on are
    /// asked for.
    pub open spec fn wants_range(self, start: int, count: int, wanted: Seq<Fetch>) -> bool {
        match self {
            RowBackend::InMemory(_) => wanted.len() == 0,
            RowBackend::Csv(b) => wanted == (match b.wanted(b.range_window(start, count)) {
                Some(w) => seq![Fetch::Bytes(w)],
                None => Seq::empty(),
            }),
            RowBackend::Parquet(b) => exists|windows: Seq<GroupWindow>| #[trigger]
                b.wants_range(start, count, windows) && wanted == row_fetches(windows),
        }
    }

    /// What is to be read are rows of the file.
    pub open spec fn names_rows(self, fetch: Fetch) -> bool {
        match (self, fetch) {
            (RowBackend::Csv(b), Fetch::Bytes(w)) => exists|rows: (int, int)|
                0 <= rows.0 < rows.1 <= b.total_rows && w == #[trigger] b.bytes_of(rows),
            (RowBackend::Parquet(b), Fetch::Rows(w)) => parquet_backend::in_group(
                b.row_group_bounds@,
                w,
            ),
            _ => false,
        }
    }

    /// `next` is this backend once it got `reply` for `fetch`. What is of no
    /// use to it changes nothing.
    pub open spec fn supplied(self, fetch: Fetch, reply: Reply, next: RowBackend) -> bool {
        match (self, fetch, next) {
            (RowBackend::Csv(a), Fetch::Bytes(w), RowBackend::Csv(b)) => {
                &&& b.same_index(a)
                &&& b.held() == (match reply {
                    Reply::Bytes(bytes) if bytes@.len() == w.end - w.start => (
                        w.row as int,
                        records::window_rows(bytes@, a.delimiter),
                    ),
                    _ => (w.row as int, Seq::empty()),
                })
            },
            (RowBackend::Parquet(a), Fetch::Rows(w), RowBackend::Parquet(b)) => {
                &&& b.same_groups(a)
                &&& match (reply, w.row) {
                    (Reply::Rows(rows), _) => {
                        &&& b.held() == a.held_with(w, parquet_backend::value_rows(rows@))
                        &&& b.cached_group_idx == (if w.follows && a.cache_start + a.cache@.len()
                            == w.start {
                            a.cached_group_idx
                        } else {
                            Some(w.group)
                        })
                    },
                    (_, Some(row)) => {
                        &&& b.held() == (row as int, seq![Seq::<Seq<char>>::empty()])
                        &&& b.cached_group_idx == Some(w.group)
                    },
                    _ => next == self,
                }
            },
            _ => next == self,
        }
    }
}

impl DataTable {
    /// The index of the rows is complete.
    pub open spec fn wf(self) -> bool {
        self.backend.wf()
    }

    /// All but the rows that are held is as in `other`.
    pub open spec fn same_table(self, other: DataTable) -> bool {
        &&& self.headers == other.headers
        &&& self.column_widths == other.column_widths
        &&& self.backend.row_count() == other.backend.row_count()
    }

    /// A table in memory with these headers and rows.
    pub open spec fn holds_table(
        self,
        headers: Seq<Seq<char>>,
        rows: Seq<Seq<Seq<char>>>,
    ) -> bool {
        &&& text::texts(self.headers@) == headers
        &&& self.column_widths@ == width::table_widths(headers, rows)
        &&& self.backend matches RowBackend::InMemory(held) && text::grid(held@) == rows
    }

    /// Build an in-memory table (used by the workbook loader and tests).
    pub fn new(headers: Vec<String>, rows: Vec<Vec<String>>) -> (table: Self)
        ensures
            table.wf(),
            table.headers == headers,
            table.backend == RowBackend::InMemory(rows),
            table.holds_table(text::texts(headers@), text::grid(rows@)),
    {
        let column_widths = Self::compute_widths(headers.as_slice(), &rows);
        Self { headers, column_widths, backend: RowBackend::InMemory(rows) }
    }

    pub fn total_rows(&self) -> (n: usize)
        ensures
            n == self.backend.row_count(),
    {
        match &self.backend {
            RowBackend::InMemory(rows) => rows.len(),
            RowBackend::Csv(b) => b.total_rows,
            RowBackend::Parquet(b) => b.total_rows,
        }
    }

    pub fn total_cols(&self) -> (n: usize)
        ensures
            n == self.headers@.len(),
    {
        self.headers.len()
    }

    /// What is to be read from the file before row `idx` is asked for.
    pub fn row_fetch(&self, idx: usize) -> (wanted: Option<Fetch>)
        requires
            self.wf(),
            idx < self.backend.row_count(),
        ensures
            self.backend.wants_row(idx as int, wanted),
    {
        match &self.backend {
            RowBackend::InMemory(_) => None,
            RowBackend::Csv(b) => match b.row_fetch(idx) {
                Some(window) => Some(Fetch::Bytes(window)),
                None => None,
            },
            RowBackend::Parquet(b) => match b.row_fetch(idx) {
                Some(window) => Some(Fetch::Rows(window)),
                None => None,
            },
        }
    }

    /// Get a single row by index. What has to be read from the file for it,
    /// `row_fetch` tells; call `prefetch_range` before rendering to make the
    /// rows of the visible viewport ready at once.
    pub fn get_row(&mut self, idx: usize) -> (row: &[String])
        requires
            old(self).wf(),
            idx < old(self).backend.row_count(),
        ensures
            final(self).wf(),
            final(self).headers == old(self).headers,
            final(self).column_widths == old(self).column_widths,
            old(self).backend.asked_row(idx as int, final(self).backend),
            text::texts(row@) == final(self).backend.row_at(idx as int),
            text::texts(row@) == old(self).backend.given(idx as int),
    {
        match &mut self.backend {
            RowBackend::InMemory(rows) => rows[idx].as_slice(),
            RowBackend::Csv(b) => b.get_row(idx),
            RowBackend::Parquet(b) => b.get_row(idx),
        }
    }

    /// Ensure rows `[start, start + count)` are in memory: tells what is to be
    /// read from the file for them.
    pub fn prefetch_range(&mut self, start: usize, count: usize) -> (wanted: Vec<Fetch>)
        requires
            old(self).wf(),
        ensures
            final(self).wf(),
            final(self).headers == old(self).headers,
            final(self).column_widths == old(self).column_widths,
            old(self).backend.asked_range(start as int, count as int, final(self).backend),
            old(self).backend.wants_range(start as int, count as int, wanted@),
    {
        let mut wanted: Vec<Fetch> = Vec::new();
        match &mut self.backend {
            RowBackend::InMemory(_) => {},
            RowBackend::Csv(b) => {
                if let Some(window) = b.prefetch_range(start, count) {
                    wanted.push(Fetch::Bytes(window));
                }
            },
            RowBackend::Parquet(b) => {
                let windows = b.prefetch_range(start, count);
                let mut k: usize = 0;
                while k < windows.len()
                    invariant
                        k <= windows@.len(),
                        wanted@ == row_fetches(windows@.take(k as int)),
                    decreases windows@.len() - k,
                {
                    wanted.push(Fetch::Rows(windows[k]));
                    k = k + 1;
                    assert(windows@.take(k as int) =~= windows@.take(k - 1).push(windows@[k - 1]));
                    assert(wanted@ =~= row_fetches(windows@.take(k as int)));
                }
                assert(windows@.take(k as int) =~= windows@);
            },
        }
        wanted
    }

    /// Takes what was read from the file.
    pub fn supply(&mut self, fetch: Fetch, reply: Reply)
        requires
            old(self).wf(),
        ensures
            final(self).wf(),
            final(self).headers == old(self).headers,
            final(self).column_widths == old(self).column_widths,
            old(self).backend.supplied(fetch, reply, final(self).backend),
    {
        match (&mut self.backend, fetch) {
            (RowBackend::Csv(b), Fetch::Bytes(window)) => {
                match &reply {
                    Reply::Bytes(bytes) => b.supply(window, Some(bytes.as_slice())),
                    _ => b.supply(window, None),
                }
            },
            (RowBackend::Parquet(b), Fetch::Rows(window)) => {
                match &reply {
                    Reply::Rows(rows) => b.supply(window, Some(rows)),
                    _ => b.supply(window, None),
                }
            },
            _ => {},
        }
    }

    /// Update column widths from a single row (opportunistic refinement for
    /// lazy backends whose initial widths were sample-based).
    pub fn refine_widths(&mut self, row: &[String])
        ensures
            final(self).headers == old(self).headers,
            final(self).backend == old(self).backend,
            final(self).column_widths@ == width::widened_all(
                old(self).column_widths@,
                seq![text::texts(row@)],
            ),
    {
        widen(&mut self.column_widths, row);
    }

    /// Full-scan width computation (used for in-memory tables).
    fn compute_widths(headers: &[String], rows: &Vec<Vec<String>>) -> (widths: Vec<usize>)
        ensures
            widths@ == width::table_widths(text::texts(headers@), text::grid(rows@)),
    {
        widths_of_table(headers, rows)
    }
}

// ---------------------------------------------------------------------------
// The rows that are given are the rows of the file
// ---------------------------------------------------------------------------

/// Every row that is held is the row of the file with its number.
pub proof fn lemma_held_rows(b: RowBackend, bytes: Seq<u8>, content: Seq<Seq<Seq<char>>>)
    requires
        b.presents_file(bytes, content),
    ensures
        b.row_count() == content.len(),
        forall|i: int| b.holds(i) ==> 0 <= i < content.len() && #[trigger] b.row_at(i) == content[i],
{
    if let RowBackend::InMemory(rows) = b {
        assert(text::grid(rows@).len() == rows@.len());
        assert forall|i: int| b.holds(i) implies #[trigger] b.row_at(i) == content[i] by {
            assert(text::grid(rows@)[i] == text::texts(rows@[i]@));
        }
    }
}

/// What is given for a row is what is held of it once it was asked for.
proof fn lemma_given_row(before: RowBackend, after: RowBackend, idx: int)
    requires
        before.asked_row(idx, after),
    ensures
        after.row_at(idx) == before.given(idx),
        after.row_count() == before.row_count(),
        before.wf() ==> after.wf(),
{
    if let (RowBackend::Csv(a), RowBackend::Csv(b)) = (before, after) {
        assert(text::grid(a.cache@).len() == a.cache@.len());
        assert(text::grid(b.cache@).len() == b.cache@.len());
    }
}

/// A row that is asked for and can be given is the row with its number, and the
/// rows that are held stay the rows of the file.
pub proof fn lemma_row_is_given(
    before: RowBackend,
    after: RowBackend,
    bytes: Seq<u8>,
    content: Seq<Seq<Seq<char>>>,
    idx: int,
)
    requires
        before.presents_file(bytes, content),
        before.asked_row(idx, after),
        0 <= idx < before.row_count(),
    ensures
        after.presents_file(bytes, content),
        before.row_count() == after.row_count() == content.len(),
        before.ready(idx) ==> before.given(idx) == content[idx],
{
    lemma_held_rows(before, bytes, content);
    lemma_given_row(before, after, idx);
    match (before, after) {
        (RowBackend::InMemory(rows), _) => {
            assert(before.holds(idx));
        },
        (RowBackend::Csv(a), RowBackend::Csv(b)) => {
            csv_backend::lemma_windows_cover(a, idx, idx, 1);
            csv_backend::lemma_load_keeps_rows(a, b, bytes, a.row_window(idx));
            if before.ready(idx) {
                assert(b.holds(idx));
                assert(b.row_at(idx) == content[idx]);
            }
        },
        _ => {},
    }
}

/// Making rows ready keeps what is held rows of the file. A row of the range that
/// could be given before can be given then, and from memory all rows of the range
/// are then held.
pub proof fn lemma_prefetch_keeps_rows(
    before: RowBackend,
    after: RowBackend,
    bytes: Seq<u8>,
    content: Seq<Seq<Seq<char>>>,
    start: int,
    count: int,
)
    requires
        before.presents_file(bytes, content),
        before.asked_range(start, count, after),
        0 <= start,
        0 <= count,
    ensures
        after.presents_file(bytes, content),
        after.row_count() == before.row_count(),
        forall|i: int|
            start <= i < start + count && i < content.len() && before.ready(i)
                ==> #[trigger] after.ready(i),
        after matches RowBackend::Csv(b) ==> (b.source is Memory ==> forall|i: int|
            start <= i < start + count && i < content.len() ==> #[trigger] b.holds(i)),
{
    match (before, after) {
        (RowBackend::Csv(a), RowBackend::Csv(b)) => {
            if 0 < count && start < a.total_rows {
                csv_backend::lemma_windows_cover(a, start, start, count);
            }
            csv_backend::lemma_load_keeps_rows(a, b, bytes, a.range_window(start, count));
            assert forall|i: int|
                start <= i < start + count && i < content.len() && before.ready(i)
                    implies #[trigger] after.ready(i) by {
                if a.source is File {
                    assert(b.holds(i));
                }
            }
        },
        _ => {},
    }
}

/// Nothing is to be read for a row just where it can be given, and what is to be
/// read are rows of the file.
pub proof fn lemma_wanted_for_row(b: RowBackend, idx: int, wanted: Option<Fetch>)
    requires
        b.wf(),
        0 <= idx < b.row_count(),
        b.wants_row(idx, wanted),
    ensures
        wanted is None <==> b.ready(idx),
        wanted matches Some(fetch) ==> b.names_rows(fetch),
{
    match b {
        RowBackend::Csv(c) => {
            csv_backend::lemma_windows_cover(c, idx, idx, 1);
            if wanted is Some {
                let rows = c.row_window(idx)->0;
                assert(wanted == Some(Fetch::Bytes(c.bytes_of(rows))));
            }
        },
        RowBackend::Parquet(p) => {
            if let Some(Fetch::Rows(w)) = wanted {
                parquet_backend::lemma_row_window_covers(p, idx, w);
            }
        },
        _ => {},
    }
}

/// What is to be read for a range of rows are rows of the file.
pub proof fn lemma_wanted_for_range(b: RowBackend, start: int, count: int, wanted: Seq<Fetch>)
    requires
        b.wf(),
        0 <= start,
        0 <= count,
        b.wants_range(start, count, wanted),
    ensures
        forall|k: int| 0 <= k < wanted.len() ==> b.names_rows(#[trigger] wanted[k]),
{
    match b {
        RowBackend::Csv(c) => {
            if wanted.len() > 0 {
                let rows = c.range_window(start, count)->0;
                assert(wanted[0] == Fetch::Bytes(c.bytes_of(rows)));
            }
        },
        RowBackend::Parquet(p) => {
            let windows = choose|windows: Seq<GroupWindow>| #[trigger]
                p.wants_range(start, count, windows) && wanted == row_fetches(windows);
            if wanted.len() > 0 {
                parquet_backend::lemma_range_windows_cover(p, start, count, windows);
                assert forall|k: int| 0 <= k < wanted.len() implies b.names_rows(
                    #[trigger] wanted[k],
                ) by {
                    assert(wanted[k] == Fetch::Rows(windows[k]));
                }
            }
        },
        _ => {},
    }
}

/// Once rows of the file were read, what is held are the rows of the file.
pub proof fn lemma_supply_keeps_rows(
    before: RowBackend,
    after: RowBackend,
    bytes: Seq<u8>,
    content: Seq<Seq<Seq<char>>>,
    fetch: Fetch,
    reply: Reply,
)
    requires
        before.wf(),
        before.presents_file(bytes, content),
        before.names_rows(fetch),
        answered(fetch, reply, bytes, content),
        before.supplied(fetch, reply, after),
    ensures
        after.wf(),
        after.presents_file(bytes, content),
        after.row_count() == before.row_count(),
        (fetch matches Fetch::Rows(w) ==> forall|i: int|
            w.start <= i < w.start + w.count ==> #[trigger] after.holds(i)),
        (before matches RowBackend::Csv(b) ==> forall|rows: (int, int), i: int|
            0 <= rows.0 <= i < rows.1 <= b.total_rows && fetch == Fetch::Bytes(
                #[trigger] b.bytes_of(rows),
            ) ==> #[trigger] after.holds(i)),
{
    match (before, fetch, after) {
        (RowBackend::Csv(a), Fetch::Bytes(w), RowBackend::Csv(b)) => {
            let found = records::records_of(bytes, a.delimiter);
            let read = reply->Bytes_0@;
            assert forall|rows: (int, int)|
                0 <= rows.0 < rows.1 <= a.total_rows && w == #[trigger] a.bytes_of(rows)
                    implies b.faithful(bytes) && forall|i: int|
                rows.0 <= i < rows.1 ==> #[trigger] b.holds(i) by {
                assert(a.row_offsets@[rows.0] == found[rows.0].end);
                assert(a.row_offsets@[rows.1] == found[rows.1].end);
                csv_backend::lemma_loaded_rows(a, b, bytes, rows);
            }
        },
        (RowBackend::Parquet(a), Fetch::Rows(w), RowBackend::Parquet(b)) => {
            parquet_backend::lemma_group_within(
                a.row_group_bounds@,
                a.total_rows as int,
                w.group as int,
            );
            parquet_backend::lemma_supplied_rows(a, b, content, w);
        },
        _ => {},
    }
}

/// Once what is wanted for a row was read, the row is held, and what is held are
/// the rows of the file.
pub proof fn lemma_row_is_held_once_read(
    before: RowBackend,
    after: RowBackend,
    bytes: Seq<u8>,
    content: Seq<Seq<Seq<char>>>,
    idx: int,
    fetch: Fetch,
    reply: Reply,
)
    requires
        before.wf(),
        before.presents_file(bytes, content),
        0 <= idx < before.row_count(),
        before.wants_row(idx, Some(fetch)),
        answered(fetch, reply, bytes, content),
        before.supplied(fetch, reply, after),
    ensures
        after.wf(),
        after.presents_file(bytes, content),
        after.holds(idx),
        after.ready(idx),
{
    lemma_wanted_for_row(before, idx, Some(fetch));
    lemma_supply_keeps_rows(before, after, bytes, content, fetch, reply);
    match before {
        RowBackend::Csv(c) => {
            csv_backend::lemma_windows_cover(c, idx, idx, 1);
            let rows = c.row_window(idx)->0;
            assert(fetch == Fetch::Bytes(c.bytes_of(rows)));
        },
        RowBackend::Parquet(p) => {
            if let Fetch::Rows(w) = fetch {
                parquet_backend::lemma_row_window_covers(p, idx, w);
            }
        },
        _ => {},
    }
}

/// `states` are what a backend comes to be as it gets the replies to what was
/// wanted, one after the other.
pub open spec fn backend_supplied_all(
    states: Seq<RowBackend>,
    wanted: Seq<Fetch>,
    replies: Seq<Reply>,
) -> bool {
    &&& states.len() == wanted.len() + 1
    &&& replies.len() == wanted.len()
    &&& forall|k: int|
        0 <= k < wanted.len() ==> states[k].supplied(#[trigger] wanted[k], replies[k], states[k + 1])
}

/// `tables` are what a table comes to be as it gets the replies to what was wanted,
/// one after the other.
pub open spec fn supplied_all(
    tables: Seq<DataTable>,
    wanted: Seq<Fetch>,
    replies: Seq<Reply>,
) -> bool {
    &&& tables.len() == wanted.len() + 1
    &&& replies.len() == wanted.len()
    &&& forall|k: int|
        0 <= k < wanted.len() ==> {
            &&& tables[k + 1].headers == tables[k].headers
            &&& tables[k + 1].column_widths == tables[k].column_widths
            &&& tables[k].backend.supplied(#[trigger] wanted[k], replies[k], tables[k + 1].backend)
        }
}

/// Every reply holds what was wanted.
pub open spec fn all_answered(
    wanted: Seq<Fetch>,
    replies: Seq<Reply>,
    bytes: Seq<u8>,
    content: Seq<Seq<Seq<char>>>,
) -> bool {
    forall|k: int|
        0 <= k < wanted.len() ==> answered(#[trigger] wanted[k], replies[k], bytes, content)
}

/// Once rows `start..start + count` of a table were to be made ready, and all that
/// was wanted for them was read and supplied, each of them that the file has is held,
/// and what is given for it is the row of the file with its number. The headers, the
/// column widths and the number of rows stay.
pub proof fn lemma_prefetched_rows_are_held(
    before: DataTable,
    tables: Seq<DataTable>,
    bytes: Seq<u8>,
    content: Seq<Seq<Seq<char>>>,
    start: int,
    count: int,
    wanted: Seq<Fetch>,
    replies: Seq<Reply>,
)
    requires
        before.wf(),
        before.backend.presents_file(bytes, content),
        0 <= start,
        0 <= count,
        before.backend.wants_range(start, count, wanted),
        tables.len() > 0,
        tables[0].headers == before.headers,
        tables[0].column_widths == before.column_widths,
        before.backend.asked_range(start, count, tables[0].backend),
        supplied_all(tables, wanted, replies),
        all_answered(wanted, replies, bytes, content),
    ensures
        tables.last().same_table(before),
        tables.last().backend.presents_file(bytes, content),
        forall|i: int|
            start <= i < start + count && i < content.len() ==> #[trigger]
                tables.last().backend.holds(i),
        forall|i: int|
            start <= i < start + count && i < content.len() ==> #[trigger]
                tables.last().backend.given(i) == content[i],
{
    let states = tables.map_values(|t: DataTable| t.backend);
    assert(backend_supplied_all(states, wanted, replies));
    lemma_backend_holds_range(
        before.backend,
        states,
        bytes,
        content,
        start,
        count,
        wanted,
        replies,
    );
    lemma_supply_keeps_headers(tables, wanted, replies, wanted.len() as int);
    let last = tables.last().backend;
    assert(last == states.last());
    lemma_held_rows(before.backend, bytes, content);
    lemma_held_rows(last, bytes, content);
    assert forall|i: int| start <= i < start + count && i < content.len()
        implies #[trigger] last.holds(i) by {
        assert(states.last().row_at(i) == content[i]);
    }
    assert forall|i: int| start <= i < start + count && i < content.len()
        implies #[trigger] last.given(i) == content[i] by {
        assert(last.holds(i));
        lemma_ready_row(last, bytes, content, i);
    }
}

proof fn lemma_supply_keeps_headers(
    tables: Seq<DataTable>,
    wanted: Seq<Fetch>,
    replies: Seq<Reply>,
    n: int,
)
    requires
        0 <= n <= wanted.len(),
        supplied_all(tables, wanted, replies),
    ensures
        tables[n].headers == tables[0].headers,
        tables[n].column_widths == tables[0].column_widths,
    decreases n,
{
    if n > 0 {
        lemma_supply_keeps_headers(tables, wanted, replies, n - 1);
        assert(tables[n - 1].backend.supplied(wanted[n - 1], replies[n - 1], tables[n].backend));
    }
}

/// The rows of a range are held by a backend once all that was wanted for them was
/// supplied.
proof fn lemma_backend_holds_range(
    before: RowBackend,
    states: Seq<RowBackend>,
    bytes: Seq<u8>,
    content: Seq<Seq<Seq<char>>>,
    start: int,
    count: int,
    wanted: Seq<Fetch>,
    replies: Seq<Reply>,
)
    requires
        before.wf(),
        before.presents_file(bytes, content),
        0 <= start,
        0 <= count,
        before.wants_range(start, count, wanted),
        backend_supplied_all(states, wanted, replies),
        before.asked_range(start, count, states[0]),
        all_answered(wanted, replies, bytes, content),
    ensures
        states.last().presents_file(bytes, content),
        forall|i: int|
            start <= i < start + count && i < content.len() ==> states.last().holds(i)
                && #[trigger] states.last().row_at(i) == content[i],
{
    let first = states[0];
    let last = states.last();
    lemma_prefetch_keeps_rows(before, first, bytes, content, start, count);
    lemma_held_rows(before, bytes, content);
    match (before, first) {
        (RowBackend::Csv(a), RowBackend::Csv(b)) => {
            if 0 < count && start < a.total_rows {
                csv_backend::lemma_windows_cover(a, start, start, count);
            }
            if wanted.len() > 0 {
                let rows = a.range_window(start, count)->0;
                assert(wanted[0] == Fetch::Bytes(a.bytes_of(rows)));
                assert(b.bytes_of(rows) == a.bytes_of(rows));
                lemma_supply_keeps_rows(first, states[1], bytes, content, wanted[0], replies[0]);
                assert forall|i: int| start <= i < start + count && i < content.len()
                    implies #[trigger] last.holds(i) by {
                    assert(rows.0 <= i < rows.1);
                    assert(wanted[0] == Fetch::Bytes(b.bytes_of(rows)));
                }
            } else {
                assert forall|i: int| start <= i < start + count && i < content.len()
                    implies #[trigger] last.holds(i) by {
                    if a.source is File {
                        assert(a.holds(i));
                        assert(before.ready(i));
                        assert(first.ready(i));
                    } else {
                        assert(b.holds(i));
                    }
                }
            }
        },
        (RowBackend::Parquet(p), _) => {
            let windows = choose|windows: Seq<GroupWindow>| #[trigger]
                p.wants_range(start, count, windows) && wanted == row_fetches(windows);
            if wanted.len() > 0 {
                let end = numbers::smaller(start + count, p.total_rows as int);
                parquet_backend::lemma_range_windows_cover(p, start, count, windows);
                lemma_windows_supplied(
                    states,
                    bytes,
                    content,
                    windows,
                    replies,
                    start,
                    end,
                    windows.len() as int,
                );
            }
        },
        _ => {},
    }
    lemma_held_rows(last, bytes, content);
}

/// As the windows that cover a range of rows of a columnar file are supplied, all
/// their rows stay held.
proof fn lemma_windows_supplied(
    states: Seq<RowBackend>,
    bytes: Seq<u8>,
    content: Seq<Seq<Seq<char>>>,
    windows: Seq<GroupWindow>,
    replies: Seq<Reply>,
    start: int,
    end: int,
    n: int,
)
    requires
        0 < n <= windows.len(),
        backend_supplied_all(states, row_fetches(windows), replies),
        all_answered(row_fetches(windows), replies, bytes, content),
        states[0].wf(),
        states[0].presents_file(bytes, content),
        states[0] matches RowBackend::Parquet(p) && parquet_backend::cover(
            p.row_group_bounds@,
            windows,
            start,
            end,
        ),
    ensures
        states[n].wf(),
        states[n].presents_file(bytes, content),
        states[n] matches RowBackend::Parquet(p) && {
            &&& p.same_groups(states[0]->Parquet_0)
            &&& p.cache_start == windows[0].start
            &&& p.cache_start + p.cache@.len() == windows[n - 1].start + windows[n - 1].count
        },
    decreases n,
{
    let k = n - 1;
    let wanted = row_fetches(windows);
    let base = states[0]->Parquet_0;
    if k > 0 {
        lemma_windows_supplied(states, bytes, content, windows, replies, start, end, k);
    }
    assert(wanted[k] == Fetch::Rows(windows[k]));
    assert(states[k].supplied(wanted[k], replies[k], states[n]));
    assert(answered(wanted[k], replies[k], bytes, content));
    lemma_supply_keeps_rows(states[k], states[n], bytes, content, wanted[k], replies[k]);
    let a = states[k]->Parquet_0;
    let b = states[n]->Parquet_0;
    parquet_backend::lemma_group_within(
        base.row_group_bounds@,
        base.total_rows as int,
        windows[k].group as int,
    );
    parquet_backend::lemma_supplied_rows(a, b, content, windows[k]);
}

/// What happens to a table as it is used: a row is asked for, rows are to be made
/// ready, or what was read from its file is supplied.
pub open spec fn used(
    before: DataTable,
    after: DataTable,
    bytes: Seq<u8>,
    content: Seq<Seq<Seq<char>>>,
) -> bool {
    &&& after.headers == before.headers
    &&& after.column_widths == before.column_widths
    &&& {
        ||| exists|idx: int|
            0 <= idx < before.backend.row_count() && #[trigger] before.backend.asked_row(
                idx,
                after.backend,
            )
        ||| exists|start: int, count: int|
            0 <= start && 0 <= count && #[trigger] before.backend.asked_range(
                start,
                count,
                after.backend,
            )
        ||| exists|fetch: Fetch, reply: Reply|
            before.backend.names_rows(fetch) && answered(fetch, reply, bytes, content)
                && #[trigger] before.backend.supplied(fetch, reply, after.backend)
    }
}

/// However a table was used before, its headers, column widths and number of rows
/// stay, and a row that is then asked for and can be given is the row of the file
/// with its number.
pub proof fn lemma_rows_stay(
    tables: Seq<DataTable>,
    bytes: Seq<u8>,
    content: Seq<Seq<Seq<char>>>,
)
    requires
        tables.len() > 0,
        tables[0].wf(),
        tables[0].backend.presents_file(bytes, content),
        forall|k: int|
            0 < k < tables.len() ==> used(tables[k - 1], #[trigger] tables[k], bytes, content),
    ensures
        tables.last().wf(),
        tables.last().same_table(tables[0]),
        tables.last().backend.in_memory() == tables[0].backend.in_memory(),
        tables.last().backend.presents_file(bytes, content),
        forall|idx: int|
            0 <= idx < content.len() && tables.last().backend.ready(idx)
                ==> #[trigger] tables.last().backend.given(idx) == content[idx],
    decreases tables.len(),
{
    let last = tables.last();
    if tables.len() > 1 {
        let n = tables.len() - 1;
        let earlier = tables.take(n);
        assert forall|k: int| 0 < k < earlier.len() implies used(
            earlier[k - 1],
            #[trigger] earlier[k],
            bytes,
            content,
        ) by {
            assert(used(tables[k - 1], tables[k], bytes, content));
        }
        lemma_rows_stay(earlier, bytes, content);
        let before = tables[n - 1];
        assert(earlier.last() == before);
        assert(used(tables[n - 1], tables[n], bytes, content));
        lemma_use_keeps_rows(before, last, bytes, content);
    }
    assert forall|idx: int| 0 <= idx < content.len() && last.backend.ready(idx)
        implies #[trigger] last.backend.given(idx) == content[idx] by {
        lemma_ready_row(last.backend, bytes, content, idx);
    }
}

/// A row that can be given is the row of the file with its number.
proof fn lemma_ready_row(
    b: RowBackend,
    bytes: Seq<u8>,
    content: Seq<Seq<Seq<char>>>,
    idx: int,
)
    requires
        b.presents_file(bytes, content),
        0 <= idx < content.len(),
        b.ready(idx),
    ensures
        b.given(idx) == content[idx],
{
    lemma_held_rows(b, bytes, content);
    match b {
        RowBackend::Csv(a) => {
            assert(text::grid(a.cache@).len() == a.cache@.len());
            csv_backend::lemma_windows_cover(a, idx, idx, 1);
            if let Some(rows) = a.row_window(idx) {
                csv_backend::lemma_window_rows(a, bytes, rows);
            } else {
                assert(b.holds(idx) && b.row_at(idx) == content[idx]);
            }
        },
        _ => {
            assert(b.holds(idx) && b.row_at(idx) == content[idx]);
        },
    }
}

proof fn lemma_use_keeps_rows(
    before: DataTable,
    after: DataTable,
    bytes: Seq<u8>,
    content: Seq<Seq<Seq<char>>>,
)
    requires
        before.wf(),
        before.backend.presents_file(bytes, content),
        used(before, after, bytes, content),
    ensures
        after.wf(),
        after.same_table(before),
        after.backend.in_memory() == before.backend.in_memory(),
        after.backend.presents_file(bytes, content),
{
    let a = before.backend;
    let b = after.backend;
    if exists|idx: int| 0 <= idx < a.row_count() && #[trigger] a.asked_row(idx, b) {
        let idx = choose|idx: int| 0 <= idx < a.row_count() && #[trigger] a.asked_row(idx, b);
        lemma_row_is_given(a, b, bytes, content, idx);
    } else if exists|start: int, count: int|
        0 <= start && 0 <= count && #[trigger] a.asked_range(start, count, b) {
        let (start, count) = choose|start: int, count: int|
            0 <= start && 0 <= count && #[trigger] a.asked_range(start, count, b);
        lemma_prefetch_keeps_rows(a, b, bytes, content, start, count);
    } else {
        let (fetch, reply) = choose|fetch: Fetch, reply: Reply|
            a.names_rows(fetch) && answered(fetch, reply, bytes, content)
                && #[trigger] a.supplied(fetch, reply, b);
        lemma_supply_keeps_rows(a, b, bytes, content, fetch, reply);
    }
}

// ---------------------------------------------------------------------------
// Getting several rows
// ---------------------------------------------------------------------------

/// Gets rows one after the other, with what has to be read for them.
#[derive(Debug)]
pub struct RowReader {
    /// The next row to get.
    pub next: usize,
    /// The row behind the last one to get.
    pub end: usize,
    /// The next row was asked for already.
    pub asked: bool,
    pub rows: Vec<Vec<String>>,
}

/// A copy of a row.
fn copied(row: &[String]) -> (copy: Vec<String>)
    ensures
        text::texts(copy@) == text::texts(row@),
{
    let mut copy: Vec<String> = Vec::new();
    let mut i: usize = 0;
    while i < row.len()
        invariant
            i <= row@.len(),
            text::texts(copy@) == text::texts(row@).take(i as int),
        decreases row@.len() - i,
    {
        let ghost before = copy@;
        let cell = row[i].clone();
        copy.push(cell);
        i = i + 1;
        proof {
            assert(text::texts(copy@) =~= text::texts(before).push(cell@));
            assert(text::texts(row@).take(i as int) =~= text::texts(row@).take(i - 1).push(cell@));
        }
    }
    copy
}

/// Row `before.next + k`, which a reader took on its way from `before` to `after`, is
/// what the backend gave for it then. It could be given, but for a first row that was
/// asked for before: where its reading failed, it is taken as it is.
pub open spec fn took(
    before: RowReader,
    after: RowReader,
    states: Seq<RowBackend>,
    k: int,
) -> bool {
    &&& states[k].asked_row(before.next + k, states[k + 1])
    &&& text::texts(after.rows@[before.rows@.len() + k]@) == states[k].given(before.next + k)
    &&& k > 0 || !before.asked ==> states[k].ready(before.next + k)
}

/// `states` are what a backend comes to be as a reader takes rows from it, one after
/// the other, on its way from `before` to `after`.
pub open spec fn walked(before: RowReader, after: RowReader, states: Seq<RowBackend>) -> bool {
    let n = after.next - before.next;
    &&& n >= 0
    &&& states.len() == n + 1
    &&& after.rows@.len() == before.rows@.len() + n
    &&& after.rows@.take(before.rows@.len() as int) == before.rows@
    &&& forall|k: int| 0 <= k < n ==> #[trigger] took(before, after, states, k)
}

impl RowReader {
    /// A reader for rows `start..end`.
    pub fn new(start: usize, end: usize) -> (reader: Self)
        ensures
            reader.begins(start as int, end as int),
    {
        RowReader { next: start, end, asked: false, rows: Vec::new() }
    }

    /// A reader for rows `start..end` that took none yet.
    pub open spec fn begins(self, start: int, end: int) -> bool {
        &&& self.next == start
        &&& self.end == end
        &&& !self.asked
        &&& self.rows@.len() == 0
    }

    /// A step takes this reader and its table to `next` and `after`: rows are taken up
    /// to the end, or up to one for which `wanted` is to be read. A row that was asked
    /// for before is taken in any case.
    pub open spec fn stepped(
        self,
        table: DataTable,
        next: RowReader,
        after: DataTable,
        wanted: Option<Fetch>,
    ) -> bool {
        &&& after.same_table(table)
        &&& next.end == self.end
        &&& self.next <= next.next <= next.end
        &&& wanted is None <==> next.next == next.end
        &&& next.asked == wanted is Some
        &&& wanted is Some ==> after.backend.wants_row(next.next as int, wanted)
        &&& self.asked && self.next < self.end ==> next.next > self.next
        &&& exists|states: Seq<RowBackend>|
            states[0] == table.backend && states.last() == after.backend && #[trigger] walked(
                self,
                next,
                states,
            )
    }

    /// Gets rows until something has to be read from the file, and tells what;
    /// supply it to the table and step on. A row for which reading failed is
    /// taken as it is then.
    pub fn step(&mut self, table: &mut DataTable) -> (wanted: Option<Fetch>)
        requires
            old(table).wf(),
            old(self).next <= old(self).end <= old(table).backend.row_count(),
        ensures
            final(table).wf(),
            old(self).stepped(*old(table), *final(self), *final(table), wanted),
    {
        let ghost before = *self;
        let ghost mut states = seq![table.backend];
        assert(self.rows@.take(self.rows@.len() as int) =~= self.rows@);
        loop
            invariant
                table.wf(),
                table.headers == old(table).headers,
                table.column_widths == old(table).column_widths,
                table.backend.row_count() == old(table).backend.row_count(),
                before == *old(self),
                self.end == before.end,
                before.next <= self.next <= self.end <= table.backend.row_count(),
                self.next == before.next ==> self.asked == before.asked,
                self.next > before.next ==> !self.asked,
                states[0] == old(table).backend,
                states.last() == table.backend,
                walked(before, *self, states),
            decreases self.end - self.next,
        {
            let ghost here = *self;
            if self.next >= self.end {
                self.asked = false;
                proof {
                    lemma_walk_of_rows(before, here, *self, states);
                }
                return None;
            }
            if !self.asked {
                let wanted = table.row_fetch(self.next);
                proof {
                    lemma_wanted_for_row(table.backend, self.next as int, wanted);
                }
                if wanted.is_some() {
                    self.asked = true;
                    proof {
                        lemma_walk_of_rows(before, here, *self, states);
                    }
                    return wanted;
                }
            }
            let ghost backend = table.backend;
            let row = copied(table.get_row(self.next));
            self.rows.push(row);
            self.next = self.next + 1;
            self.asked = false;
            proof {
                let walk = states.push(table.backend);
                let n = self.next - before.next;
                assert(self.rows@.take(before.rows@.len() as int) =~= before.rows@);
                assert forall|k: int| 0 <= k < n implies #[trigger] took(
                    before,
                    *self,
                    walk,
                    k,
                ) by {
                    if k < n - 1 {
                        assert(took(before, here, states, k));
                    } else {
                        assert(walk[k] == backend && walk[k + 1] == table.backend);
                    }
                }
                states = walk;
            }
        }
    }
}

/// A walk speaks of the rows that were taken only.
proof fn lemma_walk_of_rows(
    before: RowReader,
    after: RowReader,
    same: RowReader,
    states: Seq<RowBackend>,
)
    requires
        walked(before, after, states),
        same.next == after.next,
        same.rows@ == after.rows@,
    ensures
        walked(before, same, states),
{
    assert forall|k: int| 0 <= k < after.next - before.next implies #[trigger] took(
        before,
        same,
        states,
        k,
    ) by {
        assert(took(before, after, states, k));
    }
}

/// A reader and its table on their way: before each step and behind it, what each step
/// wanted, and what came of reading it.
pub struct RowRun {
    /// The reader before the first step, and behind each step.
    pub readers: Seq<RowReader>,
    /// The table before each step, and behind each step.
    pub tables: Seq<DataTable>,
    pub stepped: Seq<DataTable>,
    /// What each step but the last wanted, and what it got.
    pub wanted: Seq<Fetch>,
    pub replies: Seq<Reply>,
}

impl RowRun {
    /// Step `k` was made.
    pub open spec fn steps(self, k: int) -> bool {
        self.readers[k].stepped(
            self.tables[k],
            self.readers[k + 1],
            self.stepped[k],
            if k < self.wanted.len() {
                Some(self.wanted[k])
            } else {
                None
            },
        )
    }

    /// What step `k` wanted was supplied.
    pub open spec fn supplies(self, k: int) -> bool {
        &&& self.tables[k + 1].headers == self.stepped[k].headers
        &&& self.tables[k + 1].column_widths == self.stepped[k].column_widths
        &&& self.stepped[k].backend.supplied(
            self.wanted[k],
            self.replies[k],
            self.tables[k + 1].backend,
        )
    }

    /// Steps were made, and what they wanted was supplied, until nothing was wanted.
    pub open spec fn complete(self) -> bool {
        let n = self.wanted.len();
        &&& self.readers.len() == n + 2
        &&& self.tables.len() == n + 1
        &&& self.stepped.len() == n + 1
        &&& self.replies.len() == n
        &&& forall|k: int| 0 <= k <= n ==> #[trigger] self.steps(k)
        &&& forall|k: int| 0 <= k < n ==> #[trigger] self.supplies(k)
    }

    /// All that was wanted was read as it is in the file.
    pub open spec fn reads(self, bytes: Seq<u8>, content: Seq<Seq<Seq<char>>>) -> bool {
        all_answered(self.wanted, self.replies, bytes, content)
    }
}

/// The rows that a reader takes in one step are those of the file, if a row that was
/// asked for before can be given.
proof fn lemma_walk_takes_rows(
    before: RowReader,
    after: RowReader,
    states: Seq<RowBackend>,
    bytes: Seq<u8>,
    content: Seq<Seq<Seq<char>>>,
    n: int,
)
    requires
        walked(before, after, states),
        0 <= n <= after.next - before.next,
        after.next <= content.len(),
        states[0].wf(),
        states[0].presents_file(bytes, content),
        before.asked && before.next < after.next ==> states[0].ready(before.next as int),
    ensures
        states[n].wf(),
        states[n].presents_file(bytes, content),
        forall|k: int|
            0 <= k < n ==> text::texts((#[trigger] after.rows@[before.rows@.len() + k])@)
                == content[before.next + k],
    decreases n,
{
    if n > 0 {
        lemma_walk_takes_rows(before, after, states, bytes, content, n - 1);
        assert(took(before, after, states, n - 1));
        lemma_held_rows(states[n - 1], bytes, content);
        lemma_given_row(states[n - 1], states[n], before.next + n - 1);
        lemma_row_is_given(states[n - 1], states[n], bytes, content, before.next + n - 1);
    }
}

/// Before each step of a run, the rows that were taken are those of the file, and a
/// row that was asked for can be given.
proof fn lemma_run_so_far(
    run: RowRun,
    bytes: Seq<u8>,
    content: Seq<Seq<Seq<char>>>,
    start: int,
    end: int,
    k: int,
)
    requires
        run.complete(),
        run.reads(bytes, content),
        run.tables[0].wf(),
        run.tables[0].backend.presents_file(bytes, content),
        run.readers[0].begins(start, end),
        start <= end <= content.len(),
        0 <= k <= run.wanted.len(),
    ensures
        run.tables[k].wf(),
        run.tables[k].same_table(run.tables[0]),
        run.tables[k].backend.presents_file(bytes, content),
        run.readers[k].end == end,
        start <= run.readers[k].next <= end,
        text::grid(run.readers[k].rows@) == content.subrange(start, run.readers[k].next as int),
        run.readers[k].asked ==> run.tables[k].backend.ready(run.readers[k].next as int),
    decreases k,
{
    if k == 0 {
        assert(text::grid(run.readers[0].rows@) =~= content.subrange(start, start));
    } else {
        lemma_run_so_far(run, bytes, content, start, end, k - 1);
        lemma_step_of_run(run, bytes, content, start, end, k - 1);
        let fetch = run.wanted[k - 1];
        let reply = run.replies[k - 1];
        assert(run.supplies(k - 1));
        assert(answered(fetch, reply, bytes, content));
        let table = run.stepped[k - 1].backend;
        lemma_held_rows(table, bytes, content);
        lemma_row_is_held_once_read(
            table,
            run.tables[k].backend,
            bytes,
            content,
            run.readers[k].next as int,
            fetch,
            reply,
        );
        lemma_held_rows(run.tables[k].backend, bytes, content);
    }
}

/// A step of a run takes rows of the file.
proof fn lemma_step_of_run(
    run: RowRun,
    bytes: Seq<u8>,
    content: Seq<Seq<Seq<char>>>,
    start: int,
    end: int,
    k: int,
)
    requires
        run.complete(),
        run.reads(bytes, content),
        0 <= k <= run.wanted.len(),
        0 <= start <= end <= content.len(),
        run.tables[k].wf(),
        run.tables[k].same_table(run.tables[0]),
        run.tables[k].backend.presents_file(bytes, content),
        run.readers[k].end == end,
        start <= run.readers[k].next <= end,
        text::grid(run.readers[k].rows@) == content.subrange(start, run.readers[k].next as int),
        run.readers[k].asked ==> run.tables[k].backend.ready(run.readers[k].next as int),
    ensures
        run.stepped[k].wf(),
        run.stepped[k].same_table(run.tables[0]),
        run.stepped[k].backend.presents_file(bytes, content),
        run.readers[k + 1].end == end,
        start <= run.readers[k + 1].next <= end,
        text::grid(run.readers[k + 1].rows@) == content.subrange(
            start,
            run.readers[k + 1].next as int,
        ),
        k < run.wanted.len() ==> {
            &&& run.readers[k + 1].next < end
            &&& run.stepped[k].backend.wants_row(
                run.readers[k + 1].next as int,
                Some(run.wanted[k]),
            )
        },
        k == run.wanted.len() ==> run.readers[k + 1].next == end,
{
    assert(run.steps(k));
    let before = run.readers[k];
    let after = run.readers[k + 1];
    let n = after.next - before.next;
    let states = choose|states: Seq<RowBackend>|
        states[0] == run.tables[k].backend && states.last() == run.stepped[k].backend
            && #[trigger] walked(before, after, states);
    lemma_walk_takes_rows(before, after, states, bytes, content, n);
    let rows = text::grid(after.rows@);
    let m = before.rows@.len();
    assert(text::grid(before.rows@).len() == m);
    assert forall|i: int| 0 <= i < rows.len() implies rows[i] == content[start + i] by {
        if i < m {
            assert(after.rows@.take(m as int)[i] == before.rows@[i]);
            assert(text::grid(before.rows@)[i] == content.subrange(start, before.next as int)[i]);
        } else {
            assert(text::texts(after.rows@[m + (i - m)]@) == content[before.next + (i - m)]);
        }
    }
    assert(rows =~= content.subrange(start, after.next as int));
}

/// A reader that went through rows `start..end` of a table, while all that it wanted
/// was read from the file and supplied, took the rows of the file. The headers, the
/// column widths and the number of rows stay.
pub proof fn lemma_run_takes_rows(
    run: RowRun,
    bytes: Seq<u8>,
    content: Seq<Seq<Seq<char>>>,
    start: int,
    end: int,
)
    requires
        run.complete(),
        run.reads(bytes, content),
        run.tables[0].wf(),
        run.tables[0].backend.presents_file(bytes, content),
        run.readers[0].begins(start, end),
        start <= end <= content.len(),
    ensures
        text::grid(run.readers.last().rows@) == content.subrange(start, end),
        run.stepped.last().wf(),
        run.stepped.last().same_table(run.tables[0]),
        run.stepped.last().backend.presents_file(bytes, content),
{
    let n = run.wanted.len() as int;
    lemma_run_so_far(run, bytes, content, start, end, n);
    lemma_step_of_run(run, bytes, content, start, end, n);
}

} // verus!
