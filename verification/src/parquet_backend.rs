//! Rows of a columnar file: its row groups, and a window of rows of one group
//! that is read again as needed.
use crate::numbers;
use crate::text;
use crate::values;
use crate::values::{arrow_value_to_str, ArrowValue};
use crate::width;
use crate::width::{widths_of_headers, widths_of_table};
use vstd::prelude::*;

verus! {

/// Number of extra rows to include around the visible window on each side.
pub const PARQUET_CACHE_MARGIN: usize = 200;

/// Rows that column widths are estimated from.
pub const PARQUET_SAMPLE: usize = 2000;

/// Rows of a row group to be read: `count` rows, the first of which is row
/// `offset` of the group and row `start` of the file.
#[derive(Clone, Copy, Debug, PartialEq, Eq, Structural)]
pub struct GroupWindow {
    pub group: usize,
    pub offset: usize,
    pub count: usize,
    pub start: usize,
    /// The row that is asked for, if a single one is.
    pub row: Option<usize>,
    /// It goes on where another window ends, and is to be held together with it.
    pub follows: bool,
}

#[derive(Debug)]
pub struct ParquetBackend {
    /// (start_row, num_rows) for each row group in the file.
    pub row_group_bounds: Vec<(usize, usize)>,
    pub total_rows: usize,
    /// Which row group index is currently cached (if any).
    pub cached_group_idx: Option<usize>,
    /// Absolute row index of the first entry in `cache`.
    pub cache_start: usize,
    pub cache: Vec<Vec<String>>,
}

// ---------------------------------------------------------------------------
// Row groups
// ---------------------------------------------------------------------------

/// The number of rows in front of group `i`.
pub open spec fn rows_before(counts: Seq<usize>, i: int) -> int
    decreases i,
{
    if i <= 0 {
        0
    } else {
        rows_before(counts, i - 1) + counts[i - 1]
    }
}

/// The groups lie one behind the other, in this order.
pub open spec fn bounds_of(counts: Seq<usize>) -> Seq<(usize, usize)> {
    Seq::new(counts.len(), |i: int| (rows_before(counts, i) as usize, counts[i]))
}

/// The rows of each group.
pub open spec fn counts_of(bounds: Seq<(usize, usize)>) -> Seq<usize> {
    bounds.map_values(|b: (usize, usize)| b.1)
}

/// The groups lie one behind the other and hold `total` rows.
pub open spec fn tiled(bounds: Seq<(usize, usize)>, total: int) -> bool {
    &&& rows_before(counts_of(bounds), bounds.len() as int) == total
    &&& forall|i: int|
        0 <= i < bounds.len() ==> #[trigger] bounds[i].0 == rows_before(counts_of(bounds), i)
}

/// Each group begins at or behind the end of those before it.
pub open spec fn ordered(bounds: Seq<(usize, usize)>) -> bool {
    forall|i: int, j: int|
        0 <= i < j < bounds.len() ==> #[trigger] bounds[i].0 + bounds[i].1 <= (
        #[trigger] bounds[j]).0
}

/// The row lies in the group.
pub open spec fn within(bound: (usize, usize), row: int) -> bool {
    bound.0 <= row < bound.0 + bound.1
}

/// `g` is the group that is taken for a row: the one that it lies in, or the
/// first one where it lies in none.
pub open spec fn group_of(bounds: Seq<(usize, usize)>, row: int, g: int) -> bool {
    if exists|i: int| 0 <= i < bounds.len() && within(#[trigger] bounds[i], row) {
        0 <= g < bounds.len() && within(bounds[g], row)
    } else {
        g == 0
    }
}

/// A row lies in one group at most.
pub proof fn lemma_group_of_unique(bounds: Seq<(usize, usize)>, row: int, g1: int, g2: int)
    requires
        ordered(bounds),
        group_of(bounds, row, g1),
        group_of(bounds, row, g2),
    ensures
        g1 == g2,
{
    if g1 < g2 {
        assert(bounds[g1].0 + bounds[g1].1 <= bounds[g2].0);
    } else if g2 < g1 {
        assert(bounds[g2].0 + bounds[g2].1 <= bounds[g1].0);
    }
}

proof fn lemma_rows_before_grows(counts: Seq<usize>, i: int, j: int)
    requires
        0 <= i <= j,
    ensures
        0 <= rows_before(counts, i) <= rows_before(counts, j),
    decreases j,
{
    if i < j {
        lemma_rows_before_grows(counts, i, j - 1);
    } else if i > 0 {
        lemma_rows_before_grows(counts, i - 1, i - 1);
    }
}

/// Groups that lie one behind the other are in order, and every row of the
/// file lies in one of them.
pub proof fn lemma_tiled(bounds: Seq<(usize, usize)>, total: int, row: int)
    requires
        tiled(bounds, total),
        0 <= row < total,
    ensures
        ordered(bounds),
        exists|i: int| 0 <= i < bounds.len() && within(#[trigger] bounds[i], row),
{
    lemma_tiled_ordered(bounds, total);
    lemma_row_in_group(bounds, total, row, bounds.len() as int);
}

proof fn lemma_tiled_ordered(bounds: Seq<(usize, usize)>, total: int)
    requires
        tiled(bounds, total),
    ensures
        ordered(bounds),
{
    let counts = counts_of(bounds);
    assert forall|i: int, j: int| 0 <= i < j < bounds.len() implies #[trigger] bounds[i].0
        + bounds[i].1 <= (#[trigger] bounds[j]).0 by {
        lemma_rows_before_grows(counts, i + 1, j);
        assert(rows_before(counts, i + 1) == bounds[i].0 + bounds[i].1);
    }
}

proof fn lemma_row_in_group(bounds: Seq<(usize, usize)>, total: int, row: int, n: int)
    requires
        tiled(bounds, total),
        0 <= n <= bounds.len(),
        0 <= row < rows_before(counts_of(bounds), n),
    ensures
        exists|i: int| 0 <= i < bounds.len() && within(#[trigger] bounds[i], row),
    decreases n,
{
    if n > 0 {
        if row < rows_before(counts_of(bounds), n - 1) {
            lemma_row_in_group(bounds, total, row, n - 1);
        } else {
            assert(within(bounds[n - 1], row));
        }
    }
}

/// Binary search to find which row group contains `row_idx`.
pub fn find_row_group(bounds: &[(usize, usize)], row_idx: usize) -> (g: usize)
    requires
        ordered(bounds@),
    ensures
        group_of(bounds@, row_idx as int, g as int),
{
    let mut low: usize = 0;
    let mut high: usize = bounds.len();
    while low < high
        invariant
            ordered(bounds@),
            low <= high <= bounds@.len(),
            forall|i: int|
                0 <= i < low || high <= i < bounds@.len() ==> !within(
                    #[trigger] bounds@[i],
                    row_idx as int,
                ),
        decreases high - low,
    {
        let mid = low + (high - low) / 2;
        let (start, num) = bounds[mid];
        if row_idx < start {
            assert forall|i: int| mid <= i < high implies !within(
                #[trigger] bounds@[i],
                row_idx as int,
            ) by {
                if mid < i {
                    assert(bounds@[mid as int].0 + bounds@[mid as int].1 <= bounds@[i].0);
                }
            }
            high = mid;
        } else if row_idx - start >= num {
            assert forall|i: int| low <= i <= mid implies !within(
                #[trigger] bounds@[i],
                row_idx as int,
            ) by {
                if i < mid {
                    assert(bounds@[i].0 + bounds@[i].1 <= bounds@[mid as int].0);
                }
            }
            low = mid + 1;
        } else {
            assert(within(bounds@[mid as int], row_idx as int));
            return mid;
        }
    }
    0
}

// ---------------------------------------------------------------------------
// Windows
// ---------------------------------------------------------------------------

/// What is read for `count` rows from row `offset` of a group on: the first row
/// and the number of rows, kept within the group.
pub open spec fn clipped(bound: (usize, usize), offset: int, count: int) -> (int, int) {
    let first = numbers::smaller(offset, numbers::larger(0, bound.1 as int - 1));
    (first, numbers::smaller(count, bound.1 - first))
}

/// The rows of a group that are read for row `idx` of the file: those at most
/// `PARQUET_CACHE_MARGIN` rows away.
pub open spec fn rows_around(bound: (usize, usize), idx: int) -> (int, int) {
    let offset = idx - bound.0;
    let first = numbers::larger(0, offset - PARQUET_CACHE_MARGIN as int);
    (first, numbers::smaller(offset + PARQUET_CACHE_MARGIN + 1, bound.1 as int) - first)
}

/// The window of `part.1` rows from row `part.0` of group `g` on, for row `row`.
pub open spec fn group_window(
    bounds: Seq<(usize, usize)>,
    g: int,
    part: (int, int),
    row: Option<usize>,
) -> GroupWindow {
    GroupWindow {
        group: g as usize,
        offset: part.0 as usize,
        count: part.1 as usize,
        start: (bounds[g].0 + part.0) as usize,
        row,
        follows: false,
    }
}

/// The rows of group `g` among rows `from..to` of the file.
pub open spec fn part_window(
    bounds: Seq<(usize, usize)>,
    g: int,
    from: int,
    to: int,
    follows: bool,
) -> GroupWindow {
    let first = numbers::larger(from, bounds[g].0 as int);
    let last = numbers::smaller(to, bounds[g].0 + bounds[g].1);
    GroupWindow {
        group: g as usize,
        offset: (first - bounds[g].0) as usize,
        count: (last - first) as usize,
        start: first as usize,
        row: None,
        follows,
    }
}

/// The windows for rows `from..to` of the file: one for each of the groups
/// `first..last` that has rows.
pub open spec fn part_windows(
    bounds: Seq<(usize, usize)>,
    first: int,
    last: int,
    from: int,
    to: int,
) -> Seq<GroupWindow>
    decreases last - first,
{
    if last <= first {
        Seq::empty()
    } else {
        let before = part_windows(bounds, first, last - 1, from, to);
        if bounds[last - 1].1 == 0 {
            before
        } else {
            before.push(part_window(bounds, last - 1, from, to, before.len() > 0))
        }
    }
}

/// The window lies within its group.
pub open spec fn in_group(bounds: Seq<(usize, usize)>, w: GroupWindow) -> bool {
    &&& w.group < bounds.len()
    &&& w.start == bounds[w.group as int].0 + w.offset
    &&& w.offset + w.count <= bounds[w.group as int].1
    &&& w.count > 0
}

/// The windows lie one behind the other, each within one group, and together hold
/// rows `start..end`. All but the first are to be held together with the one before.
pub open spec fn cover(
    bounds: Seq<(usize, usize)>,
    windows: Seq<GroupWindow>,
    start: int,
    end: int,
) -> bool {
    &&& windows.len() > 0
    &&& windows[0].start <= start
    &&& windows.last().start + windows.last().count >= end
    &&& forall|k: int|
        0 <= k < windows.len() ==> in_group(bounds, #[trigger] windows[k]) && windows[k].row is None
            && windows[k].follows == (k > 0)
    &&& forall|k: int|
        0 < k < windows.len() ==> windows[k - 1].start + windows[k - 1].count == (
        #[trigger] windows[k]).start
}

/// The texts of rows of values.
pub open spec fn value_rows(rows: Seq<Vec<ArrowValue>>) -> Seq<Seq<Seq<char>>> {
    rows.map_values(
        |row: Vec<ArrowValue>| row@.map_values(|v: ArrowValue| values::arrow_text(v)),
    )
}

impl ParquetBackend {
    /// The row groups hold the rows of the file.
    pub open spec fn wf(self) -> bool {
        tiled(self.row_group_bounds@, self.total_rows as int)
    }

    /// Row `idx` is held.
    pub open spec fn holds(self, idx: int) -> bool {
        self.cache_start <= idx < self.cache_start + self.cache@.len()
    }

    /// What is given for row `idx`: where it is not held, the first row that
    /// is, or nothing.
    pub open spec fn row_at(self, idx: int) -> Seq<Seq<char>> {
        if self.holds(idx) {
            text::grid(self.cache@)[idx - self.cache_start]
        } else if self.cache@.len() > 0 {
            text::grid(self.cache@)[0]
        } else {
            Seq::empty()
        }
    }

    /// The rows that are held, and the number of the first one.
    pub open spec fn held(self) -> (int, Seq<Seq<Seq<char>>>) {
        (self.cache_start as int, text::grid(self.cache@))
    }

    /// All but the cache is as in `other`.
    pub open spec fn same_groups(self, other: ParquetBackend) -> bool {
        &&& self.row_group_bounds == other.row_group_bounds
        &&& self.total_rows == other.total_rows
    }

    /// Every row that is held is the row of `content` with its number.
    pub open spec fn holds_rows_of(self, content: Seq<Seq<Seq<char>>>) -> bool {
        &&& self.cache@.len() == 0 || self.cache_start + self.cache@.len() <= content.len()
        &&& forall|i: int| self.holds(i) ==> #[trigger] self.row_at(i) == content[i]
    }

    /// `wanted` is what is to be read for row `idx`: nothing if it is held.
    pub open spec fn wants_row(self, idx: int, wanted: Option<GroupWindow>) -> bool {
        if self.holds(idx) {
            wanted is None
        } else {
            exists|g: int| #[trigger]
                group_of(self.row_group_bounds@, idx, g) && wanted == Some(
                    group_window(
                        self.row_group_bounds@,
                        g,
                        rows_around(self.row_group_bounds@[g], idx),
                        Some(idx as usize),
                    ),
                )
        }
    }

    /// `wanted` is what is to be read for `count` rows from `start` on: nothing
    /// if they are all held or there are none, else these rows and at most
    /// `PARQUET_CACHE_MARGIN` rows on each side, from the row groups that they lie
    /// in.
    pub open spec fn wants_range(
        self,
        start: int,
        count: int,
        wanted: Seq<GroupWindow>,
    ) -> bool {
        let end = numbers::smaller(start + count, self.total_rows as int);
        if start >= end {
            wanted.len() == 0
        } else if self.cache_start <= start && end <= self.cache_start + self.cache@.len() {
            wanted.len() == 0
        } else {
            self.windows_for(start, end, wanted)
        }
    }

    /// `wanted` is what is to be read for rows `start..end` if they are not all held.
    pub open spec fn windows_for(self, start: int, end: int, wanted: Seq<GroupWindow>) -> bool {
        exists|g: int, h: int| #[trigger]
            within(self.row_group_bounds@[g], start) && #[trigger] within(
                self.row_group_bounds@[h],
                end - 1,
            ) && 0 <= g <= h < self.row_group_bounds@.len() && wanted == part_windows(
                self.row_group_bounds@,
                g,
                h + 1,
                start - PARQUET_CACHE_MARGIN,
                end + PARQUET_CACHE_MARGIN,
            )
    }

    /// What is held once `rows` were read for a window.
    pub open spec fn held_with(
        self,
        window: GroupWindow,
        rows: Seq<Seq<Seq<char>>>,
    ) -> (int, Seq<Seq<Seq<char>>>) {
        if window.follows && self.cache_start + self.cache@.len() == window.start {
            (self.cache_start as int, text::grid(self.cache@) + rows)
        } else {
            (window.start as int, rows)
        }
    }
}

// ---------------------------------------------------------------------------
// Reading rows
// ---------------------------------------------------------------------------

/// The texts of one row of values.
fn row_texts(values: &Vec<ArrowValue>) -> (row: Vec<String>)
    ensures
        text::texts(row@) == values@.map_values(|v: ArrowValue| values::arrow_text(v)),
{
    let mut row: Vec<String> = Vec::new();
    let mut i: usize = 0;
    let ghost all = values@.map_values(|v: ArrowValue| values::arrow_text(v));
    while i < values.len()
        invariant
            i <= values@.len(),
            all == values@.map_values(|v: ArrowValue| values::arrow_text(v)),
            text::texts(row@) == all.take(i as int),
        decreases values@.len() - i,
    {
        let ghost before = row@;
        let cell = arrow_value_to_str(&values[i]);
        row.push(cell);
        i = i + 1;
        proof {
            assert(text::texts(row@) =~= text::texts(before).push(cell@));
            assert(all.take(i as int) =~= all.take(i - 1).push(all[i - 1]));
        }
    }
    assert(all.take(values@.len() as int) =~= all);
    row
}

/// The texts of rows of values.
fn rows_texts(values: &Vec<Vec<ArrowValue>>) -> (rows: Vec<Vec<String>>)
    ensures
        text::grid(rows@) == value_rows(values@),
{
    let mut rows: Vec<Vec<String>> = Vec::new();
    let mut i: usize = 0;
    let ghost all = value_rows(values@);
    while i < values.len()
        invariant
            i <= values@.len(),
            all == value_rows(values@),
            text::grid(rows@) == all.take(i as int),
        decreases values@.len() - i,
    {
        let ghost before = rows@;
        let row = row_texts(&values[i]);
        rows.push(row);
        i = i + 1;
        proof {
            assert(text::grid(rows@) =~= text::grid(before).push(text::texts(row@)));
            assert(all.take(i as int) =~= all.take(i - 1).push(all[i - 1]));
        }
    }
    assert(all.take(values@.len() as int) =~= all);
    rows
}

/// What is read for `count` rows from row `offset_within_group` of a group on:
/// the first row and the number of rows, kept within the group.
pub fn clip_window(bound: (usize, usize), offset_within_group: usize, count: usize) -> (part: (
    usize,
    usize,
))
    ensures
        part.0 == clipped(bound, offset_within_group as int, count as int).0,
        part.1 == clipped(bound, offset_within_group as int, count as int).1,
{
    let last = bound.1.saturating_sub(1);
    let offset: usize = if offset_within_group < last {
        offset_within_group
    } else {
        last
    };
    let room = bound.1 - offset;
    (
        offset,
        if count < room {
            count
        } else {
            room
        },
    )
}

/// The bounds of row groups of these sizes, one behind the other, and the
/// number of their rows.
fn lay_out(counts: &[usize]) -> (groups: (Vec<(usize, usize)>, usize))
    requires
        rows_before(counts@, counts@.len() as int) <= usize::MAX,
    ensures
        groups.0@ == bounds_of(counts@),
        groups.1 == rows_before(counts@, counts@.len() as int),
{
    let mut bounds: Vec<(usize, usize)> = Vec::new();
    let mut cumulative: usize = 0;
    let mut i: usize = 0;
    while i < counts.len()
        invariant
            i <= counts@.len(),
            rows_before(counts@, counts@.len() as int) <= usize::MAX,
            cumulative == rows_before(counts@, i as int),
            bounds@ == bounds_of(counts@).take(i as int),
        decreases counts@.len() - i,
    {
        proof {
            lemma_rows_before_grows(counts@, i + 1, counts@.len() as int);
        }
        bounds.push((cumulative, counts[i]));
        cumulative = cumulative + counts[i];
        i = i + 1;
    }
    assert(bounds_of(counts@).take(counts@.len() as int) =~= bounds_of(counts@));
    (bounds, cumulative)
}

/// What is to be read of a file with row groups of these sizes when it is
/// opened: its first rows, as far as the first group holds them. Nothing is
/// read where that group is empty.
pub open spec fn sample_of(counts: Seq<usize>) -> Option<GroupWindow> {
    let total = rows_before(counts, counts.len() as int);
    if total == 0 || counts[0] == 0 {
        None
    } else {
        Some(
            group_window(
                bounds_of(counts),
                0,
                (0, numbers::smaller(numbers::smaller(PARQUET_SAMPLE as int, total), counts[0] as int)),
                None,
            ),
        )
    }
}

impl ParquetBackend {
    /// What is to be read when a file with row groups of these sizes is opened.
    pub fn sample_window(counts: &[usize]) -> (wanted: Option<GroupWindow>)
        requires
            rows_before(counts@, counts@.len() as int) <= usize::MAX,
        ensures
            wanted == sample_of(counts@),
    {
        let (bounds, total_rows) = lay_out(counts);
        if total_rows == 0 {
            return None;
        }
        let sample_count: usize = if PARQUET_SAMPLE < total_rows {
            PARQUET_SAMPLE
        } else {
            total_rows
        };
        assert(bounds@.len() > 0);
        let (offset, count) = clip_window(bounds[0], 0, sample_count);
        if count == 0 {
            return None;
        }
        Some(GroupWindow { group: 0, offset, count, start: bounds[0].0 + offset, row: None, follows: false })
    }

    /// A file with these columns and row groups of these sizes, of which the
    /// first rows were read. Column widths are estimated from those rows, which
    /// are held.
    pub fn open(headers: Vec<String>, counts: &[usize], sample: &Vec<Vec<ArrowValue>>) -> (table: (
        Vec<String>,
        Vec<usize>,
        Self,
    ))
        requires
            rows_before(counts@, counts@.len() as int) <= usize::MAX,
        ensures
            table.0 == headers,
            table.2.wf(),
            table.2.row_group_bounds@ == bounds_of(counts@),
            table.2.total_rows == rows_before(counts@, counts@.len() as int),
            table.2.total_rows > 0 ==> {
                &&& table.1@ == width::table_widths(text::texts(headers@), value_rows(sample@))
                &&& table.2.held() == (0int, value_rows(sample@))
                &&& table.2.cached_group_idx == Some(0usize)
            },
            table.2.total_rows == 0 ==> {
                &&& table.1@ == width::header_widths(text::texts(headers@))
                &&& table.2.held() == (0int, Seq::<Seq<Seq<char>>>::empty())
                &&& table.2.cached_group_idx is None
            },
    {
        let (bounds, total_rows) = lay_out(counts);
        proof {
            assert(counts_of(bounds@) =~= counts@);
            assert forall|i: int| 0 <= i < bounds@.len() implies #[trigger] bounds@[i].0
                == rows_before(counts@, i) by {
                lemma_rows_before_grows(counts@, i, counts@.len() as int);
            }
        }
        if total_rows == 0 {
            let widths = widths_of_headers(headers.as_slice());
            let backend = ParquetBackend {
                row_group_bounds: bounds,
                total_rows,
                cached_group_idx: None,
                cache_start: 0,
                cache: Vec::new(),
            };
            assert(text::grid(backend.cache@) =~= Seq::empty());
            return (headers, widths, backend);
        }
        let rows = rows_texts(sample);
        let widths = widths_of_table(headers.as_slice(), &rows);
        let backend = ParquetBackend {
            row_group_bounds: bounds,
            total_rows,
            cached_group_idx: Some(0),
            cache_start: 0,
            cache: rows,
        };
        (headers, widths, backend)
    }

    /// Whether row `idx` is held.
    fn has(&self, idx: usize) -> (held: bool)
        ensures
            held == self.holds(idx as int),
    {
        idx >= self.cache_start && idx - self.cache_start < self.cache.len()
    }

    /// What is to be read from disk before row `idx` is asked for: a small
    /// window around it, within its row group.
    pub fn row_fetch(&self, idx: usize) -> (wanted: Option<GroupWindow>)
        requires
            self.wf(),
            idx < self.total_rows,
        ensures
            self.wants_row(idx as int, wanted),
    {
        if self.has(idx) {
            return None;
        }
        proof {
            lemma_tiled(self.row_group_bounds@, self.total_rows as int, idx as int);
        }
        let group = find_row_group(self.row_group_bounds.as_slice(), idx);
        let bound = self.row_group_bounds[group];
        let offset = idx - bound.0;
        let window_off = offset.saturating_sub(PARQUET_CACHE_MARGIN);
        let reach = offset.saturating_add(PARQUET_CACHE_MARGIN + 1);
        let window_end: usize = if reach < bound.1 {
            reach
        } else {
            bound.1
        };
        let (offset, count) = clip_window(bound, window_off, window_end - window_off);
        Some(GroupWindow { group, offset, count, start: bound.0 + offset, row: Some(idx), follows: false })
    }

    /// What is to be read from disk before `count` rows from `start` on are asked
    /// for: these rows with some margin, from each row group that they lie in.
    pub fn prefetch_range(&self, start: usize, count: usize) -> (wanted: Vec<GroupWindow>)
        requires
            self.wf(),
        ensures
            self.wants_range(start as int, count as int, wanted@),
            ({
                let end = numbers::smaller(start + count, self.total_rows as int);
                if forall|i: int| start <= i < end ==> #[trigger] self.holds(i) {
                    wanted@.len() == 0
                } else {
                    cover(self.row_group_bounds@, wanted@, start as int, end)
                }
            }),
    {
        let asked = start.saturating_add(count);
        let end: usize = if asked < self.total_rows {
            asked
        } else {
            self.total_rows
        };
        if start >= end {
            return Vec::new();
        }
        if start >= self.cache_start && (end <= self.cache_start || end - self.cache_start
            <= self.cache.len()) {
            return Vec::new();
        }
        let wanted = self.windows_over(start, end);
        proof {
            lemma_range_windows_cover(*self, start as int, count as int, wanted@);
            if start < self.cache_start {
                assert(!self.holds(start as int));
            } else {
                assert(!self.holds(end - 1));
            }
        }
        wanted
    }

    /// The windows for rows `start..end`.
    fn windows_over(&self, start: usize, end: usize) -> (windows: Vec<GroupWindow>)
        requires
            self.wf(),
            start < end <= self.total_rows,
        ensures
            self.windows_for(start as int, end as int, windows@),
            windows@.len() > 0,
    {
        let mut windows: Vec<GroupWindow> = Vec::new();
        proof {
            lemma_tiled(self.row_group_bounds@, self.total_rows as int, start as int);
            lemma_tiled(self.row_group_bounds@, self.total_rows as int, end - 1);
        }
        let first = find_row_group(self.row_group_bounds.as_slice(), start);
        let last = find_row_group(self.row_group_bounds.as_slice(), end - 1);
        proof {
            lemma_groups_in_order(
                self.row_group_bounds@,
                start as int,
                end - 1,
                first as int,
                last as int,
            );
        }
        let from: i128 = start as i128 - PARQUET_CACHE_MARGIN as i128;
        let to: i128 = end as i128 + PARQUET_CACHE_MARGIN as i128;
        let mut g: usize = first;
        while g <= last
            invariant
                self.wf(),
                first <= g <= last + 1,
                last < self.row_group_bounds@.len(),
                start < end <= self.total_rows,
                within(self.row_group_bounds@[first as int], start as int),
                within(self.row_group_bounds@[last as int], end - 1),
                from == start - PARQUET_CACHE_MARGIN,
                to == end + PARQUET_CACHE_MARGIN,
                windows@ == part_windows(
                    self.row_group_bounds@,
                    first as int,
                    g as int,
                    from as int,
                    to as int,
                ),
            decreases last + 1 - g,
        {
            assert(g < self.row_group_bounds.len());
            let bound = self.row_group_bounds[g];
            if bound.1 > 0 {
                proof {
                    lemma_part_window(
                        self.row_group_bounds@,
                        self.total_rows as int,
                        start as int,
                        end as int,
                        first as int,
                        last as int,
                        g as int,
                    );
                }
                let begin: i128 = if from >= bound.0 as i128 {
                    from
                } else {
                    bound.0 as i128
                };
                let bound_end: i128 = bound.0 as i128 + bound.1 as i128;
                let stop: i128 = if to <= bound_end {
                    to
                } else {
                    bound_end
                };
                let follows = windows.len() > 0;
                windows.push(
                    GroupWindow {
                        group: g,
                        offset: (begin - bound.0 as i128) as usize,
                        count: (stop - begin) as usize,
                        start: begin as usize,
                        row: None,
                        follows,
                    },
                );
            }
            g = g + 1;
        }
        proof {
            assert(last < self.row_group_bounds.len());
            lemma_part_windows_cover(
                self.row_group_bounds@,
                self.total_rows as int,
                start as int,
                end as int,
                first as int,
                last as int,
                last + 1,
            );
        }
        windows
    }

    /// Takes what was read for `window`: rows, or nothing where reading failed.
    /// Rows that go on where those that are held end are held together with them.
    /// Where reading failed and a single row was asked for, it is then empty; else
    /// what was held stays.
    pub fn supply(&mut self, window: GroupWindow, values: Option<&Vec<Vec<ArrowValue>>>)
        ensures
            final(self).same_groups(*old(self)),
            match (values, window.row) {
                (Some(rows), _) => {
                    &&& final(self).held() == old(self).held_with(window, value_rows(rows@))
                    &&& final(self).cached_group_idx == (if window.follows && old(self).cache_start
                        + old(self).cache@.len() == window.start {
                        old(self).cached_group_idx
                    } else {
                        Some(window.group)
                    })
                },
                (None, Some(row)) => {
                    &&& final(self).held() == (row as int, seq![Seq::<Seq<char>>::empty()])
                    &&& final(self).cached_group_idx == Some(window.group)
                },
                (None, None) => *final(self) == *old(self),
            },
    {
        match values {
            Some(rows) => {
                let mut texts = rows_texts(rows);
                if window.follows && self.cache_start <= window.start && window.start
                    - self.cache_start == self.cache.len() {
                    let ghost before = self.cache@;
                    let ghost more = texts@;
                    self.cache.append(&mut texts);
                    assert(text::grid(self.cache@) =~= text::grid(before) + text::grid(more));
                } else {
                    self.cache_start = window.start;
                    self.cache = texts;
                    self.cached_group_idx = Some(window.group);
                }
            },
            None => {
                if let Some(row) = window.row {
                    let mut cache: Vec<Vec<String>> = Vec::new();
                    cache.push(Vec::new());
                    self.cache_start = row;
                    self.cache = cache;
                    self.cached_group_idx = Some(window.group);
                    proof {
                        assert(text::texts(self.cache@[0]@) =~= Seq::empty());
                        assert(text::grid(self.cache@) =~= seq![Seq::<Seq<char>>::empty()]);
                    }
                }
            },
        }
    }

    /// Row `idx`, as far as it is held.
    pub fn get_row(&self, idx: usize) -> (row: &[String])
        ensures
            text::texts(row@) == self.row_at(idx as int),
    {
        if self.has(idx) {
            self.cache[idx - self.cache_start].as_slice()
        } else if self.cache.len() > 0 {
            self.cache[0].as_slice()
        } else {
            &[]
        }
    }
}

// ---------------------------------------------------------------------------
// What is read is what is given
// ---------------------------------------------------------------------------

/// What is read for a row holds the row, and lies within one row group.
pub proof fn lemma_row_window_covers(b: ParquetBackend, idx: int, wanted: GroupWindow)
    requires
        b.wf(),
        0 <= idx < b.total_rows,
        b.wants_row(idx, Some(wanted)),
    ensures
        in_group(b.row_group_bounds@, wanted),
        wanted.start <= idx < wanted.start + wanted.count <= b.total_rows,
        !wanted.follows,
{
    let bounds = b.row_group_bounds@;
    lemma_tiled(bounds, b.total_rows as int, idx);
    let g = choose|g: int| #[trigger]
        group_of(bounds, idx, g) && Some(wanted) == Some(
            group_window(bounds, g, rows_around(bounds[g], idx), Some(idx as usize)),
        );
    lemma_group_within(bounds, b.total_rows as int, g);
    assert(g < b.row_group_bounds.len());
}

/// What is read for a range of rows holds these rows, from one row group after the
/// other.
pub proof fn lemma_range_windows_cover(
    b: ParquetBackend,
    start: int,
    count: int,
    wanted: Seq<GroupWindow>,
)
    requires
        b.wf(),
        0 <= start,
        b.wants_range(start, count, wanted),
        wanted.len() > 0,
    ensures
        cover(
            b.row_group_bounds@,
            wanted,
            start,
            numbers::smaller(start + count, b.total_rows as int),
        ),
{
    let bounds = b.row_group_bounds@;
    let end = numbers::smaller(start + count, b.total_rows as int);
    let (g, h) = choose|g: int, h: int| #[trigger]
        within(bounds[g], start) && #[trigger] within(bounds[h], end - 1) && 0 <= g <= h
            < bounds.len() && wanted == part_windows(
            bounds,
            g,
            h + 1,
            start - PARQUET_CACHE_MARGIN,
            end + PARQUET_CACHE_MARGIN,
        );
    assert(h < b.row_group_bounds.len());
    lemma_part_windows_cover(bounds, b.total_rows as int, start, end, g, h, h + 1);
}

proof fn lemma_groups_in_order(
    bounds: Seq<(usize, usize)>,
    row1: int,
    row2: int,
    g1: int,
    g2: int,
)
    requires
        ordered(bounds),
        row1 <= row2,
        0 <= g1 < bounds.len(),
        0 <= g2 < bounds.len(),
        within(bounds[g1], row1),
        within(bounds[g2], row2),
    ensures
        g1 <= g2,
{
    if g2 < g1 {
        assert(bounds[g2].0 + bounds[g2].1 <= bounds[g1].0);
    }
}

/// The window of a group with rows lies within the group.
proof fn lemma_part_window(
    bounds: Seq<(usize, usize)>,
    total: int,
    start: int,
    end: int,
    first: int,
    last: int,
    g: int,
)
    requires
        tiled(bounds, total),
        0 <= start < end <= total <= usize::MAX,
        0 <= first <= g <= last < bounds.len() <= usize::MAX,
        within(bounds[first], start),
        within(bounds[last], end - 1),
        bounds[g].1 > 0,
    ensures
        ({
            let from = start - PARQUET_CACHE_MARGIN;
            let to = end + PARQUET_CACHE_MARGIN;
            let w = part_window(bounds, g, from, to, false);
            &&& bounds[g].0 + bounds[g].1 <= total
            &&& in_group(bounds, w)
            &&& w.start == numbers::larger(from, bounds[g].0 as int)
            &&& w.start + w.count == numbers::smaller(to, bounds[g].0 + bounds[g].1)
            &&& first < g ==> w.start == bounds[g].0
            &&& g < last ==> w.start + w.count == bounds[g].0 + bounds[g].1
            &&& first == g ==> w.start <= start
            &&& g == last ==> w.start + w.count >= end
        }),
{
    lemma_tiled_ordered(bounds, total);
    lemma_group_within(bounds, total, g);
    if first < g {
        assert(bounds[first].0 + bounds[first].1 <= bounds[g].0);
    }
    if g < last {
        assert(bounds[g].0 + bounds[g].1 <= bounds[last].0);
    }
}

/// The windows of the groups up to `n` lie one behind the other, up to the end of
/// these groups.
proof fn lemma_part_windows_cover(
    bounds: Seq<(usize, usize)>,
    total: int,
    start: int,
    end: int,
    first: int,
    last: int,
    n: int,
)
    requires
        tiled(bounds, total),
        0 <= start < end <= total <= usize::MAX,
        0 <= first < n <= last + 1,
        first <= last < bounds.len() <= usize::MAX,
        within(bounds[first], start),
        within(bounds[last], end - 1),
    ensures
        ({
            let windows = part_windows(
                bounds,
                first,
                n,
                start - PARQUET_CACHE_MARGIN,
                end + PARQUET_CACHE_MARGIN,
            );
            &&& cover(
                bounds,
                windows,
                start,
                if n == last + 1 {
                    end
                } else {
                    rows_before(counts_of(bounds), n)
                },
            )
            &&& n <= last ==> windows.last().start + windows.last().count == rows_before(
                counts_of(bounds),
                n,
            )
        }),
    decreases n,
{
    let from = start - PARQUET_CACHE_MARGIN;
    let to = end + PARQUET_CACHE_MARGIN;
    let g = n - 1;
    let before = part_windows(bounds, first, g, from, to);
    let windows = part_windows(bounds, first, n, from, to);
    assert(rows_before(counts_of(bounds), n) == bounds[g].0 + bounds[g].1);
    if bounds[g].1 > 0 {
        lemma_part_window(bounds, total, start, end, first, last, g);
    }
    if g == first {
        assert(before.len() == 0);
    } else {
        lemma_part_windows_cover(bounds, total, start, end, first, last, g);
        if bounds[g].1 > 0 {
            assert forall|k: int| 0 <= k < windows.len() implies in_group(
                bounds,
                #[trigger] windows[k],
            ) && windows[k].row is None && windows[k].follows == (k > 0) by {
                if k < before.len() {
                    assert(windows[k] == before[k]);
                }
            }
            assert forall|k: int| 0 < k < windows.len() implies windows[k - 1].start + windows[k
                - 1].count == (#[trigger] windows[k]).start by {
                if k < before.len() {
                    assert(windows[k] == before[k]);
                    assert(windows[k - 1] == before[k - 1]);
                } else {
                    assert(windows[k - 1] == before.last());
                }
            }
            assert(windows[0] == before[0]);
        }
    }
}

/// A row group lies within the rows of the file.
pub proof fn lemma_group_within(bounds: Seq<(usize, usize)>, total: int, g: int)
    requires
        tiled(bounds, total),
        0 <= g < bounds.len(),
    ensures
        bounds[g].0 + bounds[g].1 <= total,
{
    let counts = counts_of(bounds);
    assert(rows_before(counts, g + 1) == bounds[g].0 + bounds[g].1);
    lemma_rows_before_grows(counts, g + 1, bounds.len() as int);
}

/// Once the rows that a window names were read, every row that is held is the
/// row of the file with its number, and every row of the window is held. Rows that
/// the window goes on from stay held.
pub proof fn lemma_supplied_rows(
    before: ParquetBackend,
    after: ParquetBackend,
    content: Seq<Seq<Seq<char>>>,
    window: GroupWindow,
)
    requires
        before.holds_rows_of(content),
        window.start + window.count <= content.len(),
        after.held() == before.held_with(
            window,
            content.subrange(window.start as int, window.start + window.count),
        ),
    ensures
        after.holds_rows_of(content),
        forall|i: int|
            window.start <= i < window.start + window.count ==> #[trigger] after.holds(i),
        window.follows && before.cache_start + before.cache@.len() == window.start
            ==> after.cache_start == before.cache_start,
        after.cache_start + after.cache@.len() == window.start + window.count,
{
    let rows = content.subrange(window.start as int, window.start + window.count);
    assert(text::grid(after.cache@).len() == after.cache@.len());
    assert(text::grid(before.cache@).len() == before.cache@.len());
    assert forall|i: int| after.holds(i) implies #[trigger] after.row_at(i) == content[i] by {
        if i >= window.start {
            assert(after.row_at(i) == rows[i - window.start]);
        } else {
            assert(before.holds(i));
            assert(after.row_at(i) == before.row_at(i));
        }
    }
}

/// When a file is opened, the rows of its first row group are read, two thousand at most.
pub proof fn lemma_sample_is_the_first_rows(counts: Seq<usize>)
    requires
        counts.len() > 0,
        rows_before(counts, counts.len() as int) <= usize::MAX,
    ensures
        counts[0] == 0 ==> sample_of(counts) is None,
        counts[0] > 0 ==> (sample_of(counts) matches Some(w) && w.group == 0 && w.offset == 0
            && w.start == 0 && w.row is None && !w.follows && w.count == (if counts[0] < 2000 {
            counts[0] as int
        } else {
            2000
        })),
{
    lemma_rows_before_grows(counts, 1, counts.len() as int);
    assert(rows_before(counts, 1) == rows_before(counts, 0) + counts[0]);
    assert(bounds_of(counts)[0] == (0usize, counts[0]));
}

/// For a row the rows of its group are read that are at most two hundred rows away.
pub proof fn lemma_row_is_read_with_its_neighbours(
    b: ParquetBackend,
    idx: int,
    wanted: GroupWindow,
    row: int,
)
    requires
        b.wf(),
        0 <= idx < b.total_rows,
        b.wants_row(idx, Some(wanted)),
    ensures
        wanted.row == Some(idx as usize),
        wanted.start <= row < wanted.start + wanted.count <==> idx - 200 <= row <= idx + 200
            && b.row_group_bounds@[wanted.group as int].0 <= row
            < b.row_group_bounds@[wanted.group as int].0
            + b.row_group_bounds@[wanted.group as int].1,
{
    let bounds = b.row_group_bounds@;
    lemma_tiled(bounds, b.total_rows as int, idx);
    let g = choose|g: int| #[trigger]
        group_of(bounds, idx, g) && Some(wanted) == Some(
            group_window(bounds, g, rows_around(bounds[g], idx), Some(idx as usize)),
        );
    lemma_group_within(bounds, b.total_rows as int, g);
    assert(g < b.row_group_bounds.len());
}

} // verus!
