//! The scroll position and the cursor in the data grid.
use crate::numbers;
use crate::text;
use vstd::prelude::*;

verus! {

/// Number of spaces between adjacent columns.
pub const COL_GAP: u16 = 3;

/// Viewport tracks scroll position and cursor within the data grid.
#[derive(Clone, Copy, Debug, PartialEq, Eq, Structural)]
pub struct Viewport {
    /// Absolute cursor row (0-indexed into the data rows).
    pub cursor_row: usize,
    /// Absolute cursor column (0-indexed into the headers).
    pub cursor_col: usize,
    /// First visible data row index.
    pub scroll_row: usize,
    /// First visible data column index.
    pub scroll_col: usize,
    /// How many data rows fit in the current viewport area.
    pub visible_rows: usize,
    /// How many data columns fit in the current viewport area.
    pub visible_cols: usize,
    /// Width of the row-number column in terminal cells.
    pub row_num_width: u16,
}

// ---------------------------------------------------------------------------
// Dimensions
// ---------------------------------------------------------------------------

/// The width of the row-number column of a table of `total_rows` rows: one more
/// than the digits of that number, but no less than 3 and no more than 8.
pub open spec fn row_number_width(total_rows: int) -> int {
    numbers::smaller(8, numbers::larger(3, text::digits(total_rows as nat).len() as int + 1))
}

/// The terminal cells of a column of width `w`, with the gap after it.
pub open spec fn column_cells(w: usize) -> int {
    w + COL_GAP
}

/// The terminal cells of the `n` columns that begin with column `start`.
pub open spec fn span(widths: Seq<usize>, start: int, n: int) -> int
    decreases n,
{
    if n <= 0 {
        0
    } else {
        span(widths, start, n - 1) + column_cells(widths[start + n - 1])
    }
}

/// `n` is the number of columns from `start` on that fit into `room` cells: at
/// least one where there is one, and no more than fit.
pub open spec fn columns_fit(widths: Seq<usize>, start: int, room: int, n: int) -> bool {
    &&& 1 <= n <= widths.len() - start
    &&& n > 1 ==> span(widths, start, n) <= room
    &&& n < widths.len() - start ==> span(widths, start, n + 1) > room
}

proof fn lemma_span_grows(widths: Seq<usize>, start: int, n1: int, n2: int)
    requires
        n1 <= n2,
    ensures
        span(widths, start, n1) <= span(widths, start, n2),
    decreases n2,
{
    if n1 < n2 && n2 > 0 {
        lemma_span_grows(widths, start, n1, n2 - 1);
    }
}

/// There is only one number of columns that fit.
pub proof fn lemma_columns_fit_unique(widths: Seq<usize>, start: int, room: int, n1: int, n2: int)
    requires
        columns_fit(widths, start, room, n1),
        columns_fit(widths, start, room, n2),
    ensures
        n1 == n2,
{
    if n1 < n2 {
        lemma_span_grows(widths, start, n1 + 1, n2);
    } else if n2 < n1 {
        lemma_span_grows(widths, start, n2 + 1, n1);
    }
}

/// The cells that are left for data columns beside the row-number column.
pub open spec fn data_room(available_width: int, number_width: int) -> int {
    numbers::larger(0, available_width - (number_width + COL_GAP + 1))
}

/// The first index of the columns that are counted.
pub open spec fn first_column(scroll_col: int, cols: int) -> int {
    numbers::smaller(scroll_col, numbers::larger(0, cols - 1))
}

/// `n` is the number of visible columns of a viewport that is scrolled to
/// column `scroll_col`: none where hardly a cell is left, one where there is
/// no column, and else the columns that fit.
pub open spec fn visible_columns(widths: Seq<usize>, scroll_col: int, room: int, n: int) -> bool {
    if room <= 2 {
        n == 0
    } else if widths.len() == 0 {
        n == 1
    } else {
        columns_fit(widths, first_column(scroll_col, widths.len() as int), room, n)
    }
}

/// The number of decimal digits of `n`.
fn digit_count(n: usize) -> (count: usize)
    ensures
        count == text::digits(n as nat).len(),
{
    let mut rest: usize = n;
    let mut count: usize = 1;
    while rest >= 10
        invariant
            count + rest <= n + 1,
            text::digits(n as nat).len() == text::digits(rest as nat).len() + count - 1,
        decreases rest,
    {
        rest = rest / 10;
        count = count + 1;
    }
    count
}

// ---------------------------------------------------------------------------
// Movement
// ---------------------------------------------------------------------------

/// The scroll position nearest to `scroll` from which `cursor` lies in a window
/// of `visible` lines. A window of no lines only moves back to the cursor.
pub open spec fn scrolled_to(scroll: int, visible: int, cursor: int) -> int {
    if cursor < scroll {
        cursor
    } else if visible > 0 && cursor >= scroll + visible {
        cursor - visible + 1
    } else {
        scroll
    }
}

impl Viewport {
    /// The viewport with its rows scrolled to show the cursor.
    pub open spec fn row_shown(self) -> Viewport {
        Viewport {
            scroll_row: scrolled_to(
                self.scroll_row as int,
                self.visible_rows as int,
                self.cursor_row as int,
            ) as usize,
            ..self
        }
    }

    /// The viewport with its columns scrolled to show the cursor.
    pub open spec fn col_shown(self) -> Viewport {
        Viewport {
            scroll_col: scrolled_to(
                self.scroll_col as int,
                self.visible_cols as int,
                self.cursor_col as int,
            ) as usize,
            ..self
        }
    }

    /// One column to the left.
    pub open spec fn left(self) -> Viewport {
        Viewport { cursor_col: numbers::larger(0, self.cursor_col - 1) as usize, ..self }.col_shown()
    }

    /// One column to the right, up to the last one.
    pub open spec fn right(self, total_cols: int) -> Viewport {
        if self.cursor_col + 1 < total_cols {
            Viewport { cursor_col: (self.cursor_col + 1) as usize, ..self }.col_shown()
        } else {
            self.col_shown()
        }
    }

    /// One row up.
    pub open spec fn up(self) -> Viewport {
        Viewport { cursor_row: numbers::larger(0, self.cursor_row - 1) as usize, ..self }.row_shown()
    }

    /// One row down, up to the last one. Nothing moves in a table without rows.
    pub open spec fn down(self, total_rows: int) -> Viewport {
        if total_rows == 0 {
            self
        } else if self.cursor_row + 1 < total_rows {
            Viewport { cursor_row: (self.cursor_row + 1) as usize, ..self }.row_shown()
        } else {
            self.row_shown()
        }
    }

    /// The rows that a page has.
    pub open spec fn page(self) -> int {
        numbers::larger(1, self.visible_rows as int)
    }

    /// One page up.
    pub open spec fn paged_up(self) -> Viewport {
        Viewport {
            cursor_row: numbers::larger(0, self.cursor_row - self.page()) as usize,
            scroll_row: numbers::larger(0, self.scroll_row - self.page()) as usize,
            ..self
        }.row_shown()
    }

    /// One page down, up to the last row and the last full page.
    pub open spec fn paged_down(self, total_rows: int) -> Viewport {
        Viewport {
            cursor_row: numbers::smaller(
                self.cursor_row + self.page(),
                numbers::larger(0, total_rows - 1),
            ) as usize,
            scroll_row: numbers::smaller(
                self.scroll_row + self.page(),
                numbers::larger(0, total_rows - self.visible_rows),
            ) as usize,
            ..self
        }.row_shown()
    }

    /// To the first row.
    pub open spec fn at_top(self) -> Viewport {
        Viewport { cursor_row: 0, scroll_row: 0, ..self }
    }

    /// To the last row, where there is one.
    pub open spec fn at_bottom(self, total_rows: int) -> Viewport {
        if total_rows > 0 {
            Viewport {
                cursor_row: (total_rows - 1) as usize,
                scroll_row: numbers::larger(0, total_rows - self.visible_rows) as usize,
                ..self
            }
        } else {
            self
        }
    }

    /// To the first column.
    pub open spec fn at_col_start(self) -> Viewport {
        Viewport { cursor_col: 0, scroll_col: 0, ..self }
    }

    /// To the last column, where there is one.
    pub open spec fn at_col_end(self, total_cols: int) -> Viewport {
        if total_cols > 0 {
            Viewport { cursor_col: (total_cols - 1) as usize, ..self }.col_shown()
        } else {
            self.col_shown()
        }
    }

    /// View and cursor one column to the left.
    pub open spec fn view_left(self) -> Viewport {
        Viewport {
            scroll_col: numbers::larger(0, self.scroll_col - 1) as usize,
            cursor_col: numbers::larger(0, self.cursor_col - 1) as usize,
            ..self
        }
    }

    /// View and cursor one column to the right, each as far as it goes.
    pub open spec fn view_right(self, total_cols: int) -> Viewport {
        Viewport {
            scroll_col: if self.scroll_col < total_cols - self.visible_cols {
                (self.scroll_col + 1) as usize
            } else {
                self.scroll_col
            },
            cursor_col: if self.cursor_col + 1 < total_cols {
                (self.cursor_col + 1) as usize
            } else {
                self.cursor_col
            },
            ..self
        }
    }

    /// View and cursor one row up.
    pub open spec fn view_up(self) -> Viewport {
        Viewport {
            scroll_row: numbers::larger(0, self.scroll_row - 1) as usize,
            cursor_row: numbers::larger(0, self.cursor_row - 1) as usize,
            ..self
        }
    }

    /// View and cursor one row down, each as far as it goes.
    pub open spec fn view_down(self, total_rows: int) -> Viewport {
        Viewport {
            scroll_row: if self.scroll_row < total_rows - self.visible_rows {
                (self.scroll_row + 1) as usize
            } else {
                self.scroll_row
            },
            cursor_row: if self.cursor_row + 1 < total_rows {
                (self.cursor_row + 1) as usize
            } else {
                self.cursor_row
            },
            ..self
        }
    }

    /// `next` is this viewport in an area of `width` columns and `height` rows,
    /// over a table of `total_rows` rows with columns of these widths. The header
    /// takes one row; the row numbers and the gap behind them take columns.
    pub open spec fn resized(
        self,
        width: int,
        height: int,
        widths: Seq<usize>,
        total_rows: int,
        next: Viewport,
    ) -> bool {
        &&& next == Viewport {
            visible_rows: next.visible_rows,
            visible_cols: next.visible_cols,
            row_num_width: next.row_num_width,
            ..self
        }
        &&& next.row_num_width == row_number_width(total_rows)
        &&& next.visible_rows == numbers::larger(0, height - 1)
        &&& visible_columns(
            widths,
            self.scroll_col as int,
            data_room(width, row_number_width(total_rows)),
            next.visible_cols as int,
        )
    }

    /// The viewport of a table that was just opened.
    pub open spec fn initial() -> Viewport {
        Viewport {
            cursor_row: 0,
            cursor_col: 0,
            scroll_row: 0,
            scroll_col: 0,
            visible_rows: 0,
            visible_cols: 0,
            row_num_width: 4,
        }
    }

    pub fn new() -> (v: Self)
        ensures
            v == Viewport::initial(),
    {
        Self {
            cursor_row: 0,
            cursor_col: 0,
            scroll_row: 0,
            scroll_col: 0,
            visible_rows: 0,
            visible_cols: 0,
            row_num_width: 4,
        }
    }

    /// Recalculate visible dimensions based on terminal area and column widths.
    pub fn recalc_dimensions(
        &mut self,
        available_width: u16,
        available_height: u16,
        column_widths: &[usize],
        total_rows: usize,
    )
        ensures
            old(self).resized(
                available_width as int,
                available_height as int,
                column_widths@,
                total_rows as int,
                *final(self),
            ),
    {
        // Row number column width.
        let digits = digit_count(total_rows);
        let number_width: u16 = if digits < 2 {
            3
        } else if digits > 7 {
            8
        } else {
            digits as u16 + 1
        };
        self.row_num_width = number_width;

        // Only the header row takes vertical space; the rest are data rows.
        self.visible_rows = available_height.saturating_sub(1) as usize;

        // Available width: minus the row number column and the gap after it.
        let data_width = available_width.saturating_sub(number_width + COL_GAP + 1);
        if data_width <= 2 {
            self.visible_cols = 0;
            return;
        }
        let cols = column_widths.len();
        if cols == 0 {
            self.visible_cols = 1;
            return;
        }
        // Count how many columns fit (each column = width + gap).
        let start: usize = if self.scroll_col < cols { self.scroll_col } else { cols - 1 };
        let mut used: u128 = column_widths[start] as u128 + COL_GAP as u128;
        let mut count: usize = 1;
        assert(span(column_widths@, start as int, 0) == 0);
        while count < cols - start && used + column_widths[start + count] as u128
            + COL_GAP as u128 <= data_width as u128
            invariant
                cols == column_widths@.len(),
                start < cols,
                1 <= count <= cols - start,
                used == span(column_widths@, start as int, count as int),
                count > 1 ==> used <= data_width,
                used <= 0x1_0000_0000_0000_0003,
            decreases cols - count,
        {
            used = used + column_widths[start + count] as u128 + COL_GAP as u128;
            count = count + 1;
        }
        self.visible_cols = count;
    }

    // --- Cursor movement ---

    pub fn move_left(&mut self, _total_cols: usize)
        ensures
            *final(self) == old(self).left(),
    {
        if self.cursor_col > 0 {
            self.cursor_col -= 1;
        }
        self.ensure_col_visible();
    }

    pub fn move_right(&mut self, total_cols: usize)
        ensures
            *final(self) == old(self).right(total_cols as int),
    {
        if total_cols > 0 && self.cursor_col < total_cols - 1 {
            self.cursor_col += 1;
        }
        self.ensure_col_visible();
    }

    pub fn move_up(&mut self)
        ensures
            *final(self) == old(self).up(),
    {
        if self.cursor_row > 0 {
            self.cursor_row -= 1;
        }
        self.ensure_row_visible();
    }

    pub fn move_down(&mut self, total_rows: usize)
        ensures
            *final(self) == old(self).down(total_rows as int),
    {
        if total_rows == 0 {
            return;
        }
        if self.cursor_row < total_rows - 1 {
            self.cursor_row += 1;
        }
        self.ensure_row_visible();
    }

    // --- Page navigation ---

    pub fn page_up(&mut self)
        ensures
            *final(self) == old(self).paged_up(),
    {
        let delta: usize = if self.visible_rows > 1 { self.visible_rows } else { 1 };
        self.cursor_row = self.cursor_row.saturating_sub(delta);
        self.scroll_row = self.scroll_row.saturating_sub(delta);
        self.ensure_row_visible();
    }

    pub fn page_down(&mut self, total_rows: usize)
        ensures
            *final(self) == old(self).paged_down(total_rows as int),
    {
        let delta: usize = if self.visible_rows > 1 { self.visible_rows } else { 1 };
        let last_row = total_rows.saturating_sub(1);
        let last_page = total_rows.saturating_sub(self.visible_rows);
        let row = self.cursor_row.saturating_add(delta);
        let top = self.scroll_row.saturating_add(delta);
        self.cursor_row = if row < last_row { row } else { last_row };
        self.scroll_row = if top < last_page { top } else { last_page };
        self.ensure_row_visible();
    }

    pub fn go_top(&mut self)
        ensures
            *final(self) == old(self).at_top(),
    {
        self.cursor_row = 0;
        self.scroll_row = 0;
    }

    pub fn go_bottom(&mut self, total_rows: usize)
        ensures
            *final(self) == old(self).at_bottom(total_rows as int),
    {
        if total_rows > 0 {
            self.cursor_row = total_rows - 1;
            self.scroll_row = total_rows.saturating_sub(self.visible_rows);
        }
    }

    // --- Column jump (0 / $) ---

    pub fn go_col_start(&mut self)
        ensures
            *final(self) == old(self).at_col_start(),
    {
        self.cursor_col = 0;
        self.scroll_col = 0;
    }

    pub fn go_col_end(&mut self, total_cols: usize)
        ensures
            *final(self) == old(self).at_col_end(total_cols as int),
    {
        if total_cols > 0 {
            self.cursor_col = total_cols - 1;
        }
        self.ensure_col_visible();
    }

    // --- View scroll (H/L horizontal, J/K vertical) ---
    // These move both the viewport and the cursor, so that the cursor stays at
    // the same relative screen position.

    pub fn scroll_view_left(&mut self)
        ensures
            *final(self) == old(self).view_left(),
    {
        self.scroll_col = self.scroll_col.saturating_sub(1);
        if self.cursor_col > 0 {
            self.cursor_col -= 1;
        }
    }

    pub fn scroll_view_right(&mut self, total_cols: usize)
        ensures
            *final(self) == old(self).view_right(total_cols as int),
    {
        let max_scroll = total_cols.saturating_sub(self.visible_cols);
        if self.scroll_col < max_scroll {
            self.scroll_col += 1;
        }
        if total_cols > 0 && self.cursor_col < total_cols - 1 {
            self.cursor_col += 1;
        }
    }

    pub fn scroll_view_up(&mut self)
        ensures
            *final(self) == old(self).view_up(),
    {
        self.scroll_row = self.scroll_row.saturating_sub(1);
        if self.cursor_row > 0 {
            self.cursor_row -= 1;
        }
    }

    pub fn scroll_view_down(&mut self, total_rows: usize)
        ensures
            *final(self) == old(self).view_down(total_rows as int),
    {
        let max_scroll = total_rows.saturating_sub(self.visible_rows);
        if self.scroll_row < max_scroll {
            self.scroll_row += 1;
        }
        if total_rows > 0 && self.cursor_row < total_rows - 1 {
            self.cursor_row += 1;
        }
    }

    // --- Internal helpers ---

    fn ensure_row_visible(&mut self)
        ensures
            *final(self) == old(self).row_shown(),
    {
        if self.cursor_row < self.scroll_row {
            self.scroll_row = self.cursor_row;
        }
        if self.visible_rows > 0 && self.cursor_row - self.scroll_row >= self.visible_rows {
            self.scroll_row = self.cursor_row - self.visible_rows + 1;
        }
    }

    fn ensure_col_visible(&mut self)
        ensures
            *final(self) == old(self).col_shown(),
    {
        if self.cursor_col < self.scroll_col {
            self.scroll_col = self.cursor_col;
        }
        if self.visible_cols > 0 && self.cursor_col - self.scroll_col >= self.visible_cols {
            self.scroll_col = self.cursor_col - self.visible_cols + 1;
        }
    }
}

// ---------------------------------------------------------------------------
// What holds of every movement
// ---------------------------------------------------------------------------

impl Viewport {
    /// The cursor is on a cell of a table of `rows` rows and `cols` columns.
    pub open spec fn in_grid(self, rows: int, cols: int) -> bool {
        &&& self.cursor_row < rows
        &&& self.cursor_col < cols
    }

    /// The cursor row is one of the visible rows.
    pub open spec fn row_visible(self) -> bool {
        self.scroll_row <= self.cursor_row < self.scroll_row + self.visible_rows
    }

    /// The cursor column is one of the visible columns.
    pub open spec fn col_visible(self) -> bool {
        self.scroll_col <= self.cursor_col < self.scroll_col + self.visible_cols
    }

    /// `other` differs from this viewport in no dimension.
    pub open spec fn same_dimensions(self, other: Viewport) -> bool {
        &&& self.visible_rows == other.visible_rows
        &&& self.visible_cols == other.visible_cols
        &&& self.row_num_width == other.row_num_width
    }

    /// `next` is reached from this viewport by one movement in a table of
    /// `rows` rows and `cols` columns.
    pub open spec fn moves_to(self, rows: int, cols: int, next: Viewport) -> bool {
        ||| next == self.left()
        ||| next == self.right(cols)
        ||| next == self.up()
        ||| next == self.down(rows)
        ||| next == self.paged_up()
        ||| next == self.paged_down(rows)
        ||| next == self.at_top()
        ||| next == self.at_bottom(rows)
        ||| next == self.at_col_start()
        ||| next == self.at_col_end(cols)
        ||| next == self.view_left()
        ||| next == self.view_right(cols)
        ||| next == self.view_up()
        ||| next == self.view_down(rows)
    }
}

/// No movement takes the cursor off the table or changes the dimensions.
pub proof fn lemma_movement_stays_in_grid(v: Viewport, rows: int, cols: int, next: Viewport)
    requires
        rows <= usize::MAX,
        cols <= usize::MAX,
        v.in_grid(rows, cols),
        v.moves_to(rows, cols, next),
    ensures
        next.in_grid(rows, cols),
        v.same_dimensions(next),
{
}

/// Where the cursor is in sight, every movement keeps it in sight.
pub proof fn lemma_movement_keeps_cursor_visible(
    v: Viewport,
    rows: int,
    cols: int,
    next: Viewport,
)
    requires
        rows <= usize::MAX,
        cols <= usize::MAX,
        v.in_grid(rows, cols),
        v.row_visible(),
        v.col_visible(),
        v.moves_to(rows, cols, next),
    ensures
        next.row_visible(),
        next.col_visible(),
{
}

/// Moving the cursor brings it into sight wherever the view was, in a view that
/// has a row and a column.
pub proof fn lemma_cursor_movement_shows_cursor(v: Viewport, rows: int, cols: int)
    requires
        0 < rows <= usize::MAX,
        0 < cols <= usize::MAX,
        v.visible_rows > 0,
        v.visible_cols > 0,
    ensures
        v.up().row_visible(),
        v.down(rows).row_visible(),
        v.paged_up().row_visible(),
        v.paged_down(rows).row_visible(),
        v.at_top().row_visible(),
        v.at_bottom(rows).row_visible(),
        v.left().col_visible(),
        v.right(cols).col_visible(),
        v.at_col_start().col_visible(),
        v.at_col_end(cols).col_visible(),
{
}

/// Scrolling the view leaves the cursor at the same place on the screen, as
/// long as neither has reached the edge of the table.
pub proof fn lemma_view_scroll_keeps_screen_position(v: Viewport, rows: int, cols: int)
    requires
        rows <= usize::MAX,
        cols <= usize::MAX,
    ensures
        v.cursor_col > 0 && v.scroll_col > 0 ==> v.view_left().cursor_col
            - v.view_left().scroll_col == v.cursor_col - v.scroll_col,
        v.cursor_col + 1 < cols && v.scroll_col < cols - v.visible_cols ==> v.view_right(
            cols,
        ).cursor_col - v.view_right(cols).scroll_col == v.cursor_col - v.scroll_col,
        v.cursor_row > 0 && v.scroll_row > 0 ==> v.view_up().cursor_row - v.view_up().scroll_row
            == v.cursor_row - v.scroll_row,
        v.cursor_row + 1 < rows && v.scroll_row < rows - v.visible_rows ==> v.view_down(
            rows,
        ).cursor_row - v.view_down(rows).scroll_row == v.cursor_row - v.scroll_row,
{
}

/// Scrolling the view back undoes a scroll that neither the view nor the cursor
/// was too close to the edge for.
pub proof fn lemma_view_scroll_undone(v: Viewport, rows: int, cols: int)
    requires
        rows <= usize::MAX,
        cols <= usize::MAX,
    ensures
        v.cursor_col + 1 < cols && v.scroll_col < cols - v.visible_cols ==> v.view_right(
            cols,
        ).view_left() == v,
        v.cursor_row + 1 < rows && v.scroll_row < rows - v.visible_rows ==> v.view_down(
            rows,
        ).view_up() == v,
        v.cursor_col > 0 && v.scroll_col > 0 && v.cursor_col < cols && v.scroll_col <= cols
            - v.visible_cols ==> v.view_left().view_right(cols) == v,
        v.cursor_row > 0 && v.scroll_row > 0 && v.cursor_row < rows && v.scroll_row <= rows
            - v.visible_rows ==> v.view_up().view_down(rows) == v,
{
}

/// Moving back brings the cursor back.
pub proof fn lemma_cursor_move_undone(v: Viewport, rows: int, cols: int)
    requires
        rows <= usize::MAX,
        cols <= usize::MAX,
    ensures
        v.cursor_row + 1 < rows ==> v.down(rows).up().cursor_row == v.cursor_row,
        0 < v.cursor_row < rows ==> v.up().down(rows).cursor_row == v.cursor_row,
        v.cursor_col + 1 < cols ==> v.right(cols).left().cursor_col == v.cursor_col,
        0 < v.cursor_col < cols ==> v.left().right(cols).cursor_col == v.cursor_col,
{
}

/// A jump to an edge of the table is not changed by jumping there again, nor by
/// trying to move on beyond that edge.
pub proof fn lemma_jumps_reach_the_edge(v: Viewport, rows: int, cols: int)
    requires
        0 < rows <= usize::MAX,
        0 < cols <= usize::MAX,
    ensures
        v.at_top().at_top() == v.at_top(),
        v.at_top().up() == v.at_top(),
        v.at_bottom(rows).at_bottom(rows) == v.at_bottom(rows),
        v.at_bottom(rows).down(rows).cursor_row == rows - 1,
        v.at_col_start().left() == v.at_col_start(),
        v.at_col_end(cols).right(cols) == v.at_col_end(cols),
{
}

/// The dimensions follow from the area and the table alone.
pub proof fn lemma_resized_unique(
    v: Viewport,
    width: int,
    height: int,
    widths: Seq<usize>,
    total_rows: int,
    next1: Viewport,
    next2: Viewport,
)
    requires
        v.resized(width, height, widths, total_rows, next1),
        v.resized(width, height, widths, total_rows, next2),
    ensures
        next1 == next2,
{
    let room = data_room(width, row_number_width(total_rows));
    if room > 2 && widths.len() > 0 {
        lemma_columns_fit_unique(
            widths,
            first_column(v.scroll_col as int, widths.len() as int),
            room,
            next1.visible_cols as int,
            next2.visible_cols as int,
        );
    }
}

/// How far apart two positions are.
pub open spec fn distance(a: int, b: int) -> int {
    if a >= b {
        a - b
    } else {
        b - a
    }
}

/// The view follows the cursor no farther than it has to: from the new scroll
/// position the cursor is in sight, and from no position nearer to the old one. A view
/// without lines only follows the cursor back.
pub proof fn lemma_view_follows_cursor(v: Viewport, position: int)
    ensures
        v.visible_rows > 0 ==> v.row_shown().scroll_row <= v.cursor_row
            < v.row_shown().scroll_row + v.visible_rows,
        v.visible_rows > 0 && position <= v.cursor_row < position + v.visible_rows ==> distance(
            v.row_shown().scroll_row as int,
            v.scroll_row as int,
        ) <= distance(position, v.scroll_row as int),
        v.visible_rows == 0 ==> v.row_shown().scroll_row == (if v.cursor_row < v.scroll_row {
            v.cursor_row
        } else {
            v.scroll_row
        }),
        v.row_shown() == (Viewport { scroll_row: v.row_shown().scroll_row, ..v }),
        v.visible_cols > 0 ==> v.col_shown().scroll_col <= v.cursor_col
            < v.col_shown().scroll_col + v.visible_cols,
        v.visible_cols > 0 && position <= v.cursor_col < position + v.visible_cols ==> distance(
            v.col_shown().scroll_col as int,
            v.scroll_col as int,
        ) <= distance(position, v.scroll_col as int),
        v.visible_cols == 0 ==> v.col_shown().scroll_col == (if v.cursor_col < v.scroll_col {
            v.cursor_col
        } else {
            v.scroll_col
        }),
        v.col_shown() == (Viewport { scroll_col: v.col_shown().scroll_col, ..v }),
{
}

/// A step moves the cursor by one line, unless it is on the last line already. Where
/// the cursor is in sight, the view moves by one line at most, and by none where the
/// cursor stays in sight without. Across the direction of the step nothing moves.
pub proof fn lemma_step_moves_by_one(v: Viewport, rows: int, cols: int)
    requires
        v.in_grid(rows, cols),
        rows <= usize::MAX,
        cols <= usize::MAX,
    ensures
        v.up().cursor_row == (if v.cursor_row == 0 {
            0
        } else {
            v.cursor_row - 1
        }),
        v.down(rows).cursor_row == (if v.cursor_row == rows - 1 {
            rows - 1
        } else {
            v.cursor_row + 1
        }),
        v.left().cursor_col == (if v.cursor_col == 0 {
            0
        } else {
            v.cursor_col - 1
        }),
        v.right(cols).cursor_col == (if v.cursor_col == cols - 1 {
            cols - 1
        } else {
            v.cursor_col + 1
        }),
        v.row_visible() ==> distance(v.up().scroll_row as int, v.scroll_row as int) <= 1,
        v.row_visible() ==> distance(v.down(rows).scroll_row as int, v.scroll_row as int) <= 1,
        v.col_visible() ==> distance(v.left().scroll_col as int, v.scroll_col as int) <= 1,
        v.col_visible() ==> distance(v.right(cols).scroll_col as int, v.scroll_col as int) <= 1,
        v.row_visible() && v.cursor_row > v.scroll_row ==> v.up().scroll_row == v.scroll_row,
        v.row_visible() && v.cursor_row + 1 < v.scroll_row + v.visible_rows ==> v.down(
            rows,
        ).scroll_row == v.scroll_row,
        v.col_visible() && v.cursor_col > v.scroll_col ==> v.left().scroll_col == v.scroll_col,
        v.col_visible() && v.cursor_col + 1 < v.scroll_col + v.visible_cols ==> v.right(
            cols,
        ).scroll_col == v.scroll_col,
        v.up().cursor_col == v.down(rows).cursor_col == v.cursor_col,
        v.up().scroll_col == v.down(rows).scroll_col == v.scroll_col,
        v.left().cursor_row == v.right(cols).cursor_row == v.cursor_row,
        v.left().scroll_row == v.right(cols).scroll_row == v.scroll_row,
{
}

/// A table without rows has no cursor row to move: nothing changes.
pub proof fn lemma_no_rows_to_move(v: Viewport)
    ensures
        v.down(0) == v,
        v.at_bottom(0) == v,
{
}

/// A page moves the cursor by as many rows as are visible, or one where none is, and
/// stops at the first and at the last row. The view moves as far, and stops at the
/// first row and where the last row is the last one on the screen. A page down is
/// undone by a page up, unless it was cut short. Columns do not move.
pub proof fn lemma_page_moves_by_a_screen(v: Viewport, rows: int, cols: int)
    requires
        v.in_grid(rows, cols),
        rows <= usize::MAX,
        v.row_visible(),
    ensures
        v.cursor_row + v.visible_rows < rows ==> v.paged_down(rows).cursor_row == v.cursor_row
            + v.visible_rows,
        v.cursor_row + v.visible_rows >= rows ==> v.paged_down(rows).cursor_row == rows - 1,
        v.cursor_row >= v.visible_rows ==> v.paged_up().cursor_row == v.cursor_row
            - v.visible_rows,
        v.cursor_row < v.visible_rows ==> v.paged_up().cursor_row == 0,
        v.scroll_row + 2 * v.visible_rows <= rows ==> {
            &&& v.paged_down(rows).scroll_row == v.scroll_row + v.visible_rows
            &&& v.paged_down(rows).paged_up() == v
        },
        v.scroll_row + 2 * v.visible_rows > rows && v.scroll_row + v.visible_rows <= rows
            ==> v.paged_down(rows).scroll_row + v.visible_rows == rows,
        v.scroll_row >= v.visible_rows ==> v.paged_up().scroll_row == v.scroll_row
            - v.visible_rows,
        v.scroll_row < v.visible_rows ==> v.paged_up().scroll_row == 0,
        v.paged_down(rows).cursor_col == v.paged_up().cursor_col == v.cursor_col,
        v.paged_down(rows).scroll_col == v.paged_up().scroll_col == v.scroll_col,
{
}

/// In a view without rows, a page is one row.
pub proof fn lemma_page_without_view(v: Viewport, rows: int)
    requires
        v.visible_rows == 0,
        v.cursor_row < rows <= usize::MAX,
    ensures
        v.paged_down(rows).cursor_row == v.down(rows).cursor_row,
        v.paged_up().cursor_row == v.up().cursor_row,
{
}

/// Jumps go to the first and the last row and column. Of the last rows as many are
/// shown as fit, and the last column comes into sight with the view moved no farther
/// than it has to.
pub proof fn lemma_jumps_go_to_the_edges(v: Viewport, rows: int, cols: int)
    requires
        0 < rows <= usize::MAX,
        0 < cols <= usize::MAX,
    ensures
        v.at_top().cursor_row == 0 && v.at_top().scroll_row == 0,
        v.at_bottom(rows).cursor_row == rows - 1,
        v.visible_rows <= rows ==> v.at_bottom(rows).scroll_row + v.visible_rows == rows,
        v.visible_rows > rows ==> v.at_bottom(rows).scroll_row == 0,
        v.at_col_start().cursor_col == 0 && v.at_col_start().scroll_col == 0,
        v.at_col_end(cols).cursor_col == cols - 1,
        v.scroll_col + v.visible_cols >= cols && v.scroll_col < cols ==> v.at_col_end(
            cols,
        ).scroll_col == v.scroll_col,
        0 < v.visible_cols && v.scroll_col + v.visible_cols < cols ==> v.at_col_end(
            cols,
        ).scroll_col + v.visible_cols == cols,
        v.at_top().cursor_col == v.at_bottom(rows).cursor_col == v.cursor_col,
        v.at_top().scroll_col == v.at_bottom(rows).scroll_col == v.scroll_col,
        v.at_col_start().cursor_row == v.at_col_end(cols).cursor_row == v.cursor_row,
        v.at_col_start().scroll_row == v.at_col_end(cols).scroll_row == v.scroll_row,
{
}

/// Scrolling moves the view by one line, unless it is at the edge of the table, and
/// takes the cursor along, unless it is on the edge.
pub proof fn lemma_view_scrolls_by_one(v: Viewport, rows: int, cols: int)
    requires
        v.in_grid(rows, cols),
        rows <= usize::MAX,
        cols <= usize::MAX,
    ensures
        v.scroll_row > 0 ==> v.view_up().scroll_row == v.scroll_row - 1,
        v.scroll_row == 0 ==> v.view_up().scroll_row == 0,
        v.cursor_row > 0 ==> v.view_up().cursor_row == v.cursor_row - 1,
        v.cursor_row == 0 ==> v.view_up().cursor_row == 0,
        v.scroll_row + v.visible_rows < rows ==> v.view_down(rows).scroll_row == v.scroll_row + 1,
        v.scroll_row + v.visible_rows >= rows ==> v.view_down(rows).scroll_row == v.scroll_row,
        v.cursor_row < rows - 1 ==> v.view_down(rows).cursor_row == v.cursor_row + 1,
        v.cursor_row == rows - 1 ==> v.view_down(rows).cursor_row == v.cursor_row,
        v.scroll_col > 0 ==> v.view_left().scroll_col == v.scroll_col - 1,
        v.scroll_col == 0 ==> v.view_left().scroll_col == 0,
        v.cursor_col > 0 ==> v.view_left().cursor_col == v.cursor_col - 1,
        v.cursor_col == 0 ==> v.view_left().cursor_col == 0,
        v.scroll_col + v.visible_cols < cols ==> v.view_right(cols).scroll_col == v.scroll_col + 1,
        v.scroll_col + v.visible_cols >= cols ==> v.view_right(cols).scroll_col == v.scroll_col,
        v.cursor_col < cols - 1 ==> v.view_right(cols).cursor_col == v.cursor_col + 1,
        v.cursor_col == cols - 1 ==> v.view_right(cols).cursor_col == v.cursor_col,
        v.view_up().cursor_col == v.view_down(rows).cursor_col == v.cursor_col,
        v.view_up().scroll_col == v.view_down(rows).scroll_col == v.scroll_col,
        v.view_left().cursor_row == v.view_right(cols).cursor_row == v.cursor_row,
        v.view_left().scroll_row == v.view_right(cols).scroll_row == v.scroll_row,
{
}

/// A viewport begins in the first cell of its table, whatever was seen before.
pub proof fn lemma_view_begins_at_the_first_cell()
    ensures
        Viewport::initial().cursor_row == 0 && Viewport::initial().cursor_col == 0,
        Viewport::initial().scroll_row == 0 && Viewport::initial().scroll_col == 0,
{
}

/// The sum of numbers.
pub open spec fn total(numbers: Seq<int>) -> int
    decreases numbers.len(),
{
    if numbers.len() == 0 {
        0
    } else {
        total(numbers.drop_last()) + numbers.last()
    }
}

/// The columns that are shown fit beside the row numbers, each with three cells behind
/// it, and one more would not fit; only a first column is shown though it is too wide.
/// `cells` are the cells that the columns from the first one on take.
pub proof fn lemma_shown_columns_fill_the_screen(
    v: Viewport,
    width: int,
    height: int,
    widths: Seq<usize>,
    rows: int,
    next: Viewport,
    cells: Seq<int>,
)
    requires
        v.resized(width, height, widths, rows, next),
        v.scroll_col < widths.len(),
        cells.len() == widths.len() - v.scroll_col,
        forall|i: int|
            0 <= i < cells.len() ==> #[trigger] cells[i] == widths[v.scroll_col + i] + 3,
    ensures
        next.cursor_row == v.cursor_row && next.cursor_col == v.cursor_col,
        next.scroll_row == v.scroll_row && next.scroll_col == v.scroll_col,
        height >= 1 ==> next.visible_rows == height - 1,
        height < 1 ==> next.visible_rows == 0,
        next.visible_cols <= cells.len(),
        width - next.row_num_width - 4 <= 2 ==> next.visible_cols == 0,
        width - next.row_num_width - 4 > 2 ==> {
            &&& next.visible_cols >= 1
            &&& next.visible_cols > 1 ==> total(cells.take(next.visible_cols as int)) <= width
                - next.row_num_width - 4
            &&& next.visible_cols < cells.len() ==> total(cells.take(next.visible_cols + 1))
                > width - next.row_num_width - 4
        },
{
    let n = next.visible_cols as int;
    lemma_span_is_total(widths, v.scroll_col as int, cells, n);
    if n < cells.len() {
        lemma_span_is_total(widths, v.scroll_col as int, cells, n + 1);
    }
}

proof fn lemma_span_is_total(widths: Seq<usize>, start: int, cells: Seq<int>, n: int)
    requires
        0 <= start,
        0 <= n <= cells.len(),
        cells.len() == widths.len() - start,
        forall|i: int| 0 <= i < cells.len() ==> #[trigger] cells[i] == widths[start + i] + 3,
    ensures
        span(widths, start, n) == total(cells.take(n)),
    decreases n,
{
    if n > 0 {
        lemma_span_is_total(widths, start, cells, n - 1);
        assert(cells.take(n).drop_last() =~= cells.take(n - 1));
        assert(cells[n - 1] == widths[start + n - 1] + 3);
    }
}

/// The column of row numbers has room for the number of every row and one cell more,
/// up to seven digits. It is three cells wide at least, and no wider than it has to be.
pub proof fn lemma_row_numbers_fit(
    v: Viewport,
    width: int,
    height: int,
    widths: Seq<usize>,
    rows: int,
    next: Viewport,
    number: int,
)
    requires
        v.resized(width, height, widths, rows, next),
        0 <= number <= rows < 10_000_000,
    ensures
        text::decimal(number).len() + 1 <= next.row_num_width,
        next.row_num_width == 3 || next.row_num_width == text::decimal(rows).len() + 1,
        3 <= next.row_num_width <= 8,
{
    text::lemma_longer_numbers(number as nat, rows as nat);
    text::lemma_seven_digits(rows as nat);
    assert(text::decimal(number) =~= text::digits(number as nat));
    assert(text::decimal(rows) =~= text::digits(rows as nat));
}

/// A page has as many rows as are visible, or one where none is.
pub proof fn lemma_page_is_the_screen(v: Viewport)
    ensures
        v.visible_rows > 0 ==> v.page() == v.visible_rows,
        v.visible_rows == 0 ==> v.page() == 1,
{
}

/// A table without columns has no cursor column to move. A view that is scrolled beyond
/// the last column counts as one that begins with it.
pub proof fn lemma_views_beyond_the_columns(
    v: Viewport,
    width: int,
    height: int,
    widths: Seq<usize>,
    rows: int,
    next: Viewport,
)
    requires
        v.resized(width, height, widths, rows, next),
        v.scroll_col >= widths.len(),
    ensures
        v.right(0).cursor_col == v.cursor_col,
        v.at_col_end(0).cursor_col == v.cursor_col,
        width - next.row_num_width - 4 > 2 ==> next.visible_cols == 1,
        width - next.row_num_width - 4 <= 2 ==> next.visible_cols == 0,
{
}

/// Pages move the cursor by a screen wherever the view is.
pub proof fn lemma_pages_from_anywhere(v: Viewport, rows: int)
    requires
        v.cursor_row < rows <= usize::MAX,
        v.visible_rows > 0,
    ensures
        v.paged_down(rows).cursor_row == (if v.cursor_row + v.visible_rows < rows {
            v.cursor_row + v.visible_rows
        } else {
            rows - 1
        }),
        v.paged_up().cursor_row == (if v.cursor_row >= v.visible_rows {
            v.cursor_row - v.visible_rows
        } else {
            0
        }),
        v.paged_down(rows).row_visible(),
        v.paged_up().row_visible(),
{
}

} // verus!
