//! What the screen shows.
use crate::app::App;
use crate::canvas;
use crate::canvas::{
    buffer_right, fill_box, put_char, put_column, put_line, put_row, put_text, rect_bottom, rect_right, Picture,
    Rect, Style,
};
use crate::colors::{Color, ColorPalette};
use crate::numbers;
use crate::table;
use crate::table::{DataTable, RowRun};
use crate::text;
use crate::text::{decimal_text, push_decimal, push_right_aligned};
use crate::viewport;
use crate::viewport::{Viewport, COL_GAP};
use crate::width;
use ratatui::buffer::Buffer;
use vstd::prelude::*;

verus! {

// ---------------------------------------------------------------------------
// Help screen
// ---------------------------------------------------------------------------

/// Width of the labels of the help screen.
pub const HELP_LABEL_WIDTH: i64 = 18;

/// Cells between a label and its description.
pub const HELP_GAP: i64 = 3;

/// Width of the descriptions.
pub const HELP_DESCRIPTION_WIDTH: i64 = 36;

/// Help content: (label, description) pairs.  A label of "" is a section header.
pub open spec fn help_lines() -> Seq<(Seq<char>, Seq<char>)> {
    seq![
        (""@, "Navigation"@),
        ("h / Left"@, "Move cursor left one column"@),
        ("j / Down"@, "Move cursor down one row"@),
        ("k / Up"@, "Move cursor up one row"@),
        ("l / Right"@, "Move cursor right one column"@),
        (""@, ""@),
        (""@, "View Scroll  (cursor moves with view)"@),
        ("H / Shift+Left"@, "Scroll view left one column"@),
        ("J / Shift+Down"@, "Scroll view down one row"@),
        ("K / Shift+Up"@, "Scroll view up one row"@),
        ("L / Shift+Right"@, "Scroll view right one column"@),
        (""@, ""@),
        (""@, "Jump"@),
        ("gg"@, "Jump to first row  (press g twice)"@),
        ("G"@, "Jump to last row"@),
        ("0"@, "Jump to first column"@),
        ("$"@, "Jump to last column"@),
        ("Home"@, "Jump to first row"@),
        ("End"@, "Jump to last row"@),
        (""@, ""@),
        (""@, "Page"@),
        ("Ctrl+F"@, "Page down"@),
        ("Ctrl+B"@, "Page up"@),
        ("PageDown"@, "Page down"@),
        ("PageUp"@, "Page up"@),
        (""@, ""@),
        (""@, "Sheet  (multi-sheet Excel only)"@),
        ("[ / ]"@, "Previous / next sheet"@),
        (""@, ""@),
        (""@, "Other"@),
        ("?"@, "Show / hide this help screen"@),
        ("Esc / q"@, "Quit dview"@),
        ("Ctrl+C"@, "Quit dview"@),
    ]
}

/// Help content: (label, description) pairs.
fn help_table() -> (lines: [(&'static str, &'static str); 33])
    ensures
        lines@.len() == help_lines().len(),
        forall|i: int|
            0 <= i < lines@.len() ==> (#[trigger] lines@[i]).0@ == help_lines()[i].0 && lines@[i].1@
                == help_lines()[i].1,
{
    [
        ("", "Navigation"),
        ("h / Left", "Move cursor left one column"),
        ("j / Down", "Move cursor down one row"),
        ("k / Up", "Move cursor up one row"),
        ("l / Right", "Move cursor right one column"),
        ("", ""),
        ("", "View Scroll  (cursor moves with view)"),
        ("H / Shift+Left", "Scroll view left one column"),
        ("J / Shift+Down", "Scroll view down one row"),
        ("K / Shift+Up", "Scroll view up one row"),
        ("L / Shift+Right", "Scroll view right one column"),
        ("", ""),
        ("", "Jump"),
        ("gg", "Jump to first row  (press g twice)"),
        ("G", "Jump to last row"),
        ("0", "Jump to first column"),
        ("$", "Jump to last column"),
        ("Home", "Jump to first row"),
        ("End", "Jump to last row"),
        ("", ""),
        ("", "Page"),
        ("Ctrl+F", "Page down"),
        ("Ctrl+B", "Page up"),
        ("PageDown", "Page down"),
        ("PageUp", "Page up"),
        ("", ""),
        ("", "Sheet  (multi-sheet Excel only)"),
        ("[ / ]", "Previous / next sheet"),
        ("", ""),
        ("", "Other"),
        ("?", "Show / hide this help screen"),
        ("Esc / q", "Quit dview"),
        ("Ctrl+C", "Quit dview"),
    ]
}

/// The box of the help screen: its left column, top row, width and height. It
/// is as large as its contents, as far as there is room, and in the middle.
pub struct HelpBox {
    pub x: int,
    pub y: int,
    pub width: int,
    pub height: int,
}

/// The box of the help screen.
pub open spec fn help_box(area: Rect) -> HelpBox {
    let width = numbers::smaller(
        HELP_LABEL_WIDTH + HELP_GAP + HELP_DESCRIPTION_WIDTH + 2,
        numbers::larger(0, area.width - 2),
    );
    let height = numbers::smaller(
        help_lines().len() as int + 5,
        numbers::larger(0, area.height - 2),
    );
    HelpBox {
        x: area.x + numbers::larger(0, area.width - width) / 2,
        y: area.y + numbers::larger(0, area.height - height) / 2,
        width,
        height,
    }
}

/// `p` with the frame of the box.
pub open spec fn with_frame(p: Picture, b: HelpBox, style: Style) -> Picture {
    let right = b.x + b.width - 1;
    let bottom = b.y + b.height - 1;
    let p = canvas::with_char(p, b.x, b.y, '┌', style);
    let p = canvas::with_chars(p, b.x + 1, right, b.y, b.y + 1, '─', style);
    let p = canvas::with_char(p, right, b.y, '┐', style);
    let p = canvas::with_char(p, b.x, bottom, '└', style);
    let p = canvas::with_chars(p, b.x + 1, right, bottom, bottom + 1, '─', style);
    let p = canvas::with_char(p, right, bottom, '┘', style);
    let p = canvas::with_chars(p, b.x, b.x + 1, b.y + 1, bottom, '│', style);
    canvas::with_chars(p, right, right + 1, b.y + 1, bottom, '│', style)
}

/// `p` with one line of help in row `y` of the box: a section header, or a label
/// that ends where all labels end and its description.
pub open spec fn with_help_line(
    p: Picture,
    b: HelpBox,
    y: int,
    line: (Seq<char>, Seq<char>),
    palette: ColorPalette,
) -> Picture {
    let right = b.x + b.width - 1;
    let bg = palette.header_bg;
    if line.0.len() == 0 {
        canvas::with_line(p, b.x + 2, y, line.1, right, Style { fg: palette.row_num_fg, bg })
    } else {
        let p = canvas::with_line(
            p,
            b.x + 2,
            y,
            text::right_aligned(line.0, HELP_LABEL_WIDTH as int),
            right,
            Style { fg: palette.color_of(0), bg },
        );
        canvas::with_line(
            p,
            b.x + 2 + HELP_LABEL_WIDTH + HELP_GAP,
            y,
            line.1,
            right,
            Style { fg: palette.header_fg, bg },
        )
    }
}

/// `p` with the first `n` lines of help, from the second row of the box on, as
/// far as the frame leaves room.
pub open spec fn with_help_lines(p: Picture, b: HelpBox, n: int, palette: ColorPalette) -> Picture
    decreases n,
{
    if n <= 0 {
        p
    } else {
        let p = with_help_lines(p, b, n - 1, palette);
        if b.y + n < b.y + b.height - 1 {
            with_help_line(p, b, b.y + n, help_lines()[n - 1], palette)
        } else {
            p
        }
    }
}

/// The footer of the help screen.
pub open spec fn help_footer() -> Seq<char> {
    " Press Esc or ? to close help "@
}

/// The help screen.
pub open spec fn help_picture(p: Picture, area: Rect, palette: ColorPalette) -> Picture {
    let b = help_box(area);
    let bg = palette.header_bg;
    let style = Style { fg: palette.header_fg, bg };
    let p = canvas::with_box(
        p,
        area.x as int,
        canvas::right_of(area),
        area.y as int,
        canvas::bottom_of(area),
        bg,
    );
    let p = with_frame(p, b, style);
    let p = canvas::with_line(p, b.x + 2, b.y, " Help "@, b.x + b.width - 1, style);
    let p = with_help_lines(p, b, help_lines().len() as int, palette);
    canvas::with_line(
        p,
        b.x + 1 + numbers::larger(0, b.width - 2 - help_footer().len()) / 2,
        b.y + b.height - 2,
        help_footer(),
        b.x + b.width - 1,
        Style { fg: palette.row_num_fg, bg },
    )
}

/// Draws the frame of the box.
fn render_frame(buf: &mut Buffer, x: i64, y: i64, width: i64, height: i64, style: Style)
    requires
        0 <= x <= 0x2_0000,
        0 <= y <= 0x2_0000,
        0 <= width <= 0x2_0000,
        0 <= height <= 0x2_0000,
    ensures
        canvas::picture_of(*final(buf)) == with_frame(
            canvas::picture_of(*old(buf)),
            HelpBox { x: x as int, y: y as int, width: width as int, height: height as int },
            style,
        ),
        canvas::area_of(*final(buf)) == canvas::area_of(*old(buf)),
{
    let right = x + width - 1;
    let bottom = y + height - 1;
    // Top edge.
    put_char(buf, x, y, '┌', style);
    put_row(buf, x + 1, right, y, '─', style);
    put_char(buf, right, y, '┐', style);
    // Bottom edge.
    put_char(buf, x, bottom, '└', style);
    put_row(buf, x + 1, right, bottom, '─', style);
    put_char(buf, right, bottom, '┘', style);
    // Side edges.
    put_column(buf, x, y + 1, bottom, '│', style);
    put_column(buf, right, y + 1, bottom, '│', style);
}

/// Draws one line of help.
fn render_help_line(
    buf: &mut Buffer,
    x: i64,
    right: i64,
    y: i64,
    label: &str,
    desc: &str,
    palette: &ColorPalette,
)
    requires
        0 <= x <= 0x2_0000,
        right <= 0x4_0000,
        palette.column_colors@.len() > 0,
    ensures
        forall|b: HelpBox|
            b.x == x && b.x + b.width - 1 == right ==> canvas::picture_of(*final(buf))
                == #[trigger] with_help_line(
                canvas::picture_of(*old(buf)),
                b,
                y as int,
                (label@, desc@),
                *palette,
            ),
        canvas::area_of(*final(buf)) == canvas::area_of(*old(buf)),
{
    let bg = palette.header_bg;
    if label.is_empty() {
        // Section header, or a blank separator line.
        put_line(buf, x + 2, y, desc, right, Style { fg: palette.row_num_fg, bg });
    } else {
        // Key label — right-aligned within the label width.
        let mut aligned = String::new();
        push_right_aligned(&mut aligned, label, HELP_LABEL_WIDTH as usize);
        assert(aligned@ =~= text::right_aligned(label@, HELP_LABEL_WIDTH as int));
        let fg = palette.column_color(0);
        put_line(buf, x + 2, y, aligned.as_str(), right, Style { fg, bg });
        // Description.
        put_line(
            buf,
            x + 2 + HELP_LABEL_WIDTH + HELP_GAP,
            y,
            desc,
            right,
            Style { fg: palette.header_fg, bg },
        );
    }
}

/// Draws the help screen.
pub fn render_help_screen(buf: &mut Buffer, area: Rect, palette: &ColorPalette)
    requires
        palette.column_colors@.len() > 0,
    ensures
        canvas::picture_of(*final(buf)) == help_picture(
            canvas::picture_of(*old(buf)),
            area,
            *palette,
        ),
        canvas::area_of(*final(buf)) == canvas::area_of(*old(buf)),
{
    let bg = palette.header_bg;
    let style = Style { fg: palette.header_fg, bg };
    let lines = help_table();
    let footer = " Press Esc or ? to close help ";

    // Fill background.
    fill_box(buf, area.x as i64, rect_right(area), area.y as i64, rect_bottom(area), bg);

    // Box dimensions, clamped to the terminal.
    let inner_w = HELP_LABEL_WIDTH + HELP_GAP + HELP_DESCRIPTION_WIDTH + 2;
    let inner_h: i64 = 33 + 5;
    let room_w: i64 = if area.width > 2 {
        area.width as i64 - 2
    } else {
        0
    };
    let room_h: i64 = if area.height > 2 {
        area.height as i64 - 2
    } else {
        0
    };
    let box_w: i64 = if inner_w <= room_w {
        inner_w
    } else {
        room_w
    };
    let box_h: i64 = if inner_h <= room_h {
        inner_h
    } else {
        room_h
    };
    let ox: i64 = area.x as i64 + (area.width as i64 - box_w) / 2;
    let oy: i64 = area.y as i64 + (area.height as i64 - box_h) / 2;
    let ghost b = help_box(area);
    assert(b.x == ox && b.y == oy && b.width == box_w && b.height == box_h);
    let right = ox + box_w - 1;

    render_frame(buf, ox, oy, box_w, box_h, style);

    // Title.
    put_line(buf, ox + 2, oy, " Help ", right, style);

    // Content lines.
    let ghost p = canvas::picture_of(*buf);
    let mut li: usize = 0;
    while li < 33
        invariant
            li <= 33,
            lines@.len() == 33,
            help_lines().len() == 33,
            forall|i: int|
                0 <= i < lines@.len() ==> (#[trigger] lines@[i]).0@ == help_lines()[i].0
                    && lines@[i].1@ == help_lines()[i].1,
            palette.column_colors@.len() > 0,
            0 <= ox <= 0x2_0000,
            0 <= oy <= 0x2_0000,
            0 <= box_w <= 0x1_0000,
            0 <= box_h <= 0x1_0000,
            right == ox + box_w - 1,
            b.x == ox && b.y == oy && b.width == box_w && b.height == box_h,
            canvas::picture_of(*buf) == with_help_lines(p, b, li as int, *palette),
            canvas::area_of(*buf) == canvas::area_of(*old(buf)),
        decreases 33 - li,
    {
        let y = oy + 1 + li as i64;
        if y < oy + box_h - 1 {
            let (label, desc) = lines[li];
            render_help_line(buf, ox, right, y, label, desc, palette);
        }
        li = li + 1;
    }

    // Footer.
    let footer_len = footer.unicode_len() as i64;
    proof {
        reveal_strlit(" Press Esc or ? to close help ");
    }
    let pad: i64 = if box_w - 2 > footer_len {
        (box_w - 2 - footer_len) / 2
    } else {
        0
    };
    put_line(
        buf,
        ox + 1 + pad,
        oy + box_h - 2,
        footer,
        right,
        Style { fg: palette.row_num_fg, bg },
    );
}

// ---------------------------------------------------------------------------
// Column position calculation
// ---------------------------------------------------------------------------

/// The cells of a column: its width, or 4 for a column whose width is not known.
pub open spec fn column_width(widths: Seq<usize>, col: int) -> int {
    if 0 <= col < widths.len() {
        widths[col] as int
    } else {
        4
    }
}

/// Where the `k`-th of the columns from `first` on begins, if the first one
/// begins at `x`.
pub open spec fn column_x(widths: Seq<usize>, first: int, x: int, k: int) -> int
    decreases k,
{
    if k <= 0 {
        x
    } else {
        column_x(widths, first, x, k - 1) + column_width(widths, first + k - 1) + COL_GAP
    }
}

/// How many of the `n` columns from `first` on fit before column `right`,
/// counted from the `k`-th one on: all before the first that does not fit.
pub open spec fn columns_before(
    widths: Seq<usize>,
    first: int,
    x: int,
    right: int,
    n: int,
    k: int,
) -> int
    decreases n - k,
{
    if k >= n || column_x(widths, first, x, k) + column_width(widths, first + k) > right {
        k
    } else {
        columns_before(widths, first, x, right, n, k + 1)
    }
}

/// Number of columns that the viewport would show.
pub open spec fn shown_columns(v: Viewport, cols: int) -> int {
    numbers::larger(
        0,
        numbers::smaller(cols, v.scroll_col + v.visible_cols) - v.scroll_col,
    )
}

/// Where things are in a table.
pub struct Layout {
    /// The first visible column.
    pub first: int,
    /// Number of visible columns.
    pub columns: int,
    /// Column of the screen where the first visible column begins.
    pub x: int,
    /// Where the row numbers begin, and their width.
    pub number_x: int,
    pub number_width: int,
    /// Rows of the screen that are left for data rows.
    pub rows: int,
}

/// The layout of a table of `cols` columns of these widths in `area`: the columns
/// that the viewport shows, as far as they fit, behind the row numbers.
pub open spec fn layout_of(area: Rect, v: Viewport, widths: Seq<usize>, cols: int) -> Layout {
    let number_x = area.x + 1;
    let number_width = numbers::larger(v.row_num_width as int, 3);
    let x = number_x + number_width + COL_GAP;
    Layout {
        first: v.scroll_col as int,
        columns: columns_before(
            widths,
            v.scroll_col as int,
            x,
            canvas::right_of(area),
            shown_columns(v, cols),
            0,
        ),
        x,
        number_x,
        number_width,
        rows: numbers::larger(0, area.height - 1),
    }
}

/// Every visible column ends within the area, and the next one would not, if
/// there is one.
pub proof fn lemma_visible_columns_fit(area: Rect, v: Viewport, widths: Seq<usize>, cols: int)
    ensures
        ({
            let layout = layout_of(area, v, widths, cols);
            let right = canvas::right_of(area);
            &&& 0 <= layout.columns <= shown_columns(v, cols)
            &&& forall|k: int|
                0 <= k < layout.columns ==> #[trigger] column_x(
                    widths,
                    layout.first,
                    layout.x,
                    k,
                ) + column_width(widths, layout.first + k) <= right
            &&& layout.columns < shown_columns(v, cols) ==> column_x(
                widths,
                layout.first,
                layout.x,
                layout.columns,
            ) + column_width(widths, layout.first + layout.columns) > right
        }),
{
    let layout = layout_of(area, v, widths, cols);
    lemma_columns_before(
        widths,
        layout.first,
        layout.x,
        canvas::right_of(area),
        shown_columns(v, cols),
        0,
    );
}

proof fn lemma_columns_before(
    widths: Seq<usize>,
    first: int,
    x: int,
    right: int,
    n: int,
    k: int,
)
    requires
        0 <= k <= n,
    ensures
        ({
            let count = columns_before(widths, first, x, right, n, k);
            &&& k <= count <= n
            &&& forall|j: int|
                k <= j < count ==> #[trigger] column_x(widths, first, x, j) + column_width(
                    widths,
                    first + j,
                ) <= right
            &&& count < n ==> column_x(widths, first, x, count) + column_width(
                widths,
                first + count,
            ) > right
        }),
    decreases n - k,
{
    if k < n && column_x(widths, first, x, k) + column_width(widths, first + k) <= right {
        lemma_columns_before(widths, first, x, right, n, k + 1);
    }
}

/// Where things are in a table.
struct ColLayout {
    /// Column of the screen where each visible column begins.
    xs: Vec<i64>,
    /// The first visible column.
    first: usize,
    /// Where the row numbers begin, and their width.
    row_num_x: i64,
    row_num_w: usize,
    /// Rows of the screen that are left for data rows.
    visible_rows: usize,
}

impl ColLayout {
    /// This is the layout of columns of these widths.
    spec fn shows(self, layout: Layout, widths: Seq<usize>) -> bool {
        &&& self.first == layout.first
        &&& self.xs@.len() == layout.columns
        &&& forall|k: int|
            0 <= k < self.xs@.len() ==> #[trigger] self.xs@[k] == column_x(
                widths,
                layout.first,
                layout.x,
                k,
            )
        &&& forall|k: int| 0 <= k < self.xs@.len() ==> 0 <= #[trigger] self.xs@[k] <= 0x2_0000
        &&& self.row_num_x == layout.number_x
        &&& self.row_num_w == layout.number_width
        &&& self.visible_rows == layout.rows
        &&& 0 <= self.row_num_x <= 0x1_0000
        &&& self.row_num_w <= 0x1_0000
        &&& self.visible_rows <= 0x1_0000
    }
}

/// The cells of a column.
fn cells_of_column(widths: &Vec<usize>, col: usize) -> (w: i128)
    ensures
        w == column_width(widths@, col as int),
        0 <= w <= 0xffff_ffff_ffff_ffff,
{
    if col < widths.len() {
        widths[col] as i128
    } else {
        4
    }
}

/// Lays out a table of `cols` columns of these widths.
fn compute_layout(area: Rect, vp: &Viewport, widths: &Vec<usize>, cols: usize) -> (layout:
    ColLayout)
    ensures
        layout.shows(layout_of(area, *vp, widths@, cols as int), widths@),
        layout.first + layout.xs@.len() <= cols || layout.xs@.len() == 0,
{
    // Row number position.
    let row_num_x: i64 = area.x as i64 + 1;
    let row_num_w: usize = if vp.row_num_width > 3 {
        vp.row_num_width as usize
    } else {
        3
    };
    let right = rect_right(area);
    let first = vp.scroll_col;
    let shown: usize = if first >= cols {
        0
    } else if cols - first <= vp.visible_cols {
        cols - first
    } else {
        vp.visible_cols
    };
    // Data column positions.
    let start_x: i64 = row_num_x + row_num_w as i64 + COL_GAP as i64;
    let ghost goal = columns_before(
        widths@,
        first as int,
        start_x as int,
        right as int,
        shown as int,
        0,
    );
    let mut xs: Vec<i64> = Vec::new();
    let mut x: i64 = start_x;
    let mut k: usize = 0;
    while k < shown
        invariant_except_break
            goal == columns_before(
                widths@,
                first as int,
                start_x as int,
                right as int,
                shown as int,
                k as int,
            ),
        invariant
            k <= shown,
            first + shown <= usize::MAX,
            xs@.len() == k,
            right <= 0x2_0000,
            0 <= x <= 0x6_0000,
            x == column_x(widths@, first as int, start_x as int, k as int),
            forall|j: int|
                0 <= j < xs@.len() ==> #[trigger] xs@[j] == column_x(
                    widths@,
                    first as int,
                    start_x as int,
                    j,
                ),
            forall|j: int| 0 <= j < xs@.len() ==> 0 <= #[trigger] xs@[j] <= 0x2_0000,
        ensures
            k == goal,
        decreases shown - k,
    {
        let w = cells_of_column(widths, first + k);
        if x as i128 + w > right as i128 {
            break;
        }
        xs.push(x);
        x = x + w as i64 + COL_GAP as i64;
        k = k + 1;
    }
    let visible_rows: usize = if area.height > 1 {
        area.height as usize - 1
    } else {
        0
    };
    ColLayout { xs, first, row_num_x, row_num_w, visible_rows }
}

// ---------------------------------------------------------------------------
// Table rendering
// ---------------------------------------------------------------------------

/// What is shown of a table.
pub struct TableView {
    pub headers: Seq<Seq<char>>,
    pub widths: Seq<usize>,
    pub total_rows: int,
    /// The rows from the first visible one on.
    pub rows: Seq<Seq<Seq<char>>>,
    pub viewport: Viewport,
    pub palette: ColorPalette,
}

impl TableView {
    /// The text of a cell: nothing where the row is too short or not there.
    pub open spec fn cell(self, row: int, col: int) -> Seq<char> {
        let i = row - self.viewport.scroll_row;
        if 0 <= i < self.rows.len() && 0 <= col < self.rows[i].len() {
            self.rows[i][col]
        } else {
            Seq::empty()
        }
    }

    /// The background of a row: rows alternate.
    pub open spec fn row_bg(self, row: int) -> Color {
        if row % 2 == 0 {
            self.palette.row_bg_even
        } else {
            self.palette.row_bg_odd
        }
    }

    /// The style of the number of a row.
    pub open spec fn number_style(self, row: int) -> Style {
        if row == self.viewport.cursor_row {
            Style { fg: self.palette.cursor_fg, bg: self.palette.cursor_bg }
        } else {
            Style { fg: self.palette.row_num_fg, bg: self.row_bg(row) }
        }
    }

    /// The style of a cell.
    pub open spec fn cell_style(self, row: int, col: int) -> Style {
        if row == self.viewport.cursor_row && col == self.viewport.cursor_col {
            Style { fg: self.palette.cursor_fg, bg: self.palette.cursor_bg }
        } else {
            Style { fg: self.palette.color_of(col), bg: self.row_bg(row) }
        }
    }

    /// The layout of the table in `area`.
    pub open spec fn layout(self, area: Rect) -> Layout {
        layout_of(area, self.viewport, self.widths, self.headers.len() as int)
    }
}

/// `p` with the headers of the first `n` visible columns in row `y`, on a screen
/// that ends at column `right`.
pub open spec fn with_headers(
    p: Picture,
    t: TableView,
    layout: Layout,
    y: int,
    right: int,
    n: int,
) -> Picture
    decreases n,
{
    if n <= 0 {
        p
    } else {
        let col = layout.first + n - 1;
        canvas::with_text(
            with_headers(p, t, layout, y, right, n - 1),
            column_x(t.widths, layout.first, layout.x, n - 1),
            y,
            t.headers[col],
            right,
            Style { fg: t.palette.color_of(col), bg: t.palette.header_bg },
        )
    }
}

/// `p` with the cells of the first `n` visible columns of data row `row` in row
/// `y` of the screen. Each cell is filled to the width of its column, so that the
/// cursor is seen on empty cells too.
pub open spec fn with_cells(
    p: Picture,
    t: TableView,
    layout: Layout,
    y: int,
    row: int,
    right: int,
    n: int,
) -> Picture
    decreases n,
{
    if n <= 0 {
        p
    } else {
        let col = layout.first + n - 1;
        let x = column_x(t.widths, layout.first, layout.x, n - 1);
        let style = t.cell_style(row, col);
        let p = with_cells(p, t, layout, y, row, right, n - 1);
        let p = canvas::with_box(
            p,
            x,
            numbers::smaller(x + column_width(t.widths, col), right),
            y,
            y + 1,
            style.bg,
        );
        canvas::with_text(p, x, y, t.cell(row, col), right, style)
    }
}

/// `p` with data row `row` in row `y` of the screen.
pub open spec fn with_row(
    p: Picture,
    t: TableView,
    area: Rect,
    y: int,
    row: int,
    right: int,
) -> Picture {
    let layout = t.layout(area);
    let p = canvas::with_box(
        p,
        area.x as int,
        canvas::right_of(area),
        y,
        y + 1,
        t.row_bg(row),
    );
    let p = canvas::with_text(
        p,
        layout.number_x,
        y,
        text::right_aligned(text::decimal(row + 1), layout.number_width),
        right,
        t.number_style(row),
    );
    with_cells(p, t, layout, y, row, right, layout.columns)
}

/// `p` with the first `n` data rows of the view, as far as there are rows.
pub open spec fn with_rows(p: Picture, t: TableView, area: Rect, right: int, n: int) -> Picture
    decreases n,
{
    if n <= 0 {
        p
    } else {
        let p = with_rows(p, t, area, right, n - 1);
        let row = t.viewport.scroll_row + n - 1;
        if row < t.total_rows {
            with_row(p, t, area, area.y + n, row, right)
        } else {
            p
        }
    }
}

/// `p` with the header of the table in the first row of `area`.
pub open spec fn with_header(p: Picture, t: TableView, area: Rect, right: int) -> Picture {
    let layout = t.layout(area);
    let p = canvas::with_box(
        p,
        area.x as int,
        canvas::right_of(area),
        area.y as int,
        area.y + 1,
        t.palette.header_bg,
    );
    let p = canvas::with_text(
        p,
        layout.number_x,
        area.y as int,
        text::right_aligned("#"@, layout.number_width),
        right,
        Style { fg: t.palette.header_fg, bg: t.palette.header_bg },
    );
    with_headers(p, t, layout, area.y as int, right, layout.columns)
}

/// The table in `area`, on a screen that ends at column `right`: a header, and
/// below it the rows of the view.
pub open spec fn table_picture(p: Picture, t: TableView, area: Rect, right: int) -> Picture {
    with_rows(with_header(p, t, area, right), t, area, right, t.layout(area).rows)
}

/// What is shown of a table of which these are the visible rows.
pub open spec fn table_view(
    table: DataTable,
    v: Viewport,
    palette: ColorPalette,
    rows: Seq<Vec<String>>,
) -> TableView {
    TableView {
        headers: text::texts(table.headers@),
        widths: table.column_widths@,
        total_rows: table.backend.row_count(),
        rows: text::grid(rows),
        viewport: v,
        palette,
    }
}

/// Draws the header of a table.
fn render_header(
    buf: &mut Buffer,
    area: Rect,
    layout: &ColLayout,
    table: &DataTable,
    palette: &ColorPalette,
    Ghost(t): Ghost<TableView>,
)
    requires
        palette.column_colors@.len() > 0,
        t.headers == text::texts(table.headers@),
        t.widths == table.column_widths@,
        t.palette == *palette,
        layout.shows(t.layout(area), t.widths),
        layout.first + layout.xs@.len() <= table.headers@.len() || layout.xs@.len() == 0,
    ensures
        canvas::picture_of(*final(buf)) == with_header(
            canvas::picture_of(*old(buf)),
            t,
            area,
            canvas::right_of(canvas::area_of(*old(buf))),
        ),
        canvas::area_of(*final(buf)) == canvas::area_of(*old(buf)),
{
    let y = area.y as i64;
    // Fill header background across the full width.
    fill_box(buf, area.x as i64, rect_right(area), y, y + 1, palette.header_bg);

    // Row number header.
    let mut number = String::new();
    push_right_aligned(&mut number, "#", layout.row_num_w);
    assert(number@ =~= text::right_aligned("#"@, layout.row_num_w as int));
    put_text(
        buf,
        layout.row_num_x,
        y,
        number.as_str(),
        Style { fg: palette.header_fg, bg: palette.header_bg },
    );

    // Column headers.
    let ghost p = canvas::picture_of(*buf);
    let ghost right = canvas::right_of(canvas::area_of(*buf));
    let mut vi: usize = 0;
    while vi < layout.xs.len()
        invariant
            vi <= layout.xs@.len(),
            palette.column_colors@.len() > 0,
            t.headers == text::texts(table.headers@),
            t.widths == table.column_widths@,
            t.palette == *palette,
            y == area.y,
            right == canvas::right_of(canvas::area_of(*old(buf))),
            layout.shows(t.layout(area), t.widths),
            layout.first + layout.xs@.len() <= table.headers@.len() || layout.xs@.len() == 0,
            canvas::picture_of(*buf) == with_headers(
                p,
                t,
                t.layout(area),
                y as int,
                right,
                vi as int,
            ),
            canvas::area_of(*buf) == canvas::area_of(*old(buf)),
        decreases layout.xs@.len() - vi,
    {
        assert(layout.first + layout.xs@.len() <= table.headers.len());
        let ci = layout.first + vi;
        let fg = palette.column_color(ci);
        put_text(
            buf,
            layout.xs[vi],
            y,
            table.headers[ci].as_str(),
            Style { fg, bg: palette.header_bg },
        );
        vi = vi + 1;
    }
}

/// Draws data row `data_row`, whose texts are `row`.
fn render_row(
    buf: &mut Buffer,
    area: Rect,
    screen_y: i64,
    data_row: usize,
    row: &[String],
    layout: &ColLayout,
    table: &DataTable,
    vp: &Viewport,
    palette: &ColorPalette,
    Ghost(t): Ghost<TableView>,
)
    requires
        palette.column_colors@.len() > 0,
        0 <= screen_y <= 0x4_0000,
        t.headers == text::texts(table.headers@),
        t.widths == table.column_widths@,
        t.viewport == *vp,
        t.palette == *palette,
        layout.shows(t.layout(area), t.widths),
        layout.first + layout.xs@.len() <= table.headers@.len() || layout.xs@.len() == 0,
        forall|col: int|
            0 <= col ==> #[trigger] t.cell(data_row as int, col) == (if col < row@.len() {
                text::texts(row@)[col]
            } else {
                Seq::empty()
            }),
    ensures
        canvas::picture_of(*final(buf)) == with_row(
            canvas::picture_of(*old(buf)),
            t,
            area,
            screen_y as int,
            data_row as int,
            canvas::right_of(canvas::area_of(*old(buf))),
        ),
        canvas::area_of(*final(buf)) == canvas::area_of(*old(buf)),
{
    let bg = if data_row % 2 == 0 {
        palette.row_bg_even
    } else {
        palette.row_bg_odd
    };
    let is_cursor_row = data_row == vp.cursor_row;

    // Fill row background.
    fill_box(buf, area.x as i64, rect_right(area), screen_y, screen_y + 1, bg);

    // Row number.
    let rn_style = if is_cursor_row {
        Style { fg: palette.cursor_fg, bg: palette.cursor_bg }
    } else {
        Style { fg: palette.row_num_fg, bg }
    };
    let digits = decimal_text(data_row as i128 + 1);
    let mut number = String::new();
    push_right_aligned(&mut number, digits.as_str(), layout.row_num_w);
    assert(number@ =~= text::right_aligned(
        text::decimal(data_row + 1),
        layout.row_num_w as int,
    ));
    put_text(buf, layout.row_num_x, screen_y, number.as_str(), rn_style);

    // Data cells.
    let buf_right = buffer_right(buf);
    let ghost p = canvas::picture_of(*buf);
    let mut vi: usize = 0;
    while vi < layout.xs.len()
        invariant
            vi <= layout.xs@.len(),
            palette.column_colors@.len() > 0,
            t.headers == text::texts(table.headers@),
            t.widths == table.column_widths@,
            t.viewport == *vp,
            t.palette == *palette,
            0 <= screen_y <= 0x4_0000,
            bg == t.row_bg(data_row as int),
            is_cursor_row == (data_row == vp.cursor_row),
            buf_right == canvas::right_of(canvas::area_of(*old(buf))),
            layout.shows(t.layout(area), t.widths),
            layout.first + layout.xs@.len() <= table.headers@.len() || layout.xs@.len() == 0,
            forall|col: int|
                0 <= col ==> #[trigger] t.cell(data_row as int, col) == (if col < row@.len() {
                    text::texts(row@)[col]
                } else {
                    Seq::empty()
                }),
            canvas::picture_of(*buf) == with_cells(
                p,
                t,
                t.layout(area),
                screen_y as int,
                data_row as int,
                buf_right as int,
                vi as int,
            ),
            canvas::area_of(*buf) == canvas::area_of(*old(buf)),
        decreases layout.xs@.len() - vi,
    {
        assert(layout.first + layout.xs@.len() <= table.headers.len());
        let ci = layout.first + vi;
        let x = layout.xs[vi];
        let col_w = cells_of_column(&table.column_widths, ci);
        let style = if is_cursor_row && ci == vp.cursor_col {
            Style { fg: palette.cursor_fg, bg: palette.cursor_bg }
        } else {
            Style { fg: palette.column_color(ci), bg }
        };
        // Fill full column width with the cell's background so the cursor
        // remains visible even on empty cells.
        let end: i64 = if x as i128 + col_w <= buf_right as i128 {
            x + col_w as i64
        } else {
            buf_right
        };
        fill_box(buf, x, end, screen_y, screen_y + 1, style.bg);
        let ghost filled = canvas::picture_of(*buf);
        if ci < row.len() {
            put_text(buf, x, screen_y, row[ci].as_str(), style);
        } else {
            assert(canvas::with_text(
                filled,
                x as int,
                screen_y as int,
                Seq::empty(),
                buf_right as int,
                style,
            ) == filled);
        }
        assert(t.cell(data_row as int, ci as int) == (if ci < row@.len() {
            text::texts(row@)[ci as int]
        } else {
            Seq::empty()
        }));
        vi = vi + 1;
    }
}

/// Draws a table of which `rows` are the rows from the first visible one on.
pub fn render_table(
    buf: &mut Buffer,
    area: Rect,
    table: &DataTable,
    vp: &Viewport,
    palette: &ColorPalette,
    rows: &Vec<Vec<String>>,
)
    requires
        palette.column_colors@.len() > 0,
    ensures
        canvas::picture_of(*final(buf)) == table_picture(
            canvas::picture_of(*old(buf)),
            table_view(*table, *vp, *palette, rows@),
            area,
            canvas::right_of(canvas::area_of(*old(buf))),
        ),
        canvas::area_of(*final(buf)) == canvas::area_of(*old(buf)),
{
    let ghost t = table_view(*table, *vp, *palette, rows@);
    let layout = compute_layout(area, vp, &table.column_widths, table.headers.len());
    assert(t.headers.len() == table.headers@.len());
    render_header(buf, area, &layout, table, palette, Ghost(t));

    // Data rows.
    let total_rows = table.total_rows();
    let ghost p = canvas::picture_of(*buf);
    let ghost right = canvas::right_of(canvas::area_of(*buf));
    let mut i: usize = 0;
    while i < layout.visible_rows
        invariant
            i <= layout.visible_rows <= 0x1_0000,
            palette.column_colors@.len() > 0,
            t == table_view(*table, *vp, *palette, rows@),
            t.headers.len() == table.headers@.len(),
            layout.shows(t.layout(area), t.widths),
            layout.first + layout.xs@.len() <= table.headers@.len() || layout.xs@.len() == 0,
            total_rows == table.backend.row_count(),
            right == canvas::right_of(canvas::area_of(*old(buf))),
            canvas::picture_of(*buf) == with_rows(p, t, area, right, i as int),
            canvas::area_of(*buf) == canvas::area_of(*old(buf)),
        decreases layout.visible_rows - i,
    {
        if vp.scroll_row < total_rows && i < total_rows - vp.scroll_row {
            let data_row = vp.scroll_row + i;
            let row: &[String] = if i < rows.len() {
                rows[i].as_slice()
            } else {
                &[]
            };
            assert forall|col: int| 0 <= col implies #[trigger] t.cell(data_row as int, col) == (
            if col < row@.len() {
                text::texts(row@)[col]
            } else {
                Seq::empty()
            }) by {
                if i < rows@.len() {
                    assert(t.rows[i as int] == text::texts(row@));
                }
            }
            render_row(
                buf,
                area,
                area.y as i64 + 1 + i as i64,
                data_row,
                row,
                &layout,
                table,
                vp,
                palette,
                Ghost(t),
            );
        }
        i = i + 1;
    }
}

// ---------------------------------------------------------------------------
// Status bar
// ---------------------------------------------------------------------------

/// Where the cursor is, in words. Nothing for a table without rows.
pub open spec fn position_text(v: Viewport, rows: int, cols: int) -> Seq<char> {
    if rows > 0 {
        " Row "@ + text::decimal(v.cursor_row + 1) + "/"@ + text::decimal(rows) + "  Col "@
            + text::decimal(v.cursor_col + 1) + "/"@ + text::decimal(cols) + " "@
    } else {
        Seq::empty()
    }
}

/// The last row of `area` with a status bar in it.
pub open spec fn status_picture(
    p: Picture,
    area: Rect,
    display: Seq<char>,
    palette: ColorPalette,
) -> Picture {
    let y = numbers::larger(0, canvas::bottom_of(area) - 1);
    let right = canvas::right_of(area);
    let p = canvas::with_box(p, area.x as int, right, y, y + 1, palette.header_bg);
    canvas::with_line(
        p,
        area.x as int,
        y,
        display,
        right,
        Style { fg: palette.row_num_fg, bg: palette.header_bg },
    )
}

/// Draws the status bar.
pub fn render_status_bar(
    buf: &mut Buffer,
    area: Rect,
    table: &DataTable,
    vp: &Viewport,
    status_message: &str,
    palette: &ColorPalette,
)
    ensures
        canvas::picture_of(*final(buf)) == status_picture(
            canvas::picture_of(*old(buf)),
            area,
            position_text(*vp, table.backend.row_count(), table.headers@.len() as int)
                + status_message@,
            *palette,
        ),
        canvas::area_of(*final(buf)) == canvas::area_of(*old(buf)),
{
    let bottom = rect_bottom(area);
    let right = rect_right(area);
    let y: i64 = if bottom > 1 {
        bottom - 1
    } else {
        0
    };
    fill_box(buf, area.x as i64, right, y, y + 1, palette.header_bg);

    let mut display = String::new();
    if table.total_rows() > 0 {
        display.append(" Row ");
        push_decimal(&mut display, vp.cursor_row as i128 + 1);
        display.append("/");
        push_decimal(&mut display, table.total_rows() as i128);
        display.append("  Col ");
        push_decimal(&mut display, vp.cursor_col as i128 + 1);
        display.append("/");
        push_decimal(&mut display, table.total_cols() as i128);
        display.append(" ");
    }
    display.append(status_message);
    assert(display@ =~= position_text(
        *vp,
        table.backend.row_count(),
        table.headers@.len() as int,
    ) + status_message@);
    put_line(
        buf,
        area.x as i64,
        y,
        display.as_str(),
        right,
        Style { fg: palette.row_num_fg, bg: palette.header_bg },
    );
}

// ---------------------------------------------------------------------------
// Tab bar (workbooks of several sheets)
// ---------------------------------------------------------------------------

/// The text of a tab.
pub open spec fn tab_label(name: Seq<char>) -> Seq<char> {
    " "@ + name + " "@
}

/// The column where the `n`-th tab begins: behind the one before, with a
/// separator between them.
pub open spec fn tab_start(names: Seq<Seq<char>>, x: int, right: int, n: int) -> int {
    if n <= 0 {
        x
    } else {
        tab_end(names, x, right, n) + 1
    }
}

/// The column behind the first `n` tabs, the first of which begins at column `x`.
/// A tab is cut off where only one column is left before column `right`.
pub open spec fn tab_end(names: Seq<Seq<char>>, x: int, right: int, n: int) -> int
    decreases n,
{
    if n <= 0 {
        x
    } else {
        let start = if n == 1 {
            x
        } else {
            tab_end(names, x, right, n - 1) + 1
        };
        let end = start + tab_label(names[n - 1]).len();
        if end < right {
            end
        } else {
            numbers::larger(start, right - 1)
        }
    }
}

/// `p` with the first `n` tabs in row `y`.
pub open spec fn with_tabs(
    p: Picture,
    names: Seq<Seq<char>>,
    active: int,
    x: int,
    y: int,
    right: int,
    palette: ColorPalette,
    n: int,
) -> Picture
    decreases n,
{
    if n <= 0 {
        p
    } else {
        let p = with_tabs(p, names, active, x, y, right, palette, n - 1);
        let p = if n == 1 {
            p
        } else {
            canvas::with_char(
                p,
                tab_end(names, x, right, n - 1),
                y,
                '│',
                Style { fg: palette.row_num_fg, bg: palette.header_bg },
            )
        };
        canvas::with_line(
            p,
            tab_start(names, x, right, n - 1),
            y,
            tab_label(names[n - 1]),
            right - 1,
            if n - 1 == active {
                Style { fg: palette.cursor_fg, bg: palette.cursor_bg }
            } else {
                Style { fg: palette.header_fg, bg: palette.header_bg }
            },
        )
    }
}

/// `p` with the tabs of the sheets between brackets in row `y` of `area`.
pub open spec fn tab_picture(
    p: Picture,
    area: Rect,
    y: int,
    names: Seq<Seq<char>>,
    active: int,
    palette: ColorPalette,
) -> Picture {
    let right = canvas::right_of(area);
    let bracket = Style { fg: palette.row_num_fg, bg: palette.header_bg };
    let p = canvas::with_box(p, area.x as int, right, y, y + 1, palette.header_bg);
    let p = canvas::with_char(p, area.x + 2, y, '[', bracket);
    let p = with_tabs(
        p,
        names,
        active,
        area.x + 3,
        y,
        right,
        palette,
        names.len() as int,
    );
    let end = tab_end(names, area.x + 3, right, names.len() as int);
    if end < right {
        canvas::with_char(p, end, y, ']', bracket)
    } else {
        p
    }
}

/// The names of the sheets.
pub open spec fn sheet_names(sheets: Seq<(String, DataTable)>) -> Seq<Seq<char>> {
    sheets.map_values(|s: (String, DataTable)| s.0@)
}

/// Draws the tab bar.
pub fn render_tab_bar(
    buf: &mut Buffer,
    area: Rect,
    y: i64,
    sheets: &Vec<(String, DataTable)>,
    active_sheet: usize,
    palette: &ColorPalette,
)
    requires
        0 <= y <= 0x2_0000,
    ensures
        canvas::picture_of(*final(buf)) == tab_picture(
            canvas::picture_of(*old(buf)),
            area,
            y as int,
            sheet_names(sheets@),
            active_sheet as int,
            *palette,
        ),
        canvas::area_of(*final(buf)) == canvas::area_of(*old(buf)),
{
    let right = rect_right(area);
    let bracket_style = Style { fg: palette.row_num_fg, bg: palette.header_bg };
    let active_style = Style { fg: palette.cursor_fg, bg: palette.cursor_bg };
    let inactive_style = Style { fg: palette.header_fg, bg: palette.header_bg };

    // Fill background.
    fill_box(buf, area.x as i64, right, y, y + 1, palette.header_bg);

    // Left bracket.
    put_char(buf, area.x as i64 + 2, y, '[', bracket_style);

    let ghost names = sheet_names(sheets@);
    let ghost x = area.x + 3;
    let ghost p = canvas::picture_of(*buf);
    let mut cx: i128 = area.x as i128 + 3;
    let mut i: usize = 0;
    while i < sheets.len()
        invariant
            i <= sheets@.len(),
            names == sheet_names(sheets@),
            x == area.x + 3,
            0 <= y <= 0x2_0000,
            0 <= right <= 0x2_0000,
            bracket_style == (Style { fg: palette.row_num_fg, bg: palette.header_bg }),
            active_style == (Style { fg: palette.cursor_fg, bg: palette.cursor_bg }),
            inactive_style == (Style { fg: palette.header_fg, bg: palette.header_bg }),
            cx == tab_end(names, x, right as int, i as int),
            0 <= cx <= 0x4_0000 + i,
            canvas::picture_of(*buf) == with_tabs(
                p,
                names,
                active_sheet as int,
                x,
                y as int,
                right as int,
                *palette,
                i as int,
            ),
            canvas::area_of(*buf) == canvas::area_of(*old(buf)),
        decreases sheets@.len() - i,
    {
        // Separator between tabs.
        if i > 0 {
            let ghost before = canvas::picture_of(*buf);
            if cx <= 0xffff {
                put_char(buf, cx as i64, y, '│', bracket_style);
            } else {
                assert(canvas::with_char(before, cx as int, y as int, '│', bracket_style)
                    =~= before);
            }
            cx = cx + 1;
        }
        let style = if i == active_sheet {
            active_style
        } else {
            inactive_style
        };
        // Pad the tab name.
        let mut label = " ".to_owned();
        label.append(sheets[i].0.as_str());
        label.append(" ");
        assert(label@ =~= tab_label(names[i as int]));
        let ghost before = canvas::picture_of(*buf);
        if cx <= 0xffff {
            put_line(buf, cx as i64, y, label.as_str(), right - 1, style);
        } else {
            assert(canvas::with_line(
                before,
                cx as int,
                y as int,
                label@,
                right - 1,
                style,
            ) =~= before);
        }
        let len = label.as_str().unicode_len();
        if cx + (len as i128) < right as i128 {
            cx = cx + len as i128;
        } else if cx < right as i128 - 1 {
            cx = right as i128 - 1;
        }
        i = i + 1;
    }

    // Right bracket.
    if cx < right as i128 {
        put_char(buf, cx as i64, y, ']', bracket_style);
    }
}

// ---------------------------------------------------------------------------
// The whole screen
// ---------------------------------------------------------------------------

/// The part of the screen that the table takes: all but the status bar and, with
/// several sheets, the tab bar.
pub open spec fn table_area(area: Rect, sheets: int) -> Rect {
    Rect {
        height: numbers::larger(
            0,
            area.height - (if sheets > 1 {
                2int
            } else {
                1
            }),
        ) as u16,
        ..area
    }
}

/// What a frame shows: help, or the table with the bars below it.
pub open spec fn frame_picture(
    p: Picture,
    area: Rect,
    right: int,
    app: App,
    rows: Seq<Vec<String>>,
) -> Picture {
    if app.show_help {
        help_picture(p, area, app.palette)
    } else {
        let sheets = app.sheets@;
        let table = sheets[app.active_sheet as int].1;
        let inner = table_area(area, sheets.len() as int);
        let p = canvas::with_box(
            p,
            inner.x as int,
            canvas::right_of(inner),
            inner.y as int,
            canvas::bottom_of(inner),
            app.palette.bg,
        );
        let p = if table.backend.row_count() > 0 || table.headers@.len() > 0 {
            table_picture(
                p,
                table_view(table, app.viewport, app.palette, rows),
                inner,
                right,
            )
        } else {
            p
        };
        let p = if sheets.len() > 1 {
            tab_picture(
                p,
                area,
                canvas::bottom_of(inner),
                sheet_names(sheets),
                app.active_sheet as int,
                app.palette,
            )
        } else {
            p
        };
        status_picture(
            p,
            area,
            position_text(app.viewport, table.backend.row_count(), table.headers@.len() as int)
                + app.status_message@,
            app.palette,
        )
    }
}

/// The rows that a frame shows: from the first visible one to behind the last.
/// Behind the help screen no rows are seen. The range always lies in the table.
pub open spec fn frame_rows(area: Rect, app: App) -> (int, int) {
    let first = app.viewport.scroll_row as int;
    let total = app.sheets@[app.active_sheet as int].1.backend.row_count();
    let room = numbers::larger(0, table_area(area, app.sheets@.len() as int).height - 1);
    if app.show_help || total <= first {
        (numbers::smaller(first, total), numbers::smaller(first, total))
    } else {
        (first, numbers::smaller(total, first + room))
    }
}

/// The part of the screen that the table takes.
fn inner_area(area: Rect, sheets: usize) -> (inner: Rect)
    ensures
        inner == table_area(area, sheets as int),
{
    let bars: u16 = if sheets > 1 {
        2
    } else {
        1
    };
    Rect { x: area.x, y: area.y, width: area.width, height: area.height.saturating_sub(bars) }
}

/// The rows that the next frame shows. Whoever draws the frame gets these rows
/// from the table first.
pub fn rows_to_show(area: Rect, app: &App) -> (range: (usize, usize))
    requires
        app.active_sheet < app.sheets@.len(),
    ensures
        range.0 == frame_rows(area, *app).0,
        range.1 == frame_rows(area, *app).1,
        range.0 <= range.1 <= app.sheets@[app.active_sheet as int].1.backend.row_count(),
{
    let first = app.viewport.scroll_row;
    let total = app.data().total_rows();
    let room = inner_area(area, app.sheets.len()).height.saturating_sub(1) as usize;
    if total <= first {
        (total, total)
    } else if app.show_help {
        (first, first)
    } else if total - first <= room {
        (first, total)
    } else {
        (first, first + room)
    }
}

/// `next` is the viewer `app` with its viewport fitted to the part of `area` that the
/// table takes. Behind the help screen nothing is fitted.
pub open spec fn fitted_to(app: App, area: Rect, next: App) -> bool {
    &&& next == App { viewport: next.viewport, ..app }
    &&& app.show_help ==> next.viewport == app.viewport
    &&& !app.show_help ==> {
        let table = app.sheets@[app.active_sheet as int].1;
        let inner = table_area(area, app.sheets@.len() as int);
        app.viewport.resized(
            inner.width as int,
            inner.height as int,
            table.column_widths@,
            table.backend.row_count(),
            next.viewport,
        )
    }
}

/// Render one frame, of which `rows` are the rows that it shows.
pub fn render(buf: &mut Buffer, area: Rect, app: &mut App, rows: &Vec<Vec<String>>)
    requires
        old(app).palette.column_colors@.len() > 0,
        old(app).show_help || old(app).active_sheet < old(app).sheets@.len(),
    ensures
        canvas::picture_of(*final(buf)) == frame_picture(
            canvas::picture_of(*old(buf)),
            area,
            canvas::right_of(canvas::area_of(*old(buf))),
            *final(app),
            rows@,
        ),
        canvas::area_of(*final(buf)) == canvas::area_of(*old(buf)),
        fitted_to(*old(app), area, *final(app)),
{
    if app.show_help {
        render_help_screen(buf, area, &app.palette);
        return;
    }
    let inner = inner_area(area, app.sheets.len());
    let total_rows = app.data().total_rows();
    app.viewport.recalc_dimensions(
        inner.width,
        inner.height,
        app.sheets[app.active_sheet].1.column_widths.as_slice(),
        total_rows,
    );
    let table = &app.sheets[app.active_sheet].1;

    // Fill entire background.
    fill_box(
        buf,
        inner.x as i64,
        rect_right(inner),
        inner.y as i64,
        rect_bottom(inner),
        app.palette.bg,
    );
    if table.total_rows() > 0 || table.total_cols() > 0 {
        render_table(buf, inner, table, &app.viewport, &app.palette, rows);
    }

    // Tab bar (workbooks of several sheets only).
    if app.sheets.len() > 1 {
        render_tab_bar(
            buf,
            area,
            rect_bottom(inner),
            &app.sheets,
            app.active_sheet,
            &app.palette,
        );
    }
    render_status_bar(
        buf,
        area,
        table,
        &app.viewport,
        app.status_message.as_str(),
        &app.palette,
    );
}

// ---------------------------------------------------------------------------
// What holds of every frame
// ---------------------------------------------------------------------------

/// A box around the place of a cell contains the cell.
pub open spec fn in_box(c: (u16, u16), x0: int, x1: int, y: int) -> bool {
    c.1 == y && x0 <= c.0 < x1
}

proof fn lemma_help_lines_keep_background(p: Picture, b: HelpBox, n: int, palette: ColorPalette)
    ensures
        with_help_lines(p, b, n, palette).dom() == p.dom(),
        forall|c: (u16, u16)| #[trigger]
            p.dom().contains(c) && p[c].bg == Some(palette.header_bg) ==> with_help_lines(
                p,
                b,
                n,
                palette,
            )[c].bg == Some(palette.header_bg),
    decreases n,
{
    if n > 0 {
        lemma_help_lines_keep_background(p, b, n - 1, palette);
        let before = with_help_lines(p, b, n - 1, palette);
        let after = with_help_lines(p, b, n, palette);
        assert(after.dom() =~= before.dom());
        assert forall|c: (u16, u16)| #[trigger]
            p.dom().contains(c) && p[c].bg == Some(palette.header_bg) implies after[c].bg == Some(
            palette.header_bg,
        ) by {
            assert(before.dom().contains(c));
        }
    }
}

/// The help screen covers its area: nothing of what was there shines through.
/// It has no other cells than there were.
pub proof fn lemma_help_covers_the_area(p: Picture, area: Rect, palette: ColorPalette)
    ensures
        help_picture(p, area, palette).dom() == p.dom(),
        forall|c: (u16, u16)| #[trigger]
            p.dom().contains(c) && area.x <= c.0 < canvas::right_of(area) && area.y <= c.1
                < canvas::bottom_of(area) ==> help_picture(p, area, palette)[c].bg == Some(
                palette.header_bg,
            ),
{
    let b = help_box(area);
    let bg = palette.header_bg;
    let style = Style { fg: palette.header_fg, bg };
    let filled = canvas::with_box(
        p,
        area.x as int,
        canvas::right_of(area),
        area.y as int,
        canvas::bottom_of(area),
        bg,
    );
    let framed = with_frame(filled, b, style);
    let titled = canvas::with_line(framed, b.x + 2, b.y, " Help "@, b.x + b.width - 1, style);
    lemma_help_lines_keep_background(titled, b, help_lines().len() as int, palette);
    let lined = with_help_lines(titled, b, help_lines().len() as int, palette);
    let whole = help_picture(p, area, palette);
    assert(filled.dom() =~= p.dom());
    assert(framed.dom() =~= p.dom());
    assert(titled.dom() =~= p.dom());
    assert(whole.dom() =~= lined.dom());
    assert forall|c: (u16, u16)| #[trigger]
        p.dom().contains(c) && area.x <= c.0 < canvas::right_of(area) && area.y <= c.1
            < canvas::bottom_of(area) implies whole[c].bg == Some(bg) by {
        assert(filled[c].bg == Some(bg));
        assert(framed[c].bg == Some(bg));
        assert(titled.dom().contains(c));
        assert(titled[c].bg == Some(bg));
        assert(lined[c].bg == Some(bg));
    }
}

proof fn lemma_headers_keep_cells(
    p: Picture,
    t: TableView,
    layout: Layout,
    y: int,
    right: int,
    n: int,
)
    ensures
        with_headers(p, t, layout, y, right, n).dom() == p.dom(),
    decreases n,
{
    if n > 0 {
        lemma_headers_keep_cells(p, t, layout, y, right, n - 1);
        let col = layout.first + n - 1;
        canvas::lemma_text_stays_in_its_row(
            with_headers(p, t, layout, y, right, n - 1),
            column_x(t.widths, layout.first, layout.x, n - 1),
            y,
            t.headers[col],
            right,
            Style { fg: t.palette.color_of(col), bg: t.palette.header_bg },
        );
    }
}

/// Columns do not overlap.
pub proof fn lemma_columns_are_apart(
    widths: Seq<usize>,
    first: int,
    x: int,
    k1: int,
    k2: int,
)
    requires
        0 <= k1 < k2,
    ensures
        column_x(widths, first, x, k1) + column_width(widths, first + k1) + COL_GAP <= column_x(
            widths,
            first,
            x,
            k2,
        ),
    decreases k2,
{
    if k1 < k2 - 1 {
        lemma_columns_are_apart(widths, first, x, k1, k2 - 1);
    }
}

/// Cells are drawn in their row only, and each column keeps the background of
/// its cell over its whole width, whatever is drawn in the columns behind it.
proof fn lemma_cells_show_their_background(
    p: Picture,
    t: TableView,
    layout: Layout,
    y: int,
    row: int,
    right: int,
    n: int,
)
    ensures
        with_cells(p, t, layout, y, row, right, n).dom() == p.dom(),
        forall|k: int, c: (u16, u16)|
            0 <= k < n && #[trigger] p.dom().contains(c) && #[trigger] in_box(
                c,
                column_x(t.widths, layout.first, layout.x, k),
                numbers::smaller(
                    column_x(t.widths, layout.first, layout.x, k) + column_width(
                        t.widths,
                        layout.first + k,
                    ),
                    right,
                ),
                y,
            ) ==> with_cells(p, t, layout, y, row, right, n)[c].bg == Some(
                t.cell_style(row, layout.first + k).bg,
            ),
    decreases n,
{
    if n > 0 {
        lemma_cells_show_their_background(p, t, layout, y, row, right, n - 1);
        let col = layout.first + n - 1;
        let x = column_x(t.widths, layout.first, layout.x, n - 1);
        let end = numbers::smaller(x + column_width(t.widths, col), right);
        let style = t.cell_style(row, col);
        let before = with_cells(p, t, layout, y, row, right, n - 1);
        let filled = canvas::with_box(before, x, end, y, y + 1, style.bg);
        let after = with_cells(p, t, layout, y, row, right, n);
        assert(filled.dom() =~= p.dom());
        canvas::lemma_text_stays_in_its_row(filled, x, y, t.cell(row, col), right, style);
        assert(after.dom() =~= p.dom());
        assert forall|k: int, c: (u16, u16)|
            0 <= k < n && #[trigger] p.dom().contains(c) && #[trigger] in_box(
                c,
                column_x(t.widths, layout.first, layout.x, k),
                numbers::smaller(
                    column_x(t.widths, layout.first, layout.x, k) + column_width(
                        t.widths,
                        layout.first + k,
                    ),
                    right,
                ),
                y,
            ) implies after[c].bg == Some(t.cell_style(row, layout.first + k).bg) by {
            assert(filled.dom().contains(c));
            if k < n - 1 {
                lemma_columns_are_apart(t.widths, layout.first, layout.x, k, n - 1);
                assert(filled[c] == before[c]);
                assert(after[c] == filled[c]);
            } else {
                assert(filled[c].bg == Some(style.bg));
            }
        }
    }
}

/// In the row of the cursor, the column of the cursor has the background of the
/// cursor over its whole width: the cursor is seen on an empty cell too. So has
/// every other cell the background that it should have.
pub proof fn lemma_cursor_is_seen(
    p: Picture,
    t: TableView,
    area: Rect,
    y: int,
    row: int,
    right: int,
    k: int,
    c: (u16, u16),
)
    requires
        0 <= k < t.layout(area).columns,
        p.dom().contains(c),
        in_box(
            c,
            column_x(t.widths, t.layout(area).first, t.layout(area).x, k),
            numbers::smaller(
                column_x(t.widths, t.layout(area).first, t.layout(area).x, k) + column_width(
                    t.widths,
                    t.layout(area).first + k,
                ),
                right,
            ),
            y,
        ),
    ensures
        with_row(p, t, area, y, row, right)[c].bg == Some(
            t.cell_style(row, t.layout(area).first + k).bg,
        ),
        row == t.viewport.cursor_row && t.layout(area).first + k == t.viewport.cursor_col
            ==> with_row(p, t, area, y, row, right)[c].bg == Some(t.palette.cursor_bg),
{
    let layout = t.layout(area);
    let filled = canvas::with_box(
        p,
        area.x as int,
        canvas::right_of(area),
        y,
        y + 1,
        t.row_bg(row),
    );
    let number = text::right_aligned(text::decimal(row + 1), layout.number_width);
    let numbered = canvas::with_text(
        filled,
        layout.number_x,
        y,
        number,
        right,
        t.number_style(row),
    );
    canvas::lemma_text_stays_in_its_row(
        filled,
        layout.number_x,
        y,
        number,
        right,
        t.number_style(row),
    );
    assert(filled.dom() =~= p.dom());
    assert(numbered.dom().contains(c));
    lemma_cells_show_their_background(numbered, t, layout, y, row, right, layout.columns);
}

proof fn lemma_rows_keep_cells(p: Picture, t: TableView, area: Rect, right: int, n: int)
    ensures
        with_rows(p, t, area, right, n).dom() == p.dom(),
    decreases n,
{
    if n > 0 {
        lemma_rows_keep_cells(p, t, area, right, n - 1);
        let before = with_rows(p, t, area, right, n - 1);
        let row = t.viewport.scroll_row + n - 1;
        if row < t.total_rows {
            let layout = t.layout(area);
            let y = area.y + n;
            let filled = canvas::with_box(
                before,
                area.x as int,
                canvas::right_of(area),
                y,
                y + 1,
                t.row_bg(row),
            );
            let number = text::right_aligned(text::decimal(row + 1), layout.number_width);
            canvas::lemma_text_stays_in_its_row(
                filled,
                layout.number_x,
                y,
                number,
                right,
                t.number_style(row),
            );
            let numbered = canvas::with_text(
                filled,
                layout.number_x,
                y,
                number,
                right,
                t.number_style(row),
            );
            assert(filled.dom() =~= before.dom());
            lemma_cells_show_their_background(numbered, t, layout, y, row, right, layout.columns);
        }
    }
}

proof fn lemma_tabs_keep_cells(
    p: Picture,
    names: Seq<Seq<char>>,
    active: int,
    x: int,
    y: int,
    right: int,
    palette: ColorPalette,
    n: int,
)
    ensures
        with_tabs(p, names, active, x, y, right, palette, n).dom() == p.dom(),
    decreases n,
{
    if n > 0 {
        lemma_tabs_keep_cells(p, names, active, x, y, right, palette, n - 1);
        assert(with_tabs(p, names, active, x, y, right, palette, n).dom() =~= with_tabs(
            p,
            names,
            active,
            x,
            y,
            right,
            palette,
            n - 1,
        ).dom());
    }
}

/// Drawing a frame neither adds cells nor loses any: what does not fit on the
/// screen is cut off.
pub proof fn lemma_frame_keeps_cells(
    p: Picture,
    area: Rect,
    right: int,
    app: App,
    rows: Seq<Vec<String>>,
)
    ensures
        frame_picture(p, area, right, app, rows).dom() == p.dom(),
{
    if app.show_help {
        lemma_help_covers_the_area(p, area, app.palette);
    } else {
        let sheets = app.sheets@;
        let table = sheets[app.active_sheet as int].1;
        let inner = table_area(area, sheets.len() as int);
        let filled = canvas::with_box(
            p,
            inner.x as int,
            canvas::right_of(inner),
            inner.y as int,
            canvas::bottom_of(inner),
            app.palette.bg,
        );
        assert(filled.dom() =~= p.dom());
        let t = table_view(table, app.viewport, app.palette, rows);
        lemma_table_keeps_cells(filled, t, inner, right);
        let drawn = if table.backend.row_count() > 0 || table.headers@.len() > 0 {
            table_picture(filled, t, inner, right)
        } else {
            filled
        };
        let names = sheet_names(sheets);
        let tab_row = canvas::bottom_of(inner);
        lemma_tab_bar_keeps_cells(
            drawn,
            area,
            tab_row,
            names,
            app.active_sheet as int,
            app.palette,
        );
        let barred = if sheets.len() > 1 {
            tab_picture(drawn, area, tab_row, names, app.active_sheet as int, app.palette)
        } else {
            drawn
        };
        assert(frame_picture(p, area, right, app, rows).dom() =~= barred.dom());
    }
}

proof fn lemma_header_keeps_cells(p: Picture, t: TableView, area: Rect, right: int)
    ensures
        with_header(p, t, area, right).dom() == p.dom(),
{
    let layout = t.layout(area);
    let filled = canvas::with_box(
        p,
        area.x as int,
        canvas::right_of(area),
        area.y as int,
        area.y + 1,
        t.palette.header_bg,
    );
    let number = text::right_aligned("#"@, layout.number_width);
    let style = Style { fg: t.palette.header_fg, bg: t.palette.header_bg };
    assert(filled.dom() =~= p.dom());
    canvas::lemma_text_stays_in_its_row(
        filled,
        layout.number_x,
        area.y as int,
        number,
        right,
        style,
    );
    let numbered = canvas::with_text(
        filled,
        layout.number_x,
        area.y as int,
        number,
        right,
        style,
    );
    lemma_headers_keep_cells(numbered, t, layout, area.y as int, right, layout.columns);
}

proof fn lemma_table_keeps_cells(p: Picture, t: TableView, area: Rect, right: int)
    ensures
        table_picture(p, t, area, right).dom() == p.dom(),
{
    lemma_header_keeps_cells(p, t, area, right);
    lemma_rows_keep_cells(
        with_header(p, t, area, right),
        t,
        area,
        right,
        t.layout(area).rows,
    );
}

proof fn lemma_tab_bar_keeps_cells(
    p: Picture,
    area: Rect,
    y: int,
    names: Seq<Seq<char>>,
    active: int,
    palette: ColorPalette,
)
    ensures
        tab_picture(p, area, y, names, active, palette).dom() == p.dom(),
{
    let right = canvas::right_of(area);
    let bracket = Style { fg: palette.row_num_fg, bg: palette.header_bg };
    let filled = canvas::with_box(p, area.x as int, right, y, y + 1, palette.header_bg);
    let opened = canvas::with_char(filled, area.x + 2, y, '[', bracket);
    assert(opened.dom() =~= p.dom());
    let n = names.len() as int;
    lemma_tabs_keep_cells(opened, names, active, area.x + 3, y, right, palette, n);
    assert(tab_picture(p, area, y, names, active, palette).dom() =~= p.dom());
}

/// The last row of a frame is the status bar: where the cursor is and the status
/// message, cut off at the right edge.
pub proof fn lemma_status_bar_is_last(
    p: Picture,
    area: Rect,
    right: int,
    app: App,
    rows: Seq<Vec<String>>,
    c: (u16, u16),
)
    requires
        !app.show_help,
        p.dom().contains(c),
        in_box(c, area.x as int, canvas::right_of(area), canvas::bottom_of(area) - 1),
    ensures
        ({
            let table = app.sheets@[app.active_sheet as int].1;
            let display = position_text(
                app.viewport,
                table.backend.row_count(),
                table.headers@.len() as int,
            ) + app.status_message@;
            frame_picture(p, area, right, app, rows)[c].symbol == (if c.0 - area.x
                < display.len() {
                seq![display[c.0 - area.x]]
            } else {
                seq![' ']
            })
        }),
{
    lemma_frame_keeps_cells(p, area, right, app, rows);
}

// ---------------------------------------------------------------------------
// A frame shows the rows of the file
// ---------------------------------------------------------------------------

/// The place of the `k`-th visible column in row `y` of the screen.
pub open spec fn in_column(
    layout: Layout,
    widths: Seq<usize>,
    right: int,
    y: int,
    k: int,
    c: (u16, u16),
) -> bool {
    let x = column_x(widths, layout.first, layout.x, k);
    in_box(
        c,
        x,
        numbers::smaller(x + column_width(widths, layout.first + k), right),
        y,
    )
}

/// The place of the `k`-th visible column of data row `row` of a table in `area`.
pub open spec fn in_cell(
    t: TableView,
    area: Rect,
    right: int,
    row: int,
    k: int,
    c: (u16, u16),
) -> bool {
    &&& 0 <= k < t.layout(area).columns
    &&& in_column(
        t.layout(area),
        t.widths,
        right,
        area.y + 1 + (row - t.viewport.scroll_row),
        k,
        c,
    )
}

/// The cells of a row are drawn in one row of the screen only.
proof fn lemma_cells_stay_in_their_row(
    p: Picture,
    t: TableView,
    layout: Layout,
    y: int,
    row: int,
    right: int,
    n: int,
    c: (u16, u16),
)
    requires
        p.dom().contains(c),
        c.1 != y,
    ensures
        with_cells(p, t, layout, y, row, right, n).dom() == p.dom(),
        with_cells(p, t, layout, y, row, right, n)[c] == p[c],
    decreases n,
{
    if n > 0 {
        lemma_cells_stay_in_their_row(p, t, layout, y, row, right, n - 1, c);
        let col = layout.first + n - 1;
        let x = column_x(t.widths, layout.first, layout.x, n - 1);
        let style = t.cell_style(row, col);
        let filled = canvas::with_box(
            with_cells(p, t, layout, y, row, right, n - 1),
            x,
            numbers::smaller(x + column_width(t.widths, col), right),
            y,
            y + 1,
            style.bg,
        );
        assert(filled.dom() =~= p.dom());
        assert(filled.dom().contains(c));
        canvas::lemma_text_stays_in_its_row(filled, x, y, t.cell(row, col), right, style);
    }
}

/// Each visible column of a row shows the text of its cell over its whole width,
/// whatever is drawn in the columns beside it.
proof fn lemma_cells_show_their_text(
    p: Picture,
    t: TableView,
    layout: Layout,
    y: int,
    row: int,
    right: int,
    n: int,
    k: int,
    c: (u16, u16),
)
    requires
        0 <= k < n,
        p.dom().contains(c),
        in_column(layout, t.widths, right, y, k, c),
    ensures
        with_cells(p, t, layout, y, row, right, n).dom() == p.dom(),
        canvas::shows(
            with_cells(p, t, layout, y, row, right, n)[c],
            column_x(t.widths, layout.first, layout.x, k),
            t.cell(row, layout.first + k),
            right,
            t.cell_style(row, layout.first + k),
            c.0 as int,
        ),
    decreases n,
{
    let col = layout.first + n - 1;
    let x = column_x(t.widths, layout.first, layout.x, n - 1);
    let style = t.cell_style(row, col);
    let before = with_cells(p, t, layout, y, row, right, n - 1);
    let filled = canvas::with_box(
        before,
        x,
        numbers::smaller(x + column_width(t.widths, col), right),
        y,
        y + 1,
        style.bg,
    );
    lemma_cells_show_their_background(p, t, layout, y, row, right, n - 1);
    assert(filled.dom() =~= p.dom());
    assert(filled.dom().contains(c));
    canvas::lemma_text_stays_in_its_row(filled, x, y, t.cell(row, col), right, style);
    if k < n - 1 {
        lemma_cells_show_their_text(p, t, layout, y, row, right, n - 1, k, c);
        lemma_columns_are_apart(t.widths, layout.first, layout.x, k, n - 1);
    } else {
        canvas::lemma_text_shows_its_characters(
            filled,
            x,
            y,
            t.cell(row, col),
            right,
            style,
            c,
        );
    }
}

/// Each visible row of a table shows the texts of its cells.
proof fn lemma_rows_show_their_text(
    p: Picture,
    t: TableView,
    area: Rect,
    right: int,
    n: int,
    i: int,
    k: int,
    c: (u16, u16),
)
    requires
        0 <= i < n,
        t.viewport.scroll_row + i < t.total_rows,
        0 <= k < t.layout(area).columns,
        p.dom().contains(c),
        in_column(t.layout(area), t.widths, right, area.y + 1 + i, k, c),
    ensures
        canvas::shows(
            with_rows(p, t, area, right, n)[c],
            column_x(t.widths, t.layout(area).first, t.layout(area).x, k),
            t.cell(t.viewport.scroll_row + i, t.layout(area).first + k),
            right,
            t.cell_style(t.viewport.scroll_row + i, t.layout(area).first + k),
            c.0 as int,
        ),
    decreases n,
{
    let layout = t.layout(area);
    let before = with_rows(p, t, area, right, n - 1);
    let row = t.viewport.scroll_row + n - 1;
    let y = area.y + n;
    lemma_rows_keep_cells(p, t, area, right, n - 1);
    if i < n - 1 {
        lemma_rows_show_their_text(p, t, area, right, n - 1, i, k, c);
    }
    if row < t.total_rows {
        let filled = canvas::with_box(
            before,
            area.x as int,
            canvas::right_of(area),
            y,
            y + 1,
            t.row_bg(row),
        );
        let number = text::right_aligned(text::decimal(row + 1), layout.number_width);
        let style = t.number_style(row);
        let numbered = canvas::with_text(filled, layout.number_x, y, number, right, style);
        assert(filled.dom() =~= before.dom());
        assert(filled.dom().contains(c));
        canvas::lemma_text_stays_in_its_row(filled, layout.number_x, y, number, right, style);
        assert(numbered.dom().contains(c));
        if i < n - 1 {
            lemma_cells_stay_in_their_row(
                numbered,
                t,
                layout,
                y,
                row,
                right,
                layout.columns,
                c,
            );
        } else {
            lemma_cells_show_their_text(
                numbered,
                t,
                layout,
                y,
                row,
                right,
                layout.columns,
                k,
                c,
            );
        }
    }
}

/// Tabs are drawn in one row of the screen only.
proof fn lemma_tabs_stay_in_their_row(
    p: Picture,
    names: Seq<Seq<char>>,
    active: int,
    x: int,
    y: int,
    right: int,
    palette: ColorPalette,
    n: int,
    c: (u16, u16),
)
    requires
        p.dom().contains(c),
        c.1 != y,
    ensures
        with_tabs(p, names, active, x, y, right, palette, n)[c] == p[c],
    decreases n,
{
    if n > 0 {
        lemma_tabs_stay_in_their_row(p, names, active, x, y, right, palette, n - 1, c);
        lemma_tabs_keep_cells(p, names, active, x, y, right, palette, n - 1);
    }
}

/// In a frame, each visible column of each visible row shows the text of its cell.
pub proof fn lemma_frame_shows_cells(
    p: Picture,
    area: Rect,
    right: int,
    app: App,
    rows: Seq<Vec<String>>,
    row: int,
    k: int,
    c: (u16, u16),
)
    requires
        !app.show_help,
        frame_rows(area, app).0 <= row < frame_rows(area, app).1,
        ({
            let inner = table_area(area, app.sheets@.len() as int);
            let t = table_view(
                app.sheets@[app.active_sheet as int].1,
                app.viewport,
                app.palette,
                rows,
            );
            in_cell(t, inner, right, row, k, c)
        }),
        p.dom().contains(c),
    ensures
        ({
            let inner = table_area(area, app.sheets@.len() as int);
            let t = table_view(
                app.sheets@[app.active_sheet as int].1,
                app.viewport,
                app.palette,
                rows,
            );
            canvas::shows(
                frame_picture(p, area, right, app, rows)[c],
                column_x(t.widths, t.layout(inner).first, t.layout(inner).x, k),
                t.cell(row, t.layout(inner).first + k),
                right,
                t.cell_style(row, t.layout(inner).first + k),
                c.0 as int,
            )
        }),
{
    let sheets = app.sheets@;
    let table = sheets[app.active_sheet as int].1;
    let inner = table_area(area, sheets.len() as int);
    let t = table_view(table, app.viewport, app.palette, rows);
    let filled = canvas::with_box(
        p,
        inner.x as int,
        canvas::right_of(inner),
        inner.y as int,
        canvas::bottom_of(inner),
        app.palette.bg,
    );
    assert(filled.dom() =~= p.dom());
    let headed = with_header(filled, t, inner, right);
    lemma_header_keeps_cells(filled, t, inner, right);
    assert(headed.dom().contains(c));
    let n = t.layout(inner).rows;
    lemma_rows_show_their_text(headed, t, inner, right, n, row - app.viewport.scroll_row, k, c);
    let drawn = table_picture(filled, t, inner, right);
    lemma_table_keeps_cells(filled, t, inner, right);
    assert(drawn.dom().contains(c));
    let names = sheet_names(sheets);
    let y = canvas::bottom_of(inner);
    let bracket = Style { fg: app.palette.row_num_fg, bg: app.palette.header_bg };
    let bar = canvas::with_box(
        drawn,
        area.x as int,
        canvas::right_of(area),
        y,
        y + 1,
        app.palette.header_bg,
    );
    let opened = canvas::with_char(bar, area.x + 2, y, '[', bracket);
    assert(opened.dom().contains(c));
    lemma_tabs_stay_in_their_row(
        opened,
        names,
        app.active_sheet as int,
        area.x + 3,
        y,
        canvas::right_of(area),
        app.palette,
        names.len() as int,
        c,
    );
    lemma_tab_bar_keeps_cells(drawn, area, y, names, app.active_sheet as int, app.palette);
}

/// The text of a cell of the file: nothing where the row is too short.
pub open spec fn content_cell(content: Seq<Seq<Seq<char>>>, row: int, col: int) -> Seq<char> {
    if 0 <= col < content[row].len() {
        content[row][col]
    } else {
        Seq::empty()
    }
}

/// What a viewer shows is drawn from its state when the rows were asked for, once they
/// were gotten: the table is the one that they were gotten from, and what else decides
/// which rows are seen is as it was.
pub open spec fn drawn_after(asked: App, drawn: App, table: DataTable) -> bool {
    &&& drawn.show_help == asked.show_help
    &&& drawn.active_sheet == asked.active_sheet
    &&& drawn.sheets@.len() == asked.sheets@.len()
    &&& drawn.sheets@[drawn.active_sheet as int].1 == table
    &&& drawn.viewport.scroll_row == asked.viewport.scroll_row
}

/// A frame shows the rows of the file. When the rows that a frame shows were gotten
/// from the active table, while all that was wanted was read from the file and
/// supplied, they are the rows of the file, and each visible column of each visible row
/// shows the text of its cell in the file.
pub proof fn lemma_frame_shows_the_file(
    p: Picture,
    area: Rect,
    right: int,
    asked: App,
    drawn: App,
    run: RowRun,
    bytes: Seq<u8>,
    content: Seq<Seq<Seq<char>>>,
)
    requires
        asked.active_sheet < asked.sheets@.len(),
        run.complete(),
        run.reads(bytes, content),
        run.tables[0] == asked.sheets@[asked.active_sheet as int].1,
        run.tables[0].wf(),
        run.tables[0].backend.presents_file(bytes, content),
        run.readers[0].begins(frame_rows(area, asked).0, frame_rows(area, asked).1),
        drawn_after(asked, drawn, run.stepped.last()),
    ensures
        text::grid(run.readers.last().rows@) == content.subrange(
            frame_rows(area, asked).0,
            frame_rows(area, asked).1,
        ),
        frame_rows(area, drawn) == frame_rows(area, asked),
        !drawn.show_help ==> ({
            let rows = run.readers.last().rows@;
            let inner = table_area(area, drawn.sheets@.len() as int);
            let t = table_view(run.stepped.last(), drawn.viewport, drawn.palette, rows);
            let layout = t.layout(inner);
            forall|row: int, k: int, c: (u16, u16)|
                frame_rows(area, drawn).0 <= row < frame_rows(area, drawn).1 && p.dom().contains(c)
                    && #[trigger] in_cell(t, inner, right, row, k, c) ==> canvas::shows(
                    frame_picture(p, area, right, drawn, rows)[c],
                    column_x(t.widths, layout.first, layout.x, k),
                    content_cell(content, row, layout.first + k),
                    right,
                    t.cell_style(row, layout.first + k),
                    c.0 as int,
                )
        }),
{
    let start = frame_rows(area, asked).0;
    let end = frame_rows(area, asked).1;
    table::lemma_held_rows(run.tables[0].backend, bytes, content);
    table::lemma_run_takes_rows(run, bytes, content, start, end);
    table::lemma_held_rows(run.stepped.last().backend, bytes, content);
    if !drawn.show_help {
        let rows = run.readers.last().rows@;
        let inner = table_area(area, drawn.sheets@.len() as int);
        let t = table_view(run.stepped.last(), drawn.viewport, drawn.palette, rows);
        let layout = t.layout(inner);
        assert forall|row: int, k: int, c: (u16, u16)|
            start <= row < end && p.dom().contains(c) && #[trigger] in_cell(
                t,
                inner,
                right,
                row,
                k,
                c,
            ) implies canvas::shows(
            frame_picture(p, area, right, drawn, rows)[c],
            column_x(t.widths, layout.first, layout.x, k),
            content_cell(content, row, layout.first + k),
            right,
            t.cell_style(row, layout.first + k),
            c.0 as int,
        ) by {
            lemma_frame_shows_cells(p, area, right, drawn, rows, row, k, c);
            assert(t.rows[row - start] == content[row]);
            assert(t.cell(row, layout.first + k) == content_cell(
                content,
                row,
                layout.first + k,
            ));
        }
    }
}

// ---------------------------------------------------------------------------
// Where things stand on the screen
// ---------------------------------------------------------------------------

/// Cells are drawn from their column on, and leave what is left of it.
proof fn lemma_cells_stay_right(
    p: Picture,
    t: TableView,
    layout: Layout,
    y: int,
    row: int,
    right: int,
    n: int,
    c: (u16, u16),
)
    requires
        p.dom().contains(c),
        c.0 < layout.x,
    ensures
        with_cells(p, t, layout, y, row, right, n).dom() == p.dom(),
        with_cells(p, t, layout, y, row, right, n)[c] == p[c],
    decreases n,
{
    if n > 0 {
        lemma_cells_stay_right(p, t, layout, y, row, right, n - 1, c);
        let col = layout.first + n - 1;
        let x = column_x(t.widths, layout.first, layout.x, n - 1);
        if n > 1 {
            lemma_columns_are_apart(t.widths, layout.first, layout.x, 0, n - 1);
        }
        let style = t.cell_style(row, col);
        let filled = canvas::with_box(
            with_cells(p, t, layout, y, row, right, n - 1),
            x,
            numbers::smaller(x + column_width(t.widths, col), right),
            y,
            y + 1,
            style.bg,
        );
        assert(filled.dom() =~= p.dom());
        assert(filled.dom().contains(c));
        canvas::lemma_text_stays_in_its_row(filled, x, y, t.cell(row, col), right, style);
    }
}

/// The rows of a table are drawn below its header.
proof fn lemma_rows_stay_below(
    p: Picture,
    t: TableView,
    area: Rect,
    right: int,
    n: int,
    c: (u16, u16),
)
    requires
        p.dom().contains(c),
        c.1 <= area.y,
    ensures
        with_rows(p, t, area, right, n)[c] == p[c],
    decreases n,
{
    if n > 0 {
        lemma_rows_stay_below(p, t, area, right, n - 1, c);
        lemma_rows_keep_cells(p, t, area, right, n - 1);
        let row = t.viewport.scroll_row + n - 1;
        if row < t.total_rows {
            lemma_row_is_drawn(
                with_rows(p, t, area, right, n - 1),
                t,
                area,
                area.y + n,
                row,
                right,
                c,
            );
        }
    }
}

/// A row is drawn in its row of the screen only, with its number in front of its cells.
proof fn lemma_row_is_drawn(
    p: Picture,
    t: TableView,
    area: Rect,
    y: int,
    row: int,
    right: int,
    c: (u16, u16),
)
    requires
        p.dom().contains(c),
    ensures
        with_row(p, t, area, y, row, right).dom() == p.dom(),
        c.1 != y ==> with_row(p, t, area, y, row, right)[c] == p[c],
        c.1 == y && area.x <= c.0 < canvas::right_of(area) && c.0 < t.layout(area).x
            ==> with_row(p, t, area, y, row, right)[c].symbol == (match canvas::char_in(
            t.layout(area).number_x,
            text::right_aligned(text::decimal(row + 1), t.layout(area).number_width),
            right,
            c.0 as int,
        ) {
            Some(ch) => seq![ch],
            None => seq![' '],
        }) && (canvas::char_in(
            t.layout(area).number_x,
            text::right_aligned(text::decimal(row + 1), t.layout(area).number_width),
            right,
            c.0 as int,
        ) is Some ==> with_row(p, t, area, y, row, right)[c].fg == Some(t.number_style(row).fg)
            && with_row(p, t, area, y, row, right)[c].bg == Some(t.number_style(row).bg)),
{
    let layout = t.layout(area);
    let filled = canvas::with_box(
        p,
        area.x as int,
        canvas::right_of(area),
        y,
        y + 1,
        t.row_bg(row),
    );
    let number = text::right_aligned(text::decimal(row + 1), layout.number_width);
    let style = t.number_style(row);
    let numbered = canvas::with_text(filled, layout.number_x, y, number, right, style);
    assert(filled.dom() =~= p.dom());
    assert(filled.dom().contains(c));
    canvas::lemma_text_stays_in_its_row(filled, layout.number_x, y, number, right, style);
    assert(numbered.dom().contains(c));
    lemma_cells_show_their_background(numbered, t, layout, y, row, right, layout.columns);
    if c.1 != y {
        lemma_cells_stay_in_their_row(numbered, t, layout, y, row, right, layout.columns, c);
    } else if c.0 < layout.x {
        lemma_cells_stay_right(numbered, t, layout, y, row, right, layout.columns, c);
        canvas::lemma_text_shows_its_characters(
            filled,
            layout.number_x,
            y,
            number,
            right,
            style,
            c,
        );
    }
}

/// The numbers in front of the rows, row by row.
proof fn lemma_rows_show_their_numbers(
    p: Picture,
    t: TableView,
    area: Rect,
    right: int,
    n: int,
    i: int,
    c: (u16, u16),
)
    requires
        0 <= i < n,
        t.viewport.scroll_row + i < t.total_rows,
        p.dom().contains(c),
        in_box(c, area.x as int, canvas::right_of(area), area.y + 1 + i),
        c.0 < t.layout(area).x,
    ensures
        with_rows(p, t, area, right, n)[c].symbol == (match canvas::char_in(
            t.layout(area).number_x,
            text::right_aligned(
                text::decimal(t.viewport.scroll_row + i + 1),
                t.layout(area).number_width,
            ),
            right,
            c.0 as int,
        ) {
            Some(ch) => seq![ch],
            None => seq![' '],
        }),
        canvas::char_in(
            t.layout(area).number_x,
            text::right_aligned(
                text::decimal(t.viewport.scroll_row + i + 1),
                t.layout(area).number_width,
            ),
            right,
            c.0 as int,
        ) is Some ==> with_rows(p, t, area, right, n)[c].fg == Some(
            t.number_style(t.viewport.scroll_row + i).fg,
        ) && with_rows(p, t, area, right, n)[c].bg == Some(
            t.number_style(t.viewport.scroll_row + i).bg,
        ),
    decreases n,
{
    lemma_rows_keep_cells(p, t, area, right, n - 1);
    let row = t.viewport.scroll_row + n - 1;
    if i < n - 1 {
        lemma_rows_show_their_numbers(p, t, area, right, n - 1, i, c);
    }
    if row < t.total_rows {
        lemma_row_is_drawn(
            with_rows(p, t, area, right, n - 1),
            t,
            area,
            area.y + n,
            row,
            right,
            c,
        );
    }
}

/// The header of a visible column stands where its cells stand. What is drawn in the
/// columns behind it leaves it as it is.
proof fn lemma_headers_show_their_text(
    p: Picture,
    t: TableView,
    layout: Layout,
    y: int,
    right: int,
    n: int,
    k: int,
    c: (u16, u16),
)
    requires
        0 <= k < n,
        p.dom().contains(c),
        in_box(
            c,
            column_x(t.widths, layout.first, layout.x, k),
            column_x(t.widths, layout.first, layout.x, k + 1),
            y,
        ),
    ensures
        with_headers(p, t, layout, y, right, n)[c] == (match canvas::char_in(
            column_x(t.widths, layout.first, layout.x, k),
            t.headers[layout.first + k],
            right,
            c.0 as int,
        ) {
            Some(ch) => canvas::inked(
                ch,
                Style { fg: t.palette.color_of(layout.first + k), bg: t.palette.header_bg },
            ),
            None => with_headers(p, t, layout, y, right, k)[c],
        }),
    decreases n,
{
    let col = layout.first + n - 1;
    let x = column_x(t.widths, layout.first, layout.x, n - 1);
    let style = Style { fg: t.palette.color_of(col), bg: t.palette.header_bg };
    let before = with_headers(p, t, layout, y, right, n - 1);
    lemma_headers_keep_cells(p, t, layout, y, right, n - 1);
    assert(before.dom().contains(c));
    if k < n - 1 {
        lemma_headers_show_their_text(p, t, layout, y, right, n - 1, k, c);
        if k + 1 < n - 1 {
            lemma_columns_are_apart(t.widths, layout.first, layout.x, k + 1, n - 1);
        }
        canvas::lemma_text_stays_in_its_row(before, x, y, t.headers[col], right, style);
    } else {
        canvas::lemma_text_shows_its_characters(before, x, y, t.headers[col], right, style, c);
    }
}

/// Where a column begins: behind the columns before it, each with three cells behind
/// it. `cells` are the cells that these columns take.
proof fn lemma_column_place(widths: Seq<usize>, first: int, x: int, cells: Seq<int>, k: int)
    requires
        0 <= first,
        0 <= k <= cells.len(),
        cells.len() == widths.len() - first,
        forall|i: int| 0 <= i < cells.len() ==> #[trigger] cells[i] == widths[first + i] + 3,
    ensures
        column_x(widths, first, x, k) == x + viewport::total(cells.take(k)),
    decreases k,
{
    if k > 0 {
        lemma_column_place(widths, first, x, cells, k - 1);
        assert(cells.take(k).drop_last() =~= cells.take(k - 1));
        assert(cells[k - 1] == widths[first + k - 1] + 3);
    } else {
        assert(cells.take(0) =~= Seq::<int>::empty());
    }
}

/// A column that ends within the area is one of the visible columns.
proof fn lemma_fitting_column_is_visible(
    widths: Seq<usize>,
    first: int,
    x: int,
    right: int,
    n: int,
    j: int,
    k: int,
)
    requires
        0 <= j <= k < n,
        column_x(widths, first, x, k) + column_width(widths, first + k) <= right,
    ensures
        k < columns_before(widths, first, x, right, n, j),
    decreases n - j,
{
    if j < k {
        lemma_columns_are_apart(widths, first, x, j, k);
        lemma_fitting_column_is_visible(widths, first, x, right, n, j + 1, k);
    } else {
        lemma_columns_before_grows(widths, first, x, right, n, j + 1);
    }
}

proof fn lemma_columns_before_grows(
    widths: Seq<usize>,
    first: int,
    x: int,
    right: int,
    n: int,
    j: int,
)
    ensures
        columns_before(widths, first, x, right, n, j) >= j,
    decreases n - j,
{
    if j < n && column_x(widths, first, x, j) + column_width(widths, first + j) <= right {
        lemma_columns_before_grows(widths, first, x, right, n, j + 1);
    }
}

/// A frame without help, drawn over a screen that is big enough for the header. What is
/// looked at is the `k`-th visible column, `x` cells from the left; `cells` are the
/// cells that the visible columns take, each with three cells behind it.
pub open spec fn column_in_sight(
    area: Rect,
    right: int,
    app: App,
    cells: Seq<int>,
    k: int,
    x: int,
) -> bool {
    let table = app.sheets@[app.active_sheet as int].1;
    let v = app.viewport;
    &&& !app.show_help
    &&& app.active_sheet < app.sheets@.len()
    &&& area.height >= (if app.sheets@.len() > 1 {
        3int
    } else {
        2
    })
    &&& table.column_widths@.len() == table.headers@.len()
    &&& v.scroll_col < table.headers@.len()
    &&& cells.len() == table.headers@.len() - v.scroll_col
    &&& forall|i: int|
        0 <= i < cells.len() ==> #[trigger] cells[i] == table.column_widths@[v.scroll_col + i] + 3
    &&& 0 <= k < cells.len()
    &&& k < v.visible_cols
    &&& x == area.x + 1 + (if v.row_num_width >= 3 {
        v.row_num_width as int
    } else {
        3
    }) + 3 + viewport::total(cells.take(k))
    &&& x + cells[k] - 3 <= area.x + area.width
    &&& x + cells[k] - 3 <= right
}

/// The header of a column stands above its cells: in the first row of the table, from
/// the column where its cells begin.
pub proof fn lemma_header_stands_above_column(
    p: Picture,
    area: Rect,
    right: int,
    app: App,
    rows: Seq<Vec<String>>,
    cells: Seq<int>,
    k: int,
    x: int,
    c: (u16, u16),
)
    requires
        column_in_sight(area, right, app, cells, k, x),
        p.dom().contains(c),
        c.1 == area.y,
        x <= c.0 < x + cells[k],
    ensures
        ({
            let col = app.viewport.scroll_col + k;
            let header = app.sheets@[app.active_sheet as int].1.headers@[col]@;
            let g = frame_picture(p, area, right, app, rows)[c];
            canvas::char_in(x, header, right, c.0 as int) matches Some(ch) ==> g.symbol == seq![ch]
                && g.fg == Some(app.palette.color_of(col)) && g.bg == Some(app.palette.header_bg)
        }),
        ({
            let header = app.sheets@[app.active_sheet as int].1.headers@[app.viewport.scroll_col
                + k]@;
            canvas::narrow(header) && c.0 < x + header.len() && c.0 < right ==> frame_picture(
                p,
                area,
                right,
                app,
                rows,
            )[c].symbol == seq![header[c.0 - x]]
        }),
{
    let sheets = app.sheets@;
    let table = sheets[app.active_sheet as int].1;
    let v = app.viewport;
    let inner = table_area(area, sheets.len() as int);
    let t = table_view(table, v, app.palette, rows);
    let layout = t.layout(inner);
    lemma_column_place(t.widths, layout.first, layout.x, cells, k);
    lemma_column_place(t.widths, layout.first, layout.x, cells, k + 1);
    assert(cells.take(k + 1).drop_last() =~= cells.take(k));
    lemma_fitting_column_is_visible(
        t.widths,
        layout.first,
        layout.x,
        canvas::right_of(inner),
        shown_columns(v, t.headers.len() as int),
        0,
        k,
    );
    let filled = canvas::with_box(
        p,
        inner.x as int,
        canvas::right_of(inner),
        inner.y as int,
        canvas::bottom_of(inner),
        app.palette.bg,
    );
    assert(filled.dom() =~= p.dom());
    let bar = canvas::with_box(
        filled,
        inner.x as int,
        canvas::right_of(inner),
        inner.y as int,
        inner.y + 1,
        t.palette.header_bg,
    );
    let mark = text::right_aligned("#"@, layout.number_width);
    let mark_style = Style { fg: t.palette.header_fg, bg: t.palette.header_bg };
    let numbered = canvas::with_text(bar, layout.number_x, inner.y as int, mark, right, mark_style);
    assert(bar.dom() =~= p.dom());
    canvas::lemma_text_stays_in_its_row(
        bar,
        layout.number_x,
        inner.y as int,
        mark,
        right,
        mark_style,
    );
    assert(numbered.dom().contains(c));
    lemma_headers_show_their_text(
        numbered,
        t,
        layout,
        inner.y as int,
        right,
        layout.columns,
        k,
        c,
    );
    let headed = with_header(filled, t, inner, right);
    lemma_header_keeps_cells(filled, t, inner, right);
    assert(headed.dom().contains(c));
    lemma_rows_stay_below(headed, t, inner, right, layout.rows, c);
    lemma_bars_leave_the_table(p, area, right, app, rows, c);
    let header = t.headers[layout.first + k];
    assert(header == table.headers@[v.scroll_col + k]@);
    if canvas::narrow(header) {
        canvas::lemma_narrow_text_in_place(x, header, right, c.0 as int);
    }
}

/// The bars below the table leave it as it is.
proof fn lemma_bars_leave_the_table(
    p: Picture,
    area: Rect,
    right: int,
    app: App,
    rows: Seq<Vec<String>>,
    c: (u16, u16),
)
    requires
        !app.show_help,
        p.dom().contains(c),
        c.1 < canvas::bottom_of(table_area(area, app.sheets@.len() as int)),
        area.height >= 1,
        app.sheets@[app.active_sheet as int].1.headers@.len() > 0
            || app.sheets@[app.active_sheet as int].1.backend.row_count() > 0,
    ensures
        frame_picture(p, area, right, app, rows)[c] == table_picture(
            canvas::with_box(
                p,
                area.x as int,
                canvas::right_of(area),
                area.y as int,
                canvas::bottom_of(table_area(area, app.sheets@.len() as int)),
                app.palette.bg,
            ),
            table_view(
                app.sheets@[app.active_sheet as int].1,
                app.viewport,
                app.palette,
                rows,
            ),
            table_area(area, app.sheets@.len() as int),
            right,
        )[c],
{
    let sheets = app.sheets@;
    let table = sheets[app.active_sheet as int].1;
    let inner = table_area(area, sheets.len() as int);
    let t = table_view(table, app.viewport, app.palette, rows);
    let filled = canvas::with_box(
        p,
        inner.x as int,
        canvas::right_of(inner),
        inner.y as int,
        canvas::bottom_of(inner),
        app.palette.bg,
    );
    assert(filled.dom() =~= p.dom());
    let drawn = table_picture(filled, t, inner, right);
    lemma_table_keeps_cells(filled, t, inner, right);
    assert(drawn.dom().contains(c));
    let names = sheet_names(sheets);
    let y = canvas::bottom_of(inner);
    let bracket = Style { fg: app.palette.row_num_fg, bg: app.palette.header_bg };
    let bar = canvas::with_box(
        drawn,
        area.x as int,
        canvas::right_of(area),
        y,
        y + 1,
        app.palette.header_bg,
    );
    let opened = canvas::with_char(bar, area.x + 2, y, '[', bracket);
    assert(opened.dom().contains(c));
    lemma_tabs_stay_in_their_row(
        opened,
        names,
        app.active_sheet as int,
        area.x + 3,
        y,
        canvas::right_of(area),
        app.palette,
        names.len() as int,
        c,
    );
    lemma_tab_bar_keeps_cells(drawn, area, y, names, app.active_sheet as int, app.palette);
}

/// A cell stands below the header of its column, one row of the screen further down for
/// each row of the table. It shows its text from the left of the column on and nothing
/// else, over the background of its row, or of the cursor in the cell of the cursor.
pub proof fn lemma_cell_stands_in_row_and_column(
    p: Picture,
    area: Rect,
    right: int,
    app: App,
    rows: Seq<Vec<String>>,
    cells: Seq<int>,
    k: int,
    x: int,
    i: int,
    c: (u16, u16),
)
    requires
        column_in_sight(area, right, app, cells, k, x),
        p.dom().contains(c),
        0 <= i < rows.len(),
        app.viewport.scroll_row + i < app.sheets@[app.active_sheet as int].1.backend.row_count(),
        i < area.height - (if app.sheets@.len() > 1 {
            3int
        } else {
            2
        }),
        c.1 == area.y + 1 + i,
        x <= c.0 < x + cells[k] - 3,
    ensures
        ({
            let row = app.viewport.scroll_row + i;
            let col = app.viewport.scroll_col + k;
            let s = if col < rows[i]@.len() {
                rows[i]@[col]@
            } else {
                Seq::empty()
            };
            let g = frame_picture(p, area, right, app, rows)[c];
            let at_cursor = row == app.viewport.cursor_row && col == app.viewport.cursor_col;
            &&& canvas::narrow(s) ==> g.symbol == (if c.0 < x + s.len() {
                seq![s[c.0 - x]]
            } else {
                seq![' ']
            })
            &&& g.bg == Some(
                if at_cursor {
                    app.palette.cursor_bg
                } else if row % 2 == 0 {
                    app.palette.row_bg_even
                } else {
                    app.palette.row_bg_odd
                },
            )
            &&& canvas::char_in(x, s, right, c.0 as int) matches Some(ch) ==> g.symbol == seq![ch]
                && g.fg == Some(
                if at_cursor {
                    app.palette.cursor_fg
                } else {
                    app.palette.color_of(col)
                },
            )
        }),
{
    let sheets = app.sheets@;
    let table = sheets[app.active_sheet as int].1;
    let v = app.viewport;
    let inner = table_area(area, sheets.len() as int);
    let t = table_view(table, v, app.palette, rows);
    let layout = t.layout(inner);
    lemma_column_place(t.widths, layout.first, layout.x, cells, k);
    lemma_fitting_column_is_visible(
        t.widths,
        layout.first,
        layout.x,
        canvas::right_of(inner),
        shown_columns(v, t.headers.len() as int),
        0,
        k,
    );
    let row = v.scroll_row + i;
    let col = v.scroll_col + k;
    assert(cells[k] == table.column_widths@[col] + 3);
    lemma_frame_shows_cells(p, area, right, app, rows, row, k, c);
    let s = if col < rows[i]@.len() {
        rows[i]@[col]@
    } else {
        Seq::empty()
    };
    assert(t.rows[i] == text::texts(rows[i]@));
    assert(t.cell(row, col) == s);
    if canvas::narrow(s) {
        canvas::lemma_narrow_text_in_place(x, s, right, c.0 as int);
    }
}

/// In front of each row stands its number, counted from one, at the right of the column
/// of row numbers.
pub proof fn lemma_row_number_stands_in_front(
    p: Picture,
    area: Rect,
    right: int,
    app: App,
    rows: Seq<Vec<String>>,
    i: int,
    c: (u16, u16),
)
    requires
        !app.show_help,
        app.active_sheet < app.sheets@.len(),
        0 <= i,
        app.viewport.scroll_row + i < app.sheets@[app.active_sheet as int].1.backend.row_count(),
        i < area.height - (if app.sheets@.len() > 1 {
            3int
        } else {
            2
        }),
        app.viewport.row_num_width >= 3,
        text::decimal(app.viewport.scroll_row + i + 1).len() <= app.viewport.row_num_width,
        canvas::narrow(text::decimal(app.viewport.scroll_row + i + 1)),
        width::char_columns(' ') == Some(1usize),
        p.dom().contains(c),
        c.1 == area.y + 1 + i,
        area.x < c.0 <= area.x + app.viewport.row_num_width,
        c.0 < area.x + area.width,
        c.0 < right,
    ensures
        ({
            let number = text::decimal(app.viewport.scroll_row + i + 1);
            let from_end = area.x + app.viewport.row_num_width - c.0;
            let row = app.viewport.scroll_row + i;
            let g = frame_picture(p, area, right, app, rows)[c];
            &&& g.symbol == (if from_end < number.len() {
                seq![number[number.len() - 1 - from_end]]
            } else {
                seq![' ']
            })
            &&& g.fg == Some(
                if row == app.viewport.cursor_row {
                    app.palette.cursor_fg
                } else {
                    app.palette.row_num_fg
                },
            )
            &&& g.bg == Some(
                if row == app.viewport.cursor_row {
                    app.palette.cursor_bg
                } else if row % 2 == 0 {
                    app.palette.row_bg_even
                } else {
                    app.palette.row_bg_odd
                },
            )
        }),
{
    let sheets = app.sheets@;
    let table = sheets[app.active_sheet as int].1;
    let v = app.viewport;
    let inner = table_area(area, sheets.len() as int);
    let t = table_view(table, v, app.palette, rows);
    let layout = t.layout(inner);
    let number = text::decimal(v.scroll_row + i + 1);
    let aligned = text::right_aligned(number, layout.number_width);
    assert forall|j: int| 0 <= j < aligned.len() implies width::char_columns(
        #[trigger] aligned[j],
    ) == Some(1usize) by {
        if j >= layout.number_width - number.len() {
            assert(aligned[j] == number[j - (layout.number_width - number.len())]);
        }
    }
    canvas::lemma_narrow_text_in_place(layout.number_x, aligned, right, c.0 as int);
    let filled = canvas::with_box(
        p,
        inner.x as int,
        canvas::right_of(inner),
        inner.y as int,
        canvas::bottom_of(inner),
        app.palette.bg,
    );
    assert(filled.dom() =~= p.dom());
    let headed = with_header(filled, t, inner, right);
    lemma_header_keeps_cells(filled, t, inner, right);
    assert(headed.dom().contains(c));
    lemma_rows_show_their_numbers(headed, t, inner, right, layout.rows, i, c);
    lemma_bars_leave_the_table(p, area, right, app, rows, c);
}

/// The rows that a frame shows are those of the table from the first visible one on, as
/// many as there are rows of the screen between the header and the bars. With several
/// sheets there are two bars, else one. Behind the help screen there are none.
pub proof fn lemma_frame_rows_fill_the_screen(area: Rect, app: App, i: int)
    requires
        app.active_sheet < app.sheets@.len(),
        0 <= i,
    ensures
        ({
            let (start, end) = frame_rows(area, app);
            let total = app.sheets@[app.active_sheet as int].1.backend.row_count();
            let row = app.viewport.scroll_row + i;
            &&& 0 <= start <= end <= total
            &&& app.show_help ==> start == end
            &&& !app.show_help && app.viewport.scroll_row < total ==> start
                == app.viewport.scroll_row
            &&& !app.show_help ==> (start <= row < end <==> row < total && i < area.height - (
            if app.sheets@.len() > 1 {
                3int
            } else {
                2
            }))
        }),
{
}

/// Tabs lie one behind the other.
proof fn lemma_tab_ends_grow(names: Seq<Seq<char>>, x: int, right: int, m: int, n: int)
    requires
        0 <= m <= n,
    ensures
        tab_end(names, x, right, m) + (n - m) <= tab_end(names, x, right, n) || m == 0,
        tab_end(names, x, right, n) >= x,
    decreases n,
{
    if n > 0 {
        if m < n {
            lemma_tab_ends_grow(names, x, right, m, n - 1);
        } else {
            lemma_tab_ends_grow(names, x, right, n - 1, n - 1);
        }
    }
}

/// Where the tabs end, as long as they fit: each takes its name, a space on either side
/// and a separator behind it.
proof fn lemma_tab_place(names: Seq<Seq<char>>, x: int, right: int, lens: Seq<int>, n: int)
    requires
        1 <= n <= names.len(),
        lens.len() == names.len(),
        forall|j: int| 0 <= j < lens.len() ==> #[trigger] lens[j] == names[j].len() + 3,
        x + viewport::total(lens.take(n)) - 1 < right,
    ensures
        tab_end(names, x, right, n) == x + viewport::total(lens.take(n)) - 1,
    decreases n,
{
    lemma_tab_label(names[n - 1]);
    let all = viewport::total(lens.take(n));
    let before = viewport::total(lens.take(n - 1));
    assert(lens.take(n).drop_last() =~= lens.take(n - 1));
    assert(lens.take(n).last() == lens[n - 1]);
    assert(all == before + names[n - 1].len() + 3);
    if n > 1 {
        lemma_tab_place(names, x, right, lens, n - 1);
        assert(tab_end(names, x, right, n - 1) + 1 == x + before);
    } else {
        assert(lens.take(0) =~= Seq::<int>::empty());
        assert(before == 0);
    }
    assert(tab_end(names, x, right, n) == x + before + tab_label(names[n - 1]).len());
}

/// The text of a tab is its name between two spaces.
proof fn lemma_tab_label(name: Seq<char>)
    ensures
        tab_label(name).len() == name.len() + 2,
        forall|i: int| 0 <= i < name.len() ==> #[trigger] tab_label(name)[1 + i] == name[i],
{
    reveal_strlit(" ");
}

/// A tab is left as it is by the tabs behind it.
proof fn lemma_tab_is_kept(
    p: Picture,
    names: Seq<Seq<char>>,
    active: int,
    x: int,
    y: int,
    right: int,
    palette: ColorPalette,
    m: int,
    n: int,
    c: (u16, u16),
)
    requires
        1 <= m <= n,
        p.dom().contains(c),
        c.0 < tab_end(names, x, right, m),
    ensures
        with_tabs(p, names, active, x, y, right, palette, n)[c] == with_tabs(
            p,
            names,
            active,
            x,
            y,
            right,
            palette,
            m,
        )[c],
    decreases n,
{
    if m < n {
        lemma_tab_is_kept(p, names, active, x, y, right, palette, m, n - 1, c);
        lemma_tab_ends_grow(names, x, right, m, n - 1);
        lemma_tabs_keep_cells(p, names, active, x, y, right, palette, n - 1);
    }
}

/// The tab bar names the sheets in their order, each with a space on either side and a
/// separator behind it, from the fourth column of the area on. The active one is drawn
/// in the colours of the cursor. `lens` are the columns that the tabs take.
pub proof fn lemma_tab_shows_the_name_of_its_sheet(
    p: Picture,
    area: Rect,
    right: int,
    app: App,
    rows: Seq<Vec<String>>,
    lens: Seq<int>,
    n: int,
    i: int,
    c: (u16, u16),
)
    requires
        !app.show_help,
        app.sheets@.len() > 1,
        0 <= n < app.sheets@.len(),
        area.height >= 2,
        lens.len() == app.sheets@.len(),
        forall|j: int| 0 <= j < lens.len() ==> #[trigger] lens[j] == app.sheets@[j].0@.len() + 3,
        area.x + 3 + viewport::total(lens.take(n + 1)) < area.x + area.width,
        0 <= i < app.sheets@[n].0@.len(),
        p.dom().contains(c),
        c.0 == area.x + 3 + viewport::total(lens.take(n)) + 1 + i,
        c.1 == area.y + area.height - 2,
    ensures
        ({
            let g = frame_picture(p, area, right, app, rows)[c];
            &&& g.symbol == seq![app.sheets@[n].0@[i]]
            &&& g.fg == Some(
                if n == app.active_sheet {
                    app.palette.cursor_fg
                } else {
                    app.palette.header_fg
                },
            )
            &&& g.bg == Some(
                if n == app.active_sheet {
                    app.palette.cursor_bg
                } else {
                    app.palette.header_bg
                },
            )
        }),
{
    let sheets = app.sheets@;
    let table = sheets[app.active_sheet as int].1;
    let inner = table_area(area, sheets.len() as int);
    let t = table_view(table, app.viewport, app.palette, rows);
    let filled = canvas::with_box(
        p,
        inner.x as int,
        canvas::right_of(inner),
        inner.y as int,
        canvas::bottom_of(inner),
        app.palette.bg,
    );
    assert(filled.dom() =~= p.dom());
    lemma_table_keeps_cells(filled, t, inner, right);
    let drawn = if table.backend.row_count() > 0 || table.headers@.len() > 0 {
        table_picture(filled, t, inner, right)
    } else {
        filled
    };
    assert(drawn.dom().contains(c));
    let names = sheet_names(sheets);
    assert forall|j: int| 0 <= j < lens.len() implies #[trigger] lens[j] == names[j].len() + 3 by {
        assert(names[j] == sheets[j].0@);
    }
    let y = canvas::bottom_of(inner);
    let edge = canvas::right_of(area);
    let x = area.x + 3;
    let bracket = Style { fg: app.palette.row_num_fg, bg: app.palette.header_bg };
    let bar = canvas::with_box(drawn, area.x as int, edge, y, y + 1, app.palette.header_bg);
    let opened = canvas::with_char(bar, area.x + 2, y, '[', bracket);
    assert(opened.dom().contains(c));
    assert(lens.take(n + 1).drop_last() =~= lens.take(n));
    assert(lens[n] == names[n].len() + 3);
    lemma_tab_place(names, x, edge, lens, n + 1);
    if n > 0 {
        lemma_tab_place(names, x, edge, lens, n);
    } else {
        assert(lens.take(0) =~= Seq::<int>::empty());
    }
    let active = app.active_sheet as int;
    let count = names.len() as int;
    lemma_tabs_keep_cells(opened, names, active, x, y, edge, app.palette, n);
    lemma_tabs_keep_cells(opened, names, active, x, y, edge, app.palette, n + 1);
    lemma_tabs_keep_cells(opened, names, active, x, y, edge, app.palette, count);
    lemma_tab_label(names[n]);
    assert(tab_label(names[n])[1 + i] == names[n][i]);
    lemma_tab_is_kept(opened, names, active, x, y, edge, app.palette, n + 1, count, c);
    lemma_tab_ends_grow(names, x, edge, n + 1, count);
    lemma_tab_bar_keeps_cells(drawn, area, y, names, active, app.palette);
}

/// The last row of the screen tells the row and the column of the cursor, counted from
/// one, and how many there are, and then the status message. A table without rows has no
/// place of the cursor to tell.
pub proof fn lemma_status_tells_where_the_cursor_is(
    p: Picture,
    area: Rect,
    right: int,
    app: App,
    rows: Seq<Vec<String>>,
    c: (u16, u16),
)
    requires
        !app.show_help,
        p.dom().contains(c),
        area.height >= 1,
        c.1 == area.y + area.height - 1,
        area.x <= c.0 < area.x + area.width,
    ensures
        ({
            let table = app.sheets@[app.active_sheet as int].1;
            let v = app.viewport;
            let total = table.backend.row_count();
            let place = if total > 0 {
                " Row "@ + text::decimal(v.cursor_row + 1) + "/"@ + text::decimal(total)
                    + "  Col "@ + text::decimal(v.cursor_col + 1) + "/"@ + text::decimal(
                    table.headers@.len() as int,
                ) + " "@
            } else {
                Seq::empty()
            };
            let line = place + app.status_message@;
            frame_picture(p, area, right, app, rows)[c].symbol == (if c.0 - area.x < line.len() {
                seq![line[c.0 - area.x]]
            } else {
                seq![' ']
            })
        }),
{
    lemma_status_bar_is_last(p, area, right, app, rows, c);
}

/// A line of help is left as it is by the lines below it.
proof fn lemma_help_line_is_kept(
    p: Picture,
    b: HelpBox,
    m: int,
    n: int,
    palette: ColorPalette,
    c: (u16, u16),
)
    requires
        0 <= m <= n,
        p.dom().contains(c),
        c.1 <= b.y + m,
    ensures
        with_help_lines(p, b, n, palette).dom() == p.dom(),
        with_help_lines(p, b, n, palette)[c] == with_help_lines(p, b, m, palette)[c],
    decreases n,
{
    lemma_help_lines_keep_background(p, b, n, palette);
    lemma_help_lines_keep_background(p, b, m, palette);
    if m < n {
        lemma_help_line_is_kept(p, b, m, n - 1, palette, c);
    }
}

/// On a screen that is large enough, the help screen shows its lines one below the other
/// in a box in the middle of the screen: the labels end in one column, and the
/// descriptions begin three columns behind it.
pub proof fn lemma_help_shows_its_lines(
    p: Picture,
    area: Rect,
    palette: ColorPalette,
    n: int,
    i: int,
    c: (u16, u16),
)
    requires
        area.width >= 61,
        area.height >= 40,
        0 <= n < help_lines().len(),
        help_lines()[n].0.len() > 0,
        0 <= i < help_lines()[n].1.len(),
        i < 35,
        p.dom().contains(c),
        c.0 == area.x + (area.width - 59) / 2 + 23 + i,
        c.1 == area.y + (area.height - 38) / 2 + 1 + n,
    ensures
        help_lines().len() == 33,
        help_picture(p, area, palette)[c].symbol == seq![help_lines()[n].1[i]],
{
    let b = help_box(area);
    let bg = palette.header_bg;
    let style = Style { fg: palette.header_fg, bg };
    let filled = canvas::with_box(
        p,
        area.x as int,
        canvas::right_of(area),
        area.y as int,
        canvas::bottom_of(area),
        bg,
    );
    let framed = with_frame(filled, b, style);
    let titled = canvas::with_line(framed, b.x + 2, b.y, " Help "@, b.x + b.width - 1, style);
    assert(filled.dom() =~= p.dom());
    assert(framed.dom() =~= p.dom());
    assert(titled.dom() =~= p.dom());
    assert(titled.dom().contains(c));
    let count = help_lines().len() as int;
    lemma_help_lines_keep_background(titled, b, n, palette);
    lemma_help_lines_keep_background(titled, b, n + 1, palette);
    lemma_help_line_is_kept(titled, b, n + 1, count, palette, c);
}

/// The help screen tells what each key does.
pub proof fn lemma_help_tells_of_each_key()
    ensures
        help_lines().contains(("h / Left"@, "Move cursor left one column"@)),
        help_lines().contains(("j / Down"@, "Move cursor down one row"@)),
        help_lines().contains(("k / Up"@, "Move cursor up one row"@)),
        help_lines().contains(("l / Right"@, "Move cursor right one column"@)),
        help_lines().contains(("H / Shift+Left"@, "Scroll view left one column"@)),
        help_lines().contains(("J / Shift+Down"@, "Scroll view down one row"@)),
        help_lines().contains(("K / Shift+Up"@, "Scroll view up one row"@)),
        help_lines().contains(("L / Shift+Right"@, "Scroll view right one column"@)),
        help_lines().contains(("gg"@, "Jump to first row  (press g twice)"@)),
        help_lines().contains(("G"@, "Jump to last row"@)),
        help_lines().contains(("0"@, "Jump to first column"@)),
        help_lines().contains(("$"@, "Jump to last column"@)),
        help_lines().contains(("Home"@, "Jump to first row"@)),
        help_lines().contains(("End"@, "Jump to last row"@)),
        help_lines().contains(("Ctrl+F"@, "Page down"@)),
        help_lines().contains(("Ctrl+B"@, "Page up"@)),
        help_lines().contains(("PageDown"@, "Page down"@)),
        help_lines().contains(("PageUp"@, "Page up"@)),
        help_lines().contains(("[ / ]"@, "Previous / next sheet"@)),
        help_lines().contains(("?"@, "Show / hide this help screen"@)),
        help_lines().contains(("Esc / q"@, "Quit dview"@)),
        help_lines().contains(("Ctrl+C"@, "Quit dview"@)),
{
    let lines = help_lines();
    assert(lines[1] == ("h / Left"@, "Move cursor left one column"@));
    assert(lines[2] == ("j / Down"@, "Move cursor down one row"@));
    assert(lines[3] == ("k / Up"@, "Move cursor up one row"@));
    assert(lines[4] == ("l / Right"@, "Move cursor right one column"@));
    assert(lines[7] == ("H / Shift+Left"@, "Scroll view left one column"@));
    assert(lines[8] == ("J / Shift+Down"@, "Scroll view down one row"@));
    assert(lines[9] == ("K / Shift+Up"@, "Scroll view up one row"@));
    assert(lines[10] == ("L / Shift+Right"@, "Scroll view right one column"@));
    assert(lines[13] == ("gg"@, "Jump to first row  (press g twice)"@));
    assert(lines[14] == ("G"@, "Jump to last row"@));
    assert(lines[15] == ("0"@, "Jump to first column"@));
    assert(lines[16] == ("$"@, "Jump to last column"@));
    assert(lines[17] == ("Home"@, "Jump to first row"@));
    assert(lines[18] == ("End"@, "Jump to last row"@));
    assert(lines[21] == ("Ctrl+F"@, "Page down"@));
    assert(lines[22] == ("Ctrl+B"@, "Page up"@));
    assert(lines[23] == ("PageDown"@, "Page down"@));
    assert(lines[24] == ("PageUp"@, "Page up"@));
    assert(lines[27] == ("[ / ]"@, "Previous / next sheet"@));
    assert(lines[30] == ("?"@, "Show / hide this help screen"@));
    assert(lines[31] == ("Esc / q"@, "Quit dview"@));
    assert(lines[32] == ("Ctrl+C"@, "Quit dview"@));
}

/// After a frame was drawn, the viewport has just the rows that the frame has room for
/// between the header and the bars: where the cursor is one of its rows, the row of the
/// cursor is on the screen. What is seen begins where it began.
pub proof fn lemma_viewport_fits_the_screen(app: App, area: Rect, next: App)
    requires
        fitted_to(app, area, next),
        app.active_sheet < app.sheets@.len(),
    ensures
        next.viewport.cursor_row == app.viewport.cursor_row,
        next.viewport.cursor_col == app.viewport.cursor_col,
        next.viewport.scroll_row == app.viewport.scroll_row,
        next.viewport.scroll_col == app.viewport.scroll_col,
        next.sheets == app.sheets && next.active_sheet == app.active_sheet,
        next.palette == app.palette && next.status_message == app.status_message,
        next.running == app.running && next.show_help == app.show_help,
        next.gg_pending == app.gg_pending,
        !app.show_help ==> ({
            let room = area.height - (if app.sheets@.len() > 1 {
                3int
            } else {
                2
            });
            &&& room >= 0 ==> next.viewport.visible_rows == room
            &&& room < 0 ==> next.viewport.visible_rows == 0
            &&& next.viewport.row_visible() && next.viewport.cursor_row
                < app.sheets@[app.active_sheet as int].1.backend.row_count() ==> frame_rows(
                area,
                next,
            ).0 <= next.viewport.cursor_row < frame_rows(area, next).1
        }),
{
}

/// Every column that the viewport counts as visible, but for a first one that is too
/// wide, has a place on the screen: the columns that are counted and the columns that are
/// drawn agree.
pub proof fn lemma_counted_columns_are_drawn(
    app: App,
    area: Rect,
    next: App,
    rows: Seq<Vec<String>>,
    cells: Seq<int>,
)
    requires
        fitted_to(app, area, next),
        !app.show_help,
        app.active_sheet < app.sheets@.len(),
        app.sheets@[app.active_sheet as int].1.column_widths@.len()
            == app.sheets@[app.active_sheet as int].1.headers@.len(),
        app.viewport.scroll_col < app.sheets@[app.active_sheet as int].1.headers@.len(),
        next.viewport.visible_cols > 1,
        cells.len() == app.sheets@[app.active_sheet as int].1.headers@.len()
            - app.viewport.scroll_col,
        forall|i: int|
            0 <= i < cells.len() ==> #[trigger] cells[i]
                == app.sheets@[app.active_sheet as int].1.column_widths@[app.viewport.scroll_col
                + i] + 3,
    ensures
        ({
            let table = next.sheets@[next.active_sheet as int].1;
            let inner = table_area(area, next.sheets@.len() as int);
            table_view(table, next.viewport, next.palette, rows).layout(inner).columns
                == next.viewport.visible_cols
        }),
{
    let table = next.sheets@[next.active_sheet as int].1;
    let inner = table_area(area, next.sheets@.len() as int);
    let v = next.viewport;
    let t = table_view(table, v, next.palette, rows);
    let layout = t.layout(inner);
    let n = v.visible_cols as int;
    viewport::lemma_shown_columns_fill_the_screen(
        app.viewport,
        inner.width as int,
        inner.height as int,
        table.column_widths@,
        table.backend.row_count(),
        v,
        cells,
    );
    let shown = shown_columns(v, t.headers.len() as int);
    assert(shown == n);
    lemma_column_place(t.widths, layout.first, layout.x, cells, n - 1);
    assert(cells.take(n).drop_last() =~= cells.take(n - 1));
    assert(cells[n - 1] == table.column_widths@[v.scroll_col + n - 1] + 3);
    lemma_fitting_column_is_visible(
        t.widths,
        layout.first,
        layout.x,
        canvas::right_of(inner),
        shown,
        0,
        n - 1,
    );
    lemma_columns_before_bounded(
        t.widths,
        layout.first,
        layout.x,
        canvas::right_of(inner),
        shown,
        0,
    );
}

proof fn lemma_columns_before_bounded(
    widths: Seq<usize>,
    first: int,
    x: int,
    right: int,
    n: int,
    j: int,
)
    requires
        j <= n,
    ensures
        columns_before(widths, first, x, right, n, j) <= n,
    decreases n - j,
{
    if j < n && column_x(widths, first, x, j) + column_width(widths, first + j) <= right {
        lemma_columns_before_bounded(widths, first, x, right, n, j + 1);
    }
}

/// Below the last row of the table nothing is shown but the background.
pub proof fn lemma_nothing_below_the_last_row(
    p: Picture,
    area: Rect,
    right: int,
    app: App,
    rows: Seq<Vec<String>>,
    i: int,
    c: (u16, u16),
)
    requires
        !app.show_help,
        app.active_sheet < app.sheets@.len(),
        app.sheets@[app.active_sheet as int].1.headers@.len() > 0,
        0 <= i,
        app.viewport.scroll_row + i >= app.sheets@[app.active_sheet as int].1.backend.row_count(),
        i < area.height - (if app.sheets@.len() > 1 {
            3int
        } else {
            2
        }),
        p.dom().contains(c),
        c.1 == area.y + 1 + i,
        area.x <= c.0 < area.x + area.width,
    ensures
        frame_picture(p, area, right, app, rows)[c].symbol == seq![' '],
        frame_picture(p, area, right, app, rows)[c].bg == Some(app.palette.bg),
{
    let sheets = app.sheets@;
    let table = sheets[app.active_sheet as int].1;
    let inner = table_area(area, sheets.len() as int);
    let t = table_view(table, app.viewport, app.palette, rows);
    let filled = canvas::with_box(
        p,
        inner.x as int,
        canvas::right_of(inner),
        inner.y as int,
        canvas::bottom_of(inner),
        app.palette.bg,
    );
    assert(filled.dom() =~= p.dom());
    let headed = with_header(filled, t, inner, right);
    lemma_header_keeps_cells(filled, t, inner, right);
    assert(headed.dom().contains(c));
    lemma_header_stays_in_its_row(filled, t, inner, right, c);
    lemma_rows_stay_above(headed, t, inner, right, t.layout(inner).rows, i, c);
    lemma_bars_leave_the_table(p, area, right, app, rows, c);
}

/// The header is drawn in its row only.
proof fn lemma_header_stays_in_its_row(
    p: Picture,
    t: TableView,
    area: Rect,
    right: int,
    c: (u16, u16),
)
    requires
        p.dom().contains(c),
        c.1 != area.y,
    ensures
        with_header(p, t, area, right)[c] == p[c],
{
    let layout = t.layout(area);
    let y = area.y as int;
    let bar = canvas::with_box(
        p,
        area.x as int,
        canvas::right_of(area),
        y,
        y + 1,
        t.palette.header_bg,
    );
    let mark = text::right_aligned("#"@, layout.number_width);
    let style = Style { fg: t.palette.header_fg, bg: t.palette.header_bg };
    assert(bar.dom() =~= p.dom());
    assert(bar.dom().contains(c));
    canvas::lemma_text_stays_in_its_row(bar, layout.number_x, y, mark, right, style);
    let numbered = canvas::with_text(bar, layout.number_x, y, mark, right, style);
    assert(numbered.dom().contains(c));
    lemma_headers_stay_in_their_row(numbered, t, layout, y, right, layout.columns, c);
}

proof fn lemma_headers_stay_in_their_row(
    p: Picture,
    t: TableView,
    layout: Layout,
    y: int,
    right: int,
    n: int,
    c: (u16, u16),
)
    requires
        p.dom().contains(c),
        c.1 != y,
    ensures
        with_headers(p, t, layout, y, right, n)[c] == p[c],
    decreases n,
{
    if n > 0 {
        let before = with_headers(p, t, layout, y, right, n - 1);
        let col = layout.first + n - 1;
        lemma_headers_stay_in_their_row(p, t, layout, y, right, n - 1, c);
        lemma_headers_keep_cells(p, t, layout, y, right, n - 1);
        assert(before.dom().contains(c));
        canvas::lemma_text_stays_in_its_row(
            before,
            column_x(t.widths, layout.first, layout.x, n - 1),
            y,
            t.headers[col],
            right,
            Style { fg: t.palette.color_of(col), bg: t.palette.header_bg },
        );
    }
}

/// Rows that the table does not have are not drawn.
proof fn lemma_rows_stay_above(
    p: Picture,
    t: TableView,
    area: Rect,
    right: int,
    n: int,
    i: int,
    c: (u16, u16),
)
    requires
        0 <= i,
        t.viewport.scroll_row + i >= t.total_rows,
        p.dom().contains(c),
        c.1 == area.y + 1 + i,
    ensures
        with_rows(p, t, area, right, n)[c] == p[c],
    decreases n,
{
    if n > 0 {
        lemma_rows_stay_above(p, t, area, right, n - 1, i, c);
        lemma_rows_keep_cells(p, t, area, right, n - 1);
        let row = t.viewport.scroll_row + n - 1;
        if row < t.total_rows {
            lemma_row_is_drawn(
                with_rows(p, t, area, right, n - 1),
                t,
                area,
                area.y + n,
                row,
                right,
                c,
            );
        }
    }
}

/// The help screen has its title in the upper edge of its box, from the third column on,
/// and in its last line but one tells how to close it.
pub proof fn lemma_help_title_and_footer(
    p: Picture,
    area: Rect,
    palette: ColorPalette,
    i: int,
    c: (u16, u16),
    d: (u16, u16),
)
    requires
        area.width >= 61,
        area.height >= 40,
        p.dom().contains(c),
        p.dom().contains(d),
        0 <= i,
        c.0 == area.x + (area.width - 59) / 2 + 2 + i,
        c.1 == area.y + (area.height - 38) / 2,
        d.0 == area.x + (area.width - 59) / 2 + 1 + 13 + i,
        d.1 == area.y + (area.height - 38) / 2 + 36,
    ensures
        i < 6 ==> help_picture(p, area, palette)[c].symbol == seq![
            seq![' ', 'H', 'e', 'l', 'p', ' '][i],
        ],
        i < " Press Esc or ? to close help "@.len() ==> help_picture(p, area, palette)[d].symbol
            == seq![" Press Esc or ? to close help "@[i]],
{
    reveal_strlit(" Help ");
    reveal_strlit(" Press Esc or ? to close help ");
    let b = help_box(area);
    let bg = palette.header_bg;
    let style = Style { fg: palette.header_fg, bg };
    let filled = canvas::with_box(
        p,
        area.x as int,
        canvas::right_of(area),
        area.y as int,
        canvas::bottom_of(area),
        bg,
    );
    let framed = with_frame(filled, b, style);
    let titled = canvas::with_line(framed, b.x + 2, b.y, " Help "@, b.x + b.width - 1, style);
    assert(filled.dom() =~= p.dom());
    assert(framed.dom() =~= p.dom());
    assert(titled.dom() =~= p.dom());
    let count = help_lines().len() as int;
    assert(titled.dom().contains(c) && titled.dom().contains(d));
    lemma_help_lines_keep_background(titled, b, count, palette);
    lemma_help_line_is_kept(titled, b, 0, count, palette, c);
    assert(" Help "@ =~= seq![' ', 'H', 'e', 'l', 'p', ' ']);
}

/// A help label ends in the twentieth column of its box, and a heading begins in the
/// third one.
pub proof fn lemma_help_shows_its_labels(
    p: Picture,
    area: Rect,
    palette: ColorPalette,
    n: int,
    i: int,
    c: (u16, u16),
)
    requires
        area.width >= 61,
        area.height >= 40,
        0 <= n < help_lines().len(),
        help_lines()[n].0.len() <= 18,
        0 <= i,
        help_lines()[n].0.len() > 0 ==> i < help_lines()[n].0.len(),
        help_lines()[n].0.len() == 0 ==> i < help_lines()[n].1.len() && i < 56,
        p.dom().contains(c),
        c.0 == area.x + (area.width - 59) / 2 + 2 + i + (if help_lines()[n].0.len() > 0 {
            18 - help_lines()[n].0.len()
        } else {
            0
        }),
        c.1 == area.y + (area.height - 38) / 2 + 1 + n,
    ensures
        help_lines()[n].0.len() > 0 ==> help_picture(p, area, palette)[c].symbol == seq![
            help_lines()[n].0[i],
        ],
        help_lines()[n].0.len() == 0 ==> help_picture(p, area, palette)[c].symbol == seq![
            help_lines()[n].1[i],
        ],
{
    let b = help_box(area);
    let bg = palette.header_bg;
    let style = Style { fg: palette.header_fg, bg };
    let filled = canvas::with_box(
        p,
        area.x as int,
        canvas::right_of(area),
        area.y as int,
        canvas::bottom_of(area),
        bg,
    );
    let framed = with_frame(filled, b, style);
    let titled = canvas::with_line(framed, b.x + 2, b.y, " Help "@, b.x + b.width - 1, style);
    assert(filled.dom() =~= p.dom());
    assert(framed.dom() =~= p.dom());
    assert(titled.dom() =~= p.dom());
    assert(titled.dom().contains(c));
    let count = help_lines().len() as int;
    lemma_help_lines_keep_background(titled, b, n, palette);
    lemma_help_lines_keep_background(titled, b, n + 1, palette);
    lemma_help_line_is_kept(titled, b, n + 1, count, palette, c);
    let label = help_lines()[n].0;
    if label.len() > 0 {
        let aligned = text::right_aligned(label, 18);
        assert(aligned.len() == 18);
        assert(aligned[18 - label.len() + i] == label[i]);
    }
}

/// The box of the help screen has a corner in each of its corners.
pub proof fn lemma_help_box_has_corners(
    p: Picture,
    area: Rect,
    palette: ColorPalette,
    c: (u16, u16),
)
    requires
        area.width >= 61,
        area.height >= 40,
        p.dom().contains(c),
    ensures
        ({
            let x = area.x + (area.width - 59) / 2;
            let y = area.y + (area.height - 38) / 2;
            let g = help_picture(p, area, palette)[c];
            &&& c.0 == x && c.1 == y ==> g.symbol == seq!['┌']
            &&& c.0 == x + 58 && c.1 == y ==> g.symbol == seq!['┐']
            &&& c.0 == x && c.1 == y + 37 ==> g.symbol == seq!['└']
            &&& c.0 == x + 58 && c.1 == y + 37 ==> g.symbol == seq!['┘']
            &&& (c.0 == x || c.0 == x + 58) && y < c.1 < y + 37 ==> g.symbol == seq!['│']
        }),
{
    reveal_strlit(" Help ");
    reveal_strlit(" Press Esc or ? to close help ");
    let b = help_box(area);
    let bg = palette.header_bg;
    let style = Style { fg: palette.header_fg, bg };
    let filled = canvas::with_box(
        p,
        area.x as int,
        canvas::right_of(area),
        area.y as int,
        canvas::bottom_of(area),
        bg,
    );
    let framed = with_frame(filled, b, style);
    let titled = canvas::with_line(framed, b.x + 2, b.y, " Help "@, b.x + b.width - 1, style);
    assert(filled.dom() =~= p.dom());
    assert(framed.dom() =~= p.dom());
    assert(titled.dom() =~= p.dom());
    assert(titled.dom().contains(c));
    let count = help_lines().len() as int;
    lemma_help_lines_keep_background(titled, b, count, palette);
    if c.0 == b.x || c.0 == b.x + 58 {
        lemma_help_lines_keep_the_edge(titled, b, count, palette, c);
    }
}

/// Help lines leave the frame of their box as it is.
proof fn lemma_help_lines_keep_the_edge(
    p: Picture,
    b: HelpBox,
    n: int,
    palette: ColorPalette,
    c: (u16, u16),
)
    requires
        p.dom().contains(c),
        c.0 == b.x || c.0 >= b.x + b.width - 1,
    ensures
        with_help_lines(p, b, n, palette)[c] == p[c],
    decreases n,
{
    if n > 0 {
        lemma_help_lines_keep_the_edge(p, b, n - 1, palette, c);
        lemma_help_lines_keep_background(p, b, n - 1, palette);
    }
}

/// Between two tabs stands a line.
pub proof fn lemma_tabs_are_set_apart(
    p: Picture,
    area: Rect,
    right: int,
    app: App,
    rows: Seq<Vec<String>>,
    lens: Seq<int>,
    n: int,
    c: (u16, u16),
)
    requires
        !app.show_help,
        app.sheets@.len() > 1,
        1 <= n < app.sheets@.len(),
        area.height >= 2,
        lens.len() == app.sheets@.len(),
        forall|j: int| 0 <= j < lens.len() ==> #[trigger] lens[j] == app.sheets@[j].0@.len() + 3,
        area.x + 3 + viewport::total(lens.take(n + 1)) < area.x + area.width,
        p.dom().contains(c),
        c.0 == area.x + 3 + viewport::total(lens.take(n)) - 1,
        c.1 == area.y + area.height - 2,
    ensures
        frame_picture(p, area, right, app, rows)[c].symbol == seq!['│'],
{
    let sheets = app.sheets@;
    let table = sheets[app.active_sheet as int].1;
    let inner = table_area(area, sheets.len() as int);
    let t = table_view(table, app.viewport, app.palette, rows);
    let filled = canvas::with_box(
        p,
        inner.x as int,
        canvas::right_of(inner),
        inner.y as int,
        canvas::bottom_of(inner),
        app.palette.bg,
    );
    assert(filled.dom() =~= p.dom());
    lemma_table_keeps_cells(filled, t, inner, right);
    let drawn = if table.backend.row_count() > 0 || table.headers@.len() > 0 {
        table_picture(filled, t, inner, right)
    } else {
        filled
    };
    assert(drawn.dom().contains(c));
    let names = sheet_names(sheets);
    assert forall|j: int| 0 <= j < lens.len() implies #[trigger] lens[j] == names[j].len() + 3 by {
        assert(names[j] == sheets[j].0@);
    }
    let y = canvas::bottom_of(inner);
    let edge = canvas::right_of(area);
    let x = area.x + 3;
    let bracket = Style { fg: app.palette.row_num_fg, bg: app.palette.header_bg };
    let bar = canvas::with_box(drawn, area.x as int, edge, y, y + 1, app.palette.header_bg);
    let opened = canvas::with_char(bar, area.x + 2, y, '[', bracket);
    assert(opened.dom().contains(c));
    assert(lens.take(n + 1).drop_last() =~= lens.take(n));
    assert(lens.take(n + 1).last() == lens[n]);
    lemma_tab_place(names, x, edge, lens, n + 1);
    lemma_tab_place(names, x, edge, lens, n);
    let active = app.active_sheet as int;
    let count = names.len() as int;
    lemma_tabs_keep_cells(opened, names, active, x, y, edge, app.palette, n);
    lemma_tabs_keep_cells(opened, names, active, x, y, edge, app.palette, n + 1);
    lemma_tabs_keep_cells(opened, names, active, x, y, edge, app.palette, count);
    lemma_tab_is_kept(opened, names, active, x, y, edge, app.palette, n + 1, count, c);
    lemma_tab_ends_grow(names, x, edge, n + 1, count);
    lemma_tab_bar_keeps_cells(drawn, area, y, names, active, app.palette);
}

/// Above the row numbers stands a `#`, over the last digit of the numbers.
pub proof fn lemma_number_sign_stands_above_numbers(
    p: Picture,
    area: Rect,
    right: int,
    app: App,
    rows: Seq<Vec<String>>,
    c: (u16, u16),
)
    requires
        !app.show_help,
        app.active_sheet < app.sheets@.len(),
        app.sheets@[app.active_sheet as int].1.headers@.len() > 0,
        area.height >= (if app.sheets@.len() > 1 {
            3int
        } else {
            2
        }),
        app.viewport.row_num_width >= 3,
        width::char_columns(' ') == Some(1usize),
        width::char_columns('#') == Some(1usize),
        p.dom().contains(c),
        c.1 == area.y,
        c.0 == area.x + app.viewport.row_num_width,
        c.0 < area.x + area.width,
        c.0 < right,
    ensures
        frame_picture(p, area, right, app, rows)[c].symbol == seq!['#'],
        frame_picture(p, area, right, app, rows)[c].bg == Some(app.palette.header_bg),
{
    reveal_strlit("#");
    let sheets = app.sheets@;
    let table = sheets[app.active_sheet as int].1;
    let inner = table_area(area, sheets.len() as int);
    let t = table_view(table, app.viewport, app.palette, rows);
    let layout = t.layout(inner);
    let filled = canvas::with_box(
        p,
        inner.x as int,
        canvas::right_of(inner),
        inner.y as int,
        canvas::bottom_of(inner),
        app.palette.bg,
    );
    assert(filled.dom() =~= p.dom());
    let y = inner.y as int;
    let bar = canvas::with_box(
        filled,
        inner.x as int,
        canvas::right_of(inner),
        y,
        y + 1,
        t.palette.header_bg,
    );
    let mark = text::right_aligned("#"@, layout.number_width);
    let style = Style { fg: t.palette.header_fg, bg: t.palette.header_bg };
    assert(bar.dom() =~= p.dom());
    assert(bar.dom().contains(c));
    canvas::lemma_text_stays_in_its_row(bar, layout.number_x, y, mark, right, style);
    canvas::lemma_text_shows_its_characters(bar, layout.number_x, y, mark, right, style, c);
    assert forall|j: int| 0 <= j < mark.len() implies width::char_columns(#[trigger] mark[j])
        == Some(1usize) by {
        assert(mark[j] == ' ' || mark[j] == '#');
    }
    canvas::lemma_narrow_text_in_place(layout.number_x, mark, right, c.0 as int);
    assert(mark[layout.number_width - 1] == '#');
    let numbered = canvas::with_text(bar, layout.number_x, y, mark, right, style);
    assert(numbered.dom().contains(c));
    lemma_headers_stay_right(numbered, t, layout, y, right, layout.columns, c);
    let headed = with_header(filled, t, inner, right);
    lemma_header_keeps_cells(filled, t, inner, right);
    assert(headed.dom().contains(c));
    lemma_rows_stay_below(headed, t, inner, right, layout.rows, c);
    lemma_bars_leave_the_table(p, area, right, app, rows, c);
}

/// Headers are drawn from their column on, and leave what is left of it.
proof fn lemma_headers_stay_right(
    p: Picture,
    t: TableView,
    layout: Layout,
    y: int,
    right: int,
    n: int,
    c: (u16, u16),
)
    requires
        p.dom().contains(c),
        c.0 < layout.x,
    ensures
        with_headers(p, t, layout, y, right, n)[c] == p[c],
    decreases n,
{
    if n > 0 {
        lemma_headers_stay_right(p, t, layout, y, right, n - 1, c);
        lemma_headers_keep_cells(p, t, layout, y, right, n - 1);
        if n > 1 {
            lemma_columns_are_apart(t.widths, layout.first, layout.x, 0, n - 1);
        }
        let col = layout.first + n - 1;
        canvas::lemma_text_stays_in_its_row(
            with_headers(p, t, layout, y, right, n - 1),
            column_x(t.widths, layout.first, layout.x, n - 1),
            y,
            t.headers[col],
            right,
            Style { fg: t.palette.color_of(col), bg: t.palette.header_bg },
        );
    }
}

/// A text that is wider than its column goes on in the space behind it, up to the next
/// column.
proof fn lemma_cells_show_overflow(
    p: Picture,
    t: TableView,
    layout: Layout,
    y: int,
    row: int,
    right: int,
    n: int,
    k: int,
    c: (u16, u16),
)
    requires
        0 <= k < n,
        p.dom().contains(c),
        in_box(
            c,
            column_x(t.widths, layout.first, layout.x, k),
            column_x(t.widths, layout.first, layout.x, k + 1),
            y,
        ),
        canvas::char_in(
            column_x(t.widths, layout.first, layout.x, k),
            t.cell(row, layout.first + k),
            right,
            c.0 as int,
        ) is Some,
    ensures
        with_cells(p, t, layout, y, row, right, n)[c] == canvas::inked(
            canvas::char_in(
                column_x(t.widths, layout.first, layout.x, k),
                t.cell(row, layout.first + k),
                right,
                c.0 as int,
            )->0,
            t.cell_style(row, layout.first + k),
        ),
    decreases n,
{
    let col = layout.first + n - 1;
    let x = column_x(t.widths, layout.first, layout.x, n - 1);
    let style = t.cell_style(row, col);
    let before = with_cells(p, t, layout, y, row, right, n - 1);
    let filled = canvas::with_box(
        before,
        x,
        numbers::smaller(x + column_width(t.widths, col), right),
        y,
        y + 1,
        style.bg,
    );
    lemma_cells_show_their_background(p, t, layout, y, row, right, n - 1);
    assert(filled.dom() =~= p.dom());
    assert(filled.dom().contains(c));
    canvas::lemma_text_stays_in_its_row(filled, x, y, t.cell(row, col), right, style);
    if k < n - 1 {
        lemma_cells_show_overflow(p, t, layout, y, row, right, n - 1, k, c);
        if k + 1 < n - 1 {
            lemma_columns_are_apart(t.widths, layout.first, layout.x, k + 1, n - 1);
        }
    } else {
        canvas::lemma_text_shows_its_characters(
            filled,
            x,
            y,
            t.cell(row, col),
            right,
            style,
            c,
        );
    }
}

proof fn lemma_rows_show_overflow(
    p: Picture,
    t: TableView,
    area: Rect,
    right: int,
    n: int,
    i: int,
    k: int,
    c: (u16, u16),
)
    requires
        0 <= i < n,
        t.viewport.scroll_row + i < t.total_rows,
        0 <= k < t.layout(area).columns,
        p.dom().contains(c),
        in_box(
            c,
            column_x(t.widths, t.layout(area).first, t.layout(area).x, k),
            column_x(t.widths, t.layout(area).first, t.layout(area).x, k + 1),
            area.y + 1 + i,
        ),
        canvas::char_in(
            column_x(t.widths, t.layout(area).first, t.layout(area).x, k),
            t.cell(t.viewport.scroll_row + i, t.layout(area).first + k),
            right,
            c.0 as int,
        ) is Some,
    ensures
        with_rows(p, t, area, right, n)[c] == canvas::inked(
            canvas::char_in(
                column_x(t.widths, t.layout(area).first, t.layout(area).x, k),
                t.cell(t.viewport.scroll_row + i, t.layout(area).first + k),
                right,
                c.0 as int,
            )->0,
            t.cell_style(t.viewport.scroll_row + i, t.layout(area).first + k),
        ),
    decreases n,
{
    let layout = t.layout(area);
    let before = with_rows(p, t, area, right, n - 1);
    let row = t.viewport.scroll_row + n - 1;
    let y = area.y + n;
    lemma_rows_keep_cells(p, t, area, right, n - 1);
    if i < n - 1 {
        lemma_rows_show_overflow(p, t, area, right, n - 1, i, k, c);
        if row < t.total_rows {
            lemma_row_is_drawn(before, t, area, y, row, right, c);
        }
    } else {
        let filled = canvas::with_box(
            before,
            area.x as int,
            canvas::right_of(area),
            y,
            y + 1,
            t.row_bg(row),
        );
        let number = text::right_aligned(text::decimal(row + 1), layout.number_width);
        let style = t.number_style(row);
        assert(filled.dom() =~= before.dom());
        canvas::lemma_text_stays_in_its_row(filled, layout.number_x, y, number, right, style);
        let numbered = canvas::with_text(filled, layout.number_x, y, number, right, style);
        assert(numbered.dom().contains(c));
        lemma_cells_show_overflow(numbered, t, layout, y, row, right, layout.columns, k, c);
    }
}

/// A cell whose text is wider than its column goes on in the cells between its column and
/// the next one.
pub proof fn lemma_wide_cell_goes_on(
    p: Picture,
    area: Rect,
    right: int,
    app: App,
    rows: Seq<Vec<String>>,
    cells: Seq<int>,
    k: int,
    x: int,
    i: int,
    c: (u16, u16),
)
    requires
        column_in_sight(area, right, app, cells, k, x),
        p.dom().contains(c),
        0 <= i < rows.len(),
        app.viewport.scroll_row + i < app.sheets@[app.active_sheet as int].1.backend.row_count(),
        i < area.height - (if app.sheets@.len() > 1 {
            3int
        } else {
            2
        }),
        c.1 == area.y + 1 + i,
        x <= c.0 < x + cells[k],
        c.0 < right,
        app.viewport.scroll_col + k < rows[i]@.len(),
        canvas::narrow(rows[i]@[app.viewport.scroll_col + k]@),
        c.0 < x + rows[i]@[app.viewport.scroll_col + k]@.len(),
    ensures
        frame_picture(p, area, right, app, rows)[c].symbol == seq![
            rows[i]@[app.viewport.scroll_col + k]@[c.0 - x],
        ],
{
    let sheets = app.sheets@;
    let table = sheets[app.active_sheet as int].1;
    let v = app.viewport;
    let inner = table_area(area, sheets.len() as int);
    let t = table_view(table, v, app.palette, rows);
    let layout = t.layout(inner);
    lemma_column_place(t.widths, layout.first, layout.x, cells, k);
    lemma_column_place(t.widths, layout.first, layout.x, cells, k + 1);
    assert(cells.take(k + 1).drop_last() =~= cells.take(k));
    assert(cells.take(k + 1).last() == cells[k]);
    lemma_fitting_column_is_visible(
        t.widths,
        layout.first,
        layout.x,
        canvas::right_of(inner),
        shown_columns(v, t.headers.len() as int),
        0,
        k,
    );
    let row = v.scroll_row + i;
    let col = v.scroll_col + k;
    let s = rows[i]@[col]@;
    assert(t.rows[i] == text::texts(rows[i]@));
    assert(t.cell(row, col) == s);
    canvas::lemma_narrow_text_in_place(x, s, right, c.0 as int);
    let filled = canvas::with_box(
        p,
        inner.x as int,
        canvas::right_of(inner),
        inner.y as int,
        canvas::bottom_of(inner),
        app.palette.bg,
    );
    assert(filled.dom() =~= p.dom());
    let headed = with_header(filled, t, inner, right);
    lemma_header_keeps_cells(filled, t, inner, right);
    assert(headed.dom().contains(c));
    lemma_rows_show_overflow(headed, t, inner, right, layout.rows, i, k, c);
    lemma_bars_leave_the_table(p, area, right, app, rows, c);
}

/// The header has its background over the whole width of the screen.
pub proof fn lemma_header_has_its_background(
    p: Picture,
    area: Rect,
    right: int,
    app: App,
    rows: Seq<Vec<String>>,
    c: (u16, u16),
)
    requires
        !app.show_help,
        app.active_sheet < app.sheets@.len(),
        app.sheets@[app.active_sheet as int].1.headers@.len() > 0,
        area.height >= (if app.sheets@.len() > 1 {
            3int
        } else {
            2
        }),
        p.dom().contains(c),
        c.1 == area.y,
        area.x <= c.0 < area.x + area.width,
    ensures
        frame_picture(p, area, right, app, rows)[c].bg == Some(app.palette.header_bg),
{
    let sheets = app.sheets@;
    let table = sheets[app.active_sheet as int].1;
    let inner = table_area(area, sheets.len() as int);
    let t = table_view(table, app.viewport, app.palette, rows);
    let layout = t.layout(inner);
    let y = inner.y as int;
    let filled = canvas::with_box(
        p,
        inner.x as int,
        canvas::right_of(inner),
        y,
        canvas::bottom_of(inner),
        app.palette.bg,
    );
    assert(filled.dom() =~= p.dom());
    let bar = canvas::with_box(
        filled,
        inner.x as int,
        canvas::right_of(inner),
        y,
        y + 1,
        t.palette.header_bg,
    );
    let mark = text::right_aligned("#"@, layout.number_width);
    let style = Style { fg: t.palette.header_fg, bg: t.palette.header_bg };
    assert(bar.dom() =~= p.dom());
    assert(bar.dom().contains(c));
    canvas::lemma_text_stays_in_its_row(bar, layout.number_x, y, mark, right, style);
    let numbered = canvas::with_text(bar, layout.number_x, y, mark, right, style);
    assert(numbered.dom().contains(c));
    lemma_headers_keep_background(numbered, t, layout, y, right, layout.columns, c);
    let headed = with_header(filled, t, inner, right);
    lemma_header_keeps_cells(filled, t, inner, right);
    assert(headed.dom().contains(c));
    lemma_rows_stay_below(headed, t, inner, right, layout.rows, c);
    lemma_bars_leave_the_table(p, area, right, app, rows, c);
}

proof fn lemma_headers_keep_background(
    p: Picture,
    t: TableView,
    layout: Layout,
    y: int,
    right: int,
    n: int,
    c: (u16, u16),
)
    requires
        p.dom().contains(c),
        p[c].bg == Some(t.palette.header_bg),
    ensures
        with_headers(p, t, layout, y, right, n)[c].bg == Some(t.palette.header_bg),
    decreases n,
{
    if n > 0 {
        let before = with_headers(p, t, layout, y, right, n - 1);
        let col = layout.first + n - 1;
        lemma_headers_keep_background(p, t, layout, y, right, n - 1, c);
        lemma_headers_keep_cells(p, t, layout, y, right, n - 1);
        assert(before.dom().contains(c));
        canvas::lemma_text_stays_in_its_row(
            before,
            column_x(t.widths, layout.first, layout.x, n - 1),
            y,
            t.headers[col],
            right,
            Style { fg: t.palette.color_of(col), bg: t.palette.header_bg },
        );
    }
}

} // verus!
