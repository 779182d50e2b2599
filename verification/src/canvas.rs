//! Drawing on the cells of the terminal.
use crate::colors::Color;
use crate::width;
use crate::width::char_width;
use ratatui::buffer::Buffer;
use ratatui::style::Color as TermColor;
use ratatui::style::Style as TermStyle;
use vstd::prelude::*;

verus! {

/// A rectangle of cells.
#[derive(Clone, Copy, Debug, PartialEq, Eq, Structural)]
pub struct Rect {
    pub x: u16,
    pub y: u16,
    pub width: u16,
    pub height: u16,
}

/// What one cell of the terminal shows. A colour that is none of those that
/// this program uses is `None`.
pub struct Glyph {
    pub symbol: Seq<char>,
    pub fg: Option<Color>,
    pub bg: Option<Color>,
}

/// What the cells show, by column and row. Places without a cell are not there.
pub type Picture = Map<(u16, u16), Glyph>;

/// The colours that text is written in.
#[derive(Clone, Copy, Debug, PartialEq, Eq, Structural)]
pub struct Style {
    pub fg: Color,
    pub bg: Color,
}

/// `ratatui::buffer::Buffer`, the cells of the terminal.
#[verifier::external_type_specification]
#[verifier::external_body]
pub struct ExBuffer(Buffer);

/// What the cells of a `Buffer` show.
pub uninterp spec fn picture_of(buf: Buffer) -> Picture;

/// The rectangle that a `Buffer` covers.
pub uninterp spec fn area_of(buf: Buffer) -> Rect;

/// `p` with the cell at column `x` and row `y`, if there is one, changed by `f`.
pub open spec fn changed_at(
    p: Picture,
    x: int,
    y: int,
    f: spec_fn(Glyph) -> Glyph,
) -> Picture {
    Map::new(
        |c: (u16, u16)| p.dom().contains(c),
        |c: (u16, u16)|
            if c.0 == x && c.1 == y {
                f(p[c])
            } else {
                p[c]
            },
    )
}

/// `Buffer::area` gives the rectangle that the buffer covers.
#[verifier::external_body]
fn buffer_area(buf: &Buffer) -> (area: Rect)
    ensures
        area == area_of(*buf),
{
    let area = buf.area();
    Rect { x: area.x, y: area.y, width: area.width, height: area.height }
}

/// `Cell::set_char`, on the cell that `Buffer::cell_mut` finds, changes what the
/// cell shows to one character. Where there is no cell, nothing changes.
#[verifier::external_body]
fn set_char(buf: &mut Buffer, x: u16, y: u16, c: char)
    ensures
        picture_of(*final(buf)) == changed_at(
            picture_of(*old(buf)),
            x as int,
            y as int,
            (|g: Glyph| Glyph { symbol: seq![c], ..g }),
        ),
        area_of(*final(buf)) == area_of(*old(buf)),
{
    if let Some(cell) = buf.cell_mut((x, y)) {
        cell.set_char(c);
    }
}

/// `Cell::set_bg`, on the cell that `Buffer::cell_mut` finds, changes its
/// background. Where there is no cell, nothing changes.
#[verifier::external_body]
fn set_bg(buf: &mut Buffer, x: u16, y: u16, bg: Color)
    ensures
        picture_of(*final(buf)) == changed_at(
            picture_of(*old(buf)),
            x as int,
            y as int,
            (|g: Glyph| Glyph { bg: Some(bg), ..g }),
        ),
        area_of(*final(buf)) == area_of(*old(buf)),
{
    let color = match bg {
        Color::White => TermColor::White,
        Color::Rgb(r, g, b) => TermColor::Rgb(r, g, b),
    };
    if let Some(cell) = buf.cell_mut((x, y)) {
        cell.set_bg(color);
    }
}

/// `Cell::set_style`, on the cell that `Buffer::cell_mut` finds, changes its
/// colours to those of a style that sets nothing else. Where there is no cell,
/// nothing changes.
#[verifier::external_body]
fn set_style(buf: &mut Buffer, x: u16, y: u16, style: Style)
    ensures
        picture_of(*final(buf)) == changed_at(
            picture_of(*old(buf)),
            x as int,
            y as int,
            (|g: Glyph| Glyph { fg: Some(style.fg), bg: Some(style.bg), ..g }),
        ),
        area_of(*final(buf)) == area_of(*old(buf)),
{
    let fg = match style.fg {
        Color::White => TermColor::White,
        Color::Rgb(r, g, b) => TermColor::Rgb(r, g, b),
    };
    let bg = match style.bg {
        Color::White => TermColor::White,
        Color::Rgb(r, g, b) => TermColor::Rgb(r, g, b),
    };
    if let Some(cell) = buf.cell_mut((x, y)) {
        cell.set_style(TermStyle::new().fg(fg).bg(bg));
    }
}

// ---------------------------------------------------------------------------
// Pictures
// ---------------------------------------------------------------------------

/// A cell that shows a character in this style.
pub open spec fn inked(c: char, style: Style) -> Glyph {
    Glyph { symbol: seq![c], fg: Some(style.fg), bg: Some(style.bg) }
}

/// A cell that was emptied over a background; it keeps its foreground.
pub open spec fn wiped(g: Glyph, bg: Color) -> Glyph {
    Glyph { symbol: seq![' '], fg: g.fg, bg: Some(bg) }
}

/// `p` with the cells of columns `x0..x1` and rows `y0..y1` emptied.
pub open spec fn with_box(p: Picture, x0: int, x1: int, y0: int, y1: int, bg: Color) -> Picture {
    Map::new(
        |c: (u16, u16)| p.dom().contains(c),
        |c: (u16, u16)|
            if x0 <= c.0 < x1 && y0 <= c.1 < y1 {
                wiped(p[c], bg)
            } else {
                p[c]
            },
    )
}

/// `p` with one character at column `x` and row `y`.
pub open spec fn with_char(p: Picture, x: int, y: int, ch: char, style: Style) -> Picture {
    Map::new(
        |c: (u16, u16)| p.dom().contains(c),
        |c: (u16, u16)|
            if c.0 == x && c.1 == y {
                inked(ch, style)
            } else {
                p[c]
            },
    )
}

/// `p` with the same character in columns `x0..x1` of rows `y0..y1`.
pub open spec fn with_chars(
    p: Picture,
    x0: int,
    x1: int,
    y0: int,
    y1: int,
    ch: char,
    style: Style,
) -> Picture {
    Map::new(
        |c: (u16, u16)| p.dom().contains(c),
        |c: (u16, u16)|
            if x0 <= c.0 < x1 && y0 <= c.1 < y1 {
                inked(ch, style)
            } else {
                p[c]
            },
    )
}

/// `p` with `chars` from column `x` of row `y` on, one in each cell, as far as
/// they come before column `limit`.
pub open spec fn with_line(
    p: Picture,
    x: int,
    y: int,
    chars: Seq<char>,
    limit: int,
    style: Style,
) -> Picture {
    Map::new(
        |c: (u16, u16)| p.dom().contains(c),
        |c: (u16, u16)|
            if c.1 == y && x <= c.0 < x + chars.len() && c.0 < limit {
                inked(chars[c.0 - x], style)
            } else {
                p[c]
            },
    )
}

/// The columns that a character moves on by. Control characters take none.
pub open spec fn columns(c: char) -> int {
    match width::char_columns(c) {
        Some(n) => n as int,
        None => 0,
    }
}

/// `p` with `text` from column `x` of row `y` on, each character as many columns
/// behind the one before as that is wide, up to the first one that does not fit
/// before column `right`.
pub open spec fn with_text(
    p: Picture,
    x: int,
    y: int,
    text: Seq<char>,
    right: int,
    style: Style,
) -> Picture
    decreases text.len(),
{
    if text.len() == 0 || x + columns(text[0]) > right {
        p
    } else {
        with_text(
            with_char(p, x, y, text[0], style),
            x + columns(text[0]),
            y,
            text.drop_first(),
            right,
            style,
        )
    }
}

/// The character that a text from column `x` on shows in `column`, on a screen that
/// ends at column `right`. Where several characters fall on one column, as those
/// without a width do, the last one is seen.
pub open spec fn char_in(x: int, text: Seq<char>, right: int, column: int) -> Option<char>
    decreases text.len(),
{
    if text.len() == 0 || x + columns(text[0]) > right {
        None
    } else {
        match char_in(x + columns(text[0]), text.drop_first(), right, column) {
            Some(c) => Some(c),
            None => if column == x {
                Some(text[0])
            } else {
                None
            },
        }
    }
}

/// The cell shows what an emptied row of cells shows in `column` once a text was
/// written from column `x` on.
pub open spec fn shows(
    g: Glyph,
    x: int,
    text: Seq<char>,
    right: int,
    style: Style,
    column: int,
) -> bool {
    match char_in(x, text, right, column) {
        Some(c) => g == inked(c, style),
        None => g.symbol == seq![' '] && g.bg == Some(style.bg),
    }
}

/// The first column behind the rectangle.
pub open spec fn right_of(area: Rect) -> int {
    area.x + area.width
}

/// The first row below the rectangle.
pub open spec fn bottom_of(area: Rect) -> int {
    area.y + area.height
}

/// The first column behind the rectangle.
pub fn rect_right(area: Rect) -> (right: i64)
    ensures
        right == right_of(area),
{
    area.x as i64 + area.width as i64
}

/// The first row below the rectangle.
pub fn rect_bottom(area: Rect) -> (bottom: i64)
    ensures
        bottom == bottom_of(area),
{
    area.y as i64 + area.height as i64
}

/// The first column behind the buffer.
pub(crate) fn buffer_right(buf: &Buffer) -> (right: i64)
    ensures
        right == right_of(area_of(*buf)),
{
    rect_right(buffer_area(buf))
}

/// Writes one character.
pub(crate) fn put_char(buf: &mut Buffer, x: i64, y: i64, ch: char, style: Style)
    ensures
        picture_of(*final(buf)) == with_char(
            picture_of(*old(buf)),
            x as int,
            y as int,
            ch,
            style,
        ),
        area_of(*final(buf)) == area_of(*old(buf)),
{
    if 0 <= x && x <= 0xffff && 0 <= y && y <= 0xffff {
        set_char(buf, x as u16, y as u16, ch);
        set_style(buf, x as u16, y as u16, style);
    }
    assert(picture_of(*buf) =~= with_char(picture_of(*old(buf)), x as int, y as int, ch, style));
}

/// Empties one cell.
fn wipe(buf: &mut Buffer, x: i64, y: i64, bg: Color)
    ensures
        picture_of(*final(buf)) == with_box(
            picture_of(*old(buf)),
            x as int,
            x + 1,
            y as int,
            y + 1,
            bg,
        ),
        area_of(*final(buf)) == area_of(*old(buf)),
{
    if 0 <= x && x <= 0xffff && 0 <= y && y <= 0xffff {
        set_char(buf, x as u16, y as u16, ' ');
        set_bg(buf, x as u16, y as u16, bg);
    }
    assert(picture_of(*buf) =~= with_box(
        picture_of(*old(buf)),
        x as int,
        x + 1,
        y as int,
        y + 1,
        bg,
    ));
}

/// Empties the cells of columns `x0..x1` and rows `y0..y1`.
pub(crate) fn fill_box(buf: &mut Buffer, x0: i64, x1: i64, y0: i64, y1: i64, bg: Color)
    ensures
        picture_of(*final(buf)) == with_box(
            picture_of(*old(buf)),
            x0 as int,
            x1 as int,
            y0 as int,
            y1 as int,
            bg,
        ),
        area_of(*final(buf)) == area_of(*old(buf)),
{
    let ghost p = picture_of(*buf);
    let mut y: i64 = y0;
    assert(picture_of(*buf) =~= with_box(p, x0 as int, x1 as int, y0 as int, y0 as int, bg));
    while y < y1
        invariant
            y0 <= y,
            y <= y1 || y == y0,
            picture_of(*buf) == with_box(p, x0 as int, x1 as int, y0 as int, y as int, bg),
            area_of(*buf) == area_of(*old(buf)),
        decreases y1 - y,
    {
        let ghost above = picture_of(*buf);
        let mut x: i64 = x0;
        assert(picture_of(*buf) =~= with_box(above, x0 as int, x0 as int, y as int, y + 1, bg));
        while x < x1
            invariant
                x0 <= x,
                x <= x1 || x == x0,
                y < y1,
                picture_of(*buf) == with_box(above, x0 as int, x as int, y as int, y + 1, bg),
                area_of(*buf) == area_of(*old(buf)),
            decreases x1 - x,
        {
            let ghost before = picture_of(*buf);
            wipe(buf, x, y, bg);
            proof {
                assert(picture_of(*buf) =~= with_box(
                    above,
                    x0 as int,
                    x + 1,
                    y as int,
                    y + 1,
                    bg,
                ));
            }
            x = x + 1;
        }
        proof {
            assert(picture_of(*buf) =~= with_box(
                p,
                x0 as int,
                x1 as int,
                y0 as int,
                y + 1,
                bg,
            ));
        }
        y = y + 1;
    }
    assert(picture_of(*buf) =~= with_box(
        p,
        x0 as int,
        x1 as int,
        y0 as int,
        y1 as int,
        bg,
    ));
}

/// Writes the same character in columns `x0..x1` of row `y`.
pub(crate) fn put_row(buf: &mut Buffer, x0: i64, x1: i64, y: i64, ch: char, style: Style)
    ensures
        picture_of(*final(buf)) == with_chars(
            picture_of(*old(buf)),
            x0 as int,
            x1 as int,
            y as int,
            y + 1,
            ch,
            style,
        ),
        area_of(*final(buf)) == area_of(*old(buf)),
{
    let ghost p = picture_of(*buf);
    let mut x: i64 = x0;
    assert(picture_of(*buf) =~= with_chars(
        p,
        x0 as int,
        x0 as int,
        y as int,
        y + 1,
        ch,
        style,
    ));
    while x < x1
        invariant
            x0 <= x,
            x <= x1 || x == x0,
            picture_of(*buf) == with_chars(p, x0 as int, x as int, y as int, y + 1, ch, style),
            area_of(*buf) == area_of(*old(buf)),
        decreases x1 - x,
    {
        put_char(buf, x, y, ch, style);
        proof {
            assert(picture_of(*buf) =~= with_chars(
                p,
                x0 as int,
                x + 1,
                y as int,
                y + 1,
                ch,
                style,
            ));
        }
        x = x + 1;
    }
    assert(picture_of(*buf) =~= with_chars(
        p,
        x0 as int,
        x1 as int,
        y as int,
        y + 1,
        ch,
        style,
    ));
}

/// Writes the same character in column `x` of rows `y0..y1`.
pub(crate) fn put_column(buf: &mut Buffer, x: i64, y0: i64, y1: i64, ch: char, style: Style)
    ensures
        picture_of(*final(buf)) == with_chars(
            picture_of(*old(buf)),
            x as int,
            x + 1,
            y0 as int,
            y1 as int,
            ch,
            style,
        ),
        area_of(*final(buf)) == area_of(*old(buf)),
{
    let ghost p = picture_of(*buf);
    let mut y: i64 = y0;
    assert(picture_of(*buf) =~= with_chars(
        p,
        x as int,
        x + 1,
        y0 as int,
        y0 as int,
        ch,
        style,
    ));
    while y < y1
        invariant
            y0 <= y,
            y <= y1 || y == y0,
            picture_of(*buf) == with_chars(p, x as int, x + 1, y0 as int, y as int, ch, style),
            area_of(*buf) == area_of(*old(buf)),
        decreases y1 - y,
    {
        put_char(buf, x, y, ch, style);
        proof {
            assert(picture_of(*buf) =~= with_chars(
                p,
                x as int,
                x + 1,
                y0 as int,
                y + 1,
                ch,
                style,
            ));
        }
        y = y + 1;
    }
    assert(picture_of(*buf) =~= with_chars(
        p,
        x as int,
        x + 1,
        y0 as int,
        y1 as int,
        ch,
        style,
    ));
}

/// Writes `text` from column `x` of row `y` on, one character in each cell, up
/// to column `limit`.
pub(crate) fn put_line(buf: &mut Buffer, x: i64, y: i64, text: &str, limit: i64, style: Style)
    requires
        0 <= x,
        limit <= 0x4000_0000,
    ensures
        picture_of(*final(buf)) == with_line(
            picture_of(*old(buf)),
            x as int,
            y as int,
            text@,
            limit as int,
            style,
        ),
        area_of(*final(buf)) == area_of(*old(buf)),
{
    let ghost p = picture_of(*buf);
    let len = text.unicode_len();
    let mut i: usize = 0;
    assert(picture_of(*buf) =~= with_line(
        p,
        x as int,
        y as int,
        text@.take(0),
        limit as int,
        style,
    ));
    while i < len && x < limit && (i as i64) < limit - x
        invariant
            len == text@.len(),
            i <= len,
            0 <= x,
            limit <= 0x4000_0000,
            i == 0 || x + i <= limit,
            picture_of(*buf) == with_line(
                p,
                x as int,
                y as int,
                text@.take(i as int),
                limit as int,
                style,
            ),
            area_of(*buf) == area_of(*old(buf)),
        decreases len - i,
    {
        put_char(buf, x + i as i64, y, text.get_char(i), style);
        proof {
            assert(picture_of(*buf) =~= with_line(
                p,
                x as int,
                y as int,
                text@.take(i + 1),
                limit as int,
                style,
            ));
        }
        i = i + 1;
    }
    assert(picture_of(*buf) =~= with_line(
        p,
        x as int,
        y as int,
        text@,
        limit as int,
        style,
    ));
}

/// Place a string at column `x` of row `y`. Does not fill past the text — the
/// caller fills the background of the row.
pub(crate) fn put_text(buf: &mut Buffer, x: i64, y: i64, text: &str, style: Style)
    requires
        0 <= x <= 0x4000_0000,
    ensures
        picture_of(*final(buf)) == with_text(
            picture_of(*old(buf)),
            x as int,
            y as int,
            text@,
            right_of(area_of(*old(buf))),
            style,
        ),
        area_of(*final(buf)) == area_of(*old(buf)),
{
    let right = buffer_right(buf);
    let len = text.unicode_len();
    let mut cx: i64 = x;
    let mut i: usize = 0;
    assert(text@.skip(0) =~= text@);
    while i < len
        invariant
            len == text@.len(),
            i <= len,
            right == right_of(area_of(*old(buf))),
            right <= 0x2_0000,
            0 <= cx <= 0x4000_0000,
            area_of(*buf) == area_of(*old(buf)),
            with_text(
                picture_of(*buf),
                cx as int,
                y as int,
                text@.skip(i as int),
                right as int,
                style,
            ) == with_text(
                picture_of(*old(buf)),
                x as int,
                y as int,
                text@,
                right_of(area_of(*old(buf))),
                style,
            ),
        decreases len - i,
    {
        let ch = text.get_char(i);
        let cw: i64 = match char_width(ch) {
            Some(n) => n as i64,
            None => 0,
        };
        assert(cw == columns(ch));
        assert(text@.skip(i as int)[0] == ch);
        assert(text@.skip(i as int).drop_first() =~= text@.skip(i + 1));
        if cx + cw > right {
            return;
        }
        put_char(buf, cx, y, ch, style);
        cx = cx + cw;
        i = i + 1;
    }
}

/// Text of characters that are one column wide stands one character in each
/// cell, and is cut off at the right edge.
pub proof fn lemma_narrow_text_is_a_line(
    p: Picture,
    x: int,
    y: int,
    text: Seq<char>,
    right: int,
    style: Style,
)
    requires
        forall|i: int| 0 <= i < text.len() ==> columns(#[trigger] text[i]) == 1,
    ensures
        with_text(p, x, y, text, right, style) == with_line(p, x, y, text, right, style),
    decreases text.len(),
{
    if text.len() == 0 || x + columns(text[0]) > right {
        assert(with_line(p, x, y, text, right, style) =~= p);
    } else {
        let rest = text.drop_first();
        let first = with_char(p, x, y, text[0], style);
        assert forall|i: int| 0 <= i < rest.len() implies columns(#[trigger] rest[i]) == 1 by {
            assert(rest[i] == text[i + 1]);
        }
        lemma_narrow_text_is_a_line(first, x + 1, y, rest, right, style);
        assert(with_line(first, x + 1, y, rest, right, style) =~= with_line(
            p,
            x,
            y,
            text,
            right,
            style,
        ));
    }
}

/// Text changes no cells but those of its row from its column on, and leaves
/// there either what was there or its own colours.
pub proof fn lemma_text_stays_in_its_row(
    p: Picture,
    x: int,
    y: int,
    text: Seq<char>,
    right: int,
    style: Style,
)
    ensures
        with_text(p, x, y, text, right, style).dom() == p.dom(),
        forall|c: (u16, u16)| #[trigger]
            p.dom().contains(c) && (c.1 != y || c.0 < x) ==> with_text(
                p,
                x,
                y,
                text,
                right,
                style,
            )[c] == p[c],
        forall|c: (u16, u16)| #[trigger]
            p.dom().contains(c) ==> {
                let after = with_text(p, x, y, text, right, style)[c];
                after == p[c] || (after.fg == Some(style.fg) && after.bg == Some(style.bg))
            },
    decreases text.len(),
{
    if text.len() > 0 && x + columns(text[0]) <= right {
        let rest = text.drop_first();
        let first = with_char(p, x, y, text[0], style);
        lemma_text_stays_in_its_row(first, x + columns(text[0]), y, rest, right, style);
        assert(first.dom() =~= p.dom());
        assert forall|c: (u16, u16)| #[trigger] p.dom().contains(c) implies first.dom().contains(
            c,
        ) by {}
    }
}

/// A text shows its characters, and leaves the other cells as they are.
pub proof fn lemma_text_shows_its_characters(
    p: Picture,
    x: int,
    y: int,
    text: Seq<char>,
    right: int,
    style: Style,
    c: (u16, u16),
)
    requires
        p.dom().contains(c),
        c.1 == y,
    ensures
        with_text(p, x, y, text, right, style)[c] == (match char_in(x, text, right, c.0 as int) {
            Some(ch) => inked(ch, style),
            None => p[c],
        }),
    decreases text.len(),
{
    if text.len() > 0 && x + columns(text[0]) <= right {
        lemma_text_shows_its_characters(
            with_char(p, x, y, text[0], style),
            x + columns(text[0]),
            y,
            text.drop_first(),
            right,
            style,
            c,
        );
    }
}

/// Every character takes one column.
pub open spec fn narrow(text: Seq<char>) -> bool {
    forall|i: int| 0 <= i < text.len() ==> width::char_columns(#[trigger] text[i]) == Some(1usize)
}

/// In a text whose characters take one column each, the characters stand side by side
/// from its first column on, as far as the screen goes.
pub proof fn lemma_narrow_text_in_place(x: int, text: Seq<char>, right: int, column: int)
    requires
        narrow(text),
    ensures
        0 <= column - x < text.len() && column < right ==> char_in(x, text, right, column) == Some(
            text[column - x],
        ),
        column < x || column >= x + text.len() || column >= right ==> char_in(
            x,
            text,
            right,
            column,
        ) is None,
    decreases text.len(),
{
    if text.len() > 0 {
        assert(columns(text[0]) == 1);
        let rest = text.drop_first();
        assert forall|i: int| 0 <= i < rest.len() implies width::char_columns(#[trigger] rest[i])
            == Some(1usize) by {
            assert(rest[i] == text[i + 1]);
        }
        lemma_narrow_text_in_place(x + 1, rest, right, column);
        if column > x && column - x < text.len() {
            assert(rest[column - x - 1] == text[column - x]);
        }
    }
}

/// The sum of the widths of characters.
pub open spec fn breadth(widths: Seq<usize>) -> int
    decreases widths.len(),
{
    if widths.len() == 0 {
        0
    } else {
        widths[0] + breadth(widths.drop_first())
    }
}

/// A character stands as many columns behind the first one as the characters before it
/// are wide together, if it fits before the end of the screen. `widths` are the widths of
/// the characters, which take one column at least.
pub proof fn lemma_characters_take_their_width(
    x: int,
    text: Seq<char>,
    right: int,
    widths: Seq<usize>,
    i: int,
)
    requires
        widths.len() == text.len(),
        forall|j: int|
            0 <= j < text.len() ==> width::char_columns(#[trigger] text[j]) == Some(widths[j])
                && 1 <= widths[j],
        0 <= i < text.len(),
        x + breadth(widths.take(i + 1)) <= right,
    ensures
        char_in(x, text, right, x + breadth(widths.take(i))) == Some(text[i]),
    decreases text.len(),
{
    let rest = text.drop_first();
    let tail = widths.drop_first();
    assert(columns(text[0]) == widths[0]);
    assert forall|j: int| 0 <= j < rest.len() implies width::char_columns(#[trigger] rest[j])
        == Some(tail[j]) && 1 <= tail[j] by {
        assert(rest[j] == text[j + 1] && tail[j] == widths[j + 1]);
    }
    assert(widths.take(i + 1).drop_first() =~= tail.take(i));
    lemma_breadth_grows(tail, i);
    assert(x + columns(text[0]) <= right);
    if i > 0 {
        assert(widths.take(i).drop_first() =~= tail.take(i - 1));
        lemma_characters_take_their_width(x + widths[0], rest, right, tail, i - 1);
    } else {
        assert(widths.take(0) =~= Seq::<usize>::empty());
        lemma_nothing_to_the_left(x + widths[0], rest, right, x);
    }
}

proof fn lemma_breadth_grows(widths: Seq<usize>, i: int)
    requires
        0 <= i <= widths.len(),
    ensures
        breadth(widths.take(i)) >= 0,
    decreases i,
{
    if i > 0 {
        assert(widths.take(i).drop_first() =~= widths.drop_first().take(i - 1));
        lemma_breadth_grows(widths.drop_first(), i - 1);
    }
}

/// A text shows nothing to the left of where it begins.
proof fn lemma_nothing_to_the_left(x: int, text: Seq<char>, right: int, column: int)
    requires
        column < x,
    ensures
        char_in(x, text, right, column) is None,
    decreases text.len(),
{
    if text.len() > 0 {
        lemma_nothing_to_the_left(x + columns(text[0]), text.drop_first(), right, column);
    }
}

} // verus!
