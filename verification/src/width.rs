//! How wide text is on the terminal, and how wide a column has to be.
use crate::text;
use unicode_width::{UnicodeWidthChar, UnicodeWidthStr};
use vstd::prelude::*;

verus! {

/// The narrowest that a column gets.
pub const MIN_WIDTH: usize = 4;

/// The displayed width of a text in columns: what `UnicodeWidthStr::width` of
/// `unicode-width` returns for it.
pub uninterp spec fn display_width(text: Seq<char>) -> usize;

/// The displayed width of a character in columns: what
/// `UnicodeWidthChar::width` of `unicode-width` returns for it.
pub uninterp spec fn char_columns(c: char) -> Option<usize>;

/// `UnicodeWidthStr::width` returns the displayed width of a text, which
/// depends on the text alone. Printable ASCII is as wide as it is long.
#[verifier::external_body]
pub(crate) fn text_width(text: &str) -> (w: usize)
    ensures
        w == display_width(text@),
        (forall|i: int| 0 <= i < text@.len() ==> ' ' <= #[trigger] text@[i] <= '~') ==> w
            == text@.len(),
{
    UnicodeWidthStr::width(text)
}

/// `UnicodeWidthChar::width` returns the displayed width of a character, which
/// depends on the character alone: one column for printable ASCII, `None` for
/// a control character, and else a number that fits into a byte.
#[verifier::external_body]
pub(crate) fn char_width(c: char) -> (w: Option<usize>)
    ensures
        w == char_columns(c),
        ' ' <= c <= '~' ==> w == Some(1usize),
        w is None <==> (c < ' ' || '\u{7f}' <= c < '\u{a0}'),
        (w matches Some(n) ==> n <= 255),
{
    UnicodeWidthChar::width(c)
}

/// The larger of two widths.
pub open spec fn wider(a: usize, b: usize) -> usize {
    if a >= b {
        a
    } else {
        b
    }
}

/// The column width that a text asks for.
pub open spec fn cell_width(text: Seq<char>) -> usize {
    wider(display_width(text), MIN_WIDTH)
}

/// `width` widened for cell `col` of the first `n` of `rows`. A row that is too
/// short for the column does not count.
pub open spec fn widened(width: usize, rows: Seq<Seq<Seq<char>>>, col: int, n: int) -> usize
    decreases n,
{
    if n <= 0 {
        width
    } else {
        let before = widened(width, rows, col, n - 1);
        if col < rows[n - 1].len() {
            wider(before, cell_width(rows[n - 1][col]))
        } else {
            before
        }
    }
}

/// The widths that a table with these headers begins with.
pub open spec fn header_widths(headers: Seq<Seq<char>>) -> Seq<usize> {
    headers.map_values(|h: Seq<char>| cell_width(h))
}

/// `widths`, each widened for its column of `rows`.
pub open spec fn widened_all(widths: Seq<usize>, rows: Seq<Seq<Seq<char>>>) -> Seq<usize> {
    Seq::new(widths.len(), |col: int| widened(widths[col], rows, col, rows.len() as int))
}

/// The column widths of a table: each column is as wide as its widest cell,
/// the header among them, and at least `MIN_WIDTH`.
pub open spec fn table_widths(headers: Seq<Seq<char>>, rows: Seq<Seq<Seq<char>>>) -> Seq<usize> {
    widened_all(header_widths(headers), rows)
}

/// What the width of a column is: no cell of the column is wider, and the
/// header or some cell is just as wide.
pub proof fn lemma_widened_is_widest(
    width: usize,
    rows: Seq<Seq<Seq<char>>>,
    col: int,
    n: int,
)
    requires
        0 <= n <= rows.len(),
    ensures
        width <= widened(width, rows, col, n),
        forall|r: int|
            0 <= r < n && col < rows[r].len() ==> cell_width(#[trigger] rows[r][col]) <= widened(
                width,
                rows,
                col,
                n,
            ),
        widened(width, rows, col, n) == width || exists|r: int|
            0 <= r < n && col < rows[r].len() && widened(width, rows, col, n) == cell_width(
                #[trigger] rows[r][col],
            ),
    decreases n,
{
    if n > 0 {
        lemma_widened_is_widest(width, rows, col, n - 1);
        if col < rows[n - 1].len() {
            assert(cell_width(rows[n - 1][col]) <= widened(width, rows, col, n));
        }
        if widened(width, rows, col, n) != width {
            if widened(width, rows, col, n) == widened(width, rows, col, n - 1) {
                let r = choose|r: int|
                    0 <= r < n - 1 && col < rows[r].len() && widened(width, rows, col, n - 1)
                        == cell_width(#[trigger] rows[r][col]);
                assert(widened(width, rows, col, n) == cell_width(rows[r][col]));
            } else {
                assert(widened(width, rows, col, n) == cell_width(rows[n - 1][col]));
            }
        }
    }
}

/// No column of a table is narrower than `MIN_WIDTH`, its header or any of its
/// cells.
pub proof fn lemma_table_widths_cover(
    headers: Seq<Seq<char>>,
    rows: Seq<Seq<Seq<char>>>,
    col: int,
)
    requires
        0 <= col < headers.len(),
    ensures
        table_widths(headers, rows).len() == headers.len(),
        table_widths(headers, rows)[col] >= MIN_WIDTH,
        table_widths(headers, rows)[col] >= display_width(headers[col]),
        forall|r: int|
            0 <= r < rows.len() && col < rows[r].len() ==> display_width(#[trigger] rows[r][col])
                <= table_widths(headers, rows)[col],
{
    lemma_widened_is_widest(header_widths(headers)[col], rows, col, rows.len() as int);
    assert forall|r: int| 0 <= r < rows.len() && col < rows[r].len() implies display_width(
        #[trigger] rows[r][col],
    ) <= table_widths(headers, rows)[col] by {
        assert(cell_width(rows[r][col]) <= table_widths(headers, rows)[col]);
    }
}

/// The column width that `text` asks for.
pub(crate) fn width_of(text: &str) -> (w: usize)
    ensures
        w == cell_width(text@),
{
    let w = text_width(text);
    if w >= MIN_WIDTH {
        w
    } else {
        MIN_WIDTH
    }
}

/// The widths that a table with these headers begins with.
pub(crate) fn widths_of_headers(headers: &[String]) -> (widths: Vec<usize>)
    ensures
        widths@ == header_widths(text::texts(headers@)),
{
    let mut widths: Vec<usize> = Vec::new();
    let mut i: usize = 0;
    while i < headers.len()
        invariant
            i <= headers@.len(),
            widths@ == header_widths(text::texts(headers@)).take(i as int),
        decreases headers@.len() - i,
    {
        widths.push(width_of(headers[i].as_str()));
        i = i + 1;
    }
    widths
}

/// Widens `widths` for one row. Cells beyond the last column do not count.
pub(crate) fn widen(widths: &mut Vec<usize>, row: &[String])
    ensures
        final(widths)@ == widened_all(old(widths)@, seq![text::texts(row@)]),
{
    let ghost before = widths@;
    let ghost rows = seq![text::texts(row@)];
    let mut i: usize = 0;
    while i < row.len() && i < widths.len()
        invariant
            i <= row@.len(),
            i <= widths@.len(),
            widths@.len() == before.len(),
            rows == seq![text::texts(row@)],
            forall|k: int| 0 <= k < i ==> widths@[k] == widened(before[k], rows, k, 1),
            forall|k: int| i <= k < before.len() ==> widths@[k] == before[k],
        decreases row@.len() - i,
    {
        let w = width_of(row[i].as_str());
        assert(widened(before[i as int], rows, i as int, 0) == before[i as int]);
        if w > widths[i] {
            widths.set(i, w);
        }
        i = i + 1;
    }
    assert forall|k: int| 0 <= k < before.len() implies widths@[k] == widened(
        before[k],
        rows,
        k,
        1,
    ) by {
        assert(widened(before[k], rows, k, 0) == before[k]);
    }
}

/// The column widths of a table: a full scan.
pub(crate) fn widths_of_table(headers: &[String], rows: &Vec<Vec<String>>) -> (widths: Vec<usize>)
    ensures
        widths@ == table_widths(text::texts(headers@), text::grid(rows@)),
{
    let mut widths = widths_of_headers(headers);
    let ghost first = widths@;
    let ghost all = text::grid(rows@);
    let mut i: usize = 0;
    assert(widened_all(first, all.take(0)) =~= first);
    while i < rows.len()
        invariant
            i <= rows@.len(),
            all == text::grid(rows@),
            widths@ == widened_all(first, all.take(i as int)),
        decreases rows@.len() - i,
    {
        widen(&mut widths, rows[i].as_slice());
        proof {
            lemma_widen_one_more(first, all.take(i as int), all[i as int]);
            assert(all.take(i + 1) =~= all.take(i as int).push(all[i as int]));
        }
        i = i + 1;
    }
    assert(all.take(rows@.len() as int) =~= all);
    widths
}

/// Widening for some rows and for one more is widening for all of them.
pub proof fn lemma_widen_one_more(
    widths: Seq<usize>,
    rows: Seq<Seq<Seq<char>>>,
    row: Seq<Seq<char>>,
)
    ensures
        widened_all(widened_all(widths, rows), seq![row]) == widened_all(widths, rows.push(row)),
{
    let more = rows.push(row);
    assert forall|col: int| 0 <= col < widths.len() implies widened_all(
        widened_all(widths, rows),
        seq![row],
    )[col] == widened_all(widths, more)[col] by {
        assert(rows =~= more.take(rows.len() as int));
        lemma_widened_prefix(widths[col], rows, more, col, rows.len() as int);
        let before = widened_all(widths, rows)[col];
        assert(widened(before, seq![row], col, 0) == before);
        assert(widened(before, seq![row], col, 1) == widened(widths[col], more, col, more.len() as int));
    }
    assert(widened_all(widened_all(widths, rows), seq![row]) =~= widened_all(widths, more));
}

proof fn lemma_widened_prefix(
    width: usize,
    rows: Seq<Seq<Seq<char>>>,
    more: Seq<Seq<Seq<char>>>,
    col: int,
    n: int,
)
    requires
        0 <= n <= rows.len() <= more.len(),
        rows == more.take(rows.len() as int),
    ensures
        widened(width, rows, col, n) == widened(width, more, col, n),
    decreases n,
{
    if n > 0 {
        lemma_widened_prefix(width, rows, more, col, n - 1);
        assert(rows[n - 1] == more[n - 1]);
    }
}

/// The column of a table is just as wide as the widest of its header, its cells and four
/// cells: there is one of them that it is as wide as.
pub proof fn lemma_table_widths_are_needed(
    headers: Seq<Seq<char>>,
    rows: Seq<Seq<Seq<char>>>,
    col: int,
)
    requires
        0 <= col < headers.len(),
    ensures
        table_widths(headers, rows)[col] == 4 || table_widths(headers, rows)[col]
            == display_width(headers[col]) || exists|r: int|
            0 <= r < rows.len() && col < rows[r].len() && display_width(#[trigger] rows[r][col])
                == table_widths(headers, rows)[col],
        table_widths(headers, rows)[col] >= 4,
{
    lemma_widened_is_widest(header_widths(headers)[col], rows, col, rows.len() as int);
}

/// A row that widths are refined by fits then. No column gets narrower, and none gets
/// wider than the row asks for; columns that the row does not reach stay as they are.
pub proof fn lemma_refined_widths_fit(widths: Seq<usize>, row: Seq<Seq<char>>, col: int)
    requires
        0 <= col < widths.len(),
    ensures
        widened_all(widths, seq![row]).len() == widths.len(),
        widened_all(widths, seq![row])[col] >= widths[col],
        col < row.len() ==> widened_all(widths, seq![row])[col] >= display_width(row[col])
            && widened_all(widths, seq![row])[col] >= 4,
        widened_all(widths, seq![row])[col] != widths[col] ==> col < row.len() && (widened_all(
            widths,
            seq![row],
        )[col] == display_width(row[col]) || widened_all(widths, seq![row])[col] == 4),
{
    let rows = seq![row];
    assert(rows[0] == row);
    assert(widened(widths[col], rows, col, 0) == widths[col]);
    assert(widened(widths[col], rows, col, 1) == widened_all(widths, rows)[col]);
}

} // verus!
