//! The colours of the screen.
use vstd::prelude::*;

verus! {

/// A colour of the terminal.
#[derive(Clone, Copy, Debug, PartialEq, Eq, Structural)]
pub enum Color {
    White,
    Rgb(u8, u8, u8),
}

#[derive(Debug)]
pub struct ColorPalette {
    pub column_colors: Vec<Color>,
    pub row_bg_even: Color,
    pub row_bg_odd: Color,
    pub header_bg: Color,
    pub header_fg: Color,
    pub cursor_bg: Color,
    pub cursor_fg: Color,
    pub row_num_fg: Color,
    pub bg: Color,
}

/// The colours that columns take by turns.
pub open spec fn default_column_colors() -> Seq<Color> {
    seq![
        Color::Rgb(0xff, 0x6b, 0x6b),
        Color::Rgb(0x51, 0xcf, 0x66),
        Color::Rgb(0x33, 0x9a, 0xf0),
        Color::Rgb(0xfc, 0xc4, 0x19),
        Color::Rgb(0xcc, 0x5d, 0xe8),
        Color::Rgb(0x22, 0xb8, 0xcf),
        Color::Rgb(0xff, 0x92, 0x2b),
        Color::Rgb(0xf0, 0x65, 0x95),
    ]
}

impl ColorPalette {
    /// The palette of a screen that nobody changed the colours of.
    pub open spec fn is_default(self) -> bool {
        &&& self.column_colors@ == default_column_colors()
        &&& self.row_bg_even == Color::Rgb(0x1a, 0x1a, 0x2e)
        &&& self.row_bg_odd == Color::Rgb(0x22, 0x22, 0x40)
        &&& self.header_bg == Color::Rgb(0x16, 0x21, 0x3e)
        &&& self.header_fg == Color::Rgb(0xe2, 0xe2, 0xe2)
        &&& self.cursor_bg == Color::Rgb(0x3d, 0x4a, 0x5e)
        &&& self.cursor_fg == Color::White
        &&& self.row_num_fg == Color::Rgb(0x66, 0x66, 0x88)
        &&& self.bg == Color::Rgb(0x1a, 0x1a, 0x2e)
    }

    /// The colour of a column: the colours are taken by turns.
    pub open spec fn color_of(self, col_idx: int) -> Color {
        self.column_colors@[col_idx % self.column_colors@.len() as int]
    }
}

impl Default for ColorPalette {
    fn default() -> (palette: Self)
        ensures
            palette.is_default(),
    {
        let column_colors = vec![
            Color::Rgb(0xff, 0x6b, 0x6b), // coral red
            Color::Rgb(0x51, 0xcf, 0x66), // green
            Color::Rgb(0x33, 0x9a, 0xf0), // blue
            Color::Rgb(0xfc, 0xc4, 0x19), // gold
            Color::Rgb(0xcc, 0x5d, 0xe8), // purple
            Color::Rgb(0x22, 0xb8, 0xcf), // cyan
            Color::Rgb(0xff, 0x92, 0x2b), // orange
            Color::Rgb(0xf0, 0x65, 0x95), // pink
        ];
        assert(column_colors@ =~= default_column_colors());
        Self {
            column_colors,
            row_bg_even: Color::Rgb(0x1a, 0x1a, 0x2e),
            row_bg_odd: Color::Rgb(0x22, 0x22, 0x40),
            header_bg: Color::Rgb(0x16, 0x21, 0x3e),
            header_fg: Color::Rgb(0xe2, 0xe2, 0xe2),
            cursor_bg: Color::Rgb(0x3d, 0x4a, 0x5e),
            cursor_fg: Color::White,
            row_num_fg: Color::Rgb(0x66, 0x66, 0x88),
            bg: Color::Rgb(0x1a, 0x1a, 0x2e),
        }
    }
}

impl ColorPalette {
    /// The colour of a column.
    pub fn column_color(&self, col_idx: usize) -> (color: Color)
        requires
            self.column_colors@.len() > 0,
        ensures
            color == self.color_of(col_idx as int),
    {
        self.column_colors[col_idx % self.column_colors.len()]
    }
}

/// Columns that are as far apart as there are colours have the same colour.
pub proof fn lemma_colors_repeat(palette: ColorPalette, col_idx: int)
    requires
        palette.column_colors@.len() > 0,
        0 <= col_idx,
    ensures
        palette.color_of(col_idx + palette.column_colors@.len()) == palette.color_of(col_idx),
{
    vstd::arithmetic::div_mod::lemma_mod_add_multiples_vanish(
        col_idx,
        palette.column_colors@.len() as int,
    );
}

/// The first columns take the colours in their order, and rows beside each other, the
/// header and the cursor can be told apart in a palette that nobody changed.
pub proof fn lemma_colors_in_order(palette: ColorPalette, i: int, j: int)
    requires
        0 <= i < j < palette.column_colors@.len(),
    ensures
        palette.color_of(i) == palette.column_colors@[i],
        palette.color_of(j) == palette.column_colors@[j],
        palette.is_default() ==> palette.color_of(i) != palette.color_of(j),
        palette.is_default() ==> palette.row_bg_even != palette.row_bg_odd,
        palette.is_default() ==> palette.cursor_bg != palette.row_bg_even && palette.cursor_bg
            != palette.row_bg_odd,
        palette.is_default() ==> palette.header_bg != palette.row_bg_even && palette.header_bg
            != palette.row_bg_odd,
{
    vstd::arithmetic::div_mod::lemma_small_mod(i as nat, palette.column_colors@.len());
    vstd::arithmetic::div_mod::lemma_small_mod(j as nat, palette.column_colors@.len());
}

} // verus!
