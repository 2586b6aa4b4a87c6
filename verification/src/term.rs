//! The emulator boundary, as plain values.
//!
//! The terminal emulator lays out graphemes into grid cells; this module holds
//! what the bridge reads of each emulator cell ([`EmuCell`]) and turns a grid
//! row into neutral [`RowCell`]s: colors through the palette, flags into
//! highlight attributes, wide characters as one cell of width 2 (the emulator's
//! trailing spacer cell is dropped and regenerated by the renderer).

use vstd::prelude::*;

use crate::palette::{resolve, resolved, Color};
use crate::protocol::{Attrs, CursorShape};
use crate::render::{row_view, row_width, Cursor, RowCell, RowCellV};

verus! {

/// The emulator's named colors.
#[derive(Debug, Clone, Copy, PartialEq, Eq, Structural)]
pub enum NamedColor {
    Black,
    Red,
    Green,
    Yellow,
    Blue,
    Magenta,
    Cyan,
    White,
    BrightBlack,
    BrightRed,
    BrightGreen,
    BrightYellow,
    BrightBlue,
    BrightMagenta,
    BrightCyan,
    BrightWhite,
    Foreground,
    Background,
    Cursor,
    DimBlack,
    DimRed,
    DimGreen,
    DimYellow,
    DimBlue,
    DimMagenta,
    DimCyan,
    DimWhite,
    BrightForeground,
    DimForeground,
}

/// A color as the emulator stores it in a cell.
#[derive(Debug, Clone, Copy, PartialEq, Eq, Structural)]
pub enum EmuColor {
    Named(NamedColor),
    Spec(u8, u8, u8),
    Indexed(u8),
}

/// The palette index of a named color: the 16 ANSI names and their dim
/// variants map to indices 0..16; the themeable foreground, background and
/// cursor colors have none.
pub open spec fn named_index(named: NamedColor) -> Option<u8> {
    match named {
        NamedColor::Black => Some(0),
        NamedColor::Red => Some(1),
        NamedColor::Green => Some(2),
        NamedColor::Yellow => Some(3),
        NamedColor::Blue => Some(4),
        NamedColor::Magenta => Some(5),
        NamedColor::Cyan => Some(6),
        NamedColor::White => Some(7),
        NamedColor::BrightBlack => Some(8),
        NamedColor::BrightRed => Some(9),
        NamedColor::BrightGreen => Some(10),
        NamedColor::BrightYellow => Some(11),
        NamedColor::BrightBlue => Some(12),
        NamedColor::BrightMagenta => Some(13),
        NamedColor::BrightCyan => Some(14),
        NamedColor::BrightWhite => Some(15),
        NamedColor::DimBlack => Some(0),
        NamedColor::DimRed => Some(1),
        NamedColor::DimGreen => Some(2),
        NamedColor::DimYellow => Some(3),
        NamedColor::DimBlue => Some(4),
        NamedColor::DimMagenta => Some(5),
        NamedColor::DimCyan => Some(6),
        NamedColor::DimWhite => Some(7),
        _ => None,
    }
}

/// The palette color of an emulator color: truecolor and indexed colors carry
/// over, named colors become their palette index, and the themeable named
/// colors stay the default.
pub open spec fn palette_color_of(color: EmuColor) -> Color {
    match color {
        EmuColor::Spec(r, g, b) => Color::Rgb(r, g, b),
        EmuColor::Indexed(index) => Color::Indexed(index),
        EmuColor::Named(named) => match named_index(named) {
            Some(index) => Color::Indexed(index),
            None => Color::Default,
        },
    }
}

/// Map an emulator color into the neutral palette color.
pub fn palette_color(color: EmuColor) -> (mapped: Color)
    ensures
        mapped == palette_color_of(color),
{
    match color {
        EmuColor::Spec(r, g, b) => Color::Rgb(r, g, b),
        EmuColor::Indexed(index) => Color::Indexed(index),
        EmuColor::Named(named) => {
            let index: u8 = match named {
                NamedColor::Black => 0,
                NamedColor::Red => 1,
                NamedColor::Green => 2,
                NamedColor::Yellow => 3,
                NamedColor::Blue => 4,
                NamedColor::Magenta => 5,
                NamedColor::Cyan => 6,
                NamedColor::White => 7,
                NamedColor::BrightBlack => 8,
                NamedColor::BrightRed => 9,
                NamedColor::BrightGreen => 10,
                NamedColor::BrightYellow => 11,
                NamedColor::BrightBlue => 12,
                NamedColor::BrightMagenta => 13,
                NamedColor::BrightCyan => 14,
                NamedColor::BrightWhite => 15,
                NamedColor::DimBlack => 0,
                NamedColor::DimRed => 1,
                NamedColor::DimGreen => 2,
                NamedColor::DimYellow => 3,
                NamedColor::DimBlue => 4,
                NamedColor::DimMagenta => 5,
                NamedColor::DimCyan => 6,
                NamedColor::DimWhite => 7,
                NamedColor::Foreground | NamedColor::Background | NamedColor::Cursor
                | NamedColor::BrightForeground | NamedColor::DimForeground => {
                    return Color::Default;
                },
            };
            Color::Indexed(index)
        },
    }
}

/// The flags the emulator sets on a cell, as read by the bridge.
#[derive(Debug, Clone, Copy, PartialEq, Eq, Structural)]
pub struct CellFlags {
    pub bold: bool,
    pub italic: bool,
    pub underline: bool,
    pub double_underline: bool,
    pub dotted_underline: bool,
    pub dashed_underline: bool,
    pub undercurl: bool,
    pub inverse: bool,
    pub strikeout: bool,
    pub dim: bool,
    pub wide_char: bool,
    pub wide_char_spacer: bool,
}

/// One emulator grid cell: its character, the zero-width characters attached
/// to it, its colors and its flags.
#[derive(Debug, Clone, PartialEq, Eq)]
pub struct EmuCell {
    pub c: char,
    pub zerowidth: Vec<char>,
    pub fg: EmuColor,
    pub bg: EmuColor,
    pub flags: CellFlags,
}

/// The mathematical value of an [`EmuCell`].
pub struct EmuCellV {
    pub c: char,
    pub zerowidth: Seq<char>,
    pub fg: EmuColor,
    pub bg: EmuColor,
    pub flags: CellFlags,
}

impl View for EmuCell {
    type V = EmuCellV;

    open spec fn view(&self) -> EmuCellV {
        EmuCellV { c: self.c, zerowidth: self.zerowidth@, fg: self.fg, bg: self.bg, flags: self.flags }
    }
}

/// The highlight attributes of a cell: resolved colors (no special color),
/// any underline style counting as underline, inverse as reverse, strikeout
/// as strikethrough; blink is never set.
pub open spec fn attrs_of(cell: EmuCellV) -> Attrs {
    let f = cell.flags;
    Attrs {
        fg: resolved(palette_color_of(cell.fg)),
        bg: resolved(palette_color_of(cell.bg)),
        sp: None,
        bold: f.bold,
        italic: f.italic,
        underline: f.underline || f.double_underline || f.dotted_underline || f.dashed_underline,
        undercurl: f.undercurl,
        reverse: f.inverse,
        strikethrough: f.strikeout,
        dim: f.dim,
        blink: false,
    }
}

/// Resolve a cell's colors and flags into protocol highlight attributes.
pub fn cell_attrs(cell: &EmuCell) -> (attrs: Attrs)
    ensures
        attrs == attrs_of(cell@),
        attrs.fg == resolved(palette_color_of(cell.fg)),
        attrs.bg == resolved(palette_color_of(cell.bg)),
        attrs.sp is None,
        attrs.bold == cell.flags.bold,
        attrs.italic == cell.flags.italic,
        attrs.underline == (cell.flags.underline || cell.flags.double_underline
            || cell.flags.dotted_underline || cell.flags.dashed_underline),
        attrs.undercurl == cell.flags.undercurl,
        attrs.reverse == cell.flags.inverse,
        attrs.strikethrough == cell.flags.strikeout,
        attrs.dim == cell.flags.dim,
        !attrs.blink,
{
    let f = cell.flags;
    Attrs {
        fg: resolve(palette_color(cell.fg)),
        bg: resolve(palette_color(cell.bg)),
        sp: None,
        bold: f.bold,
        italic: f.italic,
        underline: f.underline || f.double_underline || f.dotted_underline || f.dashed_underline,
        undercurl: f.undercurl,
        reverse: f.inverse,
        strikethrough: f.strikeout,
        dim: f.dim,
        blink: false,
    }
}

/// Append a character to a string (`String::push`).
#[verifier::external_body]
fn push_char(text: &mut String, c: char)
    ensures
        final(text)@ == old(text)@.push(c),
{
    text.push(c);
}

/// The neutral cell of an emulator cell: its character followed by its
/// zero-width characters, its attributes, and width 2 for a wide character.
pub open spec fn row_cell_of(cell: EmuCellV) -> RowCellV {
    RowCellV {
        text: seq![cell.c] + cell.zerowidth,
        attrs: attrs_of(cell),
        width: if cell.flags.wide_char {
            2
        } else {
            1
        },
    }
}

/// The neutral cells of an emulator row: one per cell, except the spacer
/// cells that trail wide characters.
pub open spec fn row_cells_of(row: Seq<EmuCellV>) -> Seq<RowCellV>
    decreases row.len(),
{
    if row.len() == 0 {
        seq![]
    } else {
        let rest = row_cells_of(row.drop_last());
        if row.last().flags.wide_char_spacer {
            rest
        } else {
            rest.push(row_cell_of(row.last()))
        }
    }
}

/// The values of an emulator row.
pub open spec fn emu_row_view(row: Seq<EmuCell>) -> Seq<EmuCellV> {
    row.map_values(|c: EmuCell| c@)
}

fn cell_text(cell: &EmuCell) -> (text: String)
    ensures
        text@ == seq![cell.c] + cell.zerowidth@,
{
    let mut text = String::new();
    push_char(&mut text, cell.c);
    let n = cell.zerowidth.len();
    let mut i: usize = 0;
    while i < n
        invariant
            n == cell.zerowidth@.len(),
            i <= n,
            text@ == seq![cell.c] + cell.zerowidth@.take(i as int),
        decreases n - i,
    {
        push_char(&mut text, cell.zerowidth[i]);
        proof {
            assert(cell.zerowidth@.take(i as int + 1) =~= cell.zerowidth@.take(i as int).push(
                cell.zerowidth@[i as int],
            ));
        }
        i = i + 1;
    }
    proof {
        assert(cell.zerowidth@.take(n as int) =~= cell.zerowidth@);
    }
    text
}

/// Convert one emulator grid row into neutral [`RowCell`]s, dropping the
/// trailing spacer of a wide character (regenerated from the wide cell's
/// width) and keeping every other cell, a leading blank left by a wrapped wide
/// character included.
pub fn row_to_cells(row: &Vec<EmuCell>) -> (cells: Vec<RowCell>)
    ensures
        row_view(cells@) == row_cells_of(emu_row_view(row@)),
{
    let ghost rv = emu_row_view(row@);
    let mut cells: Vec<RowCell> = Vec::new();
    let n = row.len();
    let mut col: usize = 0;
    proof {
        assert(rv.take(0) =~= seq![]);
        assert(row_view(cells@) =~= seq![]);
    }
    while col < n
        invariant
            n == row@.len(),
            rv == emu_row_view(row@),
            col <= n,
            row_view(cells@) == row_cells_of(rv.take(col as int)),
        decreases n - col,
    {
        let cell = &row[col];
        proof {
            assert(rv.take(col as int + 1).drop_last() =~= rv.take(col as int));
            assert(rv.take(col as int + 1).last() == cell@);
        }
        if !cell.flags.wide_char_spacer {
            let text = cell_text(cell);
            let width: u8 = if cell.flags.wide_char {
                2
            } else {
                1
            };
            let ghost before = row_view(cells@);
            cells.push(RowCell { text, attrs: cell_attrs(cell), width });
            proof {
                assert(row_view(cells@) =~= before.push(row_cell_of(cell@)));
            }
        }
        col = col + 1;
    }
    proof {
        assert(rv.take(n as int) =~= rv);
    }
    cells
}

/// The emulator lays wide characters out as the grid expects: every wide
/// character is followed by its spacer, every spacer follows a wide
/// character, and no cell is both.
pub open spec fn wide_pairs_ok(row: Seq<EmuCellV>) -> bool {
    &&& forall|i: int| 0 <= i < row.len() ==> !(#[trigger] row[i].flags.wide_char && row[i].flags.wide_char_spacer)
    &&& forall|i: int|
        0 <= i < row.len() && #[trigger] row[i].flags.wide_char ==> i + 1 < row.len() && row[i
            + 1].flags.wide_char_spacer
    &&& forall|i: int|
        0 <= i < row.len() && #[trigger] row[i].flags.wide_char_spacer ==> i > 0 && row[i
            - 1].flags.wide_char
}

proof fn lemma_prefix_width(row: Seq<EmuCellV>, m: int)
    requires
        wide_pairs_ok(row),
        0 <= m <= row.len(),
    ensures
        row_width(row_cells_of(row.take(m))) == m + if m > 0 && row[m - 1].flags.wide_char {
            1int
        } else {
            0int
        },
    decreases m,
{
    if m > 0 {
        lemma_prefix_width(row, m - 1);
        let t = row.take(m);
        assert(t.drop_last() =~= row.take(m - 1));
        assert(t.last() == row[m - 1]);
        let e = row[m - 1];
        if !e.flags.wide_char_spacer {
            let rest = row_cells_of(row.take(m - 1));
            let pushed = rest.push(row_cell_of(e));
            assert(pushed.drop_last() =~= rest);
            if m > 1 && row[m - 2].flags.wide_char {
                assert(row[m - 1].flags.wide_char_spacer);
            }
        } else {
            assert(row[m - 2].flags.wide_char);
        }
    }
}

/// Column conservation at the emulator boundary: when the emulator pairs every
/// wide character with its spacer, a converted row occupies exactly as many
/// columns as the grid row has cells.
pub proof fn lemma_row_to_cells_conserves_columns(row: Seq<EmuCellV>)
    requires
        wide_pairs_ok(row),
    ensures
        row_width(row_cells_of(row)) == row.len(),
{
    lemma_prefix_width(row, row.len() as int);
    assert(row.take(row.len() as int) =~= row);
    if row.len() > 0 && row[row.len() - 1].flags.wide_char {
        assert(row.len() - 1 + 1 < row.len());
    }
}

/// The emulator's cursor shapes.
#[derive(Debug, Clone, Copy, PartialEq, Eq, Structural)]
pub enum EmuCursorShape {
    Block,
    Underline,
    Beam,
    HollowBlock,
    Hidden,
}

/// The protocol shape of an emulator cursor shape: a beam is a bar, an
/// underline stays one, anything else (hidden included) is a block.
pub open spec fn shape_of(shape: EmuCursorShape) -> CursorShape {
    match shape {
        EmuCursorShape::Underline => CursorShape::Underline,
        EmuCursorShape::Beam => CursorShape::Bar,
        _ => CursorShape::Block,
    }
}

/// Map an emulator cursor shape to the protocol's.
pub fn map_shape(shape: EmuCursorShape) -> (mapped: CursorShape)
    ensures
        mapped == shape_of(shape),
        shape == EmuCursorShape::Block ==> mapped == CursorShape::Block,
        shape == EmuCursorShape::HollowBlock ==> mapped == CursorShape::Block,
        shape == EmuCursorShape::Hidden ==> mapped == CursorShape::Block,
        shape == EmuCursorShape::Beam ==> mapped == CursorShape::Bar,
        shape == EmuCursorShape::Underline ==> mapped == CursorShape::Underline,
{
    match shape {
        EmuCursorShape::Underline => CursorShape::Underline,
        EmuCursorShape::Beam => CursorShape::Bar,
        EmuCursorShape::Block | EmuCursorShape::HollowBlock | EmuCursorShape::Hidden => CursorShape::Block,
    }
}

/// The cursor reported for the emulator's cursor at grid `line` (negative in
/// scrollback, reported as row 0) and `column`: visible unless hidden.
pub fn cursor_at(line: i32, column: usize, shape: EmuCursorShape) -> (cursor: Cursor)
    ensures
        cursor.row == (if line < 0 {
            0
        } else {
            line
        }) as u16,
        cursor.col == column as u16,
        cursor.visible == (shape != EmuCursorShape::Hidden),
        cursor.shape == shape_of(shape),
{
    let row: i32 = if line < 0 {
        0
    } else {
        line
    };
    Cursor {
        row: #[verifier::truncate] (row as u16),
        col: #[verifier::truncate] (column as u16),
        visible: shape != EmuCursorShape::Hidden,
        shape: map_shape(shape),
    }
}

/// A cell's highlight attributes carry its flags one for one: bold, italic,
/// undercurl and dim as they are, inverse (reverse video) as reverse,
/// strikeout as strikethrough, any underline style as underline; blink and a
/// special color are never set, and the colors are the palette's resolution
/// of the cell's colors.
pub proof fn lemma_cell_attrs_follow_flags(cell: EmuCellV)
    ensures
        attrs_of(cell).reverse == cell.flags.inverse,
        attrs_of(cell).bold == cell.flags.bold,
        attrs_of(cell).italic == cell.flags.italic,
        attrs_of(cell).underline == (cell.flags.underline || cell.flags.double_underline
            || cell.flags.dotted_underline || cell.flags.dashed_underline),
        attrs_of(cell).undercurl == cell.flags.undercurl,
        attrs_of(cell).strikethrough == cell.flags.strikeout,
        attrs_of(cell).dim == cell.flags.dim,
        !attrs_of(cell).blink,
        attrs_of(cell).sp is None,
        attrs_of(cell).fg == resolved(palette_color_of(cell.fg)),
        attrs_of(cell).bg == resolved(palette_color_of(cell.bg)),
{
}

/// Cursor shapes: a block cursor is reported as a block, a beam as a bar, an
/// underline as an underline, and a hollow block or hidden cursor as a block.
pub proof fn lemma_cursor_shapes()
    ensures
        shape_of(EmuCursorShape::Block) == CursorShape::Block,
        shape_of(EmuCursorShape::Beam) == CursorShape::Bar,
        shape_of(EmuCursorShape::Underline) == CursorShape::Underline,
        shape_of(EmuCursorShape::HollowBlock) == CursorShape::Block,
        shape_of(EmuCursorShape::Hidden) == CursorShape::Block,
{
}

/// Named colors: the eight ANSI names and their dim variants are palette
/// entries 0 to 7, the bright names entries 8 to 15, and the themeable
/// foreground, background and cursor colors stay the default.
pub proof fn lemma_named_colors()
    ensures
        palette_color_of(EmuColor::Named(NamedColor::Black)) == Color::Indexed(0),
        palette_color_of(EmuColor::Named(NamedColor::Red)) == Color::Indexed(1),
        palette_color_of(EmuColor::Named(NamedColor::Green)) == Color::Indexed(2),
        palette_color_of(EmuColor::Named(NamedColor::Yellow)) == Color::Indexed(3),
        palette_color_of(EmuColor::Named(NamedColor::Blue)) == Color::Indexed(4),
        palette_color_of(EmuColor::Named(NamedColor::Magenta)) == Color::Indexed(5),
        palette_color_of(EmuColor::Named(NamedColor::Cyan)) == Color::Indexed(6),
        palette_color_of(EmuColor::Named(NamedColor::White)) == Color::Indexed(7),
        palette_color_of(EmuColor::Named(NamedColor::BrightBlack)) == Color::Indexed(8),
        palette_color_of(EmuColor::Named(NamedColor::BrightRed)) == Color::Indexed(9),
        palette_color_of(EmuColor::Named(NamedColor::BrightGreen)) == Color::Indexed(10),
        palette_color_of(EmuColor::Named(NamedColor::BrightYellow)) == Color::Indexed(11),
        palette_color_of(EmuColor::Named(NamedColor::BrightBlue)) == Color::Indexed(12),
        palette_color_of(EmuColor::Named(NamedColor::BrightMagenta)) == Color::Indexed(13),
        palette_color_of(EmuColor::Named(NamedColor::BrightCyan)) == Color::Indexed(14),
        palette_color_of(EmuColor::Named(NamedColor::BrightWhite)) == Color::Indexed(15),
        palette_color_of(EmuColor::Named(NamedColor::DimBlack)) == Color::Indexed(0),
        palette_color_of(EmuColor::Named(NamedColor::DimRed)) == Color::Indexed(1),
        palette_color_of(EmuColor::Named(NamedColor::DimGreen)) == Color::Indexed(2),
        palette_color_of(EmuColor::Named(NamedColor::DimYellow)) == Color::Indexed(3),
        palette_color_of(EmuColor::Named(NamedColor::DimBlue)) == Color::Indexed(4),
        palette_color_of(EmuColor::Named(NamedColor::DimMagenta)) == Color::Indexed(5),
        palette_color_of(EmuColor::Named(NamedColor::DimCyan)) == Color::Indexed(6),
        palette_color_of(EmuColor::Named(NamedColor::DimWhite)) == Color::Indexed(7),
        palette_color_of(EmuColor::Named(NamedColor::Foreground)) == Color::Default,
        palette_color_of(EmuColor::Named(NamedColor::Background)) == Color::Default,
        palette_color_of(EmuColor::Named(NamedColor::Cursor)) == Color::Default,
        palette_color_of(EmuColor::Named(NamedColor::BrightForeground)) == Color::Default,
        palette_color_of(EmuColor::Named(NamedColor::DimForeground)) == Color::Default,
        forall|i: u8| palette_color_of(EmuColor::Indexed(i)) == Color::Indexed(i),
        forall|r: u8, g: u8, b: u8| palette_color_of(EmuColor::Spec(r, g, b)) == Color::Rgb(r, g, b),
{
}

/// Converting a row keeps each non-spacer cell, in order, as a cell whose
/// text is the character followed by its zero-width characters, whose width
/// is 2 for a wide character and 1 otherwise, and whose attributes are the
/// cell's; spacer cells are dropped.
pub proof fn lemma_row_cells_keep_the_cells(row: Seq<EmuCellV>)
    ensures
        row_cells_of(row) == row.filter(|c: EmuCellV| !c.flags.wide_char_spacer).map_values(
            |c: EmuCellV| row_cell_of(c),
        ),
        forall|c: EmuCellV|
            #![trigger row_cell_of(c)]
            row_cell_of(c).text == seq![c.c] + c.zerowidth && row_cell_of(c).width == (if c.flags.wide_char {
                2u8
            } else {
                1u8
            }) && row_cell_of(c).attrs.reverse == c.flags.inverse && row_cell_of(c).attrs.bold
                == c.flags.bold,
    decreases row.len(),
{
    let keep = |c: EmuCellV| !c.flags.wide_char_spacer;
    let conv = |c: EmuCellV| row_cell_of(c);
    reveal(Seq::filter);
    if row.len() == 0 {
        assert(row.filter(keep) =~= Seq::<EmuCellV>::empty());
        assert(row.filter(keep).map_values(conv) =~= Seq::<RowCellV>::empty());
    } else {
        lemma_row_cells_keep_the_cells(row.drop_last());
        assert(row.drop_last().push(row.last()) =~= row);
        if keep(row.last()) {
            assert(row.filter(keep).map_values(conv) =~= row.drop_last().filter(keep).map_values(conv).push(
                row_cell_of(row.last()),
            ));
        } else {
            assert(row.filter(keep) == row.drop_last().filter(keep));
        }
    }
}

} // verus!
