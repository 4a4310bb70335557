//! A part of the screen: a matrix of cells, which are colored characters, and the cursor that
//! writes into it.
//!
//! Coordinates have their origin at the top left, `x` growing to the right and `y` down. A
//! screen that is not of fixed size grows whenever a character is placed outside of it.

use vstd::prelude::*;
use vstd::utf8::*;
use crate::strings::{chars_of, string_push};
use vstd::arithmetic::div_mod::{lemma_fundamental_div_mod, lemma_fundamental_div_mod_converse, lemma_mod_bound};

verus! {

/// Colors are pairs of foreground/background indices into the same palette.
#[derive(Clone, Copy, Debug, PartialEq, Eq, Structural, Hash)]
pub struct Colors {
    /// Foreground color, index into a 256-entry color table
    pub foreground: u8,
    /// Background color, index into a 256-entry color table
    pub background: u8,
}

/// The colors that a terminal program can ask for by name.
#[derive(Clone, Copy, Debug, PartialEq, Eq, Structural)]
pub enum Color {
    Default,
    Black,
    Red,
    Green,
    Yellow,
    Blue,
    Magenta,
    Cyan,
    White,
    Grey,
    BrightRed,
    BrightGreen,
    BrightYellow,
    BrightBlue,
    BrightMagenta,
    BrightCyan,
    BrightWhite,
}

/// The palette index of a named color: the default is black, the others follow the usual
/// order of the sixteen terminal colors.
pub open spec fn color_index(c: Color) -> u8 {
    match c {
        Color::Default => 0,
        Color::Black => 0,
        Color::Red => 1,
        Color::Green => 2,
        Color::Yellow => 3,
        Color::Blue => 4,
        Color::Magenta => 5,
        Color::Cyan => 6,
        Color::White => 7,
        Color::Grey => 8,
        Color::BrightRed => 9,
        Color::BrightGreen => 10,
        Color::BrightYellow => 11,
        Color::BrightBlue => 12,
        Color::BrightMagenta => 13,
        Color::BrightCyan => 14,
        Color::BrightWhite => 15,
    }
}

impl Colors {
    /// The palette index of a named color.
    #[allow(non_snake_case)]
    pub fn fromColor(c: Color) -> (i: u8)
        ensures
            i == color_index(c),
    {
        match c {
            Color::Default => 0,
            Color::Black => 0,
            Color::Red => 1,
            Color::Green => 2,
            Color::Yellow => 3,
            Color::Blue => 4,
            Color::Magenta => 5,
            Color::Cyan => 6,
            Color::White => 7,
            Color::Grey => 8,
            Color::BrightRed => 9,
            Color::BrightGreen => 10,
            Color::BrightYellow => 11,
            Color::BrightBlue => 12,
            Color::BrightMagenta => 13,
            Color::BrightCyan => 14,
            Color::BrightWhite => 15,
        }
    }
}

/// A position on the screen.
#[derive(Clone, Copy, Debug, PartialEq, Eq, Structural)]
pub struct Point {
    pub x: isize,
    pub y: isize,
}

/// A rectangle of cells, given by its top left and bottom right corners, both included.
#[derive(Clone, Copy, Debug, PartialEq, Eq, Structural)]
pub struct Rectangle {
    pub start: Point,
    pub end: Point,
}

/// The larger of two coordinates.
pub open spec fn max_coord(a: isize, b: isize) -> isize {
    if a > b {
        a
    } else {
        b
    }
}

/// The smaller of two coordinates.
pub open spec fn min_coord(a: isize, b: isize) -> isize {
    if a < b {
        a
    } else {
        b
    }
}

/// The part of rectangle `r` that lies inside `other`; it is empty (its end before its start)
/// where they do not meet.
pub open spec fn spec_clipped(r: Rectangle, other: Rectangle) -> Rectangle {
    Rectangle {
        start: Point { x: max_coord(r.start.x, other.start.x), y: max_coord(r.start.y, other.start.y) },
        end: Point { x: min_coord(r.end.x, other.end.x), y: min_coord(r.end.y, other.end.y) },
    }
}

impl Rectangle {
    /// The part of this rectangle that lies inside `other`.
    pub fn clipped(&self, other: &Rectangle) -> (r: Rectangle)
        ensures
            r == spec_clipped(*self, *other),
    {
        Rectangle {
            start: Point {
                x: if self.start.x > other.start.x { self.start.x } else { other.start.x },
                y: if self.start.y > other.start.y { self.start.y } else { other.start.y },
            },
            end: Point {
                x: if self.end.x < other.end.x { self.end.x } else { other.end.x },
                y: if self.end.y < other.end.y { self.end.y } else { other.end.y },
            },
        }
    }

    /// The rectangle from (x1, y1) to (x2, y2), both corners included.
    pub fn new_isize(x1: isize, y1: isize, x2: isize, y2: isize) -> (r: Self)
        ensures
            r == (Rectangle { start: Point { x: x1, y: y1 }, end: Point { x: x2, y: y2 } }),
    {
        Rectangle { start: Point { x: x1, y: y1 }, end: Point { x: x2, y: y2 } }
    }
}

/// Attributes of a cell as a bit field.
#[derive(Clone, Copy, Debug, PartialEq, Eq, Structural, Hash)]
pub struct Attributes {
    pub bits: u16,
}

pub const INVERSE: u16 = 0b0000000000001;
pub const UNDERLINE: u16 = 0b0000000000010;
pub const BOLD: u16 = 0b0000000000100;
pub const BLINK: u16 = 0b0000000001000;
/// The background color has been set.
pub const BG_COLOR: u16 = 0b0000000010000;
/// The foreground color has been set.
pub const FG_COLOR: u16 = 0b0000000100000;
/// A character that cannot be erased.
pub const PROTECTED: u16 = 0b0000001000000;
/// A character has been drawn here. Tells blanks from empty parts of the screen.
pub const CHARDRAWN: u16 = 0b0000010000000;
pub const ATR_FAINT: u16 = 0b0000100000000;
pub const ATR_ITALIC: u16 = 0b0001000000000;
pub const ATR_STRIKEOUT: u16 = 0b0010000000000;
pub const ATR_DBL_UNDER: u16 = 0b0100000000000;
pub const INVISIBLE: u16 = 0b1000000000000;
/// Faint, italic, crossed out and doubly underlined.
pub const SGR_MASK2: u16 = ATR_FAINT | ATR_ITALIC | ATR_STRIKEOUT | ATR_DBL_UNDER;
/// The video attributes only.
pub const SGR_MASK: u16 = BOLD | BLINK | UNDERLINE | INVERSE;
/// The attributes that a user sees.
pub const ATTRIBUTES: u16 = SGR_MASK | SGR_MASK2 | BG_COLOR | FG_COLOR | PROTECTED | INVISIBLE;
/// The attributes and whether a character was drawn.
pub const DRAWX_MASK: u16 = ATTRIBUTES | CHARDRAWN;

impl Attributes {
    pub fn empty() -> (a: Self)
        ensures
            a.bits == 0,
    {
        Attributes { bits: 0 }
    }

    pub fn from_bits(bits: u16) -> (a: Self)
        ensures
            a.bits == bits,
    {
        Attributes { bits }
    }

    /// All bits of `flags` are set.
    pub fn contains(&self, flags: u16) -> (b: bool)
        ensures
            b == (self.bits & flags == flags),
    {
        self.bits & flags == flags
    }

    /// Set the bits of `flags`.
    pub fn insert(&mut self, flags: u16)
        ensures
            final(self).bits == old(self).bits | flags,
    {
        self.bits = self.bits | flags;
    }

    /// Clear the bits of `flags`.
    pub fn remove(&mut self, flags: u16)
        ensures
            final(self).bits == old(self).bits & !flags,
    {
        self.bits = self.bits & !flags;
    }

    /// These attributes and those of `flags`.
    pub fn union(&self, flags: u16) -> (a: Self)
        ensures
            a.bits == self.bits | flags,
    {
        Attributes { bits: self.bits | flags }
    }
}

/// A cell is a character and its colors and attributes.
#[derive(Clone, Copy, Debug, Hash)]
pub struct Cell {
    /// The unicode character to show
    pub code_point: char,
    /// Attributes as a bit field
    pub attributes: Attributes,
    /// Colors of this cell
    pub colors: Colors,
}

/// A fresh cell: a blank with no attributes.
pub open spec fn blank_cell(colors: Colors) -> Cell {
    Cell { code_point: ' ', attributes: Attributes { bits: 0 }, colors }
}

/// A character has been drawn into the cell.
pub open spec fn is_drawn(c: Cell) -> bool {
    c.attributes.bits & CHARDRAWN == CHARDRAWN
}

/// The foreground color index that a cell shows: set colors only, the bright variant of the
/// first eight for bold text.
pub open spec fn spec_foreground(c: Cell) -> Option<u8> {
    if c.attributes.bits & FG_COLOR == FG_COLOR {
        if c.attributes.bits & BOLD == BOLD && c.colors.foreground < 8 {
            Some((c.colors.foreground + 8) as u8)
        } else {
            Some(c.colors.foreground)
        }
    } else {
        None
    }
}

/// The background color index that a cell shows, if one is set.
pub open spec fn spec_background(c: Cell) -> Option<u8> {
    if c.attributes.bits & BG_COLOR == BG_COLOR {
        Some(c.colors.background)
    } else {
        None
    }
}

/// Two cells look the same: same character and attributes, and the same colors where set.
pub open spec fn cells_look_same(a: Cell, b: Cell) -> bool {
    &&& a.code_point == b.code_point
    &&& a.attributes == b.attributes
    &&& spec_foreground(a) == spec_foreground(b)
    &&& spec_background(a) == spec_background(b)
}

/// `char::encode_utf8`: the UTF-8 bytes of one character.
#[verifier::external_body]
fn char_encode_utf8(c: char) -> (bytes: Vec<u8>)
    ensures
        bytes@ == encode_utf8(seq![c]),
{
    let mut buf = [0u8; 4];
    c.encode_utf8(&mut buf).as_bytes().to_vec()
}

impl Cell {
    pub fn new(colors: Colors) -> (c: Self)
        ensures
            c == blank_cell(colors),
    {
        Self { code_point: ' ', attributes: Attributes::empty(), colors }
    }

    pub fn with_attr(colors: Colors, attributes: Attributes) -> (c: Self)
        ensures
            c == (Cell { code_point: ' ', attributes, colors }),
    {
        Self { code_point: ' ', attributes, colors }
    }

    /// The color index of the foreground color of the cell, if set. A bold cell shows the
    /// brighter version of the first eight colors.
    pub fn foreground_color(&self) -> (r: Option<u8>)
        ensures
            r == spec_foreground(*self),
    {
        if self.attributes.contains(FG_COLOR) {
            if self.attributes.contains(BOLD) && self.colors.foreground < 8 {
                Some(self.colors.foreground + 8)
            } else {
                Some(self.colors.foreground)
            }
        } else {
            None
        }
    }

    /// The color index of the background color of the cell, if set.
    pub fn background_color(&self) -> (r: Option<u8>)
        ensures
            r == spec_background(*self),
    {
        if self.attributes.contains(BG_COLOR) {
            Some(self.colors.background)
        } else {
            None
        }
    }

    /// The UTF-8 encoding of the character of the cell.
    pub fn encode_utf8(&self) -> (bytes: Vec<u8>)
        ensures
            bytes@ == encode_utf8(seq![self.code_point]),
    {
        char_encode_utf8(self.code_point)
    }

    pub fn code_point(&self) -> (c: char)
        ensures
            c == self.code_point,
    {
        self.code_point
    }

    /// A character has been drawn here.
    pub fn drawn(&self) -> (b: bool)
        ensures
            b == is_drawn(*self),
    {
        self.attributes.contains(CHARDRAWN)
    }

    /// The cells look the same: colors only matter where they have been set.
    pub fn looks_same(&self, other: &Cell) -> (b: bool)
        ensures
            b == cells_look_same(*self, *other),
    {
        if self.code_point != other.code_point {
            return false;
        }
        if self.attributes.bits != other.attributes.bits {
            return false;
        }
        let (a, b) = (self.foreground_color(), other.foreground_color());
        let same_fg = match (a, b) {
            (Some(x), Some(y)) => x == y,
            (None, None) => true,
            _ => false,
        };
        if !same_fg {
            return false;
        }
        let (a, b) = (self.background_color(), other.background_color());
        match (a, b) {
            (Some(x), Some(y)) => x == y,
            (None, None) => true,
            _ => false,
        }
    }
}


/// A matrix as a value: its size and its cells, row by row.
pub struct MatrixView {
    pub width: int,
    pub height: int,
    pub cells: Seq<Cell>,
}

/// The cells fill the matrix exactly, and an index into it fits an `isize`.
pub open spec fn matrix_wf(m: MatrixView) -> bool {
    &&& 0 <= m.width
    &&& 0 <= m.height
    &&& m.cells.len() == m.width * m.height
    &&& m.width * m.height <= isize::MAX
}

/// The position of cell (x, y) in the row-major list of cells.
pub open spec fn cell_index(w: int, x: int, y: int) -> int {
    x + y * w
}

/// The cell at column `x` of row `y`.
pub open spec fn cell_at(m: MatrixView, x: int, y: int) -> Cell {
    m.cells[cell_index(m.width, x, y)]
}

/// The cells of row `y`.
pub open spec fn row_of(m: MatrixView, y: int) -> Seq<Cell> {
    m.cells.subrange(y * m.width, y * m.width + m.width)
}

/// The length of a row up to and including its last drawn cell.
pub open spec fn compacted_len(row: Seq<Cell>) -> int
    decreases row.len(),
{
    if row.len() == 0 {
        0
    } else if is_drawn(row.last()) {
        row.len() as int
    } else {
        compacted_len(row.drop_last())
    }
}

/// A row without the undrawn cells at its end.
pub open spec fn compacted(row: Seq<Cell>) -> Seq<Cell> {
    row.take(compacted_len(row))
}

/// The compacted row `y` of a matrix; empty where the matrix has no columns.
pub open spec fn compacted_row_of(m: MatrixView, y: int) -> Seq<Cell> {
    if m.width == 0 {
        Seq::empty()
    } else {
        compacted(row_of(m, y))
    }
}

/// Two matrices look the same: equal size and cells that look the same.
pub open spec fn matrices_look_same(a: MatrixView, b: MatrixView) -> bool {
    &&& a.width == b.width
    &&& a.height == b.height
    &&& a.cells.len() == b.cells.len()
    &&& forall|i: int| 0 <= i < a.cells.len() ==> cells_look_same(#[trigger] a.cells[i], b.cells[i])
}

pub proof fn lemma_compacted_len(row: Seq<Cell>)
    ensures
        0 <= compacted_len(row) <= row.len(),
        compacted_len(row) > 0 ==> is_drawn(row[compacted_len(row) - 1]),
        forall|i: int| compacted_len(row) <= i < row.len() ==> !is_drawn(#[trigger] row[i]),
    decreases row.len(),
{
    if row.len() > 0 && !is_drawn(row.last()) {
        lemma_compacted_len(row.drop_last());
        assert forall|i: int| compacted_len(row) <= i < row.len() implies !is_drawn(#[trigger] row[i]) by {
            if i < row.len() - 1 {
                assert(row[i] == row.drop_last()[i]);
            }
        }
    }
}

/// The cell index of a position inside the matrix lies inside the matrix.
pub proof fn lemma_index_bounds(x: int, y: int, w: int, h: int)
    requires
        0 <= x < w,
        0 <= y < h,
    ensures
        0 <= y * w,
        0 <= x + y * w < w * h,
        y * w + w <= w * h,
{
    assert(0 <= y * w) by (nonlinear_arith)
        requires
            0 <= y,
            0 <= w,
    ;
    assert(y * w + w <= w * h) by (nonlinear_arith)
        requires
            0 <= y < h,
            0 <= w,
    ;
}

/// The cell index of a row start is a multiple of the width.
pub proof fn lemma_row_start(y: int, w: int)
    ensures
        (y + 1) * w == y * w + w,
        (y - 1) * w == y * w - w,
{
    assert((y + 1) * w == y * w + w) by (nonlinear_arith);
    assert((y - 1) * w == y * w - w) by (nonlinear_arith);
}

/// Different positions inside a row-major matrix have different cell indices.
pub proof fn lemma_index_injective(x1: int, y1: int, x2: int, y2: int, w: int)
    requires
        0 <= x1 < w,
        0 <= x2 < w,
        cell_index(w, x1, y1) == cell_index(w, x2, y2),
    ensures
        x1 == x2,
        y1 == y2,
{
    assert(y1 == y2) by (nonlinear_arith)
        requires
            0 <= x1 < w,
            0 <= x2 < w,
            x1 + y1 * w == x2 + y2 * w,
    ;
}

/// A matrix is a rectangular area of cells, stored in row-major order.
///
/// A matrix can have a width of 0 and a non-zero height: new lines added to an empty screen.
pub struct Matrix {
    cells: Vec<Cell>,
    width: isize,
    height: isize,
}

impl View for Matrix {
    type V = MatrixView;

    closed spec fn view(&self) -> MatrixView {
        MatrixView { width: self.width as int, height: self.height as int, cells: self.cells@ }
    }
}

impl Matrix {
    /// The height of a matrix is an `isize`.
    pub proof fn lemma_height_fits(&self)
        ensures
            self@.height <= isize::MAX,
    {
    }

    pub fn new() -> (m: Self)
        ensures
            matrix_wf(m@),
            m@.width == 0,
            m@.height == 0,
            m@.cells == Seq::<Cell>::empty(),
    {
        Self { cells: Vec::new(), width: 0, height: 0 }
    }

    pub fn rows(&self) -> (r: isize)
        ensures
            r == self@.height,
    {
        self.height
    }

    pub fn columns(&self) -> (c: isize)
        ensures
            c == self@.width,
    {
        self.width
    }

    /// The index into the cells of a position inside the matrix.
    fn cell_index(&self, x: isize, y: isize) -> (i: isize)
        requires
            matrix_wf(self@),
            0 <= x < self@.width,
            0 <= y < self@.height,
        ensures
            i == cell_index(self@.width, x as int, y as int),
            0 <= i < self@.cells.len(),
    {
        proof {
            lemma_index_bounds(x as int, y as int, self.width as int, self.height as int);
        }
        x + y * self.width
    }

    pub fn cell_at(&self, x: isize, y: isize) -> (c: Cell)
        requires
            matrix_wf(self@),
            0 <= x < self@.width,
            0 <= y < self@.height,
        ensures
            c == cell_at(self@, x as int, y as int),
    {
        let i = self.cell_index(x, y);
        self.cells[i as usize]
    }

    pub fn cell_at_mut(&mut self, x: isize, y: isize) -> (c: &mut Cell)
        requires
            matrix_wf(old(self)@),
            0 <= x < old(self)@.width,
            0 <= y < old(self)@.height,
        ensures
            *c == cell_at(old(self)@, x as int, y as int),
            final(self)@ == (MatrixView {
                cells: old(self)@.cells.update(cell_index(old(self)@.width, x as int, y as int), *final(c)),
                ..old(self)@
            }),
    {
        let i = self.cell_index(x, y) as usize;
        &mut self.cells[i]
    }

    /// The cells of row `row` up to its last drawn cell.
    pub fn compacted_row_slice(&self, row: isize) -> (r: &[Cell])
        requires
            matrix_wf(self@),
            self@.width == 0 || 0 <= row < self@.height,
        ensures
            r@ == compacted_row_of(self@, row as int),
    {
        if self.width == 0 {
            proof {
                assert(self.cells@.subrange(0, 0) =~= Seq::<Cell>::empty());
            }
            &self.cells[0..0]
        } else {
            let row_start = self.cell_index(0, row);
            let mut row_end = self.cell_index(self.width - 1, row);
            let ghost r = row_of(self@, row as int);
            proof {
                lemma_index_bounds(0, row as int, self.width as int, self.height as int);
                lemma_compacted_len(r);
            }
            while row_end >= row_start
                invariant
                    matrix_wf(self@),
                    row_start == row * self@.width,
                    0 <= row_start,
                    r == row_of(self@, row as int),
                    r.len() == self@.width,
                    row_start + self@.width <= self@.cells.len(),
                    row_start - 1 <= row_end < row_start + self@.width,
                    forall|i: int| row_end - row_start < i < r.len() ==> !is_drawn(#[trigger] r[i]),
                ensures
                    row_start - 1 <= row_end < row_start + self@.width,
                    forall|i: int| row_end - row_start < i < r.len() ==> !is_drawn(#[trigger] r[i]),
                    row_end >= row_start ==> is_drawn(r[row_end - row_start]),
                decreases row_end - row_start + 1,
            {
                assert(self@.cells[row_end as int] == r[row_end - row_start]);
                if self.cells[row_end as usize].drawn() {
                    break;
                }
                row_end -= 1;
            }
            row_end += 1;
            proof {
                lemma_compacted_exact(r, row_end - row_start);
                assert(self@.cells.subrange(row_start as int, row_end as int) =~= compacted(r));
            }
            &self.cells[row_start as usize..row_end as usize]
        }
    }

    /// The cells of row `row` but its last one; empty where the matrix has no columns.
    pub fn row_slice(&self, row: isize) -> (r: &[Cell])
        requires
            matrix_wf(self@),
            self@.width == 0 || 0 <= row < self@.height,
        ensures
            self@.width == 0 ==> r@.len() == 0,
            self@.width > 0 ==> r@ == row_of(self@, row as int).drop_last(),
    {
        if self.width == 0 {
            &self.cells[0..0]
        } else {
            let row_start = self.cell_index(0, row);
            let row_end = self.cell_index(self.width - 1, row);
            proof {
                assert(self@.cells.subrange(row_start as int, row_end as int) =~= row_of(
                    self@,
                    row as int,
                ).drop_last());
            }
            &self.cells[row_start as usize..row_end as usize]
        }
    }

    /// The cells of row `row` up to its last drawn cell, as a vector.
    pub fn compacted_row(&self, row: isize) -> (r: Vec<Cell>)
        requires
            matrix_wf(self@),
            self@.width == 0 || 0 <= row < self@.height,
        ensures
            r@ == compacted_row_of(self@, row as int),
    {
        if self.width == 0 {
            Vec::new()
        } else {
            vstd::slice::slice_to_vec(self.compacted_row_slice(row))
        }
    }

    /// The compacted rows, top to bottom.
    pub fn line_iter(&self) -> (r: Vec<&[Cell]>)
        requires
            matrix_wf(self@),
        ensures
            r@.len() == self@.height,
            forall|y: int| 0 <= y < self@.height ==> (#[trigger] r@[y])@ == compacted_row_of(self@, y),
    {
        let mut r: Vec<&[Cell]> = Vec::new();
        let mut y: isize = 0;
        while y < self.height
            invariant
                matrix_wf(self@),
                0 <= y <= self@.height,
                r@.len() == y,
                forall|j: int| 0 <= j < y ==> (#[trigger] r@[j])@ == compacted_row_of(self@, j),
            decreases self@.height - y,
        {
            r.push(self.compacted_row_slice(y));
            y = y + 1;
        }
        r
    }

    /// The rows without their last cell, top to bottom.
    pub fn line_iter_full(&self) -> (r: Vec<&[Cell]>)
        requires
            matrix_wf(self@),
        ensures
            r@.len() == self@.height,
            forall|y: int| 0 <= y < self@.height && self@.width > 0 ==> (#[trigger] r@[y])@ == row_of(self@, y).drop_last(),
            forall|y: int| 0 <= y < self@.height && self@.width == 0 ==> (#[trigger] r@[y])@.len() == 0,
    {
        let mut r: Vec<&[Cell]> = Vec::new();
        let mut y: isize = 0;
        while y < self.height
            invariant
                matrix_wf(self@),
                0 <= y <= self@.height,
                r@.len() == y,
                forall|j: int| 0 <= j < y && self@.width > 0 ==> (#[trigger] r@[j])@ == row_of(self@, j).drop_last(),
                forall|j: int| 0 <= j < y && self@.width == 0 ==> (#[trigger] r@[j])@.len() == 0,
            decreases self@.height - y,
        {
            r.push(self.row_slice(y));
            y = y + 1;
        }
        r
    }

    /// Empty the matrix.
    pub fn reset(&mut self)
        ensures
            matrix_wf(final(self)@),
            final(self)@ == (MatrixView { width: 0, height: 0, cells: Seq::empty() }),
    {
        self.cells.clear();
        self.width = 0;
        self.height = 0;
    }

    /// A copy of the matrix.
    pub fn duplicate(&self) -> (m: Matrix)
        ensures
            m@ == self@,
    {
        let cells = self.cells.clone();
        proof {
            assert(cells@ =~= self.cells@);
        }
        Matrix { cells, width: self.width, height: self.height }
    }

    /// The rectangle that covers the whole matrix.
    pub fn rectangle(&self) -> (r: Rectangle)
        requires
            matrix_wf(self@),
        ensures
            r == (Rectangle {
                start: Point { x: 0, y: 0 },
                end: Point { x: (self@.width - 1) as isize, y: (self@.height - 1) as isize },
            }),
    {
        Rectangle::new_isize(0, 0, self.width - 1, self.height - 1)
    }

    /// The compacted first row; empty for a matrix without rows.
    pub fn first_row_cell_vec(&self) -> (r: Vec<Cell>)
        requires
            matrix_wf(self@),
        ensures
            self@.height == 0 ==> r@.len() == 0,
            self@.height > 0 ==> r@ == compacted_row_of(self@, 0),
    {
        if self.height == 0 {
            Vec::new()
        } else {
            self.compacted_row(0)
        }
    }

    /// Visual equality: if it looks the same, it is the same.
    pub fn looks_same(&self, other: &Matrix) -> (b: bool)
        ensures
            b == matrices_look_same(self@, other@),
    {
        if self.width != other.width || self.height != other.height
            || self.cells.len() != other.cells.len() {
            return false;
        }
        let mut i: usize = 0;
        while i < self.cells.len()
            invariant
                self.cells@.len() == other.cells@.len(),
                i <= self.cells@.len(),
                forall|j: int| 0 <= j < i ==> cells_look_same(#[trigger] self@.cells[j], other@.cells[j]),
            decreases self.cells@.len() - i,
        {
            if !self.cells[i].looks_same(&other.cells[i]) {
                return false;
            }
            i = i + 1;
        }
        true
    }
}


impl Matrix {
    /// Overwrite the cell at an index.
    fn set_index(&mut self, i: usize, c: Cell)
        requires
            i < old(self)@.cells.len(),
        ensures
            final(self)@ == (MatrixView { cells: old(self)@.cells.update(i as int, c), ..old(self)@ }),
    {
        self.cells.set(i, c);
    }

    /// Copy row `src` over row `dst`.
    fn copy_row(&mut self, dst: isize, src: isize)
        requires
            matrix_wf(old(self)@),
            0 <= dst < old(self)@.height,
            0 <= src < old(self)@.height,
        ensures
            final(self)@.width == old(self)@.width,
            final(self)@.height == old(self)@.height,
            matrix_wf(final(self)@),
            forall|x: int, j: int| 0 <= x < old(self)@.width && 0 <= j < old(self)@.height ==> #[trigger] cell_at(final(self)@, x, j) == if j == dst {
                cell_at(old(self)@, x, src as int)
            } else {
                cell_at(old(self)@, x, j)
            },
    {
        let ghost m = self@;
        let w = self.width;
        let mut col: isize = 0;
        while col < w
            invariant
                matrix_wf(m),
                self@.width == m.width,
                self@.height == m.height,
                matrix_wf(self@),
                w == m.width,
                0 <= col <= w,
                0 <= dst < m.height,
                0 <= src < m.height,
                forall|x: int, j: int| 0 <= x < m.width && 0 <= j < m.height ==> #[trigger] cell_at(self@, x, j) == if j == dst && x < col {
                    cell_at(m, x, src as int)
                } else {
                    cell_at(m, x, j)
                },
            decreases w - col,
        {
            let from = self.cell_index(col, src);
            let to = self.cell_index(col, dst);
            let c = self.cells[from as usize];
            proof {
                assert(c == cell_at(self@, col as int, src as int));
                assert(c == cell_at(m, col as int, src as int));
            }
            let ghost before = self@;
            self.set_index(to as usize, c);
            proof {
                assert forall|x: int, j: int| 0 <= x < m.width && 0 <= j < m.height implies #[trigger] cell_at(self@, x, j) == if j == dst && x < col + 1 {
                    cell_at(m, x, src as int)
                } else {
                    cell_at(m, x, j)
                } by {
                    lemma_index_bounds(x, j, m.width, m.height);
                    if cell_index(m.width, x, j) == to {
                        lemma_index_injective(x, j, col as int, dst as int, m.width);
                    } else {
                        assert(cell_at(self@, x, j) == cell_at(before, x, j));
                    }
                }
            }
            col = col + 1;
        }
    }

    /// Overwrite the cells of row `row` from column `from` up to, not including, `to`.
    fn fill_row(&mut self, row: isize, from: isize, to: isize, c: Cell)
        requires
            matrix_wf(old(self)@),
            0 <= row < old(self)@.height,
            0 <= from,
            to <= old(self)@.width,
        ensures
            final(self)@.width == old(self)@.width,
            final(self)@.height == old(self)@.height,
            matrix_wf(final(self)@),
            forall|x: int, j: int| 0 <= x < old(self)@.width && 0 <= j < old(self)@.height ==> #[trigger] cell_at(final(self)@, x, j) == if j == row && from <= x < to {
                c
            } else {
                cell_at(old(self)@, x, j)
            },
    {
        let ghost m = self@;
        let mut col: isize = from;
        while col < to
            invariant
                matrix_wf(m),
                self@.width == m.width,
                self@.height == m.height,
                matrix_wf(self@),
                0 <= row < m.height,
                0 <= from,
                to <= m.width,
                from <= col,
                col <= to || col == from,
                forall|x: int, j: int| 0 <= x < m.width && 0 <= j < m.height ==> #[trigger] cell_at(self@, x, j) == if j == row && from <= x < col {
                    c
                } else {
                    cell_at(m, x, j)
                },
            decreases to - col,
        {
            let to_i = self.cell_index(col, row);
            let ghost before = self@;
            self.set_index(to_i as usize, c);
            proof {
                assert forall|x: int, j: int| 0 <= x < m.width && 0 <= j < m.height implies #[trigger] cell_at(self@, x, j) == if j == row && from <= x < col + 1 {
                    c
                } else {
                    cell_at(m, x, j)
                } by {
                    lemma_index_bounds(x, j, m.width, m.height);
                    if cell_index(m.width, x, j) == to_i {
                        lemma_index_injective(x, j, col as int, row as int, m.width);
                    } else {
                        assert(cell_at(self@, x, j) == cell_at(before, x, j));
                    }
                }
            }
            col = col + 1;
        }
    }
}


impl Matrix {
    /// Move the cells of row `row` from column `from` on one column to the right; the last
    /// cell of the row drops out, and `fill` takes column `from`.
    fn shift_right_in_row(&mut self, row: isize, from: isize, fill: Cell)
        requires
            matrix_wf(old(self)@),
            0 <= row < old(self)@.height,
            0 <= from < old(self)@.width,
        ensures
            final(self)@.width == old(self)@.width,
            final(self)@.height == old(self)@.height,
            matrix_wf(final(self)@),
            forall|x: int, j: int| 0 <= x < old(self)@.width && 0 <= j < old(self)@.height ==> #[trigger] cell_at(final(self)@, x, j) == if j == row && x == from {
                fill
            } else if j == row && x > from {
                cell_at(old(self)@, x - 1, j)
            } else {
                cell_at(old(self)@, x, j)
            },
    {
        let ghost m = self@;
        let mut k: isize = self.width - 1;
        while k > from
            invariant
                matrix_wf(m),
                self@.width == m.width,
                self@.height == m.height,
                matrix_wf(self@),
                0 <= row < m.height,
                0 <= from <= k < m.width,
                forall|x: int, j: int| 0 <= x < m.width && 0 <= j < m.height ==> #[trigger] cell_at(self@, x, j) == if j == row && x > k {
                    cell_at(m, x - 1, j)
                } else {
                    cell_at(m, x, j)
                },
            decreases k - from,
        {
            let src = self.cell_index(k - 1, row);
            let dst = self.cell_index(k, row);
            let c = self.cells[src as usize];
            proof {
                assert(c == cell_at(self@, k - 1, row as int));
            }
            let ghost before = self@;
            self.set_index(dst as usize, c);
            proof {
                assert forall|x: int, j: int| 0 <= x < m.width && 0 <= j < m.height implies #[trigger] cell_at(self@, x, j) == if j == row && x > k - 1 {
                    cell_at(m, x - 1, j)
                } else {
                    cell_at(m, x, j)
                } by {
                    lemma_index_bounds(x, j, m.width, m.height);
                    if cell_index(m.width, x, j) == dst {
                        lemma_index_injective(x, j, k as int, row as int, m.width);
                    } else {
                        assert(cell_at(self@, x, j) == cell_at(before, x, j));
                    }
                }
            }
            k = k - 1;
        }
        let dst = self.cell_index(from, row);
        let ghost before = self@;
        self.set_index(dst as usize, fill);
        proof {
            assert forall|x: int, j: int| 0 <= x < m.width && 0 <= j < m.height implies #[trigger] cell_at(self@, x, j) == if j == row && x == from {
                fill
            } else if j == row && x > from {
                cell_at(m, x - 1, j)
            } else {
                cell_at(m, x, j)
            } by {
                lemma_index_bounds(x, j, m.width, m.height);
                if cell_index(m.width, x, j) == dst {
                    lemma_index_injective(x, j, from as int, row as int, m.width);
                } else {
                    assert(cell_at(self@, x, j) == cell_at(before, x, j));
                }
            }
        }
    }

    /// Move the cells of row `row` right of column `from` one column to the left; the cell at
    /// `from` drops out, and `fill` takes the last column.
    fn shift_left_in_row(&mut self, row: isize, from: isize, fill: Cell)
        requires
            matrix_wf(old(self)@),
            0 <= row < old(self)@.height,
            0 <= from < old(self)@.width,
        ensures
            final(self)@.width == old(self)@.width,
            final(self)@.height == old(self)@.height,
            matrix_wf(final(self)@),
            forall|x: int, j: int| 0 <= x < old(self)@.width && 0 <= j < old(self)@.height ==> #[trigger] cell_at(final(self)@, x, j) == if j == row && x == old(self)@.width - 1 {
                fill
            } else if j == row && from <= x {
                cell_at(old(self)@, x + 1, j)
            } else {
                cell_at(old(self)@, x, j)
            },
    {
        let ghost m = self@;
        let w = self.width;
        let mut k: isize = from;
        while k < w - 1
            invariant
                matrix_wf(m),
                self@.width == m.width,
                self@.height == m.height,
                matrix_wf(self@),
                w == m.width,
                0 <= row < m.height,
                0 <= from <= k <= m.width - 1,
                forall|x: int, j: int| 0 <= x < m.width && 0 <= j < m.height ==> #[trigger] cell_at(self@, x, j) == if j == row && from <= x < k {
                    cell_at(m, x + 1, j)
                } else {
                    cell_at(m, x, j)
                },
            decreases w - 1 - k,
        {
            let src = self.cell_index(k + 1, row);
            let dst = self.cell_index(k, row);
            let c = self.cells[src as usize];
            proof {
                assert(c == cell_at(self@, k + 1, row as int));
            }
            let ghost before = self@;
            self.set_index(dst as usize, c);
            proof {
                assert forall|x: int, j: int| 0 <= x < m.width && 0 <= j < m.height implies #[trigger] cell_at(self@, x, j) == if j == row && from <= x < k + 1 {
                    cell_at(m, x + 1, j)
                } else {
                    cell_at(m, x, j)
                } by {
                    lemma_index_bounds(x, j, m.width, m.height);
                    if cell_index(m.width, x, j) == dst {
                        lemma_index_injective(x, j, k as int, row as int, m.width);
                    } else {
                        assert(cell_at(self@, x, j) == cell_at(before, x, j));
                    }
                }
            }
            k = k + 1;
        }
        let dst = self.cell_index(w - 1, row);
        let ghost before = self@;
        self.set_index(dst as usize, fill);
        proof {
            assert forall|x: int, j: int| 0 <= x < m.width && 0 <= j < m.height implies #[trigger] cell_at(self@, x, j) == if j == row && x == m.width - 1 {
                fill
            } else if j == row && from <= x {
                cell_at(m, x + 1, j)
            } else {
                cell_at(m, x, j)
            } by {
                lemma_index_bounds(x, j, m.width, m.height);
                if cell_index(m.width, x, j) == dst {
                    lemma_index_injective(x, j, m.width - 1, row as int, m.width);
                } else {
                    assert(cell_at(self@, x, j) == cell_at(before, x, j));
                }
            }
        }
    }

    /// Add a row of `fill` cells at the bottom.
    fn append_row(&mut self, fill: Cell)
        requires
            matrix_wf(old(self)@),
            old(self)@.width * (old(self)@.height + 1) <= isize::MAX,
            old(self)@.height < isize::MAX,
        ensures
            final(self)@.width == old(self)@.width,
            final(self)@.height == old(self)@.height + 1,
            matrix_wf(final(self)@),
            forall|x: int, j: int| 0 <= x < old(self)@.width && 0 <= j < old(self)@.height + 1 ==> #[trigger] cell_at(final(self)@, x, j) == if j < old(self)@.height {
                cell_at(old(self)@, x, j)
            } else {
                fill
            },
    {
        let ghost m = self@;
        let w = self.width;
        let mut k: isize = 0;
        proof {
            assert(m.width * (m.height + 1) == m.width * m.height + m.width) by (nonlinear_arith);
        }
        while k < w
            invariant
                matrix_wf(m),
                self.width == m.width,
                self.height == m.height,
                w == m.width,
                0 <= k <= w,
                m.width * (m.height + 1) == m.width * m.height + m.width,
                m.width * (m.height + 1) <= isize::MAX,
                m.height < isize::MAX,
                self.cells@.len() == m.cells.len() + k,
                forall|i: int| 0 <= i < m.cells.len() ==> #[trigger] self.cells@[i] == m.cells[i],
                forall|i: int| m.cells.len() <= i < self.cells@.len() ==> #[trigger] self.cells@[i] == fill,
            decreases w - k,
        {
            self.cells.push(fill);
            k = k + 1;
        }
        self.height = self.height + 1;
        proof {
            assert forall|x: int, j: int| 0 <= x < m.width && 0 <= j < m.height + 1 implies #[trigger] cell_at(self@, x, j) == if j < m.height {
                cell_at(m, x, j)
            } else {
                fill
            } by {
                lemma_index_bounds(x, j, m.width, m.height + 1);
                if j < m.height {
                    lemma_index_bounds(x, j, m.width, m.height);
                } else {
                    assert(j * m.width == m.height * m.width);
                    assert(m.height * m.width == m.width * m.height) by (nonlinear_arith);
                }
            }
        }
    }

    /// Remove the bottom row.
    fn drop_last_row(&mut self)
        requires
            matrix_wf(old(self)@),
            old(self)@.height >= 1,
        ensures
            final(self)@.width == old(self)@.width,
            final(self)@.height == old(self)@.height - 1,
            matrix_wf(final(self)@),
            forall|x: int, j: int| 0 <= x < old(self)@.width && 0 <= j < old(self)@.height - 1 ==> #[trigger] cell_at(final(self)@, x, j) == cell_at(old(self)@, x, j),
    {
        let ghost m = self@;
        let h1 = self.height - 1;
        proof {
            assert(m.width * h1 <= m.width * m.height) by (nonlinear_arith)
                requires
                    0 <= m.width,
                    h1 < m.height,
            ;
            assert(0 <= m.width * h1) by (nonlinear_arith)
                requires
                    0 <= m.width,
                    0 <= h1,
            ;
        }
        let n = (self.width * h1) as usize;
        self.cells.truncate(n);
        self.height = h1;
        proof {
            assert forall|x: int, j: int| 0 <= x < m.width && 0 <= j < m.height - 1 implies #[trigger] cell_at(self@, x, j) == cell_at(m, x, j) by {
                lemma_index_bounds(x, j, m.width, m.height - 1);
            }
        }
    }
}


impl Matrix {
    /// Overwrite cell (x, y).
    fn put_cell(&mut self, x: isize, y: isize, c: Cell)
        requires
            matrix_wf(old(self)@),
            0 <= x < old(self)@.width,
            0 <= y < old(self)@.height,
        ensures
            final(self)@.width == old(self)@.width,
            final(self)@.height == old(self)@.height,
            matrix_wf(final(self)@),
            forall|i: int, j: int| 0 <= i < old(self)@.width && 0 <= j < old(self)@.height ==> #[trigger] cell_at(final(self)@, i, j) == if i == x && j == y {
                c
            } else {
                cell_at(old(self)@, i, j)
            },
    {
        let ghost m = self@;
        let k = self.cell_index(x, y);
        self.set_index(k as usize, c);
        proof {
            assert forall|i: int, j: int| 0 <= i < m.width && 0 <= j < m.height implies #[trigger] cell_at(self@, i, j) == if i == x && j == y {
                c
            } else {
                cell_at(m, i, j)
            } by {
                lemma_index_bounds(i, j, m.width, m.height);
                if cell_index(m.width, i, j) == k {
                    lemma_index_injective(i, j, x as int, y as int, m.width);
                }
            }
        }
    }
}

/// Matrices of one size that agree on every cell are equal.
pub proof fn lemma_matrix_ext(a: MatrixView, b: MatrixView)
    requires
        matrix_wf(a),
        matrix_wf(b),
        a.width == b.width,
        a.height == b.height,
        forall|x: int, y: int| 0 <= x < a.width && 0 <= y < a.height ==> #[trigger] cell_at(a, x, y) == cell_at(b, x, y),
    ensures
        a == b,
{
    assert forall|i: int| 0 <= i < a.cells.len() implies a.cells[i] == b.cells[i] by {
        if a.width == 0 {
            assert(a.width * a.height == 0) by (nonlinear_arith)
                requires
                    a.width == 0,
            ;
        }
        lemma_decompose(i, a.width, a.height);
        assert(cell_at(a, i % a.width, i / a.width) == cell_at(b, i % a.width, i / a.width));
    }
    assert(a.cells =~= b.cells);
}

/// A matrix that agrees with `f` on every cell is `matrix_from` of `f`.
/// Cell (x, j) after the cells of rows `st..=en` from column `at` on move left by `n`; the
/// last `n` columns of those rows are fresh.
pub open spec fn left_cell(m: MatrixView, st: int, en: int, at: int, n: int, fill: Cell, x: int, j: int) -> Cell {
    if st <= j <= en && at <= x < m.width - n {
        cell_at(m, x + n, j)
    } else if st <= j <= en && m.width - n <= x < m.width {
        fill
    } else {
        cell_at(m, x, j)
    }
}

/// Cell (x, j) after the cells of rows `st..=en` from column `at` on move right by `n`; the
/// `n` columns from `at` on are fresh.
pub open spec fn right_cell(m: MatrixView, st: int, en: int, at: int, n: int, fill: Cell, x: int, j: int) -> Cell {
    if st <= j <= en && at + n <= x < m.width {
        cell_at(m, x - n, j)
    } else if st <= j <= en && at <= x < at + n {
        fill
    } else {
        cell_at(m, x, j)
    }
}

impl Matrix {
    /// Move the cells of row `row` from column `col + n` on `n` columns to the left, and fill
    /// the last `n` columns with `fill`.
    fn shift_cells_left(&mut self, row: isize, col: isize, n: isize, fill: Cell)
        requires
            matrix_wf(old(self)@),
            0 <= row < old(self)@.height,
            0 <= col,
            0 <= n,
            col + n <= old(self)@.width,
        ensures
            final(self)@.width == old(self)@.width,
            final(self)@.height == old(self)@.height,
            matrix_wf(final(self)@),
            forall|x: int, j: int| 0 <= x < old(self)@.width && 0 <= j < old(self)@.height ==> #[trigger] cell_at(final(self)@, x, j)
                == left_cell(old(self)@, row as int, row as int, col as int, n as int, fill, x, j),
    {
        let ghost m = self@;
        let w = self.width;
        let mut x = col;
        while x < w - n
            invariant
                matrix_wf(m),
                matrix_wf(self@),
                self@.width == m.width,
                self@.height == m.height,
                w == m.width,
                0 <= row < m.height,
                0 <= col <= x,
                0 <= n,
                col + n <= w,
                x <= w - n,
                forall|i: int, j: int| 0 <= i < m.width && 0 <= j < m.height ==> #[trigger] cell_at(self@, i, j) == if j == row && col <= i < x {
                    cell_at(m, i + n, j)
                } else {
                    cell_at(m, i, j)
                },
            decreases w - n - x,
        {
            let c = self.cell_at(x + n, row);
            self.put_cell(x, row, c);
            x = x + 1;
        }
        let mut y = w - n;
        while y < w
            invariant
                matrix_wf(m),
                matrix_wf(self@),
                self@.width == m.width,
                self@.height == m.height,
                w == m.width,
                0 <= row < m.height,
                0 <= col,
                0 <= n,
                col + n <= w,
                w - n <= y <= w,
                forall|i: int, j: int| 0 <= i < m.width && 0 <= j < m.height ==> #[trigger] cell_at(self@, i, j) == if j == row && w - n <= i < y {
                    fill
                } else if j == row && col <= i < w - n {
                    cell_at(m, i + n, j)
                } else {
                    cell_at(m, i, j)
                },
            decreases w - y,
        {
            self.put_cell(y, row, fill);
            y = y + 1;
        }
    }

    /// Move the cells of row `row` from column `col` on `n` columns to the right (the last `n`
    /// drop out), and fill the `n` columns from `col` on with `fill`.
    fn shift_cells_right(&mut self, row: isize, col: isize, n: isize, fill: Cell)
        requires
            matrix_wf(old(self)@),
            0 <= row < old(self)@.height,
            0 <= col,
            0 <= n,
            col + n <= old(self)@.width,
        ensures
            final(self)@.width == old(self)@.width,
            final(self)@.height == old(self)@.height,
            matrix_wf(final(self)@),
            forall|x: int, j: int| 0 <= x < old(self)@.width && 0 <= j < old(self)@.height ==> #[trigger] cell_at(final(self)@, x, j)
                == right_cell(old(self)@, row as int, row as int, col as int, n as int, fill, x, j),
    {
        let ghost m = self@;
        let w = self.width;
        let mut x = w;
        while x > col + n
            invariant
                matrix_wf(m),
                matrix_wf(self@),
                self@.width == m.width,
                self@.height == m.height,
                w == m.width,
                0 <= row < m.height,
                0 <= col,
                0 <= n,
                col + n <= x <= w,
                forall|i: int, j: int| 0 <= i < m.width && 0 <= j < m.height ==> #[trigger] cell_at(self@, i, j) == if j == row && x <= i < w {
                    cell_at(m, i - n, j)
                } else {
                    cell_at(m, i, j)
                },
            decreases x,
        {
            x = x - 1;
            let c = self.cell_at(x - n, row);
            self.put_cell(x, row, c);
        }
        let mut y = col;
        while y < col + n
            invariant
                matrix_wf(m),
                matrix_wf(self@),
                self@.width == m.width,
                self@.height == m.height,
                w == m.width,
                0 <= row < m.height,
                0 <= col <= y <= col + n,
                0 <= n,
                col + n <= w,
                forall|i: int, j: int| 0 <= i < m.width && 0 <= j < m.height ==> #[trigger] cell_at(self@, i, j) == if j == row && col <= i < y {
                    fill
                } else if j == row && col + n <= i < w {
                    cell_at(m, i - n, j)
                } else {
                    cell_at(m, i, j)
                },
            decreases col + n - y,
        {
            self.put_cell(y, row, fill);
            y = y + 1;
        }
    }
}

pub proof fn lemma_matrix_is_from(a: MatrixView, f: spec_fn(int, int) -> Cell)
    requires
        matrix_wf(a),
        forall|x: int, y: int| 0 <= x < a.width && 0 <= y < a.height ==> #[trigger] cell_at(a, x, y) == f(x, y),
    ensures
        a == matrix_from(a.width, a.height, f),
{
    assert forall|x: int, y: int| 0 <= x < a.width && 0 <= y < a.height implies #[trigger] a.cells[cell_index(a.width, x, y)] == f(x, y) by {
        assert(cell_at(a, x, y) == f(x, y));
    }
    lemma_cells_match(a.cells, a.width, a.height, f);
}

/// A length past a drawn cell, with only undrawn cells after it, is the compacted length.
pub proof fn lemma_compacted_exact(row: Seq<Cell>, n: int)
    requires
        0 <= n <= row.len(),
        n > 0 ==> is_drawn(row[n - 1]),
        forall|i: int| n <= i < row.len() ==> !is_drawn(#[trigger] row[i]),
    ensures
        compacted_len(row) == n,
    decreases row.len(),
{
    if row.len() > 0 && n < row.len() {
        assert(!is_drawn(row[row.len() - 1]));
        let d = row.drop_last();
        assert forall|i: int| n <= i < d.len() implies !is_drawn(#[trigger] d[i]) by {
            assert(d[i] == row[i]);
        }
        if n > 0 {
            assert(d[n - 1] == row[n - 1]);
        }
        lemma_compacted_exact(d, n);
    }
}


/// The matrix of size `w` by `h` whose cell (x, y) is `f(x, y)`.
pub open spec fn matrix_from(w: int, h: int, f: spec_fn(int, int) -> Cell) -> MatrixView {
    MatrixView { width: w, height: h, cells: Seq::new((w * h) as nat, |i: int| f(i % w, i / w)) }
}

/// An index into a matrix of width `w` splits into a column and a row.
proof fn lemma_decompose(i: int, w: int, h: int)
    requires
        0 < w,
        0 <= i < w * h,
    ensures
        0 <= i % w < w,
        0 <= i / w < h,
        i == cell_index(w, i % w, i / w),
{
    lemma_fundamental_div_mod(i, w);
    lemma_mod_bound(i, w);
    let q = i / w;
    let r = i % w;
    assert(0 <= q < h) by (nonlinear_arith)
        requires
            0 < w,
            0 <= i < w * h,
            i == w * q + r,
            0 <= r < w,
    ;
    assert(w * q == q * w) by (nonlinear_arith);
}

/// The cells of `matrix_from` are the values of `f`.
pub proof fn lemma_matrix_from_cell(w: int, h: int, f: spec_fn(int, int) -> Cell, x: int, y: int)
    requires
        0 <= x < w,
        0 <= y < h,
    ensures
        cell_at(matrix_from(w, h, f), x, y) == f(x, y),
        matrix_from(w, h, f).cells.len() == w * h,
{
    lemma_index_bounds(x, y, w, h);
    lemma_fundamental_div_mod_converse(x + y * w, w, y, x);
}

/// Cells that agree with `f` at every position are the cells of `matrix_from`.
pub proof fn lemma_cells_match(cells: Seq<Cell>, w: int, h: int, f: spec_fn(int, int) -> Cell)
    requires
        0 <= w,
        0 <= h,
        cells.len() == w * h,
        forall|x: int, y: int| 0 <= x < w && 0 <= y < h ==> #[trigger] cells[cell_index(w, x, y)] == f(x, y),
    ensures
        cells == matrix_from(w, h, f).cells,
{
    let m = matrix_from(w, h, f);
    assert forall|i: int| 0 <= i < cells.len() implies cells[i] == m.cells[i] by {
        if w == 0 {
            assert(w * h == 0) by (nonlinear_arith)
                requires
                    w == 0,
            ;
        }
        lemma_decompose(i, w, h);
        let x = i % w;
        let y = i / w;
        assert(cells[cell_index(w, x, y)] == f(x, y));
    }
    assert(cells =~= m.cells);
}


/// Events that happen while bytes are added.
#[derive(Clone, Copy, Debug, PartialEq, Eq, Structural)]
pub enum Event {
    /// Nothing to do.
    Ignore,
    /// Newline was seen.
    NewLine,
    /// Carriage-return was seen.
    Cr,
    /// Ring the bell (or make the screen flash)
    Bell,
    /// Start TUI mode
    StartTui,
}

/// Cursor position; it may lie outside the matrix.
#[derive(Clone, Copy, Debug)]
struct Cursor {
    x: isize,
    y: isize,
}

/// A screen as a value.
pub struct ScreenView {
    pub matrix: MatrixView,
    pub cursor: (int, int),
    pub saved_cursor: (int, int),
    pub attributes: u16,
    pub colors: Colors,
    pub fixed_size: bool,
    pub last_char: char,
    pub scroll_region: Option<(int, int)>,
    pub decoder: Utf8State,
    pub escape: EscView,
}

/// Where the reader of control sequences stands: in plain text, after an escape, or inside a
/// control sequence with the parameters so far (a missing one counts as 0), the one being
/// read, whether it is private (`?`), and its intermediate byte (0 for none).
pub struct EscView {
    pub mode: u8,
    pub params: Seq<u32>,
    pub current: Option<u32>,
    pub private: bool,
    pub intermediate: u8,
}

/// Reading plain text.
pub open spec fn ground_escape() -> EscView {
    EscView { mode: 0, params: Seq::empty(), current: None, private: false, intermediate: 0 }
}

/// Right after an escape byte.
pub open spec fn escape_started() -> EscView {
    EscView { mode: 1, params: Seq::empty(), current: None, private: false, intermediate: 0 }
}

/// Right after the introducer of a control sequence.
pub open spec fn csi_started() -> EscView {
    EscView { mode: 2, params: Seq::empty(), current: None, private: false, intermediate: 0 }
}

/// The state of the reader of control sequences.
pub struct EscState {
    mode: u8,
    params: Vec<u32>,
    current: Option<u32>,
    private: bool,
    intermediate: u8,
}

impl View for EscState {
    type V = EscView;

    closed spec fn view(&self) -> EscView {
        EscView {
            mode: self.mode,
            params: self.params@,
            current: self.current,
            private: self.private,
            intermediate: self.intermediate,
        }
    }
}

/// The state of the decoder of UTF-8 input: how many continuation bytes are still expected,
/// and the bits of the code point collected so far.
#[derive(Clone, Copy, Debug, PartialEq, Eq, Structural)]
pub struct Utf8State {
    pub needed: u8,
    pub value: u32,
}

/// A screen is a rectangular area of cells and the position of the cursor.
///
/// The cursor can be outside the allocated screen. If a visible character is inserted there,
/// the screen is reallocated.
pub struct Screen {
    matrix: Matrix,
    cursor: Cursor,
    saved_cursor: Cursor,
    attributes: Attributes,
    colors: Colors,
    decoder: Utf8State,
    fixed_size: bool,
    last_char: char,
    scroll_region: Option<(isize, isize)>,
    escape: EscState,
}

impl View for Screen {
    type V = ScreenView;

    closed spec fn view(&self) -> ScreenView {
        ScreenView {
            matrix: self.matrix@,
            cursor: (self.cursor.x as int, self.cursor.y as int),
            saved_cursor: (self.saved_cursor.x as int, self.saved_cursor.y as int),
            attributes: self.attributes.bits,
            colors: self.colors,
            fixed_size: self.fixed_size,
            last_char: self.last_char,
            scroll_region: match self.scroll_region {
                Some((a, b)) => Some((a as int, b as int)),
                None => None,
            },
            decoder: self.decoder,
            escape: self.escape@,
        }
    }
}

/// The colors of a new screen.
pub open spec fn initial_colors() -> Colors {
    Colors { foreground: 1, background: 0 }
}

/// A well-formed screen: a well-formed matrix, at least one cell when the size is fixed.
pub open spec fn screen_wf(s: ScreenView) -> bool {
    &&& matrix_wf(s.matrix)
    &&& s.fixed_size ==> s.matrix.width >= 1 && s.matrix.height >= 1
}

/// (x, y) lies inside the matrix.
pub open spec fn inside(m: MatrixView, x: int, y: int) -> bool {
    0 <= x < m.width && 0 <= y < m.height
}

/// How much a dimension of size `size` grows in front to include position `p`.
pub open spec fn span_before(size: int, p: int) -> int {
    if p < 0 {
        -p
    } else {
        0
    }
}

/// The size of a dimension of size `size` grown to include position `p`.
pub open spec fn span_size(size: int, p: int) -> int {
    if p < 0 {
        size - p
    } else if p >= size {
        p + 1
    } else {
        size
    }
}

/// The matrix grown to include (x, y): old cells keep their place relative to each other,
/// new cells are `fill`.
pub open spec fn grown(m: MatrixView, x: int, y: int, fill: Cell) -> MatrixView {
    if inside(m, x, y) {
        m
    } else {
        let l = span_before(m.width, x);
        let t = span_before(m.height, y);
        matrix_from(span_size(m.width, x), span_size(m.height, y), |i: int, j: int| grow_cell(m, l, t, fill, i, j))
    }
}

/// Cell (i, j) of matrix `m` moved by (l, t), or `fill` where no old cell lands.
pub open spec fn grow_cell(m: MatrixView, l: int, t: int, fill: Cell, i: int, j: int) -> Cell {
    if inside(m, i - l, j - t) {
        cell_at(m, i - l, j - t)
    } else {
        fill
    }
}

/// The shift of old positions when the matrix grows to include (x, y).
pub open spec fn grow_shift(m: MatrixView, x: int, y: int) -> (int, int) {
    if inside(m, x, y) {
        (0, 0)
    } else {
        (span_before(m.width, x), span_before(m.height, y))
    }
}

/// Growing to include (x, y) fits the limits of an index.
pub open spec fn room_fits(m: MatrixView, x: int, y: int) -> bool {
    span_size(m.width, x) * span_size(m.height, y) <= isize::MAX
}

/// The screen after making room for (x, y).
pub open spec fn sv_make_room_for(s: ScreenView, x: int, y: int) -> ScreenView {
    ScreenView { matrix: grown(s.matrix, x, y, blank_cell(s.colors)), ..s }
}

/// `v` clamped into `0..n`.
pub open spec fn clamp_to(v: int, n: int) -> int {
    if v > n - 1 {
        n - 1
    } else if v < 0 {
        0
    } else {
        v
    }
}

/// The screen after making room for the cursor: a fixed-size screen moves the cursor inside,
/// another screen grows around it.
pub open spec fn sv_make_room(s: ScreenView) -> ScreenView {
    if s.fixed_size {
        ScreenView {
            cursor: (clamp_to(s.cursor.0, s.matrix.width), clamp_to(s.cursor.1, s.matrix.height)),
            ..s
        }
    } else {
        let (dx, dy) = grow_shift(s.matrix, s.cursor.0, s.cursor.1);
        ScreenView { cursor: (s.cursor.0 + dx, s.cursor.1 + dy), ..sv_make_room_for(s, s.cursor.0, s.cursor.1) }
    }
}

/// Room for the cursor fits the limits of an index.
pub open spec fn cursor_room_fits(s: ScreenView) -> bool {
    s.fixed_size || room_fits(s.matrix, s.cursor.0, s.cursor.1)
}

/// The screen with the cursor moved to (x, y), clamped to a fixed-size screen.
pub open spec fn sv_move_cursor_to(s: ScreenView, x: int, y: int) -> ScreenView {
    if s.fixed_size {
        ScreenView { cursor: (clamp_to(x, s.matrix.width), clamp_to(y, s.matrix.height)), ..s }
    } else {
        ScreenView { cursor: (x, y), ..s }
    }
}

proof fn lemma_span(size: int, p: int)
    requires
        0 <= size,
    ensures
        span_size(size, p) >= size,
        span_size(size, p) >= 1 || (size == 0 && span_size(size, p) == 0) || span_size(size, p) >= 1,
        0 <= p + span_before(size, p) < span_size(size, p),
        span_before(size, p) >= 0,
        span_before(size, p) + size <= span_size(size, p),
{
}

/// Both factors of a bounded product of positive numbers are bounded.
proof fn lemma_factor_bound(a: int, b: int)
    requires
        a >= 1,
        b >= 1,
        a * b <= isize::MAX,
    ensures
        a <= isize::MAX,
        b <= isize::MAX,
{
    assert(a <= a * b && b <= a * b) by (nonlinear_arith)
        requires
            a >= 1,
            b >= 1,
    ;
}

proof fn lemma_grown(m: MatrixView, x: int, y: int, fill: Cell)
    requires
        matrix_wf(m),
        room_fits(m, x, y),
    ensures
        matrix_wf(grown(m, x, y, fill)),
        inside(grown(m, x, y, fill), x + grow_shift(m, x, y).0, y + grow_shift(m, x, y).1),
        grown(m, x, y, fill).width >= m.width,
        grown(m, x, y, fill).height >= m.height,
{
    lemma_span(m.width, x);
    lemma_span(m.height, y);
    if !inside(m, x, y) {
        let g = grown(m, x, y, fill);
        assert(g.cells.len() == span_size(m.width, x) * span_size(m.height, y));
    }
}


/// The matrix with cell (x, y) replaced.
pub open spec fn set_cell(m: MatrixView, x: int, y: int, c: Cell) -> MatrixView {
    MatrixView { cells: m.cells.update(cell_index(m.width, x, y), c), ..m }
}

/// The screen after making sure that the cursor row exists, without widening the matrix.
pub open spec fn sv_make_vertical_room(s: ScreenView) -> ScreenView {
    if s.fixed_size {
        s
    } else if s.matrix.width == 0 {
        if s.cursor.1 < 0 || s.cursor.1 >= s.matrix.height {
            ScreenView {
                matrix: MatrixView { height: span_size(s.matrix.height, s.cursor.1), ..s.matrix },
                ..s
            }
        } else {
            s
        }
    } else {
        sv_make_room_for(s, s.matrix.width - 1, s.cursor.1)
    }
}

/// Room for the cursor row fits the limits of an index.
pub open spec fn vertical_room_fits(s: ScreenView) -> bool {
    ||| s.fixed_size
    ||| s.matrix.width == 0 && span_size(s.matrix.height, s.cursor.1) <= isize::MAX
    ||| s.matrix.width > 0 && room_fits(s.matrix, s.matrix.width - 1, s.cursor.1)
}

/// First and last row of the region to scroll, and whether scrolling is limited to it.
pub open spec fn scroll_region_of(s: ScreenView) -> (int, int, bool) {
    let h = s.matrix.height;
    match s.scroll_region {
        None => (0, h - 1, s.fixed_size),
        Some((a, b)) => if 0 <= a < h && 0 <= b < h && a < b {
            (a, b, true)
        } else {
            (0, h - 1, true)
        },
    }
}

/// The number of rows that a scroll by `n` inside rows `st..=en` moves.
pub open spec fn scroll_amount(st: int, en: int, n: int) -> int {
    if n < en + 1 - st {
        n
    } else {
        en + 1 - st
    }
}

/// Cell (x, j) after rows `at..=en` scroll up by `k`: the bottom `k` rows of the region are
/// fresh.
pub open spec fn scroll_up_cell(m: MatrixView, en: int, at: int, k: int, fill: Cell, x: int, j: int) -> Cell {
    if en + 1 - k <= j <= en {
        fill
    } else if at <= j <= en - k {
        cell_at(m, x, j + k)
    } else {
        cell_at(m, x, j)
    }
}

/// The matrix after scrolling the rows from `at` to `en` up by `n` (limited to the region).
pub open spec fn scrolled_up(m: MatrixView, st: int, en: int, at: int, n: int, fill: Cell) -> MatrixView {
    let k = scroll_amount(st, en, n);
    if k >= 1 {
        matrix_from(m.width, m.height, |x: int, j: int| scroll_up_cell(m, en, at, k, fill, x, j))
    } else {
        m
    }
}

/// The screen after scrolling up by `n` rows from row `at` on.
pub open spec fn sv_scroll_up(s: ScreenView, at: int, n: int) -> ScreenView {
    let (st, en, _lim) = scroll_region_of(s);
    ScreenView { matrix: scrolled_up(s.matrix, st, en, at, n, blank_cell(s.colors)), ..s }
}

/// The screen after the cursor moves down `n` rows, scrolling up where it leaves the
/// scroll region.
pub open spec fn sv_move_down_and_scroll(s: ScreenView, n: int) -> ScreenView {
    let y = s.cursor.1;
    let h = s.matrix.height;
    let outside = match s.scroll_region {
        Some((a, b)) => y < a || y > b,
        None => false,
    };
    if outside {
        ScreenView { cursor: (s.cursor.0, if y + n < h { y + n } else { h }), ..s }
    } else {
        let y1 = y + n;
        let (st, en, lim) = scroll_region_of(s);
        if lim && y1 > en {
            let k = y1 - en;
            ScreenView { cursor: (s.cursor.0, y1 - k), ..sv_scroll_up(s, st, k) }
        } else {
            ScreenView { cursor: (s.cursor.0, y1), ..s }
        }
    }
}

/// The screen after a new line: the cursor row exists, and the cursor goes to the start of
/// the next row.
pub open spec fn sv_new_line(s: ScreenView) -> ScreenView {
    let s1 = sv_make_vertical_room(s);
    sv_move_down_and_scroll(ScreenView { cursor: (0, s1.cursor.1), ..s1 }, 1)
}

/// The cell that placing `c` draws.
pub open spec fn drawn_cell(s: ScreenView, c: char) -> Cell {
    Cell { code_point: c, attributes: Attributes { bits: s.attributes | CHARDRAWN }, colors: s.colors }
}

/// The screen after placing `c` at the cursor and advancing the cursor; a fixed-size screen
/// wraps to the next line at the right edge.
pub open spec fn sv_place_char(s: ScreenView, c: char) -> ScreenView {
    let s1 = sv_make_room(s);
    let s2 = ScreenView {
        matrix: set_cell(s1.matrix, s1.cursor.0, s1.cursor.1, drawn_cell(s, c)),
        cursor: (s1.cursor.0 + 1, s1.cursor.1),
        ..s1
    };
    if s2.fixed_size && s2.cursor.0 == s2.matrix.width {
        sv_new_line(s2)
    } else {
        s2
    }
}

/// On a screen that is not of fixed size, placing a character where the cursor is outside the
/// matrix first grows the matrix around the cursor: afterwards the character stands at the
/// cursor's place in the grown matrix, the cursor is right of it, and every old cell keeps its
/// place relative to the others.
pub proof fn law_place_char_grows_screen(s: ScreenView, c: char)
    requires
        screen_wf(s),
        !s.fixed_size,
        cursor_room_fits(s),
    ensures
        ({
            let (dx, dy) = grow_shift(s.matrix, s.cursor.0, s.cursor.1);
            let p = sv_place_char(s, c);
            &&& inside(p.matrix, s.cursor.0 + dx, s.cursor.1 + dy)
            &&& cell_at(p.matrix, s.cursor.0 + dx, s.cursor.1 + dy) == drawn_cell(s, c)
            &&& p.cursor == (s.cursor.0 + dx + 1, s.cursor.1 + dy)
            &&& forall|i: int, j: int|
                inside(s.matrix, i, j) && (i, j) != s.cursor ==> #[trigger] cell_at(p.matrix, i + dx, j + dy)
                    == cell_at(s.matrix, i, j)
        }),
{
    let m = s.matrix;
    let (x, y) = s.cursor;
    let (dx, dy) = grow_shift(m, x, y);
    let fill = blank_cell(s.colors);
    lemma_grown(m, x, y, fill);
    let g = grown(m, x, y, fill);
    let s1 = sv_make_room(s);
    assert(s1.matrix == g);
    assert(s1.cursor == (x + dx, y + dy));
    let p = sv_place_char(s, c);
    lemma_index_bounds(x + dx, y + dy, g.width, g.height);
    assert(cell_at(p.matrix, x + dx, y + dy) == drawn_cell(s, c));
    assert forall|i: int, j: int| inside(m, i, j) && (i, j) != s.cursor implies #[trigger] cell_at(p.matrix, i + dx, j + dy)
        == cell_at(m, i, j) by {
        lemma_span(m.width, x);
        lemma_span(m.height, y);
        assert(inside(g, i + dx, j + dy));
        lemma_index_bounds(i + dx, j + dy, g.width, g.height);
        if cell_index(g.width, i + dx, j + dy) == cell_index(g.width, x + dx, y + dy) {
            lemma_index_injective(i + dx, j + dy, x + dx, y + dy, g.width);
        }
        if !inside(m, x, y) {
            let l = span_before(m.width, x);
            let t = span_before(m.height, y);
            lemma_matrix_from_cell(span_size(m.width, x), span_size(m.height, y), |a: int, b: int| grow_cell(m, l, t, fill, a, b), i + dx, j + dy);
        }
    }
}

/// A position fits an `isize` with room for `d` steps either way.
pub open spec fn coord_ok(v: int, d: int) -> bool {
    isize::MIN + d <= v <= isize::MAX - d
}


/// The screen after a blank cell is inserted at the cursor; the rest of the row moves right,
/// and the matrix grows by a column first when the last cell of the row is drawn.
pub open spec fn sv_insert_character(s: ScreenView) -> ScreenView {
    let s1 = sv_make_room(s);
    let x = s1.cursor.0;
    let y = s1.cursor.1;
    let s2 = if is_drawn(cell_at(s1.matrix, s1.matrix.width - 1, y)) {
        sv_make_room_for(s1, s1.matrix.width, y)
    } else {
        s1
    };
    let m = s2.matrix;
    let fill = blank_cell(s.colors);
    ScreenView {
        matrix: matrix_from(
            m.width,
            m.height,
            |i: int, j: int|
                if j == y && i == x {
                    fill
                } else if j == y && i > x {
                    cell_at(m, i - 1, j)
                } else {
                    cell_at(m, i, j)
                },
        ),
        ..s2
    }
}

/// Inserting a character fits the limits of an index.
pub open spec fn insert_char_fits(s: ScreenView) -> bool {
    cursor_room_fits(s) && room_fits(sv_make_room(s).matrix, sv_make_room(s).matrix.width, sv_make_room(s).cursor.1)
}

/// The screen after the character under the cursor is deleted; the rest of the row moves
/// left and a blank cell takes the last column.
pub open spec fn sv_delete_character(s: ScreenView) -> ScreenView {
    let s1 = sv_make_room(s);
    let x = s1.cursor.0;
    let y = s1.cursor.1;
    let m = s1.matrix;
    let fill = blank_cell(s.colors);
    ScreenView {
        matrix: matrix_from(
            m.width,
            m.height,
            |i: int, j: int|
                if j == y && i == m.width - 1 {
                    fill
                } else if j == y && x <= i {
                    cell_at(m, i + 1, j)
                } else {
                    cell_at(m, i, j)
                },
        ),
        ..s1
    }
}

/// Making room for a cursor that is inside the matrix changes nothing.
pub proof fn lemma_make_room_inside(s: ScreenView)
    requires
        inside(s.matrix, s.cursor.0, s.cursor.1),
    ensures
        sv_make_room(s) == s,
{
}

/// With the cursor inside the screen and a blank in the last column of its row, deleting the
/// character under the cursor right after inserting one there gives back the screen.
pub proof fn law_delete_character_undoes_insert(s: ScreenView)
    requires
        screen_wf(s),
        inside(s.matrix, s.cursor.0, s.cursor.1),
        cell_at(s.matrix, s.matrix.width - 1, s.cursor.1) == blank_cell(s.colors),
    ensures
        sv_delete_character(sv_insert_character(s)) == s,
{
    let m = s.matrix;
    let (x, y) = s.cursor;
    lemma_make_room_inside(s);
    assert(!is_drawn(blank_cell(s.colors))) by (bit_vector);
    let ins = sv_insert_character(s);
    let m1 = ins.matrix;
    assert(m1.width == m.width && m1.height == m.height);
    assert(ins.cursor == s.cursor);
    lemma_make_room_inside(ins);
    let del = sv_delete_character(ins);
    let m2 = del.matrix;
    assert forall|i: int, j: int| 0 <= i < m.width && 0 <= j < m.height implies #[trigger] cell_at(m2, i, j)
        == cell_at(m, i, j) by {
        lemma_matrix_from_cell(m1.width, m1.height, |a: int, b: int|
            if b == y && a == m1.width - 1 {
                blank_cell(s.colors)
            } else if b == y && x <= a {
                cell_at(m1, a + 1, b)
            } else {
                cell_at(m1, a, b)
            }, i, j);
        lemma_matrix_from_cell(m.width, m.height, |a: int, b: int|
            if b == y && a == x {
                blank_cell(s.colors)
            } else if b == y && a > x {
                cell_at(m, a - 1, b)
            } else {
                cell_at(m, a, b)
            }, i, j);
        if j == y && x <= i && i < m.width - 1 {
            lemma_matrix_from_cell(m.width, m.height, |a: int, b: int|
                if b == y && a == x {
                    blank_cell(s.colors)
                } else if b == y && a > x {
                    cell_at(m, a - 1, b)
                } else {
                    cell_at(m, a, b)
                }, i + 1, j);
        }
    }
    lemma_matrix_ext(m2, m);
}

/// The matrix with the cells of a rectangle replaced by `c`.
pub open spec fn filled_rect(m: MatrixView, rect: Rectangle, c: Cell) -> MatrixView {
    matrix_from(
        m.width,
        m.height,
        |i: int, j: int|
            if rect.start.y <= j <= rect.end.y && rect.start.x <= i <= rect.end.x {
                c
            } else {
                cell_at(m, i, j)
            },
    )
}

/// The screen after a blank row is inserted below the cursor row.
pub open spec fn sv_insert_row(s: ScreenView) -> ScreenView {
    let s1 = sv_make_room(s);
    let y = s1.cursor.1;
    let m = s1.matrix;
    let fill = blank_cell(s.colors);
    ScreenView {
        matrix: matrix_from(
            m.width,
            m.height + 1,
            |i: int, j: int|
                if j <= y {
                    cell_at(m, i, j)
                } else if j == y + 1 {
                    fill
                } else {
                    cell_at(m, i, j - 1)
                },
        ),
        ..s1
    }
}

/// Inserting a row fits the limits of an index.
pub open spec fn insert_row_fits(s: ScreenView) -> bool {
    &&& cursor_room_fits(s)
    &&& sv_make_room(s).matrix.width * (sv_make_room(s).matrix.height + 1) <= isize::MAX
    &&& sv_make_room(s).matrix.height < isize::MAX
}

/// The screen after row `row` is deleted; the rows below move up.
pub open spec fn sv_delete_row_at(s: ScreenView, row: int) -> ScreenView {
    let s1 = sv_make_room(s);
    let m = s1.matrix;
    ScreenView {
        matrix: matrix_from(
            m.width,
            m.height - 1,
            |i: int, j: int|
                if j < row {
                    cell_at(m, i, j)
                } else {
                    cell_at(m, i, j + 1)
                },
        ),
        ..s1
    }
}

/// The screen after the rest of the cursor row moves to a new row below, and the cursor to
/// the start of that row.
pub open spec fn sv_break_line(s: ScreenView) -> ScreenView {
    let s1 = sv_insert_row(s);
    let x = s1.cursor.0;
    let y = s1.cursor.1;
    let m = s1.matrix;
    let fill = blank_cell(s.colors);
    ScreenView {
        matrix: matrix_from(
            m.width,
            m.height,
            |i: int, j: int|
                if j == y && i >= x {
                    fill
                } else if j == y + 1 && i < m.width - x {
                    cell_at(m, x + i, y)
                } else {
                    cell_at(m, i, j)
                },
        ),
        cursor: (0, y + 1),
        ..s1
    }
}

/// The screen after the drawn part of the next row is appended to the drawn part of row `y`
/// (grown as needed), before that next row is deleted.
pub open spec fn sv_join_copy(s: ScreenView) -> ScreenView {
    let y = s.cursor.1;
    let cur = compacted_len(row_of(s.matrix, y));
    let nxt = compacted_len(row_of(s.matrix, y + 1));
    let s2 = sv_make_room_for(s, cur + nxt, y);
    let m = s2.matrix;
    ScreenView {
        matrix: matrix_from(
            m.width,
            m.height,
            |i: int, j: int|
                if j == y && cur <= i < cur + nxt {
                    cell_at(m, i - cur, y + 1)
                } else {
                    cell_at(m, i, j)
                },
        ),
        ..s2
    }
}

/// Joining the cursor row with the next fits the limits of an index, and the next row is
/// still there to delete after the copy.
pub open spec fn join_fits(s: ScreenView) -> bool {
    let y = s.cursor.1;
    let cur = compacted_len(row_of(s.matrix, y));
    let nxt = compacted_len(row_of(s.matrix, y + 1));
    let s3 = sv_join_copy(s);
    &&& 0 <= y
    &&& room_fits(s.matrix, cur + nxt, y)
    &&& cursor_room_fits(s3)
    &&& y + 1 < sv_make_room(s3).matrix.height
    &&& s3.fixed_size ==> s3.matrix.height >= 2
}

/// The screen after the cursor row is joined with the next row.
pub open spec fn sv_join_next_line(s: ScreenView) -> ScreenView {
    if s.cursor.1 + 1 < s.matrix.height {
        sv_delete_row_at(sv_join_copy(s), s.cursor.1 + 1)
    } else {
        s
    }
}


/// The characters of a list of cells.
pub open spec fn cells_text(cells: Seq<Cell>) -> Seq<char> {
    cells.map_values(|c: Cell| c.code_point)
}

/// The text of the first `n` compacted rows, each followed by a line break.
pub open spec fn rows_text(m: MatrixView, n: int) -> Seq<char>
    decreases n,
{
    if n <= 0 {
        Seq::empty()
    } else {
        rows_text(m, n - 1) + cells_text(compacted_row_of(m, n - 1)) + seq!['\n']
    }
}

/// The text of the first `n` compacted rows, separated by line breaks.
pub open spec fn rows_text_joined(m: MatrixView, n: int) -> Seq<char>
    decreases n,
{
    if n <= 0 {
        Seq::empty()
    } else if n == 1 {
        cells_text(compacted_row_of(m, 0))
    } else {
        rows_text_joined(m, n - 1) + seq!['\n'] + cells_text(compacted_row_of(m, n - 1))
    }
}

/// ASCII white space as `char::is_ascii_whitespace` knows it.
pub open spec fn is_ascii_ws(c: char) -> bool {
    c == ' ' || c == '\t' || c == '\n' || c == '\x0C' || c == '\r'
}

/// The column where the word that ends at column `k` of `row` starts: after the last white
/// space before `k`, or at the start of the row.
pub open spec fn word_start(row: Seq<Cell>, k: int) -> int
    decreases k,
{
    if k <= 0 {
        0
    } else if is_ascii_ws(row[k - 1].code_point) {
        k
    } else {
        word_start(row, k - 1)
    }
}

/// The word start lies between the row start and `k`.
pub proof fn lemma_word_start(row: Seq<Cell>, k: int)
    requires
        0 <= k,
    ensures
        0 <= word_start(row, k) <= k,
    decreases k,
{
    if k > 0 && !is_ascii_ws(row[k - 1].code_point) {
        lemma_word_start(row, k - 1);
    }
}

/// A compacted row is no longer than the matrix is wide.
pub proof fn lemma_compacted_row_len(m: MatrixView, y: int)
    requires
        matrix_wf(m),
        m.width == 0 || 0 <= y < m.height,
    ensures
        compacted_row_of(m, y).len() <= m.width,
{
    if m.width > 0 {
        lemma_index_bounds(0, y, m.width, m.height);
        lemma_compacted_len(row_of(m, y));
    }
}

/// The cell that erasing writes: a blank with the current attributes and colors.
pub open spec fn erase_cell(s: ScreenView) -> Cell {
    Cell { code_point: ' ', attributes: Attributes { bits: s.attributes }, colors: s.colors }
}

/// The screen after the word before the cursor is erased and the cursor moved to its start.
pub open spec fn sv_delete_word_before_cursor(s: ScreenView) -> ScreenView {
    let s1 = sv_make_room(s);
    let x = s1.cursor.0;
    let y = s1.cursor.1;
    let m = s1.matrix;
    let k = word_start(row_of(m, y), x);
    let c = erase_cell(s);
    ScreenView {
        matrix: matrix_from(m.width, m.height, |i: int, j: int| if j == y && k <= i < x { c } else { cell_at(m, i, j) }),
        cursor: (k, y),
        ..s1
    }
}

/// The screen after placing the characters of `cs` one after the other.
pub open spec fn sv_place_str(s: ScreenView, cs: Seq<char>) -> ScreenView
    decreases cs.len(),
{
    if cs.len() == 0 {
        s
    } else {
        sv_place_str(sv_place_char(s, cs[0]), cs.drop_first())
    }
}

/// Placing the characters of `cs` one after the other fits the limits of an index.
pub open spec fn place_str_fits(s: ScreenView, cs: Seq<char>) -> bool
    decreases cs.len(),
{
    if cs.len() == 0 {
        true
    } else {
        cursor_room_fits(s) && place_str_fits(sv_place_char(s, cs[0]), cs.drop_first())
    }
}

/// The screen after each character of `cs` is inserted before the cursor.
pub open spec fn sv_insert_str(s: ScreenView, cs: Seq<char>) -> ScreenView
    decreases cs.len(),
{
    if cs.len() == 0 {
        s
    } else {
        sv_insert_str(sv_place_char(sv_insert_character(s), cs[0]), cs.drop_first())
    }
}

/// Inserting the characters of `cs` fits the limits of an index.
pub open spec fn insert_str_fits(s: ScreenView, cs: Seq<char>) -> bool
    decreases cs.len(),
{
    if cs.len() == 0 {
        true
    } else {
        &&& insert_char_fits(s)
        &&& cursor_room_fits(sv_insert_character(s))
        &&& insert_str_fits(sv_place_char(sv_insert_character(s), cs[0]), cs.drop_first())
    }
}

/// The cursor lies in a row of the matrix.
pub open spec fn inside_rows(s: ScreenView) -> bool {
    0 <= s.cursor.1 < s.matrix.height
}

/// A new, empty screen.
pub open spec fn new_screen_view() -> ScreenView {
    ScreenView {
        matrix: MatrixView { width: 0, height: 0, cells: Seq::empty() },
        cursor: (0, 0),
        saved_cursor: (0, 0),
        attributes: 0,
        colors: initial_colors(),
        fixed_size: false,
        last_char: ' ',
        scroll_region: None,
        decoder: Utf8State { needed: 0, value: 0 },
        escape: ground_escape(),
    }
}

/// A reset screen: empty, cursor at the origin, no attributes, initial colors, not of fixed
/// size.
pub open spec fn sv_reset(s: ScreenView) -> ScreenView {
    ScreenView {
        matrix: MatrixView { width: 0, height: 0, cells: Seq::empty() },
        cursor: (0, 0),
        attributes: 0,
        colors: initial_colors(),
        fixed_size: false,
        decoder: Utf8State { needed: 0, value: 0 },
        ..s
    }
}


/// What a byte of terminal input asks the screen to do.
#[derive(Clone, Copy, Debug, PartialEq, Eq, Structural)]
pub enum Action {
    /// More bytes are needed.
    More,
    /// The bytes are not valid input.
    Error,
    Cr,
    NewLine,
    FormFeed,
    VerticalTab,
    Char(char),
    Bell,
    Backspace,
    Tabulator,
    /// Move the cursor right by `n` columns.
    HorizontalMove(u32),
    /// Put the cursor into row `n`.
    VerticalPositionAbsolute(u32),
    SaveCursor,
    RestoreCursor,
    /// Put the cursor at the start of the last row.
    CursorLowerLeft,
    /// Put the cursor into column `n`.
    CursorAbsoluteColumn(u32),
    /// Put the cursor into row and column.
    CursorAbsolutePosition(u32, u32),
    CursorUp(u32),
    CursorDown(u32),
    CursorForward(u32),
    CursorBackward(u32),
    /// Move the cursor down by `n` rows.
    VerticalPositionRelative(u32),
    /// Move the cursor down by `n` rows, to the start of the row.
    CursorNextLine(u32),
    /// Move the cursor up by `n` rows, to the start of the row.
    CursorPrevLine(u32),
    /// A new line that is not reported as one.
    NextLine,
    /// Move the cursor down, scrolling at the bottom of the scroll region.
    Index,
    /// Move the cursor up, scrolling at the top of the scroll region.
    ReverseIndex,
    ScrollDown(u32),
    ScrollUp(u32),
    InsertLines(u32),
    DeleteLines(u32),
    /// Limit scrolling to a range of rows, or lift the limit.
    ScrollRegion(Option<RowRange>),
    /// Erase a part of the display; whether only unprotected cells are erased.
    EraseDisplay(EraseDisplay, bool),
    /// Erase a part of the cursor row; whether only unprotected cells are erased.
    EraseLine(EraseLine, bool),
    ScrollLeft(u32),
    ScrollRight(u32),
    /// Move the cursor left; at the left edge of a fixed-size screen, scroll right instead.
    DecBackIndex,
    /// Move the cursor right; at the right edge of a fixed-size screen, scroll left instead.
    DecForwardIndex,
    InsertColumns(u32),
    DeleteColumns(u32),
    InsertCharacters(u32),
    DeleteCharacters(u32),
    /// Overwrite `n` cells from the cursor on with blanks.
    EraseCharacters(u32),
    /// Copy a rectangle so that its top left corner lands on the point (the page numbers are
    /// not used).
    CopyArea(Rectangle, u32, Point, u32),
    /// Fill a rectangle with a character, given by its code.
    FillArea(u32, Rectangle),
    /// Erase a rectangle; whether only unprotected cells are erased.
    EraseArea(Rectangle, bool),
    /// Place the last character again, `n` times.
    RepeatCharacter(u32),
    DecApplicationKeypad(bool),
    SetMode(u32),
    ResetMode(u32),
    SetPrivateMode(u32),
    ResetPrivateMode(u32),
    WindowOp(u32),
}

/// A change of the attributes in which characters are drawn.
#[derive(Clone, Copy, Debug, PartialEq, Eq, Structural)]
pub enum CharacterAttribute {
    /// All attributes off.
    Normal,
    Bold,
    Faint,
    Italicized,
    Underlined,
    Blink,
    Inverse,
    Invisible,
    CrossedOut,
    DoublyUnderlined,
    NotBoldFaint,
    NotItalicized,
    NotUnderlined,
    Steady,
    Positive,
    Visible,
    NotCrossedOut,
    Foreground(Color),
    Background(Color),
}

/// The screen after one change of the drawing attributes: the flags are set or cleared, and a
/// named color other than the default sets the color and its flag, while the default color
/// clears the flag.
pub open spec fn sv_attribute(s: ScreenView, a: CharacterAttribute) -> ScreenView {
    let b = s.attributes;
    match a {
        CharacterAttribute::Normal => ScreenView { attributes: 0, ..s },
        CharacterAttribute::Bold => ScreenView { attributes: b | BOLD, ..s },
        CharacterAttribute::Faint => ScreenView { attributes: b | ATR_FAINT, ..s },
        CharacterAttribute::Italicized => ScreenView { attributes: b | ATR_ITALIC, ..s },
        CharacterAttribute::Underlined => ScreenView { attributes: b | UNDERLINE, ..s },
        CharacterAttribute::Blink => ScreenView { attributes: b | BLINK, ..s },
        CharacterAttribute::Inverse => ScreenView { attributes: b | INVERSE, ..s },
        CharacterAttribute::Invisible => ScreenView { attributes: b | INVISIBLE, ..s },
        CharacterAttribute::CrossedOut => ScreenView { attributes: b | ATR_STRIKEOUT, ..s },
        CharacterAttribute::DoublyUnderlined => ScreenView { attributes: b | ATR_DBL_UNDER, ..s },
        CharacterAttribute::NotBoldFaint => ScreenView { attributes: b & !BOLD & !ATR_FAINT, ..s },
        CharacterAttribute::NotItalicized => ScreenView { attributes: b & !ATR_ITALIC, ..s },
        CharacterAttribute::NotUnderlined => ScreenView { attributes: b & !UNDERLINE, ..s },
        CharacterAttribute::Steady => ScreenView { attributes: b & !BLINK, ..s },
        CharacterAttribute::Positive => ScreenView { attributes: b & !INVERSE, ..s },
        CharacterAttribute::Visible => ScreenView { attributes: b & !INVISIBLE, ..s },
        CharacterAttribute::NotCrossedOut => ScreenView { attributes: b & !ATR_STRIKEOUT, ..s },
        CharacterAttribute::Foreground(c) => if c == Color::Default {
            ScreenView { attributes: b & !FG_COLOR, ..s }
        } else {
            ScreenView { attributes: b | FG_COLOR, colors: Colors { foreground: color_index(c), ..s.colors }, ..s }
        },
        CharacterAttribute::Background(c) => if c == Color::Default {
            ScreenView { attributes: b & !BG_COLOR, ..s }
        } else {
            ScreenView { attributes: b | BG_COLOR, colors: Colors { background: color_index(c), ..s.colors }, ..s }
        },
    }
}

/// The screen after the changes of the drawing attributes, in order.
pub open spec fn sv_attributes(s: ScreenView, attrs: Seq<CharacterAttribute>) -> ScreenView
    decreases attrs.len(),
{
    if attrs.len() == 0 {
        s
    } else {
        sv_attributes(sv_attribute(s, attrs[0]), attrs.drop_first())
    }
}

/// A named foreground color sets the foreground flag and that color, and leaves the other
/// flags and the background alone; the default foreground clears the flag. The same holds of
/// backgrounds.
pub proof fn law_colors_set_their_own_flag(s: ScreenView, col: Color)
    ensures
        ({
            let b = s.attributes;
            let f = sv_attributes(s, seq![CharacterAttribute::Foreground(col)]);
            let g = sv_attributes(s, seq![CharacterAttribute::Background(col)]);
            &&& col != Color::Default ==> sets_exactly(b, f.attributes, FG_COLOR) && f.colors.foreground == color_index(col)
                && f.colors.background == s.colors.background
            &&& col == Color::Default ==> clears_exactly(b, f.attributes, FG_COLOR) && f.colors == s.colors
            &&& col != Color::Default ==> sets_exactly(b, g.attributes, BG_COLOR) && g.colors.background == color_index(col)
                && g.colors.foreground == s.colors.foreground
            &&& col == Color::Default ==> clears_exactly(b, g.attributes, BG_COLOR) && g.colors == s.colors
            &&& f.matrix == s.matrix && f.cursor == s.cursor && g.matrix == s.matrix && g.cursor == s.cursor
        }),
{
    reveal_with_fuel(sv_attributes, 2);
    lemma_flag_bits(s.attributes, FG_COLOR, CHARDRAWN);
    lemma_flag_bits(s.attributes, BG_COLOR, CHARDRAWN);
    assert(seq![CharacterAttribute::Foreground(col)].drop_first() =~= Seq::<CharacterAttribute>::empty());
    assert(seq![CharacterAttribute::Background(col)].drop_first() =~= Seq::<CharacterAttribute>::empty());
}

/// `new` has flag `f` set, and every other flag as in `old`.
pub open spec fn sets_exactly(old: u16, new: u16, f: u16) -> bool {
    new & f == f && new & !f == old & !f
}

/// `new` has flag `f` clear, and every other flag as in `old`.
pub open spec fn clears_exactly(old: u16, new: u16, f: u16) -> bool {
    new & f == 0 && new & !f == old & !f
}

proof fn lemma_flag_bits(b: u16, f: u16, g: u16)
    by (bit_vector)
    ensures
        (b | f) & f == f,
        (b | f) & !f == b & !f,
        (b & !f) & f == 0,
        (b & !f) & !f == b & !f,
        b & f == 0 ==> (b | f) & !f == b,
        ((b | f) | g) & f == f,
{
}

/// One change of the drawing attributes that only touches the flags.
pub open spec fn flags_only(s: ScreenView, a: CharacterAttribute) -> bool {
    sv_attributes(s, seq![a]) == ScreenView { attributes: sv_attributes(s, seq![a]).attributes, ..s }
}

/// Each change of the drawing attributes sets or clears exactly its own flag and leaves the
/// other flags and the rest of the screen alone: Bold, Faint, Italicized, Underlined, Blink,
/// Inverse, Invisible, CrossedOut and DoublyUnderlined set the flag of that name; their
/// opposites clear it (NotBoldFaint clears both bold and faint); Normal clears all. A
/// character placed after Underlined carries the underline flag, and Underlined followed by
/// NotUnderlined gives back the flags where underline was clear.
pub proof fn law_attributes_set_their_own_flag(s: ScreenView, c: char)
    ensures
        ({
            let b = s.attributes;
            let after = |a: CharacterAttribute| sv_attributes(s, seq![a]).attributes;
            &&& sets_exactly(b, after(CharacterAttribute::Bold), BOLD)
            &&& sets_exactly(b, after(CharacterAttribute::Faint), ATR_FAINT)
            &&& sets_exactly(b, after(CharacterAttribute::Italicized), ATR_ITALIC)
            &&& sets_exactly(b, after(CharacterAttribute::Underlined), UNDERLINE)
            &&& sets_exactly(b, after(CharacterAttribute::Blink), BLINK)
            &&& sets_exactly(b, after(CharacterAttribute::Inverse), INVERSE)
            &&& sets_exactly(b, after(CharacterAttribute::Invisible), INVISIBLE)
            &&& sets_exactly(b, after(CharacterAttribute::CrossedOut), ATR_STRIKEOUT)
            &&& sets_exactly(b, after(CharacterAttribute::DoublyUnderlined), ATR_DBL_UNDER)
            &&& clears_exactly(b, after(CharacterAttribute::NotItalicized), ATR_ITALIC)
            &&& clears_exactly(b, after(CharacterAttribute::NotUnderlined), UNDERLINE)
            &&& clears_exactly(b, after(CharacterAttribute::Steady), BLINK)
            &&& clears_exactly(b, after(CharacterAttribute::Positive), INVERSE)
            &&& clears_exactly(b, after(CharacterAttribute::Visible), INVISIBLE)
            &&& clears_exactly(b, after(CharacterAttribute::NotCrossedOut), ATR_STRIKEOUT)
            &&& clears_exactly(b & !ATR_FAINT, after(CharacterAttribute::NotBoldFaint), BOLD)
            &&& clears_exactly(b & !BOLD, after(CharacterAttribute::NotBoldFaint), ATR_FAINT)
            &&& after(CharacterAttribute::Normal) == 0
            &&& flags_only(s, CharacterAttribute::Underlined)
            &&& flags_only(s, CharacterAttribute::NotUnderlined)
            &&& drawn_cell(sv_attributes(s, seq![CharacterAttribute::Underlined]), c).attributes.bits & UNDERLINE == UNDERLINE
            &&& b & UNDERLINE == 0 ==> sv_attributes(
                s,
                seq![CharacterAttribute::Underlined, CharacterAttribute::NotUnderlined],
            ) == s
        }),
{
    lemma_flag_bits(s.attributes, FG_COLOR, CHARDRAWN);
    lemma_flag_bits(s.attributes, BG_COLOR, CHARDRAWN);
    law_colors_set_their_own_flag(s, Color::Red);
    let b = s.attributes;
    reveal_with_fuel(sv_attributes, 3);
    lemma_flag_bits(b, BOLD, CHARDRAWN);
    lemma_flag_bits(b, ATR_FAINT, CHARDRAWN);
    lemma_flag_bits(b, ATR_ITALIC, CHARDRAWN);
    lemma_flag_bits(b, UNDERLINE, CHARDRAWN);
    lemma_flag_bits(b, BLINK, CHARDRAWN);
    lemma_flag_bits(b, INVERSE, CHARDRAWN);
    lemma_flag_bits(b, INVISIBLE, CHARDRAWN);
    lemma_flag_bits(b, ATR_STRIKEOUT, CHARDRAWN);
    lemma_flag_bits(b, ATR_DBL_UNDER, CHARDRAWN);
    lemma_flag_bits(b & !ATR_FAINT, BOLD, CHARDRAWN);
    lemma_flag_bits(b & !BOLD, ATR_FAINT, CHARDRAWN);
    assert(b & !BOLD & !ATR_FAINT == (b & !ATR_FAINT) & !BOLD) by (bit_vector);
    assert(b & !BOLD & !ATR_FAINT == (b & !BOLD) & !ATR_FAINT) by (bit_vector);
    let u = sv_attributes(s, seq![CharacterAttribute::Underlined, CharacterAttribute::NotUnderlined]);
    assert(seq![CharacterAttribute::Underlined, CharacterAttribute::NotUnderlined].drop_first() =~= seq![
        CharacterAttribute::NotUnderlined,
    ]);
    assert(seq![CharacterAttribute::NotUnderlined].drop_first() =~= Seq::<CharacterAttribute>::empty());
    assert(seq![CharacterAttribute::Underlined].drop_first() =~= Seq::<CharacterAttribute>::empty());
}

/// The number of columns that a column scroll by `n` moves, and the first column it moves.
pub open spec fn col_scroll(w: int, at_col: int, n: int) -> (int, int) {
    (if n < w {
        n
    } else {
        w
    }, if at_col > 0 {
        at_col
    } else {
        0
    })
}

/// The screen after the cells of the scroll region's rows from column `at_col` on scroll left
/// by `n` columns.
pub open spec fn sv_scroll_left(s: ScreenView, at_col: int, n: int) -> ScreenView {
    let m = s.matrix;
    let (k, at) = col_scroll(m.width, at_col, n);
    let (st, en, _lim) = scroll_region_of(s);
    if k >= 1 && at < m.width {
        ScreenView {
            matrix: matrix_from(m.width, m.height, |x: int, j: int| left_cell(m, st, en, at, k, blank_cell(s.colors), x, j)),
            ..s
        }
    } else {
        s
    }
}

/// The screen after the cells of the scroll region's rows from column `at_col` on scroll right
/// by `n` columns.
pub open spec fn sv_scroll_right(s: ScreenView, at_col: int, n: int) -> ScreenView {
    let m = s.matrix;
    let (k, at) = col_scroll(m.width, at_col, n);
    let (st, en, _lim) = scroll_region_of(s);
    if k >= 1 && at < m.width {
        ScreenView {
            matrix: matrix_from(m.width, m.height, |x: int, j: int| right_cell(m, st, en, at, k, blank_cell(s.colors), x, j)),
            ..s
        }
    } else {
        s
    }
}

/// A column scroll from `at_col` by `n` stays inside the rows.
pub open spec fn col_scroll_fits(s: ScreenView, at_col: int, n: int) -> bool {
    let (k, at) = col_scroll(s.matrix.width, at_col, n);
    k >= 1 && at < s.matrix.width ==> at + k <= s.matrix.width
}

/// The screen after `n` cells at the cursor are deleted (`left`) or inserted, within the
/// cursor row.
pub open spec fn sv_shift_chars(s: ScreenView, n: int, left: bool) -> ScreenView {
    let s1 = sv_make_room(s);
    let m = s1.matrix;
    let (x, y) = s1.cursor;
    let fill = blank_cell(s.colors);
    if left {
        ScreenView { matrix: matrix_from(m.width, m.height, |i: int, j: int| left_cell(m, y, y, x, n, fill, i, j)), ..s1 }
    } else {
        ScreenView { matrix: matrix_from(m.width, m.height, |i: int, j: int| right_cell(m, y, y, x, n, fill, i, j)), ..s1 }
    }
}

/// The number of cells that erasing `n` characters on a fixed-size screen overwrites: those
/// up to the right edge.
pub open spec fn erase_count(s: ScreenView, n: int) -> int {
    let k = if n < s.matrix.width - s.cursor.0 {
        n
    } else {
        s.matrix.width - s.cursor.0
    };
    if k > 0 {
        k
    } else {
        0
    }
}

/// The screen after `n` characters from the cursor on are erased: a fixed-size screen erases
/// up to its right edge, another screen grows to hold them.
pub open spec fn sv_erase_chars(s: ScreenView, n: int) -> ScreenView {
    let (x, y) = s.cursor;
    if s.fixed_size {
        let k = erase_count(s, n);
        ScreenView { matrix: filled_rect(s.matrix, rect_of(x, y, x + k - 1, y), erase_cell(s)), ..s }
    } else {
        let m1 = grown(s.matrix, x + n, y, blank_cell(s.colors));
        ScreenView { matrix: filled_rect(m1, rect_of(x, y, x + n - 1, y), erase_cell(s)), ..s }
    }
}

/// Erasing `n` characters stays inside the screen and the limits of an index.
pub open spec fn erase_chars_fits(s: ScreenView, n: int) -> bool {
    let (x, y) = s.cursor;
    &&& 0 <= x
    &&& 0 <= y
    &&& x + n <= isize::MAX
    &&& s.fixed_size ==> (erase_count(s, n) >= 1 ==> y < s.matrix.height)
    &&& !s.fixed_size ==> room_fits(s.matrix, x + n, y)
}

/// The rectangle moved by (dx, dy).
pub open spec fn moved_rect(r: Rectangle, dx: int, dy: int) -> Rectangle {
    rect_of(r.start.x + dx, r.start.y + dy, r.end.x + dx, r.end.y + dy)
}

/// The source of a copy: the rectangle inside the matrix.
pub open spec fn copy_source(m: MatrixView, rect: Rectangle) -> Rectangle {
    spec_clipped(rect, matrix_rect(m))
}

/// The destination of a copy to `p`: the moved source inside the matrix.
pub open spec fn copy_dest(m: MatrixView, rect: Rectangle, p: Point) -> Rectangle {
    let src = copy_source(m, rect);
    spec_clipped(moved_rect(src, p.x - src.start.x, p.y - src.start.y), matrix_rect(m))
}

/// The matrix after the cells of `src` are copied to `dst`, whose rows are those of `src`
/// moved down by `dy`; columns are counted from the left edges of both.
pub open spec fn copied_area(m: MatrixView, src: Rectangle, dst: Rectangle, dy: int) -> MatrixView {
    matrix_from(
        m.width,
        m.height,
        |x: int, j: int|
            if dst.start.y <= j <= dst.end.y && dst.start.x <= x <= dst.end.x {
                cell_at(m, src.start.x + (x - dst.start.x), j - dy)
            } else {
                cell_at(m, x, j)
            },
    )
}

/// Every cell that a copy writes reads a cell of the source, inside the matrix.
proof fn lemma_copy_reads_inside(m: MatrixView, rect: Rectangle, p: Point, x: int, y: int)
    requires
        matrix_wf(m),
        m.width >= 1,
        m.height >= 1,
        copy_fits(m, rect, p),
        copy_dest(m, rect, p).start.x <= x <= copy_dest(m, rect, p).end.x,
        copy_dest(m, rect, p).start.y <= y <= copy_dest(m, rect, p).end.y,
    ensures
        0 <= copy_source(m, rect).start.x + (x - copy_dest(m, rect, p).start.x) < m.width,
        0 <= y - (p.y - copy_source(m, rect).start.y) < m.height,
{
    let src = copy_source(m, rect);
    let dst = copy_dest(m, rect, p);
    assert(src.start.x >= 0 && src.start.y >= 0);
    assert(src.end.x <= m.width - 1 && src.end.y <= m.height - 1);
    assert(dst.start.x >= p.x && dst.start.y >= p.y);
    assert(dst.end.x <= src.end.x + (p.x - src.start.x));
    assert(dst.end.y <= src.end.y + (p.y - src.start.y));
}

/// The coordinates of a copy fit an `isize`.
pub open spec fn copy_fits(m: MatrixView, rect: Rectangle, p: Point) -> bool {
    let src = copy_source(m, rect);
    let dx = p.x - src.start.x;
    let dy = p.y - src.start.y;
    &&& isize::MIN <= dx <= isize::MAX
    &&& isize::MIN <= dy <= isize::MAX
    &&& isize::MIN <= src.end.x + dx <= isize::MAX
    &&& isize::MIN <= src.end.y + dy <= isize::MAX
}

/// Bytes may arrive in pieces: after a first piece that stops at no event, adding the second
/// piece gives what adding both at once gives, escape sequences split between them included.
pub proof fn law_add_bytes_in_pieces(s: ScreenView, a: Seq<u8>, b: Seq<u8>)
    requires
        sv_add_bytes(s, a).1 is Ok,
    ensures
        sv_add_bytes(s, a + b) == sv_add_bytes(sv_add_bytes(s, a).0, b),
    decreases a.len(),
{
    if a.len() == 0 {
        assert(a + b =~= b);
    } else {
        let (s1, e) = sv_add_byte(s, a[0]);
        assert((a + b)[0] == a[0]);
        assert((a + b).drop_first() =~= a.drop_first() + b);
        law_add_bytes_in_pieces(s1, a.drop_first(), b);
    }
}

/// Making room keeps a screen well-formed and puts the cursor inside its matrix.
proof fn lemma_make_room_facts(s: ScreenView)
    requires
        screen_wf(s),
        cursor_room_fits(s),
    ensures
        screen_wf(sv_make_room(s)),
        inside(sv_make_room(s).matrix, sv_make_room(s).cursor.0, sv_make_room(s).cursor.1),
{
    if !s.fixed_size {
        lemma_grown(s.matrix, s.cursor.0, s.cursor.1, blank_cell(s.colors));
    }
}

/// Deleting `n` characters at the cursor right after inserting `n` there gives back the screen
/// after making room, except that the last `n` cells of the cursor row are blank.
pub proof fn law_delete_chars_undoes_insert_chars(s: ScreenView, n: int)
    requires
        screen_wf(s),
        cursor_room_fits(s),
        0 <= n,
        sv_make_room(s).cursor.0 + n <= sv_make_room(s).matrix.width,
    ensures
        ({
            let s1 = sv_make_room(s);
            let s2 = sv_shift_chars(sv_shift_chars(s, n, false), n, true);
            &&& s2.cursor == s1.cursor
            &&& s2.matrix.width == s1.matrix.width
            &&& s2.matrix.height == s1.matrix.height
            &&& forall|x: int, j: int|
                0 <= x < s1.matrix.width && 0 <= j < s1.matrix.height ==> #[trigger] cell_at(s2.matrix, x, j) == if j
                    == s1.cursor.1 && s1.matrix.width - n <= x {
                    blank_cell(s.colors)
                } else {
                    cell_at(s1.matrix, x, j)
                }
        }),
{
    let s1 = sv_make_room(s);
    let m = s1.matrix;
    let (x0, y0) = s1.cursor;
    let fill = blank_cell(s.colors);
    lemma_make_room_facts(s);
    let ins = sv_shift_chars(s, n, false);
    let m1 = ins.matrix;
    assert(m1.width == m.width && m1.height == m.height);
    assert(ins.cursor == s1.cursor);
    lemma_make_room_inside(ins);
    let del = sv_shift_chars(ins, n, true);
    let m2 = del.matrix;
    assert forall|i: int, j: int| 0 <= i < m.width && 0 <= j < m.height implies #[trigger] cell_at(m2, i, j) == if j == y0
        && m.width - n <= i {
        fill
    } else {
        cell_at(m, i, j)
    } by {
        lemma_matrix_from_cell(m1.width, m1.height, |a: int, b: int| left_cell(m1, y0, y0, x0, n, fill, a, b), i, j);
        lemma_matrix_from_cell(m.width, m.height, |a: int, b: int| right_cell(m, y0, y0, x0, n, fill, a, b), i, j);
        if j == y0 && x0 <= i < m.width - n {
            lemma_matrix_from_cell(m.width, m.height, |a: int, b: int| right_cell(m, y0, y0, x0, n, fill, a, b), i + n, j);
        }
    }
}

/// A character code that fill-area draws: printable ASCII or printable Latin-1.
pub open spec fn fill_char_ok(c: u32) -> bool {
    (0x20 <= c < 0x80) || (0xa1 <= c < 0xff)
}

/// The rectangle of the whole matrix.
pub open spec fn matrix_rect(m: MatrixView) -> Rectangle {
    Rectangle { start: Point { x: 0, y: 0 }, end: Point { x: (m.width - 1) as isize, y: (m.height - 1) as isize } }
}

/// The screen after placing `c` `n` times.
pub open spec fn sv_repeat(s: ScreenView, c: char, n: nat) -> ScreenView
    decreases n,
{
    if n == 0 {
        s
    } else {
        sv_repeat(sv_place_char(s, c), c, (n - 1) as nat)
    }
}

/// Placing `c` `n` times fits the limits of an index at every step.
pub open spec fn repeat_fits(s: ScreenView, c: char, n: nat) -> bool
    decreases n,
{
    n == 0 || (cursor_room_fits(s) && repeat_fits(sv_place_char(s, c), c, (n - 1) as nat))
}

/// The rows from `start` to `end`, both included.
#[derive(Clone, Copy, Debug, PartialEq, Eq, Structural)]
pub struct RowRange {
    pub start: isize,
    pub end: isize,
}

/// The part of the display that an erase covers.
#[derive(Clone, Copy, Debug, PartialEq, Eq, Structural)]
pub enum EraseDisplay {
    /// The rows above the cursor and its row.
    Above,
    /// The cursor row and the rows below.
    Below,
    All,
    Saved,
}

/// The part of the cursor row that an erase covers.
#[derive(Clone, Copy, Debug, PartialEq, Eq, Structural)]
pub enum EraseLine {
    /// From the start of the row to the cursor.
    Left,
    /// From the cursor to the end of the row.
    Right,
    All,
}

/// A Unicode scalar value.
pub open spec fn is_scalar(v: u32) -> bool {
    v <= 0x10FFFF && !(0xD800 <= v <= 0xDFFF)
}

/// The action of a single-byte character: the control characters that the screen handles,
/// printable ASCII, and errors for the other control characters.
pub open spec fn ascii_action(b: u8) -> Action {
    if b == 0x07 {
        Action::Bell
    } else if b == 0x08 {
        Action::Backspace
    } else if b == 0x09 {
        Action::Tabulator
    } else if b == 0x0A {
        Action::NewLine
    } else if b == 0x0B {
        Action::VerticalTab
    } else if b == 0x0C {
        Action::FormFeed
    } else if b == 0x0D {
        Action::Cr
    } else if b < 0x20 || b == 0x7F {
        Action::Error
    } else {
        Action::Char(b as char)
    }
}

/// One step of the UTF-8 decoder: the next state and the action of the byte.
pub open spec fn decode_step(st: Utf8State, b: u8) -> (Utf8State, Action) {
    let idle = Utf8State { needed: 0, value: 0 };
    if st.needed == 0 {
        if b < 0x80 {
            (idle, ascii_action(b))
        } else if b & 0xE0 == 0xC0 {
            (Utf8State { needed: 1, value: (b & 0x1F) as u32 }, Action::More)
        } else if b & 0xF0 == 0xE0 {
            (Utf8State { needed: 2, value: (b & 0x0F) as u32 }, Action::More)
        } else if b & 0xF8 == 0xF0 {
            (Utf8State { needed: 3, value: (b & 0x07) as u32 }, Action::More)
        } else {
            (idle, Action::Error)
        }
    } else if b & 0xC0 == 0x80 {
        let v = (st.value << 6u32) | ((b & 0x3F) as u32);
        if st.needed == 1 {
            (idle, if is_scalar(v) { Action::Char(v as char) } else { Action::Error })
        } else {
            (Utf8State { needed: (st.needed - 1) as u8, value: v }, Action::More)
        }
    } else {
        (idle, Action::Error)
    }
}

/// Integer division rounding toward zero, as Rust divides.
pub open spec fn trunc_div(a: int, b: int) -> int {
    if a >= 0 {
        a / b
    } else {
        -((-a) / b)
    }
}

/// The screen after a tabulator: the cursor goes to the next multiple of eight, but not past
/// the edge of a fixed-size screen.
pub open spec fn sv_tab(s: ScreenView) -> ScreenView {
    let cx = trunc_div(s.cursor.0 + 8, 8) * 8;
    if s.fixed_size && cx >= s.matrix.width {
        s
    } else {
        ScreenView { cursor: (cx, s.cursor.1), ..s }
    }
}

/// The screen and the event after an action.
pub open spec fn sv_apply(s: ScreenView, a: Action) -> (ScreenView, Event) {
    match a {
        Action::More => (s, Event::Ignore),
        Action::Error => (s, Event::Ignore),
        Action::Cr => (ScreenView { cursor: (0, s.cursor.1), ..s }, Event::Cr),
        Action::NewLine => (sv_new_line(s), Event::NewLine),
        Action::FormFeed => (sv_new_line(s), Event::NewLine),
        Action::VerticalTab => (sv_new_line(s), Event::NewLine),
        Action::Char(c) => (sv_place_char(ScreenView { last_char: c, ..s }, c), Event::Ignore),
        Action::Bell => (s, Event::Bell),
        Action::Backspace => (sv_move_cursor_to(s, s.cursor.0 - 1, s.cursor.1), Event::Ignore),
        Action::Tabulator => (sv_tab(s), Event::Ignore),
        Action::HorizontalMove(n) => (ScreenView { cursor: (s.cursor.0 + n, s.cursor.1), ..s }, Event::Ignore),
        Action::VerticalPositionAbsolute(n) => (ScreenView { cursor: (s.cursor.0, n as int), ..s }, Event::Ignore),
        Action::SaveCursor => (ScreenView { saved_cursor: s.cursor, ..s }, Event::Ignore),
        Action::RestoreCursor => (ScreenView { cursor: s.saved_cursor, ..s }, Event::Ignore),
        Action::CursorLowerLeft => (
            ScreenView {
                cursor: (0, if s.matrix.height - 1 > 0 {
                    s.matrix.height - 1
                } else {
                    0
                }),
                ..s
            },
            Event::Ignore,
        ),
        Action::CursorAbsoluteColumn(c) => (sv_move_cursor_to(s, c as int, s.cursor.1), Event::Ignore),
        Action::CursorAbsolutePosition(r, c) => (sv_move_cursor_to(s, c as int, r as int), Event::Ignore),
        Action::CursorUp(n) => (sv_move_cursor_to(s, s.cursor.0, s.cursor.1 - n), Event::Ignore),
        Action::CursorDown(n) => (sv_move_cursor_to(s, s.cursor.0, s.cursor.1 + n), Event::Ignore),
        Action::CursorForward(n) => (sv_move_cursor_to(s, s.cursor.0 + n, s.cursor.1), Event::Ignore),
        Action::CursorBackward(n) => (sv_move_cursor_to(s, s.cursor.0 - n, s.cursor.1), Event::Ignore),
        Action::VerticalPositionRelative(n) => (sv_move_cursor_to(s, s.cursor.0, s.cursor.1 + n), Event::Ignore),
        Action::CursorNextLine(n) => {
            let s1 = sv_move_cursor_to(s, s.cursor.0, s.cursor.1 + n);
            (ScreenView { cursor: (0, s1.cursor.1), ..s1 }, Event::Ignore)
        },
        Action::CursorPrevLine(n) => {
            let s1 = sv_move_cursor_to(s, s.cursor.0, s.cursor.1 - n);
            (ScreenView { cursor: (0, s1.cursor.1), ..s1 }, Event::Ignore)
        },
        Action::NextLine => (sv_new_line(s), Event::Ignore),
        Action::Index => (sv_move_down_and_scroll(sv_make_room(s), 1), Event::Ignore),
        Action::ReverseIndex => (sv_move_up_and_scroll(sv_make_room(s), 1), Event::Ignore),
        Action::ScrollDown(n) => {
            let s1 = sv_make_room(s);
            let (st, _en, lim) = scroll_region_of(s1);
            (if lim {
                sv_scroll_down(s1, st, n as int)
            } else {
                s1
            }, Event::Ignore)
        },
        Action::ScrollUp(n) => {
            let s1 = sv_make_room(s);
            let (st, _en, lim) = scroll_region_of(s1);
            (if lim {
                sv_scroll_up(s1, st, n as int)
            } else {
                s1
            }, Event::Ignore)
        },
        Action::InsertLines(n) => {
            let s1 = sv_make_room(s);
            (sv_scroll_down(s1, s1.cursor.1, n as int), Event::Ignore)
        },
        Action::DeleteLines(n) => {
            let s1 = sv_make_room(s);
            let (st, en, lim) = scroll_region_of(s1);
            let y = s1.cursor.1;
            (if st <= y <= en || !lim {
                sv_scroll_up(s1, y, n as int)
            } else {
                s1
            }, Event::Ignore)
        },
        Action::ScrollRegion(region) => {
            let s1 = sv_make_room(s);
            let r = match region {
                Some(rr) => Some((rr.start as int, rr.end as int)),
                None => None,
            };
            let y = match r {
                Some((a, b)) => if s1.cursor.1 < a || s1.cursor.1 > b {
                    a
                } else {
                    s1.cursor.1
                },
                None => s1.cursor.1,
            };
            (ScreenView { scroll_region: r, cursor: (s1.cursor.0, y), ..s1 }, Event::Ignore)
        },
        Action::EraseDisplay(what, _selective) => {
            let s1 = sv_make_room(s);
            let y = s1.cursor.1;
            let h = s1.matrix.height;
            let (y0, y1) = match what {
                EraseDisplay::Above => (0, y),
                EraseDisplay::Below => (y, h - 1),
                _ => (0, h - 1),
            };
            (ScreenView { matrix: filled_rect(s1.matrix, rect_of(0, y0, s1.matrix.width - 1, y1), erase_cell(s1)), ..s1 }, Event::Ignore)
        },
        Action::EraseLine(what, _selective) => {
            let s1 = sv_make_room(s);
            let (x, y) = s1.cursor;
            let w = s1.matrix.width;
            let (x0, x1) = match what {
                EraseLine::Left => (0, x),
                EraseLine::Right => (x, w - 1),
                EraseLine::All => (0, w - 1),
            };
            (ScreenView { matrix: filled_rect(s1.matrix, rect_of(x0, y, x1, y), erase_cell(s1)), ..s1 }, Event::Ignore)
        },
        Action::ScrollLeft(n) => {
            let s1 = sv_make_room(s);
            let (st, en, _lim) = scroll_region_of(s1);
            (if st <= s1.cursor.1 <= en {
                sv_scroll_left(s1, 0, n as int)
            } else {
                s1
            }, Event::Ignore)
        },
        Action::ScrollRight(n) => {
            let s1 = sv_make_room(s);
            let (st, en, _lim) = scroll_region_of(s1);
            (if st <= s1.cursor.1 <= en {
                sv_scroll_right(s1, 0, n as int)
            } else {
                s1
            }, Event::Ignore)
        },
        Action::DecBackIndex => (if s.fixed_size && s.cursor.0 == 0 {
            sv_scroll_right(s, 0, 1)
        } else {
            sv_move_cursor_to(s, s.cursor.0 - 1, s.cursor.1)
        }, Event::Ignore),
        Action::DecForwardIndex => (if s.fixed_size && s.cursor.0 + 1 == s.matrix.width {
            sv_scroll_left(s, 0, 1)
        } else {
            sv_move_cursor_to(s, s.cursor.0 + 1, s.cursor.1)
        }, Event::Ignore),
        Action::InsertColumns(n) => (sv_scroll_right(s, s.cursor.0, n as int), Event::Ignore),
        Action::DeleteColumns(n) => (sv_scroll_left(s, s.cursor.0, n as int), Event::Ignore),
        Action::InsertCharacters(n) => (sv_shift_chars(s, n as int, false), Event::Ignore),
        Action::DeleteCharacters(n) => (sv_shift_chars(s, n as int, true), Event::Ignore),
        Action::EraseCharacters(n) => (sv_erase_chars(s, n as int), Event::Ignore),
        Action::CopyArea(rect, _from_page, p, _to_page) => {
            let s1 = sv_make_room(s);
            let m = s1.matrix;
            let src = copy_source(m, rect);
            (ScreenView { matrix: copied_area(m, src, copy_dest(m, rect, p), p.y - src.start.y), ..s1 }, Event::Ignore)
        },
        Action::FillArea(c, rect) => if fill_char_ok(c) {
            let s1 = sv_make_room(s);
            let cell = Cell { code_point: c as char, attributes: Attributes { bits: s.attributes | CHARDRAWN }, colors: s.colors };
            (ScreenView { matrix: filled_rect(s1.matrix, spec_clipped(rect, matrix_rect(s1.matrix)), cell), ..s1 }, Event::Ignore)
        } else {
            (s, Event::Ignore)
        },
        Action::EraseArea(rect, _selective) => (
            ScreenView { matrix: filled_rect(s.matrix, spec_clipped(rect, matrix_rect(s.matrix)), erase_cell(s)), ..s },
            Event::Ignore,
        ),
        Action::RepeatCharacter(n) => (sv_repeat(s, s.last_char, n as nat), Event::Ignore),
        Action::DecApplicationKeypad(_) => (s, Event::StartTui),
        Action::SetMode(_) => (s, Event::StartTui),
        Action::ResetMode(_) => (s, Event::StartTui),
        Action::SetPrivateMode(_) => (s, Event::StartTui),
        Action::ResetPrivateMode(_) => (s, Event::StartTui),
        Action::WindowOp(_) => (s, Event::StartTui),
    }
}

/// The rectangle from (x0, y0) to (x1, y1), both included.
pub open spec fn rect_of(x0: int, y0: int, x1: int, y1: int) -> Rectangle {
    Rectangle { start: Point { x: x0 as isize, y: y0 as isize }, end: Point { x: x1 as isize, y: y1 as isize } }
}

/// An action fits the limits of an index and of the cursor coordinates.
pub open spec fn action_fits(s: ScreenView, a: Action) -> bool {
    match a {
        Action::Char(_c) => cursor_room_fits(s),
        Action::NewLine => vertical_room_fits(s) && s.cursor.1 < isize::MAX,
        Action::FormFeed => vertical_room_fits(s) && s.cursor.1 < isize::MAX,
        Action::VerticalTab => vertical_room_fits(s) && s.cursor.1 < isize::MAX,
        Action::Backspace => s.cursor.0 > isize::MIN,
        Action::Tabulator => s.cursor.0 + 8 <= isize::MAX,
        Action::HorizontalMove(n) => n <= isize::MAX && s.cursor.0 + n <= isize::MAX,
        Action::VerticalPositionAbsolute(n) => n <= isize::MAX,
        Action::CursorAbsoluteColumn(c) => c <= isize::MAX,
        Action::CursorAbsolutePosition(r, c) => r <= isize::MAX && c <= isize::MAX,
        Action::CursorUp(n) => n <= isize::MAX && s.cursor.1 - n >= isize::MIN,
        Action::CursorDown(n) => n <= isize::MAX && s.cursor.1 + n <= isize::MAX,
        Action::CursorForward(n) => n <= isize::MAX && s.cursor.0 + n <= isize::MAX,
        Action::CursorBackward(n) => n <= isize::MAX && s.cursor.0 - n >= isize::MIN,
        Action::VerticalPositionRelative(n) => n <= isize::MAX && s.cursor.1 + n <= isize::MAX,
        Action::CursorNextLine(n) => n <= isize::MAX && s.cursor.1 + n <= isize::MAX,
        Action::CursorPrevLine(n) => n <= isize::MAX && s.cursor.1 - n >= isize::MIN,
        Action::NextLine => vertical_room_fits(s) && s.cursor.1 < isize::MAX,
        Action::Index => cursor_room_fits(s),
        Action::ReverseIndex => cursor_room_fits(s) && sv_make_room(s).matrix.height < isize::MAX,
        Action::ScrollDown(n) => cursor_room_fits(s) && n <= isize::MAX,
        Action::ScrollUp(n) => cursor_room_fits(s) && n <= isize::MAX,
        Action::InsertLines(n) => cursor_room_fits(s) && n <= isize::MAX && {
            let s1 = sv_make_room(s);
            let (st, en, _lim) = scroll_region_of(s1);
            let k = scroll_amount(st, en, n as int);
            k >= 1 ==> st <= s1.cursor.1 <= en && s1.cursor.1 + k <= s1.matrix.height
        },
        Action::DeleteLines(n) => cursor_room_fits(s) && n <= isize::MAX,
        Action::ScrollRegion(_) => cursor_room_fits(s),
        Action::EraseDisplay(_, _) => cursor_room_fits(s),
        Action::EraseLine(_, _) => cursor_room_fits(s),
        Action::ScrollLeft(n) => cursor_room_fits(s) && n <= isize::MAX,
        Action::ScrollRight(n) => cursor_room_fits(s) && n <= isize::MAX,
        Action::DecBackIndex => s.cursor.0 > isize::MIN,
        Action::DecForwardIndex => s.cursor.0 < isize::MAX,
        Action::InsertColumns(n) => n <= isize::MAX && col_scroll_fits(s, s.cursor.0, n as int),
        Action::DeleteColumns(n) => n <= isize::MAX && col_scroll_fits(s, s.cursor.0, n as int),
        Action::InsertCharacters(n) => cursor_room_fits(s) && n <= isize::MAX && sv_make_room(s).cursor.0 + n
            <= sv_make_room(s).matrix.width,
        Action::DeleteCharacters(n) => cursor_room_fits(s) && n <= isize::MAX && sv_make_room(s).cursor.0 + n
            <= sv_make_room(s).matrix.width,
        Action::EraseCharacters(n) => n <= isize::MAX && erase_chars_fits(s, n as int),
        Action::CopyArea(rect, _, p, _) => cursor_room_fits(s) && copy_fits(sv_make_room(s).matrix, rect, p),
        Action::FillArea(c, _) => fill_char_ok(c) ==> cursor_room_fits(s),
        Action::RepeatCharacter(n) => repeat_fits(s, s.last_char, n as nat),
        _ => true,
    }
}

/// What a byte of a control sequence yields: nothing yet, an action, or changes of the
/// drawing attributes (the parameters of a select-graphic-rendition sequence).
pub enum EscResult {
    Nothing,
    Act(Action),
    Attributes(Seq<u32>),
}

/// The parameter at position `i`; 0 where it is missing.
pub open spec fn param(ps: Seq<u32>, i: int) -> u32 {
    if 0 <= i < ps.len() {
        ps[i]
    } else {
        0
    }
}

/// A count parameter: a missing or zero one counts as 1.
pub open spec fn count_param(ps: Seq<u32>, i: int) -> u32 {
    if param(ps, i) == 0 {
        1
    } else {
        param(ps, i)
    }
}

/// A position parameter, counted from 1, as an index counted from 0.
pub open spec fn index_param(ps: Seq<u32>, i: int) -> u32 {
    (count_param(ps, i) - 1) as u32
}

/// A position parameter as a coordinate.
pub open spec fn coord_param(ps: Seq<u32>, i: int) -> isize {
    index_param(ps, i) as isize
}

/// The last row or column of a rectangle: the given one, or far past any screen where it is
/// missing.
pub open spec fn end_coord_param(ps: Seq<u32>, i: int) -> isize {
    if param(ps, i) == 0 {
        0x7fff_ffff
    } else {
        coord_param(ps, i)
    }
}

/// The rectangle of the parameters top, left, bottom, right from position `i` on.
pub open spec fn rect_param(ps: Seq<u32>, i: int) -> Rectangle {
    Rectangle {
        start: Point { x: coord_param(ps, i + 1), y: coord_param(ps, i) },
        end: Point { x: end_coord_param(ps, i + 3), y: end_coord_param(ps, i + 2) },
    }
}

/// The action of an escape followed by `b`.
pub open spec fn esc_final(b: u8) -> Action {
    if b == 0x46 {
        Action::CursorLowerLeft
    } else if b == 0x45 {
        Action::NextLine
    } else if b == 0x44 {
        Action::Index
    } else if b == 0x4d {
        Action::ReverseIndex
    } else if b == 0x36 {
        Action::DecBackIndex
    } else if b == 0x39 {
        Action::DecForwardIndex
    } else if b == 0x37 {
        Action::SaveCursor
    } else if b == 0x38 {
        Action::RestoreCursor
    } else if b == 0x3d {
        Action::DecApplicationKeypad(true)
    } else if b == 0x3e {
        Action::DecApplicationKeypad(false)
    } else {
        Action::Error
    }
}

/// The part of the display of an erase-display parameter.
pub open spec fn erase_display_of(p: u32) -> Option<EraseDisplay> {
    if p == 0 {
        Some(EraseDisplay::Below)
    } else if p == 1 {
        Some(EraseDisplay::Above)
    } else if p == 2 {
        Some(EraseDisplay::All)
    } else if p == 3 {
        Some(EraseDisplay::Saved)
    } else {
        None
    }
}

/// The part of the row of an erase-line parameter.
pub open spec fn erase_line_of(p: u32) -> Option<EraseLine> {
    if p == 0 {
        Some(EraseLine::Right)
    } else if p == 1 {
        Some(EraseLine::Left)
    } else if p == 2 {
        Some(EraseLine::All)
    } else {
        None
    }
}

/// The action of a plain control sequence (no private marker, no intermediate byte) with
/// final byte `f`.
pub open spec fn csi_plain(f: u8, ps: Seq<u32>) -> EscResult {
    let n = count_param(ps, 0);
    if f == 0x41 {
        EscResult::Act(Action::CursorUp(n))
    } else if f == 0x42 {
        EscResult::Act(Action::CursorDown(n))
    } else if f == 0x43 {
        EscResult::Act(Action::CursorForward(n))
    } else if f == 0x44 {
        EscResult::Act(Action::CursorBackward(n))
    } else if f == 0x45 {
        EscResult::Act(Action::CursorNextLine(n))
    } else if f == 0x46 {
        EscResult::Act(Action::CursorPrevLine(n))
    } else if f == 0x47 || f == 0x60 {
        EscResult::Act(Action::CursorAbsoluteColumn(index_param(ps, 0)))
    } else if f == 0x48 || f == 0x66 {
        EscResult::Act(Action::CursorAbsolutePosition(index_param(ps, 0), index_param(ps, 1)))
    } else if f == 0x64 {
        EscResult::Act(Action::VerticalPositionAbsolute(index_param(ps, 0)))
    } else if f == 0x65 {
        EscResult::Act(Action::VerticalPositionRelative(n))
    } else if f == 0x61 {
        EscResult::Act(Action::HorizontalMove(n))
    } else if f == 0x53 {
        EscResult::Act(Action::ScrollUp(n))
    } else if f == 0x54 {
        EscResult::Act(Action::ScrollDown(n))
    } else if f == 0x4c {
        EscResult::Act(Action::InsertLines(n))
    } else if f == 0x4d {
        EscResult::Act(Action::DeleteLines(n))
    } else if f == 0x40 {
        EscResult::Act(Action::InsertCharacters(n))
    } else if f == 0x50 {
        EscResult::Act(Action::DeleteCharacters(n))
    } else if f == 0x58 {
        EscResult::Act(Action::EraseCharacters(n))
    } else if f == 0x62 {
        EscResult::Act(Action::RepeatCharacter(n))
    } else if f == 0x4a {
        match erase_display_of(param(ps, 0)) {
            Some(w) => EscResult::Act(Action::EraseDisplay(w, false)),
            None => EscResult::Act(Action::Error),
        }
    } else if f == 0x4b {
        match erase_line_of(param(ps, 0)) {
            Some(w) => EscResult::Act(Action::EraseLine(w, false)),
            None => EscResult::Act(Action::Error),
        }
    } else if f == 0x6d {
        EscResult::Attributes(if ps.len() == 0 {
            seq![0u32]
        } else {
            ps
        })
    } else if f == 0x72 {
        EscResult::Act(Action::ScrollRegion(if param(ps, 0) != 0 && param(ps, 1) != 0 {
            Some(RowRange { start: coord_param(ps, 0), end: coord_param(ps, 1) })
        } else {
            None
        }))
    } else if f == 0x68 {
        EscResult::Act(Action::SetMode(param(ps, 0)))
    } else if f == 0x6c {
        EscResult::Act(Action::ResetMode(param(ps, 0)))
    } else if f == 0x74 {
        EscResult::Act(Action::WindowOp(param(ps, 0)))
    } else if f == 0x73 {
        EscResult::Act(Action::SaveCursor)
    } else if f == 0x75 {
        EscResult::Act(Action::RestoreCursor)
    } else {
        EscResult::Act(Action::Error)
    }
}

/// The action of a control sequence with final byte `f`, a private marker or not, and an
/// intermediate byte (0 for none).
pub open spec fn csi_result(private: bool, intermediate: u8, f: u8, ps: Seq<u32>) -> EscResult {
    let n = count_param(ps, 0);
    if intermediate == 0 && !private {
        csi_plain(f, ps)
    } else if intermediate == 0 && private {
        if f == 0x68 {
            EscResult::Act(Action::SetPrivateMode(param(ps, 0)))
        } else if f == 0x6c {
            EscResult::Act(Action::ResetPrivateMode(param(ps, 0)))
        } else if f == 0x4a {
            match erase_display_of(param(ps, 0)) {
                Some(w) => EscResult::Act(Action::EraseDisplay(w, true)),
                None => EscResult::Act(Action::Error),
            }
        } else if f == 0x4b {
            match erase_line_of(param(ps, 0)) {
                Some(w) => EscResult::Act(Action::EraseLine(w, true)),
                None => EscResult::Act(Action::Error),
            }
        } else {
            EscResult::Act(Action::Error)
        }
    } else if intermediate == 0x20 && f == 0x40 {
        EscResult::Act(Action::ScrollLeft(n))
    } else if intermediate == 0x20 && f == 0x41 {
        EscResult::Act(Action::ScrollRight(n))
    } else if intermediate == 0x27 && f == 0x7d {
        EscResult::Act(Action::InsertColumns(n))
    } else if intermediate == 0x27 && f == 0x7e {
        EscResult::Act(Action::DeleteColumns(n))
    } else if intermediate == 0x24 && f == 0x78 {
        EscResult::Act(Action::FillArea(param(ps, 0), rect_param(ps, 1)))
    } else if intermediate == 0x24 && f == 0x76 {
        EscResult::Act(
            Action::CopyArea(
                rect_param(ps, 0),
                param(ps, 4),
                Point { x: coord_param(ps, 6), y: coord_param(ps, 5) },
                param(ps, 7),
            ),
        )
    } else if intermediate == 0x24 && f == 0x7a {
        EscResult::Act(Action::EraseArea(rect_param(ps, 0), false))
    } else {
        EscResult::Act(Action::Error)
    }
}

/// At most this many parameters are kept; more are dropped.
pub open spec fn max_params() -> int {
    16
}

/// The parameters with `v` added where there is room.
pub open spec fn push_param(ps: Seq<u32>, v: u32) -> Seq<u32> {
    if ps.len() < max_params() {
        ps.push(v)
    } else {
        ps
    }
}

/// The parameter being read with digit `d` appended; it stays at `u32::MAX` once it would not
/// fit.
pub open spec fn with_digit(current: Option<u32>, d: u32) -> u32 {
    let c = match current {
        Some(c) => c as int,
        None => 0,
    };
    if c * 10 + d <= u32::MAX {
        (c * 10 + d) as u32
    } else {
        u32::MAX
    }
}

/// One byte read after an escape or inside a sequence: the next state and what it yields. A
/// control sequence is an escape, `[`, parameters (digits and `;`), a private marker, an
/// intermediate byte and a final byte. Operating system commands (escape `]`) and device
/// control strings (escape `P`) run up to a bell or an escape and are dropped; so are escapes
/// with an intermediate byte (character sets). A byte that fits none of these ends the
/// sequence unread.
pub open spec fn esc_step(e: EscView, b: u8) -> (EscView, EscResult) {
    if e.mode == 1 {
        if b == 0x5b {
            (csi_started(), EscResult::Nothing)
        } else if b == 0x5d || b == 0x50 {
            (EscView { mode: 3, ..escape_started() }, EscResult::Nothing)
        } else if 0x20 <= b <= 0x2f {
            (EscView { intermediate: b, ..e }, EscResult::Nothing)
        } else if e.intermediate != 0 {
            (ground_escape(), EscResult::Act(Action::Error))
        } else {
            (ground_escape(), EscResult::Act(esc_final(b)))
        }
    } else if e.mode == 2 {
        if 0x30 <= b <= 0x39 {
            (EscView { current: Some(with_digit(e.current, (b - 0x30) as u32)), ..e }, EscResult::Nothing)
        } else if b == 0x3b {
            (EscView {
                params: push_param(
                    e.params,
                    match e.current {
                        Some(c) => c,
                        None => 0,
                    },
                ),
                current: None,
                ..e
            }, EscResult::Nothing)
        } else if 0x3c <= b <= 0x3f {
            (EscView { private: true, ..e }, EscResult::Nothing)
        } else if 0x20 <= b <= 0x2f {
            (EscView { intermediate: b, ..e }, EscResult::Nothing)
        } else if 0x40 <= b <= 0x7e {
            let ps = if e.current is Some || e.params.len() > 0 {
                push_param(
                    e.params,
                    match e.current {
                        Some(c) => c,
                        None => 0,
                    },
                )
            } else {
                e.params
            };
            (ground_escape(), csi_result(e.private, e.intermediate, b, ps))
        } else {
            (ground_escape(), EscResult::Act(Action::Error))
        }
    } else if e.mode == 3 {
        if b == 0x07 {
            (ground_escape(), EscResult::Nothing)
        } else if b == 0x1b {
            (EscView { mode: 4, ..e }, EscResult::Nothing)
        } else {
            (e, EscResult::Nothing)
        }
    } else {
        (ground_escape(), EscResult::Nothing)
    }
}

/// The attribute change of a select-graphic-rendition parameter, if it names one.
pub open spec fn sgr_attribute(v: u32) -> Option<CharacterAttribute> {
    if v == 0 {
        Some(CharacterAttribute::Normal)
    } else if v == 1 {
        Some(CharacterAttribute::Bold)
    } else if v == 2 {
        Some(CharacterAttribute::Faint)
    } else if v == 3 {
        Some(CharacterAttribute::Italicized)
    } else if v == 4 {
        Some(CharacterAttribute::Underlined)
    } else if v == 5 {
        Some(CharacterAttribute::Blink)
    } else if v == 7 {
        Some(CharacterAttribute::Inverse)
    } else if v == 8 {
        Some(CharacterAttribute::Invisible)
    } else if v == 9 {
        Some(CharacterAttribute::CrossedOut)
    } else if v == 21 {
        Some(CharacterAttribute::DoublyUnderlined)
    } else if v == 22 {
        Some(CharacterAttribute::NotBoldFaint)
    } else if v == 23 {
        Some(CharacterAttribute::NotItalicized)
    } else if v == 24 {
        Some(CharacterAttribute::NotUnderlined)
    } else if v == 25 {
        Some(CharacterAttribute::Steady)
    } else if v == 27 {
        Some(CharacterAttribute::Positive)
    } else if v == 28 {
        Some(CharacterAttribute::Visible)
    } else if v == 29 {
        Some(CharacterAttribute::NotCrossedOut)
    } else if 30 <= v <= 37 {
        Some(CharacterAttribute::Foreground(basic_color((v - 30) as u32)))
    } else if v == 39 {
        Some(CharacterAttribute::Foreground(Color::Default))
    } else if 40 <= v <= 47 {
        Some(CharacterAttribute::Background(basic_color((v - 40) as u32)))
    } else if v == 49 {
        Some(CharacterAttribute::Background(Color::Default))
    } else if 90 <= v <= 97 {
        Some(CharacterAttribute::Foreground(bright_color((v - 90) as u32)))
    } else if 100 <= v <= 107 {
        Some(CharacterAttribute::Background(bright_color((v - 100) as u32)))
    } else {
        None
    }
}

/// The first eight colors.
pub open spec fn basic_color(k: u32) -> Color {
    if k == 0 {
        Color::Black
    } else if k == 1 {
        Color::Red
    } else if k == 2 {
        Color::Green
    } else if k == 3 {
        Color::Yellow
    } else if k == 4 {
        Color::Blue
    } else if k == 5 {
        Color::Magenta
    } else if k == 6 {
        Color::Cyan
    } else {
        Color::White
    }
}

/// The bright variants of the first eight colors.
pub open spec fn bright_color(k: u32) -> Color {
    if k == 0 {
        Color::Grey
    } else if k == 1 {
        Color::BrightRed
    } else if k == 2 {
        Color::BrightGreen
    } else if k == 3 {
        Color::BrightYellow
    } else if k == 4 {
        Color::BrightBlue
    } else if k == 5 {
        Color::BrightMagenta
    } else if k == 6 {
        Color::BrightCyan
    } else {
        Color::BrightWhite
    }
}

/// The attribute changes of select-graphic-rendition parameters, in order; unknown ones are
/// skipped, and an extended color (38 or 48) ends the list, as its parameters follow it.
pub open spec fn attributes_of(ps: Seq<u32>) -> Seq<CharacterAttribute>
    decreases ps.len(),
{
    if ps.len() == 0 {
        Seq::empty()
    } else if ps[0] == 38 || ps[0] == 48 {
        Seq::empty()
    } else {
        match sgr_attribute(ps[0]) {
            Some(a) => seq![a] + attributes_of(ps.drop_first()),
            None => attributes_of(ps.drop_first()),
        }
    }
}

/// The screen and the event after one byte of input. An escape starts a control sequence,
/// whose bytes are read until it ends; a byte whose action would exceed the limits of an index
/// only advances the reader.
pub open spec fn sv_add_byte(s: ScreenView, b: u8) -> (ScreenView, Event) {
    if s.escape.mode != 0 {
        let (e, r) = esc_step(s.escape, b);
        let s1 = ScreenView { escape: e, ..s };
        match r {
            EscResult::Nothing => (s1, Event::Ignore),
            EscResult::Act(a) => if action_fits(s1, a) {
                sv_apply(s1, a)
            } else {
                (s1, Event::Ignore)
            },
            EscResult::Attributes(ps) => (sv_attributes(s1, attributes_of(ps)), Event::Ignore),
        }
    } else if s.decoder.needed == 0 && b == 0x1b {
        (ScreenView { escape: escape_started(), ..s }, Event::Ignore)
    } else {
        let (d, a) = decode_step(s.decoder, b);
        let s1 = ScreenView { decoder: d, ..s };
        if action_fits(s1, a) {
            sv_apply(s1, a)
        } else {
            (s1, Event::Ignore)
        }
    }
}

/// What a byte of a control sequence yields.
pub enum EscOutcome {
    Nothing,
    Act(Action),
    Attributes(Vec<u32>),
}

impl View for EscOutcome {
    type V = EscResult;

    open spec fn view(&self) -> EscResult {
        match self {
            EscOutcome::Nothing => EscResult::Nothing,
            EscOutcome::Act(a) => EscResult::Act(*a),
            EscOutcome::Attributes(v) => EscResult::Attributes(v@),
        }
    }
}

/// The parameter at position `i`; 0 where it is missing.
fn param_exec(ps: &Vec<u32>, i: usize) -> (r: u32)
    ensures
        r == param(ps@, i as int),
{
    if i < ps.len() {
        ps[i]
    } else {
        0
    }
}

/// A count parameter: a missing or zero one counts as 1.
fn count_param_exec(ps: &Vec<u32>, i: usize) -> (r: u32)
    ensures
        r == count_param(ps@, i as int),
{
    let p = param_exec(ps, i);
    if p == 0 {
        1
    } else {
        p
    }
}

/// A position parameter, counted from 1, as an index counted from 0.
fn index_param_exec(ps: &Vec<u32>, i: usize) -> (r: u32)
    ensures
        r == index_param(ps@, i as int),
{
    count_param_exec(ps, i) - 1
}

/// A position parameter as a coordinate.
fn coord_param_exec(ps: &Vec<u32>, i: usize) -> (r: isize)
    ensures
        r == coord_param(ps@, i as int),
{
    index_param_exec(ps, i) as isize
}

/// The last row or column of a rectangle.
fn end_coord_param_exec(ps: &Vec<u32>, i: usize) -> (r: isize)
    ensures
        r == end_coord_param(ps@, i as int),
{
    if param_exec(ps, i) == 0 {
        0x7fff_ffff
    } else {
        coord_param_exec(ps, i)
    }
}

/// The rectangle of the parameters top, left, bottom, right from position `i` on.
fn rect_param_exec(ps: &Vec<u32>, i: usize) -> (r: Rectangle)
    requires
        i + 3 <= usize::MAX,
    ensures
        r == rect_param(ps@, i as int),
{
    Rectangle {
        start: Point { x: coord_param_exec(ps, i + 1), y: coord_param_exec(ps, i) },
        end: Point { x: end_coord_param_exec(ps, i + 3), y: end_coord_param_exec(ps, i + 2) },
    }
}

/// The action of an escape followed by `b`.
fn esc_final_exec(b: u8) -> (a: Action)
    ensures
        a == esc_final(b),
{
    if b == 0x46 {
        Action::CursorLowerLeft
    } else if b == 0x45 {
        Action::NextLine
    } else if b == 0x44 {
        Action::Index
    } else if b == 0x4d {
        Action::ReverseIndex
    } else if b == 0x36 {
        Action::DecBackIndex
    } else if b == 0x39 {
        Action::DecForwardIndex
    } else if b == 0x37 {
        Action::SaveCursor
    } else if b == 0x38 {
        Action::RestoreCursor
    } else if b == 0x3d {
        Action::DecApplicationKeypad(true)
    } else if b == 0x3e {
        Action::DecApplicationKeypad(false)
    } else {
        Action::Error
    }
}

/// The part of the display of an erase-display parameter.
fn erase_display_exec(p: u32) -> (r: Option<EraseDisplay>)
    ensures
        r == erase_display_of(p),
{
    if p == 0 {
        Some(EraseDisplay::Below)
    } else if p == 1 {
        Some(EraseDisplay::Above)
    } else if p == 2 {
        Some(EraseDisplay::All)
    } else if p == 3 {
        Some(EraseDisplay::Saved)
    } else {
        None
    }
}

/// The part of the row of an erase-line parameter.
fn erase_line_exec(p: u32) -> (r: Option<EraseLine>)
    ensures
        r == erase_line_of(p),
{
    if p == 0 {
        Some(EraseLine::Right)
    } else if p == 1 {
        Some(EraseLine::Left)
    } else if p == 2 {
        Some(EraseLine::All)
    } else {
        None
    }
}

/// The action of a plain control sequence with final byte `f`.
fn csi_plain_exec(f: u8, ps: Vec<u32>) -> (r: EscOutcome)
    ensures
        r@ == csi_plain(f, ps@),
{
    let n = count_param_exec(&ps, 0);
    if f == 0x41 {
        EscOutcome::Act(Action::CursorUp(n))
    } else if f == 0x42 {
        EscOutcome::Act(Action::CursorDown(n))
    } else if f == 0x43 {
        EscOutcome::Act(Action::CursorForward(n))
    } else if f == 0x44 {
        EscOutcome::Act(Action::CursorBackward(n))
    } else if f == 0x45 {
        EscOutcome::Act(Action::CursorNextLine(n))
    } else if f == 0x46 {
        EscOutcome::Act(Action::CursorPrevLine(n))
    } else if f == 0x47 || f == 0x60 {
        EscOutcome::Act(Action::CursorAbsoluteColumn(index_param_exec(&ps, 0)))
    } else if f == 0x48 || f == 0x66 {
        EscOutcome::Act(Action::CursorAbsolutePosition(index_param_exec(&ps, 0), index_param_exec(&ps, 1)))
    } else if f == 0x64 {
        EscOutcome::Act(Action::VerticalPositionAbsolute(index_param_exec(&ps, 0)))
    } else if f == 0x65 {
        EscOutcome::Act(Action::VerticalPositionRelative(n))
    } else if f == 0x61 {
        EscOutcome::Act(Action::HorizontalMove(n))
    } else if f == 0x53 {
        EscOutcome::Act(Action::ScrollUp(n))
    } else if f == 0x54 {
        EscOutcome::Act(Action::ScrollDown(n))
    } else if f == 0x4c {
        EscOutcome::Act(Action::InsertLines(n))
    } else if f == 0x4d {
        EscOutcome::Act(Action::DeleteLines(n))
    } else if f == 0x40 {
        EscOutcome::Act(Action::InsertCharacters(n))
    } else if f == 0x50 {
        EscOutcome::Act(Action::DeleteCharacters(n))
    } else if f == 0x58 {
        EscOutcome::Act(Action::EraseCharacters(n))
    } else if f == 0x62 {
        EscOutcome::Act(Action::RepeatCharacter(n))
    } else if f == 0x4a {
        match erase_display_exec(param_exec(&ps, 0)) {
            Some(w) => EscOutcome::Act(Action::EraseDisplay(w, false)),
            None => EscOutcome::Act(Action::Error),
        }
    } else if f == 0x4b {
        match erase_line_exec(param_exec(&ps, 0)) {
            Some(w) => EscOutcome::Act(Action::EraseLine(w, false)),
            None => EscOutcome::Act(Action::Error),
        }
    } else if f == 0x6d {
        if ps.len() == 0 {
            let v: Vec<u32> = vec![0u32];
            proof {
                assert(v@ =~= seq![0u32]);
            }
            EscOutcome::Attributes(v)
        } else {
            EscOutcome::Attributes(ps)
        }
    } else if f == 0x72 {
        if param_exec(&ps, 0) != 0 && param_exec(&ps, 1) != 0 {
            EscOutcome::Act(Action::ScrollRegion(Some(RowRange { start: coord_param_exec(&ps, 0), end: coord_param_exec(&ps, 1) })))
        } else {
            EscOutcome::Act(Action::ScrollRegion(None))
        }
    } else if f == 0x68 {
        EscOutcome::Act(Action::SetMode(param_exec(&ps, 0)))
    } else if f == 0x6c {
        EscOutcome::Act(Action::ResetMode(param_exec(&ps, 0)))
    } else if f == 0x74 {
        EscOutcome::Act(Action::WindowOp(param_exec(&ps, 0)))
    } else if f == 0x73 {
        EscOutcome::Act(Action::SaveCursor)
    } else if f == 0x75 {
        EscOutcome::Act(Action::RestoreCursor)
    } else {
        EscOutcome::Act(Action::Error)
    }
}

/// The action of a control sequence with final byte `f`.
fn csi_outcome(private: bool, intermediate: u8, f: u8, ps: Vec<u32>) -> (r: EscOutcome)
    ensures
        r@ == csi_result(private, intermediate, f, ps@),
{
    let n = count_param_exec(&ps, 0);
    if intermediate == 0 && !private {
        csi_plain_exec(f, ps)
    } else if intermediate == 0 && private {
        if f == 0x68 {
            EscOutcome::Act(Action::SetPrivateMode(param_exec(&ps, 0)))
        } else if f == 0x6c {
            EscOutcome::Act(Action::ResetPrivateMode(param_exec(&ps, 0)))
        } else if f == 0x4a {
            match erase_display_exec(param_exec(&ps, 0)) {
                Some(w) => EscOutcome::Act(Action::EraseDisplay(w, true)),
                None => EscOutcome::Act(Action::Error),
            }
        } else if f == 0x4b {
            match erase_line_exec(param_exec(&ps, 0)) {
                Some(w) => EscOutcome::Act(Action::EraseLine(w, true)),
                None => EscOutcome::Act(Action::Error),
            }
        } else {
            EscOutcome::Act(Action::Error)
        }
    } else if intermediate == 0x20 && f == 0x40 {
        EscOutcome::Act(Action::ScrollLeft(n))
    } else if intermediate == 0x20 && f == 0x41 {
        EscOutcome::Act(Action::ScrollRight(n))
    } else if intermediate == 0x27 && f == 0x7d {
        EscOutcome::Act(Action::InsertColumns(n))
    } else if intermediate == 0x27 && f == 0x7e {
        EscOutcome::Act(Action::DeleteColumns(n))
    } else if intermediate == 0x24 && f == 0x78 {
        EscOutcome::Act(Action::FillArea(param_exec(&ps, 0), rect_param_exec(&ps, 1)))
    } else if intermediate == 0x24 && f == 0x76 {
        EscOutcome::Act(
            Action::CopyArea(
                rect_param_exec(&ps, 0),
                param_exec(&ps, 4),
                Point { x: coord_param_exec(&ps, 6), y: coord_param_exec(&ps, 5) },
                param_exec(&ps, 7),
            ),
        )
    } else if intermediate == 0x24 && f == 0x7a {
        EscOutcome::Act(Action::EraseArea(rect_param_exec(&ps, 0), false))
    } else {
        EscOutcome::Act(Action::Error)
    }
}

/// The first eight colors.
fn basic_color_exec(k: u32) -> (c: Color)
    ensures
        c == basic_color(k),
{
    if k == 0 {
        Color::Black
    } else if k == 1 {
        Color::Red
    } else if k == 2 {
        Color::Green
    } else if k == 3 {
        Color::Yellow
    } else if k == 4 {
        Color::Blue
    } else if k == 5 {
        Color::Magenta
    } else if k == 6 {
        Color::Cyan
    } else {
        Color::White
    }
}

/// The bright variants of the first eight colors.
fn bright_color_exec(k: u32) -> (c: Color)
    ensures
        c == bright_color(k),
{
    if k == 0 {
        Color::Grey
    } else if k == 1 {
        Color::BrightRed
    } else if k == 2 {
        Color::BrightGreen
    } else if k == 3 {
        Color::BrightYellow
    } else if k == 4 {
        Color::BrightBlue
    } else if k == 5 {
        Color::BrightMagenta
    } else if k == 6 {
        Color::BrightCyan
    } else {
        Color::BrightWhite
    }
}

/// The attribute change of a select-graphic-rendition parameter.
fn sgr_attribute_exec(v: u32) -> (r: Option<CharacterAttribute>)
    ensures
        r == sgr_attribute(v),
{
    if v == 0 {
        Some(CharacterAttribute::Normal)
    } else if v == 1 {
        Some(CharacterAttribute::Bold)
    } else if v == 2 {
        Some(CharacterAttribute::Faint)
    } else if v == 3 {
        Some(CharacterAttribute::Italicized)
    } else if v == 4 {
        Some(CharacterAttribute::Underlined)
    } else if v == 5 {
        Some(CharacterAttribute::Blink)
    } else if v == 7 {
        Some(CharacterAttribute::Inverse)
    } else if v == 8 {
        Some(CharacterAttribute::Invisible)
    } else if v == 9 {
        Some(CharacterAttribute::CrossedOut)
    } else if v == 21 {
        Some(CharacterAttribute::DoublyUnderlined)
    } else if v == 22 {
        Some(CharacterAttribute::NotBoldFaint)
    } else if v == 23 {
        Some(CharacterAttribute::NotItalicized)
    } else if v == 24 {
        Some(CharacterAttribute::NotUnderlined)
    } else if v == 25 {
        Some(CharacterAttribute::Steady)
    } else if v == 27 {
        Some(CharacterAttribute::Positive)
    } else if v == 28 {
        Some(CharacterAttribute::Visible)
    } else if v == 29 {
        Some(CharacterAttribute::NotCrossedOut)
    } else if 30 <= v && v <= 37 {
        Some(CharacterAttribute::Foreground(basic_color_exec(v - 30)))
    } else if v == 39 {
        Some(CharacterAttribute::Foreground(Color::Default))
    } else if 40 <= v && v <= 47 {
        Some(CharacterAttribute::Background(basic_color_exec(v - 40)))
    } else if v == 49 {
        Some(CharacterAttribute::Background(Color::Default))
    } else if 90 <= v && v <= 97 {
        Some(CharacterAttribute::Foreground(bright_color_exec(v - 90)))
    } else if 100 <= v && v <= 107 {
        Some(CharacterAttribute::Background(bright_color_exec(v - 100)))
    } else {
        None
    }
}

/// The attribute changes of select-graphic-rendition parameters.
fn attributes_of_exec(ps: &Vec<u32>) -> (r: Vec<CharacterAttribute>)
    ensures
        r@ == attributes_of(ps@),
{
    let mut r: Vec<CharacterAttribute> = Vec::new();
    let mut i: usize = 0;
    proof {
        assert(ps@.skip(0) =~= ps@);
        assert(r@ + attributes_of(ps@.skip(0)) =~= attributes_of(ps@));
    }
    while i < ps.len()
        invariant
            i <= ps@.len(),
            r@ + attributes_of(ps@.skip(i as int)) == attributes_of(ps@),
        decreases ps@.len() - i,
    {
        let ghost rest = ps@.skip(i as int);
        proof {
            assert(rest[0] == ps@[i as int]);
            assert(rest.drop_first() =~= ps@.skip(i + 1));
        }
        let v = ps[i];
        if v == 38 || v == 48 {
            proof {
                assert(r@ + Seq::<CharacterAttribute>::empty() =~= r@);
            }
            return r;
        }
        let ghost before = r@;
        match sgr_attribute_exec(v) {
            Some(a) => {
                r.push(a);
                proof {
                    assert(before + (seq![a] + attributes_of(ps@.skip(i + 1))) =~= r@ + attributes_of(ps@.skip(i + 1)));
                }
            },
            None => {},
        }
        i = i + 1;
    }
    proof {
        assert(ps@.skip(i as int) =~= Seq::<u32>::empty());
        assert(r@ + Seq::<CharacterAttribute>::empty() =~= r@);
    }
    r
}

impl EscState {
    /// A copy of the state.
    fn duplicate(&self) -> (e: EscState)
        ensures
            e@ == self@,
    {
        let params = self.params.clone();
        proof {
            assert(params@ =~= self.params@);
        }
        EscState { mode: self.mode, params, current: self.current, private: self.private, intermediate: self.intermediate }
    }

    /// Back to plain text.
    fn to_ground(&mut self)
        ensures
            final(self)@ == ground_escape(),
    {
        self.mode = 0;
        self.params = Vec::new();
        self.current = None;
        self.private = false;
        self.intermediate = 0;
        proof {
            assert(self@.params =~= Seq::<u32>::empty());
        }
    }

    /// Start reading after an escape.
    fn start(&mut self)
        ensures
            final(self)@ == escape_started(),
    {
        self.to_ground();
        self.mode = 1;
    }

    /// The parameters with the one being read added where there is room.
    fn push_current(&mut self)
        ensures
            final(self)@ == (EscView {
                params: push_param(
                    old(self)@.params,
                    match old(self)@.current {
                        Some(c) => c,
                        None => 0,
                    },
                ),
                current: None,
                ..old(self)@
            }),
    {
        let v = match self.current {
            Some(c) => c,
            None => 0,
        };
        if self.params.len() < 16 {
            self.params.push(v);
        }
        self.current = None;
    }

    /// Read one byte after an escape or inside a sequence.
    fn step(&mut self, b: u8) -> (r: EscOutcome)
        requires
            old(self)@.mode != 0,
        ensures
            (final(self)@, r@) == esc_step(old(self)@, b),
    {
        if self.mode == 1 {
            if b == 0x5b {
                self.to_ground();
                self.mode = 2;
                EscOutcome::Nothing
            } else if b == 0x5d || b == 0x50 {
                self.to_ground();
                self.mode = 3;
                EscOutcome::Nothing
            } else if 0x20 <= b && b <= 0x2f {
                self.intermediate = b;
                EscOutcome::Nothing
            } else if self.intermediate != 0 {
                self.to_ground();
                EscOutcome::Act(Action::Error)
            } else {
                self.to_ground();
                EscOutcome::Act(esc_final_exec(b))
            }
        } else if self.mode == 2 {
            if 0x30 <= b && b <= 0x39 {
                let d = (b - 0x30) as u32;
                let c = match self.current {
                    Some(c) => c,
                    None => 0,
                };
                let v = if c <= (u32::MAX - d) / 10 {
                    c * 10 + d
                } else {
                    u32::MAX
                };
                self.current = Some(v);
                EscOutcome::Nothing
            } else if b == 0x3b {
                self.push_current();
                EscOutcome::Nothing
            } else if 0x3c <= b && b <= 0x3f {
                self.private = true;
                EscOutcome::Nothing
            } else if 0x20 <= b && b <= 0x2f {
                self.intermediate = b;
                EscOutcome::Nothing
            } else if 0x40 <= b && b <= 0x7e {
                if self.current.is_some() || self.params.len() > 0 {
                    self.push_current();
                }
                let private = self.private;
                let intermediate = self.intermediate;
                let mut ps: Vec<u32> = Vec::new();
                std::mem::swap(&mut ps, &mut self.params);
                self.to_ground();
                csi_outcome(private, intermediate, b, ps)
            } else {
                self.to_ground();
                EscOutcome::Act(Action::Error)
            }
        } else if self.mode == 3 {
            if b == 0x07 {
                self.to_ground();
            } else if b == 0x1b {
                self.mode = 4;
            }
            EscOutcome::Nothing
        } else {
            self.to_ground();
            EscOutcome::Nothing
        }
    }
}

/// The screen after the bytes of `bs`, and the first event other than a new line, a carriage
/// return or nothing, which stops the input.
pub open spec fn sv_add_bytes(s: ScreenView, bs: Seq<u8>) -> (ScreenView, Result<(), Event>)
    decreases bs.len(),
{
    if bs.len() == 0 {
        (s, Ok(()))
    } else {
        let (s1, e) = sv_add_byte(s, bs[0]);
        match e {
            Event::Ignore => sv_add_bytes(s1, bs.drop_first()),
            Event::Cr => sv_add_bytes(s1, bs.drop_first()),
            Event::NewLine => sv_add_bytes(s1, bs.drop_first()),
            _ => (s1, Err(e)),
        }
    }
}


/// Cell (x, j) after rows `at..=en` scroll down by `k`: the top `k` rows from `at` on are
/// fresh.
pub open spec fn scroll_down_cell(m: MatrixView, en: int, at: int, k: int, fill: Cell, x: int, j: int) -> Cell {
    if at <= j < at + k {
        fill
    } else if at + k <= j <= en {
        cell_at(m, x, j - k)
    } else {
        cell_at(m, x, j)
    }
}

/// The screen after scrolling the rows from `at` to the end of the scroll region down by `n`.
pub open spec fn sv_scroll_down(s: ScreenView, at: int, n: int) -> ScreenView {
    let (st, en, _lim) = scroll_region_of(s);
    let k = scroll_amount(st, en, n);
    let m = s.matrix;
    let fill = blank_cell(s.colors);
    if k >= 1 {
        ScreenView {
            matrix: matrix_from(m.width, m.height, |x: int, j: int| scroll_down_cell(m, en, at, k, fill, x, j)),
            ..s
        }
    } else {
        s
    }
}

/// The screen after the cursor moves up `n` rows, scrolling down where it leaves a limited
/// scroll region.
pub open spec fn sv_move_up_and_scroll(s: ScreenView, n: int) -> ScreenView {
    let y1 = s.cursor.1 - n;
    let s1 = ScreenView { cursor: (s.cursor.0, y1), ..s };
    let (st, _en, lim) = scroll_region_of(s1);
    if lim && y1 < st {
        let k = st - y1;
        ScreenView { cursor: (s.cursor.0, y1 + k), ..sv_scroll_down(s1, st, k) }
    } else {
        s1
    }
}


fn initial_colors_value() -> (c: Colors)
    ensures
        c == initial_colors(),
{
    Colors { foreground: 1, background: 0 }
}

impl Cursor {
    fn new() -> (c: Self)
        ensures
            c.x == 0 && c.y == 0,
    {
        Self { x: 0, y: 0 }
    }
}

impl Screen {
    /// The height of a screen's matrix is an `isize`.
    pub proof fn lemma_height_fits(&self)
        ensures
            self@.matrix.height <= isize::MAX,
    {
        self.matrix.lemma_height_fits();
    }
}

impl Screen {
    /// A new, empty screen.
    pub fn new() -> (s: Self)
        ensures
            screen_wf(s@),
            s@.matrix == (MatrixView { width: 0, height: 0, cells: Seq::empty() }),
            s@.cursor == (0int, 0int),
            s@.saved_cursor == (0int, 0int),
            s@.attributes == 0,
            s@.colors == initial_colors(),
            !s@.fixed_size,
            s@.last_char == ' ',
            s@.scroll_region is None,
            s@.decoder == (Utf8State { needed: 0, value: 0 }),
            s@.escape == ground_escape(),
    {
        Self::new_from_matrix(Matrix::new())
    }

    /// A new screen that shows the given matrix.
    pub fn new_from_matrix(matrix: Matrix) -> (s: Self)
        requires
            matrix_wf(matrix@),
        ensures
            screen_wf(s@),
            s@.matrix == matrix@,
            s@.cursor == (0int, 0int),
            s@.saved_cursor == (0int, 0int),
            s@.attributes == 0,
            s@.colors == initial_colors(),
            !s@.fixed_size,
            s@.last_char == ' ',
            s@.scroll_region is None,
            s@.decoder == (Utf8State { needed: 0, value: 0 }),
            s@.escape == ground_escape(),
    {
        let escape = EscState { mode: 0, params: Vec::new(), current: None, private: false, intermediate: 0 };
        proof {
            assert(escape@.params =~= Seq::<u32>::empty());
        }
        Self {
            escape,
            matrix,
            cursor: Cursor::new(),
            saved_cursor: Cursor::new(),
            attributes: Attributes::empty(),
            colors: initial_colors_value(),
            decoder: Utf8State { needed: 0, value: 0 },
            fixed_size: false,
            last_char: ' ',
            scroll_region: None,
        }
    }

    /// Width of the matrix.
    pub fn width(&self) -> (w: isize)
        ensures
            w == self@.matrix.width,
    {
        self.matrix.width
    }

    /// Height of the matrix.
    pub fn height(&self) -> (h: isize)
        ensures
            h == self@.matrix.height,
    {
        self.matrix.height
    }

    /// Cursor position, x coordinate.
    pub fn cursor_x(&self) -> (x: isize)
        ensures
            x == self@.cursor.0,
    {
        self.cursor.x
    }

    /// Cursor position, y coordinate.
    pub fn cursor_y(&self) -> (y: isize)
        ensures
            y == self@.cursor.1,
    {
        self.cursor.y
    }

    /// Place the cursor; on a fixed-size screen it stays inside.
    fn move_cursor_to(&mut self, x: isize, y: isize)
        requires
            screen_wf(old(self)@),
        ensures
            final(self)@ == sv_move_cursor_to(old(self)@, x as int, y as int),
    {
        if self.fixed_size {
            let w = self.matrix.width;
            let h = self.matrix.height;
            self.cursor.x = if x > w - 1 { w - 1 } else if x < 0 { 0 } else { x };
            self.cursor.y = if y > h - 1 { h - 1 } else if y < 0 { 0 } else { y };
        } else {
            self.cursor.x = x;
            self.cursor.y = y;
        }
    }

    /// Ensure that there is room to place a character at (x, y), and return that position in
    /// the grown matrix.
    pub fn make_room_for(&mut self, x: isize, y: isize) -> (r: (isize, isize))
        requires
            screen_wf(old(self)@),
            room_fits(old(self)@.matrix, x as int, y as int),
        ensures
            final(self)@ == sv_make_room_for(old(self)@, x as int, y as int),
            r.0 == x + grow_shift(old(self)@.matrix, x as int, y as int).0,
            r.1 == y + grow_shift(old(self)@.matrix, x as int, y as int).1,
            screen_wf(final(self)@),
    {
        let ghost m = self.matrix@;
        let ghost fill = blank_cell(self.colors);
        proof {
            lemma_grown(m, x as int, y as int, fill);
            lemma_span(m.width, x as int);
            lemma_span(m.height, y as int);
        }
        let w = self.matrix.width;
        let h = self.matrix.height;
        if x < 0 || x >= w || y < 0 || y >= h {
            proof {
                lemma_factor_bound(span_size(m.width, x as int), span_size(m.height, y as int));
            }
            let add_left: isize = if x < 0 { -x } else { 0 };
            let add_top: isize = if y < 0 { -y } else { 0 };
            let new_w: isize = if x < 0 { w - x } else if x >= w { x + 1 } else { w };
            let new_h: isize = if y < 0 { h - y } else if y >= h { y + 1 } else { h };
            let fill_cell = Cell::new(self.colors);
            let ghost l = add_left as int;
            let ghost t = add_top as int;
            let mut cells: Vec<Cell> = Vec::new();
            let mut j: isize = 0;
            while j < new_h
                invariant
                    matrix_wf(m),
                    m == self.matrix@,
                    fill_cell == fill,
                    w == m.width,
                    h == m.height,
                    new_w == span_size(m.width, x as int),
                    new_h == span_size(m.height, y as int),
                    l == add_left,
                    t == add_top,
                    0 <= add_left <= new_w,
                    0 <= add_top <= new_h,
                    new_w >= 1,
                    new_h >= 1,
                    new_w * new_h <= isize::MAX,
                    0 <= j <= new_h,
                    cells@.len() == j * new_w,
                    forall|a: int, b: int| 0 <= a < new_w && 0 <= b < j ==> #[trigger] cells@[cell_index(new_w as int, a, b)] == grow_cell(m, l, t, fill, a, b),
                decreases new_h - j,
            {
                let mut i: isize = 0;
                proof {
                    lemma_index_bounds(0, j as int, new_w as int, new_h as int);
                }
                while i < new_w
                    invariant
                        matrix_wf(m),
                        m == self.matrix@,
                        fill_cell == fill,
                        w == m.width,
                        h == m.height,
                        l == add_left,
                        t == add_top,
                        0 <= add_left <= new_w,
                        0 <= add_top <= new_h,
                        new_w >= 1,
                        new_h >= 1,
                        new_w * new_h <= isize::MAX,
                        0 <= j < new_h,
                        0 <= i <= new_w,
                        j * new_w + new_w <= new_w * new_h,
                        0 <= j * new_w,
                        cells@.len() == j * new_w + i,
                        forall|a: int, b: int| 0 <= a < new_w && 0 <= b < j ==> #[trigger] cells@[cell_index(new_w as int, a, b)] == grow_cell(m, l, t, fill, a, b),
                        forall|a: int| 0 <= a < i ==> #[trigger] cells@[cell_index(new_w as int, a, j as int)] == grow_cell(m, l, t, fill, a, j as int),
                    decreases new_w - i,
                {
                    let ox = i - add_left;
                    let oy = j - add_top;
                    let c = if 0 <= ox && ox < w && 0 <= oy && oy < h {
                        self.matrix.cell_at(ox, oy)
                    } else {
                        fill_cell
                    };
                    let ghost before = cells@;
                    cells.push(c);
                    proof {
                        assert(cells@[cell_index(new_w as int, i as int, j as int)] == c);
                        assert forall|a: int, b: int| 0 <= a < new_w && 0 <= b < j implies #[trigger] cells@[cell_index(new_w as int, a, b)] == grow_cell(m, l, t, fill, a, b) by {
                            lemma_index_bounds(a, b, new_w as int, j as int);
                            assert(cells@[cell_index(new_w as int, a, b)] == before[cell_index(new_w as int, a, b)]);
                        }
                        assert forall|a: int| 0 <= a < i + 1 implies #[trigger] cells@[cell_index(new_w as int, a, j as int)] == grow_cell(m, l, t, fill, a, j as int) by {
                            if a < i {
                                assert(cells@[cell_index(new_w as int, a, j as int)] == before[cell_index(new_w as int, a, j as int)]);
                            }
                        }
                    }
                    i = i + 1;
                }
                proof {
                    lemma_row_start(j as int, new_w as int);
                }
                j = j + 1;
            }
            proof {
                assert(new_h * new_w == new_w * new_h) by (nonlinear_arith);
                lemma_cells_match(cells@, new_w as int, new_h as int, |a: int, b: int| grow_cell(m, l, t, fill, a, b));
            }
            self.matrix.cells = cells;
            self.matrix.width = new_w;
            self.matrix.height = new_h;
            (x + add_left, y + add_top)
        } else {
            (x, y)
        }
    }
}


impl Screen {
    /// Ensure that there is room to insert a character at the cursor: a fixed-size screen
    /// moves the cursor inside, another screen grows around it.
    pub fn make_room(&mut self)
        requires
            screen_wf(old(self)@),
            cursor_room_fits(old(self)@),
        ensures
            final(self)@ == sv_make_room(old(self)@),
            screen_wf(final(self)@),
            inside(final(self)@.matrix, final(self)@.cursor.0, final(self)@.cursor.1),
    {
        if self.fixed_size {
            let w = self.matrix.width;
            let h = self.matrix.height;
            let x = self.cursor.x;
            let y = self.cursor.y;
            self.cursor.x = if x > w - 1 { w - 1 } else if x < 0 { 0 } else { x };
            self.cursor.y = if y > h - 1 { h - 1 } else if y < 0 { 0 } else { y };
        } else {
            let (x, y) = (self.cursor.x, self.cursor.y);
            proof {
                lemma_grown(self@.matrix, x as int, y as int, blank_cell(self.colors));
            }
            let (nx, ny) = self.make_room_for(x, y);
            self.cursor.x = nx;
            self.cursor.y = ny;
        }
    }

    /// The index of the cursor position into the cells.
    fn cursor_index(&self) -> (i: usize)
        requires
            screen_wf(self@),
            inside(self@.matrix, self@.cursor.0, self@.cursor.1),
        ensures
            i == cell_index(self@.matrix.width, self@.cursor.0, self@.cursor.1),
            i < self@.matrix.cells.len(),
    {
        self.matrix.cell_index(self.cursor.x, self.cursor.y) as usize
    }

    /// First and last row of the region to scroll, and whether scrolling is limited to it.
    fn determine_scroll_region(&self) -> (r: (isize, isize, bool))
        requires
            screen_wf(self@),
        ensures
            (r.0 as int, r.1 as int, r.2) == scroll_region_of(self@),
    {
        let h = self.matrix.height;
        match self.scroll_region {
            None => (0, h - 1, self.fixed_size),
            Some((start, end)) => {
                if 0 <= start && start < h && 0 <= end && end < h && start < end {
                    (start, end, true)
                } else {
                    (0, h - 1, true)
                }
            },
        }
    }

    /// Scroll the rows from `at_row` to the end of the scroll region up by `scroll_rows`, and
    /// fill the rows that come free at the bottom with fresh cells.
    fn scroll_up(&mut self, at_row: isize, scroll_rows: isize)
        requires
            screen_wf(old(self)@),
            ({
                let (st, en, _l) = scroll_region_of(old(self)@);
                scroll_amount(st, en, scroll_rows as int) >= 1 ==> st <= at_row <= en
            }),
        ensures
            final(self)@ == sv_scroll_up(old(self)@, at_row as int, scroll_rows as int),
            screen_wf(final(self)@),
    {
        let ghost s0 = self@;
        let ghost m = self@.matrix;
        let (start_row, end_row, _) = self.determine_scroll_region();
        let n = if scroll_rows < end_row + 1 - start_row { scroll_rows } else { end_row + 1 - start_row };
        if n >= 1 {
            let w = self.matrix.width;
            let mut src_row = if at_row <= end_row + 1 - n { at_row + n } else { end_row + 1 };
            while src_row < end_row + 1
                invariant
                    matrix_wf(m),
                    matrix_wf(self.matrix@),
                    self@ == (ScreenView { matrix: self@.matrix, ..s0 }),
                    self.matrix@.width == m.width,
                    self.matrix@.height == m.height,
                    0 <= start_row <= at_row <= end_row < m.height,
                    n >= 1,
                    at_row + n <= src_row || (at_row > end_row + 1 - n && src_row == end_row + 1),
                    src_row <= end_row + 1,
                    forall|x: int, j: int| 0 <= x < m.width && 0 <= j < m.height ==> #[trigger] cell_at(self.matrix@, x, j) == if at_row <= j < src_row - n && at_row <= end_row + 1 - n {
                        cell_at(m, x, j + n)
                    } else {
                        cell_at(m, x, j)
                    },
                decreases end_row + 1 - src_row,
            {
                let ghost before = self.matrix@;
                self.matrix.copy_row(src_row - n, src_row);
                src_row = src_row + 1;
            }
            let fill = Cell::new(self.colors);
            let mut dst_row = end_row + 1 - n;
            while dst_row < end_row + 1
                invariant
                    matrix_wf(m),
                    matrix_wf(self.matrix@),
                    self@ == (ScreenView { matrix: self@.matrix, ..s0 }),
                    self.matrix@.width == m.width,
                    self.matrix@.height == m.height,
                    w == m.width,
                    fill == blank_cell(s0.colors),
                    0 <= start_row <= at_row <= end_row < m.height,
                    n >= 1,
                    n <= end_row + 1 - start_row,
                    end_row + 1 - n <= dst_row <= end_row + 1,
                    forall|x: int, j: int| 0 <= x < m.width && 0 <= j < m.height ==> #[trigger] cell_at(self.matrix@, x, j) == if end_row + 1 - n <= j < dst_row {
                        fill
                    } else if at_row <= j <= end_row - n {
                        cell_at(m, x, j + n)
                    } else {
                        cell_at(m, x, j)
                    },
                decreases end_row + 1 - dst_row,
            {
                self.matrix.fill_row(dst_row, 0, w, fill);
                dst_row = dst_row + 1;
            }
            proof {
                lemma_matrix_is_from(
                    self.matrix@,
                    |x: int, j: int| scroll_up_cell(m, end_row as int, at_row as int, n as int, fill, x, j),
                );
            }
        }
    }
}


impl Screen {
    /// Ensure that the matrix has the cursor row, without changing its width.
    pub fn make_vertical_room(&mut self)
        requires
            screen_wf(old(self)@),
            vertical_room_fits(old(self)@),
        ensures
            final(self)@ == sv_make_vertical_room(old(self)@),
            screen_wf(final(self)@),
    {
        if !self.fixed_size {
            if self.matrix.width == 0 {
                let y = self.cursor.y;
                let h = self.matrix.height;
                if y < 0 || y >= h {
                    let new_h = if y < 0 { h - y } else { y + 1 };
                    self.matrix.height = new_h;
                    proof {
                        assert(0 * new_h == 0);
                    }
                }
            } else {
                let w1 = self.matrix.width - 1;
                let y = self.cursor.y;
                self.make_room_for(w1, y);
            }
        }
    }

    /// Move the cursor down `n` rows and scroll up where it leaves the scroll region.
    pub fn move_down_and_scroll(&mut self, n: isize)
        requires
            screen_wf(old(self)@),
            n >= 0,
            old(self)@.cursor.1 + n <= isize::MAX,
            old(self)@.matrix.height == 0 ==> old(self)@.cursor.1 + n < isize::MAX,
        ensures
            final(self)@ == sv_move_down_and_scroll(old(self)@, n as int),
            screen_wf(final(self)@),
    {
        if let Some((start_row, end_row)) = self.scroll_region {
            if self.cursor.y < start_row || self.cursor.y > end_row {
                let h = self.matrix.height;
                self.cursor.y = if self.cursor.y + n < h { self.cursor.y + n } else { h };
                return;
            }
        }
        self.cursor.y = self.cursor.y + n;
        let (start_row, end_row, limited) = self.determine_scroll_region();
        if limited && self.cursor.y > end_row {
            let k = self.cursor.y - end_row;
            self.scroll_up(start_row, k);
            self.cursor.y = self.cursor.y - k;
        }
    }

    /// End the line: make sure that the cursor row exists, then move the cursor to the start
    /// of the next row, scrolling where the screen is limited.
    pub fn new_line(&mut self)
        requires
            screen_wf(old(self)@),
            vertical_room_fits(old(self)@),
            old(self)@.cursor.1 < isize::MAX,
        ensures
            final(self)@ == sv_new_line(old(self)@),
            screen_wf(final(self)@),
    {
        self.make_vertical_room();
        proof {
            if !self@.fixed_size && self@.matrix.width > 0 {
                lemma_grown(old(self)@.matrix, old(self)@.matrix.width - 1, old(self)@.cursor.1, blank_cell(self@.colors));
            }
        }
        self.move_left_edge();
        self.move_down_and_scroll(1);
    }

    /// Place a character at the cursor and advance the cursor.
    pub fn place_char(&mut self, c: char)
        requires
            screen_wf(old(self)@),
            cursor_room_fits(old(self)@),
        ensures
            final(self)@ == sv_place_char(old(self)@, c),
            screen_wf(final(self)@),
    {
        let ghost s0 = self@;
        self.make_room();
        let idx = self.cursor_index();
        let cell = Cell { code_point: c, attributes: self.attributes.union(CHARDRAWN), colors: self.colors };
        self.matrix.set_index(idx, cell);
        self.cursor.x = self.cursor.x + 1;
        if self.fixed_size {
            if self.cursor.x == self.matrix.width {
                self.new_line();
            }
        }
    }

    /// Move the cursor to the left edge.
    pub fn move_left_edge(&mut self)
        ensures
            final(self)@ == (ScreenView { cursor: (0, old(self)@.cursor.1), ..old(self)@ }),
    {
        self.cursor.x = 0;
    }

    /// Move the cursor past the last column.
    pub fn move_right_edge(&mut self)
        ensures
            final(self)@ == (ScreenView { cursor: (old(self)@.matrix.width, old(self)@.cursor.1), ..old(self)@ }),
    {
        self.cursor.x = self.matrix.width;
    }

    /// Move the cursor to the top edge.
    pub fn move_top_edge(&mut self)
        ensures
            final(self)@ == (ScreenView { cursor: (old(self)@.cursor.0, 0), ..old(self)@ }),
    {
        self.cursor.y = 0;
    }

    /// Move the cursor past the last row.
    pub fn move_bottom_edge(&mut self)
        ensures
            final(self)@ == (ScreenView { cursor: (old(self)@.cursor.0, old(self)@.matrix.height), ..old(self)@ }),
    {
        self.cursor.y = self.matrix.height;
    }

    /// Move `n` cells to the right; a fixed-size screen stops at its edge.
    pub fn move_right(&mut self, n: isize)
        requires
            screen_wf(old(self)@),
            isize::MIN <= old(self)@.cursor.0 + n <= isize::MAX,
        ensures
            final(self)@ == sv_move_cursor_to(old(self)@, old(self)@.cursor.0 + n, old(self)@.cursor.1),
    {
        let c = self.cursor;
        self.move_cursor_to(c.x + n, c.y);
    }

    /// Move `n` cells to the left; a fixed-size screen stops at its edge.
    pub fn move_left(&mut self, n: isize)
        requires
            screen_wf(old(self)@),
            isize::MIN <= old(self)@.cursor.0 - n <= isize::MAX,
        ensures
            final(self)@ == sv_move_cursor_to(old(self)@, old(self)@.cursor.0 - n, old(self)@.cursor.1),
    {
        let c = self.cursor;
        self.move_cursor_to(c.x - n, c.y);
    }

    /// Move `n` rows down; a fixed-size screen stops at its edge.
    pub fn move_down(&mut self, n: isize)
        requires
            screen_wf(old(self)@),
            isize::MIN <= old(self)@.cursor.1 + n <= isize::MAX,
        ensures
            final(self)@ == sv_move_cursor_to(old(self)@, old(self)@.cursor.0, old(self)@.cursor.1 + n),
    {
        let c = self.cursor;
        self.move_cursor_to(c.x, c.y + n);
    }

    /// Move `n` rows up; a fixed-size screen stops at its edge.
    pub fn move_up(&mut self, n: isize)
        requires
            screen_wf(old(self)@),
            isize::MIN <= old(self)@.cursor.1 - n <= isize::MAX,
        ensures
            final(self)@ == sv_move_cursor_to(old(self)@, old(self)@.cursor.0, old(self)@.cursor.1 - n),
    {
        let c = self.cursor;
        self.move_cursor_to(c.x, c.y - n);
    }
}


impl Screen {
    /// Insert a blank cell at the cursor and move the rest of the row to the right.
    pub fn insert_character(&mut self)
        requires
            screen_wf(old(self)@),
            insert_char_fits(old(self)@),
        ensures
            final(self)@ == sv_insert_character(old(self)@),
            screen_wf(final(self)@),
    {
        let ghost s0 = self@;
        self.make_room();
        let y = self.cursor.y;
        let w = self.matrix.width;
        let last = self.matrix.cell_at(w - 1, y);
        if last.drawn() {
            proof {
                lemma_grown(self@.matrix, w as int, y as int, blank_cell(self.colors));
            }
            self.make_room_for(w, y);
        }
        let ghost m = self@.matrix;
        let x = self.cursor.x;
        self.matrix.shift_right_in_row(y, x, Cell::new(self.colors));
        proof {
            let fill = blank_cell(s0.colors);
            lemma_matrix_is_from(
                self@.matrix,
                |i: int, j: int|
                    if j == y && i == x {
                        fill
                    } else if j == y && i > x {
                        cell_at(m, i - 1, j)
                    } else {
                        cell_at(m, i, j)
                    },
            );
        }
    }

    /// Delete the character under the cursor and move the rest of the row to the left.
    pub fn delete_character(&mut self)
        requires
            screen_wf(old(self)@),
            cursor_room_fits(old(self)@),
        ensures
            final(self)@ == sv_delete_character(old(self)@),
            screen_wf(final(self)@),
    {
        let ghost s0 = self@;
        self.make_room();
        let ghost m = self@.matrix;
        let x = self.cursor.x;
        let y = self.cursor.y;
        self.matrix.shift_left_in_row(y, x, Cell::new(self.colors));
        proof {
            let fill = blank_cell(s0.colors);
            lemma_matrix_is_from(
                self@.matrix,
                |i: int, j: int|
                    if j == y && i == m.width - 1 {
                        fill
                    } else if j == y && x <= i {
                        cell_at(m, i + 1, j)
                    } else {
                        cell_at(m, i, j)
                    },
            );
        }
    }

    /// Delete the character left of the cursor.
    pub fn delete_left(&mut self)
        requires
            screen_wf(old(self)@),
            old(self)@.cursor.0 > 0 ==> cursor_room_fits(
                sv_move_cursor_to(old(self)@, old(self)@.cursor.0 - 1, old(self)@.cursor.1),
            ),
        ensures
            final(self)@ == if old(self)@.cursor.0 > 0 {
                sv_delete_character(sv_move_cursor_to(old(self)@, old(self)@.cursor.0 - 1, old(self)@.cursor.1))
            } else {
                old(self)@
            },
            screen_wf(final(self)@),
    {
        if self.cursor.x > 0 {
            self.move_left(1);
            self.delete_character();
        }
    }

    /// Insert a blank row below the cursor row.
    pub fn insert_row(&mut self)
        requires
            screen_wf(old(self)@),
            insert_row_fits(old(self)@),
        ensures
            final(self)@ == sv_insert_row(old(self)@),
            screen_wf(final(self)@),
    {
        let ghost s0 = self@;
        self.make_room();
        let ghost m = self@.matrix;
        let y = self.cursor.y;
        let w = self.matrix.width;
        let h = self.matrix.height;
        let fill = Cell::new(self.colors);
        self.matrix.append_row(fill);
        let mut r: isize = h;
        while r > y + 1
            invariant
                matrix_wf(m),
                matrix_wf(self.matrix@),
                self@ == (ScreenView { matrix: self@.matrix, ..sv_make_room(s0) }),
                self.matrix@.width == m.width,
                self.matrix@.height == m.height + 1,
                h == m.height,
                0 <= y < m.height,
                y + 1 <= r <= h,
                forall|i: int, j: int| 0 <= i < m.width && 0 <= j < m.height + 1 ==> #[trigger] cell_at(self.matrix@, i, j) == if j > r {
                    cell_at(m, i, j - 1)
                } else if j < m.height {
                    cell_at(m, i, j)
                } else {
                    fill
                },
            decreases r,
        {
            self.matrix.copy_row(r, r - 1);
            r = r - 1;
        }
        self.matrix.fill_row(y + 1, 0, w, fill);
        proof {
            lemma_matrix_is_from(
                self@.matrix,
                |i: int, j: int|
                    if j <= y {
                        cell_at(m, i, j)
                    } else if j == y + 1 {
                        fill
                    } else {
                        cell_at(m, i, j - 1)
                    },
            );
        }
    }

    /// Delete row `y`; the rows below move up.
    pub fn delete_row_at(&mut self, y: isize)
        requires
            screen_wf(old(self)@),
            cursor_room_fits(old(self)@),
            0 <= y < sv_make_room(old(self)@).matrix.height,
            old(self)@.fixed_size ==> old(self)@.matrix.height >= 2,
        ensures
            final(self)@ == sv_delete_row_at(old(self)@, y as int),
            screen_wf(final(self)@),
    {
        let ghost s0 = self@;
        self.make_room();
        let ghost m = self@.matrix;
        let h = self.matrix.height;
        let mut r: isize = y;
        while r + 1 < h
            invariant
                matrix_wf(m),
                matrix_wf(self.matrix@),
                self@ == (ScreenView { matrix: self@.matrix, ..sv_make_room(s0) }),
                self.matrix@.width == m.width,
                self.matrix@.height == m.height,
                h == m.height,
                0 <= y <= r < m.height,
                forall|i: int, j: int| 0 <= i < m.width && 0 <= j < m.height ==> #[trigger] cell_at(self.matrix@, i, j) == if y <= j < r {
                    cell_at(m, i, j + 1)
                } else {
                    cell_at(m, i, j)
                },
            decreases h - r,
        {
            self.matrix.copy_row(r, r + 1);
            r = r + 1;
        }
        self.matrix.drop_last_row();
        proof {
            lemma_matrix_is_from(
                self@.matrix,
                |i: int, j: int|
                    if j < y {
                        cell_at(m, i, j)
                    } else {
                        cell_at(m, i, j + 1)
                    },
            );
        }
    }

    /// Delete the cursor row.
    pub fn delete_row(&mut self)
        requires
            screen_wf(old(self)@),
            cursor_room_fits(old(self)@),
            0 <= old(self)@.cursor.1 < sv_make_room(old(self)@).matrix.height,
            old(self)@.fixed_size ==> old(self)@.matrix.height >= 2,
        ensures
            final(self)@ == sv_delete_row_at(old(self)@, old(self)@.cursor.1),
            screen_wf(final(self)@),
    {
        let y = self.cursor.y;
        self.delete_row_at(y);
    }

    /// Move the rest of the cursor row to a new row below, and the cursor to its start.
    pub fn break_line(&mut self)
        requires
            screen_wf(old(self)@),
            insert_row_fits(old(self)@),
        ensures
            final(self)@ == sv_break_line(old(self)@),
            screen_wf(final(self)@),
    {
        let ghost s0 = self@;
        self.insert_row();
        let ghost m = self@.matrix;
        let w = self.matrix.width;
        let x = self.cursor.x;
        let y = self.cursor.y;
        let n = w - x;
        let fill = Cell::new(self.colors);
        let mut i: isize = 0;
        while i < n
            invariant
                matrix_wf(m),
                matrix_wf(self.matrix@),
                self@ == (ScreenView { matrix: self@.matrix, ..sv_insert_row(s0) }),
                self.matrix@.width == m.width,
                self.matrix@.height == m.height,
                w == m.width,
                0 <= x < w,
                0 <= y,
                y + 1 < m.height,
                n == w - x,
                0 <= i <= n,
                fill == blank_cell(s0.colors),
                forall|a: int, j: int| 0 <= a < m.width && 0 <= j < m.height ==> #[trigger] cell_at(self.matrix@, a, j) == if j == y && x <= a < x + i {
                    fill
                } else if j == y + 1 && a < i {
                    cell_at(m, x + a, y as int)
                } else {
                    cell_at(m, a, j)
                },
            decreases n - i,
        {
            let old_cell = self.matrix.cell_at(x + i, y);
            self.matrix.put_cell(i, y + 1, old_cell);
            self.matrix.put_cell(x + i, y, fill);
            i = i + 1;
        }
        self.cursor.x = 0;
        self.cursor.y = y + 1;
        proof {
            lemma_matrix_is_from(
                self@.matrix,
                |a: int, j: int|
                    if j == y && a >= x {
                        fill
                    } else if j == y + 1 && a < m.width - x {
                        cell_at(m, x + a, y as int)
                    } else {
                        cell_at(m, a, j)
                    },
            );
        }
    }
}


impl Screen {
    /// Join the cursor row with the next row: the drawn part of the next row is appended to
    /// the drawn part of the cursor row, and the next row is deleted.
    pub fn join_next_line(&mut self)
        requires
            screen_wf(old(self)@),
            old(self)@.cursor.1 + 1 < old(self)@.matrix.height ==> join_fits(old(self)@),
            old(self)@.cursor.1 < isize::MAX,
        ensures
            final(self)@ == sv_join_next_line(old(self)@),
            screen_wf(final(self)@),
    {
        if self.cursor.y + 1 < self.matrix.height {
            let ghost s0 = self@;
            let y = self.cursor.y;
            let cur = self.matrix.compacted_row_slice(y).len();
            let nxt = self.matrix.compacted_row_slice(y + 1).len();
            proof {
                if self@.matrix.width > 0 {
                    lemma_compacted_len(row_of(self@.matrix, y as int));
                    lemma_compacted_len(row_of(self@.matrix, y + 1));
                    lemma_index_bounds(0, y as int, self@.matrix.width, self@.matrix.height);
                    lemma_index_bounds(0, y + 1, self@.matrix.width, self@.matrix.height);
                } else {
                    assert(y * self@.matrix.width == 0 && (y + 1) * self@.matrix.width == 0) by (nonlinear_arith)
                        requires
                            self@.matrix.width == 0,
                    ;
                    assert(row_of(self@.matrix, y as int) =~= Seq::<Cell>::empty());
                    assert(row_of(self@.matrix, y + 1) =~= Seq::<Cell>::empty());
                }
                lemma_grown(self@.matrix, cur + nxt, y as int, blank_cell(self.colors));
                lemma_span(self@.matrix.width, cur + nxt);
                lemma_span(self@.matrix.height, y as int);
                lemma_factor_bound(span_size(self@.matrix.width, cur + nxt), span_size(self@.matrix.height, y as int));
            }
            let total = (cur + nxt) as isize;
            self.make_room_for(total, y);
            let ghost m = self@.matrix;
            let ci = cur as isize;
            let ni = nxt as isize;
            let mut i: isize = 0;
            while i < ni
                invariant
                    matrix_wf(m),
                    matrix_wf(self.matrix@),
                    self@ == (ScreenView { matrix: self@.matrix, ..sv_make_room_for(s0, total as int, y as int) }),
                    self.matrix@.width == m.width,
                    self.matrix@.height == m.height,
                    0 <= y,
                    y + 1 < m.height,
                    total == ci + ni,
                    0 <= ci,
                    0 <= ni,
                    ci + ni < m.width,
                    0 <= i <= ni,
                    forall|a: int, j: int| 0 <= a < m.width && 0 <= j < m.height ==> #[trigger] cell_at(self.matrix@, a, j) == if j == y && ci <= a < ci + i {
                        cell_at(m, a - ci, y + 1)
                    } else {
                        cell_at(m, a, j)
                    },
                decreases ni - i,
            {
                let c = self.matrix.cell_at(i, y + 1);
                self.matrix.put_cell(ci + i, y, c);
                i = i + 1;
            }
            proof {
                lemma_matrix_is_from(
                    self@.matrix,
                    |a: int, j: int|
                        if j == y && ci <= a < ci + ni {
                            cell_at(m, a - ci, y + 1)
                        } else {
                            cell_at(m, a, j)
                        },
                );
            }
            self.delete_row_at(y + 1);
        }
    }
}


impl Screen {
    /// The characters of cells `start..end`, in order.
    fn collect_text(&self, start: usize, end: usize) -> (text: String)
        requires
            start <= end <= self@.matrix.cells.len(),
        ensures
            text@ == cells_text(self@.matrix.cells.subrange(start as int, end as int)),
    {
        let mut text = String::new();
        let mut current = start;
        while current < end
            invariant
                start <= current <= end <= self@.matrix.cells.len(),
                text@ == cells_text(self@.matrix.cells.subrange(start as int, current as int)),
            decreases end - current,
        {
            string_push(&mut text, self.matrix.cells[current].code_point);
            proof {
                assert(cells_text(self@.matrix.cells.subrange(start as int, current + 1)) =~= cells_text(
                    self@.matrix.cells.subrange(start as int, current as int),
                ).push(self@.matrix.cells[current as int].code_point));
            }
            current = current + 1;
        }
        text
    }

    /// The whole text on screen, each row followed by a line break.
    pub fn extract_text(&self) -> (text: String)
        requires
            screen_wf(self@),
        ensures
            text@ == rows_text(self@.matrix, self@.matrix.height),
    {
        let mut text = String::new();
        let mut y: isize = 0;
        while y < self.matrix.height
            invariant
                screen_wf(self@),
                0 <= y <= self@.matrix.height,
                text@ == rows_text(self@.matrix, y as int),
            decreases self@.matrix.height - y,
        {
            let line = self.matrix.compacted_row_slice(y);
            let mut i: usize = 0;
            let ghost before = text@;
            while i < line.len()
                invariant
                    i <= line@.len(),
                    text@ == before + cells_text(line@.take(i as int)),
                decreases line@.len() - i,
            {
                string_push(&mut text, line[i].code_point);
                proof {
                    assert(cells_text(line@.take(i + 1)) =~= cells_text(line@.take(i as int)).push(line@[i as int].code_point));
                }
                i = i + 1;
            }
            string_push(&mut text, '\n');
            proof {
                assert(line@.take(i as int) =~= line@);
            }
            y = y + 1;
        }
        text
    }

    /// The whole text on screen, rows separated by line breaks.
    pub fn extract_text_without_last_nl(&self) -> (text: String)
        requires
            screen_wf(self@),
        ensures
            text@ == rows_text_joined(self@.matrix, self@.matrix.height),
    {
        let mut text = String::new();
        let mut place_nl = false;
        let mut y: isize = 0;
        while y < self.matrix.height
            invariant
                screen_wf(self@),
                0 <= y <= self@.matrix.height,
                place_nl == (y > 0),
                text@ == rows_text_joined(self@.matrix, y as int),
            decreases self@.matrix.height - y,
        {
            let line = self.matrix.compacted_row_slice(y);
            if place_nl {
                string_push(&mut text, '\n');
            }
            place_nl = true;
            let mut i: usize = 0;
            let ghost before = text@;
            while i < line.len()
                invariant
                    i <= line@.len(),
                    text@ == before + cells_text(line@.take(i as int)),
                decreases line@.len() - i,
            {
                string_push(&mut text, line[i].code_point);
                proof {
                    assert(cells_text(line@.take(i + 1)) =~= cells_text(line@.take(i as int)).push(line@[i as int].code_point));
                }
                i = i + 1;
            }
            proof {
                assert(line@.take(i as int) =~= line@);
            }
            y = y + 1;
        }
        text
    }

    /// The text of the cursor row left of the cursor.
    pub fn text_before_cursor(&mut self) -> (text: String)
        requires
            screen_wf(old(self)@),
            cursor_room_fits(old(self)@),
        ensures
            final(self)@ == sv_make_room(old(self)@),
            text@ == cells_text(row_of(final(self)@.matrix, final(self)@.cursor.1).take(final(self)@.cursor.0)),
    {
        self.make_room();
        let start = self.matrix.cell_index(0, self.cursor.y) as usize;
        let end = self.cursor_index();
        let t = self.collect_text(start, end);
        proof {
            let m = self@.matrix;
            lemma_index_bounds(self@.cursor.0, self@.cursor.1, m.width, m.height);
            assert(m.cells.subrange(start as int, end as int) =~= row_of(m, self@.cursor.1).take(self@.cursor.0));
        }
        t
    }

    /// The index of the start of the word that ends at the cursor.
    fn index_word_before_cursor(&mut self) -> (i: usize)
        requires
            screen_wf(old(self)@),
            cursor_room_fits(old(self)@),
        ensures
            final(self)@ == sv_make_room(old(self)@),
            i == cell_index(final(self)@.matrix.width, word_start(row_of(final(self)@.matrix, final(self)@.cursor.1), final(self)@.cursor.0), final(self)@.cursor.1),
            0 <= word_start(row_of(final(self)@.matrix, final(self)@.cursor.1), final(self)@.cursor.0) <= final(self)@.cursor.0,
    {
        self.make_room();
        let start_index = self.matrix.cell_index(0, self.cursor.y) as usize;
        let cursor_index = self.cursor_index();
        let ghost m = self@.matrix;
        let ghost row = row_of(m, self@.cursor.1);
        let ghost x = self@.cursor.0;
        proof {
            lemma_index_bounds(x, self@.cursor.1, m.width, m.height);
        }
        let mut current = cursor_index;
        proof {
            lemma_word_start(row, x);
        }
        while current > start_index
            invariant
                self@ == sv_make_room(old(self)@),
                x == self@.cursor.0,
                row == row_of(m, self@.cursor.1),
                start_index == self@.cursor.1 * m.width,
                0 <= word_start(row, x) <= x,
                start_index <= current <= cursor_index,
                cursor_index == start_index + x,
                start_index + m.width <= m.cells.len(),
                m == self@.matrix,
                row == m.cells.subrange(start_index as int, start_index + m.width),
                0 <= x < m.width,
                word_start(row, x) == word_start(row, current - start_index),
            decreases current,
        {
            current = current - 1;
            assert(row[current - start_index] == m.cells[current as int]);
            if is_ascii_whitespace(self.matrix.cells[current].code_point) {
                current = current + 1;
                proof {
                    assert(word_start(row, current - start_index) == current - start_index);
                }
                return current;
            }
        }
        current
    }

    /// The word that ends at the cursor: the text after the last white space before it.
    pub fn word_before_cursor(&mut self) -> (text: String)
        requires
            screen_wf(old(self)@),
            cursor_room_fits(old(self)@),
        ensures
            final(self)@ == sv_make_room(old(self)@),
            text@ == cells_text(
                row_of(final(self)@.matrix, final(self)@.cursor.1).subrange(
                    word_start(row_of(final(self)@.matrix, final(self)@.cursor.1), final(self)@.cursor.0),
                    final(self)@.cursor.0,
                ),
            ),
    {
        let current = self.index_word_before_cursor();
        let cursor_index = self.cursor_index();
        let t = self.collect_text(current, cursor_index);
        proof {
            let m = self@.matrix;
            let y = self@.cursor.1;
            let k = word_start(row_of(m, y), self@.cursor.0);
            lemma_index_bounds(self@.cursor.0, y, m.width, m.height);
            assert(m.cells.subrange(current as int, cursor_index as int) =~= row_of(m, y).subrange(k, self@.cursor.0));
        }
        t
    }

    /// Erase the word that ends at the cursor and move the cursor to its start.
    pub fn delete_word_before_cursor(&mut self)
        requires
            screen_wf(old(self)@),
            cursor_room_fits(old(self)@),
        ensures
            final(self)@ == sv_delete_word_before_cursor(old(self)@),
            screen_wf(final(self)@),
    {
        let ghost s0 = self@;
        let current = self.index_word_before_cursor();
        let cell = self.clone_cell(' ');
        let ghost m = self@.matrix;
        let y = self.cursor.y;
        let x = self.cursor.x;
        let start_index = self.matrix.cell_index(0, y) as usize;
        let k = (current - start_index) as isize;
        proof {
            lemma_index_bounds(x as int, y as int, m.width, m.height);
        }
        self.matrix.fill_row(y, k, x, cell);
        self.cursor.x = k;
        proof {
            lemma_matrix_is_from(self@.matrix, |i: int, j: int| if j == y && k <= i < x { cell } else { cell_at(m, i, j) });
        }
    }

    /// A new cell with character `c` and the current colors and attributes.
    fn clone_cell(&self, c: char) -> (cell: Cell)
        ensures
            cell == (Cell { code_point: c, attributes: Attributes { bits: self@.attributes }, colors: self@.colors }),
    {
        Cell { code_point: c, colors: self.colors, attributes: self.attributes }
    }

    /// The cursor is right after the drawn part of its row.
    pub fn cursor_at_end_of_line(&self) -> (b: bool)
        requires
            screen_wf(self@),
        ensures
            b == (inside_rows(self@) && self@.cursor.0 == compacted_row_of(self@.matrix, self@.cursor.1).len()),
    {
        if 0 <= self.cursor.y && self.cursor.y < self.matrix.height {
            let line = self.matrix.compacted_row_slice(self.cursor.y);
            proof {
                lemma_compacted_row_len(self@.matrix, self@.cursor.1);
            }
            self.cursor.x == line.len() as isize
        } else {
            false
        }
    }

    /// The cursor is right after the drawn part of the last row.
    pub fn cursor_at_end(&self) -> (b: bool)
        requires
            screen_wf(self@),
            self@.cursor.1 + 1 == self@.matrix.height ==> (self@.matrix.width == 0 || 0 <= self@.cursor.1),
        ensures
            b == (self@.cursor.1 + 1 == self@.matrix.height && self@.cursor.0 == compacted_row_of(self@.matrix, self@.cursor.1).len()),
    {
        if self.cursor.y == self.matrix.height - 1 {
            let line = self.matrix.compacted_row_slice(self.cursor.y);
            proof {
                lemma_compacted_row_len(self@.matrix, self@.cursor.1);
            }
            self.cursor.x == line.len() as isize
        } else {
            false
        }
    }

    /// Move the cursor right after the drawn part of its row.
    pub fn move_end_of_line(&mut self)
        requires
            screen_wf(old(self)@),
        ensures
            final(self)@ == if inside_rows(old(self)@) {
                ScreenView {
                    cursor: (compacted_row_of(old(self)@.matrix, old(self)@.cursor.1).len() as int, old(self)@.cursor.1),
                    ..old(self)@
                }
            } else {
                old(self)@
            },
    {
        if 0 <= self.cursor.y && self.cursor.y < self.matrix.height {
            let line = self.matrix.compacted_row_slice(self.cursor.y);
            proof {
                lemma_compacted_row_len(self@.matrix, self@.cursor.1);
            }
            self.cursor.x = line.len() as isize;
        }
    }

    /// The matrix of this screen differs visibly from `other`.
    pub fn looks_different(&self, other: &Matrix) -> (b: bool)
        ensures
            b == !matrices_look_same(self@.matrix, other@),
    {
        !self.matrix.looks_same(other)
    }

    /// Fill a rectangle of the screen with a cell.
    pub fn fill_rect(&mut self, rect: Rectangle, cell: Cell)
        requires
            screen_wf(old(self)@),
            0 <= rect.start.x,
            rect.end.x < old(self)@.matrix.width,
            0 <= rect.start.y,
            rect.end.y < old(self)@.matrix.height,
        ensures
            final(self)@ == (ScreenView { matrix: filled_rect(old(self)@.matrix, rect, cell), ..old(self)@ }),
            screen_wf(final(self)@),
    {
        let ghost m = self@.matrix;
        let mut y = rect.start.y;
        while y <= rect.end.y
            invariant
                matrix_wf(m),
                self@ == (ScreenView { matrix: self@.matrix, ..old(self)@ }),
                m == old(self)@.matrix,
                matrix_wf(self@.matrix),
                self@.matrix.width == m.width,
                self@.matrix.height == m.height,
                0 <= rect.start.x,
                rect.end.x < m.width,
                0 <= rect.start.y <= y,
                rect.end.y < m.height,
                y <= rect.end.y + 1 || y == rect.start.y,
                forall|i: int, j: int| 0 <= i < m.width && 0 <= j < m.height ==> #[trigger] cell_at(self@.matrix, i, j)
                    == if rect.start.y <= j < y && rect.start.x <= i <= rect.end.x {
                    cell
                } else {
                    cell_at(m, i, j)
                },
            decreases rect.end.y + 1 - y,
        {
            self.matrix.fill_row(y, rect.start.x, rect.end.x + 1, cell);
            y = y + 1;
        }
        proof {
            let f = |i: int, j: int|
                if rect.start.y <= j <= rect.end.y && rect.start.x <= i <= rect.end.x {
                    cell
                } else {
                    cell_at(m, i, j)
                };
            assert forall|i: int, j: int| 0 <= i < self@.matrix.width && 0 <= j < self@.matrix.height implies #[trigger] cell_at(self@.matrix, i, j) == f(i, j) by {
            }
            lemma_matrix_is_from(self@.matrix, f);
        }
    }

    /// The matrix of the screen, which cannot be changed anymore.
    pub fn freeze(self) -> (m: Matrix)
        ensures
            m@ == self@.matrix,
    {
        self.matrix
    }

    /// Reset the screen to initial values.
    pub fn reset(&mut self)
        ensures
            final(self)@ == sv_reset(old(self)@),
            screen_wf(final(self)@),
    {
        self.matrix.reset();
        self.cursor = Cursor::new();
        self.attributes = Attributes::empty();
        self.colors = initial_colors_value();
        self.decoder = Utf8State { needed: 0, value: 0 };
        self.fixed_size = false;
    }

    /// Give the screen a fixed size: at least `nx` columns and `ny` rows.
    pub fn fixed_size(&mut self, nx: usize, ny: usize)
        requires
            screen_wf(old(self)@),
            1 <= nx <= isize::MAX,
            1 <= ny <= isize::MAX,
            room_fits(old(self)@.matrix, nx - 1, ny - 1),
        ensures
            final(self)@ == (ScreenView { fixed_size: true, ..sv_make_room_for(old(self)@, nx - 1, ny - 1) }),
            screen_wf(final(self)@),
    {
        proof {
            lemma_grown(self@.matrix, nx - 1, ny - 1, blank_cell(self.colors));
        }
        self.make_room_for((nx - 1) as isize, (ny - 1) as isize);
        self.fixed_size = true;
    }

    /// Place the characters of `s` one after the other.
    pub fn place_str(&mut self, s: &str)
        requires
            screen_wf(old(self)@),
            place_str_fits(old(self)@, s@),
        ensures
            final(self)@ == sv_place_str(old(self)@, s@),
            screen_wf(final(self)@),
    {
        let ghost s0 = self@;
        let chars = chars_of(s);
        let mut i: usize = 0;
        proof {
            assert(s@.skip(0) =~= s@);
        }
        while i < chars.len()
            invariant
                chars@ == s@,
                i <= chars@.len(),
                screen_wf(self@),
                place_str_fits(self@, s@.skip(i as int)),
                sv_place_str(self@, s@.skip(i as int)) == sv_place_str(s0, s@),
            decreases chars@.len() - i,
        {
            proof {
                assert(s@.skip(i as int)[0] == chars@[i as int]);
                assert(s@.skip(i as int).drop_first() =~= s@.skip(i + 1));
            }
            self.place_char(chars[i]);
            i = i + 1;
        }
        proof {
            assert(s@.skip(i as int) =~= Seq::<char>::empty());
        }
    }

    /// Insert the characters of `s` before the cursor.
    pub fn insert_str(&mut self, s: &str)
        requires
            screen_wf(old(self)@),
            insert_str_fits(old(self)@, s@),
        ensures
            final(self)@ == sv_insert_str(old(self)@, s@),
            screen_wf(final(self)@),
    {
        let ghost s0 = self@;
        let chars = chars_of(s);
        let mut i: usize = 0;
        proof {
            assert(s@.skip(0) =~= s@);
        }
        while i < chars.len()
            invariant
                chars@ == s@,
                i <= chars@.len(),
                screen_wf(self@),
                insert_str_fits(self@, s@.skip(i as int)),
                sv_insert_str(self@, s@.skip(i as int)) == sv_insert_str(s0, s@),
            decreases chars@.len() - i,
        {
            proof {
                assert(s@.skip(i as int)[0] == chars@[i as int]);
                assert(s@.skip(i as int).drop_first() =~= s@.skip(i + 1));
            }
            self.insert_character();
            self.place_char(chars[i]);
            i = i + 1;
        }
        proof {
            assert(s@.skip(i as int) =~= Seq::<char>::empty());
        }
    }

    /// Replace the whole screen by `s`; the cursor column stays if `stay_there` is set.
    pub fn replace(&mut self, s: &str, stay_there: bool)
        requires
            screen_wf(old(self)@),
            place_str_fits(sv_reset(old(self)@), s@),
        ensures
            final(self)@ == if stay_there {
                ScreenView { cursor: (old(self)@.cursor.0, sv_place_str(sv_reset(old(self)@), s@).cursor.1), ..sv_place_str(sv_reset(old(self)@), s@) }
            } else {
                sv_place_str(sv_reset(old(self)@), s@)
            },
            screen_wf(final(self)@),
    {
        let x = self.cursor.x;
        self.reset();
        self.place_str(s);
        if stay_there {
            self.cursor.x = x;
        }
    }

    /// The compacted rows, top to bottom.
    pub fn line_iter(&self) -> (r: Vec<&[Cell]>)
        requires
            screen_wf(self@),
        ensures
            r@.len() == self@.matrix.height,
            forall|y: int| 0 <= y < self@.matrix.height ==> (#[trigger] r@[y])@ == compacted_row_of(self@.matrix, y),
    {
        self.matrix.line_iter()
    }

    /// The rows without their last cell, top to bottom.
    pub fn line_iter_full(&self) -> (r: Vec<&[Cell]>)
        requires
            screen_wf(self@),
        ensures
            r@.len() == self@.matrix.height,
            forall|y: int| 0 <= y < self@.matrix.height && self@.matrix.width > 0 ==> (#[trigger] r@[y])@ == row_of(self@.matrix, y).drop_last(),
            forall|y: int| 0 <= y < self@.matrix.height && self@.matrix.width == 0 ==> (#[trigger] r@[y])@.len() == 0,
    {
        self.matrix.line_iter_full()
    }

    /// Row `row` without its last cell.
    pub fn row_slice(&self, row: isize) -> (r: &[Cell])
        requires
            screen_wf(self@),
            self@.matrix.width == 0 || 0 <= row < self@.matrix.height,
        ensures
            self@.matrix.width == 0 ==> r@.len() == 0,
            self@.matrix.width > 0 ==> r@ == row_of(self@.matrix, row as int).drop_last(),
    {
        self.matrix.row_slice(row)
    }

    /// Row `row` up to its last drawn cell.
    pub fn compacted_row_slice(&self, row: isize) -> (r: &[Cell])
        requires
            screen_wf(self@),
            self@.matrix.width == 0 || 0 <= row < self@.matrix.height,
        ensures
            r@ == compacted_row_of(self@.matrix, row as int),
    {
        self.matrix.compacted_row_slice(row)
    }
}

/// The coordinates of a copy fit an `isize`.
fn copy_fits_check(m: &Matrix, rect: Rectangle, p: Point) -> (b: bool)
    requires
        matrix_wf(m@),
    ensures
        b == copy_fits(m@, rect, p),
{
    let src = rect.clipped(&m.rectangle());
    match (p.x.checked_sub(src.start.x), p.y.checked_sub(src.start.y)) {
        (Some(dx), Some(dy)) => src.end.x.checked_add(dx).is_some() && src.end.y.checked_add(dy).is_some(),
        _ => false,
    }
}

/// A character code that fill-area draws.
fn fill_char_ok_exec(c: u32) -> (b: bool)
    ensures
        b == fill_char_ok(c),
{
    (0x20 <= c && c < 0x80) || (0xa1 <= c && c < 0xff)
}

/// A `u32` that fits an `isize`.
fn fits_isize(n: u32) -> (b: bool)
    ensures
        b == (n <= isize::MAX),
{
    n as usize <= isize::MAX as usize
}

/// `char::is_ascii_whitespace`.
fn is_ascii_whitespace(c: char) -> (b: bool)
    ensures
        b == is_ascii_ws(c),
{
    c == ' ' || c == '\t' || c == '\n' || c == '\x0C' || c == '\r'
}


/// `char::from_u32`: the character of a Unicode scalar value, or `None`.
#[verifier::external_body]
fn char_from_u32(v: u32) -> (r: Option<char>)
    ensures
        r == if is_scalar(v) {
            Some(v as char)
        } else {
            None
        },
{
    char::from_u32(v)
}

/// The size of a dimension grown to include `p`, or `None` where it exceeds an `isize`.
fn span_size_checked(size: isize, p: isize) -> (r: Option<isize>)
    requires
        0 <= size,
    ensures
        match r {
            Some(n) => n == span_size(size as int, p as int),
            None => span_size(size as int, p as int) > isize::MAX,
        },
{
    if p < 0 {
        size.checked_sub(p)
    } else if p >= size {
        p.checked_add(1)
    } else {
        Some(size)
    }
}

proof fn lemma_product_exceeds(a: int, b: int)
    requires
        a >= 1,
        b >= 1,
        a > isize::MAX || b > isize::MAX,
    ensures
        a * b > isize::MAX,
{
    assert(a * b >= a && a * b >= b) by (nonlinear_arith)
        requires
            a >= 1,
            b >= 1,
    ;
}

impl Screen {
    /// Growing the matrix to include (x, y) fits the limits of an index.
    pub fn room_fits_check(&self, x: isize, y: isize) -> (b: bool)
        requires
            screen_wf(self@),
        ensures
            b == room_fits(self@.matrix, x as int, y as int),
    {
        let w = self.matrix.width;
        let h = self.matrix.height;
        if 0 <= x && x < w && 0 <= y && y < h {
            return true;
        }
        proof {
            lemma_span(w as int, x as int);
            lemma_span(h as int, y as int);
        }
        match (span_size_checked(w, x), span_size_checked(h, y)) {
            (Some(a), Some(b)) => a.checked_mul(b).is_some(),
            (a, b) => {
                proof {
                    lemma_product_exceeds(span_size(w as int, x as int), span_size(h as int, y as int));
                }
                false
            },
        }
    }

    /// A copy of the screen.
    pub fn duplicate(&self) -> (s: Screen)
        ensures
            s@ == self@,
    {
        Screen {
            matrix: self.matrix.duplicate(),
            cursor: self.cursor,
            saved_cursor: self.saved_cursor,
            attributes: self.attributes,
            colors: self.colors,
            decoder: self.decoder,
            fixed_size: self.fixed_size,
            last_char: self.last_char,
            scroll_region: self.scroll_region,
            escape: self.escape.duplicate(),
        }
    }

    /// Inserting a character at the cursor fits the limits of an index.
    pub fn insert_char_fits_check(&self) -> (b: bool)
        requires
            screen_wf(self@),
        ensures
            b == insert_char_fits(self@),
    {
        if !self.cursor_fits() {
            return false;
        }
        let mut t = self.duplicate();
        t.make_room();
        t.room_fits_check(t.matrix.width, t.cursor.y)
    }

    /// Inserting the characters of `s` one after the other fits the limits of an index.
    pub fn insert_str_fits_check(&self, s: &str) -> (b: bool)
        requires
            screen_wf(self@),
        ensures
            b == insert_str_fits(self@, s@),
    {
        let chars = chars_of(s);
        let mut t = self.duplicate();
        let mut i: usize = 0;
        proof {
            assert(s@.skip(0) =~= s@);
        }
        while i < chars.len()
            invariant
                chars@ == s@,
                i <= chars@.len(),
                screen_wf(t@),
                insert_str_fits(t@, s@.skip(i as int)) == insert_str_fits(self@, s@),
            decreases chars@.len() - i,
        {
            proof {
                assert(s@.skip(i as int)[0] == chars@[i as int]);
                assert(s@.skip(i as int).drop_first() =~= s@.skip(i + 1));
            }
            if !t.insert_char_fits_check() {
                return false;
            }
            t.insert_character();
            if !t.cursor_fits() {
                return false;
            }
            t.place_char(chars[i]);
            i = i + 1;
        }
        proof {
            assert(s@.skip(i as int) =~= Seq::<char>::empty());
        }
        true
    }

    /// The screen has a fixed size.
    pub fn is_fixed_size(&self) -> (b: bool)
        ensures
            b == self@.fixed_size,
    {
        self.fixed_size
    }

    /// Room for the cursor fits the limits of an index.
    pub fn cursor_fits(&self) -> (b: bool)
        requires
            screen_wf(self@),
        ensures
            b == cursor_room_fits(self@),
    {
        self.fixed_size || self.room_fits_check(self.cursor.x, self.cursor.y)
    }

    /// The action fits the limits of an index and of the cursor coordinates.
    fn action_fits_check(&self, a: Action) -> (b: bool)
        requires
            screen_wf(self@),
        ensures
            b == action_fits(self@, a),
    {
        match a {
            Action::Char(_c) => self.fixed_size || self.room_fits_check(self.cursor.x, self.cursor.y),
            Action::NewLine | Action::FormFeed | Action::VerticalTab => {
                let vertical = if self.fixed_size {
                    true
                } else if self.matrix.width == 0 {
                    span_size_checked(self.matrix.height, self.cursor.y).is_some()
                } else {
                    self.room_fits_check(self.matrix.width - 1, self.cursor.y)
                };
                vertical && self.cursor.y < isize::MAX
            },
            Action::Backspace => self.cursor.x > isize::MIN,
            Action::Tabulator => self.cursor.x <= isize::MAX - 8,
            Action::HorizontalMove(n) => fits_isize(n) && self.cursor.x <= isize::MAX - n as isize,
            Action::VerticalPositionAbsolute(n) => fits_isize(n),
            Action::CursorAbsoluteColumn(c) => fits_isize(c),
            Action::CursorAbsolutePosition(r, c) => fits_isize(r) && fits_isize(c),
            Action::CursorUp(n) => fits_isize(n) && self.cursor.y >= isize::MIN + n as isize,
            Action::CursorDown(n) => fits_isize(n) && self.cursor.y <= isize::MAX - n as isize,
            Action::CursorForward(n) => fits_isize(n) && self.cursor.x <= isize::MAX - n as isize,
            Action::CursorBackward(n) => fits_isize(n) && self.cursor.x >= isize::MIN + n as isize,
            Action::VerticalPositionRelative(n) => fits_isize(n) && self.cursor.y <= isize::MAX - n as isize,
            Action::CursorNextLine(n) => fits_isize(n) && self.cursor.y <= isize::MAX - n as isize,
            Action::CursorPrevLine(n) => fits_isize(n) && self.cursor.y >= isize::MIN + n as isize,
            Action::NextLine => {
                let vertical = if self.fixed_size {
                    true
                } else if self.matrix.width == 0 {
                    span_size_checked(self.matrix.height, self.cursor.y).is_some()
                } else {
                    self.room_fits_check(self.matrix.width - 1, self.cursor.y)
                };
                vertical && self.cursor.y < isize::MAX
            },
            Action::Index => self.cursor_fits(),
            Action::ReverseIndex => {
                if !self.cursor_fits() {
                    return false;
                }
                let mut t = self.duplicate();
                t.make_room();
                t.matrix.height < isize::MAX
            },
            Action::ScrollDown(n) => self.cursor_fits() && fits_isize(n),
            Action::ScrollUp(n) => self.cursor_fits() && fits_isize(n),
            Action::InsertLines(n) => {
                if !self.cursor_fits() || !fits_isize(n) {
                    return false;
                }
                let mut t = self.duplicate();
                t.make_room();
                let (st, en, _) = t.determine_scroll_region();
                let k = if (n as isize) < en + 1 - st {
                    n as isize
                } else {
                    en + 1 - st
                };
                k < 1 || (st <= t.cursor.y && t.cursor.y <= en && t.cursor.y <= t.matrix.height - k)
            },
            Action::DeleteLines(n) => self.cursor_fits() && fits_isize(n),
            Action::ScrollRegion(_) => self.cursor_fits(),
            Action::EraseDisplay(_, _) => self.cursor_fits(),
            Action::EraseLine(_, _) => self.cursor_fits(),
            Action::ScrollLeft(n) => self.cursor_fits() && fits_isize(n),
            Action::ScrollRight(n) => self.cursor_fits() && fits_isize(n),
            Action::DecBackIndex => self.cursor.x > isize::MIN,
            Action::DecForwardIndex => self.cursor.x < isize::MAX,
            Action::InsertColumns(n) => fits_isize(n) && self.col_scroll_fits_check(self.cursor.x, n as isize),
            Action::DeleteColumns(n) => fits_isize(n) && self.col_scroll_fits_check(self.cursor.x, n as isize),
            Action::InsertCharacters(n) | Action::DeleteCharacters(n) => {
                if !self.cursor_fits() || !fits_isize(n) {
                    return false;
                }
                let mut t = self.duplicate();
                t.make_room();
                t.cursor.x <= t.matrix.width - n as isize
            },
            Action::EraseCharacters(n) => fits_isize(n) && self.erase_chars_fits_check(n as isize),
            Action::CopyArea(rect, _, p, _) => {
                if !self.cursor_fits() {
                    return false;
                }
                let mut t = self.duplicate();
                t.make_room();
                copy_fits_check(&t.matrix, rect, p)
            },
            Action::FillArea(c, _) => !fill_char_ok_exec(c) || self.cursor_fits(),
            Action::RepeatCharacter(n) => self.repeat_fits_check(self.last_char, n),
            _ => true,
        }
    }

    /// A column scroll from `at_col` by `n` stays inside the rows.
    fn col_scroll_fits_check(&self, at_col: isize, n: isize) -> (b: bool)
        requires
            screen_wf(self@),
        ensures
            b == col_scroll_fits(self@, at_col as int, n as int),
    {
        let w = self.matrix.width;
        let k = if n < w {
            n
        } else {
            w
        };
        let at = if at_col > 0 {
            at_col
        } else {
            0
        };
        !(k >= 1 && at < w) || at <= w - k
    }

    /// Scroll the cells of the scroll region's rows from column `at_col` on left by
    /// `scroll_cols`, and fill the last columns with fresh cells.
    fn scroll_left(&mut self, at_col: isize, scroll_cols: isize)
        requires
            screen_wf(old(self)@),
            col_scroll_fits(old(self)@, at_col as int, scroll_cols as int),
        ensures
            final(self)@ == sv_scroll_left(old(self)@, at_col as int, scroll_cols as int),
            screen_wf(final(self)@),
    {
        let ghost s0 = self@;
        let ghost m = self@.matrix;
        let w = self.matrix.width;
        let n = if scroll_cols < w {
            scroll_cols
        } else {
            w
        };
        let at = if at_col > 0 {
            at_col
        } else {
            0
        };
        if n >= 1 && at < w {
            let (start_row, end_row, _) = self.determine_scroll_region();
            let fill = Cell::new(self.colors);
            let mut row = start_row;
            while row <= end_row
                invariant
                    matrix_wf(m),
                    matrix_wf(self.matrix@),
                    self@ == (ScreenView { matrix: self@.matrix, ..s0 }),
                    self.matrix@.width == m.width,
                    self.matrix@.height == m.height,
                    w == m.width,
                    fill == blank_cell(s0.colors),
                    0 <= start_row <= row,
                    end_row < m.height,
                    row <= end_row + 1,
                    1 <= n,
                    0 <= at,
                    at + n <= w,
                    forall|x: int, j: int| 0 <= x < m.width && 0 <= j < m.height ==> #[trigger] cell_at(self.matrix@, x, j)
                        == left_cell(m, start_row as int, row - 1, at as int, n as int, fill, x, j),
                decreases end_row + 1 - row,
            {
                self.matrix.shift_cells_left(row, at, n, fill);
                row = row + 1;
            }
            proof {
                lemma_matrix_is_from(
                    self.matrix@,
                    |x: int, j: int| left_cell(m, start_row as int, end_row as int, at as int, n as int, fill, x, j),
                );
            }
        }
    }

    /// Scroll the cells of the scroll region's rows from column `at_col` on right by
    /// `scroll_cols`, and fill the columns that come free with fresh cells.
    fn scroll_right(&mut self, at_col: isize, scroll_cols: isize)
        requires
            screen_wf(old(self)@),
            col_scroll_fits(old(self)@, at_col as int, scroll_cols as int),
        ensures
            final(self)@ == sv_scroll_right(old(self)@, at_col as int, scroll_cols as int),
            screen_wf(final(self)@),
    {
        let ghost s0 = self@;
        let ghost m = self@.matrix;
        let w = self.matrix.width;
        let n = if scroll_cols < w {
            scroll_cols
        } else {
            w
        };
        let at = if at_col > 0 {
            at_col
        } else {
            0
        };
        if n >= 1 && at < w {
            let (start_row, end_row, _) = self.determine_scroll_region();
            let fill = Cell::new(self.colors);
            let mut row = start_row;
            while row <= end_row
                invariant
                    matrix_wf(m),
                    matrix_wf(self.matrix@),
                    self@ == (ScreenView { matrix: self@.matrix, ..s0 }),
                    self.matrix@.width == m.width,
                    self.matrix@.height == m.height,
                    w == m.width,
                    fill == blank_cell(s0.colors),
                    0 <= start_row <= row,
                    end_row < m.height,
                    row <= end_row + 1,
                    1 <= n,
                    0 <= at,
                    at + n <= w,
                    forall|x: int, j: int| 0 <= x < m.width && 0 <= j < m.height ==> #[trigger] cell_at(self.matrix@, x, j)
                        == right_cell(m, start_row as int, row - 1, at as int, n as int, fill, x, j),
                decreases end_row + 1 - row,
            {
                self.matrix.shift_cells_right(row, at, n, fill);
                row = row + 1;
            }
            proof {
                lemma_matrix_is_from(
                    self.matrix@,
                    |x: int, j: int| right_cell(m, start_row as int, end_row as int, at as int, n as int, fill, x, j),
                );
            }
        }
    }

    /// Delete (`left`) or insert `n` cells at the cursor, within the cursor row.
    fn shift_chars(&mut self, n: isize, left: bool)
        requires
            screen_wf(old(self)@),
            cursor_room_fits(old(self)@),
            0 <= n,
            sv_make_room(old(self)@).cursor.0 + n <= sv_make_room(old(self)@).matrix.width,
        ensures
            final(self)@ == sv_shift_chars(old(self)@, n as int, left),
            screen_wf(final(self)@),
    {
        let ghost s0 = self@;
        self.make_room();
        let ghost s1 = self@;
        let x = self.cursor.x;
        let y = self.cursor.y;
        let fill = Cell::new(self.colors);
        if left {
            self.matrix.shift_cells_left(y, x, n, fill);
        } else {
            self.matrix.shift_cells_right(y, x, n, fill);
        }
        proof {
            let m = s1.matrix;
            if left {
                lemma_matrix_is_from(
                    self.matrix@,
                    |i: int, j: int| left_cell(m, y as int, y as int, x as int, n as int, blank_cell(s0.colors), i, j),
                );
            } else {
                lemma_matrix_is_from(
                    self.matrix@,
                    |i: int, j: int| right_cell(m, y as int, y as int, x as int, n as int, blank_cell(s0.colors), i, j),
                );
            }
        }
    }

    /// Erasing `n` characters stays inside the screen and the limits of an index.
    fn erase_chars_fits_check(&self, n: isize) -> (b: bool)
        requires
            screen_wf(self@),
            0 <= n,
        ensures
            b == erase_chars_fits(self@, n as int),
    {
        let x = self.cursor.x;
        let y = self.cursor.y;
        if x < 0 || y < 0 || x > isize::MAX - n {
            return false;
        }
        if self.fixed_size {
            let w = self.matrix.width;
            let k0 = if n < w - x {
                n
            } else {
                w - x
            };
            k0 < 1 || y < self.matrix.height
        } else {
            self.room_fits_check(x + n, y)
        }
    }

    /// Overwrite `n` cells from the cursor on with blanks.
    fn erase_chars(&mut self, n: isize)
        requires
            screen_wf(old(self)@),
            0 <= n,
            erase_chars_fits(old(self)@, n as int),
        ensures
            final(self)@ == sv_erase_chars(old(self)@, n as int),
            screen_wf(final(self)@),
    {
        let x = self.cursor.x;
        let y = self.cursor.y;
        let cell = self.clone_cell(' ');
        if self.fixed_size {
            let w = self.matrix.width;
            let k0 = if n < w - x {
                n
            } else {
                w - x
            };
            let k = if k0 > 0 {
                k0
            } else {
                0
            };
            if k > 0 {
                self.fill_rect(Rectangle::new_isize(x, y, x + k - 1, y), cell);
            } else {
                proof {
                    assert(filled_rect(self@.matrix, rect_of(x as int, y as int, x + k - 1, y as int), cell) =~= self@.matrix) by {
                        lemma_matrix_is_from(self@.matrix, |i: int, j: int|
                            if y <= j <= y && x <= i <= x + k - 1 {
                                cell
                            } else {
                                cell_at(self@.matrix, i, j)
                            });
                    }
                }
            }
        } else {
            proof {
                lemma_grown(self@.matrix, x + n, y as int, blank_cell(self@.colors));
            }
            self.make_room_for(x + n, y);
            self.fill_rect(Rectangle::new_isize(x, y, x + n - 1, y), cell);
        }
    }

    /// Copy the cells of `rect` so that its top left corner lands on `p`.
    fn copy_area(&mut self, rect: Rectangle, p: Point)
        requires
            screen_wf(old(self)@),
            inside(old(self)@.matrix, old(self)@.cursor.0, old(self)@.cursor.1),
            copy_fits(old(self)@.matrix, rect, p),
        ensures
            final(self)@ == (ScreenView {
                matrix: copied_area(
                    old(self)@.matrix,
                    copy_source(old(self)@.matrix, rect),
                    copy_dest(old(self)@.matrix, rect, p),
                    p.y - copy_source(old(self)@.matrix, rect).start.y,
                ),
                ..old(self)@
            }),
            screen_wf(final(self)@),
    {
        let ghost s0 = self@;
        let ghost m = self@.matrix;
        let mr = self.matrix.rectangle();
        let src = rect.clipped(&mr);
        let dx = p.x - src.start.x;
        let dy = p.y - src.start.y;
        let moved = Rectangle::new_isize(src.start.x + dx, src.start.y + dy, src.end.x + dx, src.end.y + dy);
        let dst = moved.clipped(&mr);
        let old_matrix = self.matrix.duplicate();
        let mut y = dst.start.y;
        while y <= dst.end.y
            invariant
                matrix_wf(m),
                old_matrix@ == m,
                matrix_wf(self.matrix@),
                self@ == (ScreenView { matrix: self@.matrix, ..s0 }),
                self.matrix@.width == m.width,
                self.matrix@.height == m.height,
                src == copy_source(m, rect),
                dst == copy_dest(m, rect, p),
                copy_fits(m, rect, p),
                m.width >= 1 && m.height >= 1,
                dx == p.x - src.start.x,
                dy == p.y - src.start.y,
                dst.start.y <= y,
                y <= dst.end.y + 1 || y == dst.start.y,
                forall|i: int, j: int| 0 <= i < m.width && 0 <= j < m.height ==> #[trigger] cell_at(self.matrix@, i, j)
                    == if dst.start.y <= j < y && dst.start.x <= i <= dst.end.x {
                    cell_at(m, src.start.x + (i - dst.start.x), j - dy)
                } else {
                    cell_at(m, i, j)
                },
            decreases dst.end.y + 1 - y,
        {
            let mut x = dst.start.x;
            while x <= dst.end.x
                invariant
                    matrix_wf(m),
                    old_matrix@ == m,
                    matrix_wf(self.matrix@),
                    self@ == (ScreenView { matrix: self@.matrix, ..s0 }),
                    self.matrix@.width == m.width,
                    self.matrix@.height == m.height,
                    src == copy_source(m, rect),
                    dst == copy_dest(m, rect, p),
                    copy_fits(m, rect, p),
                    m.width >= 1 && m.height >= 1,
                    dx == p.x - src.start.x,
                    dy == p.y - src.start.y,
                    dst.start.y <= y <= dst.end.y,
                    dst.start.x <= x,
                    x <= dst.end.x + 1 || x == dst.start.x,
                    forall|i: int, j: int| 0 <= i < m.width && 0 <= j < m.height ==> #[trigger] cell_at(self.matrix@, i, j)
                        == if (dst.start.y <= j < y && dst.start.x <= i <= dst.end.x) || (j == y && dst.start.x <= i < x) {
                        cell_at(m, src.start.x + (i - dst.start.x), j - dy)
                    } else {
                        cell_at(m, i, j)
                    },
                decreases dst.end.x + 1 - x,
            {
                proof {
                    lemma_copy_reads_inside(m, rect, p, x as int, y as int);
                }
                let c = old_matrix.cell_at(src.start.x + (x - dst.start.x), y - dy);
                self.matrix.put_cell(x, y, c);
                x = x + 1;
            }
            y = y + 1;
        }
        proof {
            lemma_matrix_is_from(self.matrix@, |i: int, j: int|
                if dst.start.y <= j <= dst.end.y && dst.start.x <= i <= dst.end.x {
                    cell_at(m, src.start.x + (i - dst.start.x), j - dy)
                } else {
                    cell_at(m, i, j)
                });
        }
    }

    /// Placing `c` `n` times fits the limits of an index at every step.
    fn repeat_fits_check(&self, c: char, n: u32) -> (b: bool)
        requires
            screen_wf(self@),
        ensures
            b == repeat_fits(self@, c, n as nat),
    {
        let mut t = self.duplicate();
        let mut i: u32 = 0;
        while i < n
            invariant
                i <= n,
                screen_wf(t@),
                repeat_fits(t@, c, (n - i) as nat) == repeat_fits(self@, c, n as nat),
            decreases n - i,
        {
            if !t.cursor_fits() {
                return false;
            }
            t.place_char(c);
            i = i + 1;
        }
        true
    }

    /// Feed one byte to the UTF-8 decoder.
    fn decode(&mut self, b: u8) -> (a: Action)
        ensures
            (final(self)@.decoder, a) == decode_step(old(self)@.decoder, b),
            final(self)@ == (ScreenView { decoder: final(self)@.decoder, ..old(self)@ }),
    {
        let st = self.decoder;
        self.decoder = Utf8State { needed: 0, value: 0 };
        if st.needed == 0 {
            if b < 0x80 {
                ascii_action_exec(b)
            } else if b & 0xE0 == 0xC0 {
                self.decoder = Utf8State { needed: 1, value: (b & 0x1F) as u32 };
                Action::More
            } else if b & 0xF0 == 0xE0 {
                self.decoder = Utf8State { needed: 2, value: (b & 0x0F) as u32 };
                Action::More
            } else if b & 0xF8 == 0xF0 {
                self.decoder = Utf8State { needed: 3, value: (b & 0x07) as u32 };
                Action::More
            } else {
                Action::Error
            }
        } else if b & 0xC0 == 0x80 {
            let v = (st.value << 6u32) | ((b & 0x3F) as u32);
            if st.needed == 1 {
                match char_from_u32(v) {
                    Some(c) => Action::Char(c),
                    None => Action::Error,
                }
            } else {
                self.decoder = Utf8State { needed: st.needed - 1, value: v };
                Action::More
            }
        } else {
            Action::Error
        }
    }

    /// Process a single byte of terminal input, and tell what happened.
    pub fn add_byte(&mut self, byte: u8) -> (e: Event)
        requires
            screen_wf(old(self)@),
        ensures
            (final(self)@, e) == sv_add_byte(old(self)@, byte),
            screen_wf(final(self)@),
    {
        if self.escape.mode != 0 {
            let outcome = self.escape.step(byte);
            return match outcome {
                EscOutcome::Nothing => Event::Ignore,
                EscOutcome::Act(action) => {
                    if !self.action_fits_check(action) {
                        return Event::Ignore;
                    }
                    self.perform(action)
                },
                EscOutcome::Attributes(ps) => {
                    let attrs = attributes_of_exec(&ps);
                    self.character_attributes(attrs.as_slice())
                },
            };
        }
        if self.decoder.needed == 0 && byte == 0x1b {
            self.escape.start();
            return Event::Ignore;
        }
        let action = self.decode(byte);
        if !self.action_fits_check(action) {
            return Event::Ignore;
        }
        self.perform(action)
    }

    /// Change the attributes in which characters are drawn, one change after the other.
    pub fn character_attributes(&mut self, attrs: &[CharacterAttribute]) -> (e: Event)
        requires
            screen_wf(old(self)@),
        ensures
            e == Event::Ignore,
            final(self)@ == sv_attributes(old(self)@, attrs@),
            screen_wf(final(self)@),
    {
        let mut i: usize = 0;
        proof {
            assert(attrs@.skip(0) =~= attrs@);
        }
        while i < attrs.len()
            invariant
                i <= attrs@.len(),
                screen_wf(self@),
                sv_attributes(self@, attrs@.skip(i as int)) == sv_attributes(old(self)@, attrs@),
            decreases attrs@.len() - i,
        {
            proof {
                assert(attrs@.skip(i as int)[0] == attrs@[i as int]);
                assert(attrs@.skip(i as int).drop_first() =~= attrs@.skip(i + 1));
            }
            match attrs[i] {
                CharacterAttribute::Normal => self.attributes = Attributes::empty(),
                CharacterAttribute::Bold => self.attributes.insert(BOLD),
                CharacterAttribute::Faint => self.attributes.insert(ATR_FAINT),
                CharacterAttribute::Italicized => self.attributes.insert(ATR_ITALIC),
                CharacterAttribute::Underlined => self.attributes.insert(UNDERLINE),
                CharacterAttribute::Blink => self.attributes.insert(BLINK),
                CharacterAttribute::Inverse => self.attributes.insert(INVERSE),
                CharacterAttribute::Invisible => self.attributes.insert(INVISIBLE),
                CharacterAttribute::CrossedOut => self.attributes.insert(ATR_STRIKEOUT),
                CharacterAttribute::DoublyUnderlined => self.attributes.insert(ATR_DBL_UNDER),
                CharacterAttribute::NotBoldFaint => {
                    self.attributes.remove(BOLD);
                    self.attributes.remove(ATR_FAINT);
                },
                CharacterAttribute::NotItalicized => self.attributes.remove(ATR_ITALIC),
                CharacterAttribute::NotUnderlined => self.attributes.remove(UNDERLINE),
                CharacterAttribute::Steady => self.attributes.remove(BLINK),
                CharacterAttribute::Positive => self.attributes.remove(INVERSE),
                CharacterAttribute::Visible => self.attributes.remove(INVISIBLE),
                CharacterAttribute::NotCrossedOut => self.attributes.remove(ATR_STRIKEOUT),
                CharacterAttribute::Foreground(Color::Default) => self.attributes.remove(FG_COLOR),
                CharacterAttribute::Foreground(c) => {
                    self.attributes.insert(FG_COLOR);
                    self.colors.foreground = Colors::fromColor(c);
                },
                CharacterAttribute::Background(Color::Default) => self.attributes.remove(BG_COLOR),
                CharacterAttribute::Background(c) => {
                    self.attributes.insert(BG_COLOR);
                    self.colors.background = Colors::fromColor(c);
                },
            }
            i = i + 1;
        }
        proof {
            assert(attrs@.skip(i as int) =~= Seq::<CharacterAttribute>::empty());
        }
        Event::Ignore
    }

    /// Carry out an action of terminal input, and tell what happened.
    #[verifier::spinoff_prover]
    #[verifier::rlimit(60)]
    pub fn perform(&mut self, action: Action) -> (e: Event)
        requires
            screen_wf(old(self)@),
            action_fits(old(self)@, action),
        ensures
            (final(self)@, e) == sv_apply(old(self)@, action),
            screen_wf(final(self)@),
    {
        match action {
            Action::More => Event::Ignore,
            Action::Error => Event::Ignore,
            Action::Cr => {
                self.move_left_edge();
                Event::Cr
            },
            Action::FormFeed | Action::VerticalTab | Action::NewLine => {
                self.new_line();
                Event::NewLine
            },
            Action::Char(c) => {
                self.last_char = c;
                self.place_char(c);
                Event::Ignore
            },
            Action::Bell => Event::Bell,
            Action::Backspace => {
                self.move_left(1);
                Event::Ignore
            },
            Action::Tabulator => {
                let cx = ((self.cursor.x + 8) / 8) * 8;
                if self.fixed_size {
                    if cx < self.matrix.width {
                        self.cursor.x = cx;
                    }
                } else {
                    self.cursor.x = cx;
                }
                Event::Ignore
            },
            Action::HorizontalMove(n) => {
                self.cursor.x = self.cursor.x + n as isize;
                Event::Ignore
            },
            Action::VerticalPositionAbsolute(n) => {
                self.cursor.y = n as isize;
                Event::Ignore
            },
            Action::SaveCursor => {
                self.saved_cursor = self.cursor;
                Event::Ignore
            },
            Action::RestoreCursor => {
                self.cursor = self.saved_cursor;
                Event::Ignore
            },
            Action::CursorLowerLeft => {
                self.cursor.x = 0;
                let h = self.matrix.height;
                self.cursor.y = if h - 1 > 0 {
                    h - 1
                } else {
                    0
                };
                Event::Ignore
            },
            Action::CursorAbsoluteColumn(c) => {
                let y = self.cursor.y;
                self.move_cursor_to(c as isize, y);
                Event::Ignore
            },
            Action::CursorAbsolutePosition(r, c) => {
                self.move_cursor_to(c as isize, r as isize);
                Event::Ignore
            },
            Action::CursorUp(n) => {
                self.move_up(n as isize);
                Event::Ignore
            },
            Action::CursorDown(n) => {
                self.move_down(n as isize);
                Event::Ignore
            },
            Action::CursorForward(n) => {
                self.move_right(n as isize);
                Event::Ignore
            },
            Action::CursorBackward(n) => {
                self.move_left(n as isize);
                Event::Ignore
            },
            Action::VerticalPositionRelative(n) => {
                let x = self.cursor.x;
                let y = self.cursor.y;
                self.move_cursor_to(x, y + n as isize);
                Event::Ignore
            },
            Action::CursorNextLine(n) => {
                let x = self.cursor.x;
                let y = self.cursor.y;
                self.move_cursor_to(x, y + n as isize);
                self.move_left_edge();
                Event::Ignore
            },
            Action::CursorPrevLine(n) => {
                let x = self.cursor.x;
                let y = self.cursor.y;
                self.move_cursor_to(x, y - n as isize);
                self.move_left_edge();
                Event::Ignore
            },
            Action::NextLine => {
                self.new_line();
                Event::Ignore
            },
            Action::Index => {
                self.make_room();
                self.move_down_and_scroll(1);
                Event::Ignore
            },
            Action::ReverseIndex => {
                self.make_room();
                self.move_up_and_scroll(1);
                Event::Ignore
            },
            Action::ScrollDown(n) => {
                self.make_room();
                let (start_row, _, limited) = self.determine_scroll_region();
                if limited {
                    self.scroll_down(start_row, n as isize);
                }
                Event::Ignore
            },
            Action::ScrollUp(n) => {
                self.make_room();
                let (start_row, _, limited) = self.determine_scroll_region();
                if limited {
                    self.scroll_up(start_row, n as isize);
                }
                Event::Ignore
            },
            Action::InsertLines(n) => {
                self.make_room();
                let y = self.cursor.y;
                self.scroll_down(y, n as isize);
                Event::Ignore
            },
            Action::DeleteLines(n) => {
                self.make_room();
                let y = self.cursor.y;
                let (start_row, end_row, limited) = self.determine_scroll_region();
                if start_row <= y && y <= end_row || !limited {
                    self.scroll_up(y, n as isize);
                }
                Event::Ignore
            },
            Action::ScrollRegion(region) => {
                // If the cursor is now outside the scroll region, move it into the region.
                self.make_room();
                let y = self.cursor.y;
                match region {
                    Some(rr) => {
                        self.scroll_region = Some((rr.start, rr.end));
                        if y < rr.start || y > rr.end {
                            self.cursor.y = rr.start;
                        }
                    },
                    None => {
                        self.scroll_region = None;
                    },
                }
                Event::Ignore
            },
            Action::EraseDisplay(what, _) => {
                self.make_room();
                let y = self.cursor.y;
                let h = self.matrix.height;
                let w = self.matrix.width;
                let (y0, y1) = match what {
                    EraseDisplay::Above => (0, y),
                    EraseDisplay::Below => (y, h - 1),
                    _ => (0, h - 1),
                };
                let cell = self.clone_cell(' ');
                self.fill_rect(Rectangle::new_isize(0, y0, w - 1, y1), cell);
                Event::Ignore
            },
            Action::EraseLine(what, _) => {
                self.make_room();
                let x = self.cursor.x;
                let y = self.cursor.y;
                let w = self.matrix.width;
                let (x0, x1) = match what {
                    EraseLine::Left => (0, x),
                    EraseLine::Right => (x, w - 1),
                    EraseLine::All => (0, w - 1),
                };
                let cell = self.clone_cell(' ');
                self.fill_rect(Rectangle::new_isize(x0, y, x1, y), cell);
                Event::Ignore
            },
            Action::ScrollLeft(n) => {
                self.make_room();
                let y = self.cursor.y;
                let (start_row, end_row, _) = self.determine_scroll_region();
                if start_row <= y && y <= end_row {
                    self.scroll_left(0, n as isize);
                }
                Event::Ignore
            },
            Action::ScrollRight(n) => {
                self.make_room();
                let y = self.cursor.y;
                let (start_row, end_row, _) = self.determine_scroll_region();
                if start_row <= y && y <= end_row {
                    self.scroll_right(0, n as isize);
                }
                Event::Ignore
            },
            Action::DecBackIndex => {
                if self.fixed_size && self.cursor.x == 0 {
                    self.scroll_right(0, 1);
                } else {
                    self.move_left(1);
                }
                Event::Ignore
            },
            Action::DecForwardIndex => {
                if self.fixed_size && self.cursor.x + 1 == self.matrix.width {
                    self.scroll_left(0, 1);
                } else {
                    self.move_right(1);
                }
                Event::Ignore
            },
            Action::InsertColumns(n) => {
                let x = self.cursor.x;
                self.scroll_right(x, n as isize);
                Event::Ignore
            },
            Action::DeleteColumns(n) => {
                let x = self.cursor.x;
                self.scroll_left(x, n as isize);
                Event::Ignore
            },
            Action::InsertCharacters(n) => {
                self.shift_chars(n as isize, false);
                Event::Ignore
            },
            Action::DeleteCharacters(n) => {
                self.shift_chars(n as isize, true);
                Event::Ignore
            },
            Action::EraseCharacters(n) => {
                self.erase_chars(n as isize);
                Event::Ignore
            },
            Action::CopyArea(rect, _, p, _) => {
                // Like xterm, pages are ignored; overlap is handled by copying from the old
                // matrix.
                self.make_room();
                self.copy_area(rect, p);
                Event::Ignore
            },
            Action::FillArea(c, rect) => {
                if fill_char_ok_exec(c) {
                    self.make_room();
                    let rect = rect.clipped(&self.matrix.rectangle());
                    let code_point = match char_from_u32(c) {
                        Some(ch) => ch,
                        None => ' ',
                    };
                    let cell = Cell { code_point, attributes: self.attributes.union(CHARDRAWN), colors: self.colors };
                    self.fill_rect(rect, cell);
                }
                Event::Ignore
            },
            Action::EraseArea(rect, _) => {
                let rect = rect.clipped(&self.matrix.rectangle());
                let cell = self.clone_cell(' ');
                self.fill_rect(rect, cell);
                Event::Ignore
            },
            Action::RepeatCharacter(n) => {
                let c = self.last_char;
                let mut i: u32 = 0;
                while i < n
                    invariant
                        i <= n,
                        screen_wf(self@),
                        self@.last_char == c,
                        repeat_fits(self@, c, (n - i) as nat),
                        sv_repeat(self@, c, (n - i) as nat) == sv_repeat(old(self)@, c, n as nat),
                    decreases n - i,
                {
                    self.place_char(c);
                    i = i + 1;
                }
                Event::Ignore
            },
            Action::DecApplicationKeypad(_) | Action::SetMode(_) | Action::ResetMode(_) | Action::SetPrivateMode(_)
            | Action::ResetPrivateMode(_) | Action::WindowOp(_) => Event::StartTui,
        }
    }

    /// Interpret the bytes as terminal input. Any event other than nothing, a carriage return
    /// or a new line stops the input and is returned as error.
    pub fn add_bytes(&mut self, bytes: &[u8]) -> (r: Result<(), Event>)
        requires
            screen_wf(old(self)@),
        ensures
            (final(self)@, r) == sv_add_bytes(old(self)@, bytes@),
            screen_wf(final(self)@),
    {
        let ghost s0 = self@;
        let mut i: usize = 0;
        proof {
            assert(bytes@.skip(0) =~= bytes@);
        }
        while i < bytes.len()
            invariant
                i <= bytes@.len(),
                s0 == old(self)@,
                screen_wf(self@),
                sv_add_bytes(self@, bytes@.skip(i as int)) == sv_add_bytes(s0, bytes@),
            decreases bytes@.len() - i,
        {
            proof {
                assert(bytes@.skip(i as int)[0] == bytes@[i as int]);
                assert(bytes@.skip(i as int).drop_first() =~= bytes@.skip(i + 1));
            }
            let ghost sb = self@;
            let e = self.add_byte(bytes[i]);
            proof {
                assert(sv_add_byte(sb, bytes@.skip(i as int)[0]) == (self@, e));
            }
            match e {
                Event::Ignore | Event::Cr | Event::NewLine => {},
                _ => {
                    proof {
                        assert(sv_add_bytes(sb, bytes@.skip(i as int)) == (self@, Err::<(), Event>(e)));
                    }
                    return Err(e);
                },
            }
            i = i + 1;
        }
        proof {
            assert(bytes@.skip(i as int) =~= Seq::<u8>::empty());
        }
        Ok(())
    }

    /// The matrix that the bytes draw on a new screen.
    pub fn one_line_matrix(bytes: &[u8]) -> (m: Matrix)
        ensures
            m@ == sv_add_bytes(new_screen_view(), bytes@).0.matrix,
            matrix_wf(m@),
    {
        let mut s = Screen::new();
        let _ = s.add_bytes(bytes);
        s.freeze()
    }

    /// The drawn cells of the first row that the bytes draw on a new screen.
    pub fn one_line_cell_vec(line: &[u8]) -> (v: Vec<Cell>)
        ensures
            line@.len() == 0 ==> v@.len() == 0,
            line@.len() > 0 && sv_add_bytes(new_screen_view(), line@).0.matrix.height == 0 ==> v@.len() == 0,
            line@.len() > 0 && sv_add_bytes(new_screen_view(), line@).0.matrix.height > 0 ==> v@
                == compacted_row_of(sv_add_bytes(new_screen_view(), line@).0.matrix, 0),
    {
        if line.len() == 0 {
            Vec::new()
        } else {
            Self::one_line_matrix(line).first_row_cell_vec()
        }
    }
}

/// The action of a single-byte character.
fn ascii_action_exec(b: u8) -> (a: Action)
    ensures
        a == ascii_action(b),
{
    if b == 0x07 {
        Action::Bell
    } else if b == 0x08 {
        Action::Backspace
    } else if b == 0x09 {
        Action::Tabulator
    } else if b == 0x0A {
        Action::NewLine
    } else if b == 0x0B {
        Action::VerticalTab
    } else if b == 0x0C {
        Action::FormFeed
    } else if b == 0x0D {
        Action::Cr
    } else if b < 0x20 || b == 0x7F {
        Action::Error
    } else {
        Action::Char(b as char)
    }
}


impl Screen {
    /// Scroll the rows from `at_row` to the end of the scroll region down by `scroll_rows`,
    /// and fill the rows that come free from `at_row` on with fresh cells.
    fn scroll_down(&mut self, at_row: isize, scroll_rows: isize)
        requires
            screen_wf(old(self)@),
            ({
                let (st, en, _l) = scroll_region_of(old(self)@);
                let k = scroll_amount(st, en, scroll_rows as int);
                k >= 1 ==> st <= at_row <= en && at_row + k <= old(self)@.matrix.height
            }),
        ensures
            final(self)@ == sv_scroll_down(old(self)@, at_row as int, scroll_rows as int),
            screen_wf(final(self)@),
    {
        let ghost s0 = self@;
        let ghost m = self@.matrix;
        let (start_row, end_row, _) = self.determine_scroll_region();
        let n = if scroll_rows < end_row + 1 - start_row { scroll_rows } else { end_row + 1 - start_row };
        if n >= 1 {
            let w = self.matrix.width;
            let mut dst_row = end_row;
            if dst_row < at_row + n - 1 {
                dst_row = at_row + n - 1;
            }
            while dst_row >= at_row + n
                invariant
                    matrix_wf(m),
                    matrix_wf(self.matrix@),
                    self@ == (ScreenView { matrix: self@.matrix, ..s0 }),
                    self.matrix@.width == m.width,
                    self.matrix@.height == m.height,
                    0 <= start_row <= at_row <= end_row < m.height,
                    n >= 1,
                    at_row + n <= m.height,
                    at_row + n - 1 <= dst_row,
                    dst_row <= end_row || dst_row == at_row + n - 1,
                    forall|x: int, j: int| 0 <= x < m.width && 0 <= j < m.height ==> #[trigger] cell_at(self.matrix@, x, j) == if dst_row < j <= end_row {
                        cell_at(m, x, j - n)
                    } else {
                        cell_at(m, x, j)
                    },
                decreases dst_row,
            {
                self.matrix.copy_row(dst_row, dst_row - n);
                dst_row = dst_row - 1;
            }
            let fill = Cell::new(self.colors);
            let mut row = at_row;
            while row < at_row + n
                invariant
                    matrix_wf(m),
                    matrix_wf(self.matrix@),
                    self@ == (ScreenView { matrix: self@.matrix, ..s0 }),
                    self.matrix@.width == m.width,
                    self.matrix@.height == m.height,
                    w == m.width,
                    fill == blank_cell(s0.colors),
                    0 <= start_row <= at_row <= end_row < m.height,
                    n >= 1,
                    at_row + n <= m.height,
                    at_row <= row <= at_row + n,
                    forall|x: int, j: int| 0 <= x < m.width && 0 <= j < m.height ==> #[trigger] cell_at(self.matrix@, x, j) == if at_row <= j < row {
                        fill
                    } else if at_row + n <= j <= end_row {
                        cell_at(m, x, j - n)
                    } else {
                        cell_at(m, x, j)
                    },
                decreases at_row + n - row,
            {
                self.matrix.fill_row(row, 0, w, fill);
                row = row + 1;
            }
            proof {
                lemma_matrix_is_from(
                    self.matrix@,
                    |x: int, j: int| scroll_down_cell(m, end_row as int, at_row as int, n as int, fill, x, j),
                );
            }
        }
    }

    /// Move the cursor up `n` rows and scroll down where it leaves a limited scroll region.
    pub fn move_up_and_scroll(&mut self, n: isize)
        requires
            screen_wf(old(self)@),
            n >= 0,
            old(self)@.cursor.1 - n >= isize::MIN,
            old(self)@.cursor.1 - n >= -isize::MAX + old(self)@.matrix.height,
        ensures
            final(self)@ == sv_move_up_and_scroll(old(self)@, n as int),
            screen_wf(final(self)@),
    {
        self.cursor.y = self.cursor.y - n;
        let (start_row, _, limited) = self.determine_scroll_region();
        if limited && self.cursor.y < start_row {
            let k = start_row - self.cursor.y;
            self.scroll_down(start_row, k);
            self.cursor.y = self.cursor.y + k;
        }
    }
}

} // verus!
