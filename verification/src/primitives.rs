//! Basic geometry: grid coordinates, the display regions of the screen,
//! the seven piece shapes with their base coordinate tables, and the cell
//! symbols the screen grid is made of.

use vstd::prelude::*;

verus! {

/// Number of character rows in the screen grid.
pub const SCREEN_ROWS: usize = 22;

/// Number of character columns in the screen grid.
pub const SCREEN_COLS: usize = 39;

/// Each logical block covers two adjacent display columns.
pub const BLOCK_HORIZ_MULT: usize = 2;

/// A position in the screen grid; row 0 is the top line.
#[derive(Copy, Clone, Debug, PartialEq, Eq, Structural)]
pub struct Coord {
    pub row: usize,
    pub col: usize,
}

impl Coord {
    pub fn new(row: usize, col: usize) -> (c: Self)
        ensures
            c.row == row,
            c.col == col,
    {
        Self { row, col }
    }

    /// Quarter turn clockwise within a square box of the given width:
    /// `(r, c)` maps to `(c, w - 1 - r)`.
    pub fn rotate(self, area_width: usize) -> (r: Self)
        requires
            self.row < area_width,
        ensures
            r.row == self.col,
            r.col == area_width - 1 - self.row,
    {
        Coord::new(self.col, area_width - 1 - self.row)
    }
}

/// The regions of the screen a piece or a stat readout can live in.
#[derive(Copy, Clone, Debug, PartialEq, Eq, Structural)]
pub enum Display {
    Next,
    Score,
    Lines,
    Arena,
    Drop,
}

/// A movement request for the active piece.
#[derive(Copy, Clone)]
pub enum Direction {
    Left,
    Right,
    Down,
}

/// The seven piece shapes.
#[derive(PartialEq, Eq, Structural, Copy, Clone, Debug)]
pub enum ShapeType {
    I,
    J,
    L,
    O,
    S,
    T,
    Z,
}

/// One cell of the screen grid.  `LiveBlock` belongs to a still-falling
/// piece, `DeadBlock` to a permanently settled one; the payload is the
/// piece's color number.
#[derive(PartialEq, Eq, Structural, Copy, Clone, Debug)]
pub enum Symbol {
    Data(char),
    Space,
    LiveBlock(i16),
    DeadBlock(i16),
    Text(char),
}

/// True of the cells a piece occupies (either kind of block).
pub open spec fn is_block(s: Symbol) -> bool {
    s is LiveBlock || s is DeadBlock
}

/// Top-left corner of each display region.
pub open spec fn spec_get_tl(disp: Display) -> Coord {
    match disp {
        Display::Next => Coord { row: 4, col: 29 },
        Display::Score => Coord { row: 11, col: 30 },
        Display::Lines => Coord { row: 17, col: 30 },
        Display::Arena => Coord { row: 2, col: 4 },
        Display::Drop => Coord { row: 0, col: 4 },
    }
}

/// Row and column extent of each display region.
pub open spec fn spec_get_dims(disp: Display) -> Coord {
    match disp {
        Display::Arena | Display::Drop => Coord { row: 18, col: 20 },
        Display::Next => Coord { row: 3, col: 9 },
        Display::Score | Display::Lines => Coord { row: 1, col: 7 },
    }
}

pub fn get_tl(disp: Display) -> (tl: Coord)
    ensures
        tl == spec_get_tl(disp),
{
    match disp {
        Display::Next => Coord::new(4, 29),
        Display::Score => Coord::new(11, 30),
        Display::Lines => Coord::new(17, 30),
        Display::Arena => Coord::new(2, 4),
        Display::Drop => Coord::new(0, 4),
    }
}

pub fn get_dims(disp: Display) -> (dims: Coord)
    ensures
        dims == spec_get_dims(disp),
{
    match disp {
        Display::Arena | Display::Drop => Coord::new(18, 20),
        Display::Next => Coord::new(3, 9),
        Display::Score | Display::Lines => Coord::new(1, 7),
    }
}

pub open spec fn spec_in_area(row: int, col: int, tl: Coord, dims: Coord) -> bool {
    &&& tl.row <= row < tl.row + dims.row
    &&& tl.col <= col < tl.col + dims.col
}

/// The playfield: rows 2..20, columns 4..24.
pub open spec fn spec_in_arena(row: int, col: int) -> bool {
    spec_in_area(row, col, spec_get_tl(Display::Arena), spec_get_dims(Display::Arena))
}

/// The next-piece preview window: rows 4..7, columns 29..38.
pub open spec fn spec_in_next_disp(row: int, col: int) -> bool {
    spec_in_area(row, col, spec_get_tl(Display::Next), spec_get_dims(Display::Next))
}

fn in_area(row: usize, col: usize, tl: Coord, dims: Coord) -> (b: bool)
    requires
        tl.row + dims.row <= usize::MAX,
        tl.col + dims.col <= usize::MAX,
    ensures
        b == spec_in_area(row as int, col as int, tl, dims),
{
    (row >= tl.row && row < tl.row + dims.row) && (col >= tl.col && col < tl.col + dims.col)
}

pub fn in_next_disp(row: usize, col: usize) -> (b: bool)
    ensures
        b == spec_in_next_disp(row as int, col as int),
{
    in_area(row, col, get_tl(Display::Next), get_dims(Display::Next))
}

pub fn in_arena(row: usize, col: usize) -> (b: bool)
    ensures
        b == spec_in_arena(row as int, col as int),
{
    in_area(row, col, get_tl(Display::Arena), get_dims(Display::Arena))
}

/// The range of screen columns the playfield covers.
pub fn arena_row_iter() -> (r: core::ops::Range<usize>)
    ensures
        r.start == spec_get_tl(Display::Arena).col,
        r.end == spec_get_tl(Display::Arena).col + spec_get_dims(Display::Arena).col,
{
    4usize..24usize
}

pub open spec fn spec_num_to_shape(num: int) -> ShapeType {
    if num == 1 {
        ShapeType::I
    } else if num == 2 {
        ShapeType::J
    } else if num == 3 {
        ShapeType::L
    } else if num == 4 {
        ShapeType::O
    } else if num == 5 {
        ShapeType::S
    } else if num == 6 {
        ShapeType::T
    } else {
        ShapeType::Z
    }
}

pub open spec fn spec_shape_to_num(t: ShapeType) -> int {
    match t {
        ShapeType::I => 1,
        ShapeType::J => 2,
        ShapeType::L => 3,
        ShapeType::O => 4,
        ShapeType::S => 5,
        ShapeType::T => 6,
        ShapeType::Z => 7,
    }
}

pub fn num_to_shape(num: i16) -> (t: ShapeType)
    requires
        1 <= num <= 7,
    ensures
        t == spec_num_to_shape(num as int),
{
    match num {
        1 => ShapeType::I,
        2 => ShapeType::J,
        3 => ShapeType::L,
        4 => ShapeType::O,
        5 => ShapeType::S,
        6 => ShapeType::T,
        _ => ShapeType::Z,
    }
}

pub fn shape_to_num(shape_type: ShapeType) -> (num: i16)
    ensures
        num == spec_shape_to_num(shape_type),
{
    match shape_type {
        ShapeType::I => 1,
        ShapeType::J => 2,
        ShapeType::L => 3,
        ShapeType::O => 4,
        ShapeType::S => 5,
        ShapeType::T => 6,
        ShapeType::Z => 7,
    }
}

/// The four cells of each shape, as (row, column) offsets within its
/// bounding box: a 4-wide box for `I`, a 3-wide box for the others.
pub open spec fn base_cells(t: ShapeType) -> Seq<(int, int)> {
    match t {
        ShapeType::I => seq![(1, 0), (1, 1), (1, 2), (1, 3)],
        ShapeType::J => seq![(0, 0), (1, 0), (1, 1), (1, 2)],
        ShapeType::L => seq![(1, 0), (1, 1), (1, 2), (0, 2)],
        ShapeType::O => seq![(0, 1), (0, 2), (1, 1), (1, 2)],
        ShapeType::S => seq![(1, 0), (1, 1), (0, 1), (0, 2)],
        ShapeType::T => seq![(0, 1), (1, 0), (1, 1), (1, 2)],
        ShapeType::Z => seq![(0, 0), (0, 1), (1, 1), (1, 2)],
    }
}

/// Width of the rotation box of a shape.
pub open spec fn box_width(t: ShapeType) -> int {
    if t == ShapeType::I {
        4
    } else {
        3
    }
}

pub fn shape_coords(shape_type: ShapeType) -> (res: [Coord; 4])
    ensures
        forall|i: int|
            0 <= i < 4 ==> res@[i].row == base_cells(shape_type)[i].0 && res@[i].col
                == base_cells(shape_type)[i].1,
{
    match shape_type {
        ShapeType::I => [Coord::new(1, 0), Coord::new(1, 1), Coord::new(1, 2), Coord::new(1, 3)],
        ShapeType::J => [Coord::new(0, 0), Coord::new(1, 0), Coord::new(1, 1), Coord::new(1, 2)],
        ShapeType::L => [Coord::new(1, 0), Coord::new(1, 1), Coord::new(1, 2), Coord::new(0, 2)],
        ShapeType::O => [Coord::new(0, 1), Coord::new(0, 2), Coord::new(1, 1), Coord::new(1, 2)],
        ShapeType::S => [Coord::new(1, 0), Coord::new(1, 1), Coord::new(0, 1), Coord::new(0, 2)],
        ShapeType::T => [Coord::new(0, 1), Coord::new(1, 0), Coord::new(1, 1), Coord::new(1, 2)],
        ShapeType::Z => [Coord::new(0, 0), Coord::new(0, 1), Coord::new(1, 1), Coord::new(1, 2)],
    }
}

pub open spec fn spec_to_symbol(chr: char) -> Symbol {
    if '0' <= chr <= '9' {
        Symbol::Data(chr)
    } else if chr == ' ' {
        Symbol::Space
    } else {
        Symbol::Text(chr)
    }
}

pub fn to_symbol(chr: char) -> (sym: Symbol)
    ensures
        sym == spec_to_symbol(chr),
{
    if '0' <= chr && chr <= '9' {
        Symbol::Data(chr)
    } else if chr == ' ' {
        Symbol::Space
    } else {
        Symbol::Text(chr)
    }
}

pub open spec fn spec_from_symbol(sym: Symbol) -> char {
    match sym {
        Symbol::Data(num) => num,
        Symbol::Space => ' ',
        Symbol::LiveBlock(_) | Symbol::DeadBlock(_) => '\u{2588}',
        Symbol::Text(chr) => chr,
    }
}

pub fn from_symbol(sym: Symbol) -> (chr: char)
    ensures
        chr == spec_from_symbol(sym),
{
    match sym {
        Symbol::Data(num) => num,
        Symbol::Space => ' ',
        Symbol::LiveBlock(_) | Symbol::DeadBlock(_) => '\u{2588}',
        Symbol::Text(chr) => chr,
    }
}

} // verus!
