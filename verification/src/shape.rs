//! The active polyomino piece: shape identity, rotation state, anchor
//! position and lock status, together with the mathematical model of its
//! four occupied cells.

use vstd::prelude::*;

use crate::primitives::{
    base_cells, box_width, get_dims, get_tl, num_to_shape, shape_coords, shape_to_num,
    spec_get_dims, spec_get_tl, spec_shape_to_num, Coord, Display, ShapeType, Symbol,
    BLOCK_HORIZ_MULT, SCREEN_ROWS,
};

verus! {

/// Relies on `rand::random`: a draw distributed over the whole type.  Any
/// value may come back, so nothing is promised about the result.
pub assume_specification<T>[ rand::random::<T> ]() -> (r: T)
    where
        rand::distributions::Standard: rand::distributions::Distribution<T>,
;

/// One piece on its way down.  The four cells it occupies are a pure
/// function of the shape type, the rotation count and the anchor
/// (top-left) coordinate; see [`spec_cells`].
#[derive(Debug, Clone, Copy)]
pub struct Shape {
    pub clockwise_rotations: u8,
    pub shape_type: ShapeType,
    pub tl_coords: Coord,
    pub display: Display,
    pub is_dead: bool,
}

/// Quarter turn clockwise of a relative cell within a box of width `w`.
pub open spec fn rot_cw(c: (int, int), w: int) -> (int, int) {
    (c.1, w - 1 - c.0)
}

/// The four relative cells of shape `t` after `k` clockwise quarter turns.
pub open spec fn rel_cells(t: ShapeType, k: nat) -> Seq<(int, int)>
    decreases k,
{
    if k == 0 {
        base_cells(t)
    } else {
        rel_cells(t, (k - 1) as nat).map_values(|c: (int, int)| rot_cw(c, box_width(t)))
    }
}

/// The rotation count that actually applies: the `O` shape never rotates.
pub open spec fn eff_rots(s: Shape) -> nat {
    if s.shape_type == ShapeType::O {
        0
    } else {
        s.clockwise_rotations as nat
    }
}

/// The four absolute cells of a piece, as (row, column) pairs of display
/// coordinates.  Each relative column is doubled because a block covers
/// two adjacent display columns; the pair gives the left column.
pub open spec fn spec_cells(s: Shape) -> Seq<(int, int)> {
    Seq::new(
        4,
        |i: int|
            (
                rel_cells(s.shape_type, eff_rots(s))[i].0 + s.tl_coords.row,
                2 * rel_cells(s.shape_type, eff_rots(s))[i].1 + s.tl_coords.col,
            ),
    )
}

pub open spec fn min4(a: int, b: int, c: int, d: int) -> int {
    let x = if a <= b {
        a
    } else {
        b
    };
    let y = if c <= d {
        c
    } else {
        d
    };
    if x <= y {
        x
    } else {
        y
    }
}

pub open spec fn max4(a: int, b: int, c: int, d: int) -> int {
    let x = if a >= b {
        a
    } else {
        b
    };
    let y = if c >= d {
        c
    } else {
        d
    };
    if x >= y {
        x
    } else {
        y
    }
}

pub open spec fn spec_min_row(s: Shape) -> int {
    min4(spec_cells(s)[0].0, spec_cells(s)[1].0, spec_cells(s)[2].0, spec_cells(s)[3].0)
}

pub open spec fn spec_max_row(s: Shape) -> int {
    max4(spec_cells(s)[0].0, spec_cells(s)[1].0, spec_cells(s)[2].0, spec_cells(s)[3].0)
}

pub open spec fn spec_min_col(s: Shape) -> int {
    min4(spec_cells(s)[0].1, spec_cells(s)[1].1, spec_cells(s)[2].1, spec_cells(s)[3].1)
}

pub open spec fn spec_max_col(s: Shape) -> int {
    max4(spec_cells(s)[0].1, spec_cells(s)[1].1, spec_cells(s)[2].1, spec_cells(s)[3].1)
}

/// Width in display columns of the piece's occupied span.
pub open spec fn spec_shape_width(s: Shape) -> int {
    spec_max_col(s) - spec_min_col(s) + 2
}

/// A piece occupies exactly four pairwise distinct cells, whatever its
/// shape, rotation and anchor.
pub proof fn lemma_cells_distinct(s: Shape)
    ensures
        spec_cells(s).len() == 4,
        forall|i: int, j: int|
            0 <= i < j < 4 ==> #[trigger] spec_cells(s)[i] != #[trigger] spec_cells(s)[j],
{
    lemma_rel_cells_props(s.shape_type, eff_rots(s));
    assert forall|i: int, j: int|
        0 <= i < j < 4 implies #[trigger] spec_cells(s)[i] != #[trigger] spec_cells(s)[j] by {
        assert(rel_cells(s.shape_type, eff_rots(s))[i] != rel_cells(s.shape_type, eff_rots(s))[j]);
    }
}

/// Rotation never changes the cells of the `O` piece: its occupied cells
/// are the same at every rotation index.
pub proof fn lemma_o_rotation_noop(s: Shape, k: u8)
    requires
        s.shape_type == ShapeType::O,
    ensures
        spec_cells(Shape { clockwise_rotations: k, ..s }) == spec_cells(s),
{
    assert(spec_cells(Shape { clockwise_rotations: k, ..s }) =~= spec_cells(s));
}

/// The symbol a piece writes into the grid.
pub open spec fn spec_symbol(s: Shape) -> Symbol {
    if s.is_dead {
        Symbol::DeadBlock(spec_shape_to_num(s.shape_type) as i16)
    } else {
        Symbol::LiveBlock(spec_shape_to_num(s.shape_type) as i16)
    }
}

/// Geometric sanity of a piece: a valid rotation count and an anchor from
/// which all cell arithmetic stays on the screen grid.
pub open spec fn on_screen(s: Shape) -> bool {
    &&& s.clockwise_rotations < 4
    &&& s.tl_coords.row <= 18
    &&& s.tl_coords.col <= 31
}

/// A relative cell lies within a square box of width `w`.
pub open spec fn in_box(c: (int, int), w: int) -> bool {
    0 <= c.0 < w && 0 <= c.1 < w
}

/// The relative cells always stay within the shape's rotation box, and
/// the four of them are pairwise distinct.
pub proof fn lemma_rel_cells_props(t: ShapeType, k: nat)
    ensures
        rel_cells(t, k).len() == 4,
        forall|i: int| 0 <= i < 4 ==> in_box(#[trigger] rel_cells(t, k)[i], box_width(t)),
        forall|i: int, j: int|
            0 <= i < j < 4 ==> #[trigger] rel_cells(t, k)[i] != #[trigger] rel_cells(t, k)[j],
    decreases k,
{
    if k > 0 {
        lemma_rel_cells_props(t, (k - 1) as nat);
    }
}

/// Among the four relative cells there is always one at row 1 or below,
/// and one in the leftmost three columns of the box.
pub proof fn lemma_rel_extremes(t: ShapeType, k: nat)
    requires
        k < 4,
    ensures
        exists|i: int| 0 <= i < 4 && #[trigger] rel_cells(t, k)[i].0 >= 1,
        exists|i: int| 0 <= i < 4 && #[trigger] rel_cells(t, k)[i].1 <= 2,
{
    lemma_rel_cells_props(t, k);
    if t == ShapeType::I {
        reveal_with_fuel(rel_cells, 5);
        if k == 0 {
            assert(rel_cells(t, k)[0].0 >= 1);
            assert(rel_cells(t, k)[0].1 <= 2);
        } else if k == 1 {
            assert(rel_cells(t, k)[1].0 >= 1);
            assert(rel_cells(t, k)[0].1 <= 2);
        } else if k == 2 {
            assert(rel_cells(t, k)[0].0 >= 1);
            assert(rel_cells(t, k)[1].1 <= 2);
        } else {
            assert(rel_cells(t, k)[0].0 >= 1);
            assert(rel_cells(t, k)[0].1 <= 2);
        }
    } else {
        // The box is three columns wide, so every column offset is at most 2,
        // and four distinct cells cannot all sit in the single row 0.
        assert(rel_cells(t, k)[0].1 <= 2);
        let s = rel_cells(t, k);
        if s[0].0 >= 1 {
            assert(s[0].0 >= 1);
        } else if s[1].0 >= 1 {
            assert(s[1].0 >= 1);
        } else if s[2].0 >= 1 {
            assert(s[2].0 >= 1);
        } else if s[3].0 >= 1 {
            assert(s[3].0 >= 1);
        } else {
            assert(s[0] != s[1] && s[0] != s[2] && s[0] != s[3] && s[1] != s[2] && s[1] != s[3]
                && s[2] != s[3]);
            assert(false);
        }
    }
}

impl Shape {
    /// A piece of a shape drawn at random, unrotated and alive, parked in
    /// the next-piece preview window.
    pub fn new() -> (s: Self)
        ensures
            s.clockwise_rotations == 0,
            s.tl_coords == spec_get_tl(Display::Next),
            s.display == Display::Next,
            !s.is_dead,
    {
        let choice: usize = rand::random::<usize>() % 7 + 1;
        let shape_type = num_to_shape(choice as i16);
        Self {
            clockwise_rotations: 0,
            shape_type,
            tl_coords: get_tl(Display::Next),
            display: Display::Next,
            is_dead: false,
        }
    }

    /// A piece of the given shape, unrotated and alive, parked in the
    /// next-piece preview window.
    pub fn with_type(t: ShapeType) -> (s: Self)
        ensures
            s.shape_type == t,
            s.clockwise_rotations == 0,
            s.tl_coords == spec_get_tl(Display::Next),
            s.display == Display::Next,
            !s.is_dead,
    {
        Self {
            clockwise_rotations: 0,
            shape_type: t,
            tl_coords: get_tl(Display::Next),
            display: Display::Next,
            is_dead: false,
        }
    }

    fn cell_at(&self, i: usize) -> (c: Coord)
        requires
            i < 4,
            on_screen(*self),
        ensures
            c.row == spec_cells(*self)[i as int].0,
            c.col == spec_cells(*self)[i as int].1,
    {
        let base = shape_coords(self.shape_type);
        let w: usize = if self.shape_type == ShapeType::I {
            4
        } else {
            3
        };
        let rots: u8 = if self.shape_type == ShapeType::O {
            0
        } else {
            self.clockwise_rotations
        };
        let mut c = base[i];
        let mut k: u8 = 0;
        while k < rots
            invariant
                i < 4,
                k <= rots,
                rots < 4,
                rots as nat == eff_rots(*self),
                w == box_width(self.shape_type),
                self.shape_type == ShapeType::O ==> rots == 0,
                c.row == rel_cells(self.shape_type, k as nat)[i as int].0,
                c.col == rel_cells(self.shape_type, k as nat)[i as int].1,
            decreases rots - k,
        {
            proof {
                lemma_rel_cells_props(self.shape_type, k as nat);
            }
            c = c.rotate(w);
            k = k + 1;
        }
        proof {
            lemma_rel_cells_props(self.shape_type, rots as nat);
        }
        Coord::new(c.row + self.tl_coords.row, BLOCK_HORIZ_MULT * c.col + self.tl_coords.col)
    }

    /// The four cells the piece occupies, left display column of each block.
    pub fn coords(&self) -> (res: [Coord; 4])
        requires
            on_screen(*self),
        ensures
            forall|i: int|
                0 <= i < 4 ==> (#[trigger] res@[i]).row == spec_cells(*self)[i].0 && res@[i].col
                    == spec_cells(*self)[i].1,
    {
        [self.cell_at(0), self.cell_at(1), self.cell_at(2), self.cell_at(3)]
    }

    /// One clockwise quarter turn; the `O` shape is rotation-invariant.
    pub fn rotate_right(&mut self)
        requires
            old(self).clockwise_rotations < 4,
        ensures
            final(self).shape_type == old(self).shape_type,
            final(self).tl_coords == old(self).tl_coords,
            final(self).display == old(self).display,
            final(self).is_dead == old(self).is_dead,
            final(self).clockwise_rotations == if old(self).shape_type == ShapeType::O {
                old(self).clockwise_rotations as int
            } else {
                (old(self).clockwise_rotations + 1) % 4
            },
    {
        if self.shape_type == ShapeType::O {
            return ;
        }
        self.clockwise_rotations = (self.clockwise_rotations + 1) % 4;
    }

    pub fn move_right(&mut self)
        requires
            old(self).tl_coords.col + 2 <= usize::MAX,
        ensures
            *final(self) == (Shape {
                tl_coords: Coord { row: old(self).tl_coords.row, col: (old(self).tl_coords.col + 2) as usize },
                ..*old(self)
            }),
    {
        self.tl_coords.col = self.tl_coords.col + 2;
    }

    pub fn move_left(&mut self)
        requires
            old(self).tl_coords.col >= 2,
        ensures
            *final(self) == (Shape {
                tl_coords: Coord { row: old(self).tl_coords.row, col: (old(self).tl_coords.col - 2) as usize },
                ..*old(self)
            }),
    {
        self.tl_coords.col = self.tl_coords.col - 2;
    }

    pub fn move_down(&mut self)
        requires
            old(self).tl_coords.row + 1 <= usize::MAX,
        ensures
            *final(self) == (Shape {
                tl_coords: Coord { row: (old(self).tl_coords.row + 1) as usize, col: old(self).tl_coords.col },
                ..*old(self)
            }),
    {
        self.tl_coords.row = self.tl_coords.row + 1;
    }

    pub fn tl_coords(&self) -> (c: Coord)
        ensures
            c == self.tl_coords,
    {
        self.tl_coords
    }

    pub fn display(&self) -> (d: Display)
        ensures
            d == self.display,
    {
        self.display
    }

    pub fn kill(&mut self)
        ensures
            *final(self) == (Shape { is_dead: true, ..*old(self) }),
    {
        self.is_dead = true;
    }

    pub fn is_dead(&self) -> (b: bool)
        ensures
            b == self.is_dead,
    {
        self.is_dead
    }

    pub fn shape_type(&self) -> (t: ShapeType)
        ensures
            t == self.shape_type,
    {
        self.shape_type
    }

    /// Color number of the piece, equal to its shape number.
    pub fn color_num(&self) -> (n: i16)
        ensures
            n == spec_shape_to_num(self.shape_type),
    {
        shape_to_num(self.shape_type)
    }

    /// The symbol the piece leaves in the grid: a live block while
    /// falling, a dead block once locked.
    pub fn symbol(&self) -> (sym: Symbol)
        ensures
            sym == spec_symbol(*self),
    {
        match self.is_dead {
            true => Symbol::DeadBlock(self.color_num()),
            false => Symbol::LiveBlock(self.color_num()),
        }
    }

    /// Width of the occupied span in display columns.
    pub fn shape_width(&self) -> (w: usize)
        requires
            on_screen(*self),
        ensures
            w == spec_shape_width(*self),
    {
        proof {
            lemma_rel_cells_props(self.shape_type, eff_rots(*self));
        }
        let cs = self.coords();
        let mut maxc: usize = cs[0].col;
        if cs[1].col > maxc {
            maxc = cs[1].col;
        }
        if cs[2].col > maxc {
            maxc = cs[2].col;
        }
        if cs[3].col > maxc {
            maxc = cs[3].col;
        }
        let mut minc: usize = cs[0].col;
        if cs[1].col < minc {
            minc = cs[1].col;
        }
        if cs[2].col < minc {
            minc = cs[2].col;
        }
        if cs[3].col < minc {
            minc = cs[3].col;
        }
        maxc - minc + 2
    }

    /// Smallest enclosing rectangle of the occupied cells: top-left corner,
    /// then the coordinate one past the bottom-right display cell.
    pub fn bounding_box(&self) -> (res: [Coord; 2])
        requires
            on_screen(*self),
        ensures
            res@[0].row == spec_min_row(*self),
            res@[0].col == spec_min_col(*self),
            res@[1].row == spec_max_row(*self) + 1,
            res@[1].col == spec_max_col(*self) + 2,
    {
        let cs = self.coords();
        let mut maxr: usize = cs[0].row;
        let mut minr: usize = cs[0].row;
        let mut maxc: usize = cs[0].col;
        let mut minc: usize = cs[0].col;
        if cs[1].row > maxr {
            maxr = cs[1].row;
        }
        if cs[2].row > maxr {
            maxr = cs[2].row;
        }
        if cs[3].row > maxr {
            maxr = cs[3].row;
        }
        if cs[1].row < minr {
            minr = cs[1].row;
        }
        if cs[2].row < minr {
            minr = cs[2].row;
        }
        if cs[3].row < minr {
            minr = cs[3].row;
        }
        if cs[1].col > maxc {
            maxc = cs[1].col;
        }
        if cs[2].col > maxc {
            maxc = cs[2].col;
        }
        if cs[3].col > maxc {
            maxc = cs[3].col;
        }
        if cs[1].col < minc {
            minc = cs[1].col;
        }
        if cs[2].col < minc {
            minc = cs[2].col;
        }
        if cs[3].col < minc {
            minc = cs[3].col;
        }
        proof {
            lemma_rel_cells_props(self.shape_type, eff_rots(*self));
        }
        [Coord::new(minr, minc), Coord::new(maxr + 1, maxc + 2)]
    }

    /// The anchor column that centers the piece horizontally within its
    /// display region, rounded down to an even column.
    pub open spec fn spec_centered_col(s: Shape) -> int {
        let raw = spec_get_tl(s.display).col + spec_get_dims(s.display).col / 2
            - spec_shape_width(s) / 2;
        raw - raw % 2
    }

    /// Center the piece horizontally over its display region.
    pub fn center(&mut self)
        requires
            on_screen(*old(self)),
        ensures
            final(self).shape_type == old(self).shape_type,
            final(self).clockwise_rotations == old(self).clockwise_rotations,
            final(self).display == old(self).display,
            final(self).is_dead == old(self).is_dead,
            final(self).tl_coords.row == old(self).tl_coords.row,
            final(self).tl_coords.col == Shape::spec_centered_col(*old(self)),
    {
        proof {
            lemma_rel_cells_props(self.shape_type, eff_rots(*self));
        }
        let w = self.shape_width();
        let tl = get_tl(self.display);
        let dims = get_dims(self.display);
        let mut col: usize = tl.col + dims.col / 2 - w / 2;
        col = col - col % 2;
        self.tl_coords.col = col;
    }

    /// The piece's cells shifted down by `descent` rows, used for the
    /// landing preview.
    pub fn descent_coords(&self, descent: usize) -> (res: [Coord; 4])
        requires
            on_screen(*self),
            descent <= SCREEN_ROWS,
        ensures
            forall|i: int|
                0 <= i < 4 ==> (#[trigger] res@[i]).row == spec_cells(*self)[i].0 + descent
                    && res@[i].col == spec_cells(*self)[i].1,
    {
        proof {
            lemma_rel_cells_props(self.shape_type, eff_rots(*self));
        }
        let cs = self.coords();
        [
            Coord::new(cs[0].row + descent, cs[0].col),
            Coord::new(cs[1].row + descent, cs[1].col),
            Coord::new(cs[2].row + descent, cs[2].col),
            Coord::new(cs[3].row + descent, cs[3].col),
        ]
    }

    /// Re-anchor the piece in another display region; with `adjust_coords`
    /// the anchor keeps its offset relative to the region's corner.
    pub fn change_display(&mut self, disp: Display, adjust_coords: bool)
        requires
            adjust_coords ==> old(self).tl_coords.row + spec_get_tl(disp).row >= spec_get_tl(
                old(self).display,
            ).row,
            adjust_coords ==> old(self).tl_coords.col + spec_get_tl(disp).col >= spec_get_tl(
                old(self).display,
            ).col,
            adjust_coords ==> old(self).tl_coords.row + spec_get_tl(disp).row <= usize::MAX,
            adjust_coords ==> old(self).tl_coords.col + spec_get_tl(disp).col <= usize::MAX,
        ensures
            final(self).shape_type == old(self).shape_type,
            final(self).clockwise_rotations == old(self).clockwise_rotations,
            final(self).is_dead == old(self).is_dead,
            final(self).display == disp,
            final(self).tl_coords.row == if adjust_coords {
                old(self).tl_coords.row + spec_get_tl(disp).row - spec_get_tl(
                    old(self).display,
                ).row
            } else {
                old(self).tl_coords.row as int
            },
            final(self).tl_coords.col == if adjust_coords {
                old(self).tl_coords.col + spec_get_tl(disp).col - spec_get_tl(
                    old(self).display,
                ).col
            } else {
                old(self).tl_coords.col as int
            },
    {
        if adjust_coords {
            let to = get_tl(disp);
            let from = get_tl(self.display);
            self.tl_coords = Coord::new(
                self.tl_coords.row + to.row - from.row,
                self.tl_coords.col + to.col - from.col,
            );
        }
        self.display = disp;
    }
}

} // verus!
