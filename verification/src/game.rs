//! The session state machine: gravity cadence, movement and rotation with
//! a single-step wall kick, the spawn drop-in, lock delay, line clearing,
//! scoring and level progression.

use vstd::prelude::*;

use crate::primitives::{
    base_cells, box_width, in_arena, is_block, num_to_shape, shape_to_num, spec_get_dims,
    spec_get_tl, spec_in_area, spec_in_arena, spec_shape_to_num, Coord, Direction, Display,
    ShapeType, Symbol, SCREEN_COLS, SCREEN_ROWS,
};
use crate::screen::{
    count_gt, dec_digits, lemma_ascending_len, lemma_count_gt_all_above, lemma_count_gt_none_above,
    lemma_count_gt_step, shape_covers, strictly_ascending, Screen,
};
use crate::shape::{
    eff_rots, in_box, lemma_rel_cells_props, lemma_rel_extremes, on_screen, rel_cells, spec_cells,
    spec_symbol, Shape,
};

verus! {

/// One discrete player command, polled at most once per tick.
pub enum Command {
    RotateCw,
    MoveLeft,
    MoveRight,
    SoftDrop,
    HardDrop,
    ToggleEasy,
    Restart,
}

/// A piece parked in the next-piece preview window, unrotated and alive.
pub open spec fn fresh_shape(s: Shape) -> bool {
    &&& s.clockwise_rotations == 0
    &&& s.tl_coords == spec_get_tl(Display::Next)
    &&& s.display == Display::Next
    &&& !s.is_dead
}

/// Cell bounds of a piece in play: every cell within the playfield's
/// column span (or just above it), on an even display column.
pub open spec fn piece_cells_ok(s: Shape) -> bool {
    forall|i: int|
        0 <= i < 4 ==> 0 <= (#[trigger] spec_cells(s)[i]).0 <= 19 && 4 <= spec_cells(s)[i].1 <= 22
            && spec_cells(s)[i].1 % 2 == 0
}

pub open spec fn piece_ok(s: Shape) -> bool {
    s.clockwise_rotations < 4 && piece_cells_ok(s)
}

/// The gravity period that belongs to a level: one tick shorter per level
/// above the starting level, never below the floor.
pub open spec fn spec_gravity(level: int, start: int) -> int {
    let fl = if start >= 22 {
        24 - start
    } else {
        2
    };
    let raw = 24 - level;
    if raw >= fl {
        raw
    } else {
        fl
    }
}

/// The whole session state.
pub struct Game {
    pub is_easy: bool,
    pub framerate: u32,
    pub rem_drop_height: usize,
    pub screen: Screen,
    pub curr_shape: Shape,
    pub next_shape: Shape,
    pub level: u32,
    pub start_level: u32,
    pub score: u32,
    pub lines: u32,
    pub count: u32,
    pub stand_still: u32,
    pub needs_new_shape: bool,
    pub game_over: bool,
}

/// State-machine invariant of the active piece: it is either dropping in
/// just above the playfield or falling inside it, and once the drop-in
/// ends its anchor is inside the playfield rows.
pub open spec fn active_ok(g: Game) -> bool {
    &&& piece_ok(g.curr_shape)
    &&& g.rem_drop_height <= 2
    &&& (g.curr_shape.display == Display::Drop || g.curr_shape.display == Display::Arena)
    &&& (g.curr_shape.display == Display::Drop ==> g.curr_shape.tl_coords.row + g.rem_drop_height
        == 2 && !g.curr_shape.is_dead)
    &&& (g.curr_shape.display == Display::Arena ==> g.rem_drop_height == 0
        && g.curr_shape.tl_coords.row >= 2)
}

impl Game {
    /// Session well-formedness.
    pub open spec fn wf(&self) -> bool {
        &&& self.screen.wf()
        &&& fresh_shape(self.next_shape)
        &&& (active_ok(*self) || (self.needs_new_shape && fresh_shape(self.curr_shape)))
        &&& 1 <= self.framerate <= 23
        &&& self.count <= 23
        &&& self.stand_still <= 3
        &&& 1 <= self.start_level <= 23
        &&& self.level >= self.start_level
        &&& (self.level == self.start_level || self.level * 10 <= self.lines + 10)
        &&& self.framerate == spec_gravity(self.level as int, self.start_level as int)
    }
}

/// A playfield cell that is inside the bounds and empty.
pub open spec fn cell_free(sc: Screen, r: int, c: int) -> bool {
    spec_in_arena(r, c) && sc.at(r, c) == Symbol::Space
}

/// Both display cells of a block placed at `(r, c)` are free.
pub open spec fn pair_free(sc: Screen, r: int, c: int) -> bool {
    cell_free(sc, r, c) && cell_free(sc, r, c + 1)
}

/// The piece, shifted by `(dr, dc)`, would sit entirely on free playfield
/// cells.  With `(0, 0)` this is the plain occupancy test.
pub open spec fn spec_can_place(sc: Screen, s: Shape, dr: int, dc: int) -> bool {
    forall|i: int|
        0 <= i < 4 ==> pair_free(
            sc,
            (#[trigger] spec_cells(s)[i]).0 + dr,
            spec_cells(s)[i].1 + dc,
        )
}

pub open spec fn spec_dr(dir: Direction) -> int {
    match dir {
        Direction::Down => 1,
        _ => 0,
    }
}

pub open spec fn spec_dc(dir: Direction) -> int {
    match dir {
        Direction::Left => -2,
        Direction::Right => 2,
        Direction::Down => 0,
    }
}

/// A piece whose cells are in the playfield (or parked in the preview
/// window) has an anchor the cell arithmetic can be run from.
pub proof fn lemma_piece_on_screen(s: Shape)
    requires
        piece_ok(s) || fresh_shape(s),
    ensures
        on_screen(s),
        s.tl_coords.col <= 29,
{
    lemma_rel_cells_props(s.shape_type, eff_rots(s));
    if piece_ok(s) {
        lemma_rel_extremes(s.shape_type, eff_rots(s));
        let i = choose|i: int| 0 <= i < 4 && rel_cells(s.shape_type, eff_rots(s))[i].0 >= 1;
        assert(spec_cells(s)[i].0 <= 19);
        assert(spec_cells(s)[0].1 <= 22);
        assert(s.tl_coords.col <= spec_cells(s)[0].1);
    }
}

fn free_cell(screen: &Screen, row: usize, col: usize) -> (b: bool)
    requires
        screen.wf(),
    ensures
        b == cell_free(*screen, row as int, col as int),
{
    if in_arena(row, col) {
        proof {
            assert(screen.grid()[row as int].len() == SCREEN_COLS);
        }
        screen.is_space(row, col)
    } else {
        false
    }
}

fn free_pair(screen: &Screen, row: usize, col: usize) -> (b: bool)
    requires
        screen.wf(),
    ensures
        b == pair_free(*screen, row as int, col as int),
{
    free_cell(screen, row, col) && free_cell(screen, row, col + 1)
}

impl Game {
    /// Occupancy test: can the piece sit where it is, every cell on an
    /// empty playfield cell?
    pub fn can_occupy(&self, shape: &Shape) -> (b: bool)
        requires
            self.screen.wf(),
            on_screen(*shape),
        ensures
            b == spec_can_place(self.screen, *shape, 0, 0),
    {
        proof {
            lemma_rel_cells_props(shape.shape_type, eff_rots(*shape));
        }
        let cs = shape.coords();
        let ok = free_pair(&self.screen, cs[0].row, cs[0].col) && free_pair(
            &self.screen,
            cs[1].row,
            cs[1].col,
        ) && free_pair(&self.screen, cs[2].row, cs[2].col) && free_pair(
            &self.screen,
            cs[3].row,
            cs[3].col,
        );
        ok
    }

    /// Would the piece still sit on free playfield cells after one step in
    /// the given direction?
    pub fn space_available(&self, shape: Shape, dir: Direction) -> (b: bool)
        requires
            self.screen.wf(),
            on_screen(shape),
        ensures
            b == spec_can_place(self.screen, shape, spec_dr(dir), spec_dc(dir)),
    {
        proof {
            lemma_rel_cells_props(shape.shape_type, eff_rots(shape));
        }
        let cs = shape.coords();
        let mut i: usize = 0;
        let ghost dr = spec_dr(dir);
        let ghost dc = spec_dc(dir);
        while i < 4
            invariant
                i <= 4,
                self.screen.wf(),
                on_screen(shape),
                dr == spec_dr(dir),
                dc == spec_dc(dir),
                forall|j: int|
                    0 <= j < 4 ==> in_box(
                        #[trigger] rel_cells(shape.shape_type, eff_rots(shape))[j],
                        box_width(shape.shape_type),
                    ),
                forall|j: int|
                    0 <= j < 4 ==> (#[trigger] cs@[j]).row == spec_cells(shape)[j].0 && cs@[j].col
                        == spec_cells(shape)[j].1,
                forall|j: int|
                    0 <= j < i ==> pair_free(
                        self.screen,
                        (#[trigger] spec_cells(shape)[j]).0 + dr,
                        spec_cells(shape)[j].1 + dc,
                    ),
            decreases 4 - i,
        {
            let r = cs[i].row;
            let c = cs[i].col;
            let ok: bool = match dir {
                Direction::Left => c >= 2 && free_pair(&self.screen, r, c - 2),
                Direction::Right => free_pair(&self.screen, r, c + 2),
                Direction::Down => free_pair(&self.screen, r + 1, c),
            };
            if !ok {
                proof {
                    assert(!pair_free(self.screen, spec_cells(shape)[i as int].0 + dr, spec_cells(
                        shape,
                    )[i as int].1 + dc));
                }
                return false;
            }
            i = i + 1;
        }
        true
    }

    /// Try to move the active piece one step; it moves exactly when the
    /// target cells are free playfield cells.
    pub fn move_shape(&mut self, dir: Direction) -> (moved: bool)
        requires
            old(self).wf(),
            old(self).curr_shape.display != Display::Drop,
        ensures
            final(self).wf(),
            moved == spec_can_place(
                old(self).screen,
                old(self).curr_shape,
                spec_dr(dir),
                spec_dc(dir),
            ),
            final(self).screen == old(self).screen,
            final(self).next_shape == old(self).next_shape,
            final(self).is_easy == old(self).is_easy,
            final(self).framerate == old(self).framerate,
            final(self).level == old(self).level,
            final(self).score == old(self).score,
            final(self).lines == old(self).lines,
            final(self).count == old(self).count,
            final(self).stand_still == old(self).stand_still,
            final(self).needs_new_shape == old(self).needs_new_shape,
            final(self).game_over == old(self).game_over,
            final(self).rem_drop_height == old(self).rem_drop_height,
            final(self).start_level == old(self).start_level,
            !moved ==> final(self).curr_shape == old(self).curr_shape,
            moved ==> final(self).curr_shape == (Shape {
                tl_coords: Coord {
                    row: (old(self).curr_shape.tl_coords.row + spec_dr(dir)) as usize,
                    col: (old(self).curr_shape.tl_coords.col + spec_dc(dir)) as usize,
                },
                ..old(self).curr_shape
            }),
    {
        proof {
            lemma_piece_on_screen(self.curr_shape);
            lemma_rel_cells_props(self.curr_shape.shape_type, eff_rots(self.curr_shape));
            lemma_rel_extremes(self.curr_shape.shape_type, eff_rots(self.curr_shape));
        }
        if self.space_available(self.curr_shape, dir) {
            proof {
                assert(pair_free(
                    self.screen,
                    spec_cells(self.curr_shape)[0].0 + spec_dr(dir),
                    spec_cells(self.curr_shape)[0].1 + spec_dc(dir),
                ));
                if self.curr_shape.display == Display::Next {
                    assert(spec_cells(self.curr_shape)[0].1 >= 29);
                    assert(false);
                }
            }
            match dir {
                Direction::Left => {
                    proof {
                        let k = choose|k: int|
                            0 <= k < 4 && rel_cells(
                                self.curr_shape.shape_type,
                                eff_rots(self.curr_shape),
                            )[k].1 <= 2;
                        assert(pair_free(
                            self.screen,
                            spec_cells(self.curr_shape)[k].0,
                            spec_cells(self.curr_shape)[k].1 - 2,
                        ));
                    }
                    self.curr_shape.move_left();
                },
                Direction::Right => {
                    self.curr_shape.move_right();
                },
                Direction::Down => {
                    self.curr_shape.move_down();
                },
            }
            proof {
                assert forall|i: int| 0 <= i < 4 implies 0 <= (#[trigger] spec_cells(
                    self.curr_shape,
                )[i]).0 <= 19 && 4 <= spec_cells(self.curr_shape)[i].1 <= 22 && spec_cells(
                    self.curr_shape,
                )[i].1 % 2 == 0 by {
                    assert(pair_free(
                        self.screen,
                        spec_cells(old(self).curr_shape)[i].0 + spec_dr(dir),
                        spec_cells(old(self).curr_shape)[i].1 + spec_dc(dir),
                    ));
                    assert(spec_cells(self.curr_shape)[i].0 == spec_cells(old(self).curr_shape)[i].0
                        + spec_dr(dir));
                    assert(spec_cells(self.curr_shape)[i].1 == spec_cells(old(self).curr_shape)[i].1
                        + spec_dc(dir));
                }
            }
            true
        } else {
            false
        }
    }
}


/// Table value awarded for a number of simultaneously cleared rows.
pub open spec fn spec_points_table(rows_filled: int) -> int {
    if rows_filled <= 0 {
        0
    } else if rows_filled == 1 {
        40
    } else if rows_filled == 2 {
        100
    } else if rows_filled == 3 {
        300
    } else {
        1200
    }
}

/// Clamp an unbounded value into the `u32` range.
pub open spec fn sat_u32(x: int) -> int {
    if x > u32::MAX {
        u32::MAX as int
    } else {
        x
    }
}

/// The level advances when the line count reaches ten per level, or, on
/// the starting level, ten past ten-per-starting-level.
pub open spec fn spec_advance_cond(level: int, start: int, lines: int) -> bool {
    (level == start && lines > start * 10 + 10) || (lines >= level * 10)
}

/// The result of one rotation request: the turned piece as-is if its
/// cells are free, else kicked one step left, else one step right, else
/// the piece unchanged.
pub open spec fn spec_rotated(s: Shape) -> Shape {
    Shape {
        clockwise_rotations: if s.shape_type == ShapeType::O {
            s.clockwise_rotations
        } else {
            ((s.clockwise_rotations + 1) % 4) as u8
        },
        ..s
    }
}

pub open spec fn spec_shifted(s: Shape, dc: int) -> Shape {
    Shape { tl_coords: Coord { row: s.tl_coords.row, col: (s.tl_coords.col + dc) as usize }, ..s }
}

pub open spec fn spec_rotate_result(sc: Screen, s: Shape) -> Shape {
    let t = spec_rotated(s);
    if spec_can_place(sc, t, 0, 0) {
        t
    } else if spec_can_place(sc, t, 0, -2) {
        spec_shifted(t, -2)
    } else if spec_can_place(sc, t, 0, 2) {
        spec_shifted(t, 2)
    } else {
        s
    }
}

/// Two pieces whose cells differ by a fixed offset pass the same
/// occupancy tests, shifted by that offset.
proof fn lemma_can_place_shift(sc: Screen, a: Shape, b: Shape, dr: int, dc: int, dr2: int, dc2: int)
    requires
        forall|i: int|
            0 <= i < 4 ==> (#[trigger] spec_cells(b)[i]).0 == spec_cells(a)[i].0 + dr && spec_cells(
                b,
            )[i].1 == spec_cells(a)[i].1 + dc,
    ensures
        spec_can_place(sc, b, dr2, dc2) == spec_can_place(sc, a, dr + dr2, dc + dc2),
{
    if spec_can_place(sc, b, dr2, dc2) {
        assert forall|i: int|
            0 <= i < 4 implies pair_free(
            sc,
            (#[trigger] spec_cells(a)[i]).0 + (dr + dr2),
            spec_cells(a)[i].1 + (dc + dc2),
        ) by {
            assert(pair_free(sc, spec_cells(b)[i].0 + dr2, spec_cells(b)[i].1 + dc2));
        }
    }
    if spec_can_place(sc, a, dr + dr2, dc + dc2) {
        assert forall|i: int|
            0 <= i < 4 implies pair_free(
            sc,
            (#[trigger] spec_cells(b)[i]).0 + dr2,
            spec_cells(b)[i].1 + dc2,
        ) by {
            assert(pair_free(sc, spec_cells(a)[i].0 + (dr + dr2), spec_cells(a)[i].1 + (dc + dc2)));
        }
    }
}

/// The piece one row lower.
pub open spec fn row_below(s: Shape) -> Shape {
    Shape { tl_coords: Coord { row: (s.tl_coords.row + 1) as usize, col: s.tl_coords.col }, ..s }
}

/// The active piece as the gravity phase of a tick leaves it, provided
/// the session does not end there: nothing happens off the cadence; a
/// dropping-in piece falls one row; a piece whose drop-in just ended
/// starts falling; a falling piece falls one row when the cells below
/// are free, and otherwise the lock counter advances and past the
/// lock-delay threshold the piece locks.
pub open spec fn post_gravity_shape(g: Game) -> Shape {
    if g.count != 0 {
        g.curr_shape
    } else if g.rem_drop_height > 0 {
        row_below(g.curr_shape)
    } else {
        let s0 = if g.curr_shape.display == Display::Drop {
            Shape { display: Display::Arena, ..g.curr_shape }
        } else {
            g.curr_shape
        };
        if s0.is_dead {
            s0
        } else if spec_can_place(g.screen, s0, 1, 0) {
            row_below(s0)
        } else {
            let ss = if g.stand_still < 3 {
                g.stand_still + 1
            } else {
                g.stand_still as int
            };
            if (!g.is_easy && ss > 1) || ss > 2 {
                Shape { is_dead: true, ..s0 }
            } else {
                s0
            }
        }
    }
}

/// What one player command does to the piece: nothing unless the piece
/// is alive and falling inside the playfield; a move applies exactly
/// when its target cells are free; a rotation follows the wall-kick
/// rule.  The hard drop is stated separately, by its landing conditions.
pub open spec fn piece_command_result(sc: Screen, s: Shape, input: Option<Command>) -> Shape {
    if s.is_dead || s.display != Display::Arena {
        s
    } else {
        match input {
            Option::Some(Command::RotateCw) => spec_rotate_result(sc, s),
            Option::Some(Command::MoveLeft) => if spec_can_place(sc, s, 0, -2) {
                spec_shifted(s, -2)
            } else {
                s
            },
            Option::Some(Command::MoveRight) => if spec_can_place(sc, s, 0, 2) {
                spec_shifted(s, 2)
            } else {
                s
            },
            Option::Some(Command::SoftDrop) => if spec_can_place(sc, s, 1, 0) {
                row_below(s)
            } else {
                s
            },
            _ => s,
        }
    }
}

/// Below each of the piece's cells there is no settled block.
pub open spec fn spec_drop_clear(sc: Screen, s: Shape) -> bool {
    forall|i: int|
        0 <= i < 4 ==> !(sc.at((#[trigger] spec_cells(s)[i]).0 + 1, spec_cells(s)[i].1)
            is DeadBlock) && !(sc.at(spec_cells(s)[i].0 + 1, spec_cells(s)[i].1 + 1) is DeadBlock)
}

/// The anchor column that centers a freshly spawned piece over the
/// playfield, rounded down to an even column.
pub open spec fn spec_spawn_col(t: ShapeType) -> int {
    if t == ShapeType::O {
        12
    } else {
        10
    }
}

/// A freshly spawned piece: unrotated, alive, dropping in just above the
/// playfield, centered over it.
pub open spec fn spec_spawned(t: ShapeType) -> Shape {
    Shape {
        clockwise_rotations: 0,
        shape_type: t,
        tl_coords: Coord { row: 0, col: spec_spawn_col(t) as usize },
        display: Display::Drop,
        is_dead: false,
    }
}

/// A shape type other than `t`, picked by the draw `r` among the six
/// remaining types.
pub fn other_type(t: ShapeType, r: usize) -> (u: ShapeType)
    ensures
        u != t,
{
    let base: i16 = shape_to_num(t);
    let offset: i16 = ((r % 6) as i16) + 1;
    let num: i16 = ((base - 1 + offset) % 7) + 1;
    proof {
        assert(1 <= num <= 7);
        assert(num != base);
    }
    let u = num_to_shape(num);
    proof {
        assert(spec_shape_to_num(u) == num);
        assert(spec_shape_to_num(t) == base);
    }
    u
}

impl Game {
    /// One rotation request with the single-step wall kick: accept the
    /// turned piece as-is, else kicked one step left, else one step
    /// right; otherwise the piece is unchanged.
    #[verifier::rlimit(50)]
    pub fn rotate(&mut self)
        requires
            old(self).wf(),
            old(self).curr_shape.display != Display::Drop,
        ensures
            final(self).wf(),
            final(self).curr_shape == spec_rotate_result(old(self).screen, old(self).curr_shape),
            final(self).screen == old(self).screen,
            final(self).next_shape == old(self).next_shape,
            final(self).is_easy == old(self).is_easy,
            final(self).framerate == old(self).framerate,
            final(self).level == old(self).level,
            final(self).score == old(self).score,
            final(self).lines == old(self).lines,
            final(self).count == old(self).count,
            final(self).stand_still == old(self).stand_still,
            final(self).needs_new_shape == old(self).needs_new_shape,
            final(self).game_over == old(self).game_over,
            final(self).rem_drop_height == old(self).rem_drop_height,
            final(self).start_level == old(self).start_level,
    {
        proof {
            lemma_piece_on_screen(self.curr_shape);
        }
        let mut test = self.curr_shape;
        test.rotate_right();
        proof {
            assert(test == spec_rotated(old(self).curr_shape));
            lemma_rel_cells_props(test.shape_type, eff_rots(test));
            lemma_rel_extremes(test.shape_type, eff_rots(test));
        }
        if self.can_occupy(&test) {
            proof {
                self.lemma_accept_rotation(test);
            }
            self.curr_shape = test;
        } else {
            let mut done = false;
            if test.tl_coords.col >= 2 {
                let mut shifted = test;
                shifted.move_left();
                proof {
                    lemma_can_place_shift(self.screen, test, shifted, 0, -2, 0, 0);
                }
                if self.can_occupy(&shifted) {
                    proof {
                        self.lemma_accept_rotation(shifted);
                    }
                    self.curr_shape = shifted;
                    done = true;
                }
            } else {
                proof {
                    let k = choose|k: int|
                        0 <= k < 4 && rel_cells(test.shape_type, eff_rots(test))[k].1 <= 2;
                    assert(spec_cells(test)[k].1 - 2 < 4);
                    assert(!pair_free(self.screen, spec_cells(test)[k].0, spec_cells(test)[k].1 - 2));
                    assert(!spec_can_place(self.screen, test, 0, -2));
                }
            }
            if !done {
                let mut shifted = test;
                proof {
                    assert(test.tl_coords.col <= 29);
                }
                shifted.move_right();
                proof {
                    lemma_can_place_shift(self.screen, test, shifted, 0, 2, 0, 0);
                    assert(on_screen(shifted));
                }
                if self.can_occupy(&shifted) {
                    proof {
                        self.lemma_accept_rotation(shifted);
                    }
                    self.curr_shape = shifted;
                }
            }
        }
    }

    /// A rotated-and-kicked candidate whose cells are all free may become
    /// the active piece without breaking the session invariant.
    proof fn lemma_accept_rotation(&self, cand: Shape)
        requires
            self.wf(),
            self.curr_shape.display != Display::Drop,
            spec_can_place(self.screen, cand, 0, 0),
            cand.clockwise_rotations < 4,
            cand.shape_type == self.curr_shape.shape_type,
            cand.display == self.curr_shape.display,
            cand.is_dead == self.curr_shape.is_dead,
            cand.tl_coords.row == self.curr_shape.tl_coords.row,
            cand.tl_coords.col % 2 == self.curr_shape.tl_coords.col % 2,
            cand.tl_coords.col + 2 >= self.curr_shape.tl_coords.col,
            cand.tl_coords.col <= self.curr_shape.tl_coords.col + 2,
        ensures
            piece_ok(cand),
            active_ok(Game { curr_shape: cand, ..*self }),
    {
        lemma_rel_cells_props(cand.shape_type, eff_rots(cand));
        lemma_piece_on_screen(self.curr_shape);
        assert forall|i: int|
            0 <= i < 4 implies 0 <= (#[trigger] spec_cells(cand)[i]).0 <= 19 && 4 <= spec_cells(
            cand,
        )[i].1 <= 22 && spec_cells(cand)[i].1 % 2 == 0 by {
            assert(pair_free(self.screen, spec_cells(cand)[i].0, spec_cells(cand)[i].1));
            if fresh_shape(self.curr_shape) {
                assert(spec_cells(cand)[i].1 >= 27);
                assert(false);
            }
            assert(spec_cells(self.curr_shape)[0].1 % 2 == 0);
            assert(self.curr_shape.tl_coords.col % 2 == 0);
        }
        if fresh_shape(self.curr_shape) {
            assert(pair_free(self.screen, spec_cells(cand)[0].0, spec_cells(cand)[0].1));
            assert(false);
        }
    }

    /// Hard drop: move the piece down until it is blocked, then lock it.
    pub fn ground(&mut self)
        requires
            old(self).wf(),
            old(self).curr_shape.display == Display::Arena || old(self).curr_shape.display
                == Display::Drop,
        ensures
            final(self).wf(),
            old(self).curr_shape.display == Display::Drop ==> *final(self) == *old(self),
            old(self).curr_shape.display == Display::Arena ==> {
                &&& final(self).curr_shape.is_dead
                &&& final(self).curr_shape.shape_type == old(self).curr_shape.shape_type
                &&& final(self).curr_shape.clockwise_rotations == old(self).curr_shape.clockwise_rotations
                &&& final(self).curr_shape.display == Display::Arena
                &&& final(self).curr_shape.tl_coords.col == old(self).curr_shape.tl_coords.col
                &&& final(self).curr_shape.tl_coords.row >= old(self).curr_shape.tl_coords.row
                &&& !spec_can_place(
                    old(self).screen,
                    old(self).curr_shape,
                    final(self).curr_shape.tl_coords.row - old(self).curr_shape.tl_coords.row + 1,
                    0,
                )
                &&& forall|k: int|
                    1 <= k <= final(self).curr_shape.tl_coords.row - old(self).curr_shape.tl_coords.row ==> spec_can_place(
                        old(self).screen,
                        old(self).curr_shape,
                        k,
                        0,
                    )
            },
            final(self).screen == old(self).screen,
            final(self).next_shape == old(self).next_shape,
            final(self).is_easy == old(self).is_easy,
            final(self).framerate == old(self).framerate,
            final(self).level == old(self).level,
            final(self).score == old(self).score,
            final(self).lines == old(self).lines,
            final(self).count == old(self).count,
            final(self).stand_still == old(self).stand_still,
            final(self).needs_new_shape == old(self).needs_new_shape,
            final(self).game_over == old(self).game_over,
            final(self).rem_drop_height == old(self).rem_drop_height,
            final(self).start_level == old(self).start_level,
    {
        if matches!(self.curr_shape.display(), Display::Drop) {
            return ;
        }
        proof {
            lemma_rel_cells_props(self.curr_shape.shape_type, eff_rots(self.curr_shape));
        }
        proof {
            assert(self.curr_shape.tl_coords.row <= spec_cells(self.curr_shape)[0].0);
        }
        loop
            invariant
                self.wf(),
                self.curr_shape.display == Display::Arena,
                self.curr_shape.shape_type == old(self).curr_shape.shape_type,
                self.curr_shape.clockwise_rotations == old(self).curr_shape.clockwise_rotations,
                self.curr_shape.is_dead == old(self).curr_shape.is_dead,
                self.curr_shape.tl_coords.col == old(self).curr_shape.tl_coords.col,
                self.curr_shape.tl_coords.row >= old(self).curr_shape.tl_coords.row,
                self.curr_shape.tl_coords.row <= 19,
                forall|k: int|
                    1 <= k <= self.curr_shape.tl_coords.row - old(self).curr_shape.tl_coords.row
                        ==> spec_can_place(old(self).screen, old(self).curr_shape, k, 0),
                self.screen == old(self).screen,
                self.next_shape == old(self).next_shape,
                self.is_easy == old(self).is_easy,
                self.framerate == old(self).framerate,
                self.level == old(self).level,
                self.score == old(self).score,
                self.lines == old(self).lines,
                self.count == old(self).count,
                self.stand_still == old(self).stand_still,
                self.needs_new_shape == old(self).needs_new_shape,
                self.game_over == old(self).game_over,
                self.rem_drop_height == old(self).rem_drop_height,
                self.start_level == old(self).start_level,
            ensures
                self.wf(),
                self.curr_shape.display == Display::Arena,
                self.curr_shape.shape_type == old(self).curr_shape.shape_type,
                self.curr_shape.clockwise_rotations == old(self).curr_shape.clockwise_rotations,
                self.curr_shape.is_dead == old(self).curr_shape.is_dead,
                self.curr_shape.tl_coords.col == old(self).curr_shape.tl_coords.col,
                self.curr_shape.tl_coords.row >= old(self).curr_shape.tl_coords.row,
                forall|k: int|
                    1 <= k <= self.curr_shape.tl_coords.row - old(self).curr_shape.tl_coords.row
                        ==> spec_can_place(old(self).screen, old(self).curr_shape, k, 0),
                !spec_can_place(
                    old(self).screen,
                    old(self).curr_shape,
                    self.curr_shape.tl_coords.row - old(self).curr_shape.tl_coords.row + 1,
                    0,
                ),
                self.screen == old(self).screen,
                self.next_shape == old(self).next_shape,
                self.is_easy == old(self).is_easy,
                self.framerate == old(self).framerate,
                self.level == old(self).level,
                self.score == old(self).score,
                self.lines == old(self).lines,
                self.count == old(self).count,
                self.stand_still == old(self).stand_still,
                self.needs_new_shape == old(self).needs_new_shape,
                self.game_over == old(self).game_over,
                self.rem_drop_height == old(self).rem_drop_height,
                self.start_level == old(self).start_level,
            decreases 20 - self.curr_shape.tl_coords.row,
        {
            let ghost pre = *self;
            proof {
                lemma_can_place_shift(
                    self.screen,
                    old(self).curr_shape,
                    self.curr_shape,
                    self.curr_shape.tl_coords.row - old(self).curr_shape.tl_coords.row,
                    0,
                    1,
                    0,
                );
            }
            if !self.move_shape(Direction::Down) {
                break ;
            }
            proof {
                lemma_rel_cells_props(self.curr_shape.shape_type, eff_rots(self.curr_shape));
                assert(spec_can_place(pre.screen, pre.curr_shape, 1, 0));
                assert(self.curr_shape.tl_coords.row <= spec_cells(self.curr_shape)[0].0);
            }
        }
        let ghost before_lock = *self;
        self.curr_shape.kill();
        proof {
            assert forall|i: int|
                0 <= i < 4 implies 0 <= (#[trigger] spec_cells(self.curr_shape)[i]).0 <= 19 && 4
                <= spec_cells(self.curr_shape)[i].1 <= 22 && spec_cells(self.curr_shape)[i].1 % 2
                == 0 by {
                assert(spec_cells(self.curr_shape)[i].0 == spec_cells(before_lock.curr_shape)[i].0);
                assert(spec_cells(self.curr_shape)[i].1 == spec_cells(before_lock.curr_shape)[i].1);
            }
        }
    }

    /// How far the piece can fall before it is blocked; the easy-mode
    /// landing preview.
    pub fn ground_dist(&self) -> (d: usize)
        requires
            self.wf(),
        ensures
            !spec_can_place(self.screen, self.curr_shape, d + 1, 0),
            forall|k: int|
                1 <= k <= d ==> spec_can_place(self.screen, self.curr_shape, k, 0),
    {
        proof {
            lemma_piece_on_screen(self.curr_shape);
        }
        let mut down: usize = 0;
        let mut test = self.curr_shape;
        proof {
            lemma_rel_cells_props(test.shape_type, eff_rots(test));
            if !fresh_shape(self.curr_shape) {
                assert(test.tl_coords.row <= spec_cells(test)[0].0);
            }
        }
        loop
            invariant
                self.wf(),
                test.shape_type == self.curr_shape.shape_type,
                test.clockwise_rotations == self.curr_shape.clockwise_rotations,
                test.display == self.curr_shape.display,
                test.is_dead == self.curr_shape.is_dead,
                test.tl_coords.col == self.curr_shape.tl_coords.col,
                test.tl_coords.row == self.curr_shape.tl_coords.row + down,
                test.tl_coords.row <= 19,
                on_screen(test),
                forall|k: int|
                    1 <= k <= down ==> spec_can_place(self.screen, self.curr_shape, k, 0),
            decreases 20 - test.tl_coords.row,
        {
            proof {
                lemma_can_place_shift(self.screen, self.curr_shape, test, down as int, 0, 1, 0);
                lemma_rel_cells_props(test.shape_type, eff_rots(test));
                lemma_rel_extremes(test.shape_type, eff_rots(test));
            }
            if !self.space_available(test, Direction::Down) {
                return down;
            }
            let ghost pre_test = test;
            test.move_down();
            down = down + 1;
            proof {
                assert forall|i: int|
                    0 <= i < 4 implies pair_free(
                    self.screen,
                    (#[trigger] spec_cells(test)[i]).0,
                    spec_cells(test)[i].1,
                ) by {
                    assert(pair_free(
                        self.screen,
                        spec_cells(pre_test)[i].0 + 1,
                        spec_cells(pre_test)[i].1,
                    ));
                }
                let i = choose|i: int|
                    0 <= i < 4 && rel_cells(test.shape_type, eff_rots(test))[i].0 >= 1;
                assert(spec_cells(test)[i].0 <= 19);
                assert(test.tl_coords.row <= spec_cells(test)[i].0 - 1);
            }
        }
    }

    /// One step of the spawn drop-in: the piece moves down one row unless
    /// a settled block lies directly under it, which means the field is
    /// full and the session is over.
    pub fn drop_shape(&mut self) -> (ok: bool)
        requires
            old(self).wf(),
            old(self).curr_shape.display == Display::Drop,
            old(self).rem_drop_height > 0,
        ensures
            final(self).wf(),
            ok == spec_drop_clear(old(self).screen, old(self).curr_shape),
            !ok ==> *final(self) == *old(self),
            ok ==> final(self).curr_shape == (Shape {
                tl_coords: Coord {
                    row: (old(self).curr_shape.tl_coords.row + 1) as usize,
                    col: old(self).curr_shape.tl_coords.col,
                },
                ..old(self).curr_shape
            }),
            ok ==> final(self).rem_drop_height == old(self).rem_drop_height - 1,
            final(self).screen == old(self).screen,
            final(self).next_shape == old(self).next_shape,
            final(self).is_easy == old(self).is_easy,
            final(self).framerate == old(self).framerate,
            final(self).level == old(self).level,
            final(self).score == old(self).score,
            final(self).lines == old(self).lines,
            final(self).count == old(self).count,
            final(self).stand_still == old(self).stand_still,
            final(self).needs_new_shape == old(self).needs_new_shape,
            final(self).game_over == old(self).game_over,
            !ok ==> final(self).rem_drop_height == old(self).rem_drop_height,
            final(self).start_level == old(self).start_level,
    {
        proof {
            lemma_piece_on_screen(self.curr_shape);
            lemma_rel_cells_props(self.curr_shape.shape_type, eff_rots(self.curr_shape));
        }
        let cs = self.curr_shape.coords();
        let mut i: usize = 0;
        while i < 4
            invariant
                i <= 4,
                self.wf(),
                self.curr_shape.display == Display::Drop,
                piece_ok(self.curr_shape),
                forall|j: int|
                    0 <= j < 4 ==> (#[trigger] cs@[j]).row == spec_cells(self.curr_shape)[j].0
                        && cs@[j].col == spec_cells(self.curr_shape)[j].1,
                forall|j: int|
                    0 <= j < i ==> !(self.screen.at(
                        (#[trigger] spec_cells(self.curr_shape)[j]).0 + 1,
                        spec_cells(self.curr_shape)[j].1,
                    ) is DeadBlock) && !(self.screen.at(
                        spec_cells(self.curr_shape)[j].0 + 1,
                        spec_cells(self.curr_shape)[j].1 + 1,
                    ) is DeadBlock),
            decreases 4 - i,
        {
            proof {
                assert(self.screen.grid()[cs@[i as int].row + 1].len() == SCREEN_COLS);
            }
            let below_left = self.screen.get_cell(cs[i].row + 1, cs[i].col);
            let below_right = self.screen.get_cell(cs[i].row + 1, cs[i].col + 1);
            if matches!(below_left, Symbol::DeadBlock(_)) || matches!(
                below_right,
                Symbol::DeadBlock(_),
            ) {
                proof {
                    assert(!spec_drop_clear(self.screen, self.curr_shape));
                }
                return false;
            }
            i = i + 1;
        }
        self.curr_shape.move_down();
        self.rem_drop_height = self.rem_drop_height - 1;
        proof {
            assert forall|i: int|
                0 <= i < 4 implies 0 <= (#[trigger] spec_cells(self.curr_shape)[i]).0 <= 19 && 4
                <= spec_cells(self.curr_shape)[i].1 <= 22 && spec_cells(self.curr_shape)[i].1 % 2
                == 0 by {
                assert(in_box(
                    rel_cells(self.curr_shape.shape_type, eff_rots(self.curr_shape))[i],
                    box_width(self.curr_shape.shape_type),
                ));
                assert(spec_cells(old(self).curr_shape)[i].1 == spec_cells(self.curr_shape)[i].1);
            }
        }
        true
    }

    /// Award for clearing the given number of rows at the current level.
    pub fn points_earned(&self, rows_filled: usize) -> (p: u32)
        ensures
            p as int == sat_u32(spec_points_table(rows_filled as int) * self.level),
    {
        let base: u64 = match rows_filled {
            0 => 0,
            1 => 40,
            2 => 100,
            3 => 300,
            _ => 1200,
        };
        let prod: u64 = base * (self.level as u64);
        if prod > (u32::MAX as u64) {
            u32::MAX
        } else {
            prod as u32
        }
    }

    /// Move to the next level; the gravity period shortens by one tick
    /// unless it is already at its floor.
    pub fn advance_level(&mut self)
        requires
            old(self).wf(),
            spec_advance_cond(
                old(self).level as int,
                old(self).start_level as int,
                old(self).lines as int,
            ),
        ensures
            final(self).wf(),
            final(self).level == old(self).level + 1,
            final(self).framerate == if old(self).framerate > 2 {
                old(self).framerate - 1
            } else {
                old(self).framerate as int
            },
            *final(self) == (Game {
                level: final(self).level,
                framerate: final(self).framerate,
                ..*old(self)
            }),
    {
        self.level = self.level + 1;
        if self.framerate > 2 {
            self.framerate = self.framerate - 1;
        }
    }
}


/// The base coordinate table keeps every shape within its top two rows.
pub proof fn lemma_base_rows(t: ShapeType)
    ensures
        forall|i: int| 0 <= i < 4 ==> 0 <= (#[trigger] base_cells(t)[i]).0 <= 1,
{
}

/// The grid as it looks once a piece has been merged into it.
pub open spec fn merged_at(sc: Screen, s: Shape, r: int, c: int) -> Symbol {
    if shape_covers(s, r, c) {
        spec_symbol(s)
    } else {
        sc.at(r, c)
    }
}

/// Every column of the row holds a settled block once the piece is merged.
pub open spec fn merged_row_full(sc: Screen, s: Shape, r: int) -> bool {
    forall|c: int| 4 <= c < 24 ==> (#[trigger] merged_at(sc, s, r, c)) is DeadBlock
}

/// Number of full playfield rows strictly below row `rr` once the piece
/// is merged.
pub open spec fn merged_full_below(sc: Screen, s: Shape, rr: int) -> int
    decreases 19 - rr,
{
    if rr >= 19 {
        0
    } else {
        merged_full_below(sc, s, rr + 1) + (if merged_row_full(sc, s, rr + 1) {
            1int
        } else {
            0int
        })
    }
}

/// A screen that equals the merged grid cell for cell has the same full
/// rows as the merged grid.
proof fn lemma_merged_row_full(after: Screen, before: Screen, s: Shape, r: int)
    requires
        forall|rr: int, c: int|
            2 <= rr < 20 && 4 <= c < 24 ==> #[trigger] after.at(rr, c) == merged_at(
                before,
                s,
                rr,
                c,
            ),
        2 <= r < 20,
    ensures
        row_full(after, r) == merged_row_full(before, s, r),
{
    if row_full(after, r) {
        assert forall|c: int| 4 <= c < 24 implies (#[trigger] merged_at(before, s, r, c))
            is DeadBlock by {
            assert(after.at(r, c) == merged_at(before, s, r, c));
        }
    }
    if merged_row_full(before, s, r) {
        assert forall|c: int| 4 <= c < 24 implies (#[trigger] after.at(r, c)) is DeadBlock by {
            assert(merged_at(before, s, r, c) == after.at(r, c));
        }
    }
}

/// A screen that equals the merged grid cell for cell counts the same
/// full rows as the merged grid.
proof fn lemma_merged_counts(after: Screen, before: Screen, s: Shape, rr: int)
    requires
        forall|r: int, c: int|
            2 <= r < 20 && 4 <= c < 24 ==> #[trigger] after.at(r, c) == merged_at(before, s, r, c),
        1 <= rr <= 19,
    ensures
        full_count_below(after, rr) == merged_full_below(before, s, rr),
    decreases 19 - rr,
{
    if rr < 19 {
        lemma_merged_counts(after, before, s, rr + 1);
        lemma_merged_row_full(after, before, s, rr + 1);
    }
}

/// Every column of the row holds a settled block; a still-falling piece
/// never fills a row.
pub open spec fn row_full(sc: Screen, r: int) -> bool {
    forall|c: int| 4 <= c < 24 ==> (#[trigger] sc.at(r, c)) is DeadBlock
}

/// Number of full playfield rows strictly below row `s`.
pub open spec fn full_count_below(sc: Screen, s: int) -> int
    decreases 19 - s,
{
    if s >= 19 {
        0
    } else {
        full_count_below(sc, s + 1) + (if row_full(sc, s + 1) {
            1int
        } else {
            0int
        })
    }
}

/// A listing of exactly the full rows counts them the same way
/// `full_count_below` does.
proof fn lemma_fcb_eq(sc: Screen, lines: Seq<usize>, s: int)
    requires
        strictly_ascending(lines),
        forall|i: int| 0 <= i < lines.len() ==> 2 <= #[trigger] lines[i] < 20,
        forall|r: int| 2 <= r < 20 ==> (lines.contains(r as usize) <==> row_full(sc, r)),
        1 <= s <= 19,
    ensures
        count_gt(lines, s) == full_count_below(sc, s),
    decreases 19 - s,
{
    if s == 19 {
        assert forall|i: int| 0 <= i < lines.len() implies #[trigger] lines[i] <= 19 by {}
        lemma_count_gt_none_above(lines, 19);
    } else {
        lemma_fcb_eq(sc, lines, s + 1);
        lemma_count_gt_step(lines, s + 1);
        assert(lines.contains((s + 1) as usize) <==> row_full(sc, s + 1));
    }
}

fn row_is_full(screen: &Screen, row: usize) -> (b: bool)
    requires
        screen.wf(),
        2 <= row < 20,
    ensures
        b == row_full(*screen, row as int),
{
    let mut c: usize = 4;
    while c < 24
        invariant
            4 <= c <= 24,
            screen.wf(),
            2 <= row < 20,
            forall|cc: int| 4 <= cc < c ==> (#[trigger] screen.at(row as int, cc)) is DeadBlock,
        decreases 24 - c,
    {
        proof {
            assert(screen.grid()[row as int].len() == SCREEN_COLS);
        }
        let sym = screen.get_cell(row, c);
        if !matches!(sym, Symbol::DeadBlock(_)) {
            return false;
        }
        c = c + 1;
    }
    true
}

/// The indices of the full playfield rows, top to bottom.
fn full_rows(screen: &Screen) -> (res: Vec<usize>)
    requires
        screen.wf(),
    ensures
        strictly_ascending(res@),
        forall|i: int| 0 <= i < res@.len() ==> 2 <= #[trigger] res@[i] < 20,
        forall|r: int| 2 <= r < 20 ==> (res@.contains(r as usize) <==> row_full(*screen, r)),
        res@.len() == full_count_below(*screen, 1),
{
    let mut res: Vec<usize> = Vec::new();
    let mut r: usize = 2;
    while r < 20
        invariant
            2 <= r <= 20,
            screen.wf(),
            strictly_ascending(res@),
            forall|i: int| 0 <= i < res@.len() ==> 2 <= #[trigger] res@[i] < r,
            forall|rr: int| 2 <= rr < r ==> (res@.contains(rr as usize) <==> row_full(*screen, rr)),
        decreases 20 - r,
    {
        let ghost res0 = res@;
        if row_is_full(screen, r) {
            res.push(r);
            proof {
                assert forall|rr: int| 2 <= rr < r + 1 implies (res@.contains(rr as usize)
                    <==> row_full(*screen, rr)) by {
                    if res@.contains(rr as usize) {
                        let i = choose|i: int| 0 <= i < res@.len() && res@[i] == rr as usize;
                        if i < res0.len() {
                            assert(res0[i] == rr as usize);
                            assert(res0.contains(rr as usize));
                        }
                    }
                    if rr < r && row_full(*screen, rr) {
                        let i = choose|i: int| 0 <= i < res0.len() && res0[i] == rr as usize;
                        assert(res@[i] == rr as usize);
                        assert(res@.contains(rr as usize));
                    }
                    if rr == r {
                        assert(res@[res@.len() - 1] == rr as usize);
                        assert(res@.contains(rr as usize));
                    }
                }
            }
        } else {
            proof {
                assert forall|rr: int| 2 <= rr < r + 1 implies (res@.contains(rr as usize)
                    <==> row_full(*screen, rr)) by {
                    if rr == r && res@.contains(rr as usize) {
                        let i = choose|i: int| 0 <= i < res@.len() && res@[i] == rr as usize;
                        assert(res@[i] < r);
                        assert(false);
                    }
                }
            }
        }
        r = r + 1;
    }
    proof {
        lemma_fcb_eq(*screen, res@, 1);
        assert forall|i: int| 0 <= i < res@.len() implies #[trigger] res@[i] > 1 by {}
        lemma_count_gt_all_above(res@, 1);
    }
    res
}

impl Game {
    /// Put a fresh piece of the given type into play: centered over the
    /// playfield, in drop-in state, and already moved down one row when
    /// nothing blocks it.  Returns false when a settled block sits right
    /// under the spawn cells, which means the field is full.
    pub fn spawn_piece(&mut self, t: ShapeType) -> (ok: bool)
        requires
            old(self).wf(),
        ensures
            final(self).wf(),
            final(self).curr_shape.shape_type == t,
            final(self).curr_shape.clockwise_rotations == 0,
            final(self).curr_shape.display == Display::Drop,
            !final(self).curr_shape.is_dead,
            final(self).curr_shape.tl_coords.col == spec_spawn_col(t),
            !final(self).needs_new_shape,
            final(self).stand_still == 0,
            ok == spec_drop_clear(old(self).screen, spec_spawned(t)),
            ok ==> final(self).curr_shape.tl_coords.row == 1 && final(self).rem_drop_height == 1,
            !ok ==> final(self).curr_shape.tl_coords.row == 0 && final(self).rem_drop_height == 2,
            final(self).screen == old(self).screen,
            final(self).next_shape == old(self).next_shape,
            final(self).is_easy == old(self).is_easy,
            final(self).framerate == old(self).framerate,
            final(self).level == old(self).level,
            final(self).score == old(self).score,
            final(self).lines == old(self).lines,
            final(self).count == old(self).count,
            final(self).game_over == old(self).game_over,
            final(self).start_level == old(self).start_level,
            final(self).is_easy == old(self).is_easy,
    {
        self.curr_shape = Shape::with_type(t);
        self.curr_shape.change_display(Display::Drop, true);
        self.rem_drop_height = 2;
        self.stand_still = 0;
        self.needs_new_shape = false;
        proof {
            assert(self.curr_shape.tl_coords.row == 0);
            assert(self.curr_shape.tl_coords.col == 4);
        }
        self.curr_shape.center();
        proof {
            lemma_rel_cells_props(t, 0);
            if t == ShapeType::I {
                assert(Shape::spec_centered_col(
                    Shape {
                        clockwise_rotations: 0,
                        shape_type: t,
                        tl_coords: Coord { row: 0, col: 4 },
                        display: Display::Drop,
                        is_dead: false,
                    },
                ) == 10);
            } else if t == ShapeType::O {
                assert(Shape::spec_centered_col(
                    Shape {
                        clockwise_rotations: 0,
                        shape_type: t,
                        tl_coords: Coord { row: 0, col: 4 },
                        display: Display::Drop,
                        is_dead: false,
                    },
                ) == 12);
            } else {
                assert(Shape::spec_centered_col(
                    Shape {
                        clockwise_rotations: 0,
                        shape_type: t,
                        tl_coords: Coord { row: 0, col: 4 },
                        display: Display::Drop,
                        is_dead: false,
                    },
                ) == 10);
            }
            assert(self.curr_shape == spec_spawned(t));
            assert forall|i: int|
                0 <= i < 4 implies 0 <= (#[trigger] spec_cells(self.curr_shape)[i]).0 <= 19 && 4
                <= spec_cells(self.curr_shape)[i].1 <= 22 && spec_cells(self.curr_shape)[i].1 % 2
                == 0 by {
                assert(in_box(rel_cells(t, 0)[i], box_width(t)));
            }
        }
        let ok = self.drop_shape();
        ok
    }

    /// Promote the previewed piece into play and draw a fresh preview
    /// piece of a different type, picked by the draw `r`.  Returns false
    /// when the field is full at the spawn cells.
    pub fn gen_shape_from(&mut self, r: usize) -> (ok: bool)
        requires
            old(self).wf(),
        ensures
            final(self).wf(),
            final(self).curr_shape.shape_type == old(self).next_shape.shape_type,
            final(self).next_shape.shape_type != old(self).next_shape.shape_type,
            fresh_shape(final(self).next_shape),
            final(self).curr_shape.display == Display::Drop,
            final(self).curr_shape.clockwise_rotations == 0,
            !final(self).curr_shape.is_dead,
            final(self).curr_shape.tl_coords.col == spec_spawn_col(
                old(self).next_shape.shape_type,
            ),
            !final(self).needs_new_shape,
            final(self).stand_still == 0,
            ok == spec_drop_clear(old(self).screen, spec_spawned(old(self).next_shape.shape_type)),
            ok ==> final(self).curr_shape.tl_coords.row == 1 && final(self).rem_drop_height == 1,
            !ok ==> final(self).curr_shape.tl_coords.row == 0 && final(self).rem_drop_height == 2,
            forall|rr: int, c: int|
                0 <= rr < SCREEN_ROWS && 0 <= c < SCREEN_COLS && !crate::primitives::spec_in_next_disp(
                    rr,
                    c,
                ) ==> #[trigger] final(self).screen.at(rr, c) == old(self).screen.at(rr, c),
            forall|rr: int, c: int|
                crate::primitives::spec_in_next_disp(rr, c) ==> #[trigger] final(self).screen.at(
                    rr,
                    c,
                ) == (if shape_covers(final(self).next_shape, rr, c) {
                    spec_symbol(final(self).next_shape)
                } else {
                    Symbol::Space
                }),
            final(self).is_easy == old(self).is_easy,
            final(self).framerate == old(self).framerate,
            final(self).level == old(self).level,
            final(self).score == old(self).score,
            final(self).lines == old(self).lines,
            final(self).count == old(self).count,
            final(self).game_over == old(self).game_over,
            final(self).start_level == old(self).start_level,
    {
        let t = self.next_shape.shape_type();
        let u = other_type(t, r);
        self.next_shape = Shape::with_type(u);
        let nxt = self.next_shape;
        proof {
            lemma_base_rows(u);
            lemma_rel_cells_props(u, 0);
            assert forall|i: int|
                0 <= i < 4 implies crate::primitives::spec_in_next_disp(
                (#[trigger] spec_cells(nxt)[i]).0,
                spec_cells(nxt)[i].1,
            ) && crate::primitives::spec_in_next_disp(
                spec_cells(nxt)[i].0,
                spec_cells(nxt)[i].1 + 1,
            ) by {
                assert(rel_cells(u, 0) == base_cells(u));
                assert(0 <= base_cells(u)[i].0 <= 1);
                assert(in_box(rel_cells(u, 0)[i], box_width(u)));
            }
        }
        self.screen.add_next(&nxt);
        let ghost mid = *self;
        let ok = self.spawn_piece(t);
        proof {
            let sp = spec_spawned(t);
            lemma_rel_cells_props(t, 0);
            assert forall|i: int|
                0 <= i < 4 implies mid.screen.at(
                (#[trigger] spec_cells(sp)[i]).0 + 1,
                spec_cells(sp)[i].1,
            ) == old(self).screen.at(spec_cells(sp)[i].0 + 1, spec_cells(sp)[i].1)
                && mid.screen.at(spec_cells(sp)[i].0 + 1, spec_cells(sp)[i].1 + 1) == old(self).screen.at(spec_cells(sp)[i].0 + 1, spec_cells(sp)[i].1 + 1) by {
                assert(in_box(rel_cells(t, 0)[i], box_width(t)));
                assert(spec_cells(sp)[i].1 <= spec_spawn_col(t) + 6);
            }
            assert(spec_drop_clear(mid.screen, sp) == spec_drop_clear(old(self).screen, sp));
        }
        ok
    }

    /// Count and clear the full rows, award points and line credit, show
    /// the new totals, and advance the level when the line count calls
    /// for it.  Returns whether the level advanced.
    #[verifier::rlimit(50)]
    pub fn points(&mut self) -> (advanced: bool)
        requires
            old(self).wf(),
        ensures
            final(self).wf(),
            final(self).lines as int == sat_u32(
                old(self).lines + full_count_below(old(self).screen, 1),
            ),
            final(self).score as int == sat_u32(
                old(self).score + sat_u32(
                    spec_points_table(full_count_below(old(self).screen, 1)) * old(self).level,
                ),
            ),
            advanced == spec_advance_cond(
                old(self).level as int,
                old(self).start_level as int,
                final(self).lines as int,
            ),
            advanced ==> final(self).level == old(self).level + 1 && final(self).framerate == (
            if old(self).framerate > 2 {
                old(self).framerate - 1
            } else {
                old(self).framerate as int
            }),
            !advanced ==> final(self).level == old(self).level && final(self).framerate == old(self).framerate,
            forall|s: int, c: int|
                2 <= s < 20 && 4 <= c < 24 && !row_full(old(self).screen, s)
                    ==> #[trigger] final(self).screen.at(
                    s + full_count_below(old(self).screen, s),
                    c,
                ) == old(self).screen.at(s, c),
            forall|rr: int, c: int|
                2 <= rr < 2 + full_count_below(old(self).screen, 1) && 4 <= c < 24
                    ==> #[trigger] final(self).screen.at(rr, c) == Symbol::Space,
            forall|j: int|
                0 <= j < 7 && j < dec_digits(final(self).score as nat).len() ==> #[trigger] final(self).screen.at(11, 30 + j) == Symbol::Data(dec_digits(final(self).score as nat)[j]),
            forall|j: int|
                0 <= j < 7 && j < dec_digits(final(self).lines as nat).len() ==> #[trigger] final(self).screen.at(17, 30 + j) == Symbol::Data(dec_digits(final(self).lines as nat)[j]),
            forall|r: int, c: int|
                0 <= r < SCREEN_ROWS && 0 <= c < SCREEN_COLS && !spec_in_arena(r, c)
                    && !spec_in_area(r, c, spec_get_tl(Display::Score), spec_get_dims(Display::Score))
                    && !spec_in_area(r, c, spec_get_tl(Display::Lines), spec_get_dims(Display::Lines))
                    ==> #[trigger] final(self).screen.at(r, c) == old(self).screen.at(r, c),
            final(self).curr_shape == old(self).curr_shape,
            final(self).next_shape == old(self).next_shape,
            final(self).is_easy == old(self).is_easy,
            final(self).count == old(self).count,
            final(self).stand_still == old(self).stand_still,
            final(self).rem_drop_height == old(self).rem_drop_height,
            final(self).needs_new_shape == old(self).needs_new_shape,
            final(self).game_over == old(self).game_over,
            final(self).start_level == old(self).start_level,
            final(self).score >= old(self).score,
            final(self).lines >= old(self).lines,
            final(self).level >= old(self).level,
            final(self).framerate <= old(self).framerate,
    {
        let full = full_rows(&self.screen);
        let n = full.len();
        proof {
            lemma_ascending_len(full@);
        }
        let n32: u32 = n as u32;
        if self.lines > u32::MAX - n32 {
            self.lines = u32::MAX;
        } else {
            self.lines = self.lines + n32;
        }
        let pts = self.points_earned(n);
        if self.score > u32::MAX - pts {
            self.score = u32::MAX;
        } else {
            self.score = self.score + pts;
        }
        self.screen.update_stat_display(self.score, Display::Score);
        self.screen.update_stat_display(self.lines, Display::Lines);
        let ghost pre_shift = self.screen;
        self.screen.shift_lines(&full);
        proof {
            assert forall|s: int, c: int|
                2 <= s < 20 && 4 <= c < 24 && !row_full(old(self).screen, s) implies #[trigger] self.screen.at(
                s + full_count_below(old(self).screen, s),
                c,
            ) == old(self).screen.at(s, c) by {
                lemma_fcb_eq(old(self).screen, full@, s);
                assert(!full@.contains(s as usize));
                assert(pre_shift.at(s, c) == old(self).screen.at(s, c));
                assert(self.screen.at(s + count_gt(full@, s), c) == pre_shift.at(s, c));
            }
        }
        let advanced: bool;
        if (self.level == self.start_level && (self.lines as u64) > (self.start_level as u64) * 10
            + 10) || ((self.lines as u64) >= (self.level as u64) * 10) {
            self.advance_level();
            advanced = true;
        } else {
            advanced = false;
        }
        advanced
    }
}


impl Game {
    /// A session over the given screen, starting at the given level, with
    /// the two given piece types as the first active piece and preview.
    pub fn new_with(
        screen: Screen,
        start_level: u32,
        is_easy: bool,
        first: ShapeType,
        second: ShapeType,
    ) -> (g: Game)
        requires
            screen.wf(),
            1 <= start_level <= 23,
        ensures
            g.wf(),
            g.screen == screen,
            g.is_easy == is_easy,
            g.start_level == start_level,
            g.level == start_level,
            g.framerate == 24 - start_level,
            g.score == 0,
            g.lines == 0,
            g.count == 0,
            g.stand_still == 0,
            g.rem_drop_height == 0,
            g.needs_new_shape,
            !g.game_over,
            fresh_shape(g.curr_shape),
            fresh_shape(g.next_shape),
            g.curr_shape.shape_type == first,
            g.next_shape.shape_type == second,
    {
        Game {
            is_easy,
            framerate: 24 - start_level,
            rem_drop_height: 0,
            screen,
            curr_shape: Shape::with_type(first),
            next_shape: Shape::with_type(second),
            level: start_level,
            start_level,
            score: 0,
            lines: 0,
            count: 0,
            stand_still: 0,
            needs_new_shape: true,
            game_over: false,
        }
    }

    /// Merge the locked piece into the grid, award points and line credit
    /// for the rows it completes, clear them, and ask for a fresh spawn.
    pub fn lock_piece(&mut self)
        requires
            old(self).wf(),
            old(self).curr_shape.is_dead,
            !old(self).needs_new_shape,
        ensures
            final(self).wf(),
            final(self).needs_new_shape,
            final(self).lines as int == sat_u32(
                old(self).lines + merged_full_below(old(self).screen, old(self).curr_shape, 1),
            ),
            final(self).score as int == sat_u32(
                old(self).score + sat_u32(
                    spec_points_table(
                        merged_full_below(old(self).screen, old(self).curr_shape, 1),
                    ) * old(self).level,
                ),
            ),
            final(self).level == old(self).level + (if spec_advance_cond(
                old(self).level as int,
                old(self).start_level as int,
                final(self).lines as int,
            ) {
                1int
            } else {
                0int
            }),
            final(self).framerate == (if spec_advance_cond(
                old(self).level as int,
                old(self).start_level as int,
                final(self).lines as int,
            ) && old(self).framerate > 2 {
                old(self).framerate - 1
            } else {
                old(self).framerate as int
            }),
            forall|r: int, c: int|
                2 <= r < 20 && 4 <= c < 24 && !merged_row_full(
                    old(self).screen,
                    old(self).curr_shape,
                    r,
                ) ==> #[trigger] final(self).screen.at(
                    r + merged_full_below(old(self).screen, old(self).curr_shape, r),
                    c,
                ) == merged_at(old(self).screen, old(self).curr_shape, r, c),
            forall|r: int, c: int|
                2 <= r < 2 + merged_full_below(old(self).screen, old(self).curr_shape, 1) && 4 <= c
                    < 24 ==> #[trigger] final(self).screen.at(r, c) == Symbol::Space,
            forall|j: int|
                0 <= j < 7 && j < dec_digits(final(self).score as nat).len() ==> #[trigger] final(self).screen.at(11, 30 + j) == Symbol::Data(dec_digits(final(self).score as nat)[j]),
            forall|j: int|
                0 <= j < 7 && j < dec_digits(final(self).lines as nat).len() ==> #[trigger] final(self).screen.at(17, 30 + j) == Symbol::Data(dec_digits(final(self).lines as nat)[j]),
            forall|r: int, c: int|
                0 <= r < SCREEN_ROWS && 0 <= c < SCREEN_COLS && !spec_in_arena(r, c)
                    && !spec_in_area(r, c, spec_get_tl(Display::Score), spec_get_dims(Display::Score))
                    && !spec_in_area(r, c, spec_get_tl(Display::Lines), spec_get_dims(Display::Lines))
                    ==> #[trigger] final(self).screen.at(r, c) == old(self).screen.at(r, c),
            final(self).curr_shape == old(self).curr_shape,
            final(self).next_shape == old(self).next_shape,
            final(self).is_easy == old(self).is_easy,
            final(self).count == old(self).count,
            final(self).stand_still == old(self).stand_still,
            final(self).rem_drop_height == old(self).rem_drop_height,
            final(self).game_over == old(self).game_over,
            final(self).start_level == old(self).start_level,
            final(self).score >= old(self).score,
            final(self).lines >= old(self).lines,
            final(self).level >= old(self).level,
            final(self).framerate <= old(self).framerate,
    {
        proof {
            lemma_rel_cells_props(self.curr_shape.shape_type, eff_rots(self.curr_shape));
            lemma_piece_on_screen(self.curr_shape);
            assert forall|i: int|
                0 <= i < 4 implies spec_in_arena(
                (#[trigger] spec_cells(self.curr_shape)[i]).0,
                spec_cells(self.curr_shape)[i].1,
            ) && spec_in_arena(
                spec_cells(self.curr_shape)[i].0,
                spec_cells(self.curr_shape)[i].1 + 1,
            ) by {
                assert(spec_cells(self.curr_shape)[i].0 >= self.curr_shape.tl_coords.row);
            }
        }
        let cur = self.curr_shape;
        self.screen.set_shape(&cur);
        let ghost merged = self.screen;
        proof {
            assert forall|r: int, c: int|
                2 <= r < 20 && 4 <= c < 24 implies #[trigger] merged.at(r, c) == merged_at(
                old(self).screen,
                cur,
                r,
                c,
            ) by {}
            lemma_merged_counts(merged, old(self).screen, cur, 1);
        }
        self.points();
        self.needs_new_shape = true;
        proof {
            assert forall|r: int, c: int|
                2 <= r < 20 && 4 <= c < 24 && !merged_row_full(
                    old(self).screen,
                    cur,
                    r,
                ) implies #[trigger] self.screen.at(
                r + merged_full_below(old(self).screen, cur, r),
                c,
            ) == merged_at(old(self).screen, cur, r, c) by {
                lemma_merged_row_full(merged, old(self).screen, cur, r);
                if r <= 19 {
                    lemma_merged_counts(merged, old(self).screen, cur, r);
                }
                assert(self.screen.at(r + full_count_below(merged, r), c) == merged.at(r, c));
            }
            assert forall|r: int, c: int|
                0 <= r < SCREEN_ROWS && 0 <= c < SCREEN_COLS && !spec_in_arena(r, c)
                    && !spec_in_area(r, c, spec_get_tl(Display::Score), spec_get_dims(Display::Score))
                    && !spec_in_area(
                    r,
                    c,
                    spec_get_tl(Display::Lines),
                    spec_get_dims(Display::Lines),
                ) implies #[trigger] self.screen.at(r, c) == old(self).screen.at(r, c) by {
                assert(!shape_covers(cur, r, c));
                assert(merged.at(r, c) == old(self).screen.at(r, c));
            }
        }
    }

    /// One tick of the session: on the gravity cadence the piece drops in
    /// or falls and the lock counter advances; at most one player command
    /// is applied; a locked piece is merged, rows are scored and cleared.
    /// Returns false when the session ends, by a blocked drop-in (field
    /// full) or a restart request.
    #[verifier::rlimit(100)]
    pub fn tick(&mut self, input: Option<Command>) -> (running: bool)
        requires
            old(self).wf(),
            !old(self).needs_new_shape,
            !old(self).game_over,
        ensures
            final(self).wf(),
            final(self).game_over == (old(self).count == 0 && old(self).rem_drop_height > 0
                && !spec_drop_clear(old(self).screen, old(self).curr_shape)),
            !running <==> (final(self).game_over || input is Some
                && input.unwrap() is Restart),
            final(self).game_over ==> *final(self) == (Game { game_over: true, ..*old(self) }),
            final(self).next_shape == old(self).next_shape,
            final(self).start_level == old(self).start_level,
            final(self).curr_shape.shape_type == old(self).curr_shape.shape_type,
            !final(self).game_over ==> final(self).is_easy == (if input is Some
                && input.unwrap() is ToggleEasy {
                !old(self).is_easy
            } else {
                old(self).is_easy
            }),
            !final(self).game_over ==> final(self).count == (if old(self).count + 1 >= final(self).framerate {
                0int
            } else {
                old(self).count + 1
            }),
            final(self).needs_new_shape == (!final(self).game_over
                && final(self).curr_shape.is_dead),
            !final(self).game_over && !final(self).needs_new_shape ==> final(self).screen == old(self).screen && final(self).score == old(self).score && final(self).lines == old(self).lines && final(self).level == old(self).level && final(self).framerate == old(self).framerate,
            final(self).score >= old(self).score,
            final(self).lines >= old(self).lines,
            final(self).level >= old(self).level,
            final(self).framerate <= old(self).framerate,
            final(self).needs_new_shape ==> final(self).lines as int == sat_u32(
                old(self).lines + merged_full_below(old(self).screen, final(self).curr_shape, 1),
            ),
            final(self).needs_new_shape ==> final(self).score as int == sat_u32(
                old(self).score + sat_u32(
                    spec_points_table(
                        merged_full_below(old(self).screen, final(self).curr_shape, 1),
                    ) * old(self).level,
                ),
            ),
            !final(self).game_over && !(input is Some && input.unwrap() is HardDrop)
                ==> final(self).curr_shape == piece_command_result(
                old(self).screen,
                post_gravity_shape(*old(self)),
                input,
            ),
            !final(self).game_over && input is Some && input.unwrap() is HardDrop && !post_gravity_shape(
                *old(self),
            ).is_dead && post_gravity_shape(*old(self)).display == Display::Arena ==> {
                &&& final(self).curr_shape.is_dead
                &&& final(self).curr_shape.clockwise_rotations == post_gravity_shape(
                    *old(self),
                ).clockwise_rotations
                &&& final(self).curr_shape.display == Display::Arena
                &&& final(self).curr_shape.tl_coords.col == post_gravity_shape(
                    *old(self),
                ).tl_coords.col
                &&& final(self).curr_shape.tl_coords.row >= post_gravity_shape(
                    *old(self),
                ).tl_coords.row
                &&& !spec_can_place(
                    old(self).screen,
                    post_gravity_shape(*old(self)),
                    final(self).curr_shape.tl_coords.row - post_gravity_shape(
                        *old(self),
                    ).tl_coords.row + 1,
                    0,
                )
                &&& forall|k: int|
                    1 <= k <= final(self).curr_shape.tl_coords.row - post_gravity_shape(
                        *old(self),
                    ).tl_coords.row ==> spec_can_place(
                        old(self).screen,
                        post_gravity_shape(*old(self)),
                        k,
                        0,
                    )
            },
            !final(self).game_over && input is Some && input.unwrap() is HardDrop && (
            post_gravity_shape(*old(self)).is_dead || post_gravity_shape(*old(self)).display
                != Display::Arena) ==> final(self).curr_shape == post_gravity_shape(*old(self)),
            final(self).needs_new_shape ==> forall|r: int, c: int|
                2 <= r < 20 && 4 <= c < 24 && !merged_row_full(
                    old(self).screen,
                    final(self).curr_shape,
                    r,
                ) ==> #[trigger] final(self).screen.at(
                    r + merged_full_below(old(self).screen, final(self).curr_shape, r),
                    c,
                ) == merged_at(old(self).screen, final(self).curr_shape, r, c),
            final(self).needs_new_shape ==> forall|r: int, c: int|
                2 <= r < 2 + merged_full_below(old(self).screen, final(self).curr_shape, 1) && 4
                    <= c < 24 ==> #[trigger] final(self).screen.at(r, c) == Symbol::Space,
            final(self).needs_new_shape ==> forall|j: int|
                0 <= j < 7 && j < dec_digits(final(self).score as nat).len() ==> #[trigger] final(self).screen.at(11, 30 + j) == Symbol::Data(dec_digits(final(self).score as nat)[j]),
            final(self).needs_new_shape ==> forall|j: int|
                0 <= j < 7 && j < dec_digits(final(self).lines as nat).len() ==> #[trigger] final(self).screen.at(17, 30 + j) == Symbol::Data(dec_digits(final(self).lines as nat)[j]),
    {
        let mut running = true;
        // Gravity cadence.
        if self.count == 0 {
            if self.rem_drop_height > 0 {
                if !self.drop_shape() {
                    self.game_over = true;
                    return false;
                }
            } else {
                if matches!(self.curr_shape.display(), Display::Drop) {
                    self.curr_shape.change_display(Display::Arena, false);
                    proof {
                        assert forall|i: int|
                            0 <= i < 4 implies (#[trigger] spec_cells(self.curr_shape)[i])
                            == spec_cells(old(self).curr_shape)[i] by {}
                    }
                }
                if !self.curr_shape.is_dead() {
                    if !self.move_shape(Direction::Down) {
                        if self.stand_still < 3 {
                            self.stand_still = self.stand_still + 1;
                        }
                        if (!self.is_easy && self.stand_still > 1) || self.stand_still > 2 {
                            let ghost before_lock = *self;
                            self.curr_shape.kill();
                            proof {
                                assert forall|i: int|
                                    0 <= i < 4 implies (#[trigger] spec_cells(self.curr_shape)[i])
                                    == spec_cells(before_lock.curr_shape)[i] by {}
                            }
                        }
                    } else {
                        self.stand_still = 0;
                    }
                }
            }
        }
        proof {
            assert(self.curr_shape == post_gravity_shape(*old(self)));
            assert(self.screen == old(self).screen);
        }
        let ghost post_g = self.curr_shape;
        // Player input: settings and session commands always apply; the
        // piece itself answers only while alive and inside the playfield.
        match input {
            Option::Some(Command::ToggleEasy) => {
                self.is_easy = !self.is_easy;
            },
            Option::Some(Command::Restart) => {
                running = false;
            },
            Option::Some(Command::RotateCw) => {
                if !self.curr_shape.is_dead() && matches!(
                    self.curr_shape.display(),
                    Display::Arena,
                ) {
                    self.rotate();
                }
            },
            Option::Some(Command::MoveLeft) => {
                if !self.curr_shape.is_dead() && matches!(
                    self.curr_shape.display(),
                    Display::Arena,
                ) {
                    self.move_shape(Direction::Left);
                }
            },
            Option::Some(Command::MoveRight) => {
                if !self.curr_shape.is_dead() && matches!(
                    self.curr_shape.display(),
                    Display::Arena,
                ) {
                    self.move_shape(Direction::Right);
                }
            },
            Option::Some(Command::SoftDrop) => {
                if !self.curr_shape.is_dead() && matches!(
                    self.curr_shape.display(),
                    Display::Arena,
                ) {
                    self.move_shape(Direction::Down);
                }
            },
            Option::Some(Command::HardDrop) => {
                if !self.curr_shape.is_dead() && matches!(
                    self.curr_shape.display(),
                    Display::Arena,
                ) {
                    self.ground();
                }
            },
            Option::None => {},
        }
        proof {
            if !(input is Some && input.unwrap() is HardDrop) {
                assert(self.curr_shape == piece_command_result(old(self).screen, post_g, input));
            }
            assert(self.screen == old(self).screen);
        }
        // Lock: merge the piece, score and clear rows, ask for a spawn.
        if self.curr_shape.is_dead() {
            self.lock_piece();
        }
        // Advance the tick phase within the gravity period.
        self.count = if self.count + 1 >= self.framerate {
            0
        } else {
            self.count + 1
        };
        running
    }
}


impl Game {
    /// A session over the given screen, starting at the given level, with
    /// the first two piece types drawn at random.
    pub fn new(screen: Screen, start_level: u32, is_easy: bool) -> (g: Self)
        requires
            screen.wf(),
            1 <= start_level <= 23,
        ensures
            g.wf(),
            g.screen == screen,
            g.is_easy == is_easy,
            g.start_level == start_level,
            g.level == start_level,
            g.framerate == 24 - start_level,
            g.score == 0,
            g.lines == 0,
            g.count == 0,
            g.stand_still == 0,
            g.rem_drop_height == 0,
            g.needs_new_shape,
            !g.game_over,
            fresh_shape(g.curr_shape),
            fresh_shape(g.next_shape),
    {
        let first = Shape::new();
        let second = Shape::new();
        Game::new_with(screen, start_level, is_easy, first.shape_type(), second.shape_type())
    }

    /// Promote the previewed piece into play and draw a fresh preview
    /// piece at random, always of a different type.  Returns false when
    /// the field is full at the spawn cells.
    pub fn gen_shape(&mut self) -> (ok: bool)
        requires
            old(self).wf(),
        ensures
            final(self).wf(),
            final(self).curr_shape.shape_type == old(self).next_shape.shape_type,
            final(self).next_shape.shape_type != old(self).next_shape.shape_type,
            fresh_shape(final(self).next_shape),
            final(self).curr_shape.display == Display::Drop,
            final(self).curr_shape.clockwise_rotations == 0,
            !final(self).curr_shape.is_dead,
            final(self).curr_shape.tl_coords.col == spec_spawn_col(
                old(self).next_shape.shape_type,
            ),
            !final(self).needs_new_shape,
            final(self).stand_still == 0,
            ok == spec_drop_clear(old(self).screen, spec_spawned(old(self).next_shape.shape_type)),
            ok ==> final(self).curr_shape.tl_coords.row == 1 && final(self).rem_drop_height == 1,
            !ok ==> final(self).curr_shape.tl_coords.row == 0 && final(self).rem_drop_height == 2,
            forall|rr: int, c: int|
                0 <= rr < SCREEN_ROWS && 0 <= c < SCREEN_COLS && !crate::primitives::spec_in_next_disp(
                    rr,
                    c,
                ) ==> #[trigger] final(self).screen.at(rr, c) == old(self).screen.at(rr, c),
            forall|rr: int, c: int|
                crate::primitives::spec_in_next_disp(rr, c) ==> #[trigger] final(self).screen.at(
                    rr,
                    c,
                ) == (if shape_covers(final(self).next_shape, rr, c) {
                    spec_symbol(final(self).next_shape)
                } else {
                    Symbol::Space
                }),
            final(self).is_easy == old(self).is_easy,
            final(self).framerate == old(self).framerate,
            final(self).level == old(self).level,
            final(self).score == old(self).score,
            final(self).lines == old(self).lines,
            final(self).count == old(self).count,
            final(self).game_over == old(self).game_over,
            final(self).start_level == old(self).start_level,
    {
        let r: usize = rand::random::<usize>();
        self.gen_shape_from(r)
    }
}


/// A freshly built screen reports every playfield cell as empty, and any
/// piece placement whose cells all lie within the playfield passes the
/// occupancy test on it.
pub proof fn lemma_fresh_screen_occupancy(sc: Screen, s: Shape)
    requires
        forall|r: int, c: int|
            0 <= r < SCREEN_ROWS && 0 <= c < SCREEN_COLS ==> #[trigger] sc.at(r, c)
                == crate::screen::init_sym(r, c),
        forall|i: int|
            0 <= i < 4 ==> spec_in_arena(
                (#[trigger] spec_cells(s)[i]).0,
                spec_cells(s)[i].1,
            ) && spec_in_arena(spec_cells(s)[i].0, spec_cells(s)[i].1 + 1),
    ensures
        forall|r: int, c: int| spec_in_arena(r, c) ==> #[trigger] sc.at(r, c) == Symbol::Space,
        spec_can_place(sc, s, 0, 0),
{
    assert forall|r: int, c: int| spec_in_arena(r, c) implies #[trigger] sc.at(r, c)
        == Symbol::Space by {
        assert(sc.at(r, c) == crate::screen::init_sym(r, c));
    }
    assert forall|i: int|
        0 <= i < 4 implies pair_free(
        sc,
        (#[trigger] spec_cells(s)[i]).0,
        spec_cells(s)[i].1,
    ) by {
        assert(sc.at(spec_cells(s)[i].0, spec_cells(s)[i].1) == Symbol::Space);
        assert(sc.at(spec_cells(s)[i].0, spec_cells(s)[i].1 + 1) == Symbol::Space);
    }
}



} // verus!
