use tetris_rs::game::{Command, Game};
use tetris_rs::game::other_type;
use tetris_rs::primitives::{Coord, Display, ShapeType, Symbol};
use tetris_rs::primitives::{arena_row_iter, from_symbol, in_arena, in_next_disp, to_symbol};
use tetris_rs::screen::Screen;
use tetris_rs::shape::Shape;

fn all_types() -> Vec<ShapeType> {
    vec![
        ShapeType::I,
        ShapeType::J,
        ShapeType::L,
        ShapeType::O,
        ShapeType::S,
        ShapeType::T,
        ShapeType::Z,
    ]
}

fn piece(t: ShapeType, rotations: u8, row: usize, col: usize) -> Shape {
    Shape {
        clockwise_rotations: rotations,
        shape_type: t,
        tl_coords: Coord::new(row, col),
        display: Display::Arena,
        is_dead: false,
    }
}

fn fill_row(g: &mut Game, r: usize) {
    let mut c = 4;
    while c < 24 {
        g.screen.set_cell(Coord::new(r, c), Symbol::DeadBlock(1));
        c += 2;
    }
}

#[test]
fn four_distinct_cells_every_shape_and_rotation() {
    for t in all_types() {
        for rot in 0..4u8 {
            let s = piece(t, rot, 5, 10);
            let cs = s.coords();
            assert_eq!(cs.len(), 4);
            for i in 0..4 {
                for j in (i + 1)..4 {
                    assert_ne!(cs[i], cs[j], "{:?} rot {}", t, rot);
                }
                assert!(in_arena(cs[i].row, cs[i].col), "{:?} rot {}", t, rot);
                assert!(in_arena(cs[i].row, cs[i].col + 1), "{:?} rot {}", t, rot);
            }
        }
    }
}

#[test]
fn o_shape_rotation_is_identity() {
    let base = piece(ShapeType::O, 0, 6, 12).coords();
    for rot in 1..4u8 {
        assert_eq!(piece(ShapeType::O, rot, 6, 12).coords(), base);
    }
    let mut s = piece(ShapeType::O, 0, 6, 12);
    s.rotate_right();
    assert_eq!(s.clockwise_rotations, 0);
    assert_eq!(s.coords(), base);
}

#[test]
fn fresh_screen_is_all_space_and_occupiable() {
    let screen = Screen::new();
    for r in 2..20 {
        for c in 4..24 {
            assert!(screen.is_space(r, c));
        }
    }
    let g = Game::new_with(screen, 8, false, ShapeType::I, ShapeType::O);
    for t in all_types() {
        assert!(g.can_occupy(&piece(t, 0, 10, 10)));
    }
}

#[test]
fn clearing_no_rows_changes_nothing() {
    let mut screen = Screen::new();
    screen.set_cell(Coord::new(19, 4), Symbol::DeadBlock(3));
    screen.set_cell(Coord::new(18, 8), Symbol::DeadBlock(5));
    let before = screen.contents().clone();
    let no_rows: Vec<usize> = vec![];
    screen.shift_lines(&no_rows);
    assert_eq!(screen.contents(), &before);
}

#[test]
fn clearing_two_rows_collapses_and_leaves_two_empty_rows() {
    let mut g = Game::new_with(Screen::new(), 8, false, ShapeType::I, ShapeType::O);
    // full rows at 10 and 15, markers elsewhere
    fill_row(&mut g, 10);
    fill_row(&mut g, 15);
    g.screen.set_cell(Coord::new(9, 4), Symbol::DeadBlock(3));
    g.screen.set_cell(Coord::new(12, 6), Symbol::DeadBlock(4));
    g.screen.set_cell(Coord::new(19, 8), Symbol::DeadBlock(5));
    let rows: Vec<usize> = vec![10, 15];
    g.screen.shift_lines(&rows);
    // exactly two empty rows appear at the top of the playfield
    for c in 4..24 {
        assert!(g.screen.is_space(2, c));
        assert!(g.screen.is_space(3, c));
    }
    // row 9 had two cleared rows below it and lands on row 11
    assert!(matches!(g.screen.get_cell(11, 4), Symbol::DeadBlock(3)));
    // row 12 had one cleared row below it and lands on row 13
    assert!(matches!(g.screen.get_cell(13, 6), Symbol::DeadBlock(4)));
    // row 19 had none below it and stays put
    assert!(matches!(g.screen.get_cell(19, 8), Symbol::DeadBlock(5)));
    // the cells the markers left are empty again
    assert!(g.screen.is_space(9, 4));
    assert!(g.screen.is_space(12, 6));
}

#[test]
fn scoring_table_at_level_three() {
    let g = Game::new_with(Screen::new(), 3, false, ShapeType::I, ShapeType::O);
    assert_eq!(g.points_earned(0), 0);
    assert_eq!(g.points_earned(1), 120);
    assert_eq!(g.points_earned(2), 300);
    assert_eq!(g.points_earned(3), 900);
    assert_eq!(g.points_earned(4), 3600);
    let g9 = Game::new_with(Screen::new(), 9, false, ShapeType::I, ShapeType::O);
    assert_eq!(g9.points_earned(0), 0);
}

#[test]
fn points_awards_and_clears() {
    let mut g = Game::new_with(Screen::new(), 3, false, ShapeType::I, ShapeType::O);
    fill_row(&mut g, 18);
    fill_row(&mut g, 19);
    let advanced = g.points();
    assert!(!advanced);
    assert_eq!(g.score, 300);
    assert_eq!(g.lines, 2);
    for c in 4..24 {
        assert!(g.screen.is_space(18, c));
        assert!(g.screen.is_space(19, c));
    }
    // the score readout shows the new total
    assert!(matches!(g.screen.get_cell(11, 30), Symbol::Data('3')));
    assert!(matches!(g.screen.get_cell(11, 31), Symbol::Data('0')));
    assert!(matches!(g.screen.get_cell(11, 32), Symbol::Data('0')));
    // the line readout shows the new total
    assert!(matches!(g.screen.get_cell(17, 30), Symbol::Data('2')));
}

#[test]
fn level_advances_at_fifty_lines_from_start_level_five() {
    let mut g = Game::new_with(Screen::new(), 5, false, ShapeType::I, ShapeType::O);
    assert_eq!(g.framerate, 19);
    for _ in 0..12 {
        for r in 16..20 {
            fill_row(&mut g, r);
        }
        let advanced = g.points();
        assert!(!advanced);
        assert_eq!(g.level, 5);
    }
    assert_eq!(g.lines, 48);
    fill_row(&mut g, 18);
    fill_row(&mut g, 19);
    let advanced = g.points();
    assert!(advanced);
    assert_eq!(g.lines, 50);
    assert_eq!(g.level, 6);
    assert_eq!(g.framerate, 18);
    assert_eq!(g.score, 12 * 6000 + 500);
}

#[test]
fn gravity_period_never_falls_below_its_floor() {
    let mut g = Game::new_with(Screen::new(), 21, false, ShapeType::I, ShapeType::O);
    assert_eq!(g.framerate, 3);
    for _ in 0..60 {
        for r in 16..20 {
            fill_row(&mut g, r);
        }
        g.points();
        assert!(g.framerate >= 2);
    }
    assert!(g.level >= 23);
    assert_eq!(g.framerate, 2);
}

#[test]
fn i_piece_falls_to_the_bottom_and_locks() {
    let mut g = Game::new_with(Screen::new(), 22, false, ShapeType::I, ShapeType::O);
    assert!(g.spawn_piece(ShapeType::I));
    let mut ticks = 0;
    while !g.needs_new_shape && ticks < 500 {
        assert!(g.tick(None));
        ticks += 1;
    }
    assert!(g.needs_new_shape);
    assert!(!g.game_over);
    assert_eq!(g.lines, 0);
    assert_eq!(g.score, 0);
    for c in [10, 12, 14, 16] {
        assert!(matches!(g.screen.get_cell(19, c), Symbol::DeadBlock(_)));
        assert!(matches!(g.screen.get_cell(19, c + 1), Symbol::DeadBlock(_)));
    }
    for c in 4..24 {
        assert!(g.screen.is_space(18, c));
    }
}

#[test]
fn spawn_onto_full_landing_row_ends_the_session() {
    let mut g = Game::new_with(Screen::new(), 8, false, ShapeType::I, ShapeType::O);
    let mut c = 4;
    while c < 24 {
        g.screen.set_cell(Coord::new(2, c), Symbol::DeadBlock(2));
        c += 2;
    }
    let ok = g.spawn_piece(ShapeType::T);
    assert!(!ok);
    assert_eq!(g.lines, 0);
    assert_eq!(g.score, 0);
}

#[test]
fn blocked_drop_in_sets_game_over_through_tick() {
    let mut g = Game::new_with(Screen::new(), 8, false, ShapeType::T, ShapeType::O);
    let mut c = 4;
    while c < 24 {
        g.screen.set_cell(Coord::new(2, c), Symbol::DeadBlock(2));
        c += 2;
    }
    // the immediate drop already hits the stack
    let ok = g.spawn_piece(ShapeType::T);
    assert!(!ok);
    // the loop would still tick once before noticing; the gravity drop
    // then fails and ends the session
    let running = g.tick(None);
    assert!(!running);
    assert!(g.game_over);
}

#[test]
fn wall_kick_right_succeeds_at_left_boundary() {
    let mut g = Game::new_with(Screen::new(), 8, false, ShapeType::I, ShapeType::O);
    // A J piece turned once hugs the left wall with its anchor at column
    // 2; turning it again would put a cell outside the playfield, and
    // only the right kick clears.
    g.curr_shape = piece(ShapeType::J, 1, 10, 2);
    g.needs_new_shape = false;
    g.rotate();
    assert_eq!(g.curr_shape.clockwise_rotations, 2);
    assert_eq!(g.curr_shape.tl_coords.col, 4);
    assert_eq!(g.curr_shape.tl_coords.row, 10);
}

#[test]
fn rotation_rejected_when_both_kicks_fail() {
    let mut g = Game::new_with(Screen::new(), 8, false, ShapeType::I, ShapeType::O);
    // A vertical I against the left wall cannot turn flat even with a
    // single-step kick.
    g.curr_shape = piece(ShapeType::I, 1, 5, 0);
    g.needs_new_shape = false;
    let before = g.curr_shape;
    g.rotate();
    assert_eq!(g.curr_shape.clockwise_rotations, before.clockwise_rotations);
    assert_eq!(g.curr_shape.tl_coords, before.tl_coords);
}

#[test]
fn moves_respect_the_walls() {
    let mut g = Game::new_with(Screen::new(), 8, false, ShapeType::I, ShapeType::O);
    g.curr_shape = piece(ShapeType::O, 0, 10, 2);
    g.needs_new_shape = false;
    // O at anchor column 2 occupies columns 4..8; the wall blocks a left move
    assert!(!g.move_shape(tetris_rs::primitives::Direction::Left));
    assert_eq!(g.curr_shape.tl_coords.col, 2);
    assert!(g.move_shape(tetris_rs::primitives::Direction::Right));
    assert_eq!(g.curr_shape.tl_coords.col, 4);
    assert!(g.move_shape(tetris_rs::primitives::Direction::Down));
    assert_eq!(g.curr_shape.tl_coords.row, 11);
}

#[test]
fn hard_drop_locks_immediately() {
    let mut g = Game::new_with(Screen::new(), 8, false, ShapeType::I, ShapeType::O);
    g.curr_shape = piece(ShapeType::S, 0, 5, 10);
    g.needs_new_shape = false;
    g.ground();
    assert!(g.curr_shape.is_dead);
    // S occupies relative rows 0 and 1; its lower row rests on the floor
    assert_eq!(g.curr_shape.tl_coords.row, 18);
}

#[test]
fn ground_dist_measures_the_fall() {
    let mut g = Game::new_with(Screen::new(), 8, false, ShapeType::I, ShapeType::O);
    g.curr_shape = piece(ShapeType::O, 0, 10, 10);
    g.needs_new_shape = false;
    // O occupies relative rows 0..2; from row 10 the lower row is at 11
    // and can fall to 19
    assert_eq!(g.ground_dist(), 8);
}

#[test]
fn toggle_easy_and_restart_commands() {
    let mut g = Game::new_with(Screen::new(), 8, true, ShapeType::I, ShapeType::O);
    assert!(g.spawn_piece(ShapeType::I));
    assert!(g.tick(Some(Command::ToggleEasy)));
    assert!(!g.is_easy);
    assert!(!g.tick(Some(Command::Restart)));
    assert!(!g.game_over);
}

#[test]
fn next_piece_always_differs_from_promoted_piece() {
    let mut g = Game::new_with(Screen::new(), 8, false, ShapeType::I, ShapeType::O);
    for r in [0usize, 1, 5, 6, 7, 41, 9999] {
        let promoted = g.next_shape.shape_type;
        assert!(g.gen_shape_from(r));
        assert_eq!(g.curr_shape.shape_type, promoted);
        assert_ne!(g.next_shape.shape_type, promoted);
    }
    for t in all_types() {
        for r in 0..13usize {
            assert_ne!(other_type(t, r), t);
        }
    }
}

#[test]
fn random_draws_give_valid_pieces() {
    for _ in 0..50 {
        let s = Shape::new();
        assert!(!s.is_dead);
        assert_eq!(s.clockwise_rotations, 0);
        assert_eq!(s.tl_coords, Coord::new(4, 29));
    }
    let mut g = Game::new(Screen::new(), 8, false);
    assert!(g.gen_shape());
    assert_ne!(g.next_shape.shape_type, g.curr_shape.shape_type);
}

#[test]
fn symbol_round_trip_and_regions() {
    assert_eq!(to_symbol('7'), Symbol::Data('7'));
    assert_eq!(to_symbol(' '), Symbol::Space);
    assert_eq!(to_symbol('x'), Symbol::Text('x'));
    assert_eq!(from_symbol(Symbol::Data('7')), '7');
    assert_eq!(from_symbol(Symbol::Space), ' ');
    assert_eq!(from_symbol(Symbol::Text('x')), 'x');
    assert!(in_arena(2, 4) && in_arena(19, 23));
    assert!(!in_arena(1, 4) && !in_arena(2, 24) && !in_arena(20, 4));
    assert!(in_next_disp(4, 29) && !in_next_disp(4, 28));
    let r = arena_row_iter();
    assert_eq!((r.start, r.end), (4, 24));
}

#[test]
fn stat_display_shows_decimal_digits() {
    let mut screen = Screen::new();
    screen.update_stat_display(1234, Display::Score);
    assert_eq!(screen.get_cell(11, 30), Symbol::Data('1'));
    assert_eq!(screen.get_cell(11, 31), Symbol::Data('2'));
    assert_eq!(screen.get_cell(11, 32), Symbol::Data('3'));
    assert_eq!(screen.get_cell(11, 33), Symbol::Data('4'));
    assert_eq!(screen.get_cell(11, 34), Symbol::Space);
    screen.update_stat_display(0, Display::Lines);
    assert_eq!(screen.get_cell(17, 30), Symbol::Data('0'));
    assert_eq!(screen.get_cell(17, 31), Symbol::Space);
}

#[test]
fn shape_geometry_helpers() {
    let s = piece(ShapeType::I, 0, 5, 10);
    assert_eq!(s.shape_width(), 8);
    let bb = s.bounding_box();
    assert_eq!(bb[0], Coord::new(6, 10));
    assert_eq!(bb[1], Coord::new(7, 18));
    let down = s.descent_coords(3);
    let cs = s.coords();
    for i in 0..4 {
        assert_eq!(down[i].row, cs[i].row + 3);
        assert_eq!(down[i].col, cs[i].col);
    }
    assert_eq!(s.color_num(), 1);
    assert_eq!(s.symbol(), Symbol::LiveBlock(1));
    let next = Shape::with_type(ShapeType::T);
    assert_eq!(next.tl_coords, Coord::new(4, 29));
    let mut screen = Screen::new();
    screen.add_next(&next);
    let t_cells = next.coords();
    for cell in t_cells.iter() {
        assert_eq!(screen.get_cell(cell.row, cell.col), Symbol::LiveBlock(6));
        assert_eq!(screen.get_cell(cell.row, cell.col + 1), Symbol::LiveBlock(6));
    }
}

#[test]
fn live_blocks_do_not_fill_a_row() {
    let mut g = Game::new_with(Screen::new(), 3, false, ShapeType::I, ShapeType::O);
    let mut c = 4;
    while c < 24 {
        g.screen.set_cell(Coord::new(19, c), Symbol::LiveBlock(1));
        c += 2;
    }
    let advanced = g.points();
    assert!(!advanced);
    assert_eq!(g.score, 0);
    assert_eq!(g.lines, 0);
    assert!(matches!(g.screen.get_cell(19, 4), Symbol::LiveBlock(1)));
}

#[test]
fn tick_applies_piece_commands() {
    let mut g = Game::new_with(Screen::new(), 8, false, ShapeType::I, ShapeType::O);
    g.curr_shape = piece(ShapeType::T, 0, 10, 12);
    g.needs_new_shape = false;
    g.count = 1; // off the gravity cadence: only the command acts
    assert!(g.tick(Some(Command::MoveLeft)));
    assert_eq!(g.curr_shape.tl_coords, Coord::new(10, 10));
    g.count = 1;
    assert!(g.tick(Some(Command::RotateCw)));
    assert_eq!(g.curr_shape.clockwise_rotations, 1);
    g.count = 1;
    assert!(g.tick(Some(Command::SoftDrop)));
    assert_eq!(g.curr_shape.tl_coords, Coord::new(11, 10));
    g.count = 1;
    assert!(g.tick(Some(Command::HardDrop)));
    // the piece grounded and locked in the same tick; the turned T's
    // stem column reaches the floor
    assert!(g.needs_new_shape);
    assert!(matches!(g.screen.get_cell(19, 12), Symbol::DeadBlock(_)));
    assert!(matches!(g.screen.get_cell(18, 14), Symbol::DeadBlock(_)));
}
