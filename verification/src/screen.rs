//! The screen grid: a fixed rectangle of symbols holding the playfield,
//! the next-piece preview window and the two stat readouts.  Cells outside
//! those regions are immutable frame text; the collision rules rely on the
//! grid dimensions alone, never on what the frame looks like.

use vstd::prelude::*;

use crate::primitives::{
    get_dims, get_tl, in_arena, in_next_disp, is_block, spec_get_dims, spec_get_tl, spec_in_area,
    spec_in_arena, spec_in_next_disp, Coord, Display, Symbol, SCREEN_COLS, SCREEN_ROWS,
};
use crate::shape::{on_screen, spec_cells, spec_symbol, Shape};

verus! {

/// The decimal digit characters of `n`, most significant first.
pub open spec fn dec_digits(n: nat) -> Seq<char>
    decreases n,
{
    if n < 10 {
        seq![digit_char(n)]
    } else {
        dec_digits(n / 10).push(digit_char(n % 10))
    }
}

/// The character for a single decimal digit.
pub open spec fn digit_char(d: nat) -> char {
    if d == 0 {
        '0'
    } else if d == 1 {
        '1'
    } else if d == 2 {
        '2'
    } else if d == 3 {
        '3'
    } else if d == 4 {
        '4'
    } else if d == 5 {
        '5'
    } else if d == 6 {
        '6'
    } else if d == 7 {
        '7'
    } else if d == 8 {
        '8'
    } else {
        '9'
    }
}

fn digit_to_char(d: u32) -> (c: char)
    requires
        d < 10,
    ensures
        c == digit_char(d as nat),
{
    match d {
        0 => '0',
        1 => '1',
        2 => '2',
        3 => '3',
        4 => '4',
        5 => '5',
        6 => '6',
        7 => '7',
        8 => '8',
        _ => '9',
    }
}

/// The decimal digits of `n`, most significant first.
fn to_digits(n: u32) -> (res: Vec<char>)
    ensures
        res@ == dec_digits(n as nat),
{
    let mut rev: Vec<char> = Vec::new();
    let mut m: u32 = n;
    proof {
        assert(dec_digits(n as nat) =~= dec_digits(n as nat) + rev@.reverse());
    }
    loop
        invariant_except_break
            dec_digits(n as nat) == dec_digits(m as nat) + rev@.reverse(),
        ensures
            dec_digits(n as nat) == rev@.reverse(),
        decreases m,
    {
        let d: u32 = m % 10;
        let ghost rev0 = rev@;
        let ghost m0 = m as nat;
        rev.push(digit_to_char(d));
        proof {
            assert(rev@.reverse() =~= seq![digit_char(d as nat)] + rev0.reverse());
        }
        if m < 10 {
            proof {
                assert(dec_digits(m0) == seq![digit_char(d as nat)]);
                assert(dec_digits(n as nat) =~= rev@.reverse());
            }
            break ;
        }
        m = m / 10;
        proof {
            assert(dec_digits(m0) == dec_digits(m as nat).push(digit_char(d as nat)));
            assert(dec_digits(m0) + rev0.reverse() =~= dec_digits(m as nat) + rev@.reverse());
        }
    }
    let mut res: Vec<char> = Vec::new();
    let n_len = rev.len();
    let mut i: usize = 0;
    while i < n_len
        invariant
            n_len == rev@.len(),
            i <= n_len,
            res@.len() == i,
            forall|j: int| 0 <= j < i ==> #[trigger] res@[j] == rev@[n_len - 1 - j],
        decreases n_len - i,
    {
        res.push(rev[n_len - 1 - i]);
        i = i + 1;
    }
    proof {
        assert(res@ =~= rev@.reverse());
    }
    res
}

/// Row indices listed from top to bottom without repetition.
pub open spec fn strictly_ascending(lines: Seq<usize>) -> bool {
    forall|i: int, j: int| 0 <= i < j < lines.len() ==> lines[i] < lines[j]
}

/// How many of the listed rows lie strictly below row `s` (that is, have
/// a greater index).  A surviving row moves down by exactly this amount
/// when the listed rows are cleared.
pub open spec fn count_gt(lines: Seq<usize>, s: int) -> int
    decreases lines.len(),
{
    if lines.len() == 0 {
        0
    } else {
        count_gt(lines.drop_last(), s) + (if lines.last() > s {
            1int
        } else {
            0int
        })
    }
}

pub proof fn lemma_count_gt_bounds(lines: Seq<usize>, s: int)
    ensures
        0 <= count_gt(lines, s) <= lines.len(),
    decreases lines.len(),
{
    if lines.len() > 0 {
        lemma_count_gt_bounds(lines.drop_last(), s);
    }
}

pub proof fn lemma_count_gt_all_above(lines: Seq<usize>, s: int)
    requires
        forall|i: int| 0 <= i < lines.len() ==> #[trigger] lines[i] > s,
    ensures
        count_gt(lines, s) == lines.len(),
    decreases lines.len(),
{
    if lines.len() > 0 {
        assert forall|i: int| 0 <= i < lines.drop_last().len() implies #[trigger] lines.drop_last()[i]
            > s by {
            assert(lines.drop_last()[i] == lines[i]);
        }
        lemma_count_gt_all_above(lines.drop_last(), s);
        assert(lines.last() == lines[lines.len() - 1]);
    }
}

pub proof fn lemma_count_gt_none_above(lines: Seq<usize>, s: int)
    requires
        forall|i: int| 0 <= i < lines.len() ==> #[trigger] lines[i] <= s,
    ensures
        count_gt(lines, s) == 0,
    decreases lines.len(),
{
    if lines.len() > 0 {
        assert forall|i: int| 0 <= i < lines.drop_last().len() implies #[trigger] lines.drop_last()[i]
            <= s by {
            assert(lines.drop_last()[i] == lines[i]);
        }
        lemma_count_gt_none_above(lines.drop_last(), s);
        assert(lines.last() == lines[lines.len() - 1]);
    }
}

proof fn lemma_contains_drop_last(lines: Seq<usize>, v: usize)
    requires
        lines.len() > 0,
    ensures
        lines.contains(v) <==> (lines.drop_last().contains(v) || lines.last() == v),
{
    if lines.contains(v) {
        let i = choose|i: int| 0 <= i < lines.len() && lines[i] == v;
        if i < lines.len() - 1 {
            assert(lines.drop_last()[i] == lines[i]);
            assert(lines.drop_last().contains(v));
        }
    }
    if lines.drop_last().contains(v) {
        let i = choose|i: int| 0 <= i < lines.drop_last().len() && lines.drop_last()[i] == v;
        assert(lines[i] == v);
        assert(lines.contains(v));
    }
    if lines.last() == v {
        assert(lines[lines.len() - 1] == v);
        assert(lines.contains(v));
    }
}

proof fn lemma_ascending_drop_last(lines: Seq<usize>)
    requires
        strictly_ascending(lines),
        lines.len() > 0,
    ensures
        strictly_ascending(lines.drop_last()),
        forall|i: int| 0 <= i < lines.len() - 1 ==> #[trigger] lines.drop_last()[i] < lines.last(),
{
    assert forall|i: int, j: int| 0 <= i < j < lines.drop_last().len() implies #[trigger] lines.drop_last()[i]
        < #[trigger] lines.drop_last()[j] by {
        assert(lines.drop_last()[i] == lines[i]);
        assert(lines.drop_last()[j] == lines[j]);
    }
    assert forall|i: int| 0 <= i < lines.len() - 1 implies #[trigger] lines.drop_last()[i]
        < lines.last() by {
        assert(lines.drop_last()[i] == lines[i]);
        assert(lines.last() == lines[lines.len() - 1]);
    }
}

/// Clearing one more row above `s` shifts the count by one exactly when
/// `s` itself is in the list.
pub proof fn lemma_count_gt_step(lines: Seq<usize>, s: int)
    requires
        strictly_ascending(lines),
        1 <= s <= usize::MAX,
    ensures
        count_gt(lines, s - 1) == count_gt(lines, s) + (if lines.contains(s as usize) {
            1int
        } else {
            0int
        }),
    decreases lines.len(),
{
    if lines.len() == 0 {
        assert(!lines.contains(s as usize));
    } else {
        let dl = lines.drop_last();
        lemma_ascending_drop_last(lines);
        lemma_count_gt_step(dl, s);
        lemma_contains_drop_last(lines, s as usize);
        if lines.last() == s as usize {
            if dl.contains(s as usize) {
                let i = choose|i: int| 0 <= i < dl.len() && dl[i] == s as usize;
                assert(dl[i] < lines.last());
                assert(false);
            }
        }
    }
}

/// The number of listed rows below `s` never exceeds the arena rows below `s`.
pub proof fn lemma_count_gt_le(lines: Seq<usize>, s: int)
    requires
        strictly_ascending(lines),
        forall|i: int| 0 <= i < lines.len() ==> 2 <= #[trigger] lines[i] < 20,
        2 <= s <= 19,
    ensures
        count_gt(lines, s) <= 19 - s,
    decreases 19 - s,
{
    if s == 19 {
        assert forall|i: int| 0 <= i < lines.len() implies #[trigger] lines[i] <= 19 by {}
        lemma_count_gt_none_above(lines, 19);
    } else {
        lemma_count_gt_le(lines, s + 1);
        lemma_count_gt_step(lines, s + 1);
    }
}

/// Where surviving rows land is strictly monotone: a row below another
/// surviving row stays below it after the collapse.
pub proof fn lemma_dest_mono(lines: Seq<usize>, a: int, b: int)
    requires
        strictly_ascending(lines),
        1 <= a < b <= 19,
    ensures
        a + count_gt(lines, a) + (if lines.contains(b as usize) {
            0int
        } else {
            1int
        }) <= b + count_gt(lines, b),
    decreases b - a,
{
    lemma_count_gt_step(lines, b);
    if a < b - 1 {
        lemma_dest_mono(lines, a, b - 1);
    }
}

/// Clearing rows keeps the relative order of the surviving rows: of two
/// surviving rows, the upper one lands above the lower one.
pub proof fn lemma_collapse_preserves_order(lines: Seq<usize>, a: int, b: int)
    requires
        strictly_ascending(lines),
        2 <= a < b <= 19,
        !lines.contains(b as usize),
    ensures
        a + count_gt(lines, a) < b + count_gt(lines, b),
{
    lemma_dest_mono(lines, a, b);
}

/// At most 18 distinct arena rows can be listed.
pub proof fn lemma_ascending_len(lines: Seq<usize>)
    requires
        strictly_ascending(lines),
        forall|i: int| 0 <= i < lines.len() ==> 2 <= #[trigger] lines[i] < 20,
    ensures
        lines.len() <= 18,
{
    if lines.len() > 18 {
        lemma_ascending_spread(lines, 0, lines.len() - 1);
        assert(false);
    }
}

proof fn lemma_ascending_spread(lines: Seq<usize>, i: int, j: int)
    requires
        strictly_ascending(lines),
        0 <= i <= j < lines.len(),
    ensures
        lines[j] >= lines[i] + (j - i),
    decreases j - i,
{
    if i < j {
        lemma_ascending_spread(lines, i, j - 1);
    }
}

fn contains_row(lines: &Vec<usize>, row: usize) -> (b: bool)
    ensures
        b == lines@.contains(row),
{
    let n = lines.len();
    let mut i: usize = 0;
    while i < n
        invariant
            i <= n,
            n == lines@.len(),
            forall|j: int| 0 <= j < i ==> #[trigger] lines@[j] != row,
        decreases n - i,
    {
        if lines[i] == row {
            proof {
                assert(lines@[i as int] == row);
            }
            return true;
        }
        i = i + 1;
    }
    proof {
        if lines@.contains(row) {
            let j = choose|j: int| 0 <= j < lines@.len() && lines@[j] == row;
            assert(false);
        }
    }
    false
}

/// The piece's cell number `i` covers the display cell `(r, c)`: its own
/// column and the one to its right.
pub open spec fn covers_cell(s: Shape, i: int, r: int, c: int) -> bool {
    spec_cells(s)[i].0 == r && (spec_cells(s)[i].1 == c || spec_cells(s)[i].1 == c - 1)
}

/// True where the given piece covers the display cell `(r, c)`.
pub open spec fn shape_covers(s: Shape, r: int, c: int) -> bool {
    ||| covers_cell(s, 0, r, c)
    ||| covers_cell(s, 1, r, c)
    ||| covers_cell(s, 2, r, c)
    ||| covers_cell(s, 3, r, c)
}

/// The cells the game logic is allowed to write: the playfield, the
/// next-piece window, and the score and line-count readouts.
pub open spec fn writable(row: int, col: int) -> bool {
    ||| spec_in_arena(row, col)
    ||| spec_in_next_disp(row, col)
    ||| spec_in_area(row, col, spec_get_tl(Display::Score), spec_get_dims(Display::Score))
    ||| spec_in_area(row, col, spec_get_tl(Display::Lines), spec_get_dims(Display::Lines))
}

/// What a fresh screen holds: space in every writable cell, frame text
/// everywhere else.
pub open spec fn init_sym(row: int, col: int) -> Symbol {
    if writable(row, col) {
        Symbol::Space
    } else {
        Symbol::Text('#')
    }
}

fn writable_cell(row: usize, col: usize) -> (b: bool)
    ensures
        b == writable(row as int, col as int),
{
    if in_arena(row, col) || in_next_disp(row, col) {
        return true;
    }
    let score_tl = get_tl(Display::Score);
    let lines_tl = get_tl(Display::Lines);
    let dims = get_dims(Display::Score);
    (row == score_tl.row && col >= score_tl.col && col < score_tl.col + dims.col) || (row
        == lines_tl.row && col >= lines_tl.col && col < lines_tl.col + dims.col)
}

/// The screen grid.  Row 0 is the top line.
#[derive(Debug)]
pub struct Screen {
    pub contents: Vec<Vec<Symbol>>,
}

impl Screen {
    /// The grid as a sequence of rows of symbols.
    pub open spec fn grid(&self) -> Seq<Seq<Symbol>> {
        self.contents@.map_values(|r: Vec<Symbol>| r@)
    }

    /// The symbol at a cell.
    pub open spec fn at(&self, row: int, col: int) -> Symbol {
        self.grid()[row][col]
    }

    /// Well-formedness: full dimensions, and no cell outside the writable
    /// regions ever holds anything but frame text.
    pub open spec fn wf(&self) -> bool {
        &&& self.grid().len() == SCREEN_ROWS
        &&& forall|r: int| 0 <= r < SCREEN_ROWS ==> (#[trigger] self.grid()[r]).len() == SCREEN_COLS
        &&& forall|r: int, c: int|
            0 <= r < SCREEN_ROWS && 0 <= c < SCREEN_COLS && !writable(r, c) ==> #[trigger] self.at(
                r,
                c,
            ) is Text
    }

    /// A fresh screen: all writable cells empty.
    pub fn new() -> (s: Self)
        ensures
            s.wf(),
            forall|r: int, c: int|
                0 <= r < SCREEN_ROWS && 0 <= c < SCREEN_COLS ==> #[trigger] s.at(r, c) == init_sym(
                    r,
                    c,
                ),
    {
        let mut contents: Vec<Vec<Symbol>> = Vec::new();
        let mut r: usize = 0;
        while r < SCREEN_ROWS
            invariant
                r <= SCREEN_ROWS,
                contents@.len() == r,
                forall|i: int| 0 <= i < r ==> (#[trigger] contents@[i]@).len() == SCREEN_COLS,
                forall|i: int, j: int|
                    0 <= i < r && 0 <= j < SCREEN_COLS ==> #[trigger] contents@[i]@[j] == init_sym(
                        i,
                        j,
                    ),
            decreases SCREEN_ROWS - r,
        {
            let mut rowv: Vec<Symbol> = Vec::new();
            let mut c: usize = 0;
            while c < SCREEN_COLS
                invariant
                    c <= SCREEN_COLS,
                    rowv@.len() == c,
                    forall|j: int| 0 <= j < c ==> #[trigger] rowv@[j] == init_sym(r as int, j),
                decreases SCREEN_COLS - c,
            {
                if writable_cell(r, c) {
                    rowv.push(Symbol::Space);
                } else {
                    rowv.push(Symbol::Text('#'));
                }
                c = c + 1;
            }
            contents.push(rowv);
            r = r + 1;
        }
        Screen { contents }
    }

    /// Number of columns of a row.
    pub fn width(&self, idx: usize) -> (w: usize)
        requires
            idx < self.grid().len(),
        ensures
            w == self.grid()[idx as int].len(),
    {
        self.contents[idx].len()
    }

    /// Number of rows.
    pub fn height(&self) -> (h: usize)
        ensures
            h == self.grid().len(),
    {
        self.contents.len()
    }

    pub fn get_cell(&self, row: usize, col: usize) -> (sym: Symbol)
        requires
            row < self.grid().len(),
            col < self.grid()[row as int].len(),
        ensures
            sym == self.at(row as int, col as int),
    {
        self.contents[row][col]
    }

    /// Write one grid cell, keeping the screen well-formed.
    fn put(&mut self, row: usize, col: usize, val: Symbol)
        requires
            old(self).wf(),
            writable(row as int, col as int),
        ensures
            final(self).wf(),
            final(self).at(row as int, col as int) == val,
            forall|r: int, c: int|
                0 <= r < SCREEN_ROWS && 0 <= c < SCREEN_COLS && !(r == row && c == col)
                    ==> #[trigger] final(self).at(r, c) == old(self).at(r, c),
    {
        proof {
            assert(self.grid().len() == self.contents@.len());
            assert(self.grid()[row as int].len() == SCREEN_COLS);
        }
        let rowv = &mut self.contents[row];
        rowv[col] = val;
        proof {
            assert forall|r: int| 0 <= r < SCREEN_ROWS implies (#[trigger] self.grid()[r]).len()
                == SCREEN_COLS by {
                assert(old(self).grid()[r].len() == SCREEN_COLS);
                if r != row {
                    assert(self.grid()[r] == old(self).grid()[r]);
                }
            }
            assert forall|r: int, c: int|
                0 <= r < SCREEN_ROWS && 0 <= c < SCREEN_COLS && !(r == row && c == col) implies #[trigger] self.at(
                r,
                c,
            ) == old(self).at(r, c) by {
                if r != row {
                    assert(self.grid()[r] == old(self).grid()[r]);
                }
            }
            assert forall|r: int, c: int|
                0 <= r < SCREEN_ROWS && 0 <= c < SCREEN_COLS && !writable(r, c) implies #[trigger] self.at(
                r,
                c,
            ) is Text by {
                assert(self.at(r, c) == old(self).at(r, c));
            }
        }
    }

    /// Write a symbol at a cell; a block symbol also fills the display
    /// cell to its right, since a block covers two columns.
    pub fn set_cell(&mut self, coord: Coord, val: Symbol)
        requires
            old(self).wf(),
            writable(coord.row as int, coord.col as int),
            is_block(val) ==> writable(coord.row as int, coord.col as int + 1),
        ensures
            final(self).wf(),
            final(self).at(coord.row as int, coord.col as int) == val,
            is_block(val) ==> final(self).at(coord.row as int, coord.col as int + 1) == val,
            forall|r: int, c: int|
                0 <= r < SCREEN_ROWS && 0 <= c < SCREEN_COLS && !(r == coord.row && c == coord.col)
                    && !(is_block(val) && r == coord.row && c == coord.col + 1)
                    ==> #[trigger] final(self).at(r, c) == old(self).at(r, c),
    {
        self.put(coord.row, coord.col, val);
        if let Symbol::LiveBlock(_) | Symbol::DeadBlock(_) = val {
            self.put(coord.row, coord.col + 1, val);
        }
    }

    /// Write a symbol at a coordinate relative to a display region.
    pub fn set_disp_cell(&mut self, coord: Coord, disp: Display, val: Symbol)
        requires
            old(self).wf(),
            writable(
                coord.row + spec_get_tl(disp).row,
                coord.col + spec_get_tl(disp).col,
            ),
            is_block(val) ==> writable(
                coord.row + spec_get_tl(disp).row,
                coord.col + spec_get_tl(disp).col + 1,
            ),
        ensures
            final(self).wf(),
            final(self).at(
                coord.row + spec_get_tl(disp).row,
                coord.col + spec_get_tl(disp).col,
            ) == val,
            forall|r: int, c: int|
                0 <= r < SCREEN_ROWS && 0 <= c < SCREEN_COLS && !(r == coord.row + spec_get_tl(
                    disp,
                ).row && c == coord.col + spec_get_tl(disp).col) && !(is_block(val) && r
                    == coord.row + spec_get_tl(disp).row && c == coord.col + spec_get_tl(disp).col
                    + 1) ==> #[trigger] final(self).at(r, c) == old(self).at(r, c),
    {
        let tl = get_tl(disp);
        self.set_cell(Coord::new(coord.row + tl.row, coord.col + tl.col), val);
    }

    pub fn is_space(&self, row: usize, col: usize) -> (b: bool)
        requires
            row < self.grid().len(),
            col < self.grid()[row as int].len(),
        ensures
            b == (self.at(row as int, col as int) == Symbol::Space),
    {
        self.contents[row][col] == Symbol::Space
    }

    pub fn set_space(&mut self, row: usize, col: usize)
        requires
            old(self).wf(),
            writable(row as int, col as int),
        ensures
            final(self).wf(),
            final(self).at(row as int, col as int) == Symbol::Space,
            forall|r: int, c: int|
                0 <= r < SCREEN_ROWS && 0 <= c < SCREEN_COLS && !(r == row && c == col)
                    ==> #[trigger] final(self).at(r, c) == old(self).at(r, c),
    {
        self.put(row, col, Symbol::Space);
    }

    /// Clear a display region back to spaces.
    pub fn wipe_display(&mut self, disp: Display)
        requires
            old(self).wf(),
            matches!(disp, Display::Next | Display::Score | Display::Lines),
        ensures
            final(self).wf(),
            forall|r: int, c: int|
                spec_in_area(r, c, spec_get_tl(disp), spec_get_dims(disp)) ==> #[trigger] final(self).at(r, c) == Symbol::Space,
            forall|r: int, c: int|
                0 <= r < SCREEN_ROWS && 0 <= c < SCREEN_COLS && !spec_in_area(
                    r,
                    c,
                    spec_get_tl(disp),
                    spec_get_dims(disp),
                ) ==> #[trigger] final(self).at(r, c) == old(self).at(r, c),
    {
        let start = get_tl(disp);
        let dims = get_dims(disp);
        let end_row = start.row + dims.row;
        let end_col = start.col + dims.col;
        let mut row = start.row;
        while row < end_row
            invariant
                self.wf(),
                start == spec_get_tl(disp),
                dims == spec_get_dims(disp),
                end_row == start.row + dims.row,
                end_col == start.col + dims.col,
                start.row <= row <= end_row,
                matches!(disp, Display::Next | Display::Score | Display::Lines),
                forall|r: int, c: int|
                    spec_in_area(r, c, start, dims) && r < row ==> #[trigger] self.at(r, c)
                        == Symbol::Space,
                forall|r: int, c: int|
                    0 <= r < SCREEN_ROWS && 0 <= c < SCREEN_COLS && !(spec_in_area(r, c, start, dims)
                        && r < row) ==> #[trigger] self.at(r, c) == old(self).at(r, c),
            decreases end_row - row,
        {
            let mut col = start.col;
            while col < end_col
                invariant
                    self.wf(),
                    start == spec_get_tl(disp),
                    dims == spec_get_dims(disp),
                    end_row == start.row + dims.row,
                    end_col == start.col + dims.col,
                    start.row <= row < end_row,
                    start.col <= col <= end_col,
                    matches!(disp, Display::Next | Display::Score | Display::Lines),
                    forall|r: int, c: int|
                        spec_in_area(r, c, start, dims) && (r < row || (r == row && c < col))
                            ==> #[trigger] self.at(r, c) == Symbol::Space,
                    forall|r: int, c: int|
                        0 <= r < SCREEN_ROWS && 0 <= c < SCREEN_COLS && !(spec_in_area(
                            r,
                            c,
                            start,
                            dims,
                        ) && (r < row || (r == row && c < col))) ==> #[trigger] self.at(r, c) == old(
                            self,
                        ).at(r, c),
                decreases end_col - col,
            {
                self.set_space(row, col);
                col = col + 1;
            }
            row = row + 1;
        }
    }

    /// Show the given piece in the next-piece window: the window is
    /// cleared and the piece's cells are drawn with its symbol.
    #[verifier::rlimit(50)]
    pub fn add_next(&mut self, shape: &Shape)
        requires
            old(self).wf(),
            on_screen(*shape),
            forall|i: int|
                0 <= i < 4 ==> spec_in_next_disp(
                    (#[trigger] spec_cells(*shape)[i]).0,
                    spec_cells(*shape)[i].1,
                ) && spec_in_next_disp(spec_cells(*shape)[i].0, spec_cells(*shape)[i].1 + 1),
        ensures
            final(self).wf(),
            forall|r: int, c: int|
                spec_in_next_disp(r, c) ==> #[trigger] final(self).at(r, c) == (if shape_covers(
                    *shape,
                    r,
                    c,
                ) {
                    spec_symbol(*shape)
                } else {
                    Symbol::Space
                }),
            forall|r: int, c: int|
                0 <= r < SCREEN_ROWS && 0 <= c < SCREEN_COLS && !spec_in_next_disp(r, c)
                    ==> #[trigger] final(self).at(r, c) == old(self).at(r, c),
    {
        self.wipe_display(Display::Next);
        let cs = shape.coords();
        let sym = shape.symbol();
        self.set_cell(cs[0], sym);
        self.set_cell(cs[1], sym);
        proof {
            assert(self.at(spec_cells(*shape)[0].0, spec_cells(*shape)[0].1) == sym);
            assert(self.at(spec_cells(*shape)[0].0, spec_cells(*shape)[0].1 + 1) == sym);
        }
        self.set_cell(cs[2], sym);
        proof {
            assert(self.at(spec_cells(*shape)[0].0, spec_cells(*shape)[0].1) == sym);
            assert(self.at(spec_cells(*shape)[0].0, spec_cells(*shape)[0].1 + 1) == sym);
            assert(self.at(spec_cells(*shape)[1].0, spec_cells(*shape)[1].1) == sym);
            assert(self.at(spec_cells(*shape)[1].0, spec_cells(*shape)[1].1 + 1) == sym);
        }
        self.set_cell(cs[3], sym);
    }

    /// Merge a piece into the grid: each of its cells gets its symbol, on
    /// both display columns of the block.
    #[verifier::rlimit(50)]
    pub fn set_shape(&mut self, shape: &Shape)
        requires
            old(self).wf(),
            on_screen(*shape),
            forall|i: int|
                0 <= i < 4 ==> spec_in_arena(
                    (#[trigger] spec_cells(*shape)[i]).0,
                    spec_cells(*shape)[i].1,
                ) && spec_in_arena(spec_cells(*shape)[i].0, spec_cells(*shape)[i].1 + 1),
        ensures
            final(self).wf(),
            forall|r: int, c: int|
                0 <= r < SCREEN_ROWS && 0 <= c < SCREEN_COLS && shape_covers(*shape, r, c)
                    ==> #[trigger] final(self).at(r, c) == spec_symbol(*shape),
            forall|r: int, c: int|
                0 <= r < SCREEN_ROWS && 0 <= c < SCREEN_COLS && !shape_covers(*shape, r, c)
                    ==> #[trigger] final(self).at(r, c) == old(self).at(r, c),
    {
        let cs = shape.coords();
        let sym = shape.symbol();
        self.set_cell(cs[0], sym);
        self.set_cell(cs[1], sym);
        proof {
            assert(self.at(spec_cells(*shape)[0].0, spec_cells(*shape)[0].1) == sym);
            assert(self.at(spec_cells(*shape)[0].0, spec_cells(*shape)[0].1 + 1) == sym);
        }
        self.set_cell(cs[2], sym);
        proof {
            assert(self.at(spec_cells(*shape)[0].0, spec_cells(*shape)[0].1) == sym);
            assert(self.at(spec_cells(*shape)[0].0, spec_cells(*shape)[0].1 + 1) == sym);
            assert(self.at(spec_cells(*shape)[1].0, spec_cells(*shape)[1].1) == sym);
            assert(self.at(spec_cells(*shape)[1].0, spec_cells(*shape)[1].1 + 1) == sym);
        }
        self.set_cell(cs[3], sym);
    }

    /// Show a stat value in a readout: the region is wiped and the first
    /// (at most seven) decimal digits of the value are written into it.
    pub fn update_stat_display(&mut self, stat: u32, disp: Display)
        requires
            old(self).wf(),
            matches!(disp, Display::Score | Display::Lines),
        ensures
            final(self).wf(),
            forall|j: int|
                0 <= j < 7 && j < dec_digits(stat as nat).len() ==> #[trigger] final(self).at(
                    spec_get_tl(disp).row as int,
                    spec_get_tl(disp).col + j,
                ) == Symbol::Data(dec_digits(stat as nat)[j]),
            forall|j: int|
                dec_digits(stat as nat).len() <= j < 7 ==> #[trigger] final(self).at(
                    spec_get_tl(disp).row as int,
                    spec_get_tl(disp).col + j,
                ) == Symbol::Space,
            forall|r: int, c: int|
                0 <= r < SCREEN_ROWS && 0 <= c < SCREEN_COLS && !spec_in_area(
                    r,
                    c,
                    spec_get_tl(disp),
                    spec_get_dims(disp),
                ) ==> #[trigger] final(self).at(r, c) == old(self).at(r, c),
    {
        self.wipe_display(disp);
        let ds = to_digits(stat);
        let n_ds = ds.len();
        let mut idx: usize = 0;
        while idx < n_ds && idx < 7
            invariant
                self.wf(),
                n_ds == dec_digits(stat as nat).len(),
                ds@ == dec_digits(stat as nat),
                idx <= n_ds,
                idx <= 7,
                matches!(disp, Display::Score | Display::Lines),
                forall|j: int|
                    0 <= j < idx ==> #[trigger] self.at(
                        spec_get_tl(disp).row as int,
                        spec_get_tl(disp).col + j,
                    ) == Symbol::Data(dec_digits(stat as nat)[j]),
                forall|r: int, c: int|
                    spec_in_area(r, c, spec_get_tl(disp), spec_get_dims(disp)) && !(r == spec_get_tl(
                        disp,
                    ).row && spec_get_tl(disp).col <= c < spec_get_tl(disp).col + idx)
                        ==> #[trigger] self.at(r, c) == Symbol::Space,
                forall|r: int, c: int|
                    0 <= r < SCREEN_ROWS && 0 <= c < SCREEN_COLS && !spec_in_area(
                        r,
                        c,
                        spec_get_tl(disp),
                        spec_get_dims(disp),
                    ) ==> #[trigger] self.at(r, c) == old(self).at(r, c),
            decreases n_ds - idx,
        {
            self.set_disp_cell(Coord::new(0, idx), disp, Symbol::Data(ds[idx]));
            idx = idx + 1;
        }
    }

    /// Copy the playfield columns of one row onto another.
    fn copy_arena_row(&mut self, src: usize, dst: usize)
        requires
            old(self).wf(),
            2 <= src < 20,
            2 <= dst < 20,
        ensures
            final(self).wf(),
            forall|c: int|
                4 <= c < 24 ==> #[trigger] final(self).at(dst as int, c) == old(self).at(
                    src as int,
                    c,
                ),
            forall|r: int, c: int|
                0 <= r < SCREEN_ROWS && 0 <= c < SCREEN_COLS && !(r == dst && 4 <= c < 24)
                    ==> #[trigger] final(self).at(r, c) == old(self).at(r, c),
    {
        let mut c: usize = 4;
        while c < 24
            invariant
                self.wf(),
                4 <= c <= 24,
                2 <= src < 20,
                2 <= dst < 20,
                forall|cc: int|
                    4 <= cc < c ==> #[trigger] self.at(dst as int, cc) == old(self).at(
                        src as int,
                        cc,
                    ),
                forall|r: int, cc: int|
                    0 <= r < SCREEN_ROWS && 0 <= cc < SCREEN_COLS && !(r == dst && 4 <= cc < c)
                        ==> #[trigger] self.at(r, cc) == old(self).at(r, cc),
            decreases 24 - c,
        {
            proof {
                assert(self.grid()[src as int].len() == SCREEN_COLS);
            }
            let v = self.get_cell(src, c);
            self.put(dst, c, v);
            c = c + 1;
        }
    }

    /// Empty the playfield columns of one row.
    fn clear_arena_row(&mut self, row: usize)
        requires
            old(self).wf(),
            2 <= row < 20,
        ensures
            final(self).wf(),
            forall|c: int| 4 <= c < 24 ==> #[trigger] final(self).at(row as int, c) == Symbol::Space,
            forall|r: int, c: int|
                0 <= r < SCREEN_ROWS && 0 <= c < SCREEN_COLS && !(r == row && 4 <= c < 24)
                    ==> #[trigger] final(self).at(r, c) == old(self).at(r, c),
    {
        let mut c: usize = 4;
        while c < 24
            invariant
                self.wf(),
                4 <= c <= 24,
                2 <= row < 20,
                forall|cc: int|
                    4 <= cc < c ==> #[trigger] self.at(row as int, cc) == Symbol::Space,
                forall|r: int, cc: int|
                    0 <= r < SCREEN_ROWS && 0 <= cc < SCREEN_COLS && !(r == row && 4 <= cc < c)
                        ==> #[trigger] self.at(r, cc) == old(self).at(r, cc),
            decreases 24 - c,
        {
            self.put(row, c, Symbol::Space);
            c = c + 1;
        }
    }

    /// Clear the listed playfield rows and let everything above them fall:
    /// each surviving row moves down by the number of cleared rows below
    /// it, and as many empty rows appear at the top of the playfield as
    /// rows were cleared.  Cells outside the playfield do not move.
    #[verifier::rlimit(50)]
    pub fn shift_lines(&mut self, lines: &Vec<usize>)
        requires
            old(self).wf(),
            strictly_ascending(lines@),
            forall|i: int| 0 <= i < lines@.len() ==> 2 <= #[trigger] lines@[i] < 20,
        ensures
            final(self).wf(),
            forall|r: int, c: int|
                0 <= r < SCREEN_ROWS && 0 <= c < SCREEN_COLS && !spec_in_arena(r, c)
                    ==> #[trigger] final(self).at(r, c) == old(self).at(r, c),
            forall|s: int, c: int|
                2 <= s < 20 && 4 <= c < 24 && !lines@.contains(s as usize) ==> #[trigger] final(self).at(s + count_gt(lines@, s), c) == old(self).at(s, c),
            forall|r: int, c: int|
                2 <= r < 2 + lines@.len() && 4 <= c < 24 ==> #[trigger] final(self).at(r, c)
                    == Symbol::Space,
            lines@.len() == 0 ==> forall|r: int, c: int|
                0 <= r < SCREEN_ROWS && 0 <= c < SCREEN_COLS ==> #[trigger] final(self).at(r, c)
                    == old(self).at(r, c),
    {
        let ghost lns = lines@;
        let mut dst: usize = 19;
        let mut src: usize = 20;
        proof {
            assert forall|i: int| 0 <= i < lns.len() implies #[trigger] lns[i] <= 19 by {}
            lemma_count_gt_none_above(lns, 19);
        }
        while src > 2
            invariant
                self.wf(),
                lns == lines@,
                strictly_ascending(lns),
                forall|i: int| 0 <= i < lns.len() ==> 2 <= #[trigger] lns[i] < 20,
                2 <= src <= 20,
                dst == src - 1 + count_gt(lns, src - 1),
                dst <= 19,
                forall|r: int, c: int|
                    0 <= r < src && 0 <= c < SCREEN_COLS ==> #[trigger] self.at(r, c) == old(
                        self,
                    ).at(r, c),
                forall|r: int, c: int|
                    0 <= r < SCREEN_ROWS && 0 <= c < SCREEN_COLS && !spec_in_arena(r, c)
                        ==> #[trigger] self.at(r, c) == old(self).at(r, c),
                forall|s: int, c: int|
                    src <= s < 20 && 4 <= c < 24 && !lns.contains(s as usize) ==> #[trigger] self.at(
                        s + count_gt(lns, s),
                        c,
                    ) == old(self).at(s, c),
            decreases src,
        {
            src = src - 1;
            proof {
                lemma_count_gt_step(lns, src as int);
                lemma_count_gt_le(lns, src as int);
                lemma_count_gt_bounds(lns, src as int);
            }
            if !contains_row(lines, src) {
                let ghost pre = *self;
                self.copy_arena_row(src, dst);
                proof {
                    assert forall|s: int, c: int|
                        src < s < 20 && 4 <= c < 24 && !lns.contains(s as usize) implies #[trigger] self.at(
                        s + count_gt(lns, s),
                        c,
                    ) == old(self).at(s, c) by {
                        lemma_dest_mono(lns, src as int, s);
                        lemma_count_gt_le(lns, s);
                        lemma_count_gt_bounds(lns, s);
                        assert(pre.at(s + count_gt(lns, s), c) == old(self).at(s, c));
                        assert(s + count_gt(lns, s) != dst);
                    }
                    assert forall|c: int| 4 <= c < 24 implies #[trigger] self.at(
                        src + count_gt(lns, src as int),
                        c,
                    ) == old(self).at(src as int, c) by {
                        assert(self.at(dst as int, c) == pre.at(src as int, c));
                    }
                }
                dst = dst - 1;
            }
        }
        proof {
            assert forall|i: int| 0 <= i < lns.len() implies #[trigger] lns[i] > 1 by {}
            lemma_count_gt_all_above(lns, 1);
            lemma_ascending_len(lns);
            assert(dst == 1 + lns.len());
        }
        let k = lines.len();
        let ghost mid = *self;
        let mut r: usize = 2;
        while r < 2 + k
            invariant
                self.wf(),
                lns == lines@,
                strictly_ascending(lns),
                forall|i: int| 0 <= i < lns.len() ==> 2 <= #[trigger] lns[i] < 20,
                k == lns.len(),
                k <= 18,
                2 <= r <= 2 + k,
                forall|rr: int, c: int|
                    0 <= rr < SCREEN_ROWS && 0 <= c < SCREEN_COLS && !(2 <= rr < r && 4 <= c < 24)
                        ==> #[trigger] self.at(rr, c) == mid.at(rr, c),
                forall|rr: int, c: int|
                    2 <= rr < r && 4 <= c < 24 ==> #[trigger] self.at(rr, c) == Symbol::Space,
            decreases 2 + k - r,
        {
            self.clear_arena_row(r);
            r = r + 1;
        }
        proof {
            assert forall|s: int, c: int|
                2 <= s < 20 && 4 <= c < 24 && !lns.contains(s as usize) implies #[trigger] self.at(
                s + count_gt(lns, s),
                c,
            ) == old(self).at(s, c) by {
                lemma_count_gt_le(lns, s);
                lemma_count_gt_bounds(lns, s);
                if s > 1 {
                    lemma_dest_mono(lns, 1, s);
                }
                assert(s + count_gt(lns, s) >= 2 + k);
                assert(mid.at(s + count_gt(lns, s), c) == old(self).at(s, c));
            }
            if lns.len() == 0 {
                assert forall|rr: int, c: int|
                    0 <= rr < SCREEN_ROWS && 0 <= c < SCREEN_COLS implies #[trigger] self.at(rr, c)
                        == old(self).at(rr, c) by {
                    if spec_in_arena(rr, c) {
                        assert(count_gt(lns, rr) == 0);
                        assert(!lns.contains(rr as usize));
                        assert(self.at(rr + count_gt(lns, rr), c) == old(self).at(rr, c));
                    }
                }
            }
        }
    }

    /// The whole grid, for rendering.
    pub fn contents(&self) -> (res: &Vec<Vec<Symbol>>)
        ensures
            res@.map_values(|r: Vec<Symbol>| r@) == self.grid(),
    {
        &self.contents
    }
}

} // verus!
