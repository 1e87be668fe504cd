use vstd::prelude::*;

verus! {

/// The four directions in which tiles can be pushed.
#[derive(Copy, Clone, Debug, PartialEq, Eq, Structural)]
pub enum Dir {
    Up,
    Down,
    Left,
    Right,
}

/// The largest board total (sum of all tile values) for which the library's
/// arithmetic is proved free of overflow: its square still fits in an `i32`.
pub const TOTAL_LIMIT: i32 = 46340;

/// Sum of a sequence of integers, element by element from the front.
pub open spec fn seq_sum(s: Seq<int>) -> int
    decreases s.len(),
{
    if s.len() == 0 {
        0
    } else {
        seq_sum(s.drop_last()) + s.last()
    }
}

/// Number of zero (empty) entries.
pub open spec fn count_empty(s: Seq<int>) -> int
    decreases s.len(),
{
    if s.len() == 0 {
        0
    } else {
        count_empty(s.drop_last()) + if s.last() == 0 { 1int } else { 0int }
    }
}

/// A board's cells: 16 non-negative values whose total stays within `TOTAL_LIMIT`.
pub open spec fn wf_cells(c: Seq<int>) -> bool {
    &&& c.len() == 16
    &&& forall|i: int| 0 <= i < 16 ==> c[i] >= 0
    &&& seq_sum(c) <= TOTAL_LIMIT
}

/// A power of two (1, 2, 4, ...).
pub open spec fn is_pow2(v: int) -> bool
    decreases v,
{
    if v <= 1 {
        v == 1
    } else {
        v % 2 == 0 && is_pow2(v / 2)
    }
}

/// A cell value that play can produce: empty, or a power of two from 2 up.
pub open spec fn valid_tile(v: int) -> bool {
    v == 0 || (v >= 2 && is_pow2(v))
}

/// Every cell holds a value that play can produce.
pub open spec fn valid_tiles(c: Seq<int>) -> bool {
    forall|i: int| 0 <= i < c.len() ==> valid_tile(#[trigger] c[i])
}

/// Index of the `n`-th cell (counted from the leading edge) of line `l` when
/// moving in direction `d`; lines are columns for Up/Down and rows for Left/Right.
pub open spec fn line_pos(d: Dir, l: int, n: int) -> int {
    match d {
        Dir::Up => n * 4 + l,
        Dir::Down => 12 - n * 4 + l,
        Dir::Left => l * 4 + n,
        Dir::Right => l * 4 + 3 - n,
    }
}

/// The line through cell `k` for direction `d`.
pub open spec fn line_of_cell(d: Dir, k: int) -> int {
    match d {
        Dir::Up | Dir::Down => k % 4,
        Dir::Left | Dir::Right => k / 4,
    }
}

/// Position of cell `k` within its line for direction `d`, from the leading edge.
pub open spec fn rank_of_cell(d: Dir, k: int) -> int {
    match d {
        Dir::Up => k / 4,
        Dir::Down => 3 - k / 4,
        Dir::Left => k % 4,
        Dir::Right => 3 - k % 4,
    }
}

/// The four values of line `l`, leading edge first.
pub open spec fn line_values(c: Seq<int>, d: Dir, l: int) -> Seq<int> {
    seq![c[line_pos(d, l, 0)], c[line_pos(d, l, 1)], c[line_pos(d, l, 2)], c[line_pos(d, l, 3)]]
}

/// The non-zero values of `s`, in order.
pub open spec fn nonzeros(s: Seq<int>) -> Seq<int>
    decreases s.len(),
{
    if s.len() == 0 {
        seq![]
    } else if s[0] == 0 {
        nonzeros(s.drop_first())
    } else {
        seq![s[0]] + nonzeros(s.drop_first())
    }
}

/// `s` followed by zeros up to length `n`.
pub open spec fn pad(s: Seq<int>, n: nat) -> Seq<int> {
    s + Seq::new((n - s.len()) as nat, |i: int| 0int)
}

/// Tiles pushed to the leading edge, gaps removed, order kept.
pub open spec fn compact(s: Seq<int>) -> Seq<int> {
    pad(nonzeros(s), s.len())
}

/// One pass over a compacted line: each pair of equal neighbours, taken from
/// the leading edge, becomes one tile of twice the value; no tile merges twice.
pub open spec fn combine(t: Seq<int>) -> Seq<int>
    decreases t.len(),
{
    if t.len() < 2 {
        t
    } else if t[0] == t[1] {
        seq![2 * t[0]] + combine(t.subrange(2, t.len() as int))
    } else {
        seq![t[0]] + combine(t.drop_first())
    }
}

/// One pass over a line: a tile equal to its predecessor (leading edge first)
/// is merged into it, leaving its own cell empty; a merged tile does not
/// merge again in the same pass.
pub open spec fn merge_pairs(s: Seq<int>) -> Seq<int>
    decreases s.len(),
{
    if s.len() < 2 {
        s
    } else if s[0] == s[1] {
        seq![2 * s[0], 0] + merge_pairs(s.subrange(2, s.len() as int))
    } else {
        seq![s[0]] + merge_pairs(s.drop_first())
    }
}

/// The result of moving one line towards its leading edge.
pub open spec fn slide(s: Seq<int>) -> Seq<int> {
    pad(combine(nonzeros(s)), s.len())
}

/// The board after a move in direction `d`: every line slid independently.
#[verifier::opaque]
pub open spec fn move_cells(c: Seq<int>, d: Dir) -> Seq<int> {
    Seq::new(16, |k: int| slide(line_values(c, d, line_of_cell(d, k)))[rank_of_cell(d, k)])
}

/// A tile value; zero stands for an empty cell.
pub trait Tile: Sized + Copy {
    spec fn value(&self) -> int;

    fn to_i32(&self) -> (r: i32)
        ensures
            r == self.value(),
    ;

    fn from_i32(v: i32) -> (r: Self)
        ensures
            r.value() == v,
    ;

    fn empty(&self) -> (r: bool)
        ensures
            r == (self.value() == 0),
    ;
}

/// The position of a cell on the board.
pub trait Coord: Sized + Copy {
    /// Index of the cell, `y * 4 + x`.
    spec fn cell(&self) -> int;

    fn to_xy(&self) -> (r: (usize, usize))
        requires
            0 <= self.cell() < 16,
        ensures
            r.0 < 4,
            r.1 < 4,
            r.1 * 4 + r.0 == self.cell(),
    ;

    fn from_xy(x: usize, y: usize) -> (r: Self)
        requires
            x < 4,
            y < 4,
        ensures
            r.cell() == y * 4 + x,
    ;
}

/// A 4x4 board of tiles with the game's move rule.
pub trait World: Sized + Copy {
    type Tile: Tile;

    type Coord: Coord;

    /// The 16 cell values, row by row.
    spec fn cells(&self) -> Seq<int>;

    fn new() -> (r: Self)
        ensures
            r.cells() == Seq::new(16, |i: int| 0int),
    ;

    fn get(&self, x: usize, y: usize) -> (r: Self::Tile)
        requires
            x < 4,
            y < 4,
            self.cells().len() == 16,
        ensures
            r.value() == self.cells()[y * 4 + x],
    ;

    fn set(&mut self, c: Self::Coord, t: Self::Tile)
        requires
            0 <= c.cell() < 16,
            old(self).cells().len() == 16,
            i32::MIN <= t.value() <= i32::MAX,
        ensures
            final(self).cells() == old(self).cells().update(c.cell(), t.value()),
    ;

    fn do_move(&mut self, d: Dir) -> (r: bool)
        requires
            wf_cells(old(self).cells()),
        ensures
            final(self).cells() == move_cells(old(self).cells(), d),
            wf_cells(final(self).cells()),
            seq_sum(final(self).cells()) == seq_sum(old(self).cells()),
            valid_tiles(old(self).cells()) ==> valid_tiles(final(self).cells()),
            r == (final(self).cells() != old(self).cells()),
    ;

    /// Every cell with its coordinate, row by row.
    fn iterate(&self) -> (r: Vec<(Self::Coord, Self::Tile)>)
        requires
            self.cells().len() == 16,
        ensures
            r.len() == 16,
            forall|i: int| 0 <= i < 16 ==> (#[trigger] r@[i]).0.cell() == i && r@[i].1.value() == self.cells()[i],
    ;
}

impl Tile for i32 {
    open spec fn value(&self) -> int {
        *self as int
    }

    fn to_i32(&self) -> (r: i32) {
        *self
    }

    fn from_i32(v: i32) -> (r: i32) {
        v
    }

    fn empty(&self) -> (r: bool) {
        *self == 0
    }
}

impl Coord for usize {
    open spec fn cell(&self) -> int {
        *self as int
    }

    fn to_xy(&self) -> (r: (usize, usize)) {
        (*self % 4, *self / 4)
    }

    fn from_xy(x: usize, y: usize) -> (r: usize) {
        y * 4 + x
    }
}

} // verus!
