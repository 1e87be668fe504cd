use vstd::prelude::*;
use crate::world::{TOTAL_LIMIT, Tile, World, count_empty, seq_sum, wf_cells};

verus! {

/// Sum of the squares of the values.
pub open spec fn squares_sum(s: Seq<int>) -> int
    decreases s.len(),
{
    if s.len() == 0 {
        0
    } else {
        squares_sum(s.drop_last()) + s.last() * s.last()
    }
}

/// Sum of the values, where each empty cell counts as `EMPTY_BONUS`.
pub open spec fn bonus_sum(s: Seq<int>) -> int
    decreases s.len(),
{
    if s.len() == 0 {
        0
    } else {
        bonus_sum(s.drop_last()) + if s.last() == 0 { EMPTY_BONUS as int } else { s.last() }
    }
}

/// Largest value, or 0 for no values.
pub open spec fn max_value(s: Seq<int>) -> int
    decreases s.len(),
{
    if s.len() == 0 {
        0
    } else {
        let m = max_value(s.drop_last());
        if s.last() > m { s.last() } else { m }
    }
}

/// What an empty cell is worth to the weighted-sum heuristic.
pub const EMPTY_BONUS: i32 = 256;

/// A static evaluation of a board: higher is better for the player.
pub trait Heuristic {
    /// The score of a well-formed board.
    spec fn score(&self, c: Seq<int>) -> int;

    /// Every score fits an `i32`.
    proof fn lemma_score_range(&self, c: Seq<int>)
        ensures
            i32::MIN <= self.score(c) <= i32::MAX,
    ;

    fn call<W: World>(&self, w: &W) -> (r: i32)
        requires
            wf_cells(w.cells()),
        ensures
            r == self.score(w.cells()),
    ;

    fn description(&self) -> &'static str;
}

/// Counts the empty cells.
pub struct HEmpty;

/// Sums the tile values, counting `EMPTY_BONUS` for each empty cell.
pub struct HSum;

/// Sums the squares of the tile values.
pub struct HSquared;

proof fn lemma_count_empty_le(s: Seq<int>)
    ensures
        0 <= count_empty(s) <= s.len(),
    decreases s.len(),
{
    if s.len() > 0 {
        lemma_count_empty_le(s.drop_last());
    }
}

proof fn lemma_bonus_sum(s: Seq<int>)
    ensures
        bonus_sum(s) == seq_sum(s) + EMPTY_BONUS * count_empty(s),
    decreases s.len(),
{
    if s.len() > 0 {
        lemma_bonus_sum(s.drop_last());
    }
}

proof fn lemma_squares_le(s: Seq<int>)
    requires
        forall|i: int| 0 <= i < s.len() ==> s[i] >= 0,
    ensures
        0 <= squares_sum(s) <= seq_sum(s) * seq_sum(s),
        0 <= seq_sum(s),
    decreases s.len(),
{
    if s.len() > 0 {
        let t = s.drop_last();
        lemma_squares_le(t);
        let a = seq_sum(t);
        let x = s.last();
        let q = squares_sum(t);
        assert(q + x * x <= (a + x) * (a + x)) by (nonlinear_arith)
            requires
                0 <= q <= a * a,
                a >= 0,
                x >= 0,
        ;
        assert(0 <= x * x) by (nonlinear_arith);
    }
}

/// Number of empty cells of a board.
pub fn empty_count<W: World>(w: &W) -> (r: usize)
    requires
        w.cells().len() == 16,
    ensures
        r == count_empty(w.cells()),
{
    let tiles = w.iterate();
    let ghost c = w.cells();
    let mut n: usize = 0;
    let mut i: usize = 0;
    while i < 16
        invariant
            i <= 16,
            c == w.cells(),
            c.len() == 16,
            tiles.len() == 16,
            forall|j: int| 0 <= j < 16 ==> (#[trigger] tiles@[j]).1.value() == c[j],
            n == count_empty(c.subrange(0, i as int)),
            n <= i,
        decreases 16 - i,
    {
        proof {
            assert(c.subrange(0, i + 1).drop_last() =~= c.subrange(0, i as int));
        }
        if tiles[i].1.empty() {
            n = n + 1;
        }
        i = i + 1;
    }
    assert(c.subrange(0, 16) =~= c);
    n
}

/// Sum of all tile values.
pub fn total<W: World>(w: &W) -> (r: i32)
    requires
        wf_cells(w.cells()),
    ensures
        r == seq_sum(w.cells()),
{
    let tiles = w.iterate();
    let ghost c = w.cells();
    let mut sum: i32 = 0;
    let mut i: usize = 0;
    while i < 16
        invariant
            i <= 16,
            c == w.cells(),
            wf_cells(c),
            tiles.len() == 16,
            forall|j: int| 0 <= j < 16 ==> (#[trigger] tiles@[j]).1.value() == c[j],
            sum == seq_sum(c.subrange(0, i as int)),
        decreases 16 - i,
    {
        proof {
            let pre = c.subrange(0, i + 1);
            assert(pre.drop_last() =~= c.subrange(0, i as int));
            lemma_prefix_sum_le(c, i + 1);
            lemma_squares_le(pre.drop_last());
        }
        sum = sum + tiles[i].1.to_i32();
        i = i + 1;
    }
    assert(c.subrange(0, 16) =~= c);
    sum
}

/// The largest tile value, 0 on an empty board.
pub fn best_tile<W: World>(w: &W) -> (r: i32)
    requires
        w.cells().len() == 16,
    ensures
        r == max_value(w.cells()),
{
    let tiles = w.iterate();
    let ghost c = w.cells();
    let mut best: i32 = 0;
    let mut i: usize = 0;
    while i < 16
        invariant
            i <= 16,
            c == w.cells(),
            c.len() == 16,
            tiles.len() == 16,
            forall|j: int| 0 <= j < 16 ==> (#[trigger] tiles@[j]).1.value() == c[j],
            best == max_value(c.subrange(0, i as int)),
        decreases 16 - i,
    {
        proof {
            assert(c.subrange(0, i + 1).drop_last() =~= c.subrange(0, i as int));
            assert(tiles@[i as int].1.value() == c[i as int]);
        }
        let v = tiles[i].1.to_i32();
        if v > best {
            best = v;
        }
        i = i + 1;
    }
    assert(c.subrange(0, 16) =~= c);
    best
}

/// A prefix of non-negative values sums to at most the whole.
proof fn lemma_prefix_sum_le(s: Seq<int>, i: int)
    requires
        0 <= i <= s.len(),
        forall|j: int| 0 <= j < s.len() ==> s[j] >= 0,
    ensures
        seq_sum(s.subrange(0, i)) <= seq_sum(s),
        0 <= seq_sum(s.subrange(0, i)),
    decreases s.len(),
{
    if i == s.len() {
        assert(s.subrange(0, i) =~= s);
        lemma_squares_le(s);
    } else {
        lemma_prefix_sum_le(s.drop_last(), i);
        assert(s.drop_last().subrange(0, i) =~= s.subrange(0, i));
        lemma_squares_le(s.drop_last());
    }
}

impl Heuristic for HEmpty {
    open spec fn score(&self, c: Seq<int>) -> int {
        if wf_cells(c) {
            count_empty(c)
        } else {
            0
        }
    }

    proof fn lemma_score_range(&self, c: Seq<int>) {
        lemma_count_empty_le(c);
    }

    fn call<W: World>(&self, w: &W) -> (r: i32) {
        let n = empty_count(w);
        proof {
            lemma_count_empty_le(w.cells());
        }
        n as i32
    }

    fn description(&self) -> &'static str {
        "Empty count"
    }
}

impl Heuristic for HSum {
    open spec fn score(&self, c: Seq<int>) -> int {
        if wf_cells(c) {
            bonus_sum(c)
        } else {
            0
        }
    }

    proof fn lemma_score_range(&self, c: Seq<int>) {
        if wf_cells(c) {
            lemma_bonus_sum(c);
            lemma_count_empty_le(c);
            lemma_squares_le(c);
        }
    }

    fn call<W: World>(&self, w: &W) -> (r: i32) {
        let tiles = w.iterate();
        let ghost c = w.cells();
        let mut sum: i32 = 0;
        let mut i: usize = 0;
        while i < 16
            invariant
                i <= 16,
                c == w.cells(),
                wf_cells(c),
                tiles.len() == 16,
                forall|j: int| 0 <= j < 16 ==> (#[trigger] tiles@[j]).1.value() == c[j],
                sum == bonus_sum(c.subrange(0, i as int)),
            decreases 16 - i,
        {
            proof {
                let pre = c.subrange(0, i + 1);
                assert(pre.drop_last() =~= c.subrange(0, i as int));
                lemma_prefix_sum_le(c, i + 1);
                lemma_bonus_sum(pre);
                lemma_count_empty_le(pre);
            }
            let n = tiles[i].1.to_i32();
            if n != 0 {
                sum = sum + n;
            } else {
                sum = sum + EMPTY_BONUS;
            }
            i = i + 1;
        }
        assert(c.subrange(0, 16) =~= c);
        sum
    }

    fn description(&self) -> &'static str {
        "Total sum"
    }
}

impl Heuristic for HSquared {
    open spec fn score(&self, c: Seq<int>) -> int {
        if wf_cells(c) {
            squares_sum(c)
        } else {
            0
        }
    }

    proof fn lemma_score_range(&self, c: Seq<int>) {
        if wf_cells(c) {
            lemma_squares_le(c);
            let a = seq_sum(c);
            assert(a * a <= 46340 * 46340) by (nonlinear_arith)
                requires
                    0 <= a <= 46340,
            ;
        }
    }

    fn call<W: World>(&self, w: &W) -> (r: i32) {
        let tiles = w.iterate();
        let ghost c = w.cells();
        let mut sum: i32 = 0;
        let mut i: usize = 0;
        while i < 16
            invariant
                i <= 16,
                c == w.cells(),
                wf_cells(c),
                tiles.len() == 16,
                forall|j: int| 0 <= j < 16 ==> (#[trigger] tiles@[j]).1.value() == c[j],
                sum == squares_sum(c.subrange(0, i as int)),
            decreases 16 - i,
        {
            proof {
                let pre = c.subrange(0, i + 1);
                assert(pre.drop_last() =~= c.subrange(0, i as int));
                lemma_prefix_sum_le(c, i + 1);
                lemma_squares_le(pre);
                let a = seq_sum(pre);
                assert(a * a <= 46340 * 46340) by (nonlinear_arith)
                    requires
                        0 <= a <= 46340,
                ;
            }
            let n = tiles[i].1.to_i32();
            proof {
                let pre = c.subrange(0, i + 1);
                lemma_squares_le(pre.drop_last());
                assert(n as int * n as int <= 46340 * 46340) by (nonlinear_arith)
                    requires
                        0 <= n <= 46340,
                ;
            }
            sum = sum + n * n;
            i = i + 1;
        }
        assert(c.subrange(0, 16) =~= c);
        sum
    }

    fn description(&self) -> &'static str {
        "Squared"
    }
}

} // verus!
