use vstd::prelude::*;
use crate::line_world_16::{lemma_combine_short, lemma_line_geometry, lemma_nonzeros4};
use crate::world::{Dir, count_empty, line_of_cell, line_pos, line_values, move_cells, nonzeros, rank_of_cell, seq_sum, slide};

verus! {

/// No two horizontally or vertically neighbouring cells hold the same value.
pub open spec fn no_equal_neighbours(c: Seq<int>) -> bool {
    &&& forall|i: int| 0 <= i < 16 && i % 4 < 3 ==> #[trigger] c[i] != c[i + 1]
    &&& forall|i: int| 0 <= i < 12 ==> #[trigger] c[i] != c[i + 4]
}

proof fn lemma_sum4(a: int, b: int, c: int, d: int)
    ensures
        seq_sum(seq![a, b, c, d]) == a + b + c + d,
        count_empty(seq![a, b, c, d]) == (if a == 0 { 1int } else { 0 }) + (if b == 0 { 1int } else { 0 }) + (
        if c == 0 { 1int } else { 0 }) + (if d == 0 { 1int } else { 0 }),
{
    assert(seq![a, b, c, d].drop_last() =~= seq![a, b, c]);
    assert(seq![a, b, c].drop_last() =~= seq![a, b]);
    assert(seq![a, b].drop_last() =~= seq![a]);
    assert(seq![a].drop_last() =~= Seq::<int>::empty());
    reveal_with_fuel(seq_sum, 5);
    reveal_with_fuel(count_empty, 5);
}

/// A line holding two equal neighbouring tiles and nothing else keeps its
/// total when moved, and holds one tile fewer afterwards.
pub proof fn lemma_merge_conservation(s: Seq<int>, i: int)
    requires
        s.len() == 4,
        0 <= i < 3,
        s[i] != 0,
        s[i] == s[i + 1],
        forall|j: int| 0 <= j < 4 && j != i && j != i + 1 ==> s[j] == 0,
    ensures
        seq_sum(slide(s)) == seq_sum(s),
        count_empty(slide(s)) == count_empty(s) + 1,
{
    let v = s[i];
    assert(s =~= seq![s[0], s[1], s[2], s[3]]);
    lemma_nonzeros4(s[0], s[1], s[2], s[3]);
    assert(nonzeros(s) =~= seq![v, v]);
    lemma_combine_short(nonzeros(s));
    assert(slide(s) =~= seq![2 * v, 0, 0, 0]);
    lemma_sum4(s[0], s[1], s[2], s[3]);
    lemma_sum4(2 * v, 0, 0, 0);
}

proof fn lemma_slide_fixed(a: int, b: int, c: int, d: int)
    requires
        a != 0 && b != 0 && c != 0 && d != 0,
        a != b && b != c && c != d,
    ensures
        slide(seq![a, b, c, d]) == seq![a, b, c, d],
{
    lemma_nonzeros4(a, b, c, d);
    assert(nonzeros(seq![a, b, c, d]) =~= seq![a, b, c, d]);
    lemma_combine_short(seq![a, b, c, d]);
    assert(slide(seq![a, b, c, d]) =~= seq![a, b, c, d]);
}

proof fn lemma_no_zero_count(s: Seq<int>)
    requires
        forall|i: int| 0 <= i < s.len() ==> s[i] != 0,
    ensures
        count_empty(s) == 0,
    decreases s.len(),
{
    if s.len() > 0 {
        lemma_no_zero_count(s.drop_last());
    }
}

/// A full board with no equal neighbours has no empty cell, and a move in
/// any direction leaves it unchanged.
pub proof fn lemma_terminal_board(c: Seq<int>)
    requires
        c.len() == 16,
        forall|i: int| 0 <= i < 16 ==> c[i] != 0,
        no_equal_neighbours(c),
    ensures
        count_empty(c) == 0,
        forall|d: Dir| #[trigger] move_cells(c, d) == c,
{
    lemma_no_zero_count(c);
    assert forall|d: Dir| #[trigger] move_cells(c, d) == c by {
        reveal(move_cells);
        assert forall|l: int| 0 <= l < 4 implies #[trigger] slide(line_values(c, d, l)) == line_values(c, d, l) by {
            lemma_line_geometry(d, l);
            let pos0 = line_pos(d, l, 0);
            let pos1 = line_pos(d, l, 1);
            let pos2 = line_pos(d, l, 2);
            let pos3 = line_pos(d, l, 3);
            match d {
                Dir::Up => {
                    assert(c[pos0] != c[pos0 + 4] && c[pos1] != c[pos1 + 4] && c[pos2] != c[pos2 + 4]);
                },
                Dir::Down => {
                    assert(c[pos1] != c[pos1 + 4] && c[pos2] != c[pos2 + 4] && c[pos3] != c[pos3 + 4]);
                },
                Dir::Left => {
                    assert(c[pos0] != c[pos0 + 1] && c[pos1] != c[pos1 + 1] && c[pos2] != c[pos2 + 1]);
                },
                Dir::Right => {
                    assert(c[pos1] != c[pos1 + 1] && c[pos2] != c[pos2 + 1] && c[pos3] != c[pos3 + 1]);
                },
            }
            lemma_slide_fixed(c[pos0], c[pos1], c[pos2], c[pos3]);
        }
        assert forall|k: int| 0 <= k < 16 implies move_cells(c, d)[k] == c[k] by {
            let l = line_of_cell(d, k);
            lemma_line_geometry(d, l);
            assert(slide(line_values(c, d, l)) == line_values(c, d, l));
        }
        assert(move_cells(c, d) =~= c);
    }
}

} // verus!
