use vstd::prelude::*;
use crate::heuristic::{Heuristic, empty_count};
use crate::line_world_16::lemma_sum_update;
use crate::world::{Coord, Dir, TOTAL_LIMIT, Tile, World, count_empty, move_cells, seq_sum, wf_cells};

verus! {

/// The directions in the order in which the player tries them.
pub open spec fn dir_at(k: int) -> Dir {
    if k == 0 {
        Dir::Up
    } else if k == 1 {
        Dir::Down
    } else if k == 2 {
        Dir::Left
    } else {
        Dir::Right
    }
}

/// The depth handed on below a node: halved while more than 8 cells are empty.
pub open spec fn next_depth(c: Seq<int>, depth: int) -> int {
    if count_empty(c) > 8 {
        depth / 2
    } else {
        depth
    }
}

/// The value of the `t`-th placement: even `t` places a 2, odd `t` a 4, on cell `t / 2`.
pub open spec fn spawn_value(t: int) -> int {
    if t % 2 == 0 {
        2
    } else {
        4
    }
}

/// The value of a node of the full (unpruned) game tree: a leaf is scored by
/// `h` when no depth is left or the move into it changed nothing; the player
/// takes the best of the four moves, the placer the worst of all placements.
pub open spec fn minimax<F: Heuristic>(h: F, c: Seq<int>, depth: int, max_p: bool, moved: bool) -> int
    decreases if depth > 0 { depth } else { 0 }, 40int,
{
    if depth <= 0 || !moved {
        h.score(c)
    } else if max_p {
        agent_prefix(h, c, depth, 4)
    } else {
        placement_prefix(h, c, depth, 32)
    }
}

/// Value of the player's `i`-th move from `c`.
pub open spec fn agent_child<F: Heuristic>(h: F, c: Seq<int>, depth: int, i: int) -> int
    decreases if depth > 0 { depth } else { 0 }, 0int
    via agent_child_decreases::<F>
{
    if depth <= 0 {
        0
    } else {
        let m = move_cells(c, dir_at(i));
        minimax(h, m, next_depth(c, depth) - 1, false, m != c)
    }
}

/// Best value among the player's first `k` moves, `i32::MIN` for none.
pub open spec fn agent_prefix<F: Heuristic>(h: F, c: Seq<int>, depth: int, k: int) -> int
    decreases if depth > 0 { depth } else { 0 }, k,
{
    if k <= 0 || depth <= 0 {
        i32::MIN as int
    } else {
        let p = agent_prefix(h, c, depth, k - 1);
        let v = agent_child(h, c, depth, k - 1);
        if p < v {
            v
        } else {
            p
        }
    }
}

/// Index of the first of the player's first `k` moves with the best value.
pub open spec fn agent_best_index<F: Heuristic>(h: F, c: Seq<int>, depth: int, k: int) -> int
    decreases k,
{
    if k <= 0 {
        0
    } else if agent_prefix(h, c, depth, k - 1) < agent_child(h, c, depth, k - 1) {
        k - 1
    } else {
        agent_best_index(h, c, depth, k - 1)
    }
}

/// Value of the `t`-th placement from `c`; `i32::MAX` where its cell is taken.
pub open spec fn placement_child<F: Heuristic>(h: F, c: Seq<int>, depth: int, t: int) -> int
    decreases if depth > 0 { depth } else { 0 }, 0int
    via placement_child_decreases::<F>
{
    if depth <= 0 || c[t / 2] != 0 {
        i32::MAX as int
    } else {
        minimax(h, c.update(t / 2, spawn_value(t)), next_depth(c, depth) - 1, true, true)
    }
}

/// Worst value among the first `k` placements, `i32::MAX` for none.
pub open spec fn placement_prefix<F: Heuristic>(h: F, c: Seq<int>, depth: int, k: int) -> int
    decreases if depth > 0 { depth } else { 0 }, k,
{
    if k <= 0 || depth <= 0 {
        i32::MAX as int
    } else {
        let p = placement_prefix(h, c, depth, k - 1);
        let v = placement_child(h, c, depth, k - 1);
        if v < p {
            v
        } else {
            p
        }
    }
}

proof fn lemma_next_depth(c: Seq<int>, depth: int)
    requires
        depth > 0,
    ensures
        0 <= next_depth(c, depth) <= depth,
{
}

#[via_fn]
proof fn agent_child_decreases<F: Heuristic>(h: F, c: Seq<int>, depth: int, i: int) {
    if depth > 0 {
        lemma_next_depth(c, depth);
    }
}

#[via_fn]
proof fn placement_child_decreases<F: Heuristic>(h: F, c: Seq<int>, depth: int, t: int) {
    if depth > 0 {
        lemma_next_depth(c, depth);
    }
}

proof fn lemma_placement_prefix<F: Heuristic>(h: F, c: Seq<int>, depth: int, k: int, j: int)
    requires
        0 <= k <= j,
        depth > 0,
    ensures
        placement_prefix(h, c, depth, j) <= placement_prefix(h, c, depth, k),
        placement_prefix(h, c, depth, k) <= i32::MAX,
    decreases j,
{
    if j > k {
        lemma_placement_prefix(h, c, depth, k, j - 1);
    } else if k > 0 {
        lemma_placement_prefix(h, c, depth, k - 1, k - 1);
    }
}

proof fn lemma_agent_child_le_max<F: Heuristic>(h: F, c: Seq<int>, depth: int, i: int)
    requires
        depth > 0,
    ensures
        agent_child(h, c, depth, i) <= i32::MAX,
{
    let m = move_cells(c, dir_at(i));
    let nd = next_depth(c, depth) - 1;
    h.lemma_score_range(m);
    assert(agent_child(h, c, depth, i) == minimax(h, m, nd, false, m != c));
    if nd > 0 && m != c {
        lemma_placement_prefix(h, m, nd, 32, 32);
        assert(minimax(h, m, nd, false, m != c) == placement_prefix(h, m, nd, 32));
    }
}

proof fn lemma_agent_prefix<F: Heuristic>(h: F, c: Seq<int>, depth: int, k: int, j: int)
    requires
        0 <= k <= j,
        depth > 0,
    ensures
        agent_prefix(h, c, depth, k) <= agent_prefix(h, c, depth, j),
        agent_prefix(h, c, depth, k) >= i32::MIN,
        agent_prefix(h, c, depth, k) <= i32::MAX,
        agent_prefix(h, c, depth, k) == i32::MAX ==> agent_prefix(h, c, depth, j) == i32::MAX
            && agent_best_index(h, c, depth, j) == agent_best_index(h, c, depth, k),
    decreases j,
{
    if j > k {
        lemma_agent_prefix(h, c, depth, k, j - 1);
        lemma_agent_child_le_max(h, c, depth, j - 1);
    } else if k > 0 {
        lemma_agent_prefix(h, c, depth, k - 1, k - 1);
        lemma_agent_child_le_max(h, c, depth, k - 1);
    }
}

/// The depth handed on below a node of `w` with `depth` plies left: half of
/// it (rounded down) when more than 8 cells are empty, all of it otherwise.
pub fn throttled_depth<W: World>(w: &W, depth: i32) -> (r: i32)
    requires
        depth >= 0,
        w.cells().len() == 16,
    ensures
        r == next_depth(w.cells(), depth as int),
{
    let empty_tiles = empty_count(w);
    if empty_tiles > 8 {
        depth / 2
    } else {
        depth
    }
}

/// Depth throttling: with 9 empty cells the depth handed on is halved,
/// rounded down; with 8 or fewer it is kept, so a child node gets one ply less.
pub proof fn lemma_depth_throttling(c: Seq<int>, depth: int)
    requires
        depth >= 0,
    ensures
        count_empty(c) == 9 ==> next_depth(c, depth) == depth / 2,
        count_empty(c) <= 8 ==> next_depth(c, depth) - 1 == depth - 1,
{
}

/// Depth-limited alpha-beta search from `w`, where `max_p` says whether the
/// player (maximising) or the placer (minimising) is to act, and `moved`
/// whether the step into `w` changed the board. The value returned is exact
/// whenever it lies strictly inside `(alpha, beta)`; otherwise it bounds the
/// exact value from the same side as the window bound it reached.
pub fn alphabeta<W: World, F: Heuristic>(
    w: &W,
    depth: i32,
    alpha: i32,
    beta: i32,
    max_p: bool,
    moved: bool,
    h: &F,
) -> (r: (Dir, i32))
    requires
        alpha < beta,
        wf_cells(w.cells()),
        depth <= 0 || seq_sum(w.cells()) + 4 * depth <= TOTAL_LIMIT,
    ensures
        (depth <= 0 || !moved) ==> r.1 == minimax(*h, w.cells(), depth as int, max_p, moved),
        alpha < r.1 < beta ==> r.1 == minimax(*h, w.cells(), depth as int, max_p, moved),
        r.1 <= alpha ==> minimax(*h, w.cells(), depth as int, max_p, moved) <= r.1,
        r.1 >= beta ==> minimax(*h, w.cells(), depth as int, max_p, moved) >= r.1,
        (max_p && depth > 0 && moved && alpha == i32::MIN && beta == i32::MAX) ==> r.0 == dir_at(
            agent_best_index(*h, w.cells(), depth as int, 4),
        ),
    decreases if depth > 0 { depth } else { 0 }, 1int,
{
    if depth <= 0 || !moved {
        return (Dir::Up, h.call(w));
    }
    let new_depth = throttled_depth(w, depth);
    proof {
        lemma_next_depth(w.cells(), depth as int);
    }
    if max_p {
        agent_node(w, depth, new_depth, alpha, beta, h)
    } else {
        placement_node(w, depth, new_depth, alpha, beta, h)
    }
}

/// The player's turn of `alphabeta`: tries the four moves in order.
fn agent_node<W: World, F: Heuristic>(w: &W, depth: i32, new_depth: i32, alpha: i32, beta: i32, h: &F) -> (r: (
    Dir,
    i32,
))
    requires
        alpha < beta,
        wf_cells(w.cells()),
        depth > 0,
        seq_sum(w.cells()) + 4 * depth <= TOTAL_LIMIT,
        new_depth == next_depth(w.cells(), depth as int),
        0 <= new_depth <= depth,
    ensures
        alpha < r.1 < beta ==> r.1 == agent_prefix(*h, w.cells(), depth as int, 4),
        r.1 <= alpha ==> agent_prefix(*h, w.cells(), depth as int, 4) <= r.1,
        r.1 >= beta ==> agent_prefix(*h, w.cells(), depth as int, 4) >= r.1,
        (alpha == i32::MIN && beta == i32::MAX) ==> r.0 == dir_at(agent_best_index(*h, w.cells(), depth as int, 4)),
    decreases depth, 0int,
{
    let ghost c = w.cells();
    let dirs: [Dir; 4] = [Dir::Up, Dir::Down, Dir::Left, Dir::Right];
    let mut best: (Dir, i32) = (Dir::Up, i32::MIN);
    let mut a = alpha;
    let mut k: usize = 0;
    let mut stop = false;
    while k < 4 && !stop
        invariant
            k <= 4,
            c == w.cells(),
            wf_cells(c),
            depth > 0,
            alpha < beta,
            seq_sum(c) + 4 * depth <= TOTAL_LIMIT,
            new_depth == next_depth(c, depth as int),
            0 <= new_depth <= depth,
            forall|i: int| 0 <= i < 4 ==> dirs@[i] == dir_at(i),
            a == (if alpha > best.1 { alpha } else { best.1 }),
            !stop ==> a < beta,
            !stop ==> agent_prefix(*h, c, depth as int, k as int) <= best.1,
            !stop ==> (best.1 > alpha ==> best.1 <= agent_prefix(*h, c, depth as int, k as int)),
            stop ==> best.1 >= beta && agent_prefix(*h, c, depth as int, k as int) >= best.1,
            (alpha == i32::MIN && beta == i32::MAX) ==> best.1 == agent_prefix(*h, c, depth as int, k as int)
                && best.0 == dir_at(agent_best_index(*h, c, depth as int, k as int)),
        decreases 4 - k,
    {
        let d = dirs[k];
        let mut w1 = *w;
        let moved1 = w1.do_move(d);
        let (_, val) = alphabeta(&w1, new_depth - 1, a, beta, false, moved1, h);
        proof {
            lemma_agent_child_le_max(*h, c, depth as int, k as int);
            lemma_agent_prefix(*h, c, depth as int, k as int, k as int);
            assert(agent_child(*h, c, depth as int, k as int) == minimax(*h, w1.cells(), new_depth - 1, false, moved1));
        }
        if best.1 < val {
            best = (d, val);
        }
        if best.1 > a {
            a = best.1;
        }
        if beta <= a {
            stop = true;
        }
        k = k + 1;
    }
    proof {
        lemma_agent_prefix(*h, c, depth as int, k as int, 4);
    }
    best
}

/// The placer's turn of `alphabeta`: tries a 2, then a 4, on each empty cell
/// in order.
fn placement_node<W: World, F: Heuristic>(w: &W, depth: i32, new_depth: i32, alpha: i32, beta: i32, h: &F) -> (r: (
    Dir,
    i32,
))
    requires
        alpha < beta,
        wf_cells(w.cells()),
        depth > 0,
        seq_sum(w.cells()) + 4 * depth <= TOTAL_LIMIT,
        new_depth == next_depth(w.cells(), depth as int),
        0 <= new_depth <= depth,
    ensures
        alpha < r.1 < beta ==> r.1 == placement_prefix(*h, w.cells(), depth as int, 32),
        r.1 <= alpha ==> placement_prefix(*h, w.cells(), depth as int, 32) <= r.1,
        r.1 >= beta ==> placement_prefix(*h, w.cells(), depth as int, 32) >= r.1,
    decreases depth, 0int,
{
    let ghost c = w.cells();
    let tiles = w.iterate();
    let mut best: (Dir, i32) = (Dir::Up, i32::MAX);
    let mut b = beta;
    let mut t: usize = 0;
    let mut stop = false;
    while t < 32 && !stop
        invariant
            t <= 32,
            c == w.cells(),
            wf_cells(c),
            depth > 0,
            alpha < beta,
            seq_sum(c) + 4 * depth <= TOTAL_LIMIT,
            new_depth == next_depth(c, depth as int),
            0 <= new_depth <= depth,
            tiles.len() == 16,
            forall|j: int| 0 <= j < 16 ==> (#[trigger] tiles@[j]).0.cell() == j && tiles@[j].1.value() == c[j],
            b == (if beta < best.1 { beta } else { best.1 }),
            !stop ==> alpha < b,
            !stop ==> placement_prefix(*h, c, depth as int, t as int) >= best.1,
            !stop ==> (best.1 < beta ==> best.1 >= placement_prefix(*h, c, depth as int, t as int)),
            stop ==> best.1 <= alpha && placement_prefix(*h, c, depth as int, t as int) <= best.1,
        decreases 32 - t,
    {
        let cell = t / 2;
        let (coord, v) = tiles[cell];
        proof {
            lemma_placement_prefix(*h, c, depth as int, t as int, t as int);
        }
        if v.empty() {
            let x: i32 = if t % 2 == 0 {
                2
            } else {
                4
            };
            let mut w1 = *w;
            w1.set(coord, <W::Tile as Tile>::from_i32(x));
            proof {
                lemma_sum_update(c, cell as int, x as int);
                assert(w1.cells() == c.update(t as int / 2, spawn_value(t as int)));
            }
            let (_, val) = alphabeta(&w1, new_depth - 1, alpha, b, true, true, h);
            proof {
                assert(placement_child(*h, c, depth as int, t as int) == minimax(*h, w1.cells(), new_depth - 1, true, true));
            }
            if best.1 > val {
                best = (Dir::Up, val);
            }
            if best.1 < b {
                b = best.1;
            }
            if b <= alpha {
                stop = true;
            }
            proof {
                let q = placement_prefix(*h, c, depth as int, t as int);
                assert(placement_prefix(*h, c, depth as int, t + 1) == (if placement_child(*h, c, depth as int, t as int) < q { placement_child(*h, c, depth as int, t as int) } else { q }));
            }
        } else {
            proof {
                assert(placement_child(*h, c, depth as int, t as int) == i32::MAX);
                assert(placement_prefix(*h, c, depth as int, t + 1) == placement_prefix(*h, c, depth as int, t as int));
            }
        }
        t = t + 1;
    }
    proof {
        lemma_placement_prefix(*h, c, depth as int, t as int, 32);
    }
    best
}

/// The player's best move on `w` and its exact value, searching `depth`
/// plies with the full window.
pub fn search<W: World, F: Heuristic>(w: &W, depth: i32, h: &F) -> (r: (Dir, i32))
    requires
        wf_cells(w.cells()),
        depth <= 0 || seq_sum(w.cells()) + 4 * depth <= TOTAL_LIMIT,
    ensures
        r.1 == minimax(*h, w.cells(), depth as int, true, true),
        depth > 0 ==> r.0 == dir_at(agent_best_index(*h, w.cells(), depth as int, 4)),
{
    let r = alphabeta(w, depth, i32::MIN, i32::MAX, true, true, h);
    proof {
        if depth > 0 {
            lemma_agent_prefix(*h, w.cells(), depth as int, 0, 4);
            lemma_agent_prefix(*h, w.cells(), depth as int, 4, 4);
        }
    }
    r
}

} // verus!
