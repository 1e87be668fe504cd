use tile_agent::heuristic::{best_tile, empty_count, total, HEmpty, HSquared, HSum, Heuristic};
use tile_agent::search::{alphabeta, search, throttled_depth};
use tile_agent::{Dir, LineWorld16, World};

const DIRS: [Dir; 4] = [Dir::Up, Dir::Down, Dir::Left, Dir::Right];

fn from_cells(cells: [i32; 16]) -> LineWorld16 {
    LineWorld16 { data: cells }
}

/// Plain minimax over the same game tree, without pruning.
fn full_minimax<F: Heuristic>(w: &LineWorld16, depth: i32, max_p: bool, moved: bool, h: &F) -> i32 {
    if depth <= 0 || !moved {
        return h.call(w);
    }
    let empties = w.data.iter().filter(|v| **v == 0).count();
    let nd = if empties > 8 { depth / 2 } else { depth };
    if max_p {
        let mut best = i32::MIN;
        for d in DIRS {
            let mut w1 = *w;
            let m = w1.do_move(d);
            best = best.max(full_minimax(&w1, nd - 1, false, m, h));
        }
        best
    } else {
        let mut best = i32::MAX;
        for i in 0..16 {
            if w.data[i] != 0 {
                continue;
            }
            for x in [2, 4] {
                let mut w1 = *w;
                w1.set(i, x);
                best = best.min(full_minimax(&w1, nd - 1, true, true, h));
            }
        }
        best
    }
}

fn sample_boards() -> Vec<LineWorld16> {
    vec![
        from_cells([2, 0, 0, 0, 0, 0, 0, 0, 0, 0, 0, 0, 0, 0, 0, 2]),
        from_cells([2, 4, 8, 16, 0, 2, 4, 8, 0, 0, 2, 4, 0, 0, 0, 2]),
        from_cells([4, 2, 4, 2, 2, 4, 2, 4, 4, 2, 0, 2, 2, 4, 2, 0]),
        from_cells([2, 2, 4, 8, 16, 8, 4, 2, 0, 0, 0, 2, 0, 4, 0, 0]),
    ]
}

#[test]
fn pruned_search_matches_full_minimax() {
    for w in sample_boards() {
        for depth in 1..5 {
            let (_, v) = alphabeta(&w, depth, i32::MIN, i32::MAX, true, true, &HSquared);
            assert_eq!(v, full_minimax(&w, depth, true, true, &HSquared));
            let (_, v) = alphabeta(&w, depth, i32::MIN, i32::MAX, true, true, &HSum);
            assert_eq!(v, full_minimax(&w, depth, true, true, &HSum));
            let (_, v) = alphabeta(&w, depth, i32::MIN, i32::MAX, true, true, &HEmpty);
            assert_eq!(v, full_minimax(&w, depth, true, true, &HEmpty));
        }
    }
}

#[test]
fn search_picks_first_best_direction() {
    let w = from_cells([2, 2, 0, 0, 0, 0, 0, 0, 0, 0, 0, 0, 0, 0, 0, 0]);
    let (d, v) = search(&w, 1, &HSquared);
    // Left and Right both merge into a 4; Up and Down change nothing.
    assert_eq!(v, 16);
    assert_eq!(d, Dir::Left);
}

#[test]
fn leaf_returns_heuristic() {
    let w = from_cells([2, 4, 0, 0, 0, 0, 0, 0, 0, 0, 0, 0, 0, 0, 0, 0]);
    assert_eq!(alphabeta(&w, 0, i32::MIN, i32::MAX, true, true, &HSquared).1, 20);
    assert_eq!(alphabeta(&w, 5, i32::MIN, i32::MAX, false, false, &HEmpty).1, 14);
}

#[test]
fn throttling_halves_with_nine_empty_cells() {
    let nine = from_cells([2, 4, 2, 4, 2, 4, 2, 0, 0, 0, 0, 0, 0, 0, 0, 0]);
    assert_eq!(empty_count(&nine), 9);
    assert_eq!(throttled_depth(&nine, 9), 4);
    let eight = from_cells([2, 4, 2, 4, 2, 4, 2, 4, 0, 0, 0, 0, 0, 0, 0, 0]);
    assert_eq!(throttled_depth(&eight, 9), 9);
}

#[test]
fn heuristics_on_a_small_board() {
    let w = from_cells([2, 4, 0, 0, 0, 0, 0, 0, 0, 0, 0, 0, 0, 0, 0, 0]);
    assert_eq!(HEmpty.call(&w), 14);
    assert_eq!(HSum.call(&w), 6 + 14 * 256);
    assert_eq!(HSquared.call(&w), 20);
    assert_eq!(HSquared.description(), "Squared");
    assert_eq!(total(&w), 6);
    assert_eq!(best_tile(&w), 4);
    assert_eq!(best_tile(&LineWorld16::new()), 0);
}
