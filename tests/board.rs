use tile_agent::line_world_16::Iter16;
use tile_agent::{Coord, Dir, LineWorld16, Tile, World};

fn board(rows: [[i32; 4]; 4]) -> LineWorld16 {
    let mut data = [0i32; 16];
    for y in 0..4 {
        for x in 0..4 {
            data[y * 4 + x] = rows[y][x];
        }
    }
    LineWorld16 { data }
}

fn row(w: &LineWorld16, y: usize) -> [i32; 4] {
    [w.data[y * 4], w.data[y * 4 + 1], w.data[y * 4 + 2], w.data[y * 4 + 3]]
}

#[test]
fn new_board_is_empty() {
    let w = LineWorld16::new();
    assert_eq!(w.data, [0; 16]);
}

#[test]
fn second_left_move_changes_nothing() {
    let mut w = board([[2, 2, 0, 0], [0; 4], [0; 4], [0; 4]]);
    assert!(w.do_move(Dir::Left));
    assert_eq!(row(&w, 0), [4, 0, 0, 0]);
    assert!(!w.do_move(Dir::Left));
    assert_eq!(row(&w, 0), [4, 0, 0, 0]);
}

#[test]
fn four_equal_tiles_merge_pairwise_once() {
    let mut w = board([[2, 2, 2, 2], [0; 4], [0; 4], [0; 4]]);
    assert!(w.do_move(Dir::Left));
    assert_eq!(row(&w, 0), [4, 4, 0, 0]);
}

#[test]
fn packed_unmergeable_line_does_not_move() {
    let mut w = board([[2, 4, 2, 4], [0; 4], [0; 4], [0; 4]]);
    assert!(!w.do_move(Dir::Left));
    assert_eq!(row(&w, 0), [2, 4, 2, 4]);
}

#[test]
fn merging_two_tiles_keeps_total_and_drops_one_tile() {
    let mut w = board([[0, 8, 8, 0], [0; 4], [0; 4], [0; 4]]);
    assert!(w.do_move(Dir::Left));
    assert_eq!(row(&w, 0), [16, 0, 0, 0]);
    assert_eq!(w.data.iter().sum::<i32>(), 16);
    assert_eq!(w.data.iter().filter(|v| **v != 0).count(), 1);
}

#[test]
fn right_move_pushes_to_the_right_edge() {
    let mut w = board([[2, 2, 4, 0], [0, 0, 0, 2], [4, 0, 4, 4], [0; 4]]);
    assert!(w.do_move(Dir::Right));
    assert_eq!(row(&w, 0), [0, 0, 4, 4]);
    assert_eq!(row(&w, 1), [0, 0, 0, 2]);
    assert_eq!(row(&w, 2), [0, 0, 4, 8]);
}

#[test]
fn up_and_down_moves_work_on_columns() {
    let mut w = board([[2, 0, 0, 0], [2, 0, 0, 0], [4, 0, 0, 0], [0, 0, 0, 8]]);
    let mut v = w;
    assert!(w.do_move(Dir::Up));
    assert_eq!(w.data[0], 4);
    assert_eq!(w.data[4], 4);
    assert_eq!(w.data[8], 0);
    assert_eq!(w.data[3], 8);
    assert!(v.do_move(Dir::Down));
    assert_eq!(v.data[12], 4);
    assert_eq!(v.data[8], 4);
    assert_eq!(v.data[4], 0);
    assert_eq!(v.data[15], 8);
}

#[test]
fn terminal_board_has_no_legal_move() {
    let w0 = board([[2, 4, 2, 4], [4, 2, 4, 2], [2, 4, 2, 4], [4, 2, 4, 2]]);
    for d in [Dir::Up, Dir::Down, Dir::Left, Dir::Right] {
        let mut w = w0;
        assert!(!w.do_move(d));
        assert_eq!(w.data, w0.data);
    }
    let mut w = w0;
    assert!(!tile_agent::spawn::add_rand_tile(&mut w));
    assert_eq!(w.data, w0.data);
}

#[test]
fn squash_and_merge_one_line() {
    let mut w = board([[0, 2, 0, 2], [0; 4], [0; 4], [0; 4]]);
    w.squash_line(Dir::Left, 0);
    assert_eq!(row(&w, 0), [2, 2, 0, 0]);
    w.merge_line(Dir::Left, 0);
    assert_eq!(row(&w, 0), [4, 0, 0, 0]);
}

#[test]
fn line_walk_for_down() {
    let mut it = Iter16::new(Dir::Down, 1, 0);
    assert_eq!(it.next(), Some((0, 13)));
    assert_eq!(it.next(), Some((1, 9)));
    assert_eq!(it.next(), Some((2, 5)));
    assert_eq!(it.next(), Some((3, 1)));
    assert_eq!(it.next(), None);
}

#[test]
fn coordinates_and_tiles() {
    let c: usize = Coord::from_xy(3, 2);
    assert_eq!(c, 11);
    assert_eq!(c.to_xy(), (3, 2));
    let t: i32 = Tile::from_i32(8);
    assert_eq!(t.to_i32(), 8);
    assert!(!t.empty());
    assert!(0i32.empty());
}

#[test]
fn get_and_set_cells() {
    let mut w = LineWorld16::new();
    w.set(6, 32);
    assert_eq!(w.get(2, 1), 32);
    let cells = w.iterate();
    assert_eq!(cells.len(), 16);
    assert_eq!(cells[6], (6, 32));
}
