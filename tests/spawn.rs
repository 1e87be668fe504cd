use tile_agent::spawn::{add_rand_tile, place_tile, tile_value_from_roll};
use tile_agent::{LineWorld16, World};

#[test]
fn roll_gives_four_one_time_in_ten() {
    assert_eq!(tile_value_from_roll(9), 4);
    assert_eq!(tile_value_from_roll(19), 4);
    assert_eq!(tile_value_from_roll(0), 2);
    assert_eq!(tile_value_from_roll(8), 2);
    let fours = (0..1000u32).filter(|r| tile_value_from_roll(*r) == 4).count();
    assert_eq!(fours, 100);
}

#[test]
fn place_tile_uses_rank_among_empty_cells() {
    let mut w = LineWorld16 { data: [2; 16] };
    w.data[3] = 0;
    w.data[10] = 0;
    assert!(place_tile(&mut w, 3, 4));
    assert_eq!(w.data[10], 4);
    assert_eq!(w.data[3], 0);
    assert!(place_tile(&mut w, 7, 2));
    assert_eq!(w.data[3], 2);
    assert!(!place_tile(&mut w, 0, 2));
}

#[test]
fn single_empty_cell_is_always_filled() {
    for _ in 0..200 {
        let mut w = LineWorld16 { data: [8; 16] };
        w.data[5] = 0;
        assert!(add_rand_tile(&mut w));
        assert!(w.data[5] == 2 || w.data[5] == 4);
    }
}

#[test]
fn spawner_spreads_over_empty_cells() {
    let mut per_cell = [0usize; 16];
    let mut fours = 0usize;
    let trials = 8000;
    for _ in 0..trials {
        let mut w = LineWorld16::new();
        assert!(add_rand_tile(&mut w));
        let i = w.data.iter().position(|v| *v != 0).unwrap();
        per_cell[i] += 1;
        if w.data[i] == 4 {
            fours += 1;
        }
    }
    for n in per_cell {
        assert!(n > trials / 32 && n < trials / 8);
    }
    assert!(fours > trials / 20 && fours < trials * 3 / 20);
}
