use vstd::prelude::*;
use crate::heuristic::empty_count;
use crate::world::{Coord, Tile, World, count_empty};

verus! {

/// Relies on rand::random: draws a value from the thread-local generator.
/// Nothing is promised of the value.
pub assume_specification<T>[ rand::random::<T> ]() -> (r: T)
    where
        rand::distributions::Standard: rand::distributions::Distribution<T>,
;

/// The value of a new tile for a roll of the die: 4 when the roll ends in 9
/// (one roll in ten), 2 otherwise.
pub fn tile_value_from_roll(roll: u32) -> (r: i32)
    ensures
        r == (if roll % 10 == 9 { 4int } else { 2int }),
{
    if roll % 10 == 9 {
        4
    } else {
        2
    }
}

/// Places `value` on the empty cell whose rank among the empty cells (row by
/// row) is `pick` modulo their number. Returns false, leaving the board as it
/// was, when no cell is empty.
pub fn place_tile<W: World>(world: &mut W, pick: usize, value: i32) -> (r: bool)
    requires
        old(world).cells().len() == 16,
    ensures
        r == (count_empty(old(world).cells()) > 0),
        !r ==> final(world).cells() == old(world).cells(),
        r ==> exists|i: int|
            0 <= i < 16 && old(world).cells()[i] == 0 && count_empty(old(world).cells().subrange(0, i)) == pick as int
                % count_empty(old(world).cells()) && final(world).cells() == old(world).cells().update(i, value as int),
{
    let n = empty_count(world);
    if n == 0 {
        return false;
    }
    let target = pick % n;
    let tiles = world.iterate();
    let ghost c = world.cells();
    let mut seen: usize = 0;
    let mut i: usize = 0;
    while i < 16
        invariant
            i <= 16,
            c == world.cells(),
            c == old(world).cells(),
            c.len() == 16,
            tiles.len() == 16,
            forall|j: int| 0 <= j < 16 ==> (#[trigger] tiles@[j]).0.cell() == j && tiles@[j].1.value() == c[j],
            seen == count_empty(c.subrange(0, i as int)),
            seen <= target,
            target < n,
            target == pick % n,
            n == count_empty(c),
        decreases 16 - i,
    {
        proof {
            assert(c.subrange(0, i + 1).drop_last() =~= c.subrange(0, i as int));
        }
        let (coord, v) = tiles[i];
        if v.empty() {
            if seen == target {
                world.set(coord, <W::Tile as Tile>::from_i32(value));
                assert(c[i as int] == 0 && count_empty(c.subrange(0, i as int)) == pick as int % count_empty(c)
                    && world.cells() == c.update(i as int, value as int));
                return true;
            }
            seen = seen + 1;
        }
        i = i + 1;
    }
    assert(c.subrange(0, 16) =~= c);
    false
}

/// Puts a new tile, a 2 nine times in ten and a 4 otherwise, on an empty cell
/// drawn at random. Returns false, leaving the board as it was, when no cell
/// is empty.
pub fn add_rand_tile<W: World>(world: &mut W) -> (r: bool)
    requires
        old(world).cells().len() == 16,
    ensures
        r == (count_empty(old(world).cells()) > 0),
        !r ==> final(world).cells() == old(world).cells(),
        r ==> exists|i: int|
            0 <= i < 16 && old(world).cells()[i] == 0 && (final(world).cells() == old(world).cells().update(i, 2)
                || final(world).cells() == old(world).cells().update(i, 4)),
{
    let pick: usize = rand::random::<usize>();
    let roll: u32 = rand::random::<u32>();
    let value = tile_value_from_roll(roll);
    place_tile(world, pick, value)
}

} // verus!
