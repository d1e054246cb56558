//! Placement rules of fixtures standing in a cell: stairwell side walls
//! and the wall a trap launcher is bolted to.

use vstd::prelude::*;
use crate::ramps::{Facing, grid_rows, spec_opposite};
use crate::layers::{cell_at, cell_char};

verus! {

pub open spec fn spec_stair_side_offsets(facing: Facing) -> ((int, int), (int, int)) {
    match facing {
        Facing::S => ((-1, 0), (1, 0)),
        Facing::N => ((1, 0), (-1, 0)),
        Facing::E => ((0, -1), (0, 1)),
        Facing::W => ((0, 1), (0, -1)),
    }
}

/// Left and right neighbour offsets of a stairwell, seen by a player
/// looking into it (the facing is the approach direction).
pub fn side_offsets(facing: Facing) -> (offsets: ((i64, i64), (i64, i64)))
    ensures
        offsets.0.0 == spec_stair_side_offsets(facing).0.0,
        offsets.0.1 == spec_stair_side_offsets(facing).0.1,
        offsets.1.0 == spec_stair_side_offsets(facing).1.0,
        offsets.1.1 == spec_stair_side_offsets(facing).1.1,
{
    match facing {
        Facing::S => ((-1, 0), (1, 0)),
        Facing::N => ((1, 0), (-1, 0)),
        Facing::E => ((0, -1), (0, 1)),
        Facing::W => ((0, 1), (0, -1)),
    }
}

/// Whether the cell beside a stairwell is solid: outside the grid it is,
/// inside it is unless its character is walkable.
pub open spec fn spec_is_wall_neighbor(rows: Seq<Seq<char>>, walkable: Seq<char>, col: int, row: int) -> bool {
    match cell_char(rows, col, row) {
        None => true,
        Some(c) => !walkable.contains(c),
    }
}

pub fn is_wall_neighbor(grid: &Vec<String>, walkable: &Vec<char>, col: i64, row: i64) -> (wall: bool)
    ensures
        wall == spec_is_wall_neighbor(grid_rows(grid@), walkable@, col as int, row as int),
{
    let character = match cell_at(grid, col, row) {
        None => return true,
        Some(c) => c,
    };
    let mut i: usize = 0;
    while i < walkable.len()
        invariant
            i <= walkable@.len(),
            cell_char(grid_rows(grid@), col as int, row as int) == Some(character),
            forall|j: int| 0 <= j < i ==> walkable@[j] != character,
        decreases walkable.len() - i,
    {
        if walkable[i] == character {
            proof {
                assert(walkable@[i as int] == character);
            }
            return false;
        }
        i = i + 1;
    }
    true
}

/// The wall a trap launcher is bolted to: the one behind its firing
/// direction, since it fires through the wall ahead of it.
pub fn mount_wall(facing: Facing) -> (wall: Facing)
    ensures
        wall == spec_opposite(facing),
        wall.spec_delta() == (-facing.spec_delta().0, -facing.spec_delta().1),
{
    match facing {
        Facing::N => Facing::S,
        Facing::E => Facing::W,
        Facing::S => Facing::N,
        Facing::W => Facing::E,
    }
}

} // verus!
