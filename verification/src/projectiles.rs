//! Projectile rules that read the map or a behaviour's parameters: which
//! cells a projectile can pass, and which status effect a hit inflicts.

use vstd::prelude::*;
use crate::strings::same_text;
use crate::layers::{cell_at, cell_char};
use crate::ramps::grid_rows;

verus! {

#[derive(Clone, Copy, PartialEq, Eq, Structural, Debug, Hash)]
pub enum StatusEffectType {
    Poison,
    Slow,
    Burning,
}

pub open spec fn spec_status_effect(value: Seq<char>) -> Option<StatusEffectType> {
    if value == "poison"@ {
        Some(StatusEffectType::Poison)
    } else if value == "slow"@ {
        Some(StatusEffectType::Slow)
    } else if value == "burning"@ {
        Some(StatusEffectType::Burning)
    } else {
        None
    }
}

/// The status effect a behaviour's `statusEffect` parameter names:
/// `poison`, `slow` or `burning`; anything else names none.
pub fn parse_status_effect_type(value: &str) -> (effect: Option<StatusEffectType>)
    ensures
        effect == spec_status_effect(value@),
{
    if same_text(value, "poison") {
        Some(StatusEffectType::Poison)
    } else if same_text(value, "slow") {
        Some(StatusEffectType::Slow)
    } else if same_text(value, "burning") {
        Some(StatusEffectType::Burning)
    } else {
        None
    }
}

/// Whether `(col, row)` holds a walkable character of `grid`; a cell
/// outside the grid is not walkable.
pub open spec fn spec_is_walkable_at(rows: Seq<Seq<char>>, walkable: Seq<char>, col: int, row: int) -> bool {
    match cell_char(rows, col, row) {
        Some(c) => walkable.contains(c),
        None => false,
    }
}

pub fn is_walkable_at(grid: &Vec<String>, walkable: &Vec<char>, col: i64, row: i64) -> (open: bool)
    ensures
        open == spec_is_walkable_at(grid_rows(grid@), walkable@, col as int, row as int),
{
    let character = match cell_at(grid, col, row) {
        None => return false,
        Some(c) => c,
    };
    let mut i: usize = 0;
    while i < walkable.len()
        invariant
            i <= walkable@.len(),
            cell_char(grid_rows(grid@), col as int, row as int) == Some(character),
            forall|j: int| 0 <= j < i ==> walkable@[j] != character,
        decreases walkable.len() - i,
    {
        if walkable[i] == character {
            proof {
                assert(walkable@[i as int] == character);
            }
            return true;
        }
        i = i + 1;
    }
    false
}

} // verus!
