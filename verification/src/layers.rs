//! Moving between the stacked layers of a level: holes the player falls
//! through, the layer a fall lands on, and ramp crossings up and down.

use vstd::prelude::*;
use crate::ramps::{RampInstance, base_key, landing_key, grid_rows};
use crate::strings::chars_of;

verus! {

/// What the layer rules read of a grid character's definition.
#[derive(Clone, Copy, PartialEq, Eq, Structural, Debug)]
pub struct CharDef {
    pub character: char,
    pub solid: bool,
    pub see_through: Option<bool>,
}

/// The first definition of `character`.
pub open spec fn find_def(defs: Seq<CharDef>, character: char) -> Option<CharDef>
    decreases defs.len(),
{
    if defs.len() == 0 {
        None
    } else {
        match find_def(defs.drop_last(), character) {
            Some(def) => Some(def),
            None => if defs.last().character == character { Some(defs.last()) } else { None },
        }
    }
}

/// Solid ground: a `#`, or a character defined solid and not see-through.
pub open spec fn spec_is_solid_floor_char(character: char, defs: Seq<CharDef>) -> bool {
    character == '#' || match find_def(defs, character) {
        Some(def) => def.solid && def.see_through != Some(true),
        None => false,
    }
}

proof fn lemma_find_def_prefix(defs: Seq<CharDef>, k: int, character: char)
    requires
        0 <= k <= defs.len(),
        find_def(defs.take(k), character) is Some,
    ensures
        find_def(defs, character) == find_def(defs.take(k), character),
    decreases defs.len(),
{
    if k < defs.len() {
        assert(defs.drop_last().take(k) =~= defs.take(k));
        lemma_find_def_prefix(defs.drop_last(), k, character);
    } else {
        assert(defs.take(k) =~= defs);
    }
}

pub fn is_solid_floor_char(character: char, defs: &Vec<CharDef>) -> (solid: bool)
    ensures
        solid == spec_is_solid_floor_char(character, defs@),
{
    if character == '#' {
        return true;
    }
    let mut i: usize = 0;
    while i < defs.len()
        invariant
            i <= defs@.len(),
            character != '#',
            find_def(defs@.take(i as int), character) is None,
        decreases defs.len() - i,
    {
        proof {
            assert(defs@.take(i + 1).drop_last() =~= defs@.take(i as int));
            assert(defs@.take(i + 1).last() == defs@[i as int]);
        }
        if defs[i].character == character {
            proof {
                lemma_find_def_prefix(defs@, i + 1, character);
            }
            let see_through = match defs[i].see_through {
                Some(flag) => flag,
                None => false,
            };
            return defs[i].solid && !see_through;
        }
        i = i + 1;
    }
    proof {
        assert(defs@.take(defs@.len() as int) =~= defs@);
    }
    false
}

/// The character at `(col, row)` of `rows`, when the cell exists.
pub open spec fn cell_char(rows: Seq<Seq<char>>, col: int, row: int) -> Option<char> {
    if 0 <= row < rows.len() && 0 <= col < rows[row].len() {
        Some(rows[row][col])
    } else {
        None
    }
}

pub fn cell_at(grid: &Vec<String>, col: i64, row: i64) -> (found: Option<char>)
    ensures
        found == cell_char(grid_rows(grid@), col as int, row as int),
{
    if row < 0 || col < 0 || row as u64 >= grid.len() as u64 {
        return None;
    }
    let line = grid[row as usize].as_str();
    if col as u64 >= line.unicode_len() as u64 {
        return None;
    }
    proof {
        assert(grid_rows(grid@)[row as int] == line@);
    }
    Some(line.get_char(col as usize))
}

/// Whether the floor of layer `layer` (the top of the layer below it) is
/// solid at `(col, row)`: the cell exists on layer `layer - 1` and holds a
/// solid character.
pub open spec fn floor_solid(layers: Seq<Seq<Seq<char>>>, defs: Seq<CharDef>, layer: int, col: int, row: int) -> bool {
    1 <= layer <= layers.len() && match cell_char(layers[layer - 1], col, row) {
        Some(c) => spec_is_solid_floor_char(c, defs),
        None => false,
    }
}

pub open spec fn layer_rows(layers: Seq<Vec<String>>) -> Seq<Seq<Seq<char>>> {
    layers.map_values(|grid: Vec<String>| grid_rows(grid@))
}

/// Whether the layer directly below `layer_index` is open at `(col, row)`:
/// the cell exists there and holds no solid character. A missing layer or
/// cell is no hole.
pub open spec fn spec_is_hole_below(layers: Seq<Seq<Seq<char>>>, defs: Seq<CharDef>, layer_index: int, col: int, row: int) -> bool {
    1 <= layer_index <= layers.len() && match cell_char(layers[layer_index - 1], col, row) {
        Some(c) => !spec_is_solid_floor_char(c, defs),
        None => false,
    }
}

pub fn is_hole_below(layers: &Vec<Vec<String>>, defs: &Vec<CharDef>, layer_index: usize, col: i64, row: i64) -> (hole:
    bool)
    ensures
        hole == spec_is_hole_below(layer_rows(layers@), defs@, layer_index as int, col as int, row as int),
{
    if layer_index == 0 || layer_index - 1 >= layers.len() {
        return false;
    }
    match cell_at(&layers[layer_index - 1], col, row) {
        None => false,
        Some(character) => !is_solid_floor_char(character, defs),
    }
}

/// The highest candidate in `1 ..= top` whose floor is solid, or 0.
pub open spec fn landing_scan(layers: Seq<Seq<Seq<char>>>, defs: Seq<CharDef>, top: int, col: int, row: int) -> int
    decreases top,
{
    if top <= 0 {
        0
    } else if floor_solid(layers, defs, top, col, row) {
        top
    } else {
        landing_scan(layers, defs, top - 1, col, row)
    }
}

/// The layer a fall from `current_layer` lands on: scanning down from the
/// layer below the player, the first whose own floor is solid; layer 0,
/// the ground floor, when none is.
pub fn compute_landing_layer(layers: &Vec<Vec<String>>, defs: &Vec<CharDef>, current_layer: usize, col: i64, row: i64) -> (landing:
    usize)
    ensures
        landing == landing_scan(layer_rows(layers@), defs@, current_layer - 1, col as int, row as int),
{
    if current_layer == 0 {
        return 0;
    }
    let mut candidate = current_layer - 1;
    while candidate >= 1
        invariant
            candidate < current_layer,
            landing_scan(layer_rows(layers@), defs@, current_layer - 1, col as int, row as int) == landing_scan(
                layer_rows(layers@),
                defs@,
                candidate as int,
                col as int,
                row as int,
            ),
        decreases candidate,
    {
        if candidate - 1 < layers.len() {
            match cell_at(&layers[candidate - 1], col, row) {
                Some(character) => {
                    if is_solid_floor_char(character, defs) {
                        return candidate;
                    }
                },
                None => {},
            }
        }
        candidate = candidate - 1;
    }
    0
}

/// A fall lands below where it started, on a solid floor or on the ground
/// floor, and passes no solid floor on the way.
pub proof fn lemma_landing_layer_sound(layers: Seq<Seq<Seq<char>>>, defs: Seq<CharDef>, top: int, col: int, row: int)
    ensures
        0 <= landing_scan(layers, defs, top, col, row) <= if top > 0 { top } else { 0 },
        landing_scan(layers, defs, top, col, row) > 0 ==> floor_solid(
            layers,
            defs,
            landing_scan(layers, defs, top, col, row),
            col,
            row,
        ),
        forall|k: int|
            landing_scan(layers, defs, top, col, row) < k <= top ==> !floor_solid(layers, defs, k, col, row),
    decreases top,
{
    if top > 0 && !floor_solid(layers, defs, top, col, row) {
        lemma_landing_layer_sound(layers, defs, top - 1, col, row);
    }
}

// ---------------------------------------------------------------------------
// Ramp crossings
// ---------------------------------------------------------------------------

pub open spec fn ramp_fits_i32(ramp: RampInstance) -> bool {
    i32::MIN + 1 <= ramp.col <= i32::MAX - 1 && i32::MIN + 1 <= ramp.row <= i32::MAX - 1
}

pub open spec fn ramps_fit_i32(ramps: Seq<RampInstance>) -> bool {
    forall|i: int| 0 <= i < ramps.len() ==> ramp_fits_i32(#[trigger] ramps[i])
}

/// The first ramp based in cell `key`.
pub open spec fn ramp_based_at(ramps: Seq<RampInstance>, key: (int, int)) -> Option<RampInstance>
    decreases ramps.len(),
{
    if ramps.len() == 0 {
        None
    } else {
        match ramp_based_at(ramps.drop_last(), key) {
            Some(ramp) => Some(ramp),
            None => if base_key(ramps.last()) == key { Some(ramps.last()) } else { None },
        }
    }
}

/// Whether some ramp of `ramps` tops out in `prev`, facing against the
/// step `delta`.
pub open spec fn descends_onto(ramps: Seq<RampInstance>, prev: (int, int), delta: (int, int)) -> bool {
    exists|i: int|
        0 <= i < ramps.len() && landing_key(#[trigger] ramps[i]) == prev && ramps[i].facing.spec_delta() == (
        -delta.0,
        -delta.1,
    )
}

/// The layer a move from `prev` to `cur` crosses onto by ramp, if any.
/// Up: a ramp of this layer based in the cell just left, facing along the
/// move, when a layer above exists. Down: a ramp of the layer below whose
/// top is the cell just left, facing against the move.
pub open spec fn spec_ramp_crossing(
    own: Seq<RampInstance>,
    below: Option<Seq<RampInstance>>,
    layer_count: int,
    current_layer: int,
    prev: (int, int),
    cur: (int, int),
) -> Option<int> {
    let delta = (cur.0 - prev.0, cur.1 - prev.1);
    let up = match ramp_based_at(own, prev) {
        Some(ramp) => ramp.facing.spec_delta() == delta && current_layer + 1 < layer_count,
        None => false,
    };
    let down = current_layer > 0 && match below {
        Some(ramps) => descends_onto(ramps, prev, delta),
        None => false,
    };
    if up {
        Some(current_layer + 1)
    } else if down {
        Some(current_layer - 1)
    } else {
        None
    }
}

proof fn lemma_ramp_based_at_prefix(ramps: Seq<RampInstance>, k: int, key: (int, int))
    requires
        0 <= k <= ramps.len(),
        ramp_based_at(ramps.take(k), key) is Some,
    ensures
        ramp_based_at(ramps, key) == ramp_based_at(ramps.take(k), key),
    decreases ramps.len(),
{
    if k < ramps.len() {
        assert(ramps.drop_last().take(k) =~= ramps.take(k));
        lemma_ramp_based_at_prefix(ramps.drop_last(), k, key);
    } else {
        assert(ramps.take(k) =~= ramps);
    }
}

fn find_ramp_based_at(ramps: &Vec<RampInstance>, col: i64, row: i64) -> (found: Option<RampInstance>)
    ensures
        found == ramp_based_at(ramps@, (col as int, row as int)),
{
    let mut i: usize = 0;
    while i < ramps.len()
        invariant
            i <= ramps@.len(),
            ramp_based_at(ramps@.take(i as int), (col as int, row as int)) is None,
        decreases ramps.len() - i,
    {
        proof {
            assert(ramps@.take(i + 1).drop_last() =~= ramps@.take(i as int));
            assert(ramps@.take(i + 1).last() == ramps@[i as int]);
        }
        if ramps[i].col == col && ramps[i].row == row {
            proof {
                lemma_ramp_based_at_prefix(ramps@, i + 1, (col as int, row as int));
            }
            return Some(ramps[i]);
        }
        i = i + 1;
    }
    proof {
        assert(ramps@.take(ramps@.len() as int) =~= ramps@);
    }
    None
}

/// Whether some ramp of `ramps` tops out in `(prev_col, prev_row)` facing
/// against the step `(dx, dy)`.
fn any_descending_ramp(ramps: &Vec<RampInstance>, prev_col: i32, prev_row: i32, dx: i32, dy: i32) -> (found: bool)
    requires
        ramps_fit_i32(ramps@),
    ensures
        found == descends_onto(ramps@, (prev_col as int, prev_row as int), (dx as int, dy as int)),
{
    let mut i: usize = 0;
    while i < ramps.len()
        invariant
            i <= ramps@.len(),
            ramps_fit_i32(ramps@),
            forall|j: int|
                0 <= j < i ==> !(landing_key(#[trigger] ramps@[j]) == (prev_col as int, prev_row as int)
                    && ramps@[j].facing.spec_delta() == (-dx, -dy)),
        decreases ramps.len() - i,
    {
        let ramp = ramps[i];
        let (rdx, rdy) = ramp.facing.delta();
        proof {
            assert(ramp_fits_i32(ramps@[i as int]));
        }
        let top_col = ramp.col as i32 + rdx;
        let top_row = ramp.row as i32 + rdy;
        if top_col == prev_col && top_row == prev_row && dx == -rdx && dy == -rdy {
            proof {
                assert(landing_key(ramps@[i as int]) == (prev_col as int, prev_row as int));
            }
            return true;
        }
        i = i + 1;
    }
    false
}

/// Detects whether the move from `(prev_col, prev_row)` to `(col, row)`
/// crossed a ramp edge, returning the destination layer if so. `None` for
/// the layer count means the level is unknown.
pub fn detect_ramp_crossing(
    own: &Vec<RampInstance>,
    below: Option<&Vec<RampInstance>>,
    layer_count: Option<usize>,
    current_layer: usize,
    prev_col: i32,
    prev_row: i32,
    col: i32,
    row: i32,
) -> (layer: Option<usize>)
    requires
        ramps_fit_i32(own@),
        below matches Some(ramps) ==> ramps_fit_i32(ramps@),
        current_layer < usize::MAX,
        i32::MIN <= col - prev_col <= i32::MAX,
        i32::MIN <= row - prev_row <= i32::MAX,
    ensures
        match layer_count {
            None => layer is None,
            Some(count) => match spec_ramp_crossing(
                own@,
                match below {
                    Some(ramps) => Some(ramps@),
                    None => None,
                },
                count as int,
                current_layer as int,
                (prev_col as int, prev_row as int),
                (col as int, row as int),
            ) {
                Some(l) => layer == Some(l as usize),
                None => layer is None,
            },
        },
{
    let count = match layer_count {
        None => return None,
        Some(count) => count,
    };
    let dx = col - prev_col;
    let dy = row - prev_row;
    let based = find_ramp_based_at(own, prev_col as i64, prev_row as i64);
    let up = match based {
        Some(ramp) => {
            let (rdx, rdy) = ramp.facing.delta();
            rdx == dx && rdy == dy && current_layer + 1 < count
        },
        None => false,
    };
    proof {
        let delta = ((col - prev_col) as int, (row - prev_row) as int);
        assert(up == match ramp_based_at(own@, (prev_col as int, prev_row as int)) {
            Some(r) => r.facing.spec_delta() == delta && current_layer + 1 < count,
            None => false,
        });
    }
    if up {
        return Some(current_layer + 1);
    }
    if current_layer > 0 {
        if let Some(ramps) = below {
            if any_descending_ramp(ramps, prev_col, prev_row, dx, dy) {
                return Some(current_layer - 1);
            }
        }
    }
    None
}

/// Whether the movement rules let a step from `from` to `to` pass through
/// a ramp edge: up a ramp of this layer based in `from` and facing along
/// the step, or down a ramp of the layer below whose top is `from`,
/// facing against the step.
pub open spec fn spec_ramp_accessible(
    own: Seq<RampInstance>,
    below: Option<Seq<RampInstance>>,
    current_layer: int,
    from: (int, int),
    to: (int, int),
) -> bool {
    let delta = (to.0 - from.0, to.1 - from.1);
    let up = match ramp_based_at(own, from) {
        Some(ramp) => ramp.facing.spec_delta() == delta,
        None => false,
    };
    let down = current_layer > 0 && match below {
        Some(ramps) => descends_onto(ramps, from, delta),
        None => false,
    };
    up || down
}

/// The movement rules' ramp check for one step (see [`spec_ramp_accessible`]).
pub fn is_ramp_accessible(
    own: &Vec<RampInstance>,
    below: Option<&Vec<RampInstance>>,
    current_layer: usize,
    from_col: i32,
    from_row: i32,
    to_col: i32,
    to_row: i32,
) -> (accessible: bool)
    requires
        ramps_fit_i32(own@),
        below matches Some(ramps) ==> ramps_fit_i32(ramps@),
        i32::MIN <= to_col - from_col <= i32::MAX,
        i32::MIN <= to_row - from_row <= i32::MAX,
    ensures
        accessible == spec_ramp_accessible(
            own@,
            match below {
                Some(ramps) => Some(ramps@),
                None => None,
            },
            current_layer as int,
            (from_col as int, from_row as int),
            (to_col as int, to_row as int),
        ),
{
    let dx = to_col - from_col;
    let dy = to_row - from_row;
    let based = find_ramp_based_at(own, from_col as i64, from_row as i64);
    let up = match based {
        Some(ramp) => {
            let (rdx, rdy) = ramp.facing.delta();
            rdx == dx && rdy == dy
        },
        None => false,
    };
    if up {
        return true;
    }
    if current_layer > 0 {
        if let Some(ramps) = below {
            return any_descending_ramp(ramps, from_col, from_row, dx, dy);
        }
    }
    false
}

/// The movement rules and the crossing detection agree: wherever a layer
/// above exists, a step passes through a ramp edge exactly when it
/// carries the player onto another layer.
pub proof fn lemma_accessible_steps_cross(
    own: Seq<RampInstance>,
    below: Option<Seq<RampInstance>>,
    layer_count: int,
    current_layer: int,
    from: (int, int),
    to: (int, int),
)
    requires
        0 <= current_layer,
        current_layer + 1 < layer_count,
    ensures
        spec_ramp_accessible(own, below, current_layer, from, to) <==> spec_ramp_crossing(
            own,
            below,
            layer_count,
            current_layer,
            from,
            to,
        ) is Some,
{
}

/// Walking up a ramp takes the player one layer up; stepping straight
/// back down it returns them to the layer they came from, unless the
/// upper layer has a ramp of its own leaving that cell the same way.
pub proof fn lemma_ramp_round_trip(
    own: Seq<RampInstance>,
    below: Option<Seq<RampInstance>>,
    upper_own: Seq<RampInstance>,
    layer_count: int,
    layer: int,
    i: int,
)
    requires
        0 <= i < own.len(),
        0 <= layer,
        layer + 1 < layer_count,
        ramp_based_at(own, base_key(own[i])) == Some(own[i]),
        !(ramp_based_at(upper_own, landing_key(own[i])) matches Some(other) && other.facing.spec_delta() == (
            -own[i].facing.spec_delta().0,
            -own[i].facing.spec_delta().1,
        )),
    ensures
        spec_ramp_crossing(own, below, layer_count, layer, base_key(own[i]), landing_key(own[i])) == Some(layer + 1),
        spec_ramp_crossing(upper_own, Some(own), layer_count, layer + 1, landing_key(own[i]), base_key(own[i]))
            == Some(layer),
{
    let ramp = own[i];
    let back = (base_key(ramp).0 - landing_key(ramp).0, base_key(ramp).1 - landing_key(ramp).1);
    assert(descends_onto(own, landing_key(ramp), back));
}

} // verus!
