//! Environment zones of a level: which zone each cell of each layer
//! renders in, and the zone forest trees are drawn in. Zone numbers start
//! at one; zone `i` is the `i - 1`th entry of the level's zone list.

use vstd::prelude::*;

verus! {

#[derive(Clone, Copy, PartialEq, Eq, Structural, Debug, Hash)]
pub enum Environment {
    Dungeon,
    Outdoor,
    Mist,
}

/// The zone of one cell of a layer.
#[derive(Clone, Copy, PartialEq, Eq, Structural, Debug)]
pub struct ZoneCell {
    pub col: i64,
    pub row: i64,
    pub zone: usize,
}

/// Per-layer zone assignment for a level.
pub struct LevelZones {
    pub zones: Vec<Environment>,
    pub multi_zone: bool,
    /// For each layer, the zone of each of its zoned cells.
    pub by_layer: Vec<Vec<ZoneCell>>,
}

pub open spec fn cell_zone(cells: Seq<ZoneCell>, col: int, row: int) -> Option<usize>
    decreases cells.len(),
{
    if cells.len() == 0 {
        None
    } else {
        match cell_zone(cells.drop_last(), col, row) {
            Some(zone) => Some(zone),
            None => if cells.last().col == col && cells.last().row == row {
                Some(cells.last().zone)
            } else {
                None
            },
        }
    }
}

proof fn lemma_cell_zone_prefix(cells: Seq<ZoneCell>, k: int, col: int, row: int)
    requires
        0 <= k <= cells.len(),
        cell_zone(cells.take(k), col, row) is Some,
    ensures
        cell_zone(cells, col, row) == cell_zone(cells.take(k), col, row),
    decreases cells.len(),
{
    if k < cells.len() {
        assert(cells.drop_last().take(k) =~= cells.take(k));
        lemma_cell_zone_prefix(cells.drop_last(), k, col, row);
    } else {
        assert(cells.take(k) =~= cells);
    }
}

impl LevelZones {
    /// The zone of cell `(col, row)` of layer `layer_index`, if it has one.
    pub fn zone_at(&self, layer_index: usize, col: i64, row: i64) -> (zone: Option<usize>)
        ensures
            zone == if layer_index < self.by_layer@.len() {
                cell_zone(self.by_layer@[layer_index as int]@, col as int, row as int)
            } else {
                None
            },
    {
        if layer_index >= self.by_layer.len() {
            return None;
        }
        let cells = &self.by_layer[layer_index];
        let mut i: usize = 0;
        while i < cells.len()
            invariant
                i <= cells@.len(),
                layer_index < self.by_layer@.len(),
                cells@ == self.by_layer@[layer_index as int]@,
                cell_zone(cells@.take(i as int), col as int, row as int) is None,
            decreases cells.len() - i,
        {
            proof {
                assert(cells@.take(i + 1).drop_last() =~= cells@.take(i as int));
                assert(cells@.take(i + 1).last() == cells@[i as int]);
            }
            if cells[i].col == col && cells[i].row == row {
                proof {
                    lemma_cell_zone_prefix(cells@, i + 1, col as int, row as int);
                }
                return Some(cells[i].zone);
            }
            i = i + 1;
        }
        proof {
            assert(cells@.take(cells@.len() as int) =~= cells@);
        }
        None
    }
}

/// The zone forest trees render in: the zone of the level's default
/// environment, or zone 1 when that environment has no zone.
pub open spec fn spec_forest_zone_index(zones: Seq<Environment>, level_environment: Environment) -> int {
    if exists|i: int| 0 <= i < zones.len() && zones[i] == level_environment {
        (choose|i: int|
            0 <= i < zones.len() && zones[i] == level_environment && forall|j: int|
                0 <= j < i ==> zones[j] != level_environment) + 1
    } else {
        1
    }
}

pub fn forest_zone_index(zones: &Vec<Environment>, level_environment: Environment) -> (zone: usize)
    requires
        zones@.len() < usize::MAX,
    ensures
        zone == spec_forest_zone_index(zones@, level_environment),
{
    let mut i: usize = 0;
    while i < zones.len()
        invariant
            i <= zones@.len() < usize::MAX,
            forall|j: int| 0 <= j < i ==> zones@[j] != level_environment,
        decreases zones.len() - i,
    {
        if zones[i] == level_environment {
            proof {
                let first = choose|k: int|
                    0 <= k < zones@.len() && zones@[k] == level_environment && forall|j: int|
                        0 <= j < k ==> zones@[j] != level_environment;
                assert(0 <= i < zones@.len() && zones@[i as int] == level_environment && forall|j: int|
                    0 <= j < i ==> zones@[j] != level_environment);
                if first < i {
                } else if first > i {
                }
            }
            return i + 1;
        }
        i = i + 1;
    }
    1
}

} // verus!
