//! Ramp geometry decisions: which walls, ceilings and floor halves of the
//! ordinary cell geometry a ramp removes, and whether the cells beside a
//! ramp's top render as solid.
//!
//! A ramp connects a layer's floor, in its base cell, to the floor of the
//! layer above, in its landing cell one step along its facing. Cells are
//! keyed by `(col, row)`.

use vstd::prelude::*;
use crate::strings::chars_of;

verus! {

/// A grid direction. North is towards row 0, west towards column 0.
#[derive(Clone, Copy, PartialEq, Eq, Structural, Debug, Hash)]
pub enum Facing {
    N,
    E,
    S,
    W,
}

impl Facing {
    pub open spec fn spec_delta(self) -> (int, int) {
        match self {
            Facing::N => (0, -1),
            Facing::E => (1, 0),
            Facing::S => (0, 1),
            Facing::W => (-1, 0),
        }
    }

    /// The `(column, row)` step one cell this way.
    pub fn delta(self) -> (d: (i32, i32))
        ensures
            d.0 == self.spec_delta().0,
            d.1 == self.spec_delta().1,
    {
        match self {
            Facing::N => (0, -1),
            Facing::E => (1, 0),
            Facing::S => (0, 1),
            Facing::W => (-1, 0),
        }
    }
}

pub open spec fn spec_opposite(facing: Facing) -> Facing {
    match facing {
        Facing::N => Facing::S,
        Facing::S => Facing::N,
        Facing::E => Facing::W,
        Facing::W => Facing::E,
    }
}

pub fn opposite(facing: Facing) -> (back: Facing)
    ensures
        back == spec_opposite(facing),
{
    match facing {
        Facing::N => Facing::S,
        Facing::S => Facing::N,
        Facing::E => Facing::W,
        Facing::W => Facing::E,
    }
}

#[derive(Clone, Copy, PartialEq, Eq, Structural, Debug)]
pub enum RampStyle {
    /// A smooth sloped quad.
    Ramp,
    /// An eight-step staircase.
    Stairs,
}

/// A ramp placed on a layer: its base cell and the direction it climbs.
#[derive(Clone, Copy, PartialEq, Eq, Structural, Debug)]
pub struct RampInstance {
    pub col: i64,
    pub row: i64,
    pub facing: Facing,
    pub style: RampStyle,
}

/// Coordinates far enough from the `i64` limits that a landing and the
/// cells flanking it are representable.
pub open spec fn ramp_in_range(ramp: RampInstance) -> bool {
    i64::MIN + 2 <= ramp.col <= i64::MAX - 2 && i64::MIN + 2 <= ramp.row <= i64::MAX - 2
}

pub open spec fn all_in_range(ramps: Seq<RampInstance>) -> bool {
    forall|i: int| 0 <= i < ramps.len() ==> ramp_in_range(#[trigger] ramps[i])
}

pub open spec fn base_key(ramp: RampInstance) -> (int, int) {
    (ramp.col as int, ramp.row as int)
}

pub open spec fn landing_key(ramp: RampInstance) -> (int, int) {
    (ramp.col + ramp.facing.spec_delta().0, ramp.row + ramp.facing.spec_delta().1)
}

/// The cell a ramp lands in: one step along its facing from its base cell.
pub fn landing_cell(ramp: &RampInstance) -> (cell: (i64, i64))
    requires
        ramp_in_range(*ramp),
    ensures
        (cell.0 as int, cell.1 as int) == landing_key(*ramp),
{
    let (dcol, drow) = ramp.facing.delta();
    (ramp.col + dcol as i64, ramp.row + drow as i64)
}

/// The two cells flanking a ramp's landing, each with the wall face it
/// turns toward the landing: a climb running north or south is flanked
/// east and west, one running east or west north and south.
pub open spec fn flanks(ramp: RampInstance) -> Seq<((int, int), Facing)> {
    let (lc, lr) = landing_key(ramp);
    if ramp.facing == Facing::N || ramp.facing == Facing::S {
        seq![((lc + 1, lr), Facing::W), ((lc - 1, lr), Facing::E)]
    } else {
        seq![((lc, lr + 1), Facing::N), ((lc, lr - 1), Facing::S)]
    }
}

/// Whether `ramp` makes `face` of cell `key` a flank wall.
pub open spec fn flanks_at(ramp: RampInstance, key: (int, int), face: Facing) -> bool {
    flanks(ramp)[0] == (key, face) || flanks(ramp)[1] == (key, face)
}

/// Whether a ramp of this layer reaches the cell `key` at all.
pub open spec fn own_touches(ramp: RampInstance, key: (int, int)) -> bool {
    base_key(ramp) == key || landing_key(ramp) == key || flanks(ramp)[0].0 == key || flanks(ramp)[1].0
        == key
}

/// Whether any ramp, of this layer or landing on it from below, reaches
/// the cell `key`.
pub open spec fn touched(own: Seq<RampInstance>, below: Seq<RampInstance>, key: (int, int)) -> bool {
    (exists|i: int| 0 <= i < own.len() && own_touches(#[trigger] own[i], key)) || (exists|i: int|
        0 <= i < below.len() && landing_key(#[trigger] below[i]) == key)
}

/// The wall faces this layer's ramps take out of cell `key`, in the order
/// the ramps are listed: a base cell loses the wall its ramp climbs out
/// of, a landing the wall facing back down the climb.
pub open spec fn own_events(own: Seq<RampInstance>, key: (int, int)) -> Seq<Facing>
    decreases own.len(),
{
    if own.len() == 0 {
        Seq::empty()
    } else {
        let ramp = own.last();
        let earlier = own_events(own.drop_last(), key);
        let with_base = if base_key(ramp) == key { earlier.push(ramp.facing) } else { earlier };
        if landing_key(ramp) == key { with_base.push(spec_opposite(ramp.facing)) } else { with_base }
    }
}

/// The wall faces ramps from the layer below take out of their landing
/// cells on this layer.
pub open spec fn below_events(below: Seq<RampInstance>, key: (int, int)) -> Seq<Facing>
    decreases below.len(),
{
    if below.len() == 0 {
        Seq::empty()
    } else {
        let ramp = below.last();
        let earlier = below_events(below.drop_last(), key);
        if landing_key(ramp) == key { earlier.push(spec_opposite(ramp.facing)) } else { earlier }
    }
}

/// `faces` with every repetition after the first occurrence left out.
pub open spec fn dedup(faces: Seq<Facing>) -> Seq<Facing>
    decreases faces.len(),
{
    if faces.len() == 0 {
        Seq::empty()
    } else {
        let earlier = dedup(faces.drop_last());
        if earlier.contains(faces.last()) { earlier } else { earlier.push(faces.last()) }
    }
}

/// The facing of the first ramp in `ramps` that lands in `key`.
pub open spec fn first_landing(ramps: Seq<RampInstance>, key: (int, int)) -> Option<Facing>
    decreases ramps.len(),
{
    if ramps.len() == 0 {
        None
    } else {
        match first_landing(ramps.drop_last(), key) {
            Some(facing) => Some(facing),
            None => if landing_key(ramps.last()) == key { Some(ramps.last().facing) } else { None },
        }
    }
}

/// The facing of the last ramp in `own` that makes `face` of `key` a flank
/// wall.
pub open spec fn last_flank(own: Seq<RampInstance>, key: (int, int), face: Facing) -> Option<Facing>
    decreases own.len(),
{
    if own.len() == 0 {
        None
    } else if flanks_at(own.last(), key, face) {
        Some(own.last().facing)
    } else {
        last_flank(own.drop_last(), key, face)
    }
}

/// Whether some ramp of this layer starts in `key`.
pub open spec fn is_base(own: Seq<RampInstance>, key: (int, int)) -> bool {
    exists|i: int| 0 <= i < own.len() && base_key(#[trigger] own[i]) == key
}

pub open spec fn suppressed_at(own: Seq<RampInstance>, below: Seq<RampInstance>, key: (int, int)) -> Seq<
    Facing,
> {
    dedup(own_events(own, key) + below_events(below, key))
}

// ---------------------------------------------------------------------------
// Lemmas about the event sequences
// ---------------------------------------------------------------------------

/// A face survives deduplication exactly when it occurs at all.
pub proof fn lemma_dedup_contains(faces: Seq<Facing>, face: Facing)
    ensures
        dedup(faces).contains(face) <==> faces.contains(face),
    decreases faces.len(),
{
    if faces.len() > 0 {
        let init = faces.drop_last();
        lemma_dedup_contains(init, face);
        lemma_dedup_contains(init, faces.last());
        assert(faces =~= init.push(faces.last()));
        broadcast use vstd::seq_lib::group_seq_properties;

    }
}

/// No face occurs twice after deduplication.
pub proof fn lemma_dedup_no_duplicates(faces: Seq<Facing>)
    ensures
        dedup(faces).no_duplicates(),
    decreases faces.len(),
{
    if faces.len() > 0 {
        lemma_dedup_no_duplicates(faces.drop_last());
    }
}

proof fn lemma_dedup_push(faces: Seq<Facing>, face: Facing)
    ensures
        dedup(faces.push(face)) == if dedup(faces).contains(face) {
            dedup(faces)
        } else {
            dedup(faces).push(face)
        },
{
    assert(faces.push(face).drop_last() =~= faces);
}

proof fn lemma_first_landing_prefix(ramps: Seq<RampInstance>, k: nat, key: (int, int))
    requires
        k <= ramps.len(),
        first_landing(ramps.take(k as int), key) is Some,
    ensures
        first_landing(ramps, key) == first_landing(ramps.take(k as int), key),
    decreases ramps.len(),
{
    if k < ramps.len() {
        assert(ramps.drop_last().take(k as int) =~= ramps.take(k as int));
        lemma_first_landing_prefix(ramps.drop_last(), k, key);
    } else {
        assert(ramps.take(k as int) =~= ramps);
    }
}

// ---------------------------------------------------------------------------
// Per-cell records
// ---------------------------------------------------------------------------

/// Whether `face`'s wall runs along `keep`: north and south walls run
/// east-west, east and west walls north-south.
pub open spec fn runs_along(face: Facing, keep: Facing) -> bool {
    match face {
        Facing::N | Facing::S => keep == Facing::E || keep == Facing::W,
        Facing::E | Facing::W => keep == Facing::N || keep == Facing::S,
    }
}

/// The half kept for `face` by the override entries, the last entry for
/// that face winning.
pub open spec fn override_lookup(entries: Seq<(Facing, Facing)>, face: Facing) -> Option<Facing>
    decreases entries.len(),
{
    if entries.len() == 0 {
        None
    } else if entries.last().0 == face {
        Some(entries.last().1)
    } else {
        override_lookup(entries.drop_last(), face)
    }
}

/// How one cell's floor, ceiling and walls deviate from ordinary geometry
/// because a ramp reaches it.
pub struct RampCellInfo {
    /// Wall faces this cell does not build at all.
    pub suppressed_walls: Vec<Facing>,
    pub skip_ceiling: bool,
    /// The floor builds only the half lying this way.
    pub keep_floor_half: Option<Facing>,
    /// The two wall faces running along this direction build only the half
    /// lying this way.
    pub keep_wall_half: Option<Facing>,
    /// Per-face override of `keep_wall_half`, as `(face, half kept)`
    /// entries, applied ahead of it and without its direction rule.
    pub wall_half_overrides: Vec<(Facing, Facing)>,
}

impl Default for RampCellInfo {
    fn default() -> (info: Self)
        ensures
            info.suppressed_walls@ == Seq::<Facing>::empty(),
            !info.skip_ceiling,
            info.keep_floor_half is None,
            info.keep_wall_half is None,
            info.wall_half_overrides@ == Seq::<(Facing, Facing)>::empty(),
    {
        RampCellInfo {
            suppressed_walls: Vec::new(),
            skip_ceiling: false,
            keep_floor_half: None,
            keep_wall_half: None,
            wall_half_overrides: Vec::new(),
        }
    }
}

pub open spec fn spec_wall_half(info: RampCellInfo, face: Facing) -> Option<Facing> {
    match override_lookup(info.wall_half_overrides@, face) {
        Some(keep) => Some(keep),
        None => match info.keep_wall_half {
            Some(keep) => if runs_along(face, keep) { Some(keep) } else { None },
            None => None,
        },
    }
}

impl RampCellInfo {
    /// Which half of `face`'s wall survives, when the wall is halved at
    /// all: a per-face override first, then the cell-wide keep for the two
    /// faces running along it.
    pub fn wall_half(&self, face: Facing) -> (half: Option<Facing>)
        ensures
            half == spec_wall_half(*self, face),
    {
        let n = self.wall_half_overrides.len();
        let mut i = n;
        proof {
            assert(self.wall_half_overrides@.take(n as int) =~= self.wall_half_overrides@);
        }
        while i > 0
            invariant
                i <= n == self.wall_half_overrides@.len(),
                override_lookup(self.wall_half_overrides@, face) == override_lookup(
                    self.wall_half_overrides@.take(i as int),
                    face,
                ),
            decreases i,
        {
            let entry = self.wall_half_overrides[i - 1];
            proof {
                assert(self.wall_half_overrides@.take(i as int).drop_last() =~= self.wall_half_overrides@.take(
                    i - 1,
                ));
            }
            if entry.0 == face {
                return Some(entry.1);
            }
            i = i - 1;
        }
        match self.keep_wall_half {
            Some(keep) => {
                let along = match face {
                    Facing::N | Facing::S => keep == Facing::E || keep == Facing::W,
                    Facing::E | Facing::W => keep == Facing::N || keep == Facing::S,
                };
                if along {
                    Some(keep)
                } else {
                    None
                }
            },
            None => None,
        }
    }
}

// ---------------------------------------------------------------------------
// Building the per-cell records
// ---------------------------------------------------------------------------

/// What the ramps of a layer, and those landing on it from the layer
/// below, make of cell `key`.
pub open spec fn cell_matches(
    info: RampCellInfo,
    own: Seq<RampInstance>,
    below: Seq<RampInstance>,
    key: (int, int),
) -> bool {
    &&& info.suppressed_walls@ == suppressed_at(own, below, key)
    &&& info.skip_ceiling == is_base(own, key)
    &&& info.keep_wall_half == first_landing(own, key)
    &&& info.keep_floor_half == first_landing(below, key)
    &&& forall|face: Facing| override_lookup(info.wall_half_overrides@, face) == last_flank(own, key, face)
}

fn lands_at(ramp: &RampInstance, col: i64, row: i64) -> (hit: bool)
    requires
        ramp_in_range(*ramp),
    ensures
        hit == (landing_key(*ramp) == (col as int, row as int)),
{
    let (lc, lr) = landing_cell(ramp);
    lc == col && lr == row
}

fn flank_hit(ramp: &RampInstance, col: i64, row: i64, face: Facing) -> (hit: bool)
    requires
        ramp_in_range(*ramp),
    ensures
        hit == flanks_at(*ramp, (col as int, row as int), face),
{
    let (lc, lr) = landing_cell(ramp);
    if ramp.facing == Facing::N || ramp.facing == Facing::S {
        (col == lc + 1 && row == lr && face == Facing::W) || (col == lc - 1 && row == lr && face
            == Facing::E)
    } else {
        (col == lc && row == lr + 1 && face == Facing::N) || (col == lc && row == lr - 1 && face
            == Facing::S)
    }
}

fn push_absent(faces: &mut Vec<Facing>, face: Facing)
    ensures
        final(faces)@ == if old(faces)@.contains(face) {
            old(faces)@
        } else {
            old(faces)@.push(face)
        },
{
    let mut i: usize = 0;
    while i < faces.len()
        invariant
            i <= faces@.len(),
            faces@ == old(faces)@,
            forall|j: int| 0 <= j < i ==> faces@[j] != face,
        decreases faces.len() - i,
    {
        if faces[i] == face {
            return;
        }
        i = i + 1;
    }
    faces.push(face);
}

fn suppressed_walls_at(own: &Vec<RampInstance>, below: &Vec<RampInstance>, col: i64, row: i64) -> (faces:
    Vec<Facing>)
    requires
        all_in_range(own@),
        all_in_range(below@),
    ensures
        faces@ == suppressed_at(own@, below@, (col as int, row as int)),
{
    let ghost key = (col as int, row as int);
    let mut faces: Vec<Facing> = Vec::new();
    let mut i: usize = 0;
    while i < own.len()
        invariant
            i <= own@.len(),
            all_in_range(own@),
            key == (col as int, row as int),
            faces@ == dedup(own_events(own@.take(i as int), key)),
        decreases own.len() - i,
    {
        let ramp = own[i];
        let ghost before = own_events(own@.take(i as int), key);
        proof {
            assert(own@.take(i + 1).drop_last() =~= own@.take(i as int));
            assert(own@.take(i + 1).last() == ramp);
        }
        let ghost mut events = before;
        if ramp.col == col && ramp.row == row {
            proof {
                lemma_dedup_push(events, ramp.facing);
                events = events.push(ramp.facing);
            }
            push_absent(&mut faces, ramp.facing);
        }
        if lands_at(&ramp, col, row) {
            let back = opposite(ramp.facing);
            proof {
                lemma_dedup_push(events, back);
                events = events.push(back);
            }
            push_absent(&mut faces, back);
        }
        proof {
            assert(events == own_events(own@.take(i + 1), key));
        }
        i = i + 1;
    }
    proof {
        assert(own@.take(own@.len() as int) =~= own@);
        assert(own_events(own@, key) + below_events(below@.take(0), key) =~= own_events(own@, key));
    }
    let mut i: usize = 0;
    while i < below.len()
        invariant
            i <= below@.len(),
            all_in_range(below@),
            key == (col as int, row as int),
            faces@ == dedup(own_events(own@, key) + below_events(below@.take(i as int), key)),
        decreases below.len() - i,
    {
        let ramp = below[i];
        proof {
            assert(below@.take(i + 1).drop_last() =~= below@.take(i as int));
            assert(below@.take(i + 1).last() == ramp);
        }
        if lands_at(&ramp, col, row) {
            let back = opposite(ramp.facing);
            proof {
                let events = own_events(own@, key) + below_events(below@.take(i as int), key);
                lemma_dedup_push(events, back);
                assert(events.push(back) =~= own_events(own@, key) + below_events(below@.take(i + 1), key));
            }
            push_absent(&mut faces, back);
        } else {
            proof {
                assert(below_events(below@.take(i + 1), key) == below_events(below@.take(i as int), key));
            }
        }
        i = i + 1;
    }
    proof {
        assert(below@.take(below@.len() as int) =~= below@);
    }
    faces
}

fn first_landing_at(ramps: &Vec<RampInstance>, col: i64, row: i64) -> (facing: Option<Facing>)
    requires
        all_in_range(ramps@),
    ensures
        facing == first_landing(ramps@, (col as int, row as int)),
{
    let ghost key = (col as int, row as int);
    let mut i: usize = 0;
    while i < ramps.len()
        invariant
            i <= ramps@.len(),
            all_in_range(ramps@),
            key == (col as int, row as int),
            first_landing(ramps@.take(i as int), key) is None,
        decreases ramps.len() - i,
    {
        let ramp = ramps[i];
        proof {
            assert(ramps@.take(i + 1).drop_last() =~= ramps@.take(i as int));
            assert(ramps@.take(i + 1).last() == ramp);
        }
        if lands_at(&ramp, col, row) {
            proof {
                lemma_first_landing_prefix(ramps@, (i + 1) as nat, key);
            }
            return Some(ramp.facing);
        }
        i = i + 1;
    }
    proof {
        assert(ramps@.take(ramps@.len() as int) =~= ramps@);
    }
    None
}

fn last_flank_at(own: &Vec<RampInstance>, col: i64, row: i64, face: Facing) -> (facing: Option<Facing>)
    requires
        all_in_range(own@),
    ensures
        facing == last_flank(own@, (col as int, row as int), face),
{
    let ghost key = (col as int, row as int);
    let mut found: Option<Facing> = None;
    let mut i: usize = 0;
    while i < own.len()
        invariant
            i <= own@.len(),
            all_in_range(own@),
            key == (col as int, row as int),
            found == last_flank(own@.take(i as int), key, face),
        decreases own.len() - i,
    {
        let ramp = own[i];
        proof {
            assert(own@.take(i + 1).drop_last() =~= own@.take(i as int));
            assert(own@.take(i + 1).last() == ramp);
        }
        if flank_hit(&ramp, col, row, face) {
            found = Some(ramp.facing);
        }
        i = i + 1;
    }
    proof {
        assert(own@.take(own@.len() as int) =~= own@);
    }
    found
}

fn is_base_at(own: &Vec<RampInstance>, col: i64, row: i64) -> (base: bool)
    ensures
        base == is_base(own@, (col as int, row as int)),
{
    let mut i: usize = 0;
    while i < own.len()
        invariant
            i <= own@.len(),
            forall|j: int| 0 <= j < i ==> base_key(#[trigger] own@[j]) != (col as int, row as int),
        decreases own.len() - i,
    {
        if own[i].col == col && own[i].row == row {
            proof {
                assert(base_key(own@[i as int]) == (col as int, row as int));
            }
            return true;
        }
        i = i + 1;
    }
    false
}

fn add_override(entries: &mut Vec<(Facing, Facing)>, own: &Vec<RampInstance>, col: i64, row: i64, face: Facing)
    requires
        all_in_range(own@),
        override_lookup(old(entries)@, face) is None,
    ensures
        override_lookup(final(entries)@, face) == last_flank(own@, (col as int, row as int), face),
        forall|other: Facing|
            other != face ==> override_lookup(final(entries)@, other) == override_lookup(
                old(entries)@,
                other,
            ),
{
    if let Some(keep) = last_flank_at(own, col, row, face) {
        let ghost before = entries@;
        entries.push((face, keep));
        proof {
            assert(entries@.drop_last() =~= before);
        }
    }
}

/// The record of cell `(col, row)`.
fn cell_info(own: &Vec<RampInstance>, below: &Vec<RampInstance>, col: i64, row: i64) -> (info: RampCellInfo)
    requires
        all_in_range(own@),
        all_in_range(below@),
    ensures
        cell_matches(info, own@, below@, (col as int, row as int)),
{
    let mut overrides: Vec<(Facing, Facing)> = Vec::new();
    add_override(&mut overrides, own, col, row, Facing::N);
    add_override(&mut overrides, own, col, row, Facing::E);
    add_override(&mut overrides, own, col, row, Facing::S);
    add_override(&mut overrides, own, col, row, Facing::W);
    let info = RampCellInfo {
        suppressed_walls: suppressed_walls_at(own, below, col, row),
        skip_ceiling: is_base_at(own, col, row),
        keep_floor_half: first_landing_at(below, col, row),
        keep_wall_half: first_landing_at(own, col, row),
        wall_half_overrides: overrides,
    };
    proof {
        assert forall|face: Facing| override_lookup(info.wall_half_overrides@, face) == last_flank(
            own@,
            (col as int, row as int),
            face,
        ) by {
            match face {
                Facing::N => {},
                Facing::E => {},
                Facing::S => {},
                Facing::W => {},
            }
        }
    }
    info
}

/// A cell's record together with the cell it belongs to.
pub struct RampCell {
    pub col: i64,
    pub row: i64,
    pub info: RampCellInfo,
}

pub open spec fn cell_key(cell: RampCell) -> (int, int) {
    (cell.col as int, cell.row as int)
}

/// The records of every cell some ramp reaches, one per cell.
pub struct RampInfo {
    pub cells: Vec<RampCell>,
}

impl RampInfo {
    pub open spec fn wf(&self) -> bool {
        forall|i: int, j: int|
            0 <= i < j < self.cells@.len() ==> cell_key(self.cells@[i]) != cell_key(self.cells@[j])
    }

    pub open spec fn has(&self, key: (int, int)) -> bool {
        exists|i: int| 0 <= i < self.cells@.len() && cell_key(#[trigger] self.cells@[i]) == key
    }

    /// The record of cell `(col, row)`, if some ramp reaches it.
    pub fn get(&self, col: i64, row: i64) -> (found: Option<&RampCellInfo>)
        ensures
            match found {
                Some(info) => exists|i: int|
                    0 <= i < self.cells@.len() && cell_key(#[trigger] self.cells@[i]) == (col as int, row as int)
                        && self.cells@[i].info == *info,
                None => !self.has((col as int, row as int)),
            },
    {
        let mut i: usize = 0;
        while i < self.cells.len()
            invariant
                i <= self.cells@.len(),
                forall|j: int| 0 <= j < i ==> cell_key(#[trigger] self.cells@[j]) != (col as int, row as int),
            decreases self.cells.len() - i,
        {
            if self.cells[i].col == col && self.cells[i].row == row {
                return Some(&self.cells[i].info);
            }
            i = i + 1;
        }
        None
    }

    pub fn contains(&self, col: i64, row: i64) -> (found: bool)
        ensures
            found == self.has((col as int, row as int)),
    {
        self.get(col, row).is_some()
    }

    pub fn len(&self) -> (n: usize)
        ensures
            n == self.cells@.len(),
    {
        self.cells.len()
    }

    pub fn is_empty(&self) -> (empty: bool)
        ensures
            empty == (self.cells@.len() == 0),
    {
        self.cells.len() == 0
    }
}

pub open spec fn pair_key(key: (i64, i64)) -> (int, int) {
    (key.0 as int, key.1 as int)
}

pub open spec fn key_list(keys: Seq<(i64, i64)>) -> Seq<(int, int)> {
    keys.map_values(|key: (i64, i64)| pair_key(key))
}

fn add_key(keys: &mut Vec<(i64, i64)>, key: (i64, i64))
    ensures
        key_list(final(keys)@) == if key_list(old(keys)@).contains(pair_key(key)) {
            key_list(old(keys)@)
        } else {
            key_list(old(keys)@).push(pair_key(key))
        },
{
    let mut i: usize = 0;
    while i < keys.len()
        invariant
            i <= keys@.len(),
            keys@ == old(keys)@,
            forall|j: int| 0 <= j < i ==> key_list(keys@)[j] != pair_key(key),
        decreases keys.len() - i,
    {
        if keys[i].0 == key.0 && keys[i].1 == key.1 {
            proof {
                assert(key_list(keys@)[i as int] == pair_key(key));
            }
            return;
        }
        i = i + 1;
    }
    let ghost before = keys@;
    keys.push(key);
    proof {
        assert(key_list(keys@) =~= key_list(before).push(pair_key(key)));
    }
}

fn flank_cells(ramp: &RampInstance) -> (cells: ((i64, i64), (i64, i64)))
    requires
        ramp_in_range(*ramp),
    ensures
        pair_key(cells.0) == flanks(*ramp)[0].0,
        pair_key(cells.1) == flanks(*ramp)[1].0,
{
    let (lc, lr) = landing_cell(ramp);
    if ramp.facing == Facing::N || ramp.facing == Facing::S {
        ((lc + 1, lr), (lc - 1, lr))
    } else {
        ((lc, lr + 1), (lc, lr - 1))
    }
}

/// Every cell some ramp reaches, each once.
fn touched_cells(own: &Vec<RampInstance>, below: &Vec<RampInstance>) -> (keys: Vec<(i64, i64)>)
    requires
        all_in_range(own@),
        all_in_range(below@),
    ensures
        key_list(keys@).no_duplicates(),
        forall|key: (int, int)| key_list(keys@).contains(key) <==> touched(own@, below@, key),
{
    let mut keys: Vec<(i64, i64)> = Vec::new();
    let mut i: usize = 0;
    proof {
        assert(key_list(keys@) =~= Seq::<(int, int)>::empty());
    }
    while i < own.len()
        invariant
            i <= own@.len(),
            all_in_range(own@),
            key_list(keys@).no_duplicates(),
            forall|key: (int, int)|
                key_list(keys@).contains(key) <==> exists|j: int|
                    0 <= j < i && own_touches(#[trigger] own@[j], key),
        decreases own.len() - i,
    {
        let ramp = own[i];
        let ghost before = key_list(keys@);
        add_key(&mut keys, (ramp.col, ramp.row));
        add_key(&mut keys, landing_cell(&ramp));
        let (left, right) = flank_cells(&ramp);
        add_key(&mut keys, left);
        add_key(&mut keys, right);
        proof {
            broadcast use vstd::seq_lib::group_seq_properties;

            assert forall|key: (int, int)|
                key_list(keys@).contains(key) <==> exists|j: int|
                    0 <= j < i + 1 && own_touches(#[trigger] own@[j], key) by {
                if own_touches(ramp, key) {
                    assert(own@[i as int] == ramp);
                }
                if exists|j: int| 0 <= j < i + 1 && own_touches(#[trigger] own@[j], key) {
                    let j = choose|j: int| 0 <= j < i + 1 && own_touches(#[trigger] own@[j], key);
                    if j < i {
                        assert(before.contains(key));
                    }
                }
            }
        }
        i = i + 1;
    }
    let mut i: usize = 0;
    while i < below.len()
        invariant
            i <= below@.len(),
            all_in_range(own@),
            all_in_range(below@),
            key_list(keys@).no_duplicates(),
            forall|key: (int, int)|
                key_list(keys@).contains(key) <==> (exists|j: int|
                    0 <= j < own@.len() && own_touches(#[trigger] own@[j], key)) || (exists|j: int|
                    0 <= j < i && landing_key(#[trigger] below@[j]) == key),
        decreases below.len() - i,
    {
        let ramp = below[i];
        let ghost before = key_list(keys@);
        add_key(&mut keys, landing_cell(&ramp));
        proof {
            broadcast use vstd::seq_lib::group_seq_properties;

            assert forall|key: (int, int)|
                key_list(keys@).contains(key) <==> (exists|j: int|
                    0 <= j < own@.len() && own_touches(#[trigger] own@[j], key)) || (exists|j: int|
                    0 <= j < i + 1 && landing_key(#[trigger] below@[j]) == key) by {
                if landing_key(ramp) == key {
                    assert(below@[i as int] == ramp);
                }
                if exists|j: int| 0 <= j < i + 1 && landing_key(#[trigger] below@[j]) == key {
                    let j = choose|j: int| 0 <= j < i + 1 && landing_key(#[trigger] below@[j]) == key;
                    if j < i {
                        assert(before.contains(key));
                    }
                }
            }
        }
        i = i + 1;
    }
    keys
}

/// Everything one layer's ordinary cell geometry owes to ramps: the
/// records of every cell reached by a ramp of `ramps_on_layer`, or landed
/// in by a ramp of `ramps_on_layer_below` (the layer's floor level is the
/// top of those ramps).
///
/// A base cell loses its ceiling and the wall its ramp climbs out of. A
/// landing loses the wall facing back down the climb; on the ramp's own
/// layer its two side walls keep only the half past the climb (first ramp
/// wins), and from the layer below its floor keeps only the half ahead of
/// the ramp (first ramp wins). The two cells flanking a landing halve the
/// wall they turn toward it (last ramp wins).
pub fn build_ramp_info(ramps_on_layer: &Vec<RampInstance>, ramps_on_layer_below: &Vec<RampInstance>) -> (info:
    RampInfo)
    requires
        all_in_range(ramps_on_layer@),
        all_in_range(ramps_on_layer_below@),
    ensures
        info.wf(),
        forall|key: (int, int)| info.has(key) <==> touched(ramps_on_layer@, ramps_on_layer_below@, key),
        forall|i: int|
            0 <= i < info.cells@.len() ==> cell_matches(
                #[trigger] info.cells@[i].info,
                ramps_on_layer@,
                ramps_on_layer_below@,
                cell_key(info.cells@[i]),
            ),
{
    let keys = touched_cells(ramps_on_layer, ramps_on_layer_below);
    let mut cells: Vec<RampCell> = Vec::new();
    let mut i: usize = 0;
    while i < keys.len()
        invariant
            i <= keys@.len(),
            cells@.len() == i,
            all_in_range(ramps_on_layer@),
            all_in_range(ramps_on_layer_below@),
            forall|j: int| 0 <= j < i ==> cell_key(#[trigger] cells@[j]) == key_list(keys@)[j],
            forall|j: int|
                0 <= j < i ==> cell_matches(
                    #[trigger] cells@[j].info,
                    ramps_on_layer@,
                    ramps_on_layer_below@,
                    cell_key(cells@[j]),
                ),
        decreases keys.len() - i,
    {
        let (col, row) = keys[i];
        let record = cell_info(ramps_on_layer, ramps_on_layer_below, col, row);
        cells.push(RampCell { col, row, info: record });
        i = i + 1;
    }
    let info = RampInfo { cells };
    proof {
        assert forall|key: (int, int)| info.has(key) <==> touched(
            ramps_on_layer@,
            ramps_on_layer_below@,
            key,
        ) by {
            if info.has(key) {
                let i = choose|i: int| 0 <= i < info.cells@.len() && cell_key(#[trigger] info.cells@[i]) == key;
                assert(key_list(keys@)[i] == key);
            }
            if key_list(keys@).contains(key) {
                let i = choose|i: int| 0 <= i < key_list(keys@).len() && key_list(keys@)[i] == key;
                assert(cell_key(info.cells@[i]) == key);
            }
        }
    }
    info
}

// ---------------------------------------------------------------------------
// Side walls at a ramp's top
// ---------------------------------------------------------------------------

pub open spec fn spec_side_offsets(facing: Facing) -> ((int, int), (int, int)) {
    match facing {
        Facing::N => ((-1, 0), (1, 0)),
        Facing::S => ((1, 0), (-1, 0)),
        Facing::E => ((0, -1), (0, 1)),
        Facing::W => ((0, 1), (0, -1)),
    }
}

/// `(left, right)` offsets from a ramp's top cell to the cells beside it,
/// left and right as seen climbing the ramp.
pub fn top_cell_side_offsets(facing: Facing) -> (offsets: ((i32, i32), (i32, i32)))
    ensures
        offsets.0.0 == spec_side_offsets(facing).0.0,
        offsets.0.1 == spec_side_offsets(facing).0.1,
        offsets.1.0 == spec_side_offsets(facing).1.0,
        offsets.1.1 == spec_side_offsets(facing).1.1,
{
    match facing {
        Facing::N => ((-1, 0), (1, 0)),
        Facing::S => ((1, 0), (-1, 0)),
        Facing::E => ((0, -1), (0, 1)),
        Facing::W => ((0, 1), (0, -1)),
    }
}

/// Whether `(col, row)` renders as solid beside a ramp's top: outside the
/// grid (either axis) it does; another ramp's top cell never does; any
/// other cell does unless its character is walkable.
pub open spec fn spec_is_wall_at(
    grid: Seq<Seq<char>>,
    walkable: Seq<char>,
    col: int,
    row: int,
    ramp_top_cells: Seq<(int, int)>,
) -> bool {
    if row < 0 || row >= grid.len() || col < 0 || col >= grid[row].len() {
        true
    } else if ramp_top_cells.contains((col, row)) {
        false
    } else {
        !walkable.contains(grid[row][col])
    }
}

pub open spec fn grid_rows(grid: Seq<String>) -> Seq<Seq<char>> {
    grid.map_values(|line: String| line@)
}

pub open spec fn cell_list(cells: Seq<(i32, i32)>) -> Seq<(int, int)> {
    cells.map_values(|cell: (i32, i32)| (cell.0 as int, cell.1 as int))
}

pub fn is_wall_at(
    grid: &Vec<String>,
    walkable: &Vec<char>,
    col: i32,
    row: i32,
    ramp_top_cells: &Vec<(i32, i32)>,
) -> (wall: bool)
    ensures
        wall == spec_is_wall_at(grid_rows(grid@), walkable@, col as int, row as int, cell_list(ramp_top_cells@)),
{
    if row < 0 || row as usize >= grid.len() {
        return true;
    }
    let line = grid[row as usize].as_str();
    if col < 0 || col as usize >= line.unicode_len() {
        return true;
    }
    let character = line.get_char(col as usize);
    proof {
        assert(grid_rows(grid@)[row as int] == line@);
        assert(grid_rows(grid@)[row as int][col as int] == character);
    }
    let mut i: usize = 0;
    while i < ramp_top_cells.len()
        invariant
            i <= ramp_top_cells@.len(),
            0 <= row < grid_rows(grid@).len(),
            0 <= col < grid_rows(grid@)[row as int].len(),
            forall|j: int| 0 <= j < i ==> cell_list(ramp_top_cells@)[j] != (col as int, row as int),
        decreases ramp_top_cells.len() - i,
    {
        if ramp_top_cells[i].0 == col && ramp_top_cells[i].1 == row {
            proof {
                assert(cell_list(ramp_top_cells@)[i as int] == (col as int, row as int));
            }
            return false;
        }
        i = i + 1;
    }
    let mut i: usize = 0;
    while i < walkable.len()
        invariant
            i <= walkable@.len(),
            0 <= row < grid_rows(grid@).len(),
            0 <= col < grid_rows(grid@)[row as int].len(),
            grid_rows(grid@)[row as int][col as int] == character,
            !cell_list(ramp_top_cells@).contains((col as int, row as int)),
            forall|j: int| 0 <= j < i ==> walkable@[j] != character,
        decreases walkable.len() - i,
    {
        if walkable[i] == character {
            proof {
                assert(walkable@[i as int] == character);
            }
            return false;
        }
        i = i + 1;
    }
    true
}

/// Every ramp's top cell on a layer, in ramp order.
pub fn ramp_top_cells(ramps: &Vec<RampInstance>) -> (cells: Vec<(i64, i64)>)
    requires
        all_in_range(ramps@),
    ensures
        cells@.len() == ramps@.len(),
        forall|i: int| 0 <= i < ramps@.len() ==> pair_key(#[trigger] cells@[i]) == landing_key(ramps@[i]),
{
    let mut cells: Vec<(i64, i64)> = Vec::new();
    let mut i: usize = 0;
    while i < ramps.len()
        invariant
            i <= ramps@.len(),
            cells@.len() == i,
            all_in_range(ramps@),
            forall|j: int| 0 <= j < i ==> pair_key(#[trigger] cells@[j]) == landing_key(ramps@[j]),
        decreases ramps.len() - i,
    {
        cells.push(landing_cell(&ramps[i]));
        i = i + 1;
    }
    cells
}

// ---------------------------------------------------------------------------
// Laws
// ---------------------------------------------------------------------------

proof fn lemma_own_events_contain(own: Seq<RampInstance>, i: int, key: (int, int))
    requires
        0 <= i < own.len(),
    ensures
        base_key(own[i]) == key ==> own_events(own, key).contains(own[i].facing),
        landing_key(own[i]) == key ==> own_events(own, key).contains(spec_opposite(own[i].facing)),
    decreases own.len(),
{
    broadcast use vstd::seq_lib::group_seq_properties;

    if i < own.len() - 1 {
        lemma_own_events_contain(own.drop_last(), i, key);
        assert(own.drop_last()[i] == own[i]);
    }
}

proof fn lemma_below_events_contain(below: Seq<RampInstance>, i: int, key: (int, int))
    requires
        0 <= i < below.len(),
        landing_key(below[i]) == key,
    ensures
        below_events(below, key).contains(spec_opposite(below[i].facing)),
    decreases below.len(),
{
    broadcast use vstd::seq_lib::group_seq_properties;

    if i < below.len() - 1 {
        lemma_below_events_contain(below.drop_last(), i, key);
        assert(below.drop_last()[i] == below[i]);
    }
}

proof fn lemma_first_landing_found(ramps: Seq<RampInstance>, i: int, key: (int, int))
    requires
        0 <= i < ramps.len(),
        landing_key(ramps[i]) == key,
    ensures
        first_landing(ramps, key) is Some,
    decreases ramps.len(),
{
    if i < ramps.len() - 1 {
        lemma_first_landing_found(ramps.drop_last(), i, key);
        assert(ramps.drop_last()[i] == ramps[i]);
    }
}

/// The roles a ramp gives the cells it reaches. Its base cell is
/// recorded, loses its ceiling and the wall the ramp climbs out of. Its
/// landing is recorded, loses the wall facing back down the climb, and
/// keeps only half of its side walls.
pub proof fn lemma_own_ramp_roles(own: Seq<RampInstance>, below: Seq<RampInstance>, i: int)
    requires
        0 <= i < own.len(),
    ensures
        touched(own, below, base_key(own[i])),
        is_base(own, base_key(own[i])),
        suppressed_at(own, below, base_key(own[i])).contains(own[i].facing),
        touched(own, below, landing_key(own[i])),
        suppressed_at(own, below, landing_key(own[i])).contains(spec_opposite(own[i].facing)),
        first_landing(own, landing_key(own[i])) is Some,
{
    broadcast use vstd::seq_lib::group_seq_properties;

    let base = base_key(own[i]);
    let landing = landing_key(own[i]);
    assert(own_touches(own[i], base));
    assert(own_touches(own[i], landing));
    lemma_own_events_contain(own, i, base);
    lemma_own_events_contain(own, i, landing);
    lemma_dedup_contains(own_events(own, base) + below_events(below, base), own[i].facing);
    lemma_dedup_contains(own_events(own, landing) + below_events(below, landing), spec_opposite(own[i].facing));
    lemma_first_landing_found(own, i, landing);
}

/// A ramp from the layer below reaches its landing on this layer: the
/// cell is recorded, loses the wall facing back down the climb, and keeps
/// only half of its floor.
pub proof fn lemma_below_ramp_roles(own: Seq<RampInstance>, below: Seq<RampInstance>, i: int)
    requires
        0 <= i < below.len(),
    ensures
        touched(own, below, landing_key(below[i])),
        suppressed_at(own, below, landing_key(below[i])).contains(spec_opposite(below[i].facing)),
        first_landing(below, landing_key(below[i])) is Some,
{
    broadcast use vstd::seq_lib::group_seq_properties;

    let landing = landing_key(below[i]);
    lemma_below_events_contain(below, i, landing);
    lemma_dedup_contains(own_events(own, landing) + below_events(below, landing), spec_opposite(below[i].facing));
    lemma_first_landing_found(below, i, landing);
}

/// A cell's list of removed walls never names a face twice.
pub proof fn lemma_suppressed_walls_distinct(own: Seq<RampInstance>, below: Seq<RampInstance>, key: (int, int))
    ensures
        suppressed_at(own, below, key).no_duplicates(),
{
    lemma_dedup_no_duplicates(own_events(own, key) + below_events(below, key));
}

/// A flank override always keeps a half along the face it is set on,
/// which puts the surviving half in that wall's own plane.
pub proof fn lemma_flank_override_runs_along(own: Seq<RampInstance>, key: (int, int), face: Facing)
    ensures
        last_flank(own, key, face) matches Some(keep) ==> runs_along(face, keep),
    decreases own.len(),
{
    if own.len() > 0 && !flanks_at(own.last(), key, face) {
        lemma_flank_override_runs_along(own.drop_last(), key, face);
    }
}

} // verus!
