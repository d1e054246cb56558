//! Full-screen inventory overlay rules: the cursor grid (two rows of
//! equipment slots above a three-row backpack), pixel hit-testing, and the
//! actions Enter, drop and drag-and-drop resolve to.

use vstd::prelude::*;
use crate::overlay::ActiveOverlay;

verus! {

pub const SLOT_SIZE: i32 = 28;
pub const SLOT_GAP: i32 = 4;
pub const EQUIP_COLS: usize = 5;
pub const EQUIP_SLOT_COUNT: usize = 10;
pub const BACKPACK_COLS: usize = 4;
pub const BACKPACK_SLOTS: usize = 12;
pub const PANEL_W: i32 = 460;
pub const PANEL_H: i32 = 310;

#[derive(Clone, Copy, PartialEq, Eq, Structural, Debug)]
pub enum Section {
    Equipment,
    Backpack,
}

#[derive(Clone, Copy, PartialEq, Eq, Structural, Debug)]
pub struct CursorPos {
    pub section: Section,
    pub index: usize,
}

/// Equipment slots a worn item can occupy.
#[derive(Clone, Copy, PartialEq, Eq, Structural, Debug)]
pub enum EquipSlot {
    Weapon,
    Head,
    Chest,
    Legs,
    Hands,
    Feet,
    Shield,
    Ring1,
    Ring2,
    Amulet,
}

// ---------------------------------------------------------------------------
// Cursor navigation
// ---------------------------------------------------------------------------

pub open spec fn spec_move_left(cursor: CursorPos) -> CursorPos {
    let cols = if cursor.section == Section::Equipment { EQUIP_COLS } else { BACKPACK_COLS } as int;
    let col = cursor.index as int % cols;
    if col > 0 {
        CursorPos { section: cursor.section, index: (cursor.index - 1) as usize }
    } else {
        cursor
    }
}

pub open spec fn spec_move_right(cursor: CursorPos) -> CursorPos {
    let cols = if cursor.section == Section::Equipment { EQUIP_COLS } else { BACKPACK_COLS } as int;
    let col = cursor.index as int % cols;
    if col < cols - 1 {
        CursorPos { section: cursor.section, index: (cursor.index + 1) as usize }
    } else {
        cursor
    }
}

/// Up within a grid keeps the column; up from the backpack's top row lands
/// on the equipment's second row, at the same column (clamped to the
/// equipment grid); up from the equipment's top row stays put.
pub open spec fn spec_move_up(cursor: CursorPos) -> CursorPos {
    match cursor.section {
        Section::Equipment => {
            let row = cursor.index as int / EQUIP_COLS as int;
            let col = cursor.index as int % EQUIP_COLS as int;
            if row > 0 {
                CursorPos { section: Section::Equipment, index: col as usize }
            } else {
                cursor
            }
        },
        Section::Backpack => {
            let row = cursor.index as int / BACKPACK_COLS as int;
            let col = cursor.index as int % BACKPACK_COLS as int;
            if row > 0 {
                CursorPos { section: Section::Backpack, index: (cursor.index - BACKPACK_COLS) as usize }
            } else {
                CursorPos { section: Section::Equipment, index: (EQUIP_COLS + col) as usize }
            }
        },
    }
}

/// Down from the equipment's top row goes to its second row; down from
/// any lower equipment row enters the backpack's top row at the same
/// column (clamped to the backpack grid); the backpack's third row is the
/// bottom.
pub open spec fn spec_move_down(cursor: CursorPos) -> CursorPos {
    match cursor.section {
        Section::Equipment => {
            let row = cursor.index as int / EQUIP_COLS as int;
            let col = cursor.index as int % EQUIP_COLS as int;
            if row < 1 {
                CursorPos { section: Section::Equipment, index: (EQUIP_COLS + col) as usize }
            } else {
                CursorPos {
                    section: Section::Backpack,
                    index: (if col < BACKPACK_COLS - 1 { col } else { BACKPACK_COLS - 1 }) as usize,
                }
            }
        },
        Section::Backpack => {
            let row = cursor.index as int / BACKPACK_COLS as int;
            if row < 2 {
                CursorPos { section: Section::Backpack, index: (cursor.index + BACKPACK_COLS) as usize }
            } else {
                cursor
            }
        },
    }
}

pub fn move_left(cursor: CursorPos) -> (moved: CursorPos)
    ensures
        moved == spec_move_left(cursor),
{
    let cols = match cursor.section {
        Section::Equipment => EQUIP_COLS,
        Section::Backpack => BACKPACK_COLS,
    };
    let col = cursor.index % cols;
    if col > 0 {
        CursorPos { section: cursor.section, index: cursor.index - 1 }
    } else {
        cursor
    }
}

pub fn move_right(cursor: CursorPos) -> (moved: CursorPos)
    requires
        cursor.index < usize::MAX,
    ensures
        moved == spec_move_right(cursor),
{
    let cols = match cursor.section {
        Section::Equipment => EQUIP_COLS,
        Section::Backpack => BACKPACK_COLS,
    };
    let col = cursor.index % cols;
    if col < cols - 1 {
        CursorPos { section: cursor.section, index: cursor.index + 1 }
    } else {
        cursor
    }
}

pub fn move_up(cursor: CursorPos) -> (moved: CursorPos)
    ensures
        moved == spec_move_up(cursor),
{
    match cursor.section {
        Section::Equipment => {
            let row = cursor.index / EQUIP_COLS;
            let col = cursor.index % EQUIP_COLS;
            if row > 0 {
                CursorPos { section: Section::Equipment, index: col }
            } else {
                cursor
            }
        },
        Section::Backpack => {
            let row = cursor.index / BACKPACK_COLS;
            let col = cursor.index % BACKPACK_COLS;
            if row > 0 {
                proof {
                    vstd::arithmetic::div_mod::lemma_fundamental_div_mod(cursor.index as int, 4);
                }
                CursorPos { section: Section::Backpack, index: (row - 1) * BACKPACK_COLS + col }
            } else {
                let equip_col = if col < EQUIP_COLS - 1 { col } else { EQUIP_COLS - 1 };
                CursorPos { section: Section::Equipment, index: EQUIP_COLS + equip_col }
            }
        },
    }
}

pub fn move_down(cursor: CursorPos) -> (moved: CursorPos)
    ensures
        moved == spec_move_down(cursor),
{
    match cursor.section {
        Section::Equipment => {
            let row = cursor.index / EQUIP_COLS;
            let col = cursor.index % EQUIP_COLS;
            if row < 1 {
                CursorPos { section: Section::Equipment, index: EQUIP_COLS + col }
            } else {
                let backpack_col = if col < BACKPACK_COLS - 1 { col } else { BACKPACK_COLS - 1 };
                CursorPos { section: Section::Backpack, index: backpack_col }
            }
        },
        Section::Backpack => {
            let row = cursor.index / BACKPACK_COLS;
            let col = cursor.index % BACKPACK_COLS;
            if row < 2 {
                proof {
                    vstd::arithmetic::div_mod::lemma_fundamental_div_mod(cursor.index as int, 4);
                }
                CursorPos { section: Section::Backpack, index: (row + 1) * BACKPACK_COLS + col }
            } else {
                cursor
            }
        },
    }
}

pub open spec fn valid_cursor(cursor: CursorPos) -> bool {
    match cursor.section {
        Section::Equipment => cursor.index < EQUIP_SLOT_COUNT,
        Section::Backpack => cursor.index < BACKPACK_SLOTS,
    }
}

/// Arrow-key navigation never leaves the two grids: from any slot of the
/// equipment or backpack grid, every move lands on a slot of one of them.
pub proof fn lemma_moves_stay_on_grid(cursor: CursorPos)
    requires
        valid_cursor(cursor),
    ensures
        valid_cursor(spec_move_left(cursor)),
        valid_cursor(spec_move_right(cursor)),
        valid_cursor(spec_move_up(cursor)),
        valid_cursor(spec_move_down(cursor)),
{
}

/// Left and right undo each other away from a row's edge: stepping right
/// from any column but the last and then left returns to the same slot,
/// and stepping left from any column but the first and then right does too.
pub proof fn lemma_left_right_inverse(cursor: CursorPos)
    requires
        valid_cursor(cursor),
    ensures
        spec_move_right(cursor) != cursor ==> spec_move_left(spec_move_right(cursor)) == cursor,
        spec_move_left(cursor) != cursor ==> spec_move_right(spec_move_left(cursor)) == cursor,
{
    let cols = if cursor.section == Section::Equipment { EQUIP_COLS } else { BACKPACK_COLS } as int;
    let i = cursor.index as int;
    let q = i / cols;
    let r = i % cols;
    vstd::arithmetic::div_mod::lemma_fundamental_div_mod(i, cols);
    if r < cols - 1 {
        vstd::arithmetic::div_mod::lemma_fundamental_div_mod_converse(i + 1, cols, q, r + 1);
    }
    if r > 0 {
        vstd::arithmetic::div_mod::lemma_fundamental_div_mod_converse(i - 1, cols, q, r - 1);
    }
}

/// Up and down undo each other inside the backpack and across its top
/// edge: from any backpack slot, up then down returns to it, and from the
/// backpack's first two rows, down then up does too.
pub proof fn lemma_up_down_inverse(cursor: CursorPos)
    requires
        valid_cursor(cursor),
        cursor.section == Section::Backpack,
    ensures
        spec_move_down(spec_move_up(cursor)) == cursor,
        cursor.index < 8 ==> spec_move_up(spec_move_down(cursor)) == cursor,
{
}

/// Vertical moves inside the equipment grid keep the column: up from its
/// second row lands on the slot of the same column in the top row (five
/// slots earlier), down from its top row lands on the slot of the same
/// column in the second row (five slots later), and up from the top row
/// stays put.
pub proof fn lemma_equipment_vertical_moves(cursor: CursorPos)
    requires
        valid_cursor(cursor),
        cursor.section == Section::Equipment,
    ensures
        cursor.index >= EQUIP_COLS ==> {
            let up = spec_move_up(cursor);
            &&& up.section == Section::Equipment
            &&& up.index + EQUIP_COLS == cursor.index
            &&& up.index % EQUIP_COLS == cursor.index % EQUIP_COLS
            &&& up.index < EQUIP_COLS
        },
        cursor.index < EQUIP_COLS ==> {
            let down = spec_move_down(cursor);
            &&& down.section == Section::Equipment
            &&& down.index == cursor.index + EQUIP_COLS
            &&& down.index % EQUIP_COLS == cursor.index % EQUIP_COLS
        },
        cursor.index < EQUIP_COLS ==> spec_move_up(cursor) == cursor,
{
}

/// Left and right stay in the cursor's grid and row: away from the row's
/// edge they step one slot, to the neighbouring column; at the edge they
/// stay put.
pub proof fn lemma_horizontal_moves(cursor: CursorPos)
    requires
        valid_cursor(cursor),
    ensures
        ({
            let cols = if cursor.section == Section::Equipment { EQUIP_COLS as int } else { BACKPACK_COLS as int };
            let left = spec_move_left(cursor);
            let right = spec_move_right(cursor);
            let i = cursor.index as int;
            let li = left.index as int;
            let ri = right.index as int;
            &&& left.section == cursor.section && right.section == cursor.section
            &&& li / cols == i / cols && ri / cols == i / cols
            &&& i % cols > 0 ==> li + 1 == i
            &&& i % cols == 0 ==> left == cursor
            &&& i % cols < cols - 1 ==> ri == i + 1
            &&& i % cols == cols - 1 ==> right == cursor
        }),
{
    let cols = if cursor.section == Section::Equipment { EQUIP_COLS as int } else { BACKPACK_COLS as int };
    let i = cursor.index as int;
    vstd::arithmetic::div_mod::lemma_fundamental_div_mod(i, cols);
    if i % cols > 0 {
        vstd::arithmetic::div_mod::lemma_fundamental_div_mod_converse(i - 1, cols, i / cols, i % cols - 1);
    }
    if i % cols < cols - 1 {
        vstd::arithmetic::div_mod::lemma_fundamental_div_mod_converse(i + 1, cols, i / cols, i % cols + 1);
    }
}

/// Crossing between the grids keeps the column: down from the
/// equipment's second row enters the backpack's top row in the same
/// column (the last backpack column for equipment columns past it), and
/// up from the backpack's top row enters the equipment's second row in the
/// same column. The backpack's bottom row is the bottom: down stays put.
pub proof fn lemma_grid_crossing(cursor: CursorPos)
    requires
        valid_cursor(cursor),
    ensures
        cursor.section == Section::Equipment && cursor.index >= EQUIP_COLS ==> {
            let down = spec_move_down(cursor);
            let col = cursor.index - EQUIP_COLS;
            &&& down.section == Section::Backpack
            &&& down.index == if col < BACKPACK_COLS { col as usize } else { (BACKPACK_COLS - 1) as usize }
        },
        cursor.section == Section::Backpack && cursor.index < BACKPACK_COLS ==> {
            let up = spec_move_up(cursor);
            &&& up.section == Section::Equipment
            &&& up.index == EQUIP_COLS + cursor.index
        },
        cursor.section == Section::Backpack && cursor.index >= BACKPACK_COLS ==> {
            let up = spec_move_up(cursor);
            &&& up.section == Section::Backpack && up.index + BACKPACK_COLS == cursor.index
        },
        cursor.section == Section::Backpack && cursor.index < BACKPACK_SLOTS - BACKPACK_COLS ==> {
            let down = spec_move_down(cursor);
            &&& down.section == Section::Backpack && down.index == cursor.index + BACKPACK_COLS
        },
        cursor.section == Section::Backpack && cursor.index >= BACKPACK_SLOTS - BACKPACK_COLS ==> spec_move_down(
            cursor,
        ) == cursor,
{
}

/// Up and down undo each other on the equipment grid: from any top-row
/// slot, down then up returns to it, and from any second-row slot above a
/// backpack column, up then down, and down then up, return to it.
pub proof fn lemma_equipment_up_down_inverse(cursor: CursorPos)
    requires
        valid_cursor(cursor),
        cursor.section == Section::Equipment,
    ensures
        cursor.index < EQUIP_COLS ==> spec_move_up(spec_move_down(cursor)) == cursor,
        EQUIP_COLS <= cursor.index < EQUIP_COLS + BACKPACK_COLS ==> spec_move_down(spec_move_up(cursor))
            == cursor && spec_move_up(spec_move_down(cursor)) == cursor,
{
}

// ---------------------------------------------------------------------------
// Geometry
// ---------------------------------------------------------------------------

/// Size of the HUD canvas the overlay is centred on.
#[derive(Clone, Copy, PartialEq, Eq, Structural, Debug)]
pub struct HudSize {
    pub width: i32,
    pub height: i32,
}

pub open spec fn hud_ok(hud: HudSize) -> bool {
    PANEL_W <= hud.width <= 0x100000 && PANEL_H <= hud.height <= 0x100000
}

pub open spec fn spec_panel_x(hud: HudSize) -> int {
    (hud.width - PANEL_W) / 2
}

pub open spec fn spec_panel_y(hud: HudSize) -> int {
    (hud.height - PANEL_H) / 2
}

/// Top-left of the equipment grid: centred horizontally, 44px below the
/// panel top.
pub open spec fn spec_equip_origin(hud: HudSize) -> (int, int) {
    (spec_panel_x(hud) + 152, spec_panel_y(hud) + 44)
}

/// Top-left of the backpack grid: centred horizontally, below the two
/// equipment rows and the separator line.
pub open spec fn spec_backpack_origin(hud: HudSize) -> (int, int) {
    (spec_panel_x(hud) + 168, spec_panel_y(hud) + 124)
}

/// Top-left pixel of the slot under `pos`.
pub open spec fn spec_slot_origin(hud: HudSize, pos: CursorPos) -> (int, int) {
    let (ox, oy, cols) = match pos.section {
        Section::Equipment => (spec_equip_origin(hud).0, spec_equip_origin(hud).1, EQUIP_COLS as int),
        Section::Backpack => (spec_backpack_origin(hud).0, spec_backpack_origin(hud).1, BACKPACK_COLS as int),
    };
    let col = pos.index as int % cols;
    let row = pos.index as int / cols;
    (ox + col * (SLOT_SIZE + SLOT_GAP), oy + row * (SLOT_SIZE + SLOT_GAP))
}

/// Whether the HUD pixel `(x, y)` lies in the slot under `pos`
/// (inclusive top-left, exclusive bottom-right).
pub open spec fn in_slot(hud: HudSize, pos: CursorPos, x: int, y: int) -> bool {
    let (sx, sy) = spec_slot_origin(hud, pos);
    sx <= x < sx + SLOT_SIZE && sy <= y < sy + SLOT_SIZE
}

fn panel_origin(hud: HudSize) -> (origin: (i32, i32))
    requires
        hud_ok(hud),
    ensures
        origin.0 == spec_panel_x(hud),
        origin.1 == spec_panel_y(hud),
{
    ((hud.width - PANEL_W) / 2, (hud.height - PANEL_H) / 2)
}

pub fn equip_origin(hud: HudSize) -> (origin: (i32, i32))
    requires
        hud_ok(hud),
    ensures
        origin.0 == spec_equip_origin(hud).0,
        origin.1 == spec_equip_origin(hud).1,
{
    let (panel_x, panel_y) = panel_origin(hud);
    let x = panel_x + (PANEL_W - (EQUIP_COLS as i32 * (SLOT_SIZE + SLOT_GAP) - SLOT_GAP)) / 2;
    (x, panel_y + 44)
}

pub fn backpack_origin(hud: HudSize) -> (origin: (i32, i32))
    requires
        hud_ok(hud),
    ensures
        origin.0 == spec_backpack_origin(hud).0,
        origin.1 == spec_backpack_origin(hud).1,
{
    let (panel_x, _) = panel_origin(hud);
    let (_, equip_y) = equip_origin(hud);
    let sep_y = equip_y + 2 * (SLOT_SIZE + SLOT_GAP) + 6;
    let x = panel_x + (PANEL_W - (BACKPACK_COLS as i32 * (SLOT_SIZE + SLOT_GAP) - SLOT_GAP)) / 2;
    (x, sep_y + 10)
}

pub fn slot_origin(hud: HudSize, pos: CursorPos) -> (origin: (i32, i32))
    requires
        hud_ok(hud),
        valid_cursor(pos),
    ensures
        origin.0 == spec_slot_origin(hud, pos).0,
        origin.1 == spec_slot_origin(hud, pos).1,
{
    match pos.section {
        Section::Equipment => {
            let (ox, oy) = equip_origin(hud);
            let col = pos.index as i32 % EQUIP_COLS as i32;
            let row = pos.index as i32 / EQUIP_COLS as i32;
            (ox + col * (SLOT_SIZE + SLOT_GAP), oy + row * (SLOT_SIZE + SLOT_GAP))
        },
        Section::Backpack => {
            let (ox, oy) = backpack_origin(hud);
            let col = pos.index as i32 % BACKPACK_COLS as i32;
            let row = pos.index as i32 / BACKPACK_COLS as i32;
            (ox + col * (SLOT_SIZE + SLOT_GAP), oy + row * (SLOT_SIZE + SLOT_GAP))
        },
    }
}

fn point_in_slot(hud: HudSize, pos: CursorPos, x: i32, y: i32) -> (inside: bool)
    requires
        hud_ok(hud),
        valid_cursor(pos),
    ensures
        inside == in_slot(hud, pos, x as int, y as int),
{
    let (sx, sy) = slot_origin(hud, pos);
    x >= sx && x < sx + SLOT_SIZE && y >= sy && y < sy + SLOT_SIZE
}

/// The slot containing HUD pixel `(x, y)`, equipment grid first. A
/// fractional pointer position hits exactly when its floor does.
pub fn hit_test(hud: HudSize, x: i32, y: i32) -> (hit: Option<CursorPos>)
    requires
        hud_ok(hud),
    ensures
        hit matches Some(pos) ==> valid_cursor(pos) && in_slot(hud, pos, x as int, y as int),
        hit is None ==> forall|pos: CursorPos|
            valid_cursor(pos) ==> !#[trigger] in_slot(hud, pos, x as int, y as int),
{
    let mut index: usize = 0;
    while index < EQUIP_SLOT_COUNT
        invariant
            index <= EQUIP_SLOT_COUNT,
            hud_ok(hud),
            forall|j: usize|
                j < index ==> !#[trigger] in_slot(
                    hud,
                    CursorPos { section: Section::Equipment, index: j },
                    x as int,
                    y as int,
                ),
        decreases EQUIP_SLOT_COUNT - index,
    {
        let pos = CursorPos { section: Section::Equipment, index };
        if point_in_slot(hud, pos, x, y) {
            return Some(pos);
        }
        index = index + 1;
    }
    let mut index: usize = 0;
    while index < BACKPACK_SLOTS
        invariant
            index <= BACKPACK_SLOTS,
            hud_ok(hud),
            forall|j: usize|
                j < EQUIP_SLOT_COUNT ==> !#[trigger] in_slot(
                    hud,
                    CursorPos { section: Section::Equipment, index: j },
                    x as int,
                    y as int,
                ),
            forall|j: usize|
                j < index ==> !#[trigger] in_slot(
                    hud,
                    CursorPos { section: Section::Backpack, index: j },
                    x as int,
                    y as int,
                ),
        decreases BACKPACK_SLOTS - index,
    {
        let pos = CursorPos { section: Section::Backpack, index };
        if point_in_slot(hud, pos, x, y) {
            return Some(pos);
        }
        index = index + 1;
    }
    proof {
        assert forall|pos: CursorPos| valid_cursor(pos) implies !#[trigger] in_slot(
            hud,
            pos,
            x as int,
            y as int,
        ) by {
            match pos.section {
                Section::Equipment => {
                    assert(pos == CursorPos { section: Section::Equipment, index: pos.index });
                },
                Section::Backpack => {
                    assert(pos == CursorPos { section: Section::Backpack, index: pos.index });
                },
            }
        }
    }
    None
}

/// No two slots of the overlay overlap, so at most one slot contains any
/// pixel and the hit test's answer does not depend on its search order.
pub proof fn lemma_slots_disjoint(hud: HudSize, a: CursorPos, b: CursorPos, x: int, y: int)
    requires
        hud_ok(hud),
        valid_cursor(a),
        valid_cursor(b),
        in_slot(hud, a, x, y),
        in_slot(hud, b, x, y),
    ensures
        a == b,
{
    let ia = a.index as int;
    let ib = b.index as int;
    match (a.section, b.section) {
        (Section::Equipment, Section::Equipment) => {
            assert(a.index == b.index) by (nonlinear_arith)
                requires
                    0 <= ia < 10,
                    0 <= ib < 10,
                    spec_slot_origin(hud, a).0 == spec_equip_origin(hud).0 + (ia % 5) * 32,
                    spec_slot_origin(hud, a).1 == spec_equip_origin(hud).1 + (ia / 5) * 32,
                    spec_slot_origin(hud, b).0 == spec_equip_origin(hud).0 + (ib % 5) * 32,
                    spec_slot_origin(hud, b).1 == spec_equip_origin(hud).1 + (ib / 5) * 32,
                    spec_slot_origin(hud, a).0 <= x < spec_slot_origin(hud, a).0 + 28,
                    spec_slot_origin(hud, b).0 <= x < spec_slot_origin(hud, b).0 + 28,
                    spec_slot_origin(hud, a).1 <= y < spec_slot_origin(hud, a).1 + 28,
                    spec_slot_origin(hud, b).1 <= y < spec_slot_origin(hud, b).1 + 28,
                    a.index == ia,
                    b.index == ib,
            ;
        },
        (Section::Backpack, Section::Backpack) => {
            assert(a.index == b.index) by (nonlinear_arith)
                requires
                    0 <= ia < 12,
                    0 <= ib < 12,
                    spec_slot_origin(hud, a).0 == spec_backpack_origin(hud).0 + (ia % 4) * 32,
                    spec_slot_origin(hud, a).1 == spec_backpack_origin(hud).1 + (ia / 4) * 32,
                    spec_slot_origin(hud, b).0 == spec_backpack_origin(hud).0 + (ib % 4) * 32,
                    spec_slot_origin(hud, b).1 == spec_backpack_origin(hud).1 + (ib / 4) * 32,
                    spec_slot_origin(hud, a).0 <= x < spec_slot_origin(hud, a).0 + 28,
                    spec_slot_origin(hud, b).0 <= x < spec_slot_origin(hud, b).0 + 28,
                    spec_slot_origin(hud, a).1 <= y < spec_slot_origin(hud, a).1 + 28,
                    spec_slot_origin(hud, b).1 <= y < spec_slot_origin(hud, b).1 + 28,
                    a.index == ia,
                    b.index == ib,
            ;
        },
        _ => {
            // The equipment rows end above the backpack's first row.
            assert(spec_backpack_origin(hud).1 == spec_equip_origin(hud).1 + 80);
        },
    }
}

/// A slot's top-left pixel lies in that slot and in no other, so the hit
/// test at a slot's origin finds exactly that slot.
pub proof fn lemma_slot_origin_hits_its_slot(hud: HudSize, pos: CursorPos, other: CursorPos)
    requires
        hud_ok(hud),
        valid_cursor(pos),
        valid_cursor(other),
    ensures
        in_slot(hud, pos, spec_slot_origin(hud, pos).0, spec_slot_origin(hud, pos).1),
        in_slot(hud, other, spec_slot_origin(hud, pos).0, spec_slot_origin(hud, pos).1) ==> other == pos,
{
    let (x, y) = spec_slot_origin(hud, pos);
    if in_slot(hud, other, x, y) {
        lemma_slots_disjoint(hud, pos, other, x, y);
    }
}

// ---------------------------------------------------------------------------
// Actions
// ---------------------------------------------------------------------------

/// What the overlay asks the game to do with an item.
#[derive(Clone, PartialEq, Eq, Debug)]
pub enum InventoryAction {
    /// Equip the backpack item at this position of the occupied-slot list.
    Equip { backpack_slot: u32, equip_slot: EquipSlot },
    Unequip { equip_slot: EquipSlot, backpack_slot: u32 },
    /// Use the consumable at this position of the occupied-slot list.
    Use { backpack_slot: u32 },
    Drop { instance_id: String, col: i64, row: i64 },
    Swap { index_a: u32, index_b: u32 },
    Message { text: String },
}

/// What the rules read of an item definition.
#[derive(Clone, Copy, PartialEq, Eq, Structural, Debug)]
pub struct ItemInfo {
    pub consumable: bool,
    pub is_ring: bool,
    /// The slot the item equips into by default.
    pub home_slot: EquipSlot,
}

/// An item instance in the backpack; `info` is `None` when its item
/// definition is unknown.
#[derive(Clone, PartialEq, Eq, Debug)]
pub struct BackpackItem {
    pub instance_id: String,
    pub info: Option<ItemInfo>,
}

/// The player's equipment and backpack as the overlay sees them.
pub struct InventoryView {
    /// The equipment grid's slots, in grid order.
    pub layout: Vec<EquipSlot>,
    /// Instance id of the item worn in each grid slot.
    pub equipped: Vec<Option<String>>,
    /// Backpack contents by physical slot.
    pub backpack: Vec<Option<BackpackItem>>,
}

impl InventoryView {
    pub open spec fn wf(&self) -> bool {
        &&& self.layout@.len() == EQUIP_SLOT_COUNT
        &&& self.equipped@.len() == EQUIP_SLOT_COUNT
        &&& self.backpack@.len() == BACKPACK_SLOTS
        &&& forall|i: int, j: int|
            0 <= i < j < EQUIP_SLOT_COUNT ==> self.layout@[i] != self.layout@[j]
    }
}

/// First empty backpack slot.
pub open spec fn first_free_slot(backpack: Seq<Option<BackpackItem>>) -> Option<nat>
    decreases backpack.len(),
{
    if backpack.len() == 0 {
        None
    } else {
        match first_free_slot(backpack.drop_last()) {
            Some(slot) => Some(slot),
            None => if backpack.last() is None {
                Some((backpack.len() - 1) as nat)
            } else {
                None
            },
        }
    }
}

/// Occupied backpack slots before `slot`: the position of the item in
/// `slot` among the backpack's items in slot order.
pub open spec fn occupied_before(backpack: Seq<Option<BackpackItem>>, slot: int) -> nat
    decreases slot,
{
    if slot <= 0 {
        0
    } else {
        occupied_before(backpack, slot - 1) + if backpack[slot - 1] is Some { 1nat } else { 0nat }
    }
}

pub fn next_backpack_slot(backpack: &Vec<Option<BackpackItem>>) -> (slot: Option<u32>)
    requires
        backpack@.len() <= u32::MAX,
    ensures
        slot matches Some(s) ==> first_free_slot(backpack@) == Some(s as nat),
        slot is None ==> first_free_slot(backpack@) is None,
{
    let mut i: usize = 0;
    while i < backpack.len()
        invariant
            i <= backpack@.len(),
            backpack@.len() <= u32::MAX,
            first_free_slot(backpack@.take(i as int)) is None,
        decreases backpack.len() - i,
    {
        proof {
            assert(backpack@.take(i + 1).drop_last() =~= backpack@.take(i as int));
        }
        if backpack[i].is_none() {
            proof {
                lemma_first_free_prefix(backpack@, (i + 1) as nat);
            }
            return Some(i as u32);
        }
        i = i + 1;
    }
    proof {
        assert(backpack@.take(backpack@.len() as int) =~= backpack@);
    }
    None
}

/// A free slot found in a prefix is the first free slot of the whole.
proof fn lemma_first_free_prefix(backpack: Seq<Option<BackpackItem>>, k: nat)
    requires
        k <= backpack.len(),
        first_free_slot(backpack.take(k as int)) is Some,
    ensures
        first_free_slot(backpack) == first_free_slot(backpack.take(k as int)),
    decreases backpack.len(),
{
    if k < backpack.len() {
        assert(backpack.drop_last().take(k as int) =~= backpack.take(k as int));
        lemma_first_free_prefix(backpack.drop_last(), k);
    } else {
        assert(backpack.take(k as int) =~= backpack);
    }
}

fn sorted_backpack_position(backpack: &Vec<Option<BackpackItem>>, slot: usize) -> (position: u32)
    requires
        slot <= backpack@.len() <= u32::MAX,
    ensures
        position == occupied_before(backpack@, slot as int),
{
    let mut count: u32 = 0;
    let mut i: usize = 0;
    while i < slot
        invariant
            i <= slot <= backpack@.len() <= u32::MAX,
            count == occupied_before(backpack@, i as int),
            count <= i,
        decreases slot - i,
    {
        if backpack[i].is_some() {
            count = count + 1;
        }
        i = i + 1;
    }
    count
}

/// What Enter on the cursor does: on a worn item, take it off into the
/// first free backpack slot (or report a full backpack); on a backpack
/// consumable, use it; on any other known backpack item, equip it into its
/// default slot. Empty slots and unknown items do nothing.
pub open spec fn enter_outcome(cursor: CursorPos, view: InventoryView, action: Option<InventoryAction>) -> bool {
    match cursor.section {
        Section::Equipment => {
            if view.equipped@[cursor.index as int] is None {
                action is None
            } else {
                match first_free_slot(view.backpack@) {
                    None => action matches Some(InventoryAction::Message { text }) && text@
                        == "Backpack is full"@,
                    Some(free) => action == Some(
                        InventoryAction::Unequip {
                            equip_slot: view.layout@[cursor.index as int],
                            backpack_slot: free as u32,
                        },
                    ),
                }
            }
        },
        Section::Backpack => {
            match view.backpack@[cursor.index as int] {
                None => action is None,
                Some(item) => match item.info {
                    None => action is None,
                    Some(info) => {
                        let position = occupied_before(view.backpack@, cursor.index as int) as u32;
                        if info.consumable {
                            action == Some(InventoryAction::Use { backpack_slot: position })
                        } else {
                            action == Some(
                                InventoryAction::Equip {
                                    backpack_slot: position,
                                    equip_slot: info.home_slot,
                                },
                            )
                        }
                    },
                },
            }
        },
    }
}

pub fn handle_enter(cursor: CursorPos, view: &InventoryView) -> (action: Option<InventoryAction>)
    requires
        view.wf(),
        valid_cursor(cursor),
    ensures
        enter_outcome(cursor, *view, action),
{
    match cursor.section {
        Section::Equipment => {
            if view.equipped[cursor.index].is_none() {
                return None;
            }
            let slot = view.layout[cursor.index];
            match next_backpack_slot(&view.backpack) {
                None => Some(InventoryAction::Message { text: String::from_str("Backpack is full") }),
                Some(free) => Some(InventoryAction::Unequip { equip_slot: slot, backpack_slot: free }),
            }
        },
        Section::Backpack => {
            match &view.backpack[cursor.index] {
                None => None,
                Some(item) => match item.info {
                    None => None,
                    Some(info) => {
                        let position = sorted_backpack_position(&view.backpack, cursor.index);
                        if info.consumable {
                            Some(InventoryAction::Use { backpack_slot: position })
                        } else {
                            Some(InventoryAction::Equip { backpack_slot: position, equip_slot: info.home_slot })
                        }
                    },
                },
            }
        },
    }
}

/// What dropping the item under the cursor does: the item (worn or
/// carried) is dropped at the player's cell; an empty slot does nothing.
pub open spec fn drop_outcome(
    cursor: CursorPos,
    view: InventoryView,
    player_col: i64,
    player_row: i64,
    action: Option<InventoryAction>,
) -> bool {
    match cursor.section {
        Section::Equipment => match view.equipped@[cursor.index as int] {
            None => action is None,
            Some(id) => action == Some(
                InventoryAction::Drop { instance_id: id, col: player_col, row: player_row },
            ),
        },
        Section::Backpack => match view.backpack@[cursor.index as int] {
            None => action is None,
            Some(item) => action == Some(
                InventoryAction::Drop { instance_id: item.instance_id, col: player_col, row: player_row },
            ),
        },
    }
}

pub fn handle_drop(cursor: CursorPos, view: &InventoryView, player_col: i64, player_row: i64) -> (action:
    Option<InventoryAction>)
    requires
        view.wf(),
        valid_cursor(cursor),
    ensures
        drop_outcome(cursor, *view, player_col, player_row, action),
{
    let instance_id = match cursor.section {
        Section::Equipment => match &view.equipped[cursor.index] {
            None => return None,
            Some(id) => id.clone(),
        },
        Section::Backpack => match &view.backpack[cursor.index] {
            None => return None,
            Some(item) => item.instance_id.clone(),
        },
    };
    Some(InventoryAction::Drop { instance_id, col: player_col, row: player_row })
}

/// The keys pressed this frame that the inventory overlay reads.
#[derive(Clone, Copy, PartialEq, Eq, Structural, Debug)]
pub struct InventoryKeys {
    /// `I`: opens the overlay from the dungeon, closes it when open.
    pub toggle: bool,
    pub escape: bool,
    pub left: bool,
    pub right: bool,
    pub up: bool,
    pub down: bool,
    pub enter: bool,
    /// `D`: drop the item under the cursor.
    pub drop: bool,
}

/// The cursor after this frame's arrow keys, taken left, right, up, down.
pub open spec fn moved_cursor(cursor: CursorPos, keys: InventoryKeys) -> CursorPos {
    let a = if keys.left { spec_move_left(cursor) } else { cursor };
    let b = if keys.right { spec_move_right(a) } else { a };
    let c = if keys.up { spec_move_up(b) } else { b };
    if keys.down { spec_move_down(c) } else { c }
}

/// One frame of the inventory overlay's keyboard handling. Closed, `I`
/// opens it (unless gameplay is blocked) with the cursor on the first
/// equipment slot. Open, `I` or Escape closes it; otherwise the arrows
/// move the cursor, then Enter acts on the slot under it, and `D` drops
/// its item when Enter produced no action.
pub fn inventory_keys_step(
    overlay: ActiveOverlay,
    transition_active: bool,
    cursor: &mut CursorPos,
    keys: InventoryKeys,
    view: &InventoryView,
    player_col: i64,
    player_row: i64,
) -> (result: (ActiveOverlay, Option<InventoryAction>))
    requires
        view.wf(),
        valid_cursor(*old(cursor)),
    ensures
        valid_cursor(*final(cursor)),
        overlay != ActiveOverlay::Inventory ==> result.1 is None && if !transition_active && overlay
            == ActiveOverlay::NoOverlay && keys.toggle {
            result.0 == ActiveOverlay::Inventory && *final(cursor) == (CursorPos {
                section: Section::Equipment,
                index: 0,
            })
        } else {
            result.0 == overlay && *final(cursor) == *old(cursor)
        },
        overlay == ActiveOverlay::Inventory && (keys.toggle || keys.escape) ==> result.0
            == ActiveOverlay::NoOverlay && result.1 is None && *final(cursor) == *old(cursor),
        overlay == ActiveOverlay::Inventory && !(keys.toggle || keys.escape) ==> {
            let moved = moved_cursor(*old(cursor), keys);
            &&& result.0 == ActiveOverlay::Inventory
            &&& *final(cursor) == moved
            &&& !keys.enter && !keys.drop ==> result.1 is None
            &&& !keys.enter && keys.drop ==> drop_outcome(moved, *view, player_col, player_row, result.1)
            &&& keys.enter ==> exists|entered: Option<InventoryAction>|
                enter_outcome(moved, *view, entered) && if entered is Some {
                    result.1 == entered
                } else if keys.drop {
                    drop_outcome(moved, *view, player_col, player_row, result.1)
                } else {
                    result.1 is None
                }
        },
{
    if overlay != ActiveOverlay::Inventory {
        if transition_active || overlay != ActiveOverlay::NoOverlay {
            return (overlay, None);
        }
        if keys.toggle {
            *cursor = CursorPos { section: Section::Equipment, index: 0 };
            return (ActiveOverlay::Inventory, None);
        }
        return (overlay, None);
    }
    if keys.toggle || keys.escape {
        return (ActiveOverlay::NoOverlay, None);
    }
    proof {
        lemma_moves_stay_on_grid(*cursor);
    }
    if keys.left {
        *cursor = move_left(*cursor);
    }
    proof {
        lemma_moves_stay_on_grid(*cursor);
    }
    if keys.right {
        *cursor = move_right(*cursor);
    }
    proof {
        lemma_moves_stay_on_grid(*cursor);
    }
    if keys.up {
        *cursor = move_up(*cursor);
    }
    proof {
        lemma_moves_stay_on_grid(*cursor);
    }
    if keys.down {
        *cursor = move_down(*cursor);
    }
    let mut action = None;
    if keys.enter {
        action = handle_enter(*cursor, view);
    }
    let ghost entered = action;
    if action.is_none() && keys.drop {
        action = handle_drop(*cursor, view, player_col, player_row);
    }
    proof {
        if keys.enter {
            assert(enter_outcome(*cursor, *view, entered));
        }
    }
    (ActiveOverlay::Inventory, action)
}

/// Whether an item accepts the equipment slot `slot` as a drop target: its
/// default slot, or either ring slot for a ring.
pub open spec fn accepts_slot(info: ItemInfo, slot: EquipSlot) -> bool {
    slot == info.home_slot || (info.is_ring && (slot == EquipSlot::Ring1 || slot == EquipSlot::Ring2))
}

/// Grid indices an item dragged from `source` may be dropped onto: none
/// for a consumable or an item dragged out of the equipment grid;
/// otherwise every grid slot the item accepts.
pub open spec fn spec_valid_drop_slots(info: ItemInfo, source: Section, layout: Seq<EquipSlot>) -> Set<int> {
    if info.consumable || source == Section::Equipment {
        Set::empty()
    } else {
        Set::new(|i: int| 0 <= i < layout.len() && accepts_slot(info, layout[i]))
    }
}

/// The equipment grid indices highlighted while dragging an item, in
/// ascending order.
pub fn valid_equip_slots_for_drag(info: ItemInfo, source: Section, layout: &Vec<EquipSlot>) -> (slots: Vec<
    usize,
>)
    ensures
        slots@.map_values(|i: usize| i as int).to_set() == spec_valid_drop_slots(info, source, layout@),
        forall|a: int, b: int| 0 <= a < b < slots@.len() ==> slots@[a] < slots@[b],
{
    let mut slots: Vec<usize> = Vec::new();
    if info.consumable || source == Section::Equipment {
        proof {
            assert(slots@.map_values(|i: usize| i as int).to_set() =~= Set::<int>::empty());
        }
        return slots;
    }
    let mut i: usize = 0;
    while i < layout.len()
        invariant
            i <= layout@.len(),
            !info.consumable,
            source == Section::Backpack,
            slots@.map_values(|k: usize| k as int).to_set() == Set::new(
                |j: int| 0 <= j < i && accepts_slot(info, layout@[j]),
            ),
            forall|a: int| 0 <= a < slots@.len() ==> slots@[a] < i,
            forall|a: int, b: int| 0 <= a < b < slots@.len() ==> slots@[a] < slots@[b],
        decreases layout.len() - i,
    {
        let slot = layout[i];
        let accepted = slot == info.home_slot || (info.is_ring && (slot == EquipSlot::Ring1 || slot
            == EquipSlot::Ring2));
        let ghost before = slots@;
        if accepted {
            slots.push(i);
            proof {
                assert(slots@.map_values(|k: usize| k as int) =~= before.map_values(|k: usize| k as int).push(
                    i as int,
                ));
                before.map_values(|k: usize| k as int).lemma_push_to_set_commute(i as int);
            }
        }
        proof {
            assert(slots@.map_values(|k: usize| k as int).to_set() =~= Set::new(
                |j: int| 0 <= j < i + 1 && accepts_slot(info, layout@[j]),
            ));
        }
        i = i + 1;
    }
    proof {
        assert(spec_valid_drop_slots(info, source, layout@) =~= Set::new(
            |j: int| 0 <= j < layout@.len() && accepts_slot(info, layout@[j]),
        ));
    }
    slots
}

/// Drag-and-drop transition table. Dropping on the source slot does
/// nothing. Backpack to equipment equips a known non-consumable item into
/// the target slot when the item accepts that slot. Equipment to an empty
/// backpack slot takes the worn item off into it. Backpack to backpack
/// always swaps. Equipment to equipment does nothing.
pub open spec fn spec_resolve_drag(source: CursorPos, target: CursorPos, view: InventoryView) -> Option<
    InventoryAction,
> {
    if source == target {
        None
    } else {
        match (source.section, target.section) {
            (Section::Backpack, Section::Equipment) => match view.backpack@[source.index as int] {
                Some(item) => match item.info {
                    Some(info) => {
                        let target_slot = view.layout@[target.index as int];
                        if info.consumable || !accepts_slot(info, target_slot) {
                            None
                        } else {
                            Some(
                                InventoryAction::Equip {
                                    backpack_slot: occupied_before(view.backpack@, source.index as int) as u32,
                                    equip_slot: target_slot,
                                },
                            )
                        }
                    },
                    None => None,
                },
                None => None,
            },
            (Section::Equipment, Section::Backpack) => if view.equipped@[source.index as int] is Some
                && view.backpack@[target.index as int] is None {
                Some(
                    InventoryAction::Unequip {
                        equip_slot: view.layout@[source.index as int],
                        backpack_slot: target.index as u32,
                    },
                )
            } else {
                None
            },
            (Section::Backpack, Section::Backpack) => Some(
                InventoryAction::Swap { index_a: source.index as u32, index_b: target.index as u32 },
            ),
            (Section::Equipment, Section::Equipment) => None,
        }
    }
}

pub fn resolve_drag(source: CursorPos, target: CursorPos, view: &InventoryView) -> (action: Option<
    InventoryAction,
>)
    requires
        view.wf(),
        valid_cursor(source),
        valid_cursor(target),
    ensures
        action == spec_resolve_drag(source, target, *view),
{
    if source == target {
        return None;
    }
    match (source.section, target.section) {
        (Section::Backpack, Section::Equipment) => {
            let item = match &view.backpack[source.index] {
                Some(item) => item,
                None => return None,
            };
            let info = match item.info {
                Some(info) => info,
                None => return None,
            };
            if info.consumable {
                return None;
            }
            let target_slot = view.layout[target.index];
            let is_ring = info.is_ring && (target_slot == EquipSlot::Ring1 || target_slot
                == EquipSlot::Ring2);
            if !(target_slot == info.home_slot) && !is_ring {
                return None;
            }
            let position = sorted_backpack_position(&view.backpack, source.index);
            Some(InventoryAction::Equip { backpack_slot: position, equip_slot: target_slot })
        },
        (Section::Equipment, Section::Backpack) => {
            if view.equipped[source.index].is_none() {
                return None;
            }
            if view.backpack[target.index].is_some() {
                return None;
            }
            Some(
                InventoryAction::Unequip {
                    equip_slot: view.layout[source.index],
                    backpack_slot: target.index as u32,
                },
            )
        },
        (Section::Backpack, Section::Backpack) => Some(
            InventoryAction::Swap { index_a: source.index as u32, index_b: target.index as u32 },
        ),
        (Section::Equipment, Section::Equipment) => None,
    }
}

/// What a drag can ask for. Dropping a backpack item on an equipment slot
/// equips it into exactly the slot it was dropped on, which must be the
/// item's own slot (or either ring slot for a ring), and names the item by
/// its position among the occupied backpack slots; dropping a worn item on
/// an empty backpack slot unequips it from the slot it was dragged from
/// into the slot it was dropped on; dropping a backpack item on another
/// backpack slot swaps the two; each of these happens whenever its
/// conditions hold. Nothing else (a drop on the start slot, or from one
/// equipment slot to another) does anything.
pub proof fn lemma_drag_actions(source: CursorPos, target: CursorPos, view: InventoryView)
    requires
        view.wf(),
        valid_cursor(source),
        valid_cursor(target),
    ensures
        source == target ==> spec_resolve_drag(source, target, view) is None,
        source.section == Section::Equipment && target.section == Section::Equipment ==> spec_resolve_drag(
            source,
            target,
            view,
        ) is None,
        spec_resolve_drag(source, target, view) matches Some(InventoryAction::Equip { backpack_slot, equip_slot })
            ==> {
            &&& source.section == Section::Backpack && target.section == Section::Equipment
            &&& equip_slot == view.layout@[target.index as int]
            &&& view.backpack@[source.index as int] matches Some(item) && item.info matches Some(info)
                && !info.consumable && (equip_slot == info.home_slot || (info.is_ring && (equip_slot
                == EquipSlot::Ring1 || equip_slot == EquipSlot::Ring2)))
            &&& crate::trading::occupied_slots(view.backpack@)[backpack_slot as int] == source.index
        },
        spec_resolve_drag(source, target, view) matches Some(InventoryAction::Unequip { equip_slot, backpack_slot })
            ==> {
            &&& source.section == Section::Equipment && target.section == Section::Backpack
            &&& equip_slot == view.layout@[source.index as int]
            &&& backpack_slot == target.index
            &&& view.equipped@[source.index as int] is Some
            &&& view.backpack@[target.index as int] is None
        },
        spec_resolve_drag(source, target, view) matches Some(InventoryAction::Swap { index_a, index_b }) ==> {
            &&& source.section == Section::Backpack && target.section == Section::Backpack
            &&& index_a == source.index && index_b == target.index && index_a != index_b
        },
        (view.backpack@[source.index as int] matches Some(item) && item.info matches Some(info)
            && source.section == Section::Backpack && target.section == Section::Equipment && !info.consumable && (
        view.layout@[target.index as int] == info.home_slot || (info.is_ring && (view.layout@[target.index as int]
            == EquipSlot::Ring1 || view.layout@[target.index as int] == EquipSlot::Ring2)))) ==> (spec_resolve_drag(
            source,
            target,
            view,
        ) matches Some(InventoryAction::Equip { .. })),
        (source.section == Section::Equipment && target.section == Section::Backpack && view.equipped@[source.index as int] is Some
            && view.backpack@[target.index as int] is None) ==> (spec_resolve_drag(source, target, view) matches Some(
            InventoryAction::Unequip { .. })),
        (source.section == Section::Backpack && target.section == Section::Backpack && source != target) ==> (
        spec_resolve_drag(source, target, view) matches Some(InventoryAction::Swap { .. })),
        !(spec_resolve_drag(source, target, view) matches Some(InventoryAction::Equip { .. })
            || spec_resolve_drag(source, target, view) matches Some(InventoryAction::Unequip { .. })
            || spec_resolve_drag(source, target, view) matches Some(InventoryAction::Swap { .. })) ==> spec_resolve_drag(
            source,
            target,
            view,
        ) is None,
{
    if source.section == Section::Backpack && view.backpack@[source.index as int] is Some {
        lemma_occupied_position(view.backpack@, source.index as int);
        lemma_occupied_before_bound(view.backpack@, source.index as int);
    }
}

proof fn lemma_occupied_before_bound(backpack: Seq<Option<BackpackItem>>, slot: int)
    requires
        0 <= slot,
    ensures
        occupied_before(backpack, slot) <= slot,
    decreases slot,
{
    if slot > 0 {
        lemma_occupied_before_bound(backpack, slot - 1);
    }
}

/// In the list of occupied backpack slots, the occupied slot `slot` comes
/// after exactly the occupied slots before it.
pub proof fn lemma_occupied_position(backpack: Seq<Option<BackpackItem>>, slot: int)
    requires
        0 <= slot < backpack.len() <= u32::MAX,
        backpack[slot] is Some,
    ensures
        occupied_before(backpack, slot) < crate::trading::occupied_slots(backpack).len(),
        crate::trading::occupied_slots(backpack)[occupied_before(backpack, slot) as int] == slot,
    decreases backpack.len(),
{
    let init = backpack.drop_last();
    lemma_occupied_before_count(backpack, slot);
    if slot < backpack.len() - 1 {
        lemma_occupied_position(init, slot);
        lemma_occupied_before_prefix(backpack, slot);
    } else {
        lemma_occupied_before_count(init, init.len() as int);
        lemma_occupied_before_prefix(backpack, slot);
    }
}

/// Counting the occupied slots before `slot` looks only at the slots
/// before it, so dropping the last slot changes no count below it.
proof fn lemma_occupied_before_prefix(backpack: Seq<Option<BackpackItem>>, slot: int)
    requires
        0 <= slot < backpack.len(),
    ensures
        occupied_before(backpack.drop_last(), slot) == occupied_before(backpack, slot),
    decreases slot,
{
    if slot > 0 {
        lemma_occupied_before_prefix(backpack, slot - 1);
    }
}

/// The occupied slots before `slot` number as many as the occupied-slot
/// list of the first `slot` slots holds.
proof fn lemma_occupied_before_count(backpack: Seq<Option<BackpackItem>>, slot: int)
    requires
        0 <= slot <= backpack.len(),
    ensures
        occupied_before(backpack, slot) == crate::trading::occupied_slots(backpack.take(slot)).len(),
    decreases slot,
{
    if slot > 0 {
        lemma_occupied_before_count(backpack, slot - 1);
        assert(backpack.take(slot).drop_last() =~= backpack.take(slot - 1));
    }
}

/// The slots highlighted while dragging a backpack item are exactly the
/// equipment slots on which releasing it equips it.
pub proof fn lemma_drag_highlight_matches_drop(source: CursorPos, target: CursorPos, view: InventoryView)
    requires
        view.wf(),
        valid_cursor(source),
        valid_cursor(target),
        source.section == Section::Backpack,
        target.section == Section::Equipment,
        view.backpack@[source.index as int] matches Some(item) && item.info is Some,
    ensures
        ({
            let info = view.backpack@[source.index as int]->0.info->0;
            spec_resolve_drag(source, target, view) is Some <==> spec_valid_drop_slots(
                info,
                source.section,
                view.layout@,
            ).contains(target.index as int)
        }),
{
}

} // verus!
