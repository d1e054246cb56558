use delve_game::inventory::{
    backpack_origin, equip_origin, handle_drop, handle_enter, hit_test, move_down, move_left, move_right,
    move_up, resolve_drag, valid_equip_slots_for_drag, BackpackItem, CursorPos, EquipSlot, HudSize,
    InventoryAction, InventoryView, ItemInfo, Section,
};

const HUD: HudSize = HudSize { width: 640, height: 400 };

fn layout() -> Vec<EquipSlot> {
    vec![
        EquipSlot::Weapon,
        EquipSlot::Head,
        EquipSlot::Chest,
        EquipSlot::Legs,
        EquipSlot::Hands,
        EquipSlot::Feet,
        EquipSlot::Shield,
        EquipSlot::Ring1,
        EquipSlot::Ring2,
        EquipSlot::Amulet,
    ]
}

fn slot_index(slot: EquipSlot) -> usize {
    layout().iter().position(|s| *s == slot).unwrap()
}

fn sword() -> ItemInfo {
    ItemInfo { consumable: false, is_ring: false, home_slot: EquipSlot::Weapon }
}

fn potion() -> ItemInfo {
    ItemInfo { consumable: true, is_ring: false, home_slot: EquipSlot::Weapon }
}

fn ring() -> ItemInfo {
    ItemInfo { consumable: false, is_ring: true, home_slot: EquipSlot::Ring1 }
}

fn empty_view() -> InventoryView {
    InventoryView { layout: layout(), equipped: vec![None; 10], backpack: vec![None; 12] }
}

fn stash(view: &mut InventoryView, id: &str, info: ItemInfo, slot: usize) {
    view.backpack[slot] = Some(BackpackItem { instance_id: id.to_string(), info: Some(info) });
}

fn equip(view: &mut InventoryView, id: &str, slot: EquipSlot) {
    view.equipped[slot_index(slot)] = Some(id.to_string());
}

fn pos(section: Section, index: usize) -> CursorPos {
    CursorPos { section, index }
}

#[test]
fn arrow_right_stops_at_equipment_row_edge() {
    let mut cursor = pos(Section::Equipment, 0);
    for _ in 0..4 {
        cursor = move_right(cursor);
    }
    assert_eq!(cursor.index, 4);
    assert_eq!(move_right(cursor), cursor);
}

#[test]
fn arrow_left_is_noop_at_leftmost_column() {
    let cursor = pos(Section::Equipment, 0);
    assert_eq!(move_left(cursor), cursor);
}

#[test]
fn arrow_down_from_equipment_row0_then_row1_reaches_backpack() {
    let row1 = move_down(pos(Section::Equipment, 0));
    assert_eq!(row1.section, Section::Equipment);
    assert_eq!(row1.index, 5);
    let backpack = move_down(row1);
    assert_eq!(backpack.section, Section::Backpack);
    assert_eq!(backpack.index, 0);
}

#[test]
fn arrow_up_from_equipment_row0_is_noop() {
    let cursor = pos(Section::Equipment, 2);
    assert_eq!(move_up(cursor), cursor);
}

#[test]
fn arrow_up_from_backpack_row0_jumps_to_equipment_row1() {
    let equip = move_up(pos(Section::Backpack, 2));
    assert_eq!(equip.section, Section::Equipment);
    assert_eq!(equip.index, 5 + 2);
}

#[test]
fn arrow_down_stops_at_backpack_last_row() {
    let cursor = pos(Section::Backpack, 9);
    assert_eq!(move_down(cursor), cursor);
}

#[test]
fn arrow_down_from_last_equipment_column_clamps_to_backpack_edge() {
    assert_eq!(move_down(pos(Section::Equipment, 9)), pos(Section::Backpack, 3));
}

#[test]
fn arrow_left_then_right_returns_to_the_same_slot() {
    let start = pos(Section::Backpack, 6);
    assert_eq!(move_right(move_left(start)), start);
}

#[test]
fn hit_test_finds_equipment_slot_zero() {
    let (x, y) = equip_origin(HUD);
    assert_eq!(hit_test(HUD, x + 1, y + 1), Some(pos(Section::Equipment, 0)));
}

#[test]
fn hit_test_finds_backpack_slot_zero() {
    let (x, y) = backpack_origin(HUD);
    assert_eq!(hit_test(HUD, x + 1, y + 1), Some(pos(Section::Backpack, 0)));
}

#[test]
fn hit_test_returns_none_off_any_slot() {
    assert_eq!(hit_test(HUD, 0, 0), None);
}

#[test]
fn grid_origins_match_the_panel_layout() {
    // Panel at ((640 - 460) / 2, (400 - 310) / 2) = (90, 45).
    assert_eq!(equip_origin(HUD), (90 + 152, 45 + 44));
    assert_eq!(backpack_origin(HUD), (90 + 168, 45 + 124));
}

#[test]
fn hit_test_misses_the_gap_between_slots() {
    let (x, y) = equip_origin(HUD);
    assert_eq!(hit_test(HUD, x + 28, y + 1), None);
    assert_eq!(hit_test(HUD, x + 32, y + 1), Some(pos(Section::Equipment, 1)));
}

#[test]
fn enter_on_backpack_weapon_returns_equip_at_sorted_position() {
    let mut view = empty_view();
    stash(&mut view, "sword#1", sword(), 3);
    assert_eq!(
        handle_enter(pos(Section::Backpack, 3), &view),
        Some(InventoryAction::Equip { backpack_slot: 0, equip_slot: EquipSlot::Weapon })
    );
}

#[test]
fn enter_counts_only_occupied_slots_before_the_cursor() {
    let mut view = empty_view();
    stash(&mut view, "potion#1", potion(), 1);
    stash(&mut view, "potion#2", potion(), 2);
    stash(&mut view, "sword#1", sword(), 7);
    assert_eq!(
        handle_enter(pos(Section::Backpack, 7), &view),
        Some(InventoryAction::Equip { backpack_slot: 2, equip_slot: EquipSlot::Weapon })
    );
}

#[test]
fn enter_on_backpack_consumable_returns_use() {
    let mut view = empty_view();
    stash(&mut view, "potion#1", potion(), 0);
    assert_eq!(
        handle_enter(pos(Section::Backpack, 0), &view),
        Some(InventoryAction::Use { backpack_slot: 0 })
    );
}

#[test]
fn enter_on_empty_backpack_slot_is_none() {
    assert_eq!(handle_enter(pos(Section::Backpack, 0), &empty_view()), None);
}

#[test]
fn enter_on_unknown_backpack_item_is_none() {
    let mut view = empty_view();
    view.backpack[0] = Some(BackpackItem { instance_id: "mystery".to_string(), info: None });
    assert_eq!(handle_enter(pos(Section::Backpack, 0), &view), None);
}

#[test]
fn enter_on_occupied_equipment_slot_returns_unequip() {
    let mut view = empty_view();
    equip(&mut view, "sword#1", EquipSlot::Weapon);
    assert_eq!(
        handle_enter(pos(Section::Equipment, 0), &view),
        Some(InventoryAction::Unequip { equip_slot: EquipSlot::Weapon, backpack_slot: 0 })
    );
}

#[test]
fn enter_on_empty_equipment_slot_is_none() {
    assert_eq!(handle_enter(pos(Section::Equipment, 0), &empty_view()), None);
}

#[test]
fn enter_unequip_with_full_backpack_returns_message() {
    let mut view = empty_view();
    equip(&mut view, "sword#1", EquipSlot::Weapon);
    for slot in 0..12 {
        stash(&mut view, "potion", potion(), slot);
    }
    let action = handle_enter(pos(Section::Equipment, 0), &view).unwrap();
    assert_eq!(action, InventoryAction::Message { text: "Backpack is full".to_string() });
}

#[test]
fn enter_unequip_goes_to_the_first_free_slot() {
    let mut view = empty_view();
    equip(&mut view, "helm#1", EquipSlot::Head);
    stash(&mut view, "potion#1", potion(), 0);
    stash(&mut view, "potion#2", potion(), 1);
    assert_eq!(
        handle_enter(pos(Section::Equipment, 1), &view),
        Some(InventoryAction::Unequip { equip_slot: EquipSlot::Head, backpack_slot: 2 })
    );
}

#[test]
fn drop_on_equipped_item_carries_player_position() {
    let mut view = empty_view();
    equip(&mut view, "sword#7", EquipSlot::Weapon);
    assert_eq!(
        handle_drop(pos(Section::Equipment, 0), &view, 3, 5),
        Some(InventoryAction::Drop { instance_id: "sword#7".to_string(), col: 3, row: 5 })
    );
}

#[test]
fn drop_on_backpack_item_carries_its_instance() {
    let mut view = empty_view();
    stash(&mut view, "potion#3", potion(), 5);
    assert_eq!(
        handle_drop(pos(Section::Backpack, 5), &view, -2, 9),
        Some(InventoryAction::Drop { instance_id: "potion#3".to_string(), col: -2, row: 9 })
    );
}

#[test]
fn drop_on_empty_equipment_slot_is_none() {
    assert_eq!(handle_drop(pos(Section::Equipment, 0), &empty_view(), 1, 1), None);
}

#[test]
fn drag_same_slot_is_noop() {
    let p = pos(Section::Backpack, 0);
    assert_eq!(resolve_drag(p, p, &empty_view()), None);
}

#[test]
fn drag_backpack_to_correct_equipment_slot_equips() {
    let mut view = empty_view();
    stash(&mut view, "sword#1", sword(), 2);
    assert_eq!(
        resolve_drag(pos(Section::Backpack, 2), pos(Section::Equipment, 0), &view),
        Some(InventoryAction::Equip { backpack_slot: 0, equip_slot: EquipSlot::Weapon })
    );
}

#[test]
fn drag_backpack_to_wrong_equipment_slot_is_noop() {
    let mut view = empty_view();
    stash(&mut view, "sword#1", sword(), 0);
    assert_eq!(resolve_drag(pos(Section::Backpack, 0), pos(Section::Equipment, 1), &view), None);
}

#[test]
fn drag_consumable_to_equipment_is_rejected() {
    let mut view = empty_view();
    stash(&mut view, "potion#1", potion(), 0);
    assert_eq!(resolve_drag(pos(Section::Backpack, 0), pos(Section::Equipment, 0), &view), None);
}

#[test]
fn drag_ring_to_ring1_when_ring1_free_equips() {
    let mut view = empty_view();
    stash(&mut view, "ring#1", ring(), 0);
    assert_eq!(
        resolve_drag(pos(Section::Backpack, 0), pos(Section::Equipment, slot_index(EquipSlot::Ring1)), &view),
        Some(InventoryAction::Equip { backpack_slot: 0, equip_slot: EquipSlot::Ring1 })
    );
}

#[test]
fn drag_ring_onto_free_ring2_equips_there_even_though_ring1_is_occupied() {
    let mut view = empty_view();
    equip(&mut view, "ring#0", EquipSlot::Ring1);
    // With the first ring slot taken, a fresh ring's default slot is the
    // second one.
    let mut second = ring();
    second.home_slot = EquipSlot::Ring2;
    stash(&mut view, "ring#1", second, 0);
    assert_eq!(
        resolve_drag(pos(Section::Backpack, 0), pos(Section::Equipment, slot_index(EquipSlot::Ring2)), &view),
        Some(InventoryAction::Equip { backpack_slot: 0, equip_slot: EquipSlot::Ring2 })
    );
}

#[test]
fn drag_equipment_to_empty_backpack_slot_unequips() {
    let mut view = empty_view();
    equip(&mut view, "sword#1", EquipSlot::Weapon);
    assert_eq!(
        resolve_drag(pos(Section::Equipment, 0), pos(Section::Backpack, 4), &view),
        Some(InventoryAction::Unequip { equip_slot: EquipSlot::Weapon, backpack_slot: 4 })
    );
}

#[test]
fn drag_equipment_to_occupied_backpack_slot_is_noop() {
    let mut view = empty_view();
    equip(&mut view, "sword#1", EquipSlot::Weapon);
    stash(&mut view, "potion#1", potion(), 4);
    assert_eq!(resolve_drag(pos(Section::Equipment, 0), pos(Section::Backpack, 4), &view), None);
}

#[test]
fn drag_backpack_to_backpack_always_swaps() {
    assert_eq!(
        resolve_drag(pos(Section::Backpack, 0), pos(Section::Backpack, 5), &empty_view()),
        Some(InventoryAction::Swap { index_a: 0, index_b: 5 })
    );
}

#[test]
fn drag_equipment_to_equipment_is_unsupported() {
    let mut view = empty_view();
    equip(&mut view, "sword#1", EquipSlot::Weapon);
    assert_eq!(resolve_drag(pos(Section::Equipment, 0), pos(Section::Equipment, 1), &view), None);
}

#[test]
fn valid_equip_slots_for_ring_include_both_ring_slots() {
    let slots = valid_equip_slots_for_drag(ring(), Section::Backpack, &layout());
    assert!(slots.contains(&slot_index(EquipSlot::Ring1)));
    assert!(slots.contains(&slot_index(EquipSlot::Ring2)));
    assert_eq!(slots.len(), 2);
}

#[test]
fn valid_equip_slots_for_a_sword_are_the_weapon_slot() {
    assert_eq!(valid_equip_slots_for_drag(sword(), Section::Backpack, &layout()), vec![0]);
}

#[test]
fn valid_equip_slots_empty_for_consumable() {
    assert!(valid_equip_slots_for_drag(potion(), Section::Backpack, &layout()).is_empty());
}

#[test]
fn valid_equip_slots_empty_when_dragging_from_equipment() {
    assert!(valid_equip_slots_for_drag(sword(), Section::Equipment, &layout()).is_empty());
}

#[test]
fn highlighted_slots_are_exactly_where_a_drop_equips() {
    let mut view = empty_view();
    stash(&mut view, "ring#1", ring(), 0);
    let highlighted = valid_equip_slots_for_drag(ring(), Section::Backpack, &layout());
    for index in 0..10 {
        let equips = resolve_drag(pos(Section::Backpack, 0), pos(Section::Equipment, index), &view).is_some();
        assert_eq!(equips, highlighted.contains(&index), "slot {index}");
    }
}

use delve_game::inventory::{inventory_keys_step, slot_origin, InventoryKeys};
use delve_game::overlay::ActiveOverlay;

fn no_keys() -> InventoryKeys {
    InventoryKeys { toggle: false, escape: false, left: false, right: false, up: false, down: false, enter: false, drop: false }
}

#[test]
fn the_i_key_opens_the_overlay_on_the_first_equipment_slot() {
    let mut cursor = pos(Section::Backpack, 7);
    let keys = InventoryKeys { toggle: true, ..no_keys() };
    let (overlay, action) = inventory_keys_step(ActiveOverlay::NoOverlay, false, &mut cursor, keys, &empty_view(), 0, 0);
    assert_eq!(overlay, ActiveOverlay::Inventory);
    assert_eq!(action, None);
    assert_eq!(cursor, pos(Section::Equipment, 0));
    let (blocked, _) = inventory_keys_step(ActiveOverlay::NoOverlay, true, &mut cursor, keys, &empty_view(), 0, 0);
    assert_eq!(blocked, ActiveOverlay::NoOverlay);
}

#[test]
fn escape_closes_the_open_overlay() {
    let mut cursor = pos(Section::Backpack, 3);
    let keys = InventoryKeys { escape: true, enter: true, ..no_keys() };
    let (overlay, action) = inventory_keys_step(ActiveOverlay::Inventory, false, &mut cursor, keys, &empty_view(), 0, 0);
    assert_eq!(overlay, ActiveOverlay::NoOverlay);
    assert_eq!(action, None);
    assert_eq!(cursor, pos(Section::Backpack, 3));
}

#[test]
fn arrows_move_before_enter_acts() {
    let mut view = empty_view();
    stash(&mut view, "potion#1", potion(), 1);
    let mut cursor = pos(Section::Backpack, 0);
    let keys = InventoryKeys { right: true, enter: true, drop: true, ..no_keys() };
    let (_, action) = inventory_keys_step(ActiveOverlay::Inventory, false, &mut cursor, keys, &view, 2, 2);
    assert_eq!(cursor, pos(Section::Backpack, 1));
    assert_eq!(action, Some(InventoryAction::Use { backpack_slot: 0 }));
}

#[test]
fn drop_acts_when_enter_did_nothing() {
    let mut view = empty_view();
    view.backpack[0] = Some(BackpackItem { instance_id: "mystery".to_string(), info: None });
    let mut cursor = pos(Section::Backpack, 0);
    let keys = InventoryKeys { enter: true, drop: true, ..no_keys() };
    let (_, action) = inventory_keys_step(ActiveOverlay::Inventory, false, &mut cursor, keys, &view, 4, -1);
    assert_eq!(action, Some(InventoryAction::Drop { instance_id: "mystery".to_string(), col: 4, row: -1 }));
}

#[test]
fn up_then_down_returns_inside_the_backpack() {
    for index in 0..12 {
        let start = pos(Section::Backpack, index);
        assert_eq!(move_down(move_up(start)), start);
    }
}

#[test]
fn every_slot_origin_hits_its_own_slot() {
    for (section, count) in [(Section::Equipment, 10), (Section::Backpack, 12)] {
        for index in 0..count {
            let (x, y) = slot_origin(HUD, pos(section, index));
            assert_eq!(hit_test(HUD, x, y), Some(pos(section, index)));
        }
    }
}
