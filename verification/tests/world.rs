use delve_game::fixtures::{is_wall_neighbor, mount_wall, side_offsets};
use delve_game::inventory::EquipSlot;
use delve_game::layers::{compute_landing_layer, detect_ramp_crossing, is_hole_below, is_ramp_accessible, is_solid_floor_char, CharDef};
use delve_game::movement::{debug_step, falls_through, plan_move, Command, CommandQueue};
use delve_game::overlay::{blocked, paused, ActiveOverlay};
use delve_game::ramps::{Facing, RampInstance, RampStyle};
use delve_game::tooltip::{get_quality_color, subtype_to_equip_slot_for_comparison, ItemQuality, ItemSubtype};
use delve_game::zones::{forest_zone_index, Environment, LevelZones, ZoneCell};

fn grid(rows: &[&str]) -> Vec<String> {
    rows.iter().map(|row| row.to_string()).collect()
}

fn ramp(col: i64, row: i64, facing: Facing) -> RampInstance {
    RampInstance { col, row, facing, style: RampStyle::Stairs }
}

#[test]
fn overlays_block_gameplay_and_pause_ticks() {
    assert!(!blocked(false, ActiveOverlay::NoOverlay));
    assert!(blocked(true, ActiveOverlay::NoOverlay));
    assert!(blocked(false, ActiveOverlay::QuestLog));
    assert!(!paused(ActiveOverlay::NoOverlay));
    assert!(paused(ActiveOverlay::Trading));
    assert!(ActiveOverlay::CharCreation.is_open());
}

#[test]
fn quality_colors_cover_every_variant() {
    let rgb = |q| {
        let c = get_quality_color(q);
        (c.red, c.green, c.blue)
    };
    assert_eq!(rgb(ItemQuality::Poor), (0x99, 0x99, 0x99));
    assert_eq!(rgb(ItemQuality::Common), (0xcc, 0xcc, 0xcc));
    assert_eq!(rgb(ItemQuality::Fine), (0x44, 0xcc, 0x44));
    assert_eq!(rgb(ItemQuality::Masterwork), (0x4a, 0x9e, 0xff));
    assert_eq!(rgb(ItemQuality::Enchanted), (0xc8, 0x44, 0xcc));
}

#[test]
fn rings_always_compare_against_the_first_ring_slot() {
    assert_eq!(subtype_to_equip_slot_for_comparison(ItemSubtype::Ring), EquipSlot::Ring1);
    assert_eq!(subtype_to_equip_slot_for_comparison(ItemSubtype::Axe), EquipSlot::Weapon);
    assert_eq!(subtype_to_equip_slot_for_comparison(ItemSubtype::Feet), EquipSlot::Feet);
    assert_eq!(subtype_to_equip_slot_for_comparison(ItemSubtype::HealthPotion), EquipSlot::Weapon);
}

#[test]
fn forest_zone_index_finds_the_levels_default_environment() {
    let zones = vec![Environment::Dungeon, Environment::Outdoor];
    assert_eq!(forest_zone_index(&zones, Environment::Outdoor), 2);
}

#[test]
fn forest_zone_index_falls_back_to_one_when_the_default_environment_is_absent() {
    let zones = vec![Environment::Dungeon, Environment::Mist];
    assert_eq!(forest_zone_index(&zones, Environment::Outdoor), 1);
}

#[test]
fn zone_at_reads_the_layers_own_cells() {
    let zones = LevelZones {
        zones: vec![Environment::Outdoor, Environment::Dungeon],
        multi_zone: true,
        by_layer: vec![vec![ZoneCell { col: 0, row: 0, zone: 1 }, ZoneCell { col: 3, row: 4, zone: 2 }], vec![]],
    };
    assert_eq!(zones.zone_at(0, 3, 4), Some(2));
    assert_eq!(zones.zone_at(0, 4, 3), None);
    assert_eq!(zones.zone_at(1, 0, 0), None);
    assert_eq!(zones.zone_at(7, 0, 0), None);
}

#[test]
fn solid_floor_is_a_hash_or_a_solid_opaque_definition() {
    let defs = vec![
        CharDef { character: 'B', solid: true, see_through: None },
        CharDef { character: 'G', solid: true, see_through: Some(true) },
        CharDef { character: 'B', solid: false, see_through: None },
    ];
    assert!(is_solid_floor_char('#', &defs));
    assert!(is_solid_floor_char('B', &defs));
    assert!(!is_solid_floor_char('G', &defs));
    assert!(!is_solid_floor_char('.', &defs));
}

#[test]
fn holes_and_landings_read_the_layers_below() {
    let layers = vec![grid(&["##", "##"]), grid(&["#.", "##"]), grid(&["..", ".."])];
    let defs = Vec::new();
    assert!(!is_hole_below(&layers, &defs, 0, 1, 0));
    assert!(is_hole_below(&layers, &defs, 2, 1, 0));
    assert!(!is_hole_below(&layers, &defs, 2, 0, 0));
    assert!(!is_hole_below(&layers, &defs, 2, 9, 0));
    // From layer 3 at (1, 0): layer 2's floor (layer 1) is open there, so
    // the fall continues to layer 1, whose floor (layer 0) is solid.
    assert_eq!(compute_landing_layer(&layers, &defs, 3, 1, 0), 1);
    assert_eq!(compute_landing_layer(&layers, &defs, 3, 0, 0), 2);
    assert_eq!(compute_landing_layer(&layers, &defs, 1, 0, 0), 0);
    assert_eq!(compute_landing_layer(&layers, &defs, 0, 0, 0), 0);
}

#[test]
fn walking_up_a_ramp_and_back_down_crosses_layers() {
    let lower = vec![ramp(2, 3, Facing::N)];
    let upper: Vec<RampInstance> = Vec::new();
    assert_eq!(detect_ramp_crossing(&lower, None, Some(3), 0, 2, 3, 2, 2), Some(1));
    assert_eq!(detect_ramp_crossing(&upper, Some(&lower), Some(3), 1, 2, 2, 2, 3), Some(0));
    // Sideways off the base cell, or with no layer above, is no crossing.
    assert_eq!(detect_ramp_crossing(&lower, None, Some(3), 0, 2, 3, 3, 3), None);
    assert_eq!(detect_ramp_crossing(&lower, None, Some(1), 0, 2, 3, 2, 2), None);
    assert_eq!(detect_ramp_crossing(&lower, None, None, 0, 2, 3, 2, 2), None);
}

#[test]
fn commands_queue_in_order_up_to_three() {
    let mut queue = CommandQueue::new();
    queue.enqueue(Command::Forward);
    queue.enqueue(Command::TurnLeft);
    queue.enqueue(Command::Back);
    queue.enqueue(Command::StrafeRight);
    assert_eq!(queue.len(), 3);
    assert_eq!(queue.pop_front(), Some(Command::Forward));
    assert_eq!(queue.pop_front(), Some(Command::TurnLeft));
    assert_eq!(queue.pop_front(), Some(Command::Back));
    assert_eq!(queue.pop_front(), None);
    queue.enqueue(Command::TurnRight);
    queue.clear();
    assert_eq!(queue.len(), 0);
}

#[test]
fn no_clip_steps_stay_inside_the_grid() {
    let g = grid(&["####", "##"]);
    assert_eq!(debug_step(&g, 0, 0, (1, 0)), Some((1, 0)));
    assert_eq!(debug_step(&g, 3, 1, (0, -1)), Some((3, 0)));
    assert_eq!(debug_step(&g, 3, 0, (1, 0)), None);
    assert_eq!(debug_step(&g, 0, 1, (0, 1)), None);
    assert_eq!(debug_step(&g, 0, 0, (-1, 0)), None);
}

#[test]
fn stairwell_sides_and_walls() {
    assert_eq!(side_offsets(Facing::S), ((-1, 0), (1, 0)));
    assert_eq!(side_offsets(Facing::N), ((1, 0), (-1, 0)));
    assert_eq!(side_offsets(Facing::E), ((0, -1), (0, 1)));
    assert_eq!(side_offsets(Facing::W), ((0, 1), (0, -1)));
    let g = grid(&["#.", ".."]);
    let walkable = vec!['.'];
    assert!(is_wall_neighbor(&g, &walkable, 0, 0));
    assert!(!is_wall_neighbor(&g, &walkable, 1, 0));
    assert!(is_wall_neighbor(&g, &walkable, -1, 0));
    assert!(is_wall_neighbor(&g, &walkable, 0, 2));
}

#[test]
fn mount_wall_is_the_wall_behind_the_firing_direction() {
    assert_eq!(mount_wall(Facing::N), Facing::S);
    assert_eq!(mount_wall(Facing::S), Facing::N);
    assert_eq!(mount_wall(Facing::E), Facing::W);
    assert_eq!(mount_wall(Facing::W), Facing::E);
}

use delve_game::overlay::{quick_slot, toggle_overlay};

#[test]
fn toggle_keys_open_and_close_their_overlay() {
    let open = toggle_overlay(ActiveOverlay::NoOverlay, ActiveOverlay::QuestLog, false, true, false);
    assert_eq!(open, ActiveOverlay::QuestLog);
    assert_eq!(toggle_overlay(open, ActiveOverlay::QuestLog, false, true, false), ActiveOverlay::NoOverlay);
    assert_eq!(toggle_overlay(open, ActiveOverlay::QuestLog, false, false, true), ActiveOverlay::NoOverlay);
    assert_eq!(toggle_overlay(open, ActiveOverlay::QuestLog, false, false, false), ActiveOverlay::QuestLog);
    assert_eq!(toggle_overlay(ActiveOverlay::NoOverlay, ActiveOverlay::StatsPanel, true, true, false), ActiveOverlay::NoOverlay);
    assert_eq!(toggle_overlay(ActiveOverlay::Dialog, ActiveOverlay::StatsPanel, false, true, false), ActiveOverlay::Dialog);
}

#[test]
fn the_first_pressed_digit_picks_the_quick_slot() {
    let mut pressed = [false; 8];
    assert_eq!(quick_slot(false, &pressed), None);
    pressed[5] = true;
    pressed[2] = true;
    assert_eq!(quick_slot(false, &pressed), Some(2));
    assert_eq!(quick_slot(true, &pressed), None);
}

#[test]
fn ramp_edges_are_passable_only_along_the_ramp() {
    let lower = vec![ramp(2, 3, Facing::N)];
    let upper: Vec<RampInstance> = Vec::new();
    // Up the ramp from its base, facing north.
    assert!(is_ramp_accessible(&lower, None, 0, 2, 3, 2, 2));
    // Sideways off the base is no ramp move.
    assert!(!is_ramp_accessible(&lower, None, 0, 2, 3, 3, 3));
    // Back down from the top, on the layer above.
    assert!(is_ramp_accessible(&upper, Some(&lower), 1, 2, 2, 2, 3));
    // Down from the top in the wrong direction.
    assert!(!is_ramp_accessible(&upper, Some(&lower), 1, 2, 2, 2, 1));
    // The ground floor has no layer below to descend to.
    assert!(!is_ramp_accessible(&upper, Some(&lower), 0, 2, 2, 2, 3));
    // Unlike a crossing, the check does not ask whether a layer above exists.
    assert!(is_ramp_accessible(&lower, None, 0, 2, 3, 2, 2));
    assert_eq!(detect_ramp_crossing(&lower, None, Some(1), 0, 2, 3, 2, 2), None);
}

#[test]
fn a_turn_in_place_only_reveals() {
    assert!(plan_move((2, 3, Facing::N), (2, 3, Facing::N), true).is_none());
    let turn = plan_move((2, 3, Facing::N), (2, 3, Facing::E), true).unwrap();
    assert!(!turn.moved && !turn.step_effects && !turn.force_open_door);
    assert_eq!(turn.left_cell, None);
    assert_eq!(turn.reveal, (2, 3, Facing::E));
    let step = plan_move((2, 3, Facing::N), (2, 2, Facing::N), true).unwrap();
    assert!(step.moved && step.step_effects && step.force_open_door);
    assert_eq!(step.left_cell, Some((2, 3)));
    assert_eq!(step.reveal, (2, 2, Facing::N));
}

#[test]
fn only_upper_layers_have_holes_to_fall_through() {
    assert!(!falls_through(0, true, true));
    assert!(falls_through(1, true, false));
    assert!(falls_through(2, false, true));
    assert!(!falls_through(2, false, false));
}
