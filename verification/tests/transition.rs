use delve_game::ramps::Facing;
use delve_game::snapshots::LevelSnapshots;
use delve_game::transition::{
    active_layer_grid, arrival_pose, parse_wall_key, replay_destroyed_walls, restart_level, LevelEntry,
    PendingAction, Phase, Transition,
};

fn grid(rows: &[&str]) -> Vec<String> {
    rows.iter().map(|row| row.to_string()).collect()
}

#[test]
fn a_transition_runs_fade_out_swap_fade_in() {
    let mut transition: Transition<u32> = Transition::new();
    assert!(!transition.is_active());
    transition.begin_stair("stairs_down".to_string());
    assert_eq!(transition.phase(), Phase::FadeOut);
    assert!(transition.is_active());
    assert!(transition.take_swap_action().is_none());
    transition.fade_out_finished();
    assert_eq!(transition.phase(), Phase::Swap);
    match transition.take_swap_action() {
        Some(PendingAction::Stair(id)) => assert_eq!(id, "stairs_down"),
        _ => panic!("expected the stair action"),
    }
    assert_eq!(transition.phase(), Phase::FadeIn);
    assert!(transition.take_swap_action().is_none());
    transition.fade_in_finished();
    assert_eq!(transition.phase(), Phase::Idle);
    assert!(!transition.is_active());
}

#[test]
fn starting_a_transition_while_one_runs_is_ignored() {
    let mut transition: Transition<u32> = Transition::new();
    transition.begin_restart();
    transition.begin_load(7);
    transition.begin_stair("other".to_string());
    transition.fade_out_finished();
    assert!(matches!(transition.take_swap_action(), Some(PendingAction::Restart)));
}

#[test]
fn a_load_carries_its_save_through_the_fade() {
    let mut transition: Transition<String> = Transition::new();
    transition.begin_load("slot 2".to_string());
    transition.fade_in_finished();
    assert_eq!(transition.phase(), Phase::FadeOut);
    transition.fade_out_finished();
    match transition.take_swap_action() {
        Some(PendingAction::Load(data)) => assert_eq!(data, "slot 2"),
        _ => panic!("expected the load action"),
    }
}

#[test]
fn wall_keys_parse_as_col_then_row() {
    assert_eq!(parse_wall_key("3,7"), Some((3, 7)));
    assert_eq!(parse_wall_key("+3,07"), Some((3, 7)));
    assert_eq!(parse_wall_key("3;7"), None);
    assert_eq!(parse_wall_key("3,"), None);
    assert_eq!(parse_wall_key(",7"), None);
    assert_eq!(parse_wall_key("-3,7"), None);
    assert_eq!(parse_wall_key("3,7,9"), None);
    assert_eq!(parse_wall_key("99999999999999999999999,1"), None);
}

#[test]
fn replaying_destroyed_walls_opens_their_cells() {
    let mut g = grid(&["####", "#S#.", "####"]);
    replay_destroyed_walls(&vec!["1,1".to_string(), "0,2".to_string()], &mut g);
    assert_eq!(g, grid(&["####", "#.#.", ".###"]));
}

#[test]
fn replaying_ignores_malformed_and_out_of_grid_keys() {
    let mut g = grid(&["##", "##"]);
    let keys = vec!["5,0".to_string(), "0,9".to_string(), "garbage".to_string(), "1,x".to_string()];
    replay_destroyed_walls(&keys, &mut g);
    assert_eq!(g, grid(&["##", "##"]));
}

#[test]
fn replaying_twice_changes_nothing_more() {
    let keys = vec!["1,0".to_string()];
    let mut once = grid(&["###"]);
    replay_destroyed_walls(&keys, &mut once);
    let mut twice = once.clone();
    replay_destroyed_walls(&keys, &mut twice);
    assert_eq!(once, twice);
    assert_eq!(once, grid(&["#.#"]));
}

#[test]
fn the_active_layers_grid_wins_over_the_level_wide_copy() {
    let level_grid = grid(&["#.#"]);
    let layers = vec![grid(&["#.#"]), grid(&["...", "###"])];
    assert_eq!(active_layer_grid(&level_grid, &layers, 1), layers[1]);
    assert_ne!(active_layer_grid(&level_grid, &layers, 1), level_grid);
}

#[test]
fn a_missing_layer_falls_back_to_the_level_wide_grid() {
    let level_grid = grid(&["#.#"]);
    let layers = vec![grid(&["..."])];
    assert_eq!(active_layer_grid(&level_grid, &layers, 99), level_grid);
}

#[test]
fn written_wall_keys_parse_back() {
    for (col, row) in [(0usize, 0usize), (7, 12), (123, 4567), (usize::MAX, 1)] {
        assert_eq!(parse_wall_key(&format!("{col},{row}")), Some((col, row)));
    }
}

fn level(id: Option<&str>, name: &str) -> LevelEntry {
    LevelEntry { id: id.map(|id| id.to_string()), name: name.to_string() }
}

#[test]
fn a_restart_begins_on_the_start_level() {
    let levels = vec![level(Some("cellar"), "Cellar"), level(Some("hall"), "Hall"), level(Some("hall"), "Hall 2")];
    assert_eq!(restart_level(&levels, "hall"), Some((1, "hall".to_string())));
}

#[test]
fn a_restart_falls_back_to_the_first_level() {
    let levels = vec![level(None, "Entrance"), level(Some("hall"), "Hall")];
    assert_eq!(restart_level(&levels, "missing"), Some((0, "Entrance".to_string())));
    assert_eq!(restart_level(&Vec::new(), "hall"), None);
}

#[test]
fn arriving_by_stair_steps_off_it_keeping_the_facing() {
    assert_eq!(arrival_pose(4, 7, Facing::S, Facing::W), (4, 8, Facing::W));
    assert_eq!(arrival_pose(4, 7, Facing::E, Facing::N), (5, 7, Facing::N));
}

#[test]
fn a_left_level_is_restored_from_its_snapshot() {
    let mut snapshots: LevelSnapshots<u32> = LevelSnapshots::new();
    assert_eq!(snapshots.get("cellar"), None);
    snapshots.save("cellar".to_string(), 1);
    snapshots.save("hall".to_string(), 2);
    snapshots.save("cellar".to_string(), 3);
    assert_eq!(snapshots.get("cellar"), Some(&3));
    assert_eq!(snapshots.get("hall"), Some(&2));
    assert_eq!(snapshots.get("attic"), None);
    snapshots.clear();
    assert_eq!(snapshots.get("hall"), None);
}
