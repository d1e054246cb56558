use delve_game::ramps::{
    build_ramp_info, is_wall_at, landing_cell, opposite, ramp_top_cells, top_cell_side_offsets, Facing,
    RampCellInfo, RampInstance, RampStyle,
};

fn grid(rows: &[&str]) -> Vec<String> {
    rows.iter().map(|row| row.to_string()).collect()
}

fn ramp(col: i64, row: i64, facing: Facing) -> RampInstance {
    RampInstance { col, row, facing, style: RampStyle::Ramp }
}

#[test]
fn is_wall_at_is_true_out_of_bounds() {
    let grid = grid(&["##", "##"]);
    let walkable = vec!['.'];
    let ramp_top_cells = Vec::new();
    assert!(is_wall_at(&grid, &walkable, -1, 0, &ramp_top_cells));
    assert!(is_wall_at(&grid, &walkable, 0, -1, &ramp_top_cells));
    assert!(is_wall_at(&grid, &walkable, 5, 0, &ramp_top_cells));
    assert!(is_wall_at(&grid, &walkable, 0, 5, &ramp_top_cells));
}

#[test]
fn is_wall_at_reads_the_walkable_set() {
    let grid = grid(&["#."]);
    let walkable = vec!['.'];
    let ramp_top_cells = Vec::new();
    assert!(is_wall_at(&grid, &walkable, 0, 0, &ramp_top_cells));
    assert!(!is_wall_at(&grid, &walkable, 1, 0, &ramp_top_cells));
}

#[test]
fn is_wall_at_excludes_another_ramps_top_cell_even_when_solid() {
    let grid = grid(&["#"]);
    let walkable = vec!['.'];
    let ramp_top_cells = vec![(0, 0)];
    assert!(!is_wall_at(&grid, &walkable, 0, 0, &ramp_top_cells));
}

#[test]
fn is_wall_at_counts_characters_not_bytes() {
    let grid = grid(&["é."]);
    let walkable = vec!['.'];
    assert!(!is_wall_at(&grid, &walkable, 1, 0, &Vec::new()));
    assert!(is_wall_at(&grid, &walkable, 2, 0, &Vec::new()));
}

#[test]
fn top_cell_side_offsets_are_perpendicular_to_facing() {
    assert_eq!(top_cell_side_offsets(Facing::N), ((-1, 0), (1, 0)));
    assert_eq!(top_cell_side_offsets(Facing::S), ((1, 0), (-1, 0)));
    assert_eq!(top_cell_side_offsets(Facing::E), ((0, -1), (0, 1)));
    assert_eq!(top_cell_side_offsets(Facing::W), ((0, 1), (0, -1)));
}

#[test]
fn facing_deltas_and_opposites() {
    assert_eq!(Facing::N.delta(), (0, -1));
    assert_eq!(Facing::S.delta(), (0, 1));
    assert_eq!(Facing::E.delta(), (1, 0));
    assert_eq!(Facing::W.delta(), (-1, 0));
    for facing in [Facing::N, Facing::E, Facing::S, Facing::W] {
        assert_eq!(opposite(opposite(facing)), facing);
        assert_ne!(opposite(facing), facing);
    }
}

#[test]
fn a_ramp_lands_one_step_along_its_facing() {
    assert_eq!(landing_cell(&ramp(4, 6, Facing::N)), (4, 5));
    assert_eq!(landing_cell(&ramp(4, 6, Facing::W)), (3, 6));
    assert_eq!(ramp_top_cells(&vec![ramp(4, 6, Facing::S), ramp(0, 0, Facing::E)]), vec![(4, 7), (1, 0)]);
}

#[test]
fn a_ramp_opens_its_own_cells_ceiling_and_the_wall_it_climbs_out_of() {
    let cells = build_ramp_info(&vec![ramp(4, 6, Facing::N)], &vec![]);
    let base = cells.get(4, 6).unwrap();
    assert_eq!(base.suppressed_walls, vec![Facing::N]);
    assert!(base.skip_ceiling);
    assert_eq!(base.keep_floor_half, None);
    assert_eq!(base.keep_wall_half, None);
}

#[test]
fn a_landing_on_the_ramps_own_layer_keeps_the_wall_halves_past_the_climb() {
    let cells = build_ramp_info(&vec![ramp(4, 6, Facing::N)], &vec![]);
    let landing = cells.get(4, 5).unwrap();
    assert_eq!(landing.suppressed_walls, vec![Facing::S]);
    assert_eq!(landing.keep_wall_half, Some(Facing::N));
    assert!(!landing.skip_ceiling);
    assert_eq!(landing.keep_floor_half, None);
}

#[test]
fn the_cells_flanking_a_landing_halve_the_wall_they_turn_toward_it() {
    let climbing_north = build_ramp_info(&vec![ramp(4, 6, Facing::N)], &vec![]);
    assert_eq!(climbing_north.get(5, 5).unwrap().wall_half(Facing::W), Some(Facing::N));
    assert_eq!(climbing_north.get(3, 5).unwrap().wall_half(Facing::E), Some(Facing::N));

    let climbing_east = build_ramp_info(&vec![ramp(4, 6, Facing::E)], &vec![]);
    assert_eq!(climbing_east.get(5, 7).unwrap().wall_half(Facing::N), Some(Facing::E));
    assert_eq!(climbing_east.get(5, 5).unwrap().wall_half(Facing::S), Some(Facing::E));
}

#[test]
fn a_ramp_from_the_layer_below_halves_the_floor_it_lands_on() {
    let cells = build_ramp_info(&vec![], &vec![ramp(4, 6, Facing::N)]);
    let landing = cells.get(4, 5).unwrap();
    assert_eq!(landing.keep_floor_half, Some(Facing::N));
    assert_eq!(landing.suppressed_walls, vec![Facing::S]);
    assert_eq!(landing.keep_wall_half, None, "only a ramp on this layer halves a landing's walls");
    assert!(!cells.contains(4, 6), "the cell over the ramp's base is ordinary geometry");
}

#[test]
fn each_facing_halves_the_landing_one_step_ahead_of_it() {
    for (facing, landing_col, landing_row) in
        [(Facing::N, 4, 5), (Facing::S, 4, 7), (Facing::E, 5, 6), (Facing::W, 3, 6)]
    {
        let cells = build_ramp_info(&vec![], &vec![ramp(4, 6, facing)]);
        assert_eq!(cells.get(landing_col, landing_row).unwrap().keep_floor_half, Some(facing));
    }
}

#[test]
fn a_ramp_starting_where_the_one_below_lands_merges_both_roles() {
    let cells = build_ramp_info(&vec![ramp(3, 1, Facing::E)], &vec![ramp(2, 1, Facing::E)]);
    let shared = cells.get(3, 1).unwrap();
    assert!(shared.skip_ceiling);
    assert_eq!(shared.suppressed_walls, vec![Facing::E, Facing::W]);
    assert_eq!(shared.keep_floor_half, Some(Facing::E));
    assert_eq!(shared.keep_wall_half, None);
}

#[test]
fn wall_half_prefers_a_per_face_override_over_the_cell_wide_keep() {
    let info = RampCellInfo {
        keep_wall_half: Some(Facing::N),
        wall_half_overrides: vec![(Facing::E, Facing::S)],
        ..Default::default()
    };
    assert_eq!(info.wall_half(Facing::E), Some(Facing::S));
    assert_eq!(info.wall_half(Facing::W), Some(Facing::N));
}

#[test]
fn a_cell_wide_keep_halves_only_the_two_faces_perpendicular_to_it() {
    let keeping_north = RampCellInfo { keep_wall_half: Some(Facing::N), ..Default::default() };
    assert_eq!(keeping_north.wall_half(Facing::E), Some(Facing::N));
    assert_eq!(keeping_north.wall_half(Facing::W), Some(Facing::N));
    assert_eq!(keeping_north.wall_half(Facing::N), None);
    assert_eq!(keeping_north.wall_half(Facing::S), None);

    let keeping_east = RampCellInfo { keep_wall_half: Some(Facing::E), ..Default::default() };
    assert_eq!(keeping_east.wall_half(Facing::N), Some(Facing::E));
    assert_eq!(keeping_east.wall_half(Facing::S), Some(Facing::E));
    assert_eq!(keeping_east.wall_half(Facing::E), None);
    assert_eq!(keeping_east.wall_half(Facing::W), None);
}

#[test]
fn a_cell_no_ramp_reaches_has_no_entry_at_all() {
    assert!(build_ramp_info(&vec![], &vec![]).is_empty());
}

#[test]
fn one_ramp_reaches_exactly_four_cells() {
    let cells = build_ramp_info(&vec![ramp(4, 6, Facing::N)], &vec![]);
    assert_eq!(cells.len(), 4);
    for (col, row) in [(4, 6), (4, 5), (5, 5), (3, 5)] {
        assert!(cells.contains(col, row));
    }
    assert!(!cells.contains(4, 4));
}

#[test]
fn the_first_ramp_landing_in_a_cell_decides_its_wall_half() {
    // Two ramps on this layer land in (4, 5): one climbing north from
    // (4, 6) and one climbing east from (3, 5).
    let cells = build_ramp_info(&vec![ramp(4, 6, Facing::N), ramp(3, 5, Facing::E)], &vec![]);
    let landing = cells.get(4, 5).unwrap();
    assert_eq!(landing.keep_wall_half, Some(Facing::N));
    assert_eq!(landing.suppressed_walls, vec![Facing::S, Facing::W]);
}

#[test]
fn the_last_ramp_flanking_a_cell_decides_its_override() {
    // Both ramps make the west face of (5, 5) a flank wall.
    let cells = build_ramp_info(&vec![ramp(4, 6, Facing::N), ramp(4, 4, Facing::S)], &vec![]);
    assert_eq!(cells.get(5, 5).unwrap().wall_half(Facing::W), Some(Facing::S));
}
