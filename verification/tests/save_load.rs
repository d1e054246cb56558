use delve_game::calendar::{civil_from_days, format_timestamp};
use delve_game::numfmt::{decimal_chars, push_zero_padded};
use delve_game::overlay::ActiveOverlay;
use delve_game::save_load::{
    check_player_death, save_load_step, slot_info_line, slot_label, DeathResponse, SaveLoadKeys,
    SaveLoadOverlay, SlotMetadata,
};

const MANUAL_SLOTS: usize = 3;

fn keys() -> SaveLoadKeys {
    SaveLoadKeys {
        escape: false,
        up: false,
        down: false,
        save: false,
        delete: false,
        enter: false,
        restart: false,
    }
}

#[test]
fn escape_opens_the_modal_in_save_mode() {
    let mut state = SaveLoadOverlay { is_death: true, selected: 2 };
    let plan = save_load_step(
        ActiveOverlay::NoOverlay,
        false,
        &mut state,
        SaveLoadKeys { escape: true, ..keys() },
        MANUAL_SLOTS,
        true,
    );
    assert_eq!(plan.overlay, ActiveOverlay::SaveLoad);
    assert_eq!(state, SaveLoadOverlay { is_death: false, selected: 0 });
}

#[test]
fn escape_does_not_open_it_during_a_transition_or_over_another_overlay() {
    let mut state = SaveLoadOverlay { is_death: false, selected: 0 };
    let esc = SaveLoadKeys { escape: true, ..keys() };
    assert_eq!(save_load_step(ActiveOverlay::NoOverlay, true, &mut state, esc, MANUAL_SLOTS, true).overlay, ActiveOverlay::NoOverlay);
    assert_eq!(save_load_step(ActiveOverlay::Inventory, false, &mut state, esc, MANUAL_SLOTS, true).overlay, ActiveOverlay::Inventory);
}

#[test]
fn the_cursor_wraps_over_manual_slots_and_the_autosave() {
    let mut state = SaveLoadOverlay { is_death: false, selected: 0 };
    let up = SaveLoadKeys { up: true, ..keys() };
    save_load_step(ActiveOverlay::SaveLoad, false, &mut state, up, MANUAL_SLOTS, true);
    assert_eq!(state.selected, 3);
    let down = SaveLoadKeys { down: true, ..keys() };
    save_load_step(ActiveOverlay::SaveLoad, false, &mut state, down, MANUAL_SLOTS, true);
    assert_eq!(state.selected, 0);
}

#[test]
fn saving_targets_a_manual_slot_and_closes() {
    let mut state = SaveLoadOverlay { is_death: false, selected: 1 };
    let plan = save_load_step(ActiveOverlay::SaveLoad, false, &mut state, SaveLoadKeys { save: true, ..keys() }, MANUAL_SLOTS, true);
    assert_eq!(plan.save_slot, Some(1));
    assert_eq!(plan.overlay, ActiveOverlay::NoOverlay);
}

#[test]
fn the_autosave_slot_cannot_be_saved_into() {
    let mut state = SaveLoadOverlay { is_death: false, selected: 3 };
    let plan = save_load_step(ActiveOverlay::SaveLoad, false, &mut state, SaveLoadKeys { save: true, ..keys() }, MANUAL_SLOTS, true);
    assert_eq!(plan.save_slot, None);
    assert_eq!(plan.overlay, ActiveOverlay::SaveLoad);
}

#[test]
fn death_mode_hides_save_and_delete_but_offers_restart() {
    let mut state = SaveLoadOverlay { is_death: true, selected: 0 };
    let plan = save_load_step(
        ActiveOverlay::SaveLoad,
        false,
        &mut state,
        SaveLoadKeys { save: true, delete: true, restart: true, ..keys() },
        MANUAL_SLOTS,
        true,
    );
    assert_eq!(plan.save_slot, None);
    assert_eq!(plan.delete_slot, None);
    assert!(plan.restart);
    assert_eq!(plan.overlay, ActiveOverlay::NoOverlay);
}

#[test]
fn enter_loads_the_selected_slot_in_any_mode() {
    let mut state = SaveLoadOverlay { is_death: true, selected: 3 };
    let plan = save_load_step(ActiveOverlay::SaveLoad, false, &mut state, SaveLoadKeys { enter: true, ..keys() }, MANUAL_SLOTS, false);
    assert_eq!(plan.load_slot, Some(3));
    assert_eq!(plan.overlay, ActiveOverlay::NoOverlay);
}

#[test]
fn escape_closes_the_open_modal_even_in_death_mode() {
    let mut state = SaveLoadOverlay { is_death: true, selected: 2 };
    let plan = save_load_step(ActiveOverlay::SaveLoad, false, &mut state, SaveLoadKeys { escape: true, enter: true, ..keys() }, MANUAL_SLOTS, true);
    assert_eq!(plan.overlay, ActiveOverlay::NoOverlay);
    assert_eq!(plan.load_slot, None);
    assert_eq!(state.selected, 2);
}

#[test]
fn death_with_saves_offers_them_and_without_restarts() {
    let mut state = SaveLoadOverlay { is_death: false, selected: 2 };
    assert_eq!(check_player_death(false, true, true, &mut state), DeathResponse::OfferLoad);
    assert_eq!(state, SaveLoadOverlay { is_death: true, selected: 0 });
    let mut other = SaveLoadOverlay { is_death: false, selected: 1 };
    assert_eq!(check_player_death(false, true, false, &mut other), DeathResponse::Restart);
    assert_eq!(check_player_death(true, true, true, &mut other), DeathResponse::Nothing);
    assert_eq!(check_player_death(false, false, true, &mut other), DeathResponse::Nothing);
    assert_eq!(other.selected, 1);
}

#[test]
fn slot_labels_count_from_one_and_end_with_the_autosave() {
    assert_eq!(slot_label(0, MANUAL_SLOTS), "SLOT 1");
    assert_eq!(slot_label(2, MANUAL_SLOTS), "SLOT 3");
    assert_eq!(slot_label(3, MANUAL_SLOTS), "AUTOSAVE");
}

#[test]
fn the_epoch_is_the_first_of_january_1970() {
    assert_eq!(civil_from_days(0), (1970, 1, 1));
    assert_eq!(civil_from_days(-1), (1969, 12, 31));
    assert_eq!(civil_from_days(59), (1970, 3, 1));
}

#[test]
fn leap_days_fall_where_the_gregorian_rules_put_them() {
    assert_eq!(civil_from_days(11_016), (2000, 2, 29));
    assert_eq!(civil_from_days(11_017), (2000, 3, 1));
    assert_eq!(civil_from_days(19_782), (2024, 2, 29));
    // 2100 is not a leap year: 28 February is followed by 1 March.
    assert_eq!(civil_from_days(47_540), (2100, 2, 28));
    assert_eq!(civil_from_days(47_541), (2100, 3, 1));
    assert_eq!(civil_from_days(-719_468), (0, 3, 1));
}

#[test]
fn timestamps_format_as_utc_minutes() {
    assert_eq!(format_timestamp(0), "1970-01-01 00:00");
    assert_eq!(format_timestamp(1_709_210_096_000), "2024-02-29 12:34");
    assert_eq!(format_timestamp(-1), "1969-12-31 23:59");
    assert_eq!(format_timestamp(-62_167_219_200_000), "0000-01-01 00:00");
}

#[test]
fn numbers_are_zero_padded_like_format() {
    let mut s = String::new();
    push_zero_padded(&mut s, 7, 4);
    push_zero_padded(&mut s, -5, 4);
    push_zero_padded(&mut s, 12345, 2);
    assert_eq!(s, format!("{:04}{:04}{:02}", 7, -5, 12345));
    assert_eq!(decimal_chars(1_234_567_890).into_iter().collect::<String>(), "1234567890");
    assert_eq!(decimal_chars(0).into_iter().collect::<String>(), "0");
}

#[test]
fn slot_info_lists_the_save_or_reads_empty() {
    let meta = SlotMetadata {
        saved_at: 0,
        player_name: "Aria".to_string(),
        level_id: "level_1".to_string(),
        character_level: 4,
    };
    let (line, color) = slot_info_line(Some(&meta));
    assert_eq!(line, "1970-01-01 00:00  ARIA  LEVEL_1  LV4");
    assert_eq!((color.red, color.green, color.blue), (0xc0, 0xc0, 0xc0));
    let (empty, dim) = slot_info_line(None);
    assert_eq!(empty, "EMPTY");
    assert_eq!((dim.red, dim.green, dim.blue), (0x44, 0x43, 0x5a));
}

#[test]
fn civil_from_days_handles_the_whole_i64_range_it_can_shift() {
    let (year, month, day) = civil_from_days(i64::MIN);
    assert!((1..=12).contains(&month) && (1..=31).contains(&day) && year < 0);
    let (year, month, day) = civil_from_days(i64::MAX - 719_468);
    assert!((1..=12).contains(&month) && (1..=31).contains(&day) && year > 0);
}
