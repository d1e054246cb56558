//! The save/load modal and the death flow: a slot cursor over the manual
//! save slots followed by the autosave slot, the keys acting on the
//! selected slot, and what happens when the player dies.
//!
//! The modal decides; the caller performs the storage work it asks for,
//! in the order save, delete, load, restart, and stops after a load that
//! fails.

use vstd::prelude::*;
use crate::overlay::ActiveOverlay;
use crate::numfmt::{decimal, push_decimal};
use crate::strings::{push_char, to_uppercase, uppercase_of};
use crate::calendar::{format_timestamp, spec_format_timestamp};
use crate::canvas::Rgb;

verus! {

broadcast use vstd::string::group_string_axioms;

/// Modal data; whether it is open lives in [`ActiveOverlay`].
/// `is_death` hides the save and delete actions and offers restart.
#[derive(Clone, Copy, PartialEq, Eq, Structural, Debug)]
pub struct SaveLoadOverlay {
    pub is_death: bool,
    pub selected: usize,
}

/// The keys pressed this frame that the modal reads.
#[derive(Clone, Copy, PartialEq, Eq, Structural, Debug)]
pub struct SaveLoadKeys {
    pub escape: bool,
    pub up: bool,
    pub down: bool,
    /// `S`: save into the selected slot.
    pub save: bool,
    /// Delete or Backspace: delete the selected slot.
    pub delete: bool,
    /// Enter: load the selected slot.
    pub enter: bool,
    /// `R`: restart (death mode only).
    pub restart: bool,
}

/// What the frame's input asks of the caller.
#[derive(Clone, Copy, PartialEq, Eq, Structural, Debug)]
pub struct SaveLoadPlan {
    /// The overlay state after the frame (before the outcome of a load).
    pub overlay: ActiveOverlay,
    /// Save into this slot, then report it saved.
    pub save_slot: Option<usize>,
    pub delete_slot: Option<usize>,
    /// Try to load this slot; the modal closes whatever the outcome.
    pub load_slot: Option<usize>,
    pub restart: bool,
}

pub open spec fn slot_wrap_up(selected: int, slot_count: int) -> int {
    (selected + slot_count - 1) % slot_count
}

pub open spec fn slot_wrap_down(selected: int, slot_count: int) -> int {
    (selected + 1) % slot_count
}

/// One frame of the save/load modal. `manual_slots` is the number of
/// manual save slots; the autosave slot follows them, so there are
/// `manual_slots + 1` rows. While the modal is closed, Escape opens it in
/// save mode unless gameplay is blocked. While open: Escape closes it;
/// Up/Down move the cursor with wrap-around; `S` saves into a manual slot
/// (not in death mode, and only with a player to save) and closes; Delete
/// deletes (not in death mode); Enter loads any slot and closes; `R`
/// restarts in death mode and closes.
pub fn save_load_step(
    overlay: ActiveOverlay,
    transition_active: bool,
    state: &mut SaveLoadOverlay,
    keys: SaveLoadKeys,
    manual_slots: usize,
    player_present: bool,
) -> (plan: SaveLoadPlan)
    requires
        manual_slots < usize::MAX / 2,
        overlay == ActiveOverlay::SaveLoad ==> old(state).selected <= manual_slots,
    ensures
        overlay != ActiveOverlay::SaveLoad ==> {
            &&& (if !transition_active && overlay == ActiveOverlay::NoOverlay && keys.escape {
                plan.overlay == ActiveOverlay::SaveLoad && *final(state) == (SaveLoadOverlay {
                    is_death: false,
                    selected: 0,
                })
            } else {
                plan.overlay == overlay && *final(state) == *old(state)
            })
            &&& plan.save_slot is None && plan.delete_slot is None && plan.load_slot is None && !plan.restart
        },
        overlay == ActiveOverlay::SaveLoad && keys.escape ==> {
            &&& plan.overlay == ActiveOverlay::NoOverlay
            &&& *final(state) == *old(state)
            &&& plan.save_slot is None && plan.delete_slot is None && plan.load_slot is None && !plan.restart
        },
        overlay == ActiveOverlay::SaveLoad && !keys.escape ==> {
            let count = manual_slots + 1;
            let after_up = if keys.up { slot_wrap_up(old(state).selected as int, count) } else { old(state).selected as int };
            let selected = if keys.down { slot_wrap_down(after_up, count) } else { after_up };
            let death = old(state).is_death;
            let saving = !death && selected != manual_slots && keys.save && player_present;
            &&& final(state).selected == selected
            &&& final(state).is_death == death
            &&& final(state).selected <= manual_slots
            &&& plan.save_slot == if saving { Some(selected as usize) } else { None }
            &&& plan.delete_slot == if !death && keys.delete { Some(selected as usize) } else { None }
            &&& plan.load_slot == if keys.enter { Some(selected as usize) } else { None }
            &&& plan.restart == (death && keys.restart)
            &&& plan.overlay == if saving || keys.enter || (death && keys.restart) {
                ActiveOverlay::NoOverlay
            } else {
                ActiveOverlay::SaveLoad
            }
        },
{
    let closed_plan = SaveLoadPlan {
        overlay,
        save_slot: None,
        delete_slot: None,
        load_slot: None,
        restart: false,
    };
    if overlay != ActiveOverlay::SaveLoad {
        if transition_active || overlay != ActiveOverlay::NoOverlay {
            return closed_plan;
        }
        if keys.escape {
            state.is_death = false;
            state.selected = 0;
            return SaveLoadPlan { overlay: ActiveOverlay::SaveLoad, ..closed_plan };
        }
        return closed_plan;
    }
    if keys.escape {
        return SaveLoadPlan { overlay: ActiveOverlay::NoOverlay, ..closed_plan };
    }
    let slot_count = manual_slots + 1;
    if keys.up {
        state.selected = (state.selected + slot_count - 1) % slot_count;
    }
    if keys.down {
        state.selected = (state.selected + 1) % slot_count;
    }
    let selected = state.selected;
    let is_autosave = selected == manual_slots;
    let mut plan = SaveLoadPlan { overlay: ActiveOverlay::SaveLoad, ..closed_plan };
    if !state.is_death && !is_autosave && keys.save && player_present {
        plan.save_slot = Some(selected);
        plan.overlay = ActiveOverlay::NoOverlay;
    }
    if !state.is_death && keys.delete {
        plan.delete_slot = Some(selected);
    }
    if keys.enter {
        plan.load_slot = Some(selected);
        plan.overlay = ActiveOverlay::NoOverlay;
    }
    if state.is_death && keys.restart {
        plan.restart = true;
        plan.overlay = ActiveOverlay::NoOverlay;
    }
    plan
}

/// What a frame's death check does.
#[derive(Clone, Copy, PartialEq, Eq, Structural, Debug)]
pub enum DeathResponse {
    Nothing,
    /// Open the modal in death mode on the first slot.
    OfferLoad,
    /// No save exists: restart straight away.
    Restart,
}

/// The alive-to-dead check, run once a frame: nothing while gameplay is
/// blocked or the player lives; otherwise the death modal when any save
/// exists, else an immediate restart.
pub fn check_player_death(blocked: bool, dead: bool, has_saves: bool, state: &mut SaveLoadOverlay) -> (response:
    DeathResponse)
    ensures
        response == if blocked || !dead {
            DeathResponse::Nothing
        } else if has_saves {
            DeathResponse::OfferLoad
        } else {
            DeathResponse::Restart
        },
        response == DeathResponse::OfferLoad ==> *final(state) == (SaveLoadOverlay { is_death: true, selected: 0 }),
        response != DeathResponse::OfferLoad ==> *final(state) == *old(state),
{
    if blocked || !dead {
        return DeathResponse::Nothing;
    }
    if has_saves {
        state.is_death = true;
        state.selected = 0;
        DeathResponse::OfferLoad
    } else {
        DeathResponse::Restart
    }
}

/// Up and down undo each other: from any slot, moving up then down (or
/// down then up) returns to it, and the cursor never leaves the slots.
pub proof fn lemma_cursor_up_down_inverse(selected: int, slot_count: int)
    requires
        slot_count >= 1,
        0 <= selected < slot_count,
    ensures
        slot_wrap_down(slot_wrap_up(selected, slot_count), slot_count) == selected,
        slot_wrap_up(slot_wrap_down(selected, slot_count), slot_count) == selected,
        0 <= slot_wrap_up(selected, slot_count) < slot_count,
        0 <= slot_wrap_down(selected, slot_count) < slot_count,
{
    let up = slot_wrap_up(selected, slot_count);
    let down = slot_wrap_down(selected, slot_count);
    if selected == 0 {
        assert(up == slot_count - 1) by {
            vstd::arithmetic::div_mod::lemma_small_mod((slot_count - 1) as nat, slot_count as nat);
        }
        assert(slot_wrap_down(up, slot_count) == 0) by {
            vstd::arithmetic::div_mod::lemma_mod_self_0(slot_count);
        }
    } else {
        assert(up == selected - 1) by {
            vstd::arithmetic::div_mod::lemma_mod_add_multiples_vanish(selected - 1, slot_count);
            vstd::arithmetic::div_mod::lemma_small_mod((selected - 1) as nat, slot_count as nat);
        }
        vstd::arithmetic::div_mod::lemma_small_mod(selected as nat, slot_count as nat);
    }
    if selected == slot_count - 1 {
        vstd::arithmetic::div_mod::lemma_mod_self_0(slot_count);
        assert(down == 0);
        vstd::arithmetic::div_mod::lemma_small_mod((slot_count - 1) as nat, slot_count as nat);
    } else {
        vstd::arithmetic::div_mod::lemma_small_mod((selected + 1) as nat, slot_count as nat);
        assert(down == selected + 1);
        vstd::arithmetic::div_mod::lemma_mod_add_multiples_vanish(selected, slot_count);
        vstd::arithmetic::div_mod::lemma_small_mod(selected as nat, slot_count as nat);
    }
}

/// The label of slot row `index`: `SLOT n` (counting from one) for a
/// manual slot, `AUTOSAVE` for the last row.
pub open spec fn spec_slot_label(index: nat, manual_slots: nat) -> Seq<char> {
    if index < manual_slots {
        "SLOT "@ + decimal(index + 1)
    } else {
        "AUTOSAVE"@
    }
}

pub fn slot_label(index: usize, manual_slots: usize) -> (label: String)
    requires
        index < usize::MAX,
    ensures
        label@ == spec_slot_label(index as nat, manual_slots as nat),
{
    if index < manual_slots {
        let mut label = String::from_str("SLOT ");
        push_decimal(&mut label, (index + 1) as u64);
        label
    } else {
        String::from_str("AUTOSAVE")
    }
}

/// What a save slot's row shows of the save in it.
pub struct SlotMetadata {
    pub saved_at: i64,
    pub player_name: String,
    pub level_id: String,
    pub character_level: u64,
}

pub open spec fn spec_slot_info(meta: Option<SlotMetadata>) -> Seq<char> {
    match meta {
        Some(meta) => spec_format_timestamp(meta.saved_at as int) + "  "@ + uppercase_of(meta.player_name@) + "  "@
            + uppercase_of(meta.level_id@) + "  LV"@ + decimal(meta.character_level as nat),
        None => "EMPTY"@,
    }
}

/// Text colour of an occupied slot's row.
pub open spec fn slot_text() -> Rgb {
    Rgb { red: 0xc0, green: 0xc0, blue: 0xc0 }
}

/// Text colour of an empty slot's row.
pub open spec fn slot_text_empty() -> Rgb {
    Rgb { red: 0x44, green: 0x43, blue: 0x5a }
}

/// The info text of a slot row and its colour: timestamp, player name,
/// level and character level for a save; `EMPTY`, dimmed, for none.
pub fn slot_info_line(meta: Option<&SlotMetadata>) -> (line: (String, Rgb))
    ensures
        line.0@ == spec_slot_info(match meta {
            Some(m) => Some(*m),
            None => None,
        }),
        line.1 == if meta is Some { slot_text() } else { slot_text_empty() },
{
    match meta {
        Some(meta) => {
            let mut text = format_timestamp(meta.saved_at);
            push_str(&mut text, "  ");
            let name = to_uppercase(meta.player_name.as_str());
            push_str(&mut text, name.as_str());
            push_str(&mut text, "  ");
            let level = to_uppercase(meta.level_id.as_str());
            push_str(&mut text, level.as_str());
            push_str(&mut text, "  LV");
            push_decimal(&mut text, meta.character_level);
            proof {
                assert(text@ =~= spec_slot_info(Some(*meta)));
            }
            (text, Rgb { red: 0xc0, green: 0xc0, blue: 0xc0 })
        },
        None => (String::from_str("EMPTY"), Rgb { red: 0x44, green: 0x43, blue: 0x5a }),
    }
}

fn push_str(s: &mut String, tail: &str)
    ensures
        final(s)@ == old(s)@ + tail@,
{
    let chars = crate::strings::chars_of(tail);
    crate::numfmt::push_chars(s, &chars);
}

} // verus!
