//! Which modal overlay owns input, if any, and the two gates gameplay
//! systems read from it.

use vstd::prelude::*;

verus! {

/// At most one overlay is ever open; `NoOverlay` hands input to the dungeon.
#[derive(Debug, Clone, Copy, PartialEq, Eq, Structural)]
pub enum ActiveOverlay {
    CharCreation,
    SaveLoad,
    Dialog,
    Inventory,
    AttributePanel,
    StatsPanel,
    Trading,
    QuestLog,
    /// The sign and bookshelf text popup.
    Sign,
    NoOverlay,
}

impl ActiveOverlay {
    pub fn is_open(self) -> (open: bool)
        ensures
            open == (self != ActiveOverlay::NoOverlay),
    {
        self != ActiveOverlay::NoOverlay
    }
}

/// Gameplay input stands still while a transition runs or an overlay is
/// open.
pub fn blocked(transition_active: bool, overlay: ActiveOverlay) -> (gate: bool)
    ensures
        gate == (transition_active || overlay != ActiveOverlay::NoOverlay),
{
    transition_active || overlay.is_open()
}

/// Per-frame tick systems pause for an open overlay alone; they keep
/// running through transition fades.
pub fn paused(overlay: ActiveOverlay) -> (gate: bool)
    ensures
        gate == (overlay != ActiveOverlay::NoOverlay),
{
    overlay.is_open()
}

/// The toggle key of a keyboard-opened overlay: from the dungeon (no
/// overlay open, no transition running) the key opens `target`; while
/// `target` is open the key or Escape closes it; otherwise nothing changes.
pub open spec fn spec_toggle(
    overlay: ActiveOverlay,
    target: ActiveOverlay,
    transition_active: bool,
    toggle_key: bool,
    escape: bool,
) -> ActiveOverlay {
    if overlay != target {
        if !transition_active && overlay == ActiveOverlay::NoOverlay && toggle_key {
            target
        } else {
            overlay
        }
    } else if toggle_key || escape {
        ActiveOverlay::NoOverlay
    } else {
        overlay
    }
}

pub fn toggle_overlay(
    overlay: ActiveOverlay,
    target: ActiveOverlay,
    transition_active: bool,
    toggle_key: bool,
    escape: bool,
) -> (next: ActiveOverlay)
    requires
        target != ActiveOverlay::NoOverlay,
    ensures
        next == spec_toggle(overlay, target, transition_active, toggle_key, escape),
{
    if overlay != target {
        if transition_active || overlay != ActiveOverlay::NoOverlay {
            return overlay;
        }
        if toggle_key {
            return target;
        }
        return overlay;
    }
    if toggle_key || escape {
        ActiveOverlay::NoOverlay
    } else {
        overlay
    }
}

/// Pressing an overlay's toggle key twice from the dungeon opens it and
/// closes it again; an overlay never opens over another one.
pub proof fn lemma_toggle_round_trip(target: ActiveOverlay, other: ActiveOverlay, transition_active: bool, escape: bool)
    requires
        target != ActiveOverlay::NoOverlay,
        other != ActiveOverlay::NoOverlay,
        other != target,
    ensures
        !transition_active ==> spec_toggle(
            spec_toggle(ActiveOverlay::NoOverlay, target, transition_active, true, escape),
            target,
            transition_active,
            true,
            escape,
        ) == ActiveOverlay::NoOverlay,
        !transition_active ==> spec_toggle(ActiveOverlay::NoOverlay, target, transition_active, true, escape)
            == target,
        spec_toggle(other, target, transition_active, true, escape) == other,
{
}

/// The backpack slot a quick-slot key (1 to 8) uses this frame: the
/// first pressed digit, unless gameplay is blocked.
pub open spec fn spec_quick_slot(gameplay_blocked: bool, pressed: Seq<bool>) -> Option<u32> {
    if gameplay_blocked || !(exists|i: int| 0 <= i < 8 && pressed[i]) {
        None
    } else {
        Some((choose|i: int| 0 <= i < 8 && pressed[i] && forall|j: int| 0 <= j < i ==> !pressed[j]) as u32)
    }
}

pub fn quick_slot(gameplay_blocked: bool, pressed: &[bool; 8]) -> (slot: Option<u32>)
    ensures
        slot == spec_quick_slot(gameplay_blocked, pressed@),
{
    if gameplay_blocked {
        return None;
    }
    let mut i: usize = 0;
    while i < 8
        invariant
            i <= 8,
            !gameplay_blocked,
            pressed@.len() == 8,
            forall|j: int| 0 <= j < i ==> !pressed@[j],
        decreases 8 - i,
    {
        if pressed[i] {
            proof {
                assert(0 <= i < 8 && pressed@[i as int] && forall|j: int| 0 <= j < i ==> !pressed@[j]);
                assert(exists|k: int| 0 <= k < 8 && pressed@[k] && forall|j: int| 0 <= j < k ==> !pressed@[j]);
                assert(exists|k: int| 0 <= k < 8 && pressed@[k]);
                let first = choose|k: int| 0 <= k < 8 && pressed@[k] && forall|j: int| 0 <= j < k ==> !pressed@[j];
                if first < i {
                    assert(!pressed@[first]);
                } else if first > i {
                    assert(!pressed@[i as int]);
                }
            }
            return Some(i as u32);
        }
        i = i + 1;
    }
    None
}

} // verus!
