//! The sign and bookshelf text popup: its body text, uppercased and
//! wrapped to the panel, its height, and how it is dismissed.

use vstd::prelude::*;
use crate::overlay::ActiveOverlay;
use crate::strings::{to_uppercase, uppercase_of};
use crate::text::{wrap_text, wrapped_lines};

verus! {

pub const TEXT_WRAP_CHARS: usize = 44;
pub const LINE_HEIGHT: i32 = 12;
pub const PANEL_PAD_Y: i32 = 18;
pub const HINT_GAP: i32 = 12;

/// The text currently shown.
pub struct SignOverlayState {
    pub text: String,
}

/// Opens the popup showing `text`.
pub fn open_sign(state: &mut SignOverlayState, overlay: &mut ActiveOverlay, text: &str)
    ensures
        final(state).text@ == text@,
        *final(overlay) == ActiveOverlay::Sign,
{
    state.text = text.to_string();
    *overlay = ActiveOverlay::Sign;
}

/// The popup's lines: the text uppercased (the pixel font has no
/// lowercase) and wrapped to the panel width; a single empty line for
/// text with no words.
pub open spec fn spec_body_lines(text: Seq<char>) -> Seq<Seq<char>> {
    let lines = wrapped_lines(uppercase_of(text), TEXT_WRAP_CHARS as nat);
    if lines.len() == 0 {
        seq![Seq::<char>::empty()]
    } else {
        lines
    }
}

pub fn body_lines(text: &str) -> (lines: Vec<String>)
    ensures
        lines@.map_values(|line: String| line@) == spec_body_lines(text@),
{
    let upper = to_uppercase(text);
    let lines = wrap_text(upper.as_str(), TEXT_WRAP_CHARS);
    if lines.len() == 0 {
        let mut single: Vec<String> = Vec::new();
        single.push(String::new());
        proof {
            assert(single@.map_values(|line: String| line@) =~= seq![Seq::<char>::empty()]);
        }
        single
    } else {
        lines
    }
}

/// Panel height for `line_count` body lines: padding above and below, the
/// body, a gap and the dismiss hint line.
pub fn panel_height(line_count: usize) -> (height: i32)
    requires
        2 * PANEL_PAD_Y + line_count * LINE_HEIGHT + HINT_GAP + LINE_HEIGHT <= i32::MAX,
    ensures
        height == 2 * PANEL_PAD_Y + line_count * LINE_HEIGHT + HINT_GAP + LINE_HEIGHT,
{
    let body = line_count as i32 * LINE_HEIGHT;
    PANEL_PAD_Y * 2 + body + HINT_GAP + LINE_HEIGHT
}

/// Any key or a left click closes the open popup.
pub fn sign_input(overlay: ActiveOverlay, any_key: bool, left_click: bool) -> (next: ActiveOverlay)
    ensures
        next == if overlay == ActiveOverlay::Sign && (any_key || left_click) {
            ActiveOverlay::NoOverlay
        } else {
            overlay
        },
{
    if overlay != ActiveOverlay::Sign {
        return overlay;
    }
    if any_key || left_click {
        ActiveOverlay::NoOverlay
    } else {
        overlay
    }
}

} // verus!
