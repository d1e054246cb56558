//! Cross-level transitions: the fade-out / swap / fade-in phase machine
//! (the fade's opacity itself is driven by the caller, which reports when
//! a fade has finished), replaying recorded wall destruction onto a fresh
//! grid, and choosing the grid of the active layer.

use vstd::prelude::*;
use crate::strings::{chars_of, string_from_chars};
use crate::numfmt::{decimal, digit_char};
use crate::ramps::Facing;

verus! {

#[derive(Clone, Copy, PartialEq, Eq, Structural, Debug)]
pub enum Phase {
    Idle,
    FadeOut,
    Swap,
    FadeIn,
}

/// What the fade's midpoint should do: move through a stair, restart the
/// dungeon, or apply a loaded save.
pub enum PendingAction<S> {
    Stair(String),
    Restart,
    Load(S),
}

/// One shared fade machine with the action waiting for its midpoint.
/// `S` is the loaded-save payload, carried through untouched.
pub struct Transition<S> {
    phase: Phase,
    pending: Option<PendingAction<S>>,
}

impl<S> Transition<S> {
    pub closed spec fn spec_phase(&self) -> Phase {
        self.phase
    }

    pub closed spec fn spec_pending(&self) -> Option<PendingAction<S>> {
        self.pending
    }

    /// The machine after a transition toward `action` is asked for: it
    /// starts fading out when idle and ignores the request otherwise.
    pub closed spec fn begun(self, action: PendingAction<S>) -> Self {
        if self.phase == Phase::Idle {
            Transition { phase: Phase::FadeOut, pending: Some(action) }
        } else {
            self
        }
    }

    /// The machine after the fade-out reports that the screen is black.
    pub closed spec fn faded_out(self) -> Self {
        if self.phase == Phase::FadeOut {
            Transition { phase: Phase::Swap, pending: self.pending }
        } else {
            self
        }
    }

    /// The machine, and the action handed out, after the midpoint is
    /// asked for its action.
    pub closed spec fn swapped(self) -> (Self, Option<PendingAction<S>>) {
        if self.phase == Phase::Swap {
            (Transition { phase: Phase::FadeIn, pending: None }, self.pending)
        } else {
            (self, None)
        }
    }

    /// The machine after the fade-in reports that the screen is clear.
    pub closed spec fn faded_in(self) -> Self {
        if self.phase == Phase::FadeIn {
            Transition { phase: Phase::Idle, pending: self.pending }
        } else {
            self
        }
    }

    /// An action waits exactly while the screen fades out or sits black.
    pub open spec fn wf(&self) -> bool {
        (self.spec_phase() == Phase::FadeOut || self.spec_phase() == Phase::Swap) <==> self.spec_pending() is Some
    }

    pub fn new() -> (transition: Self)
        ensures
            transition.wf(),
            transition.spec_phase() == Phase::Idle,
    {
        Transition { phase: Phase::Idle, pending: None }
    }

    pub fn phase(&self) -> (phase: Phase)
        ensures
            phase == self.spec_phase(),
    {
        self.phase
    }

    /// Whether a transition is in progress; input systems stand still
    /// while it is.
    pub fn is_active(&self) -> (active: bool)
        ensures
            active == (self.spec_phase() != Phase::Idle),
    {
        self.phase != Phase::Idle
    }

    fn start(&mut self, action: PendingAction<S>)
        requires
            old(self).wf(),
        ensures
            final(self).wf(),
            old(self).spec_phase() == Phase::Idle ==> final(self).spec_phase() == Phase::FadeOut
                && final(self).spec_pending() == Some(action),
            old(self).spec_phase() != Phase::Idle ==> *final(self) == *old(self),
            *final(self) == old(self).begun(action),
    {
        if self.phase != Phase::Idle {
            return;
        }
        self.phase = Phase::FadeOut;
        self.pending = Some(action);
    }

    /// Start a transition toward the stair `stair_id`. Ignored while
    /// another transition is in progress.
    pub fn begin_stair(&mut self, stair_id: String)
        requires
            old(self).wf(),
        ensures
            final(self).wf(),
            old(self).spec_phase() == Phase::Idle ==> final(self).spec_phase() == Phase::FadeOut
                && final(self).spec_pending() == Some(PendingAction::<S>::Stair(stair_id)),
            old(self).spec_phase() != Phase::Idle ==> *final(self) == *old(self),
            *final(self) == old(self).begun(PendingAction::Stair(stair_id)),
    {
        self.start(PendingAction::Stair(stair_id));
    }

    /// Start a transition back to the dungeon's starting level. Ignored
    /// while another transition is in progress.
    pub fn begin_restart(&mut self)
        requires
            old(self).wf(),
        ensures
            final(self).wf(),
            old(self).spec_phase() == Phase::Idle ==> final(self).spec_phase() == Phase::FadeOut
                && final(self).spec_pending() == Some(PendingAction::<S>::Restart),
            old(self).spec_phase() != Phase::Idle ==> *final(self) == *old(self),
            *final(self) == old(self).begun(PendingAction::Restart),
    {
        self.start(PendingAction::Restart);
    }

    /// Start a transition into a loaded save. Ignored while another
    /// transition is in progress.
    pub fn begin_load(&mut self, data: S)
        requires
            old(self).wf(),
        ensures
            final(self).wf(),
            old(self).spec_phase() == Phase::Idle ==> final(self).spec_phase() == Phase::FadeOut
                && final(self).spec_pending() == Some(PendingAction::Load(data)),
            old(self).spec_phase() != Phase::Idle ==> *final(self) == *old(self),
            *final(self) == old(self).begun(PendingAction::Load(data)),
    {
        self.start(PendingAction::Load(data));
    }

    /// The screen has gone fully black: the midpoint is reached.
    pub fn fade_out_finished(&mut self)
        requires
            old(self).wf(),
        ensures
            final(self).wf(),
            old(self).spec_phase() == Phase::FadeOut ==> final(self).spec_phase() == Phase::Swap
                && final(self).spec_pending() == old(self).spec_pending(),
            old(self).spec_phase() != Phase::FadeOut ==> *final(self) == *old(self),
            *final(self) == old(self).faded_out(),
    {
        if self.phase == Phase::FadeOut {
            self.phase = Phase::Swap;
        }
    }

    /// The screen has faded fully back in: the transition is over.
    pub fn fade_in_finished(&mut self)
        requires
            old(self).wf(),
        ensures
            final(self).wf(),
            old(self).spec_phase() == Phase::FadeIn ==> final(self).spec_phase() == Phase::Idle
                && final(self).spec_pending() is None,
            old(self).spec_phase() != Phase::FadeIn ==> *final(self) == *old(self),
            *final(self) == old(self).faded_in(),
    {
        if self.phase == Phase::FadeIn {
            self.phase = Phase::Idle;
        }
    }

    /// At the midpoint, hands out the waiting action and starts fading
    /// back in; at any other phase does nothing and hands out nothing.
    pub fn take_swap_action(&mut self) -> (action: Option<PendingAction<S>>)
        requires
            old(self).wf(),
        ensures
            final(self).wf(),
            old(self).spec_phase() == Phase::Swap ==> action == old(self).spec_pending() && action is Some
                && final(self).spec_phase() == Phase::FadeIn,
            old(self).spec_phase() != Phase::Swap ==> action is None && *final(self) == *old(self),
            (*final(self), action) == old(self).swapped(),
    {
        if self.phase != Phase::Swap {
            return None;
        }
        self.phase = Phase::FadeIn;
        let mut action = None;
        std::mem::swap(&mut action, &mut self.pending);
        action
    }
}

/// A transition runs fade out, midpoint, fade in: started from an idle
/// machine, the action asked for is handed out exactly once, at the
/// midpoint, and the machine ends idle again with nothing waiting. Every
/// step keeps the machine well formed, and while a transition runs, a
/// request for another one changes nothing.
pub proof fn lemma_transition_cycle<S>(idle: Transition<S>, action: PendingAction<S>, other: PendingAction<S>)
    requires
        idle.wf(),
        idle.spec_phase() == Phase::Idle,
    ensures
        ({
            let out = idle.begun(action);
            let black = out.faded_out();
            let (fading_in, handed) = black.swapped();
            let done = fading_in.faded_in();
            &&& out.wf() && black.wf() && fading_in.wf() && done.wf()
            &&& out.spec_phase() == Phase::FadeOut && black.spec_phase() == Phase::Swap
            &&& out.swapped().1 is None && out.faded_in() == out
            &&& handed == Some(action)
            &&& fading_in.spec_phase() == Phase::FadeIn && fading_in.swapped().1 is None
            &&& done.spec_phase() == Phase::Idle && done.spec_pending() is None
            &&& out.begun(other) == out && black.begun(other) == black && fading_in.begun(other) == fading_in
        }),
{
}

// ---------------------------------------------------------------------------
// Where a transition lands
// ---------------------------------------------------------------------------

/// A level of the dungeon as a restart sees it: its id, if it has one,
/// and its name, which stands in for a missing id.
pub struct LevelEntry {
    pub id: Option<String>,
    pub name: String,
}

pub open spec fn entry_ids(levels: Seq<LevelEntry>) -> Seq<Option<Seq<char>>> {
    levels.map_values(|level: LevelEntry| match level.id {
        Some(id) => Some(id@),
        None => None,
    })
}

/// Index of the first level whose id is `start`.
pub open spec fn first_with_id(ids: Seq<Option<Seq<char>>>, start: Seq<char>) -> Option<int>
    decreases ids.len(),
{
    if ids.len() == 0 {
        None
    } else {
        match first_with_id(ids.drop_last(), start) {
            Some(i) => Some(i),
            None => if ids.last() == Some(start) { Some(ids.len() - 1) } else { None },
        }
    }
}

/// The level a restart begins on: the first level whose id is the
/// dungeon's start level id, else the first level; none in a dungeon
/// without levels.
pub open spec fn restart_index(ids: Seq<Option<Seq<char>>>, start: Seq<char>) -> Option<int> {
    if ids.len() == 0 {
        None
    } else {
        match first_with_id(ids, start) {
            Some(i) => Some(i),
            None => Some(0),
        }
    }
}

proof fn lemma_first_with_id_prefix(ids: Seq<Option<Seq<char>>>, k: int, start: Seq<char>)
    requires
        0 <= k <= ids.len(),
        first_with_id(ids.take(k), start) is Some,
    ensures
        first_with_id(ids, start) == first_with_id(ids.take(k), start),
    decreases ids.len(),
{
    if k < ids.len() {
        assert(ids.drop_last().take(k) =~= ids.take(k));
        lemma_first_with_id_prefix(ids.drop_last(), k, start);
    } else {
        assert(ids.take(k) =~= ids);
    }
}

proof fn lemma_first_with_id_bounds(ids: Seq<Option<Seq<char>>>, start: Seq<char>)
    ensures
        first_with_id(ids, start) matches Some(i) ==> 0 <= i < ids.len() && ids[i] == Some(start),
    decreases ids.len(),
{
    if ids.len() > 0 {
        lemma_first_with_id_bounds(ids.drop_last(), start);
    }
}

/// The level a restart begins on, with the key it is known by (its id,
/// or its name when it has none).
pub fn restart_level(levels: &Vec<LevelEntry>, start_level_id: &str) -> (start: Option<(usize, String)>)
    ensures
        match restart_index(entry_ids(levels@), start_level_id@) {
            None => start is None,
            Some(i) => start matches Some((index, key)) && index == i && key@ == match levels@[i].id {
                Some(id) => id@,
                None => levels@[i].name@,
            },
        },
{
    let ghost ids = entry_ids(levels@);
    let mut i: usize = 0;
    let mut found: Option<usize> = None;
    while i < levels.len()
        invariant
            i <= levels.len(),
            ids == entry_ids(levels@),
            found is None ==> first_with_id(ids.take(i as int), start_level_id@) is None,
            found matches Some(f) ==> first_with_id(ids, start_level_id@) == Some(f as int),
        decreases levels.len() - i,
    {
        if found.is_none() {
            proof {
                assert(ids.take(i + 1).drop_last() =~= ids.take(i as int));
                assert(ids.take(i + 1).last() == ids[i as int]);
            }
            let matches = match &levels[i].id {
                Some(id) => crate::strings::same_text(id.as_str(), start_level_id),
                None => false,
            };
            if matches {
                proof {
                    lemma_first_with_id_prefix(ids, i + 1, start_level_id@);
                }
                found = Some(i);
            }
        }
        i = i + 1;
    }
    proof {
        assert(ids.take(levels.len() as int) =~= ids);
        lemma_first_with_id_bounds(ids, start_level_id@);
    }
    let index = match found {
        Some(f) => f,
        None => {
            if levels.len() == 0 {
                return None;
            }
            0
        },
    };
    let key = match &levels[index].id {
        Some(id) => id.clone(),
        None => levels[index].name.clone(),
    };
    Some((index, key))
}

/// Where a stair transition puts the player: on the cell the target stair
/// faces, still looking the way they looked before.
pub fn arrival_pose(stair_col: i64, stair_row: i64, stair_facing: Facing, facing_before: Facing) -> (pose: (
    i32,
    i32,
    Facing,
))
    requires
        i32::MIN + 1 <= stair_col <= i32::MAX - 1,
        i32::MIN + 1 <= stair_row <= i32::MAX - 1,
    ensures
        pose.0 == stair_col + stair_facing.spec_delta().0,
        pose.1 == stair_row + stair_facing.spec_delta().1,
        pose.2 == facing_before,
{
    let (dcol, drow) = stair_facing.delta();
    (stair_col as i32 + dcol, stair_row as i32 + drow, facing_before)
}

// ---------------------------------------------------------------------------
// Replaying destroyed walls
// ---------------------------------------------------------------------------

pub open spec fn is_digit(c: char) -> bool {
    '0' <= c <= '9'
}

pub open spec fn all_digits(s: Seq<char>) -> bool {
    forall|i: int| 0 <= i < s.len() ==> is_digit(#[trigger] s[i])
}

/// The number written by the decimal digits `s`.
pub open spec fn digits_value(s: Seq<char>) -> nat
    decreases s.len(),
{
    if s.len() == 0 {
        0
    } else {
        digits_value(s.drop_last()) * 10 + (s.last() as nat - '0' as nat) as nat
    }
}

/// How `usize`'s `FromStr` reads `s`: an optional `+`, then one or more
/// decimal digits whose value fits in a `usize`.
pub open spec fn parse_usize(s: Seq<char>) -> Option<nat> {
    let body = if s.len() > 0 && s[0] == '+' { s.drop_first() } else { s };
    if body.len() > 0 && all_digits(body) && digits_value(body) <= usize::MAX {
        Some(digits_value(body))
    } else {
        None
    }
}

/// Index of the first comma in `s`.
pub open spec fn first_comma(s: Seq<char>) -> Option<int>
    decreases s.len(),
{
    if s.len() == 0 {
        None
    } else {
        match first_comma(s.drop_last()) {
            Some(i) => Some(i),
            None => if s.last() == ',' { Some(s.len() - 1) } else { None },
        }
    }
}

/// The cell a destroyed-wall key `"col,row"` names: split at the first
/// comma, both halves read as `usize`.
pub open spec fn parse_cell_key(key: Seq<char>) -> Option<(nat, nat)> {
    match first_comma(key) {
        None => None,
        Some(i) => match (parse_usize(key.subrange(0, i)), parse_usize(key.subrange(i + 1, key.len() as int))) {
            (Some(col), Some(row)) => Some((col, row)),
            _ => None,
        },
    }
}

pub open spec fn destroys(keys: Seq<Seq<char>>, col: int, row: int) -> bool {
    exists|i: int| 0 <= i < keys.len() && parse_cell_key(#[trigger] keys[i]) == Some((col as nat, row as nat))
        && col >= 0 && row >= 0
}

/// `rows` with every cell some key names turned into open floor (`.`);
/// keys naming a cell outside the grid, or not of the form `"col,row"`,
/// change nothing.
pub open spec fn replayed(rows: Seq<Seq<char>>, keys: Seq<Seq<char>>) -> Seq<Seq<char>> {
    Seq::new(
        rows.len(),
        |r: int| Seq::new(rows[r].len(), |c: int| if destroys(keys, c, r) { '.' } else { rows[r][c] }),
    )
}

pub open spec fn key_texts(keys: Seq<String>) -> Seq<Seq<char>> {
    keys.map_values(|key: String| key@)
}

proof fn lemma_digits_value_prefix(s: Seq<char>, k: int)
    requires
        0 <= k <= s.len(),
    ensures
        digits_value(s.take(k)) <= digits_value(s),
    decreases s.len(),
{
    if k < s.len() {
        assert(s.drop_last().take(k) =~= s.take(k));
        lemma_digits_value_prefix(s.drop_last(), k);
    } else {
        assert(s.take(k) =~= s);
    }
}

/// Reads `chars[from..to]` as `usize`'s `FromStr` does.
fn parse_decimal(chars: &Vec<char>, from: usize, to: usize) -> (value: Option<usize>)
    requires
        from <= to <= chars@.len(),
    ensures
        match parse_usize(chars@.subrange(from as int, to as int)) {
            Some(n) => value == Some(n as usize),
            None => value is None,
        },
{
    let ghost text = chars@.subrange(from as int, to as int);
    let mut start = from;
    if start < to && chars[start] == '+' {
        start = start + 1;
    }
    let ghost body = chars@.subrange(start as int, to as int);
    proof {
        if text.len() > 0 && text[0] == '+' {
            assert(text.drop_first() =~= body);
        } else {
            assert(text =~= body);
        }
    }
    if start == to {
        return None;
    }
    let mut value: usize = 0;
    let mut i = start;
    while i < to
        invariant
            from <= start <= i <= to <= chars@.len(),
            start < to,
            body == chars@.subrange(start as int, to as int),
            parse_usize(chars@.subrange(from as int, to as int)) == if all_digits(body) && digits_value(body)
                <= usize::MAX {
                Some(digits_value(body))
            } else {
                None
            },
            all_digits(body.take(i - start)),
            value == digits_value(body.take(i - start)),
        decreases to - i,
    {
        let c = chars[i];
        proof {
            assert(body.take(i - start + 1).drop_last() =~= body.take(i - start));
            assert(body[i - start] == c);
        }
        if !('0' <= c && c <= '9') {
            proof {
                assert(!is_digit(body[i - start]));
            }
            return None;
        }
        let digit = (c as u32 - '0' as u32) as usize;
        let scaled = value.checked_mul(10);
        let next = match scaled {
            None => None,
            Some(scaled) => scaled.checked_add(digit),
        };
        match next {
            None => {
                proof {
                    lemma_digits_value_prefix(body, i - start + 1);
                }
                return None;
            },
            Some(next) => {
                value = next;
            },
        }
        i = i + 1;
    }
    proof {
        assert(body.take(to - start) =~= body);
    }
    Some(value)
}

proof fn lemma_first_comma_prefix(s: Seq<char>, k: int)
    requires
        0 <= k <= s.len(),
        first_comma(s.take(k)) is Some,
    ensures
        first_comma(s) == first_comma(s.take(k)),
    decreases s.len(),
{
    if k < s.len() {
        assert(s.drop_last().take(k) =~= s.take(k));
        lemma_first_comma_prefix(s.drop_last(), k);
    } else {
        assert(s.take(k) =~= s);
    }
}

fn find_comma(chars: &Vec<char>) -> (index: Option<usize>)
    ensures
        match first_comma(chars@) {
            Some(i) => index == Some(i as usize),
            None => index is None,
        },
{
    let mut i: usize = 0;
    while i < chars.len()
        invariant
            i <= chars@.len(),
            first_comma(chars@.take(i as int)) is None,
        decreases chars.len() - i,
    {
        proof {
            assert(chars@.take(i + 1).drop_last() =~= chars@.take(i as int));
        }
        if chars[i] == ',' {
            proof {
                lemma_first_comma_prefix(chars@, i + 1);
            }
            return Some(i);
        }
        i = i + 1;
    }
    proof {
        assert(chars@.take(chars@.len() as int) =~= chars@);
    }
    None
}

proof fn lemma_first_comma_in_range(s: Seq<char>)
    ensures
        first_comma(s) matches Some(i) ==> 0 <= i < s.len() && s[i] == ',',
    decreases s.len(),
{
    if s.len() > 0 {
        lemma_first_comma_in_range(s.drop_last());
    }
}

/// The cell a destroyed-wall key `"col,row"` names.
pub fn parse_wall_key(key: &str) -> (cell: Option<(usize, usize)>)
    ensures
        match parse_cell_key(key@) {
            Some((col, row)) => cell == Some((col as usize, row as usize)),
            None => cell is None,
        },
{
    let chars = chars_of(key);
    proof {
        lemma_first_comma_in_range(chars@);
    }
    let comma = match find_comma(&chars) {
        Some(i) => i,
        None => return None,
    };
    let col = parse_decimal(&chars, 0, comma);
    let row = parse_decimal(&chars, comma + 1, chars.len());
    match (col, row) {
        (Some(col), Some(row)) => Some((col, row)),
        _ => None,
    }
}

/// Reapplies recorded wall destruction to a freshly cloned grid: every
/// cell a `"col,row"` key of `destroyed` names becomes open floor.
pub fn replay_destroyed_walls(destroyed: &Vec<String>, grid: &mut Vec<String>)
    ensures
        crate::ramps::grid_rows(final(grid)@) == replayed(crate::ramps::grid_rows(old(grid)@), key_texts(destroyed@)),
{
    let ghost rows0 = crate::ramps::grid_rows(grid@);
    proof {
        assert forall|r: int| 0 <= r < rows0.len() implies #[trigger] replayed(rows0, key_texts(destroyed@).take(0))[r]
            =~= rows0[r] by {}
        assert(replayed(rows0, key_texts(destroyed@).take(0)) =~= rows0);
    }
    let mut i: usize = 0;
    while i < destroyed.len()
        invariant
            i <= destroyed@.len(),
            rows0.len() == grid@.len(),
            crate::ramps::grid_rows(grid@) == replayed(rows0, key_texts(destroyed@).take(i as int)),
        decreases destroyed.len() - i,
    {
        let ghost keys = key_texts(destroyed@).take(i as int);
        let ghost next_keys = key_texts(destroyed@).take(i + 1);
        let ghost before = grid@;
        let parsed = parse_wall_key(destroyed[i].as_str());
        proof {
            assert(next_keys =~= keys.push(destroyed@[i as int]@));
            assert forall|c: int, r: int| #[trigger] destroys(next_keys, c, r) <==> destroys(keys, c, r) || (
            parse_cell_key(destroyed@[i as int]@) == Some((c as nat, r as nat)) && c >= 0 && r >= 0) by {
                if destroys(keys, c, r) {
                    let j = choose|j: int| 0 <= j < keys.len() && parse_cell_key(#[trigger] keys[j]) == Some(
                        (c as nat, r as nat),
                    ) && c >= 0 && r >= 0;
                    assert(next_keys[j] == keys[j]);
                }
                if parse_cell_key(destroyed@[i as int]@) == Some((c as nat, r as nat)) && c >= 0 && r >= 0 {
                    assert(next_keys[i as int] == destroyed@[i as int]@);
                }
                if destroys(next_keys, c, r) {
                    let j = choose|j: int| 0 <= j < next_keys.len() && parse_cell_key(#[trigger] next_keys[j])
                        == Some((c as nat, r as nat)) && c >= 0 && r >= 0;
                    if j < i {
                        assert(keys[j] == next_keys[j]);
                    }
                }
            }
        }
        let mut changed = false;
        if let Some((col, row)) = parsed {
            if row < grid.len() {
                let mut line = chars_of(grid[row].as_str());
                if col < line.len() {
                    let ghost old_line = line@;
                    line.set(col, '.');
                    let new_line = string_from_chars(&line);
                    grid.set(row, new_line);
                    changed = true;
                    proof {
                        let rows = crate::ramps::grid_rows(grid@);
                        let want = replayed(rows0, next_keys);
                        assert forall|r: int| 0 <= r < rows.len() implies #[trigger] rows[r] =~= want[r] by {
                            if r == row {
                                assert(rows[r] == line@);
                                assert(old_line == crate::ramps::grid_rows(before)[r]);
                                assert forall|c: int| 0 <= c < line@.len() implies #[trigger] line@[c]
                                    == want[r][c] by {
                                    if c == col {
                                        assert(destroys(next_keys, c, r));
                                    } else {
                                        assert(line@[c] == old_line[c]);
                                    }
                                }
                            } else {
                                assert(rows[r] == crate::ramps::grid_rows(before)[r]);
                            }
                        }
                        assert(rows =~= want);
                    }
                }
            }
        }
        if !changed {
            proof {
                let rows = crate::ramps::grid_rows(grid@);
                let want = replayed(rows0, next_keys);
                assert forall|r: int| 0 <= r < rows.len() implies #[trigger] rows[r] =~= want[r] by {}
                assert(rows =~= want);
            }
        }
        i = i + 1;
    }
    proof {
        assert(key_texts(destroyed@).take(destroyed@.len() as int) =~= key_texts(destroyed@));
    }
}

/// A copy of `grid`, row by row.
pub fn clone_grid(grid: &Vec<String>) -> (copy: Vec<String>)
    ensures
        crate::ramps::grid_rows(copy@) == crate::ramps::grid_rows(grid@),
{
    let mut copy: Vec<String> = Vec::new();
    let mut i: usize = 0;
    while i < grid.len()
        invariant
            i <= grid@.len(),
            copy@.len() == i,
            forall|k: int| 0 <= k < i ==> (#[trigger] copy@[k])@ == grid@[k]@,
        decreases grid.len() - i,
    {
        let row = grid[i].clone();
        copy.push(row);
        i = i + 1;
    }
    proof {
        assert(crate::ramps::grid_rows(copy@) =~= crate::ramps::grid_rows(grid@));
    }
    copy
}

/// The grid the session checks walkability against: the active layer's
/// own, or the level-wide grid when the level has no such layer.
pub fn active_layer_grid(level_grid: &Vec<String>, layer_grids: &Vec<Vec<String>>, active_layer_index: usize) -> (grid:
    Vec<String>)
    ensures
        crate::ramps::grid_rows(grid@) == if active_layer_index < layer_grids@.len() {
            crate::ramps::grid_rows(layer_grids@[active_layer_index as int]@)
        } else {
            crate::ramps::grid_rows(level_grid@)
        },
{
    if active_layer_index < layer_grids.len() {
        clone_grid(&layer_grids[active_layer_index])
    } else {
        clone_grid(level_grid)
    }
}

/// Replaying the same destroyed-wall record twice opens nothing more
/// than replaying it once, and replaying never changes the grid's shape.
pub proof fn lemma_replay_idempotent(rows: Seq<Seq<char>>, keys: Seq<Seq<char>>)
    ensures
        replayed(replayed(rows, keys), keys) == replayed(rows, keys),
        replayed(rows, keys).len() == rows.len(),
        forall|r: int| 0 <= r < rows.len() ==> (#[trigger] replayed(rows, keys)[r]).len() == rows[r].len(),
{
    let once = replayed(rows, keys);
    let twice = replayed(once, keys);
    assert forall|r: int| 0 <= r < rows.len() implies #[trigger] twice[r] =~= once[r] by {}
    assert(twice =~= once);
}

proof fn lemma_decimal_digits(n: nat)
    ensures
        decimal(n).len() > 0,
        all_digits(decimal(n)),
        digits_value(decimal(n)) == n,
    decreases n,
{
    assert(digit_char(n % 10) as nat == '0' as nat + n % 10);
    if n < 10 {
        let whole = decimal(n);
        assert(whole.drop_last() =~= Seq::<char>::empty());
        assert(n % 10 == n);
        assert(whole.last() == digit_char(n));
        assert(digits_value(whole) == digits_value(whole.drop_last()) * 10 + (whole.last() as nat - '0' as nat) as nat);
    } else {
        lemma_decimal_digits(n / 10);
        let init = decimal(n / 10);
        let whole = decimal(n);
        assert(whole.drop_last() =~= init);
        assert(whole.last() == digit_char(n % 10));
        vstd::arithmetic::div_mod::lemma_fundamental_div_mod(n as int, 10);
        assert(digits_value(whole) == digits_value(init) * 10 + (whole.last() as nat - '0' as nat) as nat);
        assert forall|i: int| 0 <= i < whole.len() implies is_digit(#[trigger] whole[i]) by {
            if i < whole.len() - 1 {
                assert(whole[i] == init[i]);
            }
        }
    }
}

proof fn lemma_no_comma(s: Seq<char>)
    requires
        all_digits(s),
    ensures
        first_comma(s) is None,
    decreases s.len(),
{
    if s.len() > 0 {
        assert(all_digits(s.drop_last())) by {
            assert forall|i: int| 0 <= i < s.drop_last().len() implies is_digit(#[trigger] s.drop_last()[i]) by {
                assert(s.drop_last()[i] == s[i]);
            }
        }
        lemma_no_comma(s.drop_last());
        assert(is_digit(s[s.len() - 1]));
    }
}

/// Writing a cell as `"col,row"` and reading it back gives the same cell:
/// the destroyed-wall record survives the round trip through its keys.
pub proof fn lemma_wall_key_round_trip(col: nat, row: nat)
    requires
        col <= usize::MAX,
        row <= usize::MAX,
    ensures
        parse_cell_key(decimal(col) + seq![','] + decimal(row)) == Some((col, row)),
{
    let a = decimal(col);
    let b = decimal(row);
    let key = a + seq![','] + b;
    lemma_decimal_digits(col);
    lemma_decimal_digits(row);
    lemma_no_comma(a);
    assert(key.take(a.len() + 1int) =~= a.push(','));
    assert(a.push(',').drop_last() =~= a);
    lemma_first_comma_prefix(key, a.len() + 1int);
    assert(first_comma(key) == Some(a.len() as int));
    assert(key.subrange(0, a.len() as int) =~= a);
    assert(key.subrange(a.len() + 1int, key.len() as int) =~= b);
    assert(is_digit(a[0]));
    assert(is_digit(b[0]));
}

} // verus!
