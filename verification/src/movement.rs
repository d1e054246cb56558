//! The player's step commands: the short queue of commands pressed while
//! a step is still animating, and the bounds-only step used in no-clip
//! mode.

use vstd::prelude::*;
use std::collections::VecDeque;
use crate::ramps::{grid_rows, Facing};

verus! {

#[derive(Clone, Copy, PartialEq, Eq, Structural, Debug)]
pub enum Command {
    Forward,
    Back,
    StrafeLeft,
    StrafeRight,
    TurnLeft,
    TurnRight,
}

/// At most this many commands wait while a step animates.
pub const MAX_QUEUED_COMMANDS: usize = 3;

/// Commands waiting for the current step to finish, oldest first.
pub struct CommandQueue {
    commands: VecDeque<Command>,
}

impl CommandQueue {
    pub closed spec fn view(&self) -> Seq<Command> {
        self.commands@
    }

    pub open spec fn wf(&self) -> bool {
        self.view().len() <= MAX_QUEUED_COMMANDS
    }

    pub fn new() -> (queue: Self)
        ensures
            queue.wf(),
            queue.view() == Seq::<Command>::empty(),
    {
        CommandQueue { commands: VecDeque::new() }
    }

    pub fn len(&self) -> (n: usize)
        ensures
            n == self.view().len(),
    {
        self.commands.len()
    }

    /// Queues `command` at the back; a full queue drops it.
    pub fn enqueue(&mut self, command: Command)
        requires
            old(self).wf(),
        ensures
            final(self).wf(),
            final(self).view() == if old(self).view().len() < MAX_QUEUED_COMMANDS {
                old(self).view().push(command)
            } else {
                old(self).view()
            },
    {
        if self.commands.len() < MAX_QUEUED_COMMANDS {
            self.commands.push_back(command);
        }
    }

    /// Takes the oldest waiting command.
    pub fn pop_front(&mut self) -> (next: Option<Command>)
        requires
            old(self).wf(),
        ensures
            final(self).wf(),
            old(self).view().len() == 0 ==> next is None && final(self).view() == old(self).view(),
            old(self).view().len() > 0 ==> next == Some(old(self).view()[0]) && final(self).view() == old(
                self,
            ).view().drop_first(),
    {
        let next = self.commands.pop_front();
        proof {
            if next is Some {
                assert(self.commands@ =~= old(self).commands@.drop_first());
            }
        }
        next
    }

    /// Drops every waiting command (a fall starting cancels them).
    pub fn clear(&mut self)
        ensures
            final(self).wf(),
            final(self).view() == Seq::<Command>::empty(),
    {
        self.commands.clear();
    }
}

/// The cell a no-clip step by `delta` reaches: any cell inside the grid,
/// columns bounded by the first row's length; `None` outside it.
pub open spec fn spec_debug_step(rows: Seq<Seq<char>>, col: int, row: int, delta: (int, int)) -> Option<(int, int)> {
    let next_col = col + delta.0;
    let next_row = row + delta.1;
    if next_row >= 0 && next_col >= 0 && next_row < rows.len() && rows.len() > 0 && next_col < rows[0].len() {
        Some((next_col, next_row))
    } else {
        None
    }
}

pub fn debug_step(grid: &Vec<String>, col: i32, row: i32, delta: (i32, i32)) -> (next: Option<(i32, i32)>)
    requires
        i32::MIN <= col + delta.0 <= i32::MAX,
        i32::MIN <= row + delta.1 <= i32::MAX,
    ensures
        match spec_debug_step(grid_rows(grid@), col as int, row as int, (delta.0 as int, delta.1 as int)) {
            Some((c, r)) => next == Some((c as i32, r as i32)),
            None => next is None,
        },
{
    let next_col = col + delta.0;
    let next_row = row + delta.1;
    if next_row < 0 || next_col < 0 || next_row as usize >= grid.len() || grid.len() == 0 {
        return None;
    }
    let first_len = grid[0].as_str().unicode_len();
    proof {
        assert(grid_rows(grid@)[0] == grid@[0]@);
    }
    if next_col as usize >= first_len {
        return None;
    }
    Some((next_col, next_row))
}

/// What the world does after the player's pose changes.
#[derive(Clone, Copy, Debug)]
pub struct MoveReactions {
    /// The player changed cell; otherwise they only turned.
    pub moved: bool,
    /// The cell whose pressure plate and trigger are released.
    pub left_cell: Option<(i32, i32)>,
    /// A closed door under the player is forced open (and retried later).
    pub force_open_door: bool,
    /// Where the map is revealed around: the new pose, on turns too.
    pub reveal: (i32, i32, Facing),
    /// Key and item pickups, trigger, tripwire and plate activation, torch
    /// drain, the ramp-crossing check, then the hole check, then the stair
    /// check: all only after a move.
    pub step_effects: bool,
}

/// The reactions to a pose change from `last` to `now`, with
/// `closed_door_underfoot` telling whether the new cell holds a closed
/// door; `None` when the pose did not change.
pub fn plan_move(last: (i32, i32, Facing), now: (i32, i32, Facing), closed_door_underfoot: bool) -> (plan:
    Option<MoveReactions>)
    ensures
        match plan {
            None => last.0 == now.0 && last.1 == now.1 && last.2 == now.2,
            Some(p) => {
                let moved = last.0 != now.0 || last.1 != now.1;
                &&& !(last.0 == now.0 && last.1 == now.1 && last.2 == now.2)
                &&& p.moved == moved
                &&& p.left_cell == if moved { Some((last.0, last.1)) } else { None }
                &&& p.force_open_door == (moved && closed_door_underfoot)
                &&& p.reveal == now
                &&& p.step_effects == moved
            },
        },
{
    if last.0 == now.0 && last.1 == now.1 && last.2 == now.2 {
        return None;
    }
    let moved = last.0 != now.0 || last.1 != now.1;
    Some(MoveReactions {
        moved,
        left_cell: if moved { Some((last.0, last.1)) } else { None },
        force_open_door: moved && closed_door_underfoot,
        reveal: now,
        step_effects: moved,
    })
}

/// After a step, the player falls when standing above the ground floor
/// (on the layer reached after any ramp crossing) over an open floor cell
/// or an open pit trap.
pub fn falls_through(active_layer: usize, hole_below: bool, open_pit: bool) -> (falls: bool)
    ensures
        falls == (active_layer > 0 && (hole_below || open_pit)),
{
    active_layer > 0 && (hole_below || open_pit)
}

} // verus!
