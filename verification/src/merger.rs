//! The decision merger: the movement commands collected from
//! controllers (and the keyboard) during one tick, folded into one turn
//! decision per player, applied exactly once. Opposite commands for the
//! same player within one tick cancel to no turn; a player with no
//! recorded command keeps its heading.

use vstd::prelude::*;

use crate::{MovementCommand, PlayerId};

verus! {

/// Whether some controller or key recorded `c` for `pid` this tick.
pub open spec fn has_cmd(
    cmds: Seq<(PlayerId, MovementCommand)>,
    pid: PlayerId,
    c: MovementCommand,
) -> bool {
    exists|k: int| 0 <= k < cmds.len() && cmds[k] == (pid, c)
}

/// The tick's one decision for `pid`: a turn only when exactly one of
/// the two turn directions was recorded for it.
pub open spec fn merged_spec(cmds: Seq<(PlayerId, MovementCommand)>, pid: PlayerId) -> MovementCommand {
    let l = has_cmd(cmds, pid, MovementCommand::TurnLeft);
    let r = has_cmd(cmds, pid, MovementCommand::TurnRight);
    if l && r {
        MovementCommand::NoOps
    } else if l {
        MovementCommand::TurnLeft
    } else if r {
        MovementCommand::TurnRight
    } else {
        MovementCommand::NoOps
    }
}

/// The sign of the per-tick angular step a command applies to the
/// player's heading: the engine rotates by this sign times its fixed
/// step, so `NoOps` leaves the heading unchanged.
pub open spec fn turn_sign_spec(c: MovementCommand) -> int {
    match c {
        MovementCommand::TurnLeft => 1,
        MovementCommand::TurnRight => -1,
        MovementCommand::NoOps => 0,
    }
}

/// The sign of the heading rotation `c` asks for.
pub fn turn_sign(c: MovementCommand) -> (r: i32)
    ensures
        r as int == turn_sign_spec(c),
        -1 <= r <= 1,
{
    match c {
        MovementCommand::TurnLeft => 1,
        MovementCommand::TurnRight => -1,
        MovementCommand::NoOps => 0,
    }
}

/// Folds the tick's recorded commands into `pid`'s one decision.
pub fn merged_command(cmds: &Vec<(PlayerId, MovementCommand)>, pid: PlayerId) -> (r: MovementCommand)
    ensures
        r == merged_spec(cmds@, pid),
{
    let mut saw_left = false;
    let mut saw_right = false;
    let mut k: usize = 0;
    while k < cmds.len()
        invariant
            0 <= k <= cmds@.len(),
            saw_left == has_cmd(cmds@.take(k as int), pid, MovementCommand::TurnLeft),
            saw_right == has_cmd(cmds@.take(k as int), pid, MovementCommand::TurnRight),
        decreases cmds@.len() - k,
    {
        let (p, c) = cmds[k];
        proof {
            assert(cmds@.take(k + 1).drop_last() =~= cmds@.take(k as int));
            assert(cmds@.take(k + 1)[k as int] == cmds@[k as int]);
            assert(forall|j: int| 0 <= j < k ==> cmds@.take(k + 1)[j] == cmds@.take(k as int)[j]);
            assert forall|cc: MovementCommand|
                has_cmd(cmds@.take(k + 1), pid, cc) <==> (has_cmd(cmds@.take(k as int), pid, cc)
                    || cmds@[k as int] == (pid, cc)) by {
                if has_cmd(cmds@.take(k + 1), pid, cc) {
                    let j = choose|j: int|
                        0 <= j < cmds@.take(k + 1).len() && (#[trigger] cmds@.take(k + 1)[j]) == (
                        pid,
                        cc,
                        );
                    if j < k {
                        assert(cmds@.take(k as int)[j] == (pid, cc));
                    }
                }
                if has_cmd(cmds@.take(k as int), pid, cc) {
                    let j = choose|j: int|
                        0 <= j < cmds@.take(k as int).len() && (#[trigger] cmds@.take(k as int)[j])
                            == (pid, cc);
                    assert(cmds@.take(k + 1)[j] == (pid, cc));
                }
                if cmds@[k as int] == (pid, cc) {
                    assert(cmds@.take(k + 1)[k as int] == (pid, cc));
                }
            }
        }
        if p == pid {
            match c {
                MovementCommand::TurnLeft => {
                    saw_left = true;
                },
                MovementCommand::TurnRight => {
                    saw_right = true;
                },
                MovementCommand::NoOps => {},
            }
        }
        k += 1;
    }
    proof {
        assert(cmds@.take(cmds@.len() as int) =~= cmds@);
    }
    if saw_left && saw_right {
        MovementCommand::NoOps
    } else if saw_left {
        MovementCommand::TurnLeft
    } else if saw_right {
        MovementCommand::TurnRight
    } else {
        MovementCommand::NoOps
    }
}

/// The keyboard's contribution for the local player: left and right
/// pressed together cancel, as opposite commands do.
pub fn keyboard_command(left: bool, right: bool) -> (r: Option<MovementCommand>)
    ensures
        (left && right) ==> r is None,
        (left && !right) ==> r == Some(MovementCommand::TurnLeft),
        (right && !left) ==> r == Some(MovementCommand::TurnRight),
        (!left && !right) ==> r is None,
{
    if left && right {
        None
    } else if left {
        Some(MovementCommand::TurnLeft)
    } else if right {
        Some(MovementCommand::TurnRight)
    } else {
        None
    }
}

/// Opposite commands recorded for one player in one tick collapse to
/// no turn: the player's heading is then left unchanged.
pub proof fn lemma_opposite_cancel(cmds: Seq<(PlayerId, MovementCommand)>, pid: PlayerId)
    requires
        has_cmd(cmds, pid, MovementCommand::TurnLeft),
        has_cmd(cmds, pid, MovementCommand::TurnRight),
    ensures
        merged_spec(cmds, pid) == MovementCommand::NoOps,
        turn_sign_spec(merged_spec(cmds, pid)) == 0,
{
}

/// A player for which nothing was recorded, or only `NoOps`, keeps its
/// heading: the merged decision rotates by nothing.
pub proof fn lemma_no_command_no_turn(cmds: Seq<(PlayerId, MovementCommand)>, pid: PlayerId)
    requires
        !has_cmd(cmds, pid, MovementCommand::TurnLeft),
        !has_cmd(cmds, pid, MovementCommand::TurnRight),
    ensures
        merged_spec(cmds, pid) == MovementCommand::NoOps,
        turn_sign_spec(merged_spec(cmds, pid)) == 0,
{
}

} // verus!
