use the_snakes::merger::{keyboard_command, merged_command, turn_sign};
use the_snakes::world::{build_world, collect_snakes, Position, SegmentRecord};
use the_snakes::{MovementCommand, PlayerId};

fn rec(player_id: i32, seg_id: i32, x: i32, y: i32) -> SegmentRecord {
    SegmentRecord { player_id, seg_id, pos: Position { x, y } }
}

#[test]
fn collect_snakes_groups_and_orders() {
    let records = vec![
        rec(2, 1, 21, 0),
        rec(1, 0, 10, 0),
        rec(2, 0, 20, 0),
        rec(1, 2, 12, 0),
        rec(1, 1, 11, 0),
    ];
    let snakes = collect_snakes(&records);
    assert_eq!(snakes.len(), 2);
    assert_eq!(snakes[0].player_id, 1);
    let xs: Vec<i32> = snakes[0].body.iter().map(|n| n.pos.x).collect();
    let ids: Vec<i32> = snakes[0].body.iter().map(|n| n.seg_id).collect();
    assert_eq!(ids, vec![0, 1, 2]);
    assert_eq!(xs, vec![10, 11, 12]);
    assert_eq!(snakes[1].player_id, 2);
    let ids2: Vec<i32> = snakes[1].body.iter().map(|n| n.seg_id).collect();
    assert_eq!(ids2, vec![0, 1]);
}

#[test]
fn collect_snakes_empty() {
    let snakes = collect_snakes(&Vec::new());
    assert!(snakes.is_empty());
}

#[test]
fn build_world_carries_foods_in_order() {
    let records = vec![rec(1, 0, 0, 0)];
    let foods = vec![Position { x: 4, y: 4 }, Position { x: -1, y: 2 }];
    let w = build_world(&records, &foods);
    assert_eq!(w.snakes.len(), 1);
    assert_eq!(w.foods.len(), 2);
    assert_eq!(w.foods[0].pos, Position { x: 4, y: 4 });
    assert_eq!(w.foods[1].pos, Position { x: -1, y: 2 });
}

#[test]
fn merger_opposite_commands_cancel() {
    let cmds = vec![
        (PlayerId(1), MovementCommand::TurnLeft),
        (PlayerId(1), MovementCommand::TurnRight),
    ];
    assert_eq!(merged_command(&cmds, PlayerId(1)), MovementCommand::NoOps);
}

#[test]
fn merger_single_commands() {
    let cmds = vec![
        (PlayerId(1), MovementCommand::TurnLeft),
        (PlayerId(2), MovementCommand::TurnRight),
        (PlayerId(3), MovementCommand::NoOps),
    ];
    assert_eq!(merged_command(&cmds, PlayerId(1)), MovementCommand::TurnLeft);
    assert_eq!(merged_command(&cmds, PlayerId(2)), MovementCommand::TurnRight);
    assert_eq!(merged_command(&cmds, PlayerId(3)), MovementCommand::NoOps);
    // a player with no recorded command is left unchanged
    assert_eq!(merged_command(&cmds, PlayerId(4)), MovementCommand::NoOps);
}

#[test]
fn turn_signs() {
    assert_eq!(turn_sign(MovementCommand::TurnLeft), 1);
    assert_eq!(turn_sign(MovementCommand::TurnRight), -1);
    assert_eq!(turn_sign(MovementCommand::NoOps), 0);
}

#[test]
fn keyboard_left_and_right_cancel() {
    assert_eq!(keyboard_command(true, true), None);
    assert_eq!(keyboard_command(true, false), Some(MovementCommand::TurnLeft));
    assert_eq!(keyboard_command(false, true), Some(MovementCommand::TurnRight));
    assert_eq!(keyboard_command(false, false), None);
}
