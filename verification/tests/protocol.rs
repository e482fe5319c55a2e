use the_snakes::codec::{
    encode_action_request, encode_init_request, encode_map_update, parse_action, parse_info,
    parse_map_update, parse_pos,
};
use the_snakes::world::{FoodBody, Position, SnakeBody, SnakeNode, SnakeWorld};
use the_snakes::{MovementCommand, PlayerId, ProtocolError};

fn pos(x: i32, y: i32) -> Position {
    Position { x, y }
}

#[test]
fn init_request_text() {
    let s = encode_init_request(PlayerId(3));
    assert_eq!(s, "INIT BEGIN\nplayer_id 3\nINIT END\n");
}

#[test]
fn init_request_text_negative_id() {
    let s = encode_init_request(PlayerId(-12));
    assert_eq!(s, "INIT BEGIN\nplayer_id -12\nINIT END\n");
}

#[test]
fn action_request_text() {
    assert_eq!(encode_action_request(), "REQUEST_ACTION\n");
}

#[test]
fn parse_info_valid() {
    let info = parse_info("username alice\n").unwrap();
    assert_eq!(info.username, "alice");
    assert!(info.is_ai);
}

#[test]
fn parse_info_keeps_remainder_after_first_space() {
    let info = parse_info("username alice the bold\n").unwrap();
    assert_eq!(info.username, "alice the bold");
}

#[test]
fn parse_info_empty_after_trim_fails() {
    let r = parse_info("username \n");
    assert_eq!(r.unwrap_err(), ProtocolError::EmptyUsername);
}

#[test]
fn parse_info_missing_prefix() {
    assert_eq!(parse_info("name bob\n").unwrap_err(), ProtocolError::MissingUsernamePrefix);
    assert_eq!(parse_info("username").unwrap_err(), ProtocolError::MissingUsername);
    assert_eq!(parse_info("").unwrap_err(), ProtocolError::MissingUsernamePrefix);
}

#[test]
fn parse_action_tokens() {
    assert_eq!(parse_action("turn_left\n").unwrap(), MovementCommand::TurnLeft);
    assert_eq!(parse_action("turn_right").unwrap(), MovementCommand::TurnRight);
    assert_eq!(parse_action("straight\n").unwrap(), MovementCommand::NoOps);
    assert_eq!(parse_action("turn_left now\n").unwrap(), MovementCommand::TurnLeft);
}

#[test]
fn parse_action_rejects_other_tokens() {
    assert_eq!(parse_action("jump\n").unwrap_err(), ProtocolError::UnknownCommand);
    assert_eq!(parse_action("TURN_LEFT\n").unwrap_err(), ProtocolError::UnknownCommand);
    assert_eq!(parse_action("\n").unwrap_err(), ProtocolError::EmptyCommand);
    assert_eq!(parse_action("").unwrap_err(), ProtocolError::EmptyCommand);
}

#[test]
fn position_text() {
    assert_eq!(pos(-3, 7).to_text(), "(-3,7)");
    assert_eq!(pos(0, 0).to_text(), "(0,0)");
}

#[test]
fn parse_pos_round() {
    assert_eq!(parse_pos("(-3,7)"), Some(pos(-3, 7)));
    assert_eq!(parse_pos("(12,-8)"), Some(pos(12, -8)));
    assert_eq!(parse_pos("(12,)"), None);
    assert_eq!(parse_pos("12,8"), None);
    assert_eq!(parse_pos("(12;8)"), None);
    assert_eq!(parse_pos("(012,8)"), None);
}

fn snake(id: i32, positions: &[(i32, i32)]) -> SnakeBody {
    let mut body = Vec::new();
    let mut seg: i32 = 0;
    for &(x, y) in positions {
        body.push(SnakeNode { seg_id: seg, pos: pos(x, y) });
        seg += 1;
    }
    SnakeBody { player_id: id, body }
}

#[test]
fn map_update_one_snake_one_food() {
    let w = SnakeWorld {
        snakes: vec![snake(1, &[(0, 0), (1, 0), (2, 0), (3, 0)])],
        foods: vec![FoodBody { pos: pos(5, 7) }],
    };
    let text = encode_map_update(&w);
    assert_eq!(text, "MAP BEGIN\nsnake 1 (0,0) (1,0) (2,0) (3,0)\nfood (5,7)\nMAP END\n");
    let lines: Vec<&str> = text.lines().collect();
    assert_eq!(lines.first(), Some(&"MAP BEGIN"));
    assert_eq!(lines.last(), Some(&"MAP END"));
    assert_eq!(lines.iter().filter(|l| l.starts_with("snake ")).count(), 1);
    assert_eq!(lines.iter().filter(|l| l.starts_with("food ")).count(), 1);
}

#[test]
fn map_update_empty_world() {
    let w = SnakeWorld { snakes: vec![], foods: vec![] };
    assert_eq!(encode_map_update(&w), "MAP BEGIN\nMAP END\n");
}

#[test]
fn map_round_trip() {
    let w = SnakeWorld {
        snakes: vec![
            snake(0, &[(-4, 9), (-5, 9)]),
            snake(2, &[(10, -20), (11, -20), (12, -20)]),
        ],
        foods: vec![FoodBody { pos: pos(0, -1) }, FoodBody { pos: pos(33, 44) }],
    };
    let text = encode_map_update(&w);
    let m = parse_map_update(&text).unwrap();
    assert_eq!(m.snakes.len(), 2);
    assert_eq!(m.snakes[0].player_id, 0);
    assert_eq!(m.snakes[0].positions, vec![pos(-4, 9), pos(-5, 9)]);
    assert_eq!(m.snakes[1].player_id, 2);
    assert_eq!(m.snakes[1].positions, vec![pos(10, -20), pos(11, -20), pos(12, -20)]);
    assert_eq!(m.foods, vec![pos(0, -1), pos(33, 44)]);
}

#[test]
fn map_decoder_rejects_malformed() {
    assert!(parse_map_update("").is_none());
    assert!(parse_map_update("MAP BEGIN\nMAP END").is_none());
    assert!(parse_map_update("MAP BEGIN\nsnake\nMAP END\n").is_none());
    assert!(parse_map_update("MAP BEGIN\nfood (1,2) (3,4)\nMAP END\n").is_none());
    assert!(parse_map_update("MAP BEGIN\nsnack 1 (0,0)\nMAP END\n").is_none());
    assert!(parse_map_update("snake 1 (0,0)\nMAP END\n").is_none());
}
