use the_snakes::codec::{parse_action, parse_info};
use the_snakes::merger::{merged_command, turn_sign};
use the_snakes::registry::{launch_command, ControllerRegistry, ControllerState};
use the_snakes::{FailureKind, MovementCommand, PlayerId};

#[test]
fn discovery_assigns_sequential_ids() {
    let names = vec![String::from("bots/alpha.py"), String::from("bots/beta")];
    let reg = ControllerRegistry::discover(&names);
    assert_eq!(reg.slots.len(), 2);
    assert_eq!(reg.slots[0].player_id, PlayerId(1));
    assert_eq!(reg.slots[1].player_id, PlayerId(2));
    assert_eq!(reg.slots[0].name, "bots/alpha.py");
    assert_eq!(reg.slots[1].name, "bots/beta");
    assert_eq!(reg.slots[0].state, ControllerState::Discovered);
    assert_eq!(reg.slots[1].state, ControllerState::Discovered);
    assert!(reg.failures.is_empty());
}

#[test]
fn both_controllers_initialized_before_first_tick() {
    let names = vec![String::from("a.py"), String::from("b.py")];
    let mut reg = ControllerRegistry::discover(&names);
    // nothing is queried until its init exchange succeeded
    assert!(reg.active_players().is_empty());
    let one = parse_info("username one\n").unwrap();
    let two = parse_info("username two\n").unwrap();
    assert!(reg.has_discovered(PlayerId(1)));
    reg.record_init(PlayerId(1), Ok(one));
    assert!(reg.has_discovered(PlayerId(2)));
    reg.record_init(PlayerId(2), Ok(two));
    assert_eq!(reg.active_players(), vec![PlayerId(1), PlayerId(2)]);
    let a = reg.get_info(PlayerId(1)).unwrap();
    let b = reg.get_info(PlayerId(2)).unwrap();
    assert_eq!(a.username, "one");
    assert_eq!(b.username, "two");
    assert!(a.is_ai && b.is_ai);
}

#[test]
fn empty_username_keeps_controller_out() {
    let names = vec![String::from("a.py")];
    let mut reg = ControllerRegistry::discover(&names);
    let outcome = parse_info("username \n");
    assert!(outcome.is_err());
    assert!(reg.has_discovered(PlayerId(1)));
    reg.record_init(PlayerId(1), Err(FailureKind::ProtocolViolation));
    assert!(reg.active_players().is_empty());
    assert!(!reg.is_active(PlayerId(1)));
    assert_eq!(reg.failures.len(), 1);
    assert_eq!(reg.failures[0], (PlayerId(1), FailureKind::ProtocolViolation));
}

#[test]
fn closed_stream_reports_once_and_excludes() {
    let names = vec![String::from("a.py"), String::from("b.py")];
    let mut reg = ControllerRegistry::discover(&names);
    let one = parse_info("username one\n").unwrap();
    let two = parse_info("username two\n").unwrap();
    reg.record_init(PlayerId(1), Ok(one));
    reg.record_init(PlayerId(2), Ok(two));
    assert_eq!(reg.active_players(), vec![PlayerId(1), PlayerId(2)]);
    // controller 1 closed its output: a zero-byte read, one reported failure
    assert!(reg.is_active(PlayerId(1)));
    reg.record_failure(PlayerId(1), FailureKind::ProcessExited);
    assert_eq!(reg.failures.len(), 1);
    assert_eq!(reg.failures[0], (PlayerId(1), FailureKind::ProcessExited));
    // it is never queried again; the other controller still is
    assert_eq!(reg.active_players(), vec![PlayerId(2)]);
    assert_eq!(reg.slots[0].state, ControllerState::Disabled);
    assert_eq!(reg.slots[1].state, ControllerState::Active);
}

#[test]
fn spawn_failure_excludes_only_that_controller() {
    let names = vec![String::from("missing-binary"), String::from("b.py")];
    let mut reg = ControllerRegistry::discover(&names);
    // the first entry could not be spawned; the rest continue
    reg.record_init(PlayerId(1), Err(FailureKind::SpawnFailed));
    let two = parse_info("username two\n").unwrap();
    reg.record_init(PlayerId(2), Ok(two));
    assert_eq!(reg.active_players(), vec![PlayerId(2)]);
    assert_eq!(reg.failures, vec![(PlayerId(1), FailureKind::SpawnFailed)]);
}

#[test]
fn launcher_dispatch() {
    let (prog, args) = launch_command("bots/echo.py");
    assert_eq!(prog, "python3");
    assert_eq!(args, vec![String::from("bots/echo.py")]);
    let (prog, args) = launch_command("bots/native-bot");
    assert_eq!(prog, "bots/native-bot");
    assert!(args.is_empty());
}

#[test]
fn echo_ai_straight_leaves_heading_unchanged() {
    // one valid echo script that always replies "straight"
    let names = vec![String::from("echo.py")];
    let mut reg = ControllerRegistry::discover(&names);
    let info = parse_info("username echo\n").unwrap();
    assert_eq!(info.username, "echo");
    reg.record_init(PlayerId(1), Ok(info));
    assert_eq!(reg.active_players(), vec![PlayerId(1)]);
    // one tick: the reply to the action request is "straight"
    let cmd = parse_action("straight\n").unwrap();
    assert_eq!(cmd, MovementCommand::NoOps);
    let mut cmds: Vec<(PlayerId, MovementCommand)> = Vec::new();
    cmds.push((PlayerId(1), cmd));
    let merged = merged_command(&cmds, PlayerId(1));
    assert_eq!(merged, MovementCommand::NoOps);
    assert_eq!(turn_sign(merged), 0);
}
