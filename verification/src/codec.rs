//! The line protocol spoken with an AI controller, all messages
//! newline-terminated text:
//!
//! - init request: `INIT BEGIN` / `player_id <int>` / `INIT END`
//! - init response: one line `username <name>`
//! - map update: `MAP BEGIN`, one `snake <id> <pos>...` line per snake,
//!   one `food <pos>` line per food item, `MAP END`
//! - action request: one line `REQUEST_ACTION`
//! - action response: one line whose first token is `turn_left`,
//!   `turn_right` or `straight`
//!
//! Positions are rendered `(x,y)` with the coordinates in canonical
//! decimal, the crate's fixed, stable formatting rule for the wire.

use vstd::prelude::*;

use crate::num::{append_int, int_chars, parse_int, parse_int_spec};
use crate::text::{
    find_char, find_in_str, join_with, split_on, split_str, str_eq, trim_spec, trim_str,
};
use crate::world::{FoodBody, Position, SnakeBody, SnakeWorld};
use crate::{MovementCommand, PlayerId, PlayerInfo, ProtocolError};

verus! {

/// The textual form of a position: `(x,y)`.
pub open spec fn pos_chars(p: Position) -> Seq<char> {
    seq!['('] + int_chars(p.x as int) + seq![','] + int_chars(p.y as int) + seq![')']
}

/// One `snake` line: the keyword, the player identifier, then every
/// segment position in body order, separated by single spaces.
pub open spec fn snake_line_chars(s: SnakeBody) -> Seq<char> {
    join_with(
        seq!["snake"@, int_chars(s.player_id as int)] + s.body@.map_values(
            |n: crate::world::SnakeNode| pos_chars(n.pos),
        ),
        ' ',
    )
}

/// One `food` line: the keyword and the position.
pub open spec fn food_line_chars(f: FoodBody) -> Seq<char> {
    join_with(seq!["food"@, pos_chars(f.pos)], ' ')
}

/// Every line of a map update, in order, without the terminators.
pub open spec fn map_lines(w: SnakeWorld) -> Seq<Seq<char>> {
    seq!["MAP BEGIN"@] + w.snakes@.map_values(|s: SnakeBody| snake_line_chars(s))
        + w.foods@.map_values(|f: FoodBody| food_line_chars(f)) + seq!["MAP END"@]
}

/// The lines of a message, each terminated by a newline.
pub open spec fn join_lines(lines: Seq<Seq<char>>) -> Seq<char>
    decreases lines.len(),
{
    if lines.len() == 0 {
        Seq::<char>::empty()
    } else {
        lines[0] + seq!['\n'] + join_lines(lines.skip(1))
    }
}

/// The full serialized map update for one snapshot.
pub open spec fn map_update_chars(w: SnakeWorld) -> Seq<char> {
    join_lines(map_lines(w))
}

/// The full serialized init request for one player identifier.
pub open spec fn init_request_chars(pid: int) -> Seq<char> {
    "INIT BEGIN\nplayer_id "@ + int_chars(pid) + "\nINIT END\n"@
}

pub proof fn lemma_join_lines_push(lines: Seq<Seq<char>>, l: Seq<char>)
    ensures
        join_lines(lines.push(l)) == join_lines(lines) + l + seq!['\n'],
    decreases lines.len(),
{
    reveal_with_fuel(join_lines, 3);
    if lines.len() == 0 {
        assert(lines.push(l).skip(1) =~= Seq::<Seq<char>>::empty());
        assert(join_lines(lines.push(l)) =~= join_lines(lines) + l + seq!['\n']);
    } else {
        assert(lines.push(l).skip(1) =~= lines.skip(1).push(l));
        lemma_join_lines_push(lines.skip(1), l);
        assert(join_lines(lines.push(l)) =~= join_lines(lines) + l + seq!['\n']);
    }
}

proof fn lemma_space_chars()
    ensures
        " "@ == seq![' '],
        "\n"@ == seq!['\n'],
        "("@ == seq!['('],
        ","@ == seq![','],
        ")"@ == seq![')'],
{
    reveal_strlit(" ");
    reveal_strlit("\n");
    reveal_strlit("(");
    reveal_strlit(",");
    reveal_strlit(")");
    assert(" "@ =~= seq![' ']);
    assert("\n"@ =~= seq!['\n']);
    assert("("@ =~= seq!['(']);
    assert(","@ =~= seq![',']);
    assert(")"@ =~= seq![')']);
}

impl Position {
    /// The wire text `(x,y)` of this position.
    pub fn to_text(&self) -> (r: String)
        ensures
            r@ == pos_chars(*self),
    {
        let mut out = String::new();
        append_pos(&mut out, *self);
        proof {
            assert(out@ =~= pos_chars(*self));
        }
        out
    }
}

/// Appends the wire text of a position.
pub fn append_pos(out: &mut String, p: Position)
    ensures
        final(out)@ == old(out)@ + pos_chars(p),
{
    proof {
        lemma_space_chars();
    }
    out.append("(");
    append_int(out, p.x);
    out.append(",");
    append_int(out, p.y);
    out.append(")");
    proof {
        assert(out@ =~= old(out)@ + pos_chars(p));
    }
}

/// The init request sent to a controller before its response is read.
pub fn encode_init_request(player_id: PlayerId) -> (r: String)
    ensures
        r@ == init_request_chars(player_id.0 as int),
{
    let mut out = String::from_str("INIT BEGIN\nplayer_id ");
    append_int(&mut out, player_id.0);
    out.append("\nINIT END\n");
    proof {
        assert(out@ =~= init_request_chars(player_id.0 as int));
    }
    out
}

/// The single-line request for this tick's movement decision.
pub fn encode_action_request() -> (r: String)
    ensures
        r@ == "REQUEST_ACTION\n"@,
{
    String::from_str("REQUEST_ACTION\n")
}

/// One serialized `snake` line, without its newline.
fn snake_line(s: &SnakeBody) -> (r: String)
    ensures
        r@ == snake_line_chars(*s),
{
    let ghost toks = seq!["snake"@, int_chars(s.player_id as int)] + s.body@.map_values(
        |n: crate::world::SnakeNode| pos_chars(n.pos),
    );
    let mut out = String::from_str("snake");
    proof {
        lemma_space_chars();
    }
    out.append(" ");
    append_int(&mut out, s.player_id);
    proof {
        reveal_with_fuel(join_with, 3);
        assert(toks.take(2) =~= seq!["snake"@, int_chars(s.player_id as int)]);
        assert(toks.take(2).skip(1) =~= seq![int_chars(s.player_id as int)]);
        assert(out@ =~= join_with(toks.take(2), ' '));
    }
    let mut j: usize = 0;
    while j < s.body.len()
        invariant
            toks == seq!["snake"@, int_chars(s.player_id as int)] + s.body@.map_values(
                |n: crate::world::SnakeNode| pos_chars(n.pos),
            ),
            0 <= j <= s.body@.len(),
            toks.len() == 2 + s.body@.len(),
            out@ == join_with(toks.take(2 + j), ' '),
        decreases s.body@.len() - j,
    {
        proof {
            lemma_space_chars();
        }
        out.append(" ");
        append_pos(&mut out, s.body[j].pos);
        proof {
            crate::text::lemma_join_with_push(toks.take(2 + j), toks[2 + j], ' ');
            assert(toks[2 + j] == pos_chars(s.body@[j as int].pos));
            assert(toks.take(2 + j + 1) =~= toks.take(2 + j).push(toks[2 + j]));
            assert(out@ =~= join_with(toks.take(2 + j + 1), ' '));
        }
        j += 1;
    }
    proof {
        assert(toks.take(toks.len() as int) =~= toks);
    }
    out
}

/// One serialized `food` line, without its newline.
fn food_line(f: &FoodBody) -> (r: String)
    ensures
        r@ == food_line_chars(*f),
{
    let mut out = String::from_str("food");
    proof {
        lemma_space_chars();
    }
    out.append(" ");
    append_pos(&mut out, f.pos);
    proof {
        reveal_with_fuel(join_with, 3);
        let toks = seq!["food"@, pos_chars(f.pos)];
        assert(toks.skip(1) =~= seq![pos_chars(f.pos)]);
        assert(out@ =~= join_with(toks, ' '));
    }
    out
}

/// The full map update for one snapshot, ready to be written to a
/// controller's input. Serializing reads the snapshot only; it is the
/// caller's shared read-only view of the tick.
pub fn encode_map_update(w: &SnakeWorld) -> (r: String)
    ensures
        r@ == map_update_chars(*w),
{
    let mut out = String::from_str("MAP BEGIN");
    proof {
        lemma_space_chars();
    }
    out.append("\n");
    let ghost snake_cl = |s: SnakeBody| snake_line_chars(s);
    let ghost food_cl = |f: FoodBody| food_line_chars(f);
    proof {
        reveal_with_fuel(join_lines, 3);
        assert(seq!["MAP BEGIN"@].skip(1) =~= Seq::<Seq<char>>::empty());
        assert(out@ =~= join_lines(seq!["MAP BEGIN"@]));
    }
    let mut i: usize = 0;
    while i < w.snakes.len()
        invariant
            0 <= i <= w.snakes@.len(),
            out@ == join_lines(seq!["MAP BEGIN"@] + w.snakes@.take(i as int).map_values(snake_cl)),
            snake_cl == (|s: SnakeBody| snake_line_chars(s)),
        decreases w.snakes@.len() - i,
    {
        let l = snake_line(&w.snakes[i]);
        out.append(l.as_str());
        proof {
            lemma_space_chars();
        }
        out.append("\n");
        proof {
            let done = seq!["MAP BEGIN"@] + w.snakes@.take(i as int).map_values(snake_cl);
            lemma_join_lines_push(done, l@);
            assert(w.snakes@.take(i + 1) =~= w.snakes@.take(i as int).push(w.snakes@[i as int]));
            assert(w.snakes@.take(i + 1).map_values(snake_cl) =~= w.snakes@.take(
                i as int,
            ).map_values(snake_cl).push(snake_line_chars(w.snakes@[i as int])));
            assert(seq!["MAP BEGIN"@] + w.snakes@.take(i + 1).map_values(snake_cl) =~= done.push(
                l@,
            ));
            assert(out@ =~= join_lines(done.push(l@)));
        }
        i += 1;
    }
    proof {
        assert(w.snakes@.take(w.snakes@.len() as int) =~= w.snakes@);
    }
    let ghost snakes_done = seq!["MAP BEGIN"@] + w.snakes@.map_values(snake_cl);
    let mut f: usize = 0;
    while f < w.foods.len()
        invariant
            0 <= f <= w.foods@.len(),
            out@ == join_lines(snakes_done + w.foods@.take(f as int).map_values(food_cl)),
            snakes_done == seq!["MAP BEGIN"@] + w.snakes@.map_values(snake_cl),
            snake_cl == (|s: SnakeBody| snake_line_chars(s)),
            food_cl == (|fd: FoodBody| food_line_chars(fd)),
        decreases w.foods@.len() - f,
    {
        proof {
            if f == 0 {
                assert(w.foods@.take(0).map_values(food_cl) =~= Seq::<Seq<char>>::empty());
                assert(snakes_done + w.foods@.take(0).map_values(food_cl) =~= snakes_done);
            }
        }
        let l = food_line(&w.foods[f]);
        out.append(l.as_str());
        proof {
            lemma_space_chars();
        }
        out.append("\n");
        proof {
            let done = snakes_done + w.foods@.take(f as int).map_values(food_cl);
            lemma_join_lines_push(done, l@);
            assert(w.foods@.take(f + 1) =~= w.foods@.take(f as int).push(w.foods@[f as int]));
            assert(w.foods@.take(f + 1).map_values(food_cl) =~= w.foods@.take(
                f as int,
            ).map_values(food_cl).push(food_line_chars(w.foods@[f as int])));
            assert(snakes_done + w.foods@.take(f + 1).map_values(food_cl) =~= done.push(l@));
            assert(out@ =~= join_lines(done.push(l@)));
        }
        f += 1;
    }
    proof {
        assert(w.foods@.take(w.foods@.len() as int) =~= w.foods@);
        if w.foods@.len() == 0 {
            assert(w.foods@.take(0).map_values(food_cl) =~= Seq::<Seq<char>>::empty());
            assert(snakes_done + w.foods@.take(0).map_values(food_cl) =~= snakes_done);
        }
    }
    out.append("MAP END");
    proof {
        lemma_space_chars();
    }
    out.append("\n");
    proof {
        let done = snakes_done + w.foods@.map_values(food_cl);
        lemma_join_lines_push(done, "MAP END"@);
        assert(map_lines(*w) =~= done.push("MAP END"@));
        assert(out@ =~= join_lines(map_lines(*w)));
    }
    out
}

/// Meaning of an init response line: the name is the remainder after
/// the first space, trimmed; it must be present and non-empty.
pub open spec fn parse_info_spec(line: Seq<char>) -> Result<Seq<char>, ProtocolError> {
    let i = find_char(line, ' ');
    if i == -1 {
        if line == "username"@ {
            Result::Err(ProtocolError::MissingUsername)
        } else {
            Result::Err(ProtocolError::MissingUsernamePrefix)
        }
    } else if line.take(i) != "username"@ {
        Result::Err(ProtocolError::MissingUsernamePrefix)
    } else {
        let name = trim_spec(line.skip(i + 1));
        if name.len() == 0 {
            Result::Err(ProtocolError::EmptyUsername)
        } else {
            Result::Ok(name)
        }
    }
}

/// Decodes an init response line into the player's identity. The
/// username is exactly the trimmed remainder of the line after the
/// first space, and is never empty.
pub fn parse_info(line: &str) -> (r: Result<PlayerInfo, ProtocolError>)
    ensures
        match r {
            Ok(info) => parse_info_spec(line@) == Result::<Seq<char>, ProtocolError>::Ok(
                info.username@,
            ) && info.is_ai && info.username@.len() > 0,
            Err(e) => parse_info_spec(line@) == Result::<Seq<char>, ProtocolError>::Err(e),
        },
{
    match find_in_str(line, ' ') {
        None => {
            if str_eq(line, "username") {
                Err(ProtocolError::MissingUsername)
            } else {
                Err(ProtocolError::MissingUsernamePrefix)
            }
        },
        Some(i) => {
            proof {
                crate::text::lemma_find_char_props(line@, ' ');
            }
            let head = line.substring_char(0, i);
            proof {
                assert(head@ =~= line@.take(i as int));
            }
            if !str_eq(head, "username") {
                return Err(ProtocolError::MissingUsernamePrefix);
            }
            let n = line.unicode_len();
            let rest = line.substring_char(i + 1, n);
            proof {
                assert(rest@ =~= line@.skip(i + 1));
            }
            let name = trim_str(rest);
            if name.unicode_len() == 0 {
                Err(ProtocolError::EmptyUsername)
            } else {
                Ok(PlayerInfo { username: String::from_str(name), is_ai: true })
            }
        },
    }
}

/// The first token of an action response line, trimmed.
pub open spec fn first_token(line: Seq<char>) -> Seq<char> {
    let i = find_char(line, ' ');
    if i == -1 {
        trim_spec(line)
    } else {
        trim_spec(line.take(i))
    }
}

/// Meaning of an action response line: its first token names the
/// command; an empty or unknown token is a protocol violation.
pub open spec fn parse_action_spec(line: Seq<char>) -> Result<MovementCommand, ProtocolError> {
    let t = first_token(line);
    if t.len() == 0 {
        Result::Err(ProtocolError::EmptyCommand)
    } else if t == "turn_left"@ {
        Result::Ok(MovementCommand::TurnLeft)
    } else if t == "turn_right"@ {
        Result::Ok(MovementCommand::TurnRight)
    } else if t == "straight"@ {
        Result::Ok(MovementCommand::NoOps)
    } else {
        Result::Err(ProtocolError::UnknownCommand)
    }
}

/// Decodes an action response line into a movement command.
pub fn parse_action(line: &str) -> (r: Result<MovementCommand, ProtocolError>)
    ensures
        r == parse_action_spec(line@),
{
    let tok = match find_in_str(line, ' ') {
        None => line,
        Some(i) => {
            proof {
                crate::text::lemma_find_char_props(line@, ' ');
            }
            let t = line.substring_char(0, i);
            proof {
                assert(t@ =~= line@.take(i as int));
            }
            t
        },
    };
    let t = trim_str(tok);
    if t.unicode_len() == 0 {
        Err(ProtocolError::EmptyCommand)
    } else if str_eq(t, "turn_left") {
        Ok(MovementCommand::TurnLeft)
    } else if str_eq(t, "turn_right") {
        Ok(MovementCommand::TurnRight)
    } else if str_eq(t, "straight") {
        Ok(MovementCommand::NoOps)
    } else {
        Err(ProtocolError::UnknownCommand)
    }
}

/// The three action tokens decode to their commands and nothing else
/// decodes at all: an unknown or empty first token fails.
pub proof fn lemma_action_decoding(line: Seq<char>)
    ensures
        first_token(line) == "turn_left"@ ==> parse_action_spec(line) == Result::<
            MovementCommand,
            ProtocolError,
        >::Ok(MovementCommand::TurnLeft),
        first_token(line) == "turn_right"@ ==> parse_action_spec(line) == Result::<
            MovementCommand,
            ProtocolError,
        >::Ok(MovementCommand::TurnRight),
        first_token(line) == "straight"@ ==> parse_action_spec(line) == Result::<
            MovementCommand,
            ProtocolError,
        >::Ok(MovementCommand::NoOps),
        first_token(line) != "turn_left"@ && first_token(line) != "turn_right"@ && first_token(
            line,
        ) != "straight"@ ==> parse_action_spec(line) is Err,
{
    reveal_strlit("turn_left");
    reveal_strlit("turn_right");
    reveal_strlit("straight");
    assert("turn_left"@.len() == 9);
}

/// The `(id, ordered positions)` pair a snake contributes to the wire.
pub open spec fn snake_pair(s: SnakeBody) -> (int, Seq<Position>) {
    (s.player_id as int, s.body@.map_values(|n: crate::world::SnakeNode| n.pos))
}

/// The `(id, ordered positions)` pairs of a snapshot, in stored order.
pub open spec fn wire_snakes(w: SnakeWorld) -> Seq<(int, Seq<Position>)> {
    w.snakes@.map_values(|s: SnakeBody| snake_pair(s))
}

/// The food positions of a snapshot, in stored order.
pub open spec fn wire_foods(w: SnakeWorld) -> Seq<Position> {
    w.foods@.map_values(|f: FoodBody| f.pos)
}

/// Meaning of a position token: `(x,y)` with two decimal coordinates.
pub open spec fn parse_pos_spec(s: Seq<char>) -> Option<Position> {
    if s.len() >= 2 && s[0] == '(' && s[s.len() - 1] == ')' {
        let ps = split_on(s.subrange(1, s.len() - 1), ',');
        if ps.len() == 2 {
            match parse_int_spec(ps[0]) {
                Some(xv) => match parse_int_spec(ps[1]) {
                    Some(yv) => Some(Position { x: xv as i32, y: yv as i32 }),
                    None => None,
                },
                None => None,
            }
        } else {
            None
        }
    } else {
        None
    }
}

/// Meaning of a sequence of position tokens, all of which must parse.
pub open spec fn parse_pos_list(toks: Seq<Seq<char>>) -> Option<Seq<Position>>
    decreases toks.len(),
{
    if toks.len() == 0 {
        Some(Seq::<Position>::empty())
    } else {
        match parse_pos_spec(toks[0]) {
            Some(p) => match parse_pos_list(toks.skip(1)) {
                Some(r) => Some(seq![p] + r),
                None => None,
            },
            None => None,
        }
    }
}

/// Meaning of a `snake` line: the keyword, a player identifier, then
/// the segment positions in order.
pub open spec fn parse_snake_line_spec(line: Seq<char>) -> Option<(int, Seq<Position>)> {
    let toks = split_on(line, ' ');
    if toks.len() >= 2 && toks[0] == "snake"@ {
        match parse_int_spec(toks[1]) {
            Some(id) => match parse_pos_list(toks.skip(2)) {
                Some(ps) => Some((id, ps)),
                None => None,
            },
            None => None,
        }
    } else {
        None
    }
}

/// Meaning of a `food` line: the keyword and one position.
pub open spec fn parse_food_line_spec(line: Seq<char>) -> Option<Position> {
    let toks = split_on(line, ' ');
    if toks.len() == 2 && toks[0] == "food"@ {
        parse_pos_spec(toks[1])
    } else {
        None
    }
}

/// Meaning of the lines between the `MAP` markers: each must be a
/// `snake` or a `food` line; their order within each kind is kept.
pub open spec fn parse_body_lines(lines: Seq<Seq<char>>) -> Option<
    (Seq<(int, Seq<Position>)>, Seq<Position>),
>
    decreases lines.len(),
{
    if lines.len() == 0 {
        Some((Seq::<(int, Seq<Position>)>::empty(), Seq::<Position>::empty()))
    } else {
        match parse_snake_line_spec(lines[0]) {
            Some(sn) => match parse_body_lines(lines.skip(1)) {
                Some(rest) => Some((seq![sn] + rest.0, rest.1)),
                None => None,
            },
            None => match parse_food_line_spec(lines[0]) {
                Some(p) => match parse_body_lines(lines.skip(1)) {
                    Some(rest) => Some((rest.0, seq![p] + rest.1)),
                    None => None,
                },
                None => None,
            },
        }
    }
}

/// Meaning of a whole map update: newline-terminated lines, the first
/// `MAP BEGIN`, the last `MAP END`, snakes and foods between them.
pub open spec fn parse_map_spec(s: Seq<char>) -> Option<
    (Seq<(int, Seq<Position>)>, Seq<Position>),
> {
    let parts = split_on(s, '\n');
    if parts.len() >= 3 && parts[parts.len() - 1] == Seq::<char>::empty() && parts[0]
        == "MAP BEGIN"@ && parts[parts.len() - 2] == "MAP END"@ {
        parse_body_lines(parts.subrange(1, parts.len() - 2))
    } else {
        None
    }
}

proof fn lemma_keyword_chars()
    ensures
        "snake"@ =~= seq!['s', 'n', 'a', 'k', 'e'],
        "food"@ =~= seq!['f', 'o', 'o', 'd'],
        "MAP BEGIN"@ =~= seq!['M', 'A', 'P', ' ', 'B', 'E', 'G', 'I', 'N'],
        "MAP END"@ =~= seq!['M', 'A', 'P', ' ', 'E', 'N', 'D'],
        "snake"@ != "food"@,
{
    reveal_strlit("snake");
    reveal_strlit("food");
    reveal_strlit("MAP BEGIN");
    reveal_strlit("MAP END");
    assert("snake"@ =~= seq!['s', 'n', 'a', 'k', 'e']);
    assert("food"@ =~= seq!['f', 'o', 'o', 'd']);
    assert("MAP BEGIN"@ =~= seq!['M', 'A', 'P', ' ', 'B', 'E', 'G', 'I', 'N']);
    assert("MAP END"@ =~= seq!['M', 'A', 'P', ' ', 'E', 'N', 'D']);
    assert("snake"@.len() != "food"@.len());
}

/// No character of a position token is a space or a newline.
pub proof fn lemma_pos_chars_class(p: Position)
    ensures
        forall|k: int|
            0 <= k < pos_chars(p).len() ==> (#[trigger] pos_chars(p)[k]) != ' ' && pos_chars(p)[k]
                != '\n',
{
    crate::num::lemma_int_chars_class(p.x as int);
    crate::num::lemma_int_chars_class(p.y as int);
    let a = int_chars(p.x as int);
    let b = int_chars(p.y as int);
    let s = pos_chars(p);
    assert forall|k: int| 0 <= k < s.len() implies (#[trigger] s[k]) != ' ' && s[k] != '\n' by {
        if k == 0 {
            assert(s[k] == '(');
        } else if k <= a.len() {
            assert(s[k] == a[k - 1]);
        } else if k == a.len() + 1 {
            assert(s[k] == ',');
        } else if k <= a.len() + 1 + b.len() {
            assert(s[k] == b[k - a.len() - 2]);
        } else {
            assert(s[k] == ')');
        }
    }
}

/// Parsing a rendered position yields the position again.
pub proof fn lemma_pos_round_trip(p: Position)
    ensures
        parse_pos_spec(pos_chars(p)) == Some(p),
{
    let a = int_chars(p.x as int);
    let b = int_chars(p.y as int);
    let s = pos_chars(p);
    crate::num::lemma_int_chars_class(p.x as int);
    crate::num::lemma_int_chars_class(p.y as int);
    crate::num::lemma_parse_int_chars(p.x as int);
    crate::num::lemma_parse_int_chars(p.y as int);
    assert(s[0] == '(');
    assert(s[s.len() - 1] == ')');
    assert(s.len() >= 2);
    let inner = s.subrange(1, s.len() - 1);
    assert(inner =~= a + seq![','] + b);
    crate::text::lemma_split_on_concat(a, b, ',');
    crate::text::lemma_split_on_absent(b, ',');
    let ps = split_on(inner, ',');
    assert(ps == seq![a] + seq![b]);
    assert(ps.len() == 2);
    assert(ps[0] == a);
    assert(ps[1] == b);
    assert((p.x as int) as i32 == p.x);
    assert((p.y as int) as i32 == p.y);
}

/// Parsing the rendered position tokens yields the positions again.
proof fn lemma_pos_list_round_trip(ps: Seq<Position>)
    ensures
        parse_pos_list(ps.map_values(|p: Position| pos_chars(p))) == Some(ps),
    decreases ps.len(),
{
    let toks = ps.map_values(|p: Position| pos_chars(p));
    if ps.len() == 0 {
        assert(toks.len() == 0);
    } else {
        lemma_pos_round_trip(ps[0]);
        assert(toks[0] == pos_chars(ps[0]));
        assert(toks.skip(1) =~= ps.skip(1).map_values(|p: Position| pos_chars(p)));
        lemma_pos_list_round_trip(ps.skip(1));
        assert(seq![ps[0]] + ps.skip(1) =~= ps);
    }
}

/// The tokens of a snake line, as the splitter recovers them.
proof fn lemma_snake_line_tokens(s: SnakeBody)
    ensures
        split_on(snake_line_chars(s), ' ') == seq!["snake"@, int_chars(s.player_id as int)]
            + s.body@.map_values(|n: crate::world::SnakeNode| pos_chars(n.pos)),
        forall|k: int|
            0 <= k < snake_line_chars(s).len() ==> (#[trigger] snake_line_chars(s)[k]) != '\n',
{
    let toks = seq!["snake"@, int_chars(s.player_id as int)] + s.body@.map_values(
        |n: crate::world::SnakeNode| pos_chars(n.pos),
    );
    lemma_keyword_chars();
    crate::num::lemma_int_chars_class(s.player_id as int);
    assert forall|i: int, j: int|
        0 <= i < toks.len() && 0 <= j < toks[i].len() implies #[trigger] toks[i][j] != ' ' by {
        if i == 0 {
        } else if i == 1 {
        } else {
            let cl = |n: crate::world::SnakeNode| pos_chars(n.pos);
            assert(toks[i] == cl(s.body@[i - 2]));
            lemma_pos_chars_class(s.body@[i - 2].pos);
        }
    }
    assert forall|i: int, j: int|
        0 <= i < toks.len() && 0 <= j < toks[i].len() implies #[trigger] toks[i][j] != '\n' by {
        if i == 0 {
        } else if i == 1 {
        } else {
            let cl = |n: crate::world::SnakeNode| pos_chars(n.pos);
            assert(toks[i] == cl(s.body@[i - 2]));
            lemma_pos_chars_class(s.body@[i - 2].pos);
        }
    }
    crate::text::lemma_split_join(toks, ' ');
    crate::text::lemma_join_with_free(toks, ' ', '\n');
}

/// Parsing a rendered snake line yields the snake's wire pair, and the
/// line is not mistakable for a food line.
pub proof fn lemma_snake_line_round_trip(s: SnakeBody)
    ensures
        parse_snake_line_spec(snake_line_chars(s)) == Some(snake_pair(s)),
        forall|k: int|
            0 <= k < snake_line_chars(s).len() ==> (#[trigger] snake_line_chars(s)[k]) != '\n',
{
    lemma_snake_line_tokens(s);
    let toks = split_on(snake_line_chars(s), ' ');
    crate::num::lemma_parse_int_chars(s.player_id as int);
    assert(toks[0] == "snake"@);
    assert(toks[1] == int_chars(s.player_id as int));
    let body_toks = s.body@.map_values(|n: crate::world::SnakeNode| pos_chars(n.pos));
    assert(toks.skip(2) =~= body_toks);
    let ps = s.body@.map_values(|n: crate::world::SnakeNode| n.pos);
    assert(body_toks =~= ps.map_values(|p: Position| pos_chars(p)));
    lemma_pos_list_round_trip(ps);
}

/// Parsing a rendered food line yields the food position; a food line
/// never parses as a snake line.
pub proof fn lemma_food_line_round_trip(f: FoodBody)
    ensures
        parse_food_line_spec(food_line_chars(f)) == Some(f.pos),
        parse_snake_line_spec(food_line_chars(f)) is None,
        forall|k: int|
            0 <= k < food_line_chars(f).len() ==> (#[trigger] food_line_chars(f)[k]) != '\n',
{
    let toks = seq!["food"@, pos_chars(f.pos)];
    lemma_keyword_chars();
    lemma_pos_chars_class(f.pos);
    assert forall|i: int, j: int|
        0 <= i < toks.len() && 0 <= j < toks[i].len() implies #[trigger] toks[i][j] != ' ' by {
        if i == 1 {
            assert(toks[i] == pos_chars(f.pos));
        }
    }
    assert forall|i: int, j: int|
        0 <= i < toks.len() && 0 <= j < toks[i].len() implies #[trigger] toks[i][j] != '\n' by {
        if i == 1 {
            assert(toks[i] == pos_chars(f.pos));
        }
    }
    crate::text::lemma_split_join(toks, ' ');
    crate::text::lemma_join_with_free(toks, ' ', '\n');
    lemma_pos_round_trip(f.pos);
    assert(split_on(food_line_chars(f), ' ')[0] == "food"@);
}

/// Rendered food lines parse back to their positions, in order.
proof fn lemma_food_lines_round_trip(fs: Seq<FoodBody>)
    ensures
        parse_body_lines(fs.map_values(|f: FoodBody| food_line_chars(f))) == Some(
            (Seq::<(int, Seq<Position>)>::empty(), fs.map_values(|f: FoodBody| f.pos)),
        ),
    decreases fs.len(),
{
    let lines = fs.map_values(|f: FoodBody| food_line_chars(f));
    if fs.len() == 0 {
    } else {
        lemma_food_line_round_trip(fs[0]);
        assert(lines[0] == food_line_chars(fs[0]));
        assert(lines.skip(1) =~= fs.skip(1).map_values(|f: FoodBody| food_line_chars(f)));
        lemma_food_lines_round_trip(fs.skip(1));
        assert(fs.skip(1).map_values(|f: FoodBody| f.pos) =~= fs.map_values(
            |f: FoodBody| f.pos,
        ).skip(1));
        assert(seq![fs[0].pos] + fs.map_values(|f: FoodBody| f.pos).skip(1) =~= fs.map_values(
            |f: FoodBody| f.pos,
        ));
    }
}

/// Rendered snake lines, followed by any lines that already parse,
/// parse back to the snakes' wire pairs followed by the rest.
proof fn lemma_snake_lines_round_trip(
    ss: Seq<SnakeBody>,
    rest: Seq<Seq<char>>,
    rp: (Seq<(int, Seq<Position>)>, Seq<Position>),
)
    requires
        parse_body_lines(rest) == Some(rp),
    ensures
        parse_body_lines(ss.map_values(|s: SnakeBody| snake_line_chars(s)) + rest) == Some(
            (ss.map_values(|s: SnakeBody| snake_pair(s)) + rp.0, rp.1),
        ),
    decreases ss.len(),
{
    let lines = ss.map_values(|s: SnakeBody| snake_line_chars(s)) + rest;
    if ss.len() == 0 {
        assert(lines =~= rest);
        assert(ss.map_values(|s: SnakeBody| snake_pair(s)) + rp.0 =~= rp.0);
    } else {
        lemma_snake_line_round_trip(ss[0]);
        assert(lines[0] == snake_line_chars(ss[0]));
        assert(lines.skip(1) =~= ss.skip(1).map_values(|s: SnakeBody| snake_line_chars(s)) + rest);
        lemma_snake_lines_round_trip(ss.skip(1), rest, rp);
        assert(ss.skip(1).map_values(|s: SnakeBody| snake_pair(s)) =~= ss.map_values(
            |s: SnakeBody| snake_pair(s),
        ).skip(1));
        assert(seq![snake_pair(ss[0])] + (ss.map_values(|s: SnakeBody| snake_pair(s)).skip(1)
            + rp.0) =~= ss.map_values(|s: SnakeBody| snake_pair(s)) + rp.0);
        assert(seq![snake_pair(ss[0])] + (ss.skip(1).map_values(|s: SnakeBody| snake_pair(s))
            + rp.0) =~= ss.map_values(|s: SnakeBody| snake_pair(s)) + rp.0);
    }
}

proof fn lemma_join_lines_alt(lines: Seq<Seq<char>>)
    ensures
        join_lines(lines) == join_with(lines.push(Seq::<char>::empty()), '\n'),
    decreases lines.len(),
{
    reveal_with_fuel(join_with, 3);
    reveal_with_fuel(join_lines, 3);
    let e = Seq::<char>::empty();
    if lines.len() == 0 {
        assert(lines.push(e) =~= seq![e]);
        assert(join_with(seq![e], '\n') == e);
        assert(join_lines(lines) =~= join_with(lines.push(e), '\n'));
    } else {
        assert(lines.push(e).skip(1) =~= lines.skip(1).push(e));
        lemma_join_lines_alt(lines.skip(1));
        assert(lines.push(e).len() >= 2);
        assert(join_with(lines.push(e), '\n') == lines[0] + seq!['\n'] + join_with(
            lines.skip(1).push(e),
            '\n',
        ));
    }
}

/// Serialized map updates parse back, line for line, to the same
/// `(player, ordered positions)` pairs and the same food positions, in
/// the snapshot's own order: the wire loses nothing of the snapshot.
pub proof fn lemma_map_round_trip(w: SnakeWorld)
    ensures
        parse_map_spec(map_update_chars(w)) == Some((wire_snakes(w), wire_foods(w))),
{
    let slines = w.snakes@.map_values(|s: SnakeBody| snake_line_chars(s));
    let flines = w.foods@.map_values(|f: FoodBody| food_line_chars(f));
    let all = map_lines(w);
    let e = Seq::<char>::empty();
    let parts = all.push(e);
    lemma_keyword_chars();
    lemma_join_lines_alt(all);
    assert forall|i: int, j: int|
        0 <= i < parts.len() && 0 <= j < parts[i].len() implies #[trigger] parts[i][j] != '\n' by {
        if i < all.len() {
            assert(parts[i] == all[i]);
            if i == 0 {
                assert(all[i] == "MAP BEGIN"@);
            } else if i <= slines.len() {
                assert(all[i] == slines[i - 1]);
                let cl = |s: SnakeBody| snake_line_chars(s);
                assert(slines[i - 1] == cl(w.snakes@[i - 1]));
                lemma_snake_line_round_trip(w.snakes@[i - 1]);
            } else if i <= slines.len() + flines.len() {
                assert(all[i] == flines[i - 1 - slines.len()]);
                let cl = |f: FoodBody| food_line_chars(f);
                assert(flines[i - 1 - slines.len()] == cl(w.foods@[i - 1 - slines.len()]));
                lemma_food_line_round_trip(w.foods@[i - 1 - slines.len()]);
            } else {
                assert(all[i] == "MAP END"@);
            }
        } else {
            assert(parts[i] == e);
        }
    }
    crate::text::lemma_split_join(parts, '\n');
    assert(split_on(map_update_chars(w), '\n') == parts);
    assert(parts.len() == all.len() + 1);
    assert(all.len() == slines.len() + flines.len() + 2);
    assert(parts[parts.len() - 1] == e);
    assert(parts[0] == all[0]);
    assert(all[0] == "MAP BEGIN"@);
    assert(parts[parts.len() - 2] == all[all.len() - 1]);
    assert(all[all.len() - 1] == "MAP END"@);
    let middle = parts.subrange(1, parts.len() - 2);
    assert(middle =~= slines + flines);
    lemma_food_lines_round_trip(w.foods@);
    lemma_snake_lines_round_trip(
        w.snakes@,
        flines,
        (Seq::<(int, Seq<Position>)>::empty(), w.foods@.map_values(|f: FoodBody| f.pos)),
    );
    assert(wire_snakes(w) + Seq::<(int, Seq<Position>)>::empty() =~= wire_snakes(w));
}

/// One snake as the reference decoder recovers it from a map update.
pub struct ParsedSnake {
    pub player_id: i32,
    pub positions: Vec<Position>,
}

/// A whole map update as the reference decoder recovers it.
pub struct ParsedMap {
    pub snakes: Vec<ParsedSnake>,
    pub foods: Vec<Position>,
}

impl ParsedSnake {
    /// The wire pair this snake stands for.
    pub open spec fn pair(self) -> (int, Seq<Position>) {
        (self.player_id as int, self.positions@)
    }
}

impl ParsedMap {
    /// The decoded snake pairs and food positions.
    pub open spec fn model(self) -> (Seq<(int, Seq<Position>)>, Seq<Position>) {
        (self.snakes@.map_values(|s: ParsedSnake| s.pair()), self.foods@)
    }
}

/// Decodes a position token.
pub fn parse_pos(s: &str) -> (r: Option<Position>)
    ensures
        r == parse_pos_spec(s@),
{
    let n = s.unicode_len();
    if n < 2 {
        return None;
    }
    if s.get_char(0) != '(' {
        return None;
    }
    if s.get_char(n - 1) != ')' {
        return None;
    }
    let inner = s.substring_char(1, n - 1);
    proof {
        assert(inner@ =~= s@.subrange(1, s@.len() - 1));
    }
    let ps = split_str(inner, ',');
    proof {
        assert(ps@.map_values(|t: String| t@).len() == ps@.len());
    }
    if ps.len() != 2 {
        return None;
    }
    proof {
        assert(split_on(inner@, ',')[0] == ps@[0]@);
        assert(split_on(inner@, ',')[1] == ps@[1]@);
    }
    let xv = match parse_int(ps[0].as_str()) {
        Some(v) => v,
        None => {
            return None;
        },
    };
    let yv = match parse_int(ps[1].as_str()) {
        Some(v) => v,
        None => {
            return None;
        },
    };
    Some(Position { x: xv, y: yv })
}

/// The reference decoder for map updates: splits the text into lines
/// and tokens and recovers every snake's ordered positions and every
/// food position, exactly as `parse_map_spec` reads the text.
pub fn parse_map_update(s: &str) -> (r: Option<ParsedMap>)
    ensures
        match r {
            Some(m) => parse_map_spec(s@) == Some(m.model()),
            None => parse_map_spec(s@) is None,
        },
{
    let lines = split_str(s, '\n');
    let ghost parts = split_on(s@, '\n');
    proof {
        assert(lines@.map_values(|t: String| t@).len() == lines@.len());
    }
    if lines.len() < 3 {
        return None;
    }
    proof {
        assert(parts[parts.len() - 1] == lines@[lines@.len() - 1]@);
        assert(parts[0] == lines@[0]@);
        assert(parts[parts.len() - 2] == lines@[lines@.len() - 2]@);
    }
    if lines[lines.len() - 1].as_str().unicode_len() != 0 {
        proof {
            assert(parts[parts.len() - 1] != Seq::<char>::empty());
        }
        return None;
    }
    proof {
        assert(parts[parts.len() - 1] =~= Seq::<char>::empty());
    }
    if !str_eq(lines[0].as_str(), "MAP BEGIN") {
        return None;
    }
    if !str_eq(lines[lines.len() - 2].as_str(), "MAP END") {
        return None;
    }
    let ghost middle = parts.subrange(1, parts.len() - 2);
    let mut snakes: Vec<ParsedSnake> = Vec::new();
    let mut foods: Vec<Position> = Vec::new();
    let stop = lines.len() - 2;
    let mut i: usize = 1;
    proof {
        assert(middle.skip(0) =~= middle);
        assert(snakes@.map_values(|sn: ParsedSnake| sn.pair()) =~= Seq::<
            (int, Seq<Position>),
        >::empty());
    }
    while i < stop
        invariant
            stop == lines@.len() - 2,
            1 <= i <= stop,
            lines@.map_values(|t: String| t@) == parts,
            parts == split_on(s@, '\n'),
            middle == parts.subrange(1, parts.len() - 2),
            middle.len() == stop - 1,
            forall|k: int| 0 <= k < middle.len() ==> middle[k] == lines@[k + 1]@,
            parse_body_lines(middle) == (match parse_body_lines(middle.skip(i - 1)) {
                Some(rest) => Some(
                    (
                        snakes@.map_values(|sn: ParsedSnake| sn.pair()) + rest.0,
                        foods@ + rest.1,
                    ),
                ),
                None => None,
            }),
        decreases stop - i,
    {
        let ghost rem = middle.skip(i - 1);
        proof {
            assert(rem[0] == middle[i - 1]);
            assert(rem.skip(1) =~= middle.skip(i as int));
            assert(middle[i - 1] == lines@[i as int]@);
        }
        let line = &lines[i];
        let toks = split_str(line.as_str(), ' ');
        let ghost tv = split_on(line@, ' ');
        proof {
            assert(toks@.map_values(|t: String| t@).len() == toks@.len());
            assert(forall|k: int| 0 <= k < toks@.len() ==> tv[k] == toks@[k]@);
        }
        let is_snake = toks.len() >= 2 && str_eq(toks[0].as_str(), "snake");
        if is_snake {
            let id = match parse_int(toks[1].as_str()) {
                Some(v) => v,
                None => {
                    proof {
                        assert(parse_snake_line_spec(rem[0]) is None);
                        lemma_keyword_chars();
                        assert(tv[0] != "food"@);
                        assert(parse_food_line_spec(rem[0]) is None);
                        assert(parse_body_lines(rem) is None);
                    }
                    return None;
                },
            };
            let mut positions: Vec<Position> = Vec::new();
            let mut j: usize = 2;
            proof {
                assert(tv.skip(2).skip(0) =~= tv.skip(2));
            }
            #[verifier::loop_isolation(false)]
            while j < toks.len()
                invariant
                    2 <= j <= toks@.len(),
                    parse_pos_list(tv.skip(2)) == (match parse_pos_list(
                        tv.skip(2).skip(j - 2),
                    ) {
                        Some(rest) => Some(positions@ + rest),
                        None => None,
                    }),
                decreases toks@.len() - j,
            {
                let ghost prem = tv.skip(2).skip(j - 2);
                proof {
                    assert(prem[0] == tv[j as int]);
                    assert(prem.skip(1) =~= tv.skip(2).skip(j - 1));
                }
                match parse_pos(toks[j].as_str()) {
                    Some(p) => {
                        let ghost pre_positions = positions@;
                        positions.push(p);
                        proof {
                            assert(positions@ =~= pre_positions.push(p));
                            assert forall|rest: Seq<Position>|
                                pre_positions + (seq![p] + rest) =~= positions@ + rest by {}
                        }
                    },
                    None => {
                        proof {
                            assert(parse_pos_list(prem) is None);
                            assert(parse_pos_list(tv.skip(2)) is None);
                            assert(parse_snake_line_spec(rem[0]) is None);
                            lemma_keyword_chars();
                            assert(tv[0] == "snake"@);
                            assert(tv[0] != "food"@);
                            assert(parse_food_line_spec(rem[0]) is None);
                            assert(parse_body_lines(rem) is None);
                        }
                        return None;
                    },
                }
                j += 1;
            }
            proof {
                assert(tv.skip(2).skip(toks@.len() - 2) =~= Seq::<Seq<char>>::empty());
                assert(parse_pos_list(tv.skip(2)) == Some(positions@));
                assert(tv[0] == "snake"@);
                assert(parse_int_spec(tv[1]) == Some(id as int));
                assert(parse_snake_line_spec(rem[0]) == Some((id as int, positions@)));
            }
            let ghost pre_snakes = snakes@;
            snakes.push(ParsedSnake { player_id: id, positions });
            proof {
                let cl = |sn: ParsedSnake| sn.pair();
                assert(snakes@ =~= pre_snakes.push(ParsedSnake { player_id: id, positions: positions }));
                assert(snakes@.map_values(cl) =~= pre_snakes.map_values(cl).push(
                    (id as int, positions@),
                ));
                assert forall|a: Seq<(int, Seq<Position>)>|
                    pre_snakes.map_values(cl) + (seq![(id as int, positions@)] + a)
                        =~= snakes@.map_values(cl) + a by {}
            }
        } else if toks.len() == 2 && str_eq(toks[0].as_str(), "food") {
            proof {
                lemma_keyword_chars();
                assert(tv[0] == "food"@);
                assert(tv[0] != "snake"@);
                assert(parse_snake_line_spec(rem[0]) is None);
            }
            match parse_pos(toks[1].as_str()) {
                Some(p) => {
                    let ghost pre_foods = foods@;
                    foods.push(p);
                    proof {
                        assert(parse_food_line_spec(rem[0]) == Some(p));
                        assert(foods@ =~= pre_foods.push(p));
                        assert forall|a: Seq<Position>|
                            pre_foods + (seq![p] + a) =~= foods@ + a by {}
                    }
                },
                None => {
                    proof {
                        assert(parse_food_line_spec(rem[0]) is None);
                        assert(parse_body_lines(rem) is None);
                    }
                    return None;
                },
            }
        } else {
            proof {
                assert(parse_snake_line_spec(rem[0]) is None);
                assert(parse_food_line_spec(rem[0]) is None);
                assert(parse_body_lines(rem) is None);
            }
            return None;
        }
        i += 1;
    }
    proof {
        assert(middle.skip(stop - 1) =~= Seq::<Seq<char>>::empty());
        assert(parse_body_lines(middle) == Some(
            (
                snakes@.map_values(|sn: ParsedSnake| sn.pair()) + Seq::<
                    (int, Seq<Position>),
                >::empty(),
                foods@ + Seq::<Position>::empty(),
            ),
        ));
        assert(snakes@.map_values(|sn: ParsedSnake| sn.pair()) + Seq::<
            (int, Seq<Position>),
        >::empty() =~= snakes@.map_values(|sn: ParsedSnake| sn.pair()));
        assert(foods@ + Seq::<Position>::empty() =~= foods@);
    }
    Some(ParsedMap { snakes, foods })
}

/// A valid init exchange yields exactly the trimmed remainder of the
/// response line after the first space as the username, never empty.
pub proof fn lemma_initialize_username(line: Seq<char>)
    ensures
        parse_info_spec(line) is Ok ==> {
            let i = find_char(line, ' ');
            &&& i >= 0
            &&& parse_info_spec(line) == Result::<Seq<char>, ProtocolError>::Ok(
                trim_spec(line.skip(i + 1)),
            )
            &&& trim_spec(line.skip(i + 1)).len() > 0
        },
{
    crate::text::lemma_find_char_props(line, ' ');
}

} // verus!
