//! What a viewport's key presses ask for.

use serde_json::Value;
use vstd::prelude::*;
use crate::text::text_eq;

verus! {

/// `serde_json::Value`, a parsed JSON document.
#[verifier::external_type_specification]
#[verifier::external_body]
pub struct ExValue(Value);

/// `serde_json::Error`, why a text is no JSON document.
#[verifier::external_type_specification]
#[verifier::external_body]
pub struct ExJsonError(serde_json::Error);

/// What a JSON value holds, as far as it is read here: the members of an object
/// whose values are strings, by name. Of any other value, nothing.
pub uninterp spec fn string_members(value: Value) -> Map<Seq<char>, Seq<char>>;

/// The string members of the JSON document that a text is, or `None` if it is
/// no JSON document.
pub uninterp spec fn json_document(text: Seq<char>) -> Option<Map<Seq<char>, Seq<char>>>;

/// Parses a text with `serde_json::from_str`. What comes back depends on the
/// text alone: an error, or the document, of which `string_members` says what
/// it holds.
#[verifier::external_body]
fn parse_json(text: &str) -> (parsed: Result<Value, serde_json::Error>)
    ensures
        match parsed {
            Ok(value) => json_document(text@) == Some(string_members(value)),
            Err(_) => json_document(text@) is None,
        },
{
    serde_json::from_str::<Value>(text)
}

/// Looks a member up with `serde_json::Value::get` and takes it for a string
/// with `serde_json::Value::as_str`. There is one exactly if the value is an
/// object that has the member and the member is a string.
#[verifier::external_body]
fn string_member<'a>(value: &'a Value, name: &str) -> (member: Option<&'a str>)
    ensures
        match member {
            Some(found) => string_members(*value).contains_key(name@)
                && string_members(*value)[name@] == found@,
            None => !string_members(*value).contains_key(name@),
        },
{
    value.get(name)?.as_str()
}

/// A way along the axes of the screen.
#[derive(Clone, Copy, Debug, PartialEq, Eq)]
pub enum Direction {
    Left,
    Right,
    Up,
    Down,
}

/// What a message asks for.
#[derive(Clone, Copy, Debug, PartialEq, Eq)]
pub enum InputAction {
    /// Nothing.
    Ignore,
    /// To load the game with this index and show it.
    Load(usize),
    /// To move the first object of the scene.
    Move(Direction),
}

/// The index of the game after `index`, of `total`: after the last one comes
/// the first.
pub open spec fn next_index(index: int, total: int) -> int {
    (index + 1) % total
}

/// What a key asks for while the game `index` of `total` is shown.
pub open spec fn key_action(key: Seq<char>, index: int, total: int) -> InputAction {
    if key == "n"@ || key == "N"@ {
        if total < 2 {
            InputAction::Ignore
        } else {
            InputAction::Load(next_index(index, total) as usize)
        }
    } else if key == "ArrowUp"@ {
        InputAction::Move(Direction::Up)
    } else if key == "ArrowDown"@ {
        InputAction::Move(Direction::Down)
    } else if key == "ArrowLeft"@ {
        InputAction::Move(Direction::Left)
    } else if key == "ArrowRight"@ {
        InputAction::Move(Direction::Right)
    } else {
        InputAction::Ignore
    }
}

/// The key that a message with these members says was pressed: only one of type
/// `keydown` says so, and one without a key is one with an empty key.
pub open spec fn message_key(
    kind: Option<Seq<char>>,
    key: Option<Seq<char>>,
) -> Option<Seq<char>> {
    if kind == Some("keydown"@) {
        match key {
            Some(name) => Some(name),
            None => Some(""@),
        }
    } else {
        None
    }
}

/// The key that a text says was pressed, given the document that it is.
pub open spec fn document_key(document: Option<Map<Seq<char>, Seq<char>>>) -> Option<Seq<char>> {
    match document {
        Some(members) => message_key(members.get("type"@), members.get("key"@)),
        None => None,
    }
}

/// What a text asks for, given the document that it is.
pub open spec fn document_action(
    document: Option<Map<Seq<char>, Seq<char>>>,
    index: int,
    total: int,
) -> InputAction {
    match document_key(document) {
        Some(key) => key_action(key, index, total),
        None => InputAction::Ignore,
    }
}

/// What a key asks for while the game `index` of `total` is shown.
pub fn press(key: &str, index: usize, total: usize) -> (action: InputAction)
    requires
        total >= 2 ==> index < total,
    ensures
        action == key_action(key@, index as int, total as int),
{
    if text_eq(key, "n") || text_eq(key, "N") {
        if total < 2 {
            return InputAction::Ignore;
        }
        InputAction::Load((index + 1) % total)
    } else if text_eq(key, "ArrowUp") {
        InputAction::Move(Direction::Up)
    } else if text_eq(key, "ArrowDown") {
        InputAction::Move(Direction::Down)
    } else if text_eq(key, "ArrowLeft") {
        InputAction::Move(Direction::Left)
    } else if text_eq(key, "ArrowRight") {
        InputAction::Move(Direction::Right)
    } else {
        InputAction::Ignore
    }
}

/// The text of a member, if there is one.
pub open spec fn member_text(member: Option<&str>) -> Option<Seq<char>> {
    match member {
        Some(text) => Some(text@),
        None => None,
    }
}

/// The key that a message says was pressed, given its type and its key.
pub fn read_message<'a>(kind: Option<&'a str>, key: Option<&'a str>) -> (pressed: Option<&'a str>)
    ensures
        member_text(pressed) == message_key(member_text(kind), member_text(key)),
{
    let is_keydown = match kind {
        Some(name) => text_eq(name, "keydown"),
        None => false,
    };
    if !is_keydown {
        return None;
    }
    match key {
        Some(name) => Some(name),
        None => Some(""),
    }
}

/// The key that a text from a viewport says was pressed.
pub fn read_key(text: &str) -> (pressed: Option<String>)
    ensures
        match pressed {
            Some(key) => document_key(json_document(text@)) == Some(key@),
            None => document_key(json_document(text@)) is None,
        },
{
    match parse_json(text) {
        Ok(value) => match read_message(
            string_member(&value, "type"),
            string_member(&value, "key"),
        ) {
            Some(key) => Some(key.to_owned()),
            None => None,
        },
        Err(_) => None,
    }
}

/// What a text from a viewport asks for while the game `index` of `total` is
/// shown.
pub fn read_input(text: &str, index: usize, total: usize) -> (action: InputAction)
    requires
        total >= 2 ==> index < total,
    ensures
        action == document_action(json_document(text@), index as int, total as int),
{
    match read_key(text) {
        Some(key) => press(key.as_str(), index, total),
        None => InputAction::Ignore,
    }
}

/// The step that a direction names.
pub open spec fn step_of<F>(
    direction: Direction,
    right: [F; 3],
    left: [F; 3],
    up: [F; 3],
    down: [F; 3],
) -> [F; 3] {
    match direction {
        Direction::Left => left,
        Direction::Right => right,
        Direction::Up => up,
        Direction::Down => down,
    }
}

/// The step that a direction names, of one step for each way along the axes of
/// the screen.
pub fn arrow_step<F: Copy>(
    direction: Direction,
    right: [F; 3],
    left: [F; 3],
    up: [F; 3],
    down: [F; 3],
) -> (step: [F; 3])
    ensures
        step == step_of(direction, right, left, up, down),
{
    match direction {
        Direction::Left => left,
        Direction::Right => right,
        Direction::Up => up,
        Direction::Down => down,
    }
}

/// The way back.
pub open spec fn opposite(direction: Direction) -> Direction {
    match direction {
        Direction::Left => Direction::Right,
        Direction::Right => Direction::Left,
        Direction::Up => Direction::Down,
        Direction::Down => Direction::Up,
    }
}

/// Law: a key loads a game or moves the object, never both. Only `n` and `N`
/// load, and only if there is another game; only the arrows move. So no key
/// that switches games reaches the game that is shown.
pub proof fn keys_load_or_move(key: Seq<char>, index: int, total: int)
    ensures
        key_action(key, index, total) is Load <==> (key == "n"@ || key == "N"@) && total >= 2,
        key_action(key, index, total) is Move <==> key == "ArrowUp"@ || key == "ArrowDown"@
            || key == "ArrowLeft"@ || key == "ArrowRight"@,
{
    reveal_strlit("n");
    reveal_strlit("N");
    reveal_strlit("ArrowUp");
    reveal_strlit("ArrowDown");
    reveal_strlit("ArrowLeft");
    reveal_strlit("ArrowRight");
    assert("n"@.len() == 1 && "N"@.len() == 1);
    assert("ArrowUp"@.len() == 7 && "ArrowDown"@.len() == 9);
    assert("ArrowLeft"@.len() == 9 && "ArrowRight"@.len() == 10);
}

/// Law: each arrow moves in the direction that it shows.
pub proof fn arrows_move_their_way(index: int, total: int)
    ensures
        key_action("ArrowUp"@, index, total) == InputAction::Move(Direction::Up),
        key_action("ArrowDown"@, index, total) == InputAction::Move(Direction::Down),
        key_action("ArrowLeft"@, index, total) == InputAction::Move(Direction::Left),
        key_action("ArrowRight"@, index, total) == InputAction::Move(Direction::Right),
{
    reveal_strlit("n");
    reveal_strlit("N");
    reveal_strlit("ArrowUp");
    reveal_strlit("ArrowDown");
    reveal_strlit("ArrowLeft");
    reveal_strlit("ArrowRight");
    assert("ArrowUp"@.len() == 7);
    assert("ArrowDown"@.len() == 9);
    assert("ArrowLeft"@.len() == 9);
    assert("ArrowRight"@.len() == 10);
    assert("ArrowDown"@[5] != "ArrowLeft"@[5]);
}

/// Law: with more than one game, `n` and `N` both ask for the next one.
pub proof fn n_asks_for_next_game(index: usize, total: usize)
    requires
        index < total,
        total >= 2,
    ensures
        ({
            let next = next_index(index as int, total as int);
            &&& 0 <= next < total
            &&& next != index
            &&& key_action("n"@, index as int, total as int) == InputAction::Load(next as usize)
            &&& key_action("N"@, index as int, total as int) == InputAction::Load(next as usize)
        }),
{
    if index + 1 < total {
        vstd::arithmetic::div_mod::lemma_small_mod((index + 1) as nat, total as nat);
    } else {
        vstd::arithmetic::div_mod::lemma_mod_self_0(total as int);
    }
}

/// The game that is shown after `presses` presses of `n`, each of which loaded
/// its game.
pub open spec fn index_after(index: int, total: int, presses: nat) -> int
    decreases presses,
{
    if presses == 0 {
        index
    } else {
        next_index(index_after(index, total, (presses - 1) as nat), total)
    }
}

/// Law: each press of `n` goes one game further, round and round.
pub proof fn presses_count_on(index: int, total: int, presses: nat)
    requires
        0 <= index < total,
    ensures
        index_after(index, total, presses) == (index + presses) % total,
    decreases presses,
{
    if presses == 0 {
        vstd::arithmetic::div_mod::lemma_small_mod(index as nat, total as nat);
    } else {
        presses_count_on(index, total, (presses - 1) as nat);
        vstd::arithmetic::div_mod::lemma_add_mod_noop(index + presses - 1, 1, total);
        vstd::arithmetic::div_mod::lemma_add_mod_noop_right(1, index + presses - 1, total);
    }
}

/// Law: as many presses of `n` as there are games lead back to the same game.
pub proof fn presses_come_round(index: int, total: int)
    requires
        0 <= index < total,
    ensures
        index_after(index, total, total as nat) == index,
{
    presses_count_on(index, total, total as nat);
    vstd::arithmetic::div_mod::lemma_mod_add_multiples_vanish(index, total);
    vstd::arithmetic::div_mod::lemma_small_mod(index as nat, total as nat);
}

/// Law: from any game, `n` leads to every game, within fewer presses than there
/// are games.
pub proof fn presses_reach_every_game(index: int, total: int, game: int) -> (presses: nat)
    requires
        0 <= index < total,
        0 <= game < total,
    ensures
        presses < total,
        index_after(index, total, presses) == game,
{
    let presses = if index <= game {
        (game - index) as nat
    } else {
        (game - index + total) as nat
    };
    presses_count_on(index, total, presses);
    vstd::arithmetic::div_mod::lemma_mod_add_multiples_vanish(game, total);
    vstd::arithmetic::div_mod::lemma_small_mod(game as nat, total as nat);
    presses
}

} // verus!
