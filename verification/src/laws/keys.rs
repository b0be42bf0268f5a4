//! Laws of key presses: what a text asks for, and what that changes.

use vstd::prelude::*;
use crate::input::{
    arrow_step, json_document, press, read_input, read_key, read_message, Direction, InputAction,
};
use crate::scene::{
    move_first_node, to_engine_camera, Camera, EngineCamera, EngineProjection, Projection, Scene,
};
use crate::state::GameState;

verus! {

/// The keys that mean something are six different ones.
proof fn lemma_keys_differ()
    ensures
        "n"@ != "N"@,
        "n"@.len() == 1,
        "N"@.len() == 1,
        "ArrowUp"@.len() == 7,
        "ArrowDown"@.len() == 9,
        "ArrowLeft"@.len() == 9,
        "ArrowRight"@.len() == 10,
        "ArrowDown"@ != "ArrowLeft"@,
        ""@.len() == 0,
{
    reveal_strlit("n");
    reveal_strlit("N");
    reveal_strlit("ArrowUp");
    reveal_strlit("ArrowDown");
    reveal_strlit("ArrowLeft");
    reveal_strlit("ArrowRight");
    reveal_strlit("");
    assert("n"@[0] != "N"@[0]);
    assert("ArrowDown"@[5] != "ArrowLeft"@[5]);
}

/// Law: whichever game is shown and however many there are, an arrow key moves
/// the way that it shows; `n` and `N` load the game after the one that is shown,
/// or the first after the last, if there is another; and no other key does
/// anything.
pub proof fn key_does_what_it_says(key: &str, index: usize, total: usize, action: InputAction)
    requires
        total >= 2 ==> index < total,
        call_ensures(press, (key, index, total), action),
    ensures
        key@ == "ArrowUp"@ ==> action == InputAction::Move(Direction::Up),
        key@ == "ArrowDown"@ ==> action == InputAction::Move(Direction::Down),
        key@ == "ArrowLeft"@ ==> action == InputAction::Move(Direction::Left),
        key@ == "ArrowRight"@ ==> action == InputAction::Move(Direction::Right),
        (key@ == "n"@ || key@ == "N"@) && total >= 2 && index + 1 < total ==> action
            == InputAction::Load((index + 1) as usize),
        (key@ == "n"@ || key@ == "N"@) && total >= 2 && index + 1 == total ==> action
            == InputAction::Load(0),
        (key@ == "n"@ || key@ == "N"@) && total < 2 ==> action == InputAction::Ignore,
        key@ != "ArrowUp"@ && key@ != "ArrowDown"@ && key@ != "ArrowLeft"@ && key@
            != "ArrowRight"@ && key@ != "n"@ && key@ != "N"@ ==> action == InputAction::Ignore,
{
    lemma_keys_differ();
    if total >= 2 && index + 1 < total {
        vstd::arithmetic::div_mod::lemma_small_mod((index + 1) as nat, total as nat);
    } else if total >= 2 {
        vstd::arithmetic::div_mod::lemma_mod_self_0(total as int);
    }
}

/// Law: a server asks of a key what the key asks of the game that it shows and of
/// the number of its games.
pub proof fn server_presses_for_shown_game<F>(
    state: &GameState<F>,
    key: &str,
    action: InputAction,
    alone: InputAction,
)
    requires
        state.games@.len() >= 2 ==> state.index < state.games@.len(),
        state.games@.len() <= usize::MAX,
        call_ensures(GameState::<F>::press, (state, key), action),
        call_ensures(press, (key, state.index, state.games@.len() as usize), alone),
    ensures
        action == alone,
{
}

/// Law: the type and the key of a message say that a key was pressed exactly if
/// the type is `keydown`. It is then the key that the message has, or an empty
/// one.
pub proof fn keydown_message_names_key<'a>(
    kind: Option<&'a str>,
    key: Option<&'a str>,
    pressed: Option<&'a str>,
)
    requires
        call_ensures(read_message, (kind, key), pressed),
    ensures
        pressed is Some <==> kind is Some && kind->0@ == "keydown"@,
        pressed is Some && key is Some ==> pressed->0@ == key->0@,
        pressed is Some && key is None ==> pressed->0@.len() == 0,
{
    lemma_keys_differ();
}

/// Law: a text says that a key was pressed exactly if it is a JSON document with
/// the string `keydown` for its type. It is then the string under `key`, or an
/// empty one.
pub proof fn keydown_text_names_key(text: &str, pressed: Option<String>)
    requires
        call_ensures(read_key, (text,), pressed),
    ensures
        pressed is Some <==> json_document(text@) is Some && json_document(
            text@,
        )->0.contains_key("type"@) && json_document(text@)->0["type"@] == "keydown"@,
        pressed is Some && json_document(text@)->0.contains_key("key"@) ==> pressed->0@
            == json_document(text@)->0["key"@],
        pressed is Some && !json_document(text@)->0.contains_key("key"@) ==> pressed->0@.len()
            == 0,
{
    lemma_keys_differ();
}

/// Law: a text that says that a key was pressed asks for what the key asks for,
/// whichever game is shown and however many there are; every other text asks for
/// nothing. `alone` is what the key asks for by itself.
pub proof fn text_asks_for_what_its_key_does(
    text: &str,
    index: usize,
    total: usize,
    key: &str,
    action: InputAction,
    alone: InputAction,
)
    requires
        total >= 2 ==> index < total,
        call_ensures(read_input, (text, index, total), action),
        call_ensures(press, (key, index, total), alone),
    ensures
        json_document(text@) matches Some(members) && members.contains_key("type"@)
            && members["type"@] == "keydown"@ && members.contains_key("key"@) && members["key"@]
            == key@ ==> action == alone,
        json_document(text@) is None ==> action == InputAction::Ignore,
        json_document(text@) matches Some(members) && !(members.contains_key("type"@)
            && members["type"@] == "keydown"@ && members.contains_key("key"@)) ==> action
            == InputAction::Ignore,
{
    lemma_keys_differ();
}

/// Law: a text with an arrow key moves that way on every server, whichever game
/// it shows; one with `n` or `N` loads the next game, or the first after the
/// last, if there is another; every other text does nothing.
pub proof fn server_handles_text_by_its_key<F>(
    state: &GameState<F>,
    text: &str,
    key: Seq<char>,
    action: InputAction,
)
    requires
        state.games@.len() >= 2 ==> state.index < state.games@.len(),
        call_ensures(GameState::<F>::handle_input, (state, text), action),
        json_document(text@) is Some,
        json_document(text@)->0.contains_key("type"@),
        json_document(text@)->0["type"@] == "keydown"@,
        json_document(text@)->0.contains_key("key"@),
        json_document(text@)->0["key"@] == key,
    ensures
        key == "ArrowUp"@ ==> action == InputAction::Move(Direction::Up),
        key == "ArrowDown"@ ==> action == InputAction::Move(Direction::Down),
        key == "ArrowLeft"@ ==> action == InputAction::Move(Direction::Left),
        key == "ArrowRight"@ ==> action == InputAction::Move(Direction::Right),
        (key == "n"@ || key == "N"@) && state.games@.len() >= 2 && state.index + 1
            < state.games@.len() ==> action == InputAction::Load((state.index + 1) as usize),
        (key == "n"@ || key == "N"@) && state.games@.len() >= 2 && state.index + 1
            == state.games@.len() ==> action == InputAction::Load(0),
        (key == "n"@ || key == "N"@) && state.games@.len() < 2 ==> action == InputAction::Ignore,
        key != "ArrowUp"@ && key != "ArrowDown"@ && key != "ArrowLeft"@ && key != "ArrowRight"@
            && key != "n"@ && key != "N"@ ==> action == InputAction::Ignore,
{
    lemma_keys_differ();
    let total = state.games@.len();
    if total >= 2 && state.index + 1 < total {
        vstd::arithmetic::div_mod::lemma_small_mod((state.index + 1) as nat, total);
    } else if total >= 2 {
        vstd::arithmetic::div_mod::lemma_mod_self_0(total as int);
    }
}

/// Law: a server does nothing on a text that is no JSON document, has no type
/// `keydown`, or names no key.
pub proof fn server_ignores_other_texts<F>(
    state: &GameState<F>,
    text: &str,
    action: InputAction,
)
    requires
        state.games@.len() >= 2 ==> state.index < state.games@.len(),
        call_ensures(GameState::<F>::handle_input, (state, text), action),
        json_document(text@) matches Some(members) ==> !(members.contains_key("type"@)
            && members["type"@] == "keydown"@ && members.contains_key("key"@)),
    ensures
        action == InputAction::Ignore,
{
    lemma_keys_differ();
}

/// Law: a game that could be loaded is the one that is shown, with its own scene
/// and camera, and the list of games stays as it is; one that could not be leaves
/// everything as it was, and the error comes back.
pub proof fn loaded_game_is_shown<F, E>(
    state: &mut GameState<F>,
    next: usize,
    loaded: Result<(Scene<F>, Camera<F>), E>,
    outcome: Result<(), E>,
)
    requires
        next < old(state).games@.len(),
        old(state).index < old(state).games@.len(),
        call_ensures(GameState::<F>::finish_load::<E>, (state, next, loaded), outcome),
    ensures
        final(state).games == old(state).games,
        outcome is Ok <==> loaded is Ok,
        loaded is Ok ==> final(state).index == next,
        loaded is Ok ==> final(state).scene == loaded->Ok_0.0,
        loaded is Ok ==> final(state).camera == loaded->Ok_0.1,
        loaded is Err ==> final(state).index == old(state).index,
        loaded is Err ==> final(state).scene == old(state).scene,
        loaded is Err ==> final(state).camera == old(state).camera,
        loaded is Err ==> outcome->Err_0 == loaded->Err_0,
{
}

/// Law: each direction has the step of its own name.
pub proof fn direction_has_its_own_step<F: Copy>(
    direction: Direction,
    right: [F; 3],
    left: [F; 3],
    up: [F; 3],
    down: [F; 3],
    step: [F; 3],
)
    requires
        call_ensures(arrow_step::<F>, (direction, right, left, up, down), step),
    ensures
        direction is Right ==> step == right,
        direction is Left ==> step == left,
        direction is Up ==> step == up,
        direction is Down ==> step == down,
{
}

/// Law: a step adds to each coordinate of the first node its own part of the step,
/// and changes nothing else of that node and no other node.
pub proof fn step_moves_first_node_only<F: Copy, S: Fn(F, F) -> F>(
    scene: &mut Scene<F>,
    step: [F; 3],
    sum: S,
)
    requires
        call_ensures(move_first_node::<F, S>, (scene, step, sum), ()),
    ensures
        final(scene).nodes@.len() == old(scene).nodes@.len(),
        forall|k: int|
            1 <= k < old(scene).nodes@.len() ==> #[trigger] final(scene).nodes@[k] == old(
                scene,
            ).nodes@[k],
        old(scene).nodes@.len() > 0 ==> {
            let before = old(scene).nodes@[0];
            let after = final(scene).nodes@[0];
            &&& call_ensures(
                sum,
                (before.transform.translation@[0], step@[0]),
                after.transform.translation@[0],
            )
            &&& call_ensures(
                sum,
                (before.transform.translation@[1], step@[1]),
                after.transform.translation@[1],
            )
            &&& call_ensures(
                sum,
                (before.transform.translation@[2], step@[2]),
                after.transform.translation@[2],
            )
            &&& after.transform.rotation == before.transform.rotation
            &&& after.transform.scale == before.transform.scale
            &&& after.mesh == before.mesh
            &&& after.tilemap == before.tilemap
        },
{
}

/// Law: an arrow adds to each coordinate of the first object its part of the step
/// of that direction, and leaves everything else as it was: the rest of the
/// object, the other objects, the camera, the games, and which one is shown.
pub proof fn arrow_moves_first_object_only<F: Copy, S: Fn(F, F) -> F>(
    state: &mut GameState<F>,
    direction: Direction,
    right: [F; 3],
    left: [F; 3],
    up: [F; 3],
    down: [F; 3],
    sum: S,
)
    requires
        call_ensures(
            GameState::<F>::move_object::<S>,
            (state, direction, right, left, up, down, sum),
            (),
        ),
    ensures
        final(state).games == old(state).games,
        final(state).index == old(state).index,
        final(state).camera == old(state).camera,
        final(state).scene.nodes@.len() == old(state).scene.nodes@.len(),
        forall|k: int|
            1 <= k < old(state).scene.nodes@.len() ==> #[trigger] final(state).scene.nodes@[k]
                == old(state).scene.nodes@[k],
        old(state).scene.nodes@.len() > 0 ==> {
            let before = old(state).scene.nodes@[0];
            let after = final(state).scene.nodes@[0];
            &&& after.transform.rotation == before.transform.rotation
            &&& after.transform.scale == before.transform.scale
            &&& after.mesh == before.mesh
            &&& after.tilemap == before.tilemap
            &&& forall|i: int|
                0 <= i < 3 && direction is Right ==> call_ensures(
                    sum,
                    (before.transform.translation@[i], right@[i]),
                    #[trigger] after.transform.translation@[i],
                )
            &&& forall|i: int|
                0 <= i < 3 && direction is Left ==> call_ensures(
                    sum,
                    (before.transform.translation@[i], left@[i]),
                    #[trigger] after.transform.translation@[i],
                )
            &&& forall|i: int|
                0 <= i < 3 && direction is Up ==> call_ensures(
                    sum,
                    (before.transform.translation@[i], up@[i]),
                    #[trigger] after.transform.translation@[i],
                )
            &&& forall|i: int|
                0 <= i < 3 && direction is Down ==> call_ensures(
                    sum,
                    (before.transform.translation@[i], down@[i]),
                    #[trigger] after.transform.translation@[i],
                )
        },
{
}

/// Law: the renderer's camera stands where the document's does, looks the same
/// way, and projects alike; only the field of view is converted.
pub proof fn engine_camera_sees_the_same<F: Copy, R: Fn(F) -> F>(
    camera: &Camera<F>,
    to_radians: R,
    engine: EngineCamera<F>,
)
    requires
        call_ensures(to_engine_camera::<F, R>, (camera, to_radians), engine),
    ensures
        engine.eye == camera.eye,
        engine.target == camera.target,
        engine.up == camera.up,
        camera.projection is Perspective <==> engine.projection is Perspective,
        match (camera.projection, engine.projection) {
            (
                Projection::Perspective { fov_y_degrees, aspect, znear, zfar },
                EngineProjection::Perspective { fov_y_radians, aspect: a, znear: n, zfar: f },
            ) => {
                &&& call_ensures(to_radians, (fov_y_degrees,), fov_y_radians)
                &&& a == aspect
                &&& n == znear
                &&& f == zfar
            },
            (
                Projection::Orthographic { half_height, aspect, znear, zfar },
                EngineProjection::Orthographic { half_height: h, aspect: a, znear: n, zfar: f },
            ) => {
                &&& h == half_height
                &&& a == aspect
                &&& n == znear
                &&& f == zfar
            },
            _ => false,
        },
{
}

} // verus!
