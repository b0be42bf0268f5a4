use std::path::PathBuf;

use editor_server::games::GameSlot;
use editor_server::input::{
    arrow_step, press, read_input, read_key, read_message, Direction, InputAction,
};
use editor_server::scene::{Camera, Node, Projection, Scene, Transform};
use editor_server::state::GameState;

fn node(x: f32, y: f32, z: f32) -> Node<f32> {
    Node {
        transform: Transform {
            translation: [x, y, z],
            rotation: [0.0, 0.0, 0.0, 1.0],
            scale: [1.0, 2.0, 3.0],
        },
        mesh: None,
        tilemap: None,
    }
}

fn camera(distance: f32) -> Camera<f32> {
    Camera {
        eye: [0.0, 0.0, distance],
        target: [0.0, 0.0, 0.0],
        up: [0.0, 1.0, 0.0],
        projection: Projection::Orthographic {
            half_height: 1.0,
            aspect: 1.5,
            znear: 0.1,
            zfar: 10.0,
        },
    }
}

fn games(count: usize) -> Vec<GameSlot> {
    (0..count)
        .map(|i| GameSlot { name: format!("game{}", i + 1), dir: PathBuf::from(format!("{i}")) })
        .collect()
}

fn state(count: usize) -> GameState<f32> {
    let scene = Scene { nodes: vec![node(1.0, 2.0, 3.0), node(4.0, 5.0, 6.0)] };
    GameState::new(games(count), scene, camera(2.0)).unwrap()
}

fn keydown(key: &str) -> String {
    format!("{{\"type\":\"keydown\",\"key\":\"{key}\"}}")
}

#[test]
fn no_state_without_a_game() {
    let scene = Scene { nodes: Vec::new() };
    assert!(GameState::new(Vec::new(), scene, camera(1.0)).is_none());
}

#[test]
fn first_game_is_shown_first() {
    let info = state(3).info();
    assert_eq!(info.name, "game1");
    assert_eq!(info.index, 0);
    assert_eq!(info.total, 3);
}

#[test]
fn n_asks_for_the_next_game() {
    assert_eq!(press("n", 0, 2), InputAction::Load(1));
    assert_eq!(press("N", 1, 2), InputAction::Load(0));
    assert_eq!(press("n", 1, 3), InputAction::Load(2));
}

#[test]
fn n_is_ignored_with_one_game() {
    assert_eq!(press("n", 0, 1), InputAction::Ignore);
    assert_eq!(press("N", 0, 1), InputAction::Ignore);
}

#[test]
fn arrows_move_and_other_keys_do_nothing() {
    assert_eq!(press("ArrowUp", 0, 2), InputAction::Move(Direction::Up));
    assert_eq!(press("ArrowDown", 0, 2), InputAction::Move(Direction::Down));
    assert_eq!(press("ArrowLeft", 0, 2), InputAction::Move(Direction::Left));
    assert_eq!(press("ArrowRight", 0, 2), InputAction::Move(Direction::Right));
    for key in ["", "m", "nn", "arrowup", "Arrow", "ArrowUp ", "Enter", "\u{f1}"] {
        assert_eq!(press(key, 0, 2), InputAction::Ignore);
    }
}

#[test]
fn keys_work_without_a_game_to_switch_to() {
    assert_eq!(press("n", 0, 0), InputAction::Ignore);
    assert_eq!(press("ArrowUp", 0, 0), InputAction::Move(Direction::Up));
    assert_eq!(read_input(&keydown("ArrowLeft"), 3, 1), InputAction::Move(Direction::Left));
}

#[test]
fn only_keydown_messages_count() {
    assert_eq!(read_message(Some("keydown"), Some("n")), Some("n"));
    assert_eq!(read_message(Some("keyup"), Some("n")), None);
    assert_eq!(read_message(None, Some("n")), None);
    assert_eq!(read_message(Some("keydown"), None), Some(""));
}

#[test]
fn key_is_read_from_json() {
    assert_eq!(read_key(&keydown("Enter")), Some("Enter".to_string()));
    assert_eq!(read_key("{\"type\":\"keydown\",\"key\":3}"), Some(String::new()));
    assert_eq!(read_key("{\"type\":\"keyup\",\"key\":\"n\"}"), None);
    assert_eq!(read_key("keydown"), None);
}

#[test]
fn input_is_read_from_json() {
    assert_eq!(read_input(&keydown("n"), 0, 2), InputAction::Load(1));
    assert_eq!(
        read_input(" { \"key\" : \"ArrowLeft\", \"type\" : \"keydown\", \"x\": [1] } ", 0, 2),
        InputAction::Move(Direction::Left)
    );
    assert_eq!(read_input("{\"type\":\"key\\u0064own\",\"key\":\"N\"}", 0, 2), InputAction::Load(1));
}

#[test]
fn input_that_says_nothing_is_ignored() {
    for text in [
        "",
        "n",
        "{",
        "keydown",
        "\"keydown\"",
        "[]",
        "null",
        "{\"type\":\"keydown\",\"key\":\"n\"} x",
        "{\"type\":\"keydown\"}",
        "{\"type\":\"keydown\",\"key\":7}",
        "{\"type\":1,\"key\":\"n\"}",
        "{\"type\":\"keyup\",\"key\":\"n\"}",
        "{\"key\":\"n\"}",
        "[\"type\",\"keydown\",\"key\",\"n\"]",
    ] {
        assert_eq!(read_input(text, 0, 2), InputAction::Ignore, "{text}");
    }
}

#[test]
fn loaded_game_is_shown() {
    let mut state = state(2);
    let scene = Scene { nodes: vec![node(9.0, 9.0, 9.0)] };
    let loaded: Result<_, String> = Ok((scene, camera(5.0)));
    assert_eq!(state.handle_input(&keydown("n")), InputAction::Load(1));
    assert_eq!(state.finish_load(1, loaded), Ok(()));
    assert_eq!(state.info().name, "game2");
    assert_eq!(state.scene.nodes.len(), 1);
    assert_eq!(state.camera.eye[2], 5.0);
}

#[test]
fn failed_load_changes_nothing() {
    let mut state = state(2);
    let loaded: Result<(Scene<f32>, Camera<f32>), String> = Err("no such file".to_string());
    assert_eq!(state.finish_load(1, loaded), Err("no such file".to_string()));
    assert_eq!(state.info().index, 0);
    assert_eq!(state.scene.nodes.len(), 2);
    assert_eq!(state.scene.nodes[0].transform.translation, [1.0, 2.0, 3.0]);
    assert_eq!(state.camera.eye[2], 2.0);
}

#[test]
fn pressing_n_goes_round_all_games() {
    let mut state = state(3);
    let mut seen = Vec::new();
    for _ in 0..4 {
        seen.push(state.info().index);
        if let InputAction::Load(next) = state.handle_input(&keydown("n")) {
            let loaded: Result<_, ()> = Ok((Scene { nodes: Vec::new() }, camera(1.0)));
            assert_eq!(state.finish_load(next, loaded), Ok(()));
        }
    }
    assert_eq!(seen, vec![0, 1, 2, 0]);
}

/// The steps to the right, to the left, up and down on the screen of a camera.
fn screen_steps(camera: &Camera<f32>) -> [[f32; 3]; 4] {
    let cross = |a: [f32; 3], b: [f32; 3]| {
        [a[1] * b[2] - a[2] * b[1], a[2] * b[0] - a[0] * b[2], a[0] * b[1] - a[1] * b[0]]
    };
    let length = |a: [f32; 3]| (a[0] * a[0] + a[1] * a[1] + a[2] * a[2]).sqrt();
    let times = |a: [f32; 3], k: f32| [a[0] * k, a[1] * k, a[2] * k];
    let forward = [
        camera.target[0] - camera.eye[0],
        camera.target[1] - camera.eye[1],
        camera.target[2] - camera.eye[2],
    ];
    let step = length(forward) * 0.05;
    let side = cross(forward, camera.up);
    let above = cross(side, forward);
    let right = times(side, step / length(side));
    let up = times(above, step / length(above));
    [right, times(right, -1.0), up, times(up, -1.0)]
}

/// Handles a key press as a server does.
fn press_arrow(state: &mut GameState<f32>, key: &str) {
    match state.handle_input(&keydown(key)) {
        InputAction::Move(direction) => {
            let [right, left, up, down] = screen_steps(&state.camera);
            state.move_object(direction, right, left, up, down, |a: f32, b: f32| a + b);
        }
        other => panic!("{key} asks for {other:?}"),
    }
}

#[test]
fn arrows_name_their_step() {
    let steps = [[1, 0, 0], [2, 0, 0], [3, 0, 0], [4, 0, 0]];
    let [right, left, up, down] = steps;
    assert_eq!(arrow_step(Direction::Right, right, left, up, down), right);
    assert_eq!(arrow_step(Direction::Left, right, left, up, down), left);
    assert_eq!(arrow_step(Direction::Up, right, left, up, down), up);
    assert_eq!(arrow_step(Direction::Down, right, left, up, down), down);
}

#[test]
fn move_changes_the_first_object_only() {
    let mut state = state(2);
    let sum = |a: f32, b: f32| a + b;
    let (right, left) = ([0.5, 0.0, 0.25], [-0.5, 0.0, -0.25]);
    let (up, down) = ([0.0, 1.0, 0.0], [0.0, -1.0, 0.0]);
    state.move_object(Direction::Left, right, left, up, down, sum);
    assert_eq!(state.scene.nodes[0].transform.translation, [0.5, 2.0, 2.75]);
    state.move_object(Direction::Up, right, left, up, down, sum);
    assert_eq!(state.scene.nodes[0].transform.translation, [0.5, 3.0, 2.75]);
    state.move_object(Direction::Right, right, left, up, down, sum);
    state.move_object(Direction::Right, right, left, up, down, sum);
    assert_eq!(state.scene.nodes[0].transform.translation, [1.5, 3.0, 3.25]);
    assert_eq!(state.scene.nodes[0].transform.rotation, [0.0, 0.0, 0.0, 1.0]);
    assert_eq!(state.scene.nodes[0].transform.scale, [1.0, 2.0, 3.0]);
    assert_eq!(state.scene.nodes[1].transform.translation, [4.0, 5.0, 6.0]);
    assert_eq!(state.info().index, 0);
}

#[test]
fn arrows_follow_the_screen_of_a_camera_along_z() {
    let scene = Scene { nodes: vec![node(0.0, 0.0, 0.0)] };
    let mut state = GameState::new(games(1), scene, camera(20.0)).unwrap();
    press_arrow(&mut state, "ArrowRight");
    assert_eq!(state.scene.nodes[0].transform.translation, [1.0, 0.0, 0.0]);
    press_arrow(&mut state, "ArrowUp");
    assert_eq!(state.scene.nodes[0].transform.translation, [1.0, 1.0, 0.0]);
    press_arrow(&mut state, "ArrowLeft");
    press_arrow(&mut state, "ArrowDown");
    assert_eq!(state.scene.nodes[0].transform.translation, [0.0, 0.0, 0.0]);
}

#[test]
fn arrows_follow_the_screen_of_a_camera_along_x() {
    let scene = Scene { nodes: vec![node(0.0, 0.0, 0.0)] };
    let mut seen = camera(0.0);
    seen.eye = [20.0, 0.0, 0.0];
    let mut state = GameState::new(games(1), scene, seen).unwrap();
    press_arrow(&mut state, "ArrowRight");
    assert_eq!(state.scene.nodes[0].transform.translation, [0.0, 0.0, -1.0]);
    press_arrow(&mut state, "ArrowUp");
    assert_eq!(state.scene.nodes[0].transform.translation, [0.0, 1.0, -1.0]);
}

#[test]
fn opposite_arrows_bring_the_object_back() {
    for (there, back) in [
        ("ArrowLeft", "ArrowRight"),
        ("ArrowRight", "ArrowLeft"),
        ("ArrowUp", "ArrowDown"),
        ("ArrowDown", "ArrowUp"),
    ] {
        let mut state = state(2);
        state.camera.eye[2] = 20.0;
        press_arrow(&mut state, there);
        assert_ne!(state.scene.nodes[0].transform.translation, [1.0, 2.0, 3.0]);
        press_arrow(&mut state, back);
        assert_eq!(state.scene.nodes[0].transform.translation, [1.0, 2.0, 3.0]);
        assert_eq!(state.scene.nodes[1].transform.translation, [4.0, 5.0, 6.0]);
        assert_eq!(state.info().index, 0);
    }
}

#[test]
fn opposite_arrows_come_near_where_sums_are_rounded() {
    let scene = Scene { nodes: vec![node(0.1, 7.3, -2.7), node(4.0, 5.0, 6.0)] };
    let mut state = GameState::new(games(1), scene, camera(3.3)).unwrap();
    for (there, back) in [("ArrowRight", "ArrowLeft"), ("ArrowDown", "ArrowUp")] {
        press_arrow(&mut state, there);
        press_arrow(&mut state, back);
    }
    let at = state.scene.nodes[0].transform.translation;
    assert!((at[0] - 0.1).abs() < 1e-5);
    assert!((at[1] - 7.3).abs() < 1e-5);
    assert!((at[2] + 2.7).abs() < 1e-5);
    assert_eq!(state.scene.nodes[0].transform.scale, [1.0, 2.0, 3.0]);
    assert_eq!(state.scene.nodes[1].transform.translation, [4.0, 5.0, 6.0]);
    assert_eq!(state.camera.eye, [0.0, 0.0, 3.3]);
}

#[test]
fn move_in_an_empty_scene_does_nothing() {
    let scene = Scene { nodes: Vec::new() };
    let mut state = GameState::new(games(1), scene, camera(1.0)).unwrap();
    press_arrow(&mut state, "ArrowUp");
    assert!(state.scene.nodes.is_empty());
}
