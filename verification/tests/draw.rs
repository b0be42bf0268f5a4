use editor_server::draw::{
    tile_position, BuildStep, Draw, EngineScene, MeshCache, Placement, SceneBuild,
};
use editor_server::scene::{
    to_engine_camera, Camera, EngineProjection, MeshRef, Node, Projection, Scene, TileCell,
    TileMap, Transform,
};

fn node(x: f32, mesh: Option<&str>, cells: Option<Vec<(i32, i32)>>) -> Node<f32> {
    Node {
        transform: Transform {
            translation: [x, 0.0, 0.0],
            rotation: [0.0, 0.0, 0.0, 1.0],
            scale: [1.0, 1.0, 1.0],
        },
        mesh: mesh.map(|path| MeshRef { path: path.to_string() }),
        tilemap: cells.map(|cells| TileMap {
            tile_size: [2.0, 3.0],
            cells: cells.into_iter().map(|(x, y)| TileCell { x, y }).collect(),
        }),
    }
}

fn camera() -> Camera<f32> {
    Camera {
        eye: [1.0, 2.0, 3.0],
        target: [4.0, 5.0, 6.0],
        up: [0.0, 1.0, 0.0],
        projection: Projection::Perspective {
            fov_y_degrees: 90.0,
            aspect: 1.5,
            znear: 0.1,
            zfar: 100.0,
        },
    }
}

/// Builds a scene, answering what it asks for with `files`; also gives back
/// what was asked for.
fn build(
    scene: &Scene<f32>,
    cache: &mut MeshCache,
    files: &[(&str, usize)],
) -> (EngineScene<f32>, Vec<String>) {
    let mut asked = Vec::new();
    let mut build = SceneBuild::new();
    loop {
        let path = match build.advance(scene, cache) {
            BuildStep::Done => break,
            BuildStep::LoadQuad => "quad".to_string(),
            BuildStep::LoadMesh(path) => path,
        };
        let found = files.iter().find(|(name, _)| *name == path).map(|(_, handle)| *handle);
        asked.push(path);
        build.answer(scene, cache, found);
    }
    (build.finish(to_engine_camera(&camera(), |degrees: f32| degrees.to_radians())), asked)
}

fn summary(draws: &[Draw<f32>]) -> Vec<(usize, String)> {
    draws
        .iter()
        .map(|draw| {
            let place = match draw.placement {
                Placement::Tile { x, y, tile_size } => {
                    format!("tile {x} {y} of {} {}", tile_size[0], tile_size[1])
                }
                Placement::Node(transform) => format!("node {}", transform.translation[0]),
            };
            (draw.mesh, place)
        })
        .collect()
}

#[test]
fn draws_tiles_then_mesh_in_node_order() {
    let scene = Scene {
        nodes: vec![
            node(1.0, Some("bunny.obj"), Some(vec![(0, 0), (-1, 2)])),
            node(2.0, None, None),
            node(3.0, Some("teapot.obj"), Some(vec![(5, 5)])),
        ],
    };
    let mut cache = MeshCache::new();
    let files = [("quad", 7), ("bunny.obj", 8), ("teapot.obj", 9)];
    let (built, asked) = build(&scene, &mut cache, &files);
    assert_eq!(asked, vec!["quad", "bunny.obj", "teapot.obj"]);
    assert_eq!(
        summary(&built.draws),
        vec![
            (7, "tile 0 0 of 2 3".to_string()),
            (7, "tile -1 2 of 2 3".to_string()),
            (8, "node 1".to_string()),
            (7, "tile 5 5 of 2 3".to_string()),
            (9, "node 3".to_string()),
        ]
    );
}

#[test]
fn loaded_meshes_are_not_asked_for_again() {
    let scene = Scene {
        nodes: vec![
            node(1.0, Some("bunny.obj"), None),
            node(2.0, Some("bunny.obj"), Some(vec![(1, 1)])),
        ],
    };
    let mut cache = MeshCache::new();
    let files = [("quad", 0), ("bunny.obj", 1)];
    let (first, asked_first) = build(&scene, &mut cache, &files);
    let (second, asked_second) = build(&scene, &mut cache, &[]);
    assert_eq!(asked_first, vec!["bunny.obj", "quad"]);
    assert!(asked_second.is_empty());
    assert_eq!(summary(&first.draws), summary(&second.draws));
}

#[test]
fn missing_meshes_are_left_out_and_asked_for_each_time() {
    let scene = Scene {
        nodes: vec![
            node(1.0, Some("gone.obj"), Some(vec![(1, 1)])),
            node(2.0, Some("gone.obj"), Some(vec![(2, 2)])),
            node(3.0, Some("bunny.obj"), None),
        ],
    };
    let mut cache = MeshCache::new();
    let (built, asked) = build(&scene, &mut cache, &[("bunny.obj", 4)]);
    assert_eq!(asked, vec!["quad", "gone.obj", "quad", "gone.obj", "bunny.obj"]);
    assert_eq!(summary(&built.draws), vec![(4, "node 3".to_string())]);
}

#[test]
fn empty_tile_map_still_asks_for_the_quad() {
    let scene = Scene { nodes: vec![node(1.0, None, Some(Vec::new()))] };
    let mut cache = MeshCache::new();
    let (built, asked) = build(&scene, &mut cache, &[("quad", 1)]);
    assert_eq!(asked, vec!["quad"]);
    assert!(built.draws.is_empty());
}

#[test]
fn empty_scene_draws_nothing() {
    let scene: Scene<f32> = Scene { nodes: Vec::new() };
    let (built, asked) = build(&scene, &mut MeshCache::new(), &[]);
    assert!(built.draws.is_empty());
    assert!(asked.is_empty());
}

#[test]
fn perspective_camera_turns_degrees_into_radians() {
    let engine = to_engine_camera(&camera(), |degrees: f32| degrees.to_radians());
    assert_eq!(engine.eye, [1.0, 2.0, 3.0]);
    assert_eq!(engine.target, [4.0, 5.0, 6.0]);
    assert_eq!(engine.up, [0.0, 1.0, 0.0]);
    match engine.projection {
        EngineProjection::Perspective { fov_y_radians, aspect, znear, zfar } => {
            assert_eq!(fov_y_radians, 90.0f32.to_radians());
            assert_eq!((aspect, znear, zfar), (1.5, 0.1, 100.0));
        }
        EngineProjection::Orthographic { .. } => panic!("projection changed"),
    }
}

#[test]
fn orthographic_camera_keeps_its_numbers() {
    let mut camera = camera();
    camera.projection =
        Projection::Orthographic { half_height: 2.5, aspect: 1.25, znear: 0.5, zfar: 50.0 };
    let engine = to_engine_camera(&camera, |degrees: f32| degrees.to_radians());
    match engine.projection {
        EngineProjection::Orthographic { half_height, aspect, znear, zfar } => {
            assert_eq!((half_height, aspect, znear, zfar), (2.5, 1.25, 0.5, 50.0));
        }
        EngineProjection::Perspective { .. } => panic!("projection changed"),
    }
}

#[test]
fn tiles_lie_on_the_ground() {
    let position =
        tile_position(3, -2, [2.0f32, 0.5], 0.0, |count: i32, size: f32| count as f32 * size);
    assert_eq!(position, [6.0, 0.0, -1.0]);
}
