//! The scene document and its camera, as the rules see them.
//!
//! `F` is the number type of coordinates. No rule computes with it: where a
//! number has to be computed, the caller hands in the operation or its result.

use vstd::prelude::*;

verus! {

/// Where a node stands, how it is turned (a quaternion) and how it is scaled.
#[derive(Clone, Copy, Debug)]
pub struct Transform<F> {
    pub translation: [F; 3],
    pub rotation: [F; 4],
    pub scale: [F; 3],
}

/// One filled cell of a tile map, in whole tiles.
#[derive(Clone, Copy, Debug)]
pub struct TileCell {
    pub x: i32,
    pub y: i32,
}

/// Filled cells that share one tile size.
#[derive(Debug)]
pub struct TileMap<F> {
    pub tile_size: [F; 2],
    pub cells: Vec<TileCell>,
}

/// The file that a node's mesh is read from.
#[derive(Debug)]
pub struct MeshRef {
    pub path: String,
}

/// One object of a scene.
#[derive(Debug)]
pub struct Node<F> {
    pub transform: Transform<F>,
    pub mesh: Option<MeshRef>,
    pub tilemap: Option<TileMap<F>>,
}

/// A scene document.
#[derive(Debug)]
pub struct Scene<F> {
    pub nodes: Vec<Node<F>>,
}

/// How a document's camera projects; the field of view is in degrees.
#[derive(Clone, Copy, Debug)]
pub enum Projection<F> {
    Perspective { fov_y_degrees: F, aspect: F, znear: F, zfar: F },
    Orthographic { half_height: F, aspect: F, znear: F, zfar: F },
}

/// A document's camera.
#[derive(Clone, Copy, Debug)]
pub struct Camera<F> {
    pub eye: [F; 3],
    pub target: [F; 3],
    pub up: [F; 3],
    pub projection: Projection<F>,
}

/// How the renderer's camera projects; the field of view is in radians.
#[derive(Clone, Copy, Debug)]
pub enum EngineProjection<F> {
    Perspective { fov_y_radians: F, aspect: F, znear: F, zfar: F },
    Orthographic { half_height: F, aspect: F, znear: F, zfar: F },
}

/// The renderer's camera.
#[derive(Clone, Copy, Debug)]
pub struct EngineCamera<F> {
    pub eye: [F; 3],
    pub target: [F; 3],
    pub up: [F; 3],
    pub projection: EngineProjection<F>,
}

/// The renderer's camera for a document's camera: the same camera, with the
/// field of view, where there is one, put through `to_radians`.
pub fn to_engine_camera<F: Copy, R: Fn(F) -> F>(
    camera: &Camera<F>,
    to_radians: R,
) -> (engine: EngineCamera<F>)
    requires
        forall|degrees: F| call_requires(to_radians, (degrees,)),
    ensures
        engine.eye == camera.eye,
        engine.target == camera.target,
        engine.up == camera.up,
        match camera.projection {
            Projection::Perspective { fov_y_degrees, aspect, znear, zfar } => {
                &&& engine.projection is Perspective
                &&& call_ensures(
                    to_radians,
                    (fov_y_degrees,),
                    engine.projection->fov_y_radians,
                )
                &&& engine.projection->Perspective_aspect == aspect
                &&& engine.projection->Perspective_znear == znear
                &&& engine.projection->Perspective_zfar == zfar
            },
            Projection::Orthographic { half_height, aspect, znear, zfar } => engine.projection
                == (EngineProjection::Orthographic { half_height, aspect, znear, zfar }),
        },
{
    let projection = match camera.projection {
        Projection::Perspective { fov_y_degrees, aspect, znear, zfar } => {
            let fov_y_radians = to_radians(fov_y_degrees);
            EngineProjection::Perspective { fov_y_radians, aspect, znear, zfar }
        },
        Projection::Orthographic { half_height, aspect, znear, zfar } => {
            EngineProjection::Orthographic { half_height, aspect, znear, zfar }
        },
    };
    EngineCamera { eye: camera.eye, target: camera.target, up: camera.up, projection }
}

/// `after` is `before` but for where it stands.
pub open spec fn same_but_place<F>(before: Node<F>, after: Node<F>) -> bool {
    &&& after.mesh == before.mesh
    &&& after.tilemap == before.tilemap
    &&& after.transform.rotation == before.transform.rotation
    &&& after.transform.scale == before.transform.scale
}

/// `after` is `before` moved by `step`: each coordinate is what `sum` makes of
/// it and its part of the step, and the rest of the node is as it was.
pub open spec fn node_moved<F, S: Fn(F, F) -> F>(
    before: Node<F>,
    after: Node<F>,
    step: [F; 3],
    sum: S,
) -> bool {
    &&& same_but_place(before, after)
    &&& forall|i: int|
        0 <= i < 3 ==> call_ensures(
            sum,
            (before.transform.translation@[i], step@[i]),
            #[trigger] after.transform.translation@[i],
        )
}

/// `after` are the nodes `before`, of which the first, if there is one, is moved
/// by `step`.
pub open spec fn first_node_moved<F, S: Fn(F, F) -> F>(
    before: Seq<Node<F>>,
    after: Seq<Node<F>>,
    step: [F; 3],
    sum: S,
) -> bool {
    if before.len() == 0 {
        after == before
    } else {
        after == before.update(0, after[0]) && node_moved(before[0], after[0], step, sum)
    }
}

/// Moves the first node of a scene, if it has one, by a step; `sum` adds two
/// coordinates.
pub fn move_first_node<F: Copy, S: Fn(F, F) -> F>(scene: &mut Scene<F>, step: [F; 3], sum: S)
    requires
        forall|a: F, b: F| call_requires(sum, (a, b)),
    ensures
        first_node_moved(old(scene).nodes@, final(scene).nodes@, step, sum),
{
    if scene.nodes.len() > 0 {
        let at = scene.nodes[0].transform.translation;
        let x = sum(at[0], step[0]);
        let y = sum(at[1], step[1]);
        let z = sum(at[2], step[2]);
        scene.nodes[0].transform.translation = [x, y, z];
    }
}

/// A step of `back` undoes one of `forth` that is made at `place`, up to what
/// `near` lets pass for the same: whatever `sum` makes of a coordinate and the
/// two, one after the other, is near that coordinate.
pub open spec fn undoes<F, S: Fn(F, F) -> F>(
    sum: S,
    place: [F; 3],
    forth: [F; 3],
    back: [F; 3],
    near: spec_fn(F, F) -> bool,
) -> bool {
    forall|i: int, b: F, c: F|
        0 <= i < 3 && #[trigger] call_ensures(sum, (place@[i], forth@[i]), b)
            && #[trigger] call_ensures(sum, (b, back@[i]), c) ==> near(place@[i], c)
}

/// Law: two steps, whatever they are, leave everything as it was but the place
/// of the first node. If the second undoes the first, up to what `near` lets pass
/// for the same, each coordinate of that node is near what it was.
pub proof fn undone_step_brings_node_back<F, S: Fn(F, F) -> F>(
    before: Seq<Node<F>>,
    between: Seq<Node<F>>,
    after: Seq<Node<F>>,
    forth: [F; 3],
    back: [F; 3],
    sum: S,
    near: spec_fn(F, F) -> bool,
)
    requires
        first_node_moved(before, between, forth, sum),
        first_node_moved(between, after, back, sum),
    ensures
        after.len() == before.len(),
        forall|k: int| 1 <= k < before.len() ==> #[trigger] after[k] == before[k],
        before.len() > 0 ==> same_but_place(before[0], after[0]),
        before.len() > 0 && undoes(sum, before[0].transform.translation, forth, back, near) ==> (
        forall|i: int|
            0 <= i < 3 ==> near(
                before[0].transform.translation@[i],
                #[trigger] after[0].transform.translation@[i],
            )),
{
    if before.len() > 0 {
        let a = before[0].transform.translation;
        let b = between[0].transform.translation;
        let c = after[0].transform.translation;
        assert forall|k: int| 1 <= k < before.len() implies #[trigger] after[k] == before[k] by {
            assert(between[k] == before[k]);
        }
        assert forall|i: int|
            0 <= i < 3 && undoes(sum, a, forth, back, near) implies near(
            a@[i],
            #[trigger] c@[i],
        ) by {
            assert(call_ensures(sum, (a@[i], forth@[i]), b@[i]));
            assert(call_ensures(sum, (b@[i], back@[i]), c@[i]));
        }
    }
}

/// Law: two steps of which the second undoes the first exactly leave the nodes of
/// a scene as they were.
pub proof fn undone_step_leaves_nodes<F, S: Fn(F, F) -> F>(
    before: Seq<Node<F>>,
    between: Seq<Node<F>>,
    after: Seq<Node<F>>,
    forth: [F; 3],
    back: [F; 3],
    sum: S,
)
    requires
        first_node_moved(before, between, forth, sum),
        first_node_moved(between, after, back, sum),
        before.len() > 0 ==> undoes(
            sum,
            before[0].transform.translation,
            forth,
            back,
            |x: F, y: F| x == y,
        ),
    ensures
        after == before,
{
    let same = |x: F, y: F| x == y;
    undone_step_brings_node_back(before, between, after, forth, back, sum, same);
    if before.len() > 0 {
        let a = before[0].transform.translation;
        let c = after[0].transform.translation;
        assert forall|i: int| 0 <= i < 3 implies c@[i] == a@[i] by {
            assert(same(a@[i], c@[i]));
        }
        assert(c@ =~= a@);
        assert(c =~= a);
        assert(after[0] == before[0]);
    }
    assert(after =~= before);
}

} // verus!
