//! Laws of what is drawn of a scene: every draw, in its order and in its place.

use vstd::prelude::*;
use crate::draw::{
    build_draws, build_draws_all_that_can_be_loaded, draws_between, half_draws, half_wants,
    stocked, tile_position, BuildStep, Draw, EngineScene, Loaded, MeshCache, Placement, SceneBuild,
    Want, QUAD_FILE,
};
use crate::scene::{EngineCamera, Node, Scene};

verus! {

/// The draws of a half, among those of all halves from `from` up to `to`.
proof fn lemma_half_among<F>(nodes: Seq<Node<F>>, from: int, half: int, to: int, loaded: Loaded)
    requires
        from <= half < to,
    ensures
        ({
            let start = draws_between(nodes, from, half, loaded).len() as int;
            let end = draws_between(nodes, from, half + 1, loaded).len() as int;
            let draws = draws_between(nodes, from, to, loaded);
            &&& end == start + half_draws(nodes, half, loaded).len()
            &&& end <= draws.len()
            &&& draws.subrange(start, end) == half_draws(nodes, half, loaded)
        }),
    decreases to - half,
{
    let start = draws_between(nodes, from, half, loaded).len() as int;
    let end = draws_between(nodes, from, half + 1, loaded).len() as int;
    let draws = draws_between(nodes, from, to, loaded);
    if half == to - 1 {
        assert(draws.subrange(start, end) =~= half_draws(nodes, half, loaded));
    } else {
        lemma_half_among(nodes, from, half, to - 1, loaded);
        assert(draws.subrange(start, end) =~= draws_between(
            nodes,
            from,
            to - 1,
            loaded,
        ).subrange(start, end));
    }
}

/// The number of draws of a node's tile map, among those of all halves from `from`
/// up to `to`.
proof fn lemma_tiles_among<F>(nodes: Seq<Node<F>>, from: int, i: int, to: int, loaded: Loaded)
    requires
        from <= 2 * i < to,
    ensures
        draws_between(nodes, from, 2 * i + 1, loaded).len() == draws_between(
            nodes,
            from,
            2 * i,
            loaded,
        ).len() + (if nodes[i].tilemap is Some && loaded.quad is Some {
            nodes[i].tilemap->0.cells@.len()
        } else {
            0
        }),
{
    assert((2 * i) % 2 == 0 && (2 * i) / 2 == i);
    lemma_half_among(nodes, from, 2 * i, to, loaded);
}

/// The draw of a cell, among those of all halves from `from` up to `to`.
proof fn lemma_cell_among<F>(
    nodes: Seq<Node<F>>,
    from: int,
    i: int,
    c: int,
    to: int,
    loaded: Loaded,
)
    requires
        from <= 2 * i < to,
        nodes[i].tilemap is Some,
        loaded.quad is Some,
        0 <= c < nodes[i].tilemap->0.cells@.len(),
    ensures
        draws_between(nodes, from, 2 * i, loaded).len() + c < draws_between(
            nodes,
            from,
            to,
            loaded,
        ).len(),
        ({
            let draw = draws_between(nodes, from, to, loaded)[draws_between(
                nodes,
                from,
                2 * i,
                loaded,
            ).len() + c];
            &&& draw.mesh == loaded.quad->0
            &&& draw.placement is Tile
            &&& draw.placement->x == nodes[i].tilemap->0.cells@[c].x
            &&& draw.placement->y == nodes[i].tilemap->0.cells@[c].y
            &&& draw.placement->tile_size == nodes[i].tilemap->0.tile_size
        }),
{
    let half = 2 * i;
    assert(half % 2 == 0 && half / 2 == i);
    lemma_half_among(nodes, from, half, to, loaded);
    let start = draws_between(nodes, from, half, loaded).len() as int;
    let end = draws_between(nodes, from, half + 1, loaded).len() as int;
    let draws = draws_between(nodes, from, to, loaded);
    assert(draws.subrange(start, end)[c] == draws[start + c]);
}

/// The draw of a node's mesh, among those of all halves from `from` up to `to`.
proof fn lemma_mesh_among<F>(nodes: Seq<Node<F>>, from: int, i: int, to: int, loaded: Loaded)
    requires
        from <= 2 * i + 1 < to,
    ensures
        ({
            let start = draws_between(nodes, from, 2 * i + 1, loaded).len() as int;
            let end = draws_between(nodes, from, 2 * i + 2, loaded).len() as int;
            let draws = draws_between(nodes, from, to, loaded);
            if nodes[i].mesh is Some && loaded.meshes.contains_key(nodes[i].mesh->0.path@) {
                let draw = draws[start];
                &&& end == start + 1
                &&& end <= draws.len()
                &&& draw.mesh == loaded.meshes[nodes[i].mesh->0.path@]
                &&& draw.placement is Node
                &&& draw.placement->Node_0.translation == nodes[i].transform.translation
                &&& draw.placement->Node_0.rotation == nodes[i].transform.rotation
                &&& draw.placement->Node_0.scale == nodes[i].transform.scale
            } else {
                end == start
            }
        }),
{
    let half = 2 * i + 1;
    assert(half % 2 == 1 && half / 2 == i);
    lemma_half_among(nodes, from, half, to, loaded);
    let start = draws_between(nodes, from, half, loaded).len() as int;
    let end = draws_between(nodes, from, half + 1, loaded).len() as int;
    let draws = draws_between(nodes, from, to, loaded);
    if nodes[i].mesh is Some && loaded.meshes.contains_key(nodes[i].mesh->0.path@) {
        assert(draws.subrange(start, end)[0] == draws[start]);
    }
}

/// Law: what a step of a build asks for is missing: the quad at a node with a tile map
/// if there is no quad, or the mesh of a node if its file was not loaded. It asks
/// for nothing only at the end of the scene. On the way it passed over nothing
/// that was missing.
pub proof fn build_asks_for_what_is_missing<F: Copy>(
    build: &mut SceneBuild<F>,
    scene: &Scene<F>,
    cache: &MeshCache,
    step: BuildStep,
)
    requires
        old(build).node <= scene.nodes@.len(),
        old(build).tiles_done ==> old(build).node < scene.nodes@.len(),
        call_ensures(SceneBuild::<F>::advance, (build, scene, cache), step),
    ensures
        step is Done <==> final(build).node == scene.nodes@.len(),
        step is Done ==> !final(build).tiles_done,
        step is LoadQuad ==> {
            &&& final(build).node < scene.nodes@.len()
            &&& !final(build).tiles_done
            &&& scene.nodes@[final(build).node as int].tilemap is Some
            &&& cache.quad is None
        },
        step matches BuildStep::LoadMesh(path) ==> {
            &&& final(build).node < scene.nodes@.len()
            &&& final(build).tiles_done
            &&& scene.nodes@[final(build).node as int].mesh is Some
            &&& scene.nodes@[final(build).node as int].mesh->0.path@ == path@
            &&& !cache.meshes@.contains_key(path@)
        },
        forall|i: int|
            (#[trigger] scene.nodes@[i]).tilemap is Some && (old(build).node < i
                || old(build).node == i && !old(build).tiles_done) && (i < final(build).node
                || i == final(build).node && final(build).tiles_done) ==> cache.quad is Some,
        forall|i: int|
            old(build).node <= i < final(build).node && (#[trigger] scene.nodes@[i]).mesh is Some
                ==> cache.meshes@.contains_key(scene.nodes@[i].mesh->0.path@),
{
    let nodes = scene.nodes@;
    let end = 2 * final(build).node + if final(build).tiles_done {
        1int
    } else {
        0int
    };
    assert(end % 2 == 1 <==> final(build).tiles_done);
    assert(end / 2 == final(build).node);
    assert forall|i: int|
        (#[trigger] nodes[i]).tilemap is Some && (old(build).node < i || old(build).node == i
            && !old(build).tiles_done) && (i < final(build).node || i == final(build).node
            && final(build).tiles_done) implies cache.quad is Some by {
        assert(half_wants(nodes, 2 * i, cache@) is None);
    }
    assert forall|i: int|
        old(build).node <= i < final(build).node && (#[trigger] nodes[i]).mesh is Some implies
        cache.meshes@.contains_key(nodes[i].mesh->0.path@) by {
        assert((2 * i + 1) % 2 == 1 && (2 * i + 1) / 2 == i);
        assert(half_wants(nodes, 2 * i + 1, cache@) is None);
    }
}

/// Law: going on, a build keeps what it has drawn and adds to it node by node, of
/// each node first the tiles and then the mesh: `at` says where, node by node.
/// Every cell of a tile map is drawn with the quad, in its own column and row and
/// at the map's tile size, and every mesh where its node stands, turned and scaled
/// as the node is.
pub proof fn build_draws_node_by_node<F: Copy>(
    build: &mut SceneBuild<F>,
    scene: &Scene<F>,
    cache: &MeshCache,
    step: BuildStep,
) -> (at: (Seq<int>, Seq<int>))
    requires
        old(build).node <= scene.nodes@.len(),
        old(build).tiles_done ==> old(build).node < scene.nodes@.len(),
        call_ensures(SceneBuild::<F>::advance, (build, scene, cache), step),
    ensures
        ({
            let (tiles, meshes) = at;
            let nodes = scene.nodes@;
            let from = 2 * old(build).node + if old(build).tiles_done {
                1int
            } else {
                0int
            };
            let to = 2 * final(build).node + if final(build).tiles_done {
                1int
            } else {
                0int
            };
            let drawn = old(build).draws@.len() as int;
            let draws = final(build).draws@;
            &&& from <= to <= 2 * nodes.len()
            &&& draws.take(drawn) == old(build).draws@
            &&& drawn == if old(build).tiles_done {
                meshes[old(build).node as int]
            } else {
                tiles[old(build).node as int]
            }
            &&& draws.len() == if final(build).tiles_done {
                meshes[final(build).node as int]
            } else {
                tiles[final(build).node as int]
            }
            &&& forall|i: int|
                #![trigger meshes[i]]
                from <= 2 * i < to ==> meshes[i] == tiles[i] + (if nodes[i].tilemap is Some {
                    nodes[i].tilemap->0.cells@.len() as int
                } else {
                    0
                })
            &&& forall|i: int, c: int|
                #![trigger draws[tiles[i] + c]]
                from <= 2 * i < to && nodes[i].tilemap is Some && 0 <= c
                    < nodes[i].tilemap->0.cells@.len() ==> {
                    let draw = draws[tiles[i] + c];
                    &&& cache.quad is Some
                    &&& draw.mesh == cache.quad->0
                    &&& draw.placement is Tile
                    &&& draw.placement->x == nodes[i].tilemap->0.cells@[c].x
                    &&& draw.placement->y == nodes[i].tilemap->0.cells@[c].y
                    &&& draw.placement->tile_size == nodes[i].tilemap->0.tile_size
                }
            &&& forall|i: int|
                #![trigger meshes[i]]
                from <= 2 * i + 1 < to ==> tiles[i + 1] == meshes[i] + (if nodes[i].mesh is Some {
                    1int
                } else {
                    0
                })
            &&& forall|i: int|
                #![trigger draws[meshes[i]]]
                from <= 2 * i + 1 < to && nodes[i].mesh is Some ==> {
                    let draw = draws[meshes[i]];
                    &&& cache.meshes@.contains_key(nodes[i].mesh->0.path@)
                    &&& draw.mesh == cache.meshes@[nodes[i].mesh->0.path@]
                    &&& draw.placement is Node
                    &&& draw.placement->Node_0.translation == nodes[i].transform.translation
                    &&& draw.placement->Node_0.rotation == nodes[i].transform.rotation
                    &&& draw.placement->Node_0.scale == nodes[i].transform.scale
                }
        }),
{
    let nodes = scene.nodes@;
    let loaded = cache@;
    let from = 2 * old(build).node + if old(build).tiles_done {
        1int
    } else {
        0int
    };
    let to = 2 * final(build).node + if final(build).tiles_done {
        1int
    } else {
        0int
    };
    let before = old(build).draws@;
    let draws = final(build).draws@;
    let added = draws_between(nodes, from, to, loaded);
    let tiles = Seq::new(
        nodes.len() + 1,
        |i: int| draws_between(nodes, from, 2 * i, loaded).len() + before.len() as int,
    );
    let meshes = Seq::new(
        nodes.len() + 1,
        |i: int| draws_between(nodes, from, 2 * i + 1, loaded).len() + before.len() as int,
    );
    assert(draws == before + added);
    assert(draws.take(before.len() as int) =~= before);
    assert forall|i: int| #![trigger meshes[i]] from <= 2 * i < to implies meshes[i] == tiles[i] + (
    if nodes[i].tilemap is Some {
        nodes[i].tilemap->0.cells@.len() as int
    } else {
        0
    }) by {
        assert((2 * i) % 2 == 0 && (2 * i) / 2 == i);
        assert(half_wants(nodes, 2 * i, loaded) is None);
        lemma_tiles_among(nodes, from, i, to, loaded);
    }
    assert forall|i: int, c: int|
        #![trigger draws[tiles[i] + c]]
        from <= 2 * i < to && nodes[i].tilemap is Some && 0 <= c
            < nodes[i].tilemap->0.cells@.len() implies {
        let draw = draws[tiles[i] + c];
        &&& cache.quad is Some
        &&& draw.mesh == cache.quad->0
        &&& draw.placement is Tile
        &&& draw.placement->x == nodes[i].tilemap->0.cells@[c].x
        &&& draw.placement->y == nodes[i].tilemap->0.cells@[c].y
        &&& draw.placement->tile_size == nodes[i].tilemap->0.tile_size
    } by {
        assert((2 * i) % 2 == 0 && (2 * i) / 2 == i);
        assert(half_wants(nodes, 2 * i, loaded) is None);
        lemma_cell_among(nodes, from, i, c, to, loaded);
        let at = draws_between(nodes, from, 2 * i, loaded).len() as int;
        assert(draws[tiles[i] + c] == added[at + c]);
    }
    assert forall|i: int| #![trigger meshes[i]] from <= 2 * i + 1 < to implies tiles[i + 1]
        == meshes[i] + (if nodes[i].mesh is Some {
        1int
    } else {
        0
    }) by {
        assert((2 * i + 1) % 2 == 1 && (2 * i + 1) / 2 == i);
        assert(half_wants(nodes, 2 * i + 1, loaded) is None);
        lemma_mesh_among(nodes, from, i, to, loaded);
        assert(2 * (i + 1) == 2 * i + 2);
    }
    assert forall|i: int|
        #![trigger draws[meshes[i]]]
        from <= 2 * i + 1 < to && nodes[i].mesh is Some implies {
        let draw = draws[meshes[i]];
        &&& cache.meshes@.contains_key(nodes[i].mesh->0.path@)
        &&& draw.mesh == cache.meshes@[nodes[i].mesh->0.path@]
        &&& draw.placement is Node
        &&& draw.placement->Node_0.translation == nodes[i].transform.translation
        &&& draw.placement->Node_0.rotation == nodes[i].transform.rotation
        &&& draw.placement->Node_0.scale == nodes[i].transform.scale
    } by {
        assert((2 * i + 1) % 2 == 1 && (2 * i + 1) / 2 == i);
        assert(half_wants(nodes, 2 * i + 1, loaded) is None);
        lemma_mesh_among(nodes, from, i, to, loaded);
        let at = draws_between(nodes, from, 2 * i + 1, loaded).len() as int;
        assert(draws[meshes[i]] == added[at]);
    }
    (tiles, meshes)
}

/// Law: the quad that a build asked for is kept if it could be loaded, and the
/// cells of the tile map that the build stands at are then drawn with it, in
/// order; if it could not be, nothing is drawn. Nothing else changes, and the
/// build goes on to the mesh of the same node.
pub proof fn loaded_quad_draws_tiles<F: Copy>(
    build: &mut SceneBuild<F>,
    scene: &Scene<F>,
    cache: &mut MeshCache,
    loaded: Option<usize>,
)
    requires
        old(build).node < scene.nodes@.len(),
        !old(build).tiles_done,
        scene.nodes@[old(build).node as int].tilemap is Some,
        old(cache).quad is None,
        call_ensures(SceneBuild::<F>::answer, (build, scene, cache, loaded), ()),
    ensures
        final(cache).quad == loaded,
        final(cache).meshes@ == old(cache).meshes@,
        final(build).node == old(build).node,
        final(build).tiles_done,
        loaded is None ==> final(build).draws@ == old(build).draws@,
        loaded is Some ==> {
            let map = scene.nodes@[old(build).node as int].tilemap->0;
            let drawn = old(build).draws@.len() as int;
            &&& final(build).draws@.len() == drawn + map.cells@.len()
            &&& final(build).draws@.take(drawn) == old(build).draws@
            &&& forall|c: int|
                0 <= c < map.cells@.len() ==> {
                    let draw = final(build).draws@[drawn + c];
                    &&& draw.mesh == loaded->0
                    &&& draw.placement is Tile
                    &&& draw.placement->x == (#[trigger] map.cells@[c]).x
                    &&& draw.placement->y == map.cells@[c].y
                    &&& draw.placement->tile_size == map.tile_size
                }
        },
{
    let half = 2 * old(build).node;
    assert(half % 2 == 0 && half / 2 == old(build).node as int);
    assert(half_wants(scene.nodes@, half, old(cache)@) == Some(Want::Quad));
    let drawn = old(build).draws@.len() as int;
    if loaded is None {
        assert(final(build).draws@ =~= old(build).draws@);
    } else {
        assert(final(build).draws@.take(drawn) =~= old(build).draws@);
    }
}

/// Law: the mesh that a build asked for is kept under the path of its file if it
/// could be loaded, and is then drawn once, where its node stands, turned and
/// scaled as the node is; if it could not be, nothing is drawn. Nothing else
/// changes, and the build goes on to the next node.
pub proof fn loaded_mesh_draws_node<F: Copy>(
    build: &mut SceneBuild<F>,
    scene: &Scene<F>,
    cache: &mut MeshCache,
    loaded: Option<usize>,
)
    requires
        old(build).node < scene.nodes@.len(),
        old(build).tiles_done,
        scene.nodes@[old(build).node as int].mesh is Some,
        !old(cache).meshes@.contains_key(scene.nodes@[old(build).node as int].mesh->0.path@),
        call_ensures(SceneBuild::<F>::answer, (build, scene, cache, loaded), ()),
    ensures
        final(cache).quad == old(cache).quad,
        final(build).node == old(build).node + 1,
        !final(build).tiles_done,
        loaded is None ==> final(cache).meshes@ == old(cache).meshes@,
        loaded is None ==> final(build).draws@ == old(build).draws@,
        loaded is Some ==> {
            let node = scene.nodes@[old(build).node as int];
            let drawn = old(build).draws@.len() as int;
            let draw = final(build).draws@[drawn];
            &&& final(cache).meshes@ == old(cache).meshes@.insert(node.mesh->0.path@, loaded->0)
            &&& final(build).draws@.len() == drawn + 1
            &&& final(build).draws@.take(drawn) == old(build).draws@
            &&& draw.mesh == loaded->0
            &&& draw.placement is Node
            &&& draw.placement->Node_0.translation == node.transform.translation
            &&& draw.placement->Node_0.rotation == node.transform.rotation
            &&& draw.placement->Node_0.scale == node.transform.scale
        },
{
    let half = 2 * old(build).node + 1;
    assert(half % 2 == 1 && half / 2 == old(build).node as int);
    let path = scene.nodes@[old(build).node as int].mesh->0.path@;
    assert(half_wants(scene.nodes@, half, old(cache)@) == Some(Want::Mesh(path)));
    let drawn = old(build).draws@.len() as int;
    if loaded is None {
        assert(final(build).draws@ =~= old(build).draws@);
    } else {
        assert(final(build).draws@.take(drawn) =~= old(build).draws@);
    }
}

/// Law: a build starts at the first node, before its tiles, with nothing drawn.
pub proof fn build_starts_with_nothing<F: Copy>(build: SceneBuild<F>)
    requires
        call_ensures(SceneBuild::<F>::new, (), build),
    ensures
        build.node == 0,
        !build.tiles_done,
        build.draws@.len() == 0,
{
}

/// Law: what is rendered is what was drawn, as it was drawn, seen by the camera.
pub proof fn rendered_is_what_was_drawn<F: Copy>(
    build: SceneBuild<F>,
    camera: EngineCamera<F>,
    scene: EngineScene<F>,
)
    requires
        call_ensures(SceneBuild::<F>::finish, (build, camera), scene),
    ensures
        scene.camera == camera,
        scene.draws@.len() == build.draws@.len(),
        forall|i: int|
            0 <= i < build.draws@.len() ==> #[trigger] scene.draws@[i] == build.draws@[i],
{
}

/// Law: a new cache has no quad and no mesh.
pub proof fn new_cache_is_empty(cache: MeshCache, path: Seq<char>)
    requires
        call_ensures(MeshCache::new, (), cache),
    ensures
        cache.quad is None,
        !cache.meshes@.contains_key(path),
{
    assert(cache@.meshes == Map::<Seq<char>, usize>::empty());
}

/// Law: a cell lies as many tile widths along the first axis as its column says
/// and as many tile depths along the third as its row says, on the ground.
pub proof fn cell_lies_in_its_column_and_row<F: Copy, T: Fn(i32, F) -> F>(
    x: i32,
    y: i32,
    tile_size: [F; 2],
    ground: F,
    times: T,
    position: [F; 3],
)
    requires
        call_ensures(tile_position::<F, T>, (x, y, tile_size, ground, times), position),
    ensures
        call_ensures(times, (x, tile_size@[0]), position@[0]),
        position@[1] == ground,
        call_ensures(times, (y, tile_size@[1]), position@[2]),
{
}

/// Law: a whole build, whatever was loaded before it, draws the scene node by node,
/// of each node first the tiles and then the mesh: `at` says where, node by node.
/// It draws every cell of every tile map if the quad was loaded or its file can be
/// read, and every mesh that was loaded or whose file can be read, each where its
/// node stands, turned and scaled as the node is. It draws nothing else.
pub proof fn whole_build_draws_all_that_can_be_had<F>(
    nodes: Seq<Node<F>>,
    start: Loaded,
    files: spec_fn(Want) -> Option<usize>,
) -> (at: (Seq<int>, Seq<int>))
    ensures
        ({
            let (tiles, meshes) = at;
            let draws = build_draws(nodes, 2 * nodes.len() as int, start, files);
            let quad = if start.quad is Some {
                start.quad
            } else {
                files(Want::Quad)
            };
            &&& tiles[0] == 0
            &&& tiles[nodes.len() as int] == draws.len()
            &&& forall|i: int|
                #![trigger meshes[i]]
                0 <= i < nodes.len() ==> meshes[i] == tiles[i] + (if nodes[i].tilemap is Some
                    && quad is Some {
                    nodes[i].tilemap->0.cells@.len() as int
                } else {
                    0
                })
            &&& forall|i: int, c: int|
                #![trigger draws[tiles[i] + c]]
                0 <= i < nodes.len() && nodes[i].tilemap is Some && quad is Some && 0 <= c
                    < nodes[i].tilemap->0.cells@.len() ==> {
                    let draw = draws[tiles[i] + c];
                    &&& draw.mesh == quad->0
                    &&& draw.placement is Tile
                    &&& draw.placement->x == nodes[i].tilemap->0.cells@[c].x
                    &&& draw.placement->y == nodes[i].tilemap->0.cells@[c].y
                    &&& draw.placement->tile_size == nodes[i].tilemap->0.tile_size
                }
            &&& forall|i: int|
                #![trigger meshes[i]]
                0 <= i < nodes.len() ==> tiles[i + 1] == meshes[i] + (if nodes[i].mesh is Some && (
                start.meshes.contains_key(nodes[i].mesh->0.path@) || files(
                    Want::Mesh(nodes[i].mesh->0.path@),
                ) is Some) {
                    1int
                } else {
                    0
                })
            &&& forall|i: int|
                #![trigger draws[meshes[i]]]
                0 <= i < nodes.len() && nodes[i].mesh is Some && (start.meshes.contains_key(
                    nodes[i].mesh->0.path@,
                ) || files(Want::Mesh(nodes[i].mesh->0.path@)) is Some) ==> {
                    let path = nodes[i].mesh->0.path@;
                    let draw = draws[meshes[i]];
                    &&& start.meshes.contains_key(path) ==> draw.mesh == start.meshes[path]
                    &&& !start.meshes.contains_key(path) ==> draw.mesh == files(
                        Want::Mesh(path),
                    )->0
                    &&& draw.placement is Node
                    &&& draw.placement->Node_0.translation == nodes[i].transform.translation
                    &&& draw.placement->Node_0.rotation == nodes[i].transform.rotation
                    &&& draw.placement->Node_0.scale == nodes[i].transform.scale
                }
        }),
{
    let to = 2 * nodes.len() as int;
    let all = stocked(start, files);
    build_draws_all_that_can_be_loaded(nodes, to, start, files);
    let draws = draws_between(nodes, 0, to, all);
    let quad = if start.quad is Some {
        start.quad
    } else {
        files(Want::Quad)
    };
    let tiles = Seq::new(
        nodes.len() + 1,
        |i: int| draws_between(nodes, 0, 2 * i, all).len() as int,
    );
    let meshes = Seq::new(
        nodes.len() + 1,
        |i: int| draws_between(nodes, 0, 2 * i + 1, all).len() as int,
    );
    assert forall|i: int| #![trigger meshes[i]] 0 <= i < nodes.len() implies meshes[i] == tiles[i]
        + (if nodes[i].tilemap is Some && quad is Some {
        nodes[i].tilemap->0.cells@.len() as int
    } else {
        0
    }) by {
        lemma_tiles_among(nodes, 0, i, to, all);
    }
    assert forall|i: int, c: int|
        #![trigger draws[tiles[i] + c]]
        0 <= i < nodes.len() && nodes[i].tilemap is Some && quad is Some && 0 <= c
            < nodes[i].tilemap->0.cells@.len() implies {
        let draw = draws[tiles[i] + c];
        &&& draw.mesh == quad->0
        &&& draw.placement is Tile
        &&& draw.placement->x == nodes[i].tilemap->0.cells@[c].x
        &&& draw.placement->y == nodes[i].tilemap->0.cells@[c].y
        &&& draw.placement->tile_size == nodes[i].tilemap->0.tile_size
    } by {
        lemma_cell_among(nodes, 0, i, c, to, all);
    }
    assert forall|i: int| #![trigger meshes[i]] 0 <= i < nodes.len() implies tiles[i + 1]
        == meshes[i] + (if nodes[i].mesh is Some && (start.meshes.contains_key(
        nodes[i].mesh->0.path@,
    ) || files(Want::Mesh(nodes[i].mesh->0.path@)) is Some) {
        1int
    } else {
        0
    }) by {
        lemma_mesh_among(nodes, 0, i, to, all);
        assert(2 * (i + 1) == 2 * i + 2);
    }
    assert forall|i: int|
        #![trigger draws[meshes[i]]]
        0 <= i < nodes.len() && nodes[i].mesh is Some && (start.meshes.contains_key(
            nodes[i].mesh->0.path@,
        ) || files(Want::Mesh(nodes[i].mesh->0.path@)) is Some) implies {
        let path = nodes[i].mesh->0.path@;
        let draw = draws[meshes[i]];
        &&& start.meshes.contains_key(path) ==> draw.mesh == start.meshes[path]
        &&& !start.meshes.contains_key(path) ==> draw.mesh == files(Want::Mesh(path))->0
        &&& draw.placement is Node
        &&& draw.placement->Node_0.translation == nodes[i].transform.translation
        &&& draw.placement->Node_0.rotation == nodes[i].transform.rotation
        &&& draw.placement->Node_0.scale == nodes[i].transform.scale
    } by {
        lemma_mesh_among(nodes, 0, i, to, all);
    }
    (tiles, meshes)
}

/// Law: the quad is in the file that engines keep it in.
pub proof fn quad_has_its_file()
    ensures
        QUAD_FILE@ == "assets/quad.obj"@,
{
}

} // verus!
