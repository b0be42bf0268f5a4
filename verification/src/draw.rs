//! What of a scene is drawn, in which order, and which mesh files that takes.
//!
//! A build walks the nodes of a scene in order, and of each node first its tile
//! map and then its mesh: two halves to a node. Where a half needs a mesh that
//! is not in the cache, the build stops and asks for it. Whether the file could
//! be read or not, the build then goes on; a half whose mesh could not be had
//! draws nothing.

use vstd::prelude::*;
use vstd::hash_map::StringHashMap;
use crate::scene::{EngineCamera, Node, Scene, TileCell, Transform};

verus! {

/// Where a mesh is drawn.
#[derive(Clone, Copy, Debug)]
pub enum Placement<F> {
    /// In a cell of a tile map.
    Tile { x: i32, y: i32, tile_size: [F; 2] },
    /// As a node's transform says.
    Node(Transform<F>),
}

/// Where a cell of a tile map lies: its column runs along the first axis and its
/// row along the third, at the height `ground`. `times` multiplies a size by a
/// whole number.
pub fn tile_position<F: Copy, T: Fn(i32, F) -> F>(
    x: i32,
    y: i32,
    tile_size: [F; 2],
    ground: F,
    times: T,
) -> (position: [F; 3])
    requires
        forall|count: i32, size: F| call_requires(times, (count, size)),
    ensures
        call_ensures(times, (x, tile_size@[0]), position@[0]),
        position@[1] == ground,
        call_ensures(times, (y, tile_size@[1]), position@[2]),
{
    [times(x, tile_size[0]), ground, times(y, tile_size[1])]
}

/// One mesh, by its handle, drawn in one place.
#[derive(Clone, Copy, Debug)]
pub struct Draw<F> {
    pub mesh: usize,
    pub placement: Placement<F>,
}

/// All that is drawn of a scene, and the camera that sees it.
#[derive(Debug)]
pub struct EngineScene<F> {
    pub camera: EngineCamera<F>,
    pub draws: Vec<Draw<F>>,
}

/// The meshes that were loaded so far, each as a handle of the caller's: the
/// quad that tiles are drawn with, and the others by the path of their file.
pub struct MeshCache {
    pub quad: Option<usize>,
    pub meshes: StringHashMap<usize>,
}

/// What a mesh cache holds.
pub ghost struct Loaded {
    pub quad: Option<usize>,
    pub meshes: Map<Seq<char>, usize>,
}

impl View for MeshCache {
    type V = Loaded;

    open spec fn view(&self) -> Loaded {
        Loaded { quad: self.quad, meshes: self.meshes@ }
    }
}

impl MeshCache {
    /// A cache that holds nothing.
    pub fn new() -> (cache: Self)
        ensures
            cache@ == (Loaded { quad: None, meshes: Map::empty() }),
    {
        MeshCache { quad: None, meshes: StringHashMap::new() }
    }
}

/// A mesh that a build asks for.
pub ghost enum Want {
    Quad,
    Mesh(Seq<char>),
}

/// The file that holds the mesh that tiles are drawn with.
pub const QUAD_FILE: &'static str = "assets/quad.obj";

/// What a build needs next.
#[derive(Debug, PartialEq, Eq)]
pub enum BuildStep {
    /// Nothing: everything is drawn.
    Done,
    /// The mesh that tiles are drawn with, in `QUAD_FILE`.
    LoadQuad,
    /// The mesh in this file.
    LoadMesh(String),
}

/// What `step` asks for.
pub open spec fn wanted(step: BuildStep) -> Option<Want> {
    match step {
        BuildStep::Done => None,
        BuildStep::LoadQuad => Some(Want::Quad),
        BuildStep::LoadMesh(path) => Some(Want::Mesh(path@)),
    }
}

/// The draws of a node's tile map: every cell, in order, if there is a quad.
pub open spec fn tile_draws<F>(node: Node<F>, loaded: Loaded) -> Seq<Draw<F>> {
    match (node.tilemap, loaded.quad) {
        (Some(map), Some(quad)) => map.cells@.map_values(
            |cell: TileCell|
                Draw {
                    mesh: quad,
                    placement: Placement::Tile {
                        x: cell.x,
                        y: cell.y,
                        tile_size: map.tile_size,
                    },
                },
        ),
        _ => Seq::empty(),
    }
}

/// The draw of a node's mesh, if it has one that is loaded.
pub open spec fn mesh_draws<F>(node: Node<F>, loaded: Loaded) -> Seq<Draw<F>> {
    match node.mesh {
        Some(mesh) => if loaded.meshes.contains_key(mesh.path@) {
            seq![
                Draw {
                    mesh: loaded.meshes[mesh.path@],
                    placement: Placement::Node(node.transform),
                },
            ]
        } else {
            Seq::empty()
        },
        None => Seq::empty(),
    }
}

/// The draws of a half: an even one is a node's tile map, the odd one after it
/// that node's mesh.
pub open spec fn half_draws<F>(nodes: Seq<Node<F>>, half: int, loaded: Loaded) -> Seq<Draw<F>> {
    if half % 2 == 0 {
        tile_draws(nodes[half / 2], loaded)
    } else {
        mesh_draws(nodes[half / 2], loaded)
    }
}

/// The mesh that a half needs and the cache lacks.
pub open spec fn half_wants<F>(nodes: Seq<Node<F>>, half: int, loaded: Loaded) -> Option<Want> {
    let node = nodes[half / 2];
    if half % 2 == 0 {
        if node.tilemap is Some && loaded.quad is None {
            Some(Want::Quad)
        } else {
            None
        }
    } else {
        match node.mesh {
            Some(mesh) => if loaded.meshes.contains_key(mesh.path@) {
                None
            } else {
                Some(Want::Mesh(mesh.path@))
            },
            None => None,
        }
    }
}

/// The draws of the halves from `from` up to but not including `to`.
pub open spec fn draws_between<F>(
    nodes: Seq<Node<F>>,
    from: int,
    to: int,
    loaded: Loaded,
) -> Seq<Draw<F>>
    decreases to - from,
{
    if to <= from {
        Seq::empty()
    } else {
        draws_between(nodes, from, to - 1, loaded) + half_draws(nodes, to - 1, loaded)
    }
}

/// What is loaded once `want` was answered: a mesh that could be read is kept.
pub open spec fn absorb(loaded: Loaded, want: Want, answer: Option<usize>) -> Loaded {
    match answer {
        None => loaded,
        Some(mesh) => match want {
            Want::Quad => Loaded { quad: Some(mesh), meshes: loaded.meshes },
            Want::Mesh(path) => Loaded {
                quad: loaded.quad,
                meshes: loaded.meshes.insert(path, mesh),
            },
        },
    }
}

/// A build of a scene: how far it got, and what it has drawn.
pub struct SceneBuild<F> {
    pub node: usize,
    pub tiles_done: bool,
    pub draws: Vec<Draw<F>>,
}

impl<F> SceneBuild<F> {
    /// The number of halves that are behind.
    pub open spec fn half(self) -> int {
        2 * self.node + if self.tiles_done {
            1int
        } else {
            0int
        }
    }

    /// The build stands at a half of these nodes, or at their end.
    pub open spec fn within(self, nodes: Seq<Node<F>>) -> bool {
        0 <= self.half() <= 2 * nodes.len()
    }
}

impl<F: Copy> SceneBuild<F> {
    /// A build that has drawn nothing yet.
    pub fn new() -> (build: Self)
        ensures
            build.half() == 0,
            build.draws@ == Seq::<Draw<F>>::empty(),
    {
        SceneBuild { node: 0, tiles_done: false, draws: Vec::new() }
    }

    /// Draws the half that the build stands at, with what is loaded, and goes
    /// on to the next one.
    fn draw_half(&mut self, scene: &Scene<F>, cache: &MeshCache)
        requires
            old(self).within(scene.nodes@),
            old(self).half() < 2 * scene.nodes@.len(),
        ensures
            final(self).within(scene.nodes@),
            final(self).half() == old(self).half() + 1,
            final(self).draws@ == old(self).draws@ + half_draws(
                scene.nodes@,
                old(self).half(),
                cache@,
            ),
    {
        let node = &scene.nodes[self.node];
        let ghost before = self.draws@;
        let ghost half = self.half();
        if !self.tiles_done {
            if let Some(map) = &node.tilemap {
                if let Some(quad) = cache.quad {
                    let ghost all = tile_draws(*node, cache@);
                    let mut i: usize = 0;
                    while i < map.cells.len()
                        invariant
                            i <= map.cells@.len(),
                            node.tilemap == Some(*map),
                            cache@.quad == Some(quad),
                            all == tile_draws(*node, cache@),
                            all.len() == map.cells@.len(),
                            self.draws@ == before + all.take(i as int),
                            self.node == old(self).node,
                            !self.tiles_done,
                        decreases map.cells@.len() - i,
                    {
                        let cell = map.cells[i];
                        self.draws.push(
                            Draw {
                                mesh: quad,
                                placement: Placement::Tile {
                                    x: cell.x,
                                    y: cell.y,
                                    tile_size: map.tile_size,
                                },
                            },
                        );
                        proof {
                            assert(all.take(i + 1) =~= all.take(i as int).push(all[i as int]));
                        }
                        i += 1;
                    }
                    proof {
                        assert(all.take(i as int) =~= all);
                    }
                }
            }
            self.tiles_done = true;
        } else {
            if let Some(mesh) = &node.mesh {
                if let Some(handle) = cache.meshes.get(mesh.path.as_str()) {
                    self.draws.push(
                        Draw { mesh: *handle, placement: Placement::Node(node.transform) },
                    );
                }
            }
            assert(self.node < scene.nodes.len());
            self.node = self.node + 1;
            self.tiles_done = false;
        }
        proof {
            assert(self.draws@ =~= before + half_draws(scene.nodes@, half, cache@));
        }
    }

    /// Draws every half from where the build stands up to the first that needs
    /// a mesh the cache lacks, and says what that half needs.
    pub fn advance(&mut self, scene: &Scene<F>, cache: &MeshCache) -> (step: BuildStep)
        requires
            old(self).within(scene.nodes@),
        ensures
            final(self).within(scene.nodes@),
            old(self).half() <= final(self).half(),
            forall|half: int|
                old(self).half() <= half < final(self).half() ==> #[trigger] half_wants(
                    scene.nodes@,
                    half,
                    cache@,
                ) is None,
            final(self).draws@ == old(self).draws@ + draws_between(
                scene.nodes@,
                old(self).half(),
                final(self).half(),
                cache@,
            ),
            step is Done <==> final(self).half() == 2 * scene.nodes@.len(),
            step !is Done ==> half_wants(scene.nodes@, final(self).half(), cache@) == wanted(step),
    {
        let ghost from = self.half();
        let ghost before = self.draws@;
        proof {
            assert(before =~= before + draws_between(scene.nodes@, from, from, cache@));
        }
        while self.node < scene.nodes.len()
            invariant
                self.within(scene.nodes@),
                from == old(self).half(),
                before == old(self).draws@,
                from <= self.half(),
                forall|half: int|
                    from <= half < self.half() ==> #[trigger] half_wants(
                        scene.nodes@,
                        half,
                        cache@,
                    ) is None,
                self.draws@ == before + draws_between(scene.nodes@, from, self.half(), cache@),
            decreases 2 * scene.nodes@.len() - self.half(),
        {
            let node = &scene.nodes[self.node];
            if !self.tiles_done {
                if node.tilemap.is_some() && cache.quad.is_none() {
                    return BuildStep::LoadQuad;
                }
            } else {
                if let Some(mesh) = &node.mesh {
                    if !cache.meshes.contains_key(mesh.path.as_str()) {
                        return BuildStep::LoadMesh(mesh.path.clone());
                    }
                }
            }
            let ghost half = self.half();
            self.draw_half(scene, cache);
            proof {
                assert(self.draws@ =~= before + draws_between(
                    scene.nodes@,
                    from,
                    half + 1,
                    cache@,
                ));
            }
        }
        BuildStep::Done
    }

    /// Answers what the build stands at asked for: with the handle of the mesh,
    /// or with nothing where it could not be loaded. A mesh that came is kept
    /// in the cache; the half is then drawn with what there is.
    pub fn answer(&mut self, scene: &Scene<F>, cache: &mut MeshCache, loaded: Option<usize>)
        requires
            old(self).within(scene.nodes@),
            old(self).half() < 2 * scene.nodes@.len(),
            half_wants(scene.nodes@, old(self).half(), old(cache)@) is Some,
        ensures
            final(self).within(scene.nodes@),
            final(self).half() == old(self).half() + 1,
            final(cache)@ == absorb(
                old(cache)@,
                half_wants(scene.nodes@, old(self).half(), old(cache)@)->0,
                loaded,
            ),
            final(self).draws@ == old(self).draws@ + half_draws(
                scene.nodes@,
                old(self).half(),
                final(cache)@,
            ),
    {
        if let Some(handle) = loaded {
            if !self.tiles_done {
                cache.quad = Some(handle);
            } else if let Some(mesh) = &scene.nodes[self.node].mesh {
                cache.meshes.insert(mesh.path.clone(), handle);
            }
        }
        self.draw_half(scene, cache);
    }

    /// The scene to render, once everything is drawn.
    pub fn finish(self, camera: EngineCamera<F>) -> (scene: EngineScene<F>)
        ensures
            scene.camera == camera,
            scene.draws@ == self.draws@,
    {
        EngineScene { camera, draws: self.draws }
    }
}

/// What is loaded once the first `halves` halves of a build are behind, if a
/// mesh file that is asked for gives what `files` says.
pub open spec fn build_loaded<F>(
    nodes: Seq<Node<F>>,
    halves: int,
    start: Loaded,
    files: spec_fn(Want) -> Option<usize>,
) -> Loaded
    decreases halves,
{
    if halves <= 0 {
        start
    } else {
        let loaded = build_loaded(nodes, halves - 1, start, files);
        match half_wants(nodes, halves - 1, loaded) {
            Some(want) => absorb(loaded, want, files(want)),
            None => loaded,
        }
    }
}

/// What the first `halves` halves of such a build draw.
pub open spec fn build_draws<F>(
    nodes: Seq<Node<F>>,
    halves: int,
    start: Loaded,
    files: spec_fn(Want) -> Option<usize>,
) -> Seq<Draw<F>>
    decreases halves,
{
    if halves <= 0 {
        Seq::empty()
    } else {
        build_draws(nodes, halves - 1, start, files) + half_draws(
            nodes,
            halves - 1,
            build_loaded(nodes, halves, start, files),
        )
    }
}

/// Law: a build that has followed `build_loaded` and `build_draws` still does
/// after it has advanced over halves that need nothing.
pub proof fn advance_follows_build<F>(
    nodes: Seq<Node<F>>,
    from: int,
    to: int,
    start: Loaded,
    files: spec_fn(Want) -> Option<usize>,
)
    requires
        0 <= from <= to,
        forall|half: int|
            from <= half < to ==> #[trigger] half_wants(
                nodes,
                half,
                build_loaded(nodes, from, start, files),
            ) is None,
    ensures
        build_loaded(nodes, to, start, files) == build_loaded(nodes, from, start, files),
        build_draws(nodes, to, start, files) == build_draws(nodes, from, start, files)
            + draws_between(nodes, from, to, build_loaded(nodes, from, start, files)),
    decreases to - from,
{
    let loaded = build_loaded(nodes, from, start, files);
    if from < to {
        advance_follows_build(nodes, from, to - 1, start, files);
        assert(half_wants(nodes, to - 1, loaded) is None);
    }
    assert(build_draws(nodes, to, start, files) =~= build_draws(nodes, from, start, files)
        + draws_between(nodes, from, to, loaded));
}

/// Law: it still does after an answer that `files` gives.
pub proof fn answer_follows_build<F>(
    nodes: Seq<Node<F>>,
    half: int,
    start: Loaded,
    files: spec_fn(Want) -> Option<usize>,
)
    requires
        0 <= half,
        half_wants(nodes, half, build_loaded(nodes, half, start, files)) is Some,
    ensures
        ({
            let loaded = build_loaded(nodes, half, start, files);
            let want = half_wants(nodes, half, loaded)->0;
            let after = absorb(loaded, want, files(want));
            &&& build_loaded(nodes, half + 1, start, files) == after
            &&& build_draws(nodes, half + 1, start, files) == build_draws(
                nodes,
                half,
                start,
                files,
            ) + half_draws(nodes, half, after)
        }),
{
}

/// What would be loaded if every file that can be read had been.
pub open spec fn stocked(start: Loaded, files: spec_fn(Want) -> Option<usize>) -> Loaded {
    Loaded {
        quad: if start.quad is Some {
            start.quad
        } else {
            files(Want::Quad)
        },
        meshes: Map::new(
            |path: Seq<char>|
                start.meshes.contains_key(path) || files(Want::Mesh(path)) is Some,
            |path: Seq<char>|
                if start.meshes.contains_key(path) {
                    start.meshes[path]
                } else {
                    files(Want::Mesh(path))->0
                },
        ),
    }
}

/// Everything in `less` is in `more`, with the same handles.
pub open spec fn included(less: Loaded, more: Loaded) -> bool {
    &&& less.quad is Some ==> more.quad == less.quad
    &&& less.meshes.submap_of(more.meshes)
}

/// Law: a build loses no mesh that is loaded, and loads none but those that can
/// be read.
pub proof fn build_keeps_meshes<F>(
    nodes: Seq<Node<F>>,
    halves: int,
    start: Loaded,
    files: spec_fn(Want) -> Option<usize>,
)
    ensures
        included(start, build_loaded(nodes, halves, start, files)),
        included(build_loaded(nodes, halves, start, files), stocked(start, files)),
    decreases halves,
{
    if halves > 0 {
        build_keeps_meshes(nodes, halves - 1, start, files);
        let before = build_loaded(nodes, halves - 1, start, files);
        let after = build_loaded(nodes, halves, start, files);
        assert forall|path: Seq<char>| #[trigger] start.meshes.dom().contains(path) implies {
            &&& after.meshes.dom().contains(path)
            &&& after.meshes[path] == start.meshes[path]
        } by {
            assert(before.meshes.dom().contains(path));
        }
    }
}

/// Law: what a build draws does not depend on which meshes were loaded before,
/// nor on which half asked for one first. Each half draws what it would draw if
/// every readable mesh were loaded from the start: in the order of the nodes,
/// every cell of every tile map if the quad can be had, and every node whose
/// mesh can be had.
pub proof fn build_draws_all_that_can_be_loaded<F>(
    nodes: Seq<Node<F>>,
    halves: int,
    start: Loaded,
    files: spec_fn(Want) -> Option<usize>,
)
    requires
        0 <= halves,
    ensures
        build_draws(nodes, halves, start, files) == draws_between(
            nodes,
            0,
            halves,
            stocked(start, files),
        ),
    decreases halves,
{
    if halves > 0 {
        let half = halves - 1;
        build_draws_all_that_can_be_loaded(nodes, half, start, files);
        build_keeps_meshes(nodes, half, start, files);
        build_keeps_meshes(nodes, halves, start, files);
        let before = build_loaded(nodes, half, start, files);
        let after = build_loaded(nodes, halves, start, files);
        let all = stocked(start, files);
        let node = nodes[half / 2];
        if half % 2 == 0 {
            if node.tilemap is Some {
                assert(after.quad == all.quad);
            }
        } else if let Some(mesh) = node.mesh {
            let path = mesh.path@;
            if before.meshes.contains_key(path) {
                assert(all.meshes.contains_key(path));
            } else {
                assert(!start.meshes.contains_key(path));
            }
            assert(after.meshes.contains_key(path) == all.meshes.contains_key(path));
        }
        assert(half_draws(nodes, half, after) =~= half_draws(nodes, half, all));
    }
}

/// Law: a mesh that was loaded is not asked for again, by any half of any scene
/// built with that cache or one that holds more.
pub proof fn loaded_mesh_is_not_wanted<F>(
    nodes: Seq<Node<F>>,
    half: int,
    before: Loaded,
    want: Want,
    mesh: usize,
    later: Loaded,
)
    requires
        included(absorb(before, want, Some(mesh)), later),
    ensures
        half_wants(nodes, half, later) != Some(want),
{
    if let Want::Mesh(path) = want {
        assert(absorb(before, want, Some(mesh)).meshes.contains_key(path));
    }
}

} // verus!
