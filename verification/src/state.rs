//! The state that a server shares: the games, and the one that is shown.

use vstd::prelude::*;
use crate::games::GameSlot;
use crate::input::{
    arrow_step, document_action, json_document, key_action, opposite, press, read_key, step_of,
    Direction, InputAction,
};
use crate::scene::{
    first_node_moved, move_first_node, same_but_place, undoes, undone_step_brings_node_back,
    undone_step_leaves_nodes, Camera, Scene,
};

verus! {

/// The games, the one that is shown, and its documents as they now stand.
pub struct GameState<F> {
    pub games: Vec<GameSlot>,
    pub index: usize,
    pub scene: Scene<F>,
    pub camera: Camera<F>,
}

/// Which game is shown, and of how many.
#[derive(Debug)]
pub struct GameInfo {
    pub name: String,
    pub index: usize,
    pub total: usize,
}

impl<F> GameState<F> {
    /// One of the games is shown.
    pub open spec fn wf(self) -> bool {
        self.index < self.games@.len()
    }

    /// The state of a server that shows the first of its games, or nothing if
    /// there is no game.
    pub fn new(games: Vec<GameSlot>, scene: Scene<F>, camera: Camera<F>) -> (state: Option<Self>)
        ensures
            match state {
                Some(shown) => games@.len() > 0 && shown == (GameState {
                    games,
                    index: 0,
                    scene,
                    camera,
                }) && shown.wf(),
                None => games@.len() == 0,
            },
    {
        if games.len() == 0 {
            None
        } else {
            Some(GameState { games, index: 0, scene, camera })
        }
    }

    /// Which game is shown.
    pub fn info(&self) -> (info: GameInfo)
        requires
            self.wf(),
        ensures
            info.name@ == self.games@[self.index as int].name@,
            info.index == self.index,
            info.total == self.games@.len(),
            info.index < info.total,
    {
        GameInfo {
            name: self.games[self.index].name.clone(),
            index: self.index,
            total: self.games.len(),
        }
    }

    /// What a key asks for. A game to load is one of the games.
    pub fn press(&self, key: &str) -> (action: InputAction)
        requires
            self.games@.len() >= 2 ==> self.wf(),
        ensures
            action == key_action(key@, self.index as int, self.games@.len() as int),
            action matches InputAction::Load(next) ==> next < self.games@.len(),
    {
        press(key, self.index, self.games.len())
    }

    /// What a text from a viewport asks for. A game to load is one of the games.
    pub fn handle_input(&self, text: &str) -> (action: InputAction)
        requires
            self.games@.len() >= 2 ==> self.wf(),
        ensures
            action == document_action(
                json_document(text@),
                self.index as int,
                self.games@.len() as int,
            ),
            action matches InputAction::Load(next) ==> next < self.games@.len(),
    {
        match read_key(text) {
            Some(key) => self.press(key.as_str()),
            None => InputAction::Ignore,
        }
    }

    /// Ends the loading of the game `next`. Where it could be loaded it is the
    /// one that is shown; where it could not, nothing changes and the error is
    /// handed back.
    pub fn finish_load<E>(
        &mut self,
        next: usize,
        loaded: Result<(Scene<F>, Camera<F>), E>,
    ) -> (outcome: Result<(), E>)
        requires
            next < old(self).games@.len(),
            old(self).wf(),
        ensures
            final(self).wf(),
            match loaded {
                Ok((scene, camera)) => outcome is Ok && *final(self) == (GameState {
                    games: old(self).games,
                    index: next,
                    scene,
                    camera,
                }),
                Err(error) => outcome == Err::<(), E>(error) && *final(self) == *old(self),
            },
    {
        match loaded {
            Ok((scene, camera)) => {
                self.index = next;
                self.scene = scene;
                self.camera = camera;
                Ok(())
            },
            Err(error) => Err(error),
        }
    }
}

/// `after` is `before` with the first object of the scene, if there is one,
/// moved by `step`.
pub open spec fn object_moved<F, S: Fn(F, F) -> F>(
    before: GameState<F>,
    after: GameState<F>,
    step: [F; 3],
    sum: S,
) -> bool {
    &&& after.games == before.games
    &&& after.index == before.index
    &&& after.camera == before.camera
    &&& first_node_moved(before.scene.nodes@, after.scene.nodes@, step, sum)
}

impl<F: Copy> GameState<F> {
    /// Moves the first object of the scene, if there is one, by the step that
    /// `direction` names. The four steps are those along the axes of the screen,
    /// as the camera sees them; `sum` adds two coordinates.
    pub fn move_object<S: Fn(F, F) -> F>(
        &mut self,
        direction: Direction,
        right: [F; 3],
        left: [F; 3],
        up: [F; 3],
        down: [F; 3],
        sum: S,
    )
        requires
            forall|a: F, b: F| call_requires(sum, (a, b)),
        ensures
            object_moved(
                *old(self),
                *final(self),
                step_of(direction, right, left, up, down),
                sum,
            ),
            final(self).wf() == old(self).wf(),
    {
        move_first_node(&mut self.scene, arrow_step(direction, right, left, up, down), sum);
    }
}

/// Law: an arrow and then the opposite one leave everything as it was but the
/// place of the first object. Where its step is undone up to what `near` lets
/// pass for the same, such as the rounding of an addition, each coordinate of
/// that object is near what it was.
pub proof fn opposite_arrows_bring_back<F, S: Fn(F, F) -> F>(
    before: GameState<F>,
    between: GameState<F>,
    after: GameState<F>,
    direction: Direction,
    right: [F; 3],
    left: [F; 3],
    up: [F; 3],
    down: [F; 3],
    sum: S,
    near: spec_fn(F, F) -> bool,
)
    requires
        object_moved(before, between, step_of(direction, right, left, up, down), sum),
        object_moved(between, after, step_of(opposite(direction), right, left, up, down), sum),
    ensures
        after.games == before.games,
        after.index == before.index,
        after.camera == before.camera,
        after.scene.nodes@.len() == before.scene.nodes@.len(),
        forall|k: int|
            1 <= k < before.scene.nodes@.len() ==> #[trigger] after.scene.nodes@[k]
                == before.scene.nodes@[k],
        before.scene.nodes@.len() > 0 ==> same_but_place(
            before.scene.nodes@[0],
            after.scene.nodes@[0],
        ),
        before.scene.nodes@.len() > 0 && undoes(
            sum,
            before.scene.nodes@[0].transform.translation,
            step_of(direction, right, left, up, down),
            step_of(opposite(direction), right, left, up, down),
            near,
        ) ==> (forall|i: int|
            0 <= i < 3 ==> near(
                before.scene.nodes@[0].transform.translation@[i],
                #[trigger] after.scene.nodes@[0].transform.translation@[i],
            )),
{
    undone_step_brings_node_back(
        before.scene.nodes@,
        between.scene.nodes@,
        after.scene.nodes@,
        step_of(direction, right, left, up, down),
        step_of(opposite(direction), right, left, up, down),
        sum,
        near,
    );
}

/// Law: an arrow and then the opposite one leave everything as it was, where the
/// step of the second undoes that of the first exactly under `sum`.
pub proof fn opposite_arrows_cancel<F, S: Fn(F, F) -> F>(
    before: GameState<F>,
    between: GameState<F>,
    after: GameState<F>,
    direction: Direction,
    right: [F; 3],
    left: [F; 3],
    up: [F; 3],
    down: [F; 3],
    sum: S,
)
    requires
        object_moved(before, between, step_of(direction, right, left, up, down), sum),
        object_moved(between, after, step_of(opposite(direction), right, left, up, down), sum),
        before.scene.nodes@.len() > 0 ==> undoes(
            sum,
            before.scene.nodes@[0].transform.translation,
            step_of(direction, right, left, up, down),
            step_of(opposite(direction), right, left, up, down),
            |x: F, y: F| x == y,
        ),
    ensures
        after.games == before.games,
        after.index == before.index,
        after.camera == before.camera,
        after.scene.nodes@ == before.scene.nodes@,
{
    undone_step_leaves_nodes(
        before.scene.nodes@,
        between.scene.nodes@,
        after.scene.nodes@,
        step_of(direction, right, left, up, down),
        step_of(opposite(direction), right, left, up, down),
        sum,
    );
}

} // verus!
