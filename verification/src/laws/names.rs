//! Laws of names and of the list of games.

use vstd::prelude::*;
use vstd::utf8::encode_utf8;
use crate::games::{
    is_listing, listed_before, scan_games, GameSlot, ScanEntry, CAMERA_FILE, SCENE_FILE,
};
use crate::scene::{Camera, Scene};
use crate::state::{GameInfo, GameState};
use crate::text::{bytes_before, name_before, text_before, text_eq, text_order_asymmetric};

verus! {

/// Bytes that two byte strings share at their start do not decide their order.
proof fn lemma_common_start(a: Seq<u8>, b: Seq<u8>, shared: int)
    requires
        0 <= shared <= a.len(),
        shared <= b.len(),
        forall|j: int| 0 <= j < shared ==> #[trigger] a[j] == b[j],
    ensures
        bytes_before(a, b) == bytes_before(a.skip(shared), b.skip(shared)),
    decreases shared,
{
    if shared == 0 {
        assert(a.skip(0) =~= a);
        assert(b.skip(0) =~= b);
    } else {
        lemma_common_start(a, b, shared - 1);
        assert(a.skip(shared - 1).drop_first() =~= a.skip(shared));
        assert(b.skip(shared - 1).drop_first() =~= b.skip(shared));
        assert(a.skip(shared - 1)[0] == a[shared - 1]);
        assert(b.skip(shared - 1)[0] == b[shared - 1]);
    }
}

/// Law: where the UTF-8 bytes of two names agree up to a place and differ there,
/// the name with the lower byte stands first.
pub proof fn lower_byte_stands_first(a: &str, b: &str, before: bool, place: int)
    requires
        call_ensures(name_before, (a, b), before),
        0 <= place < encode_utf8(a@).len(),
        place < encode_utf8(b@).len(),
        forall|j: int| 0 <= j < place ==> #[trigger] encode_utf8(a@)[j] == encode_utf8(b@)[j],
        encode_utf8(a@)[place] != encode_utf8(b@)[place],
    ensures
        before <==> encode_utf8(a@)[place] < encode_utf8(b@)[place],
{
    lemma_common_start(encode_utf8(a@), encode_utf8(b@), place);
    assert(encode_utf8(a@).skip(place)[0] == encode_utf8(a@)[place]);
    assert(encode_utf8(b@).skip(place)[0] == encode_utf8(b@)[place]);
}

/// Law: where the UTF-8 bytes of one name are the start of those of the other,
/// the shorter one stands first, and of two equal names neither does.
pub proof fn shorter_name_stands_first(a: &str, b: &str, before: bool)
    requires
        call_ensures(name_before, (a, b), before),
        forall|j: int|
            0 <= j < encode_utf8(a@).len() && j < encode_utf8(b@).len() ==> #[trigger] encode_utf8(
                a@,
            )[j] == encode_utf8(b@)[j],
    ensures
        before <==> encode_utf8(a@).len() < encode_utf8(b@).len(),
{
    let x = encode_utf8(a@);
    let y = encode_utf8(b@);
    let shared = if x.len() < y.len() {
        x.len() as int
    } else {
        y.len() as int
    };
    lemma_common_start(x, y, shared);
}

/// Law: two names are taken for equal exactly if every character is.
pub proof fn equal_names_share_every_character(a: &str, b: &str, equal: bool)
    requires
        call_ensures(text_eq, (a, b), equal),
    ensures
        equal <==> a@.len() == b@.len() && forall|j: int|
            0 <= j < a@.len() ==> #[trigger] a@[j] == b@[j],
{
    if a@.len() == b@.len() && forall|j: int| 0 <= j < a@.len() ==> #[trigger] a@[j] == b@[j] {
        assert(a@ =~= b@);
    }
}

/// Law: the list of games has one place for each directory with a scene document
/// and for nothing else, under its own name and path; `order` says which entry
/// each place is for. Entries of one name keep the order in which they were
/// found.
pub proof fn list_holds_every_game_once(entries: Vec<ScanEntry>, slots: Vec<GameSlot>) -> (order:
    Seq<int>)
    requires
        call_ensures(scan_games, (entries,), slots),
    ensures
        order.len() == slots@.len(),
        order.no_duplicates(),
        forall|k: int|
            0 <= k < order.len() ==> {
                &&& 0 <= #[trigger] order[k] < entries@.len()
                &&& entries@[order[k]].is_dir
                &&& entries@[order[k]].has_scene
                &&& slots@[k].name == entries@[order[k]].name
                &&& slots@[k].dir == entries@[order[k]].path
            },
        forall|i: int|
            0 <= i < entries@.len() && entries@[i].is_dir && entries@[i].has_scene
                ==> #[trigger] order.contains(i),
        forall|j: int, k: int|
            0 <= j < k < order.len() && slots@[j].name@ == slots@[k].name@ ==> #[trigger] order[j]
                < #[trigger] order[k],
{
    let order = choose|order: Seq<int>| is_listing(entries@, order, slots@);
    assert forall|j: int, k: int| 0 <= j < k < order.len() implies order[j] != order[k] by {
        assert(listed_before(entries@, order[j], order[k]));
        if text_before(entries@[order[j]].name@, entries@[order[k]].name@) {
            text_order_asymmetric(entries@[order[j]].name@, entries@[order[k]].name@);
        }
    }
    assert forall|j: int, k: int|
        0 <= j < k < order.len() && slots@[j].name@ == slots@[k].name@ implies #[trigger] order[j]
        < #[trigger] order[k] by {
        assert(listed_before(entries@, order[j], order[k]));
        if text_before(entries@[order[j]].name@, entries@[order[k]].name@) {
            text_order_asymmetric(entries@[order[j]].name@, entries@[order[k]].name@);
        }
    }
    order
}

/// Law: the list of games ascends by the UTF-8 bytes of the names. Where the
/// names of two games agree up to a place that both have, the later one has no
/// lower byte there; and where one is the start of the other, the later one is
/// no shorter.
pub proof fn list_ascends_by_bytes(
    entries: Vec<ScanEntry>,
    slots: Vec<GameSlot>,
    j: int,
    k: int,
    place: int,
)
    requires
        call_ensures(scan_games, (entries,), slots),
        0 <= j < k < slots@.len(),
        0 <= place <= encode_utf8(slots@[j].name@).len(),
        place <= encode_utf8(slots@[k].name@).len(),
        forall|i: int|
            0 <= i < place ==> #[trigger] encode_utf8(slots@[j].name@)[i] == encode_utf8(
                slots@[k].name@,
            )[i],
    ensures
        place < encode_utf8(slots@[j].name@).len() ==> place < encode_utf8(slots@[k].name@).len(),
        place < encode_utf8(slots@[j].name@).len() ==> encode_utf8(slots@[j].name@)[place]
            <= encode_utf8(slots@[k].name@)[place],
{
    let order = choose|order: Seq<int>| is_listing(entries@, order, slots@);
    assert(listed_before(entries@, order[j], order[k]));
    assert(slots@[j].name@ == entries@[order[j]].name@);
    assert(slots@[k].name@ == entries@[order[k]].name@);
    let x = encode_utf8(slots@[j].name@);
    let y = encode_utf8(slots@[k].name@);
    lemma_common_start(x, y, place);
    if place < x.len() {
        assert(x.skip(place)[0] == x[place]);
    }
    if place < y.len() {
        assert(y.skip(place)[0] == y[place]);
    }
}

/// Law: a server starts on the first game of the list, and knows all of them; it
/// does not start without a game.
pub proof fn server_starts_on_first_game<F>(
    games: Vec<GameSlot>,
    scene: Scene<F>,
    camera: Camera<F>,
    state: Option<GameState<F>>,
)
    requires
        call_ensures(GameState::<F>::new, (games, scene, camera), state),
    ensures
        state is Some <==> games@.len() > 0,
        state is Some ==> state->0.index == 0,
        state is Some ==> state->0.games@ == games@,
        state is Some ==> state->0.scene == scene,
        state is Some ==> state->0.camera == camera,
{
}

/// Law: what a server says of the game that it shows is the name of that game,
/// its place in the list, and the length of the list.
pub proof fn info_is_of_shown_game<F>(state: &GameState<F>, info: GameInfo)
    requires
        state.index < state.games@.len(),
        call_ensures(GameState::<F>::info, (state,), info),
    ensures
        info.index == state.index,
        info.total == state.games@.len(),
        info.name@ == state.games@[info.index as int].name@,
{
}

/// Law: a game's documents are the files that projects keep them in.
pub proof fn documents_have_their_files()
    ensures
        SCENE_FILE@ == "scene.ron"@,
        CAMERA_FILE@ == "tscn.ron"@,
{
}

} // verus!
