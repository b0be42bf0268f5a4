//! The games of a project: finding them, and which of them is shown.

use std::path::PathBuf;
use vstd::prelude::*;
use crate::text::{
    name_before, text_before, text_order_asymmetric, text_order_total, text_order_transitive,
};

verus! {

/// `std::path::PathBuf`, carried along unread.
#[verifier::external_type_specification]
#[verifier::external_body]
pub struct ExPathBuf(PathBuf);

/// The file in a game's directory that holds its scene document.
pub const SCENE_FILE: &'static str = "scene.ron";

/// The file in a game's directory that holds its camera document.
pub const CAMERA_FILE: &'static str = "tscn.ron";

/// An entry of the games directory, as it was found there.
#[derive(Debug)]
pub struct ScanEntry {
    /// The entry's file name.
    pub name: String,
    pub path: PathBuf,
    pub is_dir: bool,
    /// Whether a scene document exists in it.
    pub has_scene: bool,
}

/// A game: its name, and the directory that holds its documents.
#[derive(Debug)]
pub struct GameSlot {
    pub name: String,
    pub dir: PathBuf,
}

/// A game is a directory with a scene document in it.
pub open spec fn is_game(entry: ScanEntry) -> bool {
    entry.is_dir && entry.has_scene
}

/// The slot that an entry becomes.
pub open spec fn slot_of(entry: ScanEntry) -> GameSlot {
    GameSlot { name: entry.name, dir: entry.path }
}

/// Entry `i` is listed before entry `j`: by name, and where the names are equal
/// by which was found first.
pub open spec fn listed_before(entries: Seq<ScanEntry>, i: int, j: int) -> bool {
    ||| text_before(entries[i].name@, entries[j].name@)
    ||| entries[i].name@ == entries[j].name@ && i < j
}

/// `slots` lists every game among `entries` once and nothing else, in order;
/// `order` says which entry each slot comes from.
pub open spec fn is_listing(
    entries: Seq<ScanEntry>,
    order: Seq<int>,
    slots: Seq<GameSlot>,
) -> bool {
    &&& order.len() == slots.len()
    &&& forall|k: int|
        #![trigger order[k]]
        #![trigger slots[k]]
        0 <= k < order.len() ==> {
            &&& 0 <= order[k] < entries.len()
            &&& is_game(entries[order[k]])
            &&& slots[k] == slot_of(entries[order[k]])
        }
    &&& forall|i: int|
        0 <= i < entries.len() && is_game(entries[i]) ==> #[trigger] order.contains(i)
    &&& forall|j: int, k: int|
        0 <= j < k < order.len() ==> listed_before(
            entries,
            #[trigger] order[j],
            #[trigger] order[k],
        )
}

/// Where a name goes in a list: before the first name that does not stand
/// before it.
fn place_of(slots: &Vec<GameSlot>, name: &String) -> (place: usize)
    ensures
        place <= slots@.len(),
        forall|k: int| 0 <= k < place ==> text_before(#[trigger] slots@[k].name@, name@),
        place < slots@.len() ==> !text_before(slots@[place as int].name@, name@),
{
    let mut k: usize = 0;
    while k < slots.len() && name_before(slots[k].name.as_str(), name.as_str())
        invariant
            k <= slots@.len(),
            forall|j: int| 0 <= j < k ==> text_before(#[trigger] slots@[j].name@, name@),
        decreases slots@.len() - k,
    {
        k += 1;
    }
    k
}

/// The games among the entries of a directory, sorted by name. Games with equal
/// names keep the order in which they were found.
pub fn scan_games(entries: Vec<ScanEntry>) -> (slots: Vec<GameSlot>)
    ensures
        exists|order: Seq<int>| is_listing(entries@, order, slots@),
{
    let mut rest = entries;
    let mut slots: Vec<GameSlot> = Vec::new();
    let ghost mut order: Seq<int> = Seq::empty();
    let ghost all = entries@;
    proof {
        assert(all.subrange(0, all.len() as int) =~= all);
    }
    while rest.len() > 0
        invariant
            rest@.len() <= all.len(),
            rest@ == all.subrange(0, rest@.len() as int),
            order.len() == slots@.len(),
            forall|k: int|
                #![trigger order[k]]
                #![trigger slots@[k]]
                0 <= k < order.len() ==> {
                    &&& rest@.len() <= order[k] < all.len()
                    &&& is_game(all[order[k]])
                    &&& slots@[k] == slot_of(all[order[k]])
                },
            forall|i: int|
                rest@.len() <= i < all.len() && is_game(all[i]) ==> #[trigger] order.contains(i),
            forall|j: int, k: int|
                0 <= j < k < order.len() ==> listed_before(
                    all,
                    #[trigger] order[j],
                    #[trigger] order[k],
                ),
        decreases rest@.len(),
    {
        let ghost found = rest@.len() - 1;
        if let Some(entry) = rest.pop() {
            assert(entry == all[found]);
            assert(rest@ =~= all.subrange(0, found));
            if entry.is_dir && entry.has_scene {
                let place = place_of(&slots, &entry.name);
                let ghost before = order;
                let ghost old_slots = slots@;
                slots.insert(place, GameSlot { name: entry.name, dir: entry.path });
                proof {
                    let p = place as int;
                    order = before.insert(p, found);
                    assert forall|k: int| p <= k < before.len() implies listed_before(
                        all,
                        found,
                        #[trigger] before[k],
                    ) by {
                        assert(old_slots[k] == slot_of(all[before[k]]));
                        assert(old_slots[p] == slot_of(all[before[p]]));
                        text_order_total(all[found].name@, all[before[p]].name@);
                        if k > p {
                            assert(listed_before(all, before[p], before[k]));
                            if text_before(all[found].name@, all[before[p]].name@) && text_before(
                                all[before[p]].name@,
                                all[before[k]].name@,
                            ) {
                                text_order_transitive(
                                    all[found].name@,
                                    all[before[p]].name@,
                                    all[before[k]].name@,
                                );
                            }
                        }
                    }
                    assert forall|k: int| 0 <= k < p implies listed_before(
                        all,
                        #[trigger] before[k],
                        found,
                    ) by {
                        assert(old_slots[k] == slot_of(all[before[k]]));
                        assert(text_before(old_slots[k].name@, all[found].name@));
                    }
                    assert forall|k: int|
                        #![trigger order[k]]
                        #![trigger slots@[k]]
                        0 <= k < order.len() implies {
                        &&& found <= order[k] < all.len()
                        &&& is_game(all[order[k]])
                        &&& slots@[k] == slot_of(all[order[k]])
                    } by {
                        if k < p {
                            assert(order[k] == before[k]);
                        } else if k > p {
                            assert(order[k] == before[k - 1]);
                        }
                    }
                    assert forall|j: int, k: int| 0 <= j < k < order.len() implies listed_before(
                        all,
                        #[trigger] order[j],
                        #[trigger] order[k],
                    ) by {
                        let j0 = if j < p { j } else { j - 1 };
                        let k0 = if k < p { k } else { k - 1 };
                        if j != p {
                            assert(order[j] == before[j0]);
                        }
                        if k != p {
                            assert(order[k] == before[k0]);
                        }
                    }
                    assert forall|i: int|
                        found <= i < all.len() && is_game(all[i]) implies #[trigger] order.contains(
                        i,
                    ) by {
                        if i == found {
                            assert(order[p] == found);
                        } else {
                            assert(before.contains(i));
                            let k = before.index_of(i);
                            assert(before[k] == i);
                            if k < p {
                                assert(order[k] == i);
                            } else {
                                assert(order[k + 1] == i);
                            }
                        }
                    }
                }
            }
        }
    }
    assert(is_listing(all, order, slots@));
    slots
}

/// Two lists that hold the same items, both sorted by an order in which no two
/// items stand before one another, are the same list.
proof fn lemma_sorted_lists_equal<A>(a: Seq<A>, b: Seq<A>, before: spec_fn(A, A) -> bool)
    requires
        forall|i: int, j: int| 0 <= i < j < a.len() ==> before(#[trigger] a[i], #[trigger] a[j]),
        forall|i: int, j: int| 0 <= i < j < b.len() ==> before(#[trigger] b[i], #[trigger] b[j]),
        forall|x: A, y: A| #[trigger] before(x, y) ==> !before(y, x),
        forall|x: A| #[trigger] a.contains(x) <==> b.contains(x),
    ensures
        a == b,
    decreases a.len(),
{
    if a.len() == 0 {
        if b.len() > 0 {
            assert(b.contains(b[0]));
            assert(a.contains(b[0]));
        }
        assert(a =~= b);
    } else {
        assert(a.contains(a[0]));
        let j = b.index_of(a[0]);
        assert(b[j] == a[0]);
        assert(b.contains(b[0]));
        assert(a.contains(b[0]));
        let i = a.index_of(b[0]);
        assert(a[i] == b[0]);
        if i > 0 && j > 0 {
            assert(before(a[0], a[i]));
            assert(before(b[0], b[j]));
        }
        assert(a[0] == b[0]);
        let a1 = a.drop_first();
        let b1 = b.drop_first();
        assert forall|x: A| #[trigger] a1.contains(x) <==> b1.contains(x) by {
            if a1.contains(x) {
                let k = a1.index_of(x);
                assert(a[k + 1] == x);
                assert(before(a[0], a[k + 1]));
                assert(a.contains(x));
                let m = b.index_of(x);
                assert(b[m] == x);
                assert(m > 0);
                assert(b1[m - 1] == x);
            }
            if b1.contains(x) {
                let k = b1.index_of(x);
                assert(b[k + 1] == x);
                assert(before(b[0], b[k + 1]));
                assert(b.contains(x));
                assert(a.contains(x));
                let m = a.index_of(x);
                assert(a[m] == x);
                assert(m > 0);
                assert(a1[m - 1] == x);
            }
        }
        assert forall|i: int, j: int| 0 <= i < j < a1.len() implies before(
            #[trigger] a1[i],
            #[trigger] a1[j],
        ) by {
            assert(before(a[i + 1], a[j + 1]));
        }
        assert forall|i: int, j: int| 0 <= i < j < b1.len() implies before(
            #[trigger] b1[i],
            #[trigger] b1[j],
        ) by {
            assert(before(b[i + 1], b[j + 1]));
        }
        lemma_sorted_lists_equal(a1, b1, before);
        assert(a =~= seq![a[0]] + a1);
        assert(b =~= seq![b[0]] + b1);
    }
}

/// Law: the entries of a directory have one listing only.
pub proof fn listing_is_unique(
    entries: Seq<ScanEntry>,
    order1: Seq<int>,
    slots1: Seq<GameSlot>,
    order2: Seq<int>,
    slots2: Seq<GameSlot>,
)
    requires
        is_listing(entries, order1, slots1),
        is_listing(entries, order2, slots2),
    ensures
        slots1 == slots2,
{
    let before = |i: int, j: int| listed_before(entries, i, j);
    assert forall|i: int, j: int| #[trigger] before(i, j) implies !before(j, i) by {
        if text_before(entries[i].name@, entries[j].name@) {
            text_order_asymmetric(entries[i].name@, entries[j].name@);
        }
        if text_before(entries[j].name@, entries[i].name@) {
            text_order_asymmetric(entries[j].name@, entries[i].name@);
        }
    }
    assert forall|i: int| #[trigger] order1.contains(i) <==> order2.contains(i) by {
        if order1.contains(i) {
            let k = order1.index_of(i);
            assert(order1[k] == i);
            assert(is_game(entries[i]));
        }
        if order2.contains(i) {
            let k = order2.index_of(i);
            assert(order2[k] == i);
            assert(is_game(entries[i]));
        }
    }
    lemma_sorted_lists_equal(order1, order2, before);
    assert forall|k: int| 0 <= k < slots1.len() implies slots1[k] == slots2[k] by {
        assert(order1[k] == order2[k]);
    }
    assert(slots1 =~= slots2);
}

/// Every game has a name of its own.
pub open spec fn names_distinct(entries: Seq<ScanEntry>) -> bool {
    forall|i: int, j: int|
        0 <= i < j < entries.len() && is_game(entries[i]) && is_game(entries[j])
            ==> #[trigger] entries[i].name@ != #[trigger] entries[j].name@
}

/// The slots of a listing are those of the games among the entries.
proof fn lemma_listed_slots(
    entries: Seq<ScanEntry>,
    order: Seq<int>,
    slots: Seq<GameSlot>,
    slot: GameSlot,
)
    requires
        is_listing(entries, order, slots),
    ensures
        slots.contains(slot) <==> exists|entry: ScanEntry|
            #[trigger] entries.contains(entry) && is_game(entry) && slot_of(entry) == slot,
{
    if slots.contains(slot) {
        let k = slots.index_of(slot);
        assert(slots[k] == slot);
        assert(entries.contains(entries[order[k]]));
    }
    if exists|entry: ScanEntry|
        #[trigger] entries.contains(entry) && is_game(entry) && slot_of(entry) == slot {
        let entry = choose|entry: ScanEntry|
            #[trigger] entries.contains(entry) && is_game(entry) && slot_of(entry) == slot;
        let i = entries.index_of(entry);
        assert(entries[i] == entry);
        assert(order.contains(i));
        let k = order.index_of(i);
        assert(order[k] == i);
        assert(slots[k] == slot);
    }
}

/// Law: where every game has a name of its own, the list of games does not
/// depend on the order in which the entries were found.
pub proof fn listing_ignores_found_order(
    entries1: Seq<ScanEntry>,
    order1: Seq<int>,
    slots1: Seq<GameSlot>,
    entries2: Seq<ScanEntry>,
    order2: Seq<int>,
    slots2: Seq<GameSlot>,
)
    requires
        is_listing(entries1, order1, slots1),
        is_listing(entries2, order2, slots2),
        forall|entry: ScanEntry|
            #[trigger] entries1.contains(entry) <==> entries2.contains(entry),
        names_distinct(entries1),
        names_distinct(entries2),
    ensures
        slots1 == slots2,
{
    let before = |a: GameSlot, b: GameSlot| text_before(a.name@, b.name@);
    assert forall|a: GameSlot, b: GameSlot| #[trigger] before(a, b) implies !before(b, a) by {
        text_order_asymmetric(a.name@, b.name@);
    }
    assert forall|slot: GameSlot| #[trigger] slots1.contains(slot) <==> slots2.contains(slot) by {
        lemma_listed_slots(entries1, order1, slots1, slot);
        lemma_listed_slots(entries2, order2, slots2, slot);
        if slots1.contains(slot) {
            let entry = choose|entry: ScanEntry|
                #[trigger] entries1.contains(entry) && is_game(entry) && slot_of(entry) == slot;
            assert(entries2.contains(entry));
        }
        if slots2.contains(slot) {
            let entry = choose|entry: ScanEntry|
                #[trigger] entries2.contains(entry) && is_game(entry) && slot_of(entry) == slot;
            assert(entries1.contains(entry));
        }
    }
    lemma_names_ascend(entries1, order1, slots1);
    lemma_names_ascend(entries2, order2, slots2);
    lemma_sorted_lists_equal(slots1, slots2, before);
}

proof fn lemma_names_ascend(entries: Seq<ScanEntry>, order: Seq<int>, slots: Seq<GameSlot>)
    requires
        is_listing(entries, order, slots),
        names_distinct(entries),
    ensures
        forall|j: int, k: int|
            0 <= j < k < slots.len() ==> text_before(
                (#[trigger] slots[j]).name@,
                (#[trigger] slots[k]).name@,
            ),
{
    assert forall|j: int, k: int| 0 <= j < k < slots.len() implies text_before(
        (#[trigger] slots[j]).name@,
        (#[trigger] slots[k]).name@,
    ) by {
        assert(listed_before(entries, order[j], order[k]));
        let a = order[j];
        let b = order[k];
        if a < b {
            assert(entries[a].name@ != entries[b].name@);
        }
    }
}

} // verus!
