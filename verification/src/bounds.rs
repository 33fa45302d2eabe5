//! How the counts of the world grow under the changes that actions and
//! machines make to it.

use vstd::prelude::*;
use crate::chest::{
    chest_add, chest_count, chest_remove, chest_within, lemma_chest_add_count,
    lemma_chest_remove_count,
};
use crate::map::{
    chests_within, machine_tiles, nonempty_stacks, placeables_off, stacks_within, PlaceableObject,
    StackView,
};
use crate::types::{Item, PlaceableType};

verus! {

/// A chest within `b` is within any greater bound.
pub proof fn lemma_chest_within_grows(c: Seq<(Item, nat)>, b: nat, d: nat)
    requires
        chest_within(c, b),
        b <= d,
    ensures
        chest_within(c, d),
{
}

/// One item more in one chest raises the bound of the chests by one at
/// most.
pub proof fn lemma_chest_fed(
    chests: Map<(u32, u32), Seq<(Item, nat)>>,
    t: (u32, u32),
    item: Item,
    b: nat,
)
    requires
        chests_within(chests, b),
        chests.contains_key(t),
    ensures
        chests_within(chests.insert(t, chest_add(chests[t], item, 1)), b + 1),
{
    let after = chests.insert(t, chest_add(chests[t], item, 1));
    assert forall|p: (u32, u32)| after.contains_key(p) implies chest_within(
        #[trigger] after[p],
        b + 1,
    ) by {
        if p == t {
            assert forall|k: Item| chest_count(after[p], k) <= b + 1 by {
                lemma_chest_add_count(chests[t], item, 1, k);
            }
        } else {
            lemma_chest_within_grows(chests[p], b, b + 1);
        }
    }
}

/// Items taken out of one chest leave the chests within their bound.
pub proof fn lemma_chest_drawn(
    chests: Map<(u32, u32), Seq<(Item, nat)>>,
    t: (u32, u32),
    item: Item,
    q: nat,
    b: nat,
)
    requires
        chests_within(chests, b),
        chests.contains_key(t),
    ensures
        chests_within(chests.insert(t, chest_remove(chests[t], item, q)), b),
{
    let after = chests.insert(t, chest_remove(chests[t], item, q));
    assert forall|p: (u32, u32)| after.contains_key(p) implies chest_within(#[trigger] after[p], b) by {
        if p == t {
            assert forall|k: Item| chest_count(after[p], k) <= b by {
                lemma_chest_remove_count(chests[t], item, q, k);
            }
        }
    }
}

/// A fresh chest is within every bound.
pub proof fn lemma_chest_placed(chests: Map<(u32, u32), Seq<(Item, nat)>>, t: (u32, u32), b: nat)
    requires
        chests_within(chests, b),
    ensures
        chests_within(chests.insert(t, Seq::empty()), b),
        chests_within(chests.remove(t), b),
{
    let after = chests.insert(t, Seq::<(Item, nat)>::empty());
    assert forall|p: (u32, u32)| after.contains_key(p) implies chest_within(#[trigger] after[p], b) by {
        if p == t {
            assert forall|k: Item| chest_count(after[p], k) <= b by {
            }
        }
    }
}

/// A list of stacks without one of them is within the bound of the list.
pub proof fn lemma_stacks_without(stacks: Seq<StackView>, i: int, b: nat)
    requires
        stacks_within(stacks, b),
        0 <= i < stacks.len(),
    ensures
        stacks_within(stacks.remove(i), b),
{
    let after = stacks.remove(i);
    assert forall|j: int| 0 <= j < after.len() implies (#[trigger] after[j]).quantity <= b by {
        if j < i {
            assert(after[j] == stacks[j]);
        } else {
            assert(after[j] == stacks[j + 1]);
        }
    }
}

/// The stacks that are left when the empty ones go are within the bound of
/// the list.
pub proof fn lemma_nonempty_within(stacks: Seq<StackView>, b: nat)
    requires
        stacks_within(stacks, b),
    ensures
        stacks_within(nonempty_stacks(stacks), b),
    decreases stacks.len(),
{
    if stacks.len() > 0 {
        let front = stacks.drop_last();
        assert(stacks_within(front, b)) by {
            assert forall|j: int| 0 <= j < front.len() implies (#[trigger] front[j]).quantity
                <= b by {
                assert(front[j] == stacks[j]);
            }
        }
        lemma_nonempty_within(front, b);
        let kept = nonempty_stacks(stacks);
        let inner = nonempty_stacks(front);
        assert forall|j: int| 0 <= j < kept.len() implies (#[trigger] kept[j]).quantity <= b by {
            if j < inner.len() {
                assert(kept[j] == inner[j]);
            } else {
                assert(kept[j] == stacks[stacks.len() - 1]);
            }
        }
    }
}

/// Taking the machines of a tile away leaves no more machines than there
/// were.
pub proof fn lemma_placeables_off_len(s: Seq<PlaceableObject>, x: u32, y: u32)
    ensures
        placeables_off(s, x, y).len() <= s.len(),
    decreases s.len(),
{
    if s.len() > 0 {
        lemma_placeables_off_len(s.drop_last(), x, y);
    }
}

/// There are no more machines of a kind than machines.
pub proof fn lemma_machine_tiles_len(s: Seq<PlaceableObject>, kind: PlaceableType)
    ensures
        machine_tiles(s, kind).len() <= s.len(),
    decreases s.len(),
{
    if s.len() > 0 {
        lemma_machine_tiles_len(s.drop_last(), kind);
    }
}

} // verus!
