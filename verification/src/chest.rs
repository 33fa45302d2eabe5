//! The chest's stacks of items.

use vstd::prelude::*;
use crate::lookup::{first_index, is_first, lemma_first_index_is, lemma_first_index_none};
use crate::inventory::with_added;
use crate::types::{Item, ITEM_KINDS};

verus! {

/// The kinds of a chest's stacks, in the order of the stacks.
pub open spec fn chest_kinds(c: Seq<(Item, nat)>) -> Seq<Item> {
    Seq::new(c.len(), |i: int| c[i].0)
}

/// Every quantity in the chest can be held in a machine word.
pub open spec fn chest_fits(c: Seq<(Item, nat)>) -> bool {
    forall|i: int| 0 <= i < c.len() ==> (#[trigger] c[i]).1 <= u32::MAX
}

/// The chest after `q` of `item` went in: onto the first stack of that kind,
/// or as a new last stack where there is none.
pub open spec fn chest_add(c: Seq<(Item, nat)>, item: Item, q: nat) -> Seq<(Item, nat)> {
    match first_index(chest_kinds(c), item) {
        Some(i) => c.update(i, (item, c[i].1 + q)),
        None => c.push((item, q)),
    }
}

/// Whether `q` of `item` can be taken from the first stack of that kind.
pub open spec fn chest_can_remove(c: Seq<(Item, nat)>, item: Item, q: nat) -> bool {
    match first_index(chest_kinds(c), item) {
        Some(i) => c[i].1 >= q,
        None => false,
    }
}

/// The chest after `q` of `item` were taken from the first stack of that
/// kind; a stack that is used up leaves the chest. Where they cannot be
/// taken the chest is unchanged.
pub open spec fn chest_remove(c: Seq<(Item, nat)>, item: Item, q: nat) -> Seq<(Item, nat)> {
    match first_index(chest_kinds(c), item) {
        Some(i) => if c[i].1 > q {
            c.update(i, (item, (c[i].1 - q) as nat))
        } else if c[i].1 == q {
            c.remove(i)
        } else {
            c
        },
        None => c,
    }
}

/// How many of `item` the chest holds, over all its stacks.
pub open spec fn chest_count(c: Seq<(Item, nat)>, item: Item) -> nat
    decreases c.len(),
{
    if c.len() == 0 {
        0
    } else if c.last().0 == item {
        chest_count(c.drop_last(), item) + c.last().1
    } else {
        chest_count(c.drop_last(), item)
    }
}

/// The ledger `inv` after every stack of the chest was added to it.
pub open spec fn emptied_into(inv: Map<Item, nat>, c: Seq<(Item, nat)>) -> Map<Item, nat>
    decreases c.len(),
{
    if c.len() == 0 {
        inv
    } else {
        with_added(emptied_into(inv, c.drop_last()), c.last().0, c.last().1)
    }
}

/// Emptying a chest into a ledger raises the count of every kind by what
/// the chest holds of it, summed over its stacks.
pub proof fn lemma_emptied_into(inv: Map<Item, nat>, c: Seq<(Item, nat)>, item: Item)
    ensures
        emptied_into(inv, c)[item] == inv[item] + chest_count(c, item),
    decreases c.len(),
{
    if c.len() > 0 {
        lemma_emptied_into(inv, c.drop_last(), item);
    }
}

/// A chest holds at least as much of a kind as any of its leading stacks.
pub proof fn lemma_chest_count_grows(c: Seq<(Item, nat)>, n: int, item: Item)
    requires
        0 <= n <= c.len(),
    ensures
        chest_count(c.take(n), item) <= chest_count(c, item),
    decreases c.len(),
{
    if n == c.len() {
        assert(c.take(n) =~= c);
    } else {
        lemma_chest_count_grows(c.drop_last(), n, item);
        assert(c.drop_last().take(n) =~= c.take(n));
    }
}

/// The chest holds no more than `b` of any kind.
pub open spec fn chest_within(c: Seq<(Item, nat)>, b: nat) -> bool {
    forall|item: Item| chest_count(c, item) <= b
}

/// What two lists of stacks hold of a kind together is the sum of what each
/// holds.
pub proof fn lemma_chest_count_concat(a: Seq<(Item, nat)>, b: Seq<(Item, nat)>, item: Item)
    ensures
        chest_count(a + b, item) == chest_count(a, item) + chest_count(b, item),
    decreases b.len(),
{
    if b.len() == 0 {
        assert(a + b =~= a);
    } else {
        lemma_chest_count_concat(a, b.drop_last(), item);
        assert((a + b).drop_last() =~= a + b.drop_last());
    }
}

/// What one stack holds of a kind.
pub open spec fn held_in(stack: (Item, nat), item: Item) -> nat {
    if stack.0 == item {
        stack.1
    } else {
        0
    }
}

/// A chest holds of a kind what its stacks around place `i` hold and what
/// the stack at `i` holds.
pub proof fn lemma_chest_count_split(c: Seq<(Item, nat)>, i: int, item: Item)
    requires
        0 <= i < c.len(),
    ensures
        chest_count(c, item) == chest_count(c.take(i), item) + held_in(c[i], item)
            + chest_count(c.skip(i + 1), item),
{
    let one = seq![c[i]];
    assert(one.drop_last() =~= Seq::<(Item, nat)>::empty());
    assert(chest_count(one.drop_last(), item) == 0);
    assert(one.last() == c[i]);
    assert(chest_count(one, item) == held_in(c[i], item));
    assert(c =~= (c.take(i) + one) + c.skip(i + 1));
    lemma_chest_count_concat(c.take(i) + one, c.skip(i + 1), item);
    lemma_chest_count_concat(c.take(i), one, item);
}

/// Replacing the stack at `i` changes what the chest holds of a kind by the
/// difference of the two stacks.
pub proof fn lemma_chest_count_update(c: Seq<(Item, nat)>, i: int, stack: (Item, nat), item: Item)
    requires
        0 <= i < c.len(),
    ensures
        chest_count(c.update(i, stack), item) + held_in(c[i], item) == chest_count(c, item)
            + held_in(stack, item),
{
    let u = c.update(i, stack);
    lemma_chest_count_split(c, i, item);
    lemma_chest_count_split(u, i, item);
    assert(u.take(i) =~= c.take(i));
    assert(u.skip(i + 1) =~= c.skip(i + 1));
}

/// Taking the stack at `i` away lowers what the chest holds of a kind by
/// what the stack held.
pub proof fn lemma_chest_count_remove(c: Seq<(Item, nat)>, i: int, item: Item)
    requires
        0 <= i < c.len(),
    ensures
        chest_count(c.remove(i), item) + held_in(c[i], item) == chest_count(c, item),
{
    lemma_chest_count_split(c, i, item);
    assert(c.remove(i) =~= c.take(i) + c.skip(i + 1));
    lemma_chest_count_concat(c.take(i), c.skip(i + 1), item);
}

/// Putting `q` of a kind into a chest raises what it holds of that kind by
/// `q` and leaves the other kinds alone.
pub proof fn lemma_chest_add_count(c: Seq<(Item, nat)>, added: Item, q: nat, item: Item)
    ensures
        chest_count(chest_add(c, added, q), item) == chest_count(c, item) + held_in(
            (added, q),
            item,
        ),
{
    crate::lookup::lemma_first_index(chest_kinds(c), added);
    match first_index(chest_kinds(c), added) {
        Some(i) => {
            assert(chest_kinds(c)[i] == c[i].0);
            lemma_chest_count_update(c, i, (added, c[i].1 + q), item);
        },
        None => {
            assert(c.push((added, q)).drop_last() =~= c);
        },
    }
}

/// Taking items out of a chest raises what it holds of no kind.
pub proof fn lemma_chest_remove_count(c: Seq<(Item, nat)>, taken: Item, q: nat, item: Item)
    ensures
        chest_count(chest_remove(c, taken, q), item) <= chest_count(c, item),
{
    crate::lookup::lemma_first_index(chest_kinds(c), taken);
    match first_index(chest_kinds(c), taken) {
        Some(i) => {
            assert(chest_kinds(c)[i] == c[i].0);
            if c[i].1 > q {
                lemma_chest_count_update(c, i, (taken, (c[i].1 - q) as nat), item);
            } else if c[i].1 == q {
                lemma_chest_count_remove(c, i, item);
            }
        },
        None => {},
    }
}

/// A chest that holds no more than a machine word of any kind has no stack
/// that holds more.
pub proof fn lemma_chest_within_fits(c: Seq<(Item, nat)>, b: nat)
    requires
        chest_within(c, b),
        b <= u32::MAX,
    ensures
        chest_fits(c),
{
    assert forall|i: int| 0 <= i < c.len() implies (#[trigger] c[i]).1 <= u32::MAX by {
        lemma_chest_count_split(c, i, c[i].0);
    }
}

/// The state of one placed chest: a list of stacks.
pub struct ChestData {
    stacks: Vec<(Item, u32)>,
}

impl View for ChestData {
    type V = Seq<(Item, nat)>;

    closed spec fn view(&self) -> Seq<(Item, nat)> {
        Seq::new(self.stacks@.len(), |i: int| (self.stacks@[i].0, self.stacks@[i].1 as nat))
    }
}

impl Clone for ChestData {
    fn clone(&self) -> (c: ChestData)
        ensures
            c@ == self@,
    {
        let mut stacks: Vec<(Item, u32)> = Vec::new();
        let mut i: usize = 0;
        while i < self.stacks.len()
            invariant
                i <= self.stacks@.len(),
                stacks@ == self.stacks@.take(i as int),
            decreases self.stacks@.len() - i,
        {
            stacks.push(self.stacks[i]);
            assert(self.stacks@.take(i + 1) =~= self.stacks@.take(i as int).push(self.stacks@[i as int]));
            i = i + 1;
        }
        assert(stacks@ =~= self.stacks@);
        let c = ChestData { stacks };
        assert(c@ =~= self@);
        c
    }
}

impl ChestData {
    /// Every quantity read off a chest fits a machine word.
    pub proof fn lemma_view(&self)
        ensures
            chest_fits(self@),
    {
    }

    pub fn new() -> (chest: ChestData)
        ensures
            chest@ == Seq::<(Item, nat)>::empty(),
    {
        let chest = ChestData { stacks: Vec::new() };
        assert(chest@ =~= Seq::<(Item, nat)>::empty());
        chest
    }

    fn find(&self, item: Item) -> (found: Option<usize>)
        ensures
            match found {
                Some(i) => first_index(chest_kinds(self@), item) == Some(i as int) && i
                    < self.stacks@.len(),
                None => first_index(chest_kinds(self@), item) is None,
            },
    {
        let mut i: usize = 0;
        while i < self.stacks.len()
            invariant
                i <= self.stacks@.len(),
                forall|j: int| 0 <= j < i ==> chest_kinds(self@)[j] != item,
            decreases self.stacks@.len() - i,
        {
            if self.stacks[i].0 == item {
                proof {
                    assert(is_first(chest_kinds(self@), item, i as int));
                    lemma_first_index_is(chest_kinds(self@), item, i as int);
                }
                return Some(i);
            }
            i = i + 1;
        }
        proof {
            lemma_first_index_none(chest_kinds(self@), item);
        }
        None
    }

    /// Puts `quantity` of `item` into the chest.
    pub fn add_item(&mut self, item: Item, quantity: u32)
        requires
            chest_fits(chest_add(old(self)@, item, quantity as nat)),
        ensures
            final(self)@ == chest_add(old(self)@, item, quantity as nat),
    {
        match self.find(item) {
            Some(i) => {
                let held: u32 = self.stacks[i].1;
                assert(chest_add(old(self)@, item, quantity as nat)[i as int].1 == held + quantity);
                self.stacks[i] = (item, held + quantity);
            },
            None => {
                self.stacks.push((item, quantity));
            },
        }
        assert(final(self)@ =~= chest_add(old(self)@, item, quantity as nat));
    }

    /// Takes `quantity` of `item` out of the chest, or nothing where its
    /// first stack of that kind holds fewer.
    pub fn remove_item(&mut self, item: Item, quantity: u32) -> (removed: bool)
        ensures
            removed == chest_can_remove(old(self)@, item, quantity as nat),
            final(self)@ == chest_remove(old(self)@, item, quantity as nat),
    {
        match self.find(item) {
            Some(i) => {
                let held: u32 = self.stacks[i].1;
                if held >= quantity {
                    if held == quantity {
                        self.stacks.remove(i);
                    } else {
                        self.stacks[i] = (item, held - quantity);
                    }
                    assert(final(self)@ =~= chest_remove(old(self)@, item, quantity as nat));
                    true
                } else {
                    false
                }
            },
            None => false,
        }
    }

    /// The kinds of the stacks, in the order of the stacks.
    pub fn get_all_items(&self) -> (items: Vec<Item>)
        ensures
            items@ == chest_kinds(self@),
    {
        let mut items: Vec<Item> = Vec::new();
        let mut i: usize = 0;
        while i < self.stacks.len()
            invariant
                i <= self.stacks@.len(),
                items@ == chest_kinds(self@).take(i as int),
            decreases self.stacks@.len() - i,
        {
            items.push(self.stacks[i].0);
            assert(chest_kinds(self@).take(i + 1) =~= chest_kinds(self@).take(i as int).push(
                self.stacks@[i as int].0,
            ));
            i = i + 1;
        }
        assert(items@ =~= chest_kinds(self@));
        items
    }

    /// The quantity of the stack at `index`, or zero where there is no such
    /// stack.
    pub fn get_item_quantity(&self, index: usize) -> (q: u32)
        ensures
            q == if index < self@.len() {
                self@[index as int].1
            } else {
                0
            },
    {
        if index < self.stacks.len() {
            self.stacks[index].1
        } else {
            0
        }
    }

    /// Whether the chest holds at most `limit` of `item`, over all its
    /// stacks.
    fn holds_at_most(&self, item: Item, limit: u32) -> (b: bool)
        ensures
            b == (chest_count(self@, item) <= limit),
    {
        let mut total: u64 = 0;
        let mut i: usize = 0;
        while i < self.stacks.len()
            invariant
                i <= self.stacks@.len(),
                total == chest_count(self@.take(i as int), item),
                total <= limit,
            decreases self.stacks@.len() - i,
        {
            assert(self@.take(i + 1).drop_last() =~= self@.take(i as int));
            if self.stacks[i].0 == item {
                total = total + self.stacks[i].1 as u64;
                if total > limit as u64 {
                    proof {
                        lemma_chest_count_grows(self@, i + 1, item);
                    }
                    return false;
                }
            }
            i = i + 1;
        }
        assert(self@.take(i as int) =~= self@);
        true
    }

    /// Whether the chest holds no more than `limit` of any kind.
    pub fn is_within(&self, limit: u32) -> (b: bool)
        ensures
            b == chest_within(self@, limit as nat),
    {
        let mut r: u8 = 0;
        while r < ITEM_KINDS
            invariant
                r <= ITEM_KINDS,
                forall|item: Item| item.rank() < r ==> chest_count(self@, item) <= limit,
            decreases ITEM_KINDS - r,
        {
            let item = Item::from_order(r);
            proof {
                crate::types::lemma_rank_numbers_the_kinds();
            }
            if !self.holds_at_most(item, limit) {
                return false;
            }
            assert forall|other: Item| other.rank() < r + 1 implies chest_count(self@, other)
                <= limit by {
                if other.rank() == r {
                    assert(other == item);
                }
            }
            r = r + 1;
        }
        proof {
            crate::types::lemma_rank_numbers_the_kinds();
            assert forall|item: Item| chest_count(self@, item) <= limit by {
                assert(0 <= item.rank() < ITEM_KINDS);
            }
        }
        true
    }

    /// How many stacks the chest holds.
    pub fn stack_count(&self) -> (n: usize)
        ensures
            n == self@.len(),
    {
        self.stacks.len()
    }

    /// A chest never runs out of room.
    pub fn has_space(&self) -> (b: bool)
        ensures
            b,
    {
        true
    }
}

} // verus!
