//! The player's ledger of carried items: a count for every kind.

use vstd::prelude::*;
use crate::types::{Item, ITEM_KINDS};

verus! {

/// The ledger that holds nothing.
pub open spec fn no_items() -> Map<Item, nat> {
    Map::new(|i: Item| true, |i: Item| 0nat)
}

/// The ledger that holds `n` of every kind.
pub open spec fn stocked(n: nat) -> Map<Item, nat> {
    Map::new(|i: Item| true, |i: Item| n)
}

/// The ledger `inv` with `n` more of `item`.
pub open spec fn with_added(inv: Map<Item, nat>, item: Item, n: nat) -> Map<Item, nat> {
    inv.insert(item, inv[item] + n)
}

/// The ledger `inv` with `n` fewer of `item`.
pub open spec fn with_removed(inv: Map<Item, nat>, item: Item, n: nat) -> Map<Item, nat> {
    inv.insert(item, (inv[item] - n) as nat)
}

/// Every count of the ledger can be held in a machine word.
pub open spec fn counts_fit(inv: Map<Item, nat>) -> bool {
    forall|i: Item| inv[i] <= u32::MAX
}

/// No count of the ledger exceeds `b`.
pub open spec fn counts_within(inv: Map<Item, nat>, b: nat) -> bool {
    forall|i: Item| inv[i] <= b
}

/// The kinds of rank below `k` that `inv` holds at least one of, in
/// canonical order.
pub open spec fn available_upto(inv: Map<Item, nat>, k: int) -> Seq<Item>
    decreases k,
{
    if k <= 0 {
        Seq::empty()
    } else if inv[Item::of_rank(k - 1)] > 0 {
        available_upto(inv, k - 1).push(Item::of_rank(k - 1))
    } else {
        available_upto(inv, k - 1)
    }
}

/// The kinds that `inv` holds at least one of, in canonical order.
pub open spec fn available_items(inv: Map<Item, nat>) -> Seq<Item> {
    available_upto(inv, ITEM_KINDS as int)
}

/// The kinds listed up to rank `k` are exactly the held kinds of rank below
/// `k`, each once, in strictly rising rank.
pub proof fn lemma_available_upto(inv: Map<Item, nat>, k: int)
    requires
        0 <= k <= ITEM_KINDS,
    ensures
        forall|n: int|
            0 <= n < available_upto(inv, k).len() ==> {
                &&& 0 <= (#[trigger] available_upto(inv, k)[n]).rank() < k
                &&& inv[available_upto(inv, k)[n]] > 0
            },
        forall|m: int, n: int|
            0 <= m < n < available_upto(inv, k).len() ==> (#[trigger] available_upto(inv, k)[m]).rank()
                < (#[trigger] available_upto(inv, k)[n]).rank(),
        forall|i: Item|
            0 <= i.rank() < k && inv[i] > 0 ==> #[trigger] available_upto(inv, k).contains(i),
        available_upto(inv, k).len() <= k,
    decreases k,
{
    if k > 0 {
        lemma_available_upto(inv, k - 1);
        let rest = available_upto(inv, k - 1);
        let it = Item::of_rank(k - 1);
        let all = available_upto(inv, k);
        assert(it.rank() == k - 1);
        assert forall|i: Item| 0 <= i.rank() < k && inv[i] > 0 implies #[trigger] all.contains(i) by {
            if i.rank() == k - 1 {
                assert(i == it);
                assert(all[all.len() - 1] == i);
            } else {
                assert(rest.contains(i));
                let n = choose|n: int| 0 <= n < rest.len() && rest[n] == i;
                assert(all[n] == i);
            }
        }
    }
}

/// The list of available kinds is sorted by the canonical order, holds no
/// kind twice and no kind whose count is zero, and holds every kind whose
/// count is not.
pub proof fn lemma_available_items(inv: Map<Item, nat>)
    ensures
        forall|m: int, n: int|
            0 <= m < n < available_items(inv).len() ==> (#[trigger] available_items(inv)[m]).rank() < (
            #[trigger] available_items(inv)[n]).rank(),
        forall|i: Item| #[trigger] available_items(inv).contains(i) <==> inv[i] > 0,
        available_items(inv).len() <= ITEM_KINDS,
{
    lemma_available_upto(inv, ITEM_KINDS as int);
    crate::types::lemma_rank_numbers_the_kinds();
    let all = available_items(inv);
    assert forall|i: Item| #[trigger] all.contains(i) <==> inv[i] > 0 by {
        if all.contains(i) {
            let n = choose|n: int| 0 <= n < all.len() && all[n] == i;
            assert(inv[all[n]] > 0);
        }
        if inv[i] > 0 {
            assert(0 <= i.rank() < ITEM_KINDS);
        }
    }
}

/// Where iron ore is held it is the first of the available kinds.
pub proof fn lemma_iron_ore_first(inv: Map<Item, nat>)
    requires
        inv[Item::IronOre] > 0,
    ensures
        available_items(inv).len() > 0,
        available_items(inv)[0] == Item::IronOre,
{
    lemma_available_items(inv);
    let all = available_items(inv);
    assert(all.contains(Item::IronOre));
    let n = choose|n: int| 0 <= n < all.len() && all[n] == Item::IronOre;
    if n > 0 {
        assert(all[0].rank() < all[n].rank());
    }
}

/// The items a player carries, as a count per kind.
pub struct Inventory {
    iron_ore: u32,
    copper: u32,
    stone: u32,
    coal: u32,
    furnace: u32,
    iron_plate: u32,
    belt: u32,
    copper_plate: u32,
    arm: u32,
    chest: u32,
    drill: u32,
}

impl View for Inventory {
    type V = Map<Item, nat>;

    closed spec fn view(&self) -> Map<Item, nat> {
        Map::new(|i: Item| true, |i: Item| self.held(i) as nat)
    }
}

impl Inventory {
    spec fn held(self, item: Item) -> u32 {
        match item {
            Item::IronOre => self.iron_ore,
            Item::Copper => self.copper,
            Item::Stone => self.stone,
            Item::Coal => self.coal,
            Item::Furnace => self.furnace,
            Item::IronPlate => self.iron_plate,
            Item::Belt => self.belt,
            Item::CopperPlate => self.copper_plate,
            Item::Arm => self.arm,
            Item::Chest => self.chest,
            Item::Drill => self.drill,
        }
    }

    /// A ledger read off an inventory has a count for every kind, and every
    /// count fits a machine word.
    pub proof fn lemma_view(&self)
        ensures
            forall|i: Item| self@.contains_key(i),
            counts_fit(self@),
    {
    }

    pub fn new() -> (inv: Inventory)
        ensures
            inv@ == no_items(),
    {
        let inv = Inventory {
            iron_ore: 0,
            copper: 0,
            stone: 0,
            coal: 0,
            furnace: 0,
            iron_plate: 0,
            belt: 0,
            copper_plate: 0,
            arm: 0,
            chest: 0,
            drill: 0,
        };
        assert(inv@ =~= no_items());
        inv
    }

    /// An inventory that holds `n` of every kind.
    pub fn with_each(n: u32) -> (inv: Inventory)
        ensures
            inv@ == stocked(n as nat),
    {
        let inv = Inventory {
            iron_ore: n,
            copper: n,
            stone: n,
            coal: n,
            furnace: n,
            iron_plate: n,
            belt: n,
            copper_plate: n,
            arm: n,
            chest: n,
            drill: n,
        };
        assert(inv@ =~= stocked(n as nat));
        inv
    }

    /// Whether no count exceeds `limit`.
    pub fn is_within(&self, limit: u32) -> (b: bool)
        ensures
            b == counts_within(self@, limit as nat),
    {
        let b = self.iron_ore <= limit && self.copper <= limit && self.stone <= limit && self.coal
            <= limit && self.furnace <= limit && self.iron_plate <= limit && self.belt <= limit
            && self.copper_plate <= limit && self.arm <= limit && self.chest <= limit && self.drill
            <= limit;
        proof {
            if b {
                assert forall|i: Item| self@[i] <= limit by {
                    assert(self@[i] == self.held(i));
                }
            } else {
                assert(self@[Item::IronOre] == self.iron_ore);
                assert(self@[Item::Copper] == self.copper);
                assert(self@[Item::Stone] == self.stone);
                assert(self@[Item::Coal] == self.coal);
                assert(self@[Item::Furnace] == self.furnace);
                assert(self@[Item::IronPlate] == self.iron_plate);
                assert(self@[Item::Belt] == self.belt);
                assert(self@[Item::CopperPlate] == self.copper_plate);
                assert(self@[Item::Arm] == self.arm);
                assert(self@[Item::Chest] == self.chest);
                assert(self@[Item::Drill] == self.drill);
            }
        }
        b
    }

    /// How many of `item` are held.
    pub fn count(&self, item: Item) -> (n: u32)
        ensures
            n == self@[item],
    {
        match item {
            Item::IronOre => self.iron_ore,
            Item::Copper => self.copper,
            Item::Stone => self.stone,
            Item::Coal => self.coal,
            Item::Furnace => self.furnace,
            Item::IronPlate => self.iron_plate,
            Item::Belt => self.belt,
            Item::CopperPlate => self.copper_plate,
            Item::Arm => self.arm,
            Item::Chest => self.chest,
            Item::Drill => self.drill,
        }
    }

    fn set_count(&mut self, item: Item, n: u32)
        ensures
            final(self)@ == old(self)@.insert(item, n as nat),
    {
        match item {
            Item::IronOre => {
                self.iron_ore = n;
            },
            Item::Copper => {
                self.copper = n;
            },
            Item::Stone => {
                self.stone = n;
            },
            Item::Coal => {
                self.coal = n;
            },
            Item::Furnace => {
                self.furnace = n;
            },
            Item::IronPlate => {
                self.iron_plate = n;
            },
            Item::Belt => {
                self.belt = n;
            },
            Item::CopperPlate => {
                self.copper_plate = n;
            },
            Item::Arm => {
                self.arm = n;
            },
            Item::Chest => {
                self.chest = n;
            },
            Item::Drill => {
                self.drill = n;
            },
        }
        assert(final(self)@ =~= old(self)@.insert(item, n as nat));
    }

    /// Adds one `item`.
    pub fn add_item(&mut self, item: Item)
        requires
            old(self)@[item] < u32::MAX,
        ensures
            final(self)@ == with_added(old(self)@, item, 1),
    {
        let n: u32 = self.count(item);
        self.set_count(item, n + 1);
    }

    /// Adds `n` of `item`.
    pub fn add_items(&mut self, item: Item, n: u32)
        requires
            old(self)@[item] + n <= u32::MAX,
        ensures
            final(self)@ == with_added(old(self)@, item, n as nat),
    {
        let held: u32 = self.count(item);
        self.set_count(item, held + n);
    }

    pub fn count_iron_ore(&self) -> (n: u32)
        ensures
            n == self@[Item::IronOre],
    {
        self.iron_ore
    }

    pub fn count_copper(&self) -> (n: u32)
        ensures
            n == self@[Item::Copper],
    {
        self.copper
    }

    pub fn count_stone(&self) -> (n: u32)
        ensures
            n == self@[Item::Stone],
    {
        self.stone
    }

    pub fn count_coal(&self) -> (n: u32)
        ensures
            n == self@[Item::Coal],
    {
        self.coal
    }

    pub fn count_furnace(&self) -> (n: u32)
        ensures
            n == self@[Item::Furnace],
    {
        self.furnace
    }

    pub fn count_iron_plate(&self) -> (n: u32)
        ensures
            n == self@[Item::IronPlate],
    {
        self.iron_plate
    }

    pub fn count_belt(&self) -> (n: u32)
        ensures
            n == self@[Item::Belt],
    {
        self.belt
    }

    pub fn count_copper_plate(&self) -> (n: u32)
        ensures
            n == self@[Item::CopperPlate],
    {
        self.copper_plate
    }

    pub fn count_arm(&self) -> (n: u32)
        ensures
            n == self@[Item::Arm],
    {
        self.arm
    }

    pub fn count_chest(&self) -> (n: u32)
        ensures
            n == self@[Item::Chest],
    {
        self.chest
    }

    pub fn count_drill(&self) -> (n: u32)
        ensures
            n == self@[Item::Drill],
    {
        self.drill
    }

    /// The kinds held at least once, in canonical order: strictly rising in
    /// rank, so no kind twice, and a kind is listed exactly when its count is
    /// not zero.
    pub fn get_available_items(&self) -> (items: Vec<Item>)
        ensures
            items@ == available_items(self@),
            forall|m: int, n: int|
                0 <= m < n < items@.len() ==> (#[trigger] items@[m]).rank() < (#[trigger] items@[n]).rank(),
            forall|i: Item| #[trigger] items@.contains(i) <==> self@[i] > 0,
            items@.len() <= ITEM_KINDS,
    {
        let mut items: Vec<Item> = Vec::new();
        let mut r: u8 = 0;
        while r < ITEM_KINDS
            invariant
                r <= ITEM_KINDS,
                items@ == available_upto(self@, r as int),
            decreases ITEM_KINDS - r,
        {
            let item = Item::from_order(r);
            if self.count(item) > 0 {
                items.push(item);
            }
            r = r + 1;
        }
        proof {
            lemma_available_items(self@);
        }
        items
    }

    /// Takes `count` of `item_type` out, or nothing at all where fewer are
    /// held.
    pub fn remove_items(&mut self, item_type: Item, count: u32) -> (removed: bool)
        ensures
            removed == (old(self)@[item_type] >= count),
            removed ==> final(self)@ == with_removed(old(self)@, item_type, count as nat),
            !removed ==> final(self)@ == old(self)@,
    {
        let held: u32 = self.count(item_type);
        if held >= count {
            self.set_count(item_type, held - count);
            true
        } else {
            false
        }
    }

    /// Kinds with a count of zero take no room, so there is nothing to clean.
    pub fn cleanup_zero_items(&mut self)
        ensures
            final(self)@ == old(self)@,
    {
    }
}

} // verus!
