//! The player: a position, a facing and an inventory.

use vstd::prelude::*;
use crate::inventory::{counts_fit, no_items, with_added, Inventory};
use crate::types::{Direction, Item};

verus! {

/// What a player is: where they stand, where they look, what they carry.
pub struct PlayerView {
    pub x: u32,
    pub y: u32,
    pub direction: Direction,
    pub inventory: Map<Item, nat>,
}

pub struct Player {
    x: u32,
    y: u32,
    direction: Direction,
    inventory: Inventory,
}

impl View for Player {
    type V = PlayerView;

    closed spec fn view(&self) -> PlayerView {
        PlayerView { x: self.x, y: self.y, direction: self.direction, inventory: self.inventory@ }
    }
}

impl Player {
    /// Every count read off a player's inventory fits a machine word.
    pub proof fn lemma_view(&self)
        ensures
            counts_fit(self@.inventory),
    {
        self.inventory.lemma_view();
    }

    /// A player at `(x, y)` who faces south and carries nothing.
    pub fn new(x: u32, y: u32) -> (p: Player)
        ensures
            p@ == (PlayerView { x, y, direction: Direction::South, inventory: no_items() }),
    {
        Player { x, y, direction: Direction::South, inventory: Inventory::new() }
    }

    pub fn x(&self) -> (x: u32)
        ensures
            x == self@.x,
    {
        self.x
    }

    pub fn y(&self) -> (y: u32)
        ensures
            y == self@.y,
    {
        self.y
    }

    pub fn set_position(&mut self, x: u32, y: u32)
        ensures
            final(self)@ == (PlayerView { x, y, ..old(self)@ }),
    {
        self.x = x;
        self.y = y;
    }

    pub fn add_to_inventory(&mut self, item: Item)
        requires
            old(self)@.inventory[item] < u32::MAX,
        ensures
            final(self)@ == (PlayerView {
                inventory: with_added(old(self)@.inventory, item, 1),
                ..old(self)@
            }),
    {
        self.inventory.add_item(item);
    }

    pub fn get_iron_ore_count(&self) -> (n: u32)
        ensures
            n == self@.inventory[Item::IronOre],
    {
        self.inventory.count_iron_ore()
    }

    pub fn set_direction(&mut self, direction: Direction)
        ensures
            final(self)@ == (PlayerView { direction, ..old(self)@ }),
    {
        self.direction = direction;
    }

    pub fn direction(&self) -> (d: Direction)
        ensures
            d == self@.direction,
    {
        self.direction
    }

    pub fn direction_value(&self) -> (v: u32)
        ensures
            v == self@.direction.spec_value(),
    {
        self.direction.value()
    }

    pub fn inventory(&self) -> (inv: &Inventory)
        ensures
            inv@ == self@.inventory,
    {
        &self.inventory
    }

    pub fn inventory_mut(&mut self) -> (inv: &mut Inventory)
        ensures
            inv@ == old(self)@.inventory,
            final(self)@ == (PlayerView { inventory: final(inv)@, ..old(self)@ }),
    {
        &mut self.inventory
    }
}

} // verus!
