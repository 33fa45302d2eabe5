//! The texts that the simulation writes to the console.

use vstd::prelude::*;
use vstd::string::*;
use crate::text::{decimal, push_decimal};
use crate::types::{Direction, Item, PlaceableType};

verus! {

/// The name of a furnace input in lower case; empty for other kinds.
pub open spec fn raw_name_text(item: Item) -> Seq<char> {
    match item {
        Item::Coal => "coal"@,
        Item::IronOre => "iron ore"@,
        Item::Copper => "copper"@,
        _ => ""@,
    }
}

pub open spec fn not_enough_text(need: nat, item: Item, have: nat) -> Seq<char> {
    "Not enough resources! Need "@ + decimal(need) + " "@ + item.name_text() + " (have "@ + decimal(
        have,
    ) + ")"@
}

pub open spec fn crafted_text(item: Item) -> Seq<char> {
    "Crafted "@ + item.name_text() + "!"@
}

pub open spec fn mined_text(item: Item, total: nat) -> Seq<char> {
    "Mined "@ + item.name_text() + "! Total: "@ + decimal(total)
}

pub open spec fn placed_text(kind: PlaceableType) -> Seq<char> {
    "Placed "@ + kind.name_text() + "!"@
}

pub open spec fn none_held_text(name: Seq<char>) -> Seq<char> {
    "No "@ + name + " in inventory!"@
}

pub open spec fn added_text(name: Seq<char>, container: PlaceableType) -> Seq<char> {
    "Added "@ + name + " to "@ + container.name_text() + "!"@
}

pub open spec fn picked_up_text(quantity: nat, item: Item, from_belt: bool) -> Seq<char> {
    "Picked up "@ + decimal(quantity) + " "@ + item.name_text() + if from_belt {
        " from belt!"@
    } else {
        "!"@
    }
}

pub open spec fn rotated_text(kind: PlaceableType, direction: Direction) -> Seq<char> {
    "Rotated "@ + kind.name_text() + " to "@ + direction.name_text() + "!"@
}

pub open spec fn put_on_belt_text(item: Item) -> Seq<char> {
    "Placed 1 "@ + item.name_text() + " on belt!"@
}

pub open spec fn dropped_text(item: Item) -> Seq<char> {
    "Dropped 1 "@ + item.name_text() + "!"@
}

pub open spec fn machine_picked_up_text(kind: PlaceableType) -> Seq<char> {
    match kind {
        PlaceableType::Furnace => "Picked up furnace with all contents!"@,
        PlaceableType::Belt => "Picked up belt!"@,
        PlaceableType::Arm => "Picked up arm!"@,
        PlaceableType::Chest => "Picked up chest with all contents!"@,
        PlaceableType::Drill => "Picked up drill with all contents!"@,
    }
}

pub open spec fn produced_text(x: u32, y: u32, copper: bool) -> Seq<char> {
    "Furnace at ("@ + decimal(x as nat) + ", "@ + decimal(y as nat) + if copper {
        ") produced a copper plate!"@
    } else {
        ") produced an iron plate!"@
    }
}

pub fn raw_name(item: Item) -> (s: &'static str)
    ensures
        s@ == raw_name_text(item),
{
    match item {
        Item::Coal => "coal",
        Item::IronOre => "iron ore",
        Item::Copper => "copper",
        _ => "",
    }
}

pub fn not_enough_message(need: u32, item: Item, have: u32) -> (s: String)
    ensures
        s@ == not_enough_text(need as nat, item, have as nat),
{
    let mut s = String::from_str("Not enough resources! Need ");
    push_decimal(&mut s, need as u64);
    s.append(" ");
    s.append(item.name());
    s.append(" (have ");
    push_decimal(&mut s, have as u64);
    s.append(")");
    s
}

pub fn crafted_message(item: Item) -> (s: String)
    ensures
        s@ == crafted_text(item),
{
    let mut s = String::from_str("Crafted ");
    s.append(item.name());
    s.append("!");
    s
}

pub fn mined_message(item: Item, total: u32) -> (s: String)
    ensures
        s@ == mined_text(item, total as nat),
{
    let mut s = String::from_str("Mined ");
    s.append(item.name());
    s.append("! Total: ");
    push_decimal(&mut s, total as u64);
    s
}

pub fn placed_message(kind: PlaceableType) -> (s: String)
    ensures
        s@ == placed_text(kind),
{
    let mut s = String::from_str("Placed ");
    s.append(kind.name());
    s.append("!");
    s
}

pub fn none_held_message(name: &str) -> (s: String)
    ensures
        s@ == none_held_text(name@),
{
    let mut s = String::from_str("No ");
    s.append(name);
    s.append(" in inventory!");
    s
}

pub fn added_message(name: &str, container: PlaceableType) -> (s: String)
    ensures
        s@ == added_text(name@, container),
{
    let mut s = String::from_str("Added ");
    s.append(name);
    s.append(" to ");
    s.append(container.name());
    s.append("!");
    s
}

pub fn picked_up_message(quantity: u32, item: Item, from_belt: bool) -> (s: String)
    ensures
        s@ == picked_up_text(quantity as nat, item, from_belt),
{
    let mut s = String::from_str("Picked up ");
    push_decimal(&mut s, quantity as u64);
    s.append(" ");
    s.append(item.name());
    if from_belt {
        s.append(" from belt!");
    } else {
        s.append("!");
    }
    s
}

pub fn rotated_message(kind: PlaceableType, direction: Direction) -> (s: String)
    ensures
        s@ == rotated_text(kind, direction),
{
    let mut s = String::from_str("Rotated ");
    s.append(kind.name());
    s.append(" to ");
    s.append(direction.name());
    s.append("!");
    s
}

pub fn put_on_belt_message(item: Item) -> (s: String)
    ensures
        s@ == put_on_belt_text(item),
{
    let mut s = String::from_str("Placed 1 ");
    s.append(item.name());
    s.append(" on belt!");
    s
}

pub fn dropped_message(item: Item) -> (s: String)
    ensures
        s@ == dropped_text(item),
{
    let mut s = String::from_str("Dropped 1 ");
    s.append(item.name());
    s.append("!");
    s
}

pub fn machine_picked_up_message(kind: PlaceableType) -> (s: String)
    ensures
        s@ == machine_picked_up_text(kind),
{
    match kind {
        PlaceableType::Furnace => String::from_str("Picked up furnace with all contents!"),
        PlaceableType::Belt => String::from_str("Picked up belt!"),
        PlaceableType::Arm => String::from_str("Picked up arm!"),
        PlaceableType::Chest => String::from_str("Picked up chest with all contents!"),
        PlaceableType::Drill => String::from_str("Picked up drill with all contents!"),
    }
}

pub fn produced_message(x: u32, y: u32, copper: bool) -> (s: String)
    ensures
        s@ == produced_text(x, y, copper),
{
    let mut s = String::from_str("Furnace at (");
    push_decimal(&mut s, x as u64);
    s.append(", ");
    push_decimal(&mut s, y as u64);
    if copper {
        s.append(") produced a copper plate!");
    } else {
        s.append(") produced an iron plate!");
    }
    s
}

} // verus!
