use factory_sim::messages::{
    added_message, crafted_message, dropped_message, machine_picked_up_message, mined_message,
    none_held_message, not_enough_message, picked_up_message, placed_message, produced_message,
    put_on_belt_message, rotated_message,
};
use factory_sim::text::{decimal_string, digit_str};
use factory_sim::types::{Direction, Item, PlaceableType, ResourceType};
use factory_sim::ConsoleMessage;

#[test]
fn decimal_numerals() {
    assert_eq!(decimal_string(0), "0");
    assert_eq!(decimal_string(7), "7");
    assert_eq!(decimal_string(10), "10");
    assert_eq!(decimal_string(1905), "1905");
    assert_eq!(decimal_string(4294967295), "4294967295");
    assert_eq!(decimal_string(18446744073709551615), "18446744073709551615");
    assert_eq!(digit_str(3), "3");
}

#[test]
fn message_texts() {
    assert_eq!(
        not_enough_message(5, Item::Stone, 3),
        "Not enough resources! Need 5 Stone (have 3)"
    );
    assert_eq!(crafted_message(Item::Furnace), "Crafted Furnace!");
    assert_eq!(mined_message(Item::IronOre, 12), "Mined Iron Ore! Total: 12");
    assert_eq!(placed_message(PlaceableType::Drill), "Placed drill!");
    assert_eq!(none_held_message("belt"), "No belt in inventory!");
    assert_eq!(added_message("Copper Plate", PlaceableType::Chest), "Added Copper Plate to chest!");
    assert_eq!(added_message("iron ore", PlaceableType::Furnace), "Added iron ore to furnace!");
    assert_eq!(picked_up_message(3, Item::Coal, true), "Picked up 3 Coal from belt!");
    assert_eq!(picked_up_message(40, Item::IronPlate, false), "Picked up 40 Iron Plate!");
    assert_eq!(rotated_message(PlaceableType::Arm, Direction::West), "Rotated arm to West!");
    assert_eq!(put_on_belt_message(Item::Stone), "Placed 1 Stone on belt!");
    assert_eq!(dropped_message(Item::Chest), "Dropped 1 Chest!");
    assert_eq!(
        machine_picked_up_message(PlaceableType::Furnace),
        "Picked up furnace with all contents!"
    );
    assert_eq!(machine_picked_up_message(PlaceableType::Belt), "Picked up belt!");
    assert_eq!(machine_picked_up_message(PlaceableType::Arm), "Picked up arm!");
    assert_eq!(
        machine_picked_up_message(PlaceableType::Chest),
        "Picked up chest with all contents!"
    );
    assert_eq!(
        machine_picked_up_message(PlaceableType::Drill),
        "Picked up drill with all contents!"
    );
    assert_eq!(produced_message(12, 7, false), "Furnace at (12, 7) produced an iron plate!");
    assert_eq!(produced_message(0, 119, true), "Furnace at (0, 119) produced a copper plate!");
}

#[test]
fn names_and_values() {
    assert_eq!(Item::IronOre.name(), "Iron Ore");
    assert_eq!(Item::CopperPlate.name(), "Copper Plate");
    assert_eq!(Item::Drill.name(), "Drill");
    assert_eq!(Direction::North.value(), 0);
    assert_eq!(Direction::South.value(), 1);
    assert_eq!(Direction::East.value(), 2);
    assert_eq!(Direction::West.value(), 3);
    assert_eq!(PlaceableType::Furnace.value(), 0);
    assert_eq!(PlaceableType::Belt.value(), 1);
    assert_eq!(PlaceableType::Arm.value(), 2);
    assert_eq!(PlaceableType::Chest.value(), 3);
    assert_eq!(PlaceableType::Drill.value(), 4);
    assert_eq!(ResourceType::IronOre.value(), 0);
    assert_eq!(ResourceType::Copper.value(), 1);
    assert_eq!(ResourceType::Stone.value(), 2);
    assert_eq!(ResourceType::Coal.value(), 3);
    assert_eq!(Direction::North.turned_clockwise(), Direction::East);
    assert_eq!(Direction::West.turned_clockwise(), Direction::North);
    assert_eq!(Direction::East.reversed(), Direction::West);
    assert_eq!(ResourceType::Stone.drilled_item(), None);
    assert_eq!(ResourceType::Coal.drilled_item(), Some(Item::Coal));
    for r in 0..11u8 {
        assert_eq!(Item::from_order(r).order(), r);
    }
    assert_eq!(Item::Belt.as_placeable(), Some(PlaceableType::Belt));
    assert_eq!(Item::Coal.as_placeable(), None);
}

#[test]
fn console_message_keeps_its_text() {
    let m = ConsoleMessage::new(String::from("Crafted Belt!"));
    assert_eq!(m.text(), "Crafted Belt!");
}
