use factory_sim::inventory::Inventory;
use factory_sim::types::Item;

#[test]
fn remove_takes_exactly_the_count() {
    let mut inv = Inventory::new();
    for _ in 0..7 {
        inv.add_item(Item::Coal);
    }
    assert!(inv.remove_items(Item::Coal, 3));
    assert_eq!(inv.count_coal(), 4);
    assert_eq!(inv.count(Item::Coal), 4);
}

#[test]
fn remove_of_too_many_changes_nothing() {
    let mut inv = Inventory::new();
    inv.add_item(Item::Stone);
    inv.add_item(Item::Stone);
    assert!(!inv.remove_items(Item::Stone, 3));
    assert_eq!(inv.count_stone(), 2);
    assert!(!inv.remove_items(Item::Coal, 1));
    assert_eq!(inv.count_coal(), 0);
}

#[test]
fn available_items_follow_the_canonical_order() {
    let mut inv = Inventory::new();
    inv.add_item(Item::Drill);
    inv.add_item(Item::IronOre);
    inv.add_item(Item::Belt);
    inv.add_item(Item::Coal);
    inv.add_item(Item::Belt);
    assert_eq!(
        inv.get_available_items(),
        vec![Item::IronOre, Item::Coal, Item::Belt, Item::Drill]
    );
    assert!(inv.remove_items(Item::Coal, 1));
    assert_eq!(inv.get_available_items(), vec![Item::IronOre, Item::Belt, Item::Drill]);
}

#[test]
fn items_are_added_one_by_one_or_in_bulk() {
    let mut inv = Inventory::with_each(3);
    for r in 0..11u8 {
        assert_eq!(inv.count(Item::from_order(r)), 3);
    }
    inv.add_items(Item::Arm, 4);
    inv.add_item(Item::Arm);
    assert_eq!(inv.count_arm(), 8);
    assert_eq!(inv.count_iron_ore(), 3);
    assert_eq!(inv.count_copper(), 3);
    assert_eq!(inv.count_furnace(), 3);
    assert_eq!(inv.count_iron_plate(), 3);
    assert_eq!(inv.count_belt(), 3);
    assert_eq!(inv.count_copper_plate(), 3);
    assert_eq!(inv.count_chest(), 3);
    assert_eq!(inv.count_drill(), 3);
    inv.cleanup_zero_items();
    assert_eq!(inv.get_available_items().len(), 11);
    assert!(inv.is_within(8));
    assert!(!inv.is_within(7));
}
