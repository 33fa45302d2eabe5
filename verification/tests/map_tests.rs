use factory_sim::map::{DroppedItem, GameMap, Resource, WaterPatch};
use factory_sim::types::{Direction, Item, PlaceableType, ResourceType};

#[test]
fn water_covers_its_rectangle_only() {
    let mut map = GameMap::new(20, 20);
    map.add_water_patch(WaterPatch::new(3, 4, 2, 3));
    assert!(map.would_collide_with_water(3, 4));
    assert!(map.would_collide_with_water(4, 6));
    assert!(!map.would_collide_with_water(5, 4));
    assert!(!map.would_collide_with_water(3, 7));
    assert!(!map.would_collide_with_water(2, 4));
    assert!(!map.would_collide_with_water(3, 3));
    assert_eq!(map.water_patches().len(), 1);
    assert_eq!(map.water_patches()[0].width(), 2);
}

#[test]
fn placement_is_refused_on_water_machines_and_deposits() {
    let mut map = GameMap::new(20, 20);
    map.add_water_patch(WaterPatch::new(1, 1, 1, 1));
    map.add_resource(Resource::new(2, 2, ResourceType::Coal));
    map.add_placeable(1, 1, PlaceableType::Chest);
    assert_eq!(map.get_placeable_at(1, 1), None);
    map.add_placeable(2, 2, PlaceableType::Furnace);
    assert_eq!(map.get_placeable_at(2, 2), None);
    map.add_placeable(2, 2, PlaceableType::Drill);
    assert_eq!(map.get_placeable_at(2, 2), Some(PlaceableType::Drill));
    map.add_placeable(2, 2, PlaceableType::Drill);
    assert_eq!(map.placeable_objects().len(), 1);
    map.add_placeable(5, 5, PlaceableType::Furnace);
    map.add_placeable(5, 5, PlaceableType::Belt);
    assert_eq!(map.get_placeable_at(5, 5), Some(PlaceableType::Furnace));
    assert_eq!(map.placeable_objects().len(), 2);
    let obj = map.get_placeable_object_at(5, 5).unwrap();
    assert_eq!(obj.direction(), Direction::East);
    assert_eq!(obj.x(), 5);
    assert_eq!(obj.placeable_type_value(), 0);
    assert_eq!(obj.direction_value(), 2);
}

#[test]
fn a_drill_does_not_go_on_stone() {
    let mut map = GameMap::new(10, 10);
    map.add_resource(Resource::new(2, 3, ResourceType::Stone));
    assert!(map.deposit_keeps_off(2, 3, PlaceableType::Drill));
    map.add_placeable(2, 3, PlaceableType::Drill);
    assert_eq!(map.placeable_objects().len(), 0);
    assert_eq!(map.get_placeable_at(2, 3), None);
    assert!(map.get_drill_data(2, 3).is_none());
    for (x, kind) in [(4u32, ResourceType::IronOre), (5, ResourceType::Copper), (6, ResourceType::Coal)] {
        map.add_resource(Resource::new(x, 3, kind));
        assert!(!map.deposit_keeps_off(x, 3, PlaceableType::Drill));
        assert!(map.deposit_keeps_off(x, 3, PlaceableType::Belt));
        map.add_placeable(x, 3, PlaceableType::Drill);
        assert_eq!(map.get_placeable_at(x, 3), Some(PlaceableType::Drill));
        assert!(map.get_drill_data(x, 3).is_some());
    }
    assert!(!map.deposit_keeps_off(8, 8, PlaceableType::Chest));
}

#[test]
fn placing_gives_fresh_state_and_removal_takes_it() {
    let mut map = GameMap::new(20, 20);
    map.add_placeable(1, 1, PlaceableType::Furnace);
    map.add_placeable(2, 1, PlaceableType::Arm);
    map.add_placeable(3, 1, PlaceableType::Chest);
    map.add_placeable(4, 1, PlaceableType::Drill);
    map.add_placeable(5, 1, PlaceableType::Belt);
    assert_eq!(map.get_furnace_data(1, 1).unwrap().coal_count(), 0);
    assert_eq!(map.get_arm_data(2, 1).unwrap().tick_counter(), 0);
    assert_eq!(map.get_chest_data(3, 1).unwrap().stack_count(), 0);
    assert_eq!(map.get_drill_data(4, 1).unwrap().coal_count(), 0);
    assert!(map.get_furnace_data(2, 1).is_none());
    assert!(!map.has_belt_item(5, 1));
    map.set_belt_item(5, 1, DroppedItem::new(5, 1, Item::Coal, 2));
    assert!(map.has_belt_item(5, 1));
    assert_eq!(map.get_belt_item(5, 1).unwrap().quantity(), 2);
    let mut chest = map.get_chest_data(3, 1).unwrap();
    chest.add_item(Item::Stone, 9);
    map.set_chest_data(3, 1, chest);
    assert_eq!(map.get_chest_data(3, 1).unwrap().get_item_quantity(0), 9);
    map.remove_placeable(3, 1);
    map.remove_placeable(5, 1);
    assert_eq!(map.get_placeable_at(3, 1), None);
    assert!(map.get_chest_data(3, 1).is_none());
    assert!(!map.has_belt_item(5, 1));
    assert_eq!(map.placeable_objects().len(), 3);
    assert_eq!(map.get_placeable_at(4, 1), Some(PlaceableType::Drill));
    assert_eq!(
        map.tiles_of_kind(PlaceableType::Furnace),
        vec![(1, 1)]
    );
}

#[test]
fn furnaces_and_chests_block_movement() {
    let mut map = GameMap::new(20, 20);
    map.add_placeable(1, 1, PlaceableType::Furnace);
    map.add_placeable(2, 1, PlaceableType::Arm);
    map.add_placeable(3, 1, PlaceableType::Chest);
    map.add_placeable(4, 1, PlaceableType::Drill);
    map.add_placeable(5, 1, PlaceableType::Belt);
    assert!(map.would_collide_with_placeable(1, 1));
    assert!(!map.would_collide_with_placeable(2, 1));
    assert!(map.would_collide_with_placeable(3, 1));
    assert!(!map.would_collide_with_placeable(4, 1));
    assert!(!map.would_collide_with_placeable(5, 1));
    assert!(!map.would_collide_with_placeable(6, 1));
}

#[test]
fn lookups_find_the_first_entry() {
    let mut map = GameMap::new(20, 20);
    map.add_resource(Resource::new(2, 2, ResourceType::Coal));
    map.add_resource(Resource::new(2, 2, ResourceType::Stone));
    assert_eq!(map.get_resource_at(2, 2), Some(ResourceType::Coal));
    assert_eq!(map.get_resource_at(2, 3), None);
    map.add_dropped_item(DroppedItem::new(4, 4, Item::Coal, 1));
    map.add_dropped_item(DroppedItem::new(5, 4, Item::Stone, 2));
    map.add_dropped_item(DroppedItem::new(5, 4, Item::Belt, 3));
    assert_eq!(map.get_dropped_item_index_at(5, 4), Some(1));
    assert_eq!(map.get_dropped_item_index_at(6, 4), None);
    map.remove_dropped_item(1);
    assert_eq!(map.get_dropped_item_index_at(5, 4), Some(1));
    assert_eq!(map.dropped_items()[1].item(), Item::Belt);
    map.remove_dropped_item(7);
    assert_eq!(map.dropped_items().len(), 2);
    map.set_dropped_item(0, DroppedItem::new(4, 4, Item::Coal, 0));
    map.purge_empty_stacks();
    assert_eq!(map.dropped_items().len(), 1);
    assert_eq!(map.dropped_items()[0].x(), 5);
}

#[test]
fn neighbors_stop_at_the_edges() {
    let map = GameMap::new(10, 8);
    assert_eq!(map.neighbor(0, 0, Direction::North), None);
    assert_eq!(map.neighbor(0, 0, Direction::West), None);
    assert_eq!(map.neighbor(4, 0, Direction::North), None);
    assert_eq!(map.neighbor(0, 4, Direction::West), None);
    assert_eq!(map.neighbor(1, 1, Direction::North), Some((1, 0)));
    assert_eq!(map.neighbor(1, 1, Direction::West), Some((0, 1)));
    assert_eq!(map.neighbor(0, 0, Direction::South), Some((0, 1)));
    assert_eq!(map.neighbor(9, 7, Direction::East), None);
    assert_eq!(map.neighbor(9, 7, Direction::South), None);
    assert_eq!(map.neighbor(9, 7, Direction::North), Some((9, 6)));
    assert_eq!(map.neighbor(u32::MAX, 3, Direction::East), None);
    assert!(map.in_bounds(9, 7));
    assert!(!map.in_bounds(10, 7));
    assert_eq!(map.width(), 10);
    assert_eq!(map.height(), 8);
}

#[test]
fn dropped_item_quantities() {
    let mut d = DroppedItem::new(1, 2, Item::Arm, 3);
    d.add_quantity(2);
    assert_eq!(d.quantity(), 5);
    assert!(!d.remove_quantity(6));
    assert_eq!(d.quantity(), 5);
    assert!(d.remove_quantity(5));
    assert_eq!(d.quantity(), 0);
    d.set_position(8, 9);
    assert_eq!((d.x(), d.y()), (8, 9));
    assert_eq!(d.item(), Item::Arm);
}
