use factory_sim::crafting::{
    get_crafting_recipes, handle_arm_crafting, handle_belt_crafting, handle_chest_crafting,
    handle_crafting, handle_drill_crafting,
};
use factory_sim::game_state::{GameState, InputKeys};
use factory_sim::handlers::{
    cycle_inventory_selection, get_container_at_cursor_or_front, get_furnace_at_cursor_or_front,
    handle_belt_rotation, handle_drop_item, handle_furnace_add_item, handle_mining, handle_pickup,
    handle_pickup_placeable, handle_placement, handle_player_movement,
};
use factory_sim::map::{DroppedItem, GameMap, Resource, WaterPatch};
use factory_sim::types::{Direction, Item, PlaceableType, ResourceType};

fn world(width: u32, height: u32) -> GameState {
    GameState::from_map(GameMap::new(width, height))
}

fn give(state: &mut GameState, item: Item, n: u32) {
    for _ in 0..n {
        state.player_mut().add_to_inventory(item);
    }
    state.validate_selection();
}

fn select(state: &mut GameState, item: Item) {
    state.set_selected_item(Some(item));
}

fn aim(state: &mut GameState, x: u32, y: u32) {
    state.set_cursor(Some(x), Some(y));
}

fn last_message(state: &GameState) -> String {
    state.get_console_messages().last().cloned().unwrap_or_default()
}

fn message_count(state: &GameState) -> usize {
    state.get_console_messages().len()
}

#[test]
fn movement_waits_for_the_delay_and_follows_the_keys() {
    let mut state = world(10, 10);
    assert_eq!((state.player_x(), state.player_y()), (5, 5));
    let mut keys = InputKeys::none();
    keys.w = true;
    handle_player_movement(&mut state, &keys, 10);
    assert_eq!((state.player_x(), state.player_y()), (5, 5));
    assert_eq!(state.last_movement_time(), 0);
    handle_player_movement(&mut state, &keys, 20);
    assert_eq!((state.player_x(), state.player_y()), (5, 4));
    assert_eq!(state.player_direction(), Direction::North);
    assert_eq!(state.last_movement_time(), 20);
    keys.w = false;
    keys.d = true;
    handle_player_movement(&mut state, &keys, 39);
    assert_eq!((state.player_x(), state.player_y()), (5, 4));
    handle_player_movement(&mut state, &keys, 40);
    assert_eq!((state.player_x(), state.player_y()), (6, 4));
    assert_eq!(state.player_direction(), Direction::East);
    keys.w = true;
    handle_player_movement(&mut state, &keys, 100);
    assert_eq!((state.player_x(), state.player_y()), (7, 3));
    assert_eq!(state.player_direction(), Direction::East);
    let mut both = InputKeys::none();
    both.w = true;
    both.s = true;
    handle_player_movement(&mut state, &both, 200);
    assert_eq!((state.player_x(), state.player_y()), (7, 3));
    assert_eq!(state.player_direction(), Direction::South);
    assert_eq!(state.last_movement_time(), 200);
    handle_player_movement(&mut state, &InputKeys::none(), 300);
    assert_eq!(state.last_movement_time(), 200);
    handle_player_movement(&mut state, &both, 100);
    assert_eq!(state.last_movement_time(), 200);
}

#[test]
fn movement_stops_at_edges_water_and_blocking_machines() {
    let mut state = world(10, 10);
    state.set_player_position(0, 0);
    let mut keys = InputKeys::none();
    keys.w = true;
    keys.a = true;
    handle_player_movement(&mut state, &keys, 50);
    assert_eq!((state.player_x(), state.player_y()), (0, 0));
    assert_eq!(state.player_direction(), Direction::South);
    assert_eq!(state.last_movement_time(), 50);
    state.set_player_position(9, 9);
    let mut far = InputKeys::none();
    far.s = true;
    far.d = true;
    handle_player_movement(&mut state, &far, 100);
    assert_eq!((state.player_x(), state.player_y()), (9, 9));

    state.set_player_position(5, 5);
    state.map_mut().add_water_patch(WaterPatch::new(5, 4, 1, 1));
    state.map_mut().add_placeable(6, 5, PlaceableType::Furnace);
    state.map_mut().add_placeable(4, 5, PlaceableType::Belt);
    state.map_mut().add_placeable(5, 6, PlaceableType::Chest);
    let mut up = InputKeys::none();
    up.w = true;
    handle_player_movement(&mut state, &up, 200);
    assert_eq!((state.player_x(), state.player_y()), (5, 5));
    assert_eq!(state.last_movement_time(), 100);
    let mut right = InputKeys::none();
    right.d = true;
    handle_player_movement(&mut state, &right, 300);
    assert_eq!((state.player_x(), state.player_y()), (5, 5));
    let mut down = InputKeys::none();
    down.s = true;
    handle_player_movement(&mut state, &down, 400);
    assert_eq!((state.player_x(), state.player_y()), (5, 5));
    let mut left = InputKeys::none();
    left.a = true;
    handle_player_movement(&mut state, &left, 500);
    assert_eq!((state.player_x(), state.player_y()), (4, 5));
    assert_eq!(state.player_direction(), Direction::West);
}

#[test]
fn mining_takes_the_first_deposit_around_the_player() {
    let mut state = world(10, 10);
    handle_mining(&mut state);
    assert_eq!(message_count(&state), 0);
    state.map_mut().add_resource(Resource::new(6, 5, ResourceType::Coal));
    state.map_mut().add_resource(Resource::new(4, 4, ResourceType::IronOre));
    state.map_mut().add_resource(Resource::new(5, 5, ResourceType::Stone));
    handle_mining(&mut state);
    assert_eq!(state.iron_ore_count(), 1);
    assert_eq!(state.coal_count(), 0);
    assert_eq!(state.stone_count(), 0);
    assert_eq!(last_message(&state), "Mined Iron Ore! Total: 1");
    assert_eq!(state.get_selected_item(), Some(Item::IronOre));
    state.mine();
    assert_eq!(last_message(&state), "Mined Iron Ore! Total: 2");

    let mut corner = world(10, 10);
    corner.set_player_position(0, 0);
    corner.map_mut().add_resource(Resource::new(1, 1, ResourceType::Copper));
    handle_mining(&mut corner);
    assert_eq!(corner.copper_count(), 1);
    assert_eq!(last_message(&corner), "Mined Copper! Total: 1");
}

#[test]
fn recipes_are_the_fixed_table() {
    let recipes = get_crafting_recipes();
    assert_eq!(recipes.len(), 5);
    assert_eq!(recipes[0].result, Item::Furnace);
    assert_eq!(recipes[0].ingredients, vec![(Item::Stone, 5)]);
    assert_eq!(recipes[1].result, Item::Belt);
    assert_eq!(recipes[1].ingredients, vec![(Item::IronPlate, 1)]);
    assert_eq!(recipes[2].result, Item::Arm);
    assert_eq!(recipes[2].ingredients, vec![(Item::CopperPlate, 1)]);
    assert_eq!(recipes[3].result, Item::Chest);
    assert_eq!(recipes[3].ingredients, vec![(Item::IronPlate, 1)]);
    assert_eq!(recipes[4].result, Item::Drill);
    assert_eq!(recipes[4].ingredients, vec![(Item::IronOre, 5)]);
}

#[test]
fn crafting_spends_the_ingredients_or_names_the_shortfall() {
    let mut state = world(10, 10);
    give(&mut state, Item::Stone, 4);
    handle_crafting(&mut state);
    assert_eq!(state.stone_count(), 4);
    assert_eq!(state.furnace_count(), 0);
    assert_eq!(last_message(&state), "Not enough resources! Need 5 Stone (have 4)");
    give(&mut state, Item::Stone, 2);
    handle_crafting(&mut state);
    assert_eq!(state.stone_count(), 1);
    assert_eq!(state.furnace_count(), 1);
    assert_eq!(last_message(&state), "Crafted Furnace!");

    handle_belt_crafting(&mut state);
    assert_eq!(last_message(&state), "Not enough resources! Need 1 Iron Plate (have 0)");
    give(&mut state, Item::IronPlate, 2);
    handle_belt_crafting(&mut state);
    assert_eq!(last_message(&state), "Crafted Belt!");
    handle_chest_crafting(&mut state);
    assert_eq!(last_message(&state), "Crafted Chest!");
    assert_eq!(state.iron_plate_count(), 0);
    assert_eq!(state.belt_count(), 1);
    assert_eq!(state.chest_count(), 1);

    handle_arm_crafting(&mut state);
    assert_eq!(last_message(&state), "Not enough resources! Need 1 Copper Plate (have 0)");
    give(&mut state, Item::CopperPlate, 1);
    handle_arm_crafting(&mut state);
    assert_eq!(last_message(&state), "Crafted Arm!");
    assert_eq!(state.arm_count(), 1);
    assert_eq!(state.copper_plate_count(), 0);

    give(&mut state, Item::IronOre, 5);
    handle_drill_crafting(&mut state);
    assert_eq!(last_message(&state), "Crafted Drill!");
    assert_eq!(state.drill_count(), 1);
    assert_eq!(state.iron_ore_count(), 0);
    handle_drill_crafting(&mut state);
    assert_eq!(last_message(&state), "Not enough resources! Need 5 Iron Ore (have 0)");
}

#[test]
fn crafting_the_last_of_the_selection_reselects() {
    let mut state = world(10, 10);
    give(&mut state, Item::IronPlate, 1);
    assert_eq!(state.get_selected_item(), Some(Item::IronPlate));
    handle_belt_crafting(&mut state);
    assert_eq!(state.get_selected_item(), Some(Item::Belt));
}

#[test]
fn placement_names_the_first_obstacle() {
    let mut state = world(10, 10);
    aim(&mut state, 10, 3);
    handle_placement(&mut state);
    assert_eq!(last_message(&state), "Cannot place outside map bounds!");
    aim(&mut state, 7, 7);
    handle_placement(&mut state);
    assert_eq!(last_message(&state), "No item selected!");
    give(&mut state, Item::Coal, 1);
    handle_placement(&mut state);
    assert_eq!(last_message(&state), "Selected item cannot be placed!");
    select(&mut state, Item::Furnace);
    handle_placement(&mut state);
    assert_eq!(last_message(&state), "No furnace in inventory!");
    give(&mut state, Item::Furnace, 2);
    give(&mut state, Item::Drill, 1);
    select(&mut state, Item::Furnace);
    state.map_mut().add_water_patch(WaterPatch::new(7, 7, 1, 1));
    handle_placement(&mut state);
    assert_eq!(last_message(&state), "Cannot place on water!");
    aim(&mut state, 6, 6);
    state.map_mut().add_resource(Resource::new(6, 6, ResourceType::Stone));
    handle_placement(&mut state);
    assert_eq!(last_message(&state), "Cannot place on resource!");
    assert_eq!(state.furnace_count(), 2);
    select(&mut state, Item::Drill);
    handle_placement(&mut state);
    assert_eq!(last_message(&state), "Cannot place on resource!");
    assert_eq!(state.drill_count(), 1);
    assert_eq!(state.map().get_placeable_at(6, 6), None);
    assert!(state.get_drill_data(6, 6).is_none());
    assert!(state.placeable_objects().is_empty());
    aim(&mut state, 6, 5);
    state.map_mut().add_resource(Resource::new(6, 5, ResourceType::IronOre));
    handle_placement(&mut state);
    assert_eq!(last_message(&state), "Placed drill!");
    assert_eq!(state.drill_count(), 0);
    assert_eq!(state.map().get_placeable_at(6, 5), Some(PlaceableType::Drill));
    assert_eq!(state.get_selected_item(), Some(Item::Coal));
    select(&mut state, Item::Furnace);
    handle_placement(&mut state);
    assert_eq!(last_message(&state), "Position already occupied!");
    aim(&mut state, 2, 2);
    handle_placement(&mut state);
    assert_eq!(last_message(&state), "Placed furnace!");
    assert_eq!(state.furnace_count(), 1);
    assert_eq!(state.map().get_placeable_at(2, 2), Some(PlaceableType::Furnace));
    assert_eq!(state.map().get_placeable_object_at(2, 2).unwrap().direction(), Direction::East);
    assert_eq!(state.placeable_objects().len(), 2);
}

#[test]
fn placement_without_a_cursor_goes_in_front_of_the_player() {
    let mut state = world(10, 10);
    give(&mut state, Item::Belt, 3);
    handle_placement(&mut state);
    assert_eq!(state.map().get_placeable_at(5, 6), Some(PlaceableType::Belt));
    state.set_player_direction(Direction::West);
    handle_placement(&mut state);
    assert_eq!(state.map().get_placeable_at(4, 5), Some(PlaceableType::Belt));
    state.set_player_position(3, 0);
    state.set_player_direction(Direction::North);
    handle_placement(&mut state);
    assert_eq!(last_message(&state), "Cannot place outside map bounds!");
    assert_eq!(state.map().get_placeable_at(3, 0), None);
    state.set_player_position(0, 3);
    state.set_player_direction(Direction::West);
    handle_placement(&mut state);
    assert_eq!(last_message(&state), "Cannot place outside map bounds!");
    assert_eq!(state.map().get_placeable_at(0, 3), None);
    state.set_player_position(9, 9);
    state.set_player_direction(Direction::East);
    handle_placement(&mut state);
    assert_eq!(last_message(&state), "Cannot place outside map bounds!");
    state.set_player_direction(Direction::South);
    handle_placement(&mut state);
    assert_eq!(last_message(&state), "Cannot place outside map bounds!");
    assert_eq!(state.belt_count(), 1);
    assert_eq!(state.get_selected_item(), Some(Item::Belt));
    assert_eq!(state.placeable_objects().len(), 2);
}

#[test]
fn at_the_edge_the_player_aims_off_the_map() {
    let mut state = world(10, 10);
    give(&mut state, Item::Coal, 2);
    state.set_player_position(0, 0);
    state.map_mut().add_dropped_item(DroppedItem::new(0, 0, Item::Stone, 3));
    state.map_mut().add_placeable(0, 0, PlaceableType::Belt);
    for facing in [Direction::North, Direction::West] {
        state.set_player_direction(facing);
        handle_drop_item(&mut state);
        assert_eq!(last_message(&state), "Cannot drop outside map bounds!");
        assert_eq!(get_container_at_cursor_or_front(&state), None);
        let before = message_count(&state);
        handle_pickup(&mut state);
        handle_belt_rotation(&mut state);
        handle_pickup_placeable(&mut state);
        assert_eq!(message_count(&state), before);
    }
    assert_eq!(state.coal_count(), 2);
    assert_eq!(state.stone_count(), 0);
    assert_eq!(state.dropped_items().len(), 1);
    assert_eq!(state.map().get_placeable_object_at(0, 0).unwrap().direction(), Direction::East);
}

#[test]
fn selection_follows_the_inventory_and_cycles_with_wrapping() {
    let mut state = world(10, 10);
    state.validate_selection();
    assert_eq!(state.get_selected_item(), None);
    assert_eq!(state.get_selected_item_index_in_available(), -1);
    cycle_inventory_selection(&mut state, 1);
    assert_eq!(state.get_selected_item(), None);
    give(&mut state, Item::Drill, 1);
    give(&mut state, Item::Coal, 2);
    give(&mut state, Item::Belt, 1);
    assert_eq!(state.get_selected_item(), Some(Item::Drill));
    assert_eq!(state.get_available_items(), vec![Item::Coal, Item::Belt, Item::Drill]);
    assert_eq!(state.get_selected_item_index_in_available(), 2);
    cycle_inventory_selection(&mut state, 1);
    assert_eq!(state.get_selected_item(), Some(Item::Coal));
    cycle_inventory_selection(&mut state, 1);
    assert_eq!(state.get_selected_item(), Some(Item::Belt));
    assert_eq!(state.get_selected_item_index_in_available(), 1);
    cycle_inventory_selection(&mut state, -1);
    assert_eq!(state.get_selected_item(), Some(Item::Coal));
    cycle_inventory_selection(&mut state, -1);
    assert_eq!(state.get_selected_item(), Some(Item::Drill));
    cycle_inventory_selection(&mut state, 0);
    assert_eq!(state.get_selected_item(), Some(Item::Belt));
    select(&mut state, Item::Stone);
    assert_eq!(state.get_selected_item_index_in_available(), -1);
    cycle_inventory_selection(&mut state, 1);
    assert_eq!(state.get_selected_item(), Some(Item::Belt));
    select(&mut state, Item::Stone);
    state.validate_selection();
    assert_eq!(state.get_selected_item(), Some(Item::Coal));
    assert_eq!(state.selected_item(), Some(Item::Coal));
}

#[test]
fn containers_are_found_at_the_target() {
    let mut state = world(10, 10);
    state.map_mut().add_placeable(5, 6, PlaceableType::Chest);
    state.map_mut().add_placeable(2, 2, PlaceableType::Furnace);
    state.map_mut().add_placeable(3, 2, PlaceableType::Belt);
    state.map_mut().add_placeable(4, 2, PlaceableType::Drill);
    state.map_mut().add_placeable(6, 2, PlaceableType::Arm);
    assert_eq!(get_container_at_cursor_or_front(&state), Some(((5, 6), PlaceableType::Chest)));
    assert_eq!(get_furnace_at_cursor_or_front(&state), None);
    aim(&mut state, 2, 2);
    assert_eq!(get_container_at_cursor_or_front(&state), Some(((2, 2), PlaceableType::Furnace)));
    assert_eq!(get_furnace_at_cursor_or_front(&state), Some((2, 2)));
    aim(&mut state, 3, 2);
    assert_eq!(get_container_at_cursor_or_front(&state), None);
    aim(&mut state, 4, 2);
    assert_eq!(get_container_at_cursor_or_front(&state), Some(((4, 2), PlaceableType::Drill)));
    aim(&mut state, 6, 2);
    assert_eq!(get_container_at_cursor_or_front(&state), None);
    aim(&mut state, 40, 2);
    assert_eq!(get_container_at_cursor_or_front(&state), None);
    assert_eq!(state.cursor_x(), Some(40));
    assert_eq!(state.cursor_y(), Some(2));
}

#[test]
fn feeding_a_chest_takes_any_kind() {
    let mut state = world(10, 10);
    handle_furnace_add_item(&mut state);
    assert_eq!(last_message(&state), "No furnace, chest, or drill in front of you!");
    state.map_mut().add_placeable(5, 6, PlaceableType::Chest);
    handle_furnace_add_item(&mut state);
    assert_eq!(last_message(&state), "No item selected!");
    give(&mut state, Item::IronPlate, 2);
    handle_furnace_add_item(&mut state);
    assert_eq!(last_message(&state), "Added Iron Plate to chest!");
    handle_furnace_add_item(&mut state);
    assert_eq!(state.iron_plate_count(), 0);
    assert_eq!(state.get_selected_item(), None);
    let chest = state.get_chest_data(5, 6).unwrap();
    assert_eq!(chest.get_all_items(), vec![Item::IronPlate]);
    assert_eq!(chest.get_item_quantity(0), 2);
    select(&mut state, Item::IronPlate);
    handle_furnace_add_item(&mut state);
    assert_eq!(last_message(&state), "No Iron Plate in inventory!");
}

#[test]
fn feeding_a_drill_takes_coal_only() {
    let mut state = world(10, 10);
    state.map_mut().add_placeable(5, 6, PlaceableType::Drill);
    give(&mut state, Item::Stone, 1);
    handle_furnace_add_item(&mut state);
    assert_eq!(last_message(&state), "Drill only accepts coal!");
    select(&mut state, Item::Coal);
    handle_furnace_add_item(&mut state);
    assert_eq!(last_message(&state), "No coal in inventory!");
    give(&mut state, Item::Coal, 1);
    select(&mut state, Item::Coal);
    handle_furnace_add_item(&mut state);
    assert_eq!(last_message(&state), "Added coal to drill!");
    assert_eq!(state.get_drill_data(5, 6).unwrap().coal_count(), 1);
    assert_eq!(state.coal_count(), 0);
    assert_eq!(state.get_selected_item(), Some(Item::Stone));
}

#[test]
fn feeding_a_furnace_takes_fuel_and_raw_material() {
    let mut state = world(10, 10);
    state.map_mut().add_placeable(5, 6, PlaceableType::Furnace);
    give(&mut state, Item::IronPlate, 1);
    handle_furnace_add_item(&mut state);
    assert_eq!(last_message(&state), "Furnace only accepts coal, iron ore, or copper!");
    select(&mut state, Item::IronOre);
    handle_furnace_add_item(&mut state);
    assert_eq!(last_message(&state), "No iron ore in inventory!");
    select(&mut state, Item::Copper);
    handle_furnace_add_item(&mut state);
    assert_eq!(last_message(&state), "No copper in inventory!");
    give(&mut state, Item::Coal, 1);
    give(&mut state, Item::IronOre, 1);
    give(&mut state, Item::Copper, 1);
    select(&mut state, Item::Coal);
    handle_furnace_add_item(&mut state);
    assert_eq!(last_message(&state), "Added coal to furnace!");
    select(&mut state, Item::IronOre);
    handle_furnace_add_item(&mut state);
    assert_eq!(last_message(&state), "Added iron ore to furnace!");
    select(&mut state, Item::Copper);
    handle_furnace_add_item(&mut state);
    assert_eq!(last_message(&state), "Added copper to furnace!");
    let f = state.get_furnace_data(5, 6).unwrap();
    assert_eq!((f.coal_count(), f.iron_ore_count(), f.copper_count()), (1, 1, 1));
    assert_eq!(state.coal_count() + state.iron_ore_count() + state.copper_count(), 0);
    assert_eq!(state.get_selected_item(), Some(Item::IronPlate));
}

#[test]
fn pickup_prefers_belt_then_ground_then_furnace() {
    let mut state = world(10, 10);
    handle_pickup(&mut state);
    assert_eq!(message_count(&state), 0);
    state.map_mut().add_placeable(5, 6, PlaceableType::Belt);
    state.map_mut().set_belt_item(5, 6, DroppedItem::new(5, 6, Item::Coal, 3));
    state.map_mut().add_dropped_item(DroppedItem::new(5, 6, Item::Stone, 4));
    handle_pickup(&mut state);
    assert_eq!(last_message(&state), "Picked up 3 Coal from belt!");
    assert_eq!(state.coal_count(), 3);
    assert!(state.map().get_belt_item(5, 6).is_none());
    assert_eq!(state.get_selected_item(), Some(Item::Coal));
    handle_pickup(&mut state);
    assert_eq!(last_message(&state), "Picked up 4 Stone!");
    assert_eq!(state.stone_count(), 4);
    assert!(state.dropped_items().is_empty());
    handle_pickup(&mut state);
    assert_eq!(message_count(&state), 2);

    aim(&mut state, 2, 2);
    state.map_mut().add_placeable(2, 2, PlaceableType::Furnace);
    handle_pickup(&mut state);
    assert_eq!(last_message(&state), "No plates in furnace!");
    let mut f = state.get_furnace_data(2, 2).unwrap();
    f.add_copper_plate();
    f.add_iron_plate();
    state.map_mut().set_furnace_data(2, 2, f);
    handle_pickup(&mut state);
    assert_eq!(last_message(&state), "Harvested iron plate!");
    handle_pickup(&mut state);
    assert_eq!(last_message(&state), "Harvested copper plate!");
    assert_eq!(state.iron_plate_count(), 1);
    assert_eq!(state.copper_plate_count(), 1);
    let f = state.get_furnace_data(2, 2).unwrap();
    assert_eq!((f.iron_plate_count(), f.copper_plate_count()), (0, 0));
    aim(&mut state, 30, 30);
    handle_pickup(&mut state);
    assert_eq!(last_message(&state), "Harvested copper plate!");
}

#[test]
fn rotation_turns_belts_arms_and_drills_clockwise() {
    let mut state = world(10, 10);
    state.map_mut().add_placeable(5, 6, PlaceableType::Belt);
    state.map_mut().add_placeable(2, 2, PlaceableType::Furnace);
    state.map_mut().add_placeable(3, 2, PlaceableType::Arm);
    state.map_mut().add_placeable(4, 2, PlaceableType::Drill);
    handle_belt_rotation(&mut state);
    assert_eq!(last_message(&state), "Rotated belt to South!");
    handle_belt_rotation(&mut state);
    assert_eq!(last_message(&state), "Rotated belt to West!");
    handle_belt_rotation(&mut state);
    assert_eq!(last_message(&state), "Rotated belt to North!");
    handle_belt_rotation(&mut state);
    assert_eq!(last_message(&state), "Rotated belt to East!");
    assert_eq!(state.map().get_placeable_object_at(5, 6).unwrap().direction(), Direction::East);
    aim(&mut state, 2, 2);
    handle_belt_rotation(&mut state);
    assert_eq!(message_count(&state), 4);
    assert_eq!(state.map().get_placeable_object_at(2, 2).unwrap().direction(), Direction::East);
    aim(&mut state, 3, 2);
    handle_belt_rotation(&mut state);
    assert_eq!(last_message(&state), "Rotated arm to South!");
    aim(&mut state, 4, 2);
    handle_belt_rotation(&mut state);
    assert_eq!(last_message(&state), "Rotated drill to South!");
    aim(&mut state, 8, 8);
    handle_belt_rotation(&mut state);
    aim(&mut state, 80, 8);
    handle_belt_rotation(&mut state);
    assert_eq!(message_count(&state), 6);
}

#[test]
fn dropping_names_the_first_obstacle() {
    let mut state = world(10, 10);
    aim(&mut state, 10, 10);
    handle_drop_item(&mut state);
    assert_eq!(last_message(&state), "Cannot drop outside map bounds!");
    state.map_mut().add_water_patch(WaterPatch::new(1, 1, 2, 2));
    aim(&mut state, 2, 2);
    handle_drop_item(&mut state);
    assert_eq!(last_message(&state), "Cannot drop on water!");
    state.map_mut().add_placeable(4, 4, PlaceableType::Furnace);
    state.map_mut().add_placeable(4, 5, PlaceableType::Chest);
    aim(&mut state, 4, 4);
    handle_drop_item(&mut state);
    assert_eq!(last_message(&state), "Cannot drop on furnace or chest!");
    aim(&mut state, 4, 5);
    handle_drop_item(&mut state);
    assert_eq!(last_message(&state), "Cannot drop on furnace or chest!");
    aim(&mut state, 7, 7);
    state.map_mut().add_dropped_item(DroppedItem::new(0, 0, Item::Coal, 1));
    handle_drop_item(&mut state);
    assert_eq!(last_message(&state), "No item selected!");
    select(&mut state, Item::Coal);
    handle_drop_item(&mut state);
    assert_eq!(last_message(&state), "No items to drop!");
    assert_eq!(state.dropped_items().len(), 1);
}

#[test]
fn dropping_stacks_by_kind() {
    let mut state = world(10, 10);
    give(&mut state, Item::Coal, 3);
    give(&mut state, Item::Stone, 1);
    select(&mut state, Item::Coal);
    aim(&mut state, 7, 7);
    handle_drop_item(&mut state);
    assert_eq!(last_message(&state), "Dropped 1 Coal!");
    handle_drop_item(&mut state);
    let stacks = state.dropped_items();
    assert_eq!(stacks.len(), 1);
    assert_eq!((stacks[0].x(), stacks[0].y(), stacks[0].quantity()), (7, 7, 2));
    assert_eq!(stacks[0].item(), Item::Coal);
    assert_eq!(state.coal_count(), 1);
    select(&mut state, Item::Stone);
    handle_drop_item(&mut state);
    assert_eq!(last_message(&state), "Cannot drop on different item!");
    assert_eq!(state.stone_count(), 1);
    select(&mut state, Item::Coal);
    handle_drop_item(&mut state);
    assert_eq!(state.dropped_items()[0].quantity(), 3);
    assert_eq!(state.get_selected_item(), Some(Item::Stone));
}

#[test]
fn dropping_on_a_belt_puts_one_item_on_it() {
    let mut state = world(10, 10);
    give(&mut state, Item::IronOre, 2);
    state.map_mut().add_placeable(5, 6, PlaceableType::Belt);
    handle_drop_item(&mut state);
    assert_eq!(last_message(&state), "Placed 1 Iron Ore on belt!");
    let riding = state.map().get_belt_item(5, 6).unwrap();
    assert_eq!((riding.x(), riding.y(), riding.quantity()), (5, 6, 1));
    assert_eq!(riding.item(), Item::IronOre);
    assert!(state.dropped_items().is_empty());
    assert_eq!(state.belt_items().len(), 1);
    handle_drop_item(&mut state);
    assert_eq!(last_message(&state), "Belt already has an item!");
    assert_eq!(state.iron_ore_count(), 1);
    state.map_mut().add_placeable(6, 6, PlaceableType::Arm);
    aim(&mut state, 6, 6);
    handle_drop_item(&mut state);
    assert_eq!(last_message(&state), "Dropped 1 Iron Ore!");
    assert_eq!(state.dropped_items().len(), 1);
}

#[test]
fn picking_up_a_chest_returns_what_it_held() {
    let mut state = world(10, 10);
    give(&mut state, Item::Chest, 1);
    give(&mut state, Item::Coal, 4);
    give(&mut state, Item::IronPlate, 2);
    give(&mut state, Item::Stone, 1);
    select(&mut state, Item::Chest);
    handle_placement(&mut state);
    assert_eq!(state.chest_count(), 0);
    for item in [Item::Coal, Item::IronPlate, Item::Coal, Item::Coal, Item::IronPlate] {
        select(&mut state, item);
        handle_furnace_add_item(&mut state);
    }
    assert_eq!(state.coal_count(), 1);
    assert_eq!(state.iron_plate_count(), 0);
    handle_pickup_placeable(&mut state);
    assert_eq!(last_message(&state), "Picked up chest with all contents!");
    assert_eq!(state.coal_count(), 4);
    assert_eq!(state.iron_plate_count(), 2);
    assert_eq!(state.stone_count(), 1);
    assert_eq!(state.chest_count(), 1);
    assert_eq!(state.map().get_placeable_at(5, 6), None);
    assert!(state.get_chest_data(5, 6).is_none());
    assert!(state.placeable_objects().is_empty());
    handle_pickup_placeable(&mut state);
    assert_eq!(state.chest_count(), 1);
}

#[test]
fn picking_up_machines_returns_their_contents() {
    let mut state = world(10, 10);
    state.map_mut().add_placeable(1, 1, PlaceableType::Furnace);
    state.map_mut().add_placeable(2, 1, PlaceableType::Belt);
    state.map_mut().add_placeable(3, 1, PlaceableType::Arm);
    state.map_mut().add_placeable(4, 1, PlaceableType::Drill);
    let mut f = state.get_furnace_data(1, 1).unwrap();
    f.add_coal();
    f.add_coal();
    f.add_iron_ore();
    f.add_copper();
    f.add_iron_plate();
    f.add_copper_plate();
    state.map_mut().set_furnace_data(1, 1, f);
    state.map_mut().set_belt_item(2, 1, DroppedItem::new(2, 1, Item::Stone, 6));
    let mut d = state.get_drill_data(4, 1).unwrap();
    d.add_coal();
    state.map_mut().set_drill_data(4, 1, d);

    aim(&mut state, 1, 1);
    handle_pickup_placeable(&mut state);
    assert_eq!(last_message(&state), "Picked up furnace with all contents!");
    assert_eq!(state.coal_count(), 2);
    assert_eq!(state.iron_ore_count(), 1);
    assert_eq!(state.copper_count(), 1);
    assert_eq!(state.iron_plate_count(), 1);
    assert_eq!(state.copper_plate_count(), 1);
    assert_eq!(state.furnace_count(), 1);
    assert!(state.get_furnace_data(1, 1).is_none());
    assert_eq!(state.get_selected_item(), Some(Item::IronOre));
    aim(&mut state, 2, 1);
    handle_pickup_placeable(&mut state);
    assert_eq!(last_message(&state), "Picked up belt!");
    assert_eq!(state.stone_count(), 6);
    assert_eq!(state.belt_count(), 1);
    assert!(state.map().get_belt_item(2, 1).is_none());
    aim(&mut state, 3, 1);
    handle_pickup_placeable(&mut state);
    assert_eq!(last_message(&state), "Picked up arm!");
    assert_eq!(state.arm_count(), 1);
    aim(&mut state, 4, 1);
    handle_pickup_placeable(&mut state);
    assert_eq!(last_message(&state), "Picked up drill with all contents!");
    assert_eq!(state.coal_count(), 3);
    assert_eq!(state.drill_count(), 1);
    assert!(state.placeable_objects().is_empty());
    aim(&mut state, 99, 1);
    handle_pickup_placeable(&mut state);
    assert_eq!(message_count(&state), 4);
}

#[test]
fn console_keeps_the_newest_fifty_messages() {
    let mut state = world(10, 10);
    for n in 0..60 {
        state.add_console_message(format!("message {}", n));
    }
    let log = state.get_console_messages();
    assert_eq!(log.len(), 50);
    assert_eq!(log[0], "message 10");
    assert_eq!(log[49], "message 59");
}

#[test]
fn iron_ore_is_listed_apart() {
    let mut state = world(10, 10);
    state.map_mut().add_resource(Resource::new(1, 2, ResourceType::Coal));
    state.map_mut().add_resource(Resource::new(3, 4, ResourceType::IronOre));
    state.map_mut().add_resource(Resource::new(5, 6, ResourceType::IronOre));
    let ore = state.iron_ore();
    assert_eq!(ore.len(), 2);
    assert_eq!((ore[0].x(), ore[0].y()), (3, 4));
    assert_eq!((ore[1].x(), ore[1].y()), (5, 6));
    assert_eq!(state.resources().len(), 3);
    assert!(state.water_patches().is_empty());
}
