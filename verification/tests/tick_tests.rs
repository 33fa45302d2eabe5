use factory_sim::conveyor::{belts_in_service_order, run_belts};
use factory_sim::game_state::{GameState, InputKeys};
use factory_sim::handlers::{
    handle_arm_tick_processing, handle_belt_tick_processing, handle_drill_tick_processing,
    handle_furnace_tick_processing,
};
use factory_sim::map::{DroppedItem, GameMap, PlaceableObject, Resource, WaterPatch};
use factory_sim::types::{Direction, Item, PlaceableType, ResourceType};

fn world(width: u32, height: u32) -> GameState {
    GameState::from_map(GameMap::new(width, height))
}

fn turn(state: &mut GameState, x: u32, y: u32, direction: Direction) {
    state.map_mut().set_placeable_direction(x, y, direction);
}

fn ground(state: &GameState) -> Vec<(u32, u32, Item, u32)> {
    state.dropped_items().iter().map(|d| (d.x(), d.y(), d.item(), d.quantity())).collect()
}

fn riding(state: &GameState, x: u32, y: u32) -> Option<(u32, u32, Item, u32)> {
    state.map().get_belt_item(x, y).map(|d| (d.x(), d.y(), d.item(), d.quantity()))
}

fn coal_drill(state: &mut GameState, x: u32, y: u32, coal: u32) {
    state.map_mut().add_placeable(x, y, PlaceableType::Drill);
    let mut d = state.get_drill_data(x, y).unwrap();
    for _ in 0..coal {
        d.add_coal();
    }
    state.map_mut().set_drill_data(x, y, d);
}

fn step(state: &mut GameState, keys: &InputKeys, now: u64) {
    state.next_step(keys, now, None, None);
}

#[test]
fn furnaces_tick_and_report_their_plates() {
    let mut state = world(20, 20);
    state.map_mut().add_placeable(3, 4, PlaceableType::Furnace);
    state.map_mut().add_placeable(8, 8, PlaceableType::Furnace);
    let mut f = state.get_furnace_data(3, 4).unwrap();
    f.add_coal();
    f.add_coal();
    f.add_iron_ore();
    f.add_copper();
    state.map_mut().set_furnace_data(3, 4, f);
    for _ in 0..59 {
        handle_furnace_tick_processing(&mut state);
    }
    assert!(state.get_console_messages().is_empty());
    assert_eq!(state.get_furnace_data(3, 4).unwrap().processing_ticks_remaining(), 1);
    handle_furnace_tick_processing(&mut state);
    assert_eq!(state.get_console_messages(), vec!["Furnace at (3, 4) produced an iron plate!"]);
    let f = state.get_furnace_data(3, 4).unwrap();
    assert_eq!(
        (f.coal_count(), f.iron_ore_count(), f.iron_plate_count(), f.copper_count()),
        (1, 0, 1, 1)
    );
    for _ in 0..60 {
        handle_furnace_tick_processing(&mut state);
    }
    assert_eq!(
        state.get_console_messages(),
        vec![
            "Furnace at (3, 4) produced an iron plate!",
            "Furnace at (3, 4) produced a copper plate!"
        ]
    );
    let f = state.get_furnace_data(3, 4).unwrap();
    assert_eq!((f.coal_count(), f.copper_count(), f.copper_plate_count()), (0, 0, 1));
    assert_eq!(state.get_furnace_data(8, 8).unwrap().processing_ticks_remaining(), 0);
}

#[test]
fn a_drill_puts_out_one_item_per_cycle() {
    let mut state = world(20, 20);
    state.map_mut().add_resource(Resource::new(5, 5, ResourceType::IronOre));
    coal_drill(&mut state, 5, 5, 1);
    for _ in 0..59 {
        handle_drill_tick_processing(&mut state);
    }
    assert!(ground(&state).is_empty());
    assert_eq!(state.get_drill_data(5, 5).unwrap().coal_count(), 1);
    assert_eq!(state.get_drill_data(5, 5).unwrap().processing_ticks_remaining(), 1);
    handle_drill_tick_processing(&mut state);
    assert_eq!(ground(&state), vec![(6, 5, Item::IronOre, 1)]);
    assert_eq!(state.get_drill_data(5, 5).unwrap().coal_count(), 0);
    for _ in 0..200 {
        handle_drill_tick_processing(&mut state);
    }
    assert_eq!(ground(&state), vec![(6, 5, Item::IronOre, 1)]);
    assert_eq!(state.get_drill_data(5, 5).unwrap().processing_ticks_remaining(), 0);
}

#[test]
fn a_drill_adds_to_a_stack_of_its_kind_and_waits_for_another() {
    let mut state = world(20, 20);
    state.map_mut().add_resource(Resource::new(5, 5, ResourceType::Coal));
    coal_drill(&mut state, 5, 5, 3);
    for _ in 0..120 {
        handle_drill_tick_processing(&mut state);
    }
    assert_eq!(ground(&state), vec![(6, 5, Item::Coal, 2)]);
    assert_eq!(state.get_drill_data(5, 5).unwrap().coal_count(), 1);

    let mut other = world(20, 20);
    other.map_mut().add_resource(Resource::new(5, 5, ResourceType::Coal));
    coal_drill(&mut other, 5, 5, 3);
    other.map_mut().add_dropped_item(DroppedItem::new(6, 5, Item::Stone, 1));
    for _ in 0..120 {
        handle_drill_tick_processing(&mut other);
    }
    assert_eq!(ground(&other), vec![(6, 5, Item::Stone, 1)]);
    assert_eq!(other.get_drill_data(5, 5).unwrap().coal_count(), 3);
    assert_eq!(other.get_drill_data(5, 5).unwrap().processing_ticks_remaining(), 0);
}

#[test]
fn a_drill_over_stone_or_bare_ground_never_starts() {
    let mut state = world(20, 20);
    coal_drill(&mut state, 5, 5, 2);
    state.map_mut().add_resource(Resource::new(5, 5, ResourceType::Stone));
    coal_drill(&mut state, 9, 9, 2);
    for _ in 0..300 {
        handle_drill_tick_processing(&mut state);
    }
    assert!(ground(&state).is_empty());
    assert_eq!(state.get_drill_data(5, 5).unwrap().coal_count(), 2);
    assert_eq!(state.get_drill_data(5, 5).unwrap().processing_ticks_remaining(), 0);
    assert_eq!(state.get_drill_data(9, 9).unwrap().coal_count(), 2);
}

#[test]
fn a_drill_feeds_the_machine_it_faces() {
    let mut state = world(20, 20);
    for x in [2u32, 6, 10, 14, 17] {
        state.map_mut().add_resource(Resource::new(x, 5, ResourceType::Coal));
        coal_drill(&mut state, x, 5, 1);
    }
    state.map_mut().add_resource(Resource::new(2, 9, ResourceType::IronOre));
    coal_drill(&mut state, 2, 9, 1);
    state.map_mut().add_placeable(3, 5, PlaceableType::Chest);
    state.map_mut().add_placeable(7, 5, PlaceableType::Furnace);
    state.map_mut().add_placeable(11, 5, PlaceableType::Belt);
    state.map_mut().add_placeable(15, 5, PlaceableType::Arm);
    coal_drill(&mut state, 18, 5, 0);
    coal_drill(&mut state, 3, 9, 0);
    for _ in 0..60 {
        handle_drill_tick_processing(&mut state);
    }
    let chest = state.get_chest_data(3, 5).unwrap();
    assert_eq!(chest.get_all_items(), vec![Item::Coal]);
    assert_eq!(chest.get_item_quantity(0), 1);
    assert_eq!(state.get_furnace_data(7, 5).unwrap().coal_count(), 1);
    assert_eq!(riding(&state, 11, 5), Some((11, 5, Item::Coal, 1)));
    assert_eq!(state.get_drill_data(14, 5).unwrap().coal_count(), 1);
    assert_eq!(state.get_drill_data(14, 5).unwrap().processing_ticks_remaining(), 0);
    assert_eq!(state.get_drill_data(17, 5).unwrap().coal_count(), 0);
    assert_eq!(state.get_drill_data(18, 5).unwrap().coal_count(), 1);
    assert_eq!(state.get_drill_data(2, 9).unwrap().coal_count(), 1);
    assert_eq!(state.get_drill_data(3, 9).unwrap().coal_count(), 0);
    assert!(ground(&state).is_empty());
}

#[test]
fn a_drill_waits_for_a_full_belt_and_for_water() {
    let mut state = world(20, 20);
    state.map_mut().add_resource(Resource::new(5, 5, ResourceType::Copper));
    coal_drill(&mut state, 5, 5, 1);
    state.map_mut().add_placeable(6, 5, PlaceableType::Belt);
    state.map_mut().set_belt_item(6, 5, DroppedItem::new(6, 5, Item::Stone, 1));
    state.map_mut().add_resource(Resource::new(5, 9, ResourceType::Copper));
    coal_drill(&mut state, 5, 9, 1);
    state.map_mut().add_water_patch(WaterPatch::new(6, 9, 1, 1));
    state.map_mut().add_resource(Resource::new(19, 9, ResourceType::Copper));
    coal_drill(&mut state, 19, 9, 1);
    for _ in 0..100 {
        handle_drill_tick_processing(&mut state);
    }
    for (x, y) in [(5u32, 5u32), (5, 9), (19, 9)] {
        assert_eq!(state.get_drill_data(x, y).unwrap().coal_count(), 1);
        assert_eq!(state.get_drill_data(x, y).unwrap().processing_ticks_remaining(), 0);
    }
    assert_eq!(riding(&state, 6, 5), Some((6, 5, Item::Stone, 1)));
}

#[test]
fn a_belt_moves_its_stack_one_tile_every_thirty_ticks() {
    let mut state = world(20, 20);
    state.map_mut().add_placeable(5, 5, PlaceableType::Belt);
    state.map_mut().set_belt_item(5, 5, DroppedItem::new(5, 5, Item::Coal, 2));
    let keys = InputKeys::none();
    for n in 1..30u64 {
        step(&mut state, &keys, n);
        assert_eq!(riding(&state, 5, 5), Some((5, 5, Item::Coal, 2)));
    }
    step(&mut state, &keys, 30);
    assert_eq!(state.current_tick(), 30);
    assert_eq!(riding(&state, 5, 5), None);
    assert_eq!(ground(&state), vec![(6, 5, Item::Coal, 2)]);

    let mut onto = world(20, 20);
    onto.map_mut().add_placeable(5, 5, PlaceableType::Belt);
    onto.map_mut().add_placeable(6, 5, PlaceableType::Belt);
    onto.map_mut().set_belt_item(5, 5, DroppedItem::new(5, 5, Item::Coal, 2));
    for n in 1..=30u64 {
        step(&mut onto, &keys, n);
    }
    assert_eq!(riding(&onto, 5, 5), None);
    assert_eq!(riding(&onto, 6, 5), Some((6, 5, Item::Coal, 2)));
    assert!(ground(&onto).is_empty());
    for n in 31..=60u64 {
        step(&mut onto, &keys, n);
    }
    assert_eq!(riding(&onto, 6, 5), None);
    assert_eq!(ground(&onto), vec![(7, 5, Item::Coal, 2)]);
}

#[test]
fn no_stack_hops_two_tiles_in_one_pass() {
    for facing in [Direction::East, Direction::West, Direction::North, Direction::South] {
        let mut map = GameMap::new(20, 20);
        let tiles: Vec<(u32, u32)> = match facing {
            Direction::East => vec![(5, 5), (6, 5), (7, 5)],
            Direction::West => vec![(7, 5), (6, 5), (5, 5)],
            Direction::South => vec![(5, 5), (5, 6), (5, 7)],
            Direction::North => vec![(5, 7), (5, 6), (5, 5)],
        };
        for order in [[0usize, 1, 2], [2, 1, 0], [1, 0, 2]] {
            let mut m = GameMap::new(20, 20);
            for k in order {
                let (x, y) = tiles[k];
                m.add_placeable(x, y, PlaceableType::Belt);
                m.set_placeable_direction(x, y, facing);
            }
            m.set_belt_item(tiles[0].0, tiles[0].1, DroppedItem::new(tiles[0].0, tiles[0].1, Item::Coal, 1));
            m.set_belt_item(tiles[1].0, tiles[1].1, DroppedItem::new(tiles[1].0, tiles[1].1, Item::Stone, 1));
            run_belts(&mut m);
            assert!(m.get_belt_item(tiles[0].0, tiles[0].1).is_none());
            assert_eq!(m.get_belt_item(tiles[1].0, tiles[1].1).unwrap().item(), Item::Coal);
            assert_eq!(m.get_belt_item(tiles[2].0, tiles[2].1).unwrap().item(), Item::Stone);
            assert!(m.dropped_items().is_empty());
            map = m;
        }
        run_belts(&mut map);
        assert_eq!(map.dropped_items().len(), 1);
        assert_eq!(map.dropped_items()[0].item(), Item::Stone);
        assert_eq!(map.get_belt_item(tiles[2].0, tiles[2].1).unwrap().item(), Item::Coal);
    }
}

#[test]
fn belts_are_served_by_facing_and_then_by_progress() {
    let belt = |x: u32, y: u32, direction: Direction| PlaceableObject {
        x,
        y,
        placeable_type: PlaceableType::Belt,
        direction,
    };
    let objects = vec![
        belt(1, 1, Direction::West),
        belt(2, 1, Direction::East),
        PlaceableObject { x: 0, y: 0, placeable_type: PlaceableType::Arm, direction: Direction::North },
        belt(5, 1, Direction::East),
        belt(3, 3, Direction::South),
        belt(3, 9, Direction::South),
        belt(4, 4, Direction::North),
        belt(4, 2, Direction::North),
        belt(0, 1, Direction::West),
        belt(5, 8, Direction::East),
    ];
    let order: Vec<(u32, u32)> = belts_in_service_order(&objects).iter().map(|b| (b.x, b.y)).collect();
    assert_eq!(
        order,
        vec![(4, 2), (4, 4), (3, 9), (3, 3), (5, 1), (5, 8), (2, 1), (0, 1), (1, 1)]
    );
}

#[test]
fn belts_do_not_feed_furnaces_chests_water_or_full_tiles() {
    let mut state = world(20, 20);
    for (n, y) in [2u32, 4, 6, 8, 10].iter().enumerate() {
        state.map_mut().add_placeable(5, *y, PlaceableType::Belt);
        state.map_mut().set_belt_item(5, *y, DroppedItem::new(5, *y, Item::Coal, n as u32 + 1));
    }
    state.map_mut().add_placeable(6, 2, PlaceableType::Furnace);
    state.map_mut().add_placeable(6, 4, PlaceableType::Chest);
    state.map_mut().add_water_patch(WaterPatch::new(6, 6, 1, 1));
    state.map_mut().add_dropped_item(DroppedItem::new(6, 8, Item::Coal, 1));
    state.map_mut().add_placeable(6, 10, PlaceableType::Arm);
    state.map_mut().add_placeable(19, 12, PlaceableType::Belt);
    state.map_mut().set_belt_item(19, 12, DroppedItem::new(19, 12, Item::Coal, 9));
    run_belts(state.map_mut());
    assert_eq!(riding(&state, 5, 2), Some((5, 2, Item::Coal, 1)));
    assert_eq!(riding(&state, 5, 4), Some((5, 4, Item::Coal, 2)));
    assert_eq!(riding(&state, 5, 6), Some((5, 6, Item::Coal, 3)));
    assert_eq!(riding(&state, 5, 8), Some((5, 8, Item::Coal, 4)));
    assert_eq!(riding(&state, 5, 10), None);
    assert_eq!(riding(&state, 19, 12), Some((19, 12, Item::Coal, 9)));
    assert_eq!(ground(&state), vec![(6, 8, Item::Coal, 1), (6, 10, Item::Coal, 5)]);
}

#[test]
fn a_belt_takes_up_the_stack_that_lies_on_it() {
    let mut state = world(20, 20);
    state.map_mut().add_dropped_item(DroppedItem::new(5, 5, Item::Stone, 7));
    state.map_mut().add_dropped_item(DroppedItem::new(9, 9, Item::Stone, 1));
    state.map_mut().add_dropped_item(DroppedItem::new(12, 5, Item::Coal, 2));
    state.map_mut().add_placeable(5, 5, PlaceableType::Belt);
    state.map_mut().add_placeable(12, 5, PlaceableType::Belt);
    state.map_mut().add_placeable(13, 5, PlaceableType::Chest);
    run_belts(state.map_mut());
    assert_eq!(riding(&state, 5, 5), Some((5, 5, Item::Stone, 7)));
    assert_eq!(riding(&state, 12, 5), None);
    assert_eq!(ground(&state), vec![(9, 9, Item::Stone, 1), (12, 5, Item::Coal, 2)]);
    run_belts(state.map_mut());
    assert_eq!(riding(&state, 5, 5), None);
    assert_eq!(
        ground(&state),
        vec![(9, 9, Item::Stone, 1), (12, 5, Item::Coal, 2), (6, 5, Item::Stone, 7)]
    );
}

#[test]
fn a_belt_carries_the_player() {
    let mut state = world(20, 20);
    state.map_mut().add_placeable(10, 10, PlaceableType::Belt);
    state.map_mut().add_placeable(11, 10, PlaceableType::Belt);
    turn(&mut state, 11, 10, Direction::North);
    state.map_mut().add_placeable(11, 9, PlaceableType::Belt);
    turn(&mut state, 11, 9, Direction::North);
    state.map_mut().add_placeable(11, 8, PlaceableType::Furnace);
    let keys = InputKeys::none();
    for n in 1..=29u64 {
        step(&mut state, &keys, n);
    }
    assert_eq!((state.player_x(), state.player_y()), (10, 10));
    step(&mut state, &keys, 30);
    assert_eq!((state.player_x(), state.player_y()), (11, 10));
    assert_eq!(state.player_direction(), Direction::East);
    handle_belt_tick_processing(&mut state);
    assert_eq!((state.player_x(), state.player_y()), (11, 9));
    assert_eq!(state.player_direction(), Direction::North);
    handle_belt_tick_processing(&mut state);
    assert_eq!((state.player_x(), state.player_y()), (11, 9));
}

fn arm_scene() -> GameState {
    let mut state = world(20, 20);
    state.map_mut().add_placeable(3, 5, PlaceableType::Arm);
    state
}

fn fire(state: &mut GameState) {
    for _ in 0..120 {
        handle_arm_tick_processing(state);
    }
}

#[test]
fn an_arm_moves_one_item_from_chest_to_furnace_every_120_ticks() {
    let mut state = arm_scene();
    state.map_mut().add_placeable(2, 5, PlaceableType::Chest);
    state.map_mut().add_placeable(4, 5, PlaceableType::Furnace);
    let mut chest = state.get_chest_data(2, 5).unwrap();
    chest.add_item(Item::Coal, 3);
    chest.add_item(Item::IronOre, 1);
    state.map_mut().set_chest_data(2, 5, chest);
    for _ in 0..119 {
        handle_arm_tick_processing(&mut state);
    }
    assert_eq!(state.get_furnace_data(4, 5).unwrap().coal_count(), 0);
    assert_eq!(state.get_chest_data(2, 5).unwrap().get_item_quantity(0), 3);
    handle_arm_tick_processing(&mut state);
    assert_eq!(state.get_furnace_data(4, 5).unwrap().coal_count(), 1);
    assert_eq!(state.get_chest_data(2, 5).unwrap().get_item_quantity(0), 2);
    fire(&mut state);
    fire(&mut state);
    assert_eq!(state.get_furnace_data(4, 5).unwrap().coal_count(), 3);
    assert_eq!(state.get_chest_data(2, 5).unwrap().get_all_items(), vec![Item::IronOre]);
    fire(&mut state);
    assert_eq!(state.get_furnace_data(4, 5).unwrap().iron_ore_count(), 1);
    assert_eq!(state.get_chest_data(2, 5).unwrap().stack_count(), 0);
    fire(&mut state);
    assert!(ground(&state).is_empty());
}

#[test]
fn an_arm_hands_one_of_a_stack_to_a_machine_and_returns_the_rest() {
    let mut state = arm_scene();
    state.map_mut().add_placeable(4, 5, PlaceableType::Chest);
    state.map_mut().add_dropped_item(DroppedItem::new(2, 5, Item::Stone, 5));
    fire(&mut state);
    let chest = state.get_chest_data(4, 5).unwrap();
    assert_eq!(chest.get_all_items(), vec![Item::Stone]);
    assert_eq!(chest.get_item_quantity(0), 1);
    assert_eq!(ground(&state), vec![(2, 5, Item::Stone, 4)]);

    let mut drill = arm_scene();
    coal_drill(&mut drill, 4, 5, 0);
    drill.map_mut().add_placeable(2, 5, PlaceableType::Belt);
    drill.map_mut().set_belt_item(2, 5, DroppedItem::new(2, 5, Item::Coal, 2));
    fire(&mut drill);
    assert_eq!(drill.get_drill_data(4, 5).unwrap().coal_count(), 1);
    assert_eq!(riding(&drill, 2, 5), None);
    assert_eq!(ground(&drill), vec![(2, 5, Item::Coal, 1)]);
}

#[test]
fn an_arm_returns_what_the_target_does_not_take() {
    let mut state = arm_scene();
    state.map_mut().add_placeable(4, 5, PlaceableType::Furnace);
    state.map_mut().add_dropped_item(DroppedItem::new(2, 5, Item::Stone, 3));
    fire(&mut state);
    let f = state.get_furnace_data(4, 5).unwrap();
    assert_eq!((f.coal_count(), f.iron_ore_count(), f.copper_count()), (0, 0, 0));
    assert_eq!(ground(&state), vec![(2, 5, Item::Stone, 3)]);

    let mut drill = arm_scene();
    coal_drill(&mut drill, 4, 5, 0);
    drill.map_mut().add_dropped_item(DroppedItem::new(2, 5, Item::IronOre, 2));
    fire(&mut drill);
    assert_eq!(drill.get_drill_data(4, 5).unwrap().coal_count(), 0);
    assert_eq!(ground(&drill), vec![(2, 5, Item::IronOre, 2)]);
}

#[test]
fn an_arm_moves_whole_stacks_onto_belts_and_ground() {
    let mut state = arm_scene();
    state.map_mut().add_placeable(4, 5, PlaceableType::Belt);
    state.map_mut().add_dropped_item(DroppedItem::new(2, 5, Item::Stone, 5));
    fire(&mut state);
    assert_eq!(riding(&state, 4, 5), Some((4, 5, Item::Stone, 5)));
    assert!(ground(&state).is_empty());
    state.map_mut().add_dropped_item(DroppedItem::new(2, 5, Item::Coal, 1));
    fire(&mut state);
    assert_eq!(riding(&state, 4, 5), Some((4, 5, Item::Stone, 5)));
    assert_eq!(ground(&state), vec![(2, 5, Item::Coal, 1)]);

    let mut bare = arm_scene();
    bare.map_mut().add_placeable(2, 5, PlaceableType::Furnace);
    let mut f = bare.get_furnace_data(2, 5).unwrap();
    f.add_copper_plate();
    f.add_iron_plate();
    bare.map_mut().set_furnace_data(2, 5, f);
    fire(&mut bare);
    assert_eq!(ground(&bare), vec![(4, 5, Item::IronPlate, 1)]);
    fire(&mut bare);
    assert_eq!(ground(&bare), vec![(4, 5, Item::IronPlate, 1)]);
    assert_eq!(bare.get_furnace_data(2, 5).unwrap().copper_plate_count(), 1);
    bare.map_mut().remove_dropped_item(0);
    fire(&mut bare);
    assert_eq!(ground(&bare), vec![(4, 5, Item::CopperPlate, 1)]);
}

#[test]
fn an_arm_at_the_edge_does_nothing() {
    let mut state = world(10, 10);
    state.map_mut().add_placeable(9, 5, PlaceableType::Arm);
    state.map_mut().add_dropped_item(DroppedItem::new(8, 5, Item::Coal, 1));
    fire(&mut state);
    assert_eq!(ground(&state), vec![(8, 5, Item::Coal, 1)]);
    turn(&mut state, 9, 5, Direction::West);
    state.map_mut().add_dropped_item(DroppedItem::new(7, 5, Item::Coal, 1));
    fire(&mut state);
    assert_eq!(ground(&state), vec![(8, 5, Item::Coal, 1), (7, 5, Item::Coal, 1)]);
    turn(&mut state, 9, 5, Direction::North);
    state.map_mut().add_dropped_item(DroppedItem::new(9, 6, Item::Stone, 2));
    fire(&mut state);
    assert_eq!(
        ground(&state),
        vec![(8, 5, Item::Coal, 1), (7, 5, Item::Coal, 1), (9, 4, Item::Stone, 2)]
    );
}

#[test]
fn an_arm_on_the_west_or_north_edge_has_no_source() {
    let mut state = world(10, 10);
    state.map_mut().add_placeable(0, 5, PlaceableType::Arm);
    state.map_mut().add_dropped_item(DroppedItem::new(0, 5, Item::Coal, 2));
    state.map_mut().add_placeable(5, 0, PlaceableType::Arm);
    turn(&mut state, 5, 0, Direction::South);
    state.map_mut().add_dropped_item(DroppedItem::new(5, 0, Item::Stone, 1));
    fire(&mut state);
    assert_eq!(ground(&state), vec![(0, 5, Item::Coal, 2), (5, 0, Item::Stone, 1)]);
    turn(&mut state, 0, 5, Direction::West);
    state.map_mut().add_dropped_item(DroppedItem::new(1, 5, Item::Belt, 1));
    turn(&mut state, 5, 0, Direction::North);
    state.map_mut().add_dropped_item(DroppedItem::new(5, 1, Item::Arm, 1));
    fire(&mut state);
    assert_eq!(
        ground(&state),
        vec![
            (0, 5, Item::Coal, 2),
            (5, 0, Item::Stone, 1),
            (1, 5, Item::Belt, 1),
            (5, 1, Item::Arm, 1)
        ]
    );
    assert_eq!(state.map().get_arm_data(0, 5).unwrap().tick_counter(), 0);
}

#[test]
fn a_drill_that_faces_off_the_map_never_starts() {
    let mut state = world(10, 10);
    for (x, y, facing) in [
        (4u32, 0u32, Direction::North),
        (0, 4, Direction::West),
        (9, 4, Direction::East),
        (4, 9, Direction::South),
    ] {
        state.map_mut().add_resource(Resource::new(x, y, ResourceType::Coal));
        coal_drill(&mut state, x, y, 1);
        turn(&mut state, x, y, facing);
    }
    for _ in 0..130 {
        handle_drill_tick_processing(&mut state);
    }
    for (x, y) in [(4u32, 0u32), (0, 4), (9, 4), (4, 9)] {
        assert_eq!(state.get_drill_data(x, y).unwrap().coal_count(), 1);
        assert_eq!(state.get_drill_data(x, y).unwrap().processing_ticks_remaining(), 0);
    }
    assert!(ground(&state).is_empty());
}

#[test]
fn a_belt_at_the_edge_holds_its_stack_and_the_player() {
    let mut state = world(10, 10);
    state.map_mut().add_placeable(0, 3, PlaceableType::Belt);
    turn(&mut state, 0, 3, Direction::West);
    state.map_mut().set_belt_item(0, 3, DroppedItem::new(0, 3, Item::Coal, 1));
    state.map_mut().add_placeable(3, 0, PlaceableType::Belt);
    turn(&mut state, 3, 0, Direction::North);
    state.map_mut().set_belt_item(3, 0, DroppedItem::new(3, 0, Item::Stone, 1));
    state.set_player_position(0, 3);
    handle_belt_tick_processing(&mut state);
    assert_eq!((state.player_x(), state.player_y()), (0, 3));
    assert_eq!(state.player_direction(), Direction::South);
    assert_eq!(riding(&state, 0, 3), Some((0, 3, Item::Coal, 1)));
    assert_eq!(riding(&state, 3, 0), Some((3, 0, Item::Stone, 1)));
    state.set_player_position(3, 0);
    handle_belt_tick_processing(&mut state);
    assert_eq!((state.player_x(), state.player_y()), (3, 0));
    assert_eq!(state.player_direction(), Direction::South);
    assert!(ground(&state).is_empty());
}

#[test]
fn a_tick_runs_the_actions_in_their_order() {
    let mut state = world(20, 20);
    state.map_mut().add_resource(Resource::new(9, 10, ResourceType::Stone));
    for _ in 0..4 {
        state.player_mut().add_to_inventory(Item::Stone);
    }
    let mut keys = InputKeys::none();
    keys.m = true;
    keys.f = true;
    keys.space = true;
    state.next_step(&keys, 1000, Some(12), Some(12));
    assert_eq!(state.current_tick(), 1);
    assert_eq!(
        state.get_console_messages(),
        vec!["Mined Stone! Total: 5", "Crafted Furnace!", "Placed furnace!"]
    );
    assert_eq!(state.map().get_placeable_at(12, 12), Some(PlaceableType::Furnace));
    assert_eq!(state.stone_count(), 0);
    assert_eq!(state.furnace_count(), 0);
    assert_eq!(state.get_selected_item(), None);
    assert_eq!(state.cursor_x(), Some(12));

    let mut walk = InputKeys::none();
    walk.d = true;
    state.next_step(&walk, 1010, None, None);
    assert_eq!((state.player_x(), state.player_y()), (11, 10));
    state.next_step(&walk, 1020, None, None);
    assert_eq!((state.player_x(), state.player_y()), (11, 10));
    state.next_step(&walk, 1030, None, None);
    assert_eq!((state.player_x(), state.player_y()), (12, 10));
    assert_eq!(state.current_tick(), 4);
    assert_eq!(state.cursor_x(), None);
}

#[test]
fn a_tick_is_refused_without_room() {
    let mut state = world(20, 20);
    assert!(state.has_room());
    let keys = InputKeys::none();
    assert!(state.try_next_step(&keys, 10, None, None));
    assert_eq!(state.current_tick(), 1);
    state.map_mut().add_dropped_item(DroppedItem::new(1, 1, Item::Coal, 2_147_483_643));
    assert!(!state.has_room());
    assert!(!state.try_next_step(&keys, 20, None, None));
    assert_eq!(state.current_tick(), 1);
    state.map_mut().remove_dropped_item(0);
    state.map_mut().add_dropped_item(DroppedItem::new(1, 1, Item::Coal, 2_147_483_642));
    assert!(state.has_room());
    state.player_mut().add_to_inventory(Item::Stone);
    assert!(!state.has_room());
    state.map_mut().remove_dropped_item(0);
    assert!(state.has_room());
    state.map_mut().add_dropped_item(DroppedItem::new(1, 1, Item::Coal, 500_000_001));
    state.map_mut().add_placeable(3, 3, PlaceableType::Chest);
    let mut chest = state.get_chest_data(3, 3).unwrap();
    chest.add_item(Item::Stone, 400_000_000);
    chest.add_item(Item::Coal, 500_000_000);
    state.map_mut().set_chest_data(3, 3, chest);
    assert!(state.has_room());
    assert!(state.try_next_step(&keys, 30, None, None));
    assert_eq!(state.current_tick(), 2);
    assert!(!state.map().is_within(500_000_000));
    assert!(state.map().is_within(500_000_001));
}

#[test]
fn room_weighs_the_inventory_against_the_world() {
    let mut state = world(20, 20);
    state.player_mut().inventory_mut().add_items(Item::Coal, 4_294_967_284);
    assert!(state.has_room());
    state.player_mut().add_to_inventory(Item::Coal);
    assert!(!state.has_room());
    let mut other = world(20, 20);
    other.player_mut().inventory_mut().add_items(Item::Coal, 4_294_967_282);
    other.map_mut().add_dropped_item(DroppedItem::new(1, 1, Item::Stone, 1));
    assert!(other.has_room());
    other.map_mut().add_dropped_item(DroppedItem::new(2, 1, Item::Stone, 2));
    assert!(!other.has_room());
    other.map_mut().remove_dropped_item(1);
    assert!(other.has_room());
    let keys = InputKeys::none();
    assert!(other.try_next_step(&keys, 5, Some(1), Some(1)));
    let mut pick = InputKeys::none();
    pick.h = true;
    assert!(other.try_next_step(&pick, 50, Some(1), Some(1)));
    assert_eq!(other.stone_count(), 1);
    assert_eq!(other.coal_count(), 4_294_967_282);
}

#[test]
fn room_is_measured_on_every_store() {
    let mut state = world(20, 20);
    state.map_mut().add_placeable(1, 1, PlaceableType::Furnace);
    state.map_mut().add_placeable(2, 1, PlaceableType::Drill);
    state.map_mut().add_placeable(3, 1, PlaceableType::Belt);
    for _ in 0..3 {
        state.player_mut().add_to_inventory(Item::Arm);
    }
    let mut f = state.get_furnace_data(1, 1).unwrap();
    f.add_copper_plate();
    f.add_copper_plate();
    state.map_mut().set_furnace_data(1, 1, f);
    coal_drill(&mut state, 2, 1, 0);
    let mut d = state.get_drill_data(2, 1).unwrap();
    for _ in 0..4 {
        d.add_coal();
    }
    state.map_mut().set_drill_data(2, 1, d);
    state.map_mut().set_belt_item(3, 1, DroppedItem::new(3, 1, Item::Coal, 5));
    assert!(!state.player().inventory().is_within(2));
    assert!(state.player().inventory().is_within(3));
    assert!(!state.map().is_within(1));
    assert!(!state.map().is_within(3));
    assert!(!state.map().is_within(4));
    assert!(state.map().is_within(5));
    assert!(state.get_furnace_data(1, 1).unwrap().is_within(2));
    assert!(!state.get_furnace_data(1, 1).unwrap().is_within(1));
}

#[test]
fn water_and_blocking_machines_keep_the_player_out() {
    let mut map = GameMap::new(10, 10);
    map.add_water_patch(WaterPatch::new(1, 1, 1, 1));
    map.add_placeable(2, 2, PlaceableType::Chest);
    map.add_placeable(3, 3, PlaceableType::Belt);
    map.add_resource(Resource::new(4, 4, ResourceType::Coal));
    assert!(map.blocks_movement(1, 1));
    assert!(map.blocks_movement(2, 2));
    assert!(!map.blocks_movement(3, 3));
    assert!(!map.blocks_movement(4, 4));
    assert!(!map.blocks_movement(5, 5));
}
