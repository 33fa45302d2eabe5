use factory_sim::game_state::GameState;
use factory_sim::map_generation::{generate_map, SimpleRng};
use factory_sim::types::Item;

#[test]
fn generator_follows_its_recurrence() {
    let mut rng = SimpleRng::new(1);
    assert_eq!(rng.next(), 1103527590);
    assert_eq!(rng.next(), 1103527590u64.wrapping_mul(1103515245).wrapping_add(12345));
    let mut big = SimpleRng::new(u64::MAX);
    assert_eq!(big.next(), u64::MAX.wrapping_mul(1103515245).wrapping_add(12345));
    let mut zero = SimpleRng::new(0);
    assert_eq!(zero.next(), 12345);
}

#[test]
fn generated_worlds_keep_deposits_dry_and_on_the_map() {
    for seed in [0u64, 1, 42, 1700000000000, u64::MAX] {
        let map = generate_map(seed);
        assert_eq!(map.width(), 160);
        assert_eq!(map.height(), 120);
        assert!(map.placeable_objects().is_empty());
        assert!(map.dropped_items().is_empty());
        let water = map.water_patches();
        assert!(water.len() <= 20);
        for w in &water {
            assert!(w.width() >= 1 && w.width() <= 5);
            assert!(w.height() >= 1 && w.height() <= 5);
            assert!(w.x() + w.width() <= 160);
            assert!(w.y() + w.height() <= 120);
        }
        let resources = map.resources();
        assert!(!resources.is_empty());
        for r in &resources {
            assert!(r.x() < 160 && r.y() < 120);
            assert!(!map.would_collide_with_water(r.x(), r.y()));
        }
    }
}

#[test]
fn generation_is_a_function_of_the_seed() {
    let a = generate_map(12345);
    let b = generate_map(12345);
    assert_eq!(a.water_patches().len(), b.water_patches().len());
    assert_eq!(a.resources().len(), b.resources().len());
    for (p, q) in a.resources().iter().zip(b.resources().iter()) {
        assert_eq!((p.x(), p.y(), p.resource_type_value()), (q.x(), q.y(), q.resource_type_value()));
    }
    for (p, q) in a.water_patches().iter().zip(b.water_patches().iter()) {
        assert_eq!((p.x(), p.y(), p.width(), p.height()), (q.x(), q.y(), q.width(), q.height()));
    }
}

#[test]
fn a_new_game_starts_stocked_at_the_centre() {
    let state = GameState::new(99);
    assert_eq!(state.player_x(), 80);
    assert_eq!(state.player_y(), 60);
    assert_eq!(state.player_direction_value(), 1);
    assert_eq!(state.current_tick(), 0);
    assert_eq!(state.get_selected_item(), Some(Item::IronOre));
    assert_eq!(state.get_selected_item_index_in_available(), 0);
    assert_eq!(state.get_available_items().len(), 11);
    assert_eq!(state.iron_ore_count(), 50);
    assert_eq!(state.copper_count(), 50);
    assert_eq!(state.stone_count(), 50);
    assert_eq!(state.coal_count(), 50);
    assert_eq!(state.furnace_count(), 50);
    assert_eq!(state.iron_plate_count(), 50);
    assert_eq!(state.belt_count(), 50);
    assert_eq!(state.copper_plate_count(), 50);
    assert_eq!(state.arm_count(), 50);
    assert_eq!(state.chest_count(), 50);
    assert_eq!(state.drill_count(), 50);
    assert!(state.get_console_messages().is_empty());
    assert_eq!(state.map_width(), 160);
    assert_eq!(state.map_height(), 120);
}
