use factory_sim::arm::ArmData;
use factory_sim::chest::ChestData;
use factory_sim::drill::DrillData;
use factory_sim::furnace::FurnaceData;
use factory_sim::types::Item;

fn furnace_round(f: &mut FurnaceData) -> bool {
    f.start_processing_if_able();
    f.process_tick()
}

#[test]
fn furnace_smelts_iron_first_then_copper() {
    let mut f = FurnaceData::new();
    f.add_coal();
    f.add_coal();
    f.add_iron_ore();
    f.add_copper();
    for _ in 0..59 {
        assert!(!furnace_round(&mut f));
        assert_eq!(f.iron_plate_count(), 0);
        assert_eq!(f.coal_count(), 2);
    }
    assert_eq!(f.processing_ticks_remaining(), 1);
    assert!(furnace_round(&mut f));
    assert_eq!(f.iron_plate_count(), 1);
    assert_eq!(f.coal_count(), 1);
    assert_eq!(f.iron_ore_count(), 0);
    assert_eq!(f.copper_count(), 1);
    assert_eq!(f.copper_plate_count(), 0);
    assert_eq!(f.processing_ticks_remaining(), 0);
    for _ in 0..59 {
        assert!(!furnace_round(&mut f));
        assert_eq!(f.copper_plate_count(), 0);
    }
    assert!(furnace_round(&mut f));
    assert_eq!(f.copper_plate_count(), 1);
    assert_eq!(f.iron_plate_count(), 1);
    assert_eq!(f.coal_count(), 0);
    assert_eq!(f.copper_count(), 0);
    for _ in 0..200 {
        assert!(!furnace_round(&mut f));
    }
    assert_eq!(f.processing_ticks_remaining(), 0);
}

#[test]
fn furnace_start_sets_sixty_ticks() {
    let mut f = FurnaceData::new();
    f.start_processing_if_able();
    assert_eq!(f.processing_ticks_remaining(), 0);
    f.add_coal();
    f.start_processing_if_able();
    assert_eq!(f.processing_ticks_remaining(), 0);
    f.add_copper();
    f.start_processing_if_able();
    assert_eq!(f.processing_ticks_remaining(), 60);
    assert!(!f.process_tick());
    assert_eq!(f.processing_ticks_remaining(), 59);
    f.start_processing_if_able();
    assert_eq!(f.processing_ticks_remaining(), 59);
}

#[test]
fn furnace_spends_nothing_when_material_went_missing() {
    let mut f = FurnaceData::new();
    f.add_coal();
    f.add_iron_ore();
    f.start_processing_if_able();
    assert!(f.remove_coal(1));
    for _ in 0..59 {
        assert!(!f.process_tick());
    }
    assert!(!f.process_tick());
    assert_eq!(f.processing_ticks_remaining(), 0);
    assert_eq!(f.iron_ore_count(), 1);
    assert_eq!(f.iron_plate_count(), 0);
    assert_eq!(f.coal_count(), 0);
}

#[test]
fn furnace_removals_are_all_or_nothing() {
    let mut f = FurnaceData::new();
    f.add_iron_plate();
    f.add_iron_plate();
    f.add_copper_plate();
    assert!(!f.remove_iron_plate(3));
    assert_eq!(f.iron_plate_count(), 2);
    assert!(f.remove_iron_plate(2));
    assert_eq!(f.iron_plate_count(), 0);
    assert!(f.remove_copper_plate(1));
    assert!(!f.remove_copper_plate(1));
    assert!(!f.remove_iron_ore(1));
    assert!(!f.remove_copper(1));
    assert!(f.remove_coal(0));
    assert!(!f.try_combine());
}

#[test]
fn furnace_inputs_are_coal_iron_ore_and_copper() {
    let mut f = FurnaceData::new();
    f.add_input(Item::Coal);
    f.add_input(Item::IronOre);
    f.add_input(Item::Copper);
    f.add_input(Item::Stone);
    f.add_input(Item::IronPlate);
    assert_eq!(f.coal_count(), 1);
    assert_eq!(f.iron_ore_count(), 1);
    assert_eq!(f.copper_count(), 1);
    assert_eq!(f.iron_plate_count(), 0);
}

#[test]
fn drill_burns_one_coal_per_sixty_ticks() {
    let mut d = DrillData::new();
    d.start_processing_if_able();
    assert_eq!(d.processing_ticks_remaining(), 0);
    assert!(!d.process_tick());
    d.add_coal();
    d.start_processing_if_able();
    assert_eq!(d.processing_ticks_remaining(), 60);
    for _ in 0..59 {
        assert!(!d.process_tick());
        assert_eq!(d.coal_count(), 1);
    }
    assert!(d.process_tick());
    assert_eq!(d.coal_count(), 0);
    assert_eq!(d.processing_ticks_remaining(), 0);
    d.start_processing_if_able();
    assert_eq!(d.processing_ticks_remaining(), 0);
    assert!(!d.remove_coal(1));
    d.add_coal();
    d.add_coal();
    assert!(d.remove_coal(2));
    assert_eq!(d.coal_count(), 0);
}

#[test]
fn arm_fires_on_every_120th_tick() {
    let mut a = ArmData::new();
    assert_eq!(a.tick_counter(), 0);
    for round in 0..3 {
        for n in 1..120u32 {
            assert!(!a.process_tick(), "round {} tick {}", round, n);
            assert_eq!(a.tick_counter(), n);
        }
        assert!(a.process_tick());
        assert_eq!(a.tick_counter(), 0);
    }
}

#[test]
fn chest_stacks_by_kind() {
    let mut c = ChestData::new();
    assert!(c.has_space());
    c.add_item(Item::Coal, 2);
    c.add_item(Item::IronPlate, 1);
    c.add_item(Item::Coal, 3);
    assert_eq!(c.get_all_items(), vec![Item::Coal, Item::IronPlate]);
    assert_eq!(c.get_item_quantity(0), 5);
    assert_eq!(c.get_item_quantity(1), 1);
    assert_eq!(c.get_item_quantity(2), 0);
    assert_eq!(c.stack_count(), 2);
}

#[test]
fn chest_removal_drops_used_up_stacks() {
    let mut c = ChestData::new();
    c.add_item(Item::Coal, 2);
    c.add_item(Item::Belt, 4);
    assert!(!c.remove_item(Item::Coal, 3));
    assert!(!c.remove_item(Item::Arm, 1));
    assert_eq!(c.get_item_quantity(0), 2);
    assert!(c.remove_item(Item::Belt, 1));
    assert_eq!(c.get_item_quantity(1), 3);
    assert!(c.remove_item(Item::Coal, 2));
    assert_eq!(c.get_all_items(), vec![Item::Belt]);
    assert_eq!(c.get_item_quantity(0), 3);
    let copy = c.clone();
    assert_eq!(copy.get_all_items(), vec![Item::Belt]);
    assert_eq!(copy.get_item_quantity(0), 3);
}
