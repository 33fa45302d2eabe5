//! What holds of the selection and of the machines over every action and
//! over a whole tick.

use vstd::prelude::*;
use crate::crafting::crafted;
use crate::game_state::{lemma_validated, GameStateView, InputKeys};
use crate::handlers::{
    arms_ticked, belts_ticked, cycled, drills_ticked, dropped, fed, furnaces_ticked,
    furnaces_worked,
    lemma_cycled_valid, machine_picked_up, mined, moved, picked_up, placed_selected, rotated,
};
use crate::tick::{
    after_actions, after_arm_craft, after_belt_craft, after_chest_craft, after_cycling,
    after_cycling_back, after_drill_craft, after_drop, after_furnace_craft, after_interaction,
    after_mining, after_movement, after_pickup, after_rotation, begun, stepped, TickInput,
};
use crate::conveyor::{
    belts_of, belts_run, belts_served, free_ahead, ground_off_belts, only_rider, served_before,
    service_order, stacks_fed,
};
use crate::drilling::drills_worked;
use crate::map::{
    machine_tiles, nonempty_stacks, placeable_tiles, MapView, PlaceableObject, StackView,
};
use crate::transfer::arms_worked;
use crate::types::{Item, PlaceableType};

verus! {

/// The selection of `g` is valid, or else neither it nor the inventory has
/// changed since `before`.
pub open spec fn settled(before: GameStateView, g: GameStateView) -> bool {
    g.selection_valid() || (g.player.inventory == before.player.inventory && g.selected_item
        == before.selected_item)
}

/// Every state that went through `validated` has a valid selection.
pub proof fn lemma_validated_everywhere()
    ensures
        forall|g: GameStateView| (#[trigger] g.validated()).selection_valid(),
{
    assert forall|g: GameStateView| (#[trigger] g.validated()).selection_valid() by {
        lemma_validated(g);
    }
}

/// Moving changes neither inventory nor selection.
pub proof fn lemma_moved_keeps_selection(g: GameStateView, keys: InputKeys, now: u64)
    ensures
        moved(g, keys, now).player.inventory == g.player.inventory,
        moved(g, keys, now).selected_item == g.selected_item,
{
    reveal(moved);
}

/// Mining leaves a valid selection wherever it changed the inventory, and
/// changes nothing of the two where it did not.
pub proof fn lemma_mined_settles(before: GameStateView, g: GameStateView)
    requires
        settled(before, g),
    ensures
        settled(before, mined(g)),
{
    reveal(mined);
    lemma_validated_everywhere();
}

/// Crafting leaves a valid selection wherever it changed the inventory.
pub proof fn lemma_crafted_settles(before: GameStateView, g: GameStateView, result: Item)
    requires
        settled(before, g),
    ensures
        settled(before, crafted(g, result)),
{
    reveal(crafted);
    lemma_validated_everywhere();
}

/// Placing leaves a valid selection wherever it changed the inventory.
pub proof fn lemma_placed_settles(before: GameStateView, g: GameStateView)
    requires
        settled(before, g),
    ensures
        settled(before, placed_selected(g)),
{
    reveal(placed_selected);
    lemma_validated_everywhere();
}

/// Feeding a container leaves a valid selection wherever it changed the
/// inventory.
pub proof fn lemma_fed_settles(before: GameStateView, g: GameStateView)
    requires
        settled(before, g),
    ensures
        settled(before, fed(g)),
{
    reveal(fed);
    lemma_validated_everywhere();
}

/// Picking up leaves a valid selection wherever it changed the inventory.
pub proof fn lemma_picked_up_settles(before: GameStateView, g: GameStateView)
    requires
        settled(before, g),
    ensures
        settled(before, picked_up(g)),
{
    reveal(picked_up);
    lemma_validated_everywhere();
}

/// Dropping leaves a valid selection wherever it changed the inventory.
pub proof fn lemma_dropped_settles(before: GameStateView, g: GameStateView)
    requires
        settled(before, g),
    ensures
        settled(before, dropped(g)),
{
    reveal(dropped);
    lemma_validated_everywhere();
}

/// Rotating changes neither inventory nor selection.
pub proof fn lemma_rotated_keeps_selection(g: GameStateView)
    ensures
        rotated(g).player.inventory == g.player.inventory,
        rotated(g).selected_item == g.selected_item,
{
    reveal(rotated);
}

/// Picking up a machine leaves a valid selection wherever there was a
/// machine to pick up.
pub proof fn lemma_machine_picked_up_settles(before: GameStateView, g: GameStateView)
    requires
        settled(before, g),
    ensures
        settled(before, machine_picked_up(g)),
{
    reveal(machine_picked_up);
    lemma_validated_everywhere();
}

/// The furnaces change neither inventory nor selection.
pub proof fn lemma_furnaces_keep_selection(g: GameStateView, tiles: Seq<(u32, u32)>)
    ensures
        furnaces_worked(g, tiles).player == g.player,
        furnaces_worked(g, tiles).selected_item == g.selected_item,
        furnaces_worked(g, tiles).current_tick == g.current_tick,
    decreases tiles.len(),
{
    if tiles.len() > 0 {
        lemma_furnaces_keep_selection(g, tiles.drop_last());
    }
}

/// The machines change neither inventory nor selection.
pub proof fn lemma_machines_keep_selection(g: GameStateView)
    ensures
        drills_ticked(arms_ticked(belts_ticked(furnaces_ticked(g)))).player.inventory
            == g.player.inventory,
        drills_ticked(arms_ticked(belts_ticked(furnaces_ticked(g)))).selected_item
            == g.selected_item,
{
    reveal(furnaces_ticked);
    reveal(belts_ticked);
    reveal(arms_ticked);
    reveal(drills_ticked);
    lemma_furnaces_keep_selection(
        g,
        crate::map::machine_tiles(g.map.placeables, crate::types::PlaceableType::Furnace),
    );
}

/// The furnaces leave the machines where they stand.
pub proof fn lemma_furnaces_keep_machines(g: GameStateView, tiles: Seq<(u32, u32)>)
    ensures
        furnaces_worked(g, tiles).map.placeables == g.map.placeables,
    decreases tiles.len(),
{
    if tiles.len() > 0 {
        lemma_furnaces_keep_machines(g, tiles.drop_last());
    }
}

/// The belts leave the machines where they stand.
pub proof fn lemma_belts_keep_machines(m: MapView)
    ensures
        belts_run(m).placeables == m.placeables,
{
    lemma_belts_served_keep_machines(m, service_order(belts_of(m.placeables)));
    let served = belts_served(m, service_order(belts_of(m.placeables)));
    lemma_stacks_fed_keep_machines(served, served.dropped_items.len() as int);
}

proof fn lemma_belts_served_keep_machines(m: MapView, belts: Seq<PlaceableObject>)
    ensures
        belts_served(m, belts).placeables == m.placeables,
    decreases belts.len(),
{
    if belts.len() > 0 {
        lemma_belts_served_keep_machines(m, belts.drop_last());
    }
}

proof fn lemma_stacks_fed_keep_machines(m: MapView, n: int)
    ensures
        stacks_fed(m, n).placeables == m.placeables,
    decreases n,
{
    if n > 0 {
        lemma_stacks_fed_keep_machines(m, n - 1);
    }
}

/// The arms leave the machines where they stand.
pub proof fn lemma_arms_keep_machines(m: MapView, tiles: Seq<(u32, u32)>)
    ensures
        arms_worked(m, tiles).placeables == m.placeables,
    decreases tiles.len(),
{
    if tiles.len() > 0 {
        lemma_arms_keep_machines(m, tiles.drop_last());
    }
}

/// The drills leave the machines where they stand.
pub proof fn lemma_drills_keep_machines(m: MapView, tiles: Seq<(u32, u32)>)
    ensures
        drills_worked(m, tiles).placeables == m.placeables,
    decreases tiles.len(),
{
    if tiles.len() > 0 {
        lemma_drills_keep_machines(m, tiles.drop_last());
    }
}

/// Moving leaves the machines where they stand.
pub proof fn lemma_moved_keeps_machines(g: GameStateView, keys: InputKeys, now: u64)
    ensures
        moved(g, keys, now).map == g.map,
{
    reveal(moved);
}

/// Mining leaves the machines where they stand.
pub proof fn lemma_mined_keeps_machines(g: GameStateView)
    ensures
        mined(g).map == g.map,
{
    reveal(mined);
}

/// Crafting leaves the machines where they stand.
pub proof fn lemma_crafted_keeps_machines(g: GameStateView, result: Item)
    ensures
        crafted(g, result).map == g.map,
{
    reveal(crafted);
}

/// Feeding a container leaves the machines where they stand.
pub proof fn lemma_fed_keeps_machines(g: GameStateView)
    ensures
        fed(g).map.placeables == g.map.placeables,
{
    reveal(fed);
}

/// Placing keeps the machines one to a tile.
pub proof fn lemma_placed_keeps_one_per_tile(g: GameStateView)
    requires
        g.map.one_per_tile(),
    ensures
        placed_selected(g).map.one_per_tile(),
{
    reveal(placed_selected);
    if let Some(t) = g.aim() {
        if let Some(item) = g.selected_item {
            if let Some(kind) = item.placeable() {
                crate::map::lemma_placed_one_per_tile(g.map, t.0, t.1, kind);
            }
        }
    }
}

/// Cycling leaves the world alone.
pub proof fn lemma_cycled_keeps_machines(g: GameStateView, direction: i32)
    ensures
        cycled(g, direction).map == g.map,
{
    reveal(cycled);
}

/// Picking up leaves the machines where they stand.
pub proof fn lemma_picked_up_keeps_machines(g: GameStateView)
    ensures
        picked_up(g).map.placeables == g.map.placeables,
{
    reveal(picked_up);
}

/// Dropping leaves the machines where they stand.
pub proof fn lemma_dropped_keeps_machines(g: GameStateView)
    ensures
        dropped(g).map.placeables == g.map.placeables,
{
    reveal(dropped);
}

/// Rotating keeps the machines one to a tile.
pub proof fn lemma_rotated_keeps_one_per_tile(g: GameStateView)
    requires
        g.map.one_per_tile(),
    ensures
        rotated(g).map.one_per_tile(),
{
    reveal(rotated);
    assert(placeable_tiles(rotated(g).map.placeables) =~= placeable_tiles(g.map.placeables));
}

/// Picking up a machine keeps the machines one to a tile.
pub proof fn lemma_machine_picked_up_keeps_one_per_tile(g: GameStateView)
    requires
        g.map.one_per_tile(),
    ensures
        machine_picked_up(g).map.one_per_tile(),
{
    reveal(machine_picked_up);
    if let Some(t) = g.aim() {
        crate::map::lemma_off_one_per_tile(g.map.placeables, t.0, t.1);
    }
}

/// The actions of a tick keep the machines one to a tile.
pub proof fn lemma_actions_keep_one_per_tile(g: GameStateView, i: TickInput)
    requires
        g.map.one_per_tile(),
    ensures
        after_actions(g, i).map.one_per_tile(),
{
    lemma_moved_keeps_machines(begun(g, i), i.keys, i.now);
    lemma_mined_keeps_machines(after_movement(g, i));
    lemma_crafted_keeps_machines(after_mining(g, i), Item::Furnace);
    lemma_crafted_keeps_machines(after_furnace_craft(g, i), Item::Belt);
    lemma_crafted_keeps_machines(after_belt_craft(g, i), Item::Arm);
    lemma_crafted_keeps_machines(after_arm_craft(g, i), Item::Chest);
    lemma_crafted_keeps_machines(after_chest_craft(g, i), Item::Drill);
    assert(after_drill_craft(g, i).map == g.map);
    lemma_fed_keeps_machines(after_drill_craft(g, i));
    lemma_placed_keeps_one_per_tile(after_drill_craft(g, i));
    assert(after_interaction(g, i).map.one_per_tile());
    lemma_cycled_keeps_machines(after_interaction(g, i), -1i32);
    lemma_cycled_keeps_machines(after_cycling_back(g, i), 1i32);
    lemma_picked_up_keeps_machines(after_cycling(g, i));
    lemma_dropped_keeps_machines(after_pickup(g, i));
    assert(after_drop(g, i).map.placeables == after_interaction(g, i).map.placeables);
    lemma_rotated_keeps_one_per_tile(after_drop(g, i));
    lemma_machine_picked_up_keeps_one_per_tile(after_rotation(g, i));
}

/// A tick keeps the machines one to a tile.
pub proof fn lemma_step_keeps_one_per_tile(g: GameStateView, i: TickInput)
    requires
        g.map.one_per_tile(),
    ensures
        stepped(g, i).map.one_per_tile(),
{
    lemma_actions_keep_one_per_tile(g, i);
    reveal(furnaces_ticked);
    reveal(belts_ticked);
    reveal(arms_ticked);
    reveal(drills_ticked);
    let g14 = after_actions(g, i);
    lemma_furnaces_keep_machines(g14, machine_tiles(g14.map.placeables, PlaceableType::Furnace));
    let g15 = furnaces_ticked(g14);
    lemma_belts_keep_machines(g15.map);
    let g16 = belts_ticked(g15);
    assert(g16.map.placeables == g14.map.placeables);
    lemma_arms_keep_machines(g16.map, machine_tiles(g16.map.placeables, PlaceableType::Arm));
    let g17 = arms_ticked(g16);
    lemma_drills_keep_machines(g17.map, machine_tiles(g17.map.placeables, PlaceableType::Drill));
}

/// The furnaces lose no machine's state.
pub proof fn lemma_furnaces_keep_state(g: GameStateView, tiles: Seq<(u32, u32)>)
    ensures
        g.map.state_kept_in(furnaces_worked(g, tiles).map),
    decreases tiles.len(),
{
    if tiles.len() > 0 {
        lemma_furnaces_keep_state(g, tiles.drop_last());
    }
}

proof fn lemma_belts_served_keep_state(m: MapView, belts: Seq<PlaceableObject>)
    ensures
        m.state_kept_in(belts_served(m, belts)),
    decreases belts.len(),
{
    if belts.len() > 0 {
        lemma_belts_served_keep_state(m, belts.drop_last());
    }
}

proof fn lemma_stacks_fed_keep_state(m: MapView, n: int)
    ensures
        m.state_kept_in(stacks_fed(m, n)),
    decreases n,
{
    if n > 0 {
        lemma_stacks_fed_keep_state(m, n - 1);
    }
}

/// The belts lose no machine's state.
pub proof fn lemma_belts_keep_state(m: MapView)
    ensures
        m.state_kept_in(belts_run(m)),
{
    lemma_belts_served_keep_state(m, service_order(belts_of(m.placeables)));
    let served = belts_served(m, service_order(belts_of(m.placeables)));
    lemma_stacks_fed_keep_state(served, served.dropped_items.len() as int);
}

/// The arms lose no machine's state.
pub proof fn lemma_arms_keep_state(m: MapView, tiles: Seq<(u32, u32)>)
    ensures
        m.state_kept_in(arms_worked(m, tiles)),
    decreases tiles.len(),
{
    if tiles.len() > 0 {
        lemma_arms_keep_state(m, tiles.drop_last());
    }
}

/// The drills lose no machine's state.
pub proof fn lemma_drills_keep_state(m: MapView, tiles: Seq<(u32, u32)>)
    ensures
        m.state_kept_in(drills_worked(m, tiles)),
    decreases tiles.len(),
{
    if tiles.len() > 0 {
        lemma_drills_keep_state(m, tiles.drop_last());
    }
}

/// Every action keeps the machines equipped with their state.
pub proof fn lemma_actions_keep_equipped(
    g: GameStateView,
    keys: InputKeys,
    now: u64,
    result: Item,
)
    requires
        g.map.equipped(),
    ensures
        moved(g, keys, now).map.equipped(),
        mined(g).map.equipped(),
        crafted(g, result).map.equipped(),
        fed(g).map.equipped(),
        placed_selected(g).map.equipped(),
        cycled(g, -1i32).map.equipped(),
        cycled(g, 1i32).map.equipped(),
        picked_up(g).map.equipped(),
        dropped(g).map.equipped(),
        rotated(g).map.equipped(),
        machine_picked_up(g).map.equipped(),
{
    lemma_moved_keeps_machines(g, keys, now);
    lemma_mined_keeps_machines(g);
    lemma_crafted_keeps_machines(g, result);
    lemma_cycled_keeps_machines(g, -1i32);
    lemma_cycled_keeps_machines(g, 1i32);
    assert(fed(g).map.equipped()) by {
        reveal(fed);
        assert(g.map.state_kept_in(fed(g).map));
        crate::map::lemma_equipped_kept(g.map, fed(g).map);
    }
    assert(placed_selected(g).map.equipped()) by {
        reveal(placed_selected);
        if let Some(t) = g.aim() {
            if let Some(item) = g.selected_item {
                if let Some(kind) = item.placeable() {
                    crate::map::lemma_placed_equipped(g.map, t.0, t.1, kind);
                }
            }
        }
    }
    assert(picked_up(g).map.equipped()) by {
        reveal(picked_up);
        assert(g.map.state_kept_in(picked_up(g).map));
        crate::map::lemma_equipped_kept(g.map, picked_up(g).map);
    }
    assert(dropped(g).map.equipped()) by {
        reveal(dropped);
        assert(g.map.state_kept_in(dropped(g).map));
        crate::map::lemma_equipped_kept(g.map, dropped(g).map);
    }
    assert(rotated(g).map.equipped()) by {
        reveal(rotated);
        if let Some(t) = g.aim() {
            if let Some(obj) = g.map.placeable_object_at(t.0, t.1) {
                crate::map::lemma_turned_equipped(g.map, t.0, t.1, obj.direction.clockwise());
            }
        }
    }
    assert(machine_picked_up(g).map.equipped()) by {
        reveal(machine_picked_up);
        if let Some(t) = g.aim() {
            crate::map::lemma_without_placeable_equipped(g.map, t.0, t.1);
        }
    }
}

/// A tick keeps the machines equipped with their state.
pub proof fn lemma_step_keeps_equipped(g: GameStateView, i: TickInput)
    requires
        g.map.equipped(),
    ensures
        stepped(g, i).map.equipped(),
{
    lemma_actions_keep_equipped(begun(g, i), i.keys, i.now, Item::Furnace);
    lemma_actions_keep_equipped(after_movement(g, i), i.keys, i.now, Item::Furnace);
    lemma_actions_keep_equipped(after_mining(g, i), i.keys, i.now, Item::Furnace);
    lemma_actions_keep_equipped(after_furnace_craft(g, i), i.keys, i.now, Item::Belt);
    lemma_actions_keep_equipped(after_belt_craft(g, i), i.keys, i.now, Item::Arm);
    lemma_actions_keep_equipped(after_arm_craft(g, i), i.keys, i.now, Item::Chest);
    lemma_actions_keep_equipped(after_chest_craft(g, i), i.keys, i.now, Item::Drill);
    assert(after_drill_craft(g, i).map.equipped());
    lemma_actions_keep_equipped(after_drill_craft(g, i), i.keys, i.now, Item::Drill);
    assert(after_interaction(g, i).map.equipped());
    lemma_actions_keep_equipped(after_interaction(g, i), i.keys, i.now, Item::Drill);
    lemma_actions_keep_equipped(after_cycling_back(g, i), i.keys, i.now, Item::Drill);
    assert(after_cycling(g, i).map.equipped());
    lemma_actions_keep_equipped(after_cycling(g, i), i.keys, i.now, Item::Drill);
    lemma_actions_keep_equipped(after_pickup(g, i), i.keys, i.now, Item::Drill);
    lemma_actions_keep_equipped(after_drop(g, i), i.keys, i.now, Item::Drill);
    lemma_actions_keep_equipped(after_rotation(g, i), i.keys, i.now, Item::Drill);
    assert(after_actions(g, i).map.equipped());
    reveal(furnaces_ticked);
    reveal(belts_ticked);
    reveal(arms_ticked);
    reveal(drills_ticked);
    let g14 = after_actions(g, i);
    let furnaces = machine_tiles(g14.map.placeables, PlaceableType::Furnace);
    lemma_furnaces_keep_machines(g14, furnaces);
    lemma_furnaces_keep_state(g14, furnaces);
    let g15 = furnaces_ticked(g14);
    crate::map::lemma_equipped_kept(g14.map, g15.map);
    lemma_belts_keep_machines(g15.map);
    lemma_belts_keep_state(g15.map);
    let g16 = belts_ticked(g15);
    crate::map::lemma_equipped_kept(g15.map, g16.map);
    let arms = machine_tiles(g16.map.placeables, PlaceableType::Arm);
    lemma_arms_keep_machines(g16.map, arms);
    lemma_arms_keep_state(g16.map, arms);
    let g17 = arms_ticked(g16);
    crate::map::lemma_equipped_kept(g16.map, g17.map);
    let drills = machine_tiles(g17.map.placeables, PlaceableType::Drill);
    lemma_drills_keep_machines(g17.map, drills);
    lemma_drills_keep_state(g17.map, drills);
    crate::map::lemma_equipped_kept(g17.map, stepped(g, i).map);
}

/// The tick counter and the cursor of a state.
pub open spec fn clock(g: GameStateView) -> (nat, Option<u32>, Option<u32>) {
    (g.current_tick, g.cursor_x, g.cursor_y)
}

/// No action touches the tick counter or the cursor.
pub proof fn lemma_actions_keep_clock(g: GameStateView, keys: InputKeys, now: u64, result: Item)
    ensures
        clock(moved(g, keys, now)) == clock(g),
        clock(mined(g)) == clock(g),
        clock(crafted(g, result)) == clock(g),
        clock(fed(g)) == clock(g),
        clock(placed_selected(g)) == clock(g),
        clock(cycled(g, -1i32)) == clock(g),
        clock(cycled(g, 1i32)) == clock(g),
        clock(picked_up(g)) == clock(g),
        clock(dropped(g)) == clock(g),
        clock(rotated(g)) == clock(g),
        clock(machine_picked_up(g)) == clock(g),
{
    assert(clock(moved(g, keys, now)) == clock(g)) by {
        reveal(moved);
    }
    assert(clock(mined(g)) == clock(g)) by {
        reveal(mined);
    }
    assert(clock(crafted(g, result)) == clock(g)) by {
        reveal(crafted);
    }
    assert(clock(fed(g)) == clock(g)) by {
        reveal(fed);
    }
    assert(clock(placed_selected(g)) == clock(g)) by {
        reveal(placed_selected);
    }
    assert(clock(cycled(g, -1i32)) == clock(g) && clock(cycled(g, 1i32)) == clock(g)) by {
        reveal(cycled);
    }
    assert(clock(picked_up(g)) == clock(g)) by {
        reveal(picked_up);
    }
    assert(clock(dropped(g)) == clock(g)) by {
        reveal(dropped);
    }
    assert(clock(rotated(g)) == clock(g)) by {
        reveal(rotated);
    }
    assert(clock(machine_picked_up(g)) == clock(g)) by {
        reveal(machine_picked_up);
    }
}

/// The furnaces touch neither the tick counter nor the cursor.
pub proof fn lemma_furnaces_keep_clock(g: GameStateView, tiles: Seq<(u32, u32)>)
    ensures
        clock(furnaces_worked(g, tiles)) == clock(g),
    decreases tiles.len(),
{
    if tiles.len() > 0 {
        lemma_furnaces_keep_clock(g, tiles.drop_last());
    }
}

/// A tick counts itself once and takes the cursor over: after it the tick
/// counter is one higher and the cursor is the one it was given.
pub proof fn lemma_step_counts(g: GameStateView, i: TickInput)
    ensures
        stepped(g, i).current_tick == g.current_tick + 1,
        stepped(g, i).cursor_x == i.cursor_x,
        stepped(g, i).cursor_y == i.cursor_y,
{
    let c = clock(begun(g, i));
    lemma_actions_keep_clock(begun(g, i), i.keys, i.now, Item::Furnace);
    lemma_actions_keep_clock(after_movement(g, i), i.keys, i.now, Item::Furnace);
    lemma_actions_keep_clock(after_mining(g, i), i.keys, i.now, Item::Furnace);
    lemma_actions_keep_clock(after_furnace_craft(g, i), i.keys, i.now, Item::Belt);
    lemma_actions_keep_clock(after_belt_craft(g, i), i.keys, i.now, Item::Arm);
    lemma_actions_keep_clock(after_arm_craft(g, i), i.keys, i.now, Item::Chest);
    lemma_actions_keep_clock(after_chest_craft(g, i), i.keys, i.now, Item::Drill);
    assert(clock(after_drill_craft(g, i)) == c);
    lemma_actions_keep_clock(after_drill_craft(g, i), i.keys, i.now, Item::Drill);
    assert(clock(after_interaction(g, i)) == c);
    lemma_actions_keep_clock(after_interaction(g, i), i.keys, i.now, Item::Drill);
    lemma_actions_keep_clock(after_cycling_back(g, i), i.keys, i.now, Item::Drill);
    assert(clock(after_cycling(g, i)) == c);
    lemma_actions_keep_clock(after_cycling(g, i), i.keys, i.now, Item::Drill);
    lemma_actions_keep_clock(after_pickup(g, i), i.keys, i.now, Item::Drill);
    lemma_actions_keep_clock(after_drop(g, i), i.keys, i.now, Item::Drill);
    lemma_actions_keep_clock(after_rotation(g, i), i.keys, i.now, Item::Drill);
    assert(clock(after_actions(g, i)) == c);
    reveal(furnaces_ticked);
    reveal(belts_ticked);
    reveal(arms_ticked);
    reveal(drills_ticked);
    let g14 = after_actions(g, i);
    lemma_furnaces_keep_clock(g14, machine_tiles(g14.map.placeables, PlaceableType::Furnace));
}

/// After the actions of a tick the selection is valid, or else neither it
/// nor the inventory has changed since the tick began.
pub proof fn lemma_actions_settle(g: GameStateView, i: TickInput)
    ensures
        settled(g, after_actions(g, i)),
{
    lemma_moved_keeps_selection(begun(g, i), i.keys, i.now);
    assert(settled(g, after_movement(g, i)));
    lemma_mined_settles(g, after_movement(g, i));
    assert(settled(g, after_mining(g, i)));
    lemma_crafted_settles(g, after_mining(g, i), Item::Furnace);
    lemma_crafted_settles(g, after_furnace_craft(g, i), Item::Belt);
    lemma_crafted_settles(g, after_belt_craft(g, i), Item::Arm);
    lemma_crafted_settles(g, after_arm_craft(g, i), Item::Chest);
    lemma_crafted_settles(g, after_chest_craft(g, i), Item::Drill);
    assert(settled(g, after_drill_craft(g, i)));
    lemma_fed_settles(g, after_drill_craft(g, i));
    lemma_placed_settles(g, after_drill_craft(g, i));
    assert(settled(g, after_interaction(g, i)));
    lemma_cycled_valid(after_interaction(g, i), -1i32);
    lemma_cycled_valid(after_cycling_back(g, i), 1i32);
    assert(settled(g, after_cycling(g, i)));
    lemma_picked_up_settles(g, after_cycling(g, i));
    assert(settled(g, after_pickup(g, i)));
    lemma_dropped_settles(g, after_pickup(g, i));
    assert(settled(g, after_drop(g, i)));
    lemma_rotated_keeps_selection(after_drop(g, i));
    assert(settled(g, after_rotation(g, i)));
    lemma_machine_picked_up_settles(g, after_rotation(g, i));
}

/// A tick leaves the selection valid if it was valid before, and in any
/// case if the tick changed the inventory: the selection then names a kind
/// that is held, or nothing while nothing is held.
pub proof fn lemma_step_keeps_selection_valid(g: GameStateView, i: TickInput)
    ensures
        g.selection_valid() ==> stepped(g, i).selection_valid(),
        stepped(g, i).player.inventory != g.player.inventory ==> stepped(g, i).selection_valid(),
{
    lemma_actions_settle(g, i);
    lemma_machines_keep_selection(after_actions(g, i));
}

/// No signal is held.
pub open spec fn idle(keys: InputKeys) -> bool {
    &&& !keys.w && !keys.a && !keys.s && !keys.d
    &&& !keys.m
    &&& !keys.f && !keys.b && !keys.p && !keys.c && !keys.t
    &&& !keys.space
    &&& !keys.bracket_left && !keys.bracket_right
    &&& !keys.h && !keys.j && !keys.r && !keys.delete
}

/// Every machine of the world is a belt.
pub open spec fn only_belts(m: MapView) -> bool {
    forall|k: int|
        0 <= k < m.placeables.len() ==> (#[trigger] m.placeables[k]).placeable_type
            == PlaceableType::Belt
}

/// The state after `n` ticks with the same input.
pub open spec fn rested(g: GameStateView, i: TickInput, n: nat) -> GameStateView
    decreases n,
{
    if n == 0 {
        g
    } else {
        stepped(rested(g, i, (n - 1) as nat), i)
    }
}

/// The state `g` with the tick counter raised by `n` and the cursor of `i`.
pub open spec fn later(g: GameStateView, i: TickInput, n: nat) -> GameStateView {
    GameStateView {
        current_tick: g.current_tick + n,
        cursor_x: i.cursor_x,
        cursor_y: i.cursor_y,
        ..g
    }
}

/// With no signal held the actions of a tick do nothing: the tick is
/// counted, the cursor taken over, and that is all.
pub proof fn lemma_idle_actions(g: GameStateView, i: TickInput)
    requires
        idle(i.keys),
    ensures
        after_actions(g, i) == begun(g, i),
{
    reveal(moved);
}

/// Where no machine is of a kind, no tile is one of a machine of that kind.
pub proof fn lemma_no_machines_of(s: Seq<PlaceableObject>, kind: PlaceableType)
    requires
        forall|k: int| 0 <= k < s.len() ==> (#[trigger] s[k]).placeable_type != kind,
    ensures
        machine_tiles(s, kind).len() == 0,
    decreases s.len(),
{
    if s.len() > 0 {
        let front = s.drop_last();
        assert forall|k: int| 0 <= k < front.len() implies (#[trigger] front[k]).placeable_type
            != kind by {
            assert(front[k] == s[k]);
        }
        lemma_no_machines_of(front, kind);
        assert(s[s.len() - 1].placeable_type != kind);
    }
}

/// In a world whose machines are all belts, a tick with no signal held is
/// the belts' turn and nothing else; unless it is a thirtieth tick, it only
/// counts the tick and takes the cursor over.
pub proof fn lemma_idle_step(g: GameStateView, i: TickInput)
    requires
        idle(i.keys),
        only_belts(g.map),
    ensures
        stepped(g, i) == belts_ticked(begun(g, i)),
        stepped(g, i).map.placeables == g.map.placeables,
        (g.current_tick + 1) % 30 != 0 ==> stepped(g, i) == later(g, i, 1),
        (g.current_tick + 1) % 30 == 0 && g.map.placeable_at(g.player.x, g.player.y) != Some(
            PlaceableType::Belt,
        ) ==> stepped(g, i) == later(g, i, 1).with_map(belts_run(g.map)),
{
    lemma_idle_actions(g, i);
    reveal(furnaces_ticked);
    reveal(belts_ticked);
    reveal(arms_ticked);
    reveal(drills_ticked);
    let g0 = begun(g, i);
    lemma_no_machines_of(g0.map.placeables, PlaceableType::Furnace);
    assert(furnaces_ticked(g0) == g0);
    let g1 = belts_ticked(g0);
    assert(g1.map.placeables == g0.map.placeables) by {
        lemma_belts_keep_machines(g0.map);
    }
    lemma_no_machines_of(g1.map.placeables, PlaceableType::Arm);
    assert(arms_ticked(g1) == g1);
    lemma_no_machines_of(g1.map.placeables, PlaceableType::Drill);
    assert(drills_ticked(g1) == g1);
}

/// Between two moves of the belts nothing happens in a world whose
/// machines are all belts while no signal is held: after `n` ticks that do
/// not reach the next thirtieth, the state is what it was but for the tick
/// counter and the cursor.
pub proof fn lemma_rest_between_moves(g: GameStateView, i: TickInput, n: nat)
    requires
        idle(i.keys),
        only_belts(g.map),
        n >= 1,
        g.current_tick % 30 + n < 30,
    ensures
        rested(g, i, n) == later(g, i, n),
    decreases n,
{
    if n == 1 {
        assert(rested(g, i, 0) == g);
        lemma_idle_step(g, i);
    } else {
        lemma_rest_between_moves(g, i, (n - 1) as nat);
        lemma_idle_step(later(g, i, (n - 1) as nat), i);
    }
}

/// Counted from a tick at which the belts moved, the belts of a world whose
/// machines are all belts stand still for twenty-nine ticks and move once
/// on the thirtieth, while no signal is held and the player stands on no
/// belt.
pub proof fn lemma_belts_move_on_the_thirtieth(g: GameStateView, i: TickInput)
    requires
        idle(i.keys),
        only_belts(g.map),
        g.current_tick % 30 == 0,
        g.map.placeable_at(g.player.x, g.player.y) != Some(PlaceableType::Belt),
    ensures
        forall|n: nat| 1 <= n < 30 ==> #[trigger] rested(g, i, n) == later(g, i, n),
        rested(g, i, 30) == later(g, i, 30).with_map(belts_run(g.map)),
{
    assert forall|n: nat| 1 <= n < 30 implies #[trigger] rested(g, i, n) == later(g, i, n) by {
        lemma_rest_between_moves(g, i, n);
    }
    lemma_rest_between_moves(g, i, 29);
    lemma_idle_step(later(g, i, 29), i);
}

/// A stack that rides belt `b` alone, with the tile `n` ahead free and
/// bare, lies on `n` as a ground stack after exactly thirty ticks, and
/// rides `b` until then.
pub proof fn lemma_stack_reaches_ground_in_thirty(
    g: GameStateView,
    i: TickInput,
    b: PlaceableObject,
    n: (u32, u32),
)
    requires
        idle(i.keys),
        only_belts(g.map),
        g.current_tick % 30 == 0,
        g.map.placeable_at(g.player.x, g.player.y) != Some(PlaceableType::Belt),
        g.map.one_per_tile(),
        g.map.placeables.contains(b),
        g.map.belt_items.contains_key((b.x, b.y)),
        only_rider(g.map, (b.x, b.y)),
        g.map.belt_items[(b.x, b.y)].quantity > 0,
        g.map.toward(b.x, b.y, b.direction) == Some(n),
        free_ahead(g.map, n),
        g.map.placeable_at(n.0, n.1) is None,
        ground_off_belts(g.map),
    ensures
        forall|k: nat| 1 <= k < 30 ==> (#[trigger] rested(g, i, k)).map == g.map,
        rested(g, i, 30).current_tick == g.current_tick + 30,
        !rested(g, i, 30).map.belt_items.contains_key((b.x, b.y)),
        rested(g, i, 30).map.dropped_items == nonempty_stacks(g.map.dropped_items).push(
            StackView { x: n.0, y: n.1, ..g.map.belt_items[(b.x, b.y)] },
        ),
{
    lemma_belts_move_on_the_thirtieth(g, i);
    assert(b.placeable_type == PlaceableType::Belt);
    crate::conveyor::lemma_lone_stack_moves_to_ground(g.map, b, n);
}

/// A stack that rides belt `b` alone, with a free belt ahead on tile `n`
/// that is served before `b`, rides that belt after exactly thirty ticks,
/// and rides `b` until then.
pub proof fn lemma_stack_reaches_belt_in_thirty(
    g: GameStateView,
    i: TickInput,
    b: PlaceableObject,
    n: (u32, u32),
)
    requires
        idle(i.keys),
        only_belts(g.map),
        g.current_tick % 30 == 0,
        g.map.placeable_at(g.player.x, g.player.y) != Some(PlaceableType::Belt),
        g.map.one_per_tile(),
        g.map.placeables.contains(b),
        g.map.belt_items.contains_key((b.x, b.y)),
        only_rider(g.map, (b.x, b.y)),
        g.map.toward(b.x, b.y, b.direction) == Some(n),
        free_ahead(g.map, n),
        g.map.placeable_object_at(n.0, n.1) matches Some(ahead) && served_before(ahead, b),
        ground_off_belts(g.map),
    ensures
        forall|k: nat| 1 <= k < 30 ==> (#[trigger] rested(g, i, k)).map == g.map,
        rested(g, i, 30).current_tick == g.current_tick + 30,
        !rested(g, i, 30).map.belt_items.contains_key((b.x, b.y)),
        rested(g, i, 30).map.belt_items.contains_key(n),
        rested(g, i, 30).map.belt_items[n] == (StackView {
            x: n.0,
            y: n.1,
            ..g.map.belt_items[(b.x, b.y)]
        }),
        rested(g, i, 30).map.dropped_items == nonempty_stacks(g.map.dropped_items),
{
    lemma_belts_move_on_the_thirtieth(g, i);
    assert(b.placeable_type == PlaceableType::Belt);
    crate::lookup::lemma_first_index(placeable_tiles(g.map.placeables), n);
    crate::conveyor::lemma_lone_stack_moves_to_belt(g.map, b, n);
}

} // verus!
