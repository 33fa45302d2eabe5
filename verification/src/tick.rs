//! One tick of the simulation as a function from state to state: the fixed
//! order in which movement, the player's actions and the machines have
//! their turn.

use vstd::prelude::*;
use crate::crafting::{
    crafted, handle_arm_crafting, handle_belt_crafting, handle_chest_crafting, handle_crafting,
    handle_drill_crafting,
};
use crate::game_state::{GameState, GameStateView, InputKeys};
use crate::handlers::{
    arm_ticks_fit, arms_ticked, belts_ticked, container_at_target, cycle_inventory_selection,
    cycled, drill_ticks_fit, drills_ticked, dropped, fed, furnace_ticks_fit, furnaces_ticked,
    get_container_at_cursor_or_front, handle_arm_tick_processing, handle_belt_rotation,
    handle_belt_tick_processing, handle_drill_tick_processing, handle_drop_item,
    handle_furnace_add_item, handle_furnace_tick_processing, handle_mining, handle_pickup,
    handle_pickup_placeable, handle_placement, handle_player_movement, machine_picked_up, mined,
    moved, picked_up, placed_selected, rotated,
};
use crate::types::Item;

verus! {

/// What one tick is given: the signals held, the time in milliseconds, and
/// the cursor's tile if there is a cursor.
pub struct TickInput {
    pub keys: InputKeys,
    pub now: u64,
    pub cursor_x: Option<u32>,
    pub cursor_y: Option<u32>,
}

/// The state as the tick begins: the cursor is taken over and the tick is
/// counted.
pub open spec fn begun(g: GameStateView, i: TickInput) -> GameStateView {
    GameStateView {
        cursor_x: i.cursor_x,
        cursor_y: i.cursor_y,
        current_tick: g.current_tick + 1,
        ..g
    }
}

/// The state after the movement step.
pub open spec fn after_movement(g: GameStateView, i: TickInput) -> GameStateView {
    moved(begun(g, i), i.keys, i.now)
}

/// The state after mining had its turn.
pub open spec fn after_mining(g: GameStateView, i: TickInput) -> GameStateView {
    if i.keys.m {
        mined(after_movement(g, i))
    } else {
        after_movement(g, i)
    }
}

/// The state after the turn of crafting a furnace.
pub open spec fn after_furnace_craft(g: GameStateView, i: TickInput) -> GameStateView {
    if i.keys.f {
        crafted(after_mining(g, i), Item::Furnace)
    } else {
        after_mining(g, i)
    }
}

/// The state after the turn of crafting a belt.
pub open spec fn after_belt_craft(g: GameStateView, i: TickInput) -> GameStateView {
    if i.keys.b {
        crafted(after_furnace_craft(g, i), Item::Belt)
    } else {
        after_furnace_craft(g, i)
    }
}

/// The state after the turn of crafting an arm.
pub open spec fn after_arm_craft(g: GameStateView, i: TickInput) -> GameStateView {
    if i.keys.p {
        crafted(after_belt_craft(g, i), Item::Arm)
    } else {
        after_belt_craft(g, i)
    }
}

/// The state after the turn of crafting a chest.
pub open spec fn after_chest_craft(g: GameStateView, i: TickInput) -> GameStateView {
    if i.keys.c {
        crafted(after_arm_craft(g, i), Item::Chest)
    } else {
        after_arm_craft(g, i)
    }
}

/// The state after the turn of crafting a drill.
pub open spec fn after_drill_craft(g: GameStateView, i: TickInput) -> GameStateView {
    if i.keys.t {
        crafted(after_chest_craft(g, i), Item::Drill)
    } else {
        after_chest_craft(g, i)
    }
}

/// Interacting feeds the container that actions aim at, and places the
/// selected item where they aim at none.
pub open spec fn after_interaction(g: GameStateView, i: TickInput) -> GameStateView {
    let before = after_drill_craft(g, i);
    if !i.keys.space {
        before
    } else if container_at_target(before) is Some {
        fed(before)
    } else {
        placed_selected(before)
    }
}

/// The state after the turn of selecting the previous kind.
pub open spec fn after_cycling_back(g: GameStateView, i: TickInput) -> GameStateView {
    if i.keys.bracket_left {
        cycled(after_interaction(g, i), -1i32)
    } else {
        after_interaction(g, i)
    }
}

/// The state after the turn of selecting the next kind.
pub open spec fn after_cycling(g: GameStateView, i: TickInput) -> GameStateView {
    if i.keys.bracket_right {
        cycled(after_cycling_back(g, i), 1i32)
    } else {
        after_cycling_back(g, i)
    }
}

/// The state after the turn of picking up.
pub open spec fn after_pickup(g: GameStateView, i: TickInput) -> GameStateView {
    if i.keys.h {
        picked_up(after_cycling(g, i))
    } else {
        after_cycling(g, i)
    }
}

/// The state after the turn of dropping.
pub open spec fn after_drop(g: GameStateView, i: TickInput) -> GameStateView {
    if i.keys.j {
        dropped(after_pickup(g, i))
    } else {
        after_pickup(g, i)
    }
}

/// The state after the turn of rotating.
pub open spec fn after_rotation(g: GameStateView, i: TickInput) -> GameStateView {
    if i.keys.r {
        rotated(after_drop(g, i))
    } else {
        after_drop(g, i)
    }
}

/// The state after movement and all of the player's actions of the tick.
pub open spec fn after_actions(g: GameStateView, i: TickInput) -> GameStateView {
    if i.keys.delete {
        machine_picked_up(after_rotation(g, i))
    } else {
        after_rotation(g, i)
    }
}

/// The state after the furnaces ticked.
pub open spec fn after_furnaces(g: GameStateView, i: TickInput) -> GameStateView {
    furnaces_ticked(after_actions(g, i))
}

/// The state after the belts had their turn.
pub open spec fn after_belts(g: GameStateView, i: TickInput) -> GameStateView {
    belts_ticked(after_furnaces(g, i))
}

/// The state after the arms ticked.
pub open spec fn after_arms(g: GameStateView, i: TickInput) -> GameStateView {
    arms_ticked(after_belts(g, i))
}

/// The state after one whole tick: movement; the actions in the order mine,
/// craft furnace, belt, arm, chest and drill, interact, select previous and
/// next, pick up, drop, rotate, pick up a machine; then the furnaces, the
/// belts, the arms and the drills.
pub open spec fn stepped(g: GameStateView, i: TickInput) -> GameStateView {
    drills_ticked(after_arms(g, i))
}

/// Every count stays within a machine word all through the tick.
pub open spec fn step_fits(g: GameStateView, i: TickInput) -> bool {
    &&& g.current_tick < u64::MAX
    &&& after_mining(g, i).fits()
    &&& after_furnace_craft(g, i).fits()
    &&& after_belt_craft(g, i).fits()
    &&& after_arm_craft(g, i).fits()
    &&& after_chest_craft(g, i).fits()
    &&& after_drill_craft(g, i).fits()
    &&& after_interaction(g, i).fits()
    &&& after_pickup(g, i).fits()
    &&& after_drop(g, i).fits()
    &&& after_actions(g, i).fits()
    &&& furnace_ticks_fit(after_actions(g, i))
    &&& arm_ticks_fit(after_belts(g, i))
    &&& drill_ticks_fit(after_arms(g, i))
}

fn mining_turn(game_state: &mut GameState, keys: &InputKeys)
    requires
        keys.m ==> mined(old(game_state)@).fits(),
    ensures
        final(game_state)@ == if keys.m {
            mined(old(game_state)@)
        } else {
            old(game_state)@
        },
{
    if keys.m {
        handle_mining(game_state);
    }
}

fn crafting_turn(game_state: &mut GameState, wanted: bool, result: Item)
    requires
        wanted ==> crafted(old(game_state)@, result).fits(),
        result == Item::Furnace || result == Item::Belt || result == Item::Arm || result
            == Item::Chest || result == Item::Drill,
    ensures
        final(game_state)@ == if wanted {
            crafted(old(game_state)@, result)
        } else {
            old(game_state)@
        },
{
    if wanted {
        match result {
            Item::Furnace => handle_crafting(game_state),
            Item::Belt => handle_belt_crafting(game_state),
            Item::Arm => handle_arm_crafting(game_state),
            Item::Chest => handle_chest_crafting(game_state),
            _ => handle_drill_crafting(game_state),
        }
    }
}

fn interaction_turn(game_state: &mut GameState, keys: &InputKeys)
    requires
        keys.space && container_at_target(old(game_state)@) is Some ==> fed(
            old(game_state)@,
        ).fits(),
    ensures
        final(game_state)@ == if !keys.space {
            old(game_state)@
        } else if container_at_target(old(game_state)@) is Some {
            fed(old(game_state)@)
        } else {
            placed_selected(old(game_state)@)
        },
{
    if keys.space {
        if get_container_at_cursor_or_front(game_state).is_some() {
            handle_furnace_add_item(game_state);
        } else {
            handle_placement(game_state);
        }
    }
}

fn cycling_turn(game_state: &mut GameState, wanted: bool, direction: i32)
    ensures
        final(game_state)@ == if wanted {
            cycled(old(game_state)@, direction)
        } else {
            old(game_state)@
        },
{
    if wanted {
        cycle_inventory_selection(game_state, direction);
    }
}

fn pickup_turn(game_state: &mut GameState, keys: &InputKeys)
    requires
        keys.h ==> picked_up(old(game_state)@).fits(),
    ensures
        final(game_state)@ == if keys.h {
            picked_up(old(game_state)@)
        } else {
            old(game_state)@
        },
{
    if keys.h {
        handle_pickup(game_state);
    }
}

fn drop_turn(game_state: &mut GameState, keys: &InputKeys)
    requires
        keys.j ==> dropped(old(game_state)@).fits(),
    ensures
        final(game_state)@ == if keys.j {
            dropped(old(game_state)@)
        } else {
            old(game_state)@
        },
{
    if keys.j {
        handle_drop_item(game_state);
    }
}

fn rotation_turn(game_state: &mut GameState, keys: &InputKeys)
    ensures
        final(game_state)@ == if keys.r {
            rotated(old(game_state)@)
        } else {
            old(game_state)@
        },
{
    if keys.r {
        handle_belt_rotation(game_state);
    }
}

fn removal_turn(game_state: &mut GameState, keys: &InputKeys)
    requires
        keys.delete ==> machine_picked_up(old(game_state)@).fits(),
    ensures
        final(game_state)@ == if keys.delete {
            machine_picked_up(old(game_state)@)
        } else {
            old(game_state)@
        },
{
    if keys.delete {
        handle_pickup_placeable(game_state);
    }
}

/// Runs movement and the player's actions of one tick.
fn run_actions(
    game_state: &mut GameState,
    keys: &InputKeys,
    now: u64,
    cursor_x: Option<u32>,
    cursor_y: Option<u32>,
)
    requires
        step_fits(old(game_state)@, (TickInput { keys: *keys, now, cursor_x, cursor_y })),
    ensures
        final(game_state)@ == after_actions(
            old(game_state)@,
            (TickInput { keys: *keys, now, cursor_x, cursor_y }),
        ),
{
    let ghost start = game_state@;
    let ghost i = TickInput { keys: *keys, now, cursor_x, cursor_y };
    game_state.set_cursor(cursor_x, cursor_y);
    game_state.advance_tick();
    assert(game_state@ == begun(start, i));
    handle_player_movement(game_state, keys, now);
    mining_turn(game_state, keys);
    assert(game_state@ == after_mining(start, i));
    crafting_turn(game_state, keys.f, Item::Furnace);
    assert(game_state@ == after_furnace_craft(start, i));
    crafting_turn(game_state, keys.b, Item::Belt);
    assert(game_state@ == after_belt_craft(start, i));
    crafting_turn(game_state, keys.p, Item::Arm);
    assert(game_state@ == after_arm_craft(start, i));
    crafting_turn(game_state, keys.c, Item::Chest);
    assert(game_state@ == after_chest_craft(start, i));
    crafting_turn(game_state, keys.t, Item::Drill);
    assert(game_state@ == after_drill_craft(start, i));
    interaction_turn(game_state, keys);
    assert(game_state@ == after_interaction(start, i));
    cycling_turn(game_state, keys.bracket_left, -1);
    cycling_turn(game_state, keys.bracket_right, 1);
    assert(game_state@ == after_cycling(start, i));
    pickup_turn(game_state, keys);
    assert(game_state@ == after_pickup(start, i));
    drop_turn(game_state, keys);
    assert(game_state@ == after_drop(start, i));
    rotation_turn(game_state, keys);
    removal_turn(game_state, keys);
}

/// Runs one tick.
pub fn run_tick(
    game_state: &mut GameState,
    keys: &InputKeys,
    now: u64,
    cursor_x: Option<u32>,
    cursor_y: Option<u32>,
)
    requires
        step_fits(old(game_state)@, (TickInput { keys: *keys, now, cursor_x, cursor_y })),
    ensures
        final(game_state)@ == stepped(
            old(game_state)@,
            (TickInput { keys: *keys, now, cursor_x, cursor_y }),
        ),
        final(game_state)@.current_tick == old(game_state)@.current_tick + 1,
        final(game_state)@.cursor_x == cursor_x,
        final(game_state)@.cursor_y == cursor_y,
        old(game_state)@.selection_valid() ==> final(game_state)@.selection_valid(),
        final(game_state)@.player.inventory != old(game_state)@.player.inventory ==> final(game_state)@.selection_valid(),
        old(game_state)@.map.one_per_tile() ==> final(game_state)@.map.one_per_tile(),
        old(game_state)@.map.equipped() ==> final(game_state)@.map.equipped(),
{
    proof {
        let i = TickInput { keys: *keys, now, cursor_x, cursor_y };
        crate::laws::lemma_step_counts(game_state@, i);
        crate::laws::lemma_step_keeps_selection_valid(game_state@, i);
        if game_state@.map.one_per_tile() {
            crate::laws::lemma_step_keeps_one_per_tile(game_state@, i);
        }
        if game_state@.map.equipped() {
            crate::laws::lemma_step_keeps_equipped(game_state@, i);
        }
    }
    run_actions(game_state, keys, now, cursor_x, cursor_y);
    handle_furnace_tick_processing(game_state);
    handle_belt_tick_processing(game_state);
    handle_arm_tick_processing(game_state);
    handle_drill_tick_processing(game_state);
}

} // verus!
