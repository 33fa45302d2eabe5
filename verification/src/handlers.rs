//! The player's actions and the per-tick work of the machines. Every action
//! is given as a function from state to state; its handler brings the state
//! to exactly that.

use vstd::prelude::*;
use vstd::string::*;
use crate::chest::{chest_add, emptied_into, lemma_chest_count_grows, lemma_emptied_into};
use crate::conveyor::{belts_run, run_belts, BELT_PERIOD};
use crate::drill::DrillView;
use crate::drilling::{
    drills_fit, drills_spent, drills_worked, lemma_drills_fit_prefix, lemma_spent_drills_rest,
    work_drill,
};
use crate::furnace::FurnaceView;
use crate::game_state::{GameState, GameStateView, InputKeys};
use crate::inventory::{available_items, with_added, with_removed};
use crate::lookup::{first_index, is_first, lemma_first_index_is, lemma_first_index_none};
use crate::map::{machine_tiles, DroppedItem, MapView, StackView};
use crate::messages::{
    added_message, added_text, dropped_message, dropped_text, machine_picked_up_message,
    machine_picked_up_text, mined_message, mined_text, none_held_message, none_held_text,
    picked_up_message, picked_up_text, placed_message, placed_text, produced_message,
    produced_text, put_on_belt_message, put_on_belt_text, raw_name, raw_name_text,
    rotated_message, rotated_text,
};
use crate::player::PlayerView;
use crate::transfer::{arms_fit, arms_quiet, arms_worked, lemma_arms_fit_prefix, work_arm};
use crate::types::{Direction, Item, PlaceableType, ResourceType};

verus! {

/// Least time between two accepted movements, in milliseconds.
pub const MOVE_DELAY_MS: u64 = 20;

fn say(game_state: &mut GameState, text: &str)
    ensures
        final(game_state)@ == old(game_state)@.logged(text@),
{
    game_state.add_console_message(String::from_str(text));
}

/// Where the held movement signals would take the player, and the facing
/// they would leave: each of north, south, west and east, in that order,
/// moves one tile unless the edge of the map is in the way, and the last one
/// that moves sets the facing.
pub open spec fn move_goal(g: GameStateView, keys: InputKeys) -> (int, int, Direction) {
    let up = keys.w && g.player.y > 0;
    let y1 = if up {
        g.player.y - 1
    } else {
        g.player.y as int
    };
    let down = keys.s && y1 < g.map.height - 1;
    let y2 = if down {
        y1 + 1
    } else {
        y1
    };
    let left = keys.a && g.player.x > 0;
    let x1 = if left {
        g.player.x - 1
    } else {
        g.player.x as int
    };
    let right = keys.d && x1 < g.map.width - 1;
    let x2 = if right {
        x1 + 1
    } else {
        x1
    };
    let facing = if right {
        Direction::East
    } else if left {
        Direction::West
    } else if down {
        Direction::South
    } else if up {
        Direction::North
    } else {
        g.player.direction
    };
    (x2, y2, facing)
}

/// The state after the movement step at time `now`. Nothing moves before
/// the delay since the last accepted movement has passed, without a
/// movement signal, or where water or a blocking machine is at the goal.
#[verifier::opaque]
pub open spec fn moved(g: GameStateView, keys: InputKeys, now: u64) -> GameStateView {
    let goal = move_goal(g, keys);
    if now < g.last_movement_time || now - g.last_movement_time < MOVE_DELAY_MS {
        g
    } else if !(keys.w || keys.a || keys.s || keys.d) {
        g
    } else if g.map.in_water(goal.0, goal.1) || g.map.blocked(goal.0 as u32, goal.1 as u32) {
        g
    } else {
        GameStateView {
            player: PlayerView {
                x: goal.0 as u32,
                y: goal.1 as u32,
                direction: goal.2,
                ..g.player
            },
            last_movement_time: now,
            ..g
        }
    }
}

/// Moves the player by the held movement signals. `now` is the time in
/// milliseconds.
pub fn handle_player_movement(game_state: &mut GameState, keys: &InputKeys, now: u64)
    ensures
        final(game_state)@ == moved(old(game_state)@, *keys, now),
{
    proof {
        reveal(moved);
    }
    let last: u64 = game_state.last_movement_time();
    if now < last || now - last < MOVE_DELAY_MS {
        return ;
    }
    if !keys.w && !keys.a && !keys.s && !keys.d {
        return ;
    }
    let mut new_x: u32 = game_state.player_x();
    let mut new_y: u32 = game_state.player_y();
    let mut new_direction = game_state.player_direction();
    if keys.w && new_y > 0 {
        new_y = new_y - 1;
        new_direction = Direction::North;
    }
    if keys.s && (new_y as u64) + 1 < game_state.map_height() as u64 {
        new_y = new_y + 1;
        new_direction = Direction::South;
    }
    if keys.a && new_x > 0 {
        new_x = new_x - 1;
        new_direction = Direction::West;
    }
    if keys.d && (new_x as u64) + 1 < game_state.map_width() as u64 {
        new_x = new_x + 1;
        new_direction = Direction::East;
    }
    assert(move_goal(game_state@, *keys) == (new_x as int, new_y as int, new_direction));
    if !game_state.map().would_collide_with_water(new_x, new_y)
        && !game_state.map().would_collide_with_placeable(new_x, new_y) {
        game_state.set_player_position(new_x, new_y);
        game_state.set_player_direction(new_direction);
        game_state.set_last_movement_time(now);
    }
}

/// The `k`-th of the eight tiles around a tile, as an offset: row by row
/// from the north-west.
pub open spec fn around(k: int) -> (int, int) {
    if k == 0 {
        (-1, -1)
    } else if k == 1 {
        (0, -1)
    } else if k == 2 {
        (1, -1)
    } else if k == 3 {
        (-1, 0)
    } else if k == 4 {
        (1, 0)
    } else if k == 5 {
        (-1, 1)
    } else if k == 6 {
        (0, 1)
    } else {
        (1, 1)
    }
}

/// The deposit on the first of the tiles around `(x, y)`, from the `k`-th
/// on, that is on the map and has one.
pub open spec fn deposit_around(map: MapView, x: u32, y: u32, k: int) -> Option<ResourceType>
    decreases 8 - k,
{
    if k < 0 || k >= 8 {
        None
    } else {
        let tx = x + around(k).0;
        let ty = y + around(k).1;
        if map.in_bounds(tx, ty) && map.resource_at(tx as u32, ty as u32) is Some {
            map.resource_at(tx as u32, ty as u32)
        } else {
            deposit_around(map, x, y, k + 1)
        }
    }
}

/// The state after mining by hand: the first deposit around the player
/// gives one item of its kind; without a deposit nothing changes.
#[verifier::opaque]
pub open spec fn mined(g: GameStateView) -> GameStateView {
    match deposit_around(g.map, g.player.x, g.player.y, 0) {
        Some(kind) => {
            let item = kind.item();
            let got = g.with_inventory(with_added(g.player.inventory, item, 1)).validated();
            got.logged(mined_text(item, got.player.inventory[item]))
        },
        None => g,
    }
}

fn offset_around(k: u8) -> (d: (i64, i64))
    requires
        k < 8,
    ensures
        (d.0 as int, d.1 as int) == around(k as int),
{
    if k == 0 {
        (-1, -1)
    } else if k == 1 {
        (0, -1)
    } else if k == 2 {
        (1, -1)
    } else if k == 3 {
        (-1, 0)
    } else if k == 4 {
        (1, 0)
    } else if k == 5 {
        (-1, 1)
    } else if k == 6 {
        (0, 1)
    } else {
        (1, 1)
    }
}

/// Mines one item from a deposit next to the player.
pub fn handle_mining(game_state: &mut GameState)
    requires
        mined(old(game_state)@).fits(),
    ensures
        final(game_state)@ == mined(old(game_state)@),
{
    proof {
        reveal(mined);
    }
    let player_x: u32 = game_state.player_x();
    let player_y: u32 = game_state.player_y();
    let mut k: u8 = 0;
    while k < 8
        invariant
            k <= 8,
            game_state@ == old(game_state)@,
            player_x == game_state@.player.x,
            player_y == game_state@.player.y,
            mined(old(game_state)@).fits(),
            deposit_around(game_state@.map, player_x, player_y, 0) == deposit_around(
                game_state@.map,
                player_x,
                player_y,
                k as int,
            ),
        decreases 8 - k,
    {
        let (dx, dy): (i64, i64) = offset_around(k);
        let check_x: i64 = player_x as i64 + dx;
        let check_y: i64 = player_y as i64 + dy;
        if check_x >= 0 && check_y >= 0 && check_x < game_state.map_width() as i64 && check_y
            < game_state.map_height() as i64 {
            match game_state.map().get_resource_at(check_x as u32, check_y as u32) {
                Some(kind) => {
                    let item = kind.as_item();
                    proof {
                        reveal(mined);
                        let done = mined(game_state@);
                        assert(done.player.inventory[item] <= u32::MAX);
                    }
                    game_state.player_mut().add_to_inventory(item);
                    game_state.validate_selection();
                    let total: u32 = game_state.item_count(item);
                    game_state.add_console_message(mined_message(item, total));
                    return ;
                },
                None => {},
            }
        }
        k = k + 1;
    }
}

/// The machine at the tile that actions aim at, with its tile, if it is one
/// that takes items: a furnace, a chest or a drill.
pub open spec fn container_at_target(g: GameStateView) -> Option<((u32, u32), PlaceableType)> {
    match g.aim() {
        Some(t) => match g.map.placeable_at(t.0, t.1) {
            Some(kind) => if kind == PlaceableType::Furnace || kind == PlaceableType::Chest || kind
                == PlaceableType::Drill {
                Some((t, kind))
            } else {
                None
            },
            None => None,
        },
        None => None,
    }
}

/// The tile that actions aim at, if a furnace stands on it.
pub open spec fn furnace_at_target(g: GameStateView) -> Option<(u32, u32)> {
    match g.aim() {
        Some(t) => if g.map.placeable_at(t.0, t.1) == Some(PlaceableType::Furnace) {
            Some(t)
        } else {
            None
        },
        None => None,
    }
}

pub fn get_furnace_at_cursor_or_front(game_state: &GameState) -> (tile: Option<(u32, u32)>)
    ensures
        tile == furnace_at_target(game_state@),
{
    match game_state.target_tile() {
        Some(t) => match game_state.map().get_placeable_at(t.0, t.1) {
            Some(PlaceableType::Furnace) => Some(t),
            _ => None,
        },
        None => None,
    }
}

pub fn get_container_at_cursor_or_front(game_state: &GameState) -> (found: Option<
    ((u32, u32), PlaceableType),
>)
    ensures
        found == container_at_target(game_state@),
{
    match game_state.target_tile() {
        Some(t) => match game_state.map().get_placeable_at(t.0, t.1) {
            Some(PlaceableType::Furnace) => Some((t, PlaceableType::Furnace)),
            Some(PlaceableType::Chest) => Some((t, PlaceableType::Chest)),
            Some(PlaceableType::Drill) => Some((t, PlaceableType::Drill)),
            _ => None,
        },
        None => None,
    }
}

/// The state after an attempt to place the selected item on the tile that
/// actions aim at. The first obstacle, in the order tested, is named on the
/// console and nothing else changes; without one the item leaves the
/// inventory and its machine stands on the tile. A deposit is an obstacle to
/// every machine but a drill that can drill it, so stone is one to a drill
/// too.
#[verifier::opaque]
pub open spec fn placed_selected(g: GameStateView) -> GameStateView {
    match g.aim() {
        None => g.logged("Cannot place outside map bounds!"@),
        Some(t) => match g.selected_item {
            None => g.logged("No item selected!"@),
            Some(item) => match item.placeable() {
                None => g.logged("Selected item cannot be placed!"@),
                Some(kind) => if g.player.inventory[item] == 0 {
                    g.logged(none_held_text(kind.name_text()))
                } else if g.map.in_water(t.0 as int, t.1 as int) {
                    g.logged("Cannot place on water!"@)
                } else if g.map.placeable_at(t.0, t.1) is Some {
                    g.logged("Position already occupied!"@)
                } else if g.map.deposit_refuses(t.0, t.1, kind) {
                    g.logged("Cannot place on resource!"@)
                } else {
                    let spent = g.with_inventory(
                        with_removed(g.player.inventory, item, 1),
                    ).validated();
                    spent.with_map(spent.map.placed(t.0, t.1, kind)).logged(placed_text(kind))
                },
            },
        },
    }
}

/// Places the selected item as a machine.
pub fn handle_placement(game_state: &mut GameState)
    ensures
        final(game_state)@ == placed_selected(old(game_state)@),
{
    proof {
        reveal(placed_selected);
    }
    let (place_x, place_y): (u32, u32) = match game_state.target_tile() {
        Some(t) => t,
        None => {
            say(game_state, "Cannot place outside map bounds!");
            return ;
        },
    };
    let selected_item = match game_state.get_selected_item() {
        Some(item) => item,
        None => {
            say(game_state, "No item selected!");
            return ;
        },
    };
    let place_type = match selected_item.as_placeable() {
        Some(kind) => kind,
        None => {
            say(game_state, "Selected item cannot be placed!");
            return ;
        },
    };
    if game_state.item_count(selected_item) == 0 {
        game_state.add_console_message(none_held_message(place_type.name()));
        return ;
    }
    if game_state.map().would_collide_with_water(place_x, place_y) {
        say(game_state, "Cannot place on water!");
        return ;
    }
    if game_state.map().get_placeable_at(place_x, place_y).is_some() {
        say(game_state, "Position already occupied!");
        return ;
    }
    if game_state.map().deposit_keeps_off(place_x, place_y, place_type) {
        say(game_state, "Cannot place on resource!");
        return ;
    }
    game_state.player_mut().inventory_mut().remove_items(selected_item, 1);
    game_state.validate_selection();
    game_state.map_mut().add_placeable(place_x, place_y, place_type);
    game_state.add_console_message(placed_message(place_type));
}

/// The state after the selection moved one place through the list of
/// available kinds, forward for a positive `direction` and backward
/// otherwise, wrapping at the ends. A selection that is not in the list
/// counts as the first place.
#[verifier::opaque]
pub open spec fn cycled(g: GameStateView, direction: i32) -> GameStateView {
    let available = available_items(g.player.inventory);
    let current = match g.selected_item {
        Some(item) => match first_index(available, item) {
            Some(i) => i,
            None => 0,
        },
        None => 0,
    };
    let next = if direction > 0 {
        (current + 1) % (available.len() as int)
    } else if current == 0 {
        available.len() - 1
    } else {
        current - 1
    };
    if available.len() == 0 {
        GameStateView { selected_item: None, ..g }
    } else {
        GameStateView { selected_item: Some(available[next]), ..g }
    }
}

/// Cycling leaves a selection that is held.
pub proof fn lemma_cycled_valid(g: GameStateView, direction: i32)
    ensures
        cycled(g, direction).selection_valid(),
{
    reveal(cycled);
    let available = available_items(g.player.inventory);
    crate::inventory::lemma_available_items(g.player.inventory);
    if available.len() == 0 {
        assert forall|i: Item| g.player.inventory[i] == 0 by {
            if g.player.inventory[i] > 0 {
                assert(available.contains(i));
            }
        }
    } else {
        let picked = cycled(g, direction).selected_item->0;
        if let Some(item) = g.selected_item {
            crate::lookup::lemma_first_index(available, item);
        }
        assert(available.contains(picked));
    }
}

pub fn cycle_inventory_selection(game_state: &mut GameState, direction: i32)
    ensures
        final(game_state)@ == cycled(old(game_state)@, direction),
        final(game_state)@.selection_valid(),
{
    proof {
        reveal(cycled);
    }
    proof {
        lemma_cycled_valid(game_state@, direction);
    }
    let available = game_state.get_available_items();
    if available.len() == 0 {
        game_state.set_selected_item(None);
        return ;
    }
    let mut current_index: usize = 0;
    match game_state.selected_item() {
        Some(item) => {
            let mut i: usize = 0;
            let mut found: bool = false;
            while i < available.len() && !found
                invariant
                    i <= available@.len(),
                    !found ==> forall|j: int| 0 <= j < i ==> available@[j] != item,
                    found ==> is_first(available@, item, current_index as int),
                    !found ==> current_index == 0,
                decreases available@.len() - i + if found { 0int } else { 1int },
            {
                if available[i] == item {
                    current_index = i;
                    found = true;
                } else {
                    i = i + 1;
                }
            }
            proof {
                if found {
                    lemma_first_index_is(available@, item, current_index as int);
                } else {
                    lemma_first_index_none(available@, item);
                }
            }
        },
        None => {},
    }
    let new_index: usize = if direction > 0 {
        (current_index + 1) % available.len()
    } else if current_index == 0 {
        available.len() - 1
    } else {
        current_index - 1
    };
    game_state.set_selected_item(Some(available[new_index]));
}

/// The state after an attempt to put one of the selected item into the
/// container that actions aim at. A chest takes any kind, a drill coal, a
/// furnace coal, iron ore and copper. What stands in the way is named on the
/// console and nothing else changes.
#[verifier::opaque]
pub open spec fn fed(g: GameStateView) -> GameStateView {
    match container_at_target(g) {
        None => g.logged("No furnace, chest, or drill in front of you!"@),
        Some((t, kind)) => match g.selected_item {
            None => g.logged("No item selected!"@),
            Some(item) => {
                let held = g.player.inventory[item];
                let spent = g.with_inventory(with_removed(g.player.inventory, item, 1));
                match kind {
                    PlaceableType::Chest => if held == 0 {
                        g.logged(none_held_text(item.name_text()))
                    } else if !g.map.chests.contains_key(t) {
                        g
                    } else {
                        spent.with_map(
                            MapView {
                                chests: g.map.chests.insert(t, chest_add(g.map.chests[t], item, 1)),
                                ..g.map
                            },
                        ).logged(added_text(item.name_text(), kind)).validated()
                    },
                    PlaceableType::Drill => if item != Item::Coal {
                        g.logged("Drill only accepts coal!"@)
                    } else if held == 0 {
                        g.logged(none_held_text(raw_name_text(item)))
                    } else if !g.map.drills.contains_key(t) {
                        g
                    } else {
                        spent.with_map(
                            MapView {
                                drills: g.map.drills.insert(
                                    t,
                                    DrillView { coal: g.map.drills[t].coal + 1, ..g.map.drills[t] },
                                ),
                                ..g.map
                            },
                        ).logged(added_text(raw_name_text(item), kind)).validated()
                    },
                    _ => if !item.feeds_furnace() {
                        g.logged("Furnace only accepts coal, iron ore, or copper!"@)
                    } else if held == 0 {
                        g.logged(none_held_text(raw_name_text(item)))
                    } else if !g.map.furnaces.contains_key(t) {
                        g
                    } else {
                        spent.with_map(
                            MapView {
                                furnaces: g.map.furnaces.insert(
                                    t,
                                    g.map.furnaces[t].with_input(item),
                                ),
                                ..g.map
                            },
                        ).logged(added_text(raw_name_text(item), kind)).validated()
                    },
                }
            },
        },
    }
}

/// Puts one of the selected item into the furnace, chest or drill that
/// actions aim at.
pub fn handle_furnace_add_item(game_state: &mut GameState)
    requires
        fed(old(game_state)@).fits(),
    ensures
        final(game_state)@ == fed(old(game_state)@),
{
    proof {
        reveal(fed);
    }
    let ((container_x, container_y), container_type): ((u32, u32), PlaceableType) =
        match get_container_at_cursor_or_front(game_state) {
        Some(found) => found,
        None => {
            say(game_state, "No furnace, chest, or drill in front of you!");
            return ;
        },
    };
    let selected_item = match game_state.get_selected_item() {
        Some(item) => item,
        None => {
            say(game_state, "No item selected!");
            return ;
        },
    };
    let held: u32 = game_state.item_count(selected_item);
    let ghost t = (container_x, container_y);
    let ghost done = fed(game_state@);
    match container_type {
        PlaceableType::Chest => {
            if held == 0 {
                game_state.add_console_message(none_held_message(selected_item.name()));
                return ;
            }
            match game_state.map().get_chest_data(container_x, container_y) {
                Some(chest) => {
                    let mut chest = chest;
                    assert(crate::chest::chest_fits(done.map.chests[t]));
                    game_state.player_mut().inventory_mut().remove_items(selected_item, 1);
                    chest.add_item(selected_item, 1);
                    game_state.map_mut().set_chest_data(container_x, container_y, chest);
                    game_state.add_console_message(
                        added_message(selected_item.name(), container_type),
                    );
                    game_state.validate_selection();
                },
                None => {},
            }
        },
        PlaceableType::Drill => {
            match selected_item {
                Item::Coal => {},
                _ => {
                    say(game_state, "Drill only accepts coal!");
                    return ;
                },
            }
            if held == 0 {
                game_state.add_console_message(none_held_message(raw_name(selected_item)));
                return ;
            }
            match game_state.map().get_drill_data(container_x, container_y) {
                Some(drill) => {
                    let mut drill = drill;
                    assert(done.map.drills[t].fits());
                    game_state.player_mut().inventory_mut().remove_items(selected_item, 1);
                    drill.add_coal();
                    game_state.map_mut().set_drill_data(container_x, container_y, drill);
                    game_state.add_console_message(
                        added_message(raw_name(selected_item), container_type),
                    );
                    game_state.validate_selection();
                },
                None => {},
            }
        },
        _ => {
            if !selected_item.is_furnace_input() {
                say(game_state, "Furnace only accepts coal, iron ore, or copper!");
                return ;
            }
            if held == 0 {
                game_state.add_console_message(none_held_message(raw_name(selected_item)));
                return ;
            }
            match game_state.map().get_furnace_data(container_x, container_y) {
                Some(furnace) => {
                    let mut furnace = furnace;
                    assert(done.map.furnaces[t].fits());
                    game_state.player_mut().inventory_mut().remove_items(selected_item, 1);
                    furnace.add_input(selected_item);
                    game_state.map_mut().set_furnace_data(container_x, container_y, furnace);
                    game_state.add_console_message(
                        added_message(raw_name(selected_item), container_type),
                    );
                    game_state.validate_selection();
                },
                None => {},
            }
        },
    }
}

/// The state after picking up at the tile that actions aim at: the stack
/// that rides on a belt there, else the oldest stack on the ground there,
/// else one plate from a furnace there, iron before copper.
#[verifier::opaque]
pub open spec fn picked_up(g: GameStateView) -> GameStateView {
    match g.aim() {
        None => g,
        Some(t) => if g.map.belt_items.contains_key(t) {
            let stack = g.map.belt_items[t];
            g.with_inventory(with_added(g.player.inventory, stack.item, stack.quantity)).with_map(
                MapView { belt_items: g.map.belt_items.remove(t), ..g.map },
            ).logged(picked_up_text(stack.quantity, stack.item, true)).validated()
        } else if g.map.dropped_index_at(t.0, t.1) is Some {
            let i = g.map.dropped_index_at(t.0, t.1)->0;
            let stack = g.map.dropped_items[i];
            g.with_inventory(with_added(g.player.inventory, stack.item, stack.quantity)).with_map(
                g.map.without_dropped(i),
            ).logged(picked_up_text(stack.quantity, stack.item, false)).validated()
        } else if g.map.placeable_at(t.0, t.1) == Some(PlaceableType::Furnace)
            && g.map.furnaces.contains_key(t) {
            let f = g.map.furnaces[t];
            if f.iron_plate > 0 {
                g.with_map(
                    MapView {
                        furnaces: g.map.furnaces.insert(
                            t,
                            FurnaceView { iron_plate: (f.iron_plate - 1) as nat, ..f },
                        ),
                        ..g.map
                    },
                ).with_inventory(with_added(g.player.inventory, Item::IronPlate, 1)).logged(
                    "Harvested iron plate!"@,
                ).validated()
            } else if f.copper_plate > 0 {
                g.with_map(
                    MapView {
                        furnaces: g.map.furnaces.insert(
                            t,
                            FurnaceView { copper_plate: (f.copper_plate - 1) as nat, ..f },
                        ),
                        ..g.map
                    },
                ).with_inventory(with_added(g.player.inventory, Item::CopperPlate, 1)).logged(
                    "Harvested copper plate!"@,
                ).validated()
            } else {
                g.logged("No plates in furnace!"@)
            }
        } else {
            g
        },
    }
}

/// Picks up a stack, or harvests a plate from a furnace.
pub fn handle_pickup(game_state: &mut GameState)
    requires
        picked_up(old(game_state)@).fits(),
    ensures
        final(game_state)@ == picked_up(old(game_state)@),
{
    proof {
        reveal(picked_up);
    }
    let (check_x, check_y): (u32, u32) = match game_state.target_tile() {
        Some(t) => t,
        None => {
            return ;
        },
    };
    let ghost done = picked_up(game_state@);
    match game_state.map().get_belt_item(check_x, check_y) {
        Some(belt_item) => {
            let item = belt_item.item();
            let quantity: u32 = belt_item.quantity();
            assert(done.player.inventory[item] <= u32::MAX);
            game_state.player_mut().inventory_mut().add_items(item, quantity);
            game_state.map_mut().remove_belt_item(check_x, check_y);
            game_state.add_console_message(picked_up_message(quantity, item, true));
            game_state.validate_selection();
            return ;
        },
        None => {},
    }
    match game_state.map().get_dropped_item_index_at(check_x, check_y) {
        Some(index) => {
            match game_state.map().get_dropped_item(index) {
                Some(dropped_item) => {
                    let item = dropped_item.item();
                    let quantity: u32 = dropped_item.quantity();
                    assert(done.player.inventory[item] <= u32::MAX);
                    game_state.player_mut().inventory_mut().add_items(item, quantity);
                    game_state.map_mut().remove_dropped_item(index);
                    game_state.add_console_message(picked_up_message(quantity, item, false));
                    game_state.validate_selection();
                },
                None => {},
            }
            return ;
        },
        None => {},
    }
    match get_furnace_at_cursor_or_front(game_state) {
        Some((furnace_x, furnace_y)) => {
            match game_state.map().get_furnace_data(furnace_x, furnace_y) {
                Some(furnace_data) => {
                    let mut furnace_data = furnace_data;
                    if furnace_data.iron_plate_count() > 0 {
                        assert(done.player.inventory[Item::IronPlate] <= u32::MAX);
                        furnace_data.remove_iron_plate(1);
                        game_state.map_mut().set_furnace_data(furnace_x, furnace_y, furnace_data);
                        game_state.player_mut().add_to_inventory(Item::IronPlate);
                        say(game_state, "Harvested iron plate!");
                        game_state.validate_selection();
                    } else if furnace_data.copper_plate_count() > 0 {
                        assert(done.player.inventory[Item::CopperPlate] <= u32::MAX);
                        furnace_data.remove_copper_plate(1);
                        game_state.map_mut().set_furnace_data(furnace_x, furnace_y, furnace_data);
                        game_state.player_mut().add_to_inventory(Item::CopperPlate);
                        say(game_state, "Harvested copper plate!");
                        game_state.validate_selection();
                    } else {
                        say(game_state, "No plates in furnace!");
                    }
                },
                None => {},
            }
        },
        None => {},
    }
}

/// The state after the machine at the tile that actions aim at was turned a
/// quarter clockwise. Only belts, arms and drills turn.
#[verifier::opaque]
pub open spec fn rotated(g: GameStateView) -> GameStateView {
    match g.aim() {
        None => g,
        Some(t) => match g.map.placeable_object_at(t.0, t.1) {
            Some(obj) => if obj.placeable_type == PlaceableType::Belt || obj.placeable_type
                == PlaceableType::Arm || obj.placeable_type == PlaceableType::Drill {
                g.with_map(g.map.turned(t.0, t.1, obj.direction.clockwise())).logged(
                    rotated_text(obj.placeable_type, obj.direction.clockwise()),
                )
            } else {
                g
            },
            None => g,
        },
    }
}

/// Turns a belt, an arm or a drill a quarter clockwise.
pub fn handle_belt_rotation(game_state: &mut GameState)
    ensures
        final(game_state)@ == rotated(old(game_state)@),
{
    proof {
        reveal(rotated);
    }
    let (rotate_x, rotate_y): (u32, u32) = match game_state.target_tile() {
        Some(t) => t,
        None => {
            return ;
        },
    };
    match game_state.map().get_placeable_object_at(rotate_x, rotate_y) {
        Some(obj) => {
            match obj.placeable_type() {
                PlaceableType::Furnace => {},
                PlaceableType::Chest => {},
                kind => {
                    let new_direction = obj.direction().turned_clockwise();
                    game_state.map_mut().set_placeable_direction(rotate_x, rotate_y, new_direction);
                    game_state.add_console_message(rotated_message(kind, new_direction));
                },
            }
        },
        None => {},
    }
}

/// The state after an attempt to drop one of the selected item on the tile
/// that actions aim at. On an empty belt it rides the belt; on the ground
/// it joins the stack of its kind or starts one. What stands in the way is
/// named on the console and nothing else changes.
#[verifier::opaque]
pub open spec fn dropped(g: GameStateView) -> GameStateView {
    match g.aim() {
        None => g.logged("Cannot drop outside map bounds!"@),
        Some(t) => if g.map.in_water(t.0 as int, t.1 as int) {
            g.logged("Cannot drop on water!"@)
        } else if g.map.blocked(t.0, t.1) {
            g.logged("Cannot drop on furnace or chest!"@)
        } else {
            match g.selected_item {
                None => g.logged("No item selected!"@),
                Some(item) => {
                    let spent = g.with_inventory(with_removed(g.player.inventory, item, 1));
                    let one = StackView { x: t.0, y: t.1, item, quantity: 1 };
                    if g.player.inventory[item] == 0 {
                        g.logged("No items to drop!"@)
                    } else if g.map.placeable_at(t.0, t.1) == Some(PlaceableType::Belt) {
                        if g.map.belt_items.contains_key(t) {
                            g.logged("Belt already has an item!"@)
                        } else {
                            spent.with_map(
                                MapView { belt_items: g.map.belt_items.insert(t, one), ..g.map },
                            ).logged(put_on_belt_text(item)).validated()
                        }
                    } else {
                        match g.map.dropped_index_at(t.0, t.1) {
                            Some(i) => if g.map.dropped_items[i].item == item {
                                spent.with_map(
                                    g.map.with_dropped_at(
                                        i,
                                        StackView {
                                            quantity: g.map.dropped_items[i].quantity + 1,
                                            ..g.map.dropped_items[i]
                                        },
                                    ),
                                ).logged(dropped_text(item)).validated()
                            } else {
                                g.logged("Cannot drop on different item!"@)
                            },
                            None => spent.with_map(g.map.with_dropped(one)).logged(
                                dropped_text(item),
                            ).validated(),
                        }
                    }
                },
            }
        },
    }
}

/// Drops one of the selected item.
pub fn handle_drop_item(game_state: &mut GameState)
    requires
        dropped(old(game_state)@).fits(),
    ensures
        final(game_state)@ == dropped(old(game_state)@),
{
    proof {
        reveal(dropped);
    }
    let (drop_x, drop_y): (u32, u32) = match game_state.target_tile() {
        Some(t) => t,
        None => {
            say(game_state, "Cannot drop outside map bounds!");
            return ;
        },
    };
    if game_state.map().would_collide_with_water(drop_x, drop_y) {
        say(game_state, "Cannot drop on water!");
        return ;
    }
    if game_state.map().would_collide_with_placeable(drop_x, drop_y) {
        say(game_state, "Cannot drop on furnace or chest!");
        return ;
    }
    let selected_item = match game_state.get_selected_item() {
        Some(item) => item,
        None => {
            say(game_state, "No item selected!");
            return ;
        },
    };
    if game_state.item_count(selected_item) == 0 {
        say(game_state, "No items to drop!");
        return ;
    }
    let ghost done = dropped(game_state@);
    match game_state.map().get_placeable_at(drop_x, drop_y) {
        Some(PlaceableType::Belt) => {
            if game_state.map().has_belt_item(drop_x, drop_y) {
                say(game_state, "Belt already has an item!");
                return ;
            }
            game_state.player_mut().inventory_mut().remove_items(selected_item, 1);
            game_state.map_mut().set_belt_item(
                drop_x,
                drop_y,
                DroppedItem::new(drop_x, drop_y, selected_item, 1),
            );
            game_state.add_console_message(put_on_belt_message(selected_item));
            game_state.validate_selection();
            return ;
        },
        _ => {},
    }
    match game_state.map().get_dropped_item_index_at(drop_x, drop_y) {
        Some(index) => {
            match game_state.map().get_dropped_item(index) {
                Some(existing) => {
                    let mut existing = existing;
                    if existing.item() == selected_item {
                        assert(done.map.dropped_items[index as int].quantity <= u32::MAX);
                        existing.add_quantity(1);
                        game_state.map_mut().set_dropped_item(index, existing);
                        game_state.player_mut().inventory_mut().remove_items(selected_item, 1);
                        game_state.add_console_message(dropped_message(selected_item));
                        game_state.validate_selection();
                    } else {
                        say(game_state, "Cannot drop on different item!");
                    }
                },
                None => {},
            }
        },
        None => {
            game_state.player_mut().inventory_mut().remove_items(selected_item, 1);
            game_state.map_mut().add_dropped_item(
                DroppedItem::new(drop_x, drop_y, selected_item, 1),
            );
            game_state.add_console_message(dropped_message(selected_item));
            game_state.validate_selection();
        },
    }
}

/// The ledger after a machine of `kind` on tile `t` was taken up with all
/// it holds: a furnace's stores, the stack on a belt, a chest's stacks, a
/// drill's coal, and the machine itself.
pub open spec fn collected(g: GameStateView, t: (u32, u32), kind: PlaceableType) -> Map<Item, nat> {
    let inv = g.player.inventory;
    let with_contents = match kind {
        PlaceableType::Furnace => if g.map.furnaces.contains_key(t) {
            let f = g.map.furnaces[t];
            with_added(
                with_added(
                    with_added(
                        with_added(with_added(inv, Item::Coal, f.coal), Item::IronOre, f.iron_ore),
                        Item::IronPlate,
                        f.iron_plate,
                    ),
                    Item::Copper,
                    f.copper,
                ),
                Item::CopperPlate,
                f.copper_plate,
            )
        } else {
            inv
        },
        PlaceableType::Belt => if g.map.belt_items.contains_key(t) {
            with_added(inv, g.map.belt_items[t].item, g.map.belt_items[t].quantity)
        } else {
            inv
        },
        PlaceableType::Arm => inv,
        PlaceableType::Chest => if g.map.chests.contains_key(t) {
            emptied_into(inv, g.map.chests[t])
        } else {
            inv
        },
        PlaceableType::Drill => if g.map.drills.contains_key(t) {
            with_added(inv, Item::Coal, g.map.drills[t].coal)
        } else {
            inv
        },
    };
    with_added(with_contents, kind.item(), 1)
}

/// The state after the machine at the tile that actions aim at was taken
/// up: it and all it held are in the inventory, and the tile holds no
/// machine and no machine state.
#[verifier::opaque]
pub open spec fn machine_picked_up(g: GameStateView) -> GameStateView {
    match g.aim() {
        None => g,
        Some(t) => match g.map.placeable_at(t.0, t.1) {
            None => g,
            Some(kind) => g.with_inventory(collected(g, t, kind)).logged(
                machine_picked_up_text(kind),
            ).with_map(g.map.without_placeable(t.0, t.1)).validated(),
        },
    }
}

/// Taking up a chest returns what it held, kind by kind: the count of every
/// kind rises by the chest's total of that kind, and that of chests by one
/// more. The tile is left without a machine and without a chest's state.
pub proof fn lemma_chest_round_trip(g: GameStateView, t: (u32, u32), item: Item)
    requires
        g.aim() == Some(t),
        g.map.placeable_at(t.0, t.1) == Some(PlaceableType::Chest),
        g.map.chests.contains_key(t) || g.map.equipped(),
    ensures
        machine_picked_up(g).player.inventory[item] == g.player.inventory[item]
            + crate::chest::chest_count(g.map.chests[t], item) + if item == Item::Chest {
            1nat
        } else {
            0nat
        },
        machine_picked_up(g).map.placeable_at(t.0, t.1) is None,
        !machine_picked_up(g).map.chests.contains_key(t),
        !machine_picked_up(g).map.belt_items.contains_key(t),
{
    reveal(machine_picked_up);
    if g.map.equipped() {
        crate::map::lemma_equipped_at(g.map, t.0, t.1);
    }
    lemma_emptied_into(g.player.inventory, g.map.chests[t], item);
    crate::map::lemma_placeables_off(g.map.placeables, t.0, t.1);
}

/// Whether `after` is `before` with the tile `t` cleared: no machine and no
/// machine's state is left on `t`, nothing rides a belt there, and on every
/// other tile the machine and its state are what they were.
pub open spec fn tile_cleared(before: MapView, after: MapView, t: (u32, u32)) -> bool {
    &&& after.placeable_at(t.0, t.1) is None
    &&& !after.furnaces.contains_key(t)
    &&& !after.arms.contains_key(t)
    &&& !after.chests.contains_key(t)
    &&& !after.drills.contains_key(t)
    &&& !after.belt_items.contains_key(t)
    &&& forall|p: (u32, u32)|
        p != t ==> {
            &&& #[trigger] after.placeable_object_at(p.0, p.1) == before.placeable_object_at(
                p.0,
                p.1,
            )
            &&& after.furnaces.contains_key(p) == before.furnaces.contains_key(p)
            &&& after.furnaces.contains_key(p) ==> after.furnaces[p] == before.furnaces[p]
            &&& after.arms.contains_key(p) == before.arms.contains_key(p)
            &&& after.arms.contains_key(p) ==> after.arms[p] == before.arms[p]
            &&& after.chests.contains_key(p) == before.chests.contains_key(p)
            &&& after.chests.contains_key(p) ==> after.chests[p] == before.chests[p]
            &&& after.drills.contains_key(p) == before.drills.contains_key(p)
            &&& after.drills.contains_key(p) ==> after.drills[p] == before.drills[p]
            &&& after.belt_items.contains_key(p) == before.belt_items.contains_key(p)
            &&& after.belt_items.contains_key(p) ==> after.belt_items[p] == before.belt_items[p]
        }
    &&& after.dropped_items == before.dropped_items
    &&& after.water_patches == before.water_patches
    &&& after.resources == before.resources
}

/// A machine that actions aim at: its tile and its kind.
pub struct Aimed {
    pub tile: (u32, u32),
    pub kind: PlaceableType,
}

/// The machine that actions aim at.
pub open spec fn machine_at_target(g: GameStateView) -> Option<Aimed> {
    match g.aim() {
        Some(t) => match g.map.placeable_at(t.0, t.1) {
            Some(kind) => Some(Aimed { tile: t, kind }),
            None => None,
        },
        None => None,
    }
}

/// Taking up the machine that actions aim at clears its tile and nothing
/// else of the world, and leaves a valid selection. Where actions aim at no
/// machine nothing changes at all.
pub proof fn lemma_machine_picked_up(g: GameStateView)
    ensures
        machine_at_target(g) is None ==> machine_picked_up(g) == g,
        machine_at_target(g) is Some ==> {
            let t = machine_at_target(g).unwrap().tile;
            let kind = machine_at_target(g).unwrap().kind;
            &&& tile_cleared(g.map, machine_picked_up(g).map, t)
            &&& machine_picked_up(g).selection_valid()
            &&& machine_picked_up(g).player.inventory == collected(g, t, kind)
        },
{
    reveal(machine_picked_up);
    if machine_at_target(g) is Some {
        let t = machine_at_target(g).unwrap().tile;
        let kind = machine_at_target(g).unwrap().kind;
        let after = machine_picked_up(g).map;
        crate::map::lemma_placeables_off(g.map.placeables, t.0, t.1);
        assert forall|p: (u32, u32)| p != t implies #[trigger] after.placeable_object_at(
            p.0,
            p.1,
        ) == g.map.placeable_object_at(p.0, p.1) by {
            crate::map::lemma_placeables_off_elsewhere(g.map.placeables, t.0, t.1, p);
        }
        crate::game_state::lemma_validated(
            g.with_inventory(collected(g, t, kind)).logged(machine_picked_up_text(kind)).with_map(
                g.map.without_placeable(t.0, t.1),
            ),
        );
    }
}

/// Picks up the machine that actions aim at, with all it holds. Its tile is
/// cleared; a chest gives back, kind by kind, what its stacks held.
pub fn handle_pickup_placeable(game_state: &mut GameState)
    requires
        machine_picked_up(old(game_state)@).fits(),
    ensures
        final(game_state)@ == machine_picked_up(old(game_state)@),
        machine_at_target(old(game_state)@) is None ==> final(game_state)@ == old(game_state)@,
        machine_at_target(old(game_state)@) is Some ==> tile_cleared(
            old(game_state)@.map,
            final(game_state)@.map,
            machine_at_target(old(game_state)@).unwrap().tile,
        ) && final(game_state)@.selection_valid(),
        machine_at_target(old(game_state)@) is Some && machine_at_target(old(game_state)@).unwrap().kind
            == PlaceableType::Chest && (old(game_state)@.map.equipped() || old(game_state)@.map.chests.contains_key(machine_at_target(old(game_state)@).unwrap().tile))
            ==> forall|item: Item|
            (#[trigger] final(game_state)@.player.inventory[item]) == old(game_state)@.player.inventory[item] + crate::chest::chest_count(
                old(game_state)@.map.chests[machine_at_target(old(game_state)@).unwrap().tile],
                item,
            ) + if item == Item::Chest {
                1nat
            } else {
                0nat
            },
{
    proof {
        reveal(machine_picked_up);
        lemma_machine_picked_up(game_state@);
        if let Some(t) = game_state@.aim() {
            if game_state@.map.equipped() {
                crate::map::lemma_equipped_at(game_state@.map, t.0, t.1);
            }
            if game_state@.map.placeable_at(t.0, t.1) == Some(PlaceableType::Chest)
                && game_state@.map.chests.contains_key(t) {
                assert forall|item: Item|
                    (#[trigger] machine_picked_up(game_state@).player.inventory[item])
                        == game_state@.player.inventory[item] + crate::chest::chest_count(
                        game_state@.map.chests[t],
                        item,
                    ) + if item == Item::Chest {
                        1nat
                    } else {
                        0nat
                    } by {
                    lemma_chest_round_trip(game_state@, t, item);
                }
            }
        }
    }
    let (check_x, check_y): (u32, u32) = match game_state.target_tile() {
        Some(t) => t,
        None => {
            return ;
        },
    };
    let kind = match game_state.map().get_placeable_at(check_x, check_y) {
        Some(kind) => kind,
        None => {
            return ;
        },
    };
    let ghost start = game_state@;
    let ghost t = (check_x, check_y);
    let ghost done = machine_picked_up(start);
    let ghost goal = collected(start, t, kind);
    proof {
        assert(done.player.inventory == goal);
        assert(forall|i: Item| goal[i] <= u32::MAX);
    }
    match kind {
        PlaceableType::Furnace => {
            match game_state.map().get_furnace_data(check_x, check_y) {
                Some(f) => {
                    proof {
                        assert(goal[Item::Coal] <= u32::MAX);
                        assert(goal[Item::IronOre] <= u32::MAX);
                        assert(goal[Item::IronPlate] <= u32::MAX);
                        assert(goal[Item::Copper] <= u32::MAX);
                        assert(goal[Item::CopperPlate] <= u32::MAX);
                    }
                    game_state.player_mut().inventory_mut().add_items(Item::Coal, f.coal_count());
                    game_state.player_mut().inventory_mut().add_items(
                        Item::IronOre,
                        f.iron_ore_count(),
                    );
                    game_state.player_mut().inventory_mut().add_items(
                        Item::IronPlate,
                        f.iron_plate_count(),
                    );
                    game_state.player_mut().inventory_mut().add_items(
                        Item::Copper,
                        f.copper_count(),
                    );
                    game_state.player_mut().inventory_mut().add_items(
                        Item::CopperPlate,
                        f.copper_plate_count(),
                    );
                },
                None => {},
            }
        },
        PlaceableType::Belt => {
            match game_state.map().get_belt_item(check_x, check_y) {
                Some(belt_item) => {
                    assert(goal[belt_item@.item] <= u32::MAX);
                    game_state.player_mut().inventory_mut().add_items(
                        belt_item.item(),
                        belt_item.quantity(),
                    );
                },
                None => {},
            }
        },
        PlaceableType::Arm => {},
        PlaceableType::Chest => {
            match game_state.map().get_chest_data(check_x, check_y) {
                Some(chest) => {
                    let items = chest.get_all_items();
                    let mut i: usize = 0;
                    while i < items.len()
                        invariant
                            i <= items@.len(),
                            items@ == crate::chest::chest_kinds(chest@),
                            goal == with_added(
                                emptied_into(start.player.inventory, chest@),
                                Item::Chest,
                                1,
                            ),
                            forall|k: Item| goal[k] <= u32::MAX,
                            game_state@ == start.with_inventory(
                                emptied_into(start.player.inventory, chest@.take(i as int)),
                            ),
                        decreases items@.len() - i,
                    {
                        let item = items[i];
                        let quantity: u32 = chest.get_item_quantity(i);
                        proof {
                            let inv = start.player.inventory;
                            assert(chest@.take(i + 1).drop_last() =~= chest@.take(i as int));
                            lemma_emptied_into(inv, chest@.take(i + 1), item);
                            lemma_emptied_into(inv, chest@, item);
                            lemma_chest_count_grows(chest@, i + 1, item);
                            assert(goal[item] <= u32::MAX);
                        }
                        game_state.player_mut().inventory_mut().add_items(item, quantity);
                        i = i + 1;
                    }
                    assert(chest@.take(i as int) =~= chest@);
                },
                None => {},
            }
        },
        PlaceableType::Drill => {
            match game_state.map().get_drill_data(check_x, check_y) {
                Some(drill) => {
                    assert(goal[Item::Coal] <= u32::MAX);
                    game_state.player_mut().inventory_mut().add_items(
                        Item::Coal,
                        drill.coal_count(),
                    );
                },
                None => {},
            }
        },
    }
    assert(goal[kind.item()] <= u32::MAX);
    game_state.player_mut().add_to_inventory(kind.as_item());
    game_state.add_console_message(machine_picked_up_message(kind));
    game_state.map_mut().remove_placeable(check_x, check_y);
    game_state.validate_selection();
}

/// The state after the furnace on tile `t` lived through one tick: it
/// starts a plate if it is idle and can, its cycle advances, and a plate
/// that it turns out is noted on the console.
pub open spec fn furnace_worked(g: GameStateView, t: (u32, u32)) -> GameStateView {
    if !g.map.furnaces.contains_key(t) {
        g
    } else {
        let f = g.map.furnaces[t].started();
        let noted = if f.yields_iron() {
            g.logged(produced_text(t.0, t.1, false))
        } else if f.yields_copper() {
            g.logged(produced_text(t.0, t.1, true))
        } else {
            g
        };
        noted.with_map(MapView { furnaces: g.map.furnaces.insert(t, f.ticked()), ..g.map })
    }
}

/// The state after the furnaces on `tiles` lived through one tick, one
/// after the other.
pub open spec fn furnaces_worked(g: GameStateView, tiles: Seq<(u32, u32)>) -> GameStateView
    decreases tiles.len(),
{
    if tiles.len() == 0 {
        g
    } else {
        furnace_worked(furnaces_worked(g, tiles.drop_last()), tiles.last())
    }
}

/// Every count stays within a machine word while the furnaces on `tiles`
/// work one after the other.
pub open spec fn furnaces_fit(g: GameStateView, tiles: Seq<(u32, u32)>) -> bool
    decreases tiles.len(),
{
    tiles.len() == 0 || (furnaces_fit(g, tiles.drop_last()) && furnaces_worked(g, tiles).fits())
}

/// Counts that stay within bounds over all of `tiles` do so over its first
/// `n`.
pub proof fn lemma_furnaces_fit_prefix(g: GameStateView, tiles: Seq<(u32, u32)>, n: int)
    requires
        furnaces_fit(g, tiles),
        0 <= n <= tiles.len(),
    ensures
        furnaces_fit(g, tiles.take(n)),
    decreases tiles.len(),
{
    if n == tiles.len() {
        assert(tiles.take(n) =~= tiles);
    } else {
        lemma_furnaces_fit_prefix(g, tiles.drop_last(), n);
        assert(tiles.drop_last().take(n) =~= tiles.take(n));
    }
}

/// The state after every furnace lived through one tick, oldest furnace
/// first.
#[verifier::opaque]
pub open spec fn furnaces_ticked(g: GameStateView) -> GameStateView {
    furnaces_worked(g, machine_tiles(g.map.placeables, PlaceableType::Furnace))
}

/// Every count stays within a machine word while the furnaces tick.
#[verifier::opaque]
pub open spec fn furnace_ticks_fit(g: GameStateView) -> bool {
    furnaces_fit(g, machine_tiles(g.map.placeables, PlaceableType::Furnace))
}

fn work_furnace(game_state: &mut GameState, x: u32, y: u32)
    requires
        furnace_worked(old(game_state)@, (x, y)).fits(),
    ensures
        final(game_state)@ == furnace_worked(old(game_state)@, (x, y)),
{
    let ghost done = furnace_worked(game_state@, (x, y));
    match game_state.map().get_furnace_data(x, y) {
        Some(furnace_data) => {
            let mut furnace_data = furnace_data;
            let iron_before: u32 = furnace_data.iron_plate_count();
            let copper_before: u32 = furnace_data.copper_plate_count();
            furnace_data.start_processing_if_able();
            assert(done.map.furnaces[(x, y)].fits());
            let completed: bool = furnace_data.process_tick();
            if completed {
                if furnace_data.iron_plate_count() > iron_before {
                    game_state.add_console_message(produced_message(x, y, false));
                } else if furnace_data.copper_plate_count() > copper_before {
                    game_state.add_console_message(produced_message(x, y, true));
                }
            }
            game_state.map_mut().set_furnace_data(x, y, furnace_data);
        },
        None => {},
    }
}

/// Lets every furnace live through one tick.
pub fn handle_furnace_tick_processing(game_state: &mut GameState)
    requires
        furnace_ticks_fit(old(game_state)@),
    ensures
        final(game_state)@ == furnaces_ticked(old(game_state)@),
{
    proof {
        reveal(furnaces_ticked);
        reveal(furnace_ticks_fit);
    }
    let tiles = game_state.map().tiles_of_kind(PlaceableType::Furnace);
    let ghost start = game_state@;
    let mut i: usize = 0;
    while i < tiles.len()
        invariant
            i <= tiles@.len(),
            furnaces_fit(start, tiles@),
            game_state@ == furnaces_worked(start, tiles@.take(i as int)),
        decreases tiles@.len() - i,
    {
        proof {
            lemma_furnaces_fit_prefix(start, tiles@, i + 1);
            assert(tiles@.take(i + 1).drop_last() =~= tiles@.take(i as int));
        }
        let (x, y): (u32, u32) = tiles[i];
        work_furnace(game_state, x, y);
        i = i + 1;
    }
    assert(tiles@.take(i as int) =~= tiles@);
}

/// The state after the belt under the player, if there is one, carried the
/// player one tile along its facing and turned the player that way. Water,
/// a blocking machine and the edge of the map hold the player back.
pub open spec fn carried(g: GameStateView) -> GameStateView {
    match g.map.placeable_object_at(g.player.x, g.player.y) {
        Some(obj) => if obj.placeable_type == PlaceableType::Belt {
            match g.map.toward(g.player.x, g.player.y, obj.direction) {
                Some(n) => if !g.map.in_water(n.0 as int, n.1 as int) && !g.map.blocked(n.0, n.1) {
                    g.with_player(
                        PlayerView { x: n.0, y: n.1, direction: obj.direction, ..g.player },
                    )
                } else {
                    g
                },
                None => g,
            }
        } else {
            g
        },
        None => g,
    }
}

/// The state after the belts had their turn in this tick. They move on
/// every thirtieth tick only: then the player is carried, and the belts run.
#[verifier::opaque]
pub open spec fn belts_ticked(g: GameStateView) -> GameStateView {
    if g.current_tick % (BELT_PERIOD as nat) != 0 {
        g
    } else {
        carried(g).with_map(belts_run(carried(g).map))
    }
}

/// Moves the player and the stacks that are on belts, every thirtieth tick.
/// On every other tick nothing changes.
pub fn handle_belt_tick_processing(game_state: &mut GameState)
    ensures
        final(game_state)@ == belts_ticked(old(game_state)@),
        old(game_state)@.current_tick % (BELT_PERIOD as nat) != 0 ==> final(game_state)@ == old(game_state)@,
{
    proof {
        reveal(belts_ticked);
    }
    if game_state.current_tick() % BELT_PERIOD != 0 {
        return ;
    }
    let player_x: u32 = game_state.player_x();
    let player_y: u32 = game_state.player_y();
    match game_state.map().get_placeable_object_at(player_x, player_y) {
        Some(obj) => {
            match obj.placeable_type {
                PlaceableType::Belt => {
                    match game_state.map().neighbor(player_x, player_y, obj.direction) {
                        Some((new_x, new_y)) => {
                            if !game_state.map().would_collide_with_water(new_x, new_y)
                                && !game_state.map().would_collide_with_placeable(new_x, new_y) {
                                game_state.set_player_position(new_x, new_y);
                                game_state.set_player_direction(obj.direction);
                            }
                        },
                        None => {},
                    }
                },
                _ => {},
            }
        },
        None => {},
    }
    run_belts(game_state.map_mut());
}

/// The state after every arm lived through one tick, oldest arm first.
#[verifier::opaque]
pub open spec fn arms_ticked(g: GameStateView) -> GameStateView {
    g.with_map(arms_worked(g.map, machine_tiles(g.map.placeables, PlaceableType::Arm)))
}

/// Every count stays within a machine word while the arms tick.
#[verifier::opaque]
pub open spec fn arm_ticks_fit(g: GameStateView) -> bool {
    arms_fit(g.map, machine_tiles(g.map.placeables, PlaceableType::Arm))
}

/// Where the machines stand one to a tile and no arm ends its cycle on this
/// tick, the tick of the arms moves nothing: it changes the arms' counters
/// alone, and raises by one the counter of every arm that stands on the map.
pub proof fn lemma_quiet_arms_tick(g: GameStateView)
    requires
        g.map.one_per_tile(),
        arms_quiet(g.map, 1),
    ensures
        arms_ticked(g) == g.with_map(MapView { arms: arms_ticked(g).map.arms, ..g.map }),
        arms_ticked(g).map.arms.dom() =~= g.map.arms.dom(),
        forall|p: (u32, u32)|
            g.map.arms.contains_key(p) ==> (#[trigger] arms_ticked(g).map.arms[p]).tick_counter
                == g.map.arms[p].tick_counter + if g.map.placeable_at(p.0, p.1) == Some(
                PlaceableType::Arm,
            ) {
                1nat
            } else {
                0nat
            },
{
    reveal(arms_ticked);
    let tiles = machine_tiles(g.map.placeables, PlaceableType::Arm);
    assert forall|p: (u32, u32)| g.map.arms.contains_key(p) implies (
    #[trigger] g.map.arms[p]).tick_counter + crate::lookup::occurrences(tiles, p)
        < crate::arm::ARM_CYCLE by {
        crate::map::lemma_machine_tiles_once(g.map, PlaceableType::Arm, p);
    }
    crate::transfer::lemma_quiet_arms_only_count(g.map, tiles);
    assert forall|p: (u32, u32)| g.map.arms.contains_key(p) implies (#[trigger] arms_ticked(
        g,
    ).map.arms[p]).tick_counter == g.map.arms[p].tick_counter + if g.map.placeable_at(p.0, p.1)
        == Some(PlaceableType::Arm) {
        1nat
    } else {
        0nat
    } by {
        crate::map::lemma_machine_tiles_once(g.map, PlaceableType::Arm, p);
    }
}

/// Lets every arm live through one tick. Only an arm that ends its cycle on
/// this tick tries a transfer: where none does, nothing but the counters
/// changes.
pub fn handle_arm_tick_processing(game_state: &mut GameState)
    requires
        arm_ticks_fit(old(game_state)@),
    ensures
        final(game_state)@ == arms_ticked(old(game_state)@),
        old(game_state)@.map.one_per_tile() && arms_quiet(old(game_state)@.map, 1) ==> final(game_state)@ == old(game_state)@.with_map(
            MapView { arms: final(game_state)@.map.arms, ..old(game_state)@.map },
        ) && forall|p: (u32, u32)|
            old(game_state)@.map.arms.contains_key(p) ==> final(game_state)@.map.arms.contains_key(
                p,
            ) && (#[trigger] final(game_state)@.map.arms[p]).tick_counter == old(game_state)@.map.arms[p].tick_counter + if old(game_state)@.map.placeable_at(p.0, p.1) == Some(
                PlaceableType::Arm,
            ) {
                1nat
            } else {
                0nat
            },
{
    proof {
        if game_state@.map.one_per_tile() && arms_quiet(game_state@.map, 1) {
            lemma_quiet_arms_tick(game_state@);
        }
        reveal(arms_ticked);
        reveal(arm_ticks_fit);
    }
    let tiles = game_state.map().tiles_of_kind(PlaceableType::Arm);
    let ghost start = game_state@;
    let mut i: usize = 0;
    while i < tiles.len()
        invariant
            i <= tiles@.len(),
            arms_fit(start.map, tiles@),
            game_state@ == start.with_map(arms_worked(start.map, tiles@.take(i as int))),
        decreases tiles@.len() - i,
    {
        proof {
            lemma_arms_fit_prefix(start.map, tiles@, i + 1);
            assert(tiles@.take(i + 1).drop_last() =~= tiles@.take(i as int));
        }
        let (x, y): (u32, u32) = tiles[i];
        work_arm(game_state.map_mut(), x, y);
        i = i + 1;
    }
    assert(tiles@.take(i as int) =~= tiles@);
}

/// The state after every drill lived through one tick, oldest drill first.
#[verifier::opaque]
pub open spec fn drills_ticked(g: GameStateView) -> GameStateView {
    g.with_map(drills_worked(g.map, machine_tiles(g.map.placeables, PlaceableType::Drill)))
}

/// Every count stays within a machine word while the drills tick.
#[verifier::opaque]
pub open spec fn drill_ticks_fit(g: GameStateView) -> bool {
    drills_fit(g.map, machine_tiles(g.map.placeables, PlaceableType::Drill))
}

/// While every drill is idle and without coal, the tick of the drills
/// changes nothing, however often it is run: no unit starts without coal.
pub proof fn lemma_spent_drills_tick(g: GameStateView)
    requires
        drills_spent(g.map),
    ensures
        drills_ticked(g) == g,
        drills_spent(drills_ticked(g).map),
        drill_ticks_fit(g) <==> g.map.fits() || machine_tiles(
            g.map.placeables,
            PlaceableType::Drill,
        ).len() == 0,
{
    reveal(drills_ticked);
    reveal(drill_ticks_fit);
    let tiles = machine_tiles(g.map.placeables, PlaceableType::Drill);
    lemma_spent_drills_rest(g.map, tiles);
    lemma_spent_drills_fit(g.map, tiles);
}

proof fn lemma_spent_drills_fit(m: MapView, tiles: Seq<(u32, u32)>)
    requires
        drills_spent(m),
    ensures
        drills_fit(m, tiles) <==> m.fits() || tiles.len() == 0,
    decreases tiles.len(),
{
    if tiles.len() > 0 {
        lemma_spent_drills_fit(m, tiles.drop_last());
        lemma_spent_drills_rest(m, tiles);
    }
}

/// Lets every drill live through one tick. While every drill is idle and
/// without coal nothing changes.
pub fn handle_drill_tick_processing(game_state: &mut GameState)
    requires
        drill_ticks_fit(old(game_state)@),
    ensures
        final(game_state)@ == drills_ticked(old(game_state)@),
        drills_spent(old(game_state)@.map) ==> final(game_state)@ == old(game_state)@,
{
    proof {
        if drills_spent(game_state@.map) {
            lemma_spent_drills_tick(game_state@);
        }
        reveal(drills_ticked);
        reveal(drill_ticks_fit);
    }
    let tiles = game_state.map().tiles_of_kind(PlaceableType::Drill);
    let ghost start = game_state@;
    let mut i: usize = 0;
    while i < tiles.len()
        invariant
            i <= tiles@.len(),
            drills_fit(start.map, tiles@),
            game_state@ == start.with_map(drills_worked(start.map, tiles@.take(i as int))),
        decreases tiles@.len() - i,
    {
        proof {
            lemma_drills_fit_prefix(start.map, tiles@, i + 1);
            assert(tiles@.take(i + 1).drop_last() =~= tiles@.take(i as int));
        }
        let (x, y): (u32, u32) = tiles[i];
        work_drill(game_state.map_mut(), x, y);
        i = i + 1;
    }
    assert(tiles@.take(i as int) =~= tiles@);
}

} // verus!
