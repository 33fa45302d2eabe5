//! Robotic arms: what an arm takes from the tile behind it and how it hands
//! it to the tile in front of it.

use vstd::prelude::*;
use crate::arm::ARM_CYCLE;
use crate::chest::{chest_add, chest_remove};
use crate::lookup::occurrences;
use crate::drill::DrillView;
use crate::furnace::FurnaceView;
use crate::map::{DroppedItem, GameMap, MapView, StackView};
use crate::types::{Item, PlaceableType};

verus! {

/// Whether tile `t` is too full for an arm to hand anything to it: a belt
/// that carries a stack, or bare ground with a stack on it. Other machines
/// are never too full to be tried.
pub open spec fn arm_target_occupied(m: MapView, t: (u32, u32)) -> bool {
    match m.placeable_at(t.0, t.1) {
        Some(kind) => kind == PlaceableType::Belt && m.belt_items.contains_key(t),
        None => m.dropped_index_at(t.0, t.1) is Some,
    }
}

/// What an arm takes out of the machine on tile `s`: one of the kind of a
/// chest's first stack, or one plate of a furnace, iron before copper.
pub open spec fn taken_from_machine(m: MapView, s: (u32, u32)) -> Option<Item> {
    match m.placeable_at(s.0, s.1) {
        Some(PlaceableType::Chest) => if m.chests.contains_key(s) && m.chests[s].len() > 0
            && m.chests[s][0].1 > 0 {
            Some(m.chests[s][0].0)
        } else {
            None
        },
        Some(PlaceableType::Furnace) => if m.furnaces.contains_key(s) && m.furnaces[s].iron_plate
            > 0 {
            Some(Item::IronPlate)
        } else if m.furnaces.contains_key(s) && m.furnaces[s].copper_plate > 0 {
            Some(Item::CopperPlate)
        } else {
            None
        },
        _ => None,
    }
}

/// What an arm takes from tile `s`: one item out of a chest or furnace
/// there; failing that the whole stack that rides a belt there; failing
/// that the oldest stack on the ground there.
pub open spec fn arm_takes(m: MapView, s: (u32, u32)) -> Option<StackView> {
    match taken_from_machine(m, s) {
        Some(item) => Some(StackView { x: s.0, y: s.1, item, quantity: 1 }),
        None => if m.belt_items.contains_key(s) {
            Some(m.belt_items[s])
        } else {
            match m.dropped_index_at(s.0, s.1) {
                Some(i) => Some(m.dropped_items[i]),
                None => None,
            }
        },
    }
}

/// The world after the arm took what `arm_takes` names from tile `s`.
pub open spec fn after_arm_took(m: MapView, s: (u32, u32)) -> MapView {
    match taken_from_machine(m, s) {
        Some(item) => if m.placeable_at(s.0, s.1) == Some(PlaceableType::Chest) {
            MapView { chests: m.chests.insert(s, chest_remove(m.chests[s], item, 1)), ..m }
        } else if item == Item::IronPlate {
            MapView {
                furnaces: m.furnaces.insert(
                    s,
                    FurnaceView {
                        iron_plate: (m.furnaces[s].iron_plate - 1) as nat,
                        ..m.furnaces[s]
                    },
                ),
                ..m
            }
        } else {
            MapView {
                furnaces: m.furnaces.insert(
                    s,
                    FurnaceView {
                        copper_plate: (m.furnaces[s].copper_plate - 1) as nat,
                        ..m.furnaces[s]
                    },
                ),
                ..m
            }
        },
        None => if m.belt_items.contains_key(s) {
            MapView { belt_items: m.belt_items.remove(s), ..m }
        } else {
            match m.dropped_index_at(s.0, s.1) {
                Some(i) => m.without_dropped(i),
                None => m,
            }
        },
    }
}

/// Whether the machine on tile `t` takes one item of `stack` from an arm: a
/// chest takes any kind, a furnace coal, iron ore and copper, a drill coal.
pub open spec fn machine_takes(m: MapView, stack: StackView, t: (u32, u32)) -> bool {
    stack.quantity > 0 && match m.placeable_at(t.0, t.1) {
        Some(PlaceableType::Chest) => m.chests.contains_key(t),
        Some(PlaceableType::Furnace) => stack.item.feeds_furnace() && m.furnaces.contains_key(t),
        Some(PlaceableType::Drill) => stack.item == Item::Coal && m.drills.contains_key(t),
        _ => false,
    }
}

/// The world after an arm that holds `stack`, taken from tile `s`, handed
/// it to tile `t`. A chest, furnace or drill that takes the kind gets one
/// item, and what is left of the stack lies down on `s`. An empty belt gets
/// the whole stack, and so does the ground, also under another arm. A
/// machine that does not take it, a belt that is not empty and water send
/// the whole stack back to lie on `s`.
pub open spec fn arm_gives(m: MapView, stack: StackView, s: (u32, u32), t: (u32, u32)) -> MapView {
    let back = m.with_dropped(StackView { x: s.0, y: s.1, ..stack });
    let there = StackView { x: t.0, y: t.1, ..stack };
    let rest = if stack.quantity > 1 {
        m.with_dropped(StackView { x: s.0, y: s.1, quantity: (stack.quantity - 1) as nat, ..stack })
    } else {
        m
    };
    match m.placeable_at(t.0, t.1) {
        Some(PlaceableType::Chest) => if machine_takes(m, stack, t) {
            MapView { chests: m.chests.insert(t, chest_add(m.chests[t], stack.item, 1)), ..rest }
        } else {
            back
        },
        Some(PlaceableType::Furnace) => if machine_takes(m, stack, t) {
            MapView { furnaces: m.furnaces.insert(t, m.furnaces[t].with_input(stack.item)), ..rest }
        } else {
            back
        },
        Some(PlaceableType::Drill) => if machine_takes(m, stack, t) {
            MapView {
                drills: m.drills.insert(
                    t,
                    DrillView { coal: m.drills[t].coal + 1, ..m.drills[t] },
                ),
                ..rest
            }
        } else {
            back
        },
        Some(PlaceableType::Belt) => if !m.in_water(t.0 as int, t.1 as int)
            && !m.belt_items.contains_key(t) {
            MapView { belt_items: m.belt_items.insert(t, there), ..m }
        } else {
            back
        },
        _ => if !m.in_water(t.0 as int, t.1 as int) {
            m.with_dropped(there)
        } else {
            back
        },
    }
}

/// The world after the arm on tile `a` tried a transfer: from the tile
/// behind it to the tile in front of it, if both are on the map, the one in
/// front is not too full and there is something to take.
pub open spec fn arm_transfers(m: MapView, a: (u32, u32)) -> MapView {
    match m.placeable_object_at(a.0, a.1) {
        Some(obj) => match (
            m.toward(a.0, a.1, obj.direction.opposite()),
            m.toward(a.0, a.1, obj.direction),
        ) {
            (Some(s), Some(t)) => if arm_target_occupied(m, t) {
                m
            } else {
                match arm_takes(m, s) {
                    Some(stack) => arm_gives(after_arm_took(m, s), stack, s, t),
                    None => m,
                }
            },
            _ => m,
        },
        None => m,
    }
}

/// The world after the arm on tile `a` lived through one tick: its cycle
/// advances, and where that ends a cycle it tries a transfer.
pub open spec fn arm_worked(m: MapView, a: (u32, u32)) -> MapView {
    if !m.arms.contains_key(a) {
        m
    } else {
        let ticked = MapView { arms: m.arms.insert(a, m.arms[a].ticked()), ..m };
        if m.arms[a].fires() {
            arm_transfers(ticked, a)
        } else {
            ticked
        }
    }
}

/// The world after the arms on `tiles` lived through one tick, one after
/// the other.
pub open spec fn arms_worked(m: MapView, tiles: Seq<(u32, u32)>) -> MapView
    decreases tiles.len(),
{
    if tiles.len() == 0 {
        m
    } else {
        arm_worked(arms_worked(m, tiles.drop_last()), tiles.last())
    }
}

/// Every count stays within a machine word while the arms on `tiles` work
/// one after the other.
pub open spec fn arms_fit(m: MapView, tiles: Seq<(u32, u32)>) -> bool
    decreases tiles.len(),
{
    tiles.len() == 0 || (arms_fit(m, tiles.drop_last()) && arms_worked(m, tiles).fits())
}

/// Counts that stay within bounds over all of `tiles` do so over its first
/// `n`.
pub proof fn lemma_arms_fit_prefix(m: MapView, tiles: Seq<(u32, u32)>, n: int)
    requires
        arms_fit(m, tiles),
        0 <= n <= tiles.len(),
    ensures
        arms_fit(m, tiles.take(n)),
    decreases tiles.len(),
{
    if n == tiles.len() {
        assert(tiles.take(n) =~= tiles);
    } else {
        lemma_arms_fit_prefix(m, tiles.drop_last(), n);
        assert(tiles.drop_last().take(n) =~= tiles.take(n));
    }
}

/// No arm of the world ends its cycle within the next `n` ticks.
pub open spec fn arms_quiet(m: MapView, n: nat) -> bool {
    forall|p: (u32, u32)|
        m.arms.contains_key(p) ==> (#[trigger] m.arms[p]).tick_counter + n < ARM_CYCLE
}

/// While no arm ends its cycle, a tick of the arms moves nothing: the
/// world changes in the arms' counters alone, and each arm's counter rises
/// by one for every time its tile is worked.
pub proof fn lemma_quiet_arms_only_count(m: MapView, tiles: Seq<(u32, u32)>)
    requires
        forall|p: (u32, u32)|
            m.arms.contains_key(p) ==> (#[trigger] m.arms[p]).tick_counter + occurrences(tiles, p)
                < ARM_CYCLE,
    ensures
        arms_worked(m, tiles) == (MapView { arms: arms_worked(m, tiles).arms, ..m }),
        arms_worked(m, tiles).arms.dom() =~= m.arms.dom(),
        forall|p: (u32, u32)|
            m.arms.contains_key(p) ==> (#[trigger] arms_worked(m, tiles).arms[p]).tick_counter
                == m.arms[p].tick_counter + occurrences(tiles, p),
    decreases tiles.len(),
{
    if tiles.len() > 0 {
        let front = tiles.drop_last();
        let a = tiles.last();
        assert forall|p: (u32, u32)| m.arms.contains_key(p) implies (#[trigger] m.arms[p]).tick_counter
            + occurrences(front, p) < ARM_CYCLE by {
            assert(occurrences(front, p) <= occurrences(tiles, p));
        }
        lemma_quiet_arms_only_count(m, front);
        let mid = arms_worked(m, front);
        if mid.arms.contains_key(a) {
            assert(m.arms.contains_key(a));
            assert(mid.arms[a].tick_counter == m.arms[a].tick_counter + occurrences(front, a));
            assert(!mid.arms[a].fires());
        }
        let after = arms_worked(m, tiles);
        assert(after.arms.dom() =~= m.arms.dom());
        assert forall|p: (u32, u32)| m.arms.contains_key(p) implies (#[trigger] after.arms[p]).tick_counter
            == m.arms[p].tick_counter + occurrences(tiles, p) by {
            assert(mid.arms[p].tick_counter == m.arms[p].tick_counter + occurrences(front, p));
        }
    }
}

/// Takes what the arm takes from tile `(sx, sy)`.
fn take_for_arm(map: &mut GameMap, sx: u32, sy: u32) -> (got: Option<DroppedItem>)
    ensures
        final(map)@ == after_arm_took(old(map)@, (sx, sy)),
        match got {
            Some(d) => arm_takes(old(map)@, (sx, sy)) == Some(d@),
            None => arm_takes(old(map)@, (sx, sy)) is None,
        },
{
    match map.get_placeable_at(sx, sy) {
        Some(PlaceableType::Chest) => {
            match map.get_chest_data(sx, sy) {
                Some(chest) => {
                    let mut chest = chest;
                    let items = chest.get_all_items();
                    if items.len() > 0 && chest.get_item_quantity(0) > 0 {
                        let item = items[0];
                        chest.remove_item(item, 1);
                        map.set_chest_data(sx, sy, chest);
                        return Some(DroppedItem::new(sx, sy, item, 1));
                    }
                },
                None => {},
            }
        },
        Some(PlaceableType::Furnace) => {
            match map.get_furnace_data(sx, sy) {
                Some(furnace) => {
                    let mut furnace = furnace;
                    if furnace.iron_plate_count() > 0 {
                        furnace.remove_iron_plate(1);
                        map.set_furnace_data(sx, sy, furnace);
                        return Some(DroppedItem::new(sx, sy, Item::IronPlate, 1));
                    } else if furnace.copper_plate_count() > 0 {
                        furnace.remove_copper_plate(1);
                        map.set_furnace_data(sx, sy, furnace);
                        return Some(DroppedItem::new(sx, sy, Item::CopperPlate, 1));
                    }
                },
                None => {},
            }
        },
        _ => {},
    }
    match map.get_belt_item(sx, sy) {
        Some(item) => {
            map.remove_belt_item(sx, sy);
            return Some(item);
        },
        None => {},
    }
    match map.get_dropped_item_index_at(sx, sy) {
        Some(index) => {
            let got = map.get_dropped_item(index);
            map.remove_dropped_item(index);
            got
        },
        None => None,
    }
}

/// Lays what is left of `item`, after one was handed on, down on `(sx, sy)`.
fn return_rest(map: &mut GameMap, item: DroppedItem, sx: u32, sy: u32)
    ensures
        final(map)@ == if item@.quantity > 1 {
            old(map)@.with_dropped(
                StackView { x: sx, y: sy, quantity: (item@.quantity - 1) as nat, ..item@ },
            )
        } else {
            old(map)@
        },
{
    if item.quantity() > 1 {
        let mut rest = item;
        rest.remove_quantity(1);
        rest.set_position(sx, sy);
        map.add_dropped_item(rest);
    }
}

/// Lays the whole of `item` down on `(x, y)`.
fn lay_down(map: &mut GameMap, item: DroppedItem, x: u32, y: u32)
    ensures
        final(map)@ == old(map)@.with_dropped(StackView { x, y, ..item@ }),
{
    let mut item = item;
    item.set_position(x, y);
    map.add_dropped_item(item);
}

/// Hands `item`, taken from `(sx, sy)`, to `(tx, ty)`.
fn give_from_arm(map: &mut GameMap, item: DroppedItem, sx: u32, sy: u32, tx: u32, ty: u32)
    requires
        arm_gives(old(map)@, item@, (sx, sy), (tx, ty)).fits(),
    ensures
        final(map)@ == arm_gives(old(map)@, item@, (sx, sy), (tx, ty)),
{
    let kind = item.item();
    let ghost start = map@;
    let ghost t = (tx, ty);
    let ghost done = arm_gives(start, item@, (sx, sy), t);
    match map.get_placeable_at(tx, ty) {
        Some(PlaceableType::Chest) => {
            match map.get_chest_data(tx, ty) {
                Some(chest) => {
                    if item.quantity() > 0 {
                        let mut chest = chest;
                        assert(crate::chest::chest_fits(done.chests[t]));
                        chest.add_item(kind, 1);
                        map.set_chest_data(tx, ty, chest);
                        return_rest(map, item, sx, sy);
                        return ;
                    }
                },
                None => {},
            }
            lay_down(map, item, sx, sy);
        },
        Some(PlaceableType::Furnace) => {
            if kind.is_furnace_input() && item.quantity() > 0 {
                match map.get_furnace_data(tx, ty) {
                    Some(furnace) => {
                        let mut furnace = furnace;
                        assert(done.furnaces[t].fits());
                        furnace.add_input(kind);
                        map.set_furnace_data(tx, ty, furnace);
                        return_rest(map, item, sx, sy);
                        return ;
                    },
                    None => {},
                }
            }
            lay_down(map, item, sx, sy);
        },
        Some(PlaceableType::Drill) => {
            let coal: bool = match kind {
                Item::Coal => true,
                _ => false,
            };
            if coal && item.quantity() > 0 {
                match map.get_drill_data(tx, ty) {
                    Some(drill) => {
                        let mut drill = drill;
                        assert(done.drills[t].fits());
                        drill.add_coal();
                        map.set_drill_data(tx, ty, drill);
                        return_rest(map, item, sx, sy);
                        return ;
                    },
                    None => {},
                }
            }
            lay_down(map, item, sx, sy);
        },
        Some(PlaceableType::Belt) => {
            if !map.would_collide_with_water(tx, ty) && !map.has_belt_item(tx, ty) {
                let mut item = item;
                item.set_position(tx, ty);
                map.set_belt_item(tx, ty, item);
            } else {
                lay_down(map, item, sx, sy);
            }
        },
        _ => {
            if !map.would_collide_with_water(tx, ty) {
                lay_down(map, item, tx, ty);
            } else {
                lay_down(map, item, sx, sy);
            }
        },
    }
}

/// Whether tile `(tx, ty)` is too full for an arm to hand anything to it.
fn target_occupied(map: &GameMap, tx: u32, ty: u32) -> (b: bool)
    ensures
        b == arm_target_occupied(map@, (tx, ty)),
{
    match map.get_placeable_at(tx, ty) {
        Some(PlaceableType::Belt) => map.has_belt_item(tx, ty),
        Some(_) => false,
        None => map.get_dropped_item_index_at(tx, ty).is_some(),
    }
}

/// Lets the arm on `(arm_x, arm_y)` try a transfer.
fn transfer(map: &mut GameMap, arm_x: u32, arm_y: u32)
    requires
        arm_transfers(old(map)@, (arm_x, arm_y)).fits(),
    ensures
        final(map)@ == arm_transfers(old(map)@, (arm_x, arm_y)),
{
    let obj = match map.get_placeable_object_at(arm_x, arm_y) {
        Some(obj) => obj,
        None => {
            return ;
        },
    };
    let source = map.neighbor(arm_x, arm_y, obj.direction.reversed());
    let target = map.neighbor(arm_x, arm_y, obj.direction);
    match (source, target) {
        (Some((source_x, source_y)), Some((target_x, target_y))) => {
            if target_occupied(map, target_x, target_y) {
                return ;
            }
            match take_for_arm(map, source_x, source_y) {
                Some(item) => {
                    give_from_arm(map, item, source_x, source_y, target_x, target_y);
                },
                None => {},
            }
        },
        _ => {},
    }
}

/// Lets the arm on `(arm_x, arm_y)` live through one tick.
pub fn work_arm(map: &mut GameMap, arm_x: u32, arm_y: u32)
    requires
        arm_worked(old(map)@, (arm_x, arm_y)).fits(),
    ensures
        final(map)@ == arm_worked(old(map)@, (arm_x, arm_y)),
{
    match map.get_arm_data(arm_x, arm_y) {
        Some(arm) => {
            let mut arm = arm;
            let should_act: bool = arm.process_tick();
            map.set_arm_data(arm_x, arm_y, arm);
            if should_act {
                transfer(map, arm_x, arm_y);
            }
        },
        None => {},
    }
}

} // verus!
