//! Bounds on the counts of a state under which a whole tick stays within
//! machine words.

use vstd::prelude::*;
use crate::bounds::{
    lemma_chest_drawn, lemma_chest_fed, lemma_chest_placed, lemma_machine_tiles_len,
    lemma_nonempty_within, lemma_placeables_off_len, lemma_stacks_without,
};
use crate::chest::{chest_within, emptied_into, lemma_emptied_into};
use crate::conveyor::{belt_served, belts_of, belts_served, service_order, stack_fed, stacks_fed};
use crate::crafting::crafted;
use crate::drilling::{delivered, drill_worked, drills_fit, drills_worked, ground_put};
use crate::game_state::{GameStateView, InputKeys};
use crate::handlers::{
    arm_ticks_fit, arms_ticked, belts_ticked, carried, collected, container_at_target, cycled,
    drill_ticks_fit, dropped, fed, furnace_ticks_fit, furnace_worked,
    furnaces_fit, furnaces_ticked, furnaces_worked, machine_picked_up, mined, moved, picked_up,
    placed_selected, rotated,
};
use crate::inventory::counts_within;
use crate::map::{lemma_within_fits, lemma_within_grows, machine_tiles, MapView};
use crate::tick::{
    after_actions, after_arm_craft, after_arms, after_belt_craft, after_belts, after_chest_craft,
    after_cycling, after_cycling_back, after_drill_craft, after_drop, after_furnace_craft,
    after_furnaces, after_interaction, after_mining, after_movement, after_pickup, after_rotation,
    begun, step_fits, TickInput,
};
use crate::transfer::{
    after_arm_took, arm_gives, arm_takes, arm_transfers, arm_worked, arms_fit, arms_worked,
};
use crate::types::{Item, PlaceableType};

verus! {

/// A world count up to which `has_room` looks no closer: a state whose
/// world counts stay below it is tested with it as their bound.
pub const EASY_ROOM: u32 = 1_000_000;

/// A state whose counts stay within bounds that a machine word holds fits.
pub proof fn lemma_bounded_fits(g: GameStateView, bi: nat, bw: nat, n: nat)
    requires
        g.bounded(bi, bw, n),
        bi <= u32::MAX,
        bw <= u32::MAX,
    ensures
        g.fits(),
{
    lemma_within_fits(g.map, bw);
}

/// A bounded state is bounded by anything greater.
pub proof fn lemma_bounded_grows(
    g: GameStateView,
    bi: nat,
    bw: nat,
    n: nat,
    bi2: nat,
    bw2: nat,
    n2: nat,
)
    requires
        g.bounded(bi, bw, n),
        bi <= bi2,
        bw <= bw2,
        n <= n2,
    ensures
        g.bounded(bi2, bw2, n2),
{
    lemma_within_grows(g.map, bw, bw2);
}

/// Moving raises no count.
pub proof fn lemma_moved_bounded(
    g: GameStateView,
    keys: InputKeys,
    now: u64,
    bi: nat,
    bw: nat,
    n: nat,
)
    requires
        g.bounded(bi, bw, n),
    ensures
        moved(g, keys, now).bounded(bi, bw, n),
{
    reveal(moved);
}

/// Mining raises a count of the inventory by one at most.
pub proof fn lemma_mined_bounded(g: GameStateView, bi: nat, bw: nat, n: nat)
    requires
        g.bounded(bi, bw, n),
    ensures
        mined(g).bounded(bi + 1, bw, n),
{
    reveal(mined);
}

/// Crafting raises a count of the inventory by one at most.
pub proof fn lemma_crafted_bounded(g: GameStateView, result: Item, bi: nat, bw: nat, n: nat)
    requires
        g.bounded(bi, bw, n),
    ensures
        crafted(g, result).bounded(bi + 1, bw, n),
{
    reveal(crafted);
}

/// Placing raises no count and adds one machine at most.
pub proof fn lemma_placed_bounded(g: GameStateView, bi: nat, bw: nat, n: nat)
    requires
        g.bounded(bi, bw, n),
    ensures
        placed_selected(g).bounded(bi, bw, n + 1),
{
    reveal(placed_selected);
    if let Some(t) = g.aim() {
        lemma_chest_placed(g.map.chests, t, bw);
    }
}

/// Feeding a container raises a count of the world by one at most.
pub proof fn lemma_fed_bounded(g: GameStateView, bi: nat, bw: nat, n: nat)
    requires
        g.bounded(bi, bw, n),
    ensures
        fed(g).bounded(bi, bw + 1, n),
{
    reveal(fed);
    lemma_within_grows(g.map, bw, bw + 1);
    if let Some((t, kind)) = container_at_target(g) {
        if let Some(item) = g.selected_item {
            if g.map.chests.contains_key(t) {
                lemma_chest_fed(g.map.chests, t, item, bw);
            }
        }
    }
}

/// Cycling raises no count.
pub proof fn lemma_cycled_bounded(g: GameStateView, direction: i32, bi: nat, bw: nat, n: nat)
    requires
        g.bounded(bi, bw, n),
    ensures
        cycled(g, direction).bounded(bi, bw, n),
{
    reveal(cycled);
}

/// Picking up raises a count of the inventory by a count of the world at
/// most, or by one.
pub proof fn lemma_picked_up_bounded(g: GameStateView, bi: nat, bw: nat, n: nat)
    requires
        g.bounded(bi, bw, n),
    ensures
        picked_up(g).bounded(bi + bw + 1, bw, n),
{
    reveal(picked_up);
    if let Some(t) = g.aim() {
        if g.map.belt_items.contains_key(t) {
            assert(g.map.belt_items[t].quantity <= bw);
        } else if let Some(i) = g.map.dropped_index_at(t.0, t.1) {
            crate::lookup::lemma_first_index(crate::map::stack_tiles(g.map.dropped_items), t);
            assert(g.map.dropped_items[i].quantity <= bw);
            lemma_stacks_without(g.map.dropped_items, i, bw);
        } else if g.map.furnaces.contains_key(t) {
            assert(g.map.furnaces[t].within(bw));
        }
    }
}

/// Dropping raises a count of the world by one at most.
pub proof fn lemma_dropped_bounded(g: GameStateView, bi: nat, bw: nat, n: nat)
    requires
        g.bounded(bi, bw, n),
    ensures
        dropped(g).bounded(bi, bw + 1, n),
{
    reveal(dropped);
    lemma_within_grows(g.map, bw, bw + 1);
    if let Some(t) = g.aim() {
        if let Some(i) = g.map.dropped_index_at(t.0, t.1) {
            crate::lookup::lemma_first_index(crate::map::stack_tiles(g.map.dropped_items), t);
            assert(g.map.dropped_items[i].quantity <= bw);
        }
    }
}

/// Rotating raises no count.
pub proof fn lemma_rotated_bounded(g: GameStateView, bi: nat, bw: nat, n: nat)
    requires
        g.bounded(bi, bw, n),
    ensures
        rotated(g).bounded(bi, bw, n),
{
    reveal(rotated);
}

/// What is collected from a machine raises a count of the inventory by a
/// count of the world at most, and adds the machine.
pub proof fn lemma_collected_within(
    g: GameStateView,
    t: (u32, u32),
    kind: PlaceableType,
    bi: nat,
    bw: nat,
)
    requires
        counts_within(g.player.inventory, bi),
        g.map.within(bw),
    ensures
        counts_within(collected(g, t, kind), bi + bw + 1),
{
    let inv = g.player.inventory;
    if kind == PlaceableType::Chest && g.map.chests.contains_key(t) {
        let c = g.map.chests[t];
        assert(chest_within(c, bw));
        assert forall|k: Item| emptied_into(inv, c)[k] <= bi + bw by {
            lemma_emptied_into(inv, c, k);
        }
    }
    if kind == PlaceableType::Furnace && g.map.furnaces.contains_key(t) {
        assert(g.map.furnaces[t].within(bw));
    }
    if kind == PlaceableType::Belt && g.map.belt_items.contains_key(t) {
        assert(g.map.belt_items[t].quantity <= bw);
    }
    if kind == PlaceableType::Drill && g.map.drills.contains_key(t) {
        assert(g.map.drills[t].coal <= bw);
    }
}

/// Picking up a machine raises a count of the inventory by a count of the
/// world and one at most.
pub proof fn lemma_machine_picked_up_bounded(g: GameStateView, bi: nat, bw: nat, n: nat)
    requires
        g.bounded(bi, bw, n),
    ensures
        machine_picked_up(g).bounded(bi + bw + 1, bw, n),
{
    reveal(machine_picked_up);
    if let Some(t) = g.aim() {
        if let Some(kind) = g.map.placeable_at(t.0, t.1) {
            lemma_collected_within(g, t, kind, bi, bw);
            lemma_placeables_off_len(g.map.placeables, t.0, t.1);
            lemma_chest_placed(g.map.chests, t, bw);
        }
    }
}

/// A furnace's tick raises a count of the world by one at most.
pub proof fn lemma_furnace_worked_bounded(
    g: GameStateView,
    t: (u32, u32),
    bi: nat,
    bw: nat,
    n: nat,
)
    requires
        g.bounded(bi, bw, n),
    ensures
        furnace_worked(g, t).bounded(bi, bw + 1, n),
        furnace_worked(g, t).map.placeables == g.map.placeables,
{
    lemma_within_grows(g.map, bw, bw + 1);
    if g.map.furnaces.contains_key(t) {
        assert(g.map.furnaces[t].within(bw));
    }
}

/// The furnaces raise no count by more than their number, and their ticks
/// fit if that leaves the counts within a machine word.
pub proof fn lemma_furnaces_bounded(
    g: GameStateView,
    tiles: Seq<(u32, u32)>,
    bi: nat,
    bw: nat,
    n: nat,
)
    requires
        g.bounded(bi, bw, n),
        bi <= u32::MAX,
        bw + tiles.len() <= u32::MAX,
    ensures
        furnaces_worked(g, tiles).bounded(bi, bw + tiles.len(), n),
        furnaces_worked(g, tiles).map.placeables == g.map.placeables,
        furnaces_fit(g, tiles),
    decreases tiles.len(),
{
    if tiles.len() > 0 {
        lemma_furnaces_bounded(g, tiles.drop_last(), bi, bw, n);
        lemma_furnace_worked_bounded(
            furnaces_worked(g, tiles.drop_last()),
            tiles.last(),
            bi,
            (bw + tiles.len() - 1) as nat,
            n,
        );
        lemma_bounded_fits(furnaces_worked(g, tiles), bi, bw + tiles.len(), n);
    }
}

pub proof fn lemma_belt_served_within(m: MapView, belt: crate::map::PlaceableObject, b: nat)
    requires
        m.within(b),
    ensures
        belt_served(m, belt).within(b),
        belt_served(m, belt).placeables == m.placeables,
{
    if m.belt_items.contains_key((belt.x, belt.y)) {
        assert(m.belt_items[(belt.x, belt.y)].quantity <= b);
    }
}

pub proof fn lemma_belts_served_within(
    m: MapView,
    belts: Seq<crate::map::PlaceableObject>,
    b: nat,
)
    requires
        m.within(b),
    ensures
        belts_served(m, belts).within(b),
        belts_served(m, belts).placeables == m.placeables,
    decreases belts.len(),
{
    if belts.len() > 0 {
        lemma_belts_served_within(m, belts.drop_last(), b);
        lemma_belt_served_within(belts_served(m, belts.drop_last()), belts.last(), b);
    }
}

pub proof fn lemma_stack_fed_within(m: MapView, i: int, b: nat)
    requires
        m.within(b),
    ensures
        stack_fed(m, i).within(b),
        stack_fed(m, i).placeables == m.placeables,
{
    if 0 <= i < m.dropped_items.len() {
        assert(m.dropped_items[i].quantity <= b);
    }
}

pub proof fn lemma_stacks_fed_within(m: MapView, n: int, b: nat)
    requires
        m.within(b),
    ensures
        stacks_fed(m, n).within(b),
        stacks_fed(m, n).placeables == m.placeables,
    decreases n,
{
    if n > 0 {
        lemma_stacks_fed_within(m, n - 1, b);
        lemma_stack_fed_within(stacks_fed(m, n - 1), n - 1, b);
    }
}

pub proof fn lemma_belts_ticked_bounded(g: GameStateView, bi: nat, b: nat, n: nat)
    requires
        g.bounded(bi, b, n),
    ensures
        belts_ticked(g).bounded(bi, b, n),
{
    reveal(belts_ticked);
    let m = carried(g).map;
    assert(m == g.map);
    let served = belts_served(m, service_order(belts_of(m.placeables)));
    lemma_belts_served_within(m, service_order(belts_of(m.placeables)), b);
    lemma_stacks_fed_within(served, served.dropped_items.len() as int, b);
    lemma_nonempty_within(stacks_fed(served, served.dropped_items.len() as int).dropped_items, b);
}

pub proof fn lemma_arm_worked_within(m: MapView, a: (u32, u32), b: nat)
    requires
        m.within(b),
    ensures
        arm_worked(m, a).within(b + 1),
        arm_worked(m, a).placeables == m.placeables,
{
    lemma_within_grows(m, b, b + 1);
    if m.arms.contains_key(a) {
        let ticked = MapView { arms: m.arms.insert(a, m.arms[a].ticked()), ..m };
        assert(ticked.within(b));
        lemma_arm_transfers_within(ticked, a, b);
    }
}

pub proof fn lemma_arm_transfers_within(m: MapView, a: (u32, u32), b: nat)
    requires
        m.within(b),
    ensures
        arm_transfers(m, a).within(b + 1),
        arm_transfers(m, a).placeables == m.placeables,
{
    lemma_within_grows(m, b, b + 1);
    if let Some(obj) = m.placeable_object_at(a.0, a.1) {
        if let Some(s) = m.toward(a.0, a.1, obj.direction.opposite()) {
            if let Some(t) = m.toward(a.0, a.1, obj.direction) {
                if let Some(stack) = arm_takes(m, s) {
                    lemma_arm_took_within(m, s, b);
                    lemma_arm_gives_within(after_arm_took(m, s), stack, s, t, b);
                }
            }
        }
    }
}

pub proof fn lemma_arm_took_within(m: MapView, s: (u32, u32), b: nat)
    requires
        m.within(b),
    ensures
        after_arm_took(m, s).within(b),
        after_arm_took(m, s).placeables == m.placeables,
        arm_takes(m, s) matches Some(stack) ==> stack.quantity <= b + 1,
{
    if m.chests.contains_key(s) && m.chests[s].len() > 0 {
        lemma_chest_drawn(m.chests, s, m.chests[s][0].0, 1, b);
    }
    if m.furnaces.contains_key(s) {
        assert(m.furnaces[s].within(b));
    }
    if m.belt_items.contains_key(s) {
        assert(m.belt_items[s].quantity <= b);
    }
    if let Some(i) = m.dropped_index_at(s.0, s.1) {
        crate::lookup::lemma_first_index(crate::map::stack_tiles(m.dropped_items), s);
        assert(m.dropped_items[i].quantity <= b);
        lemma_stacks_without(m.dropped_items, i, b);
    }
}

pub proof fn lemma_arm_gives_within(
    m: MapView,
    stack: crate::map::StackView,
    s: (u32, u32),
    t: (u32, u32),
    b: nat,
)
    requires
        m.within(b),
        stack.quantity <= b + 1,
    ensures
        arm_gives(m, stack, s, t).within(b + 1),
        arm_gives(m, stack, s, t).placeables == m.placeables,
{
    lemma_within_grows(m, b, b + 1);
    if m.chests.contains_key(t) {
        lemma_chest_fed(m.chests, t, stack.item, b);
    }
    if m.furnaces.contains_key(t) {
        assert(m.furnaces[t].within(b));
    }
    if m.drills.contains_key(t) {
        assert(m.drills[t].coal <= b);
    }
}

/// The arms raise no count by more than their number, and their ticks fit
/// if that leaves the counts within a machine word.
pub proof fn lemma_arms_bounded(m: MapView, tiles: Seq<(u32, u32)>, b: nat)
    requires
        m.within(b),
        b + tiles.len() <= u32::MAX,
    ensures
        arms_worked(m, tiles).within(b + tiles.len()),
        arms_worked(m, tiles).placeables == m.placeables,
        arms_fit(m, tiles),
    decreases tiles.len(),
{
    if tiles.len() > 0 {
        lemma_arms_bounded(m, tiles.drop_last(), b);
        lemma_arm_worked_within(
            arms_worked(m, tiles.drop_last()),
            tiles.last(),
            (b + tiles.len() - 1) as nat,
        );
        lemma_within_fits(arms_worked(m, tiles), b + tiles.len());
    }
}

pub proof fn lemma_ground_put_within(m: MapView, t: (u32, u32), item: Item, b: nat)
    requires
        m.within(b),
    ensures
        ground_put(m, t, item).within(b + 1),
        ground_put(m, t, item).placeables == m.placeables,
{
    lemma_within_grows(m, b, b + 1);
    if let Some(i) = m.dropped_index_at(t.0, t.1) {
        crate::lookup::lemma_first_index(crate::map::stack_tiles(m.dropped_items), t);
        assert(m.dropped_items[i].quantity <= b);
    }
}

pub proof fn lemma_delivered_within(m: MapView, t: (u32, u32), item: Item, b: nat)
    requires
        m.within(b),
    ensures
        delivered(m, t, item).within(b + 1),
        delivered(m, t, item).placeables == m.placeables,
{
    lemma_within_grows(m, b, b + 1);
    lemma_ground_put_within(m, t, item, b);
    if m.chests.contains_key(t) {
        lemma_chest_fed(m.chests, t, item, b);
    }
    if m.furnaces.contains_key(t) {
        assert(m.furnaces[t].within(b));
    }
    if m.drills.contains_key(t) {
        assert(m.drills[t].coal <= b);
    }
}

pub proof fn lemma_drill_worked_within(m: MapView, d: (u32, u32), b: nat)
    requires
        m.within(b),
    ensures
        drill_worked(m, d).within(b + 1),
        drill_worked(m, d).placeables == m.placeables,
{
    lemma_within_grows(m, b, b + 1);
    if m.drills.contains_key(d) {
        assert(m.drills[d].coal <= b);
        let ready = crate::drilling::drill_readied(m, d);
        let ticked = MapView { drills: m.drills.insert(d, ready.ticked()), ..m };
        assert(ticked.within(b));
        if let Some(item) = crate::drilling::drill_yield(ticked, d) {
            if let Some(t) = crate::drilling::drill_target(ticked, d) {
                lemma_delivered_within(ticked, t, item, b);
            }
        }
    }
}

/// The drills raise no count by more than their number, and their ticks fit
/// if that leaves the counts within a machine word.
pub proof fn lemma_drills_bounded(m: MapView, tiles: Seq<(u32, u32)>, b: nat)
    requires
        m.within(b),
        b + tiles.len() <= u32::MAX,
    ensures
        drills_worked(m, tiles).within(b + tiles.len()),
        drills_worked(m, tiles).placeables == m.placeables,
        drills_fit(m, tiles),
    decreases tiles.len(),
{
    if tiles.len() > 0 {
        lemma_drills_bounded(m, tiles.drop_last(), b);
        lemma_drill_worked_within(
            drills_worked(m, tiles.drop_last()),
            tiles.last(),
            (b + tiles.len() - 1) as nat,
        );
        lemma_within_fits(drills_worked(m, tiles), b + tiles.len());
    }
}

/// There is room for a tick with `w` as the bound of the world's counts:
/// no store of a machine, no total of a kind in a chest and no stack exceeds
/// `w`; every count of the inventory leaves twice `w` and eleven below the
/// greatest machine word; `w` leaves three for every machine and five below
/// it; and the tick counter can still be raised.
pub open spec fn room_with(g: GameStateView, w: nat) -> bool {
    &&& g.map.within(w)
    &&& 2 * w + 11 <= u32::MAX
    &&& counts_within(g.player.inventory, (u32::MAX - 2 * w - 11) as nat)
    &&& w + 3 * g.map.placeables.len() + 5 <= u32::MAX
    &&& g.current_tick < u64::MAX
}

/// There is room for a tick: some bound of the world's counts leaves room.
pub open spec fn roomy(g: GameStateView) -> bool {
    exists|w: nat| room_with(g, w)
}

/// Room with a bound is room with every greater bound of the world's counts
/// that still leaves the inventory and the machines their room.
pub proof fn lemma_least_bound_decides(g: GameStateView, least: nat, w: nat)
    requires
        room_with(g, w),
        g.map.within(least),
        least <= w,
    ensures
        room_with(g, least),
{
}

/// In a state with room the actions of a tick fit, and they leave the
/// counts of the world within two more than their bound, those of the
/// inventory within a machine word, and at most one machine more.
pub proof fn lemma_actions_have_room(g: GameStateView, i: TickInput, w: nat)
    requires
        room_with(g, w),
    ensures
        after_mining(g, i).fits(),
        after_furnace_craft(g, i).fits(),
        after_belt_craft(g, i).fits(),
        after_arm_craft(g, i).fits(),
        after_chest_craft(g, i).fits(),
        after_drill_craft(g, i).fits(),
        after_interaction(g, i).fits(),
        after_pickup(g, i).fits(),
        after_drop(g, i).fits(),
        after_actions(g, i).fits(),
        after_actions(g, i).bounded(u32::MAX as nat, w + 2, g.map.placeables.len() + 1),
{
    let l = (u32::MAX - 2 * w - 11) as nat;
    let n = g.map.placeables.len();
    let g0 = begun(g, i);
    assert(g0.bounded(l, w, n));
    let g1 = after_movement(g, i);
    lemma_moved_bounded(g0, i.keys, i.now, l, w, n);
    let g2 = after_mining(g, i);
    lemma_mined_bounded(g1, l, w, n);
    lemma_bounded_grows(g1, l, w, n, l + 1, w, n);
    assert(g2.bounded(l + 1, w, n));
    lemma_bounded_fits(g2, l + 1, w, n);
    let g3 = after_furnace_craft(g, i);
    lemma_crafted_bounded(g2, Item::Furnace, l + 1, w, n);
    lemma_bounded_grows(g2, l + 1, w, n, l + 2, w, n);
    assert(g3.bounded(l + 2, w, n));
    lemma_bounded_fits(g3, l + 2, w, n);
    let g4 = after_belt_craft(g, i);
    lemma_crafted_bounded(g3, Item::Belt, l + 2, w, n);
    lemma_bounded_grows(g3, l + 2, w, n, l + 3, w, n);
    assert(g4.bounded(l + 3, w, n));
    lemma_bounded_fits(g4, l + 3, w, n);
    let g5 = after_arm_craft(g, i);
    lemma_crafted_bounded(g4, Item::Arm, l + 3, w, n);
    lemma_bounded_grows(g4, l + 3, w, n, l + 4, w, n);
    assert(g5.bounded(l + 4, w, n));
    lemma_bounded_fits(g5, l + 4, w, n);
    let g6 = after_chest_craft(g, i);
    lemma_crafted_bounded(g5, Item::Chest, l + 4, w, n);
    lemma_bounded_grows(g5, l + 4, w, n, l + 5, w, n);
    assert(g6.bounded(l + 5, w, n));
    lemma_bounded_fits(g6, l + 5, w, n);
    let g7 = after_drill_craft(g, i);
    lemma_crafted_bounded(g6, Item::Drill, l + 5, w, n);
    lemma_bounded_grows(g6, l + 5, w, n, l + 6, w, n);
    assert(g7.bounded(l + 6, w, n));
    lemma_bounded_fits(g7, l + 6, w, n);
    lemma_actions_have_room_on(g, i, g7, w);
}

/// The second half of `lemma_actions_have_room`: from crafting on.
proof fn lemma_actions_have_room_on(g: GameStateView, i: TickInput, g7: GameStateView, w: nat)
    requires
        2 * w + 11 <= u32::MAX,
        g7 == after_drill_craft(g, i),
        g7.bounded((u32::MAX - 2 * w - 5) as nat, w, g.map.placeables.len()),
    ensures
        after_interaction(g, i).fits(),
        after_pickup(g, i).fits(),
        after_drop(g, i).fits(),
        after_actions(g, i).fits(),
        after_actions(g, i).bounded(u32::MAX as nat, w + 2, g.map.placeables.len() + 1),
{
    let l = (u32::MAX - 2 * w - 5) as nat;
    let n = g.map.placeables.len();
    let g8 = after_interaction(g, i);
    lemma_fed_bounded(g7, l, w, n);
    lemma_placed_bounded(g7, l, w, n);
    lemma_bounded_grows(g7, l, w, n, l, w + 1, n + 1);
    lemma_bounded_grows(fed(g7), l, w + 1, n, l, w + 1, n + 1);
    lemma_bounded_grows(placed_selected(g7), l, w, n + 1, l, w + 1, n + 1);
    assert(g8.bounded(l, w + 1, n + 1));
    lemma_bounded_fits(g8, l, w + 1, n + 1);
    let g9 = after_cycling_back(g, i);
    lemma_cycled_bounded(g8, -1i32, l, w + 1, n + 1);
    let g10 = after_cycling(g, i);
    lemma_cycled_bounded(g9, 1i32, l, w + 1, n + 1);
    assert(g10.bounded(l, w + 1, n + 1));
    let g11 = after_pickup(g, i);
    lemma_picked_up_bounded(g10, l, w + 1, n + 1);
    lemma_bounded_grows(g10, l, w + 1, n + 1, l + w + 2, w + 1, n + 1);
    assert(g11.bounded(l + w + 2, w + 1, n + 1));
    lemma_bounded_fits(g11, l + w + 2, w + 1, n + 1);
    let g12 = after_drop(g, i);
    lemma_dropped_bounded(g11, l + w + 2, w + 1, n + 1);
    lemma_bounded_grows(g11, l + w + 2, w + 1, n + 1, l + w + 2, w + 2, n + 1);
    assert(g12.bounded(l + w + 2, w + 2, n + 1));
    lemma_bounded_fits(g12, l + w + 2, w + 2, n + 1);
    let g13 = after_rotation(g, i);
    lemma_rotated_bounded(g12, l + w + 2, w + 2, n + 1);
    assert(g13.bounded(l + w + 2, w + 2, n + 1));
    let g14 = after_actions(g, i);
    lemma_machine_picked_up_bounded(g13, l + w + 2, w + 2, n + 1);
    lemma_bounded_grows(g13, l + w + 2, w + 2, n + 1, l + 2 * w + 5, w + 2, n + 1);
    assert(g14.bounded(l + 2 * w + 5, w + 2, n + 1));
    lemma_bounded_fits(g14, l + 2 * w + 5, w + 2, n + 1);
}

/// After actions that left the counts of the world within two more than
/// `w`, the ticks of the machines fit if `w` leaves three for every machine
/// and five below the greatest machine word.
pub proof fn lemma_machines_have_room(g: GameStateView, i: TickInput, w: nat)
    requires
        after_actions(g, i).bounded(u32::MAX as nat, w + 2, g.map.placeables.len() + 1),
        w + 3 * g.map.placeables.len() + 5 <= u32::MAX,
    ensures
        furnace_ticks_fit(after_actions(g, i)),
        arm_ticks_fit(after_belts(g, i)),
        drill_ticks_fit(after_arms(g, i)),
{
    reveal(furnaces_ticked);
    reveal(furnace_ticks_fit);
    reveal(arms_ticked);
    reveal(arm_ticks_fit);
    reveal(drill_ticks_fit);
    let l = u32::MAX as nat;
    let n = g.map.placeables.len() + 1;
    let g14 = after_actions(g, i);
    let furnaces = machine_tiles(g14.map.placeables, PlaceableType::Furnace);
    lemma_machine_tiles_len(g14.map.placeables, PlaceableType::Furnace);
    lemma_furnaces_bounded(g14, furnaces, l, w + 2, n);
    let g15 = after_furnaces(g, i);
    lemma_bounded_grows(g15, l, w + 2 + furnaces.len(), n, l, w + 2 + n, n);
    assert(g15.bounded(l, w + 2 + n, n));
    let g16 = after_belts(g, i);
    lemma_belts_ticked_bounded(g15, l, w + 2 + n, n);
    assert(g16.bounded(l, w + 2 + n, n));
    let arms = machine_tiles(g16.map.placeables, PlaceableType::Arm);
    lemma_machine_tiles_len(g16.map.placeables, PlaceableType::Arm);
    lemma_arms_bounded(g16.map, arms, w + 2 + n);
    let g17 = after_arms(g, i);
    lemma_within_grows(g17.map, w + 2 + n + arms.len(), w + 2 + 2 * n);
    assert(g17.map.within(w + 2 + 2 * n));
    assert(g17.map.placeables.len() <= n);
    let drills = machine_tiles(g17.map.placeables, PlaceableType::Drill);
    lemma_machine_tiles_len(g17.map.placeables, PlaceableType::Drill);
    lemma_drills_bounded(g17.map, drills, w + 2 + 2 * n);
}

/// A state with room can be advanced by a tick, whatever the input: no
/// count leaves the range of a machine word on the way.
pub proof fn lemma_room_suffices(g: GameStateView, i: TickInput)
    requires
        roomy(g),
    ensures
        step_fits(g, i),
{
    let w = choose|w: nat| room_with(g, w);
    lemma_actions_have_room(g, i, w);
    lemma_machines_have_room(g, i, w);
}

/// In a state with room every single action and every machines' tick fits.
pub proof fn lemma_room_for_every_action(g: GameStateView, result: Item)
    requires
        roomy(g),
    ensures
        mined(g).fits(),
        crafted(g, result).fits(),
        fed(g).fits(),
        picked_up(g).fits(),
        dropped(g).fits(),
        machine_picked_up(g).fits(),
        furnace_ticks_fit(g),
        arm_ticks_fit(g),
        drill_ticks_fit(g),
{
    reveal(furnace_ticks_fit);
    reveal(arm_ticks_fit);
    reveal(drill_ticks_fit);
    let w = choose|w: nat| room_with(g, w);
    let l = (u32::MAX - 2 * w - 11) as nat;
    let n = g.map.placeables.len();
    assert(g.bounded(l, w, n));
    lemma_mined_bounded(g, l, w, n);
    lemma_bounded_fits(mined(g), l + 1, w, n);
    lemma_crafted_bounded(g, result, l, w, n);
    lemma_bounded_fits(crafted(g, result), l + 1, w, n);
    lemma_fed_bounded(g, l, w, n);
    lemma_bounded_fits(fed(g), l, w + 1, n);
    lemma_picked_up_bounded(g, l, w, n);
    lemma_bounded_fits(picked_up(g), l + w + 1, w, n);
    lemma_dropped_bounded(g, l, w, n);
    lemma_bounded_fits(dropped(g), l, w + 1, n);
    lemma_machine_picked_up_bounded(g, l, w, n);
    lemma_bounded_fits(machine_picked_up(g), l + w + 1, w, n);
    lemma_machine_tiles_len(g.map.placeables, PlaceableType::Furnace);
    lemma_machine_tiles_len(g.map.placeables, PlaceableType::Arm);
    lemma_machine_tiles_len(g.map.placeables, PlaceableType::Drill);
    lemma_furnaces_bounded(g, machine_tiles(g.map.placeables, PlaceableType::Furnace), l, w, n);
    lemma_arms_bounded(g.map, machine_tiles(g.map.placeables, PlaceableType::Arm), w);
    lemma_drills_bounded(g.map, machine_tiles(g.map.placeables, PlaceableType::Drill), w);
}

} // verus!
