//! Drills: when a drill may start a unit and where its output goes.

use vstd::prelude::*;
use crate::chest::chest_add;
use crate::drill::DrillView;
use crate::map::{DroppedItem, GameMap, MapView, StackView};
use crate::types::{Item, PlaceableType};

verus! {

/// Whether tile `t` can take one `item` from a drill now: it is not water;
/// a chest there takes any kind, a furnace coal, iron ore and copper, a
/// drill coal, a belt anything while it is empty, an arm nothing; bare
/// ground takes it unless a stack of another kind lies there.
pub open spec fn accepts(m: MapView, t: (u32, u32), item: Item) -> bool {
    !m.in_water(t.0 as int, t.1 as int) && match m.placeable_at(t.0, t.1) {
        Some(PlaceableType::Chest) => true,
        Some(PlaceableType::Furnace) => item.feeds_furnace(),
        Some(PlaceableType::Drill) => item == Item::Coal,
        Some(PlaceableType::Belt) => !m.belt_items.contains_key(t),
        Some(PlaceableType::Arm) => false,
        None => match m.dropped_index_at(t.0, t.1) {
            Some(i) => m.dropped_items[i].item == item,
            None => true,
        },
    }
}

/// What the drill on tile `d` extracts: the item of the deposit under it,
/// if there is one that can be drilled.
pub open spec fn drill_yield(m: MapView, d: (u32, u32)) -> Option<Item> {
    match m.resource_at(d.0, d.1) {
        Some(kind) => kind.drilled(),
        None => None,
    }
}

/// The tile that the drill on tile `d` puts its output on, if it is on the
/// map.
pub open spec fn drill_target(m: MapView, d: (u32, u32)) -> Option<(u32, u32)> {
    match m.placeable_object_at(d.0, d.1) {
        Some(obj) => m.toward(d.0, d.1, obj.direction),
        None => None,
    }
}

/// Whether the drill on tile `d` may start a unit: it sits on a deposit
/// that can be drilled, and the tile it faces can take the output now.
pub open spec fn may_start(m: MapView, d: (u32, u32)) -> bool {
    match (drill_yield(m, d), drill_target(m, d)) {
        (Some(item), Some(t)) => accepts(m, t, item),
        _ => false,
    }
}

/// The world after one `item` was put on the ground of tile `t`: onto the
/// oldest stack there if it is of that kind, as a new stack if none lies
/// there, and not at all if the oldest stack there is of another kind.
pub open spec fn ground_put(m: MapView, t: (u32, u32), item: Item) -> MapView {
    match m.dropped_index_at(t.0, t.1) {
        Some(i) => if m.dropped_items[i].item == item {
            m.with_dropped_at(
                i,
                StackView { quantity: m.dropped_items[i].quantity + 1, ..m.dropped_items[i] },
            )
        } else {
            m
        },
        None => m.with_dropped(StackView { x: t.0, y: t.1, item, quantity: 1 }),
    }
}

/// The world after a drill delivered one `item` to tile `t`, which is not
/// water: into the chest, furnace or drill there if it takes the kind, onto
/// the belt there if it is empty, else onto the ground. Output that the tile
/// does not take is lost.
pub open spec fn delivered(m: MapView, t: (u32, u32), item: Item) -> MapView {
    match m.placeable_at(t.0, t.1) {
        Some(PlaceableType::Chest) => if m.chests.contains_key(t) {
            MapView { chests: m.chests.insert(t, chest_add(m.chests[t], item, 1)), ..m }
        } else {
            m
        },
        Some(PlaceableType::Furnace) => if item.feeds_furnace() && m.furnaces.contains_key(t) {
            MapView { furnaces: m.furnaces.insert(t, m.furnaces[t].with_input(item)), ..m }
        } else {
            m
        },
        Some(PlaceableType::Drill) => if item == Item::Coal && m.drills.contains_key(t) {
            MapView {
                drills: m.drills.insert(t, DrillView { coal: m.drills[t].coal + 1, ..m.drills[t] }),
                ..m
            }
        } else {
            m
        },
        Some(PlaceableType::Belt) => if !m.belt_items.contains_key(t) {
            MapView {
                belt_items: m.belt_items.insert(t, StackView { x: t.0, y: t.1, item, quantity: 1 }),
                ..m
            }
        } else {
            m
        },
        _ => ground_put(m, t, item),
    }
}

/// The world after the drill on tile `d` finished a unit: one item of the
/// deposit under it is delivered to the tile it faces, unless that tile is
/// off the map or water.
pub open spec fn drill_outputs(m: MapView, d: (u32, u32)) -> MapView {
    match (drill_yield(m, d), drill_target(m, d)) {
        (Some(item), Some(t)) => if m.in_water(t.0 as int, t.1 as int) {
            m
        } else {
            delivered(m, t, item)
        },
        _ => m,
    }
}

/// The drill on tile `d` as it enters the tick: an idle drill that may
/// start and has coal begins a unit.
pub open spec fn drill_readied(m: MapView, d: (u32, u32)) -> DrillView {
    if m.drills[d].ticks_remaining == 0 && may_start(m, d) {
        m.drills[d].started()
    } else {
        m.drills[d]
    }
}

/// The world after the drill on tile `d` lived through one tick: it starts
/// a unit if it is idle and may, its cycle advances, and where that
/// finishes a unit it burns one coal and puts out one item.
pub open spec fn drill_worked(m: MapView, d: (u32, u32)) -> MapView {
    if !m.drills.contains_key(d) {
        m
    } else {
        let ready = drill_readied(m, d);
        let ticked = MapView { drills: m.drills.insert(d, ready.ticked()), ..m };
        if ready.completes() {
            drill_outputs(ticked, d)
        } else {
            ticked
        }
    }
}

/// The world after the drills on `tiles` lived through one tick, one after
/// the other.
pub open spec fn drills_worked(m: MapView, tiles: Seq<(u32, u32)>) -> MapView
    decreases tiles.len(),
{
    if tiles.len() == 0 {
        m
    } else {
        drill_worked(drills_worked(m, tiles.drop_last()), tiles.last())
    }
}

/// Every count stays within a machine word while the drills on `tiles` work
/// one after the other.
pub open spec fn drills_fit(m: MapView, tiles: Seq<(u32, u32)>) -> bool
    decreases tiles.len(),
{
    tiles.len() == 0 || (drills_fit(m, tiles.drop_last()) && drills_worked(m, tiles).fits())
}

/// Counts that stay within bounds over all of `tiles` do so over its first
/// `n`.
pub proof fn lemma_drills_fit_prefix(m: MapView, tiles: Seq<(u32, u32)>, n: int)
    requires
        drills_fit(m, tiles),
        0 <= n <= tiles.len(),
    ensures
        drills_fit(m, tiles.take(n)),
    decreases tiles.len(),
{
    if n == tiles.len() {
        assert(tiles.take(n) =~= tiles);
    } else {
        lemma_drills_fit_prefix(m, tiles.drop_last(), n);
        assert(tiles.drop_last().take(n) =~= tiles.take(n));
    }
}

/// A drill over stone, or over no deposit, never starts a unit: while it is
/// idle a tick leaves it idle and leaves its coal alone.
pub proof fn lemma_no_yield_no_start(m: MapView, d: (u32, u32))
    requires
        m.drills.contains_key(d),
        m.drills[d].ticks_remaining == 0,
        drill_yield(m, d) is None,
    ensures
        drill_worked(m, d) == m,
{
    assert(m.drills.insert(d, m.drills[d]) =~= m.drills);
}

/// A drill without coal never starts a unit.
pub proof fn lemma_no_coal_no_start(m: MapView, d: (u32, u32))
    requires
        m.drills.contains_key(d),
        m.drills[d].ticks_remaining == 0,
        m.drills[d].coal == 0,
    ensures
        drill_worked(m, d) == m,
{
    assert(m.drills.insert(d, m.drills[d]) =~= m.drills);
}

/// Every drill of the world is idle and has no coal.
pub open spec fn drills_spent(m: MapView) -> bool {
    forall|p: (u32, u32)|
        m.drills.contains_key(p) ==> (#[trigger] m.drills[p]).ticks_remaining == 0
            && m.drills[p].coal == 0
}

/// While every drill is idle and without coal, a tick of the drills
/// changes nothing: no unit is started, no coal burnt, no item put out.
pub proof fn lemma_spent_drills_rest(m: MapView, tiles: Seq<(u32, u32)>)
    requires
        drills_spent(m),
    ensures
        drills_worked(m, tiles) == m,
    decreases tiles.len(),
{
    if tiles.len() > 0 {
        lemma_spent_drills_rest(m, tiles.drop_last());
        if m.drills.contains_key(tiles.last()) {
            lemma_no_coal_no_start(m, tiles.last());
        }
    }
}

/// Whether tile `(tx, ty)` can take one `item` from a drill now.
fn tile_accepts(map: &GameMap, tx: u32, ty: u32, item: Item) -> (b: bool)
    ensures
        b == accepts(map@, (tx, ty), item),
{
    if map.would_collide_with_water(tx, ty) {
        return false;
    }
    match map.get_placeable_at(tx, ty) {
        Some(PlaceableType::Chest) => true,
        Some(PlaceableType::Furnace) => item.is_furnace_input(),
        Some(PlaceableType::Drill) => match item {
            Item::Coal => true,
            _ => false,
        },
        Some(PlaceableType::Belt) => !map.has_belt_item(tx, ty),
        Some(PlaceableType::Arm) => false,
        None => match map.get_dropped_item_index_at(tx, ty) {
            Some(index) => match map.get_dropped_item(index) {
                Some(stack) => stack.item() == item,
                None => false,
            },
            None => true,
        },
    }
}

/// What the drill on `(drill_x, drill_y)` extracts.
fn yield_of(map: &GameMap, drill_x: u32, drill_y: u32) -> (item: Option<Item>)
    ensures
        item == drill_yield(map@, (drill_x, drill_y)),
{
    match map.get_resource_at(drill_x, drill_y) {
        Some(kind) => kind.drilled_item(),
        None => None,
    }
}

/// The tile that the drill on `(drill_x, drill_y)` puts its output on.
fn target_of(map: &GameMap, drill_x: u32, drill_y: u32) -> (tile: Option<(u32, u32)>)
    ensures
        tile == drill_target(map@, (drill_x, drill_y)),
{
    match map.get_placeable_object_at(drill_x, drill_y) {
        Some(obj) => map.neighbor(drill_x, drill_y, obj.direction),
        None => None,
    }
}

/// Puts one `item` on the ground of `(tx, ty)`.
fn put_on_ground(map: &mut GameMap, tx: u32, ty: u32, item: Item)
    requires
        ground_put(old(map)@, (tx, ty), item).fits(),
    ensures
        final(map)@ == ground_put(old(map)@, (tx, ty), item),
{
    let ghost done = ground_put(map@, (tx, ty), item);
    match map.get_dropped_item_index_at(tx, ty) {
        Some(index) => {
            match map.get_dropped_item(index) {
                Some(stack) => {
                    if stack.item() == item {
                        let mut stack = stack;
                        assert(done.dropped_items[index as int].quantity <= u32::MAX);
                        stack.add_quantity(1);
                        map.set_dropped_item(index, stack);
                    }
                },
                None => {},
            }
        },
        None => {
            map.add_dropped_item(DroppedItem::new(tx, ty, item, 1));
        },
    }
}

/// Delivers one `item` to `(tx, ty)`.
fn deliver(map: &mut GameMap, tx: u32, ty: u32, item: Item)
    requires
        delivered(old(map)@, (tx, ty), item).fits(),
    ensures
        final(map)@ == delivered(old(map)@, (tx, ty), item),
{
    let ghost t = (tx, ty);
    let ghost done = delivered(map@, t, item);
    match map.get_placeable_at(tx, ty) {
        Some(PlaceableType::Chest) => {
            match map.get_chest_data(tx, ty) {
                Some(chest) => {
                    let mut chest = chest;
                    assert(crate::chest::chest_fits(done.chests[t]));
                    chest.add_item(item, 1);
                    map.set_chest_data(tx, ty, chest);
                },
                None => {},
            }
        },
        Some(PlaceableType::Furnace) => {
            if item.is_furnace_input() {
                match map.get_furnace_data(tx, ty) {
                    Some(furnace) => {
                        let mut furnace = furnace;
                        assert(done.furnaces[t].fits());
                        furnace.add_input(item);
                        map.set_furnace_data(tx, ty, furnace);
                    },
                    None => {},
                }
            }
        },
        Some(PlaceableType::Drill) => {
            let coal: bool = match item {
                Item::Coal => true,
                _ => false,
            };
            if coal {
                match map.get_drill_data(tx, ty) {
                    Some(drill) => {
                        let mut drill = drill;
                        assert(done.drills[t].fits());
                        drill.add_coal();
                        map.set_drill_data(tx, ty, drill);
                    },
                    None => {},
                }
            }
        },
        Some(PlaceableType::Belt) => {
            if !map.has_belt_item(tx, ty) {
                map.set_belt_item(tx, ty, DroppedItem::new(tx, ty, item, 1));
            }
        },
        _ => {
            put_on_ground(map, tx, ty, item);
        },
    }
}

/// Lets the drill on `(drill_x, drill_y)` live through one tick.
pub fn work_drill(map: &mut GameMap, drill_x: u32, drill_y: u32)
    requires
        drill_worked(old(map)@, (drill_x, drill_y)).fits(),
    ensures
        final(map)@ == drill_worked(old(map)@, (drill_x, drill_y)),
{
    let mut drill = match map.get_drill_data(drill_x, drill_y) {
        Some(drill) => drill,
        None => {
            return ;
        },
    };
    if drill.processing_ticks_remaining() == 0 {
        let can_start: bool = match (yield_of(map, drill_x, drill_y), target_of(
            map,
            drill_x,
            drill_y,
        )) {
            (Some(item), Some((target_x, target_y))) => tile_accepts(map, target_x, target_y, item),
            _ => false,
        };
        if can_start {
            drill.start_processing_if_able();
        }
    }
    let completed: bool = drill.process_tick();
    map.set_drill_data(drill_x, drill_y, drill);
    if completed {
        match (yield_of(map, drill_x, drill_y), target_of(map, drill_x, drill_y)) {
            (Some(item), Some((target_x, target_y))) => {
                if !map.would_collide_with_water(target_x, target_y) {
                    deliver(map, target_x, target_y, item);
                }
            },
            _ => {},
        }
    }
}

} // verus!
