//! The grid world: water, resource deposits, placed machines with their
//! state, and the stacks of items that lie on the ground or ride on belts.

use std::collections::HashMap;
use vstd::prelude::*;
use crate::arm::{ArmData, ArmView};
use crate::chest::{chest_fits, chest_within, ChestData};
use crate::drill::{DrillData, DrillView};
use crate::furnace::{FurnaceData, FurnaceView};
use crate::lookup::{
    first_index, is_first, lemma_first_index_is, lemma_first_index_none, occurrences,
};
use crate::types::{Direction, Item, PlaceableType, ResourceType};

verus! {

broadcast use vstd::std_specs::hash::group_hash_axioms;

/// A machine that stands on a tile.
#[derive(Clone, Copy, Debug)]
pub struct PlaceableObject {
    pub x: u32,
    pub y: u32,
    pub placeable_type: PlaceableType,
    pub direction: Direction,
}

impl PlaceableObject {
    pub fn x(&self) -> (x: u32)
        ensures
            x == self.x,
    {
        self.x
    }

    pub fn y(&self) -> (y: u32)
        ensures
            y == self.y,
    {
        self.y
    }

    pub fn placeable_type(&self) -> (kind: PlaceableType)
        ensures
            kind == self.placeable_type,
    {
        self.placeable_type
    }

    pub fn placeable_type_value(&self) -> (v: u32)
        ensures
            v == self.placeable_type.spec_value(),
    {
        self.placeable_type.value()
    }

    pub fn direction(&self) -> (d: Direction)
        ensures
            d == self.direction,
    {
        self.direction
    }

    pub fn direction_value(&self) -> (v: u32)
        ensures
            v == self.direction.spec_value(),
    {
        self.direction.value()
    }

    pub fn set_direction(&mut self, direction: Direction)
        ensures
            *final(self) == (PlaceableObject { direction, ..*old(self) }),
    {
        self.direction = direction;
    }
}

/// A resource deposit on one tile. Deposits never run out.
#[derive(Clone, Copy, Debug)]
pub struct Resource {
    pub x: u32,
    pub y: u32,
    pub resource_type: ResourceType,
}

impl Resource {
    pub fn new(x: u32, y: u32, resource_type: ResourceType) -> (r: Resource)
        ensures
            r == (Resource { x, y, resource_type }),
    {
        Resource { x, y, resource_type }
    }

    pub fn x(&self) -> (x: u32)
        ensures
            x == self.x,
    {
        self.x
    }

    pub fn y(&self) -> (y: u32)
        ensures
            y == self.y,
    {
        self.y
    }

    pub fn resource_type(&self) -> (kind: ResourceType)
        ensures
            kind == self.resource_type,
    {
        self.resource_type
    }

    pub fn resource_type_value(&self) -> (v: u32)
        ensures
            v == self.resource_type.spec_value(),
    {
        self.resource_type.value()
    }
}

/// A rectangle of water, given by its corner of least coordinates and its
/// extent.
#[derive(Clone, Copy, Debug)]
pub struct WaterPatch {
    pub x: u32,
    pub y: u32,
    pub width: u32,
    pub height: u32,
}

impl WaterPatch {
    /// Whether the tile `(x, y)` lies in the rectangle.
    pub open spec fn covers(self, x: int, y: int) -> bool {
        &&& self.x <= x < self.x + self.width
        &&& self.y <= y < self.y + self.height
    }

    pub fn new(x: u32, y: u32, width: u32, height: u32) -> (w: WaterPatch)
        ensures
            w == (WaterPatch { x, y, width, height }),
    {
        WaterPatch { x, y, width, height }
    }

    pub fn x(&self) -> (x: u32)
        ensures
            x == self.x,
    {
        self.x
    }

    pub fn y(&self) -> (y: u32)
        ensures
            y == self.y,
    {
        self.y
    }

    pub fn width(&self) -> (w: u32)
        ensures
            w == self.width,
    {
        self.width
    }

    pub fn height(&self) -> (h: u32)
        ensures
            h == self.height,
    {
        self.height
    }

    /// Whether the tile `(x, y)` lies in the rectangle.
    pub fn contains(&self, x: u32, y: u32) -> (b: bool)
        ensures
            b == self.covers(x as int, y as int),
    {
        let px: u64 = self.x as u64;
        let py: u64 = self.y as u64;
        let tx: u64 = x as u64;
        let ty: u64 = y as u64;
        tx < px + self.width as u64 && tx + 1 > px && ty < py + self.height as u64 && ty + 1 > py
    }
}

/// The position of an iron ore deposit, for callers that list iron ore
/// apart from the other deposits.
#[derive(Clone, Copy, Debug)]
pub struct IronOre {
    pub x: u32,
    pub y: u32,
}

impl IronOre {
    pub fn new(x: u32, y: u32) -> (o: IronOre)
        ensures
            o == (IronOre { x, y }),
    {
        IronOre { x, y }
    }

    pub fn x(&self) -> (x: u32)
        ensures
            x == self.x,
    {
        self.x
    }

    pub fn y(&self) -> (y: u32)
        ensures
            y == self.y,
    {
        self.y
    }
}

/// What a stack of items is: a tile, a kind and a quantity.
pub struct StackView {
    pub x: u32,
    pub y: u32,
    pub item: Item,
    pub quantity: nat,
}

/// A stack of items of one kind that lies on a tile or rides on a belt.
#[derive(Clone, Copy)]
pub struct DroppedItem {
    x: u32,
    y: u32,
    item: Item,
    quantity: u32,
}

impl View for DroppedItem {
    type V = StackView;

    closed spec fn view(&self) -> StackView {
        StackView { x: self.x, y: self.y, item: self.item, quantity: self.quantity as nat }
    }
}

impl DroppedItem {
    /// The quantity read off a stack fits a machine word.
    pub proof fn lemma_view(&self)
        ensures
            self@.quantity <= u32::MAX,
    {
    }

    pub fn new(x: u32, y: u32, item: Item, quantity: u32) -> (d: DroppedItem)
        ensures
            d@ == (StackView { x, y, item, quantity: quantity as nat }),
    {
        DroppedItem { x, y, item, quantity }
    }

    pub fn x(&self) -> (x: u32)
        ensures
            x == self@.x,
    {
        self.x
    }

    pub fn y(&self) -> (y: u32)
        ensures
            y == self@.y,
    {
        self.y
    }

    pub fn item(&self) -> (item: Item)
        ensures
            item == self@.item,
    {
        self.item
    }

    pub fn quantity(&self) -> (q: u32)
        ensures
            q == self@.quantity,
    {
        self.quantity
    }

    pub fn set_position(&mut self, x: u32, y: u32)
        ensures
            final(self)@ == (StackView { x, y, ..old(self)@ }),
    {
        self.x = x;
        self.y = y;
    }

    pub fn add_quantity(&mut self, amount: u32)
        requires
            old(self)@.quantity + amount <= u32::MAX,
        ensures
            final(self)@ == (StackView { quantity: old(self)@.quantity + amount as nat, ..old(self)@ }),
    {
        self.quantity = self.quantity + amount;
    }

    pub fn remove_quantity(&mut self, amount: u32) -> (removed: bool)
        ensures
            removed == (old(self)@.quantity >= amount),
            removed ==> final(self)@ == (StackView {
                quantity: (old(self)@.quantity - amount) as nat,
                ..old(self)@
            }),
            !removed ==> final(self)@ == old(self)@,
    {
        if self.quantity >= amount {
            self.quantity = self.quantity - amount;
            true
        } else {
            false
        }
    }
}

/// The tile reached by one step from `(x, y)` towards `d`. A step from the
/// edge leads off the map, whatever the side.
pub open spec fn step(x: u32, y: u32, d: Direction) -> (int, int) {
    match d {
        Direction::North => (x as int, y - 1),
        Direction::South => (x as int, y + 1),
        Direction::East => (x + 1, y as int),
        Direction::West => (x - 1, y as int),
    }
}

/// The tiles that the machines of `s` stand on, in the order of `s`.
pub open spec fn placeable_tiles(s: Seq<PlaceableObject>) -> Seq<(u32, u32)> {
    Seq::new(s.len(), |i: int| (s[i].x, s[i].y))
}

/// The tiles of the deposits of `s`, in the order of `s`.
pub open spec fn resource_tiles(s: Seq<Resource>) -> Seq<(u32, u32)> {
    Seq::new(s.len(), |i: int| (s[i].x, s[i].y))
}

/// The tiles of the stacks of `s`, in the order of `s`.
pub open spec fn stack_tiles(s: Seq<StackView>) -> Seq<(u32, u32)> {
    Seq::new(s.len(), |i: int| (s[i].x, s[i].y))
}

/// The machines of `s` that do not stand on `(x, y)`, in the order of `s`.
pub open spec fn placeables_off(s: Seq<PlaceableObject>, x: u32, y: u32) -> Seq<PlaceableObject>
    decreases s.len(),
{
    if s.len() == 0 {
        s
    } else if s.last().x == x && s.last().y == y {
        placeables_off(s.drop_last(), x, y)
    } else {
        placeables_off(s.drop_last(), x, y).push(s.last())
    }
}

/// Nothing of `placeables_off(s, x, y)` stands on `(x, y)`.
pub proof fn lemma_placeables_off(s: Seq<PlaceableObject>, x: u32, y: u32)
    ensures
        forall|i: int|
            0 <= i < placeables_off(s, x, y).len() ==> !((#[trigger] placeables_off(s, x, y)[i]).x
                == x && placeables_off(s, x, y)[i].y == y),
        first_index(placeable_tiles(placeables_off(s, x, y)), (x, y)) is None,
    decreases s.len(),
{
    let off = placeables_off(s, x, y);
    if s.len() > 0 {
        lemma_placeables_off(s.drop_last(), x, y);
        let front = placeables_off(s.drop_last(), x, y);
        assert forall|i: int| 0 <= i < off.len() implies !((#[trigger] off[i]).x == x && off[i].y
            == y) by {
            if i < front.len() {
                assert(off[i] == front[i]);
            }
        }
    }
    assert forall|j: int| 0 <= j < placeable_tiles(off).len() implies placeable_tiles(off)[j] != (
        x,
        y,
    ) by {
        assert(placeable_tiles(off)[j] == (off[j].x, off[j].y));
    }
    lemma_first_index_none(placeable_tiles(off), (x, y));
}

/// The stacks of `s` that hold at least one item, in the order of `s`.
pub open spec fn nonempty_stacks(s: Seq<StackView>) -> Seq<StackView>
    decreases s.len(),
{
    if s.len() == 0 {
        s
    } else if s.last().quantity == 0 {
        nonempty_stacks(s.drop_last())
    } else {
        nonempty_stacks(s.drop_last()).push(s.last())
    }
}

/// The tiles of the machines of `kind` among `s`, in the order of `s`.
pub open spec fn machine_tiles(s: Seq<PlaceableObject>, kind: PlaceableType) -> Seq<(u32, u32)>
    decreases s.len(),
{
    if s.len() == 0 {
        Seq::empty()
    } else if s.last().placeable_type == kind {
        machine_tiles(s.drop_last(), kind).push((s.last().x, s.last().y))
    } else {
        machine_tiles(s.drop_last(), kind)
    }
}

/// No furnace holds more than `b` in any of its stores.
pub open spec fn furnaces_within(furnaces: Map<(u32, u32), FurnaceView>, b: nat) -> bool {
    forall|p: (u32, u32)| furnaces.contains_key(p) ==> (#[trigger] furnaces[p]).within(b)
}

/// No chest holds more than `b` of any kind.
pub open spec fn chests_within(chests: Map<(u32, u32), Seq<(Item, nat)>>, b: nat) -> bool {
    forall|p: (u32, u32)| chests.contains_key(p) ==> chest_within(#[trigger] chests[p], b)
}

/// No drill holds more than `b` coal.
pub open spec fn drills_within(drills: Map<(u32, u32), DrillView>, b: nat) -> bool {
    forall|p: (u32, u32)| drills.contains_key(p) ==> (#[trigger] drills[p]).coal <= b
}

/// No stack of the list holds more than `b`.
pub open spec fn stacks_within(stacks: Seq<StackView>, b: nat) -> bool {
    forall|i: int| 0 <= i < stacks.len() ==> (#[trigger] stacks[i]).quantity <= b
}

/// No stack that rides a belt holds more than `b`.
pub open spec fn riding_within(riding: Map<(u32, u32), StackView>, b: nat) -> bool {
    forall|p: (u32, u32)| riding.contains_key(p) ==> (#[trigger] riding[p]).quantity <= b
}

/// What the world is.
pub struct MapView {
    pub width: u32,
    pub height: u32,
    pub water_patches: Seq<WaterPatch>,
    pub resources: Seq<Resource>,
    /// The placed machines, oldest first.
    pub placeables: Seq<PlaceableObject>,
    pub furnaces: Map<(u32, u32), FurnaceView>,
    pub arms: Map<(u32, u32), ArmView>,
    pub chests: Map<(u32, u32), Seq<(Item, nat)>>,
    pub drills: Map<(u32, u32), DrillView>,
    /// The stacks on the ground, oldest first.
    pub dropped_items: Seq<StackView>,
    /// The stacks that ride on belts, by the belt's tile.
    pub belt_items: Map<(u32, u32), StackView>,
}

impl MapView {
    /// The world of the given extent with nothing in it.
    pub open spec fn empty(width: u32, height: u32) -> MapView {
        MapView {
            width,
            height,
            water_patches: Seq::empty(),
            resources: Seq::empty(),
            placeables: Seq::empty(),
            furnaces: Map::empty(),
            arms: Map::empty(),
            chests: Map::empty(),
            drills: Map::empty(),
            dropped_items: Seq::empty(),
            belt_items: Map::empty(),
        }
    }

    /// Every count in the world can be held in a machine word.
    pub open spec fn fits(self) -> bool {
        &&& forall|p: (u32, u32)| self.furnaces.contains_key(p) ==> (#[trigger] self.furnaces[p]).fits()
        &&& forall|p: (u32, u32)| self.chests.contains_key(p) ==> chest_fits(#[trigger] self.chests[p])
        &&& forall|p: (u32, u32)| self.drills.contains_key(p) ==> (#[trigger] self.drills[p]).fits()
        &&& forall|i: int|
            0 <= i < self.dropped_items.len() ==> (#[trigger] self.dropped_items[i]).quantity
                <= u32::MAX
        &&& forall|p: (u32, u32)|
            self.belt_items.contains_key(p) ==> (#[trigger] self.belt_items[p]).quantity <= u32::MAX
    }

    /// No count in the world exceeds `b`: no store of a furnace or drill, no
    /// total of a kind in a chest, no quantity of a stack.
    pub open spec fn within(self, b: nat) -> bool {
        &&& furnaces_within(self.furnaces, b)
        &&& chests_within(self.chests, b)
        &&& drills_within(self.drills, b)
        &&& stacks_within(self.dropped_items, b)
        &&& riding_within(self.belt_items, b)
    }

    pub open spec fn in_bounds(self, x: int, y: int) -> bool {
        0 <= x < self.width && 0 <= y < self.height
    }

    /// The tile one step from `(x, y)` towards `d`, where it is on the map.
    pub open spec fn toward(self, x: u32, y: u32, d: Direction) -> Option<(u32, u32)> {
        let t = step(x, y, d);
        if self.in_bounds(t.0, t.1) {
            Some((t.0 as u32, t.1 as u32))
        } else {
            None
        }
    }

    /// Whether some water patch covers the tile.
    pub open spec fn in_water(self, x: int, y: int) -> bool {
        exists|i: int| 0 <= i < self.water_patches.len() && (#[trigger] self.water_patches[i]).covers(x, y)
    }

    /// Index of the oldest machine on the tile.
    pub open spec fn placeable_index(self, x: u32, y: u32) -> Option<int> {
        first_index(placeable_tiles(self.placeables), (x, y))
    }

    /// The oldest machine on the tile.
    pub open spec fn placeable_object_at(self, x: u32, y: u32) -> Option<PlaceableObject> {
        match self.placeable_index(x, y) {
            Some(i) => Some(self.placeables[i]),
            None => None,
        }
    }

    /// The kind of the oldest machine on the tile.
    pub open spec fn placeable_at(self, x: u32, y: u32) -> Option<PlaceableType> {
        match self.placeable_index(x, y) {
            Some(i) => Some(self.placeables[i].placeable_type),
            None => None,
        }
    }

    /// The kind of the first deposit listed for the tile.
    pub open spec fn resource_at(self, x: u32, y: u32) -> Option<ResourceType> {
        match first_index(resource_tiles(self.resources), (x, y)) {
            Some(i) => Some(self.resources[i].resource_type),
            None => None,
        }
    }

    /// Index of the oldest ground stack on the tile.
    pub open spec fn dropped_index_at(self, x: u32, y: u32) -> Option<int> {
        first_index(stack_tiles(self.dropped_items), (x, y))
    }

    /// Whether a machine on the tile keeps the player out of it.
    pub open spec fn blocked(self, x: u32, y: u32) -> bool {
        match self.placeable_at(x, y) {
            Some(kind) => kind.blocks_movement(),
            None => false,
        }
    }

    /// Whether the player cannot enter the tile: it is water, or a furnace
    /// or chest stands on it.
    pub open spec fn blocks_movement(self, x: u32, y: u32) -> bool {
        self.in_water(x as int, y as int) || self.blocked(x, y)
    }

    /// Every furnace, arm, chest and drill on the map has its state.
    pub open spec fn equipped(self) -> bool {
        forall|k: int|
            0 <= k < self.placeables.len() ==> self.has_state(#[trigger] self.placeables[k])
    }

    /// Whether the state that a machine like `o` needs is stored for its
    /// tile.
    pub open spec fn has_state(self, o: PlaceableObject) -> bool {
        match o.placeable_type {
            PlaceableType::Furnace => self.furnaces.contains_key((o.x, o.y)),
            PlaceableType::Arm => self.arms.contains_key((o.x, o.y)),
            PlaceableType::Chest => self.chests.contains_key((o.x, o.y)),
            PlaceableType::Drill => self.drills.contains_key((o.x, o.y)),
            PlaceableType::Belt => true,
        }
    }

    /// Whether `other` stores state for every tile that this world stores
    /// state for, kind by kind.
    pub open spec fn state_kept_in(self, other: MapView) -> bool {
        &&& forall|p: (u32, u32)| self.furnaces.contains_key(p) ==> other.furnaces.contains_key(p)
        &&& forall|p: (u32, u32)| self.arms.contains_key(p) ==> other.arms.contains_key(p)
        &&& forall|p: (u32, u32)| self.chests.contains_key(p) ==> other.chests.contains_key(p)
        &&& forall|p: (u32, u32)| self.drills.contains_key(p) ==> other.drills.contains_key(p)
    }

    /// The machines stand one to a tile and each has its state.
    pub open spec fn well_kept(self) -> bool {
        self.one_per_tile() && self.equipped()
    }

    /// No two machines stand on one tile.
    pub open spec fn one_per_tile(self) -> bool {
        forall|i: int, j: int|
            0 <= i < j < self.placeables.len() ==> placeable_tiles(self.placeables)[i]
                != placeable_tiles(self.placeables)[j]
    }

    /// Whether the deposit on the tile, if there is one, keeps a machine of
    /// `kind` off it: a deposit takes no machine but a drill, and stone,
    /// which cannot be drilled, not even that.
    pub open spec fn deposit_refuses(self, x: u32, y: u32, kind: PlaceableType) -> bool {
        match self.resource_at(x, y) {
            Some(deposit) => !(kind == PlaceableType::Drill && deposit.drilled() is Some),
            None => false,
        }
    }

    /// Whether a machine of `kind` may be put on the tile: not on water, not
    /// on another machine, and on a deposit only a drill that can drill it.
    pub open spec fn can_place(self, x: u32, y: u32, kind: PlaceableType) -> bool {
        &&& !self.in_water(x as int, y as int)
        &&& self.placeable_at(x, y) is None
        &&& !self.deposit_refuses(x, y, kind)
    }

    /// The world after a machine of `kind` was put on the tile, facing east
    /// and with fresh state; the same world where it may not be put there.
    pub open spec fn placed(self, x: u32, y: u32, kind: PlaceableType) -> MapView {
        if !self.can_place(x, y, kind) {
            self
        } else {
            let m = MapView {
                placeables: self.placeables.push(
                    PlaceableObject { x, y, placeable_type: kind, direction: Direction::East },
                ),
                ..self
            };
            match kind {
                PlaceableType::Furnace => MapView {
                    furnaces: m.furnaces.insert((x, y), FurnaceView::fresh()),
                    ..m
                },
                PlaceableType::Arm => MapView { arms: m.arms.insert((x, y), ArmView::fresh()), ..m },
                PlaceableType::Chest => MapView {
                    chests: m.chests.insert((x, y), Seq::empty()),
                    ..m
                },
                PlaceableType::Drill => MapView {
                    drills: m.drills.insert((x, y), DrillView::fresh()),
                    ..m
                },
                PlaceableType::Belt => m,
            }
        }
    }

    /// The world after everything that stood on the tile was taken away:
    /// the machines, their state and what rode on a belt there.
    pub open spec fn without_placeable(self, x: u32, y: u32) -> MapView {
        MapView {
            placeables: placeables_off(self.placeables, x, y),
            furnaces: self.furnaces.remove((x, y)),
            arms: self.arms.remove((x, y)),
            chests: self.chests.remove((x, y)),
            drills: self.drills.remove((x, y)),
            belt_items: self.belt_items.remove((x, y)),
            ..self
        }
    }

    /// The world with the facing of the oldest machine on the tile changed.
    pub open spec fn turned(self, x: u32, y: u32, direction: Direction) -> MapView {
        match self.placeable_index(x, y) {
            Some(i) => MapView {
                placeables: self.placeables.update(
                    i,
                    PlaceableObject { direction, ..self.placeables[i] },
                ),
                ..self
            },
            None => self,
        }
    }

    /// The world without the ground stack at `index`.
    pub open spec fn without_dropped(self, index: int) -> MapView {
        if 0 <= index < self.dropped_items.len() {
            MapView { dropped_items: self.dropped_items.remove(index), ..self }
        } else {
            self
        }
    }

    /// The world with the ground stack at `index` replaced.
    pub open spec fn with_dropped_at(self, index: int, stack: StackView) -> MapView {
        if 0 <= index < self.dropped_items.len() {
            MapView { dropped_items: self.dropped_items.update(index, stack), ..self }
        } else {
            self
        }
    }

    /// The world with one more ground stack.
    pub open spec fn with_dropped(self, stack: StackView) -> MapView {
        MapView { dropped_items: self.dropped_items.push(stack), ..self }
    }
}

/// Placing a machine keeps the machines one to a tile: it is refused on a
/// tile that holds one.
pub proof fn lemma_placed_one_per_tile(m: MapView, x: u32, y: u32, kind: PlaceableType)
    requires
        m.one_per_tile(),
    ensures
        m.placed(x, y, kind).one_per_tile(),
        m.can_place(x, y, kind) ==> m.placed(x, y, kind).placeable_at(x, y) == Some(kind),
        !m.can_place(x, y, kind) ==> m.placed(x, y, kind) == m,
{
    if m.can_place(x, y, kind) {
        let tiles = placeable_tiles(m.placeables);
        crate::lookup::lemma_first_index(tiles, (x, y));
        let after = m.placed(x, y, kind);
        let now = placeable_tiles(after.placeables);
        assert forall|i: int, j: int| 0 <= i < j < after.placeables.len() implies now[i]
            != now[j] by {
            assert(now[i] == tiles[i]);
            if j < m.placeables.len() {
                assert(now[j] == tiles[j]);
            }
        }
        assert(is_first(now, (x, y), m.placeables.len() as int)) by {
            assert forall|j: int| 0 <= j < m.placeables.len() implies now[j] != (x, y) by {
                assert(now[j] == tiles[j]);
            }
        }
        lemma_first_index_is(now, (x, y), m.placeables.len() as int);
    }
}

/// Taking the machines of a tile away keeps the machines one to a tile, and
/// what is left stood there before.
pub proof fn lemma_off_one_per_tile(s: Seq<PlaceableObject>, x: u32, y: u32)
    requires
        forall|i: int, j: int|
            0 <= i < j < s.len() ==> placeable_tiles(s)[i] != placeable_tiles(s)[j],
    ensures
        forall|i: int, j: int|
            0 <= i < j < placeables_off(s, x, y).len() ==> placeable_tiles(
                placeables_off(s, x, y),
            )[i] != placeable_tiles(placeables_off(s, x, y))[j],
        forall|i: int|
            0 <= i < placeables_off(s, x, y).len() ==> exists|k: int|
                0 <= k < s.len() && s[k] == #[trigger] placeables_off(s, x, y)[i],
    decreases s.len(),
{
    let off = placeables_off(s, x, y);
    if s.len() > 0 {
        let front = s.drop_last();
        assert forall|i: int, j: int| 0 <= i < j < front.len() implies placeable_tiles(front)[i]
            != placeable_tiles(front)[j] by {
            assert(placeable_tiles(front)[i] == placeable_tiles(s)[i]);
            assert(placeable_tiles(front)[j] == placeable_tiles(s)[j]);
        }
        lemma_off_one_per_tile(front, x, y);
        let inner = placeables_off(front, x, y);
        assert forall|i: int| 0 <= i < off.len() implies exists|k: int|
            0 <= k < s.len() && s[k] == #[trigger] off[i] by {
            if i < inner.len() {
                assert(off[i] == inner[i]);
                let k = choose|k: int| 0 <= k < front.len() && front[k] == inner[i];
                assert(s[k] == off[i]);
            } else {
                assert(s[s.len() - 1] == off[i]);
            }
        }
        assert forall|i: int, j: int| 0 <= i < j < off.len() implies placeable_tiles(off)[i]
            != placeable_tiles(off)[j] by {
            if j < inner.len() {
                assert(placeable_tiles(off)[i] == placeable_tiles(inner)[i]);
                assert(placeable_tiles(off)[j] == placeable_tiles(inner)[j]);
            } else {
                assert(off[j] == s[s.len() - 1]);
                assert(off[i] == inner[i]);
                let k = choose|k: int| 0 <= k < front.len() && front[k] == inner[i];
                assert(placeable_tiles(s)[k] != placeable_tiles(s)[s.len() - 1]);
            }
        }
    }
}

/// A world that keeps its machines and loses no state keeps them equipped.
pub proof fn lemma_equipped_kept(m: MapView, after: MapView)
    requires
        m.equipped(),
        after.placeables == m.placeables,
        m.state_kept_in(after),
    ensures
        after.equipped(),
{
    assert forall|k: int| 0 <= k < after.placeables.len() implies after.has_state(
        #[trigger] after.placeables[k],
    ) by {
        assert(m.has_state(m.placeables[k]));
    }
}

/// Placing a machine keeps the machines equipped: the new one gets fresh
/// state.
pub proof fn lemma_placed_equipped(m: MapView, x: u32, y: u32, kind: PlaceableType)
    requires
        m.equipped(),
    ensures
        m.placed(x, y, kind).equipped(),
        m.can_place(x, y, kind) && kind == PlaceableType::Chest ==> m.placed(
            x,
            y,
            kind,
        ).chests.contains_key((x, y)) && m.placed(x, y, kind).chests[(x, y)] == Seq::<
            (Item, nat),
        >::empty(),
{
    let after = m.placed(x, y, kind);
    if m.can_place(x, y, kind) {
        assert forall|k: int| 0 <= k < after.placeables.len() implies after.has_state(
            #[trigger] after.placeables[k],
        ) by {
            if k < m.placeables.len() {
                assert(after.placeables[k] == m.placeables[k]);
                assert(m.has_state(m.placeables[k]));
            }
        }
    }
}

/// Turning a machine keeps the machines equipped.
pub proof fn lemma_turned_equipped(m: MapView, x: u32, y: u32, direction: Direction)
    requires
        m.equipped(),
    ensures
        m.turned(x, y, direction).equipped(),
{
    let after = m.turned(x, y, direction);
    assert forall|k: int| 0 <= k < after.placeables.len() implies after.has_state(
        #[trigger] after.placeables[k],
    ) by {
        assert(m.has_state(m.placeables[k]));
    }
}

/// Taking the machines of a tile away, with their state, keeps the other
/// machines equipped.
pub proof fn lemma_without_placeable_equipped(m: MapView, x: u32, y: u32)
    requires
        m.equipped(),
    ensures
        m.without_placeable(x, y).equipped(),
{
    let after = m.without_placeable(x, y);
    lemma_placeables_off(m.placeables, x, y);
    lemma_placeables_off_members(m.placeables, x, y);
    assert forall|k: int| 0 <= k < after.placeables.len() implies after.has_state(
        #[trigger] after.placeables[k],
    ) by {
        let o = after.placeables[k];
        let j = choose|j: int| 0 <= j < m.placeables.len() && m.placeables[j] == o;
        assert(m.has_state(m.placeables[j]));
        assert(!(o.x == x && o.y == y));
    }
}

/// What is left when the machines of a tile are taken away stood on the
/// map before.
pub proof fn lemma_placeables_off_members(s: Seq<PlaceableObject>, x: u32, y: u32)
    ensures
        forall|i: int|
            0 <= i < placeables_off(s, x, y).len() ==> exists|k: int|
                0 <= k < s.len() && s[k] == #[trigger] placeables_off(s, x, y)[i],
    decreases s.len(),
{
    let off = placeables_off(s, x, y);
    if s.len() > 0 {
        let front = s.drop_last();
        lemma_placeables_off_members(front, x, y);
        let inner = placeables_off(front, x, y);
        assert forall|i: int| 0 <= i < off.len() implies exists|k: int|
            0 <= k < s.len() && s[k] == #[trigger] off[i] by {
            if i < inner.len() {
                assert(off[i] == inner[i]);
                let k = choose|k: int| 0 <= k < front.len() && front[k] == inner[i];
                assert(s[k] == off[i]);
            } else {
                assert(s[s.len() - 1] == off[i]);
            }
        }
    }
}

/// Where the machines are equipped, the state of the machine that stands
/// on a tile is stored.
pub proof fn lemma_equipped_at(m: MapView, x: u32, y: u32)
    requires
        m.equipped(),
    ensures
        m.placeable_at(x, y) == Some(PlaceableType::Furnace) ==> m.furnaces.contains_key((x, y)),
        m.placeable_at(x, y) == Some(PlaceableType::Arm) ==> m.arms.contains_key((x, y)),
        m.placeable_at(x, y) == Some(PlaceableType::Chest) ==> m.chests.contains_key((x, y)),
        m.placeable_at(x, y) == Some(PlaceableType::Drill) ==> m.drills.contains_key((x, y)),
{
    crate::lookup::lemma_first_index(placeable_tiles(m.placeables), (x, y));
    if let Some(i) = first_index(placeable_tiles(m.placeables), (x, y)) {
        assert(placeable_tiles(m.placeables)[i] == (m.placeables[i].x, m.placeables[i].y));
        assert(m.has_state(m.placeables[i]));
    }
}

/// Taking the machines of one tile away leaves the oldest machine of every
/// other tile what it was.
pub proof fn lemma_placeables_off_elsewhere(
    s: Seq<PlaceableObject>,
    x: u32,
    y: u32,
    p: (u32, u32),
)
    requires
        p != (x, y),
    ensures
        match (
            first_index(placeable_tiles(s), p),
            first_index(placeable_tiles(placeables_off(s, x, y)), p),
        ) {
            (Some(i), Some(j)) => s[i] == placeables_off(s, x, y)[j],
            (None, None) => true,
            _ => false,
        },
    decreases s.len(),
{
    let off = placeables_off(s, x, y);
    let ts = placeable_tiles(s);
    let to = placeable_tiles(off);
    if s.len() == 0 {
        lemma_first_index_none(ts, p);
        lemma_first_index_none(to, p);
    } else {
        let front = s.drop_last();
        let inner = placeables_off(front, x, y);
        let tf = placeable_tiles(front);
        let ti = placeable_tiles(inner);
        lemma_placeables_off_elsewhere(front, x, y, p);
        crate::lookup::lemma_first_index(tf, p);
        crate::lookup::lemma_first_index(ti, p);
        match first_index(tf, p) {
            Some(i) => {
                let j = first_index(ti, p)->0;
                assert(is_first(ts, p, i)) by {
                    assert(ts[i] == tf[i]);
                    assert forall|k: int| 0 <= k < i implies ts[k] != p by {
                        assert(ts[k] == tf[k]);
                    }
                }
                lemma_first_index_is(ts, p, i);
                assert(is_first(to, p, j)) by {
                    assert(to[j] == ti[j]);
                    assert forall|k: int| 0 <= k < j implies to[k] != p by {
                        assert(to[k] == ti[k]);
                    }
                }
                lemma_first_index_is(to, p, j);
                assert(off[j] == inner[j]);
                assert(s[i] == front[i]);
            },
            None => {
                if s.last().x == p.0 && s.last().y == p.1 {
                    let n = s.len() - 1;
                    assert(is_first(ts, p, n)) by {
                        assert forall|k: int| 0 <= k < n implies ts[k] != p by {
                            assert(ts[k] == tf[k]);
                        }
                    }
                    lemma_first_index_is(ts, p, n);
                    let e = inner.len() as int;
                    assert(off == inner.push(s.last()));
                    assert(is_first(to, p, e)) by {
                        assert forall|k: int| 0 <= k < e implies to[k] != p by {
                            assert(to[k] == ti[k]);
                        }
                    }
                    lemma_first_index_is(to, p, e);
                } else {
                    assert forall|k: int| 0 <= k < ts.len() implies ts[k] != p by {
                        if k < front.len() {
                            assert(ts[k] == tf[k]);
                        }
                    }
                    lemma_first_index_none(ts, p);
                    assert forall|k: int| 0 <= k < to.len() implies to[k] != p by {
                        if k < inner.len() {
                            assert(to[k] == ti[k]);
                        } else {
                            assert(off[k] == s.last());
                        }
                    }
                    lemma_first_index_none(to, p);
                }
            },
        }
    }
}

/// Where the machines stand one to a tile, the tiles of the machines of a
/// kind name a tile once if the machine on it is of that kind, and not at
/// all if not.
pub proof fn lemma_machine_tiles_once(m: MapView, kind: PlaceableType, p: (u32, u32))
    requires
        m.one_per_tile(),
    ensures
        occurrences(machine_tiles(m.placeables, kind), p) == if m.placeable_at(p.0, p.1) == Some(
            kind,
        ) {
            1nat
        } else {
            0nat
        },
{
    lemma_machine_tiles_count(m.placeables, kind, p);
    crate::lookup::lemma_first_index(placeable_tiles(m.placeables), p);
    if let Some(i) = first_index(placeable_tiles(m.placeables), p) {
        assert(placeable_tiles(m.placeables)[i] == (m.placeables[i].x, m.placeables[i].y));
        assert forall|k: int|
            0 <= k < m.placeables.len() && m.placeables[k].x == p.0 && m.placeables[k].y
                == p.1 implies k == i by {
            assert(placeable_tiles(m.placeables)[k] == p);
        }
    } else {
        assert forall|k: int| 0 <= k < m.placeables.len() implies !(m.placeables[k].x == p.0
            && m.placeables[k].y == p.1) by {
            assert(placeable_tiles(m.placeables)[k] != p);
        }
    }
}

/// Whether a machine of `kind` among `s` stands on `p`.
pub open spec fn stands_on(s: Seq<PlaceableObject>, kind: PlaceableType, p: (u32, u32)) -> bool {
    exists|k: int|
        0 <= k < s.len() && (#[trigger] s[k]).x == p.0 && s[k].y == p.1 && s[k].placeable_type
            == kind
}

proof fn lemma_machine_tiles_count(s: Seq<PlaceableObject>, kind: PlaceableType, p: (u32, u32))
    requires
        forall|i: int, j: int|
            0 <= i < j < s.len() ==> placeable_tiles(s)[i] != placeable_tiles(s)[j],
    ensures
        occurrences(machine_tiles(s, kind), p) == if stands_on(s, kind, p) {
            1nat
        } else {
            0nat
        },
    decreases s.len(),
{
    if s.len() > 0 {
        let front = s.drop_last();
        let last = s.last();
        assert forall|i: int, j: int| 0 <= i < j < front.len() implies placeable_tiles(front)[i]
            != placeable_tiles(front)[j] by {
            assert(placeable_tiles(front)[i] == placeable_tiles(s)[i]);
            assert(placeable_tiles(front)[j] == placeable_tiles(s)[j]);
        }
        lemma_machine_tiles_count(front, kind, p);
        if stands_on(front, kind, p) {
            let k = choose|k: int|
                0 <= k < front.len() && (#[trigger] front[k]).x == p.0 && front[k].y == p.1
                    && front[k].placeable_type == kind;
            assert(s[k] == front[k]);
            assert(placeable_tiles(s)[k] != placeable_tiles(s)[s.len() - 1]);
            assert(stands_on(s, kind, p));
            if last.placeable_type == kind {
                assert(machine_tiles(s, kind).drop_last() =~= machine_tiles(front, kind));
            }
        } else if last.x == p.0 && last.y == p.1 && last.placeable_type == kind {
            assert(s[s.len() - 1] == last);
            assert(stands_on(s, kind, p));
            assert(machine_tiles(s, kind).drop_last() =~= machine_tiles(front, kind));
        } else {
            if stands_on(s, kind, p) {
                let k = choose|k: int|
                    0 <= k < s.len() && (#[trigger] s[k]).x == p.0 && s[k].y == p.1
                        && s[k].placeable_type == kind;
                assert(front[k] == s[k]);
            }
            if last.placeable_type == kind {
                assert(machine_tiles(s, kind).drop_last() =~= machine_tiles(front, kind));
            }
        }
    } else {
        assert(!stands_on(s, kind, p));
    }
}

/// A drill may be put on a deposit exactly where it can drill it: stone
/// takes no drill, and the world stays as it is where one is tried. No
/// other machine goes on any deposit.
pub proof fn lemma_placing_on_deposits(m: MapView, x: u32, y: u32, kind: PlaceableType)
    requires
        m.resource_at(x, y) is Some,
    ensures
        m.can_place(x, y, kind) <==> {
            &&& kind == PlaceableType::Drill
            &&& m.resource_at(x, y)->0.drilled() is Some
            &&& !m.in_water(x as int, y as int)
            &&& m.placeable_at(x, y) is None
        },
        m.resource_at(x, y) == Some(ResourceType::Stone) ==> m.placed(x, y, kind) == m,
        kind != PlaceableType::Drill ==> m.placed(x, y, kind) == m,
{
}

/// A world whose counts all stay within a machine word fits.
pub proof fn lemma_within_fits(m: MapView, b: nat)
    requires
        m.within(b),
        b <= u32::MAX,
    ensures
        m.fits(),
{
    assert forall|p: (u32, u32)| m.chests.contains_key(p) implies chest_fits(
        #[trigger] m.chests[p],
    ) by {
        crate::chest::lemma_chest_within_fits(m.chests[p], b);
    }
    assert forall|p: (u32, u32)| m.furnaces.contains_key(p) implies (#[trigger] m.furnaces[p]).fits() by {
        assert(m.furnaces[p].within(b));
    }
}

/// A world whose counts stay within `b` keeps them within any greater
/// bound.
pub proof fn lemma_within_grows(m: MapView, b: nat, c: nat)
    requires
        m.within(b),
        b <= c,
    ensures
        m.within(c),
{
    assert forall|p: (u32, u32)| m.chests.contains_key(p) implies chest_within(
        #[trigger] m.chests[p],
        c,
    ) by {
        assert(chest_within(m.chests[p], b));
    }
    assert forall|p: (u32, u32)| m.furnaces.contains_key(p) implies (#[trigger] m.furnaces[p]).within(
        c,
    ) by {
        assert(m.furnaces[p].within(b));
    }
}

/// Every key is the key of a tile.
proof fn lemma_key_has_tile(k: u64) -> (p: (u32, u32))
    ensures
        tile_key(p.0, p.1) == k,
{
    ((k / 0x1_0000_0000) as u32, (k % 0x1_0000_0000) as u32)
}

/// The key under which the state of tile `(x, y)` is stored.
pub open spec fn tile_key(x: u32, y: u32) -> u64 {
    (x as u64 * 0x1_0000_0000 + y as u64) as u64
}

spec fn furnace_views(m: Map<u64, FurnaceData>) -> Map<(u32, u32), FurnaceView> {
    Map::new(
        |p: (u32, u32)| m.contains_key(tile_key(p.0, p.1)),
        |p: (u32, u32)| m[tile_key(p.0, p.1)]@,
    )
}

spec fn arm_views(m: Map<u64, ArmData>) -> Map<(u32, u32), ArmView> {
    Map::new(
        |p: (u32, u32)| m.contains_key(tile_key(p.0, p.1)),
        |p: (u32, u32)| m[tile_key(p.0, p.1)]@,
    )
}

spec fn chest_views(m: Map<u64, ChestData>) -> Map<(u32, u32), Seq<(Item, nat)>> {
    Map::new(
        |p: (u32, u32)| m.contains_key(tile_key(p.0, p.1)),
        |p: (u32, u32)| m[tile_key(p.0, p.1)]@,
    )
}

spec fn drill_views(m: Map<u64, DrillData>) -> Map<(u32, u32), DrillView> {
    Map::new(
        |p: (u32, u32)| m.contains_key(tile_key(p.0, p.1)),
        |p: (u32, u32)| m[tile_key(p.0, p.1)]@,
    )
}

spec fn belt_views(m: Map<u64, DroppedItem>) -> Map<(u32, u32), StackView> {
    Map::new(
        |p: (u32, u32)| m.contains_key(tile_key(p.0, p.1)),
        |p: (u32, u32)| m[tile_key(p.0, p.1)]@,
    )
}

/// The stacks of `s` as what they are, in the order of `s`.
pub open spec fn stack_views(s: Seq<DroppedItem>) -> Seq<StackView> {
    Seq::new(s.len(), |i: int| s[i]@)
}

fn key_of(x: u32, y: u32) -> (k: u64)
    ensures
        k == tile_key(x, y),
{
    (x as u64) * 0x1_0000_0000 + (y as u64)
}

/// The world.
pub struct GameMap {
    width: u32,
    height: u32,
    water_patches: Vec<WaterPatch>,
    resources: Vec<Resource>,
    placeable_objects: Vec<PlaceableObject>,
    furnace_data: HashMap<u64, FurnaceData>,
    arm_data: HashMap<u64, ArmData>,
    chest_data: HashMap<u64, ChestData>,
    drill_data: HashMap<u64, DrillData>,
    dropped_items: Vec<DroppedItem>,
    belt_items: HashMap<u64, DroppedItem>,
}

impl View for GameMap {
    type V = MapView;

    closed spec fn view(&self) -> MapView {
        MapView {
            width: self.width,
            height: self.height,
            water_patches: self.water_patches@,
            resources: self.resources@,
            placeables: self.placeable_objects@,
            furnaces: furnace_views(self.furnace_data@),
            arms: arm_views(self.arm_data@),
            chests: chest_views(self.chest_data@),
            drills: drill_views(self.drill_data@),
            dropped_items: stack_views(self.dropped_items@),
            belt_items: belt_views(self.belt_items@),
        }
    }
}

impl GameMap {
    /// Every count read off a world fits a machine word.
    pub proof fn lemma_view(&self)
        ensures
            self@.fits(),
    {
        assert forall|p: (u32, u32)| self@.furnaces.contains_key(p) implies (
        #[trigger] self@.furnaces[p]).fits() by {
            self.furnace_data@[tile_key(p.0, p.1)].lemma_view();
        }
        assert forall|p: (u32, u32)| self@.chests.contains_key(p) implies chest_fits(
            #[trigger] self@.chests[p],
        ) by {
            self.chest_data@[tile_key(p.0, p.1)].lemma_view();
        }
        assert forall|p: (u32, u32)| self@.drills.contains_key(p) implies (
        #[trigger] self@.drills[p]).fits() by {
            self.drill_data@[tile_key(p.0, p.1)].lemma_view();
        }
        assert forall|i: int| 0 <= i < self@.dropped_items.len() implies (
        #[trigger] self@.dropped_items[i]).quantity <= u32::MAX by {
            self.dropped_items@[i].lemma_view();
        }
        assert forall|p: (u32, u32)| self@.belt_items.contains_key(p) implies (
        #[trigger] self@.belt_items[p]).quantity <= u32::MAX by {
            self.belt_items@[tile_key(p.0, p.1)].lemma_view();
        }
    }

    /// An empty world of the given extent.
    pub fn new(width: u32, height: u32) -> (map: GameMap)
        ensures
            map@ == MapView::empty(width, height),
    {
        let map = GameMap {
            width,
            height,
            water_patches: Vec::new(),
            resources: Vec::new(),
            placeable_objects: Vec::new(),
            furnace_data: HashMap::new(),
            arm_data: HashMap::new(),
            chest_data: HashMap::new(),
            drill_data: HashMap::new(),
            dropped_items: Vec::new(),
            belt_items: HashMap::new(),
        };
        proof {
            let e = MapView::empty(width, height);
            assert(map@.furnaces =~= e.furnaces);
            assert(map@.arms =~= e.arms);
            assert(map@.chests =~= e.chests);
            assert(map@.drills =~= e.drills);
            assert(map@.belt_items =~= e.belt_items);
            assert(map@.dropped_items =~= e.dropped_items);
        }
        map
    }

    pub fn width(&self) -> (w: u32)
        ensures
            w == self@.width,
    {
        self.width
    }

    pub fn height(&self) -> (h: u32)
        ensures
            h == self@.height,
    {
        self.height
    }

    pub fn water_patches(&self) -> (v: Vec<WaterPatch>)
        ensures
            v@ == self@.water_patches,
    {
        let mut v: Vec<WaterPatch> = Vec::new();
        let mut i: usize = 0;
        while i < self.water_patches.len()
            invariant
                i <= self.water_patches@.len(),
                v@ == self.water_patches@.take(i as int),
            decreases self.water_patches@.len() - i,
        {
            v.push(self.water_patches[i]);
            assert(self.water_patches@.take(i + 1) =~= self.water_patches@.take(i as int).push(
                self.water_patches@[i as int],
            ));
            i = i + 1;
        }
        assert(v@ =~= self.water_patches@);
        v
    }

    pub fn resources(&self) -> (v: Vec<Resource>)
        ensures
            v@ == self@.resources,
    {
        let mut v: Vec<Resource> = Vec::new();
        let mut i: usize = 0;
        while i < self.resources.len()
            invariant
                i <= self.resources@.len(),
                v@ == self.resources@.take(i as int),
            decreases self.resources@.len() - i,
        {
            v.push(self.resources[i]);
            assert(self.resources@.take(i + 1) =~= self.resources@.take(i as int).push(
                self.resources@[i as int],
            ));
            i = i + 1;
        }
        assert(v@ =~= self.resources@);
        v
    }

    pub fn placeable_objects(&self) -> (v: Vec<PlaceableObject>)
        ensures
            v@ == self@.placeables,
    {
        let mut v: Vec<PlaceableObject> = Vec::new();
        let mut i: usize = 0;
        while i < self.placeable_objects.len()
            invariant
                i <= self.placeable_objects@.len(),
                v@ == self.placeable_objects@.take(i as int),
            decreases self.placeable_objects@.len() - i,
        {
            v.push(self.placeable_objects[i]);
            assert(self.placeable_objects@.take(i + 1) =~= self.placeable_objects@.take(
                i as int,
            ).push(self.placeable_objects@[i as int]));
            i = i + 1;
        }
        assert(v@ =~= self.placeable_objects@);
        v
    }

    pub fn dropped_items(&self) -> (v: Vec<DroppedItem>)
        ensures
            stack_views(v@) == self@.dropped_items,
    {
        let mut v: Vec<DroppedItem> = Vec::new();
        let mut i: usize = 0;
        while i < self.dropped_items.len()
            invariant
                i <= self.dropped_items@.len(),
                v@ == self.dropped_items@.take(i as int),
            decreases self.dropped_items@.len() - i,
        {
            v.push(self.dropped_items[i]);
            assert(self.dropped_items@.take(i + 1) =~= self.dropped_items@.take(i as int).push(
                self.dropped_items@[i as int],
            ));
            i = i + 1;
        }
        assert(v@ =~= self.dropped_items@);
        v
    }

    /// How many machines stand in the world.
    pub fn placeable_count(&self) -> (n: usize)
        ensures
            n == self@.placeables.len(),
    {
        self.placeable_objects.len()
    }

    /// How many stacks lie on the ground.
    pub fn dropped_count(&self) -> (n: usize)
        ensures
            n == self@.dropped_items.len(),
    {
        self.dropped_items.len()
    }

    /// The ground stack at `index`, if there is one.
    pub fn get_dropped_item(&self, index: usize) -> (stack: Option<DroppedItem>)
        ensures
            match stack {
                Some(d) => index < self@.dropped_items.len() && d@ == self@.dropped_items[index as int],
                None => index >= self@.dropped_items.len(),
            },
    {
        if index < self.dropped_items.len() {
            Some(self.dropped_items[index])
        } else {
            None
        }
    }

    pub fn in_bounds(&self, x: u32, y: u32) -> (b: bool)
        ensures
            b == self@.in_bounds(x as int, y as int),
    {
        x < self.width && y < self.height
    }

    /// The tile one step from `(x, y)` towards `direction`, if that tile is
    /// on the map.
    pub fn neighbor(&self, x: u32, y: u32, direction: Direction) -> (tile: Option<(u32, u32)>)
        ensures
            tile == self@.toward(x, y, direction),
            match tile {
                Some(t) => (t.0 as int, t.1 as int) == step(x, y, direction) && self@.in_bounds(
                    t.0 as int,
                    t.1 as int,
                ),
                None => !self@.in_bounds(step(x, y, direction).0, step(x, y, direction).1),
            },
    {
        let (nx, ny): (u64, u64) = match direction {
            Direction::North => {
                if y == 0 {
                    return None;
                }
                (x as u64, (y - 1) as u64)
            },
            Direction::South => (x as u64, y as u64 + 1),
            Direction::East => (x as u64 + 1, y as u64),
            Direction::West => {
                if x == 0 {
                    return None;
                }
                ((x - 1) as u64, y as u64)
            },
        };
        if nx < self.width as u64 && ny < self.height as u64 {
            Some((nx as u32, ny as u32))
        } else {
            None
        }
    }

    pub fn get_resource_at(&self, x: u32, y: u32) -> (kind: Option<ResourceType>)
        ensures
            kind == self@.resource_at(x, y),
    {
        let mut i: usize = 0;
        while i < self.resources.len()
            invariant
                i <= self.resources@.len(),
                forall|j: int| 0 <= j < i ==> resource_tiles(self@.resources)[j] != (x, y),
            decreases self.resources@.len() - i,
        {
            if self.resources[i].x == x && self.resources[i].y == y {
                proof {
                    assert(is_first(resource_tiles(self@.resources), (x, y), i as int));
                    lemma_first_index_is(resource_tiles(self@.resources), (x, y), i as int);
                }
                return Some(self.resources[i].resource_type);
            }
            i = i + 1;
        }
        proof {
            lemma_first_index_none(resource_tiles(self@.resources), (x, y));
        }
        None
    }

    /// Index of the oldest machine on the tile.
    pub fn placeable_index_at(&self, x: u32, y: u32) -> (index: Option<usize>)
        ensures
            match index {
                Some(i) => self@.placeable_index(x, y) == Some(i as int) && i
                    < self@.placeables.len(),
                None => self@.placeable_index(x, y) is None,
            },
    {
        let mut i: usize = 0;
        while i < self.placeable_objects.len()
            invariant
                i <= self.placeable_objects@.len(),
                forall|j: int| 0 <= j < i ==> placeable_tiles(self@.placeables)[j] != (x, y),
            decreases self.placeable_objects@.len() - i,
        {
            if self.placeable_objects[i].x == x && self.placeable_objects[i].y == y {
                proof {
                    assert(is_first(placeable_tiles(self@.placeables), (x, y), i as int));
                    lemma_first_index_is(placeable_tiles(self@.placeables), (x, y), i as int);
                }
                return Some(i);
            }
            i = i + 1;
        }
        proof {
            lemma_first_index_none(placeable_tiles(self@.placeables), (x, y));
        }
        None
    }

    pub fn get_placeable_at(&self, x: u32, y: u32) -> (kind: Option<PlaceableType>)
        ensures
            kind == self@.placeable_at(x, y),
    {
        match self.placeable_index_at(x, y) {
            Some(i) => Some(self.placeable_objects[i].placeable_type),
            None => None,
        }
    }

    pub fn get_placeable_object_at(&self, x: u32, y: u32) -> (obj: Option<PlaceableObject>)
        ensures
            obj == self@.placeable_object_at(x, y),
    {
        match self.placeable_index_at(x, y) {
            Some(i) => Some(self.placeable_objects[i]),
            None => None,
        }
    }

    /// Changes the facing of the oldest machine on the tile, if there is one.
    pub fn set_placeable_direction(&mut self, x: u32, y: u32, direction: Direction)
        ensures
            final(self)@ == old(self)@.turned(x, y, direction),
    {
        match self.placeable_index_at(x, y) {
            Some(i) => {
                let obj = self.placeable_objects[i];
                self.placeable_objects[i] = PlaceableObject {
                    x: obj.x,
                    y: obj.y,
                    placeable_type: obj.placeable_type,
                    direction,
                };
            },
            None => {},
        }
    }

    pub fn get_furnace_data(&self, x: u32, y: u32) -> (data: Option<FurnaceData>)
        ensures
            match data {
                Some(d) => self@.furnaces.contains_key((x, y)) && d@ == self@.furnaces[(x, y)],
                None => !self@.furnaces.contains_key((x, y)),
            },
    {
        let k: u64 = key_of(x, y);
        match self.furnace_data.get(&k) {
            Some(d) => Some(*d),
            None => None,
        }
    }

    pub fn get_dropped_item_index_at(&self, x: u32, y: u32) -> (index: Option<usize>)
        ensures
            match index {
                Some(i) => self@.dropped_index_at(x, y) == Some(i as int) && i
                    < self@.dropped_items.len(),
                None => self@.dropped_index_at(x, y) is None,
            },
    {
        let mut i: usize = 0;
        while i < self.dropped_items.len()
            invariant
                i <= self.dropped_items@.len(),
                forall|j: int| 0 <= j < i ==> stack_tiles(self@.dropped_items)[j] != (x, y),
            decreases self.dropped_items@.len() - i,
        {
            if self.dropped_items[i].x == x && self.dropped_items[i].y == y {
                proof {
                    assert(is_first(stack_tiles(self@.dropped_items), (x, y), i as int));
                    lemma_first_index_is(stack_tiles(self@.dropped_items), (x, y), i as int);
                }
                return Some(i);
            }
            i = i + 1;
        }
        proof {
            lemma_first_index_none(stack_tiles(self@.dropped_items), (x, y));
        }
        None
    }

    pub fn set_furnace_data(&mut self, x: u32, y: u32, data: FurnaceData)
        ensures
            final(self)@ == (MapView {
                furnaces: old(self)@.furnaces.insert((x, y), data@),
                ..old(self)@
            }),
    {
        let k: u64 = key_of(x, y);
        self.furnace_data.insert(k, data);
        assert(final(self)@.furnaces =~= old(self)@.furnaces.insert((x, y), data@));
    }

    pub fn get_arm_data(&self, x: u32, y: u32) -> (data: Option<ArmData>)
        ensures
            match data {
                Some(d) => self@.arms.contains_key((x, y)) && d@ == self@.arms[(x, y)],
                None => !self@.arms.contains_key((x, y)),
            },
    {
        let k: u64 = key_of(x, y);
        match self.arm_data.get(&k) {
            Some(d) => Some(*d),
            None => None,
        }
    }

    pub fn set_arm_data(&mut self, x: u32, y: u32, data: ArmData)
        ensures
            final(self)@ == (MapView { arms: old(self)@.arms.insert((x, y), data@), ..old(self)@ }),
    {
        let k: u64 = key_of(x, y);
        self.arm_data.insert(k, data);
        assert(final(self)@.arms =~= old(self)@.arms.insert((x, y), data@));
    }

    pub fn get_chest_data(&self, x: u32, y: u32) -> (data: Option<ChestData>)
        ensures
            match data {
                Some(d) => self@.chests.contains_key((x, y)) && d@ == self@.chests[(x, y)],
                None => !self@.chests.contains_key((x, y)),
            },
    {
        let k: u64 = key_of(x, y);
        match self.chest_data.get(&k) {
            Some(d) => Some(d.clone()),
            None => None,
        }
    }

    pub fn set_chest_data(&mut self, x: u32, y: u32, data: ChestData)
        ensures
            final(self)@ == (MapView {
                chests: old(self)@.chests.insert((x, y), data@),
                ..old(self)@
            }),
    {
        let k: u64 = key_of(x, y);
        let ghost shown = data@;
        self.chest_data.insert(k, data);
        assert(final(self)@.chests =~= old(self)@.chests.insert((x, y), shown));
    }

    pub fn get_drill_data(&self, x: u32, y: u32) -> (data: Option<DrillData>)
        ensures
            match data {
                Some(d) => self@.drills.contains_key((x, y)) && d@ == self@.drills[(x, y)],
                None => !self@.drills.contains_key((x, y)),
            },
    {
        let k: u64 = key_of(x, y);
        match self.drill_data.get(&k) {
            Some(d) => Some(*d),
            None => None,
        }
    }

    pub fn set_drill_data(&mut self, x: u32, y: u32, data: DrillData)
        ensures
            final(self)@ == (MapView {
                drills: old(self)@.drills.insert((x, y), data@),
                ..old(self)@
            }),
    {
        let k: u64 = key_of(x, y);
        self.drill_data.insert(k, data);
        assert(final(self)@.drills =~= old(self)@.drills.insert((x, y), data@));
    }

    /// Whether the deposit on the tile, if there is one, keeps a machine of
    /// `kind` off it.
    pub fn deposit_keeps_off(&self, x: u32, y: u32, kind: PlaceableType) -> (b: bool)
        ensures
            b == self@.deposit_refuses(x, y, kind),
    {
        match self.get_resource_at(x, y) {
            Some(deposit) => match kind {
                PlaceableType::Drill => deposit.drilled_item().is_none(),
                _ => true,
            },
            None => false,
        }
    }

    /// Puts a machine on the tile where one may stand there; changes nothing
    /// where it may not.
    pub fn add_placeable(&mut self, x: u32, y: u32, placeable_type: PlaceableType)
        ensures
            final(self)@ == old(self)@.placed(x, y, placeable_type),
    {
        if self.would_collide_with_water(x, y) {
            return ;
        }
        if self.get_placeable_at(x, y).is_some() {
            return ;
        }
        if self.deposit_keeps_off(x, y, placeable_type) {
            return ;
        }
        self.placeable_objects.push(
            PlaceableObject { x, y, placeable_type, direction: Direction::East },
        );
        let k: u64 = key_of(x, y);
        match placeable_type {
            PlaceableType::Furnace => {
                self.furnace_data.insert(k, FurnaceData::new());
                assert(final(self)@.furnaces =~= old(self)@.furnaces.insert(
                    (x, y),
                    FurnaceView::fresh(),
                ));
            },
            PlaceableType::Arm => {
                self.arm_data.insert(k, ArmData::new());
                assert(final(self)@.arms =~= old(self)@.arms.insert((x, y), ArmView::fresh()));
            },
            PlaceableType::Chest => {
                self.chest_data.insert(k, ChestData::new());
                assert(final(self)@.chests =~= old(self)@.chests.insert((x, y), Seq::empty()));
            },
            PlaceableType::Drill => {
                self.drill_data.insert(k, DrillData::new());
                assert(final(self)@.drills =~= old(self)@.drills.insert((x, y), DrillView::fresh()));
            },
            PlaceableType::Belt => {},
        }
    }

    pub fn would_collide_with_water(&self, x: u32, y: u32) -> (b: bool)
        ensures
            b == self@.in_water(x as int, y as int),
    {
        let mut i: usize = 0;
        while i < self.water_patches.len()
            invariant
                i <= self.water_patches@.len(),
                forall|j: int| 0 <= j < i ==> !(#[trigger] self@.water_patches[j]).covers(x as int, y as int),
            decreases self.water_patches@.len() - i,
        {
            if self.water_patches[i].contains(x, y) {
                assert(self@.water_patches[i as int].covers(x as int, y as int));
                return true;
            }
            i = i + 1;
        }
        false
    }

    pub fn would_collide_with_placeable(&self, x: u32, y: u32) -> (b: bool)
        ensures
            b == self@.blocked(x, y),
    {
        match self.get_placeable_at(x, y) {
            Some(kind) => kind.is_blocking(),
            None => false,
        }
    }

    /// Whether the player cannot enter the tile.
    pub fn blocks_movement(&self, x: u32, y: u32) -> (b: bool)
        ensures
            b == self@.blocks_movement(x, y),
    {
        self.would_collide_with_water(x, y) || self.would_collide_with_placeable(x, y)
    }

    pub fn add_water_patch(&mut self, patch: WaterPatch)
        ensures
            final(self)@ == (MapView {
                water_patches: old(self)@.water_patches.push(patch),
                ..old(self)@
            }),
    {
        self.water_patches.push(patch);
    }

    pub fn add_resource(&mut self, resource: Resource)
        ensures
            final(self)@ == (MapView { resources: old(self)@.resources.push(resource), ..old(self)@ }),
    {
        self.resources.push(resource);
    }

    pub fn add_dropped_item(&mut self, item: DroppedItem)
        ensures
            final(self)@ == old(self)@.with_dropped(item@),
    {
        self.dropped_items.push(item);
        assert(final(self)@.dropped_items =~= old(self)@.dropped_items.push(item@));
    }

    /// Takes the ground stack at `index` away, if there is one.
    pub fn remove_dropped_item(&mut self, index: usize)
        ensures
            final(self)@ == old(self)@.without_dropped(index as int),
    {
        if index < self.dropped_items.len() {
            self.dropped_items.remove(index);
            assert(final(self)@.dropped_items =~= old(self)@.dropped_items.remove(index as int));
        }
    }

    /// Replaces the ground stack at `index`, if there is one.
    pub fn set_dropped_item(&mut self, index: usize, item: DroppedItem)
        ensures
            final(self)@ == old(self)@.with_dropped_at(index as int, item@),
    {
        if index < self.dropped_items.len() {
            self.dropped_items[index] = item;
            assert(final(self)@.dropped_items =~= old(self)@.dropped_items.update(
                index as int,
                item@,
            ));
        }
    }

    pub fn has_belt_item(&self, x: u32, y: u32) -> (b: bool)
        ensures
            b == self@.belt_items.contains_key((x, y)),
    {
        let k: u64 = key_of(x, y);
        self.belt_items.contains_key(&k)
    }

    pub fn set_belt_item(&mut self, x: u32, y: u32, item: DroppedItem)
        ensures
            final(self)@ == (MapView {
                belt_items: old(self)@.belt_items.insert((x, y), item@),
                ..old(self)@
            }),
    {
        let k: u64 = key_of(x, y);
        self.belt_items.insert(k, item);
        assert(final(self)@.belt_items =~= old(self)@.belt_items.insert((x, y), item@));
    }

    pub fn get_belt_item(&self, x: u32, y: u32) -> (item: Option<DroppedItem>)
        ensures
            match item {
                Some(d) => self@.belt_items.contains_key((x, y)) && d@ == self@.belt_items[(x, y)],
                None => !self@.belt_items.contains_key((x, y)),
            },
    {
        let k: u64 = key_of(x, y);
        match self.belt_items.get(&k) {
            Some(d) => Some(*d),
            None => None,
        }
    }

    pub fn remove_belt_item(&mut self, x: u32, y: u32)
        ensures
            final(self)@ == (MapView {
                belt_items: old(self)@.belt_items.remove((x, y)),
                ..old(self)@
            }),
    {
        let k: u64 = key_of(x, y);
        self.belt_items.remove(&k);
        assert(final(self)@.belt_items =~= old(self)@.belt_items.remove((x, y)));
    }

    /// Whether no count in the world exceeds `limit`.
    pub fn is_within(&self, limit: u32) -> (b: bool)
        ensures
            b == self@.within(limit as nat),
    {
        for f in it: self.furnace_data.values()
            invariant
                forall|j: int| 0 <= j < it.index() ==> (#[trigger] it.seq()[j])@.within(limit as nat),
        {
            if !f.is_within(limit) {
                proof {
                    assert(self.furnace_data@.values().contains(*f));
                    let k = choose|k: u64|
                        self.furnace_data@.contains_key(k) && self.furnace_data@[k] == *f;
                    let p = lemma_key_has_tile(k);
                    assert(self@.furnaces.contains_key(p) && !self@.furnaces[p].within(limit as nat));
                }
                return false;
            }
        }
        proof {
            assert forall|p: (u32, u32)| self@.furnaces.contains_key(p) implies (
            #[trigger] self@.furnaces[p]).within(limit as nat) by {
                let v = self.furnace_data@[tile_key(p.0, p.1)];
                assert(self.furnace_data@.values().contains(v));
            }
        }
        for c in it: self.chest_data.values()
            invariant
                forall|j: int|
                    0 <= j < it.index() ==> chest_within((#[trigger] it.seq()[j])@, limit as nat),
                forall|p: (u32, u32)|
                    self@.furnaces.contains_key(p) ==> (#[trigger] self@.furnaces[p]).within(
                        limit as nat,
                    ),
        {
            if !c.is_within(limit) {
                proof {
                    assert(self.chest_data@.values().contains(*c));
                    let k = choose|k: u64|
                        self.chest_data@.contains_key(k) && self.chest_data@[k] == *c;
                    let p = lemma_key_has_tile(k);
                    assert(self@.chests.contains_key(p) && !chest_within(
                        self@.chests[p],
                        limit as nat,
                    ));
                }
                return false;
            }
        }
        proof {
            assert forall|p: (u32, u32)| self@.chests.contains_key(p) implies chest_within(
                #[trigger] self@.chests[p],
                limit as nat,
            ) by {
                let v = self.chest_data@[tile_key(p.0, p.1)];
                assert(self.chest_data@.values().contains(v));
            }
        }
        for d in it: self.drill_data.values()
            invariant
                forall|j: int| 0 <= j < it.index() ==> (#[trigger] it.seq()[j])@.coal <= limit,
                forall|p: (u32, u32)|
                    self@.furnaces.contains_key(p) ==> (#[trigger] self@.furnaces[p]).within(
                        limit as nat,
                    ),
                forall|p: (u32, u32)|
                    self@.chests.contains_key(p) ==> chest_within(
                        #[trigger] self@.chests[p],
                        limit as nat,
                    ),
        {
            if d.coal_count() > limit {
                proof {
                    assert(self.drill_data@.values().contains(*d));
                    let k = choose|k: u64|
                        self.drill_data@.contains_key(k) && self.drill_data@[k] == *d;
                    let p = lemma_key_has_tile(k);
                    assert(self@.drills.contains_key(p) && self@.drills[p].coal > limit);
                }
                return false;
            }
        }
        proof {
            assert forall|p: (u32, u32)| self@.drills.contains_key(p) implies (
            #[trigger] self@.drills[p]).coal <= limit by {
                let v = self.drill_data@[tile_key(p.0, p.1)];
                assert(self.drill_data@.values().contains(v));
            }
        }
        for s in it: self.belt_items.values()
            invariant
                forall|j: int| 0 <= j < it.index() ==> (#[trigger] it.seq()[j])@.quantity <= limit,
                forall|p: (u32, u32)|
                    self@.furnaces.contains_key(p) ==> (#[trigger] self@.furnaces[p]).within(
                        limit as nat,
                    ),
                forall|p: (u32, u32)|
                    self@.chests.contains_key(p) ==> chest_within(
                        #[trigger] self@.chests[p],
                        limit as nat,
                    ),
                forall|p: (u32, u32)|
                    self@.drills.contains_key(p) ==> (#[trigger] self@.drills[p]).coal <= limit,
        {
            if s.quantity > limit {
                proof {
                    assert(self.belt_items@.values().contains(*s));
                    let k = choose|k: u64|
                        self.belt_items@.contains_key(k) && self.belt_items@[k] == *s;
                    let p = lemma_key_has_tile(k);
                    assert(self@.belt_items.contains_key(p) && self@.belt_items[p].quantity > limit);
                }
                return false;
            }
        }
        proof {
            assert forall|p: (u32, u32)| self@.belt_items.contains_key(p) implies (
            #[trigger] self@.belt_items[p]).quantity <= limit by {
                let v = self.belt_items@[tile_key(p.0, p.1)];
                assert(self.belt_items@.values().contains(v));
            }
        }
        let mut i: usize = 0;
        while i < self.dropped_items.len()
            invariant
                i <= self.dropped_items@.len(),
                forall|j: int| 0 <= j < i ==> (#[trigger] self@.dropped_items[j]).quantity <= limit,
                forall|p: (u32, u32)|
                    self@.furnaces.contains_key(p) ==> (#[trigger] self@.furnaces[p]).within(
                        limit as nat,
                    ),
                forall|p: (u32, u32)|
                    self@.chests.contains_key(p) ==> chest_within(
                        #[trigger] self@.chests[p],
                        limit as nat,
                    ),
                forall|p: (u32, u32)|
                    self@.drills.contains_key(p) ==> (#[trigger] self@.drills[p]).coal <= limit,
                forall|p: (u32, u32)|
                    self@.belt_items.contains_key(p) ==> (#[trigger] self@.belt_items[p]).quantity
                        <= limit,
            decreases self.dropped_items@.len() - i,
        {
            if self.dropped_items[i].quantity > limit {
                assert(self@.dropped_items[i as int].quantity > limit);
                return false;
            }
            i = i + 1;
        }
        true
    }

    /// Takes the ground stacks that hold nothing away.
    pub fn purge_empty_stacks(&mut self)
        ensures
            final(self)@ == (MapView {
                dropped_items: nonempty_stacks(old(self)@.dropped_items),
                ..old(self)@
            }),
    {
        let mut kept: Vec<DroppedItem> = Vec::new();
        let mut i: usize = 0;
        while i < self.dropped_items.len()
            invariant
                i <= self.dropped_items@.len(),
                stack_views(kept@) == nonempty_stacks(stack_views(self.dropped_items@).take(i as int)),
            decreases self.dropped_items@.len() - i,
        {
            let stack = self.dropped_items[i];
            let ghost before = stack_views(kept@);
            assert(stack_views(self.dropped_items@).take(i + 1).drop_last() =~= stack_views(
                self.dropped_items@,
            ).take(i as int));
            if stack.quantity != 0 {
                kept.push(stack);
                assert(stack_views(kept@) =~= before.push(stack@));
            }
            i = i + 1;
        }
        assert(stack_views(self.dropped_items@).take(i as int) =~= stack_views(self.dropped_items@));
        self.dropped_items = kept;
    }

    /// The tiles of the machines of `kind`, oldest machine first.
    pub fn tiles_of_kind(&self, kind: PlaceableType) -> (tiles: Vec<(u32, u32)>)
        ensures
            tiles@ == machine_tiles(self@.placeables, kind),
    {
        let mut tiles: Vec<(u32, u32)> = Vec::new();
        let mut i: usize = 0;
        while i < self.placeable_objects.len()
            invariant
                i <= self.placeable_objects@.len(),
                tiles@ == machine_tiles(self.placeable_objects@.take(i as int), kind),
            decreases self.placeable_objects@.len() - i,
        {
            let obj = self.placeable_objects[i];
            assert(self.placeable_objects@.take(i + 1).drop_last() =~= self.placeable_objects@.take(
                i as int,
            ));
            if obj.placeable_type == kind {
                tiles.push((obj.x, obj.y));
            }
            i = i + 1;
        }
        assert(self.placeable_objects@.take(i as int) =~= self.placeable_objects@);
        tiles
    }

    /// Takes away everything that stands on the tile, with its state and
    /// with what rides on a belt there. What the machines held is gone with
    /// them.
    pub fn remove_placeable(&mut self, x: u32, y: u32)
        ensures
            final(self)@ == old(self)@.without_placeable(x, y),
    {
        let mut kept: Vec<PlaceableObject> = Vec::new();
        let mut i: usize = 0;
        while i < self.placeable_objects.len()
            invariant
                i <= self.placeable_objects@.len(),
                kept@ == placeables_off(self.placeable_objects@.take(i as int), x, y),
            decreases self.placeable_objects@.len() - i,
        {
            let obj = self.placeable_objects[i];
            assert(self.placeable_objects@.take(i + 1).drop_last() =~= self.placeable_objects@.take(
                i as int,
            ));
            if !(obj.x == x && obj.y == y) {
                kept.push(obj);
            }
            i = i + 1;
        }
        assert(self.placeable_objects@.take(i as int) =~= self.placeable_objects@);
        self.placeable_objects = kept;
        let k: u64 = key_of(x, y);
        self.furnace_data.remove(&k);
        self.arm_data.remove(&k);
        self.chest_data.remove(&k);
        self.drill_data.remove(&k);
        self.belt_items.remove(&k);
        proof {
            let want = old(self)@.without_placeable(x, y);
            assert(final(self)@.furnaces =~= want.furnaces);
            assert(final(self)@.arms =~= want.arms);
            assert(final(self)@.chests =~= want.chests);
            assert(final(self)@.drills =~= want.drills);
            assert(final(self)@.belt_items =~= want.belt_items);
        }
    }
}

} // verus!
