//! The whole simulation state: the world, the player, the selection, the
//! console log and the tick counter.

use vstd::prelude::*;
use crate::chest::ChestData;
use crate::drill::DrillData;
use crate::furnace::FurnaceData;
use crate::handlers::{handle_mining, mined};
use crate::headroom::{
    lemma_least_bound_decides, lemma_room_suffices, room_with, roomy, EASY_ROOM,
};
use crate::map::lemma_within_grows;
use crate::tick::{run_tick, step_fits, stepped, TickInput};
use crate::inventory::{
    available_items, counts_fit, counts_within, no_items, stocked, Inventory,
};
use crate::map_generation::{generate_map, generated, well_made, MAP_HEIGHT, MAP_WIDTH};
use crate::lookup::{first_index, is_first, lemma_first_index_is, lemma_first_index_none};
use crate::map::{
    step, DroppedItem, GameMap, IronOre, MapView, PlaceableObject, Resource, StackView, WaterPatch,
};
use crate::player::{Player, PlayerView};
use crate::types::{Direction, Item, PlaceableType, ResourceType};

verus! {

/// Most messages the console log keeps.
pub const CONSOLE_CAPACITY: usize = 50;

/// The input signals held down during one tick.
#[derive(Clone, Copy, Debug, Default)]
pub struct InputKeys {
    /// Move north.
    pub w: bool,
    /// Move west.
    pub a: bool,
    /// Move south.
    pub s: bool,
    /// Move east.
    pub d: bool,
    /// Mine by hand.
    pub m: bool,
    /// Craft a furnace.
    pub f: bool,
    /// Craft a belt.
    pub b: bool,
    /// Craft an arm.
    pub p: bool,
    /// Craft a chest.
    pub c: bool,
    /// Craft a drill.
    pub t: bool,
    /// Interact: feed a container, or place the selected item.
    pub space: bool,
    /// Select the previous kind.
    pub bracket_left: bool,
    /// Select the next kind.
    pub bracket_right: bool,
    /// Pick up.
    pub h: bool,
    /// Drop.
    pub j: bool,
    /// Rotate a machine.
    pub r: bool,
    /// Pick up a machine.
    pub delete: bool,
}

impl InputKeys {
    /// No signal held.
    pub fn none() -> (keys: InputKeys)
        ensures
            keys == (InputKeys {
                w: false,
                a: false,
                s: false,
                d: false,
                m: false,
                f: false,
                b: false,
                p: false,
                c: false,
                t: false,
                space: false,
                bracket_left: false,
                bracket_right: false,
                h: false,
                j: false,
                r: false,
                delete: false,
            }),
    {
        InputKeys {
            w: false,
            a: false,
            s: false,
            d: false,
            m: false,
            f: false,
            b: false,
            p: false,
            c: false,
            t: false,
            space: false,
            bracket_left: false,
            bracket_right: false,
            h: false,
            j: false,
            r: false,
            delete: false,
        }
    }
}

/// The texts of the strings of `s`, in the order of `s`.
pub open spec fn texts(s: Seq<String>) -> Seq<Seq<char>> {
    Seq::new(s.len(), |i: int| s[i]@)
}

/// The positions of the iron ore deposits of `s`, in the order of `s`.
pub open spec fn iron_ore_of(s: Seq<Resource>) -> Seq<IronOre>
    decreases s.len(),
{
    if s.len() == 0 {
        Seq::empty()
    } else if s.last().resource_type == ResourceType::IronOre {
        iron_ore_of(s.drop_last()).push(IronOre { x: s.last().x, y: s.last().y })
    } else {
        iron_ore_of(s.drop_last())
    }
}

/// The stacks that ride on the belts among `s`, in the order of `s`. A tile
/// that holds several belts gives its stack once for each.
pub open spec fn belt_stacks(s: Seq<PlaceableObject>, riding: Map<(u32, u32), StackView>) -> Seq<
    StackView,
>
    decreases s.len(),
{
    if s.len() == 0 {
        Seq::empty()
    } else if s.last().placeable_type == PlaceableType::Belt && riding.contains_key(
        (s.last().x, s.last().y),
    ) {
        belt_stacks(s.drop_last(), riding).push(riding[(s.last().x, s.last().y)])
    } else {
        belt_stacks(s.drop_last(), riding)
    }
}

/// What the simulation state is.
pub struct GameStateView {
    pub player: PlayerView,
    pub map: MapView,
    /// The console log, oldest message first.
    pub console_messages: Seq<Seq<char>>,
    /// Time of the last accepted movement, in milliseconds.
    pub last_movement_time: u64,
    pub selected_item: Option<Item>,
    pub current_tick: nat,
    pub cursor_x: Option<u32>,
    pub cursor_y: Option<u32>,
}

impl GameStateView {
    /// Every count in the state can be held in a machine word.
    pub open spec fn fits(self) -> bool {
        &&& counts_fit(self.player.inventory)
        &&& self.map.fits()
        &&& self.current_tick <= u64::MAX
    }

    /// No count of the inventory exceeds `bi`, no count of the world `bw`,
    /// and there are at most `n` machines.
    pub open spec fn bounded(self, bi: nat, bw: nat, n: nat) -> bool {
        &&& counts_within(self.player.inventory, bi)
        &&& self.map.within(bw)
        &&& self.map.placeables.len() <= n
        &&& self.current_tick <= u64::MAX
    }

    /// The selection names a kind that the player holds, or names nothing
    /// while the player holds nothing.
    pub open spec fn selection_valid(self) -> bool {
        match self.selected_item {
            Some(item) => self.player.inventory[item] > 0,
            None => forall|i: Item| self.player.inventory[i] == 0,
        }
    }

    /// The state after the selection was brought in line with the
    /// inventory: a selection that is still held stays, any other gives way
    /// to the first held kind in canonical order, or to none where nothing
    /// is held.
    pub open spec fn validated(self) -> GameStateView {
        let available = available_items(self.player.inventory);
        if available.len() == 0 {
            GameStateView { selected_item: None, ..self }
        } else if self.selected_item matches Some(item) && self.player.inventory[item] > 0 {
            self
        } else {
            GameStateView { selected_item: Some(available[0]), ..self }
        }
    }

    /// The state after `message` went to the console: it is the newest
    /// entry, and the oldest one left if the log was full.
    pub open spec fn logged(self, message: Seq<char>) -> GameStateView {
        let all = self.console_messages.push(message);
        GameStateView {
            console_messages: if all.len() > CONSOLE_CAPACITY {
                all.remove(0)
            } else {
                all
            },
            ..self
        }
    }

    /// The tile that actions aim at: the cursor's where a cursor is given,
    /// else the tile in front of the player.
    pub open spec fn target(self) -> (int, int) {
        match (self.cursor_x, self.cursor_y) {
            (Some(cx), Some(cy)) => (cx as int, cy as int),
            _ => step(self.player.x, self.player.y, self.player.direction),
        }
    }

    /// Whether the tile that actions aim at is on the map.
    pub open spec fn target_in_bounds(self) -> bool {
        self.map.in_bounds(self.target().0, self.target().1)
    }

    /// The tile that actions aim at, where it is on the map.
    pub open spec fn aim(self) -> Option<(u32, u32)> {
        if self.target_in_bounds() {
            Some((self.target().0 as u32, self.target().1 as u32))
        } else {
            None
        }
    }

    /// Place of the selection in the list of available kinds, or -1 where
    /// it is not in it.
    pub open spec fn selected_index(self) -> int {
        match self.selected_item {
            Some(item) => match first_index(available_items(self.player.inventory), item) {
                Some(i) => i,
                None => -1,
            },
            None => -1,
        }
    }

    pub open spec fn with_player(self, player: PlayerView) -> GameStateView {
        GameStateView { player, ..self }
    }

    pub open spec fn with_map(self, map: MapView) -> GameStateView {
        GameStateView { map, ..self }
    }

    pub open spec fn with_inventory(self, inventory: Map<Item, nat>) -> GameStateView {
        GameStateView { player: PlayerView { inventory, ..self.player }, ..self }
    }
}

/// A message that goes to the console becomes its newest entry, and a log
/// of at most fifty entries stays one.
pub proof fn lemma_logged(g: GameStateView, message: Seq<char>)
    requires
        g.console_messages.len() <= CONSOLE_CAPACITY,
    ensures
        g.logged(message).console_messages.len() <= CONSOLE_CAPACITY,
        g.logged(message).console_messages.last() == message,
        g.console_messages.len() < CONSOLE_CAPACITY ==> g.logged(message).console_messages
            == g.console_messages.push(message),
        g.console_messages.len() == CONSOLE_CAPACITY ==> g.logged(message).console_messages
            == g.console_messages.drop_first().push(message),
{
    let all = g.console_messages.push(message);
    if all.len() > CONSOLE_CAPACITY {
        assert(all.remove(0) =~= g.console_messages.drop_first().push(message));
    }
}

/// Bringing the selection in line with the inventory leaves it valid, and
/// leaves a valid selection alone.
pub proof fn lemma_validated(g: GameStateView)
    ensures
        g.validated().selection_valid(),
        g.selection_valid() && g.selected_item is Some ==> g.validated() == g,
{
    crate::inventory::lemma_available_items(g.player.inventory);
    let available = available_items(g.player.inventory);
    if available.len() == 0 {
        assert forall|i: Item| g.player.inventory[i] == 0 by {
            if g.player.inventory[i] > 0 {
                assert(available.contains(i));
            }
        }
    } else {
        assert(available.contains(available[0]));
    }
}

/// The simulation state.
pub struct GameState {
    player: Player,
    map: GameMap,
    console_messages: Vec<String>,
    last_movement_time: u64,
    selected_item: Option<Item>,
    current_tick: u64,
    cursor_x: Option<u32>,
    cursor_y: Option<u32>,
}

impl View for GameState {
    type V = GameStateView;

    closed spec fn view(&self) -> GameStateView {
        GameStateView {
            player: self.player@,
            map: self.map@,
            console_messages: texts(self.console_messages@),
            last_movement_time: self.last_movement_time,
            selected_item: self.selected_item,
            current_tick: self.current_tick as nat,
            cursor_x: self.cursor_x,
            cursor_y: self.cursor_y,
        }
    }
}

impl GameState {
    /// Every count read off a state fits a machine word.
    pub proof fn lemma_view(&self)
        ensures
            self@.fits(),
    {
        self.map.lemma_view();
        self.player.lemma_view();
    }

    /// A state around the given world: the player stands at its centre,
    /// faces south and holds nothing; no tick has passed.
    pub fn from_map(map: GameMap) -> (state: GameState)
        ensures
            state@ == (GameStateView {
                player: PlayerView {
                    x: map@.width / 2,
                    y: map@.height / 2,
                    direction: Direction::South,
                    inventory: no_items(),
                },
                map: map@,
                console_messages: Seq::empty(),
                last_movement_time: 0,
                selected_item: None,
                current_tick: 0,
                cursor_x: None,
                cursor_y: None,
            }),
    {
        let player_x: u32 = map.width() / 2;
        let player_y: u32 = map.height() / 2;
        let state = GameState {
            player: Player::new(player_x, player_y),
            map,
            console_messages: Vec::new(),
            last_movement_time: 0,
            selected_item: None,
            current_tick: 0,
            cursor_x: None,
            cursor_y: None,
        };
        assert(state@.console_messages =~= Seq::empty());
        state
    }

    /// The starting stock of every kind.
    pub const STARTING_STOCK: u32 = 50;

    /// The state at the start of a game: the world generated from `seed`,
    /// the player at its centre with fifty of every kind, iron ore
    /// selected.
    pub fn new(seed: u64) -> (state: GameState)
        ensures
            state@ == (GameStateView {
                player: PlayerView {
                    x: MAP_WIDTH / 2,
                    y: MAP_HEIGHT / 2,
                    direction: Direction::South,
                    inventory: stocked(50),
                },
                map: generated(seed),
                console_messages: Seq::empty(),
                last_movement_time: 0,
                selected_item: Some(Item::IronOre),
                current_tick: 0,
                cursor_x: None,
                cursor_y: None,
            }),
            well_made(state@.map),
            roomy(state@),
            state@.map.well_kept(),
            state@.selection_valid(),
    {
        let mut state = GameState::from_map(generate_map(seed));
        let stock = state.player_mut().inventory_mut();
        *stock = Inventory::with_each(50);
        proof {
            crate::inventory::lemma_iron_ore_first(stocked(50));
        }
        state.validate_selection();
        assert(room_with(state@, 0));
        state
    }

    pub fn add_console_message(&mut self, message: String)
        ensures
            final(self)@ == old(self)@.logged(message@),
    {
        let ghost text = message@;
        self.console_messages.push(message);
        assert(texts(self.console_messages@) =~= old(self)@.console_messages.push(text));
        if self.console_messages.len() > CONSOLE_CAPACITY {
            self.console_messages.remove(0);
            assert(texts(self.console_messages@) =~= old(self)@.console_messages.push(text).remove(
                0,
            ));
        }
    }

    pub fn get_console_messages(&self) -> (messages: Vec<String>)
        ensures
            texts(messages@) == self@.console_messages,
    {
        let mut messages: Vec<String> = Vec::new();
        let mut i: usize = 0;
        while i < self.console_messages.len()
            invariant
                i <= self.console_messages@.len(),
                texts(messages@) == texts(self.console_messages@).take(i as int),
            decreases self.console_messages@.len() - i,
        {
            let ghost before = texts(messages@);
            let message = self.console_messages[i].clone();
            assert(message@ == self.console_messages@[i as int]@);
            messages.push(message);
            assert(texts(messages@) =~= before.push(self.console_messages@[i as int]@));
            assert(texts(self.console_messages@).take(i + 1) =~= texts(
                self.console_messages@,
            ).take(i as int).push(self.console_messages@[i as int]@));
            i = i + 1;
        }
        assert(texts(messages@) =~= texts(self.console_messages@));
        messages
    }

    pub fn current_tick(&self) -> (tick: u64)
        ensures
            tick == self@.current_tick,
    {
        self.current_tick
    }

    /// Counts one more tick.
    pub fn advance_tick(&mut self)
        requires
            old(self)@.current_tick < u64::MAX,
        ensures
            final(self)@ == (GameStateView {
                current_tick: old(self)@.current_tick + 1,
                ..old(self)@
            }),
    {
        self.current_tick = self.current_tick + 1;
    }

    pub fn player_x(&self) -> (x: u32)
        ensures
            x == self@.player.x,
    {
        self.player.x()
    }

    pub fn player_y(&self) -> (y: u32)
        ensures
            y == self@.player.y,
    {
        self.player.y()
    }

    pub fn map_width(&self) -> (w: u32)
        ensures
            w == self@.map.width,
    {
        self.map.width()
    }

    pub fn map_height(&self) -> (h: u32)
        ensures
            h == self@.map.height,
    {
        self.map.height()
    }

    pub fn water_patches(&self) -> (v: Vec<WaterPatch>)
        ensures
            v@ == self@.map.water_patches,
    {
        self.map.water_patches()
    }

    /// The positions of the iron ore deposits, in the order of the deposits.
    pub fn iron_ore(&self) -> (v: Vec<IronOre>)
        ensures
            v@ == iron_ore_of(self@.map.resources),
    {
        let resources = self.map.resources();
        let mut v: Vec<IronOre> = Vec::new();
        let mut i: usize = 0;
        while i < resources.len()
            invariant
                i <= resources@.len(),
                v@ == iron_ore_of(resources@.take(i as int)),
            decreases resources@.len() - i,
        {
            assert(resources@.take(i + 1).drop_last() =~= resources@.take(i as int));
            match resources[i].resource_type {
                ResourceType::IronOre => {
                    v.push(IronOre::new(resources[i].x, resources[i].y));
                },
                _ => {},
            }
            i = i + 1;
        }
        assert(resources@.take(i as int) =~= resources@);
        v
    }

    pub fn resources(&self) -> (v: Vec<Resource>)
        ensures
            v@ == self@.map.resources,
    {
        self.map.resources()
    }

    pub fn placeable_objects(&self) -> (v: Vec<PlaceableObject>)
        ensures
            v@ == self@.map.placeables,
    {
        self.map.placeable_objects()
    }

    pub fn dropped_items(&self) -> (v: Vec<DroppedItem>)
        ensures
            crate::map::stack_views(v@) == self@.map.dropped_items,
    {
        self.map.dropped_items()
    }

    /// The stacks that ride on belts, in the order of the belts.
    pub fn belt_items(&self) -> (v: Vec<DroppedItem>)
        ensures
            crate::map::stack_views(v@) == belt_stacks(self@.map.placeables, self@.map.belt_items),
    {
        let objects = self.map.placeable_objects();
        let mut v: Vec<DroppedItem> = Vec::new();
        let mut i: usize = 0;
        while i < objects.len()
            invariant
                i <= objects@.len(),
                crate::map::stack_views(v@) == belt_stacks(
                    objects@.take(i as int),
                    self@.map.belt_items,
                ),
            decreases objects@.len() - i,
        {
            assert(objects@.take(i + 1).drop_last() =~= objects@.take(i as int));
            let ghost before = crate::map::stack_views(v@);
            match objects[i].placeable_type {
                PlaceableType::Belt => {
                    match self.map.get_belt_item(objects[i].x, objects[i].y) {
                        Some(item) => {
                            v.push(item);
                            assert(crate::map::stack_views(v@) =~= before.push(item@));
                        },
                        None => {},
                    }
                },
                _ => {},
            }
            i = i + 1;
        }
        assert(objects@.take(i as int) =~= objects@);
        v
    }

    pub fn iron_ore_count(&self) -> (n: u32)
        ensures
            n == self@.player.inventory[Item::IronOre],
    {
        self.player.get_iron_ore_count()
    }

    pub fn copper_count(&self) -> (n: u32)
        ensures
            n == self@.player.inventory[Item::Copper],
    {
        self.player.inventory().count_copper()
    }

    pub fn stone_count(&self) -> (n: u32)
        ensures
            n == self@.player.inventory[Item::Stone],
    {
        self.player.inventory().count_stone()
    }

    pub fn coal_count(&self) -> (n: u32)
        ensures
            n == self@.player.inventory[Item::Coal],
    {
        self.player.inventory().count_coal()
    }

    pub fn furnace_count(&self) -> (n: u32)
        ensures
            n == self@.player.inventory[Item::Furnace],
    {
        self.player.inventory().count_furnace()
    }

    pub fn iron_plate_count(&self) -> (n: u32)
        ensures
            n == self@.player.inventory[Item::IronPlate],
    {
        self.player.inventory().count_iron_plate()
    }

    pub fn belt_count(&self) -> (n: u32)
        ensures
            n == self@.player.inventory[Item::Belt],
    {
        self.player.inventory().count_belt()
    }

    pub fn copper_plate_count(&self) -> (n: u32)
        ensures
            n == self@.player.inventory[Item::CopperPlate],
    {
        self.player.inventory().count_copper_plate()
    }

    pub fn arm_count(&self) -> (n: u32)
        ensures
            n == self@.player.inventory[Item::Arm],
    {
        self.player.inventory().count_arm()
    }

    pub fn chest_count(&self) -> (n: u32)
        ensures
            n == self@.player.inventory[Item::Chest],
    {
        self.player.inventory().count_chest()
    }

    pub fn drill_count(&self) -> (n: u32)
        ensures
            n == self@.player.inventory[Item::Drill],
    {
        self.player.inventory().count_drill()
    }

    /// How many of `item` the player holds.
    pub fn item_count(&self, item: Item) -> (n: u32)
        ensures
            n == self@.player.inventory[item],
    {
        self.player.inventory().count(item)
    }

    pub fn get_furnace_data(&self, x: u32, y: u32) -> (data: Option<FurnaceData>)
        ensures
            match data {
                Some(d) => self@.map.furnaces.contains_key((x, y)) && d@ == self@.map.furnaces[(
                    x,
                    y,
                )],
                None => !self@.map.furnaces.contains_key((x, y)),
            },
    {
        self.map.get_furnace_data(x, y)
    }

    pub fn get_chest_data(&self, x: u32, y: u32) -> (data: Option<ChestData>)
        ensures
            match data {
                Some(d) => self@.map.chests.contains_key((x, y)) && d@ == self@.map.chests[(x, y)],
                None => !self@.map.chests.contains_key((x, y)),
            },
    {
        self.map.get_chest_data(x, y)
    }

    pub fn get_drill_data(&self, x: u32, y: u32) -> (data: Option<DrillData>)
        ensures
            match data {
                Some(d) => self@.map.drills.contains_key((x, y)) && d@ == self@.map.drills[(x, y)],
                None => !self@.map.drills.contains_key((x, y)),
            },
    {
        self.map.get_drill_data(x, y)
    }

    pub fn get_selected_item(&self) -> (item: Option<Item>)
        ensures
            item == self@.selected_item,
    {
        self.selected_item
    }

    /// Brings the selection in line with the inventory. To be called after
    /// every change of the inventory.
    pub fn validate_selection(&mut self)
        ensures
            final(self)@ == old(self)@.validated(),
            final(self)@.selection_valid(),
    {
        proof {
            lemma_validated(self@);
        }
        let available = self.player.inventory().get_available_items();
        if available.len() == 0 {
            self.selected_item = None;
            return ;
        }
        match self.selected_item {
            Some(item) => {
                if self.player.inventory().count(item) == 0 {
                    self.selected_item = Some(available[0]);
                }
            },
            None => {
                self.selected_item = Some(available[0]);
            },
        }
    }

    pub fn get_selected_item_index_in_available(&self) -> (index: i32)
        ensures
            index == self@.selected_index(),
    {
        match self.selected_item {
            Some(item) => {
                let available = self.player.inventory().get_available_items();
                let mut i: usize = 0;
                while i < available.len()
                    invariant
                        i <= available@.len(),
                        available@.len() <= 11,
                        available@ == available_items(self@.player.inventory),
                        self@.selected_item == Some(item),
                        forall|j: int| 0 <= j < i ==> available@[j] != item,
                    decreases available@.len() - i,
                {
                    if available[i] == item {
                        proof {
                            assert(is_first(available@, item, i as int));
                            lemma_first_index_is(available@, item, i as int);
                        }
                        return i as i32;
                    }
                    i = i + 1;
                }
                proof {
                    lemma_first_index_none(available@, item);
                }
                -1
            },
            None => -1,
        }
    }

    pub fn get_available_items(&self) -> (items: Vec<Item>)
        ensures
            items@ == available_items(self@.player.inventory),
    {
        self.player.inventory().get_available_items()
    }

    /// Advances the simulation by one tick. `now` is the time in
    /// milliseconds.
    pub fn next_step(
        &mut self,
        keys: &InputKeys,
        now: u64,
        cursor_x: Option<u32>,
        cursor_y: Option<u32>,
    )
        requires
            step_fits(old(self)@, (TickInput { keys: *keys, now, cursor_x, cursor_y })),
        ensures
            final(self)@ == stepped(
                old(self)@,
                (TickInput { keys: *keys, now, cursor_x, cursor_y }),
            ),
            final(self)@.current_tick == old(self)@.current_tick + 1,
            final(self)@.cursor_x == cursor_x,
            final(self)@.cursor_y == cursor_y,
            old(self)@.selection_valid() ==> final(self)@.selection_valid(),
            final(self)@.player.inventory != old(self)@.player.inventory ==> final(self)@.selection_valid(),
            old(self)@.map.one_per_tile() ==> final(self)@.map.one_per_tile(),
            old(self)@.map.equipped() ==> final(self)@.map.equipped(),
    {
        run_tick(self, keys, now, cursor_x, cursor_y);
    }

    /// Whether there is room for a tick: see `roomy`. The least bound of
    /// the world's counts is looked for, and the inventory is held against
    /// what that bound leaves.
    pub fn has_room(&self) -> (b: bool)
        ensures
            b == roomy(self@),
    {
        let machines: usize = self.map.placeable_count();
        if self.current_tick == u64::MAX || machines > 1_431_655_763 {
            assert(forall|w: nat| !room_with(self@, w));
            return false;
        }
        let over_machines: u32 = u32::MAX - 5 - 3 * (machines as u32);
        let cap: u32 = if over_machines < 2_147_483_642 {
            over_machines
        } else {
            2_147_483_642
        };
        if cap >= EASY_ROOM && self.map.is_within(EASY_ROOM) && self.player.inventory().is_within(
            u32::MAX - 11 - 2 * EASY_ROOM,
        ) {
            assert(room_with(self@, EASY_ROOM as nat));
            return true;
        }
        if !self.map.is_within(cap) {
            assert forall|w: nat| !room_with(self@, w) by {
                if room_with(self@, w) {
                    lemma_within_grows(self@.map, w, cap as nat);
                }
            }
            return false;
        }
        let mut low: u32 = 0;
        let mut high: u32 = cap;
        while low < high
            invariant
                low <= high <= cap,
                self@.map.within(high as nat),
                low > 0 ==> !self@.map.within((low - 1) as nat),
            decreases high - low,
        {
            let mid: u32 = low + (high - low) / 2;
            if self.map.is_within(mid) {
                high = mid;
            } else {
                low = mid + 1;
            }
        }
        let b = self.player.inventory().is_within(u32::MAX - 11 - 2 * low);
        proof {
            if b {
                assert(room_with(self@, low as nat));
            } else {
                assert forall|w: nat| !room_with(self@, w) by {
                    if room_with(self@, w) {
                        if w < low {
                            lemma_within_grows(self@.map, w, (low - 1) as nat);
                        }
                        lemma_least_bound_decides(self@, low as nat, w);
                    }
                }
            }
        }
        b
    }

    /// Advances the simulation by one tick if there is room for it, and
    /// tells whether it did. Without room nothing changes.
    pub fn try_next_step(
        &mut self,
        keys: &InputKeys,
        now: u64,
        cursor_x: Option<u32>,
        cursor_y: Option<u32>,
    ) -> (ran: bool)
        ensures
            ran == roomy(old(self)@),
            ran ==> final(self)@ == stepped(
                old(self)@,
                (TickInput { keys: *keys, now, cursor_x, cursor_y }),
            ),
            ran ==> final(self)@.current_tick == old(self)@.current_tick + 1 && final(self)@.cursor_x == cursor_x && final(self)@.cursor_y == cursor_y,
            !ran ==> final(self)@ == old(self)@,
            old(self)@.selection_valid() ==> final(self)@.selection_valid(),
            old(self)@.map.one_per_tile() ==> final(self)@.map.one_per_tile(),
            old(self)@.map.equipped() ==> final(self)@.map.equipped(),
    {
        if self.has_room() {
            proof {
                lemma_room_suffices(self@, TickInput { keys: *keys, now, cursor_x, cursor_y });
            }
            self.next_step(keys, now, cursor_x, cursor_y);
            true
        } else {
            false
        }
    }

    /// Mines one item from a deposit next to the player.
    pub fn mine(&mut self)
        requires
            mined(old(self)@).fits(),
        ensures
            final(self)@ == mined(old(self)@),
    {
        handle_mining(self);
    }

    pub fn player_direction(&self) -> (d: Direction)
        ensures
            d == self@.player.direction,
    {
        self.player.direction()
    }

    pub fn player_direction_value(&self) -> (v: u32)
        ensures
            v == self@.player.direction.spec_value(),
    {
        self.player.direction_value()
    }

    pub fn player(&self) -> (p: &Player)
        ensures
            p@ == self@.player,
    {
        &self.player
    }

    pub fn player_mut(&mut self) -> (p: &mut Player)
        ensures
            p@ == old(self)@.player,
            final(self)@ == old(self)@.with_player(final(p)@),
    {
        &mut self.player
    }

    pub fn map(&self) -> (m: &GameMap)
        ensures
            m@ == self@.map,
    {
        &self.map
    }

    pub fn map_mut(&mut self) -> (m: &mut GameMap)
        ensures
            m@ == old(self)@.map,
            final(self)@ == old(self)@.with_map(final(m)@),
    {
        &mut self.map
    }

    pub fn last_movement_time(&self) -> (t: u64)
        ensures
            t == self@.last_movement_time,
    {
        self.last_movement_time
    }

    pub fn set_last_movement_time(&mut self, time: u64)
        ensures
            final(self)@ == (GameStateView { last_movement_time: time, ..old(self)@ }),
    {
        self.last_movement_time = time;
    }

    pub fn set_player_position(&mut self, x: u32, y: u32)
        ensures
            final(self)@ == old(self)@.with_player(PlayerView { x, y, ..old(self)@.player }),
    {
        self.player.set_position(x, y);
    }

    pub fn set_player_direction(&mut self, direction: Direction)
        ensures
            final(self)@ == old(self)@.with_player(PlayerView { direction, ..old(self)@.player }),
    {
        self.player.set_direction(direction);
    }

    pub fn selected_item(&self) -> (item: Option<Item>)
        ensures
            item == self@.selected_item,
    {
        self.selected_item
    }

    pub fn set_selected_item(&mut self, item: Option<Item>)
        ensures
            final(self)@ == (GameStateView { selected_item: item, ..old(self)@ }),
    {
        self.selected_item = item;
    }

    pub fn cursor_x(&self) -> (x: Option<u32>)
        ensures
            x == self@.cursor_x,
    {
        self.cursor_x
    }

    pub fn cursor_y(&self) -> (y: Option<u32>)
        ensures
            y == self@.cursor_y,
    {
        self.cursor_y
    }

    /// Sets the cursor's tile, or takes the cursor away.
    pub fn set_cursor(&mut self, cursor_x: Option<u32>, cursor_y: Option<u32>)
        ensures
            final(self)@ == (GameStateView { cursor_x, cursor_y, ..old(self)@ }),
    {
        self.cursor_x = cursor_x;
        self.cursor_y = cursor_y;
    }

    /// The tile that actions aim at, if it is on the map.
    pub fn target_tile(&self) -> (tile: Option<(u32, u32)>)
        ensures
            tile == self@.aim(),
    {
        match (self.cursor_x, self.cursor_y) {
            (Some(cx), Some(cy)) => {
                if self.map.in_bounds(cx, cy) {
                    Some((cx, cy))
                } else {
                    None
                }
            },
            _ => self.map.neighbor(self.player.x(), self.player.y(), self.player.direction()),
        }
    }
}

} // verus!
