//! Deterministic simulation core of a tile-grid factory game: a world of
//! water, resource deposits and placed machines that is advanced one tick at
//! a time.

pub mod arm;
pub mod bounds;
pub mod chest;
pub mod conveyor;
pub mod crafting;
pub mod drill;
pub mod drilling;
pub mod furnace;
pub mod game_state;
pub mod handlers;
pub mod headroom;
pub mod inventory;
pub mod laws;
pub mod lookup;
pub mod map;
pub mod map_generation;
pub mod messages;
pub mod player;
pub mod text;
pub mod tick;
pub mod transfer;
pub mod types;

pub use arm::ArmData;
pub use chest::ChestData;
pub use drill::DrillData;
pub use furnace::FurnaceData;
pub use game_state::{GameState, InputKeys};
pub use inventory::Inventory;
pub use map::{DroppedItem, GameMap, IronOre, PlaceableObject, Resource, WaterPatch};
pub use player::Player;
pub use types::{Direction, Item, PlaceableType, ResourceType};

use vstd::prelude::*;

verus! {

/// One message of the console.
pub struct ConsoleMessage {
    text: String,
}

impl ConsoleMessage {
    /// The message's text as a sequence of characters.
    pub closed spec fn view(&self) -> Seq<char> {
        self.text@
    }

    pub fn new(text: String) -> (message: ConsoleMessage)
        ensures
            message@ == text@,
    {
        ConsoleMessage { text }
    }

    pub fn text(&self) -> (text: String)
        ensures
            text@ == self@,
    {
        self.text.clone()
    }
}

} // verus!
