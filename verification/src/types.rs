//! The closed sets of kinds the simulation works with: items, facings,
//! machines and resource deposits.

use vstd::prelude::*;

verus! {

/// A kind of item. Items carry no identity: two items are the same exactly
/// when their kinds are.
#[derive(Clone, Copy, Debug, PartialEq, Eq, Structural)]
pub enum Item {
    IronOre,
    Copper,
    Stone,
    Coal,
    Furnace,
    IronPlate,
    Belt,
    CopperPlate,
    Arm,
    Chest,
    Drill,
}

/// A facing on the grid. North is towards smaller `y`, West towards smaller `x`.
#[derive(Clone, Copy, Debug, PartialEq, Eq, Structural)]
pub enum Direction {
    North,
    South,
    East,
    West,
}

/// A kind of machine that can stand on a tile.
#[derive(Clone, Copy, Debug, PartialEq, Eq, Structural)]
pub enum PlaceableType {
    Furnace,
    Belt,
    Arm,
    Chest,
    Drill,
}

/// A kind of resource deposit.
#[derive(Clone, Copy, Debug, PartialEq, Eq, Structural)]
pub enum ResourceType {
    IronOre,
    Copper,
    Stone,
    Coal,
}

/// Number of item kinds.
pub const ITEM_KINDS: u8 = 11;

impl Direction {
    /// The number a facing is known by outside the simulation.
    pub open spec fn spec_value(self) -> u32 {
        match self {
            Direction::North => 0,
            Direction::South => 1,
            Direction::East => 2,
            Direction::West => 3,
        }
    }

    /// The facing that points the other way.
    pub open spec fn opposite(self) -> Direction {
        match self {
            Direction::North => Direction::South,
            Direction::South => Direction::North,
            Direction::East => Direction::West,
            Direction::West => Direction::East,
        }
    }

    /// The facing a quarter turn clockwise from this one.
    pub open spec fn clockwise(self) -> Direction {
        match self {
            Direction::North => Direction::East,
            Direction::East => Direction::South,
            Direction::South => Direction::West,
            Direction::West => Direction::North,
        }
    }

    /// The facing's name as shown in messages.
    pub open spec fn name_text(self) -> Seq<char> {
        match self {
            Direction::North => "North"@,
            Direction::South => "South"@,
            Direction::East => "East"@,
            Direction::West => "West"@,
        }
    }

    pub fn value(&self) -> (v: u32)
        ensures
            v == self.spec_value(),
    {
        match self {
            Direction::North => 0,
            Direction::South => 1,
            Direction::East => 2,
            Direction::West => 3,
        }
    }

    pub fn reversed(&self) -> (d: Direction)
        ensures
            d == self.opposite(),
    {
        match self {
            Direction::North => Direction::South,
            Direction::South => Direction::North,
            Direction::East => Direction::West,
            Direction::West => Direction::East,
        }
    }

    pub fn turned_clockwise(&self) -> (d: Direction)
        ensures
            d == self.clockwise(),
    {
        match self {
            Direction::North => Direction::East,
            Direction::East => Direction::South,
            Direction::South => Direction::West,
            Direction::West => Direction::North,
        }
    }

    pub fn name(&self) -> (s: &'static str)
        ensures
            s@ == self.name_text(),
    {
        match self {
            Direction::North => "North",
            Direction::South => "South",
            Direction::East => "East",
            Direction::West => "West",
        }
    }
}

impl PlaceableType {
    /// The number a machine kind is known by outside the simulation.
    pub open spec fn spec_value(self) -> u32 {
        match self {
            PlaceableType::Furnace => 0,
            PlaceableType::Belt => 1,
            PlaceableType::Arm => 2,
            PlaceableType::Chest => 3,
            PlaceableType::Drill => 4,
        }
    }

    /// The item that a machine of this kind is while it is carried.
    pub open spec fn item(self) -> Item {
        match self {
            PlaceableType::Furnace => Item::Furnace,
            PlaceableType::Belt => Item::Belt,
            PlaceableType::Arm => Item::Arm,
            PlaceableType::Chest => Item::Chest,
            PlaceableType::Drill => Item::Drill,
        }
    }

    /// The machine kind's name in lower case, as shown in messages.
    pub open spec fn name_text(self) -> Seq<char> {
        match self {
            PlaceableType::Furnace => "furnace"@,
            PlaceableType::Belt => "belt"@,
            PlaceableType::Arm => "arm"@,
            PlaceableType::Chest => "chest"@,
            PlaceableType::Drill => "drill"@,
        }
    }

    /// Whether a machine of this kind stops the player from entering its tile.
    pub open spec fn blocks_movement(self) -> bool {
        self == PlaceableType::Furnace || self == PlaceableType::Chest
    }

    pub fn value(&self) -> (v: u32)
        ensures
            v == self.spec_value(),
    {
        match self {
            PlaceableType::Furnace => 0,
            PlaceableType::Belt => 1,
            PlaceableType::Arm => 2,
            PlaceableType::Chest => 3,
            PlaceableType::Drill => 4,
        }
    }

    pub fn as_item(&self) -> (i: Item)
        ensures
            i == self.item(),
    {
        match self {
            PlaceableType::Furnace => Item::Furnace,
            PlaceableType::Belt => Item::Belt,
            PlaceableType::Arm => Item::Arm,
            PlaceableType::Chest => Item::Chest,
            PlaceableType::Drill => Item::Drill,
        }
    }

    pub fn name(&self) -> (s: &'static str)
        ensures
            s@ == self.name_text(),
    {
        match self {
            PlaceableType::Furnace => "furnace",
            PlaceableType::Belt => "belt",
            PlaceableType::Arm => "arm",
            PlaceableType::Chest => "chest",
            PlaceableType::Drill => "drill",
        }
    }

    pub fn is_blocking(&self) -> (b: bool)
        ensures
            b == self.blocks_movement(),
    {
        match self {
            PlaceableType::Furnace => true,
            PlaceableType::Chest => true,
            _ => false,
        }
    }
}

impl ResourceType {
    /// The number a deposit kind is known by outside the simulation.
    pub open spec fn spec_value(self) -> u32 {
        match self {
            ResourceType::IronOre => 0,
            ResourceType::Copper => 1,
            ResourceType::Stone => 2,
            ResourceType::Coal => 3,
        }
    }

    /// The item that mining a deposit of this kind by hand yields.
    pub open spec fn item(self) -> Item {
        match self {
            ResourceType::IronOre => Item::IronOre,
            ResourceType::Copper => Item::Copper,
            ResourceType::Stone => Item::Stone,
            ResourceType::Coal => Item::Coal,
        }
    }

    /// The item that a drill extracts from a deposit of this kind; stone
    /// cannot be drilled.
    pub open spec fn drilled(self) -> Option<Item> {
        match self {
            ResourceType::IronOre => Some(Item::IronOre),
            ResourceType::Copper => Some(Item::Copper),
            ResourceType::Stone => None,
            ResourceType::Coal => Some(Item::Coal),
        }
    }

    pub fn value(&self) -> (v: u32)
        ensures
            v == self.spec_value(),
    {
        match self {
            ResourceType::IronOre => 0,
            ResourceType::Copper => 1,
            ResourceType::Stone => 2,
            ResourceType::Coal => 3,
        }
    }

    pub fn as_item(&self) -> (i: Item)
        ensures
            i == self.item(),
    {
        match self {
            ResourceType::IronOre => Item::IronOre,
            ResourceType::Copper => Item::Copper,
            ResourceType::Stone => Item::Stone,
            ResourceType::Coal => Item::Coal,
        }
    }

    pub fn drilled_item(&self) -> (i: Option<Item>)
        ensures
            i == self.drilled(),
    {
        match self {
            ResourceType::IronOre => Some(Item::IronOre),
            ResourceType::Copper => Some(Item::Copper),
            ResourceType::Stone => None,
            ResourceType::Coal => Some(Item::Coal),
        }
    }
}

impl Item {
    /// Place of the kind in the canonical order, which fixes how the
    /// inventory is listed and cycled through.
    pub open spec fn rank(self) -> int {
        match self {
            Item::IronOre => 0,
            Item::Copper => 1,
            Item::Stone => 2,
            Item::Coal => 3,
            Item::Furnace => 4,
            Item::IronPlate => 5,
            Item::Belt => 6,
            Item::CopperPlate => 7,
            Item::Arm => 8,
            Item::Chest => 9,
            Item::Drill => 10,
        }
    }

    /// The kind that holds place `r` of the canonical order.
    pub open spec fn of_rank(r: int) -> Item {
        if r <= 0 {
            Item::IronOre
        } else if r == 1 {
            Item::Copper
        } else if r == 2 {
            Item::Stone
        } else if r == 3 {
            Item::Coal
        } else if r == 4 {
            Item::Furnace
        } else if r == 5 {
            Item::IronPlate
        } else if r == 6 {
            Item::Belt
        } else if r == 7 {
            Item::CopperPlate
        } else if r == 8 {
            Item::Arm
        } else if r == 9 {
            Item::Chest
        } else {
            Item::Drill
        }
    }

    /// The kind's name as shown in messages.
    pub open spec fn name_text(self) -> Seq<char> {
        match self {
            Item::IronOre => "Iron Ore"@,
            Item::Copper => "Copper"@,
            Item::Stone => "Stone"@,
            Item::Coal => "Coal"@,
            Item::Furnace => "Furnace"@,
            Item::IronPlate => "Iron Plate"@,
            Item::Belt => "Belt"@,
            Item::CopperPlate => "Copper Plate"@,
            Item::Arm => "Arm"@,
            Item::Chest => "Chest"@,
            Item::Drill => "Drill"@,
        }
    }

    /// The machine that placing this item puts on the map, if it is one.
    pub open spec fn placeable(self) -> Option<PlaceableType> {
        match self {
            Item::Furnace => Some(PlaceableType::Furnace),
            Item::Belt => Some(PlaceableType::Belt),
            Item::Arm => Some(PlaceableType::Arm),
            Item::Chest => Some(PlaceableType::Chest),
            Item::Drill => Some(PlaceableType::Drill),
            _ => None,
        }
    }

    /// Whether a furnace takes this kind as fuel or raw material.
    pub open spec fn feeds_furnace(self) -> bool {
        self == Item::Coal || self == Item::IronOre || self == Item::Copper
    }

    pub fn name(&self) -> (s: &'static str)
        ensures
            s@ == self.name_text(),
    {
        match self {
            Item::IronOre => "Iron Ore",
            Item::Copper => "Copper",
            Item::Stone => "Stone",
            Item::Coal => "Coal",
            Item::Furnace => "Furnace",
            Item::IronPlate => "Iron Plate",
            Item::Belt => "Belt",
            Item::CopperPlate => "Copper Plate",
            Item::Arm => "Arm",
            Item::Chest => "Chest",
            Item::Drill => "Drill",
        }
    }

    pub fn order(&self) -> (r: u8)
        ensures
            r == self.rank(),
            r < ITEM_KINDS,
    {
        match self {
            Item::IronOre => 0,
            Item::Copper => 1,
            Item::Stone => 2,
            Item::Coal => 3,
            Item::Furnace => 4,
            Item::IronPlate => 5,
            Item::Belt => 6,
            Item::CopperPlate => 7,
            Item::Arm => 8,
            Item::Chest => 9,
            Item::Drill => 10,
        }
    }

    pub fn from_order(r: u8) -> (item: Item)
        ensures
            item == Item::of_rank(r as int),
    {
        if r == 0 {
            Item::IronOre
        } else if r == 1 {
            Item::Copper
        } else if r == 2 {
            Item::Stone
        } else if r == 3 {
            Item::Coal
        } else if r == 4 {
            Item::Furnace
        } else if r == 5 {
            Item::IronPlate
        } else if r == 6 {
            Item::Belt
        } else if r == 7 {
            Item::CopperPlate
        } else if r == 8 {
            Item::Arm
        } else if r == 9 {
            Item::Chest
        } else {
            Item::Drill
        }
    }

    pub fn as_placeable(&self) -> (p: Option<PlaceableType>)
        ensures
            p == self.placeable(),
    {
        match self {
            Item::Furnace => Some(PlaceableType::Furnace),
            Item::Belt => Some(PlaceableType::Belt),
            Item::Arm => Some(PlaceableType::Arm),
            Item::Chest => Some(PlaceableType::Chest),
            Item::Drill => Some(PlaceableType::Drill),
            _ => None,
        }
    }

    pub fn is_furnace_input(&self) -> (b: bool)
        ensures
            b == self.feeds_furnace(),
    {
        match self {
            Item::Coal => true,
            Item::IronOre => true,
            Item::Copper => true,
            _ => false,
        }
    }
}

/// The canonical order is a numbering of the kinds: every kind sits at the
/// place its rank names, and every place below the number of kinds names a
/// kind of that rank.
pub proof fn lemma_rank_numbers_the_kinds()
    ensures
        forall|i: Item| 0 <= #[trigger] i.rank() < ITEM_KINDS && Item::of_rank(i.rank()) == i,
        forall|r: int| 0 <= r < ITEM_KINDS ==> (#[trigger] Item::of_rank(r)).rank() == r,
{
}

} // verus!
