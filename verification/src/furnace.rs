//! The furnace's stores and smelting cycle.

use vstd::prelude::*;
use crate::types::Item;

verus! {

/// Ticks a furnace works on one plate.
pub const SMELT_TICKS: u32 = 60;

/// What a furnace is busy with.
pub enum FurnaceState {
    Idle,
    /// An iron plate is due in this many ticks.
    SmeltingIron(nat),
    /// A copper plate is due in this many ticks.
    SmeltingCopper(nat),
}

/// What a furnace is: its stores and what it is busy with.
pub struct FurnaceView {
    pub coal: nat,
    pub iron_ore: nat,
    pub iron_plate: nat,
    pub copper: nat,
    pub copper_plate: nat,
    pub state: FurnaceState,
}

impl FurnaceView {
    /// A furnace as it is placed: idle and empty.
    pub open spec fn fresh() -> FurnaceView {
        FurnaceView {
            coal: 0,
            iron_ore: 0,
            iron_plate: 0,
            copper: 0,
            copper_plate: 0,
            state: FurnaceState::Idle,
        }
    }

    pub open spec fn fits(self) -> bool {
        &&& self.coal <= u32::MAX
        &&& self.iron_ore <= u32::MAX
        &&& self.iron_plate <= u32::MAX
        &&& self.copper <= u32::MAX
        &&& self.copper_plate <= u32::MAX
    }

    /// None of the stores holds more than `b`.
    pub open spec fn within(self, b: nat) -> bool {
        &&& self.coal <= b
        &&& self.iron_ore <= b
        &&& self.iron_plate <= b
        &&& self.copper <= b
        &&& self.copper_plate <= b
    }

    /// The furnace after one unit of a fuel or raw material went in; other
    /// kinds change nothing.
    pub open spec fn with_input(self, item: Item) -> FurnaceView {
        match item {
            Item::Coal => FurnaceView { coal: self.coal + 1, ..self },
            Item::IronOre => FurnaceView { iron_ore: self.iron_ore + 1, ..self },
            Item::Copper => FurnaceView { copper: self.copper + 1, ..self },
            _ => self,
        }
    }

    /// Ticks until the plate being smelted is due; zero while idle.
    pub open spec fn ticks_remaining(self) -> nat {
        match self.state {
            FurnaceState::Idle => 0,
            FurnaceState::SmeltingIron(t) => t,
            FurnaceState::SmeltingCopper(t) => t,
        }
    }

    /// The furnace after it was told to start: an idle furnace begins an
    /// iron plate if it has coal and iron ore, else a copper plate if it has
    /// coal and copper; any other furnace stays as it is.
    pub open spec fn started(self) -> FurnaceView {
        if !(self.state is Idle) {
            self
        } else if self.coal > 0 && self.iron_ore > 0 {
            FurnaceView { state: FurnaceState::SmeltingIron(SMELT_TICKS as nat), ..self }
        } else if self.coal > 0 && self.copper > 0 {
            FurnaceView { state: FurnaceState::SmeltingCopper(SMELT_TICKS as nat), ..self }
        } else {
            self
        }
    }

    /// Whether the next tick turns out an iron plate.
    pub open spec fn yields_iron(self) -> bool {
        self.state matches FurnaceState::SmeltingIron(t) && t <= 1 && self.coal > 0 && self.iron_ore
            > 0
    }

    /// Whether the next tick turns out a copper plate.
    pub open spec fn yields_copper(self) -> bool {
        self.state matches FurnaceState::SmeltingCopper(t) && t <= 1 && self.coal > 0
            && self.copper > 0
    }

    /// Whether the next tick turns out a plate.
    pub open spec fn completes(self) -> bool {
        self.yields_iron() || self.yields_copper()
    }

    /// The furnace one tick later. A plate that falls due is made from one
    /// coal and one unit of its raw material; where either has gone missing
    /// the furnace goes idle and nothing is spent.
    pub open spec fn ticked(self) -> FurnaceView {
        match self.state {
            FurnaceState::Idle => self,
            FurnaceState::SmeltingIron(t) => if t > 1 {
                FurnaceView { state: FurnaceState::SmeltingIron((t - 1) as nat), ..self }
            } else if self.coal > 0 && self.iron_ore > 0 {
                FurnaceView {
                    coal: (self.coal - 1) as nat,
                    iron_ore: (self.iron_ore - 1) as nat,
                    iron_plate: self.iron_plate + 1,
                    state: FurnaceState::Idle,
                    ..self
                }
            } else {
                FurnaceView { state: FurnaceState::Idle, ..self }
            },
            FurnaceState::SmeltingCopper(t) => if t > 1 {
                FurnaceView { state: FurnaceState::SmeltingCopper((t - 1) as nat), ..self }
            } else if self.coal > 0 && self.copper > 0 {
                FurnaceView {
                    coal: (self.coal - 1) as nat,
                    copper: (self.copper - 1) as nat,
                    copper_plate: self.copper_plate + 1,
                    state: FurnaceState::Idle,
                    ..self
                }
            } else {
                FurnaceView { state: FurnaceState::Idle, ..self }
            },
        }
    }

    /// The furnace after `n` rounds of being told to start and then ticked.
    pub open spec fn run(self, n: nat) -> FurnaceView
        decreases n,
    {
        if n == 0 {
            self
        } else {
            self.run((n - 1) as nat).started().ticked()
        }
    }
}

/// An idle furnace that has coal and iron ore starts an iron plate, whether
/// or not it has copper too: sixty ticks remain, the stores are as they
/// were, and the tick on which the plate falls due spends one coal and one
/// iron ore on one iron plate and leaves the copper alone.
pub proof fn lemma_iron_first(f: FurnaceView)
    requires
        f.state is Idle,
        f.coal > 0,
        f.iron_ore > 0,
    ensures
        f.started() == (FurnaceView {
            state: FurnaceState::SmeltingIron(SMELT_TICKS as nat),
            ..f
        }),
        f.started().ticks_remaining() == SMELT_TICKS,
        f.run(SMELT_TICKS as nat).iron_plate == f.iron_plate + 1,
        f.run(SMELT_TICKS as nat).copper == f.copper,
        f.run(SMELT_TICKS as nat).copper_plate == f.copper_plate,
{
    lemma_iron_takes_sixty(f, SMELT_TICKS as nat);
}

/// An idle furnace with coal and iron ore takes exactly sixty rounds to turn
/// out an iron plate: through the first 59 its stores are untouched, and the
/// sixtieth spends one coal and one iron ore on one plate and leaves it idle.
pub proof fn lemma_iron_takes_sixty(f: FurnaceView, n: nat)
    requires
        f.state is Idle,
        f.coal > 0,
        f.iron_ore > 0,
        1 <= n <= SMELT_TICKS,
    ensures
        n < SMELT_TICKS ==> f.run(n) == (FurnaceView {
            state: FurnaceState::SmeltingIron((SMELT_TICKS - n) as nat),
            ..f
        }),
        n == SMELT_TICKS ==> f.run(n) == (FurnaceView {
            coal: (f.coal - 1) as nat,
            iron_ore: (f.iron_ore - 1) as nat,
            iron_plate: f.iron_plate + 1,
            state: FurnaceState::Idle,
            ..f
        }),
    decreases n,
{
    if n > 1 {
        lemma_iron_takes_sixty(f, (n - 1) as nat);
    } else {
        assert(f.run(0) == f);
    }
}

/// An idle furnace with coal and copper but no iron ore takes exactly sixty
/// rounds to turn out a copper plate.
pub proof fn lemma_copper_takes_sixty(f: FurnaceView, n: nat)
    requires
        f.state is Idle,
        f.coal > 0,
        f.iron_ore == 0,
        f.copper > 0,
        1 <= n <= SMELT_TICKS,
    ensures
        n < SMELT_TICKS ==> f.run(n) == (FurnaceView {
            state: FurnaceState::SmeltingCopper((SMELT_TICKS - n) as nat),
            ..f
        }),
        n == SMELT_TICKS ==> f.run(n) == (FurnaceView {
            coal: (f.coal - 1) as nat,
            copper: (f.copper - 1) as nat,
            copper_plate: f.copper_plate + 1,
            state: FurnaceState::Idle,
            ..f
        }),
    decreases n,
{
    if n > 1 {
        lemma_copper_takes_sixty(f, (n - 1) as nat);
    } else {
        assert(f.run(0) == f);
    }
}

#[derive(Clone, Copy, PartialEq, Eq, Structural)]
enum Smelting {
    Nothing,
    IronPlate,
    CopperPlate,
}

/// The state of one placed furnace.
#[derive(Clone, Copy)]
pub struct FurnaceData {
    coal_count: u32,
    iron_ore_count: u32,
    iron_plate_count: u32,
    copper_count: u32,
    copper_plate_count: u32,
    processing_ticks_remaining: u32,
    processing_type: Smelting,
}

impl View for FurnaceData {
    type V = FurnaceView;

    closed spec fn view(&self) -> FurnaceView {
        FurnaceView {
            coal: self.coal_count as nat,
            iron_ore: self.iron_ore_count as nat,
            iron_plate: self.iron_plate_count as nat,
            copper: self.copper_count as nat,
            copper_plate: self.copper_plate_count as nat,
            state: if self.processing_ticks_remaining == 0 {
                FurnaceState::Idle
            } else {
                match self.processing_type {
                    Smelting::Nothing => FurnaceState::Idle,
                    Smelting::IronPlate => FurnaceState::SmeltingIron(
                        self.processing_ticks_remaining as nat,
                    ),
                    Smelting::CopperPlate => FurnaceState::SmeltingCopper(
                        self.processing_ticks_remaining as nat,
                    ),
                }
            },
        }
    }
}

impl FurnaceData {
    #[verifier::type_invariant]
    spec fn in_cycle(self) -> bool {
        &&& self.processing_ticks_remaining <= SMELT_TICKS
        &&& self.processing_ticks_remaining > 0 ==> self.processing_type != Smelting::Nothing
    }

    /// What is read off a furnace fits machine words, and the furnace is
    /// idle exactly while no ticks remain.
    pub proof fn lemma_view(&self)
        ensures
            self@.fits(),
            self@.state is Idle <==> self@.ticks_remaining() == 0,
    {
    }

    pub fn new() -> (furnace: FurnaceData)
        ensures
            furnace@ == FurnaceView::fresh(),
    {
        FurnaceData {
            coal_count: 0,
            iron_ore_count: 0,
            iron_plate_count: 0,
            copper_count: 0,
            copper_plate_count: 0,
            processing_ticks_remaining: 0,
            processing_type: Smelting::Nothing,
        }
    }

    /// Whether none of the stores holds more than `limit`.
    pub fn is_within(&self, limit: u32) -> (b: bool)
        ensures
            b == self@.within(limit as nat),
    {
        self.coal_count <= limit && self.iron_ore_count <= limit && self.iron_plate_count <= limit
            && self.copper_count <= limit && self.copper_plate_count <= limit
    }

    pub fn coal_count(&self) -> (n: u32)
        ensures
            n == self@.coal,
    {
        self.coal_count
    }

    pub fn iron_ore_count(&self) -> (n: u32)
        ensures
            n == self@.iron_ore,
    {
        self.iron_ore_count
    }

    pub fn iron_plate_count(&self) -> (n: u32)
        ensures
            n == self@.iron_plate,
    {
        self.iron_plate_count
    }

    pub fn copper_count(&self) -> (n: u32)
        ensures
            n == self@.copper,
    {
        self.copper_count
    }

    pub fn copper_plate_count(&self) -> (n: u32)
        ensures
            n == self@.copper_plate,
    {
        self.copper_plate_count
    }

    pub fn add_coal(&mut self)
        requires
            old(self)@.coal < u32::MAX,
        ensures
            final(self)@ == (FurnaceView { coal: old(self)@.coal + 1, ..old(self)@ }),
    {
        proof {
            use_type_invariant(&*self);
        }
        self.coal_count = self.coal_count + 1;
    }

    pub fn add_iron_ore(&mut self)
        requires
            old(self)@.iron_ore < u32::MAX,
        ensures
            final(self)@ == (FurnaceView { iron_ore: old(self)@.iron_ore + 1, ..old(self)@ }),
    {
        proof {
            use_type_invariant(&*self);
        }
        self.iron_ore_count = self.iron_ore_count + 1;
    }

    pub fn add_copper(&mut self)
        requires
            old(self)@.copper < u32::MAX,
        ensures
            final(self)@ == (FurnaceView { copper: old(self)@.copper + 1, ..old(self)@ }),
    {
        proof {
            use_type_invariant(&*self);
        }
        self.copper_count = self.copper_count + 1;
    }

    /// Puts in one unit of a fuel or raw material; other kinds are ignored.
    pub fn add_input(&mut self, item: Item)
        requires
            old(self)@.with_input(item).fits(),
        ensures
            final(self)@ == old(self)@.with_input(item),
    {
        match item {
            Item::Coal => self.add_coal(),
            Item::IronOre => self.add_iron_ore(),
            Item::Copper => self.add_copper(),
            _ => {},
        }
    }

    pub fn remove_coal(&mut self, count: u32) -> (removed: bool)
        ensures
            removed == (old(self)@.coal >= count),
            removed ==> final(self)@ == (FurnaceView {
                coal: (old(self)@.coal - count) as nat,
                ..old(self)@
            }),
            !removed ==> final(self)@ == old(self)@,
    {
        proof {
            use_type_invariant(&*self);
        }
        if self.coal_count >= count {
            self.coal_count = self.coal_count - count;
            true
        } else {
            false
        }
    }

    pub fn remove_iron_ore(&mut self, count: u32) -> (removed: bool)
        ensures
            removed == (old(self)@.iron_ore >= count),
            removed ==> final(self)@ == (FurnaceView {
                iron_ore: (old(self)@.iron_ore - count) as nat,
                ..old(self)@
            }),
            !removed ==> final(self)@ == old(self)@,
    {
        proof {
            use_type_invariant(&*self);
        }
        if self.iron_ore_count >= count {
            self.iron_ore_count = self.iron_ore_count - count;
            true
        } else {
            false
        }
    }

    pub fn remove_copper(&mut self, count: u32) -> (removed: bool)
        ensures
            removed == (old(self)@.copper >= count),
            removed ==> final(self)@ == (FurnaceView {
                copper: (old(self)@.copper - count) as nat,
                ..old(self)@
            }),
            !removed ==> final(self)@ == old(self)@,
    {
        proof {
            use_type_invariant(&*self);
        }
        if self.copper_count >= count {
            self.copper_count = self.copper_count - count;
            true
        } else {
            false
        }
    }

    pub fn add_iron_plate(&mut self)
        requires
            old(self)@.iron_plate < u32::MAX,
        ensures
            final(self)@ == (FurnaceView { iron_plate: old(self)@.iron_plate + 1, ..old(self)@ }),
    {
        proof {
            use_type_invariant(&*self);
        }
        self.iron_plate_count = self.iron_plate_count + 1;
    }

    pub fn remove_iron_plate(&mut self, count: u32) -> (removed: bool)
        ensures
            removed == (old(self)@.iron_plate >= count),
            removed ==> final(self)@ == (FurnaceView {
                iron_plate: (old(self)@.iron_plate - count) as nat,
                ..old(self)@
            }),
            !removed ==> final(self)@ == old(self)@,
    {
        proof {
            use_type_invariant(&*self);
        }
        if self.iron_plate_count >= count {
            self.iron_plate_count = self.iron_plate_count - count;
            true
        } else {
            false
        }
    }

    pub fn add_copper_plate(&mut self)
        requires
            old(self)@.copper_plate < u32::MAX,
        ensures
            final(self)@ == (FurnaceView {
                copper_plate: old(self)@.copper_plate + 1,
                ..old(self)@
            }),
    {
        proof {
            use_type_invariant(&*self);
        }
        self.copper_plate_count = self.copper_plate_count + 1;
    }

    pub fn remove_copper_plate(&mut self, count: u32) -> (removed: bool)
        ensures
            removed == (old(self)@.copper_plate >= count),
            removed ==> final(self)@ == (FurnaceView {
                copper_plate: (old(self)@.copper_plate - count) as nat,
                ..old(self)@
            }),
            !removed ==> final(self)@ == old(self)@,
    {
        proof {
            use_type_invariant(&*self);
        }
        if self.copper_plate_count >= count {
            self.copper_plate_count = self.copper_plate_count - count;
            true
        } else {
            false
        }
    }

    /// Starts a plate if the furnace is idle and has what one takes: iron
    /// where there is coal and iron ore, else copper where there is coal and
    /// copper. The stores are not touched before the plate is due.
    pub fn start_processing_if_able(&mut self)
        ensures
            final(self)@ == old(self)@.started(),
            old(self)@.ticks_remaining() == 0 && old(self)@.coal > 0 && old(self)@.iron_ore > 0
                ==> final(self)@ == (FurnaceView {
                state: FurnaceState::SmeltingIron(SMELT_TICKS as nat),
                ..old(self)@
            }),
            old(self)@.ticks_remaining() == 0 && old(self)@.coal > 0 && old(self)@.iron_ore == 0
                && old(self)@.copper > 0 ==> final(self)@ == (FurnaceView {
                state: FurnaceState::SmeltingCopper(SMELT_TICKS as nat),
                ..old(self)@
            }),
            old(self)@.ticks_remaining() > 0 || old(self)@.coal == 0 || (old(self)@.iron_ore == 0
                && old(self)@.copper == 0) ==> final(self)@ == old(self)@,
    {
        proof {
            use_type_invariant(&*self);
        }
        if self.processing_ticks_remaining == 0 {
            if self.coal_count > 0 && self.iron_ore_count > 0 {
                self.processing_type = Smelting::IronPlate;
                self.processing_ticks_remaining = SMELT_TICKS;
            } else if self.coal_count > 0 && self.copper_count > 0 {
                self.processing_type = Smelting::CopperPlate;
                self.processing_ticks_remaining = SMELT_TICKS;
            }
        }
    }

    /// Advances the cycle by one tick and tells whether a plate was made.
    pub fn process_tick(&mut self) -> (completed: bool)
        requires
            old(self)@.ticked().fits(),
        ensures
            completed == old(self)@.completes(),
            final(self)@ == old(self)@.ticked(),
    {
        proof {
            use_type_invariant(&*self);
        }
        if self.processing_ticks_remaining > 0 {
            self.processing_ticks_remaining = self.processing_ticks_remaining - 1;
            if self.processing_ticks_remaining == 0 {
                match self.processing_type {
                    Smelting::IronPlate => {
                        if self.coal_count > 0 && self.iron_ore_count > 0 {
                            self.coal_count = self.coal_count - 1;
                            self.iron_ore_count = self.iron_ore_count - 1;
                            self.iron_plate_count = self.iron_plate_count + 1;
                            self.processing_type = Smelting::Nothing;
                            return true;
                        }
                    },
                    Smelting::CopperPlate => {
                        if self.coal_count > 0 && self.copper_count > 0 {
                            self.coal_count = self.coal_count - 1;
                            self.copper_count = self.copper_count - 1;
                            self.copper_plate_count = self.copper_plate_count + 1;
                            self.processing_type = Smelting::Nothing;
                            return true;
                        }
                    },
                    Smelting::Nothing => {},
                }
            }
        }
        false
    }

    pub fn processing_ticks_remaining(&self) -> (n: u32)
        ensures
            n == self@.ticks_remaining(),
            n <= SMELT_TICKS,
            n == 0 <==> self@.state is Idle,
    {
        proof {
            use_type_invariant(self);
        }
        self.processing_ticks_remaining
    }

    /// Plates are made by `process_tick` alone; this never makes one.
    pub fn try_combine(&mut self) -> (combined: bool)
        ensures
            !combined,
            final(self)@ == old(self)@,
    {
        false
    }
}

} // verus!
