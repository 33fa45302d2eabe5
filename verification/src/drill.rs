//! The drill's fuel store and extraction cycle.

use vstd::prelude::*;

verus! {

/// Ticks a drill works on one unit.
pub const DRILL_TICKS: u32 = 60;

/// What a drill is: its coal, and the ticks left of the unit it works on
/// (zero while it is idle).
pub struct DrillView {
    pub coal: nat,
    pub ticks_remaining: nat,
}

impl DrillView {
    /// A drill as it is placed: idle and without coal.
    pub open spec fn fresh() -> DrillView {
        DrillView { coal: 0, ticks_remaining: 0 }
    }

    pub open spec fn fits(self) -> bool {
        self.coal <= u32::MAX
    }

    /// The drill after it was told to start: an idle drill with coal begins
    /// a unit, any other stays as it is.
    pub open spec fn started(self) -> DrillView {
        if self.ticks_remaining == 0 && self.coal > 0 {
            DrillView { ticks_remaining: DRILL_TICKS as nat, ..self }
        } else {
            self
        }
    }

    /// Whether the next tick finishes a unit and burns the coal for it.
    pub open spec fn completes(self) -> bool {
        self.ticks_remaining == 1 && self.coal > 0
    }

    /// The drill one tick later.
    pub open spec fn ticked(self) -> DrillView {
        if self.ticks_remaining == 0 {
            self
        } else if self.completes() {
            DrillView { coal: (self.coal - 1) as nat, ticks_remaining: 0 }
        } else {
            DrillView { ticks_remaining: (self.ticks_remaining - 1) as nat, ..self }
        }
    }
}

/// The state of one placed drill.
#[derive(Clone, Copy)]
pub struct DrillData {
    coal_count: u32,
    processing_ticks_remaining: u32,
}

impl View for DrillData {
    type V = DrillView;

    closed spec fn view(&self) -> DrillView {
        DrillView {
            coal: self.coal_count as nat,
            ticks_remaining: self.processing_ticks_remaining as nat,
        }
    }
}

impl DrillData {
    #[verifier::type_invariant]
    spec fn in_cycle(self) -> bool {
        self.processing_ticks_remaining <= DRILL_TICKS
    }

    /// What is read off a drill fits machine words.
    pub proof fn lemma_view(&self)
        ensures
            self@.fits(),
    {
    }

    pub fn new() -> (drill: DrillData)
        ensures
            drill@ == DrillView::fresh(),
    {
        DrillData { coal_count: 0, processing_ticks_remaining: 0 }
    }

    pub fn coal_count(&self) -> (n: u32)
        ensures
            n == self@.coal,
    {
        self.coal_count
    }

    pub fn add_coal(&mut self)
        requires
            old(self)@.coal < u32::MAX,
        ensures
            final(self)@ == (DrillView { coal: old(self)@.coal + 1, ..old(self)@ }),
    {
        proof {
            use_type_invariant(&*self);
        }
        self.coal_count = self.coal_count + 1;
    }

    pub fn remove_coal(&mut self, count: u32) -> (removed: bool)
        ensures
            removed == (old(self)@.coal >= count),
            removed ==> final(self)@ == (DrillView {
                coal: (old(self)@.coal - count) as nat,
                ..old(self)@
            }),
            !removed ==> final(self)@ == old(self)@,
    {
        proof {
            use_type_invariant(&*self);
        }
        if self.coal_count >= count {
            self.coal_count = self.coal_count - count;
            true
        } else {
            false
        }
    }

    pub fn start_processing_if_able(&mut self)
        ensures
            final(self)@ == old(self)@.started(),
    {
        proof {
            use_type_invariant(&*self);
        }
        if self.processing_ticks_remaining == 0 && self.coal_count > 0 {
            self.processing_ticks_remaining = DRILL_TICKS;
        }
    }

    /// Advances the cycle by one tick and tells whether a unit was finished.
    pub fn process_tick(&mut self) -> (completed: bool)
        ensures
            completed == old(self)@.completes(),
            final(self)@ == old(self)@.ticked(),
    {
        proof {
            use_type_invariant(&*self);
        }
        if self.processing_ticks_remaining > 0 {
            self.processing_ticks_remaining = self.processing_ticks_remaining - 1;
            if self.processing_ticks_remaining == 0 {
                if self.coal_count > 0 {
                    self.coal_count = self.coal_count - 1;
                    return true;
                }
            }
        }
        false
    }

    pub fn processing_ticks_remaining(&self) -> (n: u32)
        ensures
            n == self@.ticks_remaining,
            n <= DRILL_TICKS,
    {
        proof {
            use_type_invariant(self);
        }
        self.processing_ticks_remaining
    }
}

} // verus!
