//! The robotic arm's duty cycle.

use vstd::prelude::*;

verus! {

/// Length of an arm's duty cycle in ticks.
pub const ARM_CYCLE: u32 = 120;

/// What an arm is: its place in the duty cycle.
pub struct ArmView {
    pub tick_counter: nat,
}

impl ArmView {
    /// An arm as it is placed: at the start of its cycle.
    pub open spec fn fresh() -> ArmView {
        ArmView { tick_counter: 0 }
    }

    /// Whether the next tick ends a cycle, so that the arm acts.
    pub open spec fn fires(self) -> bool {
        self.tick_counter + 1 >= ARM_CYCLE
    }

    /// The arm one tick later.
    pub open spec fn ticked(self) -> ArmView {
        if self.fires() {
            ArmView { tick_counter: 0 }
        } else {
            ArmView { tick_counter: self.tick_counter + 1 }
        }
    }

    /// The arm `n` ticks later.
    pub open spec fn after(self, n: nat) -> ArmView
        decreases n,
    {
        if n == 0 {
            self
        } else {
            self.after((n - 1) as nat).ticked()
        }
    }
}

/// An arm that has just acted stays still for 119 ticks and acts again on
/// the 120th: counted from a counter of zero, tick `n` of the next 120 is
/// the one that fires exactly when `n` is 120, and it leaves the counter at
/// zero again.
pub proof fn lemma_arm_cycle(n: nat)
    requires
        1 <= n <= ARM_CYCLE,
    ensures
        (ArmView { tick_counter: 0 }).after((n - 1) as nat).tick_counter == n - 1,
        (ArmView { tick_counter: 0 }).after((n - 1) as nat).fires() <==> n == ARM_CYCLE,
        (ArmView { tick_counter: 0 }).after(n).tick_counter == n % (ARM_CYCLE as nat),
    decreases n,
{
    let start = ArmView { tick_counter: 0 };
    assert(start.after(0) == start);
    if n > 1 {
        lemma_arm_cycle((n - 1) as nat);
    }
    assert(start.after(n) == start.after((n - 1) as nat).ticked());
}

/// The state of one placed arm.
#[derive(Clone, Copy)]
pub struct ArmData {
    tick_counter: u32,
}

impl View for ArmData {
    type V = ArmView;

    closed spec fn view(&self) -> ArmView {
        ArmView { tick_counter: self.tick_counter as nat }
    }
}

impl ArmData {
    #[verifier::type_invariant]
    spec fn in_cycle(self) -> bool {
        self.tick_counter < ARM_CYCLE
    }

    pub fn new() -> (arm: ArmData)
        ensures
            arm@ == ArmView::fresh(),
    {
        ArmData { tick_counter: 0 }
    }

    pub fn tick_counter(&self) -> (n: u32)
        ensures
            n == self@.tick_counter,
            n < ARM_CYCLE,
    {
        proof {
            use_type_invariant(self);
        }
        self.tick_counter
    }

    /// Advances the cycle by one tick and tells whether the arm acts now.
    pub fn process_tick(&mut self) -> (fires: bool)
        ensures
            fires == old(self)@.fires(),
            final(self)@ == old(self)@.ticked(),
    {
        proof {
            use_type_invariant(&*self);
        }
        if self.tick_counter + 1 >= ARM_CYCLE {
            self.tick_counter = 0;
            true
        } else {
            self.tick_counter = self.tick_counter + 1;
            false
        }
    }
}

} // verus!
