use vstd::prelude::*;

verus! {

/// Aggregate application-layer state that the bus reports once every device
/// is operational.
pub const AL_STATE_OPERATIONAL: u8 = 8;

/// The two conditions that clients wait on: how many cycles have completed
/// (each completion publishes a new snapshot), and whether the bus has
/// become operational.
#[derive(Clone, Copy, Debug, PartialEq, Eq, Structural)]
pub struct Gates {
    pub cycles: u64,
    pub ready: bool,
}

impl Gates {
    /// A waiter that saw `seen` completed cycles may go on.
    pub open spec fn completed_since(self, seen: u64) -> bool {
        self.cycles > seen
    }

    /// No cycle completed, bus not operational.
    pub fn new() -> (r: Gates)
        ensures
            r.cycles == 0,
            !r.ready,
    {
        Gates { cycles: 0, ready: false }
    }

    /// One more cycle has published its snapshot.
    pub fn complete_cycle(&mut self)
        requires
            old(self).cycles < u64::MAX,
        ensures
            final(self).cycles == old(self).cycles + 1,
            final(self).ready == old(self).ready,
    {
        self.cycles = self.cycles + 1;
    }

    /// Records the bus state read after sending: readiness fires once the
    /// link is up and every device reports the operational state, and once
    /// fired it stays fired. Returns whether it fired now.
    pub fn observe_bus_state(&mut self, link_up: bool, al_states: u8) -> (fired: bool)
        ensures
            final(self).ready == (old(self).ready || (link_up && al_states
                == AL_STATE_OPERATIONAL)),
            old(self).ready ==> final(self).ready,
            fired == (!old(self).ready && final(self).ready),
            final(self).cycles == old(self).cycles,
    {
        if self.ready {
            return false;
        }
        if link_up && al_states == AL_STATE_OPERATIONAL {
            self.ready = true;
            return true;
        }
        false
    }

    pub fn is_ready(&self) -> (r: bool)
        ensures
            r == self.ready,
    {
        self.ready
    }

    pub fn cycle_count(&self) -> (r: u64)
        ensures
            r == self.cycles,
    {
        self.cycles
    }

    /// Whether a waiter that saw `seen` completed cycles may go on.
    pub fn cycle_completed_since(&self, seen: u64) -> (r: bool)
        ensures
            r == self.completed_since(seen),
    {
        self.cycles > seen
    }
}

/// A waiter that records the cycle count and waits for it to grow returns
/// after exactly one completed cycle: not before it, and a second wait begun
/// right after needs another.
pub proof fn lemma_one_wakeup_per_cycle(before: Gates, after: Gates)
    requires
        after.cycles == before.cycles + 1,
    ensures
        !before.completed_since(before.cycles),
        after.completed_since(before.cycles),
        !after.completed_since(after.cycles),
{
}

/// Waits begun one after another, each from the count the previous one
/// returned at, return once per completed cycle: after `n` cycles exactly
/// `n` such waits have returned.
pub proof fn lemma_sequential_waits(start: Gates, now: Gates, n: nat)
    requires
        now.cycles == start.cycles + n,
    ensures
        forall|k: nat|
            k < n ==> #[trigger] now.completed_since((start.cycles + k) as u64),
        now.cycles >= start.cycles,
        !now.completed_since(now.cycles),
{
}

} // verus!
