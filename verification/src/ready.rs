//! The ready gate: a per-fulfiller progress counter that makes "are my
//! prerequisites done?" answerable across re-entrant ticks of a cyclic
//! graph, without resetting anything between ticks.
//!
//! Each gate holds a monotone `state` counter and the greatest prerequisite
//! state it has observed. A node's release sets its state one past that
//! observation, so a chain of releases around a cycle keeps every counter
//! climbing.

use vstd::prelude::*;

verus! {

/// Progress gate of one fulfiller.
#[derive(Debug)]
pub struct Ready {
    state: u64,
    greatest_prereq: u64,
    entrypoint: bool,
}

impl Ready {
    /// The progress counter: how often this gate has been released.
    pub closed spec fn state(self) -> u64 {
        self.state
    }

    /// The greatest prerequisite state observed so far.
    pub closed spec fn greatest_prereq(self) -> u64 {
        self.greatest_prereq
    }

    /// May this gate fire once without any prerequisite having released?
    pub closed spec fn is_entrypoint(self) -> bool {
        self.entrypoint
    }

    /// The state never runs ahead of the last observation by more than the
    /// one step a release grants.
    pub open spec fn inv(self) -> bool {
        self.state() <= self.greatest_prereq() + 1
    }

    pub fn new(entrypoint: bool) -> (r: Self)
        ensures
            r.state() == 0,
            r.greatest_prereq() == 0,
            r.is_entrypoint() == entrypoint,
            r.inv(),
    {
        Self { state: 0, greatest_prereq: 0, entrypoint }
    }

    /// Read the progress counter.
    pub fn current_state(&self) -> (r: u64)
        ensures
            r == self.state(),
    {
        self.state
    }

    /// Mark this gate done for the tick: move the state one past the
    /// greatest observed prerequisite. The state never decreases.
    pub fn release(&mut self)
        requires
            old(self).inv(),
            old(self).greatest_prereq() < u64::MAX,
        ensures
            final(self).state() == old(self).greatest_prereq() + 1,
            final(self).greatest_prereq() == old(self).greatest_prereq(),
            final(self).is_entrypoint() == old(self).is_entrypoint(),
            final(self).state() >= old(self).state(),
            final(self).inv(),
    {
        self.state = self.greatest_prereq + 1;
    }

    /// Observe one prerequisite's state. Returns whether that prerequisite
    /// is satisfied: it has moved past this gate, or this gate is an
    /// entrypoint that has never fired, or the prerequisite is this node
    /// itself. The state never changes here.
    pub fn load_prerequisite(&mut self, other_state: u64, same: bool) -> (r: bool)
        ensures
            final(self).greatest_prereq() == if other_state > old(self).greatest_prereq() {
                other_state
            } else {
                old(self).greatest_prereq()
            },
            final(self).state() == old(self).state(),
            final(self).is_entrypoint() == old(self).is_entrypoint(),
            r == (other_state > old(self).state() || (old(self).is_entrypoint() && old(self).state() == 0) || same),
            old(self).inv() ==> final(self).inv(),
    {
        if other_state > self.greatest_prereq {
            self.greatest_prereq = other_state;
        }
        other_state > self.state || self.entrypoint && self.state == 0 || same
    }
}

} // verus!
