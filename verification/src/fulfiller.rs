//! Runtime task nodes and the run controller.
//!
//! A `Fulfiller` wraps one loaded task with its scheduling state: the ready
//! gate, the cease and error flags, its prerequisite nodes and the chains it
//! wakes. `Quit` counts how many fulfillers are still expected this tick
//! (`active`) and how many are error-free and so take part in the next tick
//! (`nominal`); the embedding program parks its main thread on a two-party
//! barrier and is released when the active count strikes zero.

use vstd::prelude::*;
use crate::identify::FullTaskName;
use crate::loaded::LoadedTask;
use crate::ready::Ready;

verus! {

/// Tick accounting: fulfillers still pending this tick, and fulfillers that
/// will take part in the next one.
#[derive(Debug)]
pub struct Quit {
    nominal_count: usize,
    active_count: usize,
}

impl Quit {
    /// Error-free fulfillers: how many take part in the next tick.
    pub closed spec fn nominal(self) -> usize {
        self.nominal_count
    }

    /// Fulfillers still expected to cease in the current tick.
    pub closed spec fn active(self) -> usize {
        self.active_count
    }

    pub fn new(active_count: usize) -> (r: Self)
        ensures
            r.nominal() == active_count,
            r.active() == active_count,
    {
        Self { nominal_count: active_count, active_count }
    }

    pub fn nominal_value(&self) -> (r: usize)
        ensures
            r == self.nominal(),
    {
        self.nominal_count
    }

    pub fn active_value(&self) -> (r: usize)
        ensures
            r == self.active(),
    {
        self.active_count
    }

    /// Adjust the active count when the composition grows or shrinks
    /// between ticks.
    pub fn begin_fulfillers(&mut self, num_to_add: isize)
        requires
            0 <= old(self).active() + num_to_add <= usize::MAX,
        ensures
            final(self).active() == old(self).active() + num_to_add,
            final(self).nominal() == old(self).nominal(),
    {
        if num_to_add >= 0 {
            self.active_count = self.active_count + (num_to_add as usize);
        } else {
            let d = ((-(num_to_add + 1)) as usize) + 1;
            self.active_count = self.active_count - d;
        }
    }

    /// Cease one fulfiller and count it off. Returns true exactly when this
    /// was the tick's last active fulfiller: the caller then rendezvouses
    /// with the main thread.
    pub fn cease_fulfiller(&mut self, fulfiller: &mut Fulfiller) -> (rendezvous: bool)
        requires
            old(self).active() >= 1,
        ensures
            final(fulfiller).cease,
            final(fulfiller).error == old(fulfiller).error,
            final(fulfiller).children_chains == old(fulfiller).children_chains,
            final(fulfiller).done == old(fulfiller).done,
            final(fulfiller).prerequisites == old(fulfiller).prerequisites,
            final(fulfiller).task == old(fulfiller).task,
            final(self).active() == old(self).active() - 1,
            final(self).nominal() == old(self).nominal(),
            rendezvous == (final(self).active() == 0),
    {
        fulfiller.cease = true;
        self.active_count = self.active_count - 1;
        self.active_count == 0
    }

    /// One fulfiller errored: it sits out every following tick.
    pub fn record_error(&mut self)
        requires
            old(self).nominal() >= 1,
        ensures
            final(self).nominal() == old(self).nominal() - 1,
            final(self).active() == old(self).active(),
    {
        self.nominal_count = self.nominal_count - 1;
    }

    /// Arm the next tick: every error-free fulfiller is expected again.
    /// Returns the nominal count; zero means everyone errored and the
    /// instance should exit.
    pub fn reset(&mut self) -> (r: usize)
        ensures
            final(self).active() == old(self).nominal(),
            final(self).nominal() == old(self).nominal(),
            r == old(self).nominal(),
    {
        self.active_count = self.nominal_count;
        self.nominal_count
    }
}

/// Law: in a tick that opens with `n` active fulfillers and sees one cease
/// signal per fulfiller, the active count after `k` signals is `n - k`, and
/// it strikes zero at the `n`-th signal alone. Since `cease_fulfiller`
/// reports the rendezvous exactly when the count strikes zero, the main
/// thread's barrier is signalled exactly once per tick.
pub proof fn lemma_rendezvous_exactly_once(n: nat, k: nat)
    requires
        1 <= k <= n,
    ensures
        (n - k == 0) <==> (k == n),
{
}

/// One runtime task node.
#[derive(Debug)]
pub struct Fulfiller {
    pub cease: bool,
    pub error: bool,
    /// Indices into the composition's chain table: the chains whose first
    /// node waits on this one.
    pub children_chains: Vec<usize>,
    pub done: Ready,
    /// Indices into the composition's fulfiller table.
    pub prerequisites: Vec<usize>,
    pub task: Option<LoadedTask>,
}

impl Fulfiller {
    /// Readiness of one prerequisite against a snapshot of every state:
    /// prerequisite `k` is satisfied when it has moved past this gate, when
    /// this gate is an entrypoint that never fired, or when the
    /// prerequisite is the node itself.
    pub open spec fn prereq_ok(self, self_index: int, states: Seq<u64>, k: int) -> bool {
        states[self.prerequisites@[k] as int] > self.done.state() || (self.done.is_entrypoint()
            && self.done.state() == 0) || self.prerequisites@[k] as int == self_index
    }

    /// Every prerequisite is satisfied against the snapshot.
    pub open spec fn prereqs_satisfied(self, self_index: int, states: Seq<u64>) -> bool {
        forall|k: int|
            0 <= k < self.prerequisites@.len() ==> #[trigger] self.prereq_ok(
                self_index,
                states,
                k,
            )
    }

    /// The greatest-prerequisite observation after folding in prerequisites
    /// `k` onward.
    pub open spec fn gp_after(gp: u64, states: Seq<u64>, prs: Seq<usize>, k: int) -> u64
        decreases prs.len() - k,
    {
        if k < 0 || k >= prs.len() {
            gp
        } else {
            let s = states[prs[k] as int];
            Self::gp_after(
                if s > gp {
                    s
                } else {
                    gp
                },
                states,
                prs,
                k + 1,
            )
        }
    }

    /// Observe every prerequisite's gate and report whether all of them are
    /// satisfied. Unlike a short-circuiting check, every prerequisite's
    /// state is folded into the greatest-prerequisite observation.
    pub fn prerequisites_complete(&mut self, self_index: usize, done_states: &Vec<u64>) -> (r:
        bool)
        requires
            forall|k: int|
                0 <= k < old(self).prerequisites@.len() ==> (
                #[trigger] old(self).prerequisites@[k] as int) < done_states@.len(),
        ensures
            r == old(self).prereqs_satisfied(self_index as int, done_states@),
            final(self).done.state() == old(self).done.state(),
            final(self).done.is_entrypoint() == old(self).done.is_entrypoint(),
            final(self).done.greatest_prereq() == Self::gp_after(
                old(self).done.greatest_prereq(),
                done_states@,
                old(self).prerequisites@,
                0,
            ),
            old(self).done.inv() ==> final(self).done.inv(),
            final(self).cease == old(self).cease,
            final(self).error == old(self).error,
            final(self).children_chains == old(self).children_chains,
            final(self).prerequisites == old(self).prerequisites,
            final(self).task == old(self).task,
    {
        let ghost orig = *self;
        let np: usize = self.prerequisites.len();
        let mut all_ok = true;
        for k in 0..np
            invariant
                np == self.prerequisites@.len(),
                forall|k2: int|
                    0 <= k2 < self.prerequisites@.len() ==> (
                    #[trigger] self.prerequisites@[k2] as int) < done_states@.len(),
                self.prerequisites == orig.prerequisites,
                self.cease == orig.cease,
                self.error == orig.error,
                self.children_chains == orig.children_chains,
                self.task == orig.task,
                self.done.state() == orig.done.state(),
                self.done.is_entrypoint() == orig.done.is_entrypoint(),
                orig.done.inv() ==> self.done.inv(),
                Self::gp_after(self.done.greatest_prereq(), done_states@, orig.prerequisites@, k as int)
                    == Self::gp_after(orig.done.greatest_prereq(), done_states@, orig.prerequisites@, 0),
                all_ok == forall|k2: int|
                    0 <= k2 < k ==> orig.prereq_ok(self_index as int, done_states@, k2),
        {
            let p = self.prerequisites[k];
            let ok = self.done.load_prerequisite(done_states[p], p == self_index);
            if !ok {
                all_ok = false;
            }
            proof {
                if !ok {
                    assert(!orig.prereq_ok(self_index as int, done_states@, k as int));
                } else {
                    assert(orig.prereq_ok(self_index as int, done_states@, k as int));
                }
            }
        }
        all_ok
    }
}

/// A linear slice of the task graph, run sequentially on one worker. The
/// indices point into the composition's fulfiller table, in execution
/// order; `first_name` names the chain's first task.
#[derive(Debug)]
pub struct FulfillerChain {
    pub first_name: FullTaskName,
    pub chain: Vec<usize>,
}

} // verus!
