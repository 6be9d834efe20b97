//! The loaded composition: the runtime graph built from a validated
//! unloaded composition. Plugin-materialized task and datachunk objects are
//! represented by identity tokens; the embedding program keeps the real
//! objects keyed by those tokens. Construction wires prerequisite edges,
//! builds the fulfiller chains and installs the wake-up back-edges.

use vstd::prelude::*;
use crate::access::Access;
use crate::chains::{chains_disjoint, chains_linear, in_chains};
use crate::control_flow::{InstanceControlFlow, TaskControlFlow};
use crate::fulfiller::{Fulfiller, FulfillerChain, Quit};
use crate::identify::{CrateName, DatachunkName, FullDatachunkName, FullTaskName, TaskName};
use crate::ready::Ready;
use crate::unloaded::{
    comp_task_names, CompSpec, UnloadedComposition, UnloadedOCTask,
};
use crate::validator::Checked;

verus! {

/// A plugin-materialized task: its name, its declared accesses, and the
/// identity token under which the embedding program keeps the plugin's
/// object.
#[derive(Debug)]
pub struct LoadedTask {
    pub name: FullTaskName,
    pub accesses: Vec<Access>,
    pub token: u64,
}

impl LoadedTask {
    pub fn new(name: FullTaskName, accesses: Vec<Access>, token: u64) -> (r: Self)
        ensures
            r.name@ == name@,
            r.accesses == accesses,
            r.token == token,
    {
        Self { name, accesses, token }
    }
}

/// A plugin-materialized datachunk: its plugin-side type and its identity
/// token.
#[derive(Debug)]
pub struct LoadedDatachunk {
    pub kind_name: String,
    pub token: u64,
}

impl LoadedDatachunk {
    pub fn new(kind_name: String, token: u64) -> (r: Self)
        ensures
            r.kind_name@ == kind_name@,
            r.token == token,
    {
        Self { kind_name, token }
    }
}

/// The dependency-relevant runtime slice of one task.
#[derive(Debug)]
pub struct LoadedOCTask {
    pub name: FullTaskName,
    pub accesses: Vec<Access>,
}

impl LoadedOCTask {
    pub fn new(name: FullTaskName, unloaded: UnloadedOCTask) -> (r: Self)
        ensures
            r.name@ == name@,
            r.accesses == unloaded.accesses,
    {
        Self { name, accesses: unloaded.accesses }
    }
}

/// One loaded crate: its datachunks, and its tasks as indices into the
/// composition's fulfiller table.
#[derive(Debug)]
pub struct LoadedCrate {
    pub datachunks: Vec<(DatachunkName, Option<LoadedDatachunk>)>,
    pub tasks: Vec<(TaskName, usize)>,
}

/// State carried across a partial reload: the plugin objects of crates
/// whose specification did not change, keyed by full name.
pub struct Baggage {
    pub tasks: Vec<(FullTaskName, LoadedTask)>,
    pub datachunks: Vec<(FullDatachunkName, LoadedDatachunk)>,
}

/// Does the task baggage hold an entry for `x`?
pub open spec fn bag_has_task(s: Seq<(FullTaskName, LoadedTask)>, x: (Seq<char>, Seq<char>)) -> bool {
    exists|j: int| 0 <= j < s.len() && s[j].0@ == x
}

/// The token of the task baggage entry for `x`.
pub open spec fn bag_task_token(s: Seq<(FullTaskName, LoadedTask)>, x: (Seq<char>, Seq<char>)) -> u64 {
    let j = choose|j: int| 0 <= j < s.len() && s[j].0@ == x;
    s[j].1.token
}

/// Does the datachunk baggage hold an entry for `x`?
pub open spec fn bag_has_dc(
    s: Seq<(FullDatachunkName, LoadedDatachunk)>,
    x: (Seq<char>, Seq<char>),
) -> bool {
    exists|j: int| 0 <= j < s.len() && s[j].0@ == x
}

/// The token of the datachunk baggage entry for `x`.
pub open spec fn bag_dc_token(
    s: Seq<(FullDatachunkName, LoadedDatachunk)>,
    x: (Seq<char>, Seq<char>),
) -> u64 {
    let j = choose|j: int| 0 <= j < s.len() && s[j].0@ == x;
    s[j].1.token
}

/// Both baggage tables are keyed uniquely and every token predates `bound`.
pub open spec fn baggage_wf(b: Baggage, bound: u64) -> bool {
    &&& forall|i: int, j: int| 0 <= i < j < b.tasks@.len() ==> b.tasks@[i].0@ != b.tasks@[j].0@
    &&& forall|i: int, j: int|
        0 <= i < j < b.datachunks@.len() ==> b.datachunks@[i].0@ != b.datachunks@[j].0@
    &&& forall|i: int| 0 <= i < b.tasks@.len() ==> (#[trigger] b.tasks@[i]).1.token < bound
    &&& forall|i: int| 0 <= i < b.datachunks@.len() ==> (#[trigger] b.datachunks@[i]).1.token < bound
}

impl Baggage {
    /// Baggage that preserves nothing: every object is materialized afresh.
    pub fn empty() -> (r: Self)
        ensures
            r.tasks@.len() == 0,
            r.datachunks@.len() == 0,
    {
        Self { tasks: Vec::new(), datachunks: Vec::new() }
    }
}

/// Total number of datachunk declarations, from crate `ci` on.
pub open spec fn comp_dc_count(crates: Seq<(Seq<char>, crate::unloaded::CrateSpec)>, ci: int) -> int
    decreases crates.len() - ci,
{
    if ci >= crates.len() {
        0
    } else {
        crates[ci].1.datachunks.len() + comp_dc_count(crates, ci + 1)
    }
}

/// How many plugin objects a composition materializes: one per task and one
/// per datachunk.
pub open spec fn total_objects(c: CompSpec) -> int {
    comp_task_names(c.crates, 0).len() + comp_dc_count(c.crates, 0)
}

/// The runtime composition.
pub struct LoadedComposition {
    pub crates: Vec<(CrateName, LoadedCrate)>,
    /// All fulfillers, in the iteration order of the composition; crates
    /// and chains refer to them by index.
    pub fulfillers: Vec<Fulfiller>,
    pub fulfiller_chains: Vec<FulfillerChain>,
    pub control_flow: InstanceControlFlow,
    pub task_completion: Quit,
    /// The next identity token to hand to a freshly materialized object.
    pub next_token: u64,
}

impl LoadedComposition {
    /// The flat list of task names this composition was built from.
    pub open spec fn names(self, c: CompSpec) -> Seq<(Seq<char>, Seq<char>)> {
        comp_task_names(c.crates, 0)
    }

    /// Structural well-formedness of the fulfiller graph: every index in
    /// range, every fulfiller carrying a task, every gate sane, and every
    /// errored fulfiller ceased.
    pub open spec fn wf_graph(self) -> bool {
        &&& forall|i: int|
            0 <= i < self.fulfillers@.len() ==> (#[trigger] self.fulfillers@[i]).task is Some
        &&& forall|i: int|
            0 <= i < self.fulfillers@.len() ==> (#[trigger] self.fulfillers@[i]).done.inv()
        &&& forall|i: int, k: int|
            0 <= i < self.fulfillers@.len() && 0 <= k < self.fulfillers@[i].prerequisites@.len()
                ==> (#[trigger] self.fulfillers@[i].prerequisites@[k] as int)
                < self.fulfillers@.len()
        &&& forall|i: int, k: int|
            0 <= i < self.fulfillers@.len() && 0 <= k
                < self.fulfillers@[i].children_chains@.len() ==> (
            #[trigger] self.fulfillers@[i].children_chains@[k] as int)
                < self.fulfiller_chains@.len()
        &&& forall|ci: int, k: int|
            0 <= ci < self.fulfiller_chains@.len() && 0 <= k
                < self.fulfiller_chains@[ci].chain@.len() ==> (
            #[trigger] self.fulfiller_chains@[ci].chain@[k] as int) < self.fulfillers@.len()
        &&& forall|ci: int|
            0 <= ci < self.fulfiller_chains@.len() ==> (
            #[trigger] self.fulfiller_chains@[ci]).chain@.len() >= 1
        &&& forall|i: int|
            0 <= i < self.fulfillers@.len() && (#[trigger] self.fulfillers@[i]).error
                ==> self.fulfillers@[i].cease
    }

    /// The tick accounting matches the flags: `active` counts unceased
    /// fulfillers and `nominal` counts unerrored ones.
    pub open spec fn counts_ok(self) -> bool {
        &&& self.task_completion.active() == count_unceased(self.fulfillers@, 0)
        &&& self.task_completion.nominal() == count_unerrored(self.fulfillers@, 0)
    }

    /// The fulfiller table mirrors the unloaded composition: fulfiller `i`
    /// carries the `i`-th task name, its declared accesses and entrypoint
    /// flag, and its parents resolved to indices.
    pub open spec fn mirrors(self, c: CompSpec) -> bool {
        let names = self.names(c);
        &&& self.fulfillers@.len() == names.len()
        &&& forall|i: int|
            0 <= i < names.len() ==> {
                let f = #[trigger] self.fulfillers@[i];
                let t = c.task_named(names[i]).unwrap();
                &&& f.task is Some
                &&& f.task.unwrap().name@ == names[i]
                &&& c.has_task(names[i])
                &&& f.task.unwrap().accesses@.map_values(|a: Access| (a.of@, a.mut_immut))
                    == t.accesses
                &&& f.done.is_entrypoint() == t.entrypoint
                &&& f.prerequisites@.len() == t.parents.len()
                &&& forall|k: int|
                    0 <= k < t.parents.len() ==> (#[trigger] f.prerequisites@[k] as int)
                        < names.len() && names[f.prerequisites@[k] as int] == t.parents[k]
            }
    }

    /// The crate table mirrors the unloaded composition: same crates in the
    /// same order, each with its datachunks materialized and its tasks
    /// resolved to fulfiller indices.
    pub open spec fn crates_mirror(self, c: CompSpec) -> bool {
        &&& self.crates@.len() == c.crates.len()
        &&& forall|ci: int|
            0 <= ci < c.crates.len() ==> (#[trigger] self.crates@[ci]).0@ == c.crates[ci].0
        &&& forall|ci: int|
            0 <= ci < c.crates.len() ==> (#[trigger] self.crates@[ci]).1.datachunks@.len()
                == c.crates[ci].1.datachunks.len()
        &&& forall|ci: int, di: int|
            0 <= ci < c.crates.len() && 0 <= di < c.crates[ci].1.datachunks.len() ==> {
                let d = #[trigger] self.crates@[ci].1.datachunks@[di];
                &&& d.0@ == c.crates[ci].1.datachunks[di].0
                &&& d.1 is Some
                &&& d.1.unwrap().kind_name@ == c.crates[ci].1.datachunks[di].1.kind_name
            }
        &&& forall|ci: int|
            0 <= ci < c.crates.len() ==> (#[trigger] self.crates@[ci]).1.tasks@.len() == c.crates[
                ci
            ].1.tasks.len()
        &&& forall|ci: int, ti: int|
            0 <= ci < c.crates.len() && 0 <= ti < c.crates[ci].1.tasks.len() ==> {
                let e = #[trigger] self.crates@[ci].1.tasks@[ti];
                &&& e.0@ == c.crates[ci].1.tasks[ti].0
                &&& (e.1 as int) < self.fulfillers@.len()
                &&& self.fulfillers@[e.1 as int].task is Some
                &&& self.fulfillers@[e.1 as int].task.unwrap().name@ == (
                    c.crates[ci].0,
                    c.crates[ci].1.tasks[ti].0,
                )
            }
    }

    /// The chain table carries the greedy linearizer's output: linear,
    /// disjoint chains that cover every task, with each chain's first name
    /// recorded.
    pub open spec fn chains_mirror(self, c: CompSpec) -> bool {
        let names = self.names(c);
        &&& forall|ci: int, k: int|
            0 <= ci < self.fulfiller_chains@.len() && 0 <= k
                < self.fulfiller_chains@[ci].chain@.len() ==> (
            #[trigger] self.fulfiller_chains@[ci].chain@[k] as int) < names.len()
        &&& forall|ci: int|
            0 <= ci < self.fulfiller_chains@.len() ==> (
            #[trigger] self.fulfiller_chains@[ci]).chain@.len() >= 1
        &&& forall|ci: int|
            0 <= ci < self.fulfiller_chains@.len() ==> (
            #[trigger] self.fulfiller_chains@[ci]).first_name@ == names[self.fulfiller_chains@[
                ci
            ].chain@[0] as int]
    }

    /// The wake-up back-edges: chain `ci` is registered with fulfiller `i`
    /// exactly when `i` is a prerequisite of the chain's first node.
    pub open spec fn attach_ok(self) -> bool {
        &&& forall|i: int, m: int|
            0 <= i < self.fulfillers@.len() && 0 <= m
                < self.fulfillers@[i].children_chains@.len() ==> {
                let ci = #[trigger] self.fulfillers@[i].children_chains@[m] as int;
                &&& ci < self.fulfiller_chains@.len()
                &&& exists|k: int|
                    0 <= k < self.fulfillers@[self.fulfiller_chains@[ci].chain@[0] as int].prerequisites@.len()
                        && self.fulfillers@[self.fulfiller_chains@[ci].chain@[0] as int].prerequisites@[k] as int == i
            }
        &&& forall|ci: int, k: int|
            0 <= ci < self.fulfiller_chains@.len() && 0 <= k < self.fulfillers@[self.fulfiller_chains@[
                ci
            ].chain@[0] as int].prerequisites@.len() ==> exists|m: int|
                0 <= m < self.fulfillers@[(#[trigger] self.fulfillers@[self.fulfiller_chains@[
                    ci
                ].chain@[0] as int].prerequisites@[k]) as int].children_chains@.len()
                    && self.fulfillers@[self.fulfillers@[self.fulfiller_chains@[
                    ci
                ].chain@[0] as int].prerequisites@[k] as int].children_chains@[m] as int == ci
    }
}


/// Copy an access list; the views are preserved element for element.
fn clone_accesses(v: &Vec<Access>) -> (r: Vec<Access>)
    ensures
        r@.map_values(|a: Access| (a.of@, a.mut_immut)) == v@.map_values(
            |a: Access| (a.of@, a.mut_immut),
        ),
{
    let mut r: Vec<Access> = Vec::new();
    let n: usize = v.len();
    for i in 0..n
        invariant
            n == v@.len(),
            r@.len() == i,
            forall|k: int|
                0 <= k < i ==> (#[trigger] r@[k]).of@ == v@[k].of@ && r@[k].mut_immut
                    == v@[k].mut_immut,
    {
        r.push(v[i].clone());
    }
    proof {
        assert(r@.map_values(|a: Access| (a.of@, a.mut_immut)) =~= v@.map_values(
            |a: Access| (a.of@, a.mut_immut),
        ));
    }
    r
}

/// Take the task baggage entry for the given full name out of the table.
fn take_bag_task(bag: &mut Vec<(FullTaskName, LoadedTask)>, cn: &CrateName, tn: &TaskName) -> (r:
    Option<LoadedTask>)
    ensures
        match r {
            Some(t) => bag_has_task(old(bag)@, (cn@, tn@)) && ((forall|i: int, j: int|
                0 <= i < j < old(bag)@.len() ==> old(bag)@[i].0@ != old(bag)@[j].0@) ==> t.token
                == bag_task_token(old(bag)@, (cn@, tn@))),
            None => !bag_has_task(old(bag)@, (cn@, tn@)),
        },
        forall|x: (Seq<char>, Seq<char>)|
            #[trigger] bag_has_task(final(bag)@, x) ==> bag_has_task(old(bag)@, x),
        forall|x: (Seq<char>, Seq<char>)|
            bag_has_task(old(bag)@, x) && x != (cn@, tn@) ==> #[trigger] bag_has_task(
                final(bag)@,
                x,
            ),
        (forall|i: int, j: int|
            0 <= i < j < old(bag)@.len() ==> old(bag)@[i].0@ != old(bag)@[j].0@) ==> ((forall|
            i: int,
            j: int,
        | 0 <= i < j < final(bag)@.len() ==> final(bag)@[i].0@ != final(bag)@[j].0@) && (forall|
            x: (Seq<char>, Seq<char>),
        |
            #[trigger] bag_has_task(final(bag)@, x) ==> bag_task_token(final(bag)@, x)
                == bag_task_token(old(bag)@, x)) && !bag_has_task(final(bag)@, (cn@, tn@))),
{
    let n: usize = bag.len();
    for i in 0..n
        invariant
            n == bag@.len(),
            bag@ == old(bag)@,
            forall|k: int| 0 <= k < i ==> (#[trigger] bag@[k]).0@ != (cn@, tn@),
    {
        if &bag[i].0.crate_name == cn && &bag[i].0.task_name == tn {
            let ghost pre = bag@;
            let e = bag.remove(i);
            proof {
                assert(e == pre[i as int]);
                assert(bag@ =~= pre.subrange(0, i as int) + pre.subrange(
                    i as int + 1,
                    pre.len() as int,
                ));
                lemma_bag_task_remove(pre, bag@, i as int, (cn@, tn@));
            }
            return Some(e.1);
        }
    }
    None
}

/// Relates a baggage table to itself with entry `i` removed.
proof fn lemma_bag_task_remove(
    pre: Seq<(FullTaskName, LoadedTask)>,
    post: Seq<(FullTaskName, LoadedTask)>,
    i: int,
    key: (Seq<char>, Seq<char>),
)
    requires
        0 <= i < pre.len(),
        pre[i].0@ == key,
        forall|k: int| 0 <= k < i ==> (#[trigger] pre[k]).0@ != key,
        post == pre.subrange(0, i) + pre.subrange(i + 1, pre.len() as int),
    ensures
        bag_has_task(pre, key),
        bag_task_token(pre, key) == pre[i].1.token || exists|j: int|
            0 <= j < pre.len() && j != i && pre[j].0@ == key,
        forall|x: (Seq<char>, Seq<char>)|
            #[trigger] bag_has_task(post, x) ==> bag_has_task(pre, x),
        forall|x: (Seq<char>, Seq<char>)|
            bag_has_task(pre, x) && x != key ==> #[trigger] bag_has_task(post, x),
        (forall|a: int, b: int| 0 <= a < b < pre.len() ==> pre[a].0@ != pre[b].0@) ==> ((forall|
            a: int,
            b: int,
        | 0 <= a < b < post.len() ==> post[a].0@ != post[b].0@) && (forall|
            x: (Seq<char>, Seq<char>),
        | #[trigger] bag_has_task(post, x) ==> bag_task_token(post, x) == bag_task_token(pre, x))
            && bag_task_token(pre, key) == pre[i].1.token && !bag_has_task(post, key)),
{
    assert forall|x: (Seq<char>, Seq<char>)| #[trigger] bag_has_task(post, x) implies bag_has_task(
        pre,
        x,
    ) by {
        let j = choose|j: int| 0 <= j < post.len() && post[j].0@ == x;
        if j < i {
            assert(post[j] == pre[j]);
        } else {
            assert(post[j] == pre[j + 1]);
        }
    }
    assert forall|x: (Seq<char>, Seq<char>)| bag_has_task(pre, x) && x != key implies
        #[trigger] bag_has_task(post, x) by {
        let j = choose|j: int| 0 <= j < pre.len() && pre[j].0@ == x;
        if j < i {
            assert(post[j] == pre[j]);
        } else {
            assert(j > i);
            assert(post[j - 1] == pre[j]);
        }
    }
    if forall|a: int, b: int| 0 <= a < b < pre.len() ==> (#[trigger] pre[a]).0@ != (#[trigger] pre[b]).0@ {
        assert forall|a: int, b: int| 0 <= a < b < post.len() implies (#[trigger] post[a]).0@
            != (#[trigger] post[b]).0@ by {
            let a0 = if a < i { a } else { a + 1 };
            let b0 = if b < i { b } else { b + 1 };
            assert(post[a] == pre[a0] && post[b] == pre[b0]);
        }
        let jw = choose|jw: int| 0 <= jw < pre.len() && pre[jw].0@ == key;
        assert(jw == i);
        assert(bag_task_token(pre, key) == pre[i].1.token);
        if bag_has_task(post, key) {
            let jv = choose|jv: int| 0 <= jv < post.len() && post[jv].0@ == key;
            let jv0 = if jv < i { jv } else { jv + 1 };
            assert(post[jv] == pre[jv0]);
            assert(pre[jv0].0@ == key && jv0 != i);
            assert(false);
        }
        assert forall|x: (Seq<char>, Seq<char>)| #[trigger] bag_has_task(post, x) implies
            bag_task_token(post, x) == bag_task_token(pre, x) by {
            let j = choose|j: int| 0 <= j < post.len() && post[j].0@ == x;
            let j0 = if j < i { j } else { j + 1 };
            assert(post[j] == pre[j0]);
            let ja = choose|ja: int| 0 <= ja < post.len() && post[ja].0@ == x;
            let jb = choose|jb: int| 0 <= jb < pre.len() && pre[jb].0@ == x;
            let ja0 = if ja < i { ja } else { ja + 1 };
            assert(post[ja] == pre[ja0]);
            assert(pre[ja0].0@ == x && pre[jb].0@ == x);
            assert(ja0 == jb);
        }
    }
}

/// Take the datachunk baggage entry for the given full name out of the
/// table.
fn take_bag_dc(
    bag: &mut Vec<(FullDatachunkName, LoadedDatachunk)>,
    cn: &CrateName,
    dn: &DatachunkName,
) -> (r: Option<LoadedDatachunk>)
    ensures
        match r {
            Some(d) => bag_has_dc(old(bag)@, (cn@, dn@)) && ((forall|i: int, j: int|
                0 <= i < j < old(bag)@.len() ==> old(bag)@[i].0@ != old(bag)@[j].0@) ==> d.token
                == bag_dc_token(old(bag)@, (cn@, dn@))),
            None => !bag_has_dc(old(bag)@, (cn@, dn@)),
        },
        forall|x: (Seq<char>, Seq<char>)|
            #[trigger] bag_has_dc(final(bag)@, x) ==> bag_has_dc(old(bag)@, x),
        forall|x: (Seq<char>, Seq<char>)|
            bag_has_dc(old(bag)@, x) && x != (cn@, dn@) ==> #[trigger] bag_has_dc(final(bag)@, x),
        (forall|i: int, j: int|
            0 <= i < j < old(bag)@.len() ==> old(bag)@[i].0@ != old(bag)@[j].0@) ==> ((forall|
            i: int,
            j: int,
        | 0 <= i < j < final(bag)@.len() ==> final(bag)@[i].0@ != final(bag)@[j].0@) && (forall|
            x: (Seq<char>, Seq<char>),
        |
            #[trigger] bag_has_dc(final(bag)@, x) ==> bag_dc_token(final(bag)@, x) == bag_dc_token(
                old(bag)@,
                x,
            )) && !bag_has_dc(final(bag)@, (cn@, dn@))),
{
    let n: usize = bag.len();
    for i in 0..n
        invariant
            n == bag@.len(),
            bag@ == old(bag)@,
            forall|k: int| 0 <= k < i ==> (#[trigger] bag@[k]).0@ != (cn@, dn@),
    {
        if &bag[i].0.crate_name == cn && &bag[i].0.datachunk_name == dn {
            let ghost pre = bag@;
            let e = bag.remove(i);
            proof {
                assert(e == pre[i as int]);
                assert(bag@ =~= pre.subrange(0, i as int) + pre.subrange(
                    i as int + 1,
                    pre.len() as int,
                ));
                lemma_bag_dc_remove(pre, bag@, i as int, (cn@, dn@));
            }
            return Some(e.1);
        }
    }
    None
}

/// Relates a datachunk baggage table to itself with entry `i` removed.
proof fn lemma_bag_dc_remove(
    pre: Seq<(FullDatachunkName, LoadedDatachunk)>,
    post: Seq<(FullDatachunkName, LoadedDatachunk)>,
    i: int,
    key: (Seq<char>, Seq<char>),
)
    requires
        0 <= i < pre.len(),
        pre[i].0@ == key,
        forall|k: int| 0 <= k < i ==> (#[trigger] pre[k]).0@ != key,
        post == pre.subrange(0, i) + pre.subrange(i + 1, pre.len() as int),
    ensures
        bag_has_dc(pre, key),
        forall|x: (Seq<char>, Seq<char>)| #[trigger] bag_has_dc(post, x) ==> bag_has_dc(pre, x),
        forall|x: (Seq<char>, Seq<char>)|
            bag_has_dc(pre, x) && x != key ==> #[trigger] bag_has_dc(post, x),
        (forall|a: int, b: int| 0 <= a < b < pre.len() ==> pre[a].0@ != pre[b].0@) ==> ((forall|
            a: int,
            b: int,
        | 0 <= a < b < post.len() ==> post[a].0@ != post[b].0@) && (forall|
            x: (Seq<char>, Seq<char>),
        | #[trigger] bag_has_dc(post, x) ==> bag_dc_token(post, x) == bag_dc_token(pre, x))
            && bag_dc_token(pre, key) == pre[i].1.token && !bag_has_dc(post, key)),
{
    assert forall|x: (Seq<char>, Seq<char>)| #[trigger] bag_has_dc(post, x) implies bag_has_dc(
        pre,
        x,
    ) by {
        let j = choose|j: int| 0 <= j < post.len() && post[j].0@ == x;
        if j < i {
            assert(post[j] == pre[j]);
        } else {
            assert(post[j] == pre[j + 1]);
        }
    }
    assert forall|x: (Seq<char>, Seq<char>)| bag_has_dc(pre, x) && x != key implies
        #[trigger] bag_has_dc(post, x) by {
        let j = choose|j: int| 0 <= j < pre.len() && pre[j].0@ == x;
        if j < i {
            assert(post[j] == pre[j]);
        } else {
            assert(j > i);
            assert(post[j - 1] == pre[j]);
        }
    }
    if forall|a: int, b: int| 0 <= a < b < pre.len() ==> (#[trigger] pre[a]).0@ != (#[trigger] pre[b]).0@ {
        assert forall|a: int, b: int| 0 <= a < b < post.len() implies (#[trigger] post[a]).0@
            != (#[trigger] post[b]).0@ by {
            let a0 = if a < i { a } else { a + 1 };
            let b0 = if b < i { b } else { b + 1 };
            assert(post[a] == pre[a0] && post[b] == pre[b0]);
        }
        let jw = choose|jw: int| 0 <= jw < pre.len() && pre[jw].0@ == key;
        assert(jw == i);
        if bag_has_dc(post, key) {
            let jv = choose|jv: int| 0 <= jv < post.len() && post[jv].0@ == key;
            let jv0 = if jv < i { jv } else { jv + 1 };
            assert(post[jv] == pre[jv0]);
            assert(pre[jv0].0@ == key && jv0 != i);
            assert(false);
        }
        assert forall|x: (Seq<char>, Seq<char>)| #[trigger] bag_has_dc(post, x) implies
            bag_dc_token(post, x) == bag_dc_token(pre, x) by {
            let ja = choose|ja: int| 0 <= ja < post.len() && post[ja].0@ == x;
            let jb = choose|jb: int| 0 <= jb < pre.len() && pre[jb].0@ == x;
            let ja0 = if ja < i { ja } else { ja + 1 };
            assert(post[ja] == pre[ja0]);
            assert(pre[ja0].0@ == x && pre[jb].0@ == x);
            assert(ja0 == jb);
        }
    }
}


/// Has the datachunk key `x` already been consumed by the build walk, which
/// stands at crate `ci`, datachunk `di`?
pub open spec fn dc_key_built(c: CompSpec, ci: int, di: int, x: (Seq<char>, Seq<char>)) -> bool {
    ||| exists|ci2: int|
        0 <= ci2 < ci && x.0 == c.crates[ci2].0 && crate_has_dc_key(#[trigger] c.crates[ci2].1, x.1)
    ||| (0 <= ci < c.crates.len() && x.0 == c.crates[ci].0 && exists|di2: int|
        0 <= di2 < di && c.crates[ci].1.datachunks[di2].0 == x.1)
}

pub open spec fn crate_has_dc_key(cr: crate::unloaded::CrateSpec, k: Seq<char>) -> bool {
    exists|di: int| 0 <= di < cr.datachunks.len() && cr.datachunks[di].0 == k
}

/// Has the task key `x` already been consumed by the build walk, which
/// stands at crate `ci`, task `ti`?
pub open spec fn task_key_built(c: CompSpec, ci: int, ti: int, x: (Seq<char>, Seq<char>)) -> bool {
    ||| exists|ci2: int|
        0 <= ci2 < ci && x.0 == c.crates[ci2].0 && crate_has_task_key(
            #[trigger] c.crates[ci2].1,
            x.1,
        )
    ||| (0 <= ci < c.crates.len() && x.0 == c.crates[ci].0 && exists|ti2: int|
        0 <= ti2 < ti && c.crates[ci].1.tasks[ti2].0 == x.1)
}

pub open spec fn crate_has_task_key(cr: crate::unloaded::CrateSpec, k: Seq<char>) -> bool {
    exists|ti: int| 0 <= ti < cr.tasks.len() && cr.tasks[ti].0 == k
}

proof fn lemma_comp_dc_count_nonneg(crates: Seq<(Seq<char>, crate::unloaded::CrateSpec)>, ci: int)
    ensures
        comp_dc_count(crates, ci) >= 0,
    decreases crates.len() - ci,
{
    if ci < crates.len() {
        lemma_comp_dc_count_nonneg(crates, ci + 1);
    }
}

/// What `build_tables` guarantees of fulfiller `i`: a fresh, unwired node
/// carrying task `names[i]`, with its identity token taken from the baggage
/// where the baggage has the name and freshly allocated otherwise.
pub open spec fn built_fulfiller_at(
    c: CompSpec,
    names: Seq<FullTaskName>,
    fs: Seq<Fulfiller>,
    bt: Seq<(FullTaskName, LoadedTask)>,
    start: u64,
    bound: u64,
    i: int,
) -> bool {
    let f = fs[i];
    let x = names[i]@;
    &&& c.has_task(x)
    &&& f.task is Some
    &&& f.task.unwrap().name@ == x
    &&& f.task.unwrap().accesses@.map_values(|a: Access| (a.of@, a.mut_immut)) == c.task_named(
        x,
    ).unwrap().accesses
    &&& f.done.state() == 0
    &&& f.done.greatest_prereq() == 0
    &&& f.done.is_entrypoint() == c.task_named(x).unwrap().entrypoint
    &&& !f.cease
    &&& !f.error
    &&& f.prerequisites@.len() == 0
    &&& f.children_chains@.len() == 0
    &&& if bag_has_task(bt, x) {
        f.task.unwrap().token == bag_task_token(bt, x)
    } else {
        start <= f.task.unwrap().token < bound
    }
}

/// What `build_tables` guarantees of the crate table.
pub open spec fn crates_table_ok(
    c: CompSpec,
    tab: Seq<(CrateName, LoadedCrate)>,
    names: Seq<FullTaskName>,
    bd: Seq<(FullDatachunkName, LoadedDatachunk)>,
    start: u64,
    bound: u64,
) -> bool {
    &&& tab.len() == c.crates.len()
    &&& forall|ci: int|
        0 <= ci < c.crates.len() ==> (#[trigger] tab[ci]).0@ == c.crates[ci].0
    &&& forall|ci: int|
        0 <= ci < c.crates.len() ==> (#[trigger] tab[ci]).1.datachunks@.len() == c.crates[
            ci
        ].1.datachunks.len()
    &&& forall|ci: int, di: int|
        0 <= ci < c.crates.len() && 0 <= di < c.crates[ci].1.datachunks.len() ==> {
            let d = #[trigger] tab[ci].1.datachunks@[di];
            &&& d.0@ == c.crates[ci].1.datachunks[di].0
            &&& d.1 is Some
            &&& d.1.unwrap().kind_name@ == c.crates[ci].1.datachunks[di].1.kind_name
            &&& if bag_has_dc(bd, (c.crates[ci].0, c.crates[ci].1.datachunks[di].0)) {
                d.1.unwrap().token == bag_dc_token(
                    bd,
                    (c.crates[ci].0, c.crates[ci].1.datachunks[di].0),
                )
            } else {
                start <= d.1.unwrap().token < bound
            }
        }
    &&& forall|ci: int|
        0 <= ci < c.crates.len() ==> (#[trigger] tab[ci]).1.tasks@.len() == c.crates[
            ci
        ].1.tasks.len()
    &&& forall|ci: int, ti: int|
        0 <= ci < c.crates.len() && 0 <= ti < c.crates[ci].1.tasks.len() ==> {
            let e = #[trigger] tab[ci].1.tasks@[ti];
            &&& e.0@ == c.crates[ci].1.tasks[ti].0
            &&& (e.1 as int) < names.len()
            &&& names[e.1 as int]@ == (c.crates[ci].0, c.crates[ci].1.tasks[ti].0)
        }
}

impl LoadedComposition {
    /// Build the fulfiller arena, the flat name list and the crate table,
    /// reusing plugin objects from the baggage wherever it carries the same
    /// full name and allocating fresh identity tokens everywhere else.
    #[verifier::rlimit(100)]
    #[verifier::spinoff_prover]
    fn build_tables(
        composition: &UnloadedComposition,
        baggage: Baggage,
        start_token: u64,
    ) -> (r: (Vec<Fulfiller>, Vec<FullTaskName>, Vec<(CrateName, LoadedCrate)>, u64))
        requires
            composition@.wf(),
            baggage_wf(baggage, start_token),
            start_token + total_objects(composition@) <= u64::MAX,
        ensures
            r.1@.map_values(|t: FullTaskName| t@) == comp_task_names(composition@.crates, 0),
            r.0@.len() == r.1@.len(),
            forall|i: int|
                0 <= i < r.0@.len() ==> built_fulfiller_at(
                    composition@,
                    r.1@,
                    r.0@,
                    baggage.tasks@,
                    start_token,
                    r.3,
                    i,
                ),
            crates_table_ok(
                composition@,
                r.2@,
                r.1@,
                baggage.datachunks@,
                start_token,
                r.3,
            ),
            start_token <= r.3,
    {
        let ghost c = composition@;
        let ghost orig_bt = baggage.tasks@;
        let ghost orig_bd = baggage.datachunks@;
        let Baggage { tasks: mut bag_tasks, datachunks: mut bag_dcs } = baggage;
        let mut fulfillers: Vec<Fulfiller> = Vec::new();
        let mut names_vec: Vec<FullTaskName> = Vec::new();
        let mut crates_tab: Vec<(CrateName, LoadedCrate)> = Vec::new();
        let mut next_token: u64 = start_token;
        let ghost mut dcb: int = 0int;
        let nc: usize = composition.crates.len();
        proof {
            assert(comp_task_names(c.crates, nc as int) =~= Seq::<(Seq<char>, Seq<char>)>::empty());
        }
        for ci in 0..nc
            invariant
                c == composition@,
                c.wf(),
                nc == composition.crates.len(),
                nc == c.crates.len(),
                start_token + total_objects(c) <= u64::MAX,
                names_vec@.map_values(|t: FullTaskName| t@) + comp_task_names(c.crates, ci as int)
                    == comp_task_names(c.crates, 0),
                fulfillers@.len() == names_vec@.len(),
                dcb + comp_dc_count(c.crates, ci as int) == comp_dc_count(c.crates, 0),
                0 <= dcb,
                start_token <= next_token,
                next_token <= start_token + names_vec@.len() + dcb,
                // task baggage bookkeeping
                forall|i: int, j: int|
                    0 <= i < j < bag_tasks@.len() ==> bag_tasks@[i].0@ != bag_tasks@[j].0@,
                forall|x: (Seq<char>, Seq<char>)|
                    #[trigger] bag_has_task(bag_tasks@, x) <==> (bag_has_task(orig_bt, x)
                        && !task_key_built(c, ci as int, 0, x)),
                forall|x: (Seq<char>, Seq<char>)|
                    #[trigger] bag_has_task(bag_tasks@, x) ==> bag_task_token(bag_tasks@, x)
                        == bag_task_token(orig_bt, x),
                // datachunk baggage bookkeeping
                forall|i: int, j: int|
                    0 <= i < j < bag_dcs@.len() ==> bag_dcs@[i].0@ != bag_dcs@[j].0@,
                forall|x: (Seq<char>, Seq<char>)|
                    #[trigger] bag_has_dc(bag_dcs@, x) <==> (bag_has_dc(orig_bd, x)
                        && !dc_key_built(c, ci as int, 0, x)),
                forall|x: (Seq<char>, Seq<char>)|
                    #[trigger] bag_has_dc(bag_dcs@, x) ==> bag_dc_token(bag_dcs@, x)
                        == bag_dc_token(orig_bd, x),
                // what is already built
                forall|i: int|
                    0 <= i < fulfillers@.len() ==> built_fulfiller_at(
                        c,
                        names_vec@,
                        fulfillers@,
                        orig_bt,
                        start_token,
                        next_token,
                        i,
                    ),
                crates_tab@.len() == ci,
                forall|ci2: int|
                    0 <= ci2 < ci ==> (#[trigger] crates_tab@[ci2]).0@ == c.crates[ci2].0,
                forall|ci2: int|
                    0 <= ci2 < ci ==> (#[trigger] crates_tab@[ci2]).1.datachunks@.len()
                        == c.crates[ci2].1.datachunks.len(),
                forall|ci2: int, di: int|
                    0 <= ci2 < ci && 0 <= di < c.crates[ci2].1.datachunks.len() ==> {
                        let d = #[trigger] crates_tab@[ci2].1.datachunks@[di];
                        &&& d.0@ == c.crates[ci2].1.datachunks[di].0
                        &&& d.1 is Some
                        &&& d.1.unwrap().kind_name@ == c.crates[ci2].1.datachunks[di].1.kind_name
                        &&& if bag_has_dc(
                            orig_bd,
                            (c.crates[ci2].0, c.crates[ci2].1.datachunks[di].0),
                        ) {
                            d.1.unwrap().token == bag_dc_token(
                                orig_bd,
                                (c.crates[ci2].0, c.crates[ci2].1.datachunks[di].0),
                            )
                        } else {
                            start_token <= d.1.unwrap().token < next_token
                        }
                    },
                forall|ci2: int|
                    0 <= ci2 < ci ==> (#[trigger] crates_tab@[ci2]).1.tasks@.len() == c.crates[
                        ci2
                    ].1.tasks.len(),
                forall|ci2: int, ti: int|
                    0 <= ci2 < ci && 0 <= ti < c.crates[ci2].1.tasks.len() ==> {
                        let e = #[trigger] crates_tab@[ci2].1.tasks@[ti];
                        &&& e.0@ == c.crates[ci2].1.tasks[ti].0
                        &&& (e.1 as int) < names_vec@.len()
                        &&& names_vec@[e.1 as int]@ == (c.crates[ci2].0, c.crates[ci2].1.tasks[
                            ti
                        ].0)
                    },
        {
            let cr: &crate::unloaded::UnloadedCrate = &composition.crates[ci].1;
            let cn: &CrateName = &composition.crates[ci].0;
            assert(c.crates[ci as int] == (cn@, cr@));
            let ghost body_next0 = next_token;
            let ghost tab_pre = crates_tab@;
            let ghost names_pre0 = names_vec@;
            proof {
                assert forall|ci2: int, ti: int|
                    0 <= ci2 < ci && 0 <= ti < c.crates[ci2].1.tasks.len() implies {
                    let e = #[trigger] tab_pre[ci2].1.tasks@[ti];
                    &&& e.0@ == c.crates[ci2].1.tasks[ti].0
                    &&& (e.1 as int) < names_pre0.len()
                    &&& names_pre0[e.1 as int]@ == (c.crates[ci2].0, c.crates[ci2].1.tasks[ti].0)
                } by {
                    assert(crates_tab@[ci2].1.tasks@[ti] == tab_pre[ci2].1.tasks@[ti]);
                }
            }
            let mut dc_tab: Vec<(DatachunkName, Option<LoadedDatachunk>)> = Vec::new();
            let nd: usize = cr.datachunks.len();
            for di in 0..nd
                invariant
                    c == composition@,
                    c.wf(),
                    ci < nc,
                    nc == c.crates.len(),
                    c.crates[ci as int] == (cn@, cr@),
                    nd == cr.datachunks.len(),
                    start_token + total_objects(c) <= u64::MAX,
                    names_vec@.map_values(|t: FullTaskName| t@) + comp_task_names(
                        c.crates,
                        ci as int,
                    ) == comp_task_names(c.crates, 0),
                    fulfillers@.len() == names_vec@.len(),
                    dcb + (nd - di) + comp_dc_count(c.crates, ci as int + 1) == comp_dc_count(
                        c.crates,
                        0,
                    ),
                    0 <= dcb,
                    start_token <= next_token,
                    next_token <= start_token + names_vec@.len() + dcb,
                    forall|i: int, j: int|
                        0 <= i < j < bag_dcs@.len() ==> bag_dcs@[i].0@ != bag_dcs@[j].0@,
                    forall|x: (Seq<char>, Seq<char>)|
                        #[trigger] bag_has_dc(bag_dcs@, x) <==> (bag_has_dc(orig_bd, x)
                            && !dc_key_built(c, ci as int, di as int, x)),
                    forall|x: (Seq<char>, Seq<char>)|
                        #[trigger] bag_has_dc(bag_dcs@, x) ==> bag_dc_token(bag_dcs@, x)
                            == bag_dc_token(orig_bd, x),
                    forall|i: int, j: int|
                        0 <= i < j < bag_tasks@.len() ==> bag_tasks@[i].0@ != bag_tasks@[j].0@,
                    forall|x: (Seq<char>, Seq<char>)|
                        #[trigger] bag_has_task(bag_tasks@, x) <==> (bag_has_task(orig_bt, x)
                            && !task_key_built(c, ci as int, 0, x)),
                    forall|x: (Seq<char>, Seq<char>)|
                        #[trigger] bag_has_task(bag_tasks@, x) ==> bag_task_token(bag_tasks@, x)
                            == bag_task_token(orig_bt, x),
                    forall|i: int|
                        0 <= i < fulfillers@.len() ==> built_fulfiller_at(
                            c,
                            names_vec@,
                            fulfillers@,
                            orig_bt,
                            start_token,
                            next_token,
                            i,
                        ),
                    body_next0 <= next_token,
                    crates_tab@ == tab_pre,
                    names_vec@ == names_pre0,
                    forall|ci2: int, ti2: int|
                        0 <= ci2 < ci && 0 <= ti2 < c.crates[ci2].1.tasks.len() ==> {
                            let e = #[trigger] tab_pre[ci2].1.tasks@[ti2];
                            &&& e.0@ == c.crates[ci2].1.tasks[ti2].0
                            &&& (e.1 as int) < names_pre0.len()
                            &&& names_pre0[e.1 as int]@ == (c.crates[ci2].0, c.crates[
                                ci2
                            ].1.tasks[ti2].0)
                        },
                    dc_tab@.len() == di,
                    forall|di2: int|
                        0 <= di2 < di ==> {
                            let d = #[trigger] dc_tab@[di2];
                            &&& d.0@ == c.crates[ci as int].1.datachunks[di2].0
                            &&& d.1 is Some
                            &&& d.1.unwrap().kind_name@ == c.crates[ci as int].1.datachunks[
                                di2
                            ].1.kind_name
                            &&& if bag_has_dc(
                                orig_bd,
                                (c.crates[ci as int].0, c.crates[ci as int].1.datachunks[di2].0),
                            ) {
                                d.1.unwrap().token == bag_dc_token(
                                    orig_bd,
                                    (
                                        c.crates[ci as int].0,
                                        c.crates[ci as int].1.datachunks[di2].0,
                                    ),
                                )
                            } else {
                                start_token <= d.1.unwrap().token < next_token
                            }
                        },
            {
                let dn: &DatachunkName = &cr.datachunks[di].0;
                let du: &crate::unloaded::UnloadedDatachunk = &cr.datachunks[di].1;
                assert(cr@.datachunks[di as int] == (dn@, du@));
                proof {
                    // the key of this datachunk has not been consumed yet
                    if dc_key_built(c, ci as int, di as int, (cn@, dn@)) {
                        if exists|ci2: int|
                            0 <= ci2 < ci && (cn@, dn@).0 == c.crates[ci2].0 && crate_has_dc_key(
                                #[trigger] c.crates[ci2].1,
                                dn@,
                            ) {
                            let ci2 = choose|ci2: int|
                                0 <= ci2 < ci && (cn@, dn@).0 == c.crates[ci2].0
                                    && crate_has_dc_key(#[trigger] c.crates[ci2].1, dn@);
                            assert(c.crates[ci2].0 == c.crates[ci as int].0);
                            assert(false);
                        } else {
                            let di2 = choose|di2: int|
                                0 <= di2 < di && c.crates[ci as int].1.datachunks[di2].0 == dn@;
                            assert(false);
                        }
                    }
                }
                let ghost bd_pre = bag_dcs@;
                let ghost pre_next = next_token;
                let taken = take_bag_dc(&mut bag_dcs, cn, dn);
                let dc: LoadedDatachunk = match taken {
                    Some(d) => LoadedDatachunk::new(du.kind_name.clone(), d.token),
                    None => {
                        proof {
                            lemma_comp_dc_count_nonneg(c.crates, ci as int + 1);
                        }
                        assert(next_token < u64::MAX);
                        let tok = next_token;
                        next_token = next_token + 1;
                        LoadedDatachunk::new(du.kind_name.clone(), tok)
                    },
                };
                proof {
                    if bag_has_dc(orig_bd, (cn@, dn@)) {
                        assert(bag_has_dc(bd_pre, (cn@, dn@)));
                        assert(dc.token == bag_dc_token(orig_bd, (cn@, dn@)));
                    } else {
                        assert(!bag_has_dc(bd_pre, (cn@, dn@)));
                        assert(start_token <= dc.token < next_token);
                    }
                }
                let ghost pre_dc_tab = dc_tab@;
                let ghost dcg = dc;
                dc_tab.push((dn.clone(), Some(dc)));
                proof {
                    dcb = dcb + 1;
                    assert forall|di2: int| 0 <= di2 < dc_tab@.len() implies {
                        let d = #[trigger] dc_tab@[di2];
                        &&& d.0@ == c.crates[ci as int].1.datachunks[di2].0
                        &&& d.1 is Some
                        &&& d.1.unwrap().kind_name@ == c.crates[ci as int].1.datachunks[
                            di2
                        ].1.kind_name
                        &&& if bag_has_dc(
                            orig_bd,
                            (c.crates[ci as int].0, c.crates[ci as int].1.datachunks[di2].0),
                        ) {
                            d.1.unwrap().token == bag_dc_token(
                                orig_bd,
                                (c.crates[ci as int].0, c.crates[ci as int].1.datachunks[di2].0),
                            )
                        } else {
                            start_token <= d.1.unwrap().token < next_token
                        }
                    } by {
                        if di2 < pre_dc_tab.len() {
                            assert(dc_tab@[di2] == pre_dc_tab[di2]);
                        } else {
                            assert(dc_tab@[di2].1 == Some(dcg));
                        }
                    }
                    assert forall|i: int| 0 <= i < fulfillers@.len() implies built_fulfiller_at(
                        c,
                        names_vec@,
                        fulfillers@,
                        orig_bt,
                        start_token,
                        next_token,
                        i,
                    ) by {
                        assert(built_fulfiller_at(
                            c,
                            names_vec@,
                            fulfillers@,
                            orig_bt,
                            start_token,
                            pre_next,
                            i,
                        ));
                    }
                    assert forall|x: (Seq<char>, Seq<char>)| #[trigger] bag_has_dc(bag_dcs@, x)
                        implies (bag_has_dc(orig_bd, x) && !dc_key_built(
                        c,
                        ci as int,
                        di as int + 1,
                        x,
                    )) by {
                        assert(x != (cn@, dn@));
                        if dc_key_built(c, ci as int, di as int + 1, x) {
                            assert(dc_key_built(c, ci as int, di as int, x));
                        }
                    }
                    assert forall|x: (Seq<char>, Seq<char>)|
                        (bag_has_dc(orig_bd, x) && !dc_key_built(c, ci as int, di as int + 1, x))
                        implies #[trigger] bag_has_dc(bag_dcs@, x) by {
                        assert(!dc_key_built(c, ci as int, di as int, x));
                        assert(x != (cn@, dn@));
                    }
                }
            }
            let ghost dc_next = next_token;
            let mut task_tab: Vec<(TaskName, usize)> = Vec::new();
            let nt: usize = cr.tasks.len();
            proof {
                assert(dcb + comp_dc_count(c.crates, ci as int + 1) == comp_dc_count(c.crates, 0));
            }
            for ti in 0..nt
                invariant
                    c == composition@,
                    c.wf(),
                    ci < nc,
                    nc == c.crates.len(),
                    c.crates[ci as int] == (cn@, cr@),
                    nt == cr.tasks.len(),
                    start_token + total_objects(c) <= u64::MAX,
                    names_vec@.map_values(|t: FullTaskName| t@) + crate::unloaded::crate_task_names(
                        cn@,
                        cr@.tasks,
                        ti as int,
                    ) + comp_task_names(c.crates, ci as int + 1) == comp_task_names(c.crates, 0),
                    fulfillers@.len() == names_vec@.len(),
                    dcb + comp_dc_count(c.crates, ci as int + 1) == comp_dc_count(c.crates, 0),
                    0 <= dcb,
                    start_token <= next_token,
                    next_token <= start_token + names_vec@.len() + dcb,
                    forall|i: int, j: int|
                        0 <= i < j < bag_tasks@.len() ==> bag_tasks@[i].0@ != bag_tasks@[j].0@,
                    forall|x: (Seq<char>, Seq<char>)|
                        #[trigger] bag_has_task(bag_tasks@, x) <==> (bag_has_task(orig_bt, x)
                            && !task_key_built(c, ci as int, ti as int, x)),
                    forall|x: (Seq<char>, Seq<char>)|
                        #[trigger] bag_has_task(bag_tasks@, x) ==> bag_task_token(bag_tasks@, x)
                            == bag_task_token(orig_bt, x),
                    forall|i: int, j: int|
                        0 <= i < j < bag_dcs@.len() ==> bag_dcs@[i].0@ != bag_dcs@[j].0@,
                    forall|x: (Seq<char>, Seq<char>)|
                        #[trigger] bag_has_dc(bag_dcs@, x) <==> (bag_has_dc(orig_bd, x)
                            && !dc_key_built(c, ci as int + 1, 0, x)),
                    forall|x: (Seq<char>, Seq<char>)|
                        #[trigger] bag_has_dc(bag_dcs@, x) ==> bag_dc_token(bag_dcs@, x)
                            == bag_dc_token(orig_bd, x),
                    forall|i: int|
                        0 <= i < fulfillers@.len() ==> built_fulfiller_at(
                            c,
                            names_vec@,
                            fulfillers@,
                            orig_bt,
                            start_token,
                            next_token,
                            i,
                        ),
                    body_next0 <= next_token,
                    crates_tab@ == tab_pre,
                    names_pre0.len() <= names_vec@.len(),
                    forall|k: int| 0 <= k < names_pre0.len() ==> names_vec@[k] == names_pre0[k],
                    forall|ci2: int, ti2: int|
                        0 <= ci2 < ci && 0 <= ti2 < c.crates[ci2].1.tasks.len() ==> {
                            let e = #[trigger] tab_pre[ci2].1.tasks@[ti2];
                            &&& e.0@ == c.crates[ci2].1.tasks[ti2].0
                            &&& (e.1 as int) < names_pre0.len()
                            &&& names_pre0[e.1 as int]@ == (c.crates[ci2].0, c.crates[
                                ci2
                            ].1.tasks[ti2].0)
                        },
                    dc_next <= next_token,
                    nd == dc_tab@.len(),
                    forall|di2: int|
                        0 <= di2 < nd ==> {
                            let d = #[trigger] dc_tab@[di2];
                            &&& d.0@ == c.crates[ci as int].1.datachunks[di2].0
                            &&& d.1 is Some
                            &&& d.1.unwrap().kind_name@ == c.crates[ci as int].1.datachunks[
                                di2
                            ].1.kind_name
                            &&& if bag_has_dc(
                                orig_bd,
                                (c.crates[ci as int].0, c.crates[ci as int].1.datachunks[di2].0),
                            ) {
                                d.1.unwrap().token == bag_dc_token(
                                    orig_bd,
                                    (
                                        c.crates[ci as int].0,
                                        c.crates[ci as int].1.datachunks[di2].0,
                                    ),
                                )
                            } else {
                                start_token <= d.1.unwrap().token < dc_next
                            }
                        },
                    task_tab@.len() == ti,
                    forall|ti2: int|
                        0 <= ti2 < ti ==> {
                            let e = #[trigger] task_tab@[ti2];
                            &&& e.0@ == c.crates[ci as int].1.tasks[ti2].0
                            &&& (e.1 as int) < names_vec@.len()
                            &&& names_vec@[e.1 as int]@ == (
                                c.crates[ci as int].0,
                                c.crates[ci as int].1.tasks[ti2].0,
                            )
                        },
            {
                let tn: &TaskName = &cr.tasks[ti].0;
                let tu: &crate::unloaded::UnloadedTask = &cr.tasks[ti].1;
                assert(cr@.tasks[ti as int] == (tn@, tu@));
                proof {
                    if task_key_built(c, ci as int, ti as int, (cn@, tn@)) {
                        if exists|ci2: int|
                            0 <= ci2 < ci && (cn@, tn@).0 == c.crates[ci2].0
                                && crate_has_task_key(#[trigger] c.crates[ci2].1, tn@) {
                            let ci2 = choose|ci2: int|
                                0 <= ci2 < ci && (cn@, tn@).0 == c.crates[ci2].0
                                    && crate_has_task_key(#[trigger] c.crates[ci2].1, tn@);
                            assert(c.crates[ci2].0 == c.crates[ci as int].0);
                            assert(false);
                        } else {
                            let ti2 = choose|ti2: int|
                                0 <= ti2 < ti && c.crates[ci as int].1.tasks[ti2].0 == tn@;
                            assert(false);
                        }
                    }
                    crate::validator::lemma_assoc_unique_index(c.crates, ci as int);
                    crate::validator::lemma_assoc_unique_index(c.crates[ci as int].1.tasks, ti as int);
                    assert(c.task_named((cn@, tn@)) == Some(tu@));
                }
                let ghost bt_pre = bag_tasks@;
                let ghost pre_next = next_token;
                let taken = take_bag_task(&mut bag_tasks, cn, tn);
                let full = FullTaskName { crate_name: cn.clone(), task_name: tn.clone() };
                let accesses = clone_accesses(&tu.accesses);
                let lt: LoadedTask = match taken {
                    Some(t) => LoadedTask::new(full.clone(), accesses, t.token),
                    None => {
                        proof {
                            lemma_comp_dc_count_nonneg(c.crates, ci as int + 1);
                            assert(crate::unloaded::crate_task_names(cn@, cr@.tasks, ti as int)
                                == seq![(cn@, tn@)] + crate::unloaded::crate_task_names(
                                cn@,
                                cr@.tasks,
                                ti as int + 1,
                            ));
                        }
                        assert(next_token < u64::MAX);
                        let tok = next_token;
                        next_token = next_token + 1;
                        LoadedTask::new(full.clone(), accesses, tok)
                    },
                };
                proof {
                    if bag_has_task(orig_bt, (cn@, tn@)) {
                        assert(bag_has_task(bt_pre, (cn@, tn@)));
                        assert(lt.token == bag_task_token(orig_bt, (cn@, tn@)));
                    } else {
                        assert(!bag_has_task(bt_pre, (cn@, tn@)));
                        assert(start_token <= lt.token < next_token);
                    }
                }
                let idx = fulfillers.len();
                let ghost pre_names = names_vec@;
                let ghost pre_fs = fulfillers@;
                fulfillers.push(
                    Fulfiller {
                        cease: false,
                        error: false,
                        children_chains: Vec::new(),
                        done: Ready::new(tu.entrypoint),
                        prerequisites: Vec::new(),
                        task: Some(lt),
                    },
                );
                names_vec.push(full);
                task_tab.push((tn.clone(), idx));
                proof {
                    let f = |t: FullTaskName| t@;
                    assert(names_vec@.map_values(f) =~= pre_names.map_values(f).push((cn@, tn@)));
                    assert(crate::unloaded::crate_task_names(cn@, cr@.tasks, ti as int) == seq![(cn@, tn@)]
                        + crate::unloaded::crate_task_names(cn@, cr@.tasks, ti as int + 1));
                    assert(names_vec@.map_values(f) + crate::unloaded::crate_task_names(
                        cn@,
                        cr@.tasks,
                        ti as int + 1,
                    ) =~= pre_names.map_values(f) + crate::unloaded::crate_task_names(
                        cn@,
                        cr@.tasks,
                        ti as int,
                    ));
                    assert forall|i: int| 0 <= i < fulfillers@.len() implies built_fulfiller_at(
                        c,
                        names_vec@,
                        fulfillers@,
                        orig_bt,
                        start_token,
                        next_token,
                        i,
                    ) by {
                        if i < pre_fs.len() {
                            assert(fulfillers@[i] == pre_fs[i]);
                            assert(names_vec@[i] == pre_names[i]);
                            assert(built_fulfiller_at(
                                c,
                                pre_names,
                                pre_fs,
                                orig_bt,
                                start_token,
                                pre_next,
                                i,
                            ));
                            assert(built_fulfiller_at(
                                c,
                                pre_names,
                                pre_fs,
                                orig_bt,
                                start_token,
                                next_token,
                                i,
                            ));
                        } else {
                            assert(names_vec@[i]@ == (cn@, tn@));
                            assert(fulfillers@[i].task.unwrap().token == lt.token);
                        }
                    }
                    assert forall|x: (Seq<char>, Seq<char>)| #[trigger] bag_has_task(
                        bag_tasks@,
                        x,
                    ) implies (bag_has_task(orig_bt, x) && !task_key_built(
                        c,
                        ci as int,
                        ti as int + 1,
                        x,
                    )) by {
                        assert(x != (cn@, tn@));
                        if task_key_built(c, ci as int, ti as int + 1, x) {
                            assert(task_key_built(c, ci as int, ti as int, x));
                        }
                    }
                    assert forall|x: (Seq<char>, Seq<char>)|
                        (bag_has_task(orig_bt, x) && !task_key_built(
                            c,
                            ci as int,
                            ti as int + 1,
                            x,
                        )) implies #[trigger] bag_has_task(bag_tasks@, x) by {
                        assert(!task_key_built(c, ci as int, ti as int, x));
                        assert(x != (cn@, tn@));
                    }
                }
            }
            let ghost g_dc_tab = dc_tab@;
            let ghost g_task_tab = task_tab@;
            crates_tab.push((cn.clone(), LoadedCrate { datachunks: dc_tab, tasks: task_tab }));
            proof {
                assert(crates_tab@[ci as int].1.datachunks@ == g_dc_tab);
                assert(crates_tab@[ci as int].1.tasks@ == g_task_tab);
                assert forall|ci2: int, di: int|
                    0 <= ci2 < ci + 1 && 0 <= di < c.crates[ci2].1.datachunks.len() implies {
                    let d = #[trigger] crates_tab@[ci2].1.datachunks@[di];
                    &&& d.0@ == c.crates[ci2].1.datachunks[di].0
                    &&& d.1 is Some
                    &&& d.1.unwrap().kind_name@ == c.crates[ci2].1.datachunks[di].1.kind_name
                    &&& if bag_has_dc(
                        orig_bd,
                        (c.crates[ci2].0, c.crates[ci2].1.datachunks[di].0),
                    ) {
                        d.1.unwrap().token == bag_dc_token(
                            orig_bd,
                            (c.crates[ci2].0, c.crates[ci2].1.datachunks[di].0),
                        )
                    } else {
                        start_token <= d.1.unwrap().token < next_token
                    }
                } by {
                    if ci2 < ci {
                        assert(crates_tab@[ci2] == tab_pre[ci2]);
                    } else {
                        assert(crates_tab@[ci2].1.datachunks@[di] == g_dc_tab[di]);
                    }
                }
                assert forall|ci2: int, ti: int|
                    0 <= ci2 < ci + 1 && 0 <= ti < c.crates[ci2].1.tasks.len() implies {
                    let e = #[trigger] crates_tab@[ci2].1.tasks@[ti];
                    &&& e.0@ == c.crates[ci2].1.tasks[ti].0
                    &&& (e.1 as int) < names_vec@.len()
                    &&& names_vec@[e.1 as int]@ == (c.crates[ci2].0, c.crates[ci2].1.tasks[ti].0)
                } by {
                    if ci2 < ci {
                        assert(crates_tab@[ci2] == tab_pre[ci2]);
                        let e = tab_pre[ci2].1.tasks@[ti];
                        assert((e.1 as int) < names_pre0.len());
                        assert(names_vec@[e.1 as int] == names_pre0[e.1 as int]);
                    } else {
                        assert(crates_tab@[ci2].1.tasks@[ti] == g_task_tab[ti]);
                    }
                }
                assert(crate::unloaded::crate_task_names(cn@, cr@.tasks, nt as int) =~= Seq::<
                    (Seq<char>, Seq<char>),
                >::empty());
                assert(names_vec@.map_values(|t: FullTaskName| t@) + comp_task_names(
                    c.crates,
                    ci as int + 1,
                ) =~= names_vec@.map_values(|t: FullTaskName| t@) + crate::unloaded::crate_task_names(
                    cn@,
                    cr@.tasks,
                    nt as int,
                ) + comp_task_names(c.crates, ci as int + 1));
                // task consumption carries over to the next crate
                assert forall|x: (Seq<char>, Seq<char>)| #[trigger] bag_has_task(bag_tasks@, x)
                    implies (bag_has_task(orig_bt, x) && !task_key_built(
                    c,
                    ci as int + 1,
                    0,
                    x,
                )) by {
                    if task_key_built(c, ci as int + 1, 0, x) {
                        let ci2 = choose|ci2: int|
                            0 <= ci2 < ci + 1 && x.0 == c.crates[ci2].0 && crate_has_task_key(
                                #[trigger] c.crates[ci2].1,
                                x.1,
                            );
                        if ci2 < ci {
                            assert(task_key_built(c, ci as int, nt as int, x));
                        } else {
                            let ti2 = choose|ti2: int|
                                0 <= ti2 < c.crates[ci2].1.tasks.len() && c.crates[
                                    ci2
                                ].1.tasks[ti2].0 == x.1;
                            assert(task_key_built(c, ci as int, nt as int, x));
                        }
                    }
                }
                assert forall|x: (Seq<char>, Seq<char>)|
                    (bag_has_task(orig_bt, x) && !task_key_built(c, ci as int + 1, 0, x)) implies
                    #[trigger] bag_has_task(bag_tasks@, x) by {
                    if task_key_built(c, ci as int, nt as int, x) {
                        if exists|ci2: int|
                            0 <= ci2 < ci && x.0 == c.crates[ci2].0 && crate_has_task_key(
                                #[trigger] c.crates[ci2].1,
                                x.1,
                            ) {
                            assert(task_key_built(c, ci as int + 1, 0, x));
                        } else {
                            let ti2 = choose|ti2: int|
                                0 <= ti2 < nt && c.crates[ci as int].1.tasks[ti2].0 == x.1;
                            assert(crate_has_task_key(c.crates[ci as int].1, x.1));
                            assert(task_key_built(c, ci as int + 1, 0, x));
                        }
                    }
                }
            }
        }
        proof {
            assert(names_vec@.map_values(|t: FullTaskName| t@) =~= comp_task_names(c.crates, 0));
        }
        (fulfillers, names_vec, crates_tab, next_token)
    }
}


/// A throwaway node used while an element of the fulfiller table is being
/// edited in place.
pub(crate) fn placeholder_fulfiller() -> Fulfiller {
    Fulfiller {
        cease: false,
        error: false,
        children_chains: Vec::new(),
        done: Ready::new(false),
        prerequisites: Vec::new(),
        task: None,
    }
}

proof fn lemma_count_unceased_all(fs: Seq<Fulfiller>, k: int)
    requires
        0 <= k <= fs.len(),
        forall|i: int| k <= i < fs.len() ==> !(#[trigger] fs[i]).cease,
    ensures
        count_unceased(fs, k) == fs.len() - k,
    decreases fs.len() - k,
{
    if k < fs.len() {
        lemma_count_unceased_all(fs, k + 1);
    }
}

proof fn lemma_count_unerrored_all(fs: Seq<Fulfiller>, k: int)
    requires
        0 <= k <= fs.len(),
        forall|i: int| k <= i < fs.len() ==> !(#[trigger] fs[i]).error,
    ensures
        count_unerrored(fs, k) == fs.len() - k,
    decreases fs.len() - k,
{
    if k < fs.len() {
        lemma_count_unerrored_all(fs, k + 1);
    }
}

impl LoadedComposition {
    /// Resolve every fulfiller's declared parents to indices into the
    /// fulfiller table.
    fn connect_fulfillers(
        fulfillers: &mut Vec<Fulfiller>,
        names: &Vec<FullTaskName>,
        composition: &UnloadedComposition,
    )
        requires
            composition@.wf(),
            names@.map_values(|t: FullTaskName| t@) == comp_task_names(composition@.crates, 0),
            old(fulfillers)@.len() == names@.len(),
        ensures
            final(fulfillers)@.len() == old(fulfillers)@.len(),
            forall|i: int|
                0 <= i < final(fulfillers)@.len() ==> {
                    let f = #[trigger] final(fulfillers)@[i];
                    let g = old(fulfillers)@[i];
                    &&& f.cease == g.cease
                    &&& f.error == g.error
                    &&& f.children_chains == g.children_chains
                    &&& f.done == g.done
                    &&& f.task == g.task
                    &&& f.prerequisites@.len() == composition@.task_named(
                        names@[i]@,
                    ).unwrap().parents.len()
                    &&& forall|k: int|
                        0 <= k < f.prerequisites@.len() ==> (
                        #[trigger] f.prerequisites@[k] as int) < names@.len()
                            && names@[f.prerequisites@[k] as int]@ == composition@.task_named(
                            names@[i]@,
                        ).unwrap().parents[k]
                },
    {
        let ghost c = composition@;
        proof {
            crate::unloaded::lemma_names_cover(c, names@);
        }
        let ghost orig = fulfillers@;
        let n: usize = fulfillers.len();
        for i in 0..n
            invariant
                c == composition@,
                c.wf(),
                n == names@.len(),
                fulfillers@.len() == n,
                crate::unloaded::covers(c, names@),
                names@.map_values(|t: FullTaskName| t@) == comp_task_names(c.crates, 0),
                forall|i2: int| i <= i2 < n ==> #[trigger] fulfillers@[i2] == orig[i2],
                forall|i2: int|
                    0 <= i2 < i ==> {
                        let f = #[trigger] fulfillers@[i2];
                        let g = orig[i2];
                        &&& f.cease == g.cease
                        &&& f.error == g.error
                        &&& f.children_chains == g.children_chains
                        &&& f.done == g.done
                        &&& f.task == g.task
                        &&& f.prerequisites@.len() == c.task_named(
                            names@[i2]@,
                        ).unwrap().parents.len()
                        &&& forall|k: int|
                            0 <= k < f.prerequisites@.len() ==> (
                            #[trigger] f.prerequisites@[k] as int) < n && names@[f.prerequisites@[
                                k
                            ] as int]@ == c.task_named(names@[i2]@).unwrap().parents[k]
                    },
        {
            let t = match composition.get_unloaded_task(&names[i]) {
                Some(v) => v,
                None => {
                    proof {
                        assert(c.has_task(names@[i as int]@));
                    }
                    return ;  // unreachable: every name is a task
                },
            };
            let np: usize = t.parents.len();
            let mut prs: Vec<usize> = Vec::new();
            for k in 0..np
                invariant
                    c == composition@,
                    c.wf(),
                    n == names@.len(),
                    crate::unloaded::covers(c, names@),
                    i < n,
                    np == t.parents.len(),
                    c.task_named(names@[i as int]@) == Some(t@),
                    prs@.len() == k,
                    forall|k2: int|
                        0 <= k2 < k ==> (#[trigger] prs@[k2] as int) < n && names@[prs@[
                            k2
                        ] as int]@ == t@.parents[k2],
            {
                let p: &FullTaskName = &t.parents[k];
                proof {
                    crate::unloaded::lemma_task_named_parents_exist(c, names@[i as int]@);
                    assert(c.has_task(c.task_named(names@[i as int]@).unwrap().parents[k as int]));
                    assert(t@.parents[k as int] == t.parents[k as int]@);
                }
                let jx = match crate::unloaded::find_task_index(names, p) {
                    Some(v) => v,
                    None => {
                        proof {
                            let w = choose|w: int| 0 <= w < names@.len() && names@[w]@ == p@;
                        }
                        return ;  // unreachable: names cover the tasks
                    },
                };
                prs.push(jx);
            }
            let mut f = placeholder_fulfiller();
            fulfillers.set_and_swap(i, &mut f);
            f.prerequisites = prs;
            fulfillers.set_and_swap(i, &mut f);
        }
    }

    /// Build the chain table: run the greedy linearizer on the names and
    /// resolve every chain element to its fulfiller index.
    fn create_fulfiller_chains(
        composition: &UnloadedComposition,
        names: &Vec<FullTaskName>,
    ) -> (chains: Vec<FulfillerChain>)
        requires
            crate::validator::validated(composition@),
            names@.map_values(|t: FullTaskName| t@) == comp_task_names(composition@.crates, 0),
        ensures
            ({
                let ns = comp_task_names(composition@.crates, 0);
                let c = composition@;
                &&& forall|ci: int|
                    0 <= ci < chains@.len() ==> (#[trigger] chains@[ci]).chain@.len() >= 1
                &&& forall|ci: int, k: int|
                    0 <= ci < chains@.len() && 0 <= k < chains@[ci].chain@.len() ==> (
                    #[trigger] chains@[ci].chain@[k] as int) < ns.len()
                &&& forall|ci: int|
                    0 <= ci < chains@.len() ==> (#[trigger] chains@[ci]).first_name@ == ns[
                        chains@[ci].chain@[0] as int
                    ]
                &&& forall|ci: int, k: int|
                    0 <= ci < chains@.len() && 0 <= k < chains@[ci].chain@.len() - 1 ==> ns[(
                    #[trigger] chains@[ci].chain@[k]) as int] == c.task_named(
                        ns[chains@[ci].chain@[k + 1] as int],
                    ).unwrap().parents[0]
                &&& forall|x: (Seq<char>, Seq<char>)|
                    #[trigger] c.has_task(x) ==> exists|ci: int, k: int|
                        0 <= ci < chains@.len() && 0 <= k < chains@[ci].chain@.len() && ns[
                            chains@[ci].chain@[k] as int
                        ] == x
                &&& forall|ci: int, k: int, c2: int, k2: int|
                    0 <= ci < chains@.len() && 0 <= k < chains@[ci].chain@.len() && 0 <= c2
                        < chains@.len() && 0 <= k2 < chains@[c2].chain@.len() && (ci != c2 || k
                        != k2) ==> ns[(#[trigger] chains@[ci].chain@[k]) as int] != ns[(
                    #[trigger] chains@[c2].chain@[k2]) as int]
            }),
    {
        let ghost c = composition@;
        let ghost ns = comp_task_names(c.crates, 0);
        proof {
            crate::unloaded::lemma_names_cover(c, names@);
            crate::validator::lemma_validated_tasks_have_parents(c);
        }
        let name_chains = composition.chain_name_lists();
        let mut chains: Vec<FulfillerChain> = Vec::new();
        let nch: usize = name_chains.len();
        for ci in 0..nch
            invariant
                c == composition@,
                ns == comp_task_names(c.crates, 0),
                names@.map_values(|t: FullTaskName| t@) == ns,
                crate::unloaded::covers(c, names@),
                nch == name_chains@.len(),
                chains_linear(c, name_chains@),
                chains_disjoint(name_chains@),
                forall|x: (Seq<char>, Seq<char>)|
                    #[trigger] c.has_task(x) ==> in_chains(name_chains@, x),
                chains@.len() == ci,
                forall|ci2: int|
                    0 <= ci2 < ci ==> (#[trigger] chains@[ci2]).chain@.len() == name_chains@[
                        ci2
                    ]@.len(),
                forall|ci2: int, k: int|
                    0 <= ci2 < ci && 0 <= k < chains@[ci2].chain@.len() ==> (
                    #[trigger] chains@[ci2].chain@[k] as int) < ns.len() && ns[chains@[
                        ci2
                    ].chain@[k] as int] == name_chains@[ci2]@[k]@,
                forall|ci2: int|
                    0 <= ci2 < ci ==> (#[trigger] chains@[ci2]).first_name@ == name_chains@[
                        ci2
                    ]@[0]@,
        {
            let nk: usize = name_chains[ci].len();
            let mut chain_idx: Vec<usize> = Vec::new();
            assert(nk >= 1);
            for k in 0..nk
                invariant
                    c == composition@,
                    ns == comp_task_names(c.crates, 0),
                    names@.map_values(|t: FullTaskName| t@) == ns,
                    crate::unloaded::covers(c, names@),
                    ci < nch,
                    nch == name_chains@.len(),
                    nk == name_chains@[ci as int]@.len(),
                    chains_linear(c, name_chains@),
                    chain_idx@.len() == k,
                    forall|k2: int|
                        0 <= k2 < k ==> (#[trigger] chain_idx@[k2] as int) < ns.len() && ns[
                            chain_idx@[k2] as int
                        ] == name_chains@[ci as int]@[k2]@,
            {
                let p: &FullTaskName = &name_chains[ci][k];
                proof {
                    assert(c.has_task((name_chains@[ci as int]@[k as int])@));
                }
                let jx = match crate::unloaded::find_task_index(names, p) {
                    Some(v) => v,
                    None => {
                        proof {
                            let w = choose|w: int| 0 <= w < names@.len() && names@[w]@ == p@;
                        }
                        return chains;  // unreachable: names cover the tasks
                    },
                };
                chain_idx.push(jx);
            }
            let first_name = name_chains[ci][0].clone();
            chains.push(FulfillerChain { first_name, chain: chain_idx });
        }
        proof {
            assert forall|x: (Seq<char>, Seq<char>)| #[trigger] c.has_task(x) implies exists|
                ci: int,
                k: int,
            |
                0 <= ci < chains@.len() && 0 <= k < chains@[ci].chain@.len() && ns[chains@[
                    ci
                ].chain@[k] as int] == x by {
                assert(in_chains(name_chains@, x));
                let (ci, k) = choose|ci: int, k: int|
                    0 <= ci < name_chains@.len() && 0 <= k < name_chains@[ci]@.len()
                        && name_chains@[ci]@[k]@ == x;
                assert(ns[chains@[ci].chain@[k] as int] == x);
            }
            assert forall|ci: int, k: int|
                0 <= ci < chains@.len() && 0 <= k < chains@[ci].chain@.len() - 1 implies ns[(
            #[trigger] chains@[ci].chain@[k]) as int] == c.task_named(
                ns[chains@[ci].chain@[k + 1] as int],
            ).unwrap().parents[0] by {
                assert(ns[chains@[ci].chain@[k] as int] == name_chains@[ci]@[k]@);
                assert(ns[chains@[ci].chain@[k + 1] as int] == name_chains@[ci]@[k + 1]@);
                assert((name_chains@[ci]@[k])@ == c.task_named(
                    name_chains@[ci]@[k + 1]@,
                ).unwrap().parents[0]);
            }
        }
        chains
    }

    /// Install the wake-up back-edges: every prerequisite of a chain's
    /// first node learns that finishing may make that chain runnable.
    #[verifier::rlimit(100)]
    #[verifier::spinoff_prover]
    fn attach_fulfiller_chains(fulfillers: &mut Vec<Fulfiller>, chains: &Vec<FulfillerChain>)
        requires
            forall|ci: int|
                0 <= ci < chains@.len() ==> (#[trigger] chains@[ci]).chain@.len() >= 1,
            forall|ci: int, k: int|
                0 <= ci < chains@.len() && 0 <= k < chains@[ci].chain@.len() ==> (
                #[trigger] chains@[ci].chain@[k] as int) < old(fulfillers)@.len(),
            forall|i: int, k: int|
                0 <= i < old(fulfillers)@.len() && 0 <= k < old(fulfillers)@[i].prerequisites@.len()
                    ==> (#[trigger] old(fulfillers)@[i].prerequisites@[k] as int) < old(
                    fulfillers,
                )@.len(),
            forall|i: int|
                0 <= i < old(fulfillers)@.len() ==> (
                #[trigger] old(fulfillers)@[i]).children_chains@.len() == 0,
        ensures
            final(fulfillers)@.len() == old(fulfillers)@.len(),
            forall|i: int|
                0 <= i < final(fulfillers)@.len() ==> {
                    let f = #[trigger] final(fulfillers)@[i];
                    let g = old(fulfillers)@[i];
                    &&& f.cease == g.cease
                    &&& f.error == g.error
                    &&& f.done == g.done
                    &&& f.prerequisites == g.prerequisites
                    &&& f.task == g.task
                },
            forall|i: int, m: int|
                0 <= i < final(fulfillers)@.len() && 0 <= m < final(fulfillers)@[
                    i
                ].children_chains@.len() ==> {
                    let ci = #[trigger] final(fulfillers)@[i].children_chains@[m] as int;
                    &&& ci < chains@.len()
                    &&& exists|k: int|
                        0 <= k < final(fulfillers)@[chains@[ci].chain@[0] as int].prerequisites@.len()
                            && final(fulfillers)@[chains@[ci].chain@[0] as int].prerequisites@[
                            k
                        ] as int == i
                },
            forall|ci: int, k: int|
                0 <= ci < chains@.len() && 0 <= k < final(fulfillers)@[chains@[
                    ci
                ].chain@[0] as int].prerequisites@.len() ==> exists|m: int|
                    0 <= m < final(fulfillers)@[(#[trigger] final(fulfillers)@[chains@[
                        ci
                    ].chain@[0] as int].prerequisites@[k]) as int].children_chains@.len()
                        && final(fulfillers)@[final(fulfillers)@[chains@[
                        ci
                    ].chain@[0] as int].prerequisites@[k] as int].children_chains@[m] as int == ci,
    {
        let ghost orig = fulfillers@;
        let n: usize = fulfillers.len();
        let nch: usize = chains.len();
        for ci in 0..nch
            invariant
                nch == chains@.len(),
                n == orig.len(),
                fulfillers@.len() == n,
                forall|c2: int|
                    0 <= c2 < chains@.len() ==> (#[trigger] chains@[c2]).chain@.len() >= 1,
                forall|c2: int, k: int|
                    0 <= c2 < chains@.len() && 0 <= k < chains@[c2].chain@.len() ==> (
                    #[trigger] chains@[c2].chain@[k] as int) < n,
                forall|i: int|
                    0 <= i < n ==> {
                        let f = #[trigger] fulfillers@[i];
                        let g = orig[i];
                        &&& f.cease == g.cease
                        &&& f.error == g.error
                        &&& f.done == g.done
                        &&& f.prerequisites == g.prerequisites
                        &&& f.task == g.task
                    },
                forall|i: int, k: int|
                    0 <= i < n && 0 <= k < fulfillers@[i].prerequisites@.len() ==> (
                    #[trigger] fulfillers@[i].prerequisites@[k] as int) < n,
                forall|i: int, m: int|
                    0 <= i < n && 0 <= m < fulfillers@[i].children_chains@.len() ==> {
                        let c2 = #[trigger] fulfillers@[i].children_chains@[m] as int;
                        &&& c2 < chains@.len()
                        &&& exists|k: int|
                            0 <= k < fulfillers@[chains@[c2].chain@[0] as int].prerequisites@.len()
                                && fulfillers@[chains@[c2].chain@[0] as int].prerequisites@[
                                k
                            ] as int == i
                    },
                forall|c2: int, k: int|
                    0 <= c2 < ci && 0 <= k < fulfillers@[chains@[c2].chain@[
                        0
                    ] as int].prerequisites@.len() ==> exists|m: int|
                        0 <= m < fulfillers@[(#[trigger] fulfillers@[chains@[c2].chain@[
                            0
                        ] as int].prerequisites@[k]) as int].children_chains@.len()
                            && fulfillers@[fulfillers@[chains@[c2].chain@[
                            0
                        ] as int].prerequisites@[k] as int].children_chains@[m] as int == c2,
            decreases nch - ci,
        {
            let first: usize = chains[ci].chain[0];
            let npr: usize = fulfillers[first].prerequisites.len();
            for k in 0..npr
                invariant
                    nch == chains@.len(),
                    n == orig.len(),
                    fulfillers@.len() == n,
                    ci < nch,
                    (first as int) == chains@[ci as int].chain@[0] as int,
                    (first as int) < n,
                    npr == fulfillers@[first as int].prerequisites@.len(),
                    forall|c2: int|
                        0 <= c2 < chains@.len() ==> (#[trigger] chains@[c2]).chain@.len() >= 1,
                    forall|c2: int, k2: int|
                        0 <= c2 < chains@.len() && 0 <= k2 < chains@[c2].chain@.len() ==> (
                        #[trigger] chains@[c2].chain@[k2] as int) < n,
                    forall|i: int|
                        0 <= i < n ==> {
                            let f = #[trigger] fulfillers@[i];
                            let g = orig[i];
                            &&& f.cease == g.cease
                            &&& f.error == g.error
                            &&& f.done == g.done
                            &&& f.prerequisites == g.prerequisites
                            &&& f.task == g.task
                        },
                    forall|i: int, k2: int|
                        0 <= i < n && 0 <= k2 < fulfillers@[i].prerequisites@.len() ==> (
                        #[trigger] fulfillers@[i].prerequisites@[k2] as int) < n,
                    forall|i: int, m: int|
                        0 <= i < n && 0 <= m < fulfillers@[i].children_chains@.len() ==> {
                            let c2 = #[trigger] fulfillers@[i].children_chains@[m] as int;
                            &&& c2 < chains@.len()
                            &&& exists|k2: int|
                                0 <= k2 < fulfillers@[chains@[c2].chain@[
                                    0
                                ] as int].prerequisites@.len() && fulfillers@[chains@[c2].chain@[
                                    0
                                ] as int].prerequisites@[k2] as int == i
                        },
                    forall|c2: int, k2: int|
                        0 <= c2 < ci && 0 <= k2 < fulfillers@[chains@[c2].chain@[
                            0
                        ] as int].prerequisites@.len() ==> exists|m: int|
                            0 <= m < fulfillers@[(#[trigger] fulfillers@[chains@[c2].chain@[
                                0
                            ] as int].prerequisites@[k2]) as int].children_chains@.len()
                                && fulfillers@[fulfillers@[chains@[c2].chain@[
                                0
                            ] as int].prerequisites@[k2] as int].children_chains@[m] as int == c2,
                    forall|k2: int|
                        0 <= k2 < k ==> exists|m: int|
                            0 <= m < fulfillers@[(#[trigger] fulfillers@[first as int].prerequisites@[
                                k2
                            ]) as int].children_chains@.len() && fulfillers@[fulfillers@[
                                first as int
                            ].prerequisites@[k2] as int].children_chains@[m] as int == ci,
                decreases npr - k,
            {
                let p: usize = fulfillers[first].prerequisites[k];
                let ghost pre_fs = fulfillers@;
                let mut f = placeholder_fulfiller();
                fulfillers.set_and_swap(p, &mut f);
                f.children_chains.push(ci);
                fulfillers.set_and_swap(p, &mut f);
                proof {
                    assert(fulfillers@ =~= pre_fs.update(
                        p as int,
                        Fulfiller {
                            children_chains: fulfillers@[p as int].children_chains,
                            ..pre_fs[p as int]
                        },
                    ));
                    assert(fulfillers@[p as int].children_chains@ == pre_fs[
                        p as int
                    ].children_chains@.push(ci));
                    assert(forall|q: int|
                        0 <= q < n ==> (#[trigger] fulfillers@[q]).prerequisites == pre_fs[
                            q
                        ].prerequisites);
                    assert(forall|q: int|
                        0 <= q < n && q != p as int ==> #[trigger] fulfillers@[q] == pre_fs[q]);
                    assert forall|i: int, m: int|
                        0 <= i < n && 0 <= m < fulfillers@[i].children_chains@.len() implies {
                        let c2 = #[trigger] fulfillers@[i].children_chains@[m] as int;
                        &&& c2 < chains@.len()
                        &&& exists|k2: int|
                            0 <= k2 < fulfillers@[chains@[c2].chain@[0] as int].prerequisites@.len()
                                && fulfillers@[chains@[c2].chain@[0] as int].prerequisites@[
                                k2
                            ] as int == i
                    } by {
                        let c2 = fulfillers@[i].children_chains@[m] as int;
                        if i == p as int && m == fulfillers@[i].children_chains@.len() - 1 {
                            assert(c2 == ci as int);
                            assert(fulfillers@[chains@[ci as int].chain@[0] as int].prerequisites@[
                                k as int
                            ] as int == p as int);
                        } else {
                            assert(pre_fs[i].children_chains@[m] as int == c2);
                        }
                    }
                    assert forall|k2: int| 0 <= k2 < k + 1 implies exists|m: int|
                        0 <= m < fulfillers@[(#[trigger] fulfillers@[first as int].prerequisites@[
                            k2
                        ]) as int].children_chains@.len() && fulfillers@[fulfillers@[
                            first as int
                        ].prerequisites@[k2] as int].children_chains@[m] as int == ci by {
                        let q = fulfillers@[first as int].prerequisites@[k2] as int;
                        if k2 == k {
                            assert(q == p as int);
                            assert(fulfillers@[q].children_chains@[fulfillers@[
                                q
                            ].children_chains@.len() - 1] as int == ci as int);
                        } else {
                            let m0 = choose|m0: int|
                                0 <= m0 < pre_fs[(pre_fs[first as int].prerequisites@[
                                    k2
                                ]) as int].children_chains@.len() && pre_fs[pre_fs[
                                    first as int
                                ].prerequisites@[k2] as int].children_chains@[m0] as int
                                    == ci as int;
                            if q == p as int {
                                assert(fulfillers@[q].children_chains@[m0] as int == ci as int);
                            } else {
                                assert(fulfillers@[q].children_chains@[m0] as int == ci as int);
                            }
                        }
                    }
                    assert forall|c2: int, k2: int|
                        0 <= c2 < ci && 0 <= k2 < fulfillers@[chains@[c2].chain@[
                            0
                        ] as int].prerequisites@.len() implies exists|m: int|
                        0 <= m < fulfillers@[(#[trigger] fulfillers@[chains@[c2].chain@[
                            0
                        ] as int].prerequisites@[k2]) as int].children_chains@.len()
                            && fulfillers@[fulfillers@[chains@[c2].chain@[
                            0
                        ] as int].prerequisites@[k2] as int].children_chains@[m] as int == c2 by {
                        let q = fulfillers@[chains@[c2].chain@[0] as int].prerequisites@[
                            k2
                        ] as int;
                        let m0 = choose|m0: int|
                            0 <= m0 < pre_fs[(pre_fs[chains@[c2].chain@[0] as int].prerequisites@[
                                k2
                            ]) as int].children_chains@.len() && pre_fs[pre_fs[chains@[
                                c2
                            ].chain@[0] as int].prerequisites@[k2] as int].children_chains@[
                                m0
                            ] as int == c2;
                        assert(fulfillers@[q].children_chains@[m0] as int == c2);
                    }
                }
            }
        }
    }
}


/// The snapshot of every gate's progress counter.
pub open spec fn done_states(fs: Seq<Fulfiller>) -> Seq<u64> {
    Seq::new(fs.len(), |j: int| fs[j].done.state())
}

/// Must fulfiller `j` cease when the task at `current` ended with
/// `outcome`? Already-ceased fulfillers are passed over. A reload or a
/// stop-everything request ceases everyone; a panic ceases everyone; a
/// plain error or a stop-this request ceases the task itself and every
/// peer whose plugin handler asked to stop.
pub open spec fn should_cease(
    fs: Seq<Fulfiller>,
    j: int,
    current: int,
    outcome: TaskControlFlow,
    hs: Seq<bool>,
) -> bool {
    &&& !fs[j].cease
    &&& match outcome {
        TaskControlFlow::Continue => false,
        TaskControlFlow::FullReload => true,
        TaskControlFlow::PartialReload(_) => true,
        TaskControlFlow::StopAll => true,
        TaskControlFlow::Failed(e) => e.is_panic || j == current || hs[j],
        TaskControlFlow::StopThis => j == current || hs[j],
    }
}

/// How many fulfillers from index `k` on must cease.
pub open spec fn count_should(
    fs: Seq<Fulfiller>,
    current: int,
    outcome: TaskControlFlow,
    hs: Seq<bool>,
    k: int,
) -> int
    decreases fs.len() - k,
{
    if k >= fs.len() {
        0
    } else {
        (if should_cease(fs, k, current, outcome, hs) {
            1int
        } else {
            0int
        }) + count_should(fs, current, outcome, hs, k + 1)
    }
}

/// The instance-level control flow a tick ends with, given what the task
/// that changed it returned.
pub open spec fn control_flow_after(
    cf: InstanceControlFlow,
    outcome: TaskControlFlow,
) -> InstanceControlFlow {
    match outcome {
        TaskControlFlow::Continue => cf,
        TaskControlFlow::StopThis => cf,
        TaskControlFlow::StopAll => InstanceControlFlow::Stop,
        TaskControlFlow::FullReload => InstanceControlFlow::FullReload,
        TaskControlFlow::PartialReload(v) => InstanceControlFlow::PartialReload(v),
        TaskControlFlow::Failed(e) => if e.is_panic {
            InstanceControlFlow::RecreateThreadpool
        } else {
            cf
        },
    }
}

proof fn lemma_count_unceased_nonneg(fs: Seq<Fulfiller>, k: int)
    ensures
        count_unceased(fs, k) >= 0,
    decreases fs.len() - k,
{
    if k < fs.len() {
        lemma_count_unceased_nonneg(fs, k + 1);
    }
}

proof fn lemma_count_unerrored_nonneg(fs: Seq<Fulfiller>, k: int)
    ensures
        count_unerrored(fs, k) >= 0,
    decreases fs.len() - k,
{
    if k < fs.len() {
        lemma_count_unerrored_nonneg(fs, k + 1);
    }
}

proof fn lemma_count_unceased_lower(fs: Seq<Fulfiller>, k: int, j: int)
    requires
        0 <= k <= j < fs.len(),
        !fs[j].cease,
    ensures
        count_unceased(fs, k) >= 1,
    decreases fs.len() - k,
{
    if k < j {
        lemma_count_unceased_lower(fs, k + 1, j);
    } else {
        lemma_count_unceased_nonneg(fs, k + 1);
    }
}

proof fn lemma_count_unerrored_lower(fs: Seq<Fulfiller>, k: int, j: int)
    requires
        0 <= k <= j < fs.len(),
        !fs[j].error,
    ensures
        count_unerrored(fs, k) >= 1,
    decreases fs.len() - k,
{
    if k < j {
        lemma_count_unerrored_lower(fs, k + 1, j);
    } else {
        lemma_count_unerrored_nonneg(fs, k + 1);
    }
}

proof fn lemma_count_unceased_set(pre: Seq<Fulfiller>, post: Seq<Fulfiller>, j: int, k: int)
    requires
        pre.len() == post.len(),
        0 <= j < pre.len(),
        0 <= k <= pre.len(),
        !pre[j].cease,
        post[j].cease,
        forall|j2: int| 0 <= j2 < pre.len() && j2 != j ==> post[j2].cease == pre[j2].cease,
    ensures
        count_unceased(post, k) == count_unceased(pre, k) - if k <= j {
            1int
        } else {
            0int
        },
    decreases pre.len() - k,
{
    if k < pre.len() {
        lemma_count_unceased_set(pre, post, j, k + 1);
    }
}

proof fn lemma_count_unerrored_set(pre: Seq<Fulfiller>, post: Seq<Fulfiller>, j: int, k: int)
    requires
        pre.len() == post.len(),
        0 <= j < pre.len(),
        0 <= k <= pre.len(),
        !pre[j].error,
        post[j].error,
        forall|j2: int| 0 <= j2 < pre.len() && j2 != j ==> post[j2].error == pre[j2].error,
    ensures
        count_unerrored(post, k) == count_unerrored(pre, k) - if k <= j {
            1int
        } else {
            0int
        },
    decreases pre.len() - k,
{
    if k < pre.len() {
        lemma_count_unerrored_set(pre, post, j, k + 1);
    }
}

proof fn lemma_count_unerrored_same(pre: Seq<Fulfiller>, post: Seq<Fulfiller>, k: int)
    requires
        pre.len() == post.len(),
        0 <= k <= pre.len(),
        forall|j: int| 0 <= j < pre.len() ==> post[j].error == pre[j].error,
    ensures
        count_unerrored(post, k) == count_unerrored(pre, k),
    decreases pre.len() - k,
{
    if k < pre.len() {
        lemma_count_unerrored_same(pre, post, k + 1);
    }
}

proof fn lemma_count_should_continue(fs: Seq<Fulfiller>, current: int, hs: Seq<bool>, k: int)
    ensures
        count_should(fs, current, TaskControlFlow::Continue, hs, k) == 0,
    decreases fs.len() - k,
{
    if k < fs.len() {
        lemma_count_should_continue(fs, current, hs, k + 1);
    }
}

proof fn lemma_count_should_mono(
    fs: Seq<Fulfiller>,
    current: int,
    outcome: TaskControlFlow,
    hs: Seq<bool>,
    k1: int,
    k2: int,
)
    requires
        0 <= k1 <= k2 <= fs.len(),
    ensures
        count_should(fs, current, outcome, hs, k1) >= count_should(fs, current, outcome, hs, k2),
    decreases k2 - k1,
{
    if k1 < k2 {
        lemma_count_should_mono(fs, current, outcome, hs, k1 + 1, k2);
    }
}

/// When every errored fulfiller was ceased, clearing the cease flag of the
/// unerrored ones leaves exactly the unerrored fulfillers unceased.
proof fn lemma_count_recreate(pre: Seq<Fulfiller>, post: Seq<Fulfiller>, k: int)
    requires
        pre.len() == post.len(),
        0 <= k <= pre.len(),
        forall|j: int| 0 <= j < pre.len() ==> post[j].error == pre[j].error,
        forall|j: int|
            0 <= j < pre.len() ==> post[j].cease == (pre[j].cease && pre[j].error),
        forall|j: int| 0 <= j < pre.len() && pre[j].error ==> pre[j].cease,
    ensures
        count_unceased(post, k) == count_unerrored(pre, k),
    decreases pre.len() - k,
{
    if k < pre.len() {
        lemma_count_recreate(pre, post, k + 1);
    }
}


proof fn lemma_count_unceased_same(pre: Seq<Fulfiller>, post: Seq<Fulfiller>, k: int)
    requires
        pre.len() == post.len(),
        0 <= k <= pre.len(),
        forall|j: int| 0 <= j < pre.len() ==> post[j].cease == pre[j].cease,
    ensures
        count_unceased(post, k) == count_unceased(pre, k),
    decreases pre.len() - k,
{
    if k < pre.len() {
        lemma_count_unceased_same(pre, post, k + 1);
    }
}

proof fn lemma_count_should_same(
    pre: Seq<Fulfiller>,
    post: Seq<Fulfiller>,
    current: int,
    outcome: TaskControlFlow,
    hs: Seq<bool>,
    k: int,
)
    requires
        pre.len() == post.len(),
        0 <= k <= pre.len(),
        forall|j: int| 0 <= j < pre.len() ==> post[j].cease == pre[j].cease,
    ensures
        count_should(post, current, outcome, hs, k) == count_should(pre, current, outcome, hs, k),
        forall|j: int|
            0 <= j < pre.len() ==> should_cease(post, j, current, outcome, hs) == should_cease(
                pre,
                j,
                current,
                outcome,
                hs,
            ),
    decreases pre.len() - k,
{
    if k < pre.len() {
        lemma_count_should_same(pre, post, current, outcome, hs, k + 1);
    }
}

/// Fulfillers from index `k` on whose cease flag is clear.
pub open spec fn count_unceased(fs: Seq<Fulfiller>, k: int) -> int
    decreases fs.len() - k,
{
    if k >= fs.len() {
        0
    } else {
        (if fs[k].cease {
            0int
        } else {
            1int
        }) + count_unceased(fs, k + 1)
    }
}

/// Fulfillers from index `k` on whose error flag is clear.
pub open spec fn count_unerrored(fs: Seq<Fulfiller>, k: int) -> int
    decreases fs.len() - k,
{
    if k >= fs.len() {
        0
    } else {
        (if fs[k].error {
            0int
        } else {
            1int
        }) + count_unerrored(fs, k + 1)
    }
}

/// The assembled composition meets its construction contract, given what
/// the build, wiring, chain and attachment passes each guarantee.
#[verifier::rlimit(100)]
#[verifier::spinoff_prover]
proof fn lemma_assembled(
    r: LoadedComposition,
    c: CompSpec,
    names: Seq<FullTaskName>,
    built: Seq<Fulfiller>,
    wired: Seq<Fulfiller>,
    orig_bt: Seq<(FullTaskName, LoadedTask)>,
    start_token: u64,
)
    requires
        names.map_values(|t: FullTaskName| t@) == comp_task_names(c.crates, 0),
        built.len() == names.len(),
        wired.len() == built.len(),
        r.fulfillers@.len() == wired.len(),
        start_token <= r.next_token,
        forall|i: int|
            0 <= i < built.len() ==> built_fulfiller_at(
                c,
                names,
                built,
                orig_bt,
                start_token,
                r.next_token,
                i,
            ),
        // the wiring pass resolved parents and left everything else alone
        forall|i: int|
            0 <= i < wired.len() ==> {
                let f = #[trigger] wired[i];
                let g = built[i];
                &&& f.cease == g.cease
                &&& f.error == g.error
                &&& f.children_chains == g.children_chains
                &&& f.done == g.done
                &&& f.task == g.task
                &&& f.prerequisites@.len() == c.task_named(names[i]@).unwrap().parents.len()
                &&& forall|k: int|
                    0 <= k < f.prerequisites@.len() ==> (
                    #[trigger] f.prerequisites@[k] as int) < names.len() && names[f.prerequisites@[
                        k
                    ] as int]@ == c.task_named(names[i]@).unwrap().parents[k]
            },
        // the attachment pass touched only the wake-up lists
        forall|i: int|
            0 <= i < r.fulfillers@.len() ==> {
                let f = #[trigger] r.fulfillers@[i];
                let g = wired[i];
                &&& f.cease == g.cease
                &&& f.error == g.error
                &&& f.done == g.done
                &&& f.prerequisites == g.prerequisites
                &&& f.task == g.task
            },
        forall|i: int, m: int|
            0 <= i < r.fulfillers@.len() && 0 <= m < r.fulfillers@[i].children_chains@.len()
                ==> (#[trigger] r.fulfillers@[i].children_chains@[m] as int)
                < r.fulfiller_chains@.len(),
        // the chain pass produced non-empty chains over valid indices
        forall|ci: int|
            0 <= ci < r.fulfiller_chains@.len() ==> (
            #[trigger] r.fulfiller_chains@[ci]).chain@.len() >= 1,
        forall|ci: int, k: int|
            0 <= ci < r.fulfiller_chains@.len() && 0 <= k < r.fulfiller_chains@[
                ci
            ].chain@.len() ==> (#[trigger] r.fulfiller_chains@[ci].chain@[k] as int)
                < names.len(),
        forall|ci: int|
            0 <= ci < r.fulfiller_chains@.len() ==> (
            #[trigger] r.fulfiller_chains@[ci]).first_name@ == comp_task_names(c.crates, 0)[
                r.fulfiller_chains@[ci].chain@[0] as int
            ],
        r.task_completion.nominal() == r.fulfillers@.len(),
        r.task_completion.active() == r.fulfillers@.len(),
        r.control_flow is Continue,
    ensures
        r.wf_graph(),
        r.counts_ok(),
        r.mirrors(c),
        r.chains_mirror(c),
        forall|i: int|
            0 <= i < r.fulfillers@.len() ==> {
                let f = #[trigger] r.fulfillers@[i];
                &&& !f.cease
                &&& !f.error
                &&& f.done.state() == 0
                &&& f.done.greatest_prereq() == 0
            },
        forall|i: int|
            0 <= i < r.fulfillers@.len() ==> {
                let x = r.names(c)[i];
                let tok = (#[trigger] r.fulfillers@[i]).task.unwrap().token;
                if bag_has_task(orig_bt, x) {
                    tok == bag_task_token(orig_bt, x)
                } else {
                    start_token <= tok < r.next_token
                }
            },
{
    let ns = comp_task_names(c.crates, 0);
    assert forall|i: int| 0 <= i < ns.len() implies {
        let f = #[trigger] r.fulfillers@[i];
        let t = c.task_named(ns[i]).unwrap();
        &&& f.task is Some
        &&& f.task.unwrap().name@ == ns[i]
        &&& c.has_task(ns[i])
        &&& f.task.unwrap().accesses@.map_values(|a: Access| (a.of@, a.mut_immut)) == t.accesses
        &&& f.done.is_entrypoint() == t.entrypoint
        &&& f.prerequisites@.len() == t.parents.len()
        &&& forall|k: int|
            0 <= k < t.parents.len() ==> (#[trigger] f.prerequisites@[k] as int) < ns.len() && ns[
                f.prerequisites@[k] as int
            ] == t.parents[k]
    } by {
        assert(built_fulfiller_at(c, names, built, orig_bt, start_token, r.next_token, i));
        assert(names[i]@ == ns[i]);
        assert(r.fulfillers@[i].task == wired[i].task);
        assert(wired[i].task == built[i].task);
        assert(r.fulfillers@[i].done == wired[i].done);
        assert(wired[i].done == built[i].done);
        assert(r.fulfillers@[i].prerequisites == wired[i].prerequisites);
        assert forall|k: int| 0 <= k < c.task_named(ns[i]).unwrap().parents.len() implies (
        #[trigger] r.fulfillers@[i].prerequisites@[k] as int) < ns.len() && ns[r.fulfillers@[
            i
        ].prerequisites@[k] as int] == c.task_named(ns[i]).unwrap().parents[k] by {
            assert(names[wired[i].prerequisites@[k] as int]@ == c.task_named(
                names[i]@,
            ).unwrap().parents[k]);
        }
    }
    assert(r.mirrors(c));
    assert forall|i: int| 0 <= i < r.fulfillers@.len() implies {
        let f = #[trigger] r.fulfillers@[i];
        &&& !f.cease
        &&& !f.error
        &&& f.done.state() == 0
        &&& f.done.greatest_prereq() == 0
        &&& f.done.inv()
    } by {
        assert(built_fulfiller_at(c, names, built, orig_bt, start_token, r.next_token, i));
        assert(wired[i].done == built[i].done);
        assert(wired[i].cease == built[i].cease);
        assert(wired[i].error == built[i].error);
    }
    assert forall|i: int| 0 <= i < r.fulfillers@.len() implies {
        let x = r.names(c)[i];
        let tok = (#[trigger] r.fulfillers@[i]).task.unwrap().token;
        if bag_has_task(orig_bt, x) {
            tok == bag_task_token(orig_bt, x)
        } else {
            start_token <= tok < r.next_token
        }
    } by {
        assert(built_fulfiller_at(c, names, built, orig_bt, start_token, r.next_token, i));
        assert(r.fulfillers@[i].task == wired[i].task);
        assert(wired[i].task == built[i].task);
    }
    lemma_count_unceased_all(r.fulfillers@, 0);
    lemma_count_unerrored_all(r.fulfillers@, 0);
    assert(r.counts_ok());
    assert(r.wf_graph());
    assert(r.chains_mirror(c));
}

impl LoadedComposition {
    /// Build the runtime graph for a validated composition, carrying over
    /// the plugin objects the baggage holds: fulfillers, prerequisite
    /// wiring, fulfiller chains and their wake-up back-edges. Identity
    /// tokens record which objects were reused and which were freshly
    /// materialized.
    #[verifier::rlimit(100)]
    #[verifier::spinoff_prover]
    pub fn new_with_baggage(
        composition: &UnloadedComposition,
        checked: &Checked,
        baggage: Baggage,
        start_token: u64,
    ) -> (r: Self)
        requires
            checked.comp() == composition@,
            crate::validator::validated(composition@),
            baggage_wf(baggage, start_token),
            start_token + total_objects(composition@) <= u64::MAX,
        ensures
            r.wf_graph(),
            r.counts_ok(),
            r.mirrors(composition@),
            r.chains_mirror(composition@),
            r.control_flow is Continue,
            r.task_completion.nominal() == r.fulfillers@.len(),
            r.task_completion.active() == r.fulfillers@.len(),
            forall|i: int|
                0 <= i < r.fulfillers@.len() ==> {
                    let f = #[trigger] r.fulfillers@[i];
                    &&& !f.cease
                    &&& !f.error
                    &&& f.done.state() == 0
                    &&& f.done.greatest_prereq() == 0
                },
            // identity: reused objects keep their token, fresh ones draw
            // from [start_token, next_token)
            forall|i: int|
                0 <= i < r.fulfillers@.len() ==> {
                    let x = r.names(composition@)[i];
                    let tok = (#[trigger] r.fulfillers@[i]).task.unwrap().token;
                    if bag_has_task(baggage.tasks@, x) {
                        tok == bag_task_token(baggage.tasks@, x)
                    } else {
                        start_token <= tok < r.next_token
                    }
                },
            start_token <= r.next_token,
    {
        let ghost c = composition@;
        let ghost orig_bt = baggage.tasks@;
        let ghost orig_bd = baggage.datachunks@;
        let (mut fulfillers, names_vec, crates_tab, next_token) = Self::build_tables(
            composition,
            baggage,
            start_token,
        );
        let ghost built = fulfillers@;
        Self::connect_fulfillers(&mut fulfillers, &names_vec, composition);
        let ghost wired = fulfillers@;
        let chains = Self::create_fulfiller_chains(composition, &names_vec);
        proof {
            assert forall|i: int, k: int|
                0 <= i < fulfillers@.len() && 0 <= k < fulfillers@[i].prerequisites@.len()
                implies (#[trigger] fulfillers@[i].prerequisites@[k] as int)
                < fulfillers@.len() by {
                assert(built_fulfiller_at(c, names_vec@, built, orig_bt, start_token, next_token, i));
            }
        }
        proof {
            assert forall|i: int| 0 <= i < fulfillers@.len() implies (
            #[trigger] fulfillers@[i]).children_chains@.len() == 0 by {
                assert(built_fulfiller_at(c, names_vec@, built, orig_bt, start_token, next_token, i));
                assert(fulfillers@[i].children_chains == built[i].children_chains);
            }
            assert(comp_task_names(c.crates, 0).len() == names_vec@.len());
        }
        Self::attach_fulfiller_chains(&mut fulfillers, &chains);
        let n = fulfillers.len();
        let quit = Quit::new(n);
        proof {
            assert forall|i: int| 0 <= i < fulfillers@.len() implies !(
            #[trigger] fulfillers@[i]).cease && !fulfillers@[i].error by {
                assert(built_fulfiller_at(c, names_vec@, built, orig_bt, start_token, next_token, i));
                assert(wired[i].cease == built[i].cease);
            }
            lemma_count_unceased_all(fulfillers@, 0);
            lemma_count_unerrored_all(fulfillers@, 0);
        }
        let r = LoadedComposition {
            crates: crates_tab,
            fulfillers,
            fulfiller_chains: chains,
            control_flow: InstanceControlFlow::Continue,
            task_completion: quit,
            next_token,
        };
        proof {
            lemma_assembled(r, c, names_vec@, built, wired, orig_bt, start_token);
        }
        r
    }

    /// Build the runtime graph for a validated composition with nothing
    /// carried over: every plugin object is materialized afresh.
    #[verifier::rlimit(100)]
    #[verifier::spinoff_prover]
    pub fn new(composition: &UnloadedComposition, checked: &Checked, start_token: u64) -> (r:
        Self)
        requires
            checked.comp() == composition@,
            crate::validator::validated(composition@),
            start_token + total_objects(composition@) <= u64::MAX,
        ensures
            r.wf_graph(),
            r.counts_ok(),
            r.mirrors(composition@),
            r.chains_mirror(composition@),
            r.control_flow is Continue,
            r.task_completion.nominal() == r.fulfillers@.len(),
            r.task_completion.active() == r.fulfillers@.len(),
            forall|i: int|
                0 <= i < r.fulfillers@.len() ==> {
                    let f = #[trigger] r.fulfillers@[i];
                    &&& !f.cease
                    &&& !f.error
                    &&& f.done.state() == 0
                    &&& f.done.greatest_prereq() == 0
                    &&& start_token <= f.task.unwrap().token < r.next_token
                },
    {
        let b = Baggage::empty();
        let r = Self::new_with_baggage(composition, checked, b, start_token);
        r
    }
}

impl LoadedComposition {
    /// Tell every fulfiller that the task at `current` changed the control
    /// flow, ceasing those the outcome condemns. `handler_stops[j]` carries
    /// the answer of fulfiller `j`'s plugin handler, for the outcomes that
    /// consult it. Returns whether the tick's last active fulfiller ceased,
    /// which is when the worker rendezvouses with the main thread.
    pub fn notify_tasks_of_control_flow_change(
        &mut self,
        current: usize,
        task_result: &TaskControlFlow,
        handler_stops: &Vec<bool>,
    ) -> (rendezvous: bool)
        requires
            handler_stops@.len() == old(self).fulfillers@.len(),
            old(self).task_completion.active() == count_unceased(old(self).fulfillers@, 0),
        ensures
            final(self).fulfillers@.len() == old(self).fulfillers@.len(),
            forall|j: int|
                0 <= j < final(self).fulfillers@.len() ==> {
                    let f = #[trigger] final(self).fulfillers@[j];
                    let g = old(self).fulfillers@[j];
                    &&& f.cease == (g.cease || should_cease(
                        old(self).fulfillers@,
                        j,
                        current as int,
                        *task_result,
                        handler_stops@,
                    ))
                    &&& f.error == g.error
                    &&& f.children_chains == g.children_chains
                    &&& f.done == g.done
                    &&& f.prerequisites == g.prerequisites
                    &&& f.task == g.task
                },
            final(self).task_completion.active() == old(self).task_completion.active()
                - count_should(
                old(self).fulfillers@,
                current as int,
                *task_result,
                handler_stops@,
                0,
            ),
            final(self).task_completion.nominal() == old(self).task_completion.nominal(),
            final(self).task_completion.active() == count_unceased(final(self).fulfillers@, 0),
            rendezvous == (final(self).task_completion.active() == 0 && count_should(
                old(self).fulfillers@,
                current as int,
                *task_result,
                handler_stops@,
                0,
            ) > 0),
            final(self).crates == old(self).crates,
            final(self).fulfiller_chains == old(self).fulfiller_chains,
            final(self).control_flow == old(self).control_flow,
            final(self).next_token == old(self).next_token,
    {
        let ghost fs0 = self.fulfillers@;
        let ghost hs = handler_stops@;
        let ghost outc = *task_result;
        let mut did_cease = false;
        let n: usize = self.fulfillers.len();
        for j in 0..n
            invariant
                n == self.fulfillers@.len(),
                n == fs0.len(),
                hs == handler_stops@,
                outc == *task_result,
                hs.len() == n,
                forall|j2: int|
                    j <= j2 < n ==> #[trigger] self.fulfillers@[j2] == fs0[j2],
                forall|j2: int|
                    0 <= j2 < j ==> {
                        let f = #[trigger] self.fulfillers@[j2];
                        let g = fs0[j2];
                        &&& f.cease == (g.cease || should_cease(fs0, j2, current as int, outc, hs))
                        &&& f.error == g.error
                        &&& f.children_chains == g.children_chains
                        &&& f.done == g.done
                        &&& f.prerequisites == g.prerequisites
                        &&& f.task == g.task
                    },
                self.task_completion.active() == count_unceased(self.fulfillers@, 0),
                self.task_completion.active() == old(self).task_completion.active() - (
                count_should(fs0, current as int, outc, hs, 0) - count_should(
                    fs0,
                    current as int,
                    outc,
                    hs,
                    j as int,
                )),
                self.task_completion.nominal() == old(self).task_completion.nominal(),
                did_cease == (count_should(fs0, current as int, outc, hs, 0) - count_should(
                    fs0,
                    current as int,
                    outc,
                    hs,
                    j as int,
                ) > 0),
                self.crates == old(self).crates,
                self.fulfiller_chains == old(self).fulfiller_chains,
                self.control_flow == old(self).control_flow,
                self.next_token == old(self).next_token,
        {
            let ghost pre_fs = self.fulfillers@;
            let skip = self.fulfillers[j].cease;
            let mut cease_now = false;
            if !skip {
                match task_result {
                    TaskControlFlow::Continue => {},
                    TaskControlFlow::FullReload => {
                        cease_now = true;
                    },
                    TaskControlFlow::PartialReload(_) => {
                        cease_now = true;
                    },
                    TaskControlFlow::StopAll => {
                        cease_now = true;
                    },
                    TaskControlFlow::Failed(e) => {
                        cease_now = e.is_panic || j == current || handler_stops[j];
                    },
                    TaskControlFlow::StopThis => {
                        cease_now = j == current || handler_stops[j];
                    },
                }
            }
            proof {
                assert(cease_now == should_cease(fs0, j as int, current as int, outc, hs));
            }
            if cease_now {
                proof {
                    lemma_count_unceased_lower(self.fulfillers@, 0, j as int);
                }
                let mut f = placeholder_fulfiller();
                self.fulfillers.set_and_swap(j, &mut f);
                let rv = self.task_completion.cease_fulfiller(&mut f);
                self.fulfillers.set_and_swap(j, &mut f);
                if rv {
                    did_cease = did_cease || true;
                }
                did_cease = true;
                proof {
                    lemma_count_unceased_set(pre_fs, self.fulfillers@, j as int, 0);
                    assert(count_should(fs0, current as int, outc, hs, j as int) == 1
                        + count_should(fs0, current as int, outc, hs, j as int + 1));
                    lemma_count_should_mono(fs0, current as int, outc, hs, 0, j as int);
                }
            } else {
                proof {
                    assert(self.fulfillers@ =~= pre_fs);
                    assert(count_should(fs0, current as int, outc, hs, j as int) == count_should(
                        fs0,
                        current as int,
                        outc,
                        hs,
                        j as int + 1,
                    ));
                }
            }
        }
        proof {
            assert(count_should(fs0, current as int, outc, hs, n as int) == 0);
        }
        let rendezvous = did_cease && self.task_completion.active_value() == 0;
        rendezvous
    }

    /// Observe the gates of every prerequisite of fulfiller `i` and report
    /// whether all of them have released: the readiness condition a task must
    /// pass before its closure may run.
    pub fn prerequisites_complete(&mut self, i: usize) -> (r: bool)
        requires
            (i as int) < old(self).fulfillers@.len(),
            forall|k: int|
                0 <= k < old(self).fulfillers@[i as int].prerequisites@.len() ==> (
                #[trigger] old(self).fulfillers@[i as int].prerequisites@[k] as int) < old(self).fulfillers@.len(),
        ensures
            r == old(self).fulfillers@[i as int].prereqs_satisfied(
                i as int,
                done_states(old(self).fulfillers@),
            ),
            final(self).fulfillers@.len() == old(self).fulfillers@.len(),
            forall|j: int|
                0 <= j < final(self).fulfillers@.len() && j != i ==> #[trigger] final(self).fulfillers@[j] == old(self).fulfillers@[j],
            ({
                let f = final(self).fulfillers@[i as int];
                let g = old(self).fulfillers@[i as int];
                &&& f.cease == g.cease
                &&& f.error == g.error
                &&& f.children_chains == g.children_chains
                &&& f.prerequisites == g.prerequisites
                &&& f.task == g.task
                &&& f.done.state() == g.done.state()
                &&& f.done.is_entrypoint() == g.done.is_entrypoint()
                &&& f.done.greatest_prereq() == Fulfiller::gp_after(
                    g.done.greatest_prereq(),
                    done_states(old(self).fulfillers@),
                    g.prerequisites@,
                    0,
                )
                &&& (g.done.inv() ==> f.done.inv())
            }),
            final(self).task_completion == old(self).task_completion,
            final(self).crates == old(self).crates,
            final(self).fulfiller_chains == old(self).fulfiller_chains,
            final(self).control_flow == old(self).control_flow,
            final(self).next_token == old(self).next_token,
    {
        let ghost fs0 = self.fulfillers@;
        let n: usize = self.fulfillers.len();
        let mut states: Vec<u64> = Vec::new();
        for j in 0..n
            invariant
                n == self.fulfillers@.len(),
                self.fulfillers@ == fs0,
                states@.len() == j,
                forall|k: int| 0 <= k < j ==> states@[k] == fs0[k].done.state(),
        {
            states.push(self.fulfillers[j].done.current_state());
        }
        proof {
            assert(states@ =~= done_states(fs0));
        }
        let mut f = placeholder_fulfiller();
        self.fulfillers.set_and_swap(i, &mut f);
        let r = f.prerequisites_complete(i, &states);
        self.fulfillers.set_and_swap(i, &mut f);
        proof {
            assert(self.fulfillers@ =~= fs0.update(i as int, self.fulfillers@[i as int]));
        }
        r
    }

    /// Readiness test for dispatching a whole chain: is the chain's first
    /// fulfiller ready to run?
    pub fn chain_ready(&mut self, c: usize) -> (r: bool)
        requires
            (c as int) < old(self).fulfiller_chains@.len(),
            old(self).fulfiller_chains@[c as int].chain@.len() >= 1,
            (old(self).fulfiller_chains@[c as int].chain@[0] as int) < old(self).fulfillers@.len(),
            forall|k: int|
                0 <= k < old(self).fulfillers@[old(self).fulfiller_chains@[
                    c as int
                ].chain@[0] as int].prerequisites@.len() ==> (#[trigger] old(self).fulfillers@[old(self).fulfiller_chains@[c as int].chain@[0] as int].prerequisites@[k] as int) < old(self).fulfillers@.len(),
        ensures
            ({
                let first = old(self).fulfiller_chains@[c as int].chain@[0] as int;
                r == old(self).fulfillers@[first].prereqs_satisfied(
                    first,
                    done_states(old(self).fulfillers@),
                )
            }),
            final(self).fulfillers@.len() == old(self).fulfillers@.len(),
            forall|j: int|
                0 <= j < final(self).fulfillers@.len() && j != old(self).fulfiller_chains@[
                    c as int
                ].chain@[0] as int ==> #[trigger] final(self).fulfillers@[j] == old(self).fulfillers@[j],
            final(self).task_completion == old(self).task_completion,
            final(self).crates == old(self).crates,
            final(self).fulfiller_chains == old(self).fulfiller_chains,
            final(self).control_flow == old(self).control_flow,
            final(self).next_token == old(self).next_token,
    {
        let first: usize = self.fulfiller_chains[c].chain[0];
        self.prerequisites_complete(first)
    }
}

impl LoadedComposition {
    /// One fulfiller's turn, after its gate has been checked: apply what
    /// the task's closure returned (or skip a ceased task), notify the
    /// peers on any control-flow change, and release its ready gate so dependants
    /// can fire. Returns whether this turn ceased the tick's last active
    /// fulfiller.
    #[verifier::rlimit(100)]
    #[verifier::spinoff_prover]
    pub fn run_task(
        &mut self,
        i: usize,
        closure_outcome: TaskControlFlow,
        handler_stops: &Vec<bool>,
    ) -> (rendezvous: bool)
        requires
            (i as int) < old(self).fulfillers@.len(),
            handler_stops@.len() == old(self).fulfillers@.len(),
            old(self).task_completion.active() == count_unceased(old(self).fulfillers@, 0),
            old(self).task_completion.nominal() == count_unerrored(old(self).fulfillers@, 0),
            forall|j: int|
                0 <= j < old(self).fulfillers@.len() && (#[trigger] old(self).fulfillers@[j]).error
                    ==> old(self).fulfillers@[j].cease,
            old(self).fulfillers@[i as int].done.inv(),
            old(self).fulfillers@[i as int].done.greatest_prereq() < u64::MAX,
        ensures
            final(self).fulfillers@.len() == old(self).fulfillers@.len(),
            final(self).crates == old(self).crates,
            final(self).fulfiller_chains == old(self).fulfiller_chains,
            final(self).next_token == old(self).next_token,
            // fulfiller `i`'s ready gate is released either way; nothing else of
            // its scheduling identity changes
            ({
                let f = final(self).fulfillers@[i as int];
                let g = old(self).fulfillers@[i as int];
                &&& f.done.state() == g.done.greatest_prereq() + 1
                &&& f.done.state() >= g.done.state()
                &&& f.done.greatest_prereq() == g.done.greatest_prereq()
                &&& f.done.is_entrypoint() == g.done.is_entrypoint()
                &&& f.children_chains == g.children_chains
                &&& f.prerequisites == g.prerequisites
                &&& f.task == g.task
            }),
            // a ceased task is skipped: nothing but the release happens
            old(self).fulfillers@[i as int].cease ==> {
                &&& rendezvous == false
                &&& forall|j: int|
                    0 <= j < final(self).fulfillers@.len() && j != i ==> #[trigger] final(self).fulfillers@[j] == old(self).fulfillers@[j]
                &&& final(self).fulfillers@[i as int].cease == old(self).fulfillers@[
                    i as int
                ].cease
                &&& final(self).fulfillers@[i as int].error == old(self).fulfillers@[
                    i as int
                ].error
                &&& final(self).task_completion == old(self).task_completion
                &&& final(self).control_flow == old(self).control_flow
            },
            // a live task's outcome is applied in full
            !old(self).fulfillers@[i as int].cease ==> {
                let fs0 = old(self).fulfillers@;
                let hs = handler_stops@;
                let ceased = count_should(fs0, i as int, closure_outcome, hs, 0);
                &&& forall|j: int|
                    0 <= j < final(self).fulfillers@.len() ==> (#[trigger] final(self).fulfillers@[j]).cease == (fs0[j].cease || should_cease(
                        fs0,
                        j,
                        i as int,
                        closure_outcome,
                        hs,
                    ))
                &&& forall|j: int|
                    0 <= j < final(self).fulfillers@.len() && j != i ==> {
                        let f = #[trigger] final(self).fulfillers@[j];
                        &&& f.error == fs0[j].error
                        &&& f.done == fs0[j].done
                        &&& f.children_chains == fs0[j].children_chains
                        &&& f.prerequisites == fs0[j].prerequisites
                        &&& f.task == fs0[j].task
                    }
                &&& final(self).fulfillers@[i as int].error == (closure_outcome is Failed)
                &&& final(self).task_completion.active() == old(self).task_completion.active()
                    - ceased
                &&& final(self).task_completion.nominal() == old(self).task_completion.nominal()
                    - (if closure_outcome is Failed {
                    1int
                } else {
                    0int
                })
                &&& rendezvous == (final(self).task_completion.active() == 0 && ceased > 0)
                &&& final(self).control_flow == control_flow_after(
                    old(self).control_flow,
                    closure_outcome,
                )
            },
            // accounting and the error-implies-ceased invariant survive
            final(self).task_completion.active() == count_unceased(final(self).fulfillers@, 0),
            final(self).task_completion.nominal() == count_unerrored(final(self).fulfillers@, 0),
            forall|j: int|
                0 <= j < final(self).fulfillers@.len() && (#[trigger] final(self).fulfillers@[j]).error ==> final(self).fulfillers@[j].cease,
    {
        let ghost fs0 = self.fulfillers@;
        let skip = self.fulfillers[i].cease;
        if skip {
            let ghost pre = self.fulfillers@;
            let mut f = placeholder_fulfiller();
            self.fulfillers.set_and_swap(i, &mut f);
            f.done.release();
            self.fulfillers.set_and_swap(i, &mut f);
            proof {
                lemma_count_unceased_same(pre, self.fulfillers@, 0);
                lemma_count_unerrored_same(pre, self.fulfillers@, 0);
            }
            return false;
        }
        let is_failed = matches!(&closure_outcome, TaskControlFlow::Failed(_));
        let mut is_panic = false;
        match &closure_outcome {
            TaskControlFlow::Failed(e) => {
                is_panic = e.is_panic;
            },
            _ => {},
        }
        if is_failed {
            proof {
                lemma_count_unerrored_lower(self.fulfillers@, 0, i as int);
            }
            let ghost pre = self.fulfillers@;
            let mut f = placeholder_fulfiller();
            self.fulfillers.set_and_swap(i, &mut f);
            f.error = true;
            self.fulfillers.set_and_swap(i, &mut f);
            self.task_completion.record_error();
            if is_panic {
                self.control_flow = InstanceControlFlow::RecreateThreadpool;
            }
            proof {
                lemma_count_unerrored_set(pre, self.fulfillers@, i as int, 0);
                lemma_count_unceased_same(pre, self.fulfillers@, 0);
            }
        }
        let mut rendezvous = false;
        let is_continue = matches!(&closure_outcome, TaskControlFlow::Continue);
        proof {
            if closure_outcome is Continue {
                lemma_count_should_continue(fs0, i as int, handler_stops@, 0);
            }
        }
        if !is_continue {
            let ghost fs_mid = self.fulfillers@;
            rendezvous = self.notify_tasks_of_control_flow_change(i, &closure_outcome, handler_stops);
            proof {
                lemma_count_should_same(fs0, fs_mid, i as int, closure_outcome, handler_stops@, 0);
                lemma_count_unerrored_same(fs_mid, self.fulfillers@, 0);
            }
        }
        match closure_outcome {
            TaskControlFlow::StopAll => {
                self.control_flow = InstanceControlFlow::Stop;
            },
            TaskControlFlow::FullReload => {
                self.control_flow = InstanceControlFlow::FullReload;
            },
            TaskControlFlow::PartialReload(v) => {
                self.control_flow = InstanceControlFlow::PartialReload(v);
            },
            _ => {},
        }
        let ghost pre_rel = self.fulfillers@;
        let mut f = placeholder_fulfiller();
        self.fulfillers.set_and_swap(i, &mut f);
        f.done.release();
        self.fulfillers.set_and_swap(i, &mut f);
        proof {
            lemma_count_unceased_same(pre_rel, self.fulfillers@, 0);
            lemma_count_unerrored_same(pre_rel, self.fulfillers@, 0);
        }
        rendezvous
    }

    /// Arm the next tick: the active count returns to the nominal count and
    /// the control flow returns to `Continue`. Returns the nominal count;
    /// zero means every task has errored and the instance should exit.
    pub fn prepare_next_tick(&mut self) -> (r: usize)
        ensures
            r == old(self).task_completion.nominal(),
            final(self).task_completion.active() == old(self).task_completion.nominal(),
            final(self).task_completion.nominal() == old(self).task_completion.nominal(),
            final(self).control_flow is Continue,
            final(self).fulfillers == old(self).fulfillers,
            final(self).crates == old(self).crates,
            final(self).fulfiller_chains == old(self).fulfiller_chains,
            final(self).next_token == old(self).next_token,
    {
        let n = self.task_completion.reset();
        self.control_flow = InstanceControlFlow::Continue;
        n
    }

    /// The worker pool is being recreated after a panic: clear the cease
    /// flag of every fulfiller that has not errored, so the next tick runs
    /// them again, and keep every errored fulfiller ceased.
    pub fn clear_ceases_for_recreate(&mut self)
        requires
            old(self).task_completion.active() == old(self).task_completion.nominal(),
            old(self).task_completion.nominal() == count_unerrored(old(self).fulfillers@, 0),
            forall|j: int|
                0 <= j < old(self).fulfillers@.len() && (#[trigger] old(self).fulfillers@[j]).error
                    ==> old(self).fulfillers@[j].cease,
        ensures
            final(self).fulfillers@.len() == old(self).fulfillers@.len(),
            forall|j: int|
                0 <= j < final(self).fulfillers@.len() ==> {
                    let f = #[trigger] final(self).fulfillers@[j];
                    let g = old(self).fulfillers@[j];
                    &&& f.cease == (g.cease && g.error)
                    &&& f.error == g.error
                    &&& f.children_chains == g.children_chains
                    &&& f.done == g.done
                    &&& f.prerequisites == g.prerequisites
                    &&& f.task == g.task
                },
            final(self).task_completion == old(self).task_completion,
            final(self).task_completion.active() == count_unceased(final(self).fulfillers@, 0),
            final(self).task_completion.nominal() == count_unerrored(final(self).fulfillers@, 0),
            forall|j: int|
                0 <= j < final(self).fulfillers@.len() && (#[trigger] final(self).fulfillers@[j]).error ==> final(self).fulfillers@[j].cease,
            final(self).crates == old(self).crates,
            final(self).fulfiller_chains == old(self).fulfiller_chains,
            final(self).control_flow == old(self).control_flow,
            final(self).next_token == old(self).next_token,
    {
        let ghost fs0 = self.fulfillers@;
        let n: usize = self.fulfillers.len();
        for j in 0..n
            invariant
                n == self.fulfillers@.len(),
                n == fs0.len(),
                forall|j2: int| j <= j2 < n ==> #[trigger] self.fulfillers@[j2] == fs0[j2],
                forall|j2: int|
                    0 <= j2 < j ==> {
                        let f = #[trigger] self.fulfillers@[j2];
                        let g = fs0[j2];
                        &&& f.cease == (g.cease && g.error)
                        &&& f.error == g.error
                        &&& f.children_chains == g.children_chains
                        &&& f.done == g.done
                        &&& f.prerequisites == g.prerequisites
                        &&& f.task == g.task
                    },
                self.task_completion == old(self).task_completion,
                self.crates == old(self).crates,
                self.fulfiller_chains == old(self).fulfiller_chains,
                self.control_flow == old(self).control_flow,
                self.next_token == old(self).next_token,
        {
            if !self.fulfillers[j].error {
                let mut f = placeholder_fulfiller();
                self.fulfillers.set_and_swap(j, &mut f);
                f.cease = false;
                self.fulfillers.set_and_swap(j, &mut f);
            }
        }
        proof {
            lemma_count_recreate(fs0, self.fulfillers@, 0);
            lemma_count_unerrored_same(fs0, self.fulfillers@, 0);
        }
    }
}

} // verus!
