//! The greedy linearizer: partitions the task graph into maximal linear
//! chains. Every task of the composition lands in exactly one chain, and
//! within a chain every element except the head is preceded by its first
//! parent.

use vstd::prelude::*;
use crate::identify::FullTaskName;
use crate::unloaded::{
    comp_task_names, contains_name, lemma_comp_task_names_membership,
    lemma_task_named_parents_exist, CompSpec, UnloadedComposition,
};

verus! {

/// Some element of some chain carries view `x`.
pub open spec fn in_chains(chains: Seq<Vec<FullTaskName>>, x: (Seq<char>, Seq<char>)) -> bool {
    exists|c: int, j: int|
        0 <= c < chains.len() && 0 <= j < chains[c]@.len() && chains[c]@[j]@ == x
}

/// Each chain is non-empty, holds only tasks of `comp`, and is linear: each
/// element except the last is the first parent of its successor.
pub open spec fn chains_linear(comp: CompSpec, chains: Seq<Vec<FullTaskName>>) -> bool {
    forall|c: int|
        0 <= c < chains.len() ==> {
            &&& (#[trigger] chains[c])@.len() >= 1
            &&& forall|j: int|
                0 <= j < chains[c]@.len() ==> comp.has_task((#[trigger] chains[c]@[j])@)
            &&& forall|j: int|
                0 <= j < chains[c]@.len() - 1 ==> (#[trigger] chains[c]@[j])@ == comp.task_named(
                    chains[c]@[j + 1]@,
                ).unwrap().parents[0]
        }
}

/// No task name occurs twice across all chains.
pub open spec fn chains_disjoint(chains: Seq<Vec<FullTaskName>>) -> bool {
    forall|c: int, j: int, c2: int, j2: int|
        0 <= c < chains.len() && 0 <= j < chains[c]@.len() && 0 <= c2 < chains.len() && 0 <= j2
            < chains[c2]@.len() && (c != c2 || j != j2) ==> (#[trigger] chains[c]@[j])@ != (
        #[trigger] chains[c2]@[j2])@
}

/// Every task of the composition has at least one parent.
pub open spec fn tasks_have_parents(comp: CompSpec) -> bool {
    forall|ci: int, ti: int|
        0 <= ci < comp.crates.len() && 0 <= ti < comp.crates[ci].1.tasks.len() ==> (
        #[trigger] comp.crates[ci].1.tasks[ti].1).parents.len() >= 1
}

/// A present task keeps the `tasks_have_parents` promise.
pub proof fn lemma_task_named_has_parent(comp: CompSpec, x: (Seq<char>, Seq<char>))
    requires
        tasks_have_parents(comp),
        comp.task_named(x) is Some,
    ensures
        comp.task_named(x).unwrap().parents.len() >= 1,
{
    let cr = comp.crate_named(x.0).unwrap();
    crate::unloaded::lemma_assoc_some_index(comp.crates, x.0);
    let ci = choose|ci: int|
        0 <= ci < comp.crates.len() && comp.crates[ci].0 == x.0 && comp.crates[ci].1 == cr;
    let t = comp.task_named(x).unwrap();
    crate::unloaded::lemma_assoc_some_index(cr.tasks, x.1);
    let ti = choose|ti: int|
        0 <= ti < cr.tasks.len() && cr.tasks[ti].0 == x.1 && cr.tasks[ti].1 == t;
    assert(comp.crates[ci].1.tasks[ti].1.parents.len() >= 1);
}

/// How many of the names in `names`, from index `k` on, occur in `tr`.
pub open spec fn cover_count(
    names: Seq<(Seq<char>, Seq<char>)>,
    tr: Seq<FullTaskName>,
    k: int,
) -> int
    decreases names.len() - k,
{
    if k >= names.len() {
        0
    } else {
        (if contains_name(tr, names[k]) {
            1int
        } else {
            0int
        }) + cover_count(names, tr, k + 1)
    }
}

proof fn lemma_cover_count_le(names: Seq<(Seq<char>, Seq<char>)>, tr: Seq<FullTaskName>, k: int)
    requires
        0 <= k <= names.len(),
    ensures
        0 <= cover_count(names, tr, k) <= names.len() - k,
    decreases names.len() - k,
{
    if k < names.len() {
        lemma_cover_count_le(names, tr, k + 1);
    }
}

proof fn lemma_cover_count_mono(
    names: Seq<(Seq<char>, Seq<char>)>,
    tr1: Seq<FullTaskName>,
    tr2: Seq<FullTaskName>,
    k: int,
)
    requires
        0 <= k <= names.len(),
        forall|x: (Seq<char>, Seq<char>)|
            #[trigger] contains_name(tr1, x) ==> contains_name(tr2, x),
    ensures
        cover_count(names, tr1, k) <= cover_count(names, tr2, k),
    decreases names.len() - k,
{
    if k < names.len() {
        lemma_cover_count_mono(names, tr1, tr2, k + 1);
    }
}

proof fn lemma_cover_count_strict(
    names: Seq<(Seq<char>, Seq<char>)>,
    tr1: Seq<FullTaskName>,
    tr2: Seq<FullTaskName>,
    k: int,
    i: int,
)
    requires
        0 <= k <= names.len(),
        forall|x: (Seq<char>, Seq<char>)|
            #[trigger] contains_name(tr1, x) ==> contains_name(tr2, x),
        k <= i < names.len(),
        !contains_name(tr1, names[i]),
        contains_name(tr2, names[i]),
    ensures
        cover_count(names, tr1, k) + 1 <= cover_count(names, tr2, k),
    decreases names.len() - k,
{
    if k < i {
        lemma_cover_count_strict(names, tr1, tr2, k + 1, i);
    } else {
        lemma_cover_count_mono(names, tr1, tr2, k + 1);
    }
}

/// Pushing a yet-uncovered name onto the traversal list raises the covered
/// count and keeps every covered name covered.
proof fn lemma_cover_push(
    names: Seq<(Seq<char>, Seq<char>)>,
    tr: Seq<FullTaskName>,
    e: FullTaskName,
)
    requires
        names.contains(e@),
        !contains_name(tr, e@),
    ensures
        forall|x: (Seq<char>, Seq<char>)|
            #[trigger] contains_name(tr, x) ==> contains_name(tr.push(e), x),
        cover_count(names, tr.push(e), 0) >= cover_count(names, tr, 0) + 1,
{
    assert forall|x: (Seq<char>, Seq<char>)| #[trigger] contains_name(tr, x) implies contains_name(
        tr.push(e),
        x,
    ) by {
        let j = choose|j: int| 0 <= j < tr.len() && tr[j]@ == x;
        assert(tr.push(e)[j]@ == x);
    }
    let i = choose|i: int| 0 <= i < names.len() && names[i] == e@;
    assert(tr.push(e)[tr.len() as int]@ == e@);
    assert(contains_name(tr.push(e), names[i]));
    lemma_cover_count_strict(names, tr, tr.push(e), 0, i);
}


/// Appending a freshly walked chain preserves linearity, disjointness and
/// the bookkeeping of which names have been placed.
proof fn lemma_emit_chain(
    c: CompSpec,
    pre: Seq<Vec<FullTaskName>>,
    chain: Vec<FullTaskName>,
    chain_rev: Seq<FullTaskName>,
    traversed: Seq<FullTaskName>,
)
    requires
        chains_linear(c, pre),
        chains_disjoint(pre),
        chain@.len() == chain_rev.len(),
        chain_rev.len() >= 1,
        forall|k: int|
            0 <= k < chain@.len() ==> (#[trigger] chain@[k])@ == chain_rev[chain_rev.len() - 1
                - k]@,
        forall|j: int| 0 <= j < chain_rev.len() ==> c.has_task((#[trigger] chain_rev[j])@),
        forall|j: int, j2: int|
            0 <= j < j2 < chain_rev.len() ==> (#[trigger] chain_rev[j])@ != (
            #[trigger] chain_rev[j2])@,
        forall|j: int|
            0 <= j < chain_rev.len() - 1 ==> (#[trigger] chain_rev[j + 1])@ == c.task_named(
                chain_rev[j]@,
            ).unwrap().parents[0],
        forall|ci: int, j: int|
            0 <= ci < pre.len() && 0 <= j < pre[ci]@.len() ==> contains_name(
                traversed,
                (#[trigger] pre[ci]@[j])@,
            ),
        forall|j: int| 0 <= j < chain_rev.len() ==> contains_name(traversed, (#[trigger] chain_rev[j])@),
        forall|ci: int, j: int, k: int|
            0 <= ci < pre.len() && 0 <= j < pre[ci]@.len() && 0 <= k < chain_rev.len() ==> (
            #[trigger] pre[ci]@[j])@ != (#[trigger] chain_rev[k])@,
    ensures
        chains_linear(c, pre.push(chain)),
        chains_disjoint(pre.push(chain)),
        forall|ci: int, j: int|
            0 <= ci < pre.push(chain).len() && 0 <= j < pre.push(chain)[ci]@.len()
                ==> contains_name(traversed, (#[trigger] pre.push(chain)[ci]@[j])@),
        forall|x: (Seq<char>, Seq<char>)|
            in_chains(pre, x) || (exists|k: int| 0 <= k < chain_rev.len() && (
            #[trigger] chain_rev[k])@ == x) ==> in_chains(pre.push(chain), x),
{
    let m = chain_rev.len();
    let chains = pre.push(chain);
    let cnew = chains.len() - 1;
    assert forall|ci: int| 0 <= ci < chains.len() implies {
        &&& (#[trigger] chains[ci])@.len() >= 1
        &&& forall|j: int| 0 <= j < chains[ci]@.len() ==> c.has_task((#[trigger] chains[ci]@[j])@)
        &&& forall|j: int|
            0 <= j < chains[ci]@.len() - 1 ==> (#[trigger] chains[ci]@[j])@ == c.task_named(
                chains[ci]@[j + 1]@,
            ).unwrap().parents[0]
    } by {
        if ci < cnew {
            assert(chains[ci] == pre[ci]);
        } else {
            assert(chains[ci] == chain);
            assert forall|j: int| 0 <= j < chain@.len() implies c.has_task((
            #[trigger] chain@[j])@) by {
                assert(chain@[j]@ == chain_rev[m - 1 - j]@);
            }
            assert forall|j: int| 0 <= j < chain@.len() - 1 implies (#[trigger] chain@[j])@
                == c.task_named(chain@[j + 1]@).unwrap().parents[0] by {
                assert(chain@[j]@ == chain_rev[m - 1 - j]@);
                assert(chain@[j + 1]@ == chain_rev[m - 2 - j]@);
                assert(chain_rev[(m - 2 - j) + 1]@ == c.task_named(
                    chain_rev[m - 2 - j]@,
                ).unwrap().parents[0]);
            }
        }
    }
    assert forall|ci: int, j: int, c2: int, j2: int|
        0 <= ci < chains.len() && 0 <= j < chains[ci]@.len() && 0 <= c2 < chains.len() && 0 <= j2
            < chains[c2]@.len() && (ci != c2 || j != j2) implies (#[trigger] chains[ci]@[j])@ != (
    #[trigger] chains[c2]@[j2])@ by {
        if ci == cnew && c2 == cnew {
            assert(chains[ci]@[j]@ == chain_rev[m - 1 - j]@);
            assert(chains[c2]@[j2]@ == chain_rev[m - 1 - j2]@);
        } else if ci == cnew {
            assert(chains[c2] == pre[c2]);
            assert(chains[ci]@[j]@ == chain_rev[m - 1 - j]@);
        } else if c2 == cnew {
            assert(chains[ci] == pre[ci]);
            assert(chains[c2]@[j2]@ == chain_rev[m - 1 - j2]@);
        } else {
            assert(chains[ci] == pre[ci]);
            assert(chains[c2] == pre[c2]);
        }
    }
    assert forall|ci: int, j: int|
        0 <= ci < chains.len() && 0 <= j < chains[ci]@.len() implies contains_name(
        traversed,
        (#[trigger] chains[ci]@[j])@,
    ) by {
        if ci < cnew {
            assert(chains[ci] == pre[ci]);
        } else {
            assert(chains[ci]@[j]@ == chain_rev[m - 1 - j]@);
        }
    }
    assert forall|x: (Seq<char>, Seq<char>)|
        in_chains(pre, x) || (exists|k: int| 0 <= k < chain_rev.len() && (
        #[trigger] chain_rev[k])@ == x) implies in_chains(chains, x) by {
        if in_chains(pre, x) {
            let (ci, j) = choose|ci: int, j: int|
                0 <= ci < pre.len() && 0 <= j < pre[ci]@.len() && pre[ci]@[j]@ == x;
            assert(chains[ci]@[j]@ == x);
        } else {
            let k = choose|k: int| 0 <= k < chain_rev.len() && (#[trigger] chain_rev[k])@ == x;
            assert(chains[cnew as int]@[m - 1 - k]@ == chain_rev[k]@);
        }
    }
}

impl UnloadedComposition {
    /// Partition the task graph into linear chains, greedily: pick the
    /// untraversed node with the most children, walk backwards along first
    /// parents while the walk stays unambiguous and fresh, and emit the walk
    /// in execution order.
    #[verifier::rlimit(100)]
    pub fn chain_name_lists(&self) -> (chains: Vec<Vec<FullTaskName>>)
        requires
            self@.wf(),
            tasks_have_parents(self@),
        ensures
            chains_linear(self@, chains@),
            chains_disjoint(chains@),
            forall|x: (Seq<char>, Seq<char>)|
                #[trigger] self@.has_task(x) ==> in_chains(chains@, x),
    {
        let ghost c = self@;
        let ghost names = comp_task_names(self@.crates, 0);
        let mut chains: Vec<Vec<FullTaskName>> = Vec::new();
        let mut traversed: Vec<FullTaskName> = Vec::new();
        loop
            invariant
                c == self@,
                c.wf(),
                tasks_have_parents(c),
                names == comp_task_names(c.crates, 0),
                chains_linear(c, chains@),
                chains_disjoint(chains@),
                forall|ci: int, j: int|
                    0 <= ci < chains@.len() && 0 <= j < chains@[ci]@.len() ==> contains_name(
                        traversed@,
                        (#[trigger] chains@[ci]@[j])@,
                    ),
                forall|x: (Seq<char>, Seq<char>)|
                    #[trigger] contains_name(traversed@, x) ==> in_chains(chains@, x),
            decreases names.len() - cover_count(names, traversed@, 0),
        {
            proof {
                lemma_cover_count_le(names, traversed@, 0);
            }
            let best = match self.get_best_last_node_for_fulfiller_chain(&traversed) {
                None => {
                    proof {
                        lemma_comp_task_names_membership(c.crates, 0);
                        assert forall|x: (Seq<char>, Seq<char>)| #[trigger] c.has_task(x) implies
                            in_chains(chains@, x) by {
                            assert(names.contains(x));
                            let k = choose|k: int| 0 <= k < names.len() && names[k] == x;
                            assert(contains_name(traversed@, names[k]));
                        }
                    }
                    return chains;
                },
                Some(v) => v,
            };
            let ghost count_at_start = cover_count(names, traversed@, 0);
            let ghost pre_tr0 = traversed@;
            let mut chain_rev: Vec<FullTaskName> = Vec::new();
            let bc = best.clone();
            proof {
                lemma_comp_task_names_membership(c.crates, 0);
                assert(c.has_task(bc@));
                assert(names.contains(bc@));
                lemma_cover_push(names, traversed@, bc);
            }
            traversed.push(bc);
            chain_rev.push(best);
            proof {
                assert(traversed@[pre_tr0.len() as int]@ == chain_rev@[0]@);
                assert forall|x: (Seq<char>, Seq<char>)| #[trigger] contains_name(traversed@, x)
                    implies in_chains(chains@, x) || (exists|k: int|
                    0 <= k < chain_rev@.len() && (#[trigger] chain_rev@[k])@ == x) by {
                    let j = choose|j: int| 0 <= j < traversed@.len() && traversed@[j]@ == x;
                    if j < pre_tr0.len() {
                        assert(contains_name(pre_tr0, x));
                    } else {
                        assert(chain_rev@[0]@ == x);
                    }
                }
                assert forall|ci: int, j: int, k: int|
                    0 <= ci < chains@.len() && 0 <= j < chains@[ci]@.len() && 0 <= k
                        < chain_rev@.len() implies (#[trigger] chains@[ci]@[j])@ != (
                #[trigger] chain_rev@[k])@ by {
                    assert(contains_name(pre_tr0, chains@[ci]@[j]@));
                }
            }
            loop
                invariant
                    c == self@,
                    c.wf(),
                    tasks_have_parents(c),
                    names == comp_task_names(c.crates, 0),
                    chains_linear(c, chains@),
                    chains_disjoint(chains@),
                    chain_rev@.len() >= 1,
                    forall|j: int|
                        0 <= j < chain_rev@.len() ==> c.has_task((#[trigger] chain_rev@[j])@),
                    forall|j: int|
                        0 <= j < chain_rev@.len() ==> contains_name(
                            traversed@,
                            (#[trigger] chain_rev@[j])@,
                        ),
                    forall|j: int, j2: int|
                        0 <= j < j2 < chain_rev@.len() ==> (#[trigger] chain_rev@[j])@ != (
                        #[trigger] chain_rev@[j2])@,
                    forall|j: int|
                        0 <= j < chain_rev@.len() - 1 ==> (#[trigger] chain_rev@[j + 1])@
                            == c.task_named(chain_rev@[j]@).unwrap().parents[0],
                    forall|ci: int, j: int|
                        0 <= ci < chains@.len() && 0 <= j < chains@[ci]@.len() ==> contains_name(
                            traversed@,
                            (#[trigger] chains@[ci]@[j])@,
                        ),
                    forall|ci: int, j: int, k: int|
                        0 <= ci < chains@.len() && 0 <= j < chains@[ci]@.len() && 0 <= k
                            < chain_rev@.len() ==> (#[trigger] chains@[ci]@[j])@ != (
                        #[trigger] chain_rev@[k])@,
                    forall|x: (Seq<char>, Seq<char>)|
                        #[trigger] contains_name(traversed@, x) ==> in_chains(chains@, x) || (
                        exists|k: int|
                            0 <= k < chain_rev@.len() && (#[trigger] chain_rev@[k])@ == x),
                    cover_count(names, traversed@, 0) >= count_at_start + 1,
                decreases names.len() - cover_count(names, traversed@, 0),
            {
                proof {
                    lemma_cover_count_le(names, traversed@, 0);
                }
                let tip = chain_rev.len() - 1;
                let t = match self.get_unloaded_task(&chain_rev[tip]) {
                    Some(v) => v,
                    None => {
                        return chains;  // unreachable: walk elements are tasks
                    },
                };
                if t.parents.len() != 1 {
                    break;
                }
                let nxt = t.parents[0].clone();
                proof {
                    lemma_task_named_parents_exist(c, chain_rev@[tip as int]@);
                    assert(c.task_named(chain_rev@[tip as int]@).unwrap() == t@);
                    assert(c.has_task(c.task_named(chain_rev@[tip as int]@).unwrap().parents[0]));
                    assert(t@.parents[0] == t.parents[0 as int]@);
                    assert(c.has_task(nxt@));
                }
                if crate::unloaded::list_contains_name(&traversed, &nxt) {
                    break;
                }
                let nc2 = nxt.clone();
                proof {
                    lemma_comp_task_names_membership(c.crates, 0);
                    assert(names.contains(nc2@));
                    lemma_cover_push(names, traversed@, nc2);
                }
                let ghost pre_tr = traversed@;
                let ghost pre_cr = chain_rev@;
                traversed.push(nc2);
                chain_rev.push(nxt);
                proof {
                    assert(traversed@[pre_tr.len() as int]@ == chain_rev@[chain_rev@.len() - 1]@);
                    assert(chain_rev@[chain_rev@.len() - 1]@ == c.task_named(
                        chain_rev@[chain_rev@.len() - 2]@,
                    ).unwrap().parents[0]);
                    assert forall|j: int| 0 <= j < chain_rev@.len() implies contains_name(
                        traversed@,
                        (#[trigger] chain_rev@[j])@,
                    ) by {
                        if j < chain_rev@.len() - 1 {
                            assert(contains_name(pre_tr, pre_cr[j]@));
                        } else {
                            assert(traversed@[pre_tr.len() as int]@ == chain_rev@[j]@);
                        }
                    }
                    assert forall|j: int, j2: int| 0 <= j < j2 < chain_rev@.len() implies (
                    #[trigger] chain_rev@[j])@ != (#[trigger] chain_rev@[j2])@ by {
                        if j2 == chain_rev@.len() - 1 {
                            assert(contains_name(pre_tr, pre_cr[j]@));
                        }
                    }
                    assert forall|ci: int, j: int, k: int|
                        0 <= ci < chains@.len() && 0 <= j < chains@[ci]@.len() && 0 <= k
                            < chain_rev@.len() implies (#[trigger] chains@[ci]@[j])@ != (
                    #[trigger] chain_rev@[k])@ by {
                        if k == chain_rev@.len() - 1 {
                            assert(contains_name(pre_tr, chains@[ci]@[j]@));
                        } else {
                            assert(chain_rev@[k] == pre_cr[k]);
                        }
                    }
                    assert forall|x: (Seq<char>, Seq<char>)| #[trigger] contains_name(
                        traversed@,
                        x,
                    ) implies in_chains(chains@, x) || (exists|k: int|
                        0 <= k < chain_rev@.len() && (#[trigger] chain_rev@[k])@ == x) by {
                        let j = choose|j: int| 0 <= j < traversed@.len() && traversed@[j]@ == x;
                        if j < pre_tr.len() {
                            assert(contains_name(pre_tr, x));
                            if !in_chains(chains@, x) {
                                let k = choose|k: int|
                                    0 <= k < pre_cr.len() && (#[trigger] pre_cr[k])@ == x;
                                assert(chain_rev@[k]@ == x);
                            }
                        } else {
                            assert(chain_rev@[chain_rev@.len() - 1]@ == x);
                        }
                    }
                    lemma_cover_count_le(names, traversed@, 0);
                }
            }
            // emit the walk in execution order
            let m = chain_rev.len();
            let mut chain: Vec<FullTaskName> = Vec::new();
            for j in 0..m
                invariant
                    m == chain_rev@.len(),
                    chain@.len() == j,
                    forall|k: int| 0 <= k < j ==> (#[trigger] chain@[k])@ == chain_rev@[m - 1 - k]@,
            {
                chain.push(chain_rev[m - 1 - j].clone());
            }
            let ghost pre_chains = chains@;
            let ghost g_chain_rev = chain_rev@;
            let ghost g_traversed = traversed@;
            proof {
                lemma_emit_chain(c, pre_chains, chain, g_chain_rev, g_traversed);
            }
            chains.push(chain);
            proof {
                assert forall|x: (Seq<char>, Seq<char>)| #[trigger] contains_name(traversed@, x)
                    implies in_chains(chains@, x) by {
                    assert(in_chains(pre_chains, x) || (exists|k: int|
                        0 <= k < g_chain_rev.len() && (#[trigger] g_chain_rev[k])@ == x));
                }
                lemma_cover_count_le(names, traversed@, 0);
            }
        }
    }
}

} // verus!
