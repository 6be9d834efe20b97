//! Composition validation: every task must sit in a cycle whose ancestors
//! include an entrypoint, and no two unsynchronized tasks of different
//! crates may both demand exclusive access to one datachunk.
//!
//! `LoadedComposition::check` hands back a [`Checked`] marker; constructing
//! a loaded composition demands one, so an unvalidated graph never runs.

use vstd::prelude::*;
use crate::access::AccessType;
use crate::errors::{
    CustardDatachunkAccessError, CustardNotInCycleError, CustardUnreachableTaskError,
};
use crate::identify::{FullDatachunkName, FullTaskName};
use crate::unloaded::{
    assoc, assoc_from, comp_task_names, lemma_comp_task_names_membership, reaches,
    task_has_parent, unique_keys, CompSpec, TaskSpec, UnloadedComposition, UnloadedTask,
    view_marked,
};

verus! {

/// `x` lies on a cycle: some ancestor of `x` has `x` among its parents.
pub open spec fn in_cycle(c: CompSpec, x: (Seq<char>, Seq<char>)) -> bool {
    exists|y: (Seq<char>, Seq<char>)|
        reaches(c, x, y) && task_has_parent(c.task_named(y).unwrap(), x)
}

/// Some ancestor of `x` (possibly `x` itself) is an entrypoint.
pub open spec fn entry_seen(c: CompSpec, x: (Seq<char>, Seq<char>)) -> bool {
    exists|y: (Seq<char>, Seq<char>)| reaches(c, x, y) && c.task_named(y).unwrap().entrypoint
}

/// Tasks `ta` and `tb` both declare exclusive access to datachunk `d`.
pub open spec fn conflict_on(ta: TaskSpec, tb: TaskSpec, d: (Seq<char>, Seq<char>)) -> bool {
    exists|i: int, j: int|
        0 <= i < ta.accesses.len() && 0 <= j < tb.accesses.len() && ta.accesses[i].0 == d
            && tb.accesses[j].0 == d && ta.accesses[i].1 == AccessType::MutableAccess
            && tb.accesses[j].1 == AccessType::MutableAccess
}

/// The two tasks conflict on some datachunk.
pub open spec fn accesses_conflict(ta: TaskSpec, tb: TaskSpec) -> bool {
    exists|d: (Seq<char>, Seq<char>)| conflict_on(ta, tb, d)
}

/// The pair the validator rejects: distinct crates, distinct task names,
/// unsynchronized, with an exclusive/exclusive overlap.
pub open spec fn cross_conflict(
    c: CompSpec,
    a: (Seq<char>, Seq<char>),
    b: (Seq<char>, Seq<char>),
) -> bool {
    &&& c.has_task(a)
    &&& c.has_task(b)
    &&& a.0 != b.0
    &&& a.1 != b.1
    &&& !reaches(c, a, b)
    &&& !reaches(c, b, a)
    &&& accesses_conflict(c.task_named(a).unwrap(), c.task_named(b).unwrap())
}

/// What the validator establishes of a composition.
pub open spec fn validated(c: CompSpec) -> bool {
    &&& c.wf()
    &&& forall|x: (Seq<char>, Seq<char>)|
        #[trigger] c.has_task(x) ==> in_cycle(c, x) && entry_seen(c, x)
    &&& forall|a: (Seq<char>, Seq<char>), b: (Seq<char>, Seq<char>)| !cross_conflict(c, a, b)
}

/// Proof that a composition passed validation. Only `check` constructs one.
pub struct Checked {
    comp: Ghost<CompSpec>,
}

impl Checked {
    /// The composition this marker vouches for.
    pub closed spec fn comp(self) -> CompSpec {
        self.comp@
    }
}

/// Why validation rejected a composition.
#[derive(Debug)]
pub enum CheckError {
    NotInCycle(CustardNotInCycleError),
    Unreachable(CustardUnreachableTaskError),
    Access(CustardDatachunkAccessError),
}

/// An entry of a uniquely-keyed association list is exactly what lookup of
/// its key yields.
pub proof fn lemma_assoc_unique_index<V>(s: Seq<(Seq<char>, V)>, i: int)
    requires
        unique_keys(s),
        0 <= i < s.len(),
    ensures
        assoc(s, s[i].0) == Some(s[i].1),
{
    lemma_assoc_unique_index_from(s, i, 0);
}

proof fn lemma_assoc_unique_index_from<V>(s: Seq<(Seq<char>, V)>, i: int, k: int)
    requires
        unique_keys(s),
        0 <= k <= i < s.len(),
    ensures
        assoc_from(s, s[i].0, k) == Some(s[i].1),
    decreases i - k,
{
    if k < i {
        assert(s[k].0 != s[i].0);
        lemma_assoc_unique_index_from(s, i, k + 1);
    }
}

/// A task on a cycle has at least one parent.
pub proof fn lemma_in_cycle_has_parent(c: CompSpec, x: (Seq<char>, Seq<char>))
    requires
        in_cycle(c, x),
    ensures
        c.task_named(x).unwrap().parents.len() >= 1,
{
    let y = choose|y: (Seq<char>, Seq<char>)|
        reaches(c, x, y) && task_has_parent(c.task_named(y).unwrap(), x);
    let p = choose|p: Seq<(Seq<char>, Seq<char>)>|
        crate::unloaded::is_parent_path(c, p) && p.first() == x && p.last() == y;
    if p.len() == 1 {
        assert(y == x);
        let k = choose|k: int|
            0 <= k < c.task_named(y).unwrap().parents.len() && c.task_named(
                y,
            ).unwrap().parents[k] == x;
    } else {
        assert(task_has_parent(c.task_named(p[0]).unwrap(), p[1]));
        let k = choose|k: int|
            0 <= k < c.task_named(x).unwrap().parents.len() && c.task_named(
                x,
            ).unwrap().parents[k] == p[1];
    }
}

/// In a validated composition every task has a parent, which is what the
/// chain builder walks along.
pub proof fn lemma_validated_tasks_have_parents(c: CompSpec)
    requires
        validated(c),
    ensures
        crate::chains::tasks_have_parents(c),
{
    assert forall|ci: int, ti: int|
        0 <= ci < c.crates.len() && 0 <= ti < c.crates[ci].1.tasks.len() implies (
    #[trigger] c.crates[ci].1.tasks[ti].1).parents.len() >= 1 by {
        let x = (c.crates[ci].0, c.crates[ci].1.tasks[ti].0);
        lemma_assoc_unique_index(c.crates, ci);
        lemma_assoc_unique_index(c.crates[ci].1.tasks, ti);
        assert(c.task_named(x) == Some(c.crates[ci].1.tasks[ti].1));
        assert(c.has_task(x));
        assert(in_cycle(c, x));
        lemma_in_cycle_has_parent(c, x);
    }
}

/// Law: a task that declares no accesses never takes part in a cross-access
/// conflict, on either side of the pair.
pub proof fn lemma_empty_accesses_never_conflict(
    c: CompSpec,
    a: (Seq<char>, Seq<char>),
    b: (Seq<char>, Seq<char>),
)
    requires
        c.has_task(a),
        c.task_named(a).unwrap().accesses.len() == 0,
    ensures
        !cross_conflict(c, a, b),
        !cross_conflict(c, b, a),
{
    let ta = c.task_named(a).unwrap();
    if cross_conflict(c, a, b) {
        let tb = c.task_named(b).unwrap();
        let d = choose|d: (Seq<char>, Seq<char>)| conflict_on(ta, tb, d);
        let (i, j) = choose|i: int, j: int|
            0 <= i < ta.accesses.len() && 0 <= j < tb.accesses.len() && ta.accesses[i].0 == d
                && tb.accesses[j].0 == d && ta.accesses[i].1 == AccessType::MutableAccess
                && tb.accesses[j].1 == AccessType::MutableAccess;
        assert(false);
    }
    if cross_conflict(c, b, a) {
        let tb = c.task_named(b).unwrap();
        let d = choose|d: (Seq<char>, Seq<char>)| conflict_on(tb, ta, d);
        let (i, j) = choose|i: int, j: int|
            0 <= i < tb.accesses.len() && 0 <= j < ta.accesses.len() && tb.accesses[i].0 == d
                && ta.accesses[j].0 == d && tb.accesses[i].1 == AccessType::MutableAccess
                && ta.accesses[j].1 == AccessType::MutableAccess;
        assert(false);
    }
}

/// Does `x` occur among the task's parents?
fn task_parents_contain(t: &UnloadedTask, x: &FullTaskName) -> (r: bool)
    ensures
        r == task_has_parent(t@, x@),
{
    let np: usize = t.parents.len();
    for pi in 0..np
        invariant
            np == t.parents.len(),
            forall|k: int| 0 <= k < pi ==> t@.parents[k] != x@,
    {
        assert(t@.parents[pi as int] == t.parents[pi as int]@);
        if &t.parents[pi] == x {
            return true;
        }
    }
    false
}

/// The first datachunk on which the two tasks both demand exclusive access.
fn find_conflict(ta: &UnloadedTask, tb: &UnloadedTask) -> (r: Option<FullDatachunkName>)
    ensures
        match r {
            Some(d) => conflict_on(ta@, tb@, d@),
            None => !accesses_conflict(ta@, tb@),
        },
{
    let na: usize = ta.accesses.len();
    for i in 0..na
        invariant
            na == ta.accesses.len(),
            forall|i2: int, j2: int|
                0 <= i2 < i && 0 <= j2 < tb@.accesses.len() ==> !(ta@.accesses[i2].0
                    == tb@.accesses[j2].0 && ta@.accesses[i2].1 == AccessType::MutableAccess
                    && tb@.accesses[j2].1 == AccessType::MutableAccess),
    {
        let nb: usize = tb.accesses.len();
        for j in 0..nb
            invariant
                na == ta.accesses.len(),
                nb == tb.accesses.len(),
                i < na,
                forall|i2: int, j2: int|
                    0 <= i2 < i && 0 <= j2 < tb@.accesses.len() ==> !(ta@.accesses[i2].0
                        == tb@.accesses[j2].0 && ta@.accesses[i2].1 == AccessType::MutableAccess
                        && tb@.accesses[j2].1 == AccessType::MutableAccess),
                forall|j2: int|
                    0 <= j2 < j ==> !(ta@.accesses[i as int].0 == tb@.accesses[j2].0
                        && ta@.accesses[i as int].1 == AccessType::MutableAccess
                        && tb@.accesses[j2].1 == AccessType::MutableAccess),
        {
            assert(ta@.accesses[i as int] == (ta.accesses[i as int].of@, ta.accesses[
                i as int
            ].mut_immut));
            assert(tb@.accesses[j as int] == (tb.accesses[j as int].of@, tb.accesses[
                j as int
            ].mut_immut));
            if &ta.accesses[i].of == &tb.accesses[j].of {
                if !ta.accesses[i].mut_immut.commensurable(&tb.accesses[j].mut_immut) {
                    return Some(ta.accesses[i].of.clone());
                }
            }
        }
    }
    assert forall|d: (Seq<char>, Seq<char>)| !conflict_on(ta@, tb@, d) by {
        if conflict_on(ta@, tb@, d) {
            let (i2, j2) = choose|i2: int, j2: int|
                0 <= i2 < ta@.accesses.len() && 0 <= j2 < tb@.accesses.len() && ta@.accesses[i2].0
                    == d && tb@.accesses[j2].0 == d && ta@.accesses[i2].1
                    == AccessType::MutableAccess && tb@.accesses[j2].1
                    == AccessType::MutableAccess;
        }
    }
    None
}

impl crate::loaded::LoadedComposition {
    /// Reject any task that is not on a cycle, or whose ancestry holds no
    /// entrypoint.
    pub(crate) fn ancestor_check(composition: &UnloadedComposition) -> (r: Result<
        (),
        CheckError,
    >)
        requires
            composition@.wf(),
        ensures
            match r {
                Ok(()) => forall|x: (Seq<char>, Seq<char>)|
                    #[trigger] composition@.has_task(x) ==> in_cycle(composition@, x)
                        && entry_seen(composition@, x),
                Err(CheckError::NotInCycle(e)) => composition@.has_task(e.offending_task@)
                    && !in_cycle(composition@, e.offending_task@),
                Err(CheckError::Unreachable(e)) => composition@.has_task(e.offending_task@)
                    && in_cycle(composition@, e.offending_task@) && !entry_seen(
                    composition@,
                    e.offending_task@,
                ),
                Err(CheckError::Access(_)) => false,
            },
    {
        let ghost c = composition@;
        let all = composition.all_task_names();
        let n: usize = all.len();
        for i in 0..n
            invariant
                c == composition@,
                c.wf(),
                n == all@.len(),
                crate::unloaded::covers(c, all@),
                forall|i2: int|
                    0 <= i2 < i ==> in_cycle(c, (#[trigger] all@[i2])@) && entry_seen(
                        c,
                        all@[i2]@,
                    ),
        {
            let start = &all[i];
            let marks = composition.ancestor_marks(&all, start);
            let mut found = false;
            let mut entry = false;
            for j in 0..n
                invariant
                    c == composition@,
                    c.wf(),
                    n == all@.len(),
                    marks@.len() == n,
                    crate::unloaded::covers(c, all@),
                    i < n,
                    start == all@[i as int],
                    forall|jj: int| 0 <= jj < n && marks@[jj] ==> reaches(c, start@, all@[jj]@),
                    forall|x: (Seq<char>, Seq<char>)|
                        #[trigger] reaches(c, start@, x) ==> view_marked(all@, marks@, x),
                    found == exists|j2: int|
                        0 <= j2 < j && marks@[j2] && task_has_parent(
                            c.task_named((#[trigger] all@[j2])@).unwrap(),
                            start@,
                        ),
                    entry == exists|j2: int|
                        0 <= j2 < j && marks@[j2] && c.task_named(
                            (#[trigger] all@[j2])@,
                        ).unwrap().entrypoint,
            {
                if marks[j] {
                    let t = match composition.get_unloaded_task(&all[j]) {
                        Some(v) => v,
                        None => {
                            return Ok(());  // unreachable: every listed name is a task
                        },
                    };
                    let ghost pre_found = found;
                    let ghost pre_entry = entry;
                    if t.entrypoint {
                        entry = true;
                    }
                    if task_parents_contain(t, start) {
                        found = true;
                    }
                    proof {
                        if found && !pre_found {
                            assert(marks@[j as int] && task_has_parent(
                                c.task_named(all@[j as int]@).unwrap(),
                                start@,
                            ));
                        }
                        if entry && !pre_entry {
                            assert(marks@[j as int] && c.task_named(
                                all@[j as int]@,
                            ).unwrap().entrypoint);
                        }
                    }
                }
            }
            if !found {
                proof {
                    if in_cycle(c, start@) {
                        let y = choose|y: (Seq<char>, Seq<char>)|
                            reaches(c, start@, y) && task_has_parent(
                                c.task_named(y).unwrap(),
                                start@,
                            );
                        assert(view_marked(all@, marks@, y));
                        let j2 = choose|j2: int|
                            0 <= j2 < all@.len() && marks@[j2] && all@[j2]@ == y;
                    }
                }
                return Err(
                    CheckError::NotInCycle(
                        CustardNotInCycleError { offending_task: all[i].clone() },
                    ),
                );
            }
            if !entry {
                proof {
                    let j2 = choose|j2: int|
                        0 <= j2 < n && marks@[j2] && task_has_parent(
                            c.task_named((#[trigger] all@[j2])@).unwrap(),
                            start@,
                        );
                    assert(in_cycle(c, start@));
                    if entry_seen(c, start@) {
                        let y = choose|y: (Seq<char>, Seq<char>)|
                            reaches(c, start@, y) && c.task_named(y).unwrap().entrypoint;
                        assert(view_marked(all@, marks@, y));
                        let j3 = choose|j3: int|
                            0 <= j3 < all@.len() && marks@[j3] && all@[j3]@ == y;
                    }
                }
                return Err(
                    CheckError::Unreachable(
                        CustardUnreachableTaskError { offending_task: all[i].clone() },
                    ),
                );
            }
            proof {
                let j2 = choose|j2: int|
                    0 <= j2 < n && marks@[j2] && task_has_parent(
                        c.task_named((#[trigger] all@[j2])@).unwrap(),
                        start@,
                    );
                assert(in_cycle(c, start@));
                let j3 = choose|j3: int|
                    0 <= j3 < n && marks@[j3] && c.task_named(
                        (#[trigger] all@[j3])@,
                    ).unwrap().entrypoint;
                assert(entry_seen(c, start@));
            }
        }
        proof {
            assert forall|x: (Seq<char>, Seq<char>)| #[trigger] c.has_task(x) implies in_cycle(
                c,
                x,
            ) && entry_seen(c, x) by {
                let j = choose|j: int| 0 <= j < all@.len() && all@[j]@ == x;
            }
        }
        Ok(())
    }

    /// Reject any unsynchronized pair of tasks, in different crates and
    /// under different task names, that overlaps exclusively on a datachunk.
    pub(crate) fn cross_access_check(composition: &UnloadedComposition) -> (r: Result<
        (),
        CheckError,
    >)
        requires
            composition@.wf(),
        ensures
            match r {
                Ok(()) => forall|a: (Seq<char>, Seq<char>), b: (Seq<char>, Seq<char>)|
                    !cross_conflict(composition@, a, b),
                Err(CheckError::Access(e)) => cross_conflict(composition@, e.task_a@, e.task_b@)
                    && conflict_on(
                    composition@.task_named(e.task_a@).unwrap(),
                    composition@.task_named(e.task_b@).unwrap(),
                    e.datachunk@,
                ),
                Err(_) => false,
            },
    {
        let ghost c = composition@;
        let all = composition.all_task_names();
        let n: usize = all.len();
        for i in 0..n
            invariant
                c == composition@,
                c.wf(),
                n == all@.len(),
                crate::unloaded::covers(c, all@),
                forall|i2: int, j2: int|
                    0 <= i2 < i && 0 <= j2 < n ==> !cross_conflict(
                        c,
                        (#[trigger] all@[i2])@,
                        (#[trigger] all@[j2])@,
                    ),
        {
            for j in 0..n
                invariant
                    c == composition@,
                    c.wf(),
                    n == all@.len(),
                    crate::unloaded::covers(c, all@),
                    i < n,
                    forall|i2: int, j2: int|
                        0 <= i2 < i && 0 <= j2 < n ==> !cross_conflict(
                            c,
                            (#[trigger] all@[i2])@,
                            (#[trigger] all@[j2])@,
                        ),
                    forall|j2: int|
                        0 <= j2 < j ==> !cross_conflict(
                            c,
                            all@[i as int]@,
                            (#[trigger] all@[j2])@,
                        ),
            {
                let a = &all[i];
                let b = &all[j];
                let mut skip = &a.crate_name == &b.crate_name;
                if !skip && &a.task_name == &b.task_name {
                    skip = true;
                }
                if !skip && !composition.are_tasks_unsynchronized(a.clone(), b.clone()) {
                    skip = true;
                }
                if !skip {
                    let ta = match composition.get_unloaded_task(a) {
                        Some(v) => v,
                        None => {
                            return Ok(());  // unreachable: every listed name is a task
                        },
                    };
                    let tb = match composition.get_unloaded_task(b) {
                        Some(v) => v,
                        None => {
                            return Ok(());  // unreachable: every listed name is a task
                        },
                    };
                    match find_conflict(ta, tb) {
                        Some(d) => {
                            return Err(
                                CheckError::Access(
                                    CustardDatachunkAccessError {
                                        task_a: a.clone(),
                                        task_b: b.clone(),
                                        datachunk: d,
                                    },
                                ),
                            );
                        },
                        None => {},
                    }
                }
            }
        }
        proof {
            assert forall|a: (Seq<char>, Seq<char>), b: (Seq<char>, Seq<char>)| !cross_conflict(
                c,
                a,
                b,
            ) by {
                if cross_conflict(c, a, b) {
                    let ia = choose|ia: int| 0 <= ia < all@.len() && all@[ia]@ == a;
                    let ib = choose|ib: int| 0 <= ib < all@.len() && all@[ib]@ == b;
                }
            }
        }
        Ok(())
    }

    /// Validate a composition. The returned marker vouches, to every later
    /// construction step, that the composition is well formed, that every
    /// task sits on an entrypoint-reaching cycle, and that no unsynchronized
    /// cross-crate pair conflicts on a datachunk.
    pub fn check(unchecked: &UnloadedComposition) -> (r: Result<Checked, CheckError>)
        requires
            unchecked@.wf(),
        ensures
            match r {
                Ok(ch) => ch.comp() == unchecked@ && validated(unchecked@),
                Err(_) => !validated(unchecked@),
            },
    {
        match Self::cross_access_check(unchecked) {
            Ok(()) => {},
            Err(e) => {
                proof {
                    match &e {
                        CheckError::Access(ea) => {
                            assert(cross_conflict(unchecked@, ea.task_a@, ea.task_b@));
                        },
                        _ => {},
                    }
                }
                return Err(e);
            },
        }
        match Self::ancestor_check(unchecked) {
            Ok(()) => {},
            Err(e) => {
                return Err(e);
            },
        }
        Ok(Checked { comp: Ghost(unchecked@) })
    }
}

} // verus!
