//! The in-memory form of a composition before plugins are materialized:
//! crates, their tasks and datachunks, and the graph primitives used by the
//! validator and the chain builder.

use vstd::prelude::*;
use crate::access::{Access, AccessType};
use crate::identify::{CrateName, DatachunkName, FullTaskName, TaskName};

verus! {

/// Mathematical model of an `UnloadedDatachunk`.
#[verifier::ext_equal]
pub ghost struct DatachunkSpec {
    pub kind_name: Seq<char>,
    pub deserialize_path: Seq<char>,
}

/// Mathematical model of an `UnloadedTask`.
#[verifier::ext_equal]
pub ghost struct TaskSpec {
    pub kind_name: Seq<char>,
    pub deserialize_path: Seq<char>,
    pub parents: Seq<(Seq<char>, Seq<char>)>,
    pub accesses: Seq<((Seq<char>, Seq<char>), AccessType)>,
    pub entrypoint: bool,
}

/// Mathematical model of an `UnloadedCrate`.
#[verifier::ext_equal]
pub ghost struct CrateSpec {
    pub datachunks: Seq<(Seq<char>, DatachunkSpec)>,
    pub tasks: Seq<(Seq<char>, TaskSpec)>,
}

/// Mathematical model of an `UnloadedComposition`.
#[verifier::ext_equal]
pub ghost struct CompSpec {
    pub crates: Seq<(Seq<char>, CrateSpec)>,
    pub children: Seq<Seq<char>>,
}

/// A datachunk before its plugin materializes it: the plugin-side type and
/// the path of the blob handed to the plugin's deserializer.
#[derive(Debug)]
pub struct UnloadedDatachunk {
    pub kind_name: String,
    pub deserialize_path: String,
}

impl View for UnloadedDatachunk {
    type V = DatachunkSpec;

    open spec fn view(&self) -> DatachunkSpec {
        DatachunkSpec { kind_name: self.kind_name@, deserialize_path: self.deserialize_path@ }
    }
}

impl Clone for UnloadedDatachunk {
    fn clone(&self) -> (r: Self)
        ensures
            r@ == self@,
    {
        Self {
            kind_name: self.kind_name.clone(),
            deserialize_path: self.deserialize_path.clone(),
        }
    }
}

/// A task before its plugin materializes it: plugin-side type, blob path,
/// prerequisite edges, declared accesses and the entrypoint flag.
#[derive(Debug)]
pub struct UnloadedTask {
    pub kind_name: String,
    pub deserialize_path: String,
    pub parents: Vec<FullTaskName>,
    pub accesses: Vec<Access>,
    pub entrypoint: bool,
}

impl View for UnloadedTask {
    type V = TaskSpec;

    open spec fn view(&self) -> TaskSpec {
        TaskSpec {
            kind_name: self.kind_name@,
            deserialize_path: self.deserialize_path@,
            parents: self.parents@.map_values(|p: FullTaskName| p@),
            accesses: self.accesses@.map_values(|a: Access| (a.of@, a.mut_immut)),
            entrypoint: self.entrypoint,
        }
    }
}

/// The dependency-relevant slice of a task: parents, accesses, entrypoint.
#[derive(Debug)]
pub struct UnloadedOCTask {
    pub parents: Vec<FullTaskName>,
    pub accesses: Vec<Access>,
    pub entrypoint: bool,
}

/// One crate of a composition before loading: its datachunks and tasks,
/// keyed by name. The key sequences carry unique keys (see `CompSpec` well-
/// formedness); iteration order is the order of the description.
#[derive(Debug)]
pub struct UnloadedCrate {
    pub datachunks: Vec<(DatachunkName, UnloadedDatachunk)>,
    pub tasks: Vec<(TaskName, UnloadedTask)>,
}

impl View for UnloadedCrate {
    type V = CrateSpec;

    open spec fn view(&self) -> CrateSpec {
        CrateSpec {
            datachunks: self.datachunks@.map_values(
                |p: (DatachunkName, UnloadedDatachunk)| (p.0@, p.1@),
            ),
            tasks: self.tasks@.map_values(|p: (TaskName, UnloadedTask)| (p.0@, p.1@)),
        }
    }
}

/// A composition before loading: its crates keyed by name, plus the child
/// crates whose own composition fragments are merged in at parse time.
#[derive(Debug)]
pub struct UnloadedComposition {
    pub crates: Vec<(CrateName, UnloadedCrate)>,
    pub children: Vec<CrateName>,
}

impl View for UnloadedComposition {
    type V = CompSpec;

    open spec fn view(&self) -> CompSpec {
        CompSpec {
            crates: self.crates@.map_values(|p: (CrateName, UnloadedCrate)| (p.0@, p.1@)),
            children: self.children@.map_values(|c: CrateName| c@),
        }
    }
}

/// Lookup by key in an association sequence, scanning from index `i`.
pub open spec fn assoc_from<V>(s: Seq<(Seq<char>, V)>, key: Seq<char>, i: int) -> Option<V>
    decreases s.len() - i,
{
    if i >= s.len() {
        None
    } else if s[i].0 == key {
        Some(s[i].1)
    } else {
        assoc_from(s, key, i + 1)
    }
}

/// Lookup by key in an association sequence.
pub open spec fn assoc<V>(s: Seq<(Seq<char>, V)>, key: Seq<char>) -> Option<V> {
    assoc_from(s, key, 0)
}

/// All keys of an association sequence are pairwise distinct.
pub open spec fn unique_keys<V>(s: Seq<(Seq<char>, V)>) -> bool {
    forall|i: int, j: int| 0 <= i < j < s.len() ==> s[i].0 != s[j].0
}

impl CompSpec {
    /// The crate of the given name, if any.
    pub open spec fn crate_named(self, name: Seq<char>) -> Option<CrateSpec> {
        assoc(self.crates, name)
    }

    /// The task of the given full name, if any.
    pub open spec fn task_named(self, name: (Seq<char>, Seq<char>)) -> Option<TaskSpec> {
        match self.crate_named(name.0) {
            None => None,
            Some(c) => assoc(c.tasks, name.1),
        }
    }

    pub open spec fn has_task(self, name: (Seq<char>, Seq<char>)) -> bool {
        self.task_named(name) is Some
    }

    /// Keys are unique at every level and every parent edge points at a task
    /// that exists in the composition.
    pub open spec fn wf(self) -> bool {
        &&& unique_keys(self.crates)
        &&& forall|ci: int|
            0 <= ci < self.crates.len() ==> unique_keys(#[trigger] self.crates[ci].1.tasks)
        &&& forall|ci: int|
            0 <= ci < self.crates.len() ==> unique_keys(#[trigger] self.crates[ci].1.datachunks)
        &&& forall|ci: int, ti: int, pi: int|
            0 <= ci < self.crates.len() && 0 <= ti < self.crates[ci].1.tasks.len() && 0 <= pi
                < self.crates[ci].1.tasks[ti].1.parents.len() ==> self.has_task(
                #[trigger] self.crates[ci].1.tasks[ti].1.parents[pi],
            )
    }
}


/// `p` names one of `t`'s parents.
pub open spec fn task_has_parent(t: TaskSpec, p: (Seq<char>, Seq<char>)) -> bool {
    exists|k: int| 0 <= k < t.parents.len() && t.parents[k] == p
}

/// A non-empty walk through the composition that follows parent edges.
pub open spec fn is_parent_path(c: CompSpec, p: Seq<(Seq<char>, Seq<char>)>) -> bool {
    &&& p.len() >= 1
    &&& forall|i: int| 0 <= i < p.len() ==> c.has_task(#[trigger] p[i])
    &&& forall|i: int|
        0 <= i < p.len() - 1 ==> task_has_parent(
            c.task_named(#[trigger] p[i]).unwrap(),
            p[i + 1],
        )
}

/// `b` is an ancestor of `a` (reflexively): some parent walk starts at `a`
/// and ends at `b`.
pub open spec fn reaches(
    c: CompSpec,
    a: (Seq<char>, Seq<char>),
    b: (Seq<char>, Seq<char>),
) -> bool {
    exists|p: Seq<(Seq<char>, Seq<char>)>| is_parent_path(c, p) && p.first() == a && p.last() == b
}

pub proof fn lemma_reaches_refl(c: CompSpec, a: (Seq<char>, Seq<char>))
    requires
        c.has_task(a),
    ensures
        reaches(c, a, a),
{
    let p = seq![a];
    assert(is_parent_path(c, p));
    assert(p.first() == a && p.last() == a);
}

pub proof fn lemma_reaches_step(
    c: CompSpec,
    a: (Seq<char>, Seq<char>),
    b: (Seq<char>, Seq<char>),
    q: (Seq<char>, Seq<char>),
)
    requires
        reaches(c, a, b),
        c.has_task(q),
        task_has_parent(c.task_named(b).unwrap(), q),
    ensures
        reaches(c, a, q),
{
    let p = choose|p: Seq<(Seq<char>, Seq<char>)>|
        is_parent_path(c, p) && p.first() == a && p.last() == b;
    let p2 = p.push(q);
    assert forall|i: int| 0 <= i < p2.len() implies c.has_task(#[trigger] p2[i]) by {
        if i < p.len() {
            assert(p2[i] == p[i]);
        }
    }
    assert forall|i: int| 0 <= i < p2.len() - 1 implies task_has_parent(
        c.task_named(#[trigger] p2[i]).unwrap(),
        p2[i + 1],
    ) by {
        if i < p.len() - 1 {
            assert(p2[i] == p[i] && p2[i + 1] == p[i + 1]);
        } else {
            assert(p2[i] == p.last() && p2[i + 1] == q);
        }
    }
    assert(is_parent_path(c, p2));
    assert(p2.first() == a && p2.last() == q);
}

/// Views with `marked` set are closed under parent edges within `all`.
pub open spec fn marked_parents_closed(c: CompSpec, all: Seq<FullTaskName>, marked: Seq<bool>) -> bool {
    forall|i: int, pi: int|
        0 <= i < all.len() && marked[i] && 0 <= pi < c.task_named(all[i]@).unwrap().parents.len()
            ==> view_marked(all, marked, #[trigger] c.task_named(all[i]@).unwrap().parents[pi])
}

/// Some index of `all` with view `x` carries a mark.
pub open spec fn view_marked(all: Seq<FullTaskName>, marked: Seq<bool>, x: (Seq<char>, Seq<char>)) -> bool {
    exists|j: int| 0 <= j < all.len() && marked[j] && all[j]@ == x
}

proof fn lemma_marked_set_catches_path(
    c: CompSpec,
    all: Seq<FullTaskName>,
    marked: Seq<bool>,
    p: Seq<(Seq<char>, Seq<char>)>,
    i: int,
)
    requires
        marked.len() == all.len(),
        marked_parents_closed(c, all, marked),
        is_parent_path(c, p),
        0 <= i < p.len(),
        view_marked(all, marked, p[i]),
    ensures
        view_marked(all, marked, p.last()),
    decreases p.len() - i,
{
    if i == p.len() - 1 {
    } else {
        assert(task_has_parent(c.task_named(p[i]).unwrap(), p[i + 1]));
        let j = choose|j: int| 0 <= j < all.len() && marked[j] && all[j]@ == p[i];
        let t = c.task_named(all[j]@).unwrap();
        let k = choose|k: int| 0 <= k < t.parents.len() && t.parents[k] == p[i + 1];
        assert(view_marked(all, marked, c.task_named(all[j]@).unwrap().parents[k]));
        lemma_marked_set_catches_path(c, all, marked, p, i + 1);
    }
}

/// If the marked views contain `a` and are parent-closed, they contain every
/// ancestor of `a`.
pub proof fn lemma_marked_contains_reachable(
    c: CompSpec,
    all: Seq<FullTaskName>,
    marked: Seq<bool>,
    a: (Seq<char>, Seq<char>),
    b: (Seq<char>, Seq<char>),
)
    requires
        marked.len() == all.len(),
        marked_parents_closed(c, all, marked),
        view_marked(all, marked, a),
        reaches(c, a, b),
    ensures
        view_marked(all, marked, b),
{
    let p = choose|p: Seq<(Seq<char>, Seq<char>)>|
        is_parent_path(c, p) && p.first() == a && p.last() == b;
    lemma_marked_set_catches_path(c, all, marked, p, 0);
}

/// The full task names of one crate, from task index `ti` on.
pub open spec fn crate_task_names(
    cn: Seq<char>,
    tasks: Seq<(Seq<char>, TaskSpec)>,
    ti: int,
) -> Seq<(Seq<char>, Seq<char>)>
    decreases tasks.len() - ti,
{
    if ti >= tasks.len() {
        Seq::empty()
    } else {
        seq![(cn, tasks[ti].0)] + crate_task_names(cn, tasks, ti + 1)
    }
}

/// The full task names of the whole composition, from crate index `ci` on,
/// in iteration order.
pub open spec fn comp_task_names(
    crates: Seq<(Seq<char>, CrateSpec)>,
    ci: int,
) -> Seq<(Seq<char>, Seq<char>)>
    decreases crates.len() - ci,
{
    if ci >= crates.len() {
        Seq::empty()
    } else {
        crate_task_names(crates[ci].0, crates[ci].1.tasks, 0) + comp_task_names(crates, ci + 1)
    }
}

proof fn lemma_crate_task_names_membership(
    cn: Seq<char>,
    tasks: Seq<(Seq<char>, TaskSpec)>,
    ti: int,
)
    requires
        0 <= ti <= tasks.len(),
    ensures
        forall|x: (Seq<char>, Seq<char>)|
            #[trigger] crate_task_names(cn, tasks, ti).contains(x) <==> (x.0 == cn && assoc_from(
                tasks,
                x.1,
                ti,
            ) is Some),
    decreases tasks.len() - ti,
{
    if ti < tasks.len() {
        lemma_crate_task_names_membership(cn, tasks, ti + 1);
        let rest = crate_task_names(cn, tasks, ti + 1);
        let whole = crate_task_names(cn, tasks, ti);
        assert forall|x: (Seq<char>, Seq<char>)| #[trigger] whole.contains(x) implies (x.0 == cn
            && assoc_from(tasks, x.1, ti) is Some) by {
            let k = choose|k: int| 0 <= k < whole.len() && whole[k] == x;
            if k == 0 {
                assert(x == (cn, tasks[ti].0));
            } else {
                assert(rest[k - 1] == x);
                assert(rest.contains(x));
            }
        }
        assert forall|x: (Seq<char>, Seq<char>)| (x.0 == cn && assoc_from(tasks, x.1, ti) is Some)
            implies #[trigger] whole.contains(x) by {
            if x.1 == tasks[ti].0 {
                assert(whole[0] == x);
            } else {
                assert(rest.contains(x));
                let k = choose|k: int| 0 <= k < rest.len() && rest[k] == x;
                assert(whole[k + 1] == x);
            }
        }
    }
}

pub proof fn lemma_comp_task_names_membership(crates: Seq<(Seq<char>, CrateSpec)>, ci: int)
    requires
        0 <= ci <= crates.len(),
        unique_keys(crates),
    ensures
        forall|x: (Seq<char>, Seq<char>)|
            #[trigger] comp_task_names(crates, ci).contains(x) <==> match assoc_from(
                crates,
                x.0,
                ci,
            ) {
                Some(cr) => assoc(cr.tasks, x.1) is Some,
                None => false,
            },
    decreases crates.len() - ci,
{
    if ci < crates.len() {
        lemma_comp_task_names_membership(crates, ci + 1);
        lemma_crate_task_names_membership(crates[ci].0, crates[ci].1.tasks, 0);
        let seg = crate_task_names(crates[ci].0, crates[ci].1.tasks, 0);
        let rest = comp_task_names(crates, ci + 1);
        let whole = comp_task_names(crates, ci);
        assert forall|x: (Seq<char>, Seq<char>)| #[trigger] whole.contains(x) implies match
            assoc_from(crates, x.0, ci) {
            Some(cr) => assoc(cr.tasks, x.1) is Some,
            None => false,
        } by {
            let k = choose|k: int| 0 <= k < whole.len() && whole[k] == x;
            if k < seg.len() {
                assert(seg[k] == x);
                assert(seg.contains(x));
            } else {
                assert(rest[k - seg.len()] == x);
                assert(rest.contains(x));
                // a later crate holds x, and keys are unique, so the key
                // differs from this crate's key
                assert(assoc_from(crates, x.0, ci + 1) is Some);
                if x.0 == crates[ci].0 {
                    lemma_assoc_from_key_present(crates, x.0, ci + 1);
                }
            }
        }
        assert forall|x: (Seq<char>, Seq<char>)| match assoc_from(crates, x.0, ci) {
            Some(cr) => assoc(cr.tasks, x.1) is Some,
            None => false,
        } implies #[trigger] whole.contains(x) by {
            if x.0 == crates[ci].0 {
                assert(seg.contains(x));
                let k = choose|k: int| 0 <= k < seg.len() && seg[k] == x;
                assert(whole[k] == x);
            } else {
                assert(rest.contains(x));
                let k = choose|k: int| 0 <= k < rest.len() && rest[k] == x;
                assert(whole[seg.len() + k] == x);
            }
        }
    }
}

/// If a key is found from index `i`, its carrier index exists at or past `i`.
proof fn lemma_assoc_from_key_present<V>(s: Seq<(Seq<char>, V)>, key: Seq<char>, i: int)
    requires
        assoc_from(s, key, i) is Some,
        0 <= i,
    ensures
        exists|j: int| i <= j < s.len() && s[j].0 == key,
    decreases s.len() - i,
{
    if i < s.len() {
        if s[i].0 == key {
        } else {
            lemma_assoc_from_key_present(s, key, i + 1);
        }
    }
}

pub open spec fn count_marks(s: Seq<bool>, i: int) -> int
    decreases s.len() - i,
{
    if i >= s.len() {
        0
    } else {
        (if s[i] {
            1int
        } else {
            0int
        }) + count_marks(s, i + 1)
    }
}

proof fn lemma_count_marks_le(s: Seq<bool>, i: int)
    requires
        0 <= i <= s.len(),
    ensures
        count_marks(s, i) <= s.len() - i,
        count_marks(s, i) >= 0,
    decreases s.len() - i,
{
    if i < s.len() {
        lemma_count_marks_le(s, i + 1);
    }
}

proof fn lemma_count_marks_update(s: Seq<bool>, j: int, i: int)
    requires
        0 <= i <= s.len(),
        0 <= j < s.len(),
        !s[j],
    ensures
        count_marks(s.update(j, true), i) == count_marks(s, i) + if i <= j {
            1int
        } else {
            0int
        },
    decreases s.len() - i,
{
    if i < s.len() {
        lemma_count_marks_update(s, j, i + 1);
        assert(s.update(j, true).len() == s.len());
        if i != j {
            assert(s.update(j, true)[i] == s[i]);
        }
    }
}


/// Some index of `all` on the stack carries view `x`.
pub open spec fn view_on_stack(all: Seq<FullTaskName>, st: Seq<usize>, x: (Seq<char>, Seq<char>)) -> bool {
    exists|k: int| 0 <= k < st.len() && all[st[k] as int]@ == x
}

/// `all` lists exactly the tasks of `c` (possibly with repetitions).
pub open spec fn covers(c: CompSpec, all: Seq<FullTaskName>) -> bool {
    &&& forall|j: int| 0 <= j < all.len() ==> c.has_task(#[trigger] all[j]@)
    &&& forall|x: (Seq<char>, Seq<char>)|
        #[trigger] c.has_task(x) ==> exists|j: int| 0 <= j < all.len() && all[j]@ == x
}

/// A found key is carried, with its value, by some entry at or past `i`.
proof fn lemma_assoc_from_index<V>(s: Seq<(Seq<char>, V)>, key: Seq<char>, i: int)
    requires
        assoc_from(s, key, i) is Some,
        0 <= i,
    ensures
        exists|j: int|
            i <= j < s.len() && s[j].0 == key && s[j].1 == assoc_from(s, key, i).unwrap(),
    decreases s.len() - i,
{
    if i < s.len() {
        if s[i].0 == key {
        } else {
            lemma_assoc_from_index(s, key, i + 1);
        }
    }
}

/// A found key is carried, with its value, by some entry of the sequence.
pub proof fn lemma_assoc_some_index<V>(s: Seq<(Seq<char>, V)>, key: Seq<char>)
    requires
        assoc(s, key) is Some,
    ensures
        exists|j: int| 0 <= j < s.len() && s[j].0 == key && s[j].1 == assoc(s, key).unwrap(),
{
    lemma_assoc_from_index(s, key, 0);
}

/// In a well-formed composition, every parent of a present task is present.
pub proof fn lemma_task_named_parents_exist(c: CompSpec, x: (Seq<char>, Seq<char>))
    requires
        c.wf(),
        c.task_named(x) is Some,
    ensures
        forall|pi: int|
            0 <= pi < c.task_named(x).unwrap().parents.len() ==> c.has_task(
                #[trigger] c.task_named(x).unwrap().parents[pi],
            ),
{
    let cr = c.crate_named(x.0).unwrap();
    lemma_assoc_from_index(c.crates, x.0, 0);
    let ci = choose|ci: int|
        0 <= ci < c.crates.len() && c.crates[ci].0 == x.0 && c.crates[ci].1 == cr;
    let t = c.task_named(x).unwrap();
    lemma_assoc_from_index(cr.tasks, x.1, 0);
    let ti = choose|ti: int|
        0 <= ti < cr.tasks.len() && cr.tasks[ti].0 == x.1 && cr.tasks[ti].1 == t;
    assert forall|pi: int| 0 <= pi < c.task_named(x).unwrap().parents.len() implies c.has_task(
        #[trigger] c.task_named(x).unwrap().parents[pi],
    ) by {
        assert(c.has_task(c.crates[ci].1.tasks[ti].1.parents[pi]));
    }
}

/// Find some index of `all` whose name is `x`.
pub(crate) fn find_task_index(all: &Vec<FullTaskName>, x: &FullTaskName) -> (r: Option<usize>)
    ensures
        match r {
            Some(j) => j < all@.len() && all@[j as int]@ == x@,
            None => forall|j: int| 0 <= j < all@.len() ==> all@[j]@ != x@,
        },
{
    let n: usize = all.len();
    for j in 0..n
        invariant
            n == all@.len(),
            forall|k: int| 0 <= k < j ==> all@[k]@ != x@,
    {
        if &all[j] == x {
            return Some(j);
        }
    }
    None
}


/// Does a full name occur in the list?
pub open spec fn contains_name(s: Seq<FullTaskName>, x: (Seq<char>, Seq<char>)) -> bool {
    exists|j: int| 0 <= j < s.len() && s[j]@ == x
}

/// The children of `parent` within one crate, from task index `ti` on.
pub open spec fn crate_children(
    cn: Seq<char>,
    tasks: Seq<(Seq<char>, TaskSpec)>,
    parent: (Seq<char>, Seq<char>),
    ti: int,
) -> Seq<(Seq<char>, Seq<char>)>
    decreases tasks.len() - ti,
{
    if ti >= tasks.len() {
        Seq::empty()
    } else {
        let rest = crate_children(cn, tasks, parent, ti + 1);
        if task_has_parent(tasks[ti].1, parent) {
            seq![(cn, tasks[ti].0)] + rest
        } else {
            rest
        }
    }
}

/// The children of `parent` across the composition, from crate `ci` on, in
/// iteration order.
pub open spec fn comp_children(
    crates: Seq<(Seq<char>, CrateSpec)>,
    parent: (Seq<char>, Seq<char>),
    ci: int,
) -> Seq<(Seq<char>, Seq<char>)>
    decreases crates.len() - ci,
{
    if ci >= crates.len() {
        Seq::empty()
    } else {
        crate_children(crates[ci].0, crates[ci].1.tasks, parent, 0) + comp_children(
            crates,
            parent,
            ci + 1,
        )
    }
}

impl CompSpec {
    /// How many tasks list `parent` among their parents.
    pub open spec fn child_count(self, parent: (Seq<char>, Seq<char>)) -> nat {
        comp_children(self.crates, parent, 0).len()
    }
}

/// Does the list hold an entry with this view?
pub(crate) fn list_contains_name(s: &Vec<FullTaskName>, x: &FullTaskName) -> (r: bool)
    ensures
        r == contains_name(s@, x@),
{
    let n: usize = s.len();
    for j in 0..n
        invariant
            n == s@.len(),
            forall|k: int| 0 <= k < j ==> s@[k]@ != x@,
    {
        if &s[j] == x {
            return true;
        }
    }
    false
}

/// A list whose views are exactly the composition's task names covers the
/// composition's tasks.
pub proof fn lemma_names_cover(c: CompSpec, names: Seq<FullTaskName>)
    requires
        unique_keys(c.crates),
        names.map_values(|t: FullTaskName| t@) == comp_task_names(c.crates, 0),
    ensures
        covers(c, names),
{
    lemma_comp_task_names_membership(c.crates, 0);
    let ns = comp_task_names(c.crates, 0);
    assert forall|j: int| 0 <= j < names.len() implies c.has_task(#[trigger] names[j]@) by {
        assert(ns[j] == names[j]@);
        assert(ns.contains(names[j]@));
    }
    assert forall|x: (Seq<char>, Seq<char>)| #[trigger] c.has_task(x) implies exists|j: int|
        0 <= j < names.len() && names[j]@ == x by {
        assert(ns.contains(x));
        let j = choose|j: int| 0 <= j < ns.len() && ns[j] == x;
        assert(names[j]@ == x);
    }
}

impl UnloadedComposition {

    /// Every task's full name, in the iteration order of the composition.
    pub fn all_task_names(&self) -> (r: Vec<FullTaskName>)
        requires
            self@.wf(),
        ensures
            r@.map_values(|t: FullTaskName| t@) == comp_task_names(self@.crates, 0),
            covers(self@, r@),
    {
        let mut r: Vec<FullTaskName> = Vec::new();
        let nc: usize = self.crates.len();
        for ci in 0..nc
            invariant
                nc == self.crates.len(),
                self@.wf(),
                r@.map_values(|t: FullTaskName| t@) + comp_task_names(self@.crates, ci as int)
                    == comp_task_names(self@.crates, 0),
        {
            let cr: &UnloadedCrate = &self.crates[ci].1;
            let cn: &CrateName = &self.crates[ci].0;
            assert(self@.crates[ci as int] == (cn@, cr@));
            let nt: usize = cr.tasks.len();
            for ti in 0..nt
                invariant
                    nt == cr.tasks.len(),
                    nc == self.crates.len(),
                    ci < nc,
                    self@.crates[ci as int] == (cn@, cr@),
                    r@.map_values(|t: FullTaskName| t@) + crate_task_names(cn@, cr@.tasks, ti as int)
                        + comp_task_names(self@.crates, ci as int + 1) == comp_task_names(
                        self@.crates,
                        0,
                    ),
            {
                assert(cr@.tasks[ti as int] == (cr.tasks[ti as int].0@, cr.tasks[ti as int].1@));
                let full = FullTaskName {
                    crate_name: cn.clone(),
                    task_name: cr.tasks[ti].0.clone(),
                };
                r.push(full);
                proof {
                    let f = |t: FullTaskName| t@;
                    assert(r@.map_values(f) =~= r@.drop_last().map_values(f).push(
                        (cn@, cr@.tasks[ti as int].0),
                    ));
                    assert(crate_task_names(cn@, cr@.tasks, ti as int) == seq![
                        (cn@, cr@.tasks[ti as int].0),
                    ] + crate_task_names(cn@, cr@.tasks, ti as int + 1));
                    assert(r@.map_values(f) + crate_task_names(cn@, cr@.tasks, ti as int + 1)
                        =~= r@.drop_last().map_values(f) + crate_task_names(
                        cn@,
                        cr@.tasks,
                        ti as int,
                    ));
                }
            }
            proof {
                assert(crate_task_names(cn@, cr@.tasks, nt as int) =~= Seq::<
                    (Seq<char>, Seq<char>),
                >::empty());
                assert(r@.map_values(|t: FullTaskName| t@) + comp_task_names(
                    self@.crates,
                    ci as int + 1,
                ) =~= r@.map_values(|t: FullTaskName| t@) + crate_task_names(
                    cn@,
                    cr@.tasks,
                    nt as int,
                ) + comp_task_names(self@.crates, ci as int + 1));
            }
        }
        proof {
            let names = comp_task_names(self@.crates, 0);
            assert(r@.map_values(|t: FullTaskName| t@) =~= names);
            lemma_comp_task_names_membership(self@.crates, 0);
            assert forall|j: int| 0 <= j < r@.len() implies self@.has_task(#[trigger] r@[j]@) by {
                assert(names[j] == r@[j]@);
                assert(names.contains(r@[j]@));
            }
            assert forall|x: (Seq<char>, Seq<char>)| #[trigger] self@.has_task(x) implies exists|
                j: int,
            | 0 <= j < r@.len() && r@[j]@ == x by {
                assert(names.contains(x));
                let j = choose|j: int| 0 <= j < names.len() && names[j] == x;
                assert(r@[j]@ == x);
            }
        }
        r
    }

    /// Mark every ancestor of `start`: soundly (only ancestors are marked)
    /// and completely (every ancestor has a marked carrier index).
    pub(crate) fn ancestor_marks(&self, all: &Vec<FullTaskName>, start: &FullTaskName) -> (marks: Vec<bool>)
        requires
            self@.wf(),
            self@.has_task(start@),
            covers(self@, all@),
        ensures
            marks@.len() == all@.len(),
            forall|j: int|
                0 <= j < all@.len() && marks@[j] ==> reaches(self@, start@, all@[j]@),
            forall|x: (Seq<char>, Seq<char>)|
                #[trigger] reaches(self@, start@, x) ==> view_marked(all@, marks@, x),
    {
        let ghost c = self@;
        let n: usize = all.len();
        let mut marks: Vec<bool> = Vec::new();
        for i in 0..n
            invariant
                marks@.len() == i,
                forall|k: int| 0 <= k < i ==> !marks@[k],
        {
            marks.push(false);
        }
        let mut stack: Vec<usize> = Vec::new();
        let si = match find_task_index(all, start) {
            Some(v) => v,
            None => {
                proof {
                    let j = choose|j: int| 0 <= j < all@.len() && all@[j]@ == start@;
                }
                return marks;  // unreachable: start is a task and all covers the tasks
            },
        };
        stack.push(si);
        proof {
            lemma_reaches_refl(c, start@);
            assert(all@[stack@[0] as int]@ == start@);
            assert(view_on_stack(all@, stack@, start@));
        }
        while stack.len() > 0
            invariant
                c == self@,
                c.wf(),
                c.has_task(start@),
                covers(c, all@),
                n == all@.len(),
                marks@.len() == n,
                forall|k: int| 0 <= k < stack@.len() ==> (stack@[k] as int) < n,
                forall|k: int|
                    0 <= k < stack@.len() ==> reaches(c, start@, all@[#[trigger] stack@[k] as int]@),
                forall|j: int| 0 <= j < n && marks@[j] ==> reaches(c, start@, all@[j]@),
                view_marked(all@, marks@, start@) || view_on_stack(all@, stack@, start@),
                forall|i: int, pi: int|
                    0 <= i < n && marks@[i] && 0 <= pi < c.task_named(
                        all@[i]@,
                    ).unwrap().parents.len() ==> {
                        let p = #[trigger] c.task_named(all@[i]@).unwrap().parents[pi];
                        view_marked(all@, marks@, p) || view_on_stack(all@, stack@, p)
                    },
            decreases n - count_marks(marks@, 0), stack@.len(),
        {
            proof {
                lemma_count_marks_le(marks@, 0);
            }
            let ghost old_stack = stack@;
            let ghost old_marks = marks@;
            let j = match stack.pop() {
                Some(v) => v,
                None => {
                    return marks;  // unreachable: the stack is non-empty
                },
            };
            assert(old_stack =~= stack@.push(j));
            assert(forall|k: int| 0 <= k < stack@.len() ==> old_stack[k] == stack@[k]);
            assert((j as int) < n);
            if !marks[j] {
                marks.set(j, true);
                proof {
                    lemma_count_marks_update(old_marks, j as int, 0);
                    assert forall|x: (Seq<char>, Seq<char>)| view_marked(all@, old_marks, x)
                        implies view_marked(all@, marks@, x) by {
                        let w = choose|w: int|
                            0 <= w < all@.len() && old_marks[w] && all@[w]@ == x;
                        assert(marks@[w]);
                    }
                    assert forall|i: int, qi: int|
                        0 <= i < n && marks@[i] && 0 <= qi < c.task_named(
                            all@[i]@,
                        ).unwrap().parents.len() && !(i == j as int && 0 <= qi) implies {
                        let p = #[trigger] c.task_named(all@[i]@).unwrap().parents[qi];
                        view_marked(all@, marks@, p) || view_on_stack(all@, stack@, p)
                    } by {
                        let p = c.task_named(all@[i]@).unwrap().parents[qi];
                        assert(old_marks[i]);
                        assert(view_marked(all@, old_marks, p) || view_on_stack(
                            all@,
                            old_stack,
                            p,
                        ));
                        if view_on_stack(all@, old_stack, p) {
                            let k = choose|k: int|
                                0 <= k < old_stack.len() && all@[old_stack[k] as int]@ == p;
                            if k < stack@.len() {
                                assert(all@[stack@[k] as int]@ == p);
                            } else {
                                assert(old_stack[k] == j);
                                assert(marks@[j as int]);
                                assert(view_marked(all@, marks@, p));
                            }
                        }
                    }
                    if view_marked(all@, old_marks, start@) {
                        assert(view_marked(all@, marks@, start@));
                    } else {
                        let k = choose|k: int|
                            0 <= k < old_stack.len() && all@[old_stack[k] as int]@ == start@;
                        if k < stack@.len() {
                            assert(all@[stack@[k] as int]@ == start@);
                        } else {
                            assert(old_stack[k] == j);
                            assert(marks@[j as int]);
                        }
                    }
                }
                let t = match self.get_unloaded_task(&all[j]) {
                    Some(v) => v,
                    None => {
                        return marks;  // unreachable: every listed name is a task
                    },
                };
                let np: usize = t.parents.len();
                for pi in 0..np
                    invariant
                        c == self@,
                        c.wf(),
                        c.has_task(start@),
                        covers(c, all@),
                        n == all@.len(),
                        marks@.len() == n,
                        marks@ == old_marks.update(j as int, true),
                        (j as int) < n,
                        c.task_named(all@[j as int]@) == Some(t@),
                        np == t.parents.len(),
                        reaches(c, start@, all@[j as int]@),
                        forall|k: int| 0 <= k < stack@.len() ==> (stack@[k] as int) < n,
                        forall|k: int|
                            0 <= k < stack@.len() ==> reaches(
                                c,
                                start@,
                                all@[#[trigger] stack@[k] as int]@,
                            ),
                        forall|jj: int| 0 <= jj < n && marks@[jj] ==> reaches(c, start@, all@[jj]@),
                        view_marked(all@, marks@, start@) || view_on_stack(all@, stack@, start@),
                        forall|i: int, qi: int|
                            0 <= i < n && marks@[i] && 0 <= qi < c.task_named(
                                all@[i]@,
                            ).unwrap().parents.len() && !(i == j as int && pi <= qi) ==> {
                                let p = #[trigger] c.task_named(all@[i]@).unwrap().parents[qi];
                                view_marked(all@, marks@, p) || view_on_stack(all@, stack@, p)
                            },
                {
                    let p: &FullTaskName = &t.parents[pi];
                    proof {
                        lemma_task_named_parents_exist(c, all@[j as int]@);
                        assert(t@.parents[pi as int] == t.parents[pi as int]@);
                        assert(c.has_task(c.task_named(all@[j as int]@).unwrap().parents[pi as int]));
                        assert(c.has_task(t@.parents[pi as int]));
                    }
                    let jx = match find_task_index(all, p) {
                        Some(v) => v,
                        None => {
                            proof {
                                let w = choose|w: int| 0 <= w < all@.len() && all@[w]@ == p@;
                            }
                            return marks;  // unreachable: all covers the tasks
                        },
                    };
                    let ghost pre_stack = stack@;
                    stack.push(jx);
                    proof {
                        assert(task_has_parent(c.task_named(all@[j as int]@).unwrap(), p@));
                        lemma_reaches_step(c, start@, all@[j as int]@, p@);
                        assert(all@[jx as int]@ == p@);
                        assert forall|k: int| 0 <= k < stack@.len() implies reaches(
                            c,
                            start@,
                            all@[#[trigger] stack@[k] as int]@,
                        ) by {
                            if k < pre_stack.len() {
                                assert(stack@[k] == pre_stack[k]);
                            } else {
                                assert(stack@[k] == jx);
                            }
                        }
                        assert forall|i: int, qi: int|
                            0 <= i < n && marks@[i] && 0 <= qi < c.task_named(
                                all@[i]@,
                            ).unwrap().parents.len() && !(i == j as int && pi as int + 1 <= qi)
                            implies {
                            let px = #[trigger] c.task_named(all@[i]@).unwrap().parents[qi];
                            view_marked(all@, marks@, px) || view_on_stack(all@, stack@, px)
                        } by {
                            let px = c.task_named(all@[i]@).unwrap().parents[qi];
                            if i == j as int && qi == pi as int {
                                assert(all@[stack@[stack@.len() - 1] as int]@ == px);
                            } else {
                                assert(view_marked(all@, marks@, px) || view_on_stack(
                                    all@,
                                    pre_stack,
                                    px,
                                ));
                                if view_on_stack(all@, pre_stack, px) {
                                    let k = choose|k: int|
                                        0 <= k < pre_stack.len() && all@[pre_stack[k] as int]@
                                            == px;
                                    assert(stack@[k] == pre_stack[k]);
                                }
                            }
                        }
                        if view_on_stack(all@, pre_stack, start@) {
                            let k = choose|k: int|
                                0 <= k < pre_stack.len() && all@[pre_stack[k] as int]@ == start@;
                            assert(stack@[k] == pre_stack[k]);
                        }
                    }
                }
                proof {
                    // the popped carrier of any view is now marked at j
                    assert forall|i: int, qi: int|
                        0 <= i < n && marks@[i] && 0 <= qi < c.task_named(
                            all@[i]@,
                        ).unwrap().parents.len() implies {
                        let p = #[trigger] c.task_named(all@[i]@).unwrap().parents[qi];
                        view_marked(all@, marks@, p) || view_on_stack(all@, stack@, p)
                    } by {
                        let p = c.task_named(all@[i]@).unwrap().parents[qi];
                        assert(!(i == j as int && np as int <= qi));
                    }
                    lemma_count_marks_update(old_marks, j as int, 0);
                    lemma_count_marks_le(old_marks, 0);
                    lemma_count_marks_le(marks@, 0);
                }
            } else {
                proof {
                    assert(marks@ == old_marks);
                    assert forall|i: int, qi: int|
                        0 <= i < n && marks@[i] && 0 <= qi < c.task_named(
                            all@[i]@,
                        ).unwrap().parents.len() implies {
                        let p = #[trigger] c.task_named(all@[i]@).unwrap().parents[qi];
                        view_marked(all@, marks@, p) || view_on_stack(all@, stack@, p)
                    } by {
                        let p = c.task_named(all@[i]@).unwrap().parents[qi];
                        if view_on_stack(all@, old_stack, p) {
                            let k = choose|k: int|
                                0 <= k < old_stack.len() && all@[old_stack[k] as int]@ == p;
                            if k < stack@.len() {
                                assert(all@[stack@[k] as int]@ == p);
                            } else {
                                assert(old_stack[k] == j);
                                assert(marks@[j as int]);
                            }
                        }
                    }
                    if view_on_stack(all@, old_stack, start@) {
                        let k = choose|k: int|
                            0 <= k < old_stack.len() && all@[old_stack[k] as int]@ == start@;
                        if k < stack@.len() {
                            assert(all@[stack@[k] as int]@ == start@);
                        } else {
                            assert(old_stack[k] == j);
                        }
                    }
                }
            }
        }
        proof {
            assert(marked_parents_closed(c, all@, marks@));
            assert forall|x: (Seq<char>, Seq<char>)| #[trigger] reaches(c, start@, x) implies
                view_marked(all@, marks@, x) by {
                lemma_marked_contains_reachable(c, all@, marks@, start@, x);
            }
        }
        marks
    }

    /// Is `to` an ancestor of `from`?
    fn reaches_search(&self, all: &Vec<FullTaskName>, from: &FullTaskName, to: &FullTaskName) -> (r:
        bool)
        requires
            self@.wf(),
            self@.has_task(from@),
            covers(self@, all@),
        ensures
            r == reaches(self@, from@, to@),
    {
        let marks = self.ancestor_marks(all, from);
        let n: usize = all.len();
        for j in 0..n
            invariant
                n == all@.len(),
                marks@.len() == n,
                self@.wf(),
                covers(self@, all@),
                forall|jj: int|
                    0 <= jj < n && marks@[jj] ==> reaches(self@, from@, all@[jj]@),
                forall|x: (Seq<char>, Seq<char>)|
                    #[trigger] reaches(self@, from@, x) ==> view_marked(all@, marks@, x),
                forall|k: int| 0 <= k < j ==> !(marks@[k] && all@[k]@ == to@),
        {
            if marks[j] && &all[j] == to {
                return true;
            }
        }
        proof {
            if reaches(self@, from@, to@) {
                assert(view_marked(all@, marks@, to@));
                let w = choose|w: int| 0 <= w < all@.len() && marks@[w] && all@[w]@ == to@;
            }
        }
        false
    }

    /// Two tasks are unsynchronized when neither is an ancestor of the other:
    /// no dependency edge chain orders their executions within a tick.
    pub fn are_tasks_unsynchronized(&self, task_name: FullTaskName, other_task_name: FullTaskName)
        -> (r: bool)
        requires
            self@.wf(),
            self@.has_task(task_name@),
            self@.has_task(other_task_name@),
        ensures
            r == (!reaches(self@, task_name@, other_task_name@) && !reaches(
                self@,
                other_task_name@,
                task_name@,
            )),
    {
        let all = self.all_task_names();
        if self.reaches_search(&all, &task_name, &other_task_name) {
            return false;
        }
        let ba = self.reaches_search(&all, &other_task_name, &task_name);
        !ba
    }


    /// The tasks that list `parent_name` among their parents, in the
    /// iteration order of the composition.
    pub fn get_children_of(&self, parent_name: &FullTaskName) -> (r: Vec<FullTaskName>)
        ensures
            r@.map_values(|t: FullTaskName| t@) == comp_children(self@.crates, parent_name@, 0),
    {
        let mut r: Vec<FullTaskName> = Vec::new();
        let nc: usize = self.crates.len();
        for ci in 0..nc
            invariant
                nc == self.crates.len(),
                r@.map_values(|t: FullTaskName| t@) + comp_children(
                    self@.crates,
                    parent_name@,
                    ci as int,
                ) == comp_children(self@.crates, parent_name@, 0),
        {
            let cr: &UnloadedCrate = &self.crates[ci].1;
            let cn: &CrateName = &self.crates[ci].0;
            assert(self@.crates[ci as int] == (cn@, cr@));
            let nt: usize = cr.tasks.len();
            for ti in 0..nt
                invariant
                    nt == cr.tasks.len(),
                    nc == self.crates.len(),
                    ci < nc,
                    self@.crates[ci as int] == (cn@, cr@),
                    r@.map_values(|t: FullTaskName| t@) + crate_children(
                        cn@,
                        cr@.tasks,
                        parent_name@,
                        ti as int,
                    ) + comp_children(self@.crates, parent_name@, ci as int + 1) == comp_children(
                        self@.crates,
                        parent_name@,
                        0,
                    ),
            {
                let task: &UnloadedTask = &cr.tasks[ti].1;
                assert(cr@.tasks[ti as int] == (cr.tasks[ti as int].0@, task@));
                let mut is_child: bool = false;
                let np: usize = task.parents.len();
                for pi in 0..np
                    invariant
                        np == task.parents.len(),
                        is_child == exists|k: int|
                            0 <= k < pi && task@.parents[k] == parent_name@,
                {
                    assert(task@.parents[pi as int] == task.parents[pi as int]@);
                    if &task.parents[pi] == parent_name {
                        is_child = true;
                    }
                }
                assert(is_child == task_has_parent(task@, parent_name@));
                let ghost pre = r@.map_values(|t: FullTaskName| t@);
                if is_child {
                    r.push(FullTaskName { crate_name: cn.clone(), task_name: cr.tasks[ti].0.clone() });
                }
                proof {
                    let f = |t: FullTaskName| t@;
                    if task_has_parent(task@, parent_name@) {
                        assert(r@.map_values(f) =~= pre.push((cn@, cr@.tasks[ti as int].0)));
                        assert(crate_children(cn@, cr@.tasks, parent_name@, ti as int) == seq![
                            (cn@, cr@.tasks[ti as int].0),
                        ] + crate_children(cn@, cr@.tasks, parent_name@, ti as int + 1));
                        assert(r@.map_values(f) + crate_children(
                            cn@,
                            cr@.tasks,
                            parent_name@,
                            ti as int + 1,
                        ) =~= pre + crate_children(cn@, cr@.tasks, parent_name@, ti as int));
                    } else {
                        assert(crate_children(cn@, cr@.tasks, parent_name@, ti as int)
                            == crate_children(cn@, cr@.tasks, parent_name@, ti as int + 1));
                    }
                }
            }
            proof {
                assert(crate_children(cn@, cr@.tasks, parent_name@, nt as int) =~= Seq::<
                    (Seq<char>, Seq<char>),
                >::empty());
                assert(r@.map_values(|t: FullTaskName| t@) + comp_children(
                    self@.crates,
                    parent_name@,
                    ci as int + 1,
                ) =~= r@.map_values(|t: FullTaskName| t@) + crate_children(
                    cn@,
                    cr@.tasks,
                    parent_name@,
                    nt as int,
                ) + comp_children(self@.crates, parent_name@, ci as int + 1));
            }
        }
        proof {
            assert(comp_children(self@.crates, parent_name@, nc as int) == Seq::<
                (Seq<char>, Seq<char>),
            >::empty());
            assert(r@.map_values(|t: FullTaskName| t@) =~= r@.map_values(|t: FullTaskName| t@)
                + comp_children(self@.crates, parent_name@, nc as int));
        }
        r
    }

    /// The untraversed task with the most children; among those, the first in
    /// the iteration order of the composition. `None` when every task has
    /// been traversed.
    pub fn get_best_last_node_for_fulfiller_chain(&self, traversed: &Vec<FullTaskName>) -> (r:
        Option<FullTaskName>)
        requires
            self@.wf(),
        ensures
            ({
                let names = comp_task_names(self@.crates, 0);
                match r {
                    None => forall|k: int|
                        0 <= k < names.len() ==> contains_name(traversed@, #[trigger] names[k]),
                    Some(n) => {
                        &&& self@.has_task(n@)
                        &&& !contains_name(traversed@, n@)
                        &&& exists|i: int|
                            {
                                &&& 0 <= i < names.len()
                                &&& #[trigger] names[i] == n@
                                &&& forall|k: int|
                                    0 <= k < i ==> contains_name(traversed@, #[trigger] names[k])
                                        || self@.child_count(names[k]) < self@.child_count(n@)
                            }
                        &&& forall|k: int|
                            0 <= k < names.len() && !contains_name(traversed@, #[trigger] names[k])
                                ==> self@.child_count(names[k]) <= self@.child_count(n@)
                    },
                }
            }),
    {
        let ghost names = comp_task_names(self@.crates, 0);
        let all = self.all_task_names();
        let mut best: Option<FullTaskName> = None;
        let mut best_count: usize = 0;
        let ghost mut best_i: int = 0int;
        let n: usize = all.len();
        for i in 0..n
            invariant
                self@.wf(),
                n == all@.len(),
                names == comp_task_names(self@.crates, 0),
                all@.map_values(|t: FullTaskName| t@) == names,
                covers(self@, all@),
                match best {
                    None => forall|k: int|
                        0 <= k < i ==> contains_name(traversed@, #[trigger] names[k]),
                    Some(b) => {
                        &&& self@.has_task(b@)
                        &&& !contains_name(traversed@, b@)
                        &&& 0 <= best_i < i
                        &&& names[best_i] == b@
                        &&& best_count == self@.child_count(b@)
                        &&& forall|k: int|
                            0 <= k < best_i ==> contains_name(traversed@, #[trigger] names[k])
                                || self@.child_count(names[k]) < best_count
                        &&& forall|k: int|
                            0 <= k < i && !contains_name(traversed@, #[trigger] names[k])
                                ==> self@.child_count(names[k]) <= best_count
                    },
                },
        {
            assert(all@[i as int]@ == names[i as int]);
            if !list_contains_name(traversed, &all[i]) {
                let children = self.get_children_of(&all[i]);
                let count = children.len();
                assert(count == self@.child_count(names[i as int]));
                let replace = match &best {
                    None => true,
                    Some(_) => count > best_count,
                };
                if replace {
                    best = Some(all[i].clone());
                    best_count = count;
                    proof {
                        best_i = i as int;
                    }
                }
            }
        }
        best
    }

    /// Find the task of the given full name.
    pub fn get_unloaded_task(&self, find_name: &FullTaskName) -> (r: Option<&UnloadedTask>)
        ensures
            match r {
                Some(t) => self@.task_named(find_name@) == Some(t@),
                None => self@.task_named(find_name@) is None,
            },
    {
        let nc: usize = self.crates.len();
        for ci in 0..nc
            invariant
                nc == self.crates.len(),
                assoc_from(self@.crates, find_name.crate_name@, ci as int) == self@.crate_named(
                    find_name.crate_name@,
                ),
        {
            assert(self@.crates[ci as int] == (self.crates[ci as int].0@, self.crates[ci as int].1@));
            if &self.crates[ci].0 == &find_name.crate_name {
                let cr: &UnloadedCrate = &self.crates[ci].1;
                let nt: usize = cr.tasks.len();
                for ti in 0..nt
                    invariant
                        nt == cr.tasks.len(),
                        self@.crate_named(find_name.crate_name@) == Some(cr@),
                        assoc_from(cr@.tasks, find_name.task_name@, ti as int) == assoc(
                            cr@.tasks,
                            find_name.task_name@,
                        ),
                {
                    assert(cr@.tasks[ti as int] == (cr.tasks[ti as int].0@, cr.tasks[ti as int].1@));
                    if &cr.tasks[ti].0 == &find_name.task_name {
                        return Some(&cr.tasks[ti].1);
                    }
                }
                return None;
            }
        }
        None
    }
}

impl UnloadedComposition {
    /// Merge a child crate's composition fragment into this one: its crates
    /// and its own children are appended, in order, for the parse-time
    /// traversal to continue into.
    pub fn merge_composition(&mut self, child: UnloadedComposition)
        ensures
            final(self)@.crates == old(self)@.crates + child@.crates,
            final(self)@.children == old(self)@.children + child@.children,
    {
        let mut rest = child;
        self.crates.append(&mut rest.crates);
        self.children.append(&mut rest.children);
        proof {
            assert(final(self)@.crates =~= old(self)@.crates + child@.crates);
            assert(final(self)@.children =~= old(self)@.children + child@.children);
        }
    }

    /// Find the crate of the given name.
    pub fn find_crate(&self, name: &CrateName) -> (r: Option<&UnloadedCrate>)
        ensures
            match r {
                Some(cr) => self@.crate_named(name@) == Some(cr@),
                None => self@.crate_named(name@) is None,
            },
    {
        let nc: usize = self.crates.len();
        for ci in 0..nc
            invariant
                nc == self.crates.len(),
                assoc_from(self@.crates, name@, ci as int) == self@.crate_named(name@),
        {
            assert(self@.crates[ci as int] == (self.crates[ci as int].0@, self.crates[ci as int].1@));
            if &self.crates[ci].0 == name {
                return Some(&self.crates[ci].1);
            }
        }
        None
    }
}

impl PartialEq for UnloadedDatachunk {
    fn eq(&self, other: &Self) -> (r: bool) {
        self.kind_name == other.kind_name && self.deserialize_path == other.deserialize_path
    }
}

impl vstd::std_specs::cmp::PartialEqSpecImpl for UnloadedDatachunk {
    open spec fn obeys_eq_spec() -> bool {
        true
    }

    open spec fn eq_spec(&self, other: &Self) -> bool {
        self@ == other@
    }
}

impl PartialEq for UnloadedTask {
    fn eq(&self, other: &Self) -> (r: bool) {
        if !(self.kind_name == other.kind_name && self.deserialize_path == other.deserialize_path
            && self.entrypoint == other.entrypoint) {
            return false;
        }
        if self.parents.len() != other.parents.len() {
            assert(self@.parents.len() != other@.parents.len());
            return false;
        }
        let np: usize = self.parents.len();
        for k in 0..np
            invariant
                np == self.parents.len(),
                np == other.parents.len(),
                forall|k2: int| 0 <= k2 < k ==> self@.parents[k2] == other@.parents[k2],
        {
            assert(self@.parents[k as int] == self.parents[k as int]@);
            assert(other@.parents[k as int] == other.parents[k as int]@);
            if !(&self.parents[k] == &other.parents[k]) {
                assert(self@.parents[k as int] != other@.parents[k as int]);
                return false;
            }
        }
        assert(self@.parents =~= other@.parents);
        if self.accesses.len() != other.accesses.len() {
            assert(self@.accesses.len() != other@.accesses.len());
            return false;
        }
        let na: usize = self.accesses.len();
        for k in 0..na
            invariant
                na == self.accesses.len(),
                na == other.accesses.len(),
                forall|k2: int| 0 <= k2 < k ==> self@.accesses[k2] == other@.accesses[k2],
        {
            assert(self@.accesses[k as int] == (
                self.accesses[k as int].of@,
                self.accesses[k as int].mut_immut,
            ));
            assert(other@.accesses[k as int] == (
                other.accesses[k as int].of@,
                other.accesses[k as int].mut_immut,
            ));
            if !(&self.accesses[k].of == &other.accesses[k].of) {
                assert(self@.accesses[k as int] != other@.accesses[k as int]);
                return false;
            }
            if self.accesses[k].mut_immut != other.accesses[k].mut_immut {
                assert(self@.accesses[k as int] != other@.accesses[k as int]);
                return false;
            }
        }
        assert(self@.accesses =~= other@.accesses);
        assert(self@ =~= other@);
        true
    }
}

impl vstd::std_specs::cmp::PartialEqSpecImpl for UnloadedTask {
    open spec fn obeys_eq_spec() -> bool {
        true
    }

    open spec fn eq_spec(&self, other: &Self) -> bool {
        self@ == other@
    }
}

impl PartialEq for UnloadedCrate {
    fn eq(&self, other: &Self) -> (r: bool) {
        if self.datachunks.len() != other.datachunks.len() {
            assert(self@.datachunks.len() != other@.datachunks.len());
            return false;
        }
        let nd: usize = self.datachunks.len();
        for k in 0..nd
            invariant
                nd == self.datachunks.len(),
                nd == other.datachunks.len(),
                forall|k2: int| 0 <= k2 < k ==> self@.datachunks[k2] == other@.datachunks[k2],
        {
            assert(self@.datachunks[k as int] == (
                self.datachunks[k as int].0@,
                self.datachunks[k as int].1@,
            ));
            assert(other@.datachunks[k as int] == (
                other.datachunks[k as int].0@,
                other.datachunks[k as int].1@,
            ));
            if !(&self.datachunks[k].0 == &other.datachunks[k].0) {
                assert(self@.datachunks[k as int] != other@.datachunks[k as int]);
                return false;
            }
            if !(&self.datachunks[k].1 == &other.datachunks[k].1) {
                assert(self@.datachunks[k as int] != other@.datachunks[k as int]);
                return false;
            }
        }
        assert(self@.datachunks =~= other@.datachunks);
        if self.tasks.len() != other.tasks.len() {
            assert(self@.tasks.len() != other@.tasks.len());
            return false;
        }
        let nt: usize = self.tasks.len();
        for k in 0..nt
            invariant
                nt == self.tasks.len(),
                nt == other.tasks.len(),
                forall|k2: int| 0 <= k2 < k ==> self@.tasks[k2] == other@.tasks[k2],
        {
            assert(self@.tasks[k as int] == (self.tasks[k as int].0@, self.tasks[k as int].1@));
            assert(other@.tasks[k as int] == (other.tasks[k as int].0@, other.tasks[k as int].1@));
            if !(&self.tasks[k].0 == &other.tasks[k].0) {
                assert(self@.tasks[k as int] != other@.tasks[k as int]);
                return false;
            }
            if !(&self.tasks[k].1 == &other.tasks[k].1) {
                assert(self@.tasks[k as int] != other@.tasks[k as int]);
                return false;
            }
        }
        assert(self@.tasks =~= other@.tasks);
        assert(self@ =~= other@);
        true
    }
}

impl vstd::std_specs::cmp::PartialEqSpecImpl for UnloadedCrate {
    open spec fn obeys_eq_spec() -> bool {
        true
    }

    open spec fn eq_spec(&self, other: &Self) -> bool {
        self@ == other@
    }
}

} // verus!
