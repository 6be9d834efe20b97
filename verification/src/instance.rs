//! Instance-level pieces: run settings, the plugin-boundary result type,
//! and the partial-reload handoff that decides which crates keep their live
//! plugin objects across a reload.

use vstd::prelude::*;
use crate::identify::{CrateName, DatachunkName, FullDatachunkName, FullTaskName};
use crate::loaded::{bag_has_dc, bag_has_task, baggage_wf, Baggage, LoadedComposition};
use crate::unloaded::{unique_keys, CompSpec, UnloadedComposition};

verus! {

/// Whether the plugin cache may satisfy a load, or a rebuild is forced.
#[derive(Clone, Copy, Debug)]
pub enum LibraryRecompile {
    Recompile,
    TryCached,
    InsistCached,
}

/// Whether plugins are built for debugging or release.
#[derive(Clone, Copy, Debug)]
pub enum DebugMode {
    Debug,
    Release,
}

/// What an instance is created from: the root composition description and
/// the plugin build options.
#[derive(Debug)]
pub struct CustardInstanceSettings {
    pub root_composition_string: String,
    pub recompile: LibraryRecompile,
    pub debug_mode: DebugMode,
}

impl Clone for CustardInstanceSettings {
    fn clone(&self) -> (r: Self)
        ensures
            r.root_composition_string@ == self.root_composition_string@,
            r.recompile == self.recompile,
            r.debug_mode == self.debug_mode,
    {
        Self {
            root_composition_string: self.root_composition_string.clone(),
            recompile: self.recompile,
            debug_mode: self.debug_mode,
        }
    }
}

/// The result shape values take across the plugin boundary.
#[derive(Clone, Debug)]
pub enum FFIResult<T, E> {
    Success(T),
    Failure(E),
}

impl<T, E> FFIResult<T, E> {
    pub fn from_rust(r: Result<T, E>) -> (v: Self)
        ensures
            match r {
                Ok(t) => v == FFIResult::<T, E>::Success(t),
                Err(e) => v == FFIResult::<T, E>::Failure(e),
            },
    {
        match r {
            Ok(v) => FFIResult::Success(v),
            Err(e) => FFIResult::Failure(e),
        }
    }

    pub fn into_rust(self) -> (r: Result<T, E>)
        ensures
            match self {
                FFIResult::Success(t) => r == Ok::<T, E>(t),
                FFIResult::Failure(e) => r == Err::<T, E>(e),
            },
    {
        match self {
            FFIResult::Success(v) => Ok(v),
            FFIResult::Failure(e) => Err(e),
        }
    }
}

/// Does the list name this crate?
pub open spec fn names_crate(rfs: Seq<CrateName>, key: Seq<char>) -> bool {
    exists|k: int| 0 <= k < rfs.len() && rfs[k]@ == key
}

fn crate_list_contains(rfs: &Vec<CrateName>, name: &CrateName) -> (r: bool)
    ensures
        r == names_crate(rfs@, name@),
{
    let n: usize = rfs.len();
    for k in 0..n
        invariant
            n == rfs@.len(),
            forall|k2: int| 0 <= k2 < k ==> rfs@[k2]@ != name@,
    {
        if &rfs[k] == name {
            return true;
        }
    }
    false
}

/// Crate `ci` of the old composition keeps its state across the reload: it
/// was not explicitly listed for reload, and the new composition carries an
/// identical specification for it.
pub open spec fn crate_preserved(
    old_u: CompSpec,
    new_u: CompSpec,
    rfs: Seq<CrateName>,
    ci: int,
) -> bool {
    &&& !names_crate(rfs, old_u.crates[ci].0)
    &&& new_u.crate_named(old_u.crates[ci].0) == Some(old_u.crates[ci].1)
}

impl LoadedComposition {
    /// Collect the live plugin objects that survive a partial reload: the
    /// tasks and datachunks of every crate that is neither listed in
    /// `reload_for_sure` nor changed between the old and the new
    /// composition, keyed by full name and carrying their identity tokens.
    pub fn extract_baggage(
        &self,
        old_unloaded: &UnloadedComposition,
        new_unloaded: &UnloadedComposition,
        reload_for_sure: &Vec<CrateName>,
    ) -> (r: Baggage)
        requires
            self.mirrors(old_unloaded@),
            self.crates_mirror(old_unloaded@),
            old_unloaded@.wf(),
            forall|i: int|
                0 <= i < self.fulfillers@.len() ==> (
                #[trigger] self.fulfillers@[i]).task.unwrap().token < self.next_token,
            forall|ci: int, di: int|
                0 <= ci < old_unloaded@.crates.len() && 0 <= di < old_unloaded@.crates[
                    ci
                ].1.datachunks.len() ==> (
                #[trigger] self.crates@[ci].1.datachunks@[di]).1.unwrap().token
                    < self.next_token,
        ensures
            baggage_wf(r, self.next_token),
            // every preserved crate's objects travel, under their own names
            // and with the identity tokens they already carry
            forall|ci: int, ti: int|
                0 <= ci < old_unloaded@.crates.len() && crate_preserved(
                    old_unloaded@,
                    new_unloaded@,
                    reload_for_sure@,
                    ci,
                ) && 0 <= ti < old_unloaded@.crates[ci].1.tasks.len() ==> {
                    let x = (
                        old_unloaded@.crates[ci].0,
                        #[trigger] old_unloaded@.crates[ci].1.tasks[ti].0,
                    );
                    bag_has_task(r.tasks@, x) && crate::loaded::bag_task_token(r.tasks@, x)
                        == self.fulfillers@[self.crates@[ci].1.tasks@[
                        ti
                    ].1 as int].task.unwrap().token
                },
            forall|ci: int, di: int|
                0 <= ci < old_unloaded@.crates.len() && crate_preserved(
                    old_unloaded@,
                    new_unloaded@,
                    reload_for_sure@,
                    ci,
                ) && 0 <= di < old_unloaded@.crates[ci].1.datachunks.len() ==> {
                    let x = (
                        old_unloaded@.crates[ci].0,
                        #[trigger] old_unloaded@.crates[ci].1.datachunks[di].0,
                    );
                    bag_has_dc(r.datachunks@, x) && crate::loaded::bag_dc_token(r.datachunks@, x)
                        == self.crates@[ci].1.datachunks@[di].1.unwrap().token
                },
            // nothing else travels
            forall|x: (Seq<char>, Seq<char>)|
                #[trigger] bag_has_task(r.tasks@, x) ==> exists|ci: int|
                    0 <= ci < old_unloaded@.crates.len() && crate_preserved(
                        old_unloaded@,
                        new_unloaded@,
                        reload_for_sure@,
                        ci,
                    ) && x.0 == old_unloaded@.crates[ci].0,
            forall|x: (Seq<char>, Seq<char>)|
                #[trigger] bag_has_dc(r.datachunks@, x) ==> exists|ci: int|
                    0 <= ci < old_unloaded@.crates.len() && crate_preserved(
                        old_unloaded@,
                        new_unloaded@,
                        reload_for_sure@,
                        ci,
                    ) && x.0 == old_unloaded@.crates[ci].0,
    {
        let ghost ou = old_unloaded@;
        let ghost nu = new_unloaded@;
        let ghost rfs = reload_for_sure@;
        let ghost bound = self.next_token;
        let mut bag = Baggage::empty();
        let nc: usize = self.crates.len();
        assert(nc == ou.crates.len());
        for ci in 0..nc
            invariant
                self.mirrors(ou),
                self.crates_mirror(ou),
                ou == old_unloaded@,
                nu == new_unloaded@,
                rfs == reload_for_sure@,
                ou.wf(),
                nc == self.crates@.len(),
                nc == ou.crates.len(),
                bound == self.next_token,
                forall|i: int|
                    0 <= i < self.fulfillers@.len() ==> (
                    #[trigger] self.fulfillers@[i]).task.unwrap().token < bound,
                forall|ci2: int, di: int|
                    0 <= ci2 < ou.crates.len() && 0 <= di < ou.crates[ci2].1.datachunks.len()
                        ==> (#[trigger] self.crates@[ci2].1.datachunks@[di]).1.unwrap().token
                        < bound,
                forall|j1: int, j2: int|
                    0 <= j1 < j2 < bag.tasks@.len() ==> bag.tasks@[j1].0@ != bag.tasks@[j2].0@,
                forall|j1: int, j2: int|
                    0 <= j1 < j2 < bag.datachunks@.len() ==> bag.datachunks@[j1].0@
                        != bag.datachunks@[j2].0@,
                forall|j: int|
                    0 <= j < bag.tasks@.len() ==> (#[trigger] bag.tasks@[j]).1.token < bound,
                forall|j: int|
                    0 <= j < bag.datachunks@.len() ==> (#[trigger] bag.datachunks@[j]).1.token
                        < bound,
                forall|x: (Seq<char>, Seq<char>)|
                    #[trigger] bag_has_task(bag.tasks@, x) ==> exists|ci2: int|
                        0 <= ci2 < ci && crate_preserved(ou, nu, rfs, ci2) && x.0 == ou.crates[
                            ci2
                        ].0,
                forall|x: (Seq<char>, Seq<char>)|
                    #[trigger] bag_has_dc(bag.datachunks@, x) ==> exists|ci2: int|
                        0 <= ci2 < ci && crate_preserved(ou, nu, rfs, ci2) && x.0 == ou.crates[
                            ci2
                        ].0,
                forall|ci2: int, ti: int|
                    0 <= ci2 < ci && crate_preserved(ou, nu, rfs, ci2) && 0 <= ti < ou.crates[
                        ci2
                    ].1.tasks.len() ==> {
                        let x = (ou.crates[ci2].0, #[trigger] ou.crates[ci2].1.tasks[ti].0);
                        bag_has_task(bag.tasks@, x) && crate::loaded::bag_task_token(bag.tasks@, x)
                            == self.fulfillers@[self.crates@[ci2].1.tasks@[
                            ti
                        ].1 as int].task.unwrap().token
                    },
                forall|ci2: int, di: int|
                    0 <= ci2 < ci && crate_preserved(ou, nu, rfs, ci2) && 0 <= di < ou.crates[
                        ci2
                    ].1.datachunks.len() ==> {
                        let x = (ou.crates[ci2].0, #[trigger] ou.crates[ci2].1.datachunks[di].0);
                        bag_has_dc(bag.datachunks@, x) && crate::loaded::bag_dc_token(
                            bag.datachunks@,
                            x,
                        ) == self.crates@[ci2].1.datachunks@[di].1.unwrap().token
                    },
        {
            let listed = crate_list_contains(reload_for_sure, &self.crates[ci].0);
            let mut preserved = false;
            if !listed {
                match new_unloaded.find_crate(&self.crates[ci].0) {
                    None => {},
                    Some(ncr) => {
                        assert(self.crates@[ci as int].0@ == ou.crates[ci as int].0);
                        assert(old_unloaded@.crates[ci as int] == (
                            old_unloaded.crates[ci as int].0@,
                            old_unloaded.crates[ci as int].1@,
                        ));
                        if &old_unloaded.crates[ci].1 == ncr {
                            preserved = true;
                        }
                    },
                }
            }
            proof {
                assert(preserved == crate_preserved(ou, nu, rfs, ci as int));
            }
            if preserved {
                let ghost pre_bag_t = bag.tasks@;
                let ghost pre_bag_d = bag.datachunks@;
                let nt: usize = self.crates[ci].1.tasks.len();
                for ti in 0..nt
                    invariant
                        self.mirrors(ou),
                        self.crates_mirror(ou),
                        ou == old_unloaded@,
                        ou.wf(),
                        nc == self.crates@.len(),
                        nc == ou.crates.len(),
                        ci < nc,
                        crate_preserved(ou, nu, rfs, ci as int),
                        nt == self.crates@[ci as int].1.tasks@.len(),
                        nt == ou.crates[ci as int].1.tasks.len(),
                        bound == self.next_token,
                        forall|i: int|
                            0 <= i < self.fulfillers@.len() ==> (
                            #[trigger] self.fulfillers@[i]).task.unwrap().token < bound,
                        bag.datachunks@ == pre_bag_d,
                        forall|x: (Seq<char>, Seq<char>)|
                            #[trigger] bag_has_task(pre_bag_t, x) ==> exists|ci2: int|
                                0 <= ci2 < ci && crate_preserved(ou, nu, rfs, ci2) && x.0
                                    == ou.crates[ci2].0,
                        forall|j: int|
                            0 <= j < bag.tasks@.len() ==> (#[trigger] bag.tasks@[j]).1.token
                                < bound,
                        forall|j1: int, j2: int|
                            0 <= j1 < j2 < bag.tasks@.len() ==> bag.tasks@[j1].0@ != bag.tasks@[
                                j2
                            ].0@,
                        forall|j: int|
                            0 <= j < pre_bag_t.len() ==> #[trigger] bag.tasks@[j] == pre_bag_t[j],
                        bag.tasks@.len() == pre_bag_t.len() + ti,
                        forall|j: int|
                            pre_bag_t.len() <= j < bag.tasks@.len() ==> (
                            #[trigger] bag.tasks@[j]).0@ == (
                                ou.crates[ci as int].0,
                                ou.crates[ci as int].1.tasks[j - pre_bag_t.len()].0,
                            ) && bag.tasks@[j].1.token == self.fulfillers@[self.crates@[
                                ci as int
                            ].1.tasks@[j - pre_bag_t.len()].1 as int].task.unwrap().token,
                {
                    let idx: usize = self.crates[ci].1.tasks[ti].1;
                    assert((idx as int) < self.fulfillers@.len());
                    let key: FullTaskName = match &self.fulfillers[idx].task {
                        Some(t) => t.name.clone(),
                        None => FullTaskName::new(String::new(), String::new()),
                    };
                    let tok: u64 = match &self.fulfillers[idx].task {
                        Some(t) => t.token,
                        None => 0,
                    };
                    proof {
                        assert(self.crates@[ci as int].1.tasks@[ti as int].0@ == ou.crates[
                            ci as int
                        ].1.tasks[ti as int].0);
                        assert(self.fulfillers@[idx as int].task.unwrap().name@ == (
                            ou.crates[ci as int].0,
                            ou.crates[ci as int].1.tasks[ti as int].0,
                        ));
                        assert(key@ == (ou.crates[ci as int].0, ou.crates[ci as int].1.tasks[
                            ti as int
                        ].0));
                    }
                    let lt = crate::loaded::LoadedTask::new(key.clone(), Vec::new(), tok);
                    let ghost pre = bag.tasks@;
                    bag.tasks.push((key, lt));
                    proof {
                        assert(unique_keys(ou.crates[ci as int].1.tasks));
                        assert forall|j1: int, j2: int|
                            0 <= j1 < j2 < bag.tasks@.len() implies bag.tasks@[j1].0@
                            != bag.tasks@[j2].0@ by {
                            if j2 == bag.tasks@.len() - 1 {
                                if j1 < pre_bag_t.len() {
                                    assert(bag.tasks@[j1] == pre_bag_t[j1]);
                                    assert(bag_has_task(pre_bag_t, pre_bag_t[j1].0@));
                                    let w = choose|w: int|
                                        0 <= w < ci && crate_preserved(ou, nu, rfs, w)
                                            && pre_bag_t[j1].0@.0 == ou.crates[w].0;
                                    assert(ou.crates[w].0 != ou.crates[ci as int].0);
                                } else {
                                    assert(ou.crates[ci as int].1.tasks[j1 - pre_bag_t.len()].0
                                        != ou.crates[ci as int].1.tasks[ti as int].0);
                                }
                            } else {
                                assert(bag.tasks@[j1] == pre[j1] && bag.tasks@[j2] == pre[j2]);
                            }
                        }
                    }
                }
                let nd: usize = self.crates[ci].1.datachunks.len();
                let ghost mid_bag_t = bag.tasks@;
                for di in 0..nd
                    invariant
                        self.mirrors(ou),
                        self.crates_mirror(ou),
                        ou == old_unloaded@,
                        ou.wf(),
                        nc == self.crates@.len(),
                        nc == ou.crates.len(),
                        ci < nc,
                        crate_preserved(ou, nu, rfs, ci as int),
                        nd == self.crates@[ci as int].1.datachunks@.len(),
                        nd == ou.crates[ci as int].1.datachunks.len(),
                        bound == self.next_token,
                        forall|ci2: int, di2: int|
                            0 <= ci2 < ou.crates.len() && 0 <= di2 < ou.crates[
                                ci2
                            ].1.datachunks.len() ==> (
                            #[trigger] self.crates@[ci2].1.datachunks@[di2]).1.unwrap().token
                                < bound,
                        bag.tasks@ == mid_bag_t,
                        forall|x: (Seq<char>, Seq<char>)|
                            #[trigger] bag_has_dc(pre_bag_d, x) ==> exists|ci2: int|
                                0 <= ci2 < ci && crate_preserved(ou, nu, rfs, ci2) && x.0
                                    == ou.crates[ci2].0,
                        forall|j: int|
                            0 <= j < bag.datachunks@.len() ==> (
                            #[trigger] bag.datachunks@[j]).1.token < bound,
                        forall|j1: int, j2: int|
                            0 <= j1 < j2 < bag.datachunks@.len() ==> bag.datachunks@[j1].0@
                                != bag.datachunks@[j2].0@,
                        forall|j: int|
                            0 <= j < pre_bag_d.len() ==> #[trigger] bag.datachunks@[j]
                                == pre_bag_d[j],
                        bag.datachunks@.len() == pre_bag_d.len() + di,
                        forall|j: int|
                            pre_bag_d.len() <= j < bag.datachunks@.len() ==> (
                            #[trigger] bag.datachunks@[j]).0@ == (
                                ou.crates[ci as int].0,
                                ou.crates[ci as int].1.datachunks[j - pre_bag_d.len()].0,
                            ) && bag.datachunks@[j].1.token == self.crates@[
                                ci as int
                            ].1.datachunks@[j - pre_bag_d.len()].1.unwrap().token,
                {
                    let cn = self.crates[ci].0.clone();
                    let dn: DatachunkName = self.crates[ci].1.datachunks[di].0.clone();
                    let tok: u64 = match &self.crates[ci].1.datachunks[di].1 {
                        Some(d) => d.token,
                        None => 0,
                    };
                    let kindn: String = match &self.crates[ci].1.datachunks[di].1 {
                        Some(d) => d.kind_name.clone(),
                        None => String::new(),
                    };
                    let key = FullDatachunkName { crate_name: cn, datachunk_name: dn };
                    proof {
                        assert(self.crates@[ci as int].1.datachunks@[di as int].0@ == ou.crates[
                            ci as int
                        ].1.datachunks[di as int].0);
                        assert(self.crates@[ci as int].0@ == ou.crates[ci as int].0);
                        assert(key@ == (ou.crates[ci as int].0, ou.crates[ci as int].1.datachunks[
                            di as int
                        ].0));
                        assert(self.crates@[ci as int].1.datachunks@[di as int].1 is Some);
                    }
                    let ld = crate::loaded::LoadedDatachunk::new(kindn, tok);
                    let ghost pre = bag.datachunks@;
                    bag.datachunks.push((key, ld));
                    proof {
                        assert(unique_keys(ou.crates[ci as int].1.datachunks));
                        assert forall|j1: int, j2: int|
                            0 <= j1 < j2 < bag.datachunks@.len() implies bag.datachunks@[j1].0@
                            != bag.datachunks@[j2].0@ by {
                            if j2 == bag.datachunks@.len() - 1 {
                                if j1 < pre_bag_d.len() {
                                    assert(bag.datachunks@[j1] == pre_bag_d[j1]);
                                    assert(bag_has_dc(pre_bag_d, pre_bag_d[j1].0@));
                                    let w = choose|w: int|
                                        0 <= w < ci && crate_preserved(ou, nu, rfs, w)
                                            && pre_bag_d[j1].0@.0 == ou.crates[w].0;
                                    assert(ou.crates[w].0 != ou.crates[ci as int].0);
                                } else {
                                    assert(ou.crates[ci as int].1.datachunks[j1
                                        - pre_bag_d.len()].0 != ou.crates[
                                        ci as int
                                    ].1.datachunks[di as int].0);
                                }
                            } else {
                                assert(bag.datachunks@[j1] == pre[j1] && bag.datachunks@[j2]
                                    == pre[j2]);
                            }
                        }
                    }
                }
                proof {
                    assert forall|x: (Seq<char>, Seq<char>)| #[trigger] bag_has_task(
                        bag.tasks@,
                        x,
                    ) implies exists|ci2: int|
                        0 <= ci2 < ci + 1 && crate_preserved(ou, nu, rfs, ci2) && x.0
                            == ou.crates[ci2].0 by {
                        let j = choose|j: int| 0 <= j < bag.tasks@.len() && bag.tasks@[j].0@ == x;
                        if j < pre_bag_t.len() {
                            assert(bag_has_task(pre_bag_t, x));
                        } else {
                            assert(x.0 == ou.crates[ci as int].0);
                        }
                    }
                    assert forall|x: (Seq<char>, Seq<char>)| #[trigger] bag_has_dc(
                        bag.datachunks@,
                        x,
                    ) implies exists|ci2: int|
                        0 <= ci2 < ci + 1 && crate_preserved(ou, nu, rfs, ci2) && x.0
                            == ou.crates[ci2].0 by {
                        let j = choose|j: int|
                            0 <= j < bag.datachunks@.len() && bag.datachunks@[j].0@ == x;
                        if j < pre_bag_d.len() {
                            assert(bag_has_dc(pre_bag_d, x));
                        } else {
                            assert(x.0 == ou.crates[ci as int].0);
                        }
                    }
                    assert forall|ci2: int, ti: int|
                        0 <= ci2 < ci + 1 && crate_preserved(ou, nu, rfs, ci2) && 0 <= ti
                            < ou.crates[ci2].1.tasks.len() implies {
                        let x = (ou.crates[ci2].0, #[trigger] ou.crates[ci2].1.tasks[ti].0);
                        bag_has_task(bag.tasks@, x) && crate::loaded::bag_task_token(bag.tasks@, x)
                            == self.fulfillers@[self.crates@[ci2].1.tasks@[
                            ti
                        ].1 as int].task.unwrap().token
                    } by {
                        let x = (ou.crates[ci2].0, ou.crates[ci2].1.tasks[ti].0);
                        if ci2 < ci {
                            assert(bag_has_task(pre_bag_t, x));
                            let j = choose|j: int|
                                0 <= j < pre_bag_t.len() && pre_bag_t[j].0@ == x;
                            assert(bag.tasks@[j].0@ == x);
                            assert(bag_has_task(bag.tasks@, x));
                            let jw = choose|jw: int|
                                0 <= jw < bag.tasks@.len() && bag.tasks@[jw].0@ == x;
                            assert(jw == j);
                        } else {
                            let j = pre_bag_t.len() + ti;
                            assert(bag.tasks@[j].0@ == x);
                            assert(bag_has_task(bag.tasks@, x));
                            let jw = choose|jw: int|
                                0 <= jw < bag.tasks@.len() && bag.tasks@[jw].0@ == x;
                            assert(jw == j);
                        }
                    }
                    assert forall|ci2: int, di: int|
                        0 <= ci2 < ci + 1 && crate_preserved(ou, nu, rfs, ci2) && 0 <= di
                            < ou.crates[ci2].1.datachunks.len() implies {
                        let x = (ou.crates[ci2].0, #[trigger] ou.crates[ci2].1.datachunks[di].0);
                        bag_has_dc(bag.datachunks@, x) && crate::loaded::bag_dc_token(
                            bag.datachunks@,
                            x,
                        ) == self.crates@[ci2].1.datachunks@[di].1.unwrap().token
                    } by {
                        let x = (ou.crates[ci2].0, ou.crates[ci2].1.datachunks[di].0);
                        if ci2 < ci {
                            assert(bag_has_dc(pre_bag_d, x));
                            let j = choose|j: int|
                                0 <= j < pre_bag_d.len() && pre_bag_d[j].0@ == x;
                            assert(bag.datachunks@[j].0@ == x);
                            assert(bag_has_dc(bag.datachunks@, x));
                            let jw = choose|jw: int|
                                0 <= jw < bag.datachunks@.len() && bag.datachunks@[jw].0@ == x;
                            assert(jw == j);
                        } else {
                            let j = pre_bag_d.len() + di;
                            assert(bag.datachunks@[j].0@ == x);
                            assert(bag_has_dc(bag.datachunks@, x));
                            let jw = choose|jw: int|
                                0 <= jw < bag.datachunks@.len() && bag.datachunks@[jw].0@ == x;
                            assert(jw == j);
                        }
                    }
                }
            }
        }
        bag
    }
}

} // verus!
