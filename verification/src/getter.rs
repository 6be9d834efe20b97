//! The datachunk accessor handed to a running task's closure: it dispenses
//! views of named datachunks, constrained by the task's declared accesses.
//! A view carries the identity token of the datachunk's plugin object; the
//! embedding program resolves the token to the real storage. The dynamic
//! dynamic type check of a plugin value's downcast is modeled by the type
//! name recorded with each loaded datachunk.

use vstd::prelude::*;
use crate::access::{Access, AccessType};
use crate::identify::{CrateName, FullDatachunkName};
use crate::loaded::LoadedCrate;
use crate::unloaded::{assoc, assoc_from};

verus! {

/// Marker for read-only views.
#[derive(Debug)]
pub struct Immutable;

/// Marker for mutating views.
#[derive(Debug)]
pub struct Mutable;

/// A dispensed view: the identity token of the datachunk it refers to,
/// tagged by mutability.
#[derive(Debug)]
pub struct DatachunkWrapper<M> {
    pub mutability: M,
    pub token: u64,
}

/// What a datachunk request comes back with.
#[derive(Debug)]
pub enum DatachunkGetterResult<M> {
    Granted(DatachunkWrapper<M>),
    CrateNotFound,
    DatachunkNotInCrate,
    NoImmutableAccessAllowed,
    NoMutableAccessAllowed,
    WrongType,
}

impl DatachunkGetterResult<Immutable> {
    /// Unwrap a result the caller knows is a granted view.
    pub fn or_panic(self) -> (r: DatachunkWrapper<Immutable>)
        requires
            self is Granted,
        ensures
            self == DatachunkGetterResult::Granted(r),
    {
        match self {
            DatachunkGetterResult::Granted(v) => v,
            _ => {
                proof {
                    assert(false);
                }
                DatachunkWrapper { mutability: Immutable, token: 0 }
            },
        }
    }
}

impl DatachunkGetterResult<Mutable> {
    /// Unwrap a result the caller knows is a granted view.
    pub fn or_panic(self) -> (r: DatachunkWrapper<Mutable>)
        requires
            self is Granted,
        ensures
            self == DatachunkGetterResult::Granted(r),
    {
        match self {
            DatachunkGetterResult::Granted(v) => v,
            _ => {
                proof {
                    assert(false);
                }
                DatachunkWrapper { mutability: Mutable, token: 0 }
            },
        }
    }
}

/// Character-by-character string comparison.
fn str_eq(a: &str, b: &str) -> (r: bool)
    ensures
        r == (a@ == b@),
{
    let la = a.unicode_len();
    let lb = b.unicode_len();
    if la != lb {
        assert(a@.len() != b@.len());
        return false;
    }
    for i in 0..la
        invariant
            la == a@.len(),
            lb == b@.len(),
            la == lb,
            forall|k: int| 0 <= k < i ==> a@[k] == b@[k],
    {
        if a.get_char(i) != b.get_char(i) {
            return false;
        }
    }
    proof {
        assert(a@ =~= b@);
    }
    true
}

/// The task's access list declares the wanted use of this datachunk.
/// Exclusive (mutable) declarations subsume shared ones.
pub open spec fn declares(
    accs: Seq<((Seq<char>, Seq<char>), AccessType)>,
    name: (Seq<char>, Seq<char>),
    want_mut: bool,
) -> bool {
    exists|k: int|
        0 <= k < accs.len() && accs[k].0 == name && (!want_mut || accs[k].1
            == AccessType::MutableAccess)
}

/// The crate table as an association list keyed by crate-name view.
pub open spec fn table_view(tab: Seq<(CrateName, LoadedCrate)>) -> Seq<(Seq<char>, LoadedCrate)> {
    tab.map_values(|p: (CrateName, LoadedCrate)| (p.0@, p.1))
}

/// The datachunks of one loaded crate as an association list.
pub open spec fn dc_view(cr: LoadedCrate) -> Seq<
    (Seq<char>, Option<crate::loaded::LoadedDatachunk>),
> {
    cr.datachunks@.map_values(
        |p: (crate::identify::DatachunkName, Option<crate::loaded::LoadedDatachunk>)| (p.0@, p.1),
    )
}

/// The request-time mediator bound to one task: its declared accesses and
/// the live crate table.
pub struct DatachunkGetter {
    pub crate_table: Vec<(CrateName, LoadedCrate)>,
    pub accesses: Vec<Access>,
}

impl DatachunkGetter {
    /// The access list as view pairs.
    pub open spec fn accesses_view(self) -> Seq<((Seq<char>, Seq<char>), AccessType)> {
        self.accesses@.map_values(|a: Access| (a.of@, a.mut_immut))
    }

    pub fn new(crate_table: Vec<(CrateName, LoadedCrate)>, accesses: Vec<Access>) -> (r: Self)
        ensures
            r.crate_table == crate_table,
            r.accesses == accesses,
    {
        Self { crate_table, accesses }
    }

    /// Does the task's declaration list cover this request?
    fn check_access(&self, name: &FullDatachunkName, mutable: AccessType) -> (r: bool)
        ensures
            r == declares(self.accesses_view(), name@, mutable == AccessType::MutableAccess),
    {
        let want_mut = mutable == AccessType::MutableAccess;
        let na: usize = self.accesses.len();
        for k in 0..na
            invariant
                na == self.accesses.len(),
                forall|k2: int|
                    0 <= k2 < k ==> !(self.accesses_view()[k2].0 == name@ && (!(mutable
                        == AccessType::MutableAccess) || self.accesses_view()[k2].1
                        == AccessType::MutableAccess)),
        {
            assert(self.accesses_view()[k as int] == (
                self.accesses[k as int].of@,
                self.accesses[k as int].mut_immut,
            ));
            if &self.accesses[k].of == name {
                match mutable {
                    AccessType::ImmutableAccess => {
                        return true;
                    },
                    AccessType::MutableAccess => {
                        if self.accesses[k].mut_immut == AccessType::MutableAccess {
                            return true;
                        }
                    },
                }
            }
        }
        false
    }

    /// Find the requested datachunk's identity token, provided it exists
    /// and its plugin-side type matches the request.
    fn lookup_token(&self, name: &FullDatachunkName, kind_name: &str) -> (r: Result<u64, u8>)
        ensures
            ({
                let tv = table_view(self.crate_table@);
                match assoc(tv, name.crate_name@) {
                    None => r == Err::<u64, u8>(0u8),
                    Some(cr) => match assoc(dc_view(cr), name.datachunk_name@) {
                        None => r == Err::<u64, u8>(1u8),
                        Some(None) => r == Err::<u64, u8>(1u8),
                        Some(Some(d)) => if d.kind_name@ == kind_name@ {
                            r == Ok::<u64, u8>(d.token)
                        } else {
                            r == Err::<u64, u8>(2u8)
                        },
                    },
                }
            }),
    {
        let ghost tv = table_view(self.crate_table@);
        let nc: usize = self.crate_table.len();
        for ci in 0..nc
            invariant
                nc == self.crate_table.len(),
                tv == table_view(self.crate_table@),
                assoc_from(tv, name.crate_name@, ci as int) == assoc(tv, name.crate_name@),
        {
            assert(tv[ci as int] == (self.crate_table[ci as int].0@, self.crate_table[ci as int].1));
            if &self.crate_table[ci].0 == &name.crate_name {
                proof {
                    assert(tv[ci as int].0 == name.crate_name@);
                    assert(assoc_from(tv, name.crate_name@, ci as int) == Some(tv[ci as int].1));
                }
                let cr: &LoadedCrate = &self.crate_table[ci].1;
                let ghost dv = dc_view(*cr);
                let nd: usize = cr.datachunks.len();
                for di in 0..nd
                    invariant
                        nd == cr.datachunks.len(),
                        tv == table_view(self.crate_table@),
                        dv == dc_view(*cr),
                        assoc(tv, name.crate_name@) == Some(*cr),
                        assoc_from(dv, name.datachunk_name@, di as int) == assoc(
                            dv,
                            name.datachunk_name@,
                        ),
                {
                    assert(dv[di as int] == (
                        cr.datachunks[di as int].0@,
                        cr.datachunks[di as int].1,
                    ));
                    if &cr.datachunks[di].0 == &name.datachunk_name {
                        proof {
                            assert(dv[di as int].0 == name.datachunk_name@);
                            assert(assoc_from(dv, name.datachunk_name@, di as int) == Some(
                                dv[di as int].1,
                            ));
                            assert(assoc(dv, name.datachunk_name@) == Some(
                                cr.datachunks@[di as int].1,
                            ));
                        }
                        match &cr.datachunks[di].1 {
                            None => {
                                return Err(1u8);
                            },
                            Some(d) => {
                                if str_eq(d.kind_name.as_str(), kind_name) {
                                    return Ok(d.token);
                                } else {
                                    return Err(2u8);
                                }
                            },
                        }
                    }
                }
                return Err(1u8);
            }
        }
        Err(0u8)
    }

    /// Request a read-only view of the named datachunk, for a value of the
    /// given plugin-side type.
    pub fn get_immut(&self, name: &FullDatachunkName, kind_name: &str) -> (r:
        DatachunkGetterResult<Immutable>)
        ensures
            ({
                let tv = table_view(self.crate_table@);
                if !declares(self.accesses_view(), name@, false) {
                    r is NoImmutableAccessAllowed
                } else {
                    match assoc(tv, name.crate_name@) {
                        None => r is CrateNotFound,
                        Some(cr) => match assoc(dc_view(cr), name.datachunk_name@) {
                            None => r is DatachunkNotInCrate,
                            Some(None) => r is DatachunkNotInCrate,
                            Some(Some(d)) => if d.kind_name@ == kind_name@ {
                                r == DatachunkGetterResult::Granted(
                                    DatachunkWrapper { mutability: Immutable, token: d.token },
                                )
                            } else {
                                r is WrongType
                            },
                        },
                    }
                }
            }),
    {
        if !self.check_access(name, AccessType::ImmutableAccess) {
            return DatachunkGetterResult::NoImmutableAccessAllowed;
        }
        match self.lookup_token(name, kind_name) {
            Ok(t) => DatachunkGetterResult::Granted(DatachunkWrapper { mutability: Immutable, token: t }),
            Err(e) => {
                if e == 0 {
                    DatachunkGetterResult::CrateNotFound
                } else if e == 1 {
                    DatachunkGetterResult::DatachunkNotInCrate
                } else {
                    DatachunkGetterResult::WrongType
                }
            },
        }
    }

    /// Request a mutating view of the named datachunk, for a value of the
    /// given plugin-side type. The task must have declared exclusive
    /// access.
    pub fn get_mut(&self, name: &FullDatachunkName, kind_name: &str) -> (r: DatachunkGetterResult<
        Mutable,
    >)
        ensures
            ({
                let tv = table_view(self.crate_table@);
                if !declares(self.accesses_view(), name@, true) {
                    r is NoMutableAccessAllowed
                } else {
                    match assoc(tv, name.crate_name@) {
                        None => r is CrateNotFound,
                        Some(cr) => match assoc(dc_view(cr), name.datachunk_name@) {
                            None => r is DatachunkNotInCrate,
                            Some(None) => r is DatachunkNotInCrate,
                            Some(Some(d)) => if d.kind_name@ == kind_name@ {
                                r == DatachunkGetterResult::Granted(
                                    DatachunkWrapper { mutability: Mutable, token: d.token },
                                )
                            } else {
                                r is WrongType
                            },
                        },
                    }
                }
            }),
    {
        if !self.check_access(name, AccessType::MutableAccess) {
            return DatachunkGetterResult::NoMutableAccessAllowed;
        }
        match self.lookup_token(name, kind_name) {
            Ok(t) => DatachunkGetterResult::Granted(DatachunkWrapper { mutability: Mutable, token: t }),
            Err(e) => {
                if e == 0 {
                    DatachunkGetterResult::CrateNotFound
                } else if e == 1 {
                    DatachunkGetterResult::DatachunkNotInCrate
                } else {
                    DatachunkGetterResult::WrongType
                }
            },
        }
    }
}

} // verus!
