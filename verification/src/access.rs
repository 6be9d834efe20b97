//! Access descriptors: which datachunk a task touches and in what mode.

use vstd::prelude::*;
use crate::identify::FullDatachunkName;

verus! {

/// How a task intends to use a datachunk.
#[derive(Clone, Copy, Debug, PartialEq, Eq, Structural)]
pub enum AccessType {
    ImmutableAccess,
    MutableAccess,
}

impl AccessType {
    /// Two accesses to the same datachunk may coexist on unsynchronized tasks
    /// iff at least one of them is immutable.
    pub fn commensurable(&self, other: &Self) -> (r: bool)
        ensures
            r == !(*self == AccessType::MutableAccess && *other == AccessType::MutableAccess),
    {
        if self == &Self::MutableAccess && other == &Self::MutableAccess {
            return false;
        }
        true
    }
}

/// A single declared access of a task: the datachunk and the mode.
#[derive(Debug)]
pub struct Access {
    pub of: FullDatachunkName,
    pub mut_immut: AccessType,
}

impl Clone for Access {
    fn clone(&self) -> (r: Self)
        ensures
            r.of@ == self.of@,
            r.mut_immut == self.mut_immut,
    {
        Self { of: self.of.clone(), mut_immut: self.mut_immut }
    }
}

impl Access {
    /// The access as a pair of the datachunk's view and the mode.
    pub open spec fn view_pair(self) -> ((Seq<char>, Seq<char>), AccessType) {
        (self.of@, self.mut_immut)
    }
}

} // verus!
