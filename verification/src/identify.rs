//! Identifier model: crate, task and datachunk names, and the fully
//! qualified forms that pair a crate name with a task or datachunk name.

use vstd::prelude::*;

verus! {

/// Common shape of the three name kinds: an opaque string wrapper.
pub trait CustardName: Sized {
    /// The characters of the name.
    spec fn name_view(&self) -> Seq<char>;

    fn new(val: String) -> (r: Self)
        ensures
            r.name_view() == val@,
    ;

    fn get(&self) -> (r: &str)
        ensures
            r@ == self.name_view(),
    ;
}

/// Name of one crate of the composition.
#[derive(Debug)]
pub struct CrateName {
    name: String,
}

impl View for CrateName {
    type V = Seq<char>;

    closed spec fn view(&self) -> Seq<char> {
        self.name@
    }
}

impl CustardName for CrateName {
    open spec fn name_view(&self) -> Seq<char> {
        self@
    }

    fn new(val: String) -> (r: Self)
        ensures
            r.name_view() == val@,
    {
        Self { name: val }
    }

    fn get(&self) -> (r: &str)
        ensures
            r@ == self.name_view(),
    {
        self.name.as_str()
    }
}

impl PartialEq for CrateName {
    fn eq(&self, other: &Self) -> (r: bool) {
        self.name == other.name
    }
}

impl vstd::std_specs::cmp::PartialEqSpecImpl for CrateName {
    open spec fn obeys_eq_spec() -> bool {
        true
    }

    open spec fn eq_spec(&self, other: &Self) -> bool {
        self@ == other@
    }
}

/// Name of a task within one crate.
#[derive(Debug)]
pub struct TaskName {
    name: String,
}

impl View for TaskName {
    type V = Seq<char>;

    closed spec fn view(&self) -> Seq<char> {
        self.name@
    }
}

impl CustardName for TaskName {
    open spec fn name_view(&self) -> Seq<char> {
        self@
    }

    fn new(val: String) -> (r: Self)
        ensures
            r.name_view() == val@,
    {
        Self { name: val }
    }

    fn get(&self) -> (r: &str)
        ensures
            r@ == self.name_view(),
    {
        self.name.as_str()
    }
}

impl PartialEq for TaskName {
    fn eq(&self, other: &Self) -> (r: bool) {
        self.name == other.name
    }
}

impl vstd::std_specs::cmp::PartialEqSpecImpl for TaskName {
    open spec fn obeys_eq_spec() -> bool {
        true
    }

    open spec fn eq_spec(&self, other: &Self) -> bool {
        self@ == other@
    }
}

/// Name of a datachunk within one crate.
#[derive(Debug)]
pub struct DatachunkName {
    name: String,
}

impl View for DatachunkName {
    type V = Seq<char>;

    closed spec fn view(&self) -> Seq<char> {
        self.name@
    }
}

impl CustardName for DatachunkName {
    open spec fn name_view(&self) -> Seq<char> {
        self@
    }

    fn new(val: String) -> (r: Self)
        ensures
            r.name_view() == val@,
    {
        Self { name: val }
    }

    fn get(&self) -> (r: &str)
        ensures
            r@ == self.name_view(),
    {
        self.name.as_str()
    }
}

impl PartialEq for DatachunkName {
    fn eq(&self, other: &Self) -> (r: bool) {
        self.name == other.name
    }
}

impl vstd::std_specs::cmp::PartialEqSpecImpl for DatachunkName {
    open spec fn obeys_eq_spec() -> bool {
        true
    }

    open spec fn eq_spec(&self, other: &Self) -> bool {
        self@ == other@
    }
}

/// A task name qualified by the crate it belongs to.
#[derive(Debug)]
pub struct FullTaskName {
    pub crate_name: CrateName,
    pub task_name: TaskName,
}

impl View for FullTaskName {
    type V = (Seq<char>, Seq<char>);

    open spec fn view(&self) -> (Seq<char>, Seq<char>) {
        (self.crate_name@, self.task_name@)
    }
}

impl FullTaskName {
    pub fn new(crate_name: String, task_name: String) -> (r: Self)
        ensures
            r@ == (crate_name@, task_name@),
    {
        Self { crate_name: CrateName::new(crate_name), task_name: TaskName::new(task_name) }
    }
}

impl PartialEq for FullTaskName {
    fn eq(&self, other: &Self) -> (r: bool) {
        self.crate_name == other.crate_name && self.task_name == other.task_name
    }
}

impl vstd::std_specs::cmp::PartialEqSpecImpl for FullTaskName {
    open spec fn obeys_eq_spec() -> bool {
        true
    }

    open spec fn eq_spec(&self, other: &Self) -> bool {
        self@ == other@
    }
}

/// A datachunk name qualified by the crate it belongs to.
#[derive(Debug)]
pub struct FullDatachunkName {
    pub crate_name: CrateName,
    pub datachunk_name: DatachunkName,
}

impl View for FullDatachunkName {
    type V = (Seq<char>, Seq<char>);

    open spec fn view(&self) -> (Seq<char>, Seq<char>) {
        (self.crate_name@, self.datachunk_name@)
    }
}

impl FullDatachunkName {
    pub fn new(crate_name: String, datachunk_name: String) -> (r: Self)
        ensures
            r@ == (crate_name@, datachunk_name@),
    {
        Self {
            crate_name: CrateName::new(crate_name),
            datachunk_name: DatachunkName::new(datachunk_name),
        }
    }
}

impl PartialEq for FullDatachunkName {
    fn eq(&self, other: &Self) -> (r: bool) {
        self.crate_name == other.crate_name && self.datachunk_name == other.datachunk_name
    }
}

impl vstd::std_specs::cmp::PartialEqSpecImpl for FullDatachunkName {
    open spec fn obeys_eq_spec() -> bool {
        true
    }

    open spec fn eq_spec(&self, other: &Self) -> bool {
        self@ == other@
    }
}

impl Clone for CrateName {
    fn clone(&self) -> (r: Self)
        ensures
            r@ == self@,
    {
        Self { name: self.name.clone() }
    }
}

impl Clone for TaskName {
    fn clone(&self) -> (r: Self)
        ensures
            r@ == self@,
    {
        Self { name: self.name.clone() }
    }
}

impl Clone for DatachunkName {
    fn clone(&self) -> (r: Self)
        ensures
            r@ == self@,
    {
        Self { name: self.name.clone() }
    }
}

impl Clone for FullTaskName {
    fn clone(&self) -> (r: Self)
        ensures
            r@ == self@,
    {
        Self { crate_name: self.crate_name.clone(), task_name: self.task_name.clone() }
    }
}

impl Clone for FullDatachunkName {
    fn clone(&self) -> (r: Self)
        ensures
            r@ == self@,
    {
        Self { crate_name: self.crate_name.clone(), datachunk_name: self.datachunk_name.clone() }
    }
}

} // verus!
