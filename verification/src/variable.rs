//! Variables: named values in a chart specification. A variable is a
//! `(namespace, name)` pair; the same name may be used at once for a signal,
//! a scale, and a dataset. A scoped variable additionally carries the path of
//! group-mark indices under which it is defined.

use vstd::prelude::*;

verus! {

/// The namespace of a variable.
#[derive(Debug, Clone, Copy, PartialEq, Eq, Structural, Hash)]
pub enum VariableNamespace {
    Signal,
    Data,
    Scale,
}

impl VariableNamespace {
    /// Rank used for the lexicographic ordering of variables
    /// (first by namespace, then by name).
    pub open spec fn spec_rank(self) -> int {
        match self {
            VariableNamespace::Signal => 0,
            VariableNamespace::Data => 1,
            VariableNamespace::Scale => 2,
        }
    }

    /// Executable counterpart of `spec_rank`.
    pub fn rank(&self) -> (r: u8)
        ensures
            r as int == self.spec_rank(),
    {
        match self {
            VariableNamespace::Signal => 0,
            VariableNamespace::Data => 1,
            VariableNamespace::Scale => 2,
        }
    }
}

/// A valid variable name: non-empty and free of `:`.
pub open spec fn valid_name(s: Seq<char>) -> bool {
    &&& s.len() > 0
    &&& forall|i: int| 0 <= i < s.len() ==> s[i] != ':'
}

/// An (unscoped) variable.
#[derive(Debug)]
pub struct Variable {
    pub namespace: VariableNamespace,
    pub name: String,
}

impl Clone for Variable {
    fn clone(&self) -> (r: Self)
        ensures
            r == *self,
    {
        Variable { namespace: self.namespace, name: self.name.clone() }
    }
}

impl PartialEq for Variable {
    fn eq(&self, other: &Self) -> (r: bool) {
        self.namespace == other.namespace && self.name == other.name
    }
}

impl vstd::std_specs::cmp::PartialEqSpecImpl for Variable {
    open spec fn obeys_eq_spec() -> bool {
        true
    }

    open spec fn eq_spec(&self, other: &Self) -> bool {
        self.namespace == other.namespace && self.name@ == other.name@
    }
}

impl Variable {
    pub fn new(ns: VariableNamespace, name: &str) -> (r: Self)
        requires
            valid_name(name@),
        ensures
            r.namespace == ns,
            r.name@ == name@,
    {
        Variable { namespace: ns, name: name.to_owned() }
    }

    pub fn new_signal(id: &str) -> (r: Self)
        requires
            valid_name(id@),
        ensures
            r.namespace == VariableNamespace::Signal,
            r.name@ == id@,
    {
        Self::new(VariableNamespace::Signal, id)
    }

    pub fn new_scale(id: &str) -> (r: Self)
        requires
            valid_name(id@),
        ensures
            r.namespace == VariableNamespace::Scale,
            r.name@ == id@,
    {
        Self::new(VariableNamespace::Scale, id)
    }

    pub fn new_data(id: &str) -> (r: Self)
        requires
            valid_name(id@),
        ensures
            r.namespace == VariableNamespace::Data,
            r.name@ == id@,
    {
        Self::new(VariableNamespace::Data, id)
    }

    pub fn ns(&self) -> (r: VariableNamespace)
        ensures
            r == self.namespace,
    {
        self.namespace
    }
}

/// A variable together with the scope it is defined in. The scope is the path
/// of group-mark indices from the root of the specification; the empty scope
/// is the root itself.
pub type ScopedVariable = (Variable, Vec<u32>);

/// Spec-level identity of a variable: namespace together with the name's
/// character sequence.
pub open spec fn var_id(v: Variable) -> (VariableNamespace, Seq<char>) {
    (v.namespace, v.name@)
}

/// Spec-level identity of a scoped variable.
pub open spec fn scoped_var_id(sv: ScopedVariable) -> (VariableNamespace, Seq<char>, Seq<u32>) {
    (sv.0.namespace, sv.0.name@, sv.1@)
}

/// Whether two variables denote the same `(namespace, name)` pair.
pub fn var_eq(a: &Variable, b: &Variable) -> (r: bool)
    ensures
        r == (var_id(*a) == var_id(*b)),
{
    let r = a.namespace == b.namespace && a.name == b.name;
    r
}

/// Whether two scoped variables denote the same variable at the same scope.
pub fn scoped_var_eq(a: &ScopedVariable, b: &ScopedVariable) -> (r: bool)
    ensures
        r == (scoped_var_id(*a) == scoped_var_id(*b)),
{
    let vars = var_eq(&a.0, &b.0);
    let scopes = a.1 == b.1;
    proof {
        if scopes {
            assert(a.1@ =~= b.1@);
        }
        if a.1@ == b.1@ {
            assert(forall|i: int| 0 <= i < a.1@.len() ==> a.1@[i] == b.1@[i]);
        }
    }
    vars && scopes
}

} // verus!
