//! Column-usage tracking. Which columns of which datasets a piece of the
//! specification touches cannot always be determined statically; `Unknown`
//! records that every original column must be kept. `Unknown` is top in the
//! lattice: any union with `Unknown` is `Unknown`. Projection pushdown
//! consumes these values.

use vstd::prelude::*;

use crate::scope::contains_name;
use crate::variable::{ScopedVariable, scoped_var_eq, scoped_var_id, VariableNamespace};

verus! {

/// Per-selection column lists, keyed by the selection dataset they belong to.
pub type VlSelectionFields = Vec<(ScopedVariable, Vec<String>)>;

/// The set of column names (as views) occurring in a list.
pub open spec fn names_set(v: Seq<String>) -> Set<Seq<char>> {
    Set::new(|n: Seq<char>| contains_name(v, n))
}

/// Which columns of one dataset are used: either a known set of names, or
/// unknown, meaning all of the dataset's columns must be kept.
#[derive(Debug)]
pub enum ColumnUsage {
    Unknown,
    Known(Vec<String>),
}

/// The meaning of a `ColumnUsage` value: `None` for unknown, otherwise the
/// set of used column names.
pub open spec fn usage_view(c: ColumnUsage) -> Option<Set<Seq<char>>> {
    match c {
        ColumnUsage::Unknown => None,
        ColumnUsage::Known(v) => Some(names_set(v@)),
    }
}

/// The union in the usage lattice: unknown absorbs everything.
pub open spec fn usage_union(a: Option<Set<Seq<char>>>, b: Option<Set<Seq<char>>>) -> Option<
    Set<Seq<char>>,
> {
    match (a, b) {
        (Some(x), Some(y)) => Some(x.union(y)),
        _ => None,
    }
}

/// Splitting a concatenated name list splits its name set.
pub proof fn lemma_names_set_concat(a: Seq<String>, b: Seq<String>)
    ensures
        names_set(a + b) =~= names_set(a).union(names_set(b)),
{
    assert forall|n: Seq<char>| contains_name(a + b, n) implies contains_name(a, n)
        || contains_name(b, n) by {
        let i = choose|i: int| 0 <= i < (a + b).len() && (a + b)[i]@ == n;
        if i < a.len() {
            assert(a[i]@ == n);
        } else {
            assert(b[i - a.len()]@ == n);
        }
    }
    assert forall|n: Seq<char>| contains_name(a, n) || contains_name(b, n) implies contains_name(
        a + b,
        n,
    ) by {
        if contains_name(a, n) {
            let i = choose|i: int| 0 <= i < a.len() && a[i]@ == n;
            assert((a + b)[i]@ == n);
        } else {
            let i = choose|i: int| 0 <= i < b.len() && b[i]@ == n;
            assert((a + b)[a.len() + i]@ == n);
        }
    }
}

/// Copies a list of names, preserving each name's view.
pub fn clone_names(v: &Vec<String>) -> (r: Vec<String>)
    ensures
        r@.len() == v@.len(),
        forall|i: int| 0 <= i < v@.len() ==> r@[i]@ == v@[i]@,
        names_set(r@) =~= names_set(v@),
        r@ == v@,
{
    let mut r: Vec<String> = Vec::new();
    let mut i: usize = 0;
    while i < v.len()
        invariant
            i <= v@.len(),
            r@.len() == i as int,
            forall|j: int| 0 <= j < i as int ==> r@[j]@ == v@[j]@,
            r@ =~= v@.take(i as int),
        decreases v@.len() - i as int,
    {
        r.push(v[i].clone());
        i = i + 1;
    }
    proof {
        assert(r@ =~= v@);
        assert forall|n: Seq<char>| contains_name(r@, n) implies contains_name(v@, n) by {
            let k = choose|k: int| 0 <= k < r@.len() && r@[k]@ == n;
            assert(v@[k]@ == n);
        }
        assert forall|n: Seq<char>| contains_name(v@, n) implies contains_name(r@, n) by {
            let k = choose|k: int| 0 <= k < v@.len() && v@[k]@ == n;
            assert(r@[k]@ == n);
        }
    }
    r
}

/// Whether every name of `a` occurs in `b`.
fn names_subset(a: &Vec<String>, b: &Vec<String>) -> (r: bool)
    ensures
        r == names_set(a@).subset_of(names_set(b@)),
{
    let mut i: usize = 0;
    while i < a.len()
        invariant
            i <= a@.len(),
            forall|j: int| 0 <= j < i as int ==> contains_name(b@, a@[j]@),
        decreases a@.len() - i as int,
    {
        if !crate::scope::find_name(b, &a[i]) {
            proof {
                assert(names_set(a@).contains(a@[i as int]@));
            }
            return false;
        }
        i = i + 1;
    }
    proof {
        assert forall|n: Seq<char>| names_set(a@).contains(n) implies names_set(b@).contains(
            n,
        ) by {
            let k = choose|k: int| 0 <= k < a@.len() && a@[k]@ == n;
            assert(contains_name(b@, a@[k]@));
        }
    }
    true
}

impl PartialEq for ColumnUsage {
    fn eq(&self, other: &Self) -> (r: bool) {
        match (self, other) {
            (ColumnUsage::Unknown, ColumnUsage::Unknown) => true,
            (ColumnUsage::Known(a), ColumnUsage::Known(b)) => {
                let r = names_subset(a, b) && names_subset(b, a);
                proof {
                    if r {
                        assert(names_set(a@) =~= names_set(b@));
                    }
                }
                r
            },
            _ => false,
        }
    }
}

impl vstd::std_specs::cmp::PartialEqSpecImpl for ColumnUsage {
    open spec fn obeys_eq_spec() -> bool {
        true
    }

    open spec fn eq_spec(&self, other: &Self) -> bool {
        usage_view(*self) == usage_view(*other)
    }
}

impl Clone for ColumnUsage {
    fn clone(&self) -> (r: Self)
        ensures
            usage_view(r) == usage_view(*self),
    {
        match self {
            ColumnUsage::Unknown => ColumnUsage::Unknown,
            ColumnUsage::Known(v) => ColumnUsage::Known(clone_names(v)),
        }
    }
}

impl ColumnUsage {
    /// A known, empty usage.
    pub fn empty() -> (r: ColumnUsage)
        ensures
            usage_view(r) == Some(Set::<Seq<char>>::empty()),
    {
        let r = ColumnUsage::Known(Vec::new());
        proof {
            assert(usage_view(r)->0 =~= Set::<Seq<char>>::empty());
        }
        r
    }

    /// A known usage holding exactly the given columns.
    pub fn from_columns(columns: &[&str]) -> (r: ColumnUsage)
        ensures
            usage_view(r) matches Some(s) && s =~= Set::new(
                |n: Seq<char>| exists|i: int| 0 <= i < columns@.len() && columns@[i]@ == n,
            ),
    {
        let mut v: Vec<String> = Vec::new();
        let mut i: usize = 0;
        while i < columns.len()
            invariant
                i <= columns@.len(),
                v@.len() == i as int,
                forall|j: int| 0 <= j < i as int ==> v@[j]@ == columns@[j]@,
            decreases columns@.len() - i as int,
        {
            v.push(columns[i].to_owned());
            i = i + 1;
        }
        let r = ColumnUsage::Known(v);
        proof {
            assert forall|n: Seq<char>| contains_name(v@, n) implies (exists|i: int|
                0 <= i < columns@.len() && columns@[i]@ == n) by {
                let k = choose|k: int| 0 <= k < v@.len() && v@[k]@ == n;
                assert(columns@[k]@ == n);
            }
            assert forall|n: Seq<char>|
                (exists|i: int| 0 <= i < columns@.len() && columns@[i]@ == n) implies contains_name(
                v@,
                n,
            ) by {
                let k = choose|k: int| 0 <= k < columns@.len() && columns@[k]@ == n;
                assert(v@[k]@ == n);
            }
        }
        r
    }

    /// This usage with one more known column; unknown stays unknown.
    pub fn with_column(&self, column: &str) -> (r: ColumnUsage)
        ensures
            usage_view(r) == usage_union(
                usage_view(*self),
                Some(Set::<Seq<char>>::empty().insert(column@)),
            ),
    {
        match self {
            ColumnUsage::Unknown => ColumnUsage::Unknown,
            ColumnUsage::Known(v) => {
                let mut out = clone_names(v);
                out.push(column.to_owned());
                let r = ColumnUsage::Known(out);
                proof {
                    let target = usage_view(*self)->0.union(
                        Set::<Seq<char>>::empty().insert(column@),
                    );
                    assert forall|n: Seq<char>| contains_name(out@, n) implies target.contains(
                        n,
                    ) by {
                        let k = choose|k: int| 0 <= k < out@.len() && out@[k]@ == n;
                        if k < v@.len() {
                            assert(contains_name(v@, n));
                        }
                    }
                    assert forall|n: Seq<char>| target.contains(n) implies contains_name(
                        out@,
                        n,
                    ) by {
                        if contains_name(v@, n) {
                            let k = choose|k: int| 0 <= k < v@.len() && v@[k]@ == n;
                            assert(out@[k]@ == n);
                        } else {
                            assert(out@[out@.len() - 1]@ == n);
                        }
                    }
                    assert(names_set(out@) =~= target);
                }
                r
            },
        }
    }

    /// The union of two usages: known sets union; unknown absorbs.
    pub fn union(&self, other: &ColumnUsage) -> (r: ColumnUsage)
        ensures
            usage_view(r) == usage_union(usage_view(*self), usage_view(*other)),
    {
        match (self, other) {
            (ColumnUsage::Known(a), ColumnUsage::Known(b)) => {
                let mut out = clone_names(a);
                let mut rest = clone_names(b);
                out.append(&mut rest);
                let r = ColumnUsage::Known(out);
                proof {
                    lemma_names_set_concat(a@, b@);
                    assert(names_set(out@) =~= names_set(a@ + b@)) by {
                        assert forall|n: Seq<char>| contains_name(out@, n) implies contains_name(
                            a@ + b@,
                            n,
                        ) by {
                            let k = choose|k: int| 0 <= k < out@.len() && out@[k]@ == n;
                            assert((a@ + b@)[k]@ == n);
                        }
                        assert forall|n: Seq<char>| contains_name(a@ + b@, n) implies contains_name(
                            out@,
                            n,
                        ) by {
                            let k = choose|k: int| 0 <= k < (a@ + b@).len() && (a@ + b@)[k]@ == n;
                            assert(out@[k]@ == n);
                        }
                    }
                }
                r
            },
            _ => ColumnUsage::Unknown,
        }
    }
}

/// Tracks the usage of all columns across a collection of datasets. Keys are
/// scoped dataset variables; each key occurs at most once.
#[derive(Debug)]
pub struct DatasetsColumnUsage {
    pub usages: Vec<(ScopedVariable, ColumnUsage)>,
}

/// Spec-level key of a scoped variable.
pub type SvId = (VariableNamespace, Seq<char>, Seq<u32>);

/// Whether a key occurs among the entries.
pub open spec fn dcu_has_key(entries: Seq<(ScopedVariable, ColumnUsage)>, k: SvId) -> bool {
    exists|i: int| 0 <= i < entries.len() && scoped_var_id(entries[i].0) == k
}

/// The index of a key among the entries.
pub open spec fn dcu_index_of(entries: Seq<(ScopedVariable, ColumnUsage)>, k: SvId) -> int {
    choose|i: int| 0 <= i < entries.len() && scoped_var_id(entries[i].0) == k
}

/// Each key occurs at most once.
pub open spec fn dcu_wf(d: DatasetsColumnUsage) -> bool {
    forall|i: int, j: int|
        0 <= i < j < d.usages@.len() ==> scoped_var_id(d.usages@[i].0) != scoped_var_id(
            d.usages@[j].0,
        )
}

/// The meaning of a `DatasetsColumnUsage`: a map from dataset identity to
/// column usage.
pub open spec fn dcu_view(d: DatasetsColumnUsage) -> Map<SvId, Option<Set<Seq<char>>>> {
    Map::new(
        |k: SvId| dcu_has_key(d.usages@, k),
        |k: SvId| usage_view(d.usages@[dcu_index_of(d.usages@, k)].1),
    )
}

/// Looks a key up among the entries, returning the index of its first match.
fn dcu_find(entries: &Vec<(ScopedVariable, ColumnUsage)>, key: &ScopedVariable) -> (r: Option<
    usize,
>)
    ensures
        match r {
            Some(i) => i < entries@.len() && scoped_var_id(entries@[i as int].0) == scoped_var_id(
                *key,
            ),
            None => !dcu_has_key(entries@, scoped_var_id(*key)),
        },
{
    let mut i: usize = 0;
    while i < entries.len()
        invariant
            i <= entries@.len(),
            forall|j: int|
                0 <= j < i as int ==> scoped_var_id(entries@[j].0) != scoped_var_id(*key),
        decreases entries@.len() - i as int,
    {
        if scoped_var_eq(&entries[i].0, key) {
            return Some(i);
        }
        i = i + 1;
    }
    None
}

/// Copies a scoped variable, preserving its identity.
pub fn clone_scoped_var(sv: &ScopedVariable) -> (r: ScopedVariable)
    ensures
        scoped_var_id(r) == scoped_var_id(*sv),
        r.0 == sv.0,
        r.1@ == sv.1@,
{
    let var = sv.0.clone();
    let mut scope: Vec<u32> = Vec::new();
    let mut i: usize = 0;
    while i < sv.1.len()
        invariant
            i <= sv.1@.len(),
            scope@ =~= sv.1@.take(i as int),
        decreases sv.1@.len() - i as int,
    {
        scope.push(sv.1[i]);
        i = i + 1;
    }
    proof {
        assert(scope@ =~= sv.1@);
    }
    (var, scope)
}

impl DatasetsColumnUsage {
    /// No usage recorded for any dataset.
    pub fn empty() -> (r: Self)
        ensures
            dcu_wf(r),
            dcu_view(r) =~= Map::<SvId, Option<Set<Seq<char>>>>::empty(),
    {
        DatasetsColumnUsage { usages: Vec::new() }
    }

    /// This collection with `usage` unioned onto the entry of `datum_var`.
    pub fn with_column_usage(&self, datum_var: &ScopedVariable, usage: &ColumnUsage) -> (r: Self)
        requires
            dcu_wf(*self),
        ensures
            dcu_wf(r),
            dcu_view(r).dom() =~= dcu_view(*self).dom().insert(scoped_var_id(*datum_var)),
            forall|k: SvId|
                dcu_view(r).dom().contains(k) ==> dcu_view(r)[k] == (if k == scoped_var_id(
                    *datum_var,
                ) {
                    usage_union(
                        if dcu_view(*self).dom().contains(k) {
                            dcu_view(*self)[k]
                        } else {
                            Some(Set::<Seq<char>>::empty())
                        },
                        usage_view(*usage),
                    )
                } else {
                    dcu_view(*self)[k]
                }),
    {
        let singleton = DatasetsColumnUsage {
            usages: vec![(clone_scoped_var(datum_var), usage.clone())],
        };
        proof {
            assert(dcu_wf(singleton));
            assert(dcu_view(singleton).dom() =~= Set::<SvId>::empty().insert(
                scoped_var_id(*datum_var),
            ));
            assert(scoped_var_id(singleton.usages@[0].0) == scoped_var_id(*datum_var));
            assert(dcu_index_of(singleton.usages@, scoped_var_id(*datum_var)) == 0);
        }
        let r = self.union(&singleton);
        proof {
            assert(dcu_view(r).dom() =~= dcu_view(*self).dom().insert(scoped_var_id(*datum_var)));
        }
        r
    }

    /// The union of two collections: keys union, and the usage of a shared
    /// key is the union of the two usages; a key missing on one side counts
    /// as an empty known usage there.
    pub fn union(&self, other: &DatasetsColumnUsage) -> (r: DatasetsColumnUsage)
        requires
            dcu_wf(*self),
            dcu_wf(*other),
        ensures
            dcu_wf(r),
            dcu_view(r).dom() =~= dcu_view(*self).dom().union(dcu_view(*other).dom()),
            forall|k: SvId|
                dcu_view(r).dom().contains(k) ==> dcu_view(r)[k] == usage_union(
                    if dcu_view(*self).dom().contains(k) {
                        dcu_view(*self)[k]
                    } else {
                        Some(Set::<Seq<char>>::empty())
                    },
                    if dcu_view(*other).dom().contains(k) {
                        dcu_view(*other)[k]
                    } else {
                        Some(Set::<Seq<char>>::empty())
                    },
                ),
    {
        let ghost selfv = *self;
        let ghost otherv = *other;
        let mut out: Vec<(ScopedVariable, ColumnUsage)> = Vec::new();
        let mut i: usize = 0;
        while i < self.usages.len()
            invariant
                dcu_wf(selfv),
                dcu_wf(otherv),
                selfv == *self,
                otherv == *other,
                i <= self.usages@.len(),
                out@.len() == i as int,
                forall|j: int|
                    0 <= j < i as int ==> scoped_var_id(out@[j].0) == scoped_var_id(
                        self.usages@[j].0,
                    ),
                forall|x: int, y: int|
                    0 <= x < y < out@.len() ==> scoped_var_id(out@[x].0) != scoped_var_id(
                        out@[y].0,
                    ),
                forall|j: int| 0 <= j < i as int ==> dcu_merged_entry(selfv, otherv, out@, j),
            decreases self.usages@.len() - i as int,
        {
            let key = &self.usages[i].0;
            let mine = &self.usages[i].1;
            let merged = match dcu_find(&other.usages, key) {
                Some(j) => {
                    proof {
                        let k = scoped_var_id(*key);
                        let w = dcu_index_of(other.usages@, k);
                        assert(scoped_var_id(other.usages@[j as int].0) == k);
                        assert(0 <= w < other.usages@.len() && scoped_var_id(other.usages@[w].0)
                            == k);
                        assert(w == j as int);
                    }
                    mine.union(&other.usages[j].1)
                },
                None => {
                    let e = ColumnUsage::empty();
                    let u = mine.union(&e);
                    proof {
                        assert(usage_view(u) == usage_union(
                            usage_view(*mine),
                            Some(Set::<Seq<char>>::empty()),
                        ));
                    }
                    u
                },
            };
            let ghost before = out@;
            out.push((clone_scoped_var(key), merged));
            proof {
                assert(dcu_merged_entry(selfv, otherv, out@, i as int));
                assert forall|j: int| 0 <= j < i as int + 1 implies #[trigger] dcu_merged_entry(
                    selfv,
                    otherv,
                    out@,
                    j,
                ) by {
                    if j < i as int {
                        assert(out@[j] == before[j]);
                        assert(dcu_merged_entry(selfv, otherv, before, j));
                    }
                }
            }
            i = i + 1;
        }
        let ghost split = out@.len() as int;
        let mut j: usize = 0;
        while j < other.usages.len()
            invariant
                dcu_wf(selfv),
                dcu_wf(otherv),
                selfv == *self,
                otherv == *other,
                j <= other.usages@.len(),
                split == self.usages@.len() as int,
                out@.len() >= split,
                forall|t: int|
                    0 <= t < split ==> scoped_var_id(out@[t].0) == scoped_var_id(
                        self.usages@[t].0,
                    ),
                forall|t: int| 0 <= t < split ==> dcu_merged_entry(selfv, otherv, out@, t),
                forall|x: int, y: int|
                    0 <= x < y < out@.len() ==> scoped_var_id(out@[x].0) != scoped_var_id(
                        out@[y].0,
                    ),
                forall|t: int|
                    split <= t < out@.len() ==> dcu_appended_entry(selfv, otherv, out@, t, j as int),
                forall|u: int|
                    0 <= u < j as int && !dcu_has_key(selfv.usages@, scoped_var_id(otherv.usages@[u].0))
                        ==> dcu_has_key(out@, scoped_var_id(otherv.usages@[u].0)),
            decreases other.usages@.len() - j as int,
        {
            let ghost before = out@;
            let key = &other.usages[j].0;
            if dcu_find(&self.usages, key).is_none() {
                out.push((clone_scoped_var(key), other.usages[j].1.clone()));
            }
            proof {
                assert forall|t: int| 0 <= t < split implies #[trigger] dcu_merged_entry(
                    selfv,
                    otherv,
                    out@,
                    t,
                ) by {
                    assert(out@[t] == before[t]);
                    assert(dcu_merged_entry(selfv, otherv, before, t));
                }
                assert forall|t: int| split <= t < out@.len() implies #[trigger] dcu_appended_entry(
                    selfv,
                    otherv,
                    out@,
                    t,
                    j as int + 1,
                ) by {
                    if t < before.len() {
                        assert(out@[t] == before[t]);
                        assert(dcu_appended_entry(selfv, otherv, before, t, j as int));
                        let u = choose|u: int|
                            0 <= u < j as int && #[trigger] scoped_var_id(otherv.usages@[u].0)
                                == scoped_var_id(before[t].0) && usage_view(before[t].1)
                                == usage_view(otherv.usages@[u].1) && !dcu_has_key(
                                selfv.usages@,
                                scoped_var_id(otherv.usages@[u].0),
                            );
                        assert(scoped_var_id(otherv.usages@[u].0) == scoped_var_id(out@[t].0));
                    } else {
                        assert(scoped_var_id(otherv.usages@[j as int].0) == scoped_var_id(
                            out@[t].0,
                        ));
                    }
                }
                assert forall|u: int|
                    0 <= u < j as int + 1 && !dcu_has_key(
                        selfv.usages@,
                        scoped_var_id(otherv.usages@[u].0),
                    ) implies dcu_has_key(out@, scoped_var_id(otherv.usages@[u].0)) by {
                    if u < j as int {
                        let t = choose|t: int|
                            0 <= t < before.len() && scoped_var_id(before[t].0) == scoped_var_id(
                                otherv.usages@[u].0,
                            );
                        assert(scoped_var_id(out@[t].0) == scoped_var_id(otherv.usages@[u].0));
                    } else {
                        assert(scoped_var_id(out@[out@.len() - 1].0) == scoped_var_id(
                            otherv.usages@[u].0,
                        ));
                    }
                }
                assert forall|x: int, y: int| 0 <= x < y < out@.len() implies scoped_var_id(
                    out@[x].0,
                ) != scoped_var_id(out@[y].0) by {
                    if y < before.len() {
                        assert(out@[x] == before[x] && out@[y] == before[y]);
                    } else if y == before.len() {
                        assert(out@[x] == before[x]);
                        if x < split {
                            if scoped_var_id(out@[x].0) == scoped_var_id(out@[y].0) {
                                assert(dcu_has_key(selfv.usages@, scoped_var_id(out@[y].0)));
                            }
                        } else {
                            assert(dcu_appended_entry(selfv, otherv, before, x, j as int));
                            let u = choose|u: int|
                                0 <= u < j as int && #[trigger] scoped_var_id(otherv.usages@[u].0)
                                    == scoped_var_id(before[x].0) && usage_view(before[x].1)
                                    == usage_view(otherv.usages@[u].1) && !dcu_has_key(
                                    selfv.usages@,
                                    scoped_var_id(otherv.usages@[u].0),
                                );
                            assert(scoped_var_id(otherv.usages@[u].0) != scoped_var_id(
                                otherv.usages@[j as int].0,
                            ));
                        }
                    }
                }
            }
            j = j + 1;
        }
        let r = DatasetsColumnUsage { usages: out };
        proof {
            dcu_union_post(selfv, otherv, r, split);
        }
        r
    }
}

/// The entry at position `t` merges `a`'s entry `t` with `b`'s usage of the
/// same key (or an empty usage when `b` lacks the key).
pub open spec fn dcu_merged_entry(
    a: DatasetsColumnUsage,
    b: DatasetsColumnUsage,
    ents: Seq<(ScopedVariable, ColumnUsage)>,
    t: int,
) -> bool {
    &&& 0 <= t < a.usages@.len()
    &&& t < ents.len()
    &&& scoped_var_id(ents[t].0) == scoped_var_id(a.usages@[t].0)
    &&& usage_view(ents[t].1) == usage_union(
        usage_view(a.usages@[t].1),
        if dcu_has_key(b.usages@, scoped_var_id(a.usages@[t].0)) {
            usage_view(b.usages@[dcu_index_of(b.usages@, scoped_var_id(a.usages@[t].0))].1)
        } else {
            Some(Set::<Seq<char>>::empty())
        },
    )
}

/// The entry at position `t` copies an entry of `b` (among the first `bound`)
/// whose key is absent from `a`.
pub open spec fn dcu_appended_entry(
    a: DatasetsColumnUsage,
    b: DatasetsColumnUsage,
    ents: Seq<(ScopedVariable, ColumnUsage)>,
    t: int,
    bound: int,
) -> bool {
    &&& 0 <= t < ents.len()
    &&& exists|u: int|
        0 <= u < bound && #[trigger] scoped_var_id(b.usages@[u].0) == scoped_var_id(ents[t].0)
            && usage_view(ents[t].1) == usage_view(b.usages@[u].1) && !dcu_has_key(
            a.usages@,
            scoped_var_id(b.usages@[u].0),
        )
}

/// Establishes the contract of `DatasetsColumnUsage::union` from the shape
/// the builder leaves behind: the first `split` entries merge `a`'s keys
/// with `b`'s usages, the rest carry `b`'s keys that `a` lacks, keys are
/// pairwise distinct, and every `b` key missing from `a` is present.
proof fn dcu_union_post(
    a: DatasetsColumnUsage,
    b: DatasetsColumnUsage,
    r: DatasetsColumnUsage,
    split: int,
)
    requires
        dcu_wf(a),
        dcu_wf(b),
        0 <= split <= r.usages@.len(),
        split == a.usages@.len(),
        forall|t: int|
            0 <= t < split ==> scoped_var_id(r.usages@[t].0) == scoped_var_id(a.usages@[t].0),
        forall|t: int| 0 <= t < split ==> dcu_merged_entry(a, b, r.usages@, t),
        forall|t: int| split <= t < r.usages@.len() ==> dcu_appended_entry(
            a,
            b,
            r.usages@,
            t,
            b.usages@.len() as int,
        ),
        forall|x: int, y: int|
            0 <= x < y < r.usages@.len() ==> scoped_var_id(r.usages@[x].0) != scoped_var_id(
                r.usages@[y].0,
            ),
        forall|u: int|
            0 <= u < b.usages@.len() && !dcu_has_key(a.usages@, scoped_var_id(b.usages@[u].0))
                ==> dcu_has_key(r.usages@, scoped_var_id(b.usages@[u].0)),
    ensures
        dcu_wf(r),
        dcu_view(r).dom() =~= dcu_view(a).dom().union(dcu_view(b).dom()),
        forall|k: SvId|
            dcu_view(r).dom().contains(k) ==> dcu_view(r)[k] == usage_union(
                if dcu_view(a).dom().contains(k) {
                    dcu_view(a)[k]
                } else {
                    Some(Set::<Seq<char>>::empty())
                },
                if dcu_view(b).dom().contains(k) {
                    dcu_view(b)[k]
                } else {
                    Some(Set::<Seq<char>>::empty())
                },
            ),
{
    assert(dcu_wf(r));
    // Domain equality.
    assert forall|k: SvId| dcu_has_key(r.usages@, k) implies dcu_has_key(a.usages@, k)
        || dcu_has_key(b.usages@, k) by {
        let t = choose|t: int| 0 <= t < r.usages@.len() && scoped_var_id(r.usages@[t].0) == k;
        if t < split {
            assert(scoped_var_id(a.usages@[t].0) == k);
        } else {
            assert(dcu_appended_entry(a, b, r.usages@, t, b.usages@.len() as int));
            let u = choose|u: int|
                0 <= u < b.usages@.len() as int && #[trigger] scoped_var_id(b.usages@[u].0)
                    == scoped_var_id(r.usages@[t].0) && usage_view(r.usages@[t].1) == usage_view(
                    b.usages@[u].1,
                ) && !dcu_has_key(a.usages@, scoped_var_id(b.usages@[u].0));
            assert(scoped_var_id(b.usages@[u].0) == k);
        }
    }
    assert forall|k: SvId| dcu_has_key(a.usages@, k) || dcu_has_key(b.usages@, k)
        implies dcu_has_key(r.usages@, k) by {
        if dcu_has_key(a.usages@, k) {
            let t = choose|t: int| 0 <= t < a.usages@.len() && scoped_var_id(a.usages@[t].0) == k;
            assert(scoped_var_id(r.usages@[t].0) == k);
        } else {
            let u = choose|u: int| 0 <= u < b.usages@.len() && scoped_var_id(b.usages@[u].0) == k;
        }
    }
    // Values.
    assert forall|k: SvId| dcu_view(r).dom().contains(k) implies dcu_view(r)[k] == usage_union(
        if dcu_view(a).dom().contains(k) {
            dcu_view(a)[k]
        } else {
            Some(Set::<Seq<char>>::empty())
        },
        if dcu_view(b).dom().contains(k) {
            dcu_view(b)[k]
        } else {
            Some(Set::<Seq<char>>::empty())
        },
    ) by {
        let t = dcu_index_of(r.usages@, k);
        assert(dcu_has_key(r.usages@, k));
        assert(0 <= t < r.usages@.len() && scoped_var_id(r.usages@[t].0) == k);
        if t < split {
            assert(dcu_merged_entry(a, b, r.usages@, t));
            assert(scoped_var_id(a.usages@[t].0) == k);
            assert(dcu_index_of(a.usages@, k) == t) by {
                let w = dcu_index_of(a.usages@, k);
                assert(dcu_has_key(a.usages@, k));
                assert(0 <= w < a.usages@.len() && scoped_var_id(a.usages@[w].0) == k);
                if w != t {
                    assert(false);
                }
            }
        } else {
            assert(dcu_appended_entry(a, b, r.usages@, t, b.usages@.len() as int));
            let u = choose|u: int|
                0 <= u < b.usages@.len() as int && #[trigger] scoped_var_id(b.usages@[u].0)
                    == scoped_var_id(r.usages@[t].0) && usage_view(r.usages@[t].1) == usage_view(
                    b.usages@[u].1,
                ) && !dcu_has_key(a.usages@, scoped_var_id(b.usages@[u].0));
            assert(scoped_var_id(b.usages@[u].0) == k);
            assert(dcu_index_of(b.usages@, k) == u) by {
                let w = dcu_index_of(b.usages@, k);
                assert(dcu_has_key(b.usages@, k));
                assert(0 <= w < b.usages@.len() && scoped_var_id(b.usages@[w].0) == k);
                if w != u {
                    assert(false);
                }
            }
            assert(!dcu_view(a).dom().contains(k));
            assert(usage_union(
                Some(Set::<Seq<char>>::empty()),
                usage_view(b.usages@[u].1),
            ) == usage_view(b.usages@[u].1)) by {
                match usage_view(b.usages@[u].1) {
                    Some(s) => {
                        assert(Set::<Seq<char>>::empty().union(s) =~= s);
                    },
                    None => {},
                }
            }
        }
    }
}

} // verus!
