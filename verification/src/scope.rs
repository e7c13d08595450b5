//! The scope tree. Each node of the tree mirrors one group-mark level of a
//! chart specification and records which signal, data and scale names are
//! defined there, together with the map from transform output signals to the
//! dataset that publishes them. Name resolution walks from the usage scope
//! outward to the root; the innermost definition wins.

use vstd::prelude::*;

use crate::errors::{ErrorKind, Result, VegaFusionError, error_kind};
use crate::variable::{Variable, VariableNamespace};

verus! {

/// One level of the scope tree.
#[derive(Debug)]
pub struct TaskScope {
    /// Signal names defined at this level.
    pub signals: Vec<String>,
    /// Dataset names defined at this level.
    pub data: Vec<String>,
    /// Scale names defined at this level.
    pub scales: Vec<String>,
    /// `output signal name -> defining dataset name`: data transforms can
    /// publish signals.
    pub output_var_defs: Vec<(String, String)>,
    /// One child per group mark nested at this level, in child-index order.
    pub children: Vec<TaskScope>,
}

/// Whether a name occurs in a list of names.
pub open spec fn contains_name(names: Seq<String>, name: Seq<char>) -> bool {
    exists|i: int| 0 <= i < names.len() && names[i]@ == name
}

/// The output-signal map of a scope, as pairs of views.
pub open spec fn output_pairs(s: TaskScope) -> Seq<(Seq<char>, Seq<char>)> {
    Seq::new(s.output_var_defs@.len(), |i: int| (s.output_var_defs@[i].0@, s.output_var_defs@[i].1@))
}

/// Whether the scope maps `sig` as the output signal of some dataset.
pub open spec fn has_output(s: TaskScope, sig: Seq<char>) -> bool {
    exists|i: int| 0 <= i < output_pairs(s).len() && output_pairs(s)[i].0 == sig
}

/// The first dataset name a sequence of output pairs maps `sig` to.
pub open spec fn output_lookup_in(
    pairs: Seq<(Seq<char>, Seq<char>)>,
    sig: Seq<char>,
) -> Option<Seq<char>>
    decreases pairs.len(),
{
    if pairs.len() == 0 {
        None
    } else if pairs[0].0 == sig {
        Some(pairs[0].1)
    } else {
        output_lookup_in(pairs.subrange(1, pairs.len() as int), sig)
    }
}

/// The dataset name the scope's output-signal map gives `sig`: the first
/// matching entry wins.
pub open spec fn output_lookup(s: TaskScope, sig: Seq<char>) -> Option<Seq<char>> {
    output_lookup_in(output_pairs(s), sig)
}

/// A lookup succeeds exactly when some pair matches.
pub proof fn lemma_output_lookup_exists(pairs: Seq<(Seq<char>, Seq<char>)>, sig: Seq<char>)
    ensures
        (output_lookup_in(pairs, sig) is Some) <==> exists|i: int|
            0 <= i < pairs.len() && pairs[i].0 == sig,
    decreases pairs.len(),
{
    if pairs.len() > 0 {
        let tail = pairs.subrange(1, pairs.len() as int);
        lemma_output_lookup_exists(tail, sig);
        if pairs[0].0 != sig {
            if output_lookup_in(pairs, sig) is Some {
                let i = choose|i: int| 0 <= i < tail.len() && tail[i].0 == sig;
                assert(pairs[i + 1].0 == sig);
            }
            if exists|i: int| 0 <= i < pairs.len() && pairs[i].0 == sig {
                let i = choose|i: int| 0 <= i < pairs.len() && pairs[i].0 == sig;
                assert(tail[i - 1].0 == sig);
            }
        }
    }
}

/// Whether the scope level itself defines `name` in namespace `ns`.
pub open spec fn scope_defines(s: TaskScope, ns: VariableNamespace, name: Seq<char>) -> bool {
    match ns {
        VariableNamespace::Signal => contains_name(s.signals@, name),
        VariableNamespace::Data => contains_name(s.data@, name),
        VariableNamespace::Scale => contains_name(s.scales@, name),
    }
}

/// The scope reached from `s` by following the path of child indices `p`,
/// if every index is in range.
pub open spec fn spec_get_child(s: TaskScope, p: Seq<u32>) -> Option<TaskScope>
    decreases p.len(),
{
    if p.len() == 0 {
        Some(s)
    } else if 0 <= p[0] < s.children@.len() {
        spec_get_child(s.children@[p[0] as int], p.subrange(1, p.len() as int))
    } else {
        None
    }
}

/// Extending a valid path by one child index steps into that child.
pub proof fn lemma_get_child_step(s: TaskScope, p: Seq<u32>, i: u32)
    ensures
        spec_get_child(s, p.push(i)) == (match spec_get_child(s, p) {
            Some(t) => if 0 <= i < t.children@.len() {
                Some(t.children@[i as int])
            } else {
                None
            },
            None => None::<TaskScope>,
        }),
    decreases p.len(),
{
    if p.len() == 0 {
        let q = p.push(i);
        assert(q[0] == i);
        assert(q.subrange(1, q.len() as int) =~= Seq::<u32>::empty());
        if 0 <= i < s.children@.len() {
            let c = s.children@[i as int];
            assert(spec_get_child(c, Seq::<u32>::empty()) == Some(c));
            assert(spec_get_child(s, q) == spec_get_child(c, q.subrange(1, q.len() as int)));
        }
    } else {
        if 0 <= p[0] < s.children@.len() {
            let child = s.children@[p[0] as int];
            assert(p.push(i).subrange(1, p.push(i).len() as int) =~= p.subrange(
                1,
                p.len() as int,
            ).push(i));
            lemma_get_child_step(child, p.subrange(1, p.len() as int), i);
        } else {
            assert(p.push(i)[0] == p[0]);
        }
    }
}

/// Every prefix of a valid path is itself valid.
pub proof fn lemma_prefix_valid(s: TaskScope, p: Seq<u32>, k: int)
    requires
        0 <= k <= p.len(),
        spec_get_child(s, p) is Some,
    ensures
        spec_get_child(s, p.take(k)) is Some,
    decreases p.len() - k,
{
    if k < p.len() {
        lemma_prefix_valid(s, p, k + 1);
        assert(p.take(k + 1) =~= p.take(k).push(p[k]));
        lemma_get_child_step(s, p.take(k), p[k]);
    } else {
        assert(p.take(k) =~= p);
    }
}

/// Whether resolution of `(ns, name)` hits at prefix length `k` of the usage
/// scope: the scope at that prefix either defines the name, or (for signals)
/// maps it as a transform output.
pub open spec fn hits_at(
    root: TaskScope,
    ns: VariableNamespace,
    name: Seq<char>,
    usage: Seq<u32>,
    k: int,
) -> bool {
    match spec_get_child(root, usage.take(k)) {
        Some(s) => scope_defines(s, ns, name) || (ns == VariableNamespace::Signal && has_output(
            s,
            name,
        )),
        None => false,
    }
}

/// The result of resolving a variable reference: the variable actually
/// defined, the scope that defines it, and, when the reference hit an
/// output-signal map, the signal that named it.
#[derive(Debug)]
pub struct Resolved {
    pub var: Variable,
    pub scope: Vec<u32>,
    pub output_var: Option<Variable>,
}

/// What a resolution result means at its hit level: either the scope defines
/// the requested variable directly, or the request was a signal published by
/// a dataset's transform, in which case the underlying dataset is returned
/// and `output_var` names the signal.
pub open spec fn resolved_frame(
    root: TaskScope,
    ns: VariableNamespace,
    name: Seq<char>,
    usage: Seq<u32>,
    res: Resolved,
) -> bool {
    let k = res.scope@.len() as int;
    match spec_get_child(root, usage.take(k)) {
        Some(s) => {
            if scope_defines(s, ns, name) {
                &&& res.var.namespace == ns
                &&& res.var.name@ == name
                &&& res.output_var is None
            } else {
                &&& ns == VariableNamespace::Signal
                &&& has_output(s, name)
                &&& res.var.namespace == VariableNamespace::Data
                &&& output_lookup(s, name) == Some(res.var.name@)
                &&& res.output_var matches Some(ov) && ov.namespace == VariableNamespace::Signal
                    && ov.name@ == name
            }
        },
        None => false,
    }
}

/// A fully correct resolution: the result's scope is the innermost prefix of
/// the usage scope at which resolution hits, and the result describes that
/// hit.
pub open spec fn resolution_ok(
    root: TaskScope,
    ns: VariableNamespace,
    name: Seq<char>,
    usage: Seq<u32>,
    res: Resolved,
) -> bool {
    let k = res.scope@.len() as int;
    &&& 0 <= k <= usage.len()
    &&& res.scope@ == usage.take(k)
    &&& hits_at(root, ns, name, usage, k)
    &&& resolved_frame(root, ns, name, usage, res)
    &&& forall|j: int| k < j <= usage.len() ==> !hits_at(root, ns, name, usage, j)
}

/// The innermost prefix length of the usage scope, at most `k`, at which
/// resolution of `(ns, name)` hits, if any.
pub open spec fn hit_depth_upto(
    root: TaskScope,
    ns: VariableNamespace,
    name: Seq<char>,
    usage: Seq<u32>,
    k: int,
) -> Option<int>
    decreases k + 1,
{
    if k < 0 {
        None
    } else if hits_at(root, ns, name, usage, k) {
        Some(k)
    } else {
        hit_depth_upto(root, ns, name, usage, k - 1)
    }
}

/// The innermost prefix length of the usage scope at which resolution hits.
pub open spec fn hit_depth(
    root: TaskScope,
    ns: VariableNamespace,
    name: Seq<char>,
    usage: Seq<u32>,
) -> Option<int> {
    hit_depth_upto(root, ns, name, usage, usage.len() as int)
}

/// A hit at `k` with no deeper hit up to `m` pins the depth to `k`.
proof fn lemma_hit_depth_pins(
    root: TaskScope,
    ns: VariableNamespace,
    name: Seq<char>,
    usage: Seq<u32>,
    k: int,
    m: int,
)
    requires
        0 <= k <= m,
        hits_at(root, ns, name, usage, k),
        forall|j: int| k < j <= m ==> !hits_at(root, ns, name, usage, j),
    ensures
        hit_depth_upto(root, ns, name, usage, m) == Some(k),
    decreases m,
{
    if m > k {
        lemma_hit_depth_pins(root, ns, name, usage, k, m - 1);
    }
}

/// No hit anywhere up to `m` leaves the depth undefined.
proof fn lemma_hit_depth_none(
    root: TaskScope,
    ns: VariableNamespace,
    name: Seq<char>,
    usage: Seq<u32>,
    m: int,
)
    requires
        forall|j: int| 0 <= j <= m ==> !hits_at(root, ns, name, usage, j),
    ensures
        hit_depth_upto(root, ns, name, usage, m) is None,
    decreases m + 1,
{
    if m >= 0 {
        lemma_hit_depth_none(root, ns, name, usage, m - 1);
    }
}

/// The spec-level identity of a resolution result: the resolved variable's
/// namespace and name, the defining scope, and the output signal's name when
/// the hit was an output-signal map entry.
pub open spec fn spec_resolve(
    root: TaskScope,
    ns: VariableNamespace,
    name: Seq<char>,
    usage: Seq<u32>,
) -> Option<((VariableNamespace, Seq<char>), Seq<u32>, Option<Seq<char>>)> {
    match hit_depth(root, ns, name, usage) {
        None => None,
        Some(k) => {
            let s = spec_get_child(root, usage.take(k))->0;
            if scope_defines(s, ns, name) {
                Some(((ns, name), usage.take(k), None))
            } else {
                Some(
                    (
                        (VariableNamespace::Data, output_lookup(s, name)->0),
                        usage.take(k),
                        Some(name),
                    ),
                )
            }
        },
    }
}

/// A result meeting `resolution_ok` is exactly the spec-level resolution:
/// `resolve_scope`'s contract pins its result.
pub proof fn lemma_resolution_model(
    root: TaskScope,
    ns: VariableNamespace,
    name: Seq<char>,
    usage: Seq<u32>,
    res: Resolved,
)
    requires
        resolution_ok(root, ns, name, usage, res),
    ensures
        spec_resolve(root, ns, name, usage) == Some(
            (
                (res.var.namespace, res.var.name@),
                res.scope@,
                match res.output_var {
                    None => None::<Seq<char>>,
                    Some(ov) => Some(ov.name@),
                },
            ),
        ),
{
    let k = res.scope@.len() as int;
    lemma_hit_depth_pins(root, ns, name, usage, k, usage.len() as int);
}

/// When no prefix of the usage scope hits, the spec-level resolution is
/// undefined: `resolve_scope`'s failure case pins it.
pub proof fn lemma_resolution_failure(
    root: TaskScope,
    ns: VariableNamespace,
    name: Seq<char>,
    usage: Seq<u32>,
)
    requires
        forall|j: int| 0 <= j <= usage.len() ==> !hits_at(root, ns, name, usage, j),
    ensures
        spec_resolve(root, ns, name, usage) is None,
{
    lemma_hit_depth_none(root, ns, name, usage, usage.len() as int);
}

impl TaskScope {
    /// A scope level with nothing defined and no children.
    pub fn new() -> (r: Self)
        ensures
            r.signals@.len() == 0,
            r.data@.len() == 0,
            r.scales@.len() == 0,
            r.output_var_defs@.len() == 0,
            r.children@.len() == 0,
    {
        TaskScope {
            signals: Vec::new(),
            data: Vec::new(),
            scales: Vec::new(),
            output_var_defs: Vec::new(),
            children: Vec::new(),
        }
    }

    /// The scope at child path `path`, or an internal error when an index is
    /// out of range.
    pub fn get_child(&self, path: &[u32]) -> (r: Result<&TaskScope>)
        ensures
            match spec_get_child(*self, path@) {
                Some(s) => r is Ok && *r->Ok_0 == s,
                None => r is Err && error_kind(r->Err_0) == ErrorKind::Internal,
            },
    {
        proof {
            assert(path@.subrange(0, path@.len() as int) =~= path@);
        }
        self.get_child_rec(path, 0)
    }

    fn get_child_rec(&self, path: &[u32], pos: usize) -> (r: Result<&TaskScope>)
        requires
            pos <= path@.len(),
        ensures
            match spec_get_child(*self, path@.subrange(pos as int, path@.len() as int)) {
                Some(s) => r is Ok && *r->Ok_0 == s,
                None => r is Err && error_kind(r->Err_0) == ErrorKind::Internal,
            },
        decreases path@.len() - pos as int,
    {
        if pos == path.len() {
            proof {
                assert(path@.subrange(pos as int, path@.len() as int) =~= Seq::<u32>::empty());
            }
            Ok(self)
        } else {
            let i = path[pos];
            proof {
                let rest = path@.subrange(pos as int, path@.len() as int);
                assert(rest[0] == path@[pos as int]);
                assert(rest.subrange(1, rest.len() as int) =~= path@.subrange(
                    pos as int + 1,
                    path@.len() as int,
                ));
            }
            if (i as usize) < self.children.len() {
                self.children[i as usize].get_child_rec(path, pos + 1)
            } else {
                Err(VegaFusionError::internal("scope path index out of range"))
            }
        }
    }
}

/// Copies the first `k` entries of a scope path.
pub fn scope_prefix(usage: &[u32], k: usize) -> (r: Vec<u32>)
    requires
        k <= usage@.len(),
    ensures
        r@ == usage@.take(k as int),
{
    let mut r: Vec<u32> = Vec::new();
    let mut i: usize = 0;
    while i < k
        invariant
            i <= k <= usage@.len(),
            r@ =~= usage@.take(i as int),
        decreases k - i,
    {
        r.push(usage[i]);
        i = i + 1;
    }
    proof {
        assert(r@ =~= usage@.take(k as int));
    }
    r
}

/// Finds `name` in a list of names.
pub fn find_name(names: &Vec<String>, name: &String) -> (r: bool)
    ensures
        r == contains_name(names@, name@),
{
    let mut i: usize = 0;
    while i < names.len()
        invariant
            i <= names@.len(),
            forall|j: int| 0 <= j < i as int ==> names@[j]@ != name@,
        decreases names@.len() - i as int,
    {
        if names[i] == *name {
            return true;
        }
        i = i + 1;
    }
    false
}

/// The views of a list of name pairs.
pub open spec fn pair_views(ps: Seq<(String, String)>) -> Seq<(Seq<char>, Seq<char>)> {
    Seq::new(ps.len(), |i: int| (ps[i].0@, ps[i].1@))
}

/// Skipping non-matching leading pairs leaves the lookup unchanged.
proof fn lemma_output_lookup_skip(pairs: Seq<(Seq<char>, Seq<char>)>, sig: Seq<char>, i: int)
    requires
        0 <= i <= pairs.len(),
        forall|j: int| 0 <= j < i ==> pairs[j].0 != sig,
    ensures
        output_lookup_in(pairs, sig) == output_lookup_in(
            pairs.subrange(i, pairs.len() as int),
            sig,
        ),
    decreases i,
{
    if i > 0 {
        lemma_output_lookup_skip(pairs, sig, i - 1);
        let a = pairs.subrange(i - 1, pairs.len() as int);
        assert(a[0] == pairs[i - 1]);
        assert(a.subrange(1, a.len() as int) =~= pairs.subrange(i, pairs.len() as int));
        assert(output_lookup_in(a, sig) == output_lookup_in(
            a.subrange(1, a.len() as int),
            sig,
        ));
    } else {
        assert(pairs.subrange(0, pairs.len() as int) =~= pairs);
    }
}

/// Finds the first output pair whose signal name is `sig` and returns the
/// defining dataset name.
fn find_output(pairs: &Vec<(String, String)>, sig: &String) -> (r: Option<String>)
    ensures
        match r {
            Some(d) => output_lookup_in(pair_views(pairs@), sig@) == Some(d@),
            None => output_lookup_in(pair_views(pairs@), sig@) is None,
        },
{
    let mut i: usize = 0;
    while i < pairs.len()
        invariant
            i <= pairs@.len(),
            forall|j: int| 0 <= j < i as int ==> pairs@[j].0@ != sig@,
        decreases pairs@.len() - i as int,
    {
        if pairs[i].0 == *sig {
            let d = pairs[i].1.clone();
            proof {
                let pv = pair_views(pairs@);
                lemma_output_lookup_skip(pv, sig@, i as int);
                let a = pv.subrange(i as int, pv.len() as int);
                assert(a[0] == pv[i as int]);
            }
            return Some(d);
        }
        i = i + 1;
    }
    proof {
        let pv = pair_views(pairs@);
        lemma_output_lookup_skip(pv, sig@, pv.len() as int);
        assert(pv.subrange(pv.len() as int, pv.len() as int) =~= Seq::<(Seq<char>, Seq<
            char,
        >)>::empty());
    }
    None
}

impl TaskScope {
    /// Resolves a variable reference made at `usage_scope`, walking from the
    /// innermost scope outward. Succeeds exactly when some enclosing scope
    /// defines the name (or, for signals, publishes it as a transform
    /// output); otherwise reports a specification error.
    pub fn resolve_scope(&self, var: &Variable, usage_scope: &[u32]) -> (r: Result<Resolved>)
        requires
            spec_get_child(*self, usage_scope@) is Some,
        ensures
            match r {
                Ok(res) => resolution_ok(*self, var.namespace, var.name@, usage_scope@, res),
                Err(e) => {
                    &&& error_kind(e) == ErrorKind::Specification
                    &&& forall|j: int|
                        0 <= j <= usage_scope@.len() ==> !hits_at(
                            *self,
                            var.namespace,
                            var.name@,
                            usage_scope@,
                            j,
                        )
                },
            },
    {
        let ghost root = *self;
        let ghost usage = usage_scope@;
        let mut k: usize = usage_scope.len();
        loop
            invariant
                k <= usage.len(),
                spec_get_child(root, usage) is Some,
                root == *self,
                usage == usage_scope@,
                forall|j: int| k < j <= usage.len() ==> !hits_at(root, var.namespace, var.name@, usage, j),
            decreases k + 1,
        {
            proof {
                lemma_prefix_valid(root, usage, k as int);
            }
            let prefix = scope_prefix(usage_scope, k);
            let frame = match self.get_child(prefix.as_slice()) {
                Ok(frame) => frame,
                Err(_) => {
                    proof {
                        assert(false);
                    }
                    return Err(VegaFusionError::internal("unreachable"));
                },
            };
            let defined = match var.namespace {
                VariableNamespace::Signal => find_name(&frame.signals, &var.name),
                VariableNamespace::Data => find_name(&frame.data, &var.name),
                VariableNamespace::Scale => find_name(&frame.scales, &var.name),
            };
            if defined {
                return Ok(Resolved { var: var.clone(), scope: prefix, output_var: None });
            }
            if matches!(var.namespace, VariableNamespace::Signal) {
                match find_output(&frame.output_var_defs, &var.name) {
                    Some(data_name) => {
                        proof {
                            assert(pair_views(frame.output_var_defs@) =~= output_pairs(*frame));
                            lemma_output_lookup_exists(output_pairs(*frame), var.name@);
                        }
                        return Ok(
                            Resolved {
                                var: Variable {
                                    namespace: VariableNamespace::Data,
                                    name: data_name,
                                },
                                scope: prefix,
                                output_var: Some(var.clone()),
                            },
                        );
                    },
                    None => {
                        proof {
                            assert(pair_views(frame.output_var_defs@) =~= output_pairs(*frame));
                            lemma_output_lookup_exists(output_pairs(*frame), var.name@);
                        }
                    },
                }
            }
            if k == 0 {
                return Err(VegaFusionError::specification("can not resolve variable"));
            }
            k = k - 1;
        }
    }
}

/// Resolution locality: when a definition hits at prefix `S` of the usage
/// scope `S ++ T` and no deeper prefix hits, resolution returns exactly the
/// scope `S` — this is what `resolve_scope`'s contract then forces of its
/// result.
pub proof fn lemma_resolution_locality(
    root: TaskScope,
    ns: VariableNamespace,
    name: Seq<char>,
    usage: Seq<u32>,
    k: int,
    res: Resolved,
)
    requires
        0 <= k <= usage.len(),
        hits_at(root, ns, name, usage, k),
        forall|j: int| k < j <= usage.len() ==> !hits_at(root, ns, name, usage, j),
        resolution_ok(root, ns, name, usage, res),
    ensures
        res.scope@ == usage.take(k),
        res.scope@.len() == k,
{
    let rk = res.scope@.len() as int;
    if rk < k {
        assert(hits_at(root, ns, name, usage, k));
        assert(false);
    }
    if rk > k {
        assert(hits_at(root, ns, name, usage, rk));
        assert(false);
    }
}

/// Shadowing: an inner definition wins over an outer one — whenever some
/// prefix deeper than `j` also hits, resolution never returns the outer
/// prefix `j`.
pub proof fn lemma_shadowing(
    root: TaskScope,
    ns: VariableNamespace,
    name: Seq<char>,
    usage: Seq<u32>,
    inner: int,
    res: Resolved,
)
    requires
        0 <= inner <= usage.len(),
        hits_at(root, ns, name, usage, inner),
        resolution_ok(root, ns, name, usage, res),
    ensures
        res.scope@.len() >= inner,
{
    let rk = res.scope@.len() as int;
    if rk < inner {
        assert(hits_at(root, ns, name, usage, inner));
        assert(false);
    }
}

} // verus!
