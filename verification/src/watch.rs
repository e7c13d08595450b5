//! Watches: the communication-plan entries that cross the server/client
//! boundary. A watch names a signal or dataset at a scope; a watch plan is
//! the two directions of the communication plan with their entries sorted
//! by namespace, name and scope, so that the plan's serialized form is
//! deterministic.

use vstd::prelude::*;
use vstd::multiset::Multiset;

use crate::errors::{ErrorKind, Result, VegaFusionError, error_kind};
use crate::variable::{scoped_var_id, ScopedVariable, Variable, VariableNamespace};

verus! {

/// The namespace of a watch: scales never cross the boundary.
#[derive(Debug, Clone, Copy, PartialEq, Eq, Structural)]
pub enum WatchNamespace {
    Signal,
    Data,
}

/// One watched scoped variable.
#[derive(Debug)]
pub struct Watch {
    pub namespace: WatchNamespace,
    pub name: String,
    pub scope: Vec<u32>,
}

/// The communication plan: the scoped variables shipped in each direction.
#[derive(Debug)]
pub struct CommPlan {
    pub server_to_client: Vec<ScopedVariable>,
    pub client_to_server: Vec<ScopedVariable>,
}

/// The watch plan: the communication plan as sorted watches.
#[derive(Debug)]
pub struct WatchPlan {
    pub server_to_client: Vec<Watch>,
    pub client_to_server: Vec<Watch>,
}

/// The sort rank of a watch namespace: signals before data.
pub open spec fn ns_rank(ns: WatchNamespace) -> int {
    match ns {
        WatchNamespace::Signal => 0,
        WatchNamespace::Data => 1,
    }
}

/// The variable namespace a watch namespace stands for.
pub open spec fn watch_var_ns(ns: WatchNamespace) -> VariableNamespace {
    match ns {
        WatchNamespace::Signal => VariableNamespace::Signal,
        WatchNamespace::Data => VariableNamespace::Data,
    }
}

/// Lexicographic order on integer sequences: the first differing entry
/// decides; a prefix comes before its extensions.
pub open spec fn lex_le(a: Seq<int>, b: Seq<int>) -> bool
    decreases a.len(),
{
    if a.len() == 0 {
        true
    } else if b.len() == 0 {
        false
    } else if a[0] == b[0] {
        lex_le(a.drop_first(), b.drop_first())
    } else {
        a[0] < b[0]
    }
}

/// A character sequence as code points.
pub open spec fn chars_ints(s: Seq<char>) -> Seq<int> {
    Seq::new(s.len(), |i: int| s[i] as int)
}

/// A scope path as integers.
pub open spec fn scope_ints(s: Seq<u32>) -> Seq<int> {
    Seq::new(s.len(), |i: int| s[i] as int)
}

/// The model of a watch: what the sort order reads.
pub open spec fn watch_model(w: Watch) -> (int, Seq<char>, Seq<u32>) {
    (ns_rank(w.namespace), w.name@, w.scope@)
}

/// The models of a list of watches, in order.
pub open spec fn watch_models(ws: Seq<Watch>) -> Seq<(int, Seq<char>, Seq<u32>)> {
    Seq::new(ws.len(), |i: int| watch_model(ws[i]))
}

/// The watch models a list of scoped variables denotes, in order.
pub open spec fn sv_watch_models(vs: Seq<ScopedVariable>) -> Seq<(int, Seq<char>, Seq<u32>)> {
    Seq::new(
        vs.len(),
        |i: int|
            (
                if vs[i].0.namespace is Signal {
                    0int
                } else {
                    1int
                },
                vs[i].0.name@,
                vs[i].1@,
            ),
    )
}

/// The plan's order on watches: by namespace, then name, then scope.
pub open spec fn watch_le(a: Watch, b: Watch) -> bool {
    if ns_rank(a.namespace) != ns_rank(b.namespace) {
        ns_rank(a.namespace) < ns_rank(b.namespace)
    } else if a.name@ != b.name@ {
        lex_le(chars_ints(a.name@), chars_ints(b.name@))
    } else {
        lex_le(scope_ints(a.scope@), scope_ints(b.scope@))
    }
}

/// The lexicographic order is total.
proof fn lemma_lex_total(a: Seq<int>, b: Seq<int>)
    ensures
        lex_le(a, b) || lex_le(b, a),
    decreases a.len(),
{
    if a.len() > 0 && b.len() > 0 && a[0] == b[0] {
        lemma_lex_total(a.drop_first(), b.drop_first());
    }
}

/// The lexicographic order is antisymmetric.
proof fn lemma_lex_antisym(a: Seq<int>, b: Seq<int>)
    requires
        lex_le(a, b),
        lex_le(b, a),
    ensures
        a == b,
    decreases a.len(),
{
    if a.len() == 0 {
        assert(b.len() == 0);
        assert(a =~= b);
    } else {
        assert(b.len() > 0);
        assert(a[0] == b[0]);
        lemma_lex_antisym(a.drop_first(), b.drop_first());
        assert(a.len() == b.len());
        assert forall|i: int| 0 <= i < a.len() implies a[i] == b[i] by {
            if i > 0 {
                assert(a.drop_first()[i - 1] == b.drop_first()[i - 1]);
            }
        }
        assert(a =~= b);
    }
}

/// The lexicographic order is transitive.
proof fn lemma_lex_trans(a: Seq<int>, b: Seq<int>, c: Seq<int>)
    requires
        lex_le(a, b),
        lex_le(b, c),
    ensures
        lex_le(a, c),
    decreases a.len(),
{
    if a.len() > 0 {
        assert(b.len() > 0);
        assert(c.len() > 0);
        if a[0] == b[0] && b[0] == c[0] {
            lemma_lex_trans(a.drop_first(), b.drop_first(), c.drop_first());
        }
    }
}

/// Equal code-point sequences come from equal character sequences.
proof fn lemma_chars_ints_inj(a: Seq<char>, b: Seq<char>)
    requires
        chars_ints(a) == chars_ints(b),
    ensures
        a == b,
{
    assert(chars_ints(a).len() == a.len());
    assert(chars_ints(b).len() == b.len());
    assert(a.len() == b.len());
    assert forall|i: int| 0 <= i < a.len() implies a[i] == b[i] by {
        assert(chars_ints(a)[i] == chars_ints(b)[i]);
        assert(chars_ints(a)[i] == a[i] as int);
        assert(chars_ints(b)[i] == b[i] as int);
    }
    assert(a =~= b);
}

/// The watch order is total.
proof fn lemma_watch_total(a: Watch, b: Watch)
    ensures
        watch_le(a, b) || watch_le(b, a),
{
    lemma_lex_total(chars_ints(a.name@), chars_ints(b.name@));
    lemma_lex_total(scope_ints(a.scope@), scope_ints(b.scope@));
}

/// The watch order is transitive.
proof fn lemma_watch_trans(a: Watch, b: Watch, c: Watch)
    requires
        watch_le(a, b),
        watch_le(b, c),
    ensures
        watch_le(a, c),
{
    let ra = ns_rank(a.namespace);
    let rb = ns_rank(b.namespace);
    let rc = ns_rank(c.namespace);
    if ra == rb && rb == rc {
        let na = chars_ints(a.name@);
        let nb = chars_ints(b.name@);
        let nc = chars_ints(c.name@);
        if a.name@ == b.name@ && b.name@ == c.name@ {
            lemma_lex_trans(
                scope_ints(a.scope@),
                scope_ints(b.scope@),
                scope_ints(c.scope@),
            );
        } else if a.name@ == b.name@ {
            assert(a.name@ != c.name@);
        } else if b.name@ == c.name@ {
            assert(a.name@ != c.name@);
        } else {
            lemma_lex_trans(na, nb, nc);
            if a.name@ == c.name@ {
                assert(na == nc);
                lemma_lex_antisym(na, nb);
                lemma_chars_ints_inj(a.name@, b.name@);
                assert(false);
            }
        }
    }
}

/// Skipping a common prefix leaves the lexicographic order unchanged.
proof fn lemma_lex_skip(x: Seq<int>, y: Seq<int>, i: int)
    requires
        0 <= i <= x.len(),
        i <= y.len(),
        forall|j: int| 0 <= j < i ==> x[j] == y[j],
    ensures
        lex_le(x, y) == lex_le(x.skip(i), y.skip(i)),
    decreases i,
{
    if i > 0 {
        assert(x.len() > 0 && y.len() > 0 && x[0] == y[0]);
        lemma_lex_skip(x.drop_first(), y.drop_first(), i - 1);
        assert(x.drop_first().skip(i - 1) =~= x.skip(i));
        assert(y.drop_first().skip(i - 1) =~= y.skip(i));
    } else {
        assert(x.skip(0) =~= x);
        assert(y.skip(0) =~= y);
    }
}

/// Compares two names in the plan's lexicographic order.
#[verifier::loop_isolation(false)]
fn name_le(a: &String, b: &String) -> (r: bool)
    ensures
        r == lex_le(chars_ints(a@), chars_ints(b@)),
{
    let x = a.as_str();
    let y = b.as_str();
    let xl = x.unicode_len();
    let yl = y.unicode_len();
    let mut i: usize = 0;
    while i < xl && i < yl
        invariant
            xl == a@.len(),
            yl == b@.len(),
            i <= xl && i <= yl,
            forall|j: int| 0 <= j < i as int ==> chars_ints(a@)[j] == chars_ints(b@)[j],
        decreases xl - i,
    {
        let ca = x.get_char(i);
        let cb = y.get_char(i);
        if ca != cb {
            proof {
                lemma_lex_skip(chars_ints(a@), chars_ints(b@), i as int);
                assert(chars_ints(a@).skip(i as int)[0] == a@[i as int] as int);
                assert(chars_ints(b@).skip(i as int)[0] == b@[i as int] as int);
            }
            return (ca as u32) < (cb as u32);
        }
        i = i + 1;
    }
    proof {
        lemma_lex_skip(chars_ints(a@), chars_ints(b@), i as int);
        if i as int == xl {
            assert(chars_ints(a@).skip(i as int) =~= Seq::<int>::empty());
        } else {
            assert(chars_ints(b@).skip(i as int) =~= Seq::<int>::empty());
            assert(chars_ints(a@).skip(i as int).len() > 0);
        }
    }
    xl <= yl
}

/// Compares two scope paths in the plan's lexicographic order.
#[verifier::loop_isolation(false)]
fn scope_le(a: &Vec<u32>, b: &Vec<u32>) -> (r: bool)
    ensures
        r == lex_le(scope_ints(a@), scope_ints(b@)),
{
    let mut i: usize = 0;
    while i < a.len() && i < b.len()
        invariant
            i <= a@.len() && i <= b@.len(),
            forall|j: int| 0 <= j < i as int ==> scope_ints(a@)[j] == scope_ints(b@)[j],
        decreases a@.len() - i,
    {
        if a[i] != b[i] {
            proof {
                lemma_lex_skip(scope_ints(a@), scope_ints(b@), i as int);
                assert(scope_ints(a@).skip(i as int)[0] == a@[i as int] as int);
                assert(scope_ints(b@).skip(i as int)[0] == b@[i as int] as int);
            }
            return a[i] < b[i];
        }
        i = i + 1;
    }
    proof {
        lemma_lex_skip(scope_ints(a@), scope_ints(b@), i as int);
        if i as int == a@.len() {
            assert(scope_ints(a@).skip(i as int) =~= Seq::<int>::empty());
        } else {
            assert(scope_ints(b@).skip(i as int) =~= Seq::<int>::empty());
            assert(scope_ints(a@).skip(i as int).len() > 0);
        }
    }
    a.len() <= b.len()
}

/// Compares two watches in the plan's order.
fn watch_le_exec(a: &Watch, b: &Watch) -> (r: bool)
    ensures
        r == watch_le(*a, *b),
{
    let ra: u8 = match a.namespace {
        WatchNamespace::Signal => 0,
        WatchNamespace::Data => 1,
    };
    let rb: u8 = match b.namespace {
        WatchNamespace::Signal => 0,
        WatchNamespace::Data => 1,
    };
    if ra != rb {
        return ra < rb;
    }
    if a.name != b.name {
        proof {
            if a.name@ == b.name@ {
                assert(false);
            }
        }
        return name_le(&a.name, &b.name);
    }
    proof {
        assert(a.name@ =~= b.name@);
    }
    scope_le(&a.scope, &b.scope)
}

/// Inserting an element anywhere adds exactly it to the multiset.
proof fn lemma_insert_to_multiset<A>(s: Seq<A>, i: int, a: A)
    requires
        0 <= i <= s.len(),
    ensures
        s.insert(i, a).to_multiset() =~= s.to_multiset().insert(a),
{
    broadcast use vstd::seq_lib::group_to_multiset_ensures;

    let t = s.subrange(0, i);
    let u = s.subrange(i, s.len() as int);
    assert(s.insert(i, a) == t.push(a) + u);
    vstd::seq_lib::lemma_multiset_commutative(t.push(a), u);
    vstd::seq_lib::lemma_multiset_commutative(t, u);
    assert(t + u =~= s);
    assert(t.push(a).to_multiset() =~= t.to_multiset().insert(a));
}

/// Sorts watches by namespace, name and scope, ascending: the result is
/// ordered and holds exactly the given watches.
#[verifier::loop_isolation(false)]
#[verifier::rlimit(100)]
#[verifier::spinoff_prover]
pub fn sort_watches(input: Vec<Watch>) -> (r: Vec<Watch>)
    ensures
        r@.len() == input@.len(),
        forall|i: int, j: int| 0 <= i < j < r@.len() ==> watch_le(#[trigger] r@[i], #[trigger] r@[j]),
        watch_models(r@).to_multiset() == watch_models(input@).to_multiset(),
{
    proof {
        broadcast use vstd::seq_lib::group_to_multiset_ensures;

    }
    let ghost goal = watch_models(input@).to_multiset();
    let mut out: Vec<Watch> = Vec::new();
    let mut rest = input;
    proof {
        assert(watch_models(out@).to_multiset().add(watch_models(rest@).to_multiset())
            =~= goal);
    }
    while rest.len() > 0
        invariant
            out@.len() + rest@.len() == input@.len(),
            forall|i: int, j: int|
                0 <= i < j < out@.len() ==> watch_le(#[trigger] out@[i], #[trigger] out@[j]),
            watch_models(out@).to_multiset().add(watch_models(rest@).to_multiset()) == goal,
            goal == watch_models(input@).to_multiset(),
        decreases rest@.len(),
    {
        let ghost rpre = rest@;
        let w = rest.remove(0);
        proof {
            broadcast use vstd::seq_lib::group_to_multiset_ensures;

            assert(watch_models(rest@) =~= watch_models(rpre).remove(0));
            assert(watch_models(rpre)[0] == watch_model(w));
            assert(watch_models(rest@).to_multiset() =~= watch_models(rpre).to_multiset()
                .remove(watch_model(w)));
        }
        let mut idx: usize = 0;
        while idx < out.len() && watch_le_exec(&out[idx], &w)
            invariant
                idx <= out@.len(),
                forall|j: int| 0 <= j < idx as int ==> watch_le(#[trigger] out@[j], w),
            decreases out@.len() - idx,
        {
            idx = idx + 1;
        }
        let ghost opre = out@;
        out.insert(idx, w);
        proof {
            broadcast use vstd::seq_lib::group_to_multiset_ensures;

            opre.insert_ensures(idx as int, w);
            assert(watch_models(out@) =~= watch_models(opre).insert(idx as int, watch_model(w)));
            lemma_insert_to_multiset(watch_models(opre), idx as int, watch_model(w));
            assert(watch_models(out@).to_multiset() =~= watch_models(opre).to_multiset().insert(
                watch_model(w),
            ));
            assert(watch_models(out@).to_multiset().add(watch_models(rest@).to_multiset())
                =~= goal);
            if (idx as int) < opre.len() {
                lemma_watch_total(opre[idx as int], w);
                assert(watch_le(w, opre[idx as int]));
            }
            assert forall|i: int, j: int| 0 <= i < j < out@.len() implies watch_le(
                #[trigger] out@[i],
                #[trigger] out@[j],
            ) by {
                if j < idx as int {
                } else if i < idx as int && j == idx as int {
                    assert(watch_le(opre[i], w));
                } else if i < idx as int && j > idx as int {
                    assert(out@[j] == opre[j - 1]);
                } else if i == idx as int && j > idx as int {
                    assert(out@[j] == opre[j - 1]);
                    if j - 1 > idx as int {
                        lemma_watch_trans(w, opre[idx as int], opre[j - 1]);
                    }
                } else {
                    assert(out@[i] == opre[i - 1] && out@[j] == opre[j - 1]);
                }
            }
        }
    }
    proof {
        assert(watch_models(rest@).to_multiset() =~= Multiset::<(int, Seq<char>, Seq<
            u32,
        >)>::empty());
        assert(watch_models(out@).to_multiset() =~= goal);
    }
    out
}

impl WatchNamespace {
    /// The watch namespace of a variable namespace; scales are not
    /// watchable and report an internal error.
    pub fn try_from(value: VariableNamespace) -> (r: Result<WatchNamespace>)
        ensures
            r is Ok <==> !(value is Scale),
            r matches Ok(w) ==> watch_var_ns(w) == value,
            r matches Err(e) ==> error_kind(e) == ErrorKind::Internal,
    {
        match value {
            VariableNamespace::Signal => Ok(WatchNamespace::Signal),
            VariableNamespace::Data => Ok(WatchNamespace::Data),
            VariableNamespace::Scale => Err(
                VegaFusionError::internal("Scale namespace not supported"),
            ),
        }
    }
}

impl Watch {
    /// The scoped variable this watch names.
    pub fn to_scoped_variable(&self) -> (r: ScopedVariable)
        ensures
            scoped_var_id(r) == (watch_var_ns(self.namespace), self.name@, self.scope@),
    {
        let var = Variable {
            namespace: match self.namespace {
                WatchNamespace::Signal => VariableNamespace::Signal,
                WatchNamespace::Data => VariableNamespace::Data,
            },
            name: self.name.clone(),
        };
        (var, crate::task::slice_to_vec(self.scope.as_slice()))
    }

    /// The watch a scoped variable becomes; scale variables are not
    /// watchable and report an internal error.
    pub fn try_from(value: ScopedVariable) -> (r: Result<Watch>)
        ensures
            r is Ok <==> !(value.0.namespace is Scale),
            r matches Ok(w) ==> watch_var_ns(w.namespace) == value.0.namespace && w.name@
                == value.0.name@ && w.scope@ == value.1@,
            r matches Err(e) ==> error_kind(e) == ErrorKind::Internal,
    {
        let ns = match WatchNamespace::try_from(value.0.namespace) {
            Ok(ns) => ns,
            Err(e) => {
                return Err(e);
            },
        };
        Ok(Watch { namespace: ns, name: value.0.name, scope: value.1 })
    }
}

/// Converts scoped variables to watches, entry for entry; fails, with an
/// internal error, exactly when some entry is a scale.
#[verifier::loop_isolation(false)]
fn convert_watches(input: Vec<ScopedVariable>) -> (r: Result<Vec<Watch>>)
    ensures
        r is Ok <==> (forall|i: int|
            0 <= i < input@.len() ==> !((#[trigger] input@[i]).0.namespace is Scale)),
        r matches Ok(ws) ==> watch_models(ws@) == sv_watch_models(input@),
        r matches Err(e) ==> error_kind(e) == ErrorKind::Internal,
{
    let mut out: Vec<Watch> = Vec::new();
    let mut rest = input;
    let ghost full = rest@;
    while rest.len() > 0
        invariant
            out@.len() + rest@.len() == full.len(),
            forall|j: int|
                0 <= j < rest@.len() ==> #[trigger] rest@[j] == full[out@.len() + j],
            forall|j: int|
                0 <= j < out@.len() ==> !((#[trigger] full[j]).0.namespace is Scale),
            watch_models(out@) == sv_watch_models(full.take(out@.len() as int)),
        decreases rest@.len(),
    {
        let ghost n0 = out@.len() as int;
        let ghost rpre = rest@;
        let sv = rest.remove(0);
        proof {
            assert(sv == full[n0]);
            assert forall|j: int| 0 <= j < rest@.len() implies #[trigger] rest@[j] == full[n0 + 1
                + j] by {
                assert(rest@[j] == rpre[j + 1]);
            }
        }
        let w = match Watch::try_from(sv) {
            Ok(w) => w,
            Err(e) => {
                return Err(e);
            },
        };
        let ghost opre = out@;
        out.push(w);
        proof {
            assert(ns_rank(w.namespace) == (if full[n0].0.namespace is Signal {
                0int
            } else {
                1int
            }));
            let rhs = sv_watch_models(full.take(n0 + 1));
            assert(watch_models(out@).len() == rhs.len());
            assert forall|j: int| 0 <= j < watch_models(out@).len() implies #[trigger] watch_models(
                out@,
            )[j] == rhs[j] by {
                assert(rhs[j] == (
                    if full.take(n0 + 1)[j].0.namespace is Signal {
                        0int
                    } else {
                        1int
                    },
                    full.take(n0 + 1)[j].0.name@,
                    full.take(n0 + 1)[j].1@,
                ));
                assert(full.take(n0 + 1)[j] == full[j]);
                if j < n0 {
                    assert(out@[j] == opre[j]);
                    assert(watch_models(opre)[j] == watch_model(opre[j]));
                    assert(sv_watch_models(full.take(n0))[j] == (
                        if full.take(n0)[j].0.namespace is Signal {
                            0int
                        } else {
                            1int
                        },
                        full.take(n0)[j].0.name@,
                        full.take(n0)[j].1@,
                    ));
                    assert(full.take(n0)[j] == full[j]);
                } else {
                    assert(out@[j] == w);
                }
            }
            assert(watch_models(out@) =~= rhs);
        }
    }
    proof {
        assert(full.take(full.len() as int) =~= full);
    }
    Ok(out)
}

impl WatchPlan {
    /// The watch plan of a communication plan: each direction converted to
    /// watches and sorted by namespace, name and scope. Fails, with an
    /// internal error, exactly when a scale variable appears in the plan.
    pub fn try_from(value: CommPlan) -> (r: Result<WatchPlan>)
        ensures
            r is Ok <==> ((forall|i: int|
                0 <= i < value.server_to_client@.len() ==> !((
                #[trigger] value.server_to_client@[i]).0.namespace is Scale)) && (forall|i: int|
                0 <= i < value.client_to_server@.len() ==> !((
                #[trigger] value.client_to_server@[i]).0.namespace is Scale))),
            r matches Ok(p) ==> {
                &&& forall|i: int, j: int|
                    0 <= i < j < p.server_to_client@.len() ==> watch_le(
                        #[trigger] p.server_to_client@[i],
                        #[trigger] p.server_to_client@[j],
                    )
                &&& forall|i: int, j: int|
                    0 <= i < j < p.client_to_server@.len() ==> watch_le(
                        #[trigger] p.client_to_server@[i],
                        #[trigger] p.client_to_server@[j],
                    )
                &&& watch_models(p.server_to_client@).to_multiset() == sv_watch_models(
                    value.server_to_client@,
                ).to_multiset()
                &&& watch_models(p.client_to_server@).to_multiset() == sv_watch_models(
                    value.client_to_server@,
                ).to_multiset()
            },
            r matches Err(e) ==> error_kind(e) == ErrorKind::Internal,
    {
        let CommPlan { server_to_client, client_to_server } = value;
        let s2c = match convert_watches(server_to_client) {
            Ok(ws) => ws,
            Err(e) => {
                return Err(e);
            },
        };
        let c2s = match convert_watches(client_to_server) {
            Ok(ws) => ws,
            Err(e) => {
                return Err(e);
            },
        };
        Ok(
            WatchPlan {
                server_to_client: sort_watches(s2c),
                client_to_server: sort_watches(c2s),
            },
        )
    }
}

} // verus!
