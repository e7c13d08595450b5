//! The chart walker: the per-node passes that a depth-first visit of a
//! chart specification runs on its signals, datasets and scales. Each pass
//! here takes one spec node and the scope path it stands at, resolves every
//! reference through the scope tree, and reports the scoped variables the
//! node reads or may update, or builds the task the node becomes.

use vstd::prelude::*;

use crate::errors::{ErrorKind, Result, VegaFusionError, error_kind};
use crate::expression::{dedup_seq, expr_update_vars, expr_vars, Expression, IvModel, UvModel};
use crate::scope::{spec_get_child, spec_resolve, TaskScope};
use crate::task::{input_var_model, input_var_models, DataSourceTask, DataUrlTask, DataValuesTask, Task, task_wf, TaskKind, UrlSpec};
use crate::transforms::{pipeline_specs, pipeline_wf, tls_output_signals, transforms_match, TransformPipeline, TransformSpec};
use crate::values::{clone_scalar, clone_table, scalar_model, table_model, ScalarValue, TableModel, TaskValue, VegaFusionTable};
use crate::variable::{scoped_var_id, var_id, ScopedVariable, Variable, VariableNamespace};

verus! {

/// One entry of a signal's `on` clause: the update expression and the
/// signal expressions of the events that trigger it.
#[derive(Debug)]
pub struct SignalOnSpec {
    pub update: Expression,
    pub events: Vec<Expression>,
}

/// A signal definition: its name, optional initial value, optional `init`
/// and `update` expressions, and its `on` clauses.
#[derive(Debug)]
pub struct SignalSpec {
    pub name: String,
    pub value: Option<ScalarValue>,
    pub init: Option<Expression>,
    pub update: Option<Expression>,
    pub on: Vec<SignalOnSpec>,
}

/// A dataset definition: its name, at most one of a URL source, a named
/// source dataset or inline values, whether it carries an `on` trigger
/// clause, and its transform pipeline.
#[derive(Debug)]
pub struct DataSpec {
    pub name: String,
    pub url: Option<UrlSpec>,
    pub source: Option<String>,
    pub values: Option<VegaFusionTable>,
    pub has_on: bool,
    pub transform: Vec<TransformSpec>,
}

/// One element of a scale's domain, range or bins array: a signal
/// expression, or a plain literal the walker does not read.
#[derive(Debug)]
pub enum ScaleArrayElementSpec {
    Signal(Expression),
    Literal,
}

/// A scale's domain: a dataset reference, a signal expression, an array of
/// elements, or another form without references.
#[derive(Debug)]
pub enum ScaleDomainSpec {
    Reference(String),
    Signal(Expression),
    Array(Vec<ScaleArrayElementSpec>),
    Other,
}

/// A scale's range, in the same forms as the domain.
#[derive(Debug)]
pub enum ScaleRangeSpec {
    Reference(String),
    Signal(Expression),
    Array(Vec<ScaleArrayElementSpec>),
    Other,
}

/// A scale's bins: a signal expression, an array of elements, or another
/// form without references.
#[derive(Debug)]
pub enum ScaleBinsSpec {
    Signal(Expression),
    Array(Vec<ScaleArrayElementSpec>),
    Other,
}

/// A scale definition: its name and the optional domain, range and bins.
#[derive(Debug)]
pub struct ScaleSpec {
    pub name: String,
    pub domain: Option<ScaleDomainSpec>,
    pub range: Option<ScaleRangeSpec>,
    pub bins: Option<ScaleBinsSpec>,
}

/// The scoped-variable identities of a list, in order.
pub open spec fn sv_ids(vs: Seq<ScopedVariable>) -> Seq<(VariableNamespace, Seq<char>, Seq<u32>)> {
    Seq::new(vs.len(), |i: int| scoped_var_id(vs[i]))
}

/// The expressions an optional expression field contributes.
pub open spec fn opt_exprs(o: Option<Expression>) -> Seq<Expression> {
    match o {
        None => Seq::empty(),
        Some(e) => seq![e],
    }
}

/// The expressions of a signal's `on` clauses, in order: each entry's
/// update expression, then its event signal expressions.
pub open spec fn on_exprs(on: Seq<SignalOnSpec>) -> Seq<Expression>
    decreases on.len(),
{
    if on.len() == 0 {
        Seq::empty()
    } else {
        on_exprs(on.drop_last()) + seq![on.last().update] + on.last().events@
    }
}

/// Every expression a signal definition contains, in traversal order:
/// `init`, `update`, then the `on` clauses.
pub open spec fn signal_exprs(s: SignalSpec) -> Seq<Expression> {
    opt_exprs(s.init) + opt_exprs(s.update) + on_exprs(s.on@)
}

/// The expressions a list of references points at, dereferenced.
pub open spec fn expr_refs(es: Seq<&Expression>) -> Seq<Expression> {
    Seq::new(es.len(), |i: int| *es[i])
}

/// The variables a list of expressions reads, expression by expression,
/// first occurrence within each expression.
pub open spec fn exprs_read_vars(es: Seq<Expression>) -> Seq<IvModel>
    decreases es.len(),
{
    if es.len() == 0 {
        Seq::empty()
    } else {
        exprs_read_vars(es.drop_last()) + dedup_seq(expr_vars(es.last()))
    }
}

/// The variables a list of expressions updates, expression by expression,
/// first occurrence within each expression.
pub open spec fn exprs_written_vars(es: Seq<Expression>) -> Seq<UvModel>
    decreases es.len(),
{
    if es.len() == 0 {
        Seq::empty()
    } else {
        exprs_written_vars(es.drop_last()) + dedup_seq(expr_update_vars(es.last()))
    }
}

/// Snoc form of `exprs_read_vars`.
pub proof fn lemma_reads_snoc(es: Seq<Expression>, x: Expression)
    ensures
        exprs_read_vars(es.push(x)) == exprs_read_vars(es) + dedup_seq(expr_vars(x)),
{
    assert(es.push(x).drop_last() =~= es);
    assert(es.push(x).last() == x);
}

/// Concatenation form of `exprs_read_vars`.
pub proof fn lemma_reads_concat(a: Seq<Expression>, b: Seq<Expression>)
    ensures
        exprs_read_vars(a + b) == exprs_read_vars(a) + exprs_read_vars(b),
    decreases b.len(),
{
    if b.len() == 0 {
        assert(a + b =~= a);
        assert(exprs_read_vars(a) + exprs_read_vars(b) =~= exprs_read_vars(a));
    } else {
        lemma_reads_concat(a, b.drop_last());
        assert((a + b).drop_last() =~= a + b.drop_last());
        assert((a + b).last() == b.last());
        assert(exprs_read_vars(a) + exprs_read_vars(b.drop_last()) + dedup_seq(
            expr_vars(b.last()),
        ) =~= exprs_read_vars(a) + (exprs_read_vars(b.drop_last()) + dedup_seq(
            expr_vars(b.last()),
        )));
    }
}

/// Snoc form of `exprs_written_vars`.
pub proof fn lemma_writes_snoc(es: Seq<Expression>, x: Expression)
    ensures
        exprs_written_vars(es.push(x)) == exprs_written_vars(es) + dedup_seq(
            expr_update_vars(x),
        ),
{
    assert(es.push(x).drop_last() =~= es);
    assert(es.push(x).last() == x);
}

/// Concatenation form of `exprs_written_vars`.
pub proof fn lemma_writes_concat(a: Seq<Expression>, b: Seq<Expression>)
    ensures
        exprs_written_vars(a + b) == exprs_written_vars(a) + exprs_written_vars(b),
    decreases b.len(),
{
    if b.len() == 0 {
        assert(a + b =~= a);
        assert(exprs_written_vars(a) + exprs_written_vars(b) =~= exprs_written_vars(a));
    } else {
        lemma_writes_concat(a, b.drop_last());
        assert((a + b).drop_last() =~= a + b.drop_last());
        assert((a + b).last() == b.last());
        assert(exprs_written_vars(a) + exprs_written_vars(b.drop_last()) + dedup_seq(
            expr_update_vars(b.last()),
        ) =~= exprs_written_vars(a) + (exprs_written_vars(b.drop_last()) + dedup_seq(
            expr_update_vars(b.last()),
        )));
    }
}

/// The scoped variable recorded for a read of `m` at `usage`: the requested
/// variable, at the scope its resolution defines it.
pub open spec fn read_entry(root: TaskScope, m: IvModel, usage: Seq<u32>) -> (
    VariableNamespace,
    Seq<char>,
    Seq<u32>,
) {
    (m.0, m.1, (spec_resolve(root, m.0, m.1, usage)->0).1)
}

/// The scoped variables recorded for a list of reads.
pub open spec fn read_entries(root: TaskScope, ms: Seq<IvModel>, usage: Seq<u32>) -> Seq<
    (VariableNamespace, Seq<char>, Seq<u32>),
> {
    Seq::new(ms.len(), |k: int| read_entry(root, ms[k], usage))
}

/// Whether every read in the list resolves at `usage`.
pub open spec fn reads_resolve(root: TaskScope, ms: Seq<IvModel>, usage: Seq<u32>) -> bool {
    forall|k: int|
        0 <= k < ms.len() ==> spec_resolve(root, (#[trigger] ms[k]).0, ms[k].1, usage) is Some
}

/// The scoped variable recorded for an update of `m` at `usage`: the
/// variable resolution lands on, at its defining scope.
pub open spec fn write_entry(root: TaskScope, m: UvModel, usage: Seq<u32>) -> (
    VariableNamespace,
    Seq<char>,
    Seq<u32>,
) {
    let res = spec_resolve(root, m.0, m.1, usage)->0;
    (res.0.0, res.0.1, res.1)
}

/// The scoped variables recorded for a list of updates.
pub open spec fn write_entries(root: TaskScope, ms: Seq<UvModel>, usage: Seq<u32>) -> Seq<
    (VariableNamespace, Seq<char>, Seq<u32>),
> {
    Seq::new(ms.len(), |k: int| write_entry(root, ms[k], usage))
}

/// Whether every update in the list resolves at `usage`.
pub open spec fn writes_resolve(root: TaskScope, ms: Seq<UvModel>, usage: Seq<u32>) -> bool {
    forall|k: int|
        0 <= k < ms.len() ==> spec_resolve(root, (#[trigger] ms[k]).0, ms[k].1, usage) is Some
}

/// Collects every expression of a signal definition, in traversal order.
#[verifier::loop_isolation(false)]
fn collect_signal_exprs(s: &SignalSpec) -> (r: Vec<&Expression>)
    ensures
        expr_refs(r@) == signal_exprs(*s),
{
    let mut out: Vec<&Expression> = Vec::new();
    if let Some(e) = &s.init {
        out.push(e);
    }
    if let Some(e) = &s.update {
        out.push(e);
    }
    proof {
        assert(expr_refs(out@) =~= opt_exprs(s.init) + opt_exprs(s.update) + on_exprs(
            s.on@.take(0),
        ));
    }
    let mut i: usize = 0;
    while i < s.on.len()
        invariant
            i <= s.on@.len(),
            expr_refs(out@) == opt_exprs(s.init) + opt_exprs(s.update) + on_exprs(
                s.on@.take(i as int),
            ),
        decreases s.on@.len() - i as int,
    {
        let el = &s.on[i];
        out.push(&el.update);
        let mut j: usize = 0;
        while j < el.events.len()
            invariant
                i < s.on@.len(),
                el == s.on@[i as int],
                j <= el.events@.len(),
                expr_refs(out@) == opt_exprs(s.init) + opt_exprs(s.update) + on_exprs(
                    s.on@.take(i as int),
                ) + seq![s.on@[i as int].update] + el.events@.take(j as int),
            decreases el.events@.len() - j as int,
        {
            let ghost opre = out@;
            out.push(&el.events[j]);
            proof {
                let rhs = opt_exprs(s.init) + opt_exprs(s.update) + on_exprs(
                    s.on@.take(i as int),
                ) + seq![s.on@[i as int].update] + el.events@.take(j as int + 1);
                assert(out@[out@.len() - 1] == el.events@[j as int]);
                assert(el.events@.take(j as int + 1) =~= el.events@.take(j as int).push(
                    el.events@[j as int],
                ));
                assert(expr_refs(out@).len() == rhs.len());
                assert forall|w: int| 0 <= w < expr_refs(out@).len() implies #[trigger] expr_refs(
                    out@,
                )[w] == rhs[w] by {
                    if w < opre.len() {
                        assert(out@[w] == opre[w]);
                        assert(expr_refs(opre)[w] == *opre[w]);
                    } else {
                        assert(expr_refs(out@)[w] == el.events@[j as int]);
                    }
                }
                assert(expr_refs(out@) =~= rhs);
            }
            j = j + 1;
        }
        proof {
            assert(el.events@.take(el.events@.len() as int) =~= el.events@);
            assert(s.on@.take(i as int + 1).drop_last() =~= s.on@.take(i as int));
            assert(s.on@.take(i as int + 1).last() == s.on@[i as int]);
            assert(on_exprs(s.on@.take(i as int + 1)) == on_exprs(s.on@.take(i as int)) + seq![
                s.on@[i as int].update,
            ] + s.on@[i as int].events@);
            assert(expr_refs(out@) =~= opt_exprs(s.init) + opt_exprs(s.update) + on_exprs(
                s.on@.take(i as int + 1),
            ));
        }
        i = i + 1;
    }
    proof {
        assert(s.on@.take(s.on@.len() as int) =~= s.on@);
    }
    out
}

/// Resolves every variable read by a list of expressions and returns, in
/// traversal order, the scoped variable each read denotes: the requested
/// variable at its resolved defining scope. Fails, with a specification
/// error, exactly when some read does not resolve.
#[verifier::loop_isolation(false)]
#[verifier::rlimit(100)]
#[verifier::spinoff_prover]
fn resolve_reads(ts: &TaskScope, exprs: &Vec<&Expression>, scope: &[u32]) -> (r: Result<
    Vec<ScopedVariable>,
>)
    requires
        spec_get_child(*ts, scope@) is Some,
    ensures
        r is Ok <==> reads_resolve(*ts, exprs_read_vars(expr_refs(exprs@)), scope@),
        r matches Ok(v) ==> sv_ids(v@) == read_entries(
            *ts,
            exprs_read_vars(expr_refs(exprs@)),
            scope@,
        ),
        r matches Err(e) ==> error_kind(e) == ErrorKind::Specification,
{
    let mut out: Vec<ScopedVariable> = Vec::new();
    let mut i: usize = 0;
    while i < exprs.len()
        invariant
            i <= exprs@.len(),
            reads_resolve(*ts, exprs_read_vars(expr_refs(exprs@.take(i as int))), scope@),
            sv_ids(out@) == read_entries(
                *ts,
                exprs_read_vars(expr_refs(exprs@.take(i as int))),
                scope@,
            ),
        decreases exprs@.len() - i as int,
    {
        let e: &Expression = exprs[i];
        let ivs = e.input_vars();
        let ghost ms = dedup_seq(expr_vars(*e));
        let ghost pre = exprs_read_vars(expr_refs(exprs@.take(i as int)));
        proof {
            assert(input_var_models(ivs@) == ms);
        }
        let mut v: usize = 0;
        while v < ivs.len()
            invariant
                i < exprs@.len(),
                e == exprs@[i as int],
                input_var_models(ivs@) == ms,
                ms == dedup_seq(expr_vars(*e)),
                pre == exprs_read_vars(expr_refs(exprs@.take(i as int))),
                v <= ivs@.len(),
                forall|k: int|
                    0 <= k < v as int ==> spec_resolve(
                        *ts,
                        (#[trigger] ms[k]).0,
                        ms[k].1,
                        scope@,
                    ) is Some,
                sv_ids(out@) == read_entries(*ts, pre + ms.take(v as int), scope@),
            decreases ivs@.len() - v as int,
        {
            let ghost m = ms[v as int];
            proof {
                assert(m == input_var_model(ivs@[v as int]));
            }
            match ts.resolve_scope(&ivs[v].var, scope) {
                Ok(rr) => {
                    proof {
                        assert(m.0 == ivs@[v as int].var.namespace && m.1
                            == ivs@[v as int].var.name@);
                        crate::scope::lemma_resolution_model(*ts, m.0, m.1, scope@, rr);
                    }
                    let var = ivs[v].var.clone();
                    out.push((var, rr.scope));
                    proof {
                        let s2 = pre + ms.take(v as int + 1);
                        assert(s2 =~= (pre + ms.take(v as int)).push(m));
                        assert(scoped_var_id(out@[out@.len() - 1]) == read_entry(
                            *ts,
                            m,
                            scope@,
                        ));
                        assert forall|j: int| 0 <= j < s2.len() implies #[trigger] sv_ids(
                            out@,
                        )[j] == read_entries(*ts, s2, scope@)[j] by {
                            if j < s2.len() - 1 {
                                assert(sv_ids(out@)[j] == read_entries(
                                    *ts,
                                    pre + ms.take(v as int),
                                    scope@,
                                )[j]);
                            }
                        }
                        assert(sv_ids(out@) =~= read_entries(*ts, s2, scope@));
                    }
                },
                Err(err) => {
                    proof {
                        crate::scope::lemma_resolution_failure(*ts, m.0, m.1, scope@);
                        let a1 = expr_refs(exprs@.take(i as int + 1));
                        let b1 = expr_refs(exprs@.skip(i as int + 1));
                        assert(expr_refs(exprs@) =~= a1 + b1);
                        lemma_reads_concat(a1, b1);
                        assert(a1 =~= expr_refs(exprs@.take(i as int)).push(*exprs@[i as int]));
                        lemma_reads_snoc(expr_refs(exprs@.take(i as int)), *exprs@[i as int]);
                        assert(exprs_read_vars(a1) == pre + ms);
                        assert(exprs_read_vars(expr_refs(exprs@))[pre.len() + v as int] == m);
                        assert(!reads_resolve(*ts, exprs_read_vars(expr_refs(exprs@)), scope@));
                    }
                    return Err(err);
                },
            }
            v = v + 1;
        }
        proof {
            assert(ms.take(ms.len() as int) =~= ms);
            assert(expr_refs(exprs@.take(i as int + 1)) =~= expr_refs(exprs@.take(i as int)).push(
                *exprs@[i as int],
            ));
            lemma_reads_snoc(expr_refs(exprs@.take(i as int)), *exprs@[i as int]);
        }
        i = i + 1;
    }
    proof {
        assert(exprs@.take(exprs@.len() as int) =~= exprs@);
    }
    Ok(out)
}

/// Resolves every variable updated by a list of expressions and returns, in
/// traversal order, the scoped variable each update lands on: the resolved
/// variable at its defining scope. Fails, with a specification error,
/// exactly when some update target does not resolve.
#[verifier::loop_isolation(false)]
#[verifier::rlimit(100)]
#[verifier::spinoff_prover]
fn resolve_writes(ts: &TaskScope, exprs: &Vec<&Expression>, scope: &[u32]) -> (r: Result<
    Vec<ScopedVariable>,
>)
    requires
        spec_get_child(*ts, scope@) is Some,
    ensures
        r is Ok <==> writes_resolve(*ts, exprs_written_vars(expr_refs(exprs@)), scope@),
        r matches Ok(v) ==> sv_ids(v@) == write_entries(
            *ts,
            exprs_written_vars(expr_refs(exprs@)),
            scope@,
        ),
        r matches Err(e) ==> error_kind(e) == ErrorKind::Specification,
{
    let mut out: Vec<ScopedVariable> = Vec::new();
    let mut i: usize = 0;
    while i < exprs.len()
        invariant
            i <= exprs@.len(),
            writes_resolve(*ts, exprs_written_vars(expr_refs(exprs@.take(i as int))), scope@),
            sv_ids(out@) == write_entries(
                *ts,
                exprs_written_vars(expr_refs(exprs@.take(i as int))),
                scope@,
            ),
        decreases exprs@.len() - i as int,
    {
        let e: &Expression = exprs[i];
        let uvs = e.update_vars();
        let ghost ms = dedup_seq(expr_update_vars(*e));
        let ghost pre = exprs_written_vars(expr_refs(exprs@.take(i as int)));
        proof {
            assert(crate::expression::var_models(uvs@) == ms);
        }
        let mut v: usize = 0;
        while v < uvs.len()
            invariant
                i < exprs@.len(),
                e == exprs@[i as int],
                crate::expression::var_models(uvs@) == ms,
                ms == dedup_seq(expr_update_vars(*e)),
                pre == exprs_written_vars(expr_refs(exprs@.take(i as int))),
                v <= uvs@.len(),
                forall|k: int|
                    0 <= k < v as int ==> spec_resolve(
                        *ts,
                        (#[trigger] ms[k]).0,
                        ms[k].1,
                        scope@,
                    ) is Some,
                sv_ids(out@) == write_entries(*ts, pre + ms.take(v as int), scope@),
            decreases uvs@.len() - v as int,
        {
            let ghost m = ms[v as int];
            proof {
                assert(m == crate::expression::var_models(uvs@)[v as int]);
            }
            match ts.resolve_scope(&uvs[v], scope) {
                Ok(rr) => {
                    proof {
                        assert(m.0 == uvs@[v as int].namespace && m.1 == uvs@[v as int].name@);
                        crate::scope::lemma_resolution_model(*ts, m.0, m.1, scope@, rr);
                    }
                    out.push((rr.var, rr.scope));
                    proof {
                        let s2 = pre + ms.take(v as int + 1);
                        assert(s2 =~= (pre + ms.take(v as int)).push(m));
                        assert(scoped_var_id(out@[out@.len() - 1]) == write_entry(
                            *ts,
                            m,
                            scope@,
                        ));
                        assert forall|j: int| 0 <= j < s2.len() implies #[trigger] sv_ids(
                            out@,
                        )[j] == write_entries(*ts, s2, scope@)[j] by {
                            if j < s2.len() - 1 {
                                assert(sv_ids(out@)[j] == write_entries(
                                    *ts,
                                    pre + ms.take(v as int),
                                    scope@,
                                )[j]);
                            }
                        }
                        assert(sv_ids(out@) =~= write_entries(*ts, s2, scope@));
                    }
                },
                Err(err) => {
                    proof {
                        crate::scope::lemma_resolution_failure(*ts, m.0, m.1, scope@);
                        let a1 = expr_refs(exprs@.take(i as int + 1));
                        let b1 = expr_refs(exprs@.skip(i as int + 1));
                        assert(expr_refs(exprs@) =~= a1 + b1);
                        lemma_writes_concat(a1, b1);
                        assert(a1 =~= expr_refs(exprs@.take(i as int)).push(*exprs@[i as int]));
                        lemma_writes_snoc(expr_refs(exprs@.take(i as int)), *exprs@[i as int]);
                        assert(exprs_written_vars(a1) == pre + ms);
                        assert(exprs_written_vars(expr_refs(exprs@))[pre.len() + v as int] == m);
                        assert(!writes_resolve(
                            *ts,
                            exprs_written_vars(expr_refs(exprs@)),
                            scope@,
                        ));
                    }
                    return Err(err);
                },
            }
            v = v + 1;
        }
        proof {
            assert(ms.take(ms.len() as int) =~= ms);
            assert(expr_refs(exprs@.take(i as int + 1)) =~= expr_refs(exprs@.take(i as int)).push(
                *exprs@[i as int],
            ));
            lemma_writes_snoc(expr_refs(exprs@.take(i as int)), *exprs@[i as int]);
        }
        i = i + 1;
    }
    proof {
        assert(exprs@.take(exprs@.len() as int) =~= exprs@);
    }
    Ok(out)
}

/// The scoped variables a signal definition reads: every variable of every
/// expression in the definition, each at its resolved defining scope, in
/// traversal order. Fails exactly when some read does not resolve.
pub fn input_vars_of_signal(ts: &TaskScope, s: &SignalSpec, scope: &[u32]) -> (r: Result<
    Vec<ScopedVariable>,
>)
    requires
        spec_get_child(*ts, scope@) is Some,
    ensures
        r is Ok <==> reads_resolve(*ts, exprs_read_vars(signal_exprs(*s)), scope@),
        r matches Ok(v) ==> sv_ids(v@) == read_entries(
            *ts,
            exprs_read_vars(signal_exprs(*s)),
            scope@,
        ),
        r matches Err(e) ==> error_kind(e) == ErrorKind::Specification,
{
    let exprs = collect_signal_exprs(s);
    resolve_reads(ts, &exprs, scope)
}

/// Whether a signal definition can change its own value at runtime: it has
/// an initial value, an `init` or `update` expression, or `on` clauses.
pub open spec fn signal_self_updating(s: SignalSpec) -> bool {
    ||| s.value is Some
    ||| s.init is Some
    ||| s.update is Some
    ||| s.on@.len() > 0
}

/// The scoped variables a signal definition may update: the signal itself
/// (at its own scope) when the definition is not an empty stub, then every
/// variable updated by `modify`-style calls in its expressions, each
/// resolved to its defining scope. Fails exactly when some update target
/// does not resolve.
pub fn update_vars_of_signal(ts: &TaskScope, s: &SignalSpec, scope: &[u32]) -> (r: Result<
    Vec<ScopedVariable>,
>)
    requires
        spec_get_child(*ts, scope@) is Some,
    ensures
        r is Ok <==> writes_resolve(*ts, exprs_written_vars(signal_exprs(*s)), scope@),
        r matches Ok(v) ==> sv_ids(v@) == (if signal_self_updating(*s) {
            seq![(VariableNamespace::Signal, s.name@, scope@)]
        } else {
            Seq::empty()
        }) + write_entries(*ts, exprs_written_vars(signal_exprs(*s)), scope@),
        r matches Err(e) ==> error_kind(e) == ErrorKind::Specification,
{
    let mut out: Vec<ScopedVariable> = Vec::new();
    let self_updating = s.value.is_some() || s.init.is_some() || s.update.is_some()
        || s.on.len() > 0;
    if self_updating {
        let var = Variable { namespace: VariableNamespace::Signal, name: s.name.clone() };
        out.push((var, crate::task::slice_to_vec(scope)));
    }
    let exprs = collect_signal_exprs(s);
    let mut resolved = match resolve_writes(ts, &exprs, scope) {
        Ok(v) => v,
        Err(e) => {
            return Err(e);
        },
    };
    let ghost head = out@;
    let ghost tail = resolved@;
    out.append(&mut resolved);
    proof {
        assert(sv_ids(head + tail) =~= sv_ids(head) + sv_ids(tail));
        assert(sv_ids(out@) =~= (if signal_self_updating(*s) {
            seq![(VariableNamespace::Signal, s.name@, scope@)]
        } else {
            Seq::<(VariableNamespace, Seq<char>, Seq<u32>)>::empty()
        }) + write_entries(*ts, exprs_written_vars(signal_exprs(*s)), scope@));
    }
    Ok(out)
}

/// The dataset names a scale's domain references.
pub open spec fn domain_refs(d: Option<ScaleDomainSpec>) -> Seq<Seq<char>> {
    match d {
        Some(ScaleDomainSpec::Reference(nm)) => seq![nm@],
        _ => Seq::empty(),
    }
}

/// The dataset names a scale's range references.
pub open spec fn range_refs(rg: Option<ScaleRangeSpec>) -> Seq<Seq<char>> {
    match rg {
        Some(ScaleRangeSpec::Reference(nm)) => seq![nm@],
        _ => Seq::empty(),
    }
}

/// The dataset names a scale references: domain first, then range.
pub open spec fn scale_refs(s: ScaleSpec) -> Seq<Seq<char>> {
    domain_refs(s.domain) + range_refs(s.range)
}

/// The signal expressions of an element array.
pub open spec fn arr_sigs(els: Seq<ScaleArrayElementSpec>) -> Seq<Expression>
    decreases els.len(),
{
    if els.len() == 0 {
        Seq::empty()
    } else {
        arr_sigs(els.drop_last()) + (match els.last() {
            ScaleArrayElementSpec::Signal(e) => seq![e],
            ScaleArrayElementSpec::Literal => Seq::empty(),
        })
    }
}

/// The signal expressions of a scale's domain.
pub open spec fn domain_sigs(d: Option<ScaleDomainSpec>) -> Seq<Expression> {
    match d {
        Some(ScaleDomainSpec::Signal(e)) => seq![e],
        Some(ScaleDomainSpec::Array(a)) => arr_sigs(a@),
        _ => Seq::empty(),
    }
}

/// The signal expressions of a scale's range.
pub open spec fn range_sigs(rg: Option<ScaleRangeSpec>) -> Seq<Expression> {
    match rg {
        Some(ScaleRangeSpec::Signal(e)) => seq![e],
        Some(ScaleRangeSpec::Array(a)) => arr_sigs(a@),
        _ => Seq::empty(),
    }
}

/// The signal expressions of a scale's bins.
pub open spec fn bins_sigs(b: Option<ScaleBinsSpec>) -> Seq<Expression> {
    match b {
        Some(ScaleBinsSpec::Signal(e)) => seq![e],
        Some(ScaleBinsSpec::Array(a)) => arr_sigs(a@),
        _ => Seq::empty(),
    }
}

/// The signal expressions a scale contains: domain, range, then bins.
pub open spec fn scale_sig_exprs(s: ScaleSpec) -> Seq<Expression> {
    domain_sigs(s.domain) + range_sigs(s.range) + bins_sigs(s.bins)
}

/// The scoped variables recorded for a scale's dataset references.
pub open spec fn ref_entries(root: TaskScope, names: Seq<Seq<char>>, usage: Seq<u32>) -> Seq<
    (VariableNamespace, Seq<char>, Seq<u32>),
> {
    Seq::new(
        names.len(),
        |k: int|
            (
                VariableNamespace::Data,
                names[k],
                (spec_resolve(root, VariableNamespace::Data, names[k], usage)->0).1,
            ),
    )
}

/// Whether every dataset reference in the list resolves at `usage`.
pub open spec fn refs_resolve(root: TaskScope, names: Seq<Seq<char>>, usage: Seq<u32>) -> bool {
    forall|k: int|
        0 <= k < names.len() ==> spec_resolve(
            root,
            VariableNamespace::Data,
            #[trigger] names[k],
            usage,
        ) is Some
}

/// Collects the signal expressions of one array, appending to `out`.
#[verifier::loop_isolation(false)]
fn push_arr_sigs<'a>(els: &'a Vec<ScaleArrayElementSpec>, out: &mut Vec<&'a Expression>)
    ensures
        expr_refs(final(out)@) == expr_refs(old(out)@) + arr_sigs(els@),
{
    let ghost base = expr_refs(old(out)@);
    let mut j: usize = 0;
    while j < els.len()
        invariant
            j <= els@.len(),
            expr_refs(out@) == base + arr_sigs(els@.take(j as int)),
        decreases els@.len() - j as int,
    {
        let ghost opre = out@;
        match &els[j] {
            ScaleArrayElementSpec::Signal(e) => {
                out.push(e);
                proof {
                    assert(els@[j as int] is Signal);
                    assert(out@[out@.len() - 1] == e);
                    assert(*e == els@[j as int]->Signal_0);
                }
            },
            ScaleArrayElementSpec::Literal => {
                proof {
                    assert(els@[j as int] is Literal);
                }
            },
        }
        proof {
            assert(els@.take(j as int + 1).drop_last() =~= els@.take(j as int));
            assert(els@.take(j as int + 1).last() == els@[j as int]);
            assert(arr_sigs(els@.take(j as int + 1)) == arr_sigs(els@.take(j as int)) + (
            match els@[j as int] {
                ScaleArrayElementSpec::Signal(e2) => seq![e2],
                ScaleArrayElementSpec::Literal => Seq::<Expression>::empty(),
            }));
            let rhs = base + arr_sigs(els@.take(j as int + 1));
            assert(expr_refs(out@).len() == rhs.len());
            assert forall|w: int| 0 <= w < expr_refs(out@).len() implies #[trigger] expr_refs(
                out@,
            )[w] == rhs[w] by {
                if w < opre.len() {
                    assert(out@[w] == opre[w]);
                    assert(expr_refs(opre)[w] == *opre[w]);
                } else {
                    assert(out@[w] == els@[j as int]->Signal_0);
                }
            }
            assert(expr_refs(out@) =~= rhs);
        }
        j = j + 1;
    }
    proof {
        assert(els@.take(els@.len() as int) =~= els@);
    }
}

/// The scoped variables a scale definition reads: its domain and range
/// dataset references, then every variable of its signal expressions
/// (domain, range, bins), each at its resolved defining scope. Fails
/// exactly when some reference or read does not resolve.
#[verifier::loop_isolation(false)]
#[verifier::rlimit(100)]
#[verifier::spinoff_prover]
pub fn input_vars_of_scale(ts: &TaskScope, s: &ScaleSpec, scope: &[u32]) -> (r: Result<
    Vec<ScopedVariable>,
>)
    requires
        spec_get_child(*ts, scope@) is Some,
    ensures
        r is Ok <==> (refs_resolve(*ts, scale_refs(*s), scope@) && reads_resolve(
            *ts,
            exprs_read_vars(scale_sig_exprs(*s)),
            scope@,
        )),
        r matches Ok(v) ==> sv_ids(v@) == ref_entries(*ts, scale_refs(*s), scope@)
            + read_entries(*ts, exprs_read_vars(scale_sig_exprs(*s)), scope@),
        r matches Err(e) ==> error_kind(e) == ErrorKind::Specification,
{
    // Collect the dataset references: domain first, then range.
    let mut refs: Vec<&String> = Vec::new();
    if let Some(ScaleDomainSpec::Reference(nm)) = &s.domain {
        refs.push(nm);
    }
    proof {
        assert(Seq::new(refs@.len(), |k: int| refs@[k]@) =~= domain_refs(s.domain));
    }
    if let Some(ScaleRangeSpec::Reference(nm)) = &s.range {
        refs.push(nm);
    }
    proof {
        assert(Seq::new(refs@.len(), |k: int| refs@[k]@) =~= scale_refs(*s));
    }
    // Collect the signal expressions: domain, range, then bins.
    let mut sigs: Vec<&Expression> = Vec::new();
    match &s.domain {
        Some(ScaleDomainSpec::Signal(e)) => {
            sigs.push(e);
        },
        Some(ScaleDomainSpec::Array(a)) => {
            push_arr_sigs(a, &mut sigs);
        },
        _ => {},
    }
    proof {
        assert(expr_refs(sigs@) =~= domain_sigs(s.domain));
    }
    match &s.range {
        Some(ScaleRangeSpec::Signal(e)) => {
            sigs.push(e);
        },
        Some(ScaleRangeSpec::Array(a)) => {
            push_arr_sigs(a, &mut sigs);
        },
        _ => {},
    }
    proof {
        assert(expr_refs(sigs@) =~= domain_sigs(s.domain) + range_sigs(s.range));
    }
    match &s.bins {
        Some(ScaleBinsSpec::Signal(e)) => {
            sigs.push(e);
        },
        Some(ScaleBinsSpec::Array(a)) => {
            push_arr_sigs(a, &mut sigs);
        },
        _ => {},
    }
    proof {
        assert(expr_refs(sigs@) =~= scale_sig_exprs(*s));
    }
    // Resolve the references.
    let mut out: Vec<ScopedVariable> = Vec::new();
    let ghost names = scale_refs(*s);
    let mut k: usize = 0;
    while k < refs.len()
        invariant
            names == scale_refs(*s),
            Seq::new(refs@.len(), |q: int| refs@[q]@) == names,
            k <= refs@.len(),
            forall|q: int|
                0 <= q < k as int ==> spec_resolve(
                    *ts,
                    VariableNamespace::Data,
                    #[trigger] names[q],
                    scope@,
                ) is Some,
            sv_ids(out@) == ref_entries(*ts, names.take(k as int), scope@),
        decreases refs@.len() - k as int,
    {
        let var = Variable { namespace: VariableNamespace::Data, name: refs[k].clone() };
        proof {
            assert(names[k as int] == refs@[k as int]@);
            assert(var.name@ == names[k as int]);
        }
        match ts.resolve_scope(&var, scope) {
            Ok(rr) => {
                proof {
                    crate::scope::lemma_resolution_model(
                        *ts,
                        VariableNamespace::Data,
                        names[k as int],
                        scope@,
                        rr,
                    );
                }
                out.push((var, rr.scope));
                proof {
                    let s2 = names.take(k as int + 1);
                    assert(scoped_var_id(out@[out@.len() - 1]) == ref_entries(*ts, s2, scope@)[
                        k as int
                    ]);
                    assert forall|j: int| 0 <= j < s2.len() implies #[trigger] sv_ids(out@)[j]
                        == ref_entries(*ts, s2, scope@)[j] by {
                        if j < k as int {
                            assert(sv_ids(out@)[j] == ref_entries(
                                *ts,
                                names.take(k as int),
                                scope@,
                            )[j]);
                        }
                    }
                    assert(sv_ids(out@) =~= ref_entries(*ts, s2, scope@));
                }
            },
            Err(err) => {
                proof {
                    crate::scope::lemma_resolution_failure(
                        *ts,
                        VariableNamespace::Data,
                        names[k as int],
                        scope@,
                    );
                    assert(!refs_resolve(*ts, names, scope@));
                }
                return Err(err);
            },
        }
        k = k + 1;
    }
    proof {
        assert(names.take(names.len() as int) =~= names);
    }
    // Resolve the signal expression reads.
    let mut resolved = match resolve_reads(ts, &sigs, scope) {
        Ok(v) => v,
        Err(e) => {
            return Err(e);
        },
    };
    let ghost head = out@;
    let ghost tail = resolved@;
    out.append(&mut resolved);
    proof {
        assert(sv_ids(head + tail) =~= sv_ids(head) + sv_ids(tail));
        assert(sv_ids(out@) =~= ref_entries(*ts, scale_refs(*s), scope@) + read_entries(
            *ts,
            exprs_read_vars(scale_sig_exprs(*s)),
            scope@,
        ));
    }
    Ok(out)
}

/// Snoc form of `tls_output_signals`.
proof fn lemma_tls_output_signals_snoc(s: Seq<TransformSpec>, x: TransformSpec)
    ensures
        tls_output_signals(s.push(x)) == tls_output_signals(s)
            + crate::transforms::transform_output_signals(x),
    decreases s.len(),
{
    let sx = s.push(x);
    let xb = crate::transforms::transform_output_signals(x);
    if s.len() == 0 {
        assert(sx.subrange(1, sx.len() as int) =~= Seq::<TransformSpec>::empty());
        assert(tls_output_signals(sx) == xb + tls_output_signals(
            Seq::<TransformSpec>::empty(),
        ));
        assert(xb + Seq::<Seq<char>>::empty() =~= xb);
        assert(Seq::<Seq<char>>::empty() + xb =~= xb);
    } else {
        let tail = s.subrange(1, s.len() as int);
        let h = crate::transforms::transform_output_signals(s[0]);
        assert(sx[0] == s[0]);
        assert(sx.subrange(1, sx.len() as int) =~= tail.push(x));
        lemma_tls_output_signals_snoc(tail, x);
        assert(tls_output_signals(sx) == h + (tls_output_signals(tail) + xb));
        assert(h + (tls_output_signals(tail) + xb) =~= (h + tls_output_signals(tail)) + xb);
        assert(tls_output_signals(s) == h + tls_output_signals(tail));
    }
}

/// Whether a dataset definition may change at runtime: it has a source, an
/// `on` clause, a URL, or transforms.
pub open spec fn data_self_updating(d: DataSpec) -> bool {
    ||| d.source is Some
    ||| d.has_on
    ||| d.url is Some
    ||| d.transform@.len() > 0
}

/// The scoped variables recorded for a list of output signal names, all at
/// one scope.
pub open spec fn signal_entries(names: Seq<Seq<char>>, usage: Seq<u32>) -> Seq<
    (VariableNamespace, Seq<char>, Seq<u32>),
> {
    Seq::new(names.len(), |k: int| (VariableNamespace::Signal, names[k], usage))
}

/// The scoped variables a dataset definition may update: the dataset
/// itself (at its own scope) when the definition is not an empty stub,
/// then one signal per transform output, in pipeline order, at the same
/// scope.
#[verifier::loop_isolation(false)]
pub fn update_vars_of_data(d: &DataSpec, scope: &[u32]) -> (r: Vec<ScopedVariable>)
    ensures
        sv_ids(r@) == (if data_self_updating(*d) {
            seq![(VariableNamespace::Data, d.name@, scope@)]
        } else {
            Seq::empty()
        }) + signal_entries(tls_output_signals(d.transform@), scope@),
{
    let mut out: Vec<ScopedVariable> = Vec::new();
    if d.source.is_some() || d.has_on || d.url.is_some() || d.transform.len() > 0 {
        let var = Variable { namespace: VariableNamespace::Data, name: d.name.clone() };
        out.push((var, crate::task::slice_to_vec(scope)));
    }
    let ghost head = sv_ids(out@);
    proof {
        assert(head =~= (if data_self_updating(*d) {
            seq![(VariableNamespace::Data, d.name@, scope@)]
        } else {
            Seq::<(VariableNamespace, Seq<char>, Seq<u32>)>::empty()
        }));
        assert(sv_ids(out@) =~= head + signal_entries(
            tls_output_signals(d.transform@.take(0)),
            scope@,
        ));
    }
    let mut i: usize = 0;
    while i < d.transform.len()
        invariant
            i <= d.transform@.len(),
            sv_ids(out@) == head + signal_entries(
                tls_output_signals(d.transform@.take(i as int)),
                scope@,
            ),
        decreases d.transform@.len() - i as int,
    {
        let ghost sig_names = crate::transforms::transform_output_signals(
            d.transform@[i as int],
        );
        let ghost stage = tls_output_signals(d.transform@.take(i as int));
        let sigs = d.transform[i].output_signals();
        let mut j: usize = 0;
        while j < sigs.len()
            invariant
                i < d.transform@.len(),
                sig_names == crate::transforms::transform_output_signals(
                    d.transform@[i as int],
                ),
                stage == tls_output_signals(d.transform@.take(i as int)),
                sigs@.len() == sig_names.len(),
                forall|w: int| 0 <= w < sigs@.len() ==> sigs@[w]@ == sig_names[w],
                j <= sigs@.len(),
                sv_ids(out@) == head + signal_entries(stage, scope@) + signal_entries(
                    sig_names.take(j as int),
                    scope@,
                ),
            decreases sigs@.len() - j as int,
        {
            let ghost opre = out@;
            let var = Variable { namespace: VariableNamespace::Signal, name: sigs[j].clone() };
            out.push((var, crate::task::slice_to_vec(scope)));
            proof {
                let rhs = head + signal_entries(stage, scope@) + signal_entries(
                    sig_names.take(j as int + 1),
                    scope@,
                );
                assert(scoped_var_id(out@[out@.len() - 1]) == (
                    VariableNamespace::Signal,
                    sig_names[j as int],
                    scope@,
                ));
                assert(sv_ids(out@).len() == rhs.len());
                assert forall|w: int| 0 <= w < sv_ids(out@).len() implies #[trigger] sv_ids(
                    out@,
                )[w] == rhs[w] by {
                    if w < opre.len() {
                        assert(out@[w] == opre[w]);
                        assert(sv_ids(opre)[w] == scoped_var_id(opre[w]));
                    }
                }
                assert(sv_ids(out@) =~= rhs);
            }
            j = j + 1;
        }
        proof {
            assert(sig_names.take(sig_names.len() as int) =~= sig_names);
            assert(d.transform@.take(i as int + 1) =~= d.transform@.take(i as int).push(
                d.transform@[i as int],
            ));
            lemma_tls_output_signals_snoc(d.transform@.take(i as int), d.transform@[i as int]);
            assert(signal_entries(tls_output_signals(d.transform@.take(i as int + 1)), scope@)
                =~= signal_entries(stage, scope@) + signal_entries(sig_names, scope@));
            assert(sv_ids(out@) =~= head + signal_entries(
                tls_output_signals(d.transform@.take(i as int + 1)),
                scope@,
            ));
        }
        i = i + 1;
    }
    proof {
        assert(d.transform@.take(d.transform@.len() as int) =~= d.transform@);
    }
    out
}

/// Whether an optional pipeline is exactly the one built from the given
/// transforms: absent when there are none, and transform-for-transform
/// matching otherwise.
pub open spec fn pipeline_matches(p: Option<TransformPipeline>, specs: Seq<TransformSpec>) -> bool {
    if specs.len() == 0 {
        p is None
    } else {
        &&& p matches Some(pp)
        &&& pipeline_wf(pp)
        &&& pipeline_specs(pp).len() == specs.len()
        &&& forall|i: int|
            0 <= i < specs.len() ==> transforms_match(#[trigger] pipeline_specs(pp)[i], specs[i])
    }
}

/// Whether two URL fields denote the same source: equal fixed strings, or
/// signal expressions with the same byte form and the same dependencies.
pub open spec fn url_matches(a: UrlSpec, b: UrlSpec) -> bool {
    match (a, b) {
        (UrlSpec::Fixed(x), UrlSpec::Fixed(y)) => x@ == y@,
        (UrlSpec::Expr(x), UrlSpec::Expr(y)) => crate::expression::expr_bytes(x)
            == crate::expression::expr_bytes(y) && expr_vars(x) == expr_vars(y)
            && expr_update_vars(x) == expr_update_vars(y),
        _ => false,
    }
}

/// The table model a dataset's inline values denote: the given table, or
/// the empty table with no columns when none are given.
pub open spec fn data_values_model(d: DataSpec) -> TableModel {
    match d.values {
        Some(tv) => table_model(tv),
        None => TableModel { columns: Seq::empty(), rows: Seq::empty() },
    }
}

/// Whether a task's kind is the one a dataset definition prescribes: a URL
/// fetch (batch size 8096, no format) when a URL is given; a derivation
/// when a source is named; otherwise the inline values, as a plain value
/// task when there are no transforms and as a values-plus-pipeline task
/// when there are.
pub open spec fn data_task_matches(t: Task, d: DataSpec) -> bool {
    match d.url {
        Some(u) => {
            &&& t.task_kind->0 matches TaskKind::DataUrl(du)
            &&& url_matches(du.url, u)
            &&& du.batch_size == 8096
            &&& du.format_type is None
            &&& pipeline_matches(du.pipeline, d.transform@)
        },
        None => match d.source {
            Some(src) => {
                &&& t.task_kind->0 matches TaskKind::DataSource(ds)
                &&& ds.source@ == src@
                &&& pipeline_matches(ds.pipeline, d.transform@)
            },
            None => if d.transform@.len() == 0 {
                &&& t.task_kind->0 matches TaskKind::Value(v)
                &&& v matches TaskValue::Table(tb)
                &&& table_model(tb) == data_values_model(d)
            } else {
                &&& t.task_kind->0 matches TaskKind::DataValues(dv)
                &&& table_model(dv.values) == data_values_model(d)
                &&& pipeline_matches(dv.pipeline, d.transform@)
            },
        },
    }
}

/// Copies a URL field, preserving what `url_matches` compares.
fn clone_url(u: &UrlSpec) -> (r: UrlSpec)
    ensures
        url_matches(r, *u),
{
    match u {
        UrlSpec::Fixed(s) => UrlSpec::Fixed(s.clone()),
        UrlSpec::Expr(e) => UrlSpec::Expr(crate::expression::clone_expr(e)),
    }
}

/// The task a dataset definition becomes: a URL fetch, a derivation from a
/// named source, or its inline values (a plain value task when there is no
/// pipeline). Fails, with a parse error, exactly when a transform is
/// unsupported.
pub fn make_task_for_data(d: &DataSpec, scope: &[u32]) -> (r: Result<Task>)
    requires
        d.values matches Some(tv) ==> crate::values::table_wf(tv),
    ensures
        r is Ok <==> (forall|i: int|
            0 <= i < d.transform@.len() ==> !((#[trigger] d.transform@[i]) matches
            TransformSpec::Unsupported(_))),
        r matches Ok(t) ==> {
            &&& task_wf(t)
            &&& var_id(t.variable->0) == (VariableNamespace::Data, d.name@)
            &&& t.scope@ == scope@
            &&& data_task_matches(t, *d)
        },
        r matches Err(e) ==> error_kind(e) == ErrorKind::Parse,
{
    let data_var = Variable { namespace: VariableNamespace::Data, name: d.name.clone() };
    let pipeline: Option<TransformPipeline> = if d.transform.len() == 0 {
        None
    } else {
        match TransformPipeline::try_new(&d.transform) {
            Ok(p) => Some(p),
            Err(e) => {
                return Err(e);
            },
        }
    };
    if let Some(u) = &d.url {
        let task = Task::new_data_url(
            data_var,
            scope,
            DataUrlTask {
                url: clone_url(u),
                batch_size: 8096,
                format_type: None,
                pipeline,
            },
        );
        return Ok(task);
    }
    if let Some(src) = &d.source {
        let task = Task::new_data_source(
            data_var,
            scope,
            DataSourceTask { source: src.clone(), pipeline },
        );
        return Ok(task);
    }
    let values_table = match &d.values {
        Some(tv) => clone_table(tv),
        None => VegaFusionTable::empty(Vec::new()),
    };
    proof {
        if d.values is None {
            assert(table_model(values_table).columns =~= data_values_model(*d).columns);
            assert(table_model(values_table).rows =~= data_values_model(*d).rows);
        }
        assert(table_model(values_table) == data_values_model(*d));
    }
    match pipeline {
        None => Ok(Task::new_value(data_var, scope, TaskValue::Table(values_table))),
        Some(p) => Ok(
            Task::new_data_values(
                data_var,
                scope,
                DataValuesTask { values: values_table, pipeline: Some(p) },
            ),
        ),
    }
}

/// The task a signal definition becomes: a plain value task holding its
/// initial value. Fails, with an internal error, exactly when the signal
/// has no initial value.
pub fn make_task_for_signal(s: &SignalSpec, scope: &[u32]) -> (r: Result<Task>)
    ensures
        r is Ok <==> s.value is Some,
        r matches Ok(t) ==> {
            &&& task_wf(t)
            &&& var_id(t.variable->0) == (VariableNamespace::Signal, s.name@)
            &&& t.scope@ == scope@
            &&& t.task_kind->0 matches TaskKind::Value(v)
            &&& t.task_kind->0->Value_0 matches TaskValue::Scalar(sc)
            &&& scalar_model(t.task_kind->0->Value_0->Scalar_0) == scalar_model(s.value->0)
        },
        r matches Err(e) ==> error_kind(e) == ErrorKind::Internal,
{
    let signal_var = Variable { namespace: VariableNamespace::Signal, name: s.name.clone() };
    match &s.value {
        Some(value) => {
            let v = TaskValue::Scalar(clone_scalar(value));
            Ok(Task::new_value(signal_var, scope, v))
        },
        None => Err(VegaFusionError::internal("signal must have an initial value")),
    }
}

} // verus!
