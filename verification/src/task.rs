//! Tasks: the units of computation of the task graph. A task is a scoped
//! variable together with a kind: a literal value, a URL fetch, inline
//! values with a transform pipeline, or a derivation from another dataset.
//! Tasks report the variables they read and the auxiliary signals they
//! publish, and serialize deterministically for fingerprinting.

use vstd::prelude::*;

use crate::codec::{string_bytes, task_value_bytes, u64_bytes, write_string, write_task_value, write_u64};
use crate::errors::{ErrorKind, Result, VegaFusionError, error_kind};
use crate::expression::{dedup_seq, expr_bytes, expr_vars, Expression, IvModel};
use crate::transforms::{pipeline_bytes, pipeline_specs, pipeline_wf, tls_input_vars, tls_output_signals, TransformPipeline};
use crate::values::{task_value_model, task_value_wf, TaskValue, VegaFusionTable};
use crate::variable::{var_id, Variable, VariableNamespace};

verus! {

/// A variable a task or expression reads. `propagate` is false for reads
/// that create a dependency edge but whose value changes should not
/// retrigger downstream recomputation (`modify`-style reads).
#[derive(Debug)]
pub struct InputVariable {
    pub var: Variable,
    pub propagate: bool,
}

/// Spec-level identity of an input variable.
pub open spec fn input_var_model(v: InputVariable) -> (VariableNamespace, Seq<char>, bool) {
    (v.var.namespace, v.var.name@, v.propagate)
}

/// Spec-level identities of a list of input variables.
pub open spec fn input_var_models(vs: Seq<InputVariable>) -> Seq<
    (VariableNamespace, Seq<char>, bool),
> {
    Seq::new(vs.len(), |i: int| input_var_model(vs[i]))
}

impl Clone for InputVariable {
    fn clone(&self) -> (r: Self)
        ensures
            input_var_model(r) == input_var_model(*self),
            r.var == self.var,
            r.propagate == self.propagate,
    {
        InputVariable { var: self.var.clone(), propagate: self.propagate }
    }
}

/// Where a URL task gets its address: a fixed string or a signal expression.
#[derive(Debug)]
pub enum UrlSpec {
    Fixed(String),
    Expr(Expression),
}

/// Fetch a dataset from a URL, then run it through a pipeline.
#[derive(Debug)]
pub struct DataUrlTask {
    pub url: UrlSpec,
    pub batch_size: u32,
    pub format_type: Option<String>,
    pub pipeline: Option<TransformPipeline>,
}

/// Run an inline table through a pipeline.
#[derive(Debug)]
pub struct DataValuesTask {
    pub values: VegaFusionTable,
    pub pipeline: Option<TransformPipeline>,
}

/// Derive a dataset from another dataset through a pipeline.
#[derive(Debug)]
pub struct DataSourceTask {
    pub source: String,
    pub pipeline: Option<TransformPipeline>,
}

/// What a task computes.
#[derive(Debug)]
pub enum TaskKind {
    Value(TaskValue),
    DataUrl(DataUrlTask),
    DataValues(DataValuesTask),
    DataSource(DataSourceTask),
}

/// A unit of computation: a scoped variable and a kind.
#[derive(Debug)]
pub struct Task {
    pub variable: Option<Variable>,
    pub scope: Vec<u32>,
    pub task_kind: Option<TaskKind>,
}

/// An optional pipeline that, when present, is well formed.
pub open spec fn opt_pipeline_wf(p: Option<TransformPipeline>) -> bool {
    p matches Some(pp) ==> pipeline_wf(pp)
}

/// A task built by one of the constructors: variable and kind present, and
/// every pipeline well formed.
pub open spec fn task_wf(t: Task) -> bool {
    &&& t.variable is Some
    &&& t.task_kind is Some
    &&& match t.task_kind->0 {
        TaskKind::Value(v) => task_value_wf(v),
        TaskKind::DataUrl(d) => opt_pipeline_wf(d.pipeline),
        TaskKind::DataValues(d) => opt_pipeline_wf(d.pipeline) && crate::values::table_wf(
            d.values,
        ),
        TaskKind::DataSource(d) => opt_pipeline_wf(d.pipeline),
    }
}

/// The variables a URL reads.
pub open spec fn url_vars(u: UrlSpec) -> Seq<IvModel> {
    match u {
        UrlSpec::Fixed(_) => Seq::empty(),
        UrlSpec::Expr(e) => dedup_seq(expr_vars(e)),
    }
}

/// The variables an optional pipeline reads.
pub open spec fn opt_pipeline_vars(p: Option<TransformPipeline>) -> Seq<IvModel> {
    match p {
        None => Seq::empty(),
        Some(pp) => tls_input_vars(pipeline_specs(pp)),
    }
}

/// The output signals an optional pipeline publishes.
pub open spec fn opt_pipeline_signals(p: Option<TransformPipeline>) -> Seq<Seq<char>> {
    match p {
        None => Seq::empty(),
        Some(pp) => tls_output_signals(pipeline_specs(pp)),
    }
}

/// The variables a task reads, first occurrence of each: the URL expression
/// or source dataset, then the pipeline's reads.
pub open spec fn task_input_vars(t: Task) -> Seq<IvModel> {
    match t.task_kind->0 {
        TaskKind::Value(_) => Seq::empty(),
        TaskKind::DataUrl(d) => dedup_seq(url_vars(d.url) + opt_pipeline_vars(d.pipeline)),
        TaskKind::DataValues(d) => dedup_seq(opt_pipeline_vars(d.pipeline)),
        TaskKind::DataSource(d) => dedup_seq(
            seq![(VariableNamespace::Data, d.source@, true)] + opt_pipeline_vars(d.pipeline),
        ),
    }
}

/// The auxiliary signals a task publishes, in pipeline order.
pub open spec fn task_output_signals(t: Task) -> Seq<Seq<char>> {
    match t.task_kind->0 {
        TaskKind::Value(_) => Seq::empty(),
        TaskKind::DataUrl(d) => opt_pipeline_signals(d.pipeline),
        TaskKind::DataValues(d) => opt_pipeline_signals(d.pipeline),
        TaskKind::DataSource(d) => opt_pipeline_signals(d.pipeline),
    }
}

/// The byte form of a variable.
pub open spec fn variable_bytes(v: Variable) -> Seq<u8> {
    seq![v.namespace.spec_rank() as u8] + string_bytes(v.name@)
}

/// The byte form of a scope path.
pub open spec fn scope_bytes(s: Seq<u32>) -> Seq<u8>
    decreases s.len(),
{
    if s.len() == 0 {
        Seq::empty()
    } else {
        u64_bytes(s[0] as u64) + scope_bytes(s.subrange(1, s.len() as int))
    }
}

/// Snoc form of `scope_bytes`.
pub proof fn lemma_scope_bytes_snoc(s: Seq<u32>, x: u32)
    ensures
        scope_bytes(s.push(x)) == scope_bytes(s) + u64_bytes(x as u64),
    decreases s.len(),
{
    let sx = s.push(x);
    let xb = u64_bytes(x as u64);
    if s.len() == 0 {
        assert(sx.subrange(1, sx.len() as int) =~= Seq::<u32>::empty());
        assert(scope_bytes(sx) == xb + scope_bytes(Seq::<u32>::empty()));
        assert(xb + Seq::<u8>::empty() =~= xb);
        assert(Seq::<u8>::empty() + xb =~= xb);
    } else {
        let tail = s.subrange(1, s.len() as int);
        let h = u64_bytes(s[0] as u64);
        assert(sx[0] == s[0]);
        assert(sx.subrange(1, sx.len() as int) =~= tail.push(x));
        lemma_scope_bytes_snoc(tail, x);
        assert(scope_bytes(sx) == h + (scope_bytes(tail) + xb));
        assert(h + (scope_bytes(tail) + xb) =~= (h + scope_bytes(tail)) + xb);
        assert(scope_bytes(s) == h + scope_bytes(tail));
    }
}

/// The byte form of an optional string with presence marker.
pub open spec fn opt_string_tag_bytes(o: Option<String>) -> Seq<u8> {
    match o {
        None => seq![0u8],
        Some(s) => seq![1u8] + string_bytes(s@),
    }
}

/// The byte form of an optional pipeline with presence marker.
pub open spec fn opt_pipeline_bytes(p: Option<TransformPipeline>) -> Seq<u8> {
    match p {
        None => seq![0u8],
        Some(pp) => seq![1u8] + pipeline_bytes(pp),
    }
}

/// The byte form of a URL.
pub open spec fn url_bytes(u: UrlSpec) -> Seq<u8> {
    match u {
        UrlSpec::Fixed(s) => seq![0u8] + string_bytes(s@),
        UrlSpec::Expr(e) => seq![1u8] + expr_bytes(e),
    }
}

/// The full byte form of a task: variable, scope, kind and payload,
/// current values included.
#[verifier::opaque]
pub open spec fn task_full_bytes(t: Task) -> Seq<u8> {
    variable_bytes(t.variable->0) + u64_bytes(t.scope@.len() as u64) + scope_bytes(t.scope@)
        + (match t.task_kind->0 {
        TaskKind::Value(v) => seq![0u8] + task_value_bytes(v),
        TaskKind::DataUrl(d) => seq![1u8] + url_bytes(d.url) + u64_bytes(d.batch_size as u64)
            + opt_string_tag_bytes(d.format_type) + opt_pipeline_bytes(d.pipeline),
        TaskKind::DataValues(d) => seq![2u8] + crate::codec::table_bytes(d.values)
            + opt_pipeline_bytes(d.pipeline),
        TaskKind::DataSource(d) => seq![3u8] + string_bytes(d.source@) + opt_pipeline_bytes(
            d.pipeline,
        ),
    })
}

/// The identity byte form of a task. For a value task only the distinction
/// between scalar and table enters, never the payload, so changing a
/// signal's current value keeps the task's identity; every other kind uses
/// the full byte form.
pub open spec fn task_id_bytes(t: Task) -> Seq<u8> {
    match t.task_kind->0 {
        TaskKind::Value(v) => variable_bytes(t.variable->0) + u64_bytes(t.scope@.len() as u64)
            + scope_bytes(t.scope@) + (match v {
            TaskValue::Scalar(_) => seq![0u8, 0u8],
            TaskValue::Table(_) => seq![0u8, 1u8],
        }),
        _ => task_full_bytes(t),
    }
}

/// The byte forms of a task depend only on its variable, the entries of its
/// scope path, and its kind: two tasks agreeing on those have equal full
/// and identity bytes.
pub proof fn lemma_task_bytes_model(t1: Task, t2: Task)
    requires
        t1.variable == t2.variable,
        t1.scope@ == t2.scope@,
        t1.task_kind == t2.task_kind,
    ensures
        task_full_bytes(t1) == task_full_bytes(t2),
        task_id_bytes(t1) == task_id_bytes(t2),
{
    reveal(task_full_bytes);
}

/// Copies a scope path.
pub fn slice_to_vec(s: &[u32]) -> (r: Vec<u32>)
    ensures
        r@ == s@,
{
    let mut r: Vec<u32> = Vec::new();
    let mut i: usize = 0;
    while i < s.len()
        invariant
            i <= s@.len(),
            r@ =~= s@.take(i as int),
        decreases s@.len() - i as int,
    {
        r.push(s[i]);
        i = i + 1;
    }
    proof {
        assert(r@ =~= s@);
    }
    r
}

impl Task {
    /// The task's kind.
    pub fn task_kind(&self) -> (r: &TaskKind)
        requires
            self.task_kind is Some,
        ensures
            *r == self.task_kind->0,
    {
        match &self.task_kind {
            Some(k) => k,
            None => {
                proof {
                    assert(false);
                }
                unreached()
            },
        }
    }

    /// The task's variable.
    pub fn variable(&self) -> (r: &Variable)
        requires
            self.variable is Some,
        ensures
            *r == self.variable->0,
    {
        match &self.variable {
            Some(v) => v,
            None => {
                proof {
                    assert(false);
                }
                unreached()
            },
        }
    }

    /// The task's scope path.
    pub fn scope(&self) -> (r: &[u32])
        ensures
            r@ == self.scope@,
    {
        self.scope.as_slice()
    }

    /// A literal-value task.
    pub fn new_value(variable: Variable, scope: &[u32], value: TaskValue) -> (r: Self)
        requires
            task_value_wf(value),
        ensures
            task_wf(r),
            r.variable->0 == variable,
            r.scope@ == scope@,
            r.task_kind->0 == TaskKind::Value(value),
    {
        Task {
            variable: Some(variable),
            scope: slice_to_vec(scope),
            task_kind: Some(TaskKind::Value(value)),
        }
    }

    /// The current value of a value task; any other kind is an internal
    /// error.
    pub fn to_value(&self) -> (r: Result<TaskValue>)
        requires
            task_wf(*self),
        ensures
            r is Ok == self.task_kind->0 is Value,
            r matches Ok(v) ==> task_value_model(v) == task_value_model(
                self.task_kind->0->Value_0,
            ),
            r matches Err(e) ==> error_kind(e) == ErrorKind::Internal,
    {
        match self.task_kind() {
            TaskKind::Value(v) => Ok(v.clone()),
            _ => Err(VegaFusionError::internal("task is not a value")),
        }
    }

    /// A URL-fetch task.
    pub fn new_data_url(variable: Variable, scope: &[u32], task: DataUrlTask) -> (r: Self)
        requires
            opt_pipeline_wf(task.pipeline),
        ensures
            task_wf(r),
            r.variable->0 == variable,
            r.scope@ == scope@,
            r.task_kind->0 == TaskKind::DataUrl(task),
    {
        Task {
            variable: Some(variable),
            scope: slice_to_vec(scope),
            task_kind: Some(TaskKind::DataUrl(task)),
        }
    }

    /// An inline-values task.
    pub fn new_data_values(variable: Variable, scope: &[u32], task: DataValuesTask) -> (r: Self)
        requires
            opt_pipeline_wf(task.pipeline),
            crate::values::table_wf(task.values),
        ensures
            task_wf(r),
            r.variable->0 == variable,
            r.scope@ == scope@,
            r.task_kind->0 == TaskKind::DataValues(task),
    {
        Task {
            variable: Some(variable),
            scope: slice_to_vec(scope),
            task_kind: Some(TaskKind::DataValues(task)),
        }
    }

    /// A derived-dataset task.
    pub fn new_data_source(variable: Variable, scope: &[u32], task: DataSourceTask) -> (r: Self)
        requires
            opt_pipeline_wf(task.pipeline),
        ensures
            task_wf(r),
            r.variable->0 == variable,
            r.scope@ == scope@,
            r.task_kind->0 == TaskKind::DataSource(task),
    {
        Task {
            variable: Some(variable),
            scope: slice_to_vec(scope),
            task_kind: Some(TaskKind::DataSource(task)),
        }
    }

    /// Reported dependencies of the task.
    pub fn input_vars(&self) -> (r: Vec<InputVariable>)
        requires
            task_wf(*self),
        ensures
            input_var_models(r@) == task_input_vars(*self),
    {
        match self.task_kind() {
            TaskKind::Value(_) => {
                let r: Vec<InputVariable> = Vec::new();
                proof {
                    assert(input_var_models(r@) =~= Seq::<IvModel>::empty());
                }
                r
            },
            TaskKind::DataUrl(d) => {
                let mut raw: Vec<InputVariable> = match &d.url {
                    UrlSpec::Fixed(_) => Vec::new(),
                    UrlSpec::Expr(e) => e.input_vars(),
                };
                proof {
                    assert(input_var_models(raw@) =~= url_vars(d.url));
                }
                let mut rest = match &d.pipeline {
                    Some(p) => pipeline_raw_vars(p),
                    None => Vec::new(),
                };
                let ghost a = raw@;
                let ghost b = rest@;
                raw.append(&mut rest);
                proof {
                    assert(input_var_models(a + b) =~= input_var_models(a) + input_var_models(b));
                    assert(input_var_models(b) =~= opt_pipeline_vars(d.pipeline));
                }
                crate::expression::dedup_input_vars(raw)
            },
            TaskKind::DataValues(d) => {
                let raw = match &d.pipeline {
                    Some(p) => pipeline_raw_vars(p),
                    None => Vec::new(),
                };
                proof {
                    assert(input_var_models(raw@) =~= opt_pipeline_vars(d.pipeline));
                }
                crate::expression::dedup_input_vars(raw)
            },
            TaskKind::DataSource(d) => {
                let mut raw: Vec<InputVariable> = Vec::new();
                raw.push(
                    InputVariable {
                        var: Variable {
                            namespace: VariableNamespace::Data,
                            name: d.source.clone(),
                        },
                        propagate: true,
                    },
                );
                let mut rest = match &d.pipeline {
                    Some(p) => pipeline_raw_vars(p),
                    None => Vec::new(),
                };
                let ghost a = raw@;
                let ghost b = rest@;
                proof {
                    assert(input_var_models(a) =~= seq![
                        (VariableNamespace::Data, d.source@, true),
                    ]);
                }
                raw.append(&mut rest);
                proof {
                    assert(input_var_models(a + b) =~= input_var_models(a) + input_var_models(b));
                    assert(input_var_models(b) =~= opt_pipeline_vars(d.pipeline));
                }
                crate::expression::dedup_input_vars(raw)
            },
        }
    }

    /// Reported outputs of the task.
    pub fn output_vars(&self) -> (r: Vec<Variable>)
        requires
            task_wf(*self),
        ensures
            r@.len() == task_output_signals(*self).len(),
            forall|i: int|
                0 <= i < r@.len() ==> (#[trigger] r@[i]).namespace == VariableNamespace::Signal
                    && r@[i].name@ == task_output_signals(*self)[i],
    {
        let p: &Option<TransformPipeline> = match self.task_kind() {
            TaskKind::Value(_) => &None,
            TaskKind::DataUrl(d) => &d.pipeline,
            TaskKind::DataValues(d) => &d.pipeline,
            TaskKind::DataSource(d) => &d.pipeline,
        };
        match p {
            Some(pp) => pp.output_vars(),
            None => Vec::new(),
        }
    }
}

/// The undeduplicated reads of a pipeline, transform by transform.
fn pipeline_raw_vars(p: &TransformPipeline) -> (r: Vec<InputVariable>)
    requires
        pipeline_wf(*p),
    ensures
        input_var_models(r@) == tls_input_vars(pipeline_specs(*p)),
{
    let mut raw: Vec<InputVariable> = Vec::new();
    let mut i: usize = 0;
    while i < p.transforms.len()
        invariant
            pipeline_wf(*p),
            i <= p.transforms@.len(),
            input_var_models(raw@) =~= tls_input_vars(pipeline_specs(*p).take(i as int)),
        decreases p.transforms@.len() - i as int,
    {
        let mut next = p.transforms[i].transform_kind().input_vars();
        let ghost a = raw@;
        let ghost b = next@;
        raw.append(&mut next);
        proof {
            assert(input_var_models(a + b) =~= input_var_models(a) + input_var_models(b));
            assert(pipeline_specs(*p).take(i as int + 1) =~= pipeline_specs(*p).take(
                i as int,
            ).push(pipeline_specs(*p)[i as int]));
            crate::transforms::lemma_tls_input_vars_snoc(
                pipeline_specs(*p).take(i as int),
                pipeline_specs(*p)[i as int],
            );
        }
        i = i + 1;
    }
    proof {
        assert(pipeline_specs(*p).take(pipeline_specs(*p).len() as int) =~= pipeline_specs(*p));
    }
    raw
}

/// Appends a task's variable and scope header bytes.
fn write_task_header(buf: &mut Vec<u8>, v: &Variable, scope: &Vec<u32>)
    ensures
        final(buf)@ =~= old(buf)@ + variable_bytes(*v) + u64_bytes(scope@.len() as u64)
            + scope_bytes(scope@),
{
    let ghost base = buf@;
    buf.push(v.namespace.rank());
    write_string(buf, &v.name);
    write_u64(buf, scope.len() as u64);
    let ghost c1 = base + variable_bytes(*v) + u64_bytes(scope@.len() as u64);
    proof {
        assert(buf@ =~= c1);
    }
    let mut i: usize = 0;
    while i < scope.len()
        invariant
            i <= scope@.len(),
            buf@ =~= c1 + scope_bytes(scope@.take(i as int)),
        decreases scope@.len() - i as int,
    {
        write_u64(buf, scope[i] as u64);
        proof {
            assert(scope@.take(i as int + 1) =~= scope@.take(i as int).push(scope@[i as int]));
            lemma_scope_bytes_snoc(scope@.take(i as int), scope@[i as int]);
        }
        i = i + 1;
    }
    proof {
        assert(scope@.take(scope@.len() as int) =~= scope@);
    }
}

/// Appends the kind bytes of a URL task.
#[verifier::rlimit(100)]
#[verifier::spinoff_prover]
fn write_kind_data_url(buf: &mut Vec<u8>, d: &DataUrlTask)
    requires
        opt_pipeline_wf(d.pipeline),
    ensures
        final(buf)@ =~= old(buf)@ + seq![1u8] + url_bytes(d.url) + u64_bytes(
            d.batch_size as u64,
        ) + opt_string_tag_bytes(d.format_type) + opt_pipeline_bytes(d.pipeline),
{
    let ghost base = buf@;
    buf.push(1u8);
    match &d.url {
        UrlSpec::Fixed(su) => {
            buf.push(0u8);
            write_string(buf, su);
        },
        UrlSpec::Expr(e) => {
            buf.push(1u8);
            crate::expression::write_expr(buf, e);
        },
    }
    proof {
        assert(buf@ =~= base + seq![1u8] + url_bytes(d.url));
    }
    write_u64(buf, d.batch_size as u64);
    match &d.format_type {
        None => {
            buf.push(0u8);
        },
        Some(f) => {
            buf.push(1u8);
            write_string(buf, f);
        },
    }
    proof {
        assert(buf@ =~= base + seq![1u8] + url_bytes(d.url) + u64_bytes(d.batch_size as u64)
            + opt_string_tag_bytes(d.format_type));
    }
    write_opt_pipeline(buf, &d.pipeline);
}

/// Appends the kind bytes of an inline-values task.
fn write_kind_data_values(buf: &mut Vec<u8>, d: &DataValuesTask)
    requires
        opt_pipeline_wf(d.pipeline),
    ensures
        final(buf)@ =~= old(buf)@ + seq![2u8] + crate::codec::table_bytes(d.values)
            + opt_pipeline_bytes(d.pipeline),
{
    let ghost base = buf@;
    buf.push(2u8);
    crate::codec::write_table(buf, &d.values);
    proof {
        assert(buf@ =~= base + seq![2u8] + crate::codec::table_bytes(d.values));
    }
    write_opt_pipeline(buf, &d.pipeline);
}

/// Appends the kind bytes of a derived-dataset task.
fn write_kind_data_source(buf: &mut Vec<u8>, d: &DataSourceTask)
    requires
        opt_pipeline_wf(d.pipeline),
    ensures
        final(buf)@ =~= old(buf)@ + seq![3u8] + string_bytes(d.source@) + opt_pipeline_bytes(
            d.pipeline,
        ),
{
    let ghost base = buf@;
    buf.push(3u8);
    write_string(buf, &d.source);
    proof {
        assert(buf@ =~= base + seq![3u8] + string_bytes(d.source@));
    }
    write_opt_pipeline(buf, &d.pipeline);
}

/// Appends the full byte form of a task.
#[verifier::rlimit(100)]
#[verifier::spinoff_prover]
pub fn write_task_full(buf: &mut Vec<u8>, t: &Task)
    requires
        task_wf(*t),
    ensures
        final(buf)@ =~= old(buf)@ + task_full_bytes(*t),
{
    proof {
        reveal(task_full_bytes);
    }
    let ghost base = buf@;
    write_task_header(buf, t.variable(), &t.scope);
    let ghost c2 = base + variable_bytes(t.variable->0) + u64_bytes(t.scope@.len() as u64)
        + scope_bytes(t.scope@);
    proof {
        assert(buf@ =~= c2);
    }
    match t.task_kind() {
        TaskKind::Value(val) => {
            buf.push(0u8);
            write_task_value(buf, val);
            proof {
                assert(buf@ =~= base + task_full_bytes(*t));
            }
        },
        TaskKind::DataUrl(d) => {
            write_kind_data_url(buf, d);
            proof {
                assert(buf@ =~= base + task_full_bytes(*t));
            }
        },
        TaskKind::DataValues(d) => {
            write_kind_data_values(buf, d);
            proof {
                assert(buf@ =~= base + task_full_bytes(*t));
            }
        },
        TaskKind::DataSource(d) => {
            write_kind_data_source(buf, d);
            proof {
                assert(buf@ =~= base + task_full_bytes(*t));
            }
        },
    }
}

/// Appends the byte form of an optional pipeline.
fn write_opt_pipeline(buf: &mut Vec<u8>, p: &Option<TransformPipeline>)
    requires
        opt_pipeline_wf(*p),
    ensures
        final(buf)@ =~= old(buf)@ + opt_pipeline_bytes(*p),
{
    match p {
        None => {
            buf.push(0u8);
        },
        Some(pp) => {
            buf.push(1u8);
            pp.write_bytes(buf);
        },
    }
}

/// Appends the identity byte form of a task.
#[verifier::rlimit(100)]
#[verifier::spinoff_prover]
pub fn write_task_id(buf: &mut Vec<u8>, t: &Task)
    requires
        task_wf(*t),
    ensures
        final(buf)@ =~= old(buf)@ + task_id_bytes(*t),
{
    proof {
        reveal(task_id_bytes);
    }
    let is_value = matches!(t.task_kind(), TaskKind::Value(_));
    if !is_value {
        write_task_full(buf, t);
        return ;
    }
    let ghost base = buf@;
    write_task_header(buf, t.variable(), &t.scope);
    let ghost c2 = base + variable_bytes(t.variable->0) + u64_bytes(t.scope@.len() as u64)
        + scope_bytes(t.scope@);
    proof {
        assert(buf@ =~= c2);
    }
    match t.task_kind() {
        TaskKind::Value(val) => {
            buf.push(0u8);
            match val {
                TaskValue::Scalar(_) => {
                    buf.push(0u8);
                },
                TaskValue::Table(_) => {
                    buf.push(1u8);
                },
            }
            proof {
                assert(buf@ =~= base + task_id_bytes(*t));
            }
        },
        _ => {
            proof {
                assert(false);
            }
        },
    }
}

} // verus!
