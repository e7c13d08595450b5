//! Transforms. Each transform kind declares the variables it reads, the
//! auxiliary signals it publishes, whether the server engine can evaluate
//! it, and how it maps column usage through the pipeline (for projection
//! pushdown). The columnar kernels that evaluate transforms are outside
//! collaborators; here live their contracts.

use vstd::prelude::*;

use crate::codec::{string_bytes, strings_bytes, u64_bytes, write_string, write_strings, write_u64, lemma_strings_bytes_snoc};
use crate::column_usage::{clone_names, ColumnUsage, DatasetsColumnUsage, dcu_view, dcu_wf, names_set, usage_view, VlSelectionFields};
use crate::errors::{ErrorKind, Result, VegaFusionError, error_kind};
use crate::expression::{clone_expr, expr_bytes, expr_vars, dedup_seq, Expression, IvModel, write_expr};
use crate::scope::TaskScope;
use crate::values::ScalarValue;
use crate::variable::{ScopedVariable, scoped_var_id, Variable, VariableNamespace};

verus! {

/// An aggregation operation.
#[derive(Debug, Clone, Copy, PartialEq, Eq, Structural)]
pub enum AggregateOpSpec {
    Count,
    Valid,
    Missing,
    Distinct,
    Sum,
    Product,
    Mean,
    Average,
    Variance,
    Variancep,
    Stdev,
    Stdevp,
    Stderr,
    Median,
    Q1,
    Q3,
    Ci0,
    Ci1,
    Min,
    Max,
    Argmin,
    Argmax,
    Values,
}

/// The lowercase name of an aggregation operation.
pub open spec fn agg_op_name(op: AggregateOpSpec) -> Seq<char> {
    match op {
        AggregateOpSpec::Count => "count"@,
        AggregateOpSpec::Valid => "valid"@,
        AggregateOpSpec::Missing => "missing"@,
        AggregateOpSpec::Distinct => "distinct"@,
        AggregateOpSpec::Sum => "sum"@,
        AggregateOpSpec::Product => "product"@,
        AggregateOpSpec::Mean => "mean"@,
        AggregateOpSpec::Average => "average"@,
        AggregateOpSpec::Variance => "variance"@,
        AggregateOpSpec::Variancep => "variancep"@,
        AggregateOpSpec::Stdev => "stdev"@,
        AggregateOpSpec::Stdevp => "stdevp"@,
        AggregateOpSpec::Stderr => "stderr"@,
        AggregateOpSpec::Median => "median"@,
        AggregateOpSpec::Q1 => "q1"@,
        AggregateOpSpec::Q3 => "q3"@,
        AggregateOpSpec::Ci0 => "ci0"@,
        AggregateOpSpec::Ci1 => "ci1"@,
        AggregateOpSpec::Min => "min"@,
        AggregateOpSpec::Max => "max"@,
        AggregateOpSpec::Argmin => "argmin"@,
        AggregateOpSpec::Argmax => "argmax"@,
        AggregateOpSpec::Values => "values"@,
    }
}

/// Whether the server engine supports an aggregation operation.
pub open spec fn agg_op_supported(op: AggregateOpSpec) -> bool {
    match op {
        AggregateOpSpec::Count => true,
        AggregateOpSpec::Valid => true,
        AggregateOpSpec::Missing => true,
        AggregateOpSpec::Distinct => true,
        AggregateOpSpec::Sum => true,
        AggregateOpSpec::Mean => true,
        AggregateOpSpec::Average => true,
        AggregateOpSpec::Min => true,
        AggregateOpSpec::Max => true,
        AggregateOpSpec::Variance => true,
        AggregateOpSpec::Variancep => true,
        AggregateOpSpec::Stdev => true,
        AggregateOpSpec::Stdevp => true,
        _ => false,
    }
}

/// The byte tag of an aggregation operation.
pub open spec fn agg_op_tag(op: AggregateOpSpec) -> u8 {
    match op {
        AggregateOpSpec::Count => 0u8,
        AggregateOpSpec::Valid => 1u8,
        AggregateOpSpec::Missing => 2u8,
        AggregateOpSpec::Distinct => 3u8,
        AggregateOpSpec::Sum => 4u8,
        AggregateOpSpec::Product => 5u8,
        AggregateOpSpec::Mean => 6u8,
        AggregateOpSpec::Average => 7u8,
        AggregateOpSpec::Variance => 8u8,
        AggregateOpSpec::Variancep => 9u8,
        AggregateOpSpec::Stdev => 10u8,
        AggregateOpSpec::Stdevp => 11u8,
        AggregateOpSpec::Stderr => 12u8,
        AggregateOpSpec::Median => 13u8,
        AggregateOpSpec::Q1 => 14u8,
        AggregateOpSpec::Q3 => 15u8,
        AggregateOpSpec::Ci0 => 16u8,
        AggregateOpSpec::Ci1 => 17u8,
        AggregateOpSpec::Min => 18u8,
        AggregateOpSpec::Max => 19u8,
        AggregateOpSpec::Argmin => 20u8,
        AggregateOpSpec::Argmax => 21u8,
        AggregateOpSpec::Values => 22u8,
    }
}

impl AggregateOpSpec {
    /// The operation's lowercase name.
    pub fn name(&self) -> (r: String)
        ensures
            r@ == agg_op_name(*self),
    {
        match self {
            AggregateOpSpec::Count => String::from_str("count"),
            AggregateOpSpec::Valid => String::from_str("valid"),
            AggregateOpSpec::Missing => String::from_str("missing"),
            AggregateOpSpec::Distinct => String::from_str("distinct"),
            AggregateOpSpec::Sum => String::from_str("sum"),
            AggregateOpSpec::Product => String::from_str("product"),
            AggregateOpSpec::Mean => String::from_str("mean"),
            AggregateOpSpec::Average => String::from_str("average"),
            AggregateOpSpec::Variance => String::from_str("variance"),
            AggregateOpSpec::Variancep => String::from_str("variancep"),
            AggregateOpSpec::Stdev => String::from_str("stdev"),
            AggregateOpSpec::Stdevp => String::from_str("stdevp"),
            AggregateOpSpec::Stderr => String::from_str("stderr"),
            AggregateOpSpec::Median => String::from_str("median"),
            AggregateOpSpec::Q1 => String::from_str("q1"),
            AggregateOpSpec::Q3 => String::from_str("q3"),
            AggregateOpSpec::Ci0 => String::from_str("ci0"),
            AggregateOpSpec::Ci1 => String::from_str("ci1"),
            AggregateOpSpec::Min => String::from_str("min"),
            AggregateOpSpec::Max => String::from_str("max"),
            AggregateOpSpec::Argmin => String::from_str("argmin"),
            AggregateOpSpec::Argmax => String::from_str("argmax"),
            AggregateOpSpec::Values => String::from_str("values"),
        }
    }

    /// Whether the server engine supports the operation.
    pub fn supported(&self) -> (r: bool)
        ensures
            r == agg_op_supported(*self),
    {
        matches!(
            self,
            AggregateOpSpec::Count | AggregateOpSpec::Valid | AggregateOpSpec::Missing
                | AggregateOpSpec::Distinct | AggregateOpSpec::Sum | AggregateOpSpec::Mean
                | AggregateOpSpec::Average | AggregateOpSpec::Min | AggregateOpSpec::Max
                | AggregateOpSpec::Variance | AggregateOpSpec::Variancep | AggregateOpSpec::Stdev
                | AggregateOpSpec::Stdevp
        )
    }
}

/// An `extent` transform: publishes the `[min, max]` of a field as a signal.
#[derive(Debug)]
pub struct ExtentTransformSpec {
    pub field: String,
    pub signal: Option<String>,
}

/// A `filter` transform: keeps the rows its predicate accepts.
#[derive(Debug)]
pub struct FilterTransformSpec {
    pub expr: Expression,
}

/// A `formula` transform: appends a computed column.
#[derive(Debug)]
pub struct FormulaTransformSpec {
    pub expr: Expression,
    pub as_: String,
}

/// A `bin` transform: appends bin-boundary columns for a field.
#[derive(Debug)]
pub struct BinTransformSpec {
    pub field: String,
    pub extent: Option<Expression>,
    pub signal: Option<String>,
    pub as_: Vec<String>,
}

/// An `aggregate` transform.
#[derive(Debug)]
pub struct AggregateTransformSpec {
    pub groupby: Vec<String>,
    pub fields: Vec<Option<String>>,
    pub ops: Vec<AggregateOpSpec>,
    pub as_: Vec<Option<String>>,
    pub cross: Option<bool>,
    pub drop: Option<bool>,
}

/// A `collect` transform: sorts by the given fields.
#[derive(Debug)]
pub struct CollectTransformSpec {
    pub fields: Vec<String>,
}

/// A `timeunit` transform.
#[derive(Debug)]
pub struct TimeunitTransformSpec {
    pub field: String,
    pub units: Vec<String>,
    pub signal: Option<String>,
}

/// A `joinaggregate` transform.
#[derive(Debug)]
pub struct JoinAggregateTransformSpec {
    pub groupby: Vec<String>,
    pub fields: Vec<Option<String>>,
    pub ops: Vec<AggregateOpSpec>,
    pub as_: Vec<Option<String>>,
}

/// A `window` transform.
#[derive(Debug)]
pub struct WindowTransformSpec {
    pub groupby: Vec<String>,
    pub ops: Vec<String>,
    pub fields: Vec<Option<String>>,
    pub as_: Vec<Option<String>>,
}

/// A `project` transform: keeps exactly the given columns. The planner
/// appends one to a server pipeline during projection pushdown.
#[derive(Debug)]
pub struct ProjectTransformSpec {
    pub fields: Vec<String>,
}

/// A transform the engine does not know; it forces evaluation on the client.
#[derive(Debug)]
pub struct UnsupportedTransformSpec {
    pub name: String,
}

/// A transform as it appears in a chart specification.
#[derive(Debug)]
pub enum TransformSpec {
    Extent(ExtentTransformSpec),
    Filter(FilterTransformSpec),
    Formula(FormulaTransformSpec),
    Bin(BinTransformSpec),
    Aggregate(AggregateTransformSpec),
    Collect(CollectTransformSpec),
    Timeunit(TimeunitTransformSpec),
    JoinAggregate(JoinAggregateTransformSpec),
    Window(WindowTransformSpec),
    Project(ProjectTransformSpec),
    Unsupported(UnsupportedTransformSpec),
}

impl AggregateTransformSpec {
    /// An aggregate built from a specification's optional fields: absent
    /// operations default to a single count, and absent field and output
    /// lists to empty ones.
    pub fn from_parts(
        groupby: Vec<String>,
        fields: Option<Vec<Option<String>>>,
        ops: Option<Vec<AggregateOpSpec>>,
        names: Option<Vec<Option<String>>>,
        cross: Option<bool>,
        drop: Option<bool>,
    ) -> (r: Self)
        ensures
            r.groupby@ == groupby@,
            r.fields@ == (match fields {
                Some(f) => f@,
                None => Seq::<Option<String>>::empty(),
            }),
            r.ops@ == (match ops {
                Some(o) => o@,
                None => seq![AggregateOpSpec::Count],
            }),
            r.as_@ == (match names {
                Some(a) => a@,
                None => Seq::<Option<String>>::empty(),
            }),
            r.cross == cross,
            r.drop == drop,
    {
        let ops_v: Vec<AggregateOpSpec> = match ops {
            Some(o) => o,
            None => {
                let mut v: Vec<AggregateOpSpec> = Vec::new();
                v.push(AggregateOpSpec::Count);
                proof {
                    assert(v@ =~= seq![AggregateOpSpec::Count]);
                }
                v
            },
        };
        let fields_v: Vec<Option<String>> = match fields {
            Some(f) => f,
            None => Vec::new(),
        };
        let as_v: Vec<Option<String>> = match names {
            Some(a) => a,
            None => Vec::new(),
        };
        proof {
            if fields is None {
                assert(fields_v@ =~= Seq::<Option<String>>::empty());
            }
            if names is None {
                assert(as_v@ =~= Seq::<Option<String>>::empty());
            }
        }
        AggregateTransformSpec {
            groupby,
            fields: fields_v,
            ops: ops_v,
            as_: as_v,
            cross,
            drop,
        }
    }
}

/// Whether an aggregate transform is supported by the server engine: every
/// operation supported, no cross aggregation, and no `drop: false`.
pub open spec fn agg_supported(t: AggregateTransformSpec) -> bool {
    &&& forall|i: int| 0 <= i < t.ops@.len() ==> agg_op_supported(#[trigger] t.ops@[i])
    &&& t.cross != Some(true)
    &&& t.drop != Some(false)
}

/// Whether the server engine can evaluate a transform end-to-end.
pub open spec fn transform_supported(t: TransformSpec) -> bool {
    match t {
        TransformSpec::Aggregate(a) => agg_supported(a),
        TransformSpec::Unsupported(_) => false,
        _ => true,
    }
}

/// The auxiliary signals a transform publishes.
pub open spec fn transform_output_signals(t: TransformSpec) -> Seq<Seq<char>> {
    match t {
        TransformSpec::Extent(x) => match x.signal {
            Some(s) => seq![s@],
            None => Seq::empty(),
        },
        TransformSpec::Bin(b) => match b.signal {
            Some(s) => seq![s@],
            None => Seq::empty(),
        },
        _ => Seq::empty(),
    }
}

/// The variables a transform reads: the reads of its expressions, first
/// occurrence of each.
pub open spec fn transform_input_vars(t: TransformSpec) -> Seq<IvModel> {
    match t {
        TransformSpec::Filter(f) => dedup_seq(expr_vars(f.expr)),
        TransformSpec::Formula(f) => dedup_seq(expr_vars(f.expr)),
        TransformSpec::Bin(b) => match b.extent {
            Some(e) => dedup_seq(expr_vars(e)),
            None => Seq::empty(),
        },
        _ => Seq::empty(),
    }
}

impl TransformSpec {
    /// Whether the server engine can evaluate this transform.
    pub fn supported(&self) -> (r: bool)
        ensures
            r == transform_supported(*self),
    {
        match self {
            TransformSpec::Aggregate(a) => {
                let mut i: usize = 0;
                let mut ok = true;
                while i < a.ops.len()
                    invariant
                        i <= a.ops@.len(),
                        ok == forall|j: int|
                            0 <= j < i as int ==> agg_op_supported(#[trigger] a.ops@[j]),
                    decreases a.ops@.len() - i as int,
                {
                    if !a.ops[i].supported() {
                        ok = false;
                    }
                    i = i + 1;
                }
                let cross_ok = !matches!(a.cross, Some(true));
                let drop_ok = !matches!(a.drop, Some(false));
                ok && cross_ok && drop_ok
            },
            TransformSpec::Unsupported(_) => false,
            _ => true,
        }
    }

    /// The auxiliary signals this transform publishes.
    pub fn output_signals(&self) -> (r: Vec<String>)
        ensures
            r@.len() == transform_output_signals(*self).len(),
            forall|i: int|
                0 <= i < r@.len() ==> r@[i]@ == transform_output_signals(*self)[i],
    {
        let mut out: Vec<String> = Vec::new();
        match self {
            TransformSpec::Extent(x) => {
                if let Some(s) = &x.signal {
                    out.push(s.clone());
                }
            },
            TransformSpec::Bin(b) => {
                if let Some(s) = &b.signal {
                    out.push(s.clone());
                }
            },
            _ => {},
        }
        out
    }

    /// The variables this transform reads.
    pub fn input_vars(&self) -> (r: Vec<crate::task::InputVariable>)
        ensures
            crate::task::input_var_models(r@) == transform_input_vars(*self),
    {
        match self {
            TransformSpec::Filter(f) => f.expr.input_vars(),
            TransformSpec::Formula(f) => f.expr.input_vars(),
            TransformSpec::Bin(b) => match &b.extent {
                Some(e) => e.input_vars(),
                None => Vec::new(),
            },
            _ => {
                let r: Vec<crate::task::InputVariable> = Vec::new();
                proof {
                    assert(crate::task::input_var_models(r@) =~= Seq::<IvModel>::empty());
                }
                r
            },
        }
    }
}

/// Copies an optional string, preserving the value.
pub fn clone_opt_string(v: &Option<String>) -> (r: Option<String>)
    ensures
        r == *v,
{
    match v {
        Some(x) => Some(x.clone()),
        None => None,
    }
}

/// Copies a list of optional strings, preserving the values.
pub fn clone_opt_strings(v: &Vec<Option<String>>) -> (r: Vec<Option<String>>)
    ensures
        r@ == v@,
{
    let mut r: Vec<Option<String>> = Vec::new();
    let mut i: usize = 0;
    while i < v.len()
        invariant
            i <= v@.len(),
            r@ =~= v@.take(i as int),
        decreases v@.len() - i as int,
    {
        r.push(clone_opt_string(&v[i]));
        i = i + 1;
    }
    proof {
        assert(r@ =~= v@);
    }
    r
}

/// Copies a list of aggregation operations.
pub fn clone_ops(v: &Vec<AggregateOpSpec>) -> (r: Vec<AggregateOpSpec>)
    ensures
        r@ == v@,
{
    let mut r: Vec<AggregateOpSpec> = Vec::new();
    let mut i: usize = 0;
    while i < v.len()
        invariant
            i <= v@.len(),
            r@ =~= v@.take(i as int),
        decreases v@.len() - i as int,
    {
        r.push(v[i]);
        i = i + 1;
    }
    proof {
        assert(r@ =~= v@);
    }
    r
}

/// Copies an optional expression, preserving its reads, updates and bytes.
pub fn clone_opt_expr(v: &Option<Expression>) -> (r: Option<Expression>)
    ensures
        r is Some == v is Some,
        v matches Some(e) ==> {
            let re = r->0;
            &&& expr_vars(re) == expr_vars(*e)
            &&& crate::expression::expr_update_vars(re) == crate::expression::expr_update_vars(*e)
            &&& expr_bytes(re) == expr_bytes(*e)
        },
{
    match v {
        Some(x) => Some(clone_expr(x)),
        None => None,
    }
}

impl Clone for ExtentTransformSpec {
    fn clone(&self) -> (r: Self)
        ensures
            r == *self,
    {
        ExtentTransformSpec { field: self.field.clone(), signal: clone_opt_string(&self.signal) }
    }
}

impl Clone for FilterTransformSpec {
    fn clone(&self) -> (r: Self)
        ensures
            expr_vars(r.expr) == expr_vars(self.expr),
            crate::expression::expr_update_vars(r.expr) == crate::expression::expr_update_vars(
                self.expr,
            ),
            expr_bytes(r.expr) == expr_bytes(self.expr),
    {
        FilterTransformSpec { expr: clone_expr(&self.expr) }
    }
}

impl Clone for FormulaTransformSpec {
    fn clone(&self) -> (r: Self)
        ensures
            expr_vars(r.expr) == expr_vars(self.expr),
            crate::expression::expr_update_vars(r.expr) == crate::expression::expr_update_vars(
                self.expr,
            ),
            expr_bytes(r.expr) == expr_bytes(self.expr),
            r.as_ == self.as_,
    {
        FormulaTransformSpec { expr: clone_expr(&self.expr), as_: self.as_.clone() }
    }
}

impl Clone for BinTransformSpec {
    fn clone(&self) -> (r: Self)
        ensures
            r.field == self.field,
            r.signal == self.signal,
            r.as_@ == self.as_@,
            r.extent is Some == self.extent is Some,
            self.extent matches Some(e) ==> {
                let re = r.extent->0;
                &&& expr_vars(re) == expr_vars(e)
                &&& crate::expression::expr_update_vars(re)
                    == crate::expression::expr_update_vars(e)
                &&& expr_bytes(re) == expr_bytes(e)
            },
    {
        BinTransformSpec {
            field: self.field.clone(),
            extent: clone_opt_expr(&self.extent),
            signal: clone_opt_string(&self.signal),
            as_: clone_names(&self.as_),
        }
    }
}

impl Clone for AggregateTransformSpec {
    fn clone(&self) -> (r: Self)
        ensures
            r.groupby@ == self.groupby@,
            r.fields@ == self.fields@,
            r.ops@ == self.ops@,
            r.as_@ == self.as_@,
            r.cross == self.cross,
            r.drop == self.drop,
    {
        AggregateTransformSpec {
            groupby: clone_names(&self.groupby),
            fields: clone_opt_strings(&self.fields),
            ops: clone_ops(&self.ops),
            as_: clone_opt_strings(&self.as_),
            cross: self.cross,
            drop: self.drop,
        }
    }
}

impl Clone for CollectTransformSpec {
    fn clone(&self) -> (r: Self)
        ensures
            r.fields@ == self.fields@,
    {
        CollectTransformSpec { fields: clone_names(&self.fields) }
    }
}

impl Clone for TimeunitTransformSpec {
    fn clone(&self) -> (r: Self)
        ensures
            r.field == self.field,
            r.units@ == self.units@,
            r.signal == self.signal,
    {
        TimeunitTransformSpec {
            field: self.field.clone(),
            units: clone_names(&self.units),
            signal: clone_opt_string(&self.signal),
        }
    }
}

impl Clone for JoinAggregateTransformSpec {
    fn clone(&self) -> (r: Self)
        ensures
            r.groupby@ == self.groupby@,
            r.fields@ == self.fields@,
            r.ops@ == self.ops@,
            r.as_@ == self.as_@,
    {
        JoinAggregateTransformSpec {
            groupby: clone_names(&self.groupby),
            fields: clone_opt_strings(&self.fields),
            ops: clone_ops(&self.ops),
            as_: clone_opt_strings(&self.as_),
        }
    }
}

impl Clone for WindowTransformSpec {
    fn clone(&self) -> (r: Self)
        ensures
            r.groupby@ == self.groupby@,
            r.ops@ == self.ops@,
            r.fields@ == self.fields@,
            r.as_@ == self.as_@,
    {
        WindowTransformSpec {
            groupby: clone_names(&self.groupby),
            ops: clone_names(&self.ops),
            fields: clone_opt_strings(&self.fields),
            as_: clone_opt_strings(&self.as_),
        }
    }
}

impl Clone for ProjectTransformSpec {
    fn clone(&self) -> (r: Self)
        ensures
            r.fields@ == self.fields@,
    {
        ProjectTransformSpec { fields: clone_names(&self.fields) }
    }
}

impl Clone for UnsupportedTransformSpec {
    fn clone(&self) -> (r: Self)
        ensures
            r == *self,
    {
        UnsupportedTransformSpec { name: self.name.clone() }
    }
}

/// Whether two transforms carry the same data: fieldwise equality, with
/// expressions compared by reads, updates and byte form.
pub open spec fn transforms_match(a: TransformSpec, b: TransformSpec) -> bool {
    match (a, b) {
        (TransformSpec::Extent(x), TransformSpec::Extent(y)) => x == y,
        (TransformSpec::Filter(x), TransformSpec::Filter(y)) => {
            &&& expr_vars(x.expr) == expr_vars(y.expr)
            &&& crate::expression::expr_update_vars(x.expr)
                == crate::expression::expr_update_vars(y.expr)
            &&& expr_bytes(x.expr) == expr_bytes(y.expr)
        },
        (TransformSpec::Formula(x), TransformSpec::Formula(y)) => {
            &&& expr_vars(x.expr) == expr_vars(y.expr)
            &&& crate::expression::expr_update_vars(x.expr)
                == crate::expression::expr_update_vars(y.expr)
            &&& expr_bytes(x.expr) == expr_bytes(y.expr)
            &&& x.as_ == y.as_
        },
        (TransformSpec::Bin(x), TransformSpec::Bin(y)) => {
            &&& x.field == y.field
            &&& x.signal == y.signal
            &&& x.as_@ == y.as_@
            &&& x.extent is Some == y.extent is Some
            &&& x.extent matches Some(e) ==> {
                let ye = y.extent->0;
                &&& expr_vars(e) == expr_vars(ye)
                &&& crate::expression::expr_update_vars(e)
                    == crate::expression::expr_update_vars(ye)
                &&& expr_bytes(e) == expr_bytes(ye)
            }
        },
        (TransformSpec::Aggregate(x), TransformSpec::Aggregate(y)) => {
            &&& x.groupby@ == y.groupby@
            &&& x.fields@ == y.fields@
            &&& x.ops@ == y.ops@
            &&& x.as_@ == y.as_@
            &&& x.cross == y.cross
            &&& x.drop == y.drop
        },
        (TransformSpec::Collect(x), TransformSpec::Collect(y)) => x.fields@ == y.fields@,
        (TransformSpec::Timeunit(x), TransformSpec::Timeunit(y)) => {
            &&& x.field == y.field
            &&& x.units@ == y.units@
            &&& x.signal == y.signal
        },
        (TransformSpec::JoinAggregate(x), TransformSpec::JoinAggregate(y)) => {
            &&& x.groupby@ == y.groupby@
            &&& x.fields@ == y.fields@
            &&& x.ops@ == y.ops@
            &&& x.as_@ == y.as_@
        },
        (TransformSpec::Window(x), TransformSpec::Window(y)) => {
            &&& x.groupby@ == y.groupby@
            &&& x.ops@ == y.ops@
            &&& x.fields@ == y.fields@
            &&& x.as_@ == y.as_@
        },
        (TransformSpec::Project(x), TransformSpec::Project(y)) => x.fields@ == y.fields@,
        (TransformSpec::Unsupported(x), TransformSpec::Unsupported(y)) => x == y,
        _ => false,
    }
}

impl Clone for TransformSpec {
    fn clone(&self) -> (r: Self)
        ensures
            transforms_match(r, *self),
    {
        match self {
            TransformSpec::Extent(x) => TransformSpec::Extent(x.clone()),
            TransformSpec::Filter(x) => TransformSpec::Filter(x.clone()),
            TransformSpec::Formula(x) => TransformSpec::Formula(x.clone()),
            TransformSpec::Bin(x) => TransformSpec::Bin(x.clone()),
            TransformSpec::Aggregate(x) => TransformSpec::Aggregate(x.clone()),
            TransformSpec::Collect(x) => TransformSpec::Collect(x.clone()),
            TransformSpec::Timeunit(x) => TransformSpec::Timeunit(x.clone()),
            TransformSpec::JoinAggregate(x) => TransformSpec::JoinAggregate(x.clone()),
            TransformSpec::Window(x) => TransformSpec::Window(x.clone()),
            TransformSpec::Project(x) => TransformSpec::Project(x.clone()),
            TransformSpec::Unsupported(x) => TransformSpec::Unsupported(x.clone()),
        }
    }
}

/// Matching transforms are interchangeable: same support, same outputs,
/// same reads.
pub proof fn lemma_transforms_match(a: TransformSpec, b: TransformSpec)
    requires
        transforms_match(a, b),
    ensures
        transform_supported(a) == transform_supported(b),
        transform_output_signals(a) == transform_output_signals(b),
        transform_input_vars(a) == transform_input_vars(b),
{
    match (a, b) {
        (TransformSpec::Extent(x), TransformSpec::Extent(y)) => {
            assert(transform_output_signals(a) =~= transform_output_signals(b));
        },
        (TransformSpec::Bin(x), TransformSpec::Bin(y)) => {
            assert(transform_output_signals(a) =~= transform_output_signals(b));
        },
        _ => {
            assert(transform_output_signals(a) =~= transform_output_signals(b));
        },
    }
}

/// The byte form of an optional string.
pub open spec fn opt_string_bytes(o: Option<String>) -> Seq<u8> {
    match o {
        None => seq![0u8],
        Some(s) => seq![1u8] + string_bytes(s@),
    }
}

/// The byte forms of a list of optional strings, concatenated.
pub open spec fn opt_strings_bytes(items: Seq<Option<String>>) -> Seq<u8>
    decreases items.len(),
{
    if items.len() == 0 {
        Seq::empty()
    } else {
        opt_string_bytes(items[0]) + opt_strings_bytes(items.subrange(1, items.len() as int))
    }
}

/// Snoc form of `opt_strings_bytes`.
#[verifier::rlimit(80)]
pub proof fn lemma_opt_strings_bytes_snoc(s: Seq<Option<String>>, x: Option<String>)
    ensures
        opt_strings_bytes(s.push(x)) == opt_strings_bytes(s) + opt_string_bytes(x),
    decreases s.len(),
{
    let sx = s.push(x);
    let xb = opt_string_bytes(x);
    if s.len() == 0 {
        assert(sx.subrange(1, sx.len() as int) =~= Seq::<Option<String>>::empty());
        assert(opt_strings_bytes(sx) == xb + opt_strings_bytes(Seq::<Option<String>>::empty()));
        assert(xb + Seq::<u8>::empty() =~= xb);
        assert(Seq::<u8>::empty() + xb =~= xb);
    } else {
        let tail = s.subrange(1, s.len() as int);
        let h = opt_string_bytes(s[0]);
        assert(sx[0] == s[0]);
        assert(sx.subrange(1, sx.len() as int) =~= tail.push(x));
        lemma_opt_strings_bytes_snoc(tail, x);
        assert(opt_strings_bytes(sx) == h + (opt_strings_bytes(tail) + xb));
        assert(h + (opt_strings_bytes(tail) + xb) =~= (h + opt_strings_bytes(tail)) + xb);
        assert(opt_strings_bytes(s) == h + opt_strings_bytes(tail));
    }
}

/// The byte form of a list of aggregation operations: count, then tags.
pub open spec fn ops_bytes(items: Seq<AggregateOpSpec>) -> Seq<u8> {
    u64_bytes(items.len() as u64) + Seq::new(items.len(), |i: int| agg_op_tag(items[i]))
}

/// The byte form of an optional expression.
pub open spec fn opt_expr_bytes(o: Option<Expression>) -> Seq<u8> {
    match o {
        None => seq![0u8],
        Some(e) => seq![1u8] + expr_bytes(e),
    }
}

/// Appends the byte form of an optional string.
pub fn write_opt_string(buf: &mut Vec<u8>, o: &Option<String>)
    ensures
        final(buf)@ =~= old(buf)@ + opt_string_bytes(*o),
{
    match o {
        None => {
            buf.push(0u8);
        },
        Some(st) => {
            buf.push(1u8);
            write_string(buf, st);
        },
    }
}

/// Appends the byte forms of a list of optional strings, with a count.
pub fn write_opt_strings(buf: &mut Vec<u8>, items: &Vec<Option<String>>)
    ensures
        final(buf)@ =~= old(buf)@ + u64_bytes(items@.len() as u64) + opt_strings_bytes(items@),
{
    write_u64(buf, items.len() as u64);
    let ghost mid = buf@;
    let mut i: usize = 0;
    while i < items.len()
        invariant
            i <= items@.len(),
            buf@ =~= mid + opt_strings_bytes(items@.take(i as int)),
        decreases items@.len() - i as int,
    {
        write_opt_string(buf, &items[i]);
        proof {
            assert(items@.take(i as int + 1) =~= items@.take(i as int).push(items@[i as int]));
            lemma_opt_strings_bytes_snoc(items@.take(i as int), items@[i as int]);
        }
        i = i + 1;
    }
    proof {
        assert(items@.take(items@.len() as int) =~= items@);
    }
}

/// Appends the byte form of a list of aggregation operations.
pub fn write_ops(buf: &mut Vec<u8>, items: &Vec<AggregateOpSpec>)
    ensures
        final(buf)@ =~= old(buf)@ + ops_bytes(items@),
{
    write_u64(buf, items.len() as u64);
    let ghost mid = buf@;
    let mut i: usize = 0;
    while i < items.len()
        invariant
            i <= items@.len(),
            buf@ =~= mid + Seq::new(i as nat, |j: int| agg_op_tag(items@[j])),
        decreases items@.len() - i as int,
    {
        let tag: u8 = match items[i] {
            AggregateOpSpec::Count => 0u8,
            AggregateOpSpec::Valid => 1u8,
            AggregateOpSpec::Missing => 2u8,
            AggregateOpSpec::Distinct => 3u8,
            AggregateOpSpec::Sum => 4u8,
            AggregateOpSpec::Product => 5u8,
            AggregateOpSpec::Mean => 6u8,
            AggregateOpSpec::Average => 7u8,
            AggregateOpSpec::Variance => 8u8,
            AggregateOpSpec::Variancep => 9u8,
            AggregateOpSpec::Stdev => 10u8,
            AggregateOpSpec::Stdevp => 11u8,
            AggregateOpSpec::Stderr => 12u8,
            AggregateOpSpec::Median => 13u8,
            AggregateOpSpec::Q1 => 14u8,
            AggregateOpSpec::Q3 => 15u8,
            AggregateOpSpec::Ci0 => 16u8,
            AggregateOpSpec::Ci1 => 17u8,
            AggregateOpSpec::Min => 18u8,
            AggregateOpSpec::Max => 19u8,
            AggregateOpSpec::Argmin => 20u8,
            AggregateOpSpec::Argmax => 21u8,
            AggregateOpSpec::Values => 22u8,
        };
        buf.push(tag);
        proof {
            assert(Seq::new(i as nat + 1, |j: int| agg_op_tag(items@[j])) =~= Seq::new(
                i as nat,
                |j: int| agg_op_tag(items@[j]),
            ).push(agg_op_tag(items@[i as int])));
        }
        i = i + 1;
    }
    proof {
        assert(Seq::new(items@.len(), |j: int| agg_op_tag(items@[j])) =~= Seq::new(
            items@.len() as nat,
            |j: int| agg_op_tag(items@[j]),
        ));
    }
}

/// Appends the byte form of an optional expression.
pub fn write_opt_expr(buf: &mut Vec<u8>, o: &Option<Expression>)
    ensures
        final(buf)@ =~= old(buf)@ + opt_expr_bytes(*o),
{
    match o {
        None => {
            buf.push(0u8);
        },
        Some(e) => {
            buf.push(1u8);
            write_expr(buf, e);
        },
    }
}

/// The byte form of a transform: a tag, then its fields in order.
pub open spec fn transform_bytes(t: TransformSpec) -> Seq<u8> {
    match t {
        TransformSpec::Extent(x) => seq![0u8] + string_bytes(x.field@) + opt_string_bytes(
            x.signal,
        ),
        TransformSpec::Filter(x) => seq![1u8] + expr_bytes(x.expr),
        TransformSpec::Formula(x) => seq![2u8] + expr_bytes(x.expr) + string_bytes(x.as_@),
        TransformSpec::Bin(x) => seq![3u8] + string_bytes(x.field@) + opt_expr_bytes(x.extent)
            + opt_string_bytes(x.signal) + u64_bytes(x.as_@.len() as u64) + strings_bytes(x.as_@),
        TransformSpec::Aggregate(x) => seq![4u8] + u64_bytes(x.groupby@.len() as u64)
            + strings_bytes(x.groupby@) + u64_bytes(x.fields@.len() as u64) + opt_strings_bytes(
            x.fields@,
        ) + ops_bytes(x.ops@) + u64_bytes(x.as_@.len() as u64) + opt_strings_bytes(x.as_@) + seq![
            match x.cross {
                Some(true) => 2u8,
                Some(false) => 1u8,
                None => 0u8,
            },
            match x.drop {
                Some(true) => 2u8,
                Some(false) => 1u8,
                None => 0u8,
            },
        ],
        TransformSpec::Collect(x) => seq![5u8] + u64_bytes(x.fields@.len() as u64)
            + strings_bytes(x.fields@),
        TransformSpec::Timeunit(x) => seq![6u8] + string_bytes(x.field@) + u64_bytes(
            x.units@.len() as u64,
        ) + strings_bytes(x.units@) + opt_string_bytes(x.signal),
        TransformSpec::JoinAggregate(x) => seq![7u8] + u64_bytes(x.groupby@.len() as u64)
            + strings_bytes(x.groupby@) + u64_bytes(x.fields@.len() as u64) + opt_strings_bytes(
            x.fields@,
        ) + ops_bytes(x.ops@) + u64_bytes(x.as_@.len() as u64) + opt_strings_bytes(x.as_@),
        TransformSpec::Window(x) => seq![8u8] + u64_bytes(x.groupby@.len() as u64)
            + strings_bytes(x.groupby@) + u64_bytes(x.ops@.len() as u64) + strings_bytes(x.ops@)
            + u64_bytes(x.fields@.len() as u64) + opt_strings_bytes(x.fields@) + u64_bytes(
            x.as_@.len() as u64,
        ) + opt_strings_bytes(x.as_@),
        TransformSpec::Project(x) => seq![9u8] + u64_bytes(x.fields@.len() as u64)
            + strings_bytes(x.fields@),
        TransformSpec::Unsupported(x) => seq![10u8] + string_bytes(x.name@),
    }
}

/// Appends the byte form of a transform.
#[verifier::rlimit(100)]
#[verifier::spinoff_prover]
pub fn write_transform(buf: &mut Vec<u8>, t: &TransformSpec)
    ensures
        final(buf)@ =~= old(buf)@ + transform_bytes(*t),
{
    match t {
        TransformSpec::Extent(x) => {
            buf.push(0u8);
            write_string(buf, &x.field);
            write_opt_string(buf, &x.signal);
        },
        TransformSpec::Filter(x) => {
            buf.push(1u8);
            write_expr(buf, &x.expr);
        },
        TransformSpec::Formula(x) => {
            buf.push(2u8);
            write_expr(buf, &x.expr);
            write_string(buf, &x.as_);
        },
        TransformSpec::Bin(x) => {
            buf.push(3u8);
            write_string(buf, &x.field);
            write_opt_expr(buf, &x.extent);
            write_opt_string(buf, &x.signal);
            write_strings(buf, &x.as_);
        },
        TransformSpec::Aggregate(x) => {
            buf.push(4u8);
            write_strings(buf, &x.groupby);
            write_opt_strings(buf, &x.fields);
            write_ops(buf, &x.ops);
            write_opt_strings(buf, &x.as_);
            buf.push(
                match x.cross {
                    Some(true) => 2u8,
                    Some(false) => 1u8,
                    None => 0u8,
                },
            );
            buf.push(
                match x.drop {
                    Some(true) => 2u8,
                    Some(false) => 1u8,
                    None => 0u8,
                },
            );
        },
        TransformSpec::Collect(x) => {
            buf.push(5u8);
            write_strings(buf, &x.fields);
        },
        TransformSpec::Timeunit(x) => {
            buf.push(6u8);
            write_string(buf, &x.field);
            write_strings(buf, &x.units);
            write_opt_string(buf, &x.signal);
        },
        TransformSpec::JoinAggregate(x) => {
            buf.push(7u8);
            write_strings(buf, &x.groupby);
            write_opt_strings(buf, &x.fields);
            write_ops(buf, &x.ops);
            write_opt_strings(buf, &x.as_);
        },
        TransformSpec::Window(x) => {
            buf.push(8u8);
            write_strings(buf, &x.groupby);
            write_strings(buf, &x.ops);
            write_opt_strings(buf, &x.fields);
            write_opt_strings(buf, &x.as_);
        },
        TransformSpec::Project(x) => {
            buf.push(9u8);
            write_strings(buf, &x.fields);
        },
        TransformSpec::Unsupported(x) => {
            buf.push(10u8);
            write_string(buf, &x.name);
        },
    }
}

/// Matching transforms have equal byte forms.
pub proof fn lemma_transforms_match_bytes(a: TransformSpec, b: TransformSpec)
    requires
        transforms_match(a, b),
    ensures
        transform_bytes(a) == transform_bytes(b),
{
}

/// The names among a list of optional names.
pub open spec fn opt_names_set(s: Seq<Option<String>>) -> Set<Seq<char>> {
    Set::new(
        |n: Seq<char>| exists|i: int| 0 <= i < s.len() && ((#[trigger] s[i]) matches Some(f) && f@ == n),
    )
}

/// The produced columns of an aggregate transform: known exactly when the
/// output names are given one-for-one for its operations.
pub open spec fn agg_produced(x: AggregateTransformSpec) -> Option<Set<Seq<char>>> {
    if x.as_@.len() == x.ops@.len() && (forall|i: int|
        0 <= i < x.as_@.len() ==> (#[trigger] x.as_@[i]) is Some) {
        Some(opt_names_set(x.as_@))
    } else {
        None
    }
}

/// How a transform maps column usage: the columns of the upstream dataset it
/// reads, and what downstream consumers see.
pub enum TcModel {
    PassThrough(Set<Seq<char>>, Option<Set<Seq<char>>>),
    Overwrite(Set<Seq<char>>, Option<Set<Seq<char>>>),
    Unknown,
}

/// The column behavior of each transform kind. Transforms that evaluate
/// expressions against the row report unknown usage, which disables
/// projection pushdown across them.
pub open spec fn transform_columns_model(t: TransformSpec) -> TcModel {
    match t {
        TransformSpec::Extent(x) => TcModel::PassThrough(
            Set::empty().insert(x.field@),
            Some(Set::empty()),
        ),
        TransformSpec::Collect(x) => TcModel::PassThrough(
            names_set(x.fields@),
            Some(Set::empty()),
        ),
        TransformSpec::Bin(x) => TcModel::PassThrough(
            Set::empty().insert(x.field@),
            Some(
                if x.as_@.len() > 0 {
                    names_set(x.as_@)
                } else {
                    Set::empty().insert("bin0"@).insert("bin1"@)
                },
            ),
        ),
        TransformSpec::Aggregate(x) => TcModel::Overwrite(
            names_set(x.groupby@).union(opt_names_set(x.fields@)),
            agg_produced(x),
        ),
        TransformSpec::Project(x) => TcModel::Overwrite(
            names_set(x.fields@),
            Some(names_set(x.fields@)),
        ),
        _ => TcModel::Unknown,
    }
}

/// The result of `transform_columns`: how this transform passes column
/// usage through the pipeline.
#[derive(Debug)]
pub enum TransformColumns {
    PassThrough { usage: DatasetsColumnUsage, produced: ColumnUsage },
    Overwrite { usage: DatasetsColumnUsage, produced: ColumnUsage },
    Unknown,
}

/// What a `TransformColumns` value must say, given the transform's column
/// model and the upstream dataset's identity.
pub open spec fn tc_matches(
    r: TransformColumns,
    m: TcModel,
    key: crate::column_usage::SvId,
) -> bool {
    match m {
        TcModel::Unknown => r is Unknown,
        TcModel::PassThrough(u, p) => {
            &&& r matches TransformColumns::PassThrough { usage, produced }
            &&& dcu_wf(usage)
            &&& dcu_view(usage).dom() == Set::empty().insert(key)
            &&& dcu_view(usage)[key] == Some(u)
            &&& usage_view(produced) == p
        },
        TcModel::Overwrite(u, p) => {
            &&& r matches TransformColumns::Overwrite { usage, produced }
            &&& dcu_wf(usage)
            &&& dcu_view(usage).dom() == Set::empty().insert(key)
            &&& dcu_view(usage)[key] == Some(u)
            &&& usage_view(produced) == p
        },
    }
}

/// Records `cols` as the usage of the single dataset `dv`.
fn usage_of(dv: &ScopedVariable, cols: ColumnUsage) -> (r: DatasetsColumnUsage)
    ensures
        dcu_wf(r),
        dcu_view(r).dom() == Set::empty().insert(scoped_var_id(*dv)),
        dcu_view(r)[scoped_var_id(*dv)] == usage_view(cols),
{
    let e = DatasetsColumnUsage::empty();
    let r = e.with_column_usage(dv, &cols);
    proof {
        assert(dcu_view(r).dom() =~= Set::empty().insert(scoped_var_id(*dv)));
        assert(dcu_view(r).dom().contains(scoped_var_id(*dv)));
        match usage_view(cols) {
            Some(cs) => {
                assert(Set::<Seq<char>>::empty().union(cs) =~= cs);
            },
            None => {},
        }
    }
    r
}

impl TransformSpec {
    /// How this transform maps column usage of the upstream dataset
    /// `datum_var`. With no upstream dataset the behavior is unknown.
    pub fn transform_columns(
        &self,
        datum_var: &Option<ScopedVariable>,
        usage_scope: &[u32],
        task_scope: &TaskScope,
        vl_selection_fields: &VlSelectionFields,
    ) -> (r: TransformColumns)
        ensures
            match datum_var {
                None => r is Unknown,
                Some(dv) => tc_matches(r, transform_columns_model(*self), scoped_var_id(*dv)),
            },
    {
        let dv = match datum_var {
            Some(dv) => dv,
            None => {
                return TransformColumns::Unknown;
            },
        };
        match self {
            TransformSpec::Extent(x) => {
                let mut one: Vec<String> = Vec::new();
                one.push(x.field.clone());
                let cols = ColumnUsage::Known(one);
                proof {
                    assert(usage_view(cols)->0 =~= Set::empty().insert(x.field@)) by {
                        assert(cols->Known_0@[0]@ == x.field@);
                        assert(crate::scope::contains_name(cols->Known_0@, x.field@));
                        assert forall|n: Seq<char>|
                            crate::scope::contains_name(cols->Known_0@, n) implies n == x.field@
                        by {
                            let i = choose|i: int|
                                0 <= i < cols->Known_0@.len() && cols->Known_0@[i]@ == n;
                        }
                    }
                }
                TransformColumns::PassThrough {
                    usage: usage_of(dv, cols),
                    produced: ColumnUsage::empty(),
                }
            },
            TransformSpec::Collect(x) => {
                let cols = ColumnUsage::Known(clone_names(&x.fields));
                TransformColumns::PassThrough {
                    usage: usage_of(dv, cols),
                    produced: ColumnUsage::empty(),
                }
            },
            TransformSpec::Bin(x) => {
                let mut one: Vec<String> = Vec::new();
                one.push(x.field.clone());
                let cols = ColumnUsage::Known(one);
                proof {
                    assert(usage_view(cols)->0 =~= Set::empty().insert(x.field@)) by {
                        assert(cols->Known_0@[0]@ == x.field@);
                        assert(crate::scope::contains_name(cols->Known_0@, x.field@));
                        assert forall|n: Seq<char>|
                            crate::scope::contains_name(cols->Known_0@, n) implies n == x.field@
                        by {
                            let i = choose|i: int|
                                0 <= i < cols->Known_0@.len() && cols->Known_0@[i]@ == n;
                        }
                    }
                }
                let produced = if x.as_.len() > 0 {
                    ColumnUsage::Known(clone_names(&x.as_))
                } else {
                    let mut d: Vec<String> = Vec::new();
                    d.push(String::from_str("bin0"));
                    d.push(String::from_str("bin1"));
                    let p = ColumnUsage::Known(d);
                    proof {
                        assert(usage_view(p)->0 =~= Set::empty().insert("bin0"@).insert(
                            "bin1"@,
                        )) by {
                            assert(p->Known_0@[0]@ == "bin0"@);
                            assert(p->Known_0@[1]@ == "bin1"@);
                            assert(crate::scope::contains_name(p->Known_0@, "bin0"@));
                            assert(crate::scope::contains_name(p->Known_0@, "bin1"@));
                            assert forall|n: Seq<char>|
                                crate::scope::contains_name(p->Known_0@, n) implies (n == "bin0"@
                                || n == "bin1"@) by {
                                let i = choose|i: int|
                                    0 <= i < p->Known_0@.len() && p->Known_0@[i]@ == n;
                            }
                        }
                    }
                    p
                };
                TransformColumns::PassThrough { usage: usage_of(dv, cols), produced }
            },
            TransformSpec::Aggregate(x) => {
                // used columns: the grouping keys and the aggregated fields
                let mut used = clone_names(&x.groupby);
                let ghost gb = used@;
                let mut i: usize = 0;
                while i < x.fields.len()
                    invariant
                        i <= x.fields@.len(),
                        gb == x.groupby@,
                        names_set(used@) =~= names_set(x.groupby@).union(
                            opt_names_set(x.fields@.take(i as int)),
                        ),
                    decreases x.fields@.len() - i as int,
                {
                    let ghost pre = used@;
                    if let Some(f) = &x.fields[i] {
                        used.push(f.clone());
                    }
                    proof {
                        let cur = x.fields@.take(i as int + 1);
                        assert forall|n: Seq<char>| crate::scope::contains_name(used@, n) implies
                            names_set(x.groupby@).union(opt_names_set(cur)).contains(n) by {
                            let k = choose|k: int| 0 <= k < used@.len() && used@[k]@ == n;
                            if k < pre.len() {
                                assert(pre[k]@ == n);
                                assert(crate::scope::contains_name(pre, n));
                                assert(names_set(pre).contains(n));
                                assert(names_set(x.groupby@).contains(n) || opt_names_set(
                                    x.fields@.take(i as int),
                                ).contains(n));
                                if opt_names_set(x.fields@.take(i as int)).contains(n) {
                                    let w = choose|w: int|
                                        0 <= w < x.fields@.take(i as int).len() && ((
                                        #[trigger] x.fields@.take(i as int)[w]) matches Some(f)
                                            && f@ == n);
                                    assert(cur[w] == x.fields@.take(i as int)[w]);
                                }
                            } else {
                                assert(x.fields@[i as int] matches Some(f) && f@ == n);
                                assert(cur[i as int] == x.fields@[i as int]);
                            }
                        }
                        assert forall|n: Seq<char>|
                            names_set(x.groupby@).union(opt_names_set(cur)).contains(n) implies
                            crate::scope::contains_name(used@, n) by {
                            if names_set(x.groupby@).contains(n) {
                                assert(names_set(pre).contains(n));
                                assert(crate::scope::contains_name(pre, n));
                                let k = choose|k: int| 0 <= k < pre.len() && pre[k]@ == n;
                                assert(used@[k]@ == n);
                            } else {
                                let w = choose|w: int|
                                    0 <= w < cur.len() && ((#[trigger] cur[w]) matches Some(f)
                                        && f@ == n);
                                if w < i as int {
                                    assert(x.fields@.take(i as int)[w] == cur[w]);
                                    assert(opt_names_set(x.fields@.take(i as int)).contains(n));
                                    assert(names_set(pre).contains(n));
                                    assert(crate::scope::contains_name(pre, n));
                                    let k = choose|k: int| 0 <= k < pre.len() && pre[k]@ == n;
                                    assert(used@[k]@ == n);
                                } else {
                                    assert(x.fields@[i as int] matches Some(f) && f@ == n);
                                    assert(used@[used@.len() - 1]@ == n);
                                }
                            }
                        }
                        assert(names_set(used@) =~= names_set(x.groupby@).union(
                            opt_names_set(cur),
                        ));
                    }
                    i = i + 1;
                }
                proof {
                    assert(x.fields@.take(x.fields@.len() as int) =~= x.fields@);
                }
                let cols = ColumnUsage::Known(used);
                // produced columns: known only when output names are given
                // one-for-one
                let mut produced = ColumnUsage::Unknown;
                if x.as_.len() == x.ops.len() {
                    let mut names: Vec<String> = Vec::new();
                    let mut all_some = true;
                    let mut j: usize = 0;
                    while j < x.as_.len()
                        invariant
                            j <= x.as_@.len(),
                            all_some == forall|k: int|
                                0 <= k < j as int ==> (#[trigger] x.as_@[k]) is Some,
                            all_some ==> names@.len() == j as int,
                            all_some ==> forall|k: int|
                                0 <= k < j as int ==> names@[k]@ == x.as_@[k]->0@,
                        decreases x.as_@.len() - j as int,
                    {
                        match &x.as_[j] {
                            Some(nm) => {
                                names.push(nm.clone());
                            },
                            None => {
                                all_some = false;
                            },
                        }
                        j = j + 1;
                    }
                    if all_some {
                        let p = ColumnUsage::Known(names);
                        proof {
                            assert(usage_view(p)->0 =~= opt_names_set(x.as_@)) by {
                                assert forall|n: Seq<char>|
                                    crate::scope::contains_name(p->Known_0@, n) implies
                                    opt_names_set(x.as_@).contains(n) by {
                                    let k = choose|k: int|
                                        0 <= k < p->Known_0@.len() && p->Known_0@[k]@ == n;
                                    assert(x.as_@[k] matches Some(f) && f@ == n);
                                }
                                assert forall|n: Seq<char>| opt_names_set(x.as_@).contains(n)
                                    implies crate::scope::contains_name(p->Known_0@, n) by {
                                    let k = choose|k: int|
                                        0 <= k < x.as_@.len() && ((#[trigger] x.as_@[k]) matches
                                        Some(f) && f@ == n);
                                    assert(p->Known_0@[k]@ == n);
                                }
                            }
                        }
                        produced = p;
                    }
                }
                proof {
                    match agg_produced(*x) {
                        Some(_) => {},
                        None => {
                            assert(produced is Unknown);
                        },
                    }
                }
                TransformColumns::Overwrite { usage: usage_of(dv, cols), produced }
            },
            TransformSpec::Project(x) => {
                let cols = ColumnUsage::Known(clone_names(&x.fields));
                let produced = ColumnUsage::Known(clone_names(&x.fields));
                TransformColumns::Overwrite { usage: usage_of(dv, cols), produced }
            },
            _ => TransformColumns::Unknown,
        }
    }
}

/// A transform as the task graph carries it.
#[derive(Debug)]
pub enum TransformKind {
    Extent(ExtentTransformSpec),
    Filter(FilterTransformSpec),
    Formula(FormulaTransformSpec),
    Bin(BinTransformSpec),
    Aggregate(AggregateTransformSpec),
    Collect(CollectTransformSpec),
    Timeunit(TimeunitTransformSpec),
    Joinaggregate(JoinAggregateTransformSpec),
    Window(WindowTransformSpec),
    Project(ProjectTransformSpec),
}

/// The specification-side form of a task-side transform.
pub open spec fn kind_spec(k: TransformKind) -> TransformSpec {
    match k {
        TransformKind::Extent(x) => TransformSpec::Extent(x),
        TransformKind::Filter(x) => TransformSpec::Filter(x),
        TransformKind::Formula(x) => TransformSpec::Formula(x),
        TransformKind::Bin(x) => TransformSpec::Bin(x),
        TransformKind::Aggregate(x) => TransformSpec::Aggregate(x),
        TransformKind::Collect(x) => TransformSpec::Collect(x),
        TransformKind::Timeunit(x) => TransformSpec::Timeunit(x),
        TransformKind::Joinaggregate(x) => TransformSpec::JoinAggregate(x),
        TransformKind::Window(x) => TransformSpec::Window(x),
        TransformKind::Project(x) => TransformSpec::Project(x),
    }
}

/// Reports the variables a transform reads and the auxiliary signals it
/// publishes.
pub trait TransformDependencies {
    fn input_vars(&self) -> Vec<crate::task::InputVariable>;

    fn output_vars(&self) -> Vec<Variable>;
}

impl Clone for TransformKind {
    fn clone(&self) -> (r: Self)
        ensures
            transforms_match(kind_spec(r), kind_spec(*self)),
    {
        match self {
            TransformKind::Extent(x) => TransformKind::Extent(x.clone()),
            TransformKind::Filter(x) => TransformKind::Filter(x.clone()),
            TransformKind::Formula(x) => TransformKind::Formula(x.clone()),
            TransformKind::Bin(x) => TransformKind::Bin(x.clone()),
            TransformKind::Aggregate(x) => TransformKind::Aggregate(x.clone()),
            TransformKind::Collect(x) => TransformKind::Collect(x.clone()),
            TransformKind::Timeunit(x) => TransformKind::Timeunit(x.clone()),
            TransformKind::Joinaggregate(x) => TransformKind::Joinaggregate(x.clone()),
            TransformKind::Window(x) => TransformKind::Window(x.clone()),
            TransformKind::Project(x) => TransformKind::Project(x.clone()),
        }
    }
}

impl TransformKind {
    /// Converts a specification-side transform, copying its data. Fails,
    /// with a parse error, exactly on transforms the engine does not know.
    pub fn try_from(value: &TransformSpec) -> (r: Result<TransformKind>)
        ensures
            r is Ok == !(value matches TransformSpec::Unsupported(_)),
            r matches Ok(k) ==> transforms_match(kind_spec(k), *value),
            r matches Err(e) ==> error_kind(e) == ErrorKind::Parse,
    {
        match value {
            TransformSpec::Extent(x) => Ok(TransformKind::Extent(x.clone())),
            TransformSpec::Filter(x) => Ok(TransformKind::Filter(x.clone())),
            TransformSpec::Formula(x) => Ok(TransformKind::Formula(x.clone())),
            TransformSpec::Bin(x) => Ok(TransformKind::Bin(x.clone())),
            TransformSpec::Aggregate(x) => Ok(TransformKind::Aggregate(x.clone())),
            TransformSpec::Collect(x) => Ok(TransformKind::Collect(x.clone())),
            TransformSpec::Timeunit(x) => Ok(TransformKind::Timeunit(x.clone())),
            TransformSpec::JoinAggregate(x) => Ok(TransformKind::Joinaggregate(x.clone())),
            TransformSpec::Window(x) => Ok(TransformKind::Window(x.clone())),
            TransformSpec::Project(x) => Ok(TransformKind::Project(x.clone())),
            TransformSpec::Unsupported(_) => Err(
                VegaFusionError::parse("unsupported transform"),
            ),
        }
    }

    /// The variables this transform reads.
    pub fn input_vars(&self) -> (r: Vec<crate::task::InputVariable>)
        ensures
            crate::task::input_var_models(r@) == transform_input_vars(kind_spec(*self)),
    {
        match self {
            TransformKind::Filter(f) => f.expr.input_vars(),
            TransformKind::Formula(f) => f.expr.input_vars(),
            TransformKind::Bin(b) => match &b.extent {
                Some(e) => e.input_vars(),
                None => {
                    let r: Vec<crate::task::InputVariable> = Vec::new();
                    proof {
                        assert(crate::task::input_var_models(r@) =~= Seq::<IvModel>::empty());
                    }
                    r
                },
            },
            _ => {
                let r: Vec<crate::task::InputVariable> = Vec::new();
                proof {
                    assert(crate::task::input_var_models(r@) =~= Seq::<IvModel>::empty());
                }
                r
            },
        }
    }

    /// The auxiliary signals this transform publishes.
    pub fn output_vars(&self) -> (r: Vec<Variable>)
        ensures
            r@.len() == transform_output_signals(kind_spec(*self)).len(),
            forall|i: int|
                0 <= i < r@.len() ==> (#[trigger] r@[i]).namespace == VariableNamespace::Signal
                    && r@[i].name@ == transform_output_signals(kind_spec(*self))[i],
    {
        let mut out: Vec<Variable> = Vec::new();
        match self {
            TransformKind::Extent(x) => {
                if let Some(sg) = &x.signal {
                    out.push(
                        Variable { namespace: VariableNamespace::Signal, name: sg.clone() },
                    );
                }
            },
            TransformKind::Bin(b) => {
                if let Some(sg) = &b.signal {
                    out.push(
                        Variable { namespace: VariableNamespace::Signal, name: sg.clone() },
                    );
                }
            },
            _ => {},
        }
        out
    }
}

/// One element of a transform pipeline.
#[derive(Debug)]
pub struct Transform {
    pub transform_kind: Option<TransformKind>,
}

impl Clone for Transform {
    fn clone(&self) -> (r: Self)
        ensures
            r.transform_kind is Some == self.transform_kind is Some,
            self.transform_kind matches Some(k) ==> transforms_match(
                kind_spec(r.transform_kind->0),
                kind_spec(k),
            ),
    {
        match &self.transform_kind {
            Some(k) => Transform { transform_kind: Some(k.clone()) },
            None => Transform { transform_kind: None },
        }
    }
}

impl Transform {
    /// The carried transform kind; the carrier is never built empty.
    pub fn transform_kind(&self) -> (r: &TransformKind)
        requires
            self.transform_kind is Some,
        ensures
            *r == self.transform_kind->0,
    {
        match &self.transform_kind {
            Some(k) => k,
            None => {
                proof {
                    assert(false);
                }
                unreached()
            },
        }
    }

    /// Converts a specification-side transform into a pipeline element.
    pub fn try_from(value: &TransformSpec) -> (r: Result<Transform>)
        ensures
            r is Ok == !(value matches TransformSpec::Unsupported(_)),
            r matches Ok(t) ==> t.transform_kind is Some && transforms_match(
                kind_spec(t.transform_kind->0),
                *value,
            ),
            r matches Err(e) ==> error_kind(e) == ErrorKind::Parse,
    {
        match TransformKind::try_from(value) {
            Ok(k) => Ok(Transform { transform_kind: Some(k) }),
            Err(e) => Err(e),
        }
    }
}

impl TransformDependencies for Transform {
    fn input_vars(&self) -> Vec<crate::task::InputVariable> {
        match &self.transform_kind {
            Some(k) => k.input_vars(),
            None => Vec::new(),
        }
    }

    fn output_vars(&self) -> Vec<Variable> {
        match &self.transform_kind {
            Some(k) => k.output_vars(),
            None => Vec::new(),
        }
    }
}

/// An ordered list of transforms applied to a dataset.
#[derive(Debug)]
pub struct TransformPipeline {
    pub transforms: Vec<Transform>,
}

/// Every pipeline element carries a transform.
pub open spec fn pipeline_wf(p: TransformPipeline) -> bool {
    forall|i: int| 0 <= i < p.transforms@.len() ==> (#[trigger] p.transforms@[i]).transform_kind is Some
}

/// The specification-side forms of a pipeline's transforms.
pub open spec fn pipeline_specs(p: TransformPipeline) -> Seq<TransformSpec> {
    Seq::new(p.transforms@.len(), |i: int| kind_spec(p.transforms@[i].transform_kind->0))
}

/// The variables a list of transforms reads, in order.
pub open spec fn tls_input_vars(ts: Seq<TransformSpec>) -> Seq<IvModel>
    decreases ts.len(),
{
    if ts.len() == 0 {
        Seq::empty()
    } else {
        transform_input_vars(ts[0]) + tls_input_vars(ts.subrange(1, ts.len() as int))
    }
}

/// The output signals of a list of transforms, in order.
pub open spec fn tls_output_signals(ts: Seq<TransformSpec>) -> Seq<Seq<char>>
    decreases ts.len(),
{
    if ts.len() == 0 {
        Seq::empty()
    } else {
        transform_output_signals(ts[0]) + tls_output_signals(ts.subrange(1, ts.len() as int))
    }
}

/// The byte forms of a list of transforms, concatenated.
pub open spec fn tls_bytes(ts: Seq<TransformSpec>) -> Seq<u8>
    decreases ts.len(),
{
    if ts.len() == 0 {
        Seq::empty()
    } else {
        transform_bytes(ts[0]) + tls_bytes(ts.subrange(1, ts.len() as int))
    }
}

/// Snoc form of `tls_input_vars`.
pub proof fn lemma_tls_input_vars_snoc(s: Seq<TransformSpec>, x: TransformSpec)
    ensures
        tls_input_vars(s.push(x)) == tls_input_vars(s) + transform_input_vars(x),
    decreases s.len(),
{
    let sx = s.push(x);
    let xb = transform_input_vars(x);
    if s.len() == 0 {
        assert(sx.subrange(1, sx.len() as int) =~= Seq::<TransformSpec>::empty());
        assert(tls_input_vars(sx) == xb + tls_input_vars(Seq::<TransformSpec>::empty()));
        assert(xb + Seq::<IvModel>::empty() =~= xb);
        assert(Seq::<IvModel>::empty() + xb =~= xb);
    } else {
        let tail = s.subrange(1, s.len() as int);
        let h = transform_input_vars(s[0]);
        assert(sx[0] == s[0]);
        assert(sx.subrange(1, sx.len() as int) =~= tail.push(x));
        lemma_tls_input_vars_snoc(tail, x);
        assert(tls_input_vars(sx) == h + (tls_input_vars(tail) + xb));
        assert(h + (tls_input_vars(tail) + xb) =~= (h + tls_input_vars(tail)) + xb);
        assert(tls_input_vars(s) == h + tls_input_vars(tail));
    }
}

/// Snoc form of `tls_output_signals`.
pub proof fn lemma_tls_output_signals_snoc(s: Seq<TransformSpec>, x: TransformSpec)
    ensures
        tls_output_signals(s.push(x)) == tls_output_signals(s) + transform_output_signals(x),
    decreases s.len(),
{
    let sx = s.push(x);
    let xb = transform_output_signals(x);
    if s.len() == 0 {
        assert(sx.subrange(1, sx.len() as int) =~= Seq::<TransformSpec>::empty());
        assert(tls_output_signals(sx) == xb + tls_output_signals(
            Seq::<TransformSpec>::empty(),
        ));
        assert(xb + Seq::<Seq<char>>::empty() =~= xb);
        assert(Seq::<Seq<char>>::empty() + xb =~= xb);
    } else {
        let tail = s.subrange(1, s.len() as int);
        let h = transform_output_signals(s[0]);
        assert(sx[0] == s[0]);
        assert(sx.subrange(1, sx.len() as int) =~= tail.push(x));
        lemma_tls_output_signals_snoc(tail, x);
        assert(tls_output_signals(sx) == h + (tls_output_signals(tail) + xb));
        assert(h + (tls_output_signals(tail) + xb) =~= (h + tls_output_signals(tail)) + xb);
        assert(tls_output_signals(s) == h + tls_output_signals(tail));
    }
}

/// Snoc form of `tls_bytes`.
#[verifier::rlimit(100)]
#[verifier::spinoff_prover]
pub proof fn lemma_tls_bytes_snoc(s: Seq<TransformSpec>, x: TransformSpec)
    ensures
        tls_bytes(s.push(x)) == tls_bytes(s) + transform_bytes(x),
    decreases s.len(),
{
    let sx = s.push(x);
    let xb = transform_bytes(x);
    if s.len() == 0 {
        assert(sx.subrange(1, sx.len() as int) =~= Seq::<TransformSpec>::empty());
        assert(tls_bytes(sx) == xb + tls_bytes(Seq::<TransformSpec>::empty()));
        assert(xb + Seq::<u8>::empty() =~= xb);
        assert(Seq::<u8>::empty() + xb =~= xb);
    } else {
        let tail = s.subrange(1, s.len() as int);
        let h = transform_bytes(s[0]);
        assert(sx[0] == s[0]);
        assert(sx.subrange(1, sx.len() as int) =~= tail.push(x));
        lemma_tls_bytes_snoc(tail, x);
        assert(tls_bytes(sx) == h + (tls_bytes(tail) + xb));
        assert(h + (tls_bytes(tail) + xb) =~= (h + tls_bytes(tail)) + xb);
        assert(tls_bytes(s) == h + tls_bytes(tail));
    }
}

/// The byte form of a pipeline: a count, then its transforms.
pub open spec fn pipeline_bytes(p: TransformPipeline) -> Seq<u8> {
    u64_bytes(pipeline_specs(p).len() as u64) + tls_bytes(pipeline_specs(p))
}

impl Clone for TransformPipeline {
    fn clone(&self) -> (r: Self)
        ensures
            pipeline_wf(*self) ==> pipeline_wf(r),
            r.transforms@.len() == self.transforms@.len(),
            pipeline_wf(*self) ==> forall|i: int|
                0 <= i < self.transforms@.len() ==> transforms_match(
                    #[trigger] pipeline_specs(r)[i],
                    pipeline_specs(*self)[i],
                ),
    {
        let mut out: Vec<Transform> = Vec::new();
        let mut i: usize = 0;
        while i < self.transforms.len()
            invariant
                i <= self.transforms@.len(),
                out@.len() == i as int,
                forall|j: int|
                    0 <= j < i as int ==> (#[trigger] out@[j]).transform_kind is Some
                        == self.transforms@[j].transform_kind is Some,
                forall|j: int|
                    0 <= j < i as int && self.transforms@[j].transform_kind is Some
                        ==> transforms_match(
                        kind_spec((#[trigger] out@[j]).transform_kind->0),
                        kind_spec(self.transforms@[j].transform_kind->0),
                    ),
            decreases self.transforms@.len() - i as int,
        {
            out.push(self.transforms[i].clone());
            i = i + 1;
        }
        TransformPipeline { transforms: out }
    }
}

impl TransformPipeline {
    /// Builds a pipeline from specification-side transforms. Fails, with a
    /// parse error, exactly when one of them is unknown to the engine.
    pub fn try_new(specs: &Vec<TransformSpec>) -> (r: Result<TransformPipeline>)
        ensures
            r is Ok == (forall|i: int|
                0 <= i < specs@.len() ==> !((#[trigger] specs@[i]) matches
                TransformSpec::Unsupported(_))),
            r matches Ok(p) ==> {
                &&& pipeline_wf(p)
                &&& pipeline_specs(p).len() == specs@.len()
                &&& forall|i: int|
                    0 <= i < specs@.len() ==> transforms_match(
                        #[trigger] pipeline_specs(p)[i],
                        specs@[i],
                    )
            },
            r matches Err(e) ==> error_kind(e) == ErrorKind::Parse,
    {
        let mut out: Vec<Transform> = Vec::new();
        let mut i: usize = 0;
        while i < specs.len()
            invariant
                i <= specs@.len(),
                out@.len() == i as int,
                forall|j: int|
                    0 <= j < i as int ==> !((#[trigger] specs@[j]) matches
                    TransformSpec::Unsupported(_)),
                forall|j: int|
                    0 <= j < i as int ==> (#[trigger] out@[j]).transform_kind is Some,
                forall|j: int|
                    0 <= j < i as int ==> transforms_match(
                        kind_spec((#[trigger] out@[j]).transform_kind->0),
                        specs@[j],
                    ),
            decreases specs@.len() - i as int,
        {
            match Transform::try_from(&specs[i]) {
                Ok(t) => {
                    out.push(t);
                },
                Err(e) => {
                    return Err(e);
                },
            }
            i = i + 1;
        }
        Ok(TransformPipeline { transforms: out })
    }

    /// The variables the pipeline reads: first occurrence of each.
    pub fn input_vars(&self) -> (r: Vec<crate::task::InputVariable>)
        requires
            pipeline_wf(*self),
        ensures
            crate::task::input_var_models(r@) == crate::expression::dedup_seq(
                tls_input_vars(pipeline_specs(*self)),
            ),
    {
        let mut raw: Vec<crate::task::InputVariable> = Vec::new();
        let mut i: usize = 0;
        while i < self.transforms.len()
            invariant
                pipeline_wf(*self),
                i <= self.transforms@.len(),
                crate::task::input_var_models(raw@) =~= tls_input_vars(
                    pipeline_specs(*self).take(i as int),
                ),
            decreases self.transforms@.len() - i as int,
        {
            let mut next = self.transforms[i].transform_kind().input_vars();
            let ghost a = raw@;
            let ghost b = next@;
            raw.append(&mut next);
            proof {
                assert(crate::task::input_var_models(a + b) =~= crate::task::input_var_models(a)
                    + crate::task::input_var_models(b));
                assert(pipeline_specs(*self).take(i as int + 1) =~= pipeline_specs(*self).take(
                    i as int,
                ).push(pipeline_specs(*self)[i as int]));
                lemma_tls_input_vars_snoc(
                    pipeline_specs(*self).take(i as int),
                    pipeline_specs(*self)[i as int],
                );
            }
            i = i + 1;
        }
        proof {
            assert(pipeline_specs(*self).take(pipeline_specs(*self).len() as int)
                =~= pipeline_specs(*self));
        }
        crate::expression::dedup_input_vars(raw)
    }

    /// The auxiliary signal variables the pipeline publishes, in order.
    pub fn output_vars(&self) -> (r: Vec<Variable>)
        requires
            pipeline_wf(*self),
        ensures
            r@.len() == tls_output_signals(pipeline_specs(*self)).len(),
            forall|i: int|
                0 <= i < r@.len() ==> (#[trigger] r@[i]).namespace == VariableNamespace::Signal
                    && r@[i].name@ == tls_output_signals(pipeline_specs(*self))[i],
    {
        let mut out: Vec<Variable> = Vec::new();
        let mut i: usize = 0;
        while i < self.transforms.len()
            invariant
                pipeline_wf(*self),
                i <= self.transforms@.len(),
                out@.len() == tls_output_signals(pipeline_specs(*self).take(i as int)).len(),
                forall|j: int|
                    0 <= j < out@.len() ==> (#[trigger] out@[j]).namespace
                        == VariableNamespace::Signal && out@[j].name@ == tls_output_signals(
                        pipeline_specs(*self).take(i as int),
                    )[j],
            decreases self.transforms@.len() - i as int,
        {
            let mut next = self.transforms[i].transform_kind().output_vars();
            let ghost a = out@;
            let ghost b = next@;
            out.append(&mut next);
            proof {
                assert(pipeline_specs(*self).take(i as int + 1) =~= pipeline_specs(*self).take(
                    i as int,
                ).push(pipeline_specs(*self)[i as int]));
                lemma_tls_output_signals_snoc(
                    pipeline_specs(*self).take(i as int),
                    pipeline_specs(*self)[i as int],
                );
            }
            i = i + 1;
        }
        proof {
            assert(pipeline_specs(*self).take(pipeline_specs(*self).len() as int)
                =~= pipeline_specs(*self));
        }
        out
    }

    /// Appends the byte form of the pipeline.
    pub fn write_bytes(&self, buf: &mut Vec<u8>)
        requires
            pipeline_wf(*self),
        ensures
            final(buf)@ =~= old(buf)@ + pipeline_bytes(*self),
    {
        write_u64(buf, self.transforms.len() as u64);
        let ghost mid = buf@;
        let mut i: usize = 0;
        while i < self.transforms.len()
            invariant
                pipeline_wf(*self),
                i <= self.transforms@.len(),
                buf@ =~= mid + tls_bytes(pipeline_specs(*self).take(i as int)),
            decreases self.transforms@.len() - i as int,
        {
            let k = self.transforms[i].transform_kind();
            write_kind(buf, k);
            proof {
                assert(pipeline_specs(*self).take(i as int + 1) =~= pipeline_specs(*self).take(
                    i as int,
                ).push(pipeline_specs(*self)[i as int]));
                lemma_tls_bytes_snoc(
                    pipeline_specs(*self).take(i as int),
                    pipeline_specs(*self)[i as int],
                );
            }
            i = i + 1;
        }
        proof {
            assert(pipeline_specs(*self).take(pipeline_specs(*self).len() as int)
                =~= pipeline_specs(*self));
        }
    }
}

/// Appends the byte form of an aggregate transform, tag included.
#[verifier::rlimit(100)]
#[verifier::spinoff_prover]
fn write_kind_aggregate(buf: &mut Vec<u8>, x: &AggregateTransformSpec)
    ensures
        final(buf)@ =~= old(buf)@ + transform_bytes(TransformSpec::Aggregate(*x)),
{
    let ghost base = buf@;
    buf.push(4u8);
    proof {
        assert(buf@ =~= base + seq![4u8]);
    }
    write_strings(buf, &x.groupby);
    let ghost c1 = base + seq![4u8] + u64_bytes(x.groupby@.len() as u64) + strings_bytes(
        x.groupby@,
    );
    proof {
        assert(buf@ =~= c1);
    }
    write_opt_strings(buf, &x.fields);
    let ghost c2 = c1 + u64_bytes(x.fields@.len() as u64) + opt_strings_bytes(x.fields@);
    proof {
        assert(buf@ =~= c2);
    }
    write_ops(buf, &x.ops);
    let ghost c3 = c2 + ops_bytes(x.ops@);
    proof {
        assert(buf@ =~= c3);
    }
    write_opt_strings(buf, &x.as_);
    let ghost c4 = c3 + u64_bytes(x.as_@.len() as u64) + opt_strings_bytes(x.as_@);
    proof {
        assert(buf@ =~= c4);
    }
    buf.push(
        match x.cross {
            Some(true) => 2u8,
            Some(false) => 1u8,
            None => 0u8,
        },
    );
    buf.push(
        match x.drop {
            Some(true) => 2u8,
            Some(false) => 1u8,
            None => 0u8,
        },
    );
    proof {
        assert(buf@ =~= base + transform_bytes(TransformSpec::Aggregate(*x)));
    }
}

/// Appends the byte form of a bin transform, tag included.
#[verifier::rlimit(100)]
#[verifier::spinoff_prover]
fn write_kind_bin(buf: &mut Vec<u8>, x: &BinTransformSpec)
    ensures
        final(buf)@ =~= old(buf)@ + transform_bytes(TransformSpec::Bin(*x)),
{
    buf.push(3u8);
    write_string(buf, &x.field);
    write_opt_expr(buf, &x.extent);
    write_opt_string(buf, &x.signal);
    write_strings(buf, &x.as_);
}

/// Appends the byte form of a join-aggregate transform, tag included.
#[verifier::rlimit(100)]
#[verifier::spinoff_prover]
fn write_kind_joinaggregate(buf: &mut Vec<u8>, x: &JoinAggregateTransformSpec)
    ensures
        final(buf)@ =~= old(buf)@ + transform_bytes(TransformSpec::JoinAggregate(*x)),
{
    buf.push(7u8);
    write_strings(buf, &x.groupby);
    write_opt_strings(buf, &x.fields);
    write_ops(buf, &x.ops);
    write_opt_strings(buf, &x.as_);
}

/// Appends the byte form of a window transform, tag included.
#[verifier::rlimit(100)]
#[verifier::spinoff_prover]
fn write_kind_window(buf: &mut Vec<u8>, x: &WindowTransformSpec)
    ensures
        final(buf)@ =~= old(buf)@ + transform_bytes(TransformSpec::Window(*x)),
{
    let ghost base = buf@;
    buf.push(8u8);
    proof {
        assert(buf@ =~= base + seq![8u8]);
    }
    write_strings(buf, &x.groupby);
    let ghost c1 = base + seq![8u8] + u64_bytes(x.groupby@.len() as u64) + strings_bytes(
        x.groupby@,
    );
    proof {
        assert(buf@ =~= c1);
    }
    write_strings(buf, &x.ops);
    let ghost c2 = c1 + u64_bytes(x.ops@.len() as u64) + strings_bytes(x.ops@);
    proof {
        assert(buf@ =~= c2);
    }
    write_opt_strings(buf, &x.fields);
    let ghost c3 = c2 + u64_bytes(x.fields@.len() as u64) + opt_strings_bytes(x.fields@);
    proof {
        assert(buf@ =~= c3);
    }
    write_opt_strings(buf, &x.as_);
    proof {
        assert(buf@ =~= base + transform_bytes(TransformSpec::Window(*x)));
    }
}

/// Appends the byte form of a task-side transform.
#[verifier::rlimit(100)]
#[verifier::spinoff_prover]
pub fn write_kind(buf: &mut Vec<u8>, k: &TransformKind)
    ensures
        final(buf)@ =~= old(buf)@ + transform_bytes(kind_spec(*k)),
{
    match k {
        TransformKind::Extent(x) => {
            buf.push(0u8);
            write_string(buf, &x.field);
            write_opt_string(buf, &x.signal);
        },
        TransformKind::Filter(x) => {
            buf.push(1u8);
            write_expr(buf, &x.expr);
        },
        TransformKind::Formula(x) => {
            buf.push(2u8);
            write_expr(buf, &x.expr);
            write_string(buf, &x.as_);
        },
        TransformKind::Bin(x) => {
            write_kind_bin(buf, x);
        },
        TransformKind::Aggregate(x) => {
            write_kind_aggregate(buf, x);
        },
        TransformKind::Collect(x) => {
            buf.push(5u8);
            write_strings(buf, &x.fields);
        },
        TransformKind::Timeunit(x) => {
            buf.push(6u8);
            write_string(buf, &x.field);
            write_strings(buf, &x.units);
            write_opt_string(buf, &x.signal);
        },
        TransformKind::Joinaggregate(x) => {
            write_kind_joinaggregate(buf, x);
        },
        TransformKind::Window(x) => {
            write_kind_window(buf, x);
        },
        TransformKind::Project(x) => {
            buf.push(9u8);
            write_strings(buf, &x.fields);
        },
    }
}

} // verus!
