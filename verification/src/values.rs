//! Task values: the data a task produces. A value is either a scalar (a
//! typed single value with a null marker) or a table (a named-column batch of
//! rows). Conversions to and from the canonical byte form live in the codec
//! module and round-trip for every value the engine emits.

use vstd::prelude::*;

verus! {

/// A scalar value.
#[derive(Debug, PartialEq)]
pub enum ScalarValue {
    Null,
    Boolean(bool),
    Number(i64),
    Utf8(String),
    List(Vec<ScalarValue>),
}

/// The mathematical form of a scalar value.
pub enum ScalarModel {
    Null,
    Boolean(bool),
    Number(int),
    Utf8(Seq<char>),
    List(Seq<ScalarModel>),
}

/// The model of a scalar value.
pub open spec fn scalar_model(v: ScalarValue) -> ScalarModel
    decreases v,
    via scalar_model_decreases
{
    match v {
        ScalarValue::Null => ScalarModel::Null,
        ScalarValue::Boolean(b) => ScalarModel::Boolean(b),
        ScalarValue::Number(n) => ScalarModel::Number(n as int),
        ScalarValue::Utf8(s) => ScalarModel::Utf8(s@),
        ScalarValue::List(_) => ScalarModel::List(scalar_models(v->List_0@)),
    }
}

/// The models of a sequence of scalar values, elementwise.
pub open spec fn scalar_models(items: Seq<ScalarValue>) -> Seq<ScalarModel>
    decreases items,
{
    if items.len() == 0 {
        Seq::empty()
    } else {
        seq![scalar_model(items[0])] + scalar_models(items.subrange(1, items.len() as int))
    }
}

#[via_fn]
proof fn scalar_model_decreases(v: ScalarValue) {
    match v {
        ScalarValue::List(_) => {
            assert(decreases_to!(v => v->List_0));
            assert(decreases_to!(v->List_0 => v->List_0@));
            assert(decreases_to!(v => v->List_0@));
        },
        _ => {},
    }
}

/// `scalar_models` maps elementwise.
pub proof fn lemma_scalar_models_index(items: Seq<ScalarValue>)
    ensures
        scalar_models(items).len() == items.len(),
        forall|j: int|
            0 <= j < items.len() ==> #[trigger] scalar_models(items)[j] == scalar_model(items[j]),
    decreases items,
{
    if items.len() > 0 {
        lemma_scalar_models_index(items.subrange(1, items.len() as int));
        let rest = items.subrange(1, items.len() as int);
        assert forall|j: int| 0 <= j < items.len() implies #[trigger] scalar_models(items)[j]
            == scalar_model(items[j]) by {
            if j > 0 {
                assert(scalar_models(items)[j] == scalar_models(rest)[j - 1]);
                assert(rest[j - 1] == items[j]);
            }
        }
    }
}

/// Deep copy of a scalar value, preserving its model.
#[verifier::loop_isolation(false)]
pub fn clone_scalar(v: &ScalarValue) -> (r: ScalarValue)
    ensures
        scalar_model(r) == scalar_model(*v),
    decreases v,
{
    match v {
        ScalarValue::Null => ScalarValue::Null,
        ScalarValue::Boolean(b) => ScalarValue::Boolean(*b),
        ScalarValue::Number(n) => ScalarValue::Number(*n),
        ScalarValue::Utf8(s) => ScalarValue::Utf8(s.clone()),
        ScalarValue::List(items) => {
            let mut out: Vec<ScalarValue> = Vec::new();
            let mut i: usize = 0;
            while i < items.len()
                invariant
                    i <= items@.len(),
                    out@.len() == i as int,
                    forall|j: int|
                        0 <= j < i as int ==> scalar_model(#[trigger] out@[j]) == scalar_model(
                            items@[j],
                        ),
                decreases items@.len() - i as int,
            {
                proof {
                    assert(decreases_to!(*v => (*v)->List_0));
                    assert((*v)->List_0 == *items);
                    assert(decreases_to!((*v)->List_0 => (*v)->List_0@));
                    assert(decreases_to!((*v)->List_0@ => (*v)->List_0@[i as int]));
                    assert(decreases_to!(*v => items@[i as int]));
                }
                out.push(clone_scalar(&items[i]));
                i = i + 1;
            }
            let r = ScalarValue::List(out);
            proof {
                lemma_scalar_models_index(out@);
                lemma_scalar_models_index(items@);
                assert(scalar_models(out@) =~= scalar_models(items@));
            }
            r
        },
    }
}

impl Clone for ScalarValue {
    fn clone(&self) -> (r: Self)
        ensures
            scalar_model(r) == scalar_model(*self),
    {
        clone_scalar(self)
    }
}

/// A columnar table: named columns and rows of scalar cells. Every row has
/// exactly one cell per column.
#[derive(Debug, PartialEq)]
pub struct VegaFusionTable {
    pub columns: Vec<String>,
    pub rows: Vec<Vec<ScalarValue>>,
}

/// The mathematical form of a table.
pub struct TableModel {
    pub columns: Seq<Seq<char>>,
    pub rows: Seq<Seq<ScalarModel>>,
}

/// The model of a table.
pub open spec fn table_model(t: VegaFusionTable) -> TableModel {
    TableModel {
        columns: Seq::new(t.columns@.len(), |i: int| t.columns@[i]@),
        rows: Seq::new(
            t.rows@.len(),
            |i: int| Seq::new(t.rows@[i]@.len(), |j: int| scalar_model(t.rows@[i]@[j])),
        ),
    }
}

/// Every row has one cell per column.
pub open spec fn table_wf(t: VegaFusionTable) -> bool {
    forall|i: int| 0 <= i < t.rows@.len() ==> t.rows@[i]@.len() == t.columns@.len()
}

impl VegaFusionTable {
    /// An empty table with the given column names.
    pub fn empty(columns: Vec<String>) -> (r: Self)
        ensures
            table_wf(r),
            table_model(r).columns == Seq::new(columns@.len(), |i: int| columns@[i]@),
            table_model(r).rows =~= Seq::<Seq<ScalarModel>>::empty(),
    {
        VegaFusionTable { columns, rows: Vec::new() }
    }

    /// The number of rows.
    pub fn num_rows(&self) -> (r: usize)
        ensures
            r as int == table_model(*self).rows.len(),
    {
        self.rows.len()
    }

    /// The position of a column name, if present (first match).
    pub fn column_index(&self, name: &String) -> (r: Option<usize>)
        ensures
            match r {
                Some(i) => i < self.columns@.len() && self.columns@[i as int]@ == name@,
                None => forall|i: int| 0 <= i < self.columns@.len() ==> self.columns@[i]@ != name@,
            },
    {
        let mut i: usize = 0;
        while i < self.columns.len()
            invariant
                i <= self.columns@.len(),
                forall|j: int| 0 <= j < i as int ==> self.columns@[j]@ != name@,
            decreases self.columns@.len() - i as int,
        {
            if self.columns[i] == *name {
                return Some(i);
            }
            i = i + 1;
        }
        None
    }
}

/// Deep copy of a row of cells, preserving each cell's model.
pub fn clone_row(row: &Vec<ScalarValue>) -> (r: Vec<ScalarValue>)
    ensures
        r@.len() == row@.len(),
        forall|j: int|
            0 <= j < row@.len() ==> scalar_model(#[trigger] r@[j]) == scalar_model(row@[j]),
{
    let mut out: Vec<ScalarValue> = Vec::new();
    let mut i: usize = 0;
    while i < row.len()
        invariant
            i <= row@.len(),
            out@.len() == i as int,
            forall|j: int|
                0 <= j < i as int ==> scalar_model(#[trigger] out@[j]) == scalar_model(row@[j]),
        decreases row@.len() - i as int,
    {
        out.push(clone_scalar(&row[i]));
        i = i + 1;
    }
    out
}

/// Deep copy of a table, preserving its model.
pub fn clone_table(t: &VegaFusionTable) -> (r: VegaFusionTable)
    ensures
        table_model(r) == table_model(*t),
        table_wf(*t) ==> table_wf(r),
{
    let columns = crate::column_usage::clone_names(&t.columns);
    let mut rows: Vec<Vec<ScalarValue>> = Vec::new();
    let mut i: usize = 0;
    while i < t.rows.len()
        invariant
            i <= t.rows@.len(),
            rows@.len() == i as int,
            forall|j: int| 0 <= j < i as int ==> #[trigger] rows@[j]@.len() == t.rows@[j]@.len(),
            forall|j: int, k: int|
                0 <= j < i as int && 0 <= k < t.rows@[j]@.len() ==> scalar_model(
                    #[trigger] rows@[j]@[k],
                ) == scalar_model(t.rows@[j]@[k]),
        decreases t.rows@.len() - i as int,
    {
        rows.push(clone_row(&t.rows[i]));
        i = i + 1;
    }
    let r = VegaFusionTable { columns, rows };
    proof {
        assert(table_model(r).columns =~= table_model(*t).columns);
        assert forall|j: int| 0 <= j < t.rows@.len() implies table_model(r).rows[j]
            =~= table_model(*t).rows[j] by {}
        assert(table_model(r).rows =~= table_model(*t).rows);
    }
    r
}

impl Clone for VegaFusionTable {
    fn clone(&self) -> (r: Self)
        ensures
            table_model(r) == table_model(*self),
            table_wf(*self) ==> table_wf(r),
    {
        clone_table(self)
    }
}

/// The value a task holds or produces: a scalar or a table.
#[derive(Debug, PartialEq)]
pub enum TaskValue {
    Scalar(ScalarValue),
    Table(VegaFusionTable),
}

/// The mathematical form of a task value.
pub enum TaskValueModel {
    Scalar(ScalarModel),
    Table(TableModel),
}

/// The model of a task value.
pub open spec fn task_value_model(v: TaskValue) -> TaskValueModel {
    match v {
        TaskValue::Scalar(s) => TaskValueModel::Scalar(scalar_model(s)),
        TaskValue::Table(t) => TaskValueModel::Table(table_model(t)),
    }
}

/// A task value whose table part, if any, is well formed.
pub open spec fn task_value_wf(v: TaskValue) -> bool {
    match v {
        TaskValue::Scalar(_) => true,
        TaskValue::Table(t) => table_wf(t),
    }
}

impl Clone for TaskValue {
    fn clone(&self) -> (r: Self)
        ensures
            task_value_model(r) == task_value_model(*self),
            task_value_wf(*self) ==> task_value_wf(r),
    {
        match self {
            TaskValue::Scalar(s) => TaskValue::Scalar(s.clone()),
            TaskValue::Table(t) => TaskValue::Table(t.clone()),
        }
    }
}

} // verus!
