use vegafusion_core::chart::{
    input_vars_of_scale, input_vars_of_signal, make_task_for_data, make_task_for_signal,
    update_vars_of_data, update_vars_of_signal, DataSpec, ScaleDomainSpec, ScaleRangeSpec,
    ScaleSpec, SignalOnSpec, SignalSpec,
};
use vegafusion_core::expression::Expression;
use vegafusion_core::scope::TaskScope;
use vegafusion_core::task::{TaskKind, UrlSpec};
use vegafusion_core::transforms::{
    AggregateOpSpec, AggregateTransformSpec, ExtentTransformSpec, TransformSpec,
    UnsupportedTransformSpec,
};
use vegafusion_core::values::{ScalarValue, TaskValue, VegaFusionTable};
use vegafusion_core::variable::{Variable, VariableNamespace};
use vegafusion_core::watch::{CommPlan, Watch, WatchNamespace, WatchPlan};

fn root_scope() -> TaskScope {
    let mut root = TaskScope::new();
    root.signals.push("a".to_string());
    root.signals.push("b".to_string());
    root.data.push("table_0".to_string());
    let mut inner = TaskScope::new();
    inner.signals.push("a".to_string());
    root.children.push(inner);
    root
}

fn ident(name: &str) -> Expression {
    Expression::Identifier(name.to_string())
}

/// The reads of a signal's init and update expressions resolve to the
/// innermost defining scope: `a` shadowed inside the group resolves there,
/// `b` to the root.
#[test]
fn signal_input_vars_resolve_innermost() {
    let ts = root_scope();
    let s = SignalSpec {
        name: "s".to_string(),
        value: None,
        init: Some(ident("a")),
        update: Some(ident("b")),
        on: Vec::new(),
    };
    let vars = input_vars_of_signal(&ts, &s, &[0]).unwrap();
    assert_eq!(vars.len(), 2);
    assert_eq!(vars[0].0.name, "a".to_string());
    assert_eq!(vars[0].1, vec![0u32]);
    assert_eq!(vars[1].0.name, "b".to_string());
    assert_eq!(vars[1].1, Vec::<u32>::new());
}

/// An `on` clause contributes its update expression and its event signal
/// expressions; an unresolvable read is a specification error.
#[test]
fn signal_input_vars_on_clause_and_failure() {
    let ts = root_scope();
    let s = SignalSpec {
        name: "s".to_string(),
        value: None,
        init: None,
        update: None,
        on: vec![SignalOnSpec { update: ident("b"), events: vec![ident("a")] }],
    };
    let vars = input_vars_of_signal(&ts, &s, &[]).unwrap();
    assert_eq!(vars.len(), 2);
    assert_eq!(vars[0].0.name, "b".to_string());
    assert_eq!(vars[1].0.name, "a".to_string());

    let bad = SignalSpec {
        name: "s".to_string(),
        value: None,
        init: Some(ident("missing")),
        update: None,
        on: Vec::new(),
    };
    assert!(input_vars_of_signal(&ts, &bad, &[]).is_err());
}

/// A non-stub signal reports itself as updatable, and `modify` calls
/// report the resolved dataset.
#[test]
fn signal_update_vars() {
    let ts = root_scope();
    let modify = Expression::Call(
        "modify".to_string(),
        vec![Expression::Literal(ScalarValue::Utf8("table_0".to_string()))],
    );
    let s = SignalSpec {
        name: "s".to_string(),
        value: Some(ScalarValue::Number(1)),
        init: None,
        update: Some(modify),
        on: Vec::new(),
    };
    let vars = update_vars_of_signal(&ts, &s, &[0]).unwrap();
    assert_eq!(vars.len(), 2);
    assert_eq!(vars[0].0.namespace, VariableNamespace::Signal);
    assert_eq!(vars[0].0.name, "s".to_string());
    assert_eq!(vars[0].1, vec![0u32]);
    assert_eq!(vars[1].0.namespace, VariableNamespace::Data);
    assert_eq!(vars[1].0.name, "table_0".to_string());
    assert_eq!(vars[1].1, Vec::<u32>::new());

    let stub = SignalSpec {
        name: "s".to_string(),
        value: None,
        init: None,
        update: None,
        on: Vec::new(),
    };
    assert!(update_vars_of_signal(&ts, &stub, &[]).unwrap().is_empty());
}

/// A scale's domain reference resolves as a dataset; its range signal
/// expression contributes its reads.
#[test]
fn scale_input_vars() {
    let ts = root_scope();
    let sc = ScaleSpec {
        name: "x".to_string(),
        domain: Some(ScaleDomainSpec::Reference("table_0".to_string())),
        range: Some(ScaleRangeSpec::Signal(ident("a"))),
        bins: None,
    };
    let vars = input_vars_of_scale(&ts, &sc, &[0]).unwrap();
    assert_eq!(vars.len(), 2);
    assert_eq!(vars[0].0.namespace, VariableNamespace::Data);
    assert_eq!(vars[0].0.name, "table_0".to_string());
    assert_eq!(vars[0].1, Vec::<u32>::new());
    assert_eq!(vars[1].0.name, "a".to_string());
    assert_eq!(vars[1].1, vec![0u32]);
}

/// A dataset with a URL becomes a URL task with batch size 8096; one with
/// only inline values and no transforms becomes a plain table value task.
#[test]
fn make_data_tasks() {
    let url_data = DataSpec {
        name: "remote".to_string(),
        url: Some(UrlSpec::Fixed("https://example.org/cars.json".to_string())),
        source: None,
        values: None,
        has_on: false,
        transform: Vec::new(),
    };
    let t = make_task_for_data(&url_data, &[]).unwrap();
    match t.task_kind.as_ref().unwrap() {
        TaskKind::DataUrl(d) => {
            assert_eq!(d.batch_size, 8096);
            assert!(d.format_type.is_none());
            assert!(d.pipeline.is_none());
        }
        other => panic!("unexpected kind: {:?}", other),
    }

    let inline = DataSpec {
        name: "inline".to_string(),
        url: None,
        source: None,
        values: Some(VegaFusionTable::empty(vec!["c".to_string()])),
        has_on: false,
        transform: Vec::new(),
    };
    let t = make_task_for_data(&inline, &[1]).unwrap();
    assert_eq!(t.scope, vec![1u32]);
    match t.task_kind.as_ref().unwrap() {
        TaskKind::Value(TaskValue::Table(tb)) => assert_eq!(tb.columns.len(), 1),
        other => panic!("unexpected kind: {:?}", other),
    }
}

/// A dataset deriving from a source with an unsupported transform is a
/// parse error; with a supported pipeline it becomes a source task.
#[test]
fn make_data_task_source_and_unsupported() {
    let good = DataSpec {
        name: "derived".to_string(),
        url: None,
        source: Some("inline".to_string()),
        values: None,
        has_on: false,
        transform: vec![TransformSpec::Extent(ExtentTransformSpec {
            field: "c".to_string(),
            signal: Some("ext".to_string()),
        })],
    };
    let t = make_task_for_data(&good, &[]).unwrap();
    match t.task_kind.as_ref().unwrap() {
        TaskKind::DataSource(d) => {
            assert_eq!(d.source, "inline".to_string());
            assert!(d.pipeline.is_some());
        }
        other => panic!("unexpected kind: {:?}", other),
    }

    let bad = DataSpec {
        name: "derived".to_string(),
        url: None,
        source: Some("inline".to_string()),
        values: None,
        has_on: false,
        transform: vec![TransformSpec::Unsupported(UnsupportedTransformSpec {
            name: "lookup".to_string(),
        })],
    };
    assert!(make_task_for_data(&bad, &[]).is_err());
}

/// A signal with an initial value becomes a scalar value task; one without
/// is rejected.
#[test]
fn make_signal_task() {
    let s = SignalSpec {
        name: "s".to_string(),
        value: Some(ScalarValue::Number(7)),
        init: None,
        update: None,
        on: Vec::new(),
    };
    let t = make_task_for_signal(&s, &[0]).unwrap();
    assert_eq!(t.scope, vec![0u32]);
    match t.task_kind.as_ref().unwrap() {
        TaskKind::Value(TaskValue::Scalar(ScalarValue::Number(n))) => assert_eq!(*n, 7),
        other => panic!("unexpected kind: {:?}", other),
    }

    let stub = SignalSpec {
        name: "s".to_string(),
        value: None,
        init: None,
        update: None,
        on: Vec::new(),
    };
    assert!(make_task_for_signal(&stub, &[]).is_err());
}

/// A non-stub dataset reports itself, and each transform output signal, as
/// updatable.
#[test]
fn data_update_vars() {
    let d = DataSpec {
        name: "source_0".to_string(),
        url: Some(UrlSpec::Fixed("https://example.org/t.json".to_string())),
        source: None,
        values: None,
        has_on: false,
        transform: vec![TransformSpec::Extent(ExtentTransformSpec {
            field: "c".to_string(),
            signal: Some("ext".to_string()),
        })],
    };
    let vars = update_vars_of_data(&d, &[]);
    assert_eq!(vars.len(), 2);
    assert_eq!(vars[0].0.namespace, VariableNamespace::Data);
    assert_eq!(vars[0].0.name, "source_0".to_string());
    assert_eq!(vars[1].0.namespace, VariableNamespace::Signal);
    assert_eq!(vars[1].0.name, "ext".to_string());

    let stub = DataSpec {
        name: "stub".to_string(),
        url: None,
        source: None,
        values: None,
        has_on: false,
        transform: Vec::new(),
    };
    assert!(update_vars_of_data(&stub, &[]).is_empty());
}

/// Absent aggregate operations default to a single count.
#[test]
fn aggregate_defaults() {
    let agg = AggregateTransformSpec::from_parts(
        vec!["Species".to_string()],
        None,
        None,
        None,
        None,
        None,
    );
    assert_eq!(agg.ops, vec![AggregateOpSpec::Count]);
    assert!(agg.fields.is_empty());
    let t = TransformSpec::Aggregate(agg);
    assert!(t.supported());
}

/// The watch plan sorts each direction by namespace, name and scope.
#[test]
fn watch_plan_sorted() {
    let plan = CommPlan {
        server_to_client: vec![
            (Variable::new_data("b"), vec![]),
            (Variable::new_signal("b"), vec![1]),
            (Variable::new_signal("b"), vec![0]),
            (Variable::new_signal("a"), vec![]),
        ],
        client_to_server: vec![(Variable::new_signal("brush"), vec![])],
    };
    let wp = WatchPlan::try_from(plan).unwrap();
    let names: Vec<(WatchNamespace, String, Vec<u32>)> = wp
        .server_to_client
        .iter()
        .map(|w| (w.namespace, w.name.clone(), w.scope.clone()))
        .collect();
    assert_eq!(
        names,
        vec![
            (WatchNamespace::Signal, "a".to_string(), vec![]),
            (WatchNamespace::Signal, "b".to_string(), vec![0]),
            (WatchNamespace::Signal, "b".to_string(), vec![1]),
            (WatchNamespace::Data, "b".to_string(), vec![]),
        ]
    );
    assert_eq!(wp.client_to_server.len(), 1);

    // A scale variable cannot be watched.
    let bad = CommPlan {
        server_to_client: vec![(Variable::new_scale("x"), vec![])],
        client_to_server: vec![],
    };
    assert!(WatchPlan::try_from(bad).is_err());
}

/// A watch converts back to the scoped variable it names.
#[test]
fn watch_round_trip() {
    let sv = (Variable::new_signal("brush"), vec![2u32]);
    let w = Watch::try_from(sv).unwrap();
    assert_eq!(w.namespace, WatchNamespace::Signal);
    let back = w.to_scoped_variable();
    assert_eq!(back.0.name, "brush".to_string());
    assert_eq!(back.1, vec![2u32]);
}
