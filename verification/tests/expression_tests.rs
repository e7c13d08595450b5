use vegafusion_core::expression::{Expression, string_is};
use vegafusion_core::transforms::{AggregateOpSpec, AggregateTransformSpec, TransformKind, TransformSpec, UnsupportedTransformSpec};
use vegafusion_core::values::ScalarValue;
use vegafusion_core::variable::VariableNamespace;

fn ident(name: &str) -> Expression {
    Expression::Identifier(name.to_string())
}

fn str_lit(s: &str) -> Expression {
    Expression::Literal(ScalarValue::Utf8(s.to_string()))
}

/// A plain identifier reads a signal; `datum` reads nothing; duplicates are
/// collapsed to the first occurrence.
#[test]
fn expression_input_vars() {
    let e = Expression::Binary(
        vegafusion_core::expression::BinaryOp::Add,
        Box::new(ident("width")),
        Box::new(Expression::Binary(
            vegafusion_core::expression::BinaryOp::Add,
            Box::new(ident("datum")),
            Box::new(ident("width")),
        )),
    );
    let vars = e.input_vars();
    assert_eq!(vars.len(), 1);
    assert_eq!(vars[0].var.name, "width".to_string());
    assert!(vars[0].propagate);
}

/// `data('name')` reads a dataset; `modify('name', ...)` reads it without
/// propagation and updates it.
#[test]
fn expression_data_and_modify() {
    let d = Expression::Call("data".to_string(), vec![str_lit("table")]);
    let vars = d.input_vars();
    assert_eq!(vars.len(), 1);
    assert_eq!(vars[0].var.namespace, VariableNamespace::Data);
    assert!(vars[0].propagate);

    let m = Expression::Call(
        "modify".to_string(),
        vec![str_lit("store"), ident("tuple")],
    );
    let mvars = m.input_vars();
    assert_eq!(mvars.len(), 2);
    assert_eq!(mvars[0].var.name, "store".to_string());
    assert!(!mvars[0].propagate);
    let updates = m.update_vars();
    assert_eq!(updates.len(), 1);
    assert_eq!(updates[0].name, "store".to_string());
}

#[test]
fn string_helper() {
    assert!(string_is(&"datum".to_string(), "datum"));
    assert!(!string_is(&"datumx".to_string(), "datum"));
}

/// The supported aggregate operations are recognized; cross aggregation and
/// `drop: false` are not supported.
#[test]
fn aggregate_supported() {
    let mut agg = AggregateTransformSpec {
        groupby: vec!["Species".to_string()],
        fields: vec![Some("Beak Depth (mm)".to_string())],
        ops: vec![AggregateOpSpec::Mean],
        as_: vec![],
        cross: None,
        drop: None,
    };
    assert!(TransformSpec::Aggregate(agg.clone()).supported());
    agg.ops = vec![AggregateOpSpec::Median];
    assert!(!TransformSpec::Aggregate(agg.clone()).supported());
    agg.ops = vec![AggregateOpSpec::Mean];
    agg.cross = Some(true);
    assert!(!TransformSpec::Aggregate(agg.clone()).supported());
    agg.cross = None;
    agg.drop = Some(false);
    assert!(!TransformSpec::Aggregate(agg).supported());
}

/// Aggregate operation names are their lowercase spellings.
#[test]
fn aggregate_op_names() {
    assert_eq!(AggregateOpSpec::Mean.name(), "mean".to_string());
    assert_eq!(AggregateOpSpec::Variancep.name(), "variancep".to_string());
}

/// Converting a known transform succeeds; an unknown transform is a parse
/// error.
#[test]
fn transform_kind_conversion() {
    let f = TransformSpec::Filter(vegafusion_core::transforms::FilterTransformSpec {
        expr: ident("brush"),
    });
    assert!(TransformKind::try_from(&f).is_ok());
    let u = TransformSpec::Unsupported(UnsupportedTransformSpec {
        name: "lookup".to_string(),
    });
    assert!(TransformKind::try_from(&u).is_err());
}
