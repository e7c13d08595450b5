use vegafusion_core::expression::Expression;
use vegafusion_core::graph::TaskGraph;
use vegafusion_core::scope::TaskScope;
use vegafusion_core::task::{DataSourceTask, DataUrlTask, Task, UrlSpec};
use vegafusion_core::values::{ScalarValue, TaskValue};
use vegafusion_core::variable::{Variable, VariableNamespace};

fn scope_with_root_defs(signals: Vec<&str>, data: Vec<&str>) -> TaskScope {
    let mut scope = TaskScope::new();
    for s in signals {
        scope.signals.push(s.to_string());
    }
    for d in data {
        scope.data.push(d.to_string());
    }
    scope
}

/// Resolution picks the innermost definition: a signal defined both at the
/// root and inside a group resolves to the group's definition from inside
/// the group, and to the root's from the root; a dataset defined only at
/// the root resolves to the root from both scopes.
#[test]
fn resolution_shadowing_and_locality() {
    let mut root = scope_with_root_defs(vec!["x"], vec!["x"]);
    let mut inner = TaskScope::new();
    inner.signals.push("x".to_string());
    root.children.push(inner);

    let sig = Variable::new_signal("x");
    let data = Variable::new_data("x");

    let from_group = root.resolve_scope(&sig, &[0]).unwrap();
    assert_eq!(from_group.scope, vec![0u32]);

    let from_root = root.resolve_scope(&sig, &[]).unwrap();
    assert_eq!(from_root.scope, Vec::<u32>::new());

    let data_from_group = root.resolve_scope(&data, &[0]).unwrap();
    assert_eq!(data_from_group.scope, Vec::<u32>::new());

    let data_from_root = root.resolve_scope(&data, &[]).unwrap();
    assert_eq!(data_from_root.scope, Vec::<u32>::new());
}

/// Resolution through the output-signal map returns the defining dataset
/// and names the signal as the output variable.
#[test]
fn resolution_output_signal() {
    let mut root = TaskScope::new();
    root.data.push("source_0".to_string());
    root.output_var_defs
        .push(("extent_sig".to_string(), "source_0".to_string()));

    let sig = Variable::new_signal("extent_sig");
    let resolved = root.resolve_scope(&sig, &[]).unwrap();
    assert_eq!(resolved.var.name, "source_0".to_string());
    assert!(resolved.output_var.is_some());
}

/// An unresolvable name is a specification error.
#[test]
fn resolution_failure() {
    let root = TaskScope::new();
    let sig = Variable::new_signal("missing");
    assert!(root.resolve_scope(&sig, &[]).is_err());
}

fn value_task(name: &str, v: i64) -> Task {
    Task::new_value(
        Variable::new_signal(name),
        &[],
        TaskValue::Scalar(ScalarValue::Number(v)),
    )
}

fn source_task(name: &str, source: &str) -> Task {
    Task::new_data_source(
        Variable::new_data(name),
        &[],
        DataSourceTask {
            source: source.to_string(),
            pipeline: None,
        },
    )
}

fn chain_graph() -> (TaskGraph, TaskScope) {
    // A (value signal, but as data for sourcing) -> B -> C
    let mut scope = TaskScope::new();
    scope.data.push("a".to_string());
    scope.data.push("b".to_string());
    scope.data.push("c".to_string());
    let a = Task::new_value(
        Variable::new_data("a"),
        &[],
        TaskValue::Scalar(ScalarValue::Number(1)),
    );
    let b = source_task("b", "a");
    let c = source_task("c", "b");
    let graph = TaskGraph::new(vec![c, a, b], &scope).unwrap();
    (graph, scope)
}

/// The graph is toposorted: every incoming edge's source index is strictly
/// below its node's own index, whatever order the tasks arrive in.
#[test]
fn toposorted_dag() {
    let (graph, _) = chain_graph();
    assert_eq!(graph.nodes.len(), 3);
    for (i, node) in graph.nodes.iter().enumerate() {
        for e in &node.incoming {
            assert!((e.source as usize) < i);
        }
    }
}

/// A dependency cycle is rejected.
#[test]
fn cycle_rejected() {
    let mut scope = TaskScope::new();
    scope.data.push("a".to_string());
    scope.data.push("b".to_string());
    let a = source_task("a", "b");
    let b = source_task("b", "a");
    assert!(TaskGraph::new(vec![a, b], &scope).is_err());
}

/// Duplicate definition sites are a specification error.
#[test]
fn duplicate_rejected() {
    let mut scope = TaskScope::new();
    scope.signals.push("x".to_string());
    let t1 = value_task("x", 1);
    let t2 = value_task("x", 2);
    assert!(TaskGraph::new(vec![t1, t2], &scope).is_err());
}

/// Building the same specification twice yields byte-equal identity and
/// state fingerprints.
#[test]
fn fingerprint_idempotence() {
    let (g1, _) = chain_graph();
    let (g2, _) = chain_graph();
    for (n1, n2) in g1.nodes.iter().zip(g2.nodes.iter()) {
        assert_eq!(n1.id_fingerprint, n2.id_fingerprint);
        assert_eq!(n1.state_fingerprint, n2.state_fingerprint);
    }
}

/// After updating a leaf's value, the changed set is exactly the leaf and
/// its transitive descendants; repeating the same update changes nothing.
#[test]
fn update_propagation() {
    let (mut graph, _) = chain_graph();
    // find the value node (the chain root)
    let mut root_idx = None;
    for (i, node) in graph.nodes.iter().enumerate() {
        if node.incoming.is_empty() {
            root_idx = Some(i);
        }
    }
    let root_idx = root_idx.unwrap();
    let changed = graph
        .update_value(root_idx, TaskValue::Scalar(ScalarValue::Number(42)))
        .unwrap();
    let changed_nodes: Vec<u32> = changed.iter().map(|nvi| nvi.node_index).collect();
    assert_eq!(changed_nodes, vec![0, 1, 2]);

    let changed_again = graph
        .update_value(root_idx, TaskValue::Scalar(ScalarValue::Number(42)))
        .unwrap();
    assert!(changed_again.is_empty());
}

/// The value-to-bytes encoding is deterministic and value-sensitive.
#[test]
fn value_encoding() {
    let v1 = TaskValue::Scalar(ScalarValue::Utf8("abc".to_string()));
    let v2 = TaskValue::Scalar(ScalarValue::Utf8("abc".to_string()));
    let v3 = TaskValue::Scalar(ScalarValue::Utf8("abd".to_string()));
    assert_eq!(
        vegafusion_core::codec::encode_task_value(&v1),
        vegafusion_core::codec::encode_task_value(&v2)
    );
    assert_ne!(
        vegafusion_core::codec::encode_task_value(&v1),
        vegafusion_core::codec::encode_task_value(&v3)
    );
}

/// Reading back an encoded 64-bit integer returns it unchanged.
#[test]
fn u64_roundtrip() {
    let mut buf: Vec<u8> = Vec::new();
    vegafusion_core::codec::write_u64(&mut buf, 0xdead_beef_1234_5678);
    assert_eq!(
        vegafusion_core::codec::read_u64(&buf, 0),
        Some(0xdead_beef_1234_5678)
    );
}

/// Same-named variables stay distinct across namespaces and scopes: a
/// signal read from inside a group resolves to the group's definition, and
/// the built graph's edge points at that node, not the root signal or the
/// same-named dataset.
#[test]
fn namespaced_shadowed_edges() {
    let mut scope = TaskScope::new();
    scope.signals.push("x".to_string());
    scope.data.push("x".to_string());
    let mut inner = TaskScope::new();
    inner.signals.push("x".to_string());
    inner.data.push("reader".to_string());
    scope.children.push(inner);

    let sig_root = Task::new_value(
        Variable::new_signal("x"),
        &[],
        TaskValue::Scalar(ScalarValue::Number(1)),
    );
    let sig_inner = Task::new_value(
        Variable::new_signal("x"),
        &[0],
        TaskValue::Scalar(ScalarValue::Number(2)),
    );
    let data_root = Task::new_value(
        Variable::new_data("x"),
        &[],
        TaskValue::Scalar(ScalarValue::Number(3)),
    );
    let reader = Task::new_data_url(
        Variable::new_data("reader"),
        &[0],
        DataUrlTask {
            url: UrlSpec::Expr(Expression::Identifier("x".to_string())),
            batch_size: 8096,
            format_type: None,
            pipeline: None,
        },
    );
    let graph = TaskGraph::new(vec![sig_root, sig_inner, data_root, reader], &scope).unwrap();
    let mut found = false;
    for node in graph.nodes.iter() {
        let t = node.task.as_ref().unwrap();
        if t.variable.as_ref().unwrap().name == "reader" {
            found = true;
            assert_eq!(node.incoming.len(), 1);
            let src = &graph.nodes[node.incoming[0].source as usize];
            let st = src.task.as_ref().unwrap();
            let sv = st.variable.as_ref().unwrap();
            assert_eq!(sv.namespace, VariableNamespace::Signal);
            assert_eq!(sv.name, "x".to_string());
            assert_eq!(st.scope, vec![0u32]);
        }
    }
    assert!(found);
}
