use why::inspectors::finding::{EvidenceGraph, EvidenceNode, GraphValidationError, Relationship, Severity};

fn node(id: &str) -> EvidenceNode {
    EvidenceNode { id: id.to_string(), node_type: "Test".to_string(), label: id.to_string(), value: "".to_string() }
}

fn rel(from: &str, to: &str) -> Relationship {
    Relationship { from: from.to_string(), relation: "->".to_string(), to: to.to_string() }
}

#[test]
fn test_valid_linear_graph() {
    let g = EvidenceGraph::new(
        vec![node("a"), node("b"), node("c")],
        vec![rel("a", "b"), rel("b", "c")],
    );
    assert!(g.validate().is_ok());
}

#[test]
fn test_valid_branching_graph() {
    let g = EvidenceGraph::new(
        vec![node("a"), node("b"), node("c")],
        vec![rel("a", "b"), rel("a", "c")],
    );
    assert!(g.validate().is_ok());
    let roots = g.roots();
    assert_eq!(roots.len(), 1);
    assert_eq!(roots[0].id, "a");
    let children = g.children("a");
    assert_eq!(children.len(), 2);
}

#[test]
fn test_duplicate_node_id() {
    let g = EvidenceGraph::new(vec![node("a"), node("a")], vec![]);
    assert!(matches!(g.validate(), Err(GraphValidationError::DuplicateNodeId(_))));
}

#[test]
fn test_missing_node_reference_from() {
    let g = EvidenceGraph::new(vec![node("b")], vec![rel("ghost", "b")]);
    assert!(matches!(g.validate(), Err(GraphValidationError::MissingNodeReference(_))));
}

#[test]
fn test_missing_node_reference_to() {
    let g = EvidenceGraph::new(vec![node("a")], vec![rel("a", "ghost")]);
    assert!(matches!(g.validate(), Err(GraphValidationError::MissingNodeReference(_))));
}

#[test]
fn test_duplicate_relationship() {
    let g = EvidenceGraph::new(vec![node("a"), node("b")], vec![rel("a", "b"), rel("a", "b")]);
    assert!(matches!(g.validate(), Err(GraphValidationError::DuplicateRelationship(_, _, _))));
}

#[test]
fn test_cycle_detection() {
    let g = EvidenceGraph::new(
        vec![node("a"), node("b"), node("c")],
        vec![rel("a", "b"), rel("b", "c"), rel("c", "a")],
    );
    assert!(matches!(g.validate(), Err(GraphValidationError::CycleDetected(_))));
}

#[test]
fn test_roots_returns_correct_nodes() {
    let g = EvidenceGraph::new(
        vec![node("a"), node("b"), node("c")],
        vec![rel("a", "b"), rel("c", "b")],
    );
    let roots = g.roots();
    let mut root_ids: Vec<&str> = roots.iter().map(|n| n.id.as_str()).collect();
    root_ids.sort();
    assert_eq!(root_ids, vec!["a", "c"]);
}

#[test]
fn test_empty_graph_is_valid() {
    let g = EvidenceGraph::new(vec![], vec![]);
    assert!(g.validate().is_ok());
}

#[test]
fn duplicate_node_reports_the_later_copy() {
    let mut second = node("b");
    second.label = "second".to_string();
    let g = EvidenceGraph::new(vec![node("a"), node("b"), second], vec![]);
    match g.validate() {
        Err(GraphValidationError::DuplicateNodeId(id)) => assert_eq!(id, "b"),
        other => panic!("unexpected {:?}", other),
    }
}

#[test]
fn missing_reference_names_the_source_first() {
    let g = EvidenceGraph::new(vec![node("a")], vec![rel("x", "y")]);
    match g.validate() {
        Err(GraphValidationError::MissingNodeReference(id)) => assert_eq!(id, "x"),
        other => panic!("unexpected {:?}", other),
    }
}

#[test]
fn duplicate_relationship_reports_its_fields() {
    let g = EvidenceGraph::new(vec![node("a"), node("b")], vec![rel("a", "b"), rel("a", "b")]);
    match g.validate() {
        Err(GraphValidationError::DuplicateRelationship(f, r, t)) => {
            assert_eq!((f.as_str(), r.as_str(), t.as_str()), ("a", "->", "b"))
        }
        other => panic!("unexpected {:?}", other),
    }
}

#[test]
fn cycle_reported_at_first_node_that_reaches_it() {
    // a -> b, b -> c, c -> b: the cycle is b <-> c, reachable from a.
    let g = EvidenceGraph::new(
        vec![node("a"), node("b"), node("c")],
        vec![rel("a", "b"), rel("b", "c"), rel("c", "b")],
    );
    match g.validate() {
        Err(GraphValidationError::CycleDetected(id)) => assert_eq!(id, "a"),
        other => panic!("unexpected {:?}", other),
    }
}

#[test]
fn self_loop_is_a_cycle() {
    let g = EvidenceGraph::new(vec![node("x"), node("y")], vec![rel("y", "y")]);
    match g.validate() {
        Err(GraphValidationError::CycleDetected(id)) => assert_eq!(id, "y"),
        other => panic!("unexpected {:?}", other),
    }
}

#[test]
fn diamond_is_not_a_cycle() {
    let g = EvidenceGraph::new(
        vec![node("a"), node("b"), node("c"), node("d")],
        vec![rel("a", "b"), rel("a", "c"), rel("b", "d"), rel("c", "d")],
    );
    assert!(g.validate().is_ok());
}

#[test]
fn children_skip_missing_targets_and_keep_order() {
    let g = EvidenceGraph::new(
        vec![node("a"), node("b"), node("c")],
        vec![rel("a", "c"), rel("a", "ghost"), rel("b", "c"), rel("a", "b")],
    );
    let children = g.children("a");
    let ids: Vec<&str> = children.iter().map(|(_, n)| n.id.as_str()).collect();
    assert_eq!(ids, vec!["c", "b"]);
}

#[test]
fn error_messages() {
    assert_eq!(GraphValidationError::DuplicateNodeId("a".to_string()).to_string(), "Duplicate node ID: a");
    assert_eq!(
        GraphValidationError::MissingNodeReference("a".to_string()).to_string(),
        "Relationship references missing node ID: a"
    );
    assert_eq!(
        GraphValidationError::DuplicateRelationship("a".to_string(), "r".to_string(), "b".to_string()).to_string(),
        "Duplicate relationship: a -[r]-> b"
    );
    assert_eq!(
        GraphValidationError::CycleDetected("a".to_string()).to_string(),
        "Cycle detected starting at node ID: a"
    );
}

#[test]
fn severity_names() {
    assert_eq!(Severity::Info.to_string(), "Info");
    assert_eq!(Severity::Warning.to_string(), "Warning");
    assert_eq!(Severity::Error.to_string(), "Error");
}
