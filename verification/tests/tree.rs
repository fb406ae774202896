use why::inspectors::finding::tree::TreeLine;
use why::inspectors::finding::{EvidenceGraph, EvidenceNode, Finding, GraphValidationError, Relationship, Severity};

fn node(id: &str, value: &str) -> EvidenceNode {
    EvidenceNode { id: id.to_string(), node_type: "T".to_string(), label: id.to_string(), value: value.to_string() }
}

fn rel(from: &str, relation: &str, to: &str) -> Relationship {
    Relationship { from: from.to_string(), relation: relation.to_string(), to: to.to_string() }
}

fn finding(nodes: Vec<EvidenceNode>, rels: Vec<Relationship>) -> Finding {
    Finding {
        severity: Severity::Error,
        subject: "s".to_string(),
        cause: "c".to_string(),
        graph: EvidenceGraph::new(nodes, rels),
        suggestion: None,
    }
}

fn show(lines: &[TreeLine]) -> Vec<String> {
    lines
        .iter()
        .map(|l| match l {
            TreeLine::Node(t) => t.clone(),
            TreeLine::Relation(p, r) => format!("{} ↓ {}", p, r),
        })
        .collect()
}

#[test]
fn draws_tree_under_root() {
    let f = finding(
        vec![node("a", ""), node("b", "1.0"), node("c", ""), node("d", "")],
        vec![rel("a", "uses", "b"), rel("a", "needs", "c"), rel("b", "runs", "d")],
    );
    let lines = f.evidence_lines().unwrap();
    assert_eq!(
        show(&lines),
        vec![
            "    a [T]",
            "         ↓ uses",
            "         b [T] (1.0)",
            "        │    ↓ runs",
            "        │    d [T]",
            "         ↓ needs",
            "         c [T]",
        ]
    );
}

#[test]
fn draws_shared_child_under_each_parent() {
    let f = finding(vec![node("a", ""), node("b", ""), node("x", "")], vec![rel("a", "r", "x"), rel("b", "r", "x")]);
    let lines = show(&f.evidence_lines().unwrap());
    assert_eq!(lines, vec!["    a [T]", "         ↓ r", "         x [T]", "    b [T]", "         ↓ r", "         x [T]"]);
}

#[test]
fn every_node_of_a_valid_graph_lies_under_a_root() {
    let f = finding(vec![node("b", ""), node("a", "")], vec![rel("a", "r", "b")]);
    let lines = show(&f.evidence_lines().unwrap());
    assert_eq!(lines, vec!["    a [T]", "         ↓ r", "         b [T]"]);
}

#[test]
fn invalid_graph_is_not_drawn() {
    let f = finding(vec![node("a", ""), node("b", "")], vec![rel("a", "r", "b"), rel("b", "r", "a")]);
    match f.evidence_lines() {
        Err(GraphValidationError::CycleDetected(id)) => assert_eq!(id, "a"),
        other => panic!("unexpected {:?}", other),
    }
    let f = finding(vec![node("a", "")], vec![rel("a", "r", "zz")]);
    assert!(matches!(f.evidence_lines(), Err(GraphValidationError::MissingNodeReference(_))));
}

#[test]
fn empty_graph_draws_nothing() {
    let f = finding(vec![], vec![]);
    assert!(f.evidence_lines().unwrap().is_empty());
}
