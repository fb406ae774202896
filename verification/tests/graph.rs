use why::graph::chains::{
    build_executable_chain, build_port_chain, executable_chain_from, exe_display_name, port_chain_from,
    runtime_query_name, sibling_tool, ChainFacts, ExecutableObservation, PortFacts, PortObservation,
    SiblingObservation,
};
use why::graph::report::{plural, DiagnosticReport};
use why::graph::SystemGraph;
use why::inspectors::executable::InstallationInfo;
use why::inspectors::finding::{EvidenceGraph, EvidenceNode, Finding, Relationship, Severity};
use why::platform::{PortData, ProcessData};
use why::resolver::path::PathSearchResult;

fn s(x: &str) -> String {
    x.to_string()
}

fn ids(f: &Finding) -> Vec<String> {
    f.graph.nodes.iter().map(|n| n.id.clone()).collect()
}

fn finding(severity: Severity, subject: &str, node_ids: &[&str]) -> Finding {
    let nodes = node_ids
        .iter()
        .map(|i| EvidenceNode { id: s(i), node_type: s("T"), label: s(i), value: s("") })
        .collect();
    Finding { severity, subject: s(subject), cause: s("c"), graph: EvidenceGraph::new(nodes, vec![]), suggestion: None }
}

#[test]
fn system_graph_builder() {
    let mut g = SystemGraph::new();
    g.node("a", "T", "A", "1");
    g.node("a", "T", "other", "2");
    g.node("b", "T", "B", "");
    g.edge("a", "to", "b");
    g.edge("a", "to", "missing");
    g.merge(EvidenceGraph::new(
        vec![EvidenceNode { id: s("b"), node_type: s("X"), label: s("X"), value: s("") }, EvidenceNode {
            id: s("c"),
            node_type: s("T"),
            label: s("C"),
            value: s(""),
        }],
        vec![Relationship { from: s("b"), relation: s("to"), to: s("c") }],
    ));
    let f = g.into_finding(Severity::Warning, s("subj"), s("cause"), Some(s("hint")));
    assert_eq!(ids(&f), vec![s("a"), s("b"), s("c")]);
    assert_eq!(f.graph.nodes[0].label, "A");
    assert_eq!(f.graph.nodes[1].node_type, "T");
    assert_eq!(f.graph.relationships.len(), 2);
    assert!(f.graph.validate().is_ok());
    assert_eq!(f.severity, Severity::Warning);
    assert_eq!(f.suggestion, Some(s("hint")));
    let empty = SystemGraph::new().build();
    assert!(empty.nodes.is_empty() && empty.relationships.is_empty());
}

#[test]
fn report_ranks_and_summarizes() {
    let report = DiagnosticReport::new(
        s("t"),
        vec![
            finding(Severity::Info, "i1", &["x"]),
            finding(Severity::Error, "e1", &["a", "shared"]),
            finding(Severity::Warning, "w1", &["w"]),
            finding(Severity::Error, "e2", &["shared"]),
        ],
    );
    let order: Vec<&str> = report.findings.iter().map(|f| f.subject.as_str()).collect();
    assert_eq!(order, vec!["e1", "e2", "w1", "i1"]);
    let blockers: Vec<&str> = report.blockers().iter().map(|f| f.subject.as_str()).collect();
    assert_eq!(blockers, vec!["e1", "e2"]);
    let summary = report.summary();
    assert_eq!(summary.total, 4);
    assert_eq!(summary.blocking, 2);
    assert!(!summary.independent);
    assert_eq!(plural(summary.blocking), "s");
    assert_eq!(plural(1), "");
}

#[test]
fn report_add_reranks_and_independence() {
    let mut report = DiagnosticReport::new(s("t"), vec![finding(Severity::Info, "i", &["x"])]);
    report.add(finding(Severity::Error, "e", &["y"]));
    assert_eq!(report.findings[0].subject, "e");
    assert_eq!(report.title, "t");
    let a = finding(Severity::Error, "a", &["n1", "n2"]);
    let b = finding(Severity::Error, "b", &["n3"]);
    let c = finding(Severity::Error, "c", &["n2"]);
    assert!(DiagnosticReport::are_independent(&a, &b));
    assert!(!DiagnosticReport::are_independent(&a, &c));
    assert!(!DiagnosticReport::are_independent(&c, &a));
    let independent = DiagnosticReport::new(s("t"), vec![a, b]).summary();
    assert!(independent.independent);
    let empty = DiagnosticReport::new(s("t"), vec![]).summary();
    assert_eq!((empty.total, empty.blocking, empty.independent), (0, 0, true));
}

#[test]
fn names_and_siblings() {
    assert_eq!(exe_display_name("Node.exe"), "Node.js");
    assert_eq!(exe_display_name("Node.EXE"), "node.exe");
    assert_eq!(exe_display_name("rustc.exe"), "Rust");
    assert_eq!(exe_display_name("tool.exe"), "tool");
    assert_eq!(sibling_tool("node"), Some("npm"));
    assert_eq!(sibling_tool("python3"), Some("pip"));
    assert_eq!(sibling_tool("go"), None);
    assert_eq!(runtime_query_name("Python.exe"), "python");
}

fn result(path: &str) -> PathSearchResult {
    PathSearchResult { original_path: s(path), resolved_path: s(path), is_shim: false }
}

#[test]
fn executable_chain_for_missing_command() {
    let obs = ExecutableObservation { results: vec![], version: None, projects: vec![], sibling: None };
    let f = build_executable_chain("ghost", &obs);
    assert_eq!(f.severity, Severity::Error);
    assert_eq!(f.cause, "'ghost' was not found in any PATH entry.");
    assert_eq!(f.suggestion, Some(s("Install ghost or verify your PATH configuration.")));
    assert_eq!(ids(&f), vec![s("path"), s("exe:ghost")]);
    assert_eq!(f.graph.nodes[1].value, "Not Found");
}

#[test]
fn executable_chain_with_conflicts() {
    let obs = ExecutableObservation {
        results: vec![result("C:\\fnm\\node.exe"), result("C:\\Program Files\\nodejs\\node.exe")],
        version: Some(s("v20.1.0")),
        projects: vec![s("C:\\p\\web")],
        sibling: Some(SiblingObservation { resolved_path: s("C:\\other\\npm.cmd"), shares_root: false }),
    };
    let facts = ChainFacts {
        active_name: Some(s("node.exe")),
        active_install: InstallationInfo { manager: s("fnm (Fast Node Manager)"), detail: Some(s("Managed")) },
        project_names: vec![Some(s("web"))],
        alt_names: vec![Some(s("node"))],
        alt_managers: vec![s("System / Manual Installation")],
    };
    let f = executable_chain_from("node", &obs, &facts);
    assert_eq!(f.severity, Severity::Warning);
    assert_eq!(f.cause, "2 installations of 'node' found on PATH. Active: v20.1.0 via fnm (Fast Node Manager).");
    assert_eq!(f.suggestion, Some(s("node and npm resolve to different installations \u{2014} possible version mismatch.")));
    assert_eq!(
        ids(&f),
        vec![
            s("path"),
            s("exe:node"),
            s("mgr:fnm__fast_node_manager_"),
            s("runtime:node"),
            s("project:web"),
            s("exe:npm"),
            s("exe:node_alt1"),
        ]
    );
    assert_eq!(f.graph.nodes[3].label, "Node.js");
    assert_eq!(f.graph.nodes[6].label, "node.exe [shadowed, entry #2]");
    let rel = &f.graph.relationships[f.graph.relationships.len() - 1];
    assert_eq!(rel.relation, "also found (entry #2, via System / Manual Installation)");
    assert!(f.graph.validate().is_ok());
}

fn process(cmd: &str) -> ProcessData {
    ProcessData {
        pid: s("42"),
        name: s("node"),
        path: s(""),
        parent: s("7"),
        cpu: s(""),
        mem_bytes: 0,
        owner: s(""),
        cmd_line: s(cmd),
    }
}

#[test]
fn port_chain_free_and_occupied() {
    let free = PortObservation { conn: None, process: None, version: None, projects: vec![] };
    let f = build_port_chain(8080, &free);
    assert_eq!(f.subject, "Port 8080");
    assert_eq!(f.cause, "Port 8080 is free \u{2014} nothing is listening.");
    assert_eq!(ids(&f), vec![s("port:8080")]);
    let long = "x".repeat(100);
    let busy = PortObservation {
        conn: Some(PortData { pid: s("42"), name: s("node"), address: s("0.0.0.0:3000"), parent: s("7"), cmd_line: s("") }),
        process: Some(process(&long)),
        version: None,
        projects: vec![],
    };
    let facts = PortFacts { exe_name: s("node.exe"), install: InstallationInfo { manager: s("Scoop"), detail: None }, project_names: vec![] };
    let f = port_chain_from(3000, &busy, &facts);
    assert_eq!(f.cause, "Port 3000 is occupied by node (PID 42).");
    assert_eq!(ids(&f), vec![s("port:3000"), s("pid:42"), s("cmd:42"), s("parent:7")]);
    assert_eq!(f.graph.nodes[2].value, format!("{}\u{2026}", "x".repeat(80)));
    assert_eq!(f.graph.nodes[3].label, "Parent (7)");
    assert!(f.graph.validate().is_ok());
}

#[test]
fn executable_chain_names_from_paths() {
    let obs = ExecutableObservation {
        results: vec![result("/usr/local/bin/node")],
        version: None,
        projects: vec![s("/home/me/Projects/site")],
        sibling: Some(SiblingObservation { resolved_path: s("/usr/local/bin/npm"), shares_root: true }),
    };
    let f = build_executable_chain("node", &obs);
    assert_eq!(f.severity, Severity::Info);
    assert_eq!(f.cause, "'node' resolves to unknown version via System / Manual Installation.");
    assert_eq!(f.suggestion, None);
    assert_eq!(f.graph.nodes[1].label, "node");
    assert_eq!(f.graph.nodes[1].value, "/usr/local/bin/node");
    assert_eq!(ids(&f), vec![s("path"), s("exe:node"), s("mgr:system_/_manual_installation")]);
}

fn subjects(r: &DiagnosticReport) -> Vec<String> {
    r.findings.iter().map(|f| f.subject.clone()).collect()
}

#[test]
fn ranking_twice_changes_nothing() {
    let once = DiagnosticReport::new(
        s("t"),
        vec![finding(Severity::Info, "i", &["a"]), finding(Severity::Warning, "w", &["b"]), finding(Severity::Error, "e", &["c"])],
    );
    let twice = DiagnosticReport::new(s("t"), once.findings.clone());
    assert_eq!(subjects(&once), subjects(&twice));
}

#[test]
fn adding_matches_building_with_the_finding() {
    let base = vec![finding(Severity::Warning, "w", &["a"]), finding(Severity::Info, "i", &["b"])];
    let mut added = DiagnosticReport::new(s("t"), base.clone());
    added.add(finding(Severity::Warning, "w2", &["c"]));
    let mut all = base;
    all.push(finding(Severity::Warning, "w2", &["c"]));
    let built = DiagnosticReport::new(s("t"), all);
    assert_eq!(subjects(&added), subjects(&built));
    assert_eq!(subjects(&added), vec![s("w"), s("w2"), s("i")]);
}

#[test]
fn builder_graphs_never_miss_references() {
    let mut g = SystemGraph::new();
    g.node("a", "T", "A", "");
    g.node("b", "T", "B", "");
    g.edge("a", "r", "b");
    g.edge("b", "r", "a");
    g.edge("a", "r", "nowhere");
    let built = g.build();
    assert!(matches!(built.validate(), Err(why::inspectors::finding::GraphValidationError::CycleDetected(_))));
}

#[test]
fn process_executable_names() {
    let mut p = process("");
    assert_eq!(why::graph::chains::process_exe_name(&p), "node");
    p.path = s("node.exe");
    assert_eq!(why::graph::chains::process_exe_name(&p), "node.exe");
    p.path = s("..");
    assert_eq!(why::graph::chains::process_exe_name(&p), "node");
    p.path = s("/usr/bin/python3");
    assert_eq!(why::graph::chains::process_exe_name(&p), "python3");
}

#[test]
fn independence_looks_at_every_pair_of_blockers() {
    let report = DiagnosticReport::new(
        s("t"),
        vec![
            finding(Severity::Error, "a", &["x", "shared"]),
            finding(Severity::Error, "b", &["y"]),
            finding(Severity::Error, "c", &["shared"]),
        ],
    );
    assert!(!report.summary().independent);
    let report = DiagnosticReport::new(
        s("t"),
        vec![finding(Severity::Error, "a", &["x"]), finding(Severity::Error, "b", &["y"]), finding(Severity::Error, "c", &["z"])],
    );
    assert!(report.summary().independent);
}

fn rels(f: &Finding) -> Vec<(String, String, String)> {
    f.graph.relationships.iter().map(|r| (r.from.clone(), r.relation.clone(), r.to.clone())).collect()
}

#[test]
fn binaries_are_installed_by_their_manager() {
    let obs = ExecutableObservation {
        results: vec![result("/usr/bin/node"), result("/opt/node/bin/node")],
        version: None,
        projects: vec![],
        sibling: None,
    };
    let f = build_executable_chain("node", &obs);
    let r = rels(&f);
    assert!(r.contains(&(s("exe:node"), s("installed by"), s("mgr:system_/_manual_installation"))));
    assert!(!r.iter().any(|x| x.1 == "manages"));
    let alt = f.graph.nodes.iter().find(|n| n.id == "exe:node_alt1").unwrap();
    assert_eq!(alt.node_type, "Binary");
    assert_eq!(alt.value, "/opt/node/bin/node");
    assert!(r.iter().any(|x| x.0 == "path" && x.2 == "exe:node_alt1"));
    assert!(f.graph.validate().is_ok());
}

#[test]
fn port_chain_with_executable() {
    let mut p = process("node server.js");
    p.path = s("node.exe");
    let busy = PortObservation {
        conn: Some(PortData { pid: s("42"), name: s("node"), address: s("0.0.0.0:3000"), parent: s("42"), cmd_line: s("") }),
        process: Some(p),
        version: Some(s("v20.0.0")),
        projects: vec![s("/home/me/Projects/api")],
    };
    let f = build_port_chain(3000, &busy);
    let r = rels(&f);
    assert_eq!(
        r,
        vec![
            (s("port:3000"), s("owned by"), s("pid:42")),
            (s("pid:42"), s("running as"), s("cmd:42")),
            (s("pid:42"), s("executable"), s("exe:node.exe")),
            (s("exe:node.exe"), s("installed by"), s("mgr:system_/_manual_installation")),
            (s("exe:node.exe"), s("resolves to"), s("runtime:node.exe")),
            (s("runtime:node.exe"), s("used by"), s("project:api")),
        ]
    );
    assert!(f.graph.validate().is_ok());
    let free = build_port_chain(8080, &PortObservation { conn: None, process: None, version: None, projects: vec![] });
    assert!(free.graph.relationships.is_empty());
    assert_eq!(free.graph.nodes[0].label, "Port 8080");
}

#[test]
fn added_finding_goes_after_the_last_as_severe() {
    let mut report = DiagnosticReport::new(
        s("t"),
        vec![finding(Severity::Error, "e", &["a"]), finding(Severity::Warning, "w1", &["b"]), finding(Severity::Info, "i", &["c"])],
    );
    report.add(finding(Severity::Warning, "w2", &["d"]));
    assert_eq!(subjects(&report), vec![s("e"), s("w1"), s("w2"), s("i")]);
    report.add(finding(Severity::Error, "e2", &["f"]));
    assert_eq!(subjects(&report), vec![s("e"), s("e2"), s("w1"), s("w2"), s("i")]);
}

#[test]
fn chains_with_one_project_validate() {
    let obs = ExecutableObservation {
        results: vec![result("/usr/bin/python3"), result("/usr/local/bin/python3"), result("/opt/py/python3")],
        version: Some(s("3.12.1")),
        projects: vec![s("/home/me/Projects/site")],
        sibling: Some(SiblingObservation { resolved_path: s("/elsewhere/pip"), shares_root: false }),
    };
    let f = build_executable_chain("python3", &obs);
    assert!(f.graph.validate().is_ok());
    assert_eq!(
        ids(&f),
        vec![
            s("path"),
            s("exe:python3"),
            s("mgr:system_/_manual_installation"),
            s("runtime:python3"),
            s("project:site"),
            s("exe:pip"),
            s("exe:python3_alt1"),
            s("exe:python3_alt2"),
        ]
    );
}

fn label_of<'a>(f: &'a Finding, id: &str) -> &'a str {
    f.graph.nodes.iter().find(|n| n.id == id).map(|n| n.label.as_str()).unwrap()
}

#[test]
fn chain_labels_come_from_each_path() {
    let obs = ExecutableObservation {
        results: vec![result("/usr/local/bin/node"), result("/opt//nodejs/bin/node-18/"), result("/snap/bin/nodejs")],
        version: Some(s("v22.0.0")),
        projects: vec![s("/home/me/alpha"), s("/srv/beta/"), s("/work/./gamma"), s("/work/delta")],
        sibling: None,
    };
    let f = build_executable_chain("node", &obs);
    assert_eq!(label_of(&f, "exe:node"), "node");
    assert_eq!(label_of(&f, "project:alpha"), "alpha");
    assert_eq!(label_of(&f, "project:beta"), "beta");
    assert_eq!(label_of(&f, "project:gamma"), "gamma");
    assert!(f.graph.nodes.iter().all(|n| n.label != "delta"));
    assert_eq!(label_of(&f, "exe:node_alt1"), "node-18.exe [shadowed, entry #2]");
    assert_eq!(label_of(&f, "exe:node_alt2"), "nodejs.exe [shadowed, entry #3]");
    assert!(f.graph.nodes.iter().all(|n| n.node_type != "Constraint"));
    assert!(f.graph.validate().is_ok());
}

#[test]
fn port_chain_labels_come_from_each_path() {
    let mut p = process("");
    p.path = s("/usr/lib/node/bin/node");
    let busy = PortObservation {
        conn: Some(PortData { pid: s("42"), name: s("x"), address: s("0.0.0.0:80"), parent: s(""), cmd_line: s("") }),
        process: Some(p),
        version: Some(s("v20.0.0")),
        projects: vec![s("/home/me/web"), s("/home/me/api/")],
    };
    let f = build_port_chain(80, &busy);
    assert_eq!(label_of(&f, "exe:node"), "node");
    assert_eq!(label_of(&f, "project:web"), "web");
    assert_eq!(label_of(&f, "project:api"), "api");
}

#[test]
fn process_names_from_slash_paths() {
    let mut p = process("");
    p.path = s("/usr/bin/");
    assert_eq!(why::graph::chains::process_exe_name(&p), "bin");
    p.path = s("/");
    assert_eq!(why::graph::chains::process_exe_name(&p), "node");
    p.path = s("/opt/x/..");
    assert_eq!(why::graph::chains::process_exe_name(&p), "node");
    p.path = s("./tools/./deno");
    assert_eq!(why::graph::chains::process_exe_name(&p), "deno");
}
