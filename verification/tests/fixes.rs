use why::graph::fixes::{fix_lookup, suggest_fixes, suggest_fixes_for, FixLookup, FixObservation, FixOption, FixPlan, FixRisk};
use why::inspectors::finding::{EvidenceGraph, EvidenceNode, Finding, Severity};

fn s(x: &str) -> String {
    x.to_string()
}

fn seen(found: bool) -> FixObservation {
    FixObservation { binary_found: found, node_finding: None, has_fnm: false, has_scoop: false, has_nvm: false }
}

fn node_finding(severity: Severity, constraint: Option<&str>) -> Finding {
    let mut nodes = vec![EvidenceNode { id: s("a"), node_type: s("File"), label: s("package.json"), value: s("") }];
    if let Some(c) = constraint {
        nodes.push(EvidenceNode { id: s("c"), node_type: s("Constraint"), label: s("engines"), value: s(c) });
    }
    Finding { severity, subject: s("Node.js"), cause: s("mismatch"), graph: EvidenceGraph::new(nodes, vec![]), suggestion: None }
}

#[test]
fn lookups() {
    assert!(matches!(fix_lookup("NodeJS"), FixLookup::NodeEnvironment));
    assert!(matches!(fix_lookup("Postgres"), FixLookup::Nothing));
    assert!(matches!(fix_lookup("rust"), FixLookup::Binary(b) if b == "cargo"));
    assert!(matches!(fix_lookup("ripgrep"), FixLookup::Binary(b) if b == "ripgrep"));
}

#[test]
fn runtime_plans() {
    assert!(suggest_fixes("python", &seen(true)).is_none());
    let p = suggest_fixes("Python", &seen(false)).unwrap();
    assert_eq!(p.subject, "Python");
    assert_eq!(p.problem, "'python' was not found on PATH.");
    assert_eq!(p.fix_command, "why fix python");
    assert_eq!(p.options.len(), 2);
    assert_eq!(p.options[0].label, "Install Python via Scoop");
    assert_eq!(p.options[1].label, "Install Python via WinGet");
    assert_eq!(p.options[1].command, "winget install Python.Python.3");
    let d = suggest_fixes("docker", &seen(false)).unwrap();
    assert_eq!(d.options[0].label, "Install Docker via WinGet");
}

#[test]
fn service_and_generic_plans() {
    let p = suggest_fixes("postgresql", &seen(false)).unwrap();
    assert_eq!(p.problem, "PostgreSQL is required but is not running.");
    assert_eq!(p.options[0].command, "docker compose up -d db");
    assert_eq!(p.options[1].command, "sc start postgresql");
    assert_eq!(p.fix_command, "why fix postgresql");
    let g = suggest_fixes("ripgrep", &seen(false)).unwrap();
    assert_eq!(g.options[0].command, "scoop install ripgrep");
    assert!(suggest_fixes("ripgrep", &seen(true)).is_none());
}

#[test]
fn node_plans() {
    assert!(suggest_fixes("node", &seen(false)).is_none());
    let mut o = seen(false);
    o.node_finding = Some(node_finding(Severity::Info, Some(">=20")));
    assert!(suggest_fixes("node", &o).is_none());
    o.node_finding = Some(node_finding(Severity::Error, Some(">=20.1")));
    o.has_fnm = true;
    o.has_scoop = true;
    let p = suggest_fixes("node", &o).unwrap();
    let commands: Vec<&str> = p.options.iter().map(|x| x.command.as_str()).collect();
    assert_eq!(
        commands,
        vec!["fnm use 20", "fnm install 20", "scoop install nodejs@20", "start https://nodejs.org/download/release/latest-v20.x/"]
    );
    assert_eq!(p.problem, "mismatch");
    o.node_finding = Some(node_finding(Severity::Error, None));
    o.has_fnm = false;
    o.has_scoop = false;
    let p = suggest_fixes("node", &o).unwrap();
    assert_eq!(p.options.len(), 1);
    assert_eq!(p.options[0].label, "Download Node 22 installer from nodejs.org");
}

fn plan(commands: &[&str]) -> FixPlan {
    FixPlan {
        subject: s("x"),
        problem: s("p"),
        options: commands
            .iter()
            .map(|c| FixOption { label: s("l"), command: s(c), risk: FixRisk::High, reversible: false })
            .collect(),
        fix_command: s("why fix x"),
    }
}

#[test]
fn first_command_splits_program_and_arguments() {
    let (program, args) = plan(&["fnm use  20 --x", "other"]).first_command().unwrap();
    assert_eq!(program, "fnm");
    assert_eq!(args, vec![s("use"), s("20"), s("--x")]);
    let (program, args) = plan(&["scoop"]).first_command().unwrap();
    assert_eq!(program, "scoop");
    assert!(args.is_empty());
    assert_eq!(plan(&[]).first_command(), Err(s("No fix options available.")));
}

#[test]
fn risk_and_impact_labels() {
    assert_eq!(FixRisk::Low.label(), "low risk");
    assert_eq!(FixRisk::Medium.label(), "medium risk");
    assert_eq!(FixRisk::High.label(), "high risk");
    let p = plan(&["a"]);
    assert_eq!(p.options[0].impact(), "irreversible");
}

#[test]
fn every_suggested_plan_is_safe() {
    let mut with_node = seen(false);
    with_node.node_finding = Some(node_finding(Severity::Warning, Some("^18")));
    with_node.has_fnm = true;
    with_node.has_nvm = true;
    with_node.has_scoop = true;
    let subjects = ["node", "NodeJS", "python", "rust", "Cargo", "go", "docker", "postgres", "PostgreSQL", "redis", "ripgrep"];
    let mut checked = 0;
    for subject in subjects {
        for observed in [&seen(false), &with_node] {
            if let Some(p) = suggest_fixes(subject, observed) {
                checked += 1;
                assert!(!p.options.is_empty());
                assert!(p.options.iter().all(|o| o.reversible && o.risk != FixRisk::High));
                assert!(p.fix_command.starts_with("why fix "));
            }
        }
    }
    assert!(checked >= subjects.len());
}

fn node_obs(paths: &[&str]) -> why::graph::chains::ExecutableObservation {
    why::graph::chains::ExecutableObservation {
        results: paths
            .iter()
            .map(|p| why::resolver::path::PathSearchResult { original_path: s(p), resolved_path: s(p), is_shim: false })
            .collect(),
        version: Some(s("v18.0.0")),
        projects: vec![],
        sibling: None,
    }
}

#[test]
fn node_plan_built_from_the_node_chain() {
    let mut o = seen(false);
    o.has_nvm = true;
    assert!(suggest_fixes_for("node", &node_obs(&["/usr/bin/node"]), &o).is_none());
    let p = suggest_fixes_for("NODE", &node_obs(&["/usr/bin/node", "/opt/node/bin/node"]), &o).unwrap();
    assert_eq!(p.subject, "Node.js");
    assert_eq!(p.problem, "2 installations of 'node' found on PATH. Active: v18.0.0 via System / Manual Installation.");
    let commands: Vec<&str> = p.options.iter().map(|x| x.command.as_str()).collect();
    assert_eq!(commands, vec!["nvm use 22", "nvm install 22", "start https://nodejs.org/download/release/latest-v22.x/"]);
    assert_eq!(p.fix_command, "why fix node");
    let missing = suggest_fixes_for("node", &node_obs(&[]), &o).unwrap();
    assert_eq!(missing.problem, "'node' was not found in any PATH entry.");
    let g = suggest_fixes_for("ripgrep", &node_obs(&[]), &o).unwrap();
    assert_eq!(g.options[0].command, "scoop install ripgrep");
}
