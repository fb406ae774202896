use why::inspectors::executable::report::{
    clean_query, companion_of, count_path_entries, escape_backslashes, json_conflicts, report_display_name,
    search_order_lines, SearchLine,
};
use why::resolver::path::SearchOrderEntry;

fn s(x: &str) -> String {
    x.to_string()
}

fn entry(dir: &str, matches: &[&str]) -> SearchOrderEntry {
    SearchOrderEntry { dir: s(dir), matches: matches.iter().map(|m| m.to_string()).collect() }
}

fn show(lines: &[SearchLine]) -> Vec<String> {
    lines
        .iter()
        .map(|l| match l {
            SearchLine::Skipped(d) => format!("skip {}", d),
            SearchLine::Elided => "...".to_string(),
            SearchLine::Match(d, f) => format!("match {} {}", d, f),
            SearchLine::NoneMatched => "none".to_string(),
        })
        .collect()
}

#[test]
fn cleans_queries() {
    assert_eq!(clean_query("Node.exe"), "node");
    assert_eq!(clean_query("PYTHON.exe.exe"), "python");
    assert_eq!(clean_query("git.EXE"), "git.exe");
}

#[test]
fn display_names() {
    assert_eq!(report_display_name(&s("node")), "Node.js");
    assert_eq!(report_display_name(&s("rustup")), "Rust");
    assert_eq!(report_display_name(&s("javac")), "Java");
    assert_eq!(report_display_name(&s("docker")), "Docker");
    assert_eq!(report_display_name(&s("git")), "git");
}

#[test]
fn search_order_stops_at_match() {
    let order = vec![entry("a", &[]), entry("b", &["b/node.exe"]), entry("c", &["c/node.exe"])];
    assert_eq!(show(&search_order_lines(&order)), vec!["skip a", "match b b/node.exe"]);
}

#[test]
fn search_order_elides_after_three() {
    let order = vec![entry("a", &[]), entry("b", &[]), entry("c", &[]), entry("d", &[]), entry("e", &[]), entry("f", &["f/x"])];
    assert_eq!(show(&search_order_lines(&order)), vec!["skip a", "skip b", "skip c", "...", "match f f/x"]);
    let none = vec![entry("a", &[]), entry("b", &[])];
    assert_eq!(show(&search_order_lines(&none)), vec!["skip a", "skip b", "none"]);
    assert_eq!(show(&search_order_lines(&vec![])), vec!["none"]);
}

#[test]
fn counts_path_entries() {
    let dirs = vec![s("C:\\bin"), s("C:\\x"), s("C:\\bin")];
    assert_eq!(count_path_entries(&Some(s("C:\\bin")), &dirs), 2);
    assert_eq!(count_path_entries(&Some(s("C:\\none")), &dirs), 0);
    assert_eq!(count_path_entries(&None, &dirs), 0);
}

#[test]
fn companions() {
    assert_eq!(companion_of(&s("node")), Some(s("npm")));
    assert_eq!(companion_of(&s("python")), Some(s("pip")));
    assert_eq!(companion_of(&s("go")), None);
}

#[test]
fn conflicts_for_json() {
    assert_eq!(
        json_conflicts(&s("node"), 2, Some(false)),
        vec![s("\"Multiple node installations detected\""), s("\"npm resolves to a different installation than node\"")]
    );
    assert!(json_conflicts(&s("node"), 1, Some(true)).is_empty());
    assert!(json_conflicts(&s("node"), 1, None).is_empty());
    assert_eq!(json_conflicts(&s("go"), 3, Some(false)), vec![s("\"Multiple go installations detected\"")]);
}

#[test]
fn doubles_backslashes() {
    assert_eq!(escape_backslashes("C:\\a\\b"), "C:\\\\a\\\\b");
    assert_eq!(escape_backslashes("plain"), "plain");
}
