use why::resolver::path::{candidate_names, path_extensions, PathSearch};
use why::resolver::shim::{is_exe_extension, is_scoop_shim, shim_candidates};

fn s(x: &str) -> String {
    x.to_string()
}

fn strings(v: &[&str]) -> Vec<String> {
    v.iter().map(|x| x.to_string()).collect()
}

#[test]
fn default_pathext() {
    assert_eq!(path_extensions(&None), strings(&[".EXE", ".CMD", ".BAT", ".COM"]));
}

#[test]
fn pathext_split_and_uppercased() {
    assert_eq!(path_extensions(&Some(s(".exe;.Ps1;"))), strings(&[".EXE", ".PS1", ""]));
    assert_eq!(path_extensions(&Some(s(""))), strings(&[""]));
}

#[test]
fn candidates_in_order() {
    let exts = strings(&[".EXE", ".CMD"]);
    assert_eq!(candidate_names("node", &exts), strings(&["node", "node.exe", "node.EXE", "node.cmd", "node.CMD"]));
    assert_eq!(candidate_names("go", &vec![]), strings(&["go"]));
}

#[test]
fn search_keeps_first_of_each_resolved_file() {
    let mut search = PathSearch::new();
    search.visit(s("C:\\a"), None);
    search.visit(s("C:\\scoop\\shims"), Some((s("C:\\scoop\\shims\\node.exe"), Some(s("C:\\scoop\\apps\\nodejs\\node.exe")))));
    search.visit(s("C:\\scoop\\apps\\nodejs"), Some((s("C:\\scoop\\apps\\nodejs\\node.exe"), None)));
    search.visit(s("C:\\node"), Some((s("C:\\node\\node.exe"), None)));
    assert_eq!(search.search_order.len(), 4);
    assert!(search.search_order[0].matches.is_empty());
    assert_eq!(search.search_order[1].matches, strings(&["C:\\scoop\\shims\\node.exe"]));
    assert_eq!(search.results.len(), 2);
    assert_eq!(search.results[0].original_path, "C:\\scoop\\shims\\node.exe");
    assert_eq!(search.results[0].resolved_path, "C:\\scoop\\apps\\nodejs\\node.exe");
    assert!(search.results[0].is_shim);
    assert_eq!(search.results[1].resolved_path, "C:\\node\\node.exe");
    assert!(!search.results[1].is_shim);
}

#[test]
fn exe_extension_in_any_case() {
    assert!(is_exe_extension(&Some(s("EXE"))));
    assert!(is_exe_extension(&Some(s("exe"))));
    assert!(!is_exe_extension(&Some(s("shim"))));
    assert!(!is_exe_extension(&None));
}

#[test]
fn scoop_shim_needs_the_shim_file() {
    assert!(!is_scoop_shim("/tmp/test_command.exe", false));
    assert!(is_scoop_shim("/tmp/test_command.exe", true));
    assert!(!is_scoop_shim("/tmp/test_command.cmd", true));
}

#[test]
fn test_scoop_shim_parsing() {
    // A shim as Scoop writes it, beside the executable it stands in for.
    let exe_path = "/tmp/test_command.exe";
    assert!(is_scoop_shim(exe_path, true));
    let target_path = "/tmp/MockPath/target.exe";
    let shim_content = format!("path = \"{}\"\n", target_path);
    assert_eq!(shim_candidates(&shim_content), strings(&[target_path]));
}

#[test]
fn shim_file_targets() {
    let content = "  args = --x\npathology\npath=C:\\a.exe\r\npath = \"\"\"quoted\"\" \n";
    assert_eq!(shim_candidates(content), strings(&["C:\\a.exe", "quoted"]));
    assert!(shim_candidates("").is_empty());
}

#[test]
fn scoop_shim_of_a_bare_file_name() {
    assert!(is_scoop_shim("test.EXE", true));
    assert!(is_scoop_shim("a.b.exe", true));
    assert!(!is_scoop_shim("test.EXE", false));
    assert!(!is_scoop_shim("test", true));
    assert!(!is_scoop_shim(".exe", true));
    assert!(!is_scoop_shim("test.exe.cmd", true));
}

#[test]
fn shim_extension_from_slash_paths() {
    assert!(is_scoop_shim("/a/b/node.EXE", true));
    assert!(is_scoop_shim("/a/b/node.exe/", true));
    assert!(!is_scoop_shim("/a/b.exe/node", true));
    assert!(!is_scoop_shim("/a/b/.exe", true));
}
