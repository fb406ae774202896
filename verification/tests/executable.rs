use why::inspectors::executable::conflict::{parents_share_root, paths_share_environment, share_installation_root};
use why::inspectors::executable::installation::{installation_for, scoop_app_detail};
use why::inspectors::executable::version::{extract_version_from_text, next_version_flag, query_version, version_flags, version_from_output};
use why::inspectors::executable::detect_installation_source;

fn s(x: &str) -> String {
    x.to_string()
}

fn strings(v: &[&str]) -> Vec<String> {
    v.iter().map(|x| x.to_string()).collect()
}

#[test]
fn versions_in_text() {
    assert_eq!(extract_version_from_text("node v20.11.0"), Some(s("v20.11.0")));
    assert_eq!(extract_version_from_text("Python 3.12.1\n"), Some(s("3.12.1")));
    assert_eq!(extract_version_from_text("cargo 1.78.0 (54d8815d0 2024-03-26)"), Some(s("1.78.0")));
    assert_eq!(extract_version_from_text("go version go1.22.0 linux/amd64"), None);
    assert_eq!(extract_version_from_text("(v1.2)"), Some(s("v1.2")));
    assert_eq!(extract_version_from_text("version 12"), None);
    assert_eq!(extract_version_from_text(""), None);
}

#[test]
fn versions_from_runs() {
    assert_eq!(version_flags(), vec!["--version", "-v", "-V"]);
    assert_eq!(version_from_output(true, "nothing", "tool 2.0.1"), Some(s("2.0.1")));
    assert_eq!(version_from_output(false, "tool 2.0.1", ""), None);
    let runs = vec![None, Some((true, s("usage"), s(""))), Some((true, s("x 1.2.3"), s(""))), Some((true, s("9.9.9"), s("")))];
    assert_eq!(query_version(&runs), Some(s("1.2.3")));
    assert_eq!(query_version(&vec![None, None]), None);
}

#[test]
fn installation_sources() {
    let scoop = "C:\\Users\\me\\scoop\\apps\\nodejs\\current\\node.exe";
    let parts = strings(&["C:", "\\", "Users", "me", "scoop", "Apps", "nodejs", "current", "node.exe"]);
    let info = installation_for(scoop, &parts);
    assert_eq!(info.manager, "Scoop");
    assert_eq!(info.detail, Some(s("App directory: nodejs")));
    assert_eq!(scoop_app_detail(&strings(&["a", "apps"])), None);
    let fnm = installation_for("C:\\Users\\me\\AppData\\Local\\fnm_multishells\\1\\node.exe", &vec![]);
    assert_eq!(fnm.manager, "fnm (Fast Node Manager)");
    assert_eq!(fnm.detail, Some(s("Managed Node.js environment")));
    assert_eq!(detect_installation_source("C:\\Users\\me\\.cargo\\bin\\rg.exe").manager, "Cargo (Rust)");
    assert_eq!(detect_installation_source("C:\\ProgramData\\chocolatey\\bin\\x.exe").manager, "Chocolatey");
    assert_eq!(detect_installation_source("C:\\Users\\me\\AppData\\Local\\Microsoft\\WinGet\\Links\\x.exe").manager, "WinGet");
    let sys = detect_installation_source("/usr/bin/node");
    assert_eq!(sys.manager, "System / Manual Installation");
    assert_eq!(sys.detail, None);
}

fn dir(parts: &[&str]) -> Option<Vec<String>> {
    Some(parts.iter().map(|p| s(p)).collect())
}

#[test]
fn shared_roots() {
    assert!(parents_share_root(&dir(&["/", "a", "bin"]), &dir(&["/", "a"]), &dir(&["/", "a", "bin"]), &dir(&["/", "a"])));
    assert!(parents_share_root(&dir(&["/", "a", "bin"]), &dir(&["/", "a"]), &dir(&["/", "a"]), &dir(&["/"])));
    assert!(parents_share_root(&dir(&["/", "a", "bin"]), &dir(&["/", "a"]), &dir(&["/", "a", "lib"]), &dir(&["/", "a"])));
    assert!(!parents_share_root(&dir(&["/", "a", "bin"]), &dir(&["/", "a"]), &dir(&["/", "b", "bin"]), &dir(&["/", "b"])));
    assert!(!parents_share_root(&None, &None, &dir(&["/", "b"]), &None));
    assert!(share_installation_root("/opt/node/bin/node", "/opt/node/bin/npm"));
    assert!(share_installation_root("/opt/node/bin/node", "/opt/node/lib/npm"));
    assert!(!share_installation_root("/opt/node/bin/node", "/usr/local/bin/npm"));
}

#[test]
fn shared_roots_compare_components_not_text() {
    assert!(share_installation_root("/opt//node/bin/node", "/opt/node/bin/npm"));
    assert!(share_installation_root("/opt/node/bin/./node", "/opt/node/bin/npm"));
    assert!(share_installation_root("/opt/node//bin/node", "/opt/node/lib/npm"));
    assert!(!share_installation_root("/opt//node/bin/node", "/usr/local/bin/npm"));
}

#[test]
fn scoop_detail_from_path_components() {
    let info = detect_installation_source("/home/me/scoop\\apps/apps/nodejs/node");
    assert_eq!(info.manager, "Scoop");
    assert_eq!(info.detail, Some(s("App directory: nodejs")));
}

#[test]
fn shared_root_is_symmetric_and_reflexive() {
    let cases = [
        (dir(&["/", "a", "bin"]), dir(&["/", "a"]), dir(&["/", "a", "lib"]), dir(&["/", "a"])),
        (dir(&["/", "a", "bin"]), dir(&["/", "a"]), dir(&["/", "b", "bin"]), dir(&["/", "b"])),
        (dir(&["x"]), None, dir(&["x", "y"]), dir(&["x"])),
    ];
    for (pa, gpa, pb, gpb) in cases.iter() {
        assert_eq!(parents_share_root(pa, gpa, pb, gpb), parents_share_root(pb, gpb, pa, gpa));
        assert!(parents_share_root(pa, gpa, pa, gpa));
    }
}

#[test]
fn extracted_versions_look_like_versions() {
    for text in ["v20.1.0", "Python 3.12", "x (1.2) y", "tool v1 v2.0"] {
        let v = extract_version_from_text(text).unwrap();
        let first = v.chars().next().unwrap();
        assert!(first.is_ascii_digit() || (first == 'v' && v.chars().nth(1).unwrap().is_ascii_digit()));
        assert!(v.contains('.'));
    }
}

#[test]
fn companions_judged_by_path_names() {
    assert!(paths_share_environment("node", "C:\\Users\\me\\scoop\\apps\\nodejs\\node.exe", "C:\\Users\\me\\Scoop\\shims\\npm.cmd"));
    assert!(paths_share_environment("node", "C:\\Program Files\\nodejs\\node.exe", "C:\\PROGRAM FILES\\nodejs\\npm.cmd"));
    assert!(!paths_share_environment("node", "C:\\fnm_multishells\\1\\node.exe", "C:\\Program Files\\nodejs\\npm.cmd"));
    assert!(paths_share_environment("python", "C:\\Python312\\python.exe", "C:\\Python312\\Scripts\\pip.exe"));
    assert!(!paths_share_environment("python", "C:\\tools\\py.exe", "C:\\other\\pip.exe"));
    assert!(paths_share_environment("go", "a", "b"));
}

#[test]
fn shared_root_of_bare_and_empty_paths() {
    assert!(share_installation_root("node.exe", "npm.cmd"));
    assert!(!share_installation_root("", "npm.cmd"));
    assert!(!share_installation_root("/opt/node/bin/node", ""));
}

#[test]
fn version_flags_run_until_a_version() {
    let mut runs: Vec<Option<(bool, String, String)>> = vec![];
    assert_eq!(next_version_flag(&runs), Some("--version"));
    runs.push(None);
    assert_eq!(next_version_flag(&runs), Some("-v"));
    runs.push(Some((true, s("tool 1.2"), s(""))));
    assert_eq!(next_version_flag(&runs), None);
    let all_failed = vec![None, None, Some((false, s("1.2.3"), s("")))];
    assert_eq!(next_version_flag(&all_failed), None);
}

#[test]
fn installation_source_of_ascii_paths_ignores_case() {
    let a = detect_installation_source("C:\\Users\\me\\.CARGO\\BIN\\rg.exe");
    let b = detect_installation_source("c:\\users\\me\\.cargo\\bin\\rg.exe");
    assert_eq!(a.manager, "Cargo (Rust)");
    assert_eq!(a.manager, b.manager);
    assert_eq!(a.detail, b.detail);
}

#[test]
fn version_with_ascii_punctuation_around_it() {
    assert_eq!(extract_version_from_text("v24.11.0"), Some(s("v24.11.0")));
    assert_eq!(extract_version_from_text("(v24.11.0),"), Some(s("v24.11.0")));
    assert_eq!(extract_version_from_text("-- 1.2 --"), Some(s("1.2")));
}
