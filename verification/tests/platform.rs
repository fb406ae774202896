use why::inspectors::process::or_placeholder;
use why::inspectors::services::{service_state, ServiceState};
use why::platform::windows::{parse_port_report, parse_process_report, parse_services, process_filter, service_name_filter};
use why::platform::{linux, macos, ProcessData};

fn s(x: &str) -> String {
    x.to_string()
}

#[test]
fn service_listing() {
    assert_eq!(parse_services(true, "  Redis (Running)\r\n\n postgresql-x64-16 (Stopped) \n"), vec![s("Redis (Running)"), s("postgresql-x64-16 (Stopped)")]);
    assert!(parse_services(false, "Redis (Running)").is_empty());
    assert_eq!(service_name_filter("redis"), "*redis*");
}

#[test]
fn process_filters() {
    assert_eq!(process_filter("12480"), "ProcessId = 12480");
    assert_eq!(process_filter("chrome.exe"), "Name = 'chrome.exe' or Name = 'chrome'");
    assert_eq!(process_filter("node"), "Name = 'node.exe' or Name = 'node'");
}

#[test]
fn process_report() {
    let out = "PID:42\nName:node\nPath:C:\\n\\node.exe\nParent:7\nCpu:1.5s\nMem:104857600\nOwner:me\nCmd:node app.js\n";
    let p = parse_process_report(out).unwrap();
    assert_eq!(p.pid, "42");
    assert_eq!(p.name, "node");
    assert_eq!(p.path, "C:\\n\\node.exe");
    assert_eq!(p.mem_bytes, 104857600);
    assert_eq!(p.cmd_line, "node app.js");
    assert_eq!(p.memory_mb(), 100);
    assert_eq!(p.cpu_text(), "1.5s");
    assert!(parse_process_report("NOT_FOUND\n").is_none());
    assert!(parse_process_report("  \n").is_none());
    let odd = parse_process_report("Mem:lots\nCpu:s").unwrap();
    assert_eq!(odd.mem_bytes, 0);
    assert_eq!(odd.cpu_text(), "(not available)");
}

#[test]
fn port_report() {
    let out = "STATUS:OCCUPIED\nPID:42\nName:node\nAddress:0.0.0.0:3000\nParent:7\nCmd:node server.js\n";
    let p = parse_port_report(out).unwrap();
    assert_eq!((p.pid.as_str(), p.name.as_str(), p.address.as_str(), p.parent.as_str()), ("42", "node", "0.0.0.0:3000", "7"));
    assert_eq!(p.cmd_line, "node server.js");
    assert!(parse_port_report("STATUS:FREE").is_none());
}

#[test]
fn other_platforms_find_nothing() {
    assert!(linux::find_services("redis").is_empty());
    assert!(linux::get_process_info("1").is_none());
    assert!(linux::get_port_info(80).is_none());
    assert!(macos::find_services("redis").is_empty());
    assert!(macos::get_process_info("1").is_none());
    assert!(macos::get_port_info(80).is_none());
}

#[test]
fn display_helpers() {
    assert_eq!(or_placeholder("", "(unknown)"), "(unknown)");
    assert_eq!(or_placeholder("x", "(unknown)"), "x");
    let p = ProcessData {
        pid: s("1"),
        name: s("n"),
        path: s(""),
        parent: s(""),
        cpu: s(""),
        mem_bytes: 1048575,
        owner: s(""),
        cmd_line: s(""),
    };
    assert_eq!(p.memory_mb(), 0);
    assert_eq!(p.cpu_text(), "(not available)");
    assert_eq!(service_state("Redis (Running)"), ServiceState::Running);
    assert_eq!(service_state("Redis (Stopped)"), ServiceState::Stopped);
    assert_eq!(service_state("Redis"), ServiceState::Unknown);
}
