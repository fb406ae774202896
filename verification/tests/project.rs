use why::inspectors::finding::Severity;
use why::inspectors::project::{
    check_env_configuration, check_node_version_requirement, detect_project, error_reasons, evidence_finding,
    get_docker_compose_services, holds_text, marker, probes_needed, project_findings, service_port, ProjectObservation, ServiceProbe,
    ToolProbe,
};

fn s(x: &str) -> String {
    x.to_string()
}

fn strings(v: &[&str]) -> Vec<String> {
    v.iter().map(|x| x.to_string()).collect()
}

fn empty_observation() -> ProjectObservation {
    ProjectObservation {
        files: vec![],
        toolchain: vec![],
        services: vec![],
        node: None,
        node_requirement: None,
        python: None,
        cargo: None,
        go: None,
        java: None,
        docker_found: false,
        has_env: false,
        env_content: None,
    }
}

fn probe(path: &str, version: Option<&str>) -> ToolProbe {
    ToolProbe { path: s(path), version: version.map(s) }
}

/// The services of a compose file, as (name, image).
fn compose_services(text: &str) -> Vec<(String, Option<String>)> {
    let doc: serde_yaml::Value = serde_yaml::from_str(text).unwrap();
    let mut out = Vec::new();
    if let Some(services) = doc.get("services").and_then(|v| v.as_mapping()) {
        for (name, details) in services {
            let image = details.get("image").and_then(|i| i.as_str()).map(|i| i.to_string());
            out.push((name.as_str().unwrap().to_string(), image));
        }
    }
    out
}

#[test]
fn test_parse_docker_compose() {
    let compose_content = r#"
version: '3.8'
services:
  db:
    image: postgres:15-alpine
    ports:
      - "5432:5432"
  cache:
    image: redis:alpine
"#;
    let services = get_docker_compose_services(&compose_services(compose_content));
    assert!(services.contains(&"PostgreSQL".to_string()));
    assert!(services.contains(&"Redis".to_string()));
    assert_eq!(services, strings(&["PostgreSQL", "Redis"]));
}

#[test]
fn compose_services_sorted_without_repeats() {
    let services = vec![
        (s("Mongo-Main"), Some(s("mongo:6"))),
        (s("mysql"), None),
        (s("replica"), Some(s("MySQL:8"))),
        (s("web"), Some(s("nginx"))),
    ];
    assert_eq!(get_docker_compose_services(&services), strings(&["MongoDB", "MySQL"]));
}

#[test]
fn compose_service_matched_by_name_first() {
    // A service named after redis but running a postgres image counts as
    // PostgreSQL: the postgres test comes first.
    let services = vec![(s("redis"), Some(s("postgres")))];
    assert_eq!(get_docker_compose_services(&services), strings(&["PostgreSQL"]));
    let none: Vec<(String, Option<String>)> = vec![];
    assert!(get_docker_compose_services(&none).is_empty());
}

#[test]
fn node_requirement_at_least() {
    let req = Some(s(">=22"));
    assert_eq!(
        check_node_version_requirement(&req, &Some(s("v20.11.0"))),
        Some(s("active version is v20.11.0 but package.json requires >=22"))
    );
    assert_eq!(check_node_version_requirement(&req, &Some(s("v22.1.0"))), None);
    assert_eq!(check_node_version_requirement(&req, &Some(s("v23.0.0"))), None);
}

#[test]
fn node_requirement_caret() {
    let req = Some(s("  ^18.2.0 "));
    assert_eq!(
        check_node_version_requirement(&req, &Some(s("v20.1.0"))),
        Some(s("active version is v20.1.0 but package.json requires ^18.2.0"))
    );
    assert_eq!(check_node_version_requirement(&req, &Some(s("18.0.0"))), None);
}

#[test]
fn node_requirement_unknown_forms() {
    assert_eq!(check_node_version_requirement(&Some(s("~18")), &Some(s("v10.0.0"))), None);
    assert_eq!(check_node_version_requirement(&Some(s(">=lts")), &Some(s("v10.0.0"))), None);
    assert_eq!(check_node_version_requirement(&None, &Some(s("v10.0.0"))), None);
    assert_eq!(check_node_version_requirement(&Some(s(">=22")), &None), None);
}

#[test]
fn env_configuration_without_file() {
    let services = strings(&["PostgreSQL", "Redis", "MongoDB", "MySQL", "Other"]);
    assert_eq!(
        check_env_configuration(&None, &services),
        strings(&["DATABASE_URL", "REDIS_URL", "MONGO_URI", "DATABASE_URL"])
    );
}

#[test]
fn env_configuration_with_file() {
    let content = Some(s("# settings\n  DATABASE_URL=postgres://x\r\nREDIS=1\n"));
    let services = strings(&["PostgreSQL", "Redis"]);
    assert_eq!(check_env_configuration(&content, &services), strings(&["REDIS_URL"]));
    let all_set = Some(s("REDIS_URL=redis://\nDATABASE_URL=x"));
    assert!(check_env_configuration(&all_set, &services).is_empty());
}

#[test]
fn default_ports() {
    assert_eq!(service_port(&s("PostgreSQL")), 5432);
    assert_eq!(service_port(&s("MySQL")), 3306);
    assert_eq!(service_port(&s("Redis")), 6379);
    assert_eq!(service_port(&s("MongoDB")), 27017);
    assert_eq!(service_port(&s("postgres")), 0);
}

#[test]
fn markers_and_detection() {
    assert_eq!(marker(0), ("package.json", "JavaScript/TypeScript", "Node.js"));
    assert_eq!(marker(9), ("Dockerfile", "Multi", "Docker"));
    let present = strings(&["Dockerfile", "pyproject.toml", "requirements.txt", "docker-compose.yml", "README.md"]);
    let scan = detect_project(&present);
    assert_eq!(scan.files, strings(&["requirements.txt", "pyproject.toml", "docker-compose.yml", "Dockerfile"]));
    assert_eq!(scan.languages, strings(&["Python"]));
    assert_eq!(scan.toolchain, strings(&["pip", "Poetry/pip", "Docker Compose", "Docker"]));
    let none = detect_project(&vec![]);
    assert!(none.files.is_empty() && none.languages.is_empty() && none.toolchain.is_empty());
}

#[test]
fn holds_text_finds_exact_entries() {
    let v = strings(&["a", "bc"]);
    assert!(holds_text(&v, "bc"));
    assert!(!holds_text(&v, "b"));
}

#[test]
fn evidence_finding_numbers_its_nodes() {
    let f = evidence_finding(
        Severity::Info,
        s("Go"),
        s("ok"),
        vec![(s("Required by"), s("go.mod")), (s("Active version"), s("1.22.0"))],
        None,
    );
    assert_eq!(f.graph.nodes.len(), 2);
    assert_eq!(f.graph.nodes[0].id, "evidence:0");
    assert_eq!(f.graph.nodes[1].id, "evidence:1");
    assert_eq!(f.graph.nodes[1].label, "Active version");
    assert_eq!(f.graph.nodes[1].value, "1.22.0");
    assert!(f.graph.relationships.is_empty());
    assert!(f.graph.validate().is_ok());
}

#[test]
fn node_project_with_broken_constraint() {
    let mut o = empty_observation();
    o.files = strings(&["package.json"]);
    o.toolchain = strings(&["Node.js"]);
    o.node = Some(probe("C:\\node\\node.exe", Some("v18.0.0")));
    o.node_requirement = Some(s(">=20"));
    let fs = project_findings(&o);
    assert_eq!(fs.len(), 1);
    let f = &fs[0];
    assert_eq!(f.severity, Severity::Error);
    assert_eq!(f.subject, "Node.js");
    assert_eq!(
        f.cause,
        "Active Node.js version does not satisfy package.json requirement: active version is v18.0.0 but package.json requires >=20"
    );
    let values: Vec<(String, String)> = f.graph.nodes.iter().map(|n| (n.label.clone(), n.value.clone())).collect();
    assert_eq!(
        values,
        vec![(s("Required"), s(">=20")), (s("Active"), s("v18.0.0")), (s("Resolved"), s("C:\\node\\node.exe"))]
    );
    assert!(f.suggestion.is_some());
    assert_eq!(error_reasons(&fs), vec![format!("Node.js: {}", f.cause)]);
}

#[test]
fn node_project_healthy_and_missing() {
    let mut o = empty_observation();
    o.files = strings(&["package.json"]);
    o.node = Some(probe("/usr/bin/node", None));
    let fs = project_findings(&o);
    assert_eq!(fs[0].severity, Severity::Info);
    assert_eq!(fs[0].graph.nodes[0].value, ">=18");
    assert_eq!(fs[0].graph.nodes[1].value, "unknown");
    assert!(error_reasons(&fs).is_empty());
    o.node = None;
    let fs = project_findings(&o);
    assert_eq!(fs[0].cause, "Node.js runtime is missing on PATH.");
    assert_eq!(fs[0].graph.nodes[0].value, "package.json");
}

#[test]
fn runtimes_docker_services_and_env() {
    let mut o = empty_observation();
    o.files = strings(&["pyproject.toml", "Cargo.toml", "go.mod", "build.gradle", "docker-compose.yaml"]);
    o.toolchain = strings(&["Poetry/pip", "Cargo", "Go", "Gradle", "Docker Compose"]);
    o.python = Some(probe("/usr/bin/python", Some("3.12.1")));
    o.cargo = None;
    o.go = Some(probe("/usr/bin/go", Some("go1.22")));
    o.java = None;
    o.docker_found = true;
    o.services = vec![
        ServiceProbe { name: s("PostgreSQL"), service_lines: vec![], port_listening: true },
        ServiceProbe { name: s("Redis"), service_lines: vec![s("Redis (Stopped)")], port_listening: false },
    ];
    o.has_env = true;
    o.env_content = Some(s("DATABASE_URL=x\n"));
    let fs = project_findings(&o);
    let subjects: Vec<&str> = fs.iter().map(|f| f.subject.as_str()).collect();
    assert_eq!(subjects, vec!["Python", "Rust", "Go", "Java", "Docker", "PostgreSQL", "Redis", "Configuration (.env)"]);
    assert_eq!(fs[0].graph.nodes[0].value, "pyproject.toml");
    assert_eq!(fs[1].severity, Severity::Error);
    assert_eq!(fs[3].graph.nodes[0].value, "build.gradle");
    assert_eq!(fs[4].severity, Severity::Info);
    assert_eq!(fs[5].cause, "PostgreSQL is running and listening on port 5432.");
    assert_eq!(fs[5].graph.nodes[0].value, "docker-compose.yaml");
    assert_eq!(fs[6].cause, "Redis service is stopped or offline.");
    assert_eq!(fs[6].suggestion, Some(s("Start the database container: run `docker compose up -d redis`")));
    let env: Vec<(String, String)> = fs[7].graph.nodes.iter().map(|n| (n.label.clone(), n.value.clone())).collect();
    assert_eq!(env, vec![(s("Status"), s(".env file detected")), (s("Missing variable"), s("REDIS_URL"))]);
    assert_eq!(error_reasons(&fs).len(), 4);
}

#[test]
fn running_service_line_counts_as_up() {
    let mut o = empty_observation();
    o.files = strings(&["docker-compose.yml"]);
    o.services = vec![ServiceProbe { name: s("Redis"), service_lines: vec![s("Redis (Running)")], port_listening: false }];
    o.env_content = Some(s("REDIS_URL=redis://localhost"));
    let fs = project_findings(&o);
    assert_eq!(fs.len(), 1);
    assert_eq!(fs[0].severity, Severity::Info);
    assert_eq!(fs[0].graph.nodes[0].value, "docker-compose.yml");
    assert_eq!(fs[0].graph.nodes[1].value, "6379");
}

#[test]
fn tools_looked_up_for_a_project() {
    let plan = probes_needed(&strings(&["pom.xml", "docker-compose.yml", ".env"]), &strings(&["Maven", "Docker Compose"]));
    assert!(plan.java && plan.docker);
    assert!(!plan.node && !plan.python && !plan.cargo && !plan.go);
    let plan = probes_needed(&strings(&["pipfile", "package.json", "Cargo.toml", "go.mod"]), &vec![]);
    assert!(plan.node && plan.python && plan.cargo && plan.go);
    assert!(!plan.java && !plan.docker);
}
