use vstd::prelude::*;
use vstd::string::{StrSliceExecFns, StringExecFns};
use crate::graph::{empty_graph, evidence_view, GraphView, SystemGraph};
use crate::inspectors::finding::{
    is_lasso, node_edge, node_ids_distinct, reaches_cycle, validation_result, EvidenceGraph, Finding, Severity,
};
use crate::graph::fixes::{before_dot, before_dot_exec};
use crate::inspectors::executable::installation::opt_view;
use crate::text::{
    concat, contains, decimal, decimal_string, lines, lines_of, lowercase, parse_u32, parsed_u32, starts_with,
    str_contains, str_starts_with, str_trim, str_trim_prefix, strings_view, to_lowercase, trim_prefix, trim_ws,
};

verus! {

/// One labelled fact of a finding, as text.
pub type EvidenceItem = (Seq<char>, Seq<char>);

pub open spec fn items_view(v: Seq<(String, String)>) -> Seq<EvidenceItem> {
    v.map_values(|p: (String, String)| (p.0@, p.1@))
}

/// The graph of a finding whose evidence is a list of labelled facts: one
/// node per fact, "evidence:0", "evidence:1", and so on, with no relationships.
pub open spec fn evidence_graph(ev: Seq<EvidenceItem>) -> GraphView {
    (Seq::new(ev.len(), |k: int| ("evidence:"@ + decimal(k as nat), "Evidence"@, ev[k].0, ev[k].1)), Seq::empty())
}

proof fn lemma_evidence_ids_differ(j: nat, k: nat)
    requires
        j != k,
    ensures
        "evidence:"@ + decimal(j) != "evidence:"@ + decimal(k),
{
    if "evidence:"@ + decimal(j) == "evidence:"@ + decimal(k) {
        let p = "evidence:"@;
        assert(("evidence:"@ + decimal(j)).skip(p.len() as int) == decimal(j));
        assert(("evidence:"@ + decimal(k)).skip(p.len() as int) == decimal(k));
        crate::text::lemma_decimal_injective(j, k);
    }
}

/// A finding whose evidence is a list of labelled facts.
pub fn evidence_finding(
    severity: Severity,
    subject: String,
    cause: String,
    evidence: Vec<(String, String)>,
    suggestion: Option<String>,
) -> (f: Finding)
    ensures
        f.severity == severity,
        f.subject == subject,
        f.cause == cause,
        f.suggestion == suggestion,
        evidence_view(f.graph) == evidence_graph(items_view(evidence@)),
        node_ids_distinct(f.graph),
        validation_result(f.graph, Ok(())),
{
    let ghost items = items_view(evidence@);
    let mut sg = SystemGraph::new();
    let mut k: usize = 0;
    proof {
        assert(evidence_graph(items.take(0)).0 =~= Seq::<crate::graph::NodeView>::empty());
    }
    while k < evidence.len()
        invariant
            items == items_view(evidence@),
            k <= evidence@.len(),
            sg.wf(),
            sg.gview() == evidence_graph(items.take(k as int)),
            sg.relationship_seq().len() == 0,
        decreases evidence@.len() - k,
    {
        let num = decimal_string(k as u64);
        let mut id = String::from_str("evidence:");
        id.append(num.as_str());
        proof {
            let g = sg.gview();
            assert forall|i: int| 0 <= i < g.0.len() implies #[trigger] g.0[i].0 != id@ by {
                lemma_evidence_ids_differ(i as nat, k as nat);
            }
        }
        sg.node(id.as_str(), "Evidence", evidence[k].0.as_str(), evidence[k].1.as_str());
        proof {
            assert(sg.gview().0 =~= evidence_graph(items.take(k + 1)).0);
        }
        k += 1;
    }
    proof {
        assert(items.take(evidence@.len() as int) == items);
    }
    let f = sg.into_finding(severity, subject, cause, suggestion);
    proof {
        lemma_no_relationships_valid(f.graph);
    }
    f
}

/// A graph with distinct node ids and no relationships passes validation.
proof fn lemma_no_relationships_valid(g: EvidenceGraph)
    requires
        node_ids_distinct(g),
        g.relationships@.len() == 0,
    ensures
        validation_result(g, Ok(())),
{
    assert forall|i: int| 0 <= i < g.nodes@.len() implies !#[trigger] reaches_cycle(g, i) by {
        if reaches_cycle(g, i) {
            let p = choose|p: Seq<int>| #[trigger] is_lasso(g, p) && p[0] == i;
            assert(node_edge(g, p[0], p[1]));
        }
    }
}

// ---------------------------------------------------------------------------
// Services a compose file asks for.
// ---------------------------------------------------------------------------

/// The database a compose service runs, from its lower-cased name and image:
/// 0 PostgreSQL, 1 Redis, 2 MySQL, 3 MongoDB, 4 none.
pub open spec fn service_kind(name: Seq<char>, image: Seq<char>) -> int {
    if contains(name, "postgres"@) || contains(image, "postgres"@) {
        0
    } else if contains(name, "redis"@) || contains(image, "redis"@) {
        1
    } else if contains(name, "mysql"@) || contains(image, "mysql"@) {
        2
    } else if contains(name, "mongodb"@) || contains(image, "mongo"@) {
        3
    } else {
        4
    }
}

pub open spec fn or_empty(o: Option<String>) -> Seq<char> {
    match o {
        Some(s) => s@,
        None => seq![],
    }
}

pub open spec fn kind_of(s: (String, Option<String>)) -> int {
    service_kind(lowercase(s.0@), lowercase(or_empty(s.1)))
}

pub open spec fn has_kind(services: Seq<(String, Option<String>)>, k: int) -> bool {
    exists|i: int| 0 <= i < services.len() && #[trigger] kind_of(services[i]) == k
}

/// The databases the services of a compose file need, sorted by name and
/// without repeats.
pub open spec fn required_databases(services: Seq<(String, Option<String>)>) -> Seq<Seq<char>> {
    (if has_kind(services, 3) { seq!["MongoDB"@] } else { seq![] })
        + (if has_kind(services, 2) { seq!["MySQL"@] } else { seq![] })
        + (if has_kind(services, 0) { seq!["PostgreSQL"@] } else { seq![] })
        + (if has_kind(services, 1) { seq!["Redis"@] } else { seq![] })
}

fn kind_exec(name: &str, image: &Option<String>) -> (k: u8)
    ensures
        k as int == service_kind(lowercase(name@), lowercase(or_empty(*image))),
{
    let n = to_lowercase(name);
    let i = match image {
        Some(s) => to_lowercase(s.as_str()),
        None => {
            let empty = String::new();
            to_lowercase(empty.as_str())
        },
    };
    let n = n.as_str();
    let i = i.as_str();
    if str_contains(n, "postgres") || str_contains(i, "postgres") {
        0
    } else if str_contains(n, "redis") || str_contains(i, "redis") {
        1
    } else if str_contains(n, "mysql") || str_contains(i, "mysql") {
        2
    } else if str_contains(n, "mongodb") || str_contains(i, "mongo") {
        3
    } else {
        4
    }
}

/// The databases the services of a compose file (name and image) need:
/// PostgreSQL, Redis, MySQL or MongoDB, by name or image, sorted and without
/// repeats.
pub fn get_docker_compose_services(services: &Vec<(String, Option<String>)>) -> (r: Vec<String>)
    ensures
        strings_view(r@) == required_databases(services@),
{
    let mut found: [bool; 4] = [false, false, false, false];
    let mut i: usize = 0;
    while i < services.len()
        invariant
            i <= services@.len(),
            forall|k: int| 0 <= k < 4 ==> found@[k] == exists|j: int| 0 <= j < i && #[trigger] kind_of(services@[j]) == k,
        decreases services@.len() - i,
    {
        let k = kind_exec(services[i].0.as_str(), &services[i].1);
        if k < 4 {
            found.set(k as usize, true);
        }
        proof {
            assert(kind_of(services@[i as int]) == k as int);
            assert forall|k2: int| 0 <= k2 < 4 implies found@[k2] == exists|j: int| 0 <= j < i + 1 && #[trigger] kind_of(services@[j]) == k2 by {
                if k2 == k as int {
                    assert(kind_of(services@[i as int]) == k2);
                } else if exists|j: int| 0 <= j < i + 1 && #[trigger] kind_of(services@[j]) == k2 {
                    let j = choose|j: int| 0 <= j < i + 1 && #[trigger] kind_of(services@[j]) == k2;
                    assert(j != i);
                    assert(0 <= j < i && kind_of(services@[j]) == k2);
                }
            }
        }
        i += 1;
    }
    let mut r: Vec<String> = Vec::new();
    if found[3] {
        r.push(String::from_str("MongoDB"));
    }
    if found[2] {
        r.push(String::from_str("MySQL"));
    }
    if found[0] {
        r.push(String::from_str("PostgreSQL"));
    }
    if found[1] {
        r.push(String::from_str("Redis"));
    }
    proof {
        assert(strings_view(r@) =~= required_databases(services@));
    }
    r
}

} // verus!

verus! {

// ---------------------------------------------------------------------------
// The Node engine constraint of package.json.
// ---------------------------------------------------------------------------

/// The major version written at the front of `s`: the digits before the
/// first '.', read as a `u32`.
pub open spec fn major_of(s: Seq<char>) -> Option<u32> {
    parsed_u32(before_dot(s))
}

/// Why the active Node version `active` breaks the engine constraint `req`
/// of package.json, if it does. A `>=N` constraint asks for a major version
/// of at least N, a `^N` constraint for major version N; any other form, or
/// a version whose major number does not read, is no violation.
pub open spec fn node_violation(req: Seq<char>, active: Seq<char>) -> Option<Seq<char>> {
    let r = trim_ws(req);
    let active_major = major_of(trim_prefix(active, "v"@));
    let msg = "active version is "@ + active + " but package.json requires "@ + r;
    if starts_with(r, ">="@) {
        match (major_of(trim_ws(trim_prefix(r, ">="@))), active_major) {
            (Some(want), Some(have)) => if have < want { Some(msg) } else { None },
            _ => None,
        }
    } else if starts_with(r, "^"@) {
        match (major_of(trim_ws(trim_prefix(r, "^"@))), active_major) {
            (Some(want), Some(have)) => if have != want { Some(msg) } else { None },
            _ => None,
        }
    } else {
        None
    }
}

pub open spec fn node_requirement_result(required: Option<String>, active: Option<String>) -> Option<Seq<char>> {
    match (required, active) {
        (Some(req), Some(act)) => node_violation(req@, act@),
        _ => None,
    }
}

fn major_exec(s: &str) -> (r: Option<u32>)
    ensures
        r == major_of(s@),
{
    let head = before_dot_exec(s);
    parse_u32(head.as_str())
}

/// Checks the engine constraint `required` of package.json against the
/// active Node version `active`, as `node --version` reported it. Gives the
/// reason when the constraint is broken; nothing when it holds, when either
/// is unknown, or when the constraint has another form than `>=N` or `^N`.
pub fn check_node_version_requirement(required: &Option<String>, active: &Option<String>) -> (r: Option<String>)
    ensures
        opt_view(r) == node_requirement_result(*required, *active),
{
    let (req, act) = match (required, active) {
        (Some(req), Some(act)) => (req, act),
        _ => return None,
    };
    let r = str_trim(req.as_str());
    let clean = str_trim_prefix(act.as_str(), "v");
    let have = major_exec(clean.as_str());
    let at_least = str_starts_with(r.as_str(), ">=");
    let caret = str_starts_with(r.as_str(), "^");
    if !at_least && !caret {
        return None;
    }
    let rest = if at_least {
        str_trim_prefix(r.as_str(), ">=")
    } else {
        str_trim_prefix(r.as_str(), "^")
    };
    let rest = str_trim(rest.as_str());
    let want = major_exec(rest.as_str());
    let broken = match (want, have) {
        (Some(w), Some(h)) => if at_least { h < w } else { h != w },
        _ => false,
    };
    if broken {
        let mut msg = concat("active version is ", act.as_str());
        msg.append(" but package.json requires ");
        msg.append(r.as_str());
        Some(msg)
    } else {
        None
    }
}

// ---------------------------------------------------------------------------
// Connection settings the services need in .env.
// ---------------------------------------------------------------------------

/// The variable of .env that holds the connection string of a service;
/// empty for a service that needs none.
pub open spec fn env_key(service: Seq<char>) -> Seq<char> {
    if service == "PostgreSQL"@ || service == "MySQL"@ {
        "DATABASE_URL"@
    } else if service == "Redis"@ {
        "REDIS_URL"@
    } else if service == "MongoDB"@ {
        "MONGO_URI"@
    } else {
        seq![]
    }
}

/// Whether some line of `content`, trimmed, begins with `key=`.
pub open spec fn key_set(content: Seq<char>, key: Seq<char>) -> bool {
    exists|i: int| 0 <= i < lines(content).len() && starts_with(trim_ws(#[trigger] lines(content)[i]), key + "="@)
}

/// Whether `key` is a variable that .env should set and does not; with no
/// readable .env every such variable is missing.
pub open spec fn key_missing(content: Option<Seq<char>>, key: Seq<char>) -> bool {
    key.len() > 0 && match content {
        Some(c) => !key_set(c, key),
        None => true,
    }
}

/// The variables missing for `services`, one entry per service, in order.
pub open spec fn missing_env_vars(content: Option<Seq<char>>, services: Seq<Seq<char>>) -> Seq<Seq<char>>
    decreases services.len(),
{
    if services.len() == 0 {
        seq![]
    } else {
        let rest = missing_env_vars(content, services.drop_last());
        let key = env_key(services.last());
        if key_missing(content, key) { rest.push(key) } else { rest }
    }
}

fn env_key_exec(service: &String) -> (r: String)
    ensures
        r@ == env_key(service@),
{
    if *service == String::from_str("PostgreSQL") || *service == String::from_str("MySQL") {
        String::from_str("DATABASE_URL")
    } else if *service == String::from_str("Redis") {
        String::from_str("REDIS_URL")
    } else if *service == String::from_str("MongoDB") {
        String::from_str("MONGO_URI")
    } else {
        String::new()
    }
}

fn key_set_exec(lines_v: &Vec<String>, key: &str) -> (r: bool)
    ensures
        r == exists|i: int| 0 <= i < lines_v@.len() && starts_with(trim_ws(#[trigger] strings_view(lines_v@)[i]), key@ + "="@),
{
    let pattern = concat(key, "=");
    let mut i: usize = 0;
    while i < lines_v.len()
        invariant
            i <= lines_v@.len(),
            pattern@ == key@ + "="@,
            forall|j: int| 0 <= j < i ==> !starts_with(trim_ws(#[trigger] strings_view(lines_v@)[j]), key@ + "="@),
        decreases lines_v@.len() - i,
    {
        let t = str_trim(lines_v[i].as_str());
        if str_starts_with(t.as_str(), pattern.as_str()) {
            assert(strings_view(lines_v@)[i as int] == lines_v@[i as int]@);
            return true;
        }
        i += 1;
    }
    false
}

/// The connection variables that the .env text `content` lacks for the
/// databases `services` (each of PostgreSQL and MySQL needs DATABASE_URL,
/// Redis REDIS_URL, MongoDB MONGO_URI); with no .env (`None`), all of them.
/// A variable counts as set when some line, trimmed, begins with `KEY=`.
pub fn check_env_configuration(content: &Option<String>, services: &Vec<String>) -> (r: Vec<String>)
    ensures
        strings_view(r@) == missing_env_vars(opt_view(*content), strings_view(services@)),
{
    let lines_v: Vec<String> = match content {
        Some(c) => lines_of(c.as_str()),
        None => Vec::new(),
    };
    let ghost cv = opt_view(*content);
    let ghost sv = strings_view(services@);
    let mut r: Vec<String> = Vec::new();
    let mut i: usize = 0;
    proof {
        assert(sv.take(0) =~= Seq::<Seq<char>>::empty());
    }
    while i < services.len()
        invariant
            i <= services@.len(),
            sv == strings_view(services@),
            cv == opt_view(*content),
            cv matches Some(c) ==> strings_view(lines_v@) == lines(c),
            strings_view(r@) == missing_env_vars(cv, sv.take(i as int)),
        decreases services@.len() - i,
    {
        let key = env_key_exec(&services[i]);
        let missing = if key.as_str().unicode_len() == 0 {
            false
        } else {
            match content {
                Some(_) => !key_set_exec(&lines_v, key.as_str()),
                None => true,
            }
        };
        proof {
            assert(sv.take(i + 1).drop_last() == sv.take(i as int));
            assert(sv.take(i + 1).last() == services@[i as int]@);
        }
        if missing {
            r.push(key);
        }
        proof {
            assert(strings_view(r@) =~= missing_env_vars(cv, sv.take(i + 1)));
        }
        i += 1;
    }
    proof {
        assert(sv.take(services@.len() as int) == sv);
    }
    r
}

/// The port a database listens on by default; 0 for other services.
pub open spec fn default_port(service: Seq<char>) -> int {
    if service == "PostgreSQL"@ {
        5432
    } else if service == "MySQL"@ {
        3306
    } else if service == "Redis"@ {
        6379
    } else if service == "MongoDB"@ {
        27017
    } else {
        0
    }
}

/// The port a database listens on by default; 0 for other services.
pub fn service_port(service: &String) -> (r: u16)
    ensures
        r as int == default_port(service@),
{
    if *service == String::from_str("PostgreSQL") {
        5432
    } else if *service == String::from_str("MySQL") {
        3306
    } else if *service == String::from_str("Redis") {
        6379
    } else if *service == String::from_str("MongoDB") {
        27017
    } else {
        0
    }
}

} // verus!

verus! {

// ---------------------------------------------------------------------------
// What kind of project a directory holds.
// ---------------------------------------------------------------------------

/// A file that marks a kind of project: its name, the language and the
/// toolchain it stands for.
pub type Marker = (Seq<char>, Seq<char>, Seq<char>);

/// The marker files, in the order they are looked for.
pub open spec fn markers() -> Seq<Marker> {
    seq![
        ("package.json"@, "JavaScript/TypeScript"@, "Node.js"@),
        ("requirements.txt"@, "Python"@, "pip"@),
        ("pyproject.toml"@, "Python"@, "Poetry/pip"@),
        ("Cargo.toml"@, "Rust"@, "Cargo"@),
        ("go.mod"@, "Go"@, "Go"@),
        ("pom.xml"@, "Java"@, "Maven"@),
        ("build.gradle"@, "Java"@, "Gradle"@),
        ("docker-compose.yml"@, "Multi"@, "Docker Compose"@),
        ("docker-compose.yaml"@, "Multi"@, "Docker Compose"@),
        ("Dockerfile"@, "Multi"@, "Docker"@),
    ]
}

/// The `k`-th marker file, its language and its toolchain.
pub fn marker(k: usize) -> (r: (&'static str, &'static str, &'static str))
    requires
        k < 10,
    ensures
        (r.0@, r.1@, r.2@) == markers()[k as int],
{
    match k {
        0 => ("package.json", "JavaScript/TypeScript", "Node.js"),
        1 => ("requirements.txt", "Python", "pip"),
        2 => ("pyproject.toml", "Python", "Poetry/pip"),
        3 => ("Cargo.toml", "Rust", "Cargo"),
        4 => ("go.mod", "Go", "Go"),
        5 => ("pom.xml", "Java", "Maven"),
        6 => ("build.gradle", "Java", "Gradle"),
        7 => ("docker-compose.yml", "Multi", "Docker Compose"),
        8 => ("docker-compose.yaml", "Multi", "Docker Compose"),
        _ => ("Dockerfile", "Multi", "Docker"),
    }
}

/// The files, languages and toolchains found by looking at the first `k`
/// markers, given the names of the marker files that exist: the files in
/// marker order, each language (but "Multi") and each toolchain once, in the
/// order first met.
pub open spec fn scan_upto(present: Seq<Seq<char>>, k: nat) -> (Seq<Seq<char>>, Seq<Seq<char>>, Seq<Seq<char>>)
    decreases k,
{
    if k == 0 {
        (seq![], seq![], seq![])
    } else {
        let prev = scan_upto(present, (k - 1) as nat);
        let m = markers()[k - 1];
        if present.contains(m.0) {
            (
                prev.0.push(m.0),
                if !prev.1.contains(m.1) && m.1 != "Multi"@ { prev.1.push(m.1) } else { prev.1 },
                if !prev.2.contains(m.2) { prev.2.push(m.2) } else { prev.2 },
            )
        } else {
            prev
        }
    }
}

/// What a project directory holds, by its marker files.
#[derive(Clone, Debug)]
pub struct ProjectScan {
    /// The marker files present, in marker order.
    pub files: Vec<String>,
    /// The languages they stand for, each once.
    pub languages: Vec<String>,
    /// The toolchains they stand for, each once.
    pub toolchain: Vec<String>,
}

pub open spec fn scan_view(s: ProjectScan) -> (Seq<Seq<char>>, Seq<Seq<char>>, Seq<Seq<char>>) {
    (strings_view(s.files@), strings_view(s.languages@), strings_view(s.toolchain@))
}

/// Whether `v` holds the text `s`.
pub fn holds_text(v: &Vec<String>, s: &str) -> (r: bool)
    ensures
        r == strings_view(v@).contains(s@),
{
    let target = String::from_str(s);
    let mut i: usize = 0;
    while i < v.len()
        invariant
            i <= v@.len(),
            target@ == s@,
            forall|j: int| 0 <= j < i ==> v@[j]@ != s@,
        decreases v@.len() - i,
    {
        if v[i] == target {
            proof {
                assert(strings_view(v@)[i as int] == s@);
            }
            return true;
        }
        i += 1;
    }
    proof {
        if strings_view(v@).contains(s@) {
            let j = choose|j: int| 0 <= j < strings_view(v@).len() && strings_view(v@)[j] == s@;
            assert(v@[j]@ == s@);
        }
    }
    false
}

/// Finds what kind of project a directory holds, from the names of the
/// marker files that exist in it.
pub fn detect_project(present: &Vec<String>) -> (r: ProjectScan)
    ensures
        scan_view(r) == scan_upto(strings_view(present@), 10),
{
    let ghost pv = strings_view(present@);
    let mut files: Vec<String> = Vec::new();
    let mut languages: Vec<String> = Vec::new();
    let mut toolchain: Vec<String> = Vec::new();
    let mut k: usize = 0;
    proof {
        assert(strings_view(files@) =~= Seq::<Seq<char>>::empty());
        assert(strings_view(languages@) =~= Seq::<Seq<char>>::empty());
        assert(strings_view(toolchain@) =~= Seq::<Seq<char>>::empty());
    }
    while k < 10
        invariant
            k <= 10,
            pv == strings_view(present@),
            (strings_view(files@), strings_view(languages@), strings_view(toolchain@)) == scan_upto(pv, k as nat),
        decreases 10 - k,
    {
        let (name, lang, tool) = marker(k);
        if holds_text(present, name) {
            files.push(String::from_str(name));
            if !holds_text(&languages, lang) && !(String::from_str(lang) == String::from_str("Multi")) {
                languages.push(String::from_str(lang));
            }
            if !holds_text(&toolchain, tool) {
                toolchain.push(String::from_str(tool));
            }
        }
        proof {
            assert(strings_view(files@) =~= scan_upto(pv, (k + 1) as nat).0);
            assert(strings_view(languages@) =~= scan_upto(pv, (k + 1) as nat).1);
            assert(strings_view(toolchain@) =~= scan_upto(pv, (k + 1) as nat).2);
        }
        k += 1;
    }
    ProjectScan { files, languages, toolchain }
}

} // verus!

verus! {

// ---------------------------------------------------------------------------
// The findings of a project diagnosis.
// ---------------------------------------------------------------------------

/// A tool found on PATH: the path it resolved to and the version it reported.
#[derive(Clone, Debug)]
pub struct ToolProbe {
    pub path: String,
    pub version: Option<String>,
}

/// What was seen of a database that the compose files ask for.
#[derive(Clone, Debug)]
pub struct ServiceProbe {
    /// The database's name: PostgreSQL, MySQL, Redis or MongoDB.
    pub name: String,
    /// The lines the service lookup printed for it.
    pub service_lines: Vec<String>,
    /// Whether something listens on its default port.
    pub port_listening: bool,
}

/// What was seen of a project directory and of the machine around it.
#[derive(Clone, Debug)]
pub struct ProjectObservation {
    /// The marker files present, and ".env" when it exists.
    pub files: Vec<String>,
    /// The toolchains the marker files stand for.
    pub toolchain: Vec<String>,
    /// The databases the compose files ask for.
    pub services: Vec<ServiceProbe>,
    /// The `node` on PATH, if any.
    pub node: Option<ToolProbe>,
    /// The Node engine constraint of package.json, if it has one.
    pub node_requirement: Option<String>,
    /// The `python` on PATH, if any.
    pub python: Option<ToolProbe>,
    /// The `cargo` on PATH, if any.
    pub cargo: Option<ToolProbe>,
    /// The `go` on PATH, if any.
    pub go: Option<ToolProbe>,
    /// The `java` on PATH, if any.
    pub java: Option<ToolProbe>,
    /// Whether `docker` is on PATH.
    pub docker_found: bool,
    /// Whether the project has a .env file.
    pub has_env: bool,
    /// The text of .env, when it could be read.
    pub env_content: Option<String>,
}

/// A finding as plain values: severity, subject, cause, its evidence as
/// labelled facts, and the suggestion.
pub type FindingSpec = (Severity, Seq<char>, Seq<char>, Seq<EvidenceItem>, Option<Seq<char>>);

pub open spec fn finding_matches(f: Finding, s: FindingSpec) -> bool {
    &&& f.severity == s.0
    &&& f.subject@ == s.1
    &&& f.cause@ == s.2
    &&& evidence_view(f.graph) == evidence_graph(s.3)
    &&& opt_view(f.suggestion) == s.4
}

pub open spec fn findings_match(fs: Seq<Finding>, ss: Seq<FindingSpec>) -> bool {
    &&& fs.len() == ss.len()
    &&& forall|i: int| 0 <= i < fs.len() ==> finding_matches(#[trigger] fs[i], ss[i])
}

pub open spec fn version_text(p: ToolProbe) -> Seq<char> {
    match p.version {
        Some(v) => v@,
        None => "unknown"@,
    }
}

pub open spec fn or_text(o: Option<String>, default: Seq<char>) -> Seq<char> {
    match o {
        Some(s) => s@,
        None => default,
    }
}

pub open spec fn has_file(o: ProjectObservation, name: Seq<char>) -> bool {
    strings_view(o.files@).contains(name)
}

/// The finding on Node when package.json is present.
pub open spec fn node_section(o: ProjectObservation) -> Seq<FindingSpec> {
    if !has_file(o, "package.json"@) {
        seq![]
    } else {
        match o.node {
            Some(p) => match node_requirement_result(o.node_requirement, p.version) {
                Some(err) => seq![(
                    Severity::Error,
                    "Node.js"@,
                    "Active Node.js version does not satisfy package.json requirement: "@ + err,
                    seq![
                        ("Required"@, or_text(o.node_requirement, seq![])),
                        ("Active"@, version_text(p)),
                        ("Resolved"@, p.path@),
                    ],
                    Some("Switch Node version to satisfy the constraint using your node manager (nvm, fnm, or scoop)."@),
                )],
                None => seq![(
                    Severity::Info,
                    "Node.js"@,
                    "Node.js environment matches project requirement."@,
                    seq![("Required"@, or_text(o.node_requirement, ">=18"@)), ("Active"@, version_text(p))],
                    None,
                )],
            },
            None => seq![(
                Severity::Error,
                "Node.js"@,
                "Node.js runtime is missing on PATH."@,
                seq![("Required by"@, "package.json"@)],
                Some("Install Node.js (via scoop install nodejs, fnm, or directly from nodejs.org)."@),
            )],
        }
    }
}

/// The finding on a runtime that the file `file` asks for: available with
/// its version, or missing with how to install it.
pub open spec fn runtime_section(
    file: Option<Seq<char>>,
    probe: Option<ToolProbe>,
    subject: Seq<char>,
    ok_cause: Seq<char>,
    missing_cause: Seq<char>,
    install: Seq<char>,
) -> Seq<FindingSpec> {
    match file {
        None => seq![],
        Some(f) => match probe {
            Some(p) => seq![(Severity::Info, subject, ok_cause, seq![("Required by"@, f), ("Active version"@, version_text(p))], None)],
            None => seq![(Severity::Error, subject, missing_cause, seq![("Required by"@, f)], Some(install))],
        },
    }
}

/// The first of `names` that the project has.
pub open spec fn first_file(o: ProjectObservation, names: Seq<Seq<char>>) -> Option<Seq<char>>
    decreases names.len(),
{
    if names.len() == 0 {
        None
    } else if has_file(o, names[0]) {
        Some(names[0])
    } else {
        first_file(o, names.drop_first())
    }
}

pub open spec fn file_if(o: ProjectObservation, name: Seq<char>) -> Option<Seq<char>> {
    if has_file(o, name) { Some(name) } else { None }
}

pub open spec fn python_section(o: ProjectObservation) -> Seq<FindingSpec> {
    runtime_section(
        first_file(o, seq!["requirements.txt"@, "pyproject.toml"@, "pipfile"@]),
        o.python,
        "Python"@,
        "Python runtime is available."@,
        "Python executable is missing on PATH."@,
        "Install Python (via scoop install python, or download from python.org)."@,
    )
}

pub open spec fn rust_section(o: ProjectObservation) -> Seq<FindingSpec> {
    runtime_section(
        file_if(o, "Cargo.toml"@),
        o.cargo,
        "Rust"@,
        "Rust toolchain is active and available."@,
        "Cargo executable is missing on PATH."@,
        "Install Rust toolchain using rustup (from https://rustup.rs)."@,
    )
}

pub open spec fn go_section(o: ProjectObservation) -> Seq<FindingSpec> {
    runtime_section(
        file_if(o, "go.mod"@),
        o.go,
        "Go"@,
        "Go runtime is available."@,
        "Go executable is missing on PATH."@,
        "Install Go runtime (via scoop install go, or from golang.org)."@,
    )
}

pub open spec fn java_section(o: ProjectObservation) -> Seq<FindingSpec> {
    runtime_section(
        first_file(o, seq!["pom.xml"@, "build.gradle"@]),
        o.java,
        "Java"@,
        "Java Runtime Environment (JRE) is available."@,
        "Java executable is missing on PATH."@,
        "Install a Java Development Kit (via scoop install openjdk, or from oracle/temurin)."@,
    )
}

pub open spec fn docker_section(o: ProjectObservation) -> Seq<FindingSpec> {
    let uses_docker = strings_view(o.toolchain@).contains("Docker Compose"@) || strings_view(o.toolchain@).contains("Docker"@);
    if !uses_docker {
        seq![]
    } else if o.docker_found {
        seq![(Severity::Info, "Docker"@, "Docker is installed and available."@, seq![("Required by"@, "Project container setup"@)], None)]
    } else {
        seq![(
            Severity::Error,
            "Docker"@,
            "Docker executable is missing on PATH."@,
            seq![("Required by"@, "Project container setup"@)],
            Some("Install Docker Desktop or Docker engine on your machine."@),
        )]
    }
}

/// Whether the service lookup reports the service as running.
pub open spec fn reported_running(lines: Seq<String>) -> bool {
    exists|i: int| 0 <= i < lines.len() && contains(#[trigger] lines[i]@, "(Running)"@)
}

pub open spec fn compose_file(o: ProjectObservation) -> Seq<char> {
    if has_file(o, "docker-compose.yml"@) { "docker-compose.yml"@ } else { "docker-compose.yaml"@ }
}

/// The finding on one database: up when the lookup reports it running or
/// its default port is taken, else down with the command that starts it.
pub open spec fn service_spec(s: ServiceProbe, file: Seq<char>) -> FindingSpec {
    let port = default_port(s.name@);
    let evidence = seq![("Required by"@, file), ("Port"@, decimal(port as nat))];
    if reported_running(s.service_lines@) || (port != 0 && s.port_listening) {
        (Severity::Info, s.name@, s.name@ + " is running and listening on port "@ + decimal(port as nat) + "."@, evidence, None)
    } else {
        (
            Severity::Error,
            s.name@,
            s.name@ + " service is stopped or offline."@,
            evidence,
            Some("Start the database container: run `docker compose up -d "@ + lowercase(s.name@) + "`"@),
        )
    }
}

pub open spec fn service_names(o: ProjectObservation) -> Seq<Seq<char>> {
    o.services@.map_values(|s: ServiceProbe| s.name@)
}

pub open spec fn services_section(o: ProjectObservation) -> Seq<FindingSpec> {
    o.services@.map_values(|s: ServiceProbe| service_spec(s, compose_file(o)))
}

pub open spec fn env_section(o: ProjectObservation) -> Seq<FindingSpec> {
    let missing = missing_env_vars(opt_view(o.env_content), service_names(o));
    if o.services@.len() == 0 || missing.len() == 0 {
        seq![]
    } else {
        let status: EvidenceItem = ("Status"@, if o.has_env { ".env file detected"@ } else { ".env file missing"@ });
        seq![(
            Severity::Error,
            "Configuration (.env)"@,
            "Required database configuration parameters are missing in your environment file."@,
            seq![status] + missing.map_values(|v: Seq<char>| ("Missing variable"@, v)),
            Some("Add the missing variables to your .env file with correct connection strings."@),
        )]
    }
}

/// The findings of a project diagnosis, section by section: Node, Python,
/// Rust, Go, Java, Docker, each database, and the .env settings.
pub open spec fn project_findings_spec(o: ProjectObservation) -> Seq<FindingSpec> {
    node_section(o) + python_section(o) + rust_section(o) + go_section(o) + java_section(o) + docker_section(o)
        + services_section(o) + env_section(o)
}

} // verus!

verus! {

fn item(label: &str, value: &str) -> (r: (String, String))
    ensures
        r.0@ == label@,
        r.1@ == value@,
{
    (String::from_str(label), String::from_str(value))
}

fn single(
    severity: Severity,
    subject: &str,
    cause: String,
    evidence: Vec<(String, String)>,
    suggestion: Option<String>,
) -> (r: Vec<Finding>)
    ensures
        findings_match(r@, seq![(severity, subject@, cause@, items_view(evidence@), opt_view(suggestion))]),
{
    let f = evidence_finding(severity, String::from_str(subject), cause, evidence, suggestion);
    let r = vec![f];
    proof {
        assert(finding_matches(r@[0], (severity, subject@, cause@, items_view(evidence@), opt_view(suggestion))));
    }
    r
}

fn version_of(p: &ToolProbe) -> (r: String)
    ensures
        r@ == version_text(*p),
{
    match &p.version {
        Some(v) => v.clone(),
        None => String::from_str("unknown"),
    }
}

fn text_or(o: &Option<String>, default: &str) -> (r: String)
    ensures
        r@ == or_text(*o, default@),
{
    match o {
        Some(s) => s.clone(),
        None => String::from_str(default),
    }
}

fn node_findings(o: &ProjectObservation) -> (r: Vec<Finding>)
    ensures
        findings_match(r@, node_section(*o)),
{
    if !holds_text(&o.files, "package.json") {
        let r: Vec<Finding> = Vec::new();
        proof {
            assert(findings_match(r@, node_section(*o)));
        }
        return r;
    }
    match &o.node {
        Some(p) => {
            match check_node_version_requirement(&o.node_requirement, &p.version) {
                Some(err) => {
                    let ev = vec![
                        (String::from_str("Required"), text_or(&o.node_requirement, "")),
                        (String::from_str("Active"), version_of(p)),
                        (String::from_str("Resolved"), p.path.clone()),
                    ];
                    proof {
                        reveal_strlit("");
                        assert(""@ =~= Seq::<char>::empty());
                    }
                    let r = single(
                        Severity::Error,
                        "Node.js",
                        concat("Active Node.js version does not satisfy package.json requirement: ", err.as_str()),
                        ev,
                        Some(String::from_str("Switch Node version to satisfy the constraint using your node manager (nvm, fnm, or scoop).")),
                    );
                    proof {
                        assert(items_view(ev@) =~= seq![
                            ("Required"@, or_text(o.node_requirement, seq![])),
                            ("Active"@, version_text(*p)),
                            ("Resolved"@, p.path@),
                        ]);
                    }
                    r
                },
                None => {
                    let ev = vec![
                        (String::from_str("Required"), text_or(&o.node_requirement, ">=18")),
                        (String::from_str("Active"), version_of(p)),
                    ];
                    proof {
                        assert(items_view(ev@) =~= seq![("Required"@, or_text(o.node_requirement, ">=18"@)), ("Active"@, version_text(*p))]);
                    }
                    single(Severity::Info, "Node.js", String::from_str("Node.js environment matches project requirement."), ev, None)
                },
            }
        },
        None => {
            let ev = vec![item("Required by", "package.json")];
            proof {
                assert(items_view(ev@) =~= seq![("Required by"@, "package.json"@)]);
            }
            single(
                Severity::Error,
                "Node.js",
                String::from_str("Node.js runtime is missing on PATH."),
                ev,
                Some(String::from_str("Install Node.js (via scoop install nodejs, fnm, or directly from nodejs.org).")),
            )
        },
    }
}

} // verus!

verus! {

fn runtime_findings(
    file: Option<&str>,
    probe: &Option<ToolProbe>,
    subject: &str,
    ok_cause: &str,
    missing_cause: &str,
    install: &str,
) -> (r: Vec<Finding>)
    ensures
        findings_match(
            r@,
            runtime_section(
                match file {
                    Some(f) => Some(f@),
                    None => None,
                },
                *probe,
                subject@,
                ok_cause@,
                missing_cause@,
                install@,
            ),
        ),
{
    match file {
        None => {
            let r: Vec<Finding> = Vec::new();
            r
        },
        Some(f) => match probe {
            Some(p) => {
                let ev = vec![item("Required by", f), (String::from_str("Active version"), version_of(p))];
                proof {
                    assert(items_view(ev@) =~= seq![("Required by"@, f@), ("Active version"@, version_text(*p))]);
                }
                single(Severity::Info, subject, String::from_str(ok_cause), ev, None)
            },
            None => {
                let ev = vec![item("Required by", f)];
                proof {
                    assert(items_view(ev@) =~= seq![("Required by"@, f@)]);
                }
                single(Severity::Error, subject, String::from_str(missing_cause), ev, Some(String::from_str(install)))
            },
        },
    }
}

fn python_file(o: &ProjectObservation) -> (r: Option<&'static str>)
    ensures
        (match r {
            Some(f) => Some(f@),
            None => None,
        }) == first_file(*o, seq!["requirements.txt"@, "pyproject.toml"@, "pipfile"@]),
{
    let ghost names = seq!["requirements.txt"@, "pyproject.toml"@, "pipfile"@];
    proof {
        assert(names.drop_first() =~= seq!["pyproject.toml"@, "pipfile"@]);
        assert(names.drop_first().drop_first() =~= seq!["pipfile"@]);
        assert(names.drop_first().drop_first().drop_first() =~= Seq::<Seq<char>>::empty());
        reveal_with_fuel(first_file, 4);
    }
    if holds_text(&o.files, "requirements.txt") {
        Some("requirements.txt")
    } else if holds_text(&o.files, "pyproject.toml") {
        Some("pyproject.toml")
    } else if holds_text(&o.files, "pipfile") {
        Some("pipfile")
    } else {
        None
    }
}

fn java_file(o: &ProjectObservation) -> (r: Option<&'static str>)
    ensures
        (match r {
            Some(f) => Some(f@),
            None => None,
        }) == first_file(*o, seq!["pom.xml"@, "build.gradle"@]),
{
    let ghost names = seq!["pom.xml"@, "build.gradle"@];
    proof {
        assert(names.drop_first() =~= seq!["build.gradle"@]);
        assert(names.drop_first().drop_first() =~= Seq::<Seq<char>>::empty());
        reveal_with_fuel(first_file, 3);
    }
    if holds_text(&o.files, "pom.xml") {
        Some("pom.xml")
    } else if holds_text(&o.files, "build.gradle") {
        Some("build.gradle")
    } else {
        None
    }
}

fn file_if_present(o: &ProjectObservation, name: &'static str) -> (r: Option<&'static str>)
    ensures
        (match r {
            Some(f) => Some(f@),
            None => None,
        }) == file_if(*o, name@),
{
    if holds_text(&o.files, name) { Some(name) } else { None }
}

fn docker_findings(o: &ProjectObservation) -> (r: Vec<Finding>)
    ensures
        findings_match(r@, docker_section(*o)),
{
    if !holds_text(&o.toolchain, "Docker Compose") && !holds_text(&o.toolchain, "Docker") {
        let r: Vec<Finding> = Vec::new();
        return r;
    }
    let ev = vec![item("Required by", "Project container setup")];
    proof {
        assert(items_view(ev@) =~= seq![("Required by"@, "Project container setup"@)]);
    }
    if o.docker_found {
        single(Severity::Info, "Docker", String::from_str("Docker is installed and available."), ev, None)
    } else {
        single(
            Severity::Error,
            "Docker",
            String::from_str("Docker executable is missing on PATH."),
            ev,
            Some(String::from_str("Install Docker Desktop or Docker engine on your machine.")),
        )
    }
}

fn running_exec(lines_v: &Vec<String>) -> (r: bool)
    ensures
        r == reported_running(lines_v@),
{
    let mut i: usize = 0;
    while i < lines_v.len()
        invariant
            i <= lines_v@.len(),
            forall|j: int| 0 <= j < i ==> !contains(#[trigger] lines_v@[j]@, "(Running)"@),
        decreases lines_v@.len() - i,
    {
        if str_contains(lines_v[i].as_str(), "(Running)") {
            return true;
        }
        i += 1;
    }
    false
}

fn service_finding(s: &ServiceProbe, file: &str) -> (r: Finding)
    ensures
        finding_matches(r, service_spec(*s, file@)),
{
    let port = service_port(&s.name);
    let port_text = decimal_string(port as u64);
    let ev = vec![item("Required by", file), (String::from_str("Port"), port_text.clone())];
    proof {
        assert(items_view(ev@) =~= seq![("Required by"@, file@), ("Port"@, decimal(default_port(s.name@) as nat))]);
    }
    let up = running_exec(&s.service_lines) || (port != 0 && s.port_listening);
    if up {
        let mut cause = concat(s.name.as_str(), " is running and listening on port ");
        cause.append(port_text.as_str());
        cause.append(".");
        evidence_finding(Severity::Info, s.name.clone(), cause, ev, None)
    } else {
        let cause = concat(s.name.as_str(), " service is stopped or offline.");
        let lower = to_lowercase(s.name.as_str());
        let mut hint = concat("Start the database container: run `docker compose up -d ", lower.as_str());
        hint.append("`");
        evidence_finding(Severity::Error, s.name.clone(), cause, ev, Some(hint))
    }
}

fn services_findings(o: &ProjectObservation) -> (r: Vec<Finding>)
    ensures
        findings_match(r@, services_section(*o)),
{
    let file: &str = if holds_text(&o.files, "docker-compose.yml") { "docker-compose.yml" } else { "docker-compose.yaml" };
    let mut r: Vec<Finding> = Vec::new();
    let mut i: usize = 0;
    while i < o.services.len()
        invariant
            i <= o.services@.len(),
            file@ == compose_file(*o),
            r@.len() == i,
            forall|j: int| 0 <= j < i ==> finding_matches(#[trigger] r@[j], service_spec(o.services@[j], compose_file(*o))),
        decreases o.services@.len() - i,
    {
        let f = service_finding(&o.services[i], file);
        r.push(f);
        i += 1;
    }
    r
}

fn service_names_exec(o: &ProjectObservation) -> (r: Vec<String>)
    ensures
        strings_view(r@) == service_names(*o),
{
    let mut r: Vec<String> = Vec::new();
    let mut i: usize = 0;
    while i < o.services.len()
        invariant
            i <= o.services@.len(),
            strings_view(r@) =~= service_names(*o).take(i as int),
        decreases o.services@.len() - i,
    {
        let ghost before = strings_view(r@);
        let name = o.services[i].name.clone();
        r.push(name);
        proof {
            assert(strings_view(r@) =~= before.push(name@));
            assert(service_names(*o).take(i + 1) =~= service_names(*o).take(i as int).push(o.services@[i as int].name@));
        }
        i += 1;
    }
    proof {
        assert(service_names(*o).take(o.services@.len() as int) == service_names(*o));
    }
    r
}

fn env_findings(o: &ProjectObservation) -> (r: Vec<Finding>)
    ensures
        findings_match(r@, env_section(*o)),
{
    if o.services.len() == 0 {
        let r: Vec<Finding> = Vec::new();
        return r;
    }
    let names = service_names_exec(o);
    let missing = check_env_configuration(&o.env_content, &names);
    if missing.len() == 0 {
        let r: Vec<Finding> = Vec::new();
        return r;
    }
    let status = if o.has_env { ".env file detected" } else { ".env file missing" };
    let mut ev = vec![item("Status", status)];
    let ghost m = missing_env_vars(opt_view(o.env_content), service_names(*o));
    let mut i: usize = 0;
    while i < missing.len()
        invariant
            i <= missing@.len(),
            strings_view(missing@) == m,
            items_view(ev@) =~= seq![("Status"@, status@)] + m.take(i as int).map_values(|v: Seq<char>| ("Missing variable"@, v)),
        decreases missing@.len() - i,
    {
        let ghost before = items_view(ev@);
        let v = missing[i].clone();
        ev.push((String::from_str("Missing variable"), v));
        proof {
            assert(v@ == m[i as int]);
            assert(items_view(ev@) =~= before.push(("Missing variable"@, m[i as int])));
            assert(m.take(i + 1) =~= m.take(i as int).push(m[i as int]));
            assert(m.take(i + 1).map_values(|v: Seq<char>| ("Missing variable"@, v)) =~= m.take(i as int).map_values(
                |v: Seq<char>| ("Missing variable"@, v),
            ).push(("Missing variable"@, m[i as int])));
        }
        i += 1;
    }
    proof {
        assert(m.take(missing@.len() as int) == m);
    }
    single(
        Severity::Error,
        "Configuration (.env)",
        String::from_str("Required database configuration parameters are missing in your environment file."),
        ev,
        Some(String::from_str("Add the missing variables to your .env file with correct connection strings.")),
    )
}

proof fn lemma_match_append(a: Seq<Finding>, sa: Seq<FindingSpec>, b: Seq<Finding>, sb: Seq<FindingSpec>)
    requires
        findings_match(a, sa),
        findings_match(b, sb),
    ensures
        findings_match(a + b, sa + sb),
{
    assert forall|i: int| 0 <= i < (a + b).len() implies finding_matches(#[trigger] (a + b)[i], (sa + sb)[i]) by {
        if i >= a.len() {
            assert(finding_matches(b[i - a.len()], sb[i - a.len()]));
        }
    }
}

fn append_findings(out: &mut Vec<Finding>, more: Vec<Finding>, Ghost(so): Ghost<Seq<FindingSpec>>, Ghost(sm): Ghost<Seq<FindingSpec>>)
    requires
        findings_match(old(out)@, so),
        findings_match(more@, sm),
    ensures
        findings_match(final(out)@, so + sm),
{
    let mut more = more;
    proof {
        lemma_match_append(out@, so, more@, sm);
    }
    out.append(&mut more);
}

/// Diagnoses a project from what was seen of it and of the machine: one
/// finding for Node when package.json is present, for Python, Rust, Go and
/// Java when their files are, for Docker when a compose file or Dockerfile
/// is, one per database the compose files ask for, and one listing the .env
/// variables those databases lack.
pub fn project_findings(o: &ProjectObservation) -> (r: Vec<Finding>)
    ensures
        findings_match(r@, project_findings_spec(*o)),
{
    let mut out = node_findings(o);
    let py = python_file(o);
    append_findings(
        &mut out,
        runtime_findings(
            py,
            &o.python,
            "Python",
            "Python runtime is available.",
            "Python executable is missing on PATH.",
            "Install Python (via scoop install python, or download from python.org).",
        ),
        Ghost(node_section(*o)),
        Ghost(python_section(*o)),
    );
    let rs = file_if_present(o, "Cargo.toml");
    append_findings(
        &mut out,
        runtime_findings(
            rs,
            &o.cargo,
            "Rust",
            "Rust toolchain is active and available.",
            "Cargo executable is missing on PATH.",
            "Install Rust toolchain using rustup (from https://rustup.rs).",
        ),
        Ghost(node_section(*o) + python_section(*o)),
        Ghost(rust_section(*o)),
    );
    let go = file_if_present(o, "go.mod");
    append_findings(
        &mut out,
        runtime_findings(
            go,
            &o.go,
            "Go",
            "Go runtime is available.",
            "Go executable is missing on PATH.",
            "Install Go runtime (via scoop install go, or from golang.org).",
        ),
        Ghost(node_section(*o) + python_section(*o) + rust_section(*o)),
        Ghost(go_section(*o)),
    );
    let jv = java_file(o);
    append_findings(
        &mut out,
        runtime_findings(
            jv,
            &o.java,
            "Java",
            "Java Runtime Environment (JRE) is available.",
            "Java executable is missing on PATH.",
            "Install a Java Development Kit (via scoop install openjdk, or from oracle/temurin).",
        ),
        Ghost(node_section(*o) + python_section(*o) + rust_section(*o) + go_section(*o)),
        Ghost(java_section(*o)),
    );
    append_findings(
        &mut out,
        docker_findings(o),
        Ghost(node_section(*o) + python_section(*o) + rust_section(*o) + go_section(*o) + java_section(*o)),
        Ghost(docker_section(*o)),
    );
    append_findings(
        &mut out,
        services_findings(o),
        Ghost(node_section(*o) + python_section(*o) + rust_section(*o) + go_section(*o) + java_section(*o) + docker_section(*o)),
        Ghost(services_section(*o)),
    );
    append_findings(
        &mut out,
        env_findings(o),
        Ghost(
            node_section(*o) + python_section(*o) + rust_section(*o) + go_section(*o) + java_section(*o) + docker_section(*o)
                + services_section(*o),
        ),
        Ghost(env_section(*o)),
    );
    out
}

} // verus!

verus! {

/// The primary reasons of a diagnosis: "subject: cause" for each error, in order.
pub open spec fn error_reasons_spec(fs: Seq<Finding>) -> Seq<Seq<char>>
    decreases fs.len(),
{
    if fs.len() == 0 {
        seq![]
    } else {
        let rest = error_reasons_spec(fs.drop_last());
        let f = fs.last();
        if f.severity == Severity::Error { rest.push(f.subject@ + ": "@ + f.cause@) } else { rest }
    }
}

/// The primary reasons why a project is incompatible with the machine:
/// "subject: cause" for each error finding, in order. None means the
/// project environment is healthy.
pub fn error_reasons(findings: &Vec<Finding>) -> (r: Vec<String>)
    ensures
        strings_view(r@) == error_reasons_spec(findings@),
{
    let mut r: Vec<String> = Vec::new();
    let mut i: usize = 0;
    proof {
        assert(findings@.take(0) =~= Seq::<Finding>::empty());
    }
    while i < findings.len()
        invariant
            i <= findings@.len(),
            strings_view(r@) == error_reasons_spec(findings@.take(i as int)),
        decreases findings@.len() - i,
    {
        proof {
            assert(findings@.take(i + 1).drop_last() == findings@.take(i as int));
            assert(findings@.take(i + 1).last() == findings@[i as int]);
        }
        if findings[i].severity == Severity::Error {
            let ghost before = strings_view(r@);
            let mut line = concat(findings[i].subject.as_str(), ": ");
            line.append(findings[i].cause.as_str());
            r.push(line);
            proof {
                assert(strings_view(r@) =~= before.push(line@));
            }
        }
        i += 1;
    }
    proof {
        assert(findings@.take(findings@.len() as int) == findings@);
    }
    r
}

} // verus!

verus! {

/// The databases a compose file asks for are listed once each, whatever its
/// services repeat.
pub proof fn lemma_required_databases_distinct(services: Seq<(String, Option<String>)>)
    ensures
        required_databases(services).no_duplicates(),
{
    reveal_strlit("MongoDB");
    reveal_strlit("MySQL");
    reveal_strlit("PostgreSQL");
    reveal_strlit("Redis");
    assert("MongoDB"@[1] != "MySQL"@[1]);
    assert("MySQL"@[0] != "Redis"@[0]);
    let r = required_databases(services);
    assert forall|i: int, j: int| 0 <= i < r.len() && 0 <= j < r.len() && i != j implies r[i] != r[j] by {
        if r[i] == r[j] {
            assert(r[i].len() == r[j].len());
            assert(r[i][0] == r[j][0]);
            assert(r[i][1] == r[j][1]);
        }
    }
}

} // verus!

verus! {

/// Which tools a project diagnosis looks up on PATH.
#[derive(Clone, Copy, Debug)]
pub struct ProbePlan {
    pub node: bool,
    pub python: bool,
    pub cargo: bool,
    pub go: bool,
    pub java: bool,
    pub docker: bool,
}

/// The tools a diagnosis needs, from the project's files and toolchains:
/// each runtime when a file that asks for it is present, Docker when a
/// compose file or Dockerfile is.
pub fn probes_needed(files: &Vec<String>, toolchain: &Vec<String>) -> (r: ProbePlan)
    ensures
        r.node == strings_view(files@).contains("package.json"@),
        r.python == (strings_view(files@).contains("requirements.txt"@) || strings_view(files@).contains(
            "pyproject.toml"@,
        ) || strings_view(files@).contains("pipfile"@)),
        r.cargo == strings_view(files@).contains("Cargo.toml"@),
        r.go == strings_view(files@).contains("go.mod"@),
        r.java == (strings_view(files@).contains("pom.xml"@) || strings_view(files@).contains("build.gradle"@)),
        r.docker == (strings_view(toolchain@).contains("Docker Compose"@) || strings_view(toolchain@).contains(
            "Docker"@,
        )),
{
    ProbePlan {
        node: holds_text(files, "package.json"),
        python: holds_text(files, "requirements.txt") || holds_text(files, "pyproject.toml") || holds_text(
            files,
            "pipfile",
        ),
        cargo: holds_text(files, "Cargo.toml"),
        go: holds_text(files, "go.mod"),
        java: holds_text(files, "pom.xml") || holds_text(files, "build.gradle"),
        docker: holds_text(toolchain, "Docker Compose") || holds_text(toolchain, "Docker"),
    }
}

} // verus!

verus! {

proof fn lemma_caret_not_at_least(r: Seq<char>)
    requires
        starts_with(r, "^"@),
    ensures
        !starts_with(r, ">="@),
{
    reveal_strlit("^");
    reveal_strlit(">=");
    assert(r.take(1)[0] == '^');
    if starts_with(r, ">="@) {
        assert(r.take(2)[0] == '>');
    }
}

/// A `^N` engine constraint asks for major version N exactly: when both
/// major numbers read, the active version `active` breaks it exactly when
/// its major number differs from N, older and newer alike. A `>=N`
/// constraint is broken exactly when the active major number is below N.
/// The reason given names the active version as reported and the
/// constraint as written (trimmed).
pub proof fn lemma_node_constraint_by_major(req: Seq<char>, active: Seq<char>, want: u32, have: u32)
    requires
        major_of(trim_prefix(active, "v"@)) == Some(have),
    ensures
        (starts_with(trim_ws(req), "^"@) && major_of(trim_ws(trim_prefix(trim_ws(req), "^"@))) == Some(want)) ==> {
            &&& (node_violation(req, active) is Some <==> have != want)
            &&& have < want ==> node_violation(req, active) is Some
            &&& have > want ==> node_violation(req, active) is Some
        },
        (starts_with(trim_ws(req), ">="@) && major_of(trim_ws(trim_prefix(trim_ws(req), ">="@))) == Some(want)) ==> (
        node_violation(req, active) is Some <==> have < want),
        node_violation(req, active) matches Some(m) ==> m == "active version is "@ + active
            + " but package.json requires "@ + trim_ws(req),
        !starts_with(trim_ws(req), "^"@) && !starts_with(trim_ws(req), ">="@) ==> node_violation(req, active) is None,
{
    if starts_with(trim_ws(req), "^"@) {
        lemma_caret_not_at_least(trim_ws(req));
    }
}

} // verus!

verus! {

/// Which databases a compose file needs, service by service, judged on the
/// lower-cased service name and image: a name or image mentioning postgres
/// needs PostgreSQL; else one mentioning redis needs Redis; else one
/// mentioning mysql needs MySQL; else a name mentioning mongodb or an image
/// mentioning mongo needs MongoDB. Every database listed is needed by some
/// service, and each is listed once.
pub proof fn lemma_service_needs_its_database(services: Seq<(String, Option<String>)>, i: int)
    requires
        0 <= i < services.len(),
    ensures
        ({
            let n = lowercase(services[i].0@);
            let m = lowercase(or_empty(services[i].1));
            let pg = contains(n, "postgres"@) || contains(m, "postgres"@);
            let rd = contains(n, "redis"@) || contains(m, "redis"@);
            let my = contains(n, "mysql"@) || contains(m, "mysql"@);
            let mg = contains(n, "mongodb"@) || contains(m, "mongo"@);
            &&& pg ==> required_databases(services).contains("PostgreSQL"@)
            &&& !pg && rd ==> required_databases(services).contains("Redis"@)
            &&& !pg && !rd && my ==> required_databases(services).contains("MySQL"@)
            &&& !pg && !rd && !my && mg ==> required_databases(services).contains("MongoDB"@)
        }),
        forall|d: Seq<char>|
            required_databases(services).contains(d) ==> d == "PostgreSQL"@ || d == "Redis"@ || d == "MySQL"@ || d
                == "MongoDB"@,
        required_databases(services).contains("MySQL"@) ==> exists|j: int|
            0 <= j < services.len() && (contains(lowercase(services[j].0@), "mysql"@) || contains(
                lowercase(or_empty(services[j].1)),
                "mysql"@,
            )) && #[trigger] kind_of(services[j]) == 2,
        required_databases(services).contains("PostgreSQL"@) ==> exists|j: int|
            0 <= j < services.len() && (contains(lowercase(services[j].0@), "postgres"@) || contains(
                lowercase(or_empty(services[j].1)),
                "postgres"@,
            )) && #[trigger] kind_of(services[j]) == 0,
        required_databases(services).contains("Redis"@) ==> exists|j: int|
            0 <= j < services.len() && (contains(lowercase(services[j].0@), "redis"@) || contains(
                lowercase(or_empty(services[j].1)),
                "redis"@,
            )) && #[trigger] kind_of(services[j]) == 1,
        required_databases(services).len() <= 4,
{
    reveal_strlit("MongoDB");
    reveal_strlit("MySQL");
    reveal_strlit("PostgreSQL");
    reveal_strlit("Redis");
    assert("MongoDB"@.len() == 7 && "MySQL"@.len() == 5 && "PostgreSQL"@.len() == 10 && "Redis"@.len() == 5);
    assert("MySQL"@[0] != "Redis"@[0]);
    let k = kind_of(services[i]);
    assert(has_kind(services, k));
    let r = required_databases(services);
    let a: Seq<Seq<char>> = if has_kind(services, 3) { seq!["MongoDB"@] } else { seq![] };
    let b: Seq<Seq<char>> = if has_kind(services, 2) { seq!["MySQL"@] } else { seq![] };
    let c: Seq<Seq<char>> = if has_kind(services, 0) { seq!["PostgreSQL"@] } else { seq![] };
    let e: Seq<Seq<char>> = if has_kind(services, 1) { seq!["Redis"@] } else { seq![] };
    assert(r == a + b + c + e);
    if has_kind(services, 2) {
        assert(r[a.len() as int] == "MySQL"@);
    }
    if has_kind(services, 0) {
        assert(r[(a.len() + b.len()) as int] == "PostgreSQL"@);
    }
    if has_kind(services, 1) {
        assert(r[(a.len() + b.len() + c.len()) as int] == "Redis"@);
    }
    if has_kind(services, 3) {
        assert(r[0] == "MongoDB"@);
    }
    assert forall|d: Seq<char>| r.contains(d) implies d == "PostgreSQL"@ || d == "Redis"@ || d == "MySQL"@ || d
        == "MongoDB"@ by {
        let j = choose|j: int| 0 <= j < r.len() && r[j] == d;
        if j < a.len() {
            assert(r[j] == a[j]);
        } else if j < a.len() + b.len() {
            assert(r[j] == b[j - a.len()]);
        } else if j < a.len() + b.len() + c.len() {
            assert(r[j] == c[j - a.len() - b.len()]);
        } else {
            assert(r[j] == e[j - a.len() - b.len() - c.len()]);
        }
    }
    if r.contains("MySQL"@) {
        let j = choose|j: int| 0 <= j < r.len() && r[j] == "MySQL"@;
        if j < a.len() {
            assert(r[j] == a[j]);
            assert(r[j] == "MongoDB"@);
        } else if j < a.len() + b.len() {
            assert(r[j] == b[j - a.len()]);
        } else if j < a.len() + b.len() + c.len() {
            assert(r[j] == c[j - a.len() - b.len()]);
            assert(r[j] == "PostgreSQL"@);
        } else {
            assert(r[j] == e[j - a.len() - b.len() - c.len()]);
            assert(r[j] == "Redis"@);
        }
        assert(has_kind(services, 2));
    }
    if r.contains("PostgreSQL"@) {
        let j = choose|j: int| 0 <= j < r.len() && r[j] == "PostgreSQL"@;
        if j < a.len() {
            assert(r[j] == a[j]);
        } else if j < a.len() + b.len() {
            assert(r[j] == b[j - a.len()]);
        } else if j < a.len() + b.len() + c.len() {
            assert(r[j] == c[j - a.len() - b.len()]);
        } else {
            assert(r[j] == e[j - a.len() - b.len() - c.len()]);
        }
        assert(has_kind(services, 0));
    }
    if r.contains("Redis"@) {
        let j = choose|j: int| 0 <= j < r.len() && r[j] == "Redis"@;
        if j < a.len() {
            assert(r[j] == a[j]);
        } else if j < a.len() + b.len() {
            assert(r[j] == b[j - a.len()]);
            assert(r[j] == "MySQL"@);
        } else if j < a.len() + b.len() + c.len() {
            assert(r[j] == c[j - a.len() - b.len()]);
        } else {
            assert(r[j] == e[j - a.len() - b.len() - c.len()]);
        }
        assert(has_kind(services, 1));
    }
}

} // verus!
