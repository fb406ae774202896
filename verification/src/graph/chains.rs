use vstd::prelude::*;
use vstd::string::{StringExecFns, StringSliceAdditionalSpecFns};
use crate::graph::{
    empty_graph, evidence_view, lemma_fresh_child, nview, lemma_new_child, lemma_tree_like_valid, view_below, view_has_id,
    view_tree_like, with_edge, with_node, GraphView, SystemGraph,
};
use crate::inspectors::executable::installation::{
    detect_installation_source, in_scoop, manager_of, manager_rule, opt_view, InstallationInfo,
};
use crate::inspectors::finding::{node_ids_distinct, validation_result, Finding, Severity};
use crate::platform::{PortData, ProcessData};
use crate::resolver::path::{file_name_fits, opt_text, path_file_name, single_component, slash_file_name, slash_path, PathSearchResult};
use vstd::utf8::{decode_utf8, encode_utf8, is_char_boundary};
use crate::text::{decimal, decimal_string, lowercase, str_trim_suffix, to_lowercase, trim_suffix};

verus! {

pub open spec fn or_empty(o: Option<String>) -> Seq<char> {
    match o {
        Some(s) => s@,
        None => seq![],
    }
}

/// Spaces and parentheses replaced by underscores.
pub open spec fn underscored(s: Seq<char>) -> Seq<char> {
    s.map_values(|c: char| if c == ' ' || c == '(' || c == ')' { '_' } else { c })
}

/// The id of the node of a package manager.
pub open spec fn manager_id(manager: Seq<char>) -> Seq<char> {
    "mgr:"@ + underscored(lowercase(manager))
}

/// The runtime name shown for a lower-cased program name without ".exe".
pub open spec fn display_name_of(l: Seq<char>) -> Seq<char> {
    if l == "node"@ {
        "Node.js"@
    } else if l == "python"@ || l == "python3"@ {
        "Python"@
    } else if l == "java"@ {
        "Java"@
    } else if l == "ruby"@ {
        "Ruby"@
    } else if l == "go"@ {
        "Go"@
    } else if l == "cargo"@ || l == "rustc"@ {
        "Rust"@
    } else if l == "docker"@ {
        "Docker"@
    } else if l == "git"@ {
        "Git"@
    } else {
        l
    }
}

/// The display name of the runtime behind an executable file name.
pub open spec fn runtime_display(exe: Seq<char>) -> Seq<char> {
    display_name_of(lowercase(trim_suffix(exe, ".exe"@)))
}

fn underscore(s: &str) -> (r: String)
    ensures
        r@ == underscored(s@),
{
    let cs = crate::text::chars_of(s);
    let mut out: Vec<char> = Vec::new();
    let mut i: usize = 0;
    while i < cs.len()
        invariant
            i <= cs@.len(),
            out@ == underscored(cs@.take(i as int)),
        decreases cs@.len() - i,
    {
        let c = cs[i];
        out.push(if c == ' ' || c == '(' || c == ')' { '_' } else { c });
        proof {
            assert(underscored(cs@.take(i + 1)) =~= underscored(cs@.take(i as int)).push(
                if c == ' ' || c == '(' || c == ')' { '_' } else { c },
            ));
        }
        i += 1;
    }
    proof {
        assert(cs@.take(cs@.len() as int) == cs@);
    }
    crate::text::string_of(&out)
}

fn manager_node_id(manager: &str) -> (r: String)
    ensures
        r@ == manager_id(manager@),
{
    let l = to_lowercase(manager);
    let u = underscore(l.as_str());
    let mut r = String::from_str("mgr:");
    r.append(u.as_str());
    r
}

/// The runtime name shown for an executable, such as "Node.js" for "node.exe".
pub fn exe_display_name(exe: &str) -> (r: String)
    ensures
        r@ == runtime_display(exe@),
{
    let t = str_trim_suffix(exe, ".exe");
    let l = to_lowercase(t.as_str());
    if l == String::from_str("node") {
        String::from_str("Node.js")
    } else if l == String::from_str("python") || l == String::from_str("python3") {
        String::from_str("Python")
    } else if l == String::from_str("java") {
        String::from_str("Java")
    } else if l == String::from_str("ruby") {
        String::from_str("Ruby")
    } else if l == String::from_str("go") {
        String::from_str("Go")
    } else if l == String::from_str("cargo") || l == String::from_str("rustc") {
        String::from_str("Rust")
    } else if l == String::from_str("docker") {
        String::from_str("Docker")
    } else if l == String::from_str("git") {
        String::from_str("Git")
    } else {
        l
    }
}


// ---------------------------------------------------------------------------
// Executable: PATH -> Binary -> Package Manager -> Runtime -> Projects
// ---------------------------------------------------------------------------

/// The first PATH match of a command's sibling tool, and whether it shares an
/// installation root with the command (see `share_installation_root`).
#[derive(Clone, Debug)]
pub struct SiblingObservation {
    pub resolved_path: String,
    pub shares_root: bool,
}

/// What was found on the system for a command: its PATH matches in search
/// order, the version the active one reports, the project directories that
/// use it, and the first match of its sibling tool.
#[derive(Clone, Debug)]
pub struct ExecutableObservation {
    pub results: Vec<PathSearchResult>,
    pub version: Option<String>,
    pub projects: Vec<String>,
    pub sibling: Option<SiblingObservation>,
}

/// What the chain derives from paths: the file name of the active match, its
/// installation, the file names of the first three projects, and the file
/// name and manager of every shadowed match.
#[derive(Clone, Debug)]
pub struct ChainFacts {
    pub active_name: Option<String>,
    pub active_install: InstallationInfo,
    pub project_names: Vec<Option<String>>,
    pub alt_names: Vec<Option<String>>,
    pub alt_managers: Vec<String>,
}

/// The tool whose installation should match the command's.
pub open spec fn sibling_name(q: Seq<char>) -> Option<Seq<char>> {
    if q == "node"@ {
        Some("npm"@)
    } else if q == "python"@ || q == "python3"@ {
        Some("pip"@)
    } else {
        None
    }
}

/// The tool whose installation should match the command's: npm for node,
/// pip for python.
pub fn sibling_tool(query: &str) -> (r: Option<&'static str>)
    ensures
        match r {
            Some(t) => sibling_name(query@) == Some(t@),
            None => sibling_name(query@) is None,
        },
{
    let q = String::from_str(query);
    if q == String::from_str("node") {
        Some("npm")
    } else if q == String::from_str("python") || q == String::from_str("python3") {
        Some("pip")
    } else {
        None
    }
}

/// The sibling tool and its path, when it resolves to another installation.
pub open spec fn conflict_sibling(q: Seq<char>, sibling: Option<SiblingObservation>) -> Option<(Seq<char>, Seq<char>)> {
    match (sibling_name(q), sibling) {
        (Some(sib), Some(s)) => if !s.shares_root {
            Some((sib, s.resolved_path@))
        } else {
            None
        },
        _ => None,
    }
}

pub open spec fn min3(n: int) -> int {
    if n < 3 { n } else { 3 }
}

/// The graph with the projects `entries` (name and path) added, each used by
/// the runtime `rid`.
pub open spec fn with_projects(g: GraphView, rid: Seq<char>, entries: Seq<(Seq<char>, Seq<char>)>) -> GraphView
    decreases entries.len(),
{
    if entries.len() == 0 {
        g
    } else {
        let g2 = with_projects(g, rid, entries.drop_last());
        let (name, path) = entries.last();
        let pid = "project:"@ + name;
        with_edge(with_node(g2, pid, "Project"@, name, path), rid, "used by"@, pid)
    }
}

pub open spec fn project_entries(names: Seq<Option<String>>, projects: Seq<String>) -> Seq<(Seq<char>, Seq<char>)> {
    Seq::new(min3(projects.len() as int) as nat, |i: int| (or_empty(names[i]), projects[i]@))
}

/// The graph with the shadowed matches `1..=n` of `results` added.
pub open spec fn with_alts(
    g: GraphView,
    q: Seq<char>,
    results: Seq<PathSearchResult>,
    names: Seq<Option<String>>,
    managers: Seq<String>,
    n: int,
) -> GraphView
    decreases n,
{
    if n <= 0 {
        g
    } else {
        let g2 = with_alts(g, q, results, names, managers, n - 1);
        let aid = "exe:"@ + q + "_alt"@ + decimal(n as nat);
        let label = or_empty(names[n - 1]) + ".exe [shadowed, entry #"@ + decimal((n + 1) as nat) + "]"@;
        let relation = "also found (entry #"@ + decimal((n + 1) as nat) + ", via "@ + managers[n - 1]@ + ")"@;
        with_edge(with_node(g2, aid, "Binary"@, label, results[n].resolved_path@), "path"@, relation, aid)
    }
}

/// The evidence for a command found on PATH: the PATH, the active binary,
/// its package manager, its runtime and projects when it reports a version,
/// a sibling tool that resolves elsewhere, and every shadowed match.
pub open spec fn executable_graph(
    q: Seq<char>,
    results: Seq<PathSearchResult>,
    version: Option<String>,
    projects: Seq<String>,
    sibling: Option<SiblingObservation>,
    facts: ChainFacts,
) -> GraphView {
    let exe_name = match facts.active_name {
        Some(n) => n@,
        None => q + ".exe"@,
    };
    let exe_id = "exe:"@ + q;
    let mgr = facts.active_install.manager@;
    let mid = manager_id(mgr);
    let g1 = with_node(empty_graph(), "path"@, "Environment"@, "System PATH"@, ""@);
    let g2 = with_edge(with_node(g1, exe_id, "Binary"@, exe_name, results[0].resolved_path@), "path"@, "resolves"@, exe_id);
    let g3 = with_edge(with_node(g2, mid, "PackageManager"@, mgr, or_empty(facts.active_install.detail)), exe_id, "installed by"@, mid);
    let g4 = match version {
        Some(ver) => {
            let rid = "runtime:"@ + q;
            let g = with_edge(with_node(g3, rid, "Runtime"@, runtime_display(exe_name), ver@), exe_id, "resolves to"@, rid);
            with_projects(g, rid, project_entries(facts.project_names@, projects))
        },
        None => g3,
    };
    let g5 = match conflict_sibling(q, sibling) {
        Some((sib, path)) => with_edge(
            with_node(g4, "exe:"@ + sib, "Binary"@, sib + ".exe"@, path),
            "path"@,
            sib + " resolves separately"@,
            "exe:"@ + sib,
        ),
        None => g4,
    };
    with_alts(g5, q, results, facts.alt_names@, facts.alt_managers@, results.len() - 1)
}

/// The evidence when a command is not on PATH.
pub open spec fn missing_executable_graph(q: Seq<char>) -> GraphView {
    let exe_id = "exe:"@ + q;
    with_edge(
        with_node(with_node(empty_graph(), "path"@, "Environment"@, "System PATH"@, ""@), exe_id, "Binary"@, q + ".exe"@, "Not Found"@),
        "path"@,
        "searched for"@,
        exe_id,
    )
}

pub open spec fn version_or(version: Option<String>, fallback: Seq<char>) -> Seq<char> {
    match version {
        Some(v) => v@,
        None => fallback,
    }
}

/// What the finding for a command says is wrong, or right.
pub open spec fn executable_cause(q: Seq<char>, n: nat, version: Option<String>, manager: Seq<char>) -> Seq<char> {
    if n == 0 {
        "'"@ + q + "' was not found in any PATH entry."@
    } else if n > 1 {
        decimal(n) + " installations of '"@ + q + "' found on PATH. Active: "@ + version_or(version, "unknown"@)
            + " via "@ + manager + "."@
    } else {
        "'"@ + q + "' resolves to "@ + version_or(version, "unknown version"@) + " via "@ + manager + "."@
    }
}

/// The advice attached to the finding for a command.
pub open spec fn executable_suggestion(q: Seq<char>, n: nat, sibling: Option<SiblingObservation>) -> Option<Seq<char>> {
    if n == 0 {
        Some("Install "@ + q + " or verify your PATH configuration."@)
    } else {
        match conflict_sibling(q, sibling) {
            Some((sib, _)) => Some(q + " and "@ + sib + " resolve to different installations \u{2014} possible version mismatch."@),
            None => None,
        }
    }
}

/// How severe the finding for a command is: missing is an error; several
/// matches or a sibling elsewhere is a warning.
pub open spec fn executable_severity(q: Seq<char>, n: nat, sibling: Option<SiblingObservation>) -> Severity {
    if n == 0 {
        Severity::Error
    } else if n > 1 || conflict_sibling(q, sibling) is Some {
        Severity::Warning
    } else {
        Severity::Info
    }
}

/// A string made of the given parts.
fn text2(a: &str, b: &str) -> (r: String)
    ensures
        r@ == a@ + b@,
{
    let mut r = String::from_str(a);
    r.append(b);
    r
}

fn text3(a: &str, b: &str, c: &str) -> (r: String)
    ensures
        r@ == a@ + b@ + c@,
{
    let mut r = text2(a, b);
    r.append(c);
    r
}

fn text4(a: &str, b: &str, c: &str, d: &str) -> (r: String)
    ensures
        r@ == a@ + b@ + c@ + d@,
{
    let mut r = text3(a, b, c);
    r.append(d);
    r
}

fn text5(a: &str, b: &str, c: &str, d: &str, e: &str) -> (r: String)
    ensures
        r@ == a@ + b@ + c@ + d@ + e@,
{
    let mut r = text4(a, b, c, d);
    r.append(e);
    r
}

fn opt_str(o: &Option<String>) -> (r: &str)
    ensures
        r@ == or_empty(*o),
{
    proof {
        reveal_strlit("");
    }
    match o {
        Some(s) => s.as_str(),
        None => "",
    }
}

/// Builds the causal chain for a command from what was found on the system
/// and what the chain derives from paths.
pub fn executable_chain_from(query: &str, obs: &ExecutableObservation, facts: &ChainFacts) -> (f: Finding)
    requires
        facts.project_names@.len() == min3(obs.projects@.len() as int),
        obs.results@.len() > 0 ==> facts.alt_names@.len() == obs.results@.len() - 1,
        obs.results@.len() > 0 ==> facts.alt_managers@.len() == obs.results@.len() - 1,
    ensures
        f.subject@ == query@,
        f.severity == executable_severity(query@, obs.results@.len(), obs.sibling),
        f.cause@ == executable_cause(query@, obs.results@.len(), obs.version, facts.active_install.manager@),
        opt_view(f.suggestion) == executable_suggestion(query@, obs.results@.len(), obs.sibling),
        node_ids_distinct(f.graph),
        obs.results@.len() == 0 ==> evidence_view(f.graph) == missing_executable_graph(query@),
        obs.results@.len() > 0 ==> evidence_view(f.graph) == executable_graph(
            query@,
            obs.results@,
            obs.version,
            obs.projects@,
            obs.sibling,
            *facts,
        ),
        obs.results@.len() == 0 ==> validation_result(f.graph, Ok(())),
        obs.results@.len() > 0 && entry_names_distinct(project_entries(facts.project_names@, obs.projects@))
            ==> validation_result(f.graph, Ok(())),
{
    let results = &obs.results;
    let exe_id = text2("exe:", query);
    if results.len() == 0 {
        let mut sg = SystemGraph::new();
        sg.node("path", "Environment", "System PATH", "");
        let label = text2(query, ".exe");
        sg.node(exe_id.as_str(), "Binary", label.as_str(), "Not Found");
        sg.edge("path", "searched for", exe_id.as_str());
        let cause = text3("'", query, "' was not found in any PATH entry.");
        let suggestion = text3("Install ", query, " or verify your PATH configuration.");
        let f = sg.into_finding(Severity::Error, String::from_str(query), cause, Some(suggestion));
        proof {
            lemma_missing_graph_tree_like(query@);
            lemma_tree_like_valid(f.graph, |id: Seq<char>| exec_level(id));
        }
        return f;
    }
    let mut sg = SystemGraph::new();
    sg.node("path", "Environment", "System PATH", "");
    let active = &results[0];
    let exe_name = match &facts.active_name {
        Some(n) => n.clone(),
        None => text2(query, ".exe"),
    };
    sg.node(exe_id.as_str(), "Binary", exe_name.as_str(), active.resolved_path.as_str());
    sg.edge("path", "resolves", exe_id.as_str());
    let install = &facts.active_install;
    let mgr_id = manager_node_id(install.manager.as_str());
    sg.node(mgr_id.as_str(), "PackageManager", install.manager.as_str(), opt_str(&install.detail));
    sg.edge(exe_id.as_str(), "installed by", mgr_id.as_str());
    let ghost g3 = sg.gview();
    match &obs.version {
        Some(ver) => {
            let runtime_id = text2("runtime:", query);
            let display = exe_display_name(exe_name.as_str());
            sg.node(runtime_id.as_str(), "Runtime", display.as_str(), ver.as_str());
            sg.edge(exe_id.as_str(), "resolves to", runtime_id.as_str());
            let ghost g = sg.gview();
            let ghost entries = project_entries(facts.project_names@, obs.projects@);
            let count = if obs.projects.len() < 3 { obs.projects.len() } else { 3 };
            let mut j: usize = 0;
            while j < count
                invariant
                    count == min3(obs.projects@.len() as int),
                    facts.project_names@.len() == count,
                    entries == project_entries(facts.project_names@, obs.projects@),
                    j <= count,
                    sg.wf(),
                    sg.gview() == with_projects(g, runtime_id@, entries.take(j as int)),
                decreases count - j,
            {
                let name = opt_str(&facts.project_names[j]);
                let proj_id = text2("project:", name);
                sg.node(proj_id.as_str(), "Project", name, obs.projects[j].as_str());
                sg.edge(runtime_id.as_str(), "used by", proj_id.as_str());
                proof {
                    assert(entries.take(j + 1).drop_last() == entries.take(j as int));
                    assert(entries.take(j + 1).last() == entries[j as int]);
                }
                j += 1;
            }
            proof {
                assert(entries.take(count as int) == entries);
            }
        },
        None => {},
    }
    let ghost g4 = sg.gview();
    let mut conflict_note: Option<String> = None;
    if let Some(sib) = sibling_tool(query) {
        if let Some(s) = &obs.sibling {
            if !s.shares_root {
                let sib_id = text2("exe:", sib);
                let sib_label = text2(sib, ".exe");
                sg.node(sib_id.as_str(), "Binary", sib_label.as_str(), s.resolved_path.as_str());
                let relation = text2(sib, " resolves separately");
                sg.edge("path", relation.as_str(), sib_id.as_str());
                conflict_note = Some(
                    text4(query, " and ", sib, " resolve to different installations \u{2014} possible version mismatch."),
                );
            }
        }
    }
    let ghost g5 = sg.gview();
    let n = results.len();
    let mut i: usize = 1;
    while i < n
        invariant
            n == obs.results@.len(),
            facts.alt_names@.len() == n - 1,
            facts.alt_managers@.len() == n - 1,
            1 <= i <= n,
            sg.wf(),
            sg.gview() == with_alts(g5, query@, obs.results@, facts.alt_names@, facts.alt_managers@, i - 1),
        decreases n - i,
    {
        let alt_id = text3("exe:", query, "_alt");
        let idx = decimal_string(i as u64);
        let alt_id = text2(alt_id.as_str(), idx.as_str());
        let entry = decimal_string((i + 1) as u64);
        let label = text4(opt_str(&facts.alt_names[i - 1]), ".exe [shadowed, entry #", entry.as_str(), "]");
        sg.node(alt_id.as_str(), "Binary", label.as_str(), obs.results[i].resolved_path.as_str());
        let relation = text5("also found (entry #", entry.as_str(), ", via ", facts.alt_managers[i - 1].as_str(), ")");
        sg.edge("path", relation.as_str(), alt_id.as_str());
        i += 1;
    }
    let severity = if n > 1 || conflict_note.is_some() {
        Severity::Warning
    } else {
        Severity::Info
    };
    let cause = if n > 1 {
        let count = decimal_string(n as u64);
        let ver = match &obs.version {
            Some(v) => v.as_str(),
            None => "unknown",
        };
        let head = text5(count.as_str(), " installations of '", query, "' found on PATH. Active: ", ver);
        text4(head.as_str(), " via ", install.manager.as_str(), ".")
    } else {
        let ver = match &obs.version {
            Some(v) => v.as_str(),
            None => "unknown version",
        };
        let head = text5("'", query, "' resolves to ", ver, " via ");
        text3(head.as_str(), install.manager.as_str(), ".")
    };
    let f = sg.into_finding(severity, String::from_str(query), cause, conflict_note);
    proof {
        if entry_names_distinct(project_entries(facts.project_names@, obs.projects@)) {
            lemma_executable_graph_tree_like(query@, obs.results@, obs.version, obs.projects@, obs.sibling, *facts);
            lemma_tree_like_valid(f.graph, |id: Seq<char>| exec_level(id));
        }
    }
    f
}

/// Builds the causal chain for a command on PATH:
/// PATH -> binary -> package manager -> runtime -> projects, with a sibling
/// tool that resolves elsewhere and every shadowed match. File names and
/// installation details are taken from the paths.
pub fn build_executable_chain(query: &str, obs: &ExecutableObservation) -> (f: Finding)
    ensures
        f.subject@ == query@,
        f.severity == executable_severity(query@, obs.results@.len(), obs.sibling),
        obs.results@.len() == 0 ==> f.cause@ == executable_cause(query@, 0, obs.version, seq![]),
        obs.results@.len() > 0 ==> f.cause@ == executable_cause(
            query@,
            obs.results@.len(),
            obs.version,
            manager_of(obs.results@[0].resolved_path@),
        ),
        opt_view(f.suggestion) == executable_suggestion(query@, obs.results@.len(), obs.sibling),
        node_ids_distinct(f.graph),
        obs.results@.len() == 0 ==> evidence_view(f.graph) == missing_executable_graph(query@),
        obs.results@.len() > 0 ==> exists|facts: ChainFacts|
            {
                &&& #[trigger] chain_facts_fit(*obs, facts)
                &&& evidence_view(f.graph) == executable_graph(
                    query@,
                    obs.results@,
                    obs.version,
                    obs.projects@,
                    obs.sibling,
                    facts,
                )
                &&& entry_names_distinct(project_entries(facts.project_names@, obs.projects@)) ==> validation_result(
                    f.graph,
                    Ok(()),
                )
            },
        obs.projects@.len() <= 1 ==> validation_result(f.graph, Ok(())),
        forall|i: int| 0 <= i < f.graph.nodes@.len() ==> #[trigger] f.graph.nodes@[i].node_type@ != "Constraint"@,
{
    let n = obs.results.len();
    let count = if obs.projects.len() < 3 { obs.projects.len() } else { 3 };
    let mut project_names: Vec<Option<String>> = Vec::new();
    let mut j: usize = 0;
    while j < count
        invariant
            count <= obs.projects@.len(),
            j <= count,
            project_names@.len() == j,
            forall|k: int|
                0 <= k < j ==> file_name_fits(obs.projects@[k]@, #[trigger] opt_text(project_names@[k])),
        decreases count - j,
    {
        project_names.push(path_file_name(obs.projects[j].as_str()));
        j += 1;
    }
    let mut alt_names: Vec<Option<String>> = Vec::new();
    let mut alt_managers: Vec<String> = Vec::new();
    let mut i: usize = 1;
    while i < n
        invariant
            n == obs.results@.len(),
            1 <= i,
            i <= n || n == 0,
            alt_names@.len() == i - 1,
            alt_managers@.len() == i - 1,
            forall|k: int|
                0 <= k < alt_managers@.len() ==> #[trigger] alt_managers@[k]@ == manager_of(
                    obs.results@[k + 1].resolved_path@,
                ),
            forall|k: int|
                0 <= k < alt_names@.len() ==> file_name_fits(
                    obs.results@[k + 1].resolved_path@,
                    #[trigger] opt_text(alt_names@[k]),
                ),
        decreases n - i,
    {
        let path = obs.results[i].resolved_path.as_str();
        alt_names.push(path_file_name(path));
        alt_managers.push(detect_installation_source(path).manager);
        i += 1;
    }
    let (active_name, active_install) = if n > 0 {
        let path = obs.results[0].resolved_path.as_str();
        (path_file_name(path), detect_installation_source(path))
    } else {
        (None, InstallationInfo { manager: String::new(), detail: None })
    };
    let facts = ChainFacts { active_name, active_install, project_names, alt_names, alt_managers };
    let f = executable_chain_from(query, obs, &facts);
    proof {
        if n > 0 {
            assert(chain_facts_fit(*obs, facts));
        }
        if obs.projects@.len() <= 1 {
            assert(entry_names_distinct(project_entries(facts.project_names@, obs.projects@)));
        }
        lemma_executable_graph_lacks_constraint(query@, obs.results@, obs.version, obs.projects@, obs.sibling, facts);
        let v = evidence_view(f.graph);
        assert forall|i: int| 0 <= i < f.graph.nodes@.len() implies #[trigger] f.graph.nodes@[i].node_type@
            != "Constraint"@ by {
            assert(v.0[i] == nview(f.graph.nodes@[i]));
            if n > 0 {
                assert(v == executable_graph(query@, obs.results@, obs.version, obs.projects@, obs.sibling, facts));
            } else {
                assert(v == missing_executable_graph(query@));
            }
            assert(view_lacks_type(v, "Constraint"@));
            assert(v.0[i].1 != "Constraint"@);
        }
    }
    f
}

/// What the chain of a found command takes from its paths: the active
/// match's file name and installation, as `path_file_name` and
/// `detect_installation_source` give them; the file name of each of the
/// first three projects, from its own path; and, for every shadowed match,
/// the file name and the manager of its own path.
pub open spec fn chain_facts_fit(obs: ExecutableObservation, facts: ChainFacts) -> bool {
    let active = obs.results@[0].resolved_path@;
    &&& obs.results@.len() > 0
    &&& facts.active_install.manager@ == manager_of(active)
    &&& !in_scoop(lowercase(active)) ==> opt_view(facts.active_install.detail) == manager_rule(lowercase(active)).1
    &&& facts.project_names@.len() == min3(obs.projects@.len() as int)
    &&& facts.alt_names@.len() == obs.results@.len() - 1
    &&& facts.alt_managers@.len() == obs.results@.len() - 1
    &&& forall|k: int|
        0 <= k < facts.alt_managers@.len() ==> #[trigger] facts.alt_managers@[k]@ == manager_of(
            obs.results@[k + 1].resolved_path@,
        )
    &&& file_name_fits(active, opt_text(facts.active_name))
    &&& forall|j: int|
        0 <= j < facts.project_names@.len() ==> file_name_fits(
            obs.projects@[j]@,
            #[trigger] opt_text(facts.project_names@[j]),
        )
    &&& forall|k: int|
        0 <= k < facts.alt_names@.len() ==> file_name_fits(
            obs.results@[k + 1].resolved_path@,
            #[trigger] opt_text(facts.alt_names@[k]),
        )
}


// ---------------------------------------------------------------------------
// Port -> PID -> Exe -> Runtime -> Project
// ---------------------------------------------------------------------------

/// What was found on the system for a TCP port: its listener, the listener's
/// process, the version the process's executable reports, and the projects
/// that use that runtime (see `runtime_query_name`).
#[derive(Clone, Debug)]
pub struct PortObservation {
    pub conn: Option<PortData>,
    pub process: Option<ProcessData>,
    pub version: Option<String>,
    pub projects: Vec<String>,
}

/// What the chain derives from paths: the executable's file name, its
/// installation, and the file names of the first three projects.
#[derive(Clone, Debug)]
pub struct PortFacts {
    pub exe_name: String,
    pub install: InstallationInfo,
    pub project_names: Vec<Option<String>>,
}

/// A command line as shown: cut after its first 80 bytes, with an ellipsis.
pub open spec fn cmd_display(cmd: Seq<char>) -> Seq<char> {
    if encode_utf8(cmd).len() > 80 {
        decode_utf8(encode_utf8(cmd).take(80)) + "\u{2026}"@
    } else {
        cmd
    }
}

/// Whether a command line can be cut after 80 bytes: it is no longer, or
/// byte 80 starts a character.
pub open spec fn cmd_cuttable(cmd: Seq<char>) -> bool {
    encode_utf8(cmd).len() > 80 ==> is_char_boundary(encode_utf8(cmd), 80)
}

/// The evidence a running executable adds: the binary, its package manager,
/// and, when it reports a version, its runtime and the projects using it.
pub open spec fn executable_part(
    g: GraphView,
    pid_id: Seq<char>,
    path: Seq<char>,
    facts: PortFacts,
    version: Option<String>,
    projects: Seq<String>,
) -> GraphView {
    let exe_name = facts.exe_name@;
    let exe_id = "exe:"@ + lowercase(exe_name);
    let mgr = facts.install.manager@;
    let mid = manager_id(mgr);
    let g1 = with_edge(with_node(g, exe_id, "Binary"@, exe_name, path), pid_id, "executable"@, exe_id);
    let g2 = with_edge(with_node(g1, mid, "PackageManager"@, mgr, ""@), exe_id, "installed by"@, mid);
    match version {
        Some(ver) => {
            let rid = "runtime:"@ + lowercase(exe_name);
            let g3 = with_edge(with_node(g2, rid, "Runtime"@, runtime_display(exe_name), ver@), exe_id, "resolves to"@, rid);
            with_projects(g3, rid, project_entries(facts.project_names@, projects))
        },
        None => g2,
    }
}

/// The evidence for a port: the port, its listener process, the process's
/// command line, executable and parent.
pub open spec fn port_graph(port: u16, obs: PortObservation, facts: PortFacts) -> GraphView {
    let port_id = "port:"@ + decimal(port as nat);
    let g1 = with_node(empty_graph(), port_id, "Port"@, "Port "@ + decimal(port as nat), ""@);
    match obs.conn {
        None => g1,
        Some(conn) => {
            let pid_id = "pid:"@ + conn.pid@;
            let g2 = with_edge(with_node(g1, pid_id, "Process"@, conn.name@, "PID "@ + conn.pid@), port_id, "owned by"@, pid_id);
            match obs.process {
                None => g2,
                Some(p) => {
                    let cmd_id = "cmd:"@ + conn.pid@;
                    let g3 = if p.cmd_line@.len() > 0 {
                        with_edge(
                            with_node(g2, cmd_id, "Command"@, "Command Line"@, cmd_display(p.cmd_line@)),
                            pid_id,
                            "running as"@,
                            cmd_id,
                        )
                    } else {
                        g2
                    };
                    let g4 = if p.path@.len() > 0 {
                        executable_part(g3, pid_id, p.path@, facts, obs.version, obs.projects@)
                    } else {
                        g3
                    };
                    let parent_id = "parent:"@ + conn.parent@;
                    if conn.parent@.len() > 0 && conn.parent@ != conn.pid@ {
                        with_edge(
                            with_node(g4, parent_id, "Process"@, "Parent ("@ + conn.parent@ + ")"@, ""@),
                            pid_id,
                            "spawned by"@,
                            parent_id,
                        )
                    } else {
                        g4
                    }
                },
            }
        },
    }
}

/// What the finding for a port says.
pub open spec fn port_cause(port: u16, conn: Option<PortData>) -> Seq<char> {
    match conn {
        Some(c) => "Port "@ + decimal(port as nat) + " is occupied by "@ + c.name@ + " (PID "@ + c.pid@ + ")."@,
        None => "Port "@ + decimal(port as nat) + " is free \u{2014} nothing is listening."@,
    }
}

fn cut_command(cmd: &str) -> (r: String)
    requires
        cmd_cuttable(cmd@),
    ensures
        r@ == cmd_display(cmd@),
{
    if cmd.as_bytes().len() > 80 {
        let (head, _) = cmd.split_at(80);
        proof {
            vstd::utf8::encode_utf8_decode_utf8(head@);
            assert(head.spec_bytes() == encode_utf8(head@));
            assert(encode_utf8(cmd@).take(80) == encode_utf8(cmd@).subrange(0, 80));
            assert(decode_utf8(encode_utf8(cmd@).take(80)) == head@);
        }
        text2(head, "\u{2026}")
    } else {
        String::from_str(cmd)
    }
}

/// The file name of a process's executable, or the process's name when the
/// path has none: the name for an empty path or "..", the path itself for a
/// path of one component, the final named component of a path split at '/'
/// alone. Other paths are split as the platform splits them.
pub fn process_exe_name(process: &ProcessData) -> (r: String)
    ensures
        process.path@.len() == 0 || process.path@ == ".."@ ==> r@ == process.name@,
        single_component(process.path@) && process.path@ != "."@ && process.path@ != ".."@ ==> r@
            == process.path@,
        slash_path(process.path@) ==> r@ == name_or(slash_file_name(process.path@), process.name@),
{
    match path_file_name(process.path.as_str()) {
        Some(n) => n,
        None => process.name.clone(),
    }
}

/// The command whose projects are looked for, for an executable file name:
/// lower-cased, without ".exe".
pub fn runtime_query_name(exe_name: &str) -> (r: String)
    ensures
        r@ == lowercase(trim_suffix(exe_name@, ".exe"@)),
{
    let t = str_trim_suffix(exe_name, ".exe");
    to_lowercase(t.as_str())
}

/// Builds the causal chain for a port from what was found on the system and
/// what the chain derives from paths.
pub fn port_chain_from(port: u16, obs: &PortObservation, facts: &PortFacts) -> (f: Finding)
    requires
        facts.project_names@.len() == min3(obs.projects@.len() as int),
        obs.process matches Some(p) ==> cmd_cuttable(p.cmd_line@),
    ensures
        f.severity == Severity::Info,
        f.subject@ == "Port "@ + decimal(port as nat),
        f.cause@ == port_cause(port, obs.conn),
        f.suggestion is None,
        node_ids_distinct(f.graph),
        evidence_view(f.graph) == port_graph(port, *obs, *facts),
        entry_names_distinct(project_entries(facts.project_names@, obs.projects@)) ==> validation_result(
            f.graph,
            Ok(()),
        ),
{
    let num = decimal_string(port as u64);
    let port_id = text2("port:", num.as_str());
    let port_label = text2("Port ", num.as_str());
    let mut sg = SystemGraph::new();
    sg.node(port_id.as_str(), "Port", port_label.as_str(), "");
    let f = match &obs.conn {
        Some(conn) => {
            let pid_id = text2("pid:", conn.pid.as_str());
            let pid_value = text2("PID ", conn.pid.as_str());
            sg.node(pid_id.as_str(), "Process", conn.name.as_str(), pid_value.as_str());
            sg.edge(port_id.as_str(), "owned by", pid_id.as_str());
            if let Some(p) = &obs.process {
                if !p.cmd_line.as_str().is_empty() {
                    let cmd_id = text2("cmd:", conn.pid.as_str());
                    let shown = cut_command(p.cmd_line.as_str());
                    sg.node(cmd_id.as_str(), "Command", "Command Line", shown.as_str());
                    sg.edge(pid_id.as_str(), "running as", cmd_id.as_str());
                }
                if !p.path.as_str().is_empty() {
                    let exe_name = facts.exe_name.as_str();
                    let lower = to_lowercase(exe_name);
                    let exe_id = text2("exe:", lower.as_str());
                    sg.node(exe_id.as_str(), "Binary", exe_name, p.path.as_str());
                    sg.edge(pid_id.as_str(), "executable", exe_id.as_str());
                    let mgr_id = manager_node_id(facts.install.manager.as_str());
                    sg.node(mgr_id.as_str(), "PackageManager", facts.install.manager.as_str(), "");
                    sg.edge(exe_id.as_str(), "installed by", mgr_id.as_str());
                    if let Some(ver) = &obs.version {
                        let runtime_id = text2("runtime:", lower.as_str());
                        let display = exe_display_name(exe_name);
                        sg.node(runtime_id.as_str(), "Runtime", display.as_str(), ver.as_str());
                        sg.edge(exe_id.as_str(), "resolves to", runtime_id.as_str());
                        let ghost g = sg.gview();
                        let ghost entries = project_entries(facts.project_names@, obs.projects@);
                        let count = if obs.projects.len() < 3 { obs.projects.len() } else { 3 };
                        let mut j: usize = 0;
                        while j < count
                            invariant
                                count == min3(obs.projects@.len() as int),
                                facts.project_names@.len() == count,
                                entries == project_entries(facts.project_names@, obs.projects@),
                                j <= count,
                                sg.wf(),
                                sg.gview() == with_projects(g, runtime_id@, entries.take(j as int)),
                            decreases count - j,
                        {
                            let name = opt_str(&facts.project_names[j]);
                            let proj_id = text2("project:", name);
                            sg.node(proj_id.as_str(), "Project", name, obs.projects[j].as_str());
                            sg.edge(runtime_id.as_str(), "used by", proj_id.as_str());
                            proof {
                                assert(entries.take(j + 1).drop_last() == entries.take(j as int));
                                assert(entries.take(j + 1).last() == entries[j as int]);
                            }
                            j += 1;
                        }
                        proof {
                            assert(entries.take(count as int) == entries);
                        }
                    }
                }
                if !conn.parent.as_str().is_empty() && conn.parent != conn.pid {
                    let parent_id = text2("parent:", conn.parent.as_str());
                    let parent_label = text3("Parent (", conn.parent.as_str(), ")");
                    sg.node(parent_id.as_str(), "Process", parent_label.as_str(), "");
                    sg.edge(pid_id.as_str(), "spawned by", parent_id.as_str());
                }
            }
            let cause = text5("Port ", num.as_str(), " is occupied by ", conn.name.as_str(), " (PID ");
            let cause = text3(cause.as_str(), conn.pid.as_str(), ").");
            sg.into_finding(Severity::Info, port_label, cause, None)
        },
        None => {
            let cause = text3("Port ", num.as_str(), " is free \u{2014} nothing is listening.");
            sg.into_finding(Severity::Info, port_label, cause, None)
        },
    };
    proof {
        if entry_names_distinct(project_entries(facts.project_names@, obs.projects@)) {
            lemma_port_graph_tree_like(port, *obs, *facts);
            lemma_tree_like_valid(f.graph, |id: Seq<char>| port_level(id));
        }
    }
    f
}

/// Builds the causal chain for a TCP port: port -> process -> command line,
/// executable -> package manager -> runtime -> projects, and parent process.
/// The executable's file name, installation and project names are taken from
/// the paths.
pub fn build_port_chain(port: u16, obs: &PortObservation) -> (f: Finding)
    requires
        obs.process matches Some(p) ==> cmd_cuttable(p.cmd_line@),
    ensures
        f.severity == Severity::Info,
        f.subject@ == "Port "@ + decimal(port as nat),
        f.cause@ == port_cause(port, obs.conn),
        f.suggestion is None,
        node_ids_distinct(f.graph),
        exists|facts: PortFacts|
            {
                &&& #[trigger] port_facts_fit(*obs, facts)
                &&& evidence_view(f.graph) == port_graph(port, *obs, facts)
                &&& entry_names_distinct(project_entries(facts.project_names@, obs.projects@)) ==> validation_result(
                    f.graph,
                    Ok(()),
                )
            },
        obs.projects@.len() <= 1 ==> validation_result(f.graph, Ok(())),
        obs.conn is None ==> evidence_view(f.graph) == with_node(
            empty_graph(),
            "port:"@ + decimal(port as nat),
            "Port"@,
            "Port "@ + decimal(port as nat),
            ""@,
        ),
{
    let count = if obs.projects.len() < 3 { obs.projects.len() } else { 3 };
    let mut project_names: Vec<Option<String>> = Vec::new();
    let mut j: usize = 0;
    while j < count
        invariant
            count <= obs.projects@.len(),
            j <= count,
            project_names@.len() == j,
            forall|k: int|
                0 <= k < j ==> file_name_fits(obs.projects@[k]@, #[trigger] opt_text(project_names@[k])),
        decreases count - j,
    {
        project_names.push(path_file_name(obs.projects[j].as_str()));
        j += 1;
    }
    let (exe_name, install) = match &obs.process {
        Some(p) => (process_exe_name(p), detect_installation_source(p.path.as_str())),
        None => (String::new(), InstallationInfo { manager: String::new(), detail: None }),
    };
    let facts = PortFacts { exe_name, install, project_names };
    let f = port_chain_from(port, obs, &facts);
    proof {
        assert(port_facts_fit(*obs, facts));
        if obs.projects@.len() <= 1 {
            assert(entry_names_distinct(project_entries(facts.project_names@, obs.projects@)));
        }
    }
    f
}

/// What the chain of a port takes from the process's paths: the executable's
/// name as `process_exe_name` gives it, its installation as
/// `detect_installation_source` gives it, and the file names of the first
/// three projects, each from its own path.
pub open spec fn port_facts_fit(obs: PortObservation, facts: PortFacts) -> bool {
    &&& facts.project_names@.len() == min3(obs.projects@.len() as int)
    &&& obs.process matches Some(p) ==> {
        &&& facts.install.manager@ == manager_of(p.path@)
        &&& p.path@.len() == 0 || p.path@ == ".."@ ==> facts.exe_name@ == p.name@
        &&& single_component(p.path@) && p.path@ != "."@ && p.path@ != ".."@ ==> facts.exe_name@ == p.path@
        &&& slash_path(p.path@) ==> facts.exe_name@ == name_or(slash_file_name(p.path@), p.name@)
    }
    &&& forall|j: int|
        0 <= j < facts.project_names@.len() ==> file_name_fits(
            obs.projects@[j]@,
            #[trigger] opt_text(facts.project_names@[j]),
        )
}

/// The file name when there is one, else `fallback`.
pub open spec fn name_or(name: Option<Seq<char>>, fallback: Seq<char>) -> Seq<char> {
    match name {
        Some(n) => n,
        None => fallback,
    }
}

} // verus!

verus! {

// ---------------------------------------------------------------------------
// The chains form valid graphs.
// ---------------------------------------------------------------------------

/// No two projects of the list have the same name.
pub open spec fn entry_names_distinct(entries: Seq<(Seq<char>, Seq<char>)>) -> bool {
    forall|a: int, b: int| 0 <= a < b < entries.len() ==> #[trigger] entries[a].0 != #[trigger] entries[b].0
}

/// The level of a node of a port's chain, by the kind its id names: port,
/// process, command line, binary, package manager, runtime, project, parent.
pub open spec fn port_level(id: Seq<char>) -> int {
    if id.len() < 2 {
        8
    } else if id[0] == 'p' && id[1] == 'o' {
        0
    } else if id[0] == 'p' && id[1] == 'i' {
        1
    } else if id[0] == 'c' {
        2
    } else if id[0] == 'e' {
        3
    } else if id[0] == 'm' {
        4
    } else if id[0] == 'r' {
        5
    } else if id[0] == 'p' && id[1] == 'r' {
        6
    } else if id[0] == 'p' && id[1] == 'a' {
        7
    } else {
        8
    }
}

proof fn lemma_prefixed(p: Seq<char>, x: Seq<char>)
    requires
        p.len() >= 2,
    ensures
        (p + x).len() >= 2,
        (p + x)[0] == p[0],
        (p + x)[1] == p[1],
{
}

proof fn lemma_prefix_injective(p: Seq<char>, a: Seq<char>, b: Seq<char>)
    requires
        p + a == p + b,
    ensures
        a == b,
{
    assert((p + a).skip(p.len() as int) =~= a);
    assert((p + b).skip(p.len() as int) =~= b);
}

/// Adding projects with distinct names, each above every node present and
/// used by a runtime of lower level, keeps a view tree-like.
proof fn lemma_projects_tree_like(
    g: GraphView,
    level: spec_fn(Seq<char>) -> int,
    rid: Seq<char>,
    entries: Seq<(Seq<char>, Seq<char>)>,
    l: int,
)
    requires
        view_tree_like(g, level),
        view_below(g, level, l),
        level(rid) < l,
        forall|x: Seq<char>| #[trigger] level("project:"@ + x) == l,
        entry_names_distinct(entries),
    ensures
        view_tree_like(with_projects(g, rid, entries), level),
        view_below(with_projects(g, rid, entries), level, l + 1),
        forall|i: int|
            0 <= i < with_projects(g, rid, entries).0.len() && level(#[trigger] with_projects(g, rid, entries).0[i].0)
                == l ==> exists|j: int| 0 <= j < entries.len() && with_projects(g, rid, entries).0[i].0 == "project:"@ + #[trigger] entries[j].0,
        with_projects(g, rid, entries).0.len() >= g.0.len(),
        forall|i: int| 0 <= i < g.0.len() ==> #[trigger] with_projects(g, rid, entries).0[i] == g.0[i],
        forall|i: int|
            g.0.len() <= i < with_projects(g, rid, entries).0.len() ==> level(
                #[trigger] with_projects(g, rid, entries).0[i].0,
            ) == l,
    decreases entries.len(),
{
    if entries.len() > 0 {
        let prev = entries.drop_last();
        assert(entry_names_distinct(prev)) by {
            assert forall|a: int, b: int| 0 <= a < b < prev.len() implies #[trigger] prev[a].0 != #[trigger] prev[b].0 by {
                assert(prev[a] == entries[a] && prev[b] == entries[b]);
            }
        }
        lemma_projects_tree_like(g, level, rid, prev, l);
        let g2 = with_projects(g, rid, prev);
        let (name, path) = entries.last();
        let pid = "project:"@ + name;
        assert(level(pid) == l);
        if view_has_id(g2.0, pid) {
            let i = choose|i: int| 0 <= i < g2.0.len() && #[trigger] g2.0[i].0 == pid;
            let j = choose|j: int| 0 <= j < prev.len() && g2.0[i].0 == "project:"@ + #[trigger] prev[j].0;
            lemma_prefix_injective("project:"@, prev[j].0, name);
            assert(prev[j] == entries[j]);
            assert(entries[j].0 != entries[entries.len() - 1].0);
        }
        lemma_new_child(g2, level, rid, "used by"@, pid, "Project"@, name, path);
        let g3 = with_projects(g, rid, entries);
        assert(g3 == with_edge(with_node(g2, pid, "Project"@, name, path), rid, "used by"@, pid));
        assert forall|i: int| 0 <= i < g3.0.len() implies level(#[trigger] g3.0[i].0) < l + 1 by {
            if i < g2.0.len() {
                assert(g3.0[i] == g2.0[i]);
            }
        }
        assert forall|i: int| 0 <= i < g.0.len() implies #[trigger] g3.0[i] == g.0[i] by {
            assert(g3.0[i] == g2.0[i]);
        }
        assert forall|i: int| g.0.len() <= i < g3.0.len() implies level(#[trigger] g3.0[i].0) == l by {
            if i < g2.0.len() {
                assert(g3.0[i] == g2.0[i]);
            }
        }
        assert forall|i: int| 0 <= i < g3.0.len() && level(#[trigger] g3.0[i].0) == l implies exists|j: int|
            0 <= j < entries.len() && g3.0[i].0 == "project:"@ + #[trigger] entries[j].0 by {
            if i < g2.0.len() {
                assert(g3.0[i] == g2.0[i]);
                let j = choose|j: int| 0 <= j < prev.len() && g2.0[i].0 == "project:"@ + #[trigger] prev[j].0;
                assert(prev[j] == entries[j]);
            } else {
                assert(g3.0[i].0 == "project:"@ + entries[entries.len() - 1].0);
            }
        }
    }
}

} // verus!

verus! {

proof fn lemma_below_mono(g: GraphView, level: spec_fn(Seq<char>) -> int, a: int, b: int)
    requires
        view_below(g, level, a),
        a <= b,
    ensures
        view_below(g, level, b),
{
}

proof fn lemma_port_prefixes(x: Seq<char>)
    ensures
        port_level("port:"@ + x) == 0,
        port_level("pid:"@ + x) == 1,
        port_level("cmd:"@ + x) == 2,
        port_level("exe:"@ + x) == 3,
        port_level("mgr:"@ + x) == 4,
        port_level("runtime:"@ + x) == 5,
        port_level("project:"@ + x) == 6,
        port_level("parent:"@ + x) == 7,
{
    reveal_strlit("port:");
    reveal_strlit("pid:");
    reveal_strlit("cmd:");
    reveal_strlit("exe:");
    reveal_strlit("mgr:");
    reveal_strlit("runtime:");
    reveal_strlit("project:");
    reveal_strlit("parent:");
    lemma_prefixed("port:"@, x);
    lemma_prefixed("pid:"@, x);
    lemma_prefixed("cmd:"@, x);
    lemma_prefixed("exe:"@, x);
    lemma_prefixed("mgr:"@, x);
    lemma_prefixed("runtime:"@, x);
    lemma_prefixed("project:"@, x);
    lemma_prefixed("parent:"@, x);
}

proof fn lemma_executable_part_tree_like(
    g: GraphView,
    pid_id: Seq<char>,
    path: Seq<char>,
    facts: PortFacts,
    version: Option<String>,
    projects: Seq<String>,
)
    requires
        view_tree_like(g, |id: Seq<char>| port_level(id)),
        view_below(g, |id: Seq<char>| port_level(id), 3),
        port_level(pid_id) == 1,
        entry_names_distinct(project_entries(facts.project_names@, projects)),
    ensures
        view_tree_like(executable_part(g, pid_id, path, facts, version, projects), |id: Seq<char>| port_level(id)),
        view_below(executable_part(g, pid_id, path, facts, version, projects), |id: Seq<char>| port_level(id), 7),
{
    let lv = |id: Seq<char>| port_level(id);
    let exe_name = facts.exe_name@;
    let exe_id = "exe:"@ + lowercase(exe_name);
    let mgr = facts.install.manager@;
    let mid = manager_id(mgr);
    lemma_port_prefixes(lowercase(exe_name));
    lemma_port_prefixes(underscored(lowercase(mgr)));
    lemma_fresh_child(g, lv, pid_id, "executable"@, exe_id, "Binary"@, exe_name, path);
    let g1 = with_edge(with_node(g, exe_id, "Binary"@, exe_name, path), pid_id, "executable"@, exe_id);
    lemma_fresh_child(g1, lv, exe_id, "installed by"@, mid, "PackageManager"@, mgr, ""@);
    let g2 = with_edge(with_node(g1, mid, "PackageManager"@, mgr, ""@), exe_id, "installed by"@, mid);
    match version {
        Some(ver) => {
            let rid = "runtime:"@ + lowercase(exe_name);
            lemma_below_mono(g2, lv, 5, 5);
            lemma_fresh_child(g2, lv, exe_id, "resolves to"@, rid, "Runtime"@, runtime_display(exe_name), ver@);
            let g3 = with_edge(
                with_node(g2, rid, "Runtime"@, runtime_display(exe_name), ver@),
                exe_id,
                "resolves to"@,
                rid,
            );
            assert forall|x: Seq<char>| #[trigger] lv("project:"@ + x) == 6 by {
                lemma_port_prefixes(x);
            }
            lemma_projects_tree_like(g3, lv, rid, project_entries(facts.project_names@, projects), 6);
        },
        None => {
            lemma_below_mono(g2, lv, 5, 7);
        },
    }
}

/// The graph of a port's chain passes validation when its projects have
/// distinct names.
proof fn lemma_port_graph_tree_like(port: u16, obs: PortObservation, facts: PortFacts)
    requires
        entry_names_distinct(project_entries(facts.project_names@, obs.projects@)),
    ensures
        view_tree_like(port_graph(port, obs, facts), |id: Seq<char>| port_level(id)),
{
    let lv = |id: Seq<char>| port_level(id);
    let d = decimal(port as nat);
    let port_id = "port:"@ + d;
    lemma_port_prefixes(d);
    let g1 = with_node(empty_graph(), port_id, "Port"@, "Port "@ + d, ""@);
    assert(!view_has_id(empty_graph().0, port_id));
    assert(g1.0 == seq![(port_id, "Port"@, "Port "@ + d, ""@)]);
    assert(g1.1.len() == 0);
    assert(view_below(g1, lv, 1)) by {
        assert forall|i: int| 0 <= i < g1.0.len() implies lv(#[trigger] g1.0[i].0) < 1 by {
            assert(g1.0[i].0 == port_id);
        }
    }
    match obs.conn {
        None => {},
        Some(conn) => {
            let pid_id = "pid:"@ + conn.pid@;
            lemma_port_prefixes(conn.pid@);
            lemma_fresh_child(g1, lv, port_id, "owned by"@, pid_id, "Process"@, conn.name@, "PID "@ + conn.pid@);
            let g2 = with_edge(
                with_node(g1, pid_id, "Process"@, conn.name@, "PID "@ + conn.pid@),
                port_id,
                "owned by"@,
                pid_id,
            );
            match obs.process {
                None => {},
                Some(p) => {
                    let cmd_id = "cmd:"@ + conn.pid@;
                    let g3 = if p.cmd_line@.len() > 0 {
                        with_edge(
                            with_node(g2, cmd_id, "Command"@, "Command Line"@, cmd_display(p.cmd_line@)),
                            pid_id,
                            "running as"@,
                            cmd_id,
                        )
                    } else {
                        g2
                    };
                    if p.cmd_line@.len() > 0 {
                        lemma_fresh_child(g2, lv, pid_id, "running as"@, cmd_id, "Command"@, "Command Line"@, cmd_display(p.cmd_line@));
                    } else {
                        lemma_below_mono(g2, lv, 2, 3);
                    }
                    let g4 = if p.path@.len() > 0 {
                        executable_part(g3, pid_id, p.path@, facts, obs.version, obs.projects@)
                    } else {
                        g3
                    };
                    if p.path@.len() > 0 {
                        lemma_executable_part_tree_like(g3, pid_id, p.path@, facts, obs.version, obs.projects@);
                    } else {
                        lemma_below_mono(g3, lv, 3, 7);
                    }
                    let parent_id = "parent:"@ + conn.parent@;
                    if conn.parent@.len() > 0 && conn.parent@ != conn.pid@ {
                        lemma_port_prefixes(conn.parent@);
                        lemma_fresh_child(g4, lv, pid_id, "spawned by"@, parent_id, "Process"@, "Parent ("@ + conn.parent@ + ")"@, ""@);
                    }
                },
            }
        },
    }
}

} // verus!

verus! {

/// The level of a node of a command's chain, by the kind its id names: the
/// PATH, a binary, a package manager, a runtime, a project.
pub open spec fn exec_level(id: Seq<char>) -> int {
    if id.len() < 2 {
        5
    } else if id[0] == 'p' && id[1] == 'a' {
        0
    } else if id[0] == 'e' {
        1
    } else if id[0] == 'm' {
        2
    } else if id[0] == 'r' {
        3
    } else if id[0] == 'p' && id[1] == 'r' {
        4
    } else {
        5
    }
}

proof fn lemma_exec_prefixes(x: Seq<char>)
    ensures
        exec_level("path"@) == 0,
        exec_level("exe:"@ + x) == 1,
        exec_level("mgr:"@ + x) == 2,
        exec_level("runtime:"@ + x) == 3,
        exec_level("project:"@ + x) == 4,
{
    reveal_strlit("path");
    reveal_strlit("exe:");
    reveal_strlit("mgr:");
    reveal_strlit("runtime:");
    reveal_strlit("project:");
    lemma_prefixed("exe:"@, x);
    lemma_prefixed("mgr:"@, x);
    lemma_prefixed("runtime:"@, x);
    lemma_prefixed("project:"@, x);
}

pub open spec fn alt_id(q: Seq<char>, m: int) -> Seq<char> {
    "exe:"@ + q + "_alt"@ + decimal(m as nat)
}

/// The binaries of a chain so far: the command, its sibling, and the
/// shadowed matches up to `n`.
pub open spec fn known_binary(id: Seq<char>, q: Seq<char>, sib: Option<Seq<char>>, n: int) -> bool {
    ||| id == "exe:"@ + q
    ||| (sib matches Some(s) && id == "exe:"@ + s)
    ||| exists|m: int| 1 <= m <= n && id == #[trigger] alt_id(q, m)
}

proof fn lemma_alt_id_fresh(q: Seq<char>, sib: Option<Seq<char>>, n: int, id: Seq<char>)
    requires
        n >= 1,
        sib matches Some(s) ==> s.len() == 3,
        known_binary(id, q, sib, n - 1),
    ensures
        id != alt_id(q, n),
{
    reveal_strlit("exe:");
    reveal_strlit("_alt");
    let d = decimal(n as nat);
    assert(d.len() > 0);
    let p = "exe:"@ + q + "_alt"@;
    assert(alt_id(q, n) == p + d);
    if id == alt_id(q, n) {
        if id == "exe:"@ + q {
            assert(id.len() > ("exe:"@ + q).len());
        } else if sib matches Some(s) && id == "exe:"@ + s {
            assert(id.len() == 7);
        } else {
            let m = choose|m: int| 1 <= m <= n - 1 && id == #[trigger] alt_id(q, m);
            lemma_prefix_injective(p, decimal(m as nat), d);
            crate::text::lemma_decimal_injective(m as nat, n as nat);
        }
    }
}

proof fn lemma_alts_tree_like(
    g: GraphView,
    q: Seq<char>,
    results: Seq<PathSearchResult>,
    names: Seq<Option<String>>,
    managers: Seq<String>,
    n: int,
    sib: Option<Seq<char>>,
)
    requires
        view_tree_like(g, |id: Seq<char>| exec_level(id)),
        sib matches Some(s) ==> s.len() == 3,
        forall|i: int|
            0 <= i < g.0.len() && exec_level(#[trigger] g.0[i].0) == 1 ==> known_binary(g.0[i].0, q, sib, 0),
    ensures
        view_tree_like(with_alts(g, q, results, names, managers, n), |id: Seq<char>| exec_level(id)),
        forall|i: int|
            0 <= i < with_alts(g, q, results, names, managers, n).0.len() && exec_level(
                #[trigger] with_alts(g, q, results, names, managers, n).0[i].0,
            ) == 1 ==> known_binary(with_alts(g, q, results, names, managers, n).0[i].0, q, sib, n),
    decreases n,
{
    let lv = |id: Seq<char>| exec_level(id);
    if n > 0 {
        lemma_alts_tree_like(g, q, results, names, managers, n - 1, sib);
        let g2 = with_alts(g, q, results, names, managers, n - 1);
        let aid = "exe:"@ + q + "_alt"@ + decimal(n as nat);
        assert(aid == "exe:"@ + (q + "_alt"@ + decimal(n as nat)));
        lemma_exec_prefixes(q + "_alt"@ + decimal(n as nat));
        lemma_exec_prefixes(seq![]);
        if view_has_id(g2.0, aid) {
            let i = choose|i: int| 0 <= i < g2.0.len() && #[trigger] g2.0[i].0 == aid;
            assert(lv(g2.0[i].0) == 1);
            lemma_alt_id_fresh(q, sib, n, g2.0[i].0);
        }
        let label = or_empty(names[n - 1]) + ".exe [shadowed, entry #"@ + decimal((n + 1) as nat) + "]"@;
        let relation = "also found (entry #"@ + decimal((n + 1) as nat) + ", via "@ + managers[n - 1]@ + ")"@;
        lemma_new_child(g2, lv, "path"@, relation, aid, "Binary"@, label, results[n].resolved_path@);
        let g3 = with_alts(g, q, results, names, managers, n);
        assert(g3 == with_edge(with_node(g2, aid, "Binary"@, label, results[n].resolved_path@), "path"@, relation, aid));
        assert forall|i: int| 0 <= i < g3.0.len() && exec_level(#[trigger] g3.0[i].0) == 1 implies known_binary(
            g3.0[i].0,
            q,
            sib,
            n,
        ) by {
            if i < g2.0.len() {
                assert(g3.0[i] == g2.0[i]);
                assert(known_binary(g2.0[i].0, q, sib, n - 1));
                if exists|m: int| 1 <= m <= n - 1 && g2.0[i].0 == #[trigger] alt_id(q, m) {
                    let m = choose|m: int| 1 <= m <= n - 1 && g2.0[i].0 == #[trigger] alt_id(q, m);
                    assert(1 <= m <= n && g3.0[i].0 == alt_id(q, m));
                }
            } else {
                assert(g3.0[i].0 == alt_id(q, n));
            }
        }
    } else {
        assert forall|i: int| 0 <= i < g.0.len() && exec_level(#[trigger] g.0[i].0) == 1 implies known_binary(
            g.0[i].0,
            q,
            sib,
            n,
        ) by {
            assert(known_binary(g.0[i].0, q, sib, 0));
        }
    }
}

} // verus!

verus! {

/// The graph of a found command's chain has a tree-like view when its
/// projects have distinct names.
proof fn lemma_executable_graph_tree_like(
    q: Seq<char>,
    results: Seq<PathSearchResult>,
    version: Option<String>,
    projects: Seq<String>,
    sibling: Option<SiblingObservation>,
    facts: ChainFacts,
)
    requires
        entry_names_distinct(project_entries(facts.project_names@, projects)),
    ensures
        view_tree_like(executable_graph(q, results, version, projects, sibling, facts), |id: Seq<char>| exec_level(id)),
{
    let lv = |id: Seq<char>| exec_level(id);
    let exe_name = match facts.active_name {
        Some(n) => n@,
        None => q + ".exe"@,
    };
    let exe_id = "exe:"@ + q;
    let mgr = facts.active_install.manager@;
    let mid = manager_id(mgr);
    lemma_exec_prefixes(q);
    lemma_exec_prefixes(underscored(lowercase(mgr)));
    let g1 = with_node(empty_graph(), "path"@, "Environment"@, "System PATH"@, ""@);
    assert(!view_has_id(empty_graph().0, "path"@));
    assert(g1.0 == seq![("path"@, "Environment"@, "System PATH"@, ""@)]);
    assert(view_below(g1, lv, 1)) by {
        assert forall|i: int| 0 <= i < g1.0.len() implies lv(#[trigger] g1.0[i].0) < 1 by {
            assert(g1.0[i].0 == "path"@);
        }
    }
    lemma_fresh_child(g1, lv, "path"@, "resolves"@, exe_id, "Binary"@, exe_name, results[0].resolved_path@);
    let g2 = with_edge(with_node(g1, exe_id, "Binary"@, exe_name, results[0].resolved_path@), "path"@, "resolves"@, exe_id);
    lemma_fresh_child(g2, lv, exe_id, "installed by"@, mid, "PackageManager"@, mgr, or_empty(facts.active_install.detail));
    let g3 = with_edge(
        with_node(g2, mid, "PackageManager"@, mgr, or_empty(facts.active_install.detail)),
        exe_id,
        "installed by"@,
        mid,
    );
    assert forall|i: int| 0 <= i < g3.0.len() && lv(#[trigger] g3.0[i].0) == 1 implies g3.0[i].0 == exe_id by {
        if i == 0 {
            assert(g3.0[i].0 == "path"@);
        } else if i == 2 {
            assert(g3.0[i].0 == mid);
        }
    }
    let g4 = match version {
        Some(ver) => {
            let rid = "runtime:"@ + q;
            let g = with_edge(with_node(g3, rid, "Runtime"@, runtime_display(exe_name), ver@), exe_id, "resolves to"@, rid);
            with_projects(g, rid, project_entries(facts.project_names@, projects))
        },
        None => g3,
    };
    match version {
        Some(ver) => {
            let rid = "runtime:"@ + q;
            lemma_fresh_child(g3, lv, exe_id, "resolves to"@, rid, "Runtime"@, runtime_display(exe_name), ver@);
            let g = with_edge(with_node(g3, rid, "Runtime"@, runtime_display(exe_name), ver@), exe_id, "resolves to"@, rid);
            assert forall|x: Seq<char>| #[trigger] lv("project:"@ + x) == 4 by {
                lemma_exec_prefixes(x);
            }
            lemma_projects_tree_like(g, lv, rid, project_entries(facts.project_names@, projects), 4);
            assert forall|i: int| 0 <= i < g4.0.len() && lv(#[trigger] g4.0[i].0) == 1 implies g4.0[i].0 == exe_id by {
                if i < g3.0.len() {
                    assert(g4.0[i] == g.0[i]);
                    assert(g.0[i] == g3.0[i]);
                } else if i == g3.0.len() {
                    assert(g4.0[i] == g.0[i]);
                }
            }
        },
        None => {},
    }
    let sib_name: Option<Seq<char>> = match conflict_sibling(q, sibling) {
        Some((sib, _)) => Some(sib),
        None => None,
    };
    reveal_strlit("npm");
    reveal_strlit("pip");
    let g5 = match conflict_sibling(q, sibling) {
        Some((sib, path)) => with_edge(
            with_node(g4, "exe:"@ + sib, "Binary"@, sib + ".exe"@, path),
            "path"@,
            sib + " resolves separately"@,
            "exe:"@ + sib,
        ),
        None => g4,
    };
    match conflict_sibling(q, sibling) {
        Some((sib, path)) => {
            reveal_strlit("node");
            reveal_strlit("python");
            reveal_strlit("python3");
            lemma_exec_prefixes(sib);
            if view_has_id(g4.0, "exe:"@ + sib) {
                let i = choose|i: int| 0 <= i < g4.0.len() && #[trigger] g4.0[i].0 == "exe:"@ + sib;
                assert(lv(g4.0[i].0) == 1);
                lemma_prefix_injective("exe:"@, sib, q);
                assert(sib.len() != q.len());
            }
            lemma_new_child(g4, lv, "path"@, sib + " resolves separately"@, "exe:"@ + sib, "Binary"@, sib + ".exe"@, path);
            assert forall|i: int| 0 <= i < g5.0.len() && exec_level(#[trigger] g5.0[i].0) == 1 implies known_binary(
                g5.0[i].0,
                q,
                sib_name,
                0,
            ) by {
                if i < g4.0.len() {
                    assert(g5.0[i] == g4.0[i]);
                }
            }
        },
        None => {
            assert forall|i: int| 0 <= i < g5.0.len() && exec_level(#[trigger] g5.0[i].0) == 1 implies known_binary(
                g5.0[i].0,
                q,
                sib_name,
                0,
            ) by {
                assert(g5.0[i].0 == exe_id);
            }
        },
    }
    lemma_alts_tree_like(g5, q, results, facts.alt_names@, facts.alt_managers@, results.len() - 1, sib_name);
}

} // verus!

verus! {

proof fn lemma_missing_graph_tree_like(q: Seq<char>)
    ensures
        view_tree_like(missing_executable_graph(q), |id: Seq<char>| exec_level(id)),
{
    let lv = |id: Seq<char>| exec_level(id);
    lemma_exec_prefixes(q);
    let g1 = with_node(empty_graph(), "path"@, "Environment"@, "System PATH"@, ""@);
    assert(!view_has_id(empty_graph().0, "path"@));
    assert(g1.0 == seq![("path"@, "Environment"@, "System PATH"@, ""@)]);
    assert(view_below(g1, lv, 1)) by {
        assert forall|i: int| 0 <= i < g1.0.len() implies lv(#[trigger] g1.0[i].0) < 1 by {
            assert(g1.0[i].0 == "path"@);
        }
    }
    lemma_fresh_child(g1, lv, "path"@, "searched for"@, "exe:"@ + q, "Binary"@, q + ".exe"@, "Not Found"@);
}

} // verus!

verus! {

// ---------------------------------------------------------------------------
// The kinds of node a command's chain holds.
// ---------------------------------------------------------------------------

/// No node of the view has the type `t`.
pub open spec fn view_lacks_type(g: GraphView, t: Seq<char>) -> bool {
    forall|i: int| 0 <= i < g.0.len() ==> #[trigger] g.0[i].1 != t
}

proof fn lemma_with_node_lacks(g: GraphView, id: Seq<char>, ty: Seq<char>, l: Seq<char>, v: Seq<char>, t: Seq<char>)
    requires
        view_lacks_type(g, t),
        ty != t,
    ensures
        view_lacks_type(with_node(g, id, ty, l, v), t),
{
    let g2 = with_node(g, id, ty, l, v);
    assert forall|i: int| 0 <= i < g2.0.len() implies #[trigger] g2.0[i].1 != t by {
        if i < g.0.len() {
            assert(g2.0[i] == g.0[i]);
        }
    }
}

proof fn lemma_projects_lack(g: GraphView, rid: Seq<char>, entries: Seq<(Seq<char>, Seq<char>)>, t: Seq<char>)
    requires
        view_lacks_type(g, t),
        "Project"@ != t,
    ensures
        view_lacks_type(with_projects(g, rid, entries), t),
    decreases entries.len(),
{
    if entries.len() > 0 {
        lemma_projects_lack(g, rid, entries.drop_last(), t);
        let g2 = with_projects(g, rid, entries.drop_last());
        let (name, path) = entries.last();
        lemma_with_node_lacks(g2, "project:"@ + name, "Project"@, name, path, t);
    }
}

proof fn lemma_alts_lack(
    g: GraphView,
    q: Seq<char>,
    results: Seq<PathSearchResult>,
    names: Seq<Option<String>>,
    managers: Seq<String>,
    n: int,
    t: Seq<char>,
)
    requires
        view_lacks_type(g, t),
        "Binary"@ != t,
    ensures
        view_lacks_type(with_alts(g, q, results, names, managers, n), t),
    decreases n,
{
    if n > 0 {
        lemma_alts_lack(g, q, results, names, managers, n - 1, t);
        let g2 = with_alts(g, q, results, names, managers, n - 1);
        let aid = "exe:"@ + q + "_alt"@ + decimal(n as nat);
        let label = or_empty(names[n - 1]) + ".exe [shadowed, entry #"@ + decimal((n + 1) as nat) + "]"@;
        lemma_with_node_lacks(g2, aid, "Binary"@, label, results[n].resolved_path@, t);
    }
}

proof fn lemma_chain_types_not_constraint()
    ensures
        "Environment"@ != "Constraint"@,
        "Binary"@ != "Constraint"@,
        "PackageManager"@ != "Constraint"@,
        "Runtime"@ != "Constraint"@,
        "Project"@ != "Constraint"@,
{
    reveal_strlit("Environment");
    reveal_strlit("Binary");
    reveal_strlit("PackageManager");
    reveal_strlit("Runtime");
    reveal_strlit("Project");
    reveal_strlit("Constraint");
    assert("Environment"@.len() != "Constraint"@.len());
    assert("Binary"@.len() != "Constraint"@.len());
    assert("PackageManager"@.len() != "Constraint"@.len());
    assert("Runtime"@.len() != "Constraint"@.len());
    assert("Project"@.len() != "Constraint"@.len());
}

/// The chain of a command holds no "Constraint" node, whether the command
/// was found or not.
pub proof fn lemma_executable_graph_lacks_constraint(
    q: Seq<char>,
    results: Seq<PathSearchResult>,
    version: Option<String>,
    projects: Seq<String>,
    sibling: Option<SiblingObservation>,
    facts: ChainFacts,
)
    ensures
        view_lacks_type(executable_graph(q, results, version, projects, sibling, facts), "Constraint"@),
        view_lacks_type(missing_executable_graph(q), "Constraint"@),
{
    let t = "Constraint"@;
    lemma_chain_types_not_constraint();
    let exe_name = match facts.active_name {
        Some(n) => n@,
        None => q + ".exe"@,
    };
    let exe_id = "exe:"@ + q;
    let mgr = facts.active_install.manager@;
    let mid = manager_id(mgr);
    let g0 = empty_graph();
    assert(view_lacks_type(g0, t));
    lemma_with_node_lacks(g0, "path"@, "Environment"@, "System PATH"@, ""@, t);
    let g1 = with_node(g0, "path"@, "Environment"@, "System PATH"@, ""@);
    lemma_with_node_lacks(g1, exe_id, "Binary"@, q + ".exe"@, "Not Found"@, t);
    lemma_with_node_lacks(g1, exe_id, "Binary"@, exe_name, results[0].resolved_path@, t);
    let g2 = with_edge(with_node(g1, exe_id, "Binary"@, exe_name, results[0].resolved_path@), "path"@, "resolves"@, exe_id);
    lemma_with_node_lacks(g2, mid, "PackageManager"@, mgr, or_empty(facts.active_install.detail), t);
    let g3 = with_edge(with_node(g2, mid, "PackageManager"@, mgr, or_empty(facts.active_install.detail)), exe_id, "installed by"@, mid);
    let g4 = match version {
        Some(ver) => {
            let rid = "runtime:"@ + q;
            lemma_with_node_lacks(g3, rid, "Runtime"@, runtime_display(exe_name), ver@, t);
            let g = with_edge(with_node(g3, rid, "Runtime"@, runtime_display(exe_name), ver@), exe_id, "resolves to"@, rid);
            lemma_projects_lack(g, rid, project_entries(facts.project_names@, projects), t);
            with_projects(g, rid, project_entries(facts.project_names@, projects))
        },
        None => g3,
    };
    let g5 = match conflict_sibling(q, sibling) {
        Some((sib, path)) => {
            lemma_with_node_lacks(g4, "exe:"@ + sib, "Binary"@, sib + ".exe"@, path, t);
            with_edge(with_node(g4, "exe:"@ + sib, "Binary"@, sib + ".exe"@, path), "path"@, sib + " resolves separately"@, "exe:"@ + sib)
        },
        None => g4,
    };
    lemma_alts_lack(g5, q, results, facts.alt_names@, facts.alt_managers@, results.len() - 1, t);
}

} // verus!

verus! {

/// A command whose sibling tool (npm for node, pip for python) resolves to
/// another installation gets a Warning, whatever the number of its PATH
/// matches, together with the advice naming both tools; and a finding for
/// a command is Info only when it carries no advice.
pub proof fn lemma_sibling_conflict_is_warning(q: Seq<char>, n: nat, sibling: Option<SiblingObservation>)
    ensures
        (n > 0 && sibling_name(q) is Some && (sibling matches Some(s) && !s.shares_root)) ==> {
            &&& executable_severity(q, n, sibling) == Severity::Warning
            &&& executable_suggestion(q, n, sibling) == Some(
                q + " and "@ + sibling_name(q).unwrap() + " resolve to different installations \u{2014} possible version mismatch."@,
            )
        },
        executable_severity(q, n, sibling) == Severity::Info ==> executable_suggestion(q, n, sibling) is None,
        n > 1 ==> executable_severity(q, n, sibling) == Severity::Warning,
        n == 0 ==> executable_severity(q, n, sibling) == Severity::Error,
{
}

/// node's sibling tool is npm, python's and python3's is pip, and no other
/// command has one.
pub proof fn lemma_sibling_tools()
    ensures
        sibling_name("node"@) == Some("npm"@),
        sibling_name("python"@) == Some("pip"@),
        sibling_name("python3"@) == Some("pip"@),
{
    reveal_strlit("node");
    reveal_strlit("python");
    reveal_strlit("python3");
    assert("python"@.len() != "node"@.len());
    assert("python3"@.len() != "node"@.len());
}

} // verus!
