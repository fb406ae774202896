use vstd::prelude::*;
use vstd::string::StringExecFns;
use crate::graph::chains::{build_executable_chain, executable_cause, executable_severity, ExecutableObservation};
use crate::inspectors::executable::installation::manager_of;
use crate::inspectors::finding::{EvidenceNode, Finding, Severity};
use crate::text::{
    ascii_lower, chars_of, find_char, is_ascii_text, index_of, lemma_index_of, lowercase, split_words, starts_with, str_starts_with, str_trim_prefix,
    string_of_range, strings_view, to_lowercase, trim_prefix, words,
};

verus! {

/// How much a fix changes the system.
#[derive(Clone, Copy, Debug, PartialEq, Eq, Structural)]
pub enum FixRisk {
    /// No state changes: only switches the active version, fully reversible.
    Low,
    /// Installs a new version or reconfigures something; easily undone.
    Medium,
    /// Modifies system state or requires elevated privileges.
    High,
}

/// One way to fix a problem.
#[derive(Clone, Debug)]
pub struct FixOption {
    pub label: String,
    /// The shell command that would be run.
    pub command: String,
    pub risk: FixRisk,
    pub reversible: bool,
}

/// A remediation plan for one diagnosed problem.
#[derive(Clone, Debug)]
pub struct FixPlan {
    pub subject: String,
    pub problem: String,
    pub options: Vec<FixOption>,
    /// The command presented to run the plan, such as `why fix node`.
    pub fix_command: String,
}

/// A fix option as text: label, command, risk, reversible.
pub type OptionView = (Seq<char>, Seq<char>, FixRisk, bool);

/// A plan as text: subject, problem, options, fix command.
pub type PlanView = (Seq<char>, Seq<char>, Seq<OptionView>, Seq<char>);

pub open spec fn option_view(o: FixOption) -> OptionView {
    (o.label@, o.command@, o.risk, o.reversible)
}

pub open spec fn plan_view(p: FixPlan) -> PlanView {
    (p.subject@, p.problem@, p.options@.map_values(|o: FixOption| option_view(o)), p.fix_command@)
}

pub open spec fn opt_plan_view(p: Option<FixPlan>) -> Option<PlanView> {
    match p {
        Some(p) => Some(plan_view(p)),
        None => None,
    }
}

/// What must be looked up on the system before fixes can be suggested.
#[derive(Clone, Debug)]
pub enum FixLookup {
    /// The finding for `node` and the node version managers on PATH.
    NodeEnvironment,
    /// Whether this binary is on PATH.
    Binary(String),
    /// Nothing.
    Nothing,
}

/// What was found on the system for a subject (see `fix_lookup`).
#[derive(Clone, Debug)]
pub struct FixObservation {
    pub binary_found: bool,
    pub node_finding: Option<Finding>,
    pub has_fnm: bool,
    pub has_scoop: bool,
    pub has_nvm: bool,
}

pub open spec fn is_node(l: Seq<char>) -> bool {
    l == "node"@ || l == "nodejs"@
}

pub open spec fn is_rust(l: Seq<char>) -> bool {
    l == "rust"@ || l == "cargo"@
}

pub open spec fn is_postgres(l: Seq<char>) -> bool {
    l == "postgresql"@ || l == "postgres"@
}

/// The binary whose presence decides the fixes for a lower-cased subject.
pub open spec fn lookup_binary(l: Seq<char>, subject: Seq<char>) -> Option<Seq<char>> {
    if is_node(l) || is_postgres(l) || l == "redis"@ {
        None
    } else if l == "python"@ {
        Some("python"@)
    } else if is_rust(l) {
        Some("cargo"@)
    } else if l == "go"@ {
        Some("go"@)
    } else if l == "docker"@ {
        Some("docker"@)
    } else {
        Some(subject)
    }
}

/// What must be looked up for a subject: the node environment for node, a
/// binary for runtimes and unknown subjects, nothing for the databases.
pub fn fix_lookup(subject: &str) -> (r: FixLookup)
    ensures
        is_node(lowercase(subject@)) <==> r is NodeEnvironment,
        r matches FixLookup::Binary(b) ==> lookup_binary(lowercase(subject@), subject@) == Some(b@),
        r is Nothing ==> !is_node(lowercase(subject@)) && lookup_binary(lowercase(subject@), subject@) is None,
        !is_node(lowercase(subject@)) && lookup_binary(lowercase(subject@), subject@) is Some ==> r is Binary,
{
    let l = to_lowercase(subject);
    if l == String::from_str("node") || l == String::from_str("nodejs") {
        FixLookup::NodeEnvironment
    } else if l == String::from_str("postgresql") || l == String::from_str("postgres") || l
        == String::from_str("redis") {
        FixLookup::Nothing
    } else if l == String::from_str("python") {
        FixLookup::Binary(String::from_str("python"))
    } else if l == String::from_str("rust") || l == String::from_str("cargo") {
        FixLookup::Binary(String::from_str("cargo"))
    } else if l == String::from_str("go") {
        FixLookup::Binary(String::from_str("go"))
    } else if l == String::from_str("docker") {
        FixLookup::Binary(String::from_str("docker"))
    } else {
        FixLookup::Binary(String::from_str(subject))
    }
}

/// The manager an install command goes through.
pub open spec fn command_manager(cmd: Seq<char>) -> Seq<char> {
    if starts_with(cmd, "scoop"@) {
        "Scoop"@
    } else if starts_with(cmd, "winget"@) {
        "WinGet"@
    } else {
        "system"@
    }
}

/// The install options for a runtime, one per install command.
pub open spec fn install_options(display: Seq<char>, cmds: Seq<(Seq<char>, FixRisk)>) -> Seq<OptionView> {
    Seq::new(
        cmds.len(),
        |i: int| ("Install "@ + display + " via "@ + command_manager(cmds[i].0), cmds[i].0, cmds[i].1, true),
    )
}

/// The plan for a runtime: none when its binary is on PATH, else one option
/// per install command.
pub open spec fn runtime_plan(binary: Seq<char>, display: Seq<char>, cmds: Seq<(Seq<char>, FixRisk)>, found: bool) -> Option<PlanView> {
    if found {
        None
    } else {
        Some((display, "'"@ + binary + "' was not found on PATH."@, install_options(display, cmds), "why fix "@ + binary))
    }
}

/// The position of the first node, among the first `upto`, of type "Constraint".
pub open spec fn first_constraint(nodes: Seq<EvidenceNode>, upto: int) -> Option<int>
    decreases upto,
{
    if upto <= 0 {
        None
    } else {
        match first_constraint(nodes, upto - 1) {
            Some(i) => Some(i),
            None => if nodes[upto - 1].node_type@ == "Constraint"@ {
                Some(upto - 1)
            } else {
                None
            },
        }
    }
}

/// The text before the first '.', or all of it.
pub open spec fn before_dot(s: Seq<char>) -> Seq<char>
    decreases s.len(),
{
    if s.len() == 0 {
        s
    } else if s[0] == '.' {
        seq![]
    } else {
        seq![s[0]] + before_dot(s.drop_first())
    }
}

/// The major Node version a finding's constraint asks for; 22 without one.
pub open spec fn required_node_version(nodes: Seq<EvidenceNode>) -> Seq<char> {
    match first_constraint(nodes, nodes.len() as int) {
        Some(i) => before_dot(trim_prefix(trim_prefix(nodes[i].value@, ">="@), "^"@)),
        None => "22"@,
    }
}

/// The options offered for Node: switch or install with each version manager
/// on PATH, and always the installer from nodejs.org.
pub open spec fn node_options(v: Seq<char>, fnm: bool, nvm: bool, scoop: bool) -> Seq<OptionView> {
    let with_fnm: Seq<OptionView> = if fnm {
        seq![
            ("Switch to Node "@ + v + " using fnm (recommended)"@, "fnm use "@ + v, FixRisk::Low, true),
            ("Install Node "@ + v + " via fnm"@, "fnm install "@ + v, FixRisk::Medium, true),
        ]
    } else {
        seq![]
    };
    let with_nvm: Seq<OptionView> = if nvm {
        seq![
            ("Switch to Node "@ + v + " using nvm"@, "nvm use "@ + v, FixRisk::Low, true),
            ("Install Node "@ + v + " via nvm"@, "nvm install "@ + v, FixRisk::Medium, true),
        ]
    } else {
        seq![]
    };
    let with_scoop: Seq<OptionView> = if scoop {
        seq![("Install Node "@ + v + " via Scoop"@, "scoop install nodejs@"@ + v, FixRisk::Medium, true)]
    } else {
        seq![]
    };
    with_fnm + with_nvm + with_scoop + seq![
        (
            "Download Node "@ + v + " installer from nodejs.org"@,
            "start https://nodejs.org/download/release/latest-v"@ + v + ".x/"@,
            FixRisk::Medium,
            true,
        ),
    ]
}

/// The plan for Node: none when its finding shows no problem.
pub open spec fn node_plan(finding: Finding, fnm: bool, nvm: bool, scoop: bool) -> Option<PlanView> {
    if finding.severity == Severity::Info {
        None
    } else {
        let v = required_node_version(finding.graph.nodes@);
        Some(("Node.js"@, finding.cause@, node_options(v, fnm, nvm, scoop), "why fix node"@))
    }
}

/// The plan for a database service that should be running.
pub open spec fn service_plan(name: Seq<char>, service: Seq<char>, compose_service: Seq<char>) -> PlanView {
    (
        name,
        name + " is required but is not running."@,
        seq![
            ("Start via Docker Compose"@, "docker compose up -d "@ + compose_service, FixRisk::Low, true),
            ("Start the "@ + name + " Windows service"@, "sc start "@ + service, FixRisk::Medium, true),
        ],
        "why fix "@ + service,
    )
}

/// The plan for a subject not known otherwise: install it, unless it is on PATH.
pub open spec fn generic_plan(subject: Seq<char>, found: bool) -> Option<PlanView> {
    if found {
        None
    } else {
        Some(
            (
                subject,
                "'"@ + subject + "' was not found on PATH."@,
                seq![
                    ("Install via Scoop"@, "scoop install "@ + subject, FixRisk::Medium, true),
                    ("Install via WinGet"@, "winget install "@ + subject, FixRisk::Medium, true),
                ],
                "why fix "@ + subject,
            ),
        )
    }
}

/// The plan suggested for a subject, given what was found on the system.
pub open spec fn fix_plan_for(subject: Seq<char>, seen: FixObservation) -> Option<PlanView> {
    fix_plan_with(lowercase(subject), subject, seen)
}

/// The plan suggested for a subject whose lower-cased form is `l`.
pub open spec fn fix_plan_with(l: Seq<char>, subject: Seq<char>, seen: FixObservation) -> Option<PlanView> {
    if is_node(l) {
        match seen.node_finding {
            Some(f) => node_plan(f, seen.has_fnm, seen.has_nvm, seen.has_scoop),
            None => None,
        }
    } else if l == "python"@ {
        runtime_plan(
            "python"@,
            "Python"@,
            seq![("scoop install python"@, FixRisk::Medium), ("winget install Python.Python.3"@, FixRisk::Medium)],
            seen.binary_found,
        )
    } else if is_rust(l) {
        runtime_plan(
            "cargo"@,
            "Rust"@,
            seq![("winget install Rustlang.Rustup"@, FixRisk::Medium), ("scoop install rustup"@, FixRisk::Medium)],
            seen.binary_found,
        )
    } else if l == "go"@ {
        runtime_plan(
            "go"@,
            "Go"@,
            seq![("scoop install go"@, FixRisk::Medium), ("winget install GoLang.Go"@, FixRisk::Medium)],
            seen.binary_found,
        )
    } else if l == "docker"@ {
        runtime_plan("docker"@, "Docker"@, seq![("winget install Docker.DockerDesktop"@, FixRisk::Medium)], seen.binary_found)
    } else if is_postgres(l) {
        Some(service_plan("PostgreSQL"@, "postgresql"@, "db"@))
    } else if l == "redis"@ {
        Some(service_plan("Redis"@, "redis"@, "redis"@))
    } else {
        generic_plan(subject, seen.binary_found)
    }
}


/// A plan that can be offered as it stands: it has at least one option,
/// every option can be undone and none is of high risk, and its fix command
/// is a `why fix` command.
pub open spec fn plan_is_safe(p: PlanView) -> bool {
    &&& p.2.len() > 0
    &&& options_safe(p.2)
    &&& starts_with(p.3, "why fix "@)
}

proof fn lemma_why_fix_prefix(rest: Seq<char>)
    ensures
        starts_with("why fix "@ + rest, "why fix "@),
{
    let w = "why fix "@;
    assert(("why fix "@ + rest).take(w.len() as int) =~= w);
}

/// Every option can be undone and none is of high risk.
pub open spec fn options_safe(opts: Seq<OptionView>) -> bool {
    forall|i: int| 0 <= i < opts.len() ==> (#[trigger] opts[i]).3 && opts[i].2 != FixRisk::High
}

proof fn lemma_options_safe_concat(a: Seq<OptionView>, b: Seq<OptionView>)
    requires
        options_safe(a),
        options_safe(b),
    ensures
        options_safe(a + b),
{
    assert forall|i: int| 0 <= i < (a + b).len() implies (#[trigger] (a + b)[i]).3 && (a + b)[i].2 != FixRisk::High by {
        if i < a.len() {
            assert((a + b)[i] == a[i]);
        } else {
            assert((a + b)[i] == b[i - a.len()]);
        }
    }
}

proof fn lemma_two_options_safe(x: OptionView, y: OptionView)
    requires
        x.3 && x.2 != FixRisk::High,
        y.3 && y.2 != FixRisk::High,
    ensures
        options_safe(seq![x, y]),
{
    let s = seq![x, y];
    assert forall|i: int| 0 <= i < s.len() implies (#[trigger] s[i]).3 && s[i].2 != FixRisk::High by {
        if i == 0 {
        } else {
        }
    }
}

proof fn lemma_one_option_safe(x: OptionView)
    requires
        x.3 && x.2 != FixRisk::High,
    ensures
        options_safe(seq![x]),
{
    let s = seq![x];
    assert forall|i: int| 0 <= i < s.len() implies (#[trigger] s[i]).3 && s[i].2 != FixRisk::High by {
    }
}

proof fn lemma_runtime_plan_safe(binary: Seq<char>, display: Seq<char>, cmds: Seq<(Seq<char>, FixRisk)>, found: bool)
    requires
        cmds.len() > 0,
        forall|i: int| 0 <= i < cmds.len() ==> (#[trigger] cmds[i]).1 != FixRisk::High,
    ensures
        runtime_plan(binary, display, cmds, found) matches Some(p) ==> plan_is_safe(p),
{
    if !found {
        let opts = install_options(display, cmds);
        assert forall|i: int| 0 <= i < opts.len() implies (#[trigger] opts[i]).3 && opts[i].2 != FixRisk::High by {
            assert(opts[i].2 == cmds[i].1);
        }
        lemma_why_fix_prefix(binary);
    }
}

proof fn lemma_two_commands(a: Seq<char>, b: Seq<char>)
    ensures
        ({
            let cmds = seq![(a, FixRisk::Medium), (b, FixRisk::Medium)];
            forall|i: int| 0 <= i < cmds.len() ==> (#[trigger] cmds[i]).1 != FixRisk::High
        }),
{
    let cmds = seq![(a, FixRisk::Medium), (b, FixRisk::Medium)];
    assert forall|i: int| 0 <= i < cmds.len() implies (#[trigger] cmds[i]).1 != FixRisk::High by {
        if i == 0 {
        } else {
        }
    }
}

proof fn lemma_node_options_safe(v: Seq<char>, fnm: bool, nvm: bool, scoop: bool)
    ensures
        node_options(v, fnm, nvm, scoop).len() > 0,
        options_safe(node_options(v, fnm, nvm, scoop)),
        starts_with("why fix node"@, "why fix "@),
{
    let with_fnm: Seq<OptionView> = if fnm {
        seq![
            ("Switch to Node "@ + v + " using fnm (recommended)"@, "fnm use "@ + v, FixRisk::Low, true),
            ("Install Node "@ + v + " via fnm"@, "fnm install "@ + v, FixRisk::Medium, true),
        ]
    } else {
        seq![]
    };
    let with_nvm: Seq<OptionView> = if nvm {
        seq![
            ("Switch to Node "@ + v + " using nvm"@, "nvm use "@ + v, FixRisk::Low, true),
            ("Install Node "@ + v + " via nvm"@, "nvm install "@ + v, FixRisk::Medium, true),
        ]
    } else {
        seq![]
    };
    let with_scoop: Seq<OptionView> = if scoop {
        seq![("Install Node "@ + v + " via Scoop"@, "scoop install nodejs@"@ + v, FixRisk::Medium, true)]
    } else {
        seq![]
    };
    let last: Seq<OptionView> = seq![
        (
            "Download Node "@ + v + " installer from nodejs.org"@,
            "start https://nodejs.org/download/release/latest-v"@ + v + ".x/"@,
            FixRisk::Medium,
            true,
        ),
    ];
    if fnm {
        lemma_two_options_safe(with_fnm[0], with_fnm[1]);
    }
    if nvm {
        lemma_two_options_safe(with_nvm[0], with_nvm[1]);
    }
    if scoop {
        lemma_one_option_safe(with_scoop[0]);
    }
    lemma_one_option_safe(last[0]);
    lemma_options_safe_concat(with_fnm, with_nvm);
    lemma_options_safe_concat(with_fnm + with_nvm, with_scoop);
    lemma_options_safe_concat(with_fnm + with_nvm + with_scoop, last);
    assert(node_options(v, fnm, nvm, scoop) == with_fnm + with_nvm + with_scoop + last);
    reveal_strlit("why fix node");
    reveal_strlit("why fix ");
    reveal_strlit("node");
    assert("why fix node"@ =~= "why fix "@ + "node"@);
    lemma_why_fix_prefix("node"@);
}

/// Every plan that is suggested, for any subject and whatever was found on
/// the system (including the PATH state of `node`), has at least one
/// option; all its options are reversible and none is of high risk; and its
/// fix command starts with "why fix ".
pub proof fn lemma_suggested_plans_are_safe(subject: Seq<char>, seen: FixObservation, node: ExecutableObservation)
    ensures
        fix_plan_for(subject, seen) matches Some(p) ==> plan_is_safe(p),
        node_chain_plan(node, seen.has_fnm, seen.has_nvm, seen.has_scoop) matches Some(p) ==> plan_is_safe(p),
{
    lemma_node_options_safe("22"@, seen.has_fnm, seen.has_nvm, seen.has_scoop);
    let l = lowercase(subject);
    if is_node(l) {
        if let Some(f) = seen.node_finding {
            if f.severity != Severity::Info {
                let v = required_node_version(f.graph.nodes@);
                lemma_node_options_safe(v, seen.has_fnm, seen.has_nvm, seen.has_scoop);
            }
        }
    } else if l == "python"@ {
        lemma_two_commands("scoop install python"@, "winget install Python.Python.3"@);
        lemma_runtime_plan_safe(
            "python"@,
            "Python"@,
            seq![("scoop install python"@, FixRisk::Medium), ("winget install Python.Python.3"@, FixRisk::Medium)],
            seen.binary_found,
        );
    } else if is_rust(l) {
        lemma_two_commands("winget install Rustlang.Rustup"@, "scoop install rustup"@);
        lemma_runtime_plan_safe(
            "cargo"@,
            "Rust"@,
            seq![("winget install Rustlang.Rustup"@, FixRisk::Medium), ("scoop install rustup"@, FixRisk::Medium)],
            seen.binary_found,
        );
    } else if l == "go"@ {
        lemma_two_commands("scoop install go"@, "winget install GoLang.Go"@);
        lemma_runtime_plan_safe(
            "go"@,
            "Go"@,
            seq![("scoop install go"@, FixRisk::Medium), ("winget install GoLang.Go"@, FixRisk::Medium)],
            seen.binary_found,
        );
    } else if l == "docker"@ {
        let cmds = seq![("winget install Docker.DockerDesktop"@, FixRisk::Medium)];
        assert forall|i: int| 0 <= i < cmds.len() implies (#[trigger] cmds[i]).1 != FixRisk::High by {
        }
        lemma_runtime_plan_safe("docker"@, "Docker"@, cmds, seen.binary_found);
    } else if is_postgres(l) {
        let p = service_plan("PostgreSQL"@, "postgresql"@, "db"@);
        lemma_two_options_safe(p.2[0], p.2[1]);
        lemma_why_fix_prefix("postgresql"@);
    } else if l == "redis"@ {
        let p = service_plan("Redis"@, "redis"@, "redis"@);
        lemma_two_options_safe(p.2[0], p.2[1]);
        lemma_why_fix_prefix("redis"@);
    } else if !seen.binary_found {
        let p = generic_plan(subject, false).unwrap();
        lemma_two_options_safe(p.2[0], p.2[1]);
        lemma_why_fix_prefix(subject);
    }
}

pub open spec fn options_view(opts: Seq<FixOption>) -> Seq<OptionView> {
    opts.map_values(|o: FixOption| option_view(o))
}

fn push_option(opts: &mut Vec<FixOption>, label: String, command: String, risk: FixRisk)
    ensures
        options_view(final(opts)@) == options_view(old(opts)@).push((label@, command@, risk, true)),
{
    let ghost before = opts@;
    opts.push(FixOption { label, command, risk, reversible: true });
    proof {
        assert(options_view(opts@) =~= options_view(before).push((label@, command@, risk, true)));
    }
}

fn text2(a: &str, b: &str) -> (r: String)
    ensures
        r@ == a@ + b@,
{
    let mut r = String::from_str(a);
    r.append(b);
    r
}

fn text3(a: &str, b: &str, c: &str) -> (r: String)
    ensures
        r@ == a@ + b@ + c@,
{
    let mut r = text2(a, b);
    r.append(c);
    r
}

fn make_plan(subject: &str, problem: String, options: Vec<FixOption>, fix_command: String) -> (p: FixPlan)
    ensures
        plan_view(p) == (subject@, problem@, options_view(options@), fix_command@),
{
    FixPlan { subject: String::from_str(subject), problem, options, fix_command }
}

fn command_manager_of(cmd: &str) -> (r: &'static str)
    ensures
        r@ == command_manager(cmd@),
{
    if str_starts_with(cmd, "scoop") {
        "Scoop"
    } else if str_starts_with(cmd, "winget") {
        "WinGet"
    } else {
        "system"
    }
}

pub open spec fn commands_view(cmds: Seq<(&str, FixRisk)>) -> Seq<(Seq<char>, FixRisk)> {
    cmds.map_values(|p: (&str, FixRisk)| (p.0@, p.1))
}

/// The plan for a runtime, given whether its binary is on PATH.
fn suggest_runtime_fixes(binary: &str, display: &str, install: &Vec<(&str, FixRisk)>, found: bool) -> (r: Option<FixPlan>)
    ensures
        opt_plan_view(r) == runtime_plan(binary@, display@, commands_view(install@), found),
{
    if found {
        return None;
    }
    let ghost cmds = commands_view(install@);
    let mut options: Vec<FixOption> = Vec::new();
    let mut i: usize = 0;
    while i < install.len()
        invariant
            i <= install@.len(),
            cmds == commands_view(install@),
            options_view(options@) == install_options(display@, cmds).take(i as int),
        decreases install@.len() - i,
    {
        let (cmd, risk) = install[i];
        let label = text3("Install ", display, " via ");
        let manager = command_manager_of(cmd);
        let mut label = label;
        label.append(manager);
        push_option(&mut options, label, String::from_str(cmd), risk);
        proof {
            assert(install_options(display@, cmds).take(i + 1) =~= install_options(display@, cmds).take(i as int).push(
                install_options(display@, cmds)[i as int],
            ));
        }
        i += 1;
    }
    proof {
        assert(install_options(display@, cmds).take(install@.len() as int) =~= install_options(display@, cmds));
    }
    let problem = text3("'", binary, "' was not found on PATH.");
    Some(make_plan(display, problem, options, text2("why fix ", binary)))
}

/// The text before the first '.'.
pub(crate) fn before_dot_exec(s: &str) -> (r: String)
    ensures
        r@ == before_dot(s@),
{
    let cs = chars_of(s);
    let mut i: usize = 0;
    proof {
        assert(cs@.take(0) =~= Seq::<char>::empty());
        assert(cs@.skip(0) == cs@);
    }
    while i < cs.len()
        invariant
            cs@ == s@,
            i <= cs@.len(),
            forall|j: int| 0 <= j < i ==> cs@[j] != '.',
            before_dot(cs@) == cs@.take(i as int) + before_dot(cs@.skip(i as int)),
        decreases cs@.len() - i,
    {
        proof {
            let rest = cs@.skip(i as int);
            assert(rest[0] == cs@[i as int]);
            assert(rest.drop_first() == cs@.skip(i + 1));
            if cs@[i as int] != '.' {
                assert(cs@.take(i + 1) == cs@.take(i as int) + seq![cs@[i as int]]);
            }
        }
        if cs[i] == '.' {
            let r = string_of_range(&cs, 0, i);
            proof {
                let rest = cs@.skip(i as int);
                assert(rest[0] == '.');
                assert(cs@.subrange(0, i as int) == cs@.take(i as int));
                assert(before_dot(rest) =~= Seq::<char>::empty());
                assert(cs@.take(i as int) + Seq::<char>::empty() =~= cs@.take(i as int));
            }
            return r;
        }
        i += 1;
    }
    proof {
        assert(cs@.skip(cs@.len() as int) =~= Seq::<char>::empty());
        assert(cs@.take(cs@.len() as int) == cs@);
    }
    crate::text::string_of(&cs)
}

/// The major Node version a finding's constraint asks for; "22" without one.
fn required_version(nodes: &Vec<EvidenceNode>) -> (r: String)
    ensures
        r@ == required_node_version(nodes@),
{
    let n = nodes.len();
    let mut i: usize = 0;
    while i < n
        invariant
            n == nodes@.len(),
            i <= n,
            first_constraint(nodes@, i as int) is None,
        decreases n - i,
    {
        if nodes[i].node_type == String::from_str("Constraint") {
            proof {
                assert(first_constraint(nodes@, i + 1) == Some(i as int));
                lemma_first_constraint_stable(nodes@, i + 1, n as int);
            }
            let a = str_trim_prefix(nodes[i].value.as_str(), ">=");
            let b = str_trim_prefix(a.as_str(), "^");
            return before_dot_exec(b.as_str());
        }
        i += 1;
    }
    String::from_str("22")
}

proof fn lemma_first_constraint_stable(nodes: Seq<EvidenceNode>, a: int, b: int)
    requires
        0 <= a <= b,
        first_constraint(nodes, a) is Some,
    ensures
        first_constraint(nodes, b) == first_constraint(nodes, a),
    decreases b - a,
{
    if b > a {
        lemma_first_constraint_stable(nodes, a, b - 1);
    }
}

/// The plan for Node, from its finding and the version managers on PATH.
fn suggest_node_fixes(finding: &Finding, has_fnm: bool, has_nvm: bool, has_scoop: bool) -> (r: Option<FixPlan>)
    ensures
        opt_plan_view(r) == node_plan(*finding, has_fnm, has_nvm, has_scoop),
{
    if finding.severity == Severity::Info {
        return None;
    }
    let v = required_version(&finding.graph.nodes);
    let v = v.as_str();
    let mut options: Vec<FixOption> = Vec::new();
    let ghost e: Seq<OptionView> = seq![];
    proof {
        assert(options_view(options@) =~= e);
    }
    if has_fnm {
        push_option(&mut options, text3("Switch to Node ", v, " using fnm (recommended)"), text2("fnm use ", v), FixRisk::Low);
        push_option(&mut options, text3("Install Node ", v, " via fnm"), text2("fnm install ", v), FixRisk::Medium);
    }
    if has_nvm {
        push_option(&mut options, text3("Switch to Node ", v, " using nvm"), text2("nvm use ", v), FixRisk::Low);
        push_option(&mut options, text3("Install Node ", v, " via nvm"), text2("nvm install ", v), FixRisk::Medium);
    }
    if has_scoop {
        push_option(&mut options, text3("Install Node ", v, " via Scoop"), text2("scoop install nodejs@", v), FixRisk::Medium);
    }
    push_option(
        &mut options,
        text3("Download Node ", v, " installer from nodejs.org"),
        text3("start https://nodejs.org/download/release/latest-v", v, ".x/"),
        FixRisk::Medium,
    );
    if options.len() == 0 {
        push_option(
            &mut options,
            String::from_str("Install a Node version manager first (fnm recommended)"),
            String::from_str("winget install Schniz.fnm"),
            FixRisk::Medium,
        );
    }
    proof {
        assert(options_view(options@) =~= node_options(v@, has_fnm, has_nvm, has_scoop));
    }
    Some(make_plan("Node.js", finding.cause.clone(), options, String::from_str("why fix node")))
}

fn service_fix_plan(name: &str, service: &str, compose_service: &str) -> (p: FixPlan)
    ensures
        plan_view(p) == service_plan(name@, service@, compose_service@),
{
    let mut options: Vec<FixOption> = Vec::new();
    let ghost e: Seq<OptionView> = seq![];
    proof {
        assert(options_view(options@) =~= e);
    }
    push_option(
        &mut options,
        String::from_str("Start via Docker Compose"),
        text2("docker compose up -d ", compose_service),
        FixRisk::Low,
    );
    push_option(&mut options, text3("Start the ", name, " Windows service"), text2("sc start ", service), FixRisk::Medium);
    proof {
        assert(options_view(options@) =~= service_plan(name@, service@, compose_service@).2);
    }
    make_plan(name, text2(name, " is required but is not running."), options, text2("why fix ", service))
}

proof fn lemma_no_constraint(nodes: Seq<EvidenceNode>, upto: int)
    requires
        upto <= nodes.len(),
        forall|i: int| 0 <= i < nodes.len() ==> #[trigger] nodes[i].node_type@ != "Constraint"@,
    ensures
        first_constraint(nodes, upto) is None,
    decreases upto,
{
    if upto > 0 {
        lemma_no_constraint(nodes, upto - 1);
        assert(nodes[upto - 1].node_type@ != "Constraint"@);
    }
}

/// The plan for Node from what was found for the command `node` on PATH:
/// none when its chain shows no problem; else the chain's cause, with the
/// options for Node 22, the version asked for when no constraint names
/// another (the chain of a command holds no constraint).
pub open spec fn node_chain_plan(node: ExecutableObservation, fnm: bool, nvm: bool, scoop: bool) -> Option<PlanView> {
    let n = node.results@.len();
    let manager = if n > 0 {
        manager_of(node.results@[0].resolved_path@)
    } else {
        seq![]
    };
    if executable_severity("node"@, n, node.sibling) == Severity::Info {
        None
    } else {
        Some(("Node.js"@, executable_cause("node"@, n, node.version, manager), node_options("22"@, fnm, nvm, scoop), "why fix node"@))
    }
}

/// Suggests a remediation plan for a subject from what was found on the
/// system. For Node the finding is built here, from what was found for the
/// command `node` (`build_executable_chain`), and the plan is chosen from
/// it; other subjects go as in `suggest_fixes`.
pub fn suggest_fixes_for(subject: &str, node: &ExecutableObservation, seen: &FixObservation) -> (r: Option<FixPlan>)
    ensures
        !is_node(lowercase(subject@)) ==> opt_plan_view(r) == fix_plan_for(subject@, *seen),
        is_node(lowercase(subject@)) ==> opt_plan_view(r) == node_chain_plan(
            *node,
            seen.has_fnm,
            seen.has_nvm,
            seen.has_scoop,
        ),
{
    let l = to_lowercase(subject);
    if l == String::from_str("node") || l == String::from_str("nodejs") {
        let f = build_executable_chain("node", node);
        proof {
            lemma_no_constraint(f.graph.nodes@, f.graph.nodes@.len() as int);
        }
        suggest_node_fixes(&f, seen.has_fnm, seen.has_nvm, seen.has_scoop)
    } else {
        suggest_fixes(subject, seen)
    }
}

/// Suggests a remediation plan for a subject, given what was found on the
/// system for it (see `fix_lookup`); `None` when no known problem is seen,
/// and for Node when its finding was not observed.
pub fn suggest_fixes(subject: &str, seen: &FixObservation) -> (r: Option<FixPlan>)
    ensures
        opt_plan_view(r) == fix_plan_for(subject@, *seen),
        is_ascii_text(subject@) ==> opt_plan_view(r) == fix_plan_with(ascii_lower(subject@), subject@, *seen),
{
    let l = to_lowercase(subject);
    if l == String::from_str("node") || l == String::from_str("nodejs") {
        match &seen.node_finding {
            Some(f) => suggest_node_fixes(f, seen.has_fnm, seen.has_nvm, seen.has_scoop),
            None => None,
        }
    } else if l == String::from_str("python") {
        let mut cmds: Vec<(&str, FixRisk)> = Vec::new();
        cmds.push(("scoop install python", FixRisk::Medium));
        cmds.push(("winget install Python.Python.3", FixRisk::Medium));
        proof {
            assert(commands_view(cmds@) =~= seq![("scoop install python"@, FixRisk::Medium), ("winget install Python.Python.3"@, FixRisk::Medium)]);
        }
        suggest_runtime_fixes("python", "Python", &cmds, seen.binary_found)
    } else if l == String::from_str("rust") || l == String::from_str("cargo") {
        let mut cmds: Vec<(&str, FixRisk)> = Vec::new();
        cmds.push(("winget install Rustlang.Rustup", FixRisk::Medium));
        cmds.push(("scoop install rustup", FixRisk::Medium));
        proof {
            assert(commands_view(cmds@) =~= seq![("winget install Rustlang.Rustup"@, FixRisk::Medium), ("scoop install rustup"@, FixRisk::Medium)]);
        }
        suggest_runtime_fixes("cargo", "Rust", &cmds, seen.binary_found)
    } else if l == String::from_str("go") {
        let mut cmds: Vec<(&str, FixRisk)> = Vec::new();
        cmds.push(("scoop install go", FixRisk::Medium));
        cmds.push(("winget install GoLang.Go", FixRisk::Medium));
        proof {
            assert(commands_view(cmds@) =~= seq![("scoop install go"@, FixRisk::Medium), ("winget install GoLang.Go"@, FixRisk::Medium)]);
        }
        suggest_runtime_fixes("go", "Go", &cmds, seen.binary_found)
    } else if l == String::from_str("docker") {
        let mut cmds: Vec<(&str, FixRisk)> = Vec::new();
        cmds.push(("winget install Docker.DockerDesktop", FixRisk::Medium));
        proof {
            assert(commands_view(cmds@) =~= seq![("winget install Docker.DockerDesktop"@, FixRisk::Medium)]);
        }
        suggest_runtime_fixes("docker", "Docker", &cmds, seen.binary_found)
    } else if l == String::from_str("postgresql") || l == String::from_str("postgres") {
        Some(service_fix_plan("PostgreSQL", "postgresql", "db"))
    } else if l == String::from_str("redis") {
        Some(service_fix_plan("Redis", "redis", "redis"))
    } else if seen.binary_found {
        None
    } else {
        let mut options: Vec<FixOption> = Vec::new();
        let ghost e: Seq<OptionView> = seq![];
        proof {
            assert(options_view(options@) =~= e);
        }
        push_option(&mut options, String::from_str("Install via Scoop"), text2("scoop install ", subject), FixRisk::Medium);
        push_option(&mut options, String::from_str("Install via WinGet"), text2("winget install ", subject), FixRisk::Medium);
        proof {
            assert(options_view(options@) =~= generic_plan(subject@, false).unwrap().2);
        }
        let problem = text3("'", subject, "' was not found on PATH.");
        Some(make_plan(subject, problem, options, text2("why fix ", subject)))
    }
}

} // verus!

verus! {

impl FixRisk {
    pub open spec fn label_spec(self) -> Seq<char> {
        match self {
            FixRisk::Low => "low risk"@,
            FixRisk::Medium => "medium risk"@,
            FixRisk::High => "high risk"@,
        }
    }

    /// How the risk is shown beside an option.
    pub fn label(&self) -> (r: &'static str)
        ensures
            r@ == self.label_spec(),
    {
        match self {
            FixRisk::Low => "low risk",
            FixRisk::Medium => "medium risk",
            FixRisk::High => "high risk",
        }
    }
}

impl FixOption {
    /// How the option's impact is shown: whether it can be undone.
    pub fn impact(&self) -> (r: &'static str)
        ensures
            r@ == (if self.reversible { "reversible"@ } else { "irreversible"@ }),
    {
        if self.reversible { "reversible" } else { "irreversible" }
    }
}

/// A command line split into the program (the text before the first space)
/// and its arguments (the whitespace-separated words after it).
pub open spec fn command_parts(cmd: Seq<char>) -> (Seq<char>, Seq<Seq<char>>) {
    match index_of(cmd, ' ') {
        Some(k) => (cmd.take(k), words(cmd.skip(k + 1))),
        None => (cmd, seq![]),
    }
}

impl FixPlan {
    /// What applying the plan runs: the program and arguments of its first
    /// option, or the error when the plan has no option.
    pub fn first_command(&self) -> (r: Result<(String, Vec<String>), String>)
        ensures
            match r {
                Ok((program, args)) => {
                    &&& self.options@.len() > 0
                    &&& (program@, strings_view(args@)) == command_parts(self.options@[0].command@)
                },
                Err(e) => self.options@.len() == 0 && e@ == "No fix options available."@,
            },
    {
        if self.options.len() == 0 {
            return Err(String::from_str("No fix options available."));
        }
        let cmd = self.options[0].command.as_str();
        match find_char(cmd, ' ') {
            Some(k) => {
                let cs = chars_of(cmd);
                proof {
                    lemma_index_of(cmd@, ' ');
                    assert(k < cs@.len());
                }
                let program = string_of_range(&cs, 0, k);
                assert(k + 1 <= cs.len());
                let rest = string_of_range(&cs, k + 1, cs.len());
                proof {
                    assert(program@ == cmd@.take(k as int));
                    assert(rest@ == cmd@.skip(k + 1));
                }
                Ok((program, split_words(rest.as_str())))
            },
            None => {
                let args: Vec<String> = Vec::new();
                proof {
                    assert(strings_view(args@) =~= Seq::<Seq<char>>::empty());
                }
                Ok((String::from_str(cmd), args))
            },
        }
    }
}

} // verus!

verus! {

/// A Node whose npm resolves to another installation has a problem, so a
/// plan is offered for it; so does a Node found more than once on PATH or
/// not at all.
pub proof fn lemma_node_conflict_has_plan(node: ExecutableObservation, fnm: bool, nvm: bool, scoop: bool)
    ensures
        (node.results@.len() > 0 && (node.sibling matches Some(s) && !s.shares_root)) ==> node_chain_plan(
            node,
            fnm,
            nvm,
            scoop,
        ) is Some,
        node.results@.len() != 1 ==> node_chain_plan(node, fnm, nvm, scoop) is Some,
{
    crate::graph::chains::lemma_sibling_tools();
    crate::graph::chains::lemma_sibling_conflict_is_warning("node"@, node.results@.len(), node.sibling);
}

/// The plan for a database service starts that service: for Redis (in any
/// case, whatever was observed) its compose service `redis` and its Windows
/// service `redis`; for PostgreSQL the compose service `db` and the Windows
/// service `postgresql`. The Compose option comes first and is of low risk.
pub proof fn lemma_service_plans_start_their_service(subject: Seq<char>, seen: FixObservation)
    ensures
        lowercase(subject) == "redis"@ ==> (fix_plan_for(subject, seen) matches Some(p) && {
            &&& p.0 == "Redis"@
            &&& p.2.len() == 2
            &&& p.2[0].1 == "docker compose up -d redis"@
            &&& p.2[0].2 == FixRisk::Low
            &&& p.2[1].1 == "sc start redis"@
            &&& p.3 == "why fix redis"@
        }),
        (lowercase(subject) == "postgres"@ || lowercase(subject) == "postgresql"@) ==> (fix_plan_for(subject, seen) matches Some(p) && {
            &&& p.0 == "PostgreSQL"@
            &&& p.2.len() == 2
            &&& p.2[0].1 == "docker compose up -d db"@
            &&& p.2[0].2 == FixRisk::Low
            &&& p.2[1].1 == "sc start postgresql"@
            &&& p.3 == "why fix postgresql"@
        }),
{
    reveal_strlit("redis");
    reveal_strlit("postgres");
    reveal_strlit("postgresql");
    reveal_strlit("node");
    reveal_strlit("nodejs");
    reveal_strlit("python");
    reveal_strlit("rust");
    reveal_strlit("cargo");
    reveal_strlit("go");
    reveal_strlit("docker");
    reveal_strlit("docker compose up -d redis");
    reveal_strlit("docker compose up -d ");
    reveal_strlit("docker compose up -d db");
    reveal_strlit("db");
    reveal_strlit("sc start redis");
    reveal_strlit("sc start ");
    reveal_strlit("sc start postgresql");
    reveal_strlit("why fix redis");
    reveal_strlit("why fix postgresql");
    reveal_strlit("why fix ");
    assert("docker compose up -d "@ + "redis"@ =~= "docker compose up -d redis"@);
    assert("docker compose up -d "@ + "db"@ =~= "docker compose up -d db"@);
    assert("sc start "@ + "redis"@ =~= "sc start redis"@);
    assert("sc start "@ + "postgresql"@ =~= "sc start postgresql"@);
    assert("why fix "@ + "redis"@ =~= "why fix redis"@);
    assert("why fix "@ + "postgresql"@ =~= "why fix postgresql"@);
    let l = lowercase(subject);
    if l == "redis"@ {
        assert(l[0] == 'r' && l[1] == 'e' && l.len() == 5);
        assert(!is_node(l) && !is_rust(l) && !is_postgres(l));
        assert(l != "python"@ && l != "go"@ && l != "docker"@);
    }
    if l == "postgres"@ || l == "postgresql"@ {
        assert(l[0] == 'p' && l[1] == 'o' && l.len() >= 8);
        assert(!is_node(l) && !is_rust(l));
        assert(l != "python"@ && l != "go"@ && l != "docker"@);
    }
}

} // verus!
