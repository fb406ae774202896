use vstd::prelude::*;
use crate::resolver::path::path_components;
use crate::text::{ascii_lower, concat, contains, is_ascii_text, lowercase, str_contains, to_lowercase, starts_with};

verus! {

/// The package manager (or other source) a program was installed through.
#[derive(Clone, Debug)]
pub struct InstallationInfo {
    pub manager: String,
    pub detail: Option<String>,
}

pub open spec fn opt_view(o: Option<String>) -> Option<Seq<char>> {
    match o {
        Some(s) => Some(s@),
        None => None,
    }
}

/// The position of the first component, among the first `upto`, that reads
/// "apps" in any case.
pub open spec fn first_apps_component(parts: Seq<String>, upto: int) -> Option<int>
    decreases upto,
{
    if upto <= 0 {
        None
    } else {
        match first_apps_component(parts, upto - 1) {
            Some(i) => Some(i),
            None => if lowercase(parts[upto - 1]@) == "apps"@ {
                Some(upto - 1)
            } else {
                None
            },
        }
    }
}

/// The detail of a Scoop installation: the component after the first "apps".
pub open spec fn scoop_detail(parts: Seq<String>) -> Option<Seq<char>> {
    match first_apps_component(parts, parts.len() as int) {
        Some(i) => if i + 1 < parts.len() {
            Some("App directory: "@ + parts[i + 1]@)
        } else {
            None
        },
        None => None,
    }
}

/// The lower-cased path lies in a Scoop apps directory.
pub open spec fn in_scoop(l: Seq<char>) -> bool {
    contains(l, "scoop\\apps"@)
}

/// The manager and detail that the lower-cased path of a program names,
/// outside a Scoop apps directory.
pub open spec fn manager_rule(l: Seq<char>) -> (Seq<char>, Option<Seq<char>>) {
    if contains(l, "fnm_multishells"@) || contains(l, "fnm\\"@) {
        ("fnm (Fast Node Manager)"@, Some("Managed Node.js environment"@))
    } else if contains(l, ".cargo\\bin"@) {
        ("Cargo (Rust)"@, Some("Installed via 'cargo install'"@))
    } else if contains(l, "chocolatey\\bin"@) || contains(l, "programdata\\chocolatey"@) {
        ("Chocolatey"@, None)
    } else if contains(l, "winget\\packages"@) || contains(l, "microsoft\\winget"@) {
        ("WinGet"@, None)
    } else {
        ("System / Manual Installation"@, None)
    }
}

/// The manager named for a program installed at `path`.
pub open spec fn manager_of(path: Seq<char>) -> Seq<char> {
    if in_scoop(lowercase(path)) {
        "Scoop"@
    } else {
        manager_rule(lowercase(path)).0
    }
}

fn info(manager: &str, detail: Option<&str>) -> (r: InstallationInfo)
    ensures
        r.manager@ == manager@,
        opt_view(r.detail) == match detail {
            Some(d) => Some(d@),
            None => None::<Seq<char>>,
        },
{
    InstallationInfo {
        manager: String::from_str(manager),
        detail: match detail {
            Some(d) => Some(String::from_str(d)),
            None => None,
        },
    }
}

/// The detail of a Scoop installation, from the components of its path.
pub fn scoop_app_detail(parts: &Vec<String>) -> (r: Option<String>)
    ensures
        opt_view(r) == scoop_detail(parts@),
{
    let n = parts.len();
    let mut i: usize = 0;
    while i < n
        invariant
            n == parts@.len(),
            i <= n,
            first_apps_component(parts@, i as int) is None,
        decreases n - i,
    {
        let l = to_lowercase(parts[i].as_str());
        if l == String::from_str("apps") {
            proof {
                assert(first_apps_component(parts@, i + 1) == Some(i as int));
                lemma_first_apps_stable(parts@, i + 1, n as int);
            }
            if i + 1 < n {
                return Some(concat("App directory: ", parts[i + 1].as_str()));
            }
            return None;
        }
        i += 1;
    }
    None
}

proof fn lemma_first_apps_stable(parts: Seq<String>, a: int, b: int)
    requires
        0 <= a <= b,
        first_apps_component(parts, a) is Some,
    ensures
        first_apps_component(parts, b) == first_apps_component(parts, a),
    decreases b - a,
{
    if b > a {
        lemma_first_apps_stable(parts, a, b - 1);
    }
}

/// Infers the installation source of a program from its path, given the
/// components of that path.
pub fn installation_for(path: &str, parts: &Vec<String>) -> (r: InstallationInfo)
    ensures
        in_scoop(lowercase(path@)) ==> r.manager@ == "Scoop"@ && opt_view(r.detail) == scoop_detail(parts@),
        !in_scoop(lowercase(path@)) ==> {
            &&& r.manager@ == manager_rule(lowercase(path@)).0
            &&& opt_view(r.detail) == manager_rule(lowercase(path@)).1
        },
        is_ascii_text(path@) && in_scoop(ascii_lower(path@)) ==> r.manager@ == "Scoop"@,
        is_ascii_text(path@) && !in_scoop(ascii_lower(path@)) ==> {
            &&& r.manager@ == manager_rule(ascii_lower(path@)).0
            &&& opt_view(r.detail) == manager_rule(ascii_lower(path@)).1
        },
{
    let l = to_lowercase(path);
    let l = l.as_str();
    if str_contains(l, "scoop\\apps") {
        return InstallationInfo { manager: String::from_str("Scoop"), detail: scoop_app_detail(parts) };
    }
    if str_contains(l, "fnm_multishells") || str_contains(l, "fnm\\") {
        return info("fnm (Fast Node Manager)", Some("Managed Node.js environment"));
    }
    if str_contains(l, ".cargo\\bin") {
        return info("Cargo (Rust)", Some("Installed via 'cargo install'"));
    }
    if str_contains(l, "chocolatey\\bin") || str_contains(l, "programdata\\chocolatey") {
        return info("Chocolatey", None);
    }
    if str_contains(l, "winget\\packages") || str_contains(l, "microsoft\\winget") {
        return info("WinGet", None);
    }
    info("System / Manual Installation", None)
}

/// Infers the installation source of a program from its path. The Scoop
/// detail names the component after "apps", as the platform splits the path.
pub fn detect_installation_source(path: &str) -> (r: InstallationInfo)
    ensures
        r.manager@ == manager_of(path@),
        in_scoop(lowercase(path@)) ==> {
            &&& r.manager@ == "Scoop"@
            &&& r.detail matches Some(d) ==> starts_with(d@, "App directory: "@)
            &&& exists|parts: Seq<String>| opt_view(r.detail) == #[trigger] scoop_detail(parts)
        },
        !in_scoop(lowercase(path@)) ==> {
            &&& r.manager@ == manager_rule(lowercase(path@)).0
            &&& opt_view(r.detail) == manager_rule(lowercase(path@)).1
        },
        is_ascii_text(path@) && in_scoop(ascii_lower(path@)) ==> r.manager@ == "Scoop"@,
        is_ascii_text(path@) && !in_scoop(ascii_lower(path@)) ==> {
            &&& r.manager@ == manager_rule(ascii_lower(path@)).0
            &&& opt_view(r.detail) == manager_rule(ascii_lower(path@)).1
        },
{
    let parts = path_components(path);
    let r = installation_for(path, &parts);
    proof {
        if in_scoop(lowercase(path@)) {
            assert(opt_view(r.detail) == scoop_detail(parts@));
        }
        if in_scoop(lowercase(path@)) {
            if let Some(i) = first_apps_component(parts@, parts@.len() as int) {
                if i + 1 < parts@.len() {
                    let d = "App directory: "@ + parts@[i + 1]@;
                    assert(d.take("App directory: "@.len() as int) =~= "App directory: "@);
                }
            }
        }
    }
    r
}

} // verus!
