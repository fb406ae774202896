use vstd::prelude::*;
use vstd::string::StringExecFns;

verus! {

/// The files that mark a project using a runtime, for a cleaned command.
pub open spec fn project_markers_spec(q: Seq<char>) -> Seq<Seq<char>> {
    if q == "node"@ || q == "npm"@ || q == "npx"@ {
        seq!["package.json"@]
    } else if q == "python"@ || q == "pip"@ {
        seq!["requirements.txt"@, "pyproject.toml"@, "pipfile"@]
    } else if q == "docker"@ {
        seq!["docker-compose.yml"@, "dockerfile"@, "docker-compose.yaml"@]
    } else if q == "cargo"@ || q == "rustc"@ || q == "rustup"@ || q == "rust"@ {
        seq!["cargo.toml"@]
    } else {
        seq![]
    }
}

pub open spec fn markers_view(v: Seq<&'static str>) -> Seq<Seq<char>> {
    v.map_values(|m: &'static str| m@)
}

/// The files whose presence in a project directory shows that the project
/// uses the runtime of `query`; none for other commands, whose projects are
/// not looked for.
pub fn project_markers(query: &str) -> (r: Vec<&'static str>)
    ensures
        markers_view(r@) == project_markers_spec(query@),
{
    let q = String::from_str(query);
    let mut r: Vec<&'static str> = Vec::new();
    if q == String::from_str("node") || q == String::from_str("npm") || q == String::from_str("npx") {
        r.push("package.json");
    } else if q == String::from_str("python") || q == String::from_str("pip") {
        r.push("requirements.txt");
        r.push("pyproject.toml");
        r.push("pipfile");
    } else if q == String::from_str("docker") {
        r.push("docker-compose.yml");
        r.push("dockerfile");
        r.push("docker-compose.yaml");
    } else if q == String::from_str("cargo") || q == String::from_str("rustc") || q == String::from_str("rustup")
        || q == String::from_str("rust") {
        r.push("cargo.toml");
    }
    proof {
        assert(markers_view(r@) =~= project_markers_spec(query@));
    }
    r
}

} // verus!
