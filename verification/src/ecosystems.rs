use vstd::prelude::*;
use vstd::string::StringExecFns;

verus! {

/// The tools associated with an ecosystem, listed in its report.
#[derive(Clone, Debug)]
pub struct EcosystemDetails {
    /// The tools looked up on PATH, in order.
    pub tools: Vec<&'static str>,
    /// The width the tool names are padded to.
    pub name_width: usize,
    /// Whether the count of global npm packages is shown.
    pub counts_npm_globals: bool,
}

/// The ecosystem a program name belongs to: 0 node, 1 python, 2 docker,
/// 3 rust, 4 java.
pub open spec fn ecosystem_of(q: Seq<char>) -> Option<int> {
    if q == "node"@ || q == "npm"@ || q == "npx"@ {
        Some(0)
    } else if q == "python"@ || q == "pip"@ {
        Some(1)
    } else if q == "docker"@ {
        Some(2)
    } else if q == "cargo"@ || q == "rustc"@ || q == "rustup"@ {
        Some(3)
    } else if q == "java"@ || q == "javac"@ {
        Some(4)
    } else {
        None
    }
}

pub open spec fn tools_view(tools: Seq<&'static str>) -> Seq<Seq<char>> {
    tools.map_values(|t: &'static str| t@)
}

/// The tools of each ecosystem and how they are listed.
pub open spec fn ecosystem_listing(e: int) -> (Seq<Seq<char>>, usize, bool) {
    if e == 0 {
        (seq!["npm"@, "npx"@, "yarn"@, "pnpm"@], 6, true)
    } else if e == 1 {
        (seq!["pip"@, "poetry"@, "pipenv"@, "conda"@, "uv"@], 8, false)
    } else if e == 2 {
        (seq!["docker-compose"@, "dockerd"@], 14, false)
    } else if e == 3 {
        (seq!["cargo"@, "rustc"@, "rustup"@], 8, false)
    } else {
        (seq!["javac"@, "jar"@, "mvn"@, "gradle"@, "kotlin"@], 8, false)
    }
}

fn details(tools: Vec<&'static str>, name_width: usize, counts_npm_globals: bool) -> (r: EcosystemDetails)
    ensures
        r.tools == tools,
        r.name_width == name_width,
        r.counts_npm_globals == counts_npm_globals,
{
    EcosystemDetails { tools, name_width, counts_npm_globals }
}

/// The ecosystem details shown for a program name, if it has an ecosystem.
pub fn print_ecosystem_details(query_name: &str) -> (r: Option<EcosystemDetails>)
    ensures
        match ecosystem_of(query_name@) {
            Some(e) => r matches Some(d) && (tools_view(d.tools@), d.name_width, d.counts_npm_globals)
                == ecosystem_listing(e),
            None => r is None,
        },
{
    let q = String::from_str(query_name);
    let mut tools: Vec<&'static str> = Vec::new();
    if q == String::from_str("node") || q == String::from_str("npm") || q == String::from_str("npx") {
        tools.push("npm");
        tools.push("npx");
        tools.push("yarn");
        tools.push("pnpm");
        proof {
            assert(tools_view(tools@) =~= ecosystem_listing(0).0);
        }
        Some(details(tools, 6, true))
    } else if q == String::from_str("python") || q == String::from_str("pip") {
        tools.push("pip");
        tools.push("poetry");
        tools.push("pipenv");
        tools.push("conda");
        tools.push("uv");
        proof {
            assert(tools_view(tools@) =~= ecosystem_listing(1).0);
        }
        Some(details(tools, 8, false))
    } else if q == String::from_str("docker") {
        tools.push("docker-compose");
        tools.push("dockerd");
        proof {
            assert(tools_view(tools@) =~= ecosystem_listing(2).0);
        }
        Some(details(tools, 14, false))
    } else if q == String::from_str("cargo") || q == String::from_str("rustc") || q == String::from_str("rustup") {
        tools.push("cargo");
        tools.push("rustc");
        tools.push("rustup");
        proof {
            assert(tools_view(tools@) =~= ecosystem_listing(3).0);
        }
        Some(details(tools, 8, false))
    } else if q == String::from_str("java") || q == String::from_str("javac") {
        tools.push("javac");
        tools.push("jar");
        tools.push("mvn");
        tools.push("gradle");
        tools.push("kotlin");
        proof {
            assert(tools_view(tools@) =~= ecosystem_listing(4).0);
        }
        Some(details(tools, 8, false))
    } else {
        None
    }
}

} // verus!
