use vstd::prelude::*;
use vstd::string::StringExecFns;
use crate::text::{chars_of, is_ascii_digit, lowercase, to_lowercase};

verus! {

/// The command line of the inspector.
#[derive(Clone, Debug)]
pub struct Cli {
    /// The executable, process name, PID, or path (e.g. "node", "12480",
    /// "chrome", ".") to inspect.
    pub query: Option<String>,
    /// Show all installations of the executable found in system PATH.
    pub all: bool,
    /// Diagnose PATH resolution and version conflicts.
    pub conflict: bool,
    /// Show unmasked values of environment variables.
    pub show_env: bool,
    /// Output report in structured JSON format.
    pub json: bool,
    pub command: Option<Commands>,
}

/// The subcommands.
#[derive(Clone, Debug)]
pub enum Commands {
    /// Inspect what is using a specific port (e.g., "why port 8080").
    Port { port: u16 },
    /// Inspect the project in the current directory.
    Project,
    /// View a specific environment variable's value safely (e.g., "why env GITHUB_TOKEN").
    Env { name: String },
}

/// What an invocation inspects.
#[derive(Clone, Debug)]
pub enum Route {
    Port(u16),
    Project,
    Env(String),
    /// A running process, by name or PID.
    Process(String),
    /// An executable on PATH, or else a running process by that name: which
    /// one depends on a PATH lookup (see `route_after_lookup`).
    Lookup(String),
    /// An executable found on PATH.
    Executable(String),
}

pub open spec fn all_ascii_digits(s: Seq<char>) -> bool {
    forall|i: int| 0 <= i < s.len() ==> #[trigger] is_ascii_digit(s[i])
}

/// Where a query leads: "." or "project" (any case) to the project, a number
/// to a process id, anything else to a PATH lookup.
pub open spec fn query_route(q: String) -> Route {
    if q@ == "."@ || lowercase(q@) == "project"@ {
        Route::Project
    } else if all_ascii_digits(q@) {
        Route::Process(q)
    } else {
        Route::Lookup(q)
    }
}

pub open spec fn cli_route(cli: Cli) -> Route {
    match cli.command {
        Some(Commands::Port { port }) => Route::Port(port),
        Some(Commands::Project) => Route::Project,
        Some(Commands::Env { name }) => Route::Env(name),
        None => match cli.query {
            Some(q) => query_route(q),
            None => Route::Project,
        },
    }
}

fn digits_only(s: &str) -> (r: bool)
    ensures
        r == all_ascii_digits(s@),
{
    let cs = chars_of(s);
    let mut i: usize = 0;
    while i < cs.len()
        invariant
            cs@ == s@,
            i <= cs@.len(),
            forall|j: int| 0 <= j < i ==> #[trigger] is_ascii_digit(cs@[j]),
        decreases cs@.len() - i,
    {
        if !(cs[i] >= '0' && cs[i] <= '9') {
            proof {
                assert(!is_ascii_digit(s@[i as int]));
            }
            return false;
        }
        i += 1;
    }
    true
}

/// Decides what an invocation inspects: a subcommand first, then the query,
/// and the current project when there is neither.
pub fn route(cli: Cli) -> (r: Route)
    ensures
        r == cli_route(cli),
{
    match cli.command {
        Some(Commands::Port { port }) => Route::Port(port),
        Some(Commands::Project) => Route::Project,
        Some(Commands::Env { name }) => Route::Env(name),
        None => match cli.query {
            Some(q) => {
                let l = to_lowercase(q.as_str());
                if q == String::from_str(".") || l == String::from_str("project") {
                    Route::Project
                } else if digits_only(q.as_str()) {
                    Route::Process(q)
                } else {
                    Route::Lookup(q)
                }
            },
            None => Route::Project,
        },
    }
}

/// After a PATH lookup for a query: its executable report when found, else
/// the running process of that name.
pub fn route_after_lookup(query: String, found_on_path: bool) -> (r: Route)
    ensures
        r == (if found_on_path { Route::Executable(query) } else { Route::Process(query) }),
{
    if found_on_path {
        Route::Executable(query)
    } else {
        Route::Process(query)
    }
}

} // verus!
