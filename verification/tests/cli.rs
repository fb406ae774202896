use why::cli::{route, route_after_lookup, Cli, Commands, Route};
use why::ecosystems::print_ecosystem_details;

fn cli(query: Option<&str>, command: Option<Commands>) -> Cli {
    Cli { query: query.map(|q| q.to_string()), all: false, conflict: false, show_env: false, json: false, command }
}

#[test]
fn routes() {
    assert!(matches!(route(cli(None, None)), Route::Project));
    assert!(matches!(route(cli(Some("."), None)), Route::Project));
    assert!(matches!(route(cli(Some("PROJECT"), None)), Route::Project));
    assert!(matches!(route(cli(Some("12480"), None)), Route::Process(q) if q == "12480"));
    assert!(matches!(route(cli(Some("node"), None)), Route::Lookup(q) if q == "node"));
    assert!(matches!(route(cli(Some("node"), Some(Commands::Port { port: 8080 }))), Route::Port(8080)));
    assert!(matches!(route(cli(None, Some(Commands::Env { name: "PATH".to_string() }))), Route::Env(n) if n == "PATH"));
    assert!(matches!(route(cli(None, Some(Commands::Project))), Route::Project));
    assert!(matches!(route_after_lookup("chrome".to_string(), false), Route::Process(q) if q == "chrome"));
    assert!(matches!(route_after_lookup("node".to_string(), true), Route::Executable(q) if q == "node"));
}

#[test]
fn ecosystem_listings() {
    let node = print_ecosystem_details("npx").unwrap();
    assert_eq!(node.tools, vec!["npm", "npx", "yarn", "pnpm"]);
    assert_eq!(node.name_width, 6);
    assert!(node.counts_npm_globals);
    let java = print_ecosystem_details("javac").unwrap();
    assert_eq!(java.tools, vec!["javac", "jar", "mvn", "gradle", "kotlin"]);
    assert!(!java.counts_npm_globals);
    assert!(print_ecosystem_details("go").is_none());
}
