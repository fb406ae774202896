use vstd::prelude::*;
use crate::text::{ascii_lower, ascii_upper, contains, is_ascii_text, lemma_upper_each_of_ascii_lower, str_contains, to_uppercase, upper_each, uppercase};

verus! {

/// An upper-cased variable name that names a key, password, token or other
/// credential.
pub open spec fn names_secret(upper: Seq<char>) -> bool {
    ||| contains(upper, "SECRET"@)
    ||| contains(upper, "KEY"@)
    ||| contains(upper, "PASSWORD"@)
    ||| contains(upper, "TOKEN"@)
    ||| contains(upper, "AUTH"@)
    ||| contains(upper, "PWD"@)
    ||| contains(upper, "PRIVATE"@)
    ||| contains(upper, "CERT"@)
    ||| contains(upper, "DATABASE_URL"@)
    ||| contains(upper, "CONN"@)
}

/// Detects whether a variable name corresponds to a key, password, token or
/// credential, regardless of case.
pub fn is_secret_key(key: &str) -> (r: bool)
    ensures
        r == names_secret(uppercase(key@)),
        r == names_secret(upper_each(key@)),
        is_ascii_text(key@) ==> r == names_secret(ascii_upper(key@)),
{
    let u = to_uppercase(key);
    let u = u.as_str();
    str_contains(u, "SECRET") || str_contains(u, "KEY") || str_contains(u, "PASSWORD") || str_contains(
        u,
        "TOKEN",
    ) || str_contains(u, "AUTH") || str_contains(u, "PWD") || str_contains(u, "PRIVATE")
        || str_contains(u, "CERT") || str_contains(u, "DATABASE_URL") || str_contains(u, "CONN")
}

/// Whether a variable name names a credential does not depend on the case
/// of its ASCII letters: the name with them lower-cased is judged the same
/// (see `is_secret_key`).
pub proof fn lemma_secret_check_ignores_ascii_case(key: Seq<char>)
    ensures
        names_secret(upper_each(ascii_lower(key))) == names_secret(upper_each(key)),
{
    lemma_upper_each_of_ascii_lower(key);
}

/// The variables, among `vars` in their order, whose upper-cased name
/// contains the upper-cased query.
pub open spec fn matching_vars(query_upper: Seq<char>, vars: Seq<(String, String)>) -> Seq<(String, String)>
    decreases vars.len(),
{
    if vars.len() == 0 {
        seq![]
    } else {
        let prev = matching_vars(query_upper, vars.drop_last());
        if contains(uppercase(vars.last().0@), query_upper) {
            prev.push(vars.last())
        } else {
            prev
        }
    }
}

/// Scans environment variables (name, value), as the environment lists them,
/// for those whose name matches the query, ignoring case.
pub fn scan_env_variables(query: &str, vars: Vec<(String, String)>) -> (r: Vec<(String, String)>)
    ensures
        r@ == matching_vars(uppercase(query@), vars@),
{
    let query_upper = to_uppercase(query);
    let ghost all = vars@;
    let mut matches: Vec<(String, String)> = Vec::new();
    for var in it: vars.into_iter()
        invariant
            it.seq() == all,
            matches@ == matching_vars(query_upper@, all.take(it.index())),
    {
        proof {
            assert(all.take(it.index() + 1).drop_last() == all.take(it.index()));
        }
        let key_upper = to_uppercase(var.0.as_str());
        if str_contains(key_upper.as_str(), query_upper.as_str()) {
            matches.push(var);
        }
    }
    proof {
        assert(all.take(all.len() as int) == all);
    }
    matches
}

/// How a variable's value may be shown.
#[derive(Clone, Copy, Debug, PartialEq, Eq, Structural)]
pub enum EnvVisibility {
    /// A credential: its value is never shown in a report.
    Masked,
    /// Shown, as asked.
    Shown,
    /// Hidden until asked for.
    Hidden,
}

/// How a report shows a variable: credentials are always masked, other
/// values are shown only when asked for.
pub fn env_visibility(key: &str, show_env: bool) -> (r: EnvVisibility)
    ensures
        r == (if names_secret(uppercase(key@)) {
            EnvVisibility::Masked
        } else if show_env {
            EnvVisibility::Shown
        } else {
            EnvVisibility::Hidden
        }),
{
    if is_secret_key(key) {
        EnvVisibility::Masked
    } else if show_env {
        EnvVisibility::Shown
    } else {
        EnvVisibility::Hidden
    }
}

} // verus!
