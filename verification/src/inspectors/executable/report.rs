use vstd::prelude::*;
use vstd::string::StringExecFns;
use crate::resolver::path::{entry_view, SearchOrderEntry};
use crate::text::{chars_of, lowercase, str_trim_suffix, string_of, strings_view, to_lowercase, trim_suffix};

verus! {

/// A command as the report names it: without a trailing ".exe" (repeated
/// ones too) and in lower case.
pub open spec fn clean_query_spec(query: Seq<char>) -> Seq<char> {
    lowercase(trim_suffix(query, ".exe"@))
}

/// The command as the report names it.
pub fn clean_query(query: &str) -> (r: String)
    ensures
        r@ == clean_query_spec(query@),
{
    let t = str_trim_suffix(query, ".exe");
    to_lowercase(t.as_str())
}

/// The title the report gives a cleaned command.
pub open spec fn report_name(q: Seq<char>) -> Seq<char> {
    if q == "node"@ {
        "Node.js"@
    } else if q == "python"@ {
        "Python"@
    } else if q == "docker"@ {
        "Docker"@
    } else if q == "rustc"@ || q == "cargo"@ || q == "rustup"@ {
        "Rust"@
    } else if q == "java"@ || q == "javac"@ {
        "Java"@
    } else {
        q
    }
}

/// The title the report gives a cleaned command: the runtime's name for
/// node, python, docker, the Rust tools and the Java tools, else the command.
pub fn report_display_name(query_clean: &String) -> (r: String)
    ensures
        r@ == report_name(query_clean@),
{
    let q = query_clean;
    if *q == String::from_str("node") {
        String::from_str("Node.js")
    } else if *q == String::from_str("python") {
        String::from_str("Python")
    } else if *q == String::from_str("docker") {
        String::from_str("Docker")
    } else if *q == String::from_str("rustc") || *q == String::from_str("cargo") || *q == String::from_str("rustup") {
        String::from_str("Rust")
    } else if *q == String::from_str("java") || *q == String::from_str("javac") {
        String::from_str("Java")
    } else {
        q.clone()
    }
}

/// A line of the account of why a command resolves where it does.
#[derive(Clone, Debug)]
pub enum SearchLine {
    /// A directory looked at before the match, without the command.
    Skipped(String),
    /// Further directories without the command, not listed.
    Elided,
    /// The directory that holds the command, and the file found there.
    Match(String, String),
    /// No directory holds the command.
    NoneMatched,
}

/// A line as plain values: 0 skipped, 1 elided, 2 match, 3 none matched,
/// with the directory and the file where the line has them.
pub open spec fn line_view(l: SearchLine) -> (int, Seq<char>, Seq<char>) {
    match l {
        SearchLine::Skipped(d) => (0, d@, seq![]),
        SearchLine::Elided => (1, seq![], seq![]),
        SearchLine::Match(d, f) => (2, d@, f@),
        SearchLine::NoneMatched => (3, seq![], seq![]),
    }
}

pub open spec fn lines_view(ls: Seq<SearchLine>) -> Seq<(int, Seq<char>, Seq<char>)> {
    ls.map_values(|l: SearchLine| line_view(l))
}

/// The account of the directories `entries` (each with its matches), when
/// `shown` directories without the command have been listed already: the
/// first three such directories listed, a single elision line for the rest,
/// and the matching directory, which ends the account; or a closing line
/// when none matches.
pub open spec fn search_lines(entries: Seq<(Seq<char>, Seq<Seq<char>>)>, shown: nat) -> Seq<(int, Seq<char>, Seq<char>)>
    decreases entries.len(),
{
    if entries.len() == 0 {
        seq![(3, seq![], seq![])]
    } else {
        let e = entries[0];
        if e.1.len() > 0 {
            seq![(2, e.0, e.1[0])]
        } else if shown < 3 {
            seq![(0, e.0, seq![])] + search_lines(entries.drop_first(), shown + 1)
        } else if shown == 3 {
            seq![(1, seq![], seq![])] + search_lines(entries.drop_first(), shown + 1)
        } else {
            search_lines(entries.drop_first(), shown)
        }
    }
}

pub open spec fn entries_view(v: Seq<SearchOrderEntry>) -> Seq<(Seq<char>, Seq<Seq<char>>)> {
    v.map_values(|e: SearchOrderEntry| entry_view(e))
}

/// Why a command resolves where it does: the directories of the search
/// order up to the one that holds it, as `search_lines` says.
pub fn search_order_lines(order: &Vec<SearchOrderEntry>) -> (r: Vec<SearchLine>)
    ensures
        lines_view(r@) == search_lines(entries_view(order@), 0),
{
    let ghost ev = entries_view(order@);
    let mut r: Vec<SearchLine> = Vec::new();
    let mut shown: usize = 0;
    let mut i: usize = 0;
    proof {
        assert(ev.skip(0) == ev);
        assert(lines_view(r@) + search_lines(ev.skip(0), 0) =~= search_lines(ev, 0));
    }
    while i < order.len()
        invariant
            i <= order@.len(),
            shown <= 4,
            ev == entries_view(order@),
            lines_view(r@) + search_lines(ev.skip(i as int), shown as nat) == search_lines(ev, 0),
        decreases order@.len() - i,
    {
        let ghost rest = ev.skip(i as int);
        proof {
            assert(rest[0] == entry_view(order@[i as int]));
            assert(rest.drop_first() == ev.skip(i + 1));
        }
        let entry = &order[i];
        if entry.matches.len() > 0 {
            let ghost before = lines_view(r@);
            let line = SearchLine::Match(entry.dir.clone(), entry.matches[0].clone());
            r.push(line);
            proof {
                assert(strings_view(entry.matches@)[0] == entry.matches@[0]@);
                assert(lines_view(r@) =~= before.push(line_view(line)));
                assert(lines_view(r@) =~= before + search_lines(rest, shown as nat));
            }
            return r;
        }
        proof {
            assert(strings_view(entry.matches@).len() == 0);
        }
        if shown < 3 {
            let ghost before = lines_view(r@);
            let line = SearchLine::Skipped(entry.dir.clone());
            r.push(line);
            proof {
                assert(lines_view(r@) =~= before.push(line_view(line)));
                assert(lines_view(r@) + search_lines(ev.skip(i + 1), (shown + 1) as nat) =~= before + search_lines(
                    rest,
                    shown as nat,
                ));
            }
            shown += 1;
        } else if shown == 3 {
            let ghost before = lines_view(r@);
            r.push(SearchLine::Elided);
            proof {
                assert(lines_view(r@) =~= before.push((1, seq![], seq![])));
                assert(lines_view(r@) + search_lines(ev.skip(i + 1), (shown + 1) as nat) =~= before + search_lines(
                    rest,
                    shown as nat,
                ));
            }
            shown += 1;
        }
        i += 1;
    }
    let ghost before = lines_view(r@);
    r.push(SearchLine::NoneMatched);
    proof {
        assert(ev.skip(order@.len() as int) =~= Seq::<(Seq<char>, Seq<Seq<char>>)>::empty());
        assert(lines_view(r@) =~= before.push((3, seq![], seq![])));
    }
    r
}

/// How many PATH directories are the directory `parent`: each directory
/// compared as given (the caller passes each in canonical form where it has
/// one); none when the file has no parent.
pub open spec fn path_entry_count(parent: Option<Seq<char>>, dirs: Seq<Seq<char>>) -> nat
    decreases dirs.len(),
{
    match parent {
        None => 0,
        Some(p) => if dirs.len() == 0 {
            0
        } else {
            path_entry_count(parent, dirs.drop_last()) + if dirs.last() == p { 1nat } else { 0nat }
        },
    }
}

/// How many PATH directories point at the directory `parent` of a file.
pub fn count_path_entries(parent: &Option<String>, dirs: &Vec<String>) -> (r: usize)
    ensures
        r as nat == path_entry_count(
            match parent {
                Some(p) => Some(p@),
                None => None,
            },
            strings_view(dirs@),
        ),
{
    let ghost pv = match parent {
        Some(p) => Some(p@),
        None => None::<Seq<char>>,
    };
    let ghost dv = strings_view(dirs@);
    let p = match parent {
        Some(p) => p,
        None => return 0,
    };
    let mut count: usize = 0;
    let mut i: usize = 0;
    proof {
        assert(dv.take(0) =~= Seq::<Seq<char>>::empty());
    }
    while i < dirs.len()
        invariant
            i <= dirs@.len(),
            dv == strings_view(dirs@),
            pv == Some(p@),
            count <= i,
            count as nat == path_entry_count(pv, dv.take(i as int)),
        decreases dirs@.len() - i,
    {
        proof {
            assert(dv.take(i + 1).drop_last() == dv.take(i as int));
            assert(dv.take(i + 1).last() == dirs@[i as int]@);
        }
        if dirs[i] == *p {
            count += 1;
        }
        i += 1;
    }
    proof {
        assert(dv.take(dirs@.len() as int) == dv);
    }
    count
}

/// The tool that must come from the same installation as `query`: npm for
/// node, pip for python.
pub open spec fn companion_spec(query: Seq<char>) -> Option<Seq<char>> {
    if query == "node"@ {
        Some("npm"@)
    } else if query == "python"@ {
        Some("pip"@)
    } else {
        None
    }
}

/// The tool that must come from the same installation as `query`.
pub fn companion_of(query: &String) -> (r: Option<String>)
    ensures
        match r {
            Some(c) => companion_spec(query@) == Some(c@),
            None => companion_spec(query@) is None,
        },
{
    if *query == String::from_str("node") {
        Some(String::from_str("npm"))
    } else if *query == String::from_str("python") {
        Some(String::from_str("pip"))
    } else {
        None
    }
}

/// The conflicts the JSON report lists, each a JSON string: more than one
/// installation, and a companion tool (npm, pip) that lives elsewhere.
pub open spec fn json_conflicts_spec(query: Seq<char>, installations: nat, companion_shares_root: Option<bool>) -> Seq<Seq<char>> {
    let multiple = if installations > 1 {
        seq!["\"Multiple "@ + query + " installations detected\""@]
    } else {
        seq![]
    };
    match (companion_spec(query), companion_shares_root) {
        (Some(c), Some(false)) => multiple.push("\""@ + c + " resolves to a different installation than "@ + query + "\""@),
        _ => multiple,
    }
}

/// The conflicts of the JSON report. `companion_shares_root` tells, when the
/// companion tool of `query` was found, whether it shares the installation
/// root of the active executable.
pub fn json_conflicts(query: &String, installations: usize, companion_shares_root: Option<bool>) -> (r: Vec<String>)
    ensures
        strings_view(r@) == json_conflicts_spec(query@, installations as nat, companion_shares_root),
{
    let mut r: Vec<String> = Vec::new();
    if installations > 1 {
        let mut m = String::from_str("\"Multiple ");
        m.append(query.as_str());
        m.append(" installations detected\"");
        r.push(m);
    }
    let ghost before = strings_view(r@);
    proof {
        assert(before =~= if installations > 1 {
            seq!["\"Multiple "@ + query@ + " installations detected\""@]
        } else {
            Seq::<Seq<char>>::empty()
        });
    }
    match (companion_of(query), companion_shares_root) {
        (Some(c), Some(false)) => {
            let mut m = String::from_str("\"");
            m.append(c.as_str());
            m.append(" resolves to a different installation than ");
            m.append(query.as_str());
            m.append("\"");
            r.push(m);
            proof {
                assert(strings_view(r@) =~= before.push(m@));
            }
        },
        _ => {},
    }
    r
}

/// `s` with every backslash doubled, as a JSON string needs it.
pub open spec fn escape_backslashes_spec(s: Seq<char>) -> Seq<char>
    decreases s.len(),
{
    if s.len() == 0 {
        seq![]
    } else {
        let rest = escape_backslashes_spec(s.drop_last());
        if s.last() == '\\' { rest + seq!['\\', '\\'] } else { rest.push(s.last()) }
    }
}

/// Doubles every backslash of `s`.
pub fn escape_backslashes(s: &str) -> (r: String)
    ensures
        r@ == escape_backslashes_spec(s@),
{
    let cs = chars_of(s);
    let mut out: Vec<char> = Vec::new();
    let mut i: usize = 0;
    proof {
        assert(cs@.take(0) =~= Seq::<char>::empty());
    }
    while i < cs.len()
        invariant
            i <= cs@.len(),
            cs@ == s@,
            out@ == escape_backslashes_spec(cs@.take(i as int)),
        decreases cs@.len() - i,
    {
        proof {
            assert(cs@.take(i + 1).drop_last() == cs@.take(i as int));
            assert(cs@.take(i + 1).last() == cs@[i as int]);
        }
        if cs[i] == '\\' {
            out.push('\\');
            out.push('\\');
        } else {
            out.push(cs[i]);
        }
        i += 1;
    }
    proof {
        assert(cs@.take(cs@.len() as int) == cs@);
    }
    string_of(&out)
}

} // verus!
