use vstd::prelude::*;
use crate::text::{alphanumeric, chars_of, char_is_alphanumeric, char_is_whitespace, is_ascii_digit, is_whitespace_char, string_of_range};

verus! {

/// A character kept at the ends of a word when it is cleaned.
pub open spec fn keeps(c: char) -> bool {
    alphanumeric(c) || c == '.'
}

/// `w` without the leading characters that are neither alphanumeric nor '.'.
pub open spec fn strip_front(w: Seq<char>) -> Seq<char>
    decreases w.len(),
{
    if w.len() > 0 && !keeps(w[0]) {
        strip_front(w.drop_first())
    } else {
        w
    }
}

/// `w` without the trailing characters that are neither alphanumeric nor '.'.
pub open spec fn strip_back(w: Seq<char>) -> Seq<char>
    decreases w.len(),
{
    if w.len() > 0 && !keeps(w.last()) {
        strip_back(w.drop_last())
    } else {
        w
    }
}

/// A word trimmed of punctuation at both ends.
pub open spec fn clean(w: Seq<char>) -> Seq<char> {
    strip_back(strip_front(w))
}

pub open spec fn count_char(s: Seq<char>, c: char) -> nat
    decreases s.len(),
{
    if s.len() == 0 {
        0
    } else {
        count_char(s.drop_last(), c) + if s.last() == c { 1nat } else { 0nat }
    }
}

/// A cleaned word that reads as a version: it starts with a digit, or with 'v'
/// and a digit, and holds at least one '.'.
pub open spec fn looks_like_version(c: Seq<char>) -> bool {
    &&& c.len() > 0
    &&& is_ascii_digit(c[0]) || (c[0] == 'v' && c.len() > 1 && is_ascii_digit(c[1]))
    &&& count_char(c, '.') >= 1
}

/// The version a finished word yields, if any.
pub open spec fn word_version(w: Seq<char>) -> Option<Seq<char>> {
    if looks_like_version(clean(w)) {
        Some(clean(w))
    } else {
        None
    }
}

/// The first version among the whitespace-separated words of `s`, where
/// `cur` is the part of a word already read.
pub open spec fn scan_version(s: Seq<char>, cur: Seq<char>) -> Option<Seq<char>>
    decreases s.len(),
{
    if s.len() == 0 {
        word_version(cur)
    } else if is_whitespace_char(s[0]) {
        match word_version(cur) {
            Some(v) => Some(v),
            None => scan_version(s.drop_first(), seq![]),
        }
    } else {
        scan_version(s.drop_first(), cur.push(s[0]))
    }
}

/// The version a text states: the first whitespace-separated word that, with
/// punctuation trimmed from its ends, reads as a version.
pub open spec fn version_in_text(text: Seq<char>) -> Option<Seq<char>> {
    scan_version(text, seq![])
}

/// The positions `[a, b)` of `w[from..to]` that remain once punctuation is
/// trimmed from both ends.
fn clean_bounds(w: &Vec<char>, from: usize, to: usize) -> (r: (usize, usize))
    requires
        from <= to <= w@.len(),
    ensures
        from <= r.0 <= r.1 <= to,
        w@.subrange(r.0 as int, r.1 as int) == clean(w@.subrange(from as int, to as int)),
{
    let mut a = from;
    while a < to
        invariant
            from <= a <= to <= w@.len(),
            strip_front(w@.subrange(from as int, to as int)) == strip_front(w@.subrange(a as int, to as int)),
        ensures
            from <= a <= to <= w@.len(),
            strip_front(w@.subrange(from as int, to as int)) == strip_front(w@.subrange(a as int, to as int)),
            a < to ==> keeps(w@[a as int]),
        decreases to - a,
    {
        let k = char_is_alphanumeric(w[a]);
        if k || w[a] == '.' {
            break;
        }
        proof {
            assert(w@.subrange(a as int, to as int).drop_first() == w@.subrange(a + 1, to as int));
        }
        a += 1;
    }
    let ghost front = w@.subrange(a as int, to as int);
    proof {
        assert(strip_front(front) == front);
    }
    let mut b = to;
    while b > a
        invariant
            from <= a <= b <= to <= w@.len(),
            front == w@.subrange(a as int, to as int),
            strip_back(front) == strip_back(w@.subrange(a as int, b as int)),
        ensures
            from <= a <= b <= to <= w@.len(),
            strip_back(front) == strip_back(w@.subrange(a as int, b as int)),
            b > a ==> keeps(w@[b - 1]),
        decreases b,
    {
        let k = char_is_alphanumeric(w[b - 1]);
        if k || w[b - 1] == '.' {
            break;
        }
        proof {
            assert(w@.subrange(a as int, b as int).drop_last() == w@.subrange(a as int, b - 1));
        }
        b -= 1;
    }
    proof {
        let t = w@.subrange(a as int, b as int);
        assert(strip_back(t) == t);
    }
    (a, b)
}

/// The version a finished word `w[from..to]` yields, if any.
fn word_version_exec(w: &Vec<char>, from: usize, to: usize) -> (r: Option<String>)
    requires
        from <= to <= w@.len(),
    ensures
        r matches Some(v) ==> word_version(w@.subrange(from as int, to as int)) == Some(v@),
        r is None ==> word_version(w@.subrange(from as int, to as int)) is None,
{
    let (a, b) = clean_bounds(w, from, to);
    let ghost c = w@.subrange(a as int, b as int);
    if a == b {
        return None;
    }
    let first = w[a];
    let starts = (first >= '0' && first <= '9') || (first == 'v' && b - a > 1 && w[a + 1] >= '0' && w[a + 1] <= '9');
    if !starts {
        return None;
    }
    let mut dots: usize = 0;
    let mut i = a;
    while i < b
        invariant
            a <= i <= b <= w@.len(),
            dots == count_char(w@.subrange(a as int, i as int), '.'),
            dots <= i - a,
        decreases b - i,
    {
        proof {
            assert(w@.subrange(a as int, i + 1).drop_last() == w@.subrange(a as int, i as int));
        }
        if w[i] == '.' {
            dots += 1;
        }
        i += 1;
    }
    if dots >= 1 {
        Some(string_of_range(w, a, b))
    } else {
        None
    }
}

/// Finds the first word of `text` that reads as a version, as in
/// "node v22.1.0" or "Python 3.12.4".
pub fn extract_version_from_text(text: &str) -> (r: Option<String>)
    ensures
        r matches Some(v) ==> version_in_text(text@) == Some(v@),
        r is None ==> version_in_text(text@) is None,
{
    let cs = chars_of(text);
    let n = cs.len();
    let mut start: usize = 0;
    let mut i: usize = 0;
    proof {
        assert(cs@.skip(0) == cs@);
        assert(cs@.subrange(0, 0) =~= Seq::<char>::empty());
    }
    while i < n
        invariant
            n == cs@.len(),
            start <= i <= n,
            cs@ == text@,
            version_in_text(text@) == scan_version(cs@.skip(i as int), cs@.subrange(start as int, i as int)),
        decreases n - i,
    {
        let ghost rest = cs@.skip(i as int);
        proof {
            assert(rest[0] == cs@[i as int]);
            assert(rest.drop_first() == cs@.skip(i + 1));
        }
        if char_is_whitespace(cs[i]) {
            let v = word_version_exec(&cs, start, i);
            if v.is_some() {
                return v;
            }
            proof {
                assert(cs@.subrange(i + 1, i + 1) =~= Seq::<char>::empty());
            }
            start = i + 1;
        } else {
            proof {
                assert(cs@.subrange(start as int, i + 1) == cs@.subrange(start as int, i as int).push(cs@[i as int]));
            }
        }
        i += 1;
    }
    proof {
        assert(cs@.skip(n as int) =~= Seq::<char>::empty());
    }
    word_version_exec(&cs, start, n)
}

/// The version a successful run of a program reports: read from its standard
/// output first, then from its standard error.
pub open spec fn version_from_run(success: bool, stdout: Seq<char>, stderr: Seq<char>) -> Option<Seq<char>> {
    if !success {
        None
    } else if version_in_text(stdout) is Some {
        version_in_text(stdout)
    } else {
        version_in_text(stderr)
    }
}

/// The version found in the output of one run of `program <flag>`; none when
/// the run failed.
pub fn version_from_output(success: bool, stdout: &str, stderr: &str) -> (r: Option<String>)
    ensures
        r matches Some(v) ==> version_from_run(success, stdout@, stderr@) == Some(v@),
        r is None ==> version_from_run(success, stdout@, stderr@) is None,
{
    if !success {
        return None;
    }
    if let Some(v) = extract_version_from_text(stdout) {
        return Some(v);
    }
    extract_version_from_text(stderr)
}

/// The flags tried, in order, to ask a program for its version.
pub fn version_flags() -> (r: Vec<&'static str>)
    ensures
        r@.len() == 3,
        r@[0]@ == "--version"@,
        r@[1]@ == "-v"@,
        r@[2]@ == "-V"@,
{
    let mut r = Vec::new();
    r.push("--version");
    r.push("-v");
    r.push("-V");
    r
}

/// The version a program reports, given what each run with the flags of
/// `version_flags` produced, in order (`None` where the program could not be
/// run): the first run that yields a version.
pub open spec fn first_reported_version(runs: Seq<Option<(bool, String, String)>>) -> Option<Seq<char>>
    decreases runs.len(),
{
    if runs.len() == 0 {
        None
    } else {
        match runs[0] {
            Some((ok, out, err)) if version_from_run(ok, out@, err@) is Some => version_from_run(ok, out@, err@),
            _ => first_reported_version(runs.drop_first()),
        }
    }
}

/// Picks the reported version from the runs of a program with each version
/// flag, in order: the first run that yields one.
pub fn query_version(runs: &Vec<Option<(bool, String, String)>>) -> (r: Option<String>)
    ensures
        r matches Some(v) ==> first_reported_version(runs@) == Some(v@),
        r is None ==> first_reported_version(runs@) is None,
{
    let n = runs.len();
    let mut i: usize = 0;
    proof {
        assert(runs@.skip(0) == runs@);
    }
    while i < n
        invariant
            n == runs@.len(),
            i <= n,
            first_reported_version(runs@) == first_reported_version(runs@.skip(i as int)),
        decreases n - i,
    {
        proof {
            assert(runs@.skip(i as int)[0] == runs@[i as int]);
            assert(runs@.skip(i as int).drop_first() == runs@.skip(i + 1));
        }
        match &runs[i] {
            Some((ok, out, err)) => {
                if let Some(v) = version_from_output(*ok, out.as_str(), err.as_str()) {
                    return Some(v);
                }
            },
            None => {},
        }
        i += 1;
    }
    proof {
        assert(runs@.skip(n as int) =~= Seq::<Option<(bool, String, String)>>::empty());
    }
    None
}


proof fn lemma_scan_version_looks(s: Seq<char>, cur: Seq<char>)
    ensures
        scan_version(s, cur) matches Some(v) ==> looks_like_version(v),
    decreases s.len(),
{
    if s.len() > 0 {
        lemma_scan_version_looks(s.drop_first(), seq![]);
        lemma_scan_version_looks(s.drop_first(), cur.push(s[0]));
    }
}

/// Whatever version is read from a text reads as a version: it starts with a
/// digit, or with 'v' and a digit, and holds a '.'.
pub proof fn lemma_found_version_looks_like_version(text: Seq<char>)
    ensures
        version_in_text(text) matches Some(v) ==> looks_like_version(v),
{
    lemma_scan_version_looks(text, seq![]);
}

} // verus!

verus! {

/// The `k`-th flag of `version_flags`.
pub open spec fn version_flag(k: int) -> Seq<char> {
    if k == 0 { "--version"@ } else if k == 1 { "-v"@ } else { "-V"@ }
}

/// The flag to run a program with next while asking it for its version,
/// given the runs so far (one per flag of `version_flags`, in order): none
/// once a run has yielded a version or every flag has been tried.
pub fn next_version_flag(runs: &Vec<Option<(bool, String, String)>>) -> (r: Option<&'static str>)
    ensures
        runs@.len() >= 3 || first_reported_version(runs@) is Some ==> r is None,
        runs@.len() < 3 && first_reported_version(runs@) is None ==> (r matches Some(f) && f@ == version_flag(
            runs@.len() as int,
        )),
{
    if runs.len() >= 3 {
        return None;
    }
    match query_version(runs) {
        Some(_) => None,
        None => {
            let flags = version_flags();
            Some(flags[runs.len()])
        },
    }
}

} // verus!
