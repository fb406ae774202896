use vstd::prelude::*;
use vstd::string::StringExecFns;
use crate::text::{concat, lowercase, split_at_char, split_char, strings_view, to_lowercase, to_uppercase, uppercase};

verus! {

/// One match for a command on PATH: the file found, the file it stands for
/// (the target of a Scoop shim, or the file itself), and whether it was a shim.
#[derive(Clone, Debug)]
pub struct PathSearchResult {
    pub original_path: String,
    pub resolved_path: String,
    pub is_shim: bool,
}

/// One PATH directory, in search order, with the matches found in it.
#[derive(Clone, Debug)]
pub struct SearchOrderEntry {
    pub dir: String,
    pub matches: Vec<String>,
}

/// A relative path of one component, written without a separator or a
/// drive prefix: non-empty, with no '/', '\\' or ':'. Such a path reads the
/// same on every platform.
pub open spec fn single_component(s: Seq<char>) -> bool {
    &&& s.len() > 0
    &&& forall|i: int| 0 <= i < s.len() ==> #[trigger] s[i] != '/' && s[i] != '\\' && s[i] != ':'
}

/// The position of the last `c` in `s`.
pub open spec fn last_index_of(s: Seq<char>, c: char) -> Option<int>
    decreases s.len(),
{
    if s.len() == 0 {
        None
    } else if s.last() == c {
        Some(s.len() - 1)
    } else {
        last_index_of(s.drop_last(), c)
    }
}

/// The extension of a file name, as `Path::extension` documents it: none
/// without an embedded '.', none when the name begins with '.' and has no
/// other '.', else the text after the final '.'.
pub open spec fn dot_extension(name: Seq<char>) -> Option<Seq<char>> {
    match last_index_of(name, '.') {
        None => None,
        Some(k) => if k == 0 {
            None
        } else {
            Some(name.skip(k + 1))
        },
    }
}

/// A path that every platform splits at '/' alone: it holds no '\\' and no
/// ':' (so no drive prefix) and does not begin with "//" (so no network
/// share prefix).
pub open spec fn slash_path(s: Seq<char>) -> bool {
    &&& forall|i: int| 0 <= i < s.len() ==> #[trigger] s[i] != '\\' && s[i] != ':'
    &&& !(s.len() >= 2 && s[0] == '/' && s[1] == '/')
}

/// The names of a '/'-separated path in order, as `Path::components`
/// documents them: the pieces between separators, where repeated and
/// trailing separators give no name and "." pieces are normalized away.
pub open spec fn slash_names(s: Seq<char>) -> Seq<Seq<char>> {
    split_char(s, '/').filter(|p: Seq<char>| p.len() > 0 && p != "."@)
}

/// The file name of a '/'-separated path, as `Path::file_name` documents
/// it: the final component when that is a name; none when the path has no
/// named component (the empty path, "/", ".") or ends in "..".
pub open spec fn slash_file_name(s: Seq<char>) -> Option<Seq<char>> {
    let names = slash_names(s);
    if names.len() == 0 || names.last() == ".."@ {
        None
    } else {
        Some(names.last())
    }
}

/// What `Path::file_name` gives for `path`, as far as it is the same on
/// every platform: none for the empty path and "..", the path itself for a
/// relative path of one component other than "." and "..", and the rule of
/// `slash_file_name` for a path split at '/' alone.
pub open spec fn file_name_fits(path: Seq<char>, name: Option<Seq<char>>) -> bool {
    &&& path.len() == 0 || path == ".."@ ==> name == None::<Seq<char>>
    &&& single_component(path) && path != "."@ && path != ".."@ ==> name == Some(path)
    &&& slash_path(path) ==> name == slash_file_name(path)
}

pub open spec fn opt_text(o: Option<String>) -> Option<Seq<char>> {
    match o {
        Some(s) => Some(s@),
        None => None,
    }
}

/// Calls `Path::parent`. How a path splits depends on the separators of the
/// platform the program runs on; what is stated is what the documentation
/// gives on every platform: the empty path has no parent, and a relative
/// path of one component has the empty path as its parent. Other paths are
/// not described.
#[verifier::external_body]
pub(crate) fn path_parent(path: &str) -> (r: Option<String>)
    ensures
        path@.len() == 0 ==> opt_text(r) == None::<Seq<char>>,
        single_component(path@) ==> opt_text(r) == Some(Seq::<char>::empty()),
{
    std::path::Path::new(path).parent().map(|p| p.to_string_lossy().to_string())
}

/// Calls `Path::file_name`. The final component of a path depends on the
/// separators of the platform the program runs on; what is stated
/// (`file_name_fits`) is what the documentation gives on every platform:
/// the empty path and ".." have no file name, a relative path of one
/// component other than "." and ".." is its own file name, and a path split
/// at '/' alone has its final named component, if any, as file name. Paths
/// with '\\', ':' or a leading "//" are not described.
#[verifier::external_body]
pub(crate) fn path_file_name(path: &str) -> (r: Option<String>)
    ensures
        path@.len() == 0 || path@ == ".."@ ==> opt_text(r) == None::<Seq<char>>,
        single_component(path@) && path@ != "."@ && path@ != ".."@ ==> opt_text(r) == Some(path@),
        file_name_fits(path@, opt_text(r)),
{
    std::path::Path::new(path).file_name().map(|n| n.to_string_lossy().to_string())
}

/// Calls `Path::components`, each component as text. How a path splits
/// depends on the separators of the platform the program runs on; what is
/// stated is what holds on every platform: the empty path has no
/// components. Other paths are not described.
#[verifier::external_body]
pub(crate) fn path_components(path: &str) -> (r: Vec<String>)
    ensures
        path@.len() == 0 ==> r@.len() == 0,
{
    std::path::Path::new(path).components().map(|c| c.as_os_str().to_string_lossy().to_string()).collect()
}

/// Calls `Path::extension`. The extension is taken from the file name,
/// which depends on the platform's separators; what is stated is the
/// documented rule for a relative path of one component other than "." and
/// "..", which is its own file name, and for a path split at '/' alone,
/// whose file name is `slash_file_name`. Other paths are not described.
#[verifier::external_body]
pub(crate) fn path_extension(path: &str) -> (r: Option<String>)
    ensures
        single_component(path@) && path@ != "."@ && path@ != ".."@ ==> opt_text(r) == dot_extension(path@),
        slash_path(path@) ==> opt_text(r) == match slash_file_name(path@) {
            Some(name) => dot_extension(name),
            None => None,
        },
{
    std::path::Path::new(path).extension().map(|e| e.to_string_lossy().to_string())
}


// ---------------------------------------------------------------------------
// Searching PATH.
// ---------------------------------------------------------------------------

pub open spec fn result_view(r: PathSearchResult) -> (Seq<char>, Seq<char>, bool) {
    (r.original_path@, r.resolved_path@, r.is_shim)
}

pub open spec fn entry_view(e: SearchOrderEntry) -> (Seq<char>, Seq<Seq<char>>) {
    (e.dir@, strings_view(e.matches@))
}

/// The extensions PATHEXT lists, upper-cased: the variable's value split at
/// ';', or ".EXE;.CMD;.BAT;.COM" when it is not set.
pub open spec fn pathext_list(pathext: Option<Seq<char>>) -> Seq<Seq<char>> {
    let text = match pathext {
        Some(t) => t,
        None => ".EXE;.CMD;.BAT;.COM"@,
    };
    split_char(text, ';').map_values(|e: Seq<char>| uppercase(e))
}

/// The extensions to try after a command's bare name, from the value of
/// PATHEXT (`None` when it is not set).
pub fn path_extensions(pathext: &Option<String>) -> (r: Vec<String>)
    ensures
        strings_view(r@) == pathext_list(
            match pathext {
                Some(t) => Some(t@),
                None => None,
            },
        ),
{
    let parts = match pathext {
        Some(t) => split_at_char(t.as_str(), ';'),
        None => split_at_char(".EXE;.CMD;.BAT;.COM", ';'),
    };
    let ghost pv = strings_view(parts@);
    let mut r: Vec<String> = Vec::new();
    let mut i: usize = 0;
    while i < parts.len()
        invariant
            i <= parts@.len(),
            pv == strings_view(parts@),
            strings_view(r@) =~= pv.take(i as int).map_values(|e: Seq<char>| uppercase(e)),
        decreases parts@.len() - i,
    {
        let ghost before = strings_view(r@);
        let up = to_uppercase(parts[i].as_str());
        r.push(up);
        proof {
            assert(strings_view(r@) =~= before.push(up@));
            assert(pv.take(i + 1) =~= pv.take(i as int).push(pv[i as int]));
        }
        i += 1;
    }
    proof {
        assert(pv.take(parts@.len() as int) == pv);
    }
    r
}

/// The names to look for after the bare name: for each extension, the
/// name with the extension in lower case, then as written.
pub open spec fn ext_candidates(query: Seq<char>, exts: Seq<Seq<char>>) -> Seq<Seq<char>>
    decreases exts.len(),
{
    if exts.len() == 0 {
        seq![]
    } else {
        ext_candidates(query, exts.drop_last()) + seq![query + lowercase(exts.last()), query + exts.last()]
    }
}

/// The file names a command may have in a PATH directory, in the order they
/// are tried: the bare name first, then the name with each extension.
pub open spec fn candidate_names_spec(query: Seq<char>, exts: Seq<Seq<char>>) -> Seq<Seq<char>> {
    seq![query] + ext_candidates(query, exts)
}

/// The file names a command may have in a PATH directory, in the order they
/// are tried; the first that is a file is the directory's match.
pub fn candidate_names(query: &str, extensions: &Vec<String>) -> (r: Vec<String>)
    ensures
        strings_view(r@) == candidate_names_spec(query@, strings_view(extensions@)),
{
    let ghost ev = strings_view(extensions@);
    let mut r: Vec<String> = Vec::new();
    r.push(String::from_str(query));
    let mut i: usize = 0;
    proof {
        assert(ev.take(0) =~= Seq::<Seq<char>>::empty());
        assert(strings_view(r@) =~= candidate_names_spec(query@, ev.take(0)));
    }
    while i < extensions.len()
        invariant
            i <= extensions@.len(),
            ev == strings_view(extensions@),
            strings_view(r@) == candidate_names_spec(query@, ev.take(i as int)),
        decreases extensions@.len() - i,
    {
        let ghost before = strings_view(r@);
        let lower = to_lowercase(extensions[i].as_str());
        let a = concat(query, lower.as_str());
        let b = concat(query, extensions[i].as_str());
        r.push(a);
        r.push(b);
        proof {
            assert(ev.take(i + 1).drop_last() == ev.take(i as int));
            assert(ev.take(i + 1).last() == extensions@[i as int]@);
            assert(strings_view(r@) =~= before + seq![a@, b@]);
            assert(candidate_names_spec(query@, ev.take(i + 1)) =~= candidate_names_spec(query@, ev.take(i as int))
                + seq![a@, b@]);
        }
        i += 1;
    }
    proof {
        assert(ev.take(extensions@.len() as int) == ev);
    }
    r
}

/// Whether some result already resolves to `resolved`.
pub open spec fn resolves_to(results: Seq<PathSearchResult>, resolved: Seq<char>) -> bool {
    exists|i: int| 0 <= i < results.len() && #[trigger] results[i].resolved_path@ == resolved
}

/// No two results resolve to the same file.
pub open spec fn resolved_distinct(results: Seq<PathSearchResult>) -> bool {
    forall|i: int, j: int|
        0 <= i < j < results.len() ==> #[trigger] results[i].resolved_path@ != #[trigger] results[j].resolved_path@
}

/// The matches of a PATH search so far, and the directories looked at.
#[derive(Clone, Debug)]
pub struct PathSearch {
    /// One result per file found, first found first, no two resolving to
    /// the same file.
    pub results: Vec<PathSearchResult>,
    /// Every directory looked at, in PATH order, with its matches.
    pub search_order: Vec<SearchOrderEntry>,
}

impl PathSearch {
    pub open spec fn wf(&self) -> bool {
        resolved_distinct(self.results@)
    }

    /// A search that has looked at nothing yet.
    pub fn new() -> (s: Self)
        ensures
            s.wf(),
            s.results@.len() == 0,
            s.search_order@.len() == 0,
    {
        PathSearch { results: Vec::new(), search_order: Vec::new() }
    }

    /// Records the next PATH directory. `found` is the file of the command
    /// found in it, if any, with the target its Scoop shim names when it is
    /// one. The directory joins the search order; the file joins the results
    /// unless a result already resolves to the same file.
    pub fn visit(&mut self, dir: String, found: Option<(String, Option<String>)>)
        requires
            old(self).wf(),
        ensures
            final(self).wf(),
            final(self).search_order@.len() == old(self).search_order@.len() + 1,
            final(self).search_order@.drop_last() == old(self).search_order@,
            entry_view(final(self).search_order@.last()) == (
                dir@,
                match found {
                    Some(f) => seq![f.0@],
                    None => Seq::<Seq<char>>::empty(),
                },
            ),
            match found {
                None => final(self).results@ == old(self).results@,
                Some(f) => {
                    let resolved = match f.1 {
                        Some(t) => t@,
                        None => f.0@,
                    };
                    if resolves_to(old(self).results@, resolved) {
                        final(self).results@ == old(self).results@
                    } else {
                        &&& final(self).results@.len() == old(self).results@.len() + 1
                        &&& final(self).results@.drop_last() == old(self).results@
                        &&& result_view(final(self).results@.last()) == (f.0@, resolved, f.1 is Some)
                    }
                },
            },
    {
        let ghost found_g = found;
        let mut matches: Vec<String> = Vec::new();
        match found {
            None => {},
            Some(f) => {
                let (original, target) = f;
                matches.push(original.clone());
                let is_shim = target.is_some();
                let resolved = match target {
                    Some(t) => t,
                    None => original.clone(),
                };
                let mut seen = false;
                let mut i: usize = 0;
                while i < self.results.len()
                    invariant
                        i <= self.results@.len(),
                        !seen ==> forall|j: int| 0 <= j < i ==> #[trigger] self.results@[j].resolved_path@ != resolved@,
                        seen ==> resolves_to(self.results@, resolved@),
                    decreases self.results@.len() - i,
                {
                    if self.results[i].resolved_path == resolved {
                        seen = true;
                    }
                    i += 1;
                }
                if !seen {
                    let ghost old_results = self.results@;
                    assert(old_results == old(self).results@);
                    self.results.push(PathSearchResult { original_path: original, resolved_path: resolved, is_shim });
                    proof {
                        assert forall|a: int, b: int| 0 <= a < b < self.results@.len() implies #[trigger] self.results@[a].resolved_path@
                            != #[trigger] self.results@[b].resolved_path@ by {
                            if b == old_results.len() {
                                assert(self.results@[a] == old_results[a]);
                                assert(self.results@[b].resolved_path@ == resolved@);
                                assert(old_results[a].resolved_path@ != resolved@);
                            } else {
                                assert(self.results@[a] == old_results[a]);
                                assert(self.results@[b] == old_results[b]);
                                assert(old_results[a].resolved_path@ != old_results[b].resolved_path@);
                            }
                        }
                    }
                }
            },
        }
        let ghost mv = strings_view(matches@);
        self.search_order.push(SearchOrderEntry { dir, matches });
        proof {
            match found_g {
                Some(f) => {
                    assert(mv =~= seq![f.0@]);
                },
                None => {
                    assert(mv =~= Seq::<Seq<char>>::empty());
                },
            }
        }
    }
}

} // verus!
