use vstd::prelude::*;
use crate::resolver::path::{dot_extension, path_extension, single_component, slash_file_name, slash_path};
use crate::text::{
    find_char, index_of, lines, lines_of, lowercase, starts_with, str_starts_with, str_trim, str_trim_prefix,
    str_trim_suffix, string_of_range, chars_of, strings_view, to_lowercase, trim_prefix, trim_suffix, trim_ws,
};

verus! {

/// Whether a file extension is `exe`, in any case.
pub open spec fn exe_extension(ext: Option<Seq<char>>) -> bool {
    match ext {
        Some(e) => lowercase(e) == "exe"@,
        None => false,
    }
}

/// Whether the extension `ext` is `exe`, in any case.
pub fn is_exe_extension(ext: &Option<String>) -> (r: bool)
    ensures
        r == exe_extension(
            match ext {
                Some(e) => Some(e@),
                None => None,
            },
        ),
{
    match ext {
        Some(e) => to_lowercase(e.as_str()) == String::from_str("exe"),
        None => false,
    }
}

/// Whether `path` is a Scoop shim: an `.exe` with a `.shim` file beside it
/// (`shim_file_exists` says whether that file exists). The extension comes
/// from `Path::extension`, whose result depends on the platform's path
/// separators: no shim is seen without the `.shim` file; for a path of one
/// component the answer is whether its extension is `exe`, and for a path
/// split at '/' alone whether the extension of its file name is `exe`.
pub fn is_scoop_shim(path: &str, shim_file_exists: bool) -> (r: bool)
    ensures
        r ==> shim_file_exists,
        single_component(path@) && path@ != "."@ && path@ != ".."@ ==> r == (shim_file_exists && exe_extension(
            dot_extension(path@),
        )),
        slash_path(path@) ==> r == (shim_file_exists && exe_extension(
            match slash_file_name(path@) {
                Some(name) => dot_extension(name),
                None => None,
            },
        )),
{
    if !shim_file_exists {
        return false;
    }
    let ext = path_extension(path);
    is_exe_extension(&ext)
}

/// The target a line of a `.shim` file names, if it is a `path = "..."`
/// line: the line trimmed begins with `path`, and the target is what
/// follows the first '=', trimmed and without surrounding quotes.
pub open spec fn shim_line_target(line: Seq<char>) -> Option<Seq<char>> {
    let t = trim_ws(line);
    if starts_with(t, "path"@) {
        match index_of(t, '=') {
            Some(k) => Some(trim_suffix(trim_prefix(trim_ws(t.skip(k + 1)), "\""@), "\""@)),
            None => None,
        }
    } else {
        None
    }
}

/// The targets the lines `ls` name, in order.
pub open spec fn shim_targets(ls: Seq<Seq<char>>) -> Seq<Seq<char>>
    decreases ls.len(),
{
    if ls.len() == 0 {
        seq![]
    } else {
        let rest = shim_targets(ls.drop_last());
        match shim_line_target(ls.last()) {
            Some(t) => rest.push(t),
            None => rest,
        }
    }
}

fn line_target(line: &str) -> (r: Option<String>)
    ensures
        match shim_line_target(line@) {
            Some(t) => r matches Some(v) && v@ == t,
            None => r is None,
        },
{
    let t = str_trim(line);
    if !str_starts_with(t.as_str(), "path") {
        return None;
    }
    match find_char(t.as_str(), '=') {
        Some(k) => {
            let cs = chars_of(t.as_str());
            proof {
                crate::text::lemma_index_of(t@, '=');
                assert(k < cs@.len());
            }
            let after = string_of_range(&cs, k + 1, cs.len());
            proof {
                assert(after@ == t@.skip(k + 1));
            }
            let value = str_trim(after.as_str());
            let unquoted = str_trim_prefix(value.as_str(), "\"");
            Some(str_trim_suffix(unquoted.as_str(), "\""))
        },
        None => None,
    }
}

/// The targets a Scoop `.shim` file names, in order: for each line that,
/// trimmed, begins with `path` and holds a '=', the text after the first
/// '=', trimmed and without surrounding quotes. The shim stands for the
/// first of them that is a file.
pub fn shim_candidates(content: &str) -> (r: Vec<String>)
    ensures
        strings_view(r@) == shim_targets(lines(content@)),
{
    let ls = lines_of(content);
    let ghost lv = lines(content@);
    let mut r: Vec<String> = Vec::new();
    let mut i: usize = 0;
    proof {
        assert(lv.take(0) =~= Seq::<Seq<char>>::empty());
    }
    while i < ls.len()
        invariant
            i <= ls@.len(),
            strings_view(ls@) == lv,
            strings_view(r@) == shim_targets(lv.take(i as int)),
        decreases ls@.len() - i,
    {
        proof {
            assert(lv.take(i + 1).drop_last() == lv.take(i as int));
            assert(lv.take(i + 1).last() == ls@[i as int]@);
        }
        match line_target(ls[i].as_str()) {
            Some(t) => {
                let ghost before = strings_view(r@);
                r.push(t);
                proof {
                    assert(strings_view(r@) =~= before.push(t@));
                }
            },
            None => {},
        }
        i += 1;
    }
    proof {
        assert(lv.take(ls@.len() as int) == lv);
    }
    r
}

} // verus!
