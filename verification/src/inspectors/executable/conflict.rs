use vstd::prelude::*;
use vstd::string::StringExecFns;
use crate::resolver::path::{opt_text, path_components, path_parent, single_component};
use crate::text::{contains, lowercase, str_contains, strings_view, to_lowercase};

verus! {

/// A directory given by its components, or no directory at all.
pub open spec fn dir_view(d: Option<Vec<String>>) -> Option<Seq<Seq<char>>> {
    match d {
        Some(parts) => Some(strings_view(parts@)),
        None => None,
    }
}

/// Two optional directories are equal when both are absent, or both are
/// present with the same components.
pub open spec fn opt_eq(a: Option<Vec<String>>, b: Option<Vec<String>>) -> bool {
    dir_view(a) == dir_view(b)
}

/// Two files share an installation root when their directories (`pa`, `pb`)
/// are the same, or one directory's parent (`gpa`, `gpb`) is the other
/// directory, or both directories have the same parent. Directories are
/// compared component by component.
pub open spec fn roots_related(
    pa: Option<Vec<String>>,
    gpa: Option<Vec<String>>,
    pb: Option<Vec<String>>,
    gpb: Option<Vec<String>>,
) -> bool {
    &&& pa is Some
    &&& pb is Some
    &&& {
        ||| opt_eq(pa, pb)
        ||| gpa is Some && (opt_eq(gpa, pb) || opt_eq(gpa, gpb))
        ||| gpb is Some && (opt_eq(gpb, pa) || opt_eq(gpb, gpa))
    }
}

fn same_parts(a: &Vec<String>, b: &Vec<String>) -> (r: bool)
    ensures
        r == (strings_view(a@) == strings_view(b@)),
{
    if a.len() != b.len() {
        assert(strings_view(a@).len() != strings_view(b@).len());
        return false;
    }
    let mut i: usize = 0;
    while i < a.len()
        invariant
            a.len() == b.len(),
            i <= a.len(),
            forall|k: int| 0 <= k < i ==> a@[k]@ == b@[k]@,
        decreases a.len() - i,
    {
        if !(a[i] == b[i]) {
            assert(strings_view(a@)[i as int] != strings_view(b@)[i as int]);
            return false;
        }
        i = i + 1;
    }
    assert(strings_view(a@) =~= strings_view(b@));
    true
}

fn same(a: &Option<Vec<String>>, b: &Option<Vec<String>>) -> (r: bool)
    ensures
        r == opt_eq(*a, *b),
{
    match (a, b) {
        (Some(x), Some(y)) => same_parts(x, y),
        (None, None) => true,
        _ => false,
    }
}

/// Decides whether two files share an installation root, given the
/// directory of each and the parent of that directory, each as its list of
/// components.
pub fn parents_share_root(
    pa: &Option<Vec<String>>,
    gpa: &Option<Vec<String>>,
    pb: &Option<Vec<String>>,
    gpb: &Option<Vec<String>>,
) -> (r: bool)
    ensures
        r == roots_related(*pa, *gpa, *pb, *gpb),
{
    if pa.is_none() || pb.is_none() {
        return false;
    }
    if same(pa, pb) {
        return true;
    }
    if gpa.is_some() && (same(gpa, pb) || same(gpa, gpb)) {
        return true;
    }
    if gpb.is_some() && (same(gpb, pa) || same(gpb, gpa)) {
        return true;
    }
    false
}

/// Whether the installation roots of two files are related does not depend
/// on which file is named first.
pub proof fn lemma_roots_related_symmetric(
    pa: Option<Vec<String>>,
    gpa: Option<Vec<String>>,
    pb: Option<Vec<String>>,
    gpb: Option<Vec<String>>,
)
    ensures
        roots_related(pa, gpa, pb, gpb) == roots_related(pb, gpb, pa, gpa),
{
}

/// A file shares its installation root with itself whenever it has a directory.
pub proof fn lemma_roots_related_reflexive(pa: Option<Vec<String>>, gpa: Option<Vec<String>>)
    requires
        pa is Some,
    ensures
        roots_related(pa, gpa, pa, gpa),
{
}

/// The parent of a path as its list of components, when there is a parent.
fn parent_parts(path: &str) -> (r: (Option<String>, Option<Vec<String>>))
    ensures
        path@.len() == 0 ==> r.0 is None && r.1 is None,
        single_component(path@) ==> opt_text(r.0) == Some(Seq::<char>::empty())
            && dir_view(r.1) == Some(Seq::<Seq<char>>::empty()),
        r.0 is None <==> r.1 is None,
{
    let p = path_parent(path);
    match p {
        Some(text) => {
            let parts = path_components(text.as_str());
            (Some(text), Some(parts))
        },
        None => (None, None),
    }
}

/// Checks whether two files, given by canonical paths, share an installation
/// root. Their directories are found with `Path::parent` and compared by
/// their components, as `Path` values compare. An empty path has no
/// directory and so shares no root; two paths of one component each both
/// lie in the empty (current) directory and share it. How other paths split
/// depends on the platform.
pub fn share_installation_root(canonical_a: &str, canonical_b: &str) -> (r: bool)
    ensures
        canonical_a@.len() == 0 || canonical_b@.len() == 0 ==> !r,
        single_component(canonical_a@) && single_component(canonical_b@) ==> r,
{
    let (pa_text, pa) = parent_parts(canonical_a);
    let (pb_text, pb) = parent_parts(canonical_b);
    let gpa = match &pa_text {
        Some(p) => parent_parts(p.as_str()).1,
        None => None,
    };
    let gpb = match &pb_text {
        Some(p) => parent_parts(p.as_str()).1,
        None => None,
    };
    parents_share_root(&pa, &gpa, &pb, &gpb)
}

} // verus!

verus! {

/// Whether both lower-cased paths contain `marker`.
pub open spec fn both_contain(a: Seq<char>, b: Seq<char>, marker: Seq<char>) -> bool {
    contains(a, marker) && contains(b, marker)
}

/// Whether a command and its companion tool come from the same kind of
/// installation, judged by their paths alone: for node and npm, both under
/// fnm's shells, both under Scoop or both under Program Files; for python
/// and pip, both under Scoop or both in a Python installation. Other
/// commands have no companion to compare.
pub open spec fn same_environment_by_name(query: Seq<char>, active: Seq<char>, companion: Seq<char>) -> bool {
    let a = lowercase(active);
    let b = lowercase(companion);
    if query == "node"@ {
        both_contain(a, b, "fnm_multishells"@) || both_contain(a, b, "scoop"@) || both_contain(a, b, "program files"@)
    } else if query == "python"@ {
        both_contain(a, b, "scoop"@) || both_contain(a, b, "python"@)
    } else {
        true
    }
}

/// Whether a command and its companion tool (npm for node, pip for python)
/// appear to come from the same installation, judged by the names in their
/// paths.
pub fn paths_share_environment(query: &str, active_path: &str, companion_path: &str) -> (r: bool)
    ensures
        r == same_environment_by_name(query@, active_path@, companion_path@),
{
    let a = to_lowercase(active_path);
    let b = to_lowercase(companion_path);
    let a = a.as_str();
    let b = b.as_str();
    let q = String::from_str(query);
    if q == String::from_str("node") {
        (str_contains(a, "fnm_multishells") && str_contains(b, "fnm_multishells")) || (str_contains(a, "scoop")
            && str_contains(b, "scoop")) || (str_contains(a, "program files") && str_contains(b, "program files"))
    } else if q == String::from_str("python") {
        (str_contains(a, "scoop") && str_contains(b, "scoop")) || (str_contains(a, "python") && str_contains(b, "python"))
    } else {
        true
    }
}

} // verus!
