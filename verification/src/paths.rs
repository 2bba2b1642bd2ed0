use vstd::prelude::*;

verus! {

/// The relative path from `base` to `path`, as pathdiff computes it, or
/// nothing when no difference exists.
pub uninterp spec fn path_diff_of(path: Seq<char>, base: Seq<char>) -> Option<Seq<char>>;

/// Relies on pathdiff::diff_paths: the relative path from `base` to
/// `path`, a function of the two paths alone.
#[verifier::external_body]
fn diff_paths_str(path: &String, base: &String) -> (r: Option<String>)
    ensures
        r matches Some(p) ==> path_diff_of(path@, base@) == Some(p@),
        r is None ==> path_diff_of(path@, base@) is None,
{
    pathdiff::diff_paths(std::path::Path::new(path.as_str()), std::path::Path::new(base.as_str()))
        .and_then(|p| p.to_str().map(|s| s.to_string()))
}

/// `path` relative to `base`, when a relative path exists.  Both paths are
/// expected already canonicalized by the caller.
pub fn path_relative_to(path: &String, base: &String) -> (r: Option<String>)
    ensures
        r matches Some(p) ==> path_diff_of(path@, base@) == Some(p@),
        r is None ==> path_diff_of(path@, base@) is None,
{
    diff_paths_str(path, base)
}

} // verus!
