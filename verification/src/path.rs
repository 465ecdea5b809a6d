//! Paths of files and directories, as text. The program runs on Unix, where a path is
//! absolute when it starts at the root, `/`.
use vstd::prelude::*;

verus! {

/// Whether `p` is absolute: on Unix, whether it starts with `/`.
pub open spec fn spec_is_absolute(p: Seq<char>) -> bool {
    p.len() > 0 && p[0] == '/'
}

/// `Path::is_absolute`. Its documentation says that on Unix a path is absolute if it starts
/// with the root; that is all the contract claims.
#[verifier::external_body]
fn is_absolute(p: &str) -> (r: bool)
    ensures
        r == spec_is_absolute(p@),
{
    std::path::Path::new(p).is_absolute()
}

/// The path `p` relative to the directory `dir`, as `Path::join` writes it.
pub uninterp spec fn path_join(dir: Seq<char>, p: Seq<char>) -> Seq<char>;

/// `Path::join`, as text. Its documentation says that joining an absolute path gives that path;
/// the contract claims that, and names the result for a relative path without saying how the
/// separator is placed.
#[verifier::external_body]
fn join(dir: &str, p: &str) -> (r: String)
    ensures
        spec_is_absolute(p@) ==> r@ == p@,
        !spec_is_absolute(p@) ==> r@ == path_join(dir@, p@),
{
    std::path::Path::new(dir).join(p).to_string_lossy().into_owned()
}

/// `path` itself when it is absolute, else `path` under `dir`.
pub open spec fn spec_absolute_or_join(path: Seq<char>, dir: Seq<char>) -> Seq<char> {
    if spec_is_absolute(path) {
        path
    } else {
        path_join(dir, path)
    }
}

/// `path` itself when it is absolute, else `path` under `dir`.
pub fn absolute_or_join(path: &str, dir: &str) -> (r: String)
    ensures
        r@ == spec_absolute_or_join(path@, dir@),
{
    if is_absolute(path) {
        path.to_string()
    } else {
        join(dir, path)
    }
}

/// Each of `paths` as [`absolute_or_join`] places it under `dir`.
pub open spec fn spec_paths_under(paths: Seq<Seq<char>>, dir: Seq<char>) -> Seq<Seq<char>> {
    paths.map_values(|p: Seq<char>| spec_absolute_or_join(p, dir))
}

/// Each of `paths` as [`absolute_or_join`] places it under `dir`, in order.
pub fn paths_under(paths: &Vec<String>, dir: &str) -> (r: Vec<String>)
    ensures
        r.deep_view() == spec_paths_under(paths.deep_view(), dir@),
{
    let mut r: Vec<String> = Vec::new();
    let mut i: usize = 0;
    while i < paths.len()
        invariant
            i <= paths.len(),
            r.deep_view() =~= spec_paths_under(paths.deep_view().take(i as int), dir@),
        decreases paths.len() - i,
    {
        let p = absolute_or_join(paths[i].as_str(), dir);
        let ghost before = r.deep_view();
        r.push(p);
        proof {
            assert(r.deep_view() =~= before.push(spec_absolute_or_join(paths.deep_view()[i as int], dir@)));
            assert(paths.deep_view().take(i + 1) =~= paths.deep_view().take(i as int).push(paths.deep_view()[i as int]));
        }
        i = i + 1;
    }
    assert(paths.deep_view().take(paths.len() as int) =~= paths.deep_view());
    r
}

/// Whether two paths are equal as `Path` compares them: component by component.
pub uninterp spec fn path_equal(a: Seq<char>, b: Seq<char>) -> bool;

/// Compares two paths with `Path`'s `==`. Its contract names the result and claims only that
/// it depends on the two paths alone; how `Path` splits them into components is not stated.
#[verifier::external_body]
pub(crate) fn same_path(a: &str, b: &str) -> (r: bool)
    ensures
        r == path_equal(a@, b@),
{
    std::path::Path::new(a) == std::path::Path::new(b)
}

} // verus!
