//! A path taken relative to another directory.
//!
//! Both paths are text, read relative to one common base. The comparison is
//! that of the crate `pathdiff`: it works on the components of the two paths
//! and touches neither the file system nor the environment.

use vstd::prelude::*;
use vstd::string::StringExecFns;

verus! {

/// What `pathdiff::diff_paths` returns for `path` and `base`: the path that
/// leads from `base` to `path`, or nothing where the two cannot be related.
pub uninterp spec fn relative_path(path: Seq<char>, base: Seq<char>) -> Option<Seq<char>>;

/// Calls `pathdiff::diff_paths` on `path` and `base`. Not proved: the result
/// is what that function returns, written as text; it is `None` exactly when
/// `diff_paths` returns `None`. Every component of the result is `..` or is
/// taken from `path`, so writing it as text loses nothing.
#[verifier::external_body]
fn diff_paths(path: &str, base: &str) -> (r: Option<String>)
    ensures
        r is Some <==> relative_path(path@, base@) is Some,
        r is Some ==> r->0@ == relative_path(path@, base@)->0,
{
    match pathdiff::diff_paths(path, base) {
        Some(relative) => Some(relative.to_string_lossy().into_owned()),
        None => None,
    }
}

/// `path` as it reads from the directory `offset`, both being relative to one
/// base; `None` where the two cannot be related.
pub fn rebase(path: &str, offset: &str) -> (r: Option<String>)
    ensures
        r is Some <==> relative_path(path@, offset@) is Some,
        r is Some ==> r->0@ == relative_path(path@, offset@)->0,
{
    diff_paths(path, offset)
}

/// `path` between double quotes.
pub open spec fn quoted(path: Seq<char>) -> Seq<char> {
    seq!['"'] + path + seq!['"']
}

/// `path` between double quotes, as it is printed.
pub fn quote(path: &str) -> (r: String)
    ensures
        r@ == quoted(path@),
{
    proof {
        reveal_strlit("\"");
        assert("\""@ =~= seq!['"']);
    }
    let mut r = String::from_str("\"");
    r.append(path);
    r.append("\"");
    r
}

} // verus!
