//! Paths, held as strings: joining, comparing and taking the parent.

use vstd::prelude::*;
use vstd::string::*;

verus! {

/// `name` appended to `dir` as `Path::join` does on Unix: an absolute `name`
/// replaces `dir`; otherwise a `/` goes between them unless `dir` is empty or
/// already ends in one.
pub open spec fn joined_path(dir: Seq<char>, name: Seq<char>) -> Seq<char> {
    if name.len() > 0 && name[0] == '/' {
        name
    } else if dir.len() > 0 && dir.last() != '/' {
        dir + "/"@ + name
    } else {
        dir + name
    }
}

/// Joins `name` onto `dir`.
pub fn join_path(dir: &str, name: &str) -> (joined: String)
    ensures
        joined@ == joined_path(dir@, name@),
{
    let name_len = name.unicode_len();
    let dir_len = dir.unicode_len();
    if name_len > 0 && name.get_char(0) == '/' {
        return name.to_owned();
    }
    let mut joined = dir.to_owned();
    if dir_len > 0 && dir.get_char(dir_len - 1) != '/' {
        joined.append("/");
    }
    joined.append(name);
    joined
}

/// Whether two paths are equal as `std::path::Path` values are: component by
/// component.
pub uninterp spec fn path_components_equal(a: Seq<char>, b: Seq<char>) -> bool;

/// A path written without the spellings that component comparison looks
/// past: no repeated or trailing `/`, and no `.` component.
pub open spec fn plain_path(p: Seq<char>) -> bool {
    &&& forall|i: int|
        0 <= i < p.len() && #[trigger] p[i] == '/' ==> i + 1 < p.len() && p[i + 1] != '/'
    &&& forall|i: int|
        0 <= i < p.len() && #[trigger] p[i] == '.' ==> !((i == 0 || p[i - 1] == '/') && (i + 1 == p.len()
            || p[i + 1] == '/'))
}

/// Two paths name the same place for the purposes of a plan: the same text,
/// or, when one of them is not written plainly, the same components.
pub open spec fn same_release_path(a: Seq<char>, b: Seq<char>) -> bool {
    a == b || (!(plain_path(a) && plain_path(b)) && path_components_equal(a, b))
}

/// Compares two paths with `<std::path::Path as PartialEq>::eq`.
///
/// The contract names the result and adds what the documented comparison by
/// components gives on Unix: identical text compares equal, and two plainly
/// written paths (no repeated or trailing `/`, no `.` component, the
/// spellings that splitting into components drops) compare equal only when
/// their texts are equal. Which other differently written paths compare equal
/// is left to the name.
#[verifier::external_body]
pub(crate) fn paths_equal(a: &str, b: &str) -> (equal: bool)
    ensures
        equal == path_components_equal(a@, b@),
        a@ == b@ ==> equal,
        plain_path(a@) && plain_path(b@) && equal ==> a@ == b@,
{
    std::path::Path::new(a) == std::path::Path::new(b)
}

/// The parent that `std::path::Path::parent` gives for a path, if any.
pub uninterp spec fn path_parent(p: Seq<char>) -> Option<Seq<char>>;

/// Takes the parent of a path with `std::path::Path::parent`.
///
/// The contract only names the result: the parent of a path given as text,
/// or none for a root or an empty path.
#[verifier::external_body]
pub(crate) fn parent_of(path: &str) -> (parent: Option<String>)
    ensures
        match parent {
            Some(p) => path_parent(path@) == Some(p@),
            None => path_parent(path@) is None,
        },
{
    std::path::Path::new(path).parent().map(|p| p.to_string_lossy().into_owned())
}

/// The final component that `std::path::Path::file_name` gives for a path,
/// if any.
pub uninterp spec fn path_file_name(p: Seq<char>) -> Option<Seq<char>>;

/// Takes the final component of a path with `std::path::Path::file_name`.
///
/// The contract only names the result: the last normal component, or none
/// when the path ends in `..` or has no component.
#[verifier::external_body]
pub(crate) fn file_name_of(path: &str) -> (name: Option<String>)
    ensures
        match name {
            Some(n) => path_file_name(path@) == Some(n@),
            None => path_file_name(path@) is None,
        },
{
    std::path::Path::new(path).file_name().map(|n| n.to_string_lossy().into_owned())
}

} // verus!
