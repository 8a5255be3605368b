use crate::error::{Error, ErrorKind};
use std::path::Path;
use vstd::prelude::*;
use vstd::utf8::encode_utf8;

verus! {

/// The final component of a path, as `Path::file_name` gives it.
pub uninterp spec fn file_name_of(p: Seq<char>) -> Option<Seq<char>>;

/// The path without its final component, as `Path::parent` gives it.
pub uninterp spec fn parent_of(p: Seq<char>) -> Option<Seq<char>>;

/// `name` appended to `dir`, as `Path::join` gives it.
pub uninterp spec fn joined(dir: Seq<char>, name: Seq<char>) -> Seq<char>;

/// Relies on `std::path::Path::file_name`: the final component, if any.
#[verifier::external_body]
fn file_name(path: &str) -> (r: Option<String>)
    ensures
        r.deep_view() == file_name_of(path@),
{
    Path::new(path).file_name().map(|n| n.to_string_lossy().into_owned())
}

/// Relies on `std::path::Path::parent`: the path without its final component.
#[verifier::external_body]
fn parent(path: &str) -> (r: Option<String>)
    ensures
        r.deep_view() == parent_of(path@),
{
    Path::new(path).parent().map(|p| p.to_string_lossy().into_owned())
}

/// Relies on `std::path::Path::join`: `name` appended to `dir`.
#[verifier::external_body]
fn join_path(dir: &str, name: &str) -> (r: String)
    ensures
        r@ == joined(dir@, name@),
{
    Path::new(dir).join(name).to_string_lossy().into_owned()
}

/// The path of `name` inside `dir`; without a directory, `name` itself.
pub open spec fn dir_join(dir: Option<Seq<char>>, name: Seq<char>) -> Seq<char> {
    match dir {
        None => name,
        Some(d) => joined(d, name),
    }
}

/// The length in bytes of the UTF-8 encoding of a name, as `str::len` gives it.
pub open spec fn byte_len(s: Seq<char>) -> usize {
    encode_utf8(s).len() as usize
}

/// A path can be split when it has a final component of at least one byte.
pub open spec fn splittable(p: Seq<char>) -> bool {
    file_name_of(p) is Some && byte_len(file_name_of(p)->0) > 0
}

/// Joins a directory and a leaf name back into a path.
pub fn join(dir: &Option<String>, name: &str) -> (r: String)
    ensures
        r@ == dir_join(dir.deep_view(), name@),
{
    match dir {
        None => String::from_str(name),
        Some(d) => join_path(d.as_str(), name),
    }
}

/// Splits a path into its parent directory (if any) and its leaf name.
/// Fails with `PathFormat` when no leaf name can be taken.
pub fn split(path: &str) -> (r: Result<(Option<String>, String), Error>)
    ensures
        r is Ok <==> splittable(path@),
        r matches Ok((dir, leaf)) ==> {
            &&& dir.deep_view() == parent_of(path@)
            &&& Some(leaf@) == file_name_of(path@)
        },
        r matches Err(e) ==> e.kind == ErrorKind::PathFormat && e.path@ == path@,
{
    match file_name(path) {
        None => Err(Error::new(ErrorKind::PathFormat, path)),
        Some(leaf) => {
            if leaf.as_str().len() == 0 {
                Err(Error::new(ErrorKind::PathFormat, path))
            } else {
                Ok((parent(path), leaf))
            }
        },
    }
}

} // verus!
