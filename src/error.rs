use vstd::prelude::*;

verus! {

/// What went wrong while removing an entry.
#[derive(Clone, Copy, Debug, PartialEq, Eq, Structural)]
pub enum ErrorKind {
    /// The entry does not exist.
    NotFound,
    /// An attribute change, rename or delete was denied.
    PermissionDenied,
    /// A name of the rename chain is already taken.
    AlreadyExists,
    /// A read, write or sync failed.
    Io,
    /// No leaf name can be taken from the path.
    PathFormat,
}

/// An error together with the path that was being processed.
#[derive(Debug)]
pub struct Error {
    pub kind: ErrorKind,
    pub path: String,
}

impl Error {
    /// Builds an error of `kind` about `path`.
    pub fn new(kind: ErrorKind, path: &str) -> (r: Error)
        ensures
            r.kind == kind,
            r.path@ == path@,
    {
        Error { kind, path: String::from_str(path) }
    }
}

} // verus!
