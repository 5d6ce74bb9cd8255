//! Where an edit belongs: the file that a piece of checked content came
//! from.

use crate::position::Span;
use std::path::PathBuf;
use vstd::prelude::*;

verus! {

/// `std::path::PathBuf`, known to the verifier only as a value that is
/// carried through: nothing is claimed of what a path holds.
#[verifier::external_type_specification]
#[verifier::external_body]
pub struct ExPathBuf(PathBuf);

/// `PathBuf::clone`: the copy is the same path.
pub assume_specification[ <PathBuf as Clone>::clone ](path: &PathBuf) -> (copy: PathBuf)
    ensures
        copy == *path,
;

/// Definition of the source of a checkable chunk.
#[derive(Debug, Clone, PartialEq, Eq, Hash)]
pub enum ContentOrigin {
    /// A markdown file.
    CommonMarkFile(PathBuf),
    /// A source file with documentation comments.
    RustSourceFile(PathBuf),
    /// A documentation test that is embedded in a source file, and the span
    /// it takes there.
    RustDocTest(PathBuf, Span),
}

impl ContentOrigin {
    /// The file that the content came from and that corrections go back to.
    pub open spec fn path(&self) -> PathBuf {
        match *self {
            ContentOrigin::CommonMarkFile(path) => path,
            ContentOrigin::RustSourceFile(path) => path,
            ContentOrigin::RustDocTest(path, _) => path,
        }
    }

    /// A copy of the path of the file.
    pub fn to_path_buf(&self) -> (path: PathBuf)
        ensures
            path == self.path(),
    {
        match self {
            ContentOrigin::CommonMarkFile(path) => path.clone(),
            ContentOrigin::RustSourceFile(path) => path.clone(),
            ContentOrigin::RustDocTest(path, _) => path.clone(),
        }
    }

    /// Gives up the origin for the path of its file.
    pub fn into_path(self) -> (path: PathBuf)
        ensures
            path == self.path(),
    {
        match self {
            ContentOrigin::CommonMarkFile(path) => path,
            ContentOrigin::RustSourceFile(path) => path,
            ContentOrigin::RustDocTest(path, _) => path,
        }
    }
}

} // verus!
