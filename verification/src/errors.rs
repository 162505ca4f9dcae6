//! The error surface of the materialization subsystem.

use vstd::prelude::*;

verus! {

/// Why a single copy step failed.
#[derive(Debug, PartialEq, Eq)]
pub enum CopyCause {
    /// The source of a tree copy cannot be enumerated: it is a regular file.
    SourceNotADirectory,
    /// An entry had to be written beneath a destination that is a regular file.
    DestinationNotADirectory,
    /// A regular file had to overwrite a destination that is a directory.
    DestinationIsADirectory,
}

/// One materialization failure, fatal to the whole operation.
#[derive(Debug, PartialEq, Eq)]
pub enum SetupError {
    /// The remote snapshot could not be obtained: the fetch tool could not be
    /// launched or reported non-zero completion.
    RetrievalFailed,
    /// The snapshot was obtained but holds no `template` subtree.
    TemplateSubtreeMissing,
    /// A copy step failed; `path` names the offending entry relative to the
    /// copy root.
    CopyFailed { path: Vec<Vec<u8>>, cause: CopyCause },
}

/// Why a candidate project name was rejected.
#[derive(Debug, PartialEq, Eq)]
pub enum NameError {
    Empty,
    DisallowedCharacter,
}

} // verus!
