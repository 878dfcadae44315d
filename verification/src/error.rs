//! What can go wrong, by cause.

use vstd::prelude::*;
use crate::path::InstallPath;

verus! {

/// The operation during which something went wrong.
#[derive(Debug, Clone, Copy, PartialEq, Eq, Structural)]
pub enum Op {
    AddFile,
    CopyFile,
    CopyDir,
    MoveFile,
    MoveDir,
    ModifyFile,
    RemoveFile,
    RemoveDir,
    WriteFile,
    Undo,
    Commit,
}

/// An error, as the contracts see it.
pub enum ErrorView {
    UnsupportedInstallerVersion { found: Seq<char>, expected: Seq<char> },
    CorruptComponent { name: Seq<char> },
    FilesystemError { op: Op, path: Seq<Seq<char>>, cause: Seq<char> },
    PreconditionViolated { op: Op, path: Seq<Seq<char>> },
    RollbackFailure { original: Option<Box<ErrorView>>, secondary: Seq<UndoFailureView> },
}

/// A failed undo step, as the contracts see it.
pub struct UndoFailureView {
    pub path: Seq<Seq<char>>,
    pub cause: Seq<char>,
}

/// One step of a rollback that the filesystem refused.
#[derive(Debug, Clone, PartialEq, Eq)]
pub struct UndoFailure {
    /// The place that could not be put back.
    pub path: InstallPath,
    /// What the filesystem said.
    pub cause: String,
}

impl View for UndoFailure {
    type V = UndoFailureView;

    open spec fn view(&self) -> UndoFailureView {
        UndoFailureView { path: self.path@, cause: self.cause@ }
    }
}

/// The failed undo steps that a list holds, as the contracts see them.
pub open spec fn failure_views(failures: Seq<UndoFailure>) -> Seq<UndoFailureView> {
    Seq::new(failures.len(), |i: int| failures[i]@)
}

/// An error of this crate.
#[derive(Debug, PartialEq, Eq)]
pub enum Error {
    /// The metadata on disk was written in a format this crate does not read.
    UnsupportedInstallerVersion { found: String, expected: String },
    /// A manifest line could not be read, or names a kind that cannot be
    /// removed.
    CorruptComponent { name: String },
    /// The filesystem refused an operation.
    FilesystemError { op: Op, path: InstallPath, cause: String },
    /// An operation was asked for where it cannot apply: the place is taken,
    /// or what should be there is not.
    PreconditionViolated { op: Op, path: InstallPath },
    /// Undoing a transaction failed in part. `original` is what made the
    /// transaction fail, if anything did; `secondary` holds what went wrong
    /// while undoing, in the order met.
    RollbackFailure { original: Option<Box<Error>>, secondary: Vec<UndoFailure> },
}

impl View for Error {
    type V = ErrorView;

    open spec fn view(&self) -> ErrorView
        decreases self,
    {
        match self {
            Error::UnsupportedInstallerVersion { found, expected } => {
                ErrorView::UnsupportedInstallerVersion { found: found@, expected: expected@ }
            },
            Error::CorruptComponent { name } => ErrorView::CorruptComponent { name: name@ },
            Error::FilesystemError { op, path, cause } => ErrorView::FilesystemError {
                op: *op,
                path: path@,
                cause: cause@,
            },
            Error::PreconditionViolated { op, path } => ErrorView::PreconditionViolated {
                op: *op,
                path: path@,
            },
            Error::RollbackFailure { original, secondary } => ErrorView::RollbackFailure {
                original: match original {
                    Some(first) => Some(Box::new((**first)@)),
                    None => None,
                },
                secondary: failure_views(secondary@),
            },
        }
    }
}

} // verus!
