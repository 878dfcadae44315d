//! What the crate asks of the filesystem, and what it is told in return.
//!
//! A [`Request`] names one thing to do below the install prefix or in the
//! scratch area. Whoever drives the crate does it and hands back an
//! [`Outcome`]. A request either takes effect as a whole or leaves
//! everything as it was.

use vstd::prelude::*;
use crate::prefix::{AbsPath, AbsView};
use crate::text::texts;

verus! {

/// A place in the scratch area of one transaction.
#[derive(Debug, Clone, Copy, PartialEq, Eq, Structural)]
pub struct ScratchId {
    pub index: u64,
}

/// Whether a request is about a file or about a directory with all below it.
#[derive(Debug, Clone, Copy, PartialEq, Eq, Structural)]
pub enum Entry {
    File,
    Dir,
}

/// How something from outside the prefix gets into it.
#[derive(Debug, Clone, Copy, PartialEq, Eq, Structural)]
pub enum Transfer {
    Copy,
    Move,
}

/// A request, as the contracts see it.
pub enum RequestView {
    Create { path: AbsView },
    Write { path: AbsView, lines: Seq<Seq<char>> },
    Append { path: AbsView, line: Seq<char> },
    Transfer { how: Transfer, what: Entry, src: Seq<char>, dest: AbsView },
    Backup { path: AbsView, backup: ScratchId },
    Stash { what: Entry, path: AbsView, backup: ScratchId },
    Restore { what: Entry, backup: ScratchId, path: AbsView },
    Delete { what: Entry, path: AbsView },
    WriteScratch { scratch: ScratchId, lines: Seq<Seq<char>> },
    Promote { scratch: ScratchId, path: AbsView },
    Probe { path: AbsView },
    DiscardScratch,
}

/// One thing to do on the filesystem.
///
/// Where a request creates or writes a file, the directories above it are
/// made as needed. Lines are written with the host's line ending.
#[derive(Debug, Clone, PartialEq, Eq)]
pub enum Request {
    /// Create an empty file at `path`. `AlreadyExists` if the place is taken.
    Create { path: AbsPath },
    /// Make `lines` the content of the file at `path`, new or not.
    Write { path: AbsPath, lines: Vec<String> },
    /// Add `line` to the end of the file at `path`, new or not.
    Append { path: AbsPath, line: String },
    /// Bring what is at `src`, outside the prefix, to `dest`.
    /// `AlreadyExists` if `dest` is taken, `NotFound` if `src` is missing.
    Transfer { how: Transfer, what: Entry, src: String, dest: AbsPath },
    /// Copy the file at `path` to the scratch place `backup`; the file
    /// stays. `NotFound` if there is no file at `path`.
    Backup { path: AbsPath, backup: ScratchId },
    /// Move what is at `path` to the scratch place `backup`. `NotFound` if
    /// nothing is at `path`.
    Stash { what: Entry, path: AbsPath, backup: ScratchId },
    /// Move what the scratch place `backup` holds to `path`, in place of
    /// whatever is there.
    Restore { what: Entry, backup: ScratchId, path: AbsPath },
    /// Delete what is at `path`, a directory with all below it. `NotFound`
    /// if nothing is there.
    Delete { what: Entry, path: AbsPath },
    /// Make `lines` the content of a new file at the scratch place `scratch`.
    WriteScratch { scratch: ScratchId, lines: Vec<String> },
    /// Move the file at the scratch place `scratch` to `path`, in place of
    /// the file there.
    Promote { scratch: ScratchId, path: AbsPath },
    /// Look at the directory at `path`: `Done` if it is there and empty.
    Probe { path: AbsPath },
    /// Delete the scratch area with all it holds.
    DiscardScratch,
}

impl View for Request {
    type V = RequestView;

    open spec fn view(&self) -> RequestView {
        match self {
            Request::Create { path } => RequestView::Create { path: path@ },
            Request::Write { path, lines } => RequestView::Write {
                path: path@,
                lines: texts(lines@),
            },
            Request::Append { path, line } => RequestView::Append { path: path@, line: line@ },
            Request::Transfer { how, what, src, dest } => RequestView::Transfer {
                how: *how,
                what: *what,
                src: src@,
                dest: dest@,
            },
            Request::Backup { path, backup } => RequestView::Backup {
                path: path@,
                backup: *backup,
            },
            Request::Stash { what, path, backup } => RequestView::Stash {
                what: *what,
                path: path@,
                backup: *backup,
            },
            Request::Restore { what, backup, path } => RequestView::Restore {
                what: *what,
                backup: *backup,
                path: path@,
            },
            Request::Delete { what, path } => RequestView::Delete { what: *what, path: path@ },
            Request::WriteScratch { scratch, lines } => RequestView::WriteScratch {
                scratch: *scratch,
                lines: texts(lines@),
            },
            Request::Promote { scratch, path } => RequestView::Promote {
                scratch: *scratch,
                path: path@,
            },
            Request::Probe { path } => RequestView::Probe { path: path@ },
            Request::DiscardScratch => RequestView::DiscardScratch,
        }
    }
}

/// An outcome, as the contracts see it.
pub enum OutcomeView {
    Done,
    NotFound,
    AlreadyExists,
    NotEmpty,
    Failed(Seq<char>),
}

/// What became of a request.
#[derive(Debug, Clone, PartialEq, Eq)]
pub enum Outcome {
    /// It was done.
    Done,
    /// What it needs is not there.
    NotFound,
    /// The place it needs is taken.
    AlreadyExists,
    /// The directory it looked at holds something.
    NotEmpty,
    /// The filesystem refused, for the reason given.
    Failed(String),
}

impl View for Outcome {
    type V = OutcomeView;

    open spec fn view(&self) -> OutcomeView {
        match self {
            Outcome::Done => OutcomeView::Done,
            Outcome::NotFound => OutcomeView::NotFound,
            Outcome::AlreadyExists => OutcomeView::AlreadyExists,
            Outcome::NotEmpty => OutcomeView::NotEmpty,
            Outcome::Failed(cause) => OutcomeView::Failed(cause@),
        }
    }
}

/// What an outcome other than `Done` says, in words.
pub open spec fn cause_of(outcome: OutcomeView) -> Seq<char> {
    match outcome {
        OutcomeView::Done => "done"@,
        OutcomeView::NotFound => "not found"@,
        OutcomeView::AlreadyExists => "already exists"@,
        OutcomeView::NotEmpty => "not empty"@,
        OutcomeView::Failed(cause) => cause,
    }
}

impl Outcome {
    /// What the outcome says, in words.
    pub fn cause(&self) -> (text: String)
        ensures
            text@ == cause_of(self@),
    {
        match self {
            Outcome::Done => crate::text::copy_of("done"),
            Outcome::NotFound => crate::text::copy_of("not found"),
            Outcome::AlreadyExists => crate::text::copy_of("already exists"),
            Outcome::NotEmpty => crate::text::copy_of("not empty"),
            Outcome::Failed(cause) => crate::text::copy_of(cause.as_str()),
        }
    }

    /// Whether the request was done.
    pub fn is_done(&self) -> (b: bool)
        ensures
            b == (self@ is Done),
    {
        match self {
            Outcome::Done => true,
            _ => false,
        }
    }
}

} // verus!
