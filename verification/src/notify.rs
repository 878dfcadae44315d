//! How loud a message is.

use vstd::prelude::*;
use crate::effect::{Entry, Outcome, OutcomeView, Request, RequestView, Transfer};
use crate::path::InstallPath;
use crate::text::copy_of;

verus! {

#[verifier::external_type_specification]
#[verifier::external_body]
pub struct ExLevel(tracing::Level);

/// The level of a message shown to the user.
#[derive(Debug, Clone, Copy, PartialEq, Eq, Structural)]
pub enum NotificationLevel {
    Debug,
    Verbose,
    Info,
    Warn,
    Error,
}

/// The name of a level, as shown.
pub open spec fn level_name(level: NotificationLevel) -> Seq<char> {
    match level {
        NotificationLevel::Debug => "debug"@,
        NotificationLevel::Verbose => "verbose"@,
        NotificationLevel::Info => "info"@,
        NotificationLevel::Warn => "warn"@,
        NotificationLevel::Error => "error"@,
    }
}

/// The level for a rank between 0, the most verbose, and 4, the gravest.
pub open spec fn level_at(rank: u8) -> Option<NotificationLevel> {
    if rank == 0 {
        Some(NotificationLevel::Debug)
    } else if rank == 1 {
        Some(NotificationLevel::Verbose)
    } else if rank == 2 {
        Some(NotificationLevel::Info)
    } else if rank == 3 {
        Some(NotificationLevel::Warn)
    } else if rank == 4 {
        Some(NotificationLevel::Error)
    } else {
        None
    }
}

/// The rank of a `tracing` level: 0 for `TRACE` up to 4 for `ERROR`.
///
/// Trusted: tells the five constants of `tracing::Level` apart. The type has
/// no other value, so the rank is below 5; which rank comes back is not
/// claimed.
#[verifier::external_body]
fn rank_of(level: tracing::Level) -> (rank: u8)
    ensures
        rank < 5,
{
    match level {
        tracing::Level::TRACE => 0,
        tracing::Level::DEBUG => 1,
        tracing::Level::INFO => 2,
        tracing::Level::WARN => 3,
        tracing::Level::ERROR => 4,
    }
}

impl NotificationLevel {
    /// The level for a rank between 0, the most verbose, and 4, the gravest.
    pub fn from_rank(rank: u8) -> (level: Option<Self>)
        ensures
            level == level_at(rank),
    {
        if rank == 0 {
            Some(NotificationLevel::Debug)
        } else if rank == 1 {
            Some(NotificationLevel::Verbose)
        } else if rank == 2 {
            Some(NotificationLevel::Info)
        } else if rank == 3 {
            Some(NotificationLevel::Warn)
        } else if rank == 4 {
            Some(NotificationLevel::Error)
        } else {
            None
        }
    }

    /// The level at which a `tracing` event is shown: `TRACE` as debug,
    /// `DEBUG` as verbose, the others under their own names.
    pub fn from_level(level: tracing::Level) -> (shown: Self) {
        match NotificationLevel::from_rank(rank_of(level)) {
            Some(shown) => shown,
            None => NotificationLevel::Error,
        }
    }

    /// The name of the level, as shown.
    pub fn name(&self) -> (name: String)
        ensures
            name@ == level_name(*self),
    {
        match self {
            NotificationLevel::Debug => copy_of("debug"),
            NotificationLevel::Verbose => copy_of("verbose"),
            NotificationLevel::Info => copy_of("info"),
            NotificationLevel::Warn => copy_of("warn"),
            NotificationLevel::Error => copy_of("error"),
        }
    }
}


/// An event, as the contracts see it.
pub enum NotificationView {
    Created { path: Seq<Seq<char>> },
    Copied { what: Entry, path: Seq<Seq<char>> },
    Moved { what: Entry, path: Seq<Seq<char>> },
    BackedUp { path: Seq<Seq<char>> },
    Removed { what: Entry, path: Seq<Seq<char>> },
    Restored { what: Entry, path: Seq<Seq<char>> },
    RollingBack,
    NonFatalError { path: Seq<Seq<char>>, cause: Seq<char> },
}

/// Something that happened below the prefix, told to whoever listens.
#[derive(Debug, Clone, PartialEq, Eq)]
pub enum Notification {
    /// An empty file was created.
    Created { path: InstallPath },
    /// A file or directory was copied into the prefix.
    Copied { what: Entry, path: InstallPath },
    /// A file or directory was moved into the prefix.
    Moved { what: Entry, path: InstallPath },
    /// A backup of a file was made.
    BackedUp { path: InstallPath },
    /// A file or directory was removed.
    Removed { what: Entry, path: InstallPath },
    /// A file or directory was put back.
    Restored { what: Entry, path: InstallPath },
    /// A transaction is being undone.
    RollingBack,
    /// Something went wrong that does not stop the work.
    NonFatalError { path: InstallPath, cause: String },
}

impl View for Notification {
    type V = NotificationView;

    open spec fn view(&self) -> NotificationView {
        match self {
            Notification::Created { path } => NotificationView::Created { path: path@ },
            Notification::Copied { what, path } => NotificationView::Copied {
                what: *what,
                path: path@,
            },
            Notification::Moved { what, path } => NotificationView::Moved {
                what: *what,
                path: path@,
            },
            Notification::BackedUp { path } => NotificationView::BackedUp { path: path@ },
            Notification::Removed { what, path } => NotificationView::Removed {
                what: *what,
                path: path@,
            },
            Notification::Restored { what, path } => NotificationView::Restored {
                what: *what,
                path: path@,
            },
            Notification::RollingBack => NotificationView::RollingBack,
            Notification::NonFatalError { path, cause } => NotificationView::NonFatalError {
                path: path@,
                cause: cause@,
            },
        }
    }
}

/// The event that a request and its outcome make, if they make one. Only a
/// request that was done, and that changed something below the prefix,
/// makes an event; writing the content of a file makes none.
pub open spec fn event_of(request: RequestView, outcome: OutcomeView) -> Option<NotificationView> {
    if !(outcome is Done) {
        None
    } else {
        match request {
            RequestView::Create { path } => Some(NotificationView::Created { path: path.below }),
            RequestView::Transfer { how: Transfer::Copy, what, dest, .. } => Some(
                NotificationView::Copied { what, path: dest.below },
            ),
            RequestView::Transfer { how: Transfer::Move, what, dest, .. } => Some(
                NotificationView::Moved { what, path: dest.below },
            ),
            RequestView::Backup { path, .. } => Some(
                NotificationView::BackedUp { path: path.below },
            ),
            RequestView::Stash { what, path, .. } => Some(
                NotificationView::Removed { what, path: path.below },
            ),
            RequestView::Delete { what, path } => Some(
                NotificationView::Removed { what, path: path.below },
            ),
            RequestView::Restore { what, path, .. } => Some(
                NotificationView::Restored { what, path: path.below },
            ),
            _ => None,
        }
    }
}

/// The event to tell once `request` has met with `outcome`, if there is one.
pub fn event_for(request: &Request, outcome: &Outcome) -> (event: Option<Notification>)
    ensures
        match event {
            Some(e) => event_of(request@, outcome@) == Some(e@),
            None => event_of(request@, outcome@) is None,
        },
{
    if !outcome.is_done() {
        return None;
    }
    match request {
        Request::Create { path } => Some(Notification::Created { path: path.below.clone() }),
        Request::Transfer { how, what, src: _, dest } => match how {
            Transfer::Copy => Some(
                Notification::Copied { what: *what, path: dest.below.clone() },
            ),
            Transfer::Move => Some(Notification::Moved { what: *what, path: dest.below.clone() }),
        },
        Request::Backup { path, backup: _ } => Some(
            Notification::BackedUp { path: path.below.clone() },
        ),
        Request::Stash { what, path, backup: _ } => Some(
            Notification::Removed { what: *what, path: path.below.clone() },
        ),
        Request::Delete { what, path } => Some(
            Notification::Removed { what: *what, path: path.below.clone() },
        ),
        Request::Restore { what, backup: _, path } => Some(
            Notification::Restored { what: *what, path: path.below.clone() },
        ),
        _ => None,
    }
}

/// How loud an event is: an error is a warning, the start of a rollback is
/// told to everybody, and the rest only to those who ask for detail.
pub open spec fn level_of(event: NotificationView) -> NotificationLevel {
    match event {
        NotificationView::NonFatalError { .. } => NotificationLevel::Warn,
        NotificationView::RollingBack => NotificationLevel::Info,
        _ => NotificationLevel::Verbose,
    }
}

impl Notification {
    /// How loud the event is.
    pub fn level(&self) -> (level: NotificationLevel)
        ensures
            level == level_of(self@),
    {
        match self {
            Notification::NonFatalError { .. } => NotificationLevel::Warn,
            Notification::RollingBack => NotificationLevel::Info,
            _ => NotificationLevel::Verbose,
        }
    }
}

} // verus!
