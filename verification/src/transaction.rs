//! The transaction: a log of changes, each of which can be undone.
//!
//! A verb such as [`Transaction::copy_file`] checks what can be checked
//! without the filesystem and hands out the [`Request`] to perform.
//! [`Transaction::settle`] takes the [`Outcome`]: a request that was done
//! adds one entry to the log, a refused one adds nothing. A transaction ends
//! with [`Transaction::commit`], or with [`Transaction::rollback`], which
//! undoes the log from its newest entry to its oldest.

use vstd::prelude::*;
use crate::effect::{Entry, Outcome, OutcomeView, Request, RequestView, ScratchId, Transfer, cause_of};
use crate::error::{Error, ErrorView, Op, UndoFailure, UndoFailureView, failure_views};
use crate::notify::{Notification, NotificationView};
use crate::path::{InstallPath, prefix_of, relative};
use crate::prefix::{AbsView, InstallPrefix};
use crate::text::copy_of;

verus! {

/// What a transaction can be asked to do.
#[derive(Debug, Clone, Copy, PartialEq, Eq, Structural)]
pub enum Verb {
    AddFile,
    CopyFile,
    CopyDir,
    MoveFile,
    MoveDir,
    ModifyFile,
    RemoveFile,
    RemoveDir,
}

/// The name under which a verb appears in errors.
pub open spec fn op_of(verb: Verb) -> Op {
    match verb {
        Verb::AddFile => Op::AddFile,
        Verb::CopyFile => Op::CopyFile,
        Verb::CopyDir => Op::CopyDir,
        Verb::MoveFile => Op::MoveFile,
        Verb::MoveDir => Op::MoveDir,
        Verb::ModifyFile => Op::ModifyFile,
        Verb::RemoveFile => Op::RemoveFile,
        Verb::RemoveDir => Op::RemoveDir,
    }
}

/// Whether the verb puts something new below the prefix.
pub open spec fn creates(verb: Verb) -> bool {
    verb is AddFile || verb is CopyFile || verb is CopyDir || verb is MoveFile || verb is MoveDir
}

/// Whether the verb brings something from outside the prefix.
pub open spec fn transfers(verb: Verb) -> bool {
    verb is CopyFile || verb is CopyDir || verb is MoveFile || verb is MoveDir
}

/// Whether the verb keeps a backup in the scratch area.
pub open spec fn keeps_backup(verb: Verb) -> bool {
    verb is ModifyFile || verb is RemoveFile || verb is RemoveDir
}

/// An entry of the change log, as the contracts see it.
#[allow(inconsistent_fields)]
pub enum ChangeView {
    CreatedFile { component: Seq<char>, path: Seq<Seq<char>> },
    CreatedDir { component: Seq<char>, path: Seq<Seq<char>> },
    ModifiedFile { path: Seq<Seq<char>>, backup: Option<ScratchId> },
    RemovedFile { component: Seq<char>, path: Seq<Seq<char>>, backup: ScratchId },
    RemovedDir { component: Seq<char>, path: Seq<Seq<char>>, backup: ScratchId },
}

/// The place that a change is about.
pub open spec fn place_of(change: ChangeView) -> Seq<Seq<char>> {
    match change {
        ChangeView::CreatedFile { path, .. } => path,
        ChangeView::CreatedDir { path, .. } => path,
        ChangeView::ModifiedFile { path, .. } => path,
        ChangeView::RemovedFile { path, .. } => path,
        ChangeView::RemovedDir { path, .. } => path,
    }
}

/// The scratch place where a change keeps what it replaced, if it keeps any.
pub open spec fn backup_of(change: ChangeView) -> Option<ScratchId> {
    match change {
        ChangeView::CreatedFile { .. } => None,
        ChangeView::CreatedDir { .. } => None,
        ChangeView::ModifiedFile { backup, .. } => backup,
        ChangeView::RemovedFile { backup, .. } => Some(backup),
        ChangeView::RemovedDir { backup, .. } => Some(backup),
    }
}

/// One change that a transaction made, with what is needed to undo it.
#[derive(Debug, Clone, PartialEq, Eq)]
#[allow(inconsistent_fields)]
pub enum ChangedItem {
    /// A file was created. Undone by deleting it.
    CreatedFile { component: String, path: InstallPath },
    /// A directory was created. Undone by deleting it with all below it.
    CreatedDir { component: String, path: InstallPath },
    /// A file is about to be written. Undone by putting the backup in its
    /// place, or, where there was no file before, by deleting the file.
    ModifiedFile { path: InstallPath, backup: Option<ScratchId> },
    /// A file was removed. Undone by moving the backup to its place.
    RemovedFile { component: String, path: InstallPath, backup: ScratchId },
    /// A directory was removed. Undone by moving the backup to its place.
    RemovedDir { component: String, path: InstallPath, backup: ScratchId },
}

impl View for ChangedItem {
    type V = ChangeView;

    open spec fn view(&self) -> ChangeView {
        match self {
            ChangedItem::CreatedFile { component, path } => ChangeView::CreatedFile {
                component: component@,
                path: path@,
            },
            ChangedItem::CreatedDir { component, path } => ChangeView::CreatedDir {
                component: component@,
                path: path@,
            },
            ChangedItem::ModifiedFile { path, backup } => ChangeView::ModifiedFile {
                path: path@,
                backup: *backup,
            },
            ChangedItem::RemovedFile { component, path, backup } => ChangeView::RemovedFile {
                component: component@,
                path: path@,
                backup: *backup,
            },
            ChangedItem::RemovedDir { component, path, backup } => ChangeView::RemovedDir {
                component: component@,
                path: path@,
                backup: *backup,
            },
        }
    }
}

/// The changes that a list holds, as the contracts see them.
pub open spec fn change_views(changes: Seq<ChangedItem>) -> Seq<ChangeView> {
    Seq::new(changes.len(), |i: int| changes[i]@)
}

/// A verb that was asked for and is not settled yet, as the contracts see it.
pub struct PendingView {
    pub verb: Verb,
    pub component: Seq<char>,
    pub path: Seq<Seq<char>>,
    pub src: Seq<char>,
    pub backup: ScratchId,
}

/// The request that carries out a pending verb.
pub open spec fn request_for(root: Seq<char>, pending: PendingView) -> RequestView {
    let path = AbsView { root, below: pending.path };
    match pending.verb {
        Verb::AddFile => RequestView::Create { path },
        Verb::CopyFile => RequestView::Transfer {
            how: Transfer::Copy,
            what: Entry::File,
            src: pending.src,
            dest: path,
        },
        Verb::CopyDir => RequestView::Transfer {
            how: Transfer::Copy,
            what: Entry::Dir,
            src: pending.src,
            dest: path,
        },
        Verb::MoveFile => RequestView::Transfer {
            how: Transfer::Move,
            what: Entry::File,
            src: pending.src,
            dest: path,
        },
        Verb::MoveDir => RequestView::Transfer {
            how: Transfer::Move,
            what: Entry::Dir,
            src: pending.src,
            dest: path,
        },
        Verb::ModifyFile => RequestView::Backup { path, backup: pending.backup },
        Verb::RemoveFile => RequestView::Stash { what: Entry::File, path, backup: pending.backup },
        Verb::RemoveDir => RequestView::Stash { what: Entry::Dir, path, backup: pending.backup },
    }
}

/// The log entry for a pending verb whose request was done.
pub open spec fn change_done(pending: PendingView) -> ChangeView {
    match pending.verb {
        Verb::AddFile | Verb::CopyFile | Verb::MoveFile => ChangeView::CreatedFile {
            component: pending.component,
            path: pending.path,
        },
        Verb::CopyDir | Verb::MoveDir => ChangeView::CreatedDir {
            component: pending.component,
            path: pending.path,
        },
        Verb::ModifyFile => ChangeView::ModifiedFile {
            path: pending.path,
            backup: Some(pending.backup),
        },
        Verb::RemoveFile => ChangeView::RemovedFile {
            component: pending.component,
            path: pending.path,
            backup: pending.backup,
        },
        Verb::RemoveDir => ChangeView::RemovedDir {
            component: pending.component,
            path: pending.path,
            backup: pending.backup,
        },
    }
}

/// The log entry that an outcome earns a pending verb, if it earns one.
///
/// A request that was done earns the verb's entry. A file to be modified
/// that is not there is in order too: there is nothing to back up.
pub open spec fn change_for(pending: PendingView, outcome: OutcomeView) -> Option<ChangeView> {
    if outcome is Done {
        Some(change_done(pending))
    } else if outcome is NotFound && pending.verb is ModifyFile {
        Some(ChangeView::ModifiedFile { path: pending.path, backup: None })
    } else {
        None
    }
}

/// The error for a pending verb whose request was refused.
///
/// A place that is taken where something is to be created, and something
/// missing where it is to be removed or brought in, break the verb's
/// precondition. Everything else is the filesystem's failure.
pub open spec fn refusal_for(pending: PendingView, outcome: OutcomeView) -> ErrorView {
    if (outcome is AlreadyExists && creates(pending.verb)) || (outcome is NotFound && (transfers(
        pending.verb,
    ) || pending.verb is RemoveFile || pending.verb is RemoveDir)) {
        ErrorView::PreconditionViolated { op: op_of(pending.verb), path: pending.path }
    } else {
        ErrorView::FilesystemError {
            op: op_of(pending.verb),
            path: pending.path,
            cause: cause_of(outcome),
        }
    }
}

/// The request that undoes a change.
pub open spec fn undo_request(root: Seq<char>, change: ChangeView) -> RequestView {
    match change {
        ChangeView::CreatedFile { path, .. } => RequestView::Delete {
            what: Entry::File,
            path: AbsView { root, below: path },
        },
        ChangeView::CreatedDir { path, .. } => RequestView::Delete {
            what: Entry::Dir,
            path: AbsView { root, below: path },
        },
        ChangeView::ModifiedFile { path, backup: Some(backup) } => RequestView::Restore {
            what: Entry::File,
            backup,
            path: AbsView { root, below: path },
        },
        ChangeView::ModifiedFile { path, backup: None } => RequestView::Delete {
            what: Entry::File,
            path: AbsView { root, below: path },
        },
        ChangeView::RemovedFile { path, backup, .. } => RequestView::Restore {
            what: Entry::File,
            backup,
            path: AbsView { root, below: path },
        },
        ChangeView::RemovedDir { path, backup, .. } => RequestView::Restore {
            what: Entry::Dir,
            backup,
            path: AbsView { root, below: path },
        },
    }
}

/// Whether an outcome of undoing `change` counts as success: the request was
/// done, or there was nothing left to delete.
pub open spec fn tolerated(change: ChangeView, outcome: OutcomeView) -> bool {
    outcome is Done || (outcome is NotFound && backup_of(change) is None)
}

/// What holds of every change log: its places are relative, and its backups
/// are distinct places that the scratch area has handed out.
pub open spec fn log_sound(changes: Seq<ChangeView>, issued: int) -> bool {
    &&& forall|i: int| 0 <= i < changes.len() ==> relative(#[trigger] place_of(changes[i]))
    &&& forall|i: int|
        0 <= i < changes.len() ==> (#[trigger] backup_of(changes[i]) matches Some(b) ==> b.index
            < issued)
    &&& forall|i: int, j: int|
        0 <= i < j < changes.len() && backup_of(changes[i]) is Some ==> #[trigger] backup_of(
            changes[i],
        ) != #[trigger] backup_of(changes[j])
}

/// A file may be written while the log covers it: the newest entry about
/// its place, or about a place above or below, says that the file was
/// created or is being modified.
pub open spec fn covered(changes: Seq<ChangeView>, place: Seq<Seq<char>>) -> bool
    decreases changes.len(),
{
    if changes.len() == 0 {
        false
    } else {
        let last = changes.last();
        if prefix_of(place_of(last), place) || prefix_of(place, place_of(last)) {
            place_of(last) == place && (last is CreatedFile || last is ModifiedFile)
        } else {
            covered(changes.drop_last(), place)
        }
    }
}

/// The log keeps nothing at the scratch place `place`.
pub open spec fn spare(changes: Seq<ChangeView>, place: ScratchId) -> bool {
    forall|i: int| 0 <= i < changes.len() ==> #[trigger] backup_of(changes[i]) != Some(place)
}

/// The file that the newest entry of the log created or announced as
/// modified, if the newest entry is of that kind.
pub open spec fn newest_file(changes: Seq<ChangeView>) -> Option<Seq<Seq<char>>> {
    if changes.len() > 0 && (changes.last() is CreatedFile || changes.last() is ModifiedFile) {
        Some(place_of(changes.last()))
    } else {
        None
    }
}

/// The log covers the file that its newest entry created or announced.
pub proof fn lemma_newest_covered(changes: Seq<ChangeView>)
    requires
        newest_file(changes) is Some,
    ensures
        covered(changes, newest_file(changes)->0),
{
    let place = place_of(changes.last());
    assert(prefix_of(place, place)) by {
        assert(place.take(place.len() as int) == place);
    }
}

/// Where a transaction stands.
#[derive(Debug, Clone, Copy, PartialEq, Eq, Structural)]
pub enum TxState {
    Open,
    Committed,
    RolledBack,
}

struct Pending {
    verb: Verb,
    component: String,
    path: InstallPath,
    src: String,
    backup: ScratchId,
}

impl View for Pending {
    type V = PendingView;

    closed spec fn view(&self) -> PendingView {
        PendingView {
            verb: self.verb,
            component: self.component@,
            path: self.path@,
            src: self.src@,
            backup: self.backup,
        }
    }
}

/// A transaction on one install prefix.
pub struct Transaction {
    prefix: InstallPrefix,
    changes: Vec<ChangedItem>,
    issued: u64,
    state: TxState,
    pending: Option<Pending>,
}

/// A transaction, as the contracts see it.
pub struct TxView {
    /// The root of the prefix that the transaction works on.
    pub root: Seq<char>,
    /// The change log, oldest entry first.
    pub changes: Seq<ChangeView>,
    /// How many scratch places were handed out.
    pub issued: int,
    /// Where the transaction stands.
    pub state: TxState,
    /// The verb that was asked for and is not settled yet.
    pub pending: Option<PendingView>,
}

/// What holds of every transaction: its log is sound, and a pending verb
/// has a relative path and, where it keeps a backup, a scratch place of its
/// own.
pub open spec fn sound(tx: TxView) -> bool {
    &&& 0 <= tx.issued <= u64::MAX
    &&& log_sound(tx.changes, tx.issued)
    &&& match tx.pending {
        Some(p) => {
            &&& tx.state is Open
            &&& relative(p.path)
            &&& keeps_backup(p.verb) ==> p.backup.index < tx.issued && forall|i: int|
                0 <= i < tx.changes.len() ==> #[trigger] backup_of(tx.changes[i]) != Some(
                    p.backup,
                )
        },
        None => true,
    }
}

impl View for Transaction {
    type V = TxView;

    closed spec fn view(&self) -> TxView {
        TxView {
            root: self.prefix.root(),
            changes: change_views(self.changes@),
            issued: self.issued as int,
            state: self.state,
            pending: match self.pending {
                Some(p) => Some(p@),
                None => None,
            },
        }
    }
}

impl Transaction {
    /// The root of the prefix that the transaction works on.
    pub open spec fn root(&self) -> Seq<char> {
        self@.root
    }

    /// The change log, oldest entry first.
    pub open spec fn changes(&self) -> Seq<ChangeView> {
        self@.changes
    }

    /// How many scratch places were handed out.
    pub open spec fn issued(&self) -> int {
        self@.issued
    }

    /// Where the transaction stands.
    pub open spec fn state(&self) -> TxState {
        self@.state
    }

    /// The verb that was asked for and is not settled yet.
    pub open spec fn pending(&self) -> Option<PendingView> {
        self@.pending
    }

    /// The transaction is well formed.
    pub open spec fn wf(&self) -> bool {
        sound(self@)
    }

    /// A new transaction on `prefix`: open, with an empty log.
    pub fn new(prefix: InstallPrefix) -> (tx: Self)
        ensures
            tx.wf(),
            tx.state() is Open,
            tx.root() == prefix.root(),
            tx.changes() == Seq::<ChangeView>::empty(),
            tx.pending() is None,
            tx.issued() == 0,
    {
        let tx = Transaction {
            prefix,
            changes: Vec::new(),
            issued: 0,
            state: TxState::Open,
            pending: None,
        };
        assert(tx.changes() == Seq::<ChangeView>::empty());
        tx
    }

    /// Whether the transaction is open.
    pub fn is_open(&self) -> (b: bool)
        ensures
            b == (self.state() is Open),
    {
        match self.state {
            TxState::Open => true,
            _ => false,
        }
    }

    /// Whether a verb waits to be settled.
    pub fn has_pending(&self) -> (b: bool)
        ensures
            b == (self.pending() is Some),
    {
        self.pending.is_some()
    }

    /// How many entries the change log holds.
    pub fn len(&self) -> (n: usize)
        ensures
            n == self.changes().len(),
    {
        self.changes.len()
    }

    /// The file that the newest entry of the log created or announced as
    /// modified, if the newest entry is of that kind.
    pub fn newest_file(&self) -> (file: Option<InstallPath>)
        requires
            self.wf(),
        ensures
            match file {
                Some(path) => newest_file(self.changes()) == Some(path@) && relative(path@),
                None => newest_file(self.changes()) is None,
            },
    {
        let n = self.changes.len();
        if n == 0 {
            return None;
        }
        assert(self.changes().last() == self.changes@[n - 1]@);
        assert(relative(place_of(self.changes()[n - 1])));
        match &self.changes[n - 1] {
            ChangedItem::CreatedFile { path, .. } => Some(path.clone()),
            ChangedItem::ModifiedFile { path, .. } => Some(path.clone()),
            _ => None,
        }
    }

    /// The prefix that the transaction works on.
    pub fn prefix(&self) -> (prefix: InstallPrefix)
        ensures
            prefix.root() == self.root(),
    {
        self.prefix.clone()
    }

    /// Hands out a scratch place for the caller's own use; `None` when the
    /// scratch area has no place left.
    pub fn temp(&mut self) -> (place: Option<ScratchId>)
        requires
            old(self).wf(),
        ensures
            final(self).wf(),
            final(self).root() == old(self).root(),
            final(self).changes() == old(self).changes(),
            final(self).state() == old(self).state(),
            final(self).pending() == old(self).pending(),
            match place {
                Some(id) => id.index == old(self).issued() && final(self).issued() == old(
                    self,
                ).issued() + 1,
                None => old(self).issued() == u64::MAX && final(self).issued() == old(
                    self,
                ).issued(),
            },
    {
        if self.issued == u64::MAX {
            return None;
        }
        let id = ScratchId { index: self.issued };
        self.issued = self.issued + 1;
        Some(id)
    }

    fn request_of(&self, pending: &Pending) -> (request: Request)
        requires
            relative(pending.path@),
        ensures
            request@ == request_for(self.root(), pending@),
    {
        let path = self.prefix.abs_path(pending.path.clone());
        match pending.verb {
            Verb::AddFile => Request::Create { path },
            Verb::CopyFile => Request::Transfer {
                how: Transfer::Copy,
                what: Entry::File,
                src: copy_of(pending.src.as_str()),
                dest: path,
            },
            Verb::CopyDir => Request::Transfer {
                how: Transfer::Copy,
                what: Entry::Dir,
                src: copy_of(pending.src.as_str()),
                dest: path,
            },
            Verb::MoveFile => Request::Transfer {
                how: Transfer::Move,
                what: Entry::File,
                src: copy_of(pending.src.as_str()),
                dest: path,
            },
            Verb::MoveDir => Request::Transfer {
                how: Transfer::Move,
                what: Entry::Dir,
                src: copy_of(pending.src.as_str()),
                dest: path,
            },
            Verb::ModifyFile => Request::Backup { path, backup: pending.backup },
            Verb::RemoveFile => Request::Stash { what: Entry::File, path, backup: pending.backup },
            Verb::RemoveDir => Request::Stash { what: Entry::Dir, path, backup: pending.backup },
        }
    }
}

/// The name under which a verb appears in errors.
pub fn verb_op(verb: Verb) -> (op: Op)
    ensures
        op == op_of(verb),
{
    match verb {
        Verb::AddFile => Op::AddFile,
        Verb::CopyFile => Op::CopyFile,
        Verb::CopyDir => Op::CopyDir,
        Verb::MoveFile => Op::MoveFile,
        Verb::MoveDir => Op::MoveDir,
        Verb::ModifyFile => Op::ModifyFile,
        Verb::RemoveFile => Op::RemoveFile,
        Verb::RemoveDir => Op::RemoveDir,
    }
}


/// An answer to a verb, as the contracts see it.
pub open spec fn answer_view(answer: Result<Request, Error>) -> Result<RequestView, ErrorView> {
    match answer {
        Ok(request) => Ok(request@),
        Err(error) => Err(error@),
    }
}

/// What the contracts say of a verb that was just asked for.
///
/// With a relative path, and a scratch place left where the verb keeps a
/// backup, the verb is pending and `request` carries it out. Otherwise
/// nothing is pending and the error says why.
pub open spec fn planned(
    before: TxView,
    after: TxView,
    verb: Verb,
    component: Seq<char>,
    path: Seq<Seq<char>>,
    src: Seq<char>,
    answer: Result<RequestView, ErrorView>,
) -> bool {
    let pending = PendingView {
        verb,
        component,
        path,
        src,
        backup: ScratchId { index: before.issued as u64 },
    };
    &&& after.root == before.root
    &&& after.changes == before.changes
    &&& after.state == before.state
    &&& if !relative(path) {
        &&& after.pending is None
        &&& after.issued == before.issued
        &&& answer == Err::<RequestView, ErrorView>(
            ErrorView::PreconditionViolated { op: op_of(verb), path },
        )
    } else if keeps_backup(verb) && before.issued == u64::MAX {
        &&& after.pending is None
        &&& after.issued == before.issued
        &&& answer == Err::<RequestView, ErrorView>(
            ErrorView::FilesystemError { op: op_of(verb), path, cause: "scratch area exhausted"@ },
        )
    } else {
        &&& after.pending == Some(pending)
        &&& after.issued == before.issued + if keeps_backup(verb) {
            1int
        } else {
            0int
        }
        &&& answer == Ok::<RequestView, ErrorView>(request_for(before.root, pending))
    }
}

impl Transaction {
    /// Asks for `verb`.
    pub(crate) fn plan(&mut self, verb: Verb, component: &str, path: InstallPath, src: &str) -> (answer:
        Result<Request, Error>)
        requires
            old(self).wf(),
            old(self).state() is Open,
            old(self).pending() is None,
        ensures
            final(self).wf(),
            planned(old(self)@, final(self)@, verb, component@, path@, src@, answer_view(answer)),
    {
        if !path.is_relative() {
            return Err(Error::PreconditionViolated { op: verb_op(verb), path });
        }
        let uses_scratch = match verb {
            Verb::ModifyFile | Verb::RemoveFile | Verb::RemoveDir => true,
            _ => false,
        };
        let backup = ScratchId { index: self.issued };
        if uses_scratch {
            if self.issued == u64::MAX {
                return Err(
                    Error::FilesystemError {
                        op: verb_op(verb),
                        path,
                        cause: copy_of("scratch area exhausted"),
                    },
                );
            }
            self.issued = self.issued + 1;
        }
        let pending = Pending {
            verb,
            component: copy_of(component),
            path,
            src: copy_of(src),
            backup,
        };
        let request = self.request_of(&pending);
        self.pending = Some(pending);
        Ok(request)
    }

    /// Asks to create an empty file at `relpath`.
    pub fn add_file(&mut self, component: &str, relpath: InstallPath) -> (answer: Result<
        Request,
        Error,
    >)
        requires
            old(self).wf(),
            old(self).state() is Open,
            old(self).pending() is None,
        ensures
            final(self).wf(),
            planned(old(self)@, final(self)@,
                Verb::AddFile,
                component@,
                relpath@,
                Seq::<char>::empty(),
                answer_view(answer),
            ),
    {
        let answer = self.plan(Verb::AddFile, component, relpath, "");
        proof {
            reveal_strlit("");
            assert(""@ == Seq::<char>::empty());
        }
        answer
    }

    /// Asks to copy the file at `src` to `relpath`.
    pub fn copy_file(&mut self, component: &str, relpath: InstallPath, src: &str) -> (answer:
        Result<Request, Error>)
        requires
            old(self).wf(),
            old(self).state() is Open,
            old(self).pending() is None,
        ensures
            final(self).wf(),
            planned(old(self)@, final(self)@, Verb::CopyFile, component@, relpath@, src@, answer_view(answer)),
    {
        self.plan(Verb::CopyFile, component, relpath, src)
    }

    /// Asks to copy the directory at `src`, with all below it, to `relpath`.
    pub fn copy_dir(&mut self, component: &str, relpath: InstallPath, src: &str) -> (answer:
        Result<Request, Error>)
        requires
            old(self).wf(),
            old(self).state() is Open,
            old(self).pending() is None,
        ensures
            final(self).wf(),
            planned(old(self)@, final(self)@, Verb::CopyDir, component@, relpath@, src@, answer_view(answer)),
    {
        self.plan(Verb::CopyDir, component, relpath, src)
    }

    /// Asks to move the file at `src` to `relpath`.
    pub fn move_file(&mut self, component: &str, relpath: InstallPath, src: &str) -> (answer:
        Result<Request, Error>)
        requires
            old(self).wf(),
            old(self).state() is Open,
            old(self).pending() is None,
        ensures
            final(self).wf(),
            planned(old(self)@, final(self)@, Verb::MoveFile, component@, relpath@, src@, answer_view(answer)),
    {
        self.plan(Verb::MoveFile, component, relpath, src)
    }

    /// Asks to move the directory at `src`, with all below it, to `relpath`.
    pub fn move_dir(&mut self, component: &str, relpath: InstallPath, src: &str) -> (answer:
        Result<Request, Error>)
        requires
            old(self).wf(),
            old(self).state() is Open,
            old(self).pending() is None,
        ensures
            final(self).wf(),
            planned(old(self)@, final(self)@, Verb::MoveDir, component@, relpath@, src@, answer_view(answer)),
    {
        self.plan(Verb::MoveDir, component, relpath, src)
    }

    /// Announces that the file at `relpath` is about to be written, so that
    /// what it holds now is kept. The file need not be there.
    pub fn modify_file(&mut self, relpath: InstallPath) -> (answer: Result<Request, Error>)
        requires
            old(self).wf(),
            old(self).state() is Open,
            old(self).pending() is None,
        ensures
            final(self).wf(),
            planned(old(self)@, final(self)@,
                Verb::ModifyFile,
                Seq::<char>::empty(),
                relpath@,
                Seq::<char>::empty(),
                answer_view(answer),
            ),
    {
        let answer = self.plan(Verb::ModifyFile, "", relpath, "");
        proof {
            reveal_strlit("");
            assert(""@ == Seq::<char>::empty());
        }
        answer
    }

    /// Asks to remove the file at `relpath`.
    pub fn remove_file(&mut self, component: &str, relpath: InstallPath) -> (answer: Result<
        Request,
        Error,
    >)
        requires
            old(self).wf(),
            old(self).state() is Open,
            old(self).pending() is None,
        ensures
            final(self).wf(),
            planned(old(self)@, final(self)@,
                Verb::RemoveFile,
                component@,
                relpath@,
                Seq::<char>::empty(),
                answer_view(answer),
            ),
    {
        let answer = self.plan(Verb::RemoveFile, component, relpath, "");
        proof {
            reveal_strlit("");
            assert(""@ == Seq::<char>::empty());
        }
        answer
    }

    /// Asks to remove the directory at `relpath` with all below it.
    pub fn remove_dir(&mut self, component: &str, relpath: InstallPath) -> (answer: Result<
        Request,
        Error,
    >)
        requires
            old(self).wf(),
            old(self).state() is Open,
            old(self).pending() is None,
        ensures
            final(self).wf(),
            planned(old(self)@, final(self)@,
                Verb::RemoveDir,
                component@,
                relpath@,
                Seq::<char>::empty(),
                answer_view(answer),
            ),
    {
        let answer = self.plan(Verb::RemoveDir, component, relpath, "");
        proof {
            reveal_strlit("");
            assert(""@ == Seq::<char>::empty());
        }
        answer
    }

    /// Takes the outcome of the pending verb's request.
    ///
    /// Where the outcome earns the verb an entry, the entry is added to the
    /// end of the log. Where it does not, the log stays as it is and the
    /// error says what went wrong. Either way nothing is pending afterwards.
    pub fn settle(&mut self, outcome: Outcome) -> (answer: Result<(), Error>)
        requires
            old(self).wf(),
            old(self).pending() is Some,
        ensures
            final(self).wf(),
            final(self).root() == old(self).root(),
            final(self).state() == old(self).state(),
            final(self).issued() == old(self).issued(),
            final(self).pending() is None,
            match change_for(old(self).pending()->0, outcome@) {
                Some(change) => answer is Ok && final(self).changes() == old(self).changes().push(
                    change,
                ),
                None => answer is Err && answer->Err_0@ == refusal_for(
                    old(self).pending()->0,
                    outcome@,
                ) && final(self).changes() == old(self).changes(),
            },
    {
        let pending = match self.pending.take() {
            Some(pending) => pending,
            None => { return Ok(()); },
        };
        let ghost before = self.changes();
        let ghost view = pending@;
        let Pending { verb, component, path, src, backup } = pending;
        let found = match outcome {
            Outcome::NotFound => false,
            _ => true,
        };
        if outcome.is_done() || (!found && matches!(verb, Verb::ModifyFile)) {
            let change = match verb {
                Verb::AddFile | Verb::CopyFile | Verb::MoveFile => ChangedItem::CreatedFile {
                    component,
                    path,
                },
                Verb::CopyDir | Verb::MoveDir => ChangedItem::CreatedDir { component, path },
                Verb::ModifyFile => ChangedItem::ModifiedFile {
                    path,
                    backup: if found {
                        Some(backup)
                    } else {
                        None
                    },
                },
                Verb::RemoveFile => ChangedItem::RemovedFile { component, path, backup },
                Verb::RemoveDir => ChangedItem::RemovedDir { component, path, backup },
            };
            assert(Some(change@) == change_for(view, outcome@));
            self.changes.push(change);
            proof {
                let now = self.changes();
                assert(now == before.push(change@));
                assert(log_sound(now, self.issued())) by {
                    assert forall|i: int| 0 <= i < now.len() implies relative(
                        #[trigger] place_of(now[i]),
                    ) by {
                        if i < before.len() {
                            assert(now[i] == before[i]);
                        }
                    }
                    assert forall|i: int| 0 <= i < now.len() implies (#[trigger] backup_of(
                        now[i],
                    ) matches Some(b) ==> b.index < self.issued()) by {
                        if i < before.len() {
                            assert(now[i] == before[i]);
                        }
                    }
                    assert forall|i: int, j: int|
                        0 <= i < j < now.len() && backup_of(now[i]) is Some implies #[trigger] backup_of(
                            now[i],
                        ) != #[trigger] backup_of(now[j]) by {
                        assert(now[i] == before[i]);
                        if j < before.len() {
                            assert(now[j] == before[j]);
                        }
                    }
                }
            }
            return Ok(());
        }
        assert(change_for(view, outcome@) is None);
        let creating = match verb {
            Verb::AddFile | Verb::CopyFile | Verb::CopyDir | Verb::MoveFile | Verb::MoveDir => true,
            _ => false,
        };
        let needs_source = match verb {
            Verb::CopyFile | Verb::CopyDir | Verb::MoveFile | Verb::MoveDir | Verb::RemoveFile
            | Verb::RemoveDir => true,
            _ => false,
        };
        let taken = match outcome {
            Outcome::AlreadyExists => true,
            _ => false,
        };
        if (taken && creating) || (!found && needs_source) {
            Err(Error::PreconditionViolated { op: verb_op(verb), path })
        } else {
            Err(Error::FilesystemError { op: verb_op(verb), path, cause: outcome.cause() })
        }
    }

    /// Ends the transaction and keeps what it did: the log is emptied and the
    /// scratch area, with all backups, is to be deleted.
    pub fn commit(&mut self) -> (cleanup: Request)
        requires
            old(self).wf(),
            old(self).state() is Open,
        ensures
            final(self).wf(),
            final(self).state() is Committed,
            final(self).changes() == Seq::<ChangeView>::empty(),
            final(self).pending() is None,
            final(self).root() == old(self).root(),
            cleanup@ == RequestView::DiscardScratch,
    {
        self.changes = Vec::new();
        self.pending = None;
        self.state = TxState::Committed;
        assert(self.changes() == Seq::<ChangeView>::empty());
        Request::DiscardScratch
    }

    /// Ends the transaction and hands its log over to be undone. `cause` is
    /// the error that made the transaction fail, if one did.
    pub fn rollback(&mut self, cause: Option<Error>) -> (undo: Rollback)
        requires
            old(self).wf(),
            old(self).state() is Open,
        ensures
            final(self).wf(),
            final(self).state() is RolledBack,
            final(self).changes() == Seq::<ChangeView>::empty(),
            final(self).pending() is None,
            final(self).root() == old(self).root(),
            undo.wf(),
            undo.root() == old(self).root(),
            undo.remaining() == old(self).changes(),
            undo.secondary() == Seq::<UndoFailureView>::empty(),
            undo.original() == cause,
            !undo.discarded(),
    {
        let mut changes: Vec<ChangedItem> = Vec::new();
        let ghost before = self.changes();
        core::mem::swap(&mut changes, &mut self.changes);
        self.pending = None;
        self.state = TxState::RolledBack;
        assert(self.changes() == Seq::<ChangeView>::empty());
        let undo = Rollback {
            prefix: self.prefix.clone(),
            remaining: changes,
            original: cause,
            secondary: Vec::new(),
            discarded: false,
        };
        assert(undo.secondary() == Seq::<UndoFailureView>::empty());
        undo
    }
}

/// The undoing of a transaction's log, newest entry first.
///
/// [`Rollback::request`] names the next thing to do, [`Rollback::settle`]
/// takes what became of it. Every entry is tried, whether or not an earlier
/// one failed; what fails is collected. When the log is used up the scratch
/// area is deleted.
pub struct Rollback {
    prefix: InstallPrefix,
    remaining: Vec<ChangedItem>,
    original: Option<Error>,
    secondary: Vec<UndoFailure>,
    discarded: bool,
}

impl Rollback {
    /// The root of the prefix.
    pub closed spec fn root(&self) -> Seq<char> {
        self.prefix.root()
    }

    /// The entries still to undo, oldest first: the last one is next.
    pub closed spec fn remaining(&self) -> Seq<ChangeView> {
        change_views(self.remaining@)
    }

    /// What went wrong while undoing, in the order met.
    pub closed spec fn secondary(&self) -> Seq<UndoFailureView> {
        failure_views(self.secondary@)
    }

    /// The error that made the transaction fail, if one did.
    pub closed spec fn original(&self) -> Option<Error> {
        self.original
    }

    /// Whether the scratch area was dealt with.
    pub closed spec fn discarded(&self) -> bool {
        self.discarded
    }

    /// The rollback is well formed: the places in its log are relative.
    pub closed spec fn wf(&self) -> bool {
        forall|i: int|
            0 <= i < self.remaining().len() ==> relative(#[trigger] place_of(self.remaining()[i]))
    }

    /// The next thing to do: the undoing of the newest entry left; after the
    /// last entry, once, the deletion of the scratch area; then nothing.
    pub fn request(&self) -> (next: Option<Request>)
        requires
            self.wf(),
        ensures
            match next {
                Some(request) => if self.remaining().len() > 0 {
                    request@ == undo_request(self.root(), self.remaining().last())
                } else {
                    !self.discarded() && request@ == RequestView::DiscardScratch
                },
                None => self.remaining().len() == 0 && self.discarded(),
            },
    {
        let n = self.remaining.len();
        if n == 0 {
            if self.discarded {
                return None;
            }
            return Some(Request::DiscardScratch);
        }
        assert(self.remaining().last() == self.remaining@[n - 1]@);
        assert(relative(place_of(self.remaining()[n - 1])));
        let request = match &self.remaining[n - 1] {
            ChangedItem::CreatedFile { path, .. } => Request::Delete {
                what: Entry::File,
                path: self.prefix.abs_path(path.clone()),
            },
            ChangedItem::CreatedDir { path, .. } => Request::Delete {
                what: Entry::Dir,
                path: self.prefix.abs_path(path.clone()),
            },
            ChangedItem::ModifiedFile { path, backup: Some(backup) } => Request::Restore {
                what: Entry::File,
                backup: *backup,
                path: self.prefix.abs_path(path.clone()),
            },
            ChangedItem::ModifiedFile { path, backup: None } => Request::Delete {
                what: Entry::File,
                path: self.prefix.abs_path(path.clone()),
            },
            ChangedItem::RemovedFile { path, backup, .. } => Request::Restore {
                what: Entry::File,
                backup: *backup,
                path: self.prefix.abs_path(path.clone()),
            },
            ChangedItem::RemovedDir { path, backup, .. } => Request::Restore {
                what: Entry::Dir,
                backup: *backup,
                path: self.prefix.abs_path(path.clone()),
            },
        };
        Some(request)
    }

    /// Takes what became of the request that [`Rollback::request`] named.
    ///
    /// The entry leaves the log whatever the outcome. An outcome that is not
    /// tolerated is added to the failures. A failure to delete the scratch
    /// area is recorded for the root.
    pub fn settle(&mut self, outcome: Outcome) -> (warning: Option<Notification>)
        requires
            old(self).wf(),
        ensures
            final(self).wf(),
            final(self).root() == old(self).root(),
            final(self).original() == old(self).original(),
            match warning {
                Some(event) => final(self).secondary().len() == old(self).secondary().len() + 1
                    && event@ == (NotificationView::NonFatalError {
                    path: final(self).secondary().last().path,
                    cause: final(self).secondary().last().cause,
                }),
                None => final(self).secondary() == old(self).secondary(),
            },
            if old(self).remaining().len() > 0 {
                &&& final(self).remaining() == old(self).remaining().drop_last()
                &&& final(self).discarded() == old(self).discarded()
                &&& final(self).secondary() == if tolerated(
                    old(self).remaining().last(),
                    outcome@,
                ) {
                    old(self).secondary()
                } else {
                    old(self).secondary().push(
                        UndoFailureView {
                            path: place_of(old(self).remaining().last()),
                            cause: cause_of(outcome@),
                        },
                    )
                }
            } else {
                &&& final(self).remaining() == old(self).remaining()
                &&& final(self).discarded()
                &&& final(self).secondary() == if old(self).discarded() || outcome@ is Done {
                    old(self).secondary()
                } else {
                    old(self).secondary().push(
                        UndoFailureView {
                            path: Seq::<Seq<char>>::empty(),
                            cause: cause_of(outcome@),
                        },
                    )
                }
            },
    {
        let ghost log = self.remaining();
        let ghost failures = self.secondary();
        match self.remaining.pop() {
            Some(change) => {
                proof {
                    let now = self.remaining();
                    assert(now == log.drop_last());
                    assert(change@ == log.last());
                    assert forall|i: int| 0 <= i < now.len() implies relative(
                        #[trigger] place_of(now[i]),
                    ) by {
                        assert(now[i] == log[i]);
                    }
                }
                let missing = match outcome {
                    Outcome::NotFound => true,
                    _ => false,
                };
                let (path, deletes) = match change {
                    ChangedItem::CreatedFile { path, .. } => (path, true),
                    ChangedItem::CreatedDir { path, .. } => (path, true),
                    ChangedItem::ModifiedFile { path, backup: None } => (path, true),
                    ChangedItem::ModifiedFile { path, backup: Some(_) } => (path, false),
                    ChangedItem::RemovedFile { path, .. } => (path, false),
                    ChangedItem::RemovedDir { path, .. } => (path, false),
                };
                if !(outcome.is_done() || (missing && deletes)) {
                    let warning = Notification::NonFatalError {
                        path: path.clone(),
                        cause: outcome.cause(),
                    };
                    self.secondary.push(UndoFailure { path, cause: outcome.cause() });
                    assert(self.secondary() == failures.push(
                        UndoFailureView { path: place_of(log.last()), cause: cause_of(outcome@) },
                    ));
                    return Some(warning);
                }
                None
            },
            None => {
                assert(self.remaining() == log);
                if !self.discarded && !outcome.is_done() {
                    let warning = Notification::NonFatalError {
                        path: InstallPath::new(),
                        cause: outcome.cause(),
                    };
                    self.secondary.push(
                        UndoFailure { path: InstallPath::new(), cause: outcome.cause() },
                    );
                    assert(self.secondary() == failures.push(
                        UndoFailureView {
                            path: Seq::<Seq<char>>::empty(),
                            cause: cause_of(outcome@),
                        },
                    ));
                    self.discarded = true;
                    return Some(warning);
                }
                self.discarded = true;
                None
            },
        }
    }

    /// Whether nothing is left to do.
    pub fn is_done(&self) -> (b: bool)
        ensures
            b == (self.remaining().len() == 0 && self.discarded()),
    {
        self.remaining.len() == 0 && self.discarded
    }

    /// How the transaction ended.
    ///
    /// Where the undoing went through, this is the error that made the
    /// transaction fail, or success where none did. Where some of it failed,
    /// the failures are reported together with that error.
    pub fn finish(self) -> (end: Result<(), Error>)
        requires
            self.remaining().len() == 0,
            self.discarded(),
        ensures
            self.secondary().len() == 0 ==> match self.original() {
                Some(first) => end is Err && end->Err_0 == first,
                None => end is Ok,
            },
            self.secondary().len() > 0 ==> end is Err && end->Err_0@ == (
            ErrorView::RollbackFailure {
                original: match self.original() {
                    Some(first) => Some(Box::new(first@)),
                    None => None,
                },
                secondary: self.secondary(),
            }),
    {
        if self.secondary.len() == 0 {
            match self.original {
                Some(first) => Err(first),
                None => Ok(()),
            }
        } else {
            let original = match self.original {
                Some(first) => Some(Box::new(first)),
                None => None,
            };
            Err(Error::RollbackFailure { original, secondary: self.secondary })
        }
    }
}

} // verus!
