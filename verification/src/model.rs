//! What the requests mean, and what follows for a transaction.
//!
//! The model holds the files below the prefix, each with its lines, and
//! what the scratch area keeps. It says what a request that was done has
//! changed. Directories are not recorded: a directory is there while a file
//! lies below it. Over this model the laws of the transaction are proved:
//! undoing the log gives back every file as it was.

use vstd::prelude::*;
use crate::effect::{Entry, OutcomeView, RequestView, ScratchId};
use crate::path::prefix_of;
use crate::script::{ScriptView, quiet, resumed, script_sound, settled_tx, succeeds};
use crate::uninstall::{UninstallView, uninstall_resumed, uninstall_sound};
use crate::transaction::{
    ChangeView,
    TxView,
    Verb,
    backup_of,
    change_for,
    covered,
    keeps_backup,
    place_of,
    request_for,
    sound,
    tolerated,
    undo_request,
};

verus! {

/// The files below the prefix: the lines of each, by its place.
pub type Files = Map<Seq<Seq<char>>, Seq<Seq<char>>>;

/// What the model knows of the filesystem.
pub struct Disk {
    /// The files below the prefix.
    pub files: Files,
    /// What each scratch place keeps: files by their place below the place
    /// they were taken from, a single file under the empty place.
    pub scratch: Map<ScratchId, Files>,
}

/// Something lies at `place` or below it.
pub open spec fn occupied(files: Files, place: Seq<Seq<char>>) -> bool {
    exists|q: Seq<Seq<char>>| files.dom().contains(q) && #[trigger] prefix_of(place, q)
}

/// `files` without what lies at `place` or below it.
pub open spec fn cleared(files: Files, place: Seq<Seq<char>>) -> Files {
    Map::new(|q: Seq<Seq<char>>| files.dom().contains(q) && !prefix_of(place, q), |q: Seq<Seq<char>>| files[q])
}

/// What lies at `place` or below it, by its place below `place`.
pub open spec fn lifted(files: Files, place: Seq<Seq<char>>) -> Files {
    Map::new(
        |r: Seq<Seq<char>>| files.dom().contains(place + r),
        |r: Seq<Seq<char>>| files[place + r],
    )
}

/// `files` with `held` put at `place`, in place of whatever lay there.
pub open spec fn planted(files: Files, place: Seq<Seq<char>>, held: Files) -> Files {
    Map::new(
        |q: Seq<Seq<char>>|
            if prefix_of(place, q) {
                held.dom().contains(q.skip(place.len() as int))
            } else {
                files.dom().contains(q)
            },
        |q: Seq<Seq<char>>|
            if prefix_of(place, q) {
                held[q.skip(place.len() as int)]
            } else {
                files[q]
            },
    )
}

/// A single file, as a scratch place keeps it.
pub open spec fn single(lines: Seq<Seq<char>>) -> Files {
    Map::empty().insert(Seq::<Seq<char>>::empty(), lines)
}

/// What a request needs in order to be done.
pub open spec fn allowed(before: Disk, request: RequestView) -> bool {
    match request {
        RequestView::Create { path } => !occupied(before.files, path.below),
        RequestView::Transfer { dest, .. } => !occupied(before.files, dest.below),
        RequestView::Backup { path, .. } => before.files.dom().contains(path.below),
        RequestView::Stash { what, path, .. } => what is File ==> before.files.dom().contains(
            path.below,
        ),
        RequestView::Restore { what, backup, .. } => before.scratch.dom().contains(backup) && (
        what is File ==> before.scratch[backup].dom().contains(Seq::<Seq<char>>::empty())),
        RequestView::Promote { scratch, .. } => before.scratch.dom().contains(scratch)
            && before.scratch[scratch].dom().contains(Seq::<Seq<char>>::empty()),
        _ => true,
    }
}

/// What a request that was done leaves behind. For a transfer, whose
/// result depends on what lies outside the prefix, see [`done`].
pub open spec fn effect(before: Disk, request: RequestView) -> Disk {
    match request {
        RequestView::Create { path } => Disk {
            files: before.files.insert(path.below, Seq::empty()),
            ..before
        },
        RequestView::Write { path, lines } => Disk {
            files: before.files.insert(path.below, lines),
            ..before
        },
        RequestView::Append { path, line } => Disk {
            files: before.files.insert(
                path.below,
                if before.files.dom().contains(path.below) {
                    before.files[path.below].push(line)
                } else {
                    seq![line]
                },
            ),
            ..before
        },
        RequestView::Transfer { .. } => before,
        RequestView::Backup { path, backup } => Disk {
            scratch: before.scratch.insert(backup, single(before.files[path.below])),
            ..before
        },
        RequestView::Stash { what, path, backup } => match what {
            Entry::File => Disk {
                files: before.files.remove(path.below),
                scratch: before.scratch.insert(backup, single(before.files[path.below])),
            },
            Entry::Dir => Disk {
                files: cleared(before.files, path.below),
                scratch: before.scratch.insert(backup, lifted(before.files, path.below)),
            },
        },
        RequestView::Restore { what, backup, path } => match what {
            Entry::File => Disk {
                files: before.files.insert(
                    path.below,
                    before.scratch[backup][Seq::<Seq<char>>::empty()],
                ),
                scratch: before.scratch.remove(backup),
            },
            Entry::Dir => Disk {
                files: planted(before.files, path.below, before.scratch[backup]),
                scratch: before.scratch.remove(backup),
            },
        },
        RequestView::Delete { what, path } => match what {
            Entry::File => Disk { files: before.files.remove(path.below), ..before },
            Entry::Dir => Disk { files: cleared(before.files, path.below), ..before },
        },
        RequestView::WriteScratch { scratch, lines } => Disk {
            scratch: before.scratch.insert(scratch, single(lines)),
            ..before
        },
        RequestView::Promote { scratch, path } => Disk {
            files: before.files.insert(
                path.below,
                before.scratch[scratch][Seq::<Seq<char>>::empty()],
            ),
            scratch: before.scratch.remove(scratch),
        },
        RequestView::Probe { .. } => before,
        RequestView::DiscardScratch => Disk { scratch: Map::empty(), ..before },
    }
}

/// `request` was done and took the disk from `before` to `after`.
///
/// A transfer puts something at its destination, where nothing was, and
/// leaves the rest alone: a file is one entry, a directory is any number of
/// entries at or below the destination. Every other request has one result.
pub open spec fn done(before: Disk, request: RequestView, after: Disk) -> bool {
    &&& allowed(before, request)
    &&& match request {
        RequestView::Transfer { what, dest, .. } => {
            &&& after.scratch == before.scratch
            &&& match what {
                Entry::File => after.files.dom().contains(dest.below) && after.files.remove(
                    dest.below,
                ) == before.files,
                Entry::Dir => cleared(after.files, dest.below) == before.files,
            }
        },
        _ => after == effect(before, request),
    }
}

/// `request` met with `outcome` and took the disk from `before` to `after`.
///
/// A request that was not done has changed nothing. One that found nothing
/// to delete or to back up has that reason.
pub open spec fn performs(
    before: Disk,
    request: RequestView,
    outcome: OutcomeView,
    after: Disk,
) -> bool {
    if outcome is Done {
        done(before, request, after)
    } else {
        &&& after == before
        &&& outcome is NotFound ==> match request {
            RequestView::Delete { what: Entry::File, path } => !before.files.dom().contains(
                path.below,
            ),
            RequestView::Delete { what: Entry::Dir, path } => !occupied(before.files, path.below),
            RequestView::Backup { path, .. } => !before.files.dom().contains(path.below),
            _ => true,
        }
    }
}

/// The disk after the changes of a log are undone, newest first, each undo
/// request being done.
pub open spec fn unwound(root: Seq<char>, changes: Seq<ChangeView>, disk: Disk) -> Disk
    decreases changes.len(),
{
    if changes.len() == 0 {
        disk
    } else {
        unwound(root, changes.drop_last(), effect(disk, undo_request(root, changes.last())))
    }
}

/// Two disks hold the same files and keep the same under every scratch
/// place that the log relies on.
pub open spec fn alike(changes: Seq<ChangeView>, one: Disk, other: Disk) -> bool {
    &&& one.files == other.files
    &&& forall|i: int|
        0 <= i < changes.len() ==> (#[trigger] backup_of(changes[i]) matches Some(b) ==> (
        one.scratch.dom().contains(b) <==> other.scratch.dom().contains(b)) && one.scratch[b]
            == other.scratch[b])
}

/// Undoing a log gives the same files on disks that are alike.
pub proof fn lemma_unwound_alike(root: Seq<char>, changes: Seq<ChangeView>, one: Disk, other: Disk)
    requires
        alike(changes, one, other),
        forall|i: int, j: int|
            0 <= i < j < changes.len() && backup_of(changes[i]) is Some ==> #[trigger] backup_of(
                changes[i],
            ) != #[trigger] backup_of(changes[j]),
    ensures
        unwound(root, changes, one).files == unwound(root, changes, other).files,
    decreases changes.len(),
{
    if changes.len() > 0 {
        let last = changes.last();
        let rest = changes.drop_last();
        let request = undo_request(root, last);
        let one_after = effect(one, request);
        let other_after = effect(other, request);
        assert(backup_of(changes[changes.len() - 1]) == backup_of(last));
        assert(one_after.files == other_after.files);
        assert forall|i: int| 0 <= i < rest.len() implies (#[trigger] backup_of(
            rest[i],
        ) matches Some(b) ==> (one_after.scratch.dom().contains(b)
            <==> other_after.scratch.dom().contains(b)) && one_after.scratch[b]
            == other_after.scratch[b]) by {
            assert(rest[i] == changes[i]);
            assert(backup_of(changes[i]) is Some ==> backup_of(changes[i]) != backup_of(
                changes[changes.len() - 1],
            ));
        }
        assert forall|i: int, j: int|
            0 <= i < j < rest.len() && backup_of(rest[i]) is Some implies #[trigger] backup_of(
            rest[i],
        ) != #[trigger] backup_of(rest[j]) by {
            assert(rest[i] == changes[i]);
            assert(rest[j] == changes[j]);
        }
        lemma_unwound_alike(root, rest, one_after, other_after);
    }
}


/// Putting back what was lifted from a place gives the files as they were.
pub proof fn lemma_planted_lifted(files: Files, place: Seq<Seq<char>>)
    ensures
        planted(cleared(files, place), place, lifted(files, place)) == files,
{
    let back = planted(cleared(files, place), place, lifted(files, place));
    assert forall|q: Seq<Seq<char>>| back.dom().contains(q) <==> files.dom().contains(q) by {
        if prefix_of(place, q) {
            assert(place + q.skip(place.len() as int) == q) by {
                assert(q.take(place.len() as int) == place);
                assert(q.take(place.len() as int) + q.skip(place.len() as int) == q);
            }
        }
    }
    assert forall|q: Seq<Seq<char>>| back.dom().contains(q) implies back[q] == files[q] by {
        if prefix_of(place, q) {
            assert(place + q.skip(place.len() as int) == q) by {
                assert(q.take(place.len() as int) == place);
                assert(q.take(place.len() as int) + q.skip(place.len() as int) == q);
            }
        }
    }
    assert(back =~= files);
}

/// The log of a transaction after the outcome of its pending verb came in.
pub open spec fn log_after(tx: TxView, outcome: OutcomeView) -> Seq<ChangeView> {
    match change_for(tx.pending->0, outcome) {
        Some(change) => tx.changes.push(change),
        None => tx.changes,
    }
}

/// A verb keeps the way back: after the verb's request met with its
/// outcome, and the verb was settled, undoing the log gives the same files
/// as undoing the log before the verb.
pub proof fn lemma_verb_keeps_way_back(tx: TxView, outcome: OutcomeView, before: Disk, after: Disk)
    requires
        sound(tx),
        tx.pending is Some,
        performs(before, request_for(tx.root, tx.pending->0), outcome, after),
    ensures
        unwound(tx.root, log_after(tx, outcome), after).files == unwound(
            tx.root,
            tx.changes,
            before,
        ).files,
{
    let pending = tx.pending->0;
    let place = pending.path;
    match change_for(pending, outcome) {
        None => {
            assert(after == before);
        },
        Some(change) => {
            let log = tx.changes.push(change);
            assert(log.drop_last() == tx.changes);
            assert(log.last() == change);
            let back = effect(after, undo_request(tx.root, change));
            assert(unwound(tx.root, log, after) == unwound(tx.root, tx.changes, back));
            assert(back.files =~= before.files) by {
                if outcome is Done {
                    match pending.verb {
                        Verb::AddFile => {
                            assert(prefix_of(place, place)) by {
                                assert(place.take(place.len() as int) == place);
                            }
                            assert(!before.files.dom().contains(place));
                        },
                        Verb::CopyFile | Verb::MoveFile => {},
                        Verb::CopyDir | Verb::MoveDir => {},
                        Verb::ModifyFile => {},
                        Verb::RemoveFile => {},
                        Verb::RemoveDir => {
                            lemma_planted_lifted(before.files, place);
                            assert(cleared(cleared(before.files, place), place) =~= cleared(
                                before.files,
                                place,
                            ));
                            assert(planted(after.files, place, lifted(before.files, place))
                                =~= planted(
                                cleared(before.files, place),
                                place,
                                lifted(before.files, place),
                            ));
                        },
                    }
                }
            }
            assert(alike(tx.changes, back, before)) by {
                assert forall|i: int| 0 <= i < tx.changes.len() implies (#[trigger] backup_of(
                    tx.changes[i],
                ) matches Some(b) ==> (back.scratch.dom().contains(b)
                    <==> before.scratch.dom().contains(b)) && back.scratch[b]
                    == before.scratch[b]) by {
                    if keeps_backup(pending.verb) {
                        assert(backup_of(tx.changes[i]) != Some(pending.backup));
                    }
                }
            }
            lemma_unwound_alike(tx.root, tx.changes, back, before);
        },
    }
}

/// Undoing a change that is about another place, neither above nor below,
/// leaves what is at `place` alone.
proof fn lemma_undo_apart(root: Seq<char>, change: ChangeView, disk: Disk, place: Seq<Seq<char>>, lines: Seq<Seq<char>>)
    requires
        !prefix_of(place_of(change), place),
        !prefix_of(place, place_of(change)),
    ensures
        effect(Disk { files: disk.files.insert(place, lines), ..disk }, undo_request(root, change))
            == (Disk {
            files: effect(disk, undo_request(root, change)).files.insert(place, lines),
            ..effect(disk, undo_request(root, change))
        }),
{
    let written = Disk { files: disk.files.insert(place, lines), ..disk };
    let request = undo_request(root, change);
    let one = effect(written, request);
    let other = effect(disk, request);
    assert(place_of(change) != place) by {
        assert(place.take(place.len() as int) == place);
    }
    assert(one.files =~= other.files.insert(place, lines));
}

/// Writing a file that the log covers keeps the way back.
pub proof fn lemma_write_keeps_way_back(
    root: Seq<char>,
    changes: Seq<ChangeView>,
    disk: Disk,
    place: Seq<Seq<char>>,
    lines: Seq<Seq<char>>,
)
    requires
        covered(changes, place),
    ensures
        unwound(root, changes, Disk { files: disk.files.insert(place, lines), ..disk }).files
            == unwound(root, changes, disk).files,
    decreases changes.len(),
{
    let written = Disk { files: disk.files.insert(place, lines), ..disk };
    let last = changes.last();
    let request = undo_request(root, last);
    if prefix_of(place_of(last), place) || prefix_of(place, place_of(last)) {
        assert(effect(written, request).files =~= effect(disk, request).files);
        assert(effect(written, request) == effect(disk, request));
    } else {
        lemma_undo_apart(root, last, disk, place, lines);
        lemma_write_keeps_way_back(
            root,
            changes.drop_last(),
            effect(disk, request),
            place,
            lines,
        );
    }
}


/// A transaction and the disk it works on, at one moment.
pub struct Moment {
    pub tx: TxView,
    pub disk: Disk,
}

/// What happens between two moments of an open transaction.
pub enum Event {
    /// A verb was asked for, which left the transaction as `asked`; its
    /// request met with `outcome`; the verb was settled.
    Verb { asked: TxView, outcome: OutcomeView },
    /// The file at `place`, which the log covers, was written and now holds
    /// `lines`. What the log keeps in the scratch area was left alone.
    Write { place: Seq<Seq<char>>, lines: Seq<Seq<char>> },
    /// Something was done that changed no file below the prefix, and left
    /// alone what the log keeps in the scratch area.
    Aside,
}

/// Every scratch place that the log relies on keeps in `after` what it kept
/// in `before`.
pub open spec fn backups_untouched(changes: Seq<ChangeView>, before: Disk, after: Disk) -> bool {
    forall|i: int|
        0 <= i < changes.len() ==> (#[trigger] backup_of(changes[i]) matches Some(b) ==> (
        before.scratch.dom().contains(b) <==> after.scratch.dom().contains(b))
            && before.scratch[b] == after.scratch[b])
}

/// `event` leads from `before` to `after`.
pub open spec fn follows(before: Moment, event: Event, after: Moment) -> bool {
    match event {
        Event::Verb { asked, outcome } => {
            &&& sound(asked)
            &&& asked.pending is Some
            &&& asked.root == before.tx.root
            &&& asked.changes == before.tx.changes
            &&& performs(
                before.disk,
                request_for(asked.root, asked.pending->0),
                outcome,
                after.disk,
            )
            &&& after.tx == (TxView {
                pending: None,
                changes: log_after(asked, outcome),
                ..asked
            })
        },
        Event::Write { place, lines } => {
            &&& covered(before.tx.changes, place)
            &&& sound(before.tx)
            &&& after.tx == before.tx
            &&& after.disk.files == before.disk.files.insert(place, lines)
            &&& backups_untouched(before.tx.changes, before.disk, after.disk)
        },
        Event::Aside => {
            &&& sound(before.tx)
            &&& after.tx == before.tx
            &&& after.disk.files == before.disk.files
            &&& backups_untouched(before.tx.changes, before.disk, after.disk)
        },
    }
}

/// `moments` is the course of a transaction: each event leads from one
/// moment to the next.
pub open spec fn course(moments: Seq<Moment>, events: Seq<Event>) -> bool {
    &&& moments.len() == events.len() + 1
    &&& forall|i: int|
        0 <= i < events.len() ==> follows(moments[i], #[trigger] events[i], moments[i + 1])
}

/// Whatever a transaction has done, undoing its log gives back every file
/// below the prefix as it was when the transaction began.
///
/// The transaction begins with an empty log. Its course is any number of
/// verbs, each with any outcome, of writes to files that the log covers,
/// and of doings that change no file.
pub proof fn lemma_way_back(moments: Seq<Moment>, events: Seq<Event>)
    requires
        course(moments, events),
        moments[0].tx.changes.len() == 0,
    ensures
        moments.last().tx.root == moments[0].tx.root,
        unwound(moments[0].tx.root, moments.last().tx.changes, moments.last().disk).files
            == moments[0].disk.files,
    decreases events.len(),
{
    let root = moments[0].tx.root;
    if events.len() == 0 {
        assert(moments.last() == moments[0]);
    } else {
        let n = events.len() as int;
        let earlier = moments.drop_last();
        let happened = events.drop_last();
        assert(course(earlier, happened)) by {
            assert forall|i: int| 0 <= i < happened.len() implies follows(
                earlier[i],
                #[trigger] happened[i],
                earlier[i + 1],
            ) by {
                assert(follows(moments[i], events[i], moments[i + 1]));
            }
        }
        lemma_way_back(earlier, happened);
        let before = moments[n - 1];
        let after = moments[n];
        assert(earlier.last() == before);
        assert(moments.last() == after);
        assert(follows(before, events[n - 1], after));
        match events[n - 1] {
            Event::Verb { asked, outcome } => {
                lemma_verb_keeps_way_back(asked, outcome, before.disk, after.disk);
            },
            Event::Write { place, lines } => {
                lemma_write_keeps_way_back(root, before.tx.changes, before.disk, place, lines);
                let written = Disk {
                    files: before.disk.files.insert(place, lines),
                    ..before.disk
                };
                lemma_unwound_alike(root, before.tx.changes, after.disk, written);
            },
            Event::Aside => {
                lemma_unwound_alike(root, before.tx.changes, after.disk, before.disk);
            },
        }
    }
}

/// An undo request that met with a tolerated outcome has left the disk as
/// the undoing of its change says.
pub proof fn lemma_undo_performed(
    root: Seq<char>,
    change: ChangeView,
    before: Disk,
    outcome: OutcomeView,
    after: Disk,
)
    requires
        performs(before, undo_request(root, change), outcome, after),
        tolerated(change, outcome),
    ensures
        after == effect(before, undo_request(root, change)),
{
    if !(outcome is Done) {
        let request = undo_request(root, change);
        let place = place_of(change);
        assert(effect(before, request).files =~= before.files) by {
            match request {
                RequestView::Delete { what: Entry::Dir, path } => {
                    assert forall|q: Seq<Seq<char>>| before.files.dom().contains(q) implies !prefix_of(
                        path.below,
                        q,
                    ) by {
                        if prefix_of(path.below, q) {
                            assert(occupied(before.files, path.below));
                        }
                    }
                },
                _ => {},
            }
        }
    }
}

/// A rollback whose every request met with a tolerated outcome has undone
/// the log: the disk at its end is the disk at its beginning with every
/// change undone, newest first.
pub proof fn lemma_rollback_unwinds(
    root: Seq<char>,
    changes: Seq<ChangeView>,
    disks: Seq<Disk>,
    outcomes: Seq<OutcomeView>,
)
    requires
        disks.len() == changes.len() + 1,
        outcomes.len() == changes.len(),
        forall|i: int|
            0 <= i < changes.len() ==> performs(
                disks[i],
                undo_request(root, changes[changes.len() - 1 - i]),
                #[trigger] outcomes[i],
                disks[i + 1],
            ) && tolerated(changes[changes.len() - 1 - i], outcomes[i]),
    ensures
        disks.last() == unwound(root, changes, disks[0]),
    decreases changes.len(),
{
    if changes.len() > 0 {
        let n = changes.len() as int;
        assert(performs(disks[0], undo_request(root, changes[n - 1]), outcomes[0], disks[1])
            && tolerated(changes[n - 1], outcomes[0]));
        lemma_undo_performed(root, changes.last(), disks[0], outcomes[0], disks[1]);
        let rest = changes.drop_last();
        let later = disks.drop_first();
        let answers = outcomes.drop_first();
        assert forall|i: int| 0 <= i < rest.len() implies performs(
            later[i],
            undo_request(root, rest[rest.len() - 1 - i]),
            #[trigger] answers[i],
            later[i + 1],
        ) && tolerated(rest[rest.len() - 1 - i], answers[i]) by {
            assert(answers[i] == outcomes[i + 1]);
            assert(performs(
                disks[i + 1],
                undo_request(root, changes[n - 1 - (i + 1)]),
                outcomes[i + 1],
                disks[i + 2],
            ) && tolerated(changes[n - 1 - (i + 1)], outcomes[i + 1]));
            assert(rest[rest.len() - 1 - i] == changes[n - 1 - (i + 1)]);
        }
        lemma_rollback_unwinds(root, rest, later, answers);
        assert(later.last() == disks.last());
        assert(later[0] == disks[1]);
    }
}

/// Rolling back a transaction gives back every file below the prefix as it
/// was when the transaction began.
///
/// `moments` is the course of the transaction from an empty log, and
/// `disks` is the course of the rollback that follows: the undo requests of
/// the log, newest entry first, each met with a tolerated outcome.
pub proof fn lemma_rollback_identity(
    moments: Seq<Moment>,
    events: Seq<Event>,
    disks: Seq<Disk>,
    outcomes: Seq<OutcomeView>,
)
    requires
        course(moments, events),
        moments[0].tx.changes.len() == 0,
        disks.len() == moments.last().tx.changes.len() + 1,
        outcomes.len() == moments.last().tx.changes.len(),
        disks[0] == moments.last().disk,
        forall|i: int|
            0 <= i < outcomes.len() ==> performs(
                disks[i],
                undo_request(
                    moments[0].tx.root,
                    moments.last().tx.changes[moments.last().tx.changes.len() - 1 - i],
                ),
                #[trigger] outcomes[i],
                disks[i + 1],
            ) && tolerated(
                moments.last().tx.changes[moments.last().tx.changes.len() - 1 - i],
                outcomes[i],
            ),
    ensures
        disks.last().files == moments[0].disk.files,
{
    lemma_way_back(moments, events);
    lemma_rollback_unwinds(moments[0].tx.root, moments.last().tx.changes, disks, outcomes);
}

/// Once the request that ends a commit or a rollback is done, the scratch
/// area keeps nothing, and the files are as they were.
pub proof fn lemma_scratch_discarded(before: Disk, after: Disk)
    requires
        performs(before, RequestView::DiscardScratch, OutcomeView::Done, after),
    ensures
        after.scratch == Map::<ScratchId, Files>::empty(),
        after.files == before.files,
{
}


/// A request that is quiet keeps the way back, whatever its outcome.
pub proof fn lemma_quiet_keeps_way_back(
    root: Seq<char>,
    changes: Seq<ChangeView>,
    request: RequestView,
    outcome: OutcomeView,
    before: Disk,
    after: Disk,
)
    requires
        quiet(changes, request),
        performs(before, request, outcome, after),
        forall|i: int, j: int|
            0 <= i < j < changes.len() && backup_of(changes[i]) is Some ==> #[trigger] backup_of(
                changes[i],
            ) != #[trigger] backup_of(changes[j]),
    ensures
        unwound(root, changes, after).files == unwound(root, changes, before).files,
{
    if outcome is Done {
        match request {
            RequestView::Write { path, lines } => {
                lemma_write_keeps_way_back(root, changes, before, path.below, lines);
            },
            RequestView::Append { path, line } => {
                lemma_write_keeps_way_back(
                    root,
                    changes,
                    before,
                    path.below,
                    after.files[path.below],
                );
                assert(after.files =~= before.files.insert(path.below, after.files[path.below]));
            },
            RequestView::Promote { scratch, path } => {
                let lines = after.files[path.below];
                let written = Disk { files: before.files.insert(path.below, lines), ..before };
                lemma_write_keeps_way_back(root, changes, before, path.below, lines);
                assert(after.files =~= written.files);
                lemma_unwound_alike(root, changes, after, written);
            },
            RequestView::WriteScratch { scratch, lines } => {
                lemma_unwound_alike(root, changes, after, before);
            },
            _ => {},
        }
    }
}

/// A script in the course of its run: its states, the outcomes that its
/// requests met with, and the disk before and after each.
pub open spec fn run_of(
    states: Seq<ScriptView>,
    outcomes: Seq<OutcomeView>,
    disks: Seq<Disk>,
) -> bool {
    &&& states.len() == outcomes.len() + 1
    &&& disks.len() == outcomes.len() + 1
    &&& forall|i: int| 0 <= i < states.len() ==> script_sound(#[trigger] states[i])
    &&& forall|i: int|
        0 <= i < outcomes.len() ==> {
            &&& states[i].active is Some
            &&& performs(disks[i], states[i].active->0, #[trigger] outcomes[i], disks[i + 1])
            &&& resumed(states[i], outcomes[i], states[i + 1])
        }
}

/// One request of a script keeps the way back.
pub proof fn lemma_step_keeps_way_back(
    before: ScriptView,
    outcome: OutcomeView,
    after: ScriptView,
    disk: Disk,
    next: Disk,
)
    requires
        script_sound(before),
        before.active is Some,
        performs(disk, before.active->0, outcome, next),
        resumed(before, outcome, after),
    ensures
        after.tx.root == before.tx.root,
        unwound(before.tx.root, after.tx.changes, next).files == unwound(
            before.tx.root,
            before.tx.changes,
            disk,
        ).files,
{
    let root = before.tx.root;
    if before.raw is Some {
        assert(after.tx.changes == before.tx.changes);
        lemma_quiet_keeps_way_back(
            root,
            before.tx.changes,
            before.active->0,
            outcome,
            disk,
            next,
        );
    } else {
        lemma_verb_keeps_way_back(before.tx, outcome, disk, next);
        assert(after.tx.changes == log_after(before.tx, outcome));
    }
}

/// Up to any point of its run, a script has kept the way back.
pub proof fn lemma_run_keeps_way_back_to(
    states: Seq<ScriptView>,
    outcomes: Seq<OutcomeView>,
    disks: Seq<Disk>,
    k: int,
)
    requires
        run_of(states, outcomes, disks),
        0 <= k <= outcomes.len(),
    ensures
        states[k].tx.root == states[0].tx.root,
        unwound(states[0].tx.root, states[k].tx.changes, disks[k]).files == unwound(
            states[0].tx.root,
            states[0].tx.changes,
            disks[0],
        ).files,
    decreases k,
{
    if k > 0 {
        lemma_run_keeps_way_back_to(states, outcomes, disks, k - 1);
        assert(script_sound(states[k - 1]));
        assert(states[k - 1].active is Some && performs(
            disks[k - 1],
            states[k - 1].active->0,
            outcomes[k - 1],
            disks[k],
        ) && resumed(states[k - 1], outcomes[k - 1], states[k]));
        lemma_step_keeps_way_back(
            states[k - 1],
            outcomes[k - 1],
            states[k],
            disks[k - 1],
            disks[k],
        );
    }
}

/// Whatever a script has done, undoing the log of its transaction gives
/// back every file below the prefix as it was when the script began, once
/// the changes that the transaction had made before are undone too.
pub proof fn lemma_run_keeps_way_back(
    states: Seq<ScriptView>,
    outcomes: Seq<OutcomeView>,
    disks: Seq<Disk>,
)
    requires
        run_of(states, outcomes, disks),
    ensures
        states.last().tx.root == states[0].tx.root,
        unwound(states[0].tx.root, states.last().tx.changes, disks.last()).files == unwound(
            states[0].tx.root,
            states[0].tx.changes,
            disks[0],
        ).files,
{
    lemma_run_keeps_way_back_to(states, outcomes, disks, outcomes.len() as int);
}


/// The request that a removal waits with.
pub open spec fn waiting(u: UninstallView) -> Option<RequestView> {
    if u.phase is Probing {
        u.probe
    } else {
        u.run.active
    }
}

/// The removal of a component in the course of its run: its states, the
/// outcomes that its requests met with, and the disk before and after each.
pub open spec fn removal_of(
    states: Seq<UninstallView>,
    outcomes: Seq<OutcomeView>,
    disks: Seq<Disk>,
) -> bool {
    &&& states.len() == outcomes.len() + 1
    &&& disks.len() == outcomes.len() + 1
    &&& forall|i: int| 0 <= i < states.len() ==> uninstall_sound(#[trigger] states[i])
    &&& forall|i: int|
        0 <= i < outcomes.len() ==> {
            &&& waiting(states[i]) is Some
            &&& performs(disks[i], waiting(states[i])->0, #[trigger] outcomes[i], disks[i + 1])
            &&& uninstall_resumed(states[i], outcomes[i], states[i + 1])
        }
}

/// One request of a removal keeps the way back.
pub proof fn lemma_removal_step_keeps_way_back(
    before: UninstallView,
    outcome: OutcomeView,
    after: UninstallView,
    disk: Disk,
    next: Disk,
)
    requires
        uninstall_sound(before),
        waiting(before) is Some,
        performs(disk, waiting(before)->0, outcome, next),
        uninstall_resumed(before, outcome, after),
    ensures
        after.run.tx.root == before.run.tx.root,
        unwound(before.run.tx.root, after.run.tx.changes, next).files == unwound(
            before.run.tx.root,
            before.run.tx.changes,
            disk,
        ).files,
{
    let root = before.run.tx.root;
    if before.phase is Probing {
        assert(next == disk);
        assert(after.run.tx.changes == before.run.tx.changes);
        assert(after.run.tx.root == root);
    } else {
        assert(before.run.active is Some);
        if succeeds(before.run, outcome) && before.run.rest.len() == 0 {
            let tx = settled_tx(before.run, outcome);
            assert(after.run.tx.changes == tx.changes);
            assert(after.run.tx.root == root);
            if before.run.raw is Some {
                lemma_quiet_keeps_way_back(
                    root,
                    before.run.tx.changes,
                    before.run.active->0,
                    outcome,
                    disk,
                    next,
                );
            } else {
                lemma_verb_keeps_way_back(before.run.tx, outcome, disk, next);
            }
        } else {
            lemma_step_keeps_way_back(before.run, outcome, after.run, disk, next);
        }
    }
}

/// Up to any point of its run, the removal of a component has kept the way
/// back: undoing the log of its transaction gives back every file below
/// the prefix as it was when the removal began, once the changes that the
/// transaction had made before are undone too.
pub proof fn lemma_removal_keeps_way_back(
    states: Seq<UninstallView>,
    outcomes: Seq<OutcomeView>,
    disks: Seq<Disk>,
    k: int,
)
    requires
        removal_of(states, outcomes, disks),
        0 <= k <= outcomes.len(),
    ensures
        states[k].run.tx.root == states[0].run.tx.root,
        unwound(states[0].run.tx.root, states[k].run.tx.changes, disks[k]).files == unwound(
            states[0].run.tx.root,
            states[0].run.tx.changes,
            disks[0],
        ).files,
    decreases k,
{
    if k > 0 {
        lemma_removal_keeps_way_back(states, outcomes, disks, k - 1);
        assert(uninstall_sound(states[k - 1]));
        assert(waiting(states[k - 1]) is Some && performs(
            disks[k - 1],
            waiting(states[k - 1])->0,
            outcomes[k - 1],
            disks[k],
        ) && uninstall_resumed(states[k - 1], outcomes[k - 1], states[k]));
        lemma_removal_step_keeps_way_back(
            states[k - 1],
            outcomes[k - 1],
            states[k],
            disks[k - 1],
            disks[k],
        );
    }
}

} // verus!
