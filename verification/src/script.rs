//! Running a list of steps against a transaction, one request at a time.
//!
//! A [`Script`] owns a transaction and the steps still to take. A step is a
//! verb of the transaction, or the writing of the file that the verb before
//! it created or announced, or a failure that was found beforehand and is
//! due at this point. The script stops at the first step that fails.
//!
//! A script writes no file but through these steps, so whatever it has
//! done can be undone from the log.

use vstd::prelude::*;
use crate::effect::{Outcome, OutcomeView, Request, RequestView, ScratchId, cause_of};
use crate::error::{Error, ErrorView, Op};
use crate::path::InstallPath;
use crate::prefix::{AbsView, InstallPrefix};
use crate::text::{copy_of, texts};
use crate::transaction::{
    Transaction,
    TxView,
    Verb,
    change_for,
    covered,
    keeps_backup,
    newest_file,
    planned,
    refusal_for,
    request_for,
    sound,
    spare,
};

verus! {

/// A step, as the contracts see it.
pub enum StepView {
    Verb { verb: Verb, component: Seq<char>, path: Seq<Seq<char>>, src: Seq<char> },
    Write { lines: Seq<Seq<char>> },
    Append { line: Seq<char> },
    Stage { lines: Seq<Seq<char>> },
    Promote,
    Fail { error: ErrorView },
}

/// One step of a script.
#[derive(Debug, PartialEq, Eq)]
pub enum Step {
    /// A verb of the transaction: its request is performed and settled.
    Verb { verb: Verb, component: String, path: InstallPath, src: String },
    /// Make `lines` the content of the file that the verb before created or
    /// announced as modified.
    Write { lines: Vec<String> },
    /// Add `line` to the end of the file that the verb before created or
    /// announced as modified.
    Append { line: String },
    /// Write `lines` to a new file in the scratch area, to be promoted
    /// later.
    Stage { lines: Vec<String> },
    /// Put the staged file in the place of the file that the verb before
    /// announced as modified.
    Promote,
    /// An error that ends the script when this step is reached.
    Fail { error: Error },
}

impl View for Step {
    type V = StepView;

    open spec fn view(&self) -> StepView {
        match self {
            Step::Verb { verb, component, path, src } => StepView::Verb {
                verb: *verb,
                component: component@,
                path: path@,
                src: src@,
            },
            Step::Write { lines } => StepView::Write { lines: texts(lines@) },
            Step::Append { line } => StepView::Append { line: line@ },
            Step::Stage { lines } => StepView::Stage { lines: texts(lines@) },
            Step::Promote => StepView::Promote,
            Step::Fail { error } => StepView::Fail { error: error@ },
        }
    }
}

/// The steps that a list holds, as the contracts see them.
pub open spec fn step_views(steps: Seq<Step>) -> Seq<StepView> {
    Seq::new(steps.len(), |i: int| steps[i]@)
}

/// A script, as the contracts see it.
pub struct ScriptView {
    /// The transaction that the script drives.
    pub tx: TxView,
    /// The steps not begun yet, the next one first.
    pub rest: Seq<StepView>,
    /// The request that waits for its outcome.
    pub active: Option<RequestView>,
    /// For a waiting request that leaves no log entry, the place that an
    /// error will name.
    pub raw: Option<Seq<Seq<char>>>,
    /// The scratch place of the file that was staged and not yet promoted.
    pub staged: Option<ScratchId>,
    /// The error that ended the script.
    pub failure: Option<ErrorView>,
}

/// The error of a step that has no file to write: the step before it was
/// no verb that creates or announces one, or nothing was staged.
pub open spec fn unfilled() -> ErrorView {
    ErrorView::PreconditionViolated { op: Op::WriteFile, path: Seq::empty() }
}

/// The error of a step that finds no scratch place left.
pub open spec fn exhausted() -> ErrorView {
    ErrorView::FilesystemError {
        op: Op::WriteFile,
        path: Seq::empty(),
        cause: "scratch area exhausted"@,
    }
}

/// A script that waits for nothing and has not failed, its steps run
/// through.
pub open spec fn idle(tx: TxView, staged: Option<ScratchId>) -> ScriptView {
    ScriptView { tx, rest: Seq::empty(), active: None, raw: None, staged, failure: None }
}

/// The script after it has turned to the next of `rest`, with the
/// transaction as `tx` and the staged file as `staged` before.
///
/// With no step left, the script is idle. A verb is asked of the
/// transaction: either its request waits, or the transaction refused and the
/// script has failed. A step that writes a file writes the file that the
/// newest entry of the log created or announced; without such an entry the
/// script has failed. Staging takes a new scratch place; promoting puts what
/// was staged in the place of that file. A failure that is due ends the
/// script.
pub open spec fn begun(
    tx: TxView,
    staged: Option<ScratchId>,
    rest: Seq<StepView>,
    after: ScriptView,
) -> bool {
    if rest.len() == 0 {
        after == idle(tx, staged)
    } else {
        let failed = |error: ErrorView|
            ScriptView {
                tx,
                rest: rest.drop_first(),
                active: None,
                raw: None,
                staged,
                failure: Some(error),
            };
        let waits = |request: RequestView, place: Seq<Seq<char>>|
            ScriptView {
                tx,
                rest: rest.drop_first(),
                active: Some(request),
                raw: Some(place),
                staged,
                failure: None,
            };
        match rest[0] {
            StepView::Verb { verb, component, path, src } => {
                &&& after.rest == rest.drop_first()
                &&& after.raw is None
                &&& after.staged == staged
                &&& (after.active is Some) != (after.failure is Some)
                &&& planned(
                    tx,
                    after.tx,
                    verb,
                    component,
                    path,
                    src,
                    if after.active is Some {
                        Ok(after.active->0)
                    } else {
                        Err(after.failure->0)
                    },
                )
            },
            StepView::Write { lines } => match newest_file(tx.changes) {
                Some(place) => after == waits(
                    RequestView::Write { path: AbsView { root: tx.root, below: place }, lines },
                    place,
                ),
                None => after == failed(unfilled()),
            },
            StepView::Append { line } => match newest_file(tx.changes) {
                Some(place) => after == waits(
                    RequestView::Append { path: AbsView { root: tx.root, below: place }, line },
                    place,
                ),
                None => after == failed(unfilled()),
            },
            StepView::Stage { lines } => if tx.issued < u64::MAX {
                after == (ScriptView {
                    tx: TxView { issued: tx.issued + 1, ..tx },
                    staged: Some(ScratchId { index: tx.issued as u64 }),
                    ..waits(
                        RequestView::WriteScratch {
                            scratch: ScratchId { index: tx.issued as u64 },
                            lines,
                        },
                        Seq::empty(),
                    )
                })
            } else {
                after == failed(exhausted())
            },
            StepView::Promote => match (staged, newest_file(tx.changes)) {
                (Some(scratch), Some(place)) => after == (ScriptView {
                    staged: None,
                    ..waits(
                        RequestView::Promote {
                            scratch,
                            path: AbsView { root: tx.root, below: place },
                        },
                        place,
                    )
                }),
                _ => after == failed(unfilled()),
            },
            StepView::Fail { error } => after == failed(error),
        }
    }
}

/// Whether `outcome` lets the waiting request of `before` pass: a request
/// without log entry must be done, a verb must earn its entry.
pub open spec fn succeeds(before: ScriptView, outcome: OutcomeView) -> bool {
    &&& before.active is Some
    &&& if before.raw is Some {
        outcome is Done
    } else {
        change_for(before.tx.pending->0, outcome) is Some
    }
}

/// The transaction of `before` after its waiting request has passed with
/// `outcome`: nothing is pending, and a verb's entry is in the log.
pub open spec fn settled_tx(before: ScriptView, outcome: OutcomeView) -> TxView {
    if before.raw is Some {
        before.tx
    } else {
        TxView {
            pending: None,
            changes: before.tx.changes.push(change_for(before.tx.pending->0, outcome)->0),
            ..before.tx
        }
    }
}

/// The error of a script whose waiting request did not pass.
pub open spec fn failure_of(before: ScriptView, outcome: OutcomeView) -> ErrorView {
    if before.raw is Some {
        ErrorView::FilesystemError {
            op: Op::WriteFile,
            path: before.raw->0,
            cause: cause_of(outcome),
        }
    } else {
        refusal_for(before.tx.pending->0, outcome)
    }
}

/// The script after the outcome of its waiting request came in.
///
/// A script with nothing waiting stays as it is. Where the request passes,
/// the script turns to the next step. Where it does not, the script has
/// failed, and the log is as it was.
pub open spec fn resumed(before: ScriptView, outcome: OutcomeView, after: ScriptView) -> bool {
    if before.active is None {
        after == before
    } else if succeeds(before, outcome) {
        begun(settled_tx(before, outcome), before.staged, before.rest, after)
    } else {
        after == (ScriptView {
            tx: TxView { pending: None, ..before.tx },
            active: None,
            raw: None,
            failure: Some(failure_of(before, outcome)),
            ..before
        })
    }
}

/// A request that leaves no log entry is quiet: where it writes a file, the
/// log covers the file, and where it uses a scratch place, the log keeps
/// nothing there.
pub open spec fn quiet(changes: Seq<crate::transaction::ChangeView>, request: RequestView) -> bool {
    match request {
        RequestView::Write { path, .. } => covered(changes, path.below),
        RequestView::Append { path, .. } => covered(changes, path.below),
        RequestView::Promote { scratch, path } => covered(changes, path.below) && spare(
            changes,
            scratch,
        ),
        RequestView::WriteScratch { scratch, .. } => spare(changes, scratch),
        RequestView::Probe { .. } => true,
        _ => false,
    }
}

/// What holds of every script: its transaction is sound and open, a verb is
/// pending there exactly while its request waits here, a script that
/// neither waits nor has failed has run through, and a waiting request
/// without log entry is quiet. The staged file has a scratch place of its
/// own.
pub open spec fn script_sound(s: ScriptView) -> bool {
    &&& sound(s.tx)
    &&& s.tx.state is Open
    &&& s.active is None ==> s.raw is None && s.tx.pending is None
    &&& s.active is None && s.failure is None ==> s.rest.len() == 0
    &&& s.failure is Some ==> s.active is None
    &&& s.active is Some ==> if s.raw is Some {
        s.tx.pending is None && quiet(s.tx.changes, s.active->0)
    } else {
        s.tx.pending is Some && s.active->0 == request_for(s.tx.root, s.tx.pending->0)
    }
    &&& s.staged matches Some(place) ==> place.index < s.tx.issued && spare(s.tx.changes, place)
        && (s.tx.pending matches Some(p) ==> keeps_backup(p.verb) ==> p.backup != place)
}

/// A list of steps being run against a transaction.
pub struct Script {
    tx: Transaction,
    prefix: InstallPrefix,
    /// The steps not begun yet, the next one last.
    upcoming: Vec<Step>,
    outstanding: Option<Request>,
    raw: Option<InstallPath>,
    staged: Option<ScratchId>,
    failure: Option<Error>,
}

impl View for Script {
    type V = ScriptView;

    closed spec fn view(&self) -> ScriptView {
        ScriptView {
            tx: self.tx@,
            rest: step_views(self.upcoming@).reverse(),
            active: match self.outstanding {
                Some(request) => Some(request@),
                None => None,
            },
            raw: match self.raw {
                Some(path) => Some(path@),
                None => None,
            },
            staged: self.staged,
            failure: match self.failure {
                Some(error) => Some(error@),
                None => None,
            },
        }
    }
}

impl Script {
    /// The script is well formed.
    pub closed spec fn wf(&self) -> bool {
        script_sound(self@) && self.prefix.root() == self@.tx.root
    }

    /// What a well-formed script promises.
    pub proof fn lemma_wf(&self)
        requires
            self.wf(),
        ensures
            script_sound(self@),
    {
    }

    /// The error of a step that has no file to write.
    fn no_file() -> (error: Error)
        ensures
            error@ == unfilled(),
    {
        Error::PreconditionViolated { op: Op::WriteFile, path: InstallPath::new() }
    }

    /// Turns to the next step.
    fn enter(&mut self)
        requires
            script_sound(idle(old(self)@.tx, old(self)@.staged)),
            old(self).prefix.root() == old(self)@.tx.root,
            old(self)@.active is None,
            old(self)@.raw is None,
            old(self)@.failure is None,
        ensures
            final(self).wf(),
            begun(old(self)@.tx, old(self)@.staged, old(self)@.rest, final(self)@),
    {
        let ghost rest = self@.rest;
        let ghost stack = step_views(self.upcoming@);
        let ghost tx = self@.tx;
        let step = match self.upcoming.pop() {
            None => {
                assert(self@.rest == rest);
                assert(rest =~= Seq::<StepView>::empty()) by {
                    assert(stack.reverse().len() == stack.len());
                }
                return;
            },
            Some(step) => step,
        };
        proof {
            let now = step_views(self.upcoming@);
            assert(now == stack.drop_last());
            assert(step@ == stack.last());
            assert(rest[0] == step@);
            assert(now.reverse() == rest.drop_first());
        }
        match step {
            Step::Verb { verb, component, path, src } => {
                match self.tx.plan(verb, component.as_str(), path, src.as_str()) {
                    Ok(request) => {
                        self.outstanding = Some(request);
                        assert(forall|i: int|
                            0 <= i < tx.changes.len() ==> (#[trigger] crate::transaction::backup_of(
                                tx.changes[i],
                            ) matches Some(b) ==> b.index < tx.issued));
                    },
                    Err(error) => {
                        self.failure = Some(error);
                    },
                }
            },
            Step::Write { lines } => {
                match self.tx.newest_file() {
                    Some(place) => {
                        proof {
                            crate::transaction::lemma_newest_covered(tx.changes);
                        }
                        self.outstanding = Some(
                            Request::Write { path: self.prefix.abs_path(place.clone()), lines },
                        );
                        self.raw = Some(place);
                    },
                    None => {
                        self.failure = Some(Script::no_file());
                    },
                }
            },
            Step::Append { line } => {
                match self.tx.newest_file() {
                    Some(place) => {
                        proof {
                            crate::transaction::lemma_newest_covered(tx.changes);
                        }
                        self.outstanding = Some(
                            Request::Append { path: self.prefix.abs_path(place.clone()), line },
                        );
                        self.raw = Some(place);
                    },
                    None => {
                        self.failure = Some(Script::no_file());
                    },
                }
            },
            Step::Stage { lines } => {
                match self.tx.temp() {
                    Some(scratch) => {
                        assert(spare(tx.changes, scratch)) by {
                            assert forall|i: int| 0 <= i < tx.changes.len() implies #[trigger] crate::transaction::backup_of(
                                tx.changes[i],
                            ) != Some(scratch) by {
                                if crate::transaction::backup_of(tx.changes[i]) is Some {
                                    assert(crate::transaction::backup_of(tx.changes[i])->0.index
                                        < tx.issued);
                                }
                            }
                        }
                        self.outstanding = Some(Request::WriteScratch { scratch, lines });
                        self.raw = Some(InstallPath::new());
                        self.staged = Some(scratch);
                    },
                    None => {
                        self.failure = Some(
                            Error::FilesystemError {
                                op: Op::WriteFile,
                                path: InstallPath::new(),
                                cause: copy_of("scratch area exhausted"),
                            },
                        );
                    },
                }
            },
            Step::Promote => {
                let file = self.tx.newest_file();
                match (self.staged, file) {
                    (Some(scratch), Some(place)) => {
                        proof {
                            crate::transaction::lemma_newest_covered(tx.changes);
                        }
                        self.outstanding = Some(
                            Request::Promote { scratch, path: self.prefix.abs_path(place.clone()) },
                        );
                        self.raw = Some(place);
                        self.staged = None;
                    },
                    _ => {
                        self.failure = Some(Script::no_file());
                    },
                }
            },
            Step::Fail { error } => {
                self.failure = Some(error);
            },
        }
    }

    /// A script that runs `steps`, first to last, against `tx`, and has
    /// turned to the first of them.
    pub fn start(tx: Transaction, steps: Vec<Step>) -> (script: Self)
        requires
            tx.wf(),
            tx.state() is Open,
            tx.pending() is None,
        ensures
            script.wf(),
            begun(tx@, None, step_views(steps@), script@),
    {
        let mut upcoming = steps;
        let ghost forward = step_views(steps@);
        reverse_steps(&mut upcoming);
        let prefix = tx.prefix();
        let mut script = Script {
            tx,
            prefix,
            upcoming,
            outstanding: None,
            raw: None,
            staged: None,
            failure: None,
        };
        assert(script@.rest == forward) by {
            assert(forward.reverse().reverse() =~= forward);
        }
        script.enter();
        script
    }

    /// Adds `step` to a script that has run through, and turns to it.
    pub fn append(&mut self, step: Step)
        requires
            old(self).wf(),
            old(self)@.active is None,
            old(self)@.failure is None,
        ensures
            final(self).wf(),
            begun(old(self)@.tx, old(self)@.staged, seq![step@], final(self)@),
    {
        let ghost before = step_views(self.upcoming@);
        assert(before.len() == 0) by {
            assert(before.reverse().len() == before.len());
        }
        self.upcoming.push(step);
        proof {
            let now = step_views(self.upcoming@);
            assert(now =~= seq![step@]);
            assert(now.reverse() =~= seq![step@]);
        }
        self.enter();
    }

    /// The request that waits for its outcome, if one does.
    pub fn request(&self) -> (next: Option<&Request>)
        ensures
            match next {
                Some(request) => self@.active == Some(request@),
                None => self@.active is None,
            },
    {
        self.outstanding.as_ref()
    }

    /// Takes the outcome of the waiting request.
    pub fn resume(&mut self, outcome: Outcome)
        requires
            old(self).wf(),
        ensures
            final(self).wf(),
            resumed(old(self)@, outcome@, final(self)@),
    {
        if self.outstanding.is_none() {
            return;
        }
        self.outstanding = None;
        let ghost before = self@;
        match self.raw.take() {
            Some(path) => {
                if outcome.is_done() {
                    self.enter();
                } else {
                    self.failure = Some(
                        Error::FilesystemError { op: Op::WriteFile, path, cause: outcome.cause() },
                    );
                }
            },
            None => {
                match self.tx.settle(outcome) {
                    Ok(()) => {
                        proof {
                            let now = self@.tx;
                            if self@.staged is Some {
                                let place = self@.staged->0;
                                let pending = before.tx.pending->0;
                                let change = change_for(pending, outcome@)->0;
                                assert(now.changes == before.tx.changes.push(change));
                                assert forall|i: int| 0 <= i < now.changes.len() implies #[trigger] crate::transaction::backup_of(
                                    now.changes[i],
                                ) != Some(place) by {
                                    if i < before.tx.changes.len() {
                                        assert(now.changes[i] == before.tx.changes[i]);
                                    }
                                }
                            }
                        }
                        self.enter();
                    },
                    Err(error) => {
                        self.failure = Some(error);
                    },
                }
            },
        }
    }

    /// Whether the script has run through without failure.
    pub fn is_complete(&self) -> (b: bool)
        ensures
            b == (self@.active is None && self@.failure is None && self@.rest.len() == 0),
    {
        proof {
            assert(step_views(self.upcoming@).reverse().len() == self.upcoming@.len());
        }
        self.outstanding.is_none() && self.failure.is_none() && self.upcoming.len() == 0
    }

    /// Whether the script has failed.
    pub fn has_failed(&self) -> (b: bool)
        ensures
            b == (self@.failure is Some),
    {
        self.failure.is_some()
    }

    /// Gives up the script: the transaction, and the error if the script
    /// failed.
    pub fn close(self) -> (end: (Transaction, Option<Error>))
        requires
            self.wf(),
        ensures
            end.0.wf(),
            end.0.state() is Open,
            end.0@ == self@.tx,
            match end.1 {
                Some(error) => self@.failure == Some(error@),
                None => self@.failure is None,
            },
    {
        (self.tx, self.failure)
    }
}

/// Turns a list of steps around.
fn reverse_steps(steps: &mut Vec<Step>)
    ensures
        step_views(final(steps)@) == step_views(old(steps)@).reverse(),
{
    let ghost before = step_views(steps@);
    let mut turned: Vec<Step> = Vec::new();
    while steps.len() > 0
        invariant
            step_views(steps@) == before.take(steps@.len() as int),
            steps@.len() <= before.len(),
            step_views(turned@) == before.skip(steps@.len() as int).reverse(),
        decreases steps@.len(),
    {
        let ghost n = steps@.len() as int;
        let ghost sofar = step_views(turned@);
        let ghost held = steps@;
        match steps.pop() {
            Some(step) => {
                assert(step_views(held)[n - 1] == held[n - 1]@);
                assert(before.take(n)[n - 1] == before[n - 1]);
                assert(step@ == before[n - 1]);
                turned.push(step);
                assert(step_views(turned@) =~= sofar.push(before[n - 1]));
                assert(step_views(steps@) =~= before.take(n - 1));
                assert(before.skip(n - 1).reverse() =~= before.skip(n).reverse().push(
                    before[n - 1],
                ));
            },
            None => {},
        }
    }
    assert(before.skip(0) =~= before);
    *steps = turned;
}

} // verus!
