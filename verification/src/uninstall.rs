//! Removing an installed component.
//!
//! The component leaves the list of components first. Then its parts are
//! removed, the last of the manifest first, so that what lies in a
//! directory leaves before the directory. Then the directories that held
//! the parts are looked at, and those found empty are removed. The
//! component's manifest goes last.

use vstd::prelude::*;
use crate::components::{Component, components_place, manifest_place, part_views, parts_of};
use crate::effect::{Outcome, OutcomeView, Request, RequestView};
use crate::error::{Error, ErrorView};
use crate::part::{ComponentPart, ComponentPartKind, PartView};
use crate::path::{InstallPath, relative};
use crate::prefix::{AbsView, InstallPrefix};
use crate::order::ascending;
use crate::prune::{
    PruneIter,
    PruneSet,
    WalkView,
    advanced,
    chains_of,
    deepest,
    lemma_reach_order_free,
    lemma_reach_push,
    reach_of,
};
use crate::script::{
    Script,
    ScriptView,
    Step,
    StepView,
    begun,
    idle,
    resumed,
    script_sound,
    settled_tx,
    step_views,
    succeeds,
};
use crate::text::{copy_of, lines_of, read_lines, texts};
use crate::transaction::{Transaction, TxView, Verb};

verus! {

/// `lines` without every line that is `name`.
pub open spec fn without(lines: Seq<Seq<char>>, name: Seq<char>) -> Seq<Seq<char>>
    decreases lines.len(),
{
    if lines.len() == 0 {
        lines
    } else if lines.last() == name {
        without(lines.drop_last(), name)
    } else {
        without(lines.drop_last(), name).push(lines.last())
    }
}

/// Every part is of a kind that can be removed.
pub open spec fn removable(parts: Seq<PartView>) -> bool {
    forall|i: int| 0 <= i < parts.len() ==> !((#[trigger] parts[i]).kind is Unknown)
}

/// The paths of `parts`, in their order.
pub open spec fn part_paths(parts: Seq<PartView>) -> Seq<Seq<Seq<char>>> {
    Seq::new(parts.len(), |i: int| parts[i].path)
}

/// The step that removes `part` of the component `name`.
pub open spec fn removal_of(name: Seq<char>, part: PartView) -> StepView {
    StepView::Verb {
        verb: if part.kind is Dir {
            Verb::RemoveDir
        } else {
            Verb::RemoveFile
        },
        component: name,
        path: part.path,
        src: Seq::<char>::empty(),
    }
}

/// The steps that remove `parts`, the last part first.
pub open spec fn removal_steps(name: Seq<char>, parts: Seq<PartView>) -> Seq<StepView> {
    Seq::new(parts.len(), |i: int| removal_of(name, parts[parts.len() - 1 - i]))
}

/// The steps with which the removal of the component `name` begins, where
/// `components` and `manifest` are what the two files hold.
///
/// The list of components without the component's name is staged, the list
/// is announced as modified, and what was staged takes its place. Then the
/// parts are removed, the last first. A manifest with a line that records
/// no part, or with a part of unknown kind, makes the component corrupt:
/// the removal fails before any part is touched.
pub open spec fn uninstall_steps(name: Seq<char>, components: Seq<char>, manifest: Seq<char>) -> Seq<
    StepView,
> {
    seq![
        StepView::Stage { lines: without(lines_of(components), name) },
        StepView::Verb {
            verb: Verb::ModifyFile,
            component: Seq::<char>::empty(),
            path: components_place(),
            src: Seq::<char>::empty(),
        },
        StepView::Promote,
    ] + match parts_of(lines_of(manifest)) {
        Some(parts) if removable(parts) => removal_steps(name, parts),
        _ => seq![StepView::Fail { error: ErrorView::CorruptComponent { name } }],
    }
}

/// Where the removal of a component stands.
#[derive(Debug, Clone, Copy, PartialEq, Eq, Structural)]
pub enum Phase {
    /// The list is being rewritten, or a part is being removed.
    Parts,
    /// A directory is being looked at.
    Probing,
    /// A directory that was found empty is being removed.
    Pruning,
    /// The manifest is being removed.
    Manifest,
    /// The component is removed.
    Done,
    /// The removal has failed.
    Failed,
}

/// The removal of a component, as the contracts see it.
pub struct UninstallView {
    pub root: Seq<char>,
    pub name: Seq<char>,
    pub phase: Phase,
    pub run: ScriptView,
    pub walk: WalkView,
    pub probe: Option<RequestView>,
}

/// The phase of a removal whose script has just turned to a step of the
/// phase `entered`.
pub open spec fn phase_after(run: ScriptView, entered: Phase) -> Phase {
    if run.failure is Some {
        Phase::Failed
    } else {
        entered
    }
}

/// The removal after it has turned to the walk, with the transaction as
/// `tx`: where the walk names a directory, that directory is looked at;
/// where the walk is over, the manifest is removed.
pub open spec fn turned(tx: TxView, before: UninstallView, after: UninstallView) -> bool {
    &&& after.root == before.root
    &&& after.name == before.name
    &&& match after.walk.current {
        Some(dir) => {
            &&& after.phase is Probing
            &&& after.run == idle(tx, before.run.staged)
            &&& after.probe == Some(
                RequestView::Probe { path: AbsView { root: before.root, below: dir } },
            )
        },
        None => {
            &&& after.probe is None
            &&& begun(
                tx,
                before.run.staged,
                seq![
                    StepView::Verb {
                        verb: Verb::RemoveFile,
                        component: before.name,
                        path: manifest_place(before.name),
                        src: Seq::<char>::empty(),
                    },
                ],
                after.run,
            )
            &&& after.phase == phase_after(after.run, Phase::Manifest)
        },
    }
}

/// The removal after the outcome of its waiting request came in.
///
/// While parts or directories or the manifest are being removed, the
/// outcome goes to the script. Where that leaves the script with more to
/// do, or failed, the phase stays or becomes `Failed`. Where the script has
/// run through, the manifest's removal ends the whole, and anything else
/// turns the removal to the walk.
///
/// While a directory is being looked at, the outcome goes to the walk: only
/// `Done` says that the directory is empty. A directory that the walk
/// yields is removed; without one the removal turns to the walk again.
pub open spec fn uninstall_resumed(
    before: UninstallView,
    outcome: OutcomeView,
    after: UninstallView,
) -> bool {
    match before.phase {
        Phase::Done | Phase::Failed => after == before,
        Phase::Probing => {
            let out = if outcome is Done {
                before.walk.current
            } else {
                None
            };
            &&& after.root == before.root
            &&& after.name == before.name
            &&& advanced(before.walk, outcome is Done, after.walk, out)
            &&& match out {
                Some(dir) => {
                    &&& after.probe is None
                    &&& begun(
                        before.run.tx,
                        before.run.staged,
                        seq![
                            StepView::Verb {
                                verb: Verb::RemoveDir,
                                component: before.name,
                                path: dir,
                                src: Seq::<char>::empty(),
                            },
                        ],
                        after.run,
                    )
                    &&& after.phase == phase_after(after.run, Phase::Pruning)
                },
                None => turned(before.run.tx, before, after),
            }
        },
        Phase::Parts | Phase::Pruning | Phase::Manifest => {
            if succeeds(before.run, outcome) && before.run.rest.len() == 0 {
                let tx = settled_tx(before.run, outcome);
                if before.phase is Manifest {
                    after == (UninstallView {
                        phase: Phase::Done,
                        run: idle(tx, before.run.staged),
                        ..before
                    })
                } else {
                    after.walk == before.walk && turned(tx, before, after)
                }
            } else {
                &&& resumed(before.run, outcome, after.run)
                &&& after == (UninstallView {
                    run: after.run,
                    phase: phase_after(after.run, before.phase),
                    ..before
                })
            }
        },
    }
}

/// What holds of every removal: its script is sound, and its phase agrees
/// with what waits.
pub open spec fn uninstall_sound(u: UninstallView) -> bool {
    &&& script_sound(u.run)
    &&& u.run.tx.root == u.root
    &&& match u.phase {
        Phase::Parts | Phase::Pruning | Phase::Manifest => u.run.active is Some && u.probe is None,
        Phase::Probing => u.run == idle(u.run.tx, u.run.staged) && u.walk.current is Some
            && u.probe == Some(
            RequestView::Probe { path: AbsView { root: u.root, below: u.walk.current->0 } },
        ),
        Phase::Done => u.run == idle(u.run.tx, u.run.staged) && u.probe is None,
        Phase::Failed => u.run.failure is Some && u.probe is None,
    }
}

/// The walk starts over the deepest of the directories that held `paths`,
/// in ascending order, and has yielded nothing.
pub open spec fn walk_starts(walk: WalkView, paths: Seq<Seq<Seq<char>>>) -> bool {
    &&& walk.yielded.len() == 0
    &&& walk.current is None ==> walk.pending.len() == 0
    &&& ascending(chains_of(walk))
    &&& chains_of(walk).to_set() == deepest(reach_of(paths))
}

/// Where a removal starts its walk depends on which paths the manifest
/// lists, not on their order.
pub proof fn lemma_walk_order_free(
    one: WalkView,
    one_paths: Seq<Seq<Seq<char>>>,
    other: WalkView,
    other_paths: Seq<Seq<Seq<char>>>,
)
    requires
        walk_starts(one, one_paths),
        walk_starts(other, other_paths),
        one_paths.to_set() == other_paths.to_set(),
    ensures
        one == other,
{
    lemma_reach_order_free(one_paths, other_paths);
    crate::prune::lemma_same_start(one, other);
}

/// The removal of one component, step by step.
pub struct Uninstall {
    run: Script,
    walk: PruneIter,
    phase: Phase,
    probe: Option<Request>,
    name: String,
    manifest: InstallPath,
    prefix: InstallPrefix,
}

impl View for Uninstall {
    type V = UninstallView;

    closed spec fn view(&self) -> UninstallView {
        UninstallView {
            root: self.prefix.root(),
            name: self.name@,
            phase: self.phase,
            run: self.run@,
            walk: self.walk.state(),
            probe: match self.probe {
                Some(request) => Some(request@),
                None => None,
            },
        }
    }
}

impl Uninstall {
    /// The removal is well formed.
    pub closed spec fn wf(&self) -> bool {
        &&& uninstall_sound(self@)
        &&& self.run.wf()
        &&& self.walk.wf()
        &&& self.manifest@ == manifest_place(self.name@)
        &&& relative(self.manifest@)
    }

    /// What a well-formed removal promises.
    pub proof fn lemma_wf(&self)
        requires
            self.wf(),
        ensures
            uninstall_sound(self@),
    {
    }

    /// Turns to the walk: looks at the directory it names, or, where it is
    /// over, removes the manifest.
    fn turn(&mut self)
        requires
            old(self).run.wf(),
            old(self)@.run == idle(old(self)@.run.tx, old(self)@.run.staged),
            old(self)@.run.tx.root == old(self)@.root,
            old(self).walk.wf(),
            old(self).manifest@ == manifest_place(old(self).name@),
            relative(old(self).manifest@),
        ensures
            final(self).wf(),
            final(self)@.walk == old(self)@.walk,
            turned(old(self)@.run.tx, old(self)@, final(self)@),
    {
        match self.walk.probe() {
            Some(dir) => {
                proof {
                    self.walk.lemma_wf();
                    self.run.lemma_wf();
                }
                self.probe = Some(Request::Probe { path: self.prefix.abs_path(dir) });
                self.phase = Phase::Probing;
            },
            None => {
                self.probe = None;
                self.run.append(
                    Step::Verb {
                        verb: Verb::RemoveFile,
                        component: copy_of(self.name.as_str()),
                        path: self.manifest.clone(),
                        src: String::new(),
                    },
                );
                proof {
                    self.run.lemma_wf();
                }
                self.phase = if self.run.has_failed() {
                    Phase::Failed
                } else {
                    Phase::Manifest
                };
            },
        }
    }

    /// The request that waits for its outcome, if one does.
    pub fn request(&self) -> (next: Option<&Request>)
        ensures
            match next {
                Some(request) => Some(request@) == if self@.phase is Probing {
                    self@.probe
                } else {
                    self@.run.active
                },
                None => if self@.phase is Probing {
                    self@.probe is None
                } else {
                    self@.run.active is None
                },
            },
    {
        match self.phase {
            Phase::Probing => self.probe.as_ref(),
            _ => self.run.request(),
        }
    }

    /// Takes the outcome of the waiting request.
    pub fn resume(&mut self, outcome: Outcome)
        requires
            old(self).wf(),
        ensures
            final(self).wf(),
            uninstall_resumed(old(self)@, outcome@, final(self)@),
    {
        proof {
            self.run.lemma_wf();
        }
        match self.phase {
            Phase::Done | Phase::Failed => {},
            Phase::Probing => {
                self.probe = None;
                match self.walk.advance(outcome.is_done()) {
                    Some(dir) => {
                        proof {
                            self.walk.lemma_wf();
                            let listed = self.walk.yielded();
                            assert(listed.last() == dir@);
                            assert(listed[listed.len() - 1].len() >= 1 && relative(
                                listed[listed.len() - 1],
                            ));
                        }
                        self.run.append(
                            Step::Verb {
                                verb: Verb::RemoveDir,
                                component: copy_of(self.name.as_str()),
                                path: dir,
                                src: String::new(),
                            },
                        );
                        proof {
                            self.run.lemma_wf();
                        }
                        self.phase = if self.run.has_failed() {
                            Phase::Failed
                        } else {
                            Phase::Pruning
                        };
                    },
                    None => {
                        self.turn();
                    },
                }
            },
            Phase::Parts | Phase::Pruning | Phase::Manifest => {
                self.run.resume(outcome);
                proof {
                    self.run.lemma_wf();
                }
                if self.run.has_failed() {
                    self.phase = Phase::Failed;
                } else if self.run.is_complete() {
                    assert(self@.run.rest =~= Seq::<StepView>::empty());
                    assert(self@.run == idle(self@.run.tx, self@.run.staged));
                    match self.phase {
                        Phase::Manifest => {
                            self.phase = Phase::Done;
                        },
                        _ => {
                            self.turn();
                        },
                    }
                }
            },
        }
    }

    /// Whether the component is removed.
    pub fn is_done(&self) -> (b: bool)
        ensures
            b == (self@.phase is Done),
    {
        match self.phase {
            Phase::Done => true,
            _ => false,
        }
    }

    /// Gives up the removal: the transaction, and the error if the removal
    /// failed.
    pub fn close(self) -> (end: (Transaction, Option<Error>))
        requires
            self.wf(),
        ensures
            end.0.wf(),
            end.0.state() is Open,
            end.0@ == self@.run.tx,
            match end.1 {
                Some(error) => self@.run.failure == Some(error@),
                None => self@.run.failure is None,
            },
    {
        self.run.close()
    }
}


/// The lines of `lines` that are not `name`, in their order.
fn keep_others(lines: &Vec<String>, name: &str) -> (kept: Vec<String>)
    ensures
        texts(kept@) == without(texts(lines@), name@),
{
    let wanted = copy_of(name);
    let mut kept: Vec<String> = Vec::new();
    let mut i: usize = 0;
    assert(texts(lines@).take(0) == Seq::<Seq<char>>::empty());
    assert(texts(kept@) == Seq::<Seq<char>>::empty());
    while i < lines.len()
        invariant
            i <= lines.len(),
            wanted@ == name@,
            texts(kept@) == without(texts(lines@).take(i as int), name@),
        decreases lines.len() - i,
    {
        proof {
            let now = texts(lines@).take(i + 1);
            assert(now.drop_last() == texts(lines@).take(i as int));
            assert(now.last() == lines[i as int]@);
        }
        if lines[i] != wanted {
            let ghost before = texts(kept@);
            kept.push(copy_of(lines[i].as_str()));
            assert(texts(kept@) == before.push(lines[i as int]@));
        }
        i += 1;
    }
    assert(texts(lines@).take(lines.len() as int) == texts(lines@));
    kept
}

/// Whether every part is of a kind that can be removed.
fn all_known(parts: &Vec<ComponentPart>) -> (b: bool)
    ensures
        b == removable(part_views(parts@)),
{
    let mut i: usize = 0;
    while i < parts.len()
        invariant
            i <= parts.len(),
            forall|k: int| 0 <= k < i ==> !((#[trigger] part_views(parts@)[k]).kind is Unknown),
        decreases parts.len() - i,
    {
        if !parts[i].kind.is_known() {
            assert(part_views(parts@)[i as int].kind is Unknown);
            return false;
        }
        i += 1;
    }
    true
}

/// Adds to `steps` the removal of `parts`, the last part first.
fn push_removals(steps: &mut Vec<Step>, name: &str, parts: &Vec<ComponentPart>)
    requires
        removable(part_views(parts@)),
    ensures
        step_views(final(steps)@) == step_views(old(steps)@) + removal_steps(
            name@,
            part_views(parts@),
        ),
{
    let ghost before = step_views(steps@);
    let ghost all = removal_steps(name@, part_views(parts@));
    let n = parts.len();
    let mut done: usize = 0;
    assert(before + all.take(0) == before);
    while done < n
        invariant
            n == parts.len(),
            done <= n,
            all == removal_steps(name@, part_views(parts@)),
            removable(part_views(parts@)),
            step_views(steps@) == before + all.take(done as int),
        decreases n - done,
    {
        let part = &parts[n - 1 - done];
        let verb = match part.kind {
            ComponentPartKind::Dir => Verb::RemoveDir,
            _ => Verb::RemoveFile,
        };
        let ghost sofar = step_views(steps@);
        let step = Step::Verb {
            verb,
            component: copy_of(name),
            path: part.path.clone(),
            src: String::new(),
        };
        proof {
            let view = part_views(parts@)[n - 1 - done];
            assert(view == part@);
            assert(!(view.kind is Unknown));
            assert(step@ == removal_of(name@, view));
            assert(all[done as int] == removal_of(name@, view));
            assert(all.take(done + 1) == all.take(done as int).push(all[done as int]));
        }
        steps.push(step);
        assert(step_views(steps@) == sofar.push(all[done as int]));
        assert(before + all.take(done + 1) == (before + all.take(done as int)).push(
            all[done as int],
        ));
        done += 1;
    }
    assert(all.take(n as int) == all);
}

/// The prune set that has seen the paths of `parts`, the last part first.
fn prune_set_for(parts: &Vec<ComponentPart>) -> (set: PruneSet)
    ensures
        set.wf(),
        set.reach() == reach_of(part_paths(part_views(parts@))),
{
    let ghost paths = part_paths(part_views(parts@));
    let n = parts.len();
    let mut set = PruneSet::new();
    let mut done: usize = 0;
    let ghost mut fed: Seq<Seq<Seq<char>>> = Seq::empty();
    assert(set.reach() =~= reach_of(fed));
    while done < n
        invariant
            n == parts.len(),
            done <= n,
            paths == part_paths(part_views(parts@)),
            set.wf(),
            set.reach() == reach_of(fed),
            fed.len() == done,
            forall|j: int| 0 <= j < done ==> fed[j] == paths[n - 1 - j],
        decreases n - done,
    {
        let part = &parts[n - 1 - done];
        assert(part.path@ == paths[n - 1 - done]);
        set.seen(&part.path);
        proof {
            lemma_reach_push(fed, part.path@);
            fed = fed.push(part.path@);
        }
        done += 1;
    }
    proof {
        assert forall|q: Seq<Seq<char>>| fed.to_set().contains(q) <==> paths.to_set().contains(
            q,
        ) by {
            if fed.contains(q) {
                let j = choose|j: int| 0 <= j < fed.len() && fed[j] == q;
                assert(paths[n - 1 - j] == q);
            }
            if paths.contains(q) {
                let j = choose|j: int| 0 <= j < paths.len() && paths[j] == q;
                assert(fed[n - 1 - j] == q);
            }
        }
        assert(fed.to_set() =~= paths.to_set());
        lemma_reach_order_free(fed, paths);
    }
    set
}

impl Component {
    /// Begins the removal of this component under `tx`, where `components`
    /// is what the list of components holds and `manifest` is what the
    /// component's manifest holds.
    pub fn uninstall(&self, tx: Transaction, components: &str, manifest: &str) -> (removal:
        Uninstall)
        requires
            tx.wf(),
            tx.state() is Open,
            tx.pending() is None,
            tx.root() == self.root(),
        ensures
            removal.wf(),
            removal@.root == self.root(),
            removal@.name == self.name_view(),
            removal@.probe is None,
            removal@.phase == phase_after(removal@.run, Phase::Parts),
            begun(
                tx@,
                None,
                uninstall_steps(self.name_view(), components@, manifest@),
                removal@.run,
            ),
            walk_starts(
                removal@.walk,
                match parts_of(lines_of(manifest@)) {
                    Some(parts) => part_paths(parts),
                    None => Seq::empty(),
                },
            ),
    {
        let prefix = self.prefix();
        let list = prefix.rel_manifest_file(crate::prefix::components_file_name().as_str());
        let kept = keep_others(&read_lines(components), self.name());
        let read = self.parts(manifest);
        let mut steps: Vec<Step> = Vec::new();
        steps.push(Step::Stage { lines: kept });
        steps.push(
            Step::Verb {
                verb: Verb::ModifyFile,
                component: String::new(),
                path: list,
                src: String::new(),
            },
        );
        steps.push(Step::Promote);
        let ghost fixed = step_views(steps@);
        let sound = match &read {
            Ok(parts) => all_known(parts),
            Err(_) => false,
        };
        if sound {
            match &read {
                Ok(parts) => {
                    push_removals(&mut steps, self.name(), parts);
                },
                Err(_) => {},
            }
        } else {
            steps.push(Step::Fail { error: Error::CorruptComponent { name: copy_of(self.name()) } });
            assert(step_views(steps@) =~= fixed + seq![
                StepView::Fail { error: ErrorView::CorruptComponent { name: self.name_view() } },
            ]);
        }
        assert(step_views(steps@) =~= uninstall_steps(self.name_view(), components@, manifest@));
        let set = match &read {
            Ok(parts) => prune_set_for(parts),
            Err(_) => {
                let empty: Vec<ComponentPart> = Vec::new();
                let set = prune_set_for(&empty);
                assert(part_paths(part_views(empty@)) =~= Seq::<Seq<Seq<char>>>::empty());
                set
            },
        };
        proof {
            set.lemma_shape();
        }
        let walk = set.directories();
        let run = Script::start(tx, steps);
        proof {
            run.lemma_wf();
        }
        let phase = if run.has_failed() {
            Phase::Failed
        } else {
            Phase::Parts
        };
        let manifest_path = self.rel_manifest_file();
        Uninstall {
            run,
            walk,
            phase,
            probe: None,
            name: copy_of(self.name()),
            manifest: manifest_path,
            prefix,
        }
    }
}

} // verus!
