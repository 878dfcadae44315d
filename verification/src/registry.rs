//! What holds of the list of components and the manifests, taken together.
//!
//! A prefix is coherent when the components that the list names are those
//! that have a manifest. Installing a component and removing one both keep
//! a coherent prefix coherent, as long as the parts themselves stay out of
//! the metadata.

use vstd::prelude::*;
use crate::components::{
    components_place,
    finish_steps,
    manifest_place,
    version_place,
    version_steps,
};
use crate::effect::{OutcomeView, RequestView, ScratchId};
use crate::model::{Disk, Files, performs, run_of, single};
use crate::part::{PartView, encoded};
use crate::path::relative;
use crate::prefix::{
    AbsView,
    components_name,
    installer_version,
    manifest_name,
    metadata_dir,
    version_name,
};
use crate::script::{ScriptView, StepView, begun, resumed, script_sound, settled_tx, succeeds};
use crate::text::lines_of;
use crate::transaction::{ChangeView, TxView, Verb, newest_file, request_for, sound};
use crate::uninstall::{uninstall_steps, without};

verus! {

/// The names that the list of components holds; none where there is no
/// list.
pub open spec fn names_of(files: Files) -> Seq<Seq<char>> {
    if files.dom().contains(components_place()) {
        files[components_place()]
    } else {
        Seq::empty()
    }
}

/// The list of components names exactly the components that have a
/// manifest.
pub open spec fn registry_coherent(files: Files) -> bool {
    forall|name: Seq<char>|
        names_of(files).contains(name) <==> files.dom().contains(#[trigger] manifest_place(name))
}

/// The files after the component `name` with `parts` was registered: its
/// manifest holds one line per part, the list ends with its name, and the
/// version file holds the supported version.
pub open spec fn registered(files: Files, name: Seq<char>, parts: Seq<PartView>) -> Files {
    files.insert(manifest_place(name), Seq::new(parts.len(), |i: int| encoded(parts[i]))).insert(
        components_place(),
        names_of(files).push(name),
    ).insert(version_place(), seq![installer_version()])
}

/// The places of the metadata are distinct: no manifest is the list or the
/// version file, and two manifests in one place belong to one component.
pub proof fn lemma_places_distinct(one: Seq<char>, other: Seq<char>)
    ensures
        manifest_place(one) != components_place(),
        manifest_place(one) != version_place(),
        components_place() != version_place(),
        manifest_place(one) == manifest_place(other) ==> one == other,
{
    reveal_strlit("manifest-");
    reveal_strlit("components");
    reveal_strlit("version");
    let dir = metadata_dir();
    assert(manifest_name(one)[0] == 'm');
    assert(components_name()[0] == 'c');
    assert(version_name()[0] == 'v');
    assert(manifest_place(one)[dir.len() as int] == manifest_name(one));
    assert(components_place()[dir.len() as int] == components_name());
    assert(version_place()[dir.len() as int] == version_name());
    if manifest_place(one) == manifest_place(other) {
        assert(manifest_place(other)[dir.len() as int] == manifest_name(other));
        assert(manifest_name(one) == manifest_name(other));
        assert(manifest_name(one).skip(9) == one);
        assert(manifest_name(other).skip(9) == other);
    }
}

/// Registering a component that has no manifest yet keeps the prefix
/// coherent.
pub proof fn lemma_registered_coherent(files: Files, name: Seq<char>, parts: Seq<PartView>)
    requires
        registry_coherent(files),
        !files.dom().contains(manifest_place(name)),
    ensures
        registry_coherent(registered(files, name, parts)),
        names_of(registered(files, name, parts)) == names_of(files).push(name),
{
    let after = registered(files, name, parts);
    lemma_places_distinct(name, name);
    assert(names_of(after) == names_of(files).push(name));
    assert forall|other: Seq<char>|
        names_of(after).contains(other) <==> after.dom().contains(
            #[trigger] manifest_place(other),
        ) by {
        lemma_places_distinct(other, name);
        let before = names_of(files);
        if names_of(after).contains(other) {
            let i = choose|i: int| 0 <= i < names_of(after).len() && names_of(after)[i] == other;
            if i < before.len() {
                assert(before[i] == other);
                assert(before.contains(other));
            }
        }
        if before.contains(other) {
            let i = choose|i: int| 0 <= i < before.len() && before[i] == other;
            assert(names_of(after)[i] == other);
        }
        if other == name {
            assert(names_of(after)[before.len() as int] == name);
        }
    }
}

/// In a run that ends without failure, no state has failed and every
/// request has passed.
pub proof fn lemma_run_passed(
    states: Seq<ScriptView>,
    outcomes: Seq<OutcomeView>,
    disks: Seq<Disk>,
    i: int,
)
    requires
        run_of(states, outcomes, disks),
        states.last().failure is None,
        0 <= i < outcomes.len(),
    ensures
        states[i].failure is None,
        states[i + 1].failure is None,
        succeeds(states[i], outcomes[i]),
{
    assert(script_sound(states[i]));
    assert(script_sound(states[i + 1]));
    assert(performs(disks[i], states[i].active->0, outcomes[i], disks[i + 1]));
    if i + 1 < outcomes.len() {
        assert(performs(disks[i + 1], states[i + 1].active->0, outcomes[i + 1], disks[i + 2]));
    }
}

/// A script that has turned to a verb and has not failed waits with the
/// verb's request, the verb pending.
pub proof fn lemma_begun_verb(
    tx: TxView,
    staged: Option<ScratchId>,
    rest: Seq<StepView>,
    after: ScriptView,
)
    requires
        rest.len() > 0,
        rest[0] is Verb,
        begun(tx, staged, rest, after),
        after.failure is None,
    ensures
        after.rest == rest.drop_first(),
        after.staged == staged,
        after.raw is None,
        after.tx.root == tx.root,
        after.tx.changes == tx.changes,
        after.tx.pending is Some,
        after.tx.pending->0.verb == rest[0]->verb,
        after.tx.pending->0.path == rest[0]->path,
        after.tx.pending->0.component == rest[0]->component,
        after.active == Some(request_for(tx.root, after.tx.pending->0)),
{
}

/// The places of the metadata are relative.
pub proof fn lemma_places_relative(name: Seq<char>)
    ensures
        relative(manifest_place(name)),
        relative(components_place()),
        relative(version_place()),
{
    reveal_strlit("lib");
    assert(metadata_dir()[0].len() == 3);
    assert(manifest_place(name)[0] == metadata_dir()[0]);
    assert(components_place()[0] == metadata_dir()[0]);
    assert(version_place()[0] == metadata_dir()[0]);
}

/// Finishing an installation registers the component.
///
/// Where the script that finishes the installation has run on a coherent
/// prefix and has ended without failure, the files are those before with
/// the component registered, and the prefix is coherent.
pub proof fn lemma_finish_registers(
    tx: TxView,
    name: Seq<char>,
    parts: Seq<PartView>,
    states: Seq<ScriptView>,
    outcomes: Seq<OutcomeView>,
    disks: Seq<Disk>,
)
    requires
        begun(tx, None, finish_steps(name, parts), states[0]),
        run_of(states, outcomes, disks),
        states.last().active is None,
        states.last().failure is None,
        registry_coherent(disks[0].files),
    ensures
        outcomes.len() == 6,
        disks.last().files == registered(disks[0].files, name, parts),
        registry_coherent(disks.last().files),
        names_of(disks.last().files) == names_of(disks[0].files).push(name),
{
    let steps = finish_steps(name, parts);
    let lines = Seq::new(parts.len(), |i: int| encoded(parts[i]));
    let n = outcomes.len() as int;
    assert(steps.len() == 6);
    assert(steps[0] == StepView::Verb {
        verb: Verb::AddFile,
        component: name,
        path: manifest_place(name),
        src: Seq::<char>::empty(),
    });
    assert(steps[1] == StepView::Write { lines });
    assert(steps[2] == StepView::Verb {
        verb: Verb::ModifyFile,
        component: Seq::<char>::empty(),
        path: components_place(),
        src: Seq::<char>::empty(),
    });
    assert(steps[3] == StepView::Append { line: name });
    assert(steps[4] == version_steps()[0]);
    assert(steps[5] == version_steps()[1]);
    lemma_places_distinct(name, name);
    lemma_places_relative(name);
    let files = disks[0].files;
    let place = manifest_place(name);

    // the manifest is created
    assert(script_sound(states[0]));
    assert(states[0].failure is None) by {
        if n > 0 {
            lemma_run_passed(states, outcomes, disks, 0);
        }
    }
    lemma_begun_verb(tx, None, steps, states[0]);
    assert(n > 0);
    lemma_run_passed(states, outcomes, disks, 0);
    assert(performs(disks[0], states[0].active->0, outcomes[0], disks[1]));
    assert(resumed(states[0], outcomes[0], states[1]));
    assert(outcomes[0] is Done);
    let tx1 = settled_tx(states[0], outcomes[0]);
    assert(tx1.changes.last() == (ChangeView::CreatedFile { component: name, path: place }));
    assert(newest_file(tx1.changes) == Some(place));
    assert(!files.dom().contains(place)) by {
        assert(crate::path::prefix_of(place, place)) by {
            assert(place.take(place.len() as int) == place);
        }
    }
    assert(disks[1].files == files.insert(place, Seq::empty()));

    // and written
    let rest1 = steps.drop_first();
    assert(rest1[0] == steps[1]);
    assert(states[1].active is Some);
    assert(n > 1);
    lemma_run_passed(states, outcomes, disks, 1);
    assert(performs(disks[1], states[1].active->0, outcomes[1], disks[2]));
    assert(resumed(states[1], outcomes[1], states[2]));
    assert(disks[2].files == disks[1].files.insert(place, lines));

    // the list is announced
    let rest2 = rest1.drop_first();
    assert(rest2[0] == steps[2]);
    assert(states[1].rest == rest1.drop_first());
    lemma_begun_verb(settled_tx(states[1], outcomes[1]), None, rest2, states[2]);
    assert(n > 2);
    lemma_run_passed(states, outcomes, disks, 2);
    assert(performs(disks[2], states[2].active->0, outcomes[2], disks[3]));
    assert(resumed(states[2], outcomes[2], states[3]));
    assert(disks[3].files == disks[2].files);
    let tx3 = settled_tx(states[2], outcomes[2]);
    assert(place_of_last(tx3.changes) == components_place());
    assert(newest_file(tx3.changes) == Some(components_place()));

    // and gets the name
    let rest3 = rest2.drop_first();
    assert(rest3[0] == steps[3]);
    assert(states[3].active is Some);
    assert(n > 3);
    lemma_run_passed(states, outcomes, disks, 3);
    assert(performs(disks[3], states[3].active->0, outcomes[3], disks[4]));
    assert(resumed(states[3], outcomes[3], states[4]));
    assert(disks[4].files == disks[3].files.insert(
        components_place(),
        names_of(disks[3].files).push(name),
    )) by {
        assert(seq![name] =~= Seq::<Seq<char>>::empty().push(name));
    }

    // the version file is announced
    let rest4 = rest3.drop_first();
    assert(rest4[0] == steps[4]);
    lemma_begun_verb(settled_tx(states[3], outcomes[3]), None, rest4, states[4]);
    assert(n > 4);
    lemma_run_passed(states, outcomes, disks, 4);
    assert(performs(disks[4], states[4].active->0, outcomes[4], disks[5]));
    assert(resumed(states[4], outcomes[4], states[5]));
    assert(disks[5].files == disks[4].files);
    let tx5 = settled_tx(states[4], outcomes[4]);
    assert(place_of_last(tx5.changes) == version_place());
    assert(newest_file(tx5.changes) == Some(version_place()));

    // and written
    let rest5 = rest4.drop_first();
    assert(rest5[0] == steps[5]);
    assert(states[5].active is Some);
    assert(n > 5);
    lemma_run_passed(states, outcomes, disks, 5);
    assert(performs(disks[5], states[5].active->0, outcomes[5], disks[6]));
    assert(resumed(states[5], outcomes[5], states[6]));
    assert(disks[6].files == disks[5].files.insert(version_place(), seq![installer_version()]));

    // nothing is left to do
    let rest6 = rest5.drop_first();
    assert(rest6.len() == 0);
    assert(states[6].active is None);
    assert(n == 6) by {
        if n > 6 {
            assert(performs(disks[6], states[6].active->0, outcomes[6], disks[7]));
        }
    }
    assert(names_of(disks[3].files) == names_of(files));
    assert(disks[6].files =~= registered(files, name, parts));
    lemma_registered_coherent(files, name, parts);
}

/// The place that the newest entry of a log is about.
pub open spec fn place_of_last(changes: Seq<ChangeView>) -> Seq<Seq<char>> {
    crate::transaction::place_of(changes.last())
}

/// Two sets of files agree on which manifests there are, but for that of
/// the component `name`.
pub open spec fn same_manifests_but(one: Files, other: Files, name: Seq<char>) -> bool {
    forall|n: Seq<char>|
        n != name ==> (one.dom().contains(#[trigger] manifest_place(n)) <==> other.dom().contains(
            manifest_place(n),
        ))
}

/// Removing a component keeps the prefix coherent: where the list afterwards
/// holds the names it held without the component's, the component's
/// manifest is gone, and the other manifests are as they were.
pub proof fn lemma_removed_coherent(before: Files, after: Files, name: Seq<char>)
    requires
        registry_coherent(before),
        names_of(after) == without(names_of(before), name),
        !after.dom().contains(manifest_place(name)),
        same_manifests_but(before, after, name),
    ensures
        registry_coherent(after),
{
    lemma_without(names_of(before), name);
    assert forall|other: Seq<char>|
        names_of(after).contains(other) <==> after.dom().contains(
            #[trigger] manifest_place(other),
        ) by {
        if other != name {
            assert(before.dom().contains(manifest_place(other)) <==> after.dom().contains(
                manifest_place(other),
            ));
        }
    }
}

/// The removal of a component begins by replacing the list.
///
/// Where the script that removes the component `name` has begun on a disk
/// whose list holds what `components` holds, and its first three requests
/// have passed, the list holds the names it held without the component's,
/// and no other file has changed.
pub proof fn lemma_uninstall_replaces_list(
    tx: TxView,
    name: Seq<char>,
    components: Seq<char>,
    manifest: Seq<char>,
    states: Seq<ScriptView>,
    outcomes: Seq<OutcomeView>,
    disks: Seq<Disk>,
)
    requires
        sound(tx),
        tx.pending is None,
        begun(tx, None, uninstall_steps(name, components, manifest), states[0]),
        run_of(states, outcomes, disks),
        outcomes.len() >= 3,
        succeeds(states[0], outcomes[0]),
        succeeds(states[1], outcomes[1]),
        succeeds(states[2], outcomes[2]),
        lines_of(components) == names_of(disks[0].files),
    ensures
        disks[3].files == disks[0].files.insert(
            components_place(),
            without(names_of(disks[0].files), name),
        ),
{
    let steps = uninstall_steps(name, components, manifest);
    let kept = without(lines_of(components), name);
    assert(steps[0] == StepView::Stage { lines: kept });
    assert(steps[1] == StepView::Verb {
        verb: Verb::ModifyFile,
        component: Seq::<char>::empty(),
        path: components_place(),
        src: Seq::<char>::empty(),
    });
    assert(steps[2] == StepView::Promote);
    lemma_places_relative(name);
    let files = disks[0].files;

    // the new list is staged
    assert(script_sound(states[0]));
    assert(states[0].active is Some);
    assert(tx.issued < u64::MAX);
    let scratch = ScratchId { index: tx.issued as u64 };
    assert(states[0].active == Some(RequestView::WriteScratch { scratch, lines: kept }));
    assert(states[0].staged == Some(scratch));
    assert(performs(disks[0], states[0].active->0, outcomes[0], disks[1]));
    assert(resumed(states[0], outcomes[0], states[1]));
    assert(disks[1].files == files);
    assert(disks[1].scratch[scratch] == single(kept));

    // the list is announced
    let rest1 = steps.drop_first();
    assert(rest1[0] == steps[1]);
    assert(script_sound(states[1]));
    assert(states[1].failure is None);
    lemma_begun_verb(settled_tx(states[0], outcomes[0]), Some(scratch), rest1, states[1]);
    assert(performs(disks[1], states[1].active->0, outcomes[1], disks[2]));
    assert(resumed(states[1], outcomes[1], states[2]));
    assert(states[1].tx.pending->0.backup != scratch);
    assert(disks[2].files == files);
    assert(disks[2].scratch[scratch] == single(kept));
    assert(disks[2].scratch.dom().contains(scratch));
    let tx2 = settled_tx(states[1], outcomes[1]);
    assert(place_of_last(tx2.changes) == components_place());
    assert(newest_file(tx2.changes) == Some(components_place()));

    // what was staged takes its place
    let rest2 = rest1.drop_first();
    assert(rest2[0] == steps[2]);
    assert(script_sound(states[2]));
    assert(states[2].active is Some);
    assert(states[2].active == Some(
        RequestView::Promote {
            scratch,
            path: AbsView { root: tx.root, below: components_place() },
        },
    ));
    assert(performs(disks[2], states[2].active->0, outcomes[2], disks[3]));
    assert(disks[3].files == files.insert(components_place(), kept));
}

/// Removing a component unregisters it.
///
/// Where the list was replaced as the removal begins, the component's
/// manifest is gone in the end, and whatever else happened left the
/// metadata alone, the list holds the names it held without the
/// component's, and the prefix is coherent.
pub proof fn lemma_uninstall_unregisters(before: Files, replaced: Files, end: Files, name: Seq<char>)
    requires
        registry_coherent(before),
        replaced == before.insert(components_place(), without(names_of(before), name)),
        names_of(end) == names_of(replaced),
        !end.dom().contains(manifest_place(name)),
        same_manifests_but(replaced, end, name),
    ensures
        names_of(end) == without(names_of(before), name),
        registry_coherent(end),
{
    lemma_places_distinct(name, name);
    assert(same_manifests_but(before, end, name)) by {
        assert forall|n: Seq<char>| n != name implies (before.dom().contains(
            #[trigger] manifest_place(n),
        ) <==> end.dom().contains(manifest_place(n))) by {
            lemma_places_distinct(n, name);
            assert(replaced.dom().contains(manifest_place(n)) <==> end.dom().contains(
                manifest_place(n),
            ));
        }
    }
    lemma_removed_coherent(before, end, name);
}

/// What is left without `name` is every line that is not `name`.
pub proof fn lemma_without(lines: Seq<Seq<char>>, name: Seq<char>)
    ensures
        forall|other: Seq<char>|
            #[trigger] without(lines, name).contains(other) <==> lines.contains(other) && other
                != name,
    decreases lines.len(),
{
    if lines.len() > 0 {
        let front = lines.drop_last();
        lemma_without(front, name);
        let kept = without(lines, name);
        let inner = without(front, name);
        assert(kept == if lines.last() == name {
            inner
        } else {
            inner.push(lines.last())
        });
        assert forall|other: Seq<char>| #[trigger]
            kept.contains(other) <==> lines.contains(other) && other != name by {
            assert(inner.contains(other) <==> front.contains(other) && other != name);
            if kept.contains(other) {
                let i = choose|i: int| 0 <= i < kept.len() && kept[i] == other;
                if i < inner.len() {
                    assert(inner[i] == other);
                    assert(inner.contains(other));
                    let j = choose|j: int| 0 <= j < front.len() && front[j] == other;
                    assert(lines[j] == other);
                } else {
                    assert(lines[lines.len() - 1] == other);
                }
                assert(lines.contains(other) && other != name);
            }
            if lines.contains(other) && other != name {
                let j = choose|j: int| 0 <= j < lines.len() && lines[j] == other;
                if j < front.len() {
                    assert(front[j] == other);
                    assert(front.contains(other));
                    assert(inner.contains(other));
                    let i = choose|i: int| 0 <= i < inner.len() && inner[i] == other;
                    assert(kept[i] == other);
                } else {
                    assert(kept[kept.len() - 1] == other);
                }
                assert(kept.contains(other));
            }
        }
    }
}

} // verus!
