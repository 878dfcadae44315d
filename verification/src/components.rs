//! The installed toolchain and its components.
//!
//! [`Components`] reads the list of what is installed, [`ComponentBuilder`]
//! installs one component, and [`Component`] removes one. All three are
//! handed what the metadata files hold and hand out what is to be done.

use vstd::prelude::*;
use vstd::string::*;
use crate::effect::{Request, RequestView};
use crate::error::{Error, ErrorView};
use crate::part::{ComponentPart, ComponentPartKind, KindView, PartView, decoded, encoded};
use crate::path::{InstallPath, relative};
use crate::prefix::{
    AbsView,
    InstallPrefix,
    components_file_name,
    components_name,
    installer_version,
    manifest_name,
    metadata_dir,
    supported_version,
    version_file_name,
    version_name,
};
use crate::script::{Script, Step, StepView, begun, step_views};
use crate::text::{copy_of, lines_of, push_text, read_lines, texts, trim_end, trimmed_end};
use crate::effect::Outcome;
use crate::transaction::{Transaction, TxView, Verb, answer_view, change_for, planned, refusal_for};

verus! {

/// Where the list of installed components stands, relative to the prefix.
pub open spec fn components_place() -> Seq<Seq<char>> {
    metadata_dir().push(components_name())
}

/// Where the version of the metadata format stands, relative to the prefix.
pub open spec fn version_place() -> Seq<Seq<char>> {
    metadata_dir().push(version_name())
}

/// Where the manifest of the component `name` stands, relative to the
/// prefix.
pub open spec fn manifest_place(name: Seq<char>) -> Seq<Seq<char>> {
    metadata_dir().push(manifest_name(name))
}

/// What opening a prefix gives, for the version token found there: any
/// token but the supported one is refused.
pub open spec fn version_accepted(found: Option<Seq<char>>) -> Result<(), ErrorView> {
    match found {
        Some(token) if token != installer_version() => Err(
            ErrorView::UnsupportedInstallerVersion { found: token, expected: installer_version() },
        ),
        _ => Ok(()),
    }
}

/// The installed toolchain below one prefix.
#[derive(Debug)]
pub struct Components {
    pub(crate) prefix: InstallPrefix,
}

impl Clone for Components {
    fn clone(&self) -> (copy: Self)
        ensures
            copy.root() == self.root(),
    {
        Components { prefix: self.prefix.clone() }
    }
}

impl Components {
    /// The root of the prefix.
    pub closed spec fn root(&self) -> Seq<char> {
        self.prefix.root()
    }

    /// Opens the toolchain below `prefix`, where the version file, if there
    /// is one, holds the token `found`.
    pub fn check_version(prefix: InstallPrefix, found: Option<&str>) -> (opened: Result<
        Self,
        Error,
    >)
        ensures
            match opened {
                Ok(c) => c.root() == prefix.root() && version_accepted(
                    match found {
                        Some(token) => Some(token@),
                        None => None,
                    },
                ) is Ok,
                Err(e) => version_accepted(
                    match found {
                        Some(token) => Some(token@),
                        None => None,
                    },
                ) == Err::<(), ErrorView>(e@),
            },
    {
        match found {
            Some(token) => {
                let found = copy_of(token);
                let expected = supported_version();
                if found != expected {
                    return Err(Error::UnsupportedInstallerVersion { found, expected });
                }
            },
            None => {},
        }
        Ok(Components { prefix })
    }

    /// Opens the toolchain below `prefix`. `version` is what the version
    /// file holds, or `None` where there is no such file.
    ///
    /// White space at the end of the file does not count. A version other
    /// than the supported one is refused.
    pub fn open(prefix: InstallPrefix, version: Option<&str>) -> (opened: Result<Self, Error>)
        ensures
            match opened {
                Ok(c) => c.root() == prefix.root() && version_accepted(
                    match version {
                        Some(content) => Some(trimmed_end(content@)),
                        None => None,
                    },
                ) is Ok,
                Err(e) => version_accepted(
                    match version {
                        Some(content) => Some(trimmed_end(content@)),
                        None => None,
                    },
                ) == Err::<(), ErrorView>(e@),
            },
    {
        match version {
            Some(content) => {
                let token = trim_end(content);
                Components::check_version(prefix, Some(token.as_str()))
            },
            None => Components::check_version(prefix, None),
        }
    }

    /// Where the list of installed components stands, relative to the
    /// prefix.
    pub fn rel_components_file(&self) -> (file: InstallPath)
        ensures
            file@ == components_place(),
            relative(file@),
    {
        self.prefix.rel_manifest_file(components_file_name().as_str())
    }

    /// Where the manifest of the component `name` stands, relative to the
    /// prefix.
    pub fn rel_component_manifest(&self, name: &str) -> (file: InstallPath)
        ensures
            file@ == manifest_place(name@),
            relative(file@),
    {
        let mut file_name = String::from_str("manifest-");
        push_text(&mut file_name, name);
        self.prefix.rel_manifest_file(file_name.as_str())
    }

    /// The version token that the version file holds, where `content` is
    /// what the file holds, or `None` where there is no such file.
    pub fn read_version(&self, content: Option<&str>) -> (token: Option<String>)
        ensures
            match content {
                Some(text) => token is Some && token->0@ == trimmed_end(text@),
                None => token is None,
            },
    {
        match content {
            Some(text) => Some(trim_end(text)),
            None => None,
        }
    }

    /// Adds to `steps` what stamps the prefix with the supported version.
    pub fn write_version(&self, steps: &mut Vec<Step>)
        ensures
            step_views(final(steps)@) == step_views(old(steps)@) + version_steps(),
    {
        let ghost before = step_views(steps@);
        let file = self.prefix.rel_manifest_file(version_file_name().as_str());
        let mut lines: Vec<String> = Vec::new();
        lines.push(supported_version());
        assert(texts(lines@) == seq![installer_version()]);
        steps.push(
            Step::Verb {
                verb: Verb::ModifyFile,
                component: String::new(),
                path: file,
                src: String::new(),
            },
        );
        steps.push(Step::Write { lines });
        assert(step_views(steps@) == before + version_steps());
    }

    /// The installed components, in the order in which they were installed.
    /// `content` is what the list of components holds, or `None` where there
    /// is no such file.
    pub fn list(&self, content: Option<&str>) -> (found: Vec<Component>)
        ensures
            component_names(found@) == match content {
                Some(text) => lines_of(text@),
                None => Seq::<Seq<char>>::empty(),
            },
            forall|i: int| 0 <= i < found.len() ==> (#[trigger] found[i]).root() == self.root(),
    {
        let mut found: Vec<Component> = Vec::new();
        let text = match content {
            Some(text) => text,
            None => {
                assert(component_names(found@) == Seq::<Seq<char>>::empty());
                return found;
            },
        };
        let names = read_lines(text);
        let mut i: usize = 0;
        assert(texts(names@).take(0) == Seq::<Seq<char>>::empty());
        assert(component_names(found@) == Seq::<Seq<char>>::empty());
        while i < names.len()
            invariant
                i <= names.len(),
                component_names(found@) == texts(names@).take(i as int),
                forall|k: int| 0 <= k < found.len() ==> (#[trigger] found[k]).root() == self.root(),
            decreases names.len() - i,
        {
            let ghost before = component_names(found@);
            found.push(Component { components: self.clone(), name: copy_of(names[i].as_str()) });
            assert(component_names(found@) == before.push(names[i as int]@));
            assert(texts(names@).take(i + 1) == texts(names@).take(i as int).push(
                names[i as int]@,
            ));
            i += 1;
        }
        assert(texts(names@).take(names.len() as int) == texts(names@));
        found
    }

    /// Starts the installation of the component `name` under `tx`.
    pub fn add(&self, name: &str, tx: Transaction) -> (builder: ComponentBuilder)
        ensures
            builder@ == (BuilderView {
                root: self.root(),
                name: name@,
                parts: Seq::<PartView>::empty(),
                tx: tx@,
            }),
    {
        let builder = ComponentBuilder {
            components: self.clone(),
            name: copy_of(name),
            parts: Vec::new(),
            tx,
        };
        assert(builder@.parts == Seq::<PartView>::empty());
        builder
    }

    /// The installed component `name`, if there is one. `content` is what
    /// the list of components holds, or `None` where there is no such file.
    pub fn find(&self, name: &str, content: Option<&str>) -> (found: Option<Component>)
        ensures
            match found {
                Some(c) => c.name_view() == name@ && c.root() == self.root(),
                None => true,
            },
            found is Some <==> match content {
                Some(text) => lines_of(text@).contains(name@),
                None => false,
            },
    {
        let text = match content {
            Some(text) => text,
            None => { return None; },
        };
        let names = read_lines(text);
        let wanted = copy_of(name);
        let mut i: usize = 0;
        while i < names.len()
            invariant
                i <= names.len(),
                wanted@ == name@,
                content == Some(text),
                texts(names@) == lines_of(text@),
                forall|k: int| 0 <= k < i ==> texts(names@)[k] != name@,
            decreases names.len() - i,
        {
            if names[i] == wanted {
                assert(texts(names@)[i as int] == name@);
                assert(lines_of(text@)[i as int] == name@);
                return Some(Component { components: self.clone(), name: wanted });
            }
            i += 1;
        }
        None
    }

    /// The prefix of this toolchain.
    pub fn prefix(&self) -> (prefix: InstallPrefix)
        ensures
            prefix.root() == self.root(),
    {
        self.prefix.clone()
    }
}

/// The steps that stamp the prefix with the supported version: the version
/// file is announced as modified, then written.
pub open spec fn version_steps() -> Seq<StepView> {
    seq![
        StepView::Verb {
            verb: Verb::ModifyFile,
            component: Seq::<char>::empty(),
            path: version_place(),
            src: Seq::<char>::empty(),
        },
        StepView::Write { lines: seq![installer_version()] },
    ]
}

/// The names of the components that a list holds.
pub open spec fn component_names(components: Seq<Component>) -> Seq<Seq<char>> {
    Seq::new(components.len(), |i: int| components[i].name_view())
}

/// One installed component.
#[derive(Debug)]
pub struct Component {
    pub(crate) components: Components,
    pub(crate) name: String,
}

impl Clone for Component {
    fn clone(&self) -> (copy: Self)
        ensures
            copy.root() == self.root(),
            copy.name_view() == self.name_view(),
    {
        Component { components: self.components.clone(), name: copy_of(self.name.as_str()) }
    }
}

/// The parts that the lines of a manifest record, if every line records
/// one.
pub open spec fn parts_of(lines: Seq<Seq<char>>) -> Option<Seq<PartView>> {
    if forall|i: int| 0 <= i < lines.len() ==> (#[trigger] decoded(lines[i])) is Some {
        Some(Seq::new(lines.len(), |i: int| decoded(lines[i])->0))
    } else {
        None
    }
}

/// The parts that a list holds, as the contracts see them.
pub open spec fn part_views(parts: Seq<ComponentPart>) -> Seq<PartView> {
    Seq::new(parts.len(), |i: int| parts[i]@)
}

impl Component {
    /// The root of the prefix that the component is installed in.
    pub closed spec fn root(&self) -> Seq<char> {
        self.components.root()
    }

    /// The name of the component.
    pub closed spec fn name_view(&self) -> Seq<char> {
        self.name@
    }

    /// The name of the component's manifest file.
    pub fn manifest_name(&self) -> (file_name: String)
        ensures
            file_name@ == manifest_name(self.name_view()),
    {
        let mut file_name = String::from_str("manifest-");
        push_text(&mut file_name, self.name.as_str());
        file_name
    }

    /// The absolute place of the component's manifest.
    pub fn manifest_file(&self) -> (file: crate::prefix::AbsPath)
        ensures
            file@ == (AbsView { root: self.root(), below: manifest_place(self.name_view()) }),
    {
        self.components.prefix.manifest_file(self.manifest_name().as_str())
    }

    /// The place of the component's manifest, relative to the prefix.
    pub fn rel_manifest_file(&self) -> (file: InstallPath)
        ensures
            file@ == manifest_place(self.name_view()),
            relative(file@),
    {
        self.components.prefix.rel_manifest_file(self.manifest_name().as_str())
    }

    /// The prefix that the component is installed in.
    pub fn prefix(&self) -> (prefix: InstallPrefix)
        ensures
            prefix.root() == self.root(),
    {
        self.components.prefix()
    }

    /// The name of the component.
    pub fn name(&self) -> (name: &str)
        ensures
            name@ == self.name_view(),
    {
        self.name.as_str()
    }

    /// The parts of the component, in the order of its manifest, where
    /// `manifest` is what the manifest holds. One line that records no part
    /// makes the component corrupt.
    pub fn parts(&self, manifest: &str) -> (read: Result<Vec<ComponentPart>, Error>)
        ensures
            match read {
                Ok(parts) => parts_of(lines_of(manifest@)) == Some(part_views(parts@)),
                Err(e) => parts_of(lines_of(manifest@)) is None && e@
                    == (ErrorView::CorruptComponent { name: self.name_view() }),
            },
    {
        let lines = read_lines(manifest);
        let mut parts: Vec<ComponentPart> = Vec::new();
        let mut i: usize = 0;
        while i < lines.len()
            invariant
                i <= lines.len(),
                texts(lines@) == lines_of(manifest@),
                parts.len() == i,
                forall|k: int|
                    0 <= k < i ==> (#[trigger] decoded(texts(lines@)[k])) == Some(parts[k]@),
            decreases lines.len() - i,
        {
            match ComponentPart::decode(lines[i].as_str()) {
                Some(part) => {
                    parts.push(part);
                },
                None => {
                    assert(decoded(texts(lines@)[i as int]) is None);
                    return Err(
                        Error::CorruptComponent { name: copy_of(self.name.as_str()) },
                    );
                },
            }
            i += 1;
        }
        assert(parts_of(lines_of(manifest@)) == Some(part_views(parts@))) by {
            let all = lines_of(manifest@);
            assert(forall|k: int| 0 <= k < all.len() ==> (#[trigger] decoded(all[k])) is Some);
            assert(part_views(parts@) =~= Seq::new(all.len(), |k: int| decoded(all[k])->0));
        }
        Ok(parts)
    }
}

/// A component being installed, as the contracts see it.
pub struct BuilderView {
    pub root: Seq<char>,
    pub name: Seq<char>,
    pub parts: Seq<PartView>,
    pub tx: TxView,
}

/// The steps that finish the installation of a component: its manifest is
/// created and written, one line per part; its name is added to the list of
/// components; and the prefix is stamped with the supported version.
pub open spec fn finish_steps(name: Seq<char>, parts: Seq<PartView>) -> Seq<StepView> {
    seq![
        StepView::Verb {
            verb: Verb::AddFile,
            component: name,
            path: manifest_place(name),
            src: Seq::<char>::empty(),
        },
        StepView::Write { lines: Seq::new(parts.len(), |i: int| encoded(parts[i])) },
        StepView::Verb {
            verb: Verb::ModifyFile,
            component: Seq::<char>::empty(),
            path: components_place(),
            src: Seq::<char>::empty(),
        },
        StepView::Append { line: name },
    ] + version_steps()
}

/// Collects the parts of one component while they are put in place.
pub struct ComponentBuilder {
    components: Components,
    name: String,
    parts: Vec<ComponentPart>,
    tx: Transaction,
}

impl View for ComponentBuilder {
    type V = BuilderView;

    closed spec fn view(&self) -> BuilderView {
        BuilderView {
            root: self.components.root(),
            name: self.name@,
            parts: part_views(self.parts@),
            tx: self.tx@,
        }
    }
}

/// What the contracts say of a part that a builder was just handed: the
/// part is recorded, and the verb is asked of the transaction under the
/// component's name.
pub open spec fn recorded(
    before: BuilderView,
    after: BuilderView,
    verb: Verb,
    kind: KindView,
    path: Seq<Seq<char>>,
    src: Seq<char>,
    answer: Result<RequestView, ErrorView>,
) -> bool {
    &&& after.root == before.root
    &&& after.name == before.name
    &&& after.parts == before.parts.push(PartView { kind, path })
    &&& planned(before.tx, after.tx, verb, before.name, path, src, answer)
}

impl ComponentBuilder {
    /// The builder is well formed: its transaction is, and is open.
    pub open spec fn wf(&self) -> bool {
        crate::transaction::sound(self@.tx) && self@.tx.state is Open
    }

    fn record(&mut self, kind: ComponentPartKind, verb: Verb, path: InstallPath, src: &str) -> (answer:
        Result<Request, Error>)
        requires
            old(self).wf(),
            old(self)@.tx.pending is None,
        ensures
            final(self).wf(),
            recorded(old(self)@, final(self)@, verb, kind@, path@, src@, answer_view(answer)),
    {
        let ghost before = part_views(self.parts@);
        self.parts.push(ComponentPart { kind, path: path.clone() });
        assert(part_views(self.parts@) == before.push(PartView { kind: kind@, path: path@ }));
        self.tx.plan(verb, self.name.as_str(), path, src)
    }

    /// Records the file `path` and asks to copy it from `src`.
    pub fn copy_file(&mut self, path: InstallPath, src: &str) -> (answer: Result<Request, Error>)
        requires
            old(self).wf(),
            old(self)@.tx.pending is None,
        ensures
            final(self).wf(),
            recorded(
                old(self)@,
                final(self)@,
                Verb::CopyFile,
                KindView::File,
                path@,
                src@,
                answer_view(answer),
            ),
    {
        self.record(ComponentPartKind::File, Verb::CopyFile, path, src)
    }

    /// Records the directory `path` and asks to copy it from `src`.
    pub fn copy_dir(&mut self, path: InstallPath, src: &str) -> (answer: Result<Request, Error>)
        requires
            old(self).wf(),
            old(self)@.tx.pending is None,
        ensures
            final(self).wf(),
            recorded(
                old(self)@,
                final(self)@,
                Verb::CopyDir,
                KindView::Dir,
                path@,
                src@,
                answer_view(answer),
            ),
    {
        self.record(ComponentPartKind::Dir, Verb::CopyDir, path, src)
    }

    /// Records the file `path` and asks to move it from `src`.
    pub fn move_file(&mut self, path: InstallPath, src: &str) -> (answer: Result<Request, Error>)
        requires
            old(self).wf(),
            old(self)@.tx.pending is None,
        ensures
            final(self).wf(),
            recorded(
                old(self)@,
                final(self)@,
                Verb::MoveFile,
                KindView::File,
                path@,
                src@,
                answer_view(answer),
            ),
    {
        self.record(ComponentPartKind::File, Verb::MoveFile, path, src)
    }

    /// Records the directory `path` and asks to move it from `src`.
    pub fn move_dir(&mut self, path: InstallPath, src: &str) -> (answer: Result<Request, Error>)
        requires
            old(self).wf(),
            old(self)@.tx.pending is None,
        ensures
            final(self).wf(),
            recorded(
                old(self)@,
                final(self)@,
                Verb::MoveDir,
                KindView::Dir,
                path@,
                src@,
                answer_view(answer),
            ),
    {
        self.record(ComponentPartKind::Dir, Verb::MoveDir, path, src)
    }

    /// Takes the outcome of the request that the last verb handed out.
    pub fn settle(&mut self, outcome: Outcome) -> (answer: Result<(), Error>)
        requires
            old(self).wf(),
            old(self)@.tx.pending is Some,
        ensures
            final(self).wf(),
            final(self)@.root == old(self)@.root,
            final(self)@.name == old(self)@.name,
            final(self)@.parts == old(self)@.parts,
            match change_for(old(self)@.tx.pending->0, outcome@) {
                Some(change) => answer is Ok && final(self)@.tx == (TxView {
                    pending: None,
                    changes: old(self)@.tx.changes.push(change),
                    ..old(self)@.tx
                }),
                None => answer is Err && answer->Err_0@ == refusal_for(
                    old(self)@.tx.pending->0,
                    outcome@,
                ) && final(self)@.tx == (TxView { pending: None, ..old(self)@.tx }),
            },
    {
        self.tx.settle(outcome)
    }

    /// Whether a verb waits to be settled.
    pub fn has_pending(&self) -> (b: bool)
        ensures
            b == (self@.tx.pending is Some),
    {
        self.tx.has_pending()
    }

    /// Gives up the installation and hands back the transaction, to be
    /// rolled back.
    pub fn abandon(self) -> (tx: Transaction)
        ensures
            tx@ == self@.tx,
    {
        self.tx
    }

    /// Finishes the installation: hands the transaction to a script that
    /// writes the manifest, adds the component to the list, and stamps the
    /// version.
    pub fn finish(self) -> (script: Script)
        requires
            self.wf(),
            self@.tx.pending is None,
        ensures
            script.wf(),
            begun(self@.tx, None, finish_steps(self@.name, self@.parts), script@),
    {
        let manifest = self.components.rel_component_manifest(self.name.as_str());
        let list = self.components.rel_components_file();
        let mut lines: Vec<String> = Vec::new();
        let mut i: usize = 0;
        while i < self.parts.len()
            invariant
                i <= self.parts.len(),
                lines.len() == i,
                forall|k: int| 0 <= k < i ==> (#[trigger] lines[k])@ == encoded(self.parts[k]@),
            decreases self.parts.len() - i,
        {
            lines.push(self.parts[i].encode());
            i += 1;
        }
        assert(texts(lines@) =~= Seq::new(
            self@.parts.len(),
            |k: int| encoded(self@.parts[k]),
        ));
        let mut steps: Vec<Step> = Vec::new();
        steps.push(
            Step::Verb {
                verb: Verb::AddFile,
                component: copy_of(self.name.as_str()),
                path: manifest,
                src: String::new(),
            },
        );
        steps.push(Step::Write { lines });
        steps.push(
            Step::Verb {
                verb: Verb::ModifyFile,
                component: String::new(),
                path: list,
                src: String::new(),
            },
        );
        steps.push(Step::Append { line: copy_of(self.name.as_str()) });
        self.components.write_version(&mut steps);
        assert(step_views(steps@) =~= finish_steps(self@.name, self@.parts));
        Script::start(self.tx, steps)
    }
}

} // verus!
