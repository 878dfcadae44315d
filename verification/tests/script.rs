use component_install::components::Components;
use component_install::effect::{Outcome, Request, ScratchId};
use component_install::error::{Error, Op};
use component_install::path::InstallPath;
use component_install::prefix::{AbsPath, InstallPrefix};
use component_install::script::{Script, Step};
use component_install::transaction::{Transaction, Verb};
use component_install::uninstall::Uninstall;

fn path(text: &str) -> InstallPath {
    InstallPath::parse(text)
}

fn place(text: &str) -> AbsPath {
    AbsPath { root: "/p".to_string(), below: path(text) }
}

fn lines(lines: &[&str]) -> Vec<String> {
    lines.iter().map(|s| s.to_string()).collect()
}

fn verb(verb: Verb, at: &str) -> Step {
    Step::Verb { verb, component: "c".to_string(), path: path(at), src: String::new() }
}

fn start(steps: Vec<Step>) -> Script {
    Script::start(Transaction::new(InstallPrefix::from("/p")), steps)
}

#[test]
fn script_without_steps_is_complete() {
    let script = start(Vec::new());
    assert!(script.is_complete());
    assert!(!script.has_failed());
    assert_eq!(script.request(), None);
    let (tx, failure) = script.close();
    assert_eq!(failure, None);
    assert_eq!(tx.len(), 0);
}

#[test]
fn script_takes_its_steps_in_order() {
    let mut script = start(vec![
        verb(Verb::AddFile, "a/file"),
        Step::Write { lines: lines(&["one", "two"]) },
        verb(Verb::ModifyFile, "a/list"),
        Step::Append { line: "three".to_string() },
    ]);
    assert_eq!(script.request(), Some(&Request::Create { path: place("a/file") }));
    script.resume(Outcome::Done);
    assert_eq!(
        script.request(),
        Some(&Request::Write { path: place("a/file"), lines: lines(&["one", "two"]) })
    );
    script.resume(Outcome::Done);
    assert_eq!(
        script.request(),
        Some(&Request::Backup { path: place("a/list"), backup: ScratchId { index: 0 } })
    );
    script.resume(Outcome::NotFound);
    assert_eq!(
        script.request(),
        Some(&Request::Append { path: place("a/list"), line: "three".to_string() })
    );
    assert!(!script.is_complete());
    script.resume(Outcome::Done);
    assert!(script.is_complete());
    assert_eq!(script.request(), None);
    // an outcome that nobody waits for changes nothing
    script.resume(Outcome::Failed("late".to_string()));
    assert!(script.is_complete());
    let (tx, failure) = script.close();
    assert_eq!(failure, None);
    assert_eq!(tx.len(), 2);
}

#[test]
fn script_stops_at_the_first_failure() {
    let mut script = start(vec![verb(Verb::AddFile, "a"), verb(Verb::AddFile, "b")]);
    script.resume(Outcome::AlreadyExists);
    assert!(script.has_failed());
    assert_eq!(script.request(), None);
    let (tx, failure) = script.close();
    assert_eq!(failure, Some(Error::PreconditionViolated { op: Op::AddFile, path: path("a") }));
    assert_eq!(tx.len(), 0);
    assert!(!tx.has_pending());
}

#[test]
fn a_failed_write_names_the_file() {
    let mut script =
        start(vec![verb(Verb::AddFile, "a"), Step::Write { lines: Vec::new() }, verb(Verb::AddFile, "b")]);
    script.resume(Outcome::Done);
    script.resume(Outcome::Failed("disk full".to_string()));
    let (tx, failure) = script.close();
    assert_eq!(
        failure,
        Some(Error::FilesystemError {
            op: Op::WriteFile,
            path: path("a"),
            cause: "disk full".to_string()
        })
    );
    assert_eq!(tx.len(), 1);
}

#[test]
fn a_write_needs_a_file_from_the_verb_before() {
    let no_file = || Error::PreconditionViolated { op: Op::WriteFile, path: path("") };
    let script = start(vec![Step::Write { lines: lines(&["x"]) }]);
    assert!(script.has_failed());
    assert_eq!(script.close().1, Some(no_file()));

    let mut script = start(vec![verb(Verb::RemoveFile, "a"), Step::Append { line: "x".into() }]);
    script.resume(Outcome::Done);
    assert_eq!(script.close().1, Some(no_file()));

    let mut script = start(vec![verb(Verb::CopyDir, "a"), Step::Write { lines: Vec::new() }]);
    script.resume(Outcome::Done);
    assert_eq!(script.close().1, Some(no_file()));

    // nothing was staged
    let mut script = start(vec![verb(Verb::ModifyFile, "a"), Step::Promote]);
    script.resume(Outcome::Done);
    assert_eq!(script.close().1, Some(no_file()));
}

#[test]
fn staging_takes_a_scratch_place_of_its_own() {
    let mut script = start(vec![
        verb(Verb::RemoveFile, "old"),
        Step::Stage { lines: lines(&["new"]) },
        verb(Verb::ModifyFile, "list"),
        Step::Promote,
    ]);
    assert!(matches!(script.request(), Some(Request::Stash { backup: ScratchId { index: 0 }, .. })));
    script.resume(Outcome::Done);
    assert_eq!(
        script.request(),
        Some(&Request::WriteScratch { scratch: ScratchId { index: 1 }, lines: lines(&["new"]) })
    );
    script.resume(Outcome::Done);
    assert_eq!(
        script.request(),
        Some(&Request::Backup { path: place("list"), backup: ScratchId { index: 2 } })
    );
    script.resume(Outcome::Done);
    assert_eq!(
        script.request(),
        Some(&Request::Promote { scratch: ScratchId { index: 1 }, path: place("list") })
    );
    script.resume(Outcome::Done);
    assert!(script.is_complete());
}

#[test]
fn a_due_failure_ends_the_script() {
    let mut script = start(vec![
        verb(Verb::AddFile, "a"),
        Step::Fail { error: Error::CorruptComponent { name: "c".to_string() } },
        verb(Verb::AddFile, "b"),
    ]);
    script.resume(Outcome::Done);
    assert!(script.has_failed());
    assert_eq!(script.request(), None);
    let (tx, failure) = script.close();
    assert_eq!(failure, Some(Error::CorruptComponent { name: "c".to_string() }));
    assert_eq!(tx.len(), 1);
}

#[test]
fn steps_can_be_added_to_a_script_that_has_run_through() {
    let mut script = start(vec![verb(Verb::AddFile, "a")]);
    script.resume(Outcome::Done);
    assert!(script.is_complete());
    script.append(verb(Verb::RemoveDir, "b"));
    assert!(!script.is_complete());
    assert!(matches!(script.request(), Some(Request::Stash { .. })));
    script.resume(Outcome::Done);
    assert!(script.is_complete());
    assert_eq!(script.close().0.len(), 2);
}

#[test]
fn a_verb_with_an_absolute_path_fails_the_script() {
    let script = start(vec![verb(Verb::RemoveFile, "/etc/passwd")]);
    assert!(script.has_failed());
    assert_eq!(
        script.close().1,
        Some(Error::PreconditionViolated { op: Op::RemoveFile, path: path("/etc/passwd") })
    );
}

fn removal(components: &str, manifest: &str) -> Uninstall {
    let prefix = InstallPrefix::from("/p");
    let registry = Components::open(prefix.clone(), None).unwrap();
    let component = registry.find("c", Some("a\nc\n")).unwrap();
    assert_eq!(component.name(), "c");
    assert_eq!(component.manifest_name(), "manifest-c");
    assert_eq!(component.rel_manifest_file(), path("lib/rustlib/manifest-c"));
    assert_eq!(component.manifest_file(), place("lib/rustlib/manifest-c"));
    assert_eq!(component.prefix(), prefix);
    assert_eq!(component.clone().name(), "c");
    component.uninstall(Transaction::new(prefix), components, manifest)
}

#[test]
fn uninstall_asks_in_the_order_of_its_steps() {
    let mut run = removal("a\nc\nb\n", "file:bin/x\ndir:share/doc/c\nfile:share/doc/c.txt\n");
    let mut asked = Vec::new();
    while let Some(request) = run.request() {
        let outcome = match request {
            // every directory but `share` is found empty
            Request::Probe { path } if path.below == InstallPath::parse("share") => {
                Outcome::NotEmpty
            }
            _ => Outcome::Done,
        };
        asked.push(format!("{request:?}"));
        run.resume(outcome);
    }
    assert!(run.is_done());
    let kinds: Vec<&str> = asked.iter().map(|a| a.split(' ').next().unwrap()).collect();
    assert_eq!(
        kinds,
        vec![
            "WriteScratch", "Backup", "Promote", // the list
            "Stash", "Stash", "Stash", // the parts, last first
            "Probe", "Stash", // bin
            "Probe", "Stash", // share/doc
            "Probe", // share
            "Stash", // the manifest
        ]
    );
    assert!(asked[0].contains("lines: [\"a\", \"b\"]"));
    assert!(asked[3].contains("what: File") && asked[3].contains("[\"share\", \"doc\", \"c.txt\"]"));
    assert!(asked[4].contains("what: Dir") && asked[4].contains("[\"share\", \"doc\", \"c\"]"));
    assert!(asked[5].contains("what: File") && asked[5].contains("[\"bin\", \"x\"]"));
    assert!(asked[7].contains("what: Dir") && asked[7].contains("[\"bin\"]"));
    assert!(asked[9].contains("what: Dir") && asked[9].contains("[\"share\", \"doc\"]"));
    assert!(asked[11].contains("what: File") && asked[11].contains("manifest-c"));
    let (tx, failure) = run.close();
    assert_eq!(failure, None);
    assert_eq!(tx.len(), 7);
}

#[test]
fn uninstall_fails_when_a_part_is_missing() {
    let mut run = removal("c\n", "file:bin/x\nfile:bin/y\n");
    for outcome in [Outcome::Done, Outcome::Done, Outcome::Done, Outcome::Done, Outcome::NotFound] {
        assert!(run.request().is_some());
        run.resume(outcome);
    }
    assert_eq!(run.request(), None);
    assert!(!run.is_done());
    let (tx, failure) = run.close();
    assert_eq!(
        failure,
        Some(Error::PreconditionViolated { op: Op::RemoveFile, path: path("bin/x") })
    );
    // the list and the first part are in the log, to be undone
    assert_eq!(tx.len(), 2);
}

#[test]
fn registry_places() {
    let registry = Components::open(InstallPrefix::from("/p"), Some("3\n")).unwrap();
    assert_eq!(registry.rel_components_file(), path("lib/rustlib/components"));
    assert_eq!(registry.rel_component_manifest("rustc"), path("lib/rustlib/manifest-rustc"));
    assert_eq!(registry.read_version(Some("3 \n")), Some("3".to_string()));
    assert_eq!(registry.read_version(None), None);
    assert_eq!(registry.prefix(), InstallPrefix::from("/p"));
    let mut steps = Vec::new();
    registry.write_version(&mut steps);
    assert_eq!(
        steps,
        vec![
            Step::Verb {
                verb: Verb::ModifyFile,
                component: String::new(),
                path: path("lib/rustlib/version"),
                src: String::new(),
            },
            Step::Write { lines: lines(&["3"]) },
        ]
    );
    let names: Vec<String> =
        registry.list(Some("a\r\nb\n\nc")).iter().map(|c| c.name().to_string()).collect();
    assert_eq!(names, vec!["a", "b", "", "c"]);
    assert!(registry.find("b", Some("a\nb\n")).is_some());
    assert!(registry.find("z", Some("a\nb\n")).is_none());
}
