use std::collections::BTreeMap;

use component_install::components::{Component, ComponentBuilder, Components};
use component_install::effect::{Entry, Outcome, Request, Transfer};
use component_install::error::{Error, Op};
use component_install::part::{ComponentPart, ComponentPartKind};
use component_install::path::InstallPath;
use component_install::prefix::{AbsPath, InstallPrefix};
use component_install::script::Script;
use component_install::transaction::{ChangedItem, Rollback, Transaction};
use component_install::uninstall::Uninstall;

type Key = Vec<String>;

#[derive(Clone, Debug, PartialEq)]
enum Node {
    File(Vec<String>),
    Dir,
}

/// A directory tree held in memory, with a scratch area and a world outside.
#[derive(Clone, Debug, PartialEq)]
struct Disk {
    root: String,
    tree: BTreeMap<Key, Node>,
    scratch: BTreeMap<u64, BTreeMap<Key, Node>>,
    outside: BTreeMap<String, BTreeMap<Key, Node>>,
    log: Vec<String>,
    refuse: Option<usize>,
}

fn key(text: &str) -> Key {
    if text.is_empty() {
        Vec::new()
    } else {
        text.split('/').map(|s| s.to_string()).collect()
    }
}

fn path(text: &str) -> InstallPath {
    InstallPath::from_segments(key(text))
}

fn lines(lines: &[&str]) -> Vec<String> {
    lines.iter().map(|s| s.to_string()).collect()
}

impl Disk {
    fn new(root: &str) -> Disk {
        Disk {
            root: root.to_string(),
            tree: BTreeMap::new(),
            scratch: BTreeMap::new(),
            outside: BTreeMap::new(),
            log: Vec::new(),
            refuse: None,
        }
    }

    fn outside_file(&mut self, at: &str, content: &[&str]) {
        let mut held = BTreeMap::new();
        held.insert(Vec::new(), Node::File(lines(content)));
        self.outside.insert(at.to_string(), held);
    }

    fn outside_dir(&mut self, at: &str, files: &[(&str, &[&str])]) {
        let mut held = BTreeMap::new();
        held.insert(Vec::new(), Node::Dir);
        for (name, content) in files {
            held.insert(key(name), Node::File(lines(content)));
        }
        self.outside.insert(at.to_string(), held);
    }

    fn below(&self, place: &AbsPath) -> Key {
        assert_eq!(place.root, self.root);
        place.below.segments.clone()
    }

    fn parents(&mut self, at: &Key) -> bool {
        for n in 1..at.len() {
            let up: Key = at[..n].to_vec();
            match self.tree.get(&up) {
                None => {
                    self.tree.insert(up, Node::Dir);
                }
                Some(Node::Dir) => {}
                Some(Node::File(_)) => return false,
            }
        }
        true
    }

    fn subtree(&self, at: &Key) -> BTreeMap<Key, Node> {
        let mut held = BTreeMap::new();
        for (k, v) in &self.tree {
            if k.len() >= at.len() && k[..at.len()] == at[..] {
                held.insert(k[at.len()..].to_vec(), v.clone());
            }
        }
        held
    }

    fn cut(&mut self, at: &Key) {
        self.tree.retain(|k, _| !(k.len() >= at.len() && k[..at.len()] == at[..]));
    }

    fn graft(&mut self, at: &Key, held: &BTreeMap<Key, Node>) {
        for (k, v) in held {
            let mut whole = at.clone();
            whole.extend(k.iter().cloned());
            self.tree.insert(whole, v.clone());
        }
    }

    fn file(&self, at: &str) -> Option<Vec<String>> {
        match self.tree.get(&key(at)) {
            Some(Node::File(content)) => Some(content.clone()),
            _ => None,
        }
    }

    fn text(&self, at: &str) -> Option<String> {
        self.file(at).map(|content| content.iter().map(|l| format!("{l}\n")).collect())
    }

    fn has(&self, at: &str) -> bool {
        self.tree.contains_key(&key(at))
    }

    fn files(&self) -> Vec<String> {
        self.tree
            .iter()
            .filter(|(_, v)| matches!(v, Node::File(_)))
            .map(|(k, _)| k.join("/"))
            .collect()
    }

    fn perform(&mut self, request: &Request) -> Outcome {
        self.log.push(format!("{request:?}"));
        if self.refuse == Some(self.log.len()) {
            return Outcome::Failed("disk full".to_string());
        }
        match request {
            Request::Create { path } => {
                let at = self.below(path);
                if self.tree.contains_key(&at) {
                    return Outcome::AlreadyExists;
                }
                if !self.parents(&at) {
                    return Outcome::Failed("not a directory".to_string());
                }
                self.tree.insert(at, Node::File(Vec::new()));
                Outcome::Done
            }
            Request::Write { path, lines } => {
                let at = self.below(path);
                if !self.parents(&at) {
                    return Outcome::Failed("not a directory".to_string());
                }
                self.tree.insert(at, Node::File(lines.clone()));
                Outcome::Done
            }
            Request::Append { path, line } => {
                let at = self.below(path);
                if !self.parents(&at) {
                    return Outcome::Failed("not a directory".to_string());
                }
                match self.tree.get_mut(&at) {
                    Some(Node::File(content)) => content.push(line.clone()),
                    Some(Node::Dir) => return Outcome::Failed("is a directory".to_string()),
                    None => {
                        self.tree.insert(at, Node::File(vec![line.clone()]));
                    }
                }
                Outcome::Done
            }
            Request::Transfer { how, what, src, dest } => {
                let at = self.below(dest);
                let held = match self.outside.get(src) {
                    Some(held) => held.clone(),
                    None => return Outcome::NotFound,
                };
                let is_dir = held.get(&Vec::new()) == Some(&Node::Dir);
                if is_dir != (*what == Entry::Dir) {
                    return Outcome::Failed("wrong kind".to_string());
                }
                if self.tree.contains_key(&at) {
                    return Outcome::AlreadyExists;
                }
                if !self.parents(&at) {
                    return Outcome::Failed("not a directory".to_string());
                }
                self.graft(&at, &held);
                if *how == Transfer::Move {
                    self.outside.remove(src);
                }
                Outcome::Done
            }
            Request::Backup { path, backup } => {
                let at = self.below(path);
                match self.tree.get(&at) {
                    Some(Node::File(content)) => {
                        let mut held = BTreeMap::new();
                        held.insert(Vec::new(), Node::File(content.clone()));
                        self.scratch.insert(backup.index, held);
                        Outcome::Done
                    }
                    _ => Outcome::NotFound,
                }
            }
            Request::Stash { what, path, backup } => {
                let at = self.below(path);
                match self.tree.get(&at) {
                    None => return Outcome::NotFound,
                    Some(node) => {
                        if (*node == Node::Dir) != (*what == Entry::Dir) {
                            return Outcome::Failed("wrong kind".to_string());
                        }
                    }
                }
                let held = self.subtree(&at);
                self.cut(&at);
                self.scratch.insert(backup.index, held);
                Outcome::Done
            }
            Request::Restore { what: _, backup, path } => {
                let at = self.below(path);
                let held = match self.scratch.remove(&backup.index) {
                    Some(held) => held,
                    None => return Outcome::NotFound,
                };
                self.cut(&at);
                if !self.parents(&at) {
                    return Outcome::Failed("not a directory".to_string());
                }
                self.graft(&at, &held);
                Outcome::Done
            }
            Request::Delete { what: _, path } => {
                let at = self.below(path);
                if !self.tree.contains_key(&at) {
                    return Outcome::NotFound;
                }
                self.cut(&at);
                Outcome::Done
            }
            Request::WriteScratch { scratch, lines } => {
                let mut held = BTreeMap::new();
                held.insert(Vec::new(), Node::File(lines.clone()));
                self.scratch.insert(scratch.index, held);
                Outcome::Done
            }
            Request::Promote { scratch, path } => {
                let at = self.below(path);
                let held = match self.scratch.remove(&scratch.index) {
                    Some(held) => held,
                    None => return Outcome::NotFound,
                };
                self.cut(&at);
                self.graft(&at, &held);
                Outcome::Done
            }
            Request::Probe { path } => {
                let at = self.below(path);
                match self.tree.get(&at) {
                    None => Outcome::NotFound,
                    Some(Node::File(_)) => Outcome::Failed("not a directory".to_string()),
                    Some(Node::Dir) => {
                        if self.subtree(&at).len() == 1 {
                            Outcome::Done
                        } else {
                            Outcome::NotEmpty
                        }
                    }
                }
            }
            Request::DiscardScratch => {
                self.scratch.clear();
                Outcome::Done
            }
        }
    }
}

fn run_script(disk: &mut Disk, mut script: Script) -> (Transaction, Option<Error>) {
    loop {
        let outcome = match script.request() {
            Some(request) => disk.perform(request),
            None => break,
        };
        script.resume(outcome);
    }
    script.close()
}

fn run_uninstall(disk: &mut Disk, mut removal: Uninstall) -> (Transaction, Option<Error>) {
    loop {
        let outcome = match removal.request() {
            Some(request) => disk.perform(request),
            None => break,
        };
        removal.resume(outcome);
    }
    removal.close()
}

fn run_rollback(disk: &mut Disk, mut undo: Rollback) -> Result<(), Error> {
    while let Some(request) = undo.request() {
        let outcome = disk.perform(&request);
        let failed = !matches!(outcome, Outcome::Done | Outcome::NotFound);
        let warning = undo.settle(outcome);
        if failed {
            assert!(warning.is_some());
        }
    }
    assert!(undo.is_done());
    undo.finish()
}

fn roll_back(disk: &mut Disk, mut tx: Transaction, cause: Option<Error>) -> Result<(), Error> {
    assert!(tx.is_open());
    let undo = tx.rollback(cause);
    assert!(!tx.is_open());
    assert_eq!(tx.len(), 0);
    run_rollback(disk, undo)
}

fn commit(disk: &mut Disk, mut tx: Transaction) {
    let cleanup = tx.commit();
    assert_eq!(cleanup, Request::DiscardScratch);
    assert_eq!(disk.perform(&cleanup), Outcome::Done);
    assert!(!tx.is_open());
    assert_eq!(tx.len(), 0);
}

fn put(disk: &mut Disk, builder: &mut ComponentBuilder, answer: Result<Request, Error>) -> Result<(), Error> {
    let request = answer?;
    let outcome = disk.perform(&request);
    builder.settle(outcome)
}

fn open(disk: &Disk) -> Components {
    let prefix = InstallPrefix::from(&disk.root);
    let version = disk.text("lib/rustlib/version");
    Components::open(prefix, version.as_deref()).unwrap()
}

/// Installs a component whose parts are given as (is a directory, path, source).
fn install(disk: &mut Disk, name: &str, parts: &[(bool, &str, &str)]) -> Result<(), Error> {
    let components = open(disk);
    let tx = Transaction::new(components.prefix());
    let mut builder = components.add(name, tx);
    for (is_dir, at, src) in parts {
        let answer = if *is_dir {
            builder.copy_dir(path(at), src)
        } else {
            builder.copy_file(path(at), src)
        };
        if let Err(error) = put(disk, &mut builder, answer) {
            let tx = builder.abandon();
            return roll_back(disk, tx, Some(error));
        }
    }
    let (tx, failure) = run_script(disk, builder.finish());
    match failure {
        Some(error) => roll_back(disk, tx, Some(error)),
        None => {
            commit(disk, tx);
            Ok(())
        }
    }
}

fn find(disk: &Disk, name: &str) -> Component {
    let components = open(disk);
    let listed = disk.text("lib/rustlib/components");
    components.find(name, listed.as_deref()).unwrap()
}

fn uninstall(disk: &mut Disk, name: &str) -> Result<(), Error> {
    let component = find(disk, name);
    let listed = disk.text("lib/rustlib/components").unwrap();
    let manifest = disk.text(&format!("lib/rustlib/manifest-{name}")).unwrap();
    let tx = Transaction::new(component.prefix());
    let removal = component.uninstall(tx, &listed, &manifest);
    let (tx, failure) = run_uninstall(disk, removal);
    match failure {
        Some(error) => roll_back(disk, tx, Some(error)),
        None => {
            commit(disk, tx);
            Ok(())
        }
    }
}

fn world() -> Disk {
    let mut disk = Disk::new("/opt/toolchain");
    disk.outside_file("/tmp/r", &["#!rustc"]);
    disk.outside_dir("/tmp/d", &[("index.html", &["<html>"]), ("css/main.css", &["body {}"])]);
    disk
}

#[test]
fn install_then_rollback() {
    let mut disk = world();
    let before = disk.clone();
    let components = open(&disk);
    let tx = Transaction::new(components.prefix());
    let mut builder = components.add("rustc", tx);
    let answer = builder.copy_file(path("bin/rustc"), "/tmp/r");
    put(&mut disk, &mut builder, answer).unwrap();
    let answer = builder.copy_dir(path("share/doc"), "/tmp/d");
    put(&mut disk, &mut builder, answer).unwrap();
    assert_eq!(disk.files(), vec!["bin/rustc", "share/doc/css/main.css", "share/doc/index.html"]);

    let tx = builder.abandon();
    assert_eq!(tx.len(), 2);
    assert_eq!(roll_back(&mut disk, tx, None), Ok(()));

    assert_eq!(disk.files(), Vec::<String>::new());
    assert!(!disk.has("bin/rustc"));
    assert!(!disk.has("share/doc"));
    assert!(disk.scratch.is_empty());
    assert_eq!(disk.outside, before.outside);
}

#[test]
fn install_then_commit() {
    let mut disk = world();
    install(&mut disk, "rustc", &[(false, "bin/rustc", "/tmp/r"), (true, "share/doc", "/tmp/d")])
        .unwrap();
    assert_eq!(disk.file("bin/rustc"), Some(lines(&["#!rustc"])));
    assert_eq!(disk.file("share/doc/index.html"), Some(lines(&["<html>"])));
    assert_eq!(disk.file("share/doc/css/main.css"), Some(lines(&["body {}"])));
    assert_eq!(disk.file("lib/rustlib/components"), Some(lines(&["rustc"])));
    assert_eq!(
        disk.file("lib/rustlib/manifest-rustc"),
        Some(lines(&["file:bin/rustc", "dir:share/doc"]))
    );
    assert_eq!(disk.file("lib/rustlib/version"), Some(lines(&["3"])));
    assert!(disk.scratch.is_empty());
    let names: Vec<String> = open(&disk)
        .list(disk.text("lib/rustlib/components").as_deref())
        .iter()
        .map(|c| c.name().to_string())
        .collect();
    assert_eq!(names, vec!["rustc"]);
}

#[test]
fn uninstall_shared_directory_preserved() {
    let mut disk = Disk::new("/opt/toolchain");
    disk.outside_dir("/tmp/a", &[("a.html", &["a"])]);
    disk.outside_dir("/tmp/b", &[("b.html", &["b"])]);
    install(&mut disk, "a", &[(true, "share/doc/a", "/tmp/a")]).unwrap();
    install(&mut disk, "b", &[(true, "share/doc/b", "/tmp/b")]).unwrap();
    assert_eq!(disk.file("lib/rustlib/components"), Some(lines(&["a", "b"])));
    assert!(disk.has("share/doc"));

    uninstall(&mut disk, "a").unwrap();

    assert!(!disk.has("share/doc/a"));
    assert!(!disk.has("share/doc/a/a.html"));
    assert!(disk.has("share/doc"));
    assert!(disk.has("share/doc/b"));
    assert_eq!(disk.file("share/doc/b/b.html"), Some(lines(&["b"])));
    assert_eq!(disk.file("lib/rustlib/components"), Some(lines(&["b"])));
    assert!(!disk.has("lib/rustlib/manifest-a"));
    assert!(disk.has("lib/rustlib/manifest-b"));
    assert!(disk.scratch.is_empty());
}

#[test]
fn corrupt_manifest_on_uninstall() {
    let mut disk = Disk::new("/opt/toolchain");
    disk.outside_file("/tmp/x", &["x"]);
    install(&mut disk, "c", &[(false, "bin/y", "/tmp/x")]).unwrap();
    disk.tree.insert(
        key("lib/rustlib/manifest-c"),
        Node::File(lines(&["file:bin/y", "link:bin/x"])),
    );
    let before = disk.tree.clone();

    let result = uninstall(&mut disk, "c");

    assert_eq!(result, Err(Error::CorruptComponent { name: "c".to_string() }));
    assert_eq!(disk.tree, before);
    assert_eq!(disk.file("lib/rustlib/components"), Some(lines(&["c"])));
    assert!(disk.has("bin/y"));
    assert!(disk.scratch.is_empty());
}

#[test]
fn corrupt_manifest_touches_no_part() {
    let mut disk = Disk::new("/opt/toolchain");
    disk.outside_file("/tmp/x", &["x"]);
    install(&mut disk, "c", &[(false, "bin/y", "/tmp/x")]).unwrap();
    disk.tree.insert(
        key("lib/rustlib/manifest-c"),
        Node::File(lines(&["link:bin/x", "file:bin/y"])),
    );
    disk.log.clear();
    let _ = uninstall(&mut disk, "c");
    assert!(disk.log.iter().all(|line| !line.contains("Stash")));
}

#[test]
fn manifest_line_without_kind_is_corrupt() {
    let mut disk = Disk::new("/opt/toolchain");
    disk.outside_file("/tmp/x", &["x"]);
    install(&mut disk, "c", &[(false, "bin/y", "/tmp/x")]).unwrap();
    let component = find(&disk, "c");
    assert_eq!(
        component.parts("file:bin/y\nno kind here\n"),
        Err(Error::CorruptComponent { name: "c".to_string() })
    );
    let parts = component.parts("file:bin/y\r\ndir:share/doc\r\n").unwrap();
    assert_eq!(parts.len(), 2);
    assert_eq!(parts[1].path, path("share/doc"));
}

#[test]
fn version_mismatch_on_open() {
    let prefix = InstallPrefix::from("/opt/toolchain");
    let result = Components::open(prefix, Some("99"));
    match result {
        Err(error) => assert_eq!(
            error,
            Error::UnsupportedInstallerVersion { found: "99".to_string(), expected: "3".to_string() }
        ),
        Ok(_) => panic!("a version that is not supported was accepted"),
    }
}

#[test]
fn open_accepts_supported_version_and_absent_file() {
    assert!(Components::open(InstallPrefix::from("/p"), None).is_ok());
    assert!(Components::open(InstallPrefix::from("/p"), Some("3")).is_ok());
    assert!(Components::open(InstallPrefix::from("/p"), Some("3\n")).is_ok());
    assert!(Components::open(InstallPrefix::from("/p"), Some("3 \t\r\n")).is_ok());
    assert!(Components::open(InstallPrefix::from("/p"), Some(" 3")).is_err());
    assert!(Components::open(InstallPrefix::from("/p"), Some("")).is_err());
    assert!(Components::check_version(InstallPrefix::from("/p"), Some("3\n")).is_err());
}

#[test]
fn prune_yields_only_empty_directories() {
    let mut disk = Disk::new("/opt/toolchain");
    disk.outside_file("/tmp/i", &["index"]);
    disk.outside_file("/tmp/a", &["a"]);
    install(
        &mut disk,
        "docs",
        &[
            (false, "share/doc/rust/html/index.html", "/tmp/i"),
            (false, "share/doc/rust/html/a.html", "/tmp/a"),
        ],
    )
    .unwrap();
    assert!(disk.has("share/doc/rust/html"));

    uninstall(&mut disk, "docs").unwrap();

    assert!(!disk.has("share/doc/rust/html"));
    assert!(!disk.has("share/doc/rust"));
    assert!(!disk.has("share/doc"));
    assert!(!disk.has("share"));
    assert!(!disk.has("lib/rustlib/manifest-docs"));
    assert!(disk.has("lib/rustlib"));
    assert_eq!(disk.file("lib/rustlib/components"), Some(Vec::new()));
}

#[test]
fn prune_keeps_directory_with_foreign_file() {
    let mut disk = Disk::new("/opt/toolchain");
    disk.outside_file("/tmp/i", &["index"]);
    install(&mut disk, "docs", &[(false, "share/doc/rust/index.html", "/tmp/i")]).unwrap();
    disk.tree.insert(key("share/doc/notes.txt"), Node::File(lines(&["mine"])));

    uninstall(&mut disk, "docs").unwrap();

    assert!(!disk.has("share/doc/rust"));
    assert!(disk.has("share/doc"));
    assert!(disk.has("share"));
    assert_eq!(disk.file("share/doc/notes.txt"), Some(lines(&["mine"])));
}

#[test]
fn uninstalling_last_component_leaves_empty_list() {
    let mut disk = Disk::new("/opt/toolchain");
    disk.outside_file("/tmp/x", &["x"]);
    install(&mut disk, "only", &[(false, "bin/x", "/tmp/x")]).unwrap();
    uninstall(&mut disk, "only").unwrap();
    let components = open(&disk);
    assert_eq!(disk.text("lib/rustlib/components"), Some(String::new()));
    assert_eq!(components.list(Some("")).len(), 0);
    assert_eq!(components.list(None).len(), 0);
    assert_eq!(components.list(Some("\n\n")).len(), 0);
    assert!(components.find("only", Some("")).is_none());
    assert!(components.find("only", None).is_none());
}

#[test]
fn unknown_kind_decodes_but_cannot_be_uninstalled() {
    let part = ComponentPart::decode("foo:bar/baz").unwrap();
    assert_eq!(part.kind, ComponentPartKind::Unknown("foo".to_string()));
    assert_eq!(part.path, path("bar/baz"));

    let mut disk = Disk::new("/opt/toolchain");
    disk.outside_file("/tmp/x", &["x"]);
    install(&mut disk, "odd", &[(false, "bin/x", "/tmp/x")]).unwrap();
    disk.tree.insert(key("lib/rustlib/manifest-odd"), Node::File(lines(&["foo:bar/baz"])));
    assert_eq!(
        uninstall(&mut disk, "odd"),
        Err(Error::CorruptComponent { name: "odd".to_string() })
    );
    assert_eq!(disk.file("lib/rustlib/components"), Some(lines(&["odd"])));
}

#[test]
fn modify_file_on_missing_path_then_rollback_deletes_it() {
    let mut disk = Disk::new("/opt/toolchain");
    let prefix = InstallPrefix::from("/opt/toolchain");
    let mut tx = Transaction::new(prefix.clone());
    let request = tx.modify_file(path("etc/config")).unwrap();
    let outcome = disk.perform(&request);
    assert_eq!(outcome, Outcome::NotFound);
    assert_eq!(tx.settle(outcome), Ok(()));
    assert_eq!(tx.len(), 1);
    let write = Request::Write { path: prefix.abs_path(path("etc/config")), lines: lines(&["new"]) };
    assert_eq!(disk.perform(&write), Outcome::Done);
    assert_eq!(disk.file("etc/config"), Some(lines(&["new"])));

    assert_eq!(roll_back(&mut disk, tx, None), Ok(()));
    assert!(!disk.has("etc/config"));
}

#[test]
fn modify_file_on_existing_path_then_rollback_restores_it() {
    let mut disk = Disk::new("/opt/toolchain");
    disk.tree.insert(key("etc"), Node::Dir);
    disk.tree.insert(key("etc/config"), Node::File(lines(&["old"])));
    let before = disk.tree.clone();
    let prefix = InstallPrefix::from("/opt/toolchain");
    let mut tx = Transaction::new(prefix.clone());
    let request = tx.modify_file(path("etc/config")).unwrap();
    let outcome = disk.perform(&request);
    assert_eq!(outcome, Outcome::Done);
    tx.settle(outcome).unwrap();
    let write = Request::Write { path: prefix.abs_path(path("etc/config")), lines: lines(&["new"]) };
    disk.perform(&write);
    assert_eq!(disk.file("etc/config"), Some(lines(&["new"])));

    roll_back(&mut disk, tx, None).unwrap();
    assert_eq!(disk.tree, before);
    assert!(disk.scratch.is_empty());
}

#[test]
fn verbs_log_one_entry_each_and_rollback_runs_in_reverse() {
    let mut disk = world();
    disk.tree.insert(key("old"), Node::Dir);
    disk.tree.insert(key("old/file"), Node::File(lines(&["keep"])));
    disk.tree.insert(key("gone.txt"), Node::File(lines(&["bye"])));
    let before = disk.tree.clone();
    let prefix = InstallPrefix::from("/opt/toolchain");
    let mut tx = Transaction::new(prefix);

    let request = tx.add_file("c", path("new.txt")).unwrap();
    tx.settle(disk.perform(&request)).unwrap();
    let request = tx.copy_file("c", path("bin/rustc"), "/tmp/r").unwrap();
    tx.settle(disk.perform(&request)).unwrap();
    let request = tx.move_dir("c", path("share/doc"), "/tmp/d").unwrap();
    tx.settle(disk.perform(&request)).unwrap();
    let request = tx.remove_file("c", path("gone.txt")).unwrap();
    tx.settle(disk.perform(&request)).unwrap();
    let request = tx.remove_dir("c", path("old")).unwrap();
    tx.settle(disk.perform(&request)).unwrap();
    assert_eq!(tx.len(), 5);
    assert!(!disk.has("old/file"));
    assert!(!disk.has("gone.txt"));
    assert!(!disk.outside.contains_key("/tmp/d"));

    disk.log.clear();
    roll_back(&mut disk, tx, None).unwrap();
    assert_eq!(disk.log.len(), 6);
    assert!(disk.log[0].starts_with("Restore { what: Dir"));
    assert!(disk.log[1].starts_with("Restore { what: File"));
    assert!(disk.log[2].starts_with("Delete { what: Dir"));
    assert!(disk.log[3].starts_with("Delete { what: File"));
    assert!(disk.log[4].starts_with("Delete { what: File"));
    assert_eq!(disk.log[5], "DiscardScratch");
    let files_before: Vec<_> =
        before.iter().filter(|(_, v)| matches!(v, Node::File(_))).collect();
    let files_after: Vec<_> =
        disk.tree.iter().filter(|(_, v)| matches!(v, Node::File(_))).collect();
    assert_eq!(files_before, files_after);
    assert!(disk.has("old"));
}

#[test]
fn refused_verbs_log_nothing() {
    let mut disk = world();
    disk.tree.insert(key("taken"), Node::File(Vec::new()));
    let prefix = InstallPrefix::from("/opt/toolchain");
    let mut tx = Transaction::new(prefix);

    let request = tx.copy_file("c", path("taken"), "/tmp/r").unwrap();
    let outcome = disk.perform(&request);
    assert_eq!(outcome, Outcome::AlreadyExists);
    assert_eq!(
        tx.settle(outcome),
        Err(Error::PreconditionViolated { op: Op::CopyFile, path: path("taken") })
    );
    assert_eq!(tx.len(), 0);
    assert!(!tx.has_pending());

    let request = tx.copy_file("c", path("fresh"), "/tmp/nowhere").unwrap();
    assert_eq!(
        tx.settle(disk.perform(&request)),
        Err(Error::PreconditionViolated { op: Op::CopyFile, path: path("fresh") })
    );
    let request = tx.remove_file("c", path("missing")).unwrap();
    assert_eq!(
        tx.settle(disk.perform(&request)),
        Err(Error::PreconditionViolated { op: Op::RemoveFile, path: path("missing") })
    );
    let request = tx.remove_dir("c", path("missing")).unwrap();
    assert_eq!(
        tx.settle(disk.perform(&request)),
        Err(Error::PreconditionViolated { op: Op::RemoveDir, path: path("missing") })
    );
    let request = tx.add_file("c", path("taken")).unwrap();
    assert_eq!(
        tx.settle(disk.perform(&request)),
        Err(Error::PreconditionViolated { op: Op::AddFile, path: path("taken") })
    );
    let _ = tx.add_file("c", path("other")).unwrap();
    assert_eq!(
        tx.settle(Outcome::Failed("disk full".to_string())),
        Err(Error::FilesystemError {
            op: Op::AddFile,
            path: path("other"),
            cause: "disk full".to_string()
        })
    );
    assert_eq!(tx.len(), 0);

    assert_eq!(
        tx.add_file("c", path("/etc/passwd")),
        Err(Error::PreconditionViolated { op: Op::AddFile, path: path("/etc/passwd") })
    );
    assert!(!tx.has_pending());
}

#[test]
fn requests_name_absolute_places() {
    let prefix = InstallPrefix::from("/opt/toolchain");
    let mut tx = Transaction::new(prefix);
    let request = tx.copy_dir("c", path("share/doc"), "/tmp/d").unwrap();
    assert_eq!(
        request,
        Request::Transfer {
            how: Transfer::Copy,
            what: Entry::Dir,
            src: "/tmp/d".to_string(),
            dest: AbsPath { root: "/opt/toolchain".to_string(), below: path("share/doc") },
        }
    );
    tx.settle(Outcome::Done).unwrap();
    let request = tx.remove_file("c", path("bin/x")).unwrap();
    match request {
        Request::Stash { what, path: place, backup } => {
            assert_eq!(what, Entry::File);
            assert_eq!(place.below, path("bin/x"));
            assert_eq!(backup.index, 0);
        }
        other => panic!("unexpected request {other:?}"),
    }
    tx.settle(Outcome::Done).unwrap();
    let request = tx.modify_file(path("etc/c")).unwrap();
    match request {
        Request::Backup { backup, .. } => assert_eq!(backup.index, 1),
        other => panic!("unexpected request {other:?}"),
    }
    assert_eq!(tx.temp().map(|id| id.index), Some(2));
}

#[test]
fn failed_install_is_rolled_back() {
    let mut disk = world();
    install(&mut disk, "first", &[(false, "bin/first", "/tmp/r")]).unwrap();
    let before = disk.tree.clone();

    let result =
        install(&mut disk, "second", &[(true, "share/doc", "/tmp/d"), (false, "bin/first", "/tmp/r")]);
    assert_eq!(
        result,
        Err(Error::PreconditionViolated { op: Op::CopyFile, path: path("bin/first") })
    );
    let files = |tree: &BTreeMap<Key, Node>| -> Vec<(Key, Node)> {
        tree.iter()
            .filter(|(_, v)| matches!(v, Node::File(_)))
            .map(|(k, v)| (k.clone(), v.clone()))
            .collect()
    };
    assert_eq!(files(&disk.tree), files(&before));
    assert_eq!(disk.file("lib/rustlib/components"), Some(lines(&["first"])));
    assert!(!disk.has("lib/rustlib/manifest-second"));
}

#[test]
fn failure_while_finishing_restores_the_list() {
    let mut disk = world();
    install(&mut disk, "first", &[(false, "bin/first", "/tmp/r")]).unwrap();
    let components = open(&disk);
    let tx = Transaction::new(components.prefix());
    let mut builder = components.add("second", tx);
    let answer = builder.copy_dir(path("share/doc"), "/tmp/d");
    put(&mut disk, &mut builder, answer).unwrap();
    disk.log.clear();
    // the sixth request of the finishing script writes the version file
    disk.refuse = Some(6);
    let (tx, failure) = run_script(&mut disk, builder.finish());
    let expected = || Error::FilesystemError {
        op: Op::WriteFile,
        path: path("lib/rustlib/version"),
        cause: "disk full".to_string(),
    };
    let error = failure.unwrap();
    assert_eq!(error, expected());
    assert_eq!(disk.file("lib/rustlib/components"), Some(lines(&["first", "second"])));
    disk.refuse = None;
    assert_eq!(roll_back(&mut disk, tx, Some(error)), Err(expected()));
    assert_eq!(disk.file("lib/rustlib/components"), Some(lines(&["first"])));
    assert_eq!(disk.file("lib/rustlib/version"), Some(lines(&["3"])));
    assert!(!disk.has("lib/rustlib/manifest-second"));
    assert!(!disk.has("share/doc"));
}

#[test]
fn rollback_reports_secondary_failures_and_tries_every_entry() {
    let mut disk = world();
    disk.tree.insert(key("gone.txt"), Node::File(lines(&["bye"])));
    let prefix = InstallPrefix::from("/opt/toolchain");
    let mut tx = Transaction::new(prefix);
    let request = tx.copy_file("c", path("bin/rustc"), "/tmp/r").unwrap();
    tx.settle(disk.perform(&request)).unwrap();
    let request = tx.remove_file("c", path("gone.txt")).unwrap();
    tx.settle(disk.perform(&request)).unwrap();
    let request = tx.add_file("c", path("new.txt")).unwrap();
    tx.settle(disk.perform(&request)).unwrap();
    // somebody empties the scratch area and deletes a created file
    disk.scratch.clear();
    disk.tree.remove(&key("new.txt"));

    let original = Error::CorruptComponent { name: "c".to_string() };
    let end = roll_back(&mut disk, tx, Some(Error::CorruptComponent { name: "c".to_string() }));
    match end {
        Err(Error::RollbackFailure { original: first, secondary }) => {
            assert_eq!(first, Some(Box::new(original)));
            assert_eq!(secondary.len(), 1);
            assert_eq!(secondary[0].path, path("gone.txt"));
            assert_eq!(secondary[0].cause, "not found");
        }
        other => panic!("unexpected end {other:?}"),
    }
    // the entry before the failed one was undone all the same
    assert!(!disk.has("bin/rustc"));
}

#[test]
fn changed_items_compare() {
    let one = ChangedItem::CreatedFile { component: "c".to_string(), path: path("a/b") };
    let other = ChangedItem::CreatedDir { component: "c".to_string(), path: path("a/b") };
    assert_ne!(one, other);
}
