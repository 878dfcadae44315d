use component_install::order::{path_precedes, sort_paths, text_precedes};
use component_install::path::InstallPath;
use component_install::prune::{PruneIter, PruneSet};

fn path(text: &str) -> InstallPath {
    InstallPath::parse(text)
}

fn set_of(paths: &[&str]) -> PruneSet {
    let mut set = PruneSet::new();
    for p in paths {
        set.seen(&path(p));
    }
    set
}

/// Walks to the end; `empty` says which directories are there and empty. A
/// directory that was yielded is gone afterwards.
fn walk_all(mut walk: PruneIter, empty: &[&str]) -> (Vec<String>, Vec<String>) {
    let mut empty: Vec<String> = empty.iter().map(|s| s.to_string()).collect();
    let mut probed = Vec::new();
    let mut yielded = Vec::new();
    while let Some(dir) = walk.probe() {
        let name = dir.render();
        probed.push(name.clone());
        let is_empty = empty.contains(&name);
        match walk.advance(is_empty) {
            Some(out) => {
                assert!(is_empty);
                assert_eq!(out, dir);
                empty.retain(|e| *e != name);
                yielded.push(out.render());
            }
            None => assert!(!is_empty),
        }
    }
    assert!(walk.is_done());
    (probed, yielded)
}

#[test]
fn seen_keeps_the_deepest_directories_as_candidates() {
    let set = set_of(&["share/doc/rust/html/index.html"]);
    assert!(set.is_candidate(&path("share/doc/rust/html")));
    assert!(set.is_ancestor(&path("share/doc/rust")));
    assert!(set.is_ancestor(&path("share/doc")));
    assert!(set.is_ancestor(&path("share")));
    assert!(!set.is_ancestor(&path("share/doc/rust/html")));
    assert!(!set.is_candidate(&path("share")));
    assert!(!set.is_candidate(&path("")));
    assert!(!set.is_ancestor(&path("")));
}

#[test]
fn a_deeper_path_turns_a_candidate_into_an_ancestor() {
    let mut set = set_of(&["share/doc/readme"]);
    assert!(set.is_candidate(&path("share/doc")));
    set.seen(&path("share/doc/rust/html/index.html"));
    assert!(!set.is_candidate(&path("share/doc")));
    assert!(set.is_ancestor(&path("share/doc")));
    assert!(set.is_candidate(&path("share/doc/rust/html")));
    // a path whose directory is an ancestor already changes nothing
    set.seen(&path("share/other"));
    assert!(!set.is_candidate(&path("share")));
    assert!(set.is_ancestor(&path("share")));
}

#[test]
fn seen_ignores_absolute_paths_and_paths_in_the_root() {
    let set = set_of(&["/usr/lib/x", "top-level-file", ""]);
    assert!(!set.is_candidate(&path("/usr/lib")));
    assert!(!set.is_ancestor(&path("/usr")));
    assert!(!set.is_candidate(&path("")));
    let (probed, yielded) = walk_all(set.directories(), &[]);
    assert!(probed.is_empty());
    assert!(yielded.is_empty());
}

#[test]
fn the_set_does_not_depend_on_the_order_of_seen() {
    let paths = ["a/b/c/x", "a/b/y", "a/d/z", "e/f", "a/b/c/w"];
    let mut orders: Vec<Vec<&str>> = Vec::new();
    orders.push(paths.to_vec());
    orders.push(paths.iter().rev().cloned().collect());
    orders.push(vec![paths[2], paths[0], paths[4], paths[1], paths[3]]);
    let empty = ["a/b/c", "a/d", "e", "a/b", "a"];
    let mut runs = Vec::new();
    for order in &orders {
        let set = set_of(order);
        for dir in ["a/b/c", "a/d", "e"] {
            assert!(set.is_candidate(&path(dir)), "{dir} in {order:?}");
        }
        for dir in ["a/b", "a"] {
            assert!(set.is_ancestor(&path(dir)));
            assert!(!set.is_candidate(&path(dir)));
        }
        runs.push(walk_all(set.directories(), &empty));
    }
    assert_eq!(runs[0], runs[1]);
    assert_eq!(runs[0], runs[2]);
    assert_eq!(runs[0].1, vec!["a/b/c", "a/b", "a", "a/d", "e"]);
}

#[test]
fn walk_goes_up_while_directories_are_empty() {
    let set = set_of(&["share/doc/rust/html/index.html", "share/doc/rust/html/a.html"]);
    let (probed, yielded) = walk_all(
        set.directories(),
        &["share/doc/rust/html", "share/doc/rust", "share/doc", "share"],
    );
    assert_eq!(probed, vec!["share/doc/rust/html", "share/doc/rust", "share/doc", "share"]);
    assert_eq!(yielded, probed);
}

#[test]
fn walk_leaves_a_chain_at_the_first_directory_that_is_not_empty() {
    let set = set_of(&["share/doc/rust/index.html", "bin/tool"]);
    let (probed, yielded) = walk_all(set.directories(), &["share/doc/rust", "share"]);
    // `share` is never looked at: `share/doc` above the candidate is not empty
    assert_eq!(probed, vec!["bin", "share/doc/rust", "share/doc"]);
    assert_eq!(yielded, vec!["share/doc/rust"]);
}

#[test]
fn walk_never_yields_a_directory_twice() {
    let set = set_of(&["a/b/x", "a/c/y"]);
    let mut walk = set.directories();
    let mut yielded = Vec::new();
    // a driver that calls everything empty, whatever was removed before
    while let Some(dir) = walk.probe() {
        if let Some(out) = walk.advance(true) {
            assert_eq!(out, dir);
            yielded.push(out.render());
        }
    }
    assert_eq!(yielded, vec!["a/b", "a", "a/c"]);
    let mut unique = yielded.clone();
    unique.sort();
    unique.dedup();
    assert_eq!(unique.len(), yielded.len());
    assert!(yielded.iter().all(|y| !y.is_empty() && !y.starts_with('/')));
}

#[test]
fn advance_after_the_end_changes_nothing() {
    let mut walk = set_of(&["a/x"]).directories();
    assert_eq!(walk.probe(), Some(path("a")));
    assert_eq!(walk.advance(false), None);
    assert!(walk.is_done());
    assert_eq!(walk.probe(), None);
    assert_eq!(walk.advance(true), None);
    assert!(walk.is_done());
}

#[test]
fn paths_are_ordered_by_their_first_difference() {
    assert!(text_precedes("", "a"));
    assert!(!text_precedes("a", ""));
    assert!(!text_precedes("a", "a"));
    assert!(text_precedes("a", "ab"));
    assert!(text_precedes("ab", "b"));
    assert!(text_precedes("Z", "a"));
    assert!(path_precedes(&path("a"), &path("a/b")));
    assert!(path_precedes(&path("a/b"), &path("b")));
    assert!(path_precedes(&path("a/b"), &path("a/c")));
    assert!(!path_precedes(&path("a/c"), &path("a/b")));
    assert!(!path_precedes(&path("a/b"), &path("a/b")));
    assert!(path_precedes(&path("a/b/z"), &path("a/bb")));
}

#[test]
fn sort_paths_orders_and_drops_repeats() {
    let sorted = sort_paths(vec![path("b"), path("a/c"), path("a"), path("b"), path("a/b/c")]);
    let names: Vec<String> = sorted.iter().map(|p| p.render()).collect();
    assert_eq!(names, vec!["a", "a/b/c", "a/c", "b"]);
    assert!(sort_paths(Vec::new()).is_empty());
}
