use component_install::log::{EventFormatter, Hue};
use component_install::notify::NotificationLevel;
use component_install::notify::{event_for, Notification};
use component_install::effect::{Entry, Outcome, Request, ScratchId, Transfer};
use component_install::path::InstallPath;
use component_install::prefix::InstallPrefix;
use component_install::process::{
    compose_id, personality, recursion_count, recursion_exceeded, starts_with, Personality, Process,
    TestProcess, RECURSION_MAX,
};

fn strings(items: &[&str]) -> Vec<String> {
    items.iter().map(|s| s.to_string()).collect()
}

#[test]
fn test_process_keeps_what_it_was_given() {
    let vars = vec![("HOME".to_string(), "/home/u".to_string())];
    let process = TestProcess::new("/work", strings(&["foo", "bar", "baz"]), vars.clone(), "input", 4242);
    assert_eq!(process.cwd, "/work");
    assert_eq!(process.args, strings(&["foo", "bar", "baz"]));
    assert_eq!(process.vars, vars);
    assert_eq!(process.stdin, "input");
    assert_eq!(process.get_stdout(), Vec::<u8>::new());
    assert_eq!(process.get_stderr(), Vec::<u8>::new());
    assert_eq!(process.id & 0xffff_ffff, 4242);
    assert!(process.id >> 32 < u32::MAX as u64);
}

#[test]
fn test_process_ids_carry_the_pid_in_their_low_bits() {
    for pid in [0u32, 1, 77, u32::MAX] {
        for _ in 0..50 {
            let id = TestProcess::new_id(pid);
            assert_eq!(id & 0xffff_ffff, pid as u64);
            assert!(id >> 32 < u32::MAX as u64);
        }
    }
    assert_eq!(compose_id(0, 0), 0);
    assert_eq!(compose_id(1, 0), 1 << 32);
    assert_eq!(compose_id(0xdead_beef, 0x1234_5678), 0xdead_beef_1234_5678);
    assert_eq!(compose_id(u32::MAX, u32::MAX), u64::MAX);
}

#[test]
fn output_is_handed_out_as_a_copy() {
    let mut process = TestProcess::default();
    process.stdout.extend_from_slice(b"out");
    process.stderr.extend_from_slice(b"err");
    let out = process.get_stdout();
    assert_eq!(out, b"out");
    assert_eq!(process.get_stderr(), b"err");
    process.stdout.push(b'!');
    assert_eq!(out, b"out");
    assert_eq!(process.get_stdout(), b"out!");
}

#[test]
fn variables_come_from_the_process() {
    let vars = vec![
        ("A".to_string(), "1".to_string()),
        ("B".to_string(), "2".to_string()),
        ("A".to_string(), "3".to_string()),
    ];
    let test = TestProcess::new("/", Vec::new(), vars, "", 1);
    assert_eq!(test.var("A"), Some("1".to_string()));
    assert_eq!(test.var("B"), Some("2".to_string()));
    assert_eq!(test.var("C"), None);
    let process = Process::Test(test);
    assert_eq!(process.var("B", Some("ambient".to_string())), Some("2".to_string()));
    assert_eq!(process.var("C", Some("ambient".to_string())), None);
    let os = Process::os(true, false);
    assert_eq!(os.var("B", Some("ambient".to_string())), Some("ambient".to_string()));
    assert_eq!(os.var("B", None), None);
    assert!(os.stderr_is_a_tty());
    assert!(!os.stdout_is_a_tty());
    assert!(!process.stderr_is_a_tty());
    assert!(!process.stdout_is_a_tty());
}

#[test]
fn name_is_the_stem_of_the_first_argument() {
    let test = Process::Test(TestProcess::new(
        "/",
        strings(&["/usr/local/bin/rustup-init.exe", "-y"]),
        Vec::new(),
        "",
        1,
    ));
    let none: Vec<String> = Vec::new();
    assert_eq!(test.name(None, &none), Some("rustup-init".to_string()));
    assert_eq!(test.name(Some("/opt/cargo".to_string()), &none), Some("cargo".to_string()));
    assert_eq!(test.arg0(None, &none), Some("/usr/local/bin/rustup-init.exe".to_string()));
    let os = Process::os(false, false);
    assert_eq!(os.name(None, &strings(&["bin/rustc"])), Some("rustc".to_string()));
    assert_eq!(os.name(None, &none), None);
    assert_eq!(os.arg0(None, &none), None);
    let bare = Process::Test(TestProcess::default());
    assert_eq!(bare.name(None, &strings(&["ignored"])), None);
}

#[test]
fn levels_have_names_colours_and_ranks() {
    let levels = [
        (NotificationLevel::Debug, "debug", Some(Hue::Blue)),
        (NotificationLevel::Verbose, "verbose", Some(Hue::Magenta)),
        (NotificationLevel::Info, "info", None),
        (NotificationLevel::Warn, "warn", Some(Hue::Yellow)),
        (NotificationLevel::Error, "error", Some(Hue::Red)),
    ];
    for (rank, (level, name, hue)) in levels.iter().enumerate() {
        assert_eq!(level.name(), *name);
        assert_eq!(EventFormatter.fg_color(*level), *hue);
        assert_eq!(EventFormatter.label(*level), format!("{name}: "));
        assert_eq!(NotificationLevel::from_rank(rank as u8), Some(*level));
    }
    assert_eq!(NotificationLevel::from_rank(5), None);
    assert_eq!(NotificationLevel::from_rank(255), None);
}

#[test]
fn tracing_levels_are_shown_under_their_names() {
    assert_eq!(NotificationLevel::from_level(tracing::Level::TRACE), NotificationLevel::Debug);
    assert_eq!(NotificationLevel::from_level(tracing::Level::DEBUG), NotificationLevel::Verbose);
    assert_eq!(NotificationLevel::from_level(tracing::Level::INFO), NotificationLevel::Info);
    assert_eq!(NotificationLevel::from_level(tracing::Level::WARN), NotificationLevel::Warn);
    assert_eq!(NotificationLevel::from_level(tracing::Level::ERROR), NotificationLevel::Error);
}

#[test]
fn personality_goes_by_the_name() {
    assert_eq!(personality(None), Personality::Unnamed);
    assert_eq!(personality(Some("rustup")), Personality::Rustup);
    assert_eq!(personality(Some("rustup-init")), Personality::Setup);
    assert_eq!(personality(Some("rustup-init(2)")), Personality::Setup);
    assert_eq!(personality(Some("rustup-setup")), Personality::Setup);
    assert_eq!(personality(Some("rustup-gc-1a2b")), Personality::Cleanup);
    assert_eq!(personality(Some("rustc")), Personality::Proxy("rustc".to_string()));
    assert_eq!(personality(Some("rustup2")), Personality::Proxy("rustup2".to_string()));
    assert_eq!(personality(Some("")), Personality::Proxy(String::new()));
    assert!(starts_with("rustup-init", "rustup"));
    assert!(starts_with("abc", ""));
    assert!(starts_with("abc", "abc"));
    assert!(!starts_with("ab", "abc"));
    assert!(!starts_with("abd", "abc"));
}

#[test]
fn recursion_guard_counts_in_decimal() {
    assert_eq!(RECURSION_MAX, 20);
    assert_eq!(recursion_count("0"), 0);
    assert_eq!(recursion_count("7"), 7);
    assert_eq!(recursion_count("+21"), 21);
    assert_eq!(recursion_count("007"), 7);
    assert_eq!(recursion_count("4294967295"), u32::MAX);
    assert_eq!(recursion_count("4294967296"), 0);
    assert_eq!(recursion_count("99999999999999999999999"), 0);
    assert_eq!(recursion_count(""), 0);
    assert_eq!(recursion_count("+"), 0);
    assert_eq!(recursion_count("-1"), 0);
    assert_eq!(recursion_count("1x"), 0);
    assert_eq!(recursion_count(" 1"), 0);
    assert!(!recursion_exceeded(None));
    assert!(!recursion_exceeded(Some("20")));
    assert!(recursion_exceeded(Some("21")));
    assert!(!recursion_exceeded(Some("many")));
}

#[test]
fn events_are_told_for_changes_that_were_done() {
    let prefix = InstallPrefix::from("/p");
    let place = |text: &str| prefix.abs_path(InstallPath::parse(text));
    let here = || InstallPath::parse("a/b");
    let done = Outcome::Done;
    assert_eq!(
        event_for(&Request::Create { path: place("a/b") }, &done),
        Some(Notification::Created { path: here() })
    );
    let copy = Request::Transfer {
        how: Transfer::Copy,
        what: Entry::File,
        src: "/tmp/x".to_string(),
        dest: place("a/b"),
    };
    assert_eq!(
        event_for(&copy, &done),
        Some(Notification::Copied { what: Entry::File, path: here() })
    );
    assert_eq!(event_for(&copy, &Outcome::AlreadyExists), None);
    let moved = Request::Transfer {
        how: Transfer::Move,
        what: Entry::Dir,
        src: "/tmp/x".to_string(),
        dest: place("a/b"),
    };
    assert_eq!(
        event_for(&moved, &done),
        Some(Notification::Moved { what: Entry::Dir, path: here() })
    );
    let backup = ScratchId { index: 3 };
    assert_eq!(
        event_for(&Request::Backup { path: place("a/b"), backup }, &done),
        Some(Notification::BackedUp { path: here() })
    );
    assert_eq!(
        event_for(&Request::Stash { what: Entry::Dir, path: place("a/b"), backup }, &done),
        Some(Notification::Removed { what: Entry::Dir, path: here() })
    );
    assert_eq!(
        event_for(&Request::Restore { what: Entry::File, backup, path: place("a/b") }, &done),
        Some(Notification::Restored { what: Entry::File, path: here() })
    );
    assert_eq!(
        event_for(&Request::Delete { what: Entry::File, path: place("a/b") }, &done),
        Some(Notification::Removed { what: Entry::File, path: here() })
    );
    assert_eq!(event_for(&Request::Probe { path: place("a/b") }, &done), None);
    assert_eq!(event_for(&Request::DiscardScratch, &done), None);
    assert_eq!(
        event_for(&Request::Write { path: place("a/b"), lines: Vec::new() }, &done),
        None
    );
    assert_eq!(Notification::RollingBack.level(), NotificationLevel::Info);
    assert_eq!(
        Notification::NonFatalError { path: here(), cause: "x".to_string() }.level(),
        NotificationLevel::Warn
    );
    assert_eq!(Notification::Created { path: here() }.level(), NotificationLevel::Verbose);
}
