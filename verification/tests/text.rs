use component_install::part::{ComponentPart, ComponentPartKind};
use component_install::path::InstallPath;
use component_install::prefix::{
    components_file_name, supported_version, version_file_name, AbsPath, InstallPrefix,
};
use component_install::text::{chars_of, copy_of, push_text, read_lines, string_of, trim_end};

fn segments(names: &[&str]) -> InstallPath {
    InstallPath::from_segments(names.iter().map(|s| s.to_string()).collect())
}

#[test]
fn parse_splits_at_every_separator() {
    assert_eq!(InstallPath::parse(""), segments(&[]));
    assert_eq!(InstallPath::parse("a"), segments(&["a"]));
    assert_eq!(InstallPath::parse("a/b"), segments(&["a", "b"]));
    assert_eq!(InstallPath::parse("/a"), segments(&["", "a"]));
    assert_eq!(InstallPath::parse("a/"), segments(&["a", ""]));
    assert_eq!(InstallPath::parse("a//b"), segments(&["a", "", "b"]));
    assert_eq!(InstallPath::parse("/"), segments(&["", ""]));
    assert_eq!(InstallPath::parse("päth/ünïcode"), segments(&["päth", "ünïcode"]));
}

#[test]
fn render_joins_with_the_separator() {
    assert_eq!(segments(&[]).render(), "");
    assert_eq!(segments(&["a"]).render(), "a");
    assert_eq!(segments(&["share", "doc", "rust"]).render(), "share/doc/rust");
    assert_eq!(segments(&["", "usr", "lib"]).render(), "/usr/lib");
}

#[test]
fn written_paths_read_back() {
    for text in ["", "a", "a/b/c", "/abs/path", "with space/and:colon", "a//b", "trailing/"] {
        assert_eq!(InstallPath::parse(text).render(), text);
    }
    for path in [segments(&[]), segments(&["a"]), segments(&["a", "b c", "d:e"])] {
        assert_eq!(InstallPath::parse(&path.render()), path);
    }
}

#[test]
fn path_queries() {
    let p = segments(&["share", "doc", "rust"]);
    assert_eq!(p.len(), 3);
    assert!(!p.is_empty());
    assert!(p.is_relative());
    assert_eq!(p.parent(), Some(segments(&["share", "doc"])));
    assert_eq!(segments(&["a"]).parent(), Some(segments(&[])));
    assert_eq!(segments(&[]).parent(), None);
    assert!(segments(&[]).is_relative());
    assert!(segments(&[]).is_empty());
    assert!(!InstallPath::parse("/usr").is_relative());
    assert_eq!(p.child("html"), segments(&["share", "doc", "rust", "html"]));
    assert_eq!(segments(&["a"]).join(&segments(&["b", "c"])), segments(&["a", "b", "c"]));
    assert!(p.same(&InstallPath::parse("share/doc/rust")));
    assert!(!p.same(&InstallPath::parse("share/doc")));
    assert!(!p.same(&InstallPath::parse("share/doc/rusty")));
    assert_eq!(p.clone(), p);
    assert_eq!(InstallPath::new(), segments(&[]));
}

#[test]
fn codec_round_trip() {
    for kind in [ComponentPartKind::File, ComponentPartKind::Dir] {
        for path in ["", "bin/rustc", "share/doc/rust/html", "lib/a:b", "x y/z"] {
            let part = ComponentPart { kind: kind.clone(), path: InstallPath::parse(path) };
            let line = part.encode();
            assert_eq!(ComponentPart::decode(&line), Some(part));
        }
    }
}

#[test]
fn decode_takes_the_first_colon() {
    assert_eq!(ComponentPart::decode("no colon at all"), None);
    assert_eq!(ComponentPart::decode(""), None);
    let part = ComponentPart::decode("file:a:b/c").unwrap();
    assert_eq!(part.kind, ComponentPartKind::File);
    assert_eq!(part.path, segments(&["a:b", "c"]));
    let part = ComponentPart::decode(":x").unwrap();
    assert_eq!(part.kind, ComponentPartKind::Unknown(String::new()));
    let part = ComponentPart::decode("file:").unwrap();
    assert_eq!(part.path, segments(&[]));
    let part = ComponentPart::decode("file:/usr/local/lib/rustlib/x").unwrap();
    assert!(!part.path.is_relative());
    let part = ComponentPart::decode("File:x").unwrap();
    assert_eq!(part.kind, ComponentPartKind::Unknown("File".to_string()));
}

#[test]
fn kinds_and_their_tokens() {
    assert_eq!(ComponentPartKind::from_token("file"), ComponentPartKind::File);
    assert_eq!(ComponentPartKind::from_token("dir"), ComponentPartKind::Dir);
    assert_eq!(
        ComponentPartKind::from_token("link"),
        ComponentPartKind::Unknown("link".to_string())
    );
    assert_eq!(ComponentPartKind::File.token(), "file");
    assert_eq!(ComponentPartKind::Dir.token(), "dir");
    assert_eq!(ComponentPartKind::Unknown("link".to_string()).token(), "link");
    assert!(ComponentPartKind::File.is_known());
    assert!(!ComponentPartKind::Unknown("x".to_string()).is_known());
    let part = ComponentPart { kind: ComponentPartKind::Unknown("link".into()), path: segments(&["a"]) };
    assert_eq!(part.encode(), "link:a");
    assert_eq!(part.clone(), part);
}

#[test]
fn lines_end_with_any_line_ending() {
    assert_eq!(read_lines(""), Vec::<String>::new());
    assert_eq!(read_lines("a"), vec!["a"]);
    assert_eq!(read_lines("a\n"), vec!["a"]);
    assert_eq!(read_lines("a\nb\n"), vec!["a", "b"]);
    assert_eq!(read_lines("a\r\nb\r\n"), vec!["a", "b"]);
    assert_eq!(read_lines("a\rb\r"), vec!["a", "b"]);
    assert_eq!(read_lines("a\r\nb\nc\rd"), vec!["a", "b", "c", "d"]);
    assert_eq!(read_lines("a\n\nb\n"), vec!["a", "", "b"]);
    assert_eq!(read_lines("a\n\n\n"), vec!["a"]);
    assert_eq!(read_lines("\n\r\n\r"), Vec::<String>::new());
    assert_eq!(read_lines("a\n\rb"), vec!["a", "", "b"]);
}

#[test]
fn trim_end_drops_white_space_at_the_end_only() {
    assert_eq!(trim_end("3\n"), "3");
    assert_eq!(trim_end("3 \t\r\n"), "3");
    assert_eq!(trim_end(" 3"), " 3");
    assert_eq!(trim_end("a b "), "a b");
    assert_eq!(trim_end("\u{a0}x\u{2003}"), "\u{a0}x");
    assert_eq!(trim_end("  "), "");
    assert_eq!(trim_end(""), "");
}

#[test]
fn text_helpers() {
    assert_eq!(chars_of("héllo"), vec!['h', 'é', 'l', 'l', 'o']);
    assert_eq!(string_of(&vec!['a', 'b', 'c', 'd'], 1, 3), "bc");
    assert_eq!(string_of(&vec!['a'], 1, 1), "");
    assert_eq!(copy_of("same"), "same");
    let mut s = String::from("ab");
    push_text(&mut s, "cd");
    assert_eq!(s, "abcd");
}

#[test]
fn prefix_places() {
    let prefix = InstallPrefix::from("/opt/toolchain");
    assert_eq!(prefix.path(), "/opt/toolchain");
    assert_eq!(prefix.metadata_root(), segments(&["lib", "rustlib"]));
    assert_eq!(prefix.rel_manifest_file("components"), segments(&["lib", "rustlib", "components"]));
    assert_eq!(
        prefix.manifest_file("manifest-rustc"),
        AbsPath {
            root: "/opt/toolchain".to_string(),
            below: segments(&["lib", "rustlib", "manifest-rustc"])
        }
    );
    assert_eq!(
        prefix.abs_path(segments(&["bin", "rustc"])),
        AbsPath { root: "/opt/toolchain".to_string(), below: segments(&["bin", "rustc"]) }
    );
    assert_eq!(prefix.abs_path(segments(&[])).below, segments(&[]));
    assert_eq!(prefix.clone(), prefix);
    assert_eq!(components_file_name(), "components");
    assert_eq!(version_file_name(), "version");
    assert_eq!(supported_version(), "3");
}
