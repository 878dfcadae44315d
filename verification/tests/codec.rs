use component_install::part::{ComponentPart, ComponentPartKind};
use component_install::path::InstallPath;

fn segments(names: &[&str]) -> InstallPath {
    InstallPath::from_segments(names.iter().map(|s| s.to_string()).collect())
}

#[test]
fn decode_component_part() {
    let part = ComponentPart::decode("dir:share/doc/rust/html").unwrap();
    assert_eq!(part.kind, ComponentPartKind::Dir);
    assert_eq!(part.path, segments(&["share", "doc", "rust", "html"]));
}

#[test]
fn encode_component_part() {
    let part = ComponentPart {
        kind: ComponentPartKind::Dir,
        path: segments(&["share", "doc", "rust", "html"]),
    };
    assert_eq!(part.encode(), "dir:share/doc/rust/html");
}
