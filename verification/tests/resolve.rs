//! Resolver behaviour: selection, privacy filtering, ordering, path
//! normalization, warnings, and the fatal conditions.

use cargo_workspaces::meta::Meta;
use cargo_workspaces::pkg::{get_pkgs, Error, Metadata, PackageEntry};
use cargo_workspaces::version::Version;

fn entry(id: &str, name: &str, version: Version, manifest: &str) -> PackageEntry {
    PackageEntry {
        id: id.to_string(),
        name: name.to_string(),
        version,
        manifest_path: manifest.to_string(),
        publish: None,
        metadata: Meta::Other,
    }
}

fn workspace(root: &str, members: &[&str], packages: Vec<PackageEntry>) -> Metadata {
    Metadata {
        workspace_root: root.to_string(),
        workspace_members: members.iter().map(|m| m.to_string()).collect(),
        packages,
    }
}

#[test]
fn scenario_two_members_include_private() {
    let mut b = entry("b", "b", Version::new(0, 9, 0), "/ws/crates/b/Cargo.toml");
    b.publish = Some(vec![]);
    let m = workspace(
        "/ws",
        &["a", "b"],
        vec![entry("a", "a", Version::new(1, 0, 0), "/ws/Cargo.toml"), b],
    );
    let (pkgs, warns) = get_pkgs(&m, true).unwrap();
    assert!(warns.is_empty());
    assert_eq!(pkgs.len(), 2);
    assert_eq!(pkgs[0].name, "a");
    assert_eq!(pkgs[0].path, "");
    assert_eq!(pkgs[0].location, "/ws");
    assert!(!pkgs[0].private);
    assert_eq!(pkgs[1].name, "b");
    assert_eq!(pkgs[1].path, "crates/b");
    assert_eq!(pkgs[1].location, "/ws/crates/b");
    assert!(pkgs[1].private);
}

#[test]
fn scenario_two_members_exclude_private() {
    let mut b = entry("b", "b", Version::new(0, 9, 0), "/ws/crates/b/Cargo.toml");
    b.publish = Some(vec![]);
    let m = workspace(
        "/ws",
        &["a", "b"],
        vec![entry("a", "a", Version::new(1, 0, 0), "/ws/Cargo.toml"), b],
    );
    let (pkgs, warns) = get_pkgs(&m, false).unwrap();
    assert!(warns.is_empty());
    assert_eq!(pkgs.len(), 1);
    assert_eq!(pkgs[0].name, "a");
}

#[test]
fn members_sorted_by_name() {
    let m = workspace(
        "/ws",
        &["z", "a", "m"],
        vec![
            entry("z", "zeta", Version::new(1, 0, 0), "/ws/z/Cargo.toml"),
            entry("a", "alpha", Version::new(1, 0, 0), "/ws/a/Cargo.toml"),
            entry("m", "middle", Version::new(1, 0, 0), "/ws/m/Cargo.toml"),
        ],
    );
    let (pkgs, _) = get_pkgs(&m, false).unwrap();
    let names: Vec<&str> = pkgs.iter().map(|p| p.name.as_str()).collect();
    assert_eq!(names, ["alpha", "middle", "zeta"]);
}

#[test]
fn same_name_sorted_by_version_precedence() {
    let m = workspace(
        "/ws",
        &["x2", "x1", "x3"],
        vec![
            entry("x2", "x", Version::new(2, 0, 0), "/ws/x2/Cargo.toml"),
            entry("x1", "x", Version::new(1, 9, 9), "/ws/x1/Cargo.toml"),
            entry(
                "x3",
                "x",
                Version {
                    major: 2,
                    minor: 0,
                    patch: 0,
                    pre: vec![cargo_workspaces::version::PreIdent::Alpha("alpha".to_string())],
                    build: String::new(),
                },
                "/ws/x3/Cargo.toml",
            ),
        ],
    );
    let (pkgs, _) = get_pkgs(&m, false).unwrap();
    let ids: Vec<&str> = pkgs.iter().map(|p| p.id.as_str()).collect();
    assert_eq!(ids, ["x1", "x3", "x2"]);
}

#[test]
fn resolve_twice_yields_identical_collections() {
    let m = workspace(
        "/ws",
        &["b", "a"],
        vec![
            entry("b", "beta", Version::new(0, 2, 0), "/ws/b/Cargo.toml"),
            entry("a", "alpha", Version::new(1, 0, 0), "/ws/a/Cargo.toml"),
        ],
    );
    let (first, w1) = get_pkgs(&m, true).unwrap();
    let (second, w2) = get_pkgs(&m, true).unwrap();
    assert_eq!(w1, w2);
    assert_eq!(first.len(), second.len());
    for (x, y) in first.iter().zip(second.iter()) {
        assert_eq!(x.id, y.id);
        assert_eq!(x.name, y.name);
        assert_eq!(x.location, y.location);
        assert_eq!(x.path, y.path);
        assert_eq!(x.private, y.private);
        assert_eq!(x.independent, y.independent);
    }
}

#[test]
fn manifest_outside_root_is_fatal() {
    let m = workspace(
        "/ws",
        &["m1"],
        vec![entry("m1", "stray", Version::new(1, 0, 0), "/other/Cargo.toml")],
    );
    match get_pkgs(&m, true) {
        Err(Error::PackageNotInWorkspace { id, ws }) => {
            assert_eq!(id, "m1");
            assert_eq!(ws, "/ws");
        }
        _ => panic!("expected PackageNotInWorkspace"),
    }
}

#[test]
fn all_private_without_include_private_is_empty_workspace() {
    let mut a = entry("a", "a", Version::new(1, 0, 0), "/ws/a/Cargo.toml");
    a.publish = Some(vec![]);
    let mut b = entry("b", "b", Version::new(1, 0, 0), "/ws/b/Cargo.toml");
    b.publish = Some(vec![]);
    let m = workspace("/ws", &["a", "b"], vec![a, b]);
    assert!(matches!(get_pkgs(&m, false), Err(Error::EmptyWorkspace)));
}

#[test]
fn no_members_is_empty_workspace() {
    let m = workspace("/ws", &[], vec![]);
    assert!(matches!(get_pkgs(&m, true), Err(Error::EmptyWorkspace)));
}

#[test]
fn missing_member_is_reported_and_skipped() {
    let m = workspace(
        "/ws",
        &["a", "ghost"],
        vec![entry("a", "a", Version::new(1, 0, 0), "/ws/a/Cargo.toml")],
    );
    let (pkgs, warns) = get_pkgs(&m, true).unwrap();
    assert_eq!(pkgs.len(), 1);
    assert_eq!(pkgs[0].name, "a");
    assert_eq!(warns, ["ghost"]);
}

#[test]
fn backslash_separators_are_trimmed() {
    let m = workspace(
        "C:\\ws",
        &["a"],
        vec![entry("a", "a", Version::new(1, 0, 0), "C:\\ws\\crates\\a\\Cargo.toml")],
    );
    let (pkgs, _) = get_pkgs(&m, true).unwrap();
    assert_eq!(pkgs[0].path, "crates\\a");
    assert_eq!(pkgs[0].location, "C:\\ws/crates\\a");
}

#[test]
fn root_member_has_empty_path() {
    let m = workspace(
        "/ws",
        &["a"],
        vec![entry("a", "a", Version::new(1, 0, 0), "/ws/Cargo.toml")],
    );
    let (pkgs, _) = get_pkgs(&m, true).unwrap();
    assert_eq!(pkgs[0].path, "");
    assert_eq!(pkgs[0].location, "/ws");
}

#[test]
fn publish_restricted_to_registry_is_not_private() {
    let mut a = entry("a", "a", Version::new(1, 0, 0), "/ws/a/Cargo.toml");
    a.publish = Some(vec!["my-registry".to_string()]);
    let m = workspace("/ws", &["a"], vec![a]);
    let (pkgs, _) = get_pkgs(&m, false).unwrap();
    assert_eq!(pkgs.len(), 1);
    assert!(!pkgs[0].private);
}

#[test]
fn independent_flag_carried_into_package() {
    let mut a = entry("a", "a", Version::new(1, 0, 0), "/ws/a/Cargo.toml");
    a.metadata = Meta::Object(vec![(
        "workspaces".to_string(),
        Meta::Object(vec![("independent".to_string(), Meta::Bool(true))]),
    )]);
    let m = workspace("/ws", &["a"], vec![a]);
    let (pkgs, _) = get_pkgs(&m, true).unwrap();
    assert!(pkgs[0].independent);
}
