//! Unit behaviour of the building blocks: privacy classification, the
//! freeform-metadata traversal, version rendering and precedence, decimal
//! rendering, and the path round trip.

use cargo_workspaces::meta::{is_independent, Meta};
use cargo_workspaces::paths::{join_rel_str, normalize_rel_str, strip_root_str};
use cargo_workspaces::pkg::{is_private, PackageEntry};
use cargo_workspaces::strutil::dec;
use cargo_workspaces::version::{render_version, PreIdent, Version};

fn entry_with_publish(publish: Option<Vec<String>>) -> PackageEntry {
    PackageEntry {
        id: "a".to_string(),
        name: "a".to_string(),
        version: Version::new(1, 0, 0),
        manifest_path: "/ws/Cargo.toml".to_string(),
        publish,
        metadata: Meta::Other,
    }
}

#[test]
fn empty_publish_list_is_private() {
    assert!(is_private(&entry_with_publish(Some(vec![]))));
}

#[test]
fn absent_publish_is_not_private() {
    assert!(!is_private(&entry_with_publish(None)));
}

#[test]
fn registry_publish_list_is_not_private() {
    assert!(!is_private(&entry_with_publish(Some(vec!["registry".to_string()]))));
}

fn workspaces_meta(value: Meta) -> Meta {
    Meta::Object(vec![("workspaces".to_string(), value)])
}

#[test]
fn independent_true_is_detected() {
    let m = workspaces_meta(Meta::Object(vec![(
        "independent".to_string(),
        Meta::Bool(true),
    )]));
    assert!(is_independent(&m));
}

#[test]
fn independent_false_yields_false() {
    let m = workspaces_meta(Meta::Object(vec![(
        "independent".to_string(),
        Meta::Bool(false),
    )]));
    assert!(!is_independent(&m));
}

#[test]
fn missing_workspaces_key_yields_false() {
    let m = Meta::Object(vec![("other".to_string(), Meta::Bool(true))]);
    assert!(!is_independent(&m));
}

#[test]
fn missing_independent_key_yields_false() {
    let m = workspaces_meta(Meta::Object(vec![("x".to_string(), Meta::Bool(true))]));
    assert!(!is_independent(&m));
}

#[test]
fn wrong_shape_at_workspaces_yields_false() {
    assert!(!is_independent(&workspaces_meta(Meta::Bool(true))));
}

#[test]
fn wrong_shape_at_independent_yields_false() {
    let m = workspaces_meta(Meta::Object(vec![(
        "independent".to_string(),
        Meta::Other,
    )]));
    assert!(!is_independent(&m));
}

#[test]
fn non_object_metadata_yields_false() {
    assert!(!is_independent(&Meta::Other));
    assert!(!is_independent(&Meta::Bool(true)));
}

#[test]
fn decimal_rendering() {
    assert_eq!(dec(0), "0");
    assert_eq!(dec(10), "10");
    assert_eq!(dec(9876543210), "9876543210");
}

#[test]
fn plain_version_renders_dotted() {
    assert_eq!(render_version(&Version::new(10, 2, 3)), "10.2.3");
}

#[test]
fn prerelease_and_build_render_after_core() {
    let v = Version {
        major: 1,
        minor: 0,
        patch: 0,
        pre: vec![
            PreIdent::Alpha("alpha".to_string()),
            PreIdent::Num(1),
        ],
        build: "build5".to_string(),
    };
    assert_eq!(render_version(&v), "1.0.0-alpha.1+build5");
}

#[test]
fn version_precedence_orders_numerically() {
    let old = Version::new(1, 9, 9);
    let new = Version::new(2, 0, 0);
    assert!(old.lt(&new));
    assert!(!new.lt(&old));
}

#[test]
fn prerelease_orders_below_release() {
    let pre = Version {
        major: 1,
        minor: 0,
        patch: 0,
        pre: vec![PreIdent::Alpha("alpha".to_string())],
        build: String::new(),
    };
    let release = Version::new(1, 0, 0);
    assert!(pre.lt(&release));
    assert!(!release.lt(&pre));
}

#[test]
fn numeric_prerelease_orders_below_alphanumeric() {
    let numeric = Version {
        major: 1,
        minor: 0,
        patch: 0,
        pre: vec![PreIdent::Num(11)],
        build: String::new(),
    };
    let alpha = Version {
        major: 1,
        minor: 0,
        patch: 0,
        pre: vec![PreIdent::Alpha("2".to_string())],
        build: String::new(),
    };
    assert!(numeric.lt(&alpha));
    assert!(!alpha.lt(&numeric));
}

#[test]
fn shorter_prerelease_orders_below_its_extension() {
    let short = Version {
        major: 1,
        minor: 0,
        patch: 0,
        pre: vec![PreIdent::Alpha("alpha".to_string())],
        build: String::new(),
    };
    let long = Version {
        major: 1,
        minor: 0,
        patch: 0,
        pre: vec![PreIdent::Alpha("alpha".to_string()), PreIdent::Num(1)],
        build: String::new(),
    };
    assert!(short.lt(&long));
    assert!(!long.lt(&short));
}

#[test]
fn path_round_trip_through_root() {
    let stripped = strip_root_str("/ws", "/ws/crates/b/Cargo.toml").unwrap();
    assert_eq!(stripped, "crates/b/Cargo.toml");
    let rel = normalize_rel_str(&stripped);
    assert_eq!(rel, "crates/b");
    let joined = join_rel_str("/ws", &rel);
    assert_eq!(joined, "/ws/crates/b");
    let rederived = normalize_rel_str(&strip_root_str("/ws", &joined).unwrap());
    assert_eq!(rederived, rel);
}

#[test]
fn strip_root_rejects_sibling_prefix() {
    assert!(strip_root_str("/ws", "/wsx/Cargo.toml").is_none());
    assert!(strip_root_str("/ws", "/other/Cargo.toml").is_none());
}

#[test]
fn normalize_trims_manifest_name_and_separators() {
    assert_eq!(normalize_rel_str("Cargo.toml"), "");
    assert_eq!(normalize_rel_str("crates/b/Cargo.toml"), "crates/b");
    assert_eq!(normalize_rel_str("crates\\b\\Cargo.toml"), "crates\\b");
}
