//! Presenter behaviour: column alignment, the long columns, the private
//! marker, and the empty collection.

use cargo_workspaces::list::{line_text, list_lines, list_widths};
use cargo_workspaces::pkg::Pkg;
use cargo_workspaces::version::Version;

fn pkg(name: &str, version: Version, path: &str, private: bool) -> Pkg {
    Pkg {
        id: name.to_string(),
        name: name.to_string(),
        version,
        location: format!("/ws/{}", path),
        path: path.to_string(),
        private,
        independent: false,
    }
}

#[test]
fn version_columns_align_regardless_of_name_length() {
    let pkgs = vec![
        pkg("alpha", Version::new(1, 0, 0), "", false),
        pkg("b", Version::new(0, 2, 0), "", false),
    ];
    let lines = list_lines(&pkgs, true, false);
    let first = line_text(&lines[0]);
    let second = line_text(&lines[1]);
    assert_eq!(first.find("v1.0.0"), Some(6));
    assert_eq!(second.find("v0.2.0"), Some(6));
}

#[test]
fn long_lines_hold_padded_version_and_path() {
    let pkgs = vec![
        pkg("alpha", Version::new(1, 0, 0), "", false),
        pkg("b", Version::new(0, 2, 0), "crates/b", false),
    ];
    let lines = list_lines(&pkgs, true, false);
    assert_eq!(line_text(&lines[0]), "alpha v1.0.0 .");
    assert_eq!(line_text(&lines[1]), "b     v0.2.0 crates/b");
}

#[test]
fn short_lines_hold_the_name_alone() {
    let pkgs = vec![
        pkg("alpha", Version::new(1, 0, 0), "", false),
        pkg("b", Version::new(0, 2, 0), "crates/b", false),
    ];
    let lines = list_lines(&pkgs, false, false);
    assert_eq!(line_text(&lines[0]), "alpha");
    assert_eq!(line_text(&lines[1]), "b");
}

#[test]
fn private_marker_is_padded_to_the_column() {
    let pkgs = vec![
        pkg("alpha", Version::new(1, 0, 0), "", false),
        pkg("b", Version::new(0, 2, 0), "crates/b", true),
    ];
    let lines = list_lines(&pkgs, false, true);
    assert_eq!(line_text(&lines[0]), "alpha");
    assert_eq!(line_text(&lines[1]), "b     (PRIVATE)");
}

#[test]
fn private_marker_after_long_columns() {
    let pkgs = vec![
        pkg("a", Version::new(1, 0, 0), "crates/a", false),
        pkg("b", Version::new(0, 2, 0), "b", true),
    ];
    let lines = list_lines(&pkgs, true, true);
    assert_eq!(line_text(&lines[0]), "a v1.0.0 crates/a");
    assert_eq!(line_text(&lines[1]), "b v0.2.0 b        (PRIVATE)");
}

#[test]
fn empty_collection_renders_no_rows() {
    let pkgs: Vec<Pkg> = vec![];
    let lines = list_lines(&pkgs, true, true);
    assert!(lines.is_empty());
}

#[test]
fn widths_cover_the_longest_entries() {
    let pkgs = vec![
        pkg("alpha", Version::new(1, 0, 0), "", false),
        pkg("b", Version::new(10, 20, 30), "crates/b", false),
    ];
    let (namew, verw, pathw) = list_widths(&pkgs);
    assert_eq!(namew, 5);
    assert_eq!(verw, "v10.20.30".len());
    assert_eq!(pathw, "crates/b".len());
}

#[test]
fn root_package_path_reserves_one_column() {
    let pkgs = vec![pkg("a", Version::new(1, 0, 0), "", false)];
    let (_, _, pathw) = list_widths(&pkgs);
    assert_eq!(pathw, 1);
}

#[test]
fn styled_segments_are_exposed_separately() {
    let pkgs = vec![pkg("alpha", Version::new(1, 2, 3), "crates/alpha", true)];
    let lines = list_lines(&pkgs, true, true);
    assert_eq!(lines[0].name, "alpha");
    assert_eq!(lines[0].version_text, "v1.2.3");
    assert_eq!(lines[0].path_text, "crates/alpha");
    assert!(lines[0].show_long);
    assert!(lines[0].show_marker);
}
