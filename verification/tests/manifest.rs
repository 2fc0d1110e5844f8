use rainbox::manifest::{
    package_file_exists, parse_package_lines, read_package_list, read_package_list_with_source,
    read_packages, read_packages_with_source,
};
use rainbox::models::FileRead;

fn content(s: &str) -> FileRead {
    FileRead::Content(s.to_string())
}

#[test]
fn parse_skips_blanks_and_comments() {
    let names = parse_package_lines("git\n\n# a comment\n  node  \n\t\nripgrep\n");
    assert_eq!(
        names,
        vec!["git".to_string(), "node".to_string(), "ripgrep".to_string()]
    );
}

#[test]
fn parse_keeps_first_of_duplicates() {
    let names = parse_package_lines("b\na\nb\n");
    assert_eq!(names, vec!["b".to_string(), "a".to_string()]);
}

#[test]
fn read_package_list_unions_and_sorts() {
    let base = content("typescript\neslint\n");
    let local = content("eslint\nts-node\n");
    let names = read_package_list(&base, &local).expect("both readable");
    assert_eq!(
        names,
        vec![
            "eslint".to_string(),
            "ts-node".to_string(),
            "typescript".to_string()
        ]
    );
}

#[test]
fn declared_scenario_union_and_override_flags() {
    // npm.txt holds typescript and eslint; npm.local.txt holds eslint
    // and ts-node.
    let base = content("typescript\neslint\n");
    let local = content("eslint\nts-node\n");
    let declared = read_package_list_with_source(&base, &local).expect("both readable");
    assert_eq!(
        declared,
        vec![
            ("eslint".to_string(), true),
            ("ts-node".to_string(), true),
            ("typescript".to_string(), false)
        ]
    );
}

#[test]
fn reading_twice_gives_identical_output() {
    let base = content("zz\nmm\naa\n");
    let local = content("mm\nbb\n");
    let first = read_package_list_with_source(&base, &local).expect("readable");
    let second = read_package_list_with_source(&base, &local).expect("readable");
    assert_eq!(first, second);
}

#[test]
fn missing_local_file_contributes_nothing() {
    let base = content("git\n");
    let declared = read_package_list_with_source(&base, &FileRead::Missing).expect("readable");
    assert_eq!(declared, vec![("git".to_string(), false)]);
}

#[test]
fn missing_base_manifest_is_not_configured() {
    let err = read_packages_with_source("npm", &FileRead::Missing, &FileRead::Missing)
        .expect_err("missing base");
    assert_eq!(err, "Package file not found for manager: npm".to_string());
}

#[test]
fn unreadable_base_manifest_surfaces_its_message() {
    let base = FileRead::Unreadable("Failed to read npm.txt: permission denied".to_string());
    let err = read_packages_with_source("npm", &base, &FileRead::Missing).expect_err("unreadable");
    assert_eq!(err, "Failed to read npm.txt: permission denied".to_string());
}

#[test]
fn unreadable_local_manifest_surfaces_its_message() {
    let base = content("git\n");
    let local = FileRead::Unreadable("bad encoding".to_string());
    let err = read_package_list(&base, &local).expect_err("unreadable local");
    assert_eq!(err, "bad encoding".to_string());
}

#[test]
fn read_packages_returns_names_only() {
    let base = content("b\na\n");
    let local = content("c\n");
    let names = read_packages("brew", &base, &local).expect("readable");
    assert_eq!(
        names,
        vec!["a".to_string(), "b".to_string(), "c".to_string()]
    );
}

#[test]
fn package_file_exists_tracks_base_file() {
    assert!(!package_file_exists(&FileRead::Missing));
    assert!(package_file_exists(&content("x\n")));
    assert!(package_file_exists(&FileRead::Unreadable("e".to_string())));
}
