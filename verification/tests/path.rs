use std::path::{Path, PathBuf};

use gap::path::{
    canonicalized_path_to_string, export_components, get_export_path, join_canonical_components,
    validate_export_component, PathComponent, PathError,
};

#[test]
fn canonicalized_relative_joins_with_slash() {
    let joined = PathBuf::from("dir").join("file.bin");
    let s = canonicalized_path_to_string(&joined, true).expect("relative path");
    assert_eq!(s, "dir/file.bin", "components join with /");
}

#[test]
fn canonicalized_rejects_parent_dir() {
    let err = canonicalized_path_to_string(&PathBuf::from("foo/../bar"), true)
        .expect_err("parent dir component");
    assert!(
        err.message().contains("invalid path component"),
        "unexpected error: {}",
        err.message()
    );
}

#[test]
fn canonicalized_rejects_dot() {
    let err = canonicalized_path_to_string(&PathBuf::from("."), true).expect_err("dot component");
    assert!(
        err.message().contains("invalid path component"),
        "unexpected error: {}",
        err.message()
    );
}

#[test]
fn canonicalized_rejects_root_when_must_be_relative() {
    let err = canonicalized_path_to_string(&PathBuf::from("/abs"), true)
        .expect_err("root dir when relative required");
    assert!(
        err.message().contains("invalid path component"),
        "unexpected error: {}",
        err.message()
    );
}

#[test]
fn canonicalized_allows_root_when_not_required() {
    let s = canonicalized_path_to_string(&PathBuf::from("/abs/file"), false).expect("absolute path");
    assert_eq!(s, "/abs/file", "absolute path keeps leading slash");
}

#[test]
fn canonicalized_rejects_backslash_in_component() {
    let err = canonicalized_path_to_string(&PathBuf::from("foo\\bar"), true)
        .expect_err("backslash in component");
    assert!(
        err.message().contains("invalid path component"),
        "unexpected error: {}",
        err.message()
    );
}

#[test]
fn export_rejects_parent_escape() {
    let err = get_export_path(&PathBuf::from("/tmp/export"), "foo/../etc/passwd")
        .expect_err("parent escape");
    assert!(err.message().contains(".."), "unexpected error: {}", err.message());
}

#[test]
fn export_rejects_empty_dot_nul_backslash() {
    let root = PathBuf::from("/tmp/export");
    get_export_path(&root, "").expect_err("empty");
    get_export_path(&root, ".").expect_err("dot");
    get_export_path(&root, "foo\0bar").expect_err("nul");
    get_export_path(&root, "foo\\bar").expect_err("backslash");
    get_export_path(&root, "foo//bar").expect_err("empty component from //");
}

#[test]
fn export_rejects_slash_inside_component() {
    let err = validate_export_component("foo/bar").expect_err("slash in component");
    assert!(err.message().contains('/'), "unexpected error: {}", err.message());
}

#[test]
fn export_joins_safe_relative_name() {
    let got = get_export_path(&PathBuf::from("/tmp/export"), "dir/file.bin")
        .expect("safe relative name");
    assert_eq!(
        got,
        Path::new("/tmp/export").join("dir").join("file.bin"),
        "safe name is pushed under root"
    );
}

#[test]
fn validate_reports_each_refusal() {
    assert!(matches!(validate_export_component(""), Err(PathError::EmptyComponent)));
    assert!(matches!(validate_export_component("."), Err(PathError::DotComponent)));
    assert!(matches!(validate_export_component(".."), Err(PathError::DotDotComponent)));
    assert!(matches!(validate_export_component("a\0b"), Err(PathError::NulInComponent)));
    assert!(matches!(validate_export_component("a\\b"), Err(PathError::BackslashInComponent)));
    assert!(matches!(validate_export_component("a/b"), Err(PathError::SlashInComponent)));
    assert!(validate_export_component("...").is_ok());
    assert!(validate_export_component(".hidden").is_ok());
    assert!(validate_export_component("file.bin").is_ok());
}

#[test]
fn validate_checks_nul_before_backslash_before_slash() {
    assert!(matches!(validate_export_component("/\\\0"), Err(PathError::NulInComponent)));
    assert!(matches!(validate_export_component("/\\"), Err(PathError::BackslashInComponent)));
}

#[test]
fn export_messages_match_the_command_line() {
    assert_eq!(PathError::EmptyComponent.message(), "export path component must not be empty");
    assert_eq!(PathError::DotComponent.message(), "export path component must not be '.'");
    assert_eq!(PathError::DotDotComponent.message(), "export path component must not be '..'");
    assert_eq!(PathError::NulInComponent.message(), "export path component must not contain NUL");
    assert_eq!(
        PathError::BackslashInComponent.message(),
        "export path component must not contain '\\'"
    );
    assert_eq!(PathError::SlashInComponent.message(), "export path component must not contain '/'");
    assert_eq!(PathError::InvalidCharacter.message(), "invalid character in path");
}

#[test]
fn export_components_split_at_slash() {
    let parts = export_components("dir/sub/file.bin").expect("valid name");
    assert_eq!(parts, vec!["dir".to_owned(), "sub".to_owned(), "file.bin".to_owned()]);
    let single = export_components("file").expect("single");
    assert_eq!(single, vec!["file".to_owned()]);
}

#[test]
fn export_components_first_refusal_decides() {
    assert!(matches!(export_components("a/../."), Err(PathError::DotDotComponent)));
    assert!(matches!(export_components("a/./.."), Err(PathError::DotComponent)));
    assert!(matches!(export_components("a/"), Err(PathError::EmptyComponent)));
    assert!(matches!(export_components("/a"), Err(PathError::EmptyComponent)));
}

#[test]
fn join_canonical_counts_roots_and_joins_parts() {
    let comps = vec![
        PathComponent::RootDir,
        PathComponent::Normal(Some("a".to_owned())),
        PathComponent::Normal(Some("b".to_owned())),
    ];
    assert_eq!(join_canonical_components(comps, false).expect("absolute"), "/a/b");
    let none: Vec<PathComponent> = Vec::new();
    assert_eq!(join_canonical_components(none, true).expect("empty"), "");
}

#[test]
fn join_rejects_non_utf8_component() {
    let comps = vec![PathComponent::Normal(Some("foo".to_owned())), PathComponent::Normal(None)];
    let err = join_canonical_components(comps, true).expect_err("non-utf8");
    assert!(matches!(err, PathError::InvalidCharacter));
    assert_eq!(err.message(), "invalid character in path");
}

#[test]
fn join_names_the_refused_component() {
    let comps = vec![PathComponent::Normal(Some("a".to_owned())), PathComponent::ParentDir];
    let err = join_canonical_components(comps, true).expect_err("parent");
    assert_eq!(err.message(), "invalid path component ParentDir");
    let comps = vec![PathComponent::RootDir];
    let err = join_canonical_components(comps, true).expect_err("root");
    assert_eq!(err.message(), "invalid path component RootDir");
    let comps = vec![PathComponent::Normal(Some("a\\b".to_owned()))];
    let err = join_canonical_components(comps, true).expect_err("backslash");
    assert_eq!(err.message(), "invalid path component \"a\\\\b\"");
}

#[test]
fn sender_names_are_accepted_by_receiver() {
    let path = PathBuf::from("photos").join("2024").join("beach.jpg");
    let name = canonicalized_path_to_string(&path, true).expect("relative");
    let parts = export_components(&name).expect("exportable");
    assert_eq!(parts, vec!["photos".to_owned(), "2024".to_owned(), "beach.jpg".to_owned()]);
}

#[test]
fn export_components_join_back_to_the_name() {
    for name in ["a", "dir/file.bin", "x/y/z/w"] {
        let parts = export_components(name).expect("valid");
        assert_eq!(parts.join("/"), name);
    }
}

#[test]
fn export_target_stays_below_root() {
    let root = PathBuf::from("/tmp/export");
    let target = get_export_path(&root, "dir/sub/file.bin").expect("safe name");
    assert!(target.starts_with(&root));
    let rest = target.strip_prefix(&root).expect("below root");
    let names: Vec<_> = rest.components().collect();
    assert_eq!(names.len(), 3);
    for c in &names {
        assert!(matches!(c, std::path::Component::Normal(_)));
    }
}

#[test]
fn export_target_names_back_to_the_name() {
    let root = PathBuf::from("/tmp/export");
    for name in ["a", "dir/file.bin", ".hidden/x..y/z"] {
        let target = get_export_path(&root, name).expect("safe name");
        let rest = target.strip_prefix(&root).expect("below root").to_path_buf();
        assert_eq!(canonicalized_path_to_string(&rest, true).expect("relative"), name);
    }
}

#[test]
fn sender_name_lands_at_the_same_place() {
    let root = PathBuf::from("/tmp/export");
    let rel = PathBuf::from("photos").join("2024").join("beach.jpg");
    let name = canonicalized_path_to_string(&rel, true).expect("relative");
    assert_eq!(get_export_path(&root, &name).expect("accepted"), root.join(&rel));
}

#[test]
fn relative_and_absolute_naming_agree_without_root() {
    for p in ["a/b", "x", "dir/file.bin"] {
        let path = PathBuf::from(p);
        assert_eq!(
            canonicalized_path_to_string(&path, true).expect("relative"),
            canonicalized_path_to_string(&path, false).expect("relative")
        );
    }
    let abs = PathBuf::from("/a/b");
    assert!(canonicalized_path_to_string(&abs, true).is_err());
    assert_eq!(canonicalized_path_to_string(&abs, false).expect("absolute"), "/a/b");
}

#[test]
fn refused_prefix_is_named_by_its_debug_text() {
    let comps = vec![PathComponent::Prefix("Prefix(PrefixComponent { raw: \"C:\", parsed: Disk(67) })".to_owned())];
    let err = join_canonical_components(comps, true).expect_err("prefix");
    assert_eq!(
        err.message(),
        "invalid path component Prefix(PrefixComponent { raw: \"C:\", parsed: Disk(67) })"
    );
}
