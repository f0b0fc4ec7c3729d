use universal_devops_converter::paths::{PathMapper, normalize};

#[test]
fn normalizes_separators_and_dot_segments() {
    assert_eq!(normalize("src\\main\\a.rs"), "src/main/a.rs");
    assert_eq!(normalize("./src/./a.rs"), "src/a.rs");
    assert_eq!(normalize("src/lib/../a.rs"), "src/a.rs");
    assert_eq!(
        normalize("/builds/proj/./src/a.rs"),
        "/builds/proj/src/a.rs"
    );
    assert_eq!(normalize("../shared/a.rs"), "../shared/a.rs");
}

#[test]
fn source_root_makes_absolute_paths_relative() {
    let mapper = PathMapper::new(Some("/builds/acme/proj/"), &[]);
    assert_eq!(mapper.map("/builds/acme/proj/src/a.rs"), "src/a.rs");
    // Outside the root: left untouched rather than silently mangled.
    assert_eq!(mapper.map("/opt/vendor/b.rs"), "/opt/vendor/b.rs");
}

#[test]
fn prefix_stripping_respects_segment_boundaries() {
    let mapper = PathMapper::new(None, &["src/app".to_string()]);
    assert_eq!(mapper.map("src/app/main.rs"), "main.rs");
    assert_eq!(mapper.map("src/apple/main.rs"), "src/apple/main.rs");
}

#[test]
fn only_the_first_matching_prefix_is_stripped() {
    let mapper = PathMapper::new(None, &["a".to_string(), "b".to_string()]);
    assert_eq!(mapper.map("a/b/c.rs"), "b/c.rs");
}

#[test]
fn noop_mapper_is_detected() {
    assert!(PathMapper::new(None, &[]).is_noop());
    assert!(!PathMapper::new(Some("/x"), &[]).is_noop());
}
