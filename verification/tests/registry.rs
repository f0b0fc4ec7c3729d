use universal_devops_converter::registry::{Category, find, formats, resolve};

#[test]
fn resolves_ids_and_aliases_case_insensitively() {
    assert_eq!(find("LCOV").unwrap().id, "lcov");
    assert_eq!(find("gitlab-codequality").unwrap().id, "codeclimate-gitlab");
    assert!(find("nope").is_err());
}

#[test]
fn ids_and_aliases_are_unique() {
    let mut seen: Vec<&str> = Vec::new();
    for format in formats() {
        for name in std::iter::once(&format.id).chain(&format.aliases) {
            assert!(!seen.contains(name), "duplicate format name '{name}'");
            seen.push(name);
        }
    }
}

#[test]
fn a_declared_default_version_is_one_of_the_declared_versions() {
    for format in formats() {
        match format.default_version {
            Some(default) => assert!(
                format.versions.contains(&default),
                "format '{}' defaults to a version it does not declare",
                format.id
            ),
            None => assert!(
                format.versions.is_empty(),
                "format '{}' declares versions but no default",
                format.id
            ),
        }
    }
}

#[test]
fn resolves_a_bare_id_to_its_default_version() {
    let unversioned = resolve("junit").unwrap();
    assert_eq!(unversioned.spec.id, "junit");
    assert_eq!(unversioned.version, None);

    let versioned = resolve("sarif").unwrap();
    assert_eq!(versioned.version, Some("2.1.0"));
}

#[test]
fn resolves_an_explicit_version() {
    let selection = resolve("sarif@2.1.0").unwrap();
    assert_eq!(selection.spec.id, "sarif");
    assert_eq!(selection.version, Some("2.1.0"));
}

#[test]
fn rejects_an_unsupported_version_and_lists_the_supported_ones() {
    let error = resolve("sarif@1.0.0").unwrap_err().message();
    assert!(
        error.contains("does not support version '1.0.0'"),
        "{error}"
    );
    assert!(error.contains("2.1.0"), "{error}");
}

#[test]
fn rejects_a_version_on_an_unversioned_format() {
    let error = resolve("junit@1.0").unwrap_err().message();
    assert!(error.contains("is not versioned"), "{error}");
}

#[test]
fn rejects_an_empty_version() {
    assert!(resolve("sarif@").is_err());
}

#[test]
fn registry_a_colon_separator_points_at_the_at_sign() {
    let error = resolve("sarif:2.1.0").unwrap_err().message();
    assert!(error.contains("sarif@2.1.0"), "{error}");
}

#[test]
fn every_format_declares_at_least_one_category() {
    for format in formats() {
        assert!(
            !format.categories.is_empty(),
            "format '{}' belongs to no category",
            format.id
        );
    }
}

#[test]
fn a_shared_category_is_what_makes_a_conversion_legal() {
    let sarif = find("sarif").unwrap();
    let checkstyle = find("checkstyle").unwrap();
    let cobertura = find("cobertura").unwrap();

    assert_eq!(sarif.shared_category(&checkstyle), Some(Category::Quality));
    assert_eq!(checkstyle.shared_category(&cobertura), None);
}

#[test]
fn every_format_can_be_read_or_written() {
    for format in formats() {
        assert!(
            format.read.is_some() || format.write.is_some(),
            "format '{}' does nothing",
            format.id
        );
    }
}
