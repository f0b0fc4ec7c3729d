use universal_devops_converter::model::sbom::{
    self, Component, ComponentKind, Dependency, SbomDoc, SpecOrigin, version_at_least,
};

#[test]
fn versions_compare_numerically_not_alphabetically() {
    assert!(version_at_least("1.6", "1.5"));
    assert!(version_at_least("1.5", "1.5"));
    assert!(!version_at_least("1.4", "1.5"));
    // The case string comparison gets wrong.
    assert!(version_at_least("1.10", "1.5"));
}

#[test]
fn a_kind_narrows_only_where_the_target_does_not_know_it() {
    assert_eq!(
        ComponentKind::CryptographicAsset.narrow_to("1.6"),
        (ComponentKind::CryptographicAsset, false)
    );
    // 1.5 has no cryptographic-asset; emitting it would invalidate the file.
    assert_eq!(
        ComponentKind::CryptographicAsset.narrow_to("1.5"),
        (ComponentKind::Library, true)
    );
    assert_eq!(
        ComponentKind::Platform.narrow_to("1.4"),
        (ComponentKind::Library, true)
    );
    // Kinds that have always existed are never touched.
    assert_eq!(
        ComponentKind::Container.narrow_to("1.4"),
        (ComponentKind::Container, false)
    );
}

#[test]
fn a_version_is_only_offered_to_its_own_family() {
    let doc = SbomDoc {
        spec: Some(SpecOrigin::new("spdx", "SPDX-2.3")),
        ..Default::default()
    };
    assert_eq!(doc.version_within("spdx"), Some("SPDX-2.3"));
    // A CycloneDX writer must not adopt an SPDX version.
    assert_eq!(doc.version_within("cyclonedx"), None);
}

#[test]
fn hash_algorithms_are_canonicalized_on_the_way_in() {
    // SPDX writes SHA256, CycloneDX requires SHA-256; without a single
    // spelling, SPDX -> CycloneDX emits a document that fails its schema.
    assert_eq!(sbom::Hash::canonical_algorithm("SHA256"), "SHA-256");
    assert_eq!(sbom::Hash::canonical_algorithm("SHA-256"), "SHA-256");
    assert_eq!(sbom::Hash::canonical_algorithm("sha1"), "SHA-1");
    assert_eq!(sbom::Hash::canonical_algorithm("BLAKE2b-256"), "BLAKE2b-256");
    assert_eq!(sbom::Hash::canonical_algorithm("MD5"), "MD5");
}

#[test]
fn identity_prefers_the_purl() {
    let mut component = Component::new("lodash");
    component.version = Some("4.17.21".into());
    component.group = Some("@types".into());
    assert_eq!(component.identity(), "@types/lodash@4.17.21");

    component.purl = Some("pkg:npm/lodash@4.17.21".into());
    assert_eq!(component.identity(), "pkg:npm/lodash@4.17.21");
}

#[test]
fn merge_matches_components_on_identity() {
    let make = |purl: &str| {
        let mut doc = SbomDoc::default();
        let mut component = Component::new("lodash");
        component.purl = Some(purl.into());
        doc.components.push(component);
        doc
    };

    let mut doc = make("pkg:npm/lodash@4.17.21");
    doc.merge(make("pkg:npm/lodash@4.17.21"));
    assert_eq!(doc.components.len(), 1, "the same package, listed twice");

    doc.merge(make("pkg:npm/lodash@4.17.20"));
    assert_eq!(
        doc.components.len(),
        2,
        "a different version is a different component"
    );
}

#[test]
fn merge_unions_the_dependency_graph() {
    let mut doc = SbomDoc {
        dependencies: vec![Dependency {
            bom_ref: "a".into(),
            depends_on: vec!["b".into()],
        }],
        ..Default::default()
    };
    doc.merge(SbomDoc {
        dependencies: vec![Dependency {
            bom_ref: "a".into(),
            depends_on: vec!["b".into(), "c".into()],
        }],
        ..Default::default()
    });

    assert_eq!(doc.dependencies.len(), 1);
    assert_eq!(doc.dependencies[0].depends_on, ["b", "c"]);
}
