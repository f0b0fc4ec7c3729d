use universal_devops_converter::model::findings::{
    Component, Finding, FindingsDoc, Location, Severity,
};

#[test]
fn parses_linter_severity_synonyms() {
    assert_eq!(Severity::parse("WARNING"), Some(Severity::Minor));
    assert_eq!(Severity::parse("error"), Some(Severity::Major));
    assert_eq!(Severity::parse(" note "), Some(Severity::Info));
    assert_eq!(Severity::parse("nonsense"), None);
}

#[test]
fn fingerprint_is_line_independent() {
    let mut a = Finding::new("unused variable", Severity::Minor);
    a.rule_id = Some("no-unused".into());
    a.location = Location {
        path: "src/a.js".into(),
        begin_line: Some(3),
        ..Default::default()
    };
    let mut b = a.clone();
    b.location.begin_line = Some(42);

    a.ensure_fingerprint();
    b.ensure_fingerprint();
    assert_eq!(a.fingerprint, b.fingerprint);
}

#[test]
fn a_component_finding_is_identified_by_its_component() {
    // The same CVE in the same package, reported once against the image and
    // once against the lockfile, is one finding.
    let make = |path: &str, version: &str| {
        let mut finding = Finding::new("openssl is vulnerable", Severity::Critical);
        finding.rule_id = Some("CVE-2024-1234".into());
        finding.location = Location {
            path: path.into(),
            image: Some("acme/api:1.2.3".into()),
            ..Default::default()
        };
        finding.component = Some(Component {
            name: "libssl3".into(),
            version: Some(version.into()),
            ..Default::default()
        });
        finding.ensure_fingerprint();
        finding.fingerprint.unwrap()
    };

    assert_eq!(make("", "3.0.11-1"), make("package-lock.json", "3.0.11-1"));
    // A different version is a different finding: one may be fixed.
    assert_ne!(make("", "3.0.11-1"), make("", "3.0.11-2"));
}

#[test]
fn merge_drops_exact_duplicates() {
    let finding = Finding::new("dup", Severity::Minor);
    let mut doc = FindingsDoc {
        findings: vec![finding.clone()],
        ..Default::default()
    };
    doc.merge(FindingsDoc {
        findings: vec![finding],
        ..Default::default()
    });
    assert_eq!(doc.findings.len(), 1);
}
