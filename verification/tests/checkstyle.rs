use universal_devops_converter::formats::quality::checkstyle::read;
use universal_devops_converter::model::findings::{FindingsDoc, Severity};
use universal_devops_converter::registry::Doc;
use universal_devops_converter::warn::FormatCtx;

const SAMPLE: &str = r#"<?xml version="1.0" encoding="UTF-8"?>
<checkstyle version="8.36">
  <file name="./src/app.js">
    <error line="12" column="5" severity="warning" message="Unexpected var" source="no-var"/>
    <error line="30" severity="error" message="Missing semicolon" source="semi"/>
  </file>
  <file name="src/clean.js"/>
</checkstyle>
"#;

fn parse(input: &str) -> FindingsDoc {
    let mut ctx = FormatCtx::new(None);
    match read(input.as_bytes(), &mut ctx).unwrap() {
        Doc::Findings(doc) => doc,
        _ => panic!("expected a findings document"),
    }
}

#[test]
fn reads_findings_with_normalized_paths_and_severities() {
    let doc = parse(SAMPLE);
    assert_eq!(doc.findings.len(), 2);
    assert_eq!(doc.tool.as_ref().unwrap().version.as_deref(), Some("8.36"));

    let first = &doc.findings[0];
    assert_eq!(first.location.path, "src/app.js");
    assert_eq!(first.location.begin_line, Some(12));
    assert_eq!(first.location.begin_column, Some(5));
    assert_eq!(first.severity, Severity::Minor);
    assert_eq!(first.rule_id.as_deref(), Some("no-var"));

    assert_eq!(doc.findings[1].severity, Severity::Major);
}

#[test]
fn synthesizes_a_fingerprint_for_every_finding() {
    let doc = parse(SAMPLE);
    assert!(doc.findings.iter().all(|f| f.fingerprint.is_some()));
    assert_ne!(doc.findings[0].fingerprint, doc.findings[1].fingerprint);
}

#[test]
fn rejects_input_without_a_checkstyle_root() {
    let mut ctx = FormatCtx::new(None);
    assert!(read(b"<pmd/>", &mut ctx).is_err());
}
