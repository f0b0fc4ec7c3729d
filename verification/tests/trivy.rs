use serde_json::Value;

use universal_devops_converter::error::Error;
use universal_devops_converter::formats::security::trivy;
use universal_devops_converter::json::Json;
use universal_devops_converter::model::findings::{Finding, FindingsDoc, Severity};
use universal_devops_converter::registry::Doc;
use universal_devops_converter::warn::{FormatCtx, Warnings};

fn json_of(value: &Value) -> Json {
    match value {
        Value::Null => Json::Null,
        Value::Bool(flag) => Json::Bool(*flag),
        Value::Number(number) => Json::Number(number.to_string()),
        Value::String(text) => Json::Text(text.clone()),
        Value::Array(items) => Json::Array(items.iter().map(json_of).collect()),
        Value::Object(members) => Json::Object(
            members.iter().map(|(key, value)| (key.clone(), json_of(value))).collect(),
        ),
    }
}

fn parsed(input: &[u8]) -> Result<Json, Error> {
    let value: Value = serde_json::from_slice(input)
        .map_err(|e| Error::parse("json", &e.to_string()))?;
    Ok(json_of(&value))
}

fn read(input: &[u8], ctx: &mut FormatCtx) -> Result<Doc, Error> {
    trivy::read(&parsed(input)?, ctx)
}

const SAMPLE: &str = r#"{
      "SchemaVersion": 2,
      "CreatedAt": "2026-06-26T12:00:00.123456789Z",
      "ArtifactName": "acme/api:1.2.3",
      "ArtifactType": "container_image",
      "Metadata": { "OS": { "Family": "debian", "Name": "12.5" } },
      "Results": [
        {
          "Target": "acme/api:1.2.3 (debian 12.5)",
          "Class": "os-pkgs",
          "Type": "debian",
          "Vulnerabilities": [
            {
              "VulnerabilityID": "CVE-2024-1234",
              "PkgName": "libssl3",
              "InstalledVersion": "3.0.11-1",
              "FixedVersion": "3.0.11-2",
              "Title": "openssl: out-of-bounds read",
              "Description": "A very long paragraph nobody reads in a list view.",
              "Severity": "HIGH",
              "CweIDs": ["CWE-125"],
              "PrimaryURL": "https://avd.aquasec.com/nvd/cve-2024-1234",
              "References": ["https://openssl.org/news/secadv/20240101.txt"]
            }
          ]
        },
        {
          "Target": "package-lock.json",
          "Class": "lang-pkgs",
          "Type": "npm",
          "Vulnerabilities": [
            {
              "VulnerabilityID": "GHSA-abcd-1234-efgh",
              "PkgName": "lodash",
              "PkgIdentifier": { "PURL": "pkg:npm/lodash@4.17.20" },
              "InstalledVersion": "4.17.20",
              "FixedVersion": "4.17.21",
              "Title": "Prototype pollution in lodash",
              "Severity": "CRITICAL"
            }
          ]
        },
        {
          "Target": "Dockerfile",
          "Class": "config",
          "Type": "dockerfile",
          "Misconfigurations": [
            {
              "ID": "DS002",
              "Title": "Image user should not be root",
              "Message": "Specify at least 1 USER command",
              "Severity": "MEDIUM",
              "Resolution": "Add a USER command",
              "PrimaryURL": "https://avd.aquasec.com/misconfig/ds002",
              "CauseMetadata": { "StartLine": 1, "EndLine": 12 }
            }
          ]
        },
        {
          "Target": ".env",
          "Class": "secret",
          "Secrets": [
            {
              "RuleID": "aws-access-key-id",
              "Category": "AWS",
              "Severity": "CRITICAL",
              "Title": "AWS Access Key ID",
              "StartLine": 3,
              "EndLine": 3
            }
          ]
        }
      ]
    }"#;

fn parse(input: &str) -> (FindingsDoc, Warnings) {
    let mut ctx = FormatCtx::new(None);
    let doc = match read(input.as_bytes(), &mut ctx).unwrap() {
        Doc::Findings(doc) => doc,
        _ => panic!("expected a findings document"),
    };
    (doc, ctx.into_warnings())
}

fn by_rule<'a>(doc: &'a FindingsDoc, rule: &str) -> &'a Finding {
    doc.findings
        .iter()
        .find(|f| f.rule_id.as_deref() == Some(rule))
        .unwrap_or_else(|| panic!("no finding for {rule}"))
}

#[test]
fn an_os_package_is_located_by_the_image_not_a_file() {
    let (doc, _) = parse(SAMPLE);
    let finding = by_rule(&doc, "CVE-2024-1234");

    assert_eq!(finding.location.path, "");
    assert_eq!(finding.location.image.as_deref(), Some("acme/api:1.2.3"));
    assert_eq!(
        finding.location.operating_system.as_deref(),
        Some("debian 12.5")
    );
}

#[test]
fn a_language_package_is_located_by_its_manifest() {
    let (doc, _) = parse(SAMPLE);
    let finding = by_rule(&doc, "GHSA-abcd-1234-efgh");

    assert_eq!(finding.location.path, "package-lock.json");
    // Still the same image, but the operating system says nothing here.
    assert_eq!(finding.location.image.as_deref(), Some("acme/api:1.2.3"));
    assert_eq!(finding.location.operating_system, None);
}

#[test]
fn carries_the_component_and_its_fix() {
    let (doc, _) = parse(SAMPLE);
    let component = by_rule(&doc, "GHSA-abcd-1234-efgh")
        .component
        .as_ref()
        .unwrap();

    assert_eq!(component.name, "lodash");
    assert_eq!(component.version.as_deref(), Some("4.17.20"));
    assert_eq!(component.fixed_version.as_deref(), Some("4.17.21"));
    assert_eq!(component.purl.as_deref(), Some("pkg:npm/lodash@4.17.20"));
}

#[test]
fn severity_is_ordered_so_a_gitlab_round_trip_is_exact() {
    let (doc, _) = parse(SAMPLE);
    // HIGH is not the top of Trivy's scale, so it must not be the top here.
    assert_eq!(by_rule(&doc, "CVE-2024-1234").severity, Severity::Critical);
    assert_eq!(
        by_rule(&doc, "GHSA-abcd-1234-efgh").severity,
        Severity::Blocker
    );
    assert_eq!(by_rule(&doc, "DS002").severity, Severity::Major);
}

#[test]
fn prefers_the_title_over_the_essay() {
    let (doc, _) = parse(SAMPLE);
    let finding = by_rule(&doc, "CVE-2024-1234");
    assert_eq!(finding.description, "openssl: out-of-bounds read");
    assert_eq!(
        finding.help.as_deref(),
        Some("Upgrade libssl3 to 3.0.11-2.")
    );
}

#[test]
fn reads_identifiers_with_their_kind() {
    let (doc, _) = parse(SAMPLE);
    let kinds: Vec<&str> = by_rule(&doc, "CVE-2024-1234")
        .identifiers
        .iter()
        .map(|i| i.kind.as_str())
        .collect();
    assert_eq!(kinds, ["cve", "cwe"]);

    let ghsa = by_rule(&doc, "GHSA-abcd-1234-efgh");
    assert_eq!(ghsa.identifiers[0].kind, "ghsa");
}

#[test]
fn reads_misconfigurations_and_secrets_with_their_lines() {
    let (doc, _) = parse(SAMPLE);

    let misconfig = by_rule(&doc, "DS002");
    assert_eq!(misconfig.location.path, "Dockerfile");
    assert_eq!(misconfig.location.begin_line, Some(1));
    assert_eq!(misconfig.description, "Specify at least 1 USER command");
    assert!(misconfig
        .categories
        .contains(&"misconfiguration".to_string()));

    let secret = by_rule(&doc, "aws-access-key-id");
    assert_eq!(secret.location.path, ".env");
    assert_eq!(secret.location.begin_line, Some(3));
    assert!(secret.categories.contains(&"secret".to_string()));
}

#[test]
fn reads_the_scan_time() {
    let (doc, _) = parse(SAMPLE);
    assert_eq!(doc.scan.start.as_deref(), Some("2026-06-26T12:00:00"));
}

#[test]
fn a_filesystem_scan_has_no_image() {
    let (doc, _) = parse(
        r#"{"SchemaVersion":2,"ArtifactName":".","ArtifactType":"filesystem",
                "Results":[{"Target":"go.sum","Class":"lang-pkgs","Type":"gomod",
                  "Vulnerabilities":[{"VulnerabilityID":"CVE-1","PkgName":"x","Severity":"LOW"}]}]}"#,
    );
    assert_eq!(doc.findings[0].location.image, None);
    assert_eq!(doc.findings[0].location.path, "go.sum");
}

#[test]
fn a_clean_scan_is_a_valid_report() {
    let (doc, _) = parse(r#"{"SchemaVersion":2,"ArtifactName":".","Results":[]}"#);
    assert!(doc.findings.is_empty());
}

#[test]
fn rejects_schema_version_one_rather_than_misreading_it() {
    let mut ctx = FormatCtx::new(None);
    let error = read(br#"{"SchemaVersion":1,"Results":[]}"#, &mut ctx)
        .unwrap_err()
        .message();
    assert!(error.contains("structurally different"), "{error}");
}

#[test]
fn a_newer_schema_version_is_read_but_flagged() {
    let mut ctx = FormatCtx::new(None);
    read(br#"{"SchemaVersion":99,"Results":[]}"#, &mut ctx).unwrap();
    assert!(ctx.warnings().messages().iter().any(|m| m.contains("newer than")));
}

#[test]
fn rejects_json_with_no_schema_version() {
    let mut ctx = FormatCtx::new(None);
    assert!(read(br#"{"Results":[]}"#, &mut ctx).is_err());
}
