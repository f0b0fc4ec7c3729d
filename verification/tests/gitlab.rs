use serde_json::Value;

use universal_devops_converter::error::Error;
use universal_devops_converter::formats::security::gitlab::{
    self, SCHEMA_VERSION, UNKNOWN_TIME, severity_of,
};
use universal_devops_converter::json::Json;
use universal_devops_converter::model::findings::{
    Component, Finding, FindingsDoc, Identifier, Location as PivotLocation, ScanWindow, Severity,
    Tool,
};
use universal_devops_converter::registry::Doc;
use universal_devops_converter::warn::{FormatCtx, Warnings};

fn value_of(json: &Json) -> Value {
    match json {
        Json::Null => Value::Null,
        Json::Bool(flag) => Value::Bool(*flag),
        Json::Number(text) => serde_json::from_str(text).expect("a number literal"),
        Json::Text(text) => Value::String(text.clone()),
        Json::Array(items) => Value::Array(items.iter().map(value_of).collect()),
        Json::Object(members) => Value::Object(
            members.iter().map(|(key, value)| (key.clone(), value_of(value))).collect(),
        ),
    }
}

fn print(json: &Json, out: &mut Vec<u8>) {
    out.extend(serde_json::to_vec_pretty(&value_of(json)).expect("a printable document"));
}

fn write_sast(doc: &Doc, out: &mut Vec<u8>, ctx: &mut FormatCtx) -> Result<(), Error> {
    print(&gitlab::write_sast(doc, ctx)?, out);
    Ok(())
}

fn write_dependency_scanning(doc: &Doc, out: &mut Vec<u8>, ctx: &mut FormatCtx) -> Result<(), Error> {
    print(&gitlab::write_dependency_scanning(doc, ctx)?, out);
    Ok(())
}

fn write_container_scanning(doc: &Doc, out: &mut Vec<u8>, ctx: &mut FormatCtx) -> Result<(), Error> {
    print(&gitlab::write_container_scanning(doc, ctx)?, out);
    Ok(())
}

fn render(doc: &FindingsDoc) -> (Value, Warnings) {
    let mut buffer = Vec::new();
    let mut ctx = FormatCtx::new(Some(SCHEMA_VERSION));
    write_sast(&Doc::Findings(doc.clone()), &mut buffer, &mut ctx).unwrap();
    (
        serde_json::from_slice(&buffer).expect("the writer emits valid JSON"),
        ctx.into_warnings(),
    )
}

fn finding(rule: Option<&str>, severity: Severity) -> Finding {
    let mut finding = Finding::new("Dangerous call", severity);
    finding.rule_id = rule.map(str::to_string);
    finding.location = PivotLocation {
        path: "app/shell.py".into(),
        begin_line: Some(12),
        end_line: Some(14),
        ..Default::default()
    };
    finding.ensure_fingerprint();
    finding
}

fn render_as(
    doc: &FindingsDoc,
    write: fn(&Doc, &mut Vec<u8>, &mut FormatCtx) -> Result<(), Error>,
) -> (Value, Warnings) {
    let mut buffer = Vec::new();
    let mut ctx = FormatCtx::new(Some(SCHEMA_VERSION));
    write(&Doc::Findings(doc.clone()), &mut buffer, &mut ctx).unwrap();
    (
        serde_json::from_slice(&buffer).expect("the writer emits valid JSON"),
        ctx.into_warnings(),
    )
}

/// A vulnerable npm package declared in a lock file: expressible as
/// dependency scanning, and not as container scanning.
fn lang_package() -> Finding {
    let mut finding = Finding::new("Prototype pollution in lodash", Severity::Blocker);
    finding.rule_id = Some("GHSA-abcd".into());
    finding.location = PivotLocation {
        path: "package-lock.json".into(),
        ..Default::default()
    };
    finding.component = Some(Component {
        name: "lodash".into(),
        version: Some("4.17.20".into()),
        fixed_version: Some("4.17.21".into()),
        purl: None,
    });
    finding.ensure_fingerprint();
    finding
}

/// An operating-system package inside an image: the mirror case.
fn os_package() -> Finding {
    let mut finding = Finding::new("openssl: out-of-bounds read", Severity::Critical);
    finding.rule_id = Some("CVE-2024-1234".into());
    finding.location = PivotLocation {
        image: Some("acme/api:1.2.3".into()),
        operating_system: Some("debian 12.5".into()),
        ..Default::default()
    };
    finding.component = Some(Component {
        name: "libssl3".into(),
        version: Some("3.0.11-1".into()),
        fixed_version: Some("3.0.11-2".into()),
        purl: None,
    });
    finding.ensure_fingerprint();
    finding
}

#[test]
fn dependency_scanning_keeps_manifest_packages_and_drops_the_rest() {
    let doc = FindingsDoc {
        findings: vec![lang_package(), os_package()],
        ..Default::default()
    };
    let (json, warnings) = render_as(&doc, write_dependency_scanning);

    assert_eq!(json["scan"]["type"], "dependency_scanning");
    let vulns = json["vulnerabilities"].as_array().unwrap();
    assert_eq!(vulns.len(), 1, "an OS package has no manifest file");
    assert_eq!(vulns[0]["location"]["file"], "package-lock.json");
    assert_eq!(
        vulns[0]["location"]["dependency"]["package"]["name"],
        "lodash"
    );
    assert_eq!(vulns[0]["location"]["dependency"]["version"], "4.17.20");
    // Dropping is deliberate, so it is counted rather than silent.
    assert!(warnings
        .messages()
        .iter()
        .any(|m| m.contains("file path and a named package")));
}

#[test]
fn container_scanning_keeps_image_packages_and_drops_the_rest() {
    let doc = FindingsDoc {
        findings: vec![lang_package(), os_package()],
        ..Default::default()
    };
    let (json, warnings) = render_as(&doc, write_container_scanning);

    assert_eq!(json["scan"]["type"], "container_scanning");
    let vulns = json["vulnerabilities"].as_array().unwrap();
    assert_eq!(vulns.len(), 1, "a lock-file package has no image");
    assert_eq!(vulns[0]["location"]["image"], "acme/api:1.2.3");
    assert_eq!(vulns[0]["location"]["operating_system"], "debian 12.5");
    assert_eq!(
        vulns[0]["location"]["dependency"]["package"]["name"],
        "libssl3"
    );
    // A container location has no file at all.
    assert!(vulns[0]["location"]["file"].is_null());
    assert!(warnings
        .messages()
        .iter()
        .any(|m| m.contains("image, an operating system")));
}

#[test]
fn a_package_with_no_version_is_kept_with_an_empty_one() {
    let mut finding = lang_package();
    finding.component.as_mut().unwrap().version = None;
    let (json, warnings) = render_as(
        &FindingsDoc {
            findings: vec![finding],
            ..Default::default()
        },
        write_dependency_scanning,
    );

    // The schema requires the field; losing the vulnerability would be the
    // worse trade.
    assert_eq!(
        json["vulnerabilities"][0]["location"]["dependency"]["version"],
        ""
    );
    assert!(warnings
        .messages()
        .iter()
        .any(|m| m.contains("no package version")));
}

#[test]
fn the_three_profiles_declare_their_own_scan_type() {
    let doc = FindingsDoc {
        findings: vec![lang_package()],
        ..Default::default()
    };
    assert_eq!(render_as(&doc, write_sast).0["scan"]["type"], "sast");
    assert_eq!(
        render_as(&doc, write_dependency_scanning).0["scan"]["type"],
        "dependency_scanning"
    );
    assert_eq!(
        render_as(&doc, write_container_scanning).0["scan"]["type"],
        "container_scanning"
    );
}

#[test]
fn gitlab_maps_the_five_pivot_levels_without_collapsing_any() {
    let mapped: Vec<&str> = [
        Severity::Info,
        Severity::Minor,
        Severity::Major,
        Severity::Critical,
        Severity::Blocker,
    ]
    .iter()
    .map(|s| severity_of(*s))
    .collect();

    assert_eq!(mapped, ["Info", "Low", "Medium", "High", "Critical"]);
    let unique: std::collections::HashSet<_> = mapped.iter().collect();
    assert_eq!(unique.len(), mapped.len(), "a severity was collapsed");
}

#[test]
fn gitlab_synthesizes_an_identifier_from_the_rule_when_there_is_none() {
    let (json, _) = render(&FindingsDoc {
        findings: vec![finding(Some("dangerous-subprocess"), Severity::Major)],
        ..Default::default()
    });

    let identifiers = &json["vulnerabilities"][0]["identifiers"];
    assert_eq!(identifiers.as_array().unwrap().len(), 1);
    assert_eq!(identifiers[0]["type"], "udc_rule");
    assert_eq!(identifiers[0]["value"], "dangerous-subprocess");
}

#[test]
fn gitlab_keeps_real_identifiers_when_the_finding_has_them() {
    let mut vuln = finding(Some("xss"), Severity::Critical);
    vuln.identifiers.push(Identifier {
        kind: "CWE".into(),
        value: "CWE-079".into(),
        url: Some("https://cwe.mitre.org/data/definitions/79.html".into()),
    });

    let (json, _) = render(&FindingsDoc {
        findings: vec![vuln],
        ..Default::default()
    });
    let identifier = &json["vulnerabilities"][0]["identifiers"][0];
    assert_eq!(identifier["type"], "cwe");
    assert_eq!(identifier["value"], "CWE-079");
    assert_eq!(json["vulnerabilities"][0]["severity"], "High");
}

#[test]
fn gitlab_drops_a_finding_that_could_not_satisfy_the_schema() {
    let (json, warnings) = render(&FindingsDoc {
        findings: vec![finding(None, Severity::Minor)],
        ..Default::default()
    });

    // Better one finding short than a document GitLab rejects entirely.
    assert!(json["vulnerabilities"].as_array().unwrap().is_empty());
    assert!(warnings.messages().iter().any(|m| m.contains("were dropped")));
}

#[test]
fn gitlab_an_absent_scan_window_is_reproducible_and_admitted() {
    let doc = FindingsDoc {
        findings: vec![finding(Some("r"), Severity::Major)],
        ..Default::default()
    };
    let (json, warnings) = render(&doc);

    assert_eq!(json["scan"]["start_time"], UNKNOWN_TIME);
    assert!(warnings.messages().iter().any(|m| m.contains("scan window")));

    let (again, _) = render(&doc);
    assert_eq!(json, again, "output must not depend on the clock");
}

#[test]
fn gitlab_a_scan_window_from_the_source_is_used_as_is() {
    let (json, warnings) = render(&FindingsDoc {
        scan: ScanWindow {
            start: Some("2026-06-26T12:00:00".into()),
            end: Some("2026-06-26T12:00:09".into()),
        },
        tool: Some(Tool {
            name: "semgrep".into(),
            version: Some("1.75.0".into()),
            url: None,
        }),
        findings: vec![finding(Some("r"), Severity::Major)],
    });

    assert_eq!(json["scan"]["start_time"], "2026-06-26T12:00:00");
    assert_eq!(json["scan"]["scanner"]["name"], "semgrep");
    assert!(!warnings.messages().iter().any(|m| m.contains("scan window")));
}

#[test]
fn gitlab_the_id_is_uuid_shaped_whatever_the_source_fingerprint_looks_like() {
    for fingerprint in [
        None,                                     // nothing to go on
        Some("7d0a8f6c1b2e"),                     // SARIF's short matchBasedId
        Some("9f2c1a4b6d8e0f3a5c7b9d1e2f4a6b8c"), // already 128 bits
    ] {
        let mut f = finding(Some("r"), Severity::Major);
        f.fingerprint = fingerprint.map(str::to_string);
        let (json, _) = render(&FindingsDoc {
            findings: vec![f],
            ..Default::default()
        });
        let id = json["vulnerabilities"][0]["id"].as_str().unwrap();
        assert_eq!(id.len(), 36, "{fingerprint:?} produced {id}");
        assert_eq!(id.matches('-').count(), 4, "{fingerprint:?} produced {id}");
    }
}

#[test]
fn gitlab_the_id_is_stable_and_follows_the_source_fingerprint() {
    let make = |fingerprint: &str| {
        let mut f = finding(Some("r"), Severity::Major);
        f.fingerprint = Some(fingerprint.to_string());
        render(&FindingsDoc {
            findings: vec![f],
            ..Default::default()
        })
        .0["vulnerabilities"][0]["id"]
            .as_str()
            .unwrap()
            .to_string()
    };
    assert_eq!(make("abc"), make("abc"));
    assert_ne!(make("abc"), make("def"));
}
