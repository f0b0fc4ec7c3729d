use serde_json::Value;

use universal_devops_converter::error::Error;
use universal_devops_converter::formats::quality::sarif::{self, Score};
use universal_devops_converter::json::Json;
use universal_devops_converter::model::findings::{
    Finding, FindingsDoc, Identifier, Location, Severity,
};
use universal_devops_converter::registry::Doc;
use universal_devops_converter::warn::{FormatCtx, Warnings};

fn json_of(value: &Value) -> Json {
    match value {
        Value::Null => Json::Null,
        Value::Bool(flag) => Json::Bool(*flag),
        Value::Number(number) => Json::Number(number.to_string()),
        Value::String(text) => Json::Text(text.clone()),
        Value::Array(items) => Json::Array(items.iter().map(json_of).collect()),
        Value::Object(members) => Json::Object(
            members.iter().map(|(key, value)| (key.clone(), json_of(value))).collect(),
        ),
    }
}

fn parsed(input: &[u8]) -> Result<Json, Error> {
    let value: Value = serde_json::from_slice(input)
        .map_err(|e| Error::parse("json", &e.to_string()))?;
    Ok(json_of(&value))
}

fn value_of(json: &Json) -> Value {
    match json {
        Json::Null => Value::Null,
        Json::Bool(flag) => Value::Bool(*flag),
        Json::Number(text) => serde_json::from_str(text).expect("a number literal"),
        Json::Text(text) => Value::String(text.clone()),
        Json::Array(items) => Value::Array(items.iter().map(value_of).collect()),
        Json::Object(members) => Value::Object(
            members.iter().map(|(key, value)| (key.clone(), value_of(value))).collect(),
        ),
    }
}

fn print(json: &Json, out: &mut Vec<u8>) {
    out.extend(serde_json::to_vec_pretty(&value_of(json)).expect("a printable document"));
}

fn score(text: String) -> Option<Score> {
    let value = text.parse::<f64>().ok()?;
    Some(Score {
        text,
        at_least_nine: value >= 9.0,
        at_least_seven: value >= 7.0,
        at_least_four: value >= 4.0,
        above_zero: value > 0.0,
    })
}

fn read(input: &[u8], ctx: &mut FormatCtx) -> Result<Doc, Error> {
    let json = parsed(input)?;
    let scores = sarif::score_texts(&json).into_iter().filter_map(score).collect();
    sarif::read(&json, &scores, ctx)
}

fn write(doc: &Doc, out: &mut Vec<u8>, ctx: &mut FormatCtx) -> Result<(), Error> {
    print(&sarif::write(doc, ctx)?, out);
    Ok(())
}

const SAMPLE: &str = r#"{
      "$schema": "https://json.schemastore.org/sarif-2.1.0.json",
      "version": "2.1.0",
      "runs": [{
        "invocations": [{
          "executionSuccessful": true,
          "startTimeUtc": "2026-06-26T12:00:00.123456Z",
          "endTimeUtc": "2026-06-26T12:00:09.987654Z"
        }],
        "tool": {"driver": {
          "name": "semgrep",
          "semanticVersion": "1.75.0",
          "rules": [{
            "id": "python.lang.security.audit",
            "name": "audit",
            "shortDescription": {"text": "Audit finding"},
            "help": {"text": "Do not do that"},
            "helpUri": "https://example.test/rule",
            "defaultConfiguration": {"level": "warning"},
            "properties": {"tags": ["security", "external/cwe/cwe-079"], "security-severity": "8.1"}
          }]
        }},
        "results": [
          {
            "ruleId": "python.lang.security.audit",
            "ruleIndex": 0,
            "message": {"text": "Dangerous call"},
            "locations": [{"physicalLocation": {
              "artifactLocation": {"uri": "file:///builds/acme/app.py"},
              "region": {"startLine": 7, "startColumn": 3, "endLine": 9}
            }}],
            "partialFingerprints": {"primaryLocationLineHash": "deadbeef"}
          },
          {
            "ruleId": "python.lang.security.audit",
            "ruleIndex": 0,
            "level": "error",
            "message": {"text": "Another one"},
            "locations": [{"physicalLocation": {"artifactLocation": {"uri": "app.py"}}}],
            "codeFlows": [{"threadFlows": []}]
          }
        ]
      }]
    }"#;

fn parse(input: &str) -> (FindingsDoc, Warnings) {
    let mut ctx = FormatCtx::new(None);
    let doc = match read(input.as_bytes(), &mut ctx).unwrap() {
        Doc::Findings(doc) => doc,
        _ => panic!("expected a findings document"),
    };
    (doc, ctx.into_warnings())
}

#[test]
fn reads_results_with_rule_metadata() {
    let (doc, _) = parse(SAMPLE);
    assert_eq!(doc.tool.as_ref().unwrap().name, "semgrep");
    assert_eq!(doc.findings.len(), 2);

    let first = &doc.findings[0];
    assert_eq!(first.description, "Dangerous call");
    assert_eq!(first.rule_id.as_deref(), Some("python.lang.security.audit"));
    assert_eq!(first.help.as_deref(), Some("Do not do that"));
    assert_eq!(first.links, vec!["https://example.test/rule".to_string()]);
    assert_eq!(first.fingerprint.as_deref(), Some("deadbeef"));
}

#[test]
fn strips_file_uris_and_keeps_the_region() {
    let (doc, _) = parse(SAMPLE);
    let location = &doc.findings[0].location;
    assert_eq!(location.path, "/builds/acme/app.py");
    assert_eq!(location.begin_line, Some(7));
    assert_eq!(location.end_line, Some(9));
    assert_eq!(location.begin_column, Some(3));
}

#[test]
fn security_severity_outranks_every_level() {
    let (doc, _) = parse(SAMPLE);
    // 8.6 → critical, even though defaultConfiguration says "warning"…
    let scored = doc
        .findings
        .iter()
        .find(|f| f.description == "Dangerous call")
        .unwrap();
    assert_eq!(scored.severity, Severity::Critical);

    // …and even though this result carries an explicit `level: "error"`.
    // The score is the more precise of the two statements.
    let explicit = doc
        .findings
        .iter()
        .find(|f| f.description == "Another one")
        .unwrap();
    assert_eq!(explicit.severity, Severity::Critical);
}

#[test]
fn level_drives_severity_when_there_is_no_score() {
    let (doc, _) = parse(
        r#"{"version":"2.1.0","runs":[{"tool":{"driver":{"name":"t"}},"results":[
                 {"ruleId":"a","level":"error","message":{"text":"x"}},
                 {"ruleId":"b","level":"note","message":{"text":"y"}},
                 {"ruleId":"c","message":{"text":"z"}}
               ]}]}"#,
    );
    let by = |d: &str| {
        doc.findings
            .iter()
            .find(|f| f.description == d)
            .unwrap()
            .severity
    };
    assert_eq!(by("x"), Severity::Major);
    assert_eq!(by("y"), Severity::Info);
    // SARIF's own default when nothing says otherwise.
    assert_eq!(by("z"), Severity::Minor);
}

#[test]
fn extracts_cwe_tags_as_identifiers() {
    let (doc, _) = parse(SAMPLE);
    let identifiers = &doc.findings[0].identifiers;
    assert_eq!(identifiers.len(), 1);
    assert_eq!(identifiers[0].value, "CWE-079");
    assert_eq!(doc.findings[0].categories, vec!["security".to_string()]);
}

#[test]
fn reports_dropped_code_flows() {
    let (_, warnings) = parse(SAMPLE);
    assert!(warnings.messages().iter().any(|w| w.contains("code flows")));
}

// ---- writing --------------------------------------------------------

fn render(doc: &FindingsDoc) -> (Value, Warnings) {
    let mut buffer = Vec::new();
    let mut ctx = FormatCtx::new(Some("2.1.0"));
    write(&Doc::Findings(doc.clone()), &mut buffer, &mut ctx).unwrap();
    (
        serde_json::from_slice(&buffer).expect("the writer emits valid JSON"),
        ctx.into_warnings(),
    )
}

fn finding(rule: Option<&str>, description: &str, severity: Severity) -> Finding {
    let mut finding = Finding::new(description, severity);
    finding.rule_id = rule.map(str::to_string);
    finding.location = Location {
        path: "src/a.js".into(),
        begin_line: Some(3),
        ..Default::default()
    };
    finding
}

#[test]
fn builds_a_rule_table_deduplicated_by_rule_id() {
    let doc = FindingsDoc {
        findings: vec![
            finding(Some("no-var"), "Unexpected var", Severity::Minor),
            finding(Some("no-var"), "Unexpected var", Severity::Minor),
            finding(Some("semi"), "Missing semicolon", Severity::Major),
        ],
        ..Default::default()
    };
    let (json, _) = render(&doc);

    let rules = &json["runs"][0]["tool"]["driver"]["rules"];
    assert_eq!(rules.as_array().unwrap().len(), 2);
    assert_eq!(rules[0]["id"], "no-var");
    assert_eq!(rules[1]["id"], "semi");

    // Results point at the table by index, and the two `no-var` findings
    // share one entry.
    let results = json["runs"][0]["results"].as_array().unwrap();
    assert_eq!(results[0]["ruleIndex"], 0);
    assert_eq!(results[1]["ruleIndex"], 0);
    assert_eq!(results[2]["ruleIndex"], 1);
}

#[test]
fn reports_conflicting_metadata_for_one_rule() {
    let doc = FindingsDoc {
        findings: vec![
            finding(Some("no-var"), "Unexpected var", Severity::Minor),
            finding(Some("no-var"), "Something else entirely", Severity::Minor),
        ],
        ..Default::default()
    };
    let (json, warnings) = render(&doc);

    // First one wins…
    assert_eq!(
        json["runs"][0]["tool"]["driver"]["rules"][0]["shortDescription"]["text"],
        "Unexpected var"
    );
    // …and that is not silent.
    assert!(warnings
        .messages()
        .iter()
        .any(|m| m.contains("disagreed on its metadata")));
}

#[test]
fn security_severity_is_reserved_for_findings_with_identifiers() {
    let mut lint = finding(Some("no-var"), "style nit", Severity::Critical);
    let mut vuln = finding(Some("cwe-79"), "XSS", Severity::Critical);
    vuln.identifiers.push(Identifier {
        kind: "cwe".into(),
        value: "CWE-079".into(),
        url: None,
    });
    lint.location.path = "a.js".into();
    vuln.location.path = "b.js".into();

    let (json, warnings) = render(&FindingsDoc {
        findings: vec![lint, vuln],
        ..Default::default()
    });
    let rules = &json["runs"][0]["tool"]["driver"]["rules"];

    // A style lint must not be filed as a security finding…
    assert!(rules[0]["properties"]["security-severity"].is_null());
    // …while a real one keeps its rank, which `level` alone cannot express.
    assert_eq!(rules[1]["properties"]["security-severity"], "8.0");
    assert!(warnings
        .messages()
        .iter()
        .any(|m| m.contains("collapsed to level")));
}

#[test]
fn findings_without_a_rule_id_are_still_emitted() {
    let (json, warnings) = render(&FindingsDoc {
        findings: vec![finding(None, "no rule here", Severity::Minor)],
        ..Default::default()
    });

    let result = &json["runs"][0]["results"][0];
    assert!(result["ruleId"].is_null());
    assert!(result["ruleIndex"].is_null());
    assert_eq!(result["message"]["text"], "no rule here");
    assert!(warnings.messages().iter().any(|m| m.contains("no rule id")));
}

#[test]
fn a_security_finding_keeps_its_severity_across_a_round_trip() {
    let (doc, _) = parse(SAMPLE);
    let original = doc
        .findings
        .iter()
        .find(|f| f.description == "Dangerous call")
        .unwrap()
        .clone();
    assert_eq!(original.severity, Severity::Critical);

    let mut buffer = Vec::new();
    let mut ctx = FormatCtx::new(Some("2.1.0"));
    write(&Doc::Findings(doc), &mut buffer, &mut ctx).unwrap();

    let (again, _) = parse(std::str::from_utf8(&buffer).unwrap());
    let reread = again
        .findings
        .iter()
        .find(|f| f.description == "Dangerous call")
        .unwrap();
    assert_eq!(reread.severity, Severity::Critical);
    assert_eq!(reread.location, original.location);
    assert_eq!(reread.fingerprint, original.fingerprint);
}

#[test]
fn reads_the_scan_window_and_the_semantic_version() {
    let (doc, _) = parse(SAMPLE);
    assert_eq!(doc.scan.start.as_deref(), Some("2026-06-26T12:00:00"));
    assert_eq!(doc.scan.end.as_deref(), Some("2026-06-26T12:00:09"));
    // semgrep fills in semanticVersion, not version.
    assert_eq!(
        doc.tool.as_ref().unwrap().version.as_deref(),
        Some("1.75.0")
    );
}

#[test]
fn a_malformed_timestamp_is_ignored_rather_than_propagated() {
    let (doc, _) = parse(
        r#"{"version":"2.1.0","runs":[{"tool":{"driver":{"name":"t"}},
                 "invocations":[{"startTimeUtc":"yesterday"}],"results":[]}]}"#,
    );
    assert_eq!(doc.scan.start, None);
}

#[test]
fn rejects_json_without_runs() {
    let mut ctx = FormatCtx::new(None);
    assert!(read(br#"{"version":"2.1.0"}"#, &mut ctx).is_err());
}

#[test]
fn rejects_sarif_1_x_as_a_different_format() {
    let mut ctx = FormatCtx::new(Some("2.1.0"));
    let error = read(br#"{"version":"1.0.0","runs":[{"results":[]}]}"#, &mut ctx)
        .unwrap_err()
        .message();
    assert!(error.contains("structurally different"), "{error}");
}

#[test]
fn flags_a_mismatch_with_the_pinned_version() {
    let mut ctx = FormatCtx::new(Some("2.1.0"));
    read(br#"{"version":"2.0.0","runs":[{"results":[]}]}"#, &mut ctx).unwrap();
    assert!(ctx
        .warnings()
        .messages()
        .iter()
        .any(|m| m.contains("declares version 2.0.0")));
}

#[test]
fn accepts_a_document_with_no_declared_version() {
    let mut ctx = FormatCtx::new(Some("2.1.0"));
    read(br#"{"runs":[{"results":[]}]}"#, &mut ctx).unwrap();
    assert!(ctx.warnings().is_empty());
}

#[test]
fn fixes_and_taxonomies_are_reported_as_dropped() {
    let (_, warnings) = parse(
        r#"{"version":"2.1.0","runs":[{
             "taxonomies":[{"name":"CWE"}],
             "results":[{"ruleId":"r","message":{"text":"m"},"fixes":[{"description":{"text":"f"}}]}]
           }]}"#,
    );
    assert!(warnings.messages().iter().any(|m| m.contains("fixes")));
    assert!(warnings.messages().iter().any(|m| m.contains("taxonomies")));
}

#[test]
fn any_metadata_of_a_rule_can_conflict() {
    let base = || finding(Some("no-var"), "Unexpected var", Severity::Minor);
    let conflicting = |other: Finding| {
        let doc = FindingsDoc {
            findings: vec![base(), other],
            ..Default::default()
        };
        let (json, warnings) = render(&doc);
        assert_eq!(
            json["runs"][0]["tool"]["driver"]["rules"].as_array().unwrap().len(),
            1
        );
        warnings
            .messages()
            .iter()
            .any(|m| m.contains("disagreed on its metadata"))
    };
    let mut helped = base();
    helped.help = Some("use let".into());
    let mut linked = base();
    linked.links = vec!["https://example.com/no-var".into()];
    let mut tagged = base();
    tagged.identifiers = vec![Identifier {
        kind: "cwe".into(),
        value: "CWE-79".into(),
        url: None,
    }];
    let mut placed = base();
    placed.location.begin_line = Some(4);

    assert!(conflicting(helped));
    assert!(conflicting(linked));
    assert!(conflicting(tagged));
    assert!(!conflicting(base()));
    assert!(!conflicting(placed));
}
