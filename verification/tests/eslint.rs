use serde_json::Value;

use universal_devops_converter::error::Error;
use universal_devops_converter::formats::quality::eslint;
use universal_devops_converter::json::Json;
use universal_devops_converter::model::findings::{FindingsDoc, Severity};
use universal_devops_converter::registry::Doc;
use universal_devops_converter::warn::{FormatCtx, Warnings};

fn json_of(value: &Value) -> Json {
    match value {
        Value::Null => Json::Null,
        Value::Bool(flag) => Json::Bool(*flag),
        Value::Number(number) => Json::Number(number.to_string()),
        Value::String(text) => Json::Text(text.clone()),
        Value::Array(items) => Json::Array(items.iter().map(json_of).collect()),
        Value::Object(members) => Json::Object(
            members.iter().map(|(key, value)| (key.clone(), json_of(value))).collect(),
        ),
    }
}

fn parsed(input: &[u8]) -> Result<Json, Error> {
    let value: Value = serde_json::from_slice(input)
        .map_err(|e| Error::parse("json", &e.to_string()))?;
    Ok(json_of(&value))
}

fn read(input: &[u8], ctx: &mut FormatCtx) -> Result<Doc, Error> {
    eslint::read(&parsed(input)?, ctx)
}

const SAMPLE: &str = r#"[
      {
        "filePath": "/home/runner/work/acme/acme/src/index.js",
        "messages": [
          {
            "ruleId": "no-unused-vars",
            "severity": 2,
            "message": "'fs' is defined but never used.",
            "line": 3,
            "column": 1,
            "nodeType": "Identifier",
            "messageId": "unusedVar",
            "endLine": 3,
            "endColumn": 10
          },
          {
            "ruleId": "no-var",
            "severity": 1,
            "message": "Unexpected var, use let or const instead.",
            "line": 11,
            "column": 5,
            "endLine": 11,
            "endColumn": 8,
            "fix": { "range": [120, 123], "text": "let" }
          }
        ],
        "suppressedMessages": [
          { "ruleId": "no-console", "severity": 1, "message": "Unexpected console statement.",
            "line": 20, "column": 3 }
        ],
        "errorCount": 1,
        "warningCount": 1
      },
      {
        "filePath": "/home/runner/work/acme/acme/src/broken.js",
        "messages": [
          {
            "ruleId": null,
            "fatal": true,
            "severity": 2,
            "message": "Parsing error: Unexpected token }",
            "line": 7,
            "column": 1
          }
        ],
        "suppressedMessages": [],
        "errorCount": 1,
        "warningCount": 0
      },
      { "filePath": "/home/runner/work/acme/acme/src/clean.js", "messages": [],
        "suppressedMessages": [], "errorCount": 0, "warningCount": 0 }
    ]"#;

fn parse(input: &str) -> (FindingsDoc, Warnings) {
    let mut ctx = FormatCtx::new(None);
    let doc = match read(input.as_bytes(), &mut ctx).unwrap() {
        Doc::Findings(doc) => doc,
        _ => panic!("expected a findings document"),
    };
    (doc, ctx.into_warnings())
}

#[test]
fn maps_eslint_levels_onto_the_pivot() {
    let (doc, _) = parse(SAMPLE);
    assert_eq!(doc.findings.len(), 3);

    let by = |rule: &str| {
        doc.findings
            .iter()
            .find(|f| f.rule_id.as_deref() == Some(rule))
            .unwrap()
    };
    assert_eq!(by("no-unused-vars").severity, Severity::Major);
    assert_eq!(by("no-var").severity, Severity::Minor);
}

#[test]
fn a_parse_error_outranks_a_rule_violation_and_gets_a_name() {
    let (doc, _) = parse(SAMPLE);
    let fatal = doc
        .findings
        .iter()
        .find(|f| f.description.starts_with("Parsing error"))
        .unwrap();

    // The file was not linted at all, which is worse than anything found
    // in a file that was.
    assert_eq!(fatal.severity, Severity::Critical);
    // `ruleId` is null on a parse error; without a stand-in the finding
    // would land as `check_name: unknown`.
    assert_eq!(fatal.rule_id.as_deref(), Some("fatal-parse-error"));
}

#[test]
fn keeps_the_range_that_the_checkstyle_formatter_would_have_dropped() {
    let (doc, _) = parse(SAMPLE);
    let finding = doc
        .findings
        .iter()
        .find(|f| f.rule_id.as_deref() == Some("no-unused-vars"))
        .unwrap();
    assert_eq!(
        finding.location.path,
        "/home/runner/work/acme/acme/src/index.js"
    );
    assert_eq!(finding.location.begin_line, Some(3));
    assert_eq!(finding.location.end_line, Some(3));
    assert_eq!(finding.location.begin_column, Some(1));
    assert_eq!(finding.location.end_column, Some(10));
}

#[test]
fn suppressed_messages_are_dropped_and_reported() {
    let (doc, warnings) = parse(SAMPLE);
    assert!(!doc
        .findings
        .iter()
        .any(|f| f.rule_id.as_deref() == Some("no-console")));
    assert!(warnings.messages().iter().any(|m| m.contains("suppressed")));
}

#[test]
fn reports_autofixes_it_cannot_carry() {
    let (_, warnings) = parse(SAMPLE);
    assert!(warnings.messages().iter().any(|m| m.contains("autofixes")));
}

#[test]
fn a_file_with_no_message_contributes_nothing() {
    let (doc, _) = parse(SAMPLE);
    assert!(!doc
        .findings
        .iter()
        .any(|f| f.location.path.ends_with("clean.js")));
}

#[test]
fn rejects_an_array_that_is_not_eslint_output() {
    let mut ctx = FormatCtx::new(None);
    assert!(read(br#"[{"check_name":"x","description":"y"}]"#, &mut ctx).is_err());
    assert!(read(b"[]", &mut ctx).is_err());
}
