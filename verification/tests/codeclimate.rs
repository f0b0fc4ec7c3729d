use serde_json::Value;

use universal_devops_converter::error::Error;
use universal_devops_converter::formats::quality::codeclimate;
use universal_devops_converter::json::Json;
use universal_devops_converter::model::findings::{Finding, FindingsDoc, Severity};
use universal_devops_converter::registry::Doc;
use universal_devops_converter::warn::{FormatCtx, Warnings};

fn json_of(value: &Value) -> Json {
    match value {
        Value::Null => Json::Null,
        Value::Bool(flag) => Json::Bool(*flag),
        Value::Number(number) => Json::Number(number.to_string()),
        Value::String(text) => Json::Text(text.clone()),
        Value::Array(items) => Json::Array(items.iter().map(json_of).collect()),
        Value::Object(members) => Json::Object(
            members.iter().map(|(key, value)| (key.clone(), json_of(value))).collect(),
        ),
    }
}

fn parsed(input: &[u8]) -> Result<Json, Error> {
    let value: Value = serde_json::from_slice(input)
        .map_err(|e| Error::parse("json", &e.to_string()))?;
    Ok(json_of(&value))
}

fn value_of(json: &Json) -> Value {
    match json {
        Json::Null => Value::Null,
        Json::Bool(flag) => Value::Bool(*flag),
        Json::Number(text) => serde_json::from_str(text).expect("a number literal"),
        Json::Text(text) => Value::String(text.clone()),
        Json::Array(items) => Value::Array(items.iter().map(value_of).collect()),
        Json::Object(members) => Value::Object(
            members.iter().map(|(key, value)| (key.clone(), value_of(value))).collect(),
        ),
    }
}

fn print(json: &Json, out: &mut Vec<u8>) {
    out.extend(serde_json::to_vec_pretty(&value_of(json)).expect("a printable document"));
}

fn read(input: &[u8], ctx: &mut FormatCtx) -> Result<Doc, Error> {
    codeclimate::read(&parsed(input)?, ctx)
}

fn emit(doc: &Doc, out: &mut Vec<u8>, ctx: &mut FormatCtx, gitlab: bool) -> Result<(), Error> {
    print(&codeclimate::emit(doc, ctx, gitlab)?, out);
    Ok(())
}

const SAMPLE: &str = r#"[
      {
        "type": "issue",
        "check_name": "no-var",
        "description": "Unexpected var",
        "categories": ["Style"],
        "location": {"path": "src/app.js", "lines": {"begin": 12, "end": 12}},
        "severity": "minor",
        "fingerprint": "abc123"
      },
      {
        "check_name": "complexity",
        "content": {"body": "Split this function"},
        "location": {"path": "src/app.js", "positions": {"begin": {"line": 40, "column": 3}}},
        "severity": "major"
      }
    ]"#;

fn parse(input: &str) -> FindingsDoc {
    let mut ctx = FormatCtx::new(None);
    match read(input.as_bytes(), &mut ctx).unwrap() {
        Doc::Findings(doc) => doc,
        _ => panic!("expected a findings document"),
    }
}

fn render(doc: &FindingsDoc, gitlab: bool) -> (String, Warnings) {
    let mut buffer = Vec::new();
    let mut ctx = FormatCtx::new(None);
    emit(&Doc::Findings(doc.clone()), &mut buffer, &mut ctx, gitlab).unwrap();
    (String::from_utf8(buffer).unwrap(), ctx.into_warnings())
}

#[test]
fn reads_both_lines_and_positions_locations() {
    let doc = parse(SAMPLE);
    assert_eq!(doc.findings.len(), 2);
    assert_eq!(doc.findings[0].location.begin_line, Some(12));
    assert_eq!(doc.findings[0].fingerprint.as_deref(), Some("abc123"));

    let second = &doc.findings[1];
    assert_eq!(second.location.begin_line, Some(40));
    assert_eq!(second.location.begin_column, Some(3));
    assert_eq!(second.description, "Split this function");
    // Missing in the source, so it must have been synthesized.
    assert!(second.fingerprint.is_some());
}

#[test]
fn gitlab_output_keeps_only_the_subset_gitlab_reads() {
    let (json, warnings) = render(&parse(SAMPLE), true);
    assert!(json.contains(r#""check_name": "no-var""#));
    assert!(json.contains(r#""fingerprint""#));
    assert!(!json.contains("categories"));
    assert!(!json.contains("positions"));
    assert!(warnings.messages().iter().any(|w| w.contains("categories")));
}

#[test]
fn full_output_keeps_categories_and_positions() {
    let (json, _) = render(&parse(SAMPLE), false);
    assert!(json.contains(r#""categories""#));
    assert!(json.contains(r#""positions""#));
}

#[test]
fn round_trips_through_the_full_writer() {
    let doc = parse(SAMPLE);
    let (json, _) = render(&doc, false);
    let again = parse(&json);
    assert_eq!(again.findings.len(), doc.findings.len());
    assert_eq!(again.findings[0].fingerprint, doc.findings[0].fingerprint);
    assert_eq!(again.findings[1].location, doc.findings[1].location);
}

#[test]
fn every_emitted_issue_carries_a_fingerprint_and_a_begin_line() {
    let mut doc = FindingsDoc::default();
    doc.findings
        .push(Finding::new("file-wide", Severity::Major));
    let (json, _) = render(&doc, true);
    assert!(json.contains(r#""begin": 1"#));
    assert!(json.contains(r#""fingerprint""#));
}

#[test]
fn a_dropped_end_line_is_reported() {
    let mut doc = FindingsDoc::default();
    let mut ranged = Finding::new("long", Severity::Major);
    ranged.location.path = "a.js".into();
    ranged.location.begin_line = Some(3);
    ranged.location.end_line = Some(9);
    doc.findings.push(ranged);
    let told = |gitlab: bool| {
        let (json, warnings) = render(&doc, gitlab);
        assert_eq!(json.contains(r#""end": 9"#), !gitlab, "{json}");
        warnings.messages().iter().any(|w| w.contains("end lines"))
    };
    assert!(told(true));
    assert!(!told(false));
}
