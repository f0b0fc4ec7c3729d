use serde_json::Value;

use universal_devops_converter::error::Error;
use universal_devops_converter::formats::coverage::istanbul;
use universal_devops_converter::json::Json;
use universal_devops_converter::model::coverage::{Branch, CoverageDoc};
use universal_devops_converter::registry::Doc;
use universal_devops_converter::warn::FormatCtx;

fn json_of(value: &Value) -> Json {
    match value {
        Value::Null => Json::Null,
        Value::Bool(flag) => Json::Bool(*flag),
        Value::Number(number) => Json::Number(number.to_string()),
        Value::String(text) => Json::Text(text.clone()),
        Value::Array(items) => Json::Array(items.iter().map(json_of).collect()),
        Value::Object(members) => Json::Object(
            members.iter().map(|(key, value)| (key.clone(), json_of(value))).collect(),
        ),
    }
}

fn parsed(input: &[u8]) -> Result<Json, Error> {
    let value: Value = serde_json::from_slice(input)
        .map_err(|e| Error::parse("json", &e.to_string()))?;
    Ok(json_of(&value))
}

fn read(input: &[u8], ctx: &mut FormatCtx) -> Result<Doc, Error> {
    istanbul::read(&parsed(input)?, ctx)
}

const NYC: &str = r#"{
      "/home/runner/work/acme/acme/src/index.js": {
        "path": "/home/runner/work/acme/acme/src/index.js",
        "statementMap": {
          "0": { "start": { "line": 1, "column": 0 }, "end": { "line": 1, "column": 24 } },
          "1": { "start": { "line": 4, "column": 2 }, "end": { "line": 4, "column": 30 } },
          "2": { "start": { "line": 4, "column": 32 }, "end": { "line": 4, "column": 48 } },
          "3": { "start": { "line": 8, "column": 2 }, "end": { "line": 8, "column": 12 } }
        },
        "fnMap": {
          "0": {
            "name": "handler",
            "decl": { "start": { "line": 3, "column": 9 }, "end": { "line": 3, "column": 16 } },
            "loc": { "start": { "line": 3, "column": 25 }, "end": { "line": 9, "column": 1 } }
          }
        },
        "branchMap": {
          "0": {
            "type": "if",
            "loc": { "start": { "line": 6, "column": 2 }, "end": { "line": 7, "column": 3 } },
            "locations": [
              { "start": { "line": 6, "column": 2 } },
              { "start": { "line": 6, "column": 2 } }
            ]
          }
        },
        "s": { "0": 4, "1": 2, "2": 7, "3": 0 },
        "f": { "0": 4 },
        "b": { "0": [3, 0] }
      }
    }"#;

fn parse(input: &str) -> CoverageDoc {
    let mut ctx = FormatCtx::new(None);
    match read(input.as_bytes(), &mut ctx).unwrap() {
        Doc::Coverage(doc) => doc,
        _ => panic!("expected a coverage document"),
    }
}

#[test]
fn collapses_positions_onto_lines() {
    let doc = parse(NYC);
    assert_eq!(doc.files.len(), 1);

    let file = &doc.files[0];
    assert_eq!(file.path, "/home/runner/work/acme/acme/src/index.js");
    // Lines 1, 4, 8 from statements, plus line 6 from the branch.
    assert_eq!(file.lines_valid(), 4);
    assert_eq!(file.lines_covered(), 2);
}

#[test]
fn several_statements_on_one_line_keep_the_highest_count() {
    // Statements 1 and 2 both start on line 4, with counts 2 and 7.
    // istanbul's own getLineCoverage keeps the maximum; summing would
    // report 9 executions of a line that ran 7 times.
    let doc = parse(NYC);
    let line = doc.files[0].lines.iter().find(|l| l.number == 4).unwrap();
    assert_eq!(line.hits, 7);
}

#[test]
fn reads_functions_from_their_declaration() {
    let file = &parse(NYC).files[0];
    assert_eq!(file.functions.len(), 1);
    assert_eq!(file.functions[0].name, "handler");
    // `decl` wins over `loc`: 3, not the body's start.
    assert_eq!(file.functions[0].line, Some(3));
    assert_eq!(file.functions[0].hits, 4);
}

#[test]
fn a_branch_line_is_executable_even_with_no_statement() {
    let file = &parse(NYC).files[0];
    let line = file.lines.iter().find(|l| l.number == 6).unwrap();
    assert_eq!(line.hits, 0);
    assert_eq!(
        line.branch,
        Some(Branch {
            covered: 1,
            total: 2
        })
    );
    assert_eq!(
        file.branches(),
        Branch {
            covered: 1,
            total: 2
        }
    );
}

#[test]
fn falls_back_to_the_map_key_when_there_is_no_path_field() {
    let doc = parse(
        r#"{"src/a.js":{"statementMap":{"0":{"start":{"line":1}}},"s":{"0":1},
                 "fnMap":{},"branchMap":{},"f":{},"b":{}}}"#,
    );
    assert_eq!(doc.files[0].path, "src/a.js");
}

#[test]
fn tolerates_the_older_shape_that_puts_line_on_the_function() {
    let doc = parse(
        r#"{"a.js":{"statementMap":{"0":{"start":{"line":2}}},"s":{"0":1},
                 "fnMap":{"0":{"name":"f","line":2}},"f":{"0":3},
                 "branchMap":{},"b":{}}}"#,
    );
    assert_eq!(doc.files[0].functions[0].line, Some(2));
}

#[test]
fn rejects_json_that_is_not_a_coverage_map() {
    let mut ctx = FormatCtx::new(None);
    assert!(read(br#"{"hello":{"world":1}}"#, &mut ctx).is_err());
    assert!(read(b"{}", &mut ctx).is_err());
}
