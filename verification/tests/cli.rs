//! Whole conversions, from a command line to what is printed.

use serde_json::Value;

use universal_devops_converter::convert::{preparation, Conversion, Input, Output, Preparation};
use universal_devops_converter::error::Error;
use universal_devops_converter::formats::coverage::cobertura::{self, Ratio};
use universal_devops_converter::formats::coverage::lcov;
use universal_devops_converter::formats::quality::sarif::{self, Score};
use universal_devops_converter::formats::tests::gotest;
use universal_devops_converter::formats::tests::junit::{SuiteTimes, Times};
use universal_devops_converter::json::Json;
use universal_devops_converter::listing::{self, Style};
use universal_devops_converter::model::tests::{Elapsed, TestReport};
use universal_devops_converter::registry::{Category, Doc, ReadFn};

fn json_of(value: &Value) -> Json {
    match value {
        Value::Null => Json::Null,
        Value::Bool(flag) => Json::Bool(*flag),
        Value::Number(number) => Json::Number(number.to_string()),
        Value::String(text) => Json::Text(text.clone()),
        Value::Array(items) => Json::Array(items.iter().map(json_of).collect()),
        Value::Object(members) => Json::Object(
            members.iter().map(|(key, value)| (key.clone(), json_of(value))).collect(),
        ),
    }
}

fn value_of(json: &Json) -> Value {
    match json {
        Json::Null => Value::Null,
        Json::Bool(flag) => Value::Bool(*flag),
        Json::Number(text) => serde_json::from_str(text).expect("a number literal"),
        Json::Text(text) => Value::String(text.clone()),
        Json::Array(items) => Value::Array(items.iter().map(value_of).collect()),
        Json::Object(members) => Value::Object(
            members.iter().map(|(key, value)| (key.clone(), value_of(value))).collect(),
        ),
    }
}

fn count(text: String) -> (String, u64) {
    let count = text.parse::<f64>().expect("a number").max(0.0) as u64;
    (text, count)
}

fn score(text: String) -> Option<Score> {
    let value = text.parse::<f64>().ok()?;
    Some(Score {
        text,
        at_least_nine: value >= 9.0,
        at_least_seven: value >= 7.0,
        at_least_four: value >= 4.0,
        above_zero: value > 0.0,
    })
}

fn seconds(elapsed: &Elapsed) -> f64 {
    let number = |text: &String| text.trim().parse::<f64>().expect("a number");
    match elapsed {
        Elapsed::Seconds(text) => number(text),
        Elapsed::Span { days, hours, minutes, seconds } => {
            days.as_ref().map_or(0.0, number) * 86400.0
                + number(hours) * 3600.0
                + number(minutes) * 60.0
                + number(seconds)
        }
    }
}

fn shown(seconds: f64) -> String {
    format!("{:.3}", if seconds == 0.0 { 0.0 } else { seconds })
}

fn times_of(report: &TestReport) -> Times {
    let sum = |list: Vec<Elapsed>| list.iter().map(seconds).sum::<f64>();
    Times {
        total: shown(report.suites.iter().map(|suite| sum(suite.elapsed())).sum()),
        suites: report
            .suites
            .iter()
            .map(|suite| SuiteTimes {
                total: shown(sum(suite.elapsed())),
                cases: suite
                    .cases
                    .iter()
                    .map(|case| shown(case.time.as_ref().map_or(0.0, seconds)))
                    .collect(),
            })
            .collect(),
    }
}

fn ratios_of(doc: &Doc) -> Vec<Ratio> {
    cobertura::needed_ratios(doc)
        .into_iter()
        .map(|(covered, valid)| {
            let rate = if valid == 0 { 1.0 } else { covered as f64 / valid as f64 };
            Ratio {
                covered,
                valid,
                rate: format!("{rate:.4}"),
                percent: format!("{}", (rate * 100.0).round()),
            }
        })
        .collect()
}

fn parsed(bytes: &[u8]) -> Result<Json, String> {
    match serde_json::from_slice::<Value>(bytes) {
        Ok(value) => Ok(json_of(&value)),
        Err(problem) => Err(problem.to_string()),
    }
}

fn prepared(bytes: &[u8], reader: ReadFn) -> Input {
    let mut input = Input {
        bytes: bytes.to_vec(),
        json: Ok(Json::Null),
        events: Vec::new(),
        counts: Vec::new(),
        scores: Vec::new(),
    };
    match preparation(reader) {
        Preparation::Nothing => {}
        Preparation::Json => input.json = parsed(bytes),
        Preparation::Events => {
            input.events = gotest::event_lines(bytes)
                .iter()
                .map(|line| parsed(line.as_bytes()).ok())
                .collect();
        }
        Preparation::Counts => {
            input.counts = lcov::count_texts(bytes).into_iter().map(count).collect();
        }
        Preparation::Scores => {
            input.json = parsed(bytes);
            if let Ok(log) = &input.json {
                input.scores = sarif::score_texts(log).into_iter().filter_map(score).collect();
            }
        }
    }
    input
}

/// What a run puts out, and its exit code.
struct Run {
    code: Option<i32>,
    stdout: String,
    stderr: String,
}

impl Run {
    fn success(&self) -> bool {
        self.code == Some(0)
    }
}

/// The values that follow an option on the command line.
fn values_of<'a>(args: &[&'a str], option: &str) -> Vec<&'a str> {
    args.windows(2).filter(|pair| pair[0] == option).map(|pair| pair[1]).collect()
}

fn value_after(args: &[&str], option: &str) -> Option<String> {
    values_of(args, option).last().map(|value| value.to_string())
}

fn plain() -> Style {
    Style { color: false }
}

fn list(args: &[&str]) -> Result<String, Error> {
    let wanted = value_after(args, "--category").map(|name| {
        Category::all().into_iter().find(|c| c.as_str() == name).expect("a category")
    });
    Ok(listing::list_formats(wanted, plain())?.join("\n") + "\n")
}

fn convert(
    args: &[&str],
    files: &[(&str, &str)],
    stdout: &mut String,
    stderr: &mut String,
) -> Result<(), Error> {
    let strip: Vec<String> =
        values_of(args, "--strip-prefix").iter().map(|p| p.to_string()).collect();
    let mut conversion = Conversion::plan(
        &value_after(args, "-t"),
        &value_after(args, "-f").unwrap_or("auto".to_string()),
        &value_after(args, "--source-root"),
        &strip,
    )?;
    for (name, content) in files {
        let (origin, reader) = conversion.origin(content.as_bytes(), name)?;
        conversion.read(&origin, reader, &prepared(content.as_bytes(), reader))?;
    }
    conversion.settle()?;
    let doc = conversion.document().as_ref().expect("a document");
    let ratios = ratios_of(doc);
    let times = match doc {
        Doc::Tests(report) => times_of(report),
        _ => Times { total: shown(0.0), suites: Vec::new() },
    };
    let rendered = match conversion.write(&ratios, &times)? {
        Output::Text(text) => text,
        Output::Json(json) => {
            serde_json::to_string_pretty(&value_of(&json)).expect("a printable document") + "\n"
        }
    };
    for line in listing::report_warnings(conversion.warnings(), plain()) {
        *stderr = format!("{stderr}{line}\n");
    }
    conversion.conclude(args.contains(&"--strict"))?;
    *stdout = rendered;
    Ok(())
}

/// Runs with these files; `-` stands for standard input.
fn run_files(args: &[&str], files: &[(&str, &str)]) -> Run {
    let mut stdout = String::new();
    let mut stderr = String::new();
    let result = if args.first() == Some(&"formats") {
        list(args).map(|text| stdout = text)
    } else {
        convert(args, files, &mut stdout, &mut stderr)
    };
    if let Err(error) = &result {
        stderr = format!("{stderr}{}\n", listing::error_line(error, plain()));
    }
    let code = Some(if result.is_ok() { 0 } else { 1 });
    Run { code, stdout, stderr }
}

/// Runs with `input` on standard input.
fn run(args: &[&str], input: &str) -> Run {
    run_files(args, &[("-", input)])
}

fn stdout_of(run: &Run) -> String {
    run.stdout.clone()
}

fn stderr_of(run: &Run) -> String {
    run.stderr.clone()
}

const LCOV: &str = "\
TN:
SF:/builds/acme/proj/src/main.rs
FN:10,main
FNDA:3,main
DA:10,3
DA:11,0
DA:12,3
BRDA:12,0,0,2
BRDA:12,0,1,-
end_of_record
";

const SARIF: &str = r#"{
  "version": "2.1.0",
  "runs": [{
    "tool": {"driver": {"name": "semgrep"}},
    "results": [{
      "ruleId": "R1",
      "level": "warning",
      "message": {"text": "Something to fix"},
      "locations": [{"physicalLocation": {
        "artifactLocation": {"uri": "src/app.py"},
        "region": {"startLine": 3}
      }}]
    }]
  }]
}"#;

const CHECKSTYLE: &str = r#"<?xml version="1.0"?>
<checkstyle version="8.36">
  <file name="/builds/acme/proj/src/app.js">
    <error line="12" column="5" severity="warning" message="Unexpected var" source="no-var"/>
  </file>
</checkstyle>
"#;

#[test]
fn converts_lcov_to_cobertura_from_stdin() {
    let output = run(&["-t", "cobertura"], LCOV);
    assert!(output.success(), "{}", stderr_of(&output));

    let xml = stdout_of(&output);
    assert!(xml.contains("<coverage"));
    assert!(xml.contains(r#"lines-valid="3""#));
    assert!(xml.contains(r#"condition-coverage="50% (1/2)""#));
}

#[test]
fn source_root_makes_build_paths_repository_relative() {
    let output = run(
        &["-t", "cobertura", "--source-root", "/builds/acme/proj"],
        LCOV,
    );
    assert!(output.success(), "{}", stderr_of(&output));

    let xml = stdout_of(&output);
    assert!(xml.contains(r#"filename="src/main.rs""#), "{xml}");
    assert!(!xml.contains("/builds/"), "{xml}");
}

#[test]
fn checkstyle_becomes_a_gitlab_code_quality_report() {
    let output = run(
        &["-f", "checkstyle", "-t", "codeclimate-gitlab"],
        CHECKSTYLE,
    );
    assert!(output.success(), "{}", stderr_of(&output));

    let json = stdout_of(&output);
    assert!(json.contains(r#""check_name": "no-var""#));
    assert!(json.contains(r#""fingerprint""#));
    // GitLab ignores columns, so they must not be emitted — and the loss must
    // be reported rather than silently swallowed.
    assert!(!json.contains("positions"));
    assert!(stderr_of(&output).contains("lossy:"));
}

#[test]
fn merges_repeated_inputs_into_one_report() {
    let output = run_files(
        &["-i", "a.xml", "-i", "b.xml", "-t", "junit"],
        &[
            (
                "a.xml",
                r#"<testsuite name="a"><testcase name="t1"/></testsuite>"#,
            ),
            (
                "b.xml",
                r#"<testsuite name="b"><testcase name="t2"/><testcase name="t3"><failure message="x"/></testcase></testsuite>"#,
            ),
        ],
    );

    assert!(output.success(), "{}", stderr_of(&output));
    let xml = stdout_of(&output);
    assert!(xml.contains(r#"tests="3""#), "{xml}");
    assert!(xml.contains(r#"failures="1""#), "{xml}");
}

#[test]
fn refuses_to_convert_across_categories() {
    let output = run(&["-t", "cobertura"], CHECKSTYLE);
    assert_eq!(output.code, Some(1));
    assert!(stderr_of(&output).contains("only defined within a category"));
}

#[test]
fn strict_turns_a_lossy_conversion_into_a_failure() {
    let output = run(&["-t", "jacoco", "--strict"], LCOV);
    assert_eq!(output.code, Some(1));
    assert!(stderr_of(&output).contains("--strict"));
}

#[test]
fn strict_hands_over_no_degraded_report() {
    let output = run(&["-t", "jacoco", "--strict"], LCOV);
    assert!(stderr_of(&output).contains("degraded:"));
    assert_eq!(stdout_of(&output), "");
}

#[test]
fn the_same_conversion_without_strict_succeeds_and_only_warns() {
    let output = run(&["-t", "jacoco"], LCOV);
    assert!(output.success());
    // JaCoCo cannot express hit counts, so the values are rewritten rather
    // than dropped: that is a `degraded:` notice, not a `lossy:` one.
    assert!(stderr_of(&output).contains("degraded:"));
    assert!(stdout_of(&output).contains("<report"));
}

#[test]
fn both_notice_kinds_count_towards_strict() {
    for (args, expected) in [
        (["-t", "jacoco"], "degraded:"),
        (["-t", "codeclimate-gitlab"], "lossy:"),
    ] {
        let input = if expected == "degraded:" {
            LCOV
        } else {
            CHECKSTYLE
        };
        let lenient = run(&args, input);
        assert!(lenient.success());
        assert!(
            stderr_of(&lenient).contains(expected),
            "{}",
            stderr_of(&lenient)
        );

        let strict = run(&[args[0], args[1], "--strict"], input);
        assert_eq!(strict.code, Some(1), "{}", stderr_of(&strict));
    }
}

#[test]
fn a_version_can_be_pinned_on_the_format() {
    let output = run(&["-f", "sarif@2.1.0", "-t", "codeclimate-gitlab"], SARIF);
    assert!(output.success(), "{}", stderr_of(&output));
    assert!(stdout_of(&output).contains(r#""check_name": "R1""#));
}

#[test]
fn an_unsupported_version_lists_the_supported_ones() {
    // Empty input on purpose: a bad selector is a usage error and must be
    // reported before anything is read.
    let output = run(&["-f", "sarif@1.0.0", "-t", "codeclimate-gitlab"], "");
    assert_eq!(output.code, Some(1));
    let stderr = stderr_of(&output);
    assert!(
        stderr.contains("does not support version '1.0.0'"),
        "{stderr}"
    );
    assert!(stderr.contains("2.1.0"), "{stderr}");
}

#[test]
fn a_version_on_an_unversioned_format_is_rejected() {
    let output = run(&["-t", "junit@1.0"], "");
    assert_eq!(output.code, Some(1));
    assert!(stderr_of(&output).contains("is not versioned"));
}

#[test]
fn cli_a_colon_separator_points_at_the_at_sign() {
    let output = run(&["-t", "sarif:2.1.0"], "");
    assert_eq!(output.code, Some(1));
    let stderr = stderr_of(&output);
    assert!(stderr.contains("sarif@2.1.0"), "{stderr}");
}

#[test]
fn formats_labels_notices_with_the_kind_the_writer_emits() {
    let listing = stdout_of(&run(&["formats", "--category", "coverage"], ""));
    // JaCoCo rewrites hit counts rather than dropping them; the listing must
    // say the same thing the conversion says on stderr.
    assert!(
        listing.contains("degraded: hit counts are flattened"),
        "{listing}"
    );
    assert!(
        listing.contains("lossy: JaCoCo instruction/complexity/method counters are dropped"),
        "{listing}"
    );
}

#[test]
fn a_format_in_two_categories_is_listed_under_each() {
    let quality = stdout_of(&run(&["formats", "--category", "quality"], ""));
    let security = stdout_of(&run(&["formats", "--category", "security"], ""));

    // SARIF describes both kinds of finding; the listing says so rather than
    // pretending it belongs to one.
    assert!(quality.contains("sarif"), "{quality}");
    assert!(security.contains("sarif"), "{security}");
    assert!(quality.contains("also a security format"), "{quality}");
}

#[test]
fn formats_advertises_the_version_syntax() {
    let output = run(&["formats", "--category", "quality"], "");
    assert!(output.success(), "{}", stderr_of(&output));
    let listing = stdout_of(&output);
    assert!(listing.contains("2.1.0 (default)"), "{listing}");
    assert!(listing.contains("sarif@<version>"), "{listing}");
}

#[test]
fn an_ambiguous_input_is_an_error_rather_than_a_guess() {
    let output = run(&["-t", "codeclimate"], r#"[{"check_name":"x"}]"#);
    assert_eq!(output.code, Some(1));
    assert!(stderr_of(&output).contains("--input-format"));
}

#[test]
fn output_format_is_required() {
    let output = run(&[], LCOV);
    assert_eq!(output.code, Some(1));
    assert!(stderr_of(&output).contains("--output-format is required"));
}

/// A bad option is refused before the input is looked at, however large.
#[test]
fn a_large_input_to_a_failing_run_does_not_break_the_harness() {
    let big = LCOV.repeat(4000);
    assert!(big.len() > 256 * 1024, "a large input");

    let output = run(&["-t", "auto"], &big);
    assert_eq!(output.code, Some(1));
    assert!(stderr_of(&output).contains("cannot be 'auto'"));
}

#[test]
fn output_format_auto_is_rejected() {
    let output = run(&["-t", "auto"], LCOV);
    assert_eq!(output.code, Some(1));
    assert!(stderr_of(&output).contains("cannot be 'auto'"));
}

#[test]
fn an_unknown_format_lists_the_known_ones() {
    let output = run(&["-t", "nope"], LCOV);
    assert_eq!(output.code, Some(1));
    let stderr = stderr_of(&output);
    assert!(stderr.contains("unknown format 'nope'"));
    assert!(stderr.contains("cobertura"));
}

#[test]
fn formats_lists_every_category() {
    let output = run(&["formats"], "");
    assert!(output.success(), "{}", stderr_of(&output));

    let listing = stdout_of(&output);
    for expected in ["COVERAGE", "TESTS", "QUALITY", "lcov", "junit", "sarif"] {
        assert!(
            listing.contains(expected),
            "missing {expected} in {listing}"
        );
    }
}

#[test]
fn formats_can_be_filtered_by_category() {
    let output = run(&["formats", "--category", "coverage"], "");
    assert!(output.success(), "{}", stderr_of(&output));

    let listing = stdout_of(&output);
    assert!(listing.contains("lcov"));
    assert!(!listing.contains("junit"));
}

#[test]
fn conversion_is_byte_stable_across_runs() {
    let first = run(&["-t", "cobertura"], LCOV);
    let second = run(&["-t", "cobertura"], LCOV);
    assert_eq!(first.stdout, second.stdout);
}
