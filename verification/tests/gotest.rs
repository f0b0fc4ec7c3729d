use serde_json::Value;

use universal_devops_converter::error::Error;
use universal_devops_converter::formats::tests::gotest::{self, PACKAGE_CASE};
use universal_devops_converter::json::Json;
use universal_devops_converter::model::tests::{Outcome, TestReport};
use universal_devops_converter::registry::Doc;
use universal_devops_converter::warn::{FormatCtx, Warnings};

fn json_of(value: &Value) -> Json {
    match value {
        Value::Null => Json::Null,
        Value::Bool(flag) => Json::Bool(*flag),
        Value::Number(number) => Json::Number(number.to_string()),
        Value::String(text) => Json::Text(text.clone()),
        Value::Array(items) => Json::Array(items.iter().map(json_of).collect()),
        Value::Object(members) => Json::Object(
            members.iter().map(|(key, value)| (key.clone(), json_of(value))).collect(),
        ),
    }
}

fn read(input: &[u8], ctx: &mut FormatCtx) -> Result<Doc, Error> {
    let events = gotest::event_lines(input)
        .iter()
        .map(|line| serde_json::from_str::<Value>(line).ok().map(|value| json_of(&value)))
        .collect();
    gotest::read(&events, ctx)
}

const STREAM: &str = r##"{"Time":"2026-06-26T12:00:00.1Z","Action":"start","Package":"github.com/acme/proj/calc"}
{"Time":"2026-06-26T12:00:00.2Z","Action":"run","Package":"github.com/acme/proj/calc","Test":"TestAdds"}
{"Time":"2026-06-26T12:00:00.2Z","Action":"output","Package":"github.com/acme/proj/calc","Test":"TestAdds","Output":"=== RUN   TestAdds\n"}
{"Time":"2026-06-26T12:00:00.3Z","Action":"output","Package":"github.com/acme/proj/calc","Test":"TestAdds","Output":"--- PASS: TestAdds (0.00s)\n"}
{"Time":"2026-06-26T12:00:00.3Z","Action":"pass","Package":"github.com/acme/proj/calc","Test":"TestAdds","Elapsed":0.004}
{"Time":"2026-06-26T12:00:00.4Z","Action":"run","Package":"github.com/acme/proj/calc","Test":"TestDivides"}
{"Time":"2026-06-26T12:00:00.4Z","Action":"output","Package":"github.com/acme/proj/calc","Test":"TestDivides","Output":"=== RUN   TestDivides\n"}
{"Time":"2026-06-26T12:00:00.5Z","Action":"output","Package":"github.com/acme/proj/calc","Test":"TestDivides","Output":"    calc_test.go:23: expected 2, got 3\n"}
{"Time":"2026-06-26T12:00:00.5Z","Action":"output","Package":"github.com/acme/proj/calc","Test":"TestDivides","Output":"--- FAIL: TestDivides (0.00s)\n"}
{"Time":"2026-06-26T12:00:00.5Z","Action":"fail","Package":"github.com/acme/proj/calc","Test":"TestDivides","Elapsed":0.002}
{"Time":"2026-06-26T12:00:00.6Z","Action":"run","Package":"github.com/acme/proj/calc","Test":"TestLater"}
{"Time":"2026-06-26T12:00:00.6Z","Action":"output","Package":"github.com/acme/proj/calc","Test":"TestLater","Output":"    calc_test.go:31: needs network\n"}
{"Time":"2026-06-26T12:00:00.6Z","Action":"skip","Package":"github.com/acme/proj/calc","Test":"TestLater","Elapsed":0}
{"Time":"2026-06-26T12:00:00.7Z","Action":"fail","Package":"github.com/acme/proj/calc","Elapsed":0.021}
{"Time":"2026-06-26T12:00:01.0Z","Action":"output","Package":"github.com/acme/proj/broken","Output":"# github.com/acme/proj/broken\n"}
{"Time":"2026-06-26T12:00:01.0Z","Action":"output","Package":"github.com/acme/proj/broken","Output":"./main.go:7:2: undefined: missing\n"}
{"Time":"2026-06-26T12:00:01.0Z","Action":"fail","Package":"github.com/acme/proj/broken","Elapsed":0}
"##;

fn parse(input: &str) -> (TestReport, Warnings) {
    let mut ctx = FormatCtx::new(None);
    let report = match read(input.as_bytes(), &mut ctx).unwrap() {
        Doc::Tests(report) => report,
        _ => panic!("expected a test report"),
    };
    (report, ctx.into_warnings())
}

#[test]
fn packages_become_suites_in_the_order_they_appear() {
    let (report, _) = parse(STREAM);
    let names: Vec<&str> = report.suites.iter().map(|s| s.name.as_str()).collect();
    assert_eq!(
        names,
        ["github.com/acme/proj/calc", "github.com/acme/proj/broken"]
    );
}

#[test]
fn a_failure_message_is_the_assertion_line_not_the_scaffolding() {
    let (report, _) = parse(STREAM);
    let case = report.suites[0]
        .cases
        .iter()
        .find(|c| c.name == "TestDivides")
        .unwrap();

    match &case.outcome {
        Outcome::Failed(problem) => {
            assert_eq!(
                problem.message.as_deref(),
                Some("calc_test.go:23: expected 2, got 3")
            );
            // The whole output is still there for anyone who wants it.
            assert!(problem.detail.as_deref().unwrap().contains("=== RUN"));
        }
        other => panic!("expected a failure, got {other:?}"),
    }
}

#[test]
fn a_failure_does_not_repeat_its_output_as_system_out() {
    let (report, _) = parse(STREAM);
    let case = report.suites[0]
        .cases
        .iter()
        .find(|c| c.name == "TestDivides")
        .unwrap();
    // The output is the failure detail; printing it twice would duplicate
    // every failing test's log in the converted report.
    assert!(case.system_out.is_none(), "{:?}", case.system_out);
}

#[test]
fn a_passing_test_keeps_its_output() {
    let (report, _) = parse(STREAM);
    let case = report.suites[0]
        .cases
        .iter()
        .find(|c| c.name == "TestAdds")
        .unwrap();
    assert!(case.system_out.as_deref().unwrap().contains("=== RUN"));
}

#[test]
fn a_skip_carries_its_reason() {
    let (report, _) = parse(STREAM);
    let case = report.suites[0]
        .cases
        .iter()
        .find(|c| c.name == "TestLater")
        .unwrap();
    assert_eq!(
        case.outcome,
        Outcome::Skipped {
            message: Some("calc_test.go:31: needs network".into())
        }
    );
}

#[test]
fn a_package_that_fails_to_build_is_not_reported_as_zero_failures() {
    let (report, _) = parse(STREAM);
    let broken = report
        .suites
        .iter()
        .find(|s| s.name.ends_with("/broken"))
        .unwrap();

    assert_eq!(broken.cases.len(), 1);
    assert_eq!(broken.failures(), 1);
    assert_eq!(broken.cases[0].name, PACKAGE_CASE);
    match &broken.cases[0].outcome {
        Outcome::Failed(problem) => {
            assert_eq!(
                problem.message.as_deref(),
                Some("# github.com/acme/proj/broken")
            );
            assert!(problem
                .detail
                .as_deref()
                .unwrap()
                .contains("undefined: missing"));
        }
        other => panic!("expected a failure, got {other:?}"),
    }
}

#[test]
fn a_package_failing_because_a_test_failed_gets_no_synthetic_case() {
    let (report, _) = parse(STREAM);
    let calc = &report.suites[0];
    assert!(!calc.cases.iter().any(|c| c.name == PACKAGE_CASE));
    assert_eq!(calc.cases.len(), 3);
}

#[test]
fn subtests_are_kept_alongside_their_parent() {
    let (report, _) = parse(
        r#"{"Action":"run","Package":"p","Test":"TestTable"}
{"Action":"run","Package":"p","Test":"TestTable/case_one"}
{"Action":"fail","Package":"p","Test":"TestTable/case_one","Elapsed":0.001}
{"Action":"fail","Package":"p","Test":"TestTable","Elapsed":0.002}
"#,
    );
    let names: Vec<&str> = report.suites[0]
        .cases
        .iter()
        .map(|c| c.name.as_str())
        .collect();
    assert_eq!(names, ["TestTable", "TestTable/case_one"]);
}

#[test]
fn a_test_with_no_terminating_event_is_not_a_pass() {
    let (report, _) = parse(r#"{"Action":"run","Package":"p","Test":"TestHangs"}"#);
    assert_eq!(report.suites[0].skipped(), 1);
    assert_eq!(
        report.suites[0].cases[0].outcome,
        Outcome::Skipped {
            message: Some("no result reported (the run did not finish)".into())
        }
    );
}

#[test]
fn plain_text_before_the_stream_is_reported_not_swallowed() {
    let (_, warnings) = parse(
        "go: downloading example.com/dep v1.2.3\n{\"Action\":\"pass\",\"Package\":\"p\",\"Test\":\"T\"}\n",
    );
    assert!(warnings.messages().iter().any(|m| m.contains("not JSON events")));
}

#[test]
fn rejects_input_that_carries_no_event() {
    let mut ctx = FormatCtx::new(None);
    assert!(read(b"just some text\nand more\n", &mut ctx).is_err());
}
