use universal_devops_converter::formats::tests::trx::{parse_duration, read};
use universal_devops_converter::model::tests::{Elapsed, Outcome, TestReport};
use universal_devops_converter::registry::Doc;
use universal_devops_converter::warn::{FormatCtx, Warnings};

fn seconds(elapsed: &Elapsed) -> f64 {
    let number = |text: &String| text.trim().parse::<f64>().expect("a number");
    match elapsed {
        Elapsed::Seconds(text) => number(text),
        Elapsed::Span { days, hours, minutes, seconds } => {
            days.as_ref().map_or(0.0, number) * 86400.0
                + number(hours) * 3600.0
                + number(minutes) * 60.0
                + number(seconds)
        }
    }
}

const SAMPLE: &str = r#"<?xml version="1.0" encoding="utf-8"?>
<TestRun id="7e4a8b21-0000-0000-0000-000000000001" name="runner 2026-06-26 12:00:00"
         xmlns="http://microsoft.com/schemas/VisualStudio/TeamTest/2010">
  <Times creation="2026-06-26T12:00:00.0000000+00:00" start="2026-06-26T12:00:01.0000000+00:00"
         finish="2026-06-26T12:00:03.0000000+00:00"/>
  <Results>
    <UnitTestResult executionId="e1" testId="t1" testName="Acme.Tests.CalcTests.Adds"
                    computerName="build-01" duration="00:00:00.5120000" outcome="Passed"/>
    <UnitTestResult executionId="e2" testId="t2" testName="Acme.Tests.CalcTests.Divides"
                    computerName="build-01" duration="00:00:00.3010000" outcome="Failed">
      <Output>
        <StdOut>dividing now</StdOut>
        <ErrorInfo>
          <Message>Assert.AreEqual failed. Expected:&lt;2&gt;. Actual:&lt;3&gt;.</Message>
          <StackTrace>   at Acme.Tests.CalcTests.Divides() in /src/CalcTests.cs:line 42</StackTrace>
        </ErrorInfo>
      </Output>
    </UnitTestResult>
    <UnitTestResult executionId="e3" testId="t3" testName="Acme.Tests.CalcTests.Later"
                    duration="00:00:00.0000000" outcome="NotExecuted"/>
    <UnitTestResult executionId="e4" testId="t4" testName="Acme.Tests.SlowTests.Waits"
                    duration="00:01:30.0000000" outcome="Timeout"/>
    <UnitTestResult executionId="e5" testId="t5" testName="Acme.Tests.DataTests.Rows"
                    outcome="Failed">
      <InnerResults>
        <UnitTestResult executionId="e5a" testId="t5" testName="Rows (a: 1)"
                        duration="00:00:00.0100000" outcome="Passed"/>
        <UnitTestResult executionId="e5b" testId="t5" testName="Rows (a: 2)"
                        duration="00:00:00.0200000" outcome="Failed">
          <Output><ErrorInfo><Message>row two failed</Message></ErrorInfo></Output>
        </UnitTestResult>
      </InnerResults>
    </UnitTestResult>
  </Results>
  <TestDefinitions>
    <UnitTest name="Adds" storage="acme.tests.dll" id="t1">
      <TestMethod codeBase="acme.tests.dll" className="Acme.Tests.CalcTests" name="Adds"/>
    </UnitTest>
    <UnitTest name="Divides" storage="acme.tests.dll" id="t2">
      <TestMethod codeBase="acme.tests.dll" className="Acme.Tests.CalcTests" name="Divides"/>
    </UnitTest>
    <UnitTest name="Later" storage="acme.tests.dll" id="t3">
      <TestMethod codeBase="acme.tests.dll" className="Acme.Tests.CalcTests" name="Later"/>
    </UnitTest>
    <UnitTest name="Waits" storage="acme.tests.dll" id="t4">
      <TestMethod codeBase="acme.tests.dll" className="Acme.Tests.SlowTests" name="Waits"/>
    </UnitTest>
    <UnitTest name="Rows" storage="acme.tests.dll" id="t5">
      <TestMethod codeBase="acme.tests.dll" className="Acme.Tests.DataTests" name="Rows"/>
    </UnitTest>
  </TestDefinitions>
  <ResultSummary outcome="Failed">
    <Counters total="5" executed="4" passed="2" failed="2" timeout="1"/>
  </ResultSummary>
</TestRun>
"#;

fn parse(input: &str) -> (TestReport, Warnings) {
    let mut ctx = FormatCtx::new(None);
    let report = match read(input.as_bytes(), &mut ctx).unwrap() {
        Doc::Tests(report) => report,
        _ => panic!("expected a test report"),
    };
    (report, ctx.into_warnings())
}

#[test]
fn groups_cases_into_suites_by_their_class() {
    let (report, _) = parse(SAMPLE);
    let names: Vec<&str> = report.suites.iter().map(|s| s.name.as_str()).collect();
    assert!(names.contains(&"Acme.Tests.CalcTests"), "{names:?}");
    assert!(names.contains(&"Acme.Tests.SlowTests"), "{names:?}");
    assert!(names.contains(&"Acme.Tests.DataTests"), "{names:?}");
}

#[test]
fn a_data_driven_parent_is_replaced_by_its_rows() {
    let (report, _) = parse(SAMPLE);
    let data = report
        .suites
        .iter()
        .find(|s| s.name == "Acme.Tests.DataTests")
        .unwrap();

    // Two rows, and not the parent as well: counting all three would report
    // one more test than ran.
    assert_eq!(data.cases.len(), 2);
    assert_eq!(data.failures(), 1);
    assert!(data.cases.iter().all(|c| c.name.starts_with("Rows (")));
}

#[test]
fn maps_the_wider_trx_outcome_vocabulary() {
    let (report, _) = parse(SAMPLE);
    let calc = report
        .suites
        .iter()
        .find(|s| s.name == "Acme.Tests.CalcTests")
        .unwrap();
    assert_eq!(calc.failures(), 1);
    assert_eq!(calc.skipped(), 1);

    // A timeout is the harness giving up, not an assertion failing — and
    // which way it gave up is worth keeping.
    let slow = report
        .suites
        .iter()
        .find(|s| s.name == "Acme.Tests.SlowTests")
        .unwrap();
    assert_eq!(slow.errors(), 1);
    match &slow.cases[0].outcome {
        Outcome::Errored(problem) => assert_eq!(problem.kind.as_deref(), Some("Timeout")),
        other => panic!("expected an error, got {other:?}"),
    }
}

#[test]
fn keeps_the_failure_message_stack_trace_and_output() {
    let (report, _) = parse(SAMPLE);
    let case = report
        .suites
        .iter()
        .flat_map(|s| &s.cases)
        .find(|c| c.name.ends_with("Divides"))
        .unwrap();

    assert_eq!(case.system_out.as_deref(), Some("dividing now"));
    match &case.outcome {
        Outcome::Failed(problem) => {
            assert!(problem.message.as_deref().unwrap().contains("Expected:<2>"));
            assert!(problem
                .detail
                .as_deref()
                .unwrap()
                .contains("CalcTests.cs:line 42"));
        }
        other => panic!("expected a failure, got {other:?}"),
    }
}

#[test]
fn parses_dotnet_timespans() {
    assert_eq!(parse_duration("00:00:00.5120000").as_ref().map(seconds), Some(0.512));
    assert_eq!(parse_duration("00:01:30.0000000").as_ref().map(seconds), Some(90.0));
    assert_eq!(parse_duration("01:00:00").as_ref().map(seconds), Some(3600.0));
    assert_eq!(parse_duration("2.03:00:00").as_ref().map(seconds), Some(2.0 * 86400.0 + 10800.0));
    assert_eq!(parse_duration("nonsense").as_ref().map(seconds), None);
}

#[test]
fn falls_back_to_the_test_name_when_the_definition_is_missing() {
    let (report, warnings) = parse(
        r#"<TestRun><Results>
                 <UnitTestResult testId="zz" testName="Acme.Orphan.Test1" outcome="Passed"/>
               </Results></TestRun>"#,
    );
    // The fully-qualified name still yields a class, so no warning.
    assert_eq!(report.suites[0].name, "Acme.Orphan");
    assert!(!warnings.messages().iter().any(|m| m.contains("(unknown)")));
}

#[test]
fn reports_results_whose_class_cannot_be_resolved_at_all() {
    let (report, warnings) = parse(
        r#"<TestRun><Results>
                 <UnitTestResult testId="zz" testName="Bare" outcome="Passed"/>
               </Results></TestRun>"#,
    );
    assert_eq!(report.suites[0].name, "(unknown)");
    assert!(warnings.messages().iter().any(|m| m.contains("(unknown)")));
}

#[test]
fn rejects_input_that_is_not_a_test_run() {
    let mut ctx = FormatCtx::new(None);
    assert!(read(b"<testsuite name=\"x\"/>", &mut ctx).is_err());
}

#[test]
fn rejects_a_run_with_no_result() {
    let mut ctx = FormatCtx::new(None);
    assert!(read(b"<TestRun><Results/></TestRun>", &mut ctx).is_err());
}
