use universal_devops_converter::error::Error;
use universal_devops_converter::formats::tests::junit::{self, SuiteTimes, Times, read};
use universal_devops_converter::model::tests::{Elapsed, Outcome, TestReport};
use universal_devops_converter::registry::Doc;
use universal_devops_converter::warn::FormatCtx;

fn seconds(elapsed: &Elapsed) -> f64 {
    let number = |text: &String| text.trim().parse::<f64>().expect("a number");
    match elapsed {
        Elapsed::Seconds(text) => number(text),
        Elapsed::Span { days, hours, minutes, seconds } => {
            days.as_ref().map_or(0.0, number) * 86400.0
                + number(hours) * 3600.0
                + number(minutes) * 60.0
                + number(seconds)
        }
    }
}

fn shown(seconds: f64) -> String {
    format!("{:.3}", if seconds == 0.0 { 0.0 } else { seconds })
}

fn times_of(report: &TestReport) -> Times {
    let sum = |list: Vec<Elapsed>| list.iter().map(seconds).sum::<f64>();
    Times {
        total: shown(report.suites.iter().map(|suite| sum(suite.elapsed())).sum()),
        suites: report
            .suites
            .iter()
            .map(|suite| SuiteTimes {
                total: shown(sum(suite.elapsed())),
                cases: suite
                    .cases
                    .iter()
                    .map(|case| shown(case.time.as_ref().map_or(0.0, seconds)))
                    .collect(),
            })
            .collect(),
    }
}

fn write(doc: &Doc, out: &mut Vec<u8>, ctx: &mut FormatCtx) -> Result<(), Error> {
    let times = times_of(doc.as_tests()?);
    out.extend_from_slice(junit::write(doc, &times, ctx)?.as_bytes());
    Ok(())
}

const SAMPLE: &str = r#"<?xml version="1.0" encoding="UTF-8"?>
<testsuites name="run">
  <testsuite name="acme.CalcTest" tests="4" time="1.25" timestamp="2026-01-02T03:04:05">
    <properties><property name="env" value="ci"/></properties>
    <testcase name="adds" classname="acme.CalcTest" time="0.5"/>
    <testcase name="divides" classname="acme.CalcTest" time="0.25">
      <failure message="expected 2 but was 3" type="AssertionError">at Calc.divide(Calc.java:12)</failure>
    </testcase>
    <testcase name="explodes" classname="acme.CalcTest" time="0.5">
      <error message="boom" type="RuntimeException"/>
    </testcase>
    <testcase name="later" classname="acme.CalcTest">
      <skipped message="not implemented"/>
    </testcase>
    <system-out>build log</system-out>
  </testsuite>
</testsuites>
"#;

fn parse(input: &str) -> TestReport {
    let mut ctx = FormatCtx::new(None);
    match read(input.as_bytes(), &mut ctx).unwrap() {
        Doc::Tests(report) => report,
        _ => panic!("expected a test report"),
    }
}

/// The report with every duration in its shortest decimal form.
fn in_seconds(mut report: TestReport) -> TestReport {
    let shortest = |time: &mut Option<Elapsed>| {
        if let Some(elapsed) = time {
            *elapsed = Elapsed::Seconds(seconds(elapsed).to_string());
        }
    };
    for suite in &mut report.suites {
        shortest(&mut suite.time);
        for case in &mut suite.cases {
            shortest(&mut case.time);
        }
    }
    report
}

#[test]
fn reads_every_outcome_kind() {
    let report = parse(SAMPLE);
    assert_eq!(report.name.as_deref(), Some("run"));
    assert_eq!(report.total(), 4);
    assert_eq!(report.failures(), 1);
    assert_eq!(report.errors(), 1);
    assert_eq!(report.skipped(), 1);

    let suite = &report.suites[0];
    assert_eq!(
        suite.properties,
        vec![("env".to_string(), "ci".to_string())]
    );
    assert_eq!(suite.system_out.as_deref(), Some("build log"));
    assert_eq!(suite.timestamp.as_deref(), Some("2026-01-02T03:04:05"));
}

#[test]
fn keeps_failure_message_type_and_stack_trace() {
    let report = parse(SAMPLE);
    match &report.suites[0].cases[1].outcome {
        Outcome::Failed(problem) => {
            assert_eq!(problem.message.as_deref(), Some("expected 2 but was 3"));
            assert_eq!(problem.kind.as_deref(), Some("AssertionError"));
            assert_eq!(
                problem.detail.as_deref(),
                Some("at Calc.divide(Calc.java:12)")
            );
        }
        other => panic!("expected a failure, got {other:?}"),
    }
}

#[test]
fn accepts_a_bare_testsuite_root() {
    let report = parse(r#"<testsuite name="solo"><testcase name="a"/></testsuite>"#);
    assert_eq!(report.suites.len(), 1);
    assert_eq!(report.total(), 1);
}

#[test]
fn flattens_nested_suites_into_dotted_names() {
    let report = parse(
        r#"<testsuites><testsuite name="outer"><testsuite name="inner">
                 <testcase name="a"/>
               </testsuite></testsuite></testsuites>"#,
    );
    let names: Vec<&str> = report.suites.iter().map(|s| s.name.as_str()).collect();
    assert!(names.contains(&"outer.inner"), "got {names:?}");
}

#[test]
fn reads_cdata_wrapped_output() {
    let report = parse(
        r#"<testsuite name="s"><testcase name="a">
                 <system-out><![CDATA[raw <output>]]></system-out>
               </testcase></testsuite>"#,
    );
    assert_eq!(
        report.suites[0].cases[0].system_out.as_deref(),
        Some("raw <output>")
    );
}

#[test]
fn rejects_input_that_is_not_a_test_report() {
    let mut ctx = FormatCtx::new(None);
    assert!(read(b"<coverage/>", &mut ctx).is_err());
}

#[test]
fn a_suite_without_timings_renders_as_positive_zero() {
    let report = parse(r#"<testsuite name="s"><testcase name="a"/></testsuite>"#);
    let mut buffer = Vec::new();
    let mut ctx = FormatCtx::new(None);
    write(&Doc::Tests(report), &mut buffer, &mut ctx).unwrap();

    let xml = String::from_utf8(buffer).unwrap();
    assert!(!xml.contains("-0.000"), "got {xml}");
    assert!(xml.contains(r#"time="0.000""#));
}

#[test]
fn junit_round_trips_through_the_writer() {
    let report = parse(SAMPLE);
    let mut buffer = Vec::new();
    let mut ctx = FormatCtx::new(None);
    write(&Doc::Tests(report.clone()), &mut buffer, &mut ctx).unwrap();

    let again = parse(&String::from_utf8(buffer).unwrap());
    assert_eq!(in_seconds(again).suites, in_seconds(report).suites);
}
