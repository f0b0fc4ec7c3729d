use universal_devops_converter::formats::tests::tap::{ROOT_SUITE, parse_assertion, read};
use universal_devops_converter::model::tests::{Outcome, TestReport};
use universal_devops_converter::registry::Doc;
use universal_devops_converter::warn::{FormatCtx, Warnings};

const SAMPLE: &str = "\
TAP version 13
1..4
ok 1 - adds numbers
not ok 2 - divides numbers
  ---
  message: 'expected 2, got 3'
  at: calc_test.js:23
  ...
ok 3 - later # SKIP needs network
not ok 4 - streams # TODO not implemented yet
";

const WITH_SUBTEST: &str = "\
TAP version 13
# Subtest: calculator
    ok 1 - adds
    not ok 2 - divides
    1..2
not ok 1 - calculator
ok 2 - standalone
1..2
";

fn parse(input: &str) -> (TestReport, Warnings) {
    let mut ctx = FormatCtx::new(None);
    let report = match read(input.as_bytes(), &mut ctx).unwrap() {
        Doc::Tests(report) => report,
        _ => panic!("expected a test report"),
    };
    (report, ctx.into_warnings())
}

#[test]
fn reads_assertions_and_their_descriptions() {
    let (report, _) = parse(SAMPLE);
    assert_eq!(report.total(), 4);
    let names: Vec<&str> = report.suites[0]
        .cases
        .iter()
        .map(|c| c.name.as_str())
        .collect();
    assert_eq!(
        names,
        ["adds numbers", "divides numbers", "later", "streams"]
    );
}

#[test]
fn a_skip_directive_means_it_did_not_run() {
    let (report, _) = parse(SAMPLE);
    let case = &report.suites[0].cases[2];
    assert_eq!(
        case.outcome,
        Outcome::Skipped {
            message: Some("needs network".into())
        }
    );
}

#[test]
fn a_failing_todo_is_not_a_failure() {
    // Otherwise every unfinished test breaks the build, which is the
    // opposite of what the directive is for.
    let (report, _) = parse(SAMPLE);
    let case = &report.suites[0].cases[3];
    assert_eq!(
        case.outcome,
        Outcome::Skipped {
            message: Some("TODO: not implemented yet".into())
        }
    );
    assert_eq!(report.failures(), 1);
}

#[test]
fn lifts_the_message_out_of_the_diagnostic_block() {
    let (report, _) = parse(SAMPLE);
    match &report.suites[0].cases[1].outcome {
        Outcome::Failed(problem) => {
            assert_eq!(problem.message.as_deref(), Some("expected 2, got 3"));
            assert!(problem
                .detail
                .as_deref()
                .unwrap()
                .contains("calc_test.js:23"));
        }
        other => panic!("expected a failure, got {other:?}"),
    }
}

#[test]
fn a_subtest_becomes_a_suite_and_its_summary_line_is_dropped() {
    let (report, _) = parse(WITH_SUBTEST);
    let names: Vec<&str> = report.suites.iter().map(|s| s.name.as_str()).collect();
    assert_eq!(names, ["calculator", ROOT_SUITE]);

    // Two children and one standalone — not four, which is what counting
    // the summary line as well would give.
    assert_eq!(report.total(), 3);
    assert_eq!(report.failures(), 1);
}

#[test]
fn a_bail_out_is_reported_rather_than_leaving_a_green_run() {
    let (report, warnings) =
        parse("TAP version 13\nok 1 - first\nBail out! database is down\n");
    assert_eq!(report.total(), 2);
    assert_eq!(report.errors(), 1);
    assert!(warnings.messages().iter().any(|m| m.contains("database is down")));
}

#[test]
fn accepts_tap_12_without_a_version_line() {
    let (report, _) = parse("ok 1 - first\nnot ok 2 - second\n1..2\n");
    assert_eq!(report.total(), 2);
    assert_eq!(report.failures(), 1);
}

#[test]
fn a_word_starting_with_ok_is_not_an_assertion() {
    assert!(parse_assertion("okay then").is_none());
    assert!(parse_assertion("ok").is_some());
    assert!(parse_assertion("ok 1 - fine").is_some());
}

#[test]
fn an_escaped_hash_stays_in_the_description() {
    let (report, _) = parse(r"ok 1 - issue \#42 is fixed");
    assert_eq!(report.suites[0].cases[0].name, r"issue \#42 is fixed");
    assert_eq!(report.suites[0].cases[0].outcome, Outcome::Passed);
}

#[test]
fn rejects_input_that_is_not_tap() {
    let mut ctx = FormatCtx::new(None);
    assert!(read(b"just some prose\nwith no assertions\n", &mut ctx).is_err());
}

#[test]
fn the_block_of_a_dropped_summary_is_dropped_with_it() {
    let (report, _) = parse(
        "\
TAP version 13
not ok 1 - before
# Subtest: calculator
    not ok 1 - divides
      ---
      message: 'inner'
      ...
    1..1
not ok 2 - calculator
  ---
  message: 'one test failed'
  ...
not ok 3 - after
  ---
  message: 'own'
  ...
1..3
",
    );
    let messages: Vec<(String, Option<String>)> = report
        .suites
        .iter()
        .flat_map(|s| s.cases.iter())
        .map(|c| match &c.outcome {
            Outcome::Failed(problem) => (c.name.clone(), problem.message.clone()),
            _ => panic!("every case failed"),
        })
        .collect();
    assert!(messages.contains(&("before".to_string(), None)), "{messages:?}");
    assert!(messages.contains(&("divides".to_string(), Some("inner".to_string()))));
    assert!(messages.contains(&("after".to_string(), Some("own".to_string()))));
    assert_eq!(messages.len(), 3);
}
