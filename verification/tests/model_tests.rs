use universal_devops_converter::model::tests::{
    Elapsed, Outcome, Problem, TestCase, TestReport, TestSuite,
};

fn seconds(elapsed: &Elapsed) -> f64 {
    let number = |text: &String| text.trim().parse::<f64>().expect("a number");
    match elapsed {
        Elapsed::Seconds(text) => number(text),
        Elapsed::Span { days, hours, minutes, seconds } => {
            days.as_ref().map_or(0.0, number) * 86400.0
                + number(hours) * 3600.0
                + number(minutes) * 60.0
                + number(seconds)
        }
    }
}

#[test]
fn counts_outcomes_per_kind() {
    let mut suite = TestSuite::new("suite");
    suite.cases = vec![
        TestCase::new("ok", Outcome::Passed),
        TestCase::new("bad", Outcome::Failed(Problem::default())),
        TestCase::new("boom", Outcome::Errored(Problem::default())),
        TestCase::new("later", Outcome::Skipped { message: None }),
    ];
    assert_eq!(suite.failures(), 1);
    assert_eq!(suite.errors(), 1);
    assert_eq!(suite.skipped(), 1);
}

#[test]
fn duration_falls_back_to_the_sum_of_cases() {
    let mut suite = TestSuite::new("suite");
    suite.cases = vec![
        TestCase {
            time: Some(Elapsed::Seconds("1.5".to_string())),
            ..TestCase::new("a", Outcome::Passed)
        },
        TestCase {
            time: Some(Elapsed::Seconds("0.5".to_string())),
            ..TestCase::new("b", Outcome::Passed)
        },
    ];
    assert_eq!(suite.elapsed().iter().map(seconds).sum::<f64>(), 2.0);
    suite.time = Some(Elapsed::Seconds("10.0".to_string()));
    assert_eq!(suite.elapsed().iter().map(seconds).sum::<f64>(), 10.0);
}

#[test]
fn merge_keeps_same_named_suites_apart() {
    let mut a = TestReport {
        suites: vec![TestSuite::new("shard")],
        ..Default::default()
    };
    a.merge(TestReport {
        suites: vec![TestSuite::new("shard")],
        ..Default::default()
    });
    assert_eq!(a.suites.len(), 2);
}
