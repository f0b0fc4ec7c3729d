//! What counting, merging and mapping test reports promises.

use vstd::prelude::*;

use crate::model::tests::{
    case_times, count_cases, count_suites, merge_reports, normalize_report, suite_elapsed,
    total_cases, Tally, TestCaseView, TestReportView, TestSuiteView,
};
use crate::paths::MapperView;

verus! {

/// The failures among cases are those that failed, the errors those that ended in
/// an error, the skipped ones those that were skipped, each counted once.
pub proof fn cases_count_by_outcome(cases: Seq<TestCaseView>)
    ensures
        count_cases(cases, Tally::Failed) == cases.filter(
            |c: TestCaseView| c.outcome is Failed,
        ).len(),
        count_cases(cases, Tally::Errored) == cases.filter(
            |c: TestCaseView| c.outcome is Errored,
        ).len(),
        count_cases(cases, Tally::Skipped) == cases.filter(
            |c: TestCaseView| c.outcome is Skipped,
        ).len(),
        count_cases(cases, Tally::Failed) + count_cases(cases, Tally::Errored) + count_cases(
            cases,
            Tally::Skipped,
        ) <= cases.len(),
    decreases cases.len(),
{
    reveal(Seq::filter);
    if cases.len() > 0 {
        cases_count_by_outcome(cases.drop_last());
    }
}

/// A report counts what its suites do.
pub proof fn reports_count_their_suites(
    suites: Seq<TestSuiteView>,
    suite: TestSuiteView,
    tally: Tally,
)
    ensures
        total_cases(Seq::empty()) == 0,
        count_suites(Seq::empty(), tally) == 0,
        total_cases(suites) + suite.cases.len() <= usize::MAX ==> total_cases(suites.push(suite))
            == total_cases(suites) + suite.cases.len(),
        count_suites(suites, tally) + count_cases(suite.cases, tally) <= usize::MAX
            ==> count_suites(suites.push(suite), tally) == count_suites(suites, tally)
            + count_cases(suite.cases, tally),
{
    assert(suites.push(suite).drop_last() =~= suites);
}

/// A suite took as long as it says, and where it does not say, as long as those of
/// its cases together that do.
pub proof fn suites_take_their_time(suite: TestSuiteView, i: int)
    ensures
        match suite.time {
            Some(time) => suite_elapsed(suite) == seq![time],
            None => suite_elapsed(suite).len() == suite.cases.filter(
                |c: TestCaseView| c.time is Some,
            ).len() && (0 <= i < suite.cases.len() ==> (suite.cases[i].time matches Some(t)
                ==> suite_elapsed(suite).contains(t))),
        },
{
    if suite.time is None {
        times_of_cases(suite.cases, i);
    }
}

proof fn times_of_cases(cases: Seq<TestCaseView>, i: int)
    ensures
        case_times(cases).len() == cases.filter(|c: TestCaseView| c.time is Some).len(),
        0 <= i < cases.len() ==> (cases[i].time matches Some(t) ==> case_times(cases).contains(t)),
    decreases cases.len(),
{
    reveal(Seq::filter);
    if cases.len() > 0 {
        let head = cases.drop_last();
        times_of_cases(head, i);
        if 0 <= i < cases.len() && cases[i].time is Some {
            if i == head.len() {
                assert(case_times(cases)[case_times(head).len() as int] == cases[i].time->0);
            } else {
                assert(head[i] == cases[i]);
                let k = choose|k: int|
                    0 <= k < case_times(head).len() && case_times(head)[k] == cases[i].time->0;
                assert(case_times(cases)[k] == cases[i].time->0);
            }
        }
    }
}

/// Merging reports lists the suites of the first and then those of the second,
/// each as it is, under the first name that there is.
pub proof fn merged_reports_keep_every_suite(mine: TestReportView, theirs: TestReportView, i: int)
    ensures
        ({
            let m = merge_reports(mine, theirs);
            &&& m.suites.len() == mine.suites.len() + theirs.suites.len()
            &&& 0 <= i < mine.suites.len() ==> m.suites[i] == mine.suites[i]
            &&& 0 <= i < theirs.suites.len() ==> m.suites[mine.suites.len() + i]
                == theirs.suites[i]
            &&& (mine.name is Some ==> m.name == mine.name)
            &&& (mine.name is None ==> m.name == theirs.name)
        }),
{
}

/// Mapping paths rewrites the files of the suites and their cases and leaves
/// everything else as it is.
pub proof fn only_files_are_rewritten(
    report: TestReportView,
    mapper: MapperView,
    i: int,
    j: int,
)
    requires
        0 <= i < report.suites.len(),
    ensures
        ({
            let before = report.suites[i];
            let after = normalize_report(report, mapper).suites[i];
            &&& normalize_report(report, mapper).suites.len() == report.suites.len()
            &&& normalize_report(report, mapper).name == report.name
            &&& after.name == before.name
            &&& after.time == before.time
            &&& after.timestamp == before.timestamp
            &&& after.hostname == before.hostname
            &&& after.properties == before.properties
            &&& after.system_out == before.system_out
            &&& after.system_err == before.system_err
            &&& after.cases.len() == before.cases.len()
            &&& match before.file {
                Some(path) => after.file == Some(mapper.map(path)),
                None => after.file is None,
            }
            &&& 0 <= j < before.cases.len() ==> {
                &&& after.cases[j].name == before.cases[j].name
                &&& after.cases[j].classname == before.cases[j].classname
                &&& after.cases[j].line == before.cases[j].line
                &&& after.cases[j].time == before.cases[j].time
                &&& after.cases[j].outcome == before.cases[j].outcome
                &&& after.cases[j].system_out == before.cases[j].system_out
                &&& after.cases[j].system_err == before.cases[j].system_err
                &&& match before.cases[j].file {
                    Some(path) => after.cases[j].file == Some(mapper.map(path)),
                    None => after.cases[j].file is None,
                }
            }
        }),
{
}

} // verus!
