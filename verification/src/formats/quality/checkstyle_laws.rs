//! What reading a Checkstyle report promises.

use vstd::prelude::*;

use crate::formats::quality::checkstyle::{folded, read_spec, tag_finding, tagged, StateView};
use crate::model::findings::{parse_severity, Finding, FindingView, Severity};
use crate::model::findings_laws::{finished, finishing_keeps_every_finding};
use crate::order::sorted_props;
use crate::paths::normalized;
use crate::registry::DocView;
use crate::xml::{EventView, TagView};

verus! {

/// The tag of an event that opens an element.
pub open spec fn opened(event: EventView) -> Option<TagView> {
    match event {
        EventView::Start(tag) => Some(tag),
        EventView::Empty(tag) => Some(tag),
        _ => None,
    }
}

/// Whether the event opens a `<file>`.
pub open spec fn opens_file(event: EventView) -> bool {
    opened(event) matches Some(tag) && tag.name == "file"@
}

/// Whether the event opens an element that reports a problem.
pub open spec fn reports(event: EventView) -> bool {
    opened(event) matches Some(tag) && (tag.name == "error"@ || tag.name == "warning"@ || tag.name
        == "info"@ || tag.name == "exception"@)
}

proof fn names_differ()
    ensures
        "checkstyle"@ != "file"@,
        "file"@ != "error"@ && "file"@ != "warning"@ && "file"@ != "info"@ && "file"@
            != "exception"@,
        "checkstyle"@ != "error"@ && "checkstyle"@ != "warning"@ && "checkstyle"@ != "info"@
            && "checkstyle"@ != "exception"@,
{
    reveal_strlit("checkstyle");
    reveal_strlit("file");
    reveal_strlit("error");
    reveal_strlit("warning");
    reveal_strlit("info");
    reveal_strlit("exception");
    assert("checkstyle"@.len() == 10 && "file"@.len() == 4 && "error"@.len() == 5 && "warning"@.len()
        == 7 && "info"@.len() == 4 && "exception"@.len() == 9);
    assert("file"@[0] == 'f' && "info"@[0] == 'i');
}

/// What is read of the first events stays.
proof fn what_is_read_stays(events: Seq<EventView>, n: int)
    requires
        0 <= n <= events.len(),
        folded(events) is Ok,
    ensures
        folded(events.take(n)) is Ok,
        ({
            let early = folded(events.take(n))->Ok_0.doc.findings;
            let late = folded(events)->Ok_0.doc.findings;
            early.len() <= late.len() && forall|k: int|
                0 <= k < early.len() ==> #[trigger] late[k] == early[k]
        }),
    decreases events.len(),
{
    if n < events.len() {
        what_is_read_stays(events.drop_last(), n);
        assert(events.drop_last().take(n) =~= events.take(n));
    } else {
        assert(events.take(n) =~= events);
    }
}

/// The path of the file that an event stands in: that of the nearest `<file>`
/// before it, or none.
pub open spec fn file_around(events: Seq<EventView>, i: int) -> Seq<char>
    decreases i,
{
    if i <= 0 || i > events.len() {
        Seq::empty()
    } else if opens_file(events[i - 1]) {
        match opened(events[i - 1])->0.attr("name"@) {
            Some(path) => normalized(path),
            None => Seq::empty(),
        }
    } else {
        file_around(events, i - 1)
    }
}

/// The nearest file is the last one opened, and none is nearer.
pub proof fn the_nearest_file_counts(events: Seq<EventView>, j: int, i: int)
    requires
        0 <= j < i <= events.len(),
        opens_file(events[j]),
        forall|k: int| j < k < i ==> !opens_file(#[trigger] events[k]),
    ensures
        file_around(events, i) == match opened(events[j])->0.attr("name"@) {
            Some(path) => normalized(path),
            None => Seq::empty(),
        },
    decreases i,
{
    if j < i - 1 {
        assert(!opens_file(events[i - 1]));
        the_nearest_file_counts(events, j, i - 1);
    }
}

proof fn the_nearest_file_is_current(events: Seq<EventView>, i: int)
    requires
        0 <= i <= events.len(),
        folded(events.take(i)) is Ok,
    ensures
        folded(events.take(i))->Ok_0.current_file == file_around(events, i),
    decreases i,
{
    names_differ();
    let now = events.take(i);
    if i > 0 {
        assert(now.drop_last() =~= events.take(i - 1));
        assert(now.last() == events[i - 1]);
        the_nearest_file_is_current(events, i - 1);
    }
}

/// What a finding says that was made of an element in a file. Line, column,
/// message and rule are the element's own, and its level is the one it states,
/// else the one its name is, else minor.
pub open spec fn says(f: FindingView, tag: TagView, path: Seq<char>) -> bool {
    let stated = match tag.attr("severity"@) {
        Some(word) => parse_severity(word),
        None => None,
    };
    &&& f.location.path == path
    &&& f.location.begin_line == tag.attr_u32("line"@)
    &&& f.location.end_line == tag.attr_u32("line"@)
    &&& f.location.begin_column == tag.attr_u32("column"@)
    &&& f.location.end_column is None
    &&& f.description == match tag.attr("message"@) {
        Some(text) => text,
        None => "(no message)"@,
    }
    &&& match tag.attr("source"@) {
        Some(rule) => f.rule_id == if rule.len() > 0 {
            Some(rule)
        } else {
            None
        },
        None => f.rule_id is None,
    }
    &&& match (stated, parse_severity(tag.name)) {
        (Some(level), _) => f.severity == level,
        (None, Some(level)) => f.severity == level,
        (None, None) => f.severity == Severity::Minor,
    }
}

proof fn problems_are_taken_in(events: Seq<EventView>, i: int) -> (at: int)
    requires
        0 <= i < events.len(),
        reports(events[i]),
        folded(events) is Ok,
    ensures
        0 <= at < folded(events)->Ok_0.doc.findings.len(),
        says(
            folded(events)->Ok_0.doc.findings[at],
            opened(events[i])->0,
            file_around(events, i),
        ),
{
    names_differ();
    let tag = opened(events[i])->0;
    what_is_read_stays(events, i + 1);
    what_is_read_stays(events, i);
    the_nearest_file_is_current(events, i);
    let now = events.take(i + 1);
    assert(now.drop_last() =~= events.take(i));
    assert(now.last() == events[i]);
    let before = folded(events.take(i))->Ok_0.doc.findings;
    let made = tag_finding(tag, file_around(events, i));
    assert(folded(now)->Ok_0.doc.findings == before.push(made));
    assert(folded(now)->Ok_0.doc.findings[before.len() as int] == made);
    before.len() as int
}

/// Every element that reports a problem becomes a finding that says the same, in
/// the file of the nearest `<file>` before it.
pub proof fn problems_become_findings(events: Seq<EventView>, i: int)
    requires
        0 <= i < events.len(),
        reports(events[i]),
        read_spec(events) is Ok,
    ensures
        match read_spec(events) {
            Ok(DocView::Findings(doc)) => exists|k: int|
                0 <= k < doc.findings.len() && says(
                    #[trigger] doc.findings[k],
                    opened(events[i])->0,
                    file_around(events, i),
                ) && doc.findings[k].fingerprint is Some,
            _ => false,
        },
{
    let at = problems_are_taken_in(events, i);
    let found = folded(events)->Ok_0.doc.findings;
    let k = finishing_keeps_every_finding(found, at);
    let doc = read_spec(events)->Ok_0->Findings_0;
    assert(doc.findings == finished(found));
    assert(says(doc.findings[k], opened(events[i])->0, file_around(events, i)));
}

proof fn findings_are_counted(events: Seq<EventView>)
    requires
        folded(events) is Ok,
    ensures
        folded(events)->Ok_0.doc.findings.len() == events.filter(|e: EventView| reports(e)).len(),
    decreases events.len(),
{
    reveal(Seq::filter);
    names_differ();
    if events.len() > 0 {
        findings_are_counted(events.drop_last());
    }
}

/// There are as many findings as elements that report a problem.
pub proof fn every_problem_is_one_finding(events: Seq<EventView>)
    ensures
        read_spec(events) matches Ok(doc) ==> doc is Findings && doc->Findings_0.findings.len()
            == events.filter(|e: EventView| reports(e)).len(),
{
    if read_spec(events) is Ok {
        findings_are_counted(events);
        let found = folded(events)->Ok_0.doc.findings;
        let made = found.map_values(|f: FindingView| f.fingerprinted());
        sorted_props::<Finding>(made);
    }
}

/// The tool is Checkstyle, in the version that the root states.
pub proof fn roots_name_the_tool(s: StateView, tag: TagView)
    requires
        tag.name == "checkstyle"@,
    ensures
        ({
            let after = tagged(s, tag);
            &&& after.saw_root
            &&& after.doc.tool is Some
            &&& after.doc.tool->0.name == "checkstyle"@
            &&& after.doc.tool->0.version == tag.attr("version"@)
            &&& after.doc.findings == s.doc.findings
            &&& after.current_file == s.current_file
        }),
{
}

} // verus!
