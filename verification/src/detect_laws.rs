//! What telling a format by its content promises.

use vstd::prelude::*;

use crate::detect::{
    detected, element_parts, local_part, root_tag, sniffed, sniffed_json, sniffed_line, sniffed_xml,
    tag_name, without_lead, SniffedView,
};
use crate::registry::found;
use crate::text::{contains, first, is_white, last_props, starts_with};

verus! {

proof fn roots_differ()
    ensures
        "coverage"@ != "report"@ && "coverage"@ != "testsuite"@ && "coverage"@ != "testsuites"@
            && "coverage"@ != "checkstyle"@ && "coverage"@ != "bom"@ && "coverage"@ != "pmd"@
            && "coverage"@ != "BugCollection"@ && "coverage"@ != "coverage-report"@
            && "coverage"@ != "CoverageSession"@ && "coverage"@ != "TestRun"@,
        "report"@ != "testsuite"@ && "report"@ != "testsuites"@ && "report"@ != "checkstyle"@
            && "report"@ != "bom"@ && "report"@ != "pmd"@ && "report"@ != "BugCollection"@
            && "report"@ != "coverage-report"@ && "report"@ != "CoverageSession"@
            && "report"@ != "TestRun"@,
        "testsuite"@ != "testsuites"@ && "testsuite"@ != "checkstyle"@ && "testsuite"@ != "bom"@
            && "testsuite"@ != "pmd"@ && "testsuite"@ != "BugCollection"@
            && "testsuite"@ != "coverage-report"@ && "testsuite"@ != "CoverageSession"@
            && "testsuite"@ != "TestRun"@,
        "testsuites"@ != "checkstyle"@ && "testsuites"@ != "bom"@ && "testsuites"@ != "pmd"@
            && "testsuites"@ != "BugCollection"@ && "testsuites"@ != "coverage-report"@
            && "testsuites"@ != "CoverageSession"@ && "testsuites"@ != "TestRun"@,
        "checkstyle"@ != "bom"@ && "checkstyle"@ != "pmd"@ && "checkstyle"@ != "BugCollection"@
            && "checkstyle"@ != "coverage-report"@ && "checkstyle"@ != "CoverageSession"@
            && "checkstyle"@ != "TestRun"@,
        "bom"@ != "pmd"@ && "bom"@ != "BugCollection"@ && "bom"@ != "coverage-report"@
            && "bom"@ != "CoverageSession"@ && "bom"@ != "TestRun"@,
        "pmd"@ != "BugCollection"@ && "pmd"@ != "coverage-report"@
            && "pmd"@ != "CoverageSession"@ && "pmd"@ != "TestRun"@,
        "BugCollection"@ != "coverage-report"@ && "BugCollection"@ != "CoverageSession"@
            && "BugCollection"@ != "TestRun"@,
        "coverage-report"@ != "CoverageSession"@ && "coverage-report"@ != "TestRun"@,
        "CoverageSession"@ != "TestRun"@,
{
    reveal_strlit("coverage");
    reveal_strlit("report");
    reveal_strlit("testsuite");
    reveal_strlit("testsuites");
    reveal_strlit("checkstyle");
    reveal_strlit("bom");
    reveal_strlit("pmd");
    reveal_strlit("BugCollection");
    reveal_strlit("coverage-report");
    reveal_strlit("CoverageSession");
    reveal_strlit("TestRun");
    assert("coverage"@.len() == 8);
    assert("report"@.len() == 6);
    assert("testsuite"@.len() == 9);
    assert("testsuites"@.len() == 10);
    assert("checkstyle"@.len() == 10);
    assert("bom"@.len() == 3);
    assert("pmd"@.len() == 3);
    assert("BugCollection"@.len() == 13);
    assert("coverage-report"@.len() == 15);
    assert("CoverageSession"@.len() == 15);
    assert("TestRun"@.len() == 7);
    assert("CoverageSession"@[0] == 'C');
    assert("bom"@[0] == 'b');
    assert("checkstyle"@[0] == 'c');
    assert("coverage-report"@[0] == 'c');
    assert("pmd"@[0] == 'p');
    assert("testsuites"@[0] == 't');
}

/// An XML document is told by its root element, and the two whose root is the same
/// by an attribute that only one of them has.
pub proof fn xml_is_told_by_its_root(text: Seq<char>)
    ensures
        match root_tag(text) {
            Some((root, attributes)) => {
                let told = sniffed_xml(text);
                &&& root == "coverage"@ && contains(attributes, "clover="@) ==> told
                    == SniffedView::Known("clover"@)
                &&& root == "coverage"@ && !contains(attributes, "clover="@) ==> told
                    == SniffedView::Known("cobertura"@)
                &&& root == "report"@ ==> told == SniffedView::Known("jacoco"@)
                &&& root == "testsuite"@ || root == "testsuites"@ ==> told == SniffedView::Known(
                    "junit"@,
                )
                &&& root == "checkstyle"@ ==> told == SniffedView::Known("checkstyle"@)
                &&& root == "TestRun"@ ==> told == SniffedView::Known("trx"@)
                &&& root == "bom"@ || root == "pmd"@ || root == "BugCollection"@ || root
                    == "coverage-report"@ || root == "CoverageSession"@ ==> told is Planned
            },
            None => sniffed_xml(text) is Unknown,
        },
{
    roots_differ();
}

/// A character that a name can have.
pub open spec fn names(c: char) -> bool {
    !is_white(c) && c != '>' && c != '/' && c != ':' && c != '?' && c != '!'
}

proof fn names_are_read(name: Seq<char>, behind: Seq<char>)
    requires
        forall|i: int| 0 <= i < name.len() ==> names(#[trigger] name[i]),
        behind.len() > 0,
        is_white(behind[0]) || behind[0] == '>' || behind[0] == '/',
    ensures
        tag_name(name + behind) == name,
    decreases name.len(),
{
    let all = name + behind;
    if name.len() > 0 {
        let tail = name.skip(1);
        assert forall|i: int| 0 <= i < tail.len() implies names(#[trigger] tail[i]) by {
            assert(tail[i] == name[i + 1]);
        }
        names_are_read(tail, behind);
        assert(names(name[0]));
        assert(all.skip(1) =~= tail + behind);
        assert(seq![name[0]] + tail =~= name);
    } else {
        assert(all[0] == behind[0]);
        assert(name =~= Seq::empty());
    }
}

/// The root is the first element, by its name.
pub proof fn roots_are_the_first_element(name: Seq<char>, behind: Seq<char>)
    requires
        name.len() > 0,
        forall|i: int| 0 <= i < name.len() ==> names(#[trigger] name[i]),
        behind.len() > 0,
        is_white(behind[0]) || behind[0] == '>' || behind[0] == '/',
    ensures
        root_tag(seq!['<'] + name + behind) matches Some((root, _)) && root == name,
{
    let text = seq!['<'] + name + behind;
    let rest = name + behind;
    assert(text[0] == '<');
    assert(first(text, '<') == 0);
    assert(text.skip(1) =~= rest);
    assert(names(name[0]) && rest[0] == name[0]);
    reveal_strlit("!--");
    if starts_with(rest, "!--"@) {
        assert(rest.take(3)[0] == '!');
    }
    names_are_read(name, behind);
    assert forall|i: int| 0 <= i < name.len() implies #[trigger] name[i] != ':' by {
        assert(names(name[i]));
    }
    last_props(name, ':');
    assert(local_part(name) =~= name);
    assert(element_parts(rest) is Some);
}

/// A list is never told by its content; an object is told by the keys that only
/// its format has.
pub proof fn json_is_told_by_its_keys(text: Seq<char>)
    ensures
        text.len() > 0 && text[0] == '[' ==> sniffed_json(text) is Unknown,
        !(text.len() > 0 && text[0] == '[') ==> {
            let cyclonedx = contains(text, "\"bomFormat\""@) || (contains(
                text,
                "\"specVersion\""@,
            ) && contains(text, "\"components\""@));
            let spdx = contains(text, "\"spdxVersion\""@) || contains(text, "\"SPDXID\""@);
            let sarif = contains(text, "\"runs\""@) && (contains(text, "sarif"@) || contains(
                text,
                "\"tool\""@,
            ));
            let trivy = contains(text, "\"SchemaVersion\""@) && contains(text, "\"Results\""@);
            &&& cyclonedx || spdx ==> sniffed_json(text) is Planned
            &&& !cyclonedx && !spdx && sarif ==> sniffed_json(text) == SniffedView::Known(
                "sarif"@,
            )
            &&& !cyclonedx && !spdx && !sarif && trivy ==> sniffed_json(text)
                == SniffedView::Known("trivy-json"@)
        },
{
}

/// A tracefile is told by a line of its own, a profile by its mode.
pub proof fn lines_are_told_by_their_beginning(line: Seq<char>)
    ensures
        starts_with(line, "SF:"@) || starts_with(line, "TN:"@) || line == "end_of_record"@
            ==> sniffed_line(line) == SniffedView::Known("lcov"@),
        starts_with(line, "mode: "@) ==> sniffed_line(line) == SniffedView::Known(
            "go-coverprofile"@,
        ),
        sniffed_line(line) == SniffedView::Known("lcov"@) ==> starts_with(line, "SF:"@)
            || starts_with(line, "TN:"@) || line == "end_of_record"@,
{
    reveal_strlit("SF:");
    reveal_strlit("TN:");
    reveal_strlit("SPDXVersion:");
    reveal_strlit("mode: ");
    reveal_strlit("end_of_record");
    reveal_strlit("lcov");
    reveal_strlit("go-coverprofile");
    if starts_with(line, "mode: "@) {
        assert(line.take(6)[0] == 'm');
        assert(line[0] == 'm');
        if starts_with(line, "SF:"@) {
            assert(line.take(3)[0] == 'S');
        }
        if starts_with(line, "TN:"@) {
            assert(line.take(3)[0] == 'T');
        }
        if starts_with(line, "SPDXVersion:"@) {
            assert(line.take(12)[0] == 'S');
        }
        assert("end_of_record"@[0] == 'e');
    }
    assert("lcov"@.len() == 4 && "go-coverprofile"@.len() == 15);
}

/// What is told is what its name leads to; what is recognized but not supported,
/// or not recognized, is refused.
pub proof fn told_formats_are_found(head: Seq<char>, origin: Seq<char>)
    ensures
        match sniffed(head) {
            SniffedView::Known(id) => detected(head, origin) == found(id),
            _ => detected(head, origin) matches Err(e) && e is Detect,
        },
{
}

/// A byte order mark and white space in front say nothing about a document.
pub proof fn leading_marks_are_passed_over(c: char, text: Seq<char>)
    requires
        c == '\u{feff}' || c == ' ' || c == '\t' || c == '\r' || c == '\n',
    ensures
        sniffed(seq![c] + text) == sniffed(text),
{
    let head = seq![c] + text;
    assert(head[0] == c);
    assert(head.skip(1) =~= text);
    assert(without_lead(head) == without_lead(text));
}

} // verus!
