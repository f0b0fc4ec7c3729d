//! Checkstyle XML, the most widely produced linter format.
//!
//! ```xml
//! <checkstyle version="8.0">
//!   <file name="src/app.js">
//!     <error line="12" column="5" severity="warning"
//!            message="Unexpected var" source="no-var"/>
//!   </file>
//! </checkstyle>
//! ```

use vstd::prelude::*;

use crate::error::{parse_error, Error, ErrorView};
use crate::model::findings::{
    fingerprint_all, parse_severity, sort_doc, Finding, FindingView, FindingsDoc, FindingsDocView,
    Location, LocationView, Severity, Tool, ToolView,
};
use crate::paths::{normalize, normalized};
use crate::registry::{read_result, Doc, DocView};
use crate::text::{owned, same};
use crate::value::{append_one, if_any, non_empty, or_else, or_text, text_or};
use crate::warn::FormatCtx;
use crate::xml::{get_attr, get_u32, read_events, xml_events, EventView, Tag, TagView, XmlEvent};

verus! {

pub const FORMAT: &'static str = "checkstyle";

/// The severity attribute, which is optional in the wild, else the element
/// name, which is how `<warning>` and `<info>` encode it.
pub open spec fn tag_severity(tag: TagView) -> Severity {
    let stated = match tag.attr("severity"@) {
        Some(word) => parse_severity(word),
        None => None,
    };
    match or_else(stated, parse_severity(tag.name)) {
        Some(severity) => severity,
        None => Severity::Minor,
    }
}

pub open spec fn tag_finding(tag: TagView, path: Seq<char>) -> FindingView {
    FindingView {
        rule_id: non_empty(tag.attr("source"@)),
        location: LocationView {
            path,
            begin_line: tag.attr_u32("line"@),
            end_line: tag.attr_u32("line"@),
            begin_column: tag.attr_u32("column"@),
            ..LocationView::empty()
        },
        ..FindingView::of(or_text(tag.attr("message"@), "(no message)"@), tag_severity(tag))
    }
}

fn severity_of(tag: &Tag) -> (r: Severity)
    ensures
        r == tag_severity(tag.deep_view()),
{
    if let Some(word) = get_attr(tag, "severity") {
        if let Some(severity) = Severity::parse(word.as_str()) {
            return severity;
        }
    }
    match Severity::parse(tag.name.as_str()) {
        Some(severity) => severity,
        None => Severity::Minor,
    }
}

pub fn finding(tag: &Tag, path: &str) -> (r: Finding)
    ensures
        r.deep_view() == tag_finding(tag.deep_view(), path@),
{
    let message = get_attr(tag, "message");
    let mut finding = Finding::new(text_or(&message, "(no message)"), severity_of(tag));
    finding.rule_id = if_any(get_attr(tag, "source"));
    let mut location = Location::default();
    location.path = owned(path);
    location.begin_line = get_u32(tag, "line");
    location.end_line = get_u32(tag, "line");
    location.begin_column = get_u32(tag, "column");
    finding.location = location;
    finding
}

/// What has been read so far.
pub struct StateView {
    pub doc: FindingsDocView,
    pub current_file: Seq<char>,
    pub saw_root: bool,
}

struct State {
    doc: FindingsDoc,
    current_file: String,
    saw_root: bool,
}

impl State {
    spec fn view(&self) -> StateView {
        StateView {
            doc: self.doc.deep_view(),
            current_file: self.current_file@,
            saw_root: self.saw_root,
        }
    }

    fn take(&mut self, tag: &Tag)
        ensures
            final(self)@ == tagged(old(self)@, tag.deep_view()),
    {
        let name = tag.name.as_str();
        if same(name, "checkstyle") {
            self.saw_root = true;
            self.doc.tool = Some(
                Tool { name: owned("checkstyle"), version: get_attr(tag, "version"), url: None },
            );
        } else if same(name, "file") {
            self.current_file = match get_attr(tag, "name") {
                Some(path) => normalize(path.as_str()),
                None => String::new(),
            };
        } else if same(name, "error") || same(name, "warning") || same(name, "info") || same(
            name,
            "exception",
        ) {
            append_one(&mut self.doc.findings, finding(tag, self.current_file.as_str()));
        }
    }
}

/// The state behind a tag. Checkstyle's own reporter emits `<error>`; a few
/// producers, and Checkstyle itself for parse failures, emit `<exception>`.
pub open spec fn tagged(s: StateView, tag: TagView) -> StateView {
    if tag.name == "checkstyle"@ {
        StateView {
            saw_root: true,
            doc: FindingsDocView {
                tool: Some(
                    ToolView {
                        name: "checkstyle"@,
                        version: tag.attr("version"@),
                        url: None,
                    },
                ),
                ..s.doc
            },
            ..s
        }
    } else if tag.name == "file"@ {
        StateView {
            current_file: match tag.attr("name"@) {
                Some(path) => normalized(path),
                None => Seq::empty(),
            },
            ..s
        }
    } else if tag.name == "error"@ || tag.name == "warning"@ || tag.name == "info"@ || tag.name
        == "exception"@ {
        StateView {
            doc: FindingsDocView {
                findings: s.doc.findings.push(tag_finding(tag, s.current_file)),
                ..s.doc
            },
            ..s
        }
    } else {
        s
    }
}

/// The state behind these events, or why reading stops.
pub open spec fn folded(events: Seq<EventView>) -> Result<StateView, ErrorView>
    decreases events.len(),
{
    if events.len() == 0 {
        Ok(
            StateView {
                doc: FindingsDocView::empty(),
                current_file: Seq::empty(),
                saw_root: false,
            },
        )
    } else {
        match folded(events.drop_last()) {
            Err(e) => Err(e),
            Ok(s) => match events.last() {
                EventView::Start(tag) => Ok(tagged(s, tag)),
                EventView::Empty(tag) => Ok(tagged(s, tag)),
                EventView::Failed(problem) => Err(parse_error(FORMAT@, problem)),
                _ => Ok(s),
            },
        }
    }
}

/// The document that reading these events gives, or the refusal.
pub open spec fn read_spec(events: Seq<EventView>) -> Result<DocView, ErrorView> {
    match folded(events) {
        Err(e) => Err(e),
        Ok(s) => if !s.saw_root {
            Err(
                parse_error(
                    FORMAT@,
                    "no <checkstyle> root element — this does not look like a Checkstyle report"@,
                ),
            )
        } else {
            Ok(
                DocView::Findings(
                    sort_doc(
                        FindingsDocView {
                            findings: s.doc.findings.map_values(
                                |f: FindingView| f.fingerprinted(),
                            ),
                            ..s.doc
                        },
                    ),
                ),
            )
        },
    }
}

proof fn a_stop_is_final(events: Seq<EventView>, i: int)
    requires
        0 <= i <= events.len(),
        folded(events.take(i)) is Err,
    ensures
        folded(events) == folded(events.take(i)),
    decreases events.len(),
{
    if i < events.len() {
        assert(events.drop_last().take(i) =~= events.take(i));
        a_stop_is_final(events.drop_last(), i);
    } else {
        assert(events.take(i) =~= events);
    }
}

/// Reads the events of a document.
pub fn read_document(events: &Vec<XmlEvent>, ctx: &mut FormatCtx) -> (r: Result<Doc, Error>)
    ensures
        read_result(r) == read_spec(events.deep_view()),
        final(ctx)@ == old(ctx)@,
{
    let ghost all = events.deep_view();
    let mut state = State {
        doc: FindingsDoc::default(),
        current_file: String::new(),
        saw_root: false,
    };
    let mut i: usize = 0;
    assert(all.take(0) =~= Seq::empty());
    while i < events.len()
        invariant
            i <= events@.len(),
            all == events.deep_view(),
            folded(all.take(i as int)) == Ok::<StateView, ErrorView>(state@),
        decreases events@.len() - i,
    {
        assert(all.take(i as int + 1).drop_last() =~= all.take(i as int));
        assert(all.take(i as int + 1).last() == events[i as int].deep_view());
        match &events[i] {
            XmlEvent::Start(tag) => state.take(tag),
            XmlEvent::Empty(tag) => state.take(tag),
            XmlEvent::Failed(problem) => {
                proof {
                    a_stop_is_final(all, i as int + 1);
                }
                return Err(Error::parse(FORMAT, problem.as_str()));
            },
            _ => {},
        }
        i = i + 1;
    }
    assert(all.take(i as int) =~= all);
    if !state.saw_root {
        return Err(
            Error::parse(
                FORMAT,
                "no <checkstyle> root element — this does not look like a Checkstyle report",
            ),
        );
    }
    let mut doc = state.doc;
    doc.findings = fingerprint_all(&doc.findings);
    doc.sort();
    Ok(Doc::Findings(doc))
}

pub fn read(input: &[u8], ctx: &mut FormatCtx) -> (r: Result<Doc, Error>)
    ensures
        read_result(r) == read_spec(xml_events(input@, true)),
        final(ctx)@ == old(ctx)@,
{
    let events = read_events(input, true);
    read_document(&events, ctx)
}

} // verus!
