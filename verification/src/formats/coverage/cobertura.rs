//! Cobertura XML, the project's primary coverage sink.
//!
//! `coverage.py`'s dialect is the same document with a couple of extra
//! attributes, so it is read by this module too.

use vstd::prelude::*;

use crate::error::{parse_error, Error, ErrorView};
use crate::formats::coverage::cobertura_trip::{
    holds_report, is_report, kept_doc, written_bytes_are_read_again, written_bytes_read_back,
};
use crate::formats::coverage::packages::{by_package, dotted, packages_by, PackageView};
use crate::model::coverage::{
    branch_total, covered_count, fold_files, place_files, sort_doc, stem_part, sum_branches,
    sum_covered, sum_lines, total_branches, total_covered, total_lines, Branch, CoverageDoc,
    CoverageDocView, FileCoverage, FileCoverageView, Function, FunctionView, Line,
};
use crate::paths::{normalize, normalized};
use crate::registry::{read_result, wrong_kind, Doc, DocView};
use crate::text::{
    concat3, contains_char, cut, decimal, decimal_reads_back, is_digit, lacks_char, lower, number,
    owned, parse_u32, parse_u32_spec, same, same_ignoring_case, signed_decimal, signed_number,
    split_once, split_once_at, trim, trimmed, written_numbers_parse,
};
use crate::value::{append_one, empty_list, flat, if_any, non_empty, or_text, text_or, Value};
use crate::warn::{CtxView, FormatCtx};
use crate::xml::{
    and_attr, and_number, carries, close_item, declaration_item, empty_item, get_attr, get_i64,
    get_u32, get_u64, no_attrs, open_item, read_events, rendered, text_item, text_result,
    xml_events, AttrView, Attrs, EventView, Item, Tag, TagView, XmlEvent, XmlWriter,
};

verus! {

pub const FORMAT: &'static str = "cobertura";

/// What the writer signs with.
pub const WRITER: &'static str = "udc-0.1.0";

pub const DOCTYPE: &'static str = "<!DOCTYPE coverage SYSTEM \"http://cobertura.sourceforge.net/xml/coverage-04.dtd\">";

// ---------------------------------------------------------------------------
// Lines
// ---------------------------------------------------------------------------

/// The fraction of `50% (1/2)`.
pub open spec fn condition_fraction(raw: Seq<char>) -> Option<Branch> {
    match split_once(raw, '(') {
        None => None,
        Some((_, rest)) => match split_once(rest, ')') {
            None => None,
            Some((fraction, _)) => match split_once(fraction, '/') {
                None => None,
                Some((covered, total)) => match (
                    parse_u32_spec(trim(covered)),
                    parse_u32_spec(trim(total)),
                ) {
                    (Some(covered), Some(total)) => Some(Branch { covered, total }),
                    _ => None,
                },
            },
        },
    }
}

/// The branches of a line. `branch="true"` alone tells that there is one but
/// not how many arms it has: it counts as a single condition.
pub open spec fn condition_of(tag: TagView) -> Option<Branch> {
    let is_branch = match tag.attr("branch"@) {
        Some(v) => lower(v) == lower("true"@),
        None => false,
    };
    let stated = match tag.attr("condition-coverage"@) {
        Some(raw) => condition_fraction(raw),
        None => None,
    };
    match stated {
        Some(branch) => Some(branch),
        None => if is_branch {
            Some(Branch { covered: 0, total: 1 })
        } else {
            None
        },
    }
}

fn parse_fraction(raw: &str) -> (r: Option<Branch>)
    ensures
        r == condition_fraction(raw@),
{
    let rest = match cut(raw, '(') {
        Some((_, rest)) => rest,
        None => {
            return None;
        },
    };
    let fraction = match cut(rest.as_str(), ')') {
        Some((fraction, _)) => fraction,
        None => {
            return None;
        },
    };
    match cut(fraction.as_str(), '/') {
        Some((covered, total)) => match (
            parse_u32(trimmed(covered.as_str()).as_str()),
            parse_u32(trimmed(total.as_str()).as_str()),
        ) {
            (Some(covered), Some(total)) => Some(Branch { covered, total }),
            _ => None,
        },
        None => None,
    }
}

pub fn parse_condition_coverage(tag: &Tag) -> (r: Option<Branch>)
    ensures
        r == condition_of(tag.deep_view()),
{
    if let Some(raw) = get_attr(tag, "condition-coverage") {
        if let Some(branch) = parse_fraction(raw.as_str()) {
            return Some(branch);
        }
    }
    let is_branch = match get_attr(tag, "branch") {
        Some(v) => same_ignoring_case(v.as_str(), "true"),
        None => false,
    };
    if is_branch {
        Some(Branch { covered: 0, total: 1 })
    } else {
        None
    }
}

// ---------------------------------------------------------------------------
// The state of the reader
// ---------------------------------------------------------------------------

/// What has been read so far.
pub struct StateView {
    pub doc: CoverageDocView,
    pub current: Option<FileCoverageView>,
    /// The open `<method>`: it repeats lines of its class, which are not
    /// collected again.
    pub method: Option<FunctionView>,
    pub in_source: bool,
    pub saw_root: bool,
}

pub struct State {
    doc: CoverageDoc,
    current: Option<FileCoverage>,
    method: Option<Function>,
    in_source: bool,
    saw_root: bool,
}

impl View for State {
    type V = StateView;

    closed spec fn view(&self) -> StateView {
        StateView {
            doc: self.doc.deep_view(),
            current: self.current.deep_view(),
            method: self.method.deep_view(),
            in_source: self.in_source,
            saw_root: self.saw_root,
        }
    }
}

/// Inside a `<method>` a `<line>` locates the method; elsewhere it belongs to
/// the class.
pub open spec fn line_collected(s: StateView, tag: TagView) -> StateView {
    match tag.attr_u32("number"@) {
        None => s,
        Some(number) => {
            let hits = match tag.attr_u64("hits"@) {
                Some(h) => h,
                None => 0,
            };
            match s.method {
                Some(function) => if function.line is None {
                    StateView {
                        method: Some(FunctionView { line: Some(number), hits, ..function }),
                        ..s
                    }
                } else {
                    s
                },
                None => match s.current {
                    Some(file) => StateView {
                        current: Some(
                            FileCoverageView {
                                lines: file.lines.push(
                                    Line { number, hits, branch: condition_of(tag) },
                                ),
                                ..file
                            },
                        ),
                        ..s
                    },
                    None => s,
                },
            }
        },
    }
}

pub open spec fn method_start(tag: TagView) -> FunctionView {
    FunctionView {
        name: or_text(tag.attr("name"@), ""@),
        signature: non_empty(tag.attr("signature"@)),
        line: None,
        hits: 0,
    }
}

pub open spec fn class_file(tag: TagView) -> Option<Seq<char>> {
    match tag.attr("filename"@) {
        Some(p) => non_empty(Some(normalized(p))),
        None => None,
    }
}

/// The state behind a start tag, or why reading stops there.
pub open spec fn started(s: StateView, tag: TagView) -> Result<StateView, ErrorView> {
    if tag.name == "coverage"@ {
        Ok(
            StateView {
                saw_root: true,
                doc: CoverageDocView { timestamp: tag.attr_i64("timestamp"@), ..s.doc },
                ..s
            },
        )
    } else if tag.name == "source"@ {
        Ok(StateView { in_source: true, ..s })
    } else if tag.name == "class"@ {
        match class_file(tag) {
            Some(path) => Ok(StateView { current: Some(FileCoverageView::of(path)), ..s }),
            None => Err(parse_error(FORMAT@, "<class> element without a `filename`"@)),
        }
    } else if tag.name == "method"@ {
        Ok(StateView { method: Some(method_start(tag)), ..s })
    } else if tag.name == "line"@ {
        Ok(line_collected(s, tag))
    } else {
        Ok(s)
    }
}

/// The state behind an empty-element tag.
pub open spec fn emptied(s: StateView, tag: TagView) -> StateView {
    if tag.name == "coverage"@ {
        StateView { saw_root: true, ..s }
    } else if tag.name == "line"@ {
        line_collected(s, tag)
    } else {
        s
    }
}

/// The state behind an end tag.
pub open spec fn ended(s: StateView, name: Seq<char>) -> StateView {
    if name == "source"@ {
        StateView { in_source: false, ..s }
    } else if name == "method"@ {
        match (s.current, s.method) {
            (Some(file), Some(function)) => StateView {
                current: Some(
                    FileCoverageView { functions: file.functions.push(function), ..file },
                ),
                method: None,
                ..s
            },
            _ => StateView { method: None, ..s },
        }
    } else if name == "class"@ {
        match s.current {
            Some(file) => StateView {
                doc: CoverageDocView { files: s.doc.files.push(file), ..s.doc },
                current: None,
                ..s
            },
            None => s,
        }
    } else {
        s
    }
}

pub open spec fn texted(s: StateView, text: Seq<char>) -> StateView {
    if trim(text).len() == 0 {
        s
    } else {
        StateView {
            doc: CoverageDocView { source_roots: s.doc.source_roots.push(trim(text)), ..s.doc },
            ..s
        }
    }
}

/// The state behind one more event, or why reading stops there.
pub open spec fn stepped(s: StateView, event: EventView) -> Result<StateView, ErrorView> {
    match event {
        EventView::Start(tag) => started(s, tag),
        EventView::Empty(tag) => Ok(emptied(s, tag)),
        EventView::End(name) => Ok(ended(s, name)),
        EventView::Text(Ok(text)) => if s.in_source {
            Ok(texted(s, text))
        } else {
            Ok(s)
        },
        EventView::Text(Err(problem)) => if s.in_source {
            Err(parse_error(FORMAT@, problem))
        } else {
            Ok(s)
        },
        EventView::Failed(problem) => Err(parse_error(FORMAT@, problem)),
        _ => Ok(s),
    }
}

impl State {
    fn new() -> (r: Self)
        ensures
            r@ == (StateView {
                doc: CoverageDocView::empty(),
                current: None,
                method: None,
                in_source: false,
                saw_root: false,
            }),
    {
        State {
            doc: CoverageDoc::default(),
            current: None,
            method: None,
            in_source: false,
            saw_root: false,
        }
    }

    fn collect_line(&mut self, tag: &Tag)
        ensures
            final(self)@ == line_collected(old(self)@, tag.deep_view()),
    {
        let number = match get_u32(tag, "number") {
            Some(number) => number,
            None => {
                return;
            },
        };
        let hits: u64 = match get_u64(tag, "hits") {
            Some(hits) => hits,
            None => 0,
        };
        match &self.method {
            Some(function) => {
                if function.line.is_none() {
                    let mut function = function.copy();
                    function.line = Some(number);
                    function.hits = hits;
                    self.method = Some(function);
                }
            },
            None => {
                if let Some(file) = &mut self.current {
                    let branch = parse_condition_coverage(tag);
                    append_one(&mut file.lines, Line { number, hits, branch });
                }
            },
        }
    }

    fn start(&mut self, tag: &Tag) -> (r: Result<(), Error>)
        ensures
            match started(old(self)@, tag.deep_view()) {
                Ok(s) => r is Ok && final(self)@ == s,
                Err(e) => r is Err && r->Err_0.deep_view() == e,
            },
    {
        let name = tag.name.as_str();
        if same(name, "coverage") {
            self.saw_root = true;
            self.doc.timestamp = get_i64(tag, "timestamp");
        } else if same(name, "source") {
            self.in_source = true;
        } else if same(name, "class") {
            let path = match get_attr(tag, "filename") {
                Some(p) => if_any(Some(normalize(p.as_str()))),
                None => None,
            };
            match path {
                Some(path) => {
                    self.current = Some(FileCoverage::new(path.as_str()));
                },
                None => {
                    return Err(Error::parse(FORMAT, "<class> element without a `filename`"));
                },
            }
        } else if same(name, "method") {
            let title = get_attr(tag, "name");
            self.method = Some(
                Function {
                    name: owned(text_or(&title, "")),
                    signature: if_any(get_attr(tag, "signature")),
                    line: None,
                    hits: 0,
                },
            );
        } else if same(name, "line") {
            self.collect_line(tag);
        }
        Ok(())
    }

    fn empty(&mut self, tag: &Tag)
        ensures
            final(self)@ == emptied(old(self)@, tag.deep_view()),
    {
        let name = tag.name.as_str();
        if same(name, "coverage") {
            self.saw_root = true;
        } else if same(name, "line") {
            self.collect_line(tag);
        }
    }

    fn end(&mut self, name: &str)
        ensures
            final(self)@ == ended(old(self)@, name@),
    {
        if same(name, "source") {
            self.in_source = false;
        } else if same(name, "method") {
            if let (Some(file), Some(function)) = (&self.current, &self.method) {
                let mut file = file.copy();
                append_one(&mut file.functions, function.copy());
                self.current = Some(file);
            }
            self.method = None;
        } else if same(name, "class") {
            if let Some(file) = &self.current {
                append_one(&mut self.doc.files, file.copy());
            }
            self.current = None;
        }
    }

    fn text(&mut self, text: &str)
        ensures
            final(self)@ == texted(old(self)@, text@),
    {
        let value = trimmed(text);
        if !value.as_str().is_empty() {
            append_one(&mut self.doc.source_roots, value);
        }
    }

    fn step(&mut self, event: &XmlEvent) -> (r: Result<(), Error>)
        ensures
            match stepped(old(self)@, event.deep_view()) {
                Ok(s) => r is Ok && final(self)@ == s,
                Err(e) => r is Err && r->Err_0.deep_view() == e,
            },
    {
        match event {
            XmlEvent::Start(tag) => {
                return self.start(tag);
            },
            XmlEvent::Empty(tag) => self.empty(tag),
            XmlEvent::End(name) => self.end(name.as_str()),
            XmlEvent::Text(Ok(text)) => {
                if self.in_source {
                    self.text(text.as_str());
                }
            },
            XmlEvent::Text(Err(problem)) => {
                if self.in_source {
                    return Err(Error::parse(FORMAT, problem.as_str()));
                }
            },
            XmlEvent::Failed(problem) => {
                return Err(Error::parse(FORMAT, problem.as_str()));
            },
            _ => {},
        }
        Ok(())
    }
}

// ---------------------------------------------------------------------------
// Reading
// ---------------------------------------------------------------------------

/// The state behind these events, or why reading stops.
pub open spec fn folded(events: Seq<EventView>) -> Result<StateView, ErrorView>
    decreases events.len(),
{
    if events.len() == 0 {
        Ok(
            StateView {
                doc: CoverageDocView::empty(),
                current: None,
                method: None,
                in_source: false,
                saw_root: false,
            },
        )
    } else {
        match folded(events.drop_last()) {
            Ok(s) => stepped(s, events.last()),
            Err(e) => Err(e),
        }
    }
}

proof fn a_stop_is_final(events: Seq<EventView>, i: int)
    requires
        0 <= i <= events.len(),
        folded(events.take(i)) is Err,
    ensures
        folded(events) == folded(events.take(i)),
    decreases events.len(),
{
    if i < events.len() {
        assert(events.drop_last().take(i) =~= events.take(i));
        a_stop_is_final(events.drop_last(), i);
    } else {
        assert(events.take(i) =~= events);
    }
}

/// The document that reading these events gives, or the refusal. One file may
/// be split across several `<class>` elements; they are folded.
pub open spec fn read_spec(events: Seq<EventView>) -> Result<DocView, ErrorView> {
    match folded(events) {
        Err(e) => Err(e),
        Ok(s) => if !s.saw_root {
            Err(
                parse_error(
                    FORMAT@,
                    "no <coverage> root element — this does not look like a Cobertura report"@,
                ),
            )
        } else {
            Ok(
                DocView::Coverage(
                    sort_doc(
                        CoverageDocView { files: fold_files(Seq::empty(), s.doc.files), ..s.doc },
                    ),
                ),
            )
        },
    }
}

/// Reads the events of a document.
pub fn read_document(events: &Vec<XmlEvent>, ctx: &mut FormatCtx) -> (r: Result<Doc, Error>)
    ensures
        read_result(r) == read_spec(events.deep_view()),
        final(ctx)@ == old(ctx)@,
{
    let ghost all = events.deep_view();
    let mut state = State::new();
    let mut i: usize = 0;
    assert(all.take(0) =~= Seq::empty());
    while i < events.len()
        invariant
            i <= events@.len(),
            all == events.deep_view(),
            folded(all.take(i as int)) == Ok::<StateView, ErrorView>(state@),
        decreases events@.len() - i,
    {
        assert(all.take(i as int + 1).drop_last() =~= all.take(i as int));
        assert(all.take(i as int + 1).last() == events[i as int].deep_view());
        match state.step(&events[i]) {
            Ok(_) => {},
            Err(e) => {
                proof {
                    a_stop_is_final(all, i as int + 1);
                }
                return Err(e);
            },
        }
        i = i + 1;
    }
    assert(all.take(i as int) =~= all);
    if !state.saw_root {
        return Err(
            Error::parse(
                FORMAT,
                "no <coverage> root element — this does not look like a Cobertura report",
            ),
        );
    }
    let mut doc = state.doc;
    let mut files: Vec<FileCoverage> = empty_list();
    place_files(&mut files, &doc.files);
    doc.files = files;
    doc.sort();
    Ok(Doc::Coverage(doc))
}

pub fn read(input: &[u8], ctx: &mut FormatCtx) -> (r: Result<Doc, Error>)
    ensures
        read_result(r) == read_spec(xml_events(input@, true)),
        final(ctx)@ == old(ctx)@,
        forall|doc: CoverageDocView, ratios: Seq<RatioView>| #[trigger]
            is_report(input@, doc, ratios) ==> r is Ok,
        forall|doc: CoverageDocView, ratios: Seq<RatioView>| #[trigger]
            holds_report(input@, doc, ratios) ==> read_result(r) == Ok::<DocView, ErrorView>(
                DocView::Coverage(sort_doc(kept_doc(doc))),
            ),
{
    let events = read_events(input, true);
    proof {
        let events = events.deep_view();
        assert forall|doc: CoverageDocView, ratios: Seq<RatioView>| #[trigger]
            is_report(input@, doc, ratios) implies read_spec(events) is Ok by {
            written_bytes_are_read_again(input@, events, doc, ratios);
        }
        assert forall|doc: CoverageDocView, ratios: Seq<RatioView>| #[trigger]
            holds_report(input@, doc, ratios) implies read_spec(events) == Ok::<
            DocView,
            ErrorView,
        >(DocView::Coverage(sort_doc(kept_doc(doc)))) by {
            written_bytes_read_back(input@, events, doc, ratios);
        }
    }
    read_document(&events, ctx)
}

// ---------------------------------------------------------------------------
// Rates
// ---------------------------------------------------------------------------

/// A coverage ratio, written out: to four decimals, and as a whole percentage.
#[derive(Debug, PartialEq, Eq)]
pub struct Ratio {
    pub covered: u64,
    pub valid: u64,
    pub rate: String,
    pub percent: String,
}

/// The content of a [`Ratio`].
pub struct RatioView {
    pub covered: u64,
    pub valid: u64,
    pub rate: Seq<char>,
    pub percent: Seq<char>,
}

impl DeepView for Ratio {
    type V = RatioView;

    open spec fn deep_view(&self) -> RatioView {
        RatioView {
            covered: self.covered,
            valid: self.valid,
            rate: self.rate@,
            percent: self.percent@,
        }
    }
}

/// The position of the ratio of these two, or the length.
pub open spec fn ratio_at(ratios: Seq<RatioView>, covered: u64, valid: u64) -> int
    decreases ratios.len(),
{
    if ratios.len() == 0 || (ratios[0].covered == covered && ratios[0].valid == valid) {
        0
    } else {
        1 + ratio_at(ratios.skip(1), covered, valid)
    }
}

/// The ratio to four decimals. With nothing to cover everything is covered;
/// empty for a ratio that the list does not hold.
pub open spec fn rate_text(ratios: Seq<RatioView>, covered: u64, valid: u64) -> Seq<char> {
    if valid == 0 {
        "1.0000"@
    } else if ratio_at(ratios, covered, valid) < ratios.len() {
        ratios[ratio_at(ratios, covered, valid)].rate
    } else {
        Seq::empty()
    }
}

/// The ratio as a whole percentage. With nothing to cover everything is
/// covered; empty for a ratio that the list does not hold.
pub open spec fn percent_text(ratios: Seq<RatioView>, covered: u64, valid: u64) -> Seq<char> {
    if valid == 0 {
        "100"@
    } else if ratio_at(ratios, covered, valid) < ratios.len() {
        ratios[ratio_at(ratios, covered, valid)].percent
    } else {
        Seq::empty()
    }
}

fn find_ratio(ratios: &Vec<Ratio>, covered: u64, valid: u64) -> (r: usize)
    ensures
        r <= ratios@.len(),
        r == ratio_at(ratios.deep_view(), covered, valid),
{
    let ghost all = ratios.deep_view();
    let mut at: usize = 0;
    assert(all.skip(0) =~= all);
    while at < ratios.len() && !(ratios[at].covered == covered && ratios[at].valid == valid)
        invariant
            at <= ratios@.len(),
            all == ratios.deep_view(),
            ratio_at(all, covered, valid) == at + ratio_at(all.skip(at as int), covered, valid),
        decreases ratios@.len() - at,
    {
        assert(all.skip(at as int)[0] == all[at as int]);
        assert(all.skip(at as int).skip(1) =~= all.skip(at as int + 1));
        at = at + 1;
    }
    proof {
        if at < ratios@.len() {
            assert(all.skip(at as int)[0] == all[at as int]);
        }
    }
    at
}

fn rate_of(ratios: &Vec<Ratio>, covered: u64, valid: u64) -> (r: String)
    ensures
        r@ == rate_text(ratios.deep_view(), covered, valid),
{
    if valid == 0 {
        return owned("1.0000");
    }
    let at = find_ratio(ratios, covered, valid);
    if at < ratios.len() {
        assert(ratios.deep_view()[at as int].rate == ratios[at as int].rate@);
        ratios[at].rate.clone()
    } else {
        String::new()
    }
}

fn percent_of(ratios: &Vec<Ratio>, covered: u64, valid: u64) -> (r: String)
    ensures
        r@ == percent_text(ratios.deep_view(), covered, valid),
{
    if valid == 0 {
        return owned("100");
    }
    let at = find_ratio(ratios, covered, valid);
    if at < ratios.len() {
        assert(ratios.deep_view()[at as int].percent == ratios[at as int].percent@);
        ratios[at].percent.clone()
    } else {
        String::new()
    }
}

// ---------------------------------------------------------------------------
// Classes
// ---------------------------------------------------------------------------

pub open spec fn method_attrs(function: FunctionView) -> Seq<AttrView> {
    seq![
        ("name"@, function.name),
        ("signature"@, or_text(function.signature, ""@)),
        (
            "line-rate"@,
            if function.hits > 0 {
                "1.0"@
            } else {
                "0.0"@
            },
        ),
        ("branch-rate"@, "1.0"@),
        ("complexity"@, decimal(0)),
    ]
}

pub open spec fn place_attrs(number: u32, hits: u64) -> Seq<AttrView> {
    seq![("number"@, decimal(number as nat)), ("hits"@, decimal(hits as nat))]
}

pub open spec fn method_items(function: FunctionView) -> Seq<Item> {
    seq![
        open_item("method"@, method_attrs(function)),
        open_item("lines"@, Seq::empty()),
    ] + (match function.line {
        Some(line) => seq![
            empty_item("line"@, place_attrs(line, function.hits)),
        ],
        None => Seq::empty(),
    }) + seq![close_item("lines"@), close_item("method"@)]
}

/// The DTD requires the element, so it is there without methods too.
pub open spec fn methods_items(functions: Seq<FunctionView>) -> Seq<Item> {
    if functions.len() == 0 {
        seq![empty_item("methods"@, Seq::empty())]
    } else {
        seq![open_item("methods"@, Seq::empty())] + flat(
            functions,
            |f: FunctionView| method_items(f),
        ) + seq![close_item("methods"@)]
    }
}

pub open spec fn line_attrs(line: Line, ratios: Seq<RatioView>) -> Seq<AttrView> {
    let base = place_attrs(line.number, line.hits);
    match line.branch {
        Some(b) => base.push(("branch"@, "true"@)).push(
            (
                "condition-coverage"@,
                percent_text(ratios, b.covered as u64, b.total as u64) + "% ("@ + decimal(
                    b.covered as nat,
                ) + "/"@ + decimal(b.total as nat) + ")"@,
            ),
        ),
        None => base,
    }
}

pub open spec fn class_name(package: Seq<char>, file: FileCoverageView) -> Seq<char> {
    if package.len() == 0 {
        stem_part(file.path)
    } else {
        package + "."@ + stem_part(file.path)
    }
}

pub open spec fn class_attrs(
    package: Seq<char>,
    file: FileCoverageView,
    ratios: Seq<RatioView>,
) -> Seq<AttrView> {
    let branches = branch_total(file.lines);
    seq![
        ("name"@, class_name(package, file)),
        ("filename"@, file.path),
        (
            "line-rate"@,
            rate_text(ratios, covered_count(file.lines) as u64, file.lines.len() as u64),
        ),
        (
            "branch-rate"@,
            rate_text(ratios, branches.covered as u64, branches.total as u64),
        ),
        ("complexity"@, decimal(0)),
    ]
}

pub open spec fn class_items(
    package: Seq<char>,
    file: FileCoverageView,
    ratios: Seq<RatioView>,
) -> Seq<Item> {
    seq![open_item("class"@, class_attrs(package, file, ratios))] + methods_items(file.functions)
        + seq![open_item("lines"@, Seq::empty())] + file.lines.map_values(
        |l: Line| empty_item("line"@, line_attrs(l, ratios)),
    ) + seq![close_item("lines"@), close_item("class"@)]
}

fn write_method(w: &mut XmlWriter, function: &Function)
    requires
        old(w).wf(),
    ensures
        final(w).wf(),
        final(w)@ == old(w)@ + method_items(function.deep_view()),
{
    let attrs = and_attr(no_attrs(), "name", function.name.as_str());
    let attrs = and_attr(attrs, "signature", text_or(&function.signature, ""));
    let attrs = and_attr(
        attrs,
        "line-rate",
        if function.hits > 0 {
            "1.0"
        } else {
            "0.0"
        },
    );
    let attrs = and_attr(attrs, "branch-rate", "1.0");
    let attrs = and_number(attrs, "complexity", 0);
    assert(attrs.deep_view() =~= method_attrs(function.deep_view()));
    w.open("method", &attrs);
    w.start("lines");
    if let Some(line) = function.line {
        let place = and_number(no_attrs(), "number", line as u64);
        let place = and_number(place, "hits", function.hits);
        assert(place.deep_view() =~= place_attrs(line, function.hits));
        w.empty("line", &place);
    }
    w.close("lines");
    w.close("method");
    assert(w@ =~= old(w)@ + method_items(function.deep_view()));
}

fn write_methods(w: &mut XmlWriter, functions: &Vec<Function>)
    requires
        old(w).wf(),
    ensures
        final(w).wf(),
        final(w)@ == old(w)@ + methods_items(functions.deep_view()),
{
    let ghost all = functions.deep_view();
    if functions.len() == 0 {
        w.empty("methods", &no_attrs());
        assert(w@ =~= old(w)@ + methods_items(all));
        return;
    }
    w.start("methods");
    let ghost start = w@;
    let mut i: usize = 0;
    assert(all.take(0) =~= Seq::empty());
    assert(start + Seq::<Item>::empty() =~= start);
    while i < functions.len()
        invariant
            i <= functions@.len(),
            all == functions.deep_view(),
            w.wf(),
            w@ == start + flat(all.take(i as int), |f: FunctionView| method_items(f)),
        decreases functions@.len() - i,
    {
        assert(all.take(i as int + 1).drop_last() =~= all.take(i as int));
        write_method(w, &functions[i]);
        i = i + 1;
        assert(w@ =~= start + flat(all.take(i as int), |f: FunctionView| method_items(f)));
    }
    assert(all.take(i as int) =~= all);
    w.close("methods");
    assert(w@ =~= old(w)@ + methods_items(all));
}

fn attrs_of_line<'a>(line: &Line, ratios: &Vec<Ratio>) -> (r: Attrs<'a>)
    ensures
        r.deep_view() == line_attrs(*line, ratios.deep_view()),
{
    let attrs = and_number(no_attrs(), "number", line.number as u64);
    let attrs = and_number(attrs, "hits", line.hits);
    assert(attrs.deep_view() =~= place_attrs(line.number, line.hits));
    match line.branch {
        Some(b) => {
            let mut text = concat3(
                percent_of(ratios, b.covered as u64, b.total as u64).as_str(),
                "% (",
                number(b.covered as u64).as_str(),
            );
            text.append("/");
            text.append(number(b.total as u64).as_str());
            text.append(")");
            and_attr(and_attr(attrs, "branch", "true"), "condition-coverage", text.as_str())
        },
        None => attrs,
    }
}

fn write_lines(w: &mut XmlWriter, lines: &Vec<Line>, ratios: &Vec<Ratio>)
    requires
        old(w).wf(),
    ensures
        final(w).wf(),
        final(w)@ == old(w)@ + lines.deep_view().map_values(
            |l: Line| empty_item("line"@, line_attrs(l, ratios.deep_view())),
        ),
{
    let ghost table = ratios.deep_view();
    let ghost goal = lines.deep_view().map_values(
        |l: Line| empty_item("line"@, line_attrs(l, table)),
    );
    let ghost start = w@;
    let mut i: usize = 0;
    assert(start + goal.take(0) =~= start);
    while i < lines.len()
        invariant
            i <= lines@.len(),
            table == ratios.deep_view(),
            goal == lines.deep_view().map_values(
                |l: Line| empty_item("line"@, line_attrs(l, table)),
            ),
            w.wf(),
            w@ == start + goal.take(i as int),
        decreases lines@.len() - i,
    {
        w.empty("line", &attrs_of_line(&lines[i], ratios));
        i = i + 1;
        assert(w@ =~= start + goal.take(i as int));
    }
    assert(goal.take(i as int) =~= goal);
}

pub fn write_class(w: &mut XmlWriter, package: &str, file: &FileCoverage, ratios: &Vec<Ratio>)
    requires
        old(w).wf(),
    ensures
        final(w).wf(),
        final(w)@ == old(w)@ + class_items(package@, file.deep_view(), ratios.deep_view()),
{
    let name = if package.is_empty() {
        owned(file.stem())
    } else {
        concat3(package, ".", file.stem())
    };
    let branches = file.branches();
    let attrs = and_attr(no_attrs(), "name", name.as_str());
    let attrs = and_attr(attrs, "filename", file.path.as_str());
    let attrs = and_attr(
        attrs,
        "line-rate",
        rate_of(ratios, file.lines_covered(), file.lines_valid()).as_str(),
    );
    let attrs = and_attr(
        attrs,
        "branch-rate",
        rate_of(ratios, branches.covered as u64, branches.total as u64).as_str(),
    );
    let attrs = and_number(attrs, "complexity", 0);
    assert(attrs.deep_view() =~= class_attrs(package@, file.deep_view(), ratios.deep_view()));
    w.open("class", &attrs);
    write_methods(w, &file.functions);
    w.start("lines");
    write_lines(w, &file.lines, ratios);
    w.close("lines");
    w.close("class");
    assert(w@ =~= old(w)@ + class_items(package@, file.deep_view(), ratios.deep_view()));
}

// ---------------------------------------------------------------------------
// Packages
// ---------------------------------------------------------------------------

pub open spec fn package_attrs(
    package: Seq<char>,
    files: Seq<FileCoverageView>,
    ratios: Seq<RatioView>,
) -> Seq<AttrView> {
    let branches = total_branches(files);
    seq![
        ("name"@, package),
        ("line-rate"@, rate_text(ratios, total_covered(files), total_lines(files))),
        (
            "branch-rate"@,
            rate_text(ratios, branches.covered as u64, branches.total as u64),
        ),
        ("complexity"@, decimal(0)),
    ]
}

pub open spec fn package_items(
    package: Seq<char>,
    files: Seq<FileCoverageView>,
    ratios: Seq<RatioView>,
) -> Seq<Item> {
    seq![
        open_item("package"@, package_attrs(package, files, ratios)),
        open_item("classes"@, Seq::empty()),
    ] + flat(files, |f: FileCoverageView| class_items(package, f, ratios)) + seq![
        close_item("classes"@),
        close_item("package"@),
    ]
}

/// The packages: one for each directory, with all its files.
pub open spec fn packages_items(
    files: Seq<FileCoverageView>,
    ratios: Seq<RatioView>,
) -> Seq<Item> {
    flat(
        packages_by(files, dotted()),
        |p: PackageView| package_items(p.name, p.files, ratios),
    )
}

pub fn write_package(
    w: &mut XmlWriter,
    package: &str,
    files: &Vec<FileCoverage>,
    ratios: &Vec<Ratio>,
)
    requires
        old(w).wf(),
    ensures
        final(w).wf(),
        final(w)@ == old(w)@ + package_items(package@, files.deep_view(), ratios.deep_view()),
{
    let ghost all = files.deep_view();
    let ghost table = ratios.deep_view();
    let count = files.len();
    assert(all.subrange(0, count as int) =~= all);
    let branches = sum_branches(files, 0, count);
    let attrs = and_attr(no_attrs(), "name", package);
    let attrs = and_attr(
        attrs,
        "line-rate",
        rate_of(ratios, sum_covered(files, 0, count), sum_lines(files, 0, count)).as_str(),
    );
    let attrs = and_attr(
        attrs,
        "branch-rate",
        rate_of(ratios, branches.covered as u64, branches.total as u64).as_str(),
    );
    let attrs = and_number(attrs, "complexity", 0);
    assert(attrs.deep_view() =~= package_attrs(package@, all, table));
    w.open("package", &attrs);
    w.start("classes");
    let ghost start = w@;
    let mut i: usize = 0;
    assert(all.take(0) =~= Seq::empty());
    assert(start + Seq::<Item>::empty() =~= start);
    while i < files.len()
        invariant
            i <= files@.len(),
            all == files.deep_view(),
            table == ratios.deep_view(),
            w.wf(),
            w@ == start + flat(
                all.take(i as int),
                |f: FileCoverageView| class_items(package@, f, table),
            ),
        decreases files@.len() - i,
    {
        assert(all.take(i as int + 1).drop_last() =~= all.take(i as int));
        write_class(w, package, &files[i], ratios);
        i = i + 1;
        assert(w@ =~= start + flat(
            all.take(i as int),
            |f: FileCoverageView| class_items(package@, f, table),
        ));
    }
    assert(all.take(i as int) =~= all);
    w.close("classes");
    w.close("package");
    assert(w@ =~= old(w)@ + package_items(package@, all, table));
}

fn write_packages(w: &mut XmlWriter, files: &Vec<FileCoverage>, ratios: &Vec<Ratio>)
    requires
        old(w).wf(),
    ensures
        final(w).wf(),
        final(w)@ == old(w)@ + packages_items(files.deep_view(), ratios.deep_view()),
{
    let packages = by_package(files);
    let ghost all = packages.deep_view();
    let ghost table = ratios.deep_view();
    let ghost start = w@;
    let mut i: usize = 0;
    assert(all.take(0) =~= Seq::empty());
    assert(start + Seq::<Item>::empty() =~= start);
    while i < packages.len()
        invariant
            i <= packages@.len(),
            all == packages.deep_view(),
            table == ratios.deep_view(),
            w.wf(),
            w@ == start + flat(
                all.take(i as int),
                |p: PackageView| package_items(p.name, p.files, table),
            ),
        decreases packages@.len() - i,
    {
        assert(all.take(i as int + 1).drop_last() =~= all.take(i as int));
        assert(all[i as int] == packages[i as int].deep_view());
        let package = &packages[i];
        write_package(w, package.name.as_str(), &package.files, ratios);
        i = i + 1;
        assert(w@ =~= start + flat(
            all.take(i as int),
            |p: PackageView| package_items(p.name, p.files, table),
        ));
    }
    assert(all.take(i as int) =~= all);
}

// ---------------------------------------------------------------------------
// The report
// ---------------------------------------------------------------------------

pub open spec fn source_items(roots: Seq<Seq<char>>) -> Seq<Item> {
    if roots.len() == 0 {
        seq![text_item("source"@, "."@)]
    } else {
        roots.map_values(|root: Seq<char>| text_item("source"@, root))
    }
}

pub open spec fn coverage_attrs(
    doc: CoverageDocView,
    ratios: Seq<RatioView>,
) -> Seq<AttrView> {
    let branches = total_branches(doc.files);
    seq![
        (
            "line-rate"@,
            rate_text(ratios, total_covered(doc.files), total_lines(doc.files)),
        ),
        (
            "branch-rate"@,
            rate_text(ratios, branches.covered as u64, branches.total as u64),
        ),
        ("lines-covered"@, decimal(total_covered(doc.files) as nat)),
        ("lines-valid"@, decimal(total_lines(doc.files) as nat)),
        ("branches-covered"@, decimal(branches.covered as nat)),
        ("branches-valid"@, decimal(branches.total as nat)),
        ("complexity"@, decimal(0)),
        ("version"@, WRITER@),
        (
            "timestamp"@,
            signed_decimal(
                match doc.timestamp {
                    Some(t) => t as int,
                    None => 0,
                },
            ),
        ),
    ]
}

/// The lines of a report.
pub open spec fn report_items(doc: CoverageDocView, ratios: Seq<RatioView>) -> Seq<Item> {
    seq![
        declaration_item(),
        Item::Raw { text: DOCTYPE@ },
        open_item("coverage"@, coverage_attrs(doc, ratios)),
        open_item("sources"@, Seq::empty()),
    ] + source_items(doc.source_roots) + seq![
        close_item("sources"@),
        open_item("packages"@, Seq::empty()),
    ] + packages_items(doc.files, ratios) + seq![close_item("packages"@), close_item("coverage"@)]
}

pub open spec fn notices(doc: CoverageDocView, ctx: CtxView) -> CtxView {
    ctx.lossy_if(
        doc.has_extra_counters(),
        "cobertura: JaCoCo instruction/complexity/method counters have no Cobertura equivalent and were dropped"@,
    )
}

pub open spec fn written(doc: DocView, ratios: Seq<RatioView>, ctx: CtxView) -> (
    Result<Seq<char>, ErrorView>,
    CtxView,
) {
    match doc {
        DocView::Coverage(doc) => (Ok(rendered(report_items(doc, ratios))), notices(doc, ctx)),
        _ => (Err(wrong_kind("expected a coverage report"@)), ctx),
    }
}

fn write_sources(w: &mut XmlWriter, roots: &Vec<String>)
    requires
        old(w).wf(),
    ensures
        final(w).wf(),
        final(w)@ == old(w)@ + source_items(roots.deep_view()),
{
    if roots.len() == 0 {
        w.text("source", ".");
        assert(w@ =~= old(w)@ + source_items(roots.deep_view()));
        return;
    }
    let ghost goal = source_items(roots.deep_view());
    let ghost start = w@;
    let mut i: usize = 0;
    assert(start + goal.take(0) =~= start);
    while i < roots.len()
        invariant
            i <= roots@.len(),
            roots@.len() > 0,
            goal == source_items(roots.deep_view()),
            w.wf(),
            w@ == start + goal.take(i as int),
        decreases roots@.len() - i,
    {
        w.text("source", roots[i].as_str());
        i = i + 1;
        assert(w@ =~= start + goal.take(i as int));
    }
    assert(goal.take(i as int) =~= goal);
}

fn report_text(doc: &CoverageDoc, ratios: &Vec<Ratio>) -> (r: String)
    ensures
        r@ == rendered(report_items(doc.deep_view(), ratios.deep_view())),
{
    let branches = doc.branches();
    let mut w = XmlWriter::new();
    w.declaration();
    w.line(DOCTYPE);
    let covered = doc.lines_covered();
    let valid = doc.lines_valid();
    let attrs = and_attr(no_attrs(), "line-rate", rate_of(ratios, covered, valid).as_str());
    let attrs = and_attr(
        attrs,
        "branch-rate",
        rate_of(ratios, branches.covered as u64, branches.total as u64).as_str(),
    );
    let attrs = and_number(attrs, "lines-covered", covered);
    let attrs = and_number(attrs, "lines-valid", valid);
    let attrs = and_number(attrs, "branches-covered", branches.covered as u64);
    let attrs = and_number(attrs, "branches-valid", branches.total as u64);
    let attrs = and_number(attrs, "complexity", 0);
    let attrs = and_attr(attrs, "version", WRITER);
    let timestamp: i64 = match doc.timestamp {
        Some(t) => t,
        None => 0,
    };
    let attrs = and_attr(attrs, "timestamp", signed_number(timestamp).as_str());
    assert(attrs.deep_view() =~= coverage_attrs(doc.deep_view(), ratios.deep_view()));
    w.open("coverage", &attrs);
    w.start("sources");
    write_sources(&mut w, &doc.source_roots);
    w.close("sources");
    w.start("packages");
    write_packages(&mut w, &doc.files, ratios);
    w.close("packages");
    w.close("coverage");
    assert(w@ =~= report_items(doc.deep_view(), ratios.deep_view()));
    w.finish()
}

/// Writes a report. `ratios` holds the ratios that [`needed_ratios`] lists,
/// written out.
pub fn write(doc: &Doc, ratios: &Vec<Ratio>, ctx: &mut FormatCtx) -> (r: Result<String, Error>)
    ensures
        (text_result(r), final(ctx)@) == written(doc.deep_view(), ratios.deep_view(), old(ctx)@),
{
    let doc = match doc.as_coverage() {
        Ok(doc) => doc,
        Err(e) => {
            return Err(e);
        },
    };
    if doc.has_extra_counters() {
        ctx.lossy(
            "cobertura: JaCoCo instruction/complexity/method counters have no Cobertura equivalent and were dropped",
        );
    }
    Ok(report_text(doc, ratios))
}

// ---------------------------------------------------------------------------
// The ratios of a report
// ---------------------------------------------------------------------------

pub open spec fn line_ratios(line: Line) -> Seq<(u64, u64)> {
    match line.branch {
        Some(b) => seq![(b.covered as u64, b.total as u64)],
        None => Seq::empty(),
    }
}

/// The two ratios that a class, a package and a report begin with.
pub open spec fn head_ratios(covered: u64, valid: u64, branches: Branch) -> Seq<(u64, u64)> {
    seq![(covered, valid), (branches.covered as u64, branches.total as u64)]
}

pub open spec fn class_ratios(file: FileCoverageView) -> Seq<(u64, u64)> {
    head_ratios(
        covered_count(file.lines) as u64,
        file.lines.len() as u64,
        branch_total(file.lines),
    ) + flat(file.lines, |l: Line| line_ratios(l))
}

pub open spec fn package_ratios(files: Seq<FileCoverageView>) -> Seq<(u64, u64)> {
    head_ratios(total_covered(files), total_lines(files), total_branches(files)) + flat(
        files,
        |f: FileCoverageView| class_ratios(f),
    )
}

pub open spec fn packages_ratios(files: Seq<FileCoverageView>) -> Seq<(u64, u64)> {
    flat(packages_by(files, dotted()), |p: PackageView| package_ratios(p.files))
}

/// The ratios that a report states, in its order.
pub open spec fn report_ratios(doc: CoverageDocView) -> Seq<(u64, u64)> {
    head_ratios(total_covered(doc.files), total_lines(doc.files), total_branches(doc.files))
        + packages_ratios(doc.files)
}

fn push_head(out: &mut Vec<(u64, u64)>, covered: u64, valid: u64, branches: Branch)
    ensures
        final(out)@ == old(out)@ + head_ratios(covered, valid, branches),
{
    out.push((covered, valid));
    out.push((branches.covered as u64, branches.total as u64));
    assert(out@ =~= old(out)@ + head_ratios(covered, valid, branches));
}

fn push_class(out: &mut Vec<(u64, u64)>, file: &FileCoverage)
    ensures
        final(out)@ == old(out)@ + class_ratios(file.deep_view()),
{
    let ghost lines = file.deep_view().lines;
    push_head(out, file.lines_covered(), file.lines_valid(), file.branches());
    let ghost start = out@;
    let mut i: usize = 0;
    assert(lines.take(0) =~= Seq::empty());
    assert(start + Seq::<(u64, u64)>::empty() =~= start);
    while i < file.lines.len()
        invariant
            i <= file.lines@.len(),
            lines == file.lines.deep_view(),
            out@ == start + flat(lines.take(i as int), |l: Line| line_ratios(l)),
        decreases file.lines@.len() - i,
    {
        assert(lines.take(i as int + 1).drop_last() =~= lines.take(i as int));
        if let Some(b) = file.lines[i].branch {
            out.push((b.covered as u64, b.total as u64));
        }
        i = i + 1;
        assert(out@ =~= start + flat(lines.take(i as int), |l: Line| line_ratios(l)));
    }
    assert(lines.take(i as int) =~= lines);
    assert(out@ =~= old(out)@ + class_ratios(file.deep_view()));
}

fn push_package(out: &mut Vec<(u64, u64)>, files: &Vec<FileCoverage>)
    ensures
        final(out)@ == old(out)@ + package_ratios(files.deep_view()),
{
    let ghost all = files.deep_view();
    let count = files.len();
    assert(all.subrange(0, count as int) =~= all);
    push_head(
        out,
        sum_covered(files, 0, count),
        sum_lines(files, 0, count),
        sum_branches(files, 0, count),
    );
    let ghost start = out@;
    let mut i: usize = 0;
    assert(all.take(0) =~= Seq::empty());
    assert(start + Seq::<(u64, u64)>::empty() =~= start);
    while i < files.len()
        invariant
            i <= files@.len(),
            all == files.deep_view(),
            out@ == start + flat(all.take(i as int), |f: FileCoverageView| class_ratios(f)),
        decreases files@.len() - i,
    {
        assert(all.take(i as int + 1).drop_last() =~= all.take(i as int));
        push_class(out, &files[i]);
        i = i + 1;
        assert(out@ =~= start + flat(
            all.take(i as int),
            |f: FileCoverageView| class_ratios(f),
        ));
    }
    assert(all.take(i as int) =~= all);
    assert(out@ =~= old(out)@ + package_ratios(all));
}

/// The ratios that the report of a document states, each covered and valid;
/// none for a document of another kind.
pub fn needed_ratios(doc: &Doc) -> (r: Vec<(u64, u64)>)
    ensures
        r@ == (match doc.deep_view() {
            DocView::Coverage(doc) => report_ratios(doc),
            _ => Seq::empty(),
        }),
{
    let mut out: Vec<(u64, u64)> = Vec::new();
    let doc = match doc.as_coverage() {
        Ok(doc) => doc,
        Err(_) => {
            return out;
        },
    };
    push_head(&mut out, doc.lines_covered(), doc.lines_valid(), doc.branches());
    let packages = by_package(&doc.files);
    let ghost all = packages.deep_view();
    let ghost start = out@;
    let mut i: usize = 0;
    assert(all.take(0) =~= Seq::empty());
    assert(start + Seq::<(u64, u64)>::empty() =~= start);
    while i < packages.len()
        invariant
            i <= packages@.len(),
            all == packages.deep_view(),
            out@ == start + flat(all.take(i as int), |p: PackageView| package_ratios(p.files)),
        decreases packages@.len() - i,
    {
        assert(all.take(i as int + 1).drop_last() =~= all.take(i as int));
        assert(all[i as int] == packages[i as int].deep_view());
        push_package(&mut out, &packages[i].files);
        i = i + 1;
        assert(out@ =~= start + flat(
            all.take(i as int),
            |p: PackageView| package_ratios(p.files),
        ));
    }
    assert(all.take(i as int) =~= all);
    assert(out@ =~= report_ratios(doc.deep_view()));
    out
}

// ---------------------------------------------------------------------------
// Laws
// ---------------------------------------------------------------------------

/// Two lists of ratios that write these pairs out alike.
pub open spec fn agree(a: Seq<RatioView>, b: Seq<RatioView>, pairs: Seq<(u64, u64)>) -> bool {
    forall|i: int|
        0 <= i < pairs.len() ==> {
            let p = #[trigger] pairs[i];
            rate_text(a, p.0, p.1) == rate_text(b, p.0, p.1) && percent_text(a, p.0, p.1)
                == percent_text(b, p.0, p.1)
        }
}

proof fn agree_on_parts(
    a: Seq<RatioView>,
    b: Seq<RatioView>,
    first: Seq<(u64, u64)>,
    second: Seq<(u64, u64)>,
)
    requires
        agree(a, b, first + second),
    ensures
        agree(a, b, first),
        agree(a, b, second),
{
    let both = first + second;
    assert forall|i: int| 0 <= i < first.len() implies ({
        let p = #[trigger] first[i];
        rate_text(a, p.0, p.1) == rate_text(b, p.0, p.1) && percent_text(a, p.0, p.1)
            == percent_text(b, p.0, p.1)
    }) by {
        assert(both[i] == first[i]);
    }
    assert forall|i: int| 0 <= i < second.len() implies ({
        let p = #[trigger] second[i];
        rate_text(a, p.0, p.1) == rate_text(b, p.0, p.1) && percent_text(a, p.0, p.1)
            == percent_text(b, p.0, p.1)
    }) by {
        assert(both[i + first.len()] == second[i]);
    }
}

proof fn heads_agree(
    a: Seq<RatioView>,
    b: Seq<RatioView>,
    covered: u64,
    valid: u64,
    branches: Branch,
)
    requires
        agree(a, b, head_ratios(covered, valid, branches)),
    ensures
        rate_text(a, covered, valid) == rate_text(b, covered, valid),
        rate_text(a, branches.covered as u64, branches.total as u64) == rate_text(
            b,
            branches.covered as u64,
            branches.total as u64,
        ),
{
    let head = head_ratios(covered, valid, branches);
    assert(head[0] == (covered, valid));
    assert(head[1] == (branches.covered as u64, branches.total as u64));
}

proof fn lines_agree(a: Seq<RatioView>, b: Seq<RatioView>, lines: Seq<Line>)
    requires
        agree(a, b, flat(lines, |l: Line| line_ratios(l))),
    ensures
        forall|i: int|
            0 <= i < lines.len() ==> line_attrs(#[trigger] lines[i], a) == line_attrs(lines[i], b),
    decreases lines.len(),
{
    if lines.len() > 0 {
        let rest = lines.drop_last();
        let ratios = |l: Line| line_ratios(l);
        agree_on_parts(a, b, flat(rest, ratios), line_ratios(lines.last()));
        lines_agree(a, b, rest);
        assert forall|i: int| 0 <= i < lines.len() implies line_attrs(#[trigger] lines[i], a)
            == line_attrs(lines[i], b) by {
            if i < rest.len() {
                assert(rest[i] == lines[i]);
            } else {
                let own = line_ratios(lines.last());
                if lines.last().branch is Some {
                    assert(own[0] == own[0]);
                }
            }
        }
    }
}

proof fn classes_agree(
    a: Seq<RatioView>,
    b: Seq<RatioView>,
    package: Seq<char>,
    file: FileCoverageView,
)
    requires
        agree(a, b, class_ratios(file)),
    ensures
        class_items(package, file, a) == class_items(package, file, b),
{
    let covered = covered_count(file.lines) as u64;
    let valid = file.lines.len() as u64;
    let branches = branch_total(file.lines);
    let lines = flat(file.lines, |l: Line| line_ratios(l));
    agree_on_parts(a, b, head_ratios(covered, valid, branches), lines);
    heads_agree(a, b, covered, valid, branches);
    lines_agree(a, b, file.lines);
    assert(file.lines.map_values(|l: Line| empty_item("line"@, line_attrs(l, a)))
        =~= file.lines.map_values(|l: Line| empty_item("line"@, line_attrs(l, b))));
    assert(class_attrs(package, file, a) =~= class_attrs(package, file, b));
}

proof fn files_agree(
    a: Seq<RatioView>,
    b: Seq<RatioView>,
    package: Seq<char>,
    files: Seq<FileCoverageView>,
)
    requires
        agree(a, b, flat(files, |f: FileCoverageView| class_ratios(f))),
    ensures
        flat(files, |f: FileCoverageView| class_items(package, f, a)) == flat(
            files,
            |f: FileCoverageView| class_items(package, f, b),
        ),
    decreases files.len(),
{
    if files.len() > 0 {
        let ratios = |f: FileCoverageView| class_ratios(f);
        agree_on_parts(a, b, flat(files.drop_last(), ratios), class_ratios(files.last()));
        files_agree(a, b, package, files.drop_last());
        classes_agree(a, b, package, files.last());
    }
}

proof fn packages_agree(a: Seq<RatioView>, b: Seq<RatioView>, packages: Seq<PackageView>)
    requires
        agree(a, b, flat(packages, |p: PackageView| package_ratios(p.files))),
    ensures
        flat(packages, |p: PackageView| package_items(p.name, p.files, a)) == flat(
            packages,
            |p: PackageView| package_items(p.name, p.files, b),
        ),
    decreases packages.len(),
{
    if packages.len() > 0 {
        let before = packages.drop_last();
        let last = packages.last();
        let own = last.files;
        agree_on_parts(
            a,
            b,
            flat(before, |p: PackageView| package_ratios(p.files)),
            package_ratios(own),
        );
        packages_agree(a, b, before);
        let head = head_ratios(total_covered(own), total_lines(own), total_branches(own));
        let classes = flat(own, |f: FileCoverageView| class_ratios(f));
        agree_on_parts(a, b, head, classes);
        heads_agree(a, b, total_covered(own), total_lines(own), total_branches(own));
        files_agree(a, b, last.name, own);
        assert(package_attrs(last.name, own, a) =~= package_attrs(last.name, own, b));
    }
}

/// The ratios that [`needed_ratios`] lists are all that a report depends on:
/// two lists that write those out alike give the same report.
pub proof fn needed_ratios_suffice(
    doc: CoverageDocView,
    a: Seq<RatioView>,
    b: Seq<RatioView>,
)
    requires
        agree(a, b, report_ratios(doc)),
    ensures
        report_items(doc, a) == report_items(doc, b),
{
    let files = doc.files;
    let head = head_ratios(total_covered(files), total_lines(files), total_branches(files));
    agree_on_parts(a, b, head, packages_ratios(files));
    heads_agree(a, b, total_covered(files), total_lines(files), total_branches(files));
    packages_agree(a, b, packages_by(files, dotted()));
    assert(coverage_attrs(doc, a) =~= coverage_attrs(doc, b));
}

proof fn conditions_read_back(percent: Seq<char>, b: Branch)
    requires
        !contains_char(percent, '('),
    ensures
        condition_fraction(
            percent + "% ("@ + decimal(b.covered as nat) + "/"@ + decimal(b.total as nat) + ")"@,
        ) == Some(b),
{
    let covered = decimal(b.covered as nat);
    let total = decimal(b.total as nat);
    written_numbers_parse(b.covered as u64);
    written_numbers_parse(b.total as u64);
    decimal_reads_back(b.covered as nat);
    decimal_reads_back(b.total as nat);
    reveal_strlit("% (");
    reveal_strlit("/");
    reveal_strlit(")");
    let raw = percent + "% ("@ + covered + "/"@ + total + ")"@;
    let head = percent + seq!['%', ' '];
    let fraction = covered.push('/') + total;
    let none = Seq::<char>::empty();
    let rest = fraction.push(')') + none;
    assert(raw =~= head.push('(') + rest);
    lacks_char(percent, '(');
    lacks_char(head, '(');
    lacks_char(fraction, ')');
    lacks_char(covered, '/');
    assert(!contains_char(head, '(')) by {
        assert forall|i: int| 0 <= i < head.len() implies head[i] != '(' by {
            if i < percent.len() {
                assert(percent[i] == head[i]);
            }
        }
    }
    split_once_at(head, '(', rest);
    assert(forall|i: int| 0 <= i < covered.len() ==> is_digit(#[trigger] covered[i]));
    assert(forall|i: int| 0 <= i < total.len() ==> is_digit(#[trigger] total[i]));
    assert(!contains_char(fraction, ')')) by {
        assert forall|i: int| 0 <= i < fraction.len() implies fraction[i] != ')' by {
            if i < covered.len() {
                assert(fraction[i] == covered[i]);
            } else if i > covered.len() {
                assert(fraction[i] == total[i - covered.len() - 1]);
            }
        }
    }
    split_once_at(fraction, ')', none);
    assert(!contains_char(covered, '/'));
    split_once_at(covered, '/', total);
}

/// A tag with the attributes that a line is written with, and no others that
/// speak of branches, reads as that line. The percentage is not read.
pub proof fn lines_read_back(line: Line, ratios: Seq<RatioView>, tag: TagView)
    requires
        carries(tag, line_attrs(line, ratios)),
        line.branch is None ==> tag.attr("branch"@) is None
            && tag.attr("condition-coverage"@) is None,
        line.branch is Some ==> !contains_char(
            percent_text(ratios, line.branch->0.covered as u64, line.branch->0.total as u64),
            '(',
        ),
    ensures
        tag.attr_u32("number"@) == Some(line.number),
        tag.attr_u64("hits"@) == Some(line.hits),
        condition_of(tag) == line.branch,
{
    let attrs = line_attrs(line, ratios);
    written_numbers_parse(line.number as u64);
    written_numbers_parse(line.hits);
    assert(attrs[0].0 == "number"@);
    assert(attrs[1].0 == "hits"@);
    if let Some(b) = line.branch {
        assert(attrs[3].0 == "condition-coverage"@);
        conditions_read_back(percent_text(ratios, b.covered as u64, b.total as u64), b);
    }
}

} // verus!
