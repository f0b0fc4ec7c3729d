//! Clover XML — what PHPUnit (`--coverage-clover`) and Jest's `clover` reporter
//! produce, and the usual coverage format in the PHP world.
//!
//! The root element is `<coverage>`, the same as Cobertura's: the reader
//! refuses a Cobertura root rather than reading it as an empty report. A `cond`
//! line has exactly two outcomes, true and false; a line with more than two
//! branches is reported as degraded when it is written.

use vstd::prelude::*;

use crate::error::{parse_error, Error, ErrorView};
use crate::formats::coverage::clover_trip::{
    holds_report, is_report, kept_doc, written_bytes_are_read_again, written_bytes_read_back,
};
use crate::formats::coverage::packages::{by_package, dotted, packages_by, PackageView};
use crate::model::coverage::{
    name_part, sort_doc, Branch, CoverageDoc, CoverageDocView, FileCoverage, FileCoverageView,
    Function, FunctionView, Line,
};
use crate::paths::{normalize, normalized};
use crate::registry::{read_result, wrong_kind, Doc, DocView};
use crate::text::{decimal, owned, same, signed_decimal, signed_number, written_numbers_parse};
use crate::value::{
    any_in, append_one, either, flat, if_any, non_empty, or_else, or_text, text_or, Value,
};
use crate::warn::{CtxView, FormatCtx};
use crate::xml::{
    and_attr, and_number, carries, close_item, declaration_item, empty_item, get_attr, get_i64,
    get_u32, get_u64, no_attrs, open_item, read_events, rendered, text_result, xml_events, AttrView,
    Attrs, EventView, Item, Tag, TagView, XmlEvent, XmlWriter,
};

verus! {

pub const FORMAT: &'static str = "clover";

/// What the writer signs with.
pub const WRITER: &'static str = "udc-0.1.0";

// ---------------------------------------------------------------------------
// Lines
// ---------------------------------------------------------------------------

pub open spec fn counted(count: Option<u64>) -> u64 {
    match count {
        Some(n) => n,
        None => 0,
    }
}

pub open spec fn kind_of(tag: TagView) -> Seq<char> {
    or_text(tag.attr("type"@), "stmt"@)
}

/// How many of the two outcomes happened.
pub open spec fn outcomes(taken: u64, not_taken: u64) -> u32 {
    match (taken > 0, not_taken > 0) {
        (true, true) => 2,
        (false, false) => 0,
        _ => 1,
    }
}

/// The line that a `<line>` describes.
pub open spec fn line_of(tag: TagView) -> Option<Line> {
    match tag.attr_u32("num"@) {
        None => None,
        Some(number) => if kind_of(tag) == "cond"@ {
            let taken = counted(tag.attr_u64("truecount"@));
            let not_taken = counted(tag.attr_u64("falsecount"@));
            Some(
                Line {
                    number,
                    hits: taken.wrapping_add(not_taken),
                    branch: Some(Branch { covered: outcomes(taken, not_taken), total: 2 }),
                },
            )
        } else {
            Some(Line { number, hits: counted(tag.attr_u64("count"@)), branch: None })
        },
    }
}

/// The file with a `<line>` collected. A method's declaration line is
/// executable too, and consumers count it.
pub open spec fn line_collected(file: FileCoverageView, tag: TagView) -> FileCoverageView {
    match line_of(tag) {
        None => file,
        Some(line) => FileCoverageView {
            functions: if kind_of(tag) == "method"@ {
                file.functions.push(
                    FunctionView {
                        name: or_text(tag.attr("name"@), ""@),
                        signature: None,
                        line: Some(line.number),
                        hits: line.hits,
                    },
                )
            } else {
                file.functions
            },
            lines: file.lines.push(line),
            ..file
        },
    }
}

fn number_or_zero(count: Option<u64>) -> (r: u64)
    ensures
        r == counted(count),
{
    match count {
        Some(n) => n,
        None => 0,
    }
}

pub fn collect_line(tag: &Tag, file: &mut FileCoverage)
    ensures
        final(file).deep_view() == line_collected(old(file).deep_view(), tag.deep_view()),
{
    let number = match get_u32(tag, "num") {
        Some(number) => number,
        None => {
            return;
        },
    };
    let stated = get_attr(tag, "type");
    let kind = text_or(&stated, "stmt");
    let line = if same(kind, "cond") {
        let taken = number_or_zero(get_u64(tag, "truecount"));
        let not_taken = number_or_zero(get_u64(tag, "falsecount"));
        let covered: u32 = match (taken > 0, not_taken > 0) {
            (true, true) => 2,
            (false, false) => 0,
            _ => 1,
        };
        Line {
            number,
            hits: taken.wrapping_add(not_taken),
            branch: Some(Branch { covered, total: 2 }),
        }
    } else {
        Line { number, hits: number_or_zero(get_u64(tag, "count")), branch: None }
    };
    if same(kind, "method") {
        let name = get_attr(tag, "name");
        append_one(
            &mut file.functions,
            Function {
                name: owned(text_or(&name, "")),
                signature: None,
                line: Some(number),
                hits: line.hits,
            },
        );
    }
    append_one(&mut file.lines, line);
}

// ---------------------------------------------------------------------------
// The state of the reader
// ---------------------------------------------------------------------------

/// What has been read so far.
pub struct StateView {
    pub doc: CoverageDocView,
    pub current: Option<FileCoverageView>,
    pub saw_root: bool,
}

pub struct State {
    doc: CoverageDoc,
    current: Option<FileCoverage>,
    saw_root: bool,
}

impl View for State {
    type V = StateView;

    closed spec fn view(&self) -> StateView {
        StateView {
            doc: self.doc.deep_view(),
            current: self.current.deep_view(),
            saw_root: self.saw_root,
        }
    }
}

pub open spec fn file_path(tag: TagView) -> Option<Seq<char>> {
    match or_else(tag.attr("path"@), tag.attr("name"@)) {
        Some(p) => non_empty(Some(normalized(p))),
        None => None,
    }
}

/// The document with the open file put behind the others.
pub open spec fn flushed(s: StateView) -> StateView {
    match s.current {
        Some(file) => StateView {
            doc: CoverageDocView { files: s.doc.files.push(file), ..s.doc },
            current: None,
            ..s
        },
        None => s,
    }
}

/// The state behind a start or empty-element tag, or why reading stops there.
pub open spec fn started(s: StateView, tag: TagView) -> Result<StateView, ErrorView> {
    if tag.name == "coverage"@ {
        if tag.attr("clover"@) is None && tag.attr("line-rate"@) is Some {
            Err(
                parse_error(
                    FORMAT@,
                    "this is a Cobertura report, not a Clover one (the root has `line-rate` and no `clover` attribute)"@,
                ),
            )
        } else {
            Ok(
                StateView {
                    saw_root: true,
                    doc: CoverageDocView { timestamp: tag.attr_i64("generated"@), ..s.doc },
                    ..s
                },
            )
        }
    } else if tag.name == "project"@ {
        if s.doc.timestamp is None {
            Ok(
                StateView {
                    doc: CoverageDocView { timestamp: tag.attr_i64("timestamp"@), ..s.doc },
                    ..s
                },
            )
        } else {
            Ok(s)
        }
    } else if tag.name == "file"@ {
        match file_path(tag) {
            None => Err(parse_error(FORMAT@, "<file> element without a name or path"@)),
            Some(path) => Ok(
                StateView { current: Some(FileCoverageView::of(path)), ..flushed(s) },
            ),
        }
    } else if tag.name == "line"@ {
        match s.current {
            Some(file) => Ok(StateView { current: Some(line_collected(file, tag)), ..s }),
            None => Ok(s),
        }
    } else {
        Ok(s)
    }
}

/// The state behind one more event, or why reading stops there.
pub open spec fn stepped(s: StateView, event: EventView) -> Result<StateView, ErrorView> {
    match event {
        EventView::Start(tag) => started(s, tag),
        EventView::Empty(tag) => started(s, tag),
        EventView::End(name) => if name == "file"@ {
            Ok(flushed(s))
        } else {
            Ok(s)
        },
        EventView::Failed(problem) => Err(parse_error(FORMAT@, problem)),
        _ => Ok(s),
    }
}

impl State {
    fn new() -> (r: Self)
        ensures
            r@ == (StateView { doc: CoverageDocView::empty(), current: None, saw_root: false }),
    {
        State { doc: CoverageDoc::default(), current: None, saw_root: false }
    }

    fn flush(&mut self)
        ensures
            final(self)@ == flushed(old(self)@),
    {
        if let Some(file) = &self.current {
            append_one(&mut self.doc.files, file.copy());
        }
        self.current = None;
    }

    fn start(&mut self, tag: &Tag) -> (r: Result<(), Error>)
        ensures
            match started(old(self)@, tag.deep_view()) {
                Ok(s) => r is Ok && final(self)@ == s,
                Err(e) => r is Err && r->Err_0.deep_view() == e,
            },
    {
        let name = tag.name.as_str();
        if same(name, "coverage") {
            self.saw_root = true;
            if get_attr(tag, "clover").is_none() && get_attr(tag, "line-rate").is_some() {
                return Err(
                    Error::parse(
                        FORMAT,
                        "this is a Cobertura report, not a Clover one (the root has `line-rate` and no `clover` attribute)",
                    ),
                );
            }
            self.doc.timestamp = get_i64(tag, "generated");
        } else if same(name, "project") {
            if self.doc.timestamp.is_none() {
                self.doc.timestamp = get_i64(tag, "timestamp");
            }
        } else if same(name, "file") {
            let path = match either(get_attr(tag, "path"), get_attr(tag, "name")) {
                Some(p) => if_any(Some(normalize(p.as_str()))),
                None => None,
            };
            match path {
                Some(path) => {
                    self.flush();
                    self.current = Some(FileCoverage::new(path.as_str()));
                },
                None => {
                    return Err(Error::parse(FORMAT, "<file> element without a name or path"));
                },
            }
        } else if same(name, "line") {
            if let Some(file) = &mut self.current {
                collect_line(tag, file);
            }
        }
        Ok(())
    }

    fn step(&mut self, event: &XmlEvent) -> (r: Result<(), Error>)
        ensures
            match stepped(old(self)@, event.deep_view()) {
                Ok(s) => r is Ok && final(self)@ == s,
                Err(e) => r is Err && r->Err_0.deep_view() == e,
            },
    {
        match event {
            XmlEvent::Start(tag) => {
                return self.start(tag);
            },
            XmlEvent::Empty(tag) => {
                return self.start(tag);
            },
            XmlEvent::End(name) => {
                if same(name.as_str(), "file") {
                    self.flush();
                }
            },
            XmlEvent::Failed(problem) => {
                return Err(Error::parse(FORMAT, problem.as_str()));
            },
            _ => {},
        }
        Ok(())
    }
}

// ---------------------------------------------------------------------------
// Reading
// ---------------------------------------------------------------------------

/// The state behind these events, or why reading stops.
pub open spec fn folded(events: Seq<EventView>) -> Result<StateView, ErrorView>
    decreases events.len(),
{
    if events.len() == 0 {
        Ok(StateView { doc: CoverageDocView::empty(), current: None, saw_root: false })
    } else {
        match folded(events.drop_last()) {
            Ok(s) => stepped(s, events.last()),
            Err(e) => Err(e),
        }
    }
}

proof fn a_stop_is_final(events: Seq<EventView>, i: int)
    requires
        0 <= i <= events.len(),
        folded(events.take(i)) is Err,
    ensures
        folded(events) == folded(events.take(i)),
    decreases events.len(),
{
    if i < events.len() {
        assert(events.drop_last().take(i) =~= events.take(i));
        a_stop_is_final(events.drop_last(), i);
    } else {
        assert(events.take(i) =~= events);
    }
}

/// The document that reading these events gives, or the refusal.
pub open spec fn read_spec(events: Seq<EventView>) -> Result<DocView, ErrorView> {
    match folded(events) {
        Err(e) => Err(e),
        Ok(s) => if !s.saw_root {
            Err(
                parse_error(
                    FORMAT@,
                    "no <coverage> root element — this does not look like a Clover report"@,
                ),
            )
        } else {
            Ok(DocView::Coverage(sort_doc(flushed(s).doc)))
        },
    }
}

/// Reads the events of a document.
pub fn read_document(events: &Vec<XmlEvent>, ctx: &mut FormatCtx) -> (r: Result<Doc, Error>)
    ensures
        read_result(r) == read_spec(events.deep_view()),
        final(ctx)@ == old(ctx)@,
{
    let ghost all = events.deep_view();
    let mut state = State::new();
    let mut i: usize = 0;
    assert(all.take(0) =~= Seq::empty());
    while i < events.len()
        invariant
            i <= events@.len(),
            all == events.deep_view(),
            folded(all.take(i as int)) == Ok::<StateView, ErrorView>(state@),
        decreases events@.len() - i,
    {
        assert(all.take(i as int + 1).drop_last() =~= all.take(i as int));
        assert(all.take(i as int + 1).last() == events[i as int].deep_view());
        match state.step(&events[i]) {
            Ok(_) => {},
            Err(e) => {
                proof {
                    a_stop_is_final(all, i as int + 1);
                }
                return Err(e);
            },
        }
        i = i + 1;
    }
    assert(all.take(i as int) =~= all);
    state.flush();
    if !state.saw_root {
        return Err(
            Error::parse(
                FORMAT,
                "no <coverage> root element — this does not look like a Clover report",
            ),
        );
    }
    let mut doc = state.doc;
    doc.sort();
    Ok(Doc::Coverage(doc))
}

pub fn read(input: &[u8], ctx: &mut FormatCtx) -> (r: Result<Doc, Error>)
    ensures
        read_result(r) == read_spec(xml_events(input@, true)),
        final(ctx)@ == old(ctx)@,
        forall|doc: CoverageDocView| #[trigger] is_report(input@, doc) ==> r is Ok,
        forall|doc: CoverageDocView| #[trigger]
            holds_report(input@, doc) ==> read_result(r) == Ok::<DocView, ErrorView>(
                DocView::Coverage(sort_doc(kept_doc(doc))),
            ),
{
    let events = read_events(input, true);
    proof {
        let events = events.deep_view();
        assert forall|doc: CoverageDocView| #[trigger] is_report(input@, doc) implies read_spec(
            events,
        ) is Ok by {
            written_bytes_are_read_again(input@, events, doc);
        }
        assert forall|doc: CoverageDocView| #[trigger] holds_report(input@, doc) implies read_spec(
            events,
        ) == Ok::<DocView, ErrorView>(DocView::Coverage(sort_doc(kept_doc(doc)))) by {
            written_bytes_read_back(input@, events, doc);
        }
    }
    read_document(&events, ctx)
}

// ---------------------------------------------------------------------------
// Lines, written
// ---------------------------------------------------------------------------

/// The position of the first function declared on a line, or the length.
pub open spec fn declared_at(functions: Seq<FunctionView>, number: u32) -> int
    decreases functions.len(),
{
    if functions.len() == 0 || functions[0].line == Some(number) {
        0
    } else {
        1 + declared_at(functions.skip(1), number)
    }
}

fn is_line(line: Option<u32>, number: u32) -> (r: bool)
    ensures
        r == (line == Some(number)),
{
    match line {
        Some(line) => line == number,
        None => false,
    }
}

fn find_declared(functions: &Vec<Function>, number: u32) -> (r: usize)
    ensures
        r <= functions@.len(),
        r == declared_at(functions.deep_view(), number),
{
    let ghost all = functions.deep_view();
    let mut at: usize = 0;
    assert(all.skip(0) =~= all);
    while at < functions.len() && !is_line(functions[at].line, number)
        invariant
            at <= functions@.len(),
            all == functions.deep_view(),
            declared_at(all, number) == at + declared_at(all.skip(at as int), number),
        decreases functions@.len() - at,
    {
        assert(all.skip(at as int)[0] == all[at as int]);
        assert(all.skip(at as int).skip(1) =~= all.skip(at as int + 1));
        at = at + 1;
    }
    proof {
        if at < functions@.len() {
            assert(all.skip(at as int)[0] == all[at as int]);
        }
    }
    at
}

pub open spec fn bit(b: bool) -> Seq<char> {
    if b {
        decimal(1)
    } else {
        decimal(0)
    }
}

/// A line with branches has two outcomes, and only how many were covered is
/// known.
pub open spec fn line_attrs(functions: Seq<FunctionView>, line: Line) -> Seq<AttrView> {
    let number = decimal(line.number as nat);
    let at = declared_at(functions, line.number);
    match line.branch {
        Some(branch) => seq![
            ("num"@, number),
            ("type"@, "cond"@),
            ("truecount"@, bit(branch.covered >= 1)),
            ("falsecount"@, bit(branch.covered >= 2)),
        ],
        None => if at < functions.len() {
            seq![
                ("num"@, number),
                ("type"@, "method"@),
                ("name"@, functions[at].name),
                ("count"@, decimal(line.hits as nat)),
            ]
        } else {
            seq![
                ("num"@, number),
                ("type"@, "stmt"@),
                ("count"@, decimal(line.hits as nat)),
            ]
        },
    }
}

fn attrs_of_line<'a>(file: &FileCoverage, line: &Line) -> (r: Attrs<'a>)
    ensures
        r.deep_view() == line_attrs(file.deep_view().functions, *line),
{
    let ghost functions = file.deep_view().functions;
    let attrs = and_number(no_attrs(), "num", line.number as u64);
    if let Some(branch) = line.branch {
        let attrs = and_attr(attrs, "type", "cond");
        let attrs = and_number(
            attrs,
            "truecount",
            if branch.covered >= 1 {
                1
            } else {
                0
            },
        );
        let attrs = and_number(
            attrs,
            "falsecount",
            if branch.covered >= 2 {
                1
            } else {
                0
            },
        );
        assert(attrs.deep_view() =~= line_attrs(functions, *line));
        return attrs;
    }
    let at = find_declared(&file.functions, line.number);
    if at < file.functions.len() {
        let attrs = and_attr(attrs, "type", "method");
        let attrs = and_attr(attrs, "name", file.functions[at].name.as_str());
        let attrs = and_number(attrs, "count", line.hits);
        assert(attrs.deep_view() =~= line_attrs(functions, *line));
        attrs
    } else {
        let attrs = and_attr(attrs, "type", "stmt");
        let attrs = and_number(attrs, "count", line.hits);
        assert(attrs.deep_view() =~= line_attrs(functions, *line));
        attrs
    }
}

// ---------------------------------------------------------------------------
// Metrics
// ---------------------------------------------------------------------------

/// The totals of some files. The sums wrap at the width of a machine word.
#[derive(Clone, Copy)]
pub struct Metrics {
    pub statements: u64,
    pub covered_statements: u64,
    pub conditionals: u64,
    pub covered_conditionals: u64,
    pub methods: u64,
    pub covered_methods: u64,
    pub classes: u64,
    pub loc: u64,
}

pub open spec fn no_metrics() -> Metrics {
    Metrics {
        statements: 0,
        covered_statements: 0,
        conditionals: 0,
        covered_conditionals: 0,
        methods: 0,
        covered_methods: 0,
        classes: 0,
        loc: 0,
    }
}

pub open spec fn one_if(b: bool) -> u64 {
    if b {
        1
    } else {
        0
    }
}

/// How many of the two outcomes of a line with branches are written as covered.
pub open spec fn outcomes_covered(branch: Branch) -> u64 {
    if branch.covered >= 2 {
        2
    } else {
        branch.covered as u64
    }
}

/// With one more line, as it is written: a conditional with its two outcomes, a
/// method, or a statement.
pub open spec fn line_counted(m: Metrics, functions: Seq<FunctionView>, line: Line) -> Metrics {
    match line.branch {
        Some(b) => Metrics {
            conditionals: m.conditionals.wrapping_add(2),
            covered_conditionals: m.covered_conditionals.wrapping_add(outcomes_covered(b)),
            ..m
        },
        None => if declared_at(functions, line.number) < functions.len() {
            Metrics {
                methods: m.methods.wrapping_add(1),
                covered_methods: m.covered_methods.wrapping_add(one_if(line.hits > 0)),
                ..m
            }
        } else {
            Metrics {
                statements: m.statements.wrapping_add(1),
                covered_statements: m.covered_statements.wrapping_add(one_if(line.hits > 0)),
                ..m
            }
        },
    }
}

pub open spec fn lines_counted(
    m: Metrics,
    functions: Seq<FunctionView>,
    lines: Seq<Line>,
) -> Metrics
    decreases lines.len(),
{
    if lines.len() == 0 {
        m
    } else {
        line_counted(lines_counted(m, functions, lines.drop_last()), functions, lines.last())
    }
}

/// The greatest line number.
pub open spec fn last_number(lines: Seq<Line>) -> u32
    decreases lines.len(),
{
    if lines.len() == 0 {
        0
    } else if lines.last().number > last_number(lines.drop_last()) {
        lines.last().number
    } else {
        last_number(lines.drop_last())
    }
}

pub open spec fn file_counted(m: Metrics, file: FileCoverageView) -> Metrics {
    lines_counted(
        Metrics {
            classes: m.classes.wrapping_add(1),
            loc: m.loc.wrapping_add(last_number(file.lines) as u64),
            ..m
        },
        file.functions,
        file.lines,
    )
}

pub open spec fn files_counted(files: Seq<FileCoverageView>) -> Metrics
    decreases files.len(),
{
    if files.len() == 0 {
        no_metrics()
    } else {
        file_counted(files_counted(files.drop_last()), files.last())
    }
}

pub open spec fn metrics_attrs(m: Metrics, project_level: bool) -> Seq<AttrView> {
    seq![
        ("loc"@, decimal(m.loc as nat)),
        ("ncloc"@, decimal(m.loc as nat)),
        ("classes"@, decimal(m.classes as nat)),
    ] + (if project_level {
        seq![("files"@, decimal(m.classes as nat))]
    } else {
        Seq::empty()
    }) + seq![
        ("statements"@, decimal(m.statements as nat)),
        ("coveredstatements"@, decimal(m.covered_statements as nat)),
        ("conditionals"@, decimal(m.conditionals as nat)),
        ("coveredconditionals"@, decimal(m.covered_conditionals as nat)),
        ("methods"@, decimal(m.methods as nat)),
        ("coveredmethods"@, decimal(m.covered_methods as nat)),
        (
            "elements"@,
            decimal(
                m.statements.wrapping_add(m.conditionals).wrapping_add(m.methods) as nat,
            ),
        ),
        (
            "coveredelements"@,
            decimal(
                m.covered_statements.wrapping_add(m.covered_conditionals).wrapping_add(
                    m.covered_methods,
                ) as nat,
            ),
        ),
    ]
}

pub open spec fn metrics_item(files: Seq<FileCoverageView>, project_level: bool) -> Item {
    empty_item("metrics"@, metrics_attrs(files_counted(files), project_level))
}

fn greatest_number(lines: &Vec<Line>) -> (r: u32)
    ensures
        r == last_number(lines.deep_view()),
{
    let ghost all = lines.deep_view();
    let mut n: u32 = 0;
    let mut i: usize = 0;
    assert(all.take(0) =~= Seq::empty());
    while i < lines.len()
        invariant
            i <= lines@.len(),
            all == lines.deep_view(),
            n == last_number(all.take(i as int)),
        decreases lines@.len() - i,
    {
        assert(all.take(i as int + 1).drop_last() =~= all.take(i as int));
        if lines[i].number > n {
            n = lines[i].number;
        }
        i = i + 1;
    }
    assert(all.take(i as int) =~= all);
    n
}

impl Metrics {
    fn count_line(&mut self, functions: &Vec<Function>, line: &Line)
        ensures
            *final(self) == line_counted(*old(self), functions.deep_view(), *line),
    {
        match line.branch {
            Some(branch) => {
                let covered: u64 = if branch.covered >= 2 {
                    2
                } else {
                    branch.covered as u64
                };
                self.conditionals = self.conditionals.wrapping_add(2);
                self.covered_conditionals = self.covered_conditionals.wrapping_add(covered);
            },
            None => {
                let ran: u64 = if line.hits > 0 {
                    1
                } else {
                    0
                };
                if find_declared(functions, line.number) < functions.len() {
                    self.methods = self.methods.wrapping_add(1);
                    self.covered_methods = self.covered_methods.wrapping_add(ran);
                } else {
                    self.statements = self.statements.wrapping_add(1);
                    self.covered_statements = self.covered_statements.wrapping_add(ran);
                }
            },
        }
    }

    fn count_file(&mut self, file: &FileCoverage)
        ensures
            *final(self) == file_counted(*old(self), file.deep_view()),
    {
        let ghost functions = file.deep_view().functions;
        let ghost lines = file.deep_view().lines;
        self.classes = self.classes.wrapping_add(1);
        self.loc = self.loc.wrapping_add(greatest_number(&file.lines) as u64);
        let ghost start = *self;
        let mut i: usize = 0;
        assert(lines.take(0) =~= Seq::empty());
        while i < file.lines.len()
            invariant
                i <= file.lines@.len(),
                lines == file.lines.deep_view(),
                functions == file.functions.deep_view(),
                *self == lines_counted(start, functions, lines.take(i as int)),
            decreases file.lines@.len() - i,
        {
            assert(lines.take(i as int + 1).drop_last() =~= lines.take(i as int));
            assert(lines[i as int] == file.lines[i as int]);
            self.count_line(&file.functions, &file.lines[i]);
            i = i + 1;
        }
        assert(lines.take(i as int) =~= lines);
    }

    fn of_files(files: &Vec<FileCoverage>, from: usize, to: usize) -> (r: Metrics)
        requires
            from <= to <= files@.len(),
        ensures
            r == files_counted(files.deep_view().subrange(from as int, to as int)),
    {
        let ghost mine = files.deep_view().subrange(from as int, to as int);
        let mut metrics = Metrics {
            statements: 0,
            covered_statements: 0,
            conditionals: 0,
            covered_conditionals: 0,
            methods: 0,
            covered_methods: 0,
            classes: 0,
            loc: 0,
        };
        let mut i: usize = from;
        assert(mine.take(0) =~= Seq::empty());
        while i < to
            invariant
                from <= i <= to <= files@.len(),
                mine == files.deep_view().subrange(from as int, to as int),
                metrics == files_counted(mine.take(i - from)),
            decreases to - i,
        {
            assert(mine.take(i - from + 1).drop_last() =~= mine.take(i - from));
            metrics.count_file(&files[i]);
            i = i + 1;
        }
        assert(mine.take(i - from) =~= mine);
        metrics
    }
}

/// Writes the `<metrics>` of the files `from` up to `to`. Consumers read the
/// totals from here rather than recomputing them, so they agree with the lines
/// that are written.
pub fn write_metrics(
    w: &mut XmlWriter,
    files: &Vec<FileCoverage>,
    from: usize,
    to: usize,
    project_level: bool,
)
    requires
        old(w).wf(),
        from <= to <= files@.len(),
    ensures
        final(w).wf(),
        final(w)@ == old(w)@ + seq![
            metrics_item(
                files.deep_view().subrange(from as int, to as int),
                project_level,
            ),
        ],
{
    let m = Metrics::of_files(files, from, to);
    let attrs = and_number(no_attrs(), "loc", m.loc);
    let attrs = and_number(attrs, "ncloc", m.loc);
    let mut attrs = and_number(attrs, "classes", m.classes);
    if project_level {
        attrs = and_number(attrs, "files", m.classes);
    }
    let attrs = and_number(attrs, "statements", m.statements);
    let attrs = and_number(attrs, "coveredstatements", m.covered_statements);
    let attrs = and_number(attrs, "conditionals", m.conditionals);
    let attrs = and_number(attrs, "coveredconditionals", m.covered_conditionals);
    let attrs = and_number(attrs, "methods", m.methods);
    let attrs = and_number(attrs, "coveredmethods", m.covered_methods);
    let elements = m.statements.wrapping_add(m.conditionals).wrapping_add(m.methods);
    let covered = m.covered_statements.wrapping_add(m.covered_conditionals).wrapping_add(
        m.covered_methods,
    );
    let attrs = and_number(attrs, "elements", elements);
    let attrs = and_number(attrs, "coveredelements", covered);
    assert(attrs.deep_view() =~= metrics_attrs(m, project_level));
    w.empty("metrics", &attrs);
    assert(w@ =~= old(w)@ + seq![
        metrics_item(files.deep_view().subrange(from as int, to as int), project_level),
    ]);
}

// ---------------------------------------------------------------------------
// Packages
// ---------------------------------------------------------------------------

pub open spec fn file_attrs(file: FileCoverageView) -> Seq<AttrView> {
    seq![("name"@, name_part(file.path)), ("path"@, file.path)]
}

pub open spec fn file_items(file: FileCoverageView) -> Seq<Item> {
    seq![open_item("file"@, file_attrs(file))] + file.lines.map_values(
        |l: Line| empty_item("line"@, line_attrs(file.functions, l)),
    ) + seq![metrics_item(seq![file], false), close_item("file"@)]
}

pub open spec fn package_items(package: Seq<char>, files: Seq<FileCoverageView>) -> Seq<Item> {
    seq![open_item("package"@, seq![("name"@, package)])] + flat(
        files,
        |f: FileCoverageView| file_items(f),
    ) + seq![metrics_item(files, false), close_item("package"@)]
}

/// The packages: one for each directory, with all its files.
pub open spec fn packages_items(files: Seq<FileCoverageView>) -> Seq<Item> {
    flat(packages_by(files, dotted()), |p: PackageView| package_items(p.name, p.files))
}

fn write_lines(w: &mut XmlWriter, file: &FileCoverage)
    requires
        old(w).wf(),
    ensures
        final(w).wf(),
        final(w)@ == old(w)@ + file.deep_view().lines.map_values(
            |l: Line| empty_item("line"@, line_attrs(file.deep_view().functions, l)),
        ),
{
    let ghost functions = file.deep_view().functions;
    let ghost goal = file.deep_view().lines.map_values(
        |l: Line| empty_item("line"@, line_attrs(functions, l)),
    );
    let ghost start = w@;
    let mut i: usize = 0;
    assert(start + goal.take(0) =~= start);
    while i < file.lines.len()
        invariant
            i <= file.lines@.len(),
            functions == file.deep_view().functions,
            goal == file.deep_view().lines.map_values(
                |l: Line| empty_item("line"@, line_attrs(functions, l)),
            ),
            w.wf(),
            w@ == start + goal.take(i as int),
        decreases file.lines@.len() - i,
    {
        w.empty("line", &attrs_of_line(file, &file.lines[i]));
        i = i + 1;
        assert(w@ =~= start + goal.take(i as int));
    }
    assert(goal.take(i as int) =~= goal);
}

fn write_file(w: &mut XmlWriter, files: &Vec<FileCoverage>, at: usize)
    requires
        old(w).wf(),
        at < files@.len(),
    ensures
        final(w).wf(),
        final(w)@ == old(w)@ + file_items(files.deep_view()[at as int]),
{
    let file = &files[at];
    let ghost view = file.deep_view();
    let attrs = and_attr(no_attrs(), "name", file.file_name());
    let attrs = and_attr(attrs, "path", file.path.as_str());
    assert(attrs.deep_view() =~= file_attrs(view));
    w.open("file", &attrs);
    write_lines(w, file);
    let count = files.len();
    assert(at < count);
    write_metrics(w, files, at, at + 1, false);
    assert(files.deep_view().subrange(at as int, at + 1) =~= seq![view]);
    w.close("file");
    assert(w@ =~= old(w)@ + file_items(view));
}

pub fn write_package(w: &mut XmlWriter, package: &str, files: &Vec<FileCoverage>)
    requires
        old(w).wf(),
    ensures
        final(w).wf(),
        final(w)@ == old(w)@ + package_items(package@, files.deep_view()),
{
    let ghost all = files.deep_view();
    w.open("package", &and_attr(no_attrs(), "name", package));
    let ghost start = w@;
    let mut i: usize = 0;
    assert(all.take(0) =~= Seq::empty());
    assert(start + Seq::<Item>::empty() =~= start);
    while i < files.len()
        invariant
            i <= files@.len(),
            all == files.deep_view(),
            w.wf(),
            w@ == start + flat(all.take(i as int), |f: FileCoverageView| file_items(f)),
        decreases files@.len() - i,
    {
        assert(all.take(i as int + 1).drop_last() =~= all.take(i as int));
        write_file(w, files, i);
        i = i + 1;
        assert(w@ =~= start + flat(all.take(i as int), |f: FileCoverageView| file_items(f)));
    }
    assert(all.take(i as int) =~= all);
    write_metrics(w, files, 0, files.len(), false);
    assert(all.subrange(0, all.len() as int) =~= all);
    w.close("package");
    assert(w@ =~= old(w)@ + package_items(package@, all));
}

fn write_packages(w: &mut XmlWriter, files: &Vec<FileCoverage>)
    requires
        old(w).wf(),
    ensures
        final(w).wf(),
        final(w)@ == old(w)@ + packages_items(files.deep_view()),
{
    let packages = by_package(files);
    let ghost all = packages.deep_view();
    let ghost start = w@;
    let mut i: usize = 0;
    assert(all.take(0) =~= Seq::empty());
    assert(start + Seq::<Item>::empty() =~= start);
    while i < packages.len()
        invariant
            i <= packages@.len(),
            all == packages.deep_view(),
            w.wf(),
            w@ == start + flat(
                all.take(i as int),
                |p: PackageView| package_items(p.name, p.files),
            ),
        decreases packages@.len() - i,
    {
        assert(all.take(i as int + 1).drop_last() =~= all.take(i as int));
        assert(all[i as int] == packages[i as int].deep_view());
        let package = &packages[i];
        write_package(w, package.name.as_str(), &package.files);
        i = i + 1;
        assert(w@ =~= start + flat(
            all.take(i as int),
            |p: PackageView| package_items(p.name, p.files),
        ));
    }
    assert(all.take(i as int) =~= all);
}

// ---------------------------------------------------------------------------
// The report
// ---------------------------------------------------------------------------

/// Whether a line has branches that two outcomes cannot hold.
pub open spec fn folds_branches(line: Line) -> bool {
    match line.branch {
        Some(b) => b.total != 2,
        None => false,
    }
}

pub open spec fn file_folds(file: FileCoverageView) -> bool {
    any_in(file.lines, |l: Line| folds_branches(l))
}

pub open spec fn notices(doc: CoverageDocView, ctx: CtxView) -> CtxView {
    ctx.lossy_if(
        doc.has_extra_counters(),
        "clover: JaCoCo instruction/complexity/method counters have no Clover equivalent and were dropped"@,
    ).degraded_if(
        any_in(doc.files, |f: FileCoverageView| file_folds(f)),
        "clover: a conditional line has exactly two outcomes, so branches beyond the second were folded into them"@,
    )
}

pub open spec fn stamp(doc: CoverageDocView) -> Seq<char> {
    signed_decimal(
        match doc.timestamp {
            Some(t) => t as int,
            None => 0,
        },
    )
}

pub open spec fn coverage_attrs(doc: CoverageDocView) -> Seq<AttrView> {
    seq![("generated"@, stamp(doc)), ("clover"@, WRITER@)]
}

pub open spec fn project_attrs(doc: CoverageDocView) -> Seq<AttrView> {
    seq![("timestamp"@, stamp(doc)), ("name"@, "All files"@)]
}

/// The lines of a report.
pub open spec fn report_items(doc: CoverageDocView) -> Seq<Item> {
    seq![
        declaration_item(),
        open_item("coverage"@, coverage_attrs(doc)),
        open_item("project"@, project_attrs(doc)),
    ] + packages_items(doc.files) + seq![
        metrics_item(doc.files, true),
        close_item("project"@),
        close_item("coverage"@),
    ]
}

pub open spec fn written(doc: DocView, ctx: CtxView) -> (Result<Seq<char>, ErrorView>, CtxView) {
    match doc {
        DocView::Coverage(doc) => (Ok(rendered(report_items(doc))), notices(doc, ctx)),
        _ => (Err(wrong_kind("expected a coverage report"@)), ctx),
    }
}

fn folds(file: &FileCoverage) -> (r: bool)
    ensures
        r == file_folds(file.deep_view()),
{
    let mut i: usize = 0;
    while i < file.lines.len()
        invariant
            i <= file.lines@.len(),
            forall|j: int| 0 <= j < i ==> !folds_branches(#[trigger] file.lines.deep_view()[j]),
        decreases file.lines@.len() - i,
    {
        if let Some(branch) = file.lines[i].branch {
            if branch.total != 2 {
                assert(folds_branches(file.deep_view().lines[i as int]));
                return true;
            }
        }
        i = i + 1;
    }
    false
}

fn any_folds(files: &Vec<FileCoverage>) -> (r: bool)
    ensures
        r == any_in(files.deep_view(), |f: FileCoverageView| file_folds(f)),
{
    let mut i: usize = 0;
    while i < files.len()
        invariant
            i <= files@.len(),
            forall|j: int| 0 <= j < i ==> !file_folds(#[trigger] files.deep_view()[j]),
        decreases files@.len() - i,
    {
        if folds(&files[i]) {
            assert(file_folds(files.deep_view()[i as int]));
            return true;
        }
        i = i + 1;
    }
    false
}

fn report_text(doc: &CoverageDoc) -> (r: String)
    ensures
        r@ == rendered(report_items(doc.deep_view())),
{
    let mut w = XmlWriter::new();
    w.declaration();
    let timestamp: i64 = match doc.timestamp {
        Some(t) => t,
        None => 0,
    };
    let stamp = signed_number(timestamp);
    let attrs = and_attr(no_attrs(), "generated", stamp.as_str());
    let attrs = and_attr(attrs, "clover", WRITER);
    assert(attrs.deep_view() =~= coverage_attrs(doc.deep_view()));
    w.open("coverage", &attrs);
    let attrs = and_attr(no_attrs(), "timestamp", stamp.as_str());
    let attrs = and_attr(attrs, "name", "All files");
    assert(attrs.deep_view() =~= project_attrs(doc.deep_view()));
    w.open("project", &attrs);
    write_packages(&mut w, &doc.files);
    write_metrics(&mut w, &doc.files, 0, doc.files.len(), true);
    assert(doc.files.deep_view().subrange(0, doc.files@.len() as int) =~= doc.files.deep_view());
    w.close("project");
    w.close("coverage");
    assert(w@ =~= report_items(doc.deep_view()));
    w.finish()
}

pub fn write(doc: &Doc, ctx: &mut FormatCtx) -> (r: Result<String, Error>)
    ensures
        (text_result(r), final(ctx)@) == written(doc.deep_view(), old(ctx)@),
{
    let doc = match doc.as_coverage() {
        Ok(doc) => doc,
        Err(e) => {
            return Err(e);
        },
    };
    if doc.has_extra_counters() {
        ctx.lossy(
            "clover: JaCoCo instruction/complexity/method counters have no Clover equivalent and were dropped",
        );
    }
    if any_folds(&doc.files) {
        ctx.degraded(
            "clover: a conditional line has exactly two outcomes, so branches beyond the second were folded into them",
        );
    }
    Ok(report_text(doc))
}

// ---------------------------------------------------------------------------
// Laws
// ---------------------------------------------------------------------------

/// What is left of a line once it was written and read: a line without
/// branches is itself, one with branches keeps how many of two were covered.
pub open spec fn kept_line(line: Line) -> Line {
    match line.branch {
        None => line,
        Some(b) => {
            let covered: u32 = if b.covered >= 2 {
                2
            } else {
                b.covered
            };
            Line {
                number: line.number,
                hits: covered as u64,
                branch: Some(Branch { covered, total: 2 }),
            }
        },
    }
}

/// A tag with the attributes that a line is written with reads as that line,
/// branches folded into two outcomes.
pub proof fn lines_read_back(functions: Seq<FunctionView>, line: Line, tag: TagView)
    requires
        carries(tag, line_attrs(functions, line)),
    ensures
        line_of(tag) == Some(kept_line(line)),
{
    let attrs = line_attrs(functions, line);
    written_numbers_parse(line.number as u64);
    written_numbers_parse(line.hits);
    written_numbers_parse(0);
    written_numbers_parse(1);
    assert(attrs[0].0 == "num"@);
    assert(attrs[1].0 == "type"@);
    reveal_strlit("cond");
    reveal_strlit("stmt");
    reveal_strlit("method");
    assert("cond"@[0] != "stmt"@[0]);
    assert("cond"@[0] != "method"@[0]);
    assert(attrs[2] == attrs[2]);
    if attrs.len() > 3 {
        assert(attrs[3] == attrs[3]);
    }
}

/// A line that has no branches or exactly two, hit as often as outcomes were
/// covered, is not changed by writing and reading it.
pub proof fn two_outcomes_are_kept(line: Line)
    requires
        line.branch is Some ==> line.branch->0.total == 2 && line.branch->0.covered <= 2
            && line.hits == line.branch->0.covered,
    ensures
        kept_line(line) == line,
{
}

} // verus!
