//! JaCoCo XML report.
//!
//! JaCoCo's model is bytecode-oriented and does not match the line-hit model of
//! LCOV and Cobertura on two points. It has no hit counts: a line is covered or
//! it is not. And its instruction, complexity, method and class counters come
//! from bytecode analysis and cannot be derived from line data: they are
//! carried through a JaCoCo to JaCoCo conversion and approximated, with a
//! warning, otherwise.

use vstd::prelude::*;

use crate::error::{parse_error, Error, ErrorView};
use crate::formats::coverage::jacoco_trip::{
    holds_report, is_report, kept_doc, written_bytes_are_read_again, written_bytes_read_back,
};
use crate::formats::coverage::packages::{by_directory, packages_by, placed, PackageView};
use crate::model::coverage::{
    add_counter, branch_total, covered_count, file_at, find_file, name_part, plus, sort_doc,
    stem_part, Branch, Counter, Counters, CoverageDoc, CoverageDocView, FileCoverage,
    FileCoverageView, Function, FunctionView, Line,
};
use crate::paths::{normalize, normalized};
use crate::registry::{read_result, wrong_kind, Doc, DocView};
use crate::text::{
    concat3, cut, decimal, owned, replace_char, replaced, same, split_once, written_numbers_parse,
};
use crate::value::{
    any_in, append_one, empty_list, flat, if_any, non_empty, or_text, replace_at, text_or, Value,
};
use crate::warn::{CtxView, FormatCtx};
use crate::xml::{
    and_attr, and_number, carries, close_item, declaration_item, empty_item, get_attr, get_u32,
    get_u64, no_attrs, open_item, read_events, rendered, text_result, xml_events, AttrView, Attrs,
    EventView, Item, Tag, TagView, XmlEvent, XmlWriter,
};

verus! {

pub const FORMAT: &'static str = "jacoco";

pub const DOCTYPE: &'static str = "<!DOCTYPE report PUBLIC \"-//JACOCO//DTD Report 1.1//EN\" \"report.dtd\">";

// ---------------------------------------------------------------------------
// Elements
// ---------------------------------------------------------------------------

/// Where the next `<counter>` belongs: nowhere, to a method, addressed by the
/// path of its file and its position there, or to a class, whose counters are
/// attributed to its source file.
pub enum TargetView {
    Nothing,
    Method(Seq<char>, int),
    Class(Seq<char>),
}

enum Target {
    Nothing,
    Method(String, usize),
    Class(String),
}

impl Target {
    closed spec fn view(&self) -> TargetView {
        match self {
            Target::Nothing => TargetView::Nothing,
            Target::Method(path, at) => TargetView::Method(path@, *at as int),
            Target::Class(path) => TargetView::Class(path@),
        }
    }
}

pub open spec fn join_path(package: Seq<char>, name: Seq<char>) -> Seq<char> {
    normalized(
        if package.len() == 0 {
            name
        } else {
            package + "/"@ + name
        },
    )
}

/// The outer class of `com/acme/App$Inner`.
pub open spec fn outer_class(binary: Seq<char>) -> Seq<char> {
    match split_once(binary, '$') {
        Some((outer, _)) => outer,
        None => binary,
    }
}

/// The path of the source file that a `<class>` belongs to. Without source
/// information it is the class' own binary name.
pub open spec fn path_of_class(tag: TagView, package: Seq<char>) -> Option<Seq<char>> {
    match tag.attr("sourcefilename"@) {
        Some(name) => Some(join_path(package, name)),
        None => match tag.attr("name"@) {
            Some(binary) => Some(normalized(outer_class(replace_char(binary, '\\', '/')))),
            None => None,
        },
    }
}

/// The line of `<line nr="10" mi="0" ci="4" mb="0" cb="2"/>`. JaCoCo counts
/// instructions, not executions: the best it says is "reached at least once".
pub open spec fn line_of(tag: TagView) -> Option<Line> {
    match tag.attr_u32("nr"@) {
        None => None,
        Some(number) => {
            let instructions = number_or_zero(tag.attr_u64("ci"@));
            let missed = small_or_zero(tag.attr_u32("mb"@));
            let covered = small_or_zero(tag.attr_u32("cb"@));
            let total = missed.wrapping_add(covered);
            Some(
                Line {
                    number,
                    hits: one_if(instructions > 0),
                    branch: if total > 0 {
                        Some(Branch { covered, total })
                    } else {
                        None
                    },
                },
            )
        },
    }
}

pub open spec fn number_or_zero(n: Option<u64>) -> u64 {
    match n {
        Some(n) => n,
        None => 0,
    }
}

pub open spec fn small_or_zero(n: Option<u32>) -> u32 {
    match n {
        Some(n) => n,
        None => 0,
    }
}

pub open spec fn one_if(b: bool) -> u64 {
    if b {
        1
    } else {
        0
    }
}

pub open spec fn counter_of(tag: TagView) -> Counter {
    Counter {
        missed: number_or_zero(tag.attr_u64("missed"@)),
        covered: number_or_zero(tag.attr_u64("covered"@)),
    }
}

/// A file's counters with one more. Line and branch counters are recomputed
/// from the lines themselves and are not kept.
pub open spec fn counter_kept(counters: Counters, kind: Seq<char>, counter: Counter) -> Counters {
    if kind == "INSTRUCTION"@ {
        Counters { instruction: add_counter(counters.instruction, Some(counter)), ..counters }
    } else if kind == "COMPLEXITY"@ {
        Counters { complexity: add_counter(counters.complexity, Some(counter)), ..counters }
    } else if kind == "METHOD"@ {
        Counters { method: add_counter(counters.method, Some(counter)), ..counters }
    } else if kind == "CLASS"@ {
        Counters { class: add_counter(counters.class, Some(counter)), ..counters }
    } else {
        counters
    }
}

pub open spec fn function_of(tag: TagView) -> FunctionView {
    FunctionView {
        name: or_text(tag.attr("name"@), ""@),
        signature: non_empty(tag.attr("desc"@)),
        line: tag.attr_u32("line"@),
        hits: 0,
    }
}

/// The files, with one at this path.
pub open spec fn entered(
    files: Seq<FileCoverageView>,
    path: Seq<char>,
) -> Seq<FileCoverageView> {
    if file_at(files, path) < files.len() {
        files
    } else {
        files.push(FileCoverageView::of(path))
    }
}

/// The file at this path, or a new one.
pub open spec fn file_of(files: Seq<FileCoverageView>, path: Seq<char>) -> FileCoverageView {
    if file_at(files, path) < files.len() {
        files[file_at(files, path)]
    } else {
        FileCoverageView::of(path)
    }
}

/// The files, with this one at its path.
pub open spec fn put(
    files: Seq<FileCoverageView>,
    path: Seq<char>,
    file: FileCoverageView,
) -> Seq<FileCoverageView> {
    if file_at(files, path) < files.len() {
        files.update(file_at(files, path), file)
    } else {
        files.push(file)
    }
}

/// The files with a `<counter>` applied. A method's own instruction counter is
/// the only signal about whether it ran.
pub open spec fn counter_applied(
    files: Seq<FileCoverageView>,
    target: TargetView,
    tag: TagView,
) -> Seq<FileCoverageView> {
    match (tag.attr("type"@), target) {
        (Some(kind), TargetView::Method(path, index)) => {
            let at = file_at(files, path);
            if kind == "INSTRUCTION"@ && at < files.len() && 0 <= index
                < files[at].functions.len() {
                files.update(
                    at,
                    FileCoverageView {
                        functions: files[at].functions.update(
                            index,
                            FunctionView {
                                hits: one_if(counter_of(tag).covered > 0),
                                ..files[at].functions[index]
                            },
                        ),
                        ..files[at]
                    },
                )
            } else {
                files
            }
        },
        (Some(kind), TargetView::Class(path)) => {
            let at = file_at(files, path);
            if at < files.len() {
                files.update(
                    at,
                    FileCoverageView {
                        counters: counter_kept(files[at].counters, kind, counter_of(tag)),
                        ..files[at]
                    },
                )
            } else {
                files
            }
        },
        _ => files,
    }
}

pub fn class_path(tag: &Tag, package: &str) -> (r: Option<String>)
    ensures
        r.deep_view() == path_of_class(tag.deep_view(), package@),
{
    if let Some(name) = get_attr(tag, "sourcefilename") {
        return Some(join(package, name.as_str()));
    }
    match get_attr(tag, "name") {
        Some(binary) => {
            let binary = replaced(binary.as_str(), '\\', '/');
            match cut(binary.as_str(), '$') {
                Some((outer, _)) => Some(normalize(outer.as_str())),
                None => Some(normalize(binary.as_str())),
            }
        },
        None => None,
    }
}

pub fn join(package: &str, name: &str) -> (r: String)
    ensures
        r@ == join_path(package@, name@),
{
    if package.is_empty() {
        normalize(name)
    } else {
        normalize(concat3(package, "/", name).as_str())
    }
}

fn or_zero(n: Option<u64>) -> (r: u64)
    ensures
        r == number_or_zero(n),
{
    match n {
        Some(n) => n,
        None => 0,
    }
}

fn small(n: Option<u32>) -> (r: u32)
    ensures
        r == small_or_zero(n),
{
    match n {
        Some(n) => n,
        None => 0,
    }
}

fn bit(b: bool) -> (r: u64)
    ensures
        r == one_if(b),
{
    if b {
        1
    } else {
        0
    }
}

pub fn parse_line(tag: &Tag) -> (r: Option<Line>)
    ensures
        r == line_of(tag.deep_view()),
{
    let number = match get_u32(tag, "nr") {
        Some(number) => number,
        None => {
            return None;
        },
    };
    let instructions = or_zero(get_u64(tag, "ci"));
    let missed = small(get_u32(tag, "mb"));
    let covered = small(get_u32(tag, "cb"));
    let total = missed.wrapping_add(covered);
    Some(
        Line {
            number,
            hits: bit(instructions > 0),
            branch: if total > 0 {
                Some(Branch { covered, total })
            } else {
                None
            },
        },
    )
}

fn keep_counter(counters: &mut Counters, kind: &str, counter: Counter)
    ensures
        *final(counters) == counter_kept(*old(counters), kind@, counter),
{
    if same(kind, "INSTRUCTION") {
        counters.instruction = plus(counters.instruction, Some(counter));
    } else if same(kind, "COMPLEXITY") {
        counters.complexity = plus(counters.complexity, Some(counter));
    } else if same(kind, "METHOD") {
        counters.method = plus(counters.method, Some(counter));
    } else if same(kind, "CLASS") {
        counters.class = plus(counters.class, Some(counter));
    }
}

fn apply_counter(tag: &Tag, target: &Target, files: &mut Vec<FileCoverage>)
    ensures
        final(files).deep_view() == counter_applied(
            old(files).deep_view(),
            target@,
            tag.deep_view(),
        ),
{
    let kind = match get_attr(tag, "type") {
        Some(kind) => kind,
        None => {
            return;
        },
    };
    let counter = Counter {
        missed: or_zero(get_u64(tag, "missed")),
        covered: or_zero(get_u64(tag, "covered")),
    };
    match target {
        Target::Method(path, index) => {
            if same(kind.as_str(), "INSTRUCTION") {
                let at = find_file(files, path.as_str());
                if at < files.len() && *index < files[at].functions.len() {
                    let mut file = files[at].copy();
                    assert(file.functions.deep_view().len() == files[at as int].functions@.len());
                    let mut function = file.functions[*index].copy();
                    function.hits = bit(counter.covered > 0);
                    replace_at(&mut file.functions, *index, function);
                    replace_at(files, at, file);
                }
            }
        },
        Target::Class(path) => {
            let at = find_file(files, path.as_str());
            if at < files.len() {
                let mut file = files[at].copy();
                keep_counter(&mut file.counters, kind.as_str(), counter);
                replace_at(files, at, file);
            }
        },
        Target::Nothing => {},
    }
}

// ---------------------------------------------------------------------------
// The state of the reader
// ---------------------------------------------------------------------------

/// What has been read so far.
pub struct StateView {
    pub files: Seq<FileCoverageView>,
    pub package: Seq<char>,
    pub source_file: Option<Seq<char>>,
    pub target: TargetView,
    pub saw_root: bool,
}

pub struct State {
    files: Vec<FileCoverage>,
    package: String,
    source_file: Option<String>,
    target: Target,
    saw_root: bool,
}

impl View for State {
    type V = StateView;

    closed spec fn view(&self) -> StateView {
        StateView {
            files: self.files.deep_view(),
            package: self.package@,
            source_file: self.source_file.deep_view(),
            target: self.target@,
            saw_root: self.saw_root,
        }
    }
}

pub open spec fn class_started(s: StateView, tag: TagView) -> StateView {
    match path_of_class(tag, s.package) {
        Some(path) => StateView {
            files: entered(s.files, path),
            target: TargetView::Class(path),
            ..s
        },
        None => StateView { target: TargetView::Nothing, ..s },
    }
}

pub open spec fn method_added(s: StateView, path: Seq<char>, tag: TagView) -> StateView {
    let file = file_of(s.files, path);
    StateView {
        files: put(
            s.files,
            path,
            FileCoverageView { functions: file.functions.push(function_of(tag)), ..file },
        ),
        target: TargetView::Method(path, file.functions.len() as int),
        ..s
    }
}

pub open spec fn source_started(s: StateView, tag: TagView) -> StateView {
    match tag.attr("name"@) {
        Some(name) => StateView {
            files: entered(s.files, join_path(s.package, name)),
            source_file: Some(join_path(s.package, name)),
            target: TargetView::Nothing,
            ..s
        },
        None => StateView { source_file: None, target: TargetView::Nothing, ..s },
    }
}

pub open spec fn line_added(s: StateView, tag: TagView) -> StateView {
    match (s.source_file, line_of(tag)) {
        (Some(path), Some(line)) => {
            let at = file_at(s.files, path);
            if at < s.files.len() {
                StateView {
                    files: s.files.update(
                        at,
                        FileCoverageView { lines: s.files[at].lines.push(line), ..s.files[at] },
                    ),
                    ..s
                }
            } else {
                s
            }
        },
        _ => s,
    }
}

/// The state behind a start or empty-element tag.
pub open spec fn started(s: StateView, tag: TagView) -> StateView {
    if tag.name == "report"@ {
        StateView { saw_root: true, ..s }
    } else if tag.name == "package"@ {
        StateView { package: replace_char(or_text(tag.attr("name"@), ""@), '\\', '/'), ..s }
    } else if tag.name == "class"@ {
        class_started(s, tag)
    } else if tag.name == "method"@ {
        match s.target {
            TargetView::Class(path) => method_added(s, path, tag),
            TargetView::Method(path, _) => method_added(s, path, tag),
            TargetView::Nothing => s,
        }
    } else if tag.name == "sourcefile"@ {
        source_started(s, tag)
    } else if tag.name == "line"@ {
        line_added(s, tag)
    } else if tag.name == "counter"@ {
        StateView { files: counter_applied(s.files, s.target, tag), ..s }
    } else {
        s
    }
}

/// The state behind an end tag. Leaving a method returns counters to its
/// enclosing class.
pub open spec fn ended(s: StateView, name: Seq<char>) -> StateView {
    if name == "method"@ {
        match s.target {
            TargetView::Method(path, _) => StateView { target: TargetView::Class(path), ..s },
            _ => s,
        }
    } else if name == "class"@ {
        StateView { target: TargetView::Nothing, ..s }
    } else if name == "sourcefile"@ {
        StateView { source_file: None, ..s }
    } else {
        s
    }
}

/// The state behind one more event, or why reading stops there.
pub open spec fn stepped(s: StateView, event: EventView) -> Result<StateView, ErrorView> {
    match event {
        EventView::Start(tag) => Ok(started(s, tag)),
        EventView::Empty(tag) => Ok(started(s, tag)),
        EventView::End(name) => Ok(ended(s, name)),
        EventView::Failed(problem) => Err(parse_error(FORMAT@, problem)),
        _ => Ok(s),
    }
}

pub open spec fn first_state() -> StateView {
    StateView {
        files: Seq::empty(),
        package: Seq::empty(),
        source_file: None,
        target: TargetView::Nothing,
        saw_root: false,
    }
}

fn enter(files: &mut Vec<FileCoverage>, path: &str)
    ensures
        final(files).deep_view() == entered(old(files).deep_view(), path@),
{
    if find_file(files, path) >= files.len() {
        append_one(files, FileCoverage::new(path));
    }
}

impl State {
    fn new() -> (r: Self)
        ensures
            r@ == first_state(),
    {
        State {
            files: empty_list(),
            package: String::new(),
            source_file: None,
            target: Target::Nothing,
            saw_root: false,
        }
    }

    fn start_class(&mut self, tag: &Tag)
        ensures
            final(self)@ == class_started(old(self)@, tag.deep_view()),
    {
        match class_path(tag, self.package.as_str()) {
            Some(path) => {
                enter(&mut self.files, path.as_str());
                self.target = Target::Class(path);
            },
            None => {
                self.target = Target::Nothing;
            },
        }
    }

    fn add_method(&mut self, path: &str, tag: &Tag)
        ensures
            final(self)@ == method_added(old(self)@, path@, tag.deep_view()),
    {
        let at = find_file(&self.files, path);
        let mut file = if at < self.files.len() {
            self.files[at].copy()
        } else {
            FileCoverage::new(path)
        };
        let index = file.functions.len();
        let name = get_attr(tag, "name");
        append_one(
            &mut file.functions,
            Function {
                name: owned(text_or(&name, "")),
                signature: if_any(get_attr(tag, "desc")),
                line: get_u32(tag, "line"),
                hits: 0,
            },
        );
        if at < self.files.len() {
            replace_at(&mut self.files, at, file);
        } else {
            append_one(&mut self.files, file);
        }
        self.target = Target::Method(owned(path), index);
    }

    fn start_method(&mut self, tag: &Tag)
        ensures
            final(self)@ == (match old(self)@.target {
                TargetView::Class(path) => method_added(old(self)@, path, tag.deep_view()),
                TargetView::Method(path, _) => method_added(old(self)@, path, tag.deep_view()),
                TargetView::Nothing => old(self)@,
            }),
    {
        let path = match &self.target {
            Target::Class(path) => path.clone(),
            Target::Method(path, _) => path.clone(),
            Target::Nothing => {
                return;
            },
        };
        self.add_method(path.as_str(), tag);
    }

    fn start_source(&mut self, tag: &Tag)
        ensures
            final(self)@ == source_started(old(self)@, tag.deep_view()),
    {
        match get_attr(tag, "name") {
            Some(name) => {
                let path = join(self.package.as_str(), name.as_str());
                enter(&mut self.files, path.as_str());
                self.source_file = Some(path);
            },
            None => {
                self.source_file = None;
            },
        }
        self.target = Target::Nothing;
    }

    fn add_line(&mut self, tag: &Tag)
        ensures
            final(self)@ == line_added(old(self)@, tag.deep_view()),
    {
        if let (Some(path), Some(line)) = (&self.source_file, parse_line(tag)) {
            let at = find_file(&self.files, path.as_str());
            if at < self.files.len() {
                let ghost before = self.files.deep_view();
                append_one(&mut self.files[at].lines, line);
                assert(self.files.deep_view() =~= before.update(
                    at as int,
                    FileCoverageView {
                        lines: before[at as int].lines.push(line),
                        ..before[at as int]
                    },
                ));
            }
        }
    }

    fn start(&mut self, tag: &Tag)
        ensures
            final(self)@ == started(old(self)@, tag.deep_view()),
    {
        let name = tag.name.as_str();
        if same(name, "report") {
            self.saw_root = true;
        } else if same(name, "package") {
            let title = get_attr(tag, "name");
            self.package = replaced(text_or(&title, ""), '\\', '/');
        } else if same(name, "class") {
            self.start_class(tag);
        } else if same(name, "method") {
            self.start_method(tag);
        } else if same(name, "sourcefile") {
            self.start_source(tag);
        } else if same(name, "line") {
            self.add_line(tag);
        } else if same(name, "counter") {
            apply_counter(tag, &self.target, &mut self.files);
        }
    }

    fn end(&mut self, name: &str)
        ensures
            final(self)@ == ended(old(self)@, name@),
    {
        if same(name, "method") {
            if let Target::Method(path, _) = &self.target {
                let path = path.clone();
                self.target = Target::Class(path);
            }
        } else if same(name, "class") {
            self.target = Target::Nothing;
        } else if same(name, "sourcefile") {
            self.source_file = None;
        }
    }

    fn step(&mut self, event: &XmlEvent) -> (r: Result<(), Error>)
        ensures
            match stepped(old(self)@, event.deep_view()) {
                Ok(s) => r is Ok && final(self)@ == s,
                Err(e) => r is Err && r->Err_0.deep_view() == e,
            },
    {
        match event {
            XmlEvent::Start(tag) => self.start(tag),
            XmlEvent::Empty(tag) => self.start(tag),
            XmlEvent::End(name) => self.end(name.as_str()),
            XmlEvent::Failed(problem) => {
                return Err(Error::parse(FORMAT, problem.as_str()));
            },
            _ => {},
        }
        Ok(())
    }
}

// ---------------------------------------------------------------------------
// Reading
// ---------------------------------------------------------------------------

/// The state behind these events, or why reading stops.
pub open spec fn folded(events: Seq<EventView>) -> Result<StateView, ErrorView>
    decreases events.len(),
{
    if events.len() == 0 {
        Ok(first_state())
    } else {
        match folded(events.drop_last()) {
            Ok(s) => stepped(s, events.last()),
            Err(e) => Err(e),
        }
    }
}

proof fn a_stop_is_final(events: Seq<EventView>, i: int)
    requires
        0 <= i <= events.len(),
        folded(events.take(i)) is Err,
    ensures
        folded(events) == folded(events.take(i)),
    decreases events.len(),
{
    if i < events.len() {
        assert(events.drop_last().take(i) =~= events.take(i));
        a_stop_is_final(events.drop_last(), i);
    } else {
        assert(events.take(i) =~= events);
    }
}

/// The document that reading these events gives, or the refusal.
pub open spec fn read_spec(events: Seq<EventView>) -> Result<DocView, ErrorView> {
    match folded(events) {
        Err(e) => Err(e),
        Ok(s) => if !s.saw_root {
            Err(
                parse_error(
                    FORMAT@,
                    "no <report> root element — this does not look like a JaCoCo report"@,
                ),
            )
        } else {
            Ok(
                DocView::Coverage(
                    sort_doc(CoverageDocView { files: s.files, ..CoverageDocView::empty() }),
                ),
            )
        },
    }
}

/// Reads the events of a document.
pub fn read_document(events: &Vec<XmlEvent>, ctx: &mut FormatCtx) -> (r: Result<Doc, Error>)
    ensures
        read_result(r) == read_spec(events.deep_view()),
        final(ctx)@ == old(ctx)@,
{
    let ghost all = events.deep_view();
    let mut state = State::new();
    let mut i: usize = 0;
    assert(all.take(0) =~= Seq::empty());
    while i < events.len()
        invariant
            i <= events@.len(),
            all == events.deep_view(),
            folded(all.take(i as int)) == Ok::<StateView, ErrorView>(state@),
        decreases events@.len() - i,
    {
        assert(all.take(i as int + 1).drop_last() =~= all.take(i as int));
        assert(all.take(i as int + 1).last() == events[i as int].deep_view());
        match state.step(&events[i]) {
            Ok(_) => {},
            Err(e) => {
                proof {
                    a_stop_is_final(all, i as int + 1);
                }
                return Err(e);
            },
        }
        i = i + 1;
    }
    assert(all.take(i as int) =~= all);
    if !state.saw_root {
        return Err(
            Error::parse(
                FORMAT,
                "no <report> root element — this does not look like a JaCoCo report",
            ),
        );
    }
    let mut doc = CoverageDoc::default();
    doc.files = state.files;
    doc.sort();
    Ok(Doc::Coverage(doc))
}

pub fn read(input: &[u8], ctx: &mut FormatCtx) -> (r: Result<Doc, Error>)
    ensures
        read_result(r) == read_spec(xml_events(input@, true)),
        final(ctx)@ == old(ctx)@,
        forall|doc: CoverageDocView| #[trigger] is_report(input@, doc) ==> r is Ok,
        forall|doc: CoverageDocView| #[trigger]
            holds_report(input@, doc) ==> read_result(r) == Ok::<DocView, ErrorView>(
                DocView::Coverage(sort_doc(kept_doc(doc))),
            ),
{
    let events = read_events(input, true);
    proof {
        let events = events.deep_view();
        assert forall|doc: CoverageDocView| #[trigger] is_report(input@, doc) implies read_spec(
            events,
        ) is Ok by {
            written_bytes_are_read_again(input@, events, doc);
        }
        assert forall|doc: CoverageDocView| #[trigger] holds_report(input@, doc) implies read_spec(
            events,
        ) == Ok::<DocView, ErrorView>(DocView::Coverage(sort_doc(kept_doc(doc)))) by {
            written_bytes_read_back(input@, events, doc);
        }
    }
    read_document(&events, ctx)
}

// ---------------------------------------------------------------------------
// Counters, written
// ---------------------------------------------------------------------------

/// The counters of some files. The sums wrap at the width of a machine word.
#[derive(Clone, Copy)]
pub struct Totals {
    pub extra: Counters,
    pub line: Counter,
    pub branch: Counter,
}

pub open spec fn no_totals() -> Totals {
    Totals {
        extra: Counters { instruction: None, complexity: None, method: None, class: None },
        line: Counter { missed: 0, covered: 0 },
        branch: Counter { missed: 0, covered: 0 },
    }
}

pub open spec fn file_totaled(t: Totals, file: FileCoverageView) -> Totals {
    let covered = covered_count(file.lines) as u64;
    let valid = file.lines.len() as u64;
    let branches = branch_total(file.lines);
    Totals {
        extra: Counters {
            instruction: add_counter(t.extra.instruction, file.counters.instruction),
            complexity: add_counter(t.extra.complexity, file.counters.complexity),
            method: add_counter(t.extra.method, file.counters.method),
            class: add_counter(t.extra.class, file.counters.class),
        },
        line: Counter {
            missed: t.line.missed.wrapping_add(valid.wrapping_sub(covered)),
            covered: t.line.covered.wrapping_add(covered),
        },
        branch: Counter {
            missed: t.branch.missed.wrapping_add(
                branches.total.wrapping_sub(branches.covered) as u64,
            ),
            covered: t.branch.covered.wrapping_add(branches.covered as u64),
        },
    }
}

pub open spec fn files_totaled(files: Seq<FileCoverageView>) -> Totals
    decreases files.len(),
{
    if files.len() == 0 {
        no_totals()
    } else {
        file_totaled(files_totaled(files.drop_last()), files.last())
    }
}

pub open spec fn counter_pairs(kind: Seq<char>, counter: Counter) -> Seq<AttrView> {
    seq![
        ("type"@, kind),
        ("missed"@, decimal(counter.missed as nat)),
        ("covered"@, decimal(counter.covered as nat)),
    ]
}

pub open spec fn counter_item(kind: Seq<char>, counter: Counter) -> Item {
    empty_item("counter"@, counter_pairs(kind, counter))
}

pub open spec fn opt_counter(kind: Seq<char>, counter: Option<Counter>) -> Seq<Item> {
    match counter {
        Some(c) => seq![counter_item(kind, c)],
        None => Seq::empty(),
    }
}

/// The counters that a consumer needs. Lines and branches are recomputed;
/// bytecode counters are passed through. Where the source had no instruction
/// counter and `synthesize` asks for one, it is one instruction per line.
#[verifier::opaque]
pub open spec fn counters_items(files: Seq<FileCoverageView>, synthesize: bool) -> Seq<Item> {
    let t = files_totaled(files);
    let instruction = match t.extra.instruction {
        Some(c) => Some(c),
        None => if synthesize {
            Some(t.line)
        } else {
            None
        },
    };
    let branch = if t.branch.missed.wrapping_add(t.branch.covered) > 0 {
        Some(t.branch)
    } else {
        None
    };
    opt_counter("INSTRUCTION"@, instruction) + opt_counter("BRANCH"@, branch) + seq![
        counter_item("LINE"@, t.line),
    ] + opt_counter("COMPLEXITY"@, t.extra.complexity) + opt_counter(
        "METHOD"@,
        t.extra.method,
    ) + opt_counter("CLASS"@, t.extra.class)
}

pub fn accumulate(target: &mut Option<Counter>, extra: Option<Counter>)
    ensures
        *final(target) == add_counter(*old(target), extra),
{
    *target = plus(*target, extra);
}

pub fn counter_attrs<'a>(kind: &str, counter: Counter) -> (r: Attrs<'a>)
    ensures
        r.deep_view() == counter_pairs(kind@, counter),
{
    let attrs = and_attr(no_attrs(), "type", kind);
    let attrs = and_number(attrs, "missed", counter.missed);
    let attrs = and_number(attrs, "covered", counter.covered);
    assert(attrs.deep_view() =~= counter_pairs(kind@, counter));
    attrs
}

fn write_counter(w: &mut XmlWriter, kind: &str, counter: Option<Counter>)
    requires
        old(w).wf(),
    ensures
        final(w).wf(),
        final(w)@ == old(w)@ + opt_counter(kind@, counter),
{
    if let Some(counter) = counter {
        w.empty("counter", &counter_attrs(kind, counter));
    }
    assert(w@ =~= old(w)@ + opt_counter(kind@, counter));
}

fn total_files(files: &Vec<FileCoverage>, from: usize, to: usize) -> (r: Totals)
    requires
        from <= to <= files@.len(),
    ensures
        r == files_totaled(files.deep_view().subrange(from as int, to as int)),
{
    let ghost mine = files.deep_view().subrange(from as int, to as int);
    let mut extra = Counters { instruction: None, complexity: None, method: None, class: None };
    let mut line = Counter { missed: 0, covered: 0 };
    let mut branch = Counter { missed: 0, covered: 0 };
    let mut i: usize = from;
    assert(mine.take(0) =~= Seq::empty());
    while i < to
        invariant
            from <= i <= to <= files@.len(),
            mine == files.deep_view().subrange(from as int, to as int),
            (Totals { extra, line, branch }) == files_totaled(mine.take(i - from)),
        decreases to - i,
    {
        assert(mine.take(i - from + 1).drop_last() =~= mine.take(i - from));
        let file = &files[i];
        let covered = file.lines_covered();
        let valid = file.lines_valid();
        line.missed = line.missed.wrapping_add(valid.wrapping_sub(covered));
        line.covered = line.covered.wrapping_add(covered);
        let branches = file.branches();
        branch.missed = branch.missed.wrapping_add(
            branches.total.wrapping_sub(branches.covered) as u64,
        );
        branch.covered = branch.covered.wrapping_add(branches.covered as u64);
        accumulate(&mut extra.instruction, file.counters.instruction);
        accumulate(&mut extra.complexity, file.counters.complexity);
        accumulate(&mut extra.method, file.counters.method);
        accumulate(&mut extra.class, file.counters.class);
        i = i + 1;
    }
    assert(mine.take(i - from) =~= mine);
    Totals { extra, line, branch }
}

/// Writes the counters of the files `from` up to `to`.
pub fn write_counters(
    w: &mut XmlWriter,
    files: &Vec<FileCoverage>,
    from: usize,
    to: usize,
    synthesize_instruction: bool,
)
    requires
        old(w).wf(),
        from <= to <= files@.len(),
    ensures
        final(w).wf(),
        final(w)@ == old(w)@ + counters_items(
            files.deep_view().subrange(from as int, to as int),
            synthesize_instruction,
        ),
{
    let t = total_files(files, from, to);
    let instruction = match t.extra.instruction {
        Some(c) => Some(c),
        None => if synthesize_instruction {
            Some(t.line)
        } else {
            None
        },
    };
    let branch = if t.branch.total() > 0 {
        Some(t.branch)
    } else {
        None
    };
    write_counter(w, "INSTRUCTION", instruction);
    write_counter(w, "BRANCH", branch);
    write_counter(w, "LINE", Some(t.line));
    write_counter(w, "COMPLEXITY", t.extra.complexity);
    write_counter(w, "METHOD", t.extra.method);
    write_counter(w, "CLASS", t.extra.class);
    reveal(counters_items);
    assert(w@ =~= old(w)@ + counters_items(
        files.deep_view().subrange(from as int, to as int),
        synthesize_instruction,
    ));
}

// ---------------------------------------------------------------------------
// Classes and source files
// ---------------------------------------------------------------------------

pub open spec fn method_attrs(function: FunctionView) -> Seq<AttrView> {
    let base = seq![
        ("name"@, function.name),
        ("desc"@, or_text(function.signature, "()V"@)),
    ];
    match function.line {
        Some(line) => base.push(("line"@, decimal(line as nat))),
        None => base,
    }
}

pub open spec fn method_counter(function: FunctionView) -> Counter {
    Counter { missed: one_if(function.hits == 0), covered: one_if(function.hits > 0) }
}

pub open spec fn method_items(function: FunctionView) -> Seq<Item> {
    seq![
        open_item("method"@, method_attrs(function)),
        counter_item("METHOD"@, method_counter(function)),
        close_item("method"@),
    ]
}

pub open spec fn class_name(package: Seq<char>, file: FileCoverageView) -> Seq<char> {
    if package.len() == 0 {
        stem_part(file.path)
    } else {
        package + "/"@ + stem_part(file.path)
    }
}

pub open spec fn class_attrs(package: Seq<char>, file: FileCoverageView) -> Seq<AttrView> {
    seq![
        ("name"@, class_name(package, file)),
        ("sourcefilename"@, name_part(file.path)),
    ]
}

/// A class, for a file that has functions or bytecode counters. It carries the
/// counters: that is where they are read from. No instruction counter is made up
/// here, so that it is not taken for bytecode data when it is read again.
#[verifier::opaque]
pub open spec fn class_items(package: Seq<char>, file: FileCoverageView) -> Seq<Item> {
    if file.functions.len() == 0 && !file.has_extra() {
        Seq::empty()
    } else {
        seq![open_item("class"@, class_attrs(package, file))] + flat(
            file.functions,
            |f: FunctionView| method_items(f),
        ) + counters_items(seq![file], false) + seq![close_item("class"@)]
    }
}

pub open spec fn branch_of(line: Line) -> Branch {
    match line.branch {
        Some(b) => b,
        None => Branch { covered: 0, total: 0 },
    }
}

pub open spec fn line_attrs(line: Line) -> Seq<AttrView> {
    let branch = branch_of(line);
    seq![
        ("nr"@, decimal(line.number as nat)),
        ("mi"@, decimal(one_if(!(line.hits > 0)) as nat)),
        ("ci"@, decimal(one_if(line.hits > 0) as nat)),
        ("mb"@, decimal(branch.total.wrapping_sub(branch.covered) as nat)),
        ("cb"@, decimal(branch.covered as nat)),
    ]
}

#[verifier::opaque]
pub open spec fn source_items(file: FileCoverageView) -> Seq<Item> {
    seq![open_item("sourcefile"@, seq![("name"@, name_part(file.path))])]
        + file.lines.map_values(|l: Line| empty_item("line"@, line_attrs(l))) + counters_items(
        seq![file],
        true,
    ) + seq![close_item("sourcefile"@)]
}

fn write_method(w: &mut XmlWriter, function: &Function)
    requires
        old(w).wf(),
    ensures
        final(w).wf(),
        final(w)@ == old(w)@ + method_items(function.deep_view()),
{
    let attrs = and_attr(no_attrs(), "name", function.name.as_str());
    let mut attrs = and_attr(attrs, "desc", text_or(&function.signature, "()V"));
    if let Some(line) = function.line {
        attrs = and_number(attrs, "line", line as u64);
    }
    assert(attrs.deep_view() =~= method_attrs(function.deep_view()));
    w.open("method", &attrs);
    let counter = Counter { missed: bit(function.hits == 0), covered: bit(function.hits > 0) };
    w.empty("counter", &counter_attrs("METHOD", counter));
    w.close("method");
    assert(w@ =~= old(w)@ + method_items(function.deep_view()));
}

fn write_class(w: &mut XmlWriter, package: &str, files: &Vec<FileCoverage>, at: usize)
    requires
        old(w).wf(),
        at < files@.len(),
    ensures
        final(w).wf(),
        final(w)@ == old(w)@ + class_items(package@, files.deep_view()[at as int]),
{
    let file = &files[at];
    let ghost view = file.deep_view();
    let ghost all = view.functions;
    reveal(class_items);
    let counters = &file.counters;
    if file.functions.len() == 0 && counters.instruction.is_none() && counters.complexity.is_none()
        && counters.method.is_none() && counters.class.is_none() {
        assert(w@ =~= old(w)@ + class_items(package@, view));
        return;
    }
    let name = if package.is_empty() {
        owned(file.stem())
    } else {
        concat3(package, "/", file.stem())
    };
    let attrs = and_attr(no_attrs(), "name", name.as_str());
    let attrs = and_attr(attrs, "sourcefilename", file.file_name());
    assert(attrs.deep_view() =~= class_attrs(package@, view));
    w.open("class", &attrs);
    let ghost start = w@;
    let mut i: usize = 0;
    assert(all.take(0) =~= Seq::empty());
    assert(start + Seq::<Item>::empty() =~= start);
    while i < file.functions.len()
        invariant
            i <= file.functions@.len(),
            all == file.functions.deep_view(),
            w.wf(),
            w@ == start + flat(all.take(i as int), |f: FunctionView| method_items(f)),
        decreases file.functions@.len() - i,
    {
        assert(all.take(i as int + 1).drop_last() =~= all.take(i as int));
        write_method(w, &file.functions[i]);
        i = i + 1;
        assert(w@ =~= start + flat(all.take(i as int), |f: FunctionView| method_items(f)));
    }
    assert(all.take(i as int) =~= all);
    let count = files.len();
    assert(at < count);
    write_counters(w, files, at, at + 1, false);
    assert(files.deep_view().subrange(at as int, at + 1) =~= seq![view]);
    w.close("class");
    assert(w@ =~= old(w)@ + class_items(package@, view));
}

fn attrs_of_line<'a>(line: &Line) -> (r: Attrs<'a>)
    ensures
        r.deep_view() == line_attrs(*line),
{
    let branch = match line.branch {
        Some(b) => b,
        None => Branch { covered: 0, total: 0 },
    };
    let covered = line.hits > 0;
    let attrs = and_number(no_attrs(), "nr", line.number as u64);
    let attrs = and_number(attrs, "mi", bit(!covered));
    let attrs = and_number(attrs, "ci", bit(covered));
    let attrs = and_number(attrs, "mb", branch.total.wrapping_sub(branch.covered) as u64);
    let attrs = and_number(attrs, "cb", branch.covered as u64);
    assert(attrs.deep_view() =~= line_attrs(*line));
    attrs
}

fn write_source(w: &mut XmlWriter, files: &Vec<FileCoverage>, at: usize)
    requires
        old(w).wf(),
        at < files@.len(),
    ensures
        final(w).wf(),
        final(w)@ == old(w)@ + source_items(files.deep_view()[at as int]),
{
    let file = &files[at];
    let ghost view = file.deep_view();
    reveal(source_items);
    w.open("sourcefile", &and_attr(no_attrs(), "name", file.file_name()));
    let ghost goal = view.lines.map_values(|l: Line| empty_item("line"@, line_attrs(l)));
    let ghost start = w@;
    let mut i: usize = 0;
    assert(start + goal.take(0) =~= start);
    while i < file.lines.len()
        invariant
            i <= file.lines@.len(),
            view == file.deep_view(),
            goal == view.lines.map_values(|l: Line| empty_item("line"@, line_attrs(l))),
            w.wf(),
            w@ == start + goal.take(i as int),
        decreases file.lines@.len() - i,
    {
        w.empty("line", &attrs_of_line(&file.lines[i]));
        i = i + 1;
        assert(w@ =~= start + goal.take(i as int));
    }
    assert(goal.take(i as int) =~= goal);
    let count = files.len();
    assert(at < count);
    write_counters(w, files, at, at + 1, true);
    assert(files.deep_view().subrange(at as int, at + 1) =~= seq![view]);
    w.close("sourcefile");
    assert(w@ =~= old(w)@ + source_items(view));
}

// ---------------------------------------------------------------------------
// Packages
// ---------------------------------------------------------------------------

/// A package: its classes, then its source files, then its counters, as the
/// DTD orders them.
#[verifier::opaque]
pub open spec fn package_items(package: Seq<char>, files: Seq<FileCoverageView>) -> Seq<Item> {
    seq![open_item("package"@, seq![("name"@, package)])] + flat(
        files,
        |f: FileCoverageView| class_items(package, f),
    ) + flat(files, |f: FileCoverageView| source_items(f)) + counters_items(files, true) + seq![
        close_item("package"@),
    ]
}

/// The packages: one for each directory, with all its files.
pub open spec fn packages_items(files: Seq<FileCoverageView>) -> Seq<Item> {
    flat(packages_by(files, placed()), |p: PackageView| package_items(p.name, p.files))
}

fn write_classes(w: &mut XmlWriter, package: &str, files: &Vec<FileCoverage>)
    requires
        old(w).wf(),
    ensures
        final(w).wf(),
        final(w)@ == old(w)@ + flat(
            files.deep_view(),
            |f: FileCoverageView| class_items(package@, f),
        ),
{
    let ghost all = files.deep_view();
    let ghost start = w@;
    let mut i: usize = 0;
    assert(all.take(0) =~= Seq::empty());
    assert(start + Seq::<Item>::empty() =~= start);
    while i < files.len()
        invariant
            i <= files@.len(),
            all == files.deep_view(),
            w.wf(),
            w@ == start + flat(
                all.take(i as int),
                |f: FileCoverageView| class_items(package@, f),
            ),
        decreases files@.len() - i,
    {
        assert(all.take(i as int + 1).drop_last() =~= all.take(i as int));
        write_class(w, package, files, i);
        i = i + 1;
        assert(w@ =~= start + flat(
            all.take(i as int),
            |f: FileCoverageView| class_items(package@, f),
        ));
    }
    assert(all.take(i as int) =~= all);
}

fn write_sources(w: &mut XmlWriter, files: &Vec<FileCoverage>)
    requires
        old(w).wf(),
    ensures
        final(w).wf(),
        final(w)@ == old(w)@ + flat(files.deep_view(), |f: FileCoverageView| source_items(f)),
{
    let ghost all = files.deep_view();
    let ghost start = w@;
    let mut i: usize = 0;
    assert(all.take(0) =~= Seq::empty());
    assert(start + Seq::<Item>::empty() =~= start);
    while i < files.len()
        invariant
            i <= files@.len(),
            all == files.deep_view(),
            w.wf(),
            w@ == start + flat(all.take(i as int), |f: FileCoverageView| source_items(f)),
        decreases files@.len() - i,
    {
        assert(all.take(i as int + 1).drop_last() =~= all.take(i as int));
        write_source(w, files, i);
        i = i + 1;
        assert(w@ =~= start + flat(all.take(i as int), |f: FileCoverageView| source_items(f)));
    }
    assert(all.take(i as int) =~= all);
}

pub fn write_package(w: &mut XmlWriter, package: &str, files: &Vec<FileCoverage>)
    requires
        old(w).wf(),
    ensures
        final(w).wf(),
        final(w)@ == old(w)@ + package_items(package@, files.deep_view()),
{
    let ghost all = files.deep_view();
    w.open("package", &and_attr(no_attrs(), "name", package));
    write_classes(w, package, files);
    write_sources(w, files);
    write_counters(w, files, 0, files.len(), true);
    assert(all.subrange(0, all.len() as int) =~= all);
    w.close("package");
    reveal(package_items);
    assert(w@ =~= old(w)@ + package_items(package@, all));
}

fn write_packages(w: &mut XmlWriter, files: &Vec<FileCoverage>)
    requires
        old(w).wf(),
    ensures
        final(w).wf(),
        final(w)@ == old(w)@ + packages_items(files.deep_view()),
{
    let packages = by_directory(files);
    let ghost all = packages.deep_view();
    let ghost start = w@;
    let mut i: usize = 0;
    assert(all.take(0) =~= Seq::empty());
    assert(start + Seq::<Item>::empty() =~= start);
    while i < packages.len()
        invariant
            i <= packages@.len(),
            all == packages.deep_view(),
            w.wf(),
            w@ == start + flat(
                all.take(i as int),
                |p: PackageView| package_items(p.name, p.files),
            ),
        decreases packages@.len() - i,
    {
        assert(all.take(i as int + 1).drop_last() =~= all.take(i as int));
        assert(all[i as int] == packages[i as int].deep_view());
        let package = &packages[i];
        write_package(w, package.name.as_str(), &package.files);
        i = i + 1;
        assert(w@ =~= start + flat(
            all.take(i as int),
            |p: PackageView| package_items(p.name, p.files),
        ));
    }
    assert(all.take(i as int) =~= all);
}

// ---------------------------------------------------------------------------
// The report
// ---------------------------------------------------------------------------

/// Whether a line of the file ran more than once.
pub open spec fn counts_runs(file: FileCoverageView) -> bool {
    any_in(file.lines, |l: Line| l.hits > 1)
}

pub open spec fn notices(doc: CoverageDocView, ctx: CtxView) -> CtxView {
    ctx.degraded_if(
        any_in(doc.files, |f: FileCoverageView| counts_runs(f)),
        "jacoco: execution counts were flattened to covered/not-covered (JaCoCo has no hit counter)"@,
    ).degraded_if(
        !doc.has_extra_counters() && doc.files.len() > 0,
        "jacoco: instruction counters were approximated as one instruction per line; complexity, method and class counters are omitted"@,
    )
}

/// The lines of a report.
pub open spec fn report_items(doc: CoverageDocView) -> Seq<Item> {
    seq![
        declaration_item(),
        Item::Raw { text: DOCTYPE@ },
        open_item("report"@, seq![("name"@, "udc"@)]),
    ] + packages_items(doc.files) + counters_items(doc.files, true) + seq![close_item("report"@)]
}

pub open spec fn written(doc: DocView, ctx: CtxView) -> (Result<Seq<char>, ErrorView>, CtxView) {
    match doc {
        DocView::Coverage(doc) => (Ok(rendered(report_items(doc))), notices(doc, ctx)),
        _ => (Err(wrong_kind("expected a coverage report"@)), ctx),
    }
}

fn file_counts(file: &FileCoverage) -> (r: bool)
    ensures
        r == counts_runs(file.deep_view()),
{
    let mut i: usize = 0;
    while i < file.lines.len()
        invariant
            i <= file.lines@.len(),
            forall|j: int| 0 <= j < i ==> !((#[trigger] file.lines.deep_view()[j]).hits > 1),
        decreases file.lines@.len() - i,
    {
        if file.lines[i].hits > 1 {
            assert(file.deep_view().lines[i as int].hits > 1);
            return true;
        }
        i = i + 1;
    }
    false
}

fn any_counts(files: &Vec<FileCoverage>) -> (r: bool)
    ensures
        r == any_in(files.deep_view(), |f: FileCoverageView| counts_runs(f)),
{
    let mut i: usize = 0;
    while i < files.len()
        invariant
            i <= files@.len(),
            forall|j: int| 0 <= j < i ==> !counts_runs(#[trigger] files.deep_view()[j]),
        decreases files@.len() - i,
    {
        if file_counts(&files[i]) {
            assert(counts_runs(files.deep_view()[i as int]));
            return true;
        }
        i = i + 1;
    }
    false
}

fn report_text(doc: &CoverageDoc) -> (r: String)
    ensures
        r@ == rendered(report_items(doc.deep_view())),
{
    let mut w = XmlWriter::new();
    w.declaration();
    w.line(DOCTYPE);
    w.open("report", &and_attr(no_attrs(), "name", "udc"));
    write_packages(&mut w, &doc.files);
    write_counters(&mut w, &doc.files, 0, doc.files.len(), true);
    assert(doc.files.deep_view().subrange(0, doc.files@.len() as int) =~= doc.files.deep_view());
    w.close("report");
    assert(w@ =~= report_items(doc.deep_view()));
    w.finish()
}

pub fn write(doc: &Doc, ctx: &mut FormatCtx) -> (r: Result<String, Error>)
    ensures
        (text_result(r), final(ctx)@) == written(doc.deep_view(), old(ctx)@),
{
    let doc = match doc.as_coverage() {
        Ok(doc) => doc,
        Err(e) => {
            return Err(e);
        },
    };
    if any_counts(&doc.files) {
        ctx.degraded(
            "jacoco: execution counts were flattened to covered/not-covered (JaCoCo has no hit counter)",
        );
    }
    if !doc.has_extra_counters() && doc.files.len() > 0 {
        ctx.degraded(
            "jacoco: instruction counters were approximated as one instruction per line; complexity, method and class counters are omitted",
        );
    }
    Ok(report_text(doc))
}

// ---------------------------------------------------------------------------
// Laws
// ---------------------------------------------------------------------------

/// What is left of a line once it was written and read: whether it ran, and
/// its branches, where it has any.
pub open spec fn kept_line(line: Line) -> Line {
    Line {
        number: line.number,
        hits: one_if(line.hits > 0),
        branch: match line.branch {
            Some(b) => if b.total > 0 {
                Some(b)
            } else {
                None
            },
            None => None,
        },
    }
}

/// A tag with the attributes that a line is written with reads as that line,
/// its count flattened to whether it ran.
pub proof fn lines_read_back(line: Line, tag: TagView)
    requires
        carries(tag, line_attrs(line)),
    ensures
        line_of(tag) == Some(kept_line(line)),
{
    let attrs = line_attrs(line);
    let branch = branch_of(line);
    written_numbers_parse(line.number as u64);
    written_numbers_parse(one_if(line.hits > 0));
    written_numbers_parse(branch.total.wrapping_sub(branch.covered) as u64);
    written_numbers_parse(branch.covered as u64);
    assert(attrs[0].0 == "nr"@);
    assert(attrs[2].0 == "ci"@);
    assert(attrs[3].0 == "mb"@);
    assert(attrs[4].0 == "cb"@);
}

/// The bytecode counters of a file pass through: the counters written for it
/// alone are its own.
pub proof fn bytecode_counters_pass_through(file: FileCoverageView)
    ensures
        files_totaled(seq![file]).extra == file.counters,
{
    let one = seq![file];
    assert(one.drop_last() =~= Seq::empty());
    assert(files_totaled(one.drop_last()) == no_totals());
}

/// A tag with the attributes that a counter is written with reads as that
/// counter.
pub proof fn counters_read_back(kind: Seq<char>, counter: Counter, tag: TagView)
    requires
        carries(tag, counter_pairs(kind, counter)),
    ensures
        tag.attr("type"@) == Some(kind),
        counter_of(tag) == counter,
{
    let attrs = counter_pairs(kind, counter);
    written_numbers_parse(counter.missed);
    written_numbers_parse(counter.covered);
    assert(attrs[0].0 == "type"@);
    assert(attrs[1].0 == "missed"@);
    assert(attrs[2].0 == "covered"@);
}

} // verus!
