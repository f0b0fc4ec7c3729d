//! The course of a conversion: what is decided before an input is read, between
//! reading and writing, and at the end.

use vstd::prelude::*;

use crate::detect::{detect, detected, sniffed, sniffed_bytes, SniffedView};
use crate::error::{parse_error, Error, ErrorView};
use crate::formats::coverage::cobertura::{Ratio, RatioView};
use crate::formats::coverage::{clover, cobertura, gocover, istanbul, jacoco, lcov};
use crate::formats::quality::sarif::{Score, ScoreView};
use crate::formats::quality::{checkstyle, codeclimate, eslint, sarif};
use crate::formats::security::gitlab::Profile;
use crate::formats::security::{gitlab, gitlab_sast, trivy};
use crate::formats::tests::junit::{Times, TimesView};
use crate::formats::tests::{gotest, junit, tap, trx};
use crate::json::{Json, JsonView};
use crate::paths::{directories, directory_of, MapperView, PathMapper};
use crate::registry::{
    category_name, found_formats_are_supported, found_formats_have_a_category, in_order, kind_of,
    merged, merging_stays_within_a_kind, normalized, read_result, reader_kind, resolve, resolved,
    resolved_formats_are_supported, resolved_formats_have_a_category, selection_text,
    shared_categories_fit, supported, writer_kind, Doc, DocView, FormatSpec, FormatSpecView, ReadFn,
    Selection, SelectionView, WriteFn,
};
use crate::text::{concat3, concat5, lines, lower, owned, same, same_ignoring_case, text_in};
use crate::value::with_all_new;
use crate::warn::{absorb_keeps_every_notice, CtxView, FormatCtx, NoteView, Warnings};
use crate::xml::xml_events;

verus! {

/// Stands for the standard streams in place of a file name.
pub const STDIO: &'static str = "-";

/// The input format that asks for detection by content.
pub const AUTO: &'static str = "auto";

// ---------------------------------------------------------------------------
// Formats
// ---------------------------------------------------------------------------

pub open spec fn described(source: Seq<char>) -> Seq<char> {
    if source == STDIO@ {
        "stdin"@
    } else {
        "'"@ + source + "'"@
    }
}

/// How messages call a source.
pub fn describe(source: &str) -> (r: String)
    ensures
        r@ == described(source@),
{
    if same(source, STDIO) {
        owned("stdin")
    } else {
        concat3("'", source, "'")
    }
}

/// How messages call a format at a version.
pub fn describe_selection(selection: &Selection) -> (r: String)
    ensures
        r@ == selection_text(selection.deep_view()),
{
    match selection.version {
        Some(version) => concat3(selection.spec.id, "@", version),
        None => owned(selection.spec.id),
    }
}

/// What a selection function gives back.
pub open spec fn selection_result(r: Result<Selection, Error>) -> Result<SelectionView, ErrorView> {
    match r {
        Ok(s) => Ok(s.deep_view()),
        Err(e) => Err(e.deep_view()),
    }
}

/// The format to write, or why there is none: it has to be stated.
pub open spec fn output_format(requested: Option<Seq<char>>) -> Result<SelectionView, ErrorView> {
    match requested {
        None => Err(
            ErrorView::Config(
                "--output-format is required. Run `udc formats` to list the supported formats."@,
            ),
        ),
        Some(text) => if lower(text) == lower(AUTO@) {
            Err(
                ErrorView::Config(
                    "--output-format cannot be 'auto': the target format must be stated explicitly"@,
                ),
            )
        } else {
            resolved(text)
        },
    }
}

pub fn resolve_output_format(requested: &Option<String>) -> (r: Result<Selection, Error>)
    ensures
        selection_result(r) == output_format(requested.deep_view()),
{
    match requested {
        None => Err(
            Error::config(
                "--output-format is required. Run `udc formats` to list the supported formats.",
            ),
        ),
        Some(text) => if same_ignoring_case(text.as_str(), AUTO) {
            Err(
                Error::config(
                    "--output-format cannot be 'auto': the target format must be stated explicitly",
                ),
            )
        } else {
            resolve(text.as_str())
        },
    }
}

pub open spec fn is_blank_byte(b: u8) -> bool {
    b == 0x20 || b == 0x09 || b == 0x0a || b == 0x0c || b == 0x0d
}

/// Whether an input holds nothing but white space.
pub open spec fn is_blank(bytes: Seq<u8>) -> bool {
    forall|i: int| 0 <= i < bytes.len() ==> is_blank_byte(#[trigger] bytes[i])
}

pub fn blank(bytes: &[u8]) -> (r: bool)
    ensures
        r == is_blank(bytes@),
{
    let mut i: usize = 0;
    while i < bytes.len()
        invariant
            i <= bytes@.len(),
            forall|j: int| 0 <= j < i ==> is_blank_byte(#[trigger] bytes@[j]),
        decreases bytes@.len() - i,
    {
        let b = bytes[i];
        if !(b == 0x20 || b == 0x09 || b == 0x0a || b == 0x0c || b == 0x0d) {
            assert(!is_blank_byte(bytes@[i as int]));
            return false;
        }
        i = i + 1;
    }
    true
}

/// The format of an input: as declared, or as detected. Detection yields a
/// format but never a version.
pub open spec fn declared_or_detected(
    input_format: Seq<char>,
    bytes: Seq<u8>,
    source: Seq<char>,
) -> Result<SelectionView, ErrorView> {
    if lower(input_format) == lower(AUTO@) {
        match detected(text_in(sniffed_bytes(bytes)), described(source)) {
            Ok(spec) => Ok(
                SelectionView { spec, version: spec.default_version, explicit_version: false },
            ),
            Err(e) => Err(e),
        }
    } else {
        resolved(input_format)
    }
}

fn find_origin(input_format: &str, bytes: &[u8], source: &str) -> (r: Result<Selection, Error>)
    ensures
        selection_result(r) == declared_or_detected(input_format@, bytes@, source@),
{
    if same_ignoring_case(input_format, AUTO) {
        match detect(bytes, describe(source).as_str()) {
            Ok(spec) => {
                let version = spec.default_version;
                Ok(Selection { spec, version, explicit_version: false })
            },
            Err(e) => Err(e),
        }
    } else {
        resolve(input_format)
    }
}

pub open spec fn cross_category(origin: FormatSpecView, target: FormatSpecView) -> ErrorView {
    ErrorView::Config(
        "cannot convert a "@ + category_name(origin.categories[0]) + " report ('"@ + origin.id
            + "') into a "@ + category_name(target.categories[0]) + " report ('"@ + target.id
            + "'): conversion is only defined within a category"@,
    )
}

fn refuse_categories(origin: &FormatSpec, target: &FormatSpec) -> (r: Error)
    requires
        origin.deep_view().categories.len() > 0,
        target.deep_view().categories.len() > 0,
    ensures
        r.deep_view() == cross_category(origin.deep_view(), target.deep_view()),
{
    let head = concat5(
        "cannot convert a ",
        origin.primary_category().as_str(),
        " report ('",
        origin.id,
        "') into a ",
    );
    let text = concat5(
        head.as_str(),
        target.primary_category().as_str(),
        " report ('",
        target.id,
        "'): conversion is only defined within a category",
    );
    Error::config(text.as_str())
}

// ---------------------------------------------------------------------------
// Readers and writers
// ---------------------------------------------------------------------------

/// An input as the readers take it. Which parts a reader looks at,
/// [`preparation`] tells.
#[derive(Debug)]
pub struct Input {
    pub bytes: Vec<u8>,
    /// The JSON document that the bytes hold, or what is wrong with it.
    pub json: Result<Json, String>,
    /// The JSON documents of the lines that [`gotest::event_lines`] gives.
    pub events: Vec<Option<Json>>,
    /// What the numbers that [`lcov::count_texts`] lists amount to.
    pub counts: Vec<(String, u64)>,
    /// Where the numbers that [`sarif::score_texts`] lists stand.
    pub scores: Vec<Score>,
}

/// The content of an [`Input`].
pub struct InputView {
    pub bytes: Seq<u8>,
    pub json: Result<JsonView, Seq<char>>,
    pub events: Seq<Option<JsonView>>,
    pub counts: Seq<(Seq<char>, u64)>,
    pub scores: Seq<ScoreView>,
}

impl DeepView for Input {
    type V = InputView;

    open spec fn deep_view(&self) -> InputView {
        InputView {
            bytes: self.bytes@,
            json: match self.json {
                Ok(json) => Ok(json.deep_view()),
                Err(problem) => Err(problem@),
            },
            events: self.events.deep_view(),
            counts: self.counts.deep_view(),
            scores: self.scores.deep_view(),
        }
    }
}

/// What has to be worked out of the bytes before a reader can take them.
#[derive(Debug, Clone, Copy, PartialEq, Eq, Structural)]
pub enum Preparation {
    Nothing,
    Json,
    Events,
    Counts,
    /// A JSON document, and its scores.
    Scores,
}

pub fn preparation(reader: ReadFn) -> (r: Preparation)
    ensures
        r == match reader {
            ReadFn::Lcov => Preparation::Counts,
            ReadFn::GoTest => Preparation::Events,
            ReadFn::Sarif => Preparation::Scores,
            ReadFn::Istanbul => Preparation::Json,
            ReadFn::Eslint => Preparation::Json,
            ReadFn::CodeClimate => Preparation::Json,
            ReadFn::Trivy => Preparation::Json,
            _ => Preparation::Nothing,
        },
{
    match reader {
        ReadFn::Lcov => Preparation::Counts,
        ReadFn::GoTest => Preparation::Events,
        ReadFn::Sarif => Preparation::Scores,
        ReadFn::Istanbul => Preparation::Json,
        ReadFn::Eslint => Preparation::Json,
        ReadFn::CodeClimate => Preparation::Json,
        ReadFn::Trivy => Preparation::Json,
        _ => Preparation::Nothing,
    }
}

/// What a reader makes of an input.
pub open spec fn reading(reader: ReadFn, input: InputView, ctx: CtxView) -> (
    Result<DocView, ErrorView>,
    CtxView,
) {
    match reader {
        ReadFn::Lcov => (
            lcov::read_spec(lines(text_in(input.bytes)), input.counts),
            ctx,
        ),
        ReadFn::Clover => (clover::read_spec(xml_events(input.bytes, true)), ctx),
        ReadFn::Cobertura => (cobertura::read_spec(xml_events(input.bytes, true)), ctx),
        ReadFn::GoCover => gocover::read_spec(lines(text_in(input.bytes)), ctx),
        ReadFn::Jacoco => (jacoco::read_spec(xml_events(input.bytes, true)), ctx),
        ReadFn::Junit => (junit::read_spec(xml_events(input.bytes, false)), ctx),
        ReadFn::GoTest => gotest::read_spec(input.events, ctx),
        ReadFn::Tap => tap::read_spec(lines(text_in(input.bytes)), ctx),
        ReadFn::Trx => trx::read_spec(xml_events(input.bytes, false), ctx),
        ReadFn::Checkstyle => (checkstyle::read_spec(xml_events(input.bytes, true)), ctx),
        ReadFn::Istanbul => match input.json {
            Ok(json) => (istanbul::read_spec(json), ctx),
            Err(problem) => (Err(parse_error(istanbul::FORMAT@, problem)), ctx),
        },
        ReadFn::Eslint => match input.json {
            Ok(json) => eslint::read_spec(json, ctx),
            Err(problem) => (Err(parse_error(eslint::FORMAT@, problem)), ctx),
        },
        ReadFn::Sarif => match input.json {
            Ok(json) => sarif::read_spec(json, input.scores, ctx),
            Err(problem) => (Err(parse_error(sarif::FORMAT@, problem)), ctx),
        },
        ReadFn::CodeClimate => match input.json {
            Ok(json) => (codeclimate::read_spec(json), ctx),
            Err(problem) => (Err(parse_error(codeclimate::FORMAT@, problem)), ctx),
        },
        ReadFn::Trivy => match input.json {
            Ok(json) => trivy::read_spec(json, ctx),
            Err(problem) => (Err(parse_error(trivy::FORMAT@, problem)), ctx),
        },
    }
}

fn read_json(reader: ReadFn, json: &Json, scores: &Vec<Score>, ctx: &mut FormatCtx) -> (r: Result<
    Doc,
    Error,
>)
    requires
        reader is Istanbul || reader is Eslint || reader is Sarif || reader is CodeClimate
            || reader is Trivy,
    ensures
        (read_result(r), final(ctx)@) == (match reader {
            ReadFn::Istanbul => (istanbul::read_spec(json.deep_view()), old(ctx)@),
            ReadFn::Eslint => eslint::read_spec(json.deep_view(), old(ctx)@),
            ReadFn::Sarif => sarif::read_spec(json.deep_view(), scores.deep_view(), old(ctx)@),
            ReadFn::CodeClimate => (codeclimate::read_spec(json.deep_view()), old(ctx)@),
            _ => trivy::read_spec(json.deep_view(), old(ctx)@),
        }),
{
    match reader {
        ReadFn::Istanbul => istanbul::read(json, ctx),
        ReadFn::Eslint => eslint::read(json, ctx),
        ReadFn::Sarif => sarif::read(json, scores, ctx),
        ReadFn::CodeClimate => codeclimate::read(json, ctx),
        _ => trivy::read(json, ctx),
    }
}

fn json_format(reader: ReadFn) -> (r: &'static str)
    ensures
        reader is Istanbul ==> r@ == istanbul::FORMAT@,
        reader is Eslint ==> r@ == eslint::FORMAT@,
        reader is Sarif ==> r@ == sarif::FORMAT@,
        reader is CodeClimate ==> r@ == codeclimate::FORMAT@,
        reader is Trivy ==> r@ == trivy::FORMAT@,
{
    match reader {
        ReadFn::Istanbul => istanbul::FORMAT,
        ReadFn::Eslint => eslint::FORMAT,
        ReadFn::Sarif => sarif::FORMAT,
        ReadFn::CodeClimate => codeclimate::FORMAT,
        _ => trivy::FORMAT,
    }
}

/// Reads an input with this reader.
pub fn read_as(reader: ReadFn, input: &Input, ctx: &mut FormatCtx) -> (r: Result<Doc, Error>)
    ensures
        (read_result(r), final(ctx)@) == reading(reader, input.deep_view(), old(ctx)@),
{
    let bytes = input.bytes.as_slice();
    match reader {
        ReadFn::Lcov => lcov::read(bytes, &input.counts, ctx),
        ReadFn::Clover => clover::read(bytes, ctx),
        ReadFn::Cobertura => cobertura::read(bytes, ctx),
        ReadFn::GoCover => gocover::read(bytes, ctx),
        ReadFn::Jacoco => jacoco::read(bytes, ctx),
        ReadFn::Junit => junit::read(bytes, ctx),
        ReadFn::GoTest => gotest::read(&input.events, ctx),
        ReadFn::Tap => tap::read(bytes, ctx),
        ReadFn::Trx => trx::read(bytes, ctx),
        ReadFn::Checkstyle => checkstyle::read(bytes, ctx),
        _ => match &input.json {
            Ok(json) => read_json(reader, json, &input.scores, ctx),
            Err(problem) => Err(Error::parse(json_format(reader), problem.as_str())),
        },
    }
}

/// What a writer puts out: text as it is, or a JSON document to be printed.
#[derive(Debug)]
pub enum Output {
    Text(String),
    Json(Json),
}

/// The content of an [`Output`].
pub enum OutputView {
    Text(Seq<char>),
    Json(JsonView),
}

impl DeepView for Output {
    type V = OutputView;

    open spec fn deep_view(&self) -> OutputView {
        match self {
            Output::Text(text) => OutputView::Text(text@),
            Output::Json(json) => OutputView::Json(json.deep_view()),
        }
    }
}

/// What a writer gives back.
pub open spec fn output_result(r: Result<Output, Error>) -> Result<OutputView, ErrorView> {
    match r {
        Ok(output) => Ok(output.deep_view()),
        Err(e) => Err(e.deep_view()),
    }
}

pub open spec fn text_output(r: Result<Seq<char>, ErrorView>) -> Result<OutputView, ErrorView> {
    match r {
        Ok(text) => Ok(OutputView::Text(text)),
        Err(e) => Err(e),
    }
}

pub open spec fn json_output(r: Result<JsonView, ErrorView>) -> Result<OutputView, ErrorView> {
    match r {
        Ok(json) => Ok(OutputView::Json(json)),
        Err(e) => Err(e),
    }
}

/// What a writer makes of a document. `ratios` and `times` hold what
/// [`cobertura::write`] and [`junit::write`] need.
pub open spec fn writing(
    writer: WriteFn,
    doc: DocView,
    ratios: Seq<RatioView>,
    times: TimesView,
    ctx: CtxView,
) -> (Result<OutputView, ErrorView>, CtxView) {
    match writer {
        WriteFn::Lcov => {
            let (r, next) = lcov::written(doc, ctx);
            (text_output(r), next)
        },
        WriteFn::Clover => {
            let (r, next) = clover::written(doc, ctx);
            (text_output(r), next)
        },
        WriteFn::Cobertura => {
            let (r, next) = cobertura::written(doc, ratios, ctx);
            (text_output(r), next)
        },
        WriteFn::Jacoco => {
            let (r, next) = jacoco::written(doc, ctx);
            (text_output(r), next)
        },
        WriteFn::Junit => (text_output(junit::written(doc, times)), ctx),
        WriteFn::Sarif => {
            let (r, next) = sarif::written(doc, ctx);
            (json_output(r), next)
        },
        WriteFn::CodeClimate => {
            let (r, next) = codeclimate::written(doc, false, ctx);
            (json_output(r), next)
        },
        WriteFn::CodeClimateGitlab => {
            let (r, next) = codeclimate::written(doc, true, ctx);
            (json_output(r), next)
        },
        WriteFn::GitlabSast => {
            let (r, next) = gitlab::written(doc, Profile::Sast, ctx);
            (json_output(r), next)
        },
    }
}

fn as_text(r: Result<String, Error>) -> (o: Result<Output, Error>)
    ensures
        output_result(o) == text_output(crate::xml::text_result(r)),
{
    match r {
        Ok(text) => Ok(Output::Text(text)),
        Err(e) => Err(e),
    }
}

fn as_json(r: Result<Json, Error>) -> (o: Result<Output, Error>)
    ensures
        output_result(o) == json_output(crate::json::json_result(r)),
{
    match r {
        Ok(json) => Ok(Output::Json(json)),
        Err(e) => Err(e),
    }
}

/// Writes a document with this writer.
pub fn write_as(
    writer: WriteFn,
    doc: &Doc,
    ratios: &Vec<Ratio>,
    times: &Times,
    ctx: &mut FormatCtx,
) -> (r: Result<Output, Error>)
    ensures
        (output_result(r), final(ctx)@) == writing(
            writer,
            doc.deep_view(),
            ratios.deep_view(),
            times.deep_view(),
            old(ctx)@,
        ),
{
    match writer {
        WriteFn::Lcov => as_text(lcov::write(doc, ctx)),
        WriteFn::Clover => as_text(clover::write(doc, ctx)),
        WriteFn::Cobertura => as_text(cobertura::write(doc, ratios, ctx)),
        WriteFn::Jacoco => as_text(jacoco::write(doc, ctx)),
        WriteFn::Junit => as_text(junit::write(doc, times, ctx)),
        WriteFn::Sarif => as_json(sarif::write(doc, ctx)),
        WriteFn::CodeClimate => as_json(codeclimate::write_full(doc, ctx)),
        WriteFn::CodeClimateGitlab => as_json(codeclimate::write_gitlab(doc, ctx)),
        WriteFn::GitlabSast => as_json(gitlab_sast::write(doc, ctx)),
    }
}

// ---------------------------------------------------------------------------
// A conversion
// ---------------------------------------------------------------------------

/// A conversion under way.
#[derive(Debug)]
pub struct Conversion {
    target: Selection,
    writer: WriteFn,
    input_format: String,
    mapper: PathMapper,
    warnings: Warnings,
    document: Option<Doc>,
}

/// The content of a [`Conversion`].
pub struct ConversionView {
    pub target: SelectionView,
    pub writer: WriteFn,
    pub input_format: Seq<char>,
    pub mapper: MapperView,
    pub notes: Seq<NoteView>,
    pub document: Option<DocView>,
}

impl View for Conversion {
    type V = ConversionView;

    closed spec fn view(&self) -> ConversionView {
        ConversionView {
            target: self.target.deep_view(),
            writer: self.writer,
            input_format: self.input_format@,
            mapper: self.mapper@,
            notes: self.warnings@,
            document: match self.document {
                Some(doc) => Some(doc.deep_view()),
                None => None,
            },
        }
    }
}

pub open spec fn mapper_of(
    source_root: Option<Seq<char>>,
    strip_prefixes: Seq<Seq<char>>,
) -> MapperView {
    MapperView {
        source_root: match source_root {
            Some(root) => Some(directory_of(root)),
            None => None,
        },
        strip_prefixes: directories(strip_prefixes),
    }
}

/// The conversion that is asked for, or why it cannot be. A bad selector is
/// reported before any file is read.
pub open spec fn planned(
    output: Option<Seq<char>>,
    input_format: Seq<char>,
    source_root: Option<Seq<char>>,
    strip_prefixes: Seq<Seq<char>>,
) -> Result<ConversionView, ErrorView> {
    match output_format(output) {
        Err(e) => Err(e),
        Ok(target) => match target.spec.write {
            None => Err(
                ErrorView::Config(
                    "format '"@ + target.spec.id + "' cannot be written (it is read-only)"@,
                ),
            ),
            Some(writer) => {
                let plan = ConversionView {
                    target,
                    writer,
                    input_format,
                    mapper: mapper_of(source_root, strip_prefixes),
                    notes: Seq::empty(),
                    document: None,
                };
                if lower(input_format) == lower(AUTO@) {
                    Ok(plan)
                } else {
                    match resolved(input_format) {
                        Ok(_) => Ok(plan),
                        Err(e) => Err(e),
                    }
                }
            },
        },
    }
}

/// The format and reader of an input, or why it is refused. Conversion is only
/// defined within a category.
pub open spec fn origin_of(
    plan: ConversionView,
    bytes: Seq<u8>,
    source: Seq<char>,
) -> Result<(SelectionView, ReadFn), ErrorView> {
    if is_blank(bytes) {
        Err(ErrorView::Config(described(source) + " is empty"@))
    } else {
        match declared_or_detected(plan.input_format, bytes, source) {
            Err(e) => Err(e),
            Ok(origin) => if origin.spec.shared_category(plan.target.spec) is None {
                Err(cross_category(origin.spec, plan.target.spec))
            } else {
                match origin.spec.read {
                    None => Err(
                        ErrorView::Config(
                            "format '"@ + origin.spec.id
                                + "' cannot be read (it is write-only)"@,
                        ),
                    ),
                    Some(reader) => Ok((origin, reader)),
                }
            },
        }
    }
}

/// What a reader is told: the version, and whether paths will be rewritten.
pub open spec fn reading_ctx(plan: ConversionView, origin: SelectionView) -> CtxView {
    CtxView {
        version: origin.version,
        version_requested: origin.explicit_version,
        path_rewriting: !plan.mapper.is_noop(),
        notes: Seq::empty(),
    }
}

/// The conversion with one more report taken in: merged with what is there.
pub open spec fn taken_in(
    plan: ConversionView,
    doc: DocView,
    notes: Seq<NoteView>,
) -> Result<ConversionView, ErrorView> {
    let next = ConversionView { notes: with_all_new(plan.notes, notes), ..plan };
    match plan.document {
        None => Ok(ConversionView { document: Some(doc), ..next }),
        Some(known) => match merged(known, doc) {
            Some(both) => Ok(ConversionView { document: Some(both), ..next }),
            None => Err(
                ErrorView::Config("cannot merge inputs of different report categories"@),
            ),
        },
    }
}

/// The conversion with one more input read.
pub open spec fn input_read(
    plan: ConversionView,
    origin: SelectionView,
    reader: ReadFn,
    input: InputView,
) -> Result<ConversionView, ErrorView> {
    match reading(reader, input, reading_ctx(plan, origin)) {
        (Ok(doc), ctx) => taken_in(plan, doc, ctx.notes),
        (Err(e), _) => Err(e),
    }
}

/// The document to write: paths rewritten, in canonical order.
pub open spec fn settled(plan: ConversionView) -> Result<ConversionView, ErrorView> {
    match plan.document {
        None => Err(ErrorView::Config("no input file given"@)),
        Some(doc) => Ok(
            ConversionView { document: Some(in_order(normalized(doc, plan.mapper))), ..plan },
        ),
    }
}

pub open spec fn writing_ctx(plan: ConversionView) -> CtxView {
    CtxView {
        version: plan.target.version,
        version_requested: plan.target.explicit_version,
        path_rewriting: false,
        notes: Seq::empty(),
    }
}

impl Conversion {
    /// The target belongs to a category.
    pub closed spec fn wf(&self) -> bool {
        self.target.deep_view().spec.categories.len() > 0
    }

    /// What is asked for on the command line.
    pub fn plan(
        output: &Option<String>,
        input_format: &str,
        source_root: &Option<String>,
        strip_prefixes: &Vec<String>,
    ) -> (r: Result<Conversion, Error>)
        ensures
            match r {
                Ok(c) => c.wf() && planned(
                    output.deep_view(),
                    input_format@,
                    source_root.deep_view(),
                    strip_prefixes.deep_view(),
                ) == Ok::<ConversionView, ErrorView>(c@),
                Err(e) => planned(
                    output.deep_view(),
                    input_format@,
                    source_root.deep_view(),
                    strip_prefixes.deep_view(),
                ) == Err::<ConversionView, ErrorView>(e.deep_view()),
            },
    {
        let target = match resolve_output_format(output) {
            Ok(target) => target,
            Err(e) => {
                return Err(e);
            },
        };
        let writer = match target.spec.writer() {
            Ok(writer) => writer,
            Err(e) => {
                return Err(e);
            },
        };
        let root = match source_root {
            Some(root) => Some(root.as_str()),
            None => None,
        };
        let mapper = PathMapper::new(root, strip_prefixes.as_slice());
        proof {
            assert(strip_prefixes@.map_values(|p: String| p@) =~= strip_prefixes.deep_view());
            if let Some(text) = output.deep_view() {
                resolved_formats_have_a_category(text);
            }
        }
        if !same_ignoring_case(input_format, AUTO) {
            if let Err(e) = resolve(input_format) {
                return Err(e);
            }
        }
        Ok(
            Conversion {
                target,
                writer,
                input_format: owned(input_format),
                mapper,
                warnings: Warnings::new(),
                document: None,
            },
        )
    }

    /// The format and reader of an input.
    pub fn origin(&self, bytes: &[u8], source: &str) -> (r: Result<(Selection, ReadFn), Error>)
        requires
            self.wf(),
        ensures
            match r {
                Ok((selection, reader)) => origin_of(self@, bytes@, source@) == Ok::<
                    (SelectionView, ReadFn),
                    ErrorView,
                >((selection.deep_view(), reader)),
                Err(e) => origin_of(self@, bytes@, source@) == Err::<
                    (SelectionView, ReadFn),
                    ErrorView,
                >(e.deep_view()),
            },
    {
        if blank(bytes) {
            return Err(
                Error::config(
                    crate::text::concat(describe(source).as_str(), " is empty").as_str(),
                ),
            );
        }
        let origin = match find_origin(self.input_format.as_str(), bytes, source) {
            Ok(origin) => origin,
            Err(e) => {
                return Err(e);
            },
        };
        proof {
            let head = text_in(sniffed_bytes(bytes@));
            detected_formats_have_a_category(head, described(source@));
            resolved_formats_have_a_category(self.input_format@);
        }
        if origin.spec.shared_category(&self.target.spec).is_none() {
            return Err(refuse_categories(&origin.spec, &self.target.spec));
        }
        match origin.spec.reader() {
            Ok(reader) => Ok((origin, reader)),
            Err(e) => Err(e),
        }
    }

    fn take_in(&mut self, doc: Doc, warnings: Warnings) -> (r: Result<(), Error>)
        requires
            old(self).wf(),
        ensures
            final(self).wf(),
            match taken_in(old(self)@, doc.deep_view(), warnings@) {
                Ok(next) => r is Ok && final(self)@ == next,
                Err(e) => r is Err && r->Err_0.deep_view() == e,
            },
    {
        self.warnings.absorb(warnings);
        match &mut self.document {
            Some(known) => known.merge(doc),
            None => {
                self.document = Some(doc);
                Ok(())
            },
        }
    }

    /// Reads an input and takes it in.
    pub fn read(&mut self, origin: &Selection, reader: ReadFn, input: &Input) -> (r: Result<
        (),
        Error,
    >)
        requires
            old(self).wf(),
        ensures
            final(self).wf(),
            match input_read(old(self)@, origin.deep_view(), reader, input.deep_view()) {
                Ok(next) => r is Ok && final(self)@ == next,
                Err(e) => r is Err && r->Err_0.deep_view() == e,
            },
    {
        let mut ctx = origin.ctx();
        ctx.set_path_rewriting(!self.mapper.is_noop());
        match read_as(reader, input, &mut ctx) {
            Ok(doc) => self.take_in(doc, ctx.into_warnings()),
            Err(e) => Err(e),
        }
    }

    /// Ends reading: paths are rewritten, and the report is put in order.
    pub fn settle(&mut self) -> (r: Result<(), Error>)
        requires
            old(self).wf(),
        ensures
            final(self).wf(),
            match settled(old(self)@) {
                Ok(next) => r is Ok && final(self)@ == next,
                Err(e) => r is Err && r->Err_0.deep_view() == e,
            },
    {
        match &mut self.document {
            Some(doc) => {
                doc.normalize_paths(&self.mapper);
                doc.sort();
                Ok(())
            },
            None => Err(Error::config("no input file given")),
        }
    }

    /// The report as it stands.
    pub fn document(&self) -> (r: &Option<Doc>)
        ensures
            match *r {
                Some(doc) => self@.document == Some(doc.deep_view()),
                None => self@.document is None,
            },
    {
        &self.document
    }

    pub fn target(&self) -> (r: &Selection)
        ensures
            r.deep_view() == self@.target,
    {
        &self.target
    }

    /// Renders the report in the target format.
    pub fn write(&mut self, ratios: &Vec<Ratio>, times: &Times) -> (r: Result<Output, Error>)
        requires
            old(self).wf(),
        ensures
            final(self).wf(),
            match old(self)@.document {
                None => r is Err && r->Err_0.deep_view() == ErrorView::Config(
                    "no input file given"@,
                ) && final(self)@ == old(self)@,
                Some(doc) => {
                    let (o, ctx) = writing(
                        old(self)@.writer,
                        doc,
                        ratios.deep_view(),
                        times.deep_view(),
                        writing_ctx(old(self)@),
                    );
                    output_result(r) == o && final(self)@ == (ConversionView {
                        notes: if o is Ok {
                            with_all_new(old(self)@.notes, ctx.notes)
                        } else {
                            old(self)@.notes
                        },
                        ..old(self)@
                    })
                },
            },
    {
        let mut ctx = self.target.ctx();
        let output = match &self.document {
            Some(doc) => match write_as(self.writer, doc, ratios, times, &mut ctx) {
                Ok(output) => output,
                Err(e) => {
                    return Err(e);
                },
            },
            None => {
                return Err(Error::config("no input file given"));
            },
        };
        self.warnings.absorb(ctx.into_warnings());
        Ok(output)
    }

    pub fn warnings(&self) -> (r: &Warnings)
        ensures
            r@ == self@.notes,
    {
        &self.warnings
    }

    /// Whether the conversion failed after all: in strict mode any loss is a
    /// failure.
    pub fn conclude(&self, strict: bool) -> (r: Result<(), Error>)
        ensures
            if strict && self@.notes.len() > 0 {
                r is Err && r->Err_0.deep_view() == (ErrorView::Strict {
                    count: self@.notes.len(),
                })
            } else {
                r is Ok
            },
    {
        if strict && !self.warnings.is_empty() {
            Err(Error::Strict { count: self.warnings.len() })
        } else {
            Ok(())
        }
    }
}

// ---------------------------------------------------------------------------
// Laws
// ---------------------------------------------------------------------------

proof fn detected_formats_have_a_category(head: Seq<char>, origin: Seq<char>)
    ensures
        match detected(head, origin) {
            Ok(spec) => spec.categories.len() > 0,
            Err(_) => true,
        },
{
    if let SniffedView::Known(id) = sniffed(head) {
        found_formats_have_a_category(id);
    }
}

/// A format is never converted into a format of another category.
pub proof fn conversion_stays_within_a_category(
    plan: ConversionView,
    bytes: Seq<u8>,
    source: Seq<char>,
)
    ensures
        match origin_of(plan, bytes, source) {
            Ok((origin, reader)) => origin.spec.shared_category(plan.target.spec) is Some
                && origin.spec.read == Some(reader),
            Err(_) => true,
        },
{
}

proof fn origins_are_supported(plan: ConversionView, bytes: Seq<u8>, source: Seq<char>)
    ensures
        match origin_of(plan, bytes, source) {
            Ok((origin, _)) => supported(origin.spec),
            Err(_) => true,
        },
{
    let head = text_in(sniffed_bytes(bytes));
    if let SniffedView::Known(id) = sniffed(head) {
        found_formats_are_supported(id);
    }
    resolved_formats_are_supported(plan.input_format);
}

proof fn readers_keep_to_their_kind(reader: ReadFn, input: InputView, ctx: CtxView)
    ensures
        match reading(reader, input, ctx).0 {
            Ok(doc) => kind_of(doc) == reader_kind(reader),
            Err(_) => true,
        },
{
}

proof fn writers_take_their_kind(
    writer: WriteFn,
    doc: DocView,
    ratios: Seq<RatioView>,
    times: TimesView,
    ctx: CtxView,
)
    requires
        kind_of(doc) == writer_kind(writer),
    ensures
        writing(writer, doc, ratios, times, ctx).0 is Ok,
{
}

/// Whether what was taken in so far is what the target's writer takes.
pub open spec fn coherent(plan: ConversionView) -> bool {
    &&& supported(plan.target.spec)
    &&& plan.target.spec.write == Some(plan.writer)
    &&& match plan.document {
        Some(doc) => kind_of(doc) == writer_kind(plan.writer),
        None => true,
    }
}

/// Every conversion that can be planned is coherent.
pub proof fn plans_are_coherent(
    output: Option<Seq<char>>,
    input_format: Seq<char>,
    source_root: Option<Seq<char>>,
    strip_prefixes: Seq<Seq<char>>,
)
    ensures
        match planned(output, input_format, source_root, strip_prefixes) {
            Ok(plan) => coherent(plan),
            Err(_) => true,
        },
{
    if let Some(text) = output {
        resolved_formats_are_supported(text);
    }
}

/// Whatever can be read of the same category can be converted: an input that is
/// not refused and that its reader takes is taken in, whatever was read before
/// it, and the conversion stays coherent.
pub proof fn readable_inputs_are_taken_in(
    plan: ConversionView,
    bytes: Seq<u8>,
    source: Seq<char>,
    input: InputView,
)
    requires
        coherent(plan),
    ensures
        match origin_of(plan, bytes, source) {
            Ok((origin, reader)) => match reading(reader, input, reading_ctx(plan, origin)).0 {
                Ok(_) => match input_read(plan, origin, reader, input) {
                    Ok(next) => coherent(next) && next.document is Some,
                    Err(_) => false,
                },
                Err(e) => input_read(plan, origin, reader, input) == Err::<
                    ConversionView,
                    ErrorView,
                >(e),
            },
            Err(_) => true,
        },
{
    if let Ok((origin, reader)) = origin_of(plan, bytes, source) {
        origins_are_supported(plan, bytes, source);
        shared_categories_fit(origin.spec, plan.target.spec);
        readers_keep_to_their_kind(reader, input, reading_ctx(plan, origin));
        if let (Ok(doc), Some(known)) = (
            reading(reader, input, reading_ctx(plan, origin)).0,
            plan.document,
        ) {
            merging_stays_within_a_kind(known, doc);
        }
    }
}

/// A conversion that has taken something in is written out: no writer refuses
/// what the readers of its category give.
pub proof fn coherent_conversions_are_written(
    plan: ConversionView,
    ratios: Seq<RatioView>,
    times: TimesView,
)
    requires
        coherent(plan),
        plan.document is Some,
    ensures
        match settled(plan) {
            Ok(next) => coherent(next) && next.document is Some && writing(
                next.writer,
                next.document->0,
                ratios,
                times,
                writing_ctx(next),
            ).0 is Ok,
            Err(_) => false,
        },
{
    let doc = in_order(normalized(plan.document->0, plan.mapper));
    writers_take_their_kind(plan.writer, doc, ratios, times, writing_ctx(plan));
}

/// The notices of every step are kept, whatever comes later.
pub proof fn notices_are_never_lost(plan: ConversionView, doc: DocView, notes: Seq<NoteView>)
    ensures
        match taken_in(plan, doc, notes) {
            Ok(next) => forall|n: NoteView| #[trigger]
                next.notes.contains(n) <==> plan.notes.contains(n) || notes.contains(n),
            Err(_) => true,
        },
{
    absorb_keeps_every_notice(plan.notes, notes);
}

} // verus!
