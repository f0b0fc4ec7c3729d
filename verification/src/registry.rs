//! The format registry: the single place where a format id becomes a reader
//! and/or a writer.

use vstd::prelude::*;

use crate::error::{Error, ErrorView};
use crate::model::coverage::{self, CoverageDoc, CoverageDocView};
use crate::model::findings::{self, FindingsDoc, FindingsDocView};
use crate::model::sbom::{self, SbomDoc, SbomDocView};
use crate::model::tests::{self, TestReport, TestReportView};
use crate::paths::{MapperView, PathMapper};
use crate::text::{
    concat3, concat5, contains_char, cut, first_props, is_white, join, joined, lower, owned,
    same_ignoring_case, split_once, split_once_at, trim, trimmed,
};
use crate::value::{append_one, empty_list};
use crate::warn::{CtxView, FormatCtx, NoteKind};

verus! {

/// Report categories. Conversion is only ever defined within a category.
#[derive(Debug, Clone, Copy, PartialEq, Eq, Structural)]
pub enum Category {
    Coverage,
    Tests,
    Quality,
    Security,
    Sbom,
    Accessibility,
    Performance,
}

impl DeepView for Category {
    type V = Category;

    open spec fn deep_view(&self) -> Category {
        *self
    }
}

pub open spec fn category_name(category: Category) -> Seq<char> {
    match category {
        Category::Coverage => "coverage"@,
        Category::Tests => "tests"@,
        Category::Quality => "quality"@,
        Category::Security => "security"@,
        Category::Sbom => "sbom"@,
        Category::Accessibility => "accessibility"@,
        Category::Performance => "performance"@,
    }
}

impl Category {
    /// Every category, in listing order.
    pub fn all() -> (r: Vec<Category>)
        ensures
            r@ == seq![
                Category::Coverage,
                Category::Tests,
                Category::Quality,
                Category::Security,
                Category::Sbom,
                Category::Accessibility,
                Category::Performance,
            ],
    {
        vec![
            Category::Coverage,
            Category::Tests,
            Category::Quality,
            Category::Security,
            Category::Sbom,
            Category::Accessibility,
            Category::Performance,
        ]
    }

    pub fn as_str(self) -> (r: &'static str)
        ensures
            r@ == category_name(self),
    {
        match self {
            Category::Coverage => "coverage",
            Category::Tests => "tests",
            Category::Quality => "quality",
            Category::Security => "security",
            Category::Sbom => "sbom",
            Category::Accessibility => "accessibility",
            Category::Performance => "performance",
        }
    }
}

// ---------------------------------------------------------------------------
// Documents
// ---------------------------------------------------------------------------

/// A parsed report, in pivot form.
#[derive(Debug)]
pub enum Doc {
    Coverage(CoverageDoc),
    Tests(TestReport),
    Findings(FindingsDoc),
    Sbom(Box<SbomDoc>),
}

/// The content of a [`Doc`].
pub enum DocView {
    Coverage(CoverageDocView),
    Tests(TestReportView),
    Findings(FindingsDocView),
    Sbom(SbomDocView),
}

impl DeepView for Doc {
    type V = DocView;

    open spec fn deep_view(&self) -> DocView {
        match *self {
            Doc::Coverage(doc) => DocView::Coverage(doc.deep_view()),
            Doc::Tests(doc) => DocView::Tests(doc.deep_view()),
            Doc::Findings(doc) => DocView::Findings(doc.deep_view()),
            Doc::Sbom(doc) => DocView::Sbom(doc.deep_view()),
        }
    }
}

/// What a reader gives back.
pub open spec fn read_result(r: Result<Doc, Error>) -> Result<DocView, ErrorView> {
    match r {
        Ok(doc) => Ok(doc.deep_view()),
        Err(e) => Err(e.deep_view()),
    }
}

/// The two documents as one, where they are of the same kind.
pub open spec fn merged(mine: DocView, theirs: DocView) -> Option<DocView> {
    match (mine, theirs) {
        (DocView::Coverage(a), DocView::Coverage(b)) => Some(
            DocView::Coverage(coverage::merge_docs(a, b)),
        ),
        (DocView::Tests(a), DocView::Tests(b)) => Some(DocView::Tests(tests::merge_reports(a, b))),
        (DocView::Findings(a), DocView::Findings(b)) => Some(
            DocView::Findings(findings::merge_docs(a, b)),
        ),
        (DocView::Sbom(a), DocView::Sbom(b)) => Some(DocView::Sbom(sbom::merge_docs(a, b))),
        _ => None,
    }
}

pub open spec fn normalized(doc: DocView, mapper: MapperView) -> DocView {
    match doc {
        DocView::Coverage(d) => DocView::Coverage(coverage::normalize_doc(d, mapper)),
        DocView::Tests(d) => DocView::Tests(tests::normalize_report(d, mapper)),
        DocView::Findings(d) => DocView::Findings(findings::normalize_doc(d, mapper)),
        DocView::Sbom(d) => DocView::Sbom(sbom::normalize_doc(d, mapper)),
    }
}

/// Test suites keep their execution order on purpose.
pub open spec fn in_order(doc: DocView) -> DocView {
    match doc {
        DocView::Coverage(d) => DocView::Coverage(coverage::sort_doc(d)),
        DocView::Tests(d) => DocView::Tests(d),
        DocView::Findings(d) => DocView::Findings(findings::sort_doc(d)),
        DocView::Sbom(d) => DocView::Sbom(sbom::sort_doc(d)),
    }
}

pub open spec fn wrong_kind(message: Seq<char>) -> ErrorView {
    ErrorView::Config(message)
}

impl Doc {
    pub fn as_coverage(&self) -> (r: Result<&CoverageDoc, Error>)
        ensures
            match r {
                Ok(doc) => self.deep_view() == DocView::Coverage(doc.deep_view()),
                Err(e) => !(self.deep_view() is Coverage) && e.deep_view() == wrong_kind(
                    "expected a coverage report"@,
                ),
            },
    {
        match self {
            Doc::Coverage(doc) => Ok(doc),
            _ => Err(Error::config("expected a coverage report")),
        }
    }

    pub fn as_tests(&self) -> (r: Result<&TestReport, Error>)
        ensures
            match r {
                Ok(doc) => self.deep_view() == DocView::Tests(doc.deep_view()),
                Err(e) => !(self.deep_view() is Tests) && e.deep_view() == wrong_kind(
                    "expected a test report"@,
                ),
            },
    {
        match self {
            Doc::Tests(doc) => Ok(doc),
            _ => Err(Error::config("expected a test report")),
        }
    }

    pub fn as_findings(&self) -> (r: Result<&FindingsDoc, Error>)
        ensures
            match r {
                Ok(doc) => self.deep_view() == DocView::Findings(doc.deep_view()),
                Err(e) => !(self.deep_view() is Findings) && e.deep_view() == wrong_kind(
                    "expected a findings report"@,
                ),
            },
    {
        match self {
            Doc::Findings(doc) => Ok(doc),
            _ => Err(Error::config("expected a findings report")),
        }
    }

    pub fn as_sbom(&self) -> (r: Result<&SbomDoc, Error>)
        ensures
            match r {
                Ok(doc) => self.deep_view() == DocView::Sbom(doc.deep_view()),
                Err(e) => !(self.deep_view() is Sbom) && e.deep_view() == wrong_kind(
                    "expected a bill of materials"@,
                ),
            },
    {
        match self {
            Doc::Sbom(doc) => Ok(doc),
            _ => Err(Error::config("expected a bill of materials")),
        }
    }

    /// Folds a second input into this one.
    pub fn merge(&mut self, other: Doc) -> (r: Result<(), Error>)
        ensures
            match merged(old(self).deep_view(), other.deep_view()) {
                Some(doc) => r is Ok && final(self).deep_view() == doc,
                None => r is Err && r->Err_0.deep_view() == ErrorView::Config(
                    "cannot merge inputs of different report categories"@,
                ) && final(self).deep_view() == old(self).deep_view(),
            },
    {
        match (self, other) {
            (Doc::Coverage(a), Doc::Coverage(b)) => {
                a.merge(b);
                Ok(())
            },
            (Doc::Tests(a), Doc::Tests(b)) => {
                a.merge(b);
                Ok(())
            },
            (Doc::Findings(a), Doc::Findings(b)) => {
                a.merge(b);
                Ok(())
            },
            (Doc::Sbom(a), Doc::Sbom(b)) => {
                a.merge(*b);
                Ok(())
            },
            _ => Err(Error::config("cannot merge inputs of different report categories")),
        }
    }

    pub fn normalize_paths(&mut self, mapper: &PathMapper)
        ensures
            final(self).deep_view() == normalized(old(self).deep_view(), mapper@),
    {
        match self {
            Doc::Coverage(doc) => doc.normalize_paths(mapper),
            Doc::Tests(doc) => doc.normalize_paths(mapper),
            Doc::Findings(doc) => doc.normalize_paths(mapper),
            Doc::Sbom(doc) => doc.normalize_paths(mapper),
        }
    }

    /// Canonical ordering, so that converting the same input twice yields
    /// byte-identical output.
    pub fn sort(&mut self)
        ensures
            final(self).deep_view() == in_order(old(self).deep_view()),
    {
        match self {
            Doc::Coverage(doc) => doc.sort(),
            Doc::Findings(doc) => doc.sort(),
            Doc::Sbom(doc) => doc.sort(),
            Doc::Tests(_) => {},
        }
    }
}

/// Two documents merge exactly when they are of the same kind.
pub proof fn merging_stays_within_a_kind(mine: DocView, theirs: DocView)
    ensures
        merged(mine, theirs) is Some <==> {
            ||| (mine is Coverage && theirs is Coverage)
            ||| (mine is Tests && theirs is Tests)
            ||| (mine is Findings && theirs is Findings)
            ||| (mine is Sbom && theirs is Sbom)
        },
{
}

// ---------------------------------------------------------------------------
// Formats
// ---------------------------------------------------------------------------

/// The readers, one for each module of `formats` that reads.
#[derive(Debug, Clone, Copy, PartialEq, Eq, Structural)]
pub enum ReadFn {
    Lcov,
    Clover,
    Cobertura,
    GoCover,
    Istanbul,
    Jacoco,
    Junit,
    GoTest,
    Tap,
    Trx,
    Checkstyle,
    Eslint,
    Sarif,
    CodeClimate,
    Trivy,
}

/// The writers, one for each function of `formats` that writes.
#[derive(Debug, Clone, Copy, PartialEq, Eq, Structural)]
pub enum WriteFn {
    Lcov,
    Clover,
    Cobertura,
    Jacoco,
    Junit,
    Sarif,
    CodeClimate,
    CodeClimateGitlab,
    GitlabSast,
}

impl DeepView for ReadFn {
    type V = ReadFn;

    open spec fn deep_view(&self) -> ReadFn {
        *self
    }
}

impl DeepView for WriteFn {
    type V = WriteFn;

    open spec fn deep_view(&self) -> WriteFn {
        *self
    }
}

impl DeepView for NoteKind {
    type V = NoteKind;

    open spec fn deep_view(&self) -> NoteKind {
        *self
    }
}

/// Separator between a format id and a spec version: `sarif@2.1.0`.
pub const VERSION_SEPARATOR: char = '@';

#[derive(Debug)]
pub struct FormatSpec {
    pub id: &'static str,
    pub aliases: Vec<&'static str>,
    /// Every category this format belongs to, most representative first.
    pub categories: Vec<Category>,
    pub description: &'static str,
    /// Known notices raised when writing this format.
    pub write_notes: Vec<(NoteKind, &'static str)>,
    /// Spec versions this format understands, oldest first. Empty means the
    /// format is not versioned.
    pub versions: Vec<&'static str>,
    /// Version targeted when none is requested.
    pub default_version: Option<&'static str>,
    pub read: Option<ReadFn>,
    pub write: Option<WriteFn>,
}

/// The content of a [`FormatSpec`].
pub struct FormatSpecView {
    pub id: Seq<char>,
    pub aliases: Seq<Seq<char>>,
    pub categories: Seq<Category>,
    pub description: Seq<char>,
    pub write_notes: Seq<(NoteKind, Seq<char>)>,
    pub versions: Seq<Seq<char>>,
    pub default_version: Option<Seq<char>>,
    pub read: Option<ReadFn>,
    pub write: Option<WriteFn>,
}

impl DeepView for FormatSpec {
    type V = FormatSpecView;

    open spec fn deep_view(&self) -> FormatSpecView {
        FormatSpecView {
            id: self.id@,
            aliases: self.aliases.deep_view(),
            categories: self.categories.deep_view(),
            description: self.description@,
            write_notes: self.write_notes.deep_view(),
            versions: self.versions.deep_view(),
            default_version: self.default_version.deep_view(),
            read: self.read,
            write: self.write,
        }
    }
}

impl FormatSpecView {
    pub open spec fn is_in(self, category: Category) -> bool {
        self.categories.contains(category)
    }

    /// The first category of this format that the other has too.
    pub open spec fn shared_category(self, other: FormatSpecView) -> Option<Category> {
        first_shared(self.categories, other.categories)
    }

    /// Whether `id` is this format's id or an alias, ASCII case aside.
    pub open spec fn matches(self, id: Seq<char>) -> bool {
        lower(self.id) == lower(id) || exists|i: int|
            0 <= i < self.aliases.len() && lower(#[trigger] self.aliases[i]) == lower(id)
    }
}

pub open spec fn first_shared(mine: Seq<Category>, theirs: Seq<Category>) -> Option<Category>
    decreases mine.len(),
{
    if mine.len() == 0 {
        None
    } else if theirs.contains(mine[0]) {
        Some(mine[0])
    } else {
        first_shared(mine.skip(1), theirs)
    }
}

fn has_category(categories: &Vec<Category>, category: Category) -> (r: bool)
    ensures
        r == categories.deep_view().contains(category),
{
    let ghost all = categories.deep_view();
    let mut i: usize = 0;
    while i < categories.len()
        invariant
            i <= categories@.len(),
            all == categories.deep_view(),
            forall|j: int| 0 <= j < i ==> all[j] != category,
        decreases categories@.len() - i,
    {
        if categories[i] == category {
            assert(all[i as int] == category);
            return true;
        }
        i = i + 1;
    }
    false
}

impl FormatSpec {
    /// The category a format is listed under first; used in messages.
    pub fn primary_category(&self) -> (r: Category)
        requires
            self.deep_view().categories.len() > 0,
        ensures
            r == self.deep_view().categories[0],
    {
        self.categories[0]
    }

    pub fn is_in(&self, category: Category) -> (r: bool)
        ensures
            r == self.deep_view().is_in(category),
    {
        has_category(&self.categories, category)
    }

    /// The category two formats have in common, if any. `None` means the
    /// conversion is undefined, not merely lossy.
    pub fn shared_category(&self, other: &FormatSpec) -> (r: Option<Category>)
        ensures
            r == self.deep_view().shared_category(other.deep_view()),
    {
        let ghost all = self.categories.deep_view();
        let mut i: usize = 0;
        assert(all.skip(0) =~= all);
        while i < self.categories.len()
            invariant
                i <= self.categories@.len(),
                all == self.categories.deep_view(),
                self.deep_view().shared_category(other.deep_view()) == first_shared(
                    all.skip(i as int),
                    other.deep_view().categories,
                ),
            decreases self.categories@.len() - i,
        {
            assert(all.skip(i as int)[0] == all[i as int]);
            assert(all.skip(i as int).skip(1) =~= all.skip(i as int + 1));
            if has_category(&other.categories, self.categories[i]) {
                return Some(self.categories[i]);
            }
            i = i + 1;
        }
        None
    }

    pub fn matches(&self, id: &str) -> (r: bool)
        ensures
            r == self.deep_view().matches(id@),
    {
        if same_ignoring_case(self.id, id) {
            return true;
        }
        let ghost all = self.aliases.deep_view();
        let mut i: usize = 0;
        while i < self.aliases.len()
            invariant
                i <= self.aliases@.len(),
                all == self.aliases.deep_view(),
                forall|j: int| 0 <= j < i ==> lower(#[trigger] all[j]) != lower(id@),
            decreases self.aliases@.len() - i,
        {
            if same_ignoring_case(self.aliases[i], id) {
                assert(lower(self.deep_view().aliases[i as int]) == lower(id@));
                return true;
            }
            i = i + 1;
        }
        false
    }

    pub fn reader(&self) -> (r: Result<ReadFn, Error>)
        ensures
            match self.deep_view().read {
                Some(f) => r == Ok::<ReadFn, Error>(f),
                None => r is Err && r->Err_0.deep_view() == ErrorView::Config(
                    "format '"@ + self.id@ + "' cannot be read (it is write-only)"@,
                ),
            },
    {
        match self.read {
            Some(f) => Ok(f),
            None => Err(
                Error::config(
                    concat3("format '", self.id, "' cannot be read (it is write-only)").as_str(),
                ),
            ),
        }
    }

    pub fn writer(&self) -> (r: Result<WriteFn, Error>)
        ensures
            match self.deep_view().write {
                Some(f) => r == Ok::<WriteFn, Error>(f),
                None => r is Err && r->Err_0.deep_view() == ErrorView::Config(
                    "format '"@ + self.id@ + "' cannot be written (it is read-only)"@,
                ),
            },
    {
        match self.write {
            Some(f) => Ok(f),
            None => Err(
                Error::config(
                    concat3("format '", self.id, "' cannot be written (it is read-only)").as_str(),
                ),
            ),
        }
    }
}

pub open spec fn lcov_entry() -> FormatSpecView {
    FormatSpecView {
        id: "lcov"@,
        aliases: seq!["lcov-info"@],
        categories: seq![Category::Coverage],
        description: "LCOV tracefile (gcov, nyc/istanbul, cargo-llvm-cov, tarpaulin)"@,
        write_notes: seq![(NoteKind::Degraded, "branch block/index identity is synthesized"@), (NoteKind::Lossy, "JaCoCo instruction/complexity/method counters are dropped"@)],
        versions: Seq::empty(),
        default_version: None,
        read: Some(ReadFn::Lcov),
        write: Some(WriteFn::Lcov),
    }
}

pub open spec fn clover_entry() -> FormatSpecView {
    FormatSpecView {
        id: "clover"@,
        aliases: Seq::empty(),
        categories: seq![Category::Coverage],
        description: "Clover XML (PHPUnit --coverage-clover, Jest's clover reporter)"@,
        write_notes: seq![(NoteKind::Degraded, "a conditional line has exactly two outcomes; branches beyond the second are folded into them"@), (NoteKind::Lossy, "JaCoCo instruction/complexity/method counters are dropped"@)],
        versions: Seq::empty(),
        default_version: None,
        read: Some(ReadFn::Clover),
        write: Some(WriteFn::Clover),
    }
}

pub open spec fn cobertura_entry() -> FormatSpecView {
    FormatSpecView {
        id: "cobertura"@,
        aliases: seq!["coverage.py"@],
        categories: seq![Category::Coverage],
        description: "Cobertura XML — the coverage format GitLab CI ingests"@,
        write_notes: seq![(NoteKind::Lossy, "JaCoCo instruction/complexity/method counters are dropped"@)],
        versions: Seq::empty(),
        default_version: None,
        read: Some(ReadFn::Cobertura),
        write: Some(WriteFn::Cobertura),
    }
}

pub open spec fn go_coverprofile_entry() -> FormatSpecView {
    FormatSpecView {
        id: "go-coverprofile"@,
        aliases: seq!["gocover"@, "gocoverprofile"@],
        categories: seq![Category::Coverage],
        description: "Go coverage profile (`go test -coverprofile`)"@,
        write_notes: Seq::empty(),
        versions: Seq::empty(),
        default_version: None,
        read: Some(ReadFn::GoCover),
        write: None,
    }
}

pub open spec fn istanbul_entry() -> FormatSpecView {
    FormatSpecView {
        id: "istanbul"@,
        aliases: seq!["coverage-final"@, "nyc"@],
        categories: seq![Category::Coverage],
        description: "Istanbul JSON coverage map (nyc, Jest's json reporter)"@,
        write_notes: Seq::empty(),
        versions: Seq::empty(),
        default_version: None,
        read: Some(ReadFn::Istanbul),
        write: None,
    }
}

pub open spec fn jacoco_entry() -> FormatSpecView {
    FormatSpecView {
        id: "jacoco"@,
        aliases: Seq::empty(),
        categories: seq![Category::Coverage],
        description: "JaCoCo XML report"@,
        write_notes: seq![(NoteKind::Degraded, "hit counts are flattened to covered/not-covered (JaCoCo has no hit counter)"@), (NoteKind::Degraded, "instruction counters are approximated when the source has none"@)],
        versions: Seq::empty(),
        default_version: None,
        read: Some(ReadFn::Jacoco),
        write: Some(WriteFn::Jacoco),
    }
}

pub open spec fn junit_entry() -> FormatSpecView {
    FormatSpecView {
        id: "junit"@,
        aliases: seq!["junit-xml"@, "surefire"@],
        categories: seq![Category::Tests],
        description: "JUnit XML (tolerant reader covering the usual dialects)"@,
        write_notes: Seq::empty(),
        versions: Seq::empty(),
        default_version: None,
        read: Some(ReadFn::Junit),
        write: Some(WriteFn::Junit),
    }
}

pub open spec fn go_test_json_entry() -> FormatSpecView {
    FormatSpecView {
        id: "go-test-json"@,
        aliases: seq!["gotest"@, "gotestjson"@],
        categories: seq![Category::Tests],
        description: "`go test -json` event stream (NDJSON)"@,
        write_notes: Seq::empty(),
        versions: Seq::empty(),
        default_version: None,
        read: Some(ReadFn::GoTest),
        write: None,
    }
}

pub open spec fn tap_entry() -> FormatSpecView {
    FormatSpecView {
        id: "tap"@,
        aliases: seq!["tap13"@, "tap14"@],
        categories: seq![Category::Tests],
        description: "TAP — Test Anything Protocol 12/13/14"@,
        write_notes: Seq::empty(),
        versions: Seq::empty(),
        default_version: None,
        read: Some(ReadFn::Tap),
        write: None,
    }
}

pub open spec fn trx_entry() -> FormatSpecView {
    FormatSpecView {
        id: "trx"@,
        aliases: seq!["mstest"@, "vstest"@],
        categories: seq![Category::Tests],
        description: "TRX — Visual Studio test results (`dotnet test`)"@,
        write_notes: Seq::empty(),
        versions: Seq::empty(),
        default_version: None,
        read: Some(ReadFn::Trx),
        write: None,
    }
}

pub open spec fn checkstyle_entry() -> FormatSpecView {
    FormatSpecView {
        id: "checkstyle"@,
        aliases: Seq::empty(),
        categories: seq![Category::Quality],
        description: "Checkstyle XML (ESLint, PHP_CodeSniffer, golangci-lint, ktlint…)"@,
        write_notes: Seq::empty(),
        versions: Seq::empty(),
        default_version: None,
        read: Some(ReadFn::Checkstyle),
        write: None,
    }
}

pub open spec fn eslint_entry() -> FormatSpecView {
    FormatSpecView {
        id: "eslint"@,
        aliases: seq!["eslint-json"@],
        categories: seq![Category::Quality],
        description: "ESLint json formatter output"@,
        write_notes: Seq::empty(),
        versions: Seq::empty(),
        default_version: None,
        read: Some(ReadFn::Eslint),
        write: None,
    }
}

pub open spec fn sarif_entry() -> FormatSpecView {
    FormatSpecView {
        id: "sarif"@,
        aliases: seq!["sarif-json"@],
        categories: seq![Category::Quality, Category::Security],
        description: "SARIF 2.1.0 (semgrep, CodeQL, gosec, bandit, Checkov…)"@,
        write_notes: seq![(NoteKind::Degraded, "rule metadata is rebuilt by deduplicating findings on their rule id; the first one seen defines the rule"@), (NoteKind::Degraded, "critical and blocker collapse to level \"error\" unless the finding carries a security identifier"@), (NoteKind::Lossy, "identifiers other than CWE survive only as rule tags"@)],
        versions: seq!["2.1.0"@],
        default_version: Some("2.1.0"@),
        read: Some(ReadFn::Sarif),
        write: Some(WriteFn::Sarif),
    }
}

pub open spec fn codeclimate_entry() -> FormatSpecView {
    FormatSpecView {
        id: "codeclimate"@,
        aliases: seq!["code-climate"@],
        categories: seq![Category::Quality],
        description: "Code Climate issue JSON (full specification)"@,
        write_notes: seq![(NoteKind::Lossy, "SARIF rule metadata and code flows are not represented"@)],
        versions: Seq::empty(),
        default_version: None,
        read: Some(ReadFn::CodeClimate),
        write: Some(WriteFn::CodeClimate),
    }
}

pub open spec fn codeclimate_gitlab_entry() -> FormatSpecView {
    FormatSpecView {
        id: "codeclimate-gitlab"@,
        aliases: seq!["gitlab-codequality"@, "codequality"@],
        categories: seq![Category::Quality],
        description: "Code Climate JSON, GitLab Code Quality subset"@,
        write_notes: seq![(NoteKind::Lossy, "only description, check_name, fingerprint, severity and the begin location are kept"@)],
        versions: Seq::empty(),
        default_version: None,
        read: Some(ReadFn::CodeClimate),
        write: Some(WriteFn::CodeClimateGitlab),
    }
}

pub open spec fn trivy_json_entry() -> FormatSpecView {
    FormatSpecView {
        id: "trivy-json"@,
        aliases: seq!["trivy"@],
        categories: seq![Category::Security],
        description: "Trivy JSON — dependencies, images, IaC and secrets in one report"@,
        write_notes: Seq::empty(),
        versions: seq!["2"@],
        default_version: Some("2"@),
        read: Some(ReadFn::Trivy),
        write: None,
    }
}

pub open spec fn gitlab_sast_entry() -> FormatSpecView {
    FormatSpecView {
        id: "gitlab-sast"@,
        aliases: seq!["gitlab-security"@],
        categories: seq![Category::Security],
        description: "GitLab SAST security report — feeds the security dashboard"@,
        write_notes: seq![(NoteKind::Degraded, "the schema requires a scan window; a source without one gets a fixed epoch so the output stays reproducible"@), (NoteKind::Lossy, "findings with neither an identifier nor a rule id are dropped (the schema requires at least one identifier)"@), (NoteKind::Lossy, "issue categories have no field in the security report"@)],
        versions: seq!["15.2.5"@],
        default_version: Some("15.2.5"@),
        read: None,
        write: Some(WriteFn::GitlabSast),
    }
}

pub open spec fn format_table() -> Seq<FormatSpecView> {
    seq![
        lcov_entry(),
        clover_entry(),
        cobertura_entry(),
        go_coverprofile_entry(),
        istanbul_entry(),
        jacoco_entry(),
        junit_entry(),
        go_test_json_entry(),
        tap_entry(),
        trx_entry(),
        checkstyle_entry(),
        eslint_entry(),
        sarif_entry(),
        codeclimate_entry(),
        codeclimate_gitlab_entry(),
        trivy_json_entry(),
        gitlab_sast_entry(),
    ]
}

fn lcov_format() -> (r: FormatSpec)
    ensures
        r.deep_view() == lcov_entry(),
{
    let r = FormatSpec {
        id: "lcov",
        aliases: vec!["lcov-info"],
        categories: vec![Category::Coverage],
        description: "LCOV tracefile (gcov, nyc/istanbul, cargo-llvm-cov, tarpaulin)",
        write_notes: vec![(NoteKind::Degraded, "branch block/index identity is synthesized"), (NoteKind::Lossy, "JaCoCo instruction/complexity/method counters are dropped")],
        versions: vec![],
        default_version: None,
        read: Some(ReadFn::Lcov),
        write: Some(WriteFn::Lcov),
    };
    proof {
        assert(r.deep_view().aliases =~= lcov_entry().aliases);
        assert(r.deep_view().categories =~= lcov_entry().categories);
        assert(r.deep_view().write_notes =~= lcov_entry().write_notes);
        assert(r.deep_view().versions =~= lcov_entry().versions);
    }
    r
}

fn clover_format() -> (r: FormatSpec)
    ensures
        r.deep_view() == clover_entry(),
{
    let r = FormatSpec {
        id: "clover",
        aliases: vec![],
        categories: vec![Category::Coverage],
        description: "Clover XML (PHPUnit --coverage-clover, Jest's clover reporter)",
        write_notes: vec![(NoteKind::Degraded, "a conditional line has exactly two outcomes; branches beyond the second are folded into them"), (NoteKind::Lossy, "JaCoCo instruction/complexity/method counters are dropped")],
        versions: vec![],
        default_version: None,
        read: Some(ReadFn::Clover),
        write: Some(WriteFn::Clover),
    };
    proof {
        assert(r.deep_view().aliases =~= clover_entry().aliases);
        assert(r.deep_view().categories =~= clover_entry().categories);
        assert(r.deep_view().write_notes =~= clover_entry().write_notes);
        assert(r.deep_view().versions =~= clover_entry().versions);
    }
    r
}

fn cobertura_format() -> (r: FormatSpec)
    ensures
        r.deep_view() == cobertura_entry(),
{
    let r = FormatSpec {
        id: "cobertura",
        aliases: vec!["coverage.py"],
        categories: vec![Category::Coverage],
        description: "Cobertura XML — the coverage format GitLab CI ingests",
        write_notes: vec![(NoteKind::Lossy, "JaCoCo instruction/complexity/method counters are dropped")],
        versions: vec![],
        default_version: None,
        read: Some(ReadFn::Cobertura),
        write: Some(WriteFn::Cobertura),
    };
    proof {
        assert(r.deep_view().aliases =~= cobertura_entry().aliases);
        assert(r.deep_view().categories =~= cobertura_entry().categories);
        assert(r.deep_view().write_notes =~= cobertura_entry().write_notes);
        assert(r.deep_view().versions =~= cobertura_entry().versions);
    }
    r
}

fn go_coverprofile_format() -> (r: FormatSpec)
    ensures
        r.deep_view() == go_coverprofile_entry(),
{
    let r = FormatSpec {
        id: "go-coverprofile",
        aliases: vec!["gocover", "gocoverprofile"],
        categories: vec![Category::Coverage],
        description: "Go coverage profile (`go test -coverprofile`)",
        write_notes: vec![],
        versions: vec![],
        default_version: None,
        read: Some(ReadFn::GoCover),
        write: None,
    };
    proof {
        assert(r.deep_view().aliases =~= go_coverprofile_entry().aliases);
        assert(r.deep_view().categories =~= go_coverprofile_entry().categories);
        assert(r.deep_view().write_notes =~= go_coverprofile_entry().write_notes);
        assert(r.deep_view().versions =~= go_coverprofile_entry().versions);
    }
    r
}

fn istanbul_format() -> (r: FormatSpec)
    ensures
        r.deep_view() == istanbul_entry(),
{
    let r = FormatSpec {
        id: "istanbul",
        aliases: vec!["coverage-final", "nyc"],
        categories: vec![Category::Coverage],
        description: "Istanbul JSON coverage map (nyc, Jest's json reporter)",
        write_notes: vec![],
        versions: vec![],
        default_version: None,
        read: Some(ReadFn::Istanbul),
        write: None,
    };
    proof {
        assert(r.deep_view().aliases =~= istanbul_entry().aliases);
        assert(r.deep_view().categories =~= istanbul_entry().categories);
        assert(r.deep_view().write_notes =~= istanbul_entry().write_notes);
        assert(r.deep_view().versions =~= istanbul_entry().versions);
    }
    r
}

fn jacoco_format() -> (r: FormatSpec)
    ensures
        r.deep_view() == jacoco_entry(),
{
    let r = FormatSpec {
        id: "jacoco",
        aliases: vec![],
        categories: vec![Category::Coverage],
        description: "JaCoCo XML report",
        write_notes: vec![(NoteKind::Degraded, "hit counts are flattened to covered/not-covered (JaCoCo has no hit counter)"), (NoteKind::Degraded, "instruction counters are approximated when the source has none")],
        versions: vec![],
        default_version: None,
        read: Some(ReadFn::Jacoco),
        write: Some(WriteFn::Jacoco),
    };
    proof {
        assert(r.deep_view().aliases =~= jacoco_entry().aliases);
        assert(r.deep_view().categories =~= jacoco_entry().categories);
        assert(r.deep_view().write_notes =~= jacoco_entry().write_notes);
        assert(r.deep_view().versions =~= jacoco_entry().versions);
    }
    r
}

fn junit_format() -> (r: FormatSpec)
    ensures
        r.deep_view() == junit_entry(),
{
    let r = FormatSpec {
        id: "junit",
        aliases: vec!["junit-xml", "surefire"],
        categories: vec![Category::Tests],
        description: "JUnit XML (tolerant reader covering the usual dialects)",
        write_notes: vec![],
        versions: vec![],
        default_version: None,
        read: Some(ReadFn::Junit),
        write: Some(WriteFn::Junit),
    };
    proof {
        assert(r.deep_view().aliases =~= junit_entry().aliases);
        assert(r.deep_view().categories =~= junit_entry().categories);
        assert(r.deep_view().write_notes =~= junit_entry().write_notes);
        assert(r.deep_view().versions =~= junit_entry().versions);
    }
    r
}

fn go_test_json_format() -> (r: FormatSpec)
    ensures
        r.deep_view() == go_test_json_entry(),
{
    let r = FormatSpec {
        id: "go-test-json",
        aliases: vec!["gotest", "gotestjson"],
        categories: vec![Category::Tests],
        description: "`go test -json` event stream (NDJSON)",
        write_notes: vec![],
        versions: vec![],
        default_version: None,
        read: Some(ReadFn::GoTest),
        write: None,
    };
    proof {
        assert(r.deep_view().aliases =~= go_test_json_entry().aliases);
        assert(r.deep_view().categories =~= go_test_json_entry().categories);
        assert(r.deep_view().write_notes =~= go_test_json_entry().write_notes);
        assert(r.deep_view().versions =~= go_test_json_entry().versions);
    }
    r
}

fn tap_format() -> (r: FormatSpec)
    ensures
        r.deep_view() == tap_entry(),
{
    let r = FormatSpec {
        id: "tap",
        aliases: vec!["tap13", "tap14"],
        categories: vec![Category::Tests],
        description: "TAP — Test Anything Protocol 12/13/14",
        write_notes: vec![],
        versions: vec![],
        default_version: None,
        read: Some(ReadFn::Tap),
        write: None,
    };
    proof {
        assert(r.deep_view().aliases =~= tap_entry().aliases);
        assert(r.deep_view().categories =~= tap_entry().categories);
        assert(r.deep_view().write_notes =~= tap_entry().write_notes);
        assert(r.deep_view().versions =~= tap_entry().versions);
    }
    r
}

fn trx_format() -> (r: FormatSpec)
    ensures
        r.deep_view() == trx_entry(),
{
    let r = FormatSpec {
        id: "trx",
        aliases: vec!["mstest", "vstest"],
        categories: vec![Category::Tests],
        description: "TRX — Visual Studio test results (`dotnet test`)",
        write_notes: vec![],
        versions: vec![],
        default_version: None,
        read: Some(ReadFn::Trx),
        write: None,
    };
    proof {
        assert(r.deep_view().aliases =~= trx_entry().aliases);
        assert(r.deep_view().categories =~= trx_entry().categories);
        assert(r.deep_view().write_notes =~= trx_entry().write_notes);
        assert(r.deep_view().versions =~= trx_entry().versions);
    }
    r
}

fn checkstyle_format() -> (r: FormatSpec)
    ensures
        r.deep_view() == checkstyle_entry(),
{
    let r = FormatSpec {
        id: "checkstyle",
        aliases: vec![],
        categories: vec![Category::Quality],
        description: "Checkstyle XML (ESLint, PHP_CodeSniffer, golangci-lint, ktlint…)",
        write_notes: vec![],
        versions: vec![],
        default_version: None,
        read: Some(ReadFn::Checkstyle),
        write: None,
    };
    proof {
        assert(r.deep_view().aliases =~= checkstyle_entry().aliases);
        assert(r.deep_view().categories =~= checkstyle_entry().categories);
        assert(r.deep_view().write_notes =~= checkstyle_entry().write_notes);
        assert(r.deep_view().versions =~= checkstyle_entry().versions);
    }
    r
}

fn eslint_format() -> (r: FormatSpec)
    ensures
        r.deep_view() == eslint_entry(),
{
    let r = FormatSpec {
        id: "eslint",
        aliases: vec!["eslint-json"],
        categories: vec![Category::Quality],
        description: "ESLint json formatter output",
        write_notes: vec![],
        versions: vec![],
        default_version: None,
        read: Some(ReadFn::Eslint),
        write: None,
    };
    proof {
        assert(r.deep_view().aliases =~= eslint_entry().aliases);
        assert(r.deep_view().categories =~= eslint_entry().categories);
        assert(r.deep_view().write_notes =~= eslint_entry().write_notes);
        assert(r.deep_view().versions =~= eslint_entry().versions);
    }
    r
}

fn sarif_format() -> (r: FormatSpec)
    ensures
        r.deep_view() == sarif_entry(),
{
    let r = FormatSpec {
        id: "sarif",
        aliases: vec!["sarif-json"],
        categories: vec![Category::Quality, Category::Security],
        description: "SARIF 2.1.0 (semgrep, CodeQL, gosec, bandit, Checkov…)",
        write_notes: vec![(NoteKind::Degraded, "rule metadata is rebuilt by deduplicating findings on their rule id; the first one seen defines the rule"), (NoteKind::Degraded, "critical and blocker collapse to level \"error\" unless the finding carries a security identifier"), (NoteKind::Lossy, "identifiers other than CWE survive only as rule tags")],
        versions: vec!["2.1.0"],
        default_version: Some("2.1.0"),
        read: Some(ReadFn::Sarif),
        write: Some(WriteFn::Sarif),
    };
    proof {
        assert(r.deep_view().aliases =~= sarif_entry().aliases);
        assert(r.deep_view().categories =~= sarif_entry().categories);
        assert(r.deep_view().write_notes =~= sarif_entry().write_notes);
        assert(r.deep_view().versions =~= sarif_entry().versions);
    }
    r
}

fn codeclimate_format() -> (r: FormatSpec)
    ensures
        r.deep_view() == codeclimate_entry(),
{
    let r = FormatSpec {
        id: "codeclimate",
        aliases: vec!["code-climate"],
        categories: vec![Category::Quality],
        description: "Code Climate issue JSON (full specification)",
        write_notes: vec![(NoteKind::Lossy, "SARIF rule metadata and code flows are not represented")],
        versions: vec![],
        default_version: None,
        read: Some(ReadFn::CodeClimate),
        write: Some(WriteFn::CodeClimate),
    };
    proof {
        assert(r.deep_view().aliases =~= codeclimate_entry().aliases);
        assert(r.deep_view().categories =~= codeclimate_entry().categories);
        assert(r.deep_view().write_notes =~= codeclimate_entry().write_notes);
        assert(r.deep_view().versions =~= codeclimate_entry().versions);
    }
    r
}

fn codeclimate_gitlab_format() -> (r: FormatSpec)
    ensures
        r.deep_view() == codeclimate_gitlab_entry(),
{
    let r = FormatSpec {
        id: "codeclimate-gitlab",
        aliases: vec!["gitlab-codequality", "codequality"],
        categories: vec![Category::Quality],
        description: "Code Climate JSON, GitLab Code Quality subset",
        write_notes: vec![(NoteKind::Lossy, "only description, check_name, fingerprint, severity and the begin location are kept")],
        versions: vec![],
        default_version: None,
        read: Some(ReadFn::CodeClimate),
        write: Some(WriteFn::CodeClimateGitlab),
    };
    proof {
        assert(r.deep_view().aliases =~= codeclimate_gitlab_entry().aliases);
        assert(r.deep_view().categories =~= codeclimate_gitlab_entry().categories);
        assert(r.deep_view().write_notes =~= codeclimate_gitlab_entry().write_notes);
        assert(r.deep_view().versions =~= codeclimate_gitlab_entry().versions);
    }
    r
}

fn trivy_json_format() -> (r: FormatSpec)
    ensures
        r.deep_view() == trivy_json_entry(),
{
    let r = FormatSpec {
        id: "trivy-json",
        aliases: vec!["trivy"],
        categories: vec![Category::Security],
        description: "Trivy JSON — dependencies, images, IaC and secrets in one report",
        write_notes: vec![],
        versions: vec!["2"],
        default_version: Some("2"),
        read: Some(ReadFn::Trivy),
        write: None,
    };
    proof {
        assert(r.deep_view().aliases =~= trivy_json_entry().aliases);
        assert(r.deep_view().categories =~= trivy_json_entry().categories);
        assert(r.deep_view().write_notes =~= trivy_json_entry().write_notes);
        assert(r.deep_view().versions =~= trivy_json_entry().versions);
    }
    r
}

fn gitlab_sast_format() -> (r: FormatSpec)
    ensures
        r.deep_view() == gitlab_sast_entry(),
{
    let r = FormatSpec {
        id: "gitlab-sast",
        aliases: vec!["gitlab-security"],
        categories: vec![Category::Security],
        description: "GitLab SAST security report — feeds the security dashboard",
        write_notes: vec![(NoteKind::Degraded, "the schema requires a scan window; a source without one gets a fixed epoch so the output stays reproducible"), (NoteKind::Lossy, "findings with neither an identifier nor a rule id are dropped (the schema requires at least one identifier)"), (NoteKind::Lossy, "issue categories have no field in the security report")],
        versions: vec!["15.2.5"],
        default_version: Some("15.2.5"),
        read: None,
        write: Some(WriteFn::GitlabSast),
    };
    proof {
        assert(r.deep_view().aliases =~= gitlab_sast_entry().aliases);
        assert(r.deep_view().categories =~= gitlab_sast_entry().categories);
        assert(r.deep_view().write_notes =~= gitlab_sast_entry().write_notes);
        assert(r.deep_view().versions =~= gitlab_sast_entry().versions);
    }
    r
}

/// Every supported format. The order drives the listing.
pub fn formats() -> (r: Vec<FormatSpec>)
    ensures
        r.deep_view() == format_table(),
{
    let r: Vec<FormatSpec> = vec![
        lcov_format(),
        clover_format(),
        cobertura_format(),
        go_coverprofile_format(),
        istanbul_format(),
        jacoco_format(),
        junit_format(),
        go_test_json_format(),
        tap_format(),
        trx_format(),
        checkstyle_format(),
        eslint_format(),
        sarif_format(),
        codeclimate_format(),
        codeclimate_gitlab_format(),
        trivy_json_format(),
        gitlab_sast_format(),
    ];
    assert(r.deep_view() =~= format_table());
    r
}

// ---------------------------------------------------------------------------
// Selection
// ---------------------------------------------------------------------------

/// A format plus the spec version to use with it, as named on the command line.
#[derive(Debug)]
pub struct Selection {
    pub spec: FormatSpec,
    /// The version to target: the one requested, else the format's default,
    /// else `None` for an unversioned format.
    pub version: Option<&'static str>,
    /// Whether the version was requested, rather than being the default.
    pub explicit_version: bool,
}

/// The content of a [`Selection`].
pub struct SelectionView {
    pub spec: FormatSpecView,
    pub version: Option<Seq<char>>,
    pub explicit_version: bool,
}

impl DeepView for Selection {
    type V = SelectionView;

    open spec fn deep_view(&self) -> SelectionView {
        SelectionView {
            spec: self.spec.deep_view(),
            version: self.version.deep_view(),
            explicit_version: self.explicit_version,
        }
    }
}

impl Selection {
    /// A context for a reader or writer to work in.
    pub fn ctx(&self) -> (r: FormatCtx)
        ensures
            r@ == (CtxView {
                version: self.deep_view().version,
                version_requested: self.explicit_version,
                path_rewriting: false,
                notes: Seq::empty(),
            }),
    {
        let mut ctx = FormatCtx::new(self.version);
        ctx.set_version_requested(self.explicit_version);
        ctx
    }
}

/// The position of the first format that `id` names, or the length.
pub open spec fn format_at(table: Seq<FormatSpecView>, id: Seq<char>) -> int
    decreases table.len(),
{
    if table.len() == 0 || table[0].matches(id) {
        0
    } else {
        1 + format_at(table.skip(1), id)
    }
}

pub open spec fn known_ids() -> Seq<Seq<char>> {
    format_table().map_values(|f: FormatSpecView| f.id)
}

/// What `find` gives back.
pub open spec fn found(id: Seq<char>) -> Result<FormatSpecView, ErrorView> {
    let at = format_at(format_table(), id);
    if at < format_table().len() {
        Ok(format_table()[at])
    } else {
        Err(
            ErrorView::Config(
                "unknown format '"@ + id + "'. Known formats: "@ + join(known_ids(), ", "@)
                    + ". Run `udc formats` for details."@,
            ),
        )
    }
}

/// Resolves a format id or alias, case-insensitively.
pub fn find(id: &str) -> (r: Result<FormatSpec, Error>)
    ensures
        match r {
            Ok(spec) => found(id@) == Ok::<FormatSpecView, ErrorView>(spec.deep_view()),
            Err(e) => found(id@) == Err::<FormatSpecView, ErrorView>(e.deep_view()),
        },
{
    let mut table = formats();
    let ghost all = table.deep_view();
    let mut at: usize = 0;
    assert(all.skip(0) =~= all);
    while at < table.len() && !table[at].matches(id)
        invariant
            at <= table@.len(),
            all == table.deep_view(),
            all == format_table(),
            format_at(all, id@) == at + format_at(all.skip(at as int), id@),
        decreases table@.len() - at,
    {
        assert(all.skip(at as int)[0] == all[at as int]);
        assert(all.skip(at as int).skip(1) =~= all.skip(at as int + 1));
        at = at + 1;
    }
    if at < table.len() {
        assert(all.skip(at as int)[0] == all[at as int]);
        return Ok(table.swap_remove(at));
    }
    let mut ids: Vec<String> = empty_list();
    let mut i: usize = 0;
    while i < table.len()
        invariant
            i <= table@.len(),
            all == table.deep_view(),
            all == format_table(),
            ids.deep_view() == known_ids().take(i as int),
        decreases table@.len() - i,
    {
        append_one(&mut ids, owned(table[i].id));
        i = i + 1;
        assert(ids.deep_view() =~= known_ids().take(i as int));
    }
    assert(ids.deep_view() =~= known_ids());
    let known = joined(&ids, ", ");
    Err(
        Error::config(
            concat5(
                "unknown format '",
                id,
                "'. Known formats: ",
                known.as_str(),
                ". Run `udc formats` for details.",
            ).as_str(),
        ),
    )
}

/// The position of the first version that equals `requested`, ASCII case aside,
/// or the length.
pub open spec fn version_index(versions: Seq<Seq<char>>, requested: Seq<char>) -> int
    decreases versions.len(),
{
    if versions.len() == 0 || lower(versions[0]) == lower(requested) {
        0
    } else {
        1 + version_index(versions.skip(1), requested)
    }
}

/// What a selector means: `<format>[@<version>]`.
pub open spec fn resolved(raw: Seq<char>) -> Result<SelectionView, ErrorView> {
    let selector = trim(raw);
    match split_once(selector, ':') {
        Some((id, version)) => Err(
            ErrorView::Config(
                "'"@ + selector + "': ':' is reserved for a future category qualifier. Use '"@ + id
                    + "@"@ + version + "' to pin a spec version."@,
            ),
        ),
        None => match split_once(selector, '@') {
            None => match found(selector) {
                Err(e) => Err(e),
                Ok(spec) => Ok(
                    SelectionView { spec, version: spec.default_version, explicit_version: false },
                ),
            },
            Some((id, rest)) => {
                let requested = trim(rest);
                match found(id) {
                    Err(e) => Err(e),
                    Ok(spec) => if requested.len() == 0 {
                        Err(ErrorView::Config("'"@ + selector + "': no version after '@'"@))
                    } else if spec.versions.len() == 0 {
                        Err(
                            ErrorView::Config(
                                "format '"@ + spec.id + "' is not versioned: drop the '@"@
                                    + requested + "' suffix"@,
                            ),
                        )
                    } else if version_index(spec.versions, requested) < spec.versions.len() {
                        Ok(
                            SelectionView {
                                spec,
                                version: Some(
                                    spec.versions[version_index(spec.versions, requested)],
                                ),
                                explicit_version: true,
                            },
                        )
                    } else {
                        Err(
                            ErrorView::Config(
                                "format '"@ + spec.id + "' does not support version '"@ + requested
                                    + "'. Supported: "@ + join(spec.versions, ", "@),
                            ),
                        )
                    },
                }
            },
        },
    }
}

/// A selection as a selector names it.
pub open spec fn selection_text(selection: SelectionView) -> Seq<char> {
    match selection.version {
        Some(version) => selection.spec.id + "@"@ + version,
        None => selection.spec.id,
    }
}

/// Resolves a `<format>[@<version>]` selector.
pub fn resolve(selector: &str) -> (r: Result<Selection, Error>)
    ensures
        match r {
            Ok(s) => resolved(selector@) == Ok::<SelectionView, ErrorView>(s.deep_view()),
            Err(e) => resolved(selector@) == Err::<SelectionView, ErrorView>(e.deep_view()),
        },
{
    let text = trimmed(selector);
    let selector = text.as_str();
    if let Some((id, version)) = cut(selector, ':') {
        let head = concat3(
            "'",
            selector,
            "': ':' is reserved for a future category qualifier. Use '",
        );
        return Err(
            Error::config(
                concat5(
                    head.as_str(),
                    id.as_str(),
                    "@",
                    version.as_str(),
                    "' to pin a spec version.",
                ).as_str(),
            ),
        );
    }
    let (id, requested) = match cut(selector, '@') {
        Some((id, rest)) => (id, Some(trimmed(rest.as_str()))),
        None => (owned(selector), None),
    };
    let spec = match find(id.as_str()) {
        Ok(spec) => spec,
        Err(e) => {
            return Err(e);
        },
    };
    let requested = match requested {
        Some(v) => v,
        None => {
            let version = spec.default_version;
            return Ok(Selection { spec, version, explicit_version: false });
        },
    };
    if requested.as_str().is_empty() {
        return Err(
            Error::config(concat3("'", selector, "': no version after '@'").as_str()),
        );
    }
    if spec.versions.len() == 0 {
        return Err(
            Error::config(
                concat5(
                    "format '",
                    spec.id,
                    "' is not versioned: drop the '@",
                    requested.as_str(),
                    "' suffix",
                ).as_str(),
            ),
        );
    }
    let ghost all = spec.versions.deep_view();
    let mut at: usize = 0;
    assert(all.skip(0) =~= all);
    while at < spec.versions.len() && !same_ignoring_case(spec.versions[at], requested.as_str())
        invariant
            at <= spec.versions@.len(),
            all == spec.versions.deep_view(),
            version_index(all, requested@) == at + version_index(all.skip(at as int), requested@),
        decreases spec.versions@.len() - at,
    {
        assert(all.skip(at as int)[0] == all[at as int]);
        assert(all.skip(at as int).skip(1) =~= all.skip(at as int + 1));
        at = at + 1;
    }
    if at < spec.versions.len() {
        assert(all.skip(at as int)[0] == all[at as int]);
        let version = spec.versions[at];
        return Ok(Selection { spec, version: Some(version), explicit_version: true });
    }
    let mut known: Vec<String> = empty_list();
    let mut i: usize = 0;
    while i < spec.versions.len()
        invariant
            i <= spec.versions@.len(),
            all == spec.versions.deep_view(),
            known.deep_view() == all.take(i as int),
        decreases spec.versions@.len() - i,
    {
        append_one(&mut known, owned(spec.versions[i]));
        i = i + 1;
        assert(known.deep_view() =~= all.take(i as int));
    }
    assert(known.deep_view() =~= all);
    let head = concat5(
        "format '",
        spec.id,
        "' does not support version '",
        requested.as_str(),
        "'. Supported: ",
    );
    Err(
        Error::config(
            crate::text::concat(head.as_str(), joined(&known, ", ").as_str()).as_str(),
        ),
    )
}

// ---------------------------------------------------------------------------
// Laws
// ---------------------------------------------------------------------------

/// A conversion that is defined one way is defined the other way too, and what
/// the formats share is a category of both.
pub proof fn sharing_is_mutual(a: FormatSpecView, b: FormatSpecView)
    ensures
        a.shared_category(b) is Some <==> b.shared_category(a) is Some,
        a.shared_category(b) is Some ==> a.is_in(a.shared_category(b)->0) && b.is_in(
            a.shared_category(b)->0,
        ),
{
    first_shared_props(a.categories, b.categories);
    first_shared_props(b.categories, a.categories);
}

proof fn first_shared_props(mine: Seq<Category>, theirs: Seq<Category>)
    ensures
        match first_shared(mine, theirs) {
            Some(c) => mine.contains(c) && theirs.contains(c),
            None => forall|c: Category| #[trigger] mine.contains(c) ==> !theirs.contains(c),
        },
    decreases mine.len(),
{
    if mine.len() > 0 && !theirs.contains(mine[0]) {
        first_shared_props(mine.skip(1), theirs);
        match first_shared(mine.skip(1), theirs) {
            Some(c) => {
                let i = choose|i: int| 0 <= i < mine.skip(1).len() && mine.skip(1)[i] == c;
                assert(mine[i + 1] == c);
            },
            None => {
                assert forall|c: Category| #[trigger] mine.contains(c) implies !theirs.contains(
                    c,
                ) by {
                    let i = choose|i: int| 0 <= i < mine.len() && mine[i] == c;
                    if i > 0 {
                        assert(mine.skip(1)[i - 1] == c);
                        assert(mine.skip(1).contains(c));
                    }
                }
            },
        }
    } else if mine.len() > 0 {
        assert(mine.contains(mine[0]));
    }
}

/// Every format belongs to a category, does something, and has a default
/// version exactly when it has versions, one of them.
pub proof fn every_format_is_sound(i: int)
    requires
        0 <= i < format_table().len(),
    ensures
        format_table()[i].categories.len() > 0,
        format_table()[i].read is Some || format_table()[i].write is Some,
        format_table()[i].default_version is Some <==> format_table()[i].versions.len() > 0,
        format_table()[i].default_version is Some ==> format_table()[i].versions.contains(
            format_table()[i].default_version->0,
        ),
{
    assert(seq!["2.1.0"@][0] == "2.1.0"@);
    assert(seq!["2"@][0] == "2"@);
    assert(seq!["15.2.5"@][0] == "15.2.5"@);
    assert(sarif_entry().versions.contains("2.1.0"@));
    assert(trivy_json_entry().versions.contains("2"@));
    assert(gitlab_sast_entry().versions.contains("15.2.5"@));
}

/// The names of the formats are in lower case and told apart by these.
proof fn names_are_apart()
    ensures
        lower("lcov"@) == "lcov"@,
        "lcov"@.len() == 4,
        lower("lcov-info"@) == "lcov-info"@,
        "lcov-info"@.len() == 9 && "lcov-info"@[0] == 'l',
        lower("clover"@) == "clover"@,
        "clover"@.len() == 6 && "clover"@[0] == 'c',
        lower("cobertura"@) == "cobertura"@,
        "cobertura"@.len() == 9 && "cobertura"@[0] == 'c',
        lower("coverage.py"@) == "coverage.py"@,
        "coverage.py"@.len() == 11 && "coverage.py"@[0] == 'c' && "coverage.py"@[2] == 'v',
        lower("go-coverprofile"@) == "go-coverprofile"@,
        "go-coverprofile"@.len() == 15 && "go-coverprofile"@[1] == 'o',
        lower("gocover"@) == "gocover"@,
        "gocover"@.len() == 7,
        lower("gocoverprofile"@) == "gocoverprofile"@,
        "gocoverprofile"@.len() == 14 && "gocoverprofile"@[0] == 'g',
        lower("istanbul"@) == "istanbul"@,
        "istanbul"@.len() == 8 && "istanbul"@[0] == 'i',
        lower("coverage-final"@) == "coverage-final"@,
        "coverage-final"@.len() == 14 && "coverage-final"@[0] == 'c',
        lower("nyc"@) == "nyc"@,
        "nyc"@.len() == 3 && "nyc"@[0] == 'n',
        lower("jacoco"@) == "jacoco"@,
        "jacoco"@.len() == 6 && "jacoco"@[0] == 'j',
        lower("junit"@) == "junit"@,
        "junit"@.len() == 5 && "junit"@[0] == 'j',
        lower("junit-xml"@) == "junit-xml"@,
        "junit-xml"@.len() == 9 && "junit-xml"@[0] == 'j',
        lower("surefire"@) == "surefire"@,
        "surefire"@.len() == 8 && "surefire"@[0] == 's',
        lower("go-test-json"@) == "go-test-json"@,
        "go-test-json"@.len() == 12 && "go-test-json"@[0] == 'g',
        lower("gotest"@) == "gotest"@,
        "gotest"@.len() == 6 && "gotest"@[0] == 'g',
        lower("gotestjson"@) == "gotestjson"@,
        "gotestjson"@.len() == 10 && "gotestjson"@[0] == 'g',
        lower("tap"@) == "tap"@,
        "tap"@.len() == 3 && "tap"@[0] == 't' && "tap"@[1] == 'a',
        lower("tap13"@) == "tap13"@,
        "tap13"@.len() == 5 && "tap13"@[0] == 't' && "tap13"@[1] == 'a' && "tap13"@[4] == '3',
        lower("tap14"@) == "tap14"@,
        "tap14"@.len() == 5 && "tap14"@[0] == 't' && "tap14"@[1] == 'a' && "tap14"@[4] == '4',
        lower("trx"@) == "trx"@,
        "trx"@.len() == 3 && "trx"@[0] == 't' && "trx"@[1] == 'r',
        lower("mstest"@) == "mstest"@,
        "mstest"@.len() == 6 && "mstest"@[0] == 'm',
        lower("vstest"@) == "vstest"@,
        "vstest"@.len() == 6 && "vstest"@[0] == 'v',
        lower("checkstyle"@) == "checkstyle"@,
        "checkstyle"@.len() == 10 && "checkstyle"@[0] == 'c',
        lower("eslint"@) == "eslint"@,
        "eslint"@.len() == 6 && "eslint"@[0] == 'e',
        lower("eslint-json"@) == "eslint-json"@,
        "eslint-json"@.len() == 11 && "eslint-json"@[0] == 'e',
        lower("sarif"@) == "sarif"@,
        "sarif"@.len() == 5 && "sarif"@[0] == 's',
        lower("sarif-json"@) == "sarif-json"@,
        "sarif-json"@.len() == 10 && "sarif-json"@[0] == 's',
        lower("codeclimate"@) == "codeclimate"@,
        "codeclimate"@.len() == 11 && "codeclimate"@[0] == 'c' && "codeclimate"@[2] == 'd',
        "codeclimate"@[4] == 'c',
        lower("code-climate"@) == "code-climate"@,
        "code-climate"@.len() == 12 && "code-climate"@[0] == 'c',
        lower("codeclimate-gitlab"@) == "codeclimate-gitlab"@,
        "codeclimate-gitlab"@.len() == 18 && "codeclimate-gitlab"@[0] == 'c',
        lower("gitlab-codequality"@) == "gitlab-codequality"@,
        "gitlab-codequality"@.len() == 18 && "gitlab-codequality"@[0] == 'g',
        lower("codequality"@) == "codequality"@,
        "codequality"@.len() == 11 && "codequality"@[0] == 'c' && "codequality"@[2] == 'd',
        "codequality"@[4] == 'q',
        lower("trivy-json"@) == "trivy-json"@,
        "trivy-json"@.len() == 10 && "trivy-json"@[0] == 't',
        lower("trivy"@) == "trivy"@,
        "trivy"@.len() == 5 && "trivy"@[0] == 't' && "trivy"@[1] == 'r',
        lower("gitlab-sast"@) == "gitlab-sast"@,
        "gitlab-sast"@.len() == 11 && "gitlab-sast"@[0] == 'g',
        lower("gitlab-security"@) == "gitlab-security"@,
        "gitlab-security"@.len() == 15 && "gitlab-security"@[1] == 'i',
{
    reveal_strlit("lcov");
    reveal_strlit("lcov-info");
    reveal_strlit("clover");
    reveal_strlit("cobertura");
    reveal_strlit("coverage.py");
    reveal_strlit("go-coverprofile");
    reveal_strlit("gocover");
    reveal_strlit("gocoverprofile");
    reveal_strlit("istanbul");
    reveal_strlit("coverage-final");
    reveal_strlit("nyc");
    reveal_strlit("jacoco");
    reveal_strlit("junit");
    reveal_strlit("junit-xml");
    reveal_strlit("surefire");
    reveal_strlit("go-test-json");
    reveal_strlit("gotest");
    reveal_strlit("gotestjson");
    reveal_strlit("tap");
    reveal_strlit("tap13");
    reveal_strlit("tap14");
    reveal_strlit("trx");
    reveal_strlit("mstest");
    reveal_strlit("vstest");
    reveal_strlit("checkstyle");
    reveal_strlit("eslint");
    reveal_strlit("eslint-json");
    reveal_strlit("sarif");
    reveal_strlit("sarif-json");
    reveal_strlit("codeclimate");
    reveal_strlit("code-climate");
    reveal_strlit("codeclimate-gitlab");
    reveal_strlit("gitlab-codequality");
    reveal_strlit("codequality");
    reveal_strlit("trivy-json");
    reveal_strlit("trivy");
    reveal_strlit("gitlab-sast");
    reveal_strlit("gitlab-security");
    assert(lower("lcov"@) =~= "lcov"@);
    assert(lower("lcov-info"@) =~= "lcov-info"@);
    assert(lower("clover"@) =~= "clover"@);
    assert(lower("cobertura"@) =~= "cobertura"@);
    assert(lower("coverage.py"@) =~= "coverage.py"@);
    assert(lower("go-coverprofile"@) =~= "go-coverprofile"@);
    assert(lower("gocover"@) =~= "gocover"@);
    assert(lower("gocoverprofile"@) =~= "gocoverprofile"@);
    assert(lower("istanbul"@) =~= "istanbul"@);
    assert(lower("coverage-final"@) =~= "coverage-final"@);
    assert(lower("nyc"@) =~= "nyc"@);
    assert(lower("jacoco"@) =~= "jacoco"@);
    assert(lower("junit"@) =~= "junit"@);
    assert(lower("junit-xml"@) =~= "junit-xml"@);
    assert(lower("surefire"@) =~= "surefire"@);
    assert(lower("go-test-json"@) =~= "go-test-json"@);
    assert(lower("gotest"@) =~= "gotest"@);
    assert(lower("gotestjson"@) =~= "gotestjson"@);
    assert(lower("tap"@) =~= "tap"@);
    assert(lower("tap13"@) =~= "tap13"@);
    assert(lower("tap14"@) =~= "tap14"@);
    assert(lower("trx"@) =~= "trx"@);
    assert(lower("mstest"@) =~= "mstest"@);
    assert(lower("vstest"@) =~= "vstest"@);
    assert(lower("checkstyle"@) =~= "checkstyle"@);
    assert(lower("eslint"@) =~= "eslint"@);
    assert(lower("eslint-json"@) =~= "eslint-json"@);
    assert(lower("sarif"@) =~= "sarif"@);
    assert(lower("sarif-json"@) =~= "sarif-json"@);
    assert(lower("codeclimate"@) =~= "codeclimate"@);
    assert(lower("code-climate"@) =~= "code-climate"@);
    assert(lower("codeclimate-gitlab"@) =~= "codeclimate-gitlab"@);
    assert(lower("gitlab-codequality"@) =~= "gitlab-codequality"@);
    assert(lower("codequality"@) =~= "codequality"@);
    assert(lower("trivy-json"@) =~= "trivy-json"@);
    assert(lower("trivy"@) =~= "trivy"@);
    assert(lower("gitlab-sast"@) =~= "gitlab-sast"@);
    assert(lower("gitlab-security"@) =~= "gitlab-security"@);
}

proof fn found_first(table: Seq<FormatSpecView>, id: Seq<char>, i: int)
    requires
        0 <= i < table.len(),
        table[i].matches(id),
        forall|j: int| 0 <= j < i ==> !(#[trigger] table[j]).matches(id),
    ensures
        format_at(table, id) == i,
    decreases i,
{
    if i > 0 {
        assert(!table[0].matches(id));
        let rest = table.skip(1);
        assert(rest[i - 1] == table[i]);
        assert forall|j: int| 0 <= j < i - 1 implies !(#[trigger] rest[j]).matches(id) by {
            assert(rest[j] == table[j + 1]);
        }
        found_first(rest, id, i - 1);
    }
}

proof fn leads_to_lcov()
    ensures
        format_at(format_table(), "lcov"@) == 0,
        format_at(format_table(), "lcov-info"@) == 0,
{
    names_are_apart();
    found_first(format_table(), "lcov"@, 0);
    assert(lcov_entry().aliases[0] == "lcov-info"@);
    found_first(format_table(), "lcov-info"@, 0);
}

proof fn leads_to_clover()
    ensures
        format_at(format_table(), "clover"@) == 1,
{
    names_are_apart();
    found_first(format_table(), "clover"@, 1);
}

proof fn leads_to_cobertura()
    ensures
        format_at(format_table(), "cobertura"@) == 2,
        format_at(format_table(), "coverage.py"@) == 2,
{
    names_are_apart();
    found_first(format_table(), "cobertura"@, 2);
    assert(cobertura_entry().aliases[0] == "coverage.py"@);
    found_first(format_table(), "coverage.py"@, 2);
}

proof fn leads_to_go_coverprofile()
    ensures
        format_at(format_table(), "go-coverprofile"@) == 3,
        format_at(format_table(), "gocover"@) == 3,
        format_at(format_table(), "gocoverprofile"@) == 3,
{
    names_are_apart();
    found_first(format_table(), "go-coverprofile"@, 3);
    assert(go_coverprofile_entry().aliases[0] == "gocover"@);
    found_first(format_table(), "gocover"@, 3);
    assert(go_coverprofile_entry().aliases[1] == "gocoverprofile"@);
    found_first(format_table(), "gocoverprofile"@, 3);
}

proof fn leads_to_istanbul()
    ensures
        format_at(format_table(), "istanbul"@) == 4,
        format_at(format_table(), "coverage-final"@) == 4,
        format_at(format_table(), "nyc"@) == 4,
{
    names_are_apart();
    found_first(format_table(), "istanbul"@, 4);
    assert(istanbul_entry().aliases[0] == "coverage-final"@);
    found_first(format_table(), "coverage-final"@, 4);
    assert(istanbul_entry().aliases[1] == "nyc"@);
    found_first(format_table(), "nyc"@, 4);
}

proof fn leads_to_jacoco()
    ensures
        format_at(format_table(), "jacoco"@) == 5,
{
    names_are_apart();
    found_first(format_table(), "jacoco"@, 5);
}

proof fn leads_to_junit()
    ensures
        format_at(format_table(), "junit"@) == 6,
        format_at(format_table(), "junit-xml"@) == 6,
        format_at(format_table(), "surefire"@) == 6,
{
    names_are_apart();
    found_first(format_table(), "junit"@, 6);
    assert(junit_entry().aliases[0] == "junit-xml"@);
    found_first(format_table(), "junit-xml"@, 6);
    assert(junit_entry().aliases[1] == "surefire"@);
    found_first(format_table(), "surefire"@, 6);
}

proof fn leads_to_go_test_json()
    ensures
        format_at(format_table(), "go-test-json"@) == 7,
        format_at(format_table(), "gotest"@) == 7,
        format_at(format_table(), "gotestjson"@) == 7,
{
    names_are_apart();
    found_first(format_table(), "go-test-json"@, 7);
    assert(go_test_json_entry().aliases[0] == "gotest"@);
    found_first(format_table(), "gotest"@, 7);
    assert(go_test_json_entry().aliases[1] == "gotestjson"@);
    found_first(format_table(), "gotestjson"@, 7);
}

proof fn leads_to_tap()
    ensures
        format_at(format_table(), "tap"@) == 8,
        format_at(format_table(), "tap13"@) == 8,
        format_at(format_table(), "tap14"@) == 8,
{
    names_are_apart();
    found_first(format_table(), "tap"@, 8);
    assert(tap_entry().aliases[0] == "tap13"@);
    found_first(format_table(), "tap13"@, 8);
    assert(tap_entry().aliases[1] == "tap14"@);
    found_first(format_table(), "tap14"@, 8);
}

proof fn leads_to_trx()
    ensures
        format_at(format_table(), "trx"@) == 9,
        format_at(format_table(), "mstest"@) == 9,
        format_at(format_table(), "vstest"@) == 9,
{
    names_are_apart();
    found_first(format_table(), "trx"@, 9);
    assert(trx_entry().aliases[0] == "mstest"@);
    found_first(format_table(), "mstest"@, 9);
    assert(trx_entry().aliases[1] == "vstest"@);
    found_first(format_table(), "vstest"@, 9);
}

proof fn leads_to_checkstyle()
    ensures
        format_at(format_table(), "checkstyle"@) == 10,
{
    names_are_apart();
    found_first(format_table(), "checkstyle"@, 10);
}

proof fn leads_to_eslint()
    ensures
        format_at(format_table(), "eslint"@) == 11,
        format_at(format_table(), "eslint-json"@) == 11,
{
    names_are_apart();
    found_first(format_table(), "eslint"@, 11);
    assert(eslint_entry().aliases[0] == "eslint-json"@);
    found_first(format_table(), "eslint-json"@, 11);
}

proof fn leads_to_sarif()
    ensures
        format_at(format_table(), "sarif"@) == 12,
        format_at(format_table(), "sarif-json"@) == 12,
{
    names_are_apart();
    found_first(format_table(), "sarif"@, 12);
    assert(sarif_entry().aliases[0] == "sarif-json"@);
    found_first(format_table(), "sarif-json"@, 12);
}

proof fn leads_to_codeclimate()
    ensures
        format_at(format_table(), "codeclimate"@) == 13,
        format_at(format_table(), "code-climate"@) == 13,
{
    names_are_apart();
    found_first(format_table(), "codeclimate"@, 13);
    assert(codeclimate_entry().aliases[0] == "code-climate"@);
    found_first(format_table(), "code-climate"@, 13);
}

proof fn leads_to_codeclimate_gitlab()
    ensures
        format_at(format_table(), "codeclimate-gitlab"@) == 14,
        format_at(format_table(), "gitlab-codequality"@) == 14,
        format_at(format_table(), "codequality"@) == 14,
{
    names_are_apart();
    found_first(format_table(), "codeclimate-gitlab"@, 14);
    assert(codeclimate_gitlab_entry().aliases[0] == "gitlab-codequality"@);
    found_first(format_table(), "gitlab-codequality"@, 14);
    assert(codeclimate_gitlab_entry().aliases[1] == "codequality"@);
    found_first(format_table(), "codequality"@, 14);
}

proof fn leads_to_trivy_json()
    ensures
        format_at(format_table(), "trivy-json"@) == 15,
        format_at(format_table(), "trivy"@) == 15,
{
    names_are_apart();
    found_first(format_table(), "trivy-json"@, 15);
    assert(trivy_json_entry().aliases[0] == "trivy"@);
    found_first(format_table(), "trivy"@, 15);
}

proof fn leads_to_gitlab_sast()
    ensures
        format_at(format_table(), "gitlab-sast"@) == 16,
        format_at(format_table(), "gitlab-security"@) == 16,
{
    names_are_apart();
    found_first(format_table(), "gitlab-sast"@, 16);
    assert(gitlab_sast_entry().aliases[0] == "gitlab-security"@);
    found_first(format_table(), "gitlab-security"@, 16);
}

/// What a format goes by: its id and its aliases.
pub open spec fn names_of(spec: FormatSpecView) -> Seq<Seq<char>> {
    seq![spec.id] + spec.aliases
}

/// Every name leads to its format: no two formats share one, case aside.
pub proof fn every_name_leads_to_its_format(i: int, k: int)
    requires
        0 <= i < format_table().len(),
        0 <= k < names_of(format_table()[i]).len(),
    ensures
        found(names_of(format_table()[i])[k]) == Ok::<FormatSpecView, ErrorView>(
            format_table()[i],
        ),
{
    leads_to_lcov();
    leads_to_clover();
    leads_to_cobertura();
    leads_to_go_coverprofile();
    leads_to_istanbul();
    leads_to_jacoco();
    leads_to_junit();
    leads_to_go_test_json();
    leads_to_tap();
    leads_to_trx();
    leads_to_checkstyle();
    leads_to_eslint();
    leads_to_sarif();
    leads_to_codeclimate();
    leads_to_codeclimate_gitlab();
    leads_to_trivy_json();
    leads_to_gitlab_sast();
}

/// A selection's version is one of the format's versions, or none for a format
/// without versions.
pub proof fn selected_version_is_supported(raw: Seq<char>)
    ensures
        match resolved(raw) {
            Ok(s) => match s.version {
                Some(v) => s.spec.versions.contains(v),
                None => s.spec.versions.len() == 0,
            },
            Err(_) => true,
        },
{
    let selector = trim(raw);
    match resolved(raw) {
        Ok(s) => {
            let id = match split_once(selector, '@') {
                Some((id, _)) => id,
                None => selector,
            };
            format_at_props(format_table(), id);
            every_format_is_sound(format_at(format_table(), id));
            match split_once(selector, '@') {
                Some((_, rest)) => {
                    version_index_props(s.spec.versions, trim(rest));
                },
                None => {},
            }
        },
        Err(_) => {},
    }
}

proof fn format_at_props(table: Seq<FormatSpecView>, id: Seq<char>)
    ensures
        0 <= format_at(table, id) <= table.len(),
    decreases table.len(),
{
    if table.len() > 0 && !table[0].matches(id) {
        format_at_props(table.skip(1), id);
    }
}

proof fn version_index_props(versions: Seq<Seq<char>>, requested: Seq<char>)
    ensures
        0 <= version_index(versions, requested) <= versions.len(),
    decreases versions.len(),
{
    if versions.len() > 0 && lower(versions[0]) != lower(requested) {
        version_index_props(versions.skip(1), requested);
    }
}

/// A word that stands in a selector as it is.
pub open spec fn plain_word(s: Seq<char>) -> bool {
    s.len() > 0 && forall|i: int|
        0 <= i < s.len() ==> #[trigger] s[i] != ':' && s[i] != '@' && !is_white(s[i])
}

proof fn ids_are_plain(i: int)
    requires
        0 <= i < format_table().len(),
    ensures
        plain_word(format_table()[i].id),
{
    reveal_strlit("lcov");
    reveal_strlit("clover");
    reveal_strlit("cobertura");
    reveal_strlit("go-coverprofile");
    reveal_strlit("istanbul");
    reveal_strlit("jacoco");
    reveal_strlit("junit");
    reveal_strlit("go-test-json");
    reveal_strlit("tap");
    reveal_strlit("trx");
    reveal_strlit("checkstyle");
    reveal_strlit("eslint");
    reveal_strlit("sarif");
    reveal_strlit("codeclimate");
    reveal_strlit("codeclimate-gitlab");
    reveal_strlit("trivy-json");
    reveal_strlit("gitlab-sast");
    assert(plain_word("lcov"@));
    assert(plain_word("clover"@));
    assert(plain_word("cobertura"@));
    assert(plain_word("go-coverprofile"@));
    assert(plain_word("istanbul"@));
    assert(plain_word("jacoco"@));
    assert(plain_word("junit"@));
    assert(plain_word("go-test-json"@));
    assert(plain_word("tap"@));
    assert(plain_word("trx"@));
    assert(plain_word("checkstyle"@));
    assert(plain_word("eslint"@));
    assert(plain_word("sarif"@));
    assert(plain_word("codeclimate"@));
    assert(plain_word("codeclimate-gitlab"@));
    assert(plain_word("trivy-json"@));
    assert(plain_word("gitlab-sast"@));
}

proof fn versions_are_plain(i: int, k: int)
    requires
        0 <= i < format_table().len(),
        0 <= k < format_table()[i].versions.len(),
    ensures
        plain_word(format_table()[i].versions[k]),
        format_table()[i].versions.len() == 1,
{
    reveal_strlit("2.1.0");
    reveal_strlit("2");
    reveal_strlit("15.2.5");
    assert(plain_word("2.1.0"@));
    assert(plain_word("2"@));
    assert(plain_word("15.2.5"@));
}

proof fn plain_words_are_whole(s: Seq<char>)
    requires
        plain_word(s),
    ensures
        trim(s) == s,
        split_once(s, ':') is None,
        split_once(s, '@') is None,
{
    assert(!is_white(s[0]));
    assert(!is_white(s[s.len() - 1]));
    first_props(s, ':');
    first_props(s, '@');
}

proof fn plain_words_at_each_other(id: Seq<char>, version: Seq<char>)
    requires
        plain_word(id),
        plain_word(version),
    ensures
        trim(id + "@"@ + version) == id + "@"@ + version,
        split_once(id + "@"@ + version, ':') is None,
        split_once(id + "@"@ + version, '@') == Some((id, version)),
{
    reveal_strlit("@");
    let s = id + "@"@ + version;
    assert(s =~= id.push('@') + version);
    assert forall|i: int| 0 <= i < s.len() implies #[trigger] s[i] != ':' by {
        if i < id.len() {
            assert(s[i] == id[i]);
        } else if i > id.len() {
            assert(s[i] == version[i - id.len() - 1]);
        }
    }
    first_props(s, ':');
    first_props(id, '@');
    assert(!contains_char(id, '@'));
    split_once_at(id, '@', version);
    assert(s[0] == id[0] && !is_white(id[0]));
    assert(s.last() == version[version.len() - 1]);
    assert(!is_white(version[version.len() - 1]));
}

/// A selector names a format, or a format and one of its versions: it resolves
/// exactly when it holds no `:` and names a format, with, behind an `@`, a version
/// that the format has, case aside. Then it is that format at that version, or
/// at its default version.
pub proof fn selectors_resolve_to_what_they_name(raw: Seq<char>)
    ensures
        resolved(raw) is Ok <==> !contains_char(trim(raw), ':') && match split_once(
            trim(raw),
            '@',
        ) {
            None => found(trim(raw)) is Ok,
            Some((id, version)) => found(id) is Ok && exists|k: int|
                0 <= k < found(id)->Ok_0.versions.len() && lower(
                    #[trigger] found(id)->Ok_0.versions[k],
                ) == lower(trim(version)),
        },
        match resolved(raw) {
            Ok(s) => match split_once(trim(raw), '@') {
                None => found(trim(raw)) == Ok::<FormatSpecView, ErrorView>(s.spec) && s.version
                    == s.spec.default_version && !s.explicit_version,
                Some((id, version)) => found(id) == Ok::<FormatSpecView, ErrorView>(s.spec)
                    && s.version is Some && s.spec.versions.contains(s.version->0) && lower(
                    s.version->0,
                ) == lower(trim(version)) && s.explicit_version,
            },
            Err(_) => true,
        },
{
    let selector = trim(raw);
    first_props(selector, ':');
    if let Some((id, rest)) = split_once(selector, '@') {
        let requested = trim(rest);
        let at = format_at(format_table(), id);
        format_at_props(format_table(), id);
        if at < format_table().len() {
            let versions = format_table()[at].versions;
            version_index_props(versions, requested);
            version_index_finds(versions, requested);
            if requested.len() == 0 {
                assert forall|k: int| 0 <= k < versions.len() implies lower(
                    #[trigger] versions[k],
                ) != lower(requested) by {
                    versions_are_plain(at, k);
                    assert(lower(versions[k]).len() > 0);
                }
            }
        }
    }
}

proof fn version_index_finds(versions: Seq<Seq<char>>, requested: Seq<char>)
    ensures
        version_index(versions, requested) < versions.len() ==> lower(
            versions[version_index(versions, requested)],
        ) == lower(requested),
        (exists|k: int|
            0 <= k < versions.len() && lower(#[trigger] versions[k]) == lower(requested))
            ==> version_index(versions, requested) < versions.len(),
    decreases versions.len(),
{
    if versions.len() > 0 && lower(versions[0]) != lower(requested) {
        let rest = versions.skip(1);
        version_index_finds(rest, requested);
        version_index_props(rest, requested);
        if version_index(rest, requested) < rest.len() {
            assert(versions[1 + version_index(rest, requested)] == rest[version_index(
                rest,
                requested,
            )]);
        }
        if exists|k: int| 0 <= k < versions.len() && lower(#[trigger] versions[k]) == lower(
            requested,
        ) {
            let k = choose|k: int|
                0 <= k < versions.len() && lower(#[trigger] versions[k]) == lower(requested);
            assert(rest[k - 1] == versions[k]);
        }
    }
}

/// A selection, written as its id or as its id at its version, resolves to
/// itself; with the version written out, it counts as asked for.
pub proof fn selections_resolve_to_themselves(raw: Seq<char>)
    ensures
        match resolved(raw) {
            Ok(s) => resolved(selection_text(s)) == Ok::<SelectionView, ErrorView>(
                SelectionView { explicit_version: s.version is Some, ..s },
            ),
            Err(_) => true,
        },
{
    if let Ok(s) = resolved(raw) {
        resolved_formats_are_supported(raw);
        selected_version_is_supported(raw);
        let i = choose|i: int|
            0 <= i < format_table().len() && s.spec == #[trigger] format_table()[i];
        ids_are_plain(i);
        every_name_leads_to_its_format(i, 0);
        assert(names_of(s.spec)[0] == s.spec.id);
        every_format_is_sound(i);
        match s.version {
            Some(version) => {
                let k = choose|k: int|
                    0 <= k < s.spec.versions.len() && s.spec.versions[k] == version;
                versions_are_plain(i, k);
                plain_words_are_whole(version);
                plain_words_at_each_other(s.spec.id, version);
            },
            None => {
                plain_words_are_whole(s.spec.id);
            },
        }
    }
}

/// A format's id alone resolves to it, at its default version.
pub proof fn ids_resolve_to_their_formats(i: int)
    requires
        0 <= i < format_table().len(),
    ensures
        resolved(format_table()[i].id) == Ok::<SelectionView, ErrorView>(
            SelectionView {
                spec: format_table()[i],
                version: format_table()[i].default_version,
                explicit_version: false,
            },
        ),
{
    ids_are_plain(i);
    every_name_leads_to_its_format(i, 0);
    assert(names_of(format_table()[i])[0] == format_table()[i].id);
    plain_words_are_whole(format_table()[i].id);
}

/// What a document is about, its content aside.
pub enum Kind {
    Coverage,
    Tests,
    Findings,
    Sbom,
}

pub open spec fn kind_of(doc: DocView) -> Kind {
    match doc {
        DocView::Coverage(_) => Kind::Coverage,
        DocView::Tests(_) => Kind::Tests,
        DocView::Findings(_) => Kind::Findings,
        DocView::Sbom(_) => Kind::Sbom,
    }
}

/// The kind of the reports of a category; two categories share one.
pub open spec fn category_kind(category: Category) -> Option<Kind> {
    match category {
        Category::Coverage => Some(Kind::Coverage),
        Category::Tests => Some(Kind::Tests),
        Category::Quality => Some(Kind::Findings),
        Category::Security => Some(Kind::Findings),
        Category::Sbom => Some(Kind::Sbom),
        _ => None,
    }
}

/// The kind of document that a reader gives.
pub open spec fn reader_kind(reader: ReadFn) -> Kind {
    match reader {
        ReadFn::Lcov => Kind::Coverage,
        ReadFn::Clover => Kind::Coverage,
        ReadFn::Cobertura => Kind::Coverage,
        ReadFn::GoCover => Kind::Coverage,
        ReadFn::Istanbul => Kind::Coverage,
        ReadFn::Jacoco => Kind::Coverage,
        ReadFn::Junit => Kind::Tests,
        ReadFn::GoTest => Kind::Tests,
        ReadFn::Tap => Kind::Tests,
        ReadFn::Trx => Kind::Tests,
        _ => Kind::Findings,
    }
}

/// The kind of document that a writer takes.
pub open spec fn writer_kind(writer: WriteFn) -> Kind {
    match writer {
        WriteFn::Lcov => Kind::Coverage,
        WriteFn::Clover => Kind::Coverage,
        WriteFn::Cobertura => Kind::Coverage,
        WriteFn::Jacoco => Kind::Coverage,
        WriteFn::Junit => Kind::Tests,
        _ => Kind::Findings,
    }
}

/// Whether this is one of the supported formats.
pub open spec fn supported(spec: FormatSpecView) -> bool {
    exists|i: int| 0 <= i < format_table().len() && spec == #[trigger] format_table()[i]
}

proof fn formats_keep_to_their_categories(i: int, category: Category)
    requires
        0 <= i < format_table().len(),
        format_table()[i].is_in(category),
    ensures
        match format_table()[i].read {
            Some(reader) => category_kind(category) == Some(reader_kind(reader)),
            None => true,
        },
        match format_table()[i].write {
            Some(writer) => category_kind(category) == Some(writer_kind(writer)),
            None => true,
        },
{
}

/// Where two formats share a category, what the one reads is of the kind that
/// the other writes.
pub proof fn shared_categories_fit(origin: FormatSpecView, target: FormatSpecView)
    requires
        supported(origin),
        supported(target),
        origin.shared_category(target) is Some,
    ensures
        match (origin.read, target.write) {
            (Some(reader), Some(writer)) => reader_kind(reader) == writer_kind(writer),
            _ => true,
        },
{
    sharing_is_mutual(origin, target);
    let category = origin.shared_category(target)->0;
    let i = choose|i: int| 0 <= i < format_table().len() && origin == #[trigger] format_table()[i];
    let j = choose|i: int| 0 <= i < format_table().len() && target == #[trigger] format_table()[i];
    formats_keep_to_their_categories(i, category);
    formats_keep_to_their_categories(j, category);
}

/// A format that is found is a supported one.
pub proof fn found_formats_are_supported(id: Seq<char>)
    ensures
        match found(id) {
            Ok(spec) => supported(spec),
            Err(_) => true,
        },
{
    format_at_props(format_table(), id);
}

/// So is one that a selector names.
pub proof fn resolved_formats_are_supported(raw: Seq<char>)
    ensures
        match resolved(raw) {
            Ok(selection) => supported(selection.spec),
            Err(_) => true,
        },
{
    let selector = trim(raw);
    found_formats_are_supported(selector);
    if let Some((id, _)) = split_once(selector, '@') {
        found_formats_are_supported(id);
    }
}

/// A format that is found belongs to a category.
pub proof fn found_formats_have_a_category(id: Seq<char>)
    ensures
        match found(id) {
            Ok(spec) => spec.categories.len() > 0,
            Err(_) => true,
        },
{
    let at = format_at(format_table(), id);
    format_at_props(format_table(), id);
    if at < format_table().len() {
        every_format_is_sound(at);
    }
}

/// So does one that a selector names.
pub proof fn resolved_formats_have_a_category(raw: Seq<char>)
    ensures
        match resolved(raw) {
            Ok(selection) => selection.spec.categories.len() > 0,
            Err(_) => true,
        },
{
    let selector = trim(raw);
    found_formats_have_a_category(selector);
    if let Some((id, _)) = split_once(selector, '@') {
        found_formats_have_a_category(id);
    }
}

} // verus!
