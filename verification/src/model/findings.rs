//! Pivot model for located findings: code quality issues and security
//! vulnerabilities.

use vstd::prelude::*;

use crate::hash::{fingerprint, fingerprint_of};
use crate::order::{
    lex_laws, opt_number_less, opt_number_lt, opt_text_laws, opt_text_less, opt_text_lt, sort,
    sorted, sorted_fixpoint, sorted_props, Ranked,
};
use crate::paths::{MapperView, PathMapper};
use crate::text::{less, lex_lt, lex_lt_total, lower, owned, same, to_lower, trim, trimmed};
use crate::value::{
    add_all_new, append_one, empty_list, map_list, text_or, with_all_new, with_all_new_props, Value,
};

verus! {

/// Code Climate's five levels, which every reader maps onto.
#[derive(Debug, Clone, Copy, PartialEq, Eq, PartialOrd, Ord, Structural)]
pub enum Severity {
    Info,
    Minor,
    Major,
    Critical,
    Blocker,
}

impl DeepView for Severity {
    type V = Severity;

    open spec fn deep_view(&self) -> Severity {
        *self
    }
}

impl Value for Severity {
    fn copy(&self) -> (r: Self) {
        *self
    }

    fn equals(&self, other: &Self) -> (r: bool) {
        *self == *other
    }
}

/// A machine-readable identifier for a finding: `CWE-79`, `CVE-2024-1234`,
/// `GHSA-xxxx`.
#[derive(Debug, PartialEq, Eq)]
pub struct Identifier {
    pub kind: String,
    pub value: String,
    pub url: Option<String>,
}

/// The content of a [`Identifier`].
pub struct IdentifierView {
    pub kind: Seq<char>,
    pub value: Seq<char>,
    pub url: Option<Seq<char>>,
}

impl DeepView for Identifier {
    type V = IdentifierView;

    open spec fn deep_view(&self) -> IdentifierView {
        IdentifierView {
            kind: self.kind.deep_view(),
            value: self.value.deep_view(),
            url: self.url.deep_view(),
        }
    }
}

impl Value for Identifier {
    fn copy(&self) -> (r: Self) {
        Identifier {
            kind: self.kind.copy(),
            value: self.value.copy(),
            url: self.url.copy(),
        }
    }

    fn equals(&self, other: &Self) -> (r: bool) {
        self.kind.equals(&other.kind)
            && self.value.equals(&other.value)
            && self.url.equals(&other.url)
    }
}

impl Clone for Identifier {
    fn clone(&self) -> (r: Self)
        ensures
            r.deep_view() == self.deep_view(),
    {
        self.copy()
    }
}

/// The component a finding is about, when the subject is a dependency rather
/// than a line of code.
#[derive(Debug, PartialEq, Eq)]
pub struct Component {
    pub name: String,
    pub version: Option<String>,
    /// The first version that is not affected, when the source knows one.
    pub fixed_version: Option<String>,
    /// Package URL.
    pub purl: Option<String>,
}

/// The content of a [`Component`].
pub struct ComponentView {
    pub name: Seq<char>,
    pub version: Option<Seq<char>>,
    pub fixed_version: Option<Seq<char>>,
    pub purl: Option<Seq<char>>,
}

impl DeepView for Component {
    type V = ComponentView;

    open spec fn deep_view(&self) -> ComponentView {
        ComponentView {
            name: self.name.deep_view(),
            version: self.version.deep_view(),
            fixed_version: self.fixed_version.deep_view(),
            purl: self.purl.deep_view(),
        }
    }
}

impl Value for Component {
    fn copy(&self) -> (r: Self) {
        Component {
            name: self.name.copy(),
            version: self.version.copy(),
            fixed_version: self.fixed_version.copy(),
            purl: self.purl.copy(),
        }
    }

    fn equals(&self, other: &Self) -> (r: bool) {
        self.name.equals(&other.name)
            && self.version.equals(&other.version)
            && self.fixed_version.equals(&other.fixed_version)
            && self.purl.equals(&other.purl)
    }
}

impl Clone for Component {
    fn clone(&self) -> (r: Self)
        ensures
            r.deep_view() == self.deep_view(),
    {
        self.copy()
    }
}

impl ComponentView {
    pub open spec fn empty() -> ComponentView {
        ComponentView {
            name: Seq::empty(),
            version: None,
            fixed_version: None,
            purl: None,
        }
    }
}

impl Default for Component {
    fn default() -> (r: Self)
        ensures
            r.deep_view() == ComponentView::empty(),
    {
        Component {
            name: String::new(),
            version: None,
            fixed_version: None,
            purl: None,
        }
    }
}

/// Where a finding is.
#[derive(Debug, PartialEq, Eq)]
pub struct Location {
    /// Repository-relative path, `/`-separated; empty for a finding that is not
    /// in a file at all.
    pub path: String,
    pub begin_line: Option<u32>,
    pub end_line: Option<u32>,
    pub begin_column: Option<u32>,
    pub end_column: Option<u32>,
    /// Container image the finding was found in.
    pub image: Option<String>,
    /// Operating system of that image.
    pub operating_system: Option<String>,
}

/// The content of a [`Location`].
pub struct LocationView {
    pub path: Seq<char>,
    pub begin_line: Option<u32>,
    pub end_line: Option<u32>,
    pub begin_column: Option<u32>,
    pub end_column: Option<u32>,
    pub image: Option<Seq<char>>,
    pub operating_system: Option<Seq<char>>,
}

impl DeepView for Location {
    type V = LocationView;

    open spec fn deep_view(&self) -> LocationView {
        LocationView {
            path: self.path.deep_view(),
            begin_line: self.begin_line.deep_view(),
            end_line: self.end_line.deep_view(),
            begin_column: self.begin_column.deep_view(),
            end_column: self.end_column.deep_view(),
            image: self.image.deep_view(),
            operating_system: self.operating_system.deep_view(),
        }
    }
}

impl Value for Location {
    fn copy(&self) -> (r: Self) {
        Location {
            path: self.path.copy(),
            begin_line: self.begin_line.copy(),
            end_line: self.end_line.copy(),
            begin_column: self.begin_column.copy(),
            end_column: self.end_column.copy(),
            image: self.image.copy(),
            operating_system: self.operating_system.copy(),
        }
    }

    fn equals(&self, other: &Self) -> (r: bool) {
        self.path.equals(&other.path)
            && self.begin_line.equals(&other.begin_line)
            && self.end_line.equals(&other.end_line)
            && self.begin_column.equals(&other.begin_column)
            && self.end_column.equals(&other.end_column)
            && self.image.equals(&other.image)
            && self.operating_system.equals(&other.operating_system)
    }
}

impl Clone for Location {
    fn clone(&self) -> (r: Self)
        ensures
            r.deep_view() == self.deep_view(),
    {
        self.copy()
    }
}

impl LocationView {
    pub open spec fn empty() -> LocationView {
        LocationView {
            path: Seq::empty(),
            begin_line: None,
            end_line: None,
            begin_column: None,
            end_column: None,
            image: None,
            operating_system: None,
        }
    }
}

impl Default for Location {
    fn default() -> (r: Self)
        ensures
            r.deep_view() == LocationView::empty(),
    {
        Location {
            path: String::new(),
            begin_line: None,
            end_line: None,
            begin_column: None,
            end_column: None,
            image: None,
            operating_system: None,
        }
    }
}

/// The tool that produced a report.
#[derive(Debug, PartialEq, Eq)]
pub struct Tool {
    pub name: String,
    pub version: Option<String>,
    pub url: Option<String>,
}

/// The content of a [`Tool`].
pub struct ToolView {
    pub name: Seq<char>,
    pub version: Option<Seq<char>>,
    pub url: Option<Seq<char>>,
}

impl DeepView for Tool {
    type V = ToolView;

    open spec fn deep_view(&self) -> ToolView {
        ToolView {
            name: self.name.deep_view(),
            version: self.version.deep_view(),
            url: self.url.deep_view(),
        }
    }
}

impl Value for Tool {
    fn copy(&self) -> (r: Self) {
        Tool {
            name: self.name.copy(),
            version: self.version.copy(),
            url: self.url.copy(),
        }
    }

    fn equals(&self, other: &Self) -> (r: bool) {
        self.name.equals(&other.name)
            && self.version.equals(&other.version)
            && self.url.equals(&other.url)
    }
}

impl Clone for Tool {
    fn clone(&self) -> (r: Self)
        ensures
            r.deep_view() == self.deep_view(),
    {
        self.copy()
    }
}

impl ToolView {
    pub open spec fn empty() -> ToolView {
        ToolView {
            name: Seq::empty(),
            version: None,
            url: None,
        }
    }
}

impl Default for Tool {
    fn default() -> (r: Self)
        ensures
            r.deep_view() == ToolView::empty(),
    {
        Tool {
            name: String::new(),
            version: None,
            url: None,
        }
    }
}

/// One finding.
#[derive(Debug, PartialEq, Eq)]
pub struct Finding {
    /// Rule that produced the finding.
    pub rule_id: Option<String>,
    /// Short human title, when distinct from the description.
    pub title: Option<String>,
    pub description: String,
    pub severity: Severity,
    pub categories: Vec<String>,
    pub location: Location,
    /// Stable identity across runs.
    pub fingerprint: Option<String>,
    /// Remediation guidance.
    pub help: Option<String>,
    pub links: Vec<String>,
    pub identifiers: Vec<Identifier>,
    /// The affected component, for a finding about a dependency.
    pub component: Option<Component>,
}

/// The content of a [`Finding`].
pub struct FindingView {
    pub rule_id: Option<Seq<char>>,
    pub title: Option<Seq<char>>,
    pub description: Seq<char>,
    pub severity: Severity,
    pub categories: Seq<Seq<char>>,
    pub location: LocationView,
    pub fingerprint: Option<Seq<char>>,
    pub help: Option<Seq<char>>,
    pub links: Seq<Seq<char>>,
    pub identifiers: Seq<IdentifierView>,
    pub component: Option<ComponentView>,
}

impl DeepView for Finding {
    type V = FindingView;

    open spec fn deep_view(&self) -> FindingView {
        FindingView {
            rule_id: self.rule_id.deep_view(),
            title: self.title.deep_view(),
            description: self.description.deep_view(),
            severity: self.severity.deep_view(),
            categories: self.categories.deep_view(),
            location: self.location.deep_view(),
            fingerprint: self.fingerprint.deep_view(),
            help: self.help.deep_view(),
            links: self.links.deep_view(),
            identifiers: self.identifiers.deep_view(),
            component: self.component.deep_view(),
        }
    }
}

impl Value for Finding {
    fn copy(&self) -> (r: Self) {
        Finding {
            rule_id: self.rule_id.copy(),
            title: self.title.copy(),
            description: self.description.copy(),
            severity: self.severity.copy(),
            categories: self.categories.copy(),
            location: self.location.copy(),
            fingerprint: self.fingerprint.copy(),
            help: self.help.copy(),
            links: self.links.copy(),
            identifiers: self.identifiers.copy(),
            component: self.component.copy(),
        }
    }

    fn equals(&self, other: &Self) -> (r: bool) {
        self.rule_id.equals(&other.rule_id)
            && self.title.equals(&other.title)
            && self.description.equals(&other.description)
            && self.severity.equals(&other.severity)
            && self.categories.equals(&other.categories)
            && self.location.equals(&other.location)
            && self.fingerprint.equals(&other.fingerprint)
            && self.help.equals(&other.help)
            && self.links.equals(&other.links)
            && self.identifiers.equals(&other.identifiers)
            && self.component.equals(&other.component)
    }
}

impl Clone for Finding {
    fn clone(&self) -> (r: Self)
        ensures
            r.deep_view() == self.deep_view(),
    {
        self.copy()
    }
}

/// When the analysis ran, as `yyyy-mm-ddThh:mm:ss` in UTC.
#[derive(Debug, PartialEq, Eq)]
pub struct ScanWindow {
    pub start: Option<String>,
    pub end: Option<String>,
}

/// The content of a [`ScanWindow`].
pub struct ScanWindowView {
    pub start: Option<Seq<char>>,
    pub end: Option<Seq<char>>,
}

impl DeepView for ScanWindow {
    type V = ScanWindowView;

    open spec fn deep_view(&self) -> ScanWindowView {
        ScanWindowView {
            start: self.start.deep_view(),
            end: self.end.deep_view(),
        }
    }
}

impl Value for ScanWindow {
    fn copy(&self) -> (r: Self) {
        ScanWindow {
            start: self.start.copy(),
            end: self.end.copy(),
        }
    }

    fn equals(&self, other: &Self) -> (r: bool) {
        self.start.equals(&other.start)
            && self.end.equals(&other.end)
    }
}

impl Clone for ScanWindow {
    fn clone(&self) -> (r: Self)
        ensures
            r.deep_view() == self.deep_view(),
    {
        self.copy()
    }
}

impl ScanWindowView {
    pub open spec fn empty() -> ScanWindowView {
        ScanWindowView {
            start: None,
            end: None,
        }
    }
}

impl Default for ScanWindow {
    fn default() -> (r: Self)
        ensures
            r.deep_view() == ScanWindowView::empty(),
    {
        ScanWindow {
            start: None,
            end: None,
        }
    }
}

/// A findings report.
#[derive(Debug, PartialEq, Eq)]
pub struct FindingsDoc {
    pub tool: Option<Tool>,
    pub scan: ScanWindow,
    pub findings: Vec<Finding>,
}

/// The content of a [`FindingsDoc`].
pub struct FindingsDocView {
    pub tool: Option<ToolView>,
    pub scan: ScanWindowView,
    pub findings: Seq<FindingView>,
}

impl DeepView for FindingsDoc {
    type V = FindingsDocView;

    open spec fn deep_view(&self) -> FindingsDocView {
        FindingsDocView {
            tool: self.tool.deep_view(),
            scan: self.scan.deep_view(),
            findings: self.findings.deep_view(),
        }
    }
}

impl Value for FindingsDoc {
    fn copy(&self) -> (r: Self) {
        FindingsDoc {
            tool: self.tool.copy(),
            scan: self.scan.copy(),
            findings: self.findings.copy(),
        }
    }

    fn equals(&self, other: &Self) -> (r: bool) {
        self.tool.equals(&other.tool)
            && self.scan.equals(&other.scan)
            && self.findings.equals(&other.findings)
    }
}

impl Clone for FindingsDoc {
    fn clone(&self) -> (r: Self)
        ensures
            r.deep_view() == self.deep_view(),
    {
        self.copy()
    }
}

impl FindingsDocView {
    pub open spec fn empty() -> FindingsDocView {
        FindingsDocView {
            tool: None,
            scan: ScanWindowView::empty(),
            findings: Seq::empty(),
        }
    }
}

impl Default for FindingsDoc {
    fn default() -> (r: Self)
        ensures
            r.deep_view() == FindingsDocView::empty(),
    {
        FindingsDoc {
            tool: None,
            scan: ScanWindow::default(),
            findings: empty_list(),
        }
    }
}

// ---------------------------------------------------------------------------
// Severity
// ---------------------------------------------------------------------------

pub open spec fn severity_name(severity: Severity) -> Seq<char> {
    match severity {
        Severity::Info => "info"@,
        Severity::Minor => "minor"@,
        Severity::Major => "major"@,
        Severity::Critical => "critical"@,
        Severity::Blocker => "blocker"@,
    }
}

/// The level a word stands for: Code Climate's own vocabulary and the synonyms
/// linters emit.
pub open spec fn severity_of_word(word: Seq<char>) -> Option<Severity> {
    if word == "info"@ || word == "note"@ || word == "notice"@ || word == "ignore"@ || word
        == "low"@ || word == "informational"@ {
        Some(Severity::Info)
    } else if word == "minor"@ || word == "warning"@ || word == "warn"@ || word == "medium"@
        || word == "moderate"@ {
        Some(Severity::Minor)
    } else if word == "major"@ || word == "error"@ || word == "high"@ {
        Some(Severity::Major)
    } else if word == "critical"@ {
        Some(Severity::Critical)
    } else if word == "blocker"@ || word == "fatal"@ {
        Some(Severity::Blocker)
    } else {
        None
    }
}

pub open spec fn parse_severity(raw: Seq<char>) -> Option<Severity> {
    severity_of_word(lower(trim(raw)))
}

impl Severity {
    pub fn as_str(self) -> (r: &'static str)
        ensures
            r@ == severity_name(self),
    {
        match self {
            Severity::Info => "info",
            Severity::Minor => "minor",
            Severity::Major => "major",
            Severity::Critical => "critical",
            Severity::Blocker => "blocker",
        }
    }

    /// Tolerant parsing: case and surrounding white space play no part.
    pub fn parse(raw: &str) -> (r: Option<Severity>)
        ensures
            r == parse_severity(raw@),
    {
        let text = to_lower(trimmed(raw).as_str());
        let word = text.as_str();
        if same(word, "info") || same(word, "note") || same(word, "notice") || same(word, "ignore")
            || same(word, "low") || same(word, "informational") {
            Some(Severity::Info)
        } else if same(word, "minor") || same(word, "warning") || same(word, "warn") || same(
            word,
            "medium",
        ) || same(word, "moderate") {
            Some(Severity::Minor)
        } else if same(word, "major") || same(word, "error") || same(word, "high") {
            Some(Severity::Major)
        } else if same(word, "critical") {
            Some(Severity::Critical)
        } else if same(word, "blocker") || same(word, "fatal") {
            Some(Severity::Blocker)
        } else {
            None
        }
    }
}

/// A level's own name reads back as that level.
pub proof fn severity_names_read_back(severity: Severity)
    ensures
        parse_severity(severity_name(severity)) == Some(severity),
{
    reveal_strlit("info");
    reveal_strlit("note");
    reveal_strlit("notice");
    reveal_strlit("ignore");
    reveal_strlit("low");
    reveal_strlit("informational");
    reveal_strlit("minor");
    reveal_strlit("warning");
    reveal_strlit("warn");
    reveal_strlit("medium");
    reveal_strlit("moderate");
    reveal_strlit("major");
    reveal_strlit("error");
    reveal_strlit("high");
    reveal_strlit("critical");
    reveal_strlit("blocker");
    let name = severity_name(severity);
    assert(trim(name) == name);
    assert(lower(name) =~= name);
    match severity {
        Severity::Info => {},
        Severity::Minor => {
            assert(name[0] == 'm' && "info"@[0] == 'i' && "note"@[0] == 'n' && "notice"@[0] == 'n'
                && "ignore"@[0] == 'i' && "low"@[0] == 'l' && "informational"@[0] == 'i');
        },
        Severity::Major => {
            assert(name.len() == 5 && name[1] == 'a');
            assert("minor"@[1] == 'i');
            assert("info"@[0] == 'i' && "note"@[0] == 'n' && "notice"@[0] == 'n' && "ignore"@[0]
                == 'i' && "low"@[0] == 'l' && "informational"@[0] == 'i');
            assert("warning"@[0] == 'w' && "warn"@[0] == 'w' && "medium"@.len() == 6
                && "moderate"@.len() == 8);
        },
        Severity::Critical => {
            assert(name[0] == 'c');
            assert("minor"@[0] == 'm' && "warning"@[0] == 'w' && "warn"@[0] == 'w' && "medium"@[0]
                == 'm' && "moderate"@[0] == 'm' && "major"@[0] == 'm' && "error"@[0] == 'e'
                && "high"@[0] == 'h');
            assert("info"@[0] == 'i' && "note"@[0] == 'n' && "notice"@[0] == 'n' && "ignore"@[0]
                == 'i' && "low"@[0] == 'l' && "informational"@[0] == 'i');
        },
        Severity::Blocker => {
            assert(name[0] == 'b');
            assert("minor"@[0] == 'm' && "warning"@[0] == 'w' && "warn"@[0] == 'w' && "medium"@[0]
                == 'm' && "moderate"@[0] == 'm' && "major"@[0] == 'm' && "error"@[0] == 'e'
                && "high"@[0] == 'h' && "critical"@[0] == 'c');
            assert("info"@[0] == 'i' && "note"@[0] == 'n' && "notice"@[0] == 'n' && "ignore"@[0]
                == 'i' && "low"@[0] == 'l' && "informational"@[0] == 'i');
        },
    }
}

// ---------------------------------------------------------------------------
// Findings
// ---------------------------------------------------------------------------

impl FindingView {
    pub open spec fn of(description: Seq<char>, severity: Severity) -> FindingView {
        FindingView {
            rule_id: None,
            title: None,
            description,
            severity,
            categories: Seq::empty(),
            location: LocationView::empty(),
            fingerprint: None,
            help: None,
            links: Seq::empty(),
            identifiers: Seq::empty(),
            component: None,
        }
    }

    /// What tells this finding from others, independent of the line it is on.
    pub open spec fn identity_parts(self) -> Seq<Seq<char>> {
        match self.component {
            Some(c) => seq![
                match self.location.image {
                    Some(image) => image,
                    None => self.location.path,
                },
                c.name,
                match c.version {
                    Some(v) => v,
                    None => ""@,
                },
                match self.rule_id {
                    Some(id) => id,
                    None => self.description,
                },
            ],
            None => seq![
                self.location.path,
                match self.rule_id {
                    Some(id) => id,
                    None => ""@,
                },
                self.description,
            ],
        }
    }

    /// The finding with a fingerprint: its own, or one made of its identity.
    pub open spec fn fingerprinted(self) -> FindingView {
        match self.fingerprint {
            Some(_) => self,
            None => FindingView {
                fingerprint: Some(fingerprint_of(self.identity_parts())),
                ..self
            },
        }
    }
}

impl Finding {
    pub fn new(description: &str, severity: Severity) -> (r: Self)
        ensures
            r.deep_view() == FindingView::of(description@, severity),
    {
        Finding {
            rule_id: None,
            title: None,
            description: owned(description),
            severity,
            categories: empty_list(),
            location: Location::default(),
            fingerprint: None,
            help: None,
            links: empty_list(),
            identifiers: empty_list(),
            component: None,
        }
    }

    /// Gives the finding a fingerprint when it has none. It is made of the
    /// stable parts of the finding and does not depend on the line, so that
    /// inserting a line above an issue does not report it as new.
    pub fn ensure_fingerprint(&mut self)
        ensures
            final(self).deep_view() == old(self).deep_view().fingerprinted(),
    {
        if self.fingerprint.is_some() {
            return;
        }
        let print = match &self.component {
            Some(component) => {
                let place = text_or(&self.location.image, self.location.path.as_str());
                let version = text_or(&component.version, "");
                let rule = text_or(&self.rule_id, self.description.as_str());
                let parts = [place, component.name.as_str(), version, rule];
                proof {
                    assert(parts@.map_values(|p: &str| p@)
                        =~= self.deep_view().identity_parts());
                }
                fingerprint(&parts)
            },
            None => {
                let rule = text_or(&self.rule_id, "");
                let parts = [self.location.path.as_str(), rule, self.description.as_str()];
                proof {
                    assert(parts@.map_values(|p: &str| p@)
                        =~= self.deep_view().identity_parts());
                }
                fingerprint(&parts)
            },
        };
        self.fingerprint = Some(print);
    }
}

/// Gives every finding a fingerprint.
pub fn fingerprint_all(findings: &Vec<Finding>) -> (r: Vec<Finding>)
    ensures
        r.deep_view() == findings.deep_view().map_values(|f: FindingView| f.fingerprinted()),
{
    map_list(
        findings,
        |f: &Finding| -> (r: Finding)
            ensures
                r.deep_view() == f.deep_view().fingerprinted()
            {
                let mut finding = f.copy();
                finding.ensure_fingerprint();
                finding
            },
        Ghost(|f: FindingView| f.fingerprinted()),
    )
}

/// The fingerprint does not depend on where in the file the finding is.
pub proof fn fingerprint_is_line_independent(
    finding: FindingView,
    begin_line: Option<u32>,
    end_line: Option<u32>,
    begin_column: Option<u32>,
    end_column: Option<u32>,
)
    ensures
        ({
            let moved = FindingView {
                location: LocationView {
                    begin_line,
                    end_line,
                    begin_column,
                    end_column,
                    ..finding.location
                },
                ..finding
            };
            moved.fingerprinted().fingerprint == finding.fingerprinted().fingerprint
        }),
{
}

/// Where the component is known, the path plays no part for a finding in an
/// image.
pub proof fn component_finding_is_identified_by_component(finding: FindingView, path: Seq<char>)
    requires
        finding.component is Some,
        finding.location.image is Some,
    ensures
        ({
            let moved = FindingView {
                location: LocationView { path, ..finding.location },
                ..finding
            };
            moved.fingerprinted().fingerprint == finding.fingerprinted().fingerprint
        }),
{
    let moved = FindingView { location: LocationView { path, ..finding.location }, ..finding };
    assert(moved.identity_parts() =~= finding.identity_parts());
}

/// Giving a fingerprint twice is giving it once.
pub proof fn fingerprinting_is_idempotent(finding: FindingView)
    ensures
        finding.fingerprinted().fingerprint is Some,
        finding.fingerprinted().fingerprinted() == finding.fingerprinted(),
{
}

// ---------------------------------------------------------------------------
// Documents
// ---------------------------------------------------------------------------

pub open spec fn earlier(
    a: Option<Seq<char>>,
    b: Option<Seq<char>>,
) -> Option<Seq<char>> {
    match (a, b) {
        (Some(x), Some(y)) => if lex_lt(y, x) {
            b
        } else {
            a
        },
        (None, _) => b,
        _ => a,
    }
}

pub open spec fn later(
    a: Option<Seq<char>>,
    b: Option<Seq<char>>,
) -> Option<Seq<char>> {
    match (a, b) {
        (Some(x), Some(y)) => if lex_lt(x, y) {
            b
        } else {
            a
        },
        (None, _) => b,
        _ => a,
    }
}

fn min_time(a: &Option<String>, b: &Option<String>) -> (r: Option<String>)
    ensures
        r.deep_view() == earlier(a.deep_view(), b.deep_view()),
{
    match (a, b) {
        (Some(x), Some(y)) => if less(y.as_str(), x.as_str()) {
            b.copy()
        } else {
            a.copy()
        },
        (None, _) => b.copy(),
        _ => a.copy(),
    }
}

fn max_time(a: &Option<String>, b: &Option<String>) -> (r: Option<String>)
    ensures
        r.deep_view() == later(a.deep_view(), b.deep_view()),
{
    match (a, b) {
        (Some(x), Some(y)) => if less(x.as_str(), y.as_str()) {
            b.copy()
        } else {
            a.copy()
        },
        (None, _) => b.copy(),
        _ => a.copy(),
    }
}

/// Both documents' findings, exact duplicates once; the scan window widens.
pub open spec fn merge_docs(mine: FindingsDocView, theirs: FindingsDocView) -> FindingsDocView {
    FindingsDocView {
        tool: match mine.tool {
            Some(t) => Some(t),
            None => theirs.tool,
        },
        scan: ScanWindowView {
            start: earlier(mine.scan.start, theirs.scan.start),
            end: later(mine.scan.end, theirs.scan.end),
        },
        findings: with_all_new(mine.findings, theirs.findings),
    }
}

pub open spec fn map_finding(finding: FindingView, mapper: MapperView) -> FindingView {
    FindingView {
        location: LocationView {
            path: mapper.map(finding.location.path),
            ..finding.location
        },
        ..finding
    }
}

pub open spec fn normalize_doc(doc: FindingsDocView, mapper: MapperView) -> FindingsDocView {
    if mapper.is_noop() {
        doc
    } else {
        FindingsDocView {
            findings: doc.findings.map_values(|f: FindingView| map_finding(f, mapper)),
            ..doc
        }
    }
}

impl Ranked for Finding {
    open spec fn precedes(a: FindingView, b: FindingView) -> bool {
        if a.location.path != b.location.path {
            lex_lt(a.location.path, b.location.path)
        } else if a.location.begin_line != b.location.begin_line {
            opt_number_lt(a.location.begin_line, b.location.begin_line)
        } else if a.rule_id != b.rule_id {
            opt_text_lt(a.rule_id, b.rule_id)
        } else {
            lex_lt(a.description, b.description)
        }
    }

    fn goes_before(&self, other: &Self) -> (r: bool) {
        if !self.location.path.equals(&other.location.path) {
            less(self.location.path.as_str(), other.location.path.as_str())
        } else if !self.location.begin_line.equals(&other.location.begin_line) {
            opt_number_less(self.location.begin_line, other.location.begin_line)
        } else if !self.rule_id.equals(&other.rule_id) {
            opt_text_less(&self.rule_id, &other.rule_id)
        } else {
            less(self.description.as_str(), other.description.as_str())
        }
    }

    proof fn order_laws(a: FindingView, b: FindingView, c: FindingView) {
        lex_laws(a.location.path, b.location.path, c.location.path);
        lex_laws(a.description, b.description, c.description);
        opt_text_laws(a.rule_id, b.rule_id, c.rule_id);
        opt_text_laws(b.rule_id, c.rule_id, a.rule_id);
        opt_text_laws(a.rule_id, c.rule_id, b.rule_id);
        lex_lt_total(a.location.path, b.location.path);
        lex_lt_total(b.location.path, c.location.path);
        lex_lt_total(a.location.path, c.location.path);
        lex_laws(b.location.path, c.location.path, a.location.path);
        lex_laws(c.location.path, a.location.path, b.location.path);
        lex_laws(c.location.path, b.location.path, a.location.path);
        lex_laws(b.location.path, a.location.path, c.location.path);
    }
}

pub open spec fn sort_doc(doc: FindingsDocView) -> FindingsDocView {
    FindingsDocView { findings: sorted::<Finding>(doc.findings), ..doc }
}

impl FindingsDoc {
    /// Concatenates, dropping exact duplicates.
    pub fn merge(&mut self, other: FindingsDoc)
        ensures
            final(self).deep_view() == merge_docs(old(self).deep_view(), other.deep_view()),
    {
        let start = min_time(&self.scan.start, &other.scan.start);
        let end = max_time(&self.scan.end, &other.scan.end);
        if self.tool.is_none() {
            self.tool = other.tool;
        }
        self.scan = ScanWindow { start, end };
        add_all_new(&mut self.findings, other.findings);
    }

    /// Rewrites every path.
    pub fn normalize_paths(&mut self, mapper: &PathMapper)
        ensures
            final(self).deep_view() == normalize_doc(old(self).deep_view(), mapper@),
    {
        if mapper.is_noop() {
            return;
        }
        let ghost all = self.findings.deep_view();
        let ghost goal = all.map_values(|f: FindingView| map_finding(f, mapper@));
        let mut out: Vec<Finding> = empty_list();
        let mut i: usize = 0;
        while i < self.findings.len()
            invariant
                i <= self.findings@.len(),
                all == self.findings.deep_view(),
                goal == all.map_values(|f: FindingView| map_finding(f, mapper@)),
                out.deep_view() == goal.take(i as int),
            decreases self.findings@.len() - i,
        {
            let mut finding = self.findings[i].copy();
            let mut location = finding.location.copy();
            location.path = mapper.map(location.path.as_str());
            finding.location = location;
            append_one(&mut out, finding);
            i = i + 1;
            assert(out.deep_view() =~= goal.take(i as int));
        }
        assert(out.deep_view() =~= goal);
        self.findings = out;
    }

    /// Deterministic ordering, so a conversion is byte-stable across runs.
    pub fn sort(&mut self)
        ensures
            final(self).deep_view() == sort_doc(old(self).deep_view()),
    {
        sort(&mut self.findings);
    }
}

/// Merging keeps every finding of both documents, adds none, keeps the order of
/// the first, and brings in no duplicate.
pub proof fn merge_keeps_every_finding(mine: FindingsDocView, theirs: FindingsDocView)
    ensures
        ({
            let all = merge_docs(mine, theirs).findings;
            &&& all.take(mine.findings.len() as int) == mine.findings
            &&& forall|f: FindingView| #[trigger]
                all.contains(f) <==> mine.findings.contains(f) || theirs.findings.contains(f)
            &&& mine.findings.no_duplicates() ==> all.no_duplicates()
        }),
{
    with_all_new_props(mine.findings, theirs.findings);
}

/// Sorting rearranges the findings, leaves them in order, and a second sort
/// changes nothing.
pub proof fn sort_is_stable_across_runs(doc: FindingsDocView)
    ensures
        sort_doc(doc).findings.to_multiset() == doc.findings.to_multiset(),
        sort_doc(sort_doc(doc)) == sort_doc(doc),
{
    sorted_props::<Finding>(doc.findings);
    sorted_fixpoint::<Finding>(sorted::<Finding>(doc.findings));
}

} // verus!
