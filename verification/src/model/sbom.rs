//! Pivot model for software bills of materials: what a component is, how it is
//! identified, what it is licensed under, and what it depends on. What CycloneDX
//! and SPDX say beyond that, such as evidence, a pedigree, a formulation,
//! annotations and finer relationships, is reported as lost.

use vstd::prelude::*;

use crate::order::{lex_laws, sort, sorted, Ranked};
use crate::paths::{MapperView, PathMapper};
use crate::text::{
    chars, concat, concat3, concat4, debug, debug_text, is_white, less, lex_lt, lower, owned,
    parse_u32, parse_u32_spec, pieces, same, split, to_lower, to_upper_char, trim, trim_end,
    trim_start, trimmed, upper_char,
};
use crate::value::{
    add_all_new, add_new, append_one, empty_list, replace_at, with_all_new, with_new, Value,
};

verus! {

/// What a component is, in CycloneDX's vocabulary.
#[derive(Debug, Clone, Copy, PartialEq, Eq, Structural)]
pub enum ComponentKind {
    Application,
    Framework,
    Library,
    Container,
    Platform,
    OperatingSystem,
    Device,
    DeviceDriver,
    Firmware,
    File,
    MachineLearningModel,
    Data,
    CryptographicAsset,
}

impl DeepView for ComponentKind {
    type V = ComponentKind;

    open spec fn deep_view(&self) -> ComponentKind {
        *self
    }
}

impl Value for ComponentKind {
    fn copy(&self) -> (r: Self) {
        *self
    }

    fn equals(&self, other: &Self) -> (r: bool) {
        *self == *other
    }
}

impl Default for ComponentKind {
    fn default() -> (r: Self)
        ensures
            r == ComponentKind::Library,
    {
        ComponentKind::Library
    }
}

/// A licence, in whichever of the three shapes the source used: an expression
/// is a choice, an identifier is a claim.
#[derive(Debug, PartialEq, Eq)]
pub enum License {
    /// An SPDX licence identifier, e.g. `Apache-2.0`.
    Id(String),
    /// A licence named in prose, when it has no SPDX id.
    Name(String),
    /// An SPDX licence expression, e.g. `MIT OR Apache-2.0`.
    Expression(String),
}

/// The content of a [`License`].
pub enum LicenseView {
    Id(Seq<char>),
    Name(Seq<char>),
    Expression(Seq<char>),
}

impl DeepView for License {
    type V = LicenseView;

    open spec fn deep_view(&self) -> LicenseView {
        match *self {
            License::Id(s) => LicenseView::Id(s@),
            License::Name(s) => LicenseView::Name(s@),
            License::Expression(s) => LicenseView::Expression(s@),
        }
    }
}

impl Value for License {
    fn copy(&self) -> (r: Self) {
        match self {
            License::Id(s) => License::Id(s.copy()),
            License::Name(s) => License::Name(s.copy()),
            License::Expression(s) => License::Expression(s.copy()),
        }
    }

    fn equals(&self, other: &Self) -> (r: bool) {
        match (self, other) {
            (License::Id(a), License::Id(b)) => a.equals(b),
            (License::Name(a), License::Name(b)) => a.equals(b),
            (License::Expression(a), License::Expression(b)) => a.equals(b),
            _ => false,
        }
    }
}

impl Clone for License {
    fn clone(&self) -> (r: Self)
        ensures
            r.deep_view() == self.deep_view(),
    {
        self.copy()
    }
}

/// A digest of a component.
#[derive(Debug, PartialEq, Eq)]
pub struct Hash {
    /// Algorithm name, canonicalized on the way in. The formats disagree on the
    /// spelling: there is one spelling here, CycloneDX's, and each writer
    /// renders its own.
    pub algorithm: String,
    pub value: String,
}

/// The content of a [`Hash`].
pub struct HashView {
    pub algorithm: Seq<char>,
    pub value: Seq<char>,
}

impl DeepView for Hash {
    type V = HashView;

    open spec fn deep_view(&self) -> HashView {
        HashView {
            algorithm: self.algorithm.deep_view(),
            value: self.value.deep_view(),
        }
    }
}

impl Value for Hash {
    fn copy(&self) -> (r: Self) {
        Hash {
            algorithm: self.algorithm.copy(),
            value: self.value.copy(),
        }
    }

    fn equals(&self, other: &Self) -> (r: bool) {
        self.algorithm.equals(&other.algorithm)
            && self.value.equals(&other.value)
    }
}

impl Clone for Hash {
    fn clone(&self) -> (r: Self)
        ensures
            r.deep_view() == self.deep_view(),
    {
        self.copy()
    }
}

/// A pointer to something outside the document.
#[derive(Debug, PartialEq, Eq)]
pub struct ExternalReference {
    pub kind: String,
    pub url: String,
    pub comment: Option<String>,
}

/// The content of a [`ExternalReference`].
pub struct ExternalReferenceView {
    pub kind: Seq<char>,
    pub url: Seq<char>,
    pub comment: Option<Seq<char>>,
}

impl DeepView for ExternalReference {
    type V = ExternalReferenceView;

    open spec fn deep_view(&self) -> ExternalReferenceView {
        ExternalReferenceView {
            kind: self.kind.deep_view(),
            url: self.url.deep_view(),
            comment: self.comment.deep_view(),
        }
    }
}

impl Value for ExternalReference {
    fn copy(&self) -> (r: Self) {
        ExternalReference {
            kind: self.kind.copy(),
            url: self.url.copy(),
            comment: self.comment.copy(),
        }
    }

    fn equals(&self, other: &Self) -> (r: bool) {
        self.kind.equals(&other.kind)
            && self.url.equals(&other.url)
            && self.comment.equals(&other.comment)
    }
}

impl Clone for ExternalReference {
    fn clone(&self) -> (r: Self)
        ensures
            r.deep_view() == self.deep_view(),
    {
        self.copy()
    }
}

/// One component of a bill of materials.
#[derive(Debug, PartialEq, Eq)]
pub struct Component {
    /// Identifier other entries point at.
    pub bom_ref: Option<String>,
    pub kind: ComponentKind,
    pub name: String,
    pub version: Option<String>,
    pub group: Option<String>,
    /// Package URL, the identifier that survives every conversion.
    pub purl: Option<String>,
    pub cpe: Option<String>,
    pub description: Option<String>,
    pub scope: Option<String>,
    pub author: Option<String>,
    pub publisher: Option<String>,
    pub supplier: Option<String>,
    pub copyright: Option<String>,
    pub licenses: Vec<License>,
    pub hashes: Vec<Hash>,
    pub external_references: Vec<ExternalReference>,
}

/// The content of a [`Component`].
pub struct ComponentView {
    pub bom_ref: Option<Seq<char>>,
    pub kind: ComponentKind,
    pub name: Seq<char>,
    pub version: Option<Seq<char>>,
    pub group: Option<Seq<char>>,
    pub purl: Option<Seq<char>>,
    pub cpe: Option<Seq<char>>,
    pub description: Option<Seq<char>>,
    pub scope: Option<Seq<char>>,
    pub author: Option<Seq<char>>,
    pub publisher: Option<Seq<char>>,
    pub supplier: Option<Seq<char>>,
    pub copyright: Option<Seq<char>>,
    pub licenses: Seq<LicenseView>,
    pub hashes: Seq<HashView>,
    pub external_references: Seq<ExternalReferenceView>,
}

impl DeepView for Component {
    type V = ComponentView;

    open spec fn deep_view(&self) -> ComponentView {
        ComponentView {
            bom_ref: self.bom_ref.deep_view(),
            kind: self.kind.deep_view(),
            name: self.name.deep_view(),
            version: self.version.deep_view(),
            group: self.group.deep_view(),
            purl: self.purl.deep_view(),
            cpe: self.cpe.deep_view(),
            description: self.description.deep_view(),
            scope: self.scope.deep_view(),
            author: self.author.deep_view(),
            publisher: self.publisher.deep_view(),
            supplier: self.supplier.deep_view(),
            copyright: self.copyright.deep_view(),
            licenses: self.licenses.deep_view(),
            hashes: self.hashes.deep_view(),
            external_references: self.external_references.deep_view(),
        }
    }
}

impl Value for Component {
    fn copy(&self) -> (r: Self) {
        Component {
            bom_ref: self.bom_ref.copy(),
            kind: self.kind.copy(),
            name: self.name.copy(),
            version: self.version.copy(),
            group: self.group.copy(),
            purl: self.purl.copy(),
            cpe: self.cpe.copy(),
            description: self.description.copy(),
            scope: self.scope.copy(),
            author: self.author.copy(),
            publisher: self.publisher.copy(),
            supplier: self.supplier.copy(),
            copyright: self.copyright.copy(),
            licenses: self.licenses.copy(),
            hashes: self.hashes.copy(),
            external_references: self.external_references.copy(),
        }
    }

    fn equals(&self, other: &Self) -> (r: bool) {
        self.bom_ref.equals(&other.bom_ref)
            && self.kind.equals(&other.kind)
            && self.name.equals(&other.name)
            && self.version.equals(&other.version)
            && self.group.equals(&other.group)
            && self.purl.equals(&other.purl)
            && self.cpe.equals(&other.cpe)
            && self.description.equals(&other.description)
            && self.scope.equals(&other.scope)
            && self.author.equals(&other.author)
            && self.publisher.equals(&other.publisher)
            && self.supplier.equals(&other.supplier)
            && self.copyright.equals(&other.copyright)
            && self.licenses.equals(&other.licenses)
            && self.hashes.equals(&other.hashes)
            && self.external_references.equals(&other.external_references)
    }
}

impl Clone for Component {
    fn clone(&self) -> (r: Self)
        ensures
            r.deep_view() == self.deep_view(),
    {
        self.copy()
    }
}

impl ComponentView {
    pub open spec fn empty() -> ComponentView {
        ComponentView {
            bom_ref: None,
            kind: ComponentKind::Library,
            name: Seq::empty(),
            version: None,
            group: None,
            purl: None,
            cpe: None,
            description: None,
            scope: None,
            author: None,
            publisher: None,
            supplier: None,
            copyright: None,
            licenses: Seq::empty(),
            hashes: Seq::empty(),
            external_references: Seq::empty(),
        }
    }
}

impl Default for Component {
    fn default() -> (r: Self)
        ensures
            r.deep_view() == ComponentView::empty(),
    {
        Component {
            bom_ref: None,
            kind: ComponentKind::default(),
            name: String::new(),
            version: None,
            group: None,
            purl: None,
            cpe: None,
            description: None,
            scope: None,
            author: None,
            publisher: None,
            supplier: None,
            copyright: None,
            licenses: empty_list(),
            hashes: empty_list(),
            external_references: empty_list(),
        }
    }
}

/// One edge of the dependency graph: `bom_ref` depends on each of `depends_on`.
#[derive(Debug, PartialEq, Eq)]
pub struct Dependency {
    pub bom_ref: String,
    pub depends_on: Vec<String>,
}

/// The content of a [`Dependency`].
pub struct DependencyView {
    pub bom_ref: Seq<char>,
    pub depends_on: Seq<Seq<char>>,
}

impl DeepView for Dependency {
    type V = DependencyView;

    open spec fn deep_view(&self) -> DependencyView {
        DependencyView {
            bom_ref: self.bom_ref.deep_view(),
            depends_on: self.depends_on.deep_view(),
        }
    }
}

impl Value for Dependency {
    fn copy(&self) -> (r: Self) {
        Dependency {
            bom_ref: self.bom_ref.copy(),
            depends_on: self.depends_on.copy(),
        }
    }

    fn equals(&self, other: &Self) -> (r: bool) {
        self.bom_ref.equals(&other.bom_ref)
            && self.depends_on.equals(&other.depends_on)
    }
}

impl Clone for Dependency {
    fn clone(&self) -> (r: Self)
        ensures
            r.deep_view() == self.deep_view(),
    {
        self.copy()
    }
}

impl DependencyView {
    pub open spec fn empty() -> DependencyView {
        DependencyView {
            bom_ref: Seq::empty(),
            depends_on: Seq::empty(),
        }
    }
}

impl Default for Dependency {
    fn default() -> (r: Self)
        ensures
            r.deep_view() == DependencyView::empty(),
    {
        Dependency {
            bom_ref: String::new(),
            depends_on: empty_list(),
        }
    }
}

/// A tool that took part in making the document.
#[derive(Debug, PartialEq, Eq)]
pub struct Tool {
    pub name: String,
    pub version: Option<String>,
    pub vendor: Option<String>,
}

/// The content of a [`Tool`].
pub struct ToolView {
    pub name: Seq<char>,
    pub version: Option<Seq<char>>,
    pub vendor: Option<Seq<char>>,
}

impl DeepView for Tool {
    type V = ToolView;

    open spec fn deep_view(&self) -> ToolView {
        ToolView {
            name: self.name.deep_view(),
            version: self.version.deep_view(),
            vendor: self.vendor.deep_view(),
        }
    }
}

impl Value for Tool {
    fn copy(&self) -> (r: Self) {
        Tool {
            name: self.name.copy(),
            version: self.version.copy(),
            vendor: self.vendor.copy(),
        }
    }

    fn equals(&self, other: &Self) -> (r: bool) {
        self.name.equals(&other.name)
            && self.version.equals(&other.version)
            && self.vendor.equals(&other.vendor)
    }
}

impl Clone for Tool {
    fn clone(&self) -> (r: Self)
        ensures
            r.deep_view() == self.deep_view(),
    {
        self.copy()
    }
}

impl ToolView {
    pub open spec fn empty() -> ToolView {
        ToolView {
            name: Seq::empty(),
            version: None,
            vendor: None,
        }
    }
}

impl Default for Tool {
    fn default() -> (r: Self)
        ensures
            r.deep_view() == ToolView::empty(),
    {
        Tool {
            name: String::new(),
            version: None,
            vendor: None,
        }
    }
}

/// The format family a document came from, and the spec version it declared.
#[derive(Debug, PartialEq, Eq)]
pub struct SpecOrigin {
    pub family: String,
    pub version: String,
}

/// The content of a [`SpecOrigin`].
pub struct SpecOriginView {
    pub family: Seq<char>,
    pub version: Seq<char>,
}

impl DeepView for SpecOrigin {
    type V = SpecOriginView;

    open spec fn deep_view(&self) -> SpecOriginView {
        SpecOriginView {
            family: self.family.deep_view(),
            version: self.version.deep_view(),
        }
    }
}

impl Value for SpecOrigin {
    fn copy(&self) -> (r: Self) {
        SpecOrigin {
            family: self.family.copy(),
            version: self.version.copy(),
        }
    }

    fn equals(&self, other: &Self) -> (r: bool) {
        self.family.equals(&other.family)
            && self.version.equals(&other.version)
    }
}

impl Clone for SpecOrigin {
    fn clone(&self) -> (r: Self)
        ensures
            r.deep_view() == self.deep_view(),
    {
        self.copy()
    }
}

/// A bill of materials.
#[derive(Debug, PartialEq, Eq)]
pub struct SbomDoc {
    /// Where the document came from, and in which spec version.
    pub spec: Option<SpecOrigin>,
    /// Identity of this particular document, as the source expressed it.
    pub document_id: Option<String>,
    /// Revision of this serial number, 1 for a first issue.
    pub version: Option<u32>,
    pub timestamp: Option<String>,
    pub tools: Vec<Tool>,
    /// What the document is about, as opposed to what it lists.
    pub subject: Option<Component>,
    pub components: Vec<Component>,
    pub dependencies: Vec<Dependency>,
}

/// The content of a [`SbomDoc`].
pub struct SbomDocView {
    pub spec: Option<SpecOriginView>,
    pub document_id: Option<Seq<char>>,
    pub version: Option<u32>,
    pub timestamp: Option<Seq<char>>,
    pub tools: Seq<ToolView>,
    pub subject: Option<ComponentView>,
    pub components: Seq<ComponentView>,
    pub dependencies: Seq<DependencyView>,
}

impl DeepView for SbomDoc {
    type V = SbomDocView;

    open spec fn deep_view(&self) -> SbomDocView {
        SbomDocView {
            spec: self.spec.deep_view(),
            document_id: self.document_id.deep_view(),
            version: self.version.deep_view(),
            timestamp: self.timestamp.deep_view(),
            tools: self.tools.deep_view(),
            subject: self.subject.deep_view(),
            components: self.components.deep_view(),
            dependencies: self.dependencies.deep_view(),
        }
    }
}

impl Value for SbomDoc {
    fn copy(&self) -> (r: Self) {
        SbomDoc {
            spec: self.spec.copy(),
            document_id: self.document_id.copy(),
            version: self.version.copy(),
            timestamp: self.timestamp.copy(),
            tools: self.tools.copy(),
            subject: self.subject.copy(),
            components: self.components.copy(),
            dependencies: self.dependencies.copy(),
        }
    }

    fn equals(&self, other: &Self) -> (r: bool) {
        self.spec.equals(&other.spec)
            && self.document_id.equals(&other.document_id)
            && self.version.equals(&other.version)
            && self.timestamp.equals(&other.timestamp)
            && self.tools.equals(&other.tools)
            && self.subject.equals(&other.subject)
            && self.components.equals(&other.components)
            && self.dependencies.equals(&other.dependencies)
    }
}

impl Clone for SbomDoc {
    fn clone(&self) -> (r: Self)
        ensures
            r.deep_view() == self.deep_view(),
    {
        self.copy()
    }
}

impl SbomDocView {
    pub open spec fn empty() -> SbomDocView {
        SbomDocView {
            spec: None,
            document_id: None,
            version: None,
            timestamp: None,
            tools: Seq::empty(),
            subject: None,
            components: Seq::empty(),
            dependencies: Seq::empty(),
        }
    }
}

impl Default for SbomDoc {
    fn default() -> (r: Self)
        ensures
            r.deep_view() == SbomDocView::empty(),
    {
        SbomDoc {
            spec: None,
            document_id: None,
            version: None,
            timestamp: None,
            tools: empty_list(),
            subject: None,
            components: empty_list(),
            dependencies: empty_list(),
        }
    }
}

// ---------------------------------------------------------------------------
// Component kinds
// ---------------------------------------------------------------------------

pub open spec fn kind_name(kind: ComponentKind) -> Seq<char> {
    match kind {
        ComponentKind::Application => "application"@,
        ComponentKind::Framework => "framework"@,
        ComponentKind::Library => "library"@,
        ComponentKind::Container => "container"@,
        ComponentKind::Platform => "platform"@,
        ComponentKind::OperatingSystem => "operating-system"@,
        ComponentKind::Device => "device"@,
        ComponentKind::DeviceDriver => "device-driver"@,
        ComponentKind::Firmware => "firmware"@,
        ComponentKind::File => "file"@,
        ComponentKind::MachineLearningModel => "machine-learning-model"@,
        ComponentKind::Data => "data"@,
        ComponentKind::CryptographicAsset => "cryptographic-asset"@,
    }
}

pub open spec fn kind_of_word(word: Seq<char>) -> Option<ComponentKind> {
    if word == "application"@ {
        Some(ComponentKind::Application)
    } else if word == "framework"@ {
        Some(ComponentKind::Framework)
    } else if word == "library"@ {
        Some(ComponentKind::Library)
    } else if word == "container"@ {
        Some(ComponentKind::Container)
    } else if word == "platform"@ {
        Some(ComponentKind::Platform)
    } else if word == "operating-system"@ {
        Some(ComponentKind::OperatingSystem)
    } else if word == "device"@ {
        Some(ComponentKind::Device)
    } else if word == "device-driver"@ {
        Some(ComponentKind::DeviceDriver)
    } else if word == "firmware"@ {
        Some(ComponentKind::Firmware)
    } else if word == "file"@ {
        Some(ComponentKind::File)
    } else if word == "machine-learning-model"@ {
        Some(ComponentKind::MachineLearningModel)
    } else if word == "data"@ {
        Some(ComponentKind::Data)
    } else if word == "cryptographic-asset"@ {
        Some(ComponentKind::CryptographicAsset)
    } else {
        None
    }
}

pub open spec fn parse_kind(raw: Seq<char>) -> Option<ComponentKind> {
    kind_of_word(lower(trim(raw)))
}

/// The CycloneDX spec version a kind first appeared in.
pub open spec fn kind_since(kind: ComponentKind) -> Seq<char> {
    match kind {
        ComponentKind::Platform => "1.5"@,
        ComponentKind::DeviceDriver => "1.5"@,
        ComponentKind::MachineLearningModel => "1.5"@,
        ComponentKind::Data => "1.5"@,
        ComponentKind::CryptographicAsset => "1.6"@,
        _ => "1.0"@,
    }
}

/// The kind, or `library` where the version does not know it, and whether that
/// narrowed it.
pub open spec fn narrowed(kind: ComponentKind, version: Seq<char>) -> (ComponentKind, bool) {
    if at_least(version, kind_since(kind)) {
        (kind, false)
    } else {
        (ComponentKind::Library, true)
    }
}

impl ComponentKind {
    pub fn as_str(self) -> (r: &'static str)
        ensures
            r@ == kind_name(self),
    {
        match self {
            ComponentKind::Application => "application",
            ComponentKind::Framework => "framework",
            ComponentKind::Library => "library",
            ComponentKind::Container => "container",
            ComponentKind::Platform => "platform",
            ComponentKind::OperatingSystem => "operating-system",
            ComponentKind::Device => "device",
            ComponentKind::DeviceDriver => "device-driver",
            ComponentKind::Firmware => "firmware",
            ComponentKind::File => "file",
            ComponentKind::MachineLearningModel => "machine-learning-model",
            ComponentKind::Data => "data",
            ComponentKind::CryptographicAsset => "cryptographic-asset",
        }
    }

    pub fn parse(raw: &str) -> (r: Option<ComponentKind>)
        ensures
            r == parse_kind(raw@),
    {
        let text = to_lower(trimmed(raw).as_str());
        let word = text.as_str();
        if same(word, "application") {
            Some(ComponentKind::Application)
        } else if same(word, "framework") {
            Some(ComponentKind::Framework)
        } else if same(word, "library") {
            Some(ComponentKind::Library)
        } else if same(word, "container") {
            Some(ComponentKind::Container)
        } else if same(word, "platform") {
            Some(ComponentKind::Platform)
        } else if same(word, "operating-system") {
            Some(ComponentKind::OperatingSystem)
        } else if same(word, "device") {
            Some(ComponentKind::Device)
        } else if same(word, "device-driver") {
            Some(ComponentKind::DeviceDriver)
        } else if same(word, "firmware") {
            Some(ComponentKind::Firmware)
        } else if same(word, "file") {
            Some(ComponentKind::File)
        } else if same(word, "machine-learning-model") {
            Some(ComponentKind::MachineLearningModel)
        } else if same(word, "data") {
            Some(ComponentKind::Data)
        } else if same(word, "cryptographic-asset") {
            Some(ComponentKind::CryptographicAsset)
        } else {
            None
        }
    }

    fn since(self) -> (r: &'static str)
        ensures
            r@ == kind_since(self),
    {
        match self {
            ComponentKind::Platform => "1.5",
            ComponentKind::DeviceDriver => "1.5",
            ComponentKind::MachineLearningModel => "1.5",
            ComponentKind::Data => "1.5",
            ComponentKind::CryptographicAsset => "1.6",
            _ => "1.0",
        }
    }

    /// This kind, or the nearest one `spec_version` knows. A kind that an older
    /// schema does not define would invalidate the whole document.
    pub fn narrow_to(self, spec_version: &str) -> (r: (ComponentKind, bool))
        ensures
            r == narrowed(self, spec_version@),
    {
        if version_at_least(spec_version, self.since()) {
            (self, false)
        } else {
            (ComponentKind::Library, true)
        }
    }
}

// ---------------------------------------------------------------------------
// Versions
// ---------------------------------------------------------------------------

pub open spec fn version_part(part: Seq<char>) -> u32 {
    match parse_u32_spec(part) {
        Some(n) => n,
        None => 0,
    }
}

/// The numeric parts of a version; what is no number counts as 0.
pub open spec fn version_parts(version: Seq<char>) -> Seq<u32> {
    split(version, '.').map_values(|p: Seq<char>| version_part(p))
}

/// Part `i`, 0 behind the end.
pub open spec fn part_at(parts: Seq<u32>, i: int) -> u32 {
    if 0 <= i < parts.len() {
        parts[i]
    } else {
        0
    }
}

/// Whether `a` is no smaller than `b` from part `i` on.
pub open spec fn no_smaller_from(a: Seq<u32>, b: Seq<u32>, i: nat) -> bool
    decreases a.len() + b.len() - i,
{
    if i >= a.len() && i >= b.len() {
        true
    } else if part_at(a, i as int) != part_at(b, i as int) {
        part_at(a, i as int) > part_at(b, i as int)
    } else {
        no_smaller_from(a, b, i + 1)
    }
}

/// Versions compare part by part as numbers: `1.10` comes behind `1.5`.
pub open spec fn at_least(candidate: Seq<char>, minimum: Seq<char>) -> bool {
    no_smaller_from(version_parts(candidate), version_parts(minimum), 0)
}

fn numeric_parts(version: &str) -> (r: Vec<u32>)
    ensures
        r@ == version_parts(version@),
{
    let parts = pieces(version, '.');
    let ghost goal = version_parts(version@);
    let mut out: Vec<u32> = Vec::new();
    let mut i: usize = 0;
    while i < parts.len()
        invariant
            i <= parts@.len(),
            goal == version_parts(version@),
            parts.deep_view() == split(version@, '.'),
            out@ == goal.take(i as int),
        decreases parts@.len() - i,
    {
        let n: u32 = match parse_u32(parts[i].as_str()) {
            Some(n) => n,
            None => 0,
        };
        assert(goal[i as int] == version_part(parts.deep_view()[i as int]));
        out.push(n);
        i = i + 1;
        assert(out@ =~= goal.take(i as int));
    }
    assert(out@ =~= goal);
    out
}

pub fn version_at_least(candidate: &str, minimum: &str) -> (r: bool)
    ensures
        r == at_least(candidate@, minimum@),
{
    let a = numeric_parts(candidate);
    let b = numeric_parts(minimum);
    let mut i: usize = 0;
    while i < a.len() || i < b.len()
        invariant
            i <= a@.len() || i <= b@.len(),
            a@ == version_parts(candidate@),
            b@ == version_parts(minimum@),
            at_least(candidate@, minimum@) == no_smaller_from(a@, b@, i as nat),
        decreases a@.len() + b@.len() - i,
    {
        let left: u32 = if i < a.len() {
            a[i]
        } else {
            0
        };
        let right: u32 = if i < b.len() {
            b[i]
        } else {
            0
        };
        if left != right {
            return left > right;
        }
        i = i + 1;
    }
    true
}

proof fn no_smaller_reflexive(a: Seq<u32>, i: nat)
    ensures
        no_smaller_from(a, a, i),
    decreases a.len() - i,
{
    if i < a.len() {
        no_smaller_reflexive(a, i + 1);
    }
}

proof fn no_smaller_total(a: Seq<u32>, b: Seq<u32>, i: nat)
    ensures
        no_smaller_from(a, b, i) || no_smaller_from(b, a, i),
    decreases a.len() + b.len() - i,
{
    if i < a.len() || i < b.len() {
        no_smaller_total(a, b, i + 1);
    }
}

proof fn no_smaller_behind_end(a: Seq<u32>, b: Seq<u32>, i: nat)
    requires
        i >= b.len(),
    ensures
        no_smaller_from(a, b, i),
    decreases a.len() + b.len() - i,
{
    if i < a.len() {
        no_smaller_behind_end(a, b, i + 1);
    }
}

proof fn no_smaller_transitive(a: Seq<u32>, b: Seq<u32>, c: Seq<u32>, i: nat)
    requires
        no_smaller_from(a, b, i),
        no_smaller_from(b, c, i),
    ensures
        no_smaller_from(a, c, i),
    decreases a.len() + b.len() + c.len() - i,
{
    if i >= c.len() {
        no_smaller_behind_end(a, c, i);
    } else if part_at(a, i as int) == part_at(b, i as int) && part_at(b, i as int) == part_at(
        c,
        i as int,
    ) {
        if i >= a.len() && i >= b.len() {
            // Both ended: `c` holds nothing but zeros from here on.
            ended_versions_agree(a, b, c, i);
        } else {
            no_smaller_transitive(a, b, c, i + 1);
        }
    }
}

proof fn ended_versions_agree(a: Seq<u32>, b: Seq<u32>, c: Seq<u32>, i: nat)
    requires
        i >= a.len(),
        i >= b.len(),
        no_smaller_from(b, c, i),
    ensures
        no_smaller_from(a, c, i),
    decreases c.len() - i,
{
    if i < c.len() && part_at(c, i as int) == 0 {
        ended_versions_agree(a, b, c, i + 1);
    }
}

/// The comparison of versions is a total preorder.
pub proof fn version_order_laws(a: Seq<char>, b: Seq<char>, c: Seq<char>)
    ensures
        at_least(a, a),
        at_least(a, b) || at_least(b, a),
        at_least(a, b) && at_least(b, c) ==> at_least(a, c),
{
    no_smaller_reflexive(version_parts(a), 0);
    no_smaller_total(version_parts(a), version_parts(b), 0);
    if at_least(a, b) && at_least(b, c) {
        no_smaller_transitive(version_parts(a), version_parts(b), version_parts(c), 0);
    }
}

/// The name of a kind reads as that kind.
pub proof fn kind_names_read_back(kind: ComponentKind)
    ensures
        parse_kind(kind_name(kind)) == Some(kind),
{
    reveal_strlit("application");
    reveal_strlit("framework");
    reveal_strlit("library");
    reveal_strlit("container");
    reveal_strlit("platform");
    reveal_strlit("operating-system");
    reveal_strlit("device");
    reveal_strlit("device-driver");
    reveal_strlit("firmware");
    reveal_strlit("file");
    reveal_strlit("machine-learning-model");
    reveal_strlit("data");
    reveal_strlit("cryptographic-asset");
    let name = kind_name(kind);
    assert(trim(name) == name);
    assert(lower(name) =~= name);
    assert("application"@.len() == 11 && "framework"@.len() == 9 && "library"@.len() == 7);
    assert("container"@.len() == 9 && "container"@[0] == 'c' && "framework"@[0] == 'f');
    assert("platform"@.len() == 8 && "firmware"@.len() == 8 && "firmware"@[0] == 'f');
    assert("platform"@[0] == 'p' && "operating-system"@.len() == 16 && "device"@.len() == 6);
    assert("device-driver"@.len() == 13 && "file"@.len() == 4 && "file"@[0] == 'f');
    assert("data"@.len() == 4 && "data"@[0] == 'd' && "machine-learning-model"@.len() == 22);
    assert("cryptographic-asset"@.len() == 19);
}

/// A version that knows a kind writes it as it is, and so does every later one.
pub proof fn later_versions_know_more(kind: ComponentKind, version: Seq<char>, later: Seq<char>)
    requires
        !narrowed(kind, version).1,
        at_least(later, version),
    ensures
        narrowed(kind, version).0 == kind,
        narrowed(kind, later) == (kind, false),
{
    version_order_laws(later, version, kind_since(kind));
}

// ---------------------------------------------------------------------------
// Hashes
// ---------------------------------------------------------------------------

pub open spec fn upper(s: Seq<char>) -> Seq<char> {
    s.map_values(|c: char| upper_char(c))
}

fn to_upper(s: &str) -> (r: String)
    ensures
        r@ == upper(s@),
{
    let cs = chars(s);
    let mut out = String::new();
    let mut i: usize = 0;
    while i < cs.len()
        invariant
            cs@ == s@,
            i <= cs@.len(),
            out@ == upper(s@.take(i as int)),
        decreases cs@.len() - i,
    {
        out.push(to_upper_char(cs[i]));
        i = i + 1;
        assert(out@ =~= upper(s@.take(i as int)));
    }
    assert(s@.take(i as int) =~= s@);
    out
}

/// CycloneDX's spelling of an upper-cased algorithm name.
pub open spec fn canonical_word(word: Seq<char>) -> Seq<char> {
    if word == "SHA1"@ {
        "SHA-1"@
    } else if word == "SHA224"@ {
        "SHA-224"@
    } else if word == "SHA256"@ {
        "SHA-256"@
    } else if word == "SHA384"@ {
        "SHA-384"@
    } else if word == "SHA512"@ {
        "SHA-512"@
    } else if word == "SHA3256"@ || word == "SHA3_256"@ {
        "SHA3-256"@
    } else if word == "SHA3384"@ || word == "SHA3_384"@ {
        "SHA3-384"@
    } else if word == "SHA3512"@ || word == "SHA3_512"@ {
        "SHA3-512"@
    } else if word == "BLAKE2B-256"@ || word == "BLAKE2B256"@ {
        "BLAKE2b-256"@
    } else if word == "BLAKE2B-384"@ || word == "BLAKE2B384"@ {
        "BLAKE2b-384"@
    } else if word == "BLAKE2B-512"@ || word == "BLAKE2B512"@ {
        "BLAKE2b-512"@
    } else {
        word
    }
}

pub open spec fn canonical(raw: Seq<char>) -> Seq<char> {
    canonical_word(upper(trim(raw)))
}

proof fn trimmed_ends(s: Seq<char>)
    ensures
        trim(s).len() > 0 ==> !is_white(trim(s)[0]) && !is_white(trim(s).last()),
{
    trimmed_front(s);
    trimmed_back(trim_start(s));
}

proof fn trimmed_front(s: Seq<char>)
    ensures
        trim_start(s).len() > 0 ==> !is_white(trim_start(s)[0]),
    decreases s.len(),
{
    if s.len() > 0 && is_white(s[0]) {
        trimmed_front(s.skip(1));
    }
}

proof fn trimmed_back(s: Seq<char>)
    ensures
        trim_end(s).len() > 0 ==> !is_white(trim_end(s).last()) && trim_end(s)[0] == s[0],
    decreases s.len(),
{
    if s.len() > 0 && is_white(s.last()) {
        trimmed_back(s.drop_last());
    }
}

/// Two spellings of a word that differ in nothing but case.
pub(crate) proof fn spelled(raw: Seq<char>, word: Seq<char>)
    requires
        raw.len() > 0,
        !is_white(raw[0]),
        !is_white(raw.last()),
        upper(raw) == word,
    ensures
        canonical(raw) == canonical_word(word),
{
    assert(trim(raw) == raw);
}

/// An algorithm name that is canonical stays as it is.
pub proof fn canonical_names_stay(raw: Seq<char>)
    ensures
        canonical(canonical(raw)) == canonical(raw),
{
    let word = upper(trim(raw));
    let name = canonical_word(word);
    if name == word {
        trimmed_ends(raw);
        assert(upper(word) =~= word) by {
            assert forall|i: int| 0 <= i < word.len() implies upper(word)[i] == word[i] by {
                assert(word[i] == upper_char(trim(raw)[i]));
            }
        }
        if word.len() > 0 {
            assert(word[0] == upper_char(trim(raw)[0]));
            assert(word.last() == upper_char(trim(raw).last()));
            spelled(word, word);
        } else {
            assert(trim(word) == word);
        }
    } else {
        names_are_canonical();
    }
}

/// The words that have another spelling, and those that have none.
pub(crate) proof fn words_are_apart()
    ensures
        canonical_word("SHA1"@) == "SHA-1"@,
        canonical_word("SHA224"@) == "SHA-224"@,
        canonical_word("SHA256"@) == "SHA-256"@,
        canonical_word("SHA384"@) == "SHA-384"@,
        canonical_word("SHA512"@) == "SHA-512"@,
        canonical_word("SHA3256"@) == "SHA3-256"@,
        canonical_word("SHA3384"@) == "SHA3-384"@,
        canonical_word("SHA3512"@) == "SHA3-512"@,
        canonical_word("SHA3_256"@) == "SHA3-256"@,
        canonical_word("SHA3_384"@) == "SHA3-384"@,
        canonical_word("SHA3_512"@) == "SHA3-512"@,
        canonical_word("BLAKE2B-256"@) == "BLAKE2b-256"@,
        canonical_word("BLAKE2B256"@) == "BLAKE2b-256"@,
        canonical_word("BLAKE2B-384"@) == "BLAKE2b-384"@,
        canonical_word("BLAKE2B384"@) == "BLAKE2b-384"@,
        canonical_word("BLAKE2B-512"@) == "BLAKE2b-512"@,
        canonical_word("BLAKE2B512"@) == "BLAKE2b-512"@,
        canonical_word("MD5"@) == "MD5"@,
        canonical_word("SHA-1"@) == "SHA-1"@,
        canonical_word("SHA-224"@) == "SHA-224"@,
        canonical_word("SHA-256"@) == "SHA-256"@,
        canonical_word("SHA-384"@) == "SHA-384"@,
        canonical_word("SHA-512"@) == "SHA-512"@,
        canonical_word("SHA3-256"@) == "SHA3-256"@,
        canonical_word("SHA3-384"@) == "SHA3-384"@,
        canonical_word("SHA3-512"@) == "SHA3-512"@,
        canonical_word("BLAKE3"@) == "BLAKE3"@,
{
    reveal_strlit("SHA1");
    reveal_strlit("SHA224");
    reveal_strlit("SHA256");
    reveal_strlit("SHA384");
    reveal_strlit("SHA512");
    reveal_strlit("SHA3256");
    reveal_strlit("SHA3384");
    reveal_strlit("SHA3512");
    reveal_strlit("SHA3_256");
    reveal_strlit("SHA3_384");
    reveal_strlit("SHA3_512");
    reveal_strlit("BLAKE2B-256");
    reveal_strlit("BLAKE2B256");
    reveal_strlit("BLAKE2B-384");
    reveal_strlit("BLAKE2B384");
    reveal_strlit("BLAKE2B-512");
    reveal_strlit("BLAKE2B512");
    reveal_strlit("MD5");
    reveal_strlit("SHA-1");
    reveal_strlit("SHA-224");
    reveal_strlit("SHA-256");
    reveal_strlit("SHA-384");
    reveal_strlit("SHA-512");
    reveal_strlit("SHA3-256");
    reveal_strlit("SHA3-384");
    reveal_strlit("SHA3-512");
    reveal_strlit("BLAKE3");
    assert("SHA1"@.len() == 4);
    assert("SHA224"@.len() == 6 && "SHA224"@[0] == 'S' && "SHA224"@[3] == '2' && "SHA224"@[4] == '2');
    assert("SHA256"@.len() == 6 && "SHA256"@[0] == 'S' && "SHA256"@[3] == '2' && "SHA256"@[4] == '5');
    assert("SHA384"@.len() == 6 && "SHA384"@[0] == 'S' && "SHA384"@[3] == '3');
    assert("SHA512"@.len() == 6 && "SHA512"@[0] == 'S' && "SHA512"@[3] == '5');
    assert("SHA3256"@.len() == 7 && "SHA3256"@[3] == '3' && "SHA3256"@[4] == '2');
    assert("SHA3384"@.len() == 7 && "SHA3384"@[3] == '3' && "SHA3384"@[4] == '3');
    assert("SHA3512"@.len() == 7 && "SHA3512"@[3] == '3' && "SHA3512"@[4] == '5');
    assert("SHA3_256"@.len() == 8 && "SHA3_256"@[4] == '_' && "SHA3_256"@[5] == '2');
    assert("SHA3_384"@.len() == 8 && "SHA3_384"@[4] == '_' && "SHA3_384"@[5] == '3');
    assert("SHA3_512"@.len() == 8 && "SHA3_512"@[4] == '_' && "SHA3_512"@[5] == '5');
    assert("BLAKE2B-256"@.len() == 11 && "BLAKE2B-256"@[8] == '2');
    assert("BLAKE2B256"@.len() == 10 && "BLAKE2B256"@[7] == '2');
    assert("BLAKE2B-384"@.len() == 11 && "BLAKE2B-384"@[8] == '3');
    assert("BLAKE2B384"@.len() == 10 && "BLAKE2B384"@[7] == '3');
    assert("BLAKE2B-512"@.len() == 11 && "BLAKE2B-512"@[8] == '5');
    assert("BLAKE2B512"@.len() == 10 && "BLAKE2B512"@[7] == '5');
    assert("MD5"@.len() == 3);
    assert("SHA-1"@.len() == 5);
    assert("SHA-224"@.len() == 7 && "SHA-224"@[3] == '-' && "SHA-224"@[4] == '2' && "SHA-224"@[5] == '2');
    assert("SHA-256"@.len() == 7 && "SHA-256"@[3] == '-' && "SHA-256"@[4] == '2' && "SHA-256"@[5] == '5');
    assert("SHA-384"@.len() == 7 && "SHA-384"@[3] == '-' && "SHA-384"@[4] == '3');
    assert("SHA-512"@.len() == 7 && "SHA-512"@[3] == '-' && "SHA-512"@[4] == '5');
    assert("SHA3-256"@.len() == 8 && "SHA3-256"@[4] == '-' && "SHA3-256"@[5] == '2');
    assert("SHA3-384"@.len() == 8 && "SHA3-384"@[4] == '-' && "SHA3-384"@[5] == '3');
    assert("SHA3-512"@.len() == 8 && "SHA3-512"@[4] == '-' && "SHA3-512"@[5] == '5');
    assert("BLAKE3"@.len() == 6 && "BLAKE3"@[0] == 'B');
}

/// The names that have more than one spelling are canonical themselves.
proof fn names_are_canonical()
    ensures
        canonical("SHA-1"@) == "SHA-1"@,
        canonical("SHA-224"@) == "SHA-224"@,
        canonical("SHA-256"@) == "SHA-256"@,
        canonical("SHA-384"@) == "SHA-384"@,
        canonical("SHA-512"@) == "SHA-512"@,
        canonical("SHA3-256"@) == "SHA3-256"@,
        canonical("SHA3-384"@) == "SHA3-384"@,
        canonical("SHA3-512"@) == "SHA3-512"@,
        canonical("BLAKE2b-256"@) == "BLAKE2b-256"@,
        canonical("BLAKE2b-384"@) == "BLAKE2b-384"@,
        canonical("BLAKE2b-512"@) == "BLAKE2b-512"@,
{
    words_are_apart();
    reveal_strlit("SHA-1");
    reveal_strlit("SHA-224");
    reveal_strlit("SHA-256");
    reveal_strlit("SHA-384");
    reveal_strlit("SHA-512");
    reveal_strlit("SHA3-256");
    reveal_strlit("SHA3-384");
    reveal_strlit("SHA3-512");
    reveal_strlit("BLAKE2b-256");
    reveal_strlit("BLAKE2B-256");
    reveal_strlit("BLAKE2b-384");
    reveal_strlit("BLAKE2B-384");
    reveal_strlit("BLAKE2b-512");
    reveal_strlit("BLAKE2B-512");
    assert(upper("SHA-1"@) =~= "SHA-1"@);
    spelled("SHA-1"@, "SHA-1"@);
    assert(upper("SHA-224"@) =~= "SHA-224"@);
    spelled("SHA-224"@, "SHA-224"@);
    assert(upper("SHA-256"@) =~= "SHA-256"@);
    spelled("SHA-256"@, "SHA-256"@);
    assert(upper("SHA-384"@) =~= "SHA-384"@);
    spelled("SHA-384"@, "SHA-384"@);
    assert(upper("SHA-512"@) =~= "SHA-512"@);
    spelled("SHA-512"@, "SHA-512"@);
    assert(upper("SHA3-256"@) =~= "SHA3-256"@);
    spelled("SHA3-256"@, "SHA3-256"@);
    assert(upper("SHA3-384"@) =~= "SHA3-384"@);
    spelled("SHA3-384"@, "SHA3-384"@);
    assert(upper("SHA3-512"@) =~= "SHA3-512"@);
    spelled("SHA3-512"@, "SHA3-512"@);
    assert(upper("BLAKE2b-256"@) =~= "BLAKE2B-256"@);
    spelled("BLAKE2b-256"@, "BLAKE2B-256"@);
    assert(upper("BLAKE2b-384"@) =~= "BLAKE2B-384"@);
    spelled("BLAKE2b-384"@, "BLAKE2B-384"@);
    assert(upper("BLAKE2b-512"@) =~= "BLAKE2B-512"@);
    spelled("BLAKE2b-512"@, "BLAKE2B-512"@);
}

impl HashView {
    pub open spec fn of(algorithm: Seq<char>, value: Seq<char>) -> HashView {
        HashView { algorithm: canonical(algorithm), value }
    }
}

impl Hash {
    /// The canonical spelling: hyphenated, as CycloneDX writes it.
    pub fn canonical_algorithm(raw: &str) -> (r: String)
        ensures
            r@ == canonical(raw@),
    {
        let text = to_upper(trimmed(raw).as_str());
        let word = text.as_str();
        if same(word, "SHA1") {
            owned("SHA-1")
        } else if same(word, "SHA224") {
            owned("SHA-224")
        } else if same(word, "SHA256") {
            owned("SHA-256")
        } else if same(word, "SHA384") {
            owned("SHA-384")
        } else if same(word, "SHA512") {
            owned("SHA-512")
        } else if same(word, "SHA3256") || same(word, "SHA3_256") {
            owned("SHA3-256")
        } else if same(word, "SHA3384") || same(word, "SHA3_384") {
            owned("SHA3-384")
        } else if same(word, "SHA3512") || same(word, "SHA3_512") {
            owned("SHA3-512")
        } else if same(word, "BLAKE2B-256") || same(word, "BLAKE2B256") {
            owned("BLAKE2b-256")
        } else if same(word, "BLAKE2B-384") || same(word, "BLAKE2B384") {
            owned("BLAKE2b-384")
        } else if same(word, "BLAKE2B-512") || same(word, "BLAKE2B512") {
            owned("BLAKE2b-512")
        } else {
            text
        }
    }

    pub fn new(algorithm: &str, value: &str) -> (r: Self)
        ensures
            r.deep_view() == HashView::of(algorithm@, value@),
    {
        Hash { algorithm: Hash::canonical_algorithm(algorithm), value: owned(value) }
    }
}

// ---------------------------------------------------------------------------
// Components
// ---------------------------------------------------------------------------

impl ComponentView {
    pub open spec fn of(name: Seq<char>) -> ComponentView {
        ComponentView { name, ..ComponentView::empty() }
    }

    /// What the component is, for matching: its package URL when it has one,
    /// else its group, name and version.
    pub open spec fn identity(self) -> Seq<char> {
        match self.purl {
            Some(purl) => purl,
            None => (match self.group {
                Some(g) => g + "/"@,
                None => ""@,
            }) + self.name + "@"@ + (match self.version {
                Some(v) => v,
                None => ""@,
            }),
        }
    }
}

impl Component {
    pub fn new(name: &str) -> (r: Self)
        ensures
            r.deep_view() == ComponentView::of(name@),
    {
        let mut r = Component::default();
        r.name = owned(name);
        r
    }

    pub fn identity(&self) -> (r: String)
        ensures
            r@ == self.deep_view().identity(),
    {
        match &self.purl {
            Some(purl) => purl.clone(),
            None => {
                let group = match &self.group {
                    Some(g) => concat(g.as_str(), "/"),
                    None => owned(""),
                };
                let version = match &self.version {
                    Some(v) => v.as_str(),
                    None => "",
                };
                concat4(group.as_str(), self.name.as_str(), "@", version)
            },
        }
    }
}

impl SpecOrigin {
    pub fn new(family: &str, version: &str) -> (r: Self)
        ensures
            r.deep_view() == (SpecOriginView { family: family@, version: version@ }),
    {
        SpecOrigin { family: owned(family), version: owned(version) }
    }
}

// ---------------------------------------------------------------------------
// Order
// ---------------------------------------------------------------------------

/// What licences are ordered by: their variant's name, then their escaped text.
pub open spec fn license_key(license: LicenseView) -> Seq<char> {
    match license {
        LicenseView::Id(s) => "Id("@ + debug_text(s) + ")"@,
        LicenseView::Name(s) => "Name("@ + debug_text(s) + ")"@,
        LicenseView::Expression(s) => "Expression("@ + debug_text(s) + ")"@,
    }
}

fn key_of_license(license: &License) -> (r: String)
    ensures
        r@ == license_key(license.deep_view()),
{
    match license {
        License::Id(s) => concat3("Id(", debug(s.as_str()).as_str(), ")"),
        License::Name(s) => concat3("Name(", debug(s.as_str()).as_str(), ")"),
        License::Expression(s) => concat3("Expression(", debug(s.as_str()).as_str(), ")"),
    }
}

impl Ranked for License {
    open spec fn precedes(a: LicenseView, b: LicenseView) -> bool {
        lex_lt(license_key(a), license_key(b))
    }

    fn goes_before(&self, other: &Self) -> (r: bool) {
        less(key_of_license(self).as_str(), key_of_license(other).as_str())
    }

    proof fn order_laws(a: LicenseView, b: LicenseView, c: LicenseView) {
        lex_laws(license_key(a), license_key(b), license_key(c));
    }
}

impl Ranked for Hash {
    open spec fn precedes(a: HashView, b: HashView) -> bool {
        lex_lt(a.algorithm, b.algorithm)
    }

    fn goes_before(&self, other: &Self) -> (r: bool) {
        less(self.algorithm.as_str(), other.algorithm.as_str())
    }

    proof fn order_laws(a: HashView, b: HashView, c: HashView) {
        lex_laws(a.algorithm, b.algorithm, c.algorithm);
    }
}

impl Ranked for Component {
    open spec fn precedes(a: ComponentView, b: ComponentView) -> bool {
        lex_lt(a.identity(), b.identity())
    }

    fn goes_before(&self, other: &Self) -> (r: bool) {
        less(self.identity().as_str(), other.identity().as_str())
    }

    proof fn order_laws(a: ComponentView, b: ComponentView, c: ComponentView) {
        lex_laws(a.identity(), b.identity(), c.identity());
    }
}

impl Ranked for Dependency {
    open spec fn precedes(a: DependencyView, b: DependencyView) -> bool {
        lex_lt(a.bom_ref, b.bom_ref)
    }

    fn goes_before(&self, other: &Self) -> (r: bool) {
        less(self.bom_ref.as_str(), other.bom_ref.as_str())
    }

    proof fn order_laws(a: DependencyView, b: DependencyView, c: DependencyView) {
        lex_laws(a.bom_ref, b.bom_ref, c.bom_ref);
    }
}

/// `s` without the elements that equal the one before them.
pub open spec fn without_repeats<V>(s: Seq<V>) -> Seq<V>
    decreases s.len(),
{
    if s.len() < 2 {
        s
    } else if s[s.len() - 2] == s.last() {
        without_repeats(s.drop_last())
    } else {
        without_repeats(s.drop_last()).push(s.last())
    }
}

pub fn drop_repeats(list: &Vec<String>) -> (r: Vec<String>)
    ensures
        r.deep_view() == without_repeats(list.deep_view()),
{
    let ghost all = list.deep_view();
    let mut out: Vec<String> = empty_list();
    let mut i: usize = 0;
    assert(all.take(0) =~= Seq::empty());
    while i < list.len()
        invariant
            i <= list@.len(),
            all == list.deep_view(),
            out.deep_view() == without_repeats(all.take(i as int)),
        decreases list@.len() - i,
    {
        let ghost next = all.take(i as int + 1);
        assert(next.drop_last() =~= all.take(i as int));
        if i == 0 {
            append_one(&mut out, list[i].copy());
            assert(out.deep_view() =~= next);
        } else if !list[i - 1].equals(&list[i]) {
            append_one(&mut out, list[i].copy());
        }
        i = i + 1;
    }
    assert(all.take(i as int) =~= all);
    out
}

pub open spec fn sort_component(component: ComponentView) -> ComponentView {
    ComponentView {
        licenses: sorted::<License>(component.licenses),
        hashes: sorted::<Hash>(component.hashes),
        ..component
    }
}

pub open spec fn sort_dependency(dependency: DependencyView) -> DependencyView {
    DependencyView {
        depends_on: without_repeats(sorted::<String>(dependency.depends_on)),
        ..dependency
    }
}

pub open spec fn sort_doc(doc: SbomDocView) -> SbomDocView {
    SbomDocView {
        components: sorted::<Component>(doc.components).map_values(
            |c: ComponentView| sort_component(c),
        ),
        dependencies: sorted::<Dependency>(doc.dependencies).map_values(
            |d: DependencyView| sort_dependency(d),
        ),
        ..doc
    }
}

// ---------------------------------------------------------------------------
// Documents
// ---------------------------------------------------------------------------

/// The spec version of a document of this family.
pub open spec fn version_in(doc: SbomDocView, family: Seq<char>) -> Option<Seq<char>> {
    match doc.spec {
        Some(origin) => if origin.family == family {
            Some(origin.version)
        } else {
            None
        },
        None => None,
    }
}

pub open spec fn has_identity(components: Seq<ComponentView>, identity: Seq<char>) -> bool {
    exists|i: int| 0 <= i < components.len() && (#[trigger] components[i]).identity() == identity
}

/// The components of both, each identity once.
pub open spec fn merge_components(
    mine: Seq<ComponentView>,
    theirs: Seq<ComponentView>,
) -> Seq<ComponentView>
    decreases theirs.len(),
{
    if theirs.len() == 0 {
        mine
    } else {
        let head = merge_components(mine, theirs.drop_last());
        if has_identity(head, theirs.last().identity()) {
            head
        } else {
            head.push(theirs.last())
        }
    }
}

/// The position of the dependencies of `bom_ref`, or the length.
pub open spec fn dependency_at(dependencies: Seq<DependencyView>, bom_ref: Seq<char>) -> int
    decreases dependencies.len(),
{
    if dependencies.len() == 0 || dependencies[0].bom_ref == bom_ref {
        0
    } else {
        1 + dependency_at(dependencies.skip(1), bom_ref)
    }
}

pub proof fn dependency_at_props(dependencies: Seq<DependencyView>, bom_ref: Seq<char>)
    ensures
        0 <= dependency_at(dependencies, bom_ref) <= dependencies.len(),
        dependency_at(dependencies, bom_ref) < dependencies.len() ==> dependencies[dependency_at(
            dependencies,
            bom_ref,
        )].bom_ref == bom_ref,
    decreases dependencies.len(),
{
    if dependencies.len() > 0 && dependencies[0].bom_ref != bom_ref {
        dependency_at_props(dependencies.skip(1), bom_ref);
    }
}

pub open spec fn merge_dependency(
    dependencies: Seq<DependencyView>,
    dependency: DependencyView,
) -> Seq<DependencyView> {
    let at = dependency_at(dependencies, dependency.bom_ref);
    if at < dependencies.len() {
        dependencies.update(
            at,
            DependencyView {
                depends_on: with_all_new(dependencies[at].depends_on, dependency.depends_on),
                ..dependencies[at]
            },
        )
    } else {
        dependencies.push(dependency)
    }
}

/// The union of the two graphs.
pub open spec fn merge_dependencies(
    mine: Seq<DependencyView>,
    theirs: Seq<DependencyView>,
) -> Seq<DependencyView>
    decreases theirs.len(),
{
    if theirs.len() == 0 {
        mine
    } else {
        merge_dependency(merge_dependencies(mine, theirs.drop_last()), theirs.last())
    }
}

pub open spec fn merge_docs(mine: SbomDocView, theirs: SbomDocView) -> SbomDocView {
    SbomDocView {
        spec: match mine.spec {
            Some(s) => Some(s),
            None => theirs.spec,
        },
        document_id: match mine.document_id {
            Some(s) => Some(s),
            None => theirs.document_id,
        },
        version: match mine.version {
            Some(s) => Some(s),
            None => theirs.version,
        },
        timestamp: match mine.timestamp {
            Some(s) => Some(s),
            None => theirs.timestamp,
        },
        tools: with_all_new(mine.tools, theirs.tools),
        subject: match mine.subject {
            Some(s) => Some(s),
            None => theirs.subject,
        },
        components: merge_components(mine.components, theirs.components),
        dependencies: merge_dependencies(mine.dependencies, theirs.dependencies),
    }
}

pub open spec fn map_component(component: ComponentView, mapper: MapperView) -> ComponentView {
    if component.kind == ComponentKind::File {
        ComponentView { name: mapper.map(component.name), ..component }
    } else {
        component
    }
}

/// Only `file` components hold a path that means anything to a repository.
pub open spec fn normalize_doc(doc: SbomDocView, mapper: MapperView) -> SbomDocView {
    if mapper.is_noop() {
        doc
    } else {
        SbomDocView {
            components: doc.components.map_values(|c: ComponentView| map_component(c, mapper)),
            ..doc
        }
    }
}

fn knows_identity(components: &Vec<Component>, identity: &str) -> (r: bool)
    ensures
        r == has_identity(components.deep_view(), identity@),
{
    let ghost all = components.deep_view();
    let mut i: usize = 0;
    while i < components.len()
        invariant
            i <= components@.len(),
            all == components.deep_view(),
            forall|j: int| 0 <= j < i ==> (#[trigger] all[j]).identity() != identity@,
        decreases components@.len() - i,
    {
        if same(components[i].identity().as_str(), identity) {
            assert(all[i as int].identity() == identity@);
            return true;
        }
        i = i + 1;
    }
    false
}

fn add_components(components: &mut Vec<Component>, more: &Vec<Component>)
    ensures
        final(components).deep_view() == merge_components(
            old(components).deep_view(),
            more.deep_view(),
        ),
{
    let ghost start = components.deep_view();
    let ghost all = more.deep_view();
    let mut i: usize = 0;
    assert(all.take(0) =~= Seq::empty());
    while i < more.len()
        invariant
            i <= more@.len(),
            all == more.deep_view(),
            components.deep_view() == merge_components(start, all.take(i as int)),
        decreases more@.len() - i,
    {
        assert(all.take(i as int + 1).drop_last() =~= all.take(i as int));
        if !knows_identity(components, more[i].identity().as_str()) {
            append_one(components, more[i].copy());
        }
        i = i + 1;
    }
    assert(all.take(i as int) =~= all);
}

/// The position of the dependencies of `bom_ref`, or the length.
pub fn find_dependency(dependencies: &Vec<Dependency>, bom_ref: &str) -> (r: usize)
    ensures
        r <= dependencies@.len(),
        r == dependency_at(dependencies.deep_view(), bom_ref@),
{
    let ghost all = dependencies.deep_view();
    let mut at: usize = 0;
    assert(all.skip(0) =~= all);
    while at < dependencies.len() && !same(dependencies[at].bom_ref.as_str(), bom_ref)
        invariant
            at <= dependencies@.len(),
            all == dependencies.deep_view(),
            dependency_at(all, bom_ref@) == at + dependency_at(all.skip(at as int), bom_ref@),
        decreases dependencies@.len() - at,
    {
        assert(all.skip(at as int)[0] == all[at as int]);
        assert(all.skip(at as int).skip(1) =~= all.skip(at as int + 1));
        at = at + 1;
    }
    proof {
        if at < dependencies@.len() {
            assert(all.skip(at as int)[0] == all[at as int]);
        }
    }
    at
}

/// The graph with one more edge.
pub open spec fn with_edge(
    dependencies: Seq<DependencyView>,
    from: Seq<char>,
    to: Seq<char>,
) -> Seq<DependencyView> {
    let at = dependency_at(dependencies, from);
    if at < dependencies.len() {
        dependencies.update(
            at,
            DependencyView {
                depends_on: with_new(dependencies[at].depends_on, to),
                ..dependencies[at]
            },
        )
    } else {
        dependencies.push(DependencyView { bom_ref: from, depends_on: seq![to] })
    }
}

pub fn add_edge(dependencies: &mut Vec<Dependency>, from: &str, to: &str)
    ensures
        final(dependencies).deep_view() == with_edge(old(dependencies).deep_view(), from@, to@),
{
    let at = find_dependency(dependencies, from);
    if at < dependencies.len() {
        let mut slot = dependencies[at].copy();
        add_new(&mut slot.depends_on, owned(to));
        replace_at(dependencies, at, slot);
    } else {
        let mut targets: Vec<String> = empty_list();
        append_one(&mut targets, owned(to));
        assert(targets.deep_view() =~= seq![to@]);
        append_one(dependencies, Dependency { bom_ref: owned(from), depends_on: targets });
    }
}

/// The graph says that `from` depends on `to`.
pub open spec fn has_edge(graph: Seq<DependencyView>, from: Seq<char>, to: Seq<char>) -> bool {
    exists|i: int|
        #![trigger graph[i]]
        0 <= i < graph.len() && graph[i].bom_ref == from && graph[i].depends_on.contains(to)
}

/// An edge that is added is there, and so are those from before.
pub proof fn an_edge_is_added(graph: Seq<DependencyView>, from: Seq<char>, to: Seq<char>)
    ensures
        has_edge(with_edge(graph, from, to), from, to),
        forall|a: Seq<char>, b: Seq<char>|
            has_edge(graph, a, b) ==> #[trigger] has_edge(with_edge(graph, from, to), a, b),
{
    let more = with_edge(graph, from, to);
    let at = dependency_at(graph, from);
    dependency_at_props(graph, from);
    if at < graph.len() {
        let targets = graph[at].depends_on;
        if !targets.contains(to) {
            assert(targets.push(to)[targets.len() as int] == to);
        }
        assert(more[at].depends_on.contains(to));
    } else {
        assert(more[at].depends_on[0] == to);
    }
    assert forall|a: Seq<char>, b: Seq<char>| has_edge(graph, a, b) implies #[trigger] has_edge(
        more,
        a,
        b,
    ) by {
        let i = choose|i: int|
            #![trigger graph[i]]
            0 <= i < graph.len() && graph[i].bom_ref == a && graph[i].depends_on.contains(b);
        let j = choose|j: int|
            0 <= j < graph[i].depends_on.len() && graph[i].depends_on[j] == b;
        assert(more[i].bom_ref == a);
        assert(more[i].depends_on[j] == b);
    }
}

fn add_dependencies(dependencies: &mut Vec<Dependency>, more: &Vec<Dependency>)
    ensures
        final(dependencies).deep_view() == merge_dependencies(
            old(dependencies).deep_view(),
            more.deep_view(),
        ),
{
    let ghost start = dependencies.deep_view();
    let ghost all = more.deep_view();
    let mut i: usize = 0;
    assert(all.take(0) =~= Seq::empty());
    while i < more.len()
        invariant
            i <= more@.len(),
            all == more.deep_view(),
            dependencies.deep_view() == merge_dependencies(start, all.take(i as int)),
        decreases more@.len() - i,
    {
        assert(all.take(i as int + 1).drop_last() =~= all.take(i as int));
        let at = find_dependency(dependencies, more[i].bom_ref.as_str());
        if at < dependencies.len() {
            let mut slot = dependencies[at].copy();
            add_all_new(&mut slot.depends_on, more[i].depends_on.copy());
            replace_at(dependencies, at, slot);
        } else {
            append_one(dependencies, more[i].copy());
        }
        i = i + 1;
    }
    assert(all.take(i as int) =~= all);
}

impl SbomDoc {
    /// The source spec version, but only when the source belongs to `family`.
    pub fn version_within(&self, family: &str) -> (r: Option<&str>)
        ensures
            match r {
                Some(v) => version_in(self.deep_view(), family@) == Some(v@),
                None => version_in(self.deep_view(), family@) is None,
            },
    {
        match &self.spec {
            Some(origin) => if same(origin.family.as_str(), family) {
                Some(origin.version.as_str())
            } else {
                None
            },
            None => None,
        }
    }

    /// Folds another document in, matching components on their identity.
    pub fn merge(&mut self, other: SbomDoc)
        ensures
            final(self).deep_view() == merge_docs(old(self).deep_view(), other.deep_view()),
    {
        if self.spec.is_none() {
            self.spec = other.spec;
        }
        if self.document_id.is_none() {
            self.document_id = other.document_id;
        }
        if self.version.is_none() {
            self.version = other.version;
        }
        if self.timestamp.is_none() {
            self.timestamp = other.timestamp;
        }
        if self.subject.is_none() {
            self.subject = other.subject;
        }
        add_all_new(&mut self.tools, other.tools);
        add_components(&mut self.components, &other.components);
        add_dependencies(&mut self.dependencies, &other.dependencies);
    }

    pub fn normalize_paths(&mut self, mapper: &PathMapper)
        ensures
            final(self).deep_view() == normalize_doc(old(self).deep_view(), mapper@),
    {
        if mapper.is_noop() {
            return;
        }
        let ghost all = self.components.deep_view();
        let ghost goal = all.map_values(|c: ComponentView| map_component(c, mapper@));
        let mut out: Vec<Component> = empty_list();
        let mut i: usize = 0;
        while i < self.components.len()
            invariant
                i <= self.components@.len(),
                all == self.components.deep_view(),
                goal == all.map_values(|c: ComponentView| map_component(c, mapper@)),
                out.deep_view() == goal.take(i as int),
            decreases self.components@.len() - i,
        {
            let mut component = self.components[i].copy();
            if component.kind == ComponentKind::File {
                component.name = mapper.map(component.name.as_str());
            }
            append_one(&mut out, component);
            i = i + 1;
            assert(out.deep_view() =~= goal.take(i as int));
        }
        assert(out.deep_view() =~= goal);
        self.components = out;
    }

    /// Deterministic ordering, so a conversion is byte-stable across runs.
    pub fn sort(&mut self)
        ensures
            final(self).deep_view() == sort_doc(old(self).deep_view()),
    {
        sort(&mut self.components);
        let ghost all = self.components.deep_view();
        let ghost goal = all.map_values(|c: ComponentView| sort_component(c));
        let mut out: Vec<Component> = empty_list();
        let mut i: usize = 0;
        while i < self.components.len()
            invariant
                i <= self.components@.len(),
                all == self.components.deep_view(),
                goal == all.map_values(|c: ComponentView| sort_component(c)),
                out.deep_view() == goal.take(i as int),
            decreases self.components@.len() - i,
        {
            let mut component = self.components[i].copy();
            sort(&mut component.licenses);
            sort(&mut component.hashes);
            append_one(&mut out, component);
            i = i + 1;
            assert(out.deep_view() =~= goal.take(i as int));
        }
        assert(out.deep_view() =~= goal);
        self.components = out;

        sort(&mut self.dependencies);
        let ghost edges = self.dependencies.deep_view();
        let ghost aim = edges.map_values(|d: DependencyView| sort_dependency(d));
        let mut done: Vec<Dependency> = empty_list();
        let mut k: usize = 0;
        while k < self.dependencies.len()
            invariant
                k <= self.dependencies@.len(),
                edges == self.dependencies.deep_view(),
                aim == edges.map_values(|d: DependencyView| sort_dependency(d)),
                done.deep_view() == aim.take(k as int),
            decreases self.dependencies@.len() - k,
        {
            let mut dependency = self.dependencies[k].copy();
            let mut targets = dependency.depends_on.copy();
            sort(&mut targets);
            dependency.depends_on = drop_repeats(&targets);
            append_one(&mut done, dependency);
            k = k + 1;
            assert(done.deep_view() =~= aim.take(k as int));
        }
        assert(done.deep_view() =~= aim);
        self.dependencies = done;
    }
}

// ---------------------------------------------------------------------------
// Laws
// ---------------------------------------------------------------------------

/// Merging keeps every component of the first document in its place, and for
/// every component of the second one with its identity.
pub proof fn merge_keeps_every_identity(mine: Seq<ComponentView>, theirs: Seq<ComponentView>)
    ensures
        merge_components(mine, theirs).len() >= mine.len(),
        merge_components(mine, theirs).take(mine.len() as int) == mine,
        forall|i: int|
            0 <= i < theirs.len() ==> has_identity(
                merge_components(mine, theirs),
                (#[trigger] theirs[i]).identity(),
            ),
    decreases theirs.len(),
{
    if theirs.len() == 0 {
        assert(mine.take(mine.len() as int) =~= mine);
    } else {
        let head = merge_components(mine, theirs.drop_last());
        let all = merge_components(mine, theirs);
        merge_keeps_every_identity(mine, theirs.drop_last());
        assert(all.take(mine.len() as int) =~= head.take(mine.len() as int));
        assert forall|i: int| 0 <= i < theirs.len() implies has_identity(
            all,
            (#[trigger] theirs[i]).identity(),
        ) by {
            if i < theirs.len() - 1 {
                assert(theirs.drop_last()[i] == theirs[i]);
                let k = choose|k: int|
                    0 <= k < head.len() && (#[trigger] head[k]).identity() == theirs[i].identity();
                assert(all[k].identity() == theirs[i].identity());
            } else if !has_identity(head, theirs.last().identity()) {
                assert(all[head.len() as int].identity() == theirs[i].identity());
            }
        }
    }
}

/// No identity is listed twice by a merge of documents that list none twice.
pub proof fn merge_lists_no_identity_twice(mine: Seq<ComponentView>, theirs: Seq<ComponentView>)
    requires
        forall|i: int, j: int|
            0 <= i < j < mine.len() ==> (#[trigger] mine[i]).identity() != (
            #[trigger] mine[j]).identity(),
    ensures
        forall|i: int, j: int|
            0 <= i < j < merge_components(mine, theirs).len() ==> (#[trigger] merge_components(
                mine,
                theirs,
            )[i]).identity() != (#[trigger] merge_components(mine, theirs)[j]).identity(),
    decreases theirs.len(),
{
    if theirs.len() > 0 {
        merge_lists_no_identity_twice(mine, theirs.drop_last());
        let head = merge_components(mine, theirs.drop_last());
        let all = merge_components(mine, theirs);
        assert forall|i: int, j: int| 0 <= i < j < all.len() implies (#[trigger] all[i]).identity()
            != (#[trigger] all[j]).identity() by {
            if j == head.len() {
                assert(head[i] == all[i]);
            } else {
                assert(head[i] == all[i] && head[j] == all[j]);
            }
        }
    }
}

/// A version is only offered to the family it belongs to.
pub proof fn version_stays_in_its_family(doc: SbomDocView, family: Seq<char>)
    ensures
        version_in(doc, family) is Some <==> doc.spec is Some && doc.spec->0.family == family,
        version_in(doc, family) is Some ==> version_in(doc, family) == Some(doc.spec->0.version),
{
}

} // verus!
