//! CycloneDX XML, spec versions 1.4 through 1.6.
//!
//! The same model as the JSON serialization, encoded differently:
//!
//! - The spec version lives in the namespace, not in a field.
//! - `<licenses>` holds either `<license>` elements or a single `<expression>`:
//!   an expression is a choice, an id is a claim.
//! - Dependencies nest: `<dependency ref="a"><dependency ref="b"/></dependency>`
//!   says that a depends on b.
//! - Hashes put the algorithm in an attribute and the digest in the text.

use vstd::prelude::*;

use crate::error::{parse_error, Error, ErrorView};
use crate::formats::sbom::cyclonedx_json::{
    add_link, find_serial, kind_in, list_narrowed, narrowed_kinds, narrowing_notices,
    note_narrowing, pick_target, read_kind, serial_of, target_of, with_link,
};
use crate::formats::sbom::spdx_json::{all_components, list_components};
use crate::formats::sbom::cyclonedx_xml_trip::{holds_document, kept_doc, written_bytes_read_back};
use crate::model::sbom::{
    add_edge, kind_name, narrowed, sort_doc, with_edge, Component, ComponentView, Dependency,
    DependencyView, ExternalReference, ExternalReferenceView, HashView, License, LicenseView,
    SbomDoc, SbomDocView, SpecOrigin, SpecOriginView,
};
use crate::registry::{read_result, wrong_kind, Doc, DocView};
use crate::text::{
    concat, concat3, decimal, drop_trailing, number, owned, parse_u32, parse_u32_spec, same,
    strip_prefix, trim, trimmed, without_prefix, without_trailing,
};
use crate::value::{
    any_in, any_value, append_one, either, empty_list, flat, if_any, non_empty, or_else, or_text,
    text_or, Value,
};
use crate::warn::{CtxView, FormatCtx};
use crate::xml::{
    attr, attr_number, close_item, declaration_item, empty_item, get_attr, open_item,
    opt_text_items, read_events, rendered, text_item, text_result, xml_events, AttrView, Attrs,
    EventView, Item, Tag, TagView, XmlEvent, XmlWriter,
};

verus! {

pub const FORMAT: &'static str = "cyclonedx-xml";

pub const FAMILY: &'static str = "cyclonedx";

pub const NAMESPACE_PREFIX: &'static str = "http://cyclonedx.org/schema/bom/";

/// The spec version out of `http://cyclonedx.org/schema/bom/1.6`.
pub open spec fn namespace_version(namespace: Seq<char>) -> Option<Seq<char>> {
    match strip_prefix(namespace, NAMESPACE_PREFIX@) {
        Some(version) => non_empty(Some(drop_trailing(version, '/'))),
        None => None,
    }
}

pub fn version_from_namespace(namespace: &str) -> (r: Option<String>)
    ensures
        r.deep_view() == namespace_version(namespace@),
{
    match without_prefix(namespace, NAMESPACE_PREFIX) {
        Some(version) => if_any(Some(without_trailing(version.as_str(), '/'))),
        None => None,
    }
}

// ---------------------------------------------------------------------------
// The state of the reader
// ---------------------------------------------------------------------------

/// What a component is to the document. CycloneDX XML reuses element names, so
/// the path to it decides.
#[derive(Debug, Clone, Copy, PartialEq, Eq, Structural)]
pub enum Place {
    /// What the document is about.
    Subject,
    /// A part of it, in its own list or inside another component.
    Listed,
    /// Neither: a tool that made the document, or an ancestor in a pedigree.
    Elsewhere,
}

/// A component around the one that is read.
pub struct Open {
    component: Component,
    place: Place,
    at: usize,
}

/// The content of an [`Open`].
pub struct OpenView {
    pub component: ComponentView,
    pub place: Place,
    pub at: nat,
}

impl DeepView for Open {
    type V = OpenView;

    closed spec fn deep_view(&self) -> OpenView {
        OpenView {
            component: self.component.deep_view(),
            place: self.place,
            at: self.at as nat,
        }
    }
}

pub struct State {
    doc: SbomDoc,
    saw_root: bool,
    /// The innermost open component, what it is, and how many components were
    /// listed before it.
    component: Option<Component>,
    place: Place,
    at: usize,
    /// The open components around it, the outermost first.
    around: Vec<Open>,
    /// How many components were found inside others.
    nested: usize,
    text: String,
    path: Vec<String>,
    /// Open `<dependency ref>` elements: the outer one depends on the inner.
    dependency_stack: Vec<String>,
    pending_hash: Option<String>,
    pending_reference: Option<ExternalReference>,
    /// What the pivot does not model was found.
    evidence: bool,
    pedigree: bool,
    formulation: bool,
}

/// The content of a [`State`].
pub struct StateView {
    pub doc: SbomDocView,
    pub saw_root: bool,
    pub component: Option<ComponentView>,
    pub place: Place,
    pub at: nat,
    pub around: Seq<OpenView>,
    pub nested: nat,
    pub text: Seq<char>,
    pub path: Seq<Seq<char>>,
    pub dependency_stack: Seq<Seq<char>>,
    pub pending_hash: Option<Seq<char>>,
    pub pending_reference: Option<ExternalReferenceView>,
    pub evidence: bool,
    pub pedigree: bool,
    pub formulation: bool,
}

impl View for State {
    type V = StateView;

    closed spec fn view(&self) -> StateView {
        StateView {
            doc: self.doc.deep_view(),
            saw_root: self.saw_root,
            component: self.component.deep_view(),
            place: self.place,
            at: self.at as nat,
            around: self.around.deep_view(),
            nested: self.nested as nat,
            text: self.text@,
            path: self.path.deep_view(),
            dependency_stack: self.dependency_stack.deep_view(),
            pending_hash: self.pending_hash.deep_view(),
            pending_reference: self.pending_reference.deep_view(),
            evidence: self.evidence,
            pedigree: self.pedigree,
            formulation: self.formulation,
        }
    }
}

impl StateView {
    pub open spec fn start() -> StateView {
        StateView {
            doc: SbomDocView::empty(),
            saw_root: false,
            component: None,
            place: Place::Elsewhere,
            at: 0,
            around: Seq::empty(),
            nested: 0,
            text: Seq::empty(),
            path: Seq::empty(),
            dependency_stack: Seq::empty(),
            pending_hash: None,
            pending_reference: None,
            evidence: false,
            pedigree: false,
            formulation: false,
        }
    }
}

// ---------------------------------------------------------------------------
// Start tags
// ---------------------------------------------------------------------------

/// A component as its start tag tells it.
pub open spec fn component_start(tag: TagView) -> ComponentView {
    ComponentView {
        bom_ref: tag.attr("bom-ref"@),
        kind: kind_in(tag.attr("type"@)),
        ..ComponentView::of(""@)
    }
}

fn read_component_start(tag: &Tag) -> (r: Component)
    ensures
        r.deep_view() == component_start(tag.deep_view()),
{
    let mut component = Component::new("");
    component.bom_ref = get_attr(tag, "bom-ref");
    component.kind = read_kind(&get_attr(tag, "type"));
    component
}

pub open spec fn bom_started(doc: SbomDocView, tag: TagView) -> SbomDocView {
    let namespace = or_text(
        or_else(tag.attr("xmlns"@), tag.attr("xsi:schemaLocation"@)),
        ""@,
    );
    SbomDocView {
        version: match tag.attr("version"@) {
            Some(v) => parse_u32_spec(v),
            None => None,
        },
        document_id: tag.attr("serialNumber"@),
        spec: match namespace_version(namespace) {
            Some(version) => Some(SpecOriginView { family: FAMILY@, version }),
            None => None,
        },
        ..doc
    }
}

/// The element `back` steps up the path has this name.
pub open spec fn lies_in(path: Seq<Seq<char>>, back: int, name: Seq<char>) -> bool {
    path.len() >= back && path[path.len() - back] == name
}

/// What a component at the end of this path is: one inside a component that
/// belongs to the document belongs to it too.
pub open spec fn place_of(s: StateView, path: Seq<Seq<char>>) -> Place {
    let in_list = lies_in(path, 1, "components"@);
    if s.component is Some {
        if in_list && lies_in(path, 2, "component"@) && (s.place == Place::Subject || s.place
            == Place::Listed) {
            Place::Listed
        } else {
            Place::Elsewhere
        }
    } else if lies_in(path, 1, "metadata"@) {
        Place::Subject
    } else if in_list && lies_in(path, 2, "bom"@) {
        Place::Listed
    } else {
        Place::Elsewhere
    }
}

/// The state inside a component that begins.
pub open spec fn entered(s: StateView, fresh: ComponentView, place: Place) -> StateView {
    StateView {
        component: Some(fresh),
        place,
        at: s.doc.components.len(),
        around: match s.component {
            Some(component) => s.around.push(OpenView { component, place: s.place, at: s.at }),
            None => s.around,
        },
        ..s
    }
}

/// The state behind a component, back in the one around it.
pub open spec fn left(s: StateView) -> StateView {
    if s.around.len() > 0 {
        let outer = s.around.last();
        StateView {
            component: Some(outer.component),
            place: outer.place,
            at: outer.at,
            around: s.around.drop_last(),
            ..s
        }
    } else {
        StateView { component: None, place: Place::Elsewhere, at: 0, ..s }
    }
}

/// The list with an item at a position, or at its end.
pub open spec fn inserted_at<V>(list: Seq<V>, at: nat, item: V) -> Seq<V> {
    if at <= list.len() {
        list.insert(at as int, item)
    } else {
        list.push(item)
    }
}

/// The document with a component that is complete. A part stands before the parts
/// inside it.
pub open spec fn with_component(
    doc: SbomDocView,
    component: ComponentView,
    place: Place,
    at: nat,
) -> SbomDocView {
    match place {
        Place::Subject => SbomDocView { subject: Some(component), ..doc },
        Place::Listed => SbomDocView {
            components: inserted_at(doc.components, at, component),
            ..doc
        },
        Place::Elsewhere => doc,
    }
}

/// A part inside another component counts as nested, and the graph links the two.
pub open spec fn component_started(
    s: StateView,
    path: Seq<Seq<char>>,
    tag: TagView,
    empty: bool,
) -> StateView {
    let fresh = component_start(tag);
    let place = place_of(s, path);
    let inner = entered(s, fresh, place);
    let begun = match s.component {
        Some(outer) => if place == Place::Listed {
            StateView {
                nested: s.nested + 1,
                doc: SbomDocView {
                    dependencies: with_link(s.doc.dependencies, outer.bom_ref, fresh.bom_ref),
                    ..s.doc
                },
                ..inner
            }
        } else {
            inner
        },
        None => inner,
    };
    if empty {
        component_ended(begun)
    } else {
        begun
    }
}

pub open spec fn component_ended(s: StateView) -> StateView {
    match s.component {
        Some(finished) => left(
            StateView { doc: with_component(s.doc, finished, s.place, s.at), ..s },
        ),
        None => s,
    }
}

/// What the pivot does not model is read as a component that goes nowhere.
pub open spec fn set_aside(s: StateView, empty: bool) -> StateView {
    if empty {
        s
    } else {
        entered(s, ComponentView::of(""@), Place::Elsewhere)
    }
}

pub open spec fn dependency_started(s: StateView, tag: TagView, empty: bool) -> StateView {
    match tag.attr("ref"@) {
        Some(reference) => StateView {
            doc: SbomDocView {
                dependencies: if s.dependency_stack.len() > 0 {
                    with_edge(s.doc.dependencies, s.dependency_stack.last(), reference)
                } else {
                    s.doc.dependencies
                },
                ..s.doc
            },
            dependency_stack: if empty {
                s.dependency_stack
            } else {
                s.dependency_stack.push(reference)
            },
            ..s
        },
        None => s,
    }
}

/// The state behind a start tag or an empty-element tag.
pub open spec fn started(state: StateView, tag: TagView, empty: bool) -> StateView {
    let s = StateView {
        path: if empty {
            state.path
        } else {
            state.path.push(tag.name)
        },
        text: Seq::empty(),
        ..state
    };
    if tag.name == "bom"@ {
        StateView { saw_root: true, doc: bom_started(s.doc, tag), ..s }
    } else if tag.name == "component"@ {
        component_started(s, state.path, tag, empty)
    } else if tag.name == "hash"@ {
        StateView { pending_hash: tag.attr("alg"@), ..s }
    } else if tag.name == "reference"@ {
        StateView {
            pending_reference: Some(
                ExternalReferenceView {
                    kind: or_text(tag.attr("type"@), "other"@),
                    url: Seq::empty(),
                    comment: None,
                },
            ),
            ..s
        }
    } else if tag.name == "dependency"@ {
        dependency_started(s, tag, empty)
    } else if tag.name == "evidence"@ {
        set_aside(StateView { evidence: true, ..s }, empty)
    } else if tag.name == "pedigree"@ {
        set_aside(StateView { pedigree: true, ..s }, empty)
    } else if tag.name == "formulation"@ {
        set_aside(StateView { formulation: true, ..s }, empty)
    } else {
        s
    }
}

fn add_component(doc: &mut SbomDoc, component: Component, place: Place, at: usize)
    ensures
        final(doc).deep_view() == with_component(
            old(doc).deep_view(),
            component.deep_view(),
            place,
            at as nat,
        ),
{
    match place {
        Place::Subject => {
            doc.subject = Some(component);
        },
        Place::Listed => {
            let ghost before = doc.components.deep_view();
            assert(before.len() == doc.components@.len());
            if at <= doc.components.len() {
                doc.components.insert(at, component);
                assert(doc.components.deep_view() =~= before.insert(
                    at as int,
                    component.deep_view(),
                ));
            } else {
                append_one(&mut doc.components, component);
            }
        },
        Place::Elsewhere => {},
    }
}

impl State {
    fn new() -> (r: Self)
        ensures
            r@ == StateView::start(),
    {
        State {
            doc: SbomDoc::default(),
            saw_root: false,
            component: None,
            place: Place::Elsewhere,
            at: 0,
            around: empty_list(),
            nested: 0,
            text: String::new(),
            path: empty_list(),
            dependency_stack: empty_list(),
            pending_hash: None,
            pending_reference: None,
            evidence: false,
            pedigree: false,
            formulation: false,
        }
    }

    fn start_bom(&mut self, tag: &Tag)
        ensures
            final(self)@ == (StateView {
                saw_root: true,
                doc: bom_started(old(self)@.doc, tag.deep_view()),
                ..old(self)@
            }),
    {
        self.saw_root = true;
        self.doc.version = match get_attr(tag, "version") {
            Some(v) => parse_u32(v.as_str()),
            None => None,
        };
        self.doc.document_id = get_attr(tag, "serialNumber");
        let namespace = either(get_attr(tag, "xmlns"), get_attr(tag, "xsi:schemaLocation"));
        self.doc.spec = match version_from_namespace(text_or(&namespace, "")) {
            Some(version) => Some(SpecOrigin::new(FAMILY, version.as_str())),
            None => None,
        };
    }

    fn lies(&self, skip: usize, back: usize, name: &str) -> (r: bool)
        requires
            skip <= self@.path.len(),
            0 < back,
        ensures
            r == lies_in(self@.path.take(self@.path.len() - skip), back as int, name@),
    {
        let count = self.path.len() - skip;
        count >= back && same(self.path[count - back].as_str(), name)
    }

    /// `skip` is how many elements at the end of the path are not around the
    /// component.
    fn find_place(&self, skip: usize) -> (r: Place)
        requires
            skip <= self@.path.len(),
        ensures
            r == place_of(self@, self@.path.take(self@.path.len() - skip)),
    {
        let in_list = self.lies(skip, 1, "components");
        if self.component.is_some() {
            if in_list && self.lies(skip, 2, "component") && (self.place == Place::Subject
                || self.place == Place::Listed) {
                Place::Listed
            } else {
                Place::Elsewhere
            }
        } else if self.lies(skip, 1, "metadata") {
            Place::Subject
        } else if in_list && self.lies(skip, 2, "bom") {
            Place::Listed
        } else {
            Place::Elsewhere
        }
    }

    fn enter(&mut self, fresh: Component, place: Place)
        ensures
            final(self)@ == entered(old(self)@, fresh.deep_view(), place),
    {
        if let Some(outer) = &self.component {
            let outer = outer.copy();
            append_one(
                &mut self.around,
                Open { component: outer, place: self.place, at: self.at },
            );
        }
        self.component = Some(fresh);
        self.place = place;
        self.at = self.doc.components.len();
        assert(self.doc.components.deep_view().len() == self.doc.components@.len());
    }

    fn leave(&mut self)
        ensures
            final(self)@ == left(old(self)@),
    {
        let ghost before = self.around.deep_view();
        match self.around.pop() {
            Some(outer) => {
                assert(before.last() == outer.deep_view());
                assert(self.around.deep_view() =~= before.drop_last());
                self.component = Some(outer.component);
                self.place = outer.place;
                self.at = outer.at;
            },
            None => {
                assert(self.around.deep_view() =~= before);
                self.component = None;
                self.place = Place::Elsewhere;
                self.at = 0;
            },
        }
    }

    fn end_component(&mut self)
        ensures
            final(self)@ == component_ended(old(self)@),
    {
        if let Some(finished) = &self.component {
            let finished = finished.copy();
            add_component(&mut self.doc, finished, self.place, self.at);
            self.leave();
        }
    }

    fn start_component(&mut self, tag: &Tag, empty: bool)
        requires
            old(self)@.nested < usize::MAX,
            !empty ==> old(self)@.path.len() > 0,
        ensures
            final(self)@ == component_started(
                old(self)@,
                if empty {
                    old(self)@.path
                } else {
                    old(self)@.path.drop_last()
                },
                tag.deep_view(),
                empty,
            ),
            final(self)@.nested <= old(self)@.nested + 1,
    {
        let fresh = read_component_start(tag);
        let skip: usize = if empty {
            0
        } else {
            1
        };
        proof {
            let path = self@.path;
            assert(path.take(path.len() as int) =~= path);
            if path.len() > 0 {
                assert(path.take(path.len() - 1) =~= path.drop_last());
            }
        }
        let place = self.find_place(skip);
        if let Some(outer) = &self.component {
            if place == Place::Listed {
                let name = outer.bom_ref.copy();
                self.nested = self.nested + 1;
                add_link(&mut self.doc.dependencies, &name, &fresh.bom_ref);
            }
        }
        self.enter(fresh, place);
        if empty {
            self.end_component();
        }
    }

    fn set_aside(&mut self, empty: bool)
        ensures
            final(self)@ == set_aside(old(self)@, empty),
    {
        if !empty {
            self.enter(Component::new(""), Place::Elsewhere);
        }
    }

    fn start_dependency(&mut self, tag: &Tag, empty: bool)
        ensures
            final(self)@ == dependency_started(old(self)@, tag.deep_view(), empty),
    {
        if let Some(reference) = get_attr(tag, "ref") {
            if self.dependency_stack.len() > 0 {
                let parent = self.dependency_stack[self.dependency_stack.len() - 1].clone();
                assert(parent@ == self@.dependency_stack.last());
                add_edge(&mut self.doc.dependencies, parent.as_str(), reference.as_str());
            }
            if !empty {
                append_one(&mut self.dependency_stack, reference);
            }
        }
    }

    fn start(&mut self, tag: &Tag, empty: bool)
        requires
            old(self)@.nested < usize::MAX,
        ensures
            final(self)@ == started(old(self)@, tag.deep_view(), empty),
            final(self)@.nested <= old(self)@.nested + 1,
    {
        let ghost before = self@.path;
        if !empty {
            append_one(&mut self.path, tag.name.clone());
            assert(self@.path.drop_last() =~= before);
        }
        self.text = String::new();
        let name = tag.name.as_str();
        if same(name, "bom") {
            self.start_bom(tag);
        } else if same(name, "component") {
            self.start_component(tag, empty);
        } else if same(name, "hash") {
            self.pending_hash = get_attr(tag, "alg");
        } else if same(name, "reference") {
            let kind = get_attr(tag, "type");
            self.pending_reference = Some(
                ExternalReference {
                    kind: owned(text_or(&kind, "other")),
                    url: String::new(),
                    comment: None,
                },
            );
        } else if same(name, "dependency") {
            self.start_dependency(tag, empty);
        } else if same(name, "evidence") {
            self.evidence = true;
            self.set_aside(empty);
        } else if same(name, "pedigree") {
            self.pedigree = true;
            self.set_aside(empty);
        } else if same(name, "formulation") {
            self.formulation = true;
            self.set_aside(empty);
        }
    }
}

// ---------------------------------------------------------------------------
// End tags
// ---------------------------------------------------------------------------

/// The component once a text inside it belongs to it. The parent decides: `<name>`
/// is used for the component, its supplier, a licence and more.
pub open spec fn described(
    c: ComponentView,
    name: Seq<char>,
    parent: Seq<char>,
    text: Seq<char>,
) -> ComponentView {
    if name == "name"@ && parent == "supplier"@ {
        ComponentView { supplier: Some(text), ..c }
    } else if name == "name"@ && parent == "license"@ {
        ComponentView { licenses: c.licenses.push(LicenseView::Name(text)), ..c }
    } else if name == "id"@ && parent == "license"@ {
        ComponentView { licenses: c.licenses.push(LicenseView::Id(text)), ..c }
    } else if name == "name"@ && parent == "component"@ {
        ComponentView { name: text, ..c }
    } else if name == "version"@ && parent == "component"@ {
        ComponentView { version: Some(text), ..c }
    } else if name == "group"@ && parent == "component"@ {
        ComponentView { group: Some(text), ..c }
    } else if name == "purl"@ && parent == "component"@ {
        ComponentView { purl: Some(text), ..c }
    } else if name == "cpe"@ && parent == "component"@ {
        ComponentView { cpe: Some(text), ..c }
    } else if name == "description"@ && parent == "component"@ {
        ComponentView { description: Some(text), ..c }
    } else if name == "scope"@ && parent == "component"@ {
        ComponentView { scope: Some(text), ..c }
    } else if name == "author"@ && parent == "component"@ {
        ComponentView { author: Some(text), ..c }
    } else if name == "publisher"@ && parent == "component"@ {
        ComponentView { publisher: Some(text), ..c }
    } else if name == "copyright"@ && parent == "component"@ {
        ComponentView { copyright: Some(text), ..c }
    } else if name == "expression"@ && parent == "licenses"@ {
        ComponentView { licenses: c.licenses.push(LicenseView::Expression(text)), ..c }
    } else {
        c
    }
}

fn describe(c: Component, name: &str, parent: &str, text: &str) -> (r: Component)
    ensures
        r.deep_view() == described(c.deep_view(), name@, parent@, text@),
{
    let mut c = c;
    if same(name, "name") && same(parent, "supplier") {
        c.supplier = Some(owned(text));
    } else if same(name, "name") && same(parent, "license") {
        append_one(&mut c.licenses, License::Name(owned(text)));
    } else if same(name, "id") && same(parent, "license") {
        append_one(&mut c.licenses, License::Id(owned(text)));
    } else if same(name, "name") && same(parent, "component") {
        c.name = owned(text);
    } else if same(name, "version") && same(parent, "component") {
        c.version = Some(owned(text));
    } else if same(name, "group") && same(parent, "component") {
        c.group = Some(owned(text));
    } else if same(name, "purl") && same(parent, "component") {
        c.purl = Some(owned(text));
    } else if same(name, "cpe") && same(parent, "component") {
        c.cpe = Some(owned(text));
    } else if same(name, "description") && same(parent, "component") {
        c.description = Some(owned(text));
    } else if same(name, "scope") && same(parent, "component") {
        c.scope = Some(owned(text));
    } else if same(name, "author") && same(parent, "component") {
        c.author = Some(owned(text));
    } else if same(name, "publisher") && same(parent, "component") {
        c.publisher = Some(owned(text));
    } else if same(name, "copyright") && same(parent, "component") {
        c.copyright = Some(owned(text));
    } else if same(name, "expression") && same(parent, "licenses") {
        append_one(&mut c.licenses, License::Expression(owned(text)));
    }
    c
}

/// What a text inside an external reference belongs to.
pub open spec fn reference_described(
    r: ExternalReferenceView,
    name: Seq<char>,
    text: Seq<char>,
) -> ExternalReferenceView {
    if name == "url"@ {
        ExternalReferenceView { url: text, ..r }
    } else if name == "comment"@ {
        ExternalReferenceView { comment: Some(text), ..r }
    } else {
        r
    }
}

/// The state once the text of an element that ends belongs to whatever it is
/// about. `s.path` is that of the enclosing element.
pub open spec fn text_applied(s: StateView, name: Seq<char>) -> StateView {
    let parent = if s.path.len() > 0 {
        s.path.last()
    } else {
        ""@
    };
    if s.text.len() == 0 {
        s
    } else if s.pending_reference is Some {
        StateView {
            pending_reference: Some(
                reference_described(s.pending_reference->0, name, s.text),
            ),
            ..s
        }
    } else {
        match s.component {
            Some(c) => StateView {
                component: Some(described(c, name, parent, s.text)),
                ..s
            },
            None => if name == "timestamp"@ && parent == "metadata"@ {
                StateView { doc: SbomDocView { timestamp: Some(s.text), ..s.doc }, ..s }
            } else {
                s
            },
        }
    }
}

pub open spec fn hash_ended(s: StateView) -> StateView {
    match (s.pending_hash, s.component, s.pending_reference) {
        (Some(algorithm), Some(c), None) => StateView {
            pending_hash: None,
            component: Some(
                ComponentView { hashes: c.hashes.push(HashView::of(algorithm, s.text)), ..c },
            ),
            ..s
        },
        _ => StateView { pending_hash: None, ..s },
    }
}

pub open spec fn reference_ended(s: StateView) -> StateView {
    match (s.pending_reference, s.component) {
        (Some(reference), Some(c)) => StateView {
            pending_reference: None,
            component: Some(
                ComponentView {
                    external_references: if reference.url.len() > 0 {
                        c.external_references.push(reference)
                    } else {
                        c.external_references
                    },
                    ..c
                },
            ),
            ..s
        },
        _ => StateView { pending_reference: None, ..s },
    }
}

pub open spec fn without_last(list: Seq<Seq<char>>) -> Seq<Seq<char>> {
    if list.len() > 0 {
        list.drop_last()
    } else {
        list
    }
}

/// The state behind an end tag.
pub open spec fn ended(state: StateView, name: Seq<char>) -> StateView {
    let s = StateView { path: without_last(state.path), ..state };
    let after = if name == "dependency"@ {
        StateView { dependency_stack: without_last(s.dependency_stack), ..s }
    } else if name == "component"@ || name == "evidence"@ || name == "pedigree"@ || name
        == "formulation"@ {
        component_ended(s)
    } else if name == "hash"@ {
        hash_ended(s)
    } else if name == "reference"@ {
        reference_ended(s)
    } else {
        text_applied(s, name)
    };
    StateView { text: Seq::empty(), ..after }
}

fn drop_one(list: &mut Vec<String>)
    ensures
        final(list).deep_view() == without_last(old(list).deep_view()),
{
    let _ = list.pop();
    assert(list.deep_view() =~= without_last(old(list).deep_view()));
}

impl State {
    fn end_hash(&mut self)
        ensures
            final(self)@ == hash_ended(old(self)@),
    {
        if let (Some(algorithm), Some(c), None) = (
            &self.pending_hash,
            &self.component,
            &self.pending_reference,
        ) {
            let mut c = c.copy();
            append_one(
                &mut c.hashes,
                crate::model::sbom::Hash::new(algorithm.as_str(), self.text.as_str()),
            );
            self.component = Some(c);
        }
        self.pending_hash = None;
    }

    fn end_reference(&mut self)
        ensures
            final(self)@ == reference_ended(old(self)@),
    {
        if let (Some(reference), Some(c)) = (&self.pending_reference, &self.component) {
            if !reference.url.as_str().is_empty() {
                let mut c = c.copy();
                append_one(&mut c.external_references, reference.copy());
                self.component = Some(c);
            }
        }
        self.pending_reference = None;
    }

    /// Assigns a text node to whatever it belongs to.
    fn apply_text(&mut self, name: &str)
        ensures
            final(self)@ == text_applied(old(self)@, name@),
    {
        if self.text.as_str().is_empty() {
            return;
        }
        if let Some(reference) = &self.pending_reference {
            let mut reference = reference.copy();
            if same(name, "url") {
                reference.url = self.text.clone();
            } else if same(name, "comment") {
                reference.comment = Some(self.text.clone());
            }
            self.pending_reference = Some(reference);
            return;
        }
        let parent: &str = if self.path.len() > 0 {
            self.path[self.path.len() - 1].as_str()
        } else {
            ""
        };
        match &self.component {
            Some(c) => {
                self.component = Some(describe(c.copy(), name, parent, self.text.as_str()));
            },
            None => {
                if same(name, "timestamp") && same(parent, "metadata") {
                    self.doc.timestamp = Some(self.text.clone());
                }
            },
        }
    }

    fn end(&mut self, name: &str)
        ensures
            final(self)@ == ended(old(self)@, name@),
            final(self)@.nested == old(self)@.nested,
    {
        drop_one(&mut self.path);
        if same(name, "dependency") {
            drop_one(&mut self.dependency_stack);
        } else if same(name, "component") || same(name, "evidence") || same(name, "pedigree")
            || same(name, "formulation") {
            self.end_component();
        } else if same(name, "hash") {
            self.end_hash();
        } else if same(name, "reference") {
            self.end_reference();
        } else {
            self.apply_text(name);
        }
        self.text = String::new();
    }
}

// ---------------------------------------------------------------------------
// Reading
// ---------------------------------------------------------------------------

/// The state behind one more event, or why reading stops there.
pub open spec fn stepped(s: StateView, event: EventView) -> Result<StateView, ErrorView> {
    match event {
        EventView::Start(tag) => Ok(started(s, tag, false)),
        EventView::Empty(tag) => Ok(started(s, tag, true)),
        EventView::Text(Ok(text)) => Ok(StateView { text: trim(text), ..s }),
        EventView::Text(Err(problem)) => Err(parse_error(FORMAT@, problem)),
        EventView::End(name) => Ok(ended(s, name)),
        EventView::Failed(problem) => Err(parse_error(FORMAT@, problem)),
        _ => Ok(s),
    }
}

pub open spec fn folded(events: Seq<EventView>) -> Result<StateView, ErrorView>
    decreases events.len(),
{
    if events.len() == 0 {
        Ok(StateView::start())
    } else {
        match folded(events.drop_last()) {
            Ok(s) => stepped(s, events.last()),
            Err(e) => Err(e),
        }
    }
}

/// Outside of every component nothing of one is held.
pub open spec fn balanced(s: StateView) -> bool {
    s.component is None ==> s.around.len() == 0 && s.place == Place::Elsewhere && s.at == 0
}

#[verifier::spinoff_prover]
proof fn starting_stays_balanced(s: StateView, tag: TagView, empty: bool)
    requires
        balanced(s),
    ensures
        balanced(started(s, tag, empty)),
{
}

#[verifier::spinoff_prover]
proof fn ending_stays_balanced(s: StateView, name: Seq<char>)
    requires
        balanced(s),
    ensures
        balanced(ended(s, name)),
{
}

/// Reading keeps the open components balanced, whatever events come.
pub proof fn reading_stays_balanced(events: Seq<EventView>)
    ensures
        folded(events) matches Ok(s) ==> balanced(s),
    decreases events.len(),
{
    if events.len() > 0 {
        reading_stays_balanced(events.drop_last());
        if let Ok(s) = folded(events.drop_last()) {
            match events.last() {
                EventView::Start(tag) => starting_stays_balanced(s, tag, false),
                EventView::Empty(tag) => starting_stays_balanced(s, tag, true),
                EventView::End(name) => ending_stays_balanced(s, name),
                _ => {},
            }
        }
    }
}

/// A component inside another leaves the one around it as it was.
pub proof fn inner_components_leave_the_outer_one_alone(
    s: StateView,
    inner: ComponentView,
    place: Place,
)
    requires
        balanced(s),
    ensures
        left(entered(s, inner, place)) == s,
{
    if let Some(component) = s.component {
        let open = OpenView { component, place: s.place, at: s.at };
        assert(s.around.push(open).drop_last() =~= s.around);
    }
}

/// A part is listed before what is inside it: the parts that came meanwhile stand
/// behind it, in their order, and no component is lost.
pub proof fn parts_stand_behind_their_owner(
    doc: SbomDocView,
    owner: ComponentView,
    parts: Seq<ComponentView>,
)
    ensures
        with_component(
            SbomDocView { components: doc.components + parts, ..doc },
            owner,
            Place::Listed,
            doc.components.len(),
        ).components == doc.components.push(owner) + parts,
{
    let all = doc.components + parts;
    assert(all.insert(doc.components.len() as int, owner) =~= doc.components.push(owner) + parts);
}

/// The document and notices that reading these events gives, or the refusal.
pub open spec fn read_spec(events: Seq<EventView>, ctx: CtxView) -> (
    Result<DocView, ErrorView>,
    CtxView,
) {
    match folded(events) {
        Err(e) => (Err(e), ctx),
        Ok(s) => if !s.saw_root {
            (
                Err(
                    parse_error(
                        FORMAT@,
                        "no <bom> root element — this does not look like a CycloneDX document"@,
                    ),
                ),
                ctx,
            )
        } else if s.doc.spec is None {
            (
                Err(
                    parse_error(
                        FORMAT@,
                        "the <bom> element declares no CycloneDX namespace, so its spec version is unknown"@,
                    ),
                ),
                ctx,
            )
        } else {
            (
                Ok(DocView::Sbom(sort_doc(s.doc))),
                ctx.degraded_if(
                    s.nested > 0,
                    "cyclonedx-xml: "@ + decimal(s.nested)
                        + " nested component(s) were flattened to the top level; the pivot has no component tree, and the dependency graph carries the relationships"@,
                ).lossy_if(
                    s.formulation,
                    "cyclonedx-xml: the formulation (how things were made) was dropped"@,
                ).lossy_if(
                    s.evidence,
                    "cyclonedx-xml: evidence of how components were identified was dropped"@,
                ).lossy_if(
                    s.pedigree,
                    "cyclonedx-xml: the pedigree of components was dropped"@,
                ),
            )
        },
    }
}

proof fn a_stop_is_final(events: Seq<EventView>, i: int)
    requires
        0 <= i <= events.len(),
        folded(events.take(i)) is Err,
    ensures
        folded(events) == folded(events.take(i)),
    decreases events.len(),
{
    if i < events.len() {
        assert(events.drop_last().take(i) =~= events.take(i));
        a_stop_is_final(events.drop_last(), i);
    } else {
        assert(events.take(i) =~= events);
    }
}

#[verifier::spinoff_prover]
#[verifier::rlimit(60)]
fn fold_events(events: &Vec<XmlEvent>) -> (r: Result<State, Error>)
    ensures
        match r {
            Ok(s) => folded(events.deep_view()) == Ok::<StateView, ErrorView>(s@),
            Err(e) => folded(events.deep_view()) == Err::<StateView, ErrorView>(e.deep_view()),
        },
        r matches Ok(s) ==> s@.nested <= events@.len(),
{
    let ghost all = events.deep_view();
    let mut state = State::new();
    let mut i: usize = 0;
    assert(all.take(0) =~= Seq::empty());
    while i < events.len()
        invariant
            i <= events@.len(),
            all == events.deep_view(),
            folded(all.take(i as int)) == Ok::<StateView, ErrorView>(state@),
            state@.nested <= i,
        decreases events@.len() - i,
    {
        assert(all.take(i as int + 1).drop_last() =~= all.take(i as int));
        assert(all.take(i as int + 1).last() == events[i as int].deep_view());
        match &events[i] {
            XmlEvent::Start(tag) => state.start(tag, false),
            XmlEvent::Empty(tag) => state.start(tag, true),
            XmlEvent::Text(Ok(text)) => {
                state.text = trimmed(text.as_str());
            },
            XmlEvent::Text(Err(problem)) => {
                proof {
                    a_stop_is_final(all, i as int + 1);
                }
                return Err(Error::parse(FORMAT, problem.as_str()));
            },
            XmlEvent::End(name) => state.end(name.as_str()),
            XmlEvent::Failed(problem) => {
                proof {
                    a_stop_is_final(all, i as int + 1);
                }
                return Err(Error::parse(FORMAT, problem.as_str()));
            },
            _ => {},
        }
        i = i + 1;
    }
    assert(all.take(i as int) =~= all);
    Ok(state)
}

/// Reads the events of a document.
pub fn read_document(events: &Vec<XmlEvent>, ctx: &mut FormatCtx) -> (r: Result<Doc, Error>)
    ensures
        (read_result(r), final(ctx)@) == read_spec(events.deep_view(), old(ctx)@),
{
    let state = match fold_events(events) {
        Ok(state) => state,
        Err(e) => {
            return Err(e);
        },
    };
    if !state.saw_root {
        return Err(
            Error::parse(
                FORMAT,
                "no <bom> root element — this does not look like a CycloneDX document",
            ),
        );
    }
    if state.doc.spec.is_none() {
        return Err(
            Error::parse(
                FORMAT,
                "the <bom> element declares no CycloneDX namespace, so its spec version is unknown",
            ),
        );
    }
    if state.nested > 0 {
        ctx.degraded(
            concat3(
                "cyclonedx-xml: ",
                number(state.nested as u64).as_str(),
                " nested component(s) were flattened to the top level; the pivot has no component tree, and the dependency graph carries the relationships",
            ).as_str(),
        );
    }
    if state.formulation {
        ctx.lossy("cyclonedx-xml: the formulation (how things were made) was dropped");
    }
    if state.evidence {
        ctx.lossy("cyclonedx-xml: evidence of how components were identified was dropped");
    }
    if state.pedigree {
        ctx.lossy("cyclonedx-xml: the pedigree of components was dropped");
    }
    let mut doc = state.doc;
    doc.sort();
    Ok(Doc::Sbom(Box::new(doc)))
}

pub fn read(input: &[u8], ctx: &mut FormatCtx) -> (r: Result<Doc, Error>)
    ensures
        (read_result(r), final(ctx)@) == read_spec(xml_events(input@, true), old(ctx)@),
        forall|doc: SbomDocView, target: Seq<char>| #[trigger]
            holds_document(input@, doc, target) ==> (read_result(r), final(ctx)@) == (
                Ok::<DocView, ErrorView>(DocView::Sbom(sort_doc(kept_doc(doc, target)))),
                old(ctx)@,
            ),
{
    let events = read_events(input, true);
    proof {
        let events = events.deep_view();
        let before = ctx@;
        assert forall|doc: SbomDocView, target: Seq<char>| #[trigger]
            holds_document(input@, doc, target) implies read_spec(events, before) == (
            Ok::<DocView, ErrorView>(DocView::Sbom(sort_doc(kept_doc(doc, target)))),
            before,
        ) by {
            written_bytes_read_back(input@, events, doc, target, before);
        }
    }
    read_document(&events, ctx)
}

// ---------------------------------------------------------------------------
// Writing
// ---------------------------------------------------------------------------

/// The hash algorithms CycloneDX accepts. One outside this set would invalidate
/// the whole document, not just the one hash.
pub open spec fn writable_algorithm(algorithm: Seq<char>) -> bool {
    algorithm == "MD5"@ || algorithm == "SHA-1"@ || algorithm == "SHA-256"@ || algorithm
        == "SHA-384"@ || algorithm == "SHA-512"@ || algorithm == "SHA3-256"@ || algorithm
        == "SHA3-384"@ || algorithm == "SHA3-512"@ || algorithm == "BLAKE2b-256"@ || algorithm
        == "BLAKE2b-384"@ || algorithm == "BLAKE2b-512"@ || algorithm == "BLAKE3"@
}

pub fn hash_is_writable(algorithm: &str) -> (r: bool)
    ensures
        r == writable_algorithm(algorithm@),
{
    same(algorithm, "MD5") || same(algorithm, "SHA-1") || same(algorithm, "SHA-256") || same(
        algorithm,
        "SHA-384",
    ) || same(algorithm, "SHA-512") || same(algorithm, "SHA3-256") || same(algorithm, "SHA3-384")
        || same(algorithm, "SHA3-512") || same(algorithm, "BLAKE2b-256") || same(
        algorithm,
        "BLAKE2b-384",
    ) || same(algorithm, "BLAKE2b-512") || same(algorithm, "BLAKE3")
}

pub open spec fn hash_items(hash: HashView) -> Seq<Item> {
    if writable_algorithm(hash.algorithm) {
        seq![
            Item::Text {
                name: "hash"@,
                attrs: seq![("alg"@, hash.algorithm)],
                text: hash.value,
            },
        ]
    } else {
        Seq::empty()
    }
}

/// `<expression>` is a sibling of `<license>`, not a child.
pub open spec fn license_items(license: LicenseView) -> Seq<Item> {
    match license {
        LicenseView::Expression(expression) => seq![text_item("expression"@, expression)],
        LicenseView::Id(id) => seq![
            open_item("license"@, Seq::empty()),
            text_item("id"@, id),
            close_item("license"@),
        ],
        LicenseView::Name(name) => seq![
            open_item("license"@, Seq::empty()),
            text_item("name"@, name),
            close_item("license"@),
        ],
    }
}

pub open spec fn reference_items(reference: ExternalReferenceView) -> Seq<Item> {
    seq![
        open_item("reference"@, seq![("type"@, reference.kind)]),
        text_item("url"@, reference.url),
    ] + opt_text_items("comment"@, reference.comment) + seq![close_item("reference"@)]
}

/// The items in an element of their own, unless there are none.
pub open spec fn wrapped(name: Seq<char>, items: Seq<Item>) -> Seq<Item> {
    if items.len() == 0 {
        Seq::empty()
    } else {
        seq![open_item(name, Seq::empty())] + items + seq![close_item(name)]
    }
}

pub open spec fn component_attrs(component: ComponentView, target: Seq<char>) -> Seq<AttrView> {
    seq![("type"@, kind_name(narrowed(component.kind, target).0))] + match component.bom_ref {
        Some(r) => seq![("bom-ref"@, r)],
        None => Seq::empty(),
    }
}

/// Who made the component and what it is called.
#[verifier::opaque]
pub open spec fn origin_items(component: ComponentView) -> Seq<Item> {
    wrapped("supplier"@, opt_text_items("name"@, component.supplier)) + opt_text_items(
        "author"@,
        component.author,
    ) + opt_text_items("publisher"@, component.publisher) + opt_text_items(
        "group"@,
        component.group,
    ) + seq![text_item("name"@, component.name)]
}

#[verifier::opaque]
pub open spec fn detail_items(component: ComponentView) -> Seq<Item> {
    opt_text_items("version"@, component.version) + opt_text_items(
        "description"@,
        component.description,
    ) + opt_text_items("scope"@, component.scope) + wrapped(
        "hashes"@,
        flat(component.hashes, |h: HashView| hash_items(h)),
    ) + wrapped("licenses"@, flat(component.licenses, |l: LicenseView| license_items(l)))
}

#[verifier::opaque]
pub open spec fn reach_items(component: ComponentView) -> Seq<Item> {
    opt_text_items("copyright"@, component.copyright) + opt_text_items("cpe"@, component.cpe)
        + opt_text_items("purl"@, component.purl) + wrapped(
        "externalReferences"@,
        flat(component.external_references, |e: ExternalReferenceView| reference_items(e)),
    )
}

/// The lines of a component, in the order that the schema fixes.
pub open spec fn component_items(component: ComponentView, target: Seq<char>) -> Seq<Item> {
    seq![open_item("component"@, component_attrs(component, target))] + origin_items(component)
        + detail_items(component) + reach_items(component) + seq![close_item("component"@)]
}

fn one_attr<'a>(name: &'a str, value: &str) -> (r: Attrs<'a>)
    ensures
        r.deep_view() == seq![(name@, value@)],
{
    let mut attrs: Attrs = empty_list();
    append_one(&mut attrs, attr(name, value));
    assert(attrs.deep_view() =~= seq![(name@, value@)]);
    attrs
}

fn has_writable(hashes: &Vec<crate::model::sbom::Hash>) -> (r: bool)
    ensures
        r == (flat(hashes.deep_view(), |h: HashView| hash_items(h)).len() > 0),
{
    let ghost all = hashes.deep_view();
    let mut i: usize = 0;
    assert(all.take(0) =~= Seq::empty());
    while i < hashes.len()
        invariant
            i <= hashes@.len(),
            all == hashes.deep_view(),
            flat(all.take(i as int), |h: HashView| hash_items(h)).len() == 0,
        decreases hashes@.len() - i,
    {
        assert(all.take(i as int + 1).drop_last() =~= all.take(i as int));
        if hash_is_writable(hashes[i].algorithm.as_str()) {
            proof {
                flat_grows(all, i as int + 1);
            }
            return true;
        }
        i = i + 1;
    }
    assert(all.take(i as int) =~= all);
    false
}

proof fn flat_grows(hashes: Seq<HashView>, i: int)
    requires
        0 <= i <= hashes.len(),
    ensures
        flat(hashes.take(i), |h: HashView| hash_items(h)).len() <= flat(
            hashes,
            |h: HashView| hash_items(h),
        ).len(),
    decreases hashes.len(),
{
    if i < hashes.len() {
        assert(hashes.drop_last().take(i) =~= hashes.take(i));
        flat_grows(hashes.drop_last(), i);
    } else {
        assert(hashes.take(i) =~= hashes);
    }
}

fn write_hashes(w: &mut XmlWriter, hashes: &Vec<crate::model::sbom::Hash>)
    requires
        old(w).wf(),
    ensures
        final(w).wf(),
        final(w)@ == old(w)@ + wrapped(
            "hashes"@,
            flat(hashes.deep_view(), |h: HashView| hash_items(h)),
        ),
{
    if !has_writable(hashes) {
        assert(w@ =~= old(w)@ + Seq::<Item>::empty());
        return;
    }
    w.start("hashes");
    let ghost start = w@;
    let ghost all = hashes.deep_view();
    let mut i: usize = 0;
    assert(all.take(0) =~= Seq::empty());
    assert(start + Seq::<Item>::empty() =~= start);
    while i < hashes.len()
        invariant
            i <= hashes@.len(),
            all == hashes.deep_view(),
            w.wf(),
            w@ == start + flat(all.take(i as int), |h: HashView| hash_items(h)),
        decreases hashes@.len() - i,
    {
        assert(all.take(i as int + 1).drop_last() =~= all.take(i as int));
        if hash_is_writable(hashes[i].algorithm.as_str()) {
            w.text_element(
                "hash",
                &one_attr("alg", hashes[i].algorithm.as_str()),
                hashes[i].value.as_str(),
            );
        }
        i = i + 1;
        assert(w@ =~= start + flat(all.take(i as int), |h: HashView| hash_items(h)));
    }
    assert(all.take(i as int) =~= all);
    w.close("hashes");
    assert(w@ =~= old(w)@ + wrapped("hashes"@, flat(all, |h: HashView| hash_items(h))));
}

fn write_licenses(w: &mut XmlWriter, licenses: &Vec<License>)
    requires
        old(w).wf(),
    ensures
        final(w).wf(),
        final(w)@ == old(w)@ + wrapped(
            "licenses"@,
            flat(licenses.deep_view(), |l: LicenseView| license_items(l)),
        ),
{
    let ghost all = licenses.deep_view();
    if licenses.len() == 0 {
        assert(w@ =~= old(w)@ + wrapped(
            "licenses"@,
            flat(all, |l: LicenseView| license_items(l)),
        ));
        return;
    }
    w.start("licenses");
    let ghost start = w@;
    let mut i: usize = 0;
    assert(all.take(0) =~= Seq::empty());
    assert(start + Seq::<Item>::empty() =~= start);
    while i < licenses.len()
        invariant
            i <= licenses@.len(),
            all == licenses.deep_view(),
            w.wf(),
            w@ == start + flat(all.take(i as int), |l: LicenseView| license_items(l)),
            i > 0 ==> flat(all.take(i as int), |l: LicenseView| license_items(l)).len() > 0,
        decreases licenses@.len() - i,
    {
        assert(all.take(i as int + 1).drop_last() =~= all.take(i as int));
        match &licenses[i] {
            License::Expression(expression) => w.text("expression", expression.as_str()),
            License::Id(id) => {
                w.start("license");
                w.text("id", id.as_str());
                w.close("license");
            },
            License::Name(name) => {
                w.start("license");
                w.text("name", name.as_str());
                w.close("license");
            },
        }
        i = i + 1;
        assert(w@ =~= start + flat(all.take(i as int), |l: LicenseView| license_items(l)));
    }
    assert(all.take(i as int) =~= all);
    w.close("licenses");
    assert(w@ =~= old(w)@ + wrapped("licenses"@, flat(all, |l: LicenseView| license_items(l))));
}

fn write_references(w: &mut XmlWriter, references: &Vec<ExternalReference>)
    requires
        old(w).wf(),
    ensures
        final(w).wf(),
        final(w)@ == old(w)@ + wrapped(
            "externalReferences"@,
            flat(references.deep_view(), |e: ExternalReferenceView| reference_items(e)),
        ),
{
    let ghost all = references.deep_view();
    if references.len() == 0 {
        assert(w@ =~= old(w)@ + wrapped(
            "externalReferences"@,
            flat(all, |e: ExternalReferenceView| reference_items(e)),
        ));
        return;
    }
    w.start("externalReferences");
    let ghost start = w@;
    let mut i: usize = 0;
    assert(all.take(0) =~= Seq::empty());
    assert(start + Seq::<Item>::empty() =~= start);
    while i < references.len()
        invariant
            i <= references@.len(),
            all == references.deep_view(),
            w.wf(),
            w@ == start + flat(
                all.take(i as int),
                |e: ExternalReferenceView| reference_items(e),
            ),
            i > 0 ==> flat(
                all.take(i as int),
                |e: ExternalReferenceView| reference_items(e),
            ).len() > 0,
        decreases references@.len() - i,
    {
        assert(all.take(i as int + 1).drop_last() =~= all.take(i as int));
        let reference = &references[i];
        w.open("reference", &one_attr("type", reference.kind.as_str()));
        w.text("url", reference.url.as_str());
        w.opt_text("comment", &reference.comment);
        w.close("reference");
        i = i + 1;
        assert(w@ =~= start + flat(
            all.take(i as int),
            |e: ExternalReferenceView| reference_items(e),
        ));
    }
    assert(all.take(i as int) =~= all);
    w.close("externalReferences");
    assert(w@ =~= old(w)@ + wrapped(
        "externalReferences"@,
        flat(all, |e: ExternalReferenceView| reference_items(e)),
    ));
}

fn write_origin(w: &mut XmlWriter, component: &Component)
    requires
        old(w).wf(),
    ensures
        final(w).wf(),
        final(w)@ == old(w)@ + origin_items(component.deep_view()),
{
    if let Some(supplier) = &component.supplier {
        w.start("supplier");
        w.text("name", supplier.as_str());
        w.close("supplier");
    }
    assert(w@ =~= old(w)@ + wrapped(
        "supplier"@,
        opt_text_items("name"@, component.supplier.deep_view()),
    ));
    w.opt_text("author", &component.author);
    w.opt_text("publisher", &component.publisher);
    w.opt_text("group", &component.group);
    w.text("name", component.name.as_str());
    reveal(origin_items);
    assert(w@ =~= old(w)@ + origin_items(component.deep_view()));
}

fn write_detail(w: &mut XmlWriter, component: &Component)
    requires
        old(w).wf(),
    ensures
        final(w).wf(),
        final(w)@ == old(w)@ + detail_items(component.deep_view()),
{
    w.opt_text("version", &component.version);
    w.opt_text("description", &component.description);
    w.opt_text("scope", &component.scope);
    write_hashes(w, &component.hashes);
    write_licenses(w, &component.licenses);
    reveal(detail_items);
    assert(w@ =~= old(w)@ + detail_items(component.deep_view()));
}

fn write_reach(w: &mut XmlWriter, component: &Component)
    requires
        old(w).wf(),
    ensures
        final(w).wf(),
        final(w)@ == old(w)@ + reach_items(component.deep_view()),
{
    w.opt_text("copyright", &component.copyright);
    w.opt_text("cpe", &component.cpe);
    w.opt_text("purl", &component.purl);
    write_references(w, &component.external_references);
    reveal(reach_items);
    assert(w@ =~= old(w)@ + reach_items(component.deep_view()));
}

pub fn write_component(w: &mut XmlWriter, component: &Component, target: &str)
    requires
        old(w).wf(),
    ensures
        final(w).wf(),
        final(w)@ == old(w)@ + component_items(component.deep_view(), target@),
{
    let mut attrs = one_attr("type", component.kind.narrow_to(target).0.as_str());
    if let Some(r) = &component.bom_ref {
        append_one(&mut attrs, attr("bom-ref", r.as_str()));
    }
    assert(attrs.deep_view() =~= component_attrs(component.deep_view(), target@));
    w.open("component", &attrs);
    write_origin(w, component);
    write_detail(w, component);
    write_reach(w, component);
    w.close("component");
    assert(w@ =~= old(w)@ + component_items(component.deep_view(), target@));
}

pub open spec fn target_items(targets: Seq<Seq<char>>) -> Seq<Item> {
    targets.map_values(|t: Seq<char>| empty_item("dependency"@, seq![("ref"@, t)]))
}

pub open spec fn dependency_items(dependency: DependencyView) -> Seq<Item> {
    if dependency.depends_on.len() == 0 {
        seq![empty_item("dependency"@, seq![("ref"@, dependency.bom_ref)])]
    } else {
        seq![open_item("dependency"@, seq![("ref"@, dependency.bom_ref)])] + target_items(
            dependency.depends_on,
        ) + seq![close_item("dependency"@)]
    }
}

pub open spec fn metadata_items(doc: SbomDocView, target: Seq<char>) -> Seq<Item> {
    wrapped(
        "metadata"@,
        opt_text_items("timestamp"@, doc.timestamp) + match doc.subject {
            Some(subject) => component_items(subject, target),
            None => Seq::empty(),
        },
    )
}

pub open spec fn bom_attrs(doc: SbomDocView, target: Seq<char>) -> Seq<AttrView> {
    seq![("xmlns"@, NAMESPACE_PREFIX@ + target)] + (match serial_of(doc) {
        Some(serial) => seq![("serialNumber"@, serial)],
        None => Seq::empty(),
    }) + seq![
        (
            "version"@,
            match doc.version {
                Some(v) => decimal(v as nat),
                None => decimal(1),
            },
        ),
    ]
}

/// The lines of a document.
pub open spec fn bom_items(doc: SbomDocView, target: Seq<char>) -> Seq<Item> {
    seq![declaration_item(), open_item("bom"@, bom_attrs(doc, target))] + metadata_items(
        doc,
        target,
    ) + seq![open_item("components"@, Seq::empty())] + flat(
        doc.components,
        |c: ComponentView| component_items(c, target),
    ) + seq![close_item("components"@)] + wrapped(
        "dependencies"@,
        flat(doc.dependencies, |d: DependencyView| dependency_items(d)),
    ) + seq![close_item("bom"@)]
}

pub open spec fn has_odd_hash(component: ComponentView) -> bool {
    any_in(component.hashes, |h: HashView| !writable_algorithm(h.algorithm))
}

pub open spec fn write_notices(doc: SbomDocView, target: Seq<char>, ctx: CtxView) -> CtxView {
    narrowing_notices(
        narrowed_kinds(all_components(doc), target),
        FORMAT@,
        target,
        ctx.lossy_if(
            doc.document_id is Some && serial_of(doc) is None,
            "cyclonedx-xml: the source document's identity is not a `urn:uuid:…` and could not be carried over as a serial number"@,
        ).lossy_if(
            any_in(all_components(doc), |c: ComponentView| has_odd_hash(c)),
            "cyclonedx-xml: hashes using an algorithm CycloneDX does not define were dropped; emitting one would make the whole document invalid"@,
        ),
    )
}

pub open spec fn written(doc: DocView, ctx: CtxView) -> (Result<Seq<char>, ErrorView>, CtxView) {
    match doc {
        DocView::Sbom(doc) => (
            Ok(rendered(bom_items(doc, target_of(doc, ctx)))),
            write_notices(doc, target_of(doc, ctx), ctx),
        ),
        _ => (Err(wrong_kind("expected a bill of materials"@)), ctx),
    }
}

fn write_dependency(w: &mut XmlWriter, dependency: &Dependency)
    requires
        old(w).wf(),
    ensures
        final(w).wf(),
        final(w)@ == old(w)@ + dependency_items(dependency.deep_view()),
{
    let attrs = one_attr("ref", dependency.bom_ref.as_str());
    if dependency.depends_on.len() == 0 {
        w.empty("dependency", &attrs);
        assert(w@ =~= old(w)@ + dependency_items(dependency.deep_view()));
        return;
    }
    w.open("dependency", &attrs);
    let ghost start = w@;
    let ghost goal = target_items(dependency.depends_on.deep_view());
    let mut i: usize = 0;
    assert(start + goal.take(0) =~= start);
    while i < dependency.depends_on.len()
        invariant
            i <= dependency.depends_on@.len(),
            goal == target_items(dependency.depends_on.deep_view()),
            w.wf(),
            w@ == start + goal.take(i as int),
        decreases dependency.depends_on@.len() - i,
    {
        w.empty("dependency", &one_attr("ref", dependency.depends_on[i].as_str()));
        i = i + 1;
        assert(w@ =~= start + goal.take(i as int));
    }
    assert(goal.take(i as int) =~= goal);
    w.close("dependency");
    assert(w@ =~= old(w)@ + dependency_items(dependency.deep_view()));
}

fn write_dependencies(w: &mut XmlWriter, dependencies: &Vec<Dependency>)
    requires
        old(w).wf(),
    ensures
        final(w).wf(),
        final(w)@ == old(w)@ + wrapped(
            "dependencies"@,
            flat(dependencies.deep_view(), |d: DependencyView| dependency_items(d)),
        ),
{
    let ghost all = dependencies.deep_view();
    if dependencies.len() == 0 {
        assert(w@ =~= old(w)@ + wrapped(
            "dependencies"@,
            flat(all, |d: DependencyView| dependency_items(d)),
        ));
        return;
    }
    w.start("dependencies");
    let ghost start = w@;
    let mut i: usize = 0;
    assert(all.take(0) =~= Seq::empty());
    assert(start + Seq::<Item>::empty() =~= start);
    while i < dependencies.len()
        invariant
            i <= dependencies@.len(),
            all == dependencies.deep_view(),
            w.wf(),
            w@ == start + flat(all.take(i as int), |d: DependencyView| dependency_items(d)),
            i > 0 ==> flat(all.take(i as int), |d: DependencyView| dependency_items(d)).len() > 0,
        decreases dependencies@.len() - i,
    {
        assert(all.take(i as int + 1).drop_last() =~= all.take(i as int));
        write_dependency(w, &dependencies[i]);
        i = i + 1;
        assert(w@ =~= start + flat(all.take(i as int), |d: DependencyView| dependency_items(d)));
    }
    assert(all.take(i as int) =~= all);
    w.close("dependencies");
    assert(w@ =~= old(w)@ + wrapped(
        "dependencies"@,
        flat(all, |d: DependencyView| dependency_items(d)),
    ));
}

fn write_metadata(w: &mut XmlWriter, doc: &SbomDoc, target: &str)
    requires
        old(w).wf(),
    ensures
        final(w).wf(),
        final(w)@ == old(w)@ + metadata_items(doc.deep_view(), target@),
{
    if doc.timestamp.is_some() || doc.subject.is_some() {
        w.start("metadata");
        w.opt_text("timestamp", &doc.timestamp);
        if let Some(subject) = &doc.subject {
            write_component(w, subject, target);
        }
        w.close("metadata");
    }
    assert(w@ =~= old(w)@ + metadata_items(doc.deep_view(), target@));
}

fn write_components(w: &mut XmlWriter, components: &Vec<Component>, target: &str)
    requires
        old(w).wf(),
    ensures
        final(w).wf(),
        final(w)@ == old(w)@ + flat(
            components.deep_view(),
            |c: ComponentView| component_items(c, target@),
        ),
{
    let ghost all = components.deep_view();
    let ghost start = w@;
    let mut i: usize = 0;
    assert(all.take(0) =~= Seq::empty());
    assert(start + Seq::<Item>::empty() =~= start);
    while i < components.len()
        invariant
            i <= components@.len(),
            all == components.deep_view(),
            w.wf(),
            w@ == start + flat(
                all.take(i as int),
                |c: ComponentView| component_items(c, target@),
            ),
        decreases components@.len() - i,
    {
        assert(all.take(i as int + 1).drop_last() =~= all.take(i as int));
        write_component(w, &components[i], target);
        i = i + 1;
        assert(w@ =~= start + flat(
            all.take(i as int),
            |c: ComponentView| component_items(c, target@),
        ));
    }
    assert(all.take(i as int) =~= all);
}

fn odd_hash(component: &Component) -> (r: bool)
    ensures
        r == has_odd_hash(component.deep_view()),
{
    any_value(
        &component.hashes,
        |h: &crate::model::sbom::Hash| -> (o: bool)
            ensures
                o == !writable_algorithm(h.deep_view().algorithm)
            { !hash_is_writable(h.algorithm.as_str()) },
        Ghost(|h: HashView| !writable_algorithm(h.algorithm)),
    )
}

fn give_notices(doc: &SbomDoc, target: &str, ctx: &mut FormatCtx)
    ensures
        final(ctx)@ == write_notices(doc.deep_view(), target@, old(ctx)@),
{
    if doc.document_id.is_some() && find_serial(doc).is_none() {
        ctx.lossy(
            "cyclonedx-xml: the source document's identity is not a `urn:uuid:…` and could not be carried over as a serial number",
        );
    }
    let all = list_components(doc);
    if any_value(
        &all,
        |c: &Component| -> (o: bool)
            ensures
                o == has_odd_hash(c.deep_view())
            { odd_hash(c) },
        Ghost(|c: ComponentView| has_odd_hash(c)),
    ) {
        ctx.lossy(
            "cyclonedx-xml: hashes using an algorithm CycloneDX does not define were dropped; emitting one would make the whole document invalid",
        );
    }
    let kinds = list_narrowed(&all, target);
    note_narrowing(&kinds, FORMAT, target, ctx);
}

fn bom_text(doc: &SbomDoc, target: &str) -> (r: String)
    ensures
        r@ == rendered(bom_items(doc.deep_view(), target@)),
{
    let mut w = XmlWriter::new();
    w.declaration();
    let mut attrs = one_attr("xmlns", concat(NAMESPACE_PREFIX, target).as_str());
    if let Some(serial) = find_serial(doc) {
        append_one(&mut attrs, attr("serialNumber", serial.as_str()));
    }
    let version: u64 = match doc.version {
        Some(v) => v as u64,
        None => 1,
    };
    append_one(&mut attrs, attr_number("version", version));
    assert(attrs.deep_view() =~= bom_attrs(doc.deep_view(), target@));
    w.open("bom", &attrs);
    assert(w@ =~= seq![
        declaration_item(),
        open_item("bom"@, bom_attrs(doc.deep_view(), target@)),
    ]);
    write_metadata(&mut w, doc, target);
    w.start("components");
    write_components(&mut w, &doc.components, target);
    w.close("components");
    write_dependencies(&mut w, &doc.dependencies);
    w.close("bom");
    assert(w@ =~= bom_items(doc.deep_view(), target@));
    w.finish()
}

pub fn write(doc: &Doc, ctx: &mut FormatCtx) -> (r: Result<String, Error>)
    ensures
        (text_result(r), final(ctx)@) == written(doc.deep_view(), old(ctx)@),
{
    let doc = match doc.as_sbom() {
        Ok(doc) => doc,
        Err(e) => {
            return Err(e);
        },
    };
    let target = pick_target(doc, ctx);
    let text = bom_text(doc, target.as_str());
    give_notices(doc, target.as_str(), ctx);
    Ok(text)
}

} // verus!
