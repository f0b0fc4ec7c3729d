//! The round trip of a bill of materials through CycloneDX XML: what reading
//! gives back of what was written.

use vstd::prelude::*;
use vstd::utf8::encode_utf8;

use crate::echo::{
    any_line, arrives, attr_in, attr_is_absent, attr_is_found, block, blocks_together, close_leads,
    digits_are_shown, document_is_well_formed, echoes, element_is_a_block, empty_leads, events_of,
    faithful, leads, leads_nowhere, leads_on, no_lines_are_a_block, one_line_is_a_block, open_leads,
    opt_text_is_a_block, parts_are_a_block, plain_attrs, plain_name, ran, raw_leads, reads_as,
    rests, shown, shown_together, shown_whole, text_leads, well_formed, whole,
    whole_lines_are_a_block, written_as,
};
use crate::error::ErrorView;
use crate::formats::sbom::cyclonedx_json::serial_of;
use crate::formats::sbom::cyclonedx_xml::{
    bom_attrs, bom_items, bom_started, component_attrs, component_items, component_start,
    dependency_items, described, detail_items, ended, folded, hash_items, license_items, lies_in,
    metadata_items, namespace_version, origin_items, place_of, reach_items, read_spec,
    reference_items, stepped, target_items, text_applied, with_component, wrapped,
    writable_algorithm, Place, StateView, FAMILY, NAMESPACE_PREFIX,
};
use crate::model::sbom::{
    kind_name, kind_names_read_back, narrowed, sort_doc, with_edge, ComponentKind, ComponentView,
    DependencyView, ExternalReferenceView, HashView, LicenseView, SbomDocView, SpecOriginView,
};
use crate::registry::DocView;
use crate::text::{decimal, trim, written_numbers_parse};
use crate::value::{filter_mapped, flat, non_empty, or_else, or_text};
use crate::warn::CtxView;
use crate::xml::{
    close_item, declaration_item, empty_item, open_item, opt_text_items, rendered, text_item,
    EventView, Item, TagView,
};

verus! {

// ---------------------------------------------------------------------------
// What is kept
// ---------------------------------------------------------------------------

/// What is kept of an attribute.
pub open spec fn kept_attr(value: Option<Seq<char>>) -> Option<Seq<char>> {
    match value {
        Some(v) => Some(shown(v)),
        None => None,
    }
}

/// What is left of a text: not the white space around it.
pub open spec fn bare(text: Seq<char>) -> Seq<char> {
    trim(shown(text))
}

/// What is kept of a text that may be missing: a blank one is none.
pub open spec fn kept_text(text: Option<Seq<char>>) -> Option<Seq<char>> {
    match text {
        Some(t) => non_empty(Some(bare(t))),
        None => None,
    }
}

pub open spec fn kept_license(license: LicenseView) -> Option<LicenseView> {
    match license {
        LicenseView::Expression(text) => if bare(text).len() == 0 {
            None
        } else {
            Some(LicenseView::Expression(bare(text)))
        },
        LicenseView::Id(text) => if bare(text).len() == 0 {
            None
        } else {
            Some(LicenseView::Id(bare(text)))
        },
        LicenseView::Name(text) => if bare(text).len() == 0 {
            None
        } else {
            Some(LicenseView::Name(bare(text)))
        },
    }
}

/// A hash whose algorithm CycloneDX does not define is not written.
pub open spec fn kept_hash(hash: HashView) -> Option<HashView> {
    if writable_algorithm(hash.algorithm) {
        Some(HashView::of(shown(hash.algorithm), bare(hash.value)))
    } else {
        None
    }
}

/// A reference without an address is none.
pub open spec fn kept_reference(reference: ExternalReferenceView) -> Option<
    ExternalReferenceView,
> {
    if bare(reference.url).len() == 0 {
        None
    } else {
        Some(
            ExternalReferenceView {
                kind: shown(reference.kind),
                url: bare(reference.url),
                comment: kept_text(reference.comment),
            },
        )
    }
}

pub open spec fn kept_component(component: ComponentView, target: Seq<char>) -> ComponentView {
    ComponentView {
        bom_ref: kept_attr(component.bom_ref),
        kind: narrowed(component.kind, target).0,
        name: bare(component.name),
        version: kept_text(component.version),
        group: kept_text(component.group),
        purl: kept_text(component.purl),
        cpe: kept_text(component.cpe),
        description: kept_text(component.description),
        scope: kept_text(component.scope),
        author: kept_text(component.author),
        publisher: kept_text(component.publisher),
        supplier: kept_text(component.supplier),
        copyright: kept_text(component.copyright),
        licenses: filter_mapped(component.licenses, |l: LicenseView| kept_license(l)),
        hashes: filter_mapped(component.hashes, |h: HashView| kept_hash(h)),
        external_references: filter_mapped(
            component.external_references,
            |e: ExternalReferenceView| kept_reference(e),
        ),
    }
}

/// The edges from one element.
pub open spec fn kept_edges(
    before: Seq<DependencyView>,
    from: Seq<char>,
    targets: Seq<Seq<char>>,
) -> Seq<DependencyView>
    decreases targets.len(),
{
    if targets.len() == 0 {
        before
    } else {
        with_edge(kept_edges(before, from, targets.drop_last()), from, shown(targets.last()))
    }
}

/// The edges of the graph. An element without any leaves no trace.
pub open spec fn kept_dependencies(dependencies: Seq<DependencyView>) -> Seq<DependencyView>
    decreases dependencies.len(),
{
    if dependencies.len() == 0 {
        Seq::empty()
    } else {
        let last = dependencies.last();
        kept_edges(
            kept_dependencies(dependencies.drop_last()),
            shown(last.bom_ref),
            last.depends_on,
        )
    }
}

pub open spec fn kept_doc(doc: SbomDocView, target: Seq<char>) -> SbomDocView {
    SbomDocView {
        spec: Some(SpecOriginView { family: FAMILY@, version: target }),
        document_id: kept_attr(serial_of(doc)),
        version: match doc.version {
            Some(v) => Some(v),
            None => Some(1),
        },
        timestamp: kept_text(doc.timestamp),
        tools: Seq::empty(),
        subject: match doc.subject {
            Some(subject) => Some(kept_component(subject, target)),
            None => None,
        },
        components: doc.components.map_values(|c: ComponentView| kept_component(c, target)),
        dependencies: kept_dependencies(doc.dependencies),
    }
}

// ---------------------------------------------------------------------------
// The reader
// ---------------------------------------------------------------------------

spec fn step() -> spec_fn(StateView, EventView) -> Result<StateView, ErrorView> {
    |s: StateView, event: EventView| stepped(s, event)
}

/// A reader that holds no text passes over what stands between elements.
proof fn at_rest(s: StateView)
    requires
        s.text.len() == 0,
    ensures
        rests(step(), s),
{
    assert forall|event: EventView| crate::echo::idle(event) implies #[trigger] step()(s, event)
        == Ok::<StateView, ErrorView>(s) by {
        if let EventView::Text(Ok(text)) = event {
            assert(trim(text) =~= s.text);
        }
    }
}

proof fn folding_is_running(events: Seq<EventView>)
    ensures
        folded(events) == ran(step(), StateView::start(), events),
    decreases events.len(),
{
    if events.len() > 0 {
        folding_is_running(events.drop_last());
    }
}

/// Whether the tag of an element means something to the reader.
spec fn told(name: Seq<char>) -> bool {
    name == "bom"@ || name == "component"@ || name == "hash"@ || name == "reference"@ || name
        == "dependency"@ || name == "evidence"@ || name == "pedigree"@ || name == "formulation"@
}

proof fn elements_apart()
    ensures
        "bom"@.len() == 3 && "bom"@[0] == 'b',
        "metadata"@.len() == 8,
        "components"@.len() == 10 && "components"@[0] == 'c',
        "component"@.len() == 9 && "component"@[0] == 'c' && "component"@[2] == 'm',
        "hash"@.len() == 4 && "hash"@[0] == 'h',
        "reference"@.len() == 9 && "reference"@[0] == 'r',
        "dependency"@.len() == 10 && "dependency"@[0] == 'd',
        "supplier"@.len() == 8 && "supplier"@[0] == 's',
        "author"@.len() == 6 && "author"@[0] == 'a',
        "publisher"@.len() == 9 && "publisher"@[0] == 'p',
        "group"@.len() == 5 && "group"@[0] == 'g',
        "name"@.len() == 4 && "name"@[0] == 'n',
        "version"@.len() == 7 && "version"@[0] == 'v',
        "description"@.len() == 11,
        "scope"@.len() == 5 && "scope"@[0] == 's',
        "hashes"@.len() == 6 && "hashes"@[0] == 'h',
        "licenses"@.len() == 8 && "licenses"@[0] == 'l',
        "license"@.len() == 7 && "license"@[0] == 'l',
        "expression"@.len() == 10 && "expression"@[0] == 'e',
        "id"@.len() == 2,
        "copyright"@.len() == 9 && "copyright"@[0] == 'c' && "copyright"@[2] == 'p',
        "cpe"@.len() == 3 && "cpe"@[0] == 'c',
        "purl"@.len() == 4 && "purl"@[0] == 'p',
        "externalReferences"@.len() == 18,
        "dependencies"@.len() == 12,
        "url"@.len() == 3 && "url"@[0] == 'u',
        "comment"@.len() == 7 && "comment"@[0] == 'c',
        "timestamp"@.len() == 9 && "timestamp"@[0] == 't',
        "metadata"@[0] == 'm',
        "description"@[0] == 'd',
        "evidence"@.len() == 8 && "evidence"@[0] == 'e',
        "pedigree"@.len() == 8 && "pedigree"@[0] == 'p',
        "formulation"@.len() == 11 && "formulation"@[0] == 'f',
{
    reveal_strlit("bom");
    reveal_strlit("metadata");
    reveal_strlit("components");
    reveal_strlit("component");
    reveal_strlit("hash");
    reveal_strlit("reference");
    reveal_strlit("dependency");
    reveal_strlit("supplier");
    reveal_strlit("author");
    reveal_strlit("publisher");
    reveal_strlit("group");
    reveal_strlit("name");
    reveal_strlit("version");
    reveal_strlit("description");
    reveal_strlit("scope");
    reveal_strlit("hashes");
    reveal_strlit("licenses");
    reveal_strlit("license");
    reveal_strlit("expression");
    reveal_strlit("id");
    reveal_strlit("copyright");
    reveal_strlit("cpe");
    reveal_strlit("purl");
    reveal_strlit("externalReferences");
    reveal_strlit("dependencies");
    reveal_strlit("url");
    reveal_strlit("comment");
    reveal_strlit("timestamp");
    reveal_strlit("evidence");
    reveal_strlit("pedigree");
    reveal_strlit("formulation");
}

/// A state one element deeper.
spec fn deeper(s: StateView, name: Seq<char>) -> StateView {
    StateView { path: s.path.push(name), ..s }
}

proof fn untold_opens(s: StateView, name: Seq<char>)
    requires
        !told(name),
        s.text.len() == 0,
    ensures
        leads(step(), s, seq![open_item(name, Seq::empty())], deeper(s, name)),
{
    assert(s.text =~= Seq::empty());
    at_rest(deeper(s, name));
    open_leads(step(), s, name, Seq::empty(), deeper(s, name));
}

proof fn untold_closes(s: StateView, name: Seq<char>)
    requires
        !told(name),
        s.text.len() == 0,
    ensures
        leads(step(), deeper(s, name), seq![close_item(name)], s),
{
    assert(s.text =~= Seq::empty());
    at_rest(s);
    assert(deeper(s, name).path.drop_last() =~= s.path);
    close_leads(step(), deeper(s, name), name, s);
}

/// The state once a text belongs to what it is about.
spec fn applied(s: StateView, name: Seq<char>, text: Seq<char>) -> StateView {
    StateView { text: Seq::empty(), ..text_applied(StateView { text, ..s }, name) }
}

proof fn text_element_leads(s: StateView, name: Seq<char>, text: Seq<char>)
    requires
        !told(name),
        s.text.len() == 0,
    ensures
        leads(step(), s, seq![text_item(name, text)], applied(s, name, bare(text))),
{
    let item = text_item(name, text);
    let opened = deeper(s, name);
    let to = applied(s, name, bare(text));
    assert(s.text =~= Seq::empty());
    at_rest(to);
    assert(opened.path.drop_last() =~= s.path);
    assert forall|read: Seq<char>| trim(read) == trim(shown(text)) implies match #[trigger] step()(
        opened,
        EventView::Text(Ok(read)),
    ) {
        Ok(filled) => step()(filled, EventView::End(name)) == Ok::<StateView, ErrorView>(to),
        Err(_) => false,
    } by {
        let filled = StateView { text: bare(text), ..opened };
        assert(ended(filled, name) == to);
    }
    if bare(text).len() == 0 {
        assert(bare(text) =~= Seq::empty());
        assert(ended(opened, name) == to);
    }
    text_leads(step(), s, item, opened, to);
}

/// The lines of one element in another.
proof fn wrapped_leads(s: StateView, name: Seq<char>, items: Seq<Item>, t: StateView)
    requires
        !told(name),
        s.text.len() == 0,
        t.text.len() == 0,
        items.len() == 0 ==> s == t,
        leads(step(), deeper(s, name), items, deeper(t, name)),
    ensures
        leads(step(), s, wrapped(name, items), t),
{
    if items.len() == 0 {
        leads_nowhere(step(), s);
    } else {
        let a = seq![open_item(name, Seq::empty())];
        let b = seq![close_item(name)];
        untold_opens(s, name);
        untold_closes(t, name);
        leads_on(step(), s, a, deeper(s, name), items, deeper(t, name));
        leads_on(step(), s, a + items, deeper(t, name), b, t);
        assert(wrapped(name, items) == a + items + b);
    }
}

// ---------------------------------------------------------------------------
// Texts of a component
// ---------------------------------------------------------------------------

/// A state within a component, between its elements.
spec fn within(s: StateView, c: ComponentView) -> StateView {
    StateView { component: Some(c), ..s }
}

/// A state in which a component can be read.
spec fn ready(s: StateView) -> bool {
    &&& s.text.len() == 0
    &&& s.pending_hash is None
    &&& s.pending_reference is None
    &&& s.path.len() > 0
}

/// The component once a text that may be missing belongs to it.
spec fn told_of(
    c: ComponentView,
    name: Seq<char>,
    parent: Seq<char>,
    text: Option<Seq<char>>,
) -> ComponentView {
    match kept_text(text) {
        Some(kept) => described(c, name, parent, kept),
        None => c,
    }
}

proof fn field_leads(s: StateView, c: ComponentView, name: Seq<char>, text: Option<Seq<char>>)
    requires
        !told(name),
        ready(s),
    ensures
        leads(
            step(),
            within(s, c),
            opt_text_items(name, text),
            within(s, told_of(c, name, s.path.last(), text)),
        ),
{
    let from = within(s, c);
    let to = within(s, told_of(c, name, s.path.last(), text));
    assert(s.text =~= Seq::empty());
    match text {
        Some(t) => {
            text_element_leads(from, name, t);
            assert(applied(from, name, bare(t)) == to);
        },
        None => {
            leads_nowhere(step(), from);
        },
    }
}

proof fn supplier_leads(s: StateView, c: ComponentView, supplier: Option<Seq<char>>)
    requires
        ready(s),
    ensures
        leads(
            step(),
            within(s, c),
            wrapped("supplier"@, opt_text_items("name"@, supplier)),
            within(s, told_of(c, "name"@, "supplier"@, supplier)),
        ),
{
    elements_apart();
    let inner = deeper(s, "supplier"@);
    assert(inner.path.last() == "supplier"@);
    field_leads(inner, c, "name"@, supplier);
    let to = told_of(c, "name"@, "supplier"@, supplier);
    assert(deeper(within(s, c), "supplier"@) == within(inner, c));
    assert(deeper(within(s, to), "supplier"@) == within(inner, to));
    wrapped_leads(
        within(s, c),
        "supplier"@,
        opt_text_items("name"@, supplier),
        within(s, to),
    );
}

/// The component with what its first elements tell.
spec fn with_origin(c: ComponentView, component: ComponentView) -> ComponentView {
    ComponentView {
        supplier: or_else(kept_text(component.supplier), c.supplier),
        author: or_else(kept_text(component.author), c.author),
        publisher: or_else(kept_text(component.publisher), c.publisher),
        group: or_else(kept_text(component.group), c.group),
        name: or_text(kept_text(Some(component.name)), c.name),
        ..c
    }
}

proof fn origin_leads(s: StateView, c: ComponentView, component: ComponentView)
    requires
        ready(s),
        s.path.last() == "component"@,
    ensures
        leads(
            step(),
            within(s, c),
            origin_items(component),
            within(s, with_origin(c, component)),
        ),
{
    reveal(origin_items);
    elements_apart();
    let p = "component"@;
    let c1 = told_of(c, "name"@, "supplier"@, component.supplier);
    let c2 = told_of(c1, "author"@, p, component.author);
    let c3 = told_of(c2, "publisher"@, p, component.publisher);
    let c4 = told_of(c3, "group"@, p, component.group);
    let c5 = told_of(c4, "name"@, p, Some(component.name));
    let i1 = wrapped("supplier"@, opt_text_items("name"@, component.supplier));
    let i2 = opt_text_items("author"@, component.author);
    let i3 = opt_text_items("publisher"@, component.publisher);
    let i4 = opt_text_items("group"@, component.group);
    let i5 = opt_text_items("name"@, Some(component.name));
    supplier_leads(s, c, component.supplier);
    field_leads(s, c1, "author"@, component.author);
    field_leads(s, c2, "publisher"@, component.publisher);
    field_leads(s, c3, "group"@, component.group);
    field_leads(s, c4, "name"@, Some(component.name));
    let s0 = within(s, c);
    leads_on(step(), s0, i1, within(s, c1), i2, within(s, c2));
    leads_on(step(), s0, i1 + i2, within(s, c2), i3, within(s, c3));
    leads_on(step(), s0, i1 + i2 + i3, within(s, c3), i4, within(s, c4));
    leads_on(step(), s0, i1 + i2 + i3 + i4, within(s, c4), i5, within(s, c5));
    assert(origin_items(component) == i1 + i2 + i3 + i4 + i5);
    assert(c5 == with_origin(c, component));
}

// ---------------------------------------------------------------------------
// Lists of a component
// ---------------------------------------------------------------------------

spec fn with_hashes(c: ComponentView, hashes: Seq<HashView>) -> ComponentView {
    ComponentView {
        hashes: c.hashes + filter_mapped(hashes, |h: HashView| kept_hash(h)),
        ..c
    }
}

proof fn hash_leads(s: StateView, c: ComponentView, hash: HashView)
    requires
        ready(s),
    ensures
        leads(
            step(),
            within(s, c),
            hash_items(hash),
            within(
                s,
                match kept_hash(hash) {
                    Some(kept) => ComponentView { hashes: c.hashes.push(kept), ..c },
                    None => c,
                },
            ),
        ),
{
    elements_apart();
    let from = within(s, c);
    assert(s.text =~= Seq::empty());
    if !writable_algorithm(hash.algorithm) {
        leads_nowhere(step(), from);
    } else {
        let attrs = seq![("alg"@, hash.algorithm)];
        let item = Item::Text { name: "hash"@, attrs, text: hash.value };
        let opened = StateView {
            pending_hash: Some(shown(hash.algorithm)),
            ..deeper(from, "hash"@)
        };
        let to = within(
            s,
            ComponentView { hashes: c.hashes.push(kept_hash(hash)->0), ..c },
        );
        at_rest(to);
        assert(opened.path.drop_last() =~= s.path);
        assert forall|tag: TagView| #[trigger] written_as(tag, "hash"@, attrs) implies step()(
            from,
            EventView::Start(tag),
        ) == Ok::<StateView, ErrorView>(opened) by {
            attr_is_found(attrs, 0);
            assert(tag.attr("alg"@) == attr_in(attrs, "alg"@));
        }
        assert forall|read: Seq<char>|
            trim(read) == trim(shown(hash.value)) implies match #[trigger] step()(
            opened,
            EventView::Text(Ok(read)),
        ) {
            Ok(filled) => step()(filled, EventView::End("hash"@)) == Ok::<StateView, ErrorView>(
                to,
            ),
            Err(_) => false,
        } by {
            let filled = StateView { text: bare(hash.value), ..opened };
            assert(ended(filled, "hash"@) == to);
        }
        if bare(hash.value).len() == 0 {
            assert(bare(hash.value) =~= Seq::empty());
            assert(ended(opened, "hash"@) == to);
        }
        text_leads(step(), from, item, opened, to);
    }
}

proof fn hashes_lead(s: StateView, c: ComponentView, hashes: Seq<HashView>)
    requires
        ready(s),
    ensures
        leads(
            step(),
            within(s, c),
            flat(hashes, |h: HashView| hash_items(h)),
            within(s, with_hashes(c, hashes)),
        ),
    decreases hashes.len(),
{
    let write = |h: HashView| hash_items(h);
    let keep = |h: HashView| kept_hash(h);
    let from = within(s, c);
    if hashes.len() == 0 {
        assert(with_hashes(c, hashes).hashes =~= c.hashes);
        leads_nowhere(step(), from);
    } else {
        let head = hashes.drop_last();
        let last = hashes.last();
        hashes_lead(s, c, head);
        let mid = with_hashes(c, head);
        hash_leads(s, mid, last);
        let to = with_hashes(c, hashes);
        match kept_hash(last) {
            Some(kept) => {
                assert(mid.hashes.push(kept) =~= to.hashes);
            },
            None => {
                assert(mid.hashes =~= to.hashes);
            },
        }
        leads_on(
            step(),
            from,
            flat(head, write),
            within(s, mid),
            hash_items(last),
            within(s, to),
        );
    }
}

proof fn no_lines_no_hashes(hashes: Seq<HashView>)
    requires
        flat(hashes, |h: HashView| hash_items(h)).len() == 0,
    ensures
        filter_mapped(hashes, |h: HashView| kept_hash(h)).len() == 0,
    decreases hashes.len(),
{
    if hashes.len() > 0 {
        no_lines_no_hashes(hashes.drop_last());
    }
}

proof fn hash_list_leads(s: StateView, c: ComponentView, hashes: Seq<HashView>)
    requires
        ready(s),
    ensures
        leads(
            step(),
            within(s, c),
            wrapped("hashes"@, flat(hashes, |h: HashView| hash_items(h))),
            within(s, with_hashes(c, hashes)),
        ),
{
    elements_apart();
    let items = flat(hashes, |h: HashView| hash_items(h));
    let inner = deeper(s, "hashes"@);
    let to = with_hashes(c, hashes);
    hashes_lead(inner, c, hashes);
    assert(deeper(within(s, c), "hashes"@) == within(inner, c));
    assert(deeper(within(s, to), "hashes"@) == within(inner, to));
    if items.len() == 0 {
        no_lines_no_hashes(hashes);
        assert(to.hashes =~= c.hashes);
    }
    wrapped_leads(within(s, c), "hashes"@, items, within(s, to));
}

spec fn with_licenses(c: ComponentView, licenses: Seq<LicenseView>) -> ComponentView {
    ComponentView {
        licenses: c.licenses + filter_mapped(licenses, |l: LicenseView| kept_license(l)),
        ..c
    }
}

spec fn with_license(c: ComponentView, license: LicenseView) -> ComponentView {
    match kept_license(license) {
        Some(kept) => ComponentView { licenses: c.licenses.push(kept), ..c },
        None => c,
    }
}

/// A license by its id or its name.
proof fn inner_license_leads(
    s: StateView,
    c: ComponentView,
    key: Seq<char>,
    text: Seq<char>,
    to: ComponentView,
)
    requires
        ready(s),
        key == "id"@ || key == "name"@,
        to == told_of(c, key, "license"@, Some(text)),
    ensures
        leads(
            step(),
            within(s, c),
            seq![
                open_item("license"@, Seq::empty()),
                text_item(key, text),
                close_item("license"@),
            ],
            within(s, to),
        ),
{
    elements_apart();
    let inner = deeper(s, "license"@);
    assert(inner.path.last() == "license"@);
    field_leads(inner, c, key, Some(text));
    let a = seq![open_item("license"@, Seq::empty())];
    let b = opt_text_items(key, Some(text));
    let d = seq![close_item("license"@)];
    assert(deeper(within(s, c), "license"@) == within(inner, c));
    assert(deeper(within(s, to), "license"@) == within(inner, to));
    untold_opens(within(s, c), "license"@);
    untold_closes(within(s, to), "license"@);
    leads_on(step(), within(s, c), a, within(inner, c), b, within(inner, to));
    leads_on(step(), within(s, c), a + b, within(inner, to), d, within(s, to));
    assert(a + b + d =~= seq![
        open_item("license"@, Seq::empty()),
        text_item(key, text),
        close_item("license"@),
    ]);
}

proof fn license_leads(s: StateView, c: ComponentView, license: LicenseView)
    requires
        ready(s),
        s.path.last() == "licenses"@,
    ensures
        leads(
            step(),
            within(s, c),
            license_items(license),
            within(s, with_license(c, license)),
        ),
{
    elements_apart();
    let to = with_license(c, license);
    match license {
        LicenseView::Expression(text) => {
            field_leads(s, c, "expression"@, Some(text));
            assert(to == told_of(c, "expression"@, "licenses"@, Some(text)));
        },
        LicenseView::Id(text) => {
            inner_license_leads(s, c, "id"@, text, to);
        },
        LicenseView::Name(text) => {
            inner_license_leads(s, c, "name"@, text, to);
        },
    }
}

proof fn licenses_lead(s: StateView, c: ComponentView, licenses: Seq<LicenseView>)
    requires
        ready(s),
        s.path.last() == "licenses"@,
    ensures
        leads(
            step(),
            within(s, c),
            flat(licenses, |l: LicenseView| license_items(l)),
            within(s, with_licenses(c, licenses)),
        ),
    decreases licenses.len(),
{
    let write = |l: LicenseView| license_items(l);
    let from = within(s, c);
    if licenses.len() == 0 {
        assert(with_licenses(c, licenses).licenses =~= c.licenses);
        leads_nowhere(step(), from);
    } else {
        let head = licenses.drop_last();
        let last = licenses.last();
        licenses_lead(s, c, head);
        let mid = with_licenses(c, head);
        license_leads(s, mid, last);
        let to = with_licenses(c, licenses);
        assert(with_license(mid, last).licenses =~= to.licenses);
        leads_on(
            step(),
            from,
            flat(head, write),
            within(s, mid),
            license_items(last),
            within(s, to),
        );
    }
}

proof fn license_list_leads(s: StateView, c: ComponentView, licenses: Seq<LicenseView>)
    requires
        ready(s),
    ensures
        leads(
            step(),
            within(s, c),
            wrapped("licenses"@, flat(licenses, |l: LicenseView| license_items(l))),
            within(s, with_licenses(c, licenses)),
        ),
{
    elements_apart();
    let items = flat(licenses, |l: LicenseView| license_items(l));
    let inner = deeper(s, "licenses"@);
    let to = with_licenses(c, licenses);
    assert(inner.path.last() == "licenses"@);
    licenses_lead(inner, c, licenses);
    assert(deeper(within(s, c), "licenses"@) == within(inner, c));
    assert(deeper(within(s, to), "licenses"@) == within(inner, to));
    if items.len() == 0 {
        if licenses.len() > 0 {
            assert(license_items(licenses.last()).len() > 0);
        }
        assert(to.licenses =~= c.licenses);
    }
    wrapped_leads(within(s, c), "licenses"@, items, within(s, to));
}

spec fn with_reference(c: ComponentView, reference: ExternalReferenceView) -> ComponentView {
    match kept_reference(reference) {
        Some(kept) => ComponentView {
            external_references: c.external_references.push(kept),
            ..c
        },
        None => c,
    }
}

spec fn with_references(
    c: ComponentView,
    references: Seq<ExternalReferenceView>,
) -> ComponentView {
    ComponentView {
        external_references: c.external_references + filter_mapped(
            references,
            |e: ExternalReferenceView| kept_reference(e),
        ),
        ..c
    }
}

/// A state within a reference.
spec fn pointing(
    s: StateView,
    c: ComponentView,
    reference: ExternalReferenceView,
) -> StateView {
    StateView { pending_reference: Some(reference), ..deeper(within(s, c), "reference"@) }
}

#[verifier::spinoff_prover]
#[verifier::rlimit(60)]
proof fn reference_leads(s: StateView, c: ComponentView, reference: ExternalReferenceView)
    requires
        ready(s),
    ensures
        leads(
            step(),
            within(s, c),
            reference_items(reference),
            within(s, with_reference(c, reference)),
        ),
{
    elements_apart();
    let from = within(s, c);
    assert(s.text =~= Seq::empty());
    let attrs = seq![("type"@, reference.kind)];
    let r0 = ExternalReferenceView {
        kind: shown(reference.kind),
        url: Seq::empty(),
        comment: None,
    };
    let r1 = ExternalReferenceView { url: bare(reference.url), ..r0 };
    let r2 = ExternalReferenceView { comment: kept_text(reference.comment), ..r1 };
    let s0 = pointing(s, c, r0);
    let s1 = pointing(s, c, r1);
    let s2 = pointing(s, c, r2);
    let to = within(s, with_reference(c, reference));
    at_rest(s0);
    assert forall|tag: TagView| #[trigger] written_as(tag, "reference"@, attrs) implies step()(
        from,
        EventView::Start(tag),
    ) == Ok::<StateView, ErrorView>(s0) by {
        attr_is_found(attrs, 0);
        assert(tag.attr("type"@) == attr_in(attrs, "type"@));
    }
    open_leads(step(), from, "reference"@, attrs, s0);
    text_element_leads(s0, "url"@, reference.url);
    if bare(reference.url).len() == 0 {
        assert(bare(reference.url) =~= Seq::empty());
    }
    assert(applied(s0, "url"@, bare(reference.url)) == s1);
    let a = seq![open_item("reference"@, attrs)];
    let b = seq![text_item("url"@, reference.url)];
    let d = opt_text_items("comment"@, reference.comment);
    let e = seq![close_item("reference"@)];
    match reference.comment {
        Some(comment) => {
            text_element_leads(s1, "comment"@, comment);
            assert(applied(s1, "comment"@, bare(comment)) == s2);
        },
        None => {
            leads_nowhere(step(), s1);
            assert(s1 == s2);
        },
    }
    at_rest(to);
    assert(s2.path.drop_last() =~= s.path);
    close_leads(step(), s2, "reference"@, to);
    leads_on(step(), from, a, s0, b, s1);
    leads_on(step(), from, a + b, s1, d, s2);
    leads_on(step(), from, a + b + d, s2, e, to);
    assert(a + b =~= seq![
        open_item("reference"@, attrs),
        text_item("url"@, reference.url),
    ]);
    assert(reference_items(reference) == a + b + d + e);
}

proof fn references_lead(
    s: StateView,
    c: ComponentView,
    references: Seq<ExternalReferenceView>,
)
    requires
        ready(s),
    ensures
        leads(
            step(),
            within(s, c),
            flat(references, |e: ExternalReferenceView| reference_items(e)),
            within(s, with_references(c, references)),
        ),
    decreases references.len(),
{
    let write = |e: ExternalReferenceView| reference_items(e);
    let from = within(s, c);
    if references.len() == 0 {
        assert(with_references(c, references).external_references =~= c.external_references);
        leads_nowhere(step(), from);
    } else {
        let head = references.drop_last();
        let last = references.last();
        references_lead(s, c, head);
        let mid = with_references(c, head);
        reference_leads(s, mid, last);
        let to = with_references(c, references);
        assert(with_reference(mid, last).external_references =~= to.external_references);
        leads_on(
            step(),
            from,
            flat(head, write),
            within(s, mid),
            reference_items(last),
            within(s, to),
        );
    }
}

proof fn reference_list_leads(
    s: StateView,
    c: ComponentView,
    references: Seq<ExternalReferenceView>,
)
    requires
        ready(s),
    ensures
        leads(
            step(),
            within(s, c),
            wrapped(
                "externalReferences"@,
                flat(references, |e: ExternalReferenceView| reference_items(e)),
            ),
            within(s, with_references(c, references)),
        ),
{
    elements_apart();
    let items = flat(references, |e: ExternalReferenceView| reference_items(e));
    let inner = deeper(s, "externalReferences"@);
    let to = with_references(c, references);
    references_lead(inner, c, references);
    assert(deeper(within(s, c), "externalReferences"@) == within(inner, c));
    assert(deeper(within(s, to), "externalReferences"@) == within(inner, to));
    if items.len() == 0 {
        if references.len() > 0 {
            assert(reference_items(references.last()).len() > 0);
        }
        assert(to.external_references =~= c.external_references);
    }
    wrapped_leads(within(s, c), "externalReferences"@, items, within(s, to));
}

// ---------------------------------------------------------------------------
// Components
// ---------------------------------------------------------------------------

spec fn with_details(c: ComponentView, component: ComponentView) -> ComponentView {
    with_licenses(
        with_hashes(
            ComponentView {
                version: or_else(kept_text(component.version), c.version),
                description: or_else(kept_text(component.description), c.description),
                scope: or_else(kept_text(component.scope), c.scope),
                ..c
            },
            component.hashes,
        ),
        component.licenses,
    )
}

proof fn detail_leads(s: StateView, c: ComponentView, component: ComponentView)
    requires
        ready(s),
        s.path.last() == "component"@,
    ensures
        leads(
            step(),
            within(s, c),
            detail_items(component),
            within(s, with_details(c, component)),
        ),
{
    reveal(detail_items);
    elements_apart();
    let p = "component"@;
    let c1 = told_of(c, "version"@, p, component.version);
    let c2 = told_of(c1, "description"@, p, component.description);
    let c3 = told_of(c2, "scope"@, p, component.scope);
    let c4 = with_hashes(c3, component.hashes);
    let c5 = with_licenses(c4, component.licenses);
    let i1 = opt_text_items("version"@, component.version);
    let i2 = opt_text_items("description"@, component.description);
    let i3 = opt_text_items("scope"@, component.scope);
    let i4 = wrapped("hashes"@, flat(component.hashes, |h: HashView| hash_items(h)));
    let i5 = wrapped("licenses"@, flat(component.licenses, |l: LicenseView| license_items(l)));
    field_leads(s, c, "version"@, component.version);
    field_leads(s, c1, "description"@, component.description);
    field_leads(s, c2, "scope"@, component.scope);
    hash_list_leads(s, c3, component.hashes);
    license_list_leads(s, c4, component.licenses);
    let s0 = within(s, c);
    leads_on(step(), s0, i1, within(s, c1), i2, within(s, c2));
    leads_on(step(), s0, i1 + i2, within(s, c2), i3, within(s, c3));
    leads_on(step(), s0, i1 + i2 + i3, within(s, c3), i4, within(s, c4));
    leads_on(step(), s0, i1 + i2 + i3 + i4, within(s, c4), i5, within(s, c5));
    assert(detail_items(component) == i1 + i2 + i3 + i4 + i5);
    assert(c5 == with_details(c, component));
}

spec fn with_reach(c: ComponentView, component: ComponentView) -> ComponentView {
    with_references(
        ComponentView {
            copyright: or_else(kept_text(component.copyright), c.copyright),
            cpe: or_else(kept_text(component.cpe), c.cpe),
            purl: or_else(kept_text(component.purl), c.purl),
            ..c
        },
        component.external_references,
    )
}

proof fn reach_leads(s: StateView, c: ComponentView, component: ComponentView)
    requires
        ready(s),
        s.path.last() == "component"@,
    ensures
        leads(
            step(),
            within(s, c),
            reach_items(component),
            within(s, with_reach(c, component)),
        ),
{
    reveal(reach_items);
    elements_apart();
    let p = "component"@;
    let c1 = told_of(c, "copyright"@, p, component.copyright);
    let c2 = told_of(c1, "cpe"@, p, component.cpe);
    let c3 = told_of(c2, "purl"@, p, component.purl);
    let c4 = with_references(c3, component.external_references);
    let i1 = opt_text_items("copyright"@, component.copyright);
    let i2 = opt_text_items("cpe"@, component.cpe);
    let i3 = opt_text_items("purl"@, component.purl);
    let i4 = wrapped(
        "externalReferences"@,
        flat(component.external_references, |e: ExternalReferenceView| reference_items(e)),
    );
    field_leads(s, c, "copyright"@, component.copyright);
    field_leads(s, c1, "cpe"@, component.cpe);
    field_leads(s, c2, "purl"@, component.purl);
    reference_list_leads(s, c3, component.external_references);
    let s0 = within(s, c);
    leads_on(step(), s0, i1, within(s, c1), i2, within(s, c2));
    leads_on(step(), s0, i1 + i2, within(s, c2), i3, within(s, c3));
    leads_on(step(), s0, i1 + i2 + i3, within(s, c3), i4, within(s, c4));
    assert(reach_items(component) == i1 + i2 + i3 + i4);
    assert(c4 == with_reach(c, component));
}

proof fn kind_names_are_shown(kind: ComponentKind)
    ensures
        shown(kind_name(kind)) == kind_name(kind),
{
    reveal_strlit("application");
    reveal_strlit("framework");
    reveal_strlit("library");
    reveal_strlit("container");
    reveal_strlit("platform");
    reveal_strlit("operating-system");
    reveal_strlit("device");
    reveal_strlit("device-driver");
    reveal_strlit("firmware");
    reveal_strlit("file");
    reveal_strlit("machine-learning-model");
    reveal_strlit("data");
    reveal_strlit("cryptographic-asset");
    shown_whole(kind_name(kind));
}

/// A component as its start tag tells it.
spec fn begun(component: ComponentView, target: Seq<char>) -> ComponentView {
    ComponentView {
        bom_ref: kept_attr(component.bom_ref),
        kind: narrowed(component.kind, target).0,
        ..ComponentView::of(""@)
    }
}

proof fn component_tag_says(component: ComponentView, target: Seq<char>, tag: TagView)
    requires
        written_as(tag, "component"@, component_attrs(component, target)),
    ensures
        component_start(tag) == begun(component, target),
{
    reveal_strlit("type");
    reveal_strlit("bom-ref");
    assert("type"@.len() == 4 && "bom-ref"@.len() == 7);
    let attrs = component_attrs(component, target);
    let kind = narrowed(component.kind, target).0;
    kind_names_are_shown(kind);
    kind_names_read_back(kind);
    assert(attrs[0] == ("type"@, kind_name(kind)));
    attr_is_found(attrs, 0);
    assert(tag.attr("type"@) == attr_in(attrs, "type"@));
    assert(tag.attr("bom-ref"@) == attr_in(attrs, "bom-ref"@));
    match component.bom_ref {
        Some(r) => {
            assert(attrs[1] == ("bom-ref"@, r));
            attr_is_found(attrs, 1);
        },
        None => {
            attr_is_absent(attrs, "bom-ref"@);
        },
    }
}

/// The elements of a component, put together, say what is kept of it.
proof fn component_is_whole(component: ComponentView, target: Seq<char>)
    ensures
        with_reach(
            with_details(with_origin(begun(component, target), component), component),
            component,
        ) == kept_component(component, target),
{
    reveal_strlit("");
    let whole = with_reach(
        with_details(with_origin(begun(component, target), component), component),
        component,
    );
    let kept = kept_component(component, target);
    assert(whole.name =~= kept.name);
    assert(whole.hashes =~= kept.hashes);
    assert(whole.licenses =~= kept.licenses);
    assert(whole.external_references =~= kept.external_references);
}

/// A state between components.
spec fn between(s: StateView) -> bool {
    &&& s.text.len() == 0
    &&& s.pending_hash is None
    &&& s.pending_reference is None
    &&& s.component is None
    &&& s.around.len() == 0
    &&& s.place == Place::Elsewhere
    &&& s.at == 0
}

spec fn received(s: StateView, component: ComponentView) -> StateView {
    StateView {
        doc: with_component(
            s.doc,
            component,
            place_of(s, s.path),
            s.doc.components.len(),
        ),
        ..s
    }
}

proof fn component_leads(s: StateView, component: ComponentView, target: Seq<char>)
    requires
        between(s),
    ensures
        leads(
            step(),
            s,
            component_items(component, target),
            received(s, kept_component(component, target)),
        ),
{
    elements_apart();
    assert(s.text =~= Seq::empty());
    let attrs = component_attrs(component, target);
    let c0 = begun(component, target);
    let inner = StateView {
        place: place_of(s, s.path),
        at: s.doc.components.len(),
        ..deeper(s, "component"@)
    };
    let c1 = with_origin(c0, component);
    let c2 = with_details(c1, component);
    let c3 = with_reach(c2, component);
    let s0 = within(inner, c0);
    assert(inner.path.last() == "component"@);
    at_rest(s0);
    assert forall|tag: TagView| #[trigger] written_as(tag, "component"@, attrs) implies step()(
        s,
        EventView::Start(tag),
    ) == Ok::<StateView, ErrorView>(s0) by {
        component_tag_says(component, target, tag);
    }
    open_leads(step(), s, "component"@, attrs, s0);
    origin_leads(inner, c0, component);
    detail_leads(inner, c1, component);
    reach_leads(inner, c2, component);
    component_is_whole(component, target);
    let to = received(s, kept_component(component, target));
    at_rest(to);
    assert(inner.path.drop_last() =~= s.path);
    close_leads(step(), within(inner, c3), "component"@, to);
    let a = seq![open_item("component"@, attrs)];
    let b = origin_items(component);
    let d = detail_items(component);
    let e = reach_items(component);
    let f = seq![close_item("component"@)];
    leads_on(step(), s, a, s0, b, within(inner, c1));
    leads_on(step(), s, a + b, within(inner, c1), d, within(inner, c2));
    leads_on(step(), s, a + b + d, within(inner, c2), e, within(inner, c3));
    leads_on(step(), s, a + b + d + e, within(inner, c3), f, to);
    assert(component_items(component, target) == a + b + d + e + f);
}

proof fn components_lead(
    s: StateView,
    components: Seq<ComponentView>,
    target: Seq<char>,
)
    requires
        between(s),
        lies_in(s.path, 1, "components"@),
        lies_in(s.path, 2, "bom"@),
    ensures
        leads(
            step(),
            s,
            flat(components, |c: ComponentView| component_items(c, target)),
            StateView {
                doc: SbomDocView {
                    components: s.doc.components + components.map_values(
                        |c: ComponentView| kept_component(c, target),
                    ),
                    ..s.doc
                },
                ..s
            },
        ),
    decreases components.len(),
{
    let write = |c: ComponentView| component_items(c, target);
    let keep = |c: ComponentView| kept_component(c, target);
    let to = StateView {
        doc: SbomDocView {
            components: s.doc.components + components.map_values(keep),
            ..s.doc
        },
        ..s
    };
    if components.len() == 0 {
        assert(to.doc.components =~= s.doc.components);
        leads_nowhere(step(), s);
    } else {
        let head = components.drop_last();
        let last = components.last();
        components_lead(s, head, target);
        let mid = StateView {
            doc: SbomDocView { components: s.doc.components + head.map_values(keep), ..s.doc },
            ..s
        };
        elements_apart();
        component_leads(mid, last, target);
        assert(mid.doc.components.insert(mid.doc.components.len() as int, keep(last))
            =~= mid.doc.components.push(keep(last)));
        assert(mid.doc.components.push(keep(last)) =~= to.doc.components);
        leads_on(step(), s, flat(head, write), mid, component_items(last, target), to);
    }
}

// ---------------------------------------------------------------------------
// Dependencies
// ---------------------------------------------------------------------------

spec fn linked(s: StateView, dependencies: Seq<DependencyView>) -> StateView {
    StateView { doc: SbomDocView { dependencies, ..s.doc }, ..s }
}

proof fn targets_lead(
    s: StateView,
    before: Seq<DependencyView>,
    from: Seq<char>,
    targets: Seq<Seq<char>>,
)
    requires
        s.text.len() == 0,
        s.dependency_stack.len() > 0,
        s.dependency_stack.last() == from,
    ensures
        leads(
            step(),
            linked(s, before),
            target_items(targets),
            linked(s, kept_edges(before, from, targets)),
        ),
    decreases targets.len(),
{
    elements_apart();
    assert(s.text =~= Seq::empty());
    if targets.len() == 0 {
        assert(target_items(targets) =~= Seq::empty());
        leads_nowhere(step(), linked(s, before));
    } else {
        let head = targets.drop_last();
        let last = targets.last();
        let attrs = seq![("ref"@, last)];
        targets_lead(s, before, from, head);
        let mid = linked(s, kept_edges(before, from, head));
        let to = linked(s, kept_edges(before, from, targets));
        at_rest(to);
        assert forall|tag: TagView| #[trigger] written_as(tag, "dependency"@, attrs) implies step()(
            mid,
            EventView::Empty(tag),
        ) == Ok::<StateView, ErrorView>(to) by {
            attr_is_found(attrs, 0);
            assert(tag.attr("ref"@) == attr_in(attrs, "ref"@));
        }
        empty_leads(step(), mid, "dependency"@, attrs, to);
        leads_on(
            step(),
            linked(s, before),
            target_items(head),
            mid,
            seq![empty_item("dependency"@, attrs)],
            to,
        );
        assert(target_items(head) + seq![empty_item("dependency"@, attrs)] =~= target_items(
            targets,
        ));
    }
}

proof fn dependency_leads(
    s: StateView,
    before: Seq<DependencyView>,
    dependency: DependencyView,
)
    requires
        s.text.len() == 0,
        s.dependency_stack.len() == 0,
    ensures
        leads(
            step(),
            linked(s, before),
            dependency_items(dependency),
            linked(s, kept_edges(before, shown(dependency.bom_ref), dependency.depends_on)),
        ),
{
    elements_apart();
    assert(s.text =~= Seq::empty());
    let from = linked(s, before);
    let attrs = seq![("ref"@, dependency.bom_ref)];
    let name = shown(dependency.bom_ref);
    if dependency.depends_on.len() == 0 {
        at_rest(from);
        assert forall|tag: TagView| #[trigger] written_as(tag, "dependency"@, attrs) implies step()(
            from,
            EventView::Empty(tag),
        ) == Ok::<StateView, ErrorView>(from) by {
            attr_is_found(attrs, 0);
            assert(tag.attr("ref"@) == attr_in(attrs, "ref"@));
        }
        empty_leads(step(), from, "dependency"@, attrs, from);
    } else {
        let inner = StateView {
            dependency_stack: s.dependency_stack.push(name),
            ..deeper(s, "dependency"@)
        };
        let opened = linked(inner, before);
        let filled = linked(inner, kept_edges(before, name, dependency.depends_on));
        let to = linked(s, kept_edges(before, name, dependency.depends_on));
        at_rest(opened);
        at_rest(to);
        assert forall|tag: TagView| #[trigger] written_as(tag, "dependency"@, attrs) implies step()(
            from,
            EventView::Start(tag),
        ) == Ok::<StateView, ErrorView>(opened) by {
            attr_is_found(attrs, 0);
            assert(tag.attr("ref"@) == attr_in(attrs, "ref"@));
        }
        open_leads(step(), from, "dependency"@, attrs, opened);
        targets_lead(inner, before, name, dependency.depends_on);
        assert(inner.path.drop_last() =~= s.path);
        assert(inner.dependency_stack.drop_last() =~= s.dependency_stack);
        close_leads(step(), filled, "dependency"@, to);
        let a = seq![open_item("dependency"@, attrs)];
        let b = target_items(dependency.depends_on);
        let c = seq![close_item("dependency"@)];
        leads_on(step(), from, a, opened, b, filled);
        leads_on(step(), from, a + b, filled, c, to);
        assert(dependency_items(dependency) == a + b + c);
    }
}

proof fn dependencies_lead(s: StateView, dependencies: Seq<DependencyView>)
    requires
        s.text.len() == 0,
        s.dependency_stack.len() == 0,
    ensures
        leads(
            step(),
            linked(s, Seq::empty()),
            flat(dependencies, |d: DependencyView| dependency_items(d)),
            linked(s, kept_dependencies(dependencies)),
        ),
    decreases dependencies.len(),
{
    let write = |d: DependencyView| dependency_items(d);
    let from = linked(s, Seq::empty());
    if dependencies.len() == 0 {
        leads_nowhere(step(), from);
    } else {
        let head = dependencies.drop_last();
        let last = dependencies.last();
        dependencies_lead(s, head);
        dependency_leads(s, kept_dependencies(head), last);
        leads_on(
            step(),
            from,
            flat(head, write),
            linked(s, kept_dependencies(head)),
            dependency_items(last),
            linked(s, kept_dependencies(dependencies)),
        );
    }
}

proof fn graph_leads(s: StateView, dependencies: Seq<DependencyView>)
    requires
        s.text.len() == 0,
        s.dependency_stack.len() == 0,
        s.doc.dependencies == Seq::<DependencyView>::empty(),
    ensures
        leads(
            step(),
            s,
            wrapped("dependencies"@, flat(dependencies, |d: DependencyView| dependency_items(d))),
            linked(s, kept_dependencies(dependencies)),
        ),
{
    elements_apart();
    let items = flat(dependencies, |d: DependencyView| dependency_items(d));
    let inner = deeper(s, "dependencies"@);
    let to = linked(s, kept_dependencies(dependencies));
    dependencies_lead(inner, dependencies);
    assert(linked(inner, Seq::empty()) == inner);
    assert(deeper(to, "dependencies"@) == linked(inner, kept_dependencies(dependencies)));
    if items.len() == 0 {
        if dependencies.len() > 0 {
            assert(dependency_items(dependencies.last()).len() > 0);
        }
        assert(to == s);
    }
    wrapped_leads(s, "dependencies"@, items, to);
}

// ---------------------------------------------------------------------------
// The document
// ---------------------------------------------------------------------------

/// What the head of a document tells.
spec fn headed(s: StateView, doc: SbomDocView, target: Seq<char>) -> StateView {
    StateView {
        doc: SbomDocView {
            timestamp: kept_doc(doc, target).timestamp,
            subject: kept_doc(doc, target).subject,
            ..s.doc
        },
        ..s
    }
}

proof fn metadata_leads(s: StateView, doc: SbomDocView, target: Seq<char>)
    requires
        between(s),
        s.doc.timestamp is None,
        s.doc.subject is None,
    ensures
        leads(step(), s, metadata_items(doc, target), headed(s, doc, target)),
{
    elements_apart();
    assert(s.text =~= Seq::empty());
    let a = opt_text_items("timestamp"@, doc.timestamp);
    let b = match doc.subject {
        Some(subject) => component_items(subject, target),
        None => Seq::empty(),
    };
    let to = headed(s, doc, target);
    if (a + b).len() == 0 {
        if let Some(subject) = doc.subject {
            assert(component_items(subject, target).len() > 0);
        }
        assert(to == s);
        leads_nowhere(step(), s);
    } else {
        let inner = deeper(s, "metadata"@);
        let timed = StateView {
            doc: SbomDocView { timestamp: kept_text(doc.timestamp), ..s.doc },
            ..inner
        };
        let full = StateView { doc: to.doc, ..inner };
        assert(inner.path.last() == "metadata"@);
        untold_opens(s, "metadata"@);
        match doc.timestamp {
            Some(t) => {
                text_element_leads(inner, "timestamp"@, t);
                assert(applied(inner, "timestamp"@, bare(t)) == timed);
            },
            None => {
                leads_nowhere(step(), inner);
                assert(timed == inner);
            },
        }
        match doc.subject {
            Some(subject) => {
                component_leads(timed, subject, target);
                assert(received(timed, kept_component(subject, target)) == full);
            },
            None => {
                leads_nowhere(step(), timed);
                assert(timed == full);
            },
        }
        assert(deeper(to, "metadata"@) == full);
        untold_closes(to, "metadata"@);
        let open = seq![open_item("metadata"@, Seq::empty())];
        let close = seq![close_item("metadata"@)];
        leads_on(step(), inner, a, timed, b, full);
        leads_on(step(), s, open, inner, a + b, full);
        leads_on(step(), s, open + (a + b), full, close, to);
        assert(metadata_items(doc, target) == open + (a + b) + close);
    }
}

/// A version that a namespace can carry.
pub open spec fn plain_version(target: Seq<char>) -> bool {
    target.len() > 0 && target.last() != '/' && shown(target) == target
}

proof fn bom_tag_says(doc: SbomDocView, target: Seq<char>, tag: TagView)
    requires
        written_as(tag, "bom"@, bom_attrs(doc, target)),
        plain_version(target),
    ensures
        ({
            let kept = kept_doc(doc, target);
            bom_started(SbomDocView::empty(), tag) == SbomDocView {
                spec: kept.spec,
                document_id: kept.document_id,
                version: kept.version,
                ..SbomDocView::empty()
            }
        }),
{
    reveal_strlit("xmlns");
    reveal_strlit("serialNumber");
    reveal_strlit("version");
    assert("xmlns"@.len() == 5 && "serialNumber"@.len() == 12 && "version"@.len() == 7);
    let attrs = bom_attrs(doc, target);
    let number: u32 = match doc.version {
        Some(v) => v,
        None => 1,
    };
    let text = NAMESPACE_PREFIX@ + target;
    reveal_strlit("http://cyclonedx.org/schema/bom/");
    shown_whole(NAMESPACE_PREFIX@);
    shown_together(NAMESPACE_PREFIX@, target);
    assert(shown(text) == text);
    assert(text.take(NAMESPACE_PREFIX@.len() as int) =~= NAMESPACE_PREFIX@);
    assert(text.skip(NAMESPACE_PREFIX@.len() as int) =~= target);
    assert(namespace_version(text) == Some(target));
    assert(attrs[0] == ("xmlns"@, text));
    attr_is_found(attrs, 0);
    digits_are_shown(number as nat);
    written_numbers_parse(number as u64);
    match serial_of(doc) {
        Some(serial) => {
            assert(attrs[1] == ("serialNumber"@, serial));
            assert(attrs[2] == ("version"@, decimal(number as nat)));
            attr_is_found(attrs, 1);
            attr_is_found(attrs, 2);
        },
        None => {
            assert(attrs[1] == ("version"@, decimal(number as nat)));
            attr_is_found(attrs, 1);
            attr_is_absent(attrs, "serialNumber"@);
        },
    }
    assert(tag.attr("xmlns"@) == attr_in(attrs, "xmlns"@));
    assert(tag.attr("serialNumber"@) == attr_in(attrs, "serialNumber"@));
    assert(tag.attr("version"@) == attr_in(attrs, "version"@));
}

/// What is written as CycloneDX XML reads back, whatever events stand for it,
/// without losing a component: the version that was written, the identity where
/// CycloneDX can carry it, the time, the subject, every component and every edge
/// of the graph, in canonical order. Reading it loses nothing more.
pub proof fn documents_read_back(
    doc: SbomDocView,
    target: Seq<char>,
    chunks: Seq<Seq<EventView>>,
    ctx: CtxView,
)
    requires
        plain_version(target),
        reads_as(bom_items(doc, target), chunks),
    ensures
        read_spec(events_of(chunks).push(EventView::Eof), ctx) == (
            Ok::<DocView, ErrorView>(DocView::Sbom(sort_doc(kept_doc(doc, target)))),
            ctx,
        ),
{
    elements_apart();
    let kept = kept_doc(doc, target);
    let attrs = bom_attrs(doc, target);
    let s0 = StateView::start();
    let top = SbomDocView {
        spec: kept.spec,
        document_id: kept.document_id,
        version: kept.version,
        ..SbomDocView::empty()
    };
    let s1 = StateView { saw_root: true, doc: top, ..deeper(s0, "bom"@) };
    at_rest(s0);
    at_rest(s1);
    raw_leads(step(), s0, declaration_item());
    assert forall|tag: TagView| #[trigger] written_as(tag, "bom"@, attrs) implies step()(
        s0,
        EventView::Start(tag),
    ) == Ok::<StateView, ErrorView>(s1) by {
        bom_tag_says(doc, target, tag);
    }
    open_leads(step(), s0, "bom"@, attrs, s1);
    metadata_leads(s1, doc, target);
    let s2 = headed(s1, doc, target);
    let s3 = deeper(s2, "components"@);
    untold_opens(s2, "components"@);
    assert(s3.path =~= seq!["bom"@, "components"@]);
    components_lead(s3, doc.components, target);
    assert(Seq::empty() + kept.components =~= kept.components);
    let s4 = StateView { doc: SbomDocView { components: kept.components, ..s3.doc }, ..s3 };
    let s5 = StateView { doc: s4.doc, ..s2 };
    assert(deeper(s5, "components"@) == s4);
    untold_closes(s5, "components"@);
    graph_leads(s5, doc.dependencies);
    let s6 = linked(s5, kept.dependencies);
    let s7 = StateView { path: s0.path, ..s6 };
    at_rest(s7);
    assert(s6.path.drop_last() =~= s0.path);
    close_leads(step(), s6, "bom"@, s7);
    let a = seq![declaration_item()];
    let b = seq![open_item("bom"@, attrs)];
    let c = metadata_items(doc, target);
    let d = seq![open_item("components"@, Seq::empty())];
    let e = flat(doc.components, |c: ComponentView| component_items(c, target));
    let f = seq![close_item("components"@)];
    let g = wrapped(
        "dependencies"@,
        flat(doc.dependencies, |d: DependencyView| dependency_items(d)),
    );
    let h = seq![close_item("bom"@)];
    leads_on(step(), s0, a, s0, b, s1);
    leads_on(step(), s0, a + b, s1, c, s2);
    leads_on(step(), s0, a + b + c, s2, d, s3);
    leads_on(step(), s0, a + b + c + d, s3, e, s4);
    leads_on(step(), s0, a + b + c + d + e, s4, f, s5);
    leads_on(step(), s0, a + b + c + d + e + f, s5, g, s6);
    leads_on(step(), s0, a + b + c + d + e + f + g, s6, h, s7);
    assert(a + b =~= seq![declaration_item(), open_item("bom"@, attrs)]);
    assert(bom_items(doc, target) == a + b + c + d + e + f + g + h);
    arrives(step(), s0, bom_items(doc, target), s7, chunks);
    let events = events_of(chunks);
    folding_is_running(events);
    assert(events.push(EventView::Eof).drop_last() =~= events);
    assert(folded(events.push(EventView::Eof)) == Ok::<StateView, ErrorView>(s7));
    assert(s7.doc == kept);
}

// ---------------------------------------------------------------------------
// The document
// ---------------------------------------------------------------------------

/// The names of the elements and attributes are plain.
proof fn names_are_plain()
    ensures
        plain_name("bom"@),
        plain_name("metadata"@),
        plain_name("timestamp"@),
        plain_name("components"@),
        plain_name("component"@),
        plain_name("dependencies"@),
        plain_name("dependency"@),
        plain_name("supplier"@),
        plain_name("name"@),
        plain_name("author"@),
        plain_name("publisher"@),
        plain_name("group"@),
        plain_name("version"@),
        plain_name("description"@),
        plain_name("scope"@),
        plain_name("hashes"@),
        plain_name("hash"@),
        plain_name("licenses"@),
        plain_name("license"@),
        plain_name("expression"@),
        plain_name("id"@),
        plain_name("copyright"@),
        plain_name("cpe"@),
        plain_name("purl"@),
        plain_name("externalReferences"@),
        plain_name("reference"@),
        plain_name("url"@),
        plain_name("comment"@),
        plain_name("alg"@),
        plain_name("type"@),
        plain_name("bom-ref"@),
        plain_name("ref"@),
        plain_name("xmlns"@),
        plain_name("serialNumber"@),
{
    reveal(plain_name);
    reveal_strlit("bom");
    reveal_strlit("metadata");
    reveal_strlit("timestamp");
    reveal_strlit("components");
    reveal_strlit("component");
    reveal_strlit("dependencies");
    reveal_strlit("dependency");
    reveal_strlit("supplier");
    reveal_strlit("name");
    reveal_strlit("author");
    reveal_strlit("publisher");
    reveal_strlit("group");
    reveal_strlit("version");
    reveal_strlit("description");
    reveal_strlit("scope");
    reveal_strlit("hashes");
    reveal_strlit("hash");
    reveal_strlit("licenses");
    reveal_strlit("license");
    reveal_strlit("expression");
    reveal_strlit("id");
    reveal_strlit("copyright");
    reveal_strlit("cpe");
    reveal_strlit("purl");
    reveal_strlit("externalReferences");
    reveal_strlit("reference");
    reveal_strlit("url");
    reveal_strlit("comment");
    reveal_strlit("alg");
    reveal_strlit("type");
    reveal_strlit("bom-ref");
    reveal_strlit("ref");
    reveal_strlit("xmlns");
    reveal_strlit("serialNumber");
}

proof fn wrapped_is_a_block(name: Seq<char>, items: Seq<Item>)
    requires
        plain_name(name),
        block(any_line(), items),
    ensures
        block(any_line(), wrapped(name, items)),
{
    if items.len() == 0 {
        no_lines_are_a_block(any_line());
    } else {
        element_is_a_block(any_line(), name, Seq::empty(), items);
    }
}

proof fn hashes_are_a_block(hashes: Seq<HashView>)
    ensures
        block(any_line(), flat(hashes, |h: HashView| hash_items(h))),
{
    names_are_plain();
    let f = |h: HashView| hash_items(h);
    assert forall|i: int| 0 <= i < hashes.len() implies block(
        any_line(),
        f(#[trigger] hashes[i]),
    ) by {
        let items = hash_items(hashes[i]);
        assert(plain_attrs(seq![("alg"@, hashes[i].algorithm)]));
        assert forall|j: int| 0 <= j < items.len() implies whole(#[trigger] items[j]) by {}
        whole_lines_are_a_block(any_line(), items);
    }
    parts_are_a_block(any_line(), hashes, f);
}

proof fn license_is_a_block(license: LicenseView)
    ensures
        block(any_line(), license_items(license)),
{
    names_are_plain();
    match license {
        LicenseView::Expression(expression) => {
            one_line_is_a_block(any_line(), text_item("expression"@, expression));
        },
        LicenseView::Id(id) => {
            let inner = seq![text_item("id"@, id)];
            one_line_is_a_block(any_line(), text_item("id"@, id));
            element_is_a_block(any_line(), "license"@, Seq::empty(), inner);
            assert(license_items(license) =~= seq![open_item("license"@, Seq::empty())] + inner
                + seq![close_item("license"@)]);
        },
        LicenseView::Name(name) => {
            let inner = seq![text_item("name"@, name)];
            one_line_is_a_block(any_line(), text_item("name"@, name));
            element_is_a_block(any_line(), "license"@, Seq::empty(), inner);
            assert(license_items(license) =~= seq![open_item("license"@, Seq::empty())] + inner
                + seq![close_item("license"@)]);
        },
    }
}

proof fn licenses_are_a_block(licenses: Seq<LicenseView>)
    ensures
        block(any_line(), flat(licenses, |l: LicenseView| license_items(l))),
{
    let f = |l: LicenseView| license_items(l);
    assert forall|i: int| 0 <= i < licenses.len() implies block(
        any_line(),
        f(#[trigger] licenses[i]),
    ) by {
        license_is_a_block(licenses[i]);
    }
    parts_are_a_block(any_line(), licenses, f);
}

proof fn reference_is_a_block(reference: ExternalReferenceView)
    ensures
        block(any_line(), reference_items(reference)),
{
    names_are_plain();
    let attrs = seq![("type"@, reference.kind)];
    assert(plain_attrs(attrs));
    let url = seq![text_item("url"@, reference.url)];
    let comment = opt_text_items("comment"@, reference.comment);
    one_line_is_a_block(any_line(), text_item("url"@, reference.url));
    opt_text_is_a_block("comment"@, reference.comment);
    blocks_together(any_line(), url, comment);
    element_is_a_block(any_line(), "reference"@, attrs, url + comment);
    assert(reference_items(reference) =~= seq![open_item("reference"@, attrs)] + (url + comment)
        + seq![close_item("reference"@)]);
}

proof fn references_are_a_block(references: Seq<ExternalReferenceView>)
    ensures
        block(any_line(), flat(references, |e: ExternalReferenceView| reference_items(e))),
{
    let f = |e: ExternalReferenceView| reference_items(e);
    assert forall|i: int| 0 <= i < references.len() implies block(
        any_line(),
        f(#[trigger] references[i]),
    ) by {
        reference_is_a_block(references[i]);
    }
    parts_are_a_block(any_line(), references, f);
}

proof fn origin_is_a_block(component: ComponentView)
    ensures
        block(any_line(), origin_items(component)),
{
    reveal(origin_items);
    names_are_plain();
    let a = wrapped("supplier"@, opt_text_items("name"@, component.supplier));
    let b = opt_text_items("author"@, component.author);
    let c = opt_text_items("publisher"@, component.publisher);
    let d = opt_text_items("group"@, component.group);
    let e = seq![text_item("name"@, component.name)];
    opt_text_is_a_block("name"@, component.supplier);
    wrapped_is_a_block("supplier"@, opt_text_items("name"@, component.supplier));
    opt_text_is_a_block("author"@, component.author);
    opt_text_is_a_block("publisher"@, component.publisher);
    opt_text_is_a_block("group"@, component.group);
    one_line_is_a_block(any_line(), text_item("name"@, component.name));
    blocks_together(any_line(), a, b);
    blocks_together(any_line(), a + b, c);
    blocks_together(any_line(), a + b + c, d);
    blocks_together(any_line(), a + b + c + d, e);
}

proof fn detail_is_a_block(component: ComponentView)
    ensures
        block(any_line(), detail_items(component)),
{
    reveal(detail_items);
    names_are_plain();
    let hashes = flat(component.hashes, |h: HashView| hash_items(h));
    let licenses = flat(component.licenses, |l: LicenseView| license_items(l));
    let a = opt_text_items("version"@, component.version);
    let b = opt_text_items("description"@, component.description);
    let c = opt_text_items("scope"@, component.scope);
    let d = wrapped("hashes"@, hashes);
    let e = wrapped("licenses"@, licenses);
    opt_text_is_a_block("version"@, component.version);
    opt_text_is_a_block("description"@, component.description);
    opt_text_is_a_block("scope"@, component.scope);
    hashes_are_a_block(component.hashes);
    wrapped_is_a_block("hashes"@, hashes);
    licenses_are_a_block(component.licenses);
    wrapped_is_a_block("licenses"@, licenses);
    blocks_together(any_line(), a, b);
    blocks_together(any_line(), a + b, c);
    blocks_together(any_line(), a + b + c, d);
    blocks_together(any_line(), a + b + c + d, e);
}

proof fn reach_is_a_block(component: ComponentView)
    ensures
        block(any_line(), reach_items(component)),
{
    reveal(reach_items);
    names_are_plain();
    let references = flat(
        component.external_references,
        |e: ExternalReferenceView| reference_items(e),
    );
    let a = opt_text_items("copyright"@, component.copyright);
    let b = opt_text_items("cpe"@, component.cpe);
    let c = opt_text_items("purl"@, component.purl);
    let d = wrapped("externalReferences"@, references);
    opt_text_is_a_block("copyright"@, component.copyright);
    opt_text_is_a_block("cpe"@, component.cpe);
    opt_text_is_a_block("purl"@, component.purl);
    references_are_a_block(component.external_references);
    wrapped_is_a_block("externalReferences"@, references);
    blocks_together(any_line(), a, b);
    blocks_together(any_line(), a + b, c);
    blocks_together(any_line(), a + b + c, d);
}

proof fn component_is_a_block(component: ComponentView, target: Seq<char>)
    ensures
        block(any_line(), component_items(component, target)),
{
    names_are_plain();
    let attrs = component_attrs(component, target);
    assert(plain_attrs(attrs));
    let a = origin_items(component);
    let b = detail_items(component);
    let c = reach_items(component);
    origin_is_a_block(component);
    detail_is_a_block(component);
    reach_is_a_block(component);
    blocks_together(any_line(), a, b);
    blocks_together(any_line(), a + b, c);
    element_is_a_block(any_line(), "component"@, attrs, a + b + c);
    assert(component_items(component, target) =~= seq![open_item("component"@, attrs)] + (a + b
        + c) + seq![close_item("component"@)]);
}

proof fn dependency_is_a_block(dependency: DependencyView)
    ensures
        block(any_line(), dependency_items(dependency)),
{
    names_are_plain();
    assert forall|r: Seq<char>| #[trigger] whole(
        empty_item("dependency"@, seq![("ref"@, r)]),
    ) by {
        assert(plain_attrs(seq![("ref"@, r)]));
    }
    let attrs = seq![("ref"@, dependency.bom_ref)];
    assert(plain_attrs(attrs));
    if dependency.depends_on.len() == 0 {
        one_line_is_a_block(any_line(), empty_item("dependency"@, attrs));
    } else {
        let inner = target_items(dependency.depends_on);
        assert forall|i: int| 0 <= i < inner.len() implies whole(#[trigger] inner[i]) by {
            assert(inner[i] == empty_item(
                "dependency"@,
                seq![("ref"@, dependency.depends_on[i])],
            ));
        }
        whole_lines_are_a_block(any_line(), inner);
        element_is_a_block(any_line(), "dependency"@, attrs, inner);
    }
}

proof fn metadata_is_a_block(doc: SbomDocView, target: Seq<char>)
    ensures
        block(any_line(), metadata_items(doc, target)),
{
    names_are_plain();
    let a = opt_text_items("timestamp"@, doc.timestamp);
    let b = match doc.subject {
        Some(subject) => component_items(subject, target),
        None => Seq::empty(),
    };
    opt_text_is_a_block("timestamp"@, doc.timestamp);
    match doc.subject {
        Some(subject) => {
            component_is_a_block(subject, target);
        },
        None => {
            no_lines_are_a_block(any_line());
        },
    }
    blocks_together(any_line(), a, b);
    wrapped_is_a_block("metadata"@, a + b);
}

proof fn components_are_a_block(doc: SbomDocView, target: Seq<char>)
    ensures
        block(any_line(), flat(doc.components, |c: ComponentView| component_items(c, target))),
        block(any_line(), flat(doc.dependencies, |d: DependencyView| dependency_items(d))),
{
    let f = |c: ComponentView| component_items(c, target);
    assert forall|i: int| 0 <= i < doc.components.len() implies block(
        any_line(),
        f(#[trigger] doc.components[i]),
    ) by {
        component_is_a_block(doc.components[i], target);
    }
    parts_are_a_block(any_line(), doc.components, f);
    let g = |d: DependencyView| dependency_items(d);
    assert forall|i: int| 0 <= i < doc.dependencies.len() implies block(
        any_line(),
        g(#[trigger] doc.dependencies[i]),
    ) by {
        dependency_is_a_block(doc.dependencies[i]);
    }
    parts_are_a_block(any_line(), doc.dependencies, g);
}

/// What is written as CycloneDX XML is a document.
pub proof fn documents_are_well_formed(doc: SbomDocView, target: Seq<char>)
    ensures
        well_formed(bom_items(doc, target)),
{
    names_are_plain();
    let attrs = bom_attrs(doc, target);
    assert(plain_attrs(attrs));
    let list = flat(doc.components, |c: ComponentView| component_items(c, target));
    let edges = flat(doc.dependencies, |d: DependencyView| dependency_items(d));
    let metadata = metadata_items(doc, target);
    let components = seq![open_item("components"@, Seq::empty())] + list + seq![
        close_item("components"@),
    ];
    let dependencies = wrapped("dependencies"@, edges);
    components_are_a_block(doc, target);
    metadata_is_a_block(doc, target);
    element_is_a_block(any_line(), "components"@, Seq::empty(), list);
    wrapped_is_a_block("dependencies"@, edges);
    blocks_together(any_line(), metadata, components);
    blocks_together(any_line(), metadata + components, dependencies);
    let inner = metadata + components + dependencies;
    element_is_a_block(any_line(), "bom"@, attrs, inner);
    one_line_is_a_block(any_line(), declaration_item());
    let body = seq![open_item("bom"@, attrs)] + inner + seq![close_item("bom"@)];
    blocks_together(any_line(), seq![declaration_item()], body);
    assert(bom_items(doc, target) =~= seq![declaration_item()] + body);
    document_is_well_formed(any_line(), bom_items(doc, target));
}

/// Whether these bytes are a bill of materials, written in a version that can
/// be told from its namespace.
pub open spec fn holds_document(input: Seq<u8>, doc: SbomDocView, target: Seq<char>) -> bool {
    plain_version(target) && input == encode_utf8(rendered(bom_items(doc, target)))
}

/// What was written reads back from its bytes.
pub(crate) proof fn written_bytes_read_back(
    input: Seq<u8>,
    events: Seq<EventView>,
    doc: SbomDocView,
    target: Seq<char>,
    ctx: CtxView,
)
    requires
        faithful(input, events),
        holds_document(input, doc, target),
    ensures
        read_spec(events, ctx) == (
            Ok::<DocView, ErrorView>(DocView::Sbom(sort_doc(kept_doc(doc, target)))),
            ctx,
        ),
{
    let items = bom_items(doc, target);
    documents_are_well_formed(doc, target);
    assert(echoes(events, items));
    let chunks = choose|chunks: Seq<Seq<EventView>>| #[trigger]
        reads_as(items, chunks) && events == events_of(chunks).push(EventView::Eof);
    documents_read_back(doc, target, chunks, ctx);
}

} // verus!
