//! CycloneDX JSON, spec versions 1.4 through 1.6.
//!
//! The document shape is backward compatible, the enumerations are not: a
//! component type that the target version does not define would invalidate the
//! whole document, so it is narrowed to `library` and the narrowing is
//! reported.
//!
//! Converting a BOM to CycloneDX keeps the version it arrived as, unless the
//! caller pinned one. There is no CycloneDX JSON before 1.2: asking for an older
//! version is refused rather than approximated.

use vstd::prelude::*;

use crate::error::{parse_error, Error, ErrorView};
use crate::json::{
    array_view, decode, decoded, field, filter_map_items, json_result, list_of, maybe, member_at,
    member_at_props, members, number_field, object_view, text_field, text_items, text_list, Fields,
    Json, JsonView, Members, Shape,
};
use crate::model::sbom::{
    add_edge, an_edge_is_added, at_least, has_edge, kind_name, narrowed, parse_kind, sort_doc,
    version_at_least, version_in, with_edge, Component, ComponentKind, ComponentView, Dependency,
    DependencyView, ExternalReference, ExternalReferenceView, HashView, License, LicenseView,
    SbomDoc, SbomDocView, SpecOrigin, SpecOriginView, Tool, ToolView,
};
use crate::registry::{read_result, wrong_kind, Doc, DocView};
use crate::text::{
    chars, concat3, concat5, decimal, digit, is_digit, lower, number, owned, pieces, same,
    same_ignoring_case, split, strip_prefix, without_prefix,
};
use crate::value::{
    add_new, append_one, either, empty_list, filter_mapped, map_list, non_empty, or_else, or_text,
    text_or, with_new, Value,
};
use crate::warn::{CtxView, FormatCtx};

verus! {

pub const FORMAT: &'static str = "cyclonedx-json";

/// Fallback when neither the caller nor the document says which version to
/// write.
pub const FALLBACK_VERSION: &'static str = "1.5";

/// The first version that CycloneDX has a JSON form of.
pub const FIRST_VERSION: &'static str = "1.2";

/// Spec lineage. A version is only carried over between documents of the same
/// family.
pub const FAMILY: &'static str = "cyclonedx";

// ---------------------------------------------------------------------------
// The shape of a document
// ---------------------------------------------------------------------------

#[verifier::allow_in_spec]
pub fn license_shape() -> Shape
    returns
        Shape::Record(
            field(
                "license",
                maybe(Shape::Record(text_field("id", text_field("name", Fields::End)))),
                text_field("expression", Fields::End),
            ),
        ),
{
    Shape::Record(
        field(
            "license",
            maybe(Shape::Record(text_field("id", text_field("name", Fields::End)))),
            text_field("expression", Fields::End),
        ),
    )
}

#[verifier::allow_in_spec]
pub fn hash_shape() -> Shape
    returns
        Shape::Record(text_field("alg", text_field("content", Fields::End))),
{
    Shape::Record(text_field("alg", text_field("content", Fields::End)))
}

#[verifier::allow_in_spec]
pub fn reference_shape() -> Shape
    returns
        Shape::Record(text_field("type", text_field("url", text_field("comment", Fields::End)))),
{
    Shape::Record(text_field("type", text_field("url", text_field("comment", Fields::End))))
}

/// A component. What it contains is held to the same shape, one level at a
/// time.
#[verifier::allow_in_spec]
pub fn component_shape() -> Shape
    returns
        Shape::Record(
            text_field("bom-ref", text_field("type", text_field("name", text_field(
                "version",
                text_field("group", text_field("purl", text_field("cpe", text_field(
                    "description",
                    text_field("scope", text_field("author", text_field("publisher", field(
                        "supplier",
                        maybe(Shape::Record(text_field("name", Fields::End))),
                        text_field("copyright", field("licenses", list_of(license_shape()), field(
                            "hashes",
                            list_of(hash_shape()),
                            field("externalReferences", list_of(reference_shape()), field(
                                "components",
                                list_of(Shape::Raw),
                                Fields::End,
                            )),
                        ))),
                    )))),
                )))),
            )))),
        ),
{
    Shape::Record(
        text_field("bom-ref", text_field("type", text_field("name", text_field(
            "version",
            text_field("group", text_field("purl", text_field("cpe", text_field(
                "description",
                text_field("scope", text_field("author", text_field("publisher", field(
                    "supplier",
                    maybe(Shape::Record(text_field("name", Fields::End))),
                    text_field("copyright", field("licenses", list_of(license_shape()), field(
                        "hashes",
                        list_of(hash_shape()),
                        field("externalReferences", list_of(reference_shape()), field(
                            "components",
                            list_of(Shape::Raw),
                            Fields::End,
                        )),
                    ))),
                )))),
            )))),
        )))),
    )
}

/// Where a component given by position holds what it contains.
pub const CHILDREN_POSITION: usize = 16;

#[verifier::allow_in_spec]
pub fn metadata_shape() -> Shape
    returns
        Shape::Record(
            text_field("timestamp", field("component", maybe(Shape::Raw), field(
                "tools",
                maybe(Shape::Any),
                Fields::End,
            ))),
        ),
{
    Shape::Record(
        text_field("timestamp", field("component", maybe(Shape::Raw), field(
            "tools",
            maybe(Shape::Any),
            Fields::End,
        ))),
    )
}

#[verifier::allow_in_spec]
pub fn dependency_shape() -> Shape
    returns
        Shape::Record(text_field("ref", field("dependsOn", list_of(Shape::Text), Fields::End))),
{
    Shape::Record(text_field("ref", field("dependsOn", list_of(Shape::Text), Fields::End)))
}

#[verifier::allow_in_spec]
pub fn bom_shape() -> Shape
    returns
        Shape::Record(
            text_field("bomFormat", text_field("specVersion", text_field("serialNumber",
                number_field("version", 4294967295, field("metadata", maybe(metadata_shape()), field(
                "components",
                list_of(Shape::Raw),
                field("dependencies", list_of(dependency_shape()), field(
                    "vulnerabilities",
                    list_of(Shape::Any),
                    field("services", list_of(Shape::Any), field(
                        "compositions",
                        list_of(Shape::Any),
                        field("formulation", Shape::Any, Fields::End),
                    )),
                )),
            )))))),
        ),
{
    Shape::Record(
        text_field("bomFormat", text_field("specVersion", text_field("serialNumber", number_field(
            "version",
            4294967295,
            field("metadata", maybe(metadata_shape()), field(
                "components",
                list_of(Shape::Raw),
                field("dependencies", list_of(dependency_shape()), field(
                    "vulnerabilities",
                    list_of(Shape::Any),
                    field("services", list_of(Shape::Any), field(
                        "compositions",
                        list_of(Shape::Any),
                        field("formulation", Shape::Any, Fields::End),
                    )),
                )),
            )),
        )))),
    )
}

// ---------------------------------------------------------------------------
// Components
// ---------------------------------------------------------------------------

pub open spec fn license_choice(choice: JsonView) -> Option<LicenseView> {
    let license = choice.get("license"@);
    match non_empty(choice.get("expression"@).text()) {
        Some(expression) => Some(LicenseView::Expression(expression)),
        None => match non_empty(license.get("id"@).text()) {
            Some(id) => Some(LicenseView::Id(id)),
            None => match non_empty(license.get("name"@).text()) {
                Some(name) => Some(LicenseView::Name(name)),
                None => None,
            },
        },
    }
}

pub open spec fn hash_in(hash: JsonView) -> Option<HashView> {
    match (hash.get("alg"@).text(), hash.get("content"@).text()) {
        (Some(algorithm), Some(value)) => Some(HashView::of(algorithm, value)),
        _ => None,
    }
}

pub open spec fn reference_in(reference: JsonView) -> Option<ExternalReferenceView> {
    match reference.get("url"@).text() {
        Some(url) => Some(
            ExternalReferenceView {
                kind: or_text(reference.get("type"@).text(), "other"@),
                url,
                comment: reference.get("comment"@).text(),
            },
        ),
        None => None,
    }
}

pub open spec fn kind_in(text: Option<Seq<char>>) -> ComponentKind {
    match text {
        Some(word) => match parse_kind(word) {
            Some(kind) => kind,
            None => ComponentView::empty().kind,
        },
        None => ComponentView::empty().kind,
    }
}

/// The component in canonical form, without what it contains.
pub open spec fn component_of(raw: JsonView) -> ComponentView {
    ComponentView {
        bom_ref: raw.get("bom-ref"@).text(),
        kind: kind_in(raw.get("type"@).text()),
        name: or_text(raw.get("name"@).text(), ""@),
        version: raw.get("version"@).text(),
        group: raw.get("group"@).text(),
        purl: raw.get("purl"@).text(),
        cpe: raw.get("cpe"@).text(),
        description: raw.get("description"@).text(),
        scope: raw.get("scope"@).text(),
        author: raw.get("author"@).text(),
        publisher: raw.get("publisher"@).text(),
        supplier: raw.get("supplier"@).get("name"@).text(),
        copyright: raw.get("copyright"@).text(),
        licenses: filter_mapped(
            raw.get("licenses"@).items(),
            |choice: JsonView| license_choice(choice),
        ),
        hashes: filter_mapped(raw.get("hashes"@).items(), |hash: JsonView| hash_in(hash)),
        external_references: filter_mapped(
            raw.get("externalReferences"@).items(),
            |reference: JsonView| reference_in(reference),
        ),
    }
}

fn read_license(choice: &Json) -> (r: Option<License>)
    ensures
        r.deep_view() == license_choice(choice.deep_view()),
{
    let license = choice.get("license");
    if let Some(expression) = crate::value::if_any(choice.get("expression").text()) {
        return Some(License::Expression(expression));
    }
    if let Some(id) = crate::value::if_any(license.get("id").text()) {
        return Some(License::Id(id));
    }
    if let Some(name) = crate::value::if_any(license.get("name").text()) {
        return Some(License::Name(name));
    }
    None
}

fn read_hash(hash: &Json) -> (r: Option<crate::model::sbom::Hash>)
    ensures
        r.deep_view() == hash_in(hash.deep_view()),
{
    match (hash.get("alg").text(), hash.get("content").text()) {
        (Some(algorithm), Some(value)) => Some(
            crate::model::sbom::Hash::new(algorithm.as_str(), value.as_str()),
        ),
        _ => None,
    }
}

fn read_reference(reference: &Json) -> (r: Option<ExternalReference>)
    ensures
        r.deep_view() == reference_in(reference.deep_view()),
{
    match reference.get("url").text() {
        Some(url) => {
            let kind = reference.get("type").text();
            Some(
                ExternalReference {
                    kind: owned(text_or(&kind, "other")),
                    url,
                    comment: reference.get("comment").text(),
                },
            )
        },
        None => None,
    }
}

pub fn read_kind(text: &Option<String>) -> (r: ComponentKind)
    ensures
        r == kind_in(text.deep_view()),
{
    if let Some(word) = text {
        if let Some(kind) = ComponentKind::parse(word.as_str()) {
            return kind;
        }
    }
    Component::default().kind
}

pub fn read_component(raw: &Json) -> (r: Component)
    ensures
        r.deep_view() == component_of(raw.deep_view()),
{
    let name = raw.get("name").text();
    Component {
        bom_ref: raw.get("bom-ref").text(),
        kind: read_kind(&raw.get("type").text()),
        name: owned(text_or(&name, "")),
        version: raw.get("version").text(),
        group: raw.get("group").text(),
        purl: raw.get("purl").text(),
        cpe: raw.get("cpe").text(),
        description: raw.get("description").text(),
        scope: raw.get("scope").text(),
        author: raw.get("author").text(),
        publisher: raw.get("publisher").text(),
        supplier: raw.get("supplier").get("name").text(),
        copyright: raw.get("copyright").text(),
        licenses: filter_map_items(
            raw.get("licenses"),
            |choice: &Json| -> (o: Option<License>)
                ensures
                    o.deep_view() == license_choice(choice.deep_view())
                { read_license(choice) },
            Ghost(|choice: JsonView| license_choice(choice)),
        ),
        hashes: filter_map_items(
            raw.get("hashes"),
            |hash: &Json| -> (o: Option<crate::model::sbom::Hash>)
                ensures
                    o.deep_view() == hash_in(hash.deep_view())
                { read_hash(hash) },
            Ghost(|hash: JsonView| hash_in(hash)),
        ),
        external_references: filter_map_items(
            raw.get("externalReferences"),
            |reference: &Json| -> (o: Option<ExternalReference>)
                ensures
                    o.deep_view() == reference_in(reference.deep_view())
                { read_reference(reference) },
            Ghost(|reference: JsonView| reference_in(reference)),
        ),
    }
}

// ---------------------------------------------------------------------------
// The component tree
// ---------------------------------------------------------------------------

/// What a component contains, by name or by position.
pub open spec fn children(json: JsonView) -> Seq<JsonView> {
    match json {
        JsonView::Object(list) => {
            let at = member_at(list, "components"@);
            if 0 <= at < list.len() {
                list[at].1.items()
            } else {
                Seq::empty()
            }
        },
        JsonView::Array(list) => if list.len() > CHILDREN_POSITION {
            list[CHILDREN_POSITION as int].items()
        } else {
            Seq::empty()
        },
        _ => Seq::empty(),
    }
}

pub proof fn children_are_smaller(json: JsonView)
    ensures
        children(json).len() > 0 ==> decreases_to!(json => children(json)),
{
    match json {
        JsonView::Object(list) => {
            let at = member_at(list, "components"@);
            if 0 <= at < list.len() && list[at].1 is Array {
                assert(decreases_to!(json => json->Object_0));
                assert(decreases_to!(list => list[at]));
                assert(decreases_to!(list[at] => list[at].1));
                assert(decreases_to!(list[at].1 => list[at].1->Array_0));
            }
        },
        JsonView::Array(list) => {
            let inner = list[CHILDREN_POSITION as int];
            if list.len() > CHILDREN_POSITION && inner is Array {
                assert(decreases_to!(json => json->Array_0));
                assert(decreases_to!(list => list[CHILDREN_POSITION as int]));
                assert(decreases_to!(inner => inner->Array_0));
            }
        },
        _ => {},
    }
}

/// The component and all it contains, parents first; none where something in
/// the tree does not have the shape of a component.
pub open spec fn flattened(json: JsonView) -> Option<Seq<ComponentView>>
    decreases json, 0nat,
{
    match decoded(json, component_shape()) {
        None => None,
        Some(raw) => if children(json).len() == 0 {
            Some(seq![component_of(raw)])
        } else {
            proof {
                children_are_smaller(json);
            }
            match flattened_list(children(json), children(json).len()) {
                Some(list) => Some(seq![component_of(raw)] + list),
                None => None,
            }
        },
    }
}

/// The first `n` trees, one behind the other.
pub open spec fn flattened_list(items: Seq<JsonView>, n: nat) -> Option<Seq<ComponentView>>
    decreases items, n,
{
    if n == 0 || n > items.len() {
        Some(Seq::empty())
    } else {
        match (flattened_list(items, (n - 1) as nat), flattened(items[n - 1])) {
            (Some(head), Some(tree)) => Some(head + tree),
            _ => None,
        }
    }
}

/// The name that others point at a component by.
pub open spec fn name_of(json: JsonView) -> Option<Seq<char>> {
    match decoded(json, component_shape()) {
        Some(raw) => component_of(raw).bom_ref,
        None => None,
    }
}

/// The graph in which the parent depends on its child, where both have a name.
pub open spec fn with_link(
    graph: Seq<DependencyView>,
    parent: Option<Seq<char>>,
    child: Option<Seq<char>>,
) -> Seq<DependencyView> {
    match (parent, child) {
        (Some(from), Some(to)) => with_edge(graph, from, to),
        _ => graph,
    }
}

/// Something in the tree holds a value under the name.
pub open spec fn mentioned(json: JsonView, key: Seq<char>) -> bool
    decreases json, 0nat,
{
    if children(json).len() == 0 {
        !(json.get(key) is Null)
    } else {
        proof {
            children_are_smaller(json);
        }
        !(json.get(key) is Null) || mentioned_in(children(json), children(json).len(), key)
    }
}

/// Something in the first `n` trees holds a value under the name.
pub open spec fn mentioned_in(items: Seq<JsonView>, n: nat, key: Seq<char>) -> bool
    decreases items, n,
{
    if n == 0 || n > items.len() {
        false
    } else {
        mentioned_in(items, (n - 1) as nat, key) || mentioned(items[n - 1], key)
    }
}

/// The graph with every link between a parent and a child of the tree.
pub open spec fn linked(
    graph: Seq<DependencyView>,
    json: JsonView,
    parent: Option<Seq<char>>,
) -> Seq<DependencyView>
    decreases json, 0nat,
{
    let own = with_link(graph, parent, name_of(json));
    if children(json).len() == 0 {
        own
    } else {
        proof {
            children_are_smaller(json);
        }
        linked_list(own, children(json), children(json).len(), name_of(json))
    }
}

/// The graph with the links of the first `n` trees.
pub open spec fn linked_list(
    graph: Seq<DependencyView>,
    items: Seq<JsonView>,
    n: nat,
    parent: Option<Seq<char>>,
) -> Seq<DependencyView>
    decreases items, n,
{
    if n == 0 || n > items.len() {
        graph
    } else {
        linked(linked_list(graph, items, (n - 1) as nat, parent), items[n - 1], parent)
    }
}

/// Flattening a tree takes no edge out of the graph.
pub proof fn flattening_keeps_the_graph(
    graph: Seq<DependencyView>,
    json: JsonView,
    parent: Option<Seq<char>>,
    from: Seq<char>,
    to: Seq<char>,
)
    requires
        has_edge(graph, from, to),
    ensures
        has_edge(linked(graph, json, parent), from, to),
    decreases json, 0nat,
{
    let name = name_of(json);
    let own = with_link(graph, parent, name);
    if parent is Some && name is Some {
        an_edge_is_added(graph, parent->0, name->0);
    }
    if children(json).len() > 0 {
        children_are_smaller(json);
        lists_keep_the_graph(own, children(json), children(json).len(), name, from, to);
    }
}

proof fn lists_keep_the_graph(
    graph: Seq<DependencyView>,
    items: Seq<JsonView>,
    n: nat,
    parent: Option<Seq<char>>,
    from: Seq<char>,
    to: Seq<char>,
)
    requires
        n <= items.len(),
        has_edge(graph, from, to),
    ensures
        has_edge(linked_list(graph, items, n, parent), from, to),
    decreases items, n,
{
    if n > 0 {
        lists_keep_the_graph(graph, items, (n - 1) as nat, parent, from, to);
        flattening_keeps_the_graph(
            linked_list(graph, items, (n - 1) as nat, parent),
            items[n - 1],
            parent,
            from,
            to,
        );
    }
}

/// In the graph of a document, a component depends on every component that it
/// contains: the link between parent and child outlives the tree.
pub proof fn parents_depend_on_their_children(
    graph: Seq<DependencyView>,
    json: JsonView,
    parent: Option<Seq<char>>,
    i: int,
)
    requires
        0 <= i < children(json).len(),
        name_of(json) is Some,
        name_of(children(json)[i]) is Some,
    ensures
        has_edge(linked(graph, json, parent), name_of(json)->0, name_of(children(json)[i])->0),
{
    let name = name_of(json);
    children_are_linked(
        with_link(graph, parent, name),
        children(json),
        children(json).len(),
        name->0,
        i,
    );
}

proof fn children_are_linked(
    graph: Seq<DependencyView>,
    items: Seq<JsonView>,
    n: nat,
    parent: Seq<char>,
    i: int,
)
    requires
        0 <= i < n <= items.len(),
        name_of(items[i]) is Some,
    ensures
        has_edge(linked_list(graph, items, n, Some(parent)), parent, name_of(items[i])->0),
    decreases n,
{
    let before = linked_list(graph, items, (n - 1) as nat, Some(parent));
    let last = items[n - 1];
    let to = name_of(items[i])->0;
    assert(linked_list(graph, items, n, Some(parent)) == linked(before, last, Some(parent)));
    if i < n - 1 {
        children_are_linked(graph, items, (n - 1) as nat, parent, i);
        flattening_keeps_the_graph(before, last, Some(parent), parent, to);
    } else {
        an_edge_is_added(before, parent, to);
        let own = with_link(before, Some(parent), name_of(last));
        assert(own == with_edge(before, parent, to));
        if children(last).len() > 0 {
            lists_keep_the_graph(
                own,
                children(last),
                children(last).len(),
                name_of(last),
                parent,
                to,
            );
        }
    }
}

proof fn broken_tree_breaks_the_list(items: Seq<JsonView>, i: nat, n: nat)
    requires
        i < n <= items.len(),
        flattened(items[i as int]) is None,
    ensures
        flattened_list(items, n) is None,
    decreases n,
{
    if i < n - 1 {
        broken_tree_breaks_the_list(items, i, (n - 1) as nat);
    }
}

fn position_of_children(list: &Vec<(String, Json)>) -> (r: usize)
    ensures
        r == member_at(list.deep_view(), "components"@),
        r <= list@.len(),
{
    proof {
        member_at_props(list.deep_view(), "components"@);
    }
    let ghost all = list.deep_view();
    let mut at: usize = 0;
    assert(all.skip(0) =~= all);
    while at < list.len() && !same(list[at].0.as_str(), "components")
        invariant
            at <= list@.len(),
            all == list.deep_view(),
            member_at(all, "components"@) == at + member_at(
                all.skip(at as int),
                "components"@,
            ),
        decreases list@.len() - at,
    {
        assert(all.skip(at as int)[0] == all[at as int]);
        assert(all.skip(at as int).skip(1) =~= all.skip(at as int + 1));
        at = at + 1;
    }
    if at < list.len() {
        assert(all.skip(at as int)[0] == all[at as int]);
    }
    at
}

/// Where what a component contains is held, if it contains anything.
fn find_children(json: &Json) -> (r: Option<&Vec<Json>>)
    ensures
        match r {
            Some(items) => items.deep_view() == children(json.deep_view()) && decreases_to!(
                *json => *items
            ),
            None => children(json.deep_view()).len() == 0,
        },
{
    let inner = match json {
        Json::Object(list) => {
            proof {
                object_view(*list);
            }
            let at = position_of_children(list);
            if at >= list.len() {
                return None;
            }
            proof {
                assert(decreases_to!(json => json->Object_0));
                assert(decreases_to!(*list => list[at as int]));
                assert(decreases_to!(list[at as int] => list[at as int].1));
                assert(list.deep_view()[at as int].1 == list[at as int].1.deep_view());
            }
            &list[at].1
        },
        Json::Array(list) => {
            proof {
                array_view(*list);
            }
            if list.len() <= CHILDREN_POSITION {
                return None;
            }
            proof {
                assert(decreases_to!(json => json->Array_0));
                assert(decreases_to!(*list => list[CHILDREN_POSITION as int]));
                assert(list.deep_view()[CHILDREN_POSITION as int]
                    == list[CHILDREN_POSITION as int].deep_view());
            }
            &list[CHILDREN_POSITION]
        },
        _ => {
            return None;
        },
    };
    assert(children(json.deep_view()) == inner.deep_view().items());
    assert(decreases_to!(*json => *inner));
    match inner {
        Json::Array(items) => {
            proof {
                array_view(*items);
                assert(decreases_to!(inner => inner->Array_0));
            }
            Some(items)
        },
        _ => None,
    }
}

fn mentions(json: &Json, key: &str) -> (r: bool)
    ensures
        r == mentioned(json.deep_view(), key@),
    decreases json, 0nat,
{
    if !json.get(key).is_null() {
        return true;
    }
    match find_children(json) {
        Some(items) => any_mentions(items, key),
        None => false,
    }
}

fn any_mentions(items: &Vec<Json>, key: &str) -> (r: bool)
    ensures
        r == mentioned_in(items.deep_view(), items.deep_view().len(), key@),
    decreases items, 1nat,
{
    let ghost all = items.deep_view();
    let mut found = false;
    let mut i: usize = 0;
    while i < items.len()
        invariant
            i <= items@.len(),
            all == items.deep_view(),
            found == mentioned_in(all, i as nat, key@),
        decreases items@.len() - i,
    {
        proof {
            assert(decreases_to!(*items => items[i as int]));
        }
        if mentions(&items[i], key) {
            found = true;
        }
        i = i + 1;
    }
    found
}

pub fn add_link(graph: &mut Vec<Dependency>, parent: &Option<String>, child: &Option<String>)
    ensures
        final(graph).deep_view() == with_link(
            old(graph).deep_view(),
            parent.deep_view(),
            child.deep_view(),
        ),
{
    if let (Some(from), Some(to)) = (parent, child) {
        add_edge(graph, from.as_str(), to.as_str());
    }
}

/// Puts the component and all it contains into `out`, parents first, and each
/// link between a parent and its child into `graph`. The pivot is a flat list;
/// the dependency graph carries the relationships.
pub fn flatten(
    json: &Json,
    parent: &Option<String>,
    out: &mut Vec<Component>,
    graph: &mut Vec<Dependency>,
) -> (r: bool)
    ensures
        r == (flattened(json.deep_view()) is Some),
        r ==> final(out).deep_view() == old(out).deep_view() + flattened(json.deep_view())->0,
        r ==> final(graph).deep_view() == linked(
            old(graph).deep_view(),
            json.deep_view(),
            parent.deep_view(),
        ),
    decreases json, 0nat,
{
    let raw = match decode(json, &component_shape()) {
        Some(raw) => raw,
        None => {
            return false;
        },
    };
    let component = read_component(&raw);
    let name = component.bom_ref.copy();
    append_one(out, component);
    add_link(graph, parent, &name);
    let ok = match find_children(json) {
        Some(items) => flatten_list(items, &name, out, graph),
        None => true,
    };
    proof {
        if ok {
            assert(out.deep_view() =~= old(out).deep_view() + flattened(json.deep_view())->0);
        }
    }
    ok
}

fn flatten_list(
    items: &Vec<Json>,
    parent: &Option<String>,
    out: &mut Vec<Component>,
    graph: &mut Vec<Dependency>,
) -> (r: bool)
    ensures
        r == (flattened_list(items.deep_view(), items.deep_view().len()) is Some),
        r ==> final(out).deep_view() == old(out).deep_view() + flattened_list(
            items.deep_view(),
            items.deep_view().len(),
        )->0,
        r ==> final(graph).deep_view() == linked_list(
            old(graph).deep_view(),
            items.deep_view(),
            items.deep_view().len(),
            parent.deep_view(),
        ),
    decreases items, 1nat,
{
    let ghost all = items.deep_view();
    let ghost start = out.deep_view();
    let ghost before = graph.deep_view();
    let mut i: usize = 0;
    assert(start + Seq::<ComponentView>::empty() =~= start);
    while i < items.len()
        invariant
            i <= items@.len(),
            all == items.deep_view(),
            flattened_list(all, i as nat) is Some,
            out.deep_view() == start + flattened_list(all, i as nat)->0,
            graph.deep_view() == linked_list(before, all, i as nat, parent.deep_view()),
        decreases items@.len() - i,
    {
        proof {
            assert(decreases_to!(*items => items[i as int]));
        }
        if !flatten(&items[i], parent, out, graph) {
            proof {
                broken_tree_breaks_the_list(all, i as nat, all.len());
            }
            return false;
        }
        i = i + 1;
        assert(out.deep_view() =~= start + flattened_list(all, i as nat)->0);
    }
    true
}

// ---------------------------------------------------------------------------
// Reading
// ---------------------------------------------------------------------------

pub open spec fn tool_in(entry: JsonView) -> Option<ToolView> {
    match entry.get("name"@).text() {
        Some(name) => Some(
            ToolView {
                name,
                version: entry.get("version"@).text(),
                vendor: or_else(entry.get("vendor"@).text(), entry.get("author"@).text()),
            },
        ),
        None => None,
    }
}

/// `metadata.tools` is an array in 1.4 and an object with `components` in 1.5.
pub open spec fn tool_entries(raw: JsonView) -> Seq<JsonView> {
    match raw {
        JsonView::Array(entries) => entries,
        _ => raw.get("components"@).items(),
    }
}

fn read_tool(entry: &Json) -> (r: Option<Tool>)
    ensures
        r.deep_view() == tool_in(entry.deep_view()),
{
    match entry.get("name").text() {
        Some(name) => Some(
            Tool {
                name,
                version: entry.get("version").text(),
                vendor: either(entry.get("vendor").text(), entry.get("author").text()),
            },
        ),
        None => None,
    }
}

pub fn read_tools(raw: &Json) -> (r: Vec<Tool>)
    ensures
        r.deep_view() == filter_mapped(
            tool_entries(raw.deep_view()),
            |entry: JsonView| tool_in(entry),
        ),
{
    let entries = match raw {
        Json::Array(_) => raw,
        _ => raw.get("components"),
    };
    filter_map_items(
        entries,
        |entry: &Json| -> (o: Option<Tool>)
            ensures
                o.deep_view() == tool_in(entry.deep_view())
            { read_tool(entry) },
        Ghost(|entry: JsonView| tool_in(entry)),
    )
}

pub open spec fn dependency_in(raw: JsonView) -> Option<DependencyView> {
    match raw.get("ref"@).text() {
        Some(bom_ref) => Some(
            DependencyView { bom_ref, depends_on: raw.get("dependsOn"@).texts() },
        ),
        None => None,
    }
}

fn read_dependency(raw: &Json) -> (r: Option<Dependency>)
    ensures
        r.deep_view() == dependency_in(raw.deep_view()),
{
    match raw.get("ref").text() {
        Some(bom_ref) => Some(Dependency { bom_ref, depends_on: raw.get("dependsOn").texts() }),
        None => None,
    }
}

/// The subject, if the document has one, and behind it what it contains; none
/// where it is no component.
pub open spec fn subject_in(raw: JsonView) -> Option<Seq<ComponentView>> {
    if raw is Null {
        Some(Seq::empty())
    } else {
        flattened(raw)
    }
}

/// The graph with the links between the subject and what it contains.
pub open spec fn subject_linked(graph: Seq<DependencyView>, raw: JsonView) -> Seq<
    DependencyView,
> {
    if raw is Null {
        graph
    } else {
        linked(graph, raw, None)
    }
}

/// What the subject contains.
pub open spec fn subject_parts(tree: Seq<ComponentView>) -> Seq<ComponentView> {
    if tree.len() > 0 {
        tree.skip(1)
    } else {
        tree
    }
}

pub open spec fn read_document(
    bom: JsonView,
    version: Seq<char>,
    tree: Seq<ComponentView>,
    listed: Seq<ComponentView>,
) -> SbomDocView {
    let roots = bom.get("components"@).items();
    let stated = filter_mapped(
        bom.get("dependencies"@).items(),
        |raw: JsonView| dependency_in(raw),
    );
    sort_doc(
        SbomDocView {
            spec: Some(SpecOriginView { family: FAMILY@, version }),
            document_id: bom.get("serialNumber"@).text(),
            version: bom.get("version"@).number_u32(),
            timestamp: bom.get("metadata"@).get("timestamp"@).text(),
            tools: filter_mapped(
                tool_entries(bom.get("metadata"@).get("tools"@)),
                |entry: JsonView| tool_in(entry),
            ),
            subject: if tree.len() > 0 {
                Some(tree[0])
            } else {
                None
            },
            components: subject_parts(tree) + listed,
            dependencies: linked_list(
                subject_linked(stated, bom.get("metadata"@).get("component"@)),
                roots,
                roots.len(),
                None,
            ),
        },
    )
}

/// A component of the document, or the subject, holds a value under the name.
pub open spec fn carried(bom: JsonView, key: Seq<char>) -> bool {
    let roots = bom.get("components"@).items();
    mentioned_in(roots, roots.len(), key) || mentioned(
        bom.get("metadata"@).get("component"@),
        key,
    )
}

fn carries(bom: &Json, key: &str) -> (r: bool)
    ensures
        r == carried(bom.deep_view(), key@),
{
    if let Json::Array(items) = bom.get("components") {
        proof {
            array_view(*items);
        }
        if any_mentions(items, key) {
            return true;
        }
    }
    mentions(bom.get("metadata").get("component"), key)
}

pub open spec fn read_notices(bom: JsonView, nested: nat, ctx: CtxView) -> CtxView {
    ctx.degraded_if(
        nested > 0,
        "cyclonedx-json: "@ + decimal(nested)
            + " nested component(s) were flattened to the top level; the pivot has no component tree, and the dependency graph carries the relationships"@,
    ).lossy_if(
        bom.get("vulnerabilities"@).items().len() > 0,
        "cyclonedx-json: "@ + decimal(bom.get("vulnerabilities"@).items().len())
            + " vulnerability record(s) were dropped; a bill of materials pivot lists components, and vulnerabilities belong to the security category"@,
    ).lossy_if(
        bom.get("services"@).items().len() > 0,
        "cyclonedx-json: "@ + decimal(bom.get("services"@).items().len())
            + " service(s) were dropped; the pivot models components only"@,
    ).lossy_if(
        bom.get("compositions"@).items().len() > 0,
        "cyclonedx-json: compositions (completeness statements) were dropped"@,
    ).lossy_if(
        bom.get("formulation"@).items().len() > 0,
        "cyclonedx-json: the formulation (how things were made) was dropped"@,
    ).lossy_if(
        carried(bom, "evidence"@),
        "cyclonedx-json: evidence of how components were identified was dropped"@,
    ).lossy_if(
        carried(bom, "pedigree"@),
        "cyclonedx-json: the pedigree of components was dropped"@,
    )
}

pub open spec fn misshapen() -> ErrorView {
    parse_error(FORMAT@, "not the structure of a CycloneDX document"@)
}

/// The document and notices that reading gives, or the refusal.
pub open spec fn read_spec(json: JsonView, ctx: CtxView) -> (
    Result<DocView, ErrorView>,
    CtxView,
) {
    match decoded(json, bom_shape()) {
        None => (Err(misshapen()), ctx),
        Some(bom) => {
            let roots = bom.get("components"@).items();
            let is_cyclonedx = match bom.get("bomFormat"@).text() {
                Some(name) => lower(name) == lower("CycloneDX"@),
                None => false,
            };
            match (
                subject_in(bom.get("metadata"@).get("component"@)),
                flattened_list(roots, roots.len()),
            ) {
                (Some(tree), Some(listed)) => if !is_cyclonedx {
                    (
                        Err(
                            parse_error(
                                FORMAT@,
                                "no `bomFormat: \"CycloneDX\"` — this does not look like a CycloneDX document"@,
                            ),
                        ),
                        ctx,
                    )
                } else {
                    match bom.get("specVersion"@).text() {
                        None => (
                            Err(
                                parse_error(
                                    FORMAT@,
                                    "no `specVersion`, which CycloneDX requires"@,
                                ),
                            ),
                            ctx,
                        ),
                        Some(version) => (
                            Ok(DocView::Sbom(read_document(bom, version, tree, listed))),
                            read_notices(
                                bom,
                                (subject_parts(tree).len() + listed.len() - roots.len()) as nat,
                                ctx,
                            ),
                        ),
                    }
                },
                _ => (Err(misshapen()), ctx),
            }
        },
    }
}

proof fn trees_are_not_empty(json: JsonView)
    ensures
        flattened(json) matches Some(tree) ==> tree.len() > 0,
{
}

proof fn flattening_loses_nothing(items: Seq<JsonView>, n: nat)
    requires
        n <= items.len(),
        flattened_list(items, n) is Some,
    ensures
        flattened_list(items, n)->0.len() >= n,
    decreases n,
{
    if n > 0 {
        flattening_loses_nothing(items, (n - 1) as nat);
        trees_are_not_empty(items[n - 1]);
    }
}

fn read_subject(raw: &Json, graph: &mut Vec<Dependency>) -> (r: Option<Vec<Component>>)
    ensures
        r.deep_view() == subject_in(raw.deep_view()),
        r is Some ==> final(graph).deep_view() == subject_linked(
            old(graph).deep_view(),
            raw.deep_view(),
        ),
{
    let mut tree: Vec<Component> = empty_list();
    if raw.is_null() {
        return Some(tree);
    }
    if !flatten(raw, &None, &mut tree, graph) {
        return None;
    }
    assert(tree.deep_view() =~= flattened(raw.deep_view())->0);
    Some(tree)
}

fn give_read_notices(bom: &Json, nested: usize, ctx: &mut FormatCtx)
    ensures
        final(ctx)@ == read_notices(bom.deep_view(), nested as nat, old(ctx)@),
{
    if nested > 0 {
        ctx.degraded(
            concat3(
                "cyclonedx-json: ",
                number(nested as u64).as_str(),
                " nested component(s) were flattened to the top level; the pivot has no component tree, and the dependency graph carries the relationships",
            ).as_str(),
        );
    }
    let vulnerabilities = bom.get("vulnerabilities").count();
    if vulnerabilities > 0 {
        ctx.lossy(
            concat3(
                "cyclonedx-json: ",
                number(vulnerabilities as u64).as_str(),
                " vulnerability record(s) were dropped; a bill of materials pivot lists components, and vulnerabilities belong to the security category",
            ).as_str(),
        );
    }
    let services = bom.get("services").count();
    if services > 0 {
        ctx.lossy(
            concat3(
                "cyclonedx-json: ",
                number(services as u64).as_str(),
                " service(s) were dropped; the pivot models components only",
            ).as_str(),
        );
    }
    if bom.get("compositions").count() > 0 {
        ctx.lossy("cyclonedx-json: compositions (completeness statements) were dropped");
    }
    if bom.get("formulation").count() > 0 {
        ctx.lossy("cyclonedx-json: the formulation (how things were made) was dropped");
    }
    if carries(bom, "evidence") {
        ctx.lossy("cyclonedx-json: evidence of how components were identified was dropped");
    }
    if carries(bom, "pedigree") {
        ctx.lossy("cyclonedx-json: the pedigree of components was dropped");
    }
}

fn read_roots(roots: &Json, graph: &mut Vec<Dependency>) -> (r: Option<Vec<Component>>)
    ensures
        r.deep_view() == flattened_list(
            roots.deep_view().items(),
            roots.deep_view().items().len(),
        ),
        r is Some ==> final(graph).deep_view() == linked_list(
            old(graph).deep_view(),
            roots.deep_view().items(),
            roots.deep_view().items().len(),
            None,
        ),
{
    let mut out: Vec<Component> = empty_list();
    match roots {
        Json::Array(items) => {
            proof {
                array_view(*items);
            }
            if flatten_list(items, &None, &mut out, graph) {
                assert(out.deep_view() =~= flattened_list(
                    items.deep_view(),
                    items.deep_view().len(),
                )->0);
                Some(out)
            } else {
                None
            }
        },
        _ => Some(out),
    }
}

pub fn read(json: &Json, ctx: &mut FormatCtx) -> (r: Result<Doc, Error>)
    ensures
        (read_result(r), final(ctx)@) == read_spec(json.deep_view(), old(ctx)@),
{
    let bom = match decode(json, &bom_shape()) {
        Some(bom) => bom,
        None => {
            return Err(Error::parse(FORMAT, "not the structure of a CycloneDX document"));
        },
    };
    let metadata = bom.get("metadata");
    let mut dependencies = filter_map_items(
        bom.get("dependencies"),
        |raw: &Json| -> (o: Option<Dependency>)
            ensures
                o.deep_view() == dependency_in(raw.deep_view())
            { read_dependency(raw) },
        Ghost(|raw: JsonView| dependency_in(raw)),
    );
    let mut components = match read_subject(metadata.get("component"), &mut dependencies) {
        Some(tree) => tree,
        None => {
            return Err(Error::parse(FORMAT, "not the structure of a CycloneDX document"));
        },
    };
    let mut listed = match read_roots(bom.get("components"), &mut dependencies) {
        Some(listed) => listed,
        None => {
            return Err(Error::parse(FORMAT, "not the structure of a CycloneDX document"));
        },
    };
    let is_cyclonedx = match bom.get("bomFormat").text() {
        Some(name) => same_ignoring_case(name.as_str(), "CycloneDX"),
        None => false,
    };
    if !is_cyclonedx {
        return Err(
            Error::parse(
                FORMAT,
                "no `bomFormat: \"CycloneDX\"` — this does not look like a CycloneDX document",
            ),
        );
    }
    let version = match bom.get("specVersion").text() {
        Some(version) => version,
        None => {
            return Err(Error::parse(FORMAT, "no `specVersion`, which CycloneDX requires"));
        },
    };
    let roots = bom.get("components").count();
    proof {
        flattening_loses_nothing(
            bom.deep_view().get("components"@).items(),
            bom.deep_view().get("components"@).items().len(),
        );
        assert(listed@.len() == listed.deep_view().len());
    }
    let ghost tree = components.deep_view();
    let ghost behind = listed.deep_view();
    let subject = if components.len() > 0 {
        Some(components.remove(0))
    } else {
        None
    };
    assert(components.deep_view() =~= subject_parts(tree));
    components.append(&mut listed);
    assert(components.deep_view() =~= subject_parts(tree) + behind);
    assert(components@.len() == components.deep_view().len());
    let nested: usize = components.len() - roots;
    let mut doc = SbomDoc {
        spec: Some(SpecOrigin::new(FAMILY, version.as_str())),
        document_id: bom.get("serialNumber").text(),
        version: bom.get("version").number_u32(),
        timestamp: metadata.get("timestamp").text(),
        tools: read_tools(metadata.get("tools")),
        subject,
        components,
        dependencies,
    };
    doc.sort();
    give_read_notices(&bom, nested, ctx);
    Ok(Doc::Sbom(Box::new(doc)))
}

// ---------------------------------------------------------------------------
// Writing
// ---------------------------------------------------------------------------

/// The version to write: the one asked for, else the source's own within this
/// family, else the format's default.
pub open spec fn target_of(doc: SbomDocView, ctx: CtxView) -> Seq<char> {
    let default = or_text(ctx.version, FALLBACK_VERSION@);
    if ctx.version_requested {
        default
    } else {
        or_text(version_in(doc, FAMILY@), default)
    }
}

/// A version was asked for that CycloneDX has no JSON form of.
pub open spec fn is_too_old(ctx: CtxView) -> bool {
    ctx.version_requested && match ctx.version {
        Some(version) => !at_least(version, FIRST_VERSION@),
        None => false,
    }
}

/// Why a version before the first one is not written.
pub open spec fn too_old(version: Seq<char>) -> ErrorView {
    ErrorView::Config(
        "cyclonedx-json: there is no CycloneDX JSON before 1.2, so version "@ + version
            + " cannot be written"@,
    )
}

/// A BOM converted to CycloneDX keeps the version it arrived as, unless the
/// caller asks for another.
pub proof fn source_version_is_kept(doc: SbomDocView, version: Seq<char>, ctx: CtxView)
    requires
        !ctx.version_requested,
        version_in(doc, FAMILY@) == Some(version),
    ensures
        target_of(doc, ctx) == version,
{
}

pub fn pick_target(doc: &SbomDoc, ctx: &FormatCtx) -> (r: String)
    ensures
        r@ == target_of(doc.deep_view(), ctx@),
{
    let default = match ctx.version() {
        Some(version) => owned(version),
        None => owned(FALLBACK_VERSION),
    };
    if ctx.version_requested() {
        return default;
    }
    match doc.version_within(FAMILY) {
        Some(version) => owned(version),
        None => default,
    }
}

pub open spec fn is_lower_hex(c: char) -> bool {
    is_digit(c) || ('a' <= c && c <= 'f')
}

/// `n` lower case hexadecimal digits.
pub open spec fn hex_group(s: Seq<char>, n: nat) -> bool {
    s.len() == n && forall|i: int| 0 <= i < s.len() ==> is_lower_hex(#[trigger] s[i])
}

/// `urn:uuid:` followed by a canonical UUID, which is all CycloneDX accepts.
pub open spec fn urn_uuid(value: Seq<char>) -> bool {
    match strip_prefix(value, "urn:uuid:"@) {
        None => false,
        Some(rest) => {
            let groups = split(rest, '-');
            groups.len() == 5 && hex_group(groups[0], 8) && hex_group(groups[1], 4) && hex_group(
                groups[2],
                4,
            ) && hex_group(groups[3], 4) && hex_group(groups[4], 12)
        },
    }
}

fn lower_hex(c: char) -> (r: bool)
    ensures
        r == is_lower_hex(c),
{
    digit(c) || ('a' <= c && c <= 'f')
}

fn is_group(s: &str, n: usize) -> (r: bool)
    ensures
        r == hex_group(s@, n as nat),
{
    let cs = chars(s);
    if cs.len() != n {
        return false;
    }
    let mut i: usize = 0;
    while i < cs.len()
        invariant
            i <= cs@.len(),
            cs@ == s@,
            forall|j: int| 0 <= j < i ==> is_lower_hex(#[trigger] s@[j]),
        decreases cs@.len() - i,
    {
        if !lower_hex(cs[i]) {
            assert(!is_lower_hex(s@[i as int]));
            return false;
        }
        i = i + 1;
    }
    true
}

pub fn is_urn_uuid(value: &str) -> (r: bool)
    ensures
        r == urn_uuid(value@),
{
    match without_prefix(value, "urn:uuid:") {
        None => false,
        Some(rest) => {
            let groups = pieces(rest.as_str(), '-');
            assert(groups@.len() == groups.deep_view().len());
            groups.len() == 5 && is_group(groups[0].as_str(), 8) && is_group(
                groups[1].as_str(),
                4,
            ) && is_group(groups[2].as_str(), 4) && is_group(groups[3].as_str(), 4) && is_group(
                groups[4].as_str(),
                12,
            )
        },
    }
}

/// The kinds that the target version does not define, each once, as they come.
pub open spec fn narrowed_kinds(components: Seq<ComponentView>, target: Seq<char>) -> Seq<Seq<char>>
    decreases components.len(),
{
    if components.len() == 0 {
        Seq::empty()
    } else {
        let before = narrowed_kinds(components.drop_last(), target);
        if narrowed(components.last().kind, target).1 {
            with_new(before, kind_name(components.last().kind))
        } else {
            before
        }
    }
}

pub fn list_narrowed(components: &Vec<Component>, target: &str) -> (r: Vec<String>)
    ensures
        r.deep_view() == narrowed_kinds(components.deep_view(), target@),
{
    let ghost all = components.deep_view();
    let mut out: Vec<String> = empty_list();
    let mut i: usize = 0;
    assert(all.take(0) =~= Seq::empty());
    while i < components.len()
        invariant
            i <= components@.len(),
            all == components.deep_view(),
            out.deep_view() == narrowed_kinds(all.take(i as int), target@),
        decreases components@.len() - i,
    {
        assert(all.take(i as int + 1).drop_last() =~= all.take(i as int));
        if components[i].kind.narrow_to(target).1 {
            add_new(&mut out, owned(components[i].kind.as_str()));
        }
        i = i + 1;
    }
    assert(all.take(i as int) =~= all);
    out
}

pub open spec fn narrowing_notices(
    kinds: Seq<Seq<char>>,
    format: Seq<char>,
    target: Seq<char>,
    ctx: CtxView,
) -> CtxView
    decreases kinds.len(),
{
    if kinds.len() == 0 {
        ctx
    } else {
        narrowing_notices(kinds.drop_last(), format, target, ctx).degraded(
            format + ": `"@ + kinds.last() + "` is not a component type in "@ + target
                + ", so it was written as `library`; emitting it would make the whole document invalid"@,
        )
    }
}

pub fn note_narrowing(kinds: &Vec<String>, format: &str, target: &str, ctx: &mut FormatCtx)
    ensures
        final(ctx)@ == narrowing_notices(kinds.deep_view(), format@, target@, old(ctx)@),
{
    let ghost all = kinds.deep_view();
    let ghost start = ctx@;
    let mut i: usize = 0;
    assert(all.take(0) =~= Seq::empty());
    while i < kinds.len()
        invariant
            i <= kinds@.len(),
            all == kinds.deep_view(),
            ctx@ == narrowing_notices(all.take(i as int), format@, target@, start),
        decreases kinds@.len() - i,
    {
        assert(all.take(i as int + 1).drop_last() =~= all.take(i as int));
        let mut message = concat5(
            format,
            ": `",
            kinds[i].as_str(),
            "` is not a component type in ",
            target,
        );
        message.append(
            ", so it was written as `library`; emitting it would make the whole document invalid",
        );
        ctx.degraded(message.as_str());
        i = i + 1;
    }
    assert(all.take(i as int) =~= all);
}

pub open spec fn license_item(license: LicenseView) -> JsonView {
    match license {
        LicenseView::Expression(expression) => members().text("expression"@, expression).done(),
        LicenseView::Id(id) => members().value(
            "license"@,
            members().text("id"@, id).done(),
        ).done(),
        LicenseView::Name(name) => members().value(
            "license"@,
            members().text("name"@, name).done(),
        ).done(),
    }
}

pub open spec fn hash_item(hash: HashView) -> JsonView {
    members().text("alg"@, hash.algorithm).text("content"@, hash.value).done()
}

pub open spec fn reference_item(reference: ExternalReferenceView) -> JsonView {
    members().text("type"@, reference.kind).text("url"@, reference.url).opt_text(
        "comment"@,
        reference.comment,
    ).done()
}

pub open spec fn component_item(component: ComponentView, target: Seq<char>) -> JsonView {
    members().opt_text("bom-ref"@, component.bom_ref).text(
        "type"@,
        kind_name(narrowed(component.kind, target).0),
    ).text("name"@, component.name).opt_text("version"@, component.version).opt_text(
        "group"@,
        component.group,
    ).opt_text("purl"@, component.purl).opt_text("cpe"@, component.cpe).opt_text(
        "description"@,
        component.description,
    ).opt_text("scope"@, component.scope).opt_text("author"@, component.author).opt_text(
        "publisher"@,
        component.publisher,
    ).opt_value(
        "supplier"@,
        match component.supplier {
            Some(name) => Some(members().text("name"@, name).done()),
            None => None,
        },
    ).opt_text("copyright"@, component.copyright).some_list(
        "licenses"@,
        component.licenses.map_values(|l: LicenseView| license_item(l)),
    ).some_list("hashes"@, component.hashes.map_values(|h: HashView| hash_item(h))).some_list(
        "externalReferences"@,
        component.external_references.map_values(|e: ExternalReferenceView| reference_item(e)),
    ).done()
}

fn license_json(license: &License) -> (r: Json)
    ensures
        r.deep_view() == license_item(license.deep_view()),
{
    let mut m = Members::new();
    match license {
        License::Expression(expression) => m.text("expression", expression.as_str()),
        License::Id(id) => {
            let mut inner = Members::new();
            inner.text("id", id.as_str());
            m.value("license", inner.done());
        },
        License::Name(name) => {
            let mut inner = Members::new();
            inner.text("name", name.as_str());
            m.value("license", inner.done());
        },
    }
    m.done()
}

fn hash_json(hash: &crate::model::sbom::Hash) -> (r: Json)
    ensures
        r.deep_view() == hash_item(hash.deep_view()),
{
    let mut m = Members::new();
    m.text("alg", hash.algorithm.as_str());
    m.text("content", hash.value.as_str());
    m.done()
}

fn reference_json(reference: &ExternalReference) -> (r: Json)
    ensures
        r.deep_view() == reference_item(reference.deep_view()),
{
    let mut m = Members::new();
    m.text("type", reference.kind.as_str());
    m.text("url", reference.url.as_str());
    m.opt_text("comment", &reference.comment);
    m.done()
}

pub fn write_component(component: &Component, target: &str) -> (r: Json)
    ensures
        r.deep_view() == component_item(component.deep_view(), target@),
{
    let mut m = Members::new();
    m.opt_text("bom-ref", &component.bom_ref);
    m.text("type", component.kind.narrow_to(target).0.as_str());
    m.text("name", component.name.as_str());
    m.opt_text("version", &component.version);
    m.opt_text("group", &component.group);
    m.opt_text("purl", &component.purl);
    m.opt_text("cpe", &component.cpe);
    m.opt_text("description", &component.description);
    m.opt_text("scope", &component.scope);
    m.opt_text("author", &component.author);
    m.opt_text("publisher", &component.publisher);
    if let Some(name) = &component.supplier {
        let mut supplier = Members::new();
        supplier.text("name", name.as_str());
        m.value("supplier", supplier.done());
    }
    m.opt_text("copyright", &component.copyright);
    m.some_list(
        "licenses",
        map_list(
            &component.licenses,
            |l: &License| -> (o: Json)
                ensures
                    o.deep_view() == license_item(l.deep_view())
                { license_json(l) },
            Ghost(|l: LicenseView| license_item(l)),
        ),
    );
    m.some_list(
        "hashes",
        map_list(
            &component.hashes,
            |h: &crate::model::sbom::Hash| -> (o: Json)
                ensures
                    o.deep_view() == hash_item(h.deep_view())
                { hash_json(h) },
            Ghost(|h: HashView| hash_item(h)),
        ),
    );
    m.some_list(
        "externalReferences",
        map_list(
            &component.external_references,
            |e: &ExternalReference| -> (o: Json)
                ensures
                    o.deep_view() == reference_item(e.deep_view())
                { reference_json(e) },
            Ghost(|e: ExternalReferenceView| reference_item(e)),
        ),
    );
    m.done()
}

pub open spec fn dependency_item(dependency: DependencyView) -> JsonView {
    members().text("ref"@, dependency.bom_ref).some_list(
        "dependsOn"@,
        text_items(dependency.depends_on),
    ).done()
}

fn dependency_json(dependency: &Dependency) -> (r: Json)
    ensures
        r.deep_view() == dependency_item(dependency.deep_view()),
{
    let mut m = Members::new();
    m.text("ref", dependency.bom_ref.as_str());
    m.some_list("dependsOn", text_list(&dependency.depends_on));
    m.done()
}

/// The document's identity, where CycloneDX can carry it.
pub open spec fn serial_of(doc: SbomDocView) -> Option<Seq<char>> {
    match doc.document_id {
        Some(id) => if urn_uuid(id) {
            Some(id)
        } else {
            None
        },
        None => None,
    }
}

pub fn find_serial(doc: &SbomDoc) -> (r: Option<String>)
    ensures
        r.deep_view() == serial_of(doc.deep_view()),
{
    match &doc.document_id {
        Some(id) => if is_urn_uuid(id.as_str()) {
            Some(id.clone())
        } else {
            None
        },
        None => None,
    }
}

/// The components and, behind them, the subject.
pub open spec fn with_subject(doc: SbomDocView) -> Seq<ComponentView> {
    match doc.subject {
        Some(subject) => doc.components.push(subject),
        None => doc.components,
    }
}

pub open spec fn metadata_item(doc: SbomDocView, target: Seq<char>) -> Option<JsonView> {
    if doc.timestamp is None && doc.subject is None {
        None
    } else {
        Some(
            members().opt_text("timestamp"@, doc.timestamp).opt_value(
                "component"@,
                match doc.subject {
                    Some(subject) => Some(component_item(subject, target)),
                    None => None,
                },
            ).done(),
        )
    }
}

pub open spec fn bom_item(doc: SbomDocView, target: Seq<char>) -> JsonView {
    members().text(
        "$schema"@,
        "http://cyclonedx.org/schema/bom-"@ + target + ".schema.json"@,
    ).text("bomFormat"@, "CycloneDX"@).text("specVersion"@, target).opt_text(
        "serialNumber"@,
        serial_of(doc),
    ).number(
        "version"@,
        match doc.version {
            Some(v) => v as nat,
            None => 1,
        },
    ).opt_value("metadata"@, metadata_item(doc, target)).list(
        "components"@,
        doc.components.map_values(|c: ComponentView| component_item(c, target)),
    ).some_list(
        "dependencies"@,
        doc.dependencies.map_values(|d: DependencyView| dependency_item(d)),
    ).done()
}

pub open spec fn write_notices(doc: SbomDocView, target: Seq<char>, ctx: CtxView) -> CtxView {
    narrowing_notices(
        narrowed_kinds(with_subject(doc), target),
        FORMAT@,
        target,
        ctx,
    ).lossy_if(
        doc.tools.len() > 0,
        "cyclonedx-json: the tools that produced the BOM were dropped; `metadata.tools` changed shape between 1.4 and 1.5 and the pivot does not model the difference"@,
    ).lossy_if(
        doc.document_id is Some && serial_of(doc) is None,
        "cyclonedx-json: the source document's identity is not a `urn:uuid:…` and could not be carried over as a serial number"@,
    )
}

pub open spec fn written(doc: DocView, ctx: CtxView) -> (Result<JsonView, ErrorView>, CtxView) {
    match doc {
        DocView::Sbom(doc) => if is_too_old(ctx) {
            (Err(too_old(target_of(doc, ctx))), ctx)
        } else {
            (
                Ok(bom_item(doc, target_of(doc, ctx))),
                write_notices(doc, target_of(doc, ctx), ctx),
            )
        },
        _ => (Err(wrong_kind("expected a bill of materials"@)), ctx),
    }
}

pub fn list_with_subject(doc: &SbomDoc) -> (r: Vec<Component>)
    ensures
        r.deep_view() == with_subject(doc.deep_view()),
{
    let mut all = doc.components.copy();
    if let Some(subject) = &doc.subject {
        append_one(&mut all, subject.copy());
    }
    all
}

fn bom_json(doc: &SbomDoc, target: &str) -> (r: Json)
    ensures
        r.deep_view() == bom_item(doc.deep_view(), target@),
{
    let mut m = Members::new();
    m.text(
        "$schema",
        concat3("http://cyclonedx.org/schema/bom-", target, ".schema.json").as_str(),
    );
    m.text("bomFormat", "CycloneDX");
    m.text("specVersion", target);
    m.opt_text("serialNumber", &find_serial(doc));
    m.number(
        "version",
        match doc.version {
            Some(v) => v as u64,
            None => 1,
        },
    );
    if doc.timestamp.is_some() || doc.subject.is_some() {
        let mut metadata = Members::new();
        metadata.opt_text("timestamp", &doc.timestamp);
        if let Some(subject) = &doc.subject {
            metadata.value("component", write_component(subject, target));
        }
        m.value("metadata", metadata.done());
    }
    m.list(
        "components",
        map_list(
            &doc.components,
            |c: &Component| -> (o: Json)
                ensures
                    o.deep_view() == component_item(c.deep_view(), target@)
                { write_component(c, target) },
            Ghost(|c: ComponentView| component_item(c, target@)),
        ),
    );
    m.some_list(
        "dependencies",
        map_list(
            &doc.dependencies,
            |d: &Dependency| -> (o: Json)
                ensures
                    o.deep_view() == dependency_item(d.deep_view())
                { dependency_json(d) },
            Ghost(|d: DependencyView| dependency_item(d)),
        ),
    );
    m.done()
}

pub fn write(doc: &Doc, ctx: &mut FormatCtx) -> (r: Result<Json, Error>)
    ensures
        (json_result(r), final(ctx)@) == written(doc.deep_view(), old(ctx)@),
{
    let doc = match doc.as_sbom() {
        Ok(doc) => doc,
        Err(e) => {
            return Err(e);
        },
    };
    let target = pick_target(doc, ctx);
    if ctx.version_requested() && ctx.version().is_some() && !version_at_least(
        target.as_str(),
        FIRST_VERSION,
    ) {
        return Err(
            Error::config(
                concat3(
                    "cyclonedx-json: there is no CycloneDX JSON before 1.2, so version ",
                    target.as_str(),
                    " cannot be written",
                ).as_str(),
            ),
        );
    }
    let kinds = list_narrowed(&list_with_subject(doc), target.as_str());
    note_narrowing(&kinds, FORMAT, target.as_str(), ctx);
    if doc.tools.len() > 0 {
        ctx.lossy(
            "cyclonedx-json: the tools that produced the BOM were dropped; `metadata.tools` changed shape between 1.4 and 1.5 and the pivot does not model the difference",
        );
    }
    if doc.document_id.is_some() && find_serial(doc).is_none() {
        ctx.lossy(
            "cyclonedx-json: the source document's identity is not a `urn:uuid:…` and could not be carried over as a serial number",
        );
    }
    Ok(bom_json(doc, target.as_str()))
}

} // verus!
