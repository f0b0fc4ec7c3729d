//! The round trip of a bill of materials through CycloneDX JSON: what reading
//! gives back of what was written.

use vstd::prelude::*;

use crate::error::ErrorView;
use crate::formats::sbom::cyclonedx_json::{
    bom_item, bom_shape, carried, children, component_item, component_of, component_shape,
    dependency_in, dependency_item, dependency_shape, flattened, flattened_list, hash_in, hash_item,
    hash_shape, is_too_old, license_choice, license_item, license_shape, linked, linked_list,
    mentioned, mentioned_in, metadata_item, metadata_shape, read_spec, reference_in, reference_item,
    reference_shape, serial_of, subject_in, subject_linked, subject_parts, target_of, too_old,
    tool_entries, tool_in, written, FAMILY,
};
use crate::json::{
    decoded, default_of, field, list_of, maybe, member_at, members, number_field, text_field,
    text_items, Fields, JsonView, MembersView, Shape,
};
use crate::json_echo::{
    fields_fit, filled, list_json, lists_decode, numbers_decode, record_field, shape_of, slot,
    slot_of_opt, slot_of_value, slot_props, text_json, texts_decode,
};
use crate::model::sbom::{
    kind_name, kind_names_read_back, narrowed, sort_doc, ComponentView, DependencyView,
    ExternalReferenceView, HashView, LicenseView, SbomDocView, SpecOriginView,
};
use crate::registry::DocView;
use crate::text::decimal;
use crate::value::filter_mapped;
use crate::warn::CtxView;

verus! {

// ---------------------------------------------------------------------------
// What is kept
// ---------------------------------------------------------------------------

/// A license without a text is none.
pub open spec fn kept_license(license: LicenseView) -> Option<LicenseView> {
    let text = match license {
        LicenseView::Expression(text) => text,
        LicenseView::Id(text) => text,
        LicenseView::Name(text) => text,
    };
    if text.len() == 0 {
        None
    } else {
        Some(license)
    }
}

/// A hash comes back under the canonical name of its algorithm.
pub open spec fn kept_hash(hash: HashView) -> HashView {
    HashView::of(hash.algorithm, hash.value)
}

/// A component comes back as it is, but for a kind that the version does not
/// know and an algorithm that is not called by its canonical name.
pub open spec fn kept_component(component: ComponentView, target: Seq<char>) -> ComponentView {
    ComponentView {
        kind: narrowed(component.kind, target).0,
        licenses: filter_mapped(component.licenses, |l: LicenseView| kept_license(l)),
        hashes: component.hashes.map_values(|h: HashView| kept_hash(h)),
        ..component
    }
}

/// What is kept of a document: all but the tools, and an identity that CycloneDX
/// cannot carry. A document without a version is the first.
pub open spec fn kept_doc(doc: SbomDocView, target: Seq<char>) -> SbomDocView {
    SbomDocView {
        spec: Some(SpecOriginView { family: FAMILY@, version: target }),
        document_id: serial_of(doc),
        version: match doc.version {
            Some(v) => Some(v),
            None => Some(1),
        },
        timestamp: doc.timestamp,
        tools: Seq::empty(),
        subject: match doc.subject {
            Some(subject) => Some(kept_component(subject, target)),
            None => None,
        },
        components: doc.components.map_values(|c: ComponentView| kept_component(c, target)),
        dependencies: doc.dependencies,
    }
}

// ---------------------------------------------------------------------------
// Parts of a component
// ---------------------------------------------------------------------------

proof fn part_keys()
    ensures
        "license"@.len() == 7,
        "expression"@.len() == 10,
        "id"@.len() == 2,
        "name"@.len() == 4,
        "alg"@.len() == 3,
        "content"@.len() == 7,
        "type"@.len() == 4,
        "url"@.len() == 3,
        "comment"@.len() == 7,
        "ref"@.len() == 3,
        "dependsOn"@.len() == 9,
{
    reveal_strlit("license");
    reveal_strlit("expression");
    reveal_strlit("id");
    reveal_strlit("name");
    reveal_strlit("alg");
    reveal_strlit("content");
    reveal_strlit("type");
    reveal_strlit("url");
    reveal_strlit("comment");
    reveal_strlit("ref");
    reveal_strlit("dependsOn");
}

spec fn inner_fields() -> Fields {
    text_field("id", text_field("name", Fields::End))
}

/// An object of one text under one of two names.
proof fn inner_reads(key: &'static str, text: Seq<char>)
    requires
        key@ == "id"@ || key@ == "name"@,
    ensures
        ({
            let r = decoded(
                members().text(key@, text).done(),
                Shape::Record(inner_fields()),
            );
            &&& r is Some
            &&& r->0 is Object
            &&& r->0.get("id"@).text() == if key@ == "id"@ {
                Some(text)
            } else {
                None
            }
            &&& r->0.get("name"@).text() == if key@ == "name"@ {
                Some(text)
            } else {
                None
            }
        }),
{
    part_keys();
    let m = members().value(key@, JsonView::Text(text));
    slot_of_value(members(), key@, JsonView::Text(text), "id"@);
    slot_of_value(members(), key@, JsonView::Text(text), "name"@);
    reveal_with_fuel(fields_fit, 3);
    reveal_with_fuel(shape_of, 3);
    reveal_with_fuel(decoded, 2);
    reveal_with_fuel(default_of, 2);
    record_field(m, inner_fields(), "id"@);
    record_field(m, inner_fields(), "name"@);
}

proof fn license_reads(license: LicenseView)
    ensures
        decoded(license_item(license), license_shape()) is Some,
        license_choice(decoded(license_item(license), license_shape())->0) == kept_license(license),
{
    part_keys();
    let fields = field(
        "license",
        maybe(Shape::Record(inner_fields())),
        text_field("expression", Fields::End),
    );
    assert(license_shape() == Shape::Record(fields));
    reveal_with_fuel(fields_fit, 3);
    reveal_with_fuel(shape_of, 3);
    reveal_with_fuel(decoded, 2);
    reveal_with_fuel(default_of, 2);
    match license {
        LicenseView::Expression(text) => {
            let value = JsonView::Text(text);
            let m = members().value("expression"@, value);
            slot_of_value(members(), "expression"@, value, "license"@);
            slot_of_value(members(), "expression"@, value, "expression"@);
            record_field(m, fields, "license"@);
            record_field(m, fields, "expression"@);
        },
        LicenseView::Id(text) => {
            let value = members().text("id"@, text).done();
            let m = members().value("license"@, value);
            inner_reads("id", text);
            slot_of_value(members(), "license"@, value, "license"@);
            slot_of_value(members(), "license"@, value, "expression"@);
            record_field(m, fields, "license"@);
            record_field(m, fields, "expression"@);
        },
        LicenseView::Name(text) => {
            let value = members().text("name"@, text).done();
            let m = members().value("license"@, value);
            inner_reads("name", text);
            slot_of_value(members(), "license"@, value, "license"@);
            slot_of_value(members(), "license"@, value, "expression"@);
            record_field(m, fields, "license"@);
            record_field(m, fields, "expression"@);
        },
    }
}

proof fn hash_reads(hash: HashView)
    ensures
        decoded(hash_item(hash), hash_shape()) is Some,
        hash_in(decoded(hash_item(hash), hash_shape())->0) == Some(kept_hash(hash)),
{
    part_keys();
    let fields = text_field("alg", text_field("content", Fields::End));
    let a = JsonView::Text(hash.algorithm);
    let b = JsonView::Text(hash.value);
    let one = members().value("alg"@, a);
    let m = one.value("content"@, b);
    slot_of_value(members(), "alg"@, a, "alg"@);
    slot_of_value(members(), "alg"@, a, "content"@);
    slot_of_value(one, "content"@, b, "alg"@);
    slot_of_value(one, "content"@, b, "content"@);
    reveal_with_fuel(fields_fit, 3);
    reveal_with_fuel(shape_of, 3);
    reveal_with_fuel(decoded, 2);
    record_field(m, fields, "alg"@);
    record_field(m, fields, "content"@);
}

proof fn reference_reads(reference: ExternalReferenceView)
    ensures
        decoded(reference_item(reference), reference_shape()) is Some,
        reference_in(decoded(reference_item(reference), reference_shape())->0) == Some(reference),
{
    part_keys();
    let fields = text_field("type", text_field("url", text_field("comment", Fields::End)));
    let a = JsonView::Text(reference.kind);
    let b = JsonView::Text(reference.url);
    let c = text_json(reference.comment);
    let one = members().value("type"@, a);
    let two = one.value("url"@, b);
    let m = two.opt_value("comment"@, c);
    assert(reference_item(reference) == m.done());
    slot_of_value(members(), "type"@, a, "type"@);
    slot_of_value(members(), "type"@, a, "url"@);
    slot_of_value(members(), "type"@, a, "comment"@);
    slot_of_value(one, "url"@, b, "type"@);
    slot_of_value(one, "url"@, b, "url"@);
    slot_of_value(one, "url"@, b, "comment"@);
    slot_of_opt(two, "comment"@, c, "type"@);
    slot_of_opt(two, "comment"@, c, "url"@);
    slot_of_opt(two, "comment"@, c, "comment"@);
    reveal_with_fuel(fields_fit, 4);
    reveal_with_fuel(shape_of, 4);
    reveal_with_fuel(decoded, 2);
    reveal_with_fuel(default_of, 2);
    record_field(m, fields, "type"@);
    record_field(m, fields, "url"@);
    record_field(m, fields, "comment"@);
}

proof fn dependency_reads(dependency: DependencyView)
    ensures
        decoded(dependency_item(dependency), dependency_shape()) is Some,
        dependency_in(decoded(dependency_item(dependency), dependency_shape())->0) == Some(
            dependency,
        ),
{
    part_keys();
    let fields = text_field("ref", field("dependsOn", list_of(Shape::Text), Fields::End));
    let a = JsonView::Text(dependency.bom_ref);
    let b = list_json(text_items(dependency.depends_on));
    let one = members().value("ref"@, a);
    let m = one.opt_value("dependsOn"@, b);
    assert(dependency_item(dependency) == m.done());
    slot_of_value(members(), "ref"@, a, "ref"@);
    slot_of_value(members(), "ref"@, a, "dependsOn"@);
    slot_of_opt(one, "dependsOn"@, b, "ref"@);
    slot_of_opt(one, "dependsOn"@, b, "dependsOn"@);
    texts_decode(dependency.depends_on);
    reveal_with_fuel(fields_fit, 3);
    reveal_with_fuel(shape_of, 3);
    reveal_with_fuel(decoded, 2);
    reveal_with_fuel(default_of, 2);
    record_field(m, fields, "ref"@);
    record_field(m, fields, "dependsOn"@);
    let r = decoded(dependency_item(dependency), dependency_shape())->0;
    assert(r.get("dependsOn"@).texts() =~= dependency.depends_on);
}

/// Items that each read as something read as all of it.
proof fn lists_read<A, B>(
    list: Seq<A>,
    write: spec_fn(A) -> JsonView,
    shape: Shape,
    read: spec_fn(JsonView) -> Option<B>,
    keep: spec_fn(A) -> Option<B>,
)
    requires
        forall|a: A|
            list.contains(a) ==> decoded(#[trigger] write(a), shape) is Some && read(
                decoded(write(a), shape)->0,
            ) == keep(a),
    ensures
        ({
            let items = list.map_values(write);
            let r = decoded(JsonView::Array(items), Shape::List(Box::new(shape)));
            &&& r is Some
            &&& r->0 is Array
            &&& filter_mapped(r->0.items(), read) == filter_mapped(list, keep)
        }),
{
    let items = list.map_values(write);
    assert forall|i: int| 0 <= i < items.len() implies decoded(#[trigger] items[i], shape) is Some by {
        assert(list.contains(list[i]));
        assert(items[i] == write(list[i]));
    }
    lists_decode(items, shape);
    let values = items.map_values(|item: JsonView| decoded(item, shape)->0);
    assert forall|i: int| 0 <= i < list.len() implies read(#[trigger] values[i]) == keep(list[i]) by {
        assert(list.contains(list[i]));
        assert(items[i] == write(list[i]));
    }
    kept_alike(values, list, read, keep);
}

proof fn kept_alike<A, B, C>(
    a: Seq<A>,
    b: Seq<C>,
    f: spec_fn(A) -> Option<B>,
    g: spec_fn(C) -> Option<B>,
)
    requires
        a.len() == b.len(),
        forall|i: int| 0 <= i < a.len() ==> f(#[trigger] a[i]) == g(b[i]),
    ensures
        filter_mapped(a, f) == filter_mapped(b, g),
    decreases a.len(),
{
    if a.len() > 0 {
        let n = a.len() - 1;
        assert(f(a[n]) == g(b[n]));
        assert forall|i: int| 0 <= i < n implies f(#[trigger] a.drop_last()[i]) == g(
            b.drop_last()[i],
        ) by {
            assert(f(a[i]) == g(b[i]));
        }
        kept_alike(a.drop_last(), b.drop_last(), f, g);
    }
}

proof fn all_mapped<A, B>(list: Seq<A>, f: spec_fn(A) -> B)
    ensures
        filter_mapped(list, |a: A| Some(f(a))) == list.map_values(f),
    decreases list.len(),
{
    if list.len() > 0 {
        all_mapped(list.drop_last(), f);
        assert(list.drop_last().map_values(f).push(f(list.last())) =~= list.map_values(f));
    } else {
        assert(list.map_values(f) =~= Seq::empty());
    }
}

proof fn all_kept<A>(list: Seq<A>)
    ensures
        filter_mapped(list, |a: A| Some(a)) == list,
    decreases list.len(),
{
    let keep = |a: A| Some(a);
    if list.len() > 0 {
        all_kept(list.drop_last());
        assert(list.drop_last().push(list.last()) =~= list);
    } else {
        assert(filter_mapped(list, keep) =~= list);
    }
}

// ---------------------------------------------------------------------------
// Components
// ---------------------------------------------------------------------------

spec fn supplier_json(component: ComponentView) -> Option<JsonView> {
    match component.supplier {
        Some(name) => Some(members().text("name"@, name).done()),
        None => None,
    }
}

spec fn licenses_json(component: ComponentView) -> Option<JsonView> {
    list_json(component.licenses.map_values(|l: LicenseView| license_item(l)))
}

spec fn hashes_json(component: ComponentView) -> Option<JsonView> {
    list_json(component.hashes.map_values(|h: HashView| hash_item(h)))
}

spec fn references_json(component: ComponentView) -> Option<JsonView> {
    list_json(
        component.external_references.map_values(|e: ExternalReferenceView| reference_item(e)),
    )
}

proof fn component_keys()
    ensures
        "bom-ref"@.len() == 7 && "bom-ref"@[0] == 'b',
        "type"@.len() == 4 && "type"@[0] == 't',
        "name"@.len() == 4 && "name"@[0] == 'n',
        "version"@.len() == 7 && "version"@[0] == 'v',
        "group"@.len() == 5 && "group"@[0] == 'g',
        "purl"@.len() == 4 && "purl"@[0] == 'p',
        "cpe"@.len() == 3 && "cpe"@[0] == 'c',
        "description"@.len() == 11 && "description"@[0] == 'd',
        "scope"@.len() == 5 && "scope"@[0] == 's',
        "author"@.len() == 6 && "author"@[0] == 'a',
        "publisher"@.len() == 9 && "publisher"@[0] == 'p',
        "supplier"@.len() == 8 && "supplier"@[0] == 's',
        "copyright"@.len() == 9 && "copyright"@[0] == 'c',
        "licenses"@.len() == 8 && "licenses"@[0] == 'l',
        "hashes"@.len() == 6 && "hashes"@[0] == 'h',
        "externalReferences"@.len() == 18 && "externalReferences"@[0] == 'e',
        "components"@.len() == 10 && "components"@[0] == 'c',
{
    reveal_strlit("bom-ref");
    reveal_strlit("type");
    reveal_strlit("name");
    reveal_strlit("version");
    reveal_strlit("group");
    reveal_strlit("purl");
    reveal_strlit("cpe");
    reveal_strlit("description");
    reveal_strlit("scope");
    reveal_strlit("author");
    reveal_strlit("publisher");
    reveal_strlit("supplier");
    reveal_strlit("copyright");
    reveal_strlit("licenses");
    reveal_strlit("hashes");
    reveal_strlit("externalReferences");
    reveal_strlit("components");
}

/// What a component is written with under a name.
spec fn component_entry(component: ComponentView, target: Seq<char>, key: Seq<char>) -> Option<
    JsonView,
> {
    if key == "bom-ref"@ {
        text_json(component.bom_ref)
    } else if key == "type"@ {
        Some(JsonView::Text(kind_name(narrowed(component.kind, target).0)))
    } else if key == "name"@ {
        Some(JsonView::Text(component.name))
    } else if key == "version"@ {
        text_json(component.version)
    } else if key == "group"@ {
        text_json(component.group)
    } else if key == "purl"@ {
        text_json(component.purl)
    } else if key == "cpe"@ {
        text_json(component.cpe)
    } else if key == "description"@ {
        text_json(component.description)
    } else if key == "scope"@ {
        text_json(component.scope)
    } else if key == "author"@ {
        text_json(component.author)
    } else if key == "publisher"@ {
        text_json(component.publisher)
    } else if key == "supplier"@ {
        supplier_json(component)
    } else if key == "copyright"@ {
        text_json(component.copyright)
    } else if key == "licenses"@ {
        licenses_json(component)
    } else if key == "hashes"@ {
        hashes_json(component)
    } else if key == "externalReferences"@ {
        references_json(component)
    } else {
        None
    }
}

spec fn component_members(component: ComponentView, target: Seq<char>) -> MembersView {
    members()
        .opt_value("bom-ref"@, text_json(component.bom_ref))
        .value("type"@, JsonView::Text(kind_name(narrowed(component.kind, target).0)))
        .value("name"@, JsonView::Text(component.name))
        .opt_value("version"@, text_json(component.version))
        .opt_value("group"@, text_json(component.group))
        .opt_value("purl"@, text_json(component.purl))
        .opt_value("cpe"@, text_json(component.cpe))
        .opt_value("description"@, text_json(component.description))
        .opt_value("scope"@, text_json(component.scope))
        .opt_value("author"@, text_json(component.author))
        .opt_value("publisher"@, text_json(component.publisher))
        .opt_value("supplier"@, supplier_json(component))
        .opt_value("copyright"@, text_json(component.copyright))
        .opt_value("licenses"@, licenses_json(component))
        .opt_value("hashes"@, hashes_json(component))
        .opt_value("externalReferences"@, references_json(component))
}

#[verifier::rlimit(30)]
proof fn component_slot(component: ComponentView, target: Seq<char>, key: Seq<char>)
    ensures
        slot(component_members(component, target).list, key) == filled(
            component_entry(component, target, key),
        ),
{
    component_keys();
    let m0 = members();
    let v0 = text_json(component.bom_ref);
    let m1 = m0.opt_value("bom-ref"@, v0);
    slot_of_opt(m0, "bom-ref"@, v0, key);
    let v1 = JsonView::Text(kind_name(narrowed(component.kind, target).0));
    let m2 = m1.value("type"@, v1);
    slot_of_value(m1, "type"@, v1, key);
    let v2 = JsonView::Text(component.name);
    let m3 = m2.value("name"@, v2);
    slot_of_value(m2, "name"@, v2, key);
    let v3 = text_json(component.version);
    let m4 = m3.opt_value("version"@, v3);
    slot_of_opt(m3, "version"@, v3, key);
    let v4 = text_json(component.group);
    let m5 = m4.opt_value("group"@, v4);
    slot_of_opt(m4, "group"@, v4, key);
    let v5 = text_json(component.purl);
    let m6 = m5.opt_value("purl"@, v5);
    slot_of_opt(m5, "purl"@, v5, key);
    let v6 = text_json(component.cpe);
    let m7 = m6.opt_value("cpe"@, v6);
    slot_of_opt(m6, "cpe"@, v6, key);
    let v7 = text_json(component.description);
    let m8 = m7.opt_value("description"@, v7);
    slot_of_opt(m7, "description"@, v7, key);
    let v8 = text_json(component.scope);
    let m9 = m8.opt_value("scope"@, v8);
    slot_of_opt(m8, "scope"@, v8, key);
    let v9 = text_json(component.author);
    let m10 = m9.opt_value("author"@, v9);
    slot_of_opt(m9, "author"@, v9, key);
    let v10 = text_json(component.publisher);
    let m11 = m10.opt_value("publisher"@, v10);
    slot_of_opt(m10, "publisher"@, v10, key);
    let v11 = supplier_json(component);
    let m12 = m11.opt_value("supplier"@, v11);
    slot_of_opt(m11, "supplier"@, v11, key);
    let v12 = text_json(component.copyright);
    let m13 = m12.opt_value("copyright"@, v12);
    slot_of_opt(m12, "copyright"@, v12, key);
    let v13 = licenses_json(component);
    let m14 = m13.opt_value("licenses"@, v13);
    slot_of_opt(m13, "licenses"@, v13, key);
    let v14 = hashes_json(component);
    let m15 = m14.opt_value("hashes"@, v14);
    slot_of_opt(m14, "hashes"@, v14, key);
    let v15 = references_json(component);
    slot_of_opt(m15, "externalReferences"@, v15, key);
}

proof fn component_is_written(component: ComponentView, target: Seq<char>)
    ensures
        component_item(component, target) == component_members(component, target).done(),
{
}

spec fn supplier_fields() -> Fields {
    text_field("name", Fields::End)
}

proof fn supplier_reads(component: ComponentView)
    ensures
        match supplier_json(component) {
            Some(value) => {
                let r = decoded(value, Shape::Record(supplier_fields()));
                &&& r is Some
                &&& value is Object
                &&& r->0.get("name"@).text() == component.supplier
            },
            None => component.supplier is None,
        },
{
    if let Some(name) = component.supplier {
        let m = members().value("name"@, JsonView::Text(name));
        slot_of_value(members(), "name"@, JsonView::Text(name), "name"@);
        reveal_with_fuel(fields_fit, 2);
        reveal_with_fuel(shape_of, 2);
        reveal_with_fuel(decoded, 2);
        record_field(m, supplier_fields(), "name"@);
    }
}

/// The lists of a component read as what is kept of them.
proof fn parts_read(component: ComponentView)
    ensures
        ({
            let items = component.licenses.map_values(|l: LicenseView| license_item(l));
            let r = decoded(JsonView::Array(items), list_of(license_shape()));
            &&& r is Some
            &&& r->0 is Array
            &&& filter_mapped(r->0.items(), |choice: JsonView| license_choice(choice))
                == filter_mapped(component.licenses, |l: LicenseView| kept_license(l))
        }),
        ({
            let items = component.hashes.map_values(|h: HashView| hash_item(h));
            let r = decoded(JsonView::Array(items), list_of(hash_shape()));
            &&& r is Some
            &&& r->0 is Array
            &&& filter_mapped(r->0.items(), |hash: JsonView| hash_in(hash))
                == component.hashes.map_values(|h: HashView| kept_hash(h))
        }),
        ({
            let items = component.external_references.map_values(
                |e: ExternalReferenceView| reference_item(e),
            );
            let r = decoded(JsonView::Array(items), list_of(reference_shape()));
            &&& r is Some
            &&& r->0 is Array
            &&& filter_mapped(r->0.items(), |reference: JsonView| reference_in(reference))
                == component.external_references
        }),
{
    let wl = |l: LicenseView| license_item(l);
    let rl = |choice: JsonView| license_choice(choice);
    let kl = |l: LicenseView| kept_license(l);
    assert forall|l: LicenseView| component.licenses.contains(l) implies decoded(
        #[trigger] wl(l),
        license_shape(),
    ) is Some && rl(decoded(wl(l), license_shape())->0) == kl(l) by {
        license_reads(l);
    }
    lists_read(component.licenses, wl, license_shape(), rl, kl);
    let wh = |h: HashView| hash_item(h);
    let rh = |hash: JsonView| hash_in(hash);
    let kh = |h: HashView| Some(kept_hash(h));
    assert forall|h: HashView| component.hashes.contains(h) implies decoded(
        #[trigger] wh(h),
        hash_shape(),
    ) is Some && rh(decoded(wh(h), hash_shape())->0) == kh(h) by {
        hash_reads(h);
    }
    lists_read(component.hashes, wh, hash_shape(), rh, kh);
    all_mapped(component.hashes, |h: HashView| kept_hash(h));
    assert(kh =~= |h: HashView| Some((|h: HashView| kept_hash(h))(h)));
    let we = |e: ExternalReferenceView| reference_item(e);
    let re = |reference: JsonView| reference_in(reference);
    let ke = |e: ExternalReferenceView| Some(e);
    assert forall|e: ExternalReferenceView| component.external_references.contains(e) implies decoded(
        #[trigger] we(e),
        reference_shape(),
    ) is Some && re(decoded(we(e), reference_shape())->0) == ke(e) by {
        reference_reads(e);
    }
    lists_read(component.external_references, we, reference_shape(), re, ke);
    all_kept(component.external_references);
}

/// The fields behind the first ones.
spec fn late_fields() -> Fields {
    field(
        "supplier",
        maybe(Shape::Record(supplier_fields())),
        text_field(
            "copyright",
            field(
                "licenses",
                list_of(license_shape()),
                field(
                    "hashes",
                    list_of(hash_shape()),
                    field(
                        "externalReferences",
                        list_of(reference_shape()),
                        field("components", list_of(Shape::Raw), Fields::End),
                    ),
                ),
            ),
        ),
    )
}

spec fn component_fields() -> Fields {
    text_field(
        "bom-ref",
        text_field(
            "type",
            text_field(
                "name",
                text_field(
                    "version",
                    text_field(
                        "group",
                        text_field(
                            "purl",
                            text_field(
                                "cpe",
                                text_field(
                                    "description",
                                    text_field(
                                        "scope",
                                        text_field(
                                            "author",
                                            text_field("publisher", late_fields()),
                                        ),
                                    ),
                                ),
                            ),
                        ),
                    ),
                ),
            ),
        ),
    )
}

proof fn late_fields_fit(component: ComponentView, target: Seq<char>)
    ensures
        fields_fit(component_members(component, target).list, late_fields()),
{
    component_keys();
    component_slot(component, target, "supplier"@);
    component_slot(component, target, "copyright"@);
    component_slot(component, target, "licenses"@);
    component_slot(component, target, "hashes"@);
    component_slot(component, target, "externalReferences"@);
    component_slot(component, target, "components"@);
    supplier_reads(component);
    parts_read(component);
    reveal_with_fuel(fields_fit, 7);
    reveal_with_fuel(decoded, 2);
}

proof fn component_fits(component: ComponentView, target: Seq<char>)
    ensures
        fields_fit(component_members(component, target).list, component_fields()),
{
    component_keys();
    late_fields_fit(component, target);
    component_slot(component, target, "bom-ref"@);
    component_slot(component, target, "type"@);
    component_slot(component, target, "name"@);
    component_slot(component, target, "version"@);
    component_slot(component, target, "group"@);
    component_slot(component, target, "purl"@);
    component_slot(component, target, "cpe"@);
    component_slot(component, target, "description"@);
    component_slot(component, target, "scope"@);
    component_slot(component, target, "author"@);
    component_slot(component, target, "publisher"@);
    reveal_with_fuel(fields_fit, 12);
    reveal_with_fuel(decoded, 2);
}

/// A text of a component reads as it is.
proof fn text_reads(component: ComponentView, target: Seq<char>, key: Seq<char>)
    requires
        shape_of(component_fields(), key) == Some(maybe(Shape::Text)),
        match component_entry(component, target, key) {
            Some(value) => value is Text,
            None => true,
        },
    ensures
        decoded(component_item(component, target), component_shape()) is Some,
        decoded(component_item(component, target), component_shape())->0.get(key).text()
            == match component_entry(component, target, key) {
            Some(value) => value.text(),
            None => None,
        },
{
    component_is_written(component, target);
    component_fits(component, target);
    component_slot(component, target, key);
    assert(component_shape() == Shape::Record(component_fields()));
    record_field(component_members(component, target), component_fields(), key);
    reveal_with_fuel(decoded, 2);
    reveal_with_fuel(default_of, 2);
}

proof fn text_shapes()
    ensures
        shape_of(component_fields(), "bom-ref"@) == Some(maybe(Shape::Text)),
        shape_of(component_fields(), "type"@) == Some(maybe(Shape::Text)),
        shape_of(component_fields(), "name"@) == Some(maybe(Shape::Text)),
        shape_of(component_fields(), "version"@) == Some(maybe(Shape::Text)),
        shape_of(component_fields(), "group"@) == Some(maybe(Shape::Text)),
        shape_of(component_fields(), "purl"@) == Some(maybe(Shape::Text)),
        shape_of(component_fields(), "cpe"@) == Some(maybe(Shape::Text)),
        shape_of(component_fields(), "description"@) == Some(maybe(Shape::Text)),
        shape_of(component_fields(), "scope"@) == Some(maybe(Shape::Text)),
        shape_of(component_fields(), "author"@) == Some(maybe(Shape::Text)),
        shape_of(component_fields(), "publisher"@) == Some(maybe(Shape::Text)),
        shape_of(component_fields(), "copyright"@) == Some(maybe(Shape::Text)),
        shape_of(component_fields(), "supplier"@) == Some(
            maybe(Shape::Record(supplier_fields())),
        ),
        shape_of(component_fields(), "licenses"@) == Some(list_of(license_shape())),
        shape_of(component_fields(), "hashes"@) == Some(list_of(hash_shape())),
        shape_of(component_fields(), "externalReferences"@) == Some(list_of(reference_shape())),
{
    component_keys();
    reveal_with_fuel(shape_of, 18);
}

proof fn texts_read(component: ComponentView, target: Seq<char>)
    ensures
        ({
            let r = decoded(component_item(component, target), component_shape());
            &&& r is Some
            &&& r->0.get("bom-ref"@).text() == component.bom_ref
            &&& r->0.get("type"@).text() == Some(kind_name(narrowed(component.kind, target).0))
            &&& r->0.get("name"@).text() == Some(component.name)
            &&& r->0.get("version"@).text() == component.version
            &&& r->0.get("group"@).text() == component.group
            &&& r->0.get("purl"@).text() == component.purl
            &&& r->0.get("cpe"@).text() == component.cpe
            &&& r->0.get("description"@).text() == component.description
            &&& r->0.get("scope"@).text() == component.scope
            &&& r->0.get("author"@).text() == component.author
            &&& r->0.get("publisher"@).text() == component.publisher
            &&& r->0.get("copyright"@).text() == component.copyright
        }),
{
    component_keys();
    text_shapes();
    text_reads(component, target, "bom-ref"@);
    text_reads(component, target, "type"@);
    text_reads(component, target, "name"@);
    text_reads(component, target, "version"@);
    text_reads(component, target, "group"@);
    text_reads(component, target, "purl"@);
    text_reads(component, target, "cpe"@);
    text_reads(component, target, "description"@);
    text_reads(component, target, "scope"@);
    text_reads(component, target, "author"@);
    text_reads(component, target, "publisher"@);
    text_reads(component, target, "copyright"@);
}

proof fn lists_of_component_read(component: ComponentView, target: Seq<char>)
    ensures
        ({
            let r = decoded(component_item(component, target), component_shape())->0;
            let kept = kept_component(component, target);
            &&& r.get("supplier"@).get("name"@).text() == component.supplier
            &&& filter_mapped(
                r.get("licenses"@).items(),
                |choice: JsonView| license_choice(choice),
            ) == kept.licenses
            &&& filter_mapped(r.get("hashes"@).items(), |hash: JsonView| hash_in(hash))
                == kept.hashes
            &&& filter_mapped(
                r.get("externalReferences"@).items(),
                |reference: JsonView| reference_in(reference),
            ) == kept.external_references
        }),
{
    component_keys();
    text_shapes();
    component_is_written(component, target);
    component_fits(component, target);
    supplier_reads(component);
    parts_read(component);
    let m = component_members(component, target);
    let fields = component_fields();
    assert(component_shape() == Shape::Record(fields));
    component_slot(component, target, "supplier"@);
    component_slot(component, target, "licenses"@);
    component_slot(component, target, "hashes"@);
    component_slot(component, target, "externalReferences"@);
    record_field(m, fields, "supplier"@);
    record_field(m, fields, "licenses"@);
    record_field(m, fields, "hashes"@);
    record_field(m, fields, "externalReferences"@);
    reveal_with_fuel(decoded, 2);
    reveal_with_fuel(default_of, 2);
    let kept = kept_component(component, target);
    if component.licenses.len() == 0 {
        assert(kept.licenses =~= Seq::empty());
    }
    if component.hashes.len() == 0 {
        assert(kept.hashes =~= Seq::empty());
    }
    if component.external_references.len() == 0 {
        assert(kept.external_references =~= Seq::empty());
    }
}

/// A component that was written stands alone and reads as it is kept.
proof fn component_reads(component: ComponentView, target: Seq<char>)
    ensures
        flattened(component_item(component, target)) == Some(
            seq![kept_component(component, target)],
        ),
        children(component_item(component, target)).len() == 0,
{
    texts_read(component, target);
    lists_of_component_read(component, target);
    kind_names_read_back(narrowed(component.kind, target).0);
    let item = component_item(component, target);
    let raw = decoded(item, component_shape())->0;
    assert(component_of(raw) == kept_component(component, target));
    component_is_written(component, target);
    component_keys();
    component_slot(component, target, "components"@);
    let list = component_members(component, target).list;
    slot_props(list, "components"@);
    assert(item == JsonView::Object(list));
    assert(member_at(list, "components"@) == list.len());
}

// ---------------------------------------------------------------------------
// The document
// ---------------------------------------------------------------------------

spec fn schema_text(target: Seq<char>) -> Seq<char> {
    "http://cyclonedx.org/schema/bom-"@ + target + ".schema.json"@
}

spec fn version_number(doc: SbomDocView) -> u32 {
    match doc.version {
        Some(v) => v,
        None => 1,
    }
}

spec fn version_json(doc: SbomDocView) -> JsonView {
    JsonView::Number(decimal(version_number(doc) as nat))
}

spec fn component_items(doc: SbomDocView, target: Seq<char>) -> Seq<JsonView> {
    doc.components.map_values(|c: ComponentView| component_item(c, target))
}

spec fn components_json(doc: SbomDocView, target: Seq<char>) -> JsonView {
    JsonView::Array(component_items(doc, target))
}

spec fn dependencies_json(doc: SbomDocView) -> Option<JsonView> {
    list_json(doc.dependencies.map_values(|d: DependencyView| dependency_item(d)))
}

proof fn document_keys()
    ensures
        "$schema"@.len() == 7 && "$schema"@[0] == '$',
        "bomFormat"@.len() == 9 && "bomFormat"@[0] == 'b',
        "specVersion"@.len() == 11 && "specVersion"@[0] == 's',
        "serialNumber"@.len() == 12 && "serialNumber"@[0] == 's',
        "version"@.len() == 7 && "version"@[0] == 'v',
        "metadata"@.len() == 8 && "metadata"@[0] == 'm',
        "components"@.len() == 10 && "components"@[0] == 'c',
        "dependencies"@.len() == 12 && "dependencies"@[0] == 'd',
        "vulnerabilities"@.len() == 15 && "vulnerabilities"@[0] == 'v',
        "services"@.len() == 8 && "services"@[0] == 's',
        "compositions"@.len() == 12 && "compositions"@[0] == 'c',
        "formulation"@.len() == 11 && "formulation"@[0] == 'f',
{
    reveal_strlit("$schema");
    reveal_strlit("bomFormat");
    reveal_strlit("specVersion");
    reveal_strlit("serialNumber");
    reveal_strlit("version");
    reveal_strlit("metadata");
    reveal_strlit("components");
    reveal_strlit("dependencies");
    reveal_strlit("vulnerabilities");
    reveal_strlit("services");
    reveal_strlit("compositions");
    reveal_strlit("formulation");
}

/// What a document is written with under a name.
spec fn document_entry(doc: SbomDocView, target: Seq<char>, key: Seq<char>) -> Option<JsonView> {
    if key == "$schema"@ {
        Some(JsonView::Text(schema_text(target)))
    } else if key == "bomFormat"@ {
        Some(JsonView::Text("CycloneDX"@))
    } else if key == "specVersion"@ {
        Some(JsonView::Text(target))
    } else if key == "serialNumber"@ {
        text_json(serial_of(doc))
    } else if key == "version"@ {
        Some(version_json(doc))
    } else if key == "metadata"@ {
        metadata_item(doc, target)
    } else if key == "components"@ {
        Some(components_json(doc, target))
    } else if key == "dependencies"@ {
        dependencies_json(doc)
    } else {
        None
    }
}

spec fn document_members(doc: SbomDocView, target: Seq<char>) -> MembersView {
    members()
        .value("$schema"@, JsonView::Text(schema_text(target)))
        .value("bomFormat"@, JsonView::Text("CycloneDX"@))
        .value("specVersion"@, JsonView::Text(target))
        .opt_value("serialNumber"@, text_json(serial_of(doc)))
        .value("version"@, version_json(doc))
        .opt_value("metadata"@, metadata_item(doc, target))
        .value("components"@, components_json(doc, target))
        .opt_value("dependencies"@, dependencies_json(doc))
}

proof fn document_slot(doc: SbomDocView, target: Seq<char>, key: Seq<char>)
    ensures
        slot(document_members(doc, target).list, key) == filled(document_entry(doc, target, key)),
{
    document_keys();
    let m0 = members();
    let v0 = JsonView::Text(schema_text(target));
    let m1 = m0.value("$schema"@, v0);
    slot_of_value(m0, "$schema"@, v0, key);
    let v1 = JsonView::Text("CycloneDX"@);
    let m2 = m1.value("bomFormat"@, v1);
    slot_of_value(m1, "bomFormat"@, v1, key);
    let v2 = JsonView::Text(target);
    let m3 = m2.value("specVersion"@, v2);
    slot_of_value(m2, "specVersion"@, v2, key);
    let v3 = text_json(serial_of(doc));
    let m4 = m3.opt_value("serialNumber"@, v3);
    slot_of_opt(m3, "serialNumber"@, v3, key);
    let v4 = version_json(doc);
    let m5 = m4.value("version"@, v4);
    slot_of_value(m4, "version"@, v4, key);
    let v5 = metadata_item(doc, target);
    let m6 = m5.opt_value("metadata"@, v5);
    slot_of_opt(m5, "metadata"@, v5, key);
    let v6 = components_json(doc, target);
    let m7 = m6.value("components"@, v6);
    slot_of_value(m6, "components"@, v6, key);
    let v7 = dependencies_json(doc);
    slot_of_opt(m7, "dependencies"@, v7, key);
}

proof fn document_is_written(doc: SbomDocView, target: Seq<char>)
    ensures
        bom_item(doc, target) == document_members(doc, target).done(),
{
}

spec fn subject_json(doc: SbomDocView, target: Seq<char>) -> Option<JsonView> {
    match doc.subject {
        Some(subject) => Some(component_item(subject, target)),
        None => None,
    }
}

proof fn metadata_reads(doc: SbomDocView, target: Seq<char>)
    ensures
        match metadata_item(doc, target) {
            Some(value) => {
                let r = decoded(value, metadata_shape());
                &&& r is Some
                &&& value is Object
                &&& r->0.get("timestamp"@).text() == doc.timestamp
                &&& r->0.get("component"@) == match subject_json(doc, target) {
                    Some(item) => item,
                    None => JsonView::Null,
                }
                &&& r->0.get("tools"@) is Null
            },
            None => doc.timestamp is None && doc.subject is None,
        },
{
    reveal_strlit("timestamp");
    reveal_strlit("component");
    reveal_strlit("tools");
    assert("timestamp"@.len() == 9 && "component"@.len() == 9 && "tools"@.len() == 5);
    assert("timestamp"@[0] == 't' && "component"@[0] == 'c');
    if let Some(value) = metadata_item(doc, target) {
        let a = text_json(doc.timestamp);
        let b = subject_json(doc, target);
        let one = members().opt_value("timestamp"@, a);
        let m = one.opt_value("component"@, b);
        assert(value == m.done());
        let fields = text_field(
            "timestamp",
            field("component", maybe(Shape::Raw), field("tools", maybe(Shape::Any), Fields::End)),
        );
        assert(metadata_shape() == Shape::Record(fields));
        slot_of_opt(members(), "timestamp"@, a, "timestamp"@);
        slot_of_opt(members(), "timestamp"@, a, "component"@);
        slot_of_opt(members(), "timestamp"@, a, "tools"@);
        slot_of_opt(one, "component"@, b, "timestamp"@);
        slot_of_opt(one, "component"@, b, "component"@);
        slot_of_opt(one, "component"@, b, "tools"@);
        reveal_with_fuel(fields_fit, 4);
        reveal_with_fuel(shape_of, 4);
        reveal_with_fuel(decoded, 2);
        reveal_with_fuel(default_of, 2);
        record_field(m, fields, "timestamp"@);
        record_field(m, fields, "component"@);
        record_field(m, fields, "tools"@);
    }
}

proof fn anything_decodes(items: Seq<JsonView>)
    ensures
        decoded(JsonView::Array(items), list_of(Shape::Raw)) == Some(JsonView::Array(items)),
{
    lists_decode(items, Shape::Raw);
    assert(items.map_values(|item: JsonView| decoded(item, Shape::Raw)->0) =~= items);
}

proof fn dependencies_read(doc: SbomDocView)
    ensures
        ({
            let items = doc.dependencies.map_values(|d: DependencyView| dependency_item(d));
            let r = decoded(JsonView::Array(items), list_of(dependency_shape()));
            &&& r is Some
            &&& r->0 is Array
            &&& filter_mapped(r->0.items(), |raw: JsonView| dependency_in(raw))
                == doc.dependencies
        }),
{
    let write = |d: DependencyView| dependency_item(d);
    let read = |raw: JsonView| dependency_in(raw);
    let keep = |d: DependencyView| Some(d);
    assert forall|d: DependencyView| doc.dependencies.contains(d) implies decoded(
        #[trigger] write(d),
        dependency_shape(),
    ) is Some && read(decoded(write(d), dependency_shape())->0) == keep(d) by {
        dependency_reads(d);
    }
    lists_read(doc.dependencies, write, dependency_shape(), read, keep);
    all_kept(doc.dependencies);
}

spec fn document_fields() -> Fields {
    text_field(
        "bomFormat",
        text_field(
            "specVersion",
            text_field(
                "serialNumber",
                number_field(
                    "version",
                    4294967295,
                    field(
                        "metadata",
                        maybe(metadata_shape()),
                        field(
                            "components",
                            list_of(Shape::Raw),
                            field(
                                "dependencies",
                                list_of(dependency_shape()),
                                field(
                                    "vulnerabilities",
                                    list_of(Shape::Any),
                                    field(
                                        "services",
                                        list_of(Shape::Any),
                                        field(
                                            "compositions",
                                            list_of(Shape::Any),
                                            field("formulation", Shape::Any, Fields::End),
                                        ),
                                    ),
                                ),
                            ),
                        ),
                    ),
                ),
            ),
        ),
    )
}

proof fn all_document_slots(doc: SbomDocView, target: Seq<char>)
    ensures
        ({
            let list = document_members(doc, target).list;
            &&& slot(list, "bomFormat"@) == filled(Some(JsonView::Text("CycloneDX"@)))
            &&& slot(list, "specVersion"@) == filled(Some(JsonView::Text(target)))
            &&& slot(list, "serialNumber"@) == filled(text_json(serial_of(doc)))
            &&& slot(list, "version"@) == filled(Some(version_json(doc)))
            &&& slot(list, "metadata"@) == filled(metadata_item(doc, target))
            &&& slot(list, "components"@) == filled(Some(components_json(doc, target)))
            &&& slot(list, "dependencies"@) == filled(dependencies_json(doc))
            &&& slot(list, "vulnerabilities"@) is Absent
            &&& slot(list, "services"@) is Absent
            &&& slot(list, "compositions"@) is Absent
            &&& slot(list, "formulation"@) is Absent
        }),
{
    document_keys();
    document_slot(doc, target, "bomFormat"@);
    document_slot(doc, target, "specVersion"@);
    document_slot(doc, target, "serialNumber"@);
    document_slot(doc, target, "version"@);
    document_slot(doc, target, "metadata"@);
    document_slot(doc, target, "components"@);
    document_slot(doc, target, "dependencies"@);
    document_slot(doc, target, "vulnerabilities"@);
    document_slot(doc, target, "services"@);
    document_slot(doc, target, "compositions"@);
    document_slot(doc, target, "formulation"@);
}

proof fn document_fits(doc: SbomDocView, target: Seq<char>)
    ensures
        fields_fit(document_members(doc, target).list, document_fields()),
{
    all_document_slots(doc, target);
    numbers_decode(version_number(doc) as nat, 4294967295);
    metadata_reads(doc, target);
    anything_decodes(component_items(doc, target));
    dependencies_read(doc);
    reveal_with_fuel(fields_fit, 12);
    reveal_with_fuel(decoded, 2);
}

proof fn document_shapes()
    ensures
        shape_of(document_fields(), "bomFormat"@) == Some(maybe(Shape::Text)),
        shape_of(document_fields(), "specVersion"@) == Some(maybe(Shape::Text)),
        shape_of(document_fields(), "serialNumber"@) == Some(maybe(Shape::Text)),
        shape_of(document_fields(), "version"@) == Some(maybe(Shape::Number(4294967295))),
        shape_of(document_fields(), "metadata"@) == Some(maybe(metadata_shape())),
        shape_of(document_fields(), "components"@) == Some(list_of(Shape::Raw)),
        shape_of(document_fields(), "dependencies"@) == Some(list_of(dependency_shape())),
        shape_of(document_fields(), "vulnerabilities"@) == Some(list_of(Shape::Any)),
        shape_of(document_fields(), "services"@) == Some(list_of(Shape::Any)),
        shape_of(document_fields(), "compositions"@) == Some(list_of(Shape::Any)),
        shape_of(document_fields(), "formulation"@) == Some(Shape::Any),
{
    document_keys();
    reveal_with_fuel(shape_of, 12);
}

proof fn document_reads(doc: SbomDocView, target: Seq<char>)
    ensures
        ({
            let r = decoded(bom_item(doc, target), bom_shape());
            &&& r is Some
            &&& r->0.get("bomFormat"@).text() == Some("CycloneDX"@)
            &&& r->0.get("specVersion"@).text() == Some(target)
            &&& r->0.get("serialNumber"@).text() == serial_of(doc)
            &&& r->0.get("version"@).number_u32() == Some(version_number(doc))
            &&& r->0.get("metadata"@).get("timestamp"@).text() == doc.timestamp
            &&& r->0.get("metadata"@).get("component"@) == match subject_json(doc, target) {
                Some(item) => item,
                None => JsonView::Null,
            }
            &&& r->0.get("metadata"@).get("tools"@) is Null
            &&& r->0.get("components"@).items() == component_items(doc, target)
            &&& filter_mapped(
                r->0.get("dependencies"@).items(),
                |raw: JsonView| dependency_in(raw),
            ) == doc.dependencies
            &&& r->0.get("vulnerabilities"@).items().len() == 0
            &&& r->0.get("services"@).items().len() == 0
            &&& r->0.get("compositions"@).items().len() == 0
            &&& r->0.get("formulation"@).items().len() == 0
        }),
{
    document_is_written(doc, target);
    document_fits(doc, target);
    document_shapes();
    all_document_slots(doc, target);
    let m = document_members(doc, target);
    let fields = document_fields();
    assert(bom_shape() == Shape::Record(fields));
    record_field(m, fields, "bomFormat"@);
    record_field(m, fields, "specVersion"@);
    record_field(m, fields, "serialNumber"@);
    record_field(m, fields, "version"@);
    record_field(m, fields, "metadata"@);
    record_field(m, fields, "components"@);
    record_field(m, fields, "dependencies"@);
    record_field(m, fields, "vulnerabilities"@);
    record_field(m, fields, "services"@);
    record_field(m, fields, "compositions"@);
    record_field(m, fields, "formulation"@);
    numbers_decode(version_number(doc) as nat, 4294967295);
    metadata_reads(doc, target);
    anything_decodes(component_items(doc, target));
    dependencies_read(doc);
    reveal_with_fuel(decoded, 2);
    reveal_with_fuel(default_of, 2);
    if doc.dependencies.len() == 0 {
        assert(doc.dependencies =~= Seq::empty());
    }
}

proof fn components_read(doc: SbomDocView, target: Seq<char>, n: nat)
    requires
        n <= doc.components.len(),
    ensures
        flattened_list(component_items(doc, target), n) == Some(
            kept_doc(doc, target).components.take(n as int),
        ),
    decreases n,
{
    let kept = kept_doc(doc, target).components;
    if n == 0 {
        assert(kept.take(0) =~= Seq::empty());
    } else {
        components_read(doc, target, (n - 1) as nat);
        component_reads(doc.components[n - 1], target);
        assert(kept.take(n - 1) + seq![kept[n - 1]] =~= kept.take(n as int));
    }
}

/// A component that was written holds neither evidence nor a pedigree.
proof fn component_mentions_nothing(component: ComponentView, target: Seq<char>)
    ensures
        !mentioned(component_item(component, target), "evidence"@),
        !mentioned(component_item(component, target), "pedigree"@),
{
    component_reads(component, target);
    component_is_written(component, target);
    component_keys();
    reveal_strlit("evidence");
    reveal_strlit("pedigree");
    assert("evidence"@.len() == 8 && "evidence"@[0] == 'e');
    assert("pedigree"@.len() == 8 && "pedigree"@[0] == 'p');
    component_slot(component, target, "evidence"@);
    component_slot(component, target, "pedigree"@);
    let list = component_members(component, target).list;
    slot_props(list, "evidence"@);
    slot_props(list, "pedigree"@);
    assert(component_item(component, target) == JsonView::Object(list));
}

proof fn components_mention_nothing(doc: SbomDocView, target: Seq<char>, n: nat)
    requires
        n <= doc.components.len(),
    ensures
        !mentioned_in(component_items(doc, target), n, "evidence"@),
        !mentioned_in(component_items(doc, target), n, "pedigree"@),
    decreases n,
{
    if n > 0 {
        components_mention_nothing(doc, target, (n - 1) as nat);
        component_mentions_nothing(doc.components[n - 1], target);
        let item = component_items(doc, target)[n - 1];
        assert(item == component_item(doc.components[n - 1], target));
    }
}

/// Components that were written stand beside each other, so none of them adds to
/// the graph.
proof fn components_link_nothing(
    graph: Seq<DependencyView>,
    doc: SbomDocView,
    target: Seq<char>,
    n: nat,
)
    requires
        n <= doc.components.len(),
    ensures
        linked_list(graph, component_items(doc, target), n, None) == graph,
    decreases n,
{
    if n > 0 {
        components_link_nothing(graph, doc, target, (n - 1) as nat);
        component_reads(doc.components[n - 1], target);
        let item = component_items(doc, target)[n - 1];
        assert(item == component_item(doc.components[n - 1], target));
        assert(linked(graph, item, None) == graph);
    }
}

/// What is written as CycloneDX JSON reads back, without losing a component: the
/// version that was written, the identity where CycloneDX can carry it, the time,
/// the subject, every component and every dependency, in canonical order. Reading
/// it loses nothing more. Writing is refused exactly where a version was asked for
/// that has no JSON form.
pub proof fn documents_read_back(doc: SbomDocView, writing: CtxView, reading: CtxView)
    ensures
        match written(DocView::Sbom(doc), writing).0 {
            Ok(json) => read_spec(json, reading) == (
                Ok::<DocView, ErrorView>(
                    DocView::Sbom(sort_doc(kept_doc(doc, target_of(doc, writing)))),
                ),
                reading,
            ),
            Err(e) => is_too_old(writing) && e == too_old(target_of(doc, writing)),
        },
        written(DocView::Sbom(doc), writing).0 is Err <==> is_too_old(writing),
{
    let target = target_of(doc, writing);
    let kept = kept_doc(doc, target);
    document_reads(doc, target);
    components_read(doc, target, doc.components.len());
    components_link_nothing(kept.dependencies, doc, target, doc.components.len());
    components_mention_nothing(doc, target, doc.components.len());
    assert(kept.components.take(doc.components.len() as int) =~= kept.components);
    if let Some(subject) = doc.subject {
        component_reads(subject, target);
        component_is_written(subject, target);
        component_mentions_nothing(subject, target);
    }
    let bom = decoded(bom_item(doc, target), bom_shape())->0;
    let none = Seq::<JsonView>::empty();
    assert(tool_entries(bom.get("metadata"@).get("tools"@)) =~= none);
    assert(filter_mapped(none, |entry: JsonView| tool_in(entry)) =~= Seq::empty());
    let raw = bom.get("metadata"@).get("component"@);
    let tree = subject_in(raw)->0;
    assert(subject_parts(tree) + kept.components =~= kept.components);
    assert(subject_linked(kept.dependencies, raw) == kept.dependencies);
    assert(!carried(bom, "evidence"@) && !carried(bom, "pedigree"@));
}

} // verus!
