//! How written JSON reads: what holding a document to a shape gives back of the
//! members that were put into it.

use vstd::prelude::*;

use crate::json::{
    decoded, decoded_fields, decoded_items, default_of, member_at, member_at_props, occurrences,
    put_member, settled, settled_members, text_items, texts_of, Fields, JsonView, MembersView,
    Shape,
};
use crate::text::{decimal, decimal_reads_back};

verus! {

/// What an object holds under a key.
pub enum Slot {
    Absent,
    Once { value: JsonView },
    Repeated,
}

pub open spec fn slot(members: Seq<(Seq<char>, JsonView)>, key: Seq<char>) -> Slot
    decreases members.len(),
{
    if members.len() == 0 {
        Slot::Absent
    } else {
        let before = slot(members.drop_last(), key);
        if members.last().0 == key {
            if before is Absent {
                Slot::Once { value: members.last().1 }
            } else {
                Slot::Repeated
            }
        } else {
            before
        }
    }
}

/// What the builder's calls put under a key.
pub proof fn slot_of_value(m: MembersView, name: Seq<char>, value: JsonView, key: Seq<char>)
    ensures
        slot(m.value(name, value).list, key) == if name == key {
            if slot(m.list, key) is Absent {
                Slot::Once { value }
            } else {
                Slot::Repeated
            }
        } else {
            slot(m.list, key)
        },
{
    assert(m.value(name, value).list.drop_last() =~= m.list);
}

pub proof fn slot_of_opt(m: MembersView, name: Seq<char>, value: Option<JsonView>, key: Seq<char>)
    ensures
        slot(m.opt_value(name, value).list, key) == match value {
            Some(value) => if name == key {
                if slot(m.list, key) is Absent {
                    Slot::Once { value }
                } else {
                    Slot::Repeated
                }
            } else {
                slot(m.list, key)
            },
            None => slot(m.list, key),
        },
{
    if let Some(v) = value {
        slot_of_value(m, name, v, key);
    }
}

proof fn member_at_push(
    members: Seq<(Seq<char>, JsonView)>,
    pair: (Seq<char>, JsonView),
    key: Seq<char>,
)
    ensures
        member_at(members.push(pair), key) == if member_at(members, key) < members.len() {
            member_at(members, key)
        } else if pair.0 == key {
            members.len() as int
        } else {
            members.len() as int + 1
        },
    decreases members.len(),
{
    let all = members.push(pair);
    if members.len() == 0 {
        assert(all.skip(1) =~= Seq::empty());
        assert(member_at(all.skip(1), key) == 0);
        assert(all[0] == pair);
    } else if members[0].0 == key {
        assert(all[0] == members[0]);
    } else {
        member_at_props(members, key);
        member_at_props(members.skip(1), key);
        assert(all[0] == members[0]);
        assert(all.skip(1) =~= members.skip(1).push(pair));
        member_at_push(members.skip(1), pair, key);
    }
}

proof fn member_at_update(members: Seq<(Seq<char>, JsonView)>, at: int, value: JsonView, key: Seq<
    char,
>)
    requires
        0 <= at < members.len(),
    ensures
        member_at(members.update(at, (members[at].0, value)), key) == member_at(members, key),
    decreases members.len(),
{
    let all = members.update(at, (members[at].0, value));
    assert(all[0].0 == members[0].0);
    if members[0].0 != key {
        if at == 0 {
            assert(all.skip(1) =~= members.skip(1));
        } else {
            assert(all.skip(1) =~= members.skip(1).update(at - 1, (members[at].0, value)));
            member_at_update(members.skip(1), at - 1, value, key);
        }
    }
}

proof fn member_found(members: Seq<(Seq<char>, JsonView)>, key: Seq<char>)
    ensures
        member_at(members, key) < members.len() ==> members[member_at(members, key)].0 == key,
    decreases members.len(),
{
    if members.len() > 0 && members[0].0 != key {
        member_at_props(members.skip(1), key);
        member_found(members.skip(1), key);
    }
}

proof fn put_reads(
    members: Seq<(Seq<char>, JsonView)>,
    name: Seq<char>,
    value: JsonView,
    key: Seq<char>,
)
    ensures
        JsonView::Object(put_member(members, name, value)).get(key) == if name == key {
            value
        } else {
            JsonView::Object(members).get(key)
        },
{
    let at = member_at(members, name);
    member_at_props(members, name);
    member_at_props(members, key);
    member_found(members, name);
    member_found(members, key);
    if at < members.len() {
        member_at_update(members, at, value, key);
    } else {
        member_at_push(members, (name, value), key);
    }
}

/// The last value of a key in the first `n` members.
pub open spec fn last_value(members: Seq<(Seq<char>, JsonView)>, n: nat, key: Seq<char>) -> Option<
    JsonView,
>
    decreases n,
{
    if n == 0 || n > members.len() {
        None
    } else if members[n - 1].0 == key {
        Some(members[n - 1].1)
    } else {
        last_value(members, (n - 1) as nat, key)
    }
}

proof fn values_so_far_count(members: Seq<(Seq<char>, JsonView)>, n: nat, key: Seq<char>)
    requires
        n <= members.len(),
    ensures
        JsonView::Object(settled_members(members, n)).get(key) == match last_value(
            members,
            n,
            key,
        ) {
            Some(value) => settled(value),
            None => JsonView::Null,
        },
    decreases n,
{
    if n > 0 {
        values_so_far_count(members, (n - 1) as nat, key);
        put_reads(
            settled_members(members, (n - 1) as nat),
            members[n - 1].0,
            settled(members[n - 1].1),
            key,
        );
    }
}

/// In a free-form object the last value of a repeated key counts.
pub proof fn last_values_count(members: Seq<(Seq<char>, JsonView)>, key: Seq<char>)
    ensures
        decoded(JsonView::Object(members), Shape::Any)->0.get(key) == match last_value(
            members,
            members.len(),
            key,
        ) {
            Some(value) => settled(value),
            None => JsonView::Null,
        },
{
    values_so_far_count(members, members.len(), key);
}

/// The same in the terms of decoding.
pub proof fn slot_props(members: Seq<(Seq<char>, JsonView)>, key: Seq<char>)
    ensures
        slot(members, key) is Absent <==> occurrences(members, key) == 0,
        slot(members, key) is Absent <==> member_at(members, key) == members.len(),
        slot(members, key) is Once <==> occurrences(members, key) == 1,
        slot(members, key) is Once ==> JsonView::Object(members).get(key) == slot(
            members,
            key,
        )->Once_value,
    decreases members.len(),
{
    if members.len() > 0 {
        let head = members.drop_last();
        slot_props(head, key);
        assert(head.push(members.last()) =~= members);
        member_at_push(head, members.last(), key);
        member_at_props(head, key);
        member_at_props(members, key);
        if members.last().0 != key && slot(head, key) is Once {
            assert(members[member_at(head, key)] == head[member_at(head, key)]);
        }
    }
}

/// What a field of this shape reads as, from what the object holds under its
/// name.
pub open spec fn field_value(slot: Slot, shape: Shape) -> Option<JsonView> {
    match slot {
        Slot::Absent => Some(default_of(shape)),
        Slot::Once { value } => decoded(value, shape),
        Slot::Repeated => None,
    }
}

/// Whether every field can be read.
pub open spec fn fields_fit(members: Seq<(Seq<char>, JsonView)>, fields: Fields) -> bool
    decreases fields,
{
    match fields {
        Fields::End => true,
        Fields::Field { name, shape, rest } => field_value(slot(members, name@), *shape) is Some
            && fields_fit(members, *rest),
    }
}

/// The shape of the first field of this name.
pub open spec fn shape_of(fields: Fields, key: Seq<char>) -> Option<Shape>
    decreases fields,
{
    match fields {
        Fields::End => None,
        Fields::Field { name, shape, rest } => if name@ == key {
            Some(*shape)
        } else {
            shape_of(*rest, key)
        },
    }
}

proof fn fitting_fields_decode(members: Seq<(Seq<char>, JsonView)>, fields: Fields)
    requires
        fields_fit(members, fields),
    ensures
        decoded_fields(members, fields) is Some,
        forall|key: Seq<char>|
            match shape_of(fields, key) {
                Some(shape) => #[trigger] JsonView::Object(
                    decoded_fields(members, fields)->0,
                ).get(key) == field_value(slot(members, key), shape)->0,
                None => JsonView::Object(decoded_fields(members, fields)->0).get(key) is Null,
            },
    decreases fields,
{
    match fields {
        Fields::End => {},
        Fields::Field { name, shape, rest } => {
            fitting_fields_decode(members, *rest);
            slot_props(members, name@);
            let list = decoded_fields(members, fields)->0;
            let tail = decoded_fields(members, *rest)->0;
            assert(list.skip(1) =~= tail);
            assert forall|key: Seq<char>|
                match shape_of(fields, key) {
                    Some(shape) => #[trigger] JsonView::Object(list).get(key) == field_value(
                        slot(members, key),
                        shape,
                    )->0,
                    None => JsonView::Object(list).get(key) is Null,
                } by {
                member_at_props(tail, key);
                if name@ != key {
                    assert(JsonView::Object(tail).get(key) == JsonView::Object(list).get(key)) by {
                        if member_at(tail, key) < tail.len() {
                            assert(list[member_at(tail, key) + 1] == tail[member_at(tail, key)]);
                        }
                    }
                }
            }
        },
    }
}

/// An object whose members fit the fields of a record decodes, and each field
/// holds what its member decodes to, or its default.
pub proof fn records_decode(m: MembersView, fields: Fields)
    requires
        fields_fit(m.list, fields),
    ensures
        match decoded(m.done(), Shape::Record(fields)) {
            Some(record) => record is Object && forall|key: Seq<char>|
                match shape_of(fields, key) {
                    Some(shape) => #[trigger] record.get(key) == field_value(
                        slot(m.list, key),
                        shape,
                    )->0,
                    None => record.get(key) is Null,
                },
            None => false,
        },
{
    fitting_fields_decode(m.list, fields);
}

/// A field of a decoded record.
pub proof fn record_field(m: MembersView, fields: Fields, key: Seq<char>)
    requires
        fields_fit(m.list, fields),
        shape_of(fields, key) is Some,
    ensures
        decoded(m.done(), Shape::Record(fields)) is Some,
        decoded(m.done(), Shape::Record(fields))->0 is Object,
        decoded(m.done(), Shape::Record(fields))->0.get(key) == field_value(
            slot(m.list, key),
            shape_of(fields, key)->0,
        )->0,
{
    records_decode(m, fields);
    let record = decoded(m.done(), Shape::Record(fields))->0;
    assert(record.get(key) == record.get(key));
}

/// Whether no field stands behind another of its name.
pub open spec fn distinct_names(fields: Fields) -> bool
    decreases fields,
{
    match fields {
        Fields::End => true,
        Fields::Field { name, shape: _, rest } => shape_of(*rest, name@) is None
            && distinct_names(*rest),
    }
}

/// Whether what an object holds under a key can be read by the field of that
/// name.
pub open spec fn slot_fits(
    members: Seq<(Seq<char>, JsonView)>,
    fields: Fields,
    key: Seq<char>,
) -> bool {
    match (slot(members, key), shape_of(fields, key)) {
        (Slot::Once { value }, Some(shape)) => decoded(value, shape) is Some,
        (Slot::Repeated, _) => false,
        _ => true,
    }
}

/// Every field can be read where every key holds what its field can read.
pub proof fn fitting_slots_fit(members: Seq<(Seq<char>, JsonView)>, fields: Fields)
    requires
        distinct_names(fields),
        forall|key: Seq<char>| #[trigger] slot_fits(members, fields, key),
    ensures
        fields_fit(members, fields),
    decreases fields,
{
    match fields {
        Fields::End => {},
        Fields::Field { name, shape, rest } => {
            assert(slot_fits(members, fields, name@));
            assert forall|key: Seq<char>| #[trigger] slot_fits(members, *rest, key) by {
                assert(slot_fits(members, fields, key));
            }
            fitting_slots_fit(members, *rest);
        },
    }
}

/// What a builder's call puts there, given a value or none.
pub open spec fn filled(value: Option<JsonView>) -> Slot {
    match value {
        Some(value) => Slot::Once { value },
        None => Slot::Absent,
    }
}

pub open spec fn text_json(text: Option<Seq<char>>) -> Option<JsonView> {
    match text {
        Some(text) => Some(JsonView::Text(text)),
        None => None,
    }
}

pub open spec fn number_json(n: Option<u32>) -> Option<JsonView> {
    match n {
        Some(n) => Some(JsonView::Number(decimal(n as nat))),
        None => None,
    }
}

pub open spec fn list_json(items: Seq<JsonView>) -> Option<JsonView> {
    if items.len() == 0 {
        None
    } else {
        Some(JsonView::Array(items))
    }
}

/// What a record holds that was written with these values under their names.
pub open spec fn record_holds(
    item: JsonView,
    fields: Fields,
    entry: spec_fn(Seq<char>) -> Option<JsonView>,
) -> bool {
    match decoded(item, Shape::Record(fields)) {
        Some(r) => r is Object && forall|key: Seq<char>|
            match shape_of(fields, key) {
                Some(shape) => #[trigger] r.get(key) == field_value(
                    filled(entry(key)),
                    shape,
                )->0,
                None => r.get(key) is Null,
            },
        None => false,
    }
}

/// An object that holds these values, each under a name of its own and readable
/// by the field of that name, reads as a record that holds them.
pub proof fn written_records_read(
    m: MembersView,
    fields: Fields,
    entry: spec_fn(Seq<char>) -> Option<JsonView>,
)
    requires
        distinct_names(fields),
        forall|key: Seq<char>| slot(m.list, key) == filled(#[trigger] entry(key)),
        forall|key: Seq<char>|
            match (#[trigger] entry(key), shape_of(fields, key)) {
                (Some(value), Some(shape)) => decoded(value, shape) is Some,
                _ => true,
            },
    ensures
        record_holds(m.done(), fields, entry),
{
    assert forall|key: Seq<char>| #[trigger] slot_fits(m.list, fields, key) by {
        assert(slot(m.list, key) == filled(entry(key)));
    }
    fitting_slots_fit(m.list, fields);
    records_decode(m, fields);
    let r = decoded(m.done(), Shape::Record(fields))->0;
    assert forall|key: Seq<char>|
        match shape_of(fields, key) {
            Some(shape) => #[trigger] r.get(key) == field_value(filled(entry(key)), shape)->0,
            None => r.get(key) is Null,
        } by {
        assert(slot(m.list, key) == filled(entry(key)));
    }
}

/// A list decodes item by item.
pub proof fn lists_decode(items: Seq<JsonView>, shape: Shape)
    requires
        forall|i: int| 0 <= i < items.len() ==> decoded(#[trigger] items[i], shape) is Some,
    ensures
        decoded(JsonView::Array(items), Shape::List(Box::new(shape))) == Some(
            JsonView::Array(items.map_values(|item: JsonView| decoded(item, shape)->0)),
        ),
{
    items_decode(items, shape);
}

proof fn items_decode(items: Seq<JsonView>, shape: Shape)
    requires
        forall|i: int| 0 <= i < items.len() ==> decoded(#[trigger] items[i], shape) is Some,
    ensures
        decoded_items(items, shape) == Some(
            items.map_values(|item: JsonView| decoded(item, shape)->0),
        ),
    decreases items.len(),
{
    let read = |item: JsonView| decoded(item, shape)->0;
    if items.len() > 0 {
        let head = items.drop_last();
        assert forall|i: int| 0 <= i < head.len() implies decoded(
            #[trigger] head[i],
            shape,
        ) is Some by {
            assert(head[i] == items[i]);
        }
        items_decode(head, shape);
        assert(decoded(items[items.len() - 1], shape) is Some);
        assert(head.map_values(read).push(read(items.last())) =~= items.map_values(read));
    } else {
        assert(items.map_values(read) =~= Seq::empty());
    }
}

/// A list of texts decodes to itself.
pub proof fn texts_decode(texts: Seq<Seq<char>>)
    ensures
        decoded(JsonView::Array(text_items(texts)), Shape::List(Box::new(Shape::Text))) == Some(
            JsonView::Array(text_items(texts)),
        ),
        texts_of(text_items(texts)) == texts,
{
    let items = text_items(texts);
    lists_decode(items, Shape::Text);
    assert(items.map_values(|item: JsonView| decoded(item, Shape::Text)->0) =~= items);
    texts_are_read(texts);
}

proof fn texts_are_read(texts: Seq<Seq<char>>)
    ensures
        texts_of(text_items(texts)) == texts,
    decreases texts.len(),
{
    let items = text_items(texts);
    if texts.len() > 0 {
        texts_are_read(texts.drop_last());
        assert(items.drop_last() =~= text_items(texts.drop_last()));
        assert(texts.drop_last().push(texts.last()) =~= texts);
    } else {
        assert(items =~= Seq::empty());
        assert(texts =~= Seq::empty());
    }
}

/// A number that was written decodes where it is small enough, and reads as
/// itself.
pub proof fn numbers_decode(n: nat, max: u64)
    requires
        n <= max,
    ensures
        decoded(JsonView::Number(decimal(n)), Shape::Number(max)) == Some(
            JsonView::Number(decimal(n)),
        ),
        n <= u32::MAX ==> JsonView::Number(decimal(n)).number_u32() == Some(n as u32),
        n <= u64::MAX ==> JsonView::Number(decimal(n)).number_u64() == Some(n as u64),
{
    decimal_reads_back(n);
}

} // verus!
