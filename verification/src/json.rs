//! JSON documents as values: what the JSON readers take and the JSON writers
//! give back.
//!
//! A reader states the structure it accepts as a [`Shape`]; [`decode`] holds a
//! document to it and brings it into canonical form, in which every declared
//! field is there exactly once.

use vstd::prelude::*;

use crate::error::{Error, ErrorView};
use crate::text::{all_digits, decimal, digits_value, number, only_digits, owned, parse_up_to, same};
use crate::value::{append_one, empty_list, filter_map_list, filter_mapped, map_list};

verus! {

/// A JSON value. Objects keep their members in order, repeated keys included.
/// A number is its literal.
#[derive(Debug, PartialEq, Eq)]
pub enum Json {
    Null,
    Bool(bool),
    Number(String),
    Text(String),
    Array(Vec<Json>),
    Object(Vec<(String, Json)>),
}

/// The content of a [`Json`].
pub enum JsonView {
    Null,
    Bool(bool),
    Number(Seq<char>),
    Text(Seq<char>),
    Array(Seq<JsonView>),
    Object(Seq<(Seq<char>, JsonView)>),
}

pub open spec fn json_view(json: Json) -> JsonView
    decreases json,
{
    match json {
        Json::Null => JsonView::Null,
        Json::Bool(b) => JsonView::Bool(b),
        Json::Number(n) => JsonView::Number(n@),
        Json::Text(s) => JsonView::Text(s@),
        Json::Array(items) => JsonView::Array(
            Seq::new(
                items@.len(),
                |i: int|
                    if 0 <= i < items@.len() {
                        json_view(items@[i])
                    } else {
                        JsonView::Null
                    },
            ),
        ),
        Json::Object(members) => JsonView::Object(
            Seq::new(
                members@.len(),
                |i: int|
                    if 0 <= i < members@.len() {
                        (members@[i].0@, json_view(members@[i].1))
                    } else {
                        (Seq::empty(), JsonView::Null)
                    },
            ),
        ),
    }
}

impl DeepView for Json {
    type V = JsonView;

    open spec fn deep_view(&self) -> JsonView {
        json_view(*self)
    }
}

pub proof fn array_view(items: Vec<Json>)
    ensures
        Json::Array(items).deep_view() == JsonView::Array(items.deep_view()),
{
    let whole = Json::Array(items);
    assert(whole.deep_view()->Array_0 =~= items.deep_view());
}

pub proof fn object_view(members: Vec<(String, Json)>)
    ensures
        Json::Object(members).deep_view() == JsonView::Object(members.deep_view()),
{
    let whole = Json::Object(members);
    assert(whole.deep_view()->Object_0 =~= members.deep_view());
}

// ---------------------------------------------------------------------------
// Access
// ---------------------------------------------------------------------------

/// The position of the first member named `key`, or the length.
pub open spec fn member_at(members: Seq<(Seq<char>, JsonView)>, key: Seq<char>) -> int
    decreases members.len(),
{
    if members.len() == 0 || members[0].0 == key {
        0
    } else {
        1 + member_at(members.skip(1), key)
    }
}

pub proof fn member_at_props(members: Seq<(Seq<char>, JsonView)>, key: Seq<char>)
    ensures
        0 <= member_at(members, key) <= members.len(),
    decreases members.len(),
{
    if members.len() > 0 && members[0].0 != key {
        member_at_props(members.skip(1), key);
    }
}

impl JsonView {
    /// The member named `key`; null without one.
    pub open spec fn get(self, key: Seq<char>) -> JsonView {
        match self {
            JsonView::Object(members) => if member_at(members, key) < members.len() {
                members[member_at(members, key)].1
            } else {
                JsonView::Null
            },
            _ => JsonView::Null,
        }
    }

    pub open spec fn text(self) -> Option<Seq<char>> {
        match self {
            JsonView::Text(s) => Some(s),
            _ => None,
        }
    }

    pub open spec fn items(self) -> Seq<JsonView> {
        match self {
            JsonView::Array(items) => items,
            _ => Seq::empty(),
        }
    }

    pub open spec fn members(self) -> Seq<(Seq<char>, JsonView)> {
        match self {
            JsonView::Object(members) => members,
            _ => Seq::empty(),
        }
    }

    /// An unsigned number up to `max`.
    pub open spec fn unsigned(self, max: nat) -> Option<nat> {
        match self {
            JsonView::Number(n) => if n.len() > 0 && all_digits(n) && digits_value(n) <= max {
                Some(digits_value(n))
            } else {
                None
            },
            _ => None,
        }
    }

    pub open spec fn number_u32(self) -> Option<u32> {
        match self.unsigned(u32::MAX as nat) {
            Some(n) => Some(n as u32),
            None => None,
        }
    }

    pub open spec fn number_u64(self) -> Option<u64> {
        match self.unsigned(u64::MAX as nat) {
            Some(n) => Some(n as u64),
            None => None,
        }
    }

    pub open spec fn flag(self) -> Option<bool> {
        match self {
            JsonView::Bool(b) => Some(b),
            _ => None,
        }
    }

    /// The literal of a number.
    pub open spec fn literal(self) -> Option<Seq<char>> {
        match self {
            JsonView::Number(n) => Some(n),
            _ => None,
        }
    }

    /// The texts of an array, other items left out.
    pub open spec fn texts(self) -> Seq<Seq<char>> {
        texts_of(self.items())
    }
}

pub open spec fn texts_of(items: Seq<JsonView>) -> Seq<Seq<char>>
    decreases items.len(),
{
    if items.len() == 0 {
        Seq::empty()
    } else {
        match items.last() {
            JsonView::Text(s) => texts_of(items.drop_last()).push(s),
            _ => texts_of(items.drop_last()),
        }
    }
}

impl Json {
    /// The member named `key`; null without one.
    pub fn get(&self, key: &str) -> (r: &Json)
        ensures
            r.deep_view() == self.deep_view().get(key@),
    {
        match self {
            Json::Object(members) => {
                proof {
                    object_view(*members);
                }
                let ghost all = members.deep_view();
                let mut at: usize = 0;
                assert(all.skip(0) =~= all);
                while at < members.len() && !same(members[at].0.as_str(), key)
                    invariant
                        at <= members@.len(),
                        all == members.deep_view(),
                        member_at(all, key@) == at + member_at(all.skip(at as int), key@),
                    decreases members@.len() - at,
                {
                    assert(all.skip(at as int)[0] == all[at as int]);
                    assert(all.skip(at as int).skip(1) =~= all.skip(at as int + 1));
                    at = at + 1;
                }
                if at < members.len() {
                    assert(all.skip(at as int)[0] == all[at as int]);
                    &members[at].1
                } else {
                    &Json::Null
                }
            },
            _ => &Json::Null,
        }
    }

    pub fn text(&self) -> (r: Option<String>)
        ensures
            r.deep_view() == self.deep_view().text(),
    {
        match self {
            Json::Text(s) => Some(s.clone()),
            _ => None,
        }
    }

    pub fn flag(&self) -> (r: Option<bool>)
        ensures
            r == self.deep_view().flag(),
    {
        match self {
            Json::Bool(b) => Some(*b),
            _ => None,
        }
    }

    pub fn literal(&self) -> (r: Option<String>)
        ensures
            r.deep_view() == self.deep_view().literal(),
    {
        match self {
            Json::Number(n) => Some(n.clone()),
            _ => None,
        }
    }

    pub fn is_null(&self) -> (r: bool)
        ensures
            r == (self.deep_view() is Null),
    {
        match self {
            Json::Null => true,
            _ => false,
        }
    }

    /// The number of items of an array; 0 for anything else.
    pub fn count(&self) -> (r: usize)
        ensures
            r == self.deep_view().items().len(),
    {
        match self {
            Json::Array(items) => {
                proof {
                    array_view(*items);
                }
                items.len()
            },
            _ => 0,
        }
    }

    pub fn item(&self, i: usize) -> (r: &Json)
        requires
            i < self.deep_view().items().len(),
        ensures
            r.deep_view() == self.deep_view().items()[i as int],
    {
        match self {
            Json::Array(items) => {
                proof {
                    array_view(*items);
                }
                &items[i]
            },
            _ => &Json::Null,
        }
    }

    /// The number of members of an object; 0 for anything else.
    pub fn member_count(&self) -> (r: usize)
        ensures
            r == self.deep_view().members().len(),
    {
        match self {
            Json::Object(members) => {
                proof {
                    object_view(*members);
                }
                members.len()
            },
            _ => 0,
        }
    }

    pub fn member_key(&self, i: usize) -> (r: String)
        requires
            i < self.deep_view().members().len(),
        ensures
            r@ == self.deep_view().members()[i as int].0,
    {
        match self {
            Json::Object(members) => {
                proof {
                    object_view(*members);
                }
                members[i].0.clone()
            },
            _ => String::new(),
        }
    }

    pub fn member_value(&self, i: usize) -> (r: &Json)
        requires
            i < self.deep_view().members().len(),
        ensures
            r.deep_view() == self.deep_view().members()[i as int].1,
    {
        match self {
            Json::Object(members) => {
                proof {
                    object_view(*members);
                }
                &members[i].1
            },
            _ => &Json::Null,
        }
    }

    fn unsigned(&self, max: u64) -> (r: Option<u64>)
        ensures
            match r {
                Some(v) => self.deep_view().unsigned(max as nat) == Some(v as nat),
                None => self.deep_view().unsigned(max as nat) is None,
            },
    {
        match self {
            Json::Number(n) => {
                if n.as_str().is_empty() || !only_digits(n.as_str()) {
                    return None;
                }
                assert(crate::text::is_digit(n@[0]));
                parse_up_to(n.as_str(), max)
            },
            _ => None,
        }
    }

    pub fn number_u32(&self) -> (r: Option<u32>)
        ensures
            r == self.deep_view().number_u32(),
    {
        match self.unsigned(u32::MAX as u64) {
            Some(v) => Some(v as u32),
            None => None,
        }
    }

    pub fn number_u64(&self) -> (r: Option<u64>)
        ensures
            r == self.deep_view().number_u64(),
    {
        self.unsigned(u64::MAX)
    }

    pub fn texts(&self) -> (r: Vec<String>)
        ensures
            r.deep_view() == self.deep_view().texts(),
    {
        let ghost all = self.deep_view().items();
        let mut out: Vec<String> = empty_list();
        let mut i: usize = 0;
        assert(all.take(0) =~= Seq::empty());
        while i < self.count()
            invariant
                i <= all.len(),
                all == self.deep_view().items(),
                out.deep_view() == texts_of(all.take(i as int)),
            decreases all.len() - i,
        {
            assert(all.take(i as int + 1).drop_last() =~= all.take(i as int));
            if let Some(s) = self.item(i).text() {
                append_one(&mut out, s);
            }
            i = i + 1;
        }
        assert(all.take(i as int) =~= all);
        out
    }
}

// ---------------------------------------------------------------------------
// Shapes
// ---------------------------------------------------------------------------

/// The structure a reader accepts.
pub enum Shape {
    /// Free form; of a repeated key the last value counts, at any depth.
    Any,
    /// What is held to a shape of its own later.
    Raw,
    Text,
    Flag,
    /// An unsigned integer up to a maximum.
    Number(u64),
    /// Any number.
    Real,
    List(Box<Shape>),
    /// An object whose keys are data; of a repeated key the last value counts.
    Dict(Box<Shape>),
    /// Null, or the shape.
    Maybe(Box<Shape>),
    /// An object with these fields. Others are ignored, absent ones have their
    /// default, repeated ones are refused. An array gives the fields by position.
    Record(Fields),
}

/// The fields of a record.
pub enum Fields {
    End,
    Field { name: &'static str, shape: Box<Shape>, rest: Box<Fields> },
}

pub open spec fn default_of(shape: Shape) -> JsonView
    decreases shape,
{
    match shape {
        Shape::Any => JsonView::Null,
        Shape::Raw => JsonView::Null,
        Shape::Text => JsonView::Text(Seq::empty()),
        Shape::Flag => JsonView::Bool(false),
        Shape::Number(_) => JsonView::Number(decimal(0)),
        Shape::Real => JsonView::Number(decimal(0)),
        Shape::List(_) => JsonView::Array(Seq::empty()),
        Shape::Dict(_) => JsonView::Object(Seq::empty()),
        Shape::Maybe(_) => JsonView::Null,
        Shape::Record(fields) => JsonView::Object(default_fields(fields)),
    }
}

pub open spec fn default_fields(fields: Fields) -> Seq<(Seq<char>, JsonView)>
    decreases fields,
{
    match fields {
        Fields::End => Seq::empty(),
        Fields::Field { name, shape, rest } => seq![(name@, default_of(*shape))] + default_fields(
            *rest,
        ),
    }
}

/// How often a key occurs.
pub open spec fn occurrences(members: Seq<(Seq<char>, JsonView)>, key: Seq<char>) -> nat
    decreases members.len(),
{
    if members.len() == 0 {
        0
    } else {
        occurrences(members.drop_last(), key) + if members.last().0 == key {
            1nat
        } else {
            0nat
        }
    }
}

/// The members with one more: it replaces the value of that key, or comes last.
pub open spec fn put_member(
    members: Seq<(Seq<char>, JsonView)>,
    key: Seq<char>,
    value: JsonView,
) -> Seq<(Seq<char>, JsonView)> {
    let at = member_at(members, key);
    if at < members.len() {
        members.update(at, (key, value))
    } else {
        members.push((key, value))
    }
}

/// The value with every key once in each of its objects: the first place of the
/// key, with its last value.
pub open spec fn settled(json: JsonView) -> JsonView
    decreases json, 0nat,
{
    match json {
        JsonView::Array(items) => JsonView::Array(settled_items(items, items.len())),
        JsonView::Object(list) => JsonView::Object(settled_members(list, list.len())),
        _ => json,
    }
}

/// The first `n` items, settled.
pub open spec fn settled_items(items: Seq<JsonView>, n: nat) -> Seq<JsonView>
    decreases items, n,
{
    if n == 0 || n > items.len() {
        Seq::empty()
    } else {
        settled_items(items, (n - 1) as nat).push(settled(items[n - 1]))
    }
}

/// The first `n` members, settled.
pub open spec fn settled_members(list: Seq<(Seq<char>, JsonView)>, n: nat) -> Seq<
    (Seq<char>, JsonView),
>
    decreases list, n,
{
    if n == 0 || n > list.len() {
        Seq::empty()
    } else {
        put_member(
            settled_members(list, (n - 1) as nat),
            list[n - 1].0,
            settled(list[n - 1].1),
        )
    }
}

/// The canonical form of a value of this shape; none for any other value.
pub open spec fn decoded(json: JsonView, shape: Shape) -> Option<JsonView>
    decreases shape, 0nat, 0nat,
{
    match shape {
        Shape::Any => Some(settled(json)),
        Shape::Raw => Some(json),
        Shape::Text => if json is Text {
            Some(json)
        } else {
            None
        },
        Shape::Flag => if json is Bool {
            Some(json)
        } else {
            None
        },
        Shape::Number(max) => if json.unsigned(max as nat) is Some {
            Some(json)
        } else {
            None
        },
        Shape::Real => if json is Number {
            Some(json)
        } else {
            None
        },
        Shape::Maybe(inner) => if json is Null {
            Some(json)
        } else {
            decoded(json, *inner)
        },
        Shape::List(inner) => match json {
            JsonView::Array(items) => match decoded_items(items, *inner) {
                Some(list) => Some(JsonView::Array(list)),
                None => None,
            },
            _ => None,
        },
        Shape::Dict(inner) => match json {
            JsonView::Object(members) => match decoded_members(members, *inner) {
                Some(list) => Some(JsonView::Object(list)),
                None => None,
            },
            _ => None,
        },
        Shape::Record(fields) => match json {
            JsonView::Object(members) => match decoded_fields(members, fields) {
                Some(list) => Some(JsonView::Object(list)),
                None => None,
            },
            JsonView::Array(items) => match decoded_positions(items, fields) {
                Some(list) => Some(JsonView::Object(list)),
                None => None,
            },
            _ => None,
        },
    }
}

pub open spec fn decoded_items(items: Seq<JsonView>, shape: Shape) -> Option<Seq<JsonView>>
    decreases shape, 1nat, items.len(),
{
    if items.len() == 0 {
        Some(Seq::empty())
    } else {
        match (decoded_items(items.drop_last(), shape), decoded(items.last(), shape)) {
            (Some(head), Some(item)) => Some(head.push(item)),
            _ => None,
        }
    }
}

pub open spec fn decoded_members(
    members: Seq<(Seq<char>, JsonView)>,
    shape: Shape,
) -> Option<Seq<(Seq<char>, JsonView)>>
    decreases shape, 1nat, members.len(),
{
    if members.len() == 0 {
        Some(Seq::empty())
    } else {
        match (decoded_members(members.drop_last(), shape), decoded(members.last().1, shape)) {
            (Some(head), Some(value)) => Some(put_member(head, members.last().0, value)),
            _ => None,
        }
    }
}

pub open spec fn decoded_fields(
    members: Seq<(Seq<char>, JsonView)>,
    fields: Fields,
) -> Option<Seq<(Seq<char>, JsonView)>>
    decreases fields, 0nat, 0nat,
{
    match fields {
        Fields::End => Some(Seq::empty()),
        Fields::Field { name, shape, rest } => {
            let value = if occurrences(members, name@) == 0 {
                Some(default_of(*shape))
            } else if occurrences(members, name@) == 1 {
                decoded(JsonView::Object(members).get(name@), *shape)
            } else {
                None
            };
            match (value, decoded_fields(members, *rest)) {
                (Some(v), Some(list)) => Some(seq![(name@, v)] + list),
                _ => None,
            }
        },
    }
}

pub open spec fn decoded_positions(
    items: Seq<JsonView>,
    fields: Fields,
) -> Option<Seq<(Seq<char>, JsonView)>>
    decreases fields, 0nat, 0nat,
{
    match fields {
        Fields::End => if items.len() == 0 {
            Some(Seq::empty())
        } else {
            None
        },
        Fields::Field { name, shape, rest } => {
            let value = if items.len() == 0 {
                Some(default_of(*shape))
            } else {
                decoded(items[0], *shape)
            };
            let tail = if items.len() == 0 {
                items
            } else {
                items.skip(1)
            };
            match (value, decoded_positions(tail, *rest)) {
                (Some(v), Some(list)) => Some(seq![(name@, v)] + list),
                _ => None,
            }
        },
    }
}

pub fn null() -> (r: Json)
    ensures
        r.deep_view() == JsonView::Null,
{
    Json::Null
}

impl Json {
    /// A copy.
    pub fn duplicate(&self) -> (r: Json)
        ensures
            r.deep_view() == self.deep_view(),
        decreases self,
    {
        match self {
            Json::Null => Json::Null,
            Json::Bool(b) => Json::Bool(*b),
            Json::Number(n) => Json::Number(n.clone()),
            Json::Text(s) => Json::Text(s.clone()),
            Json::Array(items) => {
                let mut out: Vec<Json> = empty_list();
                let mut i: usize = 0;
                while i < items.len()
                    invariant
                        i <= items@.len(),
                        *self == Json::Array(*items),
                        out.deep_view() == items.deep_view().take(i as int),
                    decreases items@.len() - i,
                {
                    proof {
                        assert(decreases_to!(self => self->Array_0));
                        assert(decreases_to!(*items => items[i as int]));
                    }
                    append_one(&mut out, items[i].duplicate());
                    i = i + 1;
                    assert(out.deep_view() =~= items.deep_view().take(i as int));
                }
                proof {
                    assert(out.deep_view() =~= items.deep_view());
                    array_view(*items);
                    array_view(out);
                }
                Json::Array(out)
            },
            Json::Object(members) => {
                let mut out: Vec<(String, Json)> = empty_list();
                let mut i: usize = 0;
                while i < members.len()
                    invariant
                        i <= members@.len(),
                        *self == Json::Object(*members),
                        out.deep_view() == members.deep_view().take(i as int),
                    decreases members@.len() - i,
                {
                    proof {
                        assert(decreases_to!(self => self->Object_0));
                        assert(decreases_to!(*members => members[i as int]));
                        assert(decreases_to!(members[i as int] => members[i as int].1));
                    }
                    append_one(&mut out, (members[i].0.clone(), members[i].1.duplicate()));
                    i = i + 1;
                    assert(out.deep_view() =~= members.deep_view().take(i as int));
                }
                proof {
                    assert(out.deep_view() =~= members.deep_view());
                    object_view(*members);
                    object_view(out);
                }
                Json::Object(out)
            },
        }
    }
}

impl Json {
    /// Whether two values are the same, member by member and in this order.
    pub fn alike(&self, other: &Json) -> (r: bool)
        ensures
            r == (self.deep_view() == other.deep_view()),
        decreases self,
    {
        match (self, other) {
            (Json::Null, Json::Null) => true,
            (Json::Bool(a), Json::Bool(b)) => *a == *b,
            (Json::Number(a), Json::Number(b)) => same(a.as_str(), b.as_str()),
            (Json::Text(a), Json::Text(b)) => same(a.as_str(), b.as_str()),
            (Json::Array(a), Json::Array(b)) => {
                proof {
                    array_view(*a);
                    array_view(*b);
                }
                if a.len() != b.len() {
                    assert(a.deep_view().len() != b.deep_view().len());
                    return false;
                }
                let mut i: usize = 0;
                while i < a.len()
                    invariant
                        i <= a@.len(),
                        a@.len() == b@.len(),
                        *self == Json::Array(*a),
                        self.deep_view() == JsonView::Array(a.deep_view()),
                        other.deep_view() == JsonView::Array(b.deep_view()),
                        a.deep_view().take(i as int) == b.deep_view().take(i as int),
                    decreases a@.len() - i,
                {
                    let ghost x = a.deep_view();
                    let ghost y = b.deep_view();
                    proof {
                        assert(decreases_to!(self => self->Array_0));
                        assert(decreases_to!(*a => a[i as int]));
                    }
                    if !a[i].alike(&b[i]) {
                        assert(x[i as int] != y[i as int]);
                        return false;
                    }
                    i = i + 1;
                    assert(x.take(i as int) =~= x.take(i - 1).push(x[i - 1]));
                    assert(y.take(i as int) =~= y.take(i - 1).push(y[i - 1]));
                }
                assert(a.deep_view().take(i as int) =~= a.deep_view());
                assert(b.deep_view().take(i as int) =~= b.deep_view());
                true
            },
            (Json::Object(a), Json::Object(b)) => {
                proof {
                    object_view(*a);
                    object_view(*b);
                }
                if a.len() != b.len() {
                    assert(a.deep_view().len() != b.deep_view().len());
                    return false;
                }
                let mut i: usize = 0;
                while i < a.len()
                    invariant
                        i <= a@.len(),
                        a@.len() == b@.len(),
                        *self == Json::Object(*a),
                        self.deep_view() == JsonView::Object(a.deep_view()),
                        other.deep_view() == JsonView::Object(b.deep_view()),
                        a.deep_view().take(i as int) == b.deep_view().take(i as int),
                    decreases a@.len() - i,
                {
                    let ghost x = a.deep_view();
                    let ghost y = b.deep_view();
                    proof {
                        assert(decreases_to!(self => self->Object_0));
                        assert(decreases_to!(*a => a[i as int]));
                        assert(decreases_to!(a[i as int] => a[i as int].1));
                    }
                    if !same(a[i].0.as_str(), b[i].0.as_str()) || !a[i].1.alike(&b[i].1) {
                        assert(x[i as int] != y[i as int]);
                        return false;
                    }
                    i = i + 1;
                    assert(x.take(i as int) =~= x.take(i - 1).push(x[i - 1]));
                    assert(y.take(i as int) =~= y.take(i - 1).push(y[i - 1]));
                }
                assert(a.deep_view().take(i as int) =~= a.deep_view());
                assert(b.deep_view().take(i as int) =~= b.deep_view());
                true
            },
            _ => false,
        }
    }
}

fn default_value(shape: &Shape) -> (r: Json)
    ensures
        r.deep_view() == default_of(*shape),
    decreases shape,
{
    match shape {
        Shape::Any => Json::Null,
        Shape::Raw => Json::Null,
        Shape::Text => Json::Text(String::new()),
        Shape::Flag => Json::Bool(false),
        Shape::Number(_) => Json::Number(number(0)),
        Shape::Real => Json::Number(number(0)),
        Shape::List(_) => {
            let list: Vec<Json> = empty_list();
            proof {
                array_view(list);
            }
            Json::Array(list)
        },
        Shape::Dict(_) => {
            let list: Vec<(String, Json)> = empty_list();
            proof {
                object_view(list);
            }
            Json::Object(list)
        },
        Shape::Maybe(_) => Json::Null,
        Shape::Record(fields) => {
            let mut list: Vec<(String, Json)> = empty_list();
            default_list(fields, &mut list);
            proof {
                object_view(list);
                assert(Seq::<(Seq<char>, JsonView)>::empty() + default_fields(*fields)
                    =~= default_fields(*fields));
            }
            Json::Object(list)
        },
    }
}

fn default_list(fields: &Fields, list: &mut Vec<(String, Json)>)
    ensures
        final(list).deep_view() == old(list).deep_view() + default_fields(*fields),
    decreases fields,
{
    match fields {
        Fields::End => {
            assert(list.deep_view() =~= old(list).deep_view() + default_fields(*fields));
        },
        Fields::Field { name, shape, rest } => {
            let value = default_value(shape);
            append_one(list, (owned(*name), value));
            default_list(rest, list);
            assert(list.deep_view() =~= old(list).deep_view() + default_fields(*fields));
        },
    }
}

fn count_key(members: &Vec<(String, Json)>, key: &str) -> (r: usize)
    ensures
        r == occurrences(members.deep_view(), key@),
{
    let ghost all = members.deep_view();
    let mut n: usize = 0;
    let mut i: usize = 0;
    assert(all.take(0) =~= Seq::empty());
    while i < members.len()
        invariant
            i <= members@.len(),
            all == members.deep_view(),
            n <= i,
            n == occurrences(all.take(i as int), key@),
        decreases members@.len() - i,
    {
        assert(all.take(i as int + 1).drop_last() =~= all.take(i as int));
        if same(members[i].0.as_str(), key) {
            n = n + 1;
        }
        i = i + 1;
    }
    assert(all.take(i as int) =~= all);
    n
}

fn put(members: &mut Vec<(String, Json)>, key: &str, value: Json)
    ensures
        final(members).deep_view() == put_member(
            old(members).deep_view(),
            key@,
            value.deep_view(),
        ),
{
    let ghost all = members.deep_view();
    let mut at: usize = 0;
    assert(all.skip(0) =~= all);
    while at < members.len() && !same(members[at].0.as_str(), key)
        invariant
            at <= members@.len(),
            all == members.deep_view(),
            member_at(all, key@) == at + member_at(all.skip(at as int), key@),
        decreases members@.len() - at,
    {
        assert(all.skip(at as int)[0] == all[at as int]);
        assert(all.skip(at as int).skip(1) =~= all.skip(at as int + 1));
        at = at + 1;
    }
    if at < members.len() {
        assert(all.skip(at as int)[0] == all[at as int]);
        crate::value::replace_at(members, at, (owned(key), value));
    } else {
        append_one(members, (owned(key), value));
    }
}

fn settle(json: &Json) -> (r: Json)
    ensures
        r.deep_view() == settled(json.deep_view()),
    decreases json,
{
    match json {
        Json::Array(items) => {
            proof {
                array_view(*items);
            }
            let ghost all = items.deep_view();
            let mut out: Vec<Json> = empty_list();
            let mut i: usize = 0;
            while i < items.len()
                invariant
                    i <= items@.len(),
                    all == items.deep_view(),
                    *json == Json::Array(*items),
                    out.deep_view() == settled_items(all, i as nat),
                decreases items@.len() - i,
            {
                proof {
                    assert(decreases_to!(json => json->Array_0));
                    assert(decreases_to!(*items => items[i as int]));
                }
                append_one(&mut out, settle(&items[i]));
                i = i + 1;
            }
            proof {
                array_view(out);
            }
            Json::Array(out)
        },
        Json::Object(members) => {
            proof {
                object_view(*members);
            }
            let ghost all = members.deep_view();
            let mut out: Vec<(String, Json)> = empty_list();
            let mut i: usize = 0;
            while i < members.len()
                invariant
                    i <= members@.len(),
                    all == members.deep_view(),
                    *json == Json::Object(*members),
                    out.deep_view() == settled_members(all, i as nat),
                decreases members@.len() - i,
            {
                proof {
                    assert(decreases_to!(json => json->Object_0));
                    assert(decreases_to!(*members => members[i as int]));
                    assert(decreases_to!(members[i as int] => members[i as int].1));
                }
                let value = settle(&members[i].1);
                put(&mut out, members[i].0.as_str(), value);
                i = i + 1;
            }
            proof {
                object_view(out);
            }
            Json::Object(out)
        },
        _ => json.duplicate(),
    }
}

/// Holds a document to a shape and brings it into canonical form.
pub fn decode(json: &Json, shape: &Shape) -> (r: Option<Json>)
    ensures
        r.deep_view() == decoded(json.deep_view(), *shape),
    decreases shape, 0nat, 0nat,
{
    match shape {
        Shape::Any => Some(settle(json)),
        Shape::Raw => Some(json.duplicate()),
        Shape::Text => match json {
            Json::Text(_) => Some(json.duplicate()),
            _ => None,
        },
        Shape::Flag => match json {
            Json::Bool(_) => Some(json.duplicate()),
            _ => None,
        },
        Shape::Number(max) => match json.unsigned(*max) {
            Some(_) => Some(json.duplicate()),
            None => None,
        },
        Shape::Real => match json {
            Json::Number(_) => Some(json.duplicate()),
            _ => None,
        },
        Shape::Maybe(inner) => match json {
            Json::Null => Some(Json::Null),
            _ => decode(json, inner),
        },
        Shape::List(inner) => match json {
            Json::Array(items) => {
                proof {
                    array_view(*items);
                }
                let ghost all = items.deep_view();
                let mut out: Vec<Json> = empty_list();
                let mut i: usize = 0;
                assert(all.take(0) =~= Seq::empty());
                while i < items.len()
                    invariant
                        i <= items@.len(),
                        all == items.deep_view(),
                        *shape == Shape::List(*inner),
                        json.deep_view() == JsonView::Array(all),
                        decoded_items(all.take(i as int), **inner) == Some(out.deep_view()),
                    decreases items@.len() - i,
                {
                    assert(all.take(i as int + 1).drop_last() =~= all.take(i as int));
                    match decode(&items[i], inner) {
                        Some(item) => append_one(&mut out, item),
                        None => {
                            proof {
                                refused_item(all, i as int, **inner);
                            }
                            return None;
                        },
                    }
                    i = i + 1;
                }
                proof {
                    assert(all.take(i as int) =~= all);
                    array_view(out);
                }
                Some(Json::Array(out))
            },
            _ => None,
        },
        Shape::Dict(inner) => match json {
            Json::Object(members) => {
                proof {
                    object_view(*members);
                }
                let ghost all = members.deep_view();
                let mut out: Vec<(String, Json)> = empty_list();
                let mut i: usize = 0;
                assert(all.take(0) =~= Seq::empty());
                while i < members.len()
                    invariant
                        i <= members@.len(),
                        all == members.deep_view(),
                        *shape == Shape::Dict(*inner),
                        json.deep_view() == JsonView::Object(all),
                        decoded_members(all.take(i as int), **inner) == Some(out.deep_view()),
                    decreases members@.len() - i,
                {
                    assert(all.take(i as int + 1).drop_last() =~= all.take(i as int));
                    match decode(&members[i].1, inner) {
                        Some(value) => put(&mut out, members[i].0.as_str(), value),
                        None => {
                            proof {
                                refused_member(all, i as int, **inner);
                            }
                            return None;
                        },
                    }
                    i = i + 1;
                }
                proof {
                    assert(all.take(i as int) =~= all);
                    object_view(out);
                }
                Some(Json::Object(out))
            },
            _ => None,
        },
        Shape::Record(fields) => {
            let mut out: Vec<(String, Json)> = empty_list();
            let ok = match json {
                Json::Object(members) => {
                    proof {
                        object_view(*members);
                    }
                    decode_fields(members, json, fields, &mut out)
                },
                Json::Array(items) => {
                    proof {
                        array_view(*items);
                        assert(items.deep_view().skip(0) =~= items.deep_view());
                    }
                    decode_positions(items, 0, fields, &mut out)
                },
                _ => {
                    return None;
                },
            };
            if ok {
                proof {
                    object_view(out);
                    match json.deep_view() {
                        JsonView::Object(members) => {
                            assert(out.deep_view() =~= decoded_fields(members, *fields)->0);
                        },
                        JsonView::Array(items) => {
                            assert(out.deep_view() =~= decoded_positions(items, *fields)->0);
                        },
                        _ => {},
                    }
                }
                Some(Json::Object(out))
            } else {
                None
            }
        },
    }
}

proof fn refused_item(items: Seq<JsonView>, i: int, shape: Shape)
    requires
        0 <= i < items.len(),
        decoded(items[i], shape) is None,
    ensures
        decoded_items(items, shape) is None,
    decreases items.len(),
{
    if i < items.len() - 1 {
        assert(items.drop_last()[i] == items[i]);
        refused_item(items.drop_last(), i, shape);
    }
}

proof fn refused_member(members: Seq<(Seq<char>, JsonView)>, i: int, shape: Shape)
    requires
        0 <= i < members.len(),
        decoded(members[i].1, shape) is None,
    ensures
        decoded_members(members, shape) is None,
    decreases members.len(),
{
    if i < members.len() - 1 {
        assert(members.drop_last()[i] == members[i]);
        refused_member(members.drop_last(), i, shape);
    }
}

fn decode_fields(
    members: &Vec<(String, Json)>,
    json: &Json,
    fields: &Fields,
    out: &mut Vec<(String, Json)>,
) -> (r: bool)
    requires
        json.deep_view() == JsonView::Object(members.deep_view()),
    ensures
        r == (decoded_fields(members.deep_view(), *fields) is Some),
        r ==> final(out).deep_view() == old(out).deep_view() + decoded_fields(
            members.deep_view(),
            *fields,
        )->0,
    decreases fields, 0nat, 0nat,
{
    match fields {
        Fields::End => {
            assert(out.deep_view() =~= old(out).deep_view() + Seq::empty());
            true
        },
        Fields::Field { name, shape, rest } => {
            let n = count_key(members, *name);
            let value = if n == 0 {
                default_value(shape)
            } else if n == 1 {
                match decode(json.get(*name), shape) {
                    Some(v) => v,
                    None => {
                        return false;
                    },
                }
            } else {
                return false;
            };
            append_one(out, (owned(*name), value));
            let ok = decode_fields(members, json, rest, out);
            proof {
                if ok {
                    assert(out.deep_view() =~= old(out).deep_view() + decoded_fields(
                        members.deep_view(),
                        *fields,
                    )->0);
                }
            }
            ok
        },
    }
}

fn decode_positions(
    items: &Vec<Json>,
    from: usize,
    fields: &Fields,
    out: &mut Vec<(String, Json)>,
) -> (r: bool)
    requires
        from <= items@.len(),
    ensures
        r == (decoded_positions(items.deep_view().skip(from as int), *fields) is Some),
        r ==> final(out).deep_view() == old(out).deep_view() + decoded_positions(
            items.deep_view().skip(from as int),
            *fields,
        )->0,
    decreases fields, 0nat, 0nat,
{
    let ghost left = items.deep_view().skip(from as int);
    match fields {
        Fields::End => {
            assert(out.deep_view() =~= old(out).deep_view() + Seq::empty());
            from == items.len()
        },
        Fields::Field { name, shape, rest } => {
            let mut next: usize = from;
            let value = if from == items.len() {
                default_value(shape)
            } else {
                next = from + 1;
                assert(left.skip(1) =~= items.deep_view().skip(next as int));
                match decode(&items[from], shape) {
                    Some(v) => v,
                    None => {
                        return false;
                    },
                }
            };
            append_one(out, (owned(*name), value));
            let ok = decode_positions(items, next, rest, out);
            proof {
                if ok {
                    assert(out.deep_view() =~= old(out).deep_view() + decoded_positions(
                        left,
                        *fields,
                    )->0);
                }
            }
            ok
        },
    }
}

// ---------------------------------------------------------------------------
// Building
// ---------------------------------------------------------------------------

/// The members of an object under construction.
pub struct MembersView {
    pub list: Seq<(Seq<char>, JsonView)>,
}

pub open spec fn members() -> MembersView {
    MembersView { list: Seq::empty() }
}

impl MembersView {
    pub open spec fn value(self, key: Seq<char>, value: JsonView) -> MembersView {
        MembersView { list: self.list.push((key, value)) }
    }

    pub open spec fn opt_value(self, key: Seq<char>, value: Option<JsonView>) -> MembersView {
        match value {
            Some(v) => self.value(key, v),
            None => self,
        }
    }

    pub open spec fn text(self, key: Seq<char>, value: Seq<char>) -> MembersView {
        self.value(key, JsonView::Text(value))
    }

    /// The member, where there is a value.
    pub open spec fn opt_text(self, key: Seq<char>, value: Option<Seq<char>>) -> MembersView {
        match value {
            Some(v) => self.text(key, v),
            None => self,
        }
    }

    pub open spec fn number(self, key: Seq<char>, value: nat) -> MembersView {
        self.value(key, JsonView::Number(decimal(value)))
    }

    pub open spec fn opt_number(self, key: Seq<char>, value: Option<u32>) -> MembersView {
        match value {
            Some(v) => self.number(key, v as nat),
            None => self,
        }
    }

    pub open spec fn flag(self, key: Seq<char>, value: bool) -> MembersView {
        self.value(key, JsonView::Bool(value))
    }

    pub open spec fn list(self, key: Seq<char>, items: Seq<JsonView>) -> MembersView {
        self.value(key, JsonView::Array(items))
    }

    /// The member, unless the list is empty.
    pub open spec fn some_list(self, key: Seq<char>, items: Seq<JsonView>) -> MembersView {
        if items.len() == 0 {
            self
        } else {
            self.list(key, items)
        }
    }

    pub open spec fn done(self) -> JsonView {
        JsonView::Object(self.list)
    }
}

/// The members of an object under construction.
pub struct Members {
    entries: Vec<(String, Json)>,
}

impl View for Members {
    type V = MembersView;

    closed spec fn view(&self) -> MembersView {
        MembersView { list: self.entries.deep_view() }
    }
}

impl Members {
    pub fn new() -> (r: Self)
        ensures
            r@ == members(),
    {
        Members { entries: empty_list() }
    }

    pub fn value(&mut self, key: &str, value: Json)
        ensures
            final(self)@ == old(self)@.value(key@, value.deep_view()),
    {
        append_one(&mut self.entries, (owned(key), value));
    }

    pub fn text(&mut self, key: &str, value: &str)
        ensures
            final(self)@ == old(self)@.text(key@, value@),
    {
        self.value(key, Json::Text(owned(value)));
    }

    pub fn opt_text(&mut self, key: &str, value: &Option<String>)
        ensures
            final(self)@ == old(self)@.opt_text(key@, value.deep_view()),
    {
        if let Some(v) = value {
            self.text(key, v.as_str());
        }
    }

    pub fn number(&mut self, key: &str, value: u64)
        ensures
            final(self)@ == old(self)@.number(key@, value as nat),
    {
        self.value(key, Json::Number(number(value)));
    }

    pub fn opt_number(&mut self, key: &str, value: Option<u32>)
        ensures
            final(self)@ == old(self)@.opt_number(key@, value),
    {
        if let Some(v) = value {
            self.number(key, v as u64);
        }
    }

    pub fn flag(&mut self, key: &str, value: bool)
        ensures
            final(self)@ == old(self)@.flag(key@, value),
    {
        self.value(key, Json::Bool(value));
    }

    pub fn list(&mut self, key: &str, items: Vec<Json>)
        ensures
            final(self)@ == old(self)@.list(key@, items.deep_view()),
    {
        proof {
            array_view(items);
        }
        self.value(key, Json::Array(items));
    }

    pub fn some_list(&mut self, key: &str, items: Vec<Json>)
        ensures
            final(self)@ == old(self)@.some_list(key@, items.deep_view()),
    {
        if items.len() > 0 {
            self.list(key, items);
        }
    }

    pub fn done(self) -> (r: Json)
        ensures
            r.deep_view() == self@.done(),
    {
        proof {
            object_view(self.entries);
        }
        Json::Object(self.entries)
    }
}

/// An array of texts.
pub open spec fn text_items(texts: Seq<Seq<char>>) -> Seq<JsonView> {
    texts.map_values(|t: Seq<char>| JsonView::Text(t))
}

pub fn text_list(texts: &Vec<String>) -> (r: Vec<Json>)
    ensures
        r.deep_view() == text_items(texts.deep_view()),
{
    let ghost goal = text_items(texts.deep_view());
    let mut out: Vec<Json> = empty_list();
    let mut i: usize = 0;
    while i < texts.len()
        invariant
            i <= texts@.len(),
            goal == text_items(texts.deep_view()),
            out.deep_view() == goal.take(i as int),
        decreases texts@.len() - i,
    {
        append_one(&mut out, Json::Text(texts[i].clone()));
        i = i + 1;
        assert(out.deep_view() =~= goal.take(i as int));
    }
    assert(out.deep_view() =~= goal);
    out
}

/// What a JSON writer gives back.
pub open spec fn json_result(r: Result<Json, Error>) -> Result<JsonView, ErrorView> {
    match r {
        Ok(json) => Ok(json.deep_view()),
        Err(e) => Err(e.deep_view()),
    }
}

/// Applies `f`, which computes `g`, to every item of an array.
pub(crate) fn map_items<U: DeepView, F: Fn(&Json) -> U>(
    json: &Json,
    f: F,
    Ghost(g): Ghost<spec_fn(JsonView) -> U::V>,
) -> (r: Vec<U>)
    requires
        forall|x: &Json| call_requires(f, (x,)),
        forall|x: &Json, y: U| #[trigger]
            call_ensures(f, (x,), y) ==> y.deep_view() == g(x.deep_view()),
    ensures
        r.deep_view() == json.deep_view().items().map_values(g),
{
    match json {
        Json::Array(items) => {
            proof {
                array_view(*items);
            }
            map_list(items, f, Ghost(g))
        },
        _ => {
            let r: Vec<U> = empty_list();
            assert(r.deep_view() =~= json.deep_view().items().map_values(g));
            r
        },
    }
}

/// Applies `f`, which computes `g`, to every item of an array and keeps what it
/// gives.
pub(crate) fn filter_map_items<U: DeepView, F: Fn(&Json) -> Option<U>>(
    json: &Json,
    f: F,
    Ghost(g): Ghost<spec_fn(JsonView) -> Option<U::V>>,
) -> (r: Vec<U>)
    requires
        forall|x: &Json| call_requires(f, (x,)),
        forall|x: &Json, y: Option<U>| #[trigger]
            call_ensures(f, (x,), y) ==> y.deep_view() == g(x.deep_view()),
    ensures
        r.deep_view() == filter_mapped(json.deep_view().items(), g),
{
    match json {
        Json::Array(items) => {
            proof {
                array_view(*items);
            }
            filter_map_list(items, f, Ghost(g))
        },
        _ => {
            let r: Vec<U> = empty_list();
            assert(r.deep_view() =~= filter_mapped(json.deep_view().items(), g));
            r
        },
    }
}

// ---------------------------------------------------------------------------
// Stating a shape
// ---------------------------------------------------------------------------

/// One more field of a record.
#[verifier::allow_in_spec]
pub fn field(name: &'static str, shape: Shape, rest: Fields) -> Fields
    returns
        (Fields::Field { name, shape: Box::new(shape), rest: Box::new(rest) }),
{
    Fields::Field { name, shape: Box::new(shape), rest: Box::new(rest) }
}

/// A field that may hold a text.
#[verifier::allow_in_spec]
pub fn text_field(name: &'static str, rest: Fields) -> Fields
    returns
        field(name, maybe(Shape::Text), rest),
{
    field(name, maybe(Shape::Text), rest)
}

/// A field that may hold a number up to `max`.
#[verifier::allow_in_spec]
pub fn number_field(name: &'static str, max: u64, rest: Fields) -> Fields
    returns
        field(name, maybe(Shape::Number(max)), rest),
{
    field(name, maybe(Shape::Number(max)), rest)
}

#[verifier::allow_in_spec]
pub fn maybe(shape: Shape) -> Shape
    returns
        Shape::Maybe(Box::new(shape)),
{
    Shape::Maybe(Box::new(shape))
}

#[verifier::allow_in_spec]
pub fn list_of(shape: Shape) -> Shape
    returns
        Shape::List(Box::new(shape)),
{
    Shape::List(Box::new(shape))
}

#[verifier::allow_in_spec]
pub fn dict_of(shape: Shape) -> Shape
    returns
        Shape::Dict(Box::new(shape)),
{
    Shape::Dict(Box::new(shape))
}

} // verus!
