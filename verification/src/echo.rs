//! How written XML reads: the events that stand for the lines of a document,
//! and what a reader makes of them.
//!
//! The laws on round trips are stated over this: that a parser hands out, for
//! the tags and texts that were written, events that stand for them.

use vstd::prelude::*;
use vstd::utf8::encode_utf8;

use crate::error::ErrorView;
use crate::text::{decimal, decimal_reads_back, is_digit, trim};
use crate::value::flat;
use crate::xml::{
    close_item, declaration_item, empty_item, open_item, opt_text_items, rendered, text_item,
    vanishes, AttrView, EventView, Item, TagView,
};

verus! {

// ---------------------------------------------------------------------------
// Tags and texts
// ---------------------------------------------------------------------------

/// A text as it is written, without what vanishes.
pub open spec fn shown(s: Seq<char>) -> Seq<char>
    decreases s.len(),
{
    if s.len() == 0 {
        s
    } else if vanishes(s.last()) {
        shown(s.drop_last())
    } else {
        shown(s.drop_last()).push(s.last())
    }
}

/// What a tag with these attributes says under a name.
pub open spec fn attr_in(attrs: Seq<AttrView>, key: Seq<char>) -> Option<Seq<char>>
    decreases attrs.len(),
{
    if attrs.len() == 0 {
        None
    } else if attrs[0].0 == key {
        Some(shown(attrs[0].1))
    } else {
        attr_in(attrs.skip(1), key)
    }
}

/// The tag that was written with this name and these attributes.
pub open spec fn written_as(tag: TagView, name: Seq<char>, attrs: Seq<AttrView>) -> bool {
    tag.name == name && forall|key: Seq<char>| #[trigger] tag.attr(key) == attr_in(attrs, key)
}

/// An event between elements: white space, a comment, a declaration.
pub open spec fn idle(event: EventView) -> bool {
    match event {
        EventView::Other => true,
        EventView::Text(Ok(text)) => trim(text).len() == 0,
        _ => false,
    }
}

pub open spec fn all_idle(events: Seq<EventView>) -> bool {
    forall|i: int| 0 <= i < events.len() ==> idle(#[trigger] events[i])
}

pub open spec fn opens(event: EventView, name: Seq<char>, attrs: Seq<AttrView>) -> bool {
    match event {
        EventView::Start(tag) => written_as(tag, name, attrs),
        _ => false,
    }
}

/// Whether these events stand for one line of a document.
pub open spec fn stands_for(events: Seq<EventView>, item: Item) -> bool {
    match item {
        Item::Raw { .. } => all_idle(events),
        Item::Open { name, attrs } => events.len() > 0 && opens(events[0], name, attrs)
            && all_idle(events.skip(1)),
        Item::Empty { name, attrs } => events.len() > 0 && (match events[0] {
            EventView::Empty(tag) => written_as(tag, name, attrs),
            _ => false,
        }) && all_idle(events.skip(1)),
        Item::Close { name } => events.len() > 0 && events[0] == EventView::End(name) && all_idle(
            events.skip(1),
        ),
        Item::Text { name, attrs, text } => {
            ||| {
                &&& events.len() > 1 && opens(events[0], name, attrs)
                &&& trim(shown(text)).len() == 0
                &&& events[1] == EventView::End(name)
                &&& all_idle(events.skip(2))
            }
            ||| {
                &&& events.len() > 2 && opens(events[0], name, attrs)
                &&& match events[1] {
                    EventView::Text(Ok(read)) => trim(read) == trim(shown(text)),
                    _ => false,
                }
                &&& events[2] == EventView::End(name)
                &&& all_idle(events.skip(3))
            }
        },
    }
}

/// The events of a document whose lines are these, line by line.
pub open spec fn reads_as(items: Seq<Item>, chunks: Seq<Seq<EventView>>) -> bool {
    &&& chunks.len() == items.len()
    &&& forall|i: int| 0 <= i < items.len() ==> stands_for(#[trigger] chunks[i], items[i])
}

pub open spec fn events_of(chunks: Seq<Seq<EventView>>) -> Seq<EventView> {
    flat(chunks, |chunk: Seq<EventView>| chunk)
}

pub proof fn attr_is_found(attrs: Seq<AttrView>, i: int)
    requires
        0 <= i < attrs.len(),
        forall|j: int| 0 <= j < i ==> (#[trigger] attrs[j]).0 != attrs[i].0,
    ensures
        attr_in(attrs, attrs[i].0) == Some(shown(attrs[i].1)),
    decreases i,
{
    if i > 0 {
        assert(attrs[0].0 != attrs[i].0);
        let rest = attrs.skip(1);
        assert(rest[i - 1] == attrs[i]);
        assert forall|j: int| 0 <= j < i - 1 implies (#[trigger] rest[j]).0 != rest[i - 1].0 by {
            assert(rest[j] == attrs[j + 1]);
        }
        attr_is_found(rest, i - 1);
    }
}

pub proof fn attr_is_absent(attrs: Seq<AttrView>, key: Seq<char>)
    requires
        forall|j: int| 0 <= j < attrs.len() ==> (#[trigger] attrs[j]).0 != key,
    ensures
        attr_in(attrs, key) is None,
    decreases attrs.len(),
{
    if attrs.len() > 0 {
        assert(attrs[0].0 != key);
        let rest = attrs.skip(1);
        assert forall|j: int| 0 <= j < rest.len() implies (#[trigger] rest[j]).0 != key by {
            assert(rest[j] == attrs[j + 1]);
        }
        attr_is_absent(rest, key);
    }
}

/// What a tag says comes from the one list of attributes or from the other.
pub proof fn attrs_together(a: Seq<AttrView>, b: Seq<AttrView>, key: Seq<char>)
    ensures
        attr_in(a + b, key) == match attr_in(a, key) {
            Some(value) => Some(value),
            None => attr_in(b, key),
        },
    decreases a.len(),
{
    if a.len() == 0 {
        assert(a + b =~= b);
    } else {
        assert((a + b)[0] == a[0]);
        assert((a + b).skip(1) =~= a.skip(1) + b);
        attrs_together(a.skip(1), b, key);
    }
}

/// A text of characters that do not vanish is shown as it is.
pub proof fn shown_whole(s: Seq<char>)
    requires
        forall|i: int| 0 <= i < s.len() ==> !vanishes(#[trigger] s[i]),
    ensures
        shown(s) == s,
    decreases s.len(),
{
    if s.len() > 0 {
        assert(!vanishes(s[s.len() - 1]));
        assert forall|i: int| 0 <= i < s.drop_last().len() implies !vanishes(
            #[trigger] s.drop_last()[i],
        ) by {
            assert(s.drop_last()[i] == s[i]);
        }
        shown_whole(s.drop_last());
        assert(s.drop_last().push(s.last()) =~= s);
    }
}

pub proof fn digits_are_shown(n: nat)
    ensures
        shown(decimal(n)) == decimal(n),
{
    decimal_reads_back(n);
    assert forall|i: int| 0 <= i < decimal(n).len() implies !vanishes(#[trigger] decimal(n)[i]) by {
        assert(is_digit(decimal(n)[i]));
    }
    shown_whole(decimal(n));
}

pub proof fn shown_together(a: Seq<char>, b: Seq<char>)
    ensures
        shown(a + b) == shown(a) + shown(b),
    decreases b.len(),
{
    if b.len() == 0 {
        assert(a + b =~= a);
        assert(shown(a) + shown(b) =~= shown(a));
    } else {
        shown_together(a, b.drop_last());
        assert((a + b).drop_last() =~= a + b.drop_last());
        assert(shown(a + b) =~= shown(a) + shown(b));
    }
}

// ---------------------------------------------------------------------------
// Documents
// ---------------------------------------------------------------------------

pub open spec fn name_char(c: char) -> bool {
    'a' <= c <= 'z' || 'A' <= c <= 'Z' || is_digit(c) || c == '-' || c == '_' || c == '.'
}

/// A name that stands in a tag as it is, without a namespace prefix.
#[verifier::opaque]
pub open spec fn plain_name(s: Seq<char>) -> bool {
    s.len() > 0 && forall|i: int| 0 <= i < s.len() ==> name_char(#[trigger] s[i])
}

pub open spec fn plain_attrs(attrs: Seq<AttrView>) -> bool {
    forall|i: int| 0 <= i < attrs.len() ==> plain_name((#[trigger] attrs[i]).0)
}

/// A document type declaration without an internal subset.
#[verifier::opaque]
pub open spec fn doctype(text: Seq<char>) -> bool {
    &&& text.len() > 11
    &&& text.take(10) == "<!DOCTYPE "@
    &&& name_char(text[10])
    &&& text.last() == '>'
    &&& forall|i: int|
        10 <= i < text.len() - 1 ==> #[trigger] text[i] != '<' && text[i] != '>'
}

pub open spec fn plain_item(item: Item) -> bool {
    match item {
        Item::Raw { text } => item == declaration_item() || doctype(text),
        Item::Open { name, attrs } => plain_name(name) && plain_attrs(attrs),
        Item::Empty { name, attrs } => plain_name(name) && plain_attrs(attrs),
        Item::Text { name, attrs, .. } => plain_name(name) && plain_attrs(attrs),
        Item::Close { name } => plain_name(name),
    }
}

pub open spec fn plain_items(items: Seq<Item>) -> bool {
    forall|i: int| 0 <= i < items.len() ==> plain_item(#[trigger] items[i])
}

/// The elements that are open behind these lines, the innermost last, where
/// every end tag closes the innermost one.
pub open spec fn still_open(outer: Seq<Seq<char>>, items: Seq<Item>) -> Option<Seq<Seq<char>>>
    decreases items.len(),
{
    if items.len() == 0 {
        Some(outer)
    } else {
        match still_open(outer, items.drop_last()) {
            Some(names) => match items.last() {
                Item::Open { name, .. } => Some(names.push(name)),
                Item::Close { name } => if names.len() > 0 && names.last() == name {
                    Some(names.drop_last())
                } else {
                    None
                },
                _ => Some(names),
            },
            None => None,
        }
    }
}

/// The lines of a document: the XML declaration first, plain names, and every
/// element closed.
pub open spec fn well_formed(items: Seq<Item>) -> bool {
    &&& items.len() > 0
    &&& items[0] == declaration_item()
    &&& plain_items(items)
    &&& still_open(Seq::empty(), items) == Some(Seq::<Seq<char>>::empty())
}

/// Whether these are the events of a document with these lines.
pub open spec fn echoes(events: Seq<EventView>, items: Seq<Item>) -> bool {
    exists|chunks: Seq<Seq<EventView>>| #[trigger]
        reads_as(items, chunks) && events == events_of(chunks).push(EventView::Eof)
}

/// Whether these events echo the lines of the document that these bytes hold,
/// if they hold one that was written line by line.
pub open spec fn faithful(input: Seq<u8>, events: Seq<EventView>) -> bool {
    forall|items: Seq<Item>| #[trigger]
        well_formed(items) && input == encode_utf8(rendered(items)) ==> echoes(events, items)
}

/// Any line.
pub open spec fn any_line() -> spec_fn(Item) -> bool {
    |item: Item| true
}

/// Plain lines of some sort among which every element that is opened is closed.
#[verifier::opaque]
pub open spec fn block(sort: spec_fn(Item) -> bool, items: Seq<Item>) -> bool {
    &&& plain_items(items)
    &&& forall|i: int| 0 <= i < items.len() ==> sort(#[trigger] items[i])
    &&& forall|outer: Seq<Seq<char>>| #[trigger] still_open(outer, items) == Some(outer)
}

proof fn open_behind_both(outer: Seq<Seq<char>>, a: Seq<Item>, b: Seq<Item>)
    ensures
        still_open(outer, a + b) == match still_open(outer, a) {
            Some(names) => still_open(names, b),
            None => None,
        },
    decreases b.len(),
{
    if b.len() == 0 {
        assert(a + b =~= a);
    } else {
        open_behind_both(outer, a, b.drop_last());
        assert((a + b).drop_last() =~= a + b.drop_last());
    }
}

proof fn open_behind_one(outer: Seq<Seq<char>>, item: Item)
    ensures
        still_open(outer, seq![item]) == match item {
            Item::Open { name, .. } => Some(outer.push(name)),
            Item::Close { name } => if outer.len() > 0 && outer.last() == name {
                Some(outer.drop_last())
            } else {
                None
            },
            _ => Some(outer),
        },
{
    assert(seq![item].drop_last() =~= Seq::empty());
    assert(still_open(outer, seq![item].drop_last()) == Some(outer));
}

pub proof fn no_lines_are_a_block(sort: spec_fn(Item) -> bool)
    ensures
        block(sort, Seq::empty()),
{
    reveal(block);
}

pub proof fn blocks_together(sort: spec_fn(Item) -> bool, a: Seq<Item>, b: Seq<Item>)
    requires
        block(sort, a),
        block(sort, b),
    ensures
        block(sort, a + b),
{
    reveal(block);
    assert forall|i: int| 0 <= i < (a + b).len() implies plain_item(#[trigger] (a + b)[i]) && sort(
        (a + b)[i],
    ) by {
        if i < a.len() {
            assert((a + b)[i] == a[i]);
        } else {
            assert((a + b)[i] == b[i - a.len()]);
        }
    }
    assert forall|outer: Seq<Seq<char>>| #[trigger] still_open(outer, a + b) == Some(outer) by {
        open_behind_both(outer, a, b);
        assert(still_open(outer, a) == Some(outer));
        assert(still_open(outer, b) == Some(outer));
    }
}

/// A line that opens and closes nothing.
pub open spec fn whole(item: Item) -> bool {
    plain_item(item) && !(item is Open) && !(item is Close)
}

pub proof fn whole_lines_are_a_block(sort: spec_fn(Item) -> bool, items: Seq<Item>)
    requires
        forall|i: int| 0 <= i < items.len() ==> whole(#[trigger] items[i]) && sort(items[i]),
    ensures
        block(sort, items),
    decreases items.len(),
{
    if items.len() == 0 {
        no_lines_are_a_block(sort);
        assert(items =~= Seq::empty());
    } else {
        let item = items.last();
        assert(whole(items[items.len() - 1]));
        assert forall|i: int| 0 <= i < items.drop_last().len() implies whole(
            #[trigger] items.drop_last()[i],
        ) && sort(items.drop_last()[i]) by {
            assert(items.drop_last()[i] == items[i]);
        }
        whole_lines_are_a_block(sort, items.drop_last());
        assert(block(sort, seq![item])) by {
            reveal(block);
            assert forall|outer: Seq<Seq<char>>| #[trigger]
                still_open(outer, seq![item]) == Some(outer) by {
                open_behind_one(outer, item);
            }
        }
        blocks_together(sort, items.drop_last(), seq![item]);
        assert(items.drop_last() + seq![item] =~= items);
    }
}

pub proof fn one_line_is_a_block(sort: spec_fn(Item) -> bool, item: Item)
    requires
        whole(item),
        sort(item),
    ensures
        block(sort, seq![item]),
{
    whole_lines_are_a_block(sort, seq![item]);
}

/// An element around a block.
pub proof fn element_is_a_block(
    sort: spec_fn(Item) -> bool,
    name: Seq<char>,
    attrs: Seq<AttrView>,
    inner: Seq<Item>,
)
    requires
        plain_name(name),
        plain_attrs(attrs),
        sort(open_item(name, attrs)),
        sort(close_item(name)),
        block(sort, inner),
    ensures
        block(sort, seq![open_item(name, attrs)] + inner + seq![close_item(name)]),
{
    reveal(block);
    let a = seq![open_item(name, attrs)];
    let c = seq![close_item(name)];
    let all = a + inner + c;
    assert forall|i: int| 0 <= i < all.len() implies plain_item(#[trigger] all[i]) && sort(
        all[i],
    ) by {
        if i == 0 {
            assert(all[i] == open_item(name, attrs));
        } else if i <= inner.len() {
            assert(all[i] == inner[i - 1]);
        } else {
            assert(all[i] == close_item(name));
        }
    }
    assert forall|outer: Seq<Seq<char>>| #[trigger] still_open(outer, all) == Some(outer) by {
        open_behind_both(outer, a + inner, c);
        open_behind_both(outer, a, inner);
        open_behind_one(outer, open_item(name, attrs));
        let names = outer.push(name);
        assert(still_open(names, inner) == Some(names));
        open_behind_one(names, close_item(name));
        assert(names.drop_last() =~= outer);
    }
}

pub proof fn parts_are_a_block<A>(
    sort: spec_fn(Item) -> bool,
    parts: Seq<A>,
    f: spec_fn(A) -> Seq<Item>,
)
    requires
        forall|i: int| 0 <= i < parts.len() ==> block(sort, f(#[trigger] parts[i])),
    ensures
        block(sort, flat(parts, f)),
    decreases parts.len(),
{
    if parts.len() == 0 {
        no_lines_are_a_block(sort);
    } else {
        let last = parts.last();
        assert(block(sort, f(parts[parts.len() - 1])));
        assert forall|i: int| 0 <= i < parts.drop_last().len() implies block(
            sort,
            f(#[trigger] parts.drop_last()[i]),
        ) by {
            assert(parts.drop_last()[i] == parts[i]);
        }
        parts_are_a_block(sort, parts.drop_last(), f);
        blocks_together(sort, flat(parts.drop_last(), f), f(last));
    }
}

pub proof fn opt_text_is_a_block(name: Seq<char>, text: Option<Seq<char>>)
    requires
        plain_name(name),
    ensures
        block(any_line(), opt_text_items(name, text)),
{
    match text {
        Some(t) => {
            one_line_is_a_block(any_line(), text_item(name, t));
        },
        None => {
            no_lines_are_a_block(any_line());
        },
    }
}

pub proof fn document_is_well_formed(sort: spec_fn(Item) -> bool, items: Seq<Item>)
    requires
        block(sort, items),
        items.len() > 0,
        items[0] == declaration_item(),
    ensures
        well_formed(items),
        forall|i: int| 0 <= i < items.len() ==> sort(#[trigger] items[i]),
{
    reveal(block);
    assert(still_open(Seq::empty(), items) == Some(Seq::<Seq<char>>::empty()));
}

// ---------------------------------------------------------------------------
// Readers
// ---------------------------------------------------------------------------

/// The state of a reader behind these events, or why it stops.
pub open spec fn ran<S>(
    step: spec_fn(S, EventView) -> Result<S, ErrorView>,
    s: S,
    events: Seq<EventView>,
) -> Result<S, ErrorView>
    decreases events.len(),
{
    if events.len() == 0 {
        Ok(s)
    } else {
        match ran(step, s, events.drop_last()) {
            Ok(t) => step(t, events.last()),
            Err(e) => Err(e),
        }
    }
}

proof fn ran_both<S>(
    step: spec_fn(S, EventView) -> Result<S, ErrorView>,
    s: S,
    a: Seq<EventView>,
    b: Seq<EventView>,
)
    ensures
        ran(step, s, a + b) == match ran(step, s, a) {
            Ok(t) => ran(step, t, b),
            Err(e) => Err(e),
        },
    decreases b.len(),
{
    if b.len() == 0 {
        assert(a + b =~= a);
    } else {
        ran_both(step, s, a, b.drop_last());
        assert((a + b).drop_last() =~= a + b.drop_last());
    }
}

/// A reader that passes over what stands between elements, whatever its state.
pub open spec fn steady<S>(step: spec_fn(S, EventView) -> Result<S, ErrorView>) -> bool {
    forall|s: S, event: EventView|
        idle(event) ==> #[trigger] step(s, event) == Ok::<S, ErrorView>(s)
}

/// A state in which a reader passes over what stands between elements.
pub open spec fn rests<S>(step: spec_fn(S, EventView) -> Result<S, ErrorView>, s: S) -> bool {
    forall|event: EventView| idle(event) ==> #[trigger] step(s, event) == Ok::<S, ErrorView>(s)
}

proof fn idling<S>(
    step: spec_fn(S, EventView) -> Result<S, ErrorView>,
    s: S,
    events: Seq<EventView>,
)
    requires
        rests(step, s),
        all_idle(events),
    ensures
        ran(step, s, events) == Ok::<S, ErrorView>(s),
    decreases events.len(),
{
    if events.len() > 0 {
        assert(idle(events[events.len() - 1]));
        assert forall|i: int| 0 <= i < events.drop_last().len() implies idle(
            #[trigger] events.drop_last()[i],
        ) by {
            assert(events.drop_last()[i] == events[i]);
        }
        idling(step, s, events.drop_last());
        assert(step(s, events.last()) == Ok::<S, ErrorView>(s));
    }
}

/// Whether these lines, whatever events stand for them, lead a reader from one
/// state to another.
#[verifier::opaque]
pub open spec fn leads<S>(
    step: spec_fn(S, EventView) -> Result<S, ErrorView>,
    s: S,
    items: Seq<Item>,
    t: S,
) -> bool {
    forall|chunks: Seq<Seq<EventView>>| #[trigger]
        reads_as(items, chunks) ==> ran(step, s, events_of(chunks)) == Ok::<S, ErrorView>(t)
}

proof fn events_of_both(a: Seq<Seq<EventView>>, b: Seq<Seq<EventView>>)
    ensures
        events_of(a + b) == events_of(a) + events_of(b),
    decreases b.len(),
{
    if b.len() == 0 {
        assert(a + b =~= a);
        assert(events_of(a) + events_of(b) =~= events_of(a));
    } else {
        events_of_both(a, b.drop_last());
        assert((a + b).drop_last() =~= a + b.drop_last());
        assert(events_of(a + b) =~= events_of(a) + events_of(b));
    }
}

proof fn events_of_one(chunk: Seq<EventView>)
    ensures
        events_of(seq![chunk]) == chunk,
{
    let one = seq![chunk];
    assert(one.drop_last() =~= Seq::empty());
    assert(events_of(one.drop_last()) =~= Seq::empty());
    assert(events_of(one) =~= chunk);
}

pub proof fn leads_nowhere<S>(step: spec_fn(S, EventView) -> Result<S, ErrorView>, s: S)
    ensures
        leads(step, s, Seq::empty(), s),
{
    reveal(leads);
    assert forall|chunks: Seq<Seq<EventView>>| #[trigger]
        reads_as(Seq::empty(), chunks) implies ran(step, s, events_of(chunks)) == Ok::<
        S,
        ErrorView,
    >(s) by {
        assert(chunks =~= Seq::empty());
    }
}

pub proof fn leads_on<S>(
    step: spec_fn(S, EventView) -> Result<S, ErrorView>,
    s: S,
    a: Seq<Item>,
    t: S,
    b: Seq<Item>,
    u: S,
)
    requires
        leads(step, s, a, t),
        leads(step, t, b, u),
    ensures
        leads(step, s, a + b, u),
{
    reveal(leads);
    assert forall|chunks: Seq<Seq<EventView>>| #[trigger] reads_as(a + b, chunks) implies ran(
        step,
        s,
        events_of(chunks),
    ) == Ok::<S, ErrorView>(u) by {
        let n = a.len() as int;
        let x = chunks.take(n);
        let y = chunks.skip(n);
        assert(reads_as(a, x)) by {
            assert forall|i: int| 0 <= i < a.len() implies stands_for(#[trigger] x[i], a[i]) by {
                assert(stands_for(chunks[i], (a + b)[i]));
            }
        }
        assert(reads_as(b, y)) by {
            assert forall|i: int| 0 <= i < b.len() implies stands_for(#[trigger] y[i], b[i]) by {
                assert(stands_for(chunks[i + n], (a + b)[i + n]));
            }
        }
        assert(x + y =~= chunks);
        events_of_both(x, y);
        ran_both(step, s, events_of(x), events_of(y));
    }
}

proof fn one_chunk<S>(
    step: spec_fn(S, EventView) -> Result<S, ErrorView>,
    s: S,
    item: Item,
    t: S,
)
    requires
        forall|chunk: Seq<EventView>| #[trigger]
            stands_for(chunk, item) ==> ran(step, s, chunk) == Ok::<S, ErrorView>(t),
    ensures
        leads(step, s, seq![item], t),
{
    reveal(leads);
    assert forall|chunks: Seq<Seq<EventView>>| #[trigger]
        reads_as(seq![item], chunks) implies ran(step, s, events_of(chunks)) == Ok::<
        S,
        ErrorView,
    >(t) by {
        assert(stands_for(chunks[0], seq![item][0]));
        assert(chunks =~= seq![chunks[0]]);
        events_of_one(chunks[0]);
    }
}

proof fn ran_first<S>(
    step: spec_fn(S, EventView) -> Result<S, ErrorView>,
    s: S,
    events: Seq<EventView>,
)
    requires
        events.len() > 0,
    ensures
        ran(step, s, events) == match step(s, events[0]) {
            Ok(t) => ran(step, t, events.skip(1)),
            Err(e) => Err(e),
        },
{
    let one = seq![events[0]];
    assert(one + events.skip(1) =~= events);
    ran_both(step, s, one, events.skip(1));
    assert(one.drop_last() =~= Seq::empty());
    assert(ran(step, s, one.drop_last()) == Ok::<S, ErrorView>(s));
}

/// A declaration leads nowhere.
pub proof fn raw_leads<S>(step: spec_fn(S, EventView) -> Result<S, ErrorView>, s: S, item: Item)
    requires
        rests(step, s),
        item is Raw,
    ensures
        leads(step, s, seq![item], s),
{
    assert forall|chunk: Seq<EventView>| #[trigger] stands_for(chunk, item) implies ran(
        step,
        s,
        chunk,
    ) == Ok::<S, ErrorView>(s) by {
        idling(step, s, chunk);
    }
    one_chunk(step, s, item, s);
}

pub proof fn open_leads<S>(
    step: spec_fn(S, EventView) -> Result<S, ErrorView>,
    s: S,
    name: Seq<char>,
    attrs: Seq<AttrView>,
    t: S,
)
    requires
        rests(step, t),
        forall|tag: TagView| #[trigger]
            written_as(tag, name, attrs) ==> step(s, EventView::Start(tag)) == Ok::<S, ErrorView>(
                t,
            ),
    ensures
        leads(step, s, seq![open_item(name, attrs)], t),
{
    let item = open_item(name, attrs);
    assert forall|chunk: Seq<EventView>| #[trigger] stands_for(chunk, item) implies ran(
        step,
        s,
        chunk,
    ) == Ok::<S, ErrorView>(t) by {
        ran_first(step, s, chunk);
        idling(step, t, chunk.skip(1));
    }
    one_chunk(step, s, item, t);
}

pub proof fn empty_leads<S>(
    step: spec_fn(S, EventView) -> Result<S, ErrorView>,
    s: S,
    name: Seq<char>,
    attrs: Seq<AttrView>,
    t: S,
)
    requires
        rests(step, t),
        forall|tag: TagView| #[trigger]
            written_as(tag, name, attrs) ==> step(s, EventView::Empty(tag)) == Ok::<S, ErrorView>(
                t,
            ),
    ensures
        leads(step, s, seq![empty_item(name, attrs)], t),
{
    let item = empty_item(name, attrs);
    assert forall|chunk: Seq<EventView>| #[trigger] stands_for(chunk, item) implies ran(
        step,
        s,
        chunk,
    ) == Ok::<S, ErrorView>(t) by {
        ran_first(step, s, chunk);
        idling(step, t, chunk.skip(1));
    }
    one_chunk(step, s, item, t);
}

pub proof fn close_leads<S>(
    step: spec_fn(S, EventView) -> Result<S, ErrorView>,
    s: S,
    name: Seq<char>,
    t: S,
)
    requires
        rests(step, t),
        step(s, EventView::End(name)) == Ok::<S, ErrorView>(t),
    ensures
        leads(step, s, seq![close_item(name)], t),
{
    let item = close_item(name);
    assert forall|chunk: Seq<EventView>| #[trigger] stands_for(chunk, item) implies ran(
        step,
        s,
        chunk,
    ) == Ok::<S, ErrorView>(t) by {
        ran_first(step, s, chunk);
        idling(step, t, chunk.skip(1));
    }
    one_chunk(step, s, item, t);
}

/// An element that holds text: its tag, the text unless it is blank, and its
/// end.
pub proof fn text_leads<S>(
    step: spec_fn(S, EventView) -> Result<S, ErrorView>,
    s: S,
    item: Item,
    opened: S,
    t: S,
)
    requires
        rests(step, t),
        item is Text,
        forall|tag: TagView| #[trigger]
            written_as(tag, item->Text_name, item->Text_attrs) ==> step(s, EventView::Start(tag))
                == Ok::<S, ErrorView>(opened),
        forall|read: Seq<char>|
            trim(read) == trim(shown(item->Text_text)) ==> match #[trigger] step(
                opened,
                EventView::Text(Ok(read)),
            ) {
                Ok(filled) => step(filled, EventView::End(item->Text_name)) == Ok::<S, ErrorView>(
                    t,
                ),
                Err(_) => false,
            },
        trim(shown(item->Text_text)).len() == 0 ==> step(opened, EventView::End(item->Text_name))
            == Ok::<S, ErrorView>(t),
    ensures
        leads(step, s, seq![item], t),
{
    assert forall|chunk: Seq<EventView>| #[trigger] stands_for(chunk, item) implies ran(
        step,
        s,
        chunk,
    ) == Ok::<S, ErrorView>(t) by {
        ran_first(step, s, chunk);
        let rest = chunk.skip(1);
        assert(rest[0] == chunk[1]);
        ran_first(step, opened, rest);
        assert(rest.skip(1) =~= chunk.skip(2));
        if chunk[1] == EventView::End(item->Text_name) {
            idling(step, t, chunk.skip(2));
        } else {
            let read = chunk[1]->Text_0->Ok_0;
            let filled = step(opened, EventView::Text(Ok(read)))->Ok_0;
            let last = chunk.skip(2);
            assert(last[0] == chunk[2]);
            ran_first(step, filled, last);
            assert(last.skip(1) =~= chunk.skip(3));
            idling(step, t, chunk.skip(3));
        }
    }
    one_chunk(step, s, item, t);
}

/// A reader that no event of a sort stops runs through events of that sort, and
/// has passed the mark behind the event that sets it.
pub proof fn runs_through<S>(
    step: spec_fn(S, EventView) -> Result<S, ErrorView>,
    s: S,
    events: Seq<EventView>,
    sort: spec_fn(EventView) -> bool,
    mark: spec_fn(S) -> bool,
    k: int,
)
    requires
        forall|t: S, event: EventView|
            sort(event) ==> match #[trigger] step(t, event) {
                Ok(u) => mark(t) ==> mark(u),
                Err(_) => false,
            },
        forall|i: int| 0 <= i < events.len() ==> sort(#[trigger] events[i]),
        k < events.len(),
        k >= 0 ==> forall|t: S|
            match #[trigger] step(t, events[k]) {
                Ok(u) => mark(u),
                Err(_) => false,
            },
    ensures
        match ran(step, s, events) {
            Ok(t) => k >= 0 ==> mark(t),
            Err(_) => false,
        },
    decreases events.len(),
{
    if events.len() > 0 {
        let head = events.drop_last();
        assert forall|i: int| 0 <= i < head.len() implies sort(#[trigger] head[i]) by {
            assert(head[i] == events[i]);
        }
        assert(sort(events[events.len() - 1]));
        if k == events.len() - 1 {
            runs_through(step, s, head, sort, mark, -1);
        } else {
            assert(k >= 0 ==> head[k] == events[k]);
            runs_through(step, s, head, sort, mark, k);
        }
    }
}

/// Every event that stands for written lines is of a sort, if those of each
/// line are.
pub proof fn events_are_of_a_sort(
    items: Seq<Item>,
    chunks: Seq<Seq<EventView>>,
    sort: spec_fn(EventView) -> bool,
)
    requires
        reads_as(items, chunks),
        forall|i: int, j: int|
            0 <= i < items.len() && 0 <= j < chunks[i].len() && stands_for(chunks[i], items[i])
                ==> sort(#[trigger] chunks[i][j]),
    ensures
        forall|i: int| 0 <= i < events_of(chunks).len() ==> sort(#[trigger] events_of(chunks)[i]),
    decreases items.len(),
{
    if items.len() > 0 {
        let n = items.len() - 1;
        let fewer = chunks.drop_last();
        let last = chunks.last();
        let events = events_of(chunks);
        let before = events_of(fewer);
        assert(events =~= before + last);
        assert(stands_for(chunks[n], items[n]));
        assert forall|i: int| 0 <= i < items.drop_last().len() implies stands_for(
            #[trigger] fewer[i],
            items.drop_last()[i],
        ) by {
            assert(stands_for(chunks[i], items[i]));
        }
        assert forall|i: int, j: int|
            0 <= i < items.drop_last().len() && 0 <= j < fewer[i].len() && stands_for(
                fewer[i],
                items.drop_last()[i],
            ) implies sort(#[trigger] fewer[i][j]) by {
            assert(fewer[i] == chunks[i]);
            assert(sort(chunks[i][j]));
        }
        events_are_of_a_sort(items.drop_last(), fewer, sort);
        assert forall|i: int| 0 <= i < events.len() implies sort(#[trigger] events[i]) by {
            if i < before.len() {
                assert(events[i] == before[i]);
            } else {
                assert(events[i] == last[i - before.len()]);
                assert(sort(chunks[n][i - before.len()]));
            }
        }
    }
}

/// An event that stands for a line is its start tag, its empty-element tag, its
/// end, a text, or nothing to speak of.
pub proof fn events_of_a_line(events: Seq<EventView>, item: Item, j: int)
    requires
        stands_for(events, item),
        0 <= j < events.len(),
    ensures
        match events[j] {
            EventView::Start(tag) => match item {
                Item::Open { name, attrs } => written_as(tag, name, attrs),
                Item::Text { name, attrs, .. } => written_as(tag, name, attrs),
                _ => false,
            },
            EventView::Empty(tag) => match item {
                Item::Empty { name, attrs } => written_as(tag, name, attrs),
                _ => false,
            },
            EventView::Text(text) => text is Ok,
            EventView::Failed(_) => false,
            _ => true,
        },
{
    if j > 0 {
        assert(events.skip(1)[j - 1] == events[j]);
    }
    if j > 1 {
        assert(events.skip(2)[j - 2] == events[j]);
    }
    if j > 2 {
        assert(events.skip(3)[j - 3] == events[j]);
    }
}

/// Every start tag that was written is among the events.
pub proof fn written_tags_are_read(items: Seq<Item>, chunks: Seq<Seq<EventView>>, k: int)
    requires
        reads_as(items, chunks),
        0 <= k < items.len(),
        items[k] is Open,
    ensures
        exists|i: int|
            0 <= i < events_of(chunks).len() && opens(
                #[trigger] events_of(chunks)[i],
                items[k]->Open_name,
                items[k]->Open_attrs,
            ),
    decreases items.len(),
{
    let n = items.len() - 1;
    let fewer = chunks.drop_last();
    let last = chunks.last();
    let events = events_of(chunks);
    let before = events_of(fewer);
    assert(events =~= before + last);
    assert(stands_for(chunks[n], items[n]));
    if k == n {
        assert(events[before.len() as int] == last[0]);
        assert(opens(events[before.len() as int], items[k]->Open_name, items[k]->Open_attrs));
    } else {
        assert forall|i: int| 0 <= i < items.drop_last().len() implies stands_for(
            #[trigger] fewer[i],
            items.drop_last()[i],
        ) by {
            assert(stands_for(chunks[i], items[i]));
        }
        written_tags_are_read(items.drop_last(), fewer, k);
        let i = choose|i: int|
            0 <= i < before.len() && opens(
                #[trigger] before[i],
                items.drop_last()[k]->Open_name,
                items.drop_last()[k]->Open_attrs,
            );
        assert(events[i] == before[i]);
    }
}

/// Where lines lead, read off.
pub proof fn arrives<S>(
    step: spec_fn(S, EventView) -> Result<S, ErrorView>,
    s: S,
    items: Seq<Item>,
    t: S,
    chunks: Seq<Seq<EventView>>,
)
    requires
        leads(step, s, items, t),
        reads_as(items, chunks),
    ensures
        ran(step, s, events_of(chunks)) == Ok::<S, ErrorView>(t),
{
    reveal(leads);
}

} // verus!
