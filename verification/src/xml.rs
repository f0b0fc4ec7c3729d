//! Thin XML helpers shared by the XML readers and writers.
//!
//! Reading goes through `quick-xml`, which resolves no external DTDs or
//! entities. Writing is done by hand: the output shapes are small and fixed.

use std::borrow::Cow;

use quick_xml::events::BytesStart;
use quick_xml::events::Event::{CData, Empty, End, Eof, Start, Text};
use quick_xml::Reader;
use vstd::prelude::*;
use vstd::string::*;

use crate::echo::{faithful, shown, shown_together};
use crate::error::{Error, ErrorView};
use crate::text::{
    all_digits, chars, cut, decimal, from_utf8_lossy, lower, number, only_digits, owned, parse_i64,
    parse_i64_spec, parse_u32, parse_u32_spec, parse_u64, parse_u64_spec, same, slice, split_once,
    starts_with, to_lower, trim, trimmed,
};
use crate::value::{append_one, empty_list};

verus! {

// ---------------------------------------------------------------------------
// Events
// ---------------------------------------------------------------------------

/// A start tag or an empty-element tag.
#[derive(Debug)]
pub struct Tag {
    /// Local name, namespace prefix stripped.
    pub name: String,
    /// What stands between the angle brackets: the name and the attributes.
    pub content: Vec<u8>,
}

/// One step through a document.
#[derive(Debug)]
pub enum XmlEvent {
    Start(Tag),
    Empty(Tag),
    /// An end tag, by its local name.
    End(String),
    /// Character data with entities resolved, or what is wrong with it.
    Text(Result<String, String>),
    CData(String),
    /// Comments, declarations, processing instructions, document types.
    Other,
    Eof,
    /// The document is broken here.
    Failed(String),
}

/// The content of a [`Tag`].
pub struct TagView {
    pub name: Seq<char>,
    pub content: Seq<u8>,
}

/// The content of an [`XmlEvent`].
pub enum EventView {
    Start(TagView),
    Empty(TagView),
    End(Seq<char>),
    Text(Result<Seq<char>, Seq<char>>),
    CData(Seq<char>),
    Other,
    Eof,
    Failed(Seq<char>),
}

impl DeepView for Tag {
    type V = TagView;

    open spec fn deep_view(&self) -> TagView {
        TagView { name: self.name@, content: self.content@ }
    }
}

impl DeepView for XmlEvent {
    type V = EventView;

    open spec fn deep_view(&self) -> EventView {
        match *self {
            XmlEvent::Start(tag) => EventView::Start(tag.deep_view()),
            XmlEvent::Empty(tag) => EventView::Empty(tag.deep_view()),
            XmlEvent::End(name) => EventView::End(name@),
            XmlEvent::Text(Ok(text)) => EventView::Text(Ok(text@)),
            XmlEvent::Text(Err(problem)) => EventView::Text(Err(problem@)),
            XmlEvent::CData(text) => EventView::CData(text@),
            XmlEvent::Other => EventView::Other,
            XmlEvent::Eof => EventView::Eof,
            XmlEvent::Failed(problem) => EventView::Failed(problem@),
        }
    }
}

impl EventView {
    /// Nothing is read behind this event.
    pub open spec fn ends(self) -> bool {
        self is Eof || self is Failed
    }
}

/// A document's events: exactly the last one ends it.
pub open spec fn complete(events: Seq<EventView>) -> bool {
    &&& events.len() > 0
    &&& events.last().ends()
    &&& forall|i: int| 0 <= i < events.len() - 1 ==> !(#[trigger] events[i]).ends()
}

/// `quick_xml::Reader`, a pull parser over bytes.
#[verifier::external_type_specification]
#[verifier::external_body]
#[verifier::reject_recursive_types(R)]
pub struct ExReader<R>(Reader<R>);

/// The events that a pull parser finds in these bytes up to the end of the
/// document or the first error, with text trimmed or not.
pub uninterp spec fn xml_events(input: Seq<u8>, trim_text: bool) -> Seq<EventView>;

/// The events that a reader has yet to hand out.
pub uninterp spec fn events_left(reader: Reader<&[u8]>) -> Seq<EventView>;

/// `Reader::from_reader` with `Config::trim_text`: a reader at the start of the
/// bytes. What it will hand out depends on the bytes and the setting alone and
/// is named [`xml_events`]; it is finite and ends with the end of the document
/// or an error.
///
/// Of a document that was written line by line, with plain names, escaped
/// values and matching end tags, it hands out the tags and texts that were
/// written. The declaration and the document type are events of their own, end
/// tags are held against the open elements, the five entities are resolved in
/// texts and attribute values, and nothing else in them is changed, save that
/// white space around a text goes where texts are trimmed.
#[verifier::external_body]
fn open_reader(input: &[u8], trim_text: bool) -> (r: Reader<&[u8]>)
    ensures
        events_left(r) == xml_events(input@, trim_text),
        complete(events_left(r)),
        faithful(input@, events_left(r)),
{
    let mut reader = Reader::from_reader(input);
    reader.config_mut().trim_text(trim_text);
    reader
}

/// `Reader::read_event`, with what the event holds as plain values: hands out
/// the next of the events that are left.
#[verifier::external_body]
fn next_event(reader: &mut Reader<&[u8]>) -> (r: XmlEvent)
    requires
        events_left(*old(reader)).len() > 0,
    ensures
        r.deep_view() == events_left(*old(reader))[0],
        events_left(*final(reader)) == events_left(*old(reader)).skip(1),
{
    let tag = |e: BytesStart| {
        Tag { name: from_utf8_lossy(e.local_name().as_ref()), content: e.to_vec() }
    };
    match reader.read_event() {
        Ok(Start(e)) => XmlEvent::Start(tag(e)),
        Ok(Empty(e)) => XmlEvent::Empty(tag(e)),
        Ok(End(e)) => XmlEvent::End(from_utf8_lossy(e.local_name().as_ref())),
        Ok(Text(e)) => {
            XmlEvent::Text(e.unescape().map(Cow::into_owned).map_err(|e| e.to_string()))
        },
        Ok(CData(e)) => XmlEvent::CData(from_utf8_lossy(&e)),
        Ok(Eof) => XmlEvent::Eof,
        Ok(_) => XmlEvent::Other,
        Err(e) => XmlEvent::Failed(e.to_string()),
    }
}

/// All events of a document.
pub fn read_events(input: &[u8], trim_text: bool) -> (r: Vec<XmlEvent>)
    ensures
        r.deep_view() == xml_events(input@, trim_text),
        complete(r.deep_view()),
        faithful(input@, r.deep_view()),
{
    let mut reader = open_reader(input, trim_text);
    let ghost all = events_left(reader);
    let mut out: Vec<XmlEvent> = empty_list();
    assert(all.skip(0) =~= all);
    loop
        invariant
            complete(all),
            all == xml_events(input@, trim_text),
            faithful(input@, all),
            out@.len() < all.len(),
            out.deep_view() == all.take(out@.len() as int),
            events_left(reader) == all.skip(out@.len() as int),
        decreases all.len() - out@.len(),
    {
        let ghost done = out@.len() as int;
        let event = next_event(&mut reader);
        assert(event.deep_view() == all[done]);
        assert(all.skip(done).skip(1) =~= all.skip(done + 1));
        let last = match &event {
            XmlEvent::Eof => true,
            XmlEvent::Failed(_) => true,
            _ => false,
        };
        append_one(&mut out, event);
        assert(out.deep_view() =~= all.take(done + 1));
        if last {
            assert(done + 1 == all.len());
            assert(out.deep_view() =~= all);
            return out;
        }
    }
}

// ---------------------------------------------------------------------------
// Attributes
// ---------------------------------------------------------------------------

/// The value of an attribute of a tag with this content, entities resolved.
pub uninterp spec fn attribute_value(tag: Seq<u8>, name: Seq<char>) -> Option<Seq<char>>;

/// `BytesStart::try_get_attribute` and `Attribute::unescape_value` on the tag:
/// the first attribute of that name. It is absent when the tag has none, when
/// an attribute before it is malformed, or when its value cannot be resolved.
/// The result depends on the content and the name alone and is named
/// [`attribute_value`].
#[verifier::external_body]
fn attribute(tag: &Vec<u8>, name: &str) -> (r: Option<String>)
    ensures
        r.deep_view() == attribute_value(tag@, name@),
{
    let source = [b"<".as_slice(), tag, b"/>"].concat();
    match Reader::from_reader(source.as_slice()).read_event() {
        Ok(Empty(e)) => {
            let found = e.try_get_attribute(name).ok().flatten();
            found.and_then(|a| a.unescape_value().ok().map(|v| v.into_owned()))
        },
        _ => None,
    }
}

impl TagView {
    pub open spec fn attr(self, name: Seq<char>) -> Option<Seq<char>> {
        attribute_value(self.content, name)
    }

    pub open spec fn attr_u32(self, name: Seq<char>) -> Option<u32> {
        match self.attr(name) {
            Some(v) => parse_u32_spec(trim(v)),
            None => None,
        }
    }

    pub open spec fn attr_u64(self, name: Seq<char>) -> Option<u64> {
        match self.attr(name) {
            Some(v) => parse_u64_spec(trim(v)),
            None => None,
        }
    }

    pub open spec fn attr_i64(self, name: Seq<char>) -> Option<i64> {
        match self.attr(name) {
            Some(v) => parse_i64_spec(trim(v)),
            None => None,
        }
    }

    /// The attribute's text, where it is a number literal.
    pub open spec fn attr_number(self, name: Seq<char>) -> Option<Seq<char>> {
        match self.attr(name) {
            Some(v) => if float_literal(trim(v)) {
                Some(trim(v))
            } else {
                None
            },
            None => None,
        }
    }
}

/// An attribute of a start/empty tag, with entities unescaped.
pub fn get_attr(tag: &Tag, name: &str) -> (r: Option<String>)
    ensures
        r.deep_view() == tag.deep_view().attr(name@),
{
    attribute(&tag.content, name)
}

/// Same as [`get_attr`], as a number. A malformed value is treated as absent:
/// refusing the whole file over one bad attribute helps nobody.
pub fn get_u32(tag: &Tag, name: &str) -> (r: Option<u32>)
    ensures
        r == tag.deep_view().attr_u32(name@),
{
    match get_attr(tag, name) {
        Some(v) => parse_u32(trimmed(v.as_str()).as_str()),
        None => None,
    }
}

pub fn get_u64(tag: &Tag, name: &str) -> (r: Option<u64>)
    ensures
        r == tag.deep_view().attr_u64(name@),
{
    match get_attr(tag, name) {
        Some(v) => parse_u64(trimmed(v.as_str()).as_str()),
        None => None,
    }
}

pub fn get_i64(tag: &Tag, name: &str) -> (r: Option<i64>)
    ensures
        r == tag.deep_view().attr_i64(name@),
{
    match get_attr(tag, name) {
        Some(v) => parse_i64(trimmed(v.as_str()).as_str()),
        None => None,
    }
}

pub fn get_number(tag: &Tag, name: &str) -> (r: Option<String>)
    ensures
        r.deep_view() == tag.deep_view().attr_number(name@),
{
    match get_attr(tag, name) {
        Some(v) => {
            let text = trimmed(v.as_str());
            if is_float_literal(text.as_str()) {
                Some(text)
            } else {
                None
            }
        },
        None => None,
    }
}

// ---------------------------------------------------------------------------
// Number literals
// ---------------------------------------------------------------------------

/// Without a leading sign.
pub open spec fn unsigned_part(s: Seq<char>) -> Seq<char> {
    if s.len() > 0 && (s[0] == '+' || s[0] == '-') {
        s.skip(1)
    } else {
        s
    }
}

/// Digits with at most one point among them, at least one digit.
pub open spec fn mantissa(s: Seq<char>) -> bool {
    match split_once(s, '.') {
        Some((whole, fraction)) => all_digits(whole) && all_digits(fraction) && whole.len()
            + fraction.len() > 0,
        None => s.len() > 0 && all_digits(s),
    }
}

/// A decimal floating point literal as `str::parse` takes it: a sign, then
/// `inf`, `infinity`, `nan` or digits with an optional point and exponent.
pub open spec fn float_literal(s: Seq<char>) -> bool {
    let body = lower(unsigned_part(s));
    ||| body == "inf"@
    ||| body == "infinity"@
    ||| body == "nan"@
    ||| match split_once(body, 'e') {
        Some((head, exponent)) => mantissa(head) && unsigned_part(exponent).len() > 0
            && all_digits(unsigned_part(exponent)),
        None => mantissa(body),
    }
}

fn without_sign(s: &str) -> (r: String)
    ensures
        r@ == unsigned_part(s@),
{
    let cs = chars(s);
    if cs.len() > 0 && (cs[0] == '+' || cs[0] == '-') {
        assert(cs@.skip(1) =~= cs@.subrange(1, cs@.len() as int));
        slice(&cs, 1, cs.len())
    } else {
        owned(s)
    }
}

fn is_mantissa(s: &str) -> (r: bool)
    ensures
        r == mantissa(s@),
{
    match cut(s, '.') {
        Some((whole, fraction)) => {
            only_digits(whole.as_str()) && only_digits(fraction.as_str()) && (
            !whole.as_str().is_empty() || !fraction.as_str().is_empty())
        },
        None => !s.is_empty() && only_digits(s),
    }
}

pub fn is_float_literal(s: &str) -> (r: bool)
    ensures
        r == float_literal(s@),
{
    let plain = without_sign(s);
    let body = to_lower(plain.as_str());
    let b = body.as_str();
    if same(b, "inf") || same(b, "infinity") || same(b, "nan") {
        return true;
    }
    match cut(b, 'e') {
        Some((head, exponent)) => {
            let digits = without_sign(exponent.as_str());
            is_mantissa(head.as_str()) && !digits.as_str().is_empty() && only_digits(
                digits.as_str(),
            )
        },
        None => is_mantissa(b),
    }
}

// ---------------------------------------------------------------------------
// Escaping
// ---------------------------------------------------------------------------

/// A character that no document holds: a control character other than a tab or a
/// line end, or one of the two noncharacters that XML 1.0 cannot represent.
pub open spec fn vanishes(c: char) -> bool {
    c != '\t' && c != '\n' && c != '\r' && ((c as int) < 0x20 || 0x7f <= (c as int) <= 0x9f || (
    c as int) == 0xfffe || (c as int) == 0xffff)
}

/// A character that XML 1.0 can represent.
pub open spec fn representable(c: char) -> bool {
    let n = c as int;
    ||| n == 0x9 || n == 0xa || n == 0xd
    ||| 0x20 <= n <= 0xd7ff
    ||| 0xe000 <= n <= 0xfffd
    ||| 0x10000 <= n <= 0x10ffff
}

/// What a character becomes: the five markup characters become entities, and
/// what no document holds vanishes.
pub open spec fn escape_char(c: char) -> Seq<char> {
    if c == '&' {
        "&amp;"@
    } else if c == '<' {
        "&lt;"@
    } else if c == '>' {
        "&gt;"@
    } else if c == '"' {
        "&quot;"@
    } else if c == '\'' {
        "&apos;"@
    } else if vanishes(c) {
        Seq::empty()
    } else {
        seq![c]
    }
}

fn drops(c: char) -> (r: bool)
    ensures
        r == vanishes(c),
{
    let n: u32 = c as u32;
    c != '\t' && c != '\n' && c != '\r' && (n < 0x20 || (0x7f <= n && n <= 0x9f) || n == 0xfffe
        || n == 0xffff)
}

pub open spec fn escaped(s: Seq<char>) -> Seq<char>
    decreases s.len(),
{
    if s.len() == 0 {
        s
    } else {
        escaped(s.drop_last()) + escape_char(s.last())
    }
}

/// Escapes a run of text for use in an attribute value or element body.
pub fn escape(input: &str) -> (r: String)
    ensures
        r@ == escaped(input@),
{
    let cs = chars(input);
    let mut out = String::new();
    let mut i: usize = 0;
    assert(cs@.take(0) =~= Seq::empty());
    while i < cs.len()
        invariant
            i <= cs@.len(),
            out@ == escaped(cs@.take(i as int)),
        decreases cs@.len() - i,
    {
        let c: char = cs[i];
        let ghost before = out@;
        assert(cs@.take(i as int + 1).drop_last() =~= cs@.take(i as int));
        if c == '&' {
            out.append("&amp;");
        } else if c == '<' {
            out.append("&lt;");
        } else if c == '>' {
            out.append("&gt;");
        } else if c == '"' {
            out.append("&quot;");
        } else if c == '\'' {
            out.append("&apos;");
        } else if !drops(c) {
            out.push(c);
        }
        assert(out@ =~= before + escape_char(c));
        i = i + 1;
    }
    assert(cs@.take(i as int) =~= cs@);
    out
}

/// A character that can stand in an attribute value or element body as it is.
pub open spec fn harmless(c: char) -> bool {
    c != '<' && c != '>' && c != '"' && c != '\'' && !vanishes(c)
}

proof fn the_rest_is_representable(c: char)
    requires
        !vanishes(c),
    ensures
        representable(c),
{
}

/// Escaped text holds no markup and no control character, and nothing that XML
/// 1.0 cannot represent.
pub proof fn escaped_text_is_harmless(s: Seq<char>)
    ensures
        forall|i: int|
            0 <= i < escaped(s).len() ==> harmless(#[trigger] escaped(s)[i]) && representable(
                escaped(s)[i],
            ),
    decreases s.len(),
{
    if s.len() > 0 {
        escaped_text_is_harmless(s.drop_last());
        reveal_strlit("&amp;");
        reveal_strlit("&lt;");
        reveal_strlit("&gt;");
        reveal_strlit("&quot;");
        reveal_strlit("&apos;");
        let tail = escape_char(s.last());
        assert forall|i: int| 0 <= i < tail.len() implies harmless(#[trigger] tail[i]) by {}
        let head = escaped(s.drop_last());
        assert forall|i: int| 0 <= i < escaped(s).len() implies harmless(
            #[trigger] escaped(s)[i],
        ) && representable(escaped(s)[i]) by {
            if i < head.len() {
                assert(escaped(s)[i] == head[i]);
            } else {
                assert(escaped(s)[i] == tail[i - head.len()]);
            }
            the_rest_is_representable(escaped(s)[i]);
        }
    }
}

/// Escaping goes character by character: what is escaped in parts is escaped as a
/// whole.
pub proof fn escaping_parts_is_escaping_the_whole(s: Seq<char>, t: Seq<char>)
    ensures
        escaped(s + t) == escaped(s) + escaped(t),
    decreases t.len(),
{
    if t.len() == 0 {
        assert(s + t =~= s);
        assert(escaped(s) + escaped(t) =~= escaped(s));
    } else {
        escaping_parts_is_escaping_the_whole(s, t.drop_last());
        assert((s + t).drop_last() =~= s + t.drop_last());
        assert(escaped(s + t) =~= escaped(s) + escaped(t));
    }
}

/// The entity that the text begins with: the character it stands for, and its
/// length.
pub open spec fn entity_at_start(s: Seq<char>) -> Option<(char, int)> {
    if starts_with(s, "&amp;"@) {
        Some(('&', 5))
    } else if starts_with(s, "&lt;"@) {
        Some(('<', 4))
    } else if starts_with(s, "&gt;"@) {
        Some(('>', 4))
    } else if starts_with(s, "&quot;"@) {
        Some(('"', 6))
    } else if starts_with(s, "&apos;"@) {
        Some(('\'', 6))
    } else {
        None
    }
}

/// The text with each of the five entities replaced by its character.
pub open spec fn unescaped(s: Seq<char>) -> Seq<char>
    decreases s.len(),
{
    if s.len() == 0 {
        s
    } else {
        match entity_at_start(s) {
            Some((c, n)) => if n <= s.len() {
                seq![c] + unescaped(s.skip(n))
            } else {
                s
            },
            None => seq![s[0]] + unescaped(s.skip(1)),
        }
    }
}

/// What the escape of a character begins with.
proof fn escaped_char_is_told(c: char, rest: Seq<char>)
    ensures
        c == '&' || c == '<' || c == '>' || c == '"' || c == '\'' ==> entity_at_start(
            escape_char(c) + rest,
        ) == Some((c, escape_char(c).len() as int)),
        c != '&' && c != '<' && c != '>' && c != '"' && c != '\'' && !vanishes(c)
            ==> entity_at_start(escape_char(c) + rest) is None,
{
    reveal_strlit("&amp;");
    reveal_strlit("&lt;");
    reveal_strlit("&gt;");
    reveal_strlit("&quot;");
    reveal_strlit("&apos;");
    let whole = escape_char(c) + rest;
    if c == '&' || c == '<' || c == '>' || c == '"' || c == '\'' {
        let e = escape_char(c);
        assert(whole.take(e.len() as int) =~= e);
        if starts_with(whole, "&amp;"@) {
            assert(whole.take(5)[1] == 'a' && whole.take(5)[2] == 'm');
        }
        if starts_with(whole, "&lt;"@) {
            assert(whole.take(4)[1] == 'l');
        }
        if starts_with(whole, "&gt;"@) {
            assert(whole.take(4)[1] == 'g');
        }
        if starts_with(whole, "&quot;"@) {
            assert(whole.take(6)[1] == 'q');
        }
        if starts_with(whole, "&apos;"@) {
            assert(whole.take(6)[1] == 'a' && whole.take(6)[2] == 'p');
        }
    } else if !vanishes(c) {
        assert(whole[0] == c);
        if whole.len() >= 4 {
            assert(whole.take(4)[0] == c);
        }
        if whole.len() >= 5 {
            assert(whole.take(5)[0] == c);
        }
        if whole.len() >= 6 {
            assert(whole.take(6)[0] == c);
        }
    }
}

/// Replacing the entities in an escaped text gives the text back, without the
/// characters that no document holds.
pub proof fn escapes_can_be_undone(s: Seq<char>)
    ensures
        unescaped(escaped(s)) == shown(s),
    decreases s.len(),
{
    if s.len() > 0 {
        let c = s[0];
        let first = seq![c];
        let tail = s.skip(1);
        assert(first + tail =~= s);
        escaping_parts_is_escaping_the_whole(first, tail);
        shown_together(first, tail);
        escapes_can_be_undone(tail);
        assert(first.drop_last() =~= Seq::empty());
        assert(escaped(first.drop_last()) =~= Seq::empty());
        assert(escaped(first) =~= escape_char(c));
        assert(shown(first.drop_last()) =~= Seq::empty());
        let e = escape_char(c);
        let rest = escaped(tail);
        let whole = escaped(s);
        assert(whole == e + rest);
        escaped_char_is_told(c, rest);
        reveal_strlit("&amp;");
        reveal_strlit("&lt;");
        reveal_strlit("&gt;");
        reveal_strlit("&quot;");
        reveal_strlit("&apos;");
        assert(whole.skip(e.len() as int) =~= rest);
        if vanishes(c) {
            assert(e.len() == 0);
            assert(whole =~= rest);
            assert(shown(first) =~= Seq::empty());
            assert(shown(s) =~= shown(tail));
        } else {
            assert(shown(first) =~= first);
            assert(unescaped(whole) == first + unescaped(rest));
        }
    }
}

/// An ampersand in an escaped text begins one of the five entities.
pub proof fn escaped_ampersands_begin_entities(s: Seq<char>, i: int)
    requires
        0 <= i < escaped(s).len(),
        escaped(s)[i] == '&',
    ensures
        entity_at_start(escaped(s).skip(i)) is Some,
    decreases s.len(),
{
    let c = s[0];
    let first = seq![c];
    let tail = s.skip(1);
    assert(first + tail =~= s);
    escaping_parts_is_escaping_the_whole(first, tail);
    assert(first.drop_last() =~= Seq::empty());
    assert(escaped(first.drop_last()) =~= Seq::empty());
    assert(escaped(first) =~= escape_char(c));
    let e = escape_char(c);
    let rest = escaped(tail);
    let whole = escaped(s);
    assert(whole == e + rest);
    reveal_strlit("&amp;");
    reveal_strlit("&lt;");
    reveal_strlit("&gt;");
    reveal_strlit("&quot;");
    reveal_strlit("&apos;");
    if i < e.len() {
        assert(whole[i] == e[i]);
        assert(i == 0);
        assert(whole.skip(0) =~= whole);
        escaped_char_is_told(c, rest);
    } else {
        assert(whole[i] == rest[i - e.len()]);
        assert(whole.skip(i) =~= rest.skip(i - e.len()));
        escaped_ampersands_begin_entities(tail, i - e.len());
    }
}

// ---------------------------------------------------------------------------
// Writing
// ---------------------------------------------------------------------------

/// Attribute list for [`XmlWriter`].
pub type Attrs<'a> = Vec<(&'a str, String)>;

/// An attribute: name and value.
pub type AttrView = (Seq<char>, Seq<char>);

/// Convenience for building an [`Attrs`] entry.
pub fn attr<'a>(name: &'a str, value: &str) -> (r: (&'a str, String))
    ensures
        r.deep_view() == (name@, value@),
{
    (name, owned(value))
}

/// [`attr`] for a number.
pub fn attr_number(name: &str, value: u64) -> (r: (&str, String))
    ensures
        r.deep_view() == (name@, decimal(value as nat)),
{
    (name, number(value))
}

/// An empty [`Attrs`].
pub fn no_attrs<'a>() -> (r: Attrs<'a>)
    ensures
        r.deep_view() == Seq::<AttrView>::empty(),
{
    let r: Attrs<'a> = Vec::new();
    assert(r.deep_view() =~= Seq::<AttrView>::empty());
    r
}

/// The list with one more attribute.
pub fn and_attr<'a>(attrs: Attrs<'a>, name: &'a str, value: &str) -> (r: Attrs<'a>)
    ensures
        r.deep_view() == attrs.deep_view().push((name@, value@)),
{
    let mut attrs = attrs;
    append_one(&mut attrs, attr(name, value));
    attrs
}

/// The list with one more attribute that holds a number.
pub fn and_number<'a>(attrs: Attrs<'a>, name: &'a str, value: u64) -> (r: Attrs<'a>)
    ensures
        r.deep_view() == attrs.deep_view().push((name@, decimal(value as nat))),
{
    let mut attrs = attrs;
    append_one(&mut attrs, attr_number(name, value));
    attrs
}

/// One line of a document.
pub enum Item {
    /// Text as it is.
    Raw { text: Seq<char> },
    /// A start tag.
    Open { name: Seq<char>, attrs: Seq<AttrView> },
    /// An empty-element tag.
    Empty { name: Seq<char>, attrs: Seq<AttrView> },
    /// An element that holds text.
    Text { name: Seq<char>, attrs: Seq<AttrView>, text: Seq<char> },
    /// An end tag.
    Close { name: Seq<char> },
}

pub open spec fn open_item(name: Seq<char>, attrs: Seq<AttrView>) -> Item {
    Item::Open { name, attrs }
}

pub open spec fn empty_item(name: Seq<char>, attrs: Seq<AttrView>) -> Item {
    Item::Empty { name, attrs }
}

pub open spec fn text_item(name: Seq<char>, text: Seq<char>) -> Item {
    Item::Text { name, attrs: Seq::empty(), text }
}

pub open spec fn close_item(name: Seq<char>) -> Item {
    Item::Close { name }
}

/// An element that holds text, where there is one.
pub open spec fn opt_text_items(name: Seq<char>, text: Option<Seq<char>>) -> Seq<Item> {
    match text {
        Some(t) => seq![text_item(name, t)],
        None => Seq::empty(),
    }
}

/// What an XML writer gives back.
pub open spec fn text_result(r: Result<String, Error>) -> Result<Seq<char>, ErrorView> {
    match r {
        Ok(text) => Ok(text@),
        Err(e) => Err(e.deep_view()),
    }
}

/// How deep the line behind these stands.
pub open spec fn depth_after(items: Seq<Item>) -> nat
    decreases items.len(),
{
    if items.len() == 0 {
        0
    } else {
        let before = depth_after(items.drop_last());
        match items.last() {
            Item::Open { .. } => before + 1,
            Item::Close { .. } => if before > 0 {
                (before - 1) as nat
            } else {
                0
            },
            _ => before,
        }
    }
}

pub open spec fn indentation(depth: nat) -> Seq<char>
    decreases depth,
{
    if depth == 0 {
        Seq::empty()
    } else {
        indentation((depth - 1) as nat) + "  "@
    }
}

pub open spec fn attrs_text(attrs: Seq<AttrView>) -> Seq<char>
    decreases attrs.len(),
{
    if attrs.len() == 0 {
        Seq::empty()
    } else {
        attrs_text(attrs.drop_last()) + " "@ + attrs.last().0 + "=\""@ + escaped(attrs.last().1)
            + "\""@
    }
}

/// The text of one line that stands behind `before`.
pub open spec fn line_text(before: Seq<Item>, item: Item) -> Seq<char> {
    let depth = depth_after(before);
    match item {
        Item::Raw { text } => indentation(depth) + text + "\n"@,
        Item::Open { name, attrs } => indentation(depth) + "<"@ + name + attrs_text(attrs)
            + ">\n"@,
        Item::Empty { name, attrs } => indentation(depth) + "<"@ + name + attrs_text(attrs)
            + "/>\n"@,
        Item::Text { name, attrs, text } => indentation(depth) + "<"@ + name + attrs_text(attrs)
            + ">"@ + escaped(text) + "</"@ + name + ">\n"@,
        Item::Close { name } => indentation(depth_after(before.push(item))) + "</"@ + name
            + ">\n"@,
    }
}

/// The text of a document.
pub open spec fn rendered(items: Seq<Item>) -> Seq<char>
    decreases items.len(),
{
    if items.len() == 0 {
        Seq::empty()
    } else {
        rendered(items.drop_last()) + line_text(items.drop_last(), items.last())
    }
}

proof fn rendered_push(items: Seq<Item>, item: Item)
    ensures
        rendered(items.push(item)) == rendered(items) + line_text(items, item),
        depth_after(items.push(item)) == match item {
            Item::Open { .. } => depth_after(items) + 1,
            Item::Close { .. } => if depth_after(items) > 0 {
                (depth_after(items) - 1) as nat
            } else {
                0
            },
            _ => depth_after(items),
        },
{
    assert(items.push(item).drop_last() =~= items);
}

/// Minimal indenting XML writer.
pub struct XmlWriter {
    inner: String,
    /// One entry per open element.
    open: Vec<bool>,
    items: Ghost<Seq<Item>>,
}

impl View for XmlWriter {
    type V = Seq<Item>;

    /// The lines written so far.
    closed spec fn view(&self) -> Seq<Item> {
        self.items@
    }
}

impl XmlWriter {
    /// The text written so far is that of the lines written so far.
    pub closed spec fn wf(self) -> bool {
        &&& self.inner@ == rendered(self.items@)
        &&& self.open@.len() == depth_after(self.items@)
    }

    pub fn new() -> (r: Self)
        ensures
            r.wf(),
            r@ == Seq::<Item>::empty(),
    {
        XmlWriter { inner: String::new(), open: Vec::new(), items: Ghost(Seq::empty()) }
    }

    pub fn declaration(&mut self)
        requires
            old(self).wf(),
        ensures
            final(self).wf(),
            final(self)@ == old(self)@.push(declaration_item()),
    {
        self.line("<?xml version=\"1.0\" encoding=\"UTF-8\"?>");
    }

    /// Emits a raw line at the current depth (doctypes, comments).
    pub fn line(&mut self, raw: &str)
        requires
            old(self).wf(),
        ensures
            final(self).wf(),
            final(self)@ == old(self)@.push((Item::Raw { text: raw@ })),
    {
        let ghost before = self.items@;
        self.indent();
        self.inner.append(raw);
        self.inner.append("\n");
        proof {
            let item = Item::Raw { text: raw@ };
            rendered_push(before, item);
            self.items@ = before.push(item);
            assert(self.inner@ =~= rendered(before) + line_text(before, item));
        }
    }

    pub fn open(&mut self, name: &str, attrs: &Attrs)
        requires
            old(self).wf(),
        ensures
            final(self).wf(),
            final(self)@ == old(self)@.push(open_item(name@, attrs.deep_view())),
    {
        let ghost before = self.items@;
        self.indent();
        self.inner.append("<");
        self.inner.append(name);
        self.write_attrs(attrs);
        self.inner.append(">\n");
        self.open.push(true);
        proof {
            let item = open_item(name@, attrs.deep_view());
            rendered_push(before, item);
            self.items@ = before.push(item);
            assert(self.inner@ =~= rendered(before) + line_text(before, item));
        }
    }

    pub fn empty(&mut self, name: &str, attrs: &Attrs)
        requires
            old(self).wf(),
        ensures
            final(self).wf(),
            final(self)@ == old(self)@.push(empty_item(name@, attrs.deep_view())),
    {
        let ghost before = self.items@;
        self.indent();
        self.inner.append("<");
        self.inner.append(name);
        self.write_attrs(attrs);
        self.inner.append("/>\n");
        proof {
            let item = empty_item(name@, attrs.deep_view());
            rendered_push(before, item);
            self.items@ = before.push(item);
            assert(self.inner@ =~= rendered(before) + line_text(before, item));
        }
    }

    /// `<name attrs>escaped text</name>` on a single line.
    pub fn text_element(&mut self, name: &str, attrs: &Attrs, text: &str)
        requires
            old(self).wf(),
        ensures
            final(self).wf(),
            final(self)@ == old(self)@.push(
                (Item::Text { name: name@, attrs: attrs.deep_view(), text: text@ }),
            ),
    {
        let ghost before = self.items@;
        self.indent();
        self.inner.append("<");
        self.inner.append(name);
        self.write_attrs(attrs);
        self.inner.append(">");
        self.inner.append(escape(text).as_str());
        self.inner.append("</");
        self.inner.append(name);
        self.inner.append(">\n");
        proof {
            let item = Item::Text { name: name@, attrs: attrs.deep_view(), text: text@ };
            rendered_push(before, item);
            self.items@ = before.push(item);
            assert(self.inner@ =~= rendered(before) + line_text(before, item));
        }
    }

    /// [`XmlWriter::text_element`] without attributes.
    pub fn text(&mut self, name: &str, text: &str)
        requires
            old(self).wf(),
        ensures
            final(self).wf(),
            final(self)@ == old(self)@.push(text_item(name@, text@)),
    {
        let attrs: Attrs = Vec::new();
        assert(attrs.deep_view() =~= Seq::empty());
        self.text_element(name, &attrs, text);
    }

    /// [`XmlWriter::text`], where there is a text.
    pub fn opt_text(&mut self, name: &str, text: &Option<String>)
        requires
            old(self).wf(),
        ensures
            final(self).wf(),
            final(self)@ == old(self)@ + opt_text_items(name@, text.deep_view()),
    {
        if let Some(t) = text {
            self.text(name, t.as_str());
        }
        assert(self@ =~= old(self)@ + opt_text_items(name@, text.deep_view()));
    }

    /// A start tag without attributes.
    pub fn start(&mut self, name: &str)
        requires
            old(self).wf(),
        ensures
            final(self).wf(),
            final(self)@ == old(self)@.push(open_item(name@, Seq::empty())),
    {
        let attrs: Attrs = Vec::new();
        assert(attrs.deep_view() =~= Seq::empty());
        self.open(name, &attrs);
    }

    pub fn close(&mut self, name: &str)
        requires
            old(self).wf(),
        ensures
            final(self).wf(),
            final(self)@ == old(self)@.push(close_item(name@)),
    {
        let ghost before = self.items@;
        let _ = self.open.pop();
        proof {
            rendered_push(before, close_item(name@));
        }
        self.indent();
        self.inner.append("</");
        self.inner.append(name);
        self.inner.append(">\n");
        proof {
            let item = close_item(name@);
            self.items@ = before.push(item);
            assert(self.inner@ =~= rendered(before) + line_text(before, item));
        }
    }

    /// The document.
    pub fn finish(self) -> (r: String)
        requires
            self.wf(),
        ensures
            r@ == rendered(self@),
    {
        self.inner
    }

    fn write_attrs(&mut self, attrs: &Attrs)
        ensures
            final(self).inner@ == old(self).inner@ + attrs_text(attrs.deep_view()),
            final(self).open == old(self).open,
            final(self).items == old(self).items,
    {
        let ghost start = self.inner@;
        let ghost all = attrs.deep_view();
        let mut i: usize = 0;
        assert(all.take(0) =~= Seq::empty());
        assert(start + attrs_text(all.take(0)) =~= start);
        while i < attrs.len()
            invariant
                i <= attrs@.len(),
                all == attrs.deep_view(),
                self.inner@ == start + attrs_text(all.take(i as int)),
                self.open == old(self).open,
                self.items == old(self).items,
            decreases attrs@.len() - i,
        {
            let ghost before = self.inner@;
            let ghost next = all.take(i as int + 1);
            assert(next.drop_last() =~= all.take(i as int));
            assert(next.last() == all[i as int]);
            self.inner.append(" ");
            self.inner.append(attrs[i].0);
            self.inner.append("=\"");
            self.inner.append(escape(attrs[i].1.as_str()).as_str());
            self.inner.append("\"");
            assert(self.inner@ =~= start + attrs_text(next));
            i = i + 1;
        }
        assert(all.take(i as int) =~= all);
    }

    fn indent(&mut self)
        ensures
            final(self).inner@ == old(self).inner@ + indentation(old(self).open@.len()),
            final(self).open == old(self).open,
            final(self).items == old(self).items,
    {
        let ghost start = self.inner@;
        let mut i: usize = 0;
        assert(start + indentation(0) =~= start);
        while i < self.open.len()
            invariant
                i <= self.open@.len(),
                self.open == old(self).open,
                self.items == old(self).items,
                self.inner@ == start + indentation(i as nat),
            decreases self.open@.len() - i,
        {
            self.inner.append("  ");
            i = i + 1;
            assert(self.inner@ =~= start + indentation(i as nat));
        }
    }
}

pub open spec fn declaration_item() -> Item {
    Item::Raw { text: "<?xml version=\"1.0\" encoding=\"UTF-8\"?>"@ }
}

/// A tag that carries these attributes.
pub open spec fn carries(tag: TagView, attrs: Seq<AttrView>) -> bool {
    forall|i: int| 0 <= i < attrs.len() ==> tag.attr((#[trigger] attrs[i]).0) == Some(attrs[i].1)
}

} // verus!
