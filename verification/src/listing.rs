//! What is shown to the user: the formats there are, and the notices of a
//! conversion.

use vstd::prelude::*;

use crate::error::{Error, ErrorView};
use crate::registry::{category_name, format_table, formats, Category, FormatSpec, FormatSpecView};
use crate::text::{
    chars, concat, concat3, concat4, concat5, join, joined, owned, same, to_upper, uppercase,
};
use crate::value::{append_all, append_one, empty_list, flat, opt_list};
use crate::warn::{NoteKind, NoteView, Warnings};

verus! {

// ---------------------------------------------------------------------------
// Styling
// ---------------------------------------------------------------------------

pub const BOLD: &'static str = "\x1b[1m";

pub const CYAN: &'static str = "\x1b[36m";

pub const YELLOW: &'static str = "\x1b[33m";

pub const YELLOW_BOLD: &'static str = "\x1b[1;33m";

pub const RED_BOLD: &'static str = "\x1b[1;31m";

pub const RESET: &'static str = "\x1b[0m";

/// Whether output is colored.
#[derive(Debug, Clone, Copy, PartialEq, Eq, Structural)]
pub struct Style {
    pub color: bool,
}

impl Style {
    pub open spec fn painted(self, code: Seq<char>, text: Seq<char>) -> Seq<char> {
        if self.color {
            code + text + RESET@
        } else {
            text
        }
    }

    pub fn paint(self, code: &str, text: &str) -> (r: String)
        ensures
            r@ == self.painted(code@, text@),
    {
        if self.color {
            concat3(code, text, RESET)
        } else {
            owned(text)
        }
    }
}

pub open spec fn label_of(kind: NoteKind) -> Seq<char> {
    match kind {
        NoteKind::Lossy => "lossy:"@,
        NoteKind::Degraded => "degraded:"@,
    }
}

pub open spec fn notice_line(note: NoteView, style: Style) -> Seq<char> {
    style.painted(YELLOW_BOLD@, label_of(note.kind)) + " "@ + note.message
}

/// The notices, one line each.
pub fn report_warnings(warnings: &Warnings, style: Style) -> (r: Vec<String>)
    ensures
        r.deep_view() == warnings@.map_values(|n: NoteView| notice_line(n, style)),
{
    let notes = warnings.notes();
    let ghost goal = warnings@.map_values(|n: NoteView| notice_line(n, style));
    let mut out: Vec<String> = empty_list();
    let mut i: usize = 0;
    assert(goal.take(0) =~= out.deep_view());
    while i < notes.len()
        invariant
            i <= notes@.len(),
            notes.deep_view() == warnings@,
            goal == warnings@.map_values(|n: NoteView| notice_line(n, style)),
            out.deep_view() == goal.take(i as int),
        decreases notes@.len() - i,
    {
        let note = &notes[i];
        assert(note.deep_view() == warnings@[i as int]);
        let line = concat3(
            style.paint(YELLOW_BOLD, note.kind.label()).as_str(),
            " ",
            note.message.as_str(),
        );
        append_one(&mut out, line);
        i = i + 1;
        assert(out.deep_view() =~= goal.take(i as int));
    }
    assert(goal.take(i as int) =~= goal);
    out
}

/// The line that says why a run failed.
pub fn error_line(error: &Error, style: Style) -> (r: String)
    ensures
        r@ == style.painted(RED_BOLD@, "error:"@) + " "@ + error.deep_view().text(),
{
    concat3(style.paint(RED_BOLD, "error:").as_str(), " ", error.message().as_str())
}

// ---------------------------------------------------------------------------
// Columns
// ---------------------------------------------------------------------------

pub open spec fn spaces(n: nat) -> Seq<char> {
    Seq::new(n, |i: int| ' ')
}

/// The text, filled up with spaces to a width.
pub open spec fn padded(text: Seq<char>, width: nat) -> Seq<char> {
    if text.len() < width {
        text + spaces((width - text.len()) as nat)
    } else {
        text
    }
}

fn pad(text: &str, width: usize) -> (r: String)
    ensures
        r@ == padded(text@, width as nat),
{
    let len = chars(text).len();
    let mut out = owned(text);
    let mut i: usize = len;
    assert(out@ =~= text@ + spaces(0));
    while i < width
        invariant
            len == text@.len(),
            len <= i,
            i <= width || i == len,
            out@ == text@ + spaces((i - len) as nat),
        decreases width - i,
    {
        out.append(" ");
        i = i + 1;
        proof {
            reveal_strlit(" ");
            assert(out@ =~= text@ + spaces((i - len) as nat));
        }
    }
    proof {
        assert(out@ =~= padded(text@, width as nat));
    }
    out
}

/// The length of the longest format id.
pub open spec fn widest(table: Seq<FormatSpecView>) -> nat
    decreases table.len(),
{
    if table.len() == 0 {
        0
    } else {
        let before = widest(table.drop_last());
        if table.last().id.len() > before {
            table.last().id.len()
        } else {
            before
        }
    }
}

fn find_width(table: &Vec<FormatSpec>) -> (r: usize)
    ensures
        r == widest(table.deep_view()),
{
    let ghost all = table.deep_view();
    let mut width: usize = 0;
    let mut i: usize = 0;
    assert(all.take(0) =~= Seq::empty());
    while i < table.len()
        invariant
            i <= table@.len(),
            all == table.deep_view(),
            width == widest(all.take(i as int)),
        decreases table@.len() - i,
    {
        assert(all.take(i as int + 1).drop_last() =~= all.take(i as int));
        let len = chars(table[i].id).len();
        if len > width {
            width = len;
        }
        i = i + 1;
    }
    assert(all.take(i as int) =~= all);
    width
}

// ---------------------------------------------------------------------------
// One format
// ---------------------------------------------------------------------------

pub open spec fn capability(format: FormatSpecView) -> Seq<char> {
    match (format.read is Some, format.write is Some) {
        (true, true) => "rw"@,
        (true, false) => "r-"@,
        (false, true) => "-w"@,
        (false, false) => "--"@,
    }
}

/// The names of the other categories of a format.
pub open spec fn other_categories(all: Seq<Category>, category: Category) -> Seq<Seq<char>>
    decreases all.len(),
{
    if all.len() == 0 {
        Seq::empty()
    } else {
        let before = other_categories(all.drop_last(), category);
        if all.last() == category {
            before
        } else {
            before.push(category_name(all.last()))
        }
    }
}

pub open spec fn version_text(version: Seq<char>, default: Seq<char>) -> Seq<char> {
    if version == default {
        version + " (default)"@
    } else {
        version
    }
}

/// What stands before a line that belongs to the format above it.
pub open spec fn margin(width: nat) -> Seq<char> {
    "  "@ + spaces(width) + "      "@
}

pub open spec fn headline(format: FormatSpecView, style: Style, width: nat) -> Seq<char> {
    "  "@ + padded(style.painted(CYAN@, format.id), width) + "  "@ + capability(format) + "  "@
        + format.description
}

/// A format in several categories is listed under each, and says so.
pub open spec fn category_lines(
    format: FormatSpecView,
    category: Category,
    width: nat,
) -> Seq<Seq<char>> {
    let others = other_categories(format.categories, category);
    if others.len() == 0 {
        Seq::empty()
    } else {
        seq![margin(width) + "also a "@ + join(others, " and a "@) + " format"@]
    }
}

pub open spec fn version_lines(format: FormatSpecView, width: nat) -> Seq<Seq<char>> {
    match format.default_version {
        None => Seq::empty(),
        Some(default) => seq![
            margin(width) + "versions: "@ + join(
                format.versions.map_values(|v: Seq<char>| version_text(v, default)),
                ", "@,
            ) + " — pin one with `"@ + format.id + "@<version>`"@,
        ],
    }
}

pub open spec fn alias_lines(format: FormatSpecView, width: nat) -> Seq<Seq<char>> {
    if format.aliases.len() == 0 {
        Seq::empty()
    } else {
        seq![margin(width) + "aliases: "@ + join(format.aliases, ", "@)]
    }
}

pub open spec fn note_line(
    note: (NoteKind, Seq<char>),
    style: Style,
    width: nat,
) -> Seq<char> {
    margin(width) + style.painted(YELLOW@, label_of(note.0)) + " "@ + note.1
}

/// The lines of one format under one of its categories.
pub open spec fn format_lines(
    format: FormatSpecView,
    category: Category,
    style: Style,
    width: nat,
) -> Seq<Seq<char>> {
    seq![headline(format, style, width)] + category_lines(format, category, width)
        + version_lines(format, width) + alias_lines(format, width)
        + format.write_notes.map_values(
        |n: (NoteKind, Seq<char>)| note_line(n, style, width),
    )
}

fn capability_of(format: &FormatSpec) -> (r: &'static str)
    ensures
        r@ == capability(format.deep_view()),
{
    match (format.read.is_some(), format.write.is_some()) {
        (true, true) => "rw",
        (true, false) => "r-",
        (false, true) => "-w",
        (false, false) => "--",
    }
}

fn other_names(all: &Vec<Category>, category: Category) -> (r: Vec<String>)
    ensures
        r.deep_view() == other_categories(all@, category),
{
    let mut out: Vec<String> = empty_list();
    let mut i: usize = 0;
    assert(all@.take(0) =~= Seq::empty());
    while i < all.len()
        invariant
            i <= all@.len(),
            out.deep_view() == other_categories(all@.take(i as int), category),
        decreases all@.len() - i,
    {
        assert(all@.take(i as int + 1).drop_last() =~= all@.take(i as int));
        if all[i] != category {
            append_one(&mut out, owned(all[i].as_str()));
        }
        i = i + 1;
    }
    assert(all@.take(i as int) =~= all@);
    out
}

fn owned_list(list: &Vec<&'static str>) -> (r: Vec<String>)
    ensures
        r.deep_view() == list.deep_view(),
{
    let mut out: Vec<String> = empty_list();
    let mut i: usize = 0;
    assert(out.deep_view() =~= list.deep_view().take(0));
    while i < list.len()
        invariant
            i <= list@.len(),
            out.deep_view() == list.deep_view().take(i as int),
        decreases list@.len() - i,
    {
        append_one(&mut out, owned(list[i]));
        i = i + 1;
        assert(out.deep_view() =~= list.deep_view().take(i as int));
    }
    assert(list.deep_view().take(i as int) =~= list.deep_view());
    out
}

fn version_names(versions: &Vec<&'static str>, default: &str) -> (r: Vec<String>)
    ensures
        r.deep_view() == versions.deep_view().map_values(
            |v: Seq<char>| version_text(v, default@),
        ),
{
    let ghost goal = versions.deep_view().map_values(|v: Seq<char>| version_text(v, default@));
    let mut out: Vec<String> = empty_list();
    let mut i: usize = 0;
    assert(out.deep_view() =~= goal.take(0));
    while i < versions.len()
        invariant
            i <= versions@.len(),
            goal == versions.deep_view().map_values(
                |v: Seq<char>| version_text(v, default@),
            ),
            out.deep_view() == goal.take(i as int),
        decreases versions@.len() - i,
    {
        let text = if same(versions[i], default) {
            concat(versions[i], " (default)")
        } else {
            owned(versions[i])
        };
        append_one(&mut out, text);
        i = i + 1;
        assert(out.deep_view() =~= goal.take(i as int));
    }
    assert(goal.take(i as int) =~= goal);
    out
}

fn margin_of(width: usize) -> (r: String)
    ensures
        r@ == margin(width as nat),
{
    let fill = pad("", width);
    proof {
        reveal_strlit("");
        assert(fill@ =~= spaces(width as nat));
    }
    concat3("  ", fill.as_str(), "      ")
}

fn list_format(format: &FormatSpec, category: Category, style: Style, width: usize) -> (r: Vec<
    String,
>)
    ensures
        r.deep_view() == format_lines(format.deep_view(), category, style, width as nat),
{
    let ghost view = format.deep_view();
    let ghost w = width as nat;
    let mut out: Vec<String> = empty_list();
    let name = pad(style.paint(CYAN, format.id).as_str(), width);
    let head = concat3("  ", name.as_str(), "  ");
    append_one(
        &mut out,
        concat4(head.as_str(), capability_of(format), "  ", format.description),
    );
    assert(out.deep_view() =~= seq![headline(view, style, w)]);
    let margin = margin_of(width);
    let margin = margin.as_str();
    let others = other_names(&format.categories, category);
    proof {
        assert(format.categories@ =~= view.categories);
    }
    if others.len() > 0 {
        append_one(
            &mut out,
            concat4(margin, "also a ", joined(&others, " and a ").as_str(), " format"),
        );
    }
    assert(out.deep_view() =~= seq![headline(view, style, w)] + category_lines(view, category, w));
    if let Some(default) = format.default_version {
        let versions = version_names(&format.versions, default);
        let line = concat5(
            margin,
            "versions: ",
            joined(&versions, ", ").as_str(),
            " — pin one with `",
            format.id,
        );
        append_one(&mut out, concat(line.as_str(), "@<version>`"));
    }
    assert(out.deep_view() =~= seq![headline(view, style, w)] + category_lines(view, category, w)
        + version_lines(view, w));
    if format.aliases.len() > 0 {
        let aliases = owned_list(&format.aliases);
        append_one(&mut out, concat3(margin, "aliases: ", joined(&aliases, ", ").as_str()));
    }
    let ghost start = out.deep_view();
    assert(start =~= seq![headline(view, style, w)] + category_lines(view, category, w)
        + version_lines(view, w) + alias_lines(view, w));
    let ghost goal = view.write_notes.map_values(
        |n: (NoteKind, Seq<char>)| note_line(n, style, w),
    );
    let mut i: usize = 0;
    assert(start + goal.take(0) =~= start);
    while i < format.write_notes.len()
        invariant
            i <= format.write_notes@.len(),
            margin@ == self::margin(width as nat),
            view == format.deep_view(),
            w == width as nat,
            goal == view.write_notes.map_values(
                |n: (NoteKind, Seq<char>)| note_line(n, style, w),
            ),
            out.deep_view() == start + goal.take(i as int),
        decreases format.write_notes@.len() - i,
    {
        let (kind, note) = format.write_notes[i];
        assert(view.write_notes[i as int] == (kind, note@));
        let label = style.paint(YELLOW, kind.label());
        append_one(&mut out, concat4(margin, label.as_str(), " ", note));
        i = i + 1;
        assert(out.deep_view() =~= start + goal.take(i as int));
    }
    assert(goal.take(i as int) =~= goal);
    assert(out.deep_view() =~= format_lines(view, category, style, w));
    out
}

// ---------------------------------------------------------------------------
// The listing
// ---------------------------------------------------------------------------

/// Whether a category is wanted and has a format.
pub open spec fn is_listed(category: Category, wanted: Option<Category>) -> bool {
    (wanted is None || wanted == Some(category)) && exists|i: int|
        0 <= i < format_table().len() && (#[trigger] format_table()[i]).is_in(category)
}

pub open spec fn listed_if(category: Category, wanted: Option<Category>) -> Option<Category> {
    if is_listed(category, wanted) {
        Some(category)
    } else {
        None
    }
}

pub open spec fn every_category() -> Seq<Category> {
    seq![
        Category::Coverage,
        Category::Tests,
        Category::Quality,
        Category::Security,
        Category::Sbom,
        Category::Accessibility,
        Category::Performance,
    ]
}

pub open spec fn listed(wanted: Option<Category>) -> Seq<Category> {
    flat(every_category(), |c: Category| opt_list(listed_if(c, wanted)))
}

/// The lines of the formats of a category.
pub open spec fn member_lines(
    format: FormatSpecView,
    category: Category,
    style: Style,
) -> Seq<Seq<char>> {
    if format.is_in(category) {
        format_lines(format, category, style, widest(format_table()))
    } else {
        Seq::empty()
    }
}

pub open spec fn section(category: Category, style: Style) -> Seq<Seq<char>> {
    seq![style.painted(BOLD@, uppercase(category_name(category)))] + flat(
        format_table(),
        |f: FormatSpecView| member_lines(f, category, style),
    )
}

/// The sections, an empty line between two.
pub open spec fn sections(categories: Seq<Category>, style: Style) -> Seq<Seq<char>>
    decreases categories.len(),
{
    if categories.len() == 0 {
        Seq::empty()
    } else {
        sections(categories.drop_last(), style) + (if categories.len() > 1 {
            seq![Seq::empty()]
        } else {
            Seq::empty()
        }) + section(categories.last(), style)
    }
}

pub open spec fn preamble() -> Seq<Seq<char>> {
    seq![
        "Any format readable in a category can be converted to any writable format of the same"@,
        "category. `r` = can be read (input), `w` = can be written (output)."@,
        "A versioned format accepts a `@<version>` suffix, e.g. `-t sarif@2.1.0`."@,
        ""@,
    ]
}

/// The lines of the listing, or why there is none.
pub open spec fn listing(wanted: Option<Category>, style: Style) -> Result<
    Seq<Seq<char>>,
    ErrorView,
> {
    if listed(wanted).len() == 0 {
        Err(
            ErrorView::Config(
                "no format in category '"@ + (match wanted {
                    Some(c) => category_name(c),
                    None => Seq::empty(),
                }) + "'"@,
            ),
        )
    } else {
        Ok(preamble() + sections(listed(wanted), style))
    }
}

fn has_format(table: &Vec<FormatSpec>, category: Category) -> (r: bool)
    ensures
        r == exists|i: int|
            0 <= i < table.deep_view().len() && (#[trigger] table.deep_view()[i]).is_in(category),
{
    let mut i: usize = 0;
    while i < table.len()
        invariant
            i <= table@.len(),
            forall|j: int| 0 <= j < i ==> !(#[trigger] table.deep_view()[j]).is_in(category),
        decreases table@.len() - i,
    {
        if table[i].is_in(category) {
            assert(table.deep_view()[i as int].is_in(category));
            return true;
        }
        i = i + 1;
    }
    false
}

fn find_listed(table: &Vec<FormatSpec>, wanted: Option<Category>) -> (r: Vec<Category>)
    requires
        table.deep_view() == format_table(),
    ensures
        r@ == listed(wanted),
{
    let all = Category::all();
    assert(all@ =~= every_category());
    let mut out: Vec<Category> = Vec::new();
    let mut i: usize = 0;
    assert(all@.take(0) =~= Seq::empty());
    assert(out@ =~= Seq::empty());
    while i < all.len()
        invariant
            i <= all@.len(),
            all@ == every_category(),
            table.deep_view() == format_table(),
            out@ == flat(all@.take(i as int), |c: Category| opt_list(listed_if(c, wanted))),
        decreases all@.len() - i,
    {
        assert(all@.take(i as int + 1).drop_last() =~= all@.take(i as int));
        let category = all[i];
        let ghost before = out@;
        let fits = match wanted {
            Some(c) => c == category,
            None => true,
        };
        if fits && has_format(table, category) {
            out.push(category);
        }
        i = i + 1;
        assert(out@ =~= before + opt_list(listed_if(category, wanted)));
    }
    assert(all@.take(i as int) =~= all@);
    out
}

fn list_section(
    table: &Vec<FormatSpec>,
    category: Category,
    style: Style,
    width: usize,
) -> (r: Vec<String>)
    requires
        table.deep_view() == format_table(),
        width == widest(format_table()),
    ensures
        r.deep_view() == section(category, style),
{
    let ghost all = table.deep_view();
    let mut out: Vec<String> = empty_list();
    let title = to_upper(category.as_str());
    append_one(&mut out, style.paint(BOLD, title.as_str()));
    let ghost start = out.deep_view();
    let mut i: usize = 0;
    assert(all.take(0) =~= Seq::empty());
    assert(start + Seq::<Seq<char>>::empty() =~= start);
    while i < table.len()
        invariant
            i <= table@.len(),
            all == table.deep_view(),
            width == widest(format_table()),
            out.deep_view() == start + flat(
                all.take(i as int),
                |f: FormatSpecView| member_lines(f, category, style),
            ),
        decreases table@.len() - i,
    {
        assert(all.take(i as int + 1).drop_last() =~= all.take(i as int));
        if table[i].is_in(category) {
            append_all(&mut out, list_format(&table[i], category, style, width));
        }
        i = i + 1;
        assert(out.deep_view() =~= start + flat(
            all.take(i as int),
            |f: FormatSpecView| member_lines(f, category, style),
        ));
    }
    assert(all.take(i as int) =~= all);
    assert(out.deep_view() =~= section(category, style));
    out
}

/// The listing of the formats, all of them or those of one category.
pub fn list_formats(wanted: Option<Category>, style: Style) -> (r: Result<Vec<String>, Error>)
    ensures
        match r {
            Ok(lines) => listing(wanted, style) == Ok::<Seq<Seq<char>>, ErrorView>(
                lines.deep_view(),
            ),
            Err(e) => listing(wanted, style) == Err::<Seq<Seq<char>>, ErrorView>(e.deep_view()),
        },
{
    let table = formats();
    let categories = find_listed(&table, wanted);
    if categories.len() == 0 {
        let name = match wanted {
            Some(c) => c.as_str(),
            None => "",
        };
        proof {
            reveal_strlit("");
            assert(wanted is None ==> name@ =~= Seq::empty());
        }
        return Err(Error::config(concat3("no format in category '", name, "'").as_str()));
    }
    let width = find_width(&table);
    let mut out: Vec<String> = empty_list();
    append_one(
        &mut out,
        owned(
            "Any format readable in a category can be converted to any writable format of the same",
        ),
    );
    append_one(
        &mut out,
        owned("category. `r` = can be read (input), `w` = can be written (output)."),
    );
    append_one(
        &mut out,
        owned("A versioned format accepts a `@<version>` suffix, e.g. `-t sarif@2.1.0`."),
    );
    append_one(&mut out, owned(""));
    assert(out.deep_view() =~= preamble());
    let ghost start = out.deep_view();
    let ghost all = categories@;
    let mut i: usize = 0;
    assert(all.take(0) =~= Seq::empty());
    assert(start + Seq::<Seq<char>>::empty() =~= start);
    while i < categories.len()
        invariant
            i <= categories@.len(),
            all == categories@,
            table.deep_view() == format_table(),
            width == widest(format_table()),
            out.deep_view() == start + sections(all.take(i as int), style),
        decreases categories@.len() - i,
    {
        assert(all.take(i as int + 1).drop_last() =~= all.take(i as int));
        let ghost before = out.deep_view();
        if i > 0 {
            append_one(&mut out, String::new());
        }
        append_all(&mut out, list_section(&table, categories[i], style, width));
        i = i + 1;
        assert(out.deep_view() =~= start + sections(all.take(i as int), style));
    }
    assert(all.take(i as int) =~= all);
    Ok(out)
}

// ---------------------------------------------------------------------------
// Laws
// ---------------------------------------------------------------------------

proof fn flat_keeps_the_first<A, B>(s: Seq<A>, f: spec_fn(A) -> Seq<B>)
    requires
        s.len() > 0,
    ensures
        flat(s, f).len() >= f(s[0]).len(),
    decreases s.len(),
{
    if s.len() > 1 {
        flat_keeps_the_first(s.drop_last(), f);
    } else {
        assert(s.drop_last() =~= Seq::empty());
    }
}

/// There is always something to list when no category is asked for.
pub proof fn the_full_listing_is_never_refused(style: Style)
    ensures
        listing(None, style) is Ok,
{
    let f = |c: Category| opt_list(listed_if(c, None));
    assert(format_table()[0].categories[0] == Category::Coverage);
    assert(format_table()[0].is_in(Category::Coverage));
    assert(is_listed(Category::Coverage, None));
    assert(every_category()[0] == Category::Coverage);
    flat_keeps_the_first(every_category(), f);
}

} // verus!
