//! Input format detection for `--input-format auto`.
//!
//! Ambiguity is a failure, not a guess: a wrong report is worse than a question.

use vstd::prelude::*;

use crate::error::{Error, ErrorView};
use crate::registry::{
    every_name_leads_to_its_format, find, format_table, found, names_of, FormatSpec, FormatSpecView,
};
use crate::text::{
    begins, chars, concat3, concat5, contains, find as find_char, find_text, first, first_props,
    from_utf8_lossy, has, is_white, last, line_list, lines, matches_at, owned, position_of, rcut,
    same, slice, starts_with, text_in, trim, trimmed, white,
};

verus! {

/// How much of the input is inspected. Enough to reach the discriminating keys
/// of every supported format, small enough to stay cheap.
pub const SNIFF_LIMIT: usize = 65536;

/// What the content says about its format.
#[derive(Debug)]
pub enum Sniffed {
    /// A format by its id.
    Known(&'static str),
    /// A format that is recognized but not supported yet.
    Planned { name: &'static str, category: &'static str },
    /// Nothing that could be relied upon.
    Unknown,
}

/// The content of a [`Sniffed`].
pub enum SniffedView {
    Known(Seq<char>),
    Planned { name: Seq<char>, category: Seq<char> },
    Unknown,
}

impl DeepView for Sniffed {
    type V = SniffedView;

    open spec fn deep_view(&self) -> SniffedView {
        match *self {
            Sniffed::Known(id) => SniffedView::Known(id@),
            Sniffed::Planned { name, category } => SniffedView::Planned {
                name: name@,
                category: category@,
            },
            Sniffed::Unknown => SniffedView::Unknown,
        }
    }
}

// ---------------------------------------------------------------------------
// XML
// ---------------------------------------------------------------------------

/// Characters up to the first one that ends a tag's name.
pub open spec fn tag_name(s: Seq<char>) -> Seq<char>
    decreases s.len(),
{
    if s.len() == 0 || is_white(s[0]) || s[0] == '>' || s[0] == '/' {
        Seq::empty()
    } else {
        seq![s[0]] + tag_name(s.skip(1))
    }
}

/// What stands behind the last `:`.
pub open spec fn local_part(name: Seq<char>) -> Seq<char> {
    name.skip(last(name, ':') + 1)
}

/// Where a document type declaration ends, seen from behind its `<`: at the
/// first `>`, or, when an internal subset opens before that, at the first `>`
/// behind the subset.
pub open spec fn doctype_end(rest: Seq<char>) -> Option<int> {
    let open = first(rest, '[');
    if open < rest.len() && first(rest.take(open), '>') == open {
        let close = open + first(rest.skip(open), ']');
        if close < rest.len() {
            let end = close + first(rest.skip(close), '>');
            if end < rest.len() {
                Some(end)
            } else {
                None
            }
        } else {
            None
        }
    } else if first(rest, '>') < rest.len() {
        Some(first(rest, '>'))
    } else {
        None
    }
}

/// How far the markup behind a `<` reaches that is no element: declarations,
/// processing instructions, comments and document types. `None` for an element.
pub open spec fn skipped(rest: Seq<char>) -> Option<int> {
    if rest.len() > 0 && rest[0] == '?' {
        Some(
            match find_text(rest.skip(1), "?>"@) {
                Some(i) => i + 2,
                None => rest.len() as int,
            },
        )
    } else if starts_with(rest, "!--"@) {
        Some(
            match find_text(rest, "-->"@) {
                Some(i) => i + 3,
                None => rest.len() as int,
            },
        )
    } else if rest.len() > 0 && rest[0] == '!' {
        Some(
            match doctype_end(rest) {
                Some(i) => i + 1,
                None => rest.len() as int,
            },
        )
    } else {
        None
    }
}

/// The first real element: its local name and the raw text of its attributes.
pub open spec fn root_tag(text: Seq<char>) -> Option<(Seq<char>, Seq<char>)>
    decreases text.len(),
    via root_tag_decreases
{
    let at = first(text, '<');
    if at >= text.len() {
        None
    } else {
        let rest = text.skip(at + 1);
        match skipped(rest) {
            Some(n) => if 0 <= n <= rest.len() {
                root_tag(rest.skip(n))
            } else {
                None
            },
            None => element_parts(rest),
        }
    }
}

/// The local name and the attribute text of the element whose tag stands here.
pub open spec fn element_parts(rest: Seq<char>) -> Option<(Seq<char>, Seq<char>)> {
    let name = tag_name(rest);
    let local = local_part(name);
    let behind = rest.skip(name.len() as int);
    if local.len() == 0 {
        None
    } else {
        Some((local, behind.take(first(behind, '>'))))
    }
}

#[via_fn]
proof fn root_tag_decreases(text: Seq<char>) {
    first_props(text, '<');
}

proof fn tag_name_props(s: Seq<char>)
    ensures
        tag_name(s).len() <= s.len(),
        tag_name(s) == s.take(tag_name(s).len() as int),
    decreases s.len(),
{
    if !(s.len() == 0 || is_white(s[0]) || s[0] == '>' || s[0] == '/') {
        tag_name_props(s.skip(1));
        assert(tag_name(s) =~= s.take(tag_name(s).len() as int));
    } else {
        assert(s.take(0) =~= Seq::empty());
    }
}

fn name_end(cs: &Vec<char>, from: usize) -> (r: usize)
    requires
        from <= cs@.len(),
    ensures
        from <= r <= cs@.len(),
        tag_name(cs@.skip(from as int)).len() == r - from,
{
    let mut i: usize = from;
    while i < cs.len() && !white(cs[i]) && cs[i] != '>' && cs[i] != '/'
        invariant
            from <= i <= cs@.len(),
            tag_name(cs@.skip(from as int)).len() == (i - from) + tag_name(
                cs@.skip(i as int),
            ).len(),
        decreases cs@.len() - i,
    {
        assert(cs@.skip(i as int).skip(1) =~= cs@.skip(i as int + 1));
        i = i + 1;
    }
    i
}

fn skip_markup(cs: &Vec<char>, start: usize) -> (r: Option<usize>)
    requires
        start <= cs@.len(),
    ensures
        match r {
            Some(next) => start <= next <= cs@.len() && skipped(cs@.skip(start as int)) == Some(
                next - start,
            ),
            None => skipped(cs@.skip(start as int)) is None,
        },
{
    let ghost rest = cs@.skip(start as int);
    proof {
        reveal_strlit("!--");
        reveal_strlit("-->");
        reveal_strlit("?>");
    }
    if start < cs.len() && cs[start] == '?' {
        assert(rest.skip(1) =~= cs@.skip(start as int + 1));
        match position_of(cs, start + 1, &chars("?>")) {
            Some(at) => Some(at + 1),
            None => Some(cs.len()),
        }
    } else {
        if matches_at(cs, start, &chars("!--")) {
            match position_of(cs, start, &chars("-->")) {
                Some(at) => Some(at + 3),
                None => Some(cs.len()),
            }
        } else if start < cs.len() && cs[start] == '!' {
            let open = find_char(cs, start, '[');
            let early = find_char(cs, start, '>');
            proof {
                first_props(rest, '[');
                first_props(rest, '>');
                first_props(rest.take(open - start), '>');
                first_of_take(rest, '>', open - start);
            }
            if open < cs.len() && early >= open {
                assert(rest.skip(open - start) =~= cs@.skip(open as int));
                let close = find_char(cs, open, ']');
                if close < cs.len() {
                    assert(rest.skip(close - start) =~= cs@.skip(close as int));
                    let end = find_char(cs, close, '>');
                    if end < cs.len() {
                        Some(end + 1)
                    } else {
                        Some(cs.len())
                    }
                } else {
                    Some(cs.len())
                }
            } else if early < cs.len() {
                Some(early + 1)
            } else {
                Some(cs.len())
            }
        } else {
            None
        }
    }
}

proof fn first_of_take(s: Seq<char>, c: char, n: int)
    requires
        0 <= n <= s.len(),
    ensures
        first(s.take(n), c) == if first(s, c) < n {
            first(s, c)
        } else {
            n
        },
    decreases n,
{
    if n > 0 && s[0] != c {
        assert(s.take(n).skip(1) =~= s.skip(1).take(n - 1));
        first_of_take(s.skip(1), c, n - 1);
    } else if n == 0 {
        first_props(s, c);
    }
}

fn element_at(cs: &Vec<char>, start: usize) -> (r: Option<(String, String)>)
    requires
        start <= cs@.len(),
    ensures
        r.deep_view() == element_parts(cs@.skip(start as int)),
{
    let ghost rest = cs@.skip(start as int);
    let end = name_end(cs, start);
    let name = slice(cs, start, end);
    proof {
        tag_name_props(rest);
        assert(name@ =~= tag_name(rest));
    }
    let local = match rcut(name.as_str(), ':') {
        Some((_, tail)) => tail,
        None => {
            proof {
                crate::text::last_props(name@, ':');
                assert(name@.skip(0) =~= name@);
            }
            owned(name.as_str())
        },
    };
    if local.as_str().is_empty() {
        return None;
    }
    let close = find_char(cs, end, '>');
    let attributes = slice(cs, end, close);
    proof {
        let behind = rest.skip(end - start);
        assert(behind =~= cs@.skip(end as int));
        assert(attributes@ =~= behind.take(first(behind, '>')));
    }
    Some((local, attributes))
}

fn xml_root_tag(text: &str) -> (r: Option<(String, String)>)
    ensures
        r.deep_view() == root_tag(text@),
{
    let cs = chars(text);
    let mut index: usize = 0;
    assert(cs@.skip(0) =~= cs@);
    loop
        invariant
            cs@ == text@,
            index <= cs@.len(),
            root_tag(text@) == root_tag(cs@.skip(index as int)),
        decreases cs@.len() - index,
    {
        let ghost left = cs@.skip(index as int);
        proof {
            first_props(left, '<');
        }
        let at = find_char(&cs, index, '<');
        if at >= cs.len() {
            return None;
        }
        let start: usize = at + 1;
        let ghost rest = cs@.skip(start as int);
        assert(left.skip(at - index + 1) =~= rest);
        match skip_markup(&cs, start) {
            Some(next) => {
                assert(rest.skip(next - start) =~= cs@.skip(next as int));
                index = next;
            },
            None => {
                return element_at(&cs, start);
            },
        }
    }
}

pub open spec fn planned(name: Seq<char>, category: Seq<char>) -> SniffedView {
    SniffedView::Planned { name, category }
}

/// XML is told by its root element; Cobertura and Clover share theirs, so that
/// the attributes decide between them.
pub open spec fn sniffed_xml(text: Seq<char>) -> SniffedView {
    match root_tag(text) {
        None => SniffedView::Unknown,
        Some((root, attributes)) => {
            if root == "coverage"@ {
                if contains(attributes, "clover="@) {
                    SniffedView::Known("clover"@)
                } else {
                    SniffedView::Known("cobertura"@)
                }
            } else if root == "report"@ {
                SniffedView::Known("jacoco"@)
            } else if root == "testsuite"@ || root == "testsuites"@ {
                SniffedView::Known("junit"@)
            } else if root == "checkstyle"@ {
                SniffedView::Known("checkstyle"@)
            } else if root == "bom"@ {
                planned("CycloneDX XML"@, "sbom"@)
            } else if root == "pmd"@ {
                planned("PMD XML"@, "quality"@)
            } else if root == "BugCollection"@ {
                planned("SpotBugs XML"@, "quality"@)
            } else if root == "coverage-report"@ || root == "CoverageSession"@ {
                planned("OpenCover XML"@, "coverage"@)
            } else if root == "TestRun"@ {
                SniffedView::Known("trx"@)
            } else {
                SniffedView::Unknown
            }
        },
    }
}

pub fn sniff_xml(text: &str) -> (r: Sniffed)
    ensures
        r.deep_view() == sniffed_xml(text@),
{
    match xml_root_tag(text) {
        None => Sniffed::Unknown,
        Some((name, attributes)) => {
            let root = name.as_str();
            if same(root, "coverage") {
                if has(attributes.as_str(), "clover=") {
                    Sniffed::Known("clover")
                } else {
                    Sniffed::Known("cobertura")
                }
            } else if same(root, "report") {
                Sniffed::Known("jacoco")
            } else if same(root, "testsuite") || same(root, "testsuites") {
                Sniffed::Known("junit")
            } else if same(root, "checkstyle") {
                Sniffed::Known("checkstyle")
            } else if same(root, "bom") {
                Sniffed::Planned { name: "CycloneDX XML", category: "sbom" }
            } else if same(root, "pmd") {
                Sniffed::Planned { name: "PMD XML", category: "quality" }
            } else if same(root, "BugCollection") {
                Sniffed::Planned { name: "SpotBugs XML", category: "quality" }
            } else if same(root, "coverage-report") || same(root, "CoverageSession") {
                Sniffed::Planned { name: "OpenCover XML", category: "coverage" }
            } else if same(root, "TestRun") {
                Sniffed::Known("trx")
            } else {
                Sniffed::Unknown
            }
        },
    }
}

// ---------------------------------------------------------------------------
// JSON
// ---------------------------------------------------------------------------

/// JSON objects are told by their keys. A bare array carries no discriminator
/// at all.
pub open spec fn sniffed_json(text: Seq<char>) -> SniffedView {
    if text.len() > 0 && text[0] == '[' {
        SniffedView::Unknown
    } else if contains(text, "\"bomFormat\""@) || (contains(text, "\"specVersion\""@) && contains(
        text,
        "\"components\""@,
    )) {
        planned("CycloneDX JSON"@, "sbom"@)
    } else if contains(text, "\"spdxVersion\""@) || contains(text, "\"SPDXID\""@) {
        planned("SPDX JSON"@, "sbom"@)
    } else if contains(text, "\"runs\""@) && (contains(text, "sarif"@) || contains(
        text,
        "\"tool\""@,
    )) {
        SniffedView::Known("sarif"@)
    } else if contains(text, "\"SchemaVersion\""@) && contains(text, "\"Results\""@) {
        SniffedView::Known("trivy-json"@)
    } else if contains(text, "\"matches\""@) && contains(text, "\"vulnerability\""@) {
        planned("Grype JSON"@, "security"@)
    } else {
        SniffedView::Unknown
    }
}

pub fn sniff_json(text: &str) -> (r: Sniffed)
    ensures
        r.deep_view() == sniffed_json(text@),
{
    let cs = chars(text);
    if cs.len() > 0 && cs[0] == '[' {
        return Sniffed::Unknown;
    }
    if has(text, "\"bomFormat\"") || (has(text, "\"specVersion\"") && has(
        text,
        "\"components\"",
    )) {
        return Sniffed::Planned { name: "CycloneDX JSON", category: "sbom" };
    }
    if has(text, "\"spdxVersion\"") || has(text, "\"SPDXID\"") {
        return Sniffed::Planned { name: "SPDX JSON", category: "sbom" };
    }
    if has(text, "\"runs\"") && (has(text, "sarif") || has(text, "\"tool\"")) {
        return Sniffed::Known("sarif");
    }
    if has(text, "\"SchemaVersion\"") && has(text, "\"Results\"") {
        return Sniffed::Known("trivy-json");
    }
    if has(text, "\"matches\"") && has(text, "\"vulnerability\"") {
        return Sniffed::Planned { name: "Grype JSON", category: "security" };
    }
    Sniffed::Unknown
}

// ---------------------------------------------------------------------------
// Lines
// ---------------------------------------------------------------------------

pub open spec fn sniffed_line(line: Seq<char>) -> SniffedView {
    if starts_with(line, "SF:"@) || starts_with(line, "TN:"@) || line == "end_of_record"@ {
        SniffedView::Known("lcov"@)
    } else if starts_with(line, "SPDXVersion:"@) {
        planned("SPDX tag-value"@, "sbom"@)
    } else if starts_with(line, "mode: "@) {
        SniffedView::Known("go-coverprofile"@)
    } else {
        SniffedView::Unknown
    }
}

/// The first line that says anything.
pub open spec fn sniffed_first(all: Seq<Seq<char>>) -> SniffedView
    decreases all.len(),
{
    if all.len() == 0 {
        SniffedView::Unknown
    } else {
        match sniffed_line(trim(all[0])) {
            SniffedView::Unknown => sniffed_first(all.skip(1)),
            told => told,
        }
    }
}

/// Line formats are told by the first fifty lines.
pub open spec fn sniffed_lines(text: Seq<char>) -> SniffedView {
    let all = lines(text);
    sniffed_first(
        if all.len() > 50 {
            all.take(50)
        } else {
            all
        },
    )
}

pub fn sniff_lines(text: &str) -> (r: Sniffed)
    ensures
        r.deep_view() == sniffed_lines(text@),
{
    let list = line_list(text);
    let limit: usize = if list.len() > 50 {
        50
    } else {
        list.len()
    };
    let ghost all = list.deep_view().take(limit as int);
    proof {
        assert(list.deep_view().take(list@.len() as int) =~= list.deep_view());
        assert(all.skip(0) =~= all);
    }
    let mut i: usize = 0;
    while i < limit
        invariant
            i <= limit <= list@.len(),
            all == list.deep_view().take(limit as int),
            sniffed_lines(text@) == sniffed_first(all.skip(i as int)),
        decreases limit - i,
    {
        assert(all.skip(i as int)[0] == list.deep_view()[i as int]);
        assert(all.skip(i as int).skip(1) =~= all.skip(i as int + 1));
        let trimmed_line = trimmed(list[i].as_str());
        let line = trimmed_line.as_str();
        if begins(line, "SF:") || begins(line, "TN:") || same(line, "end_of_record") {
            return Sniffed::Known("lcov");
        }
        if begins(line, "SPDXVersion:") {
            return Sniffed::Planned { name: "SPDX tag-value", category: "sbom" };
        }
        if begins(line, "mode: ") {
            return Sniffed::Known("go-coverprofile");
        }
        i = i + 1;
    }
    Sniffed::Unknown
}

// ---------------------------------------------------------------------------
// Detection
// ---------------------------------------------------------------------------

pub open spec fn is_lead(c: char) -> bool {
    c == '\u{feff}' || c == ' ' || c == '\t' || c == '\r' || c == '\n'
}

/// Without a byte order mark and white space in front.
pub open spec fn without_lead(s: Seq<char>) -> Seq<char>
    decreases s.len(),
{
    if s.len() > 0 && is_lead(s[0]) {
        without_lead(s.skip(1))
    } else {
        s
    }
}

fn drop_lead(text: &str) -> (r: String)
    ensures
        r@ == without_lead(text@),
{
    let cs = chars(text);
    let mut i: usize = 0;
    assert(cs@.skip(0) =~= cs@);
    while i < cs.len() && (cs[i] == '\u{feff}' || cs[i] == ' ' || cs[i] == '\t' || cs[i] == '\r'
        || cs[i] == '\n')
        invariant
            cs@ == text@,
            i <= cs@.len(),
            without_lead(cs@) == without_lead(cs@.skip(i as int)),
        decreases cs@.len() - i,
    {
        assert(cs@.skip(i as int).skip(1) =~= cs@.skip(i as int + 1));
        i = i + 1;
    }
    assert(cs@.skip(i as int) =~= cs@.subrange(i as int, cs@.len() as int));
    slice(&cs, i, cs.len())
}

/// What the head of a document says about its format.
pub open spec fn sniffed(head: Seq<char>) -> SniffedView {
    let text = without_lead(head);
    if text.len() > 0 && text[0] == '<' {
        sniffed_xml(text)
    } else if text.len() > 0 && (text[0] == '{' || text[0] == '[') {
        sniffed_json(text)
    } else {
        sniffed_lines(text)
    }
}

/// What detection answers for a document whose head is `head`.
pub open spec fn detected(
    head: Seq<char>,
    origin: Seq<char>,
) -> Result<FormatSpecView, ErrorView> {
    match sniffed(head) {
        SniffedView::Known(id) => found(id),
        SniffedView::Planned { name, category } => Err(
            ErrorView::Detect(
                origin + " looks like "@ + name + " ("@ + category
                    + "), which is recognized but not supported yet"@,
            ),
        ),
        SniffedView::Unknown => Err(
            ErrorView::Detect(
                "could not identify "@ + origin
                    + ". Pass --input-format explicitly; run `udc formats` to list the supported ones"@,
            ),
        ),
    }
}

/// Tells the format of a document by its head.
pub fn detect_text(head: &str, origin: &str) -> (r: Result<FormatSpec, Error>)
    ensures
        match r {
            Ok(spec) => detected(head@, origin@) == Ok::<FormatSpecView, ErrorView>(
                spec.deep_view(),
            ),
            Err(e) => detected(head@, origin@) == Err::<FormatSpecView, ErrorView>(
                e.deep_view(),
            ),
        },
{
    let text = drop_lead(head);
    let cs = chars(text.as_str());
    let outcome = if cs.len() > 0 && cs[0] == '<' {
        sniff_xml(text.as_str())
    } else if cs.len() > 0 && (cs[0] == '{' || cs[0] == '[') {
        sniff_json(text.as_str())
    } else {
        sniff_lines(text.as_str())
    };
    match outcome {
        Sniffed::Known(id) => find(id),
        Sniffed::Planned { name, category } => {
            let head = concat5(origin, " looks like ", name, " (", category);
            Err(
                Error::Detect(
                    crate::text::concat(
                        head.as_str(),
                        "), which is recognized but not supported yet",
                    ),
                ),
            )
        },
        Sniffed::Unknown => Err(
            Error::Detect(
                concat3(
                    "could not identify ",
                    origin,
                    ". Pass --input-format explicitly; run `udc formats` to list the supported ones",
                ),
            ),
        ),
    }
}

/// The bytes that detection looks at.
pub open spec fn sniffed_bytes(input: Seq<u8>) -> Seq<u8> {
    if input.len() > SNIFF_LIMIT {
        input.take(SNIFF_LIMIT as int)
    } else {
        input
    }
}

/// Tells the format of an input by its first bytes.
pub fn detect(input: &[u8], origin: &str) -> (r: Result<FormatSpec, Error>)
    ensures
        match r {
            Ok(spec) => detected(text_in(sniffed_bytes(input@)), origin@) == Ok::<
                FormatSpecView,
                ErrorView,
            >(spec.deep_view()),
            Err(e) => detected(text_in(sniffed_bytes(input@)), origin@) == Err::<
                FormatSpecView,
                ErrorView,
            >(e.deep_view()),
        },
{
    let text = if input.len() > SNIFF_LIMIT {
        let (head, _) = input.split_at(SNIFF_LIMIT);
        assert(head@ =~= sniffed_bytes(input@));
        from_utf8_lossy(head)
    } else {
        from_utf8_lossy(input)
    };
    detect_text(text.as_str(), origin)
}

proof fn told_formats_are_readable(id: Seq<char>)
    requires
        id == "clover"@ || id == "cobertura"@ || id == "jacoco"@ || id == "junit"@ || id
            == "checkstyle"@ || id == "trx"@ || id == "sarif"@ || id == "trivy-json"@ || id
            == "lcov"@ || id == "go-coverprofile"@,
    ensures
        match found(id) {
            Ok(spec) => spec.id == id && spec.read is Some,
            Err(_) => false,
        },
{
    assert forall|i: int| 0 <= i < format_table().len() implies found(
        #[trigger] format_table()[i].id,
    ) == Ok::<FormatSpecView, ErrorView>(format_table()[i]) by {
        every_name_leads_to_its_format(i, 0);
        assert(names_of(format_table()[i])[0] == format_table()[i].id);
    }
    assert(format_table()[0].id == "lcov"@);
    assert(format_table()[1].id == "clover"@);
    assert(format_table()[2].id == "cobertura"@);
    assert(format_table()[3].id == "go-coverprofile"@);
    assert(format_table()[5].id == "jacoco"@);
    assert(format_table()[6].id == "junit"@);
    assert(format_table()[9].id == "trx"@);
    assert(format_table()[10].id == "checkstyle"@);
    assert(format_table()[12].id == "sarif"@);
    assert(format_table()[15].id == "trivy-json"@);
}

proof fn lines_tell_readable_formats(all: Seq<Seq<char>>)
    ensures
        match sniffed_first(all) {
            SniffedView::Known(id) => match found(id) {
                Ok(spec) => spec.id == id && spec.read is Some,
                Err(_) => false,
            },
            _ => true,
        },
    decreases all.len(),
{
    if all.len() > 0 {
        lines_tell_readable_formats(all.skip(1));
        if let SniffedView::Known(id) = sniffed_line(trim(all[0])) {
            told_formats_are_readable(id);
        }
    }
}

/// What detection tells is a format that can be read.
pub proof fn detected_formats_are_readable(head: Seq<char>, origin: Seq<char>)
    ensures
        match sniffed(head) {
            SniffedView::Known(id) => match detected(head, origin) {
                Ok(spec) => spec.id == id && spec.read is Some,
                Err(_) => false,
            },
            _ => detected(head, origin) is Err,
        },
{
    let text = without_lead(head);
    if let SniffedView::Known(id) = sniffed(head) {
        if text.len() > 0 && (text[0] == '<' || text[0] == '{' || text[0] == '[') {
            told_formats_are_readable(id);
        } else {
            let all = lines(text);
            lines_tell_readable_formats(all);
            lines_tell_readable_formats(all.take(50));
        }
    }
}

/// A bare JSON array is never guessed at, whatever it holds.
pub proof fn arrays_are_never_guessed(head: Seq<char>, origin: Seq<char>)
    requires
        without_lead(head).len() > 0,
        without_lead(head)[0] == '[',
    ensures
        sniffed(head) == SniffedView::Unknown,
        detected(head, origin) is Err,
{
}

} // verus!
