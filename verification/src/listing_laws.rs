//! What listing the formats promises.

use vstd::prelude::*;

use crate::listing::{
    capability, format_lines, label_of, member_lines, notice_line, padded, section, widest, Style,
};
use crate::registry::{format_table, Category, FormatSpecView};
use crate::value::{flat, parts_are_in_the_whole};
use crate::warn::{NoteKind, NoteView};

verus! {

/// A format shows whether it can be read and whether it can be written.
pub proof fn formats_show_what_they_can(format: FormatSpecView)
    ensures
        format.read is Some && format.write is Some ==> capability(format) == "rw"@,
        format.read is Some && format.write is None ==> capability(format) == "r-"@,
        format.read is None && format.write is Some ==> capability(format) == "-w"@,
{
}

/// The section of a category shows every format of it, with its notes.
pub proof fn sections_show_their_formats(category: Category, style: Style, i: int, k: int)
    requires
        0 <= i < format_table().len(),
        format_table()[i].categories.contains(category),
        0 <= k < format_lines(
            format_table()[i],
            category,
            style,
            widest(format_table()),
        ).len(),
    ensures
        section(category, style).contains(
            format_lines(
                format_table()[i],
                category,
                style,
                widest(format_table()),
            )[k],
        ),
{
    let table = format_table();
    let show = |f: FormatSpecView| member_lines(f, category, style);
    let own = member_lines(table[i], category, style);
    assert(table[i].is_in(category));
    assert(show(table[i]) == own);
    parts_are_in_the_whole(table, show, i, k);
    let all = flat(table, show);
    let j = choose|j: int| 0 <= j < all.len() && all[j] == own[k];
    assert(section(category, style)[j + 1] == own[k]);
}

/// A notice is shown with its kind in front, plainly where there is no colour.
pub proof fn notices_show_their_kind(note: NoteView, style: Style)
    ensures
        label_of(NoteKind::Lossy) == "lossy:"@,
        label_of(NoteKind::Degraded) == "degraded:"@,
        !style.color ==> notice_line(note, style) == label_of(note.kind) + " "@ + note.message,
{
}

/// Padding fills a text up to its width with spaces and never cuts it.
pub proof fn padding_fills_up(text: Seq<char>, width: nat, i: int)
    ensures
        padded(text, width).len() == if text.len() < width {
            width
        } else {
            text.len()
        },
        padded(text, width).take(text.len() as int) == text,
        text.len() <= i < padded(text, width).len() ==> padded(text, width)[i] == ' ',
{
    assert(padded(text, width).take(text.len() as int) =~= text);
}

} // verus!
