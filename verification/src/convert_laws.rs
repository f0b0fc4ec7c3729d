//! What choosing formats and taking inputs promises.

use vstd::prelude::*;

use crate::convert::{
    declared_or_detected, described, is_blank, mapper_of, origin_of, output_format, reading_ctx,
    settled, taken_in, writing_ctx, ConversionView,
};
use crate::detect::{detected, sniffed_bytes};
use crate::error::ErrorView;
use crate::paths::{directories, directory_of};
use crate::registry::{in_order, merged, normalized, resolved, DocView, SelectionView};
use crate::text::{lower, text_in};
use crate::value::with_all_new_props;
use crate::warn::NoteView;

verus! {

/// The output format is always stated, and never to be told by the content.
pub proof fn outputs_are_stated(requested: Option<Seq<char>>)
    ensures
        match requested {
            Some(text) => if lower(text) == lower("auto"@) {
                output_format(requested) is Err
            } else {
                output_format(requested) == resolved(text)
            },
            None => output_format(requested) is Err,
        },
{
}

/// The input format is the one that was stated, unless it is to be told by the
/// content.
pub proof fn inputs_are_stated_or_told(
    input_format: Seq<char>,
    bytes: Seq<u8>,
    source: Seq<char>,
)
    ensures
        lower(input_format) != lower("auto"@) ==> declared_or_detected(input_format, bytes, source)
            == resolved(input_format),
        lower(input_format) == lower("auto"@) ==> match (
            declared_or_detected(input_format, bytes, source),
            detected(text_in(sniffed_bytes(bytes)), described(source)),
        ) {
            (Ok(selection), Ok(spec)) => selection.spec == spec && selection.version
                == spec.default_version && !selection.explicit_version,
            (Err(a), Err(b)) => a == b,
            _ => false,
        },
{
}

/// An input of nothing but white space is refused, and so is one whose format
/// cannot be read or reports on something else than the target.
pub proof fn unusable_inputs_are_refused(
    plan: ConversionView,
    bytes: Seq<u8>,
    source: Seq<char>,
)
    ensures
        is_blank(bytes) ==> origin_of(plan, bytes, source) is Err,
        origin_of(plan, bytes, source) matches Ok((origin, reader)) ==> {
            &&& !is_blank(bytes)
            &&& declared_or_detected(plan.input_format, bytes, source) == Ok::<
                SelectionView,
                ErrorView,
            >(origin)
            &&& origin.spec.read == Some(reader)
            &&& origin.spec.shared_category(plan.target.spec) is Some
        },
{
}

/// What an input gives is merged behind what there is, and its notices are told
/// behind those there are.
pub proof fn inputs_are_merged_in_order(
    plan: ConversionView,
    doc: DocView,
    notes: Seq<NoteView>,
    note: NoteView,
)
    ensures
        match (plan.document, taken_in(plan, doc, notes)) {
            (None, Ok(after)) => after.document == Some(doc) && (after.notes.contains(note)
                <==> plan.notes.contains(note) || notes.contains(note)),
            (Some(known), Ok(after)) => after.document == merged(known, doc)
                && after.document is Some && (after.notes.contains(note) <==> plan.notes.contains(
                note,
            ) || notes.contains(note)),
            (Some(known), Err(_)) => merged(known, doc) is None,
            (None, Err(_)) => false,
        },
{
    with_all_new_props(plan.notes, notes);
}

/// What is written is what was taken in, with its paths mapped and in canonical
/// order; without an input there is nothing to write.
pub proof fn documents_are_mapped_and_sorted(plan: ConversionView)
    ensures
        match (plan.document, settled(plan)) {
            (Some(doc), Ok(after)) => after.document == Some(
                in_order(normalized(doc, plan.mapper)),
            ) && after.notes == plan.notes && after.target == plan.target,
            (None, Err(_)) => true,
            _ => false,
        },
{
}

/// A conversion maps paths by the source root and the prefixes it was given, each
/// as a directory.
pub proof fn mappings_are_of_directories(
    source_root: Option<Seq<char>>,
    strip_prefixes: Seq<Seq<char>>,
)
    ensures
        ({
            let mapper = mapper_of(source_root, strip_prefixes);
            &&& match source_root {
                Some(root) => mapper.source_root == Some(directory_of(root)),
                None => mapper.source_root is None,
            }
            &&& mapper.strip_prefixes == directories(strip_prefixes)
        }),
{
}

/// A reader is told the version of its own format, a writer that of the target.
pub proof fn versions_go_to_their_own_side(plan: ConversionView, origin: SelectionView)
    ensures
        reading_ctx(plan, origin).version == origin.version,
        reading_ctx(plan, origin).version_requested == origin.explicit_version,
        reading_ctx(plan, origin).path_rewriting == !plan.mapper.is_noop(),
        reading_ctx(plan, origin).notes.len() == 0,
        writing_ctx(plan).version == plan.target.version,
        writing_ctx(plan).version_requested == plan.target.explicit_version,
        writing_ctx(plan).notes.len() == 0,
{
}

} // verus!
