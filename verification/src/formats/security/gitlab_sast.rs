//! GitLab SAST security report.
//!
//! The SAST profile of the [GitLab security reports](super::gitlab), under the
//! name it is asked for by.

use vstd::prelude::*;

use crate::error::Error;
use crate::formats::security::gitlab::{self, severity_word, written, Profile};
use crate::json::{json_result, Json};
use crate::model::findings::Severity;
use crate::registry::Doc;
use crate::warn::FormatCtx;

verus! {

/// The pivot's five levels onto GitLab's six, in order; no two collapse.
pub fn severity_of(severity: Severity) -> (r: &'static str)
    ensures
        r@ == severity_word(severity),
{
    gitlab::severity_of(severity)
}

pub fn write(doc: &Doc, ctx: &mut FormatCtx) -> (r: Result<Json, Error>)
    ensures
        (json_result(r), final(ctx)@) == written(doc.deep_view(), Profile::Sast, old(ctx)@),
{
    gitlab::emit(doc, ctx, Profile::Sast)
}

} // verus!
