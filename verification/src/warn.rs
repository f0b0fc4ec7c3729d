//! Honest reporting of what a conversion loses.

use vstd::prelude::*;

use crate::text::{owned, same};
use crate::value::{
    add_all_new, add_new, append_one, with_all_new, with_all_new_props, with_new, Value,
};

verus! {

/// What happened to the data a notice is about.
#[derive(Debug, Clone, Copy, PartialEq, Eq, Structural)]
pub enum NoteKind {
    /// Data was dropped.
    Lossy,
    /// Data was kept in a poorer form.
    Degraded,
}

impl NoteKind {
    pub fn label(self) -> (r: &'static str)
        ensures
            r@ == match self {
                NoteKind::Lossy => "lossy:"@,
                NoteKind::Degraded => "degraded:"@,
            },
    {
        match self {
            NoteKind::Lossy => "lossy:",
            NoteKind::Degraded => "degraded:",
        }
    }
}

#[derive(Debug, PartialEq, Eq)]
pub struct Note {
    pub kind: NoteKind,
    pub message: String,
}

/// The content of a [`Note`].
pub struct NoteView {
    pub kind: NoteKind,
    pub message: Seq<char>,
}

impl DeepView for Note {
    type V = NoteView;

    open spec fn deep_view(&self) -> NoteView {
        NoteView { kind: self.kind, message: self.message@ }
    }
}

impl Value for Note {
    fn copy(&self) -> (r: Self) {
        Note { kind: self.kind, message: self.message.clone() }
    }

    fn equals(&self, other: &Self) -> (r: bool) {
        self.kind == other.kind && same(self.message.as_str(), other.message.as_str())
    }
}

impl Clone for Note {
    fn clone(&self) -> (r: Self)
        ensures
            r.deep_view() == self.deep_view(),
    {
        self.copy()
    }
}

pub open spec fn lossy_note(message: Seq<char>) -> NoteView {
    NoteView { kind: NoteKind::Lossy, message }
}

pub open spec fn degraded_note(message: Seq<char>) -> NoteView {
    NoteView { kind: NoteKind::Degraded, message }
}

/// The notices of a conversion, each kept once, in the order they came.
#[derive(Debug)]
pub struct Warnings {
    items: Vec<Note>,
}

impl View for Warnings {
    type V = Seq<NoteView>;

    closed spec fn view(&self) -> Seq<NoteView> {
        self.items.deep_view()
    }
}

impl Default for Warnings {
    fn default() -> (r: Self)
        ensures
            r@ == Seq::<NoteView>::empty(),
    {
        Warnings::new()
    }
}

impl Warnings {
    pub fn new() -> (r: Self)
        ensures
            r@ == Seq::<NoteView>::empty(),
    {
        let r = Warnings { items: Vec::new() };
        assert(r@ =~= Seq::<NoteView>::empty());
        r
    }

    pub fn lossy(&mut self, message: &str)
        ensures
            final(self)@ == with_new(old(self)@, lossy_note(message@)),
    {
        self.push(NoteKind::Lossy, owned(message));
    }

    pub fn degraded(&mut self, message: &str)
        ensures
            final(self)@ == with_new(old(self)@, degraded_note(message@)),
    {
        self.push(NoteKind::Degraded, owned(message));
    }

    fn push(&mut self, kind: NoteKind, message: String)
        ensures
            final(self)@ == with_new(old(self)@, (NoteView { kind, message: message@ })),
    {
        add_new(&mut self.items, Note { kind, message });
    }

    /// Takes over the notices of `other` that are not here yet.
    pub fn absorb(&mut self, other: Warnings)
        ensures
            final(self)@ == with_all_new(old(self)@, other@),
    {
        add_all_new(&mut self.items, other.items);
    }

    pub fn is_empty(&self) -> (r: bool)
        ensures
            r == (self@.len() == 0),
    {
        self.items.len() == 0
    }

    pub fn len(&self) -> (r: usize)
        ensures
            r == self@.len(),
    {
        self.items.len()
    }

    pub fn notes(&self) -> (r: &Vec<Note>)
        ensures
            r.deep_view() == self@,
    {
        &self.items
    }

    pub fn messages(&self) -> (r: Vec<String>)
        ensures
            r.deep_view() == self@.map_values(|n: NoteView| n.message),
    {
        let mut out: Vec<String> = Vec::new();
        let mut i: usize = 0;
        while i < self.items.len()
            invariant
                i <= self.items@.len(),
                out.deep_view() == self@.take(i as int).map_values(|n: NoteView| n.message),
            decreases self.items@.len() - i,
        {
            append_one(&mut out, self.items[i].message.clone());
            i = i + 1;
            assert(out.deep_view() =~= self@.take(i as int).map_values(
                |n: NoteView| n.message,
            ));
        }
        assert(self@.take(i as int) =~= self@);
        out
    }
}

/// Absorbing keeps every notice of both sides and repeats none.
pub proof fn absorb_keeps_every_notice(mine: Seq<NoteView>, theirs: Seq<NoteView>)
    ensures
        with_all_new(mine, theirs).take(mine.len() as int) == mine,
        forall|n: NoteView| #[trigger]
            with_all_new(mine, theirs).contains(n) <==> mine.contains(n) || theirs.contains(n),
        mine.no_duplicates() ==> with_all_new(mine, theirs).no_duplicates(),
{
    with_all_new_props(mine, theirs);
}

/// What a reader or writer is told, and where it reports.
#[derive(Debug)]
pub struct FormatCtx {
    version: Option<&'static str>,
    version_requested: bool,
    path_rewriting: bool,
    warnings: Warnings,
}

/// The content of a [`FormatCtx`].
pub struct CtxView {
    pub version: Option<Seq<char>>,
    pub version_requested: bool,
    pub path_rewriting: bool,
    pub notes: Seq<NoteView>,
}

impl CtxView {
    pub open spec fn note(self, note: NoteView) -> CtxView {
        CtxView { notes: with_new(self.notes, note), ..self }
    }

    pub open spec fn lossy(self, message: Seq<char>) -> CtxView {
        self.note(lossy_note(message))
    }

    pub open spec fn degraded(self, message: Seq<char>) -> CtxView {
        self.note(degraded_note(message))
    }

    /// The notice, where `condition` holds.
    pub open spec fn lossy_if(self, condition: bool, message: Seq<char>) -> CtxView {
        if condition {
            self.lossy(message)
        } else {
            self
        }
    }

    /// The notice, where `condition` holds.
    pub open spec fn degraded_if(self, condition: bool, message: Seq<char>) -> CtxView {
        if condition {
            self.degraded(message)
        } else {
            self
        }
    }
}

impl View for FormatCtx {
    type V = CtxView;

    closed spec fn view(&self) -> CtxView {
        CtxView {
            version: match self.version {
                Some(v) => Some(v@),
                None => None,
            },
            version_requested: self.version_requested,
            path_rewriting: self.path_rewriting,
            notes: self.warnings@,
        }
    }
}

impl FormatCtx {
    pub fn new(version: Option<&'static str>) -> (r: Self)
        ensures
            r@ == (CtxView {
                version: match version {
                    Some(v) => Some(v@),
                    None => None,
                },
                version_requested: false,
                path_rewriting: false,
                notes: Seq::empty(),
            }),
    {
        FormatCtx {
            version,
            version_requested: false,
            path_rewriting: false,
            warnings: Warnings::new(),
        }
    }

    /// Records that the caller asked for path rewriting.
    pub fn set_path_rewriting(&mut self, requested: bool)
        ensures
            final(self)@ == (CtxView { path_rewriting: requested, ..old(self)@ }),
    {
        self.path_rewriting = requested;
    }

    pub fn path_rewriting_requested(&self) -> (r: bool)
        ensures
            r == self@.path_rewriting,
    {
        self.path_rewriting
    }

    /// Records that the version was pinned by the caller, rather than being the
    /// format's default.
    pub fn set_version_requested(&mut self, requested: bool)
        ensures
            final(self)@ == (CtxView { version_requested: requested, ..old(self)@ }),
    {
        self.version_requested = requested;
    }

    pub fn version_requested(&self) -> (r: bool)
        ensures
            r == self@.version_requested,
    {
        self.version_requested
    }

    pub fn version(&self) -> (r: Option<&'static str>)
        ensures
            match r {
                Some(v) => self@.version == Some(v@),
                None => self@.version is None,
            },
    {
        self.version
    }

    pub fn lossy(&mut self, message: &str)
        ensures
            final(self)@ == old(self)@.lossy(message@),
    {
        self.warnings.lossy(message);
    }

    pub fn degraded(&mut self, message: &str)
        ensures
            final(self)@ == old(self)@.degraded(message@),
    {
        self.warnings.degraded(message);
    }

    pub fn warnings(&self) -> (r: &Warnings)
        ensures
            r@ == self@.notes,
    {
        &self.warnings
    }

    pub fn into_warnings(self) -> (r: Warnings)
        ensures
            r@ == self@.notes,
    {
        self.warnings
    }
}

} // verus!
