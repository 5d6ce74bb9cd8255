//! Normalised edits: what a merge stitches into a text.

use crate::bandaid::BandAid;
use crate::position::{LineColumn, Position, Span};
use vstd::prelude::*;
use vstd::std_specs::convert::{FromSpec, FromSpecImpl};

verus! {

/// A patch to be stitched on top of a text.
///
/// It has no awareness of what the text means: source code and markup are
/// scalar values on lines to it.
#[derive(Debug, Clone, PartialEq, Eq)]
pub enum Patch {
    /// Replace the area spanned by `replace_span` with `replacement`. A span
    /// is inclusive, so a replacement always removes at least the scalar
    /// value at which it ends.
    Replace { replace_span: Span, replacement: String },
    /// Put `content` in front of the scalar value at `insert_at`, removing
    /// nothing.
    Insert { insert_at: LineColumn, content: String },
}

/// A patch as a mathematical value: what it does, where it applies, and the
/// scalar values it brings.
pub enum PatchView {
    Replace { replace_span: Span, replacement: Seq<char> },
    Insert { insert_at: LineColumn, content: Seq<char> },
}

impl PatchView {
    /// Where the patch begins: up to here the text before it is kept.
    pub open spec fn start(self) -> Position {
        match self {
            PatchView::Replace { replace_span, .. } => replace_span.start@,
            PatchView::Insert { insert_at, .. } => insert_at@,
        }
    }

    /// The scalar values that the patch puts into the text.
    pub open spec fn payload(self) -> Seq<char> {
        match self {
            PatchView::Replace { replacement, .. } => replacement,
            PatchView::Insert { content, .. } => content,
        }
    }
}

impl View for Patch {
    type V = PatchView;

    open spec fn view(&self) -> PatchView {
        match *self {
            Patch::Replace { replace_span, replacement } => PatchView::Replace {
                replace_span,
                replacement: replacement@,
            },
            Patch::Insert { insert_at, content } => PatchView::Insert {
                insert_at,
                content: content@,
            },
        }
    }
}

/// The patch that an edit stands for: an edit whose span starts and ends at
/// the same position inserts there, any other replaces its span.
pub open spec fn normalized(span: Span, content: Seq<char>) -> PatchView {
    if span.start == span.end {
        PatchView::Insert { insert_at: span.start, content }
    } else {
        PatchView::Replace { replace_span: span, replacement: content }
    }
}

impl From<BandAid> for Patch {
    /// Normalises an edit.
    fn from(bandaid: BandAid) -> (patch: Patch) {
        if bandaid.span.start == bandaid.span.end {
            Patch::Insert { insert_at: bandaid.span.start, content: bandaid.content }
        } else {
            Patch::Replace { replace_span: bandaid.span, replacement: bandaid.content }
        }
    }
}

impl FromSpecImpl<BandAid> for Patch {
    open spec fn obeys_from_spec() -> bool {
        true
    }

    open spec fn from_spec(bandaid: BandAid) -> Patch {
        if bandaid.span.start == bandaid.span.end {
            Patch::Insert { insert_at: bandaid.span.start, content: bandaid.content }
        } else {
            Patch::Replace { replace_span: bandaid.span, replacement: bandaid.content }
        }
    }
}

impl<'a> From<&'a BandAid> for Patch {
    /// Normalises an edit that is only borrowed.
    fn from(bandaid: &'a BandAid) -> (patch: Patch) {
        if bandaid.span.start == bandaid.span.end {
            Patch::Insert { insert_at: bandaid.span.start, content: bandaid.content.clone() }
        } else {
            Patch::Replace { replace_span: bandaid.span, replacement: bandaid.content.clone() }
        }
    }
}

impl<'a> FromSpecImpl<&'a BandAid> for Patch {
    open spec fn obeys_from_spec() -> bool {
        true
    }

    open spec fn from_spec(bandaid: &'a BandAid) -> Patch {
        if bandaid.span.start == bandaid.span.end {
            Patch::Insert { insert_at: bandaid.span.start, content: bandaid.content }
        } else {
            Patch::Replace { replace_span: bandaid.span, replacement: bandaid.content }
        }
    }
}

/// Normalising is total and decided by the span alone.
pub proof fn lemma_from_bandaid_normalizes(bandaid: BandAid)
    ensures
        <Patch as FromSpec<BandAid>>::from_spec(bandaid)@ == normalized(
            bandaid.span,
            bandaid.content@,
        ),
        <Patch as FromSpec<&BandAid>>::from_spec(&bandaid)@ == normalized(
            bandaid.span,
            bandaid.content@,
        ),
{
}

} // verus!
