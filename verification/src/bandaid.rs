//! Proposed edits, as analyzers and the user's selection hand them over.

use crate::position::Span;
use vstd::prelude::*;
use vstd::std_specs::convert::FromSpecImpl;

verus! {

/// A proposed edit: the span it addresses and the text to put there. It does
/// not know yet whether it inserts or replaces.
#[derive(Debug, Clone, PartialEq, Eq)]
pub struct BandAid {
    /// The span of the text that the edit addresses.
    pub span: Span,
    /// The text to put in place.
    pub content: String,
}

/// An edit as a mathematical value.
pub struct BandAidView {
    pub span: Span,
    pub content: Seq<char>,
}

impl View for BandAid {
    type V = BandAidView;

    open spec fn view(&self) -> BandAidView {
        BandAidView { span: self.span, content: self.content@ }
    }
}

impl<'a> From<(String, &'a Span)> for BandAid {
    /// An edit that puts `replacement` at `span`.
    fn from(pair: (String, &'a Span)) -> (bandaid: BandAid) {
        BandAid { span: *pair.1, content: pair.0 }
    }
}

impl<'a> FromSpecImpl<(String, &'a Span)> for BandAid {
    open spec fn obeys_from_spec() -> bool {
        true
    }

    open spec fn from_spec(pair: (String, &'a Span)) -> BandAid {
        BandAid { span: *pair.1, content: pair.0 }
    }
}

} // verus!
