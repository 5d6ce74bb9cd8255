//! What the analyzers found: suggestions, grouped by the file they are
//! about.

use crate::bandaid::{BandAid, BandAidView};
use crate::origin::ContentOrigin;
use crate::position::Span;
use vstd::prelude::*;

verus! {

/// A finding of an analyzer: the span it is about and the texts that the
/// analyzer proposes to put there, the most likely first.
#[derive(Debug, Clone, PartialEq, Eq)]
pub struct Suggestion {
    /// The span of the file's text that the finding is about.
    pub span: Span,
    /// The proposed replacements, best first; there may be none.
    pub replacements: Vec<String>,
}

impl Suggestion {
    /// The edit that accepts the first proposed replacement, if one is
    /// proposed.
    pub open spec fn first_fix(&self) -> Option<BandAidView> {
        if self.replacements@.len() > 0 {
            Some(BandAidView { span: self.span, content: self.replacements@[0]@ })
        } else {
            None
        }
    }

    /// The edit that accepts the first proposed replacement.
    pub fn first_replacement(&self) -> (fix: Option<BandAid>)
        ensures
            match fix {
                Some(bandaid) => self.first_fix() == Some(bandaid@),
                None => self.first_fix().is_none(),
            },
    {
        if self.replacements.len() > 0 {
            Some(BandAid::from((self.replacements[0].clone(), &self.span)))
        } else {
            None
        }
    }
}

/// The number of items in all the groups of `entries` together.
pub open spec fn total_len<T>(entries: Seq<(ContentOrigin, Vec<T>)>) -> nat
    decreases entries.len(),
{
    if entries.len() == 0 {
        0
    } else {
        total_len(entries.drop_last()) + entries.last().1@.len()
    }
}

/// The groups up to index `i` hold no more than all of them do, and one
/// group more adds its length.
pub proof fn lemma_total_len_prefix<T>(entries: Seq<(ContentOrigin, Vec<T>)>, i: int)
    requires
        0 <= i <= entries.len(),
    ensures
        total_len(entries.take(i)) <= total_len(entries),
        i < entries.len() ==> total_len(entries.take(i + 1)) == total_len(entries.take(i))
            + entries[i].1@.len(),
        total_len(entries.take(entries.len() as int)) == total_len(entries),
    decreases entries.len(),
{
    assert(entries.take(entries.len() as int) =~= entries);
    if i < entries.len() {
        assert(entries.take(i + 1).drop_last() =~= entries.take(i));
        assert(entries.drop_last().take(i) =~= entries.take(i));
        lemma_total_len_prefix(entries.drop_last(), i);
    }
}

/// Counts the items of all groups, unless the count cannot be held.
pub fn count_entries<T>(entries: &Vec<(ContentOrigin, Vec<T>)>) -> (count: Option<usize>)
    ensures
        count == if total_len(entries@) <= usize::MAX {
            Some(total_len(entries@) as usize)
        } else {
            None
        },
{
    let mut count: usize = 0;
    let mut i: usize = 0;
    proof {
        assert(entries@.take(0) =~= Seq::empty());
    }
    while i < entries.len()
        invariant
            i <= entries.len(),
            count == total_len(entries@.take(i as int)),
        decreases entries.len() - i,
    {
        proof {
            lemma_total_len_prefix(entries@, i as int);
            lemma_total_len_prefix(entries@, i + 1);
        }
        match count.checked_add(entries[i].1.len()) {
            None => {
                return None;
            },
            Some(sum) => {
                count = sum;
            },
        }
        i += 1;
    }
    proof {
        lemma_total_len_prefix(entries@, i as int);
    }
    Some(count)
}

/// The suggestions of a run, grouped by the file they are about, in the
/// order in which the files were checked.
#[derive(Debug, Clone, PartialEq, Eq)]
pub struct SuggestionSet {
    pub per_file: Vec<(ContentOrigin, Vec<Suggestion>)>,
}

impl SuggestionSet {
    /// The number of suggestions in the set, over all files.
    pub open spec fn spec_len(&self) -> nat {
        total_len(self.per_file@)
    }

    /// A set without suggestions.
    pub fn new() -> (set: SuggestionSet)
        ensures
            set.per_file@.len() == 0,
            set.spec_len() == 0,
    {
        SuggestionSet { per_file: Vec::new() }
    }

    /// Adds the suggestions for one more file, behind those that are there.
    /// A file is to be given once.
    pub fn append(&mut self, origin: ContentOrigin, suggestions: Vec<Suggestion>)
        ensures
            final(self).per_file@ == old(self).per_file@.push((origin, suggestions)),
            final(self).spec_len() == old(self).spec_len() + suggestions@.len(),
    {
        self.per_file.push((origin, suggestions));
        proof {
            assert(self.per_file@.drop_last() =~= old(self).per_file@);
        }
    }

    /// The number of suggestions in the set, or `None` if a `usize` cannot
    /// hold it.
    pub fn total_count(&self) -> (count: Option<usize>)
        ensures
            count == if self.spec_len() <= usize::MAX {
                Some(self.spec_len() as usize)
            } else {
                None
            },
    {
        count_entries(&self.per_file)
    }

    /// The number of suggestions in the set.
    pub fn len(&self) -> (count: usize)
        requires
            self.spec_len() <= usize::MAX,
        ensures
            count == self.spec_len(),
    {
        match count_entries(&self.per_file) {
            Some(count) => count,
            None => 0,
        }
    }
}

} // verus!
