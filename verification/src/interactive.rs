//! What comes back from the interactive selection.

use crate::bandaid::BandAid;
use crate::origin::ContentOrigin;
use crate::suggestion::{count_entries, total_len};
use vstd::prelude::*;

verus! {

/// How the user left the selection.
#[derive(Debug, Clone, Copy, PartialEq, Eq, Structural)]
pub enum UserSelection {
    /// Stop, and touch no file.
    Abort,
    /// Done picking: what was accepted is to be applied.
    Apply,
}

/// The edits that the user accepted, grouped by the file they go to, in the
/// order in which the files were shown.
#[derive(Debug, Clone, PartialEq, Eq)]
pub struct UserPicked {
    pub bandaids: Vec<(ContentOrigin, Vec<BandAid>)>,
}

impl UserPicked {
    /// The number of accepted edits, over all files.
    pub open spec fn spec_total_count(&self) -> nat {
        total_len(self.bandaids@)
    }

    /// Nothing accepted yet.
    pub fn new() -> (picked: UserPicked)
        ensures
            picked.bandaids@.len() == 0,
            picked.spec_total_count() == 0,
    {
        UserPicked { bandaids: Vec::new() }
    }

    /// Adds the accepted edits for one more file, behind those that are
    /// there. A file is to be given once.
    pub fn append(&mut self, origin: ContentOrigin, fixes: Vec<BandAid>)
        ensures
            final(self).bandaids@ == old(self).bandaids@.push((origin, fixes)),
            final(self).spec_total_count() == old(self).spec_total_count() + fixes@.len(),
    {
        self.bandaids.push((origin, fixes));
        proof {
            assert(self.bandaids@.drop_last() =~= old(self).bandaids@);
        }
    }

    /// The number of accepted edits, or `None` if a `usize` cannot hold it.
    pub fn checked_total_count(&self) -> (count: Option<usize>)
        ensures
            count == if self.spec_total_count() <= usize::MAX {
                Some(self.spec_total_count() as usize)
            } else {
                None
            },
    {
        count_entries(&self.bandaids)
    }

    /// Count the number of accepted edits across files in total.
    pub fn total_count(&self) -> (count: usize)
        requires
            self.spec_total_count() <= usize::MAX,
        ensures
            count == self.spec_total_count(),
    {
        match count_entries(&self.bandaids) {
            Some(count) => count,
            None => 0,
        }
    }
}

} // verus!
