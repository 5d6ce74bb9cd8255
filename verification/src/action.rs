//! The user-facing modes of operation and how a run concludes.

use crate::bandaid::{BandAid, BandAidView};
use crate::interactive::{UserPicked, UserSelection};
use crate::merge::{apply_patches, orderly, patched, spliced, views};
use crate::origin::ContentOrigin;
use crate::patch::{normalized, Patch, PatchView};
use crate::suggestion::{Suggestion, SuggestionSet};
use std::path::PathBuf;
use vstd::prelude::*;
use vstd::utf8::encode_utf8;

verus! {

/// State of conclusion.
#[derive(Debug, Clone, Copy, PartialEq, Eq, Structural)]
pub enum Finish {
    /// Abort is user requested, either by signal or key stroke.
    Abort,
    /// Completion of the run, with the resulting number of mistakes
    /// accumulated.
    MistakeCount(usize),
}

impl Finish {
    /// Whether the run completed and found at least one mistake.
    pub open spec fn spec_found_any(&self) -> bool {
        match *self {
            Finish::MistakeCount(n) => n > 0,
            Finish::Abort => false,
        }
    }

    /// A helper to determine if any mistakes were found.
    #[verifier::when_used_as_spec(spec_found_any)]
    pub fn found_any(&self) -> (found: bool)
        ensures
            found == self.spec_found_any(),
    {
        match *self {
            Finish::MistakeCount(n) => n > 0,
            Finish::Abort => false,
        }
    }
}

/// The name of the temporary file that a corrected text is written to in
/// full before it takes the place of the file it corrects. It is created in
/// the current working directory.
pub const TEMPORARY: &'static str = ".spellcheck.tmp";

/// The edits of a list as mathematical values.
pub open spec fn bandaid_views(bandaids: Seq<BandAid>) -> Seq<BandAidView> {
    bandaids.map_values(|bandaid: BandAid| bandaid@)
}

/// Every edit of a list normalised, in the order of the list.
pub open spec fn normalize_all(fixes: Seq<BandAidView>) -> Seq<PatchView> {
    fixes.map_values(|fix: BandAidView| normalized(fix.span, fix.content))
}

/// The pending correction of one file: where the file is, and the patches to
/// merge into what it holds.
#[derive(Debug, Clone, PartialEq, Eq)]
pub struct Correction {
    /// The file to correct.
    pub path: PathBuf,
    /// The patches to merge, in the order in which they are applied.
    pub patches: Vec<Patch>,
}

/// A correction as a mathematical value.
pub struct CorrectionView {
    pub path: PathBuf,
    pub patches: Seq<PatchView>,
}

impl View for Correction {
    type V = CorrectionView;

    open spec fn view(&self) -> CorrectionView {
        CorrectionView { path: self.path, patches: views(self.patches@) }
    }
}

/// The corrections of a list as mathematical values.
pub open spec fn correction_views(corrections: Seq<Correction>) -> Seq<CorrectionView> {
    corrections.map_values(|correction: Correction| correction@)
}

/// The correction that `fixes` make of the file that `origin` names.
pub open spec fn correction_of(origin: ContentOrigin, fixes: Seq<BandAidView>) -> CorrectionView {
    CorrectionView { path: origin.path(), patches: normalize_all(fixes) }
}

impl Correction {
    /// Writes to `sink` what the file is to hold: its present `content` with
    /// the patches merged in. What was in `sink` before stays in front.
    pub fn apply(self, content: &str, sink: &mut Vec<u8>)
        ensures
            final(sink)@ == old(sink)@ + encode_utf8(patched(content@, self@.patches)),
            orderly(content@, self@.patches) ==> final(sink)@ == old(sink)@ + encode_utf8(
                spliced(content@, 0, self@.patches),
            ),
    {
        apply_patches(self.patches, content, sink)
    }
}

/// Mode in which the checker operates.
#[derive(Debug, Clone, Copy, PartialEq, Eq, Structural)]
pub enum Action {
    /// Only show errors.
    Check,
    /// Interactively choose from checker provided suggestions.
    Fix,
    /// Reflow doc comments so they adhere to a given maximum column width.
    Reflow,
}

/// The corrections that accepted edits make, one for each file in the
/// order of the selection.
pub open spec fn picked_corrections(entries: Seq<(ContentOrigin, Vec<BandAid>)>) -> Seq<
    CorrectionView,
> {
    entries.map_values(
        |entry: (ContentOrigin, Vec<BandAid>)| correction_of(entry.0, bandaid_views(entry.1@)),
    )
}

/// For each suggestion that proposes a replacement, the edit that accepts
/// the first one; the order is kept.
pub open spec fn first_fixes(suggestions: Seq<Suggestion>) -> Seq<BandAidView> {
    suggestions.filter_map(|suggestion: Suggestion| suggestion.first_fix())
}

/// The corrections that accept the first replacement of every suggestion,
/// one for each file in the order of the set.
pub open spec fn reflow_corrections(entries: Seq<(ContentOrigin, Vec<Suggestion>)>) -> Seq<
    CorrectionView,
> {
    entries.map_values(
        |entry: (ContentOrigin, Vec<Suggestion>)| correction_of(entry.0, first_fixes(entry.1@)),
    )
}

/// What is to be done outside the library, once it has decided.
#[derive(Debug, Clone, PartialEq, Eq)]
pub enum Step {
    /// Show every suggestion of `suggestions`, in order, and conclude with
    /// `finish`. Nothing is written.
    Report { suggestions: SuggestionSet, finish: Finish },
    /// Let the user pick from `suggestions`, and hand what was picked to
    /// `Action::resume`.
    Pick { suggestions: SuggestionSet },
    /// Bring each of `corrections` to disk, one file after the other in the
    /// order given, and stop at the first that fails. If none fails, conclude
    /// with `finish`.
    Write { corrections: Vec<Correction>, finish: Finish },
}

impl Action {
    /// Prepares the correction of the file at `path` by the edits in
    /// `bandaids`, which are expected sorted by line and column, and not to
    /// overlap.
    pub fn correct_file(&self, path: PathBuf, bandaids: Vec<BandAid>) -> (correction: Correction)
        ensures
            correction@ == (CorrectionView {
                path,
                patches: normalize_all(bandaid_views(bandaids@)),
            }),
    {
        let ghost fixes = bandaid_views(bandaids@);
        let mut patches: Vec<Patch> = Vec::new();
        for bandaid in iter: bandaids
            invariant
                iter.seq() == bandaids@,
                fixes == bandaid_views(bandaids@),
                patches@.len() == iter.index(),
                views(patches@) == normalize_all(fixes.take(iter.index())),
        {
            let ghost done = patches@;
            patches.push(Patch::from(bandaid));
            proof {
                let i = iter.index();
                assert(patches@ == done.push(patches@[i]));
                done.lemma_push_map_commute(|patch: Patch| patch@, patches@[i]);
                fixes.lemma_map_take_succ(|fix: BandAidView| normalized(fix.span, fix.content), i);
            }
        }
        proof {
            assert(fixes.take(fixes.len() as int) =~= fixes);
        }
        Correction { path, patches }
    }

    /// Prepares the correction of the file that `origin` names by the edits
    /// in `bandaids`.
    pub fn write_changes_to_disk(&self, origin: ContentOrigin, bandaids: Vec<BandAid>) -> (correction:
        Correction)
        ensures
            correction@ == correction_of(origin, bandaid_views(bandaids@)),
    {
        match origin {
            ContentOrigin::CommonMarkFile(path) => self.correct_file(path, bandaids),
            ContentOrigin::RustSourceFile(path) => self.correct_file(path, bandaids),
            ContentOrigin::RustDocTest(path, _span) => self.correct_file(path, bandaids),
        }
    }

    /// Prepares the corrections that the user picked, one for each file of
    /// the selection. Where nothing at all was picked, no file is to be
    /// touched.
    ///
    /// The selection is consumed: its spans are those of the files as they
    /// are, and hold no longer once the files are written.
    pub fn write_user_pick_changes_to_disk(&self, userpicked: UserPicked) -> (corrections: Vec<
        Correction,
    >)
        ensures
            correction_views(corrections@) == if userpicked.spec_total_count() > 0 {
                picked_corrections(userpicked.bandaids@)
            } else {
                Seq::<CorrectionView>::empty()
            },
    {
        let mut corrections: Vec<Correction> = Vec::new();
        let nothing_picked = match userpicked.checked_total_count() {
            Some(count) => count == 0,
            None => false,
        };
        if nothing_picked {
            proof {
                assert(correction_views(corrections@) =~= Seq::<CorrectionView>::empty());
            }
            return corrections;
        }
        let ghost entries = userpicked.bandaids@;
        let ghost to_correction = |entry: (ContentOrigin, Vec<BandAid>)|
            correction_of(entry.0, bandaid_views(entry.1@));
        proof {
            assert(correction_views(corrections@) =~= entries.take(0).map_values(to_correction));
        }
        for entry in iter: userpicked.bandaids
            invariant
                iter.seq() == entries,
                to_correction == |entry: (ContentOrigin, Vec<BandAid>)|
                    correction_of(entry.0, bandaid_views(entry.1@)),
                corrections@.len() == iter.index(),
                correction_views(corrections@) == entries.take(iter.index()).map_values(
                    to_correction,
                ),
        {
            let ghost done = corrections@;
            let (origin, bandaids) = entry;
            corrections.push(self.write_changes_to_disk(origin, bandaids));
            proof {
                let i = iter.index();
                assert(corrections@ == done.push(corrections@[i]));
                done.lemma_push_map_commute(|correction: Correction| correction@, corrections@[i]);
                entries.lemma_map_take_succ(to_correction, i);
            }
        }
        proof {
            assert(entries.take(entries.len() as int) =~= entries);
        }
        corrections
    }

    /// The outcome of a check: the number of suggestions that were found.
    pub fn check(&self, suggestions_per_path: &SuggestionSet) -> (finish: Finish)
        requires
            suggestions_per_path.spec_len() <= usize::MAX,
        ensures
            finish == Finish::MistakeCount(suggestions_per_path.spec_len() as usize),
    {
        Finish::MistakeCount(suggestions_per_path.len())
    }

    /// The edits that accept the first replacement of each suggestion that
    /// proposes one.
    fn accept_first(suggestions: Vec<Suggestion>) -> (bandaids: Vec<BandAid>)
        ensures
            bandaid_views(bandaids@) == first_fixes(suggestions@),
    {
        let ghost all = suggestions@;
        let ghost first = |suggestion: Suggestion| suggestion.first_fix();
        let mut bandaids: Vec<BandAid> = Vec::new();
        proof {
            assert(bandaid_views(bandaids@) =~= all.take(0).filter_map(first));
        }
        for suggestion in iter: suggestions
            invariant
                iter.seq() == all,
                first == |suggestion: Suggestion| suggestion.first_fix(),
                bandaid_views(bandaids@) == all.take(iter.index()).filter_map(first),
        {
            let ghost done = bandaids@;
            proof {
                all.lemma_filter_map_take_succ(first, iter.index());
            }
            match suggestion.first_replacement() {
                Some(bandaid) => {
                    bandaids.push(bandaid);
                    proof {
                        done.lemma_push_map_commute(|bandaid: BandAid| bandaid@, bandaid);
                    }
                },
                None => {},
            }
        }
        proof {
            assert(all.take(all.len() as int) =~= all);
        }
        bandaids
    }

    /// Run the requested action, as far as it goes without the world
    /// outside: the result says what is to be done there.
    ///
    /// A check reports the suggestions and counts them. A reflow accepts the
    /// first replacement of every suggestion and has every file of the set
    /// written. A fix asks for the user's pick first, see `resume`.
    pub fn run(self, suggestions: SuggestionSet) -> (step: Step)
        requires
            self != Action::Fix ==> suggestions.spec_len() <= usize::MAX,
        ensures
            match self {
                Action::Check => step == (Step::Report {
                    suggestions,
                    finish: Finish::MistakeCount(suggestions.spec_len() as usize),
                }),
                Action::Fix => step == (Step::Pick { suggestions }),
                Action::Reflow => step matches Step::Write { corrections, finish } && finish
                    == Finish::MistakeCount(suggestions.spec_len() as usize) && correction_views(
                    corrections@,
                ) == reflow_corrections(suggestions.per_file@),
            },
    {
        match self {
            Action::Check => {
                let finish = self.check(&suggestions);
                Step::Report { suggestions, finish }
            },
            Action::Fix => Step::Pick { suggestions },
            Action::Reflow => {
                let n = suggestions.len();
                let ghost entries = suggestions.per_file@;
                let ghost to_correction = |entry: (ContentOrigin, Vec<Suggestion>)|
                    correction_of(entry.0, first_fixes(entry.1@));
                let mut corrections: Vec<Correction> = Vec::new();
                proof {
                    assert(correction_views(corrections@) =~= entries.take(0).map_values(
                        to_correction,
                    ));
                }
                for entry in iter: suggestions.per_file
                    invariant
                        iter.seq() == entries,
                        to_correction == |entry: (ContentOrigin, Vec<Suggestion>)|
                            correction_of(entry.0, first_fixes(entry.1@)),
                        corrections@.len() == iter.index(),
                        correction_views(corrections@) == entries.take(iter.index()).map_values(
                            to_correction,
                        ),
                {
                    let ghost done = corrections@;
                    let (origin, suggestions) = entry;
                    let bandaids = Self::accept_first(suggestions);
                    corrections.push(self.write_changes_to_disk(origin, bandaids));
                    proof {
                        let i = iter.index();
                        assert(corrections@ == done.push(corrections@[i]));
                        done.lemma_push_map_commute(
                            |correction: Correction| correction@,
                            corrections@[i],
                        );
                        entries.lemma_map_take_succ(to_correction, i);
                    }
                }
                proof {
                    assert(entries.take(entries.len() as int) =~= entries);
                }
                Step::Write { corrections, finish: Finish::MistakeCount(n) }
            },
        }
    }

    /// Goes on with a fix once the user has picked. After an abort no file
    /// is to be touched. Otherwise every file of the pick is to be written,
    /// and the run concludes with the number of edits that were picked.
    pub fn resume(self, picked: UserPicked, user_sel: UserSelection) -> (step: Step)
        requires
            user_sel != UserSelection::Abort ==> picked.spec_total_count() <= usize::MAX,
        ensures
            step matches Step::Write { corrections, finish } && if user_sel == UserSelection::Abort {
                corrections@.len() == 0 && finish == Finish::Abort
            } else {
                finish == Finish::MistakeCount(picked.spec_total_count() as usize)
                    && correction_views(corrections@) == if picked.spec_total_count() > 0 {
                    picked_corrections(picked.bandaids@)
                } else {
                    Seq::<CorrectionView>::empty()
                }
            },
    {
        if user_sel == UserSelection::Abort {
            Step::Write { corrections: Vec::new(), finish: Finish::Abort }
        } else {
            let n = picked.total_count();
            let corrections = self.write_user_pick_changes_to_disk(picked);
            Step::Write { corrections, finish: Finish::MistakeCount(n) }
        }
    }
}

} // verus!
