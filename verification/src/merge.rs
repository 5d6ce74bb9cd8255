//! The patch merge: one forward pass over a text and a list of patches.

use crate::cursor::{
    iter_with_line_column_from, lemma_positions_fit_from_origin, position_at, PositionedChars,
};
use crate::encoding::{
    byte_offset_at, lemma_byte_offset_monotonic, lemma_byte_offset_step, lemma_encode_utf8_concat,
    lemma_encoded_subrange, len_utf8,
};
use crate::laws::lemma_orderly_merge_splices;
use crate::patch::{Patch, PatchView};
use crate::position::{LineColumn, Position};
use vstd::prelude::*;
use vstd::slice::slice_subrange;
use vstd::utf8::encode_utf8;

verus! {

/// The index of the first scalar value of `text`, at or after index `from`,
/// whose position is `target` or comes after it; the length of `text` if
/// there is none. Positions are counted from line 1, column 0.
pub open spec fn seek(text: Seq<char>, from: int, target: Position) -> int
    decreases text.len() - from,
{
    if from >= text.len() {
        text.len() as int
    } else if position_at(text, Position::origin(), from).reaches(target) {
        from
    } else {
        seek(text, from + 1, target)
    }
}

/// How far a merge has come in the text.
///
/// `next` is the index of the scalar value that the merge looks at next.
/// `copied` is the index up to which the text is accounted for: everything
/// before it has been written out or dropped. A replacement drops the scalar
/// value at which it stops without moving past it, so `copied` is `next` or
/// one more.
pub struct Progress {
    pub next: int,
    pub copied: int,
}

impl Progress {
    /// Where every merge starts.
    pub open spec fn begin() -> Progress {
        Progress { next: 0, copied: 0 }
    }

    /// Both indices lie in `text`, and `copied` is `next` or one more.
    pub open spec fn within(self, text: Seq<char>) -> bool {
        0 <= self.next <= self.copied <= text.len() && self.copied <= self.next + 1
    }

    /// Moves past every scalar value that comes before `target`. What was
    /// passed is to be copied; if nothing was, `copied` stays.
    pub open spec fn copy_to(self, text: Seq<char>, target: Position) -> Progress {
        let reached = seek(text, self.next, target);
        Progress { next: reached, copied: if reached > self.next { reached } else { self.copied } }
    }

    /// Drops the text up to and including the first scalar value at or after
    /// `end`, and stops in front of that scalar value. At the end of the text
    /// nothing changes.
    pub open spec fn skip_through(self, text: Seq<char>, end: Position) -> Progress {
        if self.next < text.len() {
            let reached = seek(text, self.next, end);
            Progress {
                next: reached,
                copied: if reached < text.len() {
                    reached + 1
                } else {
                    text.len() as int
                },
            }
        } else {
            self
        }
    }

    /// The state after `patch` has been merged: the text before the patch is
    /// copied, and a replacement drops what it covers.
    pub open spec fn after(self, text: Seq<char>, patch: PatchView) -> Progress {
        let at_patch = self.copy_to(text, patch.start());
        match patch {
            PatchView::Insert { .. } => at_patch,
            PatchView::Replace { replace_span, .. } => at_patch.skip_through(text, replace_span.end@),
        }
    }
}

/// What a merge that stands at `progress` still writes for `patches`: for each
/// patch in turn the text before it and then its payload, and at last the
/// rest of the text.
pub open spec fn merge_from(text: Seq<char>, progress: Progress, patches: Seq<PatchView>) -> Seq<char>
    decreases patches.len(),
{
    if patches.len() == 0 {
        text.subrange(progress.copied, text.len() as int)
    } else {
        let patch = patches[0];
        text.subrange(progress.copied, progress.copy_to(text, patch.start()).copied) + patch.payload()
            + merge_from(text, progress.after(text, patch), patches.drop_first())
    }
}

/// The text that results from merging `patches`, in their order, into `text`.
pub open spec fn patched(text: Seq<char>, patches: Seq<PatchView>) -> Seq<char> {
    merge_from(text, Progress::begin(), patches)
}

/// The patches of a list as mathematical values.
pub open spec fn views(patches: Seq<Patch>) -> Seq<PatchView> {
    patches.map_values(|patch: Patch| patch@)
}

/// A scalar value of the text stands at `at`, or all of the text comes
/// before `at`.
pub open spec fn ends_on_scalar(text: Seq<char>, at: Position) -> bool {
    seek(text, 0, at) == text.len() || position_at(text, Position::origin(), seek(text, 0, at))
        == at
}

/// `later` may come behind `earlier` in a patch list: it starts no earlier
/// than an insertion, and strictly after the end of a replaced span.
pub open spec fn follows(earlier: PatchView, later: PatchView) -> bool {
    match earlier {
        PatchView::Insert { insert_at, .. } => !later.start().precedes(insert_at@),
        PatchView::Replace { replace_span, .. } => replace_span.end@.precedes(later.start()),
    }
}

/// The patches are sorted by where they start and no replaced span overlaps
/// what follows it; every replaced span ends no earlier than it starts, at a
/// scalar value of the text or behind all of it.
pub open spec fn orderly(text: Seq<char>, patches: Seq<PatchView>) -> bool {
    &&& forall|i: int|
        0 <= i < patches.len() ==> (#[trigger] patches[i] matches PatchView::Replace {
            replace_span,
            ..
        } ==> replace_span.well_formed() && ends_on_scalar(text, replace_span.end@))
    &&& forall|i: int| 0 <= i < patches.len() - 1 ==> follows(#[trigger] patches[i], patches[i + 1])
}

/// The index of the first scalar value that `patch` does not keep in front
/// of its payload: the first one at or after its start.
pub open spec fn cut_from(text: Seq<char>, patch: PatchView) -> int {
    seek(text, 0, patch.start())
}

/// The index at which the text goes on behind the payload of `patch`: for
/// an insertion where it was cut, for a replacement at the first scalar
/// value strictly after the end of the span.
pub open spec fn cut_to(text: Seq<char>, patch: PatchView) -> int {
    match patch {
        PatchView::Insert { insert_at, .. } => seek(text, 0, insert_at@),
        PatchView::Replace { replace_span, .. } => seek(text, 0, replace_span.end@.successor()),
    }
}

/// The text from index `at` on, with the part that each patch addresses
/// exchanged for its payload.
pub open spec fn spliced(text: Seq<char>, at: int, patches: Seq<PatchView>) -> Seq<char>
    decreases patches.len(),
{
    if patches.len() == 0 {
        text.skip(at)
    } else {
        text.subrange(at, cut_from(text, patches[0])) + patches[0].payload() + spliced(
            text,
            cut_to(text, patches[0]),
            patches.drop_first(),
        )
    }
}

/// `seek` finds an index between `from` and the end of the text.
pub proof fn lemma_seek_bounds(text: Seq<char>, from: int, target: Position)
    requires
        0 <= from <= text.len(),
    ensures
        from <= seek(text, from, target) <= text.len(),
    decreases text.len() - from,
{
    if from < text.len() && !position_at(text, Position::origin(), from).reaches(target) {
        lemma_seek_bounds(text, from + 1, target);
    }
}

/// Every step of a merge keeps the state within the text and never moves
/// back.
pub proof fn lemma_progress_steps(text: Seq<char>, progress: Progress, target: Position)
    requires
        progress.within(text),
    ensures
        progress.copy_to(text, target).within(text),
        progress.skip_through(text, target).within(text),
        progress.copied <= progress.copy_to(text, target).copied,
        progress.copied <= progress.skip_through(text, target).copied,
        progress.next <= progress.copy_to(text, target).next,
        progress.next <= progress.skip_through(text, target).next,
{
    lemma_seek_bounds(text, progress.next, target);
}

/// Appends `data` to `sink`.
fn write_to_sink(sink: &mut Vec<u8>, data: &[u8])
    ensures
        final(sink)@ == old(sink)@ + data@,
{
    sink.extend_from_slice(data);
    assert(sink@ =~= old(sink)@ + data@);
}

/// The carbon-copy scan: moves `chars` past every scalar value that comes
/// before `boundary`, and says up to which byte offset the text is to be
/// copied. If nothing was passed, that is `byte_cursor`.
fn scan_to(chars: &mut PositionedChars<'_>, boundary: LineColumn, byte_cursor: usize) -> (cc_end: usize)
    requires
        old(chars).start() == Position::origin(),
        0 <= old(chars).index() <= old(chars).text().len(),
        encode_utf8(old(chars).text()).len() <= usize::MAX,
    ensures
        final(chars).text() == old(chars).text(),
        final(chars).start() == old(chars).start(),
        final(chars).index() == seek(old(chars).text(), old(chars).index(), boundary@),
        cc_end == if final(chars).index() > old(chars).index() {
            byte_offset_at(final(chars).text(), final(chars).index())
        } else {
            byte_cursor as int
        },
{
    let ghost text = chars.text();
    let ghost from = chars.index();
    let mut cc_end = byte_cursor;
    loop
        invariant
            chars.text() == text,
            chars.start() == Position::origin(),
            from <= chars.index() <= text.len(),
            encode_utf8(text).len() <= usize::MAX,
            seek(text, chars.index(), boundary@) == seek(text, from, boundary@),
            cc_end == if chars.index() > from {
                byte_offset_at(text, chars.index())
            } else {
                byte_cursor as int
            },
        ensures
            chars.text() == text,
            chars.start() == Position::origin(),
            chars.index() == seek(text, from, boundary@),
            cc_end == if chars.index() > from {
                byte_offset_at(text, chars.index())
            } else {
                byte_cursor as int
            },
        decreases text.len() - chars.index(),
    {
        match chars.peek() {
            None => {
                break ;
            },
            Some((c, byte_offset, _, linecol)) => {
                if linecol >= boundary {
                    break ;
                }
                proof {
                    lemma_byte_offset_step(text, chars.index());
                    lemma_byte_offset_monotonic(text, chars.index() + 1, text.len() as int);
                }
                cc_end = byte_offset + len_utf8(c);
                let _ = chars.next();
            },
        }
    }
    cc_end
}

/// The skip of a replaced range: moves `chars` up to the first scalar value
/// at or after `end`, and says at which byte offset the text goes on, which
/// is right behind that scalar value. At the end of the text that is
/// `byte_cursor`.
fn skip_to(chars: &mut PositionedChars<'_>, end: LineColumn, byte_cursor: usize) -> (cc_start: usize)
    requires
        old(chars).start() == Position::origin(),
        0 <= old(chars).index() <= old(chars).text().len(),
        encode_utf8(old(chars).text()).len() <= usize::MAX,
    ensures
        final(chars).text() == old(chars).text(),
        final(chars).start() == old(chars).start(),
        final(chars).index() == seek(old(chars).text(), old(chars).index(), end@),
        cc_start == if old(chars).index() >= old(chars).text().len() {
            byte_cursor as int
        } else if final(chars).index() < final(chars).text().len() {
            byte_offset_at(final(chars).text(), final(chars).index() + 1)
        } else {
            byte_offset_at(final(chars).text(), final(chars).index())
        },
{
    let ghost text = chars.text();
    let ghost from = chars.index();
    let mut cc_start = byte_cursor;
    loop
        invariant_except_break
            cc_start == if chars.index() > from {
                byte_offset_at(text, chars.index())
            } else {
                byte_cursor as int
            },
        invariant
            chars.text() == text,
            chars.start() == Position::origin(),
            from <= chars.index() <= text.len(),
            encode_utf8(text).len() <= usize::MAX,
            seek(text, chars.index(), end@) == seek(text, from, end@),
        ensures
            chars.text() == text,
            chars.start() == Position::origin(),
            chars.index() == seek(text, from, end@),
            cc_start == if from >= text.len() {
                byte_cursor as int
            } else if chars.index() < text.len() {
                byte_offset_at(text, chars.index() + 1)
            } else {
                byte_offset_at(text, chars.index())
            },
        decreases text.len() - chars.index(),
    {
        match chars.peek() {
            None => {
                break ;
            },
            Some((c, byte_offset, _, linecol)) => {
                proof {
                    lemma_byte_offset_step(text, chars.index());
                    lemma_byte_offset_monotonic(text, chars.index() + 1, text.len() as int);
                }
                cc_start = byte_offset + len_utf8(c);
                if linecol >= end {
                    break ;
                }
                let _ = chars.next();
            },
        }
    }
    cc_start
}

/// Corrects a text by applying patches: writes to `sink` the text of
/// `source_buffer` with the payload of every patch stitched in.
///
/// The patches are taken in the order given and are expected sorted by where
/// they start, with no two replaced spans overlapping; several may insert at
/// one position. Nothing of this is checked: `patched` says what is written
/// for any list, and for an orderly list that is `spliced`, the text with
/// what each patch addresses exchanged for its payload. What was in `sink`
/// before stays in front.
pub fn apply_patches(patches: Vec<Patch>, source_buffer: &str, sink: &mut Vec<u8>)
    ensures
        final(sink)@ == old(sink)@ + encode_utf8(patched(source_buffer@, views(patches@))),
        orderly(source_buffer@, views(patches@)) ==> final(sink)@ == old(sink)@ + encode_utf8(
            spliced(source_buffer@, 0, views(patches@)),
        ),
{
    let source = source_buffer.as_bytes();
    let source_len = source.len();
    let ghost text = source_buffer@;
    let ghost all = views(patches@);
    let ghost before = sink@;
    proof {
        lemma_positions_fit_from_origin(text);
    }
    let mut source_iter = iter_with_line_column_from(
        source_buffer,
        LineColumn { line: 1, column: 0 },
    );
    let mut byte_cursor: usize = 0;
    let mut upcoming: usize = 0;
    let ghost mut progress = Progress::begin();
    let ghost mut written = Seq::<char>::empty();
    proof {
        lemma_byte_offset_monotonic(text, 0, 0);
        assert(all.skip(0) =~= all);
        assert(written + patched(text, all) =~= patched(text, all));
        assert(encode_utf8(written) =~= Seq::<u8>::empty());
        assert(before + encode_utf8(written) =~= before);
    }
    loop
        invariant_except_break
            sink@ == before + encode_utf8(written),
            written + merge_from(text, progress, all.skip(upcoming as int)) == patched(text, all),
        invariant
            upcoming <= patches.len(),
            all == views(patches@),
            source@ == encode_utf8(text),
            source_iter.text() == text,
            source_iter.start() == Position::origin(),
            source_iter.index() == progress.next,
            source_len == source@.len(),
            progress.within(text),
            byte_cursor == byte_offset_at(text, progress.copied),
        ensures
            sink@ == before + encode_utf8(patched(text, all)),
            orderly(text, all) ==> patched(text, all) == spliced(text, 0, all),
        decreases patches.len() - upcoming,
    {
        proof {
            lemma_byte_offset_monotonic(text, progress.copied, text.len() as int);
        }
        if upcoming >= patches.len() {
            write_to_sink(sink, slice_subrange(source, byte_cursor, source_len));
            proof {
                let tail = text.subrange(progress.copied, text.len() as int);
                assert(all.skip(upcoming as int).len() == 0);
                assert(merge_from(text, progress, all.skip(upcoming as int)) == tail);
                lemma_encoded_subrange(text, progress.copied, text.len() as int);
                lemma_encode_utf8_concat(written, tail);
                assert(before + encode_utf8(written) + encode_utf8(tail) =~= before + (encode_utf8(
                    written,
                ) + encode_utf8(tail)));
                if orderly(text, all) {
                    lemma_orderly_merge_splices(text, all);
                }
            }
            break ;
        }
        let patch = &patches[upcoming];
        let ghost view = all[upcoming as int];
        let ghost rest = all.skip(upcoming as int + 1);
        proof {
            assert(view == patch@);
            assert(all.skip(upcoming as int).drop_first() =~= rest);
        }
        let cc_end = match patch {
            Patch::Replace { replace_span, .. } => replace_span.start,
            Patch::Insert { insert_at, .. } => *insert_at,
        };
        let cc_end_byte_offset = scan_to(&mut source_iter, cc_end, byte_cursor);
        let ghost at_patch = progress.copy_to(text, view.start());
        proof {
            lemma_progress_steps(text, progress, view.start());
            lemma_byte_offset_monotonic(text, progress.copied, at_patch.copied);
            lemma_byte_offset_monotonic(text, at_patch.copied, text.len() as int);
            lemma_encoded_subrange(text, progress.copied, at_patch.copied);
        }
        write_to_sink(sink, slice_subrange(source, byte_cursor, cc_end_byte_offset));
        byte_cursor = cc_end_byte_offset;
        match patch {
            Patch::Insert { content, .. } => {
                write_to_sink(sink, content.as_str().as_bytes());
            },
            Patch::Replace { replace_span, replacement } => {
                write_to_sink(sink, replacement.as_str().as_bytes());
                proof {
                    lemma_progress_steps(text, at_patch, replace_span.end@);
                }
                byte_cursor = skip_to(&mut source_iter, replace_span.end, byte_cursor);
            },
        }
        proof {
            let copy = text.subrange(progress.copied, at_patch.copied);
            let grown = written + copy + view.payload();
            lemma_encode_utf8_concat(written, copy);
            lemma_encode_utf8_concat(written + copy, view.payload());
            assert(before + encode_utf8(written) + encode_utf8(copy) + encode_utf8(view.payload())
                =~= before + (encode_utf8(written) + encode_utf8(copy) + encode_utf8(
                view.payload(),
            )));
            assert(grown + merge_from(text, progress.after(text, view), rest) =~= written + (copy
                + view.payload() + merge_from(text, progress.after(text, view), rest)));
            written = grown;
            progress = progress.after(text, view);
        }
        upcoming += 1;
    }
}

} // verus!
