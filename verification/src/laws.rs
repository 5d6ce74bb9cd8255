//! What holds of every merge.

use crate::cursor::{lemma_positions_increase, position_at};
use crate::encoding::{
    byte_offset_at, lemma_byte_offset_monotonic, lemma_byte_offset_step, lemma_encode_utf8_concat,
    lemma_encoded_subrange, utf8_width,
};
use crate::merge::{
    cut_from, cut_to, ends_on_scalar, follows, lemma_seek_bounds, merge_from, orderly, patched, seek,
    spliced, Progress,
};
use crate::patch::PatchView;
use crate::position::{LineColumn, Position, Span};
use vstd::prelude::*;
use vstd::utf8::{
    decode_utf8, encode_utf8, encode_utf8_decode_utf8, encode_utf8_valid_utf8, valid_utf8,
};

verus! {

/// `seek` stops at the first scalar value that reaches the target: the ones
/// it passes all come before the target.
pub proof fn lemma_seek_first(text: Seq<char>, from: int, target: Position)
    requires
        0 <= from <= text.len(),
    ensures
        from <= seek(text, from, target) <= text.len(),
        forall|i: int|
            from <= i < seek(text, from, target) ==> #[trigger] position_at(
                text,
                Position::origin(),
                i,
            ).precedes(target),
        seek(text, from, target) < text.len() ==> position_at(
            text,
            Position::origin(),
            seek(text, from, target),
        ).reaches(target),
    decreases text.len() - from,
{
    if from < text.len() && !position_at(text, Position::origin(), from).reaches(target) {
        lemma_seek_first(text, from + 1, target);
    }
}

/// Counted from the start of the text, `seek` is the number of scalar values
/// that come before the target: it splits the text into those before the
/// target and those at or after it.
pub proof fn lemma_seek_splits(text: Seq<char>, target: Position)
    ensures
        0 <= seek(text, 0, target) <= text.len(),
        forall|i: int|
            0 <= i < text.len() ==> (i < seek(text, 0, target) <==> #[trigger] position_at(
                text,
                Position::origin(),
                i,
            ).precedes(target)),
{
    let found = seek(text, 0, target);
    lemma_seek_first(text, 0, target);
    assert forall|i: int| found <= i < text.len() implies !(#[trigger] position_at(
        text,
        Position::origin(),
        i,
    ).precedes(target)) by {
        if found < i {
            lemma_positions_increase(text, Position::origin(), found, i);
        }
    }
}

/// Seeking from a later index finds the same scalar value, unless the
/// search starts behind it.
pub proof fn lemma_seek_from(text: Seq<char>, from: int, target: Position)
    requires
        0 <= from <= text.len(),
    ensures
        seek(text, from, target) == if from <= seek(text, 0, target) {
            seek(text, 0, target)
        } else {
            from
        },
    decreases text.len() - from,
{
    lemma_seek_splits(text, target);
    lemma_seek_first(text, from, target);
    let found = seek(text, 0, target);
    let here = seek(text, from, target);
    if from <= found {
        if here < found {
            assert(position_at(text, Position::origin(), here).precedes(target));
        }
        if found < here {
            assert(position_at(text, Position::origin(), found).precedes(target));
        }
    } else {
        if from < text.len() {
            assert(!position_at(text, Position::origin(), from).precedes(target));
        }
    }
}

/// A later target is found no earlier.
pub proof fn lemma_seek_monotonic(text: Seq<char>, earlier: Position, later: Position)
    requires
        !later.precedes(earlier),
    ensures
        seek(text, 0, earlier) <= seek(text, 0, later),
{
    lemma_seek_splits(text, earlier);
    lemma_seek_splits(text, later);
    let a = seek(text, 0, earlier);
    let b = seek(text, 0, later);
    if b < a {
        assert(position_at(text, Position::origin(), b).precedes(earlier));
        assert(!position_at(text, Position::origin(), b).precedes(later));
    }
}

/// Merging no patch yields the text unchanged, scalar value by scalar
/// value and byte by byte.
pub proof fn lemma_no_patch_changes_nothing(text: Seq<char>)
    ensures
        patched(text, Seq::<PatchView>::empty()) == text,
        encode_utf8(patched(text, Seq::<PatchView>::empty())) == encode_utf8(text),
{
    assert(text.subrange(0, text.len() as int) =~= text);
}

/// A single insertion destroys nothing: the result is the text with
/// `content` spliced in right in front of the first scalar value at or after
/// `insert_at`, and every scalar value of the text is kept, in order. With a
/// scalar value at `insert_at`, that is in front of it; with all of the text
/// before `insert_at`, it is at the end.
pub proof fn lemma_single_insert(text: Seq<char>, insert_at: LineColumn, content: Seq<char>)
    ensures
        patched(text, seq![PatchView::Insert { insert_at, content }]) == text.take(
            seek(text, 0, insert_at@),
        ) + content + text.skip(seek(text, 0, insert_at@)),
        0 <= seek(text, 0, insert_at@) <= text.len(),
{
    let patches = seq![PatchView::Insert { insert_at, content }];
    let at = seek(text, 0, insert_at@);
    lemma_seek_bounds(text, 0, insert_at@);
    assert(patches.drop_first() =~= Seq::<PatchView>::empty());
    let progress = Progress::begin().after(text, patches[0]);
    assert(progress == Progress { next: at, copied: at });
    assert(merge_from(text, progress, patches.drop_first()) == text.subrange(at, text.len() as int));
    assert(patched(text, patches) =~= text.take(at) + content + text.skip(at));
}

/// Where a single replacement leaves the text, for any span: the text
/// before the first scalar value at or after the start of the span is
/// kept, then comes `replacement`, and the text goes on behind the first
/// scalar value at or after the end of the span. A replacement that starts
/// behind all of the text only appends.
pub proof fn lemma_single_replace_any_span(
    text: Seq<char>,
    replace_span: Span,
    replacement: Seq<char>,
)
    ensures
        ({
            let from = seek(text, 0, replace_span.start@);
            let stop = seek(text, from, replace_span.end@);
            let resume = if stop < text.len() {
                stop + 1
            } else {
                text.len() as int
            };
            &&& 0 <= from <= stop <= text.len()
            &&& patched(text, seq![PatchView::Replace { replace_span, replacement }]) == text.take(
                from,
            ) + replacement + text.skip(resume)
        }),
{
    let patches = seq![PatchView::Replace { replace_span, replacement }];
    let from = seek(text, 0, replace_span.start@);
    let stop = seek(text, from, replace_span.end@);
    let resume = if stop < text.len() {
        stop + 1
    } else {
        text.len() as int
    };
    lemma_seek_bounds(text, 0, replace_span.start@);
    lemma_seek_bounds(text, from, replace_span.end@);
    assert(patches.drop_first() =~= Seq::<PatchView>::empty());
    let progress = Progress::begin().after(text, patches[0]);
    assert(progress.copied == resume);
    assert(merge_from(text, progress, patches.drop_first()) == text.subrange(
        resume,
        text.len() as int,
    ));
    assert(patched(text, patches) =~= text.take(from) + replacement + text.skip(resume));
}

/// For a single replacement whose span does not end before it starts, and
/// ends at a scalar value of the text or behind all of it, the result is the
/// text before the start of the span, then `replacement`, then the text
/// strictly after the end of the span.
pub proof fn lemma_single_replace(text: Seq<char>, replace_span: Span, replacement: Seq<char>)
    requires
        replace_span.well_formed(),
        ends_on_scalar(text, replace_span.end@),
    ensures
        patched(text, seq![PatchView::Replace { replace_span, replacement }]) == text.take(
            seek(text, 0, replace_span.start@),
        ) + replacement + text.skip(seek(text, 0, replace_span.end@.successor())),
        0 <= seek(text, 0, replace_span.start@) <= seek(text, 0, replace_span.end@.successor())
            <= text.len(),
{
    lemma_single_replace_any_span(text, replace_span, replacement);
    lemma_cut_of_replace(text, replace_span);
}

/// No merge splits the bytes of a scalar value: what is written is the
/// encoding of whole scalar values. It is valid UTF-8, and decoding it gives
/// the merged text back.
pub proof fn lemma_output_is_whole_scalars(text: Seq<char>, patches: Seq<PatchView>)
    ensures
        valid_utf8(encode_utf8(patched(text, patches))),
        decode_utf8(encode_utf8(patched(text, patches))) == patched(text, patches),
{
    encode_utf8_valid_utf8(patched(text, patches));
    encode_utf8_decode_utf8(patched(text, patches));
}

/// A replacement whose span starts and ends at the scalar value with index
/// `i` removes that scalar value and no other. In bytes, it removes the whole
/// encoding of that scalar value, however many bytes it takes, and nothing
/// else.
pub proof fn lemma_replace_one_scalar(text: Seq<char>, i: int, at: LineColumn, replacement: Seq<char>)
    requires
        0 <= i < text.len(),
        at@ == position_at(text, Position::origin(), i),
    ensures
        ({
            let replace_span = Span { start: at, end: at };
            let merged = patched(text, seq![PatchView::Replace { replace_span, replacement }]);
            &&& merged == text.take(i) + replacement + text.skip(i + 1)
            &&& encode_utf8(merged) == encode_utf8(text).take(byte_offset_at(text, i)) + encode_utf8(
                replacement,
            ) + encode_utf8(text).skip(byte_offset_at(text, i) + utf8_width(text[i]))
        }),
{
    let replace_span = Span { start: at, end: at };
    let merged = patched(text, seq![PatchView::Replace { replace_span, replacement }]);
    lemma_single_replace_any_span(text, replace_span, replacement);
    lemma_seek_splits(text, at@);
    let from = seek(text, 0, at@);
    if from < i {
        lemma_positions_increase(text, Position::origin(), from, i);
    }
    if i < from {
        assert(position_at(text, Position::origin(), i).precedes(at@));
    }
    assert(from == i);
    lemma_seek_from(text, i, at@);
    assert(merged == text.take(i) + replacement + text.skip(i + 1));
    lemma_encode_utf8_concat(text.take(i) + replacement, text.skip(i + 1));
    lemma_encode_utf8_concat(text.take(i), replacement);
    lemma_encoded_subrange(text, 0, i);
    lemma_encoded_subrange(text, i + 1, text.len() as int);
    lemma_byte_offset_step(text, i);
    lemma_byte_offset_monotonic(text, 0, i);
    lemma_byte_offset_monotonic(text, i + 1, text.len() as int);
    assert(text.take(i) =~= text.subrange(0, i));
    assert(text.skip(i + 1) =~= text.subrange(i + 1, text.len() as int));
    assert(encode_utf8(text).take(byte_offset_at(text, i)) =~= encode_utf8(text).subrange(
        byte_offset_at(text, 0),
        byte_offset_at(text, i),
    ));
    assert(encode_utf8(text).skip(byte_offset_at(text, i + 1)) =~= encode_utf8(text).subrange(
        byte_offset_at(text, i + 1),
        byte_offset_at(text, text.len() as int),
    ));
}

/// The patches that insert each of `contents` at `insert_at`, in order.
pub open spec fn inserts_at(insert_at: LineColumn, contents: Seq<Seq<char>>) -> Seq<PatchView> {
    contents.map_values(|content: Seq<char>| PatchView::Insert { insert_at, content })
}

/// A merge that stands in front of the first scalar value at or after
/// `insert_at` writes the contents of all insertions there in their order,
/// and then what is left of the text.
proof fn lemma_inserts_from(
    text: Seq<char>,
    progress: Progress,
    insert_at: LineColumn,
    contents: Seq<Seq<char>>,
)
    requires
        progress.within(text),
        seek(text, progress.next, insert_at@) == progress.next,
    ensures
        merge_from(text, progress, inserts_at(insert_at, contents)) == contents.flatten() + text.skip(
            progress.copied,
        ),
    decreases contents.len(),
{
    let patches = inserts_at(insert_at, contents);
    if contents.len() == 0 {
        assert(contents.flatten() + text.skip(progress.copied) =~= text.skip(progress.copied));
    } else {
        assert(patches.drop_first() =~= inserts_at(insert_at, contents.drop_first()));
        assert(progress.after(text, patches[0]) == progress);
        lemma_inserts_from(text, progress, insert_at, contents.drop_first());
        assert(text.subrange(progress.copied, progress.copied) =~= Seq::<char>::empty());
        assert(merge_from(text, progress, patches) =~= contents.flatten() + text.skip(progress.copied));
    }
}

/// Any number of insertions at one position come out in the order supplied,
/// one behind the other in front of the first scalar value at or after that
/// position, and none overwrites another or any of the text.
pub proof fn lemma_colocated_inserts(text: Seq<char>, insert_at: LineColumn, contents: Seq<Seq<char>>)
    ensures
        patched(text, inserts_at(insert_at, contents)) == text.take(seek(text, 0, insert_at@))
            + contents.flatten() + text.skip(seek(text, 0, insert_at@)),
{
    let at = seek(text, 0, insert_at@);
    let patches = inserts_at(insert_at, contents);
    lemma_seek_bounds(text, 0, insert_at@);
    if contents.len() == 0 {
        assert(text.take(at) + contents.flatten() + text.skip(at) =~= text);
        assert(text.subrange(0, text.len() as int) =~= text);
    } else {
        let progress = Progress { next: at, copied: at };
        assert(patches.drop_first() =~= inserts_at(insert_at, contents.drop_first()));
        assert(Progress::begin().after(text, patches[0]) == progress);
        lemma_seek_from(text, at, insert_at@);
        lemma_inserts_from(text, progress, insert_at, contents.drop_first());
        assert(patched(text, patches) =~= text.take(at) + contents.flatten() + text.skip(at));
    }
}

/// Where a replaced span that ends on a scalar value lets the text go on.
proof fn lemma_cut_of_replace(text: Seq<char>, replace_span: Span)
    requires
        replace_span.well_formed(),
        ends_on_scalar(text, replace_span.end@),
    ensures
        ({
            let from = seek(text, 0, replace_span.start@);
            let stop = seek(text, 0, replace_span.end@);
            let past = seek(text, 0, replace_span.end@.successor());
            &&& 0 <= from <= stop <= past <= text.len()
            &&& seek(text, from, replace_span.end@) == stop
            &&& past == if stop < text.len() {
                stop + 1
            } else {
                text.len() as int
            }
        }),
{
    let start = replace_span.start@;
    let end = replace_span.end@;
    let from = seek(text, 0, start);
    let stop = seek(text, 0, end);
    lemma_seek_monotonic(text, start, end);
    lemma_seek_monotonic(text, end, end.successor());
    lemma_seek_bounds(text, 0, start);
    lemma_seek_from(text, from, end);
    lemma_seek_splits(text, end);
    lemma_seek_splits(text, end.successor());
    if stop < text.len() {
        assert(!position_at(text, Position::origin(), stop).precedes(end));
        assert(position_at(text, Position::origin(), stop).precedes(end.successor()));
        if stop + 1 < text.len() {
            lemma_positions_increase(text, Position::origin(), stop, stop + 1);
            assert(!position_at(text, Position::origin(), stop + 1).precedes(end.successor()));
        }
    }
}

/// The merge of an orderly list from a state that has dealt with the text
/// up to `progress.copied`.
proof fn lemma_orderly_from(text: Seq<char>, progress: Progress, patches: Seq<PatchView>)
    requires
        orderly(text, patches),
        progress.within(text),
        patches.len() > 0 ==> progress.copied <= cut_from(text, patches[0]),
        patches.len() > 0 && progress.next < progress.copied ==> position_at(
            text,
            Position::origin(),
            progress.next,
        ).precedes(patches[0].start()),
    ensures
        merge_from(text, progress, patches) == spliced(text, progress.copied, patches),
    decreases patches.len(),
{
    if patches.len() > 0 {
        let patch = patches[0];
        let rest = patches.drop_first();
        let from = cut_from(text, patch);
        let to = cut_to(text, patch);
        lemma_seek_bounds(text, 0, patch.start());
        lemma_seek_from(text, progress.next, patch.start());
        lemma_seek_first(text, progress.next, patch.start());
        let at_patch = progress.copy_to(text, patch.start());
        assert(at_patch == Progress { next: from, copied: from });
        let then = progress.after(text, patch);
        assert forall|i: int| 0 <= i < rest.len() implies (#[trigger] rest[i] matches PatchView::Replace {
            replace_span,
            ..
        } ==> replace_span.well_formed() && ends_on_scalar(text, replace_span.end@)) by {
            assert(rest[i] == patches[i + 1]);
        }
        assert forall|i: int| 0 <= i < rest.len() - 1 implies follows(
            #[trigger] rest[i],
            rest[i + 1],
        ) by {
            assert(rest[i] == patches[i + 1]);
            assert(rest[i + 1] == patches[i + 2]);
        }
        match patch {
            PatchView::Insert { insert_at, .. } => {
                assert(then == at_patch);
                assert(to == from);
                if rest.len() > 0 {
                    assert(rest[0] == patches[1]);
                    assert(follows(patches[0], patches[1]));
                    lemma_seek_monotonic(text, insert_at@, rest[0].start());
                }
            },
            PatchView::Replace { replace_span, .. } => {
                lemma_cut_of_replace(text, replace_span);
                let stop = seek(text, 0, replace_span.end@);
                assert(then.copied == to);
                assert(then.within(text));
                if rest.len() > 0 {
                    assert(rest[0] == patches[1]);
                    assert(follows(patches[0], patches[1]));
                    assert(!rest[0].start().precedes(replace_span.end@.successor()));
                    lemma_seek_monotonic(text, replace_span.end@.successor(), rest[0].start());
                }
            },
        }
        lemma_orderly_from(text, then, rest);
    } else {
        assert(text.subrange(progress.copied, text.len() as int) =~= text.skip(progress.copied));
    }
}

/// The merge of an orderly patch list is a splice: the result is the text
/// with what each patch addresses exchanged for the payload of the patch,
/// and everything between the patches kept as it is and in order.
pub proof fn lemma_orderly_merge_splices(text: Seq<char>, patches: Seq<PatchView>)
    requires
        orderly(text, patches),
    ensures
        patched(text, patches) == spliced(text, 0, patches),
{
    if patches.len() > 0 {
        lemma_seek_bounds(text, 0, patches[0].start());
    }
    lemma_orderly_from(text, Progress::begin(), patches);
}

} // verus!
