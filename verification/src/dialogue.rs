//! Multi-turn dialogue context laid out as model input.
//!
//! The earlier turns form the context block, the last segment is the current
//! block. When the context does not fit, its oldest ids go first.

use vstd::prelude::*;
use crate::encoding::{assemble, layout_ids, EncodedSequence};
use crate::error::TokenizerError;

verus! {

/// The id that follows every context segment.
pub const CONTEXT_SEP: i32 = 99;

/// The context block: every segment in order, each followed by `separator`.
pub open spec fn joined_context(segments: Seq<Seq<i32>>, separator: i32) -> Seq<i32>
    decreases segments.len(),
{
    if segments.len() == 0 {
        Seq::empty()
    } else {
        joined_context(segments.drop_last(), separator) + segments.last().push(separator)
    }
}

/// The last `budget` ids of `context` (all of it when it is shorter), the
/// final one replaced by `boundary`.
pub open spec fn fitted_context(context: Seq<i32>, budget: int, boundary: i32) -> Seq<i32> {
    let kept = if context.len() > budget {
        context.skip(context.len() - budget)
    } else {
        context
    };
    if kept.len() > 0 {
        kept.update(kept.len() - 1, boundary)
    } else {
        kept
    }
}

/// The first block of a dialogue input: the class id, then the fitted context.
pub open spec fn dialogue_context_block(
    segments: Seq<Seq<i32>>,
    current_len: int,
    cls_id: i32,
    sep_id: i32,
    max_seq_len: int,
) -> Seq<i32> {
    seq![cls_id] + fitted_context(
        joined_context(segments, CONTEXT_SEP),
        max_seq_len - current_len - 1,
        sep_id,
    )
}

/// Concatenates the segments, each followed by `separator`.
pub fn join_context(segments: &Vec<Vec<i32>>, separator: i32) -> (context: Vec<i32>)
    ensures
        context@ == joined_context(segments.deep_view(), separator),
{
    let mut context: Vec<i32> = Vec::new();
    let mut i: usize = 0;
    while i < segments.len()
        invariant
            i <= segments.len(),
            context@ == joined_context(segments.deep_view().take(i as int), separator),
        decreases segments.len() - i,
    {
        let segment = &segments[i];
        let ghost before = context@;
        let mut j: usize = 0;
        while j < segment.len()
            invariant
                j <= segment.len(),
                context@ == before + segment@.take(j as int),
            decreases segment.len() - j,
        {
            context.push(segment[j]);
            j += 1;
        }
        context.push(separator);
        proof {
            let done = segments.deep_view().take(i + 1);
            assert(done.drop_last() == segments.deep_view().take(i as int));
            assert(done.last() == segment@);
            assert(context@ == before + segment@.push(separator));
        }
        i += 1;
    }
    assert(segments.deep_view().take(segments.len() as int) == segments.deep_view());
    context
}

/// Keeps the newest `budget` ids of `context` and ends them with `boundary`.
pub fn fit_context(context: &Vec<i32>, budget: usize, boundary: i32) -> (kept: Vec<i32>)
    ensures
        kept@ == fitted_context(context@, budget as int, boundary),
{
    let start: usize = if context.len() > budget {
        context.len() - budget
    } else {
        0
    };
    let mut kept: Vec<i32> = Vec::new();
    let mut i: usize = start;
    while i < context.len()
        invariant
            start <= i <= context.len(),
            kept@ == context@.subrange(start as int, i as int),
        decreases context.len() - i,
    {
        kept.push(context[i]);
        i += 1;
    }
    assert(kept@ == context@.skip(start as int));
    let n = kept.len();
    if n > 0 {
        kept[n - 1] = boundary;
    }
    kept
}

/// Lays out a dialogue: the class id and the fitted context as the first
/// segment, `current` as the second.
///
/// Fails with `SizeError` exactly when `current` alone fills `max_seq_len`.
pub fn assemble_dialogue(
    context_segments: &Vec<Vec<i32>>,
    current: &Vec<i32>,
    cls_id: i32,
    sep_id: i32,
    pad_id: i32,
    max_seq_len: usize,
) -> (r: Result<EncodedSequence, TokenizerError>)
    ensures
        r is Ok <==> current.len() < max_seq_len,
        r is Err ==> r == Err::<EncodedSequence, TokenizerError>(TokenizerError::SizeError),
        r is Ok ==> r->Ok_0.is_layout_of(
            dialogue_context_block(
                context_segments.deep_view(),
                current.len() as int,
                cls_id,
                sep_id,
                max_seq_len as int,
            ),
            current@,
            pad_id,
            max_seq_len as int,
        ),
{
    if current.len() >= max_seq_len {
        return Err(TokenizerError::SizeError);
    }
    let budget = max_seq_len - current.len() - 1;
    let context = join_context(context_segments, CONTEXT_SEP);
    let mut kept = fit_context(&context, budget, sep_id);
    let mut first: Vec<i32> = Vec::new();
    first.push(cls_id);
    first.append(&mut kept);
    assemble(&first, current, pad_id, max_seq_len)
}

/// What front truncation keeps: the fitted context is as long as the budget
/// allows, its last id is the boundary, and every other id is the one that
/// stood at the same distance from the end of the full context.
pub proof fn lemma_fitted_context_keeps_tail(context: Seq<i32>, budget: int, boundary: i32)
    requires
        budget >= 0,
    ensures
        ({
            let kept = fitted_context(context, budget, boundary);
            &&& kept.len() == if context.len() > budget {
                budget
            } else {
                context.len() as int
            }
            &&& kept.len() > 0 ==> kept.last() == boundary
            &&& forall|k: int|
                0 <= k < kept.len() - 1 ==> kept[k] == context[context.len() - kept.len() + k]
        }),
{
}

/// The current block survives whole: in a dialogue layout its ids follow the
/// context block unchanged, and the layout starts with the class id.
pub proof fn lemma_dialogue_keeps_current(
    segments: Seq<Seq<i32>>,
    current: Seq<i32>,
    cls_id: i32,
    sep_id: i32,
    pad_id: i32,
    max_seq_len: int,
)
    requires
        current.len() < max_seq_len,
    ensures
        ({
            let first = dialogue_context_block(
                segments,
                current.len() as int,
                cls_id,
                sep_id,
                max_seq_len,
            );
            let ids = layout_ids(first, current, pad_id, max_seq_len);
            &&& ids.len() == max_seq_len
            &&& first.len() + current.len() <= max_seq_len
            &&& ids[0] == cls_id
            &&& forall|k: int| 0 <= k < current.len() ==> ids[first.len() + k] == current[k]
            &&& forall|k: int| first.len() + current.len() <= k < max_seq_len ==> ids[k] == pad_id
        }),
{
    lemma_fitted_context_keeps_tail(
        joined_context(segments, CONTEXT_SEP),
        max_seq_len - current.len() - 1,
        sep_id,
    );
}

} // verus!
