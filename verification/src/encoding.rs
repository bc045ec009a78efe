//! Fixed-length model input: ids, segment ids and attention mask.

use vstd::prelude::*;
use crate::error::TokenizerError;

verus! {

/// The three parallel arrays handed to the model, and how many of their
/// leading positions hold real content.
#[derive(Debug)]
pub struct EncodedSequence {
    pub input_ids: Vec<i32>,
    pub segment_ids: Vec<i32>,
    pub attention_mask: Vec<i32>,
    pub real_len: usize,
}

/// `n` copies of `value`.
pub open spec fn repeated(value: i32, n: int) -> Seq<i32> {
    Seq::new(
        if n >= 0 {
            n as nat
        } else {
            0
        },
        |i: int| value,
    )
}

/// `content` followed by as many `fill` as it takes to reach `len`.
pub open spec fn padded(content: Seq<i32>, fill: i32, len: int) -> Seq<i32> {
    content + repeated(fill, len - content.len())
}

/// The id array for a first and a second segment.
pub open spec fn layout_ids(first: Seq<i32>, second: Seq<i32>, pad: i32, len: int) -> Seq<i32> {
    padded(first + second, pad, len)
}

/// The segment array: 0 over the first segment, 1 over the second, 0 over padding.
pub open spec fn layout_segments(first_len: int, second_len: int, len: int) -> Seq<i32> {
    padded(repeated(0, first_len) + repeated(1, second_len), 0, len)
}

/// The attention mask: 1 over real content, 0 over padding.
pub open spec fn layout_mask(real_len: int, len: int) -> Seq<i32> {
    padded(repeated(1, real_len), 0, len)
}

impl EncodedSequence {
    /// `self` is exactly the layout of `first` and `second` in `len` positions.
    pub open spec fn is_layout_of(
        &self,
        first: Seq<i32>,
        second: Seq<i32>,
        pad: i32,
        len: int,
    ) -> bool {
        &&& self.input_ids@ == layout_ids(first, second, pad, len)
        &&& self.segment_ids@ == layout_segments(first.len() as int, second.len() as int, len)
        &&& self.attention_mask@ == layout_mask((first.len() + second.len()) as int, len)
        &&& self.real_len == first.len() + second.len()
    }
}

/// Appends `value` until `v` has `len` entries.
fn pad_to(v: &mut Vec<i32>, value: i32, len: usize)
    requires
        old(v).len() <= len,
    ensures
        final(v)@ == padded(old(v)@, value, len as int),
{
    while v.len() < len
        invariant
            old(v).len() <= v.len() <= len,
            v@ == old(v)@ + repeated(value, v.len() - old(v).len()),
        decreases len - v.len(),
    {
        v.push(value);
    }
}

/// Lays out two segments in `max_seq_len` positions.
///
/// Fails with `SizeError` exactly when the segments do not fit.
pub fn assemble(first: &Vec<i32>, second: &Vec<i32>, pad_id: i32, max_seq_len: usize) -> (r: Result<
    EncodedSequence,
    TokenizerError,
>)
    ensures
        r is Ok <==> first.len() + second.len() <= max_seq_len,
        r is Err ==> r == Err::<EncodedSequence, TokenizerError>(TokenizerError::SizeError),
        r is Ok ==> r->Ok_0.is_layout_of(first@, second@, pad_id, max_seq_len as int),
{
    if first.len() > max_seq_len || second.len() > max_seq_len - first.len() {
        return Err(TokenizerError::SizeError);
    }
    let real_len = first.len() + second.len();
    let mut input_ids: Vec<i32> = Vec::new();
    let mut i: usize = 0;
    while i < first.len()
        invariant
            i <= first.len(),
            input_ids@ == first@.take(i as int),
        decreases first.len() - i,
    {
        input_ids.push(first[i]);
        i += 1;
    }
    let mut j: usize = 0;
    while j < second.len()
        invariant
            j <= second.len(),
            input_ids@ == first@ + second@.take(j as int),
        decreases second.len() - j,
    {
        input_ids.push(second[j]);
        j += 1;
    }
    assert(input_ids@ == first@ + second@);
    pad_to(&mut input_ids, pad_id, max_seq_len);
    let mut segment_ids: Vec<i32> = Vec::new();
    pad_to(&mut segment_ids, 0, first.len());
    assert(segment_ids@ == repeated(0, first.len() as int));
    pad_to(&mut segment_ids, 1, real_len);
    assert(segment_ids@ == repeated(0, first.len() as int) + repeated(1, second.len() as int));
    pad_to(&mut segment_ids, 0, max_seq_len);
    let mut attention_mask: Vec<i32> = Vec::new();
    pad_to(&mut attention_mask, 1, real_len);
    assert(attention_mask@ == repeated(1, real_len as int));
    pad_to(&mut attention_mask, 0, max_seq_len);
    Ok(EncodedSequence { input_ids, segment_ids, attention_mask, real_len })
}

/// The id array of an assembled input.
pub fn get_input_ids(encoded: &EncodedSequence) -> (ids: &Vec<i32>)
    ensures
        ids@ == encoded.input_ids@,
{
    &encoded.input_ids
}

/// The attention mask of an assembled input.
pub fn get_attention_mask(encoded: &EncodedSequence) -> (mask: &Vec<i32>)
    ensures
        mask@ == encoded.attention_mask@,
{
    &encoded.attention_mask
}

/// The segment ids of an assembled input.
pub fn get_token_type_ids(encoded: &EncodedSequence) -> (segments: &Vec<i32>)
    ensures
        segments@ == encoded.segment_ids@,
{
    &encoded.segment_ids
}

/// The lengths that remain of two sequences after the longer one has lost its
/// last entry, again and again, until both fit in `budget` together. When
/// both are equally long the first one gives way.
pub open spec fn truncated_lens(len_a: nat, len_b: nat, budget: nat) -> (nat, nat)
    decreases len_a + len_b,
{
    if len_a + len_b <= budget {
        (len_a, len_b)
    } else if len_a >= len_b {
        truncated_lens((len_a - 1) as nat, len_b, budget)
    } else {
        truncated_lens(len_a, (len_b - 1) as nat, budget)
    }
}

/// Cuts two sequences from their tails until they fit in `budget` together.
pub fn truncate_pair<T>(a: &mut Vec<T>, b: &mut Vec<T>, budget: usize)
    ensures
        final(a)@ == old(a)@.take(truncated_lens(old(a)@.len(), old(b)@.len(), budget as nat).0 as int),
        final(b)@ == old(b)@.take(truncated_lens(old(a)@.len(), old(b)@.len(), budget as nat).1 as int),
{
    while a.len() > budget || b.len() > budget - a.len()
        invariant
            a.len() <= old(a).len(),
            b.len() <= old(b).len(),
            a@ == old(a)@.take(a.len() as int),
            b@ == old(b)@.take(b.len() as int),
            truncated_lens(a@.len(), b@.len(), budget as nat) == truncated_lens(
                old(a)@.len(),
                old(b)@.len(),
                budget as nat,
            ),
        decreases a.len() + b.len(),
    {
        if a.len() >= b.len() {
            a.pop();
        } else {
            b.pop();
        }
    }
}

/// The truncation budget: what is left of two sequences fits in the budget,
/// nothing is cut that need not be, and each result is a prefix length.
pub proof fn lemma_truncation_budget(len_a: nat, len_b: nat, budget: nat)
    ensures
        truncated_lens(len_a, len_b, budget).0 + truncated_lens(len_a, len_b, budget).1 <= budget,
        truncated_lens(len_a, len_b, budget).0 <= len_a,
        truncated_lens(len_a, len_b, budget).1 <= len_b,
        len_a + len_b <= budget ==> truncated_lens(len_a, len_b, budget) == (len_a, len_b),
        len_a + len_b > budget ==> truncated_lens(len_a, len_b, budget).0 + truncated_lens(
            len_a,
            len_b,
            budget,
        ).1 == budget,
    decreases len_a + len_b,
{
    if len_a + len_b <= budget {
    } else if len_a >= len_b {
        lemma_truncation_budget((len_a - 1) as nat, len_b, budget);
    } else {
        lemma_truncation_budget(len_a, (len_b - 1) as nat, budget);
    }
}

/// The first segment of a single-sequence input: the class id, as many ids
/// as fit beside the two special ids, the separator.
pub open spec fn single_first(ids: Seq<i32>, cls_id: i32, sep_id: i32, max_seq_len: int) -> Seq<i32> {
    let kept = if ids.len() > max_seq_len - 2 {
        ids.take(max_seq_len - 2)
    } else {
        ids
    };
    seq![cls_id] + kept + seq![sep_id]
}

/// The first segment of a paired input: the class id, what truncation
/// leaves of the first sequence, the separator.
pub open spec fn pair_first(
    ids_a: Seq<i32>,
    ids_b: Seq<i32>,
    cls_id: i32,
    sep_id: i32,
    max_seq_len: int,
) -> Seq<i32> {
    let lens = truncated_lens(ids_a.len(), ids_b.len(), (max_seq_len - 3) as nat);
    seq![cls_id] + ids_a.take(lens.0 as int) + seq![sep_id]
}

/// The second segment of a paired input: what truncation leaves of the
/// second sequence, the separator.
pub open spec fn pair_second(ids_a: Seq<i32>, ids_b: Seq<i32>, sep_id: i32, max_seq_len: int) -> Seq<
    i32,
> {
    let lens = truncated_lens(ids_a.len(), ids_b.len(), (max_seq_len - 3) as nat);
    ids_b.take(lens.1 as int) + seq![sep_id]
}

/// `[cls] + ids + [sep]`.
fn framed(ids: &Vec<i32>, cls_id: Option<i32>, sep_id: i32) -> (segment: Vec<i32>)
    requires
        ids.len() + 2 <= usize::MAX,
    ensures
        segment@ == (match cls_id {
            Some(id) => seq![id],
            None => Seq::empty(),
        }) + ids@ + seq![sep_id],
{
    let mut segment: Vec<i32> = Vec::new();
    match cls_id {
        Some(id) => {
            segment.push(id);
        },
        None => {},
    }
    let ghost head = segment@;
    let mut i: usize = 0;
    while i < ids.len()
        invariant
            i <= ids.len(),
            segment@ == head + ids@.take(i as int),
        decreases ids.len() - i,
    {
        segment.push(ids[i]);
        i += 1;
    }
    assert(ids@.take(ids.len() as int) == ids@);
    segment.push(sep_id);
    segment
}

/// Lays out one sequence between the class id and the separator, cut from
/// its tail where it is too long.
///
/// Fails with `SizeError` exactly when `max_seq_len` is below 3.
pub fn encode_single(ids: Vec<i32>, cls_id: i32, sep_id: i32, pad_id: i32, max_seq_len: usize) -> (r:
    Result<EncodedSequence, TokenizerError>)
    ensures
        r is Ok <==> max_seq_len >= 3,
        r is Err ==> r == Err::<EncodedSequence, TokenizerError>(TokenizerError::SizeError),
        r is Ok ==> r->Ok_0.is_layout_of(
            single_first(ids@, cls_id, sep_id, max_seq_len as int),
            Seq::empty(),
            pad_id,
            max_seq_len as int,
        ),
{
    if max_seq_len < 3 {
        return Err(TokenizerError::SizeError);
    }
    let mut ids = ids;
    if ids.len() > max_seq_len - 2 {
        ids.truncate(max_seq_len - 2);
    }
    let first = framed(&ids, Some(cls_id), sep_id);
    let second: Vec<i32> = Vec::new();
    assemble(&first, &second, pad_id, max_seq_len)
}

/// Lays out two sequences, each closed by the separator, cut from their
/// tails where they are too long together.
///
/// Fails with `SizeError` exactly when `max_seq_len` is below 3.
pub fn encode_pair(
    ids_a: Vec<i32>,
    ids_b: Vec<i32>,
    cls_id: i32,
    sep_id: i32,
    pad_id: i32,
    max_seq_len: usize,
) -> (r: Result<EncodedSequence, TokenizerError>)
    ensures
        r is Ok <==> max_seq_len >= 3,
        r is Err ==> r == Err::<EncodedSequence, TokenizerError>(TokenizerError::SizeError),
        r is Ok ==> r->Ok_0.is_layout_of(
            pair_first(ids_a@, ids_b@, cls_id, sep_id, max_seq_len as int),
            pair_second(ids_a@, ids_b@, sep_id, max_seq_len as int),
            pad_id,
            max_seq_len as int,
        ),
{
    if max_seq_len < 3 {
        return Err(TokenizerError::SizeError);
    }
    let mut ids_a = ids_a;
    let mut ids_b = ids_b;
    proof {
        lemma_truncation_budget(ids_a@.len(), ids_b@.len(), (max_seq_len - 3) as nat);
    }
    truncate_pair(&mut ids_a, &mut ids_b, max_seq_len - 3);
    let first = framed(&ids_a, Some(cls_id), sep_id);
    let second = framed(&ids_b, None, sep_id);
    assemble(&first, &second, pad_id, max_seq_len)
}

/// The three arrays of a layout are as long as asked for.
pub proof fn lemma_layout_lengths(first: Seq<i32>, second: Seq<i32>, pad: i32, len: int)
    requires
        first.len() + second.len() <= len,
    ensures
        layout_ids(first, second, pad, len).len() == len,
        layout_segments(first.len() as int, second.len() as int, len).len() == len,
        layout_mask((first.len() + second.len()) as int, len).len() == len,
{
}

/// What stands where in a layout: the two segments, then padding; segment
/// id 1 over the second segment only; the mask 1 over both segments only.
pub proof fn lemma_layout_positions(first: Seq<i32>, second: Seq<i32>, pad: i32, len: int)
    requires
        first.len() + second.len() <= len,
    ensures
        ({
            let ids = layout_ids(first, second, pad, len);
            let segments = layout_segments(first.len() as int, second.len() as int, len);
            let mask = layout_mask((first.len() + second.len()) as int, len);
            let content = first.len() + second.len();
            &&& forall|i: int| 0 <= i < first.len() ==> ids[i] == first[i]
            &&& forall|i: int| first.len() <= i < content ==> ids[i] == second[i - first.len()]
            &&& forall|i: int| content <= i < len ==> ids[i] == pad
            &&& forall|i: int| 0 <= i < len ==> segments[i] == if first.len() <= i < content {
                1i32
            } else {
                0i32
            }
            &&& forall|i: int| 0 <= i < len ==> mask[i] == if i < content {
                1i32
            } else {
                0i32
            }
        }),
{
}

/// The segment boundary of a paired input: the first 1 among the segment ids
/// stands right after the first separator, at the length of the truncated
/// first sequence plus 2.
pub proof fn lemma_segment_boundary(ids_a: Seq<i32>, ids_b: Seq<i32>, cls_id: i32, sep_id: i32, len: int)
    requires
        len >= 3,
    ensures
        ({
            let first = pair_first(ids_a, ids_b, cls_id, sep_id, len);
            let second = pair_second(ids_a, ids_b, sep_id, len);
            let kept_a = truncated_lens(ids_a.len(), ids_b.len(), (len - 3) as nat).0 as int;
            let segments = layout_segments(first.len() as int, second.len() as int, len);
            &&& first.len() == kept_a + 2
            &&& first.len() + second.len() <= len
            &&& first[first.len() - 1] == sep_id
            &&& segments[kept_a + 2] == 1
            &&& forall|i: int| 0 <= i < kept_a + 2 ==> segments[i] == 0
        }),
{
    lemma_truncation_budget(ids_a.len(), ids_b.len(), (len - 3) as nat);
}

} // verus!
