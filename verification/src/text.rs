//! Sequences of characters: conversion, runs and whitespace splitting.

use vstd::prelude::*;
use crate::chars::{_is_whitespace, is_whitespace};

verus! {

/// `String::push` appends one character.
pub assume_specification[ String::push ](s: &mut String, ch: char)
    ensures
        final(s)@ == old(s)@.push(ch),
;

/// The characters of a string, in order.
pub fn chars_of(s: &str) -> (v: Vec<char>)
    ensures
        v@ == s@,
{
    let mut v: Vec<char> = Vec::new();
    for c in it: s.chars()
        invariant
            it.seq() == s@,
            v@ == it.seq().take(it.index() as int),
    {
        v.push(c);
    }
    v
}

/// The string made of `chars[start..end]`.
pub fn string_of_range(chars: &Vec<char>, start: usize, end: usize) -> (s: String)
    requires
        start <= end <= chars.len(),
    ensures
        s@ == chars@.subrange(start as int, end as int),
{
    let mut s = String::new();
    let mut i: usize = start;
    while i < end
        invariant
            start <= i <= end <= chars.len(),
            s@ == chars@.subrange(start as int, i as int),
        decreases end - i,
    {
        s.push(chars[i]);
        i += 1;
    }
    s
}

/// The string made of all of `chars`.
pub fn string_of(chars: &Vec<char>) -> (s: String)
    ensures
        s@ == chars@,
{
    let s = string_of_range(chars, 0, chars.len());
    assert(chars@.subrange(0, chars.len() as int) == chars@);
    s
}

/// The first position at or after `i` whose character is not in `member`,
/// or the length of `s` when there is none.
pub open spec fn run_end(s: Seq<char>, i: int, member: spec_fn(char) -> bool) -> int
    decreases s.len() - i,
{
    if 0 <= i < s.len() && member(s[i]) {
        run_end(s, i + 1, member)
    } else {
        i
    }
}

/// A run ends inside the sequence, holds only members, and is maximal.
pub proof fn lemma_run_end(s: Seq<char>, i: int, member: spec_fn(char) -> bool)
    requires
        0 <= i <= s.len(),
    ensures
        i <= run_end(s, i, member) <= s.len(),
        forall|k: int| i <= k < run_end(s, i, member) ==> member(#[trigger] s[k]),
        run_end(s, i, member) < s.len() ==> !member(s[run_end(s, i, member)]),
    decreases s.len() - i,
{
    if i < s.len() && member(s[i]) {
        lemma_run_end(s, i + 1, member);
    }
}

/// The words of `s` that start at or after position `i`: the maximal runs of
/// characters that are not whitespace.
pub open spec fn words_from(s: Seq<char>, i: int) -> Seq<Seq<char>>
    decreases s.len() - i,
{
    if i < 0 || i >= s.len() {
        Seq::empty()
    } else if is_whitespace(s[i]) {
        words_from(s, i + 1)
    } else {
        let end = run_end(s, i + 1, |c: char| !is_whitespace(c));
        proof {
            lemma_run_end(s, i + 1, |c: char| !is_whitespace(c));
        }
        seq![s.subrange(i, end)] + words_from(s, end)
    }
}

/// The words of `s`: what is left when it is cut at every whitespace
/// character and the empty pieces are dropped.
pub open spec fn split_whitespace(s: Seq<char>) -> Seq<Seq<char>> {
    words_from(s, 0)
}

/// The position where the run of non-whitespace that holds `start` ends.
fn word_end(text: &Vec<char>, start: usize) -> (end: usize)
    requires
        start < text.len(),
    ensures
        end == run_end(text@, start + 1, |c: char| !is_whitespace(c)),
        start < end <= text.len(),
{
    let mut end: usize = start + 1;
    proof {
        lemma_run_end(text@, start + 1, |c: char| !is_whitespace(c));
    }
    while end < text.len() && !_is_whitespace(text[end])
        invariant
            start < end <= text.len(),
            run_end(text@, end as int, |c: char| !is_whitespace(c)) == run_end(
                text@,
                start + 1,
                |c: char| !is_whitespace(c),
            ),
        decreases text.len() - end,
    {
        end += 1;
    }
    end
}

/// Cuts `text` into its words.
pub fn split_words(text: &Vec<char>) -> (words: Vec<String>)
    ensures
        words.deep_view() == split_whitespace(text@),
{
    let mut words: Vec<String> = Vec::new();
    let mut i: usize = 0;
    while i < text.len()
        invariant
            i <= text.len(),
            words.deep_view() + words_from(text@, i as int) == split_whitespace(text@),
        decreases text.len() - i,
    {
        if _is_whitespace(text[i]) {
            i += 1;
        } else {
            let end = word_end(text, i);
            let word = string_of_range(text, i, end);
            let ghost before = words.deep_view();
            words.push(word);
            proof {
                assert(words.deep_view() == before + seq![text@.subrange(i as int, end as int)]);
                assert(before + (seq![text@.subrange(i as int, end as int)] + words_from(
                    text@,
                    end as int,
                )) == (before + seq![text@.subrange(i as int, end as int)]) + words_from(
                    text@,
                    end as int,
                ));
            }
            i = end;
        }
    }
    assert(words.deep_view() + Seq::<Seq<char>>::empty() == words.deep_view());
    words
}

/// No word is empty, and no word holds whitespace.
pub proof fn lemma_words_hold_no_whitespace(s: Seq<char>, i: int)
    requires
        0 <= i <= s.len(),
    ensures
        forall|j: int| 0 <= j < words_from(s, i).len() ==> (#[trigger] words_from(s, i)[j]).len() > 0,
        forall|j: int, k: int|
            0 <= j < words_from(s, i).len() && 0 <= k < words_from(s, i)[j].len()
                ==> !is_whitespace(#[trigger] words_from(s, i)[j][k]),
    decreases s.len() - i,
{
    if i < s.len() {
        if is_whitespace(s[i]) {
            lemma_words_hold_no_whitespace(s, i + 1);
            assert(words_from(s, i) == words_from(s, i + 1));
        } else {
            let end = run_end(s, i + 1, |c: char| !is_whitespace(c));
            lemma_run_end(s, i + 1, |c: char| !is_whitespace(c));
            lemma_words_hold_no_whitespace(s, end);
            let word = s.subrange(i, end);
            let rest = words_from(s, end);
            let words = words_from(s, i);
            assert(words == seq![word] + rest);
            assert forall|j: int| 0 <= j < words.len() implies (#[trigger] words[j]).len() > 0 by {
                if j > 0 {
                    assert(words[j] == rest[j - 1]);
                }
            }
            assert forall|j: int, k: int|
                0 <= j < words.len() && 0 <= k < words[j].len() implies !is_whitespace(
                #[trigger] words[j][k],
            ) by {
                if j == 0 {
                    assert(word[k] == s[i + k]);
                } else {
                    assert(words[j] == rest[j - 1]);
                }
            }
        }
    }
}

/// A character that has whitespace or an end of the text on either side,
/// where it is `lonely`, is the only character of its word.
pub proof fn lemma_lonely_chars_make_words_of_one(
    s: Seq<char>,
    i: int,
    lonely: spec_fn(char) -> bool,
)
    requires
        0 <= i <= s.len(),
        forall|p: int|
            0 <= p < s.len() && lonely(#[trigger] s[p]) ==> {
                &&& p == 0 || is_whitespace(s[p - 1])
                &&& p + 1 == s.len() || is_whitespace(s[p + 1])
            },
    ensures
        forall|j: int, k: int|
            0 <= j < words_from(s, i).len() && 0 <= k < words_from(s, i)[j].len() && lonely(
                #[trigger] words_from(s, i)[j][k],
            ) ==> words_from(s, i)[j].len() == 1,
    decreases s.len() - i,
{
    if i < s.len() {
        if is_whitespace(s[i]) {
            lemma_lonely_chars_make_words_of_one(s, i + 1, lonely);
            assert(words_from(s, i) == words_from(s, i + 1));
        } else {
            let end = run_end(s, i + 1, |c: char| !is_whitespace(c));
            lemma_run_end(s, i + 1, |c: char| !is_whitespace(c));
            lemma_lonely_chars_make_words_of_one(s, end, lonely);
            let word = s.subrange(i, end);
            let rest = words_from(s, end);
            let words = words_from(s, i);
            assert(words == seq![word] + rest);
            assert forall|j: int, k: int|
                0 <= j < words.len() && 0 <= k < words[j].len() && lonely(
                    #[trigger] words[j][k],
                ) implies words[j].len() == 1 by {
                if j == 0 {
                    let p = i + k;
                    assert(word[k] == s[p]);
                    if k > 0 {
                        assert(!is_whitespace(s[p - 1]));
                    }
                    if end > i + 1 {
                        assert(!is_whitespace(s[i + 1]));
                    }
                } else {
                    assert(words[j] == rest[j - 1]);
                }
            }
        }
    }
}

/// A character that is no whitespace and has whitespace or an end of the
/// text on either side is a word.
pub proof fn lemma_lonely_char_is_a_word(s: Seq<char>, i: int, q: int)
    requires
        0 <= i <= q < s.len(),
        !is_whitespace(s[q]),
        q == 0 || is_whitespace(s[q - 1]),
        q + 1 == s.len() || is_whitespace(s[q + 1]),
    ensures
        words_from(s, i).contains(seq![s[q]]),
    decreases s.len() - i,
{
    if is_whitespace(s[i]) {
        lemma_lonely_char_is_a_word(s, i + 1, q);
    } else {
        let end = run_end(s, i + 1, |c: char| !is_whitespace(c));
        lemma_run_end(s, i + 1, |c: char| !is_whitespace(c));
        let word = s.subrange(i, end);
        let rest = words_from(s, end);
        let words = words_from(s, i);
        assert(words == seq![word] + rest);
        if i == q {
            if end > i + 1 {
                assert(!is_whitespace(s[i + 1]));
            }
            assert(word == seq![s[q]]);
            assert(words[0] == seq![s[q]]);
        } else {
            if end > q - 1 {
                assert(!is_whitespace(s[q - 1]));
            }
            lemma_lonely_char_is_a_word(s, end, q);
            let at = choose|at: int| 0 <= at < rest.len() && rest[at] == seq![s[q]];
            assert(words[at + 1] == seq![s[q]]);
        }
    }
}

/// An item of a part is an item of the flattened sequence.
pub proof fn lemma_flatten_contains<A>(parts: Seq<Seq<A>>, i: int, k: int)
    requires
        0 <= i < parts.len(),
        0 <= k < parts[i].len(),
    ensures
        parts.flatten().contains(parts[i][k]),
    decreases parts.len(),
{
    let front = parts.drop_last();
    assert(parts == front.push(parts.last()));
    front.lemma_flatten_push(parts.last());
    if i == parts.len() - 1 {
        assert(parts.flatten()[front.flatten().len() + k] == parts[i][k]);
    } else {
        assert(front[i] == parts[i]);
        lemma_flatten_contains(front, i, k);
        let at = choose|at: int| 0 <= at < front.flatten().len() && front.flatten()[at] == parts[i][k];
        assert(parts.flatten()[at] == parts[i][k]);
    }
}

/// Mapping every item of a flattened sequence is mapping every item of every
/// part.
pub proof fn lemma_map_flatten<A, B>(parts: Seq<Seq<A>>, f: spec_fn(A) -> B)
    ensures
        parts.flatten().map_values(f) == parts.map_values(|part: Seq<A>| part.map_values(f)).flatten(),
    decreases parts.len(),
{
    let mapped = parts.map_values(|part: Seq<A>| part.map_values(f));
    if parts.len() > 0 {
        let front = parts.drop_last();
        lemma_map_flatten(front, f);
        assert(parts == front.push(parts.last()));
        front.lemma_flatten_push(parts.last());
        let mapped_front = front.map_values(|part: Seq<A>| part.map_values(f));
        assert(mapped == mapped_front.push(parts.last().map_values(f)));
        mapped_front.lemma_flatten_push(parts.last().map_values(f));
        assert((front.flatten() + parts.last()).map_values(f) == front.flatten().map_values(f)
            + parts.last().map_values(f));
    } else {
        assert(mapped.len() == 0);
        assert(parts.flatten().map_values(f) == Seq::<B>::empty());
    }
}

/// What holds of every item of every part holds of every item of the
/// flattened sequence.
pub proof fn lemma_flatten_all<A>(parts: Seq<Seq<A>>, holds: spec_fn(A) -> bool)
    requires
        forall|i: int, k: int|
            0 <= i < parts.len() && 0 <= k < parts[i].len() ==> holds(#[trigger] parts[i][k]),
    ensures
        forall|k: int| 0 <= k < parts.flatten().len() ==> holds(#[trigger] parts.flatten()[k]),
    decreases parts.len(),
{
    if parts.len() > 0 {
        let front = parts.drop_last();
        assert forall|i: int, k: int| 0 <= i < front.len() && 0 <= k < front[i].len() implies holds(
            #[trigger] front[i][k],
        ) by {
            assert(front[i] == parts[i]);
        }
        lemma_flatten_all(front, holds);
        assert(parts == front.push(parts.last()));
        front.lemma_flatten_push(parts.last());
        assert forall|k: int| 0 <= k < parts.flatten().len() implies holds(
            #[trigger] parts.flatten()[k],
        ) by {
            if k >= front.flatten().len() {
                assert(parts.flatten()[k] == parts[parts.len() - 1][k - front.flatten().len()]);
            }
        }
    }
}

} // verus!
