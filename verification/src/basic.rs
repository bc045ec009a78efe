//! Splitting raw text into words: cleaning, ideograph isolation, optional
//! case and accent folding, punctuation splitting.

use vstd::prelude::*;
use crate::chars::{
    _is_control, _is_punctuation, _is_whitespace, is_chinese_char, is_control, is_mark_nonspacing,
    is_punctuation, is_whitespace, lemma_chinese_char_is_kept, nonspacing_mark,
    WHITESPACE_CHARACTER,
};
use crate::text::{
    chars_of, lemma_flatten_all, lemma_flatten_contains, lemma_lonely_char_is_a_word,
    lemma_lonely_chars_make_words_of_one, lemma_run_end, lemma_words_hold_no_whitespace, run_end,
    split_whitespace, split_words, string_of, string_of_range,
};

verus! {

/// The first stage of tokenization, which knows no vocabulary.
pub struct BasicTokenizer {
    pub do_lower_case: bool,
}

/// The lower-case form of a string as `str::to_lowercase` computes it.
pub uninterp spec fn lowercase_of(s: Seq<char>) -> Seq<char>;

/// The canonical decomposition (NFD) of a string as `unicode_normalization`
/// computes it.
pub uninterp spec fn nfd_of(s: Seq<char>) -> Seq<char>;

/// `str::to_lowercase`: the Unicode lower-case mapping, which depends on the
/// string alone and is known here only by name.
#[verifier::external_body]
fn lowercase(s: &str) -> (r: String)
    ensures
        r@ == lowercase_of(s@),
{
    s.to_lowercase()
}

/// `UnicodeNormalization::nfd` for `&str`, collected: the characters of the
/// canonical decomposition, which depend on the string alone and are known
/// here only by name.
#[verifier::external_body]
fn nfd(s: &str) -> (r: Vec<char>)
    ensures
        r@ == nfd_of(s@),
{
    unicode_normalization::UnicodeNormalization::nfd(s).collect()
}

/// Cleaning keeps everything but NUL, the replacement character and the
/// control characters.
pub open spec fn survives_cleaning(c: char) -> bool {
    c as u32 != 0 && c as u32 != 0xFFFD && !is_control(c)
}

/// Cleaning turns every kind of whitespace into the plain space.
pub open spec fn cleaned_char(c: char) -> char {
    if is_whitespace(c) {
        WHITESPACE_CHARACTER
    } else {
        c
    }
}

/// The text without the characters that cleaning drops, its whitespace
/// made uniform.
pub open spec fn clean_text(text: Seq<char>) -> Seq<char> {
    text.filter(|c: char| survives_cleaning(c)).map_values(|c: char| cleaned_char(c))
}

/// What one character becomes when ideographs are set apart.
pub open spec fn isolated_char(c: char) -> Seq<char> {
    if is_chinese_char(c as u32) {
        seq![WHITESPACE_CHARACTER, c, WHITESPACE_CHARACTER]
    } else {
        seq![c]
    }
}

/// The text with a space on either side of every ideograph.
pub open spec fn isolate_chinese_chars(text: Seq<char>) -> Seq<char> {
    text.flat_map(|c: char| isolated_char(c))
}

/// The canonical decomposition without its nonspacing marks.
pub open spec fn strip_accents(text: Seq<char>) -> Seq<char> {
    nfd_of(text).filter(|c: char| !nonspacing_mark(c))
}

/// A word after case and accent folding, where that is switched on.
pub open spec fn normalized_word(do_lower_case: bool, word: Seq<char>) -> Seq<char> {
    if do_lower_case {
        strip_accents(lowercase_of(word))
    } else {
        word
    }
}

/// The pieces of `s` from position `i` on: every punctuation character by
/// itself, every maximal run of other characters as one piece.
pub open spec fn pieces_from(s: Seq<char>, i: int) -> Seq<Seq<char>>
    decreases s.len() - i,
{
    if i < 0 || i >= s.len() {
        Seq::empty()
    } else if is_punctuation(s[i]) {
        seq![seq![s[i]]] + pieces_from(s, i + 1)
    } else {
        let end = run_end(s, i + 1, |c: char| !is_punctuation(c));
        proof {
            lemma_run_end(s, i + 1, |c: char| !is_punctuation(c));
        }
        seq![s.subrange(i, end)] + pieces_from(s, end)
    }
}

/// A word cut at its punctuation.
pub open spec fn split_on_punctuation(s: Seq<char>) -> Seq<Seq<char>> {
    pieces_from(s, 0)
}

/// The whitespace-separated words of the cleaned text, ideographs set apart.
pub open spec fn basic_words(text: Seq<char>) -> Seq<Seq<char>> {
    split_whitespace(isolate_chinese_chars(clean_text(text)))
}

/// The tokens of a text: its words, folded where asked for, cut at their
/// punctuation.
pub open spec fn basic_tokens(do_lower_case: bool, text: Seq<char>) -> Seq<Seq<char>> {
    basic_words(text).flat_map(
        |word: Seq<char>| split_on_punctuation(normalized_word(do_lower_case, word)),
    )
}

/// Every ideograph of the isolated text has a space before and after it.
pub proof fn lemma_isolated_chars_have_spaces(text: Seq<char>)
    ensures
        forall|p: int|
            0 <= p < isolate_chinese_chars(text).len() && is_chinese_char(
                #[trigger] isolate_chinese_chars(text)[p] as u32,
            ) ==> {
                &&& 0 < p < isolate_chinese_chars(text).len() - 1
                &&& isolate_chinese_chars(text)[p - 1] == WHITESPACE_CHARACTER
                &&& isolate_chinese_chars(text)[p + 1] == WHITESPACE_CHARACTER
            },
    decreases text.len(),
{
    if text.len() > 0 {
        let front = text.drop_last();
        let last = text.last();
        lemma_isolated_chars_have_spaces(front);
        assert(text == front.push(last));
        assert(text.map_values(|c: char| isolated_char(c)) == front.map_values(
            |c: char| isolated_char(c),
        ).push(isolated_char(last)));
        front.map_values(|c: char| isolated_char(c)).lemma_flatten_push(isolated_char(last));
        let before = isolate_chinese_chars(front);
        let all = isolate_chinese_chars(text);
        assert(all == before + isolated_char(last));
        assert forall|p: int| 0 <= p < all.len() && is_chinese_char(#[trigger] all[p] as u32) implies {
            &&& 0 < p < all.len() - 1
            &&& all[p - 1] == WHITESPACE_CHARACTER
            &&& all[p + 1] == WHITESPACE_CHARACTER
        } by {
            if p < before.len() {
                assert(all[p] == before[p]);
            } else {
                assert(all[p] == isolated_char(last)[p - before.len()]);
            }
        }
    }
}

/// Ideographs become words of their own: every ideograph of a text is a
/// word of it, and no word holds an ideograph beside another character.
pub proof fn lemma_chinese_chars_are_words(text: Seq<char>)
    ensures
        forall|p: int|
            0 <= p < text.len() && is_chinese_char(#[trigger] text[p] as u32) ==> basic_words(
                text,
            ).contains(seq![text[p]]),
        forall|j: int, k: int|
            0 <= j < basic_words(text).len() && 0 <= k < basic_words(text)[j].len()
                && is_chinese_char(#[trigger] basic_words(text)[j][k] as u32) ==> basic_words(
                text,
            )[j].len() == 1,
{
    let cleaned = clean_text(text);
    let isolated = isolate_chinese_chars(cleaned);
    lemma_isolated_chars_have_spaces(cleaned);
    lemma_lonely_chars_make_words_of_one(isolated, 0, |c: char| is_chinese_char(c as u32));
    assert forall|p: int| 0 <= p < text.len() && is_chinese_char(#[trigger] text[p] as u32) implies basic_words(
        text,
    ).contains(seq![text[p]]) by {
        let c = text[p];
        lemma_chinese_char_is_kept(c);
        let kept = text.filter(|c: char| survives_cleaning(c));
        text.lemma_filter_contains(|c: char| survives_cleaning(c), p);
        let at = choose|at: int| 0 <= at < kept.len() && kept[at] == c;
        assert(cleaned[at] == c);
        let parts = cleaned.map_values(|c: char| isolated_char(c));
        assert(parts[at][1] == c);
        lemma_flatten_contains(parts, at, 1);
        let q = choose|q: int| 0 <= q < isolated.len() && isolated[q] == c;
        assert(is_chinese_char(isolated[q] as u32));
        lemma_lonely_char_is_a_word(isolated, 0, q);
    }
}

/// Every piece of a word is a part of it: not empty, no longer than the
/// word, and made of its characters.
pub proof fn lemma_pieces_are_parts(s: Seq<char>, i: int)
    requires
        0 <= i <= s.len(),
    ensures
        forall|m: int|
            0 <= m < pieces_from(s, i).len() ==> 1 <= (#[trigger] pieces_from(s, i)[m]).len()
                <= s.len(),
        forall|m: int, k: int|
            0 <= m < pieces_from(s, i).len() && 0 <= k < pieces_from(s, i)[m].len() ==> s.contains(
                #[trigger] pieces_from(s, i)[m][k],
            ),
    decreases s.len() - i,
{
    if i < s.len() {
        let end = if is_punctuation(s[i]) {
            i + 1
        } else {
            run_end(s, i + 1, |c: char| !is_punctuation(c))
        };
        lemma_run_end(s, i + 1, |c: char| !is_punctuation(c));
        lemma_pieces_are_parts(s, end);
        let piece = s.subrange(i, end);
        let rest = pieces_from(s, end);
        let pieces = pieces_from(s, i);
        assert(is_punctuation(s[i]) ==> piece == seq![s[i]]);
        assert(pieces == seq![piece] + rest);
        assert forall|m: int| 0 <= m < pieces.len() implies 1 <= (#[trigger] pieces[m]).len()
            <= s.len() by {
            if m > 0 {
                assert(pieces[m] == rest[m - 1]);
            }
        }
        assert forall|m: int, k: int| 0 <= m < pieces.len() && 0 <= k < pieces[m].len() implies s.contains(
            #[trigger] pieces[m][k],
        ) by {
            if m > 0 {
                assert(pieces[m] == rest[m - 1]);
            } else {
                assert(piece[k] == s[i + k]);
            }
        }
    }
}

/// No token is empty, with or without folding.
pub proof fn lemma_basic_tokens_are_not_empty(do_lower_case: bool, text: Seq<char>)
    ensures
        forall|j: int|
            0 <= j < basic_tokens(do_lower_case, text).len() ==> (#[trigger] basic_tokens(
                do_lower_case,
                text,
            )[j]).len() > 0,
{
    let words = basic_words(text);
    let parts = words.map_values(
        |word: Seq<char>| split_on_punctuation(normalized_word(do_lower_case, word)),
    );
    assert forall|j: int, m: int| 0 <= j < parts.len() && 0 <= m < parts[j].len() implies (
    #[trigger] parts[j][m]).len() > 0 by {
        lemma_pieces_are_parts(normalized_word(do_lower_case, words[j]), 0);
    }
    lemma_flatten_all(parts, |token: Seq<char>| token.len() > 0);
}

/// Without case folding, no token holds whitespace.
pub proof fn lemma_basic_tokens_hold_no_whitespace(text: Seq<char>)
    ensures
        forall|j: int, k: int|
            0 <= j < basic_tokens(false, text).len() && 0 <= k < basic_tokens(false, text)[j].len()
                ==> !is_whitespace(#[trigger] basic_tokens(false, text)[j][k]),
{
    let words = basic_words(text);
    let parts = words.map_values(
        |word: Seq<char>| split_on_punctuation(normalized_word(false, word)),
    );
    lemma_words_hold_no_whitespace(isolate_chinese_chars(clean_text(text)), 0);
    let solid = |token: Seq<char>|
        forall|k: int| 0 <= k < token.len() ==> !is_whitespace(#[trigger] token[k]);
    assert forall|j: int, m: int| 0 <= j < parts.len() && 0 <= m < parts[j].len() implies solid(
        #[trigger] parts[j][m],
    ) by {
        let word = words[j];
        let piece = parts[j][m];
        lemma_pieces_are_parts(word, 0);
        assert forall|k: int| 0 <= k < piece.len() implies !is_whitespace(#[trigger] piece[k]) by {
            assert(word.contains(piece[k]));
            let at = choose|at: int| 0 <= at < word.len() && word[at] == piece[k];
            assert(!is_whitespace(words[j][at]));
        }
    }
    lemma_flatten_all(parts, solid);
}

/// Without case folding, ideographs become tokens of their own: every
/// ideograph of a text is a token of it, and no token holds an ideograph
/// beside another character. (With folding on, the word of an ideograph is
/// folded like any other before it becomes a token.)
pub proof fn lemma_chinese_chars_are_tokens(text: Seq<char>)
    ensures
        forall|p: int|
            0 <= p < text.len() && is_chinese_char(#[trigger] text[p] as u32) ==> basic_tokens(
                false,
                text,
            ).contains(seq![text[p]]),
        forall|j: int, k: int|
            0 <= j < basic_tokens(false, text).len() && 0 <= k < basic_tokens(false, text)[j].len()
                && is_chinese_char(#[trigger] basic_tokens(false, text)[j][k] as u32)
                ==> basic_tokens(false, text)[j].len() == 1,
{
    let words = basic_words(text);
    let parts = words.map_values(
        |word: Seq<char>| split_on_punctuation(normalized_word(false, word)),
    );
    let tokens = basic_tokens(false, text);
    lemma_chinese_chars_are_words(text);
    assert forall|p: int| 0 <= p < text.len() && is_chinese_char(#[trigger] text[p] as u32) implies tokens.contains(
        seq![text[p]],
    ) by {
        let word = seq![text[p]];
        let at = choose|at: int| 0 <= at < words.len() && words[at] == word;
        lemma_run_end(word, 1, |c: char| !is_punctuation(c));
        assert(word.subrange(0, 1) == word);
        assert(parts[at] == seq![word] + pieces_from(word, 1));
        assert(parts[at][0] == word);
        lemma_flatten_contains(parts, at, 0);
    }
    let alone = |token: Seq<char>|
        forall|k: int|
            0 <= k < token.len() && is_chinese_char(#[trigger] token[k] as u32) ==> token.len()
                == 1;
    assert forall|j: int, m: int| 0 <= j < parts.len() && 0 <= m < parts[j].len() implies alone(
        #[trigger] parts[j][m],
    ) by {
        let word = words[j];
        let piece = parts[j][m];
        lemma_pieces_are_parts(word, 0);
        assert forall|k: int| 0 <= k < piece.len() && is_chinese_char(
            #[trigger] piece[k] as u32,
        ) implies piece.len() == 1 by {
            assert(word.contains(piece[k]));
            let at = choose|at: int| 0 <= at < word.len() && word[at] == piece[k];
            assert(is_chinese_char(words[j][at] as u32));
        }
    }
    lemma_flatten_all(parts, alone);
}

impl BasicTokenizer {
    /// A tokenizer that folds case and accents, or keeps them.
    pub fn new(do_lower_case: bool) -> (tokenizer: BasicTokenizer)
        ensures
            tokenizer.do_lower_case == do_lower_case,
    {
        BasicTokenizer { do_lower_case }
    }

    /// Drops what cleaning drops and makes whitespace uniform.
    pub fn _clean_text(&self, text: &str) -> (output: Vec<char>)
        ensures
            output@ == clean_text(text@),
    {
        let chars = chars_of(text);
        let mut output: Vec<char> = Vec::new();
        let mut i: usize = 0;
        while i < chars.len()
            invariant
                i <= chars.len(),
                output@ == clean_text(chars@.take(i as int)),
            decreases chars.len() - i,
        {
            let character = chars[i];
            let char_value = character as u32;
            proof {
                let done = chars@.take(i as int);
                assert(chars@.take(i + 1) == done.push(character));
                done.lemma_filter_push(character, |c: char| survives_cleaning(c));
                let kept = done.filter(|c: char| survives_cleaning(c));
                assert(kept.push(character).map_values(|c: char| cleaned_char(c))
                    == kept.map_values(|c: char| cleaned_char(c)).push(cleaned_char(character)));
            }
            if char_value == 0 || char_value == 0xfffd || _is_control(character) {
            } else if _is_whitespace(character) {
                output.push(WHITESPACE_CHARACTER);
            } else {
                output.push(character);
            }
            i += 1;
        }
        assert(chars@.take(chars.len() as int) == chars@);
        output
    }

    /// Whether a code point lies in one of the ideograph blocks.
    pub fn _is_chinese_char(cp: u32) -> (b: bool)
        ensures
            b == is_chinese_char(cp),
    {
        (cp >= 0x4E00 && cp <= 0x9FFF) || (cp >= 0x3400 && cp <= 0x4DBF) || (cp >= 0x20000 && cp
            <= 0x2A6DF) || (cp >= 0x2A700 && cp <= 0x2B73F) || (cp >= 0x2B740 && cp <= 0x2B81F)
            || (cp >= 0x2B820 && cp <= 0x2CEAF) || (cp >= 0xF900 && cp <= 0xFAFF) || (cp
            >= 0x2F800 && cp <= 0x2FA1F)
    }

    /// Puts a space on either side of every ideograph.
    pub fn _tokenize_chinese_chars(&self, text: Vec<char>) -> (output: Vec<char>)
        ensures
            output@ == isolate_chinese_chars(text@),
    {
        let mut output: Vec<char> = Vec::new();
        let mut i: usize = 0;
        while i < text.len()
            invariant
                i <= text.len(),
                output@ == isolate_chinese_chars(text@.take(i as int)),
            decreases text.len() - i,
        {
            let character = text[i];
            let cp = character as u32;
            proof {
                let done = text@.take(i as int);
                assert(text@.take(i + 1) == done.push(character));
                assert(done.push(character).map_values(|c: char| isolated_char(c))
                    == done.map_values(|c: char| isolated_char(c)).push(isolated_char(character)));
                done.map_values(|c: char| isolated_char(c)).lemma_flatten_push(
                    isolated_char(character),
                );
            }
            if BasicTokenizer::_is_chinese_char(cp) {
                output.push(WHITESPACE_CHARACTER);
                output.push(character);
                output.push(WHITESPACE_CHARACTER);
            } else {
                output.push(character);
            }
            i += 1;
        }
        assert(text@.take(text.len() as int) == text@);
        output
    }

    /// Decomposes the text and drops its nonspacing marks.
    pub fn _run_strip_accents(text: &str) -> (output: String)
        ensures
            output@ == strip_accents(text@),
    {
        let decomposed = nfd(text);
        let mut kept: Vec<char> = Vec::new();
        let mut i: usize = 0;
        while i < decomposed.len()
            invariant
                i <= decomposed.len(),
                kept@ == decomposed@.take(i as int).filter(|c: char| !nonspacing_mark(c)),
            decreases decomposed.len() - i,
        {
            let character = decomposed[i];
            proof {
                let done = decomposed@.take(i as int);
                assert(decomposed@.take(i + 1) == done.push(character));
                done.lemma_filter_push(character, |c: char| !nonspacing_mark(c));
            }
            if !is_mark_nonspacing(character) {
                kept.push(character);
            }
            i += 1;
        }
        assert(decomposed@.take(decomposed.len() as int) == decomposed@);
        string_of(&kept)
    }

    /// Cuts a word at its punctuation.
    pub fn _run_split_on_punc(text: &str) -> (output: Vec<String>)
        ensures
            output.deep_view() == split_on_punctuation(text@),
    {
        let chars = chars_of(text);
        let mut output: Vec<String> = Vec::new();
        let mut i: usize = 0;
        while i < chars.len()
            invariant
                i <= chars.len(),
                output.deep_view() + pieces_from(chars@, i as int) == split_on_punctuation(chars@),
            decreases chars.len() - i,
        {
            let ghost before = output.deep_view();
            let mut end: usize = i + 1;
            if !_is_punctuation(chars[i]) {
                proof {
                    lemma_run_end(chars@, i + 1, |c: char| !is_punctuation(c));
                }
                while end < chars.len() && !_is_punctuation(chars[end])
                    invariant
                        i < end <= chars.len(),
                        run_end(chars@, end as int, |c: char| !is_punctuation(c)) == run_end(
                            chars@,
                            i + 1,
                            |c: char| !is_punctuation(c),
                        ),
                    decreases chars.len() - end,
                {
                    end += 1;
                }
            }
            let piece = string_of_range(&chars, i, end);
            output.push(piece);
            proof {
                let piece_view = chars@.subrange(i as int, end as int);
                assert(is_punctuation(chars@[i as int]) ==> piece_view == seq![chars@[i as int]]);
                assert(output.deep_view() == before + seq![piece_view]);
                assert(before + (seq![piece_view] + pieces_from(chars@, end as int)) == (before
                    + seq![piece_view]) + pieces_from(chars@, end as int));
            }
            i = end;
        }
        assert(output.deep_view() + Seq::<Seq<char>>::empty() == output.deep_view());
        output
    }

    /// The tokens of `text`, before any vocabulary is consulted.
    pub fn tokenize(&self, text: &str) -> (tokens: Vec<String>)
        ensures
            tokens.deep_view() == basic_tokens(self.do_lower_case, text@),
    {
        let cleaned = self._clean_text(text);
        let isolated = self._tokenize_chinese_chars(cleaned);
        let words = split_words(&isolated);
        let ghost pieces_of = |word: Seq<char>|
            split_on_punctuation(normalized_word(self.do_lower_case, word));
        let mut tokens: Vec<String> = Vec::new();
        let mut i: usize = 0;
        while i < words.len()
            invariant
                i <= words.len(),
                pieces_of == |word: Seq<char>|
                    split_on_punctuation(normalized_word(self.do_lower_case, word)),
                tokens.deep_view() == words.deep_view().take(i as int).flat_map(pieces_of),
            decreases words.len() - i,
        {
            let word = &words[i];
            let mut pieces = if self.do_lower_case {
                let lowered = lowercase(word.as_str());
                let folded = BasicTokenizer::_run_strip_accents(lowered.as_str());
                BasicTokenizer::_run_split_on_punc(folded.as_str())
            } else {
                BasicTokenizer::_run_split_on_punc(word.as_str())
            };
            let ghost before = tokens.deep_view();
            let ghost added = pieces.deep_view();
            tokens.append(&mut pieces);
            proof {
                let done = words.deep_view().take(i as int);
                assert(words.deep_view().take(i + 1) == done.push(word@));
                assert(done.push(word@).map_values(pieces_of) == done.map_values(pieces_of).push(
                    pieces_of(word@),
                ));
                done.map_values(pieces_of).lemma_flatten_push(pieces_of(word@));
                assert(added == pieces_of(word@));
                assert(tokens.deep_view() == before + added);
            }
            i += 1;
        }
        assert(words.deep_view().take(words.len() as int) == words.deep_view());
        tokens
    }
}

} // verus!
