//! Greedy longest-match segmentation of words into vocabulary pieces.

use vstd::prelude::*;
use indexmap::IndexMap;
use crate::error::TokenizerError;
use crate::text::{chars_of, lemma_flatten_all, lemma_map_flatten, split_whitespace, split_words};
use crate::vocab::{id_tokens, token_ids, vocab_get};

verus! {

/// Segments single words against a vocabulary.
pub struct WordpieceTokenizer {
    vocab: IndexMap<String, usize>,
    inv_vocab: IndexMap<usize, String>,
    unk_token: String,
    unk_id: usize,
    max_input_chars_per_word: usize,
}

/// The marker in front of every piece that continues a word.
pub open spec fn continuation_prefix() -> Seq<char> {
    seq!['#', '#']
}

/// The vocabulary entry that stands for `word[start..end]`: the characters
/// themselves at the start of the word, marked as a continuation elsewhere.
pub open spec fn piece_at(word: Seq<char>, start: int, end: int) -> Seq<char> {
    if start > 0 {
        continuation_prefix() + word.subrange(start, end)
    } else {
        word.subrange(start, end)
    }
}

/// Where the longest piece ends that starts at `start`, ends at or before
/// `end` and is in the vocabulary; `start` itself when there is none.
pub open spec fn longest_match_end(
    vocab: Map<Seq<char>, usize>,
    word: Seq<char>,
    start: int,
    end: int,
) -> int
    decreases end - start,
{
    if end <= start {
        start
    } else if vocab.contains_key(piece_at(word, start, end)) {
        end
    } else {
        longest_match_end(vocab, word, start, end - 1)
    }
}

/// The longest match is a match, and nothing longer is.
pub proof fn lemma_longest_match(
    vocab: Map<Seq<char>, usize>,
    word: Seq<char>,
    start: int,
    end: int,
)
    requires
        start <= end,
    ensures
        start <= longest_match_end(vocab, word, start, end) <= end,
        longest_match_end(vocab, word, start, end) > start ==> vocab.contains_key(
            piece_at(word, start, longest_match_end(vocab, word, start, end)),
        ),
        forall|longer: int|
            longest_match_end(vocab, word, start, end) < longer <= end ==> !vocab.contains_key(
                #[trigger] piece_at(word, start, longer),
            ),
    decreases end - start,
{
    if end > start && !vocab.contains_key(piece_at(word, start, end)) {
        lemma_longest_match(vocab, word, start, end - 1);
    }
}

/// The pieces of `word[start..]`, each the longest match at its position, or
/// nothing when some position has no match at all.
pub open spec fn subwords_from(vocab: Map<Seq<char>, usize>, word: Seq<char>, start: int) -> Option<
    Seq<Seq<char>>,
>
    decreases word.len() - start,
{
    if start < 0 || start >= word.len() {
        Some(Seq::empty())
    } else {
        let end = longest_match_end(vocab, word, start, word.len() as int);
        if end <= start {
            None
        } else {
            proof {
                lemma_longest_match(vocab, word, start, word.len() as int);
            }
            match subwords_from(vocab, word, end) {
                Some(rest) => Some(seq![piece_at(word, start, end)] + rest),
                None => None,
            }
        }
    }
}

/// The tokens of one word: its pieces, or the unknown token alone when the
/// word is too long or does not decompose.
pub open spec fn wordpiece_word(
    vocab: Map<Seq<char>, usize>,
    unk_token: Seq<char>,
    max_chars: int,
    word: Seq<char>,
) -> Seq<Seq<char>> {
    if word.len() > max_chars {
        seq![unk_token]
    } else {
        match subwords_from(vocab, word, 0) {
            Some(pieces) => pieces,
            None => seq![unk_token],
        }
    }
}

/// The ids of one word: those of its pieces, or the unknown id alone.
pub open spec fn wordpiece_word_ids(
    vocab: Map<Seq<char>, usize>,
    unk_id: usize,
    max_chars: int,
    word: Seq<char>,
) -> Seq<i32> {
    if word.len() > max_chars {
        seq![unk_id as i32]
    } else {
        match subwords_from(vocab, word, 0) {
            Some(pieces) => pieces.map_values(|piece: Seq<char>| vocab[piece] as i32),
            None => seq![unk_id as i32],
        }
    }
}

/// The tokens of a text: those of its whitespace-separated words, in order.
pub open spec fn wordpiece_tokens(
    vocab: Map<Seq<char>, usize>,
    unk_token: Seq<char>,
    max_chars: int,
    text: Seq<char>,
) -> Seq<Seq<char>> {
    split_whitespace(text).flat_map(
        |word: Seq<char>| wordpiece_word(vocab, unk_token, max_chars, word),
    )
}

/// The ids of a text: those of its whitespace-separated words, in order.
pub open spec fn wordpiece_ids(
    vocab: Map<Seq<char>, usize>,
    unk_id: usize,
    max_chars: int,
    text: Seq<char>,
) -> Seq<i32> {
    split_whitespace(text).flat_map(
        |word: Seq<char>| wordpiece_word_ids(vocab, unk_id, max_chars, word),
    )
}

/// The characters that a run of pieces stands for: the pieces in order,
/// every continuation piece without its marker.
pub open spec fn pieces_text(pieces: Seq<Seq<char>>, continuing: bool) -> Seq<char>
    decreases pieces.len(),
{
    if pieces.len() == 0 {
        Seq::empty()
    } else {
        (if continuing {
            pieces[0].skip(2)
        } else {
            pieces[0]
        }) + pieces_text(pieces.drop_first(), true)
    }
}

/// Where a word decomposes, every piece is in the vocabulary and the pieces
/// spell the word from `start` on.
pub proof fn lemma_subwords_spell_the_word(
    vocab: Map<Seq<char>, usize>,
    word: Seq<char>,
    start: int,
)
    requires
        0 <= start <= word.len(),
        subwords_from(vocab, word, start) is Some,
    ensures
        ({
            let pieces = subwords_from(vocab, word, start)->Some_0;
            &&& forall|i: int| 0 <= i < pieces.len() ==> vocab.contains_key(#[trigger] pieces[i])
            &&& pieces_text(pieces, start > 0) == word.subrange(start, word.len() as int)
            &&& start < word.len() ==> pieces.len() > 0
        }),
    decreases word.len() - start,
{
    if start < word.len() {
        let end = longest_match_end(vocab, word, start, word.len() as int);
        lemma_longest_match(vocab, word, start, word.len() as int);
        lemma_subwords_spell_the_word(vocab, word, end);
        let rest = subwords_from(vocab, word, end)->Some_0;
        let piece = piece_at(word, start, end);
        let pieces = subwords_from(vocab, word, start)->Some_0;
        assert(pieces == seq![piece] + rest);
        assert(pieces.drop_first() == rest);
        assert(start > 0 ==> piece.skip(2) == word.subrange(start, end));
        assert(word.subrange(start, end) + word.subrange(end, word.len() as int) == word.subrange(
            start,
            word.len() as int,
        ));
    } else {
        assert(word.subrange(start, word.len() as int) == Seq::<char>::empty());
    }
}

/// All or nothing: a word comes out either as pieces of the vocabulary that
/// spell the whole word, or as the unknown token alone; never as a part of
/// its pieces.
pub proof fn lemma_wordpiece_all_or_nothing(
    vocab: Map<Seq<char>, usize>,
    unk_token: Seq<char>,
    max_chars: int,
    word: Seq<char>,
)
    ensures
        ({
            let tokens = wordpiece_word(vocab, unk_token, max_chars, word);
            if word.len() <= max_chars && subwords_from(vocab, word, 0) is Some {
                &&& forall|i: int| 0 <= i < tokens.len() ==> vocab.contains_key(#[trigger] tokens[i])
                &&& pieces_text(tokens, false) == word
            } else {
                tokens == seq![unk_token]
            }
        }),
{
    if word.len() <= max_chars && subwords_from(vocab, word, 0) is Some {
        lemma_subwords_spell_the_word(vocab, word, 0);
        assert(word.subrange(0, word.len() as int) == word);
    }
}

/// With the unknown token in the vocabulary, every token of a text is.
pub proof fn lemma_wordpiece_tokens_are_known(
    vocab: Map<Seq<char>, usize>,
    unk_token: Seq<char>,
    max_chars: int,
    text: Seq<char>,
)
    requires
        vocab.contains_key(unk_token),
    ensures
        forall|i: int|
            0 <= i < wordpiece_tokens(vocab, unk_token, max_chars, text).len()
                ==> vocab.contains_key(
                #[trigger] wordpiece_tokens(vocab, unk_token, max_chars, text)[i],
            ),
{
    let words = split_whitespace(text);
    let parts = words.map_values(
        |word: Seq<char>| wordpiece_word(vocab, unk_token, max_chars, word),
    );
    assert forall|i: int, k: int| 0 <= i < parts.len() && 0 <= k < parts[i].len() implies vocab.contains_key(
        #[trigger] parts[i][k],
    ) by {
        lemma_wordpiece_all_or_nothing(vocab, unk_token, max_chars, words[i]);
    }
    lemma_flatten_all(parts, |token: Seq<char>| vocab.contains_key(token));
}

/// The id path and the token path agree: with the unknown token in the
/// vocabulary under the unknown id, the ids of a text are the ids of its
/// tokens.
pub proof fn lemma_wordpiece_ids_follow_tokens(
    vocab: Map<Seq<char>, usize>,
    unk_token: Seq<char>,
    unk_id: usize,
    max_chars: int,
    text: Seq<char>,
)
    requires
        vocab.contains_key(unk_token),
        vocab[unk_token] == unk_id,
    ensures
        wordpiece_ids(vocab, unk_id, max_chars, text) == wordpiece_tokens(
            vocab,
            unk_token,
            max_chars,
            text,
        ).map_values(|token: Seq<char>| vocab[token] as i32),
{
    let words = split_whitespace(text);
    let id_of = |token: Seq<char>| vocab[token] as i32;
    let token_parts = words.map_values(
        |word: Seq<char>| wordpiece_word(vocab, unk_token, max_chars, word),
    );
    let id_parts = words.map_values(
        |word: Seq<char>| wordpiece_word_ids(vocab, unk_id, max_chars, word),
    );
    lemma_map_flatten(token_parts, id_of);
    assert(token_parts.map_values(|part: Seq<Seq<char>>| part.map_values(id_of)) == id_parts) by {
        assert forall|i: int| 0 <= i < words.len() implies #[trigger] token_parts[i].map_values(
            id_of,
        ) == id_parts[i] by {
            let word = words[i];
            if word.len() <= max_chars && subwords_from(vocab, word, 0) is Some {
            } else {
                assert(seq![unk_token].map_values(id_of) == seq![unk_id as i32]);
            }
        }
    }
}

/// `done` in front of `rest`, where there is a rest.
pub open spec fn prepend_pieces(done: Seq<Seq<char>>, rest: Option<Seq<Seq<char>>>) -> Option<
    Seq<Seq<char>>,
> {
    match rest {
        Some(pieces) => Some(done + pieces),
        None => None,
    }
}

impl WordpieceTokenizer {
    /// The token-to-id entries.
    pub closed spec fn vocab(&self) -> Map<Seq<char>, usize> {
        token_ids(self.vocab)
    }

    /// The id-to-token entries.
    pub closed spec fn inv_vocab(&self) -> Map<usize, Seq<char>> {
        id_tokens(self.inv_vocab)
    }

    /// The token that stands for a word that does not decompose.
    pub closed spec fn unk_token(&self) -> Seq<char> {
        self.unk_token@
    }

    /// The id emitted for a word that does not decompose.
    pub closed spec fn unk_id(&self) -> usize {
        self.unk_id
    }

    /// The longest word, in characters, that is segmented at all.
    pub closed spec fn max_chars(&self) -> int {
        self.max_input_chars_per_word as int
    }

    /// The unknown token is in the vocabulary, under the unknown id.
    pub open spec fn wf(&self) -> bool {
        &&& self.vocab().contains_key(self.unk_token())
        &&& self.vocab()[self.unk_token()] == self.unk_id()
    }

    /// A tokenizer over the given maps.
    ///
    /// Fails with `ConfigurationError` exactly when the vocabulary lacks the
    /// unknown token.
    pub fn new(
        vocab: IndexMap<String, usize>,
        inv_vocab: IndexMap<usize, String>,
        unk_token: &str,
        max_input_chars_per_word: usize,
    ) -> (r: Result<WordpieceTokenizer, TokenizerError>)
        ensures
            r is Ok <==> token_ids(vocab).contains_key(unk_token@),
            r is Err ==> r == Err::<WordpieceTokenizer, TokenizerError>(
                TokenizerError::ConfigurationError,
            ),
            r is Ok ==> {
                &&& r->Ok_0.wf()
                &&& r->Ok_0.vocab() == token_ids(vocab)
                &&& r->Ok_0.inv_vocab() == id_tokens(inv_vocab)
                &&& r->Ok_0.unk_token() == unk_token@
                &&& r->Ok_0.max_chars() == max_input_chars_per_word
            },
    {
        match vocab_get(&vocab, unk_token) {
            Some(unk_id) => {
                let unk = String::from_str(unk_token);
                Ok(
                    WordpieceTokenizer {
                        vocab,
                        inv_vocab,
                        unk_id,
                        unk_token: unk,
                        max_input_chars_per_word,
                    },
                )
            },
            None => Err(TokenizerError::ConfigurationError),
        }
    }

    /// The token-to-id map.
    pub fn vocab_map(&self) -> (vocab: &IndexMap<String, usize>)
        ensures
            token_ids(*vocab) == self.vocab(),
    {
        &self.vocab
    }

    /// The id-to-token map.
    pub fn inv_vocab_map(&self) -> (inv_vocab: &IndexMap<usize, String>)
        ensures
            id_tokens(*inv_vocab) == self.inv_vocab(),
    {
        &self.inv_vocab
    }

    /// The vocabulary entry for `chars[start..end]` as a string.
    fn candidate(chars: &Vec<char>, start: usize, end: usize) -> (piece: String)
        requires
            start < end <= chars.len(),
        ensures
            piece@ == piece_at(chars@, start as int, end as int),
    {
        let mut piece = String::new();
        if start > 0 {
            piece.push('#');
            piece.push('#');
        }
        assert(start > 0 ==> piece@ == continuation_prefix());
        let ghost marker = piece@;
        let mut i: usize = start;
        while i < end
            invariant
                start <= i <= end <= chars.len(),
                piece@ == marker + chars@.subrange(start as int, i as int),
            decreases end - i,
        {
            piece.push(chars[i]);
            i += 1;
        }
        piece
    }

    /// The longest piece at `start` that the vocabulary has, with its end
    /// and its id.
    fn longest_match(&self, chars: &Vec<char>, start: usize) -> (found: Option<
        (usize, String, usize),
    >)
        requires
            start < chars.len(),
        ensures
            match found {
                Some((end, piece, id)) => {
                    &&& end == longest_match_end(
                        self.vocab(),
                        chars@,
                        start as int,
                        chars.len() as int,
                    )
                    &&& start < end <= chars.len()
                    &&& piece@ == piece_at(chars@, start as int, end as int)
                    &&& self.vocab().contains_key(piece@)
                    &&& id == self.vocab()[piece@]
                },
                None => longest_match_end(self.vocab(), chars@, start as int, chars.len() as int)
                    == start,
            },
    {
        let mut end: usize = chars.len();
        while start < end
            invariant
                start <= end <= chars.len(),
                longest_match_end(self.vocab(), chars@, start as int, end as int)
                    == longest_match_end(self.vocab(), chars@, start as int, chars.len() as int),
            decreases end - start,
        {
            let piece = WordpieceTokenizer::candidate(chars, start, end);
            match vocab_get(&self.vocab, piece.as_str()) {
                Some(id) => {
                    return Some((end, piece, id));
                },
                None => {},
            }
            end -= 1;
        }
        None
    }

    /// The pieces of a word and their ids, where the word decomposes.
    fn segment(&self, chars: &Vec<char>) -> (r: Option<(Vec<String>, Vec<i32>)>)
        ensures
            match r {
                Some((pieces, ids)) => {
                    &&& subwords_from(self.vocab(), chars@, 0) == Some(pieces.deep_view())
                    &&& ids@ == pieces.deep_view().map_values(
                        |piece: Seq<char>| self.vocab()[piece] as i32,
                    )
                },
                None => subwords_from(self.vocab(), chars@, 0) is None,
            },
    {
        let mut pieces: Vec<String> = Vec::new();
        let mut ids: Vec<i32> = Vec::new();
        let mut start: usize = 0;
        while start < chars.len()
            invariant
                start <= chars.len(),
                prepend_pieces(
                    pieces.deep_view(),
                    subwords_from(self.vocab(), chars@, start as int),
                ) == subwords_from(self.vocab(), chars@, 0),
                ids@ == pieces.deep_view().map_values(
                    |piece: Seq<char>| self.vocab()[piece] as i32,
                ),
            decreases chars.len() - start,
        {
            match self.longest_match(chars, start) {
                Some((end, piece, id)) => {
                    let ghost before = pieces.deep_view();
                    let ghost rest = subwords_from(self.vocab(), chars@, end as int);
                    pieces.push(piece);
                    ids.push(#[verifier::truncate] (id as i32));
                    proof {
                        assert(pieces.deep_view() == before.push(piece@));
                        assert(before.push(piece@).map_values(
                            |piece: Seq<char>| self.vocab()[piece] as i32,
                        ) == before.map_values(
                            |piece: Seq<char>| self.vocab()[piece] as i32,
                        ).push(self.vocab()[piece@] as i32));
                        if rest is Some {
                            assert(before + (seq![piece@] + rest->Some_0) == before.push(piece@)
                                + rest->Some_0);
                        }
                    }
                    start = end;
                },
                None => {
                    return None;
                },
            }
        }
        assert(pieces.deep_view() + Seq::<Seq<char>>::empty() == pieces.deep_view());
        Some((pieces, ids))
    }

    /// The tokens of `text`, word by word.
    pub fn tokenize(&self, text: &str) -> (output_tokens: Vec<String>)
        ensures
            output_tokens.deep_view() == wordpiece_tokens(
                self.vocab(),
                self.unk_token(),
                self.max_chars(),
                text@,
            ),
    {
        let text_chars = chars_of(text);
        let words = split_words(&text_chars);
        let ghost tokens_of = |word: Seq<char>|
            wordpiece_word(self.vocab(), self.unk_token(), self.max_chars(), word);
        let mut output_tokens: Vec<String> = Vec::new();
        let mut i: usize = 0;
        while i < words.len()
            invariant
                i <= words.len(),
                tokens_of == |word: Seq<char>|
                    wordpiece_word(self.vocab(), self.unk_token(), self.max_chars(), word),
                output_tokens.deep_view() == words.deep_view().take(i as int).flat_map(tokens_of),
            decreases words.len() - i,
        {
            let chars = chars_of(words[i].as_str());
            let ghost before = output_tokens.deep_view();
            if chars.len() > self.max_input_chars_per_word {
                output_tokens.push(self.unk_token.clone());
                assert(output_tokens.deep_view() == before + seq![self.unk_token@]);
            } else {
                match self.segment(&chars) {
                    Some((mut sub_tokens, _)) => {
                        let ghost added = sub_tokens.deep_view();
                        output_tokens.append(&mut sub_tokens);
                        assert(output_tokens.deep_view() == before + added);
                    },
                    None => {
                        output_tokens.push(self.unk_token.clone());
                        assert(output_tokens.deep_view() == before + seq![self.unk_token@]);
                    },
                }
            }
            proof {
                let done = words.deep_view().take(i as int);
                assert(words.deep_view().take(i + 1) == done.push(chars@));
                assert(done.push(chars@).map_values(tokens_of) == done.map_values(tokens_of).push(
                    tokens_of(chars@),
                ));
                done.map_values(tokens_of).lemma_flatten_push(tokens_of(chars@));
            }
            i += 1;
        }
        assert(words.deep_view().take(words.len() as int) == words.deep_view());
        output_tokens
    }

    /// The ids of `text`, word by word.
    pub fn tokenize_to_ids(&self, text: &str) -> (output_ids: Vec<i32>)
        ensures
            output_ids@ == wordpiece_ids(self.vocab(), self.unk_id(), self.max_chars(), text@),
    {
        let text_chars = chars_of(text);
        let words = split_words(&text_chars);
        let ghost ids_of = |word: Seq<char>|
            wordpiece_word_ids(self.vocab(), self.unk_id(), self.max_chars(), word);
        let mut output_ids: Vec<i32> = Vec::new();
        let mut i: usize = 0;
        while i < words.len()
            invariant
                i <= words.len(),
                ids_of == |word: Seq<char>|
                    wordpiece_word_ids(self.vocab(), self.unk_id(), self.max_chars(), word),
                output_ids@ == words.deep_view().take(i as int).flat_map(ids_of),
            decreases words.len() - i,
        {
            let chars = chars_of(words[i].as_str());
            let ghost before = output_ids@;
            if chars.len() > self.max_input_chars_per_word {
                output_ids.push(#[verifier::truncate] (self.unk_id as i32));
            } else {
                match self.segment(&chars) {
                    Some((_, mut sub_ids)) => {
                        output_ids.append(&mut sub_ids);
                    },
                    None => {
                        output_ids.push(#[verifier::truncate] (self.unk_id as i32));
                    },
                }
            }
            proof {
                let done = words.deep_view().take(i as int);
                assert(output_ids@ == before + ids_of(chars@));
                assert(words.deep_view().take(i + 1) == done.push(chars@));
                assert(done.push(chars@).map_values(ids_of) == done.map_values(ids_of).push(
                    ids_of(chars@),
                ));
                done.map_values(ids_of).lemma_flatten_push(ids_of(chars@));
            }
            i += 1;
        }
        assert(words.deep_view().take(words.len() as int) == words.deep_view());
        output_ids
    }
}

} // verus!
