//! The complete tokenizer: words first, vocabulary pieces second, model
//! input last.

use vstd::prelude::*;
use indexmap::IndexMap;
use crate::basic::{basic_tokens, BasicTokenizer};
use crate::encoding::{
    encode_pair, encode_single, lemma_layout_lengths, lemma_truncation_budget, pair_first,
    pair_second, single_first, EncodedSequence,
};
use crate::error::TokenizerError;
use crate::vocab::{
    convert_ids_to_tokens, convert_tokens_to_ids, id_tokens, ids_of_tokens, inv_vocab_insert,
    inv_vocab_of, lemma_inv_vocab_of, lemma_vocab_of, new_inv_vocab, new_vocab, token_ids,
    tokens_of_ids, vocab_get, vocab_insert, vocab_of,
};
use crate::text::{lemma_flatten_all, lemma_map_flatten};
use crate::wordpiece::{
    lemma_wordpiece_ids_follow_tokens, lemma_wordpiece_tokens_are_known, wordpiece_ids,
    wordpiece_tokens, WordpieceTokenizer,
};

verus! {

/// The longest word, in characters, that the tokenizer segments.
pub const MAX_INPUT_CHARS_PER_WORD: usize = 100;

/// The most entries a vocabulary may list: ids are handed out as `i32`.
pub const MAX_VOCAB_SIZE: usize = 0x7fff_ffff;

/// Basic and wordpiece tokenization over one vocabulary, with the ids of the
/// reserved tokens.
pub struct FullTokenizer {
    pub basic_tokenizer: BasicTokenizer,
    pub wordpiece_tokenizer: WordpieceTokenizer,
    pub cls_token_id: usize,
    pub sep_token_id: usize,
    pub pad_token_id: usize,
    pub unk_token_id: usize,
    pub mask_token_id: Option<usize>,
}

/// The token that opens every model input.
pub open spec fn cls_token() -> Seq<char> {
    "[CLS]"@
}

/// The token that closes every segment.
pub open spec fn sep_token() -> Seq<char> {
    "[SEP]"@
}

/// The token whose id fills the unused positions.
pub open spec fn pad_token() -> Seq<char> {
    "[PAD]"@
}

/// The token that stands for a word outside the vocabulary.
pub open spec fn unk_token() -> Seq<char> {
    "[UNK]"@
}

/// The token that hides a position from the model.
pub open spec fn mask_token() -> Seq<char> {
    "[MASK]"@
}

/// The tokens of a text: every basic token, segmented against the vocabulary.
pub open spec fn full_tokens(
    do_lower_case: bool,
    vocab: Map<Seq<char>, usize>,
    unk: Seq<char>,
    max_chars: int,
    text: Seq<char>,
) -> Seq<Seq<char>> {
    basic_tokens(do_lower_case, text).flat_map(
        |token: Seq<char>| wordpiece_tokens(vocab, unk, max_chars, token),
    )
}

/// The ids of a text: those of every basic token, segmented against the
/// vocabulary.
pub open spec fn full_ids(
    do_lower_case: bool,
    vocab: Map<Seq<char>, usize>,
    unk_id: usize,
    max_chars: int,
    text: Seq<char>,
) -> Seq<i32> {
    basic_tokens(do_lower_case, text).flat_map(
        |token: Seq<char>| wordpiece_ids(vocab, unk_id, max_chars, token),
    )
}

/// The text behind an optional second argument.
pub open spec fn optional_text(text: Option<&str>) -> Option<Seq<char>> {
    match text {
        Some(t) => Some(t@),
        None => None,
    }
}

/// The id of `token` where the vocabulary has it, `default` otherwise.
pub open spec fn id_or(vocab: Map<Seq<char>, usize>, token: Seq<char>, default: usize) -> usize {
    if vocab.contains_key(token) {
        vocab[token]
    } else {
        default
    }
}

/// The ids of a text are the ids of its tokens, whatever the words were cut
/// into before: the id path and the token path agree.
pub proof fn lemma_ids_follow_tokens(
    do_lower_case: bool,
    vocab: Map<Seq<char>, usize>,
    unk: Seq<char>,
    unk_id: usize,
    max_chars: int,
    text: Seq<char>,
)
    requires
        vocab.contains_key(unk),
        vocab[unk] == unk_id,
    ensures
        full_ids(do_lower_case, vocab, unk_id, max_chars, text) == full_tokens(
            do_lower_case,
            vocab,
            unk,
            max_chars,
            text,
        ).map_values(|token: Seq<char>| vocab[token] as i32),
        forall|i: int|
            0 <= i < full_tokens(do_lower_case, vocab, unk, max_chars, text).len()
                ==> vocab.contains_key(
                #[trigger] full_tokens(do_lower_case, vocab, unk, max_chars, text)[i],
            ),
{
    let basic = basic_tokens(do_lower_case, text);
    let id_of = |token: Seq<char>| vocab[token] as i32;
    let token_parts = basic.map_values(
        |token: Seq<char>| wordpiece_tokens(vocab, unk, max_chars, token),
    );
    let id_parts = basic.map_values(|token: Seq<char>| wordpiece_ids(vocab, unk_id, max_chars, token));
    lemma_map_flatten(token_parts, id_of);
    assert(token_parts.map_values(|part: Seq<Seq<char>>| part.map_values(id_of)) == id_parts) by {
        assert forall|i: int| 0 <= i < basic.len() implies #[trigger] token_parts[i].map_values(
            id_of,
        ) == id_parts[i] by {
            lemma_wordpiece_ids_follow_tokens(vocab, unk, unk_id, max_chars, basic[i]);
        }
    }
    assert forall|i: int, k: int| 0 <= i < token_parts.len() && 0 <= k < token_parts[i].len() implies vocab.contains_key(
        #[trigger] token_parts[i][k],
    ) by {
        lemma_wordpiece_tokens_are_known(vocab, unk, max_chars, basic[i]);
    }
    lemma_flatten_all(token_parts, |token: Seq<char>| vocab.contains_key(token));
}

impl FullTokenizer {
    /// Whether words are lower-cased and stripped of accents.
    pub open spec fn do_lower_case(&self) -> bool {
        self.basic_tokenizer.do_lower_case
    }

    /// The token-to-id entries.
    pub open spec fn vocab(&self) -> Map<Seq<char>, usize> {
        self.wordpiece_tokenizer.vocab()
    }

    /// The id-to-token entries.
    pub open spec fn inv_vocab(&self) -> Map<usize, Seq<char>> {
        self.wordpiece_tokenizer.inv_vocab()
    }

    /// The id under which words that do not decompose come out.
    pub open spec fn unknown_id(&self) -> usize {
        self.wordpiece_tokenizer.unk_id()
    }

    /// The token under which words that do not decompose come out.
    pub open spec fn unknown_token(&self) -> Seq<char> {
        self.wordpiece_tokenizer.unk_token()
    }

    /// The longest word that is segmented.
    pub open spec fn max_chars(&self) -> int {
        self.wordpiece_tokenizer.max_chars()
    }

    /// The tokens that `tokenize` gives for `text`.
    pub open spec fn tokens_of(&self, text: Seq<char>) -> Seq<Seq<char>> {
        full_tokens(
            self.do_lower_case(),
            self.vocab(),
            self.unknown_token(),
            self.max_chars(),
            text,
        )
    }

    /// The ids that `tokenize_to_ids` gives for `text`.
    pub open spec fn ids_of(&self, text: Seq<char>) -> Seq<i32> {
        full_ids(self.do_lower_case(), self.vocab(), self.unknown_id(), self.max_chars(), text)
    }

    /// The first segment of the model input for one or two texts.
    pub open spec fn input_first(
        &self,
        text_a: Seq<char>,
        text_b: Option<Seq<char>>,
        max_seq_len: int,
    ) -> Seq<i32> {
        match text_b {
            Some(b) => pair_first(
                self.ids_of(text_a),
                self.ids_of(b),
                self.cls_token_id as i32,
                self.sep_token_id as i32,
                max_seq_len,
            ),
            None => single_first(
                self.ids_of(text_a),
                self.cls_token_id as i32,
                self.sep_token_id as i32,
                max_seq_len,
            ),
        }
    }

    /// The second segment of the model input for one or two texts.
    pub open spec fn input_second(
        &self,
        text_a: Seq<char>,
        text_b: Option<Seq<char>>,
        max_seq_len: int,
    ) -> Seq<i32> {
        match text_b {
            Some(b) => pair_second(
                self.ids_of(text_a),
                self.ids_of(b),
                self.sep_token_id as i32,
                max_seq_len,
            ),
            None => Seq::empty(),
        }
    }

    /// The reserved ids are those of the vocabulary, every id fits the id
    /// arrays, and every id leads back to its token.
    pub open spec fn wf(&self) -> bool {
        &&& self.vocab().contains_key(cls_token())
        &&& self.vocab().contains_key(sep_token())
        &&& self.vocab().contains_key(unk_token())
        &&& self.cls_token_id == self.vocab()[cls_token()]
        &&& self.sep_token_id == self.vocab()[sep_token()]
        &&& self.unk_token_id == self.vocab()[unk_token()]
        &&& self.pad_token_id == id_or(self.vocab(), pad_token(), 0)
        &&& self.mask_token_id == (if self.vocab().contains_key(mask_token()) {
            Some(self.vocab()[mask_token()])
        } else {
            None
        })
        &&& self.unknown_token() == unk_token()
        &&& self.unknown_id() == self.unk_token_id
        &&& self.max_chars() == MAX_INPUT_CHARS_PER_WORD
        &&& forall|token: Seq<char>| #[trigger]
            self.vocab().contains_key(token) ==> {
                &&& self.vocab()[token] <= i32::MAX
                &&& self.inv_vocab().contains_key(self.vocab()[token])
                &&& self.inv_vocab()[self.vocab()[token]] == token
            }
    }

    /// A listing from which a tokenizer can be built: no longer than
    /// `MAX_VOCAB_SIZE`, and with `[CLS]`, `[SEP]` and `[UNK]` in it.
    pub open spec fn listing_is_complete(listing: Seq<Seq<char>>) -> bool {
        &&& listing.len() <= MAX_VOCAB_SIZE
        &&& listing.contains(cls_token())
        &&& listing.contains(sep_token())
        &&& listing.contains(unk_token())
    }

    /// Every id that tokenization returns is in the vocabulary, under the
    /// token that it was returned for.
    pub proof fn lemma_ids_lead_back_to_tokens(&self, text: Seq<char>)
        requires
            self.wf(),
        ensures
            self.ids_of(text).len() == self.tokens_of(text).len(),
            forall|i: int|
                0 <= i < self.ids_of(text).len() ==> {
                    &&& 0 <= (#[trigger] self.ids_of(text)[i])
                    &&& self.ids_of(text)[i] == self.vocab()[self.tokens_of(text)[i]]
                    &&& self.inv_vocab().contains_key(self.ids_of(text)[i] as usize)
                    &&& self.inv_vocab()[self.ids_of(text)[i] as usize] == self.tokens_of(text)[i]
                },
    {
        lemma_ids_follow_tokens(
            self.do_lower_case(),
            self.vocab(),
            self.unknown_token(),
            self.unknown_id(),
            self.max_chars(),
            text,
        );
        assert forall|i: int| 0 <= i < self.ids_of(text).len() implies {
            &&& 0 <= (#[trigger] self.ids_of(text)[i])
            &&& self.ids_of(text)[i] == self.vocab()[self.tokens_of(text)[i]]
            &&& self.inv_vocab().contains_key(self.ids_of(text)[i] as usize)
            &&& self.inv_vocab()[self.ids_of(text)[i] as usize] == self.tokens_of(text)[i]
        } by {
            let token = self.tokens_of(text)[i];
            assert(self.vocab().contains_key(token));
            assert(self.ids_of(text)[i] == self.vocab()[token] as i32);
        }
    }

    /// Tokenizing is a function of the tokenizer and the text: whatever two
    /// runs on one text return, they return the same.
    pub proof fn lemma_tokenizing_is_deterministic(
        &self,
        text: Seq<char>,
        first_tokens: Vec<String>,
        second_tokens: Vec<String>,
        first_ids: Vec<i32>,
        second_ids: Vec<i32>,
    )
        requires
            first_tokens.deep_view() == self.tokens_of(text),
            second_tokens.deep_view() == self.tokens_of(text),
            first_ids@ == self.ids_of(text),
            second_ids@ == self.ids_of(text),
        ensures
            first_tokens.deep_view() == second_tokens.deep_view(),
            first_ids@ == second_ids@,
    {
    }

    /// Builds both maps from a listing in which the position of a token is
    /// its id.
    ///
    /// Fails with `ConfigurationError` exactly when the listing is longer
    /// than `MAX_VOCAB_SIZE`.
    pub fn load_vocab(vocab_tokens: &Vec<String>) -> (r: Result<
        (IndexMap<String, usize>, IndexMap<usize, String>),
        TokenizerError,
    >)
        ensures
            r is Ok <==> vocab_tokens.len() <= MAX_VOCAB_SIZE,
            r is Err ==> r == Err::<
                (IndexMap<String, usize>, IndexMap<usize, String>),
                TokenizerError,
            >(TokenizerError::ConfigurationError),
            r is Ok ==> token_ids(r->Ok_0.0) == vocab_of(vocab_tokens.deep_view()),
            r is Ok ==> id_tokens(r->Ok_0.1) == inv_vocab_of(vocab_tokens.deep_view()),
    {
        if vocab_tokens.len() > MAX_VOCAB_SIZE {
            return Err(TokenizerError::ConfigurationError);
        }
        let mut vocab = new_vocab();
        let mut inv_vocab = new_inv_vocab();
        assert(token_ids(vocab) == vocab_of(Seq::empty()));
        assert(id_tokens(inv_vocab) == inv_vocab_of(Seq::empty()));
        let mut index: usize = 0;
        while index < vocab_tokens.len()
            invariant
                index <= vocab_tokens.len(),
                token_ids(vocab) == vocab_of(vocab_tokens.deep_view().take(index as int)),
                id_tokens(inv_vocab) == inv_vocab_of(vocab_tokens.deep_view().take(index as int)),
            decreases vocab_tokens.len() - index,
        {
            let token = vocab_tokens[index].clone();
            proof {
                let done = vocab_tokens.deep_view().take(index as int);
                let next = vocab_tokens.deep_view().take(index + 1);
                assert(next.drop_last() == done);
                assert(next.last() == token@);
                assert(inv_vocab_of(done).insert(index, token@) == inv_vocab_of(next));
            }
            vocab_insert(&mut vocab, token.clone(), index);
            inv_vocab_insert(&mut inv_vocab, index, token);
            index += 1;
        }
        assert(vocab_tokens.deep_view().take(vocab_tokens.len() as int)
            == vocab_tokens.deep_view());
        Ok((vocab, inv_vocab))
    }

    /// A tokenizer over the listed vocabulary.
    ///
    /// Fails with `ConfigurationError` exactly when the listing is longer
    /// than `MAX_VOCAB_SIZE` or lacks one of `[CLS]`, `[SEP]`, `[UNK]`.
    pub fn new(vocab_tokens: &Vec<String>, do_lower_case: bool) -> (r: Result<
        FullTokenizer,
        TokenizerError,
    >)
        ensures
            r is Ok <==> FullTokenizer::listing_is_complete(vocab_tokens.deep_view()),
            r is Err ==> r == Err::<FullTokenizer, TokenizerError>(
                TokenizerError::ConfigurationError,
            ),
            r is Ok ==> {
                &&& r->Ok_0.wf()
                &&& r->Ok_0.do_lower_case() == do_lower_case
                &&& r->Ok_0.vocab() == vocab_of(vocab_tokens.deep_view())
                &&& r->Ok_0.inv_vocab() == inv_vocab_of(vocab_tokens.deep_view())
            },
    {
        let basic_tokenizer = BasicTokenizer::new(do_lower_case);
        let (vocab, inv_vocab) = match FullTokenizer::load_vocab(vocab_tokens) {
            Ok(maps) => maps,
            Err(e) => {
                return Err(e);
            },
        };
        proof {
            lemma_vocab_of(vocab_tokens.deep_view());
            lemma_inv_vocab_of(vocab_tokens.deep_view());
        }
        let cls = vocab_get(&vocab, "[CLS]");
        let sep = vocab_get(&vocab, "[SEP]");
        let unk = vocab_get(&vocab, "[UNK]");
        let pad = vocab_get(&vocab, "[PAD]");
        let mask = vocab_get(&vocab, "[MASK]");
        match (cls, sep, unk) {
            (Some(cls_token_id), Some(sep_token_id), Some(unk_token_id)) => {
                let pad_token_id = match pad {
                    Some(id) => id,
                    None => 0,
                };
                match WordpieceTokenizer::new(
                    vocab,
                    inv_vocab,
                    "[UNK]",
                    MAX_INPUT_CHARS_PER_WORD,
                ) {
                    Ok(wordpiece_tokenizer) => Ok(
                        FullTokenizer {
                            basic_tokenizer,
                            wordpiece_tokenizer,
                            cls_token_id,
                            sep_token_id,
                            pad_token_id,
                            unk_token_id,
                            mask_token_id: mask,
                        },
                    ),
                    Err(e) => Err(e),
                }
            },
            _ => Err(TokenizerError::ConfigurationError),
        }
    }

    /// The vocabulary pieces of `text`.
    pub fn tokenize(&self, text: &str) -> (split_tokens: Vec<String>)
        ensures
            split_tokens.deep_view() == self.tokens_of(text@),
    {
        let basic = self.basic_tokenizer.tokenize(text);
        let ghost pieces_of = |token: Seq<char>|
            wordpiece_tokens(self.vocab(), self.unknown_token(), self.max_chars(), token);
        let mut split_tokens: Vec<String> = Vec::new();
        let mut i: usize = 0;
        while i < basic.len()
            invariant
                i <= basic.len(),
                pieces_of == |token: Seq<char>|
                    wordpiece_tokens(self.vocab(), self.unknown_token(), self.max_chars(), token),
                split_tokens.deep_view() == basic.deep_view().take(i as int).flat_map(pieces_of),
            decreases basic.len() - i,
        {
            let token = &basic[i];
            let mut pieces = self.wordpiece_tokenizer.tokenize(token.as_str());
            let ghost before = split_tokens.deep_view();
            let ghost added = pieces.deep_view();
            split_tokens.append(&mut pieces);
            proof {
                let done = basic.deep_view().take(i as int);
                assert(split_tokens.deep_view() == before + added);
                assert(basic.deep_view().take(i + 1) == done.push(token@));
                assert(done.push(token@).map_values(pieces_of) == done.map_values(pieces_of).push(
                    pieces_of(token@),
                ));
                done.map_values(pieces_of).lemma_flatten_push(pieces_of(token@));
            }
            i += 1;
        }
        assert(basic.deep_view().take(basic.len() as int) == basic.deep_view());
        split_tokens
    }

    /// The vocabulary ids of `text`.
    pub fn tokenize_to_ids(&self, text: &str) -> (input_ids: Vec<i32>)
        ensures
            input_ids@ == self.ids_of(text@),
    {
        let basic = self.basic_tokenizer.tokenize(text);
        let ghost ids_of = |token: Seq<char>|
            wordpiece_ids(self.vocab(), self.unknown_id(), self.max_chars(), token);
        let mut input_ids: Vec<i32> = Vec::new();
        let mut i: usize = 0;
        while i < basic.len()
            invariant
                i <= basic.len(),
                ids_of == |token: Seq<char>|
                    wordpiece_ids(self.vocab(), self.unknown_id(), self.max_chars(), token),
                input_ids@ == basic.deep_view().take(i as int).flat_map(ids_of),
            decreases basic.len() - i,
        {
            let token = &basic[i];
            let mut ids = self.wordpiece_tokenizer.tokenize_to_ids(token.as_str());
            input_ids.append(&mut ids);
            proof {
                let done = basic.deep_view().take(i as int);
                assert(basic.deep_view().take(i + 1) == done.push(token@));
                assert(done.push(token@).map_values(ids_of) == done.map_values(ids_of).push(
                    ids_of(token@),
                ));
                done.map_values(ids_of).lemma_flatten_push(ids_of(token@));
            }
            i += 1;
        }
        assert(basic.deep_view().take(basic.len() as int) == basic.deep_view());
        input_ids
    }

    /// The ids of the given tokens.
    ///
    /// Fails with `LookupError` exactly when some token is not in the
    /// vocabulary.
    pub fn convert_tokens_to_ids(&self, tokens: &[String]) -> (r: Result<Vec<usize>, TokenizerError>)
        ensures
            r is Ok <==> forall|i: int|
                0 <= i < tokens.len() ==> self.vocab().contains_key(#[trigger] tokens[i]@),
            r is Ok ==> r->Ok_0@ == ids_of_tokens(self.vocab(), tokens.deep_view()),
            r is Err ==> r == Err::<Vec<usize>, TokenizerError>(TokenizerError::LookupError),
    {
        convert_tokens_to_ids(self.wordpiece_tokenizer.vocab_map(), tokens)
    }

    /// The tokens of the given ids.
    ///
    /// Fails with `LookupError` exactly when some id is not in the
    /// vocabulary.
    pub fn convert_ids_to_tokens(&self, ids: &[usize]) -> (r: Result<Vec<String>, TokenizerError>)
        ensures
            r is Ok <==> forall|i: int|
                0 <= i < ids.len() ==> self.inv_vocab().contains_key(#[trigger] ids[i]),
            r is Ok ==> r->Ok_0.deep_view() == tokens_of_ids(self.inv_vocab(), ids@),
            r is Err ==> r == Err::<Vec<String>, TokenizerError>(TokenizerError::LookupError),
    {
        convert_ids_to_tokens(self.wordpiece_tokenizer.inv_vocab_map(), ids)
    }

    /// The model input for one text, or for a pair of texts.
    ///
    /// The ids of `text_a` stand between `[CLS]` and `[SEP]`; those of
    /// `text_b`, where there is one, follow with a `[SEP]` of their own. What
    /// does not fit in `max_seq_len` is cut from the tails, and the rest of
    /// the arrays is padding.
    ///
    /// Fails with `SizeError` exactly when `max_seq_len` is below 3.
    pub fn build_model_input(&self, text_a: &str, text_b: Option<&str>, max_seq_len: usize) -> (r:
        Result<EncodedSequence, TokenizerError>)
        ensures
            r is Ok <==> max_seq_len >= 3,
            r is Err ==> r == Err::<EncodedSequence, TokenizerError>(TokenizerError::SizeError),
            r is Ok ==> r->Ok_0.is_layout_of(
                self.input_first(text_a@, optional_text(text_b), max_seq_len as int),
                self.input_second(text_a@, optional_text(text_b), max_seq_len as int),
                #[verifier::truncate] (self.pad_token_id as i32),
                max_seq_len as int,
            ),
            r is Ok ==> {
                &&& r->Ok_0.input_ids@.len() == max_seq_len
                &&& r->Ok_0.segment_ids@.len() == max_seq_len
                &&& r->Ok_0.attention_mask@.len() == max_seq_len
                &&& r->Ok_0.real_len <= max_seq_len
            },
    {
        if max_seq_len < 3 {
            return Err(TokenizerError::SizeError);
        }
        let cls_id = #[verifier::truncate] (self.cls_token_id as i32);
        let sep_id = #[verifier::truncate] (self.sep_token_id as i32);
        let pad_id = #[verifier::truncate] (self.pad_token_id as i32);
        let ids_a = self.tokenize_to_ids(text_a);
        proof {
            let first = self.input_first(text_a@, optional_text(text_b), max_seq_len as int);
            let second = self.input_second(text_a@, optional_text(text_b), max_seq_len as int);
            if let Some(b) = text_b {
                lemma_truncation_budget(
                    self.ids_of(text_a@).len(),
                    self.ids_of(b@).len(),
                    (max_seq_len - 3) as nat,
                );
            }
            lemma_layout_lengths(first, second, pad_id, max_seq_len as int);
        }
        match text_b {
            Some(b) => {
                let ids_b = self.tokenize_to_ids(b);
                encode_pair(ids_a, ids_b, cls_id, sep_id, pad_id, max_seq_len)
            },
            None => encode_single(ids_a, cls_id, sep_id, pad_id, max_seq_len),
        }
    }
}

} // verus!
