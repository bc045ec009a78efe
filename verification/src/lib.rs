//! Text-to-tensor preparation for transformer language models.
//!
//! Raw text is normalised into words ([`BasicTokenizer`]), each word is cut
//! into vocabulary pieces by greedy longest match ([`WordpieceTokenizer`]),
//! and the pieces are laid out as fixed-length id, segment and mask arrays
//! ([`FullTokenizer::build_model_input`]). A [`Judger`] answers known
//! query/response pairs from a rule table and only assembles model input
//! when no rule applies.
//!
//! Every executable function carries a contract over a mathematical model of
//! its data (`Seq<char>` for text, `Map` for the vocabulary), and the laws
//! that tie the functions together are stated as public proof functions.

pub mod basic;
pub mod chars;
pub mod dialogue;
pub mod encoding;
pub mod error;
pub mod full;
pub mod judger;
pub mod rules;
pub mod text;
pub mod vocab;
pub mod wordpiece;

pub use crate::basic::BasicTokenizer;
pub use crate::chars::{_is_control, _is_punctuation, _is_whitespace, WHITESPACE_CHARACTER};
pub use crate::dialogue::{assemble_dialogue, fit_context, join_context, CONTEXT_SEP};
pub use crate::encoding::{
    assemble, encode_pair, encode_single, get_attention_mask, get_input_ids, get_token_type_ids,
    truncate_pair, EncodedSequence,
};
pub use crate::error::TokenizerError;
pub use crate::full::{FullTokenizer, MAX_INPUT_CHARS_PER_WORD, MAX_VOCAB_SIZE};
pub use crate::judger::{fill_template, Judger, Resolution};
pub use crate::rules::{
    lowest_common_index, outcome_for, Case, ExactCase, ExactRules, Inner, RuleInner, RuleMatcher,
};
pub use crate::vocab::{convert_ids_to_tokens, convert_tokens_to_ids};
pub use crate::wordpiece::WordpieceTokenizer;
