//! The judger: answers a known query/response pair from the rule table, and
//! assembles the dialogue as model input when no rule applies.

use vstd::prelude::*;
use crate::dialogue::{assemble_dialogue, dialogue_context_block};
use crate::encoding::EncodedSequence;
use crate::error::TokenizerError;
use crate::full::FullTokenizer;
use crate::rules::{
    patterns_compile, rule_bots, rule_queries, rule_values, ExactCase, ExactRules, Inner,
    RuleInner, RuleMatcher,
};
use crate::text::chars_of;

verus! {

struct Rule {
    template: Vec<String>,
    prompt: String,
    rule: RuleMatcher,
}

/// A rule table with the tokenizer and the templates that turn a dialogue
/// into model input.
pub struct Judger {
    pub tokenizer: FullTokenizer,
    inner: Rule,
}

/// What the judger makes of a dialogue.
pub enum Resolution {
    /// A rule applies: its outcome.
    Outcome(i64),
    /// No rule applies: the input for the model.
    ModelInput(EncodedSequence),
}

/// `template` from position `i` on, every `{}` replaced by `text`.
pub open spec fn substitute_from(template: Seq<char>, i: int, text: Seq<char>) -> Seq<char>
    decreases template.len() - i,
{
    if i < 0 || i >= template.len() {
        Seq::empty()
    } else if i + 1 < template.len() && template[i] == '{' && template[i + 1] == '}' {
        text + substitute_from(template, i + 2, text)
    } else {
        seq![template[i]] + substitute_from(template, i + 1, text)
    }
}

/// `template` with every `{}` replaced by `text`.
pub open spec fn substitute(template: Seq<char>, text: Seq<char>) -> Seq<char> {
    substitute_from(template, 0, text)
}

/// Fills `text` in for the placeholders of `template`.
pub fn fill_template(template: &str, text: &str) -> (filled: String)
    ensures
        filled@ == substitute(template@, text@),
{
    let chars = chars_of(template);
    let mut filled = String::new();
    let mut i: usize = 0;
    while i < chars.len()
        invariant
            i <= chars.len(),
            filled@ + substitute_from(chars@, i as int, text@) == substitute(chars@, text@),
        decreases chars.len() - i,
    {
        let ghost before = filled@;
        if i + 1 < chars.len() && chars[i] == '{' && chars[i + 1] == '}' {
            filled.append(text);
            assert(before + (text@ + substitute_from(chars@, i + 2, text@)) == (before + text@)
                + substitute_from(chars@, i + 2, text@));
            i += 2;
        } else {
            filled.push(chars[i]);
            assert(before + (seq![chars@[i as int]] + substitute_from(chars@, i + 1, text@))
                == before.push(chars@[i as int]) + substitute_from(chars@, i + 1, text@));
            i += 1;
        }
    }
    assert(filled@ + Seq::<char>::empty() == filled@);
    filled
}

impl Judger {
    /// The tokenizer that turns dialogue turns into ids.
    pub closed spec fn tokenizer_view(&self) -> FullTokenizer {
        self.tokenizer
    }

    /// The templates, one per turn.
    pub closed spec fn templates(&self) -> Seq<Seq<char>> {
        self.inner.template.deep_view()
    }

    /// The prompt that closes every dialogue.
    pub closed spec fn prompt_text(&self) -> Seq<char> {
        self.inner.prompt@
    }

    /// The rules.
    pub closed spec fn rules(&self) -> RuleMatcher {
        self.inner.rule
    }

    /// A dialogue is valid when it has one turn per template, at least one,
    /// and its last turn, the current query, is not empty.
    pub open spec fn valid_turns(&self, turns: Seq<Seq<char>>) -> bool {
        &&& turns.len() > 0
        &&& turns.len() == self.templates().len()
        &&& turns.last().len() > 0
    }

    /// The ids of every turn, each formatted by the template of its position.
    pub open spec fn turn_segments(&self, turns: Seq<Seq<char>>) -> Seq<Seq<i32>> {
        Seq::new(
            turns.len(),
            |i: int| self.tokenizer_view().ids_of(substitute(self.templates()[i], turns[i])),
        )
    }

    /// The ids of the prompt: the current block of every dialogue input.
    pub open spec fn prompt_ids(&self) -> Seq<i32> {
        self.tokenizer_view().ids_of(self.prompt_text())
    }

    /// A judger with pattern rules over a configuration and a vocabulary
    /// listing. Its tokenizer keeps the case of the text.
    ///
    /// Fails with `ConfigurationError` exactly when a pattern list does not
    /// compile or the tokenizer cannot be built from the listing.
    pub fn new(inner: Inner, vocab_tokens: &Vec<String>) -> (r: Result<Judger, TokenizerError>)
        ensures
            r is Ok <==> {
                &&& patterns_compile(rule_queries(inner.rule@))
                &&& patterns_compile(rule_bots(inner.rule@))
                &&& FullTokenizer::listing_is_complete(vocab_tokens.deep_view())
            },
            r is Err ==> r == Err::<Judger, TokenizerError>(TokenizerError::ConfigurationError),
            r is Ok ==> {
                &&& r->Ok_0.tokenizer_view().wf()
                &&& !r->Ok_0.tokenizer_view().do_lower_case()
                &&& r->Ok_0.templates() == inner.template.deep_view()
                &&& r->Ok_0.prompt_text() == inner.prompt@
                &&& r->Ok_0.rules() is Patterns
                &&& r->Ok_0.rules()->Patterns_0.queries() == rule_queries(inner.rule@)
                &&& r->Ok_0.rules()->Patterns_0.bots() == rule_bots(inner.rule@)
                &&& r->Ok_0.rules()->Patterns_0.values() == rule_values(inner.rule@)
            },
    {
        let rule_inner = match RuleInner::from_inner(&inner) {
            Ok(rule) => rule,
            Err(e) => {
                return Err(e);
            },
        };
        let tokenizer = match FullTokenizer::new(vocab_tokens, false) {
            Ok(tokenizer) => tokenizer,
            Err(e) => {
                return Err(e);
            },
        };
        let rule = Rule {
            template: inner.template,
            prompt: inner.prompt,
            rule: RuleMatcher::Patterns(rule_inner),
        };
        Ok(Judger { tokenizer, inner: rule })
    }

    /// A judger with exact rules over templates, a prompt and a vocabulary
    /// listing. Its tokenizer keeps the case of the text.
    ///
    /// Fails with `ConfigurationError` exactly when the tokenizer cannot be
    /// built from the listing.
    pub fn with_exact_rules(
        template: Vec<String>,
        prompt: String,
        cases: Vec<ExactCase>,
        vocab_tokens: &Vec<String>,
    ) -> (r: Result<Judger, TokenizerError>)
        ensures
            r is Ok <==> FullTokenizer::listing_is_complete(vocab_tokens.deep_view()),
            r is Err ==> r == Err::<Judger, TokenizerError>(TokenizerError::ConfigurationError),
            r is Ok ==> {
                &&& r->Ok_0.tokenizer_view().wf()
                &&& !r->Ok_0.tokenizer_view().do_lower_case()
                &&& r->Ok_0.templates() == template.deep_view()
                &&& r->Ok_0.prompt_text() == prompt@
                &&& r->Ok_0.rules() is Exact
                &&& r->Ok_0.rules()->Exact_0.cases() == cases@
            },
    {
        let tokenizer = match FullTokenizer::new(vocab_tokens, false) {
            Ok(tokenizer) => tokenizer,
            Err(e) => {
                return Err(e);
            },
        };
        let rule = Rule { template, prompt, rule: RuleMatcher::Exact(ExactRules::new(cases)) };
        Ok(Judger { tokenizer, inner: rule })
    }

    /// The outcome of the first rule that matches both, or -1 where no rule
    /// does.
    pub fn get(&self, query: &str, bot: &str) -> (value: i64)
        ensures
            value == (match self.rules().outcome(query@, bot@) {
                Some(v) => v,
                None => -1i64,
            }),
    {
        self.inner.rule.get(query, bot)
    }

    /// The number of turns that a dialogue must have.
    pub fn input_size(&self) -> (n: usize)
        ensures
            n == self.templates().len(),
    {
        self.inner.template.len()
    }

    /// The turn `q` as the template of position `s` formats it.
    pub fn format(&self, q: &str, s: usize) -> (formatted: String)
        requires
            s < self.templates().len(),
        ensures
            formatted@ == substitute(self.templates()[s as int], q@),
    {
        fill_template(self.inner.template[s].as_str(), q)
    }

    /// The prompt.
    pub fn prompt(&self) -> (prompt: String)
        ensures
            prompt@ == self.prompt_text(),
    {
        self.inner.prompt.clone()
    }

    /// Judges a dialogue whose last turn is the current query, paired with
    /// `response`.
    ///
    /// A dialogue that is not valid fails with `InputError`. Where a rule
    /// matches the query and the response, its outcome comes back and
    /// nothing is tokenized. Otherwise every turn is formatted and tokenized
    /// into the context, the prompt into the current block, and both are
    /// laid out in `max_seq_len` positions; that fails with `SizeError`
    /// exactly when the prompt alone fills them.
    pub fn resolve(&self, turns: &Vec<String>, response: &str, max_seq_len: usize) -> (r: Result<
        Resolution,
        TokenizerError,
    >)
        ensures
            !self.valid_turns(turns.deep_view()) ==> r == Err::<Resolution, TokenizerError>(
                TokenizerError::InputError,
            ),
            self.valid_turns(turns.deep_view()) ==> match self.rules().outcome(
                turns.deep_view().last(),
                response@,
            ) {
                Some(value) => r == Ok::<Resolution, TokenizerError>(Resolution::Outcome(value)),
                None => if self.prompt_ids().len() >= max_seq_len {
                    r == Err::<Resolution, TokenizerError>(TokenizerError::SizeError)
                } else {
                    &&& r is Ok
                    &&& r->Ok_0 is ModelInput
                    &&& r->Ok_0->ModelInput_0.is_layout_of(
                        dialogue_context_block(
                            self.turn_segments(turns.deep_view()),
                            self.prompt_ids().len() as int,
                            self.tokenizer_view().cls_token_id as i32,
                            self.tokenizer_view().sep_token_id as i32,
                            max_seq_len as int,
                        ),
                        self.prompt_ids(),
                        self.tokenizer_view().pad_token_id as i32,
                        max_seq_len as int,
                    )
                },
            },
    {
        let input_size = turns.len();
        if input_size == 0 || input_size != self.input_size() {
            return Err(TokenizerError::InputError);
        }
        let query = turns[input_size - 1].as_str();
        if query.is_empty() {
            return Err(TokenizerError::InputError);
        }
        assert(turns.deep_view().last() == query@);
        match self.inner.rule.resolve(query, response) {
            Some(value) => {
                return Ok(Resolution::Outcome(value));
            },
            None => {},
        }
        let mut segments: Vec<Vec<i32>> = Vec::new();
        let mut i: usize = 0;
        while i < input_size
            invariant
                i <= input_size,
                input_size == turns.len(),
                input_size == self.templates().len(),
                segments.deep_view() == self.turn_segments(turns.deep_view()).take(i as int),
            decreases input_size - i,
        {
            let text = self.format(turns[i].as_str(), i);
            let ids = self.tokenizer.tokenize_to_ids(text.as_str());
            let ghost before = segments.deep_view();
            segments.push(ids);
            proof {
                assert(ids.deep_view() == ids@);
                assert(segments.deep_view() == before.push(ids@));
            }
            i += 1;
        }
        assert(self.turn_segments(turns.deep_view()).take(input_size as int)
            == self.turn_segments(turns.deep_view()));
        let current = self.tokenizer.tokenize_to_ids(self.inner.prompt.as_str());
        let cls_id = #[verifier::truncate] (self.tokenizer.cls_token_id as i32);
        let sep_id = #[verifier::truncate] (self.tokenizer.sep_token_id as i32);
        let pad_id = #[verifier::truncate] (self.tokenizer.pad_token_id as i32);
        match assemble_dialogue(&segments, &current, cls_id, sep_id, pad_id, max_seq_len) {
            Ok(encoded) => Ok(Resolution::ModelInput(encoded)),
            Err(e) => Err(e),
        }
    }
}

} // verus!
