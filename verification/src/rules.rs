//! The rule table, in either of two styles: pattern rules, with one pattern
//! set for queries, one for responses and the outcome of every rule; or
//! exact rules, which map a query string to its outcome.

use vstd::prelude::*;
use regex::RegexSet;
use crate::error::TokenizerError;

verus! {

/// `regex::RegexSet`, a set of compiled patterns. Nothing is known of a
/// value of it but what `set_patterns` and `compiled_with_defaults` name.
#[verifier::external_type_specification]
#[verifier::external_body]
pub struct ExRegexSet(RegexSet);

/// `regex::Error`, the reason why patterns did not compile. It is carried,
/// never looked into.
#[verifier::external_type_specification]
#[verifier::external_body]
pub struct ExRegexError(regex::Error);

/// One rule: a pattern for the query, one for the response, and the outcome
/// when both match.
pub struct Case {
    pub query: String,
    pub bot: String,
    pub val: i64,
}

/// The configuration of a judger: one template per turn, the prompt, and
/// the rules.
pub struct Inner {
    pub template: Vec<String>,
    pub prompt: String,
    pub rule: Vec<Case>,
}

/// One exact rule: the query as it must be put, and the outcome.
pub struct ExactCase {
    pub query: String,
    pub val: i64,
}

/// The exact rules.
pub struct ExactRules {
    cases: Vec<ExactCase>,
}

/// The rules of a judger, in the style that its configuration chose.
pub enum RuleMatcher {
    Exact(ExactRules),
    Patterns(RuleInner),
}

/// The compiled rules.
pub struct RuleInner {
    query_set: RegexSet,
    bot_set: RegexSet,
    values: Vec<i64>,
}

/// The patterns that a set was compiled from, in the order given.
pub uninterp spec fn set_patterns(set: RegexSet) -> Seq<Seq<char>>;

/// Whether a set was compiled with the default options, as `RegexSet::new`
/// compiles it: only then do its patterns alone say what it matches.
pub uninterp spec fn compiled_with_defaults(set: RegexSet) -> bool;

/// Whether `RegexSet::new` accepts these patterns.
pub uninterp spec fn patterns_compile(patterns: Seq<Seq<char>>) -> bool;

/// The positions of the patterns that `RegexSet::matches` reports for a
/// haystack.
pub uninterp spec fn matching_patterns(patterns: Seq<Seq<char>>, haystack: Seq<char>) -> Seq<usize>;

/// `RegexSet::new`: compiles the patterns into one set with the default
/// options, or reports a pattern that is no valid regular expression or too
/// large. Whether it succeeds depends on the patterns alone and is known
/// here only by name; the set it returns holds the patterns in the order
/// given.
#[verifier::external_body]
fn compile_set(patterns: &Vec<String>) -> (r: Result<RegexSet, regex::Error>)
    ensures
        r is Ok <==> patterns_compile(patterns.deep_view()),
        r is Ok ==> set_patterns(r->Ok_0) == patterns.deep_view(),
        r is Ok ==> compiled_with_defaults(r->Ok_0),
{
    RegexSet::new(patterns)
}

/// `RegexSet::matches`, its iterator collected: the positions of the
/// patterns that match somewhere in the haystack. For a set compiled with
/// the default options, which ones match depends on the patterns and the
/// haystack alone and is known here only by name; every position is that of
/// a pattern of the set.
#[verifier::external_body]
fn matching_indices(set: &RegexSet, haystack: &str) -> (indices: Vec<usize>)
    requires
        compiled_with_defaults(*set),
    ensures
        indices@ == matching_patterns(set_patterns(*set), haystack@),
        forall|k: int| 0 <= k < indices.len() ==> indices[k] < set_patterns(*set).len(),
{
    set.matches(haystack).into_iter().collect()
}

/// The query patterns of a rule list.
pub open spec fn rule_queries(rules: Seq<Case>) -> Seq<Seq<char>> {
    rules.map_values(|case: Case| case.query@)
}

/// The response patterns of a rule list.
pub open spec fn rule_bots(rules: Seq<Case>) -> Seq<Seq<char>> {
    rules.map_values(|case: Case| case.bot@)
}

/// The outcomes of a rule list.
pub open spec fn rule_values(rules: Seq<Case>) -> Seq<i64> {
    rules.map_values(|case: Case| case.val)
}

/// The smallest number that is in both sequences, where there is one.
pub open spec fn lowest_common(a: Seq<usize>, b: Seq<usize>) -> Option<usize>
    decreases a.len(),
{
    if a.len() == 0 {
        None
    } else {
        let rest = lowest_common(a.drop_last(), b);
        let candidate = a.last();
        if b.contains(candidate) && (rest is None || candidate < rest->Some_0) {
            Some(candidate)
        } else {
            rest
        }
    }
}

/// `lowest_common` is what its name says: a common element below which
/// there is no other, or nothing when the sequences share no element.
pub proof fn lemma_lowest_common(a: Seq<usize>, b: Seq<usize>)
    ensures
        match lowest_common(a, b) {
            Some(lowest) => {
                &&& a.contains(lowest)
                &&& b.contains(lowest)
                &&& forall|other: usize| a.contains(other) && b.contains(other) ==> lowest <= other
            },
            None => forall|other: usize| !(a.contains(other) && b.contains(other)),
        },
    decreases a.len(),
{
    if a.len() > 0 {
        let front = a.drop_last();
        lemma_lowest_common(front, b);
        assert(a[a.len() - 1] == a.last());
        assert forall|other: usize| a.contains(other) implies front.contains(other) || other
            == a.last() by {
            let k = choose|k: int| 0 <= k < a.len() && a[k] == other;
            if k < a.len() - 1 {
                assert(front[k] == other);
            }
        }
        assert forall|other: usize| front.contains(other) implies a.contains(other) by {
            let k = choose|k: int| 0 <= k < front.len() && front[k] == other;
            assert(a[k] == other);
        }
    }
}

/// The outcome for a query and a response: that of the first rule whose two
/// patterns both match, nothing when no rule has both.
pub open spec fn matched_outcome(
    query_matches: Seq<usize>,
    bot_matches: Seq<usize>,
    values: Seq<i64>,
) -> Option<i64> {
    match lowest_common(query_matches, bot_matches) {
        Some(index) => Some(values[index as int]),
        None => None,
    }
}

/// Whether `value` is among `items`.
fn contains_index(items: &Vec<usize>, value: usize) -> (found: bool)
    ensures
        found == items@.contains(value),
{
    let mut k: usize = 0;
    while k < items.len()
        invariant
            k <= items.len(),
            forall|j: int| 0 <= j < k ==> items[j] != value,
        decreases items.len() - k,
    {
        if items[k] == value {
            return true;
        }
        k += 1;
    }
    false
}

/// The smallest index that both lists hold.
pub fn lowest_common_index(a: &Vec<usize>, b: &Vec<usize>) -> (lowest: Option<usize>)
    ensures
        lowest == lowest_common(a@, b@),
{
    let mut lowest: Option<usize> = None;
    let mut k: usize = 0;
    while k < a.len()
        invariant
            k <= a.len(),
            lowest == lowest_common(a@.take(k as int), b@),
        decreases a.len() - k,
    {
        let candidate = a[k];
        proof {
            assert(a@.take(k + 1).drop_last() == a@.take(k as int));
            assert(a@.take(k + 1).last() == candidate);
        }
        if contains_index(b, candidate) {
            let better = match lowest {
                Some(current) => candidate < current,
                None => true,
            };
            if better {
                lowest = Some(candidate);
            }
        }
        k += 1;
    }
    assert(a@.take(a.len() as int) == a@);
    lowest
}

/// The outcome of the first rule that both match lists name.
pub fn outcome_for(query_matches: &Vec<usize>, bot_matches: &Vec<usize>, values: &Vec<i64>) -> (outcome:
    Option<i64>)
    requires
        forall|k: int| 0 <= k < query_matches.len() ==> query_matches[k] < values.len(),
    ensures
        outcome == matched_outcome(query_matches@, bot_matches@, values@),
{
    proof {
        lemma_lowest_common(query_matches@, bot_matches@);
    }
    match lowest_common_index(query_matches, bot_matches) {
        Some(index) => {
            assert(query_matches@.contains(index));
            Some(values[index])
        },
        None => None,
    }
}

/// The outcome of the first case from position `i` on whose query is
/// `query`, nothing when there is none.
pub open spec fn exact_outcome_from(cases: Seq<ExactCase>, i: int, query: Seq<char>) -> Option<i64>
    decreases cases.len() - i,
{
    if i < 0 || i >= cases.len() {
        None
    } else if cases[i].query@ == query {
        Some(cases[i].val)
    } else {
        exact_outcome_from(cases, i + 1, query)
    }
}

/// The outcome of the first case whose query is `query`.
pub open spec fn exact_outcome(cases: Seq<ExactCase>, query: Seq<char>) -> Option<i64> {
    exact_outcome_from(cases, 0, query)
}

/// An exact lookup answers with the outcome of a case that has the query,
/// and of the first such case; it answers nothing only when no case has it.
pub proof fn lemma_exact_outcome(cases: Seq<ExactCase>, i: int, query: Seq<char>)
    requires
        0 <= i <= cases.len(),
    ensures
        match exact_outcome_from(cases, i, query) {
            Some(value) => exists|k: int|
                {
                    &&& i <= k < cases.len()
                    &&& (#[trigger] cases[k]).query@ == query
                    &&& cases[k].val == value
                    &&& forall|earlier: int| i <= earlier < k ==> cases[earlier].query@ != query
                },
            None => forall|k: int| i <= k < cases.len() ==> (#[trigger] cases[k]).query@ != query,
        },
    decreases cases.len() - i,
{
    if i < cases.len() {
        if cases[i].query@ == query {
            assert(cases[i].val == exact_outcome_from(cases, i, query)->Some_0);
        } else {
            lemma_exact_outcome(cases, i + 1, query);
            if let Some(value) = exact_outcome_from(cases, i + 1, query) {
                let k = choose|k: int|
                    {
                        &&& i + 1 <= k < cases.len()
                        &&& (#[trigger] cases[k]).query@ == query
                        &&& cases[k].val == value
                        &&& forall|earlier: int|
                            i + 1 <= earlier < k ==> cases[earlier].query@ != query
                    };
                assert(cases[k].query@ == query);
            }
        }
    }
}

impl ExactRules {
    /// The cases, in the order of the configuration.
    pub closed spec fn cases(&self) -> Seq<ExactCase> {
        self.cases@
    }

    /// The exact rules of a configuration.
    pub fn new(cases: Vec<ExactCase>) -> (rules: ExactRules)
        ensures
            rules.cases() == cases@,
    {
        ExactRules { cases }
    }

    /// The outcome of the first case whose query is `query`.
    pub fn lookup(&self, query: &str) -> (outcome: Option<i64>)
        ensures
            outcome == exact_outcome(self.cases(), query@),
    {
        let wanted = String::from_str(query);
        let mut i: usize = 0;
        while i < self.cases.len()
            invariant
                i <= self.cases.len(),
                wanted@ == query@,
                exact_outcome_from(self.cases(), i as int, query@) == exact_outcome(
                    self.cases(),
                    query@,
                ),
            decreases self.cases.len() - i,
        {
            if self.cases[i].query == wanted {
                return Some(self.cases[i].val);
            }
            i += 1;
        }
        None
    }
}

impl RuleMatcher {
    /// What `resolve` answers for a query and a response: exact rules go by
    /// the query alone, pattern rules by both.
    pub open spec fn outcome(&self, query: Seq<char>, response: Seq<char>) -> Option<i64> {
        match self {
            RuleMatcher::Exact(rules) => exact_outcome(rules.cases(), query),
            RuleMatcher::Patterns(rules) => rules.outcome(query, response),
        }
    }

    /// The outcome that the rules hold for a query and a response.
    pub fn resolve(&self, query: &str, response: &str) -> (outcome: Option<i64>)
        ensures
            outcome == self.outcome(query@, response@),
    {
        match self {
            RuleMatcher::Exact(rules) => rules.lookup(query),
            RuleMatcher::Patterns(rules) => rules.lookup(query, response),
        }
    }

    /// The outcome as `resolve` finds it, or -1 where no rule applies.
    pub fn get(&self, query: &str, response: &str) -> (value: i64)
        ensures
            value == (match self.outcome(query@, response@) {
                Some(v) => v,
                None => -1i64,
            }),
    {
        match self.resolve(query, response) {
            Some(v) => v,
            None => -1,
        }
    }
}

impl RuleInner {
    /// The query patterns, in rule order.
    pub closed spec fn queries(&self) -> Seq<Seq<char>> {
        set_patterns(self.query_set)
    }

    /// The response patterns, in rule order.
    pub closed spec fn bots(&self) -> Seq<Seq<char>> {
        set_patterns(self.bot_set)
    }

    /// The outcomes, in rule order.
    pub closed spec fn values(&self) -> Seq<i64> {
        self.values@
    }

    /// Both pattern sets were compiled the plain way, and every rule has its
    /// two patterns and its outcome.
    #[verifier::type_invariant]
    spec fn complete(&self) -> bool {
        &&& compiled_with_defaults(self.query_set)
        &&& compiled_with_defaults(self.bot_set)
        &&& set_patterns(self.query_set).len() == self.values@.len()
        &&& set_patterns(self.bot_set).len() == self.values@.len()
    }

    /// What `lookup` answers for a query and a response.
    pub open spec fn outcome(&self, query: Seq<char>, bot: Seq<char>) -> Option<i64> {
        matched_outcome(
            matching_patterns(self.queries(), query),
            matching_patterns(self.bots(), bot),
            self.values(),
        )
    }

    /// Compiles the rules of a configuration.
    ///
    /// Fails with `ConfigurationError` exactly when the query patterns or
    /// the response patterns do not compile.
    pub fn from_inner(inner: &Inner) -> (r: Result<RuleInner, TokenizerError>)
        ensures
            r is Ok <==> patterns_compile(rule_queries(inner.rule@)) && patterns_compile(
                rule_bots(inner.rule@),
            ),
            r is Err ==> r == Err::<RuleInner, TokenizerError>(TokenizerError::ConfigurationError),
            r is Ok ==> {
                &&& r->Ok_0.queries() == rule_queries(inner.rule@)
                &&& r->Ok_0.bots() == rule_bots(inner.rule@)
                &&& r->Ok_0.values() == rule_values(inner.rule@)
            },
    {
        let mut queries: Vec<String> = Vec::new();
        let mut bots: Vec<String> = Vec::new();
        let mut values: Vec<i64> = Vec::new();
        let mut k: usize = 0;
        while k < inner.rule.len()
            invariant
                k <= inner.rule.len(),
                queries.deep_view() == rule_queries(inner.rule@.take(k as int)),
                bots.deep_view() == rule_bots(inner.rule@.take(k as int)),
                values@ == rule_values(inner.rule@.take(k as int)),
            decreases inner.rule.len() - k,
        {
            let case = &inner.rule[k];
            let ghost queries_before = queries.deep_view();
            let ghost bots_before = bots.deep_view();
            queries.push(case.query.clone());
            bots.push(case.bot.clone());
            values.push(case.val);
            proof {
                assert(inner.rule@.take(k + 1) == inner.rule@.take(k as int).push(*case));
                assert(queries.deep_view() == queries_before.push(case.query@));
                assert(bots.deep_view() == bots_before.push(case.bot@));
            }
            k += 1;
        }
        assert(inner.rule@.take(inner.rule.len() as int) == inner.rule@);
        let query_set = match compile_set(&queries) {
            Ok(set) => set,
            Err(_) => {
                return Err(TokenizerError::ConfigurationError);
            },
        };
        let bot_set = match compile_set(&bots) {
            Ok(set) => set,
            Err(_) => {
                return Err(TokenizerError::ConfigurationError);
            },
        };
        Ok(RuleInner { query_set, bot_set, values })
    }

    /// The outcome of the first rule whose query pattern matches `query` and
    /// whose response pattern matches `bot`.
    pub fn lookup(&self, query: &str, bot: &str) -> (outcome: Option<i64>)
        ensures
            outcome == self.outcome(query@, bot@),
    {
        proof {
            use_type_invariant(self);
        }
        let query_matches = matching_indices(&self.query_set, query);
        let bot_matches = matching_indices(&self.bot_set, bot);
        outcome_for(&query_matches, &bot_matches, &self.values)
    }

    /// The outcome as `lookup` finds it, or -1 where no rule applies.
    pub fn get(&self, query: &str, bot: &str) -> (value: i64)
        ensures
            value == (match self.outcome(query@, bot@) {
                Some(v) => v,
                None => -1i64,
            }),
    {
        match self.lookup(query, bot) {
            Some(v) => v,
            None => -1,
        }
    }
}

} // verus!
