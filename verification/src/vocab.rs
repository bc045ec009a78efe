//! The vocabulary: tokens to ids and ids back to tokens, kept in two
//! insertion-ordered maps.

use vstd::prelude::*;
use indexmap::IndexMap;
use crate::error::TokenizerError;

verus! {

/// `indexmap::IndexMap`, the insertion-ordered hash map. Nothing is known
/// of a value of it but what `token_ids` and `id_tokens` name.
#[verifier::external_type_specification]
#[verifier::external_body]
#[verifier::reject_recursive_types(K)]
#[verifier::reject_recursive_types(V)]
#[verifier::reject_recursive_types(S)]
pub struct ExIndexMap<K, V, S>(IndexMap<K, V, S>);

/// The entries of a token-to-id map.
pub uninterp spec fn token_ids(vocab: IndexMap<String, usize>) -> Map<Seq<char>, usize>;

/// The entries of an id-to-token map.
pub uninterp spec fn id_tokens(inv_vocab: IndexMap<usize, String>) -> Map<usize, Seq<char>>;

/// `IndexMap::new` for a token-to-id map: a map without entries.
#[verifier::external_body]
pub(crate) fn new_vocab() -> (vocab: IndexMap<String, usize>)
    ensures
        forall|token: Seq<char>| !token_ids(vocab).contains_key(token),
{
    IndexMap::new()
}

/// `IndexMap::new` for an id-to-token map: a map without entries.
#[verifier::external_body]
pub(crate) fn new_inv_vocab() -> (inv_vocab: IndexMap<usize, String>)
    ensures
        forall|id: usize| !id_tokens(inv_vocab).contains_key(id),
{
    IndexMap::new()
}

/// `IndexMap::insert` on a token-to-id map: the token now maps to `id`,
/// every other entry is as before, and the id that the token had before
/// comes back.
#[verifier::external_body]
pub(crate) fn vocab_insert(vocab: &mut IndexMap<String, usize>, token: String, id: usize) -> (previous:
    Option<usize>)
    ensures
        token_ids(*final(vocab)) == token_ids(*old(vocab)).insert(token@, id),
        previous == (if token_ids(*old(vocab)).contains_key(token@) {
            Some(token_ids(*old(vocab))[token@])
        } else {
            None::<usize>
        }),
{
    vocab.insert(token, id)
}

/// `IndexMap::insert` on an id-to-token map: the id now maps to `token` and
/// every other entry is as before.
#[verifier::external_body]
pub(crate) fn inv_vocab_insert(inv_vocab: &mut IndexMap<usize, String>, id: usize, token: String)
    ensures
        id_tokens(*final(inv_vocab)) == id_tokens(*old(inv_vocab)).insert(id, token@),
{
    inv_vocab.insert(id, token);
}

/// `IndexMap::get` on a token-to-id map: the id of `token` where the map
/// has the token, nothing otherwise.
#[verifier::external_body]
pub(crate) fn vocab_get(vocab: &IndexMap<String, usize>, token: &str) -> (id: Option<usize>)
    ensures
        id == (if token_ids(*vocab).contains_key(token@) {
            Some(token_ids(*vocab)[token@])
        } else {
            None::<usize>
        }),
{
    vocab.get(token).copied()
}

/// `IndexMap::get` on an id-to-token map: the token of `id` where the map
/// has the id, nothing otherwise.
#[verifier::external_body]
pub(crate) fn inv_vocab_get(inv_vocab: &IndexMap<usize, String>, id: usize) -> (token: Option<String>)
    ensures
        token is Some <==> id_tokens(*inv_vocab).contains_key(id),
        token is Some ==> token->Some_0@ == id_tokens(*inv_vocab)[id],
{
    inv_vocab.get(&id).cloned()
}

/// The token-to-id map of a vocabulary listing: every token maps to the
/// position of its last occurrence.
pub open spec fn vocab_of(tokens: Seq<Seq<char>>) -> Map<Seq<char>, usize>
    decreases tokens.len(),
{
    if tokens.len() == 0 {
        Map::empty()
    } else {
        vocab_of(tokens.drop_last()).insert(tokens.last(), (tokens.len() - 1) as usize)
    }
}

/// The id-to-token map of a vocabulary listing: position to token.
pub open spec fn inv_vocab_of(tokens: Seq<Seq<char>>) -> Map<usize, Seq<char>> {
    Map::new(|id: usize| id < tokens.len(), |id: usize| tokens[id as int])
}

/// What the listing's token-to-id map holds: exactly the listed tokens, each
/// under the position of its last occurrence.
pub proof fn lemma_vocab_of(tokens: Seq<Seq<char>>)
    requires
        tokens.len() <= usize::MAX,
    ensures
        forall|token: Seq<char>| #[trigger]
            vocab_of(tokens).contains_key(token) <==> tokens.contains(token),
        forall|token: Seq<char>| #[trigger]
            vocab_of(tokens).contains_key(token) ==> {
                &&& vocab_of(tokens)[token] < tokens.len()
                &&& tokens[vocab_of(tokens)[token] as int] == token
                &&& forall|later: int|
                    vocab_of(tokens)[token] < later < tokens.len() ==> tokens[later] != token
            },
    decreases tokens.len(),
{
    if tokens.len() > 0 {
        let front = tokens.drop_last();
        let last_index = tokens.len() - 1;
        lemma_vocab_of(front);
        assert(vocab_of(tokens) == vocab_of(front).insert(tokens.last(), last_index as usize));
        assert forall|token: Seq<char>| #[trigger]
            vocab_of(tokens).contains_key(token) <==> tokens.contains(token) by {
            if vocab_of(tokens).contains_key(token) {
                if token == tokens.last() {
                    assert(tokens[last_index] == token);
                } else {
                    assert(vocab_of(front).contains_key(token));
                    assert(front.contains(token));
                    let i = choose|i: int| 0 <= i < front.len() && front[i] == token;
                    assert(tokens[i] == token);
                }
            }
            if tokens.contains(token) {
                let i = choose|i: int| 0 <= i < tokens.len() && tokens[i] == token;
                if i < last_index {
                    assert(front[i] == token);
                    assert(front.contains(token));
                    assert(vocab_of(front).contains_key(token));
                }
            }
        }
        assert forall|token: Seq<char>| #[trigger]
            vocab_of(tokens).contains_key(token) implies {
            &&& vocab_of(tokens)[token] < tokens.len()
            &&& tokens[vocab_of(tokens)[token] as int] == token
            &&& forall|later: int|
                vocab_of(tokens)[token] < later < tokens.len() ==> tokens[later] != token
        } by {
            if token != tokens.last() {
                assert(vocab_of(front).contains_key(token));
                let id = vocab_of(front)[token];
                assert(tokens[id as int] == front[id as int]);
                assert forall|later: int| id < later < tokens.len() implies tokens[later]
                    != token by {
                    if later < last_index {
                        assert(tokens[later] == front[later]);
                    }
                }
            }
        }
    }
}

/// What the listing's id-to-token map holds: every position, with its token.
pub proof fn lemma_inv_vocab_of(tokens: Seq<Seq<char>>)
    ensures
        forall|id: usize| #[trigger] inv_vocab_of(tokens).contains_key(id) <==> id < tokens.len(),
        forall|id: usize|
            id < tokens.len() ==> #[trigger] inv_vocab_of(tokens)[id] == tokens[id as int],
{
}

/// A listing's two maps agree: the id of a token leads back to the token.
pub proof fn lemma_vocab_round_trip(tokens: Seq<Seq<char>>, token: Seq<char>)
    requires
        tokens.len() <= usize::MAX,
        vocab_of(tokens).contains_key(token),
    ensures
        inv_vocab_of(tokens).contains_key(vocab_of(tokens)[token]),
        inv_vocab_of(tokens)[vocab_of(tokens)[token]] == token,
{
    lemma_vocab_of(tokens);
}

/// The ids of `tokens`, where every one of them is in the map.
pub open spec fn ids_of_tokens(vocab: Map<Seq<char>, usize>, tokens: Seq<Seq<char>>) -> Seq<usize> {
    tokens.map_values(|token: Seq<char>| vocab[token])
}

/// The tokens of `ids`, where every one of them is in the map.
pub open spec fn tokens_of_ids(inv_vocab: Map<usize, Seq<char>>, ids: Seq<usize>) -> Seq<Seq<char>> {
    ids.map_values(|id: usize| inv_vocab[id])
}

/// Looks every token up.
///
/// Fails with `LookupError` exactly when some token is not in the map.
pub fn convert_tokens_to_ids(vocab: &IndexMap<String, usize>, tokens: &[String]) -> (r: Result<
    Vec<usize>,
    TokenizerError,
>)
    ensures
        r is Ok <==> forall|i: int|
            0 <= i < tokens.len() ==> token_ids(*vocab).contains_key(#[trigger] tokens[i]@),
        r is Ok ==> r->Ok_0@ == ids_of_tokens(token_ids(*vocab), tokens.deep_view()),
        r is Err ==> r == Err::<Vec<usize>, TokenizerError>(TokenizerError::LookupError),
{
    let mut ids: Vec<usize> = Vec::new();
    let mut i: usize = 0;
    while i < tokens.len()
        invariant
            i <= tokens.len(),
            forall|k: int| 0 <= k < i ==> token_ids(*vocab).contains_key(#[trigger] tokens[k]@),
            ids@ == ids_of_tokens(token_ids(*vocab), tokens.deep_view().take(i as int)),
        decreases tokens.len() - i,
    {
        match vocab_get(vocab, tokens[i].as_str()) {
            Some(id) => {
                ids.push(id);
            },
            None => {
                return Err(TokenizerError::LookupError);
            },
        }
        i += 1;
    }
    assert(tokens.deep_view().take(tokens.len() as int) == tokens.deep_view());
    Ok(ids)
}

/// Looks every id up.
///
/// Fails with `LookupError` exactly when some id is not in the map.
pub fn convert_ids_to_tokens(vocab: &IndexMap<usize, String>, ids: &[usize]) -> (r: Result<
    Vec<String>,
    TokenizerError,
>)
    ensures
        r is Ok <==> forall|i: int|
            0 <= i < ids.len() ==> id_tokens(*vocab).contains_key(#[trigger] ids[i]),
        r is Ok ==> r->Ok_0.deep_view() == tokens_of_ids(id_tokens(*vocab), ids@),
        r is Err ==> r == Err::<Vec<String>, TokenizerError>(TokenizerError::LookupError),
{
    let mut tokens: Vec<String> = Vec::new();
    let mut i: usize = 0;
    while i < ids.len()
        invariant
            i <= ids.len(),
            forall|k: int| 0 <= k < i ==> id_tokens(*vocab).contains_key(#[trigger] ids[k]),
            tokens.deep_view() == tokens_of_ids(id_tokens(*vocab), ids@.take(i as int)),
        decreases ids.len() - i,
    {
        let ghost before = tokens.deep_view();
        match inv_vocab_get(vocab, ids[i]) {
            Some(token) => {
                tokens.push(token);
                assert(tokens.deep_view() == before.push(token@));
                assert(ids@.take(i + 1) == ids@.take(i as int).push(ids[i as int]));
            },
            None => {
                return Err(TokenizerError::LookupError);
            },
        }
        i += 1;
    }
    assert(ids@.take(ids.len() as int) == ids@);
    Ok(tokens)
}

} // verus!
