//! The failures that callers can recover from.

use vstd::prelude::*;

verus! {

/// Why an operation of this library refused its input.
#[derive(Clone, Copy, Debug, PartialEq, Eq, Structural)]
pub enum TokenizerError {
    /// The vocabulary lacks a reserved token, holds more entries than ids can
    /// number, or a rule pattern does not compile.
    ConfigurationError,
    /// A token or an id is not in the vocabulary.
    LookupError,
    /// The number of dialogue turns is wrong, or the current query is empty.
    InputError,
    /// The requested sequence length cannot hold the mandatory tokens.
    SizeError,
}

} // verus!
