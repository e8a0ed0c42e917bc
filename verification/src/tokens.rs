//! Token estimation: the scarce resource is the context window.
use vstd::prelude::*;
use vstd::string::*;

verus! {

/// The estimated token count of a text: four characters a token, rounded up.
pub open spec fn token_estimate(s: Seq<char>) -> nat {
    ((s.len() + 3) / 4) as nat
}

/// The estimated token count of a text.
pub fn estimate(text: &str) -> (n: usize)
    ensures
        n == token_estimate(text@),
{
    let chars: usize = text.unicode_len();
    chars / 4 + if chars % 4 == 0 {
        0
    } else {
        1
    }
}

/// A token for every four characters, and one for what is left: one token fewer
/// would not hold the text.
pub proof fn law_a_token_holds_four_characters(s: Seq<char>)
    ensures
        s.len() <= 4 * token_estimate(s) < s.len() + 4,
{
}

} // verus!
