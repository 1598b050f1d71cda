//! The texts that a command-line front end shows: a list of tokens, and the
//! column of the caret that points at a failure.

use itertools::Itertools;
use vstd::prelude::*;
use vstd::string::StringSliceAdditionalSpecFns;
use crate::token::intring::IntRingToken;
use crate::token::{Token, TokenWithPos};

verus! {

/// The texts `parts` in a row, with `separator` between each two of them.
pub open spec fn joined(parts: Seq<Seq<char>>, separator: Seq<char>) -> Seq<char>
    decreases parts.len(),
{
    if parts.len() == 0 {
        Seq::empty()
    } else if parts.len() == 1 {
        parts[0]
    } else {
        parts[0] + separator + joined(parts.drop_first(), separator)
    }
}

/// The texts of the tokens, in order.
pub open spec fn token_texts(tokens: Seq<TokenWithPos<IntRingToken>>) -> Seq<Seq<char>> {
    Seq::new(tokens.len(), |i: int| tokens[i].token.text())
}

/// Hands the strings of `parts` to `Itertools::format` of the crate
/// itertools and collects what the `Display` of the returned `Format`
/// writes. The contract takes from it that the items are written as they
/// are, in order, with the separator between each two of them and nowhere
/// else. Verus does not check this.
#[verifier::external_body]
fn format_separated(parts: &Vec<String>, separator: &str) -> (text: String)
    ensures
        text@ == joined(Seq::new(parts@.len(), |i: int| parts@[i]@), separator@),
{
    format!("{}", parts.iter().format(separator))
}

/// Lists the tokens: the text of each, with one space between each two.
pub fn token_list(tokens: &Vec<TokenWithPos<IntRingToken>>) -> (text: String)
    ensures
        text@ == joined(token_texts(tokens@), seq![' ']),
{
    let mut parts: Vec<String> = Vec::new();
    let mut i: usize = 0;
    while i < tokens.len()
        invariant
            i <= tokens.len(),
            parts@.len() == i,
            forall|j: int| 0 <= j < i ==> parts@[j]@ == tokens@[j].token.text(),
        decreases tokens.len() - i,
    {
        parts.push(tokens[i].token.to_string());
        i = i + 1;
    }
    proof {
        reveal_strlit(" ");
        assert(" "@ =~= seq![' ']);
        assert(Seq::new(parts@.len(), |i: int| parts@[i]@) =~= token_texts(tokens@));
    }
    format_separated(&parts, " ")
}

/// The column at which the caret stands under a line that shows a message,
/// a colon, a space and the source text: the column of the character at
/// `position` of the source, counted from one, where the message takes one
/// column for each of its bytes.
pub fn caret_column(message: &str, position: usize) -> (column: usize)
    requires
        message.spec_bytes().len() + position + 3 <= usize::MAX,
    ensures
        column == message.spec_bytes().len() + position + 3,
{
    message.len() + position + 3
}

} // verus!
