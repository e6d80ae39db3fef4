//! From raw source text to a token sequence.

use vstd::prelude::*;
use crate::ops::{classify, is_command, BFOpsType};

verus! {

/// The commands of a text, in their order.
pub open spec fn commands(text: Seq<char>) -> Seq<char> {
    text.filter(|c: char| is_command(c))
}

/// Keeps the command characters of a source text and drops all others.
pub fn filter_tokens(text: &str) -> (tokens: Vec<char>)
    ensures
        tokens@ == commands(text@),
{
    let mut tokens: Vec<char> = Vec::new();
    for c in it: text.chars()
        invariant
            it.seq() == text@,
            tokens@ == commands(text@.take(it.index() as int)),
    {
        proof {
            let i = it.index() as int;
            reveal(Seq::filter);
            assert(text@.take(i + 1).drop_last() =~= text@.take(i));
        }
        match classify(c) {
            BFOpsType::NullOp => {},
            _ => {
                tokens.push(c);
            },
        }
    }
    assert(text@.take(text@.len() as int) =~= text@);
    tokens
}

} // verus!
