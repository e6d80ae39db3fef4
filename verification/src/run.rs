//! The entry: source text and the name of a tier in, the machine after
//! the run out.

use vstd::prelude::*;
use crate::brackets::{balanced, delims};
use crate::error::RunError;
use crate::equivalence::{agrees, lemma_tiers_same_result};
use crate::fold::{is_folding, lemma_folding_unique, translate_program};
use crate::folded::optiterp2;
use crate::jumps::{bracket_jumptable, linked_program};
use crate::machine::{Machine, State, Status};
use crate::nesting::lemma_fold_keeps_balance;
use crate::ops::BFOp;
use crate::semantics::{run_folded, run_tokens};
use crate::simple::simpleinterp;
use crate::source::{commands, filter_tokens};
use crate::table::optinterp1;

verus! {

/// One of the three tiers.
#[derive(Clone, Copy, Debug, PartialEq, Eq, Structural)]
pub enum Strategy {
    /// Tokens, with a nesting scan at each loop boundary.
    Simple,
    /// Tokens, with a jump table.
    Optinterp1,
    /// Folded instructions.
    Optiterp2,
}

/// The tier that a name selects, if it names one.
pub open spec fn strategy_of(name: Seq<char>) -> Option<Strategy> {
    if name == "simple"@ {
        Some(Strategy::Simple)
    } else if name == "optiterp1"@ {
        Some(Strategy::Optinterp1)
    } else if name == "optiterp2"@ {
        Some(Strategy::Optiterp2)
    } else {
        None
    }
}

/// Selects a tier by its name.
pub fn select_strategy(v: &str) -> (r: Option<Strategy>)
    ensures
        r == strategy_of(v@),
{
    let name: String = v.to_owned();
    if name == "simple".to_owned() {
        Some(Strategy::Simple)
    } else if name == "optiterp1".to_owned() {
        Some(Strategy::Optinterp1)
    } else if name == "optiterp2".to_owned() {
        Some(Strategy::Optiterp2)
    } else {
        None
    }
}

/// `after` is the state in which the tier `strategy` leaves the token
/// program `tokens` after at most `fuel` of its steps. The first two
/// tiers step through the tokens, the third through the folded and
/// linked program.
pub open spec fn is_outcome(
    strategy: Strategy,
    tokens: Seq<char>,
    input: Seq<u8>,
    fuel: nat,
    after: State,
) -> bool {
    match strategy {
        Strategy::Simple | Strategy::Optinterp1 => after == run_tokens(tokens, input, fuel),
        Strategy::Optiterp2 => exists|p: Seq<BFOp>| #[trigger]
            is_folding(tokens, p) && after == run_folded(linked_program(p), input, fuel),
    }
}

/// Whatever tiers are chosen, a balanced program shows the same once
/// its run is over: two outcomes of one program on one input stream,
/// each over within `fuel` steps of its tier, agree.
pub proof fn lemma_strategies_agree(
    tokens: Seq<char>,
    input: Seq<u8>,
    fuel: nat,
    first: Strategy,
    a: State,
    second: Strategy,
    b: State,
)
    requires
        balanced(delims(tokens)),
        tokens.len() <= usize::MAX,
        is_outcome(first, tokens, input, fuel, a),
        is_outcome(second, tokens, input, fuel, b),
        a.status != Status::Running,
        b.status != Status::Running,
    ensures
        agrees(a, b),
{
    if first == Strategy::Optiterp2 {
        let p = choose|p: Seq<BFOp>| #[trigger]
            is_folding(tokens, p) && a == run_folded(linked_program(p), input, fuel);
        if second == Strategy::Optiterp2 {
            let q = choose|q: Seq<BFOp>| #[trigger]
                is_folding(tokens, q) && b == run_folded(linked_program(q), input, fuel);
            lemma_folding_unique(tokens, p, q);
        } else {
            lemma_tiers_same_result(tokens, p, input, fuel);
        }
    } else if second == Strategy::Optiterp2 {
        let q = choose|q: Seq<BFOp>| #[trigger]
            is_folding(tokens, q) && b == run_folded(linked_program(q), input, fuel);
        lemma_tiers_same_result(tokens, q, input, fuel);
    }
}

/// Runs the program in `text` by the tier named `v`, on the input
/// stream `input`, for at most `fuel` steps of that tier.
///
/// The text is filtered to its commands and its loop delimiters are
/// matched before anything else: an unbalanced program fails with
/// `UnbalancedBracket` whatever `v` is, and nothing is executed. A name
/// that selects no tier gives `None`.
pub fn run(text: &str, v: &str, input: &Vec<u8>, fuel: u64) -> (r: Result<
    Option<Machine>,
    RunError,
>)
    ensures
        match r {
            Ok(Some(m)) => balanced(delims(commands(text@))) && m@.wf() && match strategy_of(v@) {
                Some(strategy) => is_outcome(
                    strategy,
                    commands(text@),
                    input@,
                    fuel as nat,
                    m@,
                ),
                None => false,
            },
            Ok(None) => balanced(delims(commands(text@))) && strategy_of(v@) is None,
            Err(e) => e == RunError::UnbalancedBracket && !balanced(delims(commands(text@))),
        },
{
    let contents: Vec<char> = filter_tokens(text);
    let bracket_jmptable: Vec<usize> = match bracket_jumptable(&contents) {
        Ok(table) => table,
        Err(e) => {
            return Err(e);
        },
    };
    let mut program: Vec<BFOp> = translate_program(&contents);
    let ghost folded = program@;
    proof {
        lemma_fold_keeps_balance(contents@, folded);
    }
    match select_strategy(v) {
        Some(Strategy::Simple) => {
            match simpleinterp(&contents, input, fuel) {
                Ok(m) => Ok(Some(m)),
                Err(e) => Err(e),
            }
        },
        Some(Strategy::Optinterp1) => Ok(
            Some(optinterp1(&contents, &bracket_jmptable, input, fuel)),
        ),
        Some(Strategy::Optiterp2) => {
            match optiterp2(&mut program, input, fuel) {
                Ok(m) => {
                    assert(is_folding(contents@, folded));
                    Ok(Some(m))
                },
                Err(e) => Err(e),
            }
        },
        None => Ok(None),
    }
}

} // verus!
