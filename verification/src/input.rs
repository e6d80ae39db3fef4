//! How much input the next step reads. A driver that feeds a run from a
//! stream asks this before each step and fetches that many bytes.

use vstd::prelude::*;
use crate::error::RunError;
use crate::machine::{Machine, State, Status};
use crate::ops::{classify, kind_of, BFOp, BFOpsType};
use crate::semantics::{folded_step, token_step};

verus! {

/// The number of bytes that the next step of a token program reads.
pub open spec fn token_demand(tokens: Seq<char>, s: State) -> nat {
    if s.status == Status::Running && 0 <= s.pc < tokens.len() && kind_of(tokens[s.pc])
        == BFOpsType::ReadChar {
        1
    } else {
        0
    }
}

/// The number of bytes that the next step of a folded program reads.
pub open spec fn folded_demand(program: Seq<BFOp>, s: State) -> nat {
    if s.status == Status::Running && 0 <= s.pc < program.len() && program[s.pc].bftype
        == BFOpsType::ReadChar {
        program[s.pc].n as nat
    } else {
        0
    }
}

/// Computes the number of bytes that the next step of a token program
/// reads.
pub fn demand_tokens(contents: &Vec<char>, m: &Machine) -> (n: usize)
    ensures
        n == token_demand(contents@, m@),
{
    let pc: usize = m.pc();
    if m.status() == Status::Running && pc < contents.len() {
        match classify(contents[pc]) {
            BFOpsType::ReadChar => 1,
            _ => 0,
        }
    } else {
        0
    }
}

/// Computes the number of bytes that the next step of a folded program
/// reads.
pub fn demand_folded(program: &Vec<BFOp>, m: &Machine) -> (n: usize)
    ensures
        n == folded_demand(program@, m@),
{
    let pc: usize = m.pc();
    if m.status() == Status::Running && pc < program.len() {
        match program[pc].bftype {
            BFOpsType::ReadChar => program[pc].n,
            _ => 0,
        }
    } else {
        0
    }
}

/// A step fails for want of input exactly when the input stream holds
/// fewer unread bytes than the step reads.
pub proof fn lemma_demand_decides(
    tokens: Seq<char>,
    program: Seq<BFOp>,
    input: Seq<u8>,
    s: State,
)
    requires
        s.wf(),
        s.status == Status::Running,
    ensures
        token_step(tokens, input, s).status == Status::Failed(RunError::InputExhausted)
            <==> s.consumed + token_demand(tokens, s) > input.len() && token_demand(tokens, s) > 0,
        folded_step(program, input, s).status == Status::Failed(RunError::InputExhausted)
            <==> s.consumed + folded_demand(program, s) > input.len() && folded_demand(
            program,
            s,
        ) > 0,
{
}

} // verus!
