//! The second tier: tokens are interpreted directly, and a loop boundary
//! is looked up in a jump table made once.

use vstd::prelude::*;
use crate::brackets::{delims, is_jump_table, lemma_partner_is, Delim};
use crate::machine::{Machine, State, Status};
use crate::ops::{classify, BFOpsType};
use crate::semantics::{
    lemma_token_steps_add, lemma_token_steps_stopped, run_tokens, token_step,
};

verus! {

/// Executes one step of a token program with its jump table.
pub fn step_optinterp1(
    contents: &Vec<char>,
    bracket_jmptable: &Vec<usize>,
    input: &Vec<u8>,
    m: &mut Machine,
)
    requires
        is_jump_table(delims(contents@), bracket_jmptable@),
        old(m)@.wf(),
    ensures
        final(m)@ == token_step(contents@, input@, old(m)@),
        final(m)@.wf(),
{
    if m.status() != Status::Running {
        return ;
    }
    let pc: usize = m.pc();
    if pc >= contents.len() {
        m.finish();
        return ;
    }
    let kind: BFOpsType = classify(contents[pc]);
    let target: usize = bracket_jmptable[pc];
    proof {
        let s = delims(contents@);
        if s[pc as int] != Delim::Other {
            lemma_partner_is(s, pc as int, target as int);
        }
    }
    m.execute(kind, 1, target, input);
}

/// Runs a token program from the start for at most `fuel` steps, by the
/// second tier.
pub fn optinterp1(
    contents: &Vec<char>,
    bracket_jmptable: &Vec<usize>,
    input: &Vec<u8>,
    fuel: u64,
) -> (m: Machine)
    requires
        is_jump_table(delims(contents@), bracket_jmptable@),
    ensures
        m@ == run_tokens(contents@, input@, fuel as nat),
        m@.wf(),
{
    let mut m = Machine::new();
    let mut used: u64 = 0;
    while used < fuel && m.status() == Status::Running
        invariant
            is_jump_table(delims(contents@), bracket_jmptable@),
            used <= fuel,
            m@ == run_tokens(contents@, input@, used as nat),
            m@.wf(),
        decreases fuel - used,
    {
        step_optinterp1(contents, bracket_jmptable, input, &mut m);
        used += 1;
    }
    proof {
        if used < fuel {
            lemma_token_steps_add(
                contents@,
                input@,
                State::initial(),
                used as nat,
                (fuel - used) as nat,
            );
            lemma_token_steps_stopped(contents@, input@, m@, (fuel - used) as nat);
        }
    }
    m
}

} // verus!
