//! The first tier: tokens are interpreted directly, and a loop boundary
//! is found by a nesting scan each time it is crossed.

use vstd::prelude::*;
use vstd::pervasive::unreached;
use crate::brackets::{
    balanced, delims, lemma_close_exists, lemma_open_exists, lemma_partner_is,
};
use crate::matcher::{find_close, find_open, is_balanced};
use crate::error::RunError;
use crate::machine::{Machine, State, Status};
use crate::ops::{classify, BFOpsType};
use crate::semantics::{
    lemma_token_steps_add, lemma_token_steps_stopped, run_tokens, token_step,
};

verus! {

/// Executes one step of a well-formed token program.
pub fn step_simple(contents: &Vec<char>, input: &Vec<u8>, m: &mut Machine)
    requires
        balanced(delims(contents@)),
        old(m)@.wf(),
    ensures
        final(m)@ == token_step(contents@, input@, old(m)@),
        final(m)@.wf(),
{
    if m.status() != Status::Running {
        return ;
    }
    let pc: usize = m.pc();
    if pc >= contents.len() {
        m.finish();
        return ;
    }
    let ghost s = delims(contents@);
    let kind: BFOpsType = classify(contents[pc]);
    let target: usize = match kind {
        BFOpsType::BeginLoop if m.cell() == 0 => {
            match find_close(contents, pc) {
                Some(j) => {
                    proof {
                        lemma_partner_is(s, pc as int, j as int);
                    }
                    j
                },
                None => {
                    proof {
                        let j = lemma_close_exists(s, pc as int);
                    }
                    unreached()
                },
            }
        },
        BFOpsType::EndLoop if m.cell() != 0 => {
            match find_open(contents, pc) {
                Some(i) => {
                    proof {
                        lemma_partner_is(s, pc as int, i as int);
                    }
                    i
                },
                None => {
                    proof {
                        let i = lemma_open_exists(s, pc as int);
                    }
                    unreached()
                },
            }
        },
        _ => pc,
    };
    m.execute(kind, 1, target, input);
}

/// Runs a token program from the start for at most `fuel` steps, by the
/// first tier. The loop delimiters are checked first: an unbalanced
/// program fails with `UnbalancedBracket` and nothing is executed.
pub fn simpleinterp(contents: &Vec<char>, input: &Vec<u8>, fuel: u64) -> (r: Result<
    Machine,
    RunError,
>)
    ensures
        match r {
            Ok(m) => balanced(delims(contents@)) && m@ == run_tokens(
                contents@,
                input@,
                fuel as nat,
            ) && m@.wf(),
            Err(e) => e == RunError::UnbalancedBracket && !balanced(delims(contents@)),
        },
{
    if !is_balanced(contents) {
        return Err(RunError::UnbalancedBracket);
    }
    let mut m = Machine::new();
    let mut used: u64 = 0;
    while used < fuel && m.status() == Status::Running
        invariant
            balanced(delims(contents@)),
            used <= fuel,
            m@ == run_tokens(contents@, input@, used as nat),
            m@.wf(),
        decreases fuel - used,
    {
        step_simple(contents, input, &mut m);
        used += 1;
    }
    proof {
        if used < fuel {
            lemma_token_steps_add(
                contents@,
                input@,
                State::initial(),
                used as nat,
                (fuel - used) as nat,
            );
            lemma_token_steps_stopped(contents@, input@, m@, (fuel - used) as nat);
        }
    }
    Ok(m)
}

} // verus!
