//! The third tier: folded instructions are interpreted, each applying
//! its count in one step, and a loop boundary jumps to the index that
//! the instruction carries.

use vstd::prelude::*;
use crate::brackets::{balanced, delims};
use crate::error::RunError;
use crate::jumps::{bracket_offset, linked_program, targets_in_range};
use crate::machine::{Machine, State, Status};
use crate::ops::{BFOp, BFOpsType};
use crate::semantics::{
    folded_step, lemma_folded_steps_add, lemma_folded_steps_stopped, run_folded,
};

verus! {

/// Executes one step of a folded program.
pub fn step_optiterp2(program: &Vec<BFOp>, input: &Vec<u8>, m: &mut Machine)
    requires
        targets_in_range(program@),
        old(m)@.wf(),
    ensures
        final(m)@ == folded_step(program@, input@, old(m)@),
        final(m)@.wf(),
{
    if m.status() != Status::Running {
        return ;
    }
    let pc: usize = m.pc();
    if pc >= program.len() {
        m.finish();
        return ;
    }
    let op: BFOp = program[pc];
    let target: usize = match op.bftype {
        BFOpsType::BeginLoop | BFOpsType::EndLoop => op.n,
        _ => pc,
    };
    m.execute(op.bftype, op.n, target, input);
}

/// Links the loop delimiters of a folded program in place, then runs it
/// from the start for at most `fuel` steps, by the third tier. An
/// unbalanced program is left as it was and nothing is executed.
pub fn optiterp2(program: &mut Vec<BFOp>, input: &Vec<u8>, fuel: u64) -> (r: Result<
    Machine,
    RunError,
>)
    ensures
        match r {
            Ok(m) => balanced(delims(old(program)@)) && final(program)@ == linked_program(
                old(program)@,
            ) && m@ == run_folded(final(program)@, input@, fuel as nat) && m@.wf(),
            Err(e) => e == RunError::UnbalancedBracket && !balanced(delims(old(program)@))
                && final(program)@ == old(program)@,
        },
{
    match bracket_offset(program) {
        Ok(_) => {},
        Err(e) => {
            return Err(e);
        },
    }
    let mut m = Machine::new();
    let mut used: u64 = 0;
    while used < fuel && m.status() == Status::Running
        invariant
            targets_in_range(program@),
            used <= fuel,
            m@ == run_folded(program@, input@, used as nat),
            m@.wf(),
        decreases fuel - used,
    {
        step_optiterp2(program, input, &mut m);
        used += 1;
    }
    proof {
        if used < fuel {
            lemma_folded_steps_add(
                program@,
                input@,
                State::initial(),
                used as nat,
                (fuel - used) as nat,
            );
            lemma_folded_steps_stopped(program@, input@, m@, (fuel - used) as nat);
        }
    }
    Ok(m)
}

} // verus!
