//! What a program means: the step of a token program, the step of a
//! folded program, and runs of a given number of steps.

use vstd::prelude::*;
use crate::brackets::{
    balanced, delims, lemma_close_exists, lemma_open_exists, lemma_partner_is, partner, Delim,
};
use crate::machine::{apply, State, Status};
use crate::ops::{kind_of, BFOp};

verus! {

/// One step of a token program. A run that is over stays as it is; at
/// the end of the program the run finishes; otherwise the token at the
/// program counter is executed once, a loop delimiter jumping to its
/// structural partner.
pub open spec fn token_step(tokens: Seq<char>, input: Seq<u8>, s: State) -> State {
    if s.status != Status::Running {
        s
    } else if s.pc >= tokens.len() {
        s.finished()
    } else {
        apply(kind_of(tokens[s.pc]), 1, partner(delims(tokens), s.pc), input, s)
    }
}

/// One step of a folded program. As `token_step`, but the instruction
/// at the program counter is applied with its count in one step, and a
/// loop delimiter jumps to the index that it carries.
pub open spec fn folded_step(program: Seq<BFOp>, input: Seq<u8>, s: State) -> State {
    if s.status != Status::Running {
        s
    } else if s.pc >= program.len() {
        s.finished()
    } else {
        apply(program[s.pc].bftype, program[s.pc].n as int, program[s.pc].n as int, input, s)
    }
}

/// The state `n` steps of a token program after `s`.
pub open spec fn token_steps(tokens: Seq<char>, input: Seq<u8>, s: State, n: nat) -> State
    decreases n,
{
    if n == 0 {
        s
    } else {
        token_step(tokens, input, token_steps(tokens, input, s, (n - 1) as nat))
    }
}

/// The state `n` steps of a folded program after `s`.
pub open spec fn folded_steps(program: Seq<BFOp>, input: Seq<u8>, s: State, n: nat) -> State
    decreases n,
{
    if n == 0 {
        s
    } else {
        folded_step(program, input, folded_steps(program, input, s, (n - 1) as nat))
    }
}

/// The state of a token program after `n` steps from the start.
pub open spec fn run_tokens(tokens: Seq<char>, input: Seq<u8>, n: nat) -> State {
    token_steps(tokens, input, State::initial(), n)
}

/// The state of a folded program after `n` steps from the start.
pub open spec fn run_folded(program: Seq<BFOp>, input: Seq<u8>, n: nat) -> State {
    folded_steps(program, input, State::initial(), n)
}

/// Steps add up.
pub proof fn lemma_token_steps_add(tokens: Seq<char>, input: Seq<u8>, s: State, a: nat, b: nat)
    ensures
        token_steps(tokens, input, s, a + b) == token_steps(
            tokens,
            input,
            token_steps(tokens, input, s, a),
            b,
        ),
    decreases b,
{
    if b > 0 {
        lemma_token_steps_add(tokens, input, s, a, (b - 1) as nat);
        assert((a + b - 1) as nat == a + (b - 1) as nat);
    }
}

/// Steps add up.
pub proof fn lemma_folded_steps_add(program: Seq<BFOp>, input: Seq<u8>, s: State, a: nat, b: nat)
    ensures
        folded_steps(program, input, s, a + b) == folded_steps(
            program,
            input,
            folded_steps(program, input, s, a),
            b,
        ),
    decreases b,
{
    if b > 0 {
        lemma_folded_steps_add(program, input, s, a, (b - 1) as nat);
        assert((a + b - 1) as nat == a + (b - 1) as nat);
    }
}

/// A run that is over stays as it is, however many steps follow.
pub proof fn lemma_token_steps_stopped(tokens: Seq<char>, input: Seq<u8>, s: State, n: nat)
    requires
        s.status != Status::Running,
    ensures
        token_steps(tokens, input, s, n) == s,
    decreases n,
{
    if n > 0 {
        lemma_token_steps_stopped(tokens, input, s, (n - 1) as nat);
    }
}

/// A run that is over stays as it is, however many steps follow.
pub proof fn lemma_folded_steps_stopped(program: Seq<BFOp>, input: Seq<u8>, s: State, n: nat)
    requires
        s.status != Status::Running,
    ensures
        folded_steps(program, input, s, n) == s,
    decreases n,
{
    if n > 0 {
        lemma_folded_steps_stopped(program, input, s, (n - 1) as nat);
    }
}

/// The run of a token program is over after some number of steps, with
/// this status and this output.
pub open spec fn tokens_end_in(
    tokens: Seq<char>,
    input: Seq<u8>,
    status: Status,
    output: Seq<u8>,
) -> bool {
    status != Status::Running && exists|n: nat|
        (#[trigger] run_tokens(tokens, input, n)).status == status && run_tokens(
            tokens,
            input,
            n,
        ).output == output
}

/// The run of a folded program is over after some number of steps, with
/// this status and this output.
pub open spec fn folded_ends_in(
    program: Seq<BFOp>,
    input: Seq<u8>,
    status: Status,
    output: Seq<u8>,
) -> bool {
    status != Status::Running && exists|n: nat|
        (#[trigger] run_folded(program, input, n)).status == status && run_folded(
            program,
            input,
            n,
        ).output == output
}

/// A run that is over after `a` steps is in the same state after any
/// other number of steps after which it is over.
pub proof fn lemma_token_run_settles(tokens: Seq<char>, input: Seq<u8>, a: nat, b: nat)
    requires
        run_tokens(tokens, input, a).status != Status::Running,
        run_tokens(tokens, input, b).status != Status::Running,
    ensures
        run_tokens(tokens, input, a) == run_tokens(tokens, input, b),
{
    if a <= b {
        lemma_token_steps_add(tokens, input, State::initial(), a, (b - a) as nat);
        lemma_token_steps_stopped(tokens, input, run_tokens(tokens, input, a), (b - a) as nat);
    } else {
        lemma_token_steps_add(tokens, input, State::initial(), b, (a - b) as nat);
        lemma_token_steps_stopped(tokens, input, run_tokens(tokens, input, b), (a - b) as nat);
    }
}

/// A run that is over after `a` steps is in the same state after any
/// other number of steps after which it is over.
pub proof fn lemma_folded_run_settles(program: Seq<BFOp>, input: Seq<u8>, a: nat, b: nat)
    requires
        run_folded(program, input, a).status != Status::Running,
        run_folded(program, input, b).status != Status::Running,
    ensures
        run_folded(program, input, a) == run_folded(program, input, b),
{
    if a <= b {
        lemma_folded_steps_add(program, input, State::initial(), a, (b - a) as nat);
        lemma_folded_steps_stopped(program, input, run_folded(program, input, a), (b - a) as nat);
    } else {
        lemma_folded_steps_add(program, input, State::initial(), b, (a - b) as nat);
        lemma_folded_steps_stopped(program, input, run_folded(program, input, b), (a - b) as nat);
    }
}

/// A program and an input stream decide the outcome: a run ends in one
/// way only, with one output.
pub proof fn lemma_outcome_unique(
    tokens: Seq<char>,
    program: Seq<BFOp>,
    input: Seq<u8>,
    status: Status,
    output: Seq<u8>,
    status2: Status,
    output2: Seq<u8>,
)
    ensures
        tokens_end_in(tokens, input, status, output) && tokens_end_in(
            tokens,
            input,
            status2,
            output2,
        ) ==> status == status2 && output == output2,
        folded_ends_in(program, input, status, output) && folded_ends_in(
            program,
            input,
            status2,
            output2,
        ) ==> status == status2 && output == output2,
{
    if tokens_end_in(tokens, input, status, output) && tokens_end_in(
        tokens,
        input,
        status2,
        output2,
    ) {
        let a = choose|n: nat|
            (#[trigger] run_tokens(tokens, input, n)).status == status && run_tokens(
                tokens,
                input,
                n,
            ).output == output;
        let b = choose|n: nat|
            (#[trigger] run_tokens(tokens, input, n)).status == status2 && run_tokens(
                tokens,
                input,
                n,
            ).output == output2;
        lemma_token_run_settles(tokens, input, a, b);
    }
    if folded_ends_in(program, input, status, output) && folded_ends_in(
        program,
        input,
        status2,
        output2,
    ) {
        let a = choose|n: nat|
            (#[trigger] run_folded(program, input, n)).status == status && run_folded(
                program,
                input,
                n,
            ).output == output;
        let b = choose|n: nat|
            (#[trigger] run_folded(program, input, n)).status == status2 && run_folded(
                program,
                input,
                n,
            ).output == output2;
        lemma_folded_run_settles(program, input, a, b);
    }
}

/// A step of a balanced token program keeps the pointer on the tape and
/// the tape at its size.
pub proof fn lemma_token_step_wf(tokens: Seq<char>, input: Seq<u8>, s: State)
    requires
        balanced(delims(tokens)),
        s.wf(),
    ensures
        token_step(tokens, input, s).wf(),
{
    let st = delims(tokens);
    if s.status == Status::Running && s.pc < tokens.len() {
        if st[s.pc] == Delim::Open {
            let j = lemma_close_exists(st, s.pc);
            lemma_partner_is(st, s.pc, j);
        } else if st[s.pc] == Delim::Close {
            let i = lemma_open_exists(st, s.pc);
            lemma_partner_is(st, s.pc, i);
        }
    }
}

/// In every state of a run of a balanced token program the pointer is on
/// the tape: no step moves it off, whatever the program.
pub proof fn lemma_token_run_wf(tokens: Seq<char>, input: Seq<u8>, n: nat)
    requires
        balanced(delims(tokens)),
    ensures
        run_tokens(tokens, input, n).wf(),
    decreases n,
{
    if n > 0 {
        lemma_token_run_wf(tokens, input, (n - 1) as nat);
        lemma_token_step_wf(tokens, input, run_tokens(tokens, input, (n - 1) as nat));
    }
}

/// In every state of a run of a folded program the pointer is on the
/// tape.
pub proof fn lemma_folded_run_wf(program: Seq<BFOp>, input: Seq<u8>, n: nat)
    ensures
        run_folded(program, input, n).wf(),
    decreases n,
{
    if n > 0 {
        lemma_folded_run_wf(program, input, (n - 1) as nat);
    }
}

/// A step only appends to the output and never looks at it: from a
/// state whose output was replaced by `other`, the step is the same and
/// appends the same bytes to `other`. So a driver may take the output
/// away between steps.
pub proof fn lemma_step_appends(
    tokens: Seq<char>,
    program: Seq<BFOp>,
    input: Seq<u8>,
    s: State,
    other: Seq<u8>,
)
    ensures
        ({
            let next = token_step(tokens, input, s);
            let written = next.output.skip(s.output.len() as int);
            &&& next.output == s.output + written
            &&& token_step(tokens, input, State { output: other, ..s }) == (State {
                output: other + written,
                ..next
            })
        }),
        ({
            let next = folded_step(program, input, s);
            let written = next.output.skip(s.output.len() as int);
            &&& next.output == s.output + written
            &&& folded_step(program, input, State { output: other, ..s }) == (State {
                output: other + written,
                ..next
            })
        }),
{
    let next = token_step(tokens, input, s);
    let written = next.output.skip(s.output.len() as int);
    assert(next.output =~= s.output + written);
    assert(token_step(tokens, input, State { output: other, ..s }).output =~= other + written);
    let next = folded_step(program, input, s);
    let written = next.output.skip(s.output.len() as int);
    assert(next.output =~= s.output + written);
    assert(folded_step(program, input, State { output: other, ..s }).output =~= other + written);
}

} // verus!
