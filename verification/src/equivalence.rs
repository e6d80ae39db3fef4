//! The three tiers compute the same thing. The first two execute the
//! same step; a step of the third is as many token steps as the folded
//! instruction stands for.

use vstd::prelude::*;
use crate::brackets::{balanced, delims, is_partner, lemma_partner_is, linked, partner, Delim};
use crate::cells::lemma_wrap_steps;
use crate::fold::{is_folding, lemma_expand_len, lemma_offset_monotone, offset, reps};
use crate::jumps::{lemma_linked_program, linked_program};
use crate::machine::{apply, State, Status};
use crate::nesting::{lemma_fold_keeps_balance, lemma_fold_keeps_partners, lemma_span_kind};
use crate::ops::{delim_of, kind_of, repeatable, BFOp, BFOpsType};
use crate::semantics::{
    folded_ends_in, folded_step, lemma_token_steps_add, lemma_token_steps_stopped, run_folded,
    run_tokens, token_step, token_steps, tokens_end_in,
};

verus! {

/// Two states show the same to the outside: the same status and the
/// same output, and, unless the run was aborted, the same tape, cell
/// pointer and amount of input read.
pub open spec fn agrees(a: State, b: State) -> bool {
    &&& a.status == b.status
    &&& a.output =~= b.output
    &&& !(a.status is Failed) ==> a.tape =~= b.tape && a.ptr == b.ptr && a.consumed == b.consumed
}

/// The state `a` of a token program and the state `b` of its folded
/// form `p` stand at the same point of the same run.
pub open spec fn corresponds(p: Seq<BFOp>, a: State, b: State) -> bool {
    &&& agrees(a, b)
    &&& a.wf()
    &&& b.wf()
    &&& !(a.status is Failed) ==> 0 <= b.pc <= p.len() && a.pc == offset(p, b.pc)
}

/// How many token steps the next step of the folded program `p` in
/// state `b` stands for.
pub open spec fn span(p: Seq<BFOp>, b: State) -> nat {
    if b.status == Status::Running && 0 <= b.pc < p.len() {
        reps(p[b.pc])
    } else {
        1
    }
}

/// The state `a` shows what the state `b` shows, has not halted, and
/// stands at `pc` if it runs.
spec fn shows(a: State, b: State, pc: int) -> bool {
    &&& agrees(a, b)
    &&& a.wf()
    &&& a.status != Status::Halted
    &&& a.status == Status::Running ==> a.pc == pc
}

/// The running state `x` shows what `kind` applied `j - 1` times to the
/// running state `s` gives.
spec fn continues(kind: BFOpsType, j: int, input: Seq<u8>, s: State, x: State) -> bool {
    &&& j >= 1
    &&& s.wf()
    &&& s.status == Status::Running
    &&& x.wf()
    &&& x.status == Status::Running
    &&& agrees(x, apply(kind, j - 1, 0, input, s))
}

/// Applying a repeatable kind once more to a state that shows what
/// `j - 1` applications gave shows what `j` applications give. One
/// lemma for each kind follows.
proof fn lemma_apply_once_more(kind: BFOpsType, j: int, input: Seq<u8>, s: State, x: State)
    requires
        repeatable(kind),
        continues(kind, j, input, s, x),
    ensures
        shows(apply(kind, 1, 0, input, x), apply(kind, j, 0, input, s), x.pc + 1),
{
    match kind {
        BFOpsType::IncrPtr => lemma_once_more_right(j, input, s, x),
        BFOpsType::DecrPtr => lemma_once_more_left(j, input, s, x),
        BFOpsType::IncrByte => lemma_once_more_up(j, input, s, x),
        BFOpsType::DecrByte => lemma_once_more_down(j, input, s, x),
        BFOpsType::WriteChar => lemma_once_more_write(j, input, s, x),
        _ => lemma_once_more_read(j, input, s, x),
    }
}

proof fn lemma_once_more_right(j: int, input: Seq<u8>, s: State, x: State)
    requires
        continues(BFOpsType::IncrPtr, j, input, s, x),
    ensures
        shows(
            apply(BFOpsType::IncrPtr, 1, 0, input, x),
            apply(BFOpsType::IncrPtr, j, 0, input, s),
            x.pc + 1,
        ),
{
}

proof fn lemma_once_more_left(j: int, input: Seq<u8>, s: State, x: State)
    requires
        continues(BFOpsType::DecrPtr, j, input, s, x),
    ensures
        shows(
            apply(BFOpsType::DecrPtr, 1, 0, input, x),
            apply(BFOpsType::DecrPtr, j, 0, input, s),
            x.pc + 1,
        ),
{
}

proof fn lemma_once_more_up(j: int, input: Seq<u8>, s: State, x: State)
    requires
        continues(BFOpsType::IncrByte, j, input, s, x),
    ensures
        shows(
            apply(BFOpsType::IncrByte, 1, 0, input, x),
            apply(BFOpsType::IncrByte, j, 0, input, s),
            x.pc + 1,
        ),
{
    lemma_wrap_steps(s.cell(), j - 1, 1);
}

proof fn lemma_once_more_down(j: int, input: Seq<u8>, s: State, x: State)
    requires
        continues(BFOpsType::DecrByte, j, input, s, x),
    ensures
        shows(
            apply(BFOpsType::DecrByte, 1, 0, input, x),
            apply(BFOpsType::DecrByte, j, 0, input, s),
            x.pc + 1,
        ),
{
    lemma_wrap_steps(s.cell(), j - 1, 1);
}

proof fn lemma_once_more_write(j: int, input: Seq<u8>, s: State, x: State)
    requires
        continues(BFOpsType::WriteChar, j, input, s, x),
    ensures
        shows(
            apply(BFOpsType::WriteChar, 1, 0, input, x),
            apply(BFOpsType::WriteChar, j, 0, input, s),
            x.pc + 1,
        ),
{
}

proof fn lemma_once_more_read(j: int, input: Seq<u8>, s: State, x: State)
    requires
        continues(BFOpsType::ReadChar, j, input, s, x),
    ensures
        shows(
            apply(BFOpsType::ReadChar, 1, 0, input, x),
            apply(BFOpsType::ReadChar, j, 0, input, s),
            x.pc + 1,
        ),
{
}

/// Once a repeatable kind applied `j - 1` times faults, it faults
/// applied `j` times, in the same way.
proof fn lemma_apply_still_fails(kind: BFOpsType, j: int, input: Seq<u8>, s: State)
    requires
        repeatable(kind),
        j >= 1,
        s.wf(),
        s.status == Status::Running,
        apply(kind, j - 1, 0, input, s).status != Status::Running,
    ensures
        agrees(apply(kind, j - 1, 0, input, s), apply(kind, j, 0, input, s)),
{
}

/// A repeatable kind applied no times changes nothing that shows.
proof fn lemma_apply_nothing(kind: BFOpsType, input: Seq<u8>, s: State)
    requires
        repeatable(kind),
        s.wf(),
        s.status == Status::Running,
    ensures
        agrees(s, apply(kind, 0, 0, input, s)),
{
}

/// What a repeatable kind does shows the same on states that show the
/// same.
proof fn lemma_apply_same(kind: BFOpsType, n: int, input: Seq<u8>, a: State, b: State)
    requires
        repeatable(kind),
        n >= 0,
        a.status == Status::Running,
        a.wf(),
        b.wf(),
        agrees(a, b),
    ensures
        shows(apply(kind, n, n, input, b), apply(kind, n, 0, input, a), b.pc + 1),
{
}

/// `j` steps through a run of tokens of one repeatable kind do what the
/// kind applied `j` times in one step does.
proof fn lemma_token_run(
    tokens: Seq<char>,
    input: Seq<u8>,
    s: State,
    kind: BFOpsType,
    c: int,
    j: int,
)
    requires
        s.wf(),
        s.status == Status::Running,
        repeatable(kind),
        0 <= j <= c,
        s.pc + c <= tokens.len(),
        forall|i: int| s.pc <= i < s.pc + c ==> kind_of(#[trigger] tokens[i]) == kind,
    ensures
        shows(token_steps(tokens, input, s, j as nat), apply(kind, j, 0, input, s), s.pc + j),
    decreases j,
{
    if j == 0 {
        lemma_apply_nothing(kind, input, s);
    } else {
        lemma_token_run(tokens, input, s, kind, c, j - 1);
        let before = token_steps(tokens, input, s, (j - 1) as nat);
        if before.status == Status::Running {
            assert(kind_of(tokens[before.pc]) == kind);
            lemma_apply_once_more(kind, j, input, s, before);
        } else {
            lemma_apply_still_fails(kind, j, input, s);
        }
    }
}

/// A loop delimiter of the folded program sends the token program and
/// the linked folded program to corresponding places.
proof fn lemma_jump_corresponds(tokens: Seq<char>, p: Seq<BFOp>, q: int)
    requires
        is_folding(tokens, p),
        balanced(delims(tokens)),
        tokens.len() <= usize::MAX,
        0 <= q < p.len(),
        delim_of(p[q].bftype) != Delim::Other,
    ensures
        ({
            let target = linked_program(p)[q].n as int;
            &&& 0 <= target < p.len()
            &&& 0 <= offset(p, target)
            &&& partner(delims(tokens), offset(p, q)) == offset(p, target)
            &&& offset(p, target + 1) == offset(p, target) + 1
            &&& offset(p, q + 1) == offset(p, q) + 1
        }),
{
    let st = delims(tokens);
    let sp = delims(p);
    lemma_expand_len(p);
    lemma_offset_monotone(p, 0, p.len() as int);
    lemma_fold_keeps_balance(tokens, p);
    lemma_linked_program(p);
    let target = linked_program(p)[q].n as int;
    assert(linked(sp, q, target));
    if is_partner(sp, q, target) {
        lemma_fold_keeps_partners(tokens, p, q, target);
    } else {
        lemma_fold_keeps_partners(tokens, p, target, q);
    }
    lemma_partner_is(st, offset(p, q), offset(p, target));
    lemma_offset_monotone(p, 0, target);
}

/// One step of the linked folded program is `span` steps of the token
/// program.
proof fn lemma_step_corresponds(
    tokens: Seq<char>,
    p: Seq<BFOp>,
    input: Seq<u8>,
    a: State,
    b: State,
)
    requires
        is_folding(tokens, p),
        balanced(delims(tokens)),
        tokens.len() <= usize::MAX,
        corresponds(p, a, b),
    ensures
        corresponds(
            p,
            token_steps(tokens, input, a, span(p, b)),
            folded_step(linked_program(p), input, b),
        ),
{
    lemma_expand_len(p);
    assert(token_steps(tokens, input, a, 1) == token_step(
        tokens,
        input,
        token_steps(tokens, input, a, 0),
    ));
    if b.status == Status::Running && b.pc < p.len() {
        let q = b.pc;
        let o = offset(p, q);
        let kind = p[q].bftype;
        let c = reps(p[q]) as int;
        lemma_offset_monotone(p, q + 1, p.len() as int);
        assert forall|i: int| o <= i < o + c implies kind_of(#[trigger] tokens[i]) == kind by {
            lemma_span_kind(tokens, p, q, i);
        }
        if repeatable(kind) {
            lemma_token_run(tokens, input, a, kind, c, c);
            lemma_apply_same(kind, c, input, a, b);
        } else {
            assert(kind_of(tokens[o]) == kind);
            if delim_of(kind) != Delim::Other {
                lemma_jump_corresponds(tokens, p, q);
            }
        }
    }
}

/// The tiers agree while they run: after `n` steps of the folded and
/// linked program the third tier stands where the first two tiers stand
/// after `m` steps of the token program, for some `m` that is at least
/// `n`, and shows the same.
pub proof fn lemma_tiers_agree(tokens: Seq<char>, p: Seq<BFOp>, input: Seq<u8>, n: nat) -> (m: nat)
    requires
        is_folding(tokens, p),
        balanced(delims(tokens)),
        tokens.len() <= usize::MAX,
    ensures
        m >= n,
        corresponds(p, run_tokens(tokens, input, m), run_folded(linked_program(p), input, n)),
        agrees(run_tokens(tokens, input, m), run_folded(linked_program(p), input, n)),
    decreases n,
{
    if n == 0 {
        0
    } else {
        let before = lemma_tiers_agree(tokens, p, input, (n - 1) as nat);
        let a = run_tokens(tokens, input, before);
        let b = run_folded(linked_program(p), input, (n - 1) as nat);
        lemma_step_corresponds(tokens, p, input, a, b);
        lemma_token_steps_add(tokens, input, State::initial(), before, span(p, b));
        before + span(p, b)
    }
}

/// The tiers agree in the end: where the run of the token program is
/// over after `n` steps, halted or aborted, the run of the folded and
/// linked program is over after `n` steps too, in the same way and with
/// the same output.
pub proof fn lemma_tiers_same_result(tokens: Seq<char>, p: Seq<BFOp>, input: Seq<u8>, n: nat)
    requires
        is_folding(tokens, p),
        balanced(delims(tokens)),
        tokens.len() <= usize::MAX,
        run_tokens(tokens, input, n).status != Status::Running,
    ensures
        agrees(run_tokens(tokens, input, n), run_folded(linked_program(p), input, n)),
{
    let m = lemma_tiers_agree(tokens, p, input, n);
    lemma_token_steps_add(tokens, input, State::initial(), n, (m - n) as nat);
    lemma_token_steps_stopped(tokens, input, run_tokens(tokens, input, n), (m - n) as nat);
}

/// The tiers produce the same output: the run of a balanced token
/// program ends with a status and an output exactly when the run of its
/// folded and linked form ends with that status and that output.
pub proof fn lemma_tiers_same_outcome(
    tokens: Seq<char>,
    p: Seq<BFOp>,
    input: Seq<u8>,
    status: Status,
    output: Seq<u8>,
)
    requires
        is_folding(tokens, p),
        balanced(delims(tokens)),
        tokens.len() <= usize::MAX,
    ensures
        tokens_end_in(tokens, input, status, output) <==> folded_ends_in(
            linked_program(p),
            input,
            status,
            output,
        ),
{
    let linked = linked_program(p);
    if tokens_end_in(tokens, input, status, output) {
        let n = choose|n: nat|
            (#[trigger] run_tokens(tokens, input, n)).status == status && run_tokens(
                tokens,
                input,
                n,
            ).output == output;
        lemma_tiers_same_result(tokens, p, input, n);
        assert(run_folded(linked, input, n).output == output);
    }
    if folded_ends_in(linked, input, status, output) {
        let n = choose|n: nat|
            (#[trigger] run_folded(linked, input, n)).status == status && run_folded(
                linked,
                input,
                n,
            ).output == output;
        let m = lemma_tiers_agree(tokens, p, input, n);
        assert(run_tokens(tokens, input, m).output == output);
    }
}

} // verus!
