//! Jump targets for the two program forms: a table beside a token
//! sequence, and the targets written into a folded program.

use vstd::prelude::*;
use crate::brackets::{
    balanced, delims, is_jump_table, lemma_close_exists, lemma_open_exists, lemma_partner_is,
    linked, partner, Delim, Delimited,
};
use crate::matcher::match_brackets;
use crate::error::RunError;
use crate::ops::{BFOp, BFOpsType};

verus! {

/// The jump table of a token sequence.
pub fn bracket_jumptable(contents: &Vec<char>) -> (r: Result<Vec<usize>, RunError>)
    ensures
        match r {
            Ok(table) => balanced(delims(contents@)) && is_jump_table(delims(contents@), table@),
            Err(e) => e == RunError::UnbalancedBracket && !balanced(delims(contents@)),
        },
{
    match_brackets(contents)
}

/// The folded program `p` with the partner's index in the `n` of every
/// loop delimiter.
pub open spec fn linked_program(p: Seq<BFOp>) -> Seq<BFOp> {
    Seq::new(
        p.len(),
        |k: int|
            if p[k].delim() == Delim::Other {
                p[k]
            } else {
                BFOp { bftype: p[k].bftype, n: partner(delims(p), k) as usize }
            },
    )
}

/// Every loop delimiter of `program` carries an index into it.
pub open spec fn targets_in_range(program: Seq<BFOp>) -> bool {
    forall|k: int|
        0 <= k < program.len() && program[k].delim() != Delim::Other ==> (
        #[trigger] program[k]).n < program.len()
}

/// Fills the jump targets of a folded program in place: the `n` of each
/// loop delimiter becomes the index of its partner. An unbalanced
/// program is left as it was.
pub fn bracket_offset(program: &mut Vec<BFOp>) -> (r: Result<(), RunError>)
    ensures
        match r {
            Ok(_) => balanced(delims(old(program)@)) && final(program)@ == linked_program(
                old(program)@,
            ) && targets_in_range(final(program)@),
            Err(e) => e == RunError::UnbalancedBracket && !balanced(delims(old(program)@))
                && final(program)@ == old(program)@,
        },
{
    let table: Vec<usize> = match match_brackets(program) {
        Ok(table) => table,
        Err(e) => {
            return Err(e);
        },
    };
    let ghost before = program@;
    let ghost s = delims(before);
    let n: usize = program.len();
    let mut pc: usize = 0;
    while pc < n
        invariant
            pc <= n,
            n == before.len(),
            program.len() == n,
            s == delims(before),
            is_jump_table(s, table@),
            forall|k: int| 0 <= k < pc ==> #[trigger] program[k] == linked_program(before)[k],
            forall|k: int| pc <= k < n ==> #[trigger] program[k] == before[k],
        decreases n - pc,
    {
        let op: BFOp = program[pc];
        match op.bftype {
            BFOpsType::BeginLoop | BFOpsType::EndLoop => {
                proof {
                    lemma_partner_is(s, pc as int, table[pc as int] as int);
                }
                program.set(pc, BFOp { bftype: op.bftype, n: table[pc] });
            },
            _ => {},
        }
        pc += 1;
    }
    assert(program@ =~= linked_program(before));
    proof {
        lemma_linked_program(before);
    }
    Ok(())
}

/// Linking keeps the kinds, and with them the loop structure; in a
/// balanced program every loop delimiter then carries the index of its
/// partner.
pub proof fn lemma_linked_program(p: Seq<BFOp>)
    requires
        p.len() <= usize::MAX,
    ensures
        delims(linked_program(p)) == delims(p),
        balanced(delims(p)) ==> forall|k: int|
            0 <= k < p.len() && p[k].delim() != Delim::Other ==> linked(
                delims(p),
                k,
                (#[trigger] linked_program(p)[k]).n as int,
            ),
{
    let s = delims(p);
    assert(delims(linked_program(p)) =~= s);
    if balanced(s) {
        assert forall|k: int| 0 <= k < p.len() && p[k].delim() != Delim::Other implies linked(
            s,
            k,
            (#[trigger] linked_program(p)[k]).n as int,
        ) by {
            if s[k] == Delim::Open {
                let j = lemma_close_exists(s, k);
                lemma_partner_is(s, k, j);
            } else {
                let i = lemma_open_exists(s, k);
                lemma_partner_is(s, k, i);
            }
        }
    }
}

} // verus!
