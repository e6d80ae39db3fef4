//! Run-length folding of a token sequence into counted instructions.

use vstd::prelude::*;
use crate::ops::{
    classify, is_command, is_repeatable, kind_of, repeatable, symbol_of, BFOp, BFOpsType,
};

verus! {

/// From `start` on, exactly `n` elements of `s` in a row equal `c`: the
/// run cannot be extended.
pub open spec fn is_run(s: Seq<char>, c: char, start: int, n: int) -> bool {
    &&& 0 <= n
    &&& n > 0 ==> start + n <= s.len()
    &&& forall|k: int| start <= k < start + n ==> s[k] == c
    &&& start + n < s.len() ==> s[start + n] != c
}

/// The length of the run of `character` that begins at `start`; 0 where
/// `start` is past the end or holds another character.
pub fn count_iteration(contents: &Vec<char>, character: &char, start: &usize) -> (n: usize)
    ensures
        is_run(contents@, *character, *start as int, n as int),
{
    let mut n: usize = 0;
    let mut idx: usize = *start;
    while idx < contents.len() && contents[idx] == *character
        invariant
            idx == *start + n,
            n > 0 ==> idx <= contents.len(),
            forall|k: int| *start <= k < idx ==> contents[k] == *character,
        decreases contents.len() - idx,
    {
        n += 1;
        idx += 1;
    }
    n
}

/// The kinds of a token sequence, element by element.
pub open spec fn kinds(tokens: Seq<char>) -> Seq<BFOpsType> {
    Seq::new(tokens.len(), |i: int| kind_of(tokens[i]))
}

/// How many tokens a folded instruction stands for: its count where the
/// kind is repeatable, one otherwise.
pub open spec fn reps(op: BFOp) -> nat {
    if repeatable(op.bftype) {
        op.n as nat
    } else {
        1
    }
}

/// The tokens of one folded instruction: its kind, `reps` times.
pub open spec fn replay(op: BFOp) -> Seq<BFOpsType> {
    Seq::new(reps(op), |i: int| op.bftype)
}

/// The token kinds that a folded program stands for: each instruction
/// replayed in turn.
pub open spec fn expand(p: Seq<BFOp>) -> Seq<BFOpsType>
    decreases p.len(),
{
    if p.len() == 0 {
        Seq::empty()
    } else {
        expand(p.drop_last()) + replay(p.last())
    }
}

/// Every instruction stands for at least one token, a loop delimiter or
/// an invalid token for exactly one, and no two neighbours could have
/// been one run.
pub open spec fn canonical(p: Seq<BFOp>) -> bool {
    &&& forall|k: int| 0 <= k < p.len() ==> reps(#[trigger] p[k]) >= 1
    &&& forall|k: int| 0 <= k < p.len() && !repeatable(p[k].bftype) ==> (#[trigger] p[k]).n == 1
    &&& forall|a: int, b: int|
        0 <= a && b == a + 1 && b < p.len() && repeatable(p[a].bftype) ==> (#[trigger] p[a]).bftype
            != (#[trigger] p[b]).bftype
}

/// `p` is the folded form of `tokens`.
pub open spec fn is_folding(tokens: Seq<char>, p: Seq<BFOp>) -> bool {
    expand(p) == kinds(tokens) && canonical(p)
}

/// Folds a token sequence: each maximal run of one of the six repeatable
/// commands becomes one instruction with the run's length; each loop
/// delimiter, and each character that is no command, becomes an
/// instruction of its own with count 1.
pub fn translate_program(contents: &Vec<char>) -> (program: Vec<BFOp>)
    ensures
        is_folding(contents@, program@),
{
    let mut pc: usize = 0;
    let mut program: Vec<BFOp> = Vec::new();
    while pc < contents.len()
        invariant
            pc <= contents.len(),
            expand(program@) == kinds(contents@).take(pc as int),
            canonical(program@),
            program.len() > 0 && pc < contents.len() && repeatable(program@.last().bftype)
                ==> program@.last().bftype != kind_of(contents[pc as int]),
        decreases contents.len() - pc,
    {
        let kind: BFOpsType = classify(contents[pc]);
        let count: usize = if is_repeatable(kind) {
            count_iteration(contents, &contents[pc], &pc)
        } else {
            1
        };
        let op: BFOp = BFOp { bftype: kind, n: count };
        let ghost before = program@;
        program.push(op);
        proof {
            assert(count >= 1);
            assert(program@.drop_last() =~= before);
            assert(kinds(contents@).take(pc + count) =~= kinds(contents@).take(pc as int) + replay(
                op,
            ));
        }
        pc += count;
    }
    assert(kinds(contents@).take(pc as int) =~= kinds(contents@));
    program
}

/// The token index at which the instruction at index `k` begins: the
/// number of tokens that the first `k` instructions stand for.
pub open spec fn offset(p: Seq<BFOp>, k: int) -> int
    decreases k,
{
    if k <= 0 {
        0
    } else {
        offset(p, k - 1) + reps(p[k - 1])
    }
}

/// The offsets of a prefix are those of the whole program.
pub proof fn lemma_offset_take(p: Seq<BFOp>, m: int, k: int)
    requires
        0 <= k <= m <= p.len(),
    ensures
        offset(p.take(m), k) == offset(p, k),
    decreases k,
{
    if k > 0 {
        lemma_offset_take(p, m, k - 1);
    }
}

/// Offsets do not decrease, and grow by at least one per instruction
/// where every instruction stands for at least one token.
pub proof fn lemma_offset_monotone(p: Seq<BFOp>, a: int, b: int)
    requires
        0 <= a <= b <= p.len(),
    ensures
        offset(p, a) <= offset(p, b),
        canonical(p) ==> offset(p, a) + (b - a) <= offset(p, b),
    decreases b - a,
{
    if a < b {
        lemma_offset_monotone(p, a, b - 1);
    }
}

/// A folded program stands for as many tokens as its last offset says.
pub proof fn lemma_expand_len(p: Seq<BFOp>)
    ensures
        expand(p).len() == offset(p, p.len() as int),
    decreases p.len(),
{
    if p.len() > 0 {
        let m = p.len() - 1;
        assert(p.drop_last() =~= p.take(m));
        lemma_expand_len(p.drop_last());
        lemma_offset_take(p, m, m);
    }
}

/// Between the offset of an instruction and the next offset, the
/// expansion holds that instruction's kind.
pub proof fn lemma_expand_index(p: Seq<BFOp>, q: int, i: int)
    requires
        0 <= q < p.len(),
        offset(p, q) <= i < offset(p, q + 1),
    ensures
        0 <= i < expand(p).len(),
        expand(p)[i] == p[q].bftype,
    decreases p.len(),
{
    let m = p.len() - 1;
    let front = p.drop_last();
    assert(front =~= p.take(m));
    lemma_expand_len(p);
    lemma_expand_len(front);
    lemma_offset_take(p, m, m);
    lemma_offset_monotone(p, 0, q);
    lemma_offset_monotone(p, q + 1, p.len() as int);
    if q < m {
        lemma_offset_monotone(p, q + 1, m);
        lemma_offset_take(p, m, q);
        lemma_offset_take(p, m, q + 1);
        lemma_expand_index(front, q, i);
    }
}

/// Every token index lies in the span of exactly one instruction; this
/// finds it.
pub proof fn lemma_locate(p: Seq<BFOp>, i: int) -> (q: int)
    requires
        0 <= i < offset(p, p.len() as int),
    ensures
        0 <= q < p.len(),
        offset(p, q) <= i < offset(p, q + 1),
{
    lemma_locate_below(p, i, p.len() as int)
}

proof fn lemma_locate_below(p: Seq<BFOp>, i: int, k: int) -> (q: int)
    requires
        0 <= k <= p.len(),
        0 <= i < offset(p, k),
    ensures
        0 <= q < k,
        offset(p, q) <= i < offset(p, q + 1),
    decreases k,
{
    if offset(p, k - 1) <= i {
        k - 1
    } else {
        lemma_locate_below(p, i, k - 1)
    }
}

/// Replaying a folded program gives back the token sequence it was
/// folded from, character by character, where every token is a command.
pub proof fn lemma_expansion_restores(tokens: Seq<char>, p: Seq<BFOp>)
    requires
        is_folding(tokens, p),
        forall|i: int| 0 <= i < tokens.len() ==> is_command(#[trigger] tokens[i]),
    ensures
        expand(p).map_values(|kind: BFOpsType| symbol_of(kind)) == tokens,
{
    let restored = expand(p).map_values(|kind: BFOpsType| symbol_of(kind));
    assert forall|i: int| 0 <= i < tokens.len() implies restored[i] == tokens[i] by {
        assert(kinds(tokens)[i] == kind_of(tokens[i]));
        assert(is_command(tokens[i]));
    }
    assert(restored =~= tokens);
}

/// Two foldings of one token sequence agree on their first `k`
/// instructions.
proof fn lemma_foldings_agree(tokens: Seq<char>, one: Seq<BFOp>, other: Seq<BFOp>, k: int)
    requires
        is_folding(tokens, one),
        is_folding(tokens, other),
        0 <= k <= one.len(),
        k <= other.len(),
    ensures
        offset(one, k) == offset(other, k),
        forall|q: int| 0 <= q < k ==> one[q] == other[q],
    decreases k,
{
    if k > 0 {
        let q = k - 1;
        lemma_foldings_agree(tokens, one, other, q);
        let o = offset(one, q);
        lemma_expand_len(one);
        lemma_expand_len(other);
        lemma_offset_monotone(one, k, one.len() as int);
        lemma_offset_monotone(other, k, other.len() as int);
        lemma_expand_index(one, q, o);
        lemma_expand_index(other, q, o);
        if repeatable(one[q].bftype) {
            let c1 = one[q].n as int;
            let c2 = other[q].n as int;
            if c1 < c2 {
                lemma_expand_index(other, q, o + c1);
                if k < one.len() {
                    lemma_expand_index(one, k, o + c1);
                }
            } else if c2 < c1 {
                lemma_expand_index(one, q, o + c2);
                if k < other.len() {
                    lemma_expand_index(other, k, o + c2);
                }
            }
        }
    }
}

/// A token sequence has one folded form only.
pub proof fn lemma_folding_unique(tokens: Seq<char>, one: Seq<BFOp>, other: Seq<BFOp>)
    requires
        is_folding(tokens, one),
        is_folding(tokens, other),
    ensures
        one == other,
{
    lemma_expand_len(one);
    lemma_expand_len(other);
    if one.len() <= other.len() {
        lemma_foldings_agree(tokens, one, other, one.len() as int);
        lemma_offset_monotone(other, one.len() as int, other.len() as int);
    } else {
        lemma_foldings_agree(tokens, one, other, other.len() as int);
        lemma_offset_monotone(one, other.len() as int, one.len() as int);
    }
    assert(one =~= other);
}

} // verus!
