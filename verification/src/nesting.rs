//! Folding keeps the loop structure: depths, balance and partners of a
//! folded program are those of its tokens, seen through the offsets.

use vstd::prelude::*;
use crate::brackets::{balanced, delims, delta, depth, is_partner, lemma_depth_flat, Delim};
use crate::fold::{
    is_folding, kinds, lemma_expand_index, lemma_expand_len, lemma_locate,
    lemma_offset_monotone, offset, reps,
};
use crate::ops::{kind_of, repeatable, BFOp};

verus! {

/// The tokens that an instruction stands for are of its kind.
pub proof fn lemma_span_kind(tokens: Seq<char>, p: Seq<BFOp>, q: int, i: int)
    requires
        is_folding(tokens, p),
        0 <= q < p.len(),
        offset(p, q) <= i < offset(p, q + 1),
    ensures
        0 <= i < tokens.len(),
        kind_of(tokens[i]) == p[q].bftype,
        delims(tokens)[i] == delims(p)[q],
{
    lemma_expand_index(p, q, i);
    assert(kinds(tokens)[i] == kind_of(tokens[i]));
}

/// The depth in front of an instruction is the depth in front of its
/// first token.
pub proof fn lemma_depth_at_offset(tokens: Seq<char>, p: Seq<BFOp>, q: int)
    requires
        is_folding(tokens, p),
        0 <= q <= p.len(),
    ensures
        0 <= offset(p, q) <= tokens.len(),
        depth(delims(tokens), offset(p, q)) == depth(delims(p), q),
    decreases q,
{
    lemma_expand_len(p);
    lemma_offset_monotone(p, 0, q);
    lemma_offset_monotone(p, q, p.len() as int);
    if q > 0 {
        lemma_depth_at_offset(tokens, p, q - 1);
        let o = offset(p, q - 1);
        let c = reps(p[q - 1]) as int;
        let st = delims(tokens);
        assert forall|i: int| o <= i < o + c implies st[i] == delims(p)[q - 1] by {
            lemma_span_kind(tokens, p, q - 1, i);
        }
        if repeatable(p[q - 1].bftype) {
            lemma_depth_flat(st, o, o + c);
        } else {
            assert(depth(st, o + 1) == depth(st, o) + delta(st[o]));
        }
    }
}

/// The depth in front of any token that an instruction stands for is
/// the depth in front of the instruction.
pub proof fn lemma_depth_inside(tokens: Seq<char>, p: Seq<BFOp>, q: int, i: int)
    requires
        is_folding(tokens, p),
        0 <= q < p.len(),
        offset(p, q) <= i < offset(p, q + 1),
    ensures
        depth(delims(tokens), i) == depth(delims(p), q),
{
    lemma_depth_at_offset(tokens, p, q);
    lemma_depth_at_offset(tokens, p, q + 1);
    let o = offset(p, q);
    let st = delims(tokens);
    if o < i {
        assert forall|k: int| o <= k < i implies st[k] == Delim::Other by {
            lemma_span_kind(tokens, p, q, k);
        }
        lemma_depth_flat(st, o, i);
    }
}

/// A token sequence is balanced exactly when its folded form is.
pub proof fn lemma_fold_keeps_balance(tokens: Seq<char>, p: Seq<BFOp>)
    requires
        is_folding(tokens, p),
    ensures
        balanced(delims(tokens)) == balanced(delims(p)),
{
    let st = delims(tokens);
    let sp = delims(p);
    lemma_expand_len(p);
    lemma_depth_at_offset(tokens, p, p.len() as int);
    if balanced(st) {
        assert forall|q: int| 0 <= q <= sp.len() implies depth(sp, q) >= 0 by {
            lemma_depth_at_offset(tokens, p, q);
        }
    }
    if balanced(sp) {
        assert forall|i: int| 0 <= i <= st.len() implies depth(st, i) >= 0 by {
            if i < st.len() {
                let q = lemma_locate(p, i);
                lemma_depth_inside(tokens, p, q, i);
            }
        }
    }
}

/// Partners in the folded program are partners among the tokens.
pub proof fn lemma_fold_keeps_partners(tokens: Seq<char>, p: Seq<BFOp>, q1: int, q2: int)
    requires
        is_folding(tokens, p),
        is_partner(delims(p), q1, q2),
    ensures
        is_partner(delims(tokens), offset(p, q1), offset(p, q2)),
        offset(p, q1 + 1) == offset(p, q1) + 1,
        offset(p, q2 + 1) == offset(p, q2) + 1,
{
    let st = delims(tokens);
    let sp = delims(p);
    let o1 = offset(p, q1);
    let o2 = offset(p, q2);
    lemma_expand_len(p);
    lemma_offset_monotone(p, q1 + 1, q2);
    lemma_offset_monotone(p, q2 + 1, p.len() as int);
    lemma_offset_monotone(p, 0, q1);
    lemma_span_kind(tokens, p, q1, o1);
    lemma_span_kind(tokens, p, q2, o2);
    lemma_depth_at_offset(tokens, p, q1);
    lemma_depth_at_offset(tokens, p, q2 + 1);
    assert forall|i: int| o1 < i <= o2 implies depth(st, i) > depth(st, o1) by {
        let r = lemma_locate(p, i);
        if r <= q1 {
            lemma_offset_monotone(p, r + 1, q1 + 1);
        }
        if r > q2 {
            lemma_offset_monotone(p, q2 + 1, r);
        }
        lemma_depth_inside(tokens, p, r, i);
        assert(depth(sp, r) > depth(sp, q1));
    }
}

} // verus!
