//! The bracket matcher: scans for the partner of one loop delimiter, a
//! balance check, and the pass that pairs all delimiters of a sequence
//! into a jump table. All of it works on any sequence whose elements
//! say whether they open a loop, close one, or do neither.

use vstd::prelude::*;
use crate::brackets::{
    balanced, delims, delta, depth, is_jump_table, is_partner, lemma_all_closed,
    lemma_close_exists, lemma_close_unique, lemma_depth_bounds, lemma_open_exists,
    lemma_open_unique, linked, never_negative, Delim, Delimited,
};
use crate::error::RunError;

verus! {

/// Scans forward from the loop-open at `open_at`, counting the nesting,
/// for the loop-close that brings it back to zero.
pub fn find_close<T: Delimited>(seq: &Vec<T>, open_at: usize) -> (r: Option<usize>)
    requires
        open_at < seq.len(),
        delims(seq@)[open_at as int] == Delim::Open,
    ensures
        match r {
            Some(j) => is_partner(delims(seq@), open_at as int, j as int),
            None => forall|j: int| !is_partner(delims(seq@), open_at as int, j),
        },
{
    let ghost s = delims(seq@);
    let n: usize = seq.len();
    let mut nesting: usize = 1;
    let mut matching: usize = open_at + 1;
    assert(depth(s, open_at + 1) == depth(s, open_at as int) + delta(s[open_at as int]));
    while matching < n
        invariant
            s == delims(seq@),
            n == seq.len(),
            open_at < matching <= n,
            s[open_at as int] == Delim::Open,
            1 <= nesting <= matching - open_at,
            nesting == depth(s, matching as int) - depth(s, open_at as int),
            forall|k: int| open_at < k <= matching ==> depth(s, k) > depth(s, open_at as int),
        decreases n - matching,
    {
        assert(depth(s, matching + 1) == depth(s, matching as int) + delta(s[matching as int]));
        match seq[matching].delimiter() {
            Delim::Open => {
                nesting += 1;
            },
            Delim::Close => {
                nesting -= 1;
                if nesting == 0 {
                    return Some(matching);
                }
            },
            Delim::Other => {},
        }
        matching += 1;
    }
    assert forall|j: int| !is_partner(s, open_at as int, j) by {
        if is_partner(s, open_at as int, j) {
            assert(depth(s, j + 1) > depth(s, open_at as int));
        }
    }
    None
}

/// Scans backward from the loop-close at `close_at`, counting the
/// nesting, for the loop-open that brings it back to zero.
pub fn find_open<T: Delimited>(seq: &Vec<T>, close_at: usize) -> (r: Option<usize>)
    requires
        close_at < seq.len(),
        delims(seq@)[close_at as int] == Delim::Close,
    ensures
        match r {
            Some(i) => is_partner(delims(seq@), i as int, close_at as int),
            None => forall|i: int| !is_partner(delims(seq@), i, close_at as int),
        },
{
    let ghost s = delims(seq@);
    let mut nesting: usize = 1;
    let mut at: usize = close_at;
    assert(depth(s, close_at + 1) == depth(s, close_at as int) + delta(s[close_at as int]));
    while at > 0
        invariant
            s == delims(seq@),
            at <= close_at < seq.len(),
            s[close_at as int] == Delim::Close,
            1 <= nesting <= close_at - at + 1,
            nesting == depth(s, at as int) - depth(s, close_at + 1),
            forall|k: int| at <= k <= close_at ==> #[trigger] depth(s, k) > depth(s, close_at + 1),
        decreases at,
    {
        at -= 1;
        assert(depth(s, at + 1) == depth(s, at as int) + delta(s[at as int]));
        match seq[at].delimiter() {
            Delim::Close => {
                nesting += 1;
            },
            Delim::Open => {
                nesting -= 1;
                if nesting == 0 {
                    return Some(at);
                }
            },
            Delim::Other => {},
        }
    }
    assert forall|i: int| !is_partner(s, i, close_at as int) by {
        if is_partner(s, i, close_at as int) {
            assert(depth(s, i) > depth(s, close_at + 1));
        }
    }
    None
}

/// Decides in one pass, with a counter of the loops that are open,
/// whether the loop delimiters of `seq` are balanced.
pub fn is_balanced<T: Delimited>(seq: &Vec<T>) -> (r: bool)
    ensures
        r == balanced(delims(seq@)),
{
    let ghost s = delims(seq@);
    let n: usize = seq.len();
    let mut pc: usize = 0;
    let mut open_loops: usize = 0;
    while pc < n
        invariant
            s == delims(seq@),
            n == seq.len(),
            pc <= n,
            open_loops == depth(s, pc as int),
            forall|k: int| 0 <= k <= pc ==> depth(s, k) >= 0,
        decreases n - pc,
    {
        assert(depth(s, pc + 1) == depth(s, pc as int) + delta(s[pc as int]));
        proof {
            lemma_depth_bounds(s, 0, pc as int);
        }
        match seq[pc].delimiter() {
            Delim::Open => {
                open_loops += 1;
            },
            Delim::Close => {
                if open_loops == 0 {
                    return false;
                }
                open_loops -= 1;
            },
            Delim::Other => {},
        }
        pc += 1;
    }
    open_loops == 0
}

/// Pairs the loop delimiters of `seq`. One pass from the left: each
/// loop-open is matched by a forward scan, and each loop-close must find
/// a loop still open. The table maps both ends of every loop to each
/// other and every other position to 0.
pub fn match_brackets<T: Delimited>(seq: &Vec<T>) -> (r: Result<Vec<usize>, RunError>)
    ensures
        match r {
            Ok(table) => balanced(delims(seq@)) && is_jump_table(delims(seq@), table@),
            Err(e) => e == RunError::UnbalancedBracket && !balanced(delims(seq@)),
        },
{
    let ghost s = delims(seq@);
    let n: usize = seq.len();
    let mut table: Vec<usize> = vec![0; n];
    let mut pc: usize = 0;
    let mut open_loops: usize = 0;
    while pc < n
        invariant
            s == delims(seq@),
            n == seq.len(),
            table.len() == n,
            pc <= n,
            open_loops == depth(s, pc as int),
            forall|k: int| 0 <= k <= pc ==> depth(s, k) >= 0,
            forall|i: int|
                0 <= i < pc && s[i] == Delim::Open ==> is_partner(s, i, #[trigger] table[i] as int)
                    && table[table[i] as int] == i,
            forall|k: int| 0 <= k < n && s[k] == Delim::Other ==> #[trigger] table[k] == 0,
        decreases n - pc,
    {
        assert(depth(s, pc + 1) == depth(s, pc as int) + delta(s[pc as int]));
        proof {
            lemma_depth_bounds(s, 0, pc as int);
        }
        match seq[pc].delimiter() {
            Delim::Open => {
                match find_close(seq, pc) {
                    Some(matching) => {
                        let ghost before = table@;
                        table.set(pc, matching);
                        table.set(matching, pc);
                        assert forall|i: int| 0 <= i < pc + 1 && s[i] == Delim::Open implies is_partner(
                            s,
                            i,
                            #[trigger] table[i] as int,
                        ) && table[table[i] as int] == i by {
                            if i < pc {
                                assert(is_partner(s, i, before[i] as int));
                                if before[i] == matching {
                                    lemma_open_unique(s, i, pc as int, matching as int);
                                }
                            }
                        }
                    },
                    None => {
                        proof {
                            if balanced(s) {
                                let j = lemma_close_exists(s, pc as int);
                            }
                        }
                        return Err(RunError::UnbalancedBracket);
                    },
                }
                open_loops += 1;
            },
            Delim::Close => {
                if open_loops == 0 {
                    return Err(RunError::UnbalancedBracket);
                }
                open_loops -= 1;
            },
            Delim::Other => {},
        }
        pc += 1;
    }
    proof {
        assert(never_negative(s));
        assert forall|i: int| 0 <= i < s.len() && s[i] == Delim::Open implies exists|j: int| #[trigger]
            is_partner(s, i, j) by {
            assert(is_partner(s, i, table[i] as int));
        }
        lemma_all_closed(s);
        assert forall|k: int| 0 <= k < s.len() && s[k] == Delim::Close implies linked(
            s,
            k,
            table[k] as int,
        ) by {
            let i = lemma_open_exists(s, k);
            assert(is_partner(s, i, table[i] as int));
            lemma_close_unique(s, i, k, table[i] as int);
        }
    }
    Ok(table)
}

} // verus!
