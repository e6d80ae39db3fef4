//! Loop delimiters: nesting depth, balance, structural partners and jump
//! tables, and what holds of them.

use vstd::prelude::*;

verus! {

/// How an element of a sequence counts for matching.
#[derive(Clone, Copy, Debug, PartialEq, Eq, Structural)]
pub enum Delim {
    Open,
    Close,
    Other,
}

/// A sequence element that the matcher can classify.
pub trait Delimited {
    /// The class of this element.
    spec fn delim(&self) -> Delim;

    /// Computes the class of this element.
    fn delimiter(&self) -> (d: Delim)
        ensures
            d == self.delim(),
    ;
}

/// The classes of a sequence, element by element.
pub open spec fn delims<T: Delimited>(s: Seq<T>) -> Seq<Delim> {
    Seq::new(s.len(), |i: int| s[i].delim())
}

/// What one element adds to the nesting depth.
pub open spec fn delta(d: Delim) -> int {
    match d {
        Delim::Open => 1,
        Delim::Close => -1,
        Delim::Other => 0,
    }
}

/// The nesting depth in front of position `i`: loop-opens minus
/// loop-closes among the first `i` elements.
pub open spec fn depth(s: Seq<Delim>, i: int) -> int
    decreases i,
{
    if i <= 0 {
        0
    } else {
        depth(s, i - 1) + delta(s[i - 1])
    }
}

/// No prefix closes more loops than it opened.
pub open spec fn never_negative(s: Seq<Delim>) -> bool {
    forall|k: int| 0 <= k <= s.len() ==> depth(s, k) >= 0
}

/// Every loop-open has a later loop-close and every loop-close an
/// earlier loop-open.
pub open spec fn balanced(s: Seq<Delim>) -> bool {
    never_negative(s) && depth(s, s.len() as int) == 0
}

/// The loop-open at `i` and the loop-close at `j` bound one loop: `j` is
/// the first position behind `i` after which the depth is back to what it
/// was in front of `i`.
pub open spec fn is_partner(s: Seq<Delim>, i: int, j: int) -> bool {
    &&& 0 <= i < j < s.len()
    &&& s[i] == Delim::Open
    &&& s[j] == Delim::Close
    &&& depth(s, j + 1) == depth(s, i)
    &&& forall|k: int| i < k <= j ==> depth(s, k) > depth(s, i)
}

/// `i` and `j` are the two ends of one loop, in either order.
pub open spec fn linked(s: Seq<Delim>, i: int, j: int) -> bool {
    is_partner(s, i, j) || is_partner(s, j, i)
}

/// The other end of the loop that the delimiter at `i` belongs to.
pub open spec fn partner(s: Seq<Delim>, i: int) -> int {
    choose|j: int| linked(s, i, j)
}

/// `t` maps every loop delimiter of `s` to its partner and everything
/// else to 0.
pub open spec fn is_jump_table(s: Seq<Delim>, t: Seq<usize>) -> bool {
    &&& t.len() == s.len()
    &&& forall|i: int|
        0 <= i < s.len() ==> if s[i] == Delim::Other {
            #[trigger] t[i] == 0
        } else {
            linked(s, i, t[i] as int)
        }
}

/// A loop-open has at most one partner.
pub proof fn lemma_close_unique(s: Seq<Delim>, i: int, j1: int, j2: int)
    requires
        is_partner(s, i, j1),
        is_partner(s, i, j2),
    ensures
        j1 == j2,
{
    if j1 < j2 {
        assert(depth(s, j1 + 1) > depth(s, i));
    } else if j2 < j1 {
        assert(depth(s, j2 + 1) > depth(s, i));
    }
}

/// A loop-close has at most one partner.
pub proof fn lemma_open_unique(s: Seq<Delim>, i1: int, i2: int, j: int)
    requires
        is_partner(s, i1, j),
        is_partner(s, i2, j),
    ensures
        i1 == i2,
{
    if i1 < i2 {
        assert(depth(s, i2) > depth(s, i1));
    } else if i2 < i1 {
        assert(depth(s, i1) > depth(s, i2));
    }
}

/// The partner of a delimiter is the one it is linked to.
pub proof fn lemma_partner_is(s: Seq<Delim>, i: int, j: int)
    requires
        linked(s, i, j),
    ensures
        partner(s, i) == j,
{
    let p = partner(s, i);
    assert(linked(s, i, p));
    if is_partner(s, i, j) {
        lemma_close_unique(s, i, j, p);
    } else {
        lemma_open_unique(s, j, p, i);
    }
}

/// The depth changes by at most one per element.
pub proof fn lemma_depth_bounds(s: Seq<Delim>, a: int, b: int)
    requires
        0 <= a <= b,
    ensures
        depth(s, a) - (b - a) <= depth(s, b) <= depth(s, a) + (b - a),
    decreases b - a,
{
    if a < b {
        lemma_depth_bounds(s, a, b - 1);
    }
}

/// Across elements that are no loop delimiters the depth stays.
pub proof fn lemma_depth_flat(s: Seq<Delim>, a: int, b: int)
    requires
        0 <= a <= b <= s.len(),
        forall|k: int| a <= k < b ==> s[k] == Delim::Other,
    ensures
        depth(s, b) == depth(s, a),
    decreases b - a,
{
    if a < b {
        lemma_depth_flat(s, a, b - 1);
    }
}

/// Where no prefix is negative, every loop-close has a partner.
pub proof fn lemma_open_exists(s: Seq<Delim>, j: int) -> (i: int)
    requires
        0 <= j < s.len(),
        s[j] == Delim::Close,
        forall|k: int| 0 <= k <= j + 1 ==> depth(s, k) >= 0,
    ensures
        is_partner(s, i, j),
{
    lemma_open_search(s, j, j)
}

proof fn lemma_open_search(s: Seq<Delim>, j: int, k: int) -> (i: int)
    requires
        0 <= k <= j < s.len(),
        s[j] == Delim::Close,
        depth(s, j + 1) >= 0,
        forall|m: int| k <= m <= j ==> #[trigger] depth(s, m) > depth(s, j + 1),
    ensures
        is_partner(s, i, j),
    decreases k,
{
    assert(depth(s, 0) == 0);
    assert(k > 0);
    assert(depth(s, k) == depth(s, k - 1) + delta(s[k - 1]));
    if depth(s, k - 1) > depth(s, j + 1) {
        lemma_open_search(s, j, k - 1)
    } else {
        k - 1
    }
}

/// In a balanced sequence every loop-open has a partner.
pub proof fn lemma_close_exists(s: Seq<Delim>, i: int) -> (j: int)
    requires
        balanced(s),
        0 <= i < s.len(),
        s[i] == Delim::Open,
    ensures
        is_partner(s, i, j),
{
    assert(depth(s, i) >= 0);
    lemma_close_search(s, i, i + 1)
}

proof fn lemma_close_search(s: Seq<Delim>, i: int, k: int) -> (j: int)
    requires
        0 <= i < k <= s.len(),
        s[i] == Delim::Open,
        depth(s, s.len() as int) <= depth(s, i),
        forall|m: int| i < m <= k ==> depth(s, m) > depth(s, i),
    ensures
        is_partner(s, i, j),
    decreases s.len() - k,
{
    assert(k < s.len());
    assert(depth(s, k + 1) == depth(s, k) + delta(s[k]));
    if depth(s, k + 1) > depth(s, i) {
        lemma_close_search(s, i, k + 1)
    } else {
        k
    }
}

/// Where no prefix is negative and every loop-open has a partner, the
/// sequence is balanced.
pub proof fn lemma_all_closed(s: Seq<Delim>)
    requires
        never_negative(s),
        forall|i: int|
            0 <= i < s.len() && s[i] == Delim::Open ==> exists|j: int| #[trigger]
                is_partner(s, i, j),
    ensures
        balanced(s),
{
    let n = s.len() as int;
    if depth(s, n) != 0 {
        let z = lemma_last_zero(s, n);
        assert(depth(s, z + 1) == depth(s, z) + delta(s[z]));
        assert(depth(s, z + 1) > 0);
        let j = choose|j: int| is_partner(s, z, j);
        assert(depth(s, j + 1) > 0);
    }
}

proof fn lemma_last_zero(s: Seq<Delim>, k: int) -> (z: int)
    requires
        never_negative(s),
        0 <= k <= s.len(),
        depth(s, k) > 0,
    ensures
        0 <= z < k,
        depth(s, z) == 0,
        forall|m: int| z < m <= k ==> depth(s, m) > 0,
    decreases k,
{
    assert(depth(s, 0) == 0);
    if depth(s, k - 1) == 0 {
        k - 1
    } else {
        lemma_last_zero(s, k - 1)
    }
}

/// Where every loop-close has a partner, no prefix is negative.
pub proof fn lemma_closes_matched(s: Seq<Delim>, k: int)
    requires
        0 <= k <= s.len(),
        forall|j: int|
            0 <= j < s.len() && s[j] == Delim::Close ==> exists|i: int| #[trigger]
                is_partner(s, i, j),
    ensures
        forall|m: int| 0 <= m <= k ==> depth(s, m) >= 0,
    decreases k,
{
    assert(depth(s, 0) == 0);
    if k > 0 {
        lemma_closes_matched(s, k - 1);
        assert(depth(s, k) == depth(s, k - 1) + delta(s[k - 1]));
        if s[k - 1] == Delim::Close {
            let j = k - 1;
            let i = choose|i: int| is_partner(s, i, j);
            assert(depth(s, j + 1) == depth(s, i));
        }
    }
}

/// A sequence is balanced exactly when every loop-open has a partner
/// and every loop-close has one: an unmatched loop-open, or a
/// loop-close with no loop-open left to close, makes it unbalanced, and
/// nothing else does.
pub proof fn lemma_balanced_iff_matched(s: Seq<Delim>)
    ensures
        balanced(s) <==> {
            &&& forall|i: int|
                0 <= i < s.len() && s[i] == Delim::Open ==> exists|j: int| #[trigger]
                    is_partner(s, i, j)
            &&& forall|j: int|
                0 <= j < s.len() && s[j] == Delim::Close ==> exists|i: int| #[trigger]
                    is_partner(s, i, j)
        },
{
    if balanced(s) {
        assert forall|i: int| 0 <= i < s.len() && s[i] == Delim::Open implies exists|j: int| #[trigger]
            is_partner(s, i, j) by {
            let j = lemma_close_exists(s, i);
        }
        assert forall|j: int| 0 <= j < s.len() && s[j] == Delim::Close implies exists|i: int| #[trigger]
            is_partner(s, i, j) by {
            let i = lemma_open_exists(s, j);
        }
    }
    if (forall|i: int|
        0 <= i < s.len() && s[i] == Delim::Open ==> exists|j: int| #[trigger] is_partner(s, i, j))
        && (forall|j: int|
        0 <= j < s.len() && s[j] == Delim::Close ==> exists|i: int| #[trigger] is_partner(s, i, j)) {
        lemma_closes_matched(s, s.len() as int);
        lemma_all_closed(s);
    }
}

/// A sequence that has a jump table is balanced.
pub proof fn lemma_jump_table_balanced(s: Seq<Delim>, t: Seq<usize>)
    requires
        is_jump_table(s, t),
    ensures
        balanced(s),
{
    assert forall|i: int| 0 <= i < s.len() && s[i] == Delim::Open implies exists|j: int| #[trigger]
        is_partner(s, i, j) by {
        assert(linked(s, i, t[i] as int));
        assert(is_partner(s, i, t[i] as int));
    }
    assert forall|j: int| 0 <= j < s.len() && s[j] == Delim::Close implies exists|i: int| #[trigger]
        is_partner(s, i, j) by {
        assert(linked(s, j, t[j] as int));
        assert(is_partner(s, t[j] as int, j));
    }
    lemma_balanced_iff_matched(s);
}

/// A sequence has at most one jump table.
pub proof fn lemma_jump_table_unique(s: Seq<Delim>, t1: Seq<usize>, t2: Seq<usize>)
    requires
        is_jump_table(s, t1),
        is_jump_table(s, t2),
    ensures
        t1 == t2,
{
    assert forall|i: int| 0 <= i < s.len() implies t1[i] == t2[i] by {
        if s[i] != Delim::Other {
            lemma_partner_is(s, i, t1[i] as int);
            lemma_partner_is(s, i, t2[i] as int);
        }
    }
    assert(t1 =~= t2);
}

/// In a jump table the partner of a delimiter's partner is the
/// delimiter itself, a loop-open lies in front of its partner, and the
/// partner of a loop-open is a loop-close.
pub proof fn lemma_jump_back(s: Seq<Delim>, t: Seq<usize>, i: int)
    requires
        is_jump_table(s, t),
        0 <= i < s.len(),
        s[i] != Delim::Other,
    ensures
        0 <= t[i] < s.len(),
        t[t[i] as int] == i,
        s[i] == Delim::Open ==> i < t[i] && s[t[i] as int] == Delim::Close,
        s[i] == Delim::Close ==> t[i] < i && s[t[i] as int] == Delim::Open,
{
    let j = t[i] as int;
    assert(linked(s, i, j));
    assert(linked(s, j, t[j] as int));
    if s[i] == Delim::Open {
        lemma_open_unique(s, i, t[j] as int, j);
    } else {
        lemma_close_unique(s, j, i, t[j] as int);
    }
}

/// Loops do not cross: the later of two loops lies behind the earlier
/// one or inside it.
pub proof fn lemma_loops_nest(s: Seq<Delim>, i1: int, j1: int, i2: int, j2: int)
    requires
        is_partner(s, i1, j1),
        is_partner(s, i2, j2),
        i1 < i2,
    ensures
        j1 < i2 || j2 < j1,
{
    if i2 < j1 {
        assert(depth(s, i2) > depth(s, i1));
        if j1 < j2 {
            assert(depth(s, j1 + 1) > depth(s, i2));
        } else if j1 == j2 {
            lemma_open_unique(s, i1, i2, j1);
        }
    }
}

/// How many of the first `i` elements are of class `d`.
pub open spec fn count(s: Seq<Delim>, d: Delim, i: int) -> nat
    decreases i,
{
    if i <= 0 {
        0
    } else if s[i - 1] == d {
        count(s, d, i - 1) + 1
    } else {
        count(s, d, i - 1)
    }
}

/// The pairs that a jump table records among the first `k` positions:
/// each loop-open there with its entry.
pub open spec fn recorded_pairs(s: Seq<Delim>, t: Seq<usize>, k: int) -> Set<(int, int)> {
    Set::new(|p: (int, int)| 0 <= p.0 < k && s[p.0] == Delim::Open && p.1 == t[p.0])
}

/// The depth is the number of loop-opens less the number of loop-closes.
pub proof fn lemma_depth_counts(s: Seq<Delim>, k: int)
    ensures
        depth(s, k) == count(s, Delim::Open, k) - count(s, Delim::Close, k),
    decreases k,
{
    if k > 0 {
        lemma_depth_counts(s, k - 1);
    }
}

/// Among the first `k` positions a table records one pair for each
/// loop-open.
pub proof fn lemma_pairs_upto(s: Seq<Delim>, t: Seq<usize>, k: int)
    requires
        0 <= k <= s.len(),
    ensures
        recorded_pairs(s, t, k).finite(),
        recorded_pairs(s, t, k).len() == count(s, Delim::Open, k),
    decreases k,
{
    if k <= 0 {
        assert(recorded_pairs(s, t, k) =~= Set::empty());
    } else {
        lemma_pairs_upto(s, t, k - 1);
        let before = recorded_pairs(s, t, k - 1);
        if s[k - 1] == Delim::Open {
            let pair = (k - 1, t[k - 1] as int);
            assert(!before.contains(pair));
            assert(recorded_pairs(s, t, k) =~= before.insert(pair));
        } else {
            assert(recorded_pairs(s, t, k) =~= before);
        }
    }
}

/// A sequence of `d` loops yields exactly `d` recorded pairs: the jump
/// table records one pair for each loop-open, and there are as many
/// loop-closes as loop-opens.
pub proof fn lemma_pair_count(s: Seq<Delim>, t: Seq<usize>)
    requires
        is_jump_table(s, t),
    ensures
        recorded_pairs(s, t, s.len() as int).finite(),
        recorded_pairs(s, t, s.len() as int).len() == count(s, Delim::Open, s.len() as int),
        count(s, Delim::Open, s.len() as int) == count(s, Delim::Close, s.len() as int),
{
    lemma_jump_table_balanced(s, t);
    lemma_depth_counts(s, s.len() as int);
    lemma_pairs_upto(s, t, s.len() as int);
}

} // verus!
