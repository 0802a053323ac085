use vstd::prelude::*;

use crate::locate::{
    child_from, closes, depth, end_from, find_from, is_entry, is_match, last_at, names, opens,
    path_at, path_from, subtree_end, ValueKind,
};
use crate::syntax::ElementView;

verus! {

/// Two walks hold the same elements before position `w`.
pub open spec fn agree(s: Seq<ElementView>, t: Seq<ElementView>, w: int) -> bool {
    &&& 0 <= w <= s.len()
    &&& w <= t.len()
    &&& forall|k: int| 0 <= k < w ==> s[k] == t[k]
}

pub proof fn lemma_depth_agree(s: Seq<ElementView>, t: Seq<ElementView>, w: int, k: int)
    requires
        agree(s, t, w),
        0 <= k <= w,
    ensures
        opens(s, k) == opens(t, k),
        closes(s, k) == closes(t, k),
        depth(s, k) == depth(t, k),
    decreases k,
{
    if k > 0 {
        lemma_depth_agree(s, t, w, k - 1);
        assert(s[k - 1] == t[k - 1]);
    }
}

/// The depth changes by at most one from one position to the next, and
/// rises by one over a node opening.
pub proof fn lemma_depth_step(s: Seq<ElementView>, p: int)
    requires
        0 <= p < s.len(),
    ensures
        depth(s, p) - 1 <= depth(s, p + 1) <= depth(s, p) + 1,
        s[p] is Open ==> depth(s, p + 1) == depth(s, p) + 1,
{
    assert(opens(s, p + 1) == opens(s, p) + if s[p] is Open { 1nat } else { 0nat });
    assert(closes(s, p + 1) == closes(s, p) + if s[p] is Close { 1nat } else { 0nat });
}

/// Between a position at depth at least `d` and one at depth at most `d`
/// lies a position at depth exactly `d`.
pub proof fn lemma_intermediate_depth(s: Seq<ElementView>, a: int, b: int, d: int) -> (p: int)
    requires
        0 <= a <= b <= s.len(),
        depth(s, a) >= d >= depth(s, b),
    ensures
        a <= p <= b,
        depth(s, p) == d,
    decreases b - a,
{
    if depth(s, a) == d {
        a
    } else {
        lemma_depth_step(s, a);
        lemma_intermediate_depth(s, a + 1, b, d)
    }
}

/// A search for depth `d` stops no later than any position at that depth.
pub proof fn lemma_end_from_min(s: Seq<ElementView>, d: int, a: int, p: int)
    requires
        0 <= a <= p < s.len(),
        depth(s, p) == d,
    ensures
        end_from(s, d, a) <= p,
    decreases p - a,
{
    if a < p && depth(s, a) != d {
        lemma_end_from_min(s, d, a + 1, p);
    }
}

/// Where a search for depth `d` stops inside the walk, the depth is `d`.
pub proof fn lemma_end_from_hit(s: Seq<ElementView>, d: int, a: int)
    requires
        0 <= a,
        end_from(s, d, a) < s.len(),
    ensures
        depth(s, end_from(s, d, a)) == d,
    decreases s.len() - a,
{
    if a < s.len() && depth(s, a) != d {
        lemma_end_from_hit(s, d, a + 1);
    }
}

/// A search that sees no depth `d` in `a..=b` stops after `b`, or at the
/// end of the walk.
pub proof fn lemma_end_from_beyond(s: Seq<ElementView>, d: int, a: int, b: int)
    requires
        0 <= a,
        forall|p: int| a <= p <= b && p < s.len() ==> depth(s, p) != d,
    ensures
        end_from(s, d, a) > b || end_from(s, d, a) == s.len(),
    decreases s.len() - a,
{
    if a < s.len() {
        if a > b {
            crate::locate::lemma_end_from_bounds(s, d, a);
        } else {
            lemma_end_from_beyond(s, d, a + 1, b);
        }
    }
}

/// A search that stops inside an agreeing prefix stops at the same place
/// in both walks.
pub proof fn lemma_end_from_agree(s: Seq<ElementView>, t: Seq<ElementView>, w: int, d: int, a: int)
    requires
        agree(s, t, w),
        0 <= a,
        end_from(s, d, a) <= w,
        end_from(s, d, a) < s.len(),
    ensures
        end_from(t, d, a) == end_from(s, d, a),
    decreases s.len() - a,
{
    crate::locate::lemma_end_from_bounds(s, d, a);
    let p = end_from(s, d, a);
    if a < p {
        lemma_depth_agree(s, t, w, a);
        lemma_end_from_agree(s, t, w, d, a + 1);
    } else {
        lemma_end_from_hit(s, d, a);
        lemma_depth_agree(s, t, w, a);
    }
}

/// A backward search that starts inside an agreeing prefix gives the same
/// answer in both walks.
pub proof fn lemma_last_at_agree(s: Seq<ElementView>, t: Seq<ElementView>, w: int, d: int, k: int)
    requires
        agree(s, t, w),
        0 <= k <= w,
    ensures
        last_at(s, d, k) == last_at(t, d, k),
        last_at(s, d, k) < k,
    decreases k,
{
    if k > 0 {
        lemma_depth_agree(s, t, w, k - 1);
        lemma_last_at_agree(s, t, w, d, k - 1);
    }
}

/// A child found by the search lies in the searched range.
pub proof fn lemma_child_from_range(s: Seq<ElementView>, at: int, kind: ValueKind, k: int, e: int)
    ensures
        child_from(s, at, kind, k, e) matches Some(c) ==> k <= c < e,
    decreases e - k,
{
    if k < e {
        lemma_child_from_range(s, at, kind, k + 1, e);
    }
}

/// One attribute path in range suffices for the search to succeed.
pub proof fn lemma_path_from_witness(s: Seq<ElementView>, name: Seq<char>, a: int, e: int, j: int)
    requires
        a <= j < e,
        path_at(s, name, j),
    ensures
        path_from(s, name, a, e),
    decreases j - a,
{
    if a < j {
        lemma_path_from_witness(s, name, a + 1, e, j);
    }
}

/// Searches over a range on which two walks agree position by position
/// give the same answer.
pub proof fn lemma_path_from_agree(
    s: Seq<ElementView>,
    t: Seq<ElementView>,
    name: Seq<char>,
    a: int,
    e: int,
)
    requires
        forall|q: int| a <= q < e ==> path_at(s, name, q) == path_at(t, name, q),
    ensures
        path_from(s, name, a, e) == path_from(t, name, a, e),
    decreases e - a,
{
    if a < e {
        lemma_path_from_agree(s, t, name, a + 1, e);
    }
}

/// A match with no match before it is what the search finds.
pub proof fn lemma_find_from_witness(s: Seq<ElementView>, name: Seq<char>, a: int, i: int)
    requires
        0 <= a <= i < s.len(),
        is_match(s, name, i),
        forall|m: int| a <= m < i ==> !is_match(s, name, m),
    ensures
        find_from(s, name, a) == Some(i),
    decreases i - a,
{
    if a < i {
        lemma_find_from_witness(s, name, a + 1, i);
    }
}

/// An attribute entry that precedes another entry at the same depth, inside
/// an agreeing prefix, has the same attribute paths below it in both walks.
pub proof fn lemma_names_agree(
    s: Seq<ElementView>,
    t: Seq<ElementView>,
    w: int,
    name: Seq<char>,
    m: int,
    i: int,
)
    requires
        agree(s, t, w),
        0 <= m < i < w,
        is_entry(s, m),
        depth(s, i) == 2,
    ensures
        names(s, name, m) == names(t, name, m),
{
    let em = subtree_end(s, m);
    lemma_end_from_min(s, 2, m + 1, i);
    lemma_end_from_bounds_le(s, m);
    lemma_depth_agree(s, t, w, m);
    lemma_end_from_agree(s, t, w, 2, m + 1);
    lemma_depth_step(s, m);
    lemma_end_from_hit(s, 2, m + 1);
    assert forall|q: int| m + 1 <= q < em implies path_at(s, name, q) == path_at(t, name, q) by {
        assert(s[q] == t[q]);
        if s[q] == ElementView::Open(rnix::SyntaxKind::NODE_ATTRPATH) {
            let dq = depth(s, q);
            if dq <= 2 {
                let p = lemma_intermediate_depth(s, m + 1, q, 2);
                lemma_end_from_min(s, 2, m + 1, p);
            }
            lemma_depth_step(s, q);
            let p = lemma_intermediate_depth(s, q + 1, em, dq);
            lemma_end_from_min(s, dq, q + 1, p);
            lemma_depth_agree(s, t, w, q);
            lemma_end_from_agree(s, t, w, dq, q + 1);
            let eq = subtree_end(s, q);
            crate::locate::lemma_end_from_bounds(s, dq, q + 1);
            assert(s.subrange(q, eq) =~= t.subrange(q, eq));
        }
    }
    lemma_path_from_agree(s, t, name, m + 1, em);
}

proof fn lemma_end_from_bounds_le(s: Seq<ElementView>, m: int)
    requires
        0 <= m < s.len(),
    ensures
        m < subtree_end(s, m) <= s.len(),
{
    crate::locate::lemma_end_from_bounds(s, depth(s, m), m + 1);
}

} // verus!
