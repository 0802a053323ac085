use vstd::prelude::*;

use crate::edit::{edited, splice, target};
use crate::locate::{
    depth, find_attr, find_child, find_from, is_entry, is_match, last_at, parent_of, path_at,
    subtree_end, ValueKind,
};
use crate::syntax::{is_tree_walk, ElementView};
use crate::walk_facts::{
    agree, lemma_child_from_range, lemma_depth_agree, lemma_end_from_agree, lemma_end_from_beyond,
    lemma_end_from_min, lemma_find_from_witness, lemma_last_at_agree, lemma_names_agree,
    lemma_path_from_witness,
};

verus! {

/// Where no target is found (no attribute of that name, or a value of
/// another kind) the edit leaves the tree as it was.
pub proof fn lemma_no_target_unchanged(
    s: Seq<ElementView>,
    name: Seq<char>,
    kind: ValueKind,
    repl: Seq<ElementView>,
)
    requires
        target(s, name, kind) is None,
    ensures
        edited(s, name, kind, repl) == s,
{
}

/// What a search from `i` finds is a match, and nothing between `i` and it
/// matches; where it finds nothing, nothing from `i` on matches.
pub proof fn lemma_find_from(s: Seq<ElementView>, name: Seq<char>, i: int)
    requires
        0 <= i,
    ensures
        find_from(s, name, i) matches Some(k) ==> (i <= k < s.len() && is_match(s, name, k)
            && forall|m: int| i <= m < k ==> !is_match(s, name, m)),
        find_from(s, name, i) is None ==> forall|m: int| i <= m < s.len() ==> !is_match(s, name, m),
    decreases s.len() - i,
{
    if i < s.len() && !is_match(s, name, i) {
        lemma_find_from(s, name, i + 1);
    }
}

/// Of two entries found under the same name, the one earlier in document
/// order is the one located, never the later.
pub proof fn lemma_first_in_document_order(s: Seq<ElementView>, name: Seq<char>, i: int, j: int)
    requires
        0 <= i < j,
        is_match(s, name, i),
        is_match(s, name, j),
    ensures
        find_attr(s, name) matches Some(k) && k <= i,
        find_attr(s, name) != Some(j),
{
    lemma_find_from(s, name, 0);
    assert(i < s.len()) by {
        assert(is_match(s, name, i));
    }
}

/// Once the value of the entry found under `name` has been replaced, a
/// second search under `name` finds that same entry again, provided the
/// attribute path that named it stands before the replaced value.
pub proof fn lemma_search_again_finds_same_entry(
    s: Seq<ElementView>,
    name: Seq<char>,
    kind: ValueKind,
    inner: Seq<ElementView>,
    i: int,
    v: int,
    j: int,
)
    requires
        find_attr(s, name) == Some(i),
        find_child(s, i, kind) == Some(v),
        i < j,
        path_at(s, name, j),
        subtree_end(s, j) <= v,
    ensures
        find_attr(splice(s, v, inner), name) == Some(i),
{
    let t = splice(s, v, inner);
    lemma_find_from(s, name, 0);
    let ei = subtree_end(s, i);
    crate::locate::lemma_end_from_bounds(s, depth(s, i), i + 1);
    lemma_child_from_range(s, i, kind, i + 1, ei);
    let ev = subtree_end(s, v);
    crate::locate::lemma_end_from_bounds(s, depth(s, v), v + 1);
    assert(agree(s, t, v));
    assert(t.len() >= v);
    // the entry itself still matches
    lemma_depth_agree(s, t, v, i);
    lemma_last_at_agree(s, t, v, depth(s, i) - 1, i);
    assert(is_entry(t, i));
    let ej = subtree_end(s, j);
    crate::locate::lemma_end_from_bounds(s, depth(s, j), j + 1);
    lemma_depth_agree(s, t, v, j);
    lemma_end_from_agree(s, t, v, depth(s, j), j + 1);
    assert(s.subrange(j, ej) =~= t.subrange(j, ej));
    assert(path_at(t, name, j));
    assert forall|p: int| i + 1 <= p <= v && p < t.len() implies depth(t, p) != depth(t, i) by {
        lemma_depth_agree(s, t, v, p);
        if depth(s, p) == depth(s, i) {
            lemma_end_from_min(s, depth(s, i), i + 1, p);
        }
    }
    lemma_end_from_beyond(t, depth(t, i), i + 1, v);
    lemma_path_from_witness(t, name, i + 1, subtree_end(t, i), j);
    assert(is_match(t, name, i));
    // no earlier entry starts to match
    assert forall|m: int| 0 <= m < i implies !is_match(t, name, m) by {
        if is_entry(t, m) {
            lemma_depth_agree(s, t, v, m);
            lemma_last_at_agree(s, t, v, depth(s, m) - 1, m);
            assert(is_entry(s, m));
            lemma_names_agree(s, t, v, name, m, i);
            assert(!is_match(s, name, m));
        }
    }
    lemma_find_from_witness(t, name, 0, i);
}

proof fn lemma_last_at_hit(s: Seq<ElementView>, d: int, k: int)
    ensures
        last_at(s, d, k) >= 0 ==> depth(s, last_at(s, d, k)) == d,
    decreases k,
{
    if k > 0 {
        lemma_last_at_hit(s, d, k - 1);
    }
}

proof fn lemma_last_at_root(s: Seq<ElementView>, k: int)
    requires
        is_tree_walk(s),
        1 <= k < s.len(),
    ensures
        last_at(s, 0, k) == 0,
    decreases k,
{
    if k > 1 {
        lemma_last_at_root(s, k - 1);
    }
}

/// In the walk of a tree, an attribute entry that is found sits in an
/// attribute set whose parent is the root.
pub proof fn lemma_entry_set_is_root_child(s: Seq<ElementView>, i: int)
    requires
        is_tree_walk(s),
        is_entry(s, i),
    ensures
        0 < parent_of(s, i) < i,
        parent_of(s, parent_of(s, i)) == 0,
{
    let p = parent_of(s, i);
    crate::walk_facts::lemma_last_at_agree(s, s, i, depth(s, i) - 1, i);
    lemma_last_at_hit(s, depth(s, i) - 1, i);
    assert(p != 0);
    assert(depth(s, p) == 1);
    lemma_last_at_root(s, p);
}

} // verus!
