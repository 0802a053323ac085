use vstd::prelude::*;

use crate::locate::{find_attr, find_child, lemma_end_from_bounds, subtree_end, ValueKind};
use crate::syntax::{
    copy_element, element_text, is_rooted, lemma_text_of_concat, nix_walk, parseable, present, text_of,
    views,
    Element, ElementView, SyntaxTree,
};

verus! {

/// The tree rnix gives for a source text.
pub open spec fn parsed(text: Seq<char>) -> Seq<ElementView> {
    present(nix_walk(text))
}

/// The children and tokens directly below the root of a walk.
pub open spec fn root_children(s: Seq<ElementView>) -> Seq<ElementView> {
    if s.len() >= 2 {
        s.subrange(1, s.len() - 1)
    } else {
        Seq::empty()
    }
}

/// The walk with the node that opens at `v` replaced by `inner`.
pub open spec fn splice(s: Seq<ElementView>, v: int, inner: Seq<ElementView>) -> Seq<ElementView> {
    s.subrange(0, v) + inner + s.subrange(subtree_end(s, v), s.len() as int)
}

/// The value node to replace: the first child of the expected kind under the
/// attribute entry found under `name`.
pub open spec fn target(s: Seq<ElementView>, name: Seq<char>, kind: ValueKind) -> Option<int> {
    match find_attr(s, name) {
        Some(i) => find_child(s, i, kind),
        None => None,
    }
}

/// The tree after the edit: the target value replaced by the children of
/// the replacement's root, or the tree unchanged where there is no target.
pub open spec fn edited(s: Seq<ElementView>, name: Seq<char>, kind: ValueKind, repl: Seq<ElementView>) -> Seq<
    ElementView,
> {
    match target(s, name, kind) {
        Some(v) => splice(s, v, root_children(repl)),
        None => s,
    }
}

/// The text of the edit where both texts parse: the text before the target
/// value, the replacement, and the text after it; the source itself where
/// there is no target.
pub open spec fn spliced_text(src: Seq<char>, name: Seq<char>, kind: ValueKind, replacement: Seq<char>) -> Seq<
    char,
> {
    let s = parsed(src);
    match target(s, name, kind) {
        Some(v) => text_of(s.subrange(0, v)) + replacement + text_of(
            s.subrange(subtree_end(s, v), s.len() as int),
        ),
        None => src,
    }
}

/// The text of a rooted walk is the text of its root's children.
pub proof fn lemma_root_children_text(s: Seq<ElementView>)
    requires
        is_rooted(s),
    ensures
        text_of(root_children(s)) == text_of(s),
{
    let mid = root_children(s);
    let first = seq![s[0]];
    let last = seq![s.last()];
    assert(s =~= first + mid + last);
    lemma_text_of_concat(first + mid, last);
    lemma_text_of_concat(first, mid);
    assert(first.drop_last() =~= Seq::<ElementView>::empty());
    assert(last.drop_last() =~= Seq::<ElementView>::empty());
    assert(text_of(Seq::<ElementView>::empty()) == Seq::<char>::empty());
    assert(element_text(first.last()) =~= Seq::<char>::empty());
    assert(element_text(last.last()) =~= Seq::<char>::empty());
    assert(text_of(first) =~= Seq::<char>::empty());
    assert(text_of(last) =~= Seq::<char>::empty());
    assert(text_of(first) + text_of(mid) =~= text_of(mid));
    assert(text_of(first + mid) + text_of(last) =~= text_of(first + mid));
}

/// Splicing is local: the text before the replaced node and the text after
/// it are kept, and only the node's own span gives way to the inserted
/// elements' text.
pub proof fn lemma_splice_locality(s: Seq<ElementView>, v: int, inner: Seq<ElementView>)
    requires
        0 <= v < s.len(),
    ensures
        v < subtree_end(s, v) <= s.len(),
        text_of(s) == text_of(s.subrange(0, v)) + text_of(s.subrange(v, subtree_end(s, v)))
            + text_of(s.subrange(subtree_end(s, v), s.len() as int)),
        text_of(splice(s, v, inner)) == text_of(s.subrange(0, v)) + text_of(inner) + text_of(
            s.subrange(subtree_end(s, v), s.len() as int),
        ),
{
    let e = subtree_end(s, v);
    lemma_end_from_bounds(s, crate::locate::depth(s, v), v + 1);
    let pre = s.subrange(0, v);
    let span = s.subrange(v, e);
    let post = s.subrange(e, s.len() as int);
    assert(s =~= pre + span + post);
    lemma_text_of_concat(pre + span, post);
    lemma_text_of_concat(pre, span);
    lemma_text_of_concat(pre + inner, post);
    lemma_text_of_concat(pre, inner);
}

impl SyntaxTree {
    /// Replaces the node that opens at `v` by the children and tokens
    /// directly below the root of `repl`; every other element stays as it
    /// was.
    pub fn splice(&mut self, v: usize, repl: &SyntaxTree)
        requires
            v < old(self)@.len(),
        ensures
            final(self)@ == splice(old(self)@, v as int, root_children(repl@)),
    {
        let e = self.subtree_end(v);
        let ghost s = self@;
        let mut out: Vec<Element> = Vec::new();
        let mut k: usize = 0;
        while k < v
            invariant
                s == self@,
                k <= v < s.len(),
                views(out@) == s.subrange(0, k as int),
            decreases v - k,
        {
            let x = copy_element(&self.elements[k]);
            assert(x@ == s[k as int]);
            let ghost before = out@;
            out.push(x);
            proof {
                assert(views(out@) =~= views(before).push(x@));
                assert(views(out@) =~= s.subrange(0, k + 1));
            }
            k = k + 1;
        }
        let ghost head = views(out@);
        let rn = repl.elements.len();
        if rn >= 2 {
            let mut k: usize = 1;
            while k < rn - 1
                invariant
                    rn == repl@.len(),
                    rn >= 2,
                    1 <= k <= rn - 1,
                    views(out@) == head + repl@.subrange(1, k as int),
                decreases rn - 1 - k,
            {
                let x = copy_element(&repl.elements[k]);
                assert(x@ == repl@[k as int]);
                let ghost before = out@;
                out.push(x);
                proof {
                    assert(views(out@) =~= views(before).push(x@));
                    assert(views(out@) =~= head + repl@.subrange(1, k + 1));
                }
                k = k + 1;
            }
        }
        proof {
            assert(views(out@) =~= s.subrange(0, v as int) + root_children(repl@));
        }
        let ghost mid = views(out@);
        let n = self.elements.len();
        let mut k: usize = e;
        while k < n
            invariant
                s == self@,
                n == s.len(),
                e <= k <= n,
                views(out@) == mid + s.subrange(e as int, k as int),
            decreases n - k,
        {
            let x = copy_element(&self.elements[k]);
            assert(x@ == s[k as int]);
            let ghost before = out@;
            out.push(x);
            proof {
                assert(views(out@) =~= views(before).push(x@));
                assert(views(out@) =~= mid + s.subrange(e as int, k + 1));
            }
            k = k + 1;
        }
        self.elements = out;
    }
}

/// Replaces the value of the attribute `name` in the Nix source `src` by the
/// expression `replacement`.
///
/// The attribute is the first entry of the top-level attribute set, in
/// document order, with an attribute path spelled `name` at or below it; its
/// value is its first child node of the expected kind. Where either is
/// missing the source comes back unchanged. Otherwise the value's span is
/// replaced by the replacement's text and everything around it is kept
/// byte for byte. Where either text is beyond the parser there is no result.
pub fn replace_attr(src: &str, name: &str, kind: ValueKind, replacement: &str) -> (r: Option<String>)
    ensures
        r is Some <==> parseable(src@) && parseable(replacement@),
        r matches Some(t) ==> t@ == text_of(edited(parsed(src@), name@, kind, parsed(replacement@))),
        r matches Some(t) ==> t@ == spliced_text(src@, name@, kind, replacement@),
        r is Some ==> (target(parsed(src@), name@, kind) matches Some(v) ==> {
            let s = parsed(src@);
            let e = subtree_end(s, v);
            &&& 0 <= v < e <= s.len()
            &&& src@ == text_of(s.subrange(0, v)) + text_of(s.subrange(v, e)) + text_of(
                s.subrange(e, s.len() as int),
            )
        }),
{
    let tree = SyntaxTree::parse(src);
    let repl = SyntaxTree::parse(replacement);
    match (tree, repl) {
        (Some(tree), Some(repl)) => {
            let mut tree = tree;
            let ghost s = tree@;
            proof {
                lemma_root_children_text(repl@);
            }
            match tree.find_attr(name) {
                Some(i) => match tree.find_child(i, kind) {
                    Some(v) => {
                        proof {
                            lemma_splice_locality(s, v as int, root_children(repl@));
                        }
                        tree.splice(v, &repl);
                    },
                    None => {},
                },
                None => {},
            }
            Some(tree.to_text())
        },
        _ => None,
    }
}

} // verus!
