use vstd::prelude::*;

use crate::syntax::{text_of, Element, ElementView, SyntaxTree};

verus! {

/// The two kinds of value an attribute can be expected to hold.
#[derive(Clone, Copy, Debug, PartialEq, Eq, Structural)]
pub enum ValueKind {
    AttrSet,
    Str,
}

impl ValueKind {
    pub open spec fn syntax_kind(self) -> rnix::SyntaxKind {
        match self {
            ValueKind::AttrSet => rnix::SyntaxKind::NODE_ATTR_SET,
            ValueKind::Str => rnix::SyntaxKind::NODE_STRING,
        }
    }
}

/// The number of node openings among the first `k` elements.
pub open spec fn opens(s: Seq<ElementView>, k: int) -> nat
    decreases k,
{
    if k <= 0 {
        0
    } else {
        opens(s, k - 1) + if s[k - 1] is Open { 1nat } else { 0nat }
    }
}

/// The number of node closings among the first `k` elements.
pub open spec fn closes(s: Seq<ElementView>, k: int) -> nat
    decreases k,
{
    if k <= 0 {
        0
    } else {
        closes(s, k - 1) + if s[k - 1] is Close { 1nat } else { 0nat }
    }
}

/// How many nodes are open just before element `k`: the root's opening
/// stands at depth 0, its children at depth 1.
pub open spec fn depth(s: Seq<ElementView>, k: int) -> int {
    opens(s, k) - closes(s, k)
}

/// The first position from `j` on at which the depth is `d`, or the end.
pub open spec fn end_from(s: Seq<ElementView>, d: int, j: int) -> int
    decreases s.len() - j,
{
    if j >= s.len() {
        s.len() as int
    } else if depth(s, j) == d {
        j
    } else {
        end_from(s, d, j + 1)
    }
}

/// One past the last element of the node that opens at `i`.
pub open spec fn subtree_end(s: Seq<ElementView>, i: int) -> int {
    end_from(s, depth(s, i), i + 1)
}

/// The last position before `k` at depth `d`, or -1.
pub open spec fn last_at(s: Seq<ElementView>, d: int, k: int) -> int
    decreases k,
{
    if k <= 0 {
        -1
    } else if depth(s, k - 1) == d {
        k - 1
    } else {
        last_at(s, d, k - 1)
    }
}

/// The opening of the node that holds element `i`, or -1.
pub open spec fn parent_of(s: Seq<ElementView>, i: int) -> int {
    last_at(s, depth(s, i) - 1, i)
}

/// Element `i` opens an attribute-path/value node that is a child of an
/// attribute set which is itself a child of the root.
pub open spec fn is_entry(s: Seq<ElementView>, i: int) -> bool {
    &&& 0 <= i < s.len()
    &&& s[i] == ElementView::Open(rnix::SyntaxKind::NODE_ATTRPATH_VALUE)
    &&& depth(s, i) == 2
    &&& 0 <= parent_of(s, i)
    &&& s[parent_of(s, i)] == ElementView::Open(rnix::SyntaxKind::NODE_ATTR_SET)
}

/// Element `j` opens an attribute path whose text is `name`.
pub open spec fn path_at(s: Seq<ElementView>, name: Seq<char>, j: int) -> bool {
    &&& 0 <= j < s.len()
    &&& s[j] == ElementView::Open(rnix::SyntaxKind::NODE_ATTRPATH)
    &&& text_of(s.subrange(j, subtree_end(s, j))) == name
}

/// Some position in `j..e` opens an attribute path whose text is `name`.
pub open spec fn path_from(s: Seq<ElementView>, name: Seq<char>, j: int, e: int) -> bool
    decreases e - j,
{
    if j >= e {
        false
    } else {
        path_at(s, name, j) || path_from(s, name, j + 1, e)
    }
}

/// The node that opens at `i` has a descendant attribute path whose text is
/// `name`.
pub open spec fn names(s: Seq<ElementView>, name: Seq<char>, i: int) -> bool {
    path_from(s, name, i + 1, subtree_end(s, i))
}

/// Element `i` opens an attribute entry of the top-level attribute set that
/// is found under `name`.
pub open spec fn is_match(s: Seq<ElementView>, name: Seq<char>, i: int) -> bool {
    is_entry(s, i) && names(s, name, i)
}

/// The first position from `i` on that matches `name`.
pub open spec fn find_from(s: Seq<ElementView>, name: Seq<char>, i: int) -> Option<int>
    decreases s.len() - i,
{
    if i >= s.len() {
        None
    } else if is_match(s, name, i) {
        Some(i)
    } else {
        find_from(s, name, i + 1)
    }
}

/// The attribute entry found under `name`: the first in document order.
pub open spec fn find_attr(s: Seq<ElementView>, name: Seq<char>) -> Option<int> {
    find_from(s, name, 0)
}

/// The first position in `k..e` that opens a child of the node at `at` of
/// the given kind.
pub open spec fn child_from(s: Seq<ElementView>, at: int, kind: ValueKind, k: int, e: int) -> Option<int>
    decreases e - k,
{
    if k >= e {
        None
    } else if s[k] == ElementView::Open(kind.syntax_kind()) && depth(s, k) == depth(s, at) + 1 {
        Some(k)
    } else {
        child_from(s, at, kind, k + 1, e)
    }
}

/// The first child of the node at `at` that is a node of the given kind.
pub open spec fn find_child(s: Seq<ElementView>, at: int, kind: ValueKind) -> Option<int> {
    child_from(s, at, kind, at + 1, subtree_end(s, at))
}

pub proof fn lemma_end_from_bounds(s: Seq<ElementView>, d: int, j: int)
    requires
        0 <= j,
    ensures
        j <= s.len() ==> j <= end_from(s, d, j),
        end_from(s, d, j) <= s.len(),
    decreases s.len() - j,
{
    if j < s.len() && depth(s, j) != d {
        lemma_end_from_bounds(s, d, j + 1);
    }
}

fn open_kind_is(e: &Element, kind: ValueKind) -> (r: bool)
    ensures
        r == (e@ == ElementView::Open(kind.syntax_kind())),
{
    match e {
        Element::Open(k) => match (k, kind) {
            (rnix::SyntaxKind::NODE_ATTR_SET, ValueKind::AttrSet) => true,
            (rnix::SyntaxKind::NODE_STRING, ValueKind::Str) => true,
            _ => false,
        },
        _ => false,
    }
}

fn is_open_of(e: &Element, kind: rnix::SyntaxKind) -> (r: bool)
    requires
        kind == rnix::SyntaxKind::NODE_ATTR_SET || kind == rnix::SyntaxKind::NODE_ATTRPATH
            || kind == rnix::SyntaxKind::NODE_ATTRPATH_VALUE,
    ensures
        r == (e@ == ElementView::Open(kind)),
{
    match e {
        Element::Open(k) => match (k, kind) {
            (rnix::SyntaxKind::NODE_ATTR_SET, rnix::SyntaxKind::NODE_ATTR_SET) => true,
            (rnix::SyntaxKind::NODE_ATTRPATH, rnix::SyntaxKind::NODE_ATTRPATH) => true,
            (rnix::SyntaxKind::NODE_ATTRPATH_VALUE, rnix::SyntaxKind::NODE_ATTRPATH_VALUE) => true,
            _ => false,
        },
        _ => false,
    }
}

impl SyntaxTree {
    /// One past the last element of the node that opens at `i`.
    pub fn subtree_end(&self, i: usize) -> (r: usize)
        requires
            i < self@.len(),
        ensures
            r as int == subtree_end(self@, i as int),
            i < r <= self@.len(),
    {
        let ghost s = self@;
        let ghost d = depth(s, i as int);
        proof {
            lemma_end_from_bounds(s, d, i + 1);
        }
        let mut up: usize = 0;
        let mut down: usize = 0;
        match &self.elements[i] {
            Element::Open(_) => up = 1,
            Element::Close => down = 1,
            _ => {},
        }
        let n = self.elements.len();
        let mut j: usize = i + 1;
        while j < n
            invariant
                s == self@,
                n == s.len(),
                d == depth(s, i as int),
                i < j <= s.len(),
                up + down <= j - i,
                opens(s, j as int) == opens(s, i as int) + up,
                closes(s, j as int) == closes(s, i as int) + down,
                end_from(s, d, j as int) == subtree_end(s, i as int),
            decreases s.len() - j,
        {
            if up == down {
                return j;
            }
            match &self.elements[j] {
                Element::Open(_) => up = up + 1,
                Element::Close => down = down + 1,
                _ => {},
            }
            j = j + 1;
        }
        j
    }

    /// The opening of the node that holds element `i`, if there is one.
    pub fn parent_of(&self, i: usize) -> (r: Option<usize>)
        requires
            i < self@.len(),
        ensures
            match r {
                Some(p) => p as int == parent_of(self@, i as int) && p < i,
                None => parent_of(self@, i as int) == -1,
            },
    {
        let ghost s = self@;
        let ghost d = depth(s, i as int) - 1;
        let mut a: usize = 0;
        let mut b: usize = 0;
        let mut k: usize = i;
        while k > 0
            invariant
                s == self@,
                d == depth(s, i as int) - 1,
                k <= i < s.len(),
                a + b <= i - k,
                opens(s, i as int) == opens(s, k as int) + a,
                closes(s, i as int) == closes(s, k as int) + b,
                last_at(s, d, k as int) == parent_of(s, i as int),
            decreases k,
        {
            match &self.elements[k - 1] {
                Element::Open(_) => a = a + 1,
                Element::Close => b = b + 1,
                _ => {},
            }
            if a > b && a - b == 1 {
                return Some(k - 1);
            }
            k = k - 1;
        }
        None
    }

    /// Whether the node that opens at `i` has a descendant attribute path
    /// whose text is `name`.
    pub fn names(&self, i: usize, name: &String) -> (r: bool)
        requires
            i < self@.len(),
        ensures
            r == names(self@, name@, i as int),
    {
        let e = self.subtree_end(i);
        assert(i < e);
        let mut j: usize = i + 1;
        while j < e
            invariant
                i < j <= e <= self@.len(),
                e as int == subtree_end(self@, i as int),
                path_from(self@, name@, j as int, e as int) == names(self@, name@, i as int),
            decreases e - j,
        {
            if is_open_of(&self.elements[j], rnix::SyntaxKind::NODE_ATTRPATH) {
                let ej = self.subtree_end(j);
                let t = self.range_text(j, ej);
                if t == *name {
                    return true;
                }
            }
            j = j + 1;
        }
        false
    }

    /// The attribute entry of the top-level attribute set found under
    /// `name`: the first entry in document order that has an attribute path
    /// spelled `name` at or below it.
    pub fn find_attr(&self, name: &str) -> (r: Option<usize>)
        ensures
            r matches Some(i) ==> i < self@.len() && find_attr(self@, name@) == Some(i as int),
            r is None ==> find_attr(self@, name@) is None,
    {
        let ghost s = self@;
        let target = name.to_owned();
        let mut o: usize = 0;
        let mut c: usize = 0;
        let mut i: usize = 0;
        while i < self.elements.len()
            invariant
                s == self@,
                target@ == name@,
                i <= s.len(),
                o + c <= i,
                o == opens(s, i as int),
                c == closes(s, i as int),
                find_from(s, name@, i as int) == find_attr(s, name@),
            decreases s.len() - i,
        {
            if o >= 2 && o - 2 == c && is_open_of(&self.elements[i], rnix::SyntaxKind::NODE_ATTRPATH_VALUE) {
                match self.parent_of(i) {
                    Some(p) => {
                        if is_open_of(&self.elements[p], rnix::SyntaxKind::NODE_ATTR_SET) && self.names(i, &target) {
                            return Some(i);
                        }
                    },
                    None => {},
                }
            }
            match &self.elements[i] {
                Element::Open(_) => o = o + 1,
                Element::Close => c = c + 1,
                _ => {},
            }
            i = i + 1;
        }
        None
    }

    /// The first child of the node at `at` that is a node of the given kind.
    pub fn find_child(&self, at: usize, kind: ValueKind) -> (r: Option<usize>)
        requires
            at < self@.len(),
        ensures
            r matches Some(k) ==> at < k < subtree_end(self@, at as int) <= self@.len()
                && find_child(self@, at as int, kind) == Some(k as int),
            r is None ==> find_child(self@, at as int, kind) is None,
    {
        let ghost s = self@;
        let e = self.subtree_end(at);
        let mut up: usize = 0;
        let mut down: usize = 0;
        match &self.elements[at] {
            Element::Open(_) => up = 1,
            Element::Close => down = 1,
            _ => {},
        }
        let mut k: usize = at + 1;
        while k < e
            invariant
                s == self@,
                at < k <= e <= s.len(),
                e as int == subtree_end(s, at as int),
                up + down <= k - at,
                opens(s, k as int) == opens(s, at as int) + up,
                closes(s, k as int) == closes(s, at as int) + down,
                child_from(s, at as int, kind, k as int, e as int) == find_child(s, at as int, kind),
            decreases e - k,
        {
            if up > down && up - down == 1 && open_kind_is(&self.elements[k], kind) {
                return Some(k);
            }
            match &self.elements[k] {
                Element::Open(_) => up = up + 1,
                Element::Close => down = down + 1,
                _ => {},
            }
            k = k + 1;
        }
        None
    }
}

} // verus!
