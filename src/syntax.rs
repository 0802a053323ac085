use vstd::prelude::*;
use vstd::utf8::encode_utf8;

use crate::locate::depth;

verus! {

#[verifier::external_type_specification]
pub struct ExSyntaxKind(rnix::SyntaxKind);

/// One step of a preorder walk over a syntax tree: a node is entered, a
/// token is met, or the node last entered is left.
pub enum Element {
    Open(rnix::SyntaxKind),
    Token(String),
    Close,
}

/// The mathematical value of an [`Element`].
pub enum ElementView {
    Open(rnix::SyntaxKind),
    Token(Seq<char>),
    Close,
}

impl View for Element {
    type V = ElementView;

    open spec fn view(&self) -> ElementView {
        match self {
            Element::Open(k) => ElementView::Open(*k),
            Element::Token(t) => ElementView::Token(t@),
            Element::Close => ElementView::Close,
        }
    }
}

/// The text an element contributes to the source: a token's characters, or
/// nothing for a node boundary.
pub open spec fn element_text(e: ElementView) -> Seq<char> {
    match e {
        ElementView::Token(t) => t,
        _ => Seq::empty(),
    }
}

/// The source text of a walk: its tokens, concatenated in order.
pub open spec fn text_of(s: Seq<ElementView>) -> Seq<char>
    decreases s.len(),
{
    if s.len() == 0 {
        Seq::empty()
    } else {
        text_of(s.drop_last()) + element_text(s.last())
    }
}

/// The elements of a walk that are present, in order.
pub open spec fn present(s: Seq<Option<ElementView>>) -> Seq<ElementView>
    decreases s.len(),
{
    if s.len() == 0 {
        Seq::empty()
    } else {
        present(s.drop_last()) + match s.last() {
            Some(e) => seq![e],
            None => Seq::empty(),
        }
    }
}

pub open spec fn option_views(s: Seq<Option<Element>>) -> Seq<Option<ElementView>> {
    s.map_values(|o: Option<Element>| match o {
        Some(e) => Some(e@),
        None => None,
    })
}

/// A walk that enters a node first and leaves it last: the walk of a tree
/// from its root.
pub open spec fn is_rooted(s: Seq<ElementView>) -> bool {
    s.len() >= 2 && s[0] is Open && s.last() is Close
}

/// The walk of a tree whose root is a `NODE_ROOT` node: the root is opened
/// first and closed last, and no element in between closes it.
pub open spec fn is_tree_walk(s: Seq<ElementView>) -> bool {
    &&& is_rooted(s)
    &&& s[0] == ElementView::Open(rnix::SyntaxKind::NODE_ROOT)
    &&& forall|k: int| 0 < k < s.len() ==> depth(s, k) >= 1
    &&& depth(s, s.len() as int) == 0
}

/// The most bytes of source text the parser is handed: rowan keeps text
/// offsets in 32 bits.
pub const MAX_TEXT_BYTES: usize = 1_000_000_000;

/// The most tokens in one source text at which rnix's parser descends
/// without its own depth limit.
pub const MAX_NESTING_TOKENS: usize = 2048;

/// The kinds of the tokens rnix's tokenizer cuts a text into, in order.
pub uninterp spec fn nix_token_kinds(text: Seq<char>) -> Seq<rnix::SyntaxKind>;

/// Relies on `rnix::tokenize`, the tokenizer that rnix's parser reads: the
/// tokens depend on the text alone.
#[verifier::external_body]
fn token_kinds(text: &str) -> (r: Vec<rnix::SyntaxKind>)
    requires
        encode_utf8(text@).len() <= MAX_TEXT_BYTES,
    ensures
        r@ == nix_token_kinds(text@),
{
    rnix::tokenize(text).into_iter().map(|t| t.0).collect()
}

/// A token at which rnix's parser recurses outside its depth-limited
/// expression rule: a list `[`, a default `or` after a selection, a unary
/// `-` or `!`, and the right-associative `++`, `//`, `->` and `<|`. Binary
/// `-` is counted too, as the tokenizer does not tell it apart.
pub open spec fn is_nesting_token(k: rnix::SyntaxKind) -> bool {
    k == rnix::SyntaxKind::TOKEN_L_BRACK || k == rnix::SyntaxKind::TOKEN_OR
        || k == rnix::SyntaxKind::TOKEN_SUB || k == rnix::SyntaxKind::TOKEN_INVERT
        || k == rnix::SyntaxKind::TOKEN_CONCAT || k == rnix::SyntaxKind::TOKEN_UPDATE
        || k == rnix::SyntaxKind::TOKEN_IMPLICATION || k == rnix::SyntaxKind::TOKEN_PIPE_LEFT
}

fn nesting_token(k: rnix::SyntaxKind) -> (r: bool)
    ensures
        r == is_nesting_token(k),
{
    match k {
        rnix::SyntaxKind::TOKEN_L_BRACK => true,
        rnix::SyntaxKind::TOKEN_OR => true,
        rnix::SyntaxKind::TOKEN_SUB => true,
        rnix::SyntaxKind::TOKEN_INVERT => true,
        rnix::SyntaxKind::TOKEN_CONCAT => true,
        rnix::SyntaxKind::TOKEN_UPDATE => true,
        rnix::SyntaxKind::TOKEN_IMPLICATION => true,
        rnix::SyntaxKind::TOKEN_PIPE_LEFT => true,
        _ => false,
    }
}

/// How many nesting tokens a token sequence holds.
pub open spec fn nesting_count(ks: Seq<rnix::SyntaxKind>) -> nat
    decreases ks.len(),
{
    if ks.len() == 0 {
        0
    } else {
        nesting_count(ks.drop_last()) + if is_nesting_token(ks.last()) { 1nat } else { 0nat }
    }
}

/// A text the parser takes within its stack and its text offsets: rnix
/// limits the depth of nested expressions itself, and the nesting tokens,
/// where it descends without that limit, are bounded here.
pub open spec fn parseable(text: Seq<char>) -> bool {
    &&& encode_utf8(text).len() <= MAX_TEXT_BYTES
    &&& nesting_count(nix_token_kinds(text)) <= MAX_NESTING_TOKENS
}

/// Whether the parser can take `text`.
pub fn is_parseable(text: &str) -> (r: bool)
    ensures
        r == parseable(text@),
{
    let len = text.as_bytes().len();
    if len > MAX_TEXT_BYTES {
        return false;
    }
    let ks = token_kinds(text);
    let n = ks.len();
    let mut count: usize = 0;
    let mut k: usize = 0;
    while k < n
        invariant
            n == ks@.len(),
            ks@ == nix_token_kinds(text@),
            k <= n,
            count == nesting_count(ks@.subrange(0, k as int)),
            count <= MAX_NESTING_TOKENS,
        decreases n - k,
    {
        proof {
            assert(ks@.subrange(0, k + 1).drop_last() =~= ks@.subrange(0, k as int));
        }
        if nesting_token(ks[k]) {
            if count == MAX_NESTING_TOKENS {
                proof {
                    lemma_nesting_count_prefix(ks@, k + 1);
                }
                return false;
            }
            count = count + 1;
        }
        k = k + 1;
    }
    proof {
        assert(ks@.subrange(0, n as int) =~= ks@);
    }
    true
}

/// The nesting tokens of a prefix are no more than those of the whole.
proof fn lemma_nesting_count_prefix(ks: Seq<rnix::SyntaxKind>, k: int)
    requires
        0 <= k <= ks.len(),
    ensures
        nesting_count(ks.subrange(0, k)) <= nesting_count(ks),
    decreases ks.len() - k,
{
    if k < ks.len() {
        lemma_nesting_count_prefix(ks, k + 1);
        assert(ks.subrange(0, k + 1).drop_last() =~= ks.subrange(0, k));
    } else {
        assert(ks.subrange(0, k) =~= ks);
    }
}

/// The preorder walk rnix produces for a source text, with the steps that
/// leave a token marked as absent.
pub uninterp spec fn nix_walk(text: Seq<char>) -> Seq<Option<ElementView>>;

/// Relies on `rnix::Root::parse` and rowan's `SyntaxNode::preorder_with_tokens`:
/// the walk depends on the text alone; rnix's trees are lossless, so the
/// tokens of the walk spell out the parsed text exactly; and a preorder walk
/// from a node starts by entering that node, ends by leaving it, and leaves
/// each node it entered in between before that; rnix's parser builds every
/// tree under one `NODE_ROOT` node. The parser reads the tokens of
/// `rnix::tokenize`; it bounds its own depth in nested expressions but not
/// at the nesting tokens, whose number `parseable` bounds, and rowan keeps
/// text offsets in 32 bits, which `parseable` keeps in range too.
#[verifier::external_body]
fn walk_nix(text: &str) -> (r: Vec<Option<Element>>)
    requires
        parseable(text@),
    ensures
        option_views(r@) == nix_walk(text@),
        text_of(present(option_views(r@))) == text@,
        is_tree_walk(present(option_views(r@))),
{
    rnix::Root::parse(text).syntax().preorder_with_tokens().map(|ev| match ev {
        rnix::WalkEvent::Enter(rnix::NodeOrToken::Node(n)) => Some(Element::Open(n.kind())),
        rnix::WalkEvent::Enter(rnix::NodeOrToken::Token(t)) => Some(Element::Token(t.text().to_string())),
        rnix::WalkEvent::Leave(rnix::NodeOrToken::Node(_)) => Some(Element::Close),
        rnix::WalkEvent::Leave(rnix::NodeOrToken::Token(_)) => None,
    }).collect()
}

pub(crate) fn copy_element(e: &Element) -> (r: Element)
    ensures
        r@ == e@,
{
    match e {
        Element::Open(k) => Element::Open(*k),
        Element::Token(t) => Element::Token(t.clone()),
        Element::Close => Element::Close,
    }
}

/// A lossless syntax tree, stored as the preorder walk over its nodes and
/// tokens.
pub struct SyntaxTree {
    pub elements: Vec<Element>,
}

impl View for SyntaxTree {
    type V = Seq<ElementView>;

    open spec fn view(&self) -> Seq<ElementView> {
        views(self.elements@)
    }
}

/// The values of a sequence of elements.
pub open spec fn views(v: Seq<Element>) -> Seq<ElementView> {
    v.map_values(|e: Element| e@)
}

pub proof fn lemma_text_of_concat(a: Seq<ElementView>, b: Seq<ElementView>)
    ensures
        text_of(a + b) == text_of(a) + text_of(b),
    decreases b.len(),
{
    if b.len() == 0 {
        assert(a + b =~= a);
        assert(text_of(b) =~= Seq::<char>::empty());
        assert(text_of(a) + text_of(b) =~= text_of(a));
    } else {
        lemma_text_of_concat(a, b.drop_last());
        assert((a + b).drop_last() =~= a + b.drop_last());
        assert(text_of(a) + text_of(b) =~= text_of(a) + text_of(b.drop_last()) + element_text(b.last()));
    }
}

impl SyntaxTree {
    /// Parses Nix source text. Malformed text yields an error-tolerant tree,
    /// and the tree's text is always the parsed text; only a text nested
    /// deeper than the parser's stack allows, or too long for its text
    /// offsets, is refused.
    pub fn parse(text: &str) -> (r: Option<SyntaxTree>)
        ensures
            r is Some <==> parseable(text@),
            r matches Some(t) ==> t@ == present(nix_walk(text@)) && text_of(t@) == text@
                && is_tree_walk(t@),
    {
        if !is_parseable(text) {
            return None;
        }
        let walk = walk_nix(text);
        let mut elements: Vec<Element> = Vec::new();
        let mut i: usize = 0;
        while i < walk.len()
            invariant
                i <= walk.len(),
                option_views(walk@) == nix_walk(text@),
                views(elements@) == present(option_views(walk@).subrange(0, i as int)),
            decreases walk.len() - i,
        {
            proof {
                let w = option_views(walk@);
                assert(w.subrange(0, i + 1).drop_last() =~= w.subrange(0, i as int));
            }
            match &walk[i] {
                Some(e) => {
                    elements.push(copy_element(e));
                },
                None => {},
            }
            proof {
                let w = option_views(walk@);
                assert(views(elements@) =~= present(w.subrange(0, i + 1)));
            }
            i = i + 1;
        }
        proof {
            assert(option_views(walk@).subrange(0, walk.len() as int) =~= option_views(walk@));
        }
        Some(SyntaxTree { elements })
    }

    /// The text of the tree's tokens, in order.
    pub fn to_text(&self) -> (r: String)
        ensures
            r@ == text_of(self@),
    {
        let r = self.range_text(0, self.elements.len());
        proof {
            assert(self@.subrange(0, self@.len() as int) =~= self@);
        }
        r
    }

    /// The text of the tokens among the elements in `start..end`.
    pub fn range_text(&self, start: usize, end: usize) -> (r: String)
        requires
            start <= end <= self@.len(),
        ensures
            r@ == text_of(self@.subrange(start as int, end as int)),
    {
        let mut out = String::new();
        let mut k: usize = start;
        while k < end
            invariant
                start <= k <= end <= self@.len(),
                out@ == text_of(self@.subrange(start as int, k as int)),
            decreases end - k,
        {
            proof {
                assert(self@.subrange(start as int, k + 1).drop_last() =~= self@.subrange(start as int, k as int));
            }
            match &self.elements[k] {
                Element::Token(t) => out.append(t.as_str()),
                _ => {},
            }
            proof {
                assert(out@ =~= text_of(self@.subrange(start as int, k + 1)));
            }
            k = k + 1;
        }
        out
    }
}

} // verus!
