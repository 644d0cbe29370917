//! The lossless syntax-tree substrate: an immutable tree of nodes and
//! tokens.  Every token carries the exact text it spans, every node carries
//! the half-open character range it covers, and a well-formed tree
//! reproduces its source text from its leaves alone.
//!
//! Positions count characters of the source text, starting at 0.  The
//! line index speaks byte offsets of the raw text instead; the two units
//! agree only on plain-ASCII prefixes, so a consumer translating tree
//! positions to editor lines must convert where a file holds multi-byte
//! characters.

use vstd::prelude::*;
use crate::kind::{LuaSyntaxKind, LuaTokenKind};

verus! {

/// A leaf token: a kind, the character offset where it starts, and the text
/// it spans.
pub struct LuaSyntaxToken {
    pub kind: LuaTokenKind,
    pub start: usize,
    pub text: String,
}

/// One child of a node: either a nested node or a leaf token.
pub enum LuaSyntaxElement {
    Node(LuaSyntaxNode),
    Token(LuaSyntaxToken),
}

/// An interior node: a kind, the half-open character range `[start, end)` it
/// covers, and its ordered children.
pub struct LuaSyntaxNode {
    pub kind: LuaSyntaxKind,
    pub start: usize,
    pub end: usize,
    pub children: Vec<LuaSyntaxElement>,
}

/// A whole file's tree together with the text it was built from.
pub struct LuaSyntaxTree {
    pub root: LuaSyntaxNode,
    pub text: String,
}

/// The text spanned by an element.
pub open spec fn elem_text(e: LuaSyntaxElement) -> Seq<char>
    decreases e,
{
    match e {
        LuaSyntaxElement::Token(t) => t.text@,
        LuaSyntaxElement::Node(n) => node_text(n),
    }
}

/// The concatenated text of a sequence of sibling elements.
pub open spec fn elems_text(s: Seq<LuaSyntaxElement>) -> Seq<char>
    decreases s,
{
    if s.len() == 0 {
        Seq::empty()
    } else {
        elems_text(s.drop_last()) + elem_text(s.last())
    }
}

/// The text spanned by a node: the concatenation of its children's texts.
pub open spec fn node_text(n: LuaSyntaxNode) -> Seq<char>
    decreases n,
{
    elems_text(n.children@)
}

/// Where an element starts.
pub open spec fn elem_start(e: LuaSyntaxElement) -> int {
    match e {
        LuaSyntaxElement::Token(t) => t.start as int,
        LuaSyntaxElement::Node(n) => n.start as int,
    }
}

/// Well-formedness of an element standing at a given character offset.
pub open spec fn elem_wf(e: LuaSyntaxElement) -> bool
    decreases e,
{
    match e {
        LuaSyntaxElement::Token(_) => true,
        LuaSyntaxElement::Node(n) => node_wf(n),
    }
}

/// The children of a well-formed node sit side by side: each one starts
/// exactly where the text of its earlier siblings ends.
pub open spec fn elems_wf_at(s: Seq<LuaSyntaxElement>, start: int) -> bool
    decreases s,
{
    if s.len() == 0 {
        true
    } else {
        &&& elems_wf_at(s.drop_last(), start)
        &&& elem_wf(s.last())
        &&& elem_start(s.last()) == start + elems_text(s.drop_last()).len()
    }
}

/// A node is well formed when its range is exactly the text its children
/// span and its children sit side by side from its start.
pub open spec fn node_wf(n: LuaSyntaxNode) -> bool
    decreases n,
{
    &&& n.end == n.start + node_text(n).len()
    &&& elems_wf_at(n.children@, n.start as int)
}

impl LuaSyntaxTree {
    /// A well-formed tree starts at offset 0 and spans exactly its text.
    pub open spec fn wf(self) -> bool {
        &&& node_wf(self.root)
        &&& self.root.start == 0
        &&& node_text(self.root) == self.text@
    }
}

/// Where an element ends.
pub open spec fn elem_end(e: LuaSyntaxElement) -> int {
    match e {
        LuaSyntaxElement::Token(t) => t.start + t.text@.len(),
        LuaSyntaxElement::Node(n) => n.end as int,
    }
}

/// The text of a prefix of a sibling row never shrinks as the prefix grows.
proof fn lemma_elems_text_prefix_len(s: Seq<LuaSyntaxElement>, i: int, j: int)
    requires
        0 <= i <= j <= s.len(),
    ensures
        elems_text(s.take(i)).len() <= elems_text(s.take(j)).len(),
    decreases j - i,
{
    if i < j {
        lemma_elems_text_prefix_len(s, i, j - 1);
        assert(s.take(j).drop_last() =~= s.take(j - 1));
        assert(elems_text(s.take(j)) == elems_text(s.take(j - 1)) + elem_text(s.take(j).last()));
    }
}

/// One member of a well-formed sibling row: it is well formed itself, and
/// its range is exactly the text of the earlier siblings to the text
/// through itself, measured from the row's start.
proof fn lemma_elems_wf_member(s: Seq<LuaSyntaxElement>, start: int, i: int)
    requires
        elems_wf_at(s, start),
        0 <= i < s.len(),
    ensures
        elem_wf(s[i]),
        elem_start(s[i]) == start + elems_text(s.take(i)).len(),
        elem_end(s[i]) == start + elems_text(s.take(i + 1)).len(),
    decreases s.len(),
{
    if i == s.len() - 1 {
        assert(s.take(i) =~= s.drop_last());
        assert(s.take(i + 1) =~= s);
        assert(s.last() == s[i]);
        assert(elem_wf(s[i]));
        assert(elems_text(s) == elems_text(s.drop_last()) + elem_text(s.last()));
        match s[i] {
            LuaSyntaxElement::Token(_) => {},
            LuaSyntaxElement::Node(n) => {
                assert(elem_wf(s[i]) == node_wf(n));
            },
        }
    } else {
        lemma_elems_wf_member(s.drop_last(), start, i);
        assert(s.drop_last().take(i) =~= s.take(i));
        assert(s.drop_last().take(i + 1) =~= s.take(i + 1));
        assert(s.drop_last()[i] == s[i]);
    }
}

/// Every child of a well-formed node lies inside the node's range and is
/// itself well formed.
pub proof fn lemma_child_in_node_range(n: LuaSyntaxNode, i: int)
    requires
        node_wf(n),
        0 <= i < n.children@.len(),
    ensures
        n.start <= elem_start(n.children@[i]),
        elem_start(n.children@[i]) <= elem_end(n.children@[i]),
        elem_end(n.children@[i]) <= n.end,
        elem_wf(n.children@[i]),
    decreases n,
{
    lemma_elems_wf_member(n.children@, n.start as int, i);
    lemma_elems_text_prefix_len(n.children@, 0, i);
    lemma_elems_text_prefix_len(n.children@, i, i + 1);
    lemma_elems_text_prefix_len(n.children@, i + 1, n.children@.len() as int);
    assert(n.children@.take(0) =~= Seq::<LuaSyntaxElement>::empty());
    assert(n.children@.take(n.children@.len() as int) =~= n.children@);
}

/// Source order: of two children of a well-formed node, the earlier one
/// ends at or before the later one starts.
pub proof fn lemma_sibling_order(n: LuaSyntaxNode, i: int, j: int)
    requires
        node_wf(n),
        0 <= i < j < n.children@.len(),
    ensures
        elem_end(n.children@[i]) <= elem_start(n.children@[j]),
{
    lemma_elems_wf_member(n.children@, n.start as int, i);
    lemma_elems_wf_member(n.children@, n.start as int, j);
    lemma_elems_text_prefix_len(n.children@, i + 1, j);
}

/// Well-formedness descends: every node a valid path reaches in a
/// well-formed subtree is itself well formed.
pub proof fn lemma_node_at_wf(root: LuaSyntaxNode, path: Seq<usize>)
    requires
        node_wf(root),
        node_at(root, path) is Some,
    ensures
        node_wf(node_at(root, path)->Some_0),
    decreases path.len(),
{
    if path.len() > 0 {
        lemma_node_at_wf(root, path.drop_last());
        let m = node_at(root, path.drop_last())->Some_0;
        lemma_child_in_node_range(m, path.last() as int);
    }
}

/// A node a valid path reaches lies inside every node along the path: in
/// particular inside the node one step up.
pub proof fn lemma_node_at_in_parent_range(root: LuaSyntaxNode, path: Seq<usize>)
    requires
        node_wf(root),
        path.len() > 0,
        node_at(root, path) is Some,
    ensures
        node_at(root, path.drop_last())->Some_0.start <= node_at(root, path)->Some_0.start,
        node_at(root, path)->Some_0.end <= node_at(root, path.drop_last())->Some_0.end,
{
    lemma_node_at_wf(root, path.drop_last());
    lemma_child_in_node_range(node_at(root, path.drop_last())->Some_0, path.last() as int);
}

/// Source order of two children of the node a path reaches in a
/// well-formed tree: the earlier child spans text before the later one.
/// In particular an `if` statement's condition, an earlier child, ends at
/// or before its `then` block begins; and a `repeat` statement's body
/// block ends at or before its `until` condition begins.
pub proof fn lemma_child_ranges_ordered(tree: LuaSyntaxTree, path: Seq<usize>, i: int, j: int)
    requires
        tree.wf(),
        node_at(tree.root, path) is Some,
        0 <= i < j < node_at(tree.root, path)->Some_0.children@.len(),
    ensures
        elem_end(node_at(tree.root, path)->Some_0.children@[i]) <= elem_start(
            node_at(tree.root, path)->Some_0.children@[j],
        ),
{
    lemma_node_at_wf(tree.root, path);
    lemma_sibling_order(node_at(tree.root, path)->Some_0, i, j);
}

/// The leaf tokens under an element, in tree order.
pub open spec fn elem_tokens(e: LuaSyntaxElement) -> Seq<LuaSyntaxToken>
    decreases e,
{
    match e {
        LuaSyntaxElement::Token(t) => seq![t],
        LuaSyntaxElement::Node(n) => node_tokens(n),
    }
}

/// The leaf tokens under a sequence of sibling elements, in tree order.
pub open spec fn elems_tokens(s: Seq<LuaSyntaxElement>) -> Seq<LuaSyntaxToken>
    decreases s,
{
    if s.len() == 0 {
        Seq::empty()
    } else {
        elems_tokens(s.drop_last()) + elem_tokens(s.last())
    }
}

/// The leaf tokens under a node, in tree order.
pub open spec fn node_tokens(n: LuaSyntaxNode) -> Seq<LuaSyntaxToken>
    decreases n,
{
    elems_tokens(n.children@)
}

/// The concatenated text of a sequence of tokens.
pub open spec fn tokens_text(ts: Seq<LuaSyntaxToken>) -> Seq<char>
    decreases ts,
{
    if ts.len() == 0 {
        Seq::empty()
    } else {
        tokens_text(ts.drop_last()) + ts.last().text@
    }
}

proof fn lemma_tokens_text_concat(a: Seq<LuaSyntaxToken>, b: Seq<LuaSyntaxToken>)
    ensures
        tokens_text(a + b) == tokens_text(a) + tokens_text(b),
    decreases b.len(),
{
    if b.len() == 0 {
        assert(a + b =~= a);
        assert(tokens_text(a) + tokens_text(b) =~= tokens_text(a));
    } else {
        lemma_tokens_text_concat(a, b.drop_last());
        assert((a + b).drop_last() =~= a + b.drop_last());
        assert((a + b).last() == b.last());
        assert(tokens_text(a) + tokens_text(b.drop_last()) + b.last().text@
            =~= tokens_text(a) + tokens_text(b));
    }
}

proof fn lemma_elem_tokens_text(e: LuaSyntaxElement)
    ensures
        tokens_text(elem_tokens(e)) == elem_text(e),
    decreases e,
{
    match e {
        LuaSyntaxElement::Token(t) => {
            assert(elem_tokens(e).drop_last() =~= Seq::<LuaSyntaxToken>::empty());
            assert(tokens_text(Seq::<LuaSyntaxToken>::empty()) == Seq::<char>::empty());
            assert(elem_tokens(e).last() == t);
            assert(Seq::<char>::empty() + t.text@ =~= t.text@);
        },
        LuaSyntaxElement::Node(n) => {
            lemma_elems_tokens_text(n.children@);
        },
    }
}

proof fn lemma_elems_tokens_text(s: Seq<LuaSyntaxElement>)
    ensures
        tokens_text(elems_tokens(s)) == elems_text(s),
    decreases s,
{
    if s.len() > 0 {
        lemma_elems_tokens_text(s.drop_last());
        lemma_elem_tokens_text(s.last());
        lemma_tokens_text_concat(elems_tokens(s.drop_last()), elem_tokens(s.last()));
    }
}

/// Losslessness: concatenating the text of every leaf token of a well-formed
/// tree, in tree order, reproduces the tree's source text exactly.
pub proof fn lemma_round_trip(tree: LuaSyntaxTree)
    requires
        tree.wf(),
    ensures
        tokens_text(node_tokens(tree.root)) == tree.text@,
{
    lemma_elems_tokens_text(tree.root.children@);
}

/// The node child of `n` at child index `i`, if that child is a node.
pub open spec fn child_node(n: LuaSyntaxNode, i: int) -> Option<LuaSyntaxNode> {
    if 0 <= i < n.children@.len() {
        match n.children@[i] {
            LuaSyntaxElement::Node(c) => Some(c),
            LuaSyntaxElement::Token(_) => None,
        }
    } else {
        None
    }
}

/// The token child of `n` at child index `i`, if that child is a token.
pub open spec fn child_token(n: LuaSyntaxNode, i: int) -> Option<LuaSyntaxToken> {
    if 0 <= i < n.children@.len() {
        match n.children@[i] {
            LuaSyntaxElement::Node(_) => None,
            LuaSyntaxElement::Token(t) => Some(t),
        }
    } else {
        None
    }
}

/// The node reached from `n` by following `path`, one child index per step;
/// `None` when a step leaves the tree or lands on a token.
pub open spec fn node_at(n: LuaSyntaxNode, path: Seq<usize>) -> Option<LuaSyntaxNode>
    decreases path.len(),
{
    if path.len() == 0 {
        Some(n)
    } else {
        match node_at(n, path.drop_last()) {
            None => None,
            Some(m) => child_node(m, path.last() as int),
        }
    }
}

/// Follows a child-index path down from `root`.
pub fn lookup_node<'a>(root: &'a LuaSyntaxNode, path: &Vec<usize>) -> (r: Option<
    &'a LuaSyntaxNode,
>)
    ensures
        match r {
            Some(n) => node_at(*root, path@) == Some(*n),
            None => node_at(*root, path@) is None,
        },
{
    let mut cur = root;
    let mut i: usize = 0;
    proof {
        assert(path@.take(0) =~= Seq::<usize>::empty());
    }
    while i < path.len()
        invariant
            i <= path.len(),
            node_at(*root, path@.take(i as int)) == Some(*cur),
        decreases path.len() - i,
    {
        proof {
            assert(path@.take(i as int + 1).drop_last() =~= path@.take(i as int));
            assert(path@.take(i as int + 1).last() == path@[i as int]);
        }
        let j = path[i];
        if j >= cur.children.len() {
            proof {
                lemma_node_at_extend_none(*root, path@, i as int);
            }
            return None;
        }
        match &cur.children[j] {
            LuaSyntaxElement::Node(c) => {
                cur = c;
            },
            LuaSyntaxElement::Token(_) => {
                proof {
                    lemma_node_at_extend_none(*root, path@, i as int);
                }
                return None;
            },
        }
        i = i + 1;
    }
    proof {
        assert(path@.take(path@.len() as int) =~= path@);
    }
    Some(cur)
}

/// Once a prefix of the path fails, the whole path fails.
proof fn lemma_node_at_extend_none(root: LuaSyntaxNode, path: Seq<usize>, i: int)
    requires
        0 <= i <= path.len(),
        node_at(root, path.take(i)) is None || child_node(
            node_at(root, path.take(i)) ->Some_0,
            path[i] as int,
        ) is None && i < path.len(),
    ensures
        node_at(root, path) is None,
    decreases path.len() - i,
{
    if i < path.len() {
        assert(path.take(i + 1).drop_last() =~= path.take(i));
        assert(path.take(i + 1).last() == path[i]);
        lemma_node_at_extend_none(root, path, i + 1);
    } else {
        assert(path.take(i) =~= path);
    }
}

/// How many nodes and tokens an element holds, itself included.
pub open spec fn elem_count(e: LuaSyntaxElement) -> nat
    decreases e,
{
    match e {
        LuaSyntaxElement::Token(_) => 1,
        LuaSyntaxElement::Node(n) => node_count(n),
    }
}

/// The summed sizes of sibling elements.
pub open spec fn elems_count(s: Seq<LuaSyntaxElement>) -> nat
    decreases s,
{
    if s.len() == 0 {
        0
    } else {
        elems_count(s.drop_last()) + elem_count(s.last())
    }
}

/// How many nodes and tokens a subtree holds, its root included.
pub open spec fn node_count(n: LuaSyntaxNode) -> nat
    decreases n,
{
    1 + elems_count(n.children@)
}

proof fn lemma_elems_count_member(s: Seq<LuaSyntaxElement>, i: int)
    requires
        0 <= i < s.len(),
    ensures
        elem_count(s[i]) <= elems_count(s),
    decreases s.len(),
{
    if i < s.len() - 1 {
        lemma_elems_count_member(s.drop_last(), i);
    }
}

/// A node child is strictly smaller than its parent.
pub proof fn lemma_child_count(n: LuaSyntaxNode, i: int)
    requires
        child_node(n, i) is Some,
    ensures
        node_count(child_node(n, i)->Some_0) < node_count(n),
{
    lemma_elems_count_member(n.children@, i);
}

/// The character range of the node at `path`.
pub fn node_range(tree: &LuaSyntaxTree, path: &Vec<usize>) -> (r: (usize, usize))
    requires
        node_at(tree.root, path@) is Some,
    ensures
        r.0 == view_node(*tree, path@).start,
        r.1 == view_node(*tree, path@).end,
{
    match lookup_node(&tree.root, path) {
        Some(n) => (n.start, n.end),
        None => vstd::pervasive::unreached(),
    }
}

/// Whether the path leads to a node of kind `k` in the tree.
pub open spec fn path_is_node_of_kind(
    tree: LuaSyntaxTree,
    path: Seq<usize>,
    k: LuaSyntaxKind,
) -> bool {
    match node_at(tree.root, path) {
        Some(n) => n.kind == k,
        None => false,
    }
}

/// The node a path leads to; meaningful only where the path is known valid.
pub open spec fn view_node(tree: LuaSyntaxTree, path: Seq<usize>) -> LuaSyntaxNode {
    match node_at(tree.root, path) {
        Some(n) => n,
        None => arbitrary(),
    }
}

/// The kind of the node a path leads to, if any.
pub fn node_kind_at(tree: &LuaSyntaxTree, path: &Vec<usize>) -> (r: Option<LuaSyntaxKind>)
    ensures
        r == (match node_at(tree.root, path@) {
            Some(n) => Some(n.kind),
            None => None::<LuaSyntaxKind>,
        }),
{
    match lookup_node(&tree.root, path) {
        Some(n) => Some(n.kind),
        None => None,
    }
}

/// Stepping one child further down composes with `child_node`.
pub proof fn lemma_node_at_push(root: LuaSyntaxNode, path: Seq<usize>, i: usize)
    ensures
        node_at(root, path.push(i)) == (match node_at(root, path) {
            Some(m) => child_node(m, i as int),
            None => None::<LuaSyntaxNode>,
        }),
{
    assert(path.push(i).drop_last() =~= path);
    assert(path.push(i).last() == i);
}

/// A valid path has a valid parent path.
pub proof fn lemma_node_at_parent(root: LuaSyntaxNode, path: Seq<usize>)
    requires
        path.len() > 0,
        node_at(root, path) is Some,
    ensures
        node_at(root, path.drop_last()) is Some,
{
}

/// Whether child `i` of `n` is a node of kind `k`.
pub open spec fn child_node_is(n: LuaSyntaxNode, i: int, k: LuaSyntaxKind) -> bool {
    match child_node(n, i) {
        Some(c) => c.kind == k,
        None => false,
    }
}

/// Whether child `i` of `n` is a token of kind `k`.
pub open spec fn child_token_is(n: LuaSyntaxNode, i: int, k: LuaTokenKind) -> bool {
    match child_token(n, i) {
        Some(t) => t.kind == k,
        None => false,
    }
}

/// The least child index at or after `i` holding a node of kind `k`.
pub open spec fn first_child_of_kind_from(n: LuaSyntaxNode, i: int, k: LuaSyntaxKind) -> Option<
    int,
>
    decreases n.children@.len() - i,
{
    if i < 0 || i >= n.children@.len() {
        None
    } else if child_node_is(n, i, k) {
        Some(i)
    } else {
        first_child_of_kind_from(n, i + 1, k)
    }
}

/// All child indices below `i` holding a node of kind `k`, in order.
pub open spec fn children_of_kind_upto(n: LuaSyntaxNode, i: int, k: LuaSyntaxKind) -> Seq<int>
    decreases i,
{
    if i <= 0 {
        Seq::empty()
    } else if child_node_is(n, i - 1, k) {
        children_of_kind_upto(n, i - 1, k).push(i - 1)
    } else {
        children_of_kind_upto(n, i - 1, k)
    }
}

/// The least child index at or after `i` holding a token of kind `k`.
pub open spec fn first_token_of_kind_from(n: LuaSyntaxNode, i: int, k: LuaTokenKind) -> Option<
    int,
>
    decreases n.children@.len() - i,
{
    if i < 0 || i >= n.children@.len() {
        None
    } else if child_token_is(n, i, k) {
        Some(i)
    } else {
        first_token_of_kind_from(n, i + 1, k)
    }
}

/// All child indices below `i` holding a token of kind `k`, in order.
pub open spec fn tokens_of_kind_upto(n: LuaSyntaxNode, i: int, k: LuaTokenKind) -> Seq<int>
    decreases i,
{
    if i <= 0 {
        Seq::empty()
    } else if child_token_is(n, i - 1, k) {
        tokens_of_kind_upto(n, i - 1, k).push(i - 1)
    } else {
        tokens_of_kind_upto(n, i - 1, k)
    }
}

/// Every index listed by `children_of_kind_upto` holds a node of that kind.
pub proof fn lemma_children_of_kind_member(n: LuaSyntaxNode, i: int, k: LuaSyntaxKind, j: int)
    requires
        0 <= j < children_of_kind_upto(n, i, k).len(),
    ensures
        child_node_is(n, children_of_kind_upto(n, i, k)[j], k),
        0 <= children_of_kind_upto(n, i, k)[j] < i,
    decreases i,
{
    if i > 0 {
        if j < children_of_kind_upto(n, i - 1, k).len() {
            lemma_children_of_kind_member(n, i - 1, k, j);
        }
    }
}

/// What a successful first-child search means: the found index holds a node
/// of the kind searched for.
pub proof fn lemma_first_child_of_kind_member(n: LuaSyntaxNode, i: int, k: LuaSyntaxKind)
    requires
        first_child_of_kind_from(n, i, k) is Some,
    ensures
        i <= first_child_of_kind_from(n, i, k)->Some_0 < n.children@.len(),
        child_node_is(n, first_child_of_kind_from(n, i, k)->Some_0, k),
    decreases n.children@.len() - i,
{
    if 0 <= i < n.children@.len() && !child_node_is(n, i, k) {
        lemma_first_child_of_kind_member(n, i + 1, k);
    }
}

/// What a successful first-token search means: the found index holds a
/// token of the kind searched for.
pub proof fn lemma_first_token_of_kind_member(n: LuaSyntaxNode, i: int, k: LuaTokenKind)
    requires
        first_token_of_kind_from(n, i, k) is Some,
    ensures
        i <= first_token_of_kind_from(n, i, k)->Some_0 < n.children@.len(),
        child_token_is(n, first_token_of_kind_from(n, i, k)->Some_0, k),
    decreases n.children@.len() - i,
{
    if 0 <= i < n.children@.len() && !child_token_is(n, i, k) {
        lemma_first_token_of_kind_member(n, i + 1, k);
    }
}

/// Scans the children of `n` for the first node of kind `k`.
pub fn first_child_of_kind(n: &LuaSyntaxNode, k: LuaSyntaxKind) -> (r: Option<usize>)
    ensures
        match r {
            Some(i) => first_child_of_kind_from(*n, 0, k) == Some(i as int),
            None => first_child_of_kind_from(*n, 0, k) is None,
        },
{
    let mut i: usize = 0;
    while i < n.children.len()
        invariant
            i <= n.children.len(),
            first_child_of_kind_from(*n, 0, k) == first_child_of_kind_from(*n, i as int, k),
        decreases n.children.len() - i,
    {
        match &n.children[i] {
            LuaSyntaxElement::Node(c) => {
                if c.kind == k {
                    return Some(i);
                }
            },
            LuaSyntaxElement::Token(_) => {},
        }
        i = i + 1;
    }
    None
}

/// Collects the children of `n` that are nodes of kind `k`, in order.
pub fn children_of_kind(n: &LuaSyntaxNode, k: LuaSyntaxKind) -> (r: Vec<usize>)
    ensures
        r@.map_values(|u: usize| u as int) == children_of_kind_upto(
            *n,
            n.children@.len() as int,
            k,
        ),
{
    let mut out: Vec<usize> = Vec::new();
    let mut i: usize = 0;
    proof {
        assert(out@.map_values(|u: usize| u as int) =~= children_of_kind_upto(*n, 0, k));
    }
    while i < n.children.len()
        invariant
            i <= n.children.len(),
            out@.map_values(|u: usize| u as int) == children_of_kind_upto(*n, i as int, k),
        decreases n.children.len() - i,
    {
        let ghost pre = out@;
        match &n.children[i] {
            LuaSyntaxElement::Node(c) => {
                if c.kind == k {
                    out.push(i);
                }
            },
            LuaSyntaxElement::Token(_) => {},
        }
        i = i + 1;
        proof {
            if out@.len() > pre.len() {
                assert(out@.map_values(|u: usize| u as int) =~= pre.map_values(
                    |u: usize| u as int,
                ).push(i as int - 1));
            }
        }
    }
    out
}

/// Scans the children of `n` for the first token of kind `k`.
pub fn first_token_of_kind(n: &LuaSyntaxNode, k: LuaTokenKind) -> (r: Option<usize>)
    ensures
        match r {
            Some(i) => first_token_of_kind_from(*n, 0, k) == Some(i as int),
            None => first_token_of_kind_from(*n, 0, k) is None,
        },
{
    let mut i: usize = 0;
    while i < n.children.len()
        invariant
            i <= n.children.len(),
            first_token_of_kind_from(*n, 0, k) == first_token_of_kind_from(*n, i as int, k),
        decreases n.children.len() - i,
    {
        match &n.children[i] {
            LuaSyntaxElement::Token(t) => {
                if t.kind == k {
                    return Some(i);
                }
            },
            LuaSyntaxElement::Node(_) => {},
        }
        i = i + 1;
    }
    None
}

/// Collects the children of `n` that are tokens of kind `k`, in order.
pub fn tokens_of_kind(n: &LuaSyntaxNode, k: LuaTokenKind) -> (r: Vec<usize>)
    ensures
        r@.map_values(|u: usize| u as int) == tokens_of_kind_upto(
            *n,
            n.children@.len() as int,
            k,
        ),
{
    let mut out: Vec<usize> = Vec::new();
    let mut i: usize = 0;
    proof {
        assert(out@.map_values(|u: usize| u as int) =~= tokens_of_kind_upto(*n, 0, k));
    }
    while i < n.children.len()
        invariant
            i <= n.children.len(),
            out@.map_values(|u: usize| u as int) == tokens_of_kind_upto(*n, i as int, k),
        decreases n.children.len() - i,
    {
        let ghost pre = out@;
        match &n.children[i] {
            LuaSyntaxElement::Token(t) => {
                if t.kind == k {
                    out.push(i);
                }
            },
            LuaSyntaxElement::Node(_) => {},
        }
        i = i + 1;
        proof {
            if out@.len() > pre.len() {
                assert(out@.map_values(|u: usize| u as int) =~= pre.map_values(
                    |u: usize| u as int,
                ).push(i as int - 1));
            }
        }
    }
    out
}


/// Completeness of the token search: every child index holding a token of
/// the kind appears in the collected list.
pub proof fn lemma_tokens_of_kind_complete(n: LuaSyntaxNode, i: int, k: LuaTokenKind, j: int)
    requires
        0 <= j < i,
        child_token_is(n, j, k),
    ensures
        tokens_of_kind_upto(n, i, k).contains(j),
    decreases i,
{
    if j == i - 1 {
        assert(tokens_of_kind_upto(n, i, k).last() == j);
    } else {
        lemma_tokens_of_kind_complete(n, i - 1, k, j);
        let m = choose|m: int|
            0 <= m < tokens_of_kind_upto(n, i - 1, k).len() && #[trigger] tokens_of_kind_upto(n, i - 1, k)[m]
                == j;
        assert(tokens_of_kind_upto(n, i, k)[m] == j);
    }
}

/// Completeness of the node search: every child index holding a node of
/// the kind appears in the collected list.
pub proof fn lemma_children_of_kind_complete(n: LuaSyntaxNode, i: int, k: LuaSyntaxKind, j: int)
    requires
        0 <= j < i,
        child_node_is(n, j, k),
    ensures
        children_of_kind_upto(n, i, k).contains(j),
    decreases i,
{
    if j == i - 1 {
        assert(children_of_kind_upto(n, i, k).last() == j);
    } else {
        lemma_children_of_kind_complete(n, i - 1, k, j);
        let m = choose|m: int|
            0 <= m < children_of_kind_upto(n, i - 1, k).len() && #[trigger] children_of_kind_upto(
                n,
                i - 1,
                k,
            )[m] == j;
        assert(children_of_kind_upto(n, i, k)[m] == j);
    }
}

/// An unpositioned description of a subtree, as a parser would hand it over:
/// node kinds with children, and tokens with their text.
pub enum LuaSyntaxPart {
    Node(LuaSyntaxKind, Vec<LuaSyntaxPart>),
    Token(LuaTokenKind, String),
}

/// The text a part will span once positioned.
pub open spec fn part_text(p: LuaSyntaxPart) -> Seq<char>
    decreases p,
{
    match p {
        LuaSyntaxPart::Token(_, s) => s@,
        LuaSyntaxPart::Node(_, cs) => parts_text(cs@),
    }
}

/// The concatenated text of a sequence of parts.
pub open spec fn parts_text(s: Seq<LuaSyntaxPart>) -> Seq<char>
    decreases s,
{
    if s.len() == 0 {
        Seq::empty()
    } else {
        parts_text(s.drop_last()) + part_text(s.last())
    }
}

/// A built element mirrors a part: same kinds, same token texts, in the same
/// arrangement.
pub open spec fn part_matches(p: LuaSyntaxPart, e: LuaSyntaxElement) -> bool
    decreases p,
{
    match (p, e) {
        (LuaSyntaxPart::Token(k, s), LuaSyntaxElement::Token(t)) => t.kind == k && t.text@ == s@,
        (LuaSyntaxPart::Node(k, cs), LuaSyntaxElement::Node(n)) => n.kind == k && parts_match(
            cs@,
            n.children@,
        ),
        _ => false,
    }
}

/// Elementwise `part_matches` over sibling sequences.
pub open spec fn parts_match(ps: Seq<LuaSyntaxPart>, es: Seq<LuaSyntaxElement>) -> bool
    decreases ps,
{
    &&& ps.len() == es.len()
    &&& (ps.len() == 0 || (parts_match(ps.drop_last(), es.drop_last()) && part_matches(
        ps.last(),
        es.last(),
    )))
}

proof fn lemma_match_text(ps: Seq<LuaSyntaxPart>, es: Seq<LuaSyntaxElement>)
    requires
        parts_match(ps, es),
    ensures
        elems_text(es) == parts_text(ps),
    decreases ps,
{
    if ps.len() > 0 {
        lemma_match_text(ps.drop_last(), es.drop_last());
        lemma_match_text_elem(ps.last(), es.last());
    } else {
        assert(es.len() == 0);
    }
}

proof fn lemma_match_text_elem(p: LuaSyntaxPart, e: LuaSyntaxElement)
    requires
        part_matches(p, e),
    ensures
        elem_text(e) == part_text(p),
    decreases p,
{
    match (p, e) {
        (LuaSyntaxPart::Node(_, cs), LuaSyntaxElement::Node(n)) => {
            lemma_match_text(cs@, n.children@);
        },
        _ => {},
    }
}

proof fn lemma_parts_text_concat(a: Seq<LuaSyntaxPart>, b: Seq<LuaSyntaxPart>)
    ensures
        parts_text(a + b) == parts_text(a) + parts_text(b),
    decreases b.len(),
{
    if b.len() == 0 {
        assert(a + b =~= a);
        assert(parts_text(a) + parts_text(b) =~= parts_text(a));
    } else {
        lemma_parts_text_concat(a, b.drop_last());
        assert((a + b).drop_last() =~= a + b.drop_last());
        assert(parts_text(a) + parts_text(b.drop_last()) + part_text(b.last()) =~= parts_text(a)
            + parts_text(b)) by {
            assert(parts_text(b) == parts_text(b.drop_last()) + part_text(b.last()));
        }
    }
}

/// Positions one part at the given character offset, returning the built
/// element together with the text it spans.
fn build_elem(p: &LuaSyntaxPart, start: usize) -> (r: (LuaSyntaxElement, String))
    requires
        start + part_text(*p).len() <= usize::MAX,
    ensures
        part_matches(*p, r.0),
        r.1@ == part_text(*p),
        elem_wf(r.0),
        elem_start(r.0) == start,
        elem_text(r.0) == part_text(*p),
    decreases *p,
{
    match p {
        LuaSyntaxPart::Token(k, s) => {
            let tok = LuaSyntaxToken { kind: *k, start, text: s.clone() };
            let text = s.clone();
            (LuaSyntaxElement::Token(tok), text)
        },
        LuaSyntaxPart::Node(k, cs) => {
            let mut children: Vec<LuaSyntaxElement> = Vec::new();
            let mut text = String::new();
            let mut off = start;
            let mut i: usize = 0;
            proof {
                assert(cs@.take(0) =~= Seq::<LuaSyntaxPart>::empty());
            }
            while i < cs.len()
                invariant
                    i <= cs.len(),
                    start + part_text(*p).len() <= usize::MAX,
                    *p == LuaSyntaxPart::Node(p->Node_0, *cs),
                    parts_match(cs@.take(i as int), children@),
                    elems_wf_at(children@, start as int),
                    text@ == parts_text(cs@.take(i as int)),
                    elems_text(children@) == text@,
                    off == start + text@.len(),
                decreases cs.len() - i,
            {
                proof {
                    assert(cs@.take(i as int + 1).drop_last() =~= cs@.take(i as int));
                    assert(cs@.take(i as int + 1).last() == cs@[i as int]);
                    assert(cs@ =~= cs@.take(i as int + 1) + cs@.skip(i as int + 1));
                    lemma_parts_text_concat(cs@.take(i as int + 1), cs@.skip(i as int + 1));
                    assert(parts_text(cs@.take(i as int + 1)) == parts_text(cs@.take(i as int))
                        + part_text(cs@[i as int]));
                    assert(decreases_to!(*p => cs@[i as int]));
                }
                let (e, t) = build_elem(&cs[i], off);
                let tlen = t.as_str().unicode_len();
                let ghost pre = children@;
                children.push(e);
                text.append(t.as_str());
                off = off + tlen;
                i = i + 1;
                proof {
                    assert(children@.drop_last() =~= pre);
                    assert(children@.last() == e);
                }
            }
            proof {
                assert(cs@.take(cs@.len() as int) =~= cs@);
            }
            let node = LuaSyntaxNode { kind: *k, start, end: off, children };
            (LuaSyntaxElement::Node(node), text)
        },
    }
}

impl LuaSyntaxTree {
    /// Builds a positioned, well-formed tree from an unpositioned
    /// description: the root node's kind and its children.
    pub fn assemble(kind: LuaSyntaxKind, parts: Vec<LuaSyntaxPart>) -> (t: LuaSyntaxTree)
        requires
            parts_text(parts@).len() <= usize::MAX,
        ensures
            t.wf(),
            t.root.kind == kind,
            parts_match(parts@, t.root.children@),
            t.text@ == parts_text(parts@),
    {
        let p = LuaSyntaxPart::Node(kind, parts);
        let (e, text) = build_elem(&p, 0);
        match e {
            LuaSyntaxElement::Node(root) => LuaSyntaxTree { root, text },
            LuaSyntaxElement::Token(_) => {
                proof {
                    assert(false);
                }
                LuaSyntaxTree {
                    root: LuaSyntaxNode {
                        kind,
                        start: 0,
                        end: 0,
                        children: Vec::new(),
                    },
                    text,
                }
            },
        }
    }
}

} // verus!
