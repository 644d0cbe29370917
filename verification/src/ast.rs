//! Typed views over the syntax-tree substrate: thin handles that claim a
//! node kind and expose named structural accessors.  A view holds the
//! child-index path of its node; every accessor takes the tree it was cast
//! from.

use vstd::prelude::*;
use vstd::string::StringExecFns;
use crate::kind::{LuaSyntaxKind, LuaTokenKind};
use crate::tree::{
    LuaSyntaxNode, LuaSyntaxTree, LuaSyntaxElement, LuaSyntaxToken, child_node, child_token,
    node_at, view_node, path_is_node_of_kind, node_kind_at, lookup_node, first_child_of_kind,
    first_child_of_kind_from, lemma_first_child_of_kind_member, lemma_node_at_push,
    tokens_of_kind, tokens_of_kind_upto, child_token_is, first_token_of_kind,
    first_token_of_kind_from, lemma_first_token_of_kind_member, children_of_kind,
    children_of_kind_upto, lemma_children_of_kind_member,
};
use crate::expr::{
    LuaExpr, LuaVarExpr, LuaSingleArgExpr, first_expr_child, first_expr_child_from,
    last_expr_child, last_expr_child_upto, expr_child_indices, expr_children_upto,
    first_single_arg_child, first_single_arg_child_from, first_var_child, first_var_child_from,
    is_expr_kind, lemma_first_expr_child_member,
    lemma_last_expr_child_member, lemma_first_single_arg_child_member,
    lemma_first_var_child_member, lemma_tokens_of_kind_member,
};
use crate::stat::{LuaStat, stat_children_upto, stat_child_indices, lemma_stat_children_member};

verus! {

/// Copies a child-index path.
pub fn clone_path(path: &Vec<usize>) -> (r: Vec<usize>)
    ensures
        r@ == path@,
{
    let mut out: Vec<usize> = Vec::new();
    let mut i: usize = 0;
    proof {
        assert(out@ =~= path@.take(0));
    }
    while i < path.len()
        invariant
            i <= path.len(),
            out@ == path@.take(i as int),
        decreases path.len() - i,
    {
        out.push(path[i]);
        i = i + 1;
        proof {
            assert(out@ =~= path@.take(i as int));
        }
    }
    proof {
        assert(path@.take(path@.len() as int) =~= path@);
    }
    out
}

/// The path of child `i` under the node at `path`.
pub fn child_path(path: &Vec<usize>, i: usize) -> (r: Vec<usize>)
    ensures
        r@ == path@.push(i),
{
    let mut p = clone_path(path);
    p.push(i);
    p
}

/// Whether `path` leads to a node whose child `tok` is a token of kind `k`.
pub open spec fn path_is_token_of_kind(
    tree: LuaSyntaxTree,
    path: Seq<usize>,
    tok: int,
    k: LuaTokenKind,
) -> bool {
    node_at(tree.root, path) is Some && child_token_is(view_node(tree, path), tok, k)
}

/// The token such a view denotes; meaningful only where the view is valid.
pub open spec fn view_token(tree: LuaSyntaxTree, path: Seq<usize>, tok: int) -> LuaSyntaxToken {
    match child_token(view_node(tree, path), tok) {
        Some(t) => t,
        None => arbitrary(),
    }
}

/// A view of a name token: the path of its parent node and its child index.
pub struct LuaNameToken {
    pub path: Vec<usize>,
    pub tok: usize,
}

impl LuaNameToken {
    pub open spec fn valid(self, tree: LuaSyntaxTree) -> bool {
        path_is_token_of_kind(tree, self.path@, self.tok as int, LuaTokenKind::TkName)
    }

    pub open spec fn spec_token(self, tree: LuaSyntaxTree) -> LuaSyntaxToken {
        view_token(tree, self.path@, self.tok as int)
    }

    /// The text of the name.
    pub fn get_name_text<'a>(&self, tree: &'a LuaSyntaxTree) -> (r: &'a String)
        requires
            self.valid(*tree),
        ensures
            r@ == self.spec_token(*tree).text@,
    {
        let n = match lookup_node(&tree.root, &self.path) {
            Some(n) => n,
            None => {
                return vstd::pervasive::unreached();
            },
        };
        match &n.children[self.tok] {
            LuaSyntaxElement::Token(t) => &t.text,
            LuaSyntaxElement::Node(_) => vstd::pervasive::unreached(),
        }
    }

    /// The character offset where the name starts.
    pub fn get_position(&self, tree: &LuaSyntaxTree) -> (r: usize)
        requires
            self.valid(*tree),
        ensures
            r == self.spec_token(*tree).start,
    {
        let n = match lookup_node(&tree.root, &self.path) {
            Some(n) => n,
            None => {
                return vstd::pervasive::unreached();
            },
        };
        match &n.children[self.tok] {
            LuaSyntaxElement::Token(t) => t.start,
            LuaSyntaxElement::Node(_) => vstd::pervasive::unreached(),
        }
    }
}

/// The root view of a file's tree.
pub struct LuaChunk {
    pub path: Vec<usize>,
}

impl LuaChunk {
    pub open spec fn valid(self, tree: LuaSyntaxTree) -> bool {
        path_is_node_of_kind(tree, self.path@, LuaSyntaxKind::Chunk)
    }

    pub open spec fn node(self, tree: LuaSyntaxTree) -> LuaSyntaxNode {
        view_node(tree, self.path@)
    }

    pub fn can_cast(kind: LuaSyntaxKind) -> (r: bool)
        ensures
            r == (kind == LuaSyntaxKind::Chunk),
    {
        kind == LuaSyntaxKind::Chunk
    }

    pub fn cast(tree: &LuaSyntaxTree, path: Vec<usize>) -> (r: Option<LuaChunk>)
        ensures
            r is Some <==> path_is_node_of_kind(*tree, path@, LuaSyntaxKind::Chunk),
            r matches Some(v) ==> v.path@ == path@,
    {
        match node_kind_at(tree, &path) {
            Some(k) => if k == LuaSyntaxKind::Chunk {
                Some(LuaChunk { path })
            } else {
                None
            },
            None => None,
        }
    }

    pub fn syntax(&self) -> (r: &Vec<usize>)
        ensures
            r@ == self.path@,
    {
        &self.path
    }

    /// The chunk's top-level block.
    pub fn get_block(&self, tree: &LuaSyntaxTree) -> (r: Option<LuaBlock>)
        requires
            self.valid(*tree),
        ensures
            r is Some <==> first_child_of_kind_from(self.node(*tree), 0, LuaSyntaxKind::Block)
                is Some,
            r matches Some(b) ==> b.valid(*tree) && Some(b.path@.last() as int)
                == first_child_of_kind_from(self.node(*tree), 0, LuaSyntaxKind::Block)
                && b.path@.drop_last() == self.path@ && b.path@.len() == self.path@.len() + 1,
    {
        let n = match lookup_node(&tree.root, &self.path) {
            Some(n) => n,
            None => {
                return None;
            },
        };
        match first_child_of_kind(n, LuaSyntaxKind::Block) {
            Some(i) => {
                proof {
                    lemma_first_child_of_kind_member(*n, 0, LuaSyntaxKind::Block);
                    lemma_node_at_push(tree.root, self.path@, i);
                    assert((self.path@.push(i)).drop_last() =~= self.path@);
                }
                Some(LuaBlock { path: child_path(&self.path, i) })
            },
            None => None,
        }
    }
}

/// A statement block.
pub struct LuaBlock {
    pub path: Vec<usize>,
}

impl LuaBlock {
    pub open spec fn valid(self, tree: LuaSyntaxTree) -> bool {
        path_is_node_of_kind(tree, self.path@, LuaSyntaxKind::Block)
    }

    pub open spec fn node(self, tree: LuaSyntaxTree) -> LuaSyntaxNode {
        view_node(tree, self.path@)
    }

    pub fn can_cast(kind: LuaSyntaxKind) -> (r: bool)
        ensures
            r == (kind == LuaSyntaxKind::Block),
    {
        kind == LuaSyntaxKind::Block
    }

    pub fn cast(tree: &LuaSyntaxTree, path: Vec<usize>) -> (r: Option<LuaBlock>)
        ensures
            r is Some <==> path_is_node_of_kind(*tree, path@, LuaSyntaxKind::Block),
            r matches Some(v) ==> v.path@ == path@,
    {
        match node_kind_at(tree, &path) {
            Some(k) => if k == LuaSyntaxKind::Block {
                Some(LuaBlock { path })
            } else {
                None
            },
            None => None,
        }
    }

    pub fn syntax(&self) -> (r: &Vec<usize>)
        ensures
            r@ == self.path@,
    {
        &self.path
    }

    /// The block's statements, in source order.
    pub fn get_stats(&self, tree: &LuaSyntaxTree) -> (r: Vec<LuaStat>)
        requires
            self.valid(*tree),
        ensures
            r@.map_values(|s: LuaStat| s.path_spec().last() as int) == stat_children_upto(
                self.node(*tree),
                self.node(*tree).children@.len() as int,
            ),
            forall|j: int|
                0 <= j < r@.len() ==> (#[trigger] r@[j]).valid(*tree) && r@[j].path_spec()
                    .drop_last() == self.path@ && r@[j].path_spec().len() == self.path@.len()
                    + 1,
    {
        let n = match lookup_node(&tree.root, &self.path) {
            Some(n) => n,
            None => {
                return Vec::new();
            },
        };
        let idxs = stat_child_indices(n);
        let mut out: Vec<LuaStat> = Vec::new();
        let mut i: usize = 0;
        proof {
            assert(out@.map_values(|s: LuaStat| s.path_spec().last() as int) =~= idxs@
                .map_values(|u: usize| u as int).take(0));
        }
        while i < idxs.len()
            invariant
                i <= idxs.len(),
                self.valid(*tree),
                node_at(tree.root, self.path@) == Some(*n),
                idxs@.map_values(|u: usize| u as int) == stat_children_upto(
                    *n,
                    n.children@.len() as int,
                ),
                out@.map_values(|s: LuaStat| s.path_spec().last() as int) == idxs@.map_values(
                    |u: usize| u as int,
                ).take(i as int),
                forall|j: int|
                    0 <= j < out@.len() ==> (#[trigger] out@[j]).valid(*tree) && out@[j]
                        .path_spec().drop_last() == self.path@ && out@[j].path_spec().len()
                        == self.path@.len() + 1,
            decreases idxs.len() - i,
        {
            let ci = idxs[i];
            proof {
                lemma_stat_children_member(*n, n.children@.len() as int, i as int);
                lemma_node_at_push(tree.root, self.path@, ci);
            }
            let p = child_path(&self.path, ci);
            let ghost pre = out@;
            match LuaStat::cast(tree, p) {
                Some(s) => {
                    proof {
                        assert((self.path@.push(ci)).drop_last() =~= self.path@);
                        assert((self.path@.push(ci)).last() == ci);
                    }
                    out.push(s);
                },
                None => {
                    proof {
                        assert(false);
                    }
                },
            }
            i = i + 1;
            proof {
                assert(out@.map_values(|s: LuaStat| s.path_spec().last() as int) =~= pre
                    .map_values(|s: LuaStat| s.path_spec().last() as int).push(
                    idxs@[i as int - 1] as int,
                ));
                assert(idxs@.map_values(|u: usize| u as int).take(i as int) =~= idxs@
                    .map_values(|u: usize| u as int).take(i as int - 1).push(
                    idxs@[i as int - 1] as int,
                ));
                assert(out@.map_values(|s: LuaStat| s.path_spec().last() as int) == idxs@
                    .map_values(|u: usize| u as int).take(i as int));
            }
        }
        proof {
            assert(idxs@.map_values(|u: usize| u as int).take(idxs@.len() as int) =~= idxs@
                .map_values(|u: usize| u as int));
        }
        out
    }
}

/// One declared name of a local statement, with an optional attribute.
pub struct LuaLocalName {
    pub path: Vec<usize>,
}

impl LuaLocalName {
    pub open spec fn valid(self, tree: LuaSyntaxTree) -> bool {
        path_is_node_of_kind(tree, self.path@, LuaSyntaxKind::LocalName)
    }

    pub open spec fn node(self, tree: LuaSyntaxTree) -> LuaSyntaxNode {
        view_node(tree, self.path@)
    }

    pub fn can_cast(kind: LuaSyntaxKind) -> (r: bool)
        ensures
            r == (kind == LuaSyntaxKind::LocalName),
    {
        kind == LuaSyntaxKind::LocalName
    }

    pub fn cast(tree: &LuaSyntaxTree, path: Vec<usize>) -> (r: Option<LuaLocalName>)
        ensures
            r is Some <==> path_is_node_of_kind(*tree, path@, LuaSyntaxKind::LocalName),
            r matches Some(v) ==> v.path@ == path@,
    {
        match node_kind_at(tree, &path) {
            Some(k) => if k == LuaSyntaxKind::LocalName {
                Some(LuaLocalName { path })
            } else {
                None
            },
            None => None,
        }
    }

    pub fn syntax(&self) -> (r: &Vec<usize>)
        ensures
            r@ == self.path@,
    {
        &self.path
    }

    /// The declared name's token.
    pub fn get_name_token(&self, tree: &LuaSyntaxTree) -> (r: Option<LuaNameToken>)
        requires
            self.valid(*tree),
        ensures
            r is Some <==> first_token_of_kind_from(self.node(*tree), 0, LuaTokenKind::TkName)
                is Some,
            r matches Some(t) ==> t.valid(*tree) && t.path@ == self.path@ && Some(t.tok as int)
                == first_token_of_kind_from(self.node(*tree), 0, LuaTokenKind::TkName),
    {
        let n = match lookup_node(&tree.root, &self.path) {
            Some(n) => n,
            None => {
                return None;
            },
        };
        match first_token_of_kind(n, LuaTokenKind::TkName) {
            Some(i) => {
                proof {
                    lemma_first_token_of_kind_member(*n, 0, LuaTokenKind::TkName);
                }
                Some(LuaNameToken { path: clone_path(&self.path), tok: i })
            },
            None => None,
        }
    }

    /// The `<const>` or `<close>` attribute node, if any.
    pub fn get_attrib(&self, tree: &LuaSyntaxTree) -> (r: Option<LuaLocalAttribute>)
        requires
            self.valid(*tree),
        ensures
            r is Some <==> first_child_of_kind_from(self.node(*tree), 0, LuaSyntaxKind::Attribute)
                is Some,
            r matches Some(a) ==> a.valid(*tree) && Some(a.path@.last() as int)
                == first_child_of_kind_from(self.node(*tree), 0, LuaSyntaxKind::Attribute)
                && a.path@.drop_last() == self.path@ && a.path@.len() == self.path@.len() + 1,
    {
        let n = match lookup_node(&tree.root, &self.path) {
            Some(n) => n,
            None => {
                return None;
            },
        };
        match first_child_of_kind(n, LuaSyntaxKind::Attribute) {
            Some(i) => {
                proof {
                    lemma_first_child_of_kind_member(*n, 0, LuaSyntaxKind::Attribute);
                    lemma_node_at_push(tree.root, self.path@, i);
                    assert((self.path@.push(i)).drop_last() =~= self.path@);
                }
                Some(LuaLocalAttribute { path: child_path(&self.path, i) })
            },
            None => None,
        }
    }
}

/// The argument list of a call.
pub struct LuaCallArgList {
    pub path: Vec<usize>,
}

impl LuaCallArgList {
    pub open spec fn valid(self, tree: LuaSyntaxTree) -> bool {
        path_is_node_of_kind(tree, self.path@, LuaSyntaxKind::CallArgList)
    }

    pub open spec fn node(self, tree: LuaSyntaxTree) -> LuaSyntaxNode {
        view_node(tree, self.path@)
    }

    pub fn can_cast(kind: LuaSyntaxKind) -> (r: bool)
        ensures
            r == (kind == LuaSyntaxKind::CallArgList),
    {
        kind == LuaSyntaxKind::CallArgList
    }

    pub fn cast(tree: &LuaSyntaxTree, path: Vec<usize>) -> (r: Option<LuaCallArgList>)
        ensures
            r is Some <==> path_is_node_of_kind(*tree, path@, LuaSyntaxKind::CallArgList),
            r matches Some(v) ==> v.path@ == path@,
    {
        match node_kind_at(tree, &path) {
            Some(k) => if k == LuaSyntaxKind::CallArgList {
                Some(LuaCallArgList { path })
            } else {
                None
            },
            None => None,
        }
    }

    pub fn syntax(&self) -> (r: &Vec<usize>)
        ensures
            r@ == self.path@,
    {
        &self.path
    }

    /// Whether the call is the sugar form with a single bare argument and no
    /// parentheses.
    pub fn is_single_arg_no_parens(&self, tree: &LuaSyntaxTree) -> (r: bool)
        requires
            self.valid(*tree),
        ensures
            r == (first_token_of_kind_from(self.node(*tree), 0, LuaTokenKind::TkLeftParen)
                is None),
    {
        let n = match lookup_node(&tree.root, &self.path) {
            Some(n) => n,
            None => {
                return vstd::pervasive::unreached();
            },
        };
        match first_token_of_kind(n, LuaTokenKind::TkLeftParen) {
            Some(_) => false,
            None => true,
        }
    }

    /// The argument expressions, in source order.
    pub fn get_args(&self, tree: &LuaSyntaxTree) -> (r: Vec<LuaExpr>)
        requires
            self.valid(*tree),
        ensures
            r@.map_values(|e: LuaExpr| e.path_spec().last() as int) == expr_children_upto(
                self.node(*tree),
                self.node(*tree).children@.len() as int,
            ),
            forall|j: int|
                0 <= j < r@.len() ==> (#[trigger] r@[j]).valid(*tree) && r@[j].path_spec()
                    .drop_last() == self.path@ && r@[j].path_spec().len() == self.path@.len()
                    + 1,
    {
        collect_exprs(tree, &self.path)
    }

    /// The single bare argument of the sugar form, if this list has one.
    pub fn get_single_arg_expr(&self, tree: &LuaSyntaxTree) -> (r: Option<LuaSingleArgExpr>)
        requires
            self.valid(*tree),
        ensures
            r is Some <==> first_single_arg_child_from(self.node(*tree), 0) is Some,
            r matches Some(e) ==> e.valid(*tree) && Some(e.path_spec().last() as int)
                == first_single_arg_child_from(self.node(*tree), 0) && e.path_spec().drop_last()
                == self.path@ && e.path_spec().len() == self.path@.len() + 1,
    {
        let n = match lookup_node(&tree.root, &self.path) {
            Some(n) => n,
            None => {
                return None;
            },
        };
        match first_single_arg_child(n) {
            Some(i) => {
                proof {
                    lemma_first_single_arg_child_member(*n, 0);
                    lemma_node_at_push(tree.root, self.path@, i);
                }
                let p = child_path(&self.path, i);
                match LuaSingleArgExpr::cast(tree, p) {
                    Some(e) => {
                        proof {
                            assert((self.path@.push(i)).drop_last() =~= self.path@);
                            assert((self.path@.push(i)).last() == i);
                        }
                        Some(e)
                    },
                    None => {
                        proof {
                            assert(false);
                        }
                        None
                    },
                }
            },
            None => None,
        }
    }
}

/// Collects the expression children of the node at `path` as views.
pub fn collect_exprs(tree: &LuaSyntaxTree, path: &Vec<usize>) -> (r: Vec<LuaExpr>)
    requires
        node_at(tree.root, path@) is Some,
    ensures
        r@.map_values(|e: LuaExpr| e.path_spec().last() as int) == expr_children_upto(
            view_node(*tree, path@),
            view_node(*tree, path@).children@.len() as int,
        ),
        forall|j: int|
            0 <= j < r@.len() ==> (#[trigger] r@[j]).valid(*tree) && r@[j].path_spec().drop_last()
                == path@ && r@[j].path_spec().len() == path@.len() + 1,
{
    let n = match lookup_node(&tree.root, path) {
        Some(n) => n,
        None => {
            return vstd::pervasive::unreached();
        },
    };
    let idxs = expr_child_indices(n);
    let mut out: Vec<LuaExpr> = Vec::new();
    let mut i: usize = 0;
    proof {
        assert(out@.map_values(|e: LuaExpr| e.path_spec().last() as int) =~= idxs@.map_values(
            |u: usize| u as int,
        ).take(0));
    }
    while i < idxs.len()
        invariant
            i <= idxs.len(),
            node_at(tree.root, path@) == Some(*n),
            idxs@.map_values(|u: usize| u as int) == expr_children_upto(
                *n,
                n.children@.len() as int,
            ),
            out@.map_values(|e: LuaExpr| e.path_spec().last() as int) == idxs@.map_values(
                |u: usize| u as int,
            ).take(i as int),
            forall|j: int|
                0 <= j < out@.len() ==> (#[trigger] out@[j]).valid(*tree) && out@[j].path_spec()
                    .drop_last() == path@ && out@[j].path_spec().len() == path@.len() + 1,
        decreases idxs.len() - i,
    {
        let ci = idxs[i];
        proof {
            lemma_expr_children_member(*n, n.children@.len() as int, i as int);
            lemma_node_at_push(tree.root, path@, ci);
        }
        let p = child_path(path, ci);
        let ghost pre = out@;
        match LuaExpr::cast(tree, p) {
            Some(e) => {
                proof {
                    assert((path@.push(ci)).drop_last() =~= path@);
                    assert((path@.push(ci)).last() == ci);
                }
                out.push(e);
            },
            None => {
                proof {
                    assert(false);
                }
            },
        }
        i = i + 1;
        proof {
            assert(out@.map_values(|e: LuaExpr| e.path_spec().last() as int) =~= pre
                .map_values(|e: LuaExpr| e.path_spec().last() as int).push(
                idxs@[i as int - 1] as int,
            ));
            assert(idxs@.map_values(|u: usize| u as int).take(i as int) =~= idxs@.map_values(
                |u: usize| u as int,
            ).take(i as int - 1).push(idxs@[i as int - 1] as int));
            assert(out@.map_values(|e: LuaExpr| e.path_spec().last() as int) == idxs@
                .map_values(|u: usize| u as int).take(i as int));
        }
    }
    proof {
        assert(idxs@.map_values(|u: usize| u as int).take(idxs@.len() as int) =~= idxs@
            .map_values(|u: usize| u as int));
    }
    out
}

/// Every index listed by `expr_children_upto` holds an expression node.
pub proof fn lemma_expr_children_member(n: LuaSyntaxNode, i: int, j: int)
    requires
        0 <= j < expr_children_upto(n, i).len(),
    ensures
        (match child_node(n, expr_children_upto(n, i)[j]) {
            Some(c) => is_expr_kind(c.kind),
            None => false,
        }),
        0 <= expr_children_upto(n, i)[j] < i,
    decreases i,
{
    if i > 0 {
        if j < expr_children_upto(n, i - 1).len() {
            lemma_expr_children_member(n, i - 1, j);
        }
    }
}

/// The first block child of the node at `path`, as a view.
pub fn block_child(tree: &LuaSyntaxTree, path: &Vec<usize>) -> (r: Option<LuaBlock>)
    requires
        node_at(tree.root, path@) is Some,
    ensures
        r is Some <==> first_child_of_kind_from(view_node(*tree, path@), 0, LuaSyntaxKind::Block)
            is Some,
        r matches Some(b) ==> b.valid(*tree) && Some(b.path@.last() as int)
            == first_child_of_kind_from(view_node(*tree, path@), 0, LuaSyntaxKind::Block)
            && b.path@.drop_last() == path@ && b.path@.len() == path@.len() + 1,
{
    let n = match lookup_node(&tree.root, path) {
        Some(n) => n,
        None => {
            return vstd::pervasive::unreached();
        },
    };
    match first_child_of_kind(n, LuaSyntaxKind::Block) {
        Some(i) => {
            proof {
                lemma_first_child_of_kind_member(*n, 0, LuaSyntaxKind::Block);
                lemma_node_at_push(tree.root, path@, i);
                assert((path@.push(i)).drop_last() =~= path@);
            }
            Some(LuaBlock { path: child_path(path, i) })
        },
        None => None,
    }
}

/// The first expression child of the node at `path`, as a view.
pub fn first_expr_view(tree: &LuaSyntaxTree, path: &Vec<usize>) -> (r: Option<LuaExpr>)
    requires
        node_at(tree.root, path@) is Some,
    ensures
        r is Some <==> first_expr_child_from(view_node(*tree, path@), 0) is Some,
        r matches Some(e) ==> e.valid(*tree) && Some(e.path_spec().last() as int)
            == first_expr_child_from(view_node(*tree, path@), 0) && e.path_spec().drop_last()
            == path@ && e.path_spec().len() == path@.len() + 1,
{
    let n = match lookup_node(&tree.root, path) {
        Some(n) => n,
        None => {
            return vstd::pervasive::unreached();
        },
    };
    match first_expr_child(n) {
        Some(i) => {
            proof {
                lemma_first_expr_child_member(*n, 0);
                lemma_node_at_push(tree.root, path@, i);
            }
            let p = child_path(path, i);
            match LuaExpr::cast(tree, p) {
                Some(e) => {
                    proof {
                        assert((path@.push(i)).drop_last() =~= path@);
                        assert((path@.push(i)).last() == i);
                    }
                    Some(e)
                },
                None => {
                    proof {
                        assert(false);
                    }
                    None
                },
            }
        },
        None => None,
    }
}

/// The first assignable-expression child of the node at `path`, as a view.
pub fn first_var_view(tree: &LuaSyntaxTree, path: &Vec<usize>) -> (r: Option<LuaVarExpr>)
    requires
        node_at(tree.root, path@) is Some,
    ensures
        r is Some <==> first_var_child_from(view_node(*tree, path@), 0) is Some,
        r matches Some(e) ==> e.valid(*tree) && Some(e.path_spec().last() as int)
            == first_var_child_from(view_node(*tree, path@), 0) && e.path_spec().drop_last()
            == path@ && e.path_spec().len() == path@.len() + 1,
{
    let n = match lookup_node(&tree.root, path) {
        Some(n) => n,
        None => {
            return vstd::pervasive::unreached();
        },
    };
    match first_var_child(n) {
        Some(i) => {
            proof {
                lemma_first_var_child_member(*n, 0);
                lemma_node_at_push(tree.root, path@, i);
            }
            let p = child_path(path, i);
            match LuaVarExpr::cast(tree, p) {
                Some(e) => {
                    proof {
                        assert((path@.push(i)).drop_last() =~= path@);
                        assert((path@.push(i)).last() == i);
                    }
                    Some(e)
                },
                None => {
                    proof {
                        assert(false);
                    }
                    None
                },
            }
        },
        None => None,
    }
}

/// The first name token of the node at `path`, as a view.
pub fn name_token_child(tree: &LuaSyntaxTree, path: &Vec<usize>) -> (r: Option<LuaNameToken>)
    requires
        node_at(tree.root, path@) is Some,
    ensures
        r is Some <==> first_token_of_kind_from(view_node(*tree, path@), 0, LuaTokenKind::TkName)
            is Some,
        r matches Some(t) ==> t.valid(*tree) && t.path@ == path@ && Some(t.tok as int)
            == first_token_of_kind_from(view_node(*tree, path@), 0, LuaTokenKind::TkName),
{
    let n = match lookup_node(&tree.root, path) {
        Some(n) => n,
        None => {
            return vstd::pervasive::unreached();
        },
    };
    match first_token_of_kind(n, LuaTokenKind::TkName) {
        Some(i) => {
            proof {
                lemma_first_token_of_kind_member(*n, 0, LuaTokenKind::TkName);
            }
            Some(LuaNameToken { path: clone_path(path), tok: i })
        },
        None => None,
    }
}

/// The name tokens among the children of the node at `path`, in order.
pub fn collect_name_tokens(tree: &LuaSyntaxTree, path: &Vec<usize>) -> (r: Vec<LuaNameToken>)
    requires
        node_at(tree.root, path@) is Some,
    ensures
        r@.map_values(|t: LuaNameToken| t.tok as int) == tokens_of_kind_upto(
            view_node(*tree, path@),
            view_node(*tree, path@).children@.len() as int,
            LuaTokenKind::TkName,
        ),
        forall|j: int|
            0 <= j < r@.len() ==> (#[trigger] r@[j]).valid(*tree) && r@[j].path@ == path@,
{
    let n = match lookup_node(&tree.root, path) {
        Some(n) => n,
        None => {
            return vstd::pervasive::unreached();
        },
    };
    let idxs = tokens_of_kind(n, LuaTokenKind::TkName);
    let mut out: Vec<LuaNameToken> = Vec::new();
    let mut i: usize = 0;
    proof {
        assert(out@.map_values(|t: LuaNameToken| t.tok as int) =~= idxs@.map_values(
            |u: usize| u as int,
        ).take(0));
    }
    while i < idxs.len()
        invariant
            i <= idxs.len(),
            node_at(tree.root, path@) == Some(*n),
            idxs@.map_values(|u: usize| u as int) == tokens_of_kind_upto(
                *n,
                n.children@.len() as int,
                LuaTokenKind::TkName,
            ),
            out@.map_values(|t: LuaNameToken| t.tok as int) == idxs@.map_values(
                |u: usize| u as int,
            ).take(i as int),
            forall|j: int|
                0 <= j < out@.len() ==> (#[trigger] out@[j]).valid(*tree) && out@[j].path@
                    == path@,
        decreases idxs.len() - i,
    {
        let t = LuaNameToken { path: clone_path(path), tok: idxs[i] };
        proof {
            lemma_tokens_of_kind_member(*n, n.children@.len() as int, LuaTokenKind::TkName, i as int);
        }
        let ghost pre = out@;
        out.push(t);
        i = i + 1;
        proof {
            assert(out@.map_values(|t: LuaNameToken| t.tok as int) =~= pre.map_values(
                |t: LuaNameToken| t.tok as int,
            ).push(idxs@[i as int - 1] as int));
            assert(idxs@.map_values(|u: usize| u as int).take(i as int) =~= idxs@.map_values(
                |u: usize| u as int,
            ).take(i as int - 1).push(idxs@[i as int - 1] as int));
            assert(out@.map_values(|t: LuaNameToken| t.tok as int) == idxs@.map_values(
                |u: usize| u as int,
            ).take(i as int));
        }
    }
    proof {
        assert(idxs@.map_values(|u: usize| u as int).take(idxs@.len() as int) =~= idxs@
            .map_values(|u: usize| u as int));
    }
    out
}

/// The local-name children of the node at `path`, in order.
pub fn collect_local_names(tree: &LuaSyntaxTree, path: &Vec<usize>) -> (r: Vec<LuaLocalName>)
    requires
        node_at(tree.root, path@) is Some,
    ensures
        r@.map_values(|v: LuaLocalName| v.path@.last() as int) == children_of_kind_upto(
            view_node(*tree, path@),
            view_node(*tree, path@).children@.len() as int,
            LuaSyntaxKind::LocalName,
        ),
        forall|j: int|
            0 <= j < r@.len() ==> (#[trigger] r@[j]).valid(*tree) && r@[j].path@.drop_last()
                == path@ && r@[j].path@.len() == path@.len() + 1,
{
    let n = match lookup_node(&tree.root, path) {
        Some(n) => n,
        None => {
            return vstd::pervasive::unreached();
        },
    };
    let idxs = children_of_kind(n, LuaSyntaxKind::LocalName);
    let mut out: Vec<LuaLocalName> = Vec::new();
    let mut i: usize = 0;
    proof {
        assert(out@.map_values(|v: LuaLocalName| v.path@.last() as int) =~= idxs@.map_values(
            |u: usize| u as int,
        ).take(0));
    }
    while i < idxs.len()
        invariant
            i <= idxs.len(),
            node_at(tree.root, path@) == Some(*n),
            idxs@.map_values(|u: usize| u as int) == children_of_kind_upto(
                *n,
                n.children@.len() as int,
                LuaSyntaxKind::LocalName,
            ),
            out@.map_values(|v: LuaLocalName| v.path@.last() as int) == idxs@.map_values(
                |u: usize| u as int,
            ).take(i as int),
            forall|j: int|
                0 <= j < out@.len() ==> (#[trigger] out@[j]).valid(*tree) && out@[j].path@
                    .drop_last() == path@ && out@[j].path@.len() == path@.len() + 1,
        decreases idxs.len() - i,
    {
        let ci = idxs[i];
        proof {
            lemma_children_of_kind_member(*n, n.children@.len() as int, LuaSyntaxKind::LocalName, i as int);
            lemma_node_at_push(tree.root, path@, ci);
            assert((path@.push(ci)).drop_last() =~= path@);
            assert((path@.push(ci)).last() == ci);
        }
        let v = LuaLocalName { path: child_path(path, ci) };
        let ghost pre = out@;
        out.push(v);
        i = i + 1;
        proof {
            assert(out@.map_values(|v: LuaLocalName| v.path@.last() as int) =~= pre.map_values(
                |v: LuaLocalName| v.path@.last() as int,
            ).push(idxs@[i as int - 1] as int));
            assert(idxs@.map_values(|u: usize| u as int).take(i as int) =~= idxs@.map_values(
                |u: usize| u as int,
            ).take(i as int - 1).push(idxs@[i as int - 1] as int));
            assert(out@.map_values(|v: LuaLocalName| v.path@.last() as int) == idxs@
                .map_values(|u: usize| u as int).take(i as int));
        }
    }
    proof {
        assert(idxs@.map_values(|u: usize| u as int).take(idxs@.len() as int) =~= idxs@
            .map_values(|u: usize| u as int));
    }
    out
}

/// A `<const>` or `<close>` attribute of a local name.
pub struct LuaLocalAttribute {
    pub path: Vec<usize>,
}

impl LuaLocalAttribute {
    pub open spec fn valid(self, tree: LuaSyntaxTree) -> bool {
        path_is_node_of_kind(tree, self.path@, LuaSyntaxKind::Attribute)
    }

    pub open spec fn node(self, tree: LuaSyntaxTree) -> LuaSyntaxNode {
        view_node(tree, self.path@)
    }

    /// The attribute's name text, if it has a name token.
    pub open spec fn spec_attrib_name(self, tree: LuaSyntaxTree) -> Option<Seq<char>> {
        match first_token_of_kind_from(self.node(tree), 0, LuaTokenKind::TkName) {
            Some(i) => Some(view_token(tree, self.path@, i).text@),
            None => None,
        }
    }

    pub fn can_cast(kind: LuaSyntaxKind) -> (r: bool)
        ensures
            r == (kind == LuaSyntaxKind::Attribute),
    {
        kind == LuaSyntaxKind::Attribute
    }

    pub fn cast(tree: &LuaSyntaxTree, path: Vec<usize>) -> (r: Option<LuaLocalAttribute>)
        ensures
            r is Some <==> path_is_node_of_kind(*tree, path@, LuaSyntaxKind::Attribute),
            r matches Some(v) ==> v.path@ == path@,
    {
        match node_kind_at(tree, &path) {
            Some(k) => if k == LuaSyntaxKind::Attribute {
                Some(LuaLocalAttribute { path })
            } else {
                None
            },
            None => None,
        }
    }

    pub fn syntax(&self) -> (r: &Vec<usize>)
        ensures
            r@ == self.path@,
    {
        &self.path
    }

    /// The attribute's name token.
    pub fn get_name_token(&self, tree: &LuaSyntaxTree) -> (r: Option<LuaNameToken>)
        requires
            self.valid(*tree),
        ensures
            r is Some <==> first_token_of_kind_from(self.node(*tree), 0, LuaTokenKind::TkName)
                is Some,
            r matches Some(t) ==> t.valid(*tree) && t.path@ == self.path@ && Some(t.tok as int)
                == first_token_of_kind_from(self.node(*tree), 0, LuaTokenKind::TkName),
    {
        let n = match lookup_node(&tree.root, &self.path) {
            Some(n) => n,
            None => {
                return None;
            },
        };
        match first_token_of_kind(n, LuaTokenKind::TkName) {
            Some(i) => {
                proof {
                    lemma_first_token_of_kind_member(*n, 0, LuaTokenKind::TkName);
                }
                Some(LuaNameToken { path: clone_path(&self.path), tok: i })
            },
            None => None,
        }
    }

    /// Whether this is the `<close>` attribute.
    pub fn is_close(&self, tree: &LuaSyntaxTree) -> (r: bool)
        requires
            self.valid(*tree),
        ensures
            r == (self.spec_attrib_name(*tree) == Some("close"@)),
    {
        match self.get_name_token(tree) {
            None => false,
            Some(t) => {
                let s = t.get_name_text(tree);
                let c = String::from_str("close");
                *s == c
            },
        }
    }

    /// Whether this is the `<const>` attribute.
    pub fn is_const(&self, tree: &LuaSyntaxTree) -> (r: bool)
        requires
            self.valid(*tree),
        ensures
            r == (self.spec_attrib_name(*tree) == Some("const"@)),
    {
        match self.get_name_token(tree) {
            None => false,
            Some(t) => {
                let s = t.get_name_text(tree);
                let c = String::from_str("const");
                *s == c
            },
        }
    }
}

/// A field of a table constructor: keyed (`x = v`, `[k] = v`) or positional.
pub struct LuaTableField {
    pub path: Vec<usize>,
}

impl LuaTableField {
    pub open spec fn valid(self, tree: LuaSyntaxTree) -> bool {
        path_is_node_of_kind(tree, self.path@, LuaSyntaxKind::TableFieldAssign)
            || path_is_node_of_kind(tree, self.path@, LuaSyntaxKind::TableFieldValue)
    }

    pub open spec fn node(self, tree: LuaSyntaxTree) -> LuaSyntaxNode {
        view_node(tree, self.path@)
    }

    pub fn can_cast(kind: LuaSyntaxKind) -> (r: bool)
        ensures
            r == (kind == LuaSyntaxKind::TableFieldAssign || kind
                == LuaSyntaxKind::TableFieldValue),
    {
        kind == LuaSyntaxKind::TableFieldAssign || kind == LuaSyntaxKind::TableFieldValue
    }

    pub fn cast(tree: &LuaSyntaxTree, path: Vec<usize>) -> (r: Option<LuaTableField>)
        ensures
            r is Some <==> (path_is_node_of_kind(*tree, path@, LuaSyntaxKind::TableFieldAssign)
                || path_is_node_of_kind(*tree, path@, LuaSyntaxKind::TableFieldValue)),
            r matches Some(v) ==> v.path@ == path@,
    {
        match node_kind_at(tree, &path) {
            Some(k) => if k == LuaSyntaxKind::TableFieldAssign || k
                == LuaSyntaxKind::TableFieldValue {
                Some(LuaTableField { path })
            } else {
                None
            },
            None => None,
        }
    }

    pub fn syntax(&self) -> (r: &Vec<usize>)
        ensures
            r@ == self.path@,
    {
        &self.path
    }

    /// Whether the field carries an explicit key.
    pub fn is_assign_field(&self, tree: &LuaSyntaxTree) -> (r: bool)
        requires
            self.valid(*tree),
        ensures
            r == (self.node(*tree).kind == LuaSyntaxKind::TableFieldAssign),
    {
        match node_kind_at(tree, &self.path) {
            Some(k) => k == LuaSyntaxKind::TableFieldAssign,
            None => vstd::pervasive::unreached(),
        }
    }

    /// Whether the field is positional, holding only a value.
    pub fn is_value_field(&self, tree: &LuaSyntaxTree) -> (r: bool)
        requires
            self.valid(*tree),
        ensures
            r == (self.node(*tree).kind == LuaSyntaxKind::TableFieldValue),
    {
        match node_kind_at(tree, &self.path) {
            Some(k) => k == LuaSyntaxKind::TableFieldValue,
            None => vstd::pervasive::unreached(),
        }
    }

    /// The field's key: the first expression child of a keyed field.  A
    /// computed key `[expr]` holds a nested expression, so first and last —
    /// not first and second — tell key and value apart.
    pub fn get_key(&self, tree: &LuaSyntaxTree) -> (r: Option<LuaExpr>)
        requires
            self.valid(*tree),
        ensures
            self.node(*tree).kind == LuaSyntaxKind::TableFieldValue ==> r is None,
            self.node(*tree).kind == LuaSyntaxKind::TableFieldAssign ==> (r is Some
                <==> first_expr_child_from(self.node(*tree), 0) is Some),
            r matches Some(e) ==> e.valid(*tree) && Some(e.path_spec().last() as int)
                == first_expr_child_from(self.node(*tree), 0) && e.path_spec().drop_last()
                == self.path@ && e.path_spec().len() == self.path@.len() + 1,
    {
        if !self.is_assign_field(tree) {
            return None;
        }
        let n = match lookup_node(&tree.root, &self.path) {
            Some(n) => n,
            None => {
                return None;
            },
        };
        match first_expr_child(n) {
            Some(i) => {
                proof {
                    lemma_first_expr_child_member(*n, 0);
                    lemma_node_at_push(tree.root, self.path@, i);
                }
                let p = child_path(&self.path, i);
                match LuaExpr::cast(tree, p) {
                    Some(e) => {
                        proof {
                            assert((self.path@.push(i)).drop_last() =~= self.path@);
                            assert((self.path@.push(i)).last() == i);
                        }
                        Some(e)
                    },
                    None => {
                        proof {
                            assert(false);
                        }
                        None
                    },
                }
            },
            None => None,
        }
    }

    /// The field's value: the last expression child of a keyed field, the
    /// first (and only) one of a positional field.
    pub fn get_value_expr(&self, tree: &LuaSyntaxTree) -> (r: Option<LuaExpr>)
        requires
            self.valid(*tree),
        ensures
            self.node(*tree).kind == LuaSyntaxKind::TableFieldAssign ==> (match r {
                Some(e) => Some(e.path_spec().last() as int) == last_expr_child_upto(
                    self.node(*tree),
                    self.node(*tree).children@.len() as int,
                ),
                None => last_expr_child_upto(
                    self.node(*tree),
                    self.node(*tree).children@.len() as int,
                ) is None,
            }),
            self.node(*tree).kind == LuaSyntaxKind::TableFieldValue ==> (match r {
                Some(e) => Some(e.path_spec().last() as int) == first_expr_child_from(
                    self.node(*tree),
                    0,
                ),
                None => first_expr_child_from(self.node(*tree), 0) is None,
            }),
            r matches Some(e) ==> e.valid(*tree) && e.path_spec().drop_last() == self.path@,
    {
        let n = match lookup_node(&tree.root, &self.path) {
            Some(n) => n,
            None => {
                return vstd::pervasive::unreached();
            },
        };
        let found = if self.is_assign_field(tree) {
            last_expr_child(n)
        } else {
            first_expr_child(n)
        };
        match found {
            Some(i) => {
                proof {
                    if self.node(*tree).kind == LuaSyntaxKind::TableFieldAssign {
                        lemma_last_expr_child_member(*n, n.children@.len() as int);
                    } else {
                        lemma_first_expr_child_member(*n, 0);
                    }
                    lemma_node_at_push(tree.root, self.path@, i);
                }
                let p = child_path(&self.path, i);
                match LuaExpr::cast(tree, p) {
                    Some(e) => {
                        proof {
                            assert((self.path@.push(i)).drop_last() =~= self.path@);
                            assert((self.path@.push(i)).last() == i);
                        }
                        Some(e)
                    },
                    None => {
                        proof {
                            assert(false);
                        }
                        None
                    },
                }
            },
            None => None,
        }
    }
}

} // verus!
