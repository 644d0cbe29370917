//! Typed views over expression nodes: a closed tagged union per grammar
//! category, each variant a thin handle on a tree path.

use vstd::prelude::*;
use crate::kind::{LuaSyntaxKind, LuaTokenKind};
use crate::tree::{
    LuaSyntaxNode, LuaSyntaxTree, LuaSyntaxElement, child_node, node_at, view_node,
    path_is_node_of_kind, node_kind_at, lookup_node, first_child_of_kind,
    first_child_of_kind_from, lemma_first_child_of_kind_member, lemma_node_at_push,
    tokens_of_kind, tokens_of_kind_upto, child_token_is, first_token_of_kind,
    first_token_of_kind_from, lemma_first_token_of_kind_member,
};
use crate::ast::{clone_path, child_path, LuaNameToken, LuaCallArgList};

verus! {

/// The closed set of expression node kinds.
pub open spec fn is_expr_kind(k: LuaSyntaxKind) -> bool {
    match k {
        LuaSyntaxKind::NameExpr => true,
        LuaSyntaxKind::IndexExpr => true,
        LuaSyntaxKind::CallExpr => true,
        LuaSyntaxKind::ClosureExpr => true,
        LuaSyntaxKind::LiteralExpr => true,
        LuaSyntaxKind::BinaryExpr => true,
        LuaSyntaxKind::TableExpr => true,
        _ => false,
    }
}

/// The expression kinds that may stand on the left of an assignment.
pub open spec fn is_var_expr_kind(k: LuaSyntaxKind) -> bool {
    match k {
        LuaSyntaxKind::NameExpr => true,
        LuaSyntaxKind::IndexExpr => true,
        _ => false,
    }
}

/// The expression kinds a call may take as its single unparenthesized
/// argument: a bare string literal or a table constructor.
pub open spec fn is_single_arg_kind(k: LuaSyntaxKind) -> bool {
    match k {
        LuaSyntaxKind::LiteralExpr => true,
        LuaSyntaxKind::TableExpr => true,
        _ => false,
    }
}

/// The least child index at or after `i` holding an expression node.
pub open spec fn first_expr_child_from(n: LuaSyntaxNode, i: int) -> Option<int>
    decreases n.children@.len() - i,
{
    if i < 0 || i >= n.children@.len() {
        None
    } else if (match child_node(n, i) {
        Some(c) => is_expr_kind(c.kind),
        None => false,
    }) {
        Some(i)
    } else {
        first_expr_child_from(n, i + 1)
    }
}

/// The greatest child index below `i` holding an expression node.
pub open spec fn last_expr_child_upto(n: LuaSyntaxNode, i: int) -> Option<int>
    decreases i,
{
    if i <= 0 {
        None
    } else if (match child_node(n, i - 1) {
        Some(c) => is_expr_kind(c.kind),
        None => false,
    }) {
        Some(i - 1)
    } else {
        last_expr_child_upto(n, i - 1)
    }
}

/// All child indices below `i` holding expression nodes, in order.
pub open spec fn expr_children_upto(n: LuaSyntaxNode, i: int) -> Seq<int>
    decreases i,
{
    if i <= 0 {
        Seq::empty()
    } else if (match child_node(n, i - 1) {
        Some(c) => is_expr_kind(c.kind),
        None => false,
    }) {
        expr_children_upto(n, i - 1).push(i - 1)
    } else {
        expr_children_upto(n, i - 1)
    }
}

/// The least child index at or after `i` holding a single-argument node.
pub open spec fn first_single_arg_child_from(n: LuaSyntaxNode, i: int) -> Option<int>
    decreases n.children@.len() - i,
{
    if i < 0 || i >= n.children@.len() {
        None
    } else if (match child_node(n, i) {
        Some(c) => is_single_arg_kind(c.kind),
        None => false,
    }) {
        Some(i)
    } else {
        first_single_arg_child_from(n, i + 1)
    }
}

/// The least child index at or after `i` holding an assignable expression.
pub open spec fn first_var_child_from(n: LuaSyntaxNode, i: int) -> Option<int>
    decreases n.children@.len() - i,
{
    if i < 0 || i >= n.children@.len() {
        None
    } else if (match child_node(n, i) {
        Some(c) => is_var_expr_kind(c.kind),
        None => false,
    }) {
        Some(i)
    } else {
        first_var_child_from(n, i + 1)
    }
}

/// Scans the children of `n` for the first assignable expression.
pub fn first_var_child(n: &LuaSyntaxNode) -> (r: Option<usize>)
    ensures
        match r {
            Some(i) => first_var_child_from(*n, 0) == Some(i as int),
            None => first_var_child_from(*n, 0) is None,
        },
{
    let mut i: usize = 0;
    while i < n.children.len()
        invariant
            i <= n.children.len(),
            first_var_child_from(*n, 0) == first_var_child_from(*n, i as int),
        decreases n.children.len() - i,
    {
        match &n.children[i] {
            LuaSyntaxElement::Node(c) => {
                if LuaVarExpr::can_cast(c.kind) {
                    return Some(i);
                }
            },
            LuaSyntaxElement::Token(_) => {},
        }
        i = i + 1;
    }
    None
}


/// Completeness of the expression collection: every child index holding an
/// expression node appears in the collected list.
pub proof fn lemma_expr_children_complete(n: LuaSyntaxNode, i: int, j: int)
    requires
        0 <= j < i,
        (match child_node(n, j) {
            Some(c) => is_expr_kind(c.kind),
            None => false,
        }),
    ensures
        expr_children_upto(n, i).contains(j),
    decreases i,
{
    if j == i - 1 {
        assert(expr_children_upto(n, i).last() == j);
    } else {
        lemma_expr_children_complete(n, i - 1, j);
        let m = choose|m: int|
            0 <= m < expr_children_upto(n, i - 1).len() && #[trigger] expr_children_upto(n, i - 1)[m] == j;
        assert(expr_children_upto(n, i)[m] == j);
    }
}

/// What a successful first-assignable-expression search means.
pub proof fn lemma_first_var_child_member(n: LuaSyntaxNode, i: int)
    requires
        first_var_child_from(n, i) is Some,
    ensures
        i <= first_var_child_from(n, i)->Some_0 < n.children@.len(),
        (match child_node(n, first_var_child_from(n, i)->Some_0) {
            Some(c) => is_var_expr_kind(c.kind),
            None => false,
        }),
    decreases n.children@.len() - i,
{
    if 0 <= i < n.children@.len() && !(match child_node(n, i) {
        Some(c) => is_var_expr_kind(c.kind),
        None => false,
    }) {
        lemma_first_var_child_member(n, i + 1);
    }
}

/// What a successful first-expression search means.
pub proof fn lemma_first_expr_child_member(n: LuaSyntaxNode, i: int)
    requires
        first_expr_child_from(n, i) is Some,
    ensures
        i <= first_expr_child_from(n, i)->Some_0 < n.children@.len(),
        (match child_node(n, first_expr_child_from(n, i)->Some_0) {
            Some(c) => is_expr_kind(c.kind),
            None => false,
        }),
    decreases n.children@.len() - i,
{
    if 0 <= i < n.children@.len() && !(match child_node(n, i) {
        Some(c) => is_expr_kind(c.kind),
        None => false,
    }) {
        lemma_first_expr_child_member(n, i + 1);
    }
}

/// What a successful last-expression search means.
pub proof fn lemma_last_expr_child_member(n: LuaSyntaxNode, i: int)
    requires
        last_expr_child_upto(n, i) is Some,
    ensures
        0 <= last_expr_child_upto(n, i)->Some_0 < i,
        (match child_node(n, last_expr_child_upto(n, i)->Some_0) {
            Some(c) => is_expr_kind(c.kind),
            None => false,
        }),
    decreases i,
{
    if i > 0 && !(match child_node(n, i - 1) {
        Some(c) => is_expr_kind(c.kind),
        None => false,
    }) {
        lemma_last_expr_child_member(n, i - 1);
    }
}

/// What a successful single-argument search means.
pub proof fn lemma_first_single_arg_child_member(n: LuaSyntaxNode, i: int)
    requires
        first_single_arg_child_from(n, i) is Some,
    ensures
        i <= first_single_arg_child_from(n, i)->Some_0 < n.children@.len(),
        (match child_node(n, first_single_arg_child_from(n, i)->Some_0) {
            Some(c) => is_single_arg_kind(c.kind),
            None => false,
        }),
    decreases n.children@.len() - i,
{
    if 0 <= i < n.children@.len() && !(match child_node(n, i) {
        Some(c) => is_single_arg_kind(c.kind),
        None => false,
    }) {
        lemma_first_single_arg_child_member(n, i + 1);
    }
}

/// Scans the children of `n` for the first expression node.
pub fn first_expr_child(n: &LuaSyntaxNode) -> (r: Option<usize>)
    ensures
        match r {
            Some(i) => first_expr_child_from(*n, 0) == Some(i as int),
            None => first_expr_child_from(*n, 0) is None,
        },
{
    let mut i: usize = 0;
    while i < n.children.len()
        invariant
            i <= n.children.len(),
            first_expr_child_from(*n, 0) == first_expr_child_from(*n, i as int),
        decreases n.children.len() - i,
    {
        match &n.children[i] {
            LuaSyntaxElement::Node(c) => {
                if LuaExpr::can_cast(c.kind) {
                    return Some(i);
                }
            },
            LuaSyntaxElement::Token(_) => {},
        }
        i = i + 1;
    }
    None
}

/// Scans the children of `n` backwards for the last expression node.
pub fn last_expr_child(n: &LuaSyntaxNode) -> (r: Option<usize>)
    ensures
        match r {
            Some(i) => last_expr_child_upto(*n, n.children@.len() as int) == Some(i as int),
            None => last_expr_child_upto(*n, n.children@.len() as int) is None,
        },
{
    let mut i: usize = n.children.len();
    while i > 0
        invariant
            i <= n.children.len(),
            last_expr_child_upto(*n, n.children@.len() as int) == last_expr_child_upto(
                *n,
                i as int,
            ),
        decreases i,
    {
        match &n.children[i - 1] {
            LuaSyntaxElement::Node(c) => {
                if LuaExpr::can_cast(c.kind) {
                    return Some(i - 1);
                }
            },
            LuaSyntaxElement::Token(_) => {},
        }
        i = i - 1;
    }
    None
}

/// Collects the child indices of `n` holding expression nodes, in order.
pub fn expr_child_indices(n: &LuaSyntaxNode) -> (r: Vec<usize>)
    ensures
        r@.map_values(|u: usize| u as int) == expr_children_upto(*n, n.children@.len() as int),
{
    let mut out: Vec<usize> = Vec::new();
    let mut i: usize = 0;
    proof {
        assert(out@.map_values(|u: usize| u as int) =~= expr_children_upto(*n, 0));
    }
    while i < n.children.len()
        invariant
            i <= n.children.len(),
            out@.map_values(|u: usize| u as int) == expr_children_upto(*n, i as int),
        decreases n.children.len() - i,
    {
        let ghost pre = out@;
        match &n.children[i] {
            LuaSyntaxElement::Node(c) => {
                if LuaExpr::can_cast(c.kind) {
                    out.push(i);
                }
            },
            LuaSyntaxElement::Token(_) => {},
        }
        i = i + 1;
        proof {
            if out@.len() > pre.len() {
                assert(out@.map_values(|u: usize| u as int) =~= pre.map_values(
                    |u: usize| u as int,
                ).push(i as int - 1));
            }
        }
    }
    out
}

/// Scans the children of `n` for the first single-argument node.
pub fn first_single_arg_child(n: &LuaSyntaxNode) -> (r: Option<usize>)
    ensures
        match r {
            Some(i) => first_single_arg_child_from(*n, 0) == Some(i as int),
            None => first_single_arg_child_from(*n, 0) is None,
        },
{
    let mut i: usize = 0;
    while i < n.children.len()
        invariant
            i <= n.children.len(),
            first_single_arg_child_from(*n, 0) == first_single_arg_child_from(*n, i as int),
        decreases n.children.len() - i,
    {
        match &n.children[i] {
            LuaSyntaxElement::Node(c) => {
                if LuaSingleArgExpr::can_cast(c.kind) {
                    return Some(i);
                }
            },
            LuaSyntaxElement::Token(_) => {},
        }
        i = i + 1;
    }
    None
}

/// A plain name used as an expression.
pub struct LuaNameExpr {
    pub path: Vec<usize>,
}

impl LuaNameExpr {
    pub open spec fn valid(self, tree: LuaSyntaxTree) -> bool {
        path_is_node_of_kind(tree, self.path@, LuaSyntaxKind::NameExpr)
    }

    pub open spec fn node(self, tree: LuaSyntaxTree) -> LuaSyntaxNode {
        view_node(tree, self.path@)
    }

    pub fn can_cast(kind: LuaSyntaxKind) -> (r: bool)
        ensures
            r == (kind == LuaSyntaxKind::NameExpr),
    {
        kind == LuaSyntaxKind::NameExpr
    }

    pub fn cast(tree: &LuaSyntaxTree, path: Vec<usize>) -> (r: Option<LuaNameExpr>)
        ensures
            r is Some <==> path_is_node_of_kind(*tree, path@, LuaSyntaxKind::NameExpr),
            r matches Some(v) ==> v.path@ == path@,
    {
        match node_kind_at(tree, &path) {
            Some(k) => if k == LuaSyntaxKind::NameExpr {
                Some(LuaNameExpr { path })
            } else {
                None
            },
            None => None,
        }
    }

    pub fn syntax(&self) -> (r: &Vec<usize>)
        ensures
            r@ == self.path@,
    {
        &self.path
    }

    /// The name token the expression consists of.
    pub fn get_name_token(&self, tree: &LuaSyntaxTree) -> (r: Option<LuaNameToken>)
        requires
            self.valid(*tree),
        ensures
            r is Some <==> first_token_of_kind_from(self.node(*tree), 0, LuaTokenKind::TkName)
                is Some,
            r matches Some(t) ==> t.valid(*tree) && t.path@ == self.path@ && Some(t.tok as int)
                == first_token_of_kind_from(self.node(*tree), 0, LuaTokenKind::TkName),
    {
        let n = match lookup_node(&tree.root, &self.path) {
            Some(n) => n,
            None => {
                return None;
            },
        };
        match first_token_of_kind(n, LuaTokenKind::TkName) {
            Some(i) => {
                proof {
                    lemma_first_token_of_kind_member(*n, 0, LuaTokenKind::TkName);
                }
                Some(LuaNameToken { path: clone_path(&self.path), tok: i })
            },
            None => None,
        }
    }
}

/// An indexing expression, `t.k` or `t[k]`.
pub struct LuaIndexExpr {
    pub path: Vec<usize>,
}

impl LuaIndexExpr {
    pub open spec fn valid(self, tree: LuaSyntaxTree) -> bool {
        path_is_node_of_kind(tree, self.path@, LuaSyntaxKind::IndexExpr)
    }

    pub open spec fn node(self, tree: LuaSyntaxTree) -> LuaSyntaxNode {
        view_node(tree, self.path@)
    }

    pub fn can_cast(kind: LuaSyntaxKind) -> (r: bool)
        ensures
            r == (kind == LuaSyntaxKind::IndexExpr),
    {
        kind == LuaSyntaxKind::IndexExpr
    }

    pub fn cast(tree: &LuaSyntaxTree, path: Vec<usize>) -> (r: Option<LuaIndexExpr>)
        ensures
            r is Some <==> path_is_node_of_kind(*tree, path@, LuaSyntaxKind::IndexExpr),
            r matches Some(v) ==> v.path@ == path@,
    {
        match node_kind_at(tree, &path) {
            Some(k) => if k == LuaSyntaxKind::IndexExpr {
                Some(LuaIndexExpr { path })
            } else {
                None
            },
            None => None,
        }
    }

    pub fn syntax(&self) -> (r: &Vec<usize>)
        ensures
            r@ == self.path@,
    {
        &self.path
    }
}

/// A call expression.
pub struct LuaCallExpr {
    pub path: Vec<usize>,
}

impl LuaCallExpr {
    pub open spec fn valid(self, tree: LuaSyntaxTree) -> bool {
        path_is_node_of_kind(tree, self.path@, LuaSyntaxKind::CallExpr)
    }

    pub open spec fn node(self, tree: LuaSyntaxTree) -> LuaSyntaxNode {
        view_node(tree, self.path@)
    }

    pub fn can_cast(kind: LuaSyntaxKind) -> (r: bool)
        ensures
            r == (kind == LuaSyntaxKind::CallExpr),
    {
        kind == LuaSyntaxKind::CallExpr
    }

    pub fn cast(tree: &LuaSyntaxTree, path: Vec<usize>) -> (r: Option<LuaCallExpr>)
        ensures
            r is Some <==> path_is_node_of_kind(*tree, path@, LuaSyntaxKind::CallExpr),
            r matches Some(v) ==> v.path@ == path@,
    {
        match node_kind_at(tree, &path) {
            Some(k) => if k == LuaSyntaxKind::CallExpr {
                Some(LuaCallExpr { path })
            } else {
                None
            },
            None => None,
        }
    }

    pub fn syntax(&self) -> (r: &Vec<usize>)
        ensures
            r@ == self.path@,
    {
        &self.path
    }

    /// The call's argument list node.
    pub fn get_args_list(&self, tree: &LuaSyntaxTree) -> (r: Option<LuaCallArgList>)
        requires
            self.valid(*tree),
        ensures
            r is Some <==> first_child_of_kind_from(self.node(*tree), 0, LuaSyntaxKind::CallArgList)
                is Some,
            r matches Some(v) ==> v.valid(*tree) && Some(v.path@.last() as int)
                == first_child_of_kind_from(self.node(*tree), 0, LuaSyntaxKind::CallArgList)
                && v.path@.drop_last() == self.path@ && v.path@.len() == self.path@.len() + 1,
    {
        let n = match lookup_node(&tree.root, &self.path) {
            Some(n) => n,
            None => {
                return None;
            },
        };
        match first_child_of_kind(n, LuaSyntaxKind::CallArgList) {
            Some(i) => {
                proof {
                    lemma_first_child_of_kind_member(*n, 0, LuaSyntaxKind::CallArgList);
                    lemma_node_at_push(tree.root, self.path@, i);
                    assert((self.path@.push(i)).drop_last() =~= self.path@);
                }
                Some(LuaCallArgList { path: child_path(&self.path, i) })
            },
            None => None,
        }
    }
}

/// A function literal: parameter list and body.
pub struct LuaClosureExpr {
    pub path: Vec<usize>,
}

impl LuaClosureExpr {
    pub open spec fn valid(self, tree: LuaSyntaxTree) -> bool {
        path_is_node_of_kind(tree, self.path@, LuaSyntaxKind::ClosureExpr)
    }

    pub open spec fn node(self, tree: LuaSyntaxTree) -> LuaSyntaxNode {
        view_node(tree, self.path@)
    }

    pub fn can_cast(kind: LuaSyntaxKind) -> (r: bool)
        ensures
            r == (kind == LuaSyntaxKind::ClosureExpr),
    {
        kind == LuaSyntaxKind::ClosureExpr
    }

    pub fn cast(tree: &LuaSyntaxTree, path: Vec<usize>) -> (r: Option<LuaClosureExpr>)
        ensures
            r is Some <==> path_is_node_of_kind(*tree, path@, LuaSyntaxKind::ClosureExpr),
            r matches Some(v) ==> v.path@ == path@,
    {
        match node_kind_at(tree, &path) {
            Some(k) => if k == LuaSyntaxKind::ClosureExpr {
                Some(LuaClosureExpr { path })
            } else {
                None
            },
            None => None,
        }
    }

    pub fn syntax(&self) -> (r: &Vec<usize>)
        ensures
            r@ == self.path@,
    {
        &self.path
    }

    /// The closure's body block.
    pub fn get_block(&self, tree: &LuaSyntaxTree) -> (r: Option<crate::ast::LuaBlock>)
        requires
            self.valid(*tree),
        ensures
            r is Some <==> first_child_of_kind_from(self.node(*tree), 0, LuaSyntaxKind::Block)
                is Some,
            r matches Some(b) ==> b.valid(*tree) && Some(b.path@.last() as int)
                == first_child_of_kind_from(self.node(*tree), 0, LuaSyntaxKind::Block)
                && b.path@.drop_last() == self.path@ && b.path@.len() == self.path@.len() + 1,
    {
        let n = match lookup_node(&tree.root, &self.path) {
            Some(n) => n,
            None => {
                return None;
            },
        };
        match first_child_of_kind(n, LuaSyntaxKind::Block) {
            Some(i) => {
                proof {
                    lemma_first_child_of_kind_member(*n, 0, LuaSyntaxKind::Block);
                    lemma_node_at_push(tree.root, self.path@, i);
                    assert((self.path@.push(i)).drop_last() =~= self.path@);
                }
                Some(crate::ast::LuaBlock { path: child_path(&self.path, i) })
            },
            None => None,
        }
    }

    /// The closure's parameter list node.
    pub fn get_param_list(&self, tree: &LuaSyntaxTree) -> (r: Option<LuaParamList>)
        requires
            self.valid(*tree),
        ensures
            r is Some <==> first_child_of_kind_from(self.node(*tree), 0, LuaSyntaxKind::ParamList)
                is Some,
            r matches Some(v) ==> v.valid(*tree) && Some(v.path@.last() as int)
                == first_child_of_kind_from(self.node(*tree), 0, LuaSyntaxKind::ParamList)
                && v.path@.drop_last() == self.path@ && v.path@.len() == self.path@.len() + 1,
    {
        let n = match lookup_node(&tree.root, &self.path) {
            Some(n) => n,
            None => {
                return None;
            },
        };
        match first_child_of_kind(n, LuaSyntaxKind::ParamList) {
            Some(i) => {
                proof {
                    lemma_first_child_of_kind_member(*n, 0, LuaSyntaxKind::ParamList);
                    lemma_node_at_push(tree.root, self.path@, i);
                    assert((self.path@.push(i)).drop_last() =~= self.path@);
                }
                Some(LuaParamList { path: child_path(&self.path, i) })
            },
            None => None,
        }
    }
}

/// A parameter list of a closure: name tokens, one per parameter.
pub struct LuaParamList {
    pub path: Vec<usize>,
}

impl LuaParamList {
    pub open spec fn valid(self, tree: LuaSyntaxTree) -> bool {
        path_is_node_of_kind(tree, self.path@, LuaSyntaxKind::ParamList)
    }

    pub open spec fn node(self, tree: LuaSyntaxTree) -> LuaSyntaxNode {
        view_node(tree, self.path@)
    }

    pub fn can_cast(kind: LuaSyntaxKind) -> (r: bool)
        ensures
            r == (kind == LuaSyntaxKind::ParamList),
    {
        kind == LuaSyntaxKind::ParamList
    }

    pub fn cast(tree: &LuaSyntaxTree, path: Vec<usize>) -> (r: Option<LuaParamList>)
        ensures
            r is Some <==> path_is_node_of_kind(*tree, path@, LuaSyntaxKind::ParamList),
            r matches Some(v) ==> v.path@ == path@,
    {
        match node_kind_at(tree, &path) {
            Some(k) => if k == LuaSyntaxKind::ParamList {
                Some(LuaParamList { path })
            } else {
                None
            },
            None => None,
        }
    }

    pub fn syntax(&self) -> (r: &Vec<usize>)
        ensures
            r@ == self.path@,
    {
        &self.path
    }

    /// The parameter name tokens, in order.
    pub fn get_params(&self, tree: &LuaSyntaxTree) -> (r: Vec<LuaNameToken>)
        requires
            self.valid(*tree),
        ensures
            r@.map_values(|t: LuaNameToken| t.tok as int) == tokens_of_kind_upto(
                self.node(*tree),
                self.node(*tree).children@.len() as int,
                LuaTokenKind::TkName,
            ),
            forall|j: int|
                0 <= j < r@.len() ==> (#[trigger] r@[j]).valid(*tree) && r@[j].path@
                    == self.path@,
    {
        let n = match lookup_node(&tree.root, &self.path) {
            Some(n) => n,
            None => {
                return Vec::new();
            },
        };
        let idxs = tokens_of_kind(n, LuaTokenKind::TkName);
        let mut out: Vec<LuaNameToken> = Vec::new();
        let mut i: usize = 0;
        proof {
            assert(out@.map_values(|t: LuaNameToken| t.tok as int) =~= idxs@.map_values(
                |u: usize| u as int,
            ).take(0));
        }
        while i < idxs.len()
            invariant
                i <= idxs.len(),
                self.valid(*tree),
                node_at(tree.root, self.path@) == Some(*n),
                idxs@.map_values(|u: usize| u as int) == tokens_of_kind_upto(
                    *n,
                    n.children@.len() as int,
                    LuaTokenKind::TkName,
                ),
                out@.map_values(|t: LuaNameToken| t.tok as int) == idxs@.map_values(
                    |u: usize| u as int,
                ).take(i as int),
                forall|j: int|
                    0 <= j < out@.len() ==> (#[trigger] out@[j]).valid(*tree) && out@[j].path@
                        == self.path@,
            decreases idxs.len() - i,
        {
            let t = LuaNameToken { path: clone_path(&self.path), tok: idxs[i] };
            proof {
                lemma_tokens_of_kind_member(*n, n.children@.len() as int, LuaTokenKind::TkName, i as int);
            }
            let ghost pre = out@;
            out.push(t);
            i = i + 1;
            proof {
                assert(out@ =~= pre.push(t));
                assert(out@.map_values(|t: LuaNameToken| t.tok as int) =~= pre.map_values(
                    |t: LuaNameToken| t.tok as int,
                ).push(idxs@[i as int - 1] as int));
                assert(idxs@.map_values(|u: usize| u as int).take(i as int) =~= idxs@
                    .map_values(|u: usize| u as int).take(i as int - 1).push(
                    idxs@[i as int - 1] as int,
                ));
                assert(out@.map_values(|t: LuaNameToken| t.tok as int) =~= idxs@.map_values(
                    |u: usize| u as int,
                ).take(i as int));
            }
        }
        proof {
            assert(idxs@.map_values(|u: usize| u as int).take(idxs@.len() as int) =~= idxs@
                .map_values(|u: usize| u as int));
        }
        out
    }
}

/// Every index listed by `tokens_of_kind_upto` holds a token of that kind.
pub proof fn lemma_tokens_of_kind_member(n: LuaSyntaxNode, i: int, k: LuaTokenKind, j: int)
    requires
        0 <= j < tokens_of_kind_upto(n, i, k).len(),
    ensures
        child_token_is(n, tokens_of_kind_upto(n, i, k)[j], k),
        0 <= tokens_of_kind_upto(n, i, k)[j] < i,
    decreases i,
{
    if i > 0 {
        if j < tokens_of_kind_upto(n, i - 1, k).len() {
            lemma_tokens_of_kind_member(n, i - 1, k, j);
        }
    }
}

/// A literal expression: a number, string, boolean or nil token.
pub struct LuaLiteralExpr {
    pub path: Vec<usize>,
}

impl LuaLiteralExpr {
    pub open spec fn valid(self, tree: LuaSyntaxTree) -> bool {
        path_is_node_of_kind(tree, self.path@, LuaSyntaxKind::LiteralExpr)
    }

    pub open spec fn node(self, tree: LuaSyntaxTree) -> LuaSyntaxNode {
        view_node(tree, self.path@)
    }

    pub fn can_cast(kind: LuaSyntaxKind) -> (r: bool)
        ensures
            r == (kind == LuaSyntaxKind::LiteralExpr),
    {
        kind == LuaSyntaxKind::LiteralExpr
    }

    pub fn cast(tree: &LuaSyntaxTree, path: Vec<usize>) -> (r: Option<LuaLiteralExpr>)
        ensures
            r is Some <==> path_is_node_of_kind(*tree, path@, LuaSyntaxKind::LiteralExpr),
            r matches Some(v) ==> v.path@ == path@,
    {
        match node_kind_at(tree, &path) {
            Some(k) => if k == LuaSyntaxKind::LiteralExpr {
                Some(LuaLiteralExpr { path })
            } else {
                None
            },
            None => None,
        }
    }

    pub fn syntax(&self) -> (r: &Vec<usize>)
        ensures
            r@ == self.path@,
    {
        &self.path
    }
}

/// A binary operation expression.
pub struct LuaBinaryExpr {
    pub path: Vec<usize>,
}

impl LuaBinaryExpr {
    pub open spec fn valid(self, tree: LuaSyntaxTree) -> bool {
        path_is_node_of_kind(tree, self.path@, LuaSyntaxKind::BinaryExpr)
    }

    pub open spec fn node(self, tree: LuaSyntaxTree) -> LuaSyntaxNode {
        view_node(tree, self.path@)
    }

    pub fn can_cast(kind: LuaSyntaxKind) -> (r: bool)
        ensures
            r == (kind == LuaSyntaxKind::BinaryExpr),
    {
        kind == LuaSyntaxKind::BinaryExpr
    }

    pub fn cast(tree: &LuaSyntaxTree, path: Vec<usize>) -> (r: Option<LuaBinaryExpr>)
        ensures
            r is Some <==> path_is_node_of_kind(*tree, path@, LuaSyntaxKind::BinaryExpr),
            r matches Some(v) ==> v.path@ == path@,
    {
        match node_kind_at(tree, &path) {
            Some(k) => if k == LuaSyntaxKind::BinaryExpr {
                Some(LuaBinaryExpr { path })
            } else {
                None
            },
            None => None,
        }
    }

    pub fn syntax(&self) -> (r: &Vec<usize>)
        ensures
            r@ == self.path@,
    {
        &self.path
    }
}

/// A table constructor expression.
pub struct LuaTableExpr {
    pub path: Vec<usize>,
}

impl LuaTableExpr {
    pub open spec fn valid(self, tree: LuaSyntaxTree) -> bool {
        path_is_node_of_kind(tree, self.path@, LuaSyntaxKind::TableExpr)
    }

    pub open spec fn node(self, tree: LuaSyntaxTree) -> LuaSyntaxNode {
        view_node(tree, self.path@)
    }

    pub fn can_cast(kind: LuaSyntaxKind) -> (r: bool)
        ensures
            r == (kind == LuaSyntaxKind::TableExpr),
    {
        kind == LuaSyntaxKind::TableExpr
    }

    pub fn cast(tree: &LuaSyntaxTree, path: Vec<usize>) -> (r: Option<LuaTableExpr>)
        ensures
            r is Some <==> path_is_node_of_kind(*tree, path@, LuaSyntaxKind::TableExpr),
            r matches Some(v) ==> v.path@ == path@,
    {
        match node_kind_at(tree, &path) {
            Some(k) => if k == LuaSyntaxKind::TableExpr {
                Some(LuaTableExpr { path })
            } else {
                None
            },
            None => None,
        }
    }

    pub fn syntax(&self) -> (r: &Vec<usize>)
        ensures
            r@ == self.path@,
    {
        &self.path
    }
}

/// Any expression: a closed tagged union over the concrete expression views.
pub enum LuaExpr {
    Name(LuaNameExpr),
    Index(LuaIndexExpr),
    Call(LuaCallExpr),
    Closure(LuaClosureExpr),
    Literal(LuaLiteralExpr),
    Binary(LuaBinaryExpr),
    Table(LuaTableExpr),
}

impl LuaExpr {
    pub open spec fn path_spec(self) -> Seq<usize> {
        match self {
            LuaExpr::Name(v) => v.path@,
            LuaExpr::Index(v) => v.path@,
            LuaExpr::Call(v) => v.path@,
            LuaExpr::Closure(v) => v.path@,
            LuaExpr::Literal(v) => v.path@,
            LuaExpr::Binary(v) => v.path@,
            LuaExpr::Table(v) => v.path@,
        }
    }

    pub open spec fn valid(self, tree: LuaSyntaxTree) -> bool {
        match self {
            LuaExpr::Name(v) => v.valid(tree),
            LuaExpr::Index(v) => v.valid(tree),
            LuaExpr::Call(v) => v.valid(tree),
            LuaExpr::Closure(v) => v.valid(tree),
            LuaExpr::Literal(v) => v.valid(tree),
            LuaExpr::Binary(v) => v.valid(tree),
            LuaExpr::Table(v) => v.valid(tree),
        }
    }

    pub fn can_cast(kind: LuaSyntaxKind) -> (r: bool)
        ensures
            r == is_expr_kind(kind),
    {
        match kind {
            LuaSyntaxKind::NameExpr => true,
            LuaSyntaxKind::IndexExpr => true,
            LuaSyntaxKind::CallExpr => true,
            LuaSyntaxKind::ClosureExpr => true,
            LuaSyntaxKind::LiteralExpr => true,
            LuaSyntaxKind::BinaryExpr => true,
            LuaSyntaxKind::TableExpr => true,
            _ => false,
        }
    }

    pub fn cast(tree: &LuaSyntaxTree, path: Vec<usize>) -> (r: Option<LuaExpr>)
        ensures
            r is Some <==> (match node_at(tree.root, path@) {
                Some(n) => is_expr_kind(n.kind),
                None => false,
            }),
            r matches Some(v) ==> v.path_spec() == path@ && v.valid(*tree),
    {
        match node_kind_at(tree, &path) {
            Some(k) => match k {
                LuaSyntaxKind::NameExpr => Some(LuaExpr::Name(LuaNameExpr { path })),
                LuaSyntaxKind::IndexExpr => Some(LuaExpr::Index(LuaIndexExpr { path })),
                LuaSyntaxKind::CallExpr => Some(LuaExpr::Call(LuaCallExpr { path })),
                LuaSyntaxKind::ClosureExpr => Some(LuaExpr::Closure(LuaClosureExpr { path })),
                LuaSyntaxKind::LiteralExpr => Some(LuaExpr::Literal(LuaLiteralExpr { path })),
                LuaSyntaxKind::BinaryExpr => Some(LuaExpr::Binary(LuaBinaryExpr { path })),
                LuaSyntaxKind::TableExpr => Some(LuaExpr::Table(LuaTableExpr { path })),
                _ => None,
            },
            None => None,
        }
    }

    pub fn syntax(&self) -> (r: &Vec<usize>)
        ensures
            r@ == self.path_spec(),
    {
        match self {
            LuaExpr::Name(v) => &v.path,
            LuaExpr::Index(v) => &v.path,
            LuaExpr::Call(v) => &v.path,
            LuaExpr::Closure(v) => &v.path,
            LuaExpr::Literal(v) => &v.path,
            LuaExpr::Binary(v) => &v.path,
            LuaExpr::Table(v) => &v.path,
        }
    }
}

/// An assignable expression: a name or an index expression.
pub enum LuaVarExpr {
    Name(LuaNameExpr),
    Index(LuaIndexExpr),
}

impl LuaVarExpr {
    pub open spec fn path_spec(self) -> Seq<usize> {
        match self {
            LuaVarExpr::Name(v) => v.path@,
            LuaVarExpr::Index(v) => v.path@,
        }
    }

    pub open spec fn valid(self, tree: LuaSyntaxTree) -> bool {
        match self {
            LuaVarExpr::Name(v) => v.valid(tree),
            LuaVarExpr::Index(v) => v.valid(tree),
        }
    }

    pub fn can_cast(kind: LuaSyntaxKind) -> (r: bool)
        ensures
            r == is_var_expr_kind(kind),
    {
        match kind {
            LuaSyntaxKind::NameExpr => true,
            LuaSyntaxKind::IndexExpr => true,
            _ => false,
        }
    }

    pub fn cast(tree: &LuaSyntaxTree, path: Vec<usize>) -> (r: Option<LuaVarExpr>)
        ensures
            r is Some <==> (match node_at(tree.root, path@) {
                Some(n) => is_var_expr_kind(n.kind),
                None => false,
            }),
            r matches Some(v) ==> v.path_spec() == path@ && v.valid(*tree),
    {
        match node_kind_at(tree, &path) {
            Some(k) => match k {
                LuaSyntaxKind::NameExpr => Some(LuaVarExpr::Name(LuaNameExpr { path })),
                LuaSyntaxKind::IndexExpr => Some(LuaVarExpr::Index(LuaIndexExpr { path })),
                _ => None,
            },
            None => None,
        }
    }

    pub fn syntax(&self) -> (r: &Vec<usize>)
        ensures
            r@ == self.path_spec(),
    {
        match self {
            LuaVarExpr::Name(v) => &v.path,
            LuaVarExpr::Index(v) => &v.path,
        }
    }
}

/// The single unparenthesized argument of a sugar call: a bare string
/// literal or a table constructor.
pub enum LuaSingleArgExpr {
    Literal(LuaLiteralExpr),
    Table(LuaTableExpr),
}

impl LuaSingleArgExpr {
    pub open spec fn path_spec(self) -> Seq<usize> {
        match self {
            LuaSingleArgExpr::Literal(v) => v.path@,
            LuaSingleArgExpr::Table(v) => v.path@,
        }
    }

    pub open spec fn valid(self, tree: LuaSyntaxTree) -> bool {
        match self {
            LuaSingleArgExpr::Literal(v) => v.valid(tree),
            LuaSingleArgExpr::Table(v) => v.valid(tree),
        }
    }

    pub fn can_cast(kind: LuaSyntaxKind) -> (r: bool)
        ensures
            r == is_single_arg_kind(kind),
    {
        match kind {
            LuaSyntaxKind::LiteralExpr => true,
            LuaSyntaxKind::TableExpr => true,
            _ => false,
        }
    }

    pub fn cast(tree: &LuaSyntaxTree, path: Vec<usize>) -> (r: Option<LuaSingleArgExpr>)
        ensures
            r is Some <==> (match node_at(tree.root, path@) {
                Some(n) => is_single_arg_kind(n.kind),
                None => false,
            }),
            r matches Some(v) ==> v.path_spec() == path@ && v.valid(*tree),
    {
        match node_kind_at(tree, &path) {
            Some(k) => match k {
                LuaSyntaxKind::LiteralExpr => Some(
                    LuaSingleArgExpr::Literal(LuaLiteralExpr { path }),
                ),
                LuaSyntaxKind::TableExpr => Some(LuaSingleArgExpr::Table(LuaTableExpr { path })),
                _ => None,
            },
            None => None,
        }
    }

    pub fn syntax(&self) -> (r: &Vec<usize>)
        ensures
            r@ == self.path_spec(),
    {
        match self {
            LuaSingleArgExpr::Literal(v) => &v.path,
            LuaSingleArgExpr::Table(v) => &v.path,
        }
    }
}

} // verus!
