//! Typed views over statement nodes: a closed tagged union with one
//! variant per statement form.

use vstd::prelude::*;
use crate::kind::{LuaSyntaxKind, LuaTokenKind};
use crate::tree::{
    LuaSyntaxNode, LuaSyntaxTree, LuaSyntaxElement, child_node, child_token_is, node_at,
    view_node, path_is_node_of_kind, node_kind_at, lookup_node, first_child_of_kind,
    first_child_of_kind_from, lemma_first_child_of_kind_member, lemma_node_at_push,
    tokens_of_kind_upto, first_token_of_kind_from, children_of_kind_upto, elem_start, elem_end,
    lemma_child_ranges_ordered,
};
use crate::expr::{
    LuaExpr, LuaVarExpr, LuaCallExpr, LuaClosureExpr, first_expr_child_from, expr_children_upto,
    first_var_child_from, is_expr_kind, is_var_expr_kind, lemma_first_expr_child_member,
};
use crate::ast::{
    LuaBlock, LuaLocalName, LuaNameToken, block_child, first_expr_view, first_var_view,
    name_token_child, collect_exprs, collect_name_tokens, collect_local_names, clone_path,
    child_path,
};

verus! {

/// The closed set of statement node kinds.
pub open spec fn is_stat_kind(k: LuaSyntaxKind) -> bool {
    match k {
        LuaSyntaxKind::LocalStat => true,
        LuaSyntaxKind::AssignStat => true,
        LuaSyntaxKind::CallExprStat => true,
        LuaSyntaxKind::FuncStat => true,
        LuaSyntaxKind::LocalFuncStat => true,
        LuaSyntaxKind::IfStat => true,
        LuaSyntaxKind::WhileStat => true,
        LuaSyntaxKind::DoStat => true,
        LuaSyntaxKind::ForStat => true,
        LuaSyntaxKind::ForRangeStat => true,
        LuaSyntaxKind::RepeatStat => true,
        LuaSyntaxKind::BreakStat => true,
        LuaSyntaxKind::ReturnStat => true,
        LuaSyntaxKind::GotoStat => true,
        LuaSyntaxKind::LabelStat => true,
        LuaSyntaxKind::EmptyStat => true,
        _ => false,
    }
}

/// All child indices below `i` holding statement nodes, in order.
pub open spec fn stat_children_upto(n: LuaSyntaxNode, i: int) -> Seq<int>
    decreases i,
{
    if i <= 0 {
        Seq::empty()
    } else if (match child_node(n, i - 1) {
        Some(c) => is_stat_kind(c.kind),
        None => false,
    }) {
        stat_children_upto(n, i - 1).push(i - 1)
    } else {
        stat_children_upto(n, i - 1)
    }
}

/// Every index listed by `stat_children_upto` holds a statement node.
pub proof fn lemma_stat_children_member(n: LuaSyntaxNode, i: int, j: int)
    requires
        0 <= j < stat_children_upto(n, i).len(),
    ensures
        (match child_node(n, stat_children_upto(n, i)[j]) {
            Some(c) => is_stat_kind(c.kind),
            None => false,
        }),
        0 <= stat_children_upto(n, i)[j] < i,
    decreases i,
{
    if i > 0 {
        if j < stat_children_upto(n, i - 1).len() {
            lemma_stat_children_member(n, i - 1, j);
        }
    }
}


/// Completeness of the statement collection: every child index holding a
/// statement node appears in the collected list.
pub proof fn lemma_stat_children_complete(n: LuaSyntaxNode, i: int, j: int)
    requires
        0 <= j < i,
        (match child_node(n, j) {
            Some(c) => is_stat_kind(c.kind),
            None => false,
        }),
    ensures
        stat_children_upto(n, i).contains(j),
    decreases i,
{
    if j == i - 1 {
        assert(stat_children_upto(n, i).last() == j);
    } else {
        lemma_stat_children_complete(n, i - 1, j);
        let m = choose|m: int|
            0 <= m < stat_children_upto(n, i - 1).len() && #[trigger] stat_children_upto(
                n,
                i - 1,
            )[m] == j;
        assert(stat_children_upto(n, i)[m] == j);
    }
}

/// Collects the child indices of `n` holding statement nodes, in order.
pub fn stat_child_indices(n: &LuaSyntaxNode) -> (r: Vec<usize>)
    ensures
        r@.map_values(|u: usize| u as int) == stat_children_upto(*n, n.children@.len() as int),
{
    let mut out: Vec<usize> = Vec::new();
    let mut i: usize = 0;
    proof {
        assert(out@.map_values(|u: usize| u as int) =~= stat_children_upto(*n, 0));
    }
    while i < n.children.len()
        invariant
            i <= n.children.len(),
            out@.map_values(|u: usize| u as int) == stat_children_upto(*n, i as int),
        decreases n.children.len() - i,
    {
        let ghost pre = out@;
        match &n.children[i] {
            LuaSyntaxElement::Node(c) => {
                if LuaStat::can_cast(c.kind) {
                    out.push(i);
                }
            },
            LuaSyntaxElement::Token(_) => {},
        }
        i = i + 1;
        proof {
            if out@.len() > pre.len() {
                assert(out@.map_values(|u: usize| u as int) =~= pre.map_values(
                    |u: usize| u as int,
                ).push(i as int - 1));
            }
        }
    }
    out
}


/// Completeness of the target split: every assignable-expression child
/// standing before the first `=` token appears in the target list.
pub proof fn lemma_assign_vars_complete(n: LuaSyntaxNode, i: int, j: int)
    requires
        0 <= j < i,
        !met_assign(n, j),
        (match child_node(n, j) {
            Some(c) => is_var_expr_kind(c.kind),
            None => false,
        }),
    ensures
        assign_vars_upto(n, i).contains(j),
    decreases i,
{
    if j == i - 1 {
        assert(assign_vars_upto(n, i).last() == j);
    } else {
        lemma_assign_vars_complete(n, i - 1, j);
        let m = choose|m: int|
            0 <= m < assign_vars_upto(n, i - 1).len() && #[trigger] assign_vars_upto(n, i - 1)[m] == j;
        assert(assign_vars_upto(n, i)[m] == j);
    }
}

/// Completeness of the value split: every expression child standing after
/// the first `=` token appears in the value list.
pub proof fn lemma_assign_exprs_complete(n: LuaSyntaxNode, i: int, j: int)
    requires
        0 <= j < i,
        met_assign(n, j),
        (match child_node(n, j) {
            Some(c) => is_expr_kind(c.kind),
            None => false,
        }),
    ensures
        assign_exprs_upto(n, i).contains(j),
    decreases i,
{
    if j == i - 1 {
        assert(met_assign(n, i - 1));
        assert(assign_exprs_upto(n, i).last() == j);
    } else {
        assert(met_assign(n, j) ==> met_assign(n, i - 1)) by {
            lemma_met_assign_monotone(n, j, i - 1);
        }
        lemma_assign_exprs_complete(n, i - 1, j);
        let m = choose|m: int|
            0 <= m < assign_exprs_upto(n, i - 1).len() && #[trigger] assign_exprs_upto(n, i - 1)[m] == j;
        assert(assign_exprs_upto(n, i)[m] == j);
    }
}

/// Once an `=` token has been passed, it stays passed.
pub proof fn lemma_met_assign_monotone(n: LuaSyntaxNode, i: int, j: int)
    requires
        0 <= i <= j,
        met_assign(n, i),
    ensures
        met_assign(n, j),
    decreases j - i,
{
    if i < j {
        lemma_met_assign_monotone(n, i, j - 1);
    }
}

/// Whether an assignment token stands among the first `i` children.
pub open spec fn met_assign(n: LuaSyntaxNode, i: int) -> bool
    decreases i,
{
    if i <= 0 {
        false
    } else {
        met_assign(n, i - 1) || child_token_is(n, i - 1, LuaTokenKind::TkAssign)
    }
}

/// The child indices below `i` holding assignment targets: assignable
/// expressions standing before the first `=` token.
pub open spec fn assign_vars_upto(n: LuaSyntaxNode, i: int) -> Seq<int>
    decreases i,
{
    if i <= 0 {
        Seq::empty()
    } else {
        let rest = assign_vars_upto(n, i - 1);
        if !met_assign(n, i - 1) && (match child_node(n, i - 1) {
            Some(c) => is_var_expr_kind(c.kind),
            None => false,
        }) {
            rest.push(i - 1)
        } else {
            rest
        }
    }
}

/// The child indices below `i` holding assigned values: expressions
/// standing after the first `=` token.
pub open spec fn assign_exprs_upto(n: LuaSyntaxNode, i: int) -> Seq<int>
    decreases i,
{
    if i <= 0 {
        Seq::empty()
    } else {
        let rest = assign_exprs_upto(n, i - 1);
        if met_assign(n, i - 1) && (match child_node(n, i - 1) {
            Some(c) => is_expr_kind(c.kind),
            None => false,
        }) {
            rest.push(i - 1)
        } else {
            rest
        }
    }
}

/// A `local` declaration statement.
pub struct LuaLocalStat {
    pub path: Vec<usize>,
}

impl LuaLocalStat {
    pub open spec fn valid(self, tree: LuaSyntaxTree) -> bool {
        path_is_node_of_kind(tree, self.path@, LuaSyntaxKind::LocalStat)
    }

    pub open spec fn node(self, tree: LuaSyntaxTree) -> LuaSyntaxNode {
        view_node(tree, self.path@)
    }

    pub fn can_cast(kind: LuaSyntaxKind) -> (r: bool)
        ensures
            r == (kind == LuaSyntaxKind::LocalStat),
    {
        kind == LuaSyntaxKind::LocalStat
    }

    pub fn cast(tree: &LuaSyntaxTree, path: Vec<usize>) -> (r: Option<LuaLocalStat>)
        ensures
            r is Some <==> path_is_node_of_kind(*tree, path@, LuaSyntaxKind::LocalStat),
            r matches Some(v) ==> v.path@ == path@,
    {
        match node_kind_at(tree, &path) {
            Some(k) => if k == LuaSyntaxKind::LocalStat {
                Some(LuaLocalStat { path })
            } else {
                None
            },
            None => None,
        }
    }

    pub fn syntax(&self) -> (r: &Vec<usize>)
        ensures
            r@ == self.path@,
    {
        &self.path
    }

    /// The declared local names, in order.
    pub fn get_local_name_list(&self, tree: &LuaSyntaxTree) -> (r: Vec<LuaLocalName>)
        requires
            self.valid(*tree),
        ensures
            r@.map_values(|v: LuaLocalName| v.path@.last() as int) == children_of_kind_upto(
                self.node(*tree),
                self.node(*tree).children@.len() as int,
                LuaSyntaxKind::LocalName,
            ),
            forall|j: int|
                0 <= j < r@.len() ==> (#[trigger] r@[j]).valid(*tree) && r@[j].path@.drop_last()
                    == self.path@ && r@[j].path@.len() == self.path@.len() + 1,
    {
        collect_local_names(tree, &self.path)
    }

    /// The initialising expressions, in order.
    pub fn get_value_exprs(&self, tree: &LuaSyntaxTree) -> (r: Vec<LuaExpr>)
        requires
            self.valid(*tree),
        ensures
            r@.map_values(|e: LuaExpr| e.path_spec().last() as int) == expr_children_upto(
                self.node(*tree),
                self.node(*tree).children@.len() as int,
            ),
            forall|j: int|
                0 <= j < r@.len() ==> (#[trigger] r@[j]).valid(*tree) && r@[j].path_spec()
                    .drop_last() == self.path@ && r@[j].path_spec().len() == self.path@.len()
                    + 1,
    {
        collect_exprs(tree, &self.path)
    }
}

/// An assignment statement.
pub struct LuaAssignStat {
    pub path: Vec<usize>,
}

impl LuaAssignStat {
    pub open spec fn valid(self, tree: LuaSyntaxTree) -> bool {
        path_is_node_of_kind(tree, self.path@, LuaSyntaxKind::AssignStat)
    }

    pub open spec fn node(self, tree: LuaSyntaxTree) -> LuaSyntaxNode {
        view_node(tree, self.path@)
    }

    pub fn can_cast(kind: LuaSyntaxKind) -> (r: bool)
        ensures
            r == (kind == LuaSyntaxKind::AssignStat),
    {
        kind == LuaSyntaxKind::AssignStat
    }

    pub fn cast(tree: &LuaSyntaxTree, path: Vec<usize>) -> (r: Option<LuaAssignStat>)
        ensures
            r is Some <==> path_is_node_of_kind(*tree, path@, LuaSyntaxKind::AssignStat),
            r matches Some(v) ==> v.path@ == path@,
    {
        match node_kind_at(tree, &path) {
            Some(k) => if k == LuaSyntaxKind::AssignStat {
                Some(LuaAssignStat { path })
            } else {
                None
            },
            None => None,
        }
    }

    pub fn syntax(&self) -> (r: &Vec<usize>)
        ensures
            r@ == self.path@,
    {
        &self.path
    }

    /// Splits the statement's children at the first `=` token: assignable
    /// expressions before it are the targets, expressions after it are the
    /// values.  Commas and other tokens between them are passed over.
    pub fn get_expr_list(&self, tree: &LuaSyntaxTree) -> (r: (Vec<LuaVarExpr>, Vec<LuaExpr>))
        requires
            self.valid(*tree),
        ensures
            r.0@.map_values(|v: LuaVarExpr| v.path_spec().last() as int) == assign_vars_upto(
                self.node(*tree),
                self.node(*tree).children@.len() as int,
            ),
            r.1@.map_values(|e: LuaExpr| e.path_spec().last() as int) == assign_exprs_upto(
                self.node(*tree),
                self.node(*tree).children@.len() as int,
            ),
            forall|j: int|
                0 <= j < r.0@.len() ==> (#[trigger] r.0@[j]).valid(*tree) && r.0@[j].path_spec()
                    .drop_last() == self.path@ && r.0@[j].path_spec().len() == self.path@.len()
                    + 1,
            forall|j: int|
                0 <= j < r.1@.len() ==> (#[trigger] r.1@[j]).valid(*tree) && r.1@[j].path_spec()
                    .drop_last() == self.path@ && r.1@[j].path_spec().len() == self.path@.len()
                    + 1,
    {
        let n = match lookup_node(&tree.root, &self.path) {
            Some(n) => n,
            None => {
                return vstd::pervasive::unreached();
            },
        };
        let mut vars: Vec<LuaVarExpr> = Vec::new();
        let mut exprs: Vec<LuaExpr> = Vec::new();
        let mut met: bool = false;
        let mut i: usize = 0;
        proof {
            assert(vars@.map_values(|v: LuaVarExpr| v.path_spec().last() as int)
                =~= assign_vars_upto(*n, 0));
            assert(exprs@.map_values(|e: LuaExpr| e.path_spec().last() as int)
                =~= assign_exprs_upto(*n, 0));
        }
        while i < n.children.len()
            invariant
                i <= n.children.len(),
                self.valid(*tree),
                node_at(tree.root, self.path@) == Some(*n),
                met == met_assign(*n, i as int),
                vars@.map_values(|v: LuaVarExpr| v.path_spec().last() as int)
                    == assign_vars_upto(*n, i as int),
                exprs@.map_values(|e: LuaExpr| e.path_spec().last() as int)
                    == assign_exprs_upto(*n, i as int),
                forall|j: int|
                    0 <= j < vars@.len() ==> (#[trigger] vars@[j]).valid(*tree) && vars@[j]
                        .path_spec().drop_last() == self.path@ && vars@[j].path_spec().len()
                        == self.path@.len() + 1,
                forall|j: int|
                    0 <= j < exprs@.len() ==> (#[trigger] exprs@[j]).valid(*tree) && exprs@[j]
                        .path_spec().drop_last() == self.path@ && exprs@[j].path_spec().len()
                        == self.path@.len() + 1,
            decreases n.children.len() - i,
        {
            match &n.children[i] {
                LuaSyntaxElement::Token(t) => {
                    if t.kind == LuaTokenKind::TkAssign {
                        met = true;
                    }
                },
                LuaSyntaxElement::Node(c) => {
                    proof {
                        lemma_node_at_push(tree.root, self.path@, i);
                        assert((self.path@.push(i)).drop_last() =~= self.path@);
                        assert((self.path@.push(i)).last() == i);
                    }
                    if met {
                        if LuaExpr::can_cast(c.kind) {
                            let p = child_path(&self.path, i);
                            match LuaExpr::cast(tree, p) {
                                Some(e) => exprs.push(e),
                                None => {
                                    proof {
                                        assert(false);
                                    }
                                },
                            }
                        }
                    } else {
                        if LuaVarExpr::can_cast(c.kind) {
                            let p = child_path(&self.path, i);
                            match LuaVarExpr::cast(tree, p) {
                                Some(v) => vars.push(v),
                                None => {
                                    proof {
                                        assert(false);
                                    }
                                },
                            }
                        }
                    }
                },
            }
            i = i + 1;
            proof {
                assert(vars@.map_values(|v: LuaVarExpr| v.path_spec().last() as int)
                    =~= assign_vars_upto(*n, i as int));
                assert(exprs@.map_values(|e: LuaExpr| e.path_spec().last() as int)
                    =~= assign_exprs_upto(*n, i as int));
            }
        }
        (vars, exprs)
    }
}

/// A call standing as a statement.
pub struct LuaCallExprStat {
    pub path: Vec<usize>,
}

impl LuaCallExprStat {
    pub open spec fn valid(self, tree: LuaSyntaxTree) -> bool {
        path_is_node_of_kind(tree, self.path@, LuaSyntaxKind::CallExprStat)
    }

    pub open spec fn node(self, tree: LuaSyntaxTree) -> LuaSyntaxNode {
        view_node(tree, self.path@)
    }

    pub fn can_cast(kind: LuaSyntaxKind) -> (r: bool)
        ensures
            r == (kind == LuaSyntaxKind::CallExprStat),
    {
        kind == LuaSyntaxKind::CallExprStat
    }

    pub fn cast(tree: &LuaSyntaxTree, path: Vec<usize>) -> (r: Option<LuaCallExprStat>)
        ensures
            r is Some <==> path_is_node_of_kind(*tree, path@, LuaSyntaxKind::CallExprStat),
            r matches Some(v) ==> v.path@ == path@,
    {
        match node_kind_at(tree, &path) {
            Some(k) => if k == LuaSyntaxKind::CallExprStat {
                Some(LuaCallExprStat { path })
            } else {
                None
            },
            None => None,
        }
    }

    pub fn syntax(&self) -> (r: &Vec<usize>)
        ensures
            r@ == self.path@,
    {
        &self.path
    }

    /// The call expression.
    pub fn get_call_expr(&self, tree: &LuaSyntaxTree) -> (r: Option<LuaCallExpr>)
        requires
            self.valid(*tree),
        ensures
            r is Some <==> first_child_of_kind_from(self.node(*tree), 0, LuaSyntaxKind::CallExpr)
                is Some,
            r matches Some(v) ==> v.valid(*tree) && Some(v.path@.last() as int)
                == first_child_of_kind_from(self.node(*tree), 0, LuaSyntaxKind::CallExpr)
                && v.path@.drop_last() == self.path@ && v.path@.len() == self.path@.len() + 1,
    {
        let n = match lookup_node(&tree.root, &self.path) {
            Some(n) => n,
            None => {
                return None;
            },
        };
        match first_child_of_kind(n, LuaSyntaxKind::CallExpr) {
            Some(i) => {
                proof {
                    lemma_first_child_of_kind_member(*n, 0, LuaSyntaxKind::CallExpr);
                    lemma_node_at_push(tree.root, self.path@, i);
                    assert((self.path@.push(i)).drop_last() =~= self.path@);
                }
                Some(LuaCallExpr { path: child_path(&self.path, i) })
            },
            None => None,
        }
    }
}

/// A `function` statement naming a global or a member.
pub struct LuaFuncStat {
    pub path: Vec<usize>,
}

impl LuaFuncStat {
    pub open spec fn valid(self, tree: LuaSyntaxTree) -> bool {
        path_is_node_of_kind(tree, self.path@, LuaSyntaxKind::FuncStat)
    }

    pub open spec fn node(self, tree: LuaSyntaxTree) -> LuaSyntaxNode {
        view_node(tree, self.path@)
    }

    pub fn can_cast(kind: LuaSyntaxKind) -> (r: bool)
        ensures
            r == (kind == LuaSyntaxKind::FuncStat),
    {
        kind == LuaSyntaxKind::FuncStat
    }

    pub fn cast(tree: &LuaSyntaxTree, path: Vec<usize>) -> (r: Option<LuaFuncStat>)
        ensures
            r is Some <==> path_is_node_of_kind(*tree, path@, LuaSyntaxKind::FuncStat),
            r matches Some(v) ==> v.path@ == path@,
    {
        match node_kind_at(tree, &path) {
            Some(k) => if k == LuaSyntaxKind::FuncStat {
                Some(LuaFuncStat { path })
            } else {
                None
            },
            None => None,
        }
    }

    pub fn syntax(&self) -> (r: &Vec<usize>)
        ensures
            r@ == self.path@,
    {
        &self.path
    }

    /// The assigned function name.
    pub fn get_func_name(&self, tree: &LuaSyntaxTree) -> (r: Option<LuaVarExpr>)
        requires
            self.valid(*tree),
        ensures
            r is Some <==> first_var_child_from(self.node(*tree), 0) is Some,
            r matches Some(e) ==> e.valid(*tree) && Some(e.path_spec().last() as int)
                == first_var_child_from(self.node(*tree), 0) && e.path_spec().drop_last()
                == self.path@ && e.path_spec().len() == self.path@.len() + 1,
    {
        first_var_view(tree, &self.path)
    }

    /// The function literal.
    pub fn get_closure(&self, tree: &LuaSyntaxTree) -> (r: Option<LuaClosureExpr>)
        requires
            self.valid(*tree),
        ensures
            r is Some <==> first_child_of_kind_from(self.node(*tree), 0, LuaSyntaxKind::ClosureExpr)
                is Some,
            r matches Some(v) ==> v.valid(*tree) && Some(v.path@.last() as int)
                == first_child_of_kind_from(self.node(*tree), 0, LuaSyntaxKind::ClosureExpr)
                && v.path@.drop_last() == self.path@ && v.path@.len() == self.path@.len() + 1,
    {
        let n = match lookup_node(&tree.root, &self.path) {
            Some(n) => n,
            None => {
                return None;
            },
        };
        match first_child_of_kind(n, LuaSyntaxKind::ClosureExpr) {
            Some(i) => {
                proof {
                    lemma_first_child_of_kind_member(*n, 0, LuaSyntaxKind::ClosureExpr);
                    lemma_node_at_push(tree.root, self.path@, i);
                    assert((self.path@.push(i)).drop_last() =~= self.path@);
                }
                Some(LuaClosureExpr { path: child_path(&self.path, i) })
            },
            None => None,
        }
    }
}

/// A `local function` statement.
pub struct LuaLocalFuncStat {
    pub path: Vec<usize>,
}

impl LuaLocalFuncStat {
    pub open spec fn valid(self, tree: LuaSyntaxTree) -> bool {
        path_is_node_of_kind(tree, self.path@, LuaSyntaxKind::LocalFuncStat)
    }

    pub open spec fn node(self, tree: LuaSyntaxTree) -> LuaSyntaxNode {
        view_node(tree, self.path@)
    }

    pub fn can_cast(kind: LuaSyntaxKind) -> (r: bool)
        ensures
            r == (kind == LuaSyntaxKind::LocalFuncStat),
    {
        kind == LuaSyntaxKind::LocalFuncStat
    }

    pub fn cast(tree: &LuaSyntaxTree, path: Vec<usize>) -> (r: Option<LuaLocalFuncStat>)
        ensures
            r is Some <==> path_is_node_of_kind(*tree, path@, LuaSyntaxKind::LocalFuncStat),
            r matches Some(v) ==> v.path@ == path@,
    {
        match node_kind_at(tree, &path) {
            Some(k) => if k == LuaSyntaxKind::LocalFuncStat {
                Some(LuaLocalFuncStat { path })
            } else {
                None
            },
            None => None,
        }
    }

    pub fn syntax(&self) -> (r: &Vec<usize>)
        ensures
            r@ == self.path@,
    {
        &self.path
    }

    /// The declared local name.
    pub fn get_local_name(&self, tree: &LuaSyntaxTree) -> (r: Option<LuaLocalName>)
        requires
            self.valid(*tree),
        ensures
            r is Some <==> first_child_of_kind_from(self.node(*tree), 0, LuaSyntaxKind::LocalName)
                is Some,
            r matches Some(v) ==> v.valid(*tree) && Some(v.path@.last() as int)
                == first_child_of_kind_from(self.node(*tree), 0, LuaSyntaxKind::LocalName)
                && v.path@.drop_last() == self.path@ && v.path@.len() == self.path@.len() + 1,
    {
        let n = match lookup_node(&tree.root, &self.path) {
            Some(n) => n,
            None => {
                return None;
            },
        };
        match first_child_of_kind(n, LuaSyntaxKind::LocalName) {
            Some(i) => {
                proof {
                    lemma_first_child_of_kind_member(*n, 0, LuaSyntaxKind::LocalName);
                    lemma_node_at_push(tree.root, self.path@, i);
                    assert((self.path@.push(i)).drop_last() =~= self.path@);
                }
                Some(LuaLocalName { path: child_path(&self.path, i) })
            },
            None => None,
        }
    }

    /// The function literal.
    pub fn get_closure(&self, tree: &LuaSyntaxTree) -> (r: Option<LuaClosureExpr>)
        requires
            self.valid(*tree),
        ensures
            r is Some <==> first_child_of_kind_from(self.node(*tree), 0, LuaSyntaxKind::ClosureExpr)
                is Some,
            r matches Some(v) ==> v.valid(*tree) && Some(v.path@.last() as int)
                == first_child_of_kind_from(self.node(*tree), 0, LuaSyntaxKind::ClosureExpr)
                && v.path@.drop_last() == self.path@ && v.path@.len() == self.path@.len() + 1,
    {
        let n = match lookup_node(&tree.root, &self.path) {
            Some(n) => n,
            None => {
                return None;
            },
        };
        match first_child_of_kind(n, LuaSyntaxKind::ClosureExpr) {
            Some(i) => {
                proof {
                    lemma_first_child_of_kind_member(*n, 0, LuaSyntaxKind::ClosureExpr);
                    lemma_node_at_push(tree.root, self.path@, i);
                    assert((self.path@.push(i)).drop_last() =~= self.path@);
                }
                Some(LuaClosureExpr { path: child_path(&self.path, i) })
            },
            None => None,
        }
    }
}

/// An `if` statement.
pub struct LuaIfStat {
    pub path: Vec<usize>,
}

impl LuaIfStat {
    pub open spec fn valid(self, tree: LuaSyntaxTree) -> bool {
        path_is_node_of_kind(tree, self.path@, LuaSyntaxKind::IfStat)
    }

    pub open spec fn node(self, tree: LuaSyntaxTree) -> LuaSyntaxNode {
        view_node(tree, self.path@)
    }

    pub fn can_cast(kind: LuaSyntaxKind) -> (r: bool)
        ensures
            r == (kind == LuaSyntaxKind::IfStat),
    {
        kind == LuaSyntaxKind::IfStat
    }

    pub fn cast(tree: &LuaSyntaxTree, path: Vec<usize>) -> (r: Option<LuaIfStat>)
        ensures
            r is Some <==> path_is_node_of_kind(*tree, path@, LuaSyntaxKind::IfStat),
            r matches Some(v) ==> v.path@ == path@,
    {
        match node_kind_at(tree, &path) {
            Some(k) => if k == LuaSyntaxKind::IfStat {
                Some(LuaIfStat { path })
            } else {
                None
            },
            None => None,
        }
    }

    pub fn syntax(&self) -> (r: &Vec<usize>)
        ensures
            r@ == self.path@,
    {
        &self.path
    }

    /// The condition.  In a well-formed tree the condition,
    /// an earlier child, spans text before the block.
    pub fn get_condition_expr(&self, tree: &LuaSyntaxTree) -> (r: Option<LuaExpr>)
        requires
            self.valid(*tree),
        ensures
            r is Some <==> first_expr_child_from(self.node(*tree), 0) is Some,
            r matches Some(e) ==> e.valid(*tree) && Some(e.path_spec().last() as int)
                == first_expr_child_from(self.node(*tree), 0) && e.path_spec().drop_last()
                == self.path@ && e.path_spec().len() == self.path@.len() + 1,
            tree.wf() ==> (match (
                first_expr_child_from(self.node(*tree), 0),
                first_child_of_kind_from(self.node(*tree), 0, LuaSyntaxKind::Block),
            ) {
                (Some(ci), Some(bi)) => ci < bi ==> elem_end(self.node(*tree).children@[ci])
                    <= elem_start(self.node(*tree).children@[bi]),
                _ => true,
            }),
    {
        let r = first_expr_view(tree, &self.path);
        proof {
            if tree.wf() {
                match (
                    first_expr_child_from(self.node(*tree), 0),
                    first_child_of_kind_from(self.node(*tree), 0, LuaSyntaxKind::Block),
                ) {
                    (Some(ci), Some(bi)) => {
                        lemma_first_expr_child_member(self.node(*tree), 0);
                        lemma_first_child_of_kind_member(self.node(*tree), 0, LuaSyntaxKind::Block);
                        if ci < bi {
                            lemma_child_ranges_ordered(*tree, self.path@, ci, bi);
                        }
                    },
                    _ => {},
                }
            }
        }
        r
    }

    /// The `then` block.
    pub fn get_block(&self, tree: &LuaSyntaxTree) -> (r: Option<LuaBlock>)
        requires
            self.valid(*tree),
        ensures
            r is Some <==> first_child_of_kind_from(self.node(*tree), 0, LuaSyntaxKind::Block)
                is Some,
            r matches Some(b) ==> b.valid(*tree) && Some(b.path@.last() as int)
                == first_child_of_kind_from(self.node(*tree), 0, LuaSyntaxKind::Block)
                && b.path@.drop_last() == self.path@ && b.path@.len() == self.path@.len() + 1,
    {
        block_child(tree, &self.path)
    }
}

/// A `while` loop.
pub struct LuaWhileStat {
    pub path: Vec<usize>,
}

impl LuaWhileStat {
    pub open spec fn valid(self, tree: LuaSyntaxTree) -> bool {
        path_is_node_of_kind(tree, self.path@, LuaSyntaxKind::WhileStat)
    }

    pub open spec fn node(self, tree: LuaSyntaxTree) -> LuaSyntaxNode {
        view_node(tree, self.path@)
    }

    pub fn can_cast(kind: LuaSyntaxKind) -> (r: bool)
        ensures
            r == (kind == LuaSyntaxKind::WhileStat),
    {
        kind == LuaSyntaxKind::WhileStat
    }

    pub fn cast(tree: &LuaSyntaxTree, path: Vec<usize>) -> (r: Option<LuaWhileStat>)
        ensures
            r is Some <==> path_is_node_of_kind(*tree, path@, LuaSyntaxKind::WhileStat),
            r matches Some(v) ==> v.path@ == path@,
    {
        match node_kind_at(tree, &path) {
            Some(k) => if k == LuaSyntaxKind::WhileStat {
                Some(LuaWhileStat { path })
            } else {
                None
            },
            None => None,
        }
    }

    pub fn syntax(&self) -> (r: &Vec<usize>)
        ensures
            r@ == self.path@,
    {
        &self.path
    }

    /// The condition.  In a well-formed tree the condition,
    /// an earlier child, spans text before the block.
    pub fn get_condition_expr(&self, tree: &LuaSyntaxTree) -> (r: Option<LuaExpr>)
        requires
            self.valid(*tree),
        ensures
            r is Some <==> first_expr_child_from(self.node(*tree), 0) is Some,
            r matches Some(e) ==> e.valid(*tree) && Some(e.path_spec().last() as int)
                == first_expr_child_from(self.node(*tree), 0) && e.path_spec().drop_last()
                == self.path@ && e.path_spec().len() == self.path@.len() + 1,
            tree.wf() ==> (match (
                first_expr_child_from(self.node(*tree), 0),
                first_child_of_kind_from(self.node(*tree), 0, LuaSyntaxKind::Block),
            ) {
                (Some(ci), Some(bi)) => ci < bi ==> elem_end(self.node(*tree).children@[ci])
                    <= elem_start(self.node(*tree).children@[bi]),
                _ => true,
            }),
    {
        let r = first_expr_view(tree, &self.path);
        proof {
            if tree.wf() {
                match (
                    first_expr_child_from(self.node(*tree), 0),
                    first_child_of_kind_from(self.node(*tree), 0, LuaSyntaxKind::Block),
                ) {
                    (Some(ci), Some(bi)) => {
                        lemma_first_expr_child_member(self.node(*tree), 0);
                        lemma_first_child_of_kind_member(self.node(*tree), 0, LuaSyntaxKind::Block);
                        if ci < bi {
                            lemma_child_ranges_ordered(*tree, self.path@, ci, bi);
                        }
                    },
                    _ => {},
                }
            }
        }
        r
    }

    /// The loop body.
    pub fn get_block(&self, tree: &LuaSyntaxTree) -> (r: Option<LuaBlock>)
        requires
            self.valid(*tree),
        ensures
            r is Some <==> first_child_of_kind_from(self.node(*tree), 0, LuaSyntaxKind::Block)
                is Some,
            r matches Some(b) ==> b.valid(*tree) && Some(b.path@.last() as int)
                == first_child_of_kind_from(self.node(*tree), 0, LuaSyntaxKind::Block)
                && b.path@.drop_last() == self.path@ && b.path@.len() == self.path@.len() + 1,
    {
        block_child(tree, &self.path)
    }
}

/// A `do ... end` block statement.
pub struct LuaDoStat {
    pub path: Vec<usize>,
}

impl LuaDoStat {
    pub open spec fn valid(self, tree: LuaSyntaxTree) -> bool {
        path_is_node_of_kind(tree, self.path@, LuaSyntaxKind::DoStat)
    }

    pub open spec fn node(self, tree: LuaSyntaxTree) -> LuaSyntaxNode {
        view_node(tree, self.path@)
    }

    pub fn can_cast(kind: LuaSyntaxKind) -> (r: bool)
        ensures
            r == (kind == LuaSyntaxKind::DoStat),
    {
        kind == LuaSyntaxKind::DoStat
    }

    pub fn cast(tree: &LuaSyntaxTree, path: Vec<usize>) -> (r: Option<LuaDoStat>)
        ensures
            r is Some <==> path_is_node_of_kind(*tree, path@, LuaSyntaxKind::DoStat),
            r matches Some(v) ==> v.path@ == path@,
    {
        match node_kind_at(tree, &path) {
            Some(k) => if k == LuaSyntaxKind::DoStat {
                Some(LuaDoStat { path })
            } else {
                None
            },
            None => None,
        }
    }

    pub fn syntax(&self) -> (r: &Vec<usize>)
        ensures
            r@ == self.path@,
    {
        &self.path
    }

    /// The enclosed block.
    pub fn get_block(&self, tree: &LuaSyntaxTree) -> (r: Option<LuaBlock>)
        requires
            self.valid(*tree),
        ensures
            r is Some <==> first_child_of_kind_from(self.node(*tree), 0, LuaSyntaxKind::Block)
                is Some,
            r matches Some(b) ==> b.valid(*tree) && Some(b.path@.last() as int)
                == first_child_of_kind_from(self.node(*tree), 0, LuaSyntaxKind::Block)
                && b.path@.drop_last() == self.path@ && b.path@.len() == self.path@.len() + 1,
    {
        block_child(tree, &self.path)
    }
}

/// A numeric `for` loop with one control variable.
pub struct LuaForStat {
    pub path: Vec<usize>,
}

impl LuaForStat {
    pub open spec fn valid(self, tree: LuaSyntaxTree) -> bool {
        path_is_node_of_kind(tree, self.path@, LuaSyntaxKind::ForStat)
    }

    pub open spec fn node(self, tree: LuaSyntaxTree) -> LuaSyntaxNode {
        view_node(tree, self.path@)
    }

    pub fn can_cast(kind: LuaSyntaxKind) -> (r: bool)
        ensures
            r == (kind == LuaSyntaxKind::ForStat),
    {
        kind == LuaSyntaxKind::ForStat
    }

    pub fn cast(tree: &LuaSyntaxTree, path: Vec<usize>) -> (r: Option<LuaForStat>)
        ensures
            r is Some <==> path_is_node_of_kind(*tree, path@, LuaSyntaxKind::ForStat),
            r matches Some(v) ==> v.path@ == path@,
    {
        match node_kind_at(tree, &path) {
            Some(k) => if k == LuaSyntaxKind::ForStat {
                Some(LuaForStat { path })
            } else {
                None
            },
            None => None,
        }
    }

    pub fn syntax(&self) -> (r: &Vec<usize>)
        ensures
            r@ == self.path@,
    {
        &self.path
    }

    /// The control variable's name.
    pub fn get_var_name(&self, tree: &LuaSyntaxTree) -> (r: Option<LuaNameToken>)
        requires
            self.valid(*tree),
        ensures
            r is Some <==> first_token_of_kind_from(self.node(*tree), 0, LuaTokenKind::TkName)
                is Some,
            r matches Some(t) ==> t.valid(*tree) && t.path@ == self.path@ && Some(t.tok as int)
                == first_token_of_kind_from(self.node(*tree), 0, LuaTokenKind::TkName),
    {
        name_token_child(tree, &self.path)
    }

    /// The range expressions: start, limit and optional step.
    pub fn get_iter_expr(&self, tree: &LuaSyntaxTree) -> (r: Vec<LuaExpr>)
        requires
            self.valid(*tree),
        ensures
            r@.map_values(|e: LuaExpr| e.path_spec().last() as int) == expr_children_upto(
                self.node(*tree),
                self.node(*tree).children@.len() as int,
            ),
            forall|j: int|
                0 <= j < r@.len() ==> (#[trigger] r@[j]).valid(*tree) && r@[j].path_spec()
                    .drop_last() == self.path@ && r@[j].path_spec().len() == self.path@.len()
                    + 1,
    {
        collect_exprs(tree, &self.path)
    }

    /// The loop body.
    pub fn get_block(&self, tree: &LuaSyntaxTree) -> (r: Option<LuaBlock>)
        requires
            self.valid(*tree),
        ensures
            r is Some <==> first_child_of_kind_from(self.node(*tree), 0, LuaSyntaxKind::Block)
                is Some,
            r matches Some(b) ==> b.valid(*tree) && Some(b.path@.last() as int)
                == first_child_of_kind_from(self.node(*tree), 0, LuaSyntaxKind::Block)
                && b.path@.drop_last() == self.path@ && b.path@.len() == self.path@.len() + 1,
    {
        block_child(tree, &self.path)
    }
}

/// A generic `for ... in` loop.
pub struct LuaForRangeStat {
    pub path: Vec<usize>,
}

impl LuaForRangeStat {
    pub open spec fn valid(self, tree: LuaSyntaxTree) -> bool {
        path_is_node_of_kind(tree, self.path@, LuaSyntaxKind::ForRangeStat)
    }

    pub open spec fn node(self, tree: LuaSyntaxTree) -> LuaSyntaxNode {
        view_node(tree, self.path@)
    }

    pub fn can_cast(kind: LuaSyntaxKind) -> (r: bool)
        ensures
            r == (kind == LuaSyntaxKind::ForRangeStat),
    {
        kind == LuaSyntaxKind::ForRangeStat
    }

    pub fn cast(tree: &LuaSyntaxTree, path: Vec<usize>) -> (r: Option<LuaForRangeStat>)
        ensures
            r is Some <==> path_is_node_of_kind(*tree, path@, LuaSyntaxKind::ForRangeStat),
            r matches Some(v) ==> v.path@ == path@,
    {
        match node_kind_at(tree, &path) {
            Some(k) => if k == LuaSyntaxKind::ForRangeStat {
                Some(LuaForRangeStat { path })
            } else {
                None
            },
            None => None,
        }
    }

    pub fn syntax(&self) -> (r: &Vec<usize>)
        ensures
            r@ == self.path@,
    {
        &self.path
    }

    /// The loop variables' names, in order.
    pub fn get_var_name_list(&self, tree: &LuaSyntaxTree) -> (r: Vec<LuaNameToken>)
        requires
            self.valid(*tree),
        ensures
            r@.map_values(|t: LuaNameToken| t.tok as int) == tokens_of_kind_upto(
                self.node(*tree),
                self.node(*tree).children@.len() as int,
                LuaTokenKind::TkName,
            ),
            forall|j: int|
                0 <= j < r@.len() ==> (#[trigger] r@[j]).valid(*tree) && r@[j].path@
                    == self.path@,
    {
        collect_name_tokens(tree, &self.path)
    }

    /// The iterator expressions, in order.
    pub fn get_expr_list(&self, tree: &LuaSyntaxTree) -> (r: Vec<LuaExpr>)
        requires
            self.valid(*tree),
        ensures
            r@.map_values(|e: LuaExpr| e.path_spec().last() as int) == expr_children_upto(
                self.node(*tree),
                self.node(*tree).children@.len() as int,
            ),
            forall|j: int|
                0 <= j < r@.len() ==> (#[trigger] r@[j]).valid(*tree) && r@[j].path_spec()
                    .drop_last() == self.path@ && r@[j].path_spec().len() == self.path@.len()
                    + 1,
    {
        collect_exprs(tree, &self.path)
    }

    /// The loop body.
    pub fn get_block(&self, tree: &LuaSyntaxTree) -> (r: Option<LuaBlock>)
        requires
            self.valid(*tree),
        ensures
            r is Some <==> first_child_of_kind_from(self.node(*tree), 0, LuaSyntaxKind::Block)
                is Some,
            r matches Some(b) ==> b.valid(*tree) && Some(b.path@.last() as int)
                == first_child_of_kind_from(self.node(*tree), 0, LuaSyntaxKind::Block)
                && b.path@.drop_last() == self.path@ && b.path@.len() == self.path@.len() + 1,
    {
        block_child(tree, &self.path)
    }
}

/// A `repeat ... until` loop; its condition sees the body's locals.
pub struct LuaRepeatStat {
    pub path: Vec<usize>,
}

impl LuaRepeatStat {
    pub open spec fn valid(self, tree: LuaSyntaxTree) -> bool {
        path_is_node_of_kind(tree, self.path@, LuaSyntaxKind::RepeatStat)
    }

    pub open spec fn node(self, tree: LuaSyntaxTree) -> LuaSyntaxNode {
        view_node(tree, self.path@)
    }

    pub fn can_cast(kind: LuaSyntaxKind) -> (r: bool)
        ensures
            r == (kind == LuaSyntaxKind::RepeatStat),
    {
        kind == LuaSyntaxKind::RepeatStat
    }

    pub fn cast(tree: &LuaSyntaxTree, path: Vec<usize>) -> (r: Option<LuaRepeatStat>)
        ensures
            r is Some <==> path_is_node_of_kind(*tree, path@, LuaSyntaxKind::RepeatStat),
            r matches Some(v) ==> v.path@ == path@,
    {
        match node_kind_at(tree, &path) {
            Some(k) => if k == LuaSyntaxKind::RepeatStat {
                Some(LuaRepeatStat { path })
            } else {
                None
            },
            None => None,
        }
    }

    pub fn syntax(&self) -> (r: &Vec<usize>)
        ensures
            r@ == self.path@,
    {
        &self.path
    }

    /// The loop body.
    pub fn get_block(&self, tree: &LuaSyntaxTree) -> (r: Option<LuaBlock>)
        requires
            self.valid(*tree),
        ensures
            r is Some <==> first_child_of_kind_from(self.node(*tree), 0, LuaSyntaxKind::Block)
                is Some,
            r matches Some(b) ==> b.valid(*tree) && Some(b.path@.last() as int)
                == first_child_of_kind_from(self.node(*tree), 0, LuaSyntaxKind::Block)
                && b.path@.drop_last() == self.path@ && b.path@.len() == self.path@.len() + 1,
    {
        block_child(tree, &self.path)
    }

    /// The `until` condition.  In a well-formed tree the body block,
    /// an earlier child, spans text before the condition, though both share
    /// one scope for resolution.
    pub fn get_condition_expr(&self, tree: &LuaSyntaxTree) -> (r: Option<LuaExpr>)
        requires
            self.valid(*tree),
        ensures
            r is Some <==> first_expr_child_from(self.node(*tree), 0) is Some,
            r matches Some(e) ==> e.valid(*tree) && Some(e.path_spec().last() as int)
                == first_expr_child_from(self.node(*tree), 0) && e.path_spec().drop_last()
                == self.path@ && e.path_spec().len() == self.path@.len() + 1,
            tree.wf() ==> (match (
                first_expr_child_from(self.node(*tree), 0),
                first_child_of_kind_from(self.node(*tree), 0, LuaSyntaxKind::Block),
            ) {
                (Some(ci), Some(bi)) => bi < ci ==> elem_end(self.node(*tree).children@[bi])
                    <= elem_start(self.node(*tree).children@[ci]),
                _ => true,
            }),
    {
        let r = first_expr_view(tree, &self.path);
        proof {
            if tree.wf() {
                match (
                    first_expr_child_from(self.node(*tree), 0),
                    first_child_of_kind_from(self.node(*tree), 0, LuaSyntaxKind::Block),
                ) {
                    (Some(ci), Some(bi)) => {
                        lemma_first_expr_child_member(self.node(*tree), 0);
                        lemma_first_child_of_kind_member(self.node(*tree), 0, LuaSyntaxKind::Block);
                        if bi < ci {
                            lemma_child_ranges_ordered(*tree, self.path@, bi, ci);
                        }
                    },
                    _ => {},
                }
            }
        }
        r
    }
}

/// A `break` statement.
pub struct LuaBreakStat {
    pub path: Vec<usize>,
}

impl LuaBreakStat {
    pub open spec fn valid(self, tree: LuaSyntaxTree) -> bool {
        path_is_node_of_kind(tree, self.path@, LuaSyntaxKind::BreakStat)
    }

    pub open spec fn node(self, tree: LuaSyntaxTree) -> LuaSyntaxNode {
        view_node(tree, self.path@)
    }

    pub fn can_cast(kind: LuaSyntaxKind) -> (r: bool)
        ensures
            r == (kind == LuaSyntaxKind::BreakStat),
    {
        kind == LuaSyntaxKind::BreakStat
    }

    pub fn cast(tree: &LuaSyntaxTree, path: Vec<usize>) -> (r: Option<LuaBreakStat>)
        ensures
            r is Some <==> path_is_node_of_kind(*tree, path@, LuaSyntaxKind::BreakStat),
            r matches Some(v) ==> v.path@ == path@,
    {
        match node_kind_at(tree, &path) {
            Some(k) => if k == LuaSyntaxKind::BreakStat {
                Some(LuaBreakStat { path })
            } else {
                None
            },
            None => None,
        }
    }

    pub fn syntax(&self) -> (r: &Vec<usize>)
        ensures
            r@ == self.path@,
    {
        &self.path
    }
}

/// A `return` statement.
pub struct LuaReturnStat {
    pub path: Vec<usize>,
}

impl LuaReturnStat {
    pub open spec fn valid(self, tree: LuaSyntaxTree) -> bool {
        path_is_node_of_kind(tree, self.path@, LuaSyntaxKind::ReturnStat)
    }

    pub open spec fn node(self, tree: LuaSyntaxTree) -> LuaSyntaxNode {
        view_node(tree, self.path@)
    }

    pub fn can_cast(kind: LuaSyntaxKind) -> (r: bool)
        ensures
            r == (kind == LuaSyntaxKind::ReturnStat),
    {
        kind == LuaSyntaxKind::ReturnStat
    }

    pub fn cast(tree: &LuaSyntaxTree, path: Vec<usize>) -> (r: Option<LuaReturnStat>)
        ensures
            r is Some <==> path_is_node_of_kind(*tree, path@, LuaSyntaxKind::ReturnStat),
            r matches Some(v) ==> v.path@ == path@,
    {
        match node_kind_at(tree, &path) {
            Some(k) => if k == LuaSyntaxKind::ReturnStat {
                Some(LuaReturnStat { path })
            } else {
                None
            },
            None => None,
        }
    }

    pub fn syntax(&self) -> (r: &Vec<usize>)
        ensures
            r@ == self.path@,
    {
        &self.path
    }

    /// The returned expressions, in order.
    pub fn get_expr_list(&self, tree: &LuaSyntaxTree) -> (r: Vec<LuaExpr>)
        requires
            self.valid(*tree),
        ensures
            r@.map_values(|e: LuaExpr| e.path_spec().last() as int) == expr_children_upto(
                self.node(*tree),
                self.node(*tree).children@.len() as int,
            ),
            forall|j: int|
                0 <= j < r@.len() ==> (#[trigger] r@[j]).valid(*tree) && r@[j].path_spec()
                    .drop_last() == self.path@ && r@[j].path_spec().len() == self.path@.len()
                    + 1,
    {
        collect_exprs(tree, &self.path)
    }
}

/// A `goto` statement.
pub struct LuaGotoStat {
    pub path: Vec<usize>,
}

impl LuaGotoStat {
    pub open spec fn valid(self, tree: LuaSyntaxTree) -> bool {
        path_is_node_of_kind(tree, self.path@, LuaSyntaxKind::GotoStat)
    }

    pub open spec fn node(self, tree: LuaSyntaxTree) -> LuaSyntaxNode {
        view_node(tree, self.path@)
    }

    pub fn can_cast(kind: LuaSyntaxKind) -> (r: bool)
        ensures
            r == (kind == LuaSyntaxKind::GotoStat),
    {
        kind == LuaSyntaxKind::GotoStat
    }

    pub fn cast(tree: &LuaSyntaxTree, path: Vec<usize>) -> (r: Option<LuaGotoStat>)
        ensures
            r is Some <==> path_is_node_of_kind(*tree, path@, LuaSyntaxKind::GotoStat),
            r matches Some(v) ==> v.path@ == path@,
    {
        match node_kind_at(tree, &path) {
            Some(k) => if k == LuaSyntaxKind::GotoStat {
                Some(LuaGotoStat { path })
            } else {
                None
            },
            None => None,
        }
    }

    pub fn syntax(&self) -> (r: &Vec<usize>)
        ensures
            r@ == self.path@,
    {
        &self.path
    }

    /// The target label's name.
    pub fn get_label_name(&self, tree: &LuaSyntaxTree) -> (r: Option<LuaNameToken>)
        requires
            self.valid(*tree),
        ensures
            r is Some <==> first_token_of_kind_from(self.node(*tree), 0, LuaTokenKind::TkName)
                is Some,
            r matches Some(t) ==> t.valid(*tree) && t.path@ == self.path@ && Some(t.tok as int)
                == first_token_of_kind_from(self.node(*tree), 0, LuaTokenKind::TkName),
    {
        name_token_child(tree, &self.path)
    }
}

/// A `::label::` statement.
pub struct LuaLabelStat {
    pub path: Vec<usize>,
}

impl LuaLabelStat {
    pub open spec fn valid(self, tree: LuaSyntaxTree) -> bool {
        path_is_node_of_kind(tree, self.path@, LuaSyntaxKind::LabelStat)
    }

    pub open spec fn node(self, tree: LuaSyntaxTree) -> LuaSyntaxNode {
        view_node(tree, self.path@)
    }

    pub fn can_cast(kind: LuaSyntaxKind) -> (r: bool)
        ensures
            r == (kind == LuaSyntaxKind::LabelStat),
    {
        kind == LuaSyntaxKind::LabelStat
    }

    pub fn cast(tree: &LuaSyntaxTree, path: Vec<usize>) -> (r: Option<LuaLabelStat>)
        ensures
            r is Some <==> path_is_node_of_kind(*tree, path@, LuaSyntaxKind::LabelStat),
            r matches Some(v) ==> v.path@ == path@,
    {
        match node_kind_at(tree, &path) {
            Some(k) => if k == LuaSyntaxKind::LabelStat {
                Some(LuaLabelStat { path })
            } else {
                None
            },
            None => None,
        }
    }

    pub fn syntax(&self) -> (r: &Vec<usize>)
        ensures
            r@ == self.path@,
    {
        &self.path
    }

    /// The label's name.
    pub fn get_label_name(&self, tree: &LuaSyntaxTree) -> (r: Option<LuaNameToken>)
        requires
            self.valid(*tree),
        ensures
            r is Some <==> first_token_of_kind_from(self.node(*tree), 0, LuaTokenKind::TkName)
                is Some,
            r matches Some(t) ==> t.valid(*tree) && t.path@ == self.path@ && Some(t.tok as int)
                == first_token_of_kind_from(self.node(*tree), 0, LuaTokenKind::TkName),
    {
        name_token_child(tree, &self.path)
    }
}

/// A lone `;` statement.
pub struct LuaEmptyStat {
    pub path: Vec<usize>,
}

impl LuaEmptyStat {
    pub open spec fn valid(self, tree: LuaSyntaxTree) -> bool {
        path_is_node_of_kind(tree, self.path@, LuaSyntaxKind::EmptyStat)
    }

    pub open spec fn node(self, tree: LuaSyntaxTree) -> LuaSyntaxNode {
        view_node(tree, self.path@)
    }

    pub fn can_cast(kind: LuaSyntaxKind) -> (r: bool)
        ensures
            r == (kind == LuaSyntaxKind::EmptyStat),
    {
        kind == LuaSyntaxKind::EmptyStat
    }

    pub fn cast(tree: &LuaSyntaxTree, path: Vec<usize>) -> (r: Option<LuaEmptyStat>)
        ensures
            r is Some <==> path_is_node_of_kind(*tree, path@, LuaSyntaxKind::EmptyStat),
            r matches Some(v) ==> v.path@ == path@,
    {
        match node_kind_at(tree, &path) {
            Some(k) => if k == LuaSyntaxKind::EmptyStat {
                Some(LuaEmptyStat { path })
            } else {
                None
            },
            None => None,
        }
    }

    pub fn syntax(&self) -> (r: &Vec<usize>)
        ensures
            r@ == self.path@,
    {
        &self.path
    }
}

/// Any statement: a closed tagged union over the concrete statement views.
pub enum LuaStat {
    LocalStat(LuaLocalStat),
    AssignStat(LuaAssignStat),
    CallExprStat(LuaCallExprStat),
    FuncStat(LuaFuncStat),
    LocalFuncStat(LuaLocalFuncStat),
    IfStat(LuaIfStat),
    WhileStat(LuaWhileStat),
    DoStat(LuaDoStat),
    ForStat(LuaForStat),
    ForRangeStat(LuaForRangeStat),
    RepeatStat(LuaRepeatStat),
    BreakStat(LuaBreakStat),
    ReturnStat(LuaReturnStat),
    GotoStat(LuaGotoStat),
    LabelStat(LuaLabelStat),
    EmptyStat(LuaEmptyStat),
}

impl LuaStat {
    pub open spec fn path_spec(self) -> Seq<usize> {
        match self {
            LuaStat::LocalStat(v) => v.path@,
            LuaStat::AssignStat(v) => v.path@,
            LuaStat::CallExprStat(v) => v.path@,
            LuaStat::FuncStat(v) => v.path@,
            LuaStat::LocalFuncStat(v) => v.path@,
            LuaStat::IfStat(v) => v.path@,
            LuaStat::WhileStat(v) => v.path@,
            LuaStat::DoStat(v) => v.path@,
            LuaStat::ForStat(v) => v.path@,
            LuaStat::ForRangeStat(v) => v.path@,
            LuaStat::RepeatStat(v) => v.path@,
            LuaStat::BreakStat(v) => v.path@,
            LuaStat::ReturnStat(v) => v.path@,
            LuaStat::GotoStat(v) => v.path@,
            LuaStat::LabelStat(v) => v.path@,
            LuaStat::EmptyStat(v) => v.path@,
        }
    }

    pub open spec fn valid(self, tree: LuaSyntaxTree) -> bool {
        match self {
            LuaStat::LocalStat(v) => v.valid(tree),
            LuaStat::AssignStat(v) => v.valid(tree),
            LuaStat::CallExprStat(v) => v.valid(tree),
            LuaStat::FuncStat(v) => v.valid(tree),
            LuaStat::LocalFuncStat(v) => v.valid(tree),
            LuaStat::IfStat(v) => v.valid(tree),
            LuaStat::WhileStat(v) => v.valid(tree),
            LuaStat::DoStat(v) => v.valid(tree),
            LuaStat::ForStat(v) => v.valid(tree),
            LuaStat::ForRangeStat(v) => v.valid(tree),
            LuaStat::RepeatStat(v) => v.valid(tree),
            LuaStat::BreakStat(v) => v.valid(tree),
            LuaStat::ReturnStat(v) => v.valid(tree),
            LuaStat::GotoStat(v) => v.valid(tree),
            LuaStat::LabelStat(v) => v.valid(tree),
            LuaStat::EmptyStat(v) => v.valid(tree),
        }
    }

    pub fn can_cast(kind: LuaSyntaxKind) -> (r: bool)
        ensures
            r == is_stat_kind(kind),
    {
        match kind {
            LuaSyntaxKind::LocalStat => true,
            LuaSyntaxKind::AssignStat => true,
            LuaSyntaxKind::CallExprStat => true,
            LuaSyntaxKind::FuncStat => true,
            LuaSyntaxKind::LocalFuncStat => true,
            LuaSyntaxKind::IfStat => true,
            LuaSyntaxKind::WhileStat => true,
            LuaSyntaxKind::DoStat => true,
            LuaSyntaxKind::ForStat => true,
            LuaSyntaxKind::ForRangeStat => true,
            LuaSyntaxKind::RepeatStat => true,
            LuaSyntaxKind::BreakStat => true,
            LuaSyntaxKind::ReturnStat => true,
            LuaSyntaxKind::GotoStat => true,
            LuaSyntaxKind::LabelStat => true,
            LuaSyntaxKind::EmptyStat => true,
            _ => false,
        }
    }

    pub fn cast(tree: &LuaSyntaxTree, path: Vec<usize>) -> (r: Option<LuaStat>)
        ensures
            r is Some <==> (match node_at(tree.root, path@) {
                Some(n) => is_stat_kind(n.kind),
                None => false,
            }),
            r matches Some(s) ==> s.path_spec() == path@ && s.valid(*tree),
    {
        match node_kind_at(tree, &path) {
            Some(k) => match k {
                LuaSyntaxKind::LocalStat => Some(LuaStat::LocalStat(LuaLocalStat { path })),
                LuaSyntaxKind::AssignStat => Some(LuaStat::AssignStat(LuaAssignStat { path })),
                LuaSyntaxKind::CallExprStat => Some(
                    LuaStat::CallExprStat(LuaCallExprStat { path }),
                ),
                LuaSyntaxKind::FuncStat => Some(LuaStat::FuncStat(LuaFuncStat { path })),
                LuaSyntaxKind::LocalFuncStat => Some(
                    LuaStat::LocalFuncStat(LuaLocalFuncStat { path }),
                ),
                LuaSyntaxKind::IfStat => Some(LuaStat::IfStat(LuaIfStat { path })),
                LuaSyntaxKind::WhileStat => Some(LuaStat::WhileStat(LuaWhileStat { path })),
                LuaSyntaxKind::DoStat => Some(LuaStat::DoStat(LuaDoStat { path })),
                LuaSyntaxKind::ForStat => Some(LuaStat::ForStat(LuaForStat { path })),
                LuaSyntaxKind::ForRangeStat => Some(
                    LuaStat::ForRangeStat(LuaForRangeStat { path }),
                ),
                LuaSyntaxKind::RepeatStat => Some(LuaStat::RepeatStat(LuaRepeatStat { path })),
                LuaSyntaxKind::BreakStat => Some(LuaStat::BreakStat(LuaBreakStat { path })),
                LuaSyntaxKind::ReturnStat => Some(LuaStat::ReturnStat(LuaReturnStat { path })),
                LuaSyntaxKind::GotoStat => Some(LuaStat::GotoStat(LuaGotoStat { path })),
                LuaSyntaxKind::LabelStat => Some(LuaStat::LabelStat(LuaLabelStat { path })),
                LuaSyntaxKind::EmptyStat => Some(LuaStat::EmptyStat(LuaEmptyStat { path })),
                _ => None,
            },
            None => None,
        }
    }

    pub fn syntax(&self) -> (r: &Vec<usize>)
        ensures
            r@ == self.path_spec(),
    {
        match self {
            LuaStat::LocalStat(v) => &v.path,
            LuaStat::AssignStat(v) => &v.path,
            LuaStat::CallExprStat(v) => &v.path,
            LuaStat::FuncStat(v) => &v.path,
            LuaStat::LocalFuncStat(v) => &v.path,
            LuaStat::IfStat(v) => &v.path,
            LuaStat::WhileStat(v) => &v.path,
            LuaStat::DoStat(v) => &v.path,
            LuaStat::ForStat(v) => &v.path,
            LuaStat::ForRangeStat(v) => &v.path,
            LuaStat::RepeatStat(v) => &v.path,
            LuaStat::BreakStat(v) => &v.path,
            LuaStat::ReturnStat(v) => &v.path,
            LuaStat::GotoStat(v) => &v.path,
            LuaStat::LabelStat(v) => &v.path,
            LuaStat::EmptyStat(v) => &v.path,
        }
    }

    /// The block the statement stands in, if its parent node is a block.
    pub fn get_parent_block(&self, tree: &LuaSyntaxTree) -> (r: Option<LuaBlock>)
        requires
            self.valid(*tree),
        ensures
            r is Some <==> (self.path_spec().len() > 0 && path_is_node_of_kind(
                *tree,
                self.path_spec().drop_last(),
                LuaSyntaxKind::Block,
            )),
            r matches Some(b) ==> b.path@ == self.path_spec().drop_last() && b.valid(*tree),
    {
        let path = self.syntax();
        if path.len() == 0 {
            return None;
        }
        let mut p = clone_path(path);
        let _ = p.pop();
        proof {
            assert(p@ =~= self.path_spec().drop_last());
        }
        LuaBlock::cast(tree, p)
    }
}

} // verus!
