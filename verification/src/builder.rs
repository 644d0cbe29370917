//! The declaration-tree builder: one forward walk of a file's statement
//! tree that creates a declaration for each binding construct, opens the
//! scopes the grammar prescribes, and collects the implicit globals —
//! assignments to names no enclosing scope declares.
//!
//! Scope-opening rules: the chunk's top-level block lives in the root
//! scope; each statement block opens a child scope; a `repeat ... until`
//! statement opens one scope spanning the whole statement, so the `until`
//! condition sees the body's locals; a function body opens a closure
//! scope holding its parameters.
//!
//! The walk is total: a binding whose token lies outside the current
//! scope's character range, or a range that cannot nest, is passed over
//! rather than failing.

use vstd::prelude::*;
use crate::kind::{LuaSyntaxKind, LuaTokenKind};
use crate::tree::{
    LuaSyntaxTree, LuaSyntaxNode, LuaSyntaxToken, view_node, node_count, node_range,
    lemma_node_at_push, lemma_child_count, child_node, child_token,
    child_token_is, first_child_of_kind_from, first_token_of_kind_from,
    lemma_first_child_of_kind_member, lemma_first_token_of_kind_member, node_at,
    lemma_node_at_wf, lemma_child_in_node_range,
    lemma_node_at_in_parent_range, node_wf, tokens_of_kind_upto, lemma_tokens_of_kind_complete,
    children_of_kind_upto, lemma_children_of_kind_complete,
};
use crate::ast::{LuaBlock, LuaChunk, LuaNameToken, LuaLocalName};
use crate::expr::{
    LuaExpr, LuaVarExpr, LuaClosureExpr, first_var_child_from, lemma_first_var_child_member,
    expr_children_upto, lemma_expr_children_complete,
};
use crate::stat::{
    LuaStat, LuaLocalStat, LuaAssignStat, LuaFuncStat, LuaLocalFuncStat, LuaForStat,
    LuaForRangeStat, LuaRepeatStat, is_stat_kind, met_assign, stat_children_upto,
    lemma_stat_children_complete, assign_vars_upto, assign_exprs_upto,
    lemma_assign_vars_complete, lemma_assign_exprs_complete,
};
use crate::decl::{FileId, LuaDecl, LuaDeclId, LuaDeclExtra, LocalAttribute};
use crate::scope::{LuaScopeId, LuaScopeKind};
use crate::decl_tree::LuaDeclarationTree;
use crate::decl_index::LuaDeclIndex;

verus! {

/// Every collected global belongs to the tree under construction.
pub open spec fn globs_ok(globals: Seq<LuaDeclId>, dtree: LuaDeclarationTree) -> bool {
    forall|j: int|
        0 <= j < globals.len() ==> (#[trigger] globals[j]).file_id == dtree.file_id && (
        globals[j].id as int) < dtree.decls@.len()
}

/// One walk step never removes anything: declarations are only appended,
/// scopes only added, and the ranges of existing scopes stand.
pub open spec fn walk_extends(d1: LuaDeclarationTree, d2: LuaDeclarationTree) -> bool {
    &&& d1.decls@.is_prefix_of(d2.decls@)
    &&& d1.scopes@.len() <= d2.scopes@.len()
    &&& forall|s: int|
        0 <= s < d1.scopes@.len() ==> (#[trigger] d2.scopes@[s]).start == d1.scopes@[s].start
            && d2.scopes@[s].end == d1.scopes@[s].end
}

/// Walk extension is transitive.
pub proof fn lemma_walk_extends_trans(
    a: LuaDeclarationTree,
    b: LuaDeclarationTree,
    c: LuaDeclarationTree,
)
    requires
        walk_extends(a, b),
        walk_extends(b, c),
    ensures
        walk_extends(a, c),
{
    assert(a.decls@ =~= b.decls@.take(a.decls@.len() as int));
    assert(b.decls@ =~= c.decls@.take(b.decls@.len() as int));
    assert(a.decls@ =~= c.decls@.take(a.decls@.len() as int));
    assert forall|s: int|
        0 <= s < a.scopes@.len() implies (#[trigger] c.scopes@[s]).start == a.scopes@[s].start
        && c.scopes@[s].end == a.scopes@[s].end by {
        assert(b.scopes@[s].start == a.scopes@[s].start);
        assert(c.scopes@[s].start == b.scopes@[s].start);
    }
}

/// Whether the walk may have stopped recording because a table reached
/// its capacity.
pub open spec fn walk_capped(d: LuaDeclarationTree) -> bool {
    d.decls@.len() >= u32::MAX || d.scopes@.len() >= u32::MAX
}

/// A declaration bearing this token's text and position, of exactly this
/// kind, stands in the tree.
pub open spec fn name_decl_recorded(
    decls: Seq<LuaDecl>,
    tok: LuaSyntaxToken,
    extra: LuaDeclExtra,
) -> bool {
    exists|di: int|
        0 <= di < decls.len() && (#[trigger] decls[di]).name@ == tok.text@ && decls[di].position
            == tok.start && decls[di].extra == extra
}

/// A parameter declaration bearing this token's text and position stands
/// in the tree.
pub open spec fn param_decl_recorded(decls: Seq<LuaDecl>, tok: LuaSyntaxToken) -> bool {
    exists|di: int|
        0 <= di < decls.len() && (#[trigger] decls[di]).name@ == tok.text@ && decls[di].position
            == tok.start && decls[di].extra is Param
}

/// An assigned name is accounted for: either a declaration of that name
/// is visible at the token's position, or an implicit global declaration
/// was recorded there and collected.
pub open spec fn target_recorded(
    d: LuaDeclarationTree,
    globals: Seq<LuaDeclId>,
    tok: LuaSyntaxToken,
) -> bool {
    ||| exists|di: int|
        0 <= di < d.decls@.len() && (#[trigger] d.decls@[di]).name@ == tok.text@ && (d.decls@[
            di
        ].position < tok.start || d.decls@[di].extra is LocalFunction)
    ||| exists|di: int|
        0 <= di < d.decls@.len() && (#[trigger] d.decls@[di]).name@ == tok.text@ && d.decls@[
            di
        ].position == tok.start && d.decls@[di].extra is Global && globals.contains(
            LuaDeclId { file_id: d.decls@[di].file_id, id: d.decls@[di].id },
        )
}

/// The attribute the walk reads off a local name's node: the name of its
/// first attribute child, `const` or `close`.
pub open spec fn spec_attrib(n: LuaSyntaxNode) -> Option<LocalAttribute> {
    match first_child_of_kind_from(n, 0, LuaSyntaxKind::Attribute) {
        None => None,
        Some(ai) => {
            let a = child_node(n, ai)->Some_0;
            match first_token_of_kind_from(a, 0, LuaTokenKind::TkName) {
                None => None,
                Some(ti) => {
                    let t = child_token(a, ti)->Some_0;
                    if t.text@ == "const"@ {
                        Some(LocalAttribute::Const)
                    } else if t.text@ == "close"@ {
                        Some(LocalAttribute::Close)
                    } else {
                        None
                    }
                },
            }
        },
    }
}

/// What one local name of a `local` statement leaves behind: a `Local`
/// declaration with the name token's text and position and the name's
/// attribute — unless the token is empty or the tree is capped.
pub open spec fn local_name_recorded(n: LuaSyntaxNode, d: LuaDeclarationTree) -> bool {
    match first_token_of_kind_from(n, 0, LuaTokenKind::TkName) {
        None => true,
        Some(ti) => {
            let tok = child_token(n, ti)->Some_0;
            ||| tok.text@.len() == 0
            ||| walk_capped(d)
            ||| name_decl_recorded(
                d.decls@,
                tok,
                LuaDeclExtra::Local { attrib: spec_attrib(n) },
            )
        },
    }
}

/// What one name token leaves behind, for the simple declaration kinds.
pub open spec fn token_recorded(
    tok: LuaSyntaxToken,
    d: LuaDeclarationTree,
    extra: LuaDeclExtra,
) -> bool {
    ||| tok.text@.len() == 0
    ||| walk_capped(d)
    ||| name_decl_recorded(d.decls@, tok, extra)
}

/// What one parameter token leaves behind.
pub open spec fn param_token_recorded(tok: LuaSyntaxToken, d: LuaDeclarationTree) -> bool {
    ||| tok.text@.len() == 0
    ||| walk_capped(d)
    ||| param_decl_recorded(d.decls@, tok)
}

/// What one assigned-name token leaves behind.
pub open spec fn target_token_recorded(
    tok: LuaSyntaxToken,
    d: LuaDeclarationTree,
    globals: Seq<LuaDeclId>,
) -> bool {
    ||| tok.text@.len() == 0
    ||| walk_capped(d)
    ||| target_recorded(d, globals, tok)
}

/// What the walk of one statement guarantees to have recorded, by
/// statement form, recursively through nested blocks and function bodies.
pub open spec fn stat_decls_recorded(
    n: LuaSyntaxNode,
    d: LuaDeclarationTree,
    globals: Seq<LuaDeclId>,
) -> bool
    decreases node_count(n)
        via stat_decls_recorded_decreases
{
    if n.kind == LuaSyntaxKind::LocalStat {
        &&& (forall|j: int|
            0 <= j < n.children@.len() ==> ((#[trigger] child_node(n, j)) matches Some(c)
                ==> (c.kind == LuaSyntaxKind::LocalName ==> local_name_recorded(c, d))))
        &&& (forall|j: int|
            0 <= j < n.children@.len() ==> ((#[trigger] child_node(n, j)) matches Some(c)
                ==> (c.kind == LuaSyntaxKind::ClosureExpr ==> closure_decls_recorded(
                c,
                d,
                globals,
            ))))
    } else if n.kind == LuaSyntaxKind::AssignStat {
        &&& (forall|j: int|
            0 <= j < n.children@.len() ==> ((#[trigger] child_node(n, j)) matches Some(c)
                ==> (c.kind == LuaSyntaxKind::NameExpr && !met_assign(n, j) ==> (match
            first_token_of_kind_from(c, 0, LuaTokenKind::TkName) {
                Some(ti) => target_token_recorded(child_token(c, ti)->Some_0, d, globals),
                None => true,
            }))))
        &&& (forall|j: int|
            0 <= j < n.children@.len() ==> ((#[trigger] child_node(n, j)) matches Some(c)
                ==> (c.kind == LuaSyntaxKind::ClosureExpr && met_assign(n, j)
                ==> closure_decls_recorded(c, d, globals))))
    } else if n.kind == LuaSyntaxKind::FuncStat {
        &&& (match first_var_child_from(n, 0) {
            Some(vi) => {
                let c = child_node(n, vi)->Some_0;
                if c.kind == LuaSyntaxKind::NameExpr {
                    match first_token_of_kind_from(c, 0, LuaTokenKind::TkName) {
                        Some(ti) => target_token_recorded(child_token(c, ti)->Some_0, d, globals),
                        None => true,
                    }
                } else {
                    true
                }
            },
            None => true,
        })
        &&& (match first_child_of_kind_from(n, 0, LuaSyntaxKind::ClosureExpr) {
            Some(ci) => closure_decls_recorded(child_node(n, ci)->Some_0, d, globals),
            None => true,
        })
    } else if n.kind == LuaSyntaxKind::LocalFuncStat {
        &&& (match first_child_of_kind_from(n, 0, LuaSyntaxKind::LocalName) {
            Some(li) => {
                let c = child_node(n, li)->Some_0;
                match first_token_of_kind_from(c, 0, LuaTokenKind::TkName) {
                    Some(ti) => token_recorded(
                        child_token(c, ti)->Some_0,
                        d,
                        LuaDeclExtra::LocalFunction,
                    ),
                    None => true,
                }
            },
            None => true,
        })
        &&& (match first_child_of_kind_from(n, 0, LuaSyntaxKind::ClosureExpr) {
            Some(ci) => closure_decls_recorded(child_node(n, ci)->Some_0, d, globals),
            None => true,
        })
    } else if n.kind == LuaSyntaxKind::IfStat || n.kind == LuaSyntaxKind::WhileStat || n.kind
        == LuaSyntaxKind::DoStat || n.kind == LuaSyntaxKind::RepeatStat {
        match first_child_of_kind_from(n, 0, LuaSyntaxKind::Block) {
            Some(bi) => block_decls_recorded(child_node(n, bi)->Some_0, d, globals),
            None => true,
        }
    } else if n.kind == LuaSyntaxKind::ForStat {
        &&& (match first_token_of_kind_from(n, 0, LuaTokenKind::TkName) {
            Some(ti) => token_recorded(child_token(n, ti)->Some_0, d, LuaDeclExtra::ForVar),
            None => true,
        })
        &&& (match first_child_of_kind_from(n, 0, LuaSyntaxKind::Block) {
            Some(bi) => block_decls_recorded(child_node(n, bi)->Some_0, d, globals),
            None => true,
        })
    } else if n.kind == LuaSyntaxKind::ForRangeStat {
        &&& (forall|j: int|
            0 <= j < n.children@.len() && #[trigger] child_token_is(n, j, LuaTokenKind::TkName)
                ==> token_recorded(child_token(n, j)->Some_0, d, LuaDeclExtra::ForRangeVar))
        &&& (match first_child_of_kind_from(n, 0, LuaSyntaxKind::Block) {
            Some(bi) => block_decls_recorded(child_node(n, bi)->Some_0, d, globals),
            None => true,
        })
    } else {
        true
    }
}

#[via_fn]
proof fn stat_decls_recorded_decreases(
    n: LuaSyntaxNode,
    d: LuaDeclarationTree,
    globals: Seq<LuaDeclId>,
) {
    assert forall|j: int|
        0 <= j < n.children@.len() && (#[trigger] child_node(n, j)) is Some implies node_count(
        child_node(n, j)->Some_0,
    ) < node_count(n) by {
        lemma_child_count(n, j);
    }
    if first_child_of_kind_from(n, 0, LuaSyntaxKind::ClosureExpr) is Some {
        lemma_first_child_of_kind_member(n, 0, LuaSyntaxKind::ClosureExpr);
    }
    if first_child_of_kind_from(n, 0, LuaSyntaxKind::Block) is Some {
        lemma_first_child_of_kind_member(n, 0, LuaSyntaxKind::Block);
    }
}

/// What the walk of one block guarantees: every statement child is
/// covered.
pub open spec fn block_decls_recorded(
    n: LuaSyntaxNode,
    d: LuaDeclarationTree,
    globals: Seq<LuaDeclId>,
) -> bool
    decreases node_count(n)
        via block_decls_recorded_decreases
{
    forall|j: int|
        0 <= j < n.children@.len() ==> ((#[trigger] child_node(n, j)) matches Some(c)
            ==> (is_stat_kind(c.kind) ==> stat_decls_recorded(c, d, globals)))
}

#[via_fn]
proof fn block_decls_recorded_decreases(
    n: LuaSyntaxNode,
    d: LuaDeclarationTree,
    globals: Seq<LuaDeclId>,
) {
    assert forall|j: int|
        0 <= j < n.children@.len() && (#[trigger] child_node(n, j)) is Some implies node_count(
        child_node(n, j)->Some_0,
    ) < node_count(n) by {
        lemma_child_count(n, j);
    }
}

/// What the walk of one function body guarantees: its parameters are
/// declared and its block is covered.
pub open spec fn closure_decls_recorded(
    n: LuaSyntaxNode,
    d: LuaDeclarationTree,
    globals: Seq<LuaDeclId>,
) -> bool
    decreases node_count(n)
        via closure_decls_recorded_decreases
{
    &&& (match first_child_of_kind_from(n, 0, LuaSyntaxKind::ParamList) {
        Some(pi) => {
            let p = child_node(n, pi)->Some_0;
            forall|j: int|
                0 <= j < p.children@.len() && #[trigger] child_token_is(
                    p,
                    j,
                    LuaTokenKind::TkName,
                ) ==> param_token_recorded(child_token(p, j)->Some_0, d)
        },
        None => true,
    })
    &&& (match first_child_of_kind_from(n, 0, LuaSyntaxKind::Block) {
        Some(bi) => block_decls_recorded(child_node(n, bi)->Some_0, d, globals),
        None => true,
    })
}

#[via_fn]
proof fn closure_decls_recorded_decreases(
    n: LuaSyntaxNode,
    d: LuaDeclarationTree,
    globals: Seq<LuaDeclId>,
) {
    if first_child_of_kind_from(n, 0, LuaSyntaxKind::Block) is Some {
        lemma_first_child_of_kind_member(n, 0, LuaSyntaxKind::Block);
        lemma_child_count(n, first_child_of_kind_from(n, 0, LuaSyntaxKind::Block)->Some_0);
    }
}

/// What one walk step records, later steps keep: the predicates are
/// monotone in the growing tree and global list.
pub proof fn lemma_stat_recorded_monotone(
    n: LuaSyntaxNode,
    d1: LuaDeclarationTree,
    g1: Seq<LuaDeclId>,
    d2: LuaDeclarationTree,
    g2: Seq<LuaDeclId>,
)
    requires
        walk_extends(d1, d2),
        g1.is_prefix_of(g2),
        stat_decls_recorded(n, d1, g1),
    ensures
        stat_decls_recorded(n, d2, g2),
    decreases node_count(n),
{
    lemma_leaf_monotone(d1, g1, d2, g2);
    assert forall|j: int|
        0 <= j < n.children@.len() && (#[trigger] child_node(n, j)) is Some implies (
    closure_decls_recorded(child_node(n, j)->Some_0, d1, g1) ==> closure_decls_recorded(
        child_node(n, j)->Some_0,
        d2,
        g2,
    )) by {
        lemma_child_count(n, j);
        if closure_decls_recorded(child_node(n, j)->Some_0, d1, g1) {
            lemma_closure_recorded_monotone(child_node(n, j)->Some_0, d1, g1, d2, g2);
        }
    }
    if n.kind == LuaSyntaxKind::FuncStat || n.kind == LuaSyntaxKind::LocalFuncStat {
        match first_child_of_kind_from(n, 0, LuaSyntaxKind::ClosureExpr) {
            Some(ci) => {
                lemma_first_child_of_kind_member(n, 0, LuaSyntaxKind::ClosureExpr);
                lemma_child_count(n, ci);
                lemma_closure_recorded_monotone(child_node(n, ci)->Some_0, d1, g1, d2, g2);
            },
            None => {},
        }
    }
    match first_child_of_kind_from(n, 0, LuaSyntaxKind::Block) {
        Some(bi) => {
            lemma_first_child_of_kind_member(n, 0, LuaSyntaxKind::Block);
            lemma_child_count(n, bi);
            if block_decls_recorded(child_node(n, bi)->Some_0, d1, g1) {
                lemma_block_recorded_monotone(child_node(n, bi)->Some_0, d1, g1, d2, g2);
            }
        },
        None => {},
    }
}

/// Monotonicity for whole blocks.
pub proof fn lemma_block_recorded_monotone(
    n: LuaSyntaxNode,
    d1: LuaDeclarationTree,
    g1: Seq<LuaDeclId>,
    d2: LuaDeclarationTree,
    g2: Seq<LuaDeclId>,
)
    requires
        walk_extends(d1, d2),
        g1.is_prefix_of(g2),
        block_decls_recorded(n, d1, g1),
    ensures
        block_decls_recorded(n, d2, g2),
    decreases node_count(n),
{
    assert forall|j: int|
        0 <= j < n.children@.len() implies ((#[trigger] child_node(n, j)) matches Some(c)
        ==> (is_stat_kind(c.kind) ==> stat_decls_recorded(c, d2, g2))) by {
        match child_node(n, j) {
            Some(c) => {
                if is_stat_kind(c.kind) {
                    lemma_child_count(n, j);
                    lemma_stat_recorded_monotone(c, d1, g1, d2, g2);
                }
            },
            None => {},
        }
    }
}

/// Monotonicity for function bodies.
pub proof fn lemma_closure_recorded_monotone(
    n: LuaSyntaxNode,
    d1: LuaDeclarationTree,
    g1: Seq<LuaDeclId>,
    d2: LuaDeclarationTree,
    g2: Seq<LuaDeclId>,
)
    requires
        walk_extends(d1, d2),
        g1.is_prefix_of(g2),
        closure_decls_recorded(n, d1, g1),
    ensures
        closure_decls_recorded(n, d2, g2),
    decreases node_count(n),
{
    lemma_leaf_monotone(d1, g1, d2, g2);
    match first_child_of_kind_from(n, 0, LuaSyntaxKind::Block) {
        Some(bi) => {
            lemma_first_child_of_kind_member(n, 0, LuaSyntaxKind::Block);
            lemma_child_count(n, bi);
            lemma_block_recorded_monotone(child_node(n, bi)->Some_0, d1, g1, d2, g2);
        },
        None => {},
    }
}

/// Monotonicity of the leaf clauses: a recorded declaration stays
/// recorded, a capped tree stays capped, a collected global stays
/// collected.
pub proof fn lemma_leaf_monotone(
    d1: LuaDeclarationTree,
    g1: Seq<LuaDeclId>,
    d2: LuaDeclarationTree,
    g2: Seq<LuaDeclId>,
)
    requires
        walk_extends(d1, d2),
        g1.is_prefix_of(g2),
    ensures
        walk_capped(d1) ==> walk_capped(d2),
        forall|tok: LuaSyntaxToken, extra: LuaDeclExtra|
            #[trigger] name_decl_recorded(d1.decls@, tok, extra) ==> name_decl_recorded(
                d2.decls@,
                tok,
                extra,
            ),
        forall|tok: LuaSyntaxToken| #[trigger] param_decl_recorded(d1.decls@, tok)
            ==> param_decl_recorded(d2.decls@, tok),
        forall|tok: LuaSyntaxToken| #[trigger] target_recorded(d1, g1, tok) ==> target_recorded(
            d2,
            g2,
            tok,
        ),
{
    assert(d1.decls@ =~= d2.decls@.take(d1.decls@.len() as int));
    assert forall|di: int| 0 <= di < d1.decls@.len() implies d1.decls@[di] == #[trigger] d2
        .decls@[di] by {
        assert(d1.decls@[di] == d2.decls@.take(d1.decls@.len() as int)[di]);
    }
    assert(g1 =~= g2.take(g1.len() as int));
    assert forall|x: LuaDeclId| #[trigger] g1.contains(x) implies g2.contains(x) by {
        let i = choose|i: int| 0 <= i < g1.len() && g1[i] == x;
        assert(g2[i] == g1[i]);
    }
}

/// Opens a child scope for the given range, clamped into the parent's
/// range; hands the parent itself back where no scope can be made.
fn open_scope(
    dtree: &mut LuaDeclarationTree,
    parent: LuaScopeId,
    kind: LuaScopeKind,
    start: usize,
    end: usize,
) -> (r: LuaScopeId)
    requires
        old(dtree).wf(),
        parent.file_id == old(dtree).file_id,
        (parent.id as int) < old(dtree).scopes@.len(),
    ensures
        final(dtree).wf(),
        final(dtree).file_id == old(dtree).file_id,
        final(dtree).decls@ == old(dtree).decls@,
        final(dtree).scopes@.len() >= old(dtree).scopes@.len(),
        walk_extends(*old(dtree), *final(dtree)),
        r.file_id == final(dtree).file_id,
        (r.id as int) < final(dtree).scopes@.len(),
        (old(dtree).scopes@[parent.id as int].start <= start && start <= end && end <= old(
            dtree,
        ).scopes@[parent.id as int].end && old(dtree).scopes@.len() < u32::MAX) ==> ({
            &&& final(dtree).scopes@.len() == old(dtree).scopes@.len() + 1
            &&& (r.id as int) == old(dtree).scopes@.len()
            &&& final(dtree).scopes@[r.id as int].kind == kind
            &&& final(dtree).scopes@[r.id as int].start == start
            &&& final(dtree).scopes@[r.id as int].end == end
        }),
        ({
            let ps = old(dtree).scopes@[parent.id as int].start;
            let pe = old(dtree).scopes@[parent.id as int].end;
            let s0 = if start < ps {
                ps
            } else {
                start
            };
            let e0 = if end > pe {
                pe
            } else {
                end
            };
            !(s0 <= e0 && old(dtree).scopes@.len() < u32::MAX) ==> (r == parent && final(dtree).scopes@[parent.id as int].start == ps && final(dtree).scopes@[parent.id as int].end
                == pe)
        }),
{
    let (ps, pe) = match dtree.get_scope(&parent) {
        Some(s) => s.get_range(),
        None => {
            return vstd::pervasive::unreached();
        },
    };
    let s0 = if start < ps {
        ps
    } else {
        start
    };
    let e0 = if end > pe {
        pe
    } else {
        end
    };
    if s0 <= e0 && dtree.scopes.len() < (u32::MAX as usize) {
        let r = dtree.create_scope(parent, kind, s0, e0);
        proof {
            assert(old(dtree).decls@ =~= dtree.decls@.take(old(dtree).decls@.len() as int));
            assert forall|si: int|
                0 <= si < old(dtree).scopes@.len() implies (#[trigger] dtree.scopes@[si]).start
                == old(dtree).scopes@[si].start && dtree.scopes@[si].end == old(
                dtree,
            ).scopes@[si].end by {
                if si != parent.id as int {
                    assert(dtree.scopes@[si] == old(dtree).scopes@[si]);
                }
            }
        }
        r
    } else {
        proof {
            assert(old(dtree).decls@ =~= dtree.decls@.take(old(dtree).decls@.len() as int));
        }
        parent
    }
}

/// Adds one declaration to the scope, provided its position lies in the
/// scope's range.
fn put_decl(
    dtree: &mut LuaDeclarationTree,
    scope: LuaScopeId,
    name: String,
    position: usize,
    extra: LuaDeclExtra,
) -> (r: Option<LuaDeclId>)
    requires
        old(dtree).wf(),
        scope.file_id == old(dtree).file_id,
        (scope.id as int) < old(dtree).scopes@.len(),
    ensures
        final(dtree).wf(),
        final(dtree).file_id == old(dtree).file_id,
        final(dtree).scopes@.len() == old(dtree).scopes@.len(),
        final(dtree).decls@.len() >= old(dtree).decls@.len(),
        walk_extends(*old(dtree), *final(dtree)),
        r matches Some(d) ==> d.file_id == final(dtree).file_id && (d.id as int) < final(dtree).decls@.len(),
        (old(dtree).scopes@[scope.id as int].start <= position && position < old(
            dtree,
        ).scopes@[scope.id as int].end && old(dtree).decls@.len() < u32::MAX) ==> ({
            &&& r is Some
            &&& final(dtree).decls@.len() == old(dtree).decls@.len() + 1
            &&& final(dtree).decls@.last().name == name
            &&& final(dtree).decls@.last().position == position
            &&& final(dtree).decls@.last().extra == extra
            &&& final(dtree).decls@.last().file_id == old(dtree).file_id
            &&& final(dtree).decls@.last().id == old(dtree).decls@.len()
            &&& r == Some(
                LuaDeclId { file_id: old(dtree).file_id, id: old(dtree).decls@.len() as u32 },
            )
        }),
        !(old(dtree).scopes@[scope.id as int].start <= position && position < old(
            dtree,
        ).scopes@[scope.id as int].end && old(dtree).decls@.len() < u32::MAX) ==> (r is None
            && *final(dtree) == *old(dtree)),
{
    let (ss, se) = match dtree.get_scope(&scope) {
        Some(s) => s.get_range(),
        None => {
            return None;
        },
    };
    if ss <= position && position < se && dtree.decls.len() < (u32::MAX as usize) {
        let fid = dtree.file_id();
        let d = LuaDecl::new(name, fid, position, extra);
        let did = dtree.add_decl(scope, d);
        proof {
            assert(dtree.decls@.last() == dtree.decls@[dtree.decls@.len() - 1]);
            assert(old(dtree).decls@ =~= dtree.decls@.take(old(dtree).decls@.len() as int));
        }
        Some(did)
    } else {
        None
    }
}

/// Resolves the token's name at its own position; where no local binding
/// is visible, records an implicit global declaration.
fn global_from_name(
    tree: &LuaSyntaxTree,
    tok: &LuaNameToken,
    dtree: &mut LuaDeclarationTree,
    globals: &mut Vec<LuaDeclId>,
    scope: LuaScopeId,
)
    requires
        tok.valid(*tree),
        old(dtree).wf(),
        scope.file_id == old(dtree).file_id,
        (scope.id as int) < old(dtree).scopes@.len(),
        globs_ok(old(globals)@, *old(dtree)),
        old(dtree).scopes@[scope.id as int].start <= tok.spec_token(*tree).start,
        tok.spec_token(*tree).start + tok.spec_token(*tree).text@.len() <= old(
            dtree,
        ).scopes@[scope.id as int].end,
    ensures
        final(dtree).wf(),
        final(dtree).file_id == old(dtree).file_id,
        final(dtree).scopes@.len() >= old(dtree).scopes@.len(),
        final(dtree).decls@.len() >= old(dtree).decls@.len(),
        globs_ok(final(globals)@, *final(dtree)),
        walk_extends(*old(dtree), *final(dtree)),
        old(globals)@.is_prefix_of(final(globals)@),
        target_token_recorded(tok.spec_token(*tree), *final(dtree), final(globals)@),
{
    let nm = tok.get_name_text(tree).clone();
    let pos = tok.get_position(tree);
    match dtree.find_local_decl(&nm, pos) {
        Some(_) => {
            proof {
                dtree.lemma_resolve_member(nm@, pos as int);
            }
        },
        None => {
            let ghost pre = *dtree;
            match put_decl(dtree, scope, nm, pos, LuaDeclExtra::Global) {
                Some(id) => {
                    globals.push(id);
                    proof {
                        let tv = tok.spec_token(*tree);
                        if tv.text@.len() > 0 && !walk_capped(*dtree) {
                            assert(pre.decls@.len() < u32::MAX);
                            assert(pre.scopes@[scope.id as int].start <= pos && pos
                                < pre.scopes@[scope.id as int].end);
                            let di = dtree.decls@.len() - 1;
                            assert(dtree.decls@[di] == dtree.decls@.last());
                            assert(dtree.decls@[di].id == pre.decls@.len() as u32);
                            assert(id.file_id == dtree.decls@[di].file_id);
                            assert(id.id == dtree.decls@[di].id);
                            assert(id == LuaDeclId {
                                file_id: dtree.decls@[di].file_id,
                                id: dtree.decls@[di].id,
                            });
                            assert(globals@[globals@.len() - 1] == id);
                            assert(globals@.contains(id));
                        }
                    }
                },
                None => {
                    proof {
                        let tv = tok.spec_token(*tree);
                        if tv.text@.len() > 0 {
                            assert(pre.decls@.len() >= u32::MAX);
                        }
                    }
                },
            }
            proof {
                assert(old(globals)@.is_prefix_of(globals@)) by {
                    assert(old(globals)@ =~= globals@.take(old(globals)@.len() as int));
                }
            }
        },
    }
    proof {
        assert(old(globals)@.is_prefix_of(globals@)) by {
            assert(old(globals)@ =~= globals@.take(old(globals)@.len() as int));
        }
    }
}

/// Walks one statement: creates its declarations and descends into its
/// blocks and function bodies.
fn walk_stat(
    tree: &LuaSyntaxTree,
    st: &LuaStat,
    dtree: &mut LuaDeclarationTree,
    globals: &mut Vec<LuaDeclId>,
    scope: LuaScopeId,
)
    requires
        st.valid(*tree),
        tree.wf(),
        old(dtree).wf(),
        scope.file_id == old(dtree).file_id,
        (scope.id as int) < old(dtree).scopes@.len(),
        old(dtree).scopes@[scope.id as int].start <= view_node(*tree, st.path_spec()).start,
        view_node(*tree, st.path_spec()).end <= old(dtree).scopes@[scope.id as int].end,
        globs_ok(old(globals)@, *old(dtree)),
    ensures
        final(dtree).wf(),
        final(dtree).file_id == old(dtree).file_id,
        final(dtree).scopes@.len() >= old(dtree).scopes@.len(),
        final(dtree).decls@.len() >= old(dtree).decls@.len(),
        globs_ok(final(globals)@, *final(dtree)),
        walk_extends(*old(dtree), *final(dtree)),
        old(globals)@.is_prefix_of(final(globals)@),
        stat_decls_recorded(view_node(*tree, st.path_spec()), *final(dtree), final(globals)@),
    decreases node_count(view_node(*tree, st.path_spec())), 1int,
{
    match st {
        LuaStat::LocalStat(ls) => {
            proof {
                assert(st.path_spec() == ls.path@);
            }
            walk_local_stat(tree, ls, dtree, globals, scope);
        },
        LuaStat::AssignStat(asn) => {
            proof {
                assert(st.path_spec() == asn.path@);
            }
            walk_assign_stat(tree, asn, dtree, globals, scope);
        },
        LuaStat::CallExprStat(_) => {},
        LuaStat::FuncStat(fs) => {
            proof {
                assert(st.path_spec() == fs.path@);
            }
            walk_func_stat(tree, fs, dtree, globals, scope);
        },
        LuaStat::LocalFuncStat(lfs) => {
            proof {
                assert(st.path_spec() == lfs.path@);
            }
            walk_local_func_stat(tree, lfs, dtree, globals, scope);
        },
        LuaStat::IfStat(is2) => {
            match is2.get_block(tree) {
                Some(b) => {
                    proof {
                        block_child_setup(tree, st.path_spec(), b.path@);
                    }
                    walk_nested_block(tree, &b, dtree, globals, scope, LuaScopeKind::Normal);
                },
                None => {},
            }
        },
        LuaStat::WhileStat(ws) => {
            match ws.get_block(tree) {
                Some(b) => {
                    proof {
                        block_child_setup(tree, st.path_spec(), b.path@);
                    }
                    walk_nested_block(tree, &b, dtree, globals, scope, LuaScopeKind::Loop);
                },
                None => {},
            }
        },
        LuaStat::DoStat(ds) => {
            match ds.get_block(tree) {
                Some(b) => {
                    proof {
                        block_child_setup(tree, st.path_spec(), b.path@);
                    }
                    walk_nested_block(tree, &b, dtree, globals, scope, LuaScopeKind::Normal);
                },
                None => {},
            }
        },
        LuaStat::ForStat(fs2) => {
            proof {
                assert(st.path_spec() == fs2.path@);
            }
            walk_for_stat(tree, fs2, dtree, globals, scope);
        },
        LuaStat::ForRangeStat(frs) => {
            proof {
                assert(st.path_spec() == frs.path@);
            }
            walk_for_range_stat(tree, frs, dtree, globals, scope);
        },
        LuaStat::RepeatStat(rs) => {
            proof {
                assert(st.path_spec() == rs.path@);
            }
            walk_repeat_stat(tree, rs, dtree, globals, scope);
        },
        LuaStat::BreakStat(_) => {},
        LuaStat::ReturnStat(_) => {},
        LuaStat::GotoStat(_) => {},
        LuaStat::LabelStat(_) => {},
        LuaStat::EmptyStat(_) => {},
    }
}

/// The facts a block child of a walked statement needs: it is well formed,
/// lies inside the statement's range, and its subtree is strictly smaller.
proof fn block_child_setup(tree: &LuaSyntaxTree, stat_path: Seq<usize>, bp: Seq<usize>)
    requires
        tree.wf(),
        node_at(tree.root, stat_path) is Some,
        node_at(tree.root, bp) is Some,
        bp.len() > 0,
        bp.drop_last() == stat_path,
    ensures
        node_count(view_node(*tree, bp)) < node_count(view_node(*tree, stat_path)),
        view_node(*tree, stat_path).start <= view_node(*tree, bp).start,
        view_node(*tree, bp).end <= view_node(*tree, stat_path).end,
        view_node(*tree, bp).start <= view_node(*tree, bp).end,
        child_node(view_node(*tree, stat_path), bp.last() as int) == Some(view_node(*tree, bp)),
{
    lemma_node_at_push(tree.root, bp.drop_last(), bp.last());
    assert(bp.drop_last().push(bp.last()) =~= bp);
    lemma_child_count(view_node(*tree, stat_path), bp.last() as int);
    lemma_node_at_wf(tree.root, stat_path);
    lemma_node_at_in_parent_range(tree.root, bp);
    lemma_node_at_wf(tree.root, bp);
    assert(node_wf(view_node(*tree, bp)));
}

/// The same facts for a name token: it lies inside its parent node, which
/// lies inside the statement.
proof fn token_in_stat_setup(tree: &LuaSyntaxTree, stat_path: Seq<usize>, tok: LuaNameToken)
    requires
        tree.wf(),
        node_at(tree.root, stat_path) is Some,
        tok.valid(*tree),
        tok.path@ == stat_path || (tok.path@.len() > 0 && tok.path@.drop_last() == stat_path),
    ensures
        view_node(*tree, stat_path).start <= tok.spec_token(*tree).start,
        tok.spec_token(*tree).start + tok.spec_token(*tree).text@.len() <= view_node(
            *tree,
            stat_path,
        ).end,
{
    lemma_node_at_wf(tree.root, tok.path@);
    lemma_child_in_node_range(view_node(*tree, tok.path@), tok.tok as int);
    if tok.path@ != stat_path {
        lemma_node_at_in_parent_range(tree.root, tok.path@);
    }
}

/// Handles one `LocalStat` statement of the walk.
#[verifier::rlimit(100)]
#[verifier::loop_isolation(false)]
fn walk_local_stat(
    tree: &LuaSyntaxTree,
    st: &LuaLocalStat,
    dtree: &mut LuaDeclarationTree,
    globals: &mut Vec<LuaDeclId>,
    scope: LuaScopeId,
)
    requires
        st.valid(*tree),
        tree.wf(),
        old(dtree).wf(),
        scope.file_id == old(dtree).file_id,
        (scope.id as int) < old(dtree).scopes@.len(),
        old(dtree).scopes@[scope.id as int].start <= view_node(*tree, st.path@).start,
        view_node(*tree, st.path@).end <= old(dtree).scopes@[scope.id as int].end,
        globs_ok(old(globals)@, *old(dtree)),
    ensures
        final(dtree).wf(),
        final(dtree).file_id == old(dtree).file_id,
        final(dtree).scopes@.len() >= old(dtree).scopes@.len(),
        final(dtree).decls@.len() >= old(dtree).decls@.len(),
        globs_ok(final(globals)@, *final(dtree)),
        walk_extends(*old(dtree), *final(dtree)),
        old(globals)@.is_prefix_of(final(globals)@),
        stat_decls_recorded(view_node(*tree, st.path@), *final(dtree), final(globals)@),
    decreases node_count(view_node(*tree, st.path@)), 0int,
{
    let ghost n0 = view_node(*tree, st.path@);
    let vals = st.get_value_exprs(tree);
    let mut vi: usize = 0;
    while vi < vals.len()
        invariant
                dtree.wf(),
                dtree.file_id == old(dtree).file_id,
                dtree.scopes@.len() >= old(dtree).scopes@.len(),
                dtree.decls@.len() >= old(dtree).decls@.len(),
                globs_ok(globals@, *dtree),
                walk_extends(*old(dtree), *dtree),
                old(globals)@.is_prefix_of(globals@),
            forall|m: int|
                0 <= m < vi ==> ((#[trigger] vals@[m]) matches LuaExpr::Closure(c)
                    ==> closure_decls_recorded(view_node(*tree, c.path@), *dtree, globals@)),
        decreases vals@.len() - vi,
    {
        let ghost pre_d = *dtree;
        let ghost pre_g = globals@;
        match &vals[vi] {
            LuaExpr::Closure(c) => {
                if c.path.len() > 0 {
                    proof {
                        block_child_setup(tree, st.path@, c.path@);
                    }
                    walk_closure(tree, c, dtree, globals, scope);
                    proof {
                        lemma_walk_extends_trans(*old(dtree), pre_d, *dtree);
                        assert(old(globals)@ =~= globals@.take(old(globals)@.len() as int)) by {
                            assert(old(globals)@ =~= pre_g.take(old(globals)@.len() as int));
                            assert(pre_g =~= globals@.take(pre_g.len() as int));
                        }
                        assert forall|m: int|
                            0 <= m < vi implies ((#[trigger] vals@[m]) matches LuaExpr::Closure(
                            c2,
                        ) ==> closure_decls_recorded(view_node(*tree, c2.path@), *dtree, globals@))
                            by {
                            match vals@[m] {
                                LuaExpr::Closure(c2) => {
                                    lemma_closure_recorded_monotone(
                                        view_node(*tree, c2.path@),
                                        pre_d,
                                        pre_g,
                                        *dtree,
                                        globals@,
                                    );
                                },
                                _ => {},
                            }
                        }
                    }
                } else {
                    proof {
                        assert(c.path@.drop_last() =~= c.path@);
                        assert(view_node(*tree, c.path@).kind == LuaSyntaxKind::ClosureExpr);
                        assert(view_node(*tree, st.path@).kind == LuaSyntaxKind::LocalStat);
                        assert(false);
                    }
                }
            },
            _ => {},
        }
        vi = vi + 1;
    }
    proof {
        assert forall|j: int|
            0 <= j < n0.children@.len() implies ((#[trigger] child_node(n0, j)) matches Some(c2)
            ==> (c2.kind == LuaSyntaxKind::ClosureExpr ==> closure_decls_recorded(
            c2,
            *dtree,
            globals@,
        ))) by {
            match child_node(n0, j) {
                Some(c2) => {
                    if c2.kind == LuaSyntaxKind::ClosureExpr {
                        lemma_expr_children_complete(n0, n0.children@.len() as int, j);
                        let m = choose|m: int|
                            0 <= m < expr_children_upto(n0, n0.children@.len() as int).len()
                                && #[trigger] expr_children_upto(
                                n0,
                                n0.children@.len() as int,
                            )[m] == j;
                        assert(vals@.map_values(|e: LuaExpr| e.path_spec().last() as int)[m]
                            == j);
                        let p = vals@[m].path_spec();
                        if p.len() == 0 {
                            assert(p.drop_last() =~= p);
                            assert(false);
                        }
                        assert(p =~= st.path@.push(j as usize));
                        lemma_node_at_push(tree.root, st.path@, j as usize);
                        match vals@[m] {
                            LuaExpr::Closure(c3) => {
                                assert(closure_decls_recorded(
                                    view_node(*tree, c3.path@),
                                    *dtree,
                                    globals@,
                                ));
                            },
                            _ => {
                                assert(false);
                            },
                        }
                    }
                },
                None => {},
            }
        }
    }
    let ghost mid_d = *dtree;
    let ghost mid_g = globals@;
    let names = st.get_local_name_list(tree);
    let mut ni: usize = 0;
    while ni < names.len()
        invariant
                dtree.wf(),
                dtree.file_id == old(dtree).file_id,
                dtree.scopes@.len() >= old(dtree).scopes@.len(),
                dtree.decls@.len() >= old(dtree).decls@.len(),
                globs_ok(globals@, *dtree),
                walk_extends(*old(dtree), *dtree),
                old(globals)@.is_prefix_of(globals@),
            walk_extends(mid_d, *dtree),
            globals@ == mid_g,
            forall|j: int|
                0 <= j < n0.children@.len() ==> ((#[trigger] child_node(n0, j)) matches Some(c2)
                    ==> (c2.kind == LuaSyntaxKind::ClosureExpr ==> closure_decls_recorded(
                    c2,
                    mid_d,
                    mid_g,
                ))),
            forall|m: int|
                0 <= m < ni ==> local_name_recorded(
                    view_node(*tree, (#[trigger] names@[m]).path@),
                    *dtree,
                ),
        decreases names@.len() - ni,
    {
        let nv = &names[ni];
        let ghost pre_d = *dtree;
        match nv.get_name_token(tree) {
            Some(tok) => {
                let nm = tok.get_name_text(tree).clone();
                let pos = tok.get_position(tree);
                proof {
                    if nv.path@.len() == 0 {
                        assert(nv.path@.drop_last() =~= nv.path@);
                        assert(view_node(*tree, nv.path@).kind == LuaSyntaxKind::LocalName);
                        assert(view_node(*tree, st.path@).kind == LuaSyntaxKind::LocalStat);
                        assert(false);
                    }
                    block_child_setup(tree, st.path@, nv.path@);
                    token_in_stat_setup(tree, nv.path@, tok);
                }
                let attrib = match nv.get_attrib(tree) {
                    Some(a) => {
                        proof {
                            lemma_first_child_of_kind_member(
                                view_node(*tree, nv.path@),
                                0,
                                LuaSyntaxKind::Attribute,
                            );
                            lemma_node_at_push(tree.root, nv.path@, a.path@.last());
                            assert(a.path@.drop_last().push(a.path@.last()) =~= a.path@);
                            if first_token_of_kind_from(
                                view_node(*tree, a.path@),
                                0,
                                LuaTokenKind::TkName,
                            ) is Some {
                                lemma_first_token_of_kind_member(
                                    view_node(*tree, a.path@),
                                    0,
                                    LuaTokenKind::TkName,
                                );
                            }
                        }
                        let got = if a.is_const(tree) {
                            Some(LocalAttribute::Const)
                        } else if a.is_close(tree) {
                            Some(LocalAttribute::Close)
                        } else {
                            None
                        };
                        proof {
                            assert(got == spec_attrib(view_node(*tree, nv.path@)));
                        }
                        got
                    },
                    None => {
                        proof {
                            assert(None::<LocalAttribute> == spec_attrib(
                                view_node(*tree, nv.path@),
                            ));
                        }
                        None
                    },
                };
                let _ = put_decl(dtree, scope, nm, pos, LuaDeclExtra::Local { attrib });
                proof {
                    lemma_walk_extends_trans(*old(dtree), pre_d, *dtree);
                    lemma_walk_extends_trans(mid_d, pre_d, *dtree);
                    lemma_leaf_monotone(pre_d, globals@, *dtree, globals@);
                    assert(local_name_recorded(view_node(*tree, nv.path@), *dtree)) by {
                        let tv = tok.spec_token(*tree);
                        if tv.text@.len() > 0 && !walk_capped(*dtree) {
                            assert(pre_d.decls@.len() < u32::MAX);
                            assert(dtree.decls@.last() == dtree.decls@[dtree.decls@.len() - 1]);
                        }
                    }
                }
            },
            None => {
                proof {
                    assert(local_name_recorded(view_node(*tree, nv.path@), *dtree));
                }
            },
        }
        ni = ni + 1;
        proof {
            assert forall|m: int|
                0 <= m < ni implies local_name_recorded(
                view_node(*tree, (#[trigger] names@[m]).path@),
                *dtree,
            ) by {
                lemma_leaf_monotone(pre_d, globals@, *dtree, globals@);
            }
        }
    }
    proof {
        assert forall|j: int|
            0 <= j < n0.children@.len() implies ((#[trigger] child_node(n0, j)) matches Some(c2)
            ==> (c2.kind == LuaSyntaxKind::LocalName ==> local_name_recorded(c2, *dtree))) by {
            match child_node(n0, j) {
                Some(c2) => {
                    if c2.kind == LuaSyntaxKind::LocalName {
                        lemma_children_of_kind_complete(
                            n0,
                            n0.children@.len() as int,
                            LuaSyntaxKind::LocalName,
                            j,
                        );
                        let m = choose|m: int|
                            0 <= m < children_of_kind_upto(
                                n0,
                                n0.children@.len() as int,
                                LuaSyntaxKind::LocalName,
                            ).len() && #[trigger] children_of_kind_upto(
                                n0,
                                n0.children@.len() as int,
                                LuaSyntaxKind::LocalName,
                            )[m] == j;
                        assert(names@.map_values(|v: LuaLocalName| v.path@.last() as int)[m]
                            == j);
                        let p = names@[m].path@;
                        if p.len() == 0 {
                            assert(p.drop_last() =~= p);
                            assert(false);
                        }
                        assert(p =~= st.path@.push(j as usize));
                        lemma_node_at_push(tree.root, st.path@, j as usize);
                    }
                },
                None => {},
            }
        }
        assert forall|j: int|
            0 <= j < n0.children@.len() implies ((#[trigger] child_node(n0, j)) matches Some(c2)
            ==> (c2.kind == LuaSyntaxKind::ClosureExpr ==> closure_decls_recorded(
            c2,
            *dtree,
            globals@,
        ))) by {
            match child_node(n0, j) {
                Some(c2) => {
                    if c2.kind == LuaSyntaxKind::ClosureExpr {
                        lemma_closure_recorded_monotone(c2, mid_d, mid_g, *dtree, globals@);
                    }
                },
                None => {},
            }
        }
    }
}

/// Handles one `AssignStat` statement of the walk.
#[verifier::rlimit(100)]
#[verifier::loop_isolation(false)]
fn walk_assign_stat(
    tree: &LuaSyntaxTree,
    st: &LuaAssignStat,
    dtree: &mut LuaDeclarationTree,
    globals: &mut Vec<LuaDeclId>,
    scope: LuaScopeId,
)
    requires
        st.valid(*tree),
        tree.wf(),
        old(dtree).wf(),
        scope.file_id == old(dtree).file_id,
        (scope.id as int) < old(dtree).scopes@.len(),
        old(dtree).scopes@[scope.id as int].start <= view_node(*tree, st.path@).start,
        view_node(*tree, st.path@).end <= old(dtree).scopes@[scope.id as int].end,
        globs_ok(old(globals)@, *old(dtree)),
    ensures
        final(dtree).wf(),
        final(dtree).file_id == old(dtree).file_id,
        final(dtree).scopes@.len() >= old(dtree).scopes@.len(),
        final(dtree).decls@.len() >= old(dtree).decls@.len(),
        globs_ok(final(globals)@, *final(dtree)),
        walk_extends(*old(dtree), *final(dtree)),
        old(globals)@.is_prefix_of(final(globals)@),
        stat_decls_recorded(view_node(*tree, st.path@), *final(dtree), final(globals)@),
    decreases node_count(view_node(*tree, st.path@)), 0int,
{
    let ghost n0 = view_node(*tree, st.path@);
    let (vars, exprs) = st.get_expr_list(tree);
    let mut vi: usize = 0;
    while vi < exprs.len()
        invariant
                dtree.wf(),
                dtree.file_id == old(dtree).file_id,
                dtree.scopes@.len() >= old(dtree).scopes@.len(),
                dtree.decls@.len() >= old(dtree).decls@.len(),
                globs_ok(globals@, *dtree),
                walk_extends(*old(dtree), *dtree),
                old(globals)@.is_prefix_of(globals@),
            forall|m: int|
                0 <= m < vi ==> ((#[trigger] exprs@[m]) matches LuaExpr::Closure(c)
                    ==> closure_decls_recorded(view_node(*tree, c.path@), *dtree, globals@)),
        decreases exprs@.len() - vi,
    {
        let ghost pre_d = *dtree;
        let ghost pre_g = globals@;
        match &exprs[vi] {
            LuaExpr::Closure(c) => {
                if c.path.len() > 0 {
                    proof {
                        block_child_setup(tree, st.path@, c.path@);
                    }
                    walk_closure(tree, c, dtree, globals, scope);
                    proof {
                        lemma_walk_extends_trans(*old(dtree), pre_d, *dtree);
                        assert(old(globals)@ =~= globals@.take(old(globals)@.len() as int)) by {
                            assert(old(globals)@ =~= pre_g.take(old(globals)@.len() as int));
                            assert(pre_g =~= globals@.take(pre_g.len() as int));
                        }
                        assert forall|m: int|
                            0 <= m < vi implies ((#[trigger] exprs@[m]) matches LuaExpr::Closure(
                            c2,
                        ) ==> closure_decls_recorded(view_node(*tree, c2.path@), *dtree, globals@))
                            by {
                            match exprs@[m] {
                                LuaExpr::Closure(c2) => {
                                    lemma_closure_recorded_monotone(
                                        view_node(*tree, c2.path@),
                                        pre_d,
                                        pre_g,
                                        *dtree,
                                        globals@,
                                    );
                                },
                                _ => {},
                            }
                        }
                    }
                } else {
                    proof {
                        assert(c.path@.drop_last() =~= c.path@);
                        assert(view_node(*tree, c.path@).kind == LuaSyntaxKind::ClosureExpr);
                        assert(view_node(*tree, st.path@).kind == LuaSyntaxKind::AssignStat);
                        assert(false);
                    }
                }
            },
            _ => {},
        }
        vi = vi + 1;
    }
    proof {
        assert forall|j: int|
            0 <= j < n0.children@.len() implies ((#[trigger] child_node(n0, j)) matches Some(c2)
            ==> (c2.kind == LuaSyntaxKind::ClosureExpr && met_assign(n0, j)
            ==> closure_decls_recorded(c2, *dtree, globals@))) by {
            match child_node(n0, j) {
                Some(c2) => {
                    if c2.kind == LuaSyntaxKind::ClosureExpr && met_assign(n0, j) {
                        lemma_assign_exprs_complete(n0, n0.children@.len() as int, j);
                        let m = choose|m: int|
                            0 <= m < assign_exprs_upto(n0, n0.children@.len() as int).len()
                                && #[trigger] assign_exprs_upto(
                                n0,
                                n0.children@.len() as int,
                            )[m] == j;
                        assert(exprs@.map_values(|e: LuaExpr| e.path_spec().last() as int)[m]
                            == j);
                        let p = exprs@[m].path_spec();
                        if p.len() == 0 {
                            assert(p.drop_last() =~= p);
                            assert(false);
                        }
                        assert(p =~= st.path@.push(j as usize));
                        lemma_node_at_push(tree.root, st.path@, j as usize);
                        match exprs@[m] {
                            LuaExpr::Closure(c3) => {},
                            _ => {
                                assert(false);
                            },
                        }
                    }
                },
                None => {},
            }
        }
    }
    let ghost mid_d = *dtree;
    let ghost mid_g = globals@;
    let mut ti: usize = 0;
    while ti < vars.len()
        invariant
                dtree.wf(),
                dtree.file_id == old(dtree).file_id,
                dtree.scopes@.len() >= old(dtree).scopes@.len(),
                dtree.decls@.len() >= old(dtree).decls@.len(),
                globs_ok(globals@, *dtree),
                walk_extends(*old(dtree), *dtree),
                old(globals)@.is_prefix_of(globals@),
            walk_extends(mid_d, *dtree),
            mid_g.is_prefix_of(globals@),
            forall|j: int|
                0 <= j < n0.children@.len() ==> ((#[trigger] child_node(n0, j)) matches Some(c2)
                    ==> (c2.kind == LuaSyntaxKind::ClosureExpr && met_assign(n0, j)
                    ==> closure_decls_recorded(c2, mid_d, mid_g))),
            forall|m: int|
                0 <= m < ti ==> ((#[trigger] vars@[m]) matches LuaVarExpr::Name(ne) ==> (match
                first_token_of_kind_from(view_node(*tree, ne.path@), 0, LuaTokenKind::TkName) {
                    Some(ti2) => target_token_recorded(
                        child_token(view_node(*tree, ne.path@), ti2)->Some_0,
                        *dtree,
                        globals@,
                    ),
                    None => true,
                })),
        decreases vars@.len() - ti,
    {
        let ghost pre_d = *dtree;
        let ghost pre_g = globals@;
        match &vars[ti] {
            LuaVarExpr::Name(ne) => {
                match ne.get_name_token(tree) {
                    Some(tok) => {
                        proof {
                            if ne.path@.len() == 0 {
                                assert(ne.path@.drop_last() =~= ne.path@);
                                assert(view_node(*tree, ne.path@).kind
                                    == LuaSyntaxKind::NameExpr);
                                assert(view_node(*tree, st.path@).kind
                                    == LuaSyntaxKind::AssignStat);
                                assert(false);
                            }
                            block_child_setup(tree, st.path@, ne.path@);
                            token_in_stat_setup(tree, ne.path@, tok);
                        }
                        global_from_name(tree, &tok, dtree, globals, scope);
                        proof {
                            lemma_walk_extends_trans(*old(dtree), pre_d, *dtree);
                            lemma_walk_extends_trans(mid_d, pre_d, *dtree);
                            assert(old(globals)@ =~= globals@.take(
                                old(globals)@.len() as int,
                            )) by {
                                assert(old(globals)@ =~= pre_g.take(old(globals)@.len() as int));
                                assert(pre_g =~= globals@.take(pre_g.len() as int));
                            }
                            assert(mid_g =~= globals@.take(mid_g.len() as int)) by {
                                assert(mid_g =~= pre_g.take(mid_g.len() as int));
                                assert(pre_g =~= globals@.take(pre_g.len() as int));
                            }
                        }
                    },
                    None => {},
                }
            },
            LuaVarExpr::Index(_) => {},
        }
        ti = ti + 1;
        proof {
            lemma_leaf_monotone(pre_d, pre_g, *dtree, globals@);
        }
    }
    proof {
        assert forall|j: int|
            0 <= j < n0.children@.len() implies ((#[trigger] child_node(n0, j)) matches Some(c2)
            ==> (c2.kind == LuaSyntaxKind::NameExpr && !met_assign(n0, j) ==> (match
        first_token_of_kind_from(c2, 0, LuaTokenKind::TkName) {
            Some(ti2) => target_token_recorded(child_token(c2, ti2)->Some_0, *dtree, globals@),
            None => true,
        }))) by {
            match child_node(n0, j) {
                Some(c2) => {
                    if c2.kind == LuaSyntaxKind::NameExpr && !met_assign(n0, j) {
                        lemma_assign_vars_complete(n0, n0.children@.len() as int, j);
                        let m = choose|m: int|
                            0 <= m < assign_vars_upto(n0, n0.children@.len() as int).len()
                                && #[trigger] assign_vars_upto(
                                n0,
                                n0.children@.len() as int,
                            )[m] == j;
                        assert(vars@.map_values(|v: LuaVarExpr| v.path_spec().last() as int)[m]
                            == j);
                        let p = vars@[m].path_spec();
                        if p.len() == 0 {
                            assert(p.drop_last() =~= p);
                            assert(false);
                        }
                        assert(p =~= st.path@.push(j as usize));
                        lemma_node_at_push(tree.root, st.path@, j as usize);
                        match vars@[m] {
                            LuaVarExpr::Name(ne2) => {},
                            _ => {
                                assert(false);
                            },
                        }
                    }
                },
                None => {},
            }
        }
        assert forall|j: int|
            0 <= j < n0.children@.len() implies ((#[trigger] child_node(n0, j)) matches Some(c2)
            ==> (c2.kind == LuaSyntaxKind::ClosureExpr && met_assign(n0, j)
            ==> closure_decls_recorded(c2, *dtree, globals@))) by {
            match child_node(n0, j) {
                Some(c2) => {
                    if c2.kind == LuaSyntaxKind::ClosureExpr && met_assign(n0, j) {
                        lemma_closure_recorded_monotone(c2, mid_d, mid_g, *dtree, globals@);
                    }
                },
                None => {},
            }
        }
    }
}

/// Handles one `FuncStat` statement of the walk.
#[verifier::rlimit(100)]
fn walk_func_stat(
    tree: &LuaSyntaxTree,
    st: &LuaFuncStat,
    dtree: &mut LuaDeclarationTree,
    globals: &mut Vec<LuaDeclId>,
    scope: LuaScopeId,
)
    requires
        st.valid(*tree),
        tree.wf(),
        old(dtree).wf(),
        scope.file_id == old(dtree).file_id,
        (scope.id as int) < old(dtree).scopes@.len(),
        old(dtree).scopes@[scope.id as int].start <= view_node(*tree, st.path@).start,
        view_node(*tree, st.path@).end <= old(dtree).scopes@[scope.id as int].end,
        globs_ok(old(globals)@, *old(dtree)),
    ensures
        final(dtree).wf(),
        final(dtree).file_id == old(dtree).file_id,
        final(dtree).scopes@.len() >= old(dtree).scopes@.len(),
        final(dtree).decls@.len() >= old(dtree).decls@.len(),
        globs_ok(final(globals)@, *final(dtree)),
        walk_extends(*old(dtree), *final(dtree)),
        old(globals)@.is_prefix_of(final(globals)@),
        stat_decls_recorded(view_node(*tree, st.path@), *final(dtree), final(globals)@),
    decreases node_count(view_node(*tree, st.path@)), 0int,
{
    let ghost n0 = view_node(*tree, st.path@);
    match st.get_func_name(tree) {
        Some(LuaVarExpr::Name(ne)) => {
            match ne.get_name_token(tree) {
                Some(tok) => {
                    proof {
                        if ne.path@.len() == 0 {
                            assert(ne.path@.drop_last() =~= ne.path@);
                            assert(false);
                        }
                        block_child_setup(tree, st.path@, ne.path@);
                        token_in_stat_setup(tree, ne.path@, tok);
                    }
                    global_from_name(tree, &tok, dtree, globals, scope);
                },
                None => {},
            }
        },
        _ => {},
    }
    {
        let ghost pre_d = *dtree;
        let ghost pre_g = globals@;
            match st.get_closure(tree) {
                Some(c) => {
                    if c.path.len() > 0 {
                        proof {
                            block_child_setup(tree, st.path@, c.path@);
                        }
                        walk_closure(tree, &c, dtree, globals, scope);
                        proof {
                            lemma_walk_extends_trans(*old(dtree), pre_d, *dtree);
                            assert(old(globals)@ =~= globals@.take(
                                old(globals)@.len() as int,
                            )) by {
                                assert(old(globals)@ =~= pre_g.take(old(globals)@.len() as int));
                                assert(pre_g =~= globals@.take(pre_g.len() as int));
                            }
                        }
                    } else {
                        proof {
                            assert(c.path@.drop_last() =~= c.path@);
                            assert(view_node(*tree, c.path@).kind == LuaSyntaxKind::ClosureExpr);
                            assert(view_node(*tree, st.path@).kind == LuaSyntaxKind::FuncStat);
                            assert(false);
                        }
                    }
                },
                None => {},
            }
    }
    proof {
        let dd = *dtree;
        let gg = globals@;
        match first_var_child_from(n0, 0) {
            Some(vi) => {
                lemma_first_var_child_member(n0, 0);
                let c = child_node(n0, vi)->Some_0;
                if c.kind == LuaSyntaxKind::NameExpr {
                    match first_token_of_kind_from(c, 0, LuaTokenKind::TkName) {
                        Some(ti2) => {
                            lemma_node_at_push(tree.root, st.path@, vi as usize);
                            assert(st.path@.push(vi as usize).drop_last() =~= st.path@);
                            assert(target_token_recorded(
                                child_token(c, ti2)->Some_0,
                                dd,
                                gg,
                            ));
                        },
                        None => {},
                    }
                }
            },
            None => {},
        }
        match first_child_of_kind_from(n0, 0, LuaSyntaxKind::ClosureExpr) {
            Some(ci) => {
                lemma_first_child_of_kind_member(n0, 0, LuaSyntaxKind::ClosureExpr);
                lemma_node_at_push(tree.root, st.path@, ci as usize);
                assert(st.path@.push(ci as usize).drop_last() =~= st.path@);
                assert(closure_decls_recorded(child_node(n0, ci)->Some_0, dd, gg));
            },
            None => {},
        }
    }
}

/// Handles one `LocalFuncStat` statement of the walk.
#[verifier::rlimit(100)]
fn walk_local_func_stat(
    tree: &LuaSyntaxTree,
    st: &LuaLocalFuncStat,
    dtree: &mut LuaDeclarationTree,
    globals: &mut Vec<LuaDeclId>,
    scope: LuaScopeId,
)
    requires
        st.valid(*tree),
        tree.wf(),
        old(dtree).wf(),
        scope.file_id == old(dtree).file_id,
        (scope.id as int) < old(dtree).scopes@.len(),
        old(dtree).scopes@[scope.id as int].start <= view_node(*tree, st.path@).start,
        view_node(*tree, st.path@).end <= old(dtree).scopes@[scope.id as int].end,
        globs_ok(old(globals)@, *old(dtree)),
    ensures
        final(dtree).wf(),
        final(dtree).file_id == old(dtree).file_id,
        final(dtree).scopes@.len() >= old(dtree).scopes@.len(),
        final(dtree).decls@.len() >= old(dtree).decls@.len(),
        globs_ok(final(globals)@, *final(dtree)),
        walk_extends(*old(dtree), *final(dtree)),
        old(globals)@.is_prefix_of(final(globals)@),
        stat_decls_recorded(view_node(*tree, st.path@), *final(dtree), final(globals)@),
    decreases node_count(view_node(*tree, st.path@)), 0int,
{
    let ghost n0 = view_node(*tree, st.path@);
    match st.get_local_name(tree) {
        Some(ln) => {
            match ln.get_name_token(tree) {
                Some(tok) => {
                    let nm = tok.get_name_text(tree).clone();
                    let pos = tok.get_position(tree);
                    proof {
                        if ln.path@.len() == 0 {
                            assert(ln.path@.drop_last() =~= ln.path@);
                            assert(false);
                        }
                        block_child_setup(tree, st.path@, ln.path@);
                        token_in_stat_setup(tree, ln.path@, tok);
                    }
                    let ghost pre_d = *dtree;
                    let _ = put_decl(dtree, scope, nm, pos, LuaDeclExtra::LocalFunction);
                    proof {
                        lemma_walk_extends_trans(*old(dtree), pre_d, *dtree);
                        let tv = tok.spec_token(*tree);
                        if tv.text@.len() > 0 && !walk_capped(*dtree) {
                            assert(dtree.decls@.last() == dtree.decls@[dtree.decls@.len() - 1]);
                        }
                        assert(token_recorded(tv, *dtree, LuaDeclExtra::LocalFunction));
                    }
                },
                None => {},
            }
        },
        None => {},
    }
    let ghost mid_d = *dtree;
    let ghost mid_g = globals@;
    {
        let ghost pre_d = *dtree;
        let ghost pre_g = globals@;
            match st.get_closure(tree) {
                Some(c) => {
                    if c.path.len() > 0 {
                        proof {
                            block_child_setup(tree, st.path@, c.path@);
                        }
                        walk_closure(tree, &c, dtree, globals, scope);
                        proof {
                            lemma_walk_extends_trans(*old(dtree), pre_d, *dtree);
                            assert(old(globals)@ =~= globals@.take(
                                old(globals)@.len() as int,
                            )) by {
                                assert(old(globals)@ =~= pre_g.take(old(globals)@.len() as int));
                                assert(pre_g =~= globals@.take(pre_g.len() as int));
                            }
                        }
                    } else {
                        proof {
                            assert(c.path@.drop_last() =~= c.path@);
                            assert(view_node(*tree, c.path@).kind == LuaSyntaxKind::ClosureExpr);
                            assert(view_node(*tree, st.path@).kind == LuaSyntaxKind::LocalFuncStat);
                            assert(false);
                        }
                    }
                },
                None => {},
            }
    }
    proof {
        lemma_leaf_monotone(mid_d, mid_g, *dtree, globals@);
        match first_child_of_kind_from(n0, 0, LuaSyntaxKind::LocalName) {
            Some(li) => {
                lemma_first_child_of_kind_member(n0, 0, LuaSyntaxKind::LocalName);
                lemma_node_at_push(tree.root, st.path@, li as usize);
                assert(st.path@.push(li as usize).drop_last() =~= st.path@);
            },
            None => {},
        }
        match first_child_of_kind_from(n0, 0, LuaSyntaxKind::ClosureExpr) {
            Some(ci) => {
                lemma_first_child_of_kind_member(n0, 0, LuaSyntaxKind::ClosureExpr);
                lemma_node_at_push(tree.root, st.path@, ci as usize);
                assert(st.path@.push(ci as usize).drop_last() =~= st.path@);
                assert(closure_decls_recorded(child_node(n0, ci)->Some_0, *dtree, globals@));
            },
            None => {},
        }
    }
}

/// Handles one `ForStat` statement of the walk.
#[verifier::rlimit(100)]
fn walk_for_stat(
    tree: &LuaSyntaxTree,
    st: &LuaForStat,
    dtree: &mut LuaDeclarationTree,
    globals: &mut Vec<LuaDeclId>,
    scope: LuaScopeId,
)
    requires
        st.valid(*tree),
        tree.wf(),
        old(dtree).wf(),
        scope.file_id == old(dtree).file_id,
        (scope.id as int) < old(dtree).scopes@.len(),
        old(dtree).scopes@[scope.id as int].start <= view_node(*tree, st.path@).start,
        view_node(*tree, st.path@).end <= old(dtree).scopes@[scope.id as int].end,
        globs_ok(old(globals)@, *old(dtree)),
    ensures
        final(dtree).wf(),
        final(dtree).file_id == old(dtree).file_id,
        final(dtree).scopes@.len() >= old(dtree).scopes@.len(),
        final(dtree).decls@.len() >= old(dtree).decls@.len(),
        globs_ok(final(globals)@, *final(dtree)),
        walk_extends(*old(dtree), *final(dtree)),
        old(globals)@.is_prefix_of(final(globals)@),
        stat_decls_recorded(view_node(*tree, st.path@), *final(dtree), final(globals)@),
    decreases node_count(view_node(*tree, st.path@)), 0int,
{
    let ghost n0 = view_node(*tree, st.path@);
    proof {
        lemma_node_at_wf(tree.root, st.path@);
    }
    let (ss, se) = node_range(tree, st.syntax());
    let sc = open_scope(dtree, scope, LuaScopeKind::Loop, ss, se);
    proof {
        assert(dtree.scopes@[sc.id as int].start <= n0.start);
        assert(n0.end <= dtree.scopes@[sc.id as int].end);
    }
    match st.get_var_name(tree) {
        Some(tok) => {
            let nm = tok.get_name_text(tree).clone();
            let pos = tok.get_position(tree);
            proof {
                token_in_stat_setup(tree, st.path@, tok);
            }
            let ghost pre_d = *dtree;
            let _ = put_decl(dtree, sc, nm, pos, LuaDeclExtra::ForVar);
            proof {
                lemma_walk_extends_trans(*old(dtree), pre_d, *dtree);
                let tv = tok.spec_token(*tree);
                if tv.text@.len() > 0 && !walk_capped(*dtree) {
                    assert(dtree.decls@.last() == dtree.decls@[dtree.decls@.len() - 1]);
                }
                assert(token_recorded(tv, *dtree, LuaDeclExtra::ForVar));
            }
        },
        None => {},
    }
    let ghost mid_d = *dtree;
    let ghost mid_g = globals@;
    match st.get_block(tree) {
        Some(b) => {
            if b.path.len() > 0 {
                proof {
                    block_child_setup(tree, st.path@, b.path@);
                    assert(dtree.scopes@[sc.id as int].start <= n0.start);
                    assert(n0.end <= dtree.scopes@[sc.id as int].end);
                }
                let ghost pre_d = *dtree;
                walk_block(tree, &b, dtree, globals, sc);
                proof {
                    lemma_walk_extends_trans(*old(dtree), pre_d, *dtree);
                }
            } else {
                proof {
                    assert(b.path@.drop_last() =~= b.path@);
                    assert(view_node(*tree, b.path@).kind == LuaSyntaxKind::Block);
                    assert(view_node(*tree, st.path@).kind == LuaSyntaxKind::ForStat);
                    assert(false);
                }
            }
        },
        None => {},
    }
    proof {
        lemma_leaf_monotone(mid_d, mid_g, *dtree, globals@);
        assert(old(globals)@ =~= globals@.take(old(globals)@.len() as int)) by {
            assert(old(globals)@ =~= mid_g.take(old(globals)@.len() as int));
            assert(mid_g =~= globals@.take(mid_g.len() as int));
        }
        match first_child_of_kind_from(n0, 0, LuaSyntaxKind::Block) {
            Some(bi) => {
                lemma_first_child_of_kind_member(n0, 0, LuaSyntaxKind::Block);
                lemma_node_at_push(tree.root, st.path@, bi as usize);
                assert(st.path@.push(bi as usize).drop_last() =~= st.path@);
            },
            None => {},
        }
    }
}

/// Handles one `ForRangeStat` statement of the walk.
#[verifier::rlimit(100)]
#[verifier::loop_isolation(false)]
fn walk_for_range_stat(
    tree: &LuaSyntaxTree,
    st: &LuaForRangeStat,
    dtree: &mut LuaDeclarationTree,
    globals: &mut Vec<LuaDeclId>,
    scope: LuaScopeId,
)
    requires
        st.valid(*tree),
        tree.wf(),
        old(dtree).wf(),
        scope.file_id == old(dtree).file_id,
        (scope.id as int) < old(dtree).scopes@.len(),
        old(dtree).scopes@[scope.id as int].start <= view_node(*tree, st.path@).start,
        view_node(*tree, st.path@).end <= old(dtree).scopes@[scope.id as int].end,
        globs_ok(old(globals)@, *old(dtree)),
    ensures
        final(dtree).wf(),
        final(dtree).file_id == old(dtree).file_id,
        final(dtree).scopes@.len() >= old(dtree).scopes@.len(),
        final(dtree).decls@.len() >= old(dtree).decls@.len(),
        globs_ok(final(globals)@, *final(dtree)),
        walk_extends(*old(dtree), *final(dtree)),
        old(globals)@.is_prefix_of(final(globals)@),
        stat_decls_recorded(view_node(*tree, st.path@), *final(dtree), final(globals)@),
    decreases node_count(view_node(*tree, st.path@)), 0int,
{
    let ghost n0 = view_node(*tree, st.path@);
    proof {
        lemma_node_at_wf(tree.root, st.path@);
    }
    let (ss, se) = node_range(tree, st.syntax());
    let sc = open_scope(dtree, scope, LuaScopeKind::Loop, ss, se);
    proof {
        assert(dtree.scopes@[sc.id as int].start <= n0.start);
        assert(n0.end <= dtree.scopes@[sc.id as int].end);
    }
    let toks = st.get_var_name_list(tree);
    let mut ti: usize = 0;
    while ti < toks.len()
        invariant
                dtree.wf(),
                dtree.file_id == old(dtree).file_id,
                dtree.scopes@.len() >= old(dtree).scopes@.len(),
                dtree.decls@.len() >= old(dtree).decls@.len(),
                globs_ok(globals@, *dtree),
                walk_extends(*old(dtree), *dtree),
                old(globals)@.is_prefix_of(globals@),
            sc.file_id == dtree.file_id,
            (sc.id as int) < dtree.scopes@.len(),
            dtree.scopes@[sc.id as int].start <= n0.start,
            n0.end <= dtree.scopes@[sc.id as int].end,
            forall|m: int|
                0 <= m < ti ==> token_recorded(
                    (#[trigger] toks@[m]).spec_token(*tree),
                    *dtree,
                    LuaDeclExtra::ForRangeVar,
                ),
        decreases toks@.len() - ti,
    {
        let tok = &toks[ti];
        let nm = tok.get_name_text(tree).clone();
        let pos = tok.get_position(tree);
        proof {
            token_in_stat_setup(tree, st.path@, *tok);
        }
        let ghost pre_d = *dtree;
        let _ = put_decl(dtree, sc, nm, pos, LuaDeclExtra::ForRangeVar);
        ti = ti + 1;
        proof {
            lemma_walk_extends_trans(*old(dtree), pre_d, *dtree);
            lemma_leaf_monotone(pre_d, globals@, *dtree, globals@);
            let tv = tok.spec_token(*tree);
            if tv.text@.len() > 0 && !walk_capped(*dtree) {
                assert(dtree.decls@.last() == dtree.decls@[dtree.decls@.len() - 1]);
            }
            assert(token_recorded(tv, *dtree, LuaDeclExtra::ForRangeVar));
        }
    }
    let ghost mid_d = *dtree;
    let ghost mid_g = globals@;
    match st.get_block(tree) {
        Some(b) => {
            if b.path.len() > 0 {
                proof {
                    block_child_setup(tree, st.path@, b.path@);
                    assert(dtree.scopes@[sc.id as int].start <= n0.start);
                    assert(n0.end <= dtree.scopes@[sc.id as int].end);
                }
                let ghost pre_d = *dtree;
                walk_block(tree, &b, dtree, globals, sc);
                proof {
                    lemma_walk_extends_trans(*old(dtree), pre_d, *dtree);
                }
            } else {
                proof {
                    assert(b.path@.drop_last() =~= b.path@);
                    assert(view_node(*tree, b.path@).kind == LuaSyntaxKind::Block);
                    assert(view_node(*tree, st.path@).kind == LuaSyntaxKind::ForRangeStat);
                    assert(false);
                }
            }
        },
        None => {},
    }
    proof {
        lemma_leaf_monotone(mid_d, mid_g, *dtree, globals@);
        assert(old(globals)@ =~= globals@.take(old(globals)@.len() as int)) by {
            assert(old(globals)@ =~= mid_g.take(old(globals)@.len() as int));
            assert(mid_g =~= globals@.take(mid_g.len() as int));
        }
        assert forall|j: int|
            0 <= j < n0.children@.len() && #[trigger] child_token_is(
                n0,
                j,
                LuaTokenKind::TkName,
            ) implies token_recorded(
            child_token(n0, j)->Some_0,
            *dtree,
            LuaDeclExtra::ForRangeVar,
        ) by {
            lemma_tokens_of_kind_complete(n0, n0.children@.len() as int, LuaTokenKind::TkName, j);
            let m = choose|m: int|
                0 <= m < tokens_of_kind_upto(
                    n0,
                    n0.children@.len() as int,
                    LuaTokenKind::TkName,
                ).len() && #[trigger] tokens_of_kind_upto(
                    n0,
                    n0.children@.len() as int,
                    LuaTokenKind::TkName,
                )[m] == j;
            assert(toks@.map_values(|t: LuaNameToken| t.tok as int)[m] == j);
            assert(toks@[m].spec_token(*tree) == child_token(n0, j)->Some_0);
        }
        match first_child_of_kind_from(n0, 0, LuaSyntaxKind::Block) {
            Some(bi) => {
                lemma_first_child_of_kind_member(n0, 0, LuaSyntaxKind::Block);
                lemma_node_at_push(tree.root, st.path@, bi as usize);
                assert(st.path@.push(bi as usize).drop_last() =~= st.path@);
            },
            None => {},
        }
    }
}

/// Handles one `RepeatStat` statement of the walk.
#[verifier::rlimit(100)]
fn walk_repeat_stat(
    tree: &LuaSyntaxTree,
    st: &LuaRepeatStat,
    dtree: &mut LuaDeclarationTree,
    globals: &mut Vec<LuaDeclId>,
    scope: LuaScopeId,
)
    requires
        st.valid(*tree),
        tree.wf(),
        old(dtree).wf(),
        scope.file_id == old(dtree).file_id,
        (scope.id as int) < old(dtree).scopes@.len(),
        old(dtree).scopes@[scope.id as int].start <= view_node(*tree, st.path@).start,
        view_node(*tree, st.path@).end <= old(dtree).scopes@[scope.id as int].end,
        globs_ok(old(globals)@, *old(dtree)),
    ensures
        final(dtree).wf(),
        final(dtree).file_id == old(dtree).file_id,
        final(dtree).scopes@.len() >= old(dtree).scopes@.len(),
        final(dtree).decls@.len() >= old(dtree).decls@.len(),
        globs_ok(final(globals)@, *final(dtree)),
        walk_extends(*old(dtree), *final(dtree)),
        old(globals)@.is_prefix_of(final(globals)@),
        stat_decls_recorded(view_node(*tree, st.path@), *final(dtree), final(globals)@),
    decreases node_count(view_node(*tree, st.path@)), 0int,
{
    let ghost n0 = view_node(*tree, st.path@);
    proof {
        lemma_node_at_wf(tree.root, st.path@);
    }
    let (ss, se) = node_range(tree, st.syntax());
    let sc = open_scope(dtree, scope, LuaScopeKind::Repeat, ss, se);
    proof {
        assert(dtree.scopes@[sc.id as int].start <= n0.start);
        assert(n0.end <= dtree.scopes@[sc.id as int].end);
    }
    match st.get_block(tree) {
        Some(b) => {
            if b.path.len() > 0 {
                proof {
                    block_child_setup(tree, st.path@, b.path@);
                    assert(dtree.scopes@[sc.id as int].start <= n0.start);
                    assert(n0.end <= dtree.scopes@[sc.id as int].end);
                }
                let ghost pre_d = *dtree;
                walk_block(tree, &b, dtree, globals, sc);
                proof {
                    lemma_walk_extends_trans(*old(dtree), pre_d, *dtree);
                }
            } else {
                proof {
                    assert(b.path@.drop_last() =~= b.path@);
                    assert(view_node(*tree, b.path@).kind == LuaSyntaxKind::Block);
                    assert(view_node(*tree, st.path@).kind == LuaSyntaxKind::RepeatStat);
                    assert(false);
                }
            }
        },
        None => {},
    }
    proof {
        match first_child_of_kind_from(n0, 0, LuaSyntaxKind::Block) {
            Some(bi) => {
                lemma_first_child_of_kind_member(n0, 0, LuaSyntaxKind::Block);
                lemma_node_at_push(tree.root, st.path@, bi as usize);
                assert(st.path@.push(bi as usize).drop_last() =~= st.path@);
            },
            None => {},
        }
    }
}

/// Opens a child scope of the given kind over a block's range and walks
/// the block into it.
fn walk_nested_block(
    tree: &LuaSyntaxTree,
    b: &LuaBlock,
    dtree: &mut LuaDeclarationTree,
    globals: &mut Vec<LuaDeclId>,
    scope: LuaScopeId,
    kind: LuaScopeKind,
)
    requires
        b.valid(*tree),
        tree.wf(),
        old(dtree).wf(),
        scope.file_id == old(dtree).file_id,
        (scope.id as int) < old(dtree).scopes@.len(),
        old(dtree).scopes@[scope.id as int].start <= view_node(*tree, b.path@).start,
        view_node(*tree, b.path@).end <= old(dtree).scopes@[scope.id as int].end,
        globs_ok(old(globals)@, *old(dtree)),
    ensures
        final(dtree).wf(),
        final(dtree).file_id == old(dtree).file_id,
        final(dtree).scopes@.len() >= old(dtree).scopes@.len(),
        final(dtree).decls@.len() >= old(dtree).decls@.len(),
        globs_ok(final(globals)@, *final(dtree)),
        walk_extends(*old(dtree), *final(dtree)),
        old(globals)@.is_prefix_of(final(globals)@),
        block_decls_recorded(view_node(*tree, b.path@), *final(dtree), final(globals)@),
    decreases node_count(view_node(*tree, b.path@)), 1int,
{
    proof {
        lemma_node_at_wf(tree.root, b.path@);
    }
    let (bs, be) = node_range(tree, b.syntax());
    let sc = open_scope(dtree, scope, kind, bs, be);
    proof {
        assert(dtree.scopes@[sc.id as int].start <= view_node(*tree, b.path@).start);
        assert(view_node(*tree, b.path@).end <= dtree.scopes@[sc.id as int].end);
    }
    let ghost pre_d = *dtree;
    walk_block(tree, b, dtree, globals, sc);
    proof {
        lemma_walk_extends_trans(*old(dtree), pre_d, *dtree);
    }
}

/// Walks a block's statements, in source order, into the given scope.
#[verifier::rlimit(100)]
#[verifier::loop_isolation(false)]
fn walk_block(
    tree: &LuaSyntaxTree,
    block: &LuaBlock,
    dtree: &mut LuaDeclarationTree,
    globals: &mut Vec<LuaDeclId>,
    scope: LuaScopeId,
)
    requires
        block.valid(*tree),
        tree.wf(),
        old(dtree).wf(),
        scope.file_id == old(dtree).file_id,
        (scope.id as int) < old(dtree).scopes@.len(),
        old(dtree).scopes@[scope.id as int].start <= view_node(*tree, block.path@).start,
        view_node(*tree, block.path@).end <= old(dtree).scopes@[scope.id as int].end,
        globs_ok(old(globals)@, *old(dtree)),
    ensures
        final(dtree).wf(),
        final(dtree).file_id == old(dtree).file_id,
        final(dtree).scopes@.len() >= old(dtree).scopes@.len(),
        final(dtree).decls@.len() >= old(dtree).decls@.len(),
        globs_ok(final(globals)@, *final(dtree)),
        walk_extends(*old(dtree), *final(dtree)),
        old(globals)@.is_prefix_of(final(globals)@),
        block_decls_recorded(view_node(*tree, block.path@), *final(dtree), final(globals)@),
    decreases node_count(view_node(*tree, block.path@)), 0int,
{
    let ghost n0 = view_node(*tree, block.path@);
    let stats = block.get_stats(tree);
    let mut i: usize = 0;
    while i < stats.len()
        invariant
                dtree.wf(),
                dtree.file_id == old(dtree).file_id,
                dtree.scopes@.len() >= old(dtree).scopes@.len(),
                dtree.decls@.len() >= old(dtree).decls@.len(),
                globs_ok(globals@, *dtree),
                walk_extends(*old(dtree), *dtree),
                old(globals)@.is_prefix_of(globals@),
            forall|m: int|
                0 <= m < i ==> stat_decls_recorded(
                    view_node(*tree, (#[trigger] stats@[m]).path_spec()),
                    *dtree,
                    globals@,
                ),
        decreases stats@.len() - i,
    {
        let st = &stats[i];
        let p = st.syntax();
        let ghost pre_d = *dtree;
        let ghost pre_g = globals@;
        if p.len() > 0 {
            proof {
                let sp = stats@[i as int].path_spec();
                assert(sp.drop_last() == block.path@);
                assert(sp.drop_last().push(sp.last()) =~= sp);
                lemma_node_at_push(tree.root, sp.drop_last(), sp.last());
                lemma_child_count(view_node(*tree, block.path@), sp.last() as int);
                lemma_node_at_wf(tree.root, block.path@);
                lemma_node_at_in_parent_range(tree.root, sp);
            }
            walk_stat(tree, st, dtree, globals, scope);
            proof {
                lemma_walk_extends_trans(*old(dtree), pre_d, *dtree);
                assert(old(globals)@ =~= globals@.take(old(globals)@.len() as int)) by {
                    assert(old(globals)@ =~= pre_g.take(old(globals)@.len() as int));
                    assert(pre_g =~= globals@.take(pre_g.len() as int));
                }
            }
        } else {
            proof {
                let sp = stats@[i as int].path_spec();
                assert(sp.drop_last() =~= sp);
                assert(is_stat_kind(view_node(*tree, sp).kind));
                assert(view_node(*tree, block.path@).kind == LuaSyntaxKind::Block);
                assert(!is_stat_kind(LuaSyntaxKind::Block));
                assert(false);
            }
        }
        i = i + 1;
        proof {
            assert forall|m: int|
                0 <= m < i implies stat_decls_recorded(
                view_node(*tree, (#[trigger] stats@[m]).path_spec()),
                *dtree,
                globals@,
            ) by {
                if m < i - 1 {
                    lemma_stat_recorded_monotone(
                        view_node(*tree, stats@[m].path_spec()),
                        pre_d,
                        pre_g,
                        *dtree,
                        globals@,
                    );
                }
            }
        }
    }
    proof {
        assert forall|j: int|
            0 <= j < n0.children@.len() implies ((#[trigger] child_node(n0, j)) matches Some(c)
            ==> (is_stat_kind(c.kind) ==> stat_decls_recorded(c, *dtree, globals@))) by {
            match child_node(n0, j) {
                Some(c) => {
                    if is_stat_kind(c.kind) {
                        lemma_stat_children_complete(n0, n0.children@.len() as int, j);
                        let m = choose|m: int|
                            0 <= m < stat_children_upto(n0, n0.children@.len() as int).len()
                                && #[trigger] stat_children_upto(
                                n0,
                                n0.children@.len() as int,
                            )[m] == j;
                        assert(stats@.map_values(|s: LuaStat| s.path_spec().last() as int)[m]
                            == j);
                        let sp = stats@[m].path_spec();
                        if sp.len() == 0 {
                            assert(sp.drop_last() =~= sp);
                            assert(false);
                        }
                        assert(sp =~= block.path@.push(j as usize));
                        lemma_node_at_push(tree.root, block.path@, j as usize);
                    }
                },
                None => {},
            }
        }
    }
}

/// Walks a function body: a closure scope over the function's range, its
/// parameters declared inside, then the body's statements.
#[verifier::rlimit(100)]
#[verifier::loop_isolation(false)]
fn walk_closure(
    tree: &LuaSyntaxTree,
    clo: &LuaClosureExpr,
    dtree: &mut LuaDeclarationTree,
    globals: &mut Vec<LuaDeclId>,
    scope: LuaScopeId,
)
    requires
        clo.valid(*tree),
        tree.wf(),
        old(dtree).wf(),
        scope.file_id == old(dtree).file_id,
        (scope.id as int) < old(dtree).scopes@.len(),
        old(dtree).scopes@[scope.id as int].start <= view_node(*tree, clo.path@).start,
        view_node(*tree, clo.path@).end <= old(dtree).scopes@[scope.id as int].end,
        globs_ok(old(globals)@, *old(dtree)),
    ensures
        final(dtree).wf(),
        final(dtree).file_id == old(dtree).file_id,
        final(dtree).scopes@.len() >= old(dtree).scopes@.len(),
        final(dtree).decls@.len() >= old(dtree).decls@.len(),
        globs_ok(final(globals)@, *final(dtree)),
        walk_extends(*old(dtree), *final(dtree)),
        old(globals)@.is_prefix_of(final(globals)@),
        closure_decls_recorded(view_node(*tree, clo.path@), *final(dtree), final(globals)@),
    decreases node_count(view_node(*tree, clo.path@)), 1int,
{
    let ghost n0 = view_node(*tree, clo.path@);
    proof {
        lemma_node_at_wf(tree.root, clo.path@);
    }
    let (cs, ce) = node_range(tree, clo.syntax());
    let sc = open_scope(dtree, scope, LuaScopeKind::Closure, cs, ce);
    proof {
        assert(dtree.scopes@[sc.id as int].start <= n0.start);
        assert(n0.end <= dtree.scopes@[sc.id as int].end);
    }
    match clo.get_param_list(tree) {
        Some(pl) => {
            proof {
                if pl.path@.len() == 0 {
                    assert(pl.path@.drop_last() =~= pl.path@);
                    assert(view_node(*tree, pl.path@).kind == LuaSyntaxKind::ParamList);
                    assert(view_node(*tree, clo.path@).kind == LuaSyntaxKind::ClosureExpr);
                    assert(false);
                }
                block_child_setup(tree, clo.path@, pl.path@);
            }
            let ghost np = view_node(*tree, pl.path@);
            let params = pl.get_params(tree);
            let mut pi: usize = 0;
            while pi < params.len()
                invariant
                dtree.wf(),
                dtree.file_id == old(dtree).file_id,
                dtree.scopes@.len() >= old(dtree).scopes@.len(),
                dtree.decls@.len() >= old(dtree).decls@.len(),
                globs_ok(globals@, *dtree),
                walk_extends(*old(dtree), *dtree),
                old(globals)@.is_prefix_of(globals@),
                    sc.file_id == dtree.file_id,
                    (sc.id as int) < dtree.scopes@.len(),
                    dtree.scopes@[sc.id as int].start <= n0.start,
                    n0.end <= dtree.scopes@[sc.id as int].end,
                    forall|m: int|
                        0 <= m < pi ==> param_token_recorded(
                            (#[trigger] params@[m]).spec_token(*tree),
                            *dtree,
                        ),
                decreases params@.len() - pi,
            {
                let tok = &params[pi];
                let nm = tok.get_name_text(tree).clone();
                let pos = tok.get_position(tree);
                proof {
                    token_in_stat_setup(tree, pl.path@, *tok);
                }
                let idx = if pi < (u32::MAX as usize) {
                    pi as u32
                } else {
                    0
                };
                let ghost pre_d = *dtree;
                let _ = put_decl(dtree, sc, nm, pos, LuaDeclExtra::Param { idx });
                pi = pi + 1;
                proof {
                    lemma_walk_extends_trans(*old(dtree), pre_d, *dtree);
                    lemma_leaf_monotone(pre_d, globals@, *dtree, globals@);
                    let tv = tok.spec_token(*tree);
                    if tv.text@.len() > 0 && !walk_capped(*dtree) {
                        assert(dtree.decls@.last() == dtree.decls@[dtree.decls@.len() - 1]);
                    }
                    assert(param_token_recorded(tv, *dtree));
                }
            }
            proof {
                assert forall|j: int|
                    0 <= j < np.children@.len() && #[trigger] child_token_is(
                        np,
                        j,
                        LuaTokenKind::TkName,
                    ) implies param_token_recorded(child_token(np, j)->Some_0, *dtree) by {
                    lemma_tokens_of_kind_complete(
                        np,
                        np.children@.len() as int,
                        LuaTokenKind::TkName,
                        j,
                    );
                    let m = choose|m: int|
                        0 <= m < tokens_of_kind_upto(
                            np,
                            np.children@.len() as int,
                            LuaTokenKind::TkName,
                        ).len() && #[trigger] tokens_of_kind_upto(
                            np,
                            np.children@.len() as int,
                            LuaTokenKind::TkName,
                        )[m] == j;
                    assert(params@.map_values(|t: LuaNameToken| t.tok as int)[m] == j);
                    assert(params@[m].spec_token(*tree) == child_token(np, j)->Some_0);
                }
            }
        },
        None => {},
    }
    let ghost mid_d = *dtree;
    let ghost mid_g = globals@;
    match clo.get_block(tree) {
        Some(b) => {
            if b.path.len() > 0 {
                proof {
                    block_child_setup(tree, clo.path@, b.path@);
                    assert(dtree.scopes@[sc.id as int].start <= n0.start);
                    assert(n0.end <= dtree.scopes@[sc.id as int].end);
                }
                let ghost pre_d = *dtree;
                walk_block(tree, &b, dtree, globals, sc);
                proof {
                    lemma_walk_extends_trans(*old(dtree), pre_d, *dtree);
                }
            } else {
                proof {
                    assert(b.path@.drop_last() =~= b.path@);
                    assert(view_node(*tree, b.path@).kind == LuaSyntaxKind::Block);
                    assert(view_node(*tree, clo.path@).kind == LuaSyntaxKind::ClosureExpr);
                    assert(false);
                }
            }
        },
        None => {},
    }
    proof {
        lemma_leaf_monotone(mid_d, mid_g, *dtree, globals@);
        assert(old(globals)@ =~= globals@.take(old(globals)@.len() as int)) by {
            assert(old(globals)@ =~= mid_g.take(old(globals)@.len() as int));
            assert(mid_g =~= globals@.take(mid_g.len() as int));
        }
        match first_child_of_kind_from(n0, 0, LuaSyntaxKind::ParamList) {
            Some(pi2) => {
                lemma_first_child_of_kind_member(n0, 0, LuaSyntaxKind::ParamList);
                lemma_node_at_push(tree.root, clo.path@, pi2 as usize);
                assert(clo.path@.push(pi2 as usize).drop_last() =~= clo.path@);
            },
            None => {},
        }
        match first_child_of_kind_from(n0, 0, LuaSyntaxKind::Block) {
            Some(bi) => {
                lemma_first_child_of_kind_member(n0, 0, LuaSyntaxKind::Block);
                lemma_node_at_push(tree.root, clo.path@, bi as usize);
                assert(clo.path@.push(bi as usize).drop_last() =~= clo.path@);
            },
            None => {},
        }
    }
}

/// Builds a file's declaration tree by one forward walk of its chunk, and
/// collects the implicit global declarations found on the way.
pub fn build_decl_tree(tree: &LuaSyntaxTree, chunk: &LuaChunk, file_id: FileId) -> (r: (
    LuaDeclarationTree,
    Vec<LuaDeclId>,
))
    requires
        tree.wf(),
        chunk.valid(*tree),
    ensures
        r.0.wf(),
        r.0.file_id == file_id,
        globs_ok(r.1@, r.0),
        (match first_child_of_kind_from(view_node(*tree, chunk.path@), 0, LuaSyntaxKind::Block) {
            Some(bi) => block_decls_recorded(
                child_node(view_node(*tree, chunk.path@), bi)->Some_0,
                r.0,
                r.1@,
            ),
            None => true,
        }),
{
    proof {
        lemma_node_at_wf(tree.root, chunk.path@);
    }
    let (cs, ce) = node_range(tree, chunk.syntax());
    let e0 = if ce >= cs {
        ce
    } else {
        cs
    };
    let mut dtree = LuaDeclarationTree::new(file_id, cs, e0);
    let root = LuaScopeId { file_id, id: 0 };
    let mut globals: Vec<LuaDeclId> = Vec::new();
    match chunk.get_block(tree) {
        Some(b) => {
            if b.path.len() > 0 {
                proof {
                    block_child_setup(tree, chunk.path@, b.path@);
                }
                walk_block(tree, &b, &mut dtree, &mut globals, root);
            } else {
                proof {
                    assert(b.path@.drop_last() =~= b.path@);
                    assert(view_node(*tree, b.path@).kind == LuaSyntaxKind::Block);
                    assert(view_node(*tree, chunk.path@).kind == LuaSyntaxKind::Chunk);
                    assert(false);
                }
            }
        },
        None => {},
    }
    (dtree, globals)
}

/// Indexes one file: builds its declaration tree, registers every global
/// found under its name, and stores the tree in the index.
pub fn index_file(
    index: &mut LuaDeclIndex,
    tree: &LuaSyntaxTree,
    chunk: &LuaChunk,
    file_id: FileId,
)
    requires
        old(index).wf(),
        tree.wf(),
        chunk.valid(*tree),
    ensures
        final(index).wf(),
        final(index).spec_get_decl_tree(file_id) is Some,
        ({
            let t = final(index).spec_get_decl_tree(file_id)->Some_0;
            &&& t.wf()
            &&& t.file_id == file_id
            &&& (match first_child_of_kind_from(
                view_node(*tree, chunk.path@),
                0,
                LuaSyntaxKind::Block,
            ) {
                Some(bi) => exists|g: Seq<LuaDeclId>|
                    block_decls_recorded(
                        child_node(view_node(*tree, chunk.path@), bi)->Some_0,
                        t,
                        g,
                    ),
                None => true,
            })
        }),
{
    let (dtree, globals) = build_decl_tree(tree, chunk, file_id);
    let mut i: usize = 0;
    while i < globals.len()
        invariant
            index.wf(),
            globs_ok(globals@, dtree),
        decreases globals@.len() - i,
    {
        let gid = globals[i];
        match dtree.get_decl(&gid) {
            Some(d) => {
                let nm = d.get_name().clone();
                index.add_global_decl(nm.as_str(), gid);
            },
            None => {},
        }
        i = i + 1;
    }
    let ghost pre = *index;
    let ghost built = dtree;
    index.add_decl_tree(dtree);
    proof {
        match pre.tree_idx_from(0, file_id) {
            Some(k) => {
                pre.lemma_tree_idx_member(0, file_id);
                assert forall|j: int| 0 <= j < k implies (#[trigger] index.decl_trees@[j]).file_id
                    != file_id by {
                    pre.lemma_tree_idx_first(0, file_id, j);
                    assert(index.decl_trees@[j] == pre.decl_trees@[j]);
                }
                assert(index.decl_trees@[k] == built);
                index.lemma_tree_idx_exact(0, file_id, k);
            },
            None => {
                let k = index.decl_trees@.len() - 1;
                assert forall|j: int| 0 <= j < k implies (#[trigger] index.decl_trees@[j]).file_id
                    != file_id by {
                    pre.lemma_tree_idx_none(0, file_id, j);
                    assert(index.decl_trees@[j] == pre.decl_trees@[j]);
                }
                assert(index.decl_trees@[k] == built);
                index.lemma_tree_idx_exact(0, file_id, k);
            },
        }
        assert(index.spec_get_decl_tree(file_id) == Some(built));
        match first_child_of_kind_from(view_node(*tree, chunk.path@), 0, LuaSyntaxKind::Block) {
            Some(bi) => {
                assert(block_decls_recorded(
                    child_node(view_node(*tree, chunk.path@), bi)->Some_0,
                    built,
                    globals@,
                ));
            },
            None => {},
        }
    }
}

} // verus!
