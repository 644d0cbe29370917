//! Tests of the syntax-tree substrate and the typed view layer.

use emmylua_core::kind::{LuaSyntaxKind, LuaTokenKind};
use emmylua_core::tree::{LuaSyntaxPart, LuaSyntaxTree};
use emmylua_core::ast::{LuaChunk, LuaTableField, LuaCallArgList};
use emmylua_core::expr::{LuaExpr, LuaVarExpr};
use emmylua_core::stat::LuaStat;

fn t(k: LuaTokenKind, s: &str) -> LuaSyntaxPart {
    LuaSyntaxPart::Token(k, s.to_string())
}

fn n(k: LuaSyntaxKind, cs: Vec<LuaSyntaxPart>) -> LuaSyntaxPart {
    LuaSyntaxPart::Node(k, cs)
}

fn ws() -> LuaSyntaxPart {
    t(LuaTokenKind::TkWhitespace, " ")
}

fn name_expr(s: &str) -> LuaSyntaxPart {
    n(LuaSyntaxKind::NameExpr, vec![t(LuaTokenKind::TkName, s)])
}

fn num(s: &str) -> LuaSyntaxPart {
    n(LuaSyntaxKind::LiteralExpr, vec![t(LuaTokenKind::TkNumber, s)])
}

fn chunk_tree(stats: Vec<LuaSyntaxPart>) -> LuaSyntaxTree {
    LuaSyntaxTree::assemble(LuaSyntaxKind::Chunk, vec![n(LuaSyntaxKind::Block, stats)])
}

fn chunk_view(tree: &LuaSyntaxTree) -> LuaChunk {
    LuaChunk::cast(tree, Vec::new()).expect("root is a chunk")
}

#[test]
fn round_trip_reassembles_source() {
    // `a, b.c = f(), 2` as one assignment statement.
    let assign = n(
        LuaSyntaxKind::AssignStat,
        vec![
            name_expr("a"),
            t(LuaTokenKind::TkComma, ","),
            ws(),
            n(
                LuaSyntaxKind::IndexExpr,
                vec![name_expr("b"), t(LuaTokenKind::TkDot, "."), t(LuaTokenKind::TkName, "c")],
            ),
            ws(),
            t(LuaTokenKind::TkAssign, "="),
            ws(),
            n(
                LuaSyntaxKind::CallExpr,
                vec![
                    name_expr("f"),
                    n(
                        LuaSyntaxKind::CallArgList,
                        vec![
                            t(LuaTokenKind::TkLeftParen, "("),
                            t(LuaTokenKind::TkRightParen, ")"),
                        ],
                    ),
                ],
            ),
            t(LuaTokenKind::TkComma, ","),
            ws(),
            num("2"),
        ],
    );
    let tree = chunk_tree(vec![assign]);
    // Losslessness: the tree's text is exactly the concatenation of the
    // leaf tokens it was assembled from, in tree order.
    assert_eq!(tree.text, "a, b.c = f(), 2");
    assert_eq!(tree.root.start, 0);
    assert_eq!(tree.root.end, 15);
}

#[test]
fn assignment_splitting_targets_and_values() {
    let assign = n(
        LuaSyntaxKind::AssignStat,
        vec![
            name_expr("a"),
            t(LuaTokenKind::TkComma, ","),
            ws(),
            n(
                LuaSyntaxKind::IndexExpr,
                vec![name_expr("b"), t(LuaTokenKind::TkDot, "."), t(LuaTokenKind::TkName, "c")],
            ),
            ws(),
            t(LuaTokenKind::TkAssign, "="),
            ws(),
            n(
                LuaSyntaxKind::CallExpr,
                vec![
                    name_expr("f"),
                    n(
                        LuaSyntaxKind::CallArgList,
                        vec![
                            t(LuaTokenKind::TkLeftParen, "("),
                            t(LuaTokenKind::TkRightParen, ")"),
                        ],
                    ),
                ],
            ),
            t(LuaTokenKind::TkComma, ","),
            ws(),
            num("2"),
        ],
    );
    let tree = chunk_tree(vec![assign]);
    let chunk = chunk_view(&tree);
    let block = chunk.get_block(&tree).expect("chunk has a block");
    let stats = block.get_stats(&tree);
    assert_eq!(stats.len(), 1);
    let asn = match &stats[0] {
        LuaStat::AssignStat(a) => a,
        _ => panic!("expected an assignment statement"),
    };
    let (vars, exprs) = asn.get_expr_list(&tree);
    // Targets: exactly `a` and `b.c`, in that order.
    assert_eq!(vars.len(), 2);
    assert!(matches!(vars[0], LuaVarExpr::Name(_)));
    assert!(matches!(vars[1], LuaVarExpr::Index(_)));
    assert!(vars[0].syntax().last() < vars[1].syntax().last());
    // Values: exactly `f()` and `2`, in that order.
    assert_eq!(exprs.len(), 2);
    assert!(matches!(exprs[0], LuaExpr::Call(_)));
    assert!(matches!(exprs[1], LuaExpr::Literal(_)));
}

#[test]
fn cast_refuses_wrong_kind() {
    let tree = chunk_tree(vec![n(
        LuaSyntaxKind::EmptyStat,
        vec![t(LuaTokenKind::TkSemicolon, ";")],
    )]);
    // The root is a chunk, not a table field.
    assert!(LuaTableField::cast(&tree, Vec::new()).is_none());
    assert!(LuaChunk::cast(&tree, Vec::new()).is_some());
    // A path out of the tree casts to nothing.
    assert!(LuaChunk::cast(&tree, vec![7, 7]).is_none());
    assert!(LuaChunk::can_cast(LuaSyntaxKind::Chunk));
    assert!(!LuaChunk::can_cast(LuaSyntaxKind::Block));
}

#[test]
fn call_arg_list_sugar_form() {
    // `f "x"`: a call whose single bare argument has no parentheses.
    let call = n(
        LuaSyntaxKind::CallExpr,
        vec![
            name_expr("f"),
            ws(),
            n(
                LuaSyntaxKind::CallArgList,
                vec![n(
                    LuaSyntaxKind::LiteralExpr,
                    vec![t(LuaTokenKind::TkString, "\"x\"")],
                )],
            ),
        ],
    );
    let tree = chunk_tree(vec![n(LuaSyntaxKind::CallExprStat, vec![call])]);
    // Walk down: chunk -> block -> call-expr-stat -> call-expr -> arg list.
    let args = LuaCallArgList::cast(&tree, vec![0, 0, 0, 2]).expect("arg list");
    assert!(args.is_single_arg_no_parens(&tree));
    assert!(args.get_single_arg_expr(&tree).is_some());
    assert_eq!(args.get_args(&tree).len(), 1);

    // `f(1)`: the parenthesized form.
    let call2 = n(
        LuaSyntaxKind::CallExpr,
        vec![
            name_expr("f"),
            n(
                LuaSyntaxKind::CallArgList,
                vec![
                    t(LuaTokenKind::TkLeftParen, "("),
                    num("1"),
                    t(LuaTokenKind::TkRightParen, ")"),
                ],
            ),
        ],
    );
    let tree2 = chunk_tree(vec![n(LuaSyntaxKind::CallExprStat, vec![call2])]);
    let args2 = LuaCallArgList::cast(&tree2, vec![0, 0, 0, 1]).expect("arg list");
    assert!(!args2.is_single_arg_no_parens(&tree2));
}

#[test]
fn table_field_key_and_value() {
    // `{ x = 1, 2 }`: one keyed field, one positional field.
    let keyed = n(
        LuaSyntaxKind::TableFieldAssign,
        vec![name_expr("x"), ws(), t(LuaTokenKind::TkAssign, "="), ws(), num("1")],
    );
    let positional = n(LuaSyntaxKind::TableFieldValue, vec![num("2")]);
    let table = n(
        LuaSyntaxKind::TableExpr,
        vec![
            t(LuaTokenKind::TkLeftBrace, "{"),
            ws(),
            keyed,
            t(LuaTokenKind::TkComma, ","),
            ws(),
            positional,
            ws(),
            t(LuaTokenKind::TkRightBrace, "}"),
        ],
    );
    let tree = chunk_tree(vec![n(
        LuaSyntaxKind::LocalStat,
        vec![
            t(LuaTokenKind::TkLocal, "local"),
            ws(),
            n(LuaSyntaxKind::LocalName, vec![t(LuaTokenKind::TkName, "t")]),
            ws(),
            t(LuaTokenKind::TkAssign, "="),
            ws(),
            table,
        ],
    )]);
    // chunk -> block -> local stat -> table expr (child 6) -> fields.
    let f1 = LuaTableField::cast(&tree, vec![0, 0, 6, 2]).expect("keyed field");
    assert!(f1.is_assign_field(&tree));
    assert!(!f1.is_value_field(&tree));
    let key = f1.get_key(&tree).expect("keyed field has a key");
    assert!(matches!(key, LuaExpr::Name(_)));
    let val = f1.get_value_expr(&tree).expect("keyed field has a value");
    assert!(matches!(val, LuaExpr::Literal(_)));
    assert!(key.syntax().last() < val.syntax().last());

    let f2 = LuaTableField::cast(&tree, vec![0, 0, 6, 5]).expect("positional field");
    assert!(f2.is_value_field(&tree));
    assert!(f2.get_key(&tree).is_none());
    assert!(f2.get_value_expr(&tree).is_some());
}

#[test]
fn computed_key_first_and_last_disambiguate() {
    // `[k] = v`: the computed key holds a nested expression, so the first
    // castable child is the key and the last is the value.
    let field = n(
        LuaSyntaxKind::TableFieldAssign,
        vec![
            t(LuaTokenKind::TkLeftBracket, "["),
            name_expr("k"),
            t(LuaTokenKind::TkRightBracket, "]"),
            ws(),
            t(LuaTokenKind::TkAssign, "="),
            ws(),
            name_expr("v"),
        ],
    );
    let table = n(
        LuaSyntaxKind::TableExpr,
        vec![t(LuaTokenKind::TkLeftBrace, "{"), field, t(LuaTokenKind::TkRightBrace, "}")],
    );
    let tree = chunk_tree(vec![n(LuaSyntaxKind::CallExprStat, vec![table])]);
    let f = LuaTableField::cast(&tree, vec![0, 0, 0, 1]).expect("field");
    let key = f.get_key(&tree).expect("key");
    let val = f.get_value_expr(&tree).expect("value");
    assert_eq!(*key.syntax().last().unwrap(), 1usize);
    assert_eq!(*val.syntax().last().unwrap(), 6usize);
}

#[test]
fn stat_parent_block() {
    let tree = chunk_tree(vec![n(
        LuaSyntaxKind::EmptyStat,
        vec![t(LuaTokenKind::TkSemicolon, ";")],
    )]);
    let chunk = chunk_view(&tree);
    let block = chunk.get_block(&tree).expect("block");
    let stats = block.get_stats(&tree);
    assert_eq!(stats.len(), 1);
    let parent = stats[0].get_parent_block(&tree).expect("statement sits in a block");
    assert_eq!(parent.syntax(), block.syntax());
}
