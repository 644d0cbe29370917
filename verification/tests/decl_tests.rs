//! Tests of the declaration tree: the builder's walk, scope nesting,
//! shadowing, and the repeat-until visibility rule.

use emmylua_core::kind::{LuaSyntaxKind, LuaTokenKind};
use emmylua_core::tree::{LuaSyntaxPart, LuaSyntaxTree};
use emmylua_core::ast::LuaChunk;
use emmylua_core::builder::build_decl_tree;
use emmylua_core::decl::{FileId, LuaDeclExtra};
use emmylua_core::scope::ScopeOrDeclId;

fn t(k: LuaTokenKind, s: &str) -> LuaSyntaxPart {
    LuaSyntaxPart::Token(k, s.to_string())
}

fn n(k: LuaSyntaxKind, cs: Vec<LuaSyntaxPart>) -> LuaSyntaxPart {
    LuaSyntaxPart::Node(k, cs)
}

fn ws() -> LuaSyntaxPart {
    t(LuaTokenKind::TkWhitespace, " ")
}

fn num(s: &str) -> LuaSyntaxPart {
    n(LuaSyntaxKind::LiteralExpr, vec![t(LuaTokenKind::TkNumber, s)])
}

fn local_name(s: &str) -> LuaSyntaxPart {
    n(LuaSyntaxKind::LocalName, vec![t(LuaTokenKind::TkName, s)])
}

/// `local <name> = <val>`
fn local_stat(name: &str, val: LuaSyntaxPart) -> LuaSyntaxPart {
    n(
        LuaSyntaxKind::LocalStat,
        vec![
            t(LuaTokenKind::TkLocal, "local"),
            ws(),
            local_name(name),
            ws(),
            t(LuaTokenKind::TkAssign, "="),
            ws(),
            val,
        ],
    )
}

fn chunk_tree(stats: Vec<LuaSyntaxPart>) -> LuaSyntaxTree {
    LuaSyntaxTree::assemble(LuaSyntaxKind::Chunk, vec![n(LuaSyntaxKind::Block, stats)])
}

fn build(tree: &LuaSyntaxTree) -> emmylua_core::decl_tree::LuaDeclarationTree {
    let chunk = LuaChunk::cast(tree, Vec::new()).expect("chunk");
    let (dtree, _globals) = build_decl_tree(tree, &chunk, FileId { id: 1 });
    dtree
}

#[test]
fn shadowing_inner_and_outer() {
    // local x = 1
    // do local x = 2 end
    let tree = chunk_tree(vec![
        local_stat("x", num("1")),
        t(LuaTokenKind::TkWhitespace, "\n"),
        n(
            LuaSyntaxKind::DoStat,
            vec![
                t(LuaTokenKind::TkDo, "do"),
                ws(),
                n(LuaSyntaxKind::Block, vec![local_stat("x", num("2"))]),
                ws(),
                t(LuaTokenKind::TkEnd, "end"),
            ],
        ),
        t(LuaTokenKind::TkWhitespace, "\n"),
    ]);
    assert_eq!(tree.text, "local x = 1\ndo local x = 2 end\n");
    let dtree = build(&tree);
    let outer_x = tree.text.find('x').unwrap();
    let inner_x = tree.text.rfind('x').unwrap();
    assert_eq!(outer_x, 6);
    assert_eq!(inner_x, 21);

    // Inside the inner block, after the inner declaration, `x` is the
    // inner one.
    let name = String::from("x");
    let at_inner_value = tree.text.rfind('2').unwrap();
    let hit = dtree.find_local_decl(&name, at_inner_value).expect("inner x visible");
    let decl = dtree.get_decl(&hit).expect("declaration stored");
    assert_eq!(decl.get_position(), inner_x);

    // After the block, `x` is the outer one again.
    let after_block = tree.text.len() - 1;
    let hit2 = dtree.find_local_decl(&name, after_block).expect("outer x visible");
    let decl2 = dtree.get_decl(&hit2).expect("declaration stored");
    assert_eq!(decl2.get_position(), outer_x);

    // Before any declaration, `x` resolves to nothing.
    assert!(dtree.find_local_decl(&name, 0).is_none());
}

#[test]
fn repeat_condition_sees_body_locals() {
    // repeat local x = 1 until x > 0
    let tree = chunk_tree(vec![n(
        LuaSyntaxKind::RepeatStat,
        vec![
            t(LuaTokenKind::TkRepeat, "repeat"),
            ws(),
            n(LuaSyntaxKind::Block, vec![local_stat("x", num("1"))]),
            ws(),
            t(LuaTokenKind::TkUntil, "until"),
            ws(),
            n(
                LuaSyntaxKind::BinaryExpr,
                vec![
                    n(LuaSyntaxKind::NameExpr, vec![t(LuaTokenKind::TkName, "x")]),
                    ws(),
                    t(LuaTokenKind::TkOp, ">"),
                    ws(),
                    num("0"),
                ],
            ),
        ],
    )]);
    assert_eq!(tree.text, "repeat local x = 1 until x > 0");
    let dtree = build(&tree);
    let body_x = tree.text.find('x').unwrap();
    let cond_x = tree.text.rfind('x').unwrap();
    let name = String::from("x");
    // The `until` condition resolves `x` to the body's local, not to a
    // global.
    let hit = dtree.find_local_decl(&name, cond_x).expect("body local visible in condition");
    let decl = dtree.get_decl(&hit).expect("declaration stored");
    assert_eq!(decl.get_position(), body_x);
    assert!(matches!(decl.extra, LuaDeclExtra::Local { .. }));
}

#[test]
fn local_function_is_visible_throughout_its_scope() {
    // local function f() end — visible before its own line, enabling
    // forward calls within the block.
    let closure = n(
        LuaSyntaxKind::ClosureExpr,
        vec![
            t(LuaTokenKind::TkFunction, "function"),
            n(
                LuaSyntaxKind::ParamList,
                vec![t(LuaTokenKind::TkLeftParen, "("), t(LuaTokenKind::TkRightParen, ")")],
            ),
            ws(),
            t(LuaTokenKind::TkEnd, "end"),
        ],
    );
    let tree = chunk_tree(vec![
        t(LuaTokenKind::TkWhitespace, "  \n"),
        n(
            LuaSyntaxKind::LocalFuncStat,
            vec![
                t(LuaTokenKind::TkLocal, "local"),
                ws(),
                t(LuaTokenKind::TkFunction, "function"),
                ws(),
                local_name("f"),
                closure,
            ],
        ),
    ]);
    let dtree = build(&tree);
    let name = String::from("f");
    // Visible at position 0, before the declaration itself.
    let hit = dtree.find_local_decl(&name, 0).expect("hoisted within its scope");
    let decl = dtree.get_decl(&hit).expect("stored");
    assert!(matches!(decl.extra, LuaDeclExtra::LocalFunction));
    // A plain local is not hoisted that way.
    let tree2 = chunk_tree(vec![t(LuaTokenKind::TkWhitespace, "  "), local_stat("y", num("1"))]);
    let dtree2 = build(&tree2);
    assert!(dtree2.find_local_decl(&String::from("y"), 0).is_none());
}

#[test]
fn parameters_resolve_inside_the_body_only() {
    // local function f(p) p end
    let closure = n(
        LuaSyntaxKind::ClosureExpr,
        vec![
            t(LuaTokenKind::TkFunction, "function"),
            n(
                LuaSyntaxKind::ParamList,
                vec![
                    t(LuaTokenKind::TkLeftParen, "("),
                    t(LuaTokenKind::TkName, "p"),
                    t(LuaTokenKind::TkRightParen, ")"),
                ],
            ),
            ws(),
            n(
                LuaSyntaxKind::Block,
                vec![n(
                    LuaSyntaxKind::CallExprStat,
                    vec![n(LuaSyntaxKind::NameExpr, vec![t(LuaTokenKind::TkName, "p")])],
                )],
            ),
            ws(),
            t(LuaTokenKind::TkEnd, "end"),
        ],
    );
    let tree = chunk_tree(vec![n(
        LuaSyntaxKind::LocalFuncStat,
        vec![
            t(LuaTokenKind::TkLocal, "local"),
            ws(),
            t(LuaTokenKind::TkFunction, "function"),
            ws(),
            local_name("f"),
            closure,
        ],
    )]);
    let dtree = build(&tree);
    let name = String::from("p");
    let inside = tree.text.rfind('p').unwrap();
    let hit = dtree.find_local_decl(&name, inside).expect("parameter visible in body");
    let decl = dtree.get_decl(&hit).expect("stored");
    assert!(matches!(decl.extra, LuaDeclExtra::Param { idx: 0 }));
    // Outside the function, the parameter is invisible.
    assert!(dtree.find_local_decl(&name, tree.text.len()).is_none());
}

#[test]
fn scope_containment_holds_for_every_declaration() {
    // A nested program; then check, scope by scope, that each owned
    // declaration's position lies inside its scope's range.
    let tree = chunk_tree(vec![
        local_stat("a", num("1")),
        ws(),
        n(
            LuaSyntaxKind::WhileStat,
            vec![
                t(LuaTokenKind::TkWhile, "while"),
                ws(),
                num("1"),
                ws(),
                t(LuaTokenKind::TkDo, "do"),
                ws(),
                n(LuaSyntaxKind::Block, vec![local_stat("b", num("2"))]),
                ws(),
                t(LuaTokenKind::TkEnd, "end"),
            ],
        ),
    ]);
    let dtree = build(&tree);
    assert_eq!(dtree.decls.len(), 2);
    let mut seen: usize = 0;
    for sc in dtree.scopes.iter() {
        for it in sc.items.iter() {
            if let ScopeOrDeclId::Decl(d) = it {
                let decl = dtree.get_decl(d).expect("stored");
                assert!(sc.start <= decl.get_position());
                assert!(decl.get_position() < sc.end);
                seen += 1;
            }
        }
    }
    assert_eq!(seen, 2);
}

#[test]
fn numeric_for_variable_belongs_to_the_loop() {
    // for i = 1, 2 do i end
    let tree = chunk_tree(vec![n(
        LuaSyntaxKind::ForStat,
        vec![
            t(LuaTokenKind::TkFor, "for"),
            ws(),
            t(LuaTokenKind::TkName, "i"),
            ws(),
            t(LuaTokenKind::TkAssign, "="),
            ws(),
            num("1"),
            t(LuaTokenKind::TkComma, ","),
            ws(),
            num("2"),
            ws(),
            t(LuaTokenKind::TkDo, "do"),
            ws(),
            n(
                LuaSyntaxKind::Block,
                vec![n(
                    LuaSyntaxKind::CallExprStat,
                    vec![n(LuaSyntaxKind::NameExpr, vec![t(LuaTokenKind::TkName, "i")])],
                )],
            ),
            ws(),
            t(LuaTokenKind::TkEnd, "end"),
        ],
    )]);
    let dtree = build(&tree);
    let name = String::from("i");
    let in_body = tree.text.rfind('i').unwrap();
    let hit = dtree.find_local_decl(&name, in_body).expect("loop variable visible in body");
    let decl = dtree.get_decl(&hit).expect("stored");
    assert!(matches!(decl.extra, LuaDeclExtra::ForVar));
    // Invisible after the loop.
    assert!(dtree.find_local_decl(&name, tree.text.len()).is_none());
}

#[test]
fn local_attributes_const_and_close() {
    // local c <const> = 1
    let tree = chunk_tree(vec![n(
        LuaSyntaxKind::LocalStat,
        vec![
            t(LuaTokenKind::TkLocal, "local"),
            ws(),
            n(
                LuaSyntaxKind::LocalName,
                vec![
                    t(LuaTokenKind::TkName, "c"),
                    ws(),
                    n(
                        LuaSyntaxKind::Attribute,
                        vec![
                            t(LuaTokenKind::TkOp, "<"),
                            t(LuaTokenKind::TkName, "const"),
                            t(LuaTokenKind::TkOp, ">"),
                        ],
                    ),
                ],
            ),
            ws(),
            t(LuaTokenKind::TkAssign, "="),
            ws(),
            num("1"),
        ],
    )]);
    let dtree = build(&tree);
    let hit = dtree.find_local_decl(&String::from("c"), tree.text.len()).expect("c visible");
    let decl = dtree.get_decl(&hit).expect("stored");
    assert!(decl.is_const());
    assert!(!decl.is_close());
    assert!(decl.is_local());
    assert!(!decl.is_global());
}
