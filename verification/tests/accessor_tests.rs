//! Tests of the remaining typed-view accessors: conditions, labels,
//! closures, calls, and the generic `for` loop.

use emmylua_core::kind::{LuaSyntaxKind, LuaTokenKind};
use emmylua_core::tree::{LuaSyntaxPart, LuaSyntaxTree};
use emmylua_core::ast::LuaChunk;
use emmylua_core::builder::build_decl_tree;
use emmylua_core::decl::{FileId, LuaDeclExtra};
use emmylua_core::expr::LuaExpr;
use emmylua_core::stat::LuaStat;

fn t(k: LuaTokenKind, s: &str) -> LuaSyntaxPart {
    LuaSyntaxPart::Token(k, s.to_string())
}

fn n(k: LuaSyntaxKind, cs: Vec<LuaSyntaxPart>) -> LuaSyntaxPart {
    LuaSyntaxPart::Node(k, cs)
}

fn ws() -> LuaSyntaxPart {
    t(LuaTokenKind::TkWhitespace, " ")
}

fn name_expr(s: &str) -> LuaSyntaxPart {
    n(LuaSyntaxKind::NameExpr, vec![t(LuaTokenKind::TkName, s)])
}

fn num(s: &str) -> LuaSyntaxPart {
    n(LuaSyntaxKind::LiteralExpr, vec![t(LuaTokenKind::TkNumber, s)])
}

fn chunk_tree(stats: Vec<LuaSyntaxPart>) -> LuaSyntaxTree {
    LuaSyntaxTree::assemble(LuaSyntaxKind::Chunk, vec![n(LuaSyntaxKind::Block, stats)])
}

fn only_stat(tree: &LuaSyntaxTree) -> LuaStat {
    let chunk = LuaChunk::cast(tree, Vec::new()).expect("chunk");
    let block = chunk.get_block(tree).expect("block");
    let stats = block.get_stats(tree);
    assert_eq!(stats.len(), 1);
    stats.into_iter().next().unwrap()
}

#[test]
fn while_condition_and_body() {
    // while x do break end
    let tree = chunk_tree(vec![n(
        LuaSyntaxKind::WhileStat,
        vec![
            t(LuaTokenKind::TkWhile, "while"),
            ws(),
            name_expr("x"),
            ws(),
            t(LuaTokenKind::TkDo, "do"),
            ws(),
            n(
                LuaSyntaxKind::Block,
                vec![n(LuaSyntaxKind::BreakStat, vec![t(LuaTokenKind::TkBreak, "break")])],
            ),
            ws(),
            t(LuaTokenKind::TkEnd, "end"),
        ],
    )]);
    let ws_stat = match only_stat(&tree) {
        LuaStat::WhileStat(w) => w,
        _ => panic!("expected a while statement"),
    };
    let cond = ws_stat.get_condition_expr(&tree).expect("condition");
    assert!(matches!(cond, LuaExpr::Name(_)));
    let body = ws_stat.get_block(&tree).expect("body");
    let inner = body.get_stats(&tree);
    assert_eq!(inner.len(), 1);
    assert!(matches!(inner[0], LuaStat::BreakStat(_)));
}

#[test]
fn repeat_condition_accessor() {
    // repeat until x
    let tree = chunk_tree(vec![n(
        LuaSyntaxKind::RepeatStat,
        vec![
            t(LuaTokenKind::TkRepeat, "repeat"),
            ws(),
            n(LuaSyntaxKind::Block, vec![]),
            t(LuaTokenKind::TkUntil, "until"),
            ws(),
            name_expr("x"),
        ],
    )]);
    let rs = match only_stat(&tree) {
        LuaStat::RepeatStat(r) => r,
        _ => panic!("expected a repeat statement"),
    };
    assert!(rs.get_block(&tree).is_some());
    let cond = rs.get_condition_expr(&tree).expect("condition");
    assert!(matches!(cond, LuaExpr::Name(_)));
}

#[test]
fn goto_and_label_names() {
    // ::top:: goto top
    let tree = chunk_tree(vec![
        n(
            LuaSyntaxKind::LabelStat,
            vec![
                t(LuaTokenKind::TkDbColon, "::"),
                t(LuaTokenKind::TkName, "top"),
                t(LuaTokenKind::TkDbColon, "::"),
            ],
        ),
        ws(),
        n(
            LuaSyntaxKind::GotoStat,
            vec![t(LuaTokenKind::TkGoto, "goto"), ws(), t(LuaTokenKind::TkName, "top")],
        ),
    ]);
    let chunk = LuaChunk::cast(&tree, Vec::new()).expect("chunk");
    let block = chunk.get_block(&tree).expect("block");
    let stats = block.get_stats(&tree);
    assert_eq!(stats.len(), 2);
    match &stats[0] {
        LuaStat::LabelStat(l) => {
            let tok = l.get_label_name(&tree).expect("label name");
            assert_eq!(tok.get_name_text(&tree).as_str(), "top");
            assert_eq!(tok.get_position(&tree), 2);
        },
        _ => panic!("expected a label"),
    }
    match &stats[1] {
        LuaStat::GotoStat(g) => {
            let tok = g.get_label_name(&tree).expect("target name");
            assert_eq!(tok.get_name_text(&tree).as_str(), "top");
        },
        _ => panic!("expected a goto"),
    }
}

#[test]
fn call_expr_stat_and_args() {
    // f(1, x)
    let tree = chunk_tree(vec![n(
        LuaSyntaxKind::CallExprStat,
        vec![n(
            LuaSyntaxKind::CallExpr,
            vec![
                name_expr("f"),
                n(
                    LuaSyntaxKind::CallArgList,
                    vec![
                        t(LuaTokenKind::TkLeftParen, "("),
                        num("1"),
                        t(LuaTokenKind::TkComma, ","),
                        ws(),
                        name_expr("x"),
                        t(LuaTokenKind::TkRightParen, ")"),
                    ],
                ),
            ],
        )],
    )]);
    let cs = match only_stat(&tree) {
        LuaStat::CallExprStat(c) => c,
        _ => panic!("expected a call statement"),
    };
    let call = cs.get_call_expr(&tree).expect("call expression");
    let args = call.get_args_list(&tree).expect("argument list");
    assert!(!args.is_single_arg_no_parens(&tree));
    let list = args.get_args(&tree);
    assert_eq!(list.len(), 2);
    assert!(matches!(list[0], LuaExpr::Literal(_)));
    assert!(matches!(list[1], LuaExpr::Name(_)));
}

#[test]
fn func_stat_name_and_closure() {
    // function g() end
    let tree = chunk_tree(vec![n(
        LuaSyntaxKind::FuncStat,
        vec![
            t(LuaTokenKind::TkFunction, "function"),
            ws(),
            name_expr("g"),
            n(
                LuaSyntaxKind::ClosureExpr,
                vec![
                    n(
                        LuaSyntaxKind::ParamList,
                        vec![
                            t(LuaTokenKind::TkLeftParen, "("),
                            t(LuaTokenKind::TkName, "a"),
                            t(LuaTokenKind::TkRightParen, ")"),
                        ],
                    ),
                    ws(),
                    n(LuaSyntaxKind::Block, vec![]),
                    ws(),
                    t(LuaTokenKind::TkEnd, "end"),
                ],
            ),
        ],
    )]);
    let fs = match only_stat(&tree) {
        LuaStat::FuncStat(f) => f,
        _ => panic!("expected a function statement"),
    };
    let name = fs.get_func_name(&tree).expect("function name");
    assert!(matches!(name, emmylua_core::expr::LuaVarExpr::Name(_)));
    let clo = fs.get_closure(&tree).expect("closure");
    let params = clo.get_param_list(&tree).expect("parameter list");
    let toks = params.get_params(&tree);
    assert_eq!(toks.len(), 1);
    assert_eq!(toks[0].get_name_text(&tree).as_str(), "a");
    assert!(clo.get_block(&tree).is_some());
}

#[test]
fn generic_for_declares_its_variables() {
    // for k, v in pairs do end — both loop variables belong to the loop.
    let tree = chunk_tree(vec![n(
        LuaSyntaxKind::ForRangeStat,
        vec![
            t(LuaTokenKind::TkFor, "for"),
            ws(),
            t(LuaTokenKind::TkName, "k"),
            t(LuaTokenKind::TkComma, ","),
            ws(),
            t(LuaTokenKind::TkName, "v"),
            ws(),
            t(LuaTokenKind::TkIn, "in"),
            ws(),
            name_expr("pairs"),
            ws(),
            t(LuaTokenKind::TkDo, "do"),
            ws(),
            n(
                LuaSyntaxKind::Block,
                vec![n(LuaSyntaxKind::CallExprStat, vec![name_expr("v")])],
            ),
            ws(),
            t(LuaTokenKind::TkEnd, "end"),
        ],
    )]);
    let frs = match only_stat(&tree) {
        LuaStat::ForRangeStat(f) => f,
        _ => panic!("expected a generic for"),
    };
    let names = frs.get_var_name_list(&tree);
    assert_eq!(names.len(), 2);
    assert_eq!(names[0].get_name_text(&tree).as_str(), "k");
    assert_eq!(names[1].get_name_text(&tree).as_str(), "v");
    assert_eq!(frs.get_expr_list(&tree).len(), 1);
    assert!(frs.get_block(&tree).is_some());

    let chunk = LuaChunk::cast(&tree, Vec::new()).expect("chunk");
    let (dtree, globals) = build_decl_tree(&tree, &chunk, FileId { id: 4 });
    assert_eq!(globals.len(), 0);
    let in_body = tree.text.rfind('v').unwrap();
    let hit = dtree.find_local_decl(&String::from("v"), in_body).expect("v in the loop");
    let decl = dtree.get_decl(&hit).expect("stored");
    assert!(matches!(decl.extra, LuaDeclExtra::ForRangeVar));
    assert!(dtree.find_local_decl(&String::from("k"), tree.text.len()).is_none());
}

#[test]
fn numeric_for_accessors() {
    // for i = 1, 3 do end
    let tree = chunk_tree(vec![n(
        LuaSyntaxKind::ForStat,
        vec![
            t(LuaTokenKind::TkFor, "for"),
            ws(),
            t(LuaTokenKind::TkName, "i"),
            ws(),
            t(LuaTokenKind::TkAssign, "="),
            ws(),
            num("1"),
            t(LuaTokenKind::TkComma, ","),
            ws(),
            num("3"),
            ws(),
            t(LuaTokenKind::TkDo, "do"),
            ws(),
            n(LuaSyntaxKind::Block, vec![]),
            ws(),
            t(LuaTokenKind::TkEnd, "end"),
        ],
    )]);
    let fs = match only_stat(&tree) {
        LuaStat::ForStat(f) => f,
        _ => panic!("expected a numeric for"),
    };
    let var = fs.get_var_name(&tree).expect("control variable");
    assert_eq!(var.get_name_text(&tree).as_str(), "i");
    assert_eq!(fs.get_iter_expr(&tree).len(), 2);
    assert!(fs.get_block(&tree).is_some());
}

#[test]
fn local_func_stat_accessors() {
    // local function h() end
    let tree = chunk_tree(vec![n(
        LuaSyntaxKind::LocalFuncStat,
        vec![
            t(LuaTokenKind::TkLocal, "local"),
            ws(),
            t(LuaTokenKind::TkFunction, "function"),
            ws(),
            n(LuaSyntaxKind::LocalName, vec![t(LuaTokenKind::TkName, "h")]),
            n(
                LuaSyntaxKind::ClosureExpr,
                vec![
                    n(
                        LuaSyntaxKind::ParamList,
                        vec![
                            t(LuaTokenKind::TkLeftParen, "("),
                            t(LuaTokenKind::TkRightParen, ")"),
                        ],
                    ),
                    ws(),
                    t(LuaTokenKind::TkEnd, "end"),
                ],
            ),
        ],
    )]);
    let lfs = match only_stat(&tree) {
        LuaStat::LocalFuncStat(l) => l,
        _ => panic!("expected a local function statement"),
    };
    let ln = lfs.get_local_name(&tree).expect("declared name");
    let tok = ln.get_name_token(&tree).expect("name token");
    assert_eq!(tok.get_name_text(&tree).as_str(), "h");
    assert!(ln.get_attrib(&tree).is_none());
    assert!(lfs.get_closure(&tree).is_some());
}

#[test]
fn return_stat_expr_list() {
    // return 1, x
    let tree = chunk_tree(vec![n(
        LuaSyntaxKind::ReturnStat,
        vec![
            t(LuaTokenKind::TkReturn, "return"),
            ws(),
            num("1"),
            t(LuaTokenKind::TkComma, ","),
            ws(),
            name_expr("x"),
        ],
    )]);
    let rs = match only_stat(&tree) {
        LuaStat::ReturnStat(r) => r,
        _ => panic!("expected a return statement"),
    };
    let list = rs.get_expr_list(&tree);
    assert_eq!(list.len(), 2);
    assert!(matches!(list[0], LuaExpr::Literal(_)));
    assert!(matches!(list[1], LuaExpr::Name(_)));
}
