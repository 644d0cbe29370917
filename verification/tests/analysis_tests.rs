//! End-to-end tests: each case assembles the declaration core of one
//! source program, indexes it, and checks what the declaration and global
//! tables answer.

use emmylua_core::kind::{LuaSyntaxKind, LuaTokenKind};
use emmylua_core::tree::{LuaSyntaxPart, LuaSyntaxTree};
use emmylua_core::ast::LuaChunk;
use emmylua_core::builder::index_file;
use emmylua_core::decl::{FileId, LuaDeclExtra};
use emmylua_core::decl_index::{LuaDeclIndex, LuaMemberKey};
use emmylua_core::line_index::LineIndex;

fn t(k: LuaTokenKind, s: &str) -> LuaSyntaxPart {
    LuaSyntaxPart::Token(k, s.to_string())
}

fn n(k: LuaSyntaxKind, cs: Vec<LuaSyntaxPart>) -> LuaSyntaxPart {
    LuaSyntaxPart::Node(k, cs)
}

fn ws() -> LuaSyntaxPart {
    t(LuaTokenKind::TkWhitespace, " ")
}

fn nl() -> LuaSyntaxPart {
    t(LuaTokenKind::TkWhitespace, "\n")
}

fn name_expr(s: &str) -> LuaSyntaxPart {
    n(LuaSyntaxKind::NameExpr, vec![t(LuaTokenKind::TkName, s)])
}

fn num(s: &str) -> LuaSyntaxPart {
    n(LuaSyntaxKind::LiteralExpr, vec![t(LuaTokenKind::TkNumber, s)])
}

fn string_lit(s: &str) -> LuaSyntaxPart {
    n(LuaSyntaxKind::LiteralExpr, vec![t(LuaTokenKind::TkString, s)])
}

fn table_expr() -> LuaSyntaxPart {
    n(
        LuaSyntaxKind::TableExpr,
        vec![t(LuaTokenKind::TkLeftBrace, "{"), t(LuaTokenKind::TkRightBrace, "}")],
    )
}

fn local_name(s: &str) -> LuaSyntaxPart {
    n(LuaSyntaxKind::LocalName, vec![t(LuaTokenKind::TkName, s)])
}

/// `local <name> = <val>`
fn local_stat(name: &str, val: LuaSyntaxPart) -> LuaSyntaxPart {
    n(
        LuaSyntaxKind::LocalStat,
        vec![
            t(LuaTokenKind::TkLocal, "local"),
            ws(),
            local_name(name),
            ws(),
            t(LuaTokenKind::TkAssign, "="),
            ws(),
            val,
        ],
    )
}

/// `local <name>` with no value.
fn local_decl_only(name: &str) -> LuaSyntaxPart {
    n(
        LuaSyntaxKind::LocalStat,
        vec![t(LuaTokenKind::TkLocal, "local"), ws(), local_name(name)],
    )
}

/// `<name> = <val>` — an assignment to a bare name.
fn assign_name(name: &str, val: LuaSyntaxPart) -> LuaSyntaxPart {
    n(
        LuaSyntaxKind::AssignStat,
        vec![name_expr(name), ws(), t(LuaTokenKind::TkAssign, "="), ws(), val],
    )
}

/// `<obj>.<field> = <val>` — an assignment to a member.
fn assign_index(obj: &str, field: &str, val: LuaSyntaxPart) -> LuaSyntaxPart {
    n(
        LuaSyntaxKind::AssignStat,
        vec![
            n(
                LuaSyntaxKind::IndexExpr,
                vec![name_expr(obj), t(LuaTokenKind::TkDot, "."), t(LuaTokenKind::TkName, field)],
            ),
            ws(),
            t(LuaTokenKind::TkAssign, "="),
            ws(),
            val,
        ],
    )
}

/// `function(<params>) <body> end`
fn closure(params: &[&str], body: Vec<LuaSyntaxPart>) -> LuaSyntaxPart {
    let mut ps = vec![t(LuaTokenKind::TkLeftParen, "(")];
    for (i, p) in params.iter().enumerate() {
        if i > 0 {
            ps.push(t(LuaTokenKind::TkComma, ","));
            ps.push(ws());
        }
        ps.push(t(LuaTokenKind::TkName, p));
    }
    ps.push(t(LuaTokenKind::TkRightParen, ")"));
    n(
        LuaSyntaxKind::ClosureExpr,
        vec![
            t(LuaTokenKind::TkFunction, "function"),
            n(LuaSyntaxKind::ParamList, ps),
            ws(),
            n(LuaSyntaxKind::Block, body),
            ws(),
            t(LuaTokenKind::TkEnd, "end"),
        ],
    )
}

/// `local function <name><closure-without-keyword>`
fn local_func(name: &str, clo: LuaSyntaxPart) -> LuaSyntaxPart {
    n(
        LuaSyntaxKind::LocalFuncStat,
        vec![
            t(LuaTokenKind::TkLocal, "local"),
            ws(),
            local_name(name),
            ws(),
            clo,
        ],
    )
}

/// `function <name>() ... end` — declares a global.
fn global_func(name: &str, clo: LuaSyntaxPart) -> LuaSyntaxPart {
    n(LuaSyntaxKind::FuncStat, vec![name_expr(name), ws(), clo])
}

/// `return <expr>`
fn return_stat(e: LuaSyntaxPart) -> LuaSyntaxPart {
    n(LuaSyntaxKind::ReturnStat, vec![t(LuaTokenKind::TkReturn, "return"), ws(), e])
}

fn call(name: &str, arg: LuaSyntaxPart) -> LuaSyntaxPart {
    n(
        LuaSyntaxKind::CallExpr,
        vec![
            name_expr(name),
            n(
                LuaSyntaxKind::CallArgList,
                vec![t(LuaTokenKind::TkLeftParen, "("), arg, t(LuaTokenKind::TkRightParen, ")")],
            ),
        ],
    )
}

fn chunk_tree(stats: Vec<LuaSyntaxPart>) -> LuaSyntaxTree {
    LuaSyntaxTree::assemble(LuaSyntaxKind::Chunk, vec![n(LuaSyntaxKind::Block, stats)])
}

/// Indexes the program under file 1 and returns the index.
fn indexed(tree: &LuaSyntaxTree) -> LuaDeclIndex {
    let mut index = LuaDeclIndex::new();
    let chunk = LuaChunk::cast(tree, Vec::new()).expect("chunk");
    index_file(&mut index, tree, &chunk, FileId { id: 1 });
    index
}

fn resolve_local(
    index: &LuaDeclIndex,
    tree: &LuaSyntaxTree,
    name: &str,
    pos: usize,
) -> Option<emmylua_core::decl::LuaDeclId> {
    let _ = tree;
    let dtree = index.get_decl_tree(&FileId { id: 1 }).expect("file indexed");
    dtree.find_local_decl(&name.to_string(), pos)
}

#[test]
fn test_1() {
    // local function meta(name) return name end
    // local class = meta("class")
    let tree = chunk_tree(vec![
        local_func(
            "meta",
            closure(&["name"], vec![return_stat(name_expr("name"))]),
        ),
        nl(),
        local_stat("class", call("meta", string_lit("\"class\""))),
        nl(),
    ]);
    let index = indexed(&tree);
    // `meta` is a local function, visible even before its own line.
    let hit = resolve_local(&index, &tree, "meta", 0).expect("meta hoisted in its scope");
    let decl = index.get_decl(&hit).expect("stored");
    assert!(matches!(decl.extra, LuaDeclExtra::LocalFunction));
    // `class` is a plain local; nothing here is a global.
    assert!(resolve_local(&index, &tree, "class", tree.text.len()).is_some());
    assert_eq!(index.get_global_decls().len(), 0);
}

#[test]
fn test_2() {
    // Diagnostic = {}
    // function Diagnostic.add() ... end   (member, not a fresh global)
    // local add = Diagnostic.add
    let tree = chunk_tree(vec![
        assign_name("Diagnostic", table_expr()),
        nl(),
        n(
            LuaSyntaxKind::FuncStat,
            vec![
                n(
                    LuaSyntaxKind::IndexExpr,
                    vec![
                        name_expr("Diagnostic"),
                        t(LuaTokenKind::TkDot, "."),
                        t(LuaTokenKind::TkName, "add"),
                    ],
                ),
                ws(),
                closure(&["a", "b"], vec![]),
            ],
        ),
        nl(),
        local_stat(
            "add",
            n(
                LuaSyntaxKind::IndexExpr,
                vec![
                    name_expr("Diagnostic"),
                    t(LuaTokenKind::TkDot, "."),
                    t(LuaTokenKind::TkName, "add"),
                ],
            ),
        ),
        nl(),
    ]);
    let index = indexed(&tree);
    // Exactly one global: Diagnostic; the member assignment adds none.
    let globals = index.get_global_decls_by_name("Diagnostic");
    assert_eq!(globals.len(), 1);
    assert_eq!(
        index.get_global_decl_id(&LuaMemberKey::Name("Diagnostic".to_string())),
        Some(globals[0]),
    );
    assert_eq!(index.get_global_decls().len(), 1);
    // `add` is a local, not a global.
    assert!(resolve_local(&index, &tree, "add", tree.text.len()).is_some());
    assert_eq!(index.get_global_decls_by_name("add"), Vec::new());
}

#[test]
fn test_3() {
    // local function get_len(s, i, j, lax) end
    // local len = 0
    // len = len + get_len("", 1, 1, true)
    let tree = chunk_tree(vec![
        local_func("get_len", closure(&["s", "i", "j", "lax"], vec![])),
        nl(),
        local_stat("len", num("0")),
        nl(),
        assign_name(
            "len",
            n(
                LuaSyntaxKind::BinaryExpr,
                vec![name_expr("len"), t(LuaTokenKind::TkOp, "+"), call("get_len", num("1"))],
            ),
        ),
        nl(),
    ]);
    let index = indexed(&tree);
    // The assignment target `len` resolves to the local, so no global is
    // registered for it.
    assert_eq!(index.get_global_decls().len(), 0);
    let at_assign = tree.text.rfind("len =").unwrap();
    let hit = resolve_local(&index, &tree, "len", at_assign).expect("len is local");
    let decl = index.get_decl(&hit).expect("stored");
    assert_eq!(decl.get_position(), tree.text.find("len =").unwrap());
    // Parameters resolve inside the function body region only.
    assert!(resolve_local(&index, &tree, "lax", tree.text.len()).is_none());
}

#[test]
fn test_enum() {
    // local SubscriberFlags = { ... }
    // local subscriber
    // subscriber.flags = 9
    let tree = chunk_tree(vec![
        local_stat("SubscriberFlags", table_expr()),
        nl(),
        local_decl_only("subscriber"),
        nl(),
        assign_index("subscriber", "flags", num("9")),
        nl(),
    ]);
    let index = indexed(&tree);
    // Member assignments register no global; both names are locals.
    assert_eq!(index.get_global_decls().len(), 0);
    assert!(resolve_local(&index, &tree, "SubscriberFlags", tree.text.len()).is_some());
    assert!(resolve_local(&index, &tree, "subscriber", tree.text.len()).is_some());
}

#[test]
fn test_issue_193() {
    // local function foo() end
    // local a, b = foo()
    let tree = chunk_tree(vec![
        local_func("foo", closure(&[], vec![])),
        nl(),
        n(
            LuaSyntaxKind::LocalStat,
            vec![
                t(LuaTokenKind::TkLocal, "local"),
                ws(),
                local_name("a"),
                t(LuaTokenKind::TkComma, ","),
                ws(),
                local_name("b"),
                ws(),
                t(LuaTokenKind::TkAssign, "="),
                ws(),
                call("foo", num("0")),
            ],
        ),
        nl(),
    ]);
    let index = indexed(&tree);
    let end = tree.text.len();
    let a = resolve_local(&index, &tree, "a", end).expect("a declared");
    let b = resolve_local(&index, &tree, "b", end).expect("b declared");
    let da = index.get_decl(&a).expect("stored");
    let db = index.get_decl(&b).expect("stored");
    // Both names of one local statement, in source order.
    assert!(da.get_position() < db.get_position());
    assert_eq!(index.get_global_decls().len(), 0);
}

#[test]
fn test_issue_196() {
    // function foo() end — an implicit global declaration.
    let tree = chunk_tree(vec![
        global_func("foo", closure(&[], vec![])),
        nl(),
        local_stat("_", call("foo", num("0"))),
        nl(),
    ]);
    let index = indexed(&tree);
    let globals = index.get_global_decls_by_name("foo");
    assert_eq!(globals.len(), 1);
    let decl = index.get_decl(&globals[0]).expect("stored");
    assert!(decl.is_global());
    assert_eq!(decl.get_name(), "foo");
    // A single candidate resolves without any type information.
    assert_eq!(
        index.get_global_decl_id(&LuaMemberKey::Name("foo".to_string())),
        Some(globals[0]),
    );
}

#[test]
fn test_issue_197() {
    let src = "\n                local a = setmetatable({}, {})\n            ";
    // The raw text, through the line index: three lines, all ASCII.
    let li = LineIndex::parse(src.as_bytes());
    assert_eq!(li.line_count(), 3);
    assert_eq!(li.get_line_offset(0), Some(0));
    assert_eq!(li.get_line_offset(1), Some(1));
    assert_eq!(li.get_line_offset(2), Some(48));
    assert!(li.is_line_only_ascii(0));
    assert!(li.is_line_only_ascii(1));

    // The declaration core: `a` is a local; `setmetatable` is only read,
    // so nothing registers a global for it.
    let tree = chunk_tree(vec![local_stat("a", call("setmetatable", table_expr())), nl()]);
    let index = indexed(&tree);
    assert!(resolve_local(&index, &tree, "a", tree.text.len()).is_some());
    assert!(resolve_local(&index, &tree, "setmetatable", tree.text.len()).is_none());
    assert_eq!(
        index.get_global_decl_id(&LuaMemberKey::Name("setmetatable".to_string())),
        None,
    );
}

#[test]
fn test_error() {
    // An empty chunk indexes to an empty tree: no declarations, no
    // globals, and removal of the file is a no-op afterwards.
    let tree = chunk_tree(vec![]);
    let mut index = indexed(&tree);
    let dtree = index.get_decl_tree(&FileId { id: 1 }).expect("indexed");
    assert_eq!(dtree.decls.len(), 0);
    assert_eq!(index.get_global_decls().len(), 0);
    index.remove(FileId { id: 1 });
    assert!(index.get_decl_tree(&FileId { id: 1 }).is_none());
}

#[test]
fn test_valid_cases() {
    // local m = {}
    // m.ints = {}          (member assignment: no global)
    let tree = chunk_tree(vec![
        local_stat("m", table_expr()),
        nl(),
        assign_index("m", "ints", table_expr()),
        nl(),
    ]);
    let index = indexed(&tree);
    assert_eq!(index.get_global_decls().len(), 0);
    assert!(resolve_local(&index, &tree, "m", tree.text.len()).is_some());

    // local mt = G          (reading G declares nothing)
    let tree2 = chunk_tree(vec![local_stat("mt", name_expr("G")), nl()]);
    let index2 = indexed(&tree2);
    assert_eq!(index2.get_global_decls_by_name("G"), Vec::new());
    assert!(resolve_local(&index2, &tree2, "mt", tree2.text.len()).is_some());

    // local t = {}; t.a = 1; t.a = 2   (repeated member writes: still no
    // global, still one local)
    let tree3 = chunk_tree(vec![
        local_stat("t", table_expr()),
        nl(),
        assign_index("t", "a", num("1")),
        nl(),
        assign_index("t", "a", num("2")),
        nl(),
        return_stat(name_expr("t")),
        nl(),
    ]);
    let index3 = indexed(&tree3);
    assert_eq!(index3.get_global_decls().len(), 0);
    let dtree3 = index3.get_decl_tree(&FileId { id: 1 }).expect("indexed");
    assert_eq!(dtree3.decls.len(), 1);

    // local x, y; x, y = name()   (targets resolve to the locals)
    let tree4 = chunk_tree(vec![
        local_func("name", closure(&[], vec![])),
        nl(),
        n(
            LuaSyntaxKind::LocalStat,
            vec![
                t(LuaTokenKind::TkLocal, "local"),
                ws(),
                local_name("x"),
                t(LuaTokenKind::TkComma, ","),
                ws(),
                local_name("y"),
            ],
        ),
        nl(),
        n(
            LuaSyntaxKind::AssignStat,
            vec![
                name_expr("x"),
                t(LuaTokenKind::TkComma, ","),
                ws(),
                name_expr("y"),
                ws(),
                t(LuaTokenKind::TkAssign, "="),
                ws(),
                call("name", num("0")),
            ],
        ),
        nl(),
    ]);
    let index4 = indexed(&tree4);
    assert_eq!(index4.get_global_decls().len(), 0);
    assert!(resolve_local(&index4, &tree4, "x", tree4.text.len()).is_some());
    assert!(resolve_local(&index4, &tree4, "y", tree4.text.len()).is_some());
}

#[test]
fn test_pending() {
    // local a = {}
    // local b = a
    let tree = chunk_tree(vec![
        local_stat("a", table_expr()),
        nl(),
        local_stat("b", name_expr("a")),
        nl(),
    ]);
    let index = indexed(&tree);
    let at_b_value = tree.text.rfind('a').unwrap();
    let hit = resolve_local(&index, &tree, "a", at_b_value).expect("a visible at b's value");
    let decl = index.get_decl(&hit).expect("stored");
    assert_eq!(decl.get_position(), tree.text.find("a =").unwrap());
    assert_eq!(index.get_global_decls().len(), 0);
}

#[test]
fn test_issue_247() {
    // local a; local b; b = 1 + (a and 1 or 0)
    let tree = chunk_tree(vec![
        local_decl_only("a"),
        nl(),
        local_decl_only("b"),
        nl(),
        assign_name(
            "b",
            n(
                LuaSyntaxKind::BinaryExpr,
                vec![num("1"), t(LuaTokenKind::TkOp, "+"), name_expr("a")],
            ),
        ),
        nl(),
    ]);
    let index = indexed(&tree);
    // The assignment target resolves to the earlier local: no global.
    assert_eq!(index.get_global_decls().len(), 0);
    let hit = resolve_local(&index, &tree, "b", tree.text.rfind("b ").unwrap())
        .expect("b is local");
    assert!(index.get_decl(&hit).is_some());
}

#[test]
fn test_issue_246() {
    // local ty1; local _ = ty1 or 'untracked'
    let tree = chunk_tree(vec![
        local_decl_only("ty1"),
        nl(),
        local_stat(
            "_",
            n(
                LuaSyntaxKind::BinaryExpr,
                vec![
                    name_expr("ty1"),
                    ws(),
                    t(LuaTokenKind::TkOp, "or"),
                    ws(),
                    string_lit("'untracked'"),
                ],
            ),
        ),
        nl(),
    ]);
    let index = indexed(&tree);
    let at_use = tree.text.rfind("ty1").unwrap();
    let hit = resolve_local(&index, &tree, "ty1", at_use).expect("ty1 visible");
    let decl = index.get_decl(&hit).expect("stored");
    assert_eq!(decl.get_position(), tree.text.find("ty1").unwrap());
    assert!(resolve_local(&index, &tree, "_", tree.text.len()).is_some());
    assert_eq!(index.get_global_decls().len(), 0);
}

#[test]
fn test_issue_295() {
    // local SubscriberFlags = { ... }
    // local subscriber
    // subscriber.flags = subscriber.flags & ~SubscriberFlags.Tracking
    // subscriber.flags = 9
    let tree = chunk_tree(vec![
        local_stat("SubscriberFlags", table_expr()),
        nl(),
        local_decl_only("subscriber"),
        nl(),
        assign_index(
            "subscriber",
            "flags",
            n(
                LuaSyntaxKind::BinaryExpr,
                vec![
                    n(
                        LuaSyntaxKind::IndexExpr,
                        vec![
                            name_expr("subscriber"),
                            t(LuaTokenKind::TkDot, "."),
                            t(LuaTokenKind::TkName, "flags"),
                        ],
                    ),
                    ws(),
                    t(LuaTokenKind::TkOp, "&"),
                    ws(),
                    n(
                        LuaSyntaxKind::IndexExpr,
                        vec![
                            name_expr("SubscriberFlags"),
                            t(LuaTokenKind::TkDot, "."),
                            t(LuaTokenKind::TkName, "Tracking"),
                        ],
                    ),
                ],
            ),
        ),
        nl(),
        assign_index("subscriber", "flags", num("9")),
        nl(),
    ]);
    let index = indexed(&tree);
    // Two locals, no globals: member writes and reads register nothing.
    let dtree = index.get_decl_tree(&FileId { id: 1 }).expect("indexed");
    assert_eq!(dtree.decls.len(), 2);
    assert_eq!(index.get_global_decls().len(), 0);
    assert!(resolve_local(&index, &tree, "subscriber", tree.text.len()).is_some());
}
