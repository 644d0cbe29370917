//! Closed kind sets for syntax-tree nodes and tokens.

use vstd::prelude::*;

verus! {

/// Kind tag of an interior syntax-tree node.
#[derive(Clone, Copy, Debug, PartialEq, Eq, Structural, Hash)]
pub enum LuaSyntaxKind {
    Chunk,
    Block,
    LocalStat,
    AssignStat,
    CallExprStat,
    FuncStat,
    LocalFuncStat,
    IfStat,
    WhileStat,
    DoStat,
    ForStat,
    ForRangeStat,
    RepeatStat,
    BreakStat,
    ReturnStat,
    GotoStat,
    LabelStat,
    EmptyStat,
    LocalName,
    Attribute,
    CallArgList,
    ParamList,
    TableFieldAssign,
    TableFieldValue,
    NameExpr,
    IndexExpr,
    CallExpr,
    ClosureExpr,
    LiteralExpr,
    BinaryExpr,
    TableExpr,
}

/// Kind tag of a leaf token.
#[derive(Clone, Copy, Debug, PartialEq, Eq, Structural, Hash)]
pub enum LuaTokenKind {
    TkName,
    TkAssign,
    TkLeftParen,
    TkRightParen,
    TkLeftBracket,
    TkRightBracket,
    TkLeftBrace,
    TkRightBrace,
    TkComma,
    TkSemicolon,
    TkDot,
    TkColon,
    TkDbColon,
    TkLocal,
    TkDo,
    TkEnd,
    TkIf,
    TkThen,
    TkElse,
    TkWhile,
    TkFor,
    TkIn,
    TkRepeat,
    TkUntil,
    TkFunction,
    TkReturn,
    TkBreak,
    TkGoto,
    TkNil,
    TkTrue,
    TkFalse,
    TkString,
    TkNumber,
    TkOp,
    TkWhitespace,
    TkComment,
}

} // verus!
