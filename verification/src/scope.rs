//! Lexical scopes: nested regions owning declarations in source order.

use vstd::prelude::*;
use crate::decl::{FileId, LuaDeclId};

verus! {

/// Identity of a scope within its file.
#[derive(Clone, Copy, Debug, PartialEq, Eq, Structural, Hash)]
pub struct LuaScopeId {
    pub file_id: FileId,
    pub id: u32,
}

/// The kinds of lexical scopes.
#[derive(Clone, Copy, Debug, PartialEq, Eq, Structural)]
pub enum LuaScopeKind {
    /// A plain statement block.
    Normal,
    /// The body of a `while` or `for` loop.
    Loop,
    /// A `repeat ... until` statement.  Its range reaches through the
    /// `until` condition, so the condition sees the body's locals.
    Repeat,
    /// A function body: a closure boundary.
    Closure,
}

/// One entry of a scope, in source order: a nested scope or a declaration.
#[derive(Clone, Copy, Debug, PartialEq, Eq, Structural)]
pub enum ScopeOrDeclId {
    Scope(LuaScopeId),
    Decl(LuaDeclId),
}

/// A lexical scope: its kind, the character range it covers, its parent,
/// and its items in source order.
pub struct LuaScope {
    pub kind: LuaScopeKind,
    pub parent: Option<u32>,
    pub start: usize,
    pub end: usize,
    pub items: Vec<ScopeOrDeclId>,
}

impl LuaScope {
    pub fn get_kind(&self) -> (r: LuaScopeKind)
        ensures
            r == self.kind,
    {
        self.kind
    }

    pub fn get_parent(&self) -> (r: Option<u32>)
        ensures
            r == self.parent,
    {
        self.parent
    }

    /// The character range the scope covers.
    pub fn get_range(&self) -> (r: (usize, usize))
        ensures
            r == (self.start, self.end),
    {
        (self.start, self.end)
    }
}

} // verus!
