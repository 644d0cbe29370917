//! Declaration records: the bindings a file introduces.

use vstd::prelude::*;

verus! {

/// Identity of an indexed file, stable while the file stays open.
#[derive(Clone, Copy, Debug, PartialEq, Eq, Structural, Hash)]
pub struct FileId {
    pub id: u32,
}

/// Identity of a declaration: its file and its intra-file sequence number.
#[derive(Clone, Copy, Debug, PartialEq, Eq, Structural, Hash)]
pub struct LuaDeclId {
    pub file_id: FileId,
    pub id: u32,
}

/// The attribute a local declaration may carry: `<const>` or `<close>`.
#[derive(Clone, Copy, Debug, PartialEq, Eq, Structural)]
pub enum LocalAttribute {
    Const,
    Close,
}

/// What kind of binding a declaration introduces.
#[derive(Clone, Copy, Debug)]
pub enum LuaDeclExtra {
    /// A plain `local` binding, with its optional attribute.
    Local { attrib: Option<LocalAttribute> },
    /// A `local function` binding, visible throughout its defining scope.
    LocalFunction,
    /// An implicit global binding created by assignment.
    Global,
    /// A function parameter, with its position in the parameter list.
    Param { idx: u32 },
    /// The control variable of a numeric `for` loop.
    ForVar,
    /// A variable of a generic `for ... in` loop.
    ForRangeVar,
}

/// The classification of a declaration's resolved type, as the type
/// collaborator reports it: a definition, a reference to another
/// declaration, a table-shaped value, or anything else.
#[derive(Clone, Copy, Debug, PartialEq, Eq, Structural)]
pub enum LuaTypeClass {
    Def,
    Ref,
    Table,
    Other,
}

impl LuaTypeClass {
    pub fn is_def(&self) -> (r: bool)
        ensures
            r == (*self is Def),
    {
        matches!(self, LuaTypeClass::Def)
    }

    pub fn is_ref(&self) -> (r: bool)
        ensures
            r == (*self is Ref),
    {
        matches!(self, LuaTypeClass::Ref)
    }

    pub fn is_table(&self) -> (r: bool)
        ensures
            r == (*self is Table),
    {
        matches!(self, LuaTypeClass::Table)
    }
}

/// A declaration: a named binding discovered during a file's walk.  Its
/// type classification starts empty and is filled in lazily by the type
/// collaborator.
pub struct LuaDecl {
    pub name: String,
    pub file_id: FileId,
    pub id: u32,
    pub position: usize,
    pub extra: LuaDeclExtra,
    pub decl_type: Option<LuaTypeClass>,
}

impl LuaDecl {
    /// A fresh declaration; its sequence number is assigned when it enters
    /// a declaration tree.
    pub fn new(name: String, file_id: FileId, position: usize, extra: LuaDeclExtra) -> (r:
        LuaDecl)
        ensures
            r.name == name,
            r.file_id == file_id,
            r.id == 0,
            r.position == position,
            r.extra == extra,
            r.decl_type is None,
    {
        LuaDecl { name, file_id, id: 0, position, extra, decl_type: None }
    }

    pub fn get_name(&self) -> (r: &String)
        ensures
            r@ == self.name@,
    {
        &self.name
    }

    pub fn get_position(&self) -> (r: usize)
        ensures
            r == self.position,
    {
        self.position
    }

    pub fn get_id(&self) -> (r: LuaDeclId)
        ensures
            r == (LuaDeclId { file_id: self.file_id, id: self.id }),
    {
        LuaDeclId { file_id: self.file_id, id: self.id }
    }

    pub fn get_file_id(&self) -> (r: FileId)
        ensures
            r == self.file_id,
    {
        self.file_id
    }

    /// The resolved type classification, once the type collaborator has
    /// supplied one.
    pub fn get_type(&self) -> (r: Option<LuaTypeClass>)
        ensures
            r == self.decl_type,
    {
        self.decl_type
    }

    /// Records the resolved type classification.
    pub fn set_decl_type(&mut self, t: LuaTypeClass)
        ensures
            final(self).decl_type == Some(t),
            final(self).name == old(self).name,
            final(self).file_id == old(self).file_id,
            final(self).id == old(self).id,
            final(self).position == old(self).position,
            final(self).extra == old(self).extra,
    {
        self.decl_type = Some(t);
    }

    /// Whether this declaration creates a global binding.
    pub fn is_global(&self) -> (r: bool)
        ensures
            r == (self.extra is Global),
    {
        matches!(self.extra, LuaDeclExtra::Global)
    }

    /// Whether this declaration is a local binding of any form.
    pub fn is_local(&self) -> (r: bool)
        ensures
            r == (self.extra is Local || self.extra is LocalFunction || self.extra is Param
                || self.extra is ForVar || self.extra is ForRangeVar),
    {
        !matches!(self.extra, LuaDeclExtra::Global)
    }

    /// Whether the binding carries the `<const>` attribute.
    pub fn is_const(&self) -> (r: bool)
        ensures
            r == (self.extra matches LuaDeclExtra::Local {
                attrib: Some(LocalAttribute::Const),
            }),
    {
        matches!(
            self.extra,
            LuaDeclExtra::Local { attrib: Some(LocalAttribute::Const) }
        )
    }

    /// Whether the binding carries the `<close>` attribute.
    pub fn is_close(&self) -> (r: bool)
        ensures
            r == (self.extra matches LuaDeclExtra::Local {
                attrib: Some(LocalAttribute::Close),
            }),
    {
        matches!(
            self.extra,
            LuaDeclExtra::Local { attrib: Some(LocalAttribute::Close) }
        )
    }
}

} // verus!
