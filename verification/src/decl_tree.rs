//! The per-file declaration tree: it owns every declaration discovered in
//! one file together with the lexical scope forest, and resolves a name at
//! a position by walking the scope chain innermost to outermost.

use vstd::prelude::*;
use crate::decl::{FileId, LuaDecl, LuaDeclId, LuaDeclExtra};
use crate::scope::{LuaScope, LuaScopeId, LuaScopeKind, ScopeOrDeclId};

verus! {

/// A file's declarations and scopes.  Declaration and scope identifiers
/// are indices into the two vectors; the scope at index 0 is the file's
/// root scope.
pub struct LuaDeclarationTree {
    pub file_id: FileId,
    pub decls: Vec<LuaDecl>,
    pub scopes: Vec<LuaScope>,
}

impl LuaDeclarationTree {
    /// A declaration knows its file and its own index.
    pub open spec fn decl_ok(self, i: int) -> bool {
        &&& self.decls@[i].file_id == self.file_id
        &&& self.decls@[i].id == i
    }

    /// One scope item is sound: a declaration item points at a stored
    /// declaration whose position lies inside the scope; a child-scope item
    /// points forward at a stored scope that names this one as its parent
    /// and lies inside its range.
    pub open spec fn item_ok(self, s: int, it: ScopeOrDeclId) -> bool {
        match it {
            ScopeOrDeclId::Decl(d) => {
                &&& d.file_id == self.file_id
                &&& (d.id as int) < self.decls@.len()
                &&& self.scopes@[s].start <= self.decls@[d.id as int].position
                    < self.scopes@[s].end
            },
            ScopeOrDeclId::Scope(c) => {
                &&& c.file_id == self.file_id
                &&& s < (c.id as int) < self.scopes@.len()
                &&& self.scopes@[c.id as int].parent matches Some(p) && (p as int) == s
                &&& self.scopes@[c.id as int].start >= self.scopes@[s].start
                &&& self.scopes@[c.id as int].end <= self.scopes@[s].end
            },
        }
    }

    /// A scope is sound: only the root lacks a parent, parents stand
    /// earlier in the vector, the range is ordered, and every item is
    /// sound.
    pub open spec fn scope_ok(self, s: int) -> bool {
        &&& (s == 0 <==> self.scopes@[s].parent is None)
        &&& (self.scopes@[s].parent matches Some(p) ==> (p as int) < s)
        &&& self.scopes@[s].start <= self.scopes@[s].end
        &&& forall|k: int|
            0 <= k < self.scopes@[s].items@.len() ==> self.item_ok(
                s,
                #[trigger] self.scopes@[s].items@[k],
            )
    }

    /// Well-formedness of the whole tree.
    pub open spec fn wf(self) -> bool {
        &&& self.scopes@.len() >= 1
        &&& forall|i: int| 0 <= i < self.decls@.len() ==> #[trigger] self.decl_ok(i)
        &&& forall|s: int| 0 <= s < self.scopes@.len() ==> #[trigger] self.scope_ok(s)
    }

    /// A fresh tree for one file, holding only the root scope over the
    /// given character range.
    pub fn new(file_id: FileId, start: usize, end: usize) -> (r: LuaDeclarationTree)
        requires
            start <= end,
        ensures
            r.wf(),
            r.file_id == file_id,
            r.decls@.len() == 0,
            r.scopes@.len() == 1,
            r.scopes@[0].kind == LuaScopeKind::Normal,
            r.scopes@[0].parent is None,
            r.scopes@[0].start == start,
            r.scopes@[0].end == end,
            r.scopes@[0].items@.len() == 0,
    {
        let mut scopes: Vec<LuaScope> = Vec::new();
        scopes.push(
            LuaScope { kind: LuaScopeKind::Normal, parent: None, start, end, items: Vec::new() },
        );
        LuaDeclarationTree { file_id, decls: Vec::new(), scopes }
    }

    pub fn file_id(&self) -> (r: FileId)
        ensures
            r == self.file_id,
    {
        self.file_id
    }

    /// Opens a child scope under `parent`, covering `[start, end)` inside
    /// the parent's range, and records it as the parent's next item.
    pub fn create_scope(
        &mut self,
        parent: LuaScopeId,
        kind: LuaScopeKind,
        start: usize,
        end: usize,
    ) -> (r: LuaScopeId)
        requires
            old(self).wf(),
            old(self).scopes@.len() < u32::MAX,
            parent.file_id == old(self).file_id,
            (parent.id as int) < old(self).scopes@.len(),
            old(self).scopes@[parent.id as int].start <= start,
            start <= end,
            end <= old(self).scopes@[parent.id as int].end,
        ensures
            final(self).wf(),
            r == (LuaScopeId { file_id: old(self).file_id, id: old(self).scopes@.len() as u32 }),
            final(self).file_id == old(self).file_id,
            final(self).decls@ == old(self).decls@,
            final(self).scopes@.len() == old(self).scopes@.len() + 1,
            final(self).scopes@[r.id as int].kind == kind,
            final(self).scopes@[r.id as int].parent == Some(parent.id),
            final(self).scopes@[r.id as int].start == start,
            final(self).scopes@[r.id as int].end == end,
            final(self).scopes@[r.id as int].items@.len() == 0,
            final(self).scopes@[parent.id as int].items@ == old(self).scopes@[parent.id as int].items@.push(ScopeOrDeclId::Scope(r)),
            final(self).scopes@[parent.id as int].kind == old(self).scopes@[parent.id as int].kind,
            final(self).scopes@[parent.id as int].parent == old(self).scopes@[parent.id as int].parent,
            final(self).scopes@[parent.id as int].start == old(self).scopes@[parent.id as int].start,
            final(self).scopes@[parent.id as int].end == old(self).scopes@[parent.id as int].end,
            forall|j: int|
                0 <= j < old(self).scopes@.len() && j != parent.id as int ==> final(self).scopes@[j] == #[trigger] old(self).scopes@[j],
    {
        let sid = LuaScopeId { file_id: self.file_id, id: self.scopes.len() as u32 };
        self.scopes.push(
            LuaScope { kind, parent: Some(parent.id), start, end, items: Vec::new() },
        );
        let p = parent.id as usize;
        self.scopes[p].items.push(ScopeOrDeclId::Scope(sid));
        proof {
            let post = *self;
            let prev = *old(self);
            assert forall|i: int| 0 <= i < post.decls@.len() implies #[trigger] post.decl_ok(i) by {
                assert(prev.decl_ok(i));
            }
            assert forall|s: int| 0 <= s < post.scopes@.len() implies #[trigger] post.scope_ok(s)
                by {
                if s < prev.scopes@.len() {
                    assert(prev.scope_ok(s));
                    assert forall|k: int| 0 <= k < post.scopes@[s].items@.len() implies post
                        .item_ok(s, #[trigger] post.scopes@[s].items@[k]) by {
                        if s == parent.id as int && k == post.scopes@[s].items@.len() - 1 {
                            assert(post.scopes@[s].items@[k] == ScopeOrDeclId::Scope(sid));
                        } else {
                            assert(post.scopes@[s].items@[k] == prev.scopes@[s].items@[k]);
                            assert(prev.item_ok(s, prev.scopes@[s].items@[k]));
                        }
                    }
                } else {
                    assert(s == post.scopes@.len() - 1);
                    assert(post.scopes@[s].items@.len() == 0);
                }
            }
        }
        sid
    }

    /// Adds a declaration to the given scope; its position must lie inside
    /// the scope's range.  Returns the declaration's identity; its sequence
    /// number is assigned here.
    pub fn add_decl(&mut self, scope: LuaScopeId, decl: LuaDecl) -> (r: LuaDeclId)
        requires
            old(self).wf(),
            old(self).decls@.len() < u32::MAX,
            scope.file_id == old(self).file_id,
            (scope.id as int) < old(self).scopes@.len(),
            decl.file_id == old(self).file_id,
            old(self).scopes@[scope.id as int].start <= decl.position,
            decl.position < old(self).scopes@[scope.id as int].end,
        ensures
            final(self).wf(),
            r == (LuaDeclId { file_id: old(self).file_id, id: old(self).decls@.len() as u32 }),
            final(self).file_id == old(self).file_id,
            final(self).scopes@.len() == old(self).scopes@.len(),
            final(self).decls@.len() == old(self).decls@.len() + 1,
            final(self).decls@[r.id as int].name == decl.name,
            final(self).decls@[r.id as int].position == decl.position,
            final(self).decls@[r.id as int].extra == decl.extra,
            final(self).decls@[r.id as int].decl_type == decl.decl_type,
            final(self).decls@[r.id as int].file_id == decl.file_id,
            final(self).decls@[r.id as int].id == r.id,
            forall|i: int|
                0 <= i < old(self).decls@.len() ==> final(self).decls@[i] == #[trigger] old(self).decls@[i],
            final(self).scopes@[scope.id as int].items@ == old(self).scopes@[scope.id as int].items@.push(ScopeOrDeclId::Decl(r)),
            final(self).scopes@[scope.id as int].kind == old(self).scopes@[scope.id as int].kind,
            final(self).scopes@[scope.id as int].parent == old(self).scopes@[scope.id as int].parent,
            final(self).scopes@[scope.id as int].start == old(self).scopes@[scope.id as int].start,
            final(self).scopes@[scope.id as int].end == old(self).scopes@[scope.id as int].end,
            forall|j: int|
                0 <= j < old(self).scopes@.len() && j != scope.id as int ==> final(self).scopes@[j] == #[trigger] old(self).scopes@[j],
    {
        let did = LuaDeclId { file_id: self.file_id, id: self.decls.len() as u32 };
        let mut d = decl;
        d.id = did.id;
        self.decls.push(d);
        let s = scope.id as usize;
        self.scopes[s].items.push(ScopeOrDeclId::Decl(did));
        proof {
            let post = *self;
            let prev = *old(self);
            assert forall|i: int| 0 <= i < post.decls@.len() implies #[trigger] post.decl_ok(i) by {
                if i < prev.decls@.len() {
                    assert(prev.decl_ok(i));
                }
            }
            assert forall|s2: int| 0 <= s2 < post.scopes@.len() implies #[trigger] post.scope_ok(
                s2,
            ) by {
                assert(prev.scope_ok(s2));
                assert forall|k: int| 0 <= k < post.scopes@[s2].items@.len() implies post.item_ok(
                    s2,
                    #[trigger] post.scopes@[s2].items@[k],
                ) by {
                    if s2 == scope.id as int && k == post.scopes@[s2].items@.len() - 1 {
                        assert(post.scopes@[s2].items@[k] == ScopeOrDeclId::Decl(did));
                    } else {
                        assert(post.scopes@[s2].items@[k] == prev.scopes@[s2].items@[k]);
                        assert(prev.item_ok(s2, prev.scopes@[s2].items@[k]));
                    }
                }
            }
        }
        did
    }

    /// Looks a scope up by its identity.
    pub fn get_scope(&self, scope_id: &LuaScopeId) -> (r: Option<&LuaScope>)
        ensures
            (r is Some) <==> (scope_id.file_id == self.file_id && (scope_id.id as int)
                < self.scopes@.len()),
            r matches Some(s) ==> *s == self.scopes@[scope_id.id as int],
    {
        if scope_id.file_id.id == self.file_id.id {
            let i = scope_id.id as usize;
            if i < self.scopes.len() {
                Some(&self.scopes[i])
            } else {
                None
            }
        } else {
            None
        }
    }

    /// Looks a declaration up by its identity.
    pub fn get_decl(&self, decl_id: &LuaDeclId) -> (r: Option<&LuaDecl>)
        ensures
            (r is Some) <==> (decl_id.file_id == self.file_id && (decl_id.id as int)
                < self.decls@.len()),
            r matches Some(d) ==> *d == self.decls@[decl_id.id as int],
    {
        if decl_id.file_id.id == self.file_id.id {
            let i = decl_id.id as usize;
            if i < self.decls.len() {
                Some(&self.decls[i])
            } else {
                None
            }
        } else {
            None
        }
    }

    /// Records the resolved type classification of one declaration, as the
    /// type collaborator hands it over.  Returns false when the identity
    /// names no declaration of this tree.
    pub fn set_decl_type(&mut self, decl_id: &LuaDeclId, t: crate::decl::LuaTypeClass) -> (r:
        bool)
        ensures
            r == (decl_id.file_id == old(self).file_id && (decl_id.id as int) < old(self).decls@.len()),
            final(self).file_id == old(self).file_id,
            final(self).scopes@ == old(self).scopes@,
            final(self).decls@.len() == old(self).decls@.len(),
            !r ==> final(self).decls@ == old(self).decls@,
            r ==> final(self).decls@[decl_id.id as int].decl_type == Some(t),
            r ==> final(self).decls@[decl_id.id as int].name == old(self).decls@[decl_id.id as int].name,
            r ==> final(self).decls@[decl_id.id as int].position == old(self).decls@[decl_id.id as int].position,
            r ==> final(self).decls@[decl_id.id as int].extra == old(self).decls@[decl_id.id as int].extra,
            r ==> final(self).decls@[decl_id.id as int].file_id == old(self).decls@[decl_id.id as int].file_id,
            r ==> final(self).decls@[decl_id.id as int].id == old(self).decls@[decl_id.id as int].id,
            forall|i: int|
                0 <= i < old(self).decls@.len() && i != decl_id.id as int ==> final(self).decls@[i] == #[trigger] old(self).decls@[i],
            old(self).wf() ==> final(self).wf(),
    {
        if decl_id.file_id.id == self.file_id.id {
            let i = decl_id.id as usize;
            if i < self.decls.len() {
                self.decls[i].set_decl_type(t);
                proof {
                    let post = *self;
                    let prev = *old(self);
                    if prev.wf() {
                        assert forall|j: int| 0 <= j < post.decls@.len() implies
                            #[trigger] post.decl_ok(j) by {
                            assert(prev.decl_ok(j));
                        }
                        assert forall|s: int| 0 <= s < post.scopes@.len() implies
                            #[trigger] post.scope_ok(s) by {
                            assert(prev.scope_ok(s));
                            assert forall|k: int| 0 <= k < post.scopes@[s].items@.len() implies
                                post.item_ok(s, #[trigger] post.scopes@[s].items@[k]) by {
                                assert(prev.item_ok(s, prev.scopes@[s].items@[k]));
                            }
                        }
                    }
                }
                return true;
            }
        }
        false
    }
}

impl LuaDeclarationTree {
    /// The first item at or after `k` in scope `s` that is a child scope
    /// whose range contains `pos`.
    pub open spec fn first_containing_child(self, s: int, k: int, pos: int) -> Option<int>
        decreases self.scopes@[s].items@.len() - k,
    {
        let items = self.scopes@[s].items@;
        if k < 0 || k >= items.len() {
            None
        } else {
            match items[k] {
                ScopeOrDeclId::Scope(c) => if self.scopes@[c.id as int].start <= pos
                    < self.scopes@[c.id as int].end {
                    Some(k)
                } else {
                    self.first_containing_child(s, k + 1, pos)
                },
                ScopeOrDeclId::Decl(_) => self.first_containing_child(s, k + 1, pos),
            }
        }
    }

    /// What a successful child search means.
    pub proof fn lemma_first_containing_member(self, s: int, k: int, pos: int)
        requires
            self.first_containing_child(s, k, pos) is Some,
        ensures
            k <= self.first_containing_child(s, k, pos)->Some_0 < self.scopes@[s].items@.len(),
            self.scopes@[s].items@[self.first_containing_child(s, k, pos)->Some_0] is Scope,
        decreases self.scopes@[s].items@.len() - k,
    {
        let items = self.scopes@[s].items@;
        if 0 <= k < items.len() {
            match items[k] {
                ScopeOrDeclId::Scope(c) => {
                    if !(self.scopes@[c.id as int].start <= pos < self.scopes@[c.id as int].end) {
                        self.lemma_first_containing_member(s, k + 1, pos);
                    }
                },
                ScopeOrDeclId::Decl(_) => {
                    self.lemma_first_containing_member(s, k + 1, pos);
                },
            }
        }
    }

    /// The innermost scope containing `pos`, found by descending from `s`
    /// into the first child scope whose range contains `pos`.
    pub open spec fn spec_innermost_from(self, s: int, pos: int) -> int
        decreases self.scopes@.len() - s
            when 0 <= s < self.scopes@.len() && self.wf()
            via Self::innermost_decreases
    {
        match self.first_containing_child(s, 0, pos) {
            Some(k) => {
                let c = self.scopes@[s].items@[k]->Scope_0;
                self.spec_innermost_from(c.id as int, pos)
            },
            None => s,
        }
    }

    #[via_fn]
    proof fn innermost_decreases(self, s: int, pos: int) {
        match self.first_containing_child(s, 0, pos) {
            Some(k) => {
                self.lemma_first_containing_member(s, 0, pos);
                assert(self.scope_ok(s));
                assert(self.item_ok(s, self.scopes@[s].items@[k]));
            },
            None => {},
        }
    }

    /// Whether a scope item is a declaration of this name visible at `pos`:
    /// its position must precede `pos`, except that a `local function` is
    /// visible throughout its defining scope.
    pub open spec fn item_matches(self, it: ScopeOrDeclId, name: Seq<char>, pos: int) -> bool {
        match it {
            ScopeOrDeclId::Decl(d) => {
                let decl = self.decls@[d.id as int];
                decl.name@ == name && (decl.position < pos || decl.extra is LocalFunction)
            },
            ScopeOrDeclId::Scope(_) => false,
        }
    }

    /// The last of the first `k` items that is a visible declaration of
    /// `name`: the latest matching declaration wins within one scope.
    pub open spec fn find_in_items(
        self,
        items: Seq<ScopeOrDeclId>,
        k: int,
        name: Seq<char>,
        pos: int,
    ) -> Option<LuaDeclId>
        decreases k,
    {
        if k <= 0 {
            None
        } else if self.item_matches(items[k - 1], name, pos) {
            Some(items[k - 1]->Decl_0)
        } else {
            self.find_in_items(items, k - 1, name, pos)
        }
    }

    /// Resolution from scope `s` outward: the latest visible declaration in
    /// `s`, else the parent's answer, else nothing.
    pub open spec fn spec_resolve_from(self, s: int, name: Seq<char>, pos: int) -> Option<
        LuaDeclId,
    >
        decreases s
            when 0 <= s < self.scopes@.len() && self.wf()
            via Self::resolve_decreases
    {
        match self.find_in_items(
            self.scopes@[s].items@,
            self.scopes@[s].items@.len() as int,
            name,
            pos,
        ) {
            Some(d) => Some(d),
            None => match self.scopes@[s].parent {
                Some(p) => self.spec_resolve_from(p as int, name, pos),
                None => None,
            },
        }
    }

    #[via_fn]
    proof fn resolve_decreases(self, s: int, name: Seq<char>, pos: int) {
        assert(self.scope_ok(s));
    }

    /// What resolving a name at a position means: walk outward from the
    /// innermost scope containing the position.
    pub open spec fn spec_resolve(self, name: Seq<char>, pos: int) -> Option<LuaDeclId> {
        self.spec_resolve_from(self.spec_innermost_from(0, pos), name, pos)
    }

    /// The innermost scope whose range contains `pos`, descending from the
    /// root.
    pub fn innermost_scope_at(&self, pos: usize) -> (r: usize)
        requires
            self.wf(),
        ensures
            r == self.spec_innermost_from(0, pos as int),
            r < self.scopes@.len(),
    {
        let mut cur: usize = 0;
        loop
            invariant
                self.wf(),
                cur < self.scopes@.len(),
                self.spec_innermost_from(0, pos as int) == self.spec_innermost_from(
                    cur as int,
                    pos as int,
                ),
            decreases self.scopes@.len() - cur,
        {
            let items = &self.scopes[cur].items;
            let mut k: usize = 0;
            let mut found: Option<usize> = None;
            while k < items.len() && found.is_none()
                invariant
                    self.wf(),
                    cur < self.scopes@.len(),
                    k <= items@.len(),
                    items@ == self.scopes@[cur as int].items@,
                    match found {
                        Some(f) => self.first_containing_child(cur as int, 0, pos as int)
                            == Some(f as int) && f < items@.len(),
                        None => self.first_containing_child(cur as int, 0, pos as int)
                            == self.first_containing_child(cur as int, k as int, pos as int),
                    },
                decreases items@.len() - k, (if found is Some {
                    0int
                } else {
                    1int
                }),
            {
                match &items[k] {
                    ScopeOrDeclId::Scope(c) => {
                        proof {
                            assert(self.scope_ok(cur as int));
                            assert(self.item_ok(cur as int, self.scopes@[cur as int].items@[k as int]));
                        }
                        let ci = c.id as usize;
                        if self.scopes[ci].start <= pos && pos < self.scopes[ci].end {
                            proof {
                                assert(self.first_containing_child(cur as int, k as int, pos as int)
                                    == Some(k as int));
                            }
                            found = Some(k);
                        } else {
                            k = k + 1;
                        }
                    },
                    ScopeOrDeclId::Decl(_) => {
                        k = k + 1;
                    },
                }
            }
            match found {
                Some(f) => {
                    proof {
                        assert(self.scope_ok(cur as int));
                        assert(self.item_ok(cur as int, self.scopes@[cur as int].items@[f as int]));
                    }
                    match &self.scopes[cur].items[f] {
                        ScopeOrDeclId::Scope(c) => {
                            cur = c.id as usize;
                        },
                        ScopeOrDeclId::Decl(_) => {
                            proof {
                                self.lemma_first_containing_member(cur as int, 0, pos as int);
                                assert(false);
                            }
                        },
                    }
                },
                None => {
                    proof {
                        assert(self.first_containing_child(cur as int, k as int, pos as int)
                            is None);
                    }
                    return cur;
                },
            }
        }
    }

    /// Resolution walking outward from scope `s`.
    fn resolve_from(&self, s: usize, name: &String, pos: usize) -> (r: Option<LuaDeclId>)
        requires
            self.wf(),
            (s as int) < self.scopes@.len(),
        ensures
            r == self.spec_resolve_from(s as int, name@, pos as int),
        decreases s,
    {
        let items = &self.scopes[s].items;
        let mut k: usize = items.len();
        while k > 0
            invariant
                self.wf(),
                (s as int) < self.scopes@.len(),
                k <= items@.len(),
                items@ == self.scopes@[s as int].items@,
                self.find_in_items(items@, items@.len() as int, name@, pos as int)
                    == self.find_in_items(items@, k as int, name@, pos as int),
            decreases k,
        {
            match &items[k - 1] {
                ScopeOrDeclId::Decl(d) => {
                    proof {
                        assert(self.scope_ok(s as int));
                        assert(self.item_ok(s as int, self.scopes@[s as int].items@[k - 1]));
                    }
                    let di = d.id as usize;
                    let decl = &self.decls[di];
                    if decl.name == *name && (decl.position < pos || matches!(
                        decl.extra,
                        LuaDeclExtra::LocalFunction
                    )) {
                        return Some(LuaDeclId { file_id: d.file_id, id: d.id });
                    }
                },
                ScopeOrDeclId::Scope(_) => {},
            }
            k = k - 1;
        }
        proof {
            assert(self.scope_ok(s as int));
        }
        match self.scopes[s].parent {
            Some(p) => self.resolve_from(p as usize, name, pos),
            None => None,
        }
    }

    /// Resolves `name` as seen from character position `pos`: the latest
    /// declaration of that name visible there, walking scopes innermost to
    /// outermost; `None` falls through to the global declaration table.
    pub fn find_local_decl(&self, name: &String, pos: usize) -> (r: Option<LuaDeclId>)
        requires
            self.wf(),
        ensures
            r == self.spec_resolve(name@, pos as int),
    {
        let s = self.innermost_scope_at(pos);
        self.resolve_from(s, name, pos)
    }
}

impl LuaDeclarationTree {
    /// What a hit of the item scan means: some scanned item is a matching
    /// declaration item, and the result is its identifier.
    proof fn lemma_find_in_items_member(
        self,
        items: Seq<ScopeOrDeclId>,
        k: int,
        name: Seq<char>,
        pos: int,
    )
        requires
            k <= items.len(),
            self.find_in_items(items, k, name, pos) is Some,
        ensures
            exists|m: int|
                0 <= m < k && #[trigger] items[m] == ScopeOrDeclId::Decl(
                    self.find_in_items(items, k, name, pos)->Some_0,
                ) && self.item_matches(items[m], name, pos),
        decreases k,
    {
        if k > 0 {
            if self.item_matches(items[k - 1], name, pos) {
                assert(items[k - 1] == ScopeOrDeclId::Decl(
                    self.find_in_items(items, k, name, pos)->Some_0,
                ));
            } else {
                self.lemma_find_in_items_member(items, k - 1, name, pos);
            }
        }
    }

    /// The innermost-scope descent stays inside the scope vector.
    proof fn lemma_innermost_bounds(self, s: int, pos: int)
        requires
            self.wf(),
            0 <= s < self.scopes@.len(),
        ensures
            0 <= self.spec_innermost_from(s, pos) < self.scopes@.len(),
        decreases self.scopes@.len() - s,
    {
        match self.first_containing_child(s, 0, pos) {
            Some(k) => {
                self.lemma_first_containing_member(s, 0, pos);
                assert(self.scope_ok(s));
                assert(self.item_ok(s, self.scopes@[s].items@[k]));
                let c = self.scopes@[s].items@[k]->Scope_0;
                self.lemma_innermost_bounds(c.id as int, pos);
            },
            None => {},
        }
    }

    /// Resolution soundness along the chain: a hit names a stored
    /// declaration bearing the name, visible at the position.
    proof fn lemma_resolve_from_member(self, s: int, name: Seq<char>, pos: int)
        requires
            self.wf(),
            0 <= s < self.scopes@.len(),
            self.spec_resolve_from(s, name, pos) is Some,
        ensures
            ({
                let id = self.spec_resolve_from(s, name, pos)->Some_0;
                &&& id.file_id == self.file_id
                &&& (id.id as int) < self.decls@.len()
                &&& self.decls@[id.id as int].name@ == name
                &&& (self.decls@[id.id as int].position < pos || self.decls@[
                    id.id as int
                ].extra is LocalFunction)
            }),
        decreases s,
    {
        let items = self.scopes@[s].items@;
        assert(self.scope_ok(s));
        match self.find_in_items(items, items.len() as int, name, pos) {
            Some(id) => {
                self.lemma_find_in_items_member(items, items.len() as int, name, pos);
                let m = choose|m: int|
                    0 <= m < items.len() && #[trigger] items[m] == ScopeOrDeclId::Decl(id)
                        && self.item_matches(items[m], name, pos);
                assert(self.item_ok(s, items[m]));
            },
            None => {
                match self.scopes@[s].parent {
                    Some(p) => {
                        self.lemma_resolve_from_member(p as int, name, pos);
                    },
                    None => {},
                }
            },
        }
    }

    /// Resolution soundness: a successful `spec_resolve` names a stored
    /// declaration bearing the name, visible at the position.
    pub proof fn lemma_resolve_member(self, name: Seq<char>, pos: int)
        requires
            self.wf(),
            self.spec_resolve(name, pos) is Some,
        ensures
            ({
                let id = self.spec_resolve(name, pos)->Some_0;
                &&& id.file_id == self.file_id
                &&& (id.id as int) < self.decls@.len()
                &&& self.decls@[id.id as int].name@ == name
                &&& (self.decls@[id.id as int].position < pos || self.decls@[
                    id.id as int
                ].extra is LocalFunction)
            }),
    {
        self.lemma_innermost_bounds(0, pos);
        self.lemma_resolve_from_member(self.spec_innermost_from(0, pos), name, pos);
    }
}

/// Scope containment: in a well-formed tree, the defining position of every
/// declaration a scope owns lies inside that scope's character range.
pub proof fn lemma_scope_containment(
    tree: LuaDeclarationTree,
    s: int,
    k: int,
    d: LuaDeclId,
)
    requires
        tree.wf(),
        0 <= s < tree.scopes@.len(),
        0 <= k < tree.scopes@[s].items@.len(),
        tree.scopes@[s].items@[k] == ScopeOrDeclId::Decl(d),
    ensures
        tree.scopes@[s].start <= tree.decls@[d.id as int].position < tree.scopes@[s].end,
{
    assert(tree.scope_ok(s));
    assert(tree.item_ok(s, tree.scopes@[s].items@[k]));
}

} // verus!
