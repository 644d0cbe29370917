//! The cross-file declaration index: per-file declaration trees and the
//! global declaration table, with its deterministic disambiguation rule.

use vstd::prelude::*;
use crate::decl::{FileId, LuaDecl, LuaDeclId};
use crate::decl_tree::LuaDeclarationTree;

verus! {

/// A key of the global table: a plain name, or a computed integer key, so
/// array-style and named members share one lookup path.
pub enum LuaMemberKey {
    Name(String),
    Integer(i64),
}

impl LuaMemberKey {
    /// Key equality: same variant, same contents.
    pub open spec fn key_eq(self, other: LuaMemberKey) -> bool {
        match (self, other) {
            (LuaMemberKey::Name(a), LuaMemberKey::Name(b)) => a@ == b@,
            (LuaMemberKey::Integer(a), LuaMemberKey::Integer(b)) => a == b,
            _ => false,
        }
    }

    /// Whether this key is the plain name `name`.
    pub open spec fn is_name(self, name: Seq<char>) -> bool {
        self matches LuaMemberKey::Name(s) && s@ == name
    }

    pub fn eq_key(&self, other: &LuaMemberKey) -> (r: bool)
        ensures
            r == self.key_eq(*other),
    {
        match (self, other) {
            (LuaMemberKey::Name(a), LuaMemberKey::Name(b)) => *a == *b,
            (LuaMemberKey::Integer(a), LuaMemberKey::Integer(b)) => *a == *b,
            _ => false,
        }
    }
}

/// One entry of the global table: a key and the declarations registered
/// for it, in registration order.
pub struct GlobalEntry {
    pub key: LuaMemberKey,
    pub decls: Vec<LuaDeclId>,
}

/// The declaration index: one declaration tree per indexed file, and the
/// global declaration table.
pub struct LuaDeclIndex {
    pub decl_trees: Vec<LuaDeclarationTree>,
    pub global_decl: Vec<GlobalEntry>,
}

/// The trees of `ts` that do not belong to `fid`, in order.
pub open spec fn trees_without(ts: Seq<LuaDeclarationTree>, fid: FileId) -> Seq<
    LuaDeclarationTree,
>
    decreases ts.len(),
{
    if ts.len() == 0 {
        Seq::empty()
    } else {
        let rest = trees_without(ts.drop_first(), fid);
        if ts.first().file_id == fid {
            rest
        } else {
            seq![ts.first()] + rest
        }
    }
}

/// The identifiers of `v` that do not belong to `fid`, in order.
pub open spec fn ids_without(v: Seq<LuaDeclId>, fid: FileId) -> Seq<LuaDeclId>
    decreases v.len(),
{
    if v.len() == 0 {
        Seq::empty()
    } else {
        let rest = ids_without(v.drop_first(), fid);
        if v.first().file_id == fid {
            rest
        } else {
            seq![v.first()] + rest
        }
    }
}

/// The global table after dropping every identifier of `fid`: each entry's
/// list is filtered, and entries left empty disappear.
pub open spec fn globals_without(gs: Seq<(LuaMemberKey, Seq<LuaDeclId>)>, fid: FileId) -> Seq<
    (LuaMemberKey, Seq<LuaDeclId>),
>
    decreases gs.len(),
{
    if gs.len() == 0 {
        Seq::empty()
    } else {
        let rest = globals_without(gs.drop_first(), fid);
        let w = ids_without(gs.first().1, fid);
        if w.len() == 0 {
            rest
        } else {
            seq![(gs.first().0, w)] + rest
        }
    }
}

/// Removal is complete: no identifier of the removed file survives the
/// filter.
pub proof fn lemma_ids_without_complete(v: Seq<LuaDeclId>, fid: FileId)
    ensures
        forall|j: int| 0 <= j < ids_without(v, fid).len() ==> (#[trigger] ids_without(v, fid)[j]).file_id
            != fid,
    decreases v.len(),
{
    if v.len() > 0 {
        lemma_ids_without_complete(v.drop_first(), fid);
        assert forall|j: int| 0 <= j < ids_without(v, fid).len() implies (#[trigger] ids_without(
            v,
            fid,
        )[j]).file_id != fid by {
            if v.first().file_id == fid {
                assert(ids_without(v, fid)[j] == ids_without(v.drop_first(), fid)[j]);
            } else if j == 0 {
                assert(ids_without(v, fid)[0] == v.first());
            } else {
                assert(ids_without(v, fid)[j] == ids_without(v.drop_first(), fid)[j - 1]);
            }
        }
    }
}

/// Removal is complete for the whole table: after the filter, no entry
/// holds an identifier of the removed file.
pub proof fn lemma_globals_without_complete(gs: Seq<(LuaMemberKey, Seq<LuaDeclId>)>, fid: FileId)
    ensures
        forall|m: int, j: int|
            0 <= m < globals_without(gs, fid).len() && 0 <= j < globals_without(gs, fid)[m].1.len()
                ==> (#[trigger] globals_without(gs, fid)[m].1[j]).file_id != fid,
    decreases gs.len(),
{
    if gs.len() > 0 {
        lemma_globals_without_complete(gs.drop_first(), fid);
        lemma_ids_without_complete(gs.first().1, fid);
        let w = ids_without(gs.first().1, fid);
        assert forall|m: int, j: int|
            0 <= m < globals_without(gs, fid).len() && 0 <= j < globals_without(
                gs,
                fid,
            )[m].1.len() implies (#[trigger] globals_without(gs, fid)[m].1[j]).file_id != fid by {
            if w.len() == 0 {
                assert(globals_without(gs, fid)[m] == globals_without(gs.drop_first(), fid)[m]);
            } else if m == 0 {
                assert(globals_without(gs, fid)[0] == (gs.first().0, w));
            } else {
                assert(globals_without(gs, fid)[m] == globals_without(
                    gs.drop_first(),
                    fid,
                )[m - 1]);
            }
        }
    }
}

/// Filtering identifiers twice filters once.
pub proof fn lemma_ids_without_idempotent(v: Seq<LuaDeclId>, fid: FileId)
    ensures
        ids_without(ids_without(v, fid), fid) == ids_without(v, fid),
    decreases v.len(),
{
    if v.len() > 0 {
        lemma_ids_without_idempotent(v.drop_first(), fid);
        if v.first().file_id != fid {
            assert((seq![v.first()] + ids_without(v.drop_first(), fid)).drop_first()
                =~= ids_without(v.drop_first(), fid));
            assert((seq![v.first()] + ids_without(v.drop_first(), fid)).first() == v.first());
        }
    }
}

/// Removing a file is idempotent on the trees: a second removal finds
/// nothing to drop.
pub proof fn lemma_trees_without_idempotent(ts: Seq<LuaDeclarationTree>, fid: FileId)
    ensures
        trees_without(trees_without(ts, fid), fid) == trees_without(ts, fid),
    decreases ts.len(),
{
    if ts.len() > 0 {
        lemma_trees_without_idempotent(ts.drop_first(), fid);
        if ts.first().file_id != fid {
            assert((seq![ts.first()] + trees_without(ts.drop_first(), fid)).drop_first()
                =~= trees_without(ts.drop_first(), fid));
            assert((seq![ts.first()] + trees_without(ts.drop_first(), fid)).first()
                == ts.first());
        }
    }
}

/// Every tree the filter keeps is one of the trees filtered.
proof fn lemma_trees_without_member(ts: Seq<LuaDeclarationTree>, fid: FileId, m: int)
    requires
        0 <= m < trees_without(ts, fid).len(),
    ensures
        exists|k: int| 0 <= k < ts.len() && trees_without(ts, fid)[m] == #[trigger] ts[k],
    decreases ts.len(),
{
    if ts.len() > 0 {
        let res = trees_without(ts, fid);
        let rest = trees_without(ts.drop_first(), fid);
        if ts.first().file_id == fid {
            lemma_trees_without_member(ts.drop_first(), fid, m);
            let k = choose|k: int| 0 <= k < ts.drop_first().len() && rest[m] == #[trigger] ts
                .drop_first()[k];
            assert(res[m] == ts[k + 1]);
        } else if m == 0 {
            assert(res[0] == ts.first());
            assert(res[0] == ts[0]);
        } else {
            assert(res[m] == rest[m - 1]);
            lemma_trees_without_member(ts.drop_first(), fid, m - 1);
            let k = choose|k: int| 0 <= k < ts.drop_first().len() && rest[m - 1] == #[trigger] ts
                .drop_first()[k];
            assert(res[m] == ts[k + 1]);
        }
    }
}

/// Distinct files stay distinct under the filter.
proof fn lemma_trees_without_distinct(ts: Seq<LuaDeclarationTree>, fid: FileId)
    requires
        forall|i: int, j: int|
            0 <= i < j < ts.len() ==> (#[trigger] ts[i]).file_id != (#[trigger] ts[j]).file_id,
    ensures
        forall|i: int, j: int|
            0 <= i < j < trees_without(ts, fid).len() ==> (#[trigger] trees_without(
                ts,
                fid,
            )[i]).file_id != (#[trigger] trees_without(ts, fid)[j]).file_id,
    decreases ts.len(),
{
    if ts.len() > 0 {
        let res = trees_without(ts, fid);
        let rest = trees_without(ts.drop_first(), fid);
        assert forall|i: int, j: int|
            0 <= i < j < ts.drop_first().len() implies (#[trigger] ts.drop_first()[i]).file_id
            != (#[trigger] ts.drop_first()[j]).file_id by {
            assert(ts.drop_first()[i] == ts[i + 1]);
            assert(ts.drop_first()[j] == ts[j + 1]);
        }
        lemma_trees_without_distinct(ts.drop_first(), fid);
        assert forall|i: int, j: int| 0 <= i < j < res.len() implies (#[trigger] res[i]).file_id
            != (#[trigger] res[j]).file_id by {
            if ts.first().file_id == fid {
                assert(res[i] == rest[i]);
                assert(res[j] == rest[j]);
            } else if i == 0 {
                assert(res[0] == ts[0]);
                assert(res[j] == rest[j - 1]);
                lemma_trees_without_member(ts.drop_first(), fid, j - 1);
                let k = choose|k: int|
                    0 <= k < ts.drop_first().len() && rest[j - 1] == #[trigger] ts.drop_first()[k];
                assert(ts.drop_first()[k] == ts[k + 1]);
            } else {
                assert(res[i] == rest[i - 1]);
                assert(res[j] == rest[j - 1]);
            }
        }
    }
}

/// Every entry the filter keeps bears the key of one of the entries
/// filtered.
proof fn lemma_globals_without_member(gs: Seq<(LuaMemberKey, Seq<LuaDeclId>)>, fid: FileId, m: int)
    requires
        0 <= m < globals_without(gs, fid).len(),
    ensures
        exists|k: int|
            0 <= k < gs.len() && globals_without(gs, fid)[m].0 == (#[trigger] gs[k]).0,
    decreases gs.len(),
{
    if gs.len() > 0 {
        let res = globals_without(gs, fid);
        let rest = globals_without(gs.drop_first(), fid);
        let w = ids_without(gs.first().1, fid);
        if w.len() == 0 {
            lemma_globals_without_member(gs.drop_first(), fid, m);
            let k = choose|k: int|
                0 <= k < gs.drop_first().len() && rest[m].0 == (#[trigger] gs.drop_first()[k]).0;
            assert(res[m].0 == gs[k + 1].0);
        } else if m == 0 {
            assert(res[0] == (gs.first().0, w));
            assert(res[0].0 == gs[0].0);
        } else {
            assert(res[m] == rest[m - 1]);
            lemma_globals_without_member(gs.drop_first(), fid, m - 1);
            let k = choose|k: int|
                0 <= k < gs.drop_first().len() && rest[m - 1].0 == (#[trigger] gs.drop_first()[
                    k
                ]).0;
            assert(res[m].0 == gs[k + 1].0);
        }
    }
}

/// Pairwise-distinct keys stay distinct under the filter, and no kept
/// entry is left empty.
proof fn lemma_globals_without_distinct(gs: Seq<(LuaMemberKey, Seq<LuaDeclId>)>, fid: FileId)
    requires
        forall|i: int, j: int|
            0 <= i < j < gs.len() ==> !(#[trigger] gs[i]).0.key_eq((#[trigger] gs[j]).0),
    ensures
        forall|i: int, j: int|
            0 <= i < j < globals_without(gs, fid).len() ==> !(#[trigger] globals_without(
                gs,
                fid,
            )[i]).0.key_eq((#[trigger] globals_without(gs, fid)[j]).0),
        forall|m: int|
            0 <= m < globals_without(gs, fid).len() ==> (#[trigger] globals_without(
                gs,
                fid,
            )[m]).1.len() >= 1,
    decreases gs.len(),
{
    if gs.len() > 0 {
        let res = globals_without(gs, fid);
        let rest = globals_without(gs.drop_first(), fid);
        let w = ids_without(gs.first().1, fid);
        assert forall|i: int, j: int|
            0 <= i < j < gs.drop_first().len() implies !(#[trigger] gs.drop_first()[i]).0.key_eq(
            (#[trigger] gs.drop_first()[j]).0,
        ) by {
            assert(gs.drop_first()[i] == gs[i + 1]);
            assert(gs.drop_first()[j] == gs[j + 1]);
        }
        lemma_globals_without_distinct(gs.drop_first(), fid);
        assert forall|i: int, j: int| 0 <= i < j < res.len() implies !(#[trigger] res[i]).0.key_eq(
            (#[trigger] res[j]).0,
        ) by {
            if w.len() == 0 {
                assert(res[i] == rest[i]);
                assert(res[j] == rest[j]);
            } else if i == 0 {
                assert(res[0].0 == gs[0].0);
                assert(res[j] == rest[j - 1]);
                lemma_globals_without_member(gs.drop_first(), fid, j - 1);
                let k = choose|k: int|
                    0 <= k < gs.drop_first().len() && rest[j - 1].0 == (#[trigger] gs.drop_first()[
                        k
                    ]).0;
                assert(gs.drop_first()[k].0 == gs[k + 1].0);
            } else {
                assert(res[i] == rest[i - 1]);
                assert(res[j] == rest[j - 1]);
            }
        }
        assert forall|m: int| 0 <= m < res.len() implies (#[trigger] res[m]).1.len() >= 1 by {
            if w.len() == 0 {
                assert(res[m] == rest[m]);
            } else if m == 0 {
                assert(res[0] == (gs.first().0, w));
            } else {
                assert(res[m] == rest[m - 1]);
            }
        }
    }
}

/// Removing a file is idempotent on the global table: a second removal is
/// a no-op.
pub proof fn lemma_globals_without_idempotent(
    gs: Seq<(LuaMemberKey, Seq<LuaDeclId>)>,
    fid: FileId,
)
    ensures
        globals_without(globals_without(gs, fid), fid) == globals_without(gs, fid),
    decreases gs.len(),
{
    if gs.len() > 0 {
        lemma_globals_without_idempotent(gs.drop_first(), fid);
        let w = ids_without(gs.first().1, fid);
        if w.len() > 0 {
            lemma_ids_without_idempotent(gs.first().1, fid);
            assert((seq![(gs.first().0, w)] + globals_without(gs.drop_first(), fid)).drop_first()
                =~= globals_without(gs.drop_first(), fid));
            assert((seq![(gs.first().0, w)] + globals_without(gs.drop_first(), fid)).first()
                == (gs.first().0, w));
        }
    }
}

impl LuaDeclIndex {
    /// The table as key/sequence pairs.
    pub open spec fn gview(self) -> Seq<(LuaMemberKey, Seq<LuaDeclId>)> {
        self.global_decl@.map_values(|e: GlobalEntry| (e.key, e.decls@))
    }

    /// The first tree index at or after `k` belonging to `fid`.
    pub open spec fn tree_idx_from(self, k: int, fid: FileId) -> Option<int>
        decreases self.decl_trees@.len() - k,
    {
        if k < 0 || k >= self.decl_trees@.len() {
            None
        } else if self.decl_trees@[k].file_id == fid {
            Some(k)
        } else {
            self.tree_idx_from(k + 1, fid)
        }
    }

    /// The tree registered for `fid`, if any.
    pub open spec fn spec_get_decl_tree(self, fid: FileId) -> Option<LuaDeclarationTree> {
        match self.tree_idx_from(0, fid) {
            Some(i) => Some(self.decl_trees@[i]),
            None => None,
        }
    }

    /// The declaration an identifier denotes, if its file is indexed and
    /// the sequence number is in range.
    pub open spec fn spec_get_decl(self, id: LuaDeclId) -> Option<LuaDecl> {
        match self.spec_get_decl_tree(id.file_id) {
            Some(t) => if (id.id as int) < t.decls@.len() {
                Some(t.decls@[id.id as int])
            } else {
                None
            },
            None => None,
        }
    }

    /// The first entry index at or after `k` whose key equals `key`.
    pub open spec fn key_idx_from(self, k: int, key: LuaMemberKey) -> Option<int>
        decreases self.global_decl@.len() - k,
    {
        if k < 0 || k >= self.global_decl@.len() {
            None
        } else if self.global_decl@[k].key.key_eq(key) {
            Some(k)
        } else {
            self.key_idx_from(k + 1, key)
        }
    }

    /// The first entry index at or after `k` whose key is the name `name`.
    pub open spec fn name_idx_from(self, k: int, name: Seq<char>) -> Option<int>
        decreases self.global_decl@.len() - k,
    {
        if k < 0 || k >= self.global_decl@.len() {
            None
        } else if self.global_decl@[k].key.is_name(name) {
            Some(k)
        } else {
            self.name_idx_from(k + 1, name)
        }
    }

    /// Distinct files, distinct keys, no empty entry.
    pub open spec fn wf(self) -> bool {
        &&& forall|i: int, j: int|
            0 <= i < j < self.decl_trees@.len() ==> (#[trigger] self.decl_trees@[i]).file_id != (
            #[trigger] self.decl_trees@[j]).file_id
        &&& forall|i: int, j: int|
            0 <= i < j < self.global_decl@.len() ==> !(#[trigger] self.global_decl@[i]).key.key_eq(
                (#[trigger] self.global_decl@[j]).key,
            )
        &&& forall|i: int|
            0 <= i < self.global_decl@.len() ==> (#[trigger] self.global_decl@[i]).decls@.len()
                >= 1
    }

    /// An empty index.
    pub fn new() -> (r: LuaDeclIndex)
        ensures
            r.wf(),
            r.decl_trees@.len() == 0,
            r.global_decl@.len() == 0,
    {
        LuaDeclIndex { decl_trees: Vec::new(), global_decl: Vec::new() }
    }

    /// What a successful tree search means: a first, matching index.
    pub proof fn lemma_tree_idx_member(self, k: int, fid: FileId)
        requires
            self.tree_idx_from(k, fid) is Some,
        ensures
            k <= self.tree_idx_from(k, fid)->Some_0 < self.decl_trees@.len(),
            self.decl_trees@[self.tree_idx_from(k, fid)->Some_0].file_id == fid,
        decreases self.decl_trees@.len() - k,
    {
        if 0 <= k < self.decl_trees@.len() && self.decl_trees@[k].file_id != fid {
            self.lemma_tree_idx_member(k + 1, fid);
        }
    }

    /// What a successful key search means.
    pub proof fn lemma_key_idx_member(self, k: int, key: LuaMemberKey)
        requires
            self.key_idx_from(k, key) is Some,
        ensures
            k <= self.key_idx_from(k, key)->Some_0 < self.global_decl@.len(),
            self.global_decl@[self.key_idx_from(k, key)->Some_0].key.key_eq(key),
        decreases self.global_decl@.len() - k,
    {
        if 0 <= k < self.global_decl@.len() && !self.global_decl@[k].key.key_eq(key) {
            self.lemma_key_idx_member(k + 1, key);
        }
    }

    /// What a successful name search means.
    pub proof fn lemma_name_idx_member(self, k: int, name: Seq<char>)
        requires
            self.name_idx_from(k, name) is Some,
        ensures
            k <= self.name_idx_from(k, name)->Some_0 < self.global_decl@.len(),
            self.global_decl@[self.name_idx_from(k, name)->Some_0].key.is_name(name),
        decreases self.global_decl@.len() - k,
    {
        if 0 <= k < self.global_decl@.len() && !self.global_decl@[k].key.is_name(name) {
            self.lemma_name_idx_member(k + 1, name);
        }
    }

    /// A failed name search means no entry bears the name.
    pub proof fn lemma_name_idx_none(self, k: int, name: Seq<char>)
        requires
            0 <= k,
            self.name_idx_from(k, name) is None,
        ensures
            forall|i: int|
                k <= i < self.global_decl@.len() ==> !(#[trigger] self.global_decl@[i]).key.is_name(
                    name,
                ),
        decreases self.global_decl@.len() - k,
    {
        if k < self.global_decl@.len() {
            self.lemma_name_idx_none(k + 1, name);
            assert(!self.global_decl@[k].key.is_name(name));
        }
    }

    /// Registers a whole file's declaration tree, replacing any tree the
    /// file had before.
    #[verifier::loop_isolation(false)]
    pub fn add_decl_tree(&mut self, tree: LuaDeclarationTree)
        requires
            old(self).wf(),
        ensures
            final(self).wf(),
            final(self).global_decl@ == old(self).global_decl@,
            match old(self).tree_idx_from(0, tree.file_id) {
                Some(i) => final(self).decl_trees@ == old(self).decl_trees@.update(i, tree),
                None => final(self).decl_trees@ == old(self).decl_trees@.push(tree),
            },
    {
        let mut i: usize = 0;
        while i < self.decl_trees.len()
            invariant
                i <= self.decl_trees@.len(),
                self.tree_idx_from(0, tree.file_id) == self.tree_idx_from(i as int, tree.file_id),
                *self == *old(self),
            decreases self.decl_trees@.len() - i,
        {
            if self.decl_trees[i].file_id.id == tree.file_id.id {
                proof {
                    assert(self.decl_trees@[i as int].file_id == tree.file_id);
                }
                self.decl_trees[i] = tree;
                proof {
                    let post = self.decl_trees@;
                    let pre = old(self).decl_trees@;
                    assert(post =~= pre.update(i as int, tree));
                    assert(old(self).wf());
                    assert forall|a: int, b: int|
                        0 <= a < b < post.len() implies (#[trigger] post[a]).file_id != (
                    #[trigger] post[b]).file_id by {
                        assert(pre[a].file_id != pre[b].file_id);
                        assert(post[a].file_id == pre[a].file_id);
                        assert(post[b].file_id == pre[b].file_id);
                    }
                }
                return ;
            }
            i = i + 1;
        }
        self.decl_trees.push(tree);
        proof {
            assert forall|a: int, b: int|
                0 <= a < b < self.decl_trees@.len() implies (#[trigger] self.decl_trees@[a]).file_id
                != (#[trigger] self.decl_trees@[b]).file_id by {
                if b == self.decl_trees@.len() - 1 {
                    old(self).lemma_tree_idx_none(0, tree.file_id, a);
                }
            }
        }
    }

    /// Everything before a successful tree search misses the file.
    pub proof fn lemma_tree_idx_first(self, k: int, fid: FileId, j: int)
        requires
            self.tree_idx_from(k, fid) is Some,
            k <= j < self.tree_idx_from(k, fid)->Some_0,
            0 <= k,
        ensures
            self.decl_trees@[j].file_id != fid,
        decreases j - k,
    {
        if k < j {
            self.lemma_tree_idx_first(k + 1, fid, j);
        }
    }

    /// A first match pins the search down: where everything before `i`
    /// misses the file and `i` hits it, the search returns `i`.
    pub proof fn lemma_tree_idx_exact(self, k: int, fid: FileId, i: int)
        requires
            0 <= k <= i < self.decl_trees@.len(),
            self.decl_trees@[i].file_id == fid,
            forall|j: int| k <= j < i ==> (#[trigger] self.decl_trees@[j]).file_id != fid,
        ensures
            self.tree_idx_from(k, fid) == Some(i),
        decreases i - k,
    {
        if k < i {
            self.lemma_tree_idx_exact(k + 1, fid, i);
        }
    }

    /// A failed tree search means no tree bears the file.
    pub proof fn lemma_tree_idx_none(self, k: int, fid: FileId, i: int)
        requires
            self.tree_idx_from(k, fid) is None,
            k <= i < self.decl_trees@.len(),
            k >= 0,
        ensures
            self.decl_trees@[i].file_id != fid,
        decreases self.decl_trees@.len() - k,
    {
        if k < i {
            self.lemma_tree_idx_none(k + 1, fid, i);
        }
    }

    /// The tree registered for a file.
    pub fn get_decl_tree(&self, file_id: &FileId) -> (r: Option<&LuaDeclarationTree>)
        ensures
            r is Some <==> self.spec_get_decl_tree(*file_id) is Some,
            r matches Some(t) ==> Some(*t) == self.spec_get_decl_tree(*file_id),
    {
        let mut i: usize = 0;
        while i < self.decl_trees.len()
            invariant
                i <= self.decl_trees@.len(),
                self.tree_idx_from(0, *file_id) == self.tree_idx_from(i as int, *file_id),
            decreases self.decl_trees@.len() - i,
        {
            if self.decl_trees[i].file_id.id == file_id.id {
                proof {
                    assert(self.decl_trees@[i as int].file_id == *file_id);
                }
                return Some(&self.decl_trees[i]);
            }
            i = i + 1;
        }
        None
    }

    /// The declaration an identifier denotes, if any.
    pub fn get_decl(&self, decl_id: &LuaDeclId) -> (r: Option<&LuaDecl>)
        ensures
            r is Some <==> self.spec_get_decl(*decl_id) is Some,
            r matches Some(d) ==> Some(*d) == self.spec_get_decl(*decl_id),
    {
        match self.get_decl_tree(&decl_id.file_id) {
            Some(tree) => {
                proof {
                    self.lemma_tree_idx_member(0, decl_id.file_id);
                }
                tree.get_decl(decl_id)
            },
            None => None,
        }
    }

    /// The declaration an identifier denotes, for the type collaborator to
    /// fill its resolved type in place.
    pub fn get_decl_mut(&mut self, decl_id: &LuaDeclId) -> (r: Option<&mut LuaDecl>)
        ensures
            r is Some <==> old(self).spec_get_decl(*decl_id) is Some,
            r matches Some(d) ==> Some(*d) == old(self).spec_get_decl(*decl_id),
    {
        let mut i: usize = 0;
        while i < self.decl_trees.len()
            invariant
                i <= self.decl_trees@.len(),
                self.tree_idx_from(0, decl_id.file_id) == self.tree_idx_from(
                    i as int,
                    decl_id.file_id,
                ),
                *self == *old(self),
            decreases self.decl_trees@.len() - i,
        {
            if self.decl_trees[i].file_id.id == decl_id.file_id.id {
                proof {
                    assert(self.decl_trees@[i as int].file_id == decl_id.file_id);
                }
                let di = decl_id.id as usize;
                if di < self.decl_trees[i].decls.len() {
                    return Some(&mut self.decl_trees[i].decls[di]);
                }
                return None;
            }
            i = i + 1;
        }
        None
    }

    /// Registers one more global declaration of `name`, appending to the
    /// name's list in registration order.
    #[verifier::loop_isolation(false)]
    pub fn add_global_decl(&mut self, name: &str, decl_id: LuaDeclId)
        requires
            old(self).wf(),
        ensures
            final(self).wf(),
            final(self).decl_trees@ == old(self).decl_trees@,
            match old(self).name_idx_from(0, name@) {
                Some(i) => {
                    &&& final(self).global_decl@.len() == old(self).global_decl@.len()
                    &&& (forall|j: int|
                        0 <= j < old(self).global_decl@.len() && j != i ==> final(self).global_decl@[j] == #[trigger] old(self).global_decl@[j])
                    &&& final(self).global_decl@[i].key == old(self).global_decl@[i].key
                    &&& final(self).global_decl@[i].decls@ == old(self).global_decl@[i].decls@.push(decl_id)
                },
                None => {
                    &&& final(self).global_decl@.len() == old(self).global_decl@.len() + 1
                    &&& (forall|j: int|
                        0 <= j < old(self).global_decl@.len() ==> final(self).global_decl@[j]
                            == #[trigger] old(self).global_decl@[j])
                    &&& final(self).global_decl@.last().key.is_name(name@)
                    &&& final(self).global_decl@.last().decls@ == seq![decl_id]
                },
            },
    {
        let key_string = name.to_owned();
        let mut i: usize = 0;
        while i < self.global_decl.len()
            invariant
                i <= self.global_decl@.len(),
                key_string@ == name@,
                self.name_idx_from(0, name@) == self.name_idx_from(i as int, name@),
                *self == *old(self),
            decreases self.global_decl@.len() - i,
        {
            let hit = match &self.global_decl[i].key {
                LuaMemberKey::Name(s) => *s == key_string,
                LuaMemberKey::Integer(_) => false,
            };
            if hit {
                self.global_decl[i].decls.push(decl_id);
                proof {
                    let post = self.global_decl@;
                    let pre = old(self).global_decl@;
                    assert forall|a: int, b: int|
                        0 <= a < b < post.len() implies !(#[trigger] post[a]).key.key_eq(
                        (#[trigger] post[b]).key,
                    ) by {
                        assert(post[a].key == pre[a].key);
                        assert(post[b].key == pre[b].key);
                    }
                    assert forall|m: int| 0 <= m < post.len() implies (#[trigger] post[m]).decls@
                        .len() >= 1 by {
                        if m != i as int {
                            assert(post[m] == pre[m]);
                        }
                    }
                }
                return ;
            }
            i = i + 1;
        }
        proof {
            self.lemma_name_idx_none(0, name@);
        }
        let mut decls: Vec<LuaDeclId> = Vec::new();
        decls.push(decl_id);
        self.global_decl.push(GlobalEntry { key: LuaMemberKey::Name(key_string), decls });
        proof {
            assert forall|a: int, b: int|
                0 <= a < b < self.global_decl@.len() implies !(#[trigger] self.global_decl@[a]).key.key_eq(
                (#[trigger] self.global_decl@[b]).key,
            ) by {
                if b == self.global_decl@.len() - 1 {
                    assert(!old(self).global_decl@[a].key.is_name(name@));
                }
            }
        }
    }

    /// All registered global declarations of the first `k` entries, in
    /// table order and, within a name, registration order.
    pub open spec fn all_globals_upto(self, k: int) -> Seq<LuaDeclId>
        decreases k,
    {
        if k <= 0 {
            Seq::empty()
        } else {
            self.all_globals_upto(k - 1) + self.global_decl@[k - 1].decls@
        }
    }

    /// Every registered global declaration.
    pub fn get_global_decls(&self) -> (r: Vec<LuaDeclId>)
        ensures
            r@ == self.all_globals_upto(self.global_decl@.len() as int),
    {
        let mut out: Vec<LuaDeclId> = Vec::new();
        let mut i: usize = 0;
        proof {
            assert(out@ =~= self.all_globals_upto(0));
        }
        while i < self.global_decl.len()
            invariant
                i <= self.global_decl@.len(),
                out@ == self.all_globals_upto(i as int),
            decreases self.global_decl@.len() - i,
        {
            let mut j: usize = 0;
            while j < self.global_decl[i].decls.len()
                invariant
                    i < self.global_decl@.len(),
                    j <= self.global_decl@[i as int].decls@.len(),
                    out@ == self.all_globals_upto(i as int) + self.global_decl@[i as int].decls@
                        .take(j as int),
                decreases self.global_decl@[i as int].decls@.len() - j,
            {
                out.push(self.global_decl[i].decls[j]);
                j = j + 1;
                proof {
                    assert(self.global_decl@[i as int].decls@.take(j as int) =~= self
                        .global_decl@[i as int].decls@.take(j as int - 1).push(
                        self.global_decl@[i as int].decls@[j - 1],
                    ));
                }
            }
            i = i + 1;
            proof {
                assert(self.global_decl@[i - 1].decls@.take(
                    self.global_decl@[i - 1].decls@.len() as int,
                ) =~= self.global_decl@[i - 1].decls@);
            }
        }
        out
    }

    /// The global declarations registered for `name`, in registration
    /// order; empty when the name has none.
    pub fn get_global_decls_by_name(&self, name: &str) -> (r: Vec<LuaDeclId>)
        ensures
            match self.name_idx_from(0, name@) {
                Some(i) => r@ == self.global_decl@[i].decls@,
                None => r@.len() == 0,
            },
    {
        let key_string = name.to_owned();
        let mut i: usize = 0;
        while i < self.global_decl.len()
            invariant
                i <= self.global_decl@.len(),
                key_string@ == name@,
                self.name_idx_from(0, name@) == self.name_idx_from(i as int, name@),
            decreases self.global_decl@.len() - i,
        {
            let hit = match &self.global_decl[i].key {
                LuaMemberKey::Name(s) => *s == key_string,
                LuaMemberKey::Integer(_) => false,
            };
            if hit {
                let src = &self.global_decl[i].decls;
                let mut out: Vec<LuaDeclId> = Vec::new();
                let mut j: usize = 0;
                proof {
                    assert(out@ =~= src@.take(0));
                }
                while j < src.len()
                    invariant
                        j <= src@.len(),
                        out@ == src@.take(j as int),
                    decreases src@.len() - j,
                {
                    out.push(src[j]);
                    j = j + 1;
                    proof {
                        assert(src@.take(j as int) =~= src@.take(j as int - 1).push(
                            src@[j - 1],
                        ));
                    }
                }
                proof {
                    assert(src@.take(src@.len() as int) =~= src@);
                }
                return out;
            }
            i = i + 1;
        }
        Vec::new()
    }

    /// The disambiguation scan over one name's candidates, front to back,
    /// carrying the running fallback.  A definition- or reference-typed
    /// candidate wins at once; otherwise the first candidate with any
    /// resolved type becomes the fallback, and a later table-typed one
    /// overwrites it.  A dangling candidate aborts the lookup; candidates
    /// with no resolved type yet are passed over.
    pub open spec fn disamb(
        self,
        cands: Seq<LuaDeclId>,
        k: int,
        fallback: Option<LuaDeclId>,
    ) -> Option<LuaDeclId>
        decreases cands.len() - k,
    {
        if k < 0 || k >= cands.len() {
            fallback
        } else {
            match self.spec_get_decl(cands[k]) {
                None => None,
                Some(decl) => match decl.decl_type {
                    None => self.disamb(cands, k + 1, fallback),
                    Some(t) => if t is Def || t is Ref {
                        Some(cands[k])
                    } else if fallback is None || t is Table {
                        self.disamb(cands, k + 1, Some(cands[k]))
                    } else {
                        self.disamb(cands, k + 1, fallback)
                    },
                },
            }
        }
    }

    /// What resolving "the" global for a key returns: the sole candidate
    /// when there is exactly one, else the disambiguation scan's answer.
    pub open spec fn spec_global_decl_id(self, key: LuaMemberKey) -> Option<LuaDeclId> {
        match self.key_idx_from(0, key) {
            None => None,
            Some(i) => {
                let v = self.global_decl@[i].decls@;
                if v.len() == 1 {
                    Some(v[0])
                } else {
                    self.disamb(v, 0, None)
                }
            },
        }
    }

    /// Resolves "the" global declaration for a key, by the deterministic
    /// disambiguation rule over the registration-ordered candidates.
    #[verifier::loop_isolation(false)]
    pub fn get_global_decl_id(&self, key: &LuaMemberKey) -> (r: Option<LuaDeclId>)
        ensures
            r == self.spec_global_decl_id(*key),
    {
        let mut gi: usize = 0;
        while gi < self.global_decl.len()
            invariant
                gi <= self.global_decl@.len(),
                self.key_idx_from(0, *key) == self.key_idx_from(gi as int, *key),
            decreases self.global_decl@.len() - gi,
        {
            if self.global_decl[gi].key.eq_key(key) {
                let n = self.global_decl[gi].decls.len();
                if n == 1 {
                    return Some(self.global_decl[gi].decls[0]);
                }
                let ghost v = self.global_decl@[gi as int].decls@;
                let mut fallback: Option<LuaDeclId> = None;
                let mut k: usize = 0;
                while k < n
                    invariant
                        gi < self.global_decl@.len(),
                        self.key_idx_from(0, *key) == Some(gi as int),
                        v == self.global_decl@[gi as int].decls@,
                        n == v.len(),
                        k <= n,
                        self.disamb(v, 0, None) == self.disamb(v, k as int, fallback),
                    decreases n - k,
                {
                    let cand = self.global_decl[gi].decls[k];
                    proof {
                        assert(cand == v[k as int]);
                    }
                    match self.get_decl(&cand) {
                        None => {
                            proof {
                                assert(self.disamb(v, k as int, fallback) is None);
                            }
                            return None;
                        },
                        Some(decl) => {
                            match decl.get_type() {
                                None => {},
                                Some(t) => {
                                    if t.is_def() || t.is_ref() {
                                        proof {
                                            assert(self.disamb(v, k as int, fallback) == Some(
                                                cand,
                                            ));
                                        }
                                        return Some(cand);
                                    }
                                    if fallback.is_none() || t.is_table() {
                                        fallback = Some(cand);
                                    }
                                },
                            }
                        },
                    }
                    k = k + 1;
                }
                return fallback;
            }
            gi = gi + 1;
        }
        None
    }

    /// Forgets a file: its declaration tree goes, and every global
    /// registration that pointed into it; names left with no registration
    /// disappear.  Removing a file that is not indexed is a no-op, so
    /// removal is idempotent.
    pub fn remove(&mut self, file_id: FileId)
        ensures
            final(self).decl_trees@ == trees_without(old(self).decl_trees@, file_id),
            final(self).gview() == globals_without(old(self).gview(), file_id),
            old(self).wf() ==> final(self).wf(),
    {
        let ghost orig_trees = self.decl_trees@;
        let mut kept: Vec<LuaDeclarationTree> = Vec::new();
        proof {
            assert(trees_without(orig_trees, file_id) =~= kept@ + trees_without(
                self.decl_trees@,
                file_id,
            ));
        }
        while self.decl_trees.len() > 0
            invariant
                trees_without(orig_trees, file_id) == kept@ + trees_without(
                    self.decl_trees@,
                    file_id,
                ),
                self.global_decl@ == old(self).global_decl@,
            decreases self.decl_trees@.len(),
        {
            let ghost rem = self.decl_trees@;
            let t = self.decl_trees.remove(0);
            proof {
                assert(rem.first() == t);
                assert(rem.drop_first() =~= self.decl_trees@);
            }
            if t.file_id.id != file_id.id {
                proof {
                    assert(t.file_id != file_id);
                }
                kept.push(t);
                proof {
                    assert(kept@ + trees_without(self.decl_trees@, file_id) =~= kept@.drop_last()
                        + (seq![t] + trees_without(self.decl_trees@, file_id)));
                }
            } else {
                proof {
                    assert(t.file_id == file_id);
                }
            }
        }
        proof {
            assert(trees_without(self.decl_trees@, file_id) =~= Seq::<
                LuaDeclarationTree,
            >::empty());
            assert(kept@ + Seq::<LuaDeclarationTree>::empty() =~= kept@);
        }
        self.decl_trees = kept;
        let ghost orig_globals = self.gview();
        let mut gkept: Vec<GlobalEntry> = Vec::new();
        proof {
            assert(globals_without(orig_globals, file_id) =~= gkept@.map_values(
                |e: GlobalEntry| (e.key, e.decls@),
            ) + globals_without(self.gview(), file_id));
        }
        while self.global_decl.len() > 0
            invariant
                globals_without(orig_globals, file_id) == gkept@.map_values(
                    |e: GlobalEntry| (e.key, e.decls@),
                ) + globals_without(self.gview(), file_id),
                self.decl_trees@ == trees_without(old(self).decl_trees@, file_id),
            decreases self.global_decl@.len(),
        {
            let ghost grem = self.gview();
            let e = self.global_decl.remove(0);
            proof {
                assert(grem.first() == (e.key, e.decls@));
                assert(grem.drop_first() =~= self.gview());
            }
            let mut w: Vec<LuaDeclId> = Vec::new();
            let mut j: usize = 0;
            proof {
                assert(e.decls@.skip(0) =~= e.decls@);
                assert(w@ + ids_without(e.decls@, file_id) =~= ids_without(e.decls@, file_id));
            }
            while j < e.decls.len()
                invariant
                    j <= e.decls@.len(),
                    ids_without(e.decls@, file_id) == w@ + ids_without(
                        e.decls@.skip(j as int),
                        file_id,
                    ),
                decreases e.decls@.len() - j,
            {
                let d = e.decls[j];
                proof {
                    assert(e.decls@.skip(j as int).first() == d);
                    assert(e.decls@.skip(j as int).drop_first() =~= e.decls@.skip(j as int + 1));
                }
                if d.file_id.id != file_id.id {
                    proof {
                        assert(d.file_id != file_id);
                    }
                    w.push(d);
                    proof {
                        assert(w@ + ids_without(e.decls@.skip(j as int + 1), file_id) =~= w@
                            .drop_last() + (seq![d] + ids_without(
                            e.decls@.skip(j as int + 1),
                            file_id,
                        )));
                    }
                } else {
                    proof {
                        assert(d.file_id == file_id);
                    }
                }
                j = j + 1;
            }
            proof {
                assert(e.decls@.skip(e.decls@.len() as int) =~= Seq::<LuaDeclId>::empty());
                assert(ids_without(Seq::<LuaDeclId>::empty(), file_id) =~= Seq::<
                    LuaDeclId,
                >::empty());
                assert(w@ + Seq::<LuaDeclId>::empty() =~= w@);
            }
            if w.len() > 0 {
                let ghost gpre = gkept@;
                gkept.push(GlobalEntry { key: e.key, decls: w });
                proof {
                    assert(gkept@.map_values(|e2: GlobalEntry| (e2.key, e2.decls@)) =~= gpre
                        .map_values(|e2: GlobalEntry| (e2.key, e2.decls@)).push(
                        (e.key, ids_without(e.decls@, file_id)),
                    ));
                    assert(gpre.map_values(|e2: GlobalEntry| (e2.key, e2.decls@)).push(
                        (e.key, ids_without(e.decls@, file_id)),
                    ) + globals_without(self.gview(), file_id) =~= gpre.map_values(
                        |e2: GlobalEntry| (e2.key, e2.decls@),
                    ) + (seq![(e.key, ids_without(e.decls@, file_id))] + globals_without(
                        self.gview(),
                        file_id,
                    )));
                }
            }
        }
        proof {
            assert(globals_without(self.gview(), file_id) =~= Seq::<
                (LuaMemberKey, Seq<LuaDeclId>),
            >::empty());
            assert(gkept@.map_values(|e2: GlobalEntry| (e2.key, e2.decls@)) + Seq::<
                (LuaMemberKey, Seq<LuaDeclId>),
            >::empty() =~= gkept@.map_values(|e2: GlobalEntry| (e2.key, e2.decls@)));
        }
        self.global_decl = gkept;
        proof {
            if old(self).wf() {
                lemma_trees_without_distinct(old(self).decl_trees@, file_id);
                assert forall|i: int, j: int|
                    0 <= i < j < old(self).gview().len() implies !(#[trigger] old(self).gview()[
                    i
                ]).0.key_eq((#[trigger] old(self).gview()[j]).0) by {
                    assert(old(self).gview()[i] == (
                        old(self).global_decl@[i].key,
                        old(self).global_decl@[i].decls@,
                    ));
                    assert(old(self).gview()[j] == (
                        old(self).global_decl@[j].key,
                        old(self).global_decl@[j].decls@,
                    ));
                }
                lemma_globals_without_distinct(old(self).gview(), file_id);
                assert forall|i: int, j: int|
                    0 <= i < j < self.global_decl@.len() implies !(#[trigger] self.global_decl@[
                    i
                ]).key.key_eq((#[trigger] self.global_decl@[j]).key) by {
                    assert(self.gview()[i] == (
                        self.global_decl@[i].key,
                        self.global_decl@[i].decls@,
                    ));
                    assert(self.gview()[j] == (
                        self.global_decl@[j].key,
                        self.global_decl@[j].decls@,
                    ));
                }
                assert forall|m: int|
                    0 <= m < self.global_decl@.len() implies (#[trigger] self.global_decl@[
                    m
                ]).decls@.len() >= 1 by {
                    assert(self.gview()[m] == (
                        self.global_decl@[m].key,
                        self.global_decl@[m].decls@,
                    ));
                }
            }
        }
    }

    /// Empties the whole index.
    pub fn clear(&mut self)
        ensures
            final(self).wf(),
            final(self).decl_trees@.len() == 0,
            final(self).global_decl@.len() == 0,
    {
        self.decl_trees = Vec::new();
        self.global_decl = Vec::new();
    }
}

} // verus!
