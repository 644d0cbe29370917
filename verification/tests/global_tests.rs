//! Tests of the global declaration table: registration, the deterministic
//! disambiguation rule, removal and clearing.

use emmylua_core::decl::{FileId, LuaDecl, LuaDeclExtra, LuaDeclId, LuaTypeClass};
use emmylua_core::decl_index::{LuaDeclIndex, LuaMemberKey};
use emmylua_core::decl_tree::LuaDeclarationTree;
use emmylua_core::scope::LuaScopeId;

/// An index holding one file whose root scope owns `n` global declarations
/// of the name `g`, registered in order.
fn index_with_globals(fid: FileId, n: usize) -> (LuaDeclIndex, Vec<LuaDeclId>) {
    let mut dtree = LuaDeclarationTree::new(fid, 0, 1000);
    let root = LuaScopeId { file_id: fid, id: 0 };
    let mut ids = Vec::new();
    for k in 0..n {
        let decl = LuaDecl::new("G".to_string(), fid, 10 + k, LuaDeclExtra::Global);
        ids.push(dtree.add_decl(root, decl));
    }
    let mut index = LuaDeclIndex::new();
    index.add_decl_tree(dtree);
    for id in ids.iter() {
        index.add_global_decl("G", *id);
    }
    (index, ids)
}

fn set_type(index: &mut LuaDeclIndex, id: &LuaDeclId, t: LuaTypeClass) {
    let d = index.get_decl_mut(id).expect("declaration exists");
    d.set_decl_type(t);
}

fn key_g() -> LuaMemberKey {
    LuaMemberKey::Name("G".to_string())
}

#[test]
fn single_candidate_wins_whatever_its_type() {
    let fid = FileId { id: 1 };
    let (index, ids) = index_with_globals(fid, 1);
    // One candidate, no resolved type at all: returned at once.
    assert_eq!(index.get_global_decl_id(&key_g()), Some(ids[0]));
}

#[test]
fn def_typed_candidate_short_circuits() {
    // Registrations in order: A untyped, B table-typed, C def-typed.
    let fid = FileId { id: 1 };
    let (mut index, ids) = index_with_globals(fid, 3);
    set_type(&mut index, &ids[1], LuaTypeClass::Table);
    set_type(&mut index, &ids[2], LuaTypeClass::Def);
    assert_eq!(index.get_global_decl_id(&key_g()), Some(ids[2]));
}

#[test]
fn last_table_typed_candidate_is_the_fallback() {
    // A table-typed, B untyped, C table-typed: the last table-typed one
    // wins as the fallback.
    let fid = FileId { id: 1 };
    let (mut index, ids) = index_with_globals(fid, 3);
    set_type(&mut index, &ids[0], LuaTypeClass::Table);
    set_type(&mut index, &ids[2], LuaTypeClass::Table);
    assert_eq!(index.get_global_decl_id(&key_g()), Some(ids[2]));
}

#[test]
fn untyped_candidates_resolve_to_nothing() {
    // Several candidates, none with a resolved type yet: no answer.
    let fid = FileId { id: 1 };
    let (index, _ids) = index_with_globals(fid, 2);
    assert_eq!(index.get_global_decl_id(&key_g()), None);
    // An unregistered name has no answer either.
    assert_eq!(index.get_global_decl_id(&LuaMemberKey::Name("H".to_string())), None);
    assert_eq!(index.get_global_decl_id(&LuaMemberKey::Integer(3)), None);
}

#[test]
fn ref_typed_candidate_wins_over_later_table() {
    let fid = FileId { id: 1 };
    let (mut index, ids) = index_with_globals(fid, 3);
    set_type(&mut index, &ids[0], LuaTypeClass::Ref);
    set_type(&mut index, &ids[2], LuaTypeClass::Table);
    assert_eq!(index.get_global_decl_id(&key_g()), Some(ids[0]));
}

#[test]
fn other_typed_first_candidate_stays_fallback() {
    // A other-typed, B other-typed: the first resolved candidate becomes
    // the fallback and a later non-table one does not replace it.
    let fid = FileId { id: 1 };
    let (mut index, ids) = index_with_globals(fid, 2);
    set_type(&mut index, &ids[0], LuaTypeClass::Other);
    set_type(&mut index, &ids[1], LuaTypeClass::Other);
    assert_eq!(index.get_global_decl_id(&key_g()), Some(ids[0]));
}

#[test]
fn registration_order_is_kept_per_name() {
    let fid = FileId { id: 1 };
    let (index, ids) = index_with_globals(fid, 3);
    assert_eq!(index.get_global_decls_by_name("G"), ids);
    assert_eq!(index.get_global_decls_by_name("missing"), Vec::new());
    assert_eq!(index.get_global_decls().len(), 3);
}

#[test]
fn removal_drops_every_id_of_the_file() {
    let fid1 = FileId { id: 1 };
    let fid2 = FileId { id: 2 };
    let mut index = LuaDeclIndex::new();

    let mut t1 = LuaDeclarationTree::new(fid1, 0, 100);
    let r1 = LuaScopeId { file_id: fid1, id: 0 };
    let a = t1.add_decl(r1, LuaDecl::new("G".to_string(), fid1, 1, LuaDeclExtra::Global));
    index.add_decl_tree(t1);
    index.add_global_decl("G", a);

    let mut t2 = LuaDeclarationTree::new(fid2, 0, 100);
    let r2 = LuaScopeId { file_id: fid2, id: 0 };
    let b = t2.add_decl(r2, LuaDecl::new("G".to_string(), fid2, 1, LuaDeclExtra::Global));
    let c = t2.add_decl(r2, LuaDecl::new("H".to_string(), fid2, 2, LuaDeclExtra::Global));
    index.add_decl_tree(t2);
    index.add_global_decl("G", b);
    index.add_global_decl("H", c);

    index.remove(fid2);
    // The tree is gone and its lookups return nothing.
    assert!(index.get_decl_tree(&fid2).is_none());
    assert!(index.get_decl(&b).is_none());
    // No id of the removed file remains in the table.
    assert_eq!(index.get_global_decls_by_name("G"), vec![a]);
    assert_eq!(index.get_global_decls_by_name("H"), Vec::new());
    for id in index.get_global_decls() {
        assert_ne!(id.file_id, fid2);
    }
    // Removing again is a no-op.
    index.remove(fid2);
    assert_eq!(index.get_global_decls_by_name("G"), vec![a]);
    assert!(index.get_decl_tree(&fid1).is_some());
    // Removing an unindexed file is a no-op too.
    index.remove(FileId { id: 99 });
    assert_eq!(index.get_global_decls().len(), 1);
}

#[test]
fn clear_empties_the_index() {
    let fid = FileId { id: 1 };
    let (mut index, _ids) = index_with_globals(fid, 2);
    index.clear();
    assert!(index.get_decl_tree(&fid).is_none());
    assert_eq!(index.get_global_decls().len(), 0);
    assert_eq!(index.get_global_decl_id(&key_g()), None);
}

#[test]
fn reindexing_replaces_a_file_tree() {
    let fid = FileId { id: 7 };
    let mut index = LuaDeclIndex::new();
    let t1 = LuaDeclarationTree::new(fid, 0, 10);
    index.add_decl_tree(t1);
    let mut t2 = LuaDeclarationTree::new(fid, 0, 50);
    let r = LuaScopeId { file_id: fid, id: 0 };
    let d = t2.add_decl(r, LuaDecl::new("v".to_string(), fid, 3, LuaDeclExtra::Global));
    index.add_decl_tree(t2);
    // The second tree replaced the first: its declaration is found.
    let got = index.get_decl(&d).expect("declaration of the new tree");
    assert_eq!(got.get_name(), "v");
    assert_eq!(got.get_position(), 3);
    assert_eq!(got.get_id(), d);
}

#[test]
fn dangling_candidate_aborts_resolution() {
    // A name list holding an id whose file is not indexed: resolution
    // returns nothing rather than a half answer.
    let fid = FileId { id: 1 };
    let (mut index, ids) = index_with_globals(fid, 2);
    set_type(&mut index, &ids[0], LuaTypeClass::Def);
    // Sane so far: the def-typed candidate wins.
    assert_eq!(index.get_global_decl_id(&key_g()), Some(ids[0]));
    let ghost_id = LuaDeclId { file_id: FileId { id: 42 }, id: 0 };
    index.add_global_decl("X", ghost_id);
    index.add_global_decl("X", ghost_id);
    assert_eq!(index.get_global_decl_id(&LuaMemberKey::Name("X".to_string())), None);
}
