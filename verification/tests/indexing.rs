use span_core::ast_id_map::{AnyItem, AstIdMap, ErasedFileAstId, FnItem, InFile, ModuleItem};
use span_core::file_id::{FileId, HirFileId};
use span_core::syntax_tree::{
    should_alloc_id, SyntaxTree, KIND_FN, KIND_ITEM_LIST, KIND_MODULE, KIND_NAME,
    KIND_SOURCE_FILE, KIND_STRUCT, KIND_TRAIT,
};

/// One module holding two functions: the root takes id 0, the module a
/// lower id than either function, and the functions get consecutive ids in
/// textual order.
#[test]
fn module_with_two_functions_scenario() {
    let mut tree = SyntaxTree::new_root(KIND_SOURCE_FILE, 100);
    let module = tree.push_node(0, KIND_MODULE, 0, 100);
    let item_list = tree.push_node(module, KIND_ITEM_LIST, 4, 100);
    let fn_a = tree.push_node(item_list, KIND_FN, 10, 40);
    let fn_b = tree.push_node(item_list, KIND_FN, 50, 90);

    let map = AstIdMap::from_source(&tree);

    assert_eq!(map.root(), tree.node_ptr(0));
    let id_module = map.erased_ast_id(&tree.node_ptr(module)).into_raw();
    let id_fn_a = map.erased_ast_id(&tree.node_ptr(fn_a)).into_raw();
    let id_fn_b = map.erased_ast_id(&tree.node_ptr(fn_b)).into_raw();
    assert_eq!(map.erased_ast_id(&tree.node_ptr(0)).into_raw(), 0);
    assert!(id_module < id_fn_a);
    assert!(id_module < id_fn_b);
    assert_eq!(id_fn_b, id_fn_a + 1);
    assert_eq!(id_module, 1);
    assert_eq!(id_fn_a, 2);
    // the item list is not stable-worthy and receives no id
    assert_eq!(map.len(), 4);
}

/// Editing only inside one sibling's subtree leaves the ancestor's and the
/// other siblings' ids unchanged on re-indexing.
#[test]
fn stability_under_unrelated_edit() {
    // before the edit: trait B { fn f } followed by struct C
    let mut before = SyntaxTree::new_root(KIND_SOURCE_FILE, 200);
    let b_before = before.push_node(0, KIND_TRAIT, 0, 100);
    let f_before = before.push_node(b_before, KIND_FN, 10, 40);
    let c_before = before.push_node(0, KIND_STRUCT, 110, 150);
    let map_before = AstIdMap::from_source(&before);

    // after the edit: one more function added inside B's subtree
    let mut after = SyntaxTree::new_root(KIND_SOURCE_FILE, 230);
    let b_after = after.push_node(0, KIND_TRAIT, 0, 130);
    let f_after = after.push_node(b_after, KIND_FN, 10, 40);
    let g_after = after.push_node(b_after, KIND_FN, 50, 120);
    let c_after = after.push_node(0, KIND_STRUCT, 140, 180);
    let map_after = AstIdMap::from_source(&after);

    // the root, B itself, C and even B's untouched child keep their ids
    assert_eq!(
        map_before.erased_ast_id(&before.node_ptr(0)).into_raw(),
        map_after.erased_ast_id(&after.node_ptr(0)).into_raw(),
    );
    assert_eq!(
        map_before.erased_ast_id(&before.node_ptr(b_before)).into_raw(),
        map_after.erased_ast_id(&after.node_ptr(b_after)).into_raw(),
    );
    assert_eq!(
        map_before.erased_ast_id(&before.node_ptr(c_before)).into_raw(),
        map_after.erased_ast_id(&after.node_ptr(c_after)).into_raw(),
    );
    assert_eq!(
        map_before.erased_ast_id(&before.node_ptr(f_before)).into_raw(),
        map_after.erased_ast_id(&after.node_ptr(f_after)).into_raw(),
    );
    // the new function only appends an id
    assert_eq!(
        map_after.erased_ast_id(&after.node_ptr(g_after)).into_raw(),
        map_after.len() as u32 - 1,
    );
}

/// `table[0]` is the root node whether or not the root's kind is itself
/// stable-worthy.
#[test]
fn root_invariant() {
    let plain = SyntaxTree::new_root(KIND_SOURCE_FILE, 10);
    let plain_map = AstIdMap::from_source(&plain);
    assert_eq!(plain_map.root(), plain.node_ptr(0));
    assert_eq!(plain_map.len(), 1);

    // a root whose own kind is stable-worthy still sits at id 0
    let mut worthy = SyntaxTree::new_root(KIND_MODULE, 10);
    let inner = worthy.push_node(0, KIND_FN, 2, 8);
    let worthy_map = AstIdMap::from_source(&worthy);
    assert_eq!(worthy_map.root(), worthy.node_ptr(0));
    assert_eq!(worthy_map.erased_ast_id(&worthy.node_ptr(inner)).into_raw(), 1);
}

/// Ids and node references invert each other over the whole table.
#[test]
fn id_node_round_trip() {
    let mut tree = SyntaxTree::new_root(KIND_SOURCE_FILE, 300);
    let m = tree.push_node(0, KIND_MODULE, 0, 300);
    let t = tree.push_node(m, KIND_TRAIT, 10, 200);
    let f = tree.push_node(t, KIND_FN, 20, 100);
    let name = tree.push_node(f, KIND_NAME, 23, 28);
    let s = tree.push_node(m, KIND_STRUCT, 210, 290);
    let map = AstIdMap::from_source(&tree);

    for raw in 0..map.len() as u32 {
        let id = ErasedFileAstId { raw };
        let ptr = map.get_erased(id);
        assert_eq!(map.erased_ast_id(&ptr), id);
    }
    for node in [0, m, t, f, s] {
        let ptr = tree.node_ptr(node);
        let id = map.erased_ast_id(&ptr);
        assert_eq!(map.get_erased(id), ptr);
    }
    let _ = name;
}

/// A strict ancestor always receives a strictly smaller id than any of its
/// stable-worthy descendants.
#[test]
fn parent_before_child() {
    let mut tree = SyntaxTree::new_root(KIND_SOURCE_FILE, 300);
    let m = tree.push_node(0, KIND_MODULE, 0, 300);
    let t = tree.push_node(m, KIND_TRAIT, 10, 200);
    let f = tree.push_node(t, KIND_FN, 20, 100);
    let g = tree.push_node(t, KIND_FN, 110, 190);
    let s = tree.push_node(m, KIND_STRUCT, 210, 290);
    let map = AstIdMap::from_source(&tree);

    let id = |n: usize| map.erased_ast_id(&tree.node_ptr(n)).into_raw();
    // ancestor/descendant pairs, deepest first
    for (anc, desc) in [(0, m), (0, f), (m, t), (m, s), (t, f), (t, g), (m, g)] {
        assert!(id(anc) < id(desc));
    }
}

/// Typed ids: tagging, lookup, upcast and erasure agree with the erased
/// table.
#[test]
fn typed_ids() {
    let mut tree = SyntaxTree::new_root(KIND_SOURCE_FILE, 100);
    let m = tree.push_node(0, KIND_MODULE, 0, 100);
    let f = tree.push_node(m, KIND_FN, 10, 40);
    let map = AstIdMap::from_source(&tree);

    let module_ptr = tree.node_ptr(m);
    let module_id = map.ast_id::<ModuleItem>(&module_ptr);
    assert_eq!(map.get(module_id).syntax_node_ptr(), module_ptr);
    assert_eq!(module_id.erase(), map.erased_ast_id(&module_ptr));

    let fn_ptr = tree.node_ptr(f);
    let fn_id = map.ast_id::<FnItem>(&fn_ptr);
    let as_item = fn_id.upcast::<AnyItem>();
    assert_eq!(as_item.erase(), fn_id.erase());
    assert_eq!(map.get(as_item).syntax_node_ptr(), fn_ptr);
}

/// A file-qualified id resolves against its file's table.
#[test]
fn file_qualified_ids() {
    let mut tree = SyntaxTree::new_root(KIND_SOURCE_FILE, 100);
    let f = tree.push_node(0, KIND_FN, 10, 40);
    let map = AstIdMap::from_source(&tree);
    let file = HirFileId::from_file_id(FileId::from_raw(9));

    let fn_ptr = tree.node_ptr(f);
    let fn_id = map.ast_id::<FnItem>(&fn_ptr);
    let qualified = InFile::new(file, fn_id);
    assert_eq!(qualified.file_id, file);
    assert_eq!(qualified.to_ptr(&map).syntax_node_ptr(), fn_ptr);

    let erased = InFile::new(file, fn_id.erase());
    assert_eq!(erased.to_ptr(&map), fn_ptr);
}

/// The stable-worthy predicate is a function of the kind tag alone.
#[test]
fn stable_worthy_kinds() {
    assert!(should_alloc_id(KIND_FN));
    assert!(should_alloc_id(KIND_MODULE));
    assert!(should_alloc_id(KIND_TRAIT));
    assert!(should_alloc_id(KIND_STRUCT));
    assert!(!should_alloc_id(KIND_SOURCE_FILE));
    assert!(!should_alloc_id(KIND_NAME));
    assert!(!should_alloc_id(KIND_ITEM_LIST));
}
