use span_core::ast_id_map::AstIdMap;
use span_core::file_id::{FileId, HirFileId};
use span_core::hygiene::{
    MacroCallInterner, MacroCallLoc, SyntaxContextId, SyntaxContextInterner, ROOT_CONTEXT,
    SELF_REF_CONTEXT,
};
use span_core::syntax_tree::{SyntaxTree, KIND_FN, KIND_MACRO_CALL, KIND_SOURCE_FILE};

/// Contexts built from the same parent but different transformation data
/// intern to different keys; identical (parent, transformation) pairs
/// intern to the same key.
#[test]
fn hygiene_chain_distinctness() {
    let mut interner = SyntaxContextInterner::with_root();
    let root = SyntaxContextId::root();
    let first = interner.intern(root, 11);
    assert!(!first.is_root());
    let second = interner.intern(root, 22);
    assert_ne!(first, second);
    let again = interner.intern(root, 11);
    assert_eq!(first, again);

    // chains grow step by step and stay distinct per step
    let deeper = interner.intern(first, 22);
    assert_ne!(deeper, second);
    let data = interner.resolve(deeper);
    assert_eq!(data.parent, first);
    assert_eq!(data.transform, 22);
}

/// The two reserved context values are told apart from every interned one.
#[test]
fn reserved_contexts() {
    let root = SyntaxContextId::root();
    assert!(root.is_root());
    assert_eq!(root.raw, ROOT_CONTEXT);
    let placeholder = SyntaxContextId::self_ref();
    assert!(placeholder.is_self_ref());
    assert!(!placeholder.is_root());
    assert_eq!(placeholder.raw, SELF_REF_CONTEXT);

    let mut interner = SyntaxContextInterner::with_root();
    let ctx = interner.intern(root, 1);
    assert!(!ctx.is_root());
    assert!(!ctx.is_self_ref());
}

/// Expanding the same textual invocation twice yields the same descriptor
/// key; two distinct call sites yield distinct keys.
#[test]
fn macro_call_descriptor_interning() {
    let mut tree = SyntaxTree::new_root(KIND_SOURCE_FILE, 120);
    let call_a = tree.push_node(0, KIND_MACRO_CALL, 0, 50);
    let call_b = tree.push_node(0, KIND_MACRO_CALL, 60, 110);
    let map = AstIdMap::from_source(&tree);
    let file = HirFileId::from_file_id(FileId::from_raw(1));

    let loc_a = MacroCallLoc { file_id: file, ast_id: map.erased_ast_id(&tree.node_ptr(call_a)) };
    let loc_b = MacroCallLoc { file_id: file, ast_id: map.erased_ast_id(&tree.node_ptr(call_b)) };

    let mut interner = MacroCallInterner::new();
    let key_a = interner.intern(loc_a);
    let key_a_again = interner.intern(loc_a);
    assert_eq!(key_a, key_a_again);
    let key_b = interner.intern(loc_b);
    assert_ne!(key_a, key_b);
    assert_eq!(interner.resolve(key_a), loc_a);
    assert_eq!(interner.resolve(key_b), loc_b);
}

/// A virtual file can itself hold a call site: the identity chain bottoms
/// out at a real file but stays one fixed-width value.
#[test]
fn nested_virtual_file_identity() {
    let mut tree = SyntaxTree::new_root(KIND_SOURCE_FILE, 40);
    let call = tree.push_node(0, KIND_MACRO_CALL, 0, 30);
    let inner = tree.push_node(0, KIND_FN, 31, 39);
    let map = AstIdMap::from_source(&tree);
    let _ = inner;

    let real = HirFileId::from_file_id(FileId::from_raw(3));
    let mut interner = MacroCallInterner::new();
    let outer_key = interner.intern(MacroCallLoc {
        file_id: real,
        ast_id: map.erased_ast_id(&tree.node_ptr(call)),
    });
    let virtual_file = outer_key.as_file();
    assert!(virtual_file.is_macro());

    // the same call node inside the virtual file is a different call site
    let inner_key = interner.intern(MacroCallLoc {
        file_id: virtual_file,
        ast_id: map.erased_ast_id(&tree.node_ptr(call)),
    });
    assert_ne!(outer_key, inner_key);
}
