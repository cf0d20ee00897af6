use span_core::ast_id_map::AstIdMap;
use span_core::file_id::{FileId, HirFileId};
use span_core::hygiene::SyntaxContextId;
use span_core::span::{
    absolute_range, dummy_span, is_dummy_span, FileRange, SpanAnchor, SpanData, TextRange,
};
use span_core::syntax_tree::{SyntaxTree, KIND_FN, KIND_SOURCE_FILE};

/// The sentinel span is recognizable, and a real span never matches it.
#[test]
fn sentinel_span() {
    let dummy = dummy_span();
    assert!(is_dummy_span(&dummy));

    let mut tree = SyntaxTree::new_root(KIND_SOURCE_FILE, 60);
    let f = tree.push_node(0, KIND_FN, 10, 50);
    let map = AstIdMap::from_source(&tree);
    let real = SpanData {
        range: TextRange::new(5, 8),
        anchor: SpanAnchor {
            file_id: HirFileId::from_file_id(FileId::from_raw(1)),
            ast_id: map.erased_ast_id(&tree.node_ptr(f)),
        },
        ctx: SyntaxContextId::root(),
    };
    assert!(!is_dummy_span(&real));
}

/// A span's absolute position is its anchor's position plus the stored
/// relative range.
#[test]
fn anchored_range_resolution() {
    let mut tree = SyntaxTree::new_root(KIND_SOURCE_FILE, 60);
    let f = tree.push_node(0, KIND_FN, 10, 50);
    let map = AstIdMap::from_source(&tree);

    let span = SpanData {
        range: TextRange::new(5, 8),
        anchor: SpanAnchor {
            file_id: HirFileId::from_file_id(FileId::from_raw(1)),
            ast_id: map.erased_ast_id(&tree.node_ptr(f)),
        },
        ctx: SyntaxContextId::root(),
    };
    let abs = absolute_range(&map, &span);
    assert_eq!(abs, TextRange::new(15, 18));
}

/// An edit before the anchor moves the anchor, not the span: the stored
/// relative range resolves against the anchor's new position.
#[test]
fn span_survives_edit_before_anchor() {
    let mut before = SyntaxTree::new_root(KIND_SOURCE_FILE, 60);
    let f_before = before.push_node(0, KIND_FN, 10, 50);
    let map_before = AstIdMap::from_source(&before);
    let anchor_id = map_before.erased_ast_id(&before.node_ptr(f_before));

    // text inserted before the function: same node, shifted by 7 bytes
    let mut after = SyntaxTree::new_root(KIND_SOURCE_FILE, 67);
    let f_after = after.push_node(0, KIND_FN, 17, 57);
    let map_after = AstIdMap::from_source(&after);
    assert_eq!(anchor_id, map_after.erased_ast_id(&after.node_ptr(f_after)));

    let span = SpanData {
        range: TextRange::new(5, 8),
        anchor: SpanAnchor {
            file_id: HirFileId::from_file_id(FileId::from_raw(1)),
            ast_id: anchor_id,
        },
        ctx: SyntaxContextId::root(),
    };
    assert_eq!(absolute_range(&map_before, &span), TextRange::new(15, 18));
    assert_eq!(absolute_range(&map_after, &span), TextRange::new(22, 25));
}

/// Plain range plumbing.
#[test]
fn text_ranges() {
    let range = TextRange::new(3, 9);
    assert_eq!(range.len(), 6);
    let empty = TextRange::empty(4);
    assert_eq!(empty.len(), 0);
    assert_eq!(empty.start, 4);

    let file_range = FileRange { file_id: FileId::from_raw(2), range };
    assert_eq!(file_range.range.len(), 6);
}
