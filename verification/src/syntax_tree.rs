//! A plain-value model of the parsed-file collaborator: one file's syntax
//! tree as an array of nodes, each with a kind tag, a byte range and a link
//! to its parent. Node order in the array is document order (a node always
//! comes after its parent), and a node reference is the node's index, which
//! plays the role of a pointer: comparable and hashable without reading the
//! tree.
//!
//! The indexer never looks at a node's content or position to decide whether
//! it deserves a stable id: that decision is a function of the kind tag
//! alone, over the closed set of item-like categories below.

use vstd::prelude::*;

verus! {

/// Kind tag of a file root.
pub const KIND_SOURCE_FILE: u16 = 0;

// Item-like categories: every node with one of these kinds receives a
// stable id.
pub const KIND_MODULE: u16 = 1;

pub const KIND_FN: u16 = 2;

pub const KIND_STRUCT: u16 = 3;

pub const KIND_ENUM: u16 = 4;

pub const KIND_UNION: u16 = 5;

pub const KIND_CONST: u16 = 6;

pub const KIND_STATIC: u16 = 7;

pub const KIND_TRAIT: u16 = 8;

pub const KIND_TRAIT_ALIAS: u16 = 9;

pub const KIND_TYPE_ALIAS: u16 = 10;

pub const KIND_IMPL: u16 = 11;

pub const KIND_USE: u16 = 12;

pub const KIND_FOREIGN_BLOCK: u16 = 13;

pub const KIND_FOREIGN_CRATE_DECL: u16 = 14;

pub const KIND_MACRO_DEF: u16 = 15;

pub const KIND_MACRO_RULES: u16 = 16;

pub const KIND_MACRO_CALL: u16 = 17;

// Sub-item granularity categories that later passes need ids for.
pub const KIND_BLOCK_EXPR: u16 = 18;

pub const KIND_VARIANT: u16 = 19;

pub const KIND_RECORD_FIELD: u16 = 20;

pub const KIND_TUPLE_FIELD: u16 = 21;

pub const KIND_CONST_ARG: u16 = 22;

pub const KIND_PARAM: u16 = 23;

pub const KIND_SELF_PARAM: u16 = 24;

// A few categories that never receive a stable id.
pub const KIND_NAME: u16 = 25;

pub const KIND_PATH: u16 = 26;

pub const KIND_LITERAL: u16 = 27;

pub const KIND_ITEM_LIST: u16 = 28;

pub const KIND_ASSOC_ITEM_LIST: u16 = 29;

pub const KIND_TOKEN_TREE: u16 = 30;

/// The item-like declarations proper (the categories a file or module body
/// lists directly).
pub open spec fn is_item_kind(kind: u16) -> bool {
    ||| kind == KIND_MODULE
    ||| kind == KIND_FN
    ||| kind == KIND_STRUCT
    ||| kind == KIND_ENUM
    ||| kind == KIND_UNION
    ||| kind == KIND_CONST
    ||| kind == KIND_STATIC
    ||| kind == KIND_TRAIT
    ||| kind == KIND_TRAIT_ALIAS
    ||| kind == KIND_TYPE_ALIAS
    ||| kind == KIND_IMPL
    ||| kind == KIND_USE
    ||| kind == KIND_FOREIGN_BLOCK
    ||| kind == KIND_FOREIGN_CRATE_DECL
    ||| kind == KIND_MACRO_DEF
    ||| kind == KIND_MACRO_RULES
    ||| kind == KIND_MACRO_CALL
}

/// The stable-worthy predicate: purely a function of the syntactic kind,
/// never of a node's content or position.
pub open spec fn is_stable_worthy(kind: u16) -> bool {
    ||| is_item_kind(kind)
    ||| kind == KIND_BLOCK_EXPR
    ||| kind == KIND_VARIANT
    ||| kind == KIND_RECORD_FIELD
    ||| kind == KIND_TUPLE_FIELD
    ||| kind == KIND_CONST_ARG
    ||| kind == KIND_PARAM
    ||| kind == KIND_SELF_PARAM
}

/// Whether a node of this kind is assigned a stable id by the indexer.
pub fn should_alloc_id(kind: u16) -> (r: bool)
    ensures
        r == is_stable_worthy(kind),
{
    KIND_MODULE <= kind && kind <= KIND_SELF_PARAM
}

/// One node of the tree: its kind tag, its parent's index (the root points
/// at itself) and its byte range in the file's text.
#[derive(Clone, Copy, PartialEq, Eq, Structural, Debug, Hash)]
pub struct SyntaxNodeData {
    pub kind: u16,
    pub parent: usize,
    pub start: u32,
    pub end: u32,
}

/// A pointer-like reference to one node: the node's index in its tree (its
/// identity), together with the kind and range the reference carries so they
/// can be read without dereferencing the tree.
#[derive(Clone, Copy, PartialEq, Eq, Structural, Debug, Hash)]
pub struct SyntaxNodePtr {
    pub node: usize,
    pub kind: u16,
    pub start: u32,
    pub end: u32,
}

/// One file's parsed tree. Nodes are stored in document order: node 0 is the
/// root, and every other node comes after its parent.
pub struct SyntaxTree {
    pub nodes: Vec<SyntaxNodeData>,
}

impl SyntaxTree {
    pub open spec fn len_spec(self) -> int {
        self.nodes@.len() as int
    }

    pub open spec fn kind_of(self, i: int) -> u16 {
        self.nodes@[i].kind
    }

    pub open spec fn parent_of(self, i: int) -> int {
        self.nodes@[i].parent as int
    }

    pub open spec fn ptr_spec(self, i: int) -> SyntaxNodePtr {
        SyntaxNodePtr {
            node: i as usize,
            kind: self.nodes@[i].kind,
            start: self.nodes@[i].start,
            end: self.nodes@[i].end,
        }
    }

    /// Well-formedness: nonempty, the root is node 0 and its own parent, and
    /// every other node's parent comes before it in document order.
    pub open spec fn wf(self) -> bool {
        &&& self.nodes@.len() >= 1
        &&& self.nodes@[0].parent == 0
        &&& forall|i: int|
            1 <= i < self.nodes@.len() ==> #[trigger] self.parent_of(i) < i
        &&& forall|i: int|
            0 <= i < self.nodes@.len() ==> #[trigger] self.nodes@[i].start <= self.nodes@[i].end
    }

    /// Whether node `a` is a strict ancestor of node `d`.
    pub open spec fn is_strict_ancestor_of(self, a: int, d: int) -> bool
        decreases d,
    {
        if d <= 0 || d >= self.len_spec() {
            false
        } else if self.parent_of(d) < 0 || self.parent_of(d) >= d {
            false
        } else if self.parent_of(d) == a {
            true
        } else {
            self.is_strict_ancestor_of(a, self.parent_of(d))
        }
    }

    /// A fresh tree holding only a root node covering `text_len` bytes.
    pub fn new_root(root_kind: u16, text_len: u32) -> (r: SyntaxTree)
        ensures
            r.wf(),
            r.len_spec() == 1,
            r.kind_of(0) == root_kind,
            r.nodes@[0].start == 0,
            r.nodes@[0].end == text_len,
    {
        let mut nodes: Vec<SyntaxNodeData> = Vec::new();
        nodes.push(SyntaxNodeData { kind: root_kind, parent: 0, start: 0, end: text_len });
        SyntaxTree { nodes }
    }

    /// Append one node in document order as a child of `parent`.
    pub fn push_node(&mut self, parent: usize, kind: u16, start: u32, end: u32) -> (i: usize)
        requires
            old(self).wf(),
            parent < old(self).len_spec(),
            start <= end,
            old(self).len_spec() < usize::MAX,
        ensures
            final(self).wf(),
            i == old(self).len_spec(),
            final(self).len_spec() == old(self).len_spec() + 1,
            final(self).nodes@ == old(self).nodes@.push(
                SyntaxNodeData { kind, parent, start, end },
            ),
            final(self).kind_of(i as int) == kind,
            final(self).parent_of(i as int) == parent,
    {
        let ghost pre = *self;
        let i = self.nodes.len();
        self.nodes.push(SyntaxNodeData { kind, parent, start, end });
        proof {
            assert forall|j: int| 1 <= j < self.nodes@.len() implies #[trigger] self.parent_of(j)
                < j by {
                if j < i {
                    assert(self.parent_of(j) == pre.parent_of(j));
                }
            }
            assert forall|j: int| 0 <= j < self.nodes@.len() implies #[trigger] self.nodes@[j].start
                <= self.nodes@[j].end by {
                if j < i {
                    assert(self.nodes@[j] == pre.nodes@[j]);
                }
            }
        }
        i
    }

    pub fn len(&self) -> (r: usize)
        ensures
            r == self.len_spec(),
    {
        self.nodes.len()
    }

    pub fn kind(&self, i: usize) -> (r: u16)
        requires
            i < self.len_spec(),
        ensures
            r == self.kind_of(i as int),
    {
        self.nodes[i].kind
    }

    pub fn parent(&self, i: usize) -> (r: usize)
        requires
            i < self.len_spec(),
        ensures
            r == self.parent_of(i as int),
    {
        self.nodes[i].parent
    }

    /// The pointer-like reference to node `i`.
    pub fn node_ptr(&self, i: usize) -> (r: SyntaxNodePtr)
        requires
            i < self.len_spec(),
        ensures
            r == self.ptr_spec(i as int),
    {
        SyntaxNodePtr {
            node: i,
            kind: self.nodes[i].kind,
            start: self.nodes[i].start,
            end: self.nodes[i].end,
        }
    }
}

} // verus!
