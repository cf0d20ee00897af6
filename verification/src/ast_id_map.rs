//! Stable ids for the item-like nodes of one file.
//!
//! `AstIdMap::from_source` walks a file's tree once and assigns every
//! stable-worthy node a small dense id. Ids are handed out breadth layer by
//! breadth layer: a node's layer is the number of stable-worthy nodes
//! strictly above it, and within one layer nodes are numbered in document
//! order. So every stable-worthy node at shallower nesting receives a lower
//! id than every one at deeper nesting, and an edit that only adds nodes
//! deep inside an existing subtree never renumbers ancestors, siblings or
//! unrelated subtrees. The file's root always holds id 0, whether or not
//! its own kind is stable-worthy.

use core::marker::PhantomData;
use vstd::prelude::*;
use crate::file_id::HirFileId;
use vstd::set_lib::{lemma_int_range, lemma_len_subset, set_int_range};
use crate::syntax_tree::{is_item_kind, is_stable_worthy, should_alloc_id, SyntaxNodePtr,
    SyntaxTree, KIND_BLOCK_EXPR, KIND_FN, KIND_MACRO_CALL, KIND_MODULE, KIND_STRUCT, KIND_TRAIT};

verus! {

/// A stable id with its node category erased: a dense, zero-based index
/// into one file's table. Unique within that file, meaningless across
/// files.
#[derive(Clone, Copy, PartialEq, Eq, Structural, Debug, Hash)]
pub struct ErasedFileAstId {
    pub raw: u32,
}

impl ErasedFileAstId {
    pub fn into_raw(self) -> (r: u32)
        ensures
            r == self.raw,
    {
        self.raw
    }

    /// The id that every file's root node holds.
    pub fn root_id() -> (r: ErasedFileAstId)
        ensures
            r.raw == 0,
    {
        ErasedFileAstId { raw: 0 }
    }
}

/// A syntactic category of nodes that stable ids can be tagged with at the
/// type level, so a function's id cannot be used where a macro call's id is
/// expected.
pub trait AstIdNode {
    /// Which kinds belong to this category.
    spec fn can_cast_spec(kind: u16) -> bool;

    fn can_cast(kind: u16) -> (r: bool)
        ensures
            r == Self::can_cast_spec(kind),
    ;
}

/// Any item-like declaration.
#[derive(Clone, Copy, Debug)]
pub struct AnyItem;

impl AstIdNode for AnyItem {
    open spec fn can_cast_spec(kind: u16) -> bool {
        is_item_kind(kind)
    }

    fn can_cast(kind: u16) -> (r: bool) {
        KIND_MODULE <= kind && kind <= KIND_MACRO_CALL
    }
}

/// A function declaration.
#[derive(Clone, Copy, Debug)]
pub struct FnItem;

impl AstIdNode for FnItem {
    open spec fn can_cast_spec(kind: u16) -> bool {
        kind == KIND_FN
    }

    fn can_cast(kind: u16) -> (r: bool) {
        kind == KIND_FN
    }
}

/// A struct declaration.
#[derive(Clone, Copy, Debug)]
pub struct StructItem;

impl AstIdNode for StructItem {
    open spec fn can_cast_spec(kind: u16) -> bool {
        kind == KIND_STRUCT
    }

    fn can_cast(kind: u16) -> (r: bool) {
        kind == KIND_STRUCT
    }
}

/// A module declaration.
#[derive(Clone, Copy, Debug)]
pub struct ModuleItem;

impl AstIdNode for ModuleItem {
    open spec fn can_cast_spec(kind: u16) -> bool {
        kind == KIND_MODULE
    }

    fn can_cast(kind: u16) -> (r: bool) {
        kind == KIND_MODULE
    }
}

/// A trait declaration.
#[derive(Clone, Copy, Debug)]
pub struct TraitItem;

impl AstIdNode for TraitItem {
    open spec fn can_cast_spec(kind: u16) -> bool {
        kind == KIND_TRAIT
    }

    fn can_cast(kind: u16) -> (r: bool) {
        kind == KIND_TRAIT
    }
}

/// A macro invocation.
#[derive(Clone, Copy, Debug)]
pub struct MacroCallNode;

impl AstIdNode for MacroCallNode {
    open spec fn can_cast_spec(kind: u16) -> bool {
        kind == KIND_MACRO_CALL
    }

    fn can_cast(kind: u16) -> (r: bool) {
        kind == KIND_MACRO_CALL
    }
}

/// A block expression.
#[derive(Clone, Copy, Debug)]
pub struct BlockExprNode;

impl AstIdNode for BlockExprNode {
    open spec fn can_cast_spec(kind: u16) -> bool {
        kind == KIND_BLOCK_EXPR
    }

    fn can_cast(kind: u16) -> (r: bool) {
        kind == KIND_BLOCK_EXPR
    }
}

/// A stable id tagged with the category of node it refers to. Carries no
/// state beyond the erased id.
pub struct FileAstId<N: AstIdNode> {
    pub raw: ErasedFileAstId,
    pub covariant: PhantomData<N>,
}

impl<N: AstIdNode> Clone for FileAstId<N> {
    fn clone(&self) -> (r: FileAstId<N>)
        ensures
            r.raw == self.raw,
    {
        FileAstId { raw: self.raw, covariant: PhantomData }
    }
}

impl<N: AstIdNode> Copy for FileAstId<N> {

}

impl<N: AstIdNode> FileAstId<N> {
    /// Cast this id to a broader category. Sound whenever every kind of the
    /// narrower category also belongs to the broader one.
    pub fn upcast<M: AstIdNode>(self) -> (r: FileAstId<M>)
        requires
            forall|kind: u16| N::can_cast_spec(kind) ==> M::can_cast_spec(kind),
        ensures
            r.raw == self.raw,
    {
        FileAstId { raw: self.raw, covariant: PhantomData }
    }

    pub fn erase(self) -> (r: ErasedFileAstId)
        ensures
            r == self.raw,
    {
        self.raw
    }
}

/// A pointer-like reference tagged with the category of node it points at.
pub struct AstPtr<N: AstIdNode> {
    pub raw: SyntaxNodePtr,
    pub covariant: PhantomData<N>,
}

impl<N: AstIdNode> Clone for AstPtr<N> {
    fn clone(&self) -> (r: AstPtr<N>)
        ensures
            r.raw == self.raw,
    {
        AstPtr { raw: self.raw, covariant: PhantomData }
    }
}

impl<N: AstIdNode> Copy for AstPtr<N> {

}

impl<N: AstIdNode> AstPtr<N> {
    pub fn syntax_node_ptr(self) -> (r: SyntaxNodePtr)
        ensures
            r == self.raw,
    {
        self.raw
    }
}

/// A value paired with the identity of the file it belongs to.
#[derive(Clone, Copy, Debug)]
pub struct InFile<T> {
    pub file_id: HirFileId,
    pub value: T,
}

impl<T> InFile<T> {
    pub fn new(file_id: HirFileId, value: T) -> (r: InFile<T>)
        ensures
            r.file_id == file_id,
            r.value == value,
    {
        InFile { file_id, value }
    }
}

/// A typed stable id qualified by the file it belongs to: stable across
/// reparses, fit to key a memoization table.
pub type AstId<N> = InFile<FileAstId<N>>;

impl<N: AstIdNode> AstId<N> {
    /// The node reference this id points at, read from its file's table.
    pub fn to_ptr(&self, map: &AstIdMap) -> (r: AstPtr<N>)
        requires
            map.inv(),
            self.value.raw.raw < map.view().len(),
            N::can_cast_spec(map.view()[self.value.raw.raw as int].kind),
        ensures
            r.raw == map.view()[self.value.raw.raw as int],
    {
        map.get(self.value)
    }
}

/// An erased stable id qualified by the file it belongs to.
pub type ErasedAstId = InFile<ErasedFileAstId>;

impl ErasedAstId {
    /// The node reference this id points at, read from its file's table.
    pub fn to_ptr(&self, map: &AstIdMap) -> (r: SyntaxNodePtr)
        requires
            map.inv(),
            self.value.raw < map.view().len(),
        ensures
            r == map.view()[self.value.raw as int],
    {
        map.get_erased(self.value)
    }
}

/// Whether the indexer assigns node `i` an id: the root always gets one,
/// every other node exactly when its kind is stable-worthy.
pub open spec fn alloc_node(t: SyntaxTree, i: int) -> bool {
    i == 0 || is_stable_worthy(t.kind_of(i))
}

/// The breadth layer of node `i`: how many stable-worthy nodes lie strictly
/// above it.
pub open spec fn layer_of(t: SyntaxTree, i: int) -> int
    decreases i,
{
    if i <= 0 || t.parent_of(i) < 0 || t.parent_of(i) >= i {
        0
    } else {
        layer_of(t, t.parent_of(i)) + if is_stable_worthy(t.kind_of(t.parent_of(i))) {
            1int
        } else {
            0int
        }
    }
}

/// The nodes among `0 .. k` that receive an id in layer `l`, in document
/// order.
pub open spec fn layer_prefix(t: SyntaxTree, l: int, k: int) -> Seq<int>
    decreases k,
{
    if k <= 0 {
        Seq::empty()
    } else if alloc_node(t, k - 1) && layer_of(t, k - 1) == l {
        layer_prefix(t, l, k - 1).push(k - 1)
    } else {
        layer_prefix(t, l, k - 1)
    }
}

/// All nodes that receive an id in layer `l`, in document order.
pub open spec fn layer_seq(t: SyntaxTree, l: int) -> Seq<int> {
    layer_prefix(t, l, t.len_spec())
}

/// The id-assignment order restricted to layers below `l`.
pub open spec fn alloc_order_upto(t: SyntaxTree, l: int) -> Seq<int>
    decreases l,
{
    if l <= 0 {
        Seq::empty()
    } else {
        alloc_order_upto(t, l - 1) + layer_seq(t, l - 1)
    }
}

/// The order in which the indexer assigns ids: layer by layer, and within
/// one layer in document order. The id of a node is its position here.
pub open spec fn alloc_order(t: SyntaxTree) -> Seq<int> {
    alloc_order_upto(t, t.len_spec())
}

/// A node's layer never exceeds its document position.
pub proof fn lemma_layer_of_bound(t: SyntaxTree, i: int)
    requires
        t.wf(),
        0 <= i < t.len_spec(),
    ensures
        0 <= layer_of(t, i) <= i,
    decreases i,
{
    if i > 0 {
        lemma_layer_of_bound(t, t.parent_of(i));
    }
}

/// Shape of one layer's document-order slice: its entries are exactly the
/// layer's alloc-worthy nodes below `k`, listed in strictly increasing
/// document order.
pub proof fn lemma_layer_prefix_props(t: SyntaxTree, l: int, k: int)
    requires
        0 <= k,
    ensures
        forall|p: int|
            0 <= p < layer_prefix(t, l, k).len() ==> 0 <= #[trigger] layer_prefix(t, l, k)[p] < k
                && alloc_node(t, layer_prefix(t, l, k)[p]) && layer_of(
                t,
                layer_prefix(t, l, k)[p],
            ) == l,
        forall|p: int, q: int|
            0 <= p < q < layer_prefix(t, l, k).len() ==> #[trigger] layer_prefix(t, l, k)[p]
                < #[trigger] layer_prefix(t, l, k)[q],
        forall|x: int|
            0 <= x < k && alloc_node(t, x) && layer_of(t, x) == l ==> layer_prefix(
                t,
                l,
                k,
            ).contains(x),
    decreases k,
{
    if k > 0 {
        lemma_layer_prefix_props(t, l, k - 1);
        let prev = layer_prefix(t, l, k - 1);
        let cur = layer_prefix(t, l, k);
        if alloc_node(t, k - 1) && layer_of(t, k - 1) == l {
            assert(cur == prev.push(k - 1));
            assert forall|x: int|
                0 <= x < k && alloc_node(t, x) && layer_of(t, x) == l implies cur.contains(x) by {
                if x < k - 1 {
                    let p = choose|p: int| 0 <= p < prev.len() && prev[p] == x;
                    assert(cur[p] == x);
                } else {
                    assert(cur[cur.len() - 1] == x);
                }
            }
        } else {
            assert(cur == prev);
            assert forall|x: int|
                0 <= x < k && alloc_node(t, x) && layer_of(t, x) == l implies cur.contains(x) by {
                assert(x < k - 1);
            }
        }
    }
}

/// Shape of the assignment order below layer `l`: its entries are exactly
/// the alloc-worthy nodes of layers below `l`, their layers appear in
/// nondecreasing order, and no node appears twice.
pub proof fn lemma_upto_props(t: SyntaxTree, l: int)
    requires
        t.wf(),
        0 <= l,
    ensures
        forall|p: int|
            0 <= p < alloc_order_upto(t, l).len() ==> 0 <= #[trigger] alloc_order_upto(t, l)[p]
                < t.len_spec() && alloc_node(t, alloc_order_upto(t, l)[p]) && layer_of(
                t,
                alloc_order_upto(t, l)[p],
            ) < l,
        forall|x: int|
            0 <= x < t.len_spec() && alloc_node(t, x) && layer_of(t, x) < l ==> alloc_order_upto(
                t,
                l,
            ).contains(x),
        forall|p: int, q: int|
            0 <= p <= q < alloc_order_upto(t, l).len() ==> layer_of(
                t,
                #[trigger] alloc_order_upto(t, l)[p],
            ) <= layer_of(t, #[trigger] alloc_order_upto(t, l)[q]),
        alloc_order_upto(t, l).no_duplicates(),
        forall|p: int|
            0 <= p < alloc_order_upto(t, l).len() ==> alloc_order_upto(
                t,
                layer_of(t, #[trigger] alloc_order_upto(t, l)[p]),
            ).len() <= p < alloc_order_upto(
                t,
                layer_of(t, alloc_order_upto(t, l)[p]) + 1,
            ).len(),
    decreases l,
{
    if l == 0 {
        assert forall|x: int|
            0 <= x < t.len_spec() && alloc_node(t, x) && layer_of(t, x) < l implies alloc_order_upto(
            t,
            l,
        ).contains(x) by {
            lemma_layer_of_bound(t, x);
        }
    } else {
        lemma_upto_props(t, l - 1);
        lemma_layer_prefix_props(t, l - 1, t.len_spec());
        let prev = alloc_order_upto(t, l - 1);
        let block = layer_seq(t, l - 1);
        let cur = alloc_order_upto(t, l);
        assert(cur == prev + block);
        assert forall|x: int|
            0 <= x < t.len_spec() && alloc_node(t, x) && layer_of(t, x) < l implies cur.contains(
            x,
        ) by {
            if layer_of(t, x) < l - 1 {
                let p = choose|p: int| 0 <= p < prev.len() && prev[p] == x;
                assert(cur[p] == x);
            } else {
                assert(block.contains(x));
                let p = choose|p: int| 0 <= p < block.len() && block[p] == x;
                assert(cur[prev.len() + p] == x);
            }
        }
        assert forall|p: int, q: int|
            0 <= p < q < cur.len() && p >= prev.len() implies cur[p] != cur[q] by {
            assert(cur[p] == block[p - prev.len()]);
            assert(cur[q] == block[q - prev.len()]);
        }
        assert(cur.no_duplicates()) by {
            assert forall|p: int, q: int|
                0 <= p < cur.len() && 0 <= q < cur.len() && p != q implies cur[p] != cur[q] by {
                let (lo, hi) = if p < q {
                    (p, q)
                } else {
                    (q, p)
                };
                if hi < prev.len() {
                    assert(cur[lo] == prev[lo] && cur[hi] == prev[hi]);
                } else if lo < prev.len() {
                    assert(cur[lo] == prev[lo]);
                    assert(cur[hi] == block[hi - prev.len()]);
                    assert(layer_of(t, cur[lo]) < l - 1);
                    assert(layer_of(t, cur[hi]) == l - 1);
                } else {
                    assert(cur[lo] == block[lo - prev.len()]);
                    assert(cur[hi] == block[hi - prev.len()]);
                }
            }
        }
        assert forall|p: int|
            0 <= p < cur.len() implies alloc_order_upto(t, layer_of(t, #[trigger] cur[p])).len()
            <= p < alloc_order_upto(t, layer_of(t, cur[p]) + 1).len() by {
            if p < prev.len() {
                assert(cur[p] == prev[p]);
            } else {
                assert(cur[p] == block[p - prev.len()]);
                assert(layer_of(t, cur[p]) == l - 1);
                assert(alloc_order_upto(t, l - 1).len() <= p);
                assert(p < alloc_order_upto(t, l).len());
            }
        }
    }
}

/// Truncating the layer bound only truncates the assignment order: the
/// shorter order is a prefix of the longer one.
pub proof fn lemma_upto_prefix(t: SyntaxTree, l1: int, l2: int)
    requires
        t.wf(),
        0 <= l1 <= l2,
    ensures
        alloc_order_upto(t, l1).len() <= alloc_order_upto(t, l2).len(),
        forall|j: int|
            0 <= j < alloc_order_upto(t, l1).len() ==> #[trigger] alloc_order_upto(t, l2)[j]
                == alloc_order_upto(t, l1)[j],
    decreases l2,
{
    if l2 > l1 {
        lemma_upto_prefix(t, l1, l2 - 1);
    }
}

/// Layer 0 opens with the root node.
proof fn lemma_layer_zero_first(t: SyntaxTree, k: int)
    requires
        t.wf(),
        1 <= k <= t.len_spec(),
    ensures
        layer_prefix(t, 0, k).len() >= 1,
        layer_prefix(t, 0, k)[0] == 0,
    decreases k,
{
    if k == 1 {
        assert(layer_prefix(t, 0, 1) == layer_prefix(t, 0, 0).push(0));
    } else {
        lemma_layer_zero_first(t, k - 1);
    }
}

/// The very first id of any file goes to the root node, whatever its kind.
pub proof fn lemma_root_first(t: SyntaxTree)
    requires
        t.wf(),
    ensures
        alloc_order(t).len() >= 1,
        alloc_order(t)[0] == 0,
{
    let n = t.len_spec();
    lemma_layer_zero_first(t, n);
    assert(alloc_order_upto(t, 1) == alloc_order_upto(t, 0) + layer_seq(t, 0));
    assert(alloc_order_upto(t, 1)[0] == 0);
    lemma_upto_prefix(t, 1, n);
}

/// Every node that deserves an id receives one.
pub proof fn lemma_alloc_order_complete(t: SyntaxTree, x: int)
    requires
        t.wf(),
        0 <= x < t.len_spec(),
        alloc_node(t, x),
    ensures
        alloc_order(t).contains(x),
{
    lemma_layer_of_bound(t, x);
    lemma_upto_props(t, t.len_spec());
}

/// A stable-worthy strict ancestor always lies in a strictly lower layer.
pub proof fn lemma_ancestor_layer(t: SyntaxTree, a: int, d: int)
    requires
        t.wf(),
        t.is_strict_ancestor_of(a, d),
        is_stable_worthy(t.kind_of(a)),
    ensures
        layer_of(t, d) >= layer_of(t, a) + 1,
    decreases d,
{
    let p = t.parent_of(d);
    if p != a {
        lemma_ancestor_layer(t, a, p);
    }
}

/// A strict ancestor always precedes its descendant in document order.
pub proof fn lemma_ancestor_lt(t: SyntaxTree, a: int, d: int)
    requires
        t.is_strict_ancestor_of(a, d),
    ensures
        a < d,
    decreases d,
{
    let p = t.parent_of(d);
    if p != a {
        lemma_ancestor_lt(t, a, p);
    }
}

/// Parent before child: when one assigned node is a strict ancestor of
/// another, the ancestor's id is strictly smaller.
pub proof fn lemma_parent_before_child(t: SyntaxTree, j: int, k: int)
    requires
        t.wf(),
        0 <= j < alloc_order(t).len(),
        0 <= k < alloc_order(t).len(),
        t.is_strict_ancestor_of(alloc_order(t)[j], alloc_order(t)[k]),
    ensures
        j < k,
{
    let s = alloc_order(t);
    let a = s[j];
    let d = s[k];
    lemma_upto_props(t, t.len_spec());
    lemma_ancestor_lt(t, a, d);
    if is_stable_worthy(t.kind_of(a)) {
        lemma_ancestor_layer(t, a, d);
        if k <= j {
            assert(layer_of(t, s[k]) >= layer_of(t, s[j]));
        }
    } else {
        assert(alloc_node(t, a));
        assert(a == 0);
        lemma_root_first(t);
        assert(s[0] == 0);
        if j != 0 {
            assert(s[j] != s[0]);
        }
        assert(j == 0);
        assert(k != j);
    }
}

/// Growing the tree by one node in document order changes no earlier
/// node's id-worthiness or breadth layer.
proof fn lemma_append_node_facts(t1: SyntaxTree, t2: SyntaxTree, x: int)
    requires
        t2.nodes@.len() == t1.nodes@.len() + 1,
        forall|i: int| 0 <= i < t1.nodes@.len() ==> #[trigger] t2.nodes@[i] == t1.nodes@[i],
        0 <= x < t1.nodes@.len(),
    ensures
        layer_of(t2, x) == layer_of(t1, x),
        alloc_node(t2, x) == alloc_node(t1, x),
    decreases x,
{
    if !(x <= 0 || t1.parent_of(x) < 0 || t1.parent_of(x) >= x) {
        lemma_append_node_facts(t1, t2, t1.parent_of(x));
    }
}

/// Growing the tree by one node leaves every layer's slice over the old
/// nodes unchanged.
proof fn lemma_append_layer_prefix(t1: SyntaxTree, t2: SyntaxTree, l: int, k: int)
    requires
        t2.nodes@.len() == t1.nodes@.len() + 1,
        forall|i: int| 0 <= i < t1.nodes@.len() ==> #[trigger] t2.nodes@[i] == t1.nodes@[i],
        0 <= k <= t1.nodes@.len(),
    ensures
        layer_prefix(t2, l, k) == layer_prefix(t1, l, k),
    decreases k,
{
    if k > 0 {
        lemma_append_layer_prefix(t1, t2, l, k - 1);
        lemma_append_node_facts(t1, t2, k - 1);
    }
}

/// Growing the tree by one node leaves the whole assignment order of every
/// layer shallower than the new node's unchanged.
proof fn lemma_append_upto(t1: SyntaxTree, t2: SyntaxTree, l: int)
    requires
        t2.nodes@.len() == t1.nodes@.len() + 1,
        forall|i: int| 0 <= i < t1.nodes@.len() ==> #[trigger] t2.nodes@[i] == t1.nodes@[i],
        0 <= l <= layer_of(t2, t1.nodes@.len() as int),
    ensures
        alloc_order_upto(t2, l) == alloc_order_upto(t1, l),
    decreases l,
{
    let n = t1.nodes@.len() as int;
    if l > 0 {
        lemma_append_upto(t1, t2, l - 1);
        lemma_append_layer_prefix(t1, t2, l - 1, n);
        assert(layer_of(t2, n) != l - 1);
        assert(layer_prefix(t2, l - 1, n + 1) == layer_prefix(t2, l - 1, n));
        assert(layer_seq(t2, l - 1) == layer_seq(t1, l - 1));
    }
}

/// Stability under an edit that grows the tree: appending one node in
/// document order keeps the id of every already-indexed node whose breadth
/// layer does not exceed the appended node's. Adding a new declaration
/// deep inside the last subtree of the file — one more function in a trait
/// — appends, node by node, only nodes in layers below the enclosing
/// item's, so the item's ancestors and siblings and everything at their
/// layers keep their ids.
pub proof fn lemma_stability_under_append(t1: SyntaxTree, t2: SyntaxTree, x: int, j: int)
    requires
        t1.wf(),
        t2.wf(),
        t2.nodes@.len() == t1.nodes@.len() + 1,
        forall|i: int| 0 <= i < t1.nodes@.len() ==> #[trigger] t2.nodes@[i] == t1.nodes@[i],
        0 <= x < t1.len_spec(),
        layer_of(t1, x) <= layer_of(t2, t1.len_spec()),
        0 <= j < alloc_order(t1).len(),
        alloc_order(t1)[j] == x,
    ensures
        j < alloc_order(t2).len(),
        alloc_order(t2)[j] == x,
{
    let n = t1.len_spec();
    let lnew = layer_of(t2, n);
    let lx = layer_of(t1, x);
    lemma_upto_props(t1, n);
    lemma_layer_of_bound(t1, x);
    assert(alloc_order_upto(t1, lx).len() <= j < alloc_order_upto(t1, lx + 1).len());
    lemma_upto_prefix(t1, lx + 1, n);
    assert(alloc_order_upto(t1, lx + 1)[j] == x);
    if lx < lnew {
        lemma_append_upto(t1, t2, lx + 1);
        assert(alloc_order_upto(t2, lx + 1)[j] == x);
    } else {
        lemma_append_upto(t1, t2, lx);
        lemma_append_layer_prefix(t1, t2, lx, n);
        let a = alloc_order_upto(t1, lx);
        let b1 = layer_seq(t1, lx);
        let b2 = layer_seq(t2, lx);
        assert(layer_prefix(t2, lx, n) == b1);
        assert(b2 == layer_prefix(t2, lx, n + 1));
        assert(b2 == b1 || b2 == b1.push(n));
        assert(alloc_order_upto(t1, lx + 1) == a + b1);
        assert(alloc_order_upto(t2, lx + 1) == alloc_order_upto(t2, lx) + b2);
        assert(alloc_order_upto(t2, lx + 1) == a + b2);
        assert(j < (a + b1).len());
        assert((a + b2)[j] == (a + b1)[j]);
        assert(alloc_order_upto(t2, lx + 1)[j] == x);
    }
    lemma_upto_prefix(t2, lx + 1, n + 1);
    assert(alloc_order_upto(t2, lx + 1).len() <= alloc_order(t2).len());
    assert(alloc_order(t2)[j] == x);
}

/// The index a pre-edit node occupies after `m` new nodes are inserted at
/// position `p` of the document order.
pub open spec fn shift_idx(p: int, m: int, q: int) -> int {
    if q < p {
        q
    } else {
        q + m
    }
}

/// `t2` is `t1` with `m` new nodes inserted at document position `p`:
/// every pre-edit node keeps its kind, and its parent link is the shifted
/// image of its old parent. Byte ranges are free to change — an edit moves
/// the text of everything after it and widens its enclosing nodes.
pub open spec fn is_insertion(t1: SyntaxTree, t2: SyntaxTree, p: int, m: int) -> bool {
    &&& 0 < p <= t1.len_spec()
    &&& 0 <= m
    &&& t2.len_spec() == t1.len_spec() + m
    &&& forall|i: int|
        0 <= i < t1.len_spec() ==> t2.nodes@[#[trigger] shift_idx(p, m, i)].kind
            == t1.nodes@[i].kind && t2.nodes@[shift_idx(p, m, i)].parent as int == shift_idx(
            p,
            m,
            t1.nodes@[i].parent as int,
        )
}

/// An insertion changes no pre-edit node's id-worthiness or breadth layer.
proof fn lemma_insertion_node_facts(t1: SyntaxTree, t2: SyntaxTree, p: int, m: int, x: int)
    requires
        t1.wf(),
        is_insertion(t1, t2, p, m),
        0 <= x < t1.len_spec(),
    ensures
        layer_of(t2, shift_idx(p, m, x)) == layer_of(t1, x),
        alloc_node(t2, shift_idx(p, m, x)) == alloc_node(t1, x),
    decreases x,
{
    if x > 0 {
        let q = t1.parent_of(x);
        assert(0 <= q < x);
        lemma_insertion_node_facts(t1, t2, p, m, q);
        assert(t2.parent_of(shift_idx(p, m, x)) == shift_idx(p, m, q));
        assert(shift_idx(p, m, q) < shift_idx(p, m, x));
        assert(t2.kind_of(shift_idx(p, m, q)) == t1.kind_of(q));
    }
}

/// A layer slice untouched between two bounds stays the same.
proof fn lemma_prefix_skip_block(t: SyntaxTree, l: int, a: int, b: int)
    requires
        0 <= a <= b,
        forall|i: int| a <= i < b ==> !(alloc_node(t, i) && layer_of(t, i) == l),
    ensures
        layer_prefix(t, l, b) == layer_prefix(t, l, a),
    decreases b - a,
{
    if b > a {
        lemma_prefix_skip_block(t, l, a, b - 1);
    }
}

/// An insertion whose new nodes all avoid layer `l` maps layer `l`'s slice
/// over the pre-edit nodes through the index shift, entry for entry.
proof fn lemma_insertion_layer_prefix(t1: SyntaxTree, t2: SyntaxTree, p: int, m: int, l: int, k: int)
    requires
        t1.wf(),
        is_insertion(t1, t2, p, m),
        0 <= k <= t1.len_spec(),
        forall|i: int| p <= i < p + m ==> layer_of(t2, i) != l,
    ensures
        layer_prefix(t2, l, shift_idx(p, m, k)) == layer_prefix(t1, l, k).map_values(
            |q: int| shift_idx(p, m, q),
        ),
    decreases k,
{
    let f = |q: int| shift_idx(p, m, q);
    if k == 0 {
        assert(layer_prefix(t1, l, 0).map_values(f) =~= layer_prefix(t2, l, 0));
    } else {
        lemma_insertion_layer_prefix(t1, t2, p, m, l, k - 1);
        lemma_insertion_node_facts(t1, t2, p, m, k - 1);
        if k <= p {
            assert(shift_idx(p, m, k - 1) == k - 1);
            if alloc_node(t1, k - 1) && layer_of(t1, k - 1) == l {
                assert(layer_prefix(t1, l, k).map_values(f) =~= layer_prefix(
                    t1,
                    l,
                    k - 1,
                ).map_values(f).push(k - 1));
                assert(layer_prefix(t2, l, k) == layer_prefix(t2, l, k - 1).push(k - 1));
            } else {
                assert(layer_prefix(t1, l, k).map_values(f) =~= layer_prefix(
                    t1,
                    l,
                    k - 1,
                ).map_values(f));
            }
            if k == p {
                assert forall|i: int| p <= i < p + m implies !(alloc_node(t2, i) && layer_of(t2, i)
                    == l) by {}
                lemma_prefix_skip_block(t2, l, p, p + m);
                assert(layer_prefix(t2, l, shift_idx(p, m, k)) == layer_prefix(t2, l, k));
            }
        } else {
            assert(shift_idx(p, m, k) == k + m);
            assert(shift_idx(p, m, k - 1) == k - 1 + m);
            if alloc_node(t1, k - 1) && layer_of(t1, k - 1) == l {
                assert(layer_prefix(t1, l, k).map_values(f) =~= layer_prefix(
                    t1,
                    l,
                    k - 1,
                ).map_values(f).push(k - 1 + m));
                assert(layer_prefix(t2, l, k + m) == layer_prefix(t2, l, k - 1 + m).push(
                    k - 1 + m,
                ));
            } else {
                assert(layer_prefix(t1, l, k).map_values(f) =~= layer_prefix(
                    t1,
                    l,
                    k - 1,
                ).map_values(f));
            }
        }
    }
}

/// An insertion whose new nodes all lie in layer `l` or deeper maps the
/// assignment order below `l` through the index shift, entry for entry.
proof fn lemma_insertion_upto(t1: SyntaxTree, t2: SyntaxTree, p: int, m: int, l: int)
    requires
        t1.wf(),
        is_insertion(t1, t2, p, m),
        0 <= l,
        forall|i: int| p <= i < p + m ==> layer_of(t2, i) >= l,
    ensures
        alloc_order_upto(t2, l) == alloc_order_upto(t1, l).map_values(|q: int| shift_idx(p, m, q)),
    decreases l,
{
    let f = |q: int| shift_idx(p, m, q);
    if l == 0 {
        assert(alloc_order_upto(t1, 0).map_values(f) =~= alloc_order_upto(t2, 0));
    } else {
        lemma_insertion_upto(t1, t2, p, m, l - 1);
        lemma_insertion_layer_prefix(t1, t2, p, m, l - 1, t1.len_spec());
        assert(shift_idx(p, m, t1.len_spec()) == t2.len_spec());
        assert(layer_seq(t2, l - 1) == layer_seq(t1, l - 1).map_values(f));
        assert((alloc_order_upto(t1, l - 1) + layer_seq(t1, l - 1)).map_values(f)
            =~= alloc_order_upto(t1, l - 1).map_values(f) + layer_seq(t1, l - 1).map_values(f));
    }
}

/// Stability under unrelated edit: an edit that inserts nodes into the
/// document — adding a declaration inside one subtree — keeps the id of
/// every pre-edit node lying in a layer strictly above all inserted nodes.
/// New nodes inside a stable-worthy node B sit in layers below B's, so
/// B's ancestors, B's siblings, and every assigned node of their layers
/// keep their ids; only deeper layers can shift.
pub proof fn lemma_stability_under_insertion(
    t1: SyntaxTree,
    t2: SyntaxTree,
    p: int,
    m: int,
    x: int,
    j: int,
)
    requires
        t1.wf(),
        t2.wf(),
        is_insertion(t1, t2, p, m),
        0 <= x < t1.len_spec(),
        forall|i: int| p <= i < p + m ==> layer_of(t2, i) > layer_of(t1, x),
        0 <= j < alloc_order(t1).len(),
        alloc_order(t1)[j] == x,
    ensures
        j < alloc_order(t2).len(),
        alloc_order(t2)[j] == shift_idx(p, m, x),
{
    let n = t1.len_spec();
    let lx = layer_of(t1, x);
    let f = |q: int| shift_idx(p, m, q);
    lemma_upto_props(t1, n);
    lemma_layer_of_bound(t1, x);
    assert(alloc_order_upto(t1, lx).len() <= j < alloc_order_upto(t1, lx + 1).len());
    lemma_upto_prefix(t1, lx + 1, n);
    assert(alloc_order_upto(t1, lx + 1)[j] == x);
    lemma_insertion_upto(t1, t2, p, m, lx + 1);
    assert(alloc_order_upto(t2, lx + 1)[j] == f(x));
    lemma_upto_prefix(t2, lx + 1, t2.len_spec());
    assert(alloc_order(t2)[j] == shift_idx(p, m, x));
}

/// One file's table: the id-to-node arena in assignment order, and the
/// reverse index from node to id built once after the arena is complete.
pub struct AstIdMap {
    pub arena: Vec<SyntaxNodePtr>,
    pub rev: Vec<Option<u32>>,
}

impl AstIdMap {
    /// The table: the node reference held by each id, id order.
    pub open spec fn view(self) -> Seq<SyntaxNodePtr> {
        self.arena@
    }

    /// The id of a node reference, as the reverse index records it.
    pub open spec fn spec_erased_id_of(self, ptr: SyntaxNodePtr) -> int {
        self.rev@[ptr.node as int]->Some_0 as int
    }

    /// The arena and the reverse index agree: the reverse index sends each
    /// arena entry back to its position, and points nowhere else.
    pub open spec fn inv(self) -> bool {
        &&& self.arena@.len() >= 1
        &&& self.arena@.len() <= u32::MAX
        &&& forall|k: int|
            0 <= k < self.arena@.len() ==> (#[trigger] self.arena@[k]).node < self.rev@.len()
        &&& forall|k: int|
            0 <= k < self.arena@.len() ==> self.rev@[(#[trigger] self.arena@[k]).node as int]
                == Some(k as u32)
        &&& forall|m: int|
            0 <= m < self.rev@.len() ==> ((#[trigger] self.rev@[m]) is Some ==> (
            self.rev@[m]->Some_0 as int) < self.arena@.len()
                && self.arena@[self.rev@[m]->Some_0 as int].node == m)
    }

    /// Index the file: assign every stable-worthy node of `tree` an id,
    /// breadth layer by breadth layer and in document order within a layer,
    /// with id 0 on the root, then freeze the table and build the reverse
    /// index.
    pub fn from_source(tree: &SyntaxTree) -> (res: AstIdMap)
        requires
            tree.wf(),
            tree.len_spec() <= u32::MAX,
        ensures
            res.inv(),
            res.rev@.len() == tree.len_spec(),
            res.view().len() == alloc_order(*tree).len(),
            forall|k: int|
                0 <= k < res.view().len() ==> #[trigger] res.view()[k] == tree.ptr_spec(
                    alloc_order(*tree)[k],
                ),
            res.view()[0] == tree.ptr_spec(0),
    {
        let n = tree.len();
        // One pass up the parent links: the breadth layer of every node.
        let mut layers: Vec<usize> = Vec::new();
        let mut i: usize = 0;
        while i < n
            invariant
                tree.wf(),
                n == tree.len_spec(),
                i <= n,
                layers@.len() == i,
                forall|j: int| 0 <= j < i ==> #[trigger] layers@[j] as int == layer_of(*tree, j),
            decreases n - i,
        {
            if i == 0 {
                layers.push(0);
            } else {
                let p = tree.parent(i);
                proof {
                    lemma_layer_of_bound(*tree, p as int);
                }
                let step: usize = if should_alloc_id(tree.kind(p)) {
                    1
                } else {
                    0
                };
                let li = layers[p] + step;
                layers.push(li);
            }
            i += 1;
        }
        // Assign ids layer by layer; within a layer, document order.
        let mut arena: Vec<SyntaxNodePtr> = Vec::new();
        let mut l: usize = 0;
        while l < n
            invariant
                tree.wf(),
                n == tree.len_spec(),
                l <= n,
                layers@.len() == n,
                forall|j: int| 0 <= j < n ==> #[trigger] layers@[j] as int == layer_of(*tree, j),
                arena@.len() == alloc_order_upto(*tree, l as int).len(),
                forall|k: int|
                    0 <= k < arena@.len() ==> #[trigger] arena@[k] == tree.ptr_spec(
                        alloc_order_upto(*tree, l as int)[k],
                    ),
            decreases n - l,
        {
            let ghost entered = alloc_order_upto(*tree, l as int);
            let mut i: usize = 0;
            proof {
                assert(entered + layer_prefix(*tree, l as int, 0) =~= entered);
            }
            while i < n
                invariant
                    tree.wf(),
                    n == tree.len_spec(),
                    l < n,
                    i <= n,
                    layers@.len() == n,
                    forall|j: int|
                        0 <= j < n ==> #[trigger] layers@[j] as int == layer_of(*tree, j),
                    entered == alloc_order_upto(*tree, l as int),
                    arena@.len() == (entered + layer_prefix(*tree, l as int, i as int)).len(),
                    forall|k: int|
                        0 <= k < arena@.len() ==> #[trigger] arena@[k] == tree.ptr_spec(
                            (entered + layer_prefix(*tree, l as int, i as int))[k],
                        ),
                decreases n - i,
            {
                let worthy = i == 0 || should_alloc_id(tree.kind(i));
                if worthy && layers[i] == l {
                    let ghost before = entered + layer_prefix(*tree, l as int, i as int);
                    arena.push(tree.node_ptr(i));
                    proof {
                        assert(layer_prefix(*tree, l as int, i + 1) == layer_prefix(
                            *tree,
                            l as int,
                            i as int,
                        ).push(i as int));
                        assert(entered + layer_prefix(*tree, l as int, i + 1) =~= before.push(
                            i as int,
                        ));
                    }
                } else {
                    proof {
                        assert(layer_prefix(*tree, l as int, i + 1) == layer_prefix(
                            *tree,
                            l as int,
                            i as int,
                        ));
                    }
                }
                i += 1;
            }
            proof {
                assert(alloc_order_upto(*tree, l + 1) == entered + layer_seq(*tree, l as int));
            }
            l += 1;
        }
        proof {
            assert(arena@.len() == alloc_order(*tree).len());
            lemma_upto_props(*tree, tree.len_spec());
            alloc_order(*tree).unique_seq_to_set();
            lemma_int_range(0, tree.len_spec());
            assert(alloc_order(*tree).to_set().subset_of(set_int_range(0, tree.len_spec())));
            lemma_len_subset(alloc_order(*tree).to_set(), set_int_range(0, tree.len_spec()));
            lemma_root_first(*tree);
        }
        // Freeze: build the reverse index over the finished arena.
        let mut rev: Vec<Option<u32>> = Vec::new();
        let mut m: usize = 0;
        while m < n
            invariant
                m <= n,
                rev@.len() == m,
                forall|j: int| 0 <= j < m ==> #[trigger] rev@[j] is None,
            decreases n - m,
        {
            rev.push(None);
            m += 1;
        }
        let arena_len = arena.len();
        let mut k: usize = 0;
        while k < arena_len
            invariant
                tree.wf(),
                n == tree.len_spec(),
                n <= u32::MAX,
                arena_len == arena@.len(),
                arena@.len() <= n,
                k <= arena_len,
                rev@.len() == n,
                arena@.len() == alloc_order(*tree).len(),
                forall|k2: int|
                    0 <= k2 < arena@.len() ==> #[trigger] arena@[k2] == tree.ptr_spec(
                        alloc_order(*tree)[k2],
                    ),
                alloc_order(*tree).no_duplicates(),
                forall|k2: int|
                    0 <= k2 < arena@.len() ==> 0 <= #[trigger] alloc_order(*tree)[k2] < n,
                forall|k2: int|
                    0 <= k2 < k ==> rev@[(#[trigger] arena@[k2]).node as int] == Some(k2 as u32),
                forall|m2: int|
                    0 <= m2 < n ==> ((#[trigger] rev@[m2]) is Some ==> (rev@[m2]->Some_0 as int) < k
                        && arena@[rev@[m2]->Some_0 as int].node == m2),
            decreases arena_len - k,
        {
            let node = arena[k].node;
            proof {
                assert(arena@[k as int] == tree.ptr_spec(alloc_order(*tree)[k as int]));
                assert(node as int == alloc_order(*tree)[k as int]);
            }
            rev[node] = Some(k as u32);
            proof {
                assert forall|k2: int|
                    0 <= k2 < k + 1 implies rev@[(#[trigger] arena@[k2]).node as int] == Some(
                    k2 as u32,
                ) by {
                    if k2 < k {
                        assert(arena@[k2].node as int == alloc_order(*tree)[k2]);
                        assert(alloc_order(*tree)[k2] != alloc_order(*tree)[k as int]);
                    }
                }
            }
            k += 1;
        }
        let res = AstIdMap { arena, rev };
        proof {
            assert(res.view()[0] == tree.ptr_spec(alloc_order(*tree)[0]));
        }
        res
    }

    /// The node reference that holds id 0: always the file's root.
    pub fn root(&self) -> (r: SyntaxNodePtr)
        requires
            self.inv(),
        ensures
            r == self.view()[0],
    {
        self.arena[0]
    }

    /// The typed id of an indexed node whose kind belongs to category `N`.
    pub fn ast_id<N: AstIdNode>(&self, item: &SyntaxNodePtr) -> (r: FileAstId<N>)
        requires
            self.inv(),
            self.view().contains(*item),
            N::can_cast_spec(item.kind),
        ensures
            r.raw.raw < self.view().len(),
            self.view()[r.raw.raw as int] == *item,
            r.raw.raw as int == self.spec_erased_id_of(*item),
    {
        FileAstId { raw: self.erased_ast_id(item), covariant: PhantomData }
    }

    /// The typed node reference an id points at.
    pub fn get<N: AstIdNode>(&self, id: FileAstId<N>) -> (r: AstPtr<N>)
        requires
            self.inv(),
            id.raw.raw < self.view().len(),
            N::can_cast_spec(self.view()[id.raw.raw as int].kind),
        ensures
            r.raw == self.view()[id.raw.raw as int],
    {
        AstPtr { raw: self.get_erased(id.raw), covariant: PhantomData }
    }

    /// The node reference an erased id points at. Never fails for an id
    /// obtained from this same table.
    pub fn get_erased(&self, id: ErasedFileAstId) -> (r: SyntaxNodePtr)
        requires
            self.inv(),
            id.raw < self.view().len(),
        ensures
            r == self.view()[id.raw as int],
    {
        self.arena[id.raw as usize]
    }

    /// The erased id of an indexed node. A node reference that was never
    /// part of this file's indexing pass is a caller defect and is excluded
    /// here rather than answered wrongly.
    pub fn erased_ast_id(&self, item: &SyntaxNodePtr) -> (r: ErasedFileAstId)
        requires
            self.inv(),
            self.view().contains(*item),
        ensures
            r.raw < self.view().len(),
            self.view()[r.raw as int] == *item,
            r.raw as int == self.spec_erased_id_of(*item),
    {
        proof {
            let p = choose|p: int| 0 <= p < self.arena@.len() && self.arena@[p] == *item;
            assert(self.rev@[self.arena@[p].node as int] == Some(p as u32));
        }
        let slot = self.rev[item.node];
        let j = slot.unwrap();
        ErasedFileAstId { raw: j }
    }

    /// How many ids this file's table holds.
    pub fn len(&self) -> (r: usize)
        ensures
            r == self.view().len(),
    {
        self.arena.len()
    }
}

/// Round-trip: looking up the node a table id points at returns that same
/// id, and looking up the id of an indexed node reference returns a
/// reference equal to it.
pub proof fn lemma_id_node_round_trip(m: AstIdMap, k: int, ptr: SyntaxNodePtr)
    requires
        m.inv(),
    ensures
        0 <= k < m.view().len() ==> m.spec_erased_id_of(m.view()[k]) == k,
        m.view().contains(ptr) ==> m.view()[m.spec_erased_id_of(ptr)] == ptr,
{
    if 0 <= k < m.view().len() {
        assert(m.rev@[m.arena@[k].node as int] == Some(k as u32));
    }
    if m.view().contains(ptr) {
        let p = choose|p: int| 0 <= p < m.arena@.len() && m.arena@[p] == ptr;
        assert(m.rev@[m.arena@[p].node as int] == Some(p as u32));
    }
}

} // verus!
