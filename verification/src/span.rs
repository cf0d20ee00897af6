//! Spans: the provenance every token carries.
//!
//! A span does not store an absolute file offset. It stores a text range
//! relative to an anchor — the nearest enclosing stable-worthy node — plus
//! that anchor's (file identity, stable id) pair and a hygiene context.
//! Edits before the anchor therefore never perturb the span; its absolute
//! position is recovered on demand by combining it with the anchor's
//! current position, looked up through the file's table.

use vstd::prelude::*;
use crate::ast_id_map::{AstIdMap, ErasedFileAstId};
use crate::file_id::{FileId, HirFileId, BOGUS_FILE_ID};
use crate::hygiene::{SyntaxContextId, ROOT_CONTEXT};

verus! {

/// A byte range in some file's text.
#[derive(Clone, Copy, PartialEq, Eq, Structural, Debug, Hash)]
pub struct TextRange {
    pub start: u32,
    pub end: u32,
}

impl TextRange {
    pub open spec fn wf(self) -> bool {
        self.start <= self.end
    }

    pub fn new(start: u32, end: u32) -> (r: TextRange)
        requires
            start <= end,
        ensures
            r.wf(),
            r.start == start,
            r.end == end,
    {
        TextRange { start, end }
    }

    /// The empty range sitting at `offset`.
    pub fn empty(offset: u32) -> (r: TextRange)
        ensures
            r.wf(),
            r.start == offset,
            r.end == offset,
    {
        TextRange { start: offset, end: offset }
    }

    pub fn len(self) -> (r: u32)
        requires
            self.wf(),
        ensures
            r == self.end - self.start,
    {
        self.end - self.start
    }
}

/// A position in a real file.
#[derive(Clone, Copy, Debug)]
pub struct FilePosition {
    pub file_id: FileId,
    pub offset: u32,
}

/// An absolute range in a real file.
#[derive(Clone, Copy, PartialEq, Eq, Structural, Debug, Hash)]
pub struct FileRange {
    pub file_id: FileId,
    pub range: TextRange,
}

/// The reference point of a span: the nearest enclosing stable-worthy node
/// in the file the span's text belongs to.
#[derive(Clone, Copy, PartialEq, Eq, Structural, Debug, Hash)]
pub struct SpanAnchor {
    pub file_id: HirFileId,
    pub ast_id: ErasedFileAstId,
}

/// A span: a text range relative to its anchor, the anchor itself, and the
/// hygiene context of the token it tags. Immutable and freely copyable.
#[derive(Clone, Copy, PartialEq, Eq, Structural, Debug, Hash)]
pub struct SpanData<Ctx> {
    pub range: TextRange,
    pub anchor: SpanAnchor,
    pub ctx: Ctx,
}

/// The span type every token carries.
pub type Span = SpanData<SyntaxContextId>;

/// The reserved sentinel span for code paths that must build a placeholder
/// before real provenance is known.
pub open spec fn dummy_span_spec() -> Span {
    SpanData {
        range: TextRange { start: 0, end: 0 },
        anchor: SpanAnchor {
            file_id: HirFileId::from_file_id_spec(FileId { raw: BOGUS_FILE_ID }),
            ast_id: ErasedFileAstId { raw: 0 },
        },
        ctx: SyntaxContextId { raw: ROOT_CONTEXT },
    }
}

/// The sentinel span. Surfacing it in diagnostics or token output is a
/// defect: it exists only as a structurally required placeholder.
pub fn dummy_span() -> (r: Span)
    ensures
        r == dummy_span_spec(),
{
    SpanData {
        range: TextRange::empty(0),
        anchor: SpanAnchor {
            file_id: HirFileId::from_file_id(FileId::bogus()),
            ast_id: ErasedFileAstId::root_id(),
        },
        ctx: SyntaxContextId::root(),
    }
}

/// Whether a span is the reserved sentinel.
pub fn is_dummy_span(span: &Span) -> (r: bool)
    ensures
        r == (*span == dummy_span_spec()),
{
    span.range.start == 0 && span.range.end == 0 && span.anchor.file_id.as_u32() == BOGUS_FILE_ID
        && span.anchor.ast_id.into_raw() == 0 && span.ctx.is_root()
}

/// Recover a span's absolute range in its file by shifting the relative
/// range to the anchor node's current position, read from the file's table.
pub fn absolute_range(map: &AstIdMap, span: &Span) -> (r: TextRange)
    requires
        map.inv(),
        span.anchor.ast_id.raw < map.view().len(),
        span.range.wf(),
        map.view()[span.anchor.ast_id.raw as int].start + span.range.end <= u32::MAX,
    ensures
        r.wf(),
        r.start == map.view()[span.anchor.ast_id.raw as int].start + span.range.start,
        r.end == map.view()[span.anchor.ast_id.raw as int].start + span.range.end,
{
    let anchor_node = map.get_erased(span.anchor.ast_id);
    TextRange { start: anchor_node.start + span.range.start, end: anchor_node.start + span.range.end }
}

} // verus!
