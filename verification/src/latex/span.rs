//! Positions and ranges that tie logical text back to LaTeX sources.
use std::ops::Range;
use vstd::prelude::*;

verus! {

/// A position in the document's reading order: block index plus byte offset
/// inside that block's logical text.
#[derive(Debug, Clone, Copy, PartialEq, Eq, PartialOrd, Ord)]
pub struct ReadingPosition {
    pub block: usize,
    pub byte: usize,
}

/// Reading order: by block, then by byte offset.
pub open spec fn position_lt(a: ReadingPosition, b: ReadingPosition) -> bool {
    a.block < b.block || (a.block == b.block && a.byte < b.byte)
}

impl ReadingPosition {
    /// Whether `self` comes strictly before `other` in reading order.
    pub fn precedes(&self, other: &ReadingPosition) -> (r: bool)
        ensures
            r == position_lt(*self, *other),
    {
        self.block < other.block || (self.block == other.block && self.byte < other.byte)
    }
}

/// A logical-text range inside one block.
#[derive(Debug, PartialEq, Eq)]
pub struct LocatedRange {
    pub block: usize,
    /// Exact half-open UTF-8 byte range inside `block` logical text.
    pub range: Range<usize>,
}

impl LocatedRange {
    pub open spec fn spec_position(&self) -> ReadingPosition {
        ReadingPosition { block: self.block, byte: self.range.start }
    }

    /// The reading position of the range's first byte.
    pub fn position(&self) -> (p: ReadingPosition)
        ensures
            p == self.spec_position(),
    {
        ReadingPosition { block: self.block, byte: self.range.start }
    }

    /// A field-by-field copy.
    pub fn copy(&self) -> (r: LocatedRange)
        ensures
            r == *self,
    {
        LocatedRange { block: self.block, range: self.range.start..self.range.end }
    }
}

impl Clone for LocatedRange {
    fn clone(&self) -> (r: Self)
        ensures
            r == *self,
    {
        self.copy()
    }
}

/// A byte span in one source file, with the 1-based line and column of its start.
#[derive(Debug, Clone, PartialEq, Eq)]
pub struct Span {
    pub file: String,
    pub start: usize,
    pub end: usize,
    pub line: usize,
    pub column: usize,
}

impl Span {
    /// A field-by-field copy.
    pub fn copy(&self) -> (r: Span)
        ensures
            r == *self,
    {
        Span {
            file: self.file.clone(),
            start: self.start,
            end: self.end,
            line: self.line,
            column: self.column,
        }
    }
}

#[derive(Debug, Clone, PartialEq, Eq)]
pub struct SourceFile {
    pub path: String,
    pub text: String,
}

#[derive(Debug, Clone, PartialEq, Eq)]
pub struct TextSegment {
    pub text: String,
    pub span: Span,
}

/// A logical range of a block and the source bytes it was read from.
#[derive(Debug, PartialEq, Eq)]
pub struct SourceMapping {
    pub logical: Range<usize>,
    pub source: Span,
}

/// One paragraph-like unit of logical text with its source mappings.
#[derive(Debug, PartialEq, Eq)]
pub struct TextBlock {
    pub text: String,
    pub mappings: Vec<SourceMapping>,
}

} // verus!
