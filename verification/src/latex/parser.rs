//! The logical document read from a LaTeX project, and the way its logical
//! text maps back to the sources.
use super::span::{SourceFile, SourceMapping, Span, TextBlock};
use crate::text::unicode::{byte_len, byte_pos, chars_of, str_eq};
use std::ops::Range;
use vstd::prelude::*;

verus! {

/// Why a project could not be read.
#[derive(Debug, Clone, PartialEq, Eq)]
pub enum ParseError {
    /// The entry file could not be resolved.
    Entry { path: String, reason: String },
    /// A source file could not be read.
    Read { path: String, reason: String },
    /// The LaTeX grammar could not be loaded.
    Language { path: String, message: String },
    /// The parser produced no tree.
    TreeSitter { path: String },
    /// An include could not be resolved.
    Include { including_file: String, requested: String, reason: String },
    /// Files include each other in a loop.
    Cycle { cycle: String },
}

/// The text a parse error is shown with.
pub open spec fn parse_error_text(e: ParseError) -> Seq<char> {
    match e {
        ParseError::Entry { path, reason } => "failed to resolve entry "@ + path@ + ": "@ + reason@,
        ParseError::Read { path, reason } => "failed to read "@ + path@ + ": "@ + reason@,
        ParseError::Language { path, message } => "failed to configure tree-sitter LaTeX parser for "@ + path@
            + ": "@ + message@,
        ParseError::TreeSitter { path } => "tree-sitter parse failed for "@ + path@,
        ParseError::Include { including_file, requested, reason } => including_file@ + " includes "@
            + requested@ + ", which could not be resolved: "@ + reason@,
        ParseError::Cycle { cycle } => "include cycle detected: "@ + cycle@,
    }
}

impl ParseError {
    /// The error as it is shown to the user.
    pub fn message(&self) -> (m: String)
        ensures
            m@ == parse_error_text(*self),
    {
        match self {
            ParseError::Entry { path, reason } => {
                let mut m = "failed to resolve entry ".to_owned();
                m.append(path.as_str());
                m.append(": ");
                m.append(reason.as_str());
                m
            },
            ParseError::Read { path, reason } => {
                let mut m = "failed to read ".to_owned();
                m.append(path.as_str());
                m.append(": ");
                m.append(reason.as_str());
                m
            },
            ParseError::Language { path, message } => {
                let mut m = "failed to configure tree-sitter LaTeX parser for ".to_owned();
                m.append(path.as_str());
                m.append(": ");
                m.append(message.as_str());
                m
            },
            ParseError::TreeSitter { path } => {
                let mut m = "tree-sitter parse failed for ".to_owned();
                m.append(path.as_str());
                m
            },
            ParseError::Include { including_file, requested, reason } => {
                let mut m = including_file.clone();
                m.append(" includes ");
                m.append(requested.as_str());
                m.append(", which could not be resolved: ");
                m.append(reason.as_str());
                m
            },
            ParseError::Cycle { cycle } => {
                let mut m = "include cycle detected: ".to_owned();
                m.append(cycle.as_str());
                m
            },
        }
    }
}

/// Every source file and logical text block of a project, in reading order.
#[derive(Debug, PartialEq, Eq)]
pub struct Document {
    pub entry: String,
    pub root: String,
    pub sources: Vec<SourceFile>,
    pub blocks: Vec<TextBlock>,
}

/// The index of the first source with this path.
pub open spec fn source_index(sources: Seq<SourceFile>, path: Seq<char>) -> Option<int>
    decreases sources.len(),
{
    if sources.len() == 0 {
        None
    } else if sources[0].path@ == path {
        Some(0)
    } else {
        match source_index(sources.drop_first(), path) {
            Some(i) => Some(i + 1),
            None => None,
        }
    }
}

/// The mappings that overlap the logical range `lo..hi`, in order.
pub open spec fn overlapping_mappings(ms: Seq<SourceMapping>, lo: int, hi: int) -> Seq<SourceMapping>
    decreases ms.len(),
{
    if ms.len() == 0 {
        Seq::empty()
    } else {
        let m = ms.last();
        let prev = overlapping_mappings(ms.drop_last(), lo, hi);
        if m.logical.start < hi && lo < m.logical.end {
            prev.push(m)
        } else {
            prev
        }
    }
}

/// The source offset of a logical offset inside a mapping: exact when the
/// mapping copies text byte for byte, otherwise known only at its two ends.
pub open spec fn spec_map_boundary(m: SourceMapping, logical: int) -> Option<int> {
    let logical_len = m.logical.end - m.logical.start;
    let source_len = m.source.end - m.source.start;
    if logical_len < 0 || source_len < 0 {
        None
    } else if logical_len == source_len {
        if logical < m.logical.start || m.source.start + (logical - m.logical.start) > usize::MAX {
            None
        } else {
            Some(m.source.start + (logical - m.logical.start))
        }
    } else if logical == m.logical.start {
        Some(m.source.start as int)
    } else if logical == m.logical.end {
        Some(m.source.end as int)
    } else {
        None
    }
}

/// Maps a logical offset of a mapping to its source offset.
pub fn map_boundary(mapping: &SourceMapping, logical: usize) -> (r: Option<usize>)
    ensures
        match r {
            Some(b) => spec_map_boundary(*mapping, logical as int) == Some(b as int),
            None => spec_map_boundary(*mapping, logical as int) is None,
        },
{
    if mapping.logical.end < mapping.logical.start || mapping.source.end < mapping.source.start {
        return None;
    }
    let logical_len = mapping.logical.end - mapping.logical.start;
    let source_len = mapping.source.end - mapping.source.start;
    if logical_len == source_len {
        if logical < mapping.logical.start {
            return None;
        }
        return mapping.source.start.checked_add(logical - mapping.logical.start);
    }
    if logical == mapping.logical.start {
        Some(mapping.source.start)
    } else if logical == mapping.logical.end {
        Some(mapping.source.end)
    } else {
        None
    }
}

/// Line breaks among the characters.
pub open spec fn newlines(s: Seq<char>) -> nat
    decreases s.len(),
{
    if s.len() == 0 {
        0
    } else {
        newlines(s.drop_last()) + if s.last() == '\n' {
            1nat
        } else {
            0nat
        }
    }
}

/// The index just after the last line break before index `i`, or 0.
pub open spec fn line_start(s: Seq<char>, i: int) -> int
    decreases i,
{
    if i <= 0 {
        0
    } else if s[i - 1] == '\n' {
        i
    } else {
        line_start(s, i - 1)
    }
}

/// The 1-based line and column (in characters) of the character at index `i`.
pub open spec fn spec_line_column(s: Seq<char>, i: int) -> (int, int) {
    (newlines(s.take(i)) + 1int, i - line_start(s, i) + 1)
}

/// The 1-based line and column of the character at index `i`.
pub fn line_column(chars: &Vec<char>, i: usize) -> (r: (usize, usize))
    requires
        i <= chars.len(),
        i < usize::MAX,
    ensures
        r.0 == spec_line_column(chars@, i as int).0,
        r.1 == spec_line_column(chars@, i as int).1,
{
    let mut lines: usize = 1;
    let mut start: usize = 0;
    let mut k: usize = 0;
    assert(chars@.take(0) =~= Seq::<char>::empty());
    while k < i
        invariant
            k <= i <= chars.len(),
            i < usize::MAX,
            lines == newlines(chars@.take(k as int)) + 1,
            lines <= k + 1,
            start == line_start(chars@, k as int),
            start <= k,
        decreases i - k,
    {
        assert(chars@.take(k + 1).drop_last() =~= chars@.take(k as int));
        if chars[k] == '\n' {
            lines = lines + 1;
            start = k + 1;
        }
        k = k + 1;
    }
    (lines, i - start + 1)
}

/// The span of the source characters that a logical range of a block came
/// from, when every overlapping mapping lies in one file and the range's
/// ends map to character boundaries of that file.
pub open spec fn spec_source_span(doc: Document, block: TextBlock, lo: int, hi: int) -> Option<Span> {
    let ms = overlapping_mappings(block.mappings@, lo, hi);
    if lo >= hi || hi > byte_len(block.text@) || ms.len() == 0 {
        None
    } else if exists|k: int| 0 <= k < ms.len() && (#[trigger] ms[k]).source.file@ != ms[0].source.file@ {
        None
    } else {
        let first = ms[0];
        let last = ms.last();
        let a = if lo > first.logical.start { lo } else { first.logical.start as int };
        let b = if hi < last.logical.end { hi } else { last.logical.end as int };
        match (spec_map_boundary(first, a), spec_map_boundary(last, b), source_index(doc.sources@, first.source.file@)) {
            (Some(start), Some(end), Some(si)) => {
                let text = doc.sources@[si].text@;
                if start > end || end > byte_len(text) || !crate::lint::analysis::is_char_boundary(text, start)
                    || !crate::lint::analysis::is_char_boundary(text, end) {
                    None
                } else {
                    let i = crate::lint::analysis::char_index(text, start);
                    Some(Span {
                        file: doc.sources@[si].path,
                        start: start as usize,
                        end: end as usize,
                        line: spec_line_column(text, i).0 as usize,
                        column: spec_line_column(text, i).1 as usize,
                    })
                }
            },
            _ => None,
        }
    }
}

pub proof fn lemma_source_index(sources: Seq<SourceFile>, path: Seq<char>)
    ensures
        source_index(sources, path) matches Some(i) ==> 0 <= i < sources.len() && sources[i].path@ == path,
    decreases sources.len(),
{
    if sources.len() > 0 && sources[0].path@ != path {
        lemma_source_index(sources.drop_first(), path);
    }
}

impl Document {
    /// The source file with this path.
    pub fn source(&self, path: &str) -> (r: Option<&SourceFile>)
        ensures
            match r {
                Some(f) => source_index(self.sources@, path@) matches Some(i) && *f == self.sources@[i],
                None => source_index(self.sources@, path@) is None,
            },
    {
        let mut i: usize = 0;
        assert(self.sources@.skip(0) =~= self.sources@);
        while i < self.sources.len()
            invariant
                i <= self.sources@.len(),
                source_index(self.sources@, path@) == match source_index(self.sources@.skip(i as int), path@) {
                    Some(j) => Some(j + i),
                    None => None,
                },
            decreases self.sources@.len() - i,
        {
            assert(self.sources@.skip(i as int)[0] == self.sources@[i as int]);
            if str_eq(self.sources[i].path.as_str(), path) {
                return Some(&self.sources[i]);
            }
            assert(self.sources@.skip(i as int).drop_first() =~= self.sources@.skip(i + 1));
            i = i + 1;
        }
        assert(self.sources@.skip(i as int) =~= Seq::<SourceFile>::empty());
        None
    }

    /// Every source's length leaves room for one more byte offset.
    pub open spec fn sources_fit(&self) -> bool {
        forall|k: int| 0 <= k < self.sources@.len() ==> byte_len(#[trigger] self.sources@[k].text@) < usize::MAX
    }

    /// The source span of the logical range `logical` of `block`.
    pub fn source_span(&self, block: &TextBlock, logical: Range<usize>) -> (r: Option<Span>)
        requires
            self.sources_fit(),
        ensures
            r == spec_source_span(*self, *block, logical.start as int, logical.end as int),
    {
        let lo = logical.start;
        let hi = logical.end;
        let block_text = block.text.as_str();
        proof {
            crate::text::unicode::lemma_str_len(block_text);
        }
        if lo >= hi || hi > block_text.as_bytes().len() {
            return None;
        }
        let mut overlapping: Vec<&SourceMapping> = Vec::new();
        let ghost ms = block.mappings@;
        let mut k: usize = 0;
        assert(ms.take(0) =~= Seq::<SourceMapping>::empty());
        while k < block.mappings.len()
            invariant
                ms == block.mappings@,
                k <= ms.len(),
                overlapping@.len() == overlapping_mappings(ms.take(k as int), lo as int, hi as int).len(),
                forall|j: int| 0 <= j < overlapping@.len() ==> *(#[trigger] overlapping@[j]) == overlapping_mappings(ms.take(k as int), lo as int, hi as int)[j],
            decreases ms.len() - k,
        {
            assert(ms.take(k + 1).drop_last() =~= ms.take(k as int));
            let m = &block.mappings[k];
            if m.logical.start < hi && lo < m.logical.end {
                overlapping.push(m);
            }
            k = k + 1;
        }
        assert(ms.take(k as int) =~= ms);
        let ghost ov = overlapping_mappings(ms, lo as int, hi as int);
        if overlapping.len() == 0 {
            return None;
        }
        let first = overlapping[0];
        let last = overlapping[overlapping.len() - 1];
        let mut j: usize = 0;
        while j < overlapping.len()
            invariant
                j <= overlapping@.len(),
                lo == logical.start,
                hi == logical.end,
                lo < hi,
                hi <= byte_len(block.text@),
                ov == overlapping_mappings(block.mappings@, lo as int, hi as int),
                overlapping@.len() == ov.len(),
                forall|i: int| 0 <= i < overlapping@.len() ==> *(#[trigger] overlapping@[i]) == ov[i],
                *first == ov[0],
                forall|i: int| 0 <= i < j ==> (#[trigger] ov[i]).source.file@ == ov[0].source.file@,
            decreases overlapping@.len() - j,
        {
            if !str_eq(overlapping[j].source.file.as_str(), first.source.file.as_str()) {
                assert(ov[j as int].source.file@ != ov[0].source.file@);
                return None;
            }
            j = j + 1;
        }
        let a = if lo > first.logical.start { lo } else { first.logical.start };
        let b = if hi < last.logical.end { hi } else { last.logical.end };
        let start = match map_boundary(first, a) {
            Some(x) => x,
            None => return None,
        };
        let end = match map_boundary(last, b) {
            Some(x) => x,
            None => return None,
        };
        let source = match self.source(first.source.file.as_str()) {
            Some(f) => f,
            None => return None,
        };
        let source_text = source.text.as_str();
        let chars = chars_of(source_text);
        proof {
            crate::text::unicode::lemma_str_len(source_text);
        }
        if start > end || end > source_text.as_bytes().len() {
            return None;
        }
        let offsets = crate::text::unicode::byte_offsets(&chars);
        let si = crate::text::unicode::char_index_at(&offsets, start);
        let ei = crate::text::unicode::char_index_at(&offsets, end);
        match (si, ei) {
            (Some(i), Some(_)) => {
                proof {
                    let w = crate::lint::analysis::char_index(chars@, start as int);
                    crate::text::unicode::lemma_byte_pos_injective(chars@, i as int, w);
                    crate::text::unicode::lemma_byte_pos_mono(chars@, 0, i as int);
                    assert(chars@.take(0) =~= Seq::<char>::empty());
                    lemma_source_index(self.sources@, first.source.file@);
                    let si = source_index(self.sources@, first.source.file@)->0;
                    assert(byte_len(self.sources@[si].text@) < usize::MAX);
                }
                let (line, column) = line_column(&chars, i);
                Some(Span { file: source.path.clone(), start, end, line, column })
            },
            _ => {
                proof {
                    if si is None {
                        assert(!crate::lint::analysis::is_char_boundary(chars@, start as int));
                    } else {
                        assert(!crate::lint::analysis::is_char_boundary(chars@, end as int));
                    }
                }
                None
            },
        }
    }
}

} // verus!
