//! Building logical text blocks from walk items, and the bookkeeping that
//! follows includes across files and refuses include cycles.
use super::parser::ParseError;
use super::span::{SourceMapping, Span, TextBlock};
use super::tree::{build_tree, latex_events, latex_syntax, spec_tree, views_of, SyntaxEvent, SyntaxFailure, SyntaxOutcome};
use super::walk::{walk, walk_node, ItemView, WalkInput, WalkItem};
use crate::text::lexicon::is_blank;
use crate::text::unicode::{byte_len, byte_offsets, byte_pos, chars_of, str_eq, string_of};
use vstd::prelude::*;

verus! {

/// ASCII whitespace as `u8::is_ascii_whitespace` has it.
#[verifier::allow_in_spec]
pub fn is_ascii_space(c: char) -> bool
    returns
        c == ' ' || c == '\t' || c == '\n' || c == '\u{C}' || c == '\r',
{
    c == ' ' || c == '\t' || c == '\n' || c == '\u{C}' || c == '\r'
}

/// Two line breaks, with only spaces and tabs between them, at or after
/// index `i`; `breaks` line breaks have been seen since the last other
/// character. A `\r\n` pair counts as one break.
pub open spec fn blank_line_from(s: Seq<char>, i: int, breaks: int) -> bool
    decreases s.len() - i,
{
    if i < 0 || i >= s.len() {
        false
    } else if s[i] == '\r' {
        let next = if i + 1 < s.len() && s[i + 1] == '\n' {
            i + 2
        } else {
            i + 1
        };
        breaks + 1 >= 2 || blank_line_from(s, next, breaks + 1)
    } else if s[i] == '\n' {
        breaks + 1 >= 2 || blank_line_from(s, i + 1, breaks + 1)
    } else if s[i] == ' ' || s[i] == '\t' {
        breaks >= 2 || blank_line_from(s, i + 1, breaks)
    } else {
        blank_line_from(s, i + 1, 0)
    }
}

/// Whether the whitespace holds a blank line, which ends a paragraph.
pub fn contains_blank_line(s: &Vec<char>, lo: usize, hi: usize) -> (r: bool)
    requires
        lo <= hi <= s.len(),
    ensures
        r == blank_line_from(s@.subrange(lo as int, hi as int), 0, 0),
{
    let ghost w = s@.subrange(lo as int, hi as int);
    let mut i = lo;
    let mut breaks: usize = 0;
    while i < hi
        invariant
            lo <= i <= hi <= s.len(),
            w == s@.subrange(lo as int, hi as int),
            breaks <= 1,
            blank_line_from(w, 0, 0) == blank_line_from(w, i - lo, breaks as int),
        decreases hi - i,
    {
        let c = s[i];
        assert(w[i - lo] == c);
        if c == '\r' {
            if breaks + 1 >= 2 {
                return true;
            }
            if i + 1 < hi && s[i + 1] == '\n' {
                assert(w[i + 1 - lo] == s@[i + 1]);
                i = i + 2;
            } else {
                i = i + 1;
            }
            breaks = breaks + 1;
        } else if c == '\n' {
            if breaks + 1 >= 2 {
                return true;
            }
            breaks = breaks + 1;
            i = i + 1;
        } else if c == ' ' || c == '\t' {
            i = i + 1;
        } else {
            breaks = 0;
            i = i + 1;
        }
    }
    false
}

/// A source file's characters with the byte offset of each boundary.
pub struct SourceText {
    pub chars: Vec<char>,
    pub offsets: Vec<usize>,
}

impl SourceText {
    pub open spec fn ready(&self) -> bool {
        &&& self.offsets@.len() == self.chars@.len() + 1
        &&& forall|k: int| 0 <= k <= self.chars@.len() ==> self.offsets@[k] == byte_pos(self.chars@, k)
    }

    /// The characters and boundaries of a text.
    pub fn new(text: &str) -> (r: Self)
        ensures
            r.ready(),
            r.chars@ == text@,
    {
        let chars = chars_of(text);
        let offsets = byte_offsets(&chars);
        SourceText { chars, offsets }
    }
}

/// The characters of source bytes `start..end`, when both are character boundaries.
pub open spec fn fragment(s: Seq<char>, start: int, end: int) -> Option<Seq<char>> {
    if start <= end && crate::lint::analysis::is_char_boundary(s, start)
        && crate::lint::analysis::is_char_boundary(s, end) {
        Some(
            s.subrange(
                crate::lint::analysis::char_index(s, start),
                crate::lint::analysis::char_index(s, end),
            ),
        )
    } else {
        None
    }
}

/// The logical text of one block under construction, with its mappings.
pub struct BlockBuilder {
    pub file: String,
    pub text: String,
    pub mappings: Vec<SourceMapping>,
}

/// The mapping of logical bytes `lo..hi` to source bytes `start..end` of a file.
pub open spec fn mapping_view(file: Seq<char>, lo: int, hi: int, start: usize, end: usize) -> (Seq<char>, usize, usize, usize, usize) {
    (file, lo as usize, hi as usize, start, end)
}

/// The parts of a mapping the builder sets.
pub open spec fn mapping_parts(m: SourceMapping) -> (Seq<char>, usize, usize, usize, usize) {
    (m.source.file@, m.logical.start, m.logical.end, m.source.start, m.source.end)
}

/// The mapping parts of each mapping.
pub open spec fn all_mapping_parts(ms: Seq<SourceMapping>) -> Seq<(Seq<char>, usize, usize, usize, usize)> {
    ms.map_values(|m: SourceMapping| mapping_parts(m))
}

/// The result of pushing source bytes `start..end` onto a block: the
/// fragment is appended and mapped, unless it is empty or does not fall on
/// character boundaries.
pub open spec fn pushed(
    text: Seq<char>,
    parts: Seq<(Seq<char>, usize, usize, usize, usize)>,
    file: Seq<char>,
    source: Seq<char>,
    start: usize,
    end: usize,
) -> (Seq<char>, Seq<(Seq<char>, usize, usize, usize, usize)>) {
    if start >= end {
        (text, parts)
    } else {
        match fragment(source, start as int, end as int) {
            Some(f) => (
                text + f,
                parts.push(mapping_view(file, byte_len(text) as int, byte_len(text + f) as int, start, end)),
            ),
            None => (text, parts),
        }
    }
}

/// The mappings tile the text: taken in order, each maps the next stretch
/// of the text (from its start to its end, with no gap and no overlap) to
/// bytes of `file` whose characters are that stretch.
pub open spec fn tiled(
    text: Seq<char>,
    parts: Seq<(Seq<char>, usize, usize, usize, usize)>,
    file: Seq<char>,
    source: Seq<char>,
) -> bool
    decreases parts.len(),
{
    if parts.len() == 0 {
        text.len() == 0
    } else {
        let m = parts.last();
        match fragment(source, m.3 as int, m.4 as int) {
            Some(f) => {
                let cut = text.len() - f.len();
                &&& 0 <= cut
                &&& text.subrange(cut, text.len() as int) == f
                &&& m.0 == file
                &&& m.1 == byte_len(text.subrange(0, cut))
                &&& m.2 == byte_len(text)
                &&& tiled(text.subrange(0, cut), parts.drop_last(), file, source)
            },
            None => false,
        }
    }
}

/// A finished block of a file: more than whitespace, with mappings that
/// tile its text.
pub open spec fn sound_block(b: TextBlock, file: Seq<char>, source: Seq<char>) -> bool {
    !is_blank(b.text@) && tiled(b.text@, all_mapping_parts(b.mappings@), file, source)
}

/// A fragment is no longer, in bytes, than its source.
proof fn lemma_fragment_len(source: Seq<char>, start: int, end: int)
    requires
        fragment(source, start, end) is Some,
    ensures
        byte_len(fragment(source, start, end)->0) <= byte_len(source),
{
    let ia = crate::lint::analysis::char_index(source, start);
    let ib = crate::lint::analysis::char_index(source, end);
    if ia > ib {
        crate::text::unicode::lemma_byte_pos_mono(source, ib, ia);
    }
    crate::text::unicode::lemma_byte_len_subrange(source, ia, ib);
    crate::text::unicode::lemma_byte_pos_le_len(source, ib);
}

/// Pushing source bytes keeps the mappings tiling the text.
proof fn lemma_pushed_tiled(
    text: Seq<char>,
    parts: Seq<(Seq<char>, usize, usize, usize, usize)>,
    file: Seq<char>,
    source: Seq<char>,
    start: usize,
    end: usize,
)
    requires
        tiled(text, parts, file, source),
        byte_len(text) + byte_len(source) <= usize::MAX,
    ensures
        tiled(pushed(text, parts, file, source, start, end).0, pushed(text, parts, file, source, start, end).1, file, source),
{
    if start < end {
        if let Some(f) = fragment(source, start as int, end as int) {
            lemma_fragment_len(source, start as int, end as int);
            crate::text::unicode::lemma_byte_len_concat(text, f);
            let t2 = text + f;
            let m = mapping_view(file, byte_len(text) as int, byte_len(t2) as int, start, end);
            let p2 = parts.push(m);
            assert(t2.subrange(0, text.len() as int) =~= text);
            assert(t2.subrange(text.len() as int, t2.len() as int) =~= f);
            assert(p2.drop_last() =~= parts);
            assert(p2.last() == m);
        }
    }
}

impl BlockBuilder {
    /// An empty block of a file.
    pub fn new(file: String) -> (b: Self)
        ensures
            b.file == file,
            b.text@ == Seq::<char>::empty(),
            b.mappings@ == Seq::<SourceMapping>::empty(),
            forall|source: Seq<char>| tiled(b.text@, all_mapping_parts(b.mappings@), b.file@, source),
    {
        let b = BlockBuilder { file, text: String::new(), mappings: Vec::new() };
        assert(all_mapping_parts(b.mappings@) =~= Seq::empty());
        b
    }

    /// Appends the source bytes `start..end` to the block's text, with their mapping.
    pub fn push(&mut self, source: &SourceText, start: usize, end: usize)
        requires
            source.ready(),
            byte_len(old(self).text@) + byte_len(source.chars@) <= usize::MAX,
        ensures
            final(self).file == old(self).file,
            (final(self).text@, all_mapping_parts(final(self).mappings@)) == pushed(
                old(self).text@,
                all_mapping_parts(old(self).mappings@),
                old(self).file@,
                source.chars@,
                start,
                end,
            ),
            tiled(old(self).text@, all_mapping_parts(old(self).mappings@), old(self).file@, source.chars@) ==> tiled(
                final(self).text@,
                all_mapping_parts(final(self).mappings@),
                final(self).file@,
                source.chars@,
            ),
    {
        proof {
            if tiled(self.text@, all_mapping_parts(self.mappings@), self.file@, source.chars@) {
                lemma_pushed_tiled(self.text@, all_mapping_parts(self.mappings@), self.file@, source.chars@, start, end);
            }
        }
        if start >= end {
            return;
        }
        let a = super::walk::boundary_index(&source.offsets, Ghost(source.chars@), start);
        let b = super::walk::boundary_index(&source.offsets, Ghost(source.chars@), end);
        match (a, b) {
            (Some(a), Some(b)) => {
                proof {
                    let s = source.chars@;
                    let wa = crate::lint::analysis::char_index(s, start as int);
                    let wb = crate::lint::analysis::char_index(s, end as int);
                    crate::text::unicode::lemma_byte_pos_injective(s, a as int, wa);
                    crate::text::unicode::lemma_byte_pos_injective(s, b as int, wb);
                    if a > b {
                        crate::text::unicode::lemma_byte_pos_mono(s, b as int, a as int);
                    }
                }
                let piece = string_of(&source.chars, a, b);
                let logical_start = byte_length(&self.text);
                proof {
                    crate::text::unicode::lemma_byte_len_concat(self.text@, piece@);
                    crate::text::unicode::lemma_byte_pos_le_len(source.chars@, b as int);
                    crate::text::unicode::lemma_byte_pos_mono(source.chars@, a as int, b as int);
                    assert(piece@ == source.chars@.subrange(a as int, b as int));
                    crate::text::unicode::lemma_byte_len_subrange(source.chars@, a as int, b as int);
                }
                let ghost before = all_mapping_parts(self.mappings@);
                self.text.append(piece.as_str());
                let logical_end = byte_length(&self.text);
                let mapping = SourceMapping {
                    logical: logical_start..logical_end,
                    source: Span { file: self.file.clone(), start, end, line: 0, column: 0 },
                };
                self.mappings.push(mapping);
                proof {
                    assert(all_mapping_parts(self.mappings@) =~= before.push(
                        mapping_view(self.file@, logical_start as int, logical_end as int, start, end),
                    ));
                }
            },
            _ => {},
        }
    }

    /// Whitespace between prose nodes: a blank line ends the block, other
    /// whitespace is kept; anything that is not ASCII whitespace is dropped.
    pub fn push_whitespace(&mut self, source: &SourceText, start: usize, end: usize, blocks: &mut Vec<TextBlock>)
        requires
            source.ready(),
            byte_len(old(self).text@) + byte_len(source.chars@) <= usize::MAX,
        ensures
            final(self).file == old(self).file,
            whitespace_outcome(
                old(self).text@,
                all_mapping_parts(old(self).mappings@),
                old(self).file@,
                source.chars@,
                start,
                end,
                old(blocks)@.len(),
            ) == (final(self).text@, all_mapping_parts(final(self).mappings@), final(blocks)@.len()),
            final(blocks)@.len() >= old(blocks)@.len(),
            forall|k: int| 0 <= k < old(blocks)@.len() ==> final(blocks)@[k] == old(blocks)@[k],
            final(blocks)@.len() > old(blocks)@.len() ==> final(blocks)@.last().text@ == old(self).text@
                && final(blocks)@.last().mappings@ == old(self).mappings@,
            tiled(old(self).text@, all_mapping_parts(old(self).mappings@), old(self).file@, source.chars@) ==> {
                &&& tiled(final(self).text@, all_mapping_parts(final(self).mappings@), final(self).file@, source.chars@)
                &&& forall|k: int|
                    old(blocks)@.len() <= k < final(blocks)@.len() ==> sound_block(
                        #[trigger] final(blocks)@[k],
                        old(self).file@,
                        source.chars@,
                    )
            },
    {
        if start >= end {
            return;
        }
        let a = super::walk::boundary_index(&source.offsets, Ghost(source.chars@), start);
        let b = super::walk::boundary_index(&source.offsets, Ghost(source.chars@), end);
        let (a, b) = match (a, b) {
            (Some(a), Some(b)) => (a, b),
            _ => return,
        };
        proof {
            let s = source.chars@;
            let wa = crate::lint::analysis::char_index(s, start as int);
            let wb = crate::lint::analysis::char_index(s, end as int);
            crate::text::unicode::lemma_byte_pos_injective(s, a as int, wa);
            crate::text::unicode::lemma_byte_pos_injective(s, b as int, wb);
            if a > b {
                crate::text::unicode::lemma_byte_pos_mono(s, b as int, a as int);
            }
        }
        let ghost w = source.chars@.subrange(a as int, b as int);
        assert(fragment(source.chars@, start as int, end as int) == Some(w));
        let mut k = a;
        while k < b
            invariant
                a <= k <= b <= source.chars@.len(),
                start < end,
                w == source.chars@.subrange(a as int, b as int),
                fragment(source.chars@, start as int, end as int) == Some(w),
                forall|j: int| 0 <= j < k - a ==> is_ascii_space(#[trigger] w[j]),
            decreases b - k,
        {
            if !is_ascii_space(source.chars[k]) {
                assert(w[k - a] == source.chars@[k as int]);
                return;
            }
            k = k + 1;
        }
        if contains_blank_line(&source.chars, a, b) {
            self.flush(blocks);
        } else {
            self.push(source, start, end);
        }
    }

    /// Ends the block: a block holding more than whitespace joins the list,
    /// and the builder starts over empty.
    pub fn flush(&mut self, blocks: &mut Vec<TextBlock>)
        ensures
            final(self).file == old(self).file,
            final(self).text@ == Seq::<char>::empty(),
            final(self).mappings@ == Seq::<SourceMapping>::empty(),
            final(blocks)@.len() == old(blocks)@.len() + if is_blank(old(self).text@) {
                0int
            } else {
                1int
            },
            forall|k: int| 0 <= k < old(blocks)@.len() ==> final(blocks)@[k] == old(blocks)@[k],
            !is_blank(old(self).text@) ==> final(blocks)@.last().text@ == old(self).text@
                && final(blocks)@.last().mappings@ == old(self).mappings@,
            forall|source: Seq<char>| tiled(final(self).text@, all_mapping_parts(final(self).mappings@), final(self).file@, source),
            forall|source: Seq<char>|
                tiled(old(self).text@, all_mapping_parts(old(self).mappings@), old(self).file@, source) ==> forall|k: int|
                    old(blocks)@.len() <= k < final(blocks)@.len() ==> sound_block(
                        #[trigger] final(blocks)@[k],
                        old(self).file@,
                        source,
                    ),
    {
        let mut text = String::new();
        let mut mappings: Vec<SourceMapping> = Vec::new();
        std::mem::swap(&mut text, &mut self.text);
        std::mem::swap(&mut mappings, &mut self.mappings);
        if !crate::text::lexicon::is_blank_text(text.as_str()) {
            blocks.push(TextBlock { text, mappings });
        }
        assert(all_mapping_parts(self.mappings@) =~= Seq::empty());
    }
}

/// Text, mappings and block count after a whitespace push.
pub open spec fn whitespace_outcome(
    text: Seq<char>,
    parts: Seq<(Seq<char>, usize, usize, usize, usize)>,
    file: Seq<char>,
    source: Seq<char>,
    start: usize,
    end: usize,
    blocks: nat,
) -> (Seq<char>, Seq<(Seq<char>, usize, usize, usize, usize)>, nat) {
    match fragment(source, start as int, end as int) {
        Some(w) => if start >= end || !(forall|j: int| 0 <= j < w.len() ==> is_ascii_space(#[trigger] w[j])) {
            (text, parts, blocks)
        } else if blank_line_from(w, 0, 0) {
            (Seq::empty(), Seq::empty(), if is_blank(text) { blocks } else { blocks + 1 })
        } else {
            (pushed(text, parts, file, source, start, end).0, pushed(text, parts, file, source, start, end).1, blocks)
        },
        None => (text, parts, blocks),
    }
}

/// The byte length of a string.
pub fn byte_length(s: &String) -> (n: usize)
    ensures
        n == byte_len(s@),
{
    let t = s.as_str();
    proof {
        crate::text::unicode::lemma_str_len(t);
    }
    t.as_bytes().len()
}

/// The walk items of a file whose tree the parser described by `events`:
/// `None` when the events form no tree.
pub open spec fn spec_items_of(events: Seq<super::tree::EventView>, text: Seq<char>, ignore: Seq<Seq<char>>) -> Option<Seq<ItemView>> {
    match spec_tree(events) {
        Some(ns) => if ns.len() > 0 {
            walk_node(ns, text, ignore, 0)
        } else {
            None
        },
        None => None,
    }
}

/// The walk items of a file, from the events of its syntax tree.
pub fn items_of_events(events: &Vec<SyntaxEvent>, text: &str, ignore: &[String]) -> (r: Option<Vec<WalkItem>>)
    ensures
        match r {
            Some(items) => spec_items_of(views_of(events@), text@, ignore@.map_values(|s: String| s@))
                == Some(crate::order::views(items@)),
            None => spec_items_of(views_of(events@), text@, ignore@.map_values(|s: String| s@)) is None,
        },
{
    let tree = match build_tree(events) {
        Some(t) => t,
        None => return None,
    };
    let chars = chars_of(text);
    let offsets = byte_offsets(&chars);
    let input = WalkInput { tree: &tree, chars, offsets, ignore };
    walk(&input, 0)
}

/// The walk items of a file: parsed with the LaTeX grammar, then walked
/// from the root. A grammar that cannot be loaded and a parse without a
/// tree are errors.
pub fn file_items(path: &str, text: &str, ignore: &[String]) -> (r: Result<Vec<WalkItem>, ParseError>)
    ensures
        match latex_syntax(text@) {
            SyntaxOutcome::Language(m) => r matches Err(ParseError::Language { path: p, message: msg })
                && p@ == path@ && msg@ == m,
            SyntaxOutcome::NoTree => r matches Err(ParseError::TreeSitter { path: p }) && p@ == path@,
            SyntaxOutcome::Parsed(events) => match spec_items_of(events, text@, ignore@.map_values(|s: String| s@)) {
                Some(items) => r matches Ok(v) && crate::order::views(v@) == items,
                None => r matches Err(ParseError::TreeSitter { path: p }) && p@ == path@,
            },
        },
{
    match latex_events(text) {
        Err(SyntaxFailure::Language(message)) => Err(ParseError::Language { path: path.to_owned(), message }),
        Err(SyntaxFailure::NoTree) => Err(ParseError::TreeSitter { path: path.to_owned() }),
        Ok(events) => match items_of_events(&events, text, ignore) {
            Some(items) => Ok(items),
            None => Err(ParseError::TreeSitter { path: path.to_owned() }),
        },
    }
}

/// Applies one walk item to the block under construction: text and
/// whitespace are pushed, a flush ends the block, an include hands back
/// the path it names for the caller to read, and an include that names no
/// path fails for the file, once the includes before it have been read.
pub fn apply_item(builder: &mut BlockBuilder, item: &WalkItem, source: &SourceText, blocks: &mut Vec<TextBlock>) -> (r: Result<Option<String>, ParseError>)
    requires
        source.ready(),
        byte_len(old(builder).text@) + byte_len(source.chars@) <= usize::MAX,
    ensures
        final(builder).file == old(builder).file,
        forall|k: int| 0 <= k < old(blocks)@.len() ==> final(blocks)@[k] == old(blocks)@[k],
        match item@ {
            ItemView::Text { start, end } => r == Ok::<Option<String>, ParseError>(None) && final(blocks)@ == old(blocks)@
                && (final(builder).text@, all_mapping_parts(final(builder).mappings@)) == pushed(
                    old(builder).text@,
                    all_mapping_parts(old(builder).mappings@),
                    old(builder).file@,
                    source.chars@,
                    start,
                    end,
                ),
            ItemView::Whitespace { start, end } => r == Ok::<Option<String>, ParseError>(None) && whitespace_outcome(
                old(builder).text@,
                all_mapping_parts(old(builder).mappings@),
                old(builder).file@,
                source.chars@,
                start,
                end,
                old(blocks)@.len(),
            ) == (final(builder).text@, all_mapping_parts(final(builder).mappings@), final(blocks)@.len())
                && (final(blocks)@.len() > old(blocks)@.len() ==> final(blocks)@.last().text@ == old(builder).text@
                && final(blocks)@.last().mappings@ == old(builder).mappings@),
            ItemView::Flush => r == Ok::<Option<String>, ParseError>(None) && final(builder).text@ == Seq::<char>::empty()
                && final(builder).mappings@ == Seq::<SourceMapping>::empty()
                && final(blocks)@.len() == old(blocks)@.len() + if is_blank(old(builder).text@) {
                0int
            } else {
                1int
            } && (!is_blank(old(builder).text@) ==> final(blocks)@.last().text@ == old(builder).text@
                && final(blocks)@.last().mappings@ == old(builder).mappings@),
            ItemView::Include { requested } => r matches Ok(Some(p)) && p@ == requested
                && *final(builder) == *old(builder) && final(blocks)@ == old(blocks)@,
            ItemView::UnnamedInclude => r == Err::<Option<String>, ParseError>(
                ParseError::TreeSitter { path: old(builder).file },
            ) && *final(builder) == *old(builder) && final(blocks)@ == old(blocks)@,
        },
        tiled(old(builder).text@, all_mapping_parts(old(builder).mappings@), old(builder).file@, source.chars@) ==> {
            &&& tiled(final(builder).text@, all_mapping_parts(final(builder).mappings@), final(builder).file@, source.chars@)
            &&& forall|k: int|
                old(blocks)@.len() <= k < final(blocks)@.len() ==> sound_block(
                    #[trigger] final(blocks)@[k],
                    old(builder).file@,
                    source.chars@,
                )
        },
{
    match item {
        WalkItem::Text { start, end } => {
            builder.push(source, *start, *end);
            Ok(None)
        },
        WalkItem::Whitespace { start, end } => {
            builder.push_whitespace(source, *start, *end, blocks);
            Ok(None)
        },
        WalkItem::Flush => {
            builder.flush(blocks);
            Ok(None)
        },
        WalkItem::Include { requested } => Ok(Some(requested.clone())),
        WalkItem::UnnamedInclude => Err(ParseError::TreeSitter { path: builder.file.clone() }),
    }
}

/// The paths joined by `sep`.
pub open spec fn joined(parts: Seq<Seq<char>>, sep: Seq<char>) -> Seq<char>
    decreases parts.len(),
{
    if parts.len() == 0 {
        Seq::empty()
    } else if parts.len() == 1 {
        parts[0]
    } else {
        joined(parts.drop_last(), sep) + sep + parts.last()
    }
}

/// Index of the first occurrence of `x` in `s`.
pub open spec fn first_index(s: Seq<Seq<char>>, x: Seq<char>) -> int
    decreases s.len(),
{
    if s.len() == 0 || s[0] == x {
        0
    } else {
        1 + first_index(s.drop_first(), x)
    }
}

/// The chain of files that forms a cycle: from the first file of the stack
/// that is `path`, down the stack, and `path` again.
pub open spec fn cycle_chain(stack: Seq<Seq<char>>, path: Seq<char>) -> Seq<char> {
    joined(stack.skip(first_index(stack, path)).push(path), " -> "@)
}

/// Nothing occurs twice.
pub open spec fn distinct(s: Seq<Seq<char>>) -> bool {
    forall|i: int, j: int| 0 <= i < j < s.len() ==> s[i] != s[j]
}

/// What to do with a file that an include (or the entry) names.
#[derive(Debug, PartialEq, Eq)]
pub enum LoadStep {
    /// The file was read before: nothing more to do.
    Loaded,
    /// The file is being read further up: the includes form a cycle, shown
    /// as the chain of paths.
    Cycle(String),
    /// Read the file now.
    Enter,
}

/// The files read so far and the chain of files being read, innermost last.
pub struct IncludeTracker {
    pub loaded: Vec<String>,
    pub stack: Vec<String>,
}

impl IncludeTracker {
    pub open spec fn loaded_view(&self) -> Seq<Seq<char>> {
        self.loaded@.map_values(|s: String| s@)
    }

    pub open spec fn stack_view(&self) -> Seq<Seq<char>> {
        self.stack@.map_values(|s: String| s@)
    }

    /// No file occurs twice among the files read and those on the chain, so
    /// each file that enters is read once.
    pub open spec fn well_formed(&self) -> bool {
        distinct(self.loaded_view() + self.stack_view())
    }

    /// Nothing read and nothing being read.
    pub fn new() -> (t: Self)
        ensures
            t.well_formed(),
            t.loaded_view() == Seq::<Seq<char>>::empty(),
            t.stack_view() == Seq::<Seq<char>>::empty(),
    {
        let t = IncludeTracker { loaded: Vec::new(), stack: Vec::new() };
        assert(t.stack_view() =~= Seq::<Seq<char>>::empty());
        assert(t.loaded_view() =~= Seq::<Seq<char>>::empty());
        t
    }

    /// Decides what to do with `path`: a file read before is skipped, a file
    /// on the chain closes a cycle, and any other file enters the chain.
    pub fn begin(&mut self, path: &str) -> (step: LoadStep)
        requires
            old(self).well_formed(),
        ensures
            final(self).well_formed(),
            final(self).loaded_view() == old(self).loaded_view(),
            old(self).loaded_view().contains(path@) ==> step == LoadStep::Loaded
                && final(self).stack_view() == old(self).stack_view(),
            !old(self).loaded_view().contains(path@) && old(self).stack_view().contains(path@) ==> (
            step matches LoadStep::Cycle(c) && c@ == cycle_chain(old(self).stack_view(), path@))
                && final(self).stack_view() == old(self).stack_view(),
            !old(self).loaded_view().contains(path@) && !old(self).stack_view().contains(path@) ==> step
                == LoadStep::Enter && final(self).stack_view() == old(self).stack_view().push(path@),
    {
        if contains_str(&self.loaded, path) {
            return LoadStep::Loaded;
        }
        if contains_str(&self.stack, path) {
            return LoadStep::Cycle(self.cycle_text(path));
        }
        let ghost before = self.stack_view();
        let ghost all = self.loaded_view() + before;
        self.stack.push(path.to_owned());
        proof {
            assert(self.stack_view() =~= before.push(path@));
            assert(self.loaded_view() + self.stack_view() =~= all.push(path@));
            assert forall|i: int| 0 <= i < all.len() implies all[i] != path@ by {
                if i < self.loaded_view().len() {
                    assert(self.loaded_view()[i] == all[i]);
                } else {
                    assert(before[i - self.loaded_view().len()] == all[i]);
                }
            }
        }
        LoadStep::Enter
    }

    /// The innermost file is done: it leaves the chain, and joins the files
    /// read when it was read without error.
    pub fn finish(&mut self, ok: bool)
        requires
            old(self).well_formed(),
        ensures
            final(self).well_formed(),
            final(self).stack_view() == if old(self).stack_view().len() > 0 {
                old(self).stack_view().drop_last()
            } else {
                old(self).stack_view()
            },
            final(self).loaded_view() == if ok && old(self).stack_view().len() > 0 {
                old(self).loaded_view().push(old(self).stack_view().last())
            } else {
                old(self).loaded_view()
            },
    {
        let ghost stack = self.stack_view();
        let ghost loaded = self.loaded_view();
        let ghost all = loaded + stack;
        match self.stack.pop() {
            Some(path) => {
                proof {
                    assert(self.stack_view() =~= stack.drop_last());
                    assert(loaded + stack.drop_last() =~= all.drop_last());
                }
                if ok {
                    self.loaded.push(path);
                    proof {
                        assert(self.loaded_view() =~= loaded.push(stack.last()));
                        assert(self.loaded_view() + self.stack_view() =~= all.drop_last().insert(
                            loaded.len() as int,
                            all.last(),
                        ));
                        let moved = self.loaded_view() + self.stack_view();
                        let n = loaded.len() as int;
                        assert forall|i: int, j: int| 0 <= i < j < moved.len() implies moved[i] != moved[j] by {
                            let oi = if i < n { i } else if i == n { all.len() - 1 } else { i - 1 };
                            let oj = if j < n { j } else if j == n { all.len() - 1 } else { j - 1 };
                            assert(moved[i] == all[oi]);
                            assert(moved[j] == all[oj]);
                            assert(oi != oj);
                        }
                    }
                }
            },
            None => {},
        }
    }

    fn cycle_text(&self, path: &str) -> (c: String)
        requires
            self.stack_view().contains(path@),
        ensures
            c@ == cycle_chain(self.stack_view(), path@),
    {
        let ghost st = self.stack_view();
        let mut start: usize = 0;
        assert(st.skip(0) =~= st);
        while start < self.stack.len() && !str_eq(self.stack[start].as_str(), path)
            invariant
                start <= self.stack@.len(),
                st == self.stack_view(),
                st.contains(path@),
                first_index(st, path@) == start + first_index(st.skip(start as int), path@),
            decreases self.stack@.len() - start,
        {
            assert(st.skip(start as int).drop_first() =~= st.skip(start + 1));
            start = start + 1;
        }
        proof {
            if start == self.stack.len() {
                let j = choose|j: int| 0 <= j < st.len() && st[j] == path@;
                lemma_first_index_bound(st, path@, j);
            }
            assert(st.skip(start as int)[0] == st[start as int]);
        }
        let mut c = String::new();
        let mut k = start;
        let ghost parts = st.skip(start as int).push(path@);
        while k < self.stack.len()
            invariant
                start <= k <= self.stack@.len(),
                st == self.stack_view(),
                start < st.len(),
                parts == st.skip(start as int).push(path@),
                c@ == joined(parts.take(k - start), " -> "@),
            decreases self.stack@.len() - k,
        {
            proof {
                assert(parts.take(k + 1 - start).drop_last() =~= parts.take(k - start));
                assert(parts.take(k + 1 - start).last() == st[k as int]);
                reveal_strlit(" -> ");
            }
            if k > start {
                c.append(" -> ");
            }
            c.append(self.stack[k].as_str());
            proof {
                if k == start {
                    assert(parts.take(1).len() == 1);
                    assert(c@ =~= joined(parts.take(1), " -> "@));
                } else {
                    assert(c@ =~= joined(parts.take(k + 1 - start), " -> "@));
                }
            }
            k = k + 1;
        }
        proof {
            reveal_strlit(" -> ");
            assert(parts.take(k - start + 1).drop_last() =~= parts.take(k - start));
            assert(parts.take(k - start + 1) =~= parts);
        }
        c.append(" -> ");
        c.append(path);
        c
    }
}

proof fn lemma_first_index_bound(s: Seq<Seq<char>>, x: Seq<char>, j: int)
    requires
        0 <= j < s.len(),
        s[j] == x,
    ensures
        0 <= first_index(s, x) <= j,
        s[first_index(s, x)] == x,
    decreases s.len(),
{
    if s[0] != x {
        lemma_first_index_bound(s.drop_first(), x, j - 1);
    }
}

/// Whether `s` holds a string equal to `x`.
fn contains_str(s: &Vec<String>, x: &str) -> (r: bool)
    ensures
        r == s@.map_values(|t: String| t@).contains(x@),
{
    let ghost m = s@.map_values(|t: String| t@);
    let mut i: usize = 0;
    while i < s.len()
        invariant
            i <= s@.len(),
            m == s@.map_values(|t: String| t@),
            forall|k: int| 0 <= k < i ==> m[k] != x@,
        decreases s@.len() - i,
    {
        if str_eq(s[i].as_str(), x) {
            assert(m[i as int] == x@);
            return true;
        }
        i = i + 1;
    }
    false
}

} // verus!
