//! Sentence segmentation of logical text.
use super::unicode::{byte_pos, chars_of, byte_offsets, is_whitespace, string_of, lemma_byte_pos_mono, byte_len};
use crate::latex::span::Span;
use std::ops::Range;
use vstd::prelude::*;

verus! {

/// A sentence extracted from logical document text.
#[derive(Debug)]
pub struct Sentence {
    pub text: String,
    /// Exact half-open UTF-8 byte range in the logical text passed to the segmenter.
    pub range: Range<usize>,
    /// Compatibility span for callers segmenting source-backed text directly.
    pub span: Span,
}

/// Characters that end a sentence.
#[verifier::allow_in_spec]
pub fn is_sentence_boundary(c: char) -> bool
    returns
        c == '。' || c == '！' || c == '？' || c == '；' || c == '.' || c == '!' || c == '?' || c
            == ';',
{
    c == '。' || c == '！' || c == '？' || c == '；' || c == '.' || c == '!' || c == '?' || c == ';'
}

/// First index in `a..b` that is not whitespace (`b` when there is none).
pub open spec fn trim_lo(s: Seq<char>, a: int, b: int) -> int
    decreases b - a,
{
    if a >= b {
        b
    } else if !is_whitespace(s[a]) {
        a
    } else {
        trim_lo(s, a + 1, b)
    }
}

/// One past the last index in `a..b` that is not whitespace (`a` when there is none).
pub open spec fn trim_hi(s: Seq<char>, a: int, b: int) -> int
    decreases b - a,
{
    if b <= a {
        a
    } else if !is_whitespace(s[b - 1]) {
        b
    } else {
        trim_hi(s, a, b - 1)
    }
}

/// Start of the sentence still open after the first `n` characters.
pub open spec fn open_start(s: Seq<char>, n: int) -> int
    decreases n,
{
    if n <= 0 {
        0
    } else if is_sentence_boundary(s[n - 1]) {
        n
    } else {
        open_start(s, n - 1)
    }
}

/// Appends the trimmed range of `a..b` unless it is empty.
pub open spec fn add_trimmed(r: Seq<(int, int)>, s: Seq<char>, a: int, b: int) -> Seq<(int, int)> {
    let lo = trim_lo(s, a, b);
    let hi = trim_hi(s, a, b);
    if lo < hi {
        r.push((lo, hi))
    } else {
        r
    }
}

/// Trimmed character ranges of the sentences closed within the first `n` characters.
pub open spec fn closed_ranges(s: Seq<char>, n: int) -> Seq<(int, int)>
    decreases n,
{
    if n <= 0 {
        Seq::empty()
    } else if is_sentence_boundary(s[n - 1]) {
        add_trimmed(closed_ranges(s, n - 1), s, open_start(s, n - 1), n)
    } else {
        closed_ranges(s, n - 1)
    }
}

/// Character ranges of all sentences of `s`: each sentence runs up to and
/// including a boundary character (or to the end of text), trimmed of
/// whitespace, and empty sentences are dropped.
pub open spec fn sentence_ranges(s: Seq<char>) -> Seq<(int, int)> {
    add_trimmed(closed_ranges(s, s.len() as int), s, open_start(s, s.len() as int), s.len() as int)
}

/// `sentence` is the sentence of `s` with character range `r`, relative to `base`.
pub open spec fn is_sentence_of(sentence: Sentence, s: Seq<char>, r: (int, int), base: Span) -> bool {
    &&& sentence.text@ == s.subrange(r.0, r.1)
    &&& sentence.range.start == byte_pos(s, r.0)
    &&& sentence.range.end == byte_pos(s, r.1)
    &&& sentence.span.file == base.file
    &&& sentence.span.start == base.start + sentence.range.start
    &&& sentence.span.end == base.start + sentence.range.end
    &&& sentence.span.line == base.line
    &&& sentence.span.column == base.column
}

proof fn lemma_open_start_bounds(s: Seq<char>, n: int)
    ensures
        n >= 0 ==> 0 <= open_start(s, n) <= n,
    decreases n,
{
    if n > 0 && !is_sentence_boundary(s[n - 1]) {
        lemma_open_start_bounds(s, n - 1);
    }
}

proof fn lemma_closed_ranges_bounds(s: Seq<char>, n: int)
    requires
        n <= s.len(),
    ensures
        forall|k: int|
            0 <= k < closed_ranges(s, n).len() ==> 0 <= (#[trigger] closed_ranges(s, n)[k]).0 <= closed_ranges(
                s,
                n,
            )[k].1 <= n,
    decreases n,
{
    if n > 0 {
        lemma_closed_ranges_bounds(s, n - 1);
        let prev = closed_ranges(s, n - 1);
        let c = closed_ranges(s, n);
        if is_sentence_boundary(s[n - 1]) {
            lemma_open_start_bounds(s, n - 1);
            lemma_trim_bounds(s, open_start(s, n - 1), n);
        }
        assert forall|k: int| 0 <= k < c.len() implies 0 <= (#[trigger] c[k]).0 <= c[k].1 <= n by {
            if k < prev.len() {
                assert(c[k] == prev[k]);
            }
        }
    }
}

/// Every sentence range lies within the text, its start before its end.
pub proof fn lemma_sentence_ranges_bounds(s: Seq<char>)
    ensures
        forall|k: int|
            0 <= k < sentence_ranges(s).len() ==> 0 <= (#[trigger] sentence_ranges(s)[k]).0 <= sentence_ranges(
                s,
            )[k].1 <= s.len(),
{
    lemma_closed_ranges_bounds(s, s.len() as int);
    lemma_open_start_bounds(s, s.len() as int);
    lemma_trim_bounds(s, open_start(s, s.len() as int), s.len() as int);
}

proof fn lemma_trim_bounds(s: Seq<char>, a: int, b: int)
    requires
        a <= b,
    ensures
        a <= trim_lo(s, a, b) <= b,
        a <= trim_hi(s, a, b) <= b,
        trim_lo(s, a, b) < b ==> trim_lo(s, a, b) < trim_hi(s, a, b),
        trim_lo(s, a, b) < b ==> !is_whitespace(s[trim_lo(s, a, b)]),
    decreases b - a,
{
    if a < b {
        if is_whitespace(s[a]) {
            lemma_trim_bounds(s, a + 1, b);
            if trim_lo(s, a + 1, b) < b {
                lemma_trim_hi_at_least(s, a, b, trim_lo(s, a + 1, b));
            }
        } else {
            lemma_trim_hi_at_least(s, a, b, a);
        }
        lemma_trim_hi_range(s, a, b);
    }
}

proof fn lemma_trim_hi_range(s: Seq<char>, a: int, b: int)
    requires
        a <= b,
    ensures
        a <= trim_hi(s, a, b) <= b,
    decreases b - a,
{
    if a < b && is_whitespace(s[b - 1]) {
        lemma_trim_hi_range(s, a, b - 1);
    }
}

proof fn lemma_trim_hi_at_least(s: Seq<char>, a: int, b: int, k: int)
    requires
        a <= k < b,
        !is_whitespace(s[k]),
    ensures
        trim_hi(s, a, b) > k,
    decreases b - a,
{
    if is_whitespace(s[b - 1]) {
        lemma_trim_hi_at_least(s, a, b - 1, k);
    }
}

/// Pushes the trimmed sentence `chars[a..b]` unless it is empty.
fn push_sentence(
    sentences: &mut Vec<Sentence>,
    chars: &Vec<char>,
    offsets: &Vec<usize>,
    a: usize,
    b: usize,
    base_span: &Span,
)
    requires
        a <= b <= chars.len(),
        offsets.len() == chars.len() + 1,
        forall|i: int| 0 <= i <= chars.len() ==> offsets[i] == byte_pos(chars@, i),
        base_span.start + byte_len(chars@) <= usize::MAX,
        byte_pos(chars@, chars.len() as int) == byte_len(chars@),
    ensures
        final(sentences)@.len() == add_trimmed(Seq::empty(), chars@, a as int, b as int).len()
            + old(sentences)@.len(),
        forall|k: int| 0 <= k < old(sentences)@.len() ==> final(sentences)@[k] == old(sentences)@[k],
        add_trimmed(Seq::empty(), chars@, a as int, b as int).len() == 1 ==> is_sentence_of(
            final(sentences)@.last(),
            chars@,
            add_trimmed(Seq::empty(), chars@, a as int, b as int)[0],
            *base_span,
        ),
{
    let ghost s = chars@;
    let mut lo = a;
    while lo < b && is_whitespace(chars[lo])
        invariant
            a <= lo <= b <= chars.len(),
            s == chars@,
            trim_lo(s, lo as int, b as int) == trim_lo(s, a as int, b as int),
        decreases b - lo,
    {
        lo = lo + 1;
    }
    let mut hi = b;
    while hi > a && is_whitespace(chars[hi - 1])
        invariant
            a <= hi <= b <= chars.len(),
            s == chars@,
            trim_hi(s, a as int, hi as int) == trim_hi(s, a as int, b as int),
        decreases hi - a,
    {
        hi = hi - 1;
    }
    if lo < hi {
        proof {
            lemma_byte_pos_mono(s, lo as int, hi as int);
            lemma_byte_pos_mono(s, hi as int, s.len() as int);
        }
        let start = offsets[lo];
        let end = offsets[hi];
        sentences.push(
            Sentence {
                text: string_of(chars, lo, hi),
                span: Span {
                    file: base_span.file.clone(),
                    start: base_span.start + start,
                    end: base_span.start + end,
                    line: base_span.line,
                    column: base_span.column,
                },
                range: start..end,
            },
        );
    }
}

/// Segment text into Chinese and English sentences.
pub fn segment_sentences(text: &str, base_span: &Span) -> (sentences: Vec<Sentence>)
    requires
        base_span.start + byte_len(text@) <= usize::MAX,
    ensures
        sentences@.len() == sentence_ranges(text@).len(),
        forall|k: int|
            0 <= k < sentences@.len() ==> is_sentence_of(
                #[trigger] sentences@[k],
                text@,
                sentence_ranges(text@)[k],
                *base_span,
            ),
{
    let chars = chars_of(text);
    let offsets = byte_offsets(&chars);
    let ghost s = chars@;
    proof {
        assert(s.take(s.len() as int) =~= s);
    }
    let mut sentences: Vec<Sentence> = Vec::new();
    let mut current_start: usize = 0;
    let mut i: usize = 0;
    while i < chars.len()
        invariant
            s == chars@,
            s == text@,
            i <= chars.len(),
            current_start <= i,
            current_start == open_start(s, i as int),
            offsets.len() == chars.len() + 1,
            forall|j: int| 0 <= j <= chars.len() ==> offsets[j] == byte_pos(s, j),
            base_span.start + byte_len(s) <= usize::MAX,
            byte_pos(s, s.len() as int) == byte_len(s),
            sentences@.len() == closed_ranges(s, i as int).len(),
            forall|k: int|
                0 <= k < sentences@.len() ==> is_sentence_of(
                    #[trigger] sentences@[k],
                    s,
                    closed_ranges(s, i as int)[k],
                    *base_span,
                ),
        decreases chars.len() - i,
    {
        if is_sentence_boundary(chars[i]) {
            let ghost before = sentences@;
            push_sentence(&mut sentences, &chars, &offsets, current_start, i + 1, base_span);
            current_start = i + 1;
            proof {
                let r = closed_ranges(s, i as int);
                let t = add_trimmed(Seq::empty(), s, open_start(s, i as int), i + 1);
                assert(closed_ranges(s, i + 1) == add_trimmed(r, s, open_start(s, i as int), i + 1));
                assert forall|k: int| 0 <= k < sentences@.len() implies is_sentence_of(
                    #[trigger] sentences@[k],
                    s,
                    closed_ranges(s, i + 1)[k],
                    *base_span,
                ) by {
                    if k < before.len() {
                        assert(sentences@[k] == before[k]);
                    }
                }
            }
        }
        i = i + 1;
    }
    let ghost before = sentences@;
    push_sentence(&mut sentences, &chars, &offsets, current_start, chars.len(), base_span);
    proof {
        assert forall|k: int| 0 <= k < sentences@.len() implies is_sentence_of(
            #[trigger] sentences@[k],
            s,
            sentence_ranges(s)[k],
            *base_span,
        ) by {
            if k < before.len() {
                assert(sentences@[k] == before[k]);
            }
        }
    }
    sentences
}

/// A neutral base span for segmenting logical text before source-map conversion.
pub fn logical_base_span() -> (span: Span)
    ensures
        span.file@ == Seq::<char>::empty(),
        span.start == 0,
        span.end == 0,
        span.line == 1,
        span.column == 1,
{
    Span { file: String::new(), start: 0, end: 0, line: 1, column: 1 }
}

} // verus!
