//! Candidates recognized by their written shape.
use super::model::{RawTermOccurrence, RawView, ReadingOrder, TermCandidateEvidence};
use crate::order::{lemma_views_add, lemma_views_push, stable_sort, stable_sorted, views};
use super::text::{
    has_ascii_shape_chars, has_cjk_chars, has_punctuation_chars, id_runs, identifier_runs,
    shape_evidence, spec_has_ascii_shape, spec_has_cjk, spec_has_punctuation, spec_shape_evidence,
};
use crate::latex::span::LocatedRange;
use crate::lint::analysis::{char_index, DocumentAnalysis, SentenceUnit};
use crate::nlp::{PosTag, Token};
use crate::text::unicode::{
    byte_offsets, byte_pos, char_index_at, chars_of, is_alphanumeric, lemma_byte_pos_injective,
    lemma_byte_pos_le_len, lemma_byte_pos_mono, string_of, sub_chars, unicode_alphanumeric,
};
use std::ops::Range;
use vstd::prelude::*;

verus! {

/// No alphanumeric character precedes index `a`.
pub open spec fn spec_sentence_initial(s: Seq<char>, a: int) -> bool {
    forall|i: int| 0 <= i < a ==> !unicode_alphanumeric(#[trigger] s[i])
}

/// The occurrence of `text[a..b]` of a sentence, with the given evidence.
pub open spec fn sentence_view(
    sentence: SentenceUnit,
    a: int,
    b: int,
    evidence: Seq<TermCandidateEvidence>,
) -> RawView {
    RawView {
        surface: sentence.text@.subrange(a, b),
        location: LocatedRange {
            block: sentence.location.block,
            range: Range {
                start: (sentence.location.range.start + byte_pos(sentence.text@, a)) as usize,
                end: (sentence.location.range.start + byte_pos(sentence.text@, b)) as usize,
            },
        },
        evidence,
    }
}

/// Shape occurrences for the first `k` identifier runs.
pub open spec fn ascii_shape_views(sentence: SentenceUnit, k: int) -> Seq<RawView>
    decreases k,
{
    if k <= 0 {
        Seq::empty()
    } else {
        let prev = ascii_shape_views(sentence, k - 1);
        let s = sentence.text@;
        let run = id_runs(s)[k - 1];
        let ev = spec_shape_evidence(s.subrange(run.0, run.1), spec_sentence_initial(s, run.0));
        if ev.len() > 0 {
            prev.push(sentence_view(sentence, run.0, run.1, ev))
        } else {
            prev
        }
    }
}

/// Every identifier run of the sentence with shape evidence, in order.
pub open spec fn spec_ascii_shapes(sentence: SentenceUnit) -> Seq<RawView> {
    ascii_shape_views(sentence, id_runs(sentence.text@).len() as int)
}

fn is_sentence_initial_ascii_word(chars: &Vec<char>, start: usize) -> (r: bool)
    requires
        start <= chars.len(),
    ensures
        r == spec_sentence_initial(chars@, start as int),
{
    let mut i: usize = 0;
    while i < start
        invariant
            i <= start <= chars.len(),
            forall|k: int| 0 <= k < i ==> !unicode_alphanumeric(#[trigger] chars@[k]),
        decreases start - i,
    {
        if is_alphanumeric(chars[i]) {
            return false;
        }
        i = i + 1;
    }
    true
}

/// The occurrence of `chars[a..b]` of a sentence.
fn raw(
    sentence: &SentenceUnit,
    chars: &Vec<char>,
    offsets: &Vec<usize>,
    a: usize,
    b: usize,
    evidence: Vec<TermCandidateEvidence>,
) -> (r: RawTermOccurrence)
    requires
        chars@ == sentence.text@,
        sentence.fits(),
        a <= b <= chars.len(),
        offsets.len() == chars.len() + 1,
        forall|i: int| 0 <= i <= chars.len() ==> offsets[i] == byte_pos(chars@, i),
    ensures
        r@ == sentence_view(*sentence, a as int, b as int, evidence@),
{
    proof {
        lemma_byte_pos_mono(chars@, a as int, b as int);
        lemma_byte_pos_le_len(chars@, b as int);
    }
    RawTermOccurrence {
        surface: string_of(chars, a, b),
        location: LocatedRange {
            block: sentence.location.block,
            range: (sentence.location.range.start + offsets[a])..(sentence.location.range.start
                + offsets[b]),
        },
        evidence,
    }
}

/// Whole ASCII identifier runs of the sentence that carry shape evidence.
pub fn collect_ascii_shapes(sentence: &SentenceUnit) -> (occurrences: Vec<RawTermOccurrence>)
    requires
        sentence.fits(),
    ensures
        views(occurrences@) == spec_ascii_shapes(*sentence),
{
    let chars = chars_of(sentence.text.as_str());
    let offsets = byte_offsets(&chars);
    let runs = identifier_runs(&chars);
    let ghost s = chars@;
    let mut occurrences: Vec<RawTermOccurrence> = Vec::new();
    let mut k: usize = 0;
    while k < runs.len()
        invariant
            s == chars@,
            s == sentence.text@,
            sentence.fits(),
            k <= runs.len(),
            offsets.len() == chars.len() + 1,
            forall|i: int| 0 <= i <= chars.len() ==> offsets[i] == byte_pos(s, i),
            runs@.len() == id_runs(s).len(),
            forall|j: int|
                0 <= j < runs@.len() ==> (#[trigger] runs@[j]).0 == id_runs(s)[j].0 && runs@[j].1
                    == id_runs(s)[j].1,
            forall|j: int| 0 <= j < runs@.len() ==> (#[trigger] runs@[j]).0 < runs@[j].1 <= chars.len(),
            views(occurrences@) == ascii_shape_views(*sentence, k as int),
        decreases runs.len() - k,
    {
        let (lo, hi) = runs[k];
        let initial = is_sentence_initial_ascii_word(&chars, lo);
        let evidence = shape_evidence(&chars, lo, hi, initial);
        if evidence.len() > 0 {
            let occurrence = raw(sentence, &chars, &offsets, lo, hi, evidence);
            proof {
                lemma_views_push(occurrences@, occurrence);
            }
            occurrences.push(occurrence);
        }
        k = k + 1;
    }
    occurrences
}

/// Byte offset of absolute position `b` inside the sentence text.
pub open spec fn rel(sentence: SentenceUnit, b: usize) -> int {
    b - sentence.location.range.start
}

/// Characters covered by tokens `st..=en`.
pub open spec fn window_chars(sentence: SentenceUnit, st: int, en: int) -> Seq<char> {
    let s = sentence.text@;
    s.subrange(
        char_index(s, rel(sentence, sentence.tokens@[st].location.range.start)),
        char_index(s, rel(sentence, sentence.tokens@[en].location.range.end)),
    )
}

/// Token `k` ends where token `k + 1` starts.
pub open spec fn adjacent(t: Seq<Token>, k: int) -> bool {
    t[k].location.range.end == t[k + 1].location.range.start
}

/// Tokens `st..=en` are neither punctuation nor separated by gaps, and their
/// text holds no punctuation.
pub open spec fn window_valid(sentence: SentenceUnit, st: int, en: int) -> bool {
    let t = sentence.tokens@;
    &&& forall|k: int| st <= k <= en ==> (#[trigger] t[k]).pos != PosTag::Punctuation
    &&& forall|k: int| st <= k < en ==> #[trigger] adjacent(t, k)
    &&& !spec_has_punctuation(window_chars(sentence, st, en))
}

/// Every window from `st` ending at or before `en` is valid.
pub open spec fn windows_valid_through(sentence: SentenceUnit, st: int, en: int) -> bool {
    forall|k: int| st <= k <= en ==> #[trigger] window_valid(sentence, st, k)
}

/// The window's text has a CJK character and a shaped ASCII word.
pub open spec fn mixed_hit(sentence: SentenceUnit, st: int, en: int) -> bool {
    spec_has_cjk(window_chars(sentence, st, en)) && spec_has_ascii_shape(
        window_chars(sentence, st, en),
    )
}

/// The mixed-script occurrence of tokens `st..=en`.
pub open spec fn mixed_view(sentence: SentenceUnit, st: int, en: int) -> RawView {
    RawView {
        surface: window_chars(sentence, st, en),
        location: LocatedRange {
            block: sentence.location.block,
            range: Range {
                start: sentence.tokens@[st].location.range.start,
                end: sentence.tokens@[en].location.range.end,
            },
        },
        evidence: seq![TermCandidateEvidence::MixedScript],
    }
}

/// Mixed-script windows starting at token `st` and ending before token `e`,
/// stopping at the first invalid window.
pub open spec fn mixed_for_start(sentence: SentenceUnit, st: int, e: int) -> Seq<RawView>
    decreases e - st,
{
    if e <= st {
        Seq::empty()
    } else {
        let prev = mixed_for_start(sentence, st, e - 1);
        if windows_valid_through(sentence, st, e - 1) && mixed_hit(sentence, st, e - 1) {
            prev.push(mixed_view(sentence, st, e - 1))
        } else {
            prev
        }
    }
}

/// Windows span at most six tokens.
pub open spec fn window_limit(sentence: SentenceUnit, st: int) -> int {
    if sentence.tokens@.len() - st < 6 {
        sentence.tokens@.len() as int
    } else {
        st + 6
    }
}

/// Mixed-script occurrences of windows starting before token `st`.
pub open spec fn mixed_upto(sentence: SentenceUnit, st: int) -> Seq<RawView>
    decreases st,
{
    if st <= 0 {
        Seq::empty()
    } else {
        mixed_upto(sentence, st - 1) + mixed_for_start(
            sentence,
            st - 1,
            window_limit(sentence, st - 1),
        )
    }
}

/// Contiguous runs of up to six tokens whose text mixes CJK with a shaped ASCII word.
pub open spec fn spec_mixed_script(sentence: SentenceUnit) -> Seq<RawView> {
    mixed_upto(sentence, sentence.tokens@.len() as int)
}

proof fn lemma_mixed_stops(sentence: SentenceUnit, st: int, en: int, e: int)
    requires
        st <= en < e,
        !window_valid(sentence, st, en),
    ensures
        mixed_for_start(sentence, st, e) == mixed_for_start(sentence, st, en),
    decreases e - en,
{
    if e - 1 > en {
        lemma_mixed_stops(sentence, st, en, e - 1);
    }
    assert(!windows_valid_through(sentence, st, e - 1));
}

/// Character index of the boundary at absolute position `b`.
fn boundary_index(sentence: &SentenceUnit, offsets: &Vec<usize>, b: usize) -> (i: usize)
    requires
        offsets.len() == sentence.text@.len() + 1,
        forall|k: int| 0 <= k <= sentence.text@.len() ==> offsets[k] == byte_pos(sentence.text@, k),
        sentence.location.range.start <= b,
        crate::lint::analysis::is_char_boundary(sentence.text@, rel(*sentence, b)),
    ensures
        i <= sentence.text@.len(),
        i == char_index(sentence.text@, rel(*sentence, b)),
        byte_pos(sentence.text@, i as int) == rel(*sentence, b),
{
    let target = b - sentence.location.range.start;
    let found = char_index_at(offsets, target);
    proof {
        let s = sentence.text@;
        let w = char_index(s, rel(*sentence, b));
        assert(offsets[w] == target);
    }
    let i = found.unwrap();
    proof {
        let s = sentence.text@;
        let w = char_index(s, rel(*sentence, b));
        lemma_byte_pos_injective(s, i as int, w);
    }
    i
}

/// No token of `st..=en` is punctuation, and each ends where the next starts.
fn tokens_joined(sentence: &SentenceUnit, st: usize, en: usize) -> (r: bool)
    requires
        st <= en < sentence.tokens@.len(),
    ensures
        r == ((forall|k: int| st <= k <= en ==> (#[trigger] sentence.tokens@[k]).pos != PosTag::Punctuation)
            && (forall|k: int| st <= k < en ==> #[trigger] adjacent(sentence.tokens@, k))),
{
    let ghost t = sentence.tokens@;
    let mut k = st;
    while k <= en
        invariant
            st <= k <= en + 1,
            en < sentence.tokens.len(),
            t == sentence.tokens@,
            forall|j: int| st <= j < k ==> (#[trigger] t[j]).pos != PosTag::Punctuation,
        decreases en + 1 - k,
    {
        if sentence.tokens[k].pos == PosTag::Punctuation {
            return false;
        }
        k = k + 1;
    }
    let mut k = st;
    while k < en
        invariant
            st <= k <= en,
            en < sentence.tokens.len(),
            t == sentence.tokens@,
            forall|j: int| st <= j < k ==> #[trigger] adjacent(t, j),
        decreases en - k,
    {
        if sentence.tokens[k].location.range.end != sentence.tokens[k + 1].location.range.start {
            assert(!adjacent(t, k as int));
            return false;
        }
        k = k + 1;
    }
    true
}

/// Joined tokens that lie inside the sentence cover an ordered span.
proof fn lemma_joined_ordered(sentence: SentenceUnit, st: int, en: int)
    requires
        0 <= st <= en < sentence.tokens@.len(),
        sentence.tokens_fit(),
        forall|k: int| st <= k <= en ==> (#[trigger] sentence.tokens@[k]).pos != PosTag::Punctuation,
        forall|k: int| st <= k < en ==> #[trigger] adjacent(sentence.tokens@, k),
    ensures
        sentence.tokens@[st].location.range.start <= sentence.tokens@[en].location.range.end,
        sentence.holds_token(sentence.tokens@[st]),
        sentence.holds_token(sentence.tokens@[en]),
    decreases en - st,
{
    let t = sentence.tokens@;
    assert(t[st].pos != PosTag::Punctuation);
    assert(t[en].pos != PosTag::Punctuation);
    if st < en {
        lemma_joined_ordered(sentence, st + 1, en);
        assert(adjacent(t, st));
        assert(sentence.holds_token(t[st]));
    }
}

/// Character span `lo..hi` of tokens `st..=en`, when those tokens are joined.
fn window_span(sentence: &SentenceUnit, offsets: &Vec<usize>, st: usize, en: usize) -> (span: (
    usize,
    usize,
))
    requires
        sentence.tokens_fit(),
        st <= en < sentence.tokens@.len(),
        forall|k: int| st <= k <= en ==> (#[trigger] sentence.tokens@[k]).pos != PosTag::Punctuation,
        forall|k: int| st <= k < en ==> #[trigger] adjacent(sentence.tokens@, k),
        offsets.len() == sentence.text@.len() + 1,
        forall|k: int| 0 <= k <= sentence.text@.len() ==> offsets[k] == byte_pos(sentence.text@, k),
    ensures
        span.0 <= span.1 <= sentence.text@.len(),
        sentence.text@.subrange(span.0 as int, span.1 as int) == window_chars(*sentence, st as int, en as int),
{
    proof {
        lemma_joined_ordered(*sentence, st as int, en as int);
    }
    let lo = boundary_index(sentence, offsets, sentence.tokens[st].location.range.start);
    let hi = boundary_index(sentence, offsets, sentence.tokens[en].location.range.end);
    proof {
        if lo > hi {
            lemma_byte_pos_mono(sentence.text@, hi as int, lo as int);
        }
    }
    (lo, hi)
}

/// Whether tokens `st..=en` form a valid mixed-script window.
fn is_valid_mixed_window(
    sentence: &SentenceUnit,
    chars: &Vec<char>,
    offsets: &Vec<usize>,
    st: usize,
    en: usize,
) -> (r: bool)
    requires
        chars@ == sentence.text@,
        sentence.tokens_fit(),
        st <= en < sentence.tokens@.len(),
        offsets.len() == chars.len() + 1,
        forall|k: int| 0 <= k <= chars.len() ==> offsets[k] == byte_pos(chars@, k),
    ensures
        r == window_valid(*sentence, st as int, en as int),
{
    if !tokens_joined(sentence, st, en) {
        return false;
    }
    let (lo, hi) = window_span(sentence, offsets, st, en);
    !has_punctuation_chars(chars, lo, hi)
}

/// Mixed-script windows that start at token `st`.
fn mixed_windows_at(
    sentence: &SentenceUnit,
    chars: &Vec<char>,
    offsets: &Vec<usize>,
    st: usize,
) -> (r: Vec<RawTermOccurrence>)
    requires
        chars@ == sentence.text@,
        sentence.tokens_fit(),
        st < sentence.tokens@.len(),
        offsets.len() == chars.len() + 1,
        forall|k: int| 0 <= k <= chars.len() ==> offsets[k] == byte_pos(chars@, k),
    ensures
        views(r@) == mixed_for_start(*sentence, st as int, window_limit(*sentence, st as int)),
{
    let n = sentence.tokens.len();
    let limit = if n - st < 6 { n } else { st + 6 };
    let mut r: Vec<RawTermOccurrence> = Vec::new();
    let mut en = st;
    while en < limit
        invariant
            chars@ == sentence.text@,
            sentence.tokens_fit(),
            n == sentence.tokens@.len(),
            limit == window_limit(*sentence, st as int),
            st <= en <= limit <= n,
            offsets.len() == chars.len() + 1,
            forall|k: int| 0 <= k <= chars.len() ==> offsets[k] == byte_pos(chars@, k),
            windows_valid_through(*sentence, st as int, en - 1),
            views(r@) == mixed_for_start(*sentence, st as int, en as int),
        ensures
            views(r@) == mixed_for_start(*sentence, st as int, limit as int),
        decreases limit - en,
    {
        if !is_valid_mixed_window(sentence, chars, offsets, st, en) {
            proof {
                lemma_mixed_stops(*sentence, st as int, en as int, limit as int);
            }
            break;
        }
        proof {
            assert forall|k: int| st <= k <= en implies #[trigger] window_valid(*sentence, st as int, k) by {
                if k < en {
                    assert(windows_valid_through(*sentence, st as int, en - 1));
                }
            }
        }
        let (lo, hi) = window_span(sentence, offsets, st, en);
        let window = sub_chars(chars, lo, hi);
        if has_cjk_chars(chars, lo, hi) && has_ascii_shape_chars(&window) {
            let occurrence = RawTermOccurrence {
                surface: string_of(chars, lo, hi),
                location: LocatedRange {
                    block: sentence.location.block,
                    range: sentence.tokens[st].location.range.start..sentence.tokens[en].location.range.end,
                },
                evidence: vec![TermCandidateEvidence::MixedScript],
            };
            proof {
                assert(occurrence.evidence@ =~= seq![TermCandidateEvidence::MixedScript]);
                assert(occurrence@ =~= mixed_view(*sentence, st as int, en as int));
                lemma_views_push(r@, occurrence);
            }
            r.push(occurrence);
        }
        en = en + 1;
    }
    r
}

/// Mixed-script windows of the sentence's tokens.
pub fn collect_mixed_script(sentence: &SentenceUnit) -> (occurrences: Vec<RawTermOccurrence>)
    requires
        sentence.tokens_fit(),
    ensures
        views(occurrences@) == spec_mixed_script(*sentence),
{
    let chars = chars_of(sentence.text.as_str());
    let offsets = byte_offsets(&chars);
    let n = sentence.tokens.len();
    let mut occurrences: Vec<RawTermOccurrence> = Vec::new();
    let mut st: usize = 0;
    while st < n
        invariant
            chars@ == sentence.text@,
            sentence.tokens_fit(),
            n == sentence.tokens@.len(),
            st <= n,
            offsets.len() == chars.len() + 1,
            forall|i: int| 0 <= i <= chars.len() ==> offsets[i] == byte_pos(chars@, i),
            views(occurrences@) == mixed_upto(*sentence, st as int),
        decreases n - st,
    {
        let mut found = mixed_windows_at(sentence, &chars, &offsets, st);
        proof {
            lemma_views_add(occurrences@, found@);
        }
        occurrences.append(&mut found);
        st = st + 1;
    }
    occurrences
}

/// Shape and mixed-script occurrences of one sentence.
pub open spec fn sentence_shapes(sentence: SentenceUnit) -> Seq<RawView> {
    spec_ascii_shapes(sentence) + spec_mixed_script(sentence)
}

/// Shape occurrences of the sentences, sentence by sentence.
pub open spec fn shapes_of(sentences: Seq<SentenceUnit>) -> Seq<RawView>
    decreases sentences.len(),
{
    if sentences.len() == 0 {
        Seq::empty()
    } else {
        shapes_of(sentences.drop_last()) + sentence_shapes(sentences.last())
    }
}

/// Every shape and mixed-script occurrence of the document, in reading order
/// (position, then surface).
pub fn collect(analysis: &DocumentAnalysis) -> (occurrences: Vec<RawTermOccurrence>)
    requires
        analysis.well_formed(),
    ensures
        views(occurrences@) == stable_sorted::<RawTermOccurrence, ReadingOrder>(
            shapes_of(analysis.spec_sentences()),
        ),
{
    let sentences = analysis.sentence_list();
    let ghost ss = analysis.spec_sentences();
    let mut occurrences: Vec<RawTermOccurrence> = Vec::new();
    let mut k: usize = 0;
    assert(ss.take(0) =~= Seq::<SentenceUnit>::empty());
    while k < sentences.len()
        invariant
            analysis.well_formed(),
            ss == analysis.spec_sentences(),
            sentences@.len() == ss.len(),
            forall|i: int| 0 <= i < sentences@.len() ==> *(#[trigger] sentences@[i]) == ss[i],
            k <= sentences@.len(),
            views(occurrences@) == shapes_of(ss.take(k as int)),
        decreases sentences@.len() - k,
    {
        let sentence = sentences[k];
        assert(ss[k as int].fits() && ss[k as int].tokens_fit());
        let mut ascii = collect_ascii_shapes(sentence);
        let mut mixed = collect_mixed_script(sentence);
        proof {
            lemma_views_add(occurrences@, ascii@);
            lemma_views_add(occurrences@ + ascii@, mixed@);
            assert(ss.take(k + 1).drop_last() =~= ss.take(k as int));
        }
        occurrences.append(&mut ascii);
        occurrences.append(&mut mixed);
        k = k + 1;
    }
    assert(ss.take(k as int) =~= ss);
    stable_sort::<RawTermOccurrence, ReadingOrder>(occurrences)
}

} // verus!
