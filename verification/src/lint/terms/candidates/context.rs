//! Candidates introduced by their context: quoted or parenthesized emphasis,
//! and explicit definitions such as `所谓 X` or `X refers to`.
use super::context_index::{
    occurs, occurs_at, spec_end_after, spec_start_before, spec_token_count, spec_trimmed,
    BoundaryCursor, DefinitionIndex, ForwardCursor, boundary_positions, predicate_positions,
};
use super::model::{PositionOrder, RawTermOccurrence, RawView, TermCandidateEvidence};
use super::text::{is_context_boundary, is_context_punctuation_or_space, is_context_term_char};
use crate::latex::span::LocatedRange;
use crate::lint::analysis::{DocumentAnalysis, SentenceUnit};
use crate::nlp::Token;
use crate::order::{lemma_views_add, lemma_views_push, stable_sort, stable_sorted, views};
use crate::text::unicode::{
    byte_len, byte_offsets, byte_pos, chars_of, is_alphanumeric, is_whitespace,
    lemma_byte_pos_le_len, lemma_byte_pos_mono, string_of, unicode_alphanumeric,
};
use std::ops::Range;
use vstd::prelude::*;

verus! {

/// Longest context surface, in characters.
pub const MAX_CONTEXT_CHARS: usize = 48;

/// Most tokens a context surface may overlap.
pub const MAX_CONTEXT_TOKENS: usize = 6;

/// The quote and parenthesis pairs that mark emphasis, in scanning order.
pub open spec fn delimiter_pair(k: int) -> (char, char) {
    if k == 0 {
        ('\u{201C}', '\u{201D}')
    } else if k == 1 {
        ('\u{2018}', '\u{2019}')
    } else if k == 2 {
        ('"', '"')
    } else if k == 3 {
        ('\'', '\'')
    } else if k == 4 {
        ('\u{FF08}', '\u{FF09}')
    } else {
        ('(', ')')
    }
}

fn delimiter_pair_at(k: usize) -> (r: (char, char))
    ensures
        r == delimiter_pair(k as int),
{
    if k == 0 {
        ('\u{201C}', '\u{201D}')
    } else if k == 1 {
        ('\u{2018}', '\u{2019}')
    } else if k == 2 {
        ('"', '"')
    } else if k == 3 {
        ('\'', '\'')
    } else if k == 4 {
        ('\u{FF08}', '\u{FF09}')
    } else {
        ('(', ')')
    }
}

/// One of the delimiter characters.
#[verifier::allow_in_spec]
pub fn is_delimiter(c: char) -> bool
    returns
        c == '\u{201C}' || c == '\u{201D}' || c == '\u{2018}' || c == '\u{2019}' || c == '"' || c
            == '\'' || c == '\u{FF08}' || c == '\u{FF09}' || c == '(' || c == ')',
{
    c == '\u{201C}' || c == '\u{201D}' || c == '\u{2018}' || c == '\u{2019}' || c == '"' || c
        == '\'' || c == '\u{FF08}' || c == '\u{FF09}' || c == '(' || c == ')'
}

/// A `'` between two alphanumeric characters, as in `isn't`.
pub open spec fn is_apostrophe_at(s: Seq<char>, i: int) -> bool {
    0 < i && i + 1 < s.len() && unicode_alphanumeric(s[i - 1]) && unicode_alphanumeric(s[i + 1])
}

/// Index `i` holds delimiter `d` (an apostrophe is no quote).
pub open spec fn delimiter_at(s: Seq<char>, i: int, d: char) -> bool {
    s[i] == d && (d != '\'' || !is_apostrophe_at(s, i))
}

/// The first index at or after `start` holding delimiter `d`.
pub open spec fn find_delimiter(s: Seq<char>, d: char, start: int) -> Option<int>
    decreases s.len() - start,
{
    if start < 0 || start >= s.len() {
        None
    } else if delimiter_at(s, start, d) {
        Some(start)
    } else {
        find_delimiter(s, d, start + 1)
    }
}

pub proof fn lemma_find_delimiter(s: Seq<char>, d: char, start: int)
    ensures
        find_delimiter(s, d, start) matches Some(i) ==> start <= i < s.len() && 0 <= i
            && delimiter_at(s, i, d),
        find_delimiter(s, d, start) is None ==> forall|i: int|
            0 <= start <= i < s.len() ==> !#[trigger] delimiter_at(s, i, d),
    decreases s.len() - start,
{
    if 0 <= start < s.len() && !delimiter_at(s, start, d) {
        lemma_find_delimiter(s, d, start + 1);
    }
}

/// The contents between each opening delimiter and the next closing one,
/// scanning on after each close, as character ranges.
pub open spec fn delimited_spans(s: Seq<char>, open: char, close: char, start: int) -> Seq<(int, int)>
    decreases s.len() - start,
{
    if start < 0 || start >= s.len() {
        Seq::empty()
    } else {
        match find_delimiter(s, open, start) {
            None => Seq::empty(),
            Some(i) => match find_delimiter(s, close, i + 1) {
                None => Seq::empty(),
                Some(j) => {
                    proof {
                        lemma_find_delimiter(s, open, start);
                        lemma_find_delimiter(s, close, i + 1);
                    }
                    seq![(i + 1, j)] + delimited_spans(s, open, close, j + 1)
                },
            },
        }
    }
}

/// Tokens of the list that overlap the absolute byte range `lo..hi`.
pub open spec fn overlapping(ts: Seq<Token>, lo: int, hi: int) -> nat
    decreases ts.len(),
{
    if ts.len() == 0 {
        0
    } else {
        overlapping(ts.drop_last(), lo, hi) + if ts.last().location.range.start < hi
            && ts.last().location.range.end > lo {
            1nat
        } else {
            0nat
        }
    }
}

/// A surface fit to be a term: at most 48 characters, not only punctuation
/// and space, free of delimiters, and holding a letter, digit or ideograph.
pub open spec fn valid_context_surface(w: Seq<char>) -> bool {
    &&& w.len() <= 48
    &&& !(forall|i: int| 0 <= i < w.len() ==> is_context_punctuation_or_space(#[trigger] w[i]))
    &&& !(exists|i: int| 0 <= i < w.len() && is_delimiter(#[trigger] w[i]))
    &&& exists|i: int| 0 <= i < w.len() && is_context_term_char(#[trigger] w[i])
}

/// The occurrence of the characters `a..b` of the sentence.
pub open spec fn context_view(
    sentence: SentenceUnit,
    a: int,
    b: int,
    evidence: TermCandidateEvidence,
) -> RawView {
    let s = sentence.text@;
    RawView {
        surface: s.subrange(a, b),
        location: LocatedRange {
            block: sentence.location.block,
            range: Range {
                start: (sentence.location.range.start + byte_pos(s, a)) as usize,
                end: (sentence.location.range.start + byte_pos(s, b)) as usize,
            },
        },
        evidence: seq![evidence],
    }
}

/// The emphasis occurrence of the content `lo..hi`, if its trimmed text is
/// a fit surface that overlaps at most six tokens.
pub open spec fn emphasis_at(sentence: SentenceUnit, lo: int, hi: int) -> Seq<RawView> {
    let s = sentence.text@;
    let base = sentence.location.range.start;
    match spec_trimmed(s, lo, hi) {
        Some(t) => if valid_context_surface(s.subrange(t.0 as int, t.1 as int)) && overlapping(
            sentence.tokens@,
            base + byte_pos(s, t.0 as int),
            base + byte_pos(s, t.1 as int),
        ) <= 6 {
            seq![context_view(sentence, t.0 as int, t.1 as int, TermCandidateEvidence::Emphasis)]
        } else {
            Seq::empty()
        },
        None => Seq::empty(),
    }
}

/// The emphasis occurrences of the spans, in order.
pub open spec fn emphasis_of(sentence: SentenceUnit, spans: Seq<(int, int)>) -> Seq<RawView>
    decreases spans.len(),
{
    if spans.len() == 0 {
        Seq::empty()
    } else {
        emphasis_of(sentence, spans.drop_last()) + emphasis_at(
            sentence,
            spans.last().0,
            spans.last().1,
        )
    }
}

/// The emphasis occurrences of the first `k` delimiter pairs.
pub open spec fn delimited_views(sentence: SentenceUnit, k: int) -> Seq<RawView>
    decreases k,
{
    if k <= 0 {
        Seq::empty()
    } else {
        delimited_views(sentence, k - 1) + emphasis_of(
            sentence,
            delimited_spans(sentence.text@, delimiter_pair(k - 1).0, delimiter_pair(k - 1).1, 0),
        )
    }
}

/// The definition occurrence of the capture `lo..hi`, if its trimmed text
/// has at most 48 characters, overlaps at most six counted tokens and is a
/// fit surface.
pub open spec fn definition_at(sentence: SentenceUnit, lo: int, hi: int) -> Seq<RawView> {
    let s = sentence.text@;
    match spec_trimmed(s, lo, hi) {
        Some(t) => if t.1 - t.0 <= 48 && (match spec_token_count(
            sentence,
            byte_pos(s, t.0 as int) as int,
            byte_pos(s, t.1 as int) as int,
        ) {
            Some(c) => c <= 6,
            None => false,
        }) && valid_context_surface(s.subrange(t.0 as int, t.1 as int)) {
            seq![
                context_view(
                    sentence,
                    t.0 as int,
                    t.1 as int,
                    TermCandidateEvidence::DefinitionContext,
                ),
            ]
        } else {
            Seq::empty()
        },
        None => Seq::empty(),
    }
}

/// The first index at or after `start` where `w` occurs.
pub open spec fn find_word(s: Seq<char>, w: Seq<char>, start: int) -> Option<int>
    decreases s.len() + 1 - start,
{
    if start < 0 || start > s.len() {
        None
    } else if occurs_at(s, start, w) {
        Some(start)
    } else {
        find_word(s, w, start + 1)
    }
}

pub proof fn lemma_find_word(s: Seq<char>, w: Seq<char>, start: int)
    ensures
        find_word(s, w, start) matches Some(p) ==> 0 <= start <= p && occurs_at(s, p, w),
        find_word(s, w, start) is None ==> forall|p: int|
            0 <= start <= p <= s.len() ==> !#[trigger] occurs_at(s, p, w),
    decreases s.len() + 1 - start,
{
    if 0 <= start <= s.len() && !occurs_at(s, start, w) {
        lemma_find_word(s, w, start + 1);
    }
}

/// Where `w` occurs from `start` on, each search resuming after the last hit.
pub open spec fn hits(s: Seq<char>, w: Seq<char>, start: int) -> Seq<int>
    decreases s.len() + 1 - start,
{
    if w.len() == 0 || start < 0 || start > s.len() {
        Seq::empty()
    } else {
        match find_word(s, w, start) {
            None => Seq::empty(),
            Some(p) => {
                proof {
                    lemma_find_word(s, w, start);
                }
                seq![p] + hits(s, w, p + w.len())
            },
        }
    }
}

/// `所谓` at `p` follows the sentence start, whitespace, a boundary or an
/// opening parenthesis or quote.
pub open spec fn explicit_after(s: Seq<char>, p: int) -> bool {
    p == 0 || is_whitespace(s[p - 1]) || is_context_boundary(s[p - 1]) || s[p - 1] == '('
        || s[p - 1] == '\u{FF08}' || s[p - 1] == '"'
}

/// A trigger at `p` stands alone: an English trigger needs whitespace before
/// it and the end, whitespace or a boundary after it; a Chinese one always does.
pub open spec fn explicit_before(s: Seq<char>, p: int, w: Seq<char>, ascii: bool) -> bool {
    !ascii || (p > 0 && is_whitespace(s[p - 1]) && (p + w.len() == s.len() || is_whitespace(
        s[p + w.len()],
    ) || is_context_boundary(s[p + w.len()])))
}

/// Definition occurrences after each explicit `所谓` among the hits.
pub open spec fn after_marker_views(sentence: SentenceUnit, ps: Seq<int>) -> Seq<RawView>
    decreases ps.len(),
{
    if ps.len() == 0 {
        Seq::empty()
    } else {
        let s = sentence.text@;
        let p = ps.last();
        after_marker_views(sentence, ps.drop_last()) + if explicit_after(s, p) {
            definition_at(sentence, p + 2, spec_end_after(s, p + 2))
        } else {
            Seq::empty()
        }
    }
}

/// Definition occurrences before each explicit trigger `w` among the hits.
pub open spec fn before_trigger_views(
    sentence: SentenceUnit,
    w: Seq<char>,
    ascii: bool,
    ps: Seq<int>,
) -> Seq<RawView>
    decreases ps.len(),
{
    if ps.len() == 0 {
        Seq::empty()
    } else {
        let s = sentence.text@;
        let p = ps.last();
        before_trigger_views(sentence, w, ascii, ps.drop_last()) + if explicit_before(
            s,
            p,
            w,
            ascii,
        ) {
            definition_at(sentence, spec_start_before(s, p), p)
        } else {
            Seq::empty()
        }
    }
}

/// The definition triggers that follow the term, in scanning order.
pub open spec fn trigger_word(k: int) -> (Seq<char>, bool) {
    if k == 0 {
        ("是指"@, false)
    } else if k == 1 {
        ("指的是"@, false)
    } else if k == 2 {
        ("定义为"@, false)
    } else if k == 3 {
        ("refers to"@, true)
    } else if k == 4 {
        ("is defined as"@, true)
    } else if k == 5 {
        ("denotes"@, true)
    } else {
        ("stands for"@, true)
    }
}

fn trigger_word_at(k: usize) -> (r: (&'static str, bool))
    ensures
        r.0@ == trigger_word(k as int).0,
        r.1 == trigger_word(k as int).1,
{
    if k == 0 {
        ("是指", false)
    } else if k == 1 {
        ("指的是", false)
    } else if k == 2 {
        ("定义为", false)
    } else if k == 3 {
        ("refers to", true)
    } else if k == 4 {
        ("is defined as", true)
    } else if k == 5 {
        ("denotes", true)
    } else {
        ("stands for", true)
    }
}

/// Definition occurrences before the first `k` triggers.
pub open spec fn trigger_views(sentence: SentenceUnit, k: int) -> Seq<RawView>
    decreases k,
{
    if k <= 0 {
        Seq::empty()
    } else {
        let (w, ascii) = trigger_word(k - 1);
        trigger_views(sentence, k - 1) + before_trigger_views(
            sentence,
            w,
            ascii,
            hits(sentence.text@, w, 0),
        )
    }
}

/// Every context occurrence of a sentence, in collection order: emphasis for
/// each delimiter pair, then `所谓` definitions, then each trigger's definitions.
pub open spec fn context_occurrences(sentence: SentenceUnit) -> Seq<RawView> {
    delimited_views(sentence, 6) + after_marker_views(sentence, hits(sentence.text@, "所谓"@, 0))
        + trigger_views(sentence, 7)
}

/// The sentence's context occurrences ordered by position.
pub open spec fn sentence_contexts(sentence: SentenceUnit) -> Seq<RawView> {
    stable_sorted::<RawTermOccurrence, PositionOrder>(context_occurrences(sentence))
}

/// What a context scan of the sentence needs.
pub open spec fn scannable(sentence: SentenceUnit) -> bool {
    sentence.fits() && byte_len(sentence.text@) < usize::MAX
}

/// The occurrence of the characters `a..b`.
fn occurrence_of(
    sentence: &SentenceUnit,
    s: &Vec<char>,
    offsets: &Vec<usize>,
    a: usize,
    b: usize,
    evidence: TermCandidateEvidence,
) -> (r: RawTermOccurrence)
    requires
        s@ == sentence.text@,
        sentence.fits(),
        a <= b <= s.len(),
        offsets.len() == s.len() + 1,
        forall|i: int| 0 <= i <= s.len() ==> offsets[i] == byte_pos(s@, i),
    ensures
        r@ == context_view(*sentence, a as int, b as int, evidence),
{
    proof {
        lemma_byte_pos_mono(s@, a as int, b as int);
        lemma_byte_pos_le_len(s@, b as int);
    }
    let mut ev: Vec<TermCandidateEvidence> = Vec::new();
    ev.push(evidence);
    let r = RawTermOccurrence {
        surface: string_of(s, a, b),
        location: LocatedRange {
            block: sentence.location.block,
            range: (sentence.location.range.start + offsets[a])..(sentence.location.range.start
                + offsets[b]),
        },
        evidence: ev,
    };
    assert(r@.evidence =~= seq![evidence]);
    r
}

fn valid_surface(s: &Vec<char>, a: usize, b: usize) -> (r: bool)
    requires
        a <= b <= s.len(),
    ensures
        r == valid_context_surface(s@.subrange(a as int, b as int)),
{
    let ghost w = s@.subrange(a as int, b as int);
    if b - a > MAX_CONTEXT_CHARS {
        return false;
    }
    let mut all_punct = true;
    let mut has_delim = false;
    let mut has_term = false;
    let mut i = a;
    while i < b
        invariant
            a <= i <= b <= s.len(),
            w == s@.subrange(a as int, b as int),
            all_punct == (forall|k: int| 0 <= k < i - a ==> is_context_punctuation_or_space(#[trigger] w[k])),
            has_delim == (exists|k: int| 0 <= k < i - a && is_delimiter(#[trigger] w[k])),
            has_term == (exists|k: int| 0 <= k < i - a && is_context_term_char(#[trigger] w[k])),
        decreases b - i,
    {
        let c = s[i];
        assert(w[i - a] == c);
        if !is_context_punctuation_or_space(c) {
            all_punct = false;
        }
        if is_delimiter(c) {
            has_delim = true;
        }
        if is_context_term_char(c) {
            has_term = true;
        }
        i = i + 1;
    }
    !all_punct && !has_delim && has_term
}

fn overlapping_tokens(tokens: &Vec<Token>, lo: usize, hi: usize) -> (r: usize)
    ensures
        r == overlapping(tokens@, lo as int, hi as int),
{
    let mut count: usize = 0;
    let mut k: usize = 0;
    assert(tokens@.take(0) =~= Seq::<Token>::empty());
    while k < tokens.len()
        invariant
            k <= tokens@.len(),
            count == overlapping(tokens@.take(k as int), lo as int, hi as int),
            count <= k,
        decreases tokens@.len() - k,
    {
        assert(tokens@.take(k + 1).drop_last() =~= tokens@.take(k as int));
        if tokens[k].location.range.start < hi && tokens[k].location.range.end > lo {
            count = count + 1;
        }
        k = k + 1;
    }
    assert(tokens@.take(k as int) =~= tokens@);
    count
}

/// The emphasis occurrence of the content `lo..hi`, if there is one.
fn emphasis(
    sentence: &SentenceUnit,
    index: &DefinitionIndex,
    s: &Vec<char>,
    offsets: &Vec<usize>,
    lo: usize,
    hi: usize,
) -> (r: Vec<RawTermOccurrence>)
    requires
        index.describes(*sentence, s@),
        s@ == sentence.text@,
        sentence.fits(),
        lo <= hi <= s.len(),
        offsets.len() == s.len() + 1,
        forall|i: int| 0 <= i <= s.len() ==> offsets[i] == byte_pos(s@, i),
    ensures
        views(r@) == emphasis_at(*sentence, lo as int, hi as int),
{
    let mut r: Vec<RawTermOccurrence> = Vec::new();
    match index.trimmed(lo, hi, Ghost(*sentence), Ghost(s@)) {
        Some((a, b)) => {
            proof {
                lemma_byte_pos_mono(s@, a as int, b as int);
                lemma_byte_pos_le_len(s@, b as int);
            }
            let base = sentence.location.range.start;
            if valid_surface(s, a, b) && overlapping_tokens(
                &sentence.tokens,
                base + offsets[a],
                base + offsets[b],
            ) <= MAX_CONTEXT_TOKENS {
                let o = occurrence_of(sentence, s, offsets, a, b, TermCandidateEvidence::Emphasis);
                proof {
                    lemma_views_push(r@, o);
                }
                r.push(o);
            }
        },
        None => {},
    }
    assert(views(r@) =~= emphasis_at(*sentence, lo as int, hi as int));
    r
}

/// The definition occurrence of the capture `lo..hi`, if there is one.
fn definition(
    sentence: &SentenceUnit,
    index: &DefinitionIndex,
    s: &Vec<char>,
    offsets: &Vec<usize>,
    lo: usize,
    hi: usize,
) -> (r: Vec<RawTermOccurrence>)
    requires
        index.describes(*sentence, s@),
        s@ == sentence.text@,
        sentence.fits(),
        lo <= hi <= s.len(),
        offsets.len() == s.len() + 1,
        forall|i: int| 0 <= i <= s.len() ==> offsets[i] == byte_pos(s@, i),
    ensures
        views(r@) == definition_at(*sentence, lo as int, hi as int),
{
    let mut r: Vec<RawTermOccurrence> = Vec::new();
    match index.trimmed(lo, hi, Ghost(*sentence), Ghost(s@)) {
        Some((a, b)) => {
            proof {
                lemma_byte_pos_mono(s@, a as int, b as int);
                lemma_byte_pos_le_len(s@, b as int);
            }
            if b - a <= MAX_CONTEXT_CHARS {
                let tokens = index.token_count(offsets[a], offsets[b], Ghost(*sentence), Ghost(s@));
                let few = match tokens {
                    Some(c) => c <= MAX_CONTEXT_TOKENS,
                    None => false,
                };
                if few && valid_surface(s, a, b) {
                    let o = occurrence_of(
                        sentence,
                        s,
                        offsets,
                        a,
                        b,
                        TermCandidateEvidence::DefinitionContext,
                    );
                    proof {
                        lemma_views_push(r@, o);
                    }
                    r.push(o);
                }
            }
        },
        None => {},
    }
    assert(views(r@) =~= definition_at(*sentence, lo as int, hi as int));
    r
}

/// Whether `'` at `i` is an apostrophe.
fn is_apostrophe(s: &Vec<char>, i: usize) -> (r: bool)
    requires
        i < s.len(),
    ensures
        r == is_apostrophe_at(s@, i as int),
{
    i > 0 && i + 1 < s.len() && is_alphanumeric(s[i - 1]) && is_alphanumeric(s[i + 1])
}

fn find_delimiter_from(s: &Vec<char>, d: char, start: usize) -> (r: Option<usize>)
    ensures
        match r {
            Some(i) => find_delimiter(s@, d, start as int) == Some(i as int),
            None => find_delimiter(s@, d, start as int) is None,
        },
{
    let mut i = start;
    while i < s.len()
        invariant
            start <= i,
            find_delimiter(s@, d, start as int) == find_delimiter(s@, d, i as int),
        decreases s.len() - i,
    {
        if s[i] == d && (d != '\'' || !is_apostrophe(s, i)) {
            return Some(i);
        }
        i = i + 1;
    }
    None
}

/// Emphasis occurrences between the delimiters `open` and `close`.
fn collect_delimited_pair(
    sentence: &SentenceUnit,
    index: &DefinitionIndex,
    s: &Vec<char>,
    offsets: &Vec<usize>,
    open: char,
    close: char,
) -> (r: Vec<RawTermOccurrence>)
    requires
        index.describes(*sentence, s@),
        s@ == sentence.text@,
        sentence.fits(),
        offsets.len() == s.len() + 1,
        forall|i: int| 0 <= i <= s.len() ==> offsets[i] == byte_pos(s@, i),
    ensures
        views(r@) == emphasis_of(*sentence, delimited_spans(s@, open, close, 0)),
{
    let mut r: Vec<RawTermOccurrence> = Vec::new();
    let ghost mut done: Seq<(int, int)> = Seq::empty();
    let mut search_start: usize = 0;
    while search_start < s.len()
        invariant
            index.describes(*sentence, s@),
            s@ == sentence.text@,
            sentence.fits(),
            offsets.len() == s.len() + 1,
            forall|i: int| 0 <= i <= s.len() ==> offsets[i] == byte_pos(s@, i),
            search_start <= s.len(),
            delimited_spans(s@, open, close, 0) == done + delimited_spans(
                s@,
                open,
                close,
                search_start as int,
            ),
            views(r@) == emphasis_of(*sentence, done),
        ensures
            views(r@) == emphasis_of(*sentence, delimited_spans(s@, open, close, 0)),
        decreases s.len() - search_start,
    {
        proof {
            lemma_find_delimiter(s@, open, search_start as int);
        }
        let open_at = match find_delimiter_from(s, open, search_start) {
            Some(i) => i,
            None => {
                assert(done + delimited_spans(s@, open, close, search_start as int) =~= done);
                break;
            },
        };
        proof {
            lemma_find_delimiter(s@, close, open_at + 1);
        }
        let close_at = match find_delimiter_from(s, close, open_at + 1) {
            Some(j) => j,
            None => {
                assert(done + delimited_spans(s@, open, close, search_start as int) =~= done);
                break;
            },
        };
        let mut found = emphasis(sentence, index, s, offsets, open_at + 1, close_at);
        proof {
            let span = (open_at + 1, close_at as int);
            assert(delimited_spans(s@, open, close, search_start as int) == seq![span]
                + delimited_spans(s@, open, close, close_at + 1));
            assert(done.push(span) + delimited_spans(s@, open, close, close_at + 1) =~= done
                + (seq![span] + delimited_spans(s@, open, close, close_at + 1)));
            assert(done.push(span).drop_last() =~= done);
            lemma_views_add(r@, found@);
            done = done.push(span);
        }
        r.append(&mut found);
        search_start = close_at + 1;
    }
    proof {
        if search_start >= s.len() {
            assert(done + delimited_spans(s@, open, close, search_start as int) =~= done);
        }
    }
    r
}

fn find_word_from(s: &Vec<char>, w: &str, start: usize) -> (r: Option<usize>)
    requires
        s.len() < usize::MAX,
    ensures
        match r {
            Some(p) => find_word(s@, w@, start as int) == Some(p as int),
            None => find_word(s@, w@, start as int) is None,
        },
{
    let mut p = start;
    while p <= s.len()
        invariant
            start <= p,
            s.len() < usize::MAX,
            find_word(s@, w@, start as int) == find_word(s@, w@, p as int),
        decreases s.len() + 1 - p,
    {
        if occurs(s, p, w) {
            return Some(p);
        }
        p = p + 1;
    }
    None
}

/// Definition occurrences after each explicit `所谓`.
fn collect_after_definition_marker(
    sentence: &SentenceUnit,
    index: &DefinitionIndex,
    s: &Vec<char>,
    offsets: &Vec<usize>,
) -> (r: Vec<RawTermOccurrence>)
    requires
        s.len() < usize::MAX,
        index.describes(*sentence, s@),
        s@ == sentence.text@,
        sentence.fits(),
        offsets.len() == s.len() + 1,
        forall|i: int| 0 <= i <= s.len() ==> offsets[i] == byte_pos(s@, i),
    ensures
        views(r@) == after_marker_views(*sentence, hits(s@, "所谓"@, 0)),
{
    let trigger = "所谓";
    let wlen = chars_of(trigger).len();
    proof {
        reveal_strlit("所谓");
    }
    let ghost bs = boundary_positions(s@, s@.len() as int);
    let ghost ps = predicate_positions(s@, s@.len() as int);
    let mut r: Vec<RawTermOccurrence> = Vec::new();
    let ghost mut done: Seq<int> = Seq::empty();
    let mut cursor = index.forward_cursor();
    let mut search_start: usize = 0;
    while search_start <= s.len()
        invariant
            index.describes(*sentence, s@),
            s@ == sentence.text@,
            sentence.fits(),
            offsets.len() == s.len() + 1,
            forall|i: int| 0 <= i <= s.len() ==> offsets[i] == byte_pos(s@, i),
            wlen == 2,
            trigger@ == "所谓"@,
            "所谓"@.len() == 2,
            s.len() < usize::MAX,
            bs == boundary_positions(s@, s@.len() as int),
            ps == predicate_positions(s@, s@.len() as int),
            hits(s@, "所谓"@, 0) == done + hits(s@, "所谓"@, search_start as int),
            views(r@) == after_marker_views(*sentence, done),
            cursor.boundary <= bs.len(),
            cursor.predicate <= ps.len(),
            forall|k: int| 0 <= k < cursor.boundary ==> #[trigger] bs[k] < search_start,
            forall|k: int| 0 <= k < cursor.predicate ==> #[trigger] ps[k] < search_start,
        ensures
            views(r@) == after_marker_views(*sentence, hits(s@, "所谓"@, 0)),
        decreases s.len() + 1 - search_start,
    {
        proof {
            lemma_find_word(s@, "所谓"@, search_start as int);
        }
        let p = match find_word_from(s, trigger, search_start) {
            Some(p) => p,
            None => {
                assert(done + hits(s@, "所谓"@, search_start as int) =~= done);
                break;
            },
        };
        let content_start = p + wlen;
        let mut found: Vec<RawTermOccurrence> = Vec::new();
        let explicit = p == 0 || is_whitespace(s[p - 1]) || is_context_boundary(s[p - 1]) || s[p - 1] == '('
            || s[p - 1] == '\u{FF08}' || s[p - 1] == '"';
        if explicit {
            let content_end = index.end_after(content_start, &mut cursor, Ghost(*sentence), Ghost(s@));
            found = definition(sentence, index, s, offsets, content_start, content_end);
        }
        proof {
            assert(hits(s@, "所谓"@, search_start as int) == seq![p as int] + hits(s@, "所谓"@, p + 2));
            assert(done.push(p as int) + hits(s@, "所谓"@, p + 2) =~= done + (seq![p as int] + hits(s@, "所谓"@, p + 2)));
            assert(done.push(p as int).drop_last() =~= done);
            lemma_views_add(r@, found@);
            done = done.push(p as int);
        }
        r.append(&mut found);
        search_start = content_start;
    }
    proof {
        if search_start > s.len() {
            assert(done + hits(s@, "所谓"@, search_start as int) =~= done);
        }
    }
    r
}

/// Definition occurrences before each explicit occurrence of the trigger `w`.
fn collect_before_trigger(
    sentence: &SentenceUnit,
    index: &DefinitionIndex,
    s: &Vec<char>,
    offsets: &Vec<usize>,
    w: &str,
    ascii: bool,
) -> (r: Vec<RawTermOccurrence>)
    requires
        s.len() < usize::MAX,
        index.describes(*sentence, s@),
        s@ == sentence.text@,
        sentence.fits(),
        offsets.len() == s.len() + 1,
        forall|i: int| 0 <= i <= s.len() ==> offsets[i] == byte_pos(s@, i),
        w@.len() > 0,
    ensures
        views(r@) == before_trigger_views(*sentence, w@, ascii, hits(s@, w@, 0)),
{
    let wc = chars_of(w);
    let wlen = wc.len();
    let ghost bs = boundary_positions(s@, s@.len() as int);
    let mut r: Vec<RawTermOccurrence> = Vec::new();
    let ghost mut done: Seq<int> = Seq::empty();
    let mut cursor = BoundaryCursor { at: 0 };
    let mut search_start: usize = 0;
    while search_start <= s.len()
        invariant
            index.describes(*sentence, s@),
            s@ == sentence.text@,
            sentence.fits(),
            offsets.len() == s.len() + 1,
            forall|i: int| 0 <= i <= s.len() ==> offsets[i] == byte_pos(s@, i),
            wlen == w@.len(),
            wc@ == w@,
            s.len() < usize::MAX,
            wlen > 0,
            bs == boundary_positions(s@, s@.len() as int),
            hits(s@, w@, 0) == done + hits(s@, w@, search_start as int),
            views(r@) == before_trigger_views(*sentence, w@, ascii, done),
            cursor.at <= bs.len(),
            forall|k: int| 0 <= k < cursor.at ==> #[trigger] bs[k] < search_start,
        ensures
            views(r@) == before_trigger_views(*sentence, w@, ascii, hits(s@, w@, 0)),
        decreases s.len() + 1 - search_start,
    {
        proof {
            lemma_find_word(s@, w@, search_start as int);
        }
        let p = match find_word_from(s, w, search_start) {
            Some(p) => p,
            None => {
                assert(done + hits(s@, w@, search_start as int) =~= done);
                break;
            },
        };
        let after = p + wlen;
        let explicit = !ascii || (p > 0 && is_whitespace(s[p - 1]) && (after == s.len()
            || is_whitespace(s[after]) || is_context_boundary(s[after])));
        let mut found: Vec<RawTermOccurrence> = Vec::new();
        if explicit {
            let content_start = index.start_before(p, &mut cursor, Ghost(*sentence), Ghost(s@));
            found = definition(sentence, index, s, offsets, content_start, p);
        }
        proof {
            assert(hits(s@, w@, search_start as int) == seq![p as int] + hits(s@, w@, p + w@.len()));
            assert(done.push(p as int) + hits(s@, w@, p + w@.len()) =~= done + (seq![p as int] + hits(s@, w@, p + w@.len())));
            assert(done.push(p as int).drop_last() =~= done);
            lemma_views_add(r@, found@);
            done = done.push(p as int);
        }
        r.append(&mut found);
        search_start = after;
    }
    proof {
        if search_start > s.len() {
            assert(done + hits(s@, w@, search_start as int) =~= done);
        }
    }
    r
}

/// The context occurrences of one sentence, ordered by position.
pub fn collect_sentence(sentence: &SentenceUnit) -> (r: Vec<RawTermOccurrence>)
    requires
        scannable(*sentence),
    ensures
        views(r@) == sentence_contexts(*sentence),
{
    let s = chars_of(sentence.text.as_str());
    proof {
        crate::text::unicode::lemma_len_le_byte_len(s@);
    }
    let offsets = byte_offsets(&s);
    let index = DefinitionIndex::new(sentence, &s);
    let mut occurrences: Vec<RawTermOccurrence> = Vec::new();
    let mut k: usize = 0;
    while k < 6
        invariant
            index.describes(*sentence, s@),
            s@ == sentence.text@,
            sentence.fits(),
            offsets.len() == s.len() + 1,
            forall|i: int| 0 <= i <= s.len() ==> offsets[i] == byte_pos(s@, i),
            s.len() < usize::MAX,
            k <= 6,
            views(occurrences@) == delimited_views(*sentence, k as int),
        decreases 6 - k,
    {
        let (open, close) = delimiter_pair_at(k);
        let mut found = collect_delimited_pair(sentence, &index, &s, &offsets, open, close);
        proof {
            lemma_views_add(occurrences@, found@);
        }
        occurrences.append(&mut found);
        k = k + 1;
    }
    let mut found = collect_after_definition_marker(sentence, &index, &s, &offsets);
    proof {
        lemma_views_add(occurrences@, found@);
    }
    occurrences.append(&mut found);
    let ghost before_triggers = views(occurrences@);
    let mut k: usize = 0;
    assert(views(occurrences@) =~= before_triggers + trigger_views(*sentence, 0));
    while k < 7
        invariant
            index.describes(*sentence, s@),
            s@ == sentence.text@,
            sentence.fits(),
            offsets.len() == s.len() + 1,
            forall|i: int| 0 <= i <= s.len() ==> offsets[i] == byte_pos(s@, i),
            s.len() < usize::MAX,
            k <= 7,
            views(occurrences@) == before_triggers + trigger_views(*sentence, k as int),
        decreases 7 - k,
    {
        let (w, ascii) = trigger_word_at(k);
        proof {
            reveal_strlit("是指");
            reveal_strlit("指的是");
            reveal_strlit("定义为");
            reveal_strlit("refers to");
            reveal_strlit("is defined as");
            reveal_strlit("denotes");
            reveal_strlit("stands for");
        }
        let mut found = collect_before_trigger(sentence, &index, &s, &offsets, w, ascii);
        proof {
            lemma_views_add(occurrences@, found@);
            assert(before_triggers + trigger_views(*sentence, k as int) + views(found@) =~= before_triggers
                + trigger_views(*sentence, k + 1));
        }
        occurrences.append(&mut found);
        k = k + 1;
    }
    stable_sort::<RawTermOccurrence, PositionOrder>(occurrences)
}

/// Bytes of text the definition index reads for the sentence: each byte
/// twice, once per pass.
pub fn definition_scan_bytes(sentence: &SentenceUnit) -> (r: u128)
    requires
        scannable(*sentence),
    ensures
        r == 2 * byte_len(sentence.text@),
{
    let s = chars_of(sentence.text.as_str());
    let index = DefinitionIndex::new(sentence, &s);
    index.scanned_bytes()
}

/// Context occurrences of the sentences, sentence by sentence.
pub open spec fn contexts_of(sentences: Seq<SentenceUnit>) -> Seq<RawView>
    decreases sentences.len(),
{
    if sentences.len() == 0 {
        Seq::empty()
    } else {
        contexts_of(sentences.drop_last()) + sentence_contexts(sentences.last())
    }
}

/// Every sentence fits a context scan.
pub open spec fn all_scannable(analysis: DocumentAnalysis) -> bool {
    forall|i: int|
        0 <= i < analysis.spec_sentences().len() ==> scannable(#[trigger] analysis.spec_sentences()[i])
}

/// The context occurrences of the document, ordered by position.
pub fn collect(analysis: &DocumentAnalysis) -> (occurrences: Vec<RawTermOccurrence>)
    requires
        all_scannable(*analysis),
    ensures
        views(occurrences@) == stable_sorted::<RawTermOccurrence, PositionOrder>(
            contexts_of(analysis.spec_sentences()),
        ),
{
    let sentences = analysis.sentence_list();
    let ghost ss = analysis.spec_sentences();
    let mut occurrences: Vec<RawTermOccurrence> = Vec::new();
    let mut k: usize = 0;
    assert(ss.take(0) =~= Seq::<SentenceUnit>::empty());
    while k < sentences.len()
        invariant
            all_scannable(*analysis),
            ss == analysis.spec_sentences(),
            sentences@.len() == ss.len(),
            forall|i: int| 0 <= i < sentences@.len() ==> *(#[trigger] sentences@[i]) == ss[i],
            k <= sentences@.len(),
            views(occurrences@) == contexts_of(ss.take(k as int)),
        decreases sentences@.len() - k,
    {
        let sentence = sentences[k];
        assert(scannable(ss[k as int]));
        let mut found = collect_sentence(sentence);
        proof {
            lemma_views_add(occurrences@, found@);
            assert(ss.take(k + 1).drop_last() =~= ss.take(k as int));
        }
        occurrences.append(&mut found);
        k = k + 1;
    }
    assert(ss.take(k as int) =~= ss);
    stable_sort::<RawTermOccurrence, PositionOrder>(occurrences)
}

} // verus!
