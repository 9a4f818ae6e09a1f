//! Repeated nominal phrases: windows of two to six contiguous noun or
//! adjective tokens that occur at least twice in the document.
use super::model::{ReadingOrder, RawTermOccurrence, RawView, TermCandidateEvidence};
use super::text::spec_has_cjk;
use crate::latex::loader::fragment;
use crate::latex::span::LocatedRange;
use crate::lint::analysis::{DocumentAnalysis, SentenceUnit};
use crate::nlp::{PosTag, Token};
use crate::order::{stable_sort, stable_sorted, views};
use crate::text::unicode::{byte_offsets, byte_pos, chars_of, is_cjk, str_eq, string_of};
use vstd::prelude::*;

verus! {

/// Tokens per window, at least and at most.
pub const MIN_WINDOW: usize = 2;
pub const MAX_WINDOW: usize = 6;
/// Characters per phrase, at least and at most.
pub const MIN_SCALARS: usize = 4;
pub const MAX_SCALARS: usize = 24;

/// A noun or an adjective.
pub open spec fn is_nominal(t: Token) -> bool {
    t.pos == PosTag::Noun || t.pos == PosTag::Adjective
}

/// The token lies inside the sentence, in the same block.
pub open spec fn is_local(sentence: SentenceUnit, t: Token) -> bool {
    &&& t.location.block == sentence.location.block
    &&& sentence.location.range.start <= t.location.range.start
    &&& t.location.range.start <= t.location.range.end
    &&& t.location.range.end <= sentence.location.range.end
}

/// At least two CJK ideographs.
pub open spec fn has_two_cjk(s: Seq<char>) -> bool {
    exists|i: int, j: int| 0 <= i < j < s.len() && is_cjk(#[trigger] s[i]) && is_cjk(#[trigger] s[j])
}

/// A nominal token inside the sentence.
pub open spec fn fits_window(sentence: SentenceUnit, t: Token) -> bool {
    is_nominal(t) && is_local(sentence, t)
}

/// Token `k` ends where token `k + 1` starts.
pub open spec fn joins(ts: Seq<Token>, k: int) -> bool {
    ts[k].location.range.end == ts[k + 1].location.range.start
}

/// The token's surface holds two CJK ideographs.
pub open spec fn token_has_two_cjk(t: Token) -> bool {
    has_two_cjk(t.surface@)
}

/// Tokens `st..en` are nominal, inside the sentence, contiguous, and one
/// of them holds two CJK ideographs.
pub open spec fn tokens_qualify(sentence: SentenceUnit, st: int, en: int) -> bool {
    let ts = sentence.tokens@;
    &&& forall|k: int| st <= k < en ==> #[trigger] fits_window(sentence, ts[k])
    &&& forall|k: int| st <= k < en - 1 ==> #[trigger] joins(ts, k)
    &&& exists|k: int| st <= k < en && #[trigger] token_has_two_cjk(ts[k])
}

/// The phrase of tokens `st..en`, with its location, when it qualifies.
pub open spec fn window_at(sentence: SentenceUnit, st: int, en: int) -> Option<(Seq<char>, LocatedRange)> {
    let ts = sentence.tokens@;
    if 0 <= st < en <= ts.len() && tokens_qualify(sentence, st, en) {
        let a = ts[st].location.range.start;
        let b = ts[en - 1].location.range.end;
        let base = sentence.location.range.start;
        match fragment(sentence.text@, a - base, b - base) {
            Some(f) => if MIN_SCALARS <= f.len() <= MAX_SCALARS && spec_has_cjk(f) {
                Some((f, LocatedRange { block: sentence.location.block, range: a..b }))
            } else {
                None
            },
            None => None,
        }
    } else {
        None
    }
}

pub open spec fn opt_window(o: Option<(Seq<char>, LocatedRange)>) -> Seq<(Seq<char>, LocatedRange)> {
    match o {
        Some(w) => seq![w],
        None => Seq::empty(),
    }
}

/// The windows starting at token `st` and ending at or before `en`.
pub open spec fn windows_from(sentence: SentenceUnit, st: int, en: int) -> Seq<(Seq<char>, LocatedRange)>
    decreases en - st,
{
    if en < st + MIN_WINDOW {
        Seq::empty()
    } else {
        windows_from(sentence, st, en - 1) + opt_window(window_at(sentence, st, en))
    }
}

/// The last token end a window starting at `st` may reach.
pub open spec fn window_limit(n: int, st: int) -> int {
    if st + MAX_WINDOW <= n {
        st + MAX_WINDOW
    } else {
        n
    }
}

/// The windows of a sentence starting before token `m`, by start and then by length.
pub open spec fn windows_before(sentence: SentenceUnit, m: int) -> Seq<(Seq<char>, LocatedRange)>
    decreases m,
{
    if m <= 0 {
        Seq::empty()
    } else {
        windows_before(sentence, m - 1) + windows_from(
            sentence,
            m - 1,
            window_limit(sentence.tokens@.len() as int, m - 1),
        )
    }
}

proof fn lemma_windows_from_len(sentence: SentenceUnit, st: int, en: int)
    ensures
        windows_from(sentence, st, en).len() <= if en - st - 1 > 0 {
            en - st - 1
        } else {
            0
        },
    decreases en - st,
{
    if en >= st + MIN_WINDOW {
        lemma_windows_from_len(sentence, st, en - 1);
    }
}

/// At most five windows start at each token: a sentence of `m` tokens has
/// at most `5 * m` windows.
pub proof fn lemma_windows_bounded(sentence: SentenceUnit, m: int)
    requires
        0 <= m,
    ensures
        windows_before(sentence, m).len() <= 5 * m,
    decreases m,
{
    if m > 0 {
        lemma_windows_bounded(sentence, m - 1);
        lemma_windows_from_len(sentence, m - 1, window_limit(sentence.tokens@.len() as int, m - 1));
    }
}

/// The windows of the sentences, in order.
pub open spec fn all_windows(sentences: Seq<SentenceUnit>) -> Seq<(Seq<char>, LocatedRange)>
    decreases sentences.len(),
{
    if sentences.len() == 0 {
        Seq::empty()
    } else {
        all_windows(sentences.drop_last()) + windows_before(
            sentences.last(),
            sentences.last().tokens@.len() as int,
        )
    }
}

/// How many windows have this surface.
pub open spec fn surface_count(ws: Seq<(Seq<char>, LocatedRange)>, surface: Seq<char>) -> nat
    decreases ws.len(),
{
    if ws.len() == 0 {
        0
    } else {
        surface_count(ws.drop_last(), surface) + if ws.last().0 == surface {
            1nat
        } else {
            0nat
        }
    }
}

/// One occurrence per window whose surface repeats, among the first `n` windows.
pub open spec fn repeated_upto(ws: Seq<(Seq<char>, LocatedRange)>, n: int) -> Seq<RawView>
    decreases n,
{
    if n <= 0 {
        Seq::empty()
    } else {
        let w = ws[n - 1];
        repeated_upto(ws, n - 1) + if surface_count(ws, w.0) >= 2 {
            seq![
                RawView {
                    surface: w.0,
                    location: w.1,
                    evidence: seq![TermCandidateEvidence::RepeatedNgram { occurrences: surface_count(ws, w.0) as usize }],
                },
            ]
        } else {
            Seq::empty()
        }
    }
}

/// Repeated phrases of the document, ordered by reading position and then surface.
pub open spec fn spec_ngrams(sentences: Seq<SentenceUnit>) -> Seq<RawView> {
    let ws = all_windows(sentences);
    stable_sorted::<RawTermOccurrence, ReadingOrder>(repeated_upto(ws, ws.len() as int))
}

fn two_cjk(s: &str) -> (r: bool)
    ensures
        r == has_two_cjk(s@),
{
    let c = chars_of(s);
    let mut first: usize = 0;
    while first < c.len() && !is_cjk(c[first])
        invariant
            first <= c@.len(),
            c@ == s@,
            forall|k: int| 0 <= k < first ==> !is_cjk(#[trigger] c@[k]),
        decreases c@.len() - first,
    {
        first = first + 1;
    }
    if first == c.len() {
        return false;
    }
    let mut second = first + 1;
    while second < c.len() && !is_cjk(c[second])
        invariant
            first < second <= c@.len(),
            c@ == s@,
            is_cjk(c@[first as int]),
            forall|k: int| 0 <= k < first ==> !is_cjk(#[trigger] c@[k]),
            forall|k: int| first < k < second ==> !is_cjk(#[trigger] c@[k]),
        decreases c@.len() - second,
    {
        second = second + 1;
    }
    if second < c.len() {
        return true;
    }
    proof {
        assert forall|i: int, j: int| 0 <= i < j < s@.len() && is_cjk(#[trigger] s@[i]) implies !is_cjk(
            #[trigger] s@[j],
        ) by {
            assert(c@[i] == s@[i]);
        }
    }
    false
}

fn nominal(t: &Token) -> (r: bool)
    ensures
        r == is_nominal(*t),
{
    match t.pos {
        PosTag::Noun | PosTag::Adjective => true,
        _ => false,
    }
}

fn qualifies(sentence: &SentenceUnit, st: usize, en: usize) -> (r: bool)
    requires
        st < en <= sentence.tokens@.len(),
    ensures
        r == tokens_qualify(*sentence, st as int, en as int),
{
    let ghost ts = sentence.tokens@;
    let mut k = st;
    while k < en
        invariant
            st <= k <= en <= ts.len(),
            ts == sentence.tokens@,
            forall|m: int| st <= m < k ==> #[trigger] fits_window(*sentence, ts[m]),
        decreases en - k,
    {
        let t = &sentence.tokens[k];
        assert(ts[k as int] == *t);
        if !(nominal(t) && t.location.block == sentence.location.block && sentence.location.range.start
            <= t.location.range.start && t.location.range.start <= t.location.range.end
            && t.location.range.end <= sentence.location.range.end) {
            assert(!fits_window(*sentence, ts[k as int]));
            return false;
        }
        k = k + 1;
    }
    let mut k = st;
    while k + 1 < en
        invariant
            st <= k < en <= ts.len(),
            ts == sentence.tokens@,
            forall|m: int| st <= m < en ==> #[trigger] fits_window(*sentence, ts[m]),
            forall|m: int| st <= m < k ==> #[trigger] joins(ts, m),
        decreases en - k,
    {
        if sentence.tokens[k].location.range.end != sentence.tokens[k + 1].location.range.start {
            assert(!joins(ts, k as int));
            return false;
        }
        k = k + 1;
    }
    let mut k = st;
    while k < en
        invariant
            st <= k <= en <= ts.len(),
            ts == sentence.tokens@,
            forall|m: int| st <= m < en ==> #[trigger] fits_window(*sentence, ts[m]),
            forall|m: int| st <= m < en - 1 ==> #[trigger] joins(ts, m),
            forall|m: int| st <= m < k ==> !#[trigger] token_has_two_cjk(ts[m]),
        decreases en - k,
    {
        if two_cjk(sentence.tokens[k].surface.as_str()) {
            assert(token_has_two_cjk(ts[k as int]));
            return true;
        }
        k = k + 1;
    }
    false
}

/// The phrase of tokens `st..en`, with its location, when it qualifies.
fn window(sentence: &SentenceUnit, chars: &Vec<char>, offsets: &Vec<usize>, st: usize, en: usize) -> (r: Option<
    (String, LocatedRange),
>)
    requires
        st < en <= sentence.tokens@.len(),
        chars@ == sentence.text@,
        offsets@.len() == chars@.len() + 1,
        forall|k: int| 0 <= k <= chars@.len() ==> offsets@[k] == byte_pos(chars@, k),
    ensures
        match r {
            Some(w) => window_at(*sentence, st as int, en as int) == Some((w.0@, w.1)),
            None => window_at(*sentence, st as int, en as int) is None,
        },
{
    if !qualifies(sentence, st, en) {
        return None;
    }
    let a = sentence.tokens[st].location.range.start;
    let b = sentence.tokens[en - 1].location.range.end;
    let base = sentence.location.range.start;
    assert(fits_window(*sentence, sentence.tokens@[st as int]));
    assert(fits_window(*sentence, sentence.tokens@[en - 1]));
    let ia = crate::latex::walk::boundary_index(offsets, Ghost(chars@), a - base);
    let ib = crate::latex::walk::boundary_index(offsets, Ghost(chars@), b - base);
    let (ia, ib) = match (ia, ib) {
        (Some(x), Some(y)) => (x, y),
        _ => return None,
    };
    proof {
        let s = chars@;
        let wa = crate::lint::analysis::char_index(s, (a - base) as int);
        let wb = crate::lint::analysis::char_index(s, (b - base) as int);
        crate::text::unicode::lemma_byte_pos_injective(s, ia as int, wa);
        crate::text::unicode::lemma_byte_pos_injective(s, ib as int, wb);
        if ia > ib {
            crate::text::unicode::lemma_byte_pos_mono(s, ib as int, ia as int);
        } else {
            crate::text::unicode::lemma_byte_pos_mono(s, ia as int, ib as int);
        }
    }
    if ia > ib {
        return None;
    }
    assert(fragment(sentence.text@, (a - base) as int, (b - base) as int) == Some(chars@.subrange(ia as int, ib as int)));
    let n = ib - ia;
    if n < MIN_SCALARS || n > MAX_SCALARS {
        return None;
    }
    let surface = string_of(chars, ia, ib);
    if !super::text::has_cjk(surface.as_str()) {
        return None;
    }
    Some((surface, LocatedRange { block: sentence.location.block, range: a..b }))
}

/// The windows of one sentence, by start token and then by length.
fn sentence_windows(sentence: &SentenceUnit, out: &mut Vec<(String, LocatedRange)>)
    ensures
        window_views(final(out)@) == window_views(old(out)@) + windows_before(
            *sentence,
            sentence.tokens@.len() as int,
        ),
{
    let chars = chars_of(sentence.text.as_str());
    let offsets = byte_offsets(&chars);
    let n = sentence.tokens.len();
    let ghost start = window_views(out@);
    let mut st: usize = 0;
    while st < n
        invariant
            st <= n,
            n == sentence.tokens@.len(),
            chars@ == sentence.text@,
            offsets@.len() == chars@.len() + 1,
            forall|k: int| 0 <= k <= chars@.len() ==> offsets@[k] == byte_pos(chars@, k),
            window_views(out@) == start + windows_before(*sentence, st as int),
        decreases n - st,
    {
        let limit = if n - st >= MAX_WINDOW {
            st + MAX_WINDOW
        } else {
            n
        };
        let ghost before_st = window_views(out@);
        let span = limit - st;
        let mut d: usize = MIN_WINDOW;
        assert(windows_from(*sentence, st as int, st + d - 1) =~= Seq::<(Seq<char>, LocatedRange)>::empty());
        while d <= span
            invariant
                st < n,
                MIN_WINDOW <= d <= span + 1,
                span == limit - st,
                1 <= span <= MAX_WINDOW,
                limit == window_limit(n as int, st as int),
                limit <= n,
                n == sentence.tokens@.len(),
                chars@ == sentence.text@,
                offsets@.len() == chars@.len() + 1,
                forall|k: int| 0 <= k <= chars@.len() ==> offsets@[k] == byte_pos(chars@, k),
                window_views(out@) == before_st + windows_from(*sentence, st as int, st + d - 1),
            decreases span + 1 - d,
        {
            let en = st + d;
            let ghost prev = window_views(out@);
            match window(sentence, &chars, &offsets, st, en) {
                Some(w) => {
                    let ghost wv = (w.0@, w.1);
                    out.push(w);
                    proof {
                        assert(window_views(out@) =~= prev.push(wv));
                    }
                },
                None => {},
            }
            proof {
                assert(window_views(out@) =~= before_st + windows_from(*sentence, st as int, en as int));
            }
            d = d + 1;
        }
        proof {
            assert(st + d - 1 == limit);
            assert(window_views(out@) =~= start + windows_before(*sentence, st + 1));
        }
        st = st + 1;
    }
}

pub open spec fn window_views(ws: Seq<(String, LocatedRange)>) -> Seq<(Seq<char>, LocatedRange)> {
    ws.map_values(|w: (String, LocatedRange)| (w.0@, w.1))
}

fn count_surface(ws: &Vec<(String, LocatedRange)>, surface: &str) -> (r: usize)
    ensures
        r == surface_count(window_views(ws@), surface@),
{
    let ghost wv = window_views(ws@);
    let mut count: usize = 0;
    let mut i: usize = 0;
    while i < ws.len()
        invariant
            i <= ws@.len(),
            wv == window_views(ws@),
            count == surface_count(wv.take(i as int), surface@),
            count <= i,
        decreases ws@.len() - i,
    {
        assert(wv.take(i + 1).drop_last() =~= wv.take(i as int));
        if str_eq(ws[i].0.as_str(), surface) {
            count = count + 1;
        }
        i = i + 1;
    }
    assert(wv.take(i as int) =~= wv);
    count
}

/// Repeated phrases of the document: every window whose surface occurs at
/// least twice, each with the number of occurrences, ordered by reading
/// position and then surface.
pub fn collect(analysis: &DocumentAnalysis) -> (r: Vec<RawTermOccurrence>)
    ensures
        views(r@) == spec_ngrams(analysis.spec_sentences()),
{
    let sentences = analysis.sentence_list();
    let ghost ss = analysis.spec_sentences();
    let mut ws: Vec<(String, LocatedRange)> = Vec::new();
    let mut k: usize = 0;
    assert(ss.take(0) =~= Seq::<SentenceUnit>::empty());
    while k < sentences.len()
        invariant
            k <= sentences@.len(),
            sentences@.len() == ss.len(),
            forall|i: int| 0 <= i < sentences@.len() ==> *(#[trigger] sentences@[i]) == ss[i],
            window_views(ws@) == all_windows(ss.take(k as int)),
        decreases sentences@.len() - k,
    {
        sentence_windows(sentences[k], &mut ws);
        proof {
            assert(ss.take(k + 1).drop_last() =~= ss.take(k as int));
            assert(ss.take(k + 1).last() == ss[k as int]);
        }
        k = k + 1;
    }
    assert(ss.take(k as int) =~= ss);
    let ghost wv = window_views(ws@);
    let mut occurrences: Vec<RawTermOccurrence> = Vec::new();
    let mut i: usize = 0;
    while i < ws.len()
        invariant
            i <= ws@.len(),
            wv == window_views(ws@),
            views(occurrences@) == repeated_upto(wv, i as int),
        decreases ws@.len() - i,
    {
        let count = count_surface(&ws, ws[i].0.as_str());
        assert(wv[i as int] == (ws@[i as int].0@, ws@[i as int].1));
        if count >= 2 {
            let o = RawTermOccurrence {
                surface: ws[i].0.clone(),
                location: ws[i].1.copy(),
                evidence: vec![TermCandidateEvidence::RepeatedNgram { occurrences: count }],
            };
            let ghost before = occurrences@;
            occurrences.push(o);
            proof {
                crate::order::lemma_views_push(before, o);
                assert(o@.evidence =~= seq![TermCandidateEvidence::RepeatedNgram { occurrences: count }]);
                assert(views(occurrences@) =~= repeated_upto(wv, i + 1));
            }
        } else {
            assert(repeated_upto(wv, i + 1) =~= repeated_upto(wv, i as int));
        }
        i = i + 1;
    }
    stable_sort::<RawTermOccurrence, ReadingOrder>(occurrences)
}

} // verus!
