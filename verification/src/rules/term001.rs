//! TERM001: configured replacements for wrong spellings of terms.
use super::{concat, joined_pieces, Rule};
use crate::config::Level;
use crate::latex::parser::{spec_source_span, Document};
use crate::lint::context::LintContext;
use crate::lint::diagnostic::{Diagnostic, DiagnosticView, SpanOrder};
use crate::lint::terms::lexicon_occurrences::matches_at;
use crate::nlp::jieba_analyzer::{find_from, lemma_find_from};
use crate::order::{
    lemma_text_irreflexive, lemma_text_total, lemma_text_trans, stable_sort, stable_sorted, text_le, text_less,
    text_lt, views, Order,
};
use crate::rule_id::RuleId;
use crate::rules::case001::{case_covered, lexicon_case_covered};
use crate::text::lexicon::LexemeView;
use crate::text::unicode::{byte_offsets, byte_pos, chars_of};
use vstd::prelude::*;

verus! {

pub struct Term001;

/// Where non-overlapping occurrences of `w` start, searching from
/// character `from`; an empty `w` occurs at every character boundary.
pub open spec fn match_starts(s: Seq<char>, w: Seq<char>, from: int) -> Seq<int>
    decreases s.len() + 1 - from,
{
    if from < 0 || from > s.len() {
        Seq::empty()
    } else {
        match find_from(s, w, from) {
            Some(k) => {
                proof {
                    lemma_find_from(s, w, from);
                }
                seq![k] + match_starts(s, w, if w.len() == 0 { k + 1 } else { k + w.len() })
            },
            None => Seq::empty(),
        }
    }
}

/// Replacement pairs ordered by the wrong spelling.
pub struct WrongOrder;

impl Order<(String, String)> for WrongOrder {
    open spec fn ordered(a: (Seq<char>, Seq<char>), b: (Seq<char>, Seq<char>)) -> bool {
        text_le(a.0, b.0)
    }

    fn le(a: &(String, String), b: &(String, String)) -> (r: bool) {
        proof {
            lemma_text_total(a.0@, b.0@);
            lemma_text_irreflexive(a.0@);
            if text_lt(a.0@, b.0@) && text_lt(b.0@, a.0@) {
                lemma_text_trans(a.0@, b.0@, a.0@);
            }
        }
        !text_less(b.0.as_str(), a.0.as_str())
    }

    proof fn lemma_total(a: (Seq<char>, Seq<char>), b: (Seq<char>, Seq<char>)) {
        lemma_text_total(a.0, b.0);
    }

    proof fn lemma_trans(a: (Seq<char>, Seq<char>), b: (Seq<char>, Seq<char>), c: (Seq<char>, Seq<char>)) {
        if text_lt(a.0, b.0) && text_lt(b.0, c.0) {
            lemma_text_trans(a.0, b.0, c.0);
        }
    }
}

pub open spec fn term001_message(wrong: Seq<char>, right: Seq<char>) -> Seq<char> {
    "use `"@ + right + "` instead of `"@ + wrong + "`"@
}

/// The findings of the first `k` matches of one replacement in block `b`.
pub open spec fn pair_matches(
    doc: Document,
    b: int,
    pair: (Seq<char>, Seq<char>),
    level: Level,
    k: int,
) -> Seq<DiagnosticView>
    decreases k,
{
    if k <= 0 {
        Seq::empty()
    } else {
        let s = doc.blocks@[b].text@;
        let st = match_starts(s, pair.0, 0)[k - 1];
        pair_matches(doc, b, pair, level, k - 1) + match spec_source_span(
            doc,
            doc.blocks@[b],
            byte_pos(s, st) as int,
            byte_pos(s, st + pair.0.len()) as int,
        ) {
            Some(span) => seq![
                DiagnosticView { rule: RuleId::Term001, severity: level, message: term001_message(pair.0, pair.1), span },
            ],
            None => Seq::empty(),
        }
    }
}

/// The findings of the first `p` replacements in block `b`.
pub open spec fn block_matches(
    doc: Document,
    b: int,
    pairs: Seq<(Seq<char>, Seq<char>)>,
    level: Level,
    p: int,
) -> Seq<DiagnosticView>
    decreases p,
{
    if p <= 0 {
        Seq::empty()
    } else {
        block_matches(doc, b, pairs, level, p - 1) + pair_matches(
            doc,
            b,
            pairs[p - 1],
            level,
            match_starts(doc.blocks@[b].text@, pairs[p - 1].0, 0).len() as int,
        )
    }
}

/// The replacements TERM001 keeps: those whose wrong spelling is not a case
/// variant that CASE001 already reports against the lexicon, in order.
pub open spec fn uncovered_pairs(ls: Seq<LexemeView>, pairs: Seq<(Seq<char>, Seq<char>)>) -> Seq<
    (Seq<char>, Seq<char>),
>
    decreases pairs.len(),
{
    if pairs.len() == 0 {
        Seq::empty()
    } else {
        uncovered_pairs(ls, pairs.drop_last()) + if case_covered(ls, pairs.last().0) {
            Seq::empty()
        } else {
            seq![pairs.last()]
        }
    }
}

/// The findings of the first `n` blocks, before ordering.
pub open spec fn term001_findings(doc: Document, pairs: Seq<(Seq<char>, Seq<char>)>, level: Level, n: int) -> Seq<
    DiagnosticView,
>
    decreases n,
{
    if n <= 0 {
        Seq::empty()
    } else {
        term001_findings(doc, pairs, level, n - 1) + block_matches(doc, n - 1, pairs, level, pairs.len() as int)
    }
}

/// The character indices where non-overlapping matches of `w` start.
fn starts_of(s: &Vec<char>, w: &Vec<char>) -> (r: Vec<usize>)
    requires
        s@.len() < usize::MAX,
    ensures
        r@.len() == match_starts(s@, w@, 0).len(),
        forall|k: int| 0 <= k < r@.len() ==> r@[k] == match_starts(s@, w@, 0)[k],
{
    let mut out: Vec<usize> = Vec::new();
    let mut from: usize = 0;
    let ghost full = match_starts(s@, w@, 0);
    let slen = s.len();
    assert(out@.map_values(|x: usize| x as int) =~= Seq::<int>::empty());
    assert(full =~= out@.map_values(|x: usize| x as int) + match_starts(s@, w@, from as int));
    loop
        invariant
            from <= s@.len() + 1,
            slen == s@.len(),
            slen < usize::MAX,
            full == match_starts(s@, w@, 0),
            full == out@.map_values(|x: usize| x as int) + match_starts(s@, w@, from as int),
        decreases s@.len() + 1 - from,
    {
        if from > slen {
            proof {
                assert(full =~= out@.map_values(|x: usize| x as int));
                assert forall|k: int| 0 <= k < out@.len() implies out@[k] == full[k] by {
                    assert(out@.map_values(|x: usize| x as int)[k] == out@[k] as int);
                }
            }
            return out;
        }
        let mut k = from;
        let mut found = false;
        while k <= slen && !found
            invariant
                from <= k <= s@.len() + 1,
                slen == s@.len(),
                slen < usize::MAX,
                find_from(s@, w@, from as int) == if found {
                    Some(k as int)
                } else if k <= s@.len() {
                    find_from(s@, w@, k as int)
                } else {
                    None::<int>
                },
            decreases s@.len() + 1 - k + if found { 0int } else { 1int },
        {
            proof {
                if w@.len() == 0 {
                    assert(s@.subrange(k as int, k as int) =~= w@);
                }
            }
            if matches_at(s, k, w) {
                found = true;
            } else {
                k = k + 1;
            }
        }
        if !found {
            proof {
                assert(match_starts(s@, w@, from as int) =~= Seq::<int>::empty());
                assert(full =~= out@.map_values(|x: usize| x as int));
                assert forall|j: int| 0 <= j < out@.len() implies out@[j] == full[j] by {
                    assert(out@.map_values(|x: usize| x as int)[j] == out@[j] as int);
                }
            }
            return out;
        }
        proof {
            lemma_find_from(s@, w@, from as int);
        }
        let ghost before = out@;
        out.push(k);
        let next = if w.len() == 0 { k + 1 } else { k + w.len() };
        proof {
            let rest = match_starts(s@, w@, next as int);
            assert(match_starts(s@, w@, from as int) == seq![k as int] + rest);
            assert(out@.map_values(|x: usize| x as int) =~= before.map_values(|x: usize| x as int).push(k as int));
            assert(full =~= out@.map_values(|x: usize| x as int) + rest);
        }
        from = next;
    }
}

fn message_of(wrong: &str, right: &str) -> (m: String)
    ensures
        m@ == term001_message(wrong@, right@),
{
    let pieces: [&str; 5] = ["use `", right, "` instead of `", wrong, "`"];
    let m = concat(&pieces);
    proof {
        reveal_strlit("use `");
        reveal_strlit("` instead of `");
        reveal_strlit("`");
        let ps = pieces@.map_values(|p: &str| p@);
        reveal_with_fuel(joined_pieces, 6);
        assert(ps.drop_last().drop_last().drop_last().drop_last().drop_last() =~= Seq::<Seq<char>>::empty());
        assert(joined_pieces(ps) =~= term001_message(wrong@, right@));
    }
    m
}

impl Term001 {
    /// Every match of a configured wrong spelling, block by block and
    /// replacement by replacement (ordered by the wrong spelling), then
    /// ordered by file and position. A wrong spelling that CASE001 reports
    /// as a case variant of a lexicon canonical is left to that rule, so one
    /// surface is never reported twice.
    pub fn findings(&self, context: &LintContext) -> (r: Vec<Diagnostic>)
        requires
            context.well_formed(),
        ensures
            context.spec_config().rules.term001.level == Level::Off ==> r@.len() == 0,
            context.spec_config().rules.term001.level != Level::Off ==> views(r@) == stable_sorted::<Diagnostic, SpanOrder>(
                term001_findings(
                    context.spec_document(),
                    uncovered_pairs(
                        context.spec_lexicon()@,
                        stable_sorted::<(String, String), WrongOrder>(views(context.spec_config().rules.term001.replace@)),
                    ),
                    context.spec_config().rules.term001.level,
                    context.spec_document().blocks@.len() as int,
                ),
            ),
    {
        let rule = &context.config().rules.term001;
        let level = rule.level;
        if !level.is_enabled() {
            return Vec::new();
        }
        let document = context.document();
        let ghost doc = context.spec_document();
        let mut copies: Vec<(String, String)> = Vec::new();
        let mut i: usize = 0;
        while i < rule.replace.len()
            invariant
                i <= rule.replace@.len(),
                views(copies@) == views(rule.replace@).take(i as int),
            decreases rule.replace@.len() - i,
        {
            let pair = (rule.replace[i].0.clone(), rule.replace[i].1.clone());
            let ghost before = copies@;
            copies.push(pair);
            proof {
                crate::order::lemma_views_push(before, pair);
                assert(views(rule.replace@).take(i + 1) =~= views(rule.replace@).take(i as int).push(rule.replace@[i as int]@));
            }
            i = i + 1;
        }
        assert(views(rule.replace@).take(i as int) =~= views(rule.replace@));
        let sorted = stable_sort::<(String, String), WrongOrder>(copies);
        let ghost sv = views(sorted@);
        let lexicon = context.lexicon();
        let mut pairs: Vec<(String, String)> = Vec::new();
        let mut q: usize = 0;
        while q < sorted.len()
            invariant
                q <= sv.len(),
                sv == views(sorted@),
                *lexicon == context.spec_lexicon(),
                views(pairs@) == uncovered_pairs(lexicon@, sv.take(q as int)),
            decreases sv.len() - q,
        {
            assert(sv.take(q + 1).drop_last() =~= sv.take(q as int));
            assert(sv[q as int] == sorted@[q as int]@);
            if !lexicon_case_covered(lexicon, sorted[q].0.as_str()) {
                let pair = (sorted[q].0.clone(), sorted[q].1.clone());
                let ghost before = pairs@;
                pairs.push(pair);
                proof {
                    crate::order::lemma_views_push(before, pair);
                }
            }
            q = q + 1;
        }
        assert(sv.take(q as int) =~= sv);
        let ghost pv = views(pairs@);
        let mut diagnostics: Vec<Diagnostic> = Vec::new();
        let mut b: usize = 0;
        while b < document.blocks.len()
            invariant
                b <= doc.blocks@.len(),
                *document == doc,
                context.well_formed(),
                context.spec_document() == doc,
                pv == views(pairs@),
                views(diagnostics@) == term001_findings(doc, pv, level, b as int),
            decreases doc.blocks@.len() - b,
        {
            let block = &document.blocks[b];
            let s = chars_of(block.text.as_str());
            proof {
                crate::text::unicode::lemma_len_le_byte_len(s@);
                assert(crate::lint::analysis::blocks_fit(doc.blocks@));
                assert(crate::text::unicode::byte_len(doc.blocks@[b as int].text@) < usize::MAX);
            }
            let offsets = byte_offsets(&s);
            let ghost base = views(diagnostics@);
            let mut p: usize = 0;
            while p < pairs.len()
                invariant
                    p <= pv.len(),
                    b < doc.blocks@.len(),
                    *block == doc.blocks@[b as int],
                    *document == doc,
                    context.well_formed(),
                    context.spec_document() == doc,
                    pv == views(pairs@),
                    s@ == doc.blocks@[b as int].text@,
                    s@.len() < usize::MAX,
                    offsets@.len() == s@.len() + 1,
                    forall|j: int| 0 <= j <= s@.len() ==> offsets@[j] == byte_pos(s@, j),
                    views(diagnostics@) == base + block_matches(doc, b as int, pv, level, p as int),
                decreases pv.len() - p,
            {
                let wrong = chars_of(pairs[p].0.as_str());
                assert(pv[p as int] == pairs@[p as int]@);
                let starts = starts_of(&s, &wrong);
                let ghost base_p = views(diagnostics@);
                let mut m: usize = 0;
                while m < starts.len()
                    invariant
                        m <= starts@.len(),
                        p < pv.len(),
                        b < doc.blocks@.len(),
                        *block == doc.blocks@[b as int],
                        *document == doc,
                        context.well_formed(),
                        context.spec_document() == doc,
                        pv == views(pairs@),
                        wrong@ == pv[p as int].0,
                        s@ == doc.blocks@[b as int].text@,
                        s@.len() < usize::MAX,
                        offsets@.len() == s@.len() + 1,
                        forall|j: int| 0 <= j <= s@.len() ==> offsets@[j] == byte_pos(s@, j),
                        starts@.len() == match_starts(s@, wrong@, 0).len(),
                        forall|k: int| 0 <= k < starts@.len() ==> starts@[k] == match_starts(s@, wrong@, 0)[k],
                        views(diagnostics@) == base_p + pair_matches(doc, b as int, pv[p as int], level, m as int),
                    decreases starts@.len() - m,
                {
                    let st = starts[m];
                    proof {
                        lemma_match_starts_fit(s@, wrong@, 0, m as int);
                    }
                    let ghost prev = diagnostics@;
                    match document.source_span(block, offsets[st]..offsets[st + wrong.len()]) {
                        Some(span) => {
                            let d = Diagnostic {
                                rule: RuleId::Term001,
                                severity: level,
                                message: message_of(pairs[p].0.as_str(), pairs[p].1.as_str()),
                                span,
                            };
                            diagnostics.push(d);
                            proof {
                                crate::order::lemma_views_push(prev, d);
                            }
                        },
                        None => {},
                    }
                    proof {
                        assert(views(diagnostics@) =~= base_p + pair_matches(doc, b as int, pv[p as int], level, m + 1));
                    }
                    m = m + 1;
                }
                proof {
                    assert(views(diagnostics@) =~= base + block_matches(doc, b as int, pv, level, p + 1));
                }
                p = p + 1;
            }
            b = b + 1;
        }
        stable_sort::<Diagnostic, SpanOrder>(diagnostics)
    }
}

/// Every match lies within the text.
proof fn lemma_match_starts_fit(s: Seq<char>, w: Seq<char>, from: int, k: int)
    requires
        0 <= k < match_starts(s, w, from).len(),
    ensures
        from <= match_starts(s, w, from)[k],
        match_starts(s, w, from)[k] + w.len() <= s.len(),
    decreases s.len() + 1 - from,
{
    lemma_find_from(s, w, from);
    if k > 0 {
        let first = find_from(s, w, from).unwrap();
        let next = if w.len() == 0 { first + 1 } else { first + w.len() };
        lemma_match_starts_fit(s, w, next, k - 1);
    }
}

impl Rule for Term001 {
    fn id(&self) -> (r: RuleId)
        ensures
            r == RuleId::Term001,
    {
        RuleId::Term001
    }

    fn check(&self, context: &LintContext) -> (r: Vec<Diagnostic>)
        ensures
            context.spec_config().rules.term001.level == Level::Off ==> r@.len() == 0,
            context.spec_config().rules.term001.level != Level::Off ==> views(r@) == stable_sorted::<Diagnostic, SpanOrder>(
                term001_findings(
                    context.spec_document(),
                    uncovered_pairs(
                        context.spec_lexicon()@,
                        stable_sorted::<(String, String), WrongOrder>(views(context.spec_config().rules.term001.replace@)),
                    ),
                    context.spec_config().rules.term001.level,
                    context.spec_document().blocks@.len() as int,
                ),
            ),
    {
        self.findings(context)
    }
}

/// `w` occurs in `s` at character `i`.
pub open spec fn occurs_at(s: Seq<char>, w: Seq<char>, i: int) -> bool {
    0 <= i && i + w.len() <= s.len() && s.subrange(i, i + w.len()) == w
}

/// The first place found from `from` is the first occurrence there.
proof fn lemma_find_from_first(s: Seq<char>, w: Seq<char>, from: int, i: int)
    requires
        0 <= from <= i,
        occurs_at(s, w, i),
    ensures
        find_from(s, w, from) matches Some(k) && k <= i,
    decreases s.len() - from,
{
    if !(w.len() == 0 || s.subrange(from, from + w.len()) == w) {
        if from == i {
            assert(false);
        }
        lemma_find_from_first(s, w, from + 1, i);
    }
}

proof fn lemma_match_starts_greedy(s: Seq<char>, w: Seq<char>, from: int)
    requires
        0 <= from,
        w.len() > 0,
    ensures
        forall|k: int|
            0 <= k < match_starts(s, w, from).len() ==> from <= #[trigger] match_starts(s, w, from)[k]
                && occurs_at(s, w, match_starts(s, w, from)[k]),
        forall|k: int|
            0 <= k < match_starts(s, w, from).len() - 1 ==> #[trigger] match_starts(s, w, from)[k] + w.len()
                <= match_starts(s, w, from)[k + 1],
        forall|i: int|
            from <= i && #[trigger] occurs_at(s, w, i) ==> exists|k: int|
                0 <= k < match_starts(s, w, from).len() && #[trigger] match_starts(s, w, from)[k] <= i < match_starts(
                    s,
                    w,
                    from,
                )[k] + w.len(),
    decreases s.len() + 1 - from,
{
    let l = match_starts(s, w, from);
    if from > s.len() {
        assert forall|i: int| from <= i && #[trigger] occurs_at(s, w, i) implies exists|k: int|
            0 <= k < l.len() && #[trigger] l[k] <= i < l[k] + w.len() by {
        }
    } else {
        lemma_find_from(s, w, from);
        match find_from(s, w, from) {
            Some(k0) => {
                let next = k0 + w.len();
                lemma_match_starts_greedy(s, w, next);
                let rest = match_starts(s, w, next);
                assert(l == seq![k0] + rest);
                assert forall|k: int| 0 <= k < l.len() implies from <= #[trigger] l[k] && occurs_at(s, w, l[k]) by {
                    if k > 0 {
                        assert(l[k] == rest[k - 1]);
                    }
                }
                assert forall|k: int| 0 <= k < l.len() - 1 implies #[trigger] l[k] + w.len() <= l[k + 1] by {
                    assert(l[k + 1] == rest[k]);
                    if k > 0 {
                        assert(l[k] == rest[k - 1]);
                    }
                }
                assert forall|i: int| from <= i && #[trigger] occurs_at(s, w, i) implies exists|k: int|
                    0 <= k < l.len() && #[trigger] l[k] <= i < l[k] + w.len() by {
                    lemma_find_from_first(s, w, from, i);
                    if i < next {
                        assert(l[0] == k0);
                    } else {
                        let j = choose|j: int| 0 <= j < rest.len() && #[trigger] rest[j] <= i < rest[j] + w.len();
                        assert(l[j + 1] == rest[j]);
                    }
                }
            },
            None => {
                assert forall|i: int| from <= i && #[trigger] occurs_at(s, w, i) implies exists|k: int|
                    0 <= k < l.len() && #[trigger] l[k] <= i < l[k] + w.len() by {
                    lemma_find_from_first(s, w, from, i);
                }
            },
        }
    }
}

/// The matches of a (non-empty) wrong spelling are found as `str::match_indices`
/// finds them, scanning left to right: each listed start is an occurrence,
/// each listed match ends at or before the next one starts, and every
/// occurrence of the spelling is listed or overlaps a listed match. So every
/// occurrence that does not overlap an earlier match is reported.
pub proof fn lemma_every_occurrence_is_matched(s: Seq<char>, w: Seq<char>)
    requires
        w.len() > 0,
    ensures
        forall|k: int| 0 <= k < match_starts(s, w, 0).len() ==> occurs_at(s, w, #[trigger] match_starts(s, w, 0)[k]),
        forall|k: int|
            0 <= k < match_starts(s, w, 0).len() - 1 ==> #[trigger] match_starts(s, w, 0)[k] + w.len()
                <= match_starts(s, w, 0)[k + 1],
        forall|i: int|
            #[trigger] occurs_at(s, w, i) ==> exists|k: int|
                0 <= k < match_starts(s, w, 0).len() && #[trigger] match_starts(s, w, 0)[k] <= i
                    < match_starts(s, w, 0)[k] + w.len(),
{
    lemma_match_starts_greedy(s, w, 0);
}

/// An empty spelling matches at every character boundary, once each, in order.
pub proof fn lemma_empty_spelling_matches_every_boundary(s: Seq<char>, w: Seq<char>, from: int)
    requires
        w.len() == 0,
        0 <= from <= s.len() + 1,
    ensures
        match_starts(s, w, from).len() == s.len() + 1 - from,
        forall|k: int| 0 <= k < match_starts(s, w, from).len() ==> #[trigger] match_starts(s, w, from)[k] == from + k,
    decreases s.len() + 1 - from,
{
    if from <= s.len() {
        lemma_empty_spelling_matches_every_boundary(s, w, from + 1);
        let l = match_starts(s, w, from);
        let rest = match_starts(s, w, from + 1);
        assert(find_from(s, w, from) == Some(from));
        assert(l == seq![from] + rest);
        assert forall|k: int| 0 <= k < l.len() implies #[trigger] l[k] == from + k by {
            if k > 0 {
                assert(l[k] == rest[k - 1]);
            }
        }
    }
}

} // verus!
