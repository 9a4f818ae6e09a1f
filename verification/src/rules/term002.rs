//! TERM002: configured terms must be explained near their first use.
//!
//! For each canonical form whose lexeme requires an explanation and whose
//! kind is not common, exactly the first occurrence in reading order is
//! inspected. It counts as explained when it takes part in a structured
//! acronym definition of its block, or when a trigger phrase is anchored to
//! it within `context_chars` characters: Chinese `X是/是指/指的是/指/即/
//! 定义为/表示` (only whitespace or `，,:：` between X and the trigger),
//! `所谓X`, `称X为`; English `X refers to/is defined as/denotes/stands for`,
//! `X (also known as`, `X, i.e.,`, `X:`.
use super::{concat, joined_pieces, Rule};
use crate::config::Level;
use crate::latex::loader::fragment;
use crate::latex::parser::Document;
use crate::lint::analysis::{char_index, is_char_boundary};
use crate::lint::context::{block_span, LintContext};
use crate::lint::diagnostic::{Diagnostic, DiagnosticView, SpanOrder};
use crate::lint::terms::acronyms::{AcronymDefinitionEntry, DefinitionEntryView};
use crate::lint::terms::candidates::prune::contains_text;
use crate::lint::terms::lexicon_occurrences::{matches_at, LexiconOccurrence, OccurrenceView};
use crate::order::{stable_sort, stable_sorted, views};
use crate::rule_id::RuleId;
use crate::text::lexicon::LexemeKind;
use crate::text::terminology::opt_text;
use crate::text::unicode::{
    byte_len, byte_offsets, byte_pos, chars_of, is_ascii_lower, is_whitespace, str_eq, sub_chars,
};
use vstd::prelude::*;

verus! {

pub struct Term002;

/// Index of the last character boundary at or before byte `b`.
pub open spec fn floor_index(s: Seq<char>, b: int) -> int {
    choose|i: int| 0 <= i <= s.len() && #[trigger] byte_pos(s, i) <= b && (i == s.len() || byte_pos(s, i + 1) > b)
}

/// Byte offset `context_chars` characters before `from`, clamped to the text.
pub open spec fn spec_backward(s: Seq<char>, from: int, n: int) -> int {
    let b = if from < byte_len(s) { from } else { byte_len(s) as int };
    let i = floor_index(s, b);
    if n == 0 {
        b
    } else if byte_pos(s, i) == b {
        byte_pos(s, if i - n > 0 { i - n } else { 0 }) as int
    } else {
        byte_pos(s, if i - (n - 1) > 0 { i - (n - 1) } else { 0 }) as int
    }
}

/// Byte offset `context_chars` characters after `from`, clamped to the text.
pub open spec fn spec_forward(s: Seq<char>, from: int, n: int) -> int {
    let b = if from < byte_len(s) { from } else { byte_len(s) as int };
    let i = floor_index(s, b);
    if n == 0 {
        b
    } else {
        byte_pos(s, if i + n < s.len() { i + n } else { s.len() as int }) as int
    }
}

/// The first non-whitespace index at or after `i`.
pub open spec fn ws_end(a: Seq<char>, i: int) -> int
    decreases a.len() - i,
{
    if i < 0 || i >= a.len() || !is_whitespace(a[i]) {
        i
    } else {
        ws_end(a, i + 1)
    }
}

/// `p` occurs at index `k` of `a`.
pub open spec fn lit(a: Seq<char>, k: int, p: Seq<char>) -> bool {
    0 <= k && k + p.len() <= a.len() && a.subrange(k, k + p.len()) == p
}

/// `c` matches the lowercase letter or symbol `l` ignoring case, as a
/// case-insensitive regular expression does (`ſ` is an `s`, the Kelvin
/// sign a `k`).
pub open spec fn ci_eq(c: char, l: char) -> bool {
    c == l || (is_ascii_lower(l) && c as u32 == l as u32 - 32) || (l == 's' && c == 'ſ') || (l == 'k' && c
        == '\u{212A}')
}

/// `p` occurs at index `k` of `a` ignoring case.
pub open spec fn ci_lit(a: Seq<char>, k: int, p: Seq<char>) -> bool {
    0 <= k && k + p.len() <= a.len() && forall|j: int| 0 <= j < p.len() ==> ci_eq(#[trigger] a[k + j], p[j])
}

/// Two words separated by at least one whitespace character, ignoring case.
pub open spec fn ci_pair(a: Seq<char>, k: int, w1: Seq<char>, w2: Seq<char>) -> bool {
    ci_lit(a, k, w1) && ws_end(a, k + w1.len()) > k + w1.len() && ci_lit(a, ws_end(a, k + w1.len()), w2)
}

/// Three words separated by whitespace, ignoring case.
pub open spec fn ci_triple(a: Seq<char>, k: int, w1: Seq<char>, w2: Seq<char>, w3: Seq<char>) -> bool {
    ci_pair(a, k, w1, w2) && ci_pair(a, ws_end(a, k + w1.len()), w2, w3)
}

/// An English explanation phrase at index `k`.
pub open spec fn english_trigger_at(a: Seq<char>, k: int) -> bool {
    ||| ci_pair(a, k, "refers"@, "to"@)
    ||| ci_triple(a, k, "is"@, "defined"@, "as"@)
    ||| ci_lit(a, k, "denotes"@)
    ||| ci_pair(a, k, "stands"@, "for"@)
    ||| (lit(a, k, "("@) && ci_triple(a, ws_end(a, k + 1), "also"@, "known"@, "as"@))
    ||| ci_lit(a, k, "i.e.,"@)
}

/// An explanation phrase at index `k`.
pub open spec fn trigger_at(a: Seq<char>, k: int) -> bool {
    ||| lit(a, k, "是指"@)
    ||| lit(a, k, "指的是"@)
    ||| lit(a, k, "定义为"@)
    ||| lit(a, k, "表示"@)
    ||| lit(a, k, "即"@)
    ||| lit(a, k, "指"@)
    ||| lit(a, k, "是"@)
    ||| english_trigger_at(a, k)
    ||| (0 <= k < a.len() && (a[k] == ':' || a[k] == '：'))
}

/// What may separate a term from a trigger after it.
pub open spec fn is_gap(c: char) -> bool {
    is_whitespace(c) || c == '，' || c == ',' || c == ':' || c == '：'
}

/// The text after a term opens with an explanation phrase, after a gap.
pub open spec fn is_forward_trigger(a: Seq<char>) -> bool {
    exists|k: int|
        0 <= k <= a.len() && (forall|j: int| 0 <= j < k ==> is_gap(#[trigger] a[j])) && #[trigger] trigger_at(a, k)
}

/// Start of the trailing whitespace of `b`.
pub open spec fn trailing_start(b: Seq<char>, e: int) -> int
    decreases e,
{
    if e <= 0 || !is_whitespace(b[e - 1]) {
        e
    } else {
        trailing_start(b, e - 1)
    }
}

/// The text before ends with `p`, then whitespace only.
pub open spec fn ends_with_marker(b: Seq<char>, p: Seq<char>) -> bool {
    let e = trailing_start(b, b.len() as int);
    e >= p.len() && b.subrange(e - p.len(), e) == p
}

/// The text after starts with `为`, after whitespace.
pub open spec fn called_suffix(a: Seq<char>) -> bool {
    ws_end(a, 0) < a.len() && a[ws_end(a, 0)] == '为'
}

/// A trigger anchored to the term: after it, `所谓` before it, or `称` before and `为` after.
pub open spec fn anchored(before: Seq<char>, after: Seq<char>) -> bool {
    is_forward_trigger(after) || ends_with_marker(before, "所谓"@) || (ends_with_marker(before, "称"@) && called_suffix(
        after,
    ))
}

/// The definition declares the surface in one of its full forms.
pub open spec fn declares_surface(d: DefinitionEntryView, surface: Seq<char>) -> bool {
    (d.chinese matches Some(c) && contains_text(c, surface)) || (d.english matches Some(e) && contains_text(e, surface))
}

/// The occurrence takes part in a structured acronym definition: it is the
/// acronym, or it stands right before the definition's parentheses (a
/// declared full form) or inner comma (in the English full form).
pub open spec fn structured_match(d: DefinitionEntryView, o: OccurrenceView, text: Seq<char>) -> bool {
    if d.location.block != o.location.block {
        false
    } else if o.location.range == d.location.range {
        true
    } else if o.location.range.end > d.location.range.start {
        false
    } else {
        match fragment(text, o.location.range.end as int, d.location.range.start as int) {
            Some(gap) => {
                let t = gap.skip(ws_end(gap, 0));
                if t.len() > 0 && (t[0] == '(' || t[0] == '（') {
                    declares_surface(d, o.surface)
                } else if t.len() > 0 && (t[0] == ',' || t[0] == '，') {
                    d.english matches Some(e) && contains_text(e, o.surface)
                } else {
                    false
                }
            },
            None => false,
        }
    }
}

/// Whether the first occurrence is explained, in its block's text.
pub open spec fn explained(defs: Seq<DefinitionEntryView>, o: OccurrenceView, text: Seq<char>, n: int) -> bool {
    (exists|i: int| 0 <= i < defs.len() && #[trigger] structured_match(defs[i], o, text)) || {
        let ws = spec_backward(text, o.location.range.start as int, n);
        let we = spec_forward(text, o.location.range.end as int, n);
        match (fragment(text, ws, o.location.range.start as int), fragment(text, o.location.range.end as int, we)) {
            (Some(before), Some(after)) => anchored(before, after),
            _ => false,
        }
    }
}

/// The occurrence needs an explanation.
pub open spec fn needs_explanation(o: OccurrenceView) -> bool {
    o.requires_explanation && o.kind != LexemeKind::Common
}

/// The occurrence is the first of its canonical form among those needing explanation.
pub open spec fn first_needing(os: Seq<OccurrenceView>, k: int) -> bool {
    needs_explanation(os[k]) && forall|j: int|
        0 <= j < k ==> !(needs_explanation(#[trigger] os[j]) && os[j].canonical == os[k].canonical)
}

pub open spec fn term_message(canonical: Seq<char>) -> Seq<char> {
    "technical term `"@ + canonical + "` first used without a nearby explanation"@
}

/// The findings among the first `k` occurrences, in occurrence order.
pub open spec fn term_findings(
    doc: Document,
    os: Seq<OccurrenceView>,
    defs: Seq<DefinitionEntryView>,
    level: Level,
    n: int,
    k: int,
) -> Seq<DiagnosticView>
    decreases k,
{
    if k <= 0 {
        Seq::empty()
    } else {
        let o = os[k - 1];
        let b = o.location.block;
        term_findings(doc, os, defs, level, n, k - 1) + if first_needing(os, k - 1) && !(b < doc.blocks@.len()
            && explained(defs, o, doc.blocks@[b as int].text@, n)) {
            match block_span(doc, b, o.location.range.start as int, o.location.range.end as int) {
                Some(span) => seq![
                    DiagnosticView { rule: RuleId::Term002, severity: level, message: term_message(o.canonical), span },
                ],
                None => Seq::empty(),
            }
        } else {
            Seq::empty()
        }
    }
}

fn floor_of(s: &Vec<char>, offsets: &Vec<usize>, b: usize) -> (i: usize)
    requires
        offsets@.len() == s@.len() + 1,
        forall|k: int| 0 <= k <= s@.len() ==> offsets@[k] == byte_pos(s@, k),
        b <= byte_len(s@),
    ensures
        i == floor_index(s@, b as int),
        0 <= i <= s@.len(),
{
    proof {
        assert(s@.take(s@.len() as int) =~= s@);
    }
    let mut i: usize = 0;
    while i < s.len() && offsets[i + 1] <= b
        invariant
            i <= s@.len(),
            offsets@.len() == s@.len() + 1,
            forall|k: int| 0 <= k <= s@.len() ==> offsets@[k] == byte_pos(s@, k),
            byte_pos(s@, i as int) <= b,
        decreases s@.len() - i,
    {
        i = i + 1;
    }
    proof {
        let w = i as int;
        assert(0 <= w <= s@.len() && byte_pos(s@, w) <= b && (w == s@.len() || byte_pos(s@, w + 1) > b));
        let c = floor_index(s@, b as int);
        if c != w {
            if c < w {
                crate::text::unicode::lemma_byte_pos_mono(s@, c + 1, w);
            } else {
                crate::text::unicode::lemma_byte_pos_mono(s@, w + 1, c);
            }
        }
    }
    i
}

/// Byte offsets of the window of `context_chars` characters on each side
/// of `range`, clamped to the text and to character boundaries.
pub fn window_bounds(text: &str, range: &std::ops::Range<usize>, context_chars: usize) -> (r: (usize, usize))
    ensures
        r.0 == spec_backward(text@, range.start as int, context_chars as int),
        r.1 == spec_forward(text@, range.end as int, context_chars as int),
{
    let s = chars_of(text);
    let offsets = byte_offsets(&s);
    proof {
        crate::text::unicode::lemma_str_len(text);
        assert(s@.take(s@.len() as int) =~= s@);
    }
    let len = offsets[s.len()];
    let bs = if range.start < len { range.start } else { len };
    let be = if range.end < len { range.end } else { len };
    let i = floor_of(&s, &offsets, bs);
    let j = floor_of(&s, &offsets, be);
    let back = if context_chars == 0 {
        bs
    } else if offsets[i] == bs {
        offsets[if i > context_chars { i - context_chars } else { 0 }]
    } else {
        offsets[if i > context_chars - 1 { i - (context_chars - 1) } else { 0 }]
    };
    let forward = if context_chars == 0 {
        be
    } else {
        offsets[if context_chars < s.len() - j { j + context_chars } else { s.len() }]
    };
    (back, forward)
}

fn ws_end_of(a: &Vec<char>, i: usize) -> (e: usize)
    requires
        i <= a@.len(),
    ensures
        e == ws_end(a@, i as int),
        i <= e <= a@.len(),
{
    let mut e = i;
    while e < a.len() && is_whitespace(a[e])
        invariant
            i <= e <= a@.len(),
            ws_end(a@, i as int) == ws_end(a@, e as int),
        decreases a@.len() - e,
    {
        e = e + 1;
    }
    e
}

fn lit_at(a: &Vec<char>, k: usize, p: &str) -> (r: bool)
    requires
        k <= a@.len(),
    ensures
        r == lit(a@, k as int, p@),
{
    let pc = chars_of(p);
    matches_at(a, k, &pc)
}

fn ci_char(c: char, l: char) -> (r: bool)
    ensures
        r == ci_eq(c, l),
{
    c == l || (is_ascii_lower(l) && (c as u32) + 32 == (l as u32)) || (l == 's' && c == 'ſ') || (l == 'k' && c
        == '\u{212A}')
}

fn ci_lit_at(a: &Vec<char>, k: usize, p: &str) -> (r: bool)
    requires
        k <= a@.len(),
    ensures
        r == ci_lit(a@, k as int, p@),
{
    let pc = chars_of(p);
    if pc.len() > a.len() - k {
        return false;
    }
    let mut j: usize = 0;
    while j < pc.len()
        invariant
            j <= pc@.len(),
            k + pc@.len() <= a@.len(),
            k + pc.len() <= a.len(),
            pc@ == p@,
            forall|m: int| 0 <= m < j ==> ci_eq(#[trigger] a@[k + m], pc@[m]),
        decreases pc@.len() - j,
    {
        if !ci_char(a[k + j], pc[j]) {
            return false;
        }
        j = j + 1;
    }
    true
}

fn ci_pair_at(a: &Vec<char>, k: usize, w1: &str, w2: &str) -> (r: bool)
    requires
        k <= a@.len(),
    ensures
        r == ci_pair(a@, k as int, w1@, w2@),
{
    if !ci_lit_at(a, k, w1) {
        return false;
    }
    let l1 = chars_of(w1).len();
    let alen = a.len();
    let m = k + l1;
    let e = ws_end_of(a, m);
    e > m && ci_lit_at(a, e, w2)
}

fn ci_triple_at(a: &Vec<char>, k: usize, w1: &str, w2: &str, w3: &str) -> (r: bool)
    requires
        k <= a@.len(),
    ensures
        r == ci_triple(a@, k as int, w1@, w2@, w3@),
{
    if !ci_pair_at(a, k, w1, w2) {
        return false;
    }
    let l1 = chars_of(w1).len();
    let alen = a.len();
    let e = ws_end_of(a, k + l1);
    ci_pair_at(a, e, w2, w3)
}

fn english_at(a: &Vec<char>, k: usize) -> (r: bool)
    requires
        k <= a@.len(),
    ensures
        r == english_trigger_at(a@, k as int),
{
    if ci_pair_at(a, k, "refers", "to") || ci_triple_at(a, k, "is", "defined", "as") || ci_lit_at(a, k, "denotes")
        || ci_pair_at(a, k, "stands", "for") {
        return true;
    }
    if lit_at(a, k, "(") {
        proof {
            reveal_strlit("(");
        }
        let alen = a.len();
        let e = ws_end_of(a, k + 1);
        if ci_triple_at(a, e, "also", "known", "as") {
            return true;
        }
    }
    ci_lit_at(a, k, "i.e.,")
}

fn trigger_at_exec(a: &Vec<char>, k: usize) -> (r: bool)
    requires
        k <= a@.len(),
    ensures
        r == trigger_at(a@, k as int),
{
    lit_at(a, k, "是指") || lit_at(a, k, "指的是") || lit_at(a, k, "定义为") || lit_at(a, k, "表示") || lit_at(a, k, "即")
        || lit_at(a, k, "指") || lit_at(a, k, "是") || english_at(a, k) || (k < a.len() && (a[k] == ':' || a[k]
        == '：'))
}

fn forward_trigger_exec(a: &Vec<char>) -> (r: bool)
    ensures
        r == is_forward_trigger(a@),
{
    let mut k: usize = 0;
    loop
        invariant
            k <= a@.len(),
            forall|j: int| 0 <= j < k ==> is_gap(#[trigger] a@[j]),
            forall|m: int| 0 <= m < k ==> !#[trigger] trigger_at(a@, m),
        decreases a@.len() - k,
    {
        if trigger_at_exec(a, k) {
            return true;
        }
        if k == a.len() || !(is_whitespace(a[k]) || a[k] == '，' || a[k] == ',' || a[k] == ':' || a[k] == '：') {
            proof {
                assert forall|m: int|
                    0 <= m <= a@.len() && (forall|j: int| 0 <= j < m ==> is_gap(#[trigger] a@[j])) implies !#[trigger] trigger_at(
                    a@,
                    m,
                ) by {
                    if m > k {
                        assert(is_gap(a@[k as int]));
                    }
                }
            }
            return false;
        }
        k = k + 1;
    }
}

/// Whether the text right after a term opens an explanation of it.
pub fn forward_trigger(text: &str) -> (r: bool)
    ensures
        r == is_forward_trigger(text@),
{
    let a = chars_of(text);
    forward_trigger_exec(&a)
}

fn trailing_of(b: &Vec<char>) -> (e: usize)
    ensures
        e == trailing_start(b@, b@.len() as int),
        e <= b@.len(),
{
    let mut e = b.len();
    while e > 0 && is_whitespace(b[e - 1])
        invariant
            e <= b@.len(),
            trailing_start(b@, b@.len() as int) == trailing_start(b@, e as int),
        decreases e,
    {
        e = e - 1;
    }
    e
}

fn ends_with_marker_exec(b: &Vec<char>, p: &str) -> (r: bool)
    ensures
        r == ends_with_marker(b@, p@),
{
    let e = trailing_of(b);
    let pc = chars_of(p);
    if e < pc.len() {
        return false;
    }
    let r = matches_at(b, e - pc.len(), &pc);
    r
}

fn called_suffix_exec(a: &Vec<char>) -> (r: bool)
    ensures
        r == called_suffix(a@),
{
    let e = ws_end_of(a, 0);
    e < a.len() && a[e] == '为'
}

fn contains_str(big: &str, small: &str) -> (r: bool)
    ensures
        r == contains_text(big@, small@),
{
    let b = chars_of(big);
    let s = chars_of(small);
    if s.len() > b.len() {
        return false;
    }
    let last = b.len() - s.len();
    let mut k: usize = 0;
    while k < last
        invariant
            s@.len() <= b@.len(),
            last == b@.len() - s@.len(),
            k <= last,
            b@ == big@,
            s@ == small@,
            forall|m: int| 0 <= m < k ==> #[trigger] b@.subrange(m, m + s@.len()) != s@,
        decreases last - k,
    {
        if matches_at(&b, k, &s) {
            return true;
        }
        k = k + 1;
    }
    matches_at(&b, last, &s)
}

fn phrase_contains(o: &Option<String>, surface: &str) -> (r: bool)
    ensures
        r == (opt_text(*o) matches Some(e) && contains_text(e, surface@)),
{
    match o {
        Some(e) => contains_str(e.as_str(), surface),
        None => false,
    }
}

/// The slice of `s` between two byte offsets, when both are character boundaries.
fn fragment_of(s: &Vec<char>, offsets: &Vec<usize>, a: usize, b: usize) -> (r: Option<Vec<char>>)
    requires
        offsets@.len() == s@.len() + 1,
        forall|k: int| 0 <= k <= s@.len() ==> offsets@[k] == byte_pos(s@, k),
    ensures
        match r {
            Some(f) => fragment(s@, a as int, b as int) == Some(f@),
            None => fragment(s@, a as int, b as int) is None,
        },
{
    let ia = crate::latex::walk::boundary_index(offsets, Ghost(s@), a);
    let ib = crate::latex::walk::boundary_index(offsets, Ghost(s@), b);
    match (ia, ib) {
        (Some(x), Some(y)) => {
            proof {
                let wa = char_index(s@, a as int);
                let wb = char_index(s@, b as int);
                crate::text::unicode::lemma_byte_pos_injective(s@, x as int, wa);
                crate::text::unicode::lemma_byte_pos_injective(s@, y as int, wb);
                if x > y {
                    crate::text::unicode::lemma_byte_pos_mono(s@, y as int, x as int);
                } else {
                    crate::text::unicode::lemma_byte_pos_mono(s@, x as int, y as int);
                }
            }
            if x <= y {
                Some(sub_chars(s, x, y))
            } else {
                None
            }
        },
        _ => None,
    }
}

fn structured_match_exec(
    d: &AcronymDefinitionEntry,
    o: &LexiconOccurrence,
    s: &Vec<char>,
    offsets: &Vec<usize>,
) -> (r: bool)
    requires
        offsets@.len() == s@.len() + 1,
        forall|k: int| 0 <= k <= s@.len() ==> offsets@[k] == byte_pos(s@, k),
    ensures
        r == structured_match(d@, o@, s@),
{
    if d.location.block != o.location.block {
        return false;
    }
    if o.location.range.start == d.location.range.start && o.location.range.end == d.location.range.end {
        return true;
    }
    if o.location.range.end > d.location.range.start {
        return false;
    }
    match fragment_of(s, offsets, o.location.range.end, d.location.range.start) {
        Some(gap) => {
            let e = ws_end_of(&gap, 0);
            let ghost t = gap@.skip(e as int);
            if e < gap.len() && (gap[e] == '(' || gap[e] == '（') {
                assert(t[0] == gap@[e as int]);
                phrase_contains(&d.chinese, o.surface.as_str()) || phrase_contains(&d.english, o.surface.as_str())
            } else if e < gap.len() && (gap[e] == ',' || gap[e] == '，') {
                assert(t[0] == gap@[e as int]);
                phrase_contains(&d.english, o.surface.as_str())
            } else {
                proof {
                    if t.len() > 0 {
                        assert(t[0] == gap@[e as int]);
                    }
                }
                false
            }
        },
        None => false,
    }
}

fn explained_exec(
    defs: &[AcronymDefinitionEntry],
    o: &LexiconOccurrence,
    text: &str,
    context_chars: usize,
) -> (r: bool)
    ensures
        r == explained(views(defs@), o@, text@, context_chars as int),
{
    let s = chars_of(text);
    let offsets = byte_offsets(&s);
    let ghost dv = views(defs@);
    let mut i: usize = 0;
    while i < defs.len()
        invariant
            i <= defs@.len(),
            dv == views(defs@),
            s@ == text@,
            offsets@.len() == s@.len() + 1,
            forall|k: int| 0 <= k <= s@.len() ==> offsets@[k] == byte_pos(s@, k),
            forall|k: int| 0 <= k < i ==> !#[trigger] structured_match(dv[k], o@, text@),
        decreases defs@.len() - i,
    {
        assert(dv[i as int] == defs@[i as int]@);
        if structured_match_exec(&defs[i], o, &s, &offsets) {
            return true;
        }
        i = i + 1;
    }
    let (ws, we) = window_bounds(text, &o.location.range, context_chars);
    let before = fragment_of(&s, &offsets, ws, o.location.range.start);
    let after = fragment_of(&s, &offsets, o.location.range.end, we);
    match (before, after) {
        (Some(b), Some(a)) => forward_trigger_exec(&a) || ends_with_marker_exec(&b, "所谓") || (ends_with_marker_exec(
            &b,
            "称",
        ) && called_suffix_exec(&a)),
        _ => false,
    }
}

fn needs(o: &LexiconOccurrence) -> (r: bool)
    ensures
        r == needs_explanation(o@),
{
    o.requires_explanation && !matches!(o.kind, LexemeKind::Common)
}

fn message_of(canonical: &str) -> (m: String)
    ensures
        m@ == term_message(canonical@),
{
    let pieces: [&str; 3] = ["technical term `", canonical, "` first used without a nearby explanation"];
    let m = concat(&pieces);
    proof {
        reveal_strlit("technical term `");
        reveal_strlit("` first used without a nearby explanation");
        let ps = pieces@.map_values(|p: &str| p@);
        reveal_with_fuel(joined_pieces, 4);
        assert(ps.drop_last().drop_last().drop_last() =~= Seq::<Seq<char>>::empty());
        assert(joined_pieces(ps) =~= term_message(canonical@));
    }
    m
}

impl Term002 {
    /// One diagnostic per unexplained first use of a term that requires
    /// explanation, ordered by file and position.
    pub fn findings(&self, context: &LintContext) -> (r: Vec<Diagnostic>)
        requires
            context.well_formed(),
        ensures
            context.spec_config().rules.term002.level == Level::Off ==> r@.len() == 0,
            context.spec_config().rules.term002.level != Level::Off ==> views(r@) == stable_sorted::<Diagnostic, SpanOrder>(
                term_findings(
                    context.spec_document(),
                    context.spec_registry().spec_occurrences(),
                    context.spec_registry().spec_definitions(),
                    context.spec_config().rules.term002.level,
                    context.spec_config().rules.term002.context_chars as int,
                    context.spec_registry().spec_occurrences().len() as int,
                ),
            ),
    {
        let level = context.config().rules.term002.level;
        let n = context.config().rules.term002.context_chars;
        if !level.is_enabled() {
            return Vec::new();
        }
        let registry = context.registry();
        let occurrences = registry.lexicon_occurrences();
        let definitions = registry.definitions();
        let document = context.document();
        let ghost doc = context.spec_document();
        let ghost os = views(occurrences@);
        let ghost defs = views(definitions@);
        let mut diagnostics: Vec<Diagnostic> = Vec::new();
        let mut k: usize = 0;
        while k < occurrences.len()
            invariant
                k <= os.len(),
                os == views(occurrences@),
                defs == views(definitions@),
                *document == doc,
                context.well_formed(),
                context.spec_document() == doc,
                views(diagnostics@) == term_findings(doc, os, defs, level, n as int, k as int),
            decreases os.len() - k,
        {
            let o = &occurrences[k];
            assert(os[k as int] == o@);
            let mut first = needs(o);
            if first {
                let mut j: usize = 0;
                while j < k && first
                    invariant
                        j <= k < os.len(),
                        os == views(occurrences@),
                        o@ == os[k as int],
                        first ==> needs_explanation(os[k as int]),
                        first ==> forall|m: int|
                            0 <= m < j ==> !(needs_explanation(#[trigger] os[m]) && os[m].canonical == os[k as int].canonical),
                        !first ==> !first_needing(os, k as int),
                    decreases k - j,
                {
                    let p = &occurrences[j];
                    assert(os[j as int] == p@);
                    if needs(p) && str_eq(p.canonical.as_str(), o.canonical.as_str()) {
                        first = false;
                    }
                    j = j + 1;
                }
            }
            let ghost prev = views(diagnostics@);
            if first {
                let b = o.location.block;
                let unexplained = if b < document.blocks.len() {
                    !explained_exec(definitions, o, document.blocks[b].text.as_str(), n)
                } else {
                    true
                };
                if unexplained {
                    match context.span(b, o.location.range.start..o.location.range.end) {
                        Some(span) => {
                            let d = Diagnostic {
                                rule: RuleId::Term002,
                                severity: level,
                                message: message_of(o.canonical.as_str()),
                                span,
                            };
                            let ghost before = diagnostics@;
                            diagnostics.push(d);
                            proof {
                                crate::order::lemma_views_push(before, d);
                            }
                        },
                        None => {},
                    }
                }
            }
            proof {
                assert(views(diagnostics@) =~= term_findings(doc, os, defs, level, n as int, k + 1));
            }
            k = k + 1;
        }
        stable_sort::<Diagnostic, SpanOrder>(diagnostics)
    }
}

impl Rule for Term002 {
    fn id(&self) -> (r: RuleId)
        ensures
            r == RuleId::Term002,
    {
        RuleId::Term002
    }

    fn check(&self, context: &LintContext) -> (r: Vec<Diagnostic>)
        ensures
            context.spec_config().rules.term002.level == Level::Off ==> r@.len() == 0,
            context.spec_config().rules.term002.level != Level::Off ==> views(r@) == stable_sorted::<Diagnostic, SpanOrder>(
                term_findings(
                    context.spec_document(),
                    context.spec_registry().spec_occurrences(),
                    context.spec_registry().spec_definitions(),
                    context.spec_config().rules.term002.level,
                    context.spec_config().rules.term002.context_chars as int,
                    context.spec_registry().spec_occurrences().len() as int,
                ),
            ),
    {
        self.findings(context)
    }
}

} // verus!
