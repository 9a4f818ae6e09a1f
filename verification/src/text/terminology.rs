//! Acronym definitions and usages in one logical text block.
//!
//! Recognized definition forms:
//! 1. 中文名（English Full Name，ABC）
//! 2. 中文名（English Full Name, ABC）
//! 3. 中文名（ABC）
//! 4. English full name (ABC)
//!
//! Definitions do not span logical text blocks. The acronym range points to
//! the acronym itself so diagnostics can map it back to the exact source.
use crate::lint::terms::candidates::text::{has_cjk_chars, spec_has_cjk};
use crate::order::{
    lemma_text_irreflexive, lemma_text_total, lemma_text_trans, lemma_views_push, stable_sort,
    stable_sorted, text_le, text_less, text_lt, views, Order,
};
use crate::text::runs::{
    char_runs, class_runs, lemma_class_runs_bounds, lemma_class_runs_ordered, CharClass,
};
use crate::text::unicode::{
    ascii_upper, byte_len, byte_offsets, byte_pos, chars_of, is_ascii_alpha, is_ascii_upper, is_cjk,
    is_whitespace, lemma_byte_pos_le_len, lemma_byte_pos_mono, str_eq, string_of, sub_chars,
};
use std::ops::Range;
use vstd::prelude::*;

verus! {

#[verifier::allow_in_spec]
pub fn is_open_paren(c: char) -> bool
    returns
        c == '(' || c == '\u{FF08}',
{
    c == '(' || c == '\u{FF08}'
}

#[verifier::allow_in_spec]
pub fn is_close_paren(c: char) -> bool
    returns
        c == ')' || c == '\u{FF09}',
{
    c == ')' || c == '\u{FF09}'
}

#[verifier::allow_in_spec]
pub fn is_comma(c: char) -> bool
    returns
        c == ',' || c == '\u{FF0C}',
{
    c == ',' || c == '\u{FF0C}'
}

/// Characters an expanded English full form may hold: `[A-Za-z\s-]`.
#[verifier::allow_in_spec]
pub fn is_full_form_char(c: char) -> bool
    returns
        is_ascii_alpha(c) || is_whitespace(c) || c == '-',
{
    is_ascii_alpha(c) || is_whitespace(c) || c == '-'
}

/// Characters that end the phrase before a Chinese definition.
#[verifier::allow_in_spec]
pub fn is_phrase_boundary(c: char) -> bool
    returns
        c == '.' || c == '\u{3002}' || c == '!' || c == '\u{FF01}' || c == '?' || c == '\u{FF1F}'
            || c == ';' || c == '\u{FF1B}' || c == ':' || c == '\u{FF1A}' || c == '\n' || c
            == '\r',
{
    c == '.' || c == '\u{3002}' || c == '!' || c == '\u{FF01}' || c == '?' || c == '\u{FF1F}'
        || c == ';' || c == '\u{FF1B}' || c == ':' || c == '\u{FF1A}' || c == '\n' || c == '\r'
}

/// Characters that may run through an English full form before a short definition.
#[verifier::allow_in_spec]
pub fn is_english_phrase_char(c: char) -> bool
    returns
        is_ascii_alpha(c) || c == '-' || c == ' ' || c == '\t',
{
    is_ascii_alpha(c) || c == '-' || c == ' ' || c == '\t'
}

/// First index in `i..hi` that is not whitespace, or `hi`.
pub open spec fn skip_ws(s: Seq<char>, i: int, hi: int) -> int
    decreases hi - i,
{
    if i >= hi {
        hi
    } else if is_whitespace(s[i]) {
        skip_ws(s, i + 1, hi)
    } else {
        i
    }
}

/// End of the run of uppercase ASCII letters starting at `i`.
pub open spec fn upper_end(s: Seq<char>, i: int) -> int
    decreases s.len() - i,
{
    if i >= s.len() {
        s.len() as int
    } else if is_ascii_upper(s[i]) {
        upper_end(s, i + 1)
    } else {
        i
    }
}

/// End of the run of full-form characters starting at `i`.
pub open spec fn form_end(s: Seq<char>, i: int) -> int
    decreases s.len() - i,
{
    if i >= s.len() {
        s.len() as int
    } else if is_full_form_char(s[i]) {
        form_end(s, i + 1)
    } else {
        i
    }
}

/// Index just after the last ASCII letter of `lo..hi`, or `lo`.
pub open spec fn letter_end(s: Seq<char>, lo: int, hi: int) -> int
    decreases hi - lo,
{
    if hi <= lo {
        lo
    } else if is_ascii_alpha(s[hi - 1]) {
        hi
    } else {
        letter_end(s, lo, hi - 1)
    }
}

/// End of `lo..hi` once trailing whitespace is dropped.
pub open spec fn trim_end(s: Seq<char>, lo: int, hi: int) -> int
    decreases hi - lo,
{
    if hi <= lo {
        lo
    } else if is_whitespace(s[hi - 1]) {
        trim_end(s, lo, hi - 1)
    } else {
        hi
    }
}

/// Index just after the last phrase boundary before `t`, or 0.
pub open spec fn after_boundary(s: Seq<char>, t: int) -> int
    decreases t,
{
    if t <= 0 {
        0
    } else if is_phrase_boundary(s[t - 1]) {
        t
    } else {
        after_boundary(s, t - 1)
    }
}

/// Index just after the last character before `t` that cannot belong to an
/// English phrase, or 0.
pub open spec fn after_non_english(s: Seq<char>, t: int) -> int
    decreases t,
{
    if t <= 0 {
        0
    } else if !is_english_phrase_char(s[t - 1]) {
        t
    } else {
        after_non_english(s, t - 1)
    }
}

pub proof fn lemma_skip_ws(s: Seq<char>, i: int, hi: int)
    requires
        i <= hi,
    ensures
        i <= skip_ws(s, i, hi) <= hi,
        forall|k: int| i <= k < skip_ws(s, i, hi) ==> is_whitespace(#[trigger] s[k]),
    decreases hi - i,
{
    if i < hi && is_whitespace(s[i]) {
        lemma_skip_ws(s, i + 1, hi);
    }
}

pub proof fn lemma_upper_end(s: Seq<char>, i: int)
    requires
        0 <= i <= s.len(),
    ensures
        i <= upper_end(s, i) <= s.len(),
        forall|k: int| i <= k < upper_end(s, i) ==> is_ascii_upper(#[trigger] s[k]),
    decreases s.len() - i,
{
    if i < s.len() && is_ascii_upper(s[i]) {
        lemma_upper_end(s, i + 1);
    }
}

pub proof fn lemma_form_end(s: Seq<char>, i: int)
    requires
        0 <= i <= s.len(),
    ensures
        i <= form_end(s, i) <= s.len(),
    decreases s.len() - i,
{
    if i < s.len() && is_full_form_char(s[i]) {
        lemma_form_end(s, i + 1);
    }
}

pub proof fn lemma_letter_end(s: Seq<char>, lo: int, hi: int)
    requires
        lo <= hi,
    ensures
        lo <= letter_end(s, lo, hi) <= hi,
    decreases hi - lo,
{
    if hi > lo && !is_ascii_alpha(s[hi - 1]) {
        lemma_letter_end(s, lo, hi - 1);
    }
}

pub proof fn lemma_trim_end(s: Seq<char>, lo: int, hi: int)
    requires
        lo <= hi,
    ensures
        lo <= trim_end(s, lo, hi) <= hi,
    decreases hi - lo,
{
    if hi > lo && is_whitespace(s[hi - 1]) {
        lemma_trim_end(s, lo, hi - 1);
    }
}

pub proof fn lemma_after_boundary(s: Seq<char>, t: int)
    requires
        0 <= t,
    ensures
        0 <= after_boundary(s, t) <= t,
    decreases t,
{
    if t > 0 && !is_phrase_boundary(s[t - 1]) {
        lemma_after_boundary(s, t - 1);
    }
}

pub proof fn lemma_after_non_english(s: Seq<char>, t: int)
    requires
        0 <= t,
    ensures
        0 <= after_non_english(s, t) <= t,
    decreases t,
{
    if t > 0 && is_english_phrase_char(s[t - 1]) {
        lemma_after_non_english(s, t - 1);
    }
}

fn skip_ws_at(s: &Vec<char>, i: usize, hi: usize) -> (r: usize)
    requires
        i <= hi <= s.len(),
    ensures
        r == skip_ws(s@, i as int, hi as int),
{
    let mut j = i;
    while j < hi && is_whitespace(s[j])
        invariant
            i <= j <= hi <= s.len(),
            skip_ws(s@, i as int, hi as int) == skip_ws(s@, j as int, hi as int),
        decreases hi - j,
    {
        j = j + 1;
    }
    j
}

fn upper_end_at(s: &Vec<char>, i: usize) -> (r: usize)
    requires
        i <= s.len(),
    ensures
        r == upper_end(s@, i as int),
{
    let mut j = i;
    while j < s.len() && is_ascii_upper(s[j])
        invariant
            i <= j <= s.len(),
            upper_end(s@, i as int) == upper_end(s@, j as int),
        decreases s.len() - j,
    {
        j = j + 1;
    }
    j
}

fn form_end_at(s: &Vec<char>, i: usize) -> (r: usize)
    requires
        i <= s.len(),
    ensures
        r == form_end(s@, i as int),
{
    let mut j = i;
    while j < s.len() && is_full_form_char(s[j])
        invariant
            i <= j <= s.len(),
            form_end(s@, i as int) == form_end(s@, j as int),
        decreases s.len() - j,
    {
        j = j + 1;
    }
    j
}

fn letter_end_at(s: &Vec<char>, lo: usize, hi: usize) -> (r: usize)
    requires
        lo <= hi <= s.len(),
    ensures
        r == letter_end(s@, lo as int, hi as int),
{
    let mut j = hi;
    while j > lo && !is_ascii_alpha(s[j - 1])
        invariant
            lo <= j <= hi <= s.len(),
            letter_end(s@, lo as int, hi as int) == letter_end(s@, lo as int, j as int),
        decreases j,
    {
        j = j - 1;
    }
    j
}

fn trim_end_at(s: &Vec<char>, lo: usize, hi: usize) -> (r: usize)
    requires
        lo <= hi <= s.len(),
    ensures
        r == trim_end(s@, lo as int, hi as int),
{
    let mut j = hi;
    while j > lo && is_whitespace(s[j - 1])
        invariant
            lo <= j <= hi <= s.len(),
            trim_end(s@, lo as int, hi as int) == trim_end(s@, lo as int, j as int),
        decreases j,
    {
        j = j - 1;
    }
    j
}

fn after_boundary_at(s: &Vec<char>, t: usize) -> (r: usize)
    requires
        t <= s.len(),
    ensures
        r == after_boundary(s@, t as int),
{
    let mut j = t;
    while j > 0 && !is_phrase_boundary(s[j - 1])
        invariant
            j <= t <= s.len(),
            after_boundary(s@, t as int) == after_boundary(s@, j as int),
        decreases j,
    {
        j = j - 1;
    }
    j
}

fn after_non_english_at(s: &Vec<char>, t: usize) -> (r: usize)
    requires
        t <= s.len(),
    ensures
        r == after_non_english(s@, t as int),
{
    let mut j = t;
    while j > 0 && is_english_phrase_char(s[j - 1])
        invariant
            j <= t <= s.len(),
            after_non_english(s@, t as int) == after_non_english(s@, j as int),
        decreases j,
    {
        j = j - 1;
    }
    j
}

/// The expanded definition whose parenthesis opens at `p`, as the character
/// ranges of the English full form and of the acronym:
/// `[(（]\s*([A-Za-z][A-Za-z\s-]*[A-Za-z])\s*[,，]\s*([A-Z]{2,})\s*[)）]`.
pub open spec fn expanded_at(s: Seq<char>, p: int) -> Option<(int, int, int, int)> {
    let a = skip_ws(s, p + 1, s.len() as int);
    let c = form_end(s, a + 1);
    let b = letter_end(s, a + 1, c);
    let d = skip_ws(s, c + 1, s.len() as int);
    let e = upper_end(s, d);
    let f = skip_ws(s, e, s.len() as int);
    if is_open_paren(s[p]) && a < s.len() && is_ascii_alpha(s[a]) && c < s.len() && is_comma(s[c])
        && b > a + 1 && skip_ws(s, b, c) == c && e - d >= 2 && f < s.len() && is_close_paren(
        s[f],
    ) {
        Some((a, b, d, e))
    } else {
        None
    }
}

/// The parenthesized acronym whose parenthesis opens at `p`, as a character
/// range: `[(（]\s*([A-Z]{2,})\s*[)）]`.
pub open spec fn short_at(s: Seq<char>, p: int) -> Option<(int, int)> {
    let d = skip_ws(s, p + 1, s.len() as int);
    let e = upper_end(s, d);
    let f = skip_ws(s, e, s.len() as int);
    if is_open_paren(s[p]) && e - d >= 2 && f < s.len() && is_close_paren(s[f]) {
        Some((d, e))
    } else {
        None
    }
}

fn expanded_match(s: &Vec<char>, p: usize) -> (r: Option<(usize, usize, usize, usize)>)
    requires
        p < s.len(),
    ensures
        match r {
            Some(m) => expanded_at(s@, p as int) == Some(
                (m.0 as int, m.1 as int, m.2 as int, m.3 as int),
            ) && m.0 < m.1 && m.1 < m.2 && m.2 < m.3 && m.3 <= s.len(),
            None => expanded_at(s@, p as int) is None,
        },
{
    if !is_open_paren(s[p]) {
        return None;
    }
    let n = s.len();
    let a = skip_ws_at(s, p + 1, n);
    proof {
        lemma_skip_ws(s@, p + 1, n as int);
    }
    if a >= n || !is_ascii_alpha(s[a]) {
        return None;
    }
    let c = form_end_at(s, a + 1);
    proof {
        lemma_form_end(s@, a + 1);
    }
    if c >= n || !is_comma(s[c]) {
        return None;
    }
    let b = letter_end_at(s, a + 1, c);
    proof {
        lemma_letter_end(s@, a + 1, c as int);
    }
    if b <= a + 1 || skip_ws_at(s, b, c) != c {
        return None;
    }
    let d = skip_ws_at(s, c + 1, n);
    proof {
        lemma_skip_ws(s@, c + 1, n as int);
    }
    let e = upper_end_at(s, d);
    proof {
        lemma_upper_end(s@, d as int);
    }
    if e - d < 2 {
        return None;
    }
    let f = skip_ws_at(s, e, n);
    proof {
        lemma_skip_ws(s@, e as int, n as int);
    }
    if f >= n || !is_close_paren(s[f]) {
        return None;
    }
    Some((a, b, d, e))
}

fn short_match(s: &Vec<char>, p: usize) -> (r: Option<(usize, usize)>)
    requires
        p < s.len(),
    ensures
        match r {
            Some(m) => short_at(s@, p as int) == Some((m.0 as int, m.1 as int)) && m.0 < m.1
                <= s.len(),
            None => short_at(s@, p as int) is None,
        },
{
    if !is_open_paren(s[p]) {
        return None;
    }
    let n = s.len();
    let d = skip_ws_at(s, p + 1, n);
    proof {
        lemma_skip_ws(s@, p + 1, n as int);
    }
    let e = upper_end_at(s, d);
    proof {
        lemma_upper_end(s@, d as int);
    }
    if e - d < 2 {
        return None;
    }
    let f = skip_ws_at(s, e, n);
    proof {
        lemma_skip_ws(s@, e as int, n as int);
    }
    if f >= n || !is_close_paren(s[f]) {
        return None;
    }
    Some((d, e))
}

/// The phrase before the parenthesis at `open`: after the last sentence or
/// clause boundary, with surrounding whitespace trimmed.
pub open spec fn chinese_span(s: Seq<char>, open: int) -> (int, int) {
    let t = trim_end(s, 0, open);
    let lo = skip_ws(s, after_boundary(s, t), t);
    (lo, trim_end(s, lo, t))
}

/// The Chinese name before a parenthesized definition, when that phrase holds CJK.
pub open spec fn preceding_chinese(s: Seq<char>, open: int) -> Option<Seq<char>> {
    let phrase = s.subrange(chinese_span(s, open).0, chinese_span(s, open).1);
    if spec_has_cjk(phrase) {
        Some(phrase)
    } else {
        None
    }
}

proof fn lemma_chinese_span(s: Seq<char>, open: int)
    requires
        0 <= open <= s.len(),
    ensures
        0 <= chinese_span(s, open).0 <= chinese_span(s, open).1 <= open,
{
    let t = trim_end(s, 0, open);
    lemma_trim_end(s, 0, open);
    lemma_after_boundary(s, t);
    lemma_skip_ws(s, after_boundary(s, t), t);
    lemma_trim_end(s, skip_ws(s, after_boundary(s, t), t), t);
}

fn preceding_chinese_phrase(s: &Vec<char>, open: usize) -> (r: Option<String>)
    requires
        open <= s.len(),
    ensures
        opt_text(r) == preceding_chinese(s@, open as int),
{
    proof {
        lemma_chinese_span(s@, open as int);
        lemma_trim_end(s@, 0, open as int);
    }
    let t = trim_end_at(s, 0, open);
    let st = after_boundary_at(s, t);
    proof {
        lemma_after_boundary(s@, t as int);
    }
    let lo = skip_ws_at(s, st, t);
    proof {
        lemma_skip_ws(s@, st as int, t as int);
    }
    let hi = trim_end_at(s, lo, t);
    if has_cjk_chars(s, lo, hi) {
        Some(string_of(s, lo, hi))
    } else {
        None
    }
}

/// A text option, by its characters.
pub open spec fn opt_text(o: Option<String>) -> Option<Seq<char>> {
    match o {
        Some(t) => Some(t@),
        None => None,
    }
}

/// The English phrase before the parenthesis at `open`: the trailing run of
/// letters, hyphens, spaces and tabs, trimmed.
pub open spec fn english_span(s: Seq<char>, open: int) -> (int, int) {
    let t = trim_end(s, 0, open);
    let lo = skip_ws(s, after_non_english(s, t), t);
    (lo, trim_end(s, lo, t))
}

proof fn lemma_english_span(s: Seq<char>, open: int)
    requires
        0 <= open <= s.len(),
    ensures
        0 <= english_span(s, open).0 <= english_span(s, open).1 <= open,
{
    let t = trim_end(s, 0, open);
    lemma_trim_end(s, 0, open);
    lemma_after_non_english(s, t);
    lemma_skip_ws(s, after_non_english(s, t), t);
    lemma_trim_end(s, skip_ws(s, after_non_english(s, t), t), t);
}

/// The uppercase ASCII letters of `w`, in order.
pub open spec fn uppers(w: Seq<char>) -> Seq<char>
    decreases w.len(),
{
    if w.len() == 0 {
        w
    } else if is_ascii_upper(w.last()) {
        uppers(w.drop_last()).push(w.last())
    } else {
        uppers(w.drop_last())
    }
}

pub open spec fn all_upper(w: Seq<char>) -> bool {
    forall|i: int| 0 <= i < w.len() ==> is_ascii_upper(#[trigger] w[i])
}

/// The letters a word contributes to an acronym: its capitals when it has
/// several and is not all capitals (`GraphRAG`), else its uppercased first letter.
pub open spec fn word_initials(w: Seq<char>) -> Seq<char> {
    if uppers(w).len() > 1 && !all_upper(w) {
        uppers(w)
    } else {
        seq![ascii_upper(w[0])]
    }
}

/// The initials of the words `runs` of `p`, in order.
pub open spec fn initials(p: Seq<char>, runs: Seq<(int, int)>) -> Seq<char>
    decreases runs.len(),
{
    if runs.len() == 0 {
        Seq::empty()
    } else {
        initials(p, runs.drop_last()) + word_initials(p.subrange(runs.last().0, runs.last().1))
    }
}

/// The shortest trailing word sequence of `p`, starting at word `k` or before,
/// whose initials spell `acronym`.
pub open spec fn full_form_from(
    p: Seq<char>,
    runs: Seq<(int, int)>,
    acronym: Seq<char>,
    k: int,
) -> Option<(int, int)>
    decreases k + 1,
{
    if k < 0 {
        None
    } else if initials(p, runs.subrange(k, runs.len() as int)) == acronym {
        Some((runs[k].0, runs.last().1))
    } else {
        full_form_from(p, runs, acronym, k - 1)
    }
}

/// The English full form before a parenthesized acronym: at least two words
/// ending the phrase whose initials spell the acronym.
pub open spec fn preceding_english(s: Seq<char>, open: int, acronym: Seq<char>) -> Option<
    Seq<char>,
> {
    let phrase = s.subrange(english_span(s, open).0, english_span(s, open).1);
    let runs = class_runs(phrase, CharClass::AsciiLetter);
    if runs.len() < 2 {
        None
    } else {
        match full_form_from(phrase, runs, acronym, runs.len() - 2) {
            Some(m) => Some(phrase.subrange(m.0, m.1)),
            None => None,
        }
    }
}

fn uppers_of(s: &Vec<char>, lo: usize, hi: usize) -> (r: Vec<char>)
    requires
        lo <= hi <= s.len(),
    ensures
        r@ == uppers(s@.subrange(lo as int, hi as int)),
{
    let mut r: Vec<char> = Vec::new();
    let mut i = lo;
    assert(s@.subrange(lo as int, lo as int) =~= Seq::<char>::empty());
    while i < hi
        invariant
            lo <= i <= hi <= s.len(),
            r@ == uppers(s@.subrange(lo as int, i as int)),
        decreases hi - i,
    {
        assert(s@.subrange(lo as int, i + 1).drop_last() =~= s@.subrange(lo as int, i as int));
        if is_ascii_upper(s[i]) {
            r.push(s[i]);
        }
        i = i + 1;
    }
    r
}

fn word_initials_of(s: &Vec<char>, lo: usize, hi: usize) -> (r: Vec<char>)
    requires
        lo < hi <= s.len(),
    ensures
        r@ == word_initials(s@.subrange(lo as int, hi as int)),
{
    let ghost w = s@.subrange(lo as int, hi as int);
    let up = uppers_of(s, lo, hi);
    let mut all = true;
    let mut i = lo;
    while i < hi
        invariant
            lo <= i <= hi <= s.len(),
            w == s@.subrange(lo as int, hi as int),
            all == (forall|k: int| 0 <= k < i - lo ==> is_ascii_upper(#[trigger] w[k])),
        decreases hi - i,
    {
        if !is_ascii_upper(s[i]) {
            assert(!is_ascii_upper(w[i - lo]));
            all = false;
        }
        i = i + 1;
    }
    if up.len() > 1 && !all {
        up
    } else {
        let mut r: Vec<char> = Vec::new();
        r.push(ascii_upper(s[lo]));
        assert(r@ =~= seq![ascii_upper(w[0])]);
        r
    }
}

fn chars_equal(a: &Vec<char>, b: &Vec<char>) -> (r: bool)
    ensures
        r == (a@ == b@),
{
    if a.len() != b.len() {
        return false;
    }
    let mut i: usize = 0;
    while i < a.len()
        invariant
            a.len() == b.len(),
            i <= a.len(),
            forall|k: int| 0 <= k < i ==> a@[k] == b@[k],
        decreases a.len() - i,
    {
        if a[i] != b[i] {
            return false;
        }
        i = i + 1;
    }
    assert(a@ =~= b@);
    true
}

fn initials_from(p: &Vec<char>, runs: &Vec<(usize, usize)>, k: usize) -> (r: Vec<char>)
    requires
        k <= runs.len(),
        forall|j: int| 0 <= j < runs@.len() ==> (#[trigger] runs@[j]).0 < runs@[j].1 <= p.len(),
    ensures
        r@ == initials(p@, run_ranges(runs@).subrange(k as int, runs@.len() as int)),
{
    let ghost rr = run_ranges(runs@);
    let mut r: Vec<char> = Vec::new();
    let mut j = k;
    assert(rr.subrange(k as int, k as int) =~= Seq::<(int, int)>::empty());
    while j < runs.len()
        invariant
            k <= j <= runs.len(),
            rr == run_ranges(runs@),
            forall|i: int| 0 <= i < runs@.len() ==> (#[trigger] runs@[i]).0 < runs@[i].1 <= p.len(),
            r@ == initials(p@, rr.subrange(k as int, j as int)),
        decreases runs.len() - j,
    {
        let (lo, hi) = runs[j];
        let w = word_initials_of(p, lo, hi);
        proof {
            let sub = rr.subrange(k as int, j + 1);
            assert(sub.drop_last() =~= rr.subrange(k as int, j as int));
            assert(sub.last() == (lo as int, hi as int));
        }
        let mut w = w;
        r.append(&mut w);
        j = j + 1;
    }
    r
}

/// Character ranges as integer pairs.
pub open spec fn run_ranges(runs: Seq<(usize, usize)>) -> Seq<(int, int)> {
    runs.map_values(|r: (usize, usize)| (r.0 as int, r.1 as int))
}

fn preceding_english_full_form(s: &Vec<char>, open: usize, acronym: &Vec<char>) -> (r: Option<
    String,
>)
    requires
        open <= s.len(),
    ensures
        opt_text(r) == preceding_english(s@, open as int, acronym@),
{
    proof {
        lemma_english_span(s@, open as int);
        lemma_trim_end(s@, 0, open as int);
    }
    let t = trim_end_at(s, 0, open);
    let st = after_non_english_at(s, t);
    proof {
        lemma_after_non_english(s@, t as int);
    }
    let lo = skip_ws_at(s, st, t);
    proof {
        lemma_skip_ws(s@, st as int, t as int);
    }
    let hi = trim_end_at(s, lo, t);
    let phrase = sub_chars(s, lo, hi);
    let runs = char_runs(&phrase, CharClass::AsciiLetter);
    let ghost rr = class_runs(phrase@, CharClass::AsciiLetter);
    proof {
        assert(run_ranges(runs@) =~= rr);
        lemma_class_runs_ordered(phrase@, CharClass::AsciiLetter);
        assert(phrase@ == s@.subrange(english_span(s@, open as int).0, english_span(s@, open as int).1));
    }
    if runs.len() < 2 {
        return None;
    }
    let n = runs.len();
    let mut k = n - 1;
    while k > 0
        invariant
            1 <= n == runs.len(),
            k <= n - 1,
            phrase@ == s@.subrange(english_span(s@, open as int).0, english_span(s@, open as int).1),
            rr == run_ranges(runs@),
            rr == class_runs(phrase@, CharClass::AsciiLetter),
            forall|i: int| 0 <= i < runs@.len() ==> (#[trigger] runs@[i]).0 < runs@[i].1 <= phrase.len(),
            forall|i: int, j: int| 0 <= i < j < rr.len() ==> (#[trigger] rr[i]).1 < (#[trigger] rr[j]).0,
            full_form_from(phrase@, rr, acronym@, n - 2) == full_form_from(
                phrase@,
                rr,
                acronym@,
                k - 1,
            ),
        decreases k,
    {
        let ini = initials_from(&phrase, &runs, k - 1);
        if chars_equal(&ini, acronym) {
            let start = runs[k - 1].0;
            let end = runs[n - 1].1;
            assert(rr[k - 1].0 == start && rr[n - 1].1 == end);
            if k - 1 < n - 1 {
                assert(rr[k - 1].1 < rr[n - 1].0);
            }
            assert(rr.len() == n);
            assert(full_form_from(phrase@, rr, acronym@, k - 1) == Some((start as int, end as int)));

            return Some(string_of(&phrase, start, end));
        }
        k = k - 1;
    }
    None
}

/// An acronym defined in a text block, with the names it stands for.
#[derive(Debug, PartialEq, Eq)]
pub struct AcronymDefinition {
    pub chinese: Option<String>,
    pub english: Option<String>,
    pub acronym: String,
    pub range: Range<usize>,
}

/// The value of an acronym definition.
#[verifier::ext_equal]
pub struct DefinitionView {
    pub chinese: Option<Seq<char>>,
    pub english: Option<Seq<char>>,
    pub acronym: Seq<char>,
    pub range: Range<usize>,
}

impl View for AcronymDefinition {
    type V = DefinitionView;

    open spec fn view(&self) -> DefinitionView {
        DefinitionView {
            chinese: opt_text(self.chinese),
            english: opt_text(self.english),
            acronym: self.acronym@,
            range: self.range,
        }
    }
}

fn copy_text(o: &Option<String>) -> (r: Option<String>)
    ensures
        opt_text(r) == opt_text(*o),
{
    match o {
        Some(t) => Some(t.clone()),
        None => None,
    }
}

impl Clone for AcronymDefinition {
    fn clone(&self) -> (r: Self)
        ensures
            r@ == self@,
    {
        AcronymDefinition {
            chinese: copy_text(&self.chinese),
            english: copy_text(&self.english),
            acronym: self.acronym.clone(),
            range: self.range.start..self.range.end,
        }
    }
}

/// One use of an acronym in a text block.
#[derive(Debug, PartialEq, Eq)]
pub struct AcronymUsage {
    pub acronym: String,
    pub range: Range<usize>,
}

/// The value of an acronym usage.
#[verifier::ext_equal]
pub struct UsageView {
    pub acronym: Seq<char>,
    pub range: Range<usize>,
}

impl View for AcronymUsage {
    type V = UsageView;

    open spec fn view(&self) -> UsageView {
        UsageView { acronym: self.acronym@, range: self.range }
    }
}

impl Clone for AcronymUsage {
    fn clone(&self) -> (r: Self)
        ensures
            r@ == self@,
    {
        AcronymUsage { acronym: self.acronym.clone(), range: self.range.start..self.range.end }
    }
}

/// UTF-8 byte range of the characters `lo..hi` of `s`.
pub open spec fn byte_range(s: Seq<char>, lo: int, hi: int) -> Range<usize> {
    Range { start: byte_pos(s, lo) as usize, end: byte_pos(s, hi) as usize }
}

/// Expanded definitions whose parenthesis opens before index `n`.
pub open spec fn expanded_defs(s: Seq<char>, n: int) -> Seq<DefinitionView>
    decreases n,
{
    if n <= 0 {
        Seq::empty()
    } else {
        let prev = expanded_defs(s, n - 1);
        match expanded_at(s, n - 1) {
            Some(m) => prev.push(
                DefinitionView {
                    chinese: preceding_chinese(s, n - 1),
                    english: Some(s.subrange(m.0, m.1)),
                    acronym: s.subrange(m.2, m.3),
                    range: byte_range(s, m.2, m.3),
                },
            ),
            None => prev,
        }
    }
}

/// Parenthesized acronyms before index `n` that follow a Chinese name or an
/// English full form.
pub open spec fn short_defs(s: Seq<char>, n: int) -> Seq<DefinitionView>
    decreases n,
{
    if n <= 0 {
        Seq::empty()
    } else {
        let prev = short_defs(s, n - 1);
        match short_at(s, n - 1) {
            Some(m) => {
                let chinese = preceding_chinese(s, n - 1);
                let english = preceding_english(s, n - 1, s.subrange(m.0, m.1));
                if chinese is None && english is None {
                    prev
                } else {
                    prev.push(
                        DefinitionView {
                            chinese,
                            english,
                            acronym: s.subrange(m.0, m.1),
                            range: byte_range(s, m.0, m.1),
                        },
                    )
                }
            },
            None => prev,
        }
    }
}

/// Definitions ordered by acronym range, then by acronym text.
pub struct DefinitionOrder;

impl Order<AcronymDefinition> for DefinitionOrder {
    open spec fn ordered(a: DefinitionView, b: DefinitionView) -> bool {
        a.range.start < b.range.start || (a.range.start == b.range.start && (a.range.end
            < b.range.end || (a.range.end == b.range.end && text_le(a.acronym, b.acronym))))
    }

    fn le(a: &AcronymDefinition, b: &AcronymDefinition) -> (r: bool) {
        if a.range.start != b.range.start {
            a.range.start < b.range.start
        } else if a.range.end != b.range.end {
            a.range.end < b.range.end
        } else {
            proof {
                lemma_text_total(a.acronym@, b.acronym@);
                lemma_text_irreflexive(a.acronym@);
                if text_lt(a.acronym@, b.acronym@) && text_lt(b.acronym@, a.acronym@) {
                    lemma_text_trans(a.acronym@, b.acronym@, a.acronym@);
                }
            }
            !text_less(b.acronym.as_str(), a.acronym.as_str())
        }
    }

    proof fn lemma_total(a: DefinitionView, b: DefinitionView) {
        lemma_text_total(a.acronym, b.acronym);
    }

    proof fn lemma_trans(a: DefinitionView, b: DefinitionView, c: DefinitionView) {
        if text_lt(a.acronym, b.acronym) && text_lt(b.acronym, c.acronym) {
            lemma_text_trans(a.acronym, b.acronym, c.acronym);
        }
    }
}

/// Two definitions of the same acronym at the same range.
pub open spec fn same_definition(a: DefinitionView, b: DefinitionView) -> bool {
    a.acronym == b.acronym && a.range == b.range
}

/// Drops each definition that repeats the one kept before it.
pub open spec fn dedup_definitions(s: Seq<DefinitionView>) -> Seq<DefinitionView>
    decreases s.len(),
{
    if s.len() == 0 {
        s
    } else {
        let kept = dedup_definitions(s.drop_last());
        if kept.len() > 0 && same_definition(kept.last(), s.last()) {
            kept
        } else {
            kept.push(s.last())
        }
    }
}

/// Every acronym definition of the text, ordered by acronym position.
pub open spec fn spec_definitions(s: Seq<char>) -> Seq<DefinitionView> {
    dedup_definitions(
        stable_sorted::<AcronymDefinition, DefinitionOrder>(
            expanded_defs(s, s.len() as int) + short_defs(s, s.len() as int),
        ),
    )
}

fn dedup(v: Vec<AcronymDefinition>) -> (r: Vec<AcronymDefinition>)
    ensures
        views(r@) == dedup_definitions(views(v@)),
{
    let ghost items = v@;
    let ghost given = views(v@);
    let mut input = v;
    let n = input.len();
    let mut out: Vec<AcronymDefinition> = Vec::new();
    let mut i: usize = 0;
    assert(given.take(0) =~= Seq::<DefinitionView>::empty());
    assert(views(out@) =~= Seq::<DefinitionView>::empty());
    assert(items.skip(0) =~= items);
    while input.len() > 0
        invariant
            n == items.len(),
            given == views(items),
            i + input@.len() == n,
            input@ == items.skip(i as int),
            views(out@) == dedup_definitions(given.take(i as int)),
        decreases input@.len(),
    {
        let x = input.remove(0);
        proof {
            assert(given.take(i + 1).drop_last() =~= given.take(i as int));
            assert(given.take(i + 1).last() == x@);
            assert(items.skip(i + 1) =~= items.skip(i as int).remove(0));
        }
        let len = out.len();
        let repeated = len > 0 && str_eq(out[len - 1].acronym.as_str(), x.acronym.as_str())
            && out[len - 1].range.start == x.range.start && out[len - 1].range.end == x.range.end;
        if !repeated {
            proof {
                lemma_views_push(out@, x);
            }
            out.push(x);
        }
        i = i + 1;
    }
    assert(given.take(i as int) =~= given);
    out
}

/// Extracts the acronym definitions of one logical text block, ordered by
/// acronym range. The range of each points at the acronym itself.
pub fn extract_acronym_definitions(text: &str) -> (definitions: Vec<AcronymDefinition>)
    ensures
        views(definitions@) == spec_definitions(text@),
{
    let s = chars_of(text);
    let offsets = byte_offsets(&s);
    let n = s.len();
    let mut found: Vec<AcronymDefinition> = Vec::new();
    let mut p: usize = 0;
    while p < n
        invariant
            s@ == text@,
            n == s.len(),
            p <= n,
            offsets.len() == n + 1,
            forall|i: int| 0 <= i <= n ==> offsets[i] == byte_pos(s@, i),
            views(found@) == expanded_defs(s@, p as int),
        decreases n - p,
    {
        match expanded_match(&s, p) {
            Some((a, b, d, e)) => {
                let definition = AcronymDefinition {
                    chinese: preceding_chinese_phrase(&s, p),
                    english: Some(string_of(&s, a, b)),
                    acronym: string_of(&s, d, e),
                    range: offsets[d]..offsets[e],
                };
                proof {
                    lemma_views_push(found@, definition);
                }
                found.push(definition);
            },
            None => {},
        }
        p = p + 1;
    }
    let ghost expanded = views(found@);
    let mut short: Vec<AcronymDefinition> = Vec::new();
    let mut p: usize = 0;
    while p < n
        invariant
            s@ == text@,
            n == s.len(),
            p <= n,
            offsets.len() == n + 1,
            forall|i: int| 0 <= i <= n ==> offsets[i] == byte_pos(s@, i),
            views(short@) == short_defs(s@, p as int),
        decreases n - p,
    {
        match short_match(&s, p) {
            Some((d, e)) => {
                let chinese = preceding_chinese_phrase(&s, p);
                let acronym = sub_chars(&s, d, e);
                let english = preceding_english_full_form(&s, p, &acronym);
                if chinese.is_some() || english.is_some() {
                    let definition = AcronymDefinition {
                        chinese,
                        english,
                        acronym: string_of(&s, d, e),
                        range: offsets[d]..offsets[e],
                    };
                    proof {
                        lemma_views_push(short@, definition);
                    }
                    short.push(definition);
                }
            },
            None => {},
        }
        p = p + 1;
    }
    proof {
        crate::order::lemma_views_add(found@, short@);
    }
    found.append(&mut short);
    dedup(stable_sort::<AcronymDefinition, DefinitionOrder>(found))
}

/// Usages among the first `k` ASCII word runs: runs of two or more capitals.
pub open spec fn usages_upto(s: Seq<char>, runs: Seq<(int, int)>, k: int) -> Seq<UsageView>
    decreases k,
{
    if k <= 0 {
        Seq::empty()
    } else {
        let prev = usages_upto(s, runs, k - 1);
        let run = runs[k - 1];
        if run.1 - run.0 >= 2 && all_upper(s.subrange(run.0, run.1)) {
            prev.push(UsageView { acronym: s.subrange(run.0, run.1), range: byte_range(s, run.0, run.1) })
        } else {
            prev
        }
    }
}

/// Every whole ASCII word of two or more capitals, in order.
pub open spec fn spec_usages(s: Seq<char>) -> Seq<UsageView> {
    usages_upto(
        s,
        class_runs(s, CharClass::AsciiWord),
        class_runs(s, CharClass::AsciiWord).len() as int,
    )
}

fn all_upper_in(s: &Vec<char>, lo: usize, hi: usize) -> (r: bool)
    requires
        lo <= hi <= s.len(),
    ensures
        r == all_upper(s@.subrange(lo as int, hi as int)),
{
    let ghost w = s@.subrange(lo as int, hi as int);
    let mut i = lo;
    while i < hi
        invariant
            lo <= i <= hi <= s.len(),
            w == s@.subrange(lo as int, hi as int),
            forall|k: int| 0 <= k < i - lo ==> is_ascii_upper(#[trigger] w[k]),
        decreases hi - i,
    {
        if !is_ascii_upper(s[i]) {
            assert(!is_ascii_upper(w[i - lo]));
            return false;
        }
        i = i + 1;
    }
    true
}

/// Finds every acronym token (a whole ASCII word of two or more capitals) in
/// one logical text block.
pub fn find_acronym_usages(text: &str) -> (usages: Vec<AcronymUsage>)
    ensures
        views(usages@) == spec_usages(text@),
{
    let s = chars_of(text);
    let offsets = byte_offsets(&s);
    let runs = char_runs(&s, CharClass::AsciiWord);
    let ghost rr = class_runs(s@, CharClass::AsciiWord);
    let mut usages: Vec<AcronymUsage> = Vec::new();
    let mut k: usize = 0;
    while k < runs.len()
        invariant
            s@ == text@,
            k <= runs.len(),
            rr == class_runs(s@, CharClass::AsciiWord),
            runs@.len() == rr.len(),
            forall|j: int|
                0 <= j < runs@.len() ==> (#[trigger] runs@[j]).0 == rr[j].0 && runs@[j].1 == rr[j].1,
            forall|j: int| 0 <= j < runs@.len() ==> (#[trigger] runs@[j]).0 < runs@[j].1 <= s.len(),
            offsets.len() == s.len() + 1,
            forall|i: int| 0 <= i <= s.len() ==> offsets[i] == byte_pos(s@, i),
            views(usages@) == usages_upto(s@, rr, k as int),
        decreases runs.len() - k,
    {
        let (lo, hi) = runs[k];
        if hi - lo >= 2 && all_upper_in(&s, lo, hi) {
            let usage = AcronymUsage { acronym: string_of(&s, lo, hi), range: offsets[lo]..offsets[hi] };
            proof {
                lemma_views_push(usages@, usage);
            }
            usages.push(usage);
        }
        k = k + 1;
    }
    usages
}

/// Definitions whose acronyms start in order keep that order through dedup.
proof fn lemma_dedup_ordered(s: Seq<DefinitionView>)
    requires
        forall|a: int, b: int| 0 <= a < b < s.len() ==> (#[trigger] s[a]).range.start <= (#[trigger] s[b]).range.start,
    ensures
        forall|a: int, b: int|
            0 <= a < b < dedup_definitions(s).len() ==> (#[trigger] dedup_definitions(s)[a]).range.start <= (
            #[trigger] dedup_definitions(s)[b]).range.start,
        forall|k: int|
            0 <= k < dedup_definitions(s).len() ==> (#[trigger] dedup_definitions(s)[k]).range.start
                <= s.last().range.start,
    decreases s.len(),
{
    if s.len() > 0 {
        let p = s.drop_last();
        lemma_dedup_ordered(p);
        let kept = dedup_definitions(p);
        let all = dedup_definitions(s);
        assert forall|k: int| 0 <= k < kept.len() implies (#[trigger] kept[k]).range.start <= s.last().range.start by {
            assert(p.last() == s[s.len() - 2]);
        }
        if !(kept.len() > 0 && same_definition(kept.last(), s.last())) {
            assert forall|a: int, b: int| 0 <= a < b < all.len() implies (#[trigger] all[a]).range.start <= (
            #[trigger] all[b]).range.start by {
                if b < kept.len() {
                    assert(all[a] == kept[a] && all[b] == kept[b]);
                } else {
                    assert(all[a] == kept[a]);
                }
            }
        }
    }
}

/// The definitions of a text come by the start of their acronym.
pub proof fn lemma_definitions_ordered(s: Seq<char>)
    ensures
        forall|a: int, b: int|
            0 <= a < b < spec_definitions(s).len() ==> (#[trigger] spec_definitions(s)[a]).range.start <= (
            #[trigger] spec_definitions(s)[b]).range.start,
{
    let sorted = stable_sorted::<AcronymDefinition, DefinitionOrder>(
        expanded_defs(s, s.len() as int) + short_defs(s, s.len() as int),
    );
    crate::order::lemma_stable_sorted_is_sorted::<AcronymDefinition, DefinitionOrder>(
        expanded_defs(s, s.len() as int) + short_defs(s, s.len() as int),
    );
    assert forall|a: int, b: int| 0 <= a < b < sorted.len() implies (#[trigger] sorted[a]).range.start
        <= (#[trigger] sorted[b]).range.start by {
        assert(DefinitionOrder::ordered(sorted[a], sorted[b]));
    }
    lemma_dedup_ordered(sorted);
}

/// The acronym uses among the first `k` runs come by their start byte, none
/// starting after run `k - 1` does.
proof fn lemma_usages_upto_ordered(s: Seq<char>, runs: Seq<(int, int)>, k: int)
    requires
        0 <= k <= runs.len(),
        byte_len(s) <= usize::MAX,
        forall|r: int| 0 <= r < runs.len() ==> 0 <= (#[trigger] runs[r]).0 < runs[r].1 <= s.len(),
        forall|i: int, j: int| 0 <= i < j < runs.len() ==> (#[trigger] runs[i]).1 < (#[trigger] runs[j]).0,
    ensures
        forall|a: int, b: int|
            0 <= a < b < usages_upto(s, runs, k).len() ==> (#[trigger] usages_upto(s, runs, k)[a]).range.start
                <= (#[trigger] usages_upto(s, runs, k)[b]).range.start,
        k > 0 ==> forall|e: int|
            0 <= e < usages_upto(s, runs, k).len() ==> (#[trigger] usages_upto(s, runs, k)[e]).range.start
                <= byte_pos(s, runs[k - 1].0),
    decreases k,
{
    if k > 0 {
        lemma_usages_upto_ordered(s, runs, k - 1);
        let prev = usages_upto(s, runs, k - 1);
        let all = usages_upto(s, runs, k);
        let run = runs[k - 1];
        lemma_byte_pos_le_len(s, run.0);
        if k > 1 {
            assert(runs[k - 2].1 < runs[k - 1].0);
            lemma_byte_pos_mono(s, runs[k - 2].0, runs[k - 1].0);
        }
        assert forall|e: int| 0 <= e < all.len() implies (#[trigger] all[e]).range.start <= byte_pos(s, run.0) by {
            if e < prev.len() {
                assert(all[e] == prev[e]);
            }
        }
        assert forall|a: int, b: int| 0 <= a < b < all.len() implies (#[trigger] all[a]).range.start <= (
        #[trigger] all[b]).range.start by {
            if b < prev.len() {
                assert(all[a] == prev[a] && all[b] == prev[b]);
            } else {
                assert(all[a] == prev[a]);
            }
        }
    }
}

/// The acronym uses of a text come by their start byte.
pub proof fn lemma_usages_ordered(s: Seq<char>)
    requires
        byte_len(s) <= usize::MAX,
    ensures
        forall|a: int, b: int|
            0 <= a < b < spec_usages(s).len() ==> (#[trigger] spec_usages(s)[a]).range.start <= (
            #[trigger] spec_usages(s)[b]).range.start,
{
    let runs = class_runs(s, CharClass::AsciiWord);
    lemma_class_runs_bounds(s, CharClass::AsciiWord);
    lemma_class_runs_ordered(s, CharClass::AsciiWord);
    lemma_usages_upto_ordered(s, runs, runs.len() as int);
}

/// The byte range `range` of `s` holds exactly the characters `t`.
pub open spec fn points_at(s: Seq<char>, range: Range<usize>, t: Seq<char>) -> bool {
    exists|lo: int, hi: int|
        0 <= lo <= hi <= s.len() && byte_pos(s, lo) == range.start && byte_pos(s, hi) == range.end
            && #[trigger] s.subrange(lo, hi) == t
}

/// Characters `lo..hi` of a text that fits byte offsets, located by their byte range.
proof fn lemma_byte_range_points_at(s: Seq<char>, lo: int, hi: int)
    requires
        0 <= lo <= hi <= s.len(),
        byte_len(s) <= usize::MAX,
    ensures
        points_at(s, byte_range(s, lo, hi), s.subrange(lo, hi)),
{
    lemma_byte_pos_le_len(s, lo);
    lemma_byte_pos_le_len(s, hi);
    assert(s.subrange(lo, hi) == s.subrange(lo, hi));
}

proof fn lemma_expanded_defs_point(s: Seq<char>, n: int)
    requires
        0 <= n <= s.len(),
        byte_len(s) <= usize::MAX,
    ensures
        forall|k: int|
            0 <= k < expanded_defs(s, n).len() ==> points_at(
                s,
                (#[trigger] expanded_defs(s, n)[k]).range,
                expanded_defs(s, n)[k].acronym,
            ),
    decreases n,
{
    if n > 0 {
        lemma_expanded_defs_point(s, n - 1);
        let p = n - 1;
        if let Some(m) = expanded_at(s, p) {
            let a = skip_ws(s, p + 1, s.len() as int);
            let c = form_end(s, a + 1);
            lemma_skip_ws(s, p + 1, s.len() as int);
            lemma_form_end(s, a + 1);
            lemma_skip_ws(s, c + 1, s.len() as int);
            lemma_upper_end(s, m.2);
            lemma_byte_range_points_at(s, m.2, m.3);
        }
    }
}

proof fn lemma_short_defs_point(s: Seq<char>, n: int)
    requires
        0 <= n <= s.len(),
        byte_len(s) <= usize::MAX,
    ensures
        forall|k: int|
            0 <= k < short_defs(s, n).len() ==> points_at(
                s,
                (#[trigger] short_defs(s, n)[k]).range,
                short_defs(s, n)[k].acronym,
            ),
    decreases n,
{
    if n > 0 {
        lemma_short_defs_point(s, n - 1);
        let p = n - 1;
        if let Some(m) = short_at(s, p) {
            lemma_skip_ws(s, p + 1, s.len() as int);
            lemma_upper_end(s, m.0);
            lemma_byte_range_points_at(s, m.0, m.1);
        }
    }
}

/// Dedup keeps only elements of the list.
proof fn lemma_dedup_from(s: Seq<DefinitionView>)
    ensures
        forall|k: int| 0 <= k < dedup_definitions(s).len() ==> s.contains(#[trigger] dedup_definitions(s)[k]),
    decreases s.len(),
{
    if s.len() > 0 {
        let p = s.drop_last();
        lemma_dedup_from(p);
        let kept = dedup_definitions(p);
        let all = dedup_definitions(s);
        assert forall|k: int| 0 <= k < all.len() implies s.contains(#[trigger] all[k]) by {
            if k < kept.len() {
                assert(all[k] == kept[k]);
                let i = choose|i: int| 0 <= i < p.len() && p[i] == kept[k];
                assert(s[i] == p[i]);
            } else {
                assert(all[k] == s[s.len() - 1]);
            }
        }
    }
}

/// Each definition's range is where its acronym stands in the text.
pub proof fn lemma_definitions_point_at_acronyms(s: Seq<char>)
    requires
        byte_len(s) <= usize::MAX,
    ensures
        forall|k: int|
            0 <= k < spec_definitions(s).len() ==> points_at(
                s,
                (#[trigger] spec_definitions(s)[k]).range,
                spec_definitions(s)[k].acronym,
            ),
{
    let e = expanded_defs(s, s.len() as int);
    let sh = short_defs(s, s.len() as int);
    let found = e + sh;
    lemma_expanded_defs_point(s, s.len() as int);
    lemma_short_defs_point(s, s.len() as int);
    let sorted = stable_sorted::<AcronymDefinition, DefinitionOrder>(found);
    crate::order::lemma_stable_sorted_permutes::<AcronymDefinition, DefinitionOrder>(found);
    lemma_dedup_from(sorted);
    let defs = spec_definitions(s);
    assert forall|k: int| 0 <= k < defs.len() implies points_at(s, (#[trigger] defs[k]).range, defs[k].acronym) by {
        let x = defs[k];
        assert(sorted.contains(x));
        let i = choose|i: int| 0 <= i < sorted.len() && sorted[i] == x;
        vstd::seq_lib::to_multiset_contains(sorted, x);
        vstd::seq_lib::to_multiset_contains(found, x);
        let j = choose|j: int| 0 <= j < found.len() && found[j] == x;
        if j < e.len() {
            assert(found[j] == e[j]);
        } else {
            assert(found[j] == sh[j - e.len()]);
        }
    }
}

/// Each acronym use's range is where the acronym stands in the text.
pub proof fn lemma_usages_point_at_acronyms(s: Seq<char>)
    requires
        byte_len(s) <= usize::MAX,
    ensures
        forall|k: int|
            0 <= k < spec_usages(s).len() ==> points_at(s, (#[trigger] spec_usages(s)[k]).range, spec_usages(s)[k].acronym),
{
    let runs = class_runs(s, CharClass::AsciiWord);
    lemma_class_runs_bounds(s, CharClass::AsciiWord);
    lemma_usages_upto_point(s, runs, runs.len() as int);
}

proof fn lemma_usages_upto_point(s: Seq<char>, runs: Seq<(int, int)>, k: int)
    requires
        0 <= k <= runs.len(),
        byte_len(s) <= usize::MAX,
        forall|r: int| 0 <= r < runs.len() ==> 0 <= (#[trigger] runs[r]).0 < runs[r].1 <= s.len(),
    ensures
        forall|e: int|
            0 <= e < usages_upto(s, runs, k).len() ==> points_at(
                s,
                (#[trigger] usages_upto(s, runs, k)[e]).range,
                usages_upto(s, runs, k)[e].acronym,
            ),
    decreases k,
{
    if k > 0 {
        lemma_usages_upto_point(s, runs, k - 1);
        let run = runs[k - 1];
        lemma_byte_range_points_at(s, run.0, run.1);
        let prev = usages_upto(s, runs, k - 1);
        let all = usages_upto(s, runs, k);
        assert forall|e: int| 0 <= e < all.len() implies points_at(s, (#[trigger] all[e]).range, all[e].acronym) by {
            if e < prev.len() {
                assert(all[e] == prev[e]);
            }
        }
    }
}

} // verus!
