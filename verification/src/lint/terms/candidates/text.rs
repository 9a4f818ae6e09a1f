//! Character-level predicates shared by the candidate extractors.
use super::model::TermCandidateEvidence;
use crate::text::unicode::{
    chars_of, is_ascii_alnum, is_ascii_alpha, is_ascii_digit, is_ascii_lower, is_ascii_punct,
    is_ascii_upper, is_cjk, is_whitespace,
};
use crate::text::runs::{char_runs, class_runs, CharClass};
use vstd::prelude::*;

verus! {

/// Maximal runs of `[A-Za-z0-9_-]`, as character ranges, in order.
pub open spec fn id_runs(s: Seq<char>) -> Seq<(int, int)> {
    class_runs(s, CharClass::Identifier)
}

/// The identifier runs of `chars`, as character ranges.
pub fn identifier_runs(chars: &Vec<char>) -> (runs: Vec<(usize, usize)>)
    ensures
        runs@.len() == id_runs(chars@).len(),
        forall|k: int|
            0 <= k < runs@.len() ==> (#[trigger] runs@[k]).0 == id_runs(chars@)[k].0 && runs@[k].1
                == id_runs(chars@)[k].1,
        forall|k: int| 0 <= k < runs@.len() ==> (#[trigger] runs@[k]).0 < runs@[k].1 <= chars.len(),
{
    char_runs(chars, CharClass::Identifier)
}

pub open spec fn all_ascii_alnum(s: Seq<char>) -> bool {
    forall|i: int| 0 <= i < s.len() ==> is_ascii_alnum(#[trigger] s[i])
}

pub open spec fn spec_is_all_caps(s: Seq<char>) -> bool {
    s.len() >= 2 && forall|i: int| 0 <= i < s.len() ==> is_ascii_upper(#[trigger] s[i])
}

/// A lowercase letter directly followed by an uppercase one.
pub open spec fn has_lower_upper_pair(s: Seq<char>) -> bool {
    exists|i: int| 1 <= i < s.len() && is_ascii_lower(#[trigger] s[i - 1]) && is_ascii_upper(s[i])
}

pub open spec fn any_lower(s: Seq<char>) -> bool {
    exists|i: int| 0 <= i < s.len() && is_ascii_lower(#[trigger] s[i])
}

/// camelCase anywhere, or PascalCase when the word does not open its sentence;
/// never for a word that starts with a digit.
pub open spec fn spec_is_camel_or_pascal(s: Seq<char>, sentence_initial: bool) -> bool {
    !(s.len() > 0 && is_ascii_digit(s[0])) && (has_lower_upper_pair(s) || (!sentence_initial
        && s.len() > 0 && is_ascii_upper(s[0]) && any_lower(s)))
}

pub open spec fn spec_has_letter_and_digit(s: Seq<char>) -> bool {
    (exists|i: int| 0 <= i < s.len() && is_ascii_alpha(#[trigger] s[i])) && (exists|i: int|
        0 <= i < s.len() && is_ascii_digit(#[trigger] s[i]))
}

pub open spec fn opt_shape(present: bool, e: TermCandidateEvidence) -> Seq<TermCandidateEvidence> {
    if present {
        seq![e]
    } else {
        Seq::empty()
    }
}

/// Shape evidence of an ASCII word: all caps, camel/Pascal case, letters with digits.
pub open spec fn spec_shape_evidence(s: Seq<char>, sentence_initial: bool) -> Seq<
    TermCandidateEvidence,
> {
    if !all_ascii_alnum(s) {
        Seq::empty()
    } else {
        opt_shape(spec_is_all_caps(s), TermCandidateEvidence::AllCaps) + opt_shape(
            spec_is_camel_or_pascal(s, sentence_initial),
            TermCandidateEvidence::CamelOrPascalCase,
        ) + opt_shape(spec_has_letter_and_digit(s), TermCandidateEvidence::LetterDigit)
    }
}

pub fn is_all_caps(s: &Vec<char>, lo: usize, hi: usize) -> (r: bool)
    requires
        lo <= hi <= s.len(),
    ensures
        r == spec_is_all_caps(s@.subrange(lo as int, hi as int)),
{
    let ghost t = s@.subrange(lo as int, hi as int);
    if hi - lo < 2 {
        return false;
    }
    let mut i = lo;
    while i < hi
        invariant
            lo <= i <= hi <= s.len(),
            t == s@.subrange(lo as int, hi as int),
            forall|k: int| 0 <= k < i - lo ==> is_ascii_upper(#[trigger] t[k]),
        decreases hi - i,
    {
        if !is_ascii_upper(s[i]) {
            assert(t[i - lo] == s@[i as int]);
            return false;
        }
        i = i + 1;
    }
    true
}

pub fn is_camel_or_pascal(s: &Vec<char>, lo: usize, hi: usize, sentence_initial: bool) -> (r: bool)
    requires
        lo <= hi <= s.len(),
    ensures
        r == spec_is_camel_or_pascal(s@.subrange(lo as int, hi as int), sentence_initial),
{
    let ghost t = s@.subrange(lo as int, hi as int);
    if lo < hi && is_ascii_digit(s[lo]) {
        return false;
    }
    let mut previous_lower = false;
    let mut any_lower_seen = false;
    let mut i = lo;
    while i < hi
        invariant
            lo <= i <= hi <= s.len(),
            t == s@.subrange(lo as int, hi as int),
            !(lo < hi && is_ascii_digit(t[0])),
            previous_lower == (i > lo && is_ascii_lower(t[i - lo - 1])),
            any_lower_seen == exists|k: int| 0 <= k < i - lo && is_ascii_lower(#[trigger] t[k]),
            forall|k: int| 1 <= k < i - lo ==> !(is_ascii_lower(#[trigger] t[k - 1]) && is_ascii_upper(t[k])),
        decreases hi - i,
    {
        let c = s[i];
        assert(t[i - lo] == c);
        if previous_lower && is_ascii_upper(c) {
            assert(is_ascii_lower(t[i - lo - 1]) && is_ascii_upper(t[i - lo]));
            return true;
        }
        previous_lower = is_ascii_lower(c);
        if previous_lower {
            any_lower_seen = true;
        }
        i = i + 1;
    }
    assert(!has_lower_upper_pair(t));
    !sentence_initial && lo < hi && is_ascii_upper(s[lo]) && any_lower_seen
}

pub fn has_letter_and_digit(s: &Vec<char>, lo: usize, hi: usize) -> (r: bool)
    requires
        lo <= hi <= s.len(),
    ensures
        r == spec_has_letter_and_digit(s@.subrange(lo as int, hi as int)),
{
    let ghost t = s@.subrange(lo as int, hi as int);
    let mut letter = false;
    let mut digit = false;
    let mut i = lo;
    while i < hi
        invariant
            lo <= i <= hi <= s.len(),
            t == s@.subrange(lo as int, hi as int),
            letter == exists|k: int| 0 <= k < i - lo && is_ascii_alpha(#[trigger] t[k]),
            digit == exists|k: int| 0 <= k < i - lo && is_ascii_digit(#[trigger] t[k]),
        decreases hi - i,
    {
        assert(t[i - lo] == s@[i as int]);
        if is_ascii_alpha(s[i]) {
            letter = true;
        }
        if is_ascii_digit(s[i]) {
            digit = true;
        }
        i = i + 1;
    }
    letter && digit
}

pub fn all_alnum(s: &Vec<char>, lo: usize, hi: usize) -> (r: bool)
    requires
        lo <= hi <= s.len(),
    ensures
        r == all_ascii_alnum(s@.subrange(lo as int, hi as int)),
{
    let ghost t = s@.subrange(lo as int, hi as int);
    let mut i = lo;
    while i < hi
        invariant
            lo <= i <= hi <= s.len(),
            t == s@.subrange(lo as int, hi as int),
            forall|k: int| 0 <= k < i - lo ==> is_ascii_alnum(#[trigger] t[k]),
        decreases hi - i,
    {
        if !is_ascii_alnum(s[i]) {
            assert(t[i - lo] == s@[i as int]);
            return false;
        }
        i = i + 1;
    }
    true
}

/// Shape evidence of `s[lo..hi]`.
pub fn shape_evidence(s: &Vec<char>, lo: usize, hi: usize, sentence_initial: bool) -> (ev: Vec<
    TermCandidateEvidence,
>)
    requires
        lo <= hi <= s.len(),
    ensures
        ev@ == spec_shape_evidence(s@.subrange(lo as int, hi as int), sentence_initial),
{
    let mut evidence = Vec::new();
    if !all_alnum(s, lo, hi) {
        return evidence;
    }
    if is_all_caps(s, lo, hi) {
        evidence.push(TermCandidateEvidence::AllCaps);
    }
    if is_camel_or_pascal(s, lo, hi, sentence_initial) {
        evidence.push(TermCandidateEvidence::CamelOrPascalCase);
    }
    if has_letter_and_digit(s, lo, hi) {
        evidence.push(TermCandidateEvidence::LetterDigit);
    }
    assert(evidence@ =~= spec_shape_evidence(s@.subrange(lo as int, hi as int), sentence_initial));
    evidence
}

/// Some identifier run of `s` has shape evidence (judged as if not sentence-initial).
pub open spec fn spec_has_ascii_shape(s: Seq<char>) -> bool {
    exists|k: int|
        0 <= k < id_runs(s).len() && spec_shape_evidence(
            s.subrange((#[trigger] id_runs(s)[k]).0, id_runs(s)[k].1),
            false,
        ).len() > 0
}

pub fn has_ascii_shape_chars(chars: &Vec<char>) -> (r: bool)
    ensures
        r == spec_has_ascii_shape(chars@),
{
    let runs = identifier_runs(chars);
    let mut k: usize = 0;
    while k < runs.len()
        invariant
            k <= runs.len(),
            runs@.len() == id_runs(chars@).len(),
            forall|j: int|
                0 <= j < runs@.len() ==> (#[trigger] runs@[j]).0 == id_runs(chars@)[j].0 && runs@[j].1
                    == id_runs(chars@)[j].1,
            forall|j: int| 0 <= j < runs@.len() ==> (#[trigger] runs@[j]).0 < runs@[j].1 <= chars.len(),
            forall|j: int|
                0 <= j < k ==> spec_shape_evidence(
                    chars@.subrange((#[trigger] id_runs(chars@)[j]).0, id_runs(chars@)[j].1),
                    false,
                ).len() == 0,
        decreases runs.len() - k,
    {
        let (lo, hi) = runs[k];
        let ev = shape_evidence(chars, lo, hi, false);
        if ev.len() > 0 {
            return true;
        }
        k = k + 1;
    }
    false
}

/// Whether an ASCII run of `surface` has identifier shape.
pub fn has_ascii_shape(surface: &str) -> (r: bool)
    ensures
        r == spec_has_ascii_shape(surface@),
{
    let chars = chars_of(surface);
    has_ascii_shape_chars(&chars)
}

pub open spec fn spec_has_cjk(s: Seq<char>) -> bool {
    exists|i: int| 0 <= i < s.len() && is_cjk(#[trigger] s[i])
}

pub fn has_cjk_chars(s: &Vec<char>, lo: usize, hi: usize) -> (r: bool)
    requires
        lo <= hi <= s.len(),
    ensures
        r == spec_has_cjk(s@.subrange(lo as int, hi as int)),
{
    let ghost t = s@.subrange(lo as int, hi as int);
    let mut i = lo;
    while i < hi
        invariant
            lo <= i <= hi <= s.len(),
            t == s@.subrange(lo as int, hi as int),
            forall|k: int| 0 <= k < i - lo ==> !is_cjk(#[trigger] t[k]),
        decreases hi - i,
    {
        if is_cjk(s[i]) {
            assert(t[i - lo] == s@[i as int]);
            return true;
        }
        i = i + 1;
    }
    false
}

/// Whether `surface` holds a CJK ideograph.
pub fn has_cjk(surface: &str) -> (r: bool)
    ensures
        r == spec_has_cjk(surface@),
{
    let chars = chars_of(surface);
    let r = has_cjk_chars(&chars, 0, chars.len());
    assert(chars@.subrange(0, chars@.len() as int) =~= chars@);
    r
}

/// CJK punctuation that ends a term.
#[verifier::allow_in_spec]
pub fn is_cjk_punctuation(c: char) -> bool
    returns
        c == '。' || c == '，' || c == '！' || c == '？' || c == '；' || c == '：' || c == '、' || c
            == '（' || c == '）' || c == '“' || c == '”',
{
    c == '。' || c == '，' || c == '！' || c == '？' || c == '；' || c == '：' || c == '、' || c == '（'
        || c == '）' || c == '“' || c == '”'
}

pub open spec fn spec_has_punctuation(s: Seq<char>) -> bool {
    exists|i: int|
        0 <= i < s.len() && (is_ascii_punct(#[trigger] s[i]) || is_cjk_punctuation(s[i]))
}

pub fn has_punctuation_chars(s: &Vec<char>, lo: usize, hi: usize) -> (r: bool)
    requires
        lo <= hi <= s.len(),
    ensures
        r == spec_has_punctuation(s@.subrange(lo as int, hi as int)),
{
    let ghost t = s@.subrange(lo as int, hi as int);
    let mut i = lo;
    while i < hi
        invariant
            lo <= i <= hi <= s.len(),
            t == s@.subrange(lo as int, hi as int),
            forall|k: int| 0 <= k < i - lo ==> !(is_ascii_punct(#[trigger] t[k]) || is_cjk_punctuation(t[k])),
        decreases hi - i,
    {
        if is_ascii_punct(s[i]) || is_cjk_punctuation(s[i]) {
            assert(t[i - lo] == s@[i as int]);
            return true;
        }
        i = i + 1;
    }
    false
}

/// Sentence punctuation that bounds a context capture.
#[verifier::allow_in_spec]
pub fn is_context_boundary(c: char) -> bool
    returns
        c == '。' || c == '，' || c == ',' || c == ';' || c == '；' || c == '.' || c == '!' || c
            == '！' || c == '?' || c == '？' || c == ':' || c == '：' || c == '、',
{
    c == '。' || c == '，' || c == ',' || c == ';' || c == '；' || c == '.' || c == '!' || c == '！'
        || c == '?' || c == '？' || c == ':' || c == '：' || c == '、'
}

/// Characters that can make up a term.
#[verifier::allow_in_spec]
pub fn is_context_term_char(c: char) -> bool
    returns
        is_ascii_alnum(c) || is_cjk(c),
{
    is_ascii_alnum(c) || is_cjk(c)
}

/// Whitespace, sentence punctuation and parentheses.
#[verifier::allow_in_spec]
pub fn is_context_punctuation_or_space(c: char) -> bool
    returns
        is_whitespace(c) || is_context_boundary(c) || c == '、' || c == '(' || c == ')' || c == '（'
            || c == '）',
{
    is_whitespace(c) || is_context_boundary(c) || c == '、' || c == '(' || c == ')' || c == '（'
        || c == '）'
}

} // verus!
