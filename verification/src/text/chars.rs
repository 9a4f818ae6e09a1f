//! Sentence length statistics.
use super::language::Language;
use super::unicode::{chars_of, is_ascii_alpha, is_ascii_digit, is_cjk, is_whitespace};
use vstd::prelude::*;

verus! {

/// Statistics about sentence content
#[derive(Debug, Clone, PartialEq, Eq)]
pub struct SentenceStats {
    /// Number of CJK characters
    pub cjk_chars: usize,
    /// Number of Latin words (space-separated)
    pub latin_words: usize,
    /// Number of numeric tokens
    pub numeric_tokens: usize,
    /// Effective length = cjk_chars + latin_words + numeric_tokens
    pub effective_length: usize,
}

/// Number of CJK characters in `s`.
pub open spec fn cjk_count(s: Seq<char>) -> nat
    decreases s.len(),
{
    if s.len() == 0 {
        0
    } else {
        cjk_count(s.drop_last()) + if is_cjk(s.last()) {
            1nat
        } else {
            0nat
        }
    }
}

/// Punctuation that separates statistics tokens.
#[verifier::allow_in_spec]
pub fn is_punctuation(c: char) -> bool
    returns
        c == '.' || c == ',' || c == '!' || c == '?' || c == ';' || c == ':' || c == '。' || c
            == '，' || c == '！' || c == '？' || c == '；' || c == '：' || c == '(' || c == ')' || c
            == '（' || c == '）' || c == '[' || c == ']' || c == '{' || c == '}' || c == '"' || c
            == '\'' || c == '\u{2018}' || c == '\u{2019}',
{
    c == '.' || c == ',' || c == '!' || c == '?' || c == ';' || c == ':' || c == '。' || c == '，'
        || c == '！' || c == '？' || c == '；' || c == '：' || c == '(' || c == ')' || c == '（'
        || c == '）' || c == '[' || c == ']' || c == '{' || c == '}' || c == '"' || c == '\''
        || c == '\u{2018}' || c == '\u{2019}'
}

pub open spec fn is_token_separator(c: char) -> bool {
    is_whitespace(c) || is_punctuation(c)
}

/// The pieces of `s` between separators, empty pieces included
/// (`str::split` with a character predicate).
pub open spec fn split_tokens(s: Seq<char>) -> Seq<Seq<char>>
    decreases s.len(),
{
    if s.len() == 0 {
        seq![Seq::<char>::empty()]
    } else {
        let ts = split_tokens(s.drop_last());
        if is_token_separator(s.last()) {
            ts.push(Seq::<char>::empty())
        } else {
            ts.update(ts.len() - 1, ts.last().push(s.last()))
        }
    }
}

pub open spec fn all_ascii_alpha(t: Seq<char>) -> bool {
    forall|i: int| 0 <= i < t.len() ==> is_ascii_alpha(#[trigger] t[i])
}

pub open spec fn all_digit_or_dot(t: Seq<char>) -> bool {
    forall|i: int| 0 <= i < t.len() ==> is_ascii_digit(#[trigger] t[i]) || t[i] == '.'
}

pub open spec fn is_latin_word(t: Seq<char>) -> bool {
    t.len() > 0 && all_ascii_alpha(t)
}

pub open spec fn is_numeric_token(t: Seq<char>) -> bool {
    t.len() > 0 && !all_ascii_alpha(t) && all_digit_or_dot(t)
}

pub open spec fn latin_count(ts: Seq<Seq<char>>) -> nat
    decreases ts.len(),
{
    if ts.len() == 0 {
        0
    } else {
        latin_count(ts.drop_last()) + if is_latin_word(ts.last()) {
            1nat
        } else {
            0nat
        }
    }
}

pub open spec fn numeric_count(ts: Seq<Seq<char>>) -> nat
    decreases ts.len(),
{
    if ts.len() == 0 {
        0
    } else {
        numeric_count(ts.drop_last()) + if is_numeric_token(ts.last()) {
            1nat
        } else {
            0nat
        }
    }
}

pub proof fn lemma_split_tokens_nonempty(s: Seq<char>)
    ensures
        split_tokens(s).len() >= 1,
    decreases s.len(),
{
    if s.len() > 0 {
        lemma_split_tokens_nonempty(s.drop_last());
    }
}

/// Calculate statistics for a sentence
pub fn calculate_stats(text: &str) -> (stats: SentenceStats)
    ensures
        stats.cjk_chars == cjk_count(text@),
        stats.latin_words == latin_count(split_tokens(text@)),
        stats.numeric_tokens == numeric_count(split_tokens(text@)),
        stats.effective_length == stats.cjk_chars + stats.latin_words + stats.numeric_tokens,
{
    let chars = chars_of(text);
    let ghost s = chars@;
    let mut cjk: usize = 0;
    let mut latin: usize = 0;
    let mut numeric: usize = 0;
    let mut cur_len: usize = 0;
    let mut cur_alpha = true;
    let mut cur_num = true;
    let mut i: usize = 0;
    assert(s.take(0) =~= Seq::<char>::empty());
    while i < chars.len()
        invariant
            s == chars@,
            i <= chars.len(),
            cur_len <= i,
            cjk == cjk_count(s.take(i as int)),
            split_tokens(s.take(i as int)).len() >= 1,
            latin == latin_count(split_tokens(s.take(i as int)).drop_last()),
            numeric == numeric_count(split_tokens(s.take(i as int)).drop_last()),
            cur_len == split_tokens(s.take(i as int)).last().len(),
            cur_alpha == all_ascii_alpha(split_tokens(s.take(i as int)).last()),
            cur_num == all_digit_or_dot(split_tokens(s.take(i as int)).last()),
            cjk + latin + numeric + (if cur_len > 0 && (cur_alpha || cur_num) {
                1int
            } else {
                0int
            }) <= i,
        decreases chars.len() - i,
    {
        let c = chars[i];
        let ghost prev = s.take(i as int);
        let ghost next = s.take(i + 1);
        assert(next.drop_last() =~= prev);
        assert(next.last() == c);
        proof {
            lemma_split_tokens_nonempty(prev);
        }
        if is_cjk(c) {
            cjk = cjk + 1;
        }
        if is_whitespace(c) || is_punctuation(c) {
            if cur_len > 0 && cur_alpha {
                latin = latin + 1;
            } else if cur_len > 0 && cur_num {
                numeric = numeric + 1;
            }
            cur_len = 0;
            cur_alpha = true;
            cur_num = true;
            assert(split_tokens(next).drop_last() =~= split_tokens(prev));
        } else {
            let ghost old_last = split_tokens(prev).last();
            let ghost new_last = old_last.push(c);
            cur_len = cur_len + 1;
            cur_alpha = cur_alpha && is_ascii_alpha(c);
            cur_num = cur_num && (is_ascii_digit(c) || c == '.');
            assert(split_tokens(next).drop_last() =~= split_tokens(prev).drop_last());
            assert(split_tokens(next).last() =~= new_last);
            assert(cur_alpha == all_ascii_alpha(new_last)) by {
                if cur_alpha {
                    assert forall|k: int| 0 <= k < new_last.len() implies is_ascii_alpha(
                        #[trigger] new_last[k],
                    ) by {
                        if k < old_last.len() {
                            assert(new_last[k] == old_last[k]);
                        }
                    }
                } else {
                    if !all_ascii_alpha(old_last) {
                        let k = choose|k: int| 0 <= k < old_last.len() && !is_ascii_alpha(old_last[k]);
                        assert(new_last[k] == old_last[k]);
                    } else {
                        assert(new_last[new_last.len() - 1] == c);
                    }
                }
            }
            assert(cur_num == all_digit_or_dot(new_last)) by {
                if cur_num {
                    assert forall|k: int| 0 <= k < new_last.len() implies is_ascii_digit(
                        #[trigger] new_last[k],
                    ) || new_last[k] == '.' by {
                        if k < old_last.len() {
                            assert(new_last[k] == old_last[k]);
                        }
                    }
                } else {
                    if !all_digit_or_dot(old_last) {
                        let k = choose|k: int|
                            0 <= k < old_last.len() && !(is_ascii_digit(old_last[k]) || old_last[k]
                                == '.');
                        assert(new_last[k] == old_last[k]);
                    } else {
                        assert(new_last[new_last.len() - 1] == c);
                    }
                }
            }
        }
        i = i + 1;
    }
    assert(s.take(s.len() as int) =~= s);
    proof {
        lemma_split_tokens_nonempty(s);
    }
    let ghost ts = split_tokens(s);
    if cur_len > 0 && cur_alpha {
        latin = latin + 1;
    } else if cur_len > 0 && cur_num {
        numeric = numeric + 1;
    }
    SentenceStats {
        cjk_chars: cjk,
        latin_words: latin,
        numeric_tokens: numeric,
        effective_length: cjk + latin + numeric,
    }
}

/// Number of maximal runs of non-whitespace characters (`split_whitespace().count()`).
pub open spec fn word_count(s: Seq<char>) -> nat
    decreases s.len(),
{
    if s.len() == 0 {
        0
    } else {
        word_count(s.drop_last()) + if !is_whitespace(s.last()) && (s.len() == 1 || is_whitespace(
            s[s.len() - 2],
        )) {
            1nat
        } else {
            0nat
        }
    }
}

/// Whitespace-separated word count.
pub fn count_words(text: &str) -> (n: usize)
    ensures
        n == word_count(text@),
{
    let chars = chars_of(text);
    let ghost s = chars@;
    let mut n: usize = 0;
    let mut i: usize = 0;
    assert(s.take(0) =~= Seq::<char>::empty());
    while i < chars.len()
        invariant
            s == chars@,
            i <= chars.len(),
            n == word_count(s.take(i as int)),
            n <= i,
        decreases chars.len() - i,
    {
        let ghost next = s.take(i + 1);
        assert(next.drop_last() =~= s.take(i as int));
        if !is_whitespace(chars[i]) && (i == 0 || is_whitespace(chars[i - 1])) {
            n = n + 1;
        }
        i = i + 1;
    }
    assert(s.take(s.len() as int) =~= s);
    n
}

pub open spec fn spec_effective_length(s: Seq<char>, language: Language) -> int {
    match language {
        Language::English => word_count(s) as int,
        _ => (cjk_count(s) + latin_count(split_tokens(s)) + numeric_count(split_tokens(s))) as int,
    }
}

/// Get effective length based on language
pub fn effective_length(text: &str, language: Language) -> (n: usize)
    ensures
        n == spec_effective_length(text@, language),
{
    match language {
        Language::Chinese | Language::Mixed => calculate_stats(text).effective_length,
        Language::English => count_words(text),
    }
}

/// Text after whitespace starts afresh: the words of `x + y`, when `x` is
/// empty or ends in whitespace, are those of `x` and then those of `y`.
proof fn lemma_word_count_after_space(x: Seq<char>, y: Seq<char>)
    requires
        x.len() == 0 || is_whitespace(x.last()),
    ensures
        word_count(x + y) == word_count(x) + word_count(y),
    decreases y.len(),
{
    if y.len() == 0 {
        assert(x + y =~= x);
    } else {
        lemma_word_count_after_space(x, y.drop_last());
        assert((x + y).drop_last() =~= x + y.drop_last());
        assert((x + y).last() == y.last());
        if y.len() > 1 {
            assert((x + y)[(x + y).len() - 2] == y[y.len() - 2]);
        } else if x.len() > 0 {
            assert((x + y)[(x + y).len() - 2] == x.last());
        }
    }
}

/// A run of characters none of which is whitespace is one word.
proof fn lemma_one_word(a: Seq<char>)
    requires
        a.len() > 0,
        forall|i: int| 0 <= i < a.len() ==> !is_whitespace(#[trigger] a[i]),
    ensures
        word_count(a) == 1,
    decreases a.len(),
{
    assert(!is_whitespace(a[a.len() - 1]));
    if a.len() > 1 {
        lemma_one_word(a.drop_last());
        assert(!is_whitespace(a[a.len() - 2]));
    } else {
        assert(word_count(a.drop_last()) == 0);
    }
}

/// Words are counted as `str::split_whitespace` splits them: an empty text
/// has none, a run without whitespace is one word, and joining two texts
/// with whitespace between them adds their counts.
pub proof fn lemma_word_count_splits_on_whitespace(a: Seq<char>, b: Seq<char>, c: char)
    requires
        is_whitespace(c),
    ensures
        word_count(Seq::empty()) == 0,
        a.len() > 0 && (forall|i: int| 0 <= i < a.len() ==> !is_whitespace(#[trigger] a[i])) ==> word_count(a) == 1,
        word_count(a + seq![c] + b) == word_count(a) + word_count(b),
{
    if a.len() > 0 && (forall|i: int| 0 <= i < a.len() ==> !is_whitespace(#[trigger] a[i])) {
        lemma_one_word(a);
    }
    lemma_word_count_after_space(a + seq![c], b);
    assert((a + seq![c]).drop_last() =~= a);
    assert((a + seq![c]).last() == c);
}

} // verus!
