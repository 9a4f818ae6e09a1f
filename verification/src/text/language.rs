//! Dominant script detection.
use super::chars::cjk_count;
use super::unicode::{chars_of, is_ascii_alpha, is_cjk};
use vstd::prelude::*;

verus! {

/// Detected language/script of text
#[derive(Debug, Clone, Copy, PartialEq, Eq)]
pub enum Language {
    Chinese,
    English,
    Mixed,
}

/// Number of ASCII letters in `s`.
pub open spec fn latin_letter_count(s: Seq<char>) -> nat
    decreases s.len(),
{
    if s.len() == 0 {
        0
    } else {
        latin_letter_count(s.drop_last()) + if is_ascii_alpha(s.last()) {
            1nat
        } else {
            0nat
        }
    }
}

/// The script with more characters wins; ties and text with neither script are mixed.
pub open spec fn spec_detect_language(s: Seq<char>) -> Language {
    let cjk = cjk_count(s);
    let latin = latin_letter_count(s);
    if cjk == 0 && latin == 0 {
        Language::Mixed
    } else if cjk > latin {
        Language::Chinese
    } else if latin > cjk {
        Language::English
    } else {
        Language::Mixed
    }
}

/// Detect primary language of text based on character distribution
pub fn detect_language(text: &str) -> (language: Language)
    ensures
        language == spec_detect_language(text@),
{
    let chars = chars_of(text);
    let ghost s = chars@;
    let mut cjk: usize = 0;
    let mut latin: usize = 0;
    let mut i: usize = 0;
    assert(s.take(0) =~= Seq::<char>::empty());
    while i < chars.len()
        invariant
            s == chars@,
            i <= chars.len(),
            cjk == cjk_count(s.take(i as int)),
            latin == latin_letter_count(s.take(i as int)),
            cjk + latin <= i,
        decreases chars.len() - i,
    {
        let ghost next = s.take(i + 1);
        assert(next.drop_last() =~= s.take(i as int));
        let c = chars[i];
        if is_cjk(c) {
            cjk = cjk + 1;
        } else if is_ascii_alpha(c) {
            latin = latin + 1;
        }
        i = i + 1;
    }
    assert(s.take(s.len() as int) =~= s);
    if cjk == 0 && latin == 0 {
        return Language::Mixed;
    }
    if cjk > latin {
        Language::Chinese
    } else if latin > cjk {
        Language::English
    } else {
        Language::Mixed
    }
}

} // verus!
