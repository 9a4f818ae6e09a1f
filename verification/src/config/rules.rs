//! Per-rule configuration.
use crate::text::lexicon::LexemeKind;
use crate::text::unicode::{chars_of, is_whitespace, string_of};
use vstd::prelude::*;

verus! {

/// How a rule reports.
#[derive(Debug, Clone, Copy, PartialEq, Eq, Structural)]
pub enum Level {
    Off,
    Warning,
    Error,
}

impl Level {
    /// Whether the rule runs at all.
    pub fn is_enabled(self) -> (r: bool)
        ensures
            r == (self != Level::Off),
    {
        !matches!(self, Level::Off)
    }
}

/// A configuration whose reporting level can be replaced.
pub trait HasLevel: Sized {
    /// The same configuration at another level.
    spec fn leveled(self, level: Level) -> Self;

    fn set_level(&mut self, level: Level)
        ensures
            *final(self) == old(self).leveled(level),
    ;
}

/// ACR001: acronyms must be defined before use.
#[derive(Debug, Clone, PartialEq, Eq)]
pub struct Acr001Config {
    pub level: Level,
    pub min_length: usize,
    pub ignore: Vec<String>,
}

impl HasLevel for Acr001Config {
    open spec fn leveled(self, level: Level) -> Self {
        Acr001Config { level, ..self }
    }

    fn set_level(&mut self, level: Level) {
        self.level = level;
    }
}

/// ACR002: defined acronyms should be used after their definition.
#[derive(Debug, Clone, PartialEq, Eq)]
pub struct Acr002Config {
    pub level: Level,
    pub min_usages_after_definition: usize,
}

impl HasLevel for Acr002Config {
    open spec fn leveled(self, level: Level) -> Self {
        Acr002Config { level, ..self }
    }

    fn set_level(&mut self, level: Level) {
        self.level = level;
    }
}

/// TERM001: preferred spellings, as (found, preferred) pairs.
#[derive(Debug, Clone, PartialEq, Eq)]
pub struct Term001Config {
    pub level: Level,
    pub replace: Vec<(String, String)>,
}

impl HasLevel for Term001Config {
    open spec fn leveled(self, level: Level) -> Self {
        Term001Config { level, ..self }
    }

    fn set_level(&mut self, level: Level) {
        self.level = level;
    }
}

/// TERM002: shared lexicon terms with `requires_explanation = true`
/// must be explained near their first use. Term selection lives only in
/// the lexicon entries; this config never carries a term list.
#[derive(Debug, Clone, PartialEq, Eq)]
pub struct Term002Config {
    pub level: Level,
    pub context_chars: usize,
}

impl HasLevel for Term002Config {
    open spec fn leveled(self, level: Level) -> Self {
        Term002Config { level, ..self }
    }

    fn set_level(&mut self, level: Level) {
        self.level = level;
    }
}

/// STYLE001: sentence length limits.
#[derive(Debug, Clone, PartialEq, Eq)]
pub struct Style001Config {
    pub level: Level,
    pub max_chars: usize,
    pub max_english_words: usize,
}

impl HasLevel for Style001Config {
    open spec fn leveled(self, level: Level) -> Self {
        Style001Config { level, ..self }
    }

    fn set_level(&mut self, level: Level) {
        self.level = level;
    }
}

/// PUNC002: punctuation at script boundaries, with patterns to ignore.
#[derive(Debug, Clone, PartialEq, Eq)]
pub struct Punc002Config {
    pub level: Level,
    pub ignore_patterns: Vec<String>,
}

impl HasLevel for Punc002Config {
    open spec fn leveled(self, level: Level) -> Self {
        Punc002Config { level, ..self }
    }

    fn set_level(&mut self, level: Level) {
        self.level = level;
    }
}

/// CASE001 has no knobs today; a dedicated config struct keeps the
/// documented `[rules.CASE001]` section open to future options without a
/// breaking config change.
#[derive(Debug, Clone, PartialEq, Eq)]
pub struct Case001Config {
    pub level: Level,
}

impl HasLevel for Case001Config {
    open spec fn leveled(self, level: Level) -> Self {
        Case001Config { level, ..self }
    }

    fn set_level(&mut self, level: Level) {
        self.level = level;
    }
}

/// FUNC001: function-word density. `max_ratio_bits` holds the IEEE-754
/// single-precision bits of the maximum ratio.
#[derive(Debug, Clone, PartialEq, Eq)]
pub struct Func001Config {
    pub level: Level,
    pub max_ratio_bits: u32,
    pub min_sentence_tokens: usize,
    pub words: Vec<String>,
}

impl HasLevel for Func001Config {
    open spec fn leveled(self, level: Level) -> Self {
        Func001Config { level, ..self }
    }

    fn set_level(&mut self, level: Level) {
        self.level = level;
    }
}

/// FUNC002: repeated connectives of one class, as (class, words) pairs.
#[derive(Debug, Clone, PartialEq, Eq)]
pub struct Func002Config {
    pub level: Level,
    pub max_same_class_in_window: usize,
    pub window_tokens: usize,
    pub classes: Vec<(String, Vec<String>)>,
}

impl HasLevel for Func002Config {
    open spec fn leveled(self, level: Level) -> Self {
        Func002Config { level, ..self }
    }

    fn set_level(&mut self, level: Level) {
        self.level = level;
    }
}

/// STYLE002: overused verbs per paragraph.
#[derive(Debug, Clone, PartialEq, Eq)]
pub struct Style002Config {
    pub level: Level,
    pub max_occurrences_per_paragraph: usize,
    pub words: Vec<String>,
}

impl HasLevel for Style002Config {
    open spec fn leveled(self, level: Level) -> Self {
        Style002Config { level, ..self }
    }

    fn set_level(&mut self, level: Level) {
        self.level = level;
    }
}

/// SYN001.
#[derive(Debug, Clone, PartialEq, Eq)]
pub struct Syn001Config {
    pub level: Level,
    pub max_per_paragraph: usize,
}

impl HasLevel for Syn001Config {
    open spec fn leveled(self, level: Level) -> Self {
        Syn001Config { level, ..self }
    }

    fn set_level(&mut self, level: Level) {
        self.level = level;
    }
}

/// SYN002.
#[derive(Debug, Clone, PartialEq, Eq)]
pub struct Syn002Config {
    pub level: Level,
    pub max_per_paragraph: usize,
    pub max_consecutive_sentences: usize,
}

impl HasLevel for Syn002Config {
    open spec fn leveled(self, level: Level) -> Self {
        Syn002Config { level, ..self }
    }

    fn set_level(&mut self, level: Level) {
        self.level = level;
    }
}

/// SYN003: prepositional phrases before the main clause.
#[derive(Debug, Clone, PartialEq, Eq)]
pub struct Syn003Config {
    pub level: Level,
    pub max_prepositional_phrases_before_main_clause: usize,
    pub words: Vec<String>,
}

impl HasLevel for Syn003Config {
    open spec fn leveled(self, level: Level) -> Self {
        Syn003Config { level, ..self }
    }

    fn set_level(&mut self, level: Level) {
        self.level = level;
    }
}

/// SYN004: connectives per sentence.
#[derive(Debug, Clone, PartialEq, Eq)]
pub struct Syn004Config {
    pub level: Level,
    pub max_connectives_per_sentence: usize,
    pub words: Vec<String>,
}

impl HasLevel for Syn004Config {
    open spec fn leveled(self, level: Level) -> Self {
        Syn004Config { level, ..self }
    }

    fn set_level(&mut self, level: Level) {
        self.level = level;
    }
}

/// SYN005: modifier length.
#[derive(Debug, Clone, PartialEq, Eq)]
pub struct Syn005Config {
    pub level: Level,
    pub max_modifier_tokens: usize,
    pub require_dependency: bool,
}

impl HasLevel for Syn005Config {
    open spec fn leveled(self, level: Level) -> Self {
        Syn005Config { level, ..self }
    }

    fn set_level(&mut self, level: Level) {
        self.level = level;
    }
}

/// One workspace lexicon entry.
///
/// Surfaces are trimmed when the entry is read, and empty or
/// whitespace-only canonical forms or aliases are rejected as configuration
/// errors: an empty surface would otherwise match at every position during
/// occurrence collection.
#[derive(Debug, Clone, PartialEq, Eq)]
pub struct LexiconEntryConfig {
    pub canonical: String,
    pub aliases: Vec<String>,
    pub kind: LexemeKind,
    /// Defaults to the sensible value for `kind` when omitted.
    pub case_sensitive: Option<bool>,
    pub requires_explanation: bool,
}

/// The index of the first character at or after `i` that is not whitespace.
pub open spec fn lead(s: Seq<char>, i: int) -> int
    decreases s.len() - i,
{
    if 0 <= i < s.len() && is_whitespace(s[i]) {
        lead(s, i + 1)
    } else {
        i
    }
}

/// The end of `s[lo..j]` once trailing whitespace is dropped.
pub open spec fn trail(s: Seq<char>, lo: int, j: int) -> int
    decreases j - lo,
{
    if lo < j <= s.len() && is_whitespace(s[j - 1]) {
        trail(s, lo, j - 1)
    } else {
        j
    }
}

/// The text without leading and trailing whitespace (`str::trim`).
pub open spec fn trimmed(s: Seq<char>) -> Seq<char> {
    s.subrange(lead(s, 0), trail(s, lead(s, 0), s.len() as int))
}

proof fn lemma_lead_bounds(s: Seq<char>, i: int)
    requires
        0 <= i <= s.len(),
    ensures
        i <= lead(s, i) <= s.len(),
    decreases s.len() - i,
{
    if i < s.len() && is_whitespace(s[i]) {
        lemma_lead_bounds(s, i + 1);
    }
}

proof fn lemma_trail_bounds(s: Seq<char>, lo: int, j: int)
    requires
        0 <= lo <= j <= s.len(),
    ensures
        lo <= trail(s, lo, j) <= j,
    decreases j - lo,
{
    if lo < j && is_whitespace(s[j - 1]) {
        lemma_trail_bounds(s, lo, j - 1);
    }
}

/// `text` without leading and trailing whitespace.
pub fn trim_text(text: &str) -> (r: String)
    ensures
        r@ == trimmed(text@),
{
    let s = chars_of(text);
    let n = s.len();
    let mut lo: usize = 0;
    while lo < n && is_whitespace(s[lo])
        invariant
            lo <= n,
            n == s@.len(),
            lead(s@, lo as int) == lead(s@, 0),
        decreases n - lo,
    {
        lo = lo + 1;
    }
    let mut hi: usize = n;
    while hi > lo && is_whitespace(s[hi - 1])
        invariant
            lo <= hi <= n,
            n == s@.len(),
            trail(s@, lo as int, hi as int) == trail(s@, lo as int, n as int),
        decreases hi,
    {
        hi = hi - 1;
    }
    string_of(&s, lo, hi)
}

/// Why a workspace lexicon entry was refused.
#[derive(Debug, Clone, Copy, PartialEq, Eq, Structural)]
pub enum LexiconEntryError {
    /// The canonical form is empty once trimmed.
    EmptyCanonical,
    /// An alias is empty once trimmed.
    EmptyAlias,
}

impl LexiconEntryError {
    /// The message shown for the refusal.
    pub fn message(self) -> (m: String)
        ensures
            m@ == match self {
                LexiconEntryError::EmptyCanonical => "lexicon.entries: `canonical` must not be empty or whitespace"@,
                LexiconEntryError::EmptyAlias => "lexicon.entries: `aliases` must not contain empty or whitespace entries"@,
            },
    {
        match self {
            LexiconEntryError::EmptyCanonical => "lexicon.entries: `canonical` must not be empty or whitespace".to_owned(),
            LexiconEntryError::EmptyAlias => "lexicon.entries: `aliases` must not contain empty or whitespace entries".to_owned(),
        }
    }
}

impl LexiconEntryConfig {
    /// An entry as written: its surfaces are trimmed, and an empty canonical
    /// form (checked first) or an empty alias refuses it.
    pub fn new(
        canonical: &str,
        aliases: &[String],
        kind: LexemeKind,
        case_sensitive: Option<bool>,
        requires_explanation: bool,
    ) -> (r: Result<LexiconEntryConfig, LexiconEntryError>)
        ensures
            trimmed(canonical@).len() == 0 ==> r == Err::<LexiconEntryConfig, LexiconEntryError>(
                LexiconEntryError::EmptyCanonical,
            ),
            trimmed(canonical@).len() > 0 && (exists|i: int|
                0 <= i < aliases@.len() && #[trigger] trimmed(aliases@[i]@).len() == 0) ==> r
                == Err::<LexiconEntryConfig, LexiconEntryError>(LexiconEntryError::EmptyAlias),
            r is Ok <==> trimmed(canonical@).len() > 0 && forall|i: int|
                0 <= i < aliases@.len() ==> #[trigger] trimmed(aliases@[i]@).len() > 0,
            r matches Ok(e) ==> e.canonical@ == trimmed(canonical@) && e.aliases@.len() == aliases@.len()
                && (forall|i: int| 0 <= i < aliases@.len() ==> #[trigger] e.aliases@[i]@ == trimmed(aliases@[i]@))
                && e.kind == kind && e.case_sensitive == case_sensitive && e.requires_explanation
                == requires_explanation,
    {
        let trimmed_canonical = trim_text(canonical);
        if chars_of(trimmed_canonical.as_str()).len() == 0 {
            return Err(LexiconEntryError::EmptyCanonical);
        }
        let mut trimmed_aliases: Vec<String> = Vec::new();
        let mut i: usize = 0;
        while i < aliases.len()
            invariant
                i <= aliases@.len(),
                trimmed(canonical@).len() > 0,
                trimmed_aliases@.len() == i,
                forall|k: int| 0 <= k < i ==> #[trigger] trimmed_aliases@[k]@ == trimmed(aliases@[k]@),
                forall|k: int| 0 <= k < i ==> #[trigger] trimmed(aliases@[k]@).len() > 0,
            decreases aliases@.len() - i,
        {
            let alias = trim_text(aliases[i].as_str());
            if chars_of(alias.as_str()).len() == 0 {
                return Err(LexiconEntryError::EmptyAlias);
            }
            trimmed_aliases.push(alias);
            i = i + 1;
        }
        Ok(
            LexiconEntryConfig {
                canonical: trimmed_canonical,
                aliases: trimmed_aliases,
                kind,
                case_sensitive,
                requires_explanation,
            },
        )
    }
}

} // verus!
