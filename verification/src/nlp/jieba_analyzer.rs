//! Jieba-based lexical analysis for Chinese text.
use super::analyzer::{joined_words, LexicalAnalysis, LexicalAnalyzer, PosTag, Token};
use crate::latex::span::LocatedRange;
use crate::lint::terms::lexicon_occurrences::matches_at;
use crate::order::views;
use crate::text::lexicon::{surfaces, LexemeSource, LexemeView, Lexicon};
use crate::text::unicode::{byte_len, byte_offsets, byte_pos, chars_of, is_whitespace, str_eq};
use vstd::prelude::*;

verus! {

#[verifier::external_type_specification]
#[verifier::external_body]
pub struct ExJieba(jieba_rs::Jieba);

/// `jieba_rs::Jieba::new`: a segmenter loaded with the default dictionary.
#[verifier::external_body]
fn jieba_new() -> jieba_rs::Jieba {
    jieba_rs::Jieba::new()
}

/// The words of a jieba segmenter's dictionary.
pub uninterp spec fn jieba_words(jieba: jieba_rs::Jieba) -> Set<Seq<char>>;

/// `jieba_rs::Jieba::add_word` with no frequency (jieba suggests one) and
/// the tag `nz`, a proper noun: a non-empty word is in the dictionary
/// afterwards, and no other word enters or leaves it. The frequencies the
/// segmenter weighs its cuts with are not stated.
#[verifier::external_body]
fn jieba_add_noun(jieba: &mut jieba_rs::Jieba, word: &str)
    requires
        word@.len() > 0,
    ensures
        jieba_words(*final(jieba)) == jieba_words(*old(jieba)).insert(word@),
{
    jieba.add_word(word, None, Some("nz"));
}

/// `jieba_rs::Jieba::tag` without the HMM for unknown words: the words of
/// the sentence in order, each with its part-of-speech tag. Jieba splits the
/// sentence into blocks that together cover it and emits every block in
/// full, so the words, one after the other, give back the text. Where the
/// cuts fall is not stated: jieba picks a cut by comparing sums of `f64`
/// logarithms of word frequencies (`ln` from the platform's math library),
/// over a dictionary that `add_word` changes. `analyze_words` states what
/// the library makes of the words that come back.
#[verifier::external_body]
fn jieba_tag(jieba: &jieba_rs::Jieba, text: &str) -> (r: Vec<(String, String)>)
    ensures
        joined_words(word_views(r@)) == text@,
{
    jieba.tag(text, false).into_iter().map(|t| (t.word.to_string(), t.tag.to_string())).collect()
}

/// Jieba's part-of-speech tags mapped to ours.
pub open spec fn spec_pos_of_tag(tag: Seq<char>) -> PosTag {
    if tag == "n"@ || tag == "nr"@ || tag == "ns"@ || tag == "nt"@ || tag == "nz"@ || tag == "ng"@ {
        PosTag::Noun
    } else if tag == "v"@ || tag == "vd"@ || tag == "vn"@ || tag == "vg"@ {
        PosTag::Verb
    } else if tag == "a"@ || tag == "ad"@ || tag == "an"@ || tag == "ag"@ {
        PosTag::Adjective
    } else if tag == "d"@ {
        PosTag::Adverb
    } else if tag == "p"@ {
        PosTag::Preposition
    } else if tag == "c"@ {
        PosTag::Conjunction
    } else if tag == "r"@ {
        PosTag::Pronoun
    } else if tag == "u"@ || tag == "uz"@ || tag == "ug"@ || tag == "ul"@ || tag == "uv"@ {
        PosTag::Particle
    } else if tag == "m"@ || tag == "mq"@ {
        PosTag::Numeral
    } else if tag == "x"@ || tag == "w"@ {
        PosTag::Punctuation
    } else {
        PosTag::Other
    }
}

/// Maps a jieba part-of-speech tag to ours.
pub fn map_jieba_pos(tag: &str) -> (p: PosTag)
    ensures
        p == spec_pos_of_tag(tag@),
{
    if str_eq(tag, "n") || str_eq(tag, "nr") || str_eq(tag, "ns") || str_eq(tag, "nt") || str_eq(tag, "nz")
        || str_eq(tag, "ng") {
        PosTag::Noun
    } else if str_eq(tag, "v") || str_eq(tag, "vd") || str_eq(tag, "vn") || str_eq(tag, "vg") {
        PosTag::Verb
    } else if str_eq(tag, "a") || str_eq(tag, "ad") || str_eq(tag, "an") || str_eq(tag, "ag") {
        PosTag::Adjective
    } else if str_eq(tag, "d") {
        PosTag::Adverb
    } else if str_eq(tag, "p") {
        PosTag::Preposition
    } else if str_eq(tag, "c") {
        PosTag::Conjunction
    } else if str_eq(tag, "r") {
        PosTag::Pronoun
    } else if str_eq(tag, "u") || str_eq(tag, "uz") || str_eq(tag, "ug") || str_eq(tag, "ul") || str_eq(tag, "uv") {
        PosTag::Particle
    } else if str_eq(tag, "m") || str_eq(tag, "mq") {
        PosTag::Numeral
    } else if str_eq(tag, "x") || str_eq(tag, "w") {
        PosTag::Punctuation
    } else {
        PosTag::Other
    }
}

/// The first place at or after character `from` where `w` occurs in `s`.
pub open spec fn find_from(s: Seq<char>, w: Seq<char>, from: int) -> Option<int>
    decreases s.len() - from,
{
    if from < 0 || from + w.len() > s.len() {
        None
    } else if w.len() == 0 || s.subrange(from, from + w.len()) == w {
        Some(from)
    } else {
        find_from(s, w, from + 1)
    }
}

/// The value of a token.
pub struct TokenView {
    pub surface: Seq<char>,
    pub pos: PosTag,
    pub location: LocatedRange,
}

pub open spec fn token_view(t: Token) -> TokenView {
    TokenView { surface: t.surface@, pos: t.pos, location: t.location }
}

pub open spec fn token_views(ts: Seq<Token>) -> Seq<TokenView> {
    ts.map_values(|t: Token| token_view(t))
}

/// The tokens of the first `n` tagged words of a sentence, and the character
/// where the search for the next word starts: each word is looked for from
/// the end of the last word found, and a word not found is skipped.
pub open spec fn analyzed(
    words: Seq<(Seq<char>, Seq<char>)>,
    s: Seq<char>,
    location: LocatedRange,
    n: int,
) -> (Seq<TokenView>, int)
    decreases n,
{
    if n <= 0 {
        (Seq::empty(), 0)
    } else {
        let (ts, cur) = analyzed(words, s, location, n - 1);
        let w = words[n - 1];
        match find_from(s, w.0, cur) {
            Some(k) => (
                ts.push(
                    TokenView {
                        surface: w.0,
                        pos: spec_pos_of_tag(w.1),
                        location: LocatedRange {
                            block: location.block,
                            range: ((location.range.start + byte_pos(s, k)) as usize)..((location.range.start
                                + byte_pos(s, k + w.0.len())) as usize),
                        },
                    },
                ),
                k + w.0.len(),
            ),
            None => (ts, cur),
        }
    }
}

proof fn lemma_joined_prefix(words: Seq<(Seq<char>, Seq<char>)>, n: int)
    requires
        0 <= n <= words.len(),
    ensures
        joined_words(words.take(n)).len() <= joined_words(words).len(),
        joined_words(words).subrange(0, joined_words(words.take(n)).len() as int) == joined_words(words.take(n)),
    decreases words.len(),
{
    if n == words.len() {
        assert(words.take(n) =~= words);
        assert(joined_words(words).subrange(0, joined_words(words).len() as int) =~= joined_words(words));
    } else {
        let prev = words.drop_last();
        lemma_joined_prefix(prev, n);
        assert(prev.take(n) =~= words.take(n));
        let m = joined_words(words.take(n)).len() as int;
        assert(joined_words(words).subrange(0, m) =~= joined_words(prev).subrange(0, m));
    }
}

proof fn lemma_analyzed_cursor(words: Seq<(Seq<char>, Seq<char>)>, s: Seq<char>, location: LocatedRange, n: int)
    requires
        joined_words(words) == s,
        0 <= n <= words.len(),
    ensures
        analyzed(words, s, location, n).0.len() == n,
        analyzed(words, s, location, n).1 == joined_words(words.take(n)).len(),
    decreases n,
{
    if n == 0 {
        assert(words.take(0) =~= Seq::<(Seq<char>, Seq<char>)>::empty());
    } else {
        lemma_analyzed_cursor(words, s, location, n - 1);
        lemma_joined_prefix(words, n);
        let w = words[n - 1].0;
        let before = joined_words(words.take(n - 1));
        assert(words.take(n).drop_last() =~= words.take(n - 1));
        assert(joined_words(words.take(n)) == before + w);
        let cur = before.len() as int;
        let upto = (before + w).len() as int;
        assert(s.subrange(0, upto) == before + w);
        assert(s.subrange(cur, cur + w.len()) =~= s.subrange(0, upto).subrange(cur, cur + w.len()));
        assert((before + w).subrange(cur, cur + w.len()) =~= w);
        assert(s.subrange(cur, cur + w.len()) == w);
        assert(find_from(s, w, cur) == Some(cur));
    }
}

/// When the tagged words give back the sentence, every word is found where
/// it stands: one token per word, so a sentence that is not empty always
/// has a token.
pub proof fn lemma_analyzed_finds_every_word(words: Seq<(Seq<char>, Seq<char>)>, s: Seq<char>, location: LocatedRange)
    requires
        joined_words(words) == s,
    ensures
        analyzed(words, s, location, words.len() as int).0.len() == words.len(),
        s.len() > 0 ==> analyzed(words, s, location, words.len() as int).0.len() > 0,
{
    lemma_analyzed_cursor(words, s, location, words.len() as int);
}

pub open spec fn word_views(words: Seq<(String, String)>) -> Seq<(Seq<char>, Seq<char>)> {
    words.map_values(|w: (String, String)| (w.0@, w.1@))
}

pub proof fn lemma_find_from(s: Seq<char>, w: Seq<char>, from: int)
    ensures
        find_from(s, w, from) matches Some(k) ==> from <= k && k + w.len() <= s.len() && s.subrange(k, k + w.len())
            == w,
    decreases s.len() - from,
{
    if w.len() == 0 && 0 <= from <= s.len() {
        assert(s.subrange(from, from) =~= w);
    }
    if !(from < 0 || from + w.len() > s.len()) && w.len() != 0 && s.subrange(from, from + w.len()) != w {
        lemma_find_from(s, w, from + 1);
    }
}

proof fn lemma_analyzed_bounds(words: Seq<(Seq<char>, Seq<char>)>, s: Seq<char>, location: LocatedRange, n: int)
    ensures
        0 <= analyzed(words, s, location, n).1 <= s.len(),
    decreases n,
{
    if n > 0 {
        lemma_analyzed_bounds(words, s, location, n - 1);
        let (ts, cur) = analyzed(words, s, location, n - 1);
        lemma_find_from(s, words[n - 1].0, cur);
    }
}

/// Every token of an analysis lies inside the sentence, in its block,
/// starting and ending on character boundaries.
pub proof fn lemma_analyzed_located(
    words: Seq<(Seq<char>, Seq<char>)>,
    s: Seq<char>,
    location: LocatedRange,
    n: int,
)
    requires
        location.range.start + byte_len(s) <= usize::MAX,
    ensures
        forall|i: int|
            0 <= i < analyzed(words, s, location, n).0.len() ==> {
                let t = #[trigger] analyzed(words, s, location, n).0[i];
                &&& t.location.block == location.block
                &&& location.range.start <= t.location.range.start <= t.location.range.end
                &&& crate::lint::analysis::is_char_boundary(s, t.location.range.start - location.range.start)
                &&& crate::lint::analysis::is_char_boundary(s, t.location.range.end - location.range.start)
            },
    decreases n,
{
    if n > 0 {
        lemma_analyzed_located(words, s, location, n - 1);
        let (ts, cur) = analyzed(words, s, location, n - 1);
        lemma_analyzed_bounds(words, s, location, n - 1);
        let w = words[n - 1];
        lemma_find_from(s, w.0, cur);
        match find_from(s, w.0, cur) {
            Some(k) => {
                crate::text::unicode::lemma_byte_pos_mono(s, k, k + w.0.len());
                crate::text::unicode::lemma_byte_pos_le_len(s, k + w.0.len());
                let t = analyzed(words, s, location, n).0.last();
                assert(byte_pos(s, k) == t.location.range.start - location.range.start);
                assert(byte_pos(s, k + w.0.len()) == t.location.range.end - location.range.start);
                assert forall|i: int| 0 <= i < ts.len() implies analyzed(words, s, location, n).0[i] == ts[i] by {}
            },
            None => {},
        }
    }
}

/// The tokens of a sentence from its tagged words, located in the block.
pub fn analyze_words(words: &Vec<(String, String)>, text: &str, location: LocatedRange) -> (r: LexicalAnalysis)
    requires
        location.range.start + byte_len(text@) <= usize::MAX,
    ensures
        r.text@ == text@,
        r.location == location,
        token_views(r.tokens@) == analyzed(word_views(words@), text@, location, words@.len() as int).0,
{
    let s = chars_of(text);
    let offsets = byte_offsets(&s);
    let ghost wv = word_views(words@);
    let mut tokens: Vec<Token> = Vec::new();
    let mut cur: usize = 0;
    let mut i: usize = 0;
    while i < words.len()
        invariant
            i <= words@.len(),
            s@ == text@,
            wv == word_views(words@),
            offsets@.len() == s@.len() + 1,
            forall|k: int| 0 <= k <= s@.len() ==> offsets@[k] == byte_pos(s@, k),
            location.range.start + byte_len(text@) <= usize::MAX,
            cur <= s@.len(),
            (token_views(tokens@), cur as int) == analyzed(wv, text@, location, i as int),
        decreases words@.len() - i,
    {
        let w = chars_of(words[i].0.as_str());
        let ghost wi = wv[i as int];
        assert(wi.0 == w@);
        let mut k = cur;
        let mut found = false;
        while k < s.len() && !found
            invariant
                cur <= k <= s@.len(),
                find_from(s@, w@, cur as int) == if found {
                    Some(k as int)
                } else {
                    find_from(s@, w@, k as int)
                },
                found ==> k + w@.len() <= s@.len(),
            decreases s@.len() - k + if found { 0int } else { 1int },
        {
            proof {
                if w@.len() == 0 {
                    assert(s@.subrange(k as int, k as int) =~= w@);
                }
            }
            if matches_at(&s, k, &w) {
                found = true;
            } else {
                k = k + 1;
            }
        }
        if !found && k == s.len() {
            if matches_at(&s, k, &w) {
                found = true;
            }
        }
        if found {
            proof {
                lemma_find_from(s@, w@, cur as int);
                crate::text::unicode::lemma_byte_pos_mono(s@, k as int, k + w@.len());
                crate::text::unicode::lemma_byte_pos_le_len(s@, k + w@.len());
                crate::text::unicode::lemma_str_len(text);
            }
            let end = k + w.len();
            let t = Token {
                surface: words[i].0.clone(),
                pos: map_jieba_pos(words[i].1.as_str()),
                location: LocatedRange {
                    block: location.block,
                    range: (location.range.start + offsets[k])..(location.range.start + offsets[end]),
                },
            };
            let ghost before = tokens@;
            tokens.push(t);
            proof {
                assert(token_views(tokens@) =~= token_views(before).push(token_view(t)));
            }
            cur = end;
        } else {
            proof {
                assert(k == s@.len());
                if w@.len() == 0 {
                    assert(s@.subrange(k as int, k as int) =~= w@);
                }
                assert(find_from(s@, w@, k as int) is None);
            }
        }
        i = i + 1;
    }
    LexicalAnalysis { text: text.to_owned(), tokens, location }
}

/// Surfaces fit for the segmenter's dictionary: not empty, no whitespace.
pub open spec fn usable_word(w: Seq<char>) -> bool {
    w.len() > 0 && forall|i: int| 0 <= i < w.len() ==> !is_whitespace(#[trigger] w[i])
}

proof fn lemma_usable_once_usable(ws: Seq<Seq<char>>)
    ensures
        forall|k: int| 0 <= k < usable_once(ws).len() ==> usable_word(#[trigger] usable_once(ws)[k]),
    decreases ws.len(),
{
    if ws.len() > 0 {
        let prev = usable_once(ws.drop_last());
        lemma_usable_once_usable(ws.drop_last());
        if usable_word(ws.last()) && !prev.contains(ws.last()) {
            assert forall|k: int| 0 <= k < prev.push(ws.last()).len() implies usable_word(
                #[trigger] prev.push(ws.last())[k],
            ) by {
                if k < prev.len() {
                    assert(prev.push(ws.last())[k] == prev[k]);
                }
            }
        }
    }
}

/// The surfaces of workspace lexemes, canonical form first, lexeme by lexeme.
pub open spec fn workspace_surface_list(ls: Seq<LexemeView>) -> Seq<Seq<char>>
    decreases ls.len(),
{
    if ls.len() == 0 {
        Seq::empty()
    } else {
        workspace_surface_list(ls.drop_last()) + if ls.last().source == LexemeSource::Workspace {
            surfaces(ls.last())
        } else {
            Seq::empty()
        }
    }
}

/// The usable surfaces, each once, in order of first appearance.
pub open spec fn usable_once(ws: Seq<Seq<char>>) -> Seq<Seq<char>>
    decreases ws.len(),
{
    if ws.len() == 0 {
        Seq::empty()
    } else {
        let prev = usable_once(ws.drop_last());
        if usable_word(ws.last()) && !prev.contains(ws.last()) {
            prev.push(ws.last())
        } else {
            prev
        }
    }
}

fn usable(w: &str) -> (r: bool)
    ensures
        r == usable_word(w@),
{
    let c = chars_of(w);
    if c.len() == 0 {
        return false;
    }
    let mut i: usize = 0;
    while i < c.len()
        invariant
            i <= c@.len(),
            c@ == w@,
            forall|k: int| 0 <= k < i ==> !is_whitespace(#[trigger] c@[k]),
        decreases c@.len() - i,
    {
        if is_whitespace(c[i]) {
            return false;
        }
        i = i + 1;
    }
    true
}

fn contains_word(ws: &Vec<String>, w: &str) -> (r: bool)
    ensures
        r == ws@.map_values(|s: String| s@).contains(w@),
{
    let ghost m = ws@.map_values(|s: String| s@);
    let mut i: usize = 0;
    while i < ws.len()
        invariant
            i <= ws@.len(),
            m == ws@.map_values(|s: String| s@),
            forall|k: int| 0 <= k < i ==> m[k] != w@,
        decreases ws@.len() - i,
    {
        if str_eq(ws[i].as_str(), w) {
            assert(m[i as int] == w@);
            return true;
        }
        i = i + 1;
    }
    false
}

fn add_usable(out: &mut Vec<String>, w: &str)
    ensures
        final(out)@.map_values(|s: String| s@) == if usable_word(w@) && !old(out)@.map_values(|s: String| s@).contains(
            w@,
        ) {
            old(out)@.map_values(|s: String| s@).push(w@)
        } else {
            old(out)@.map_values(|s: String| s@)
        },
{
    if usable(w) && !contains_word(out, w) {
        let ghost before = out@;
        out.push(w.to_owned());
        assert(out@.map_values(|s: String| s@) =~= before.map_values(|s: String| s@).push(w@));
    }
}

/// The workspace surfaces the segmenter learns as proper nouns.
pub fn workspace_surfaces(lexicon: &Lexicon) -> (r: Vec<String>)
    ensures
        r@.map_values(|s: String| s@) == usable_once(workspace_surface_list(lexicon@)),
{
    let entries = lexicon.entries();
    let ghost ls = lexicon@;
    let mut out: Vec<String> = Vec::new();
    let mut j: usize = 0;
    while j < entries.len()
        invariant
            j <= entries@.len(),
            views(entries@) == ls,
            out@.map_values(|s: String| s@) == usable_once(workspace_surface_list(ls.take(j as int))),
        decreases entries@.len() - j,
    {
        let l = &entries[j];
        let ghost lv = ls[j as int];
        assert(l@ == lv);
        let ghost base = workspace_surface_list(ls.take(j as int));
        proof {
            assert(ls.take(j + 1).drop_last() =~= ls.take(j as int));
        }
        if l.source == LexemeSource::Workspace {
            let ghost sf = surfaces(lv);
            add_usable(&mut out, l.canonical.as_str());
            proof {
                assert((base + sf).take(base.len() + 1int) =~= base.push(sf[0]));
                assert((base + sf).take(base.len() + 1int).drop_last() =~= base);
            }
            let mut a: usize = 0;
            while a < l.aliases.len()
                invariant
                    a <= l.aliases@.len(),
                    l@ == lv,
                    sf == surfaces(lv),
                    base == workspace_surface_list(ls.take(j as int)),
                    out@.map_values(|s: String| s@) == usable_once((base + sf).take(base.len() + 1 + a)),
                decreases l.aliases@.len() - a,
            {
                proof {
                    assert((base + sf).take(base.len() + 2 + a).drop_last() =~= (base + sf).take(base.len() + 1 + a));
                    assert((base + sf).take(base.len() + 2 + a).last() == l.aliases@[a as int]@);
                }
                add_usable(&mut out, l.aliases[a].as_str());
                a = a + 1;
            }
            proof {
                assert((base + sf).take(base.len() + 1 + a) =~= base + sf);
            }
        } else {
            assert(workspace_surface_list(ls.take(j + 1)) =~= base);
        }
        j = j + 1;
    }
    assert(ls.take(j as int) =~= ls);
    out
}

/// Jieba-based lexical analyzer for Chinese text.
pub struct JiebaAnalyzer {
    jieba: jieba_rs::Jieba,
}

impl JiebaAnalyzer {
    /// An analyzer with jieba's default dictionary.
    pub fn new() -> Self {
        JiebaAnalyzer { jieba: jieba_new() }
    }

    /// The words the analyzer's dictionary holds.
    pub closed spec fn dictionary(&self) -> Set<Seq<char>> {
        jieba_words(self.jieba)
    }

    /// An analyzer that also knows the workspace lexicon's surfaces as
    /// proper nouns.
    pub fn with_workspace_lexicon(lexicon: &Lexicon) -> (r: Self)
        ensures
            forall|i: int|
                0 <= i < usable_once(workspace_surface_list(lexicon@)).len() ==> r.dictionary().contains(
                    #[trigger] usable_once(workspace_surface_list(lexicon@))[i],
                ),
    {
        let mut analyzer = Self::new();
        let words = workspace_surfaces(lexicon);
        let ghost ws = usable_once(workspace_surface_list(lexicon@));
        proof {
            lemma_usable_once_usable(workspace_surface_list(lexicon@));
        }
        let mut i: usize = 0;
        while i < words.len()
            invariant
                i <= words@.len(),
                words@.map_values(|s: String| s@) == ws,
                forall|k: int| 0 <= k < ws.len() ==> usable_word(#[trigger] ws[k]),
                forall|k: int| 0 <= k < i ==> analyzer.dictionary().contains(#[trigger] ws[k]),
            decreases words@.len() - i,
        {
            assert(words@[i as int]@ == ws[i as int]);
            jieba_add_noun(&mut analyzer.jieba, words[i].as_str());
            i = i + 1;
        }
        analyzer
    }
}

impl LexicalAnalyzer for JiebaAnalyzer {
    fn analyze(&self, text: &str, location: LocatedRange) -> (r: LexicalAnalysis) {
        let words = jieba_tag(&self.jieba, text);
        let r = analyze_words(&words, text, location);
        assert(word_views(words@).len() == words@.len());
        assert(token_views(r.tokens@) == analyzed(word_views(words@), text@, location, word_views(words@).len() as int).0);
        assert(joined_words(word_views(words@)) == text@);
        r
    }
}

} // verus!
