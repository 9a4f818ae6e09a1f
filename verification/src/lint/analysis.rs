//! Per-sentence lexical analysis of a document.
use crate::config::{DefaultConfig, NlpPosBackend, NlpSyntaxBackend, NlpTokenizerBackend, PaperlintConfig};
use crate::latex::parser::Document;
use crate::latex::span::{LocatedRange, TextBlock};
use crate::nlp::jieba_analyzer::{analyzed, lemma_analyzed_located, token_views};
use crate::nlp::analyzer::joined_words;
use crate::nlp::{JiebaAnalyzer, LexicalAnalyzer, PosTag, Token};
use crate::text::language::spec_detect_language;
use crate::text::lexicon::Lexicon;
use crate::text::sentence::{is_sentence_of, logical_base_span, sentence_ranges};
use crate::text::unicode::{byte_len, byte_pos};
use crate::text::{detect_language, segment_sentences, Language};
use vstd::prelude::*;

verus! {

/// Byte offset `b` of `text` falls on a character boundary.
pub open spec fn is_char_boundary(text: Seq<char>, b: int) -> bool {
    exists|i: int| 0 <= i <= text.len() && byte_pos(text, i) == b
}

/// The character index of the boundary at byte offset `b`.
pub open spec fn char_index(text: Seq<char>, b: int) -> int {
    choose|i: int| 0 <= i <= text.len() && byte_pos(text, i) == b
}

impl SentenceUnit {
    /// Absolute offsets of the sentence's text fit in `usize`.
    pub open spec fn fits(&self) -> bool {
        self.location.range.start + byte_len(self.text@) <= usize::MAX
    }

    /// Every token that is not punctuation lies on character boundaries of the sentence.
    pub open spec fn tokens_fit(&self) -> bool {
        forall|k: int|
            0 <= k < self.tokens@.len() && (#[trigger] self.tokens@[k]).pos != PosTag::Punctuation
                ==> self.holds_token(self.tokens@[k])
    }

    /// `token` lies inside the sentence, starting and ending on character boundaries.
    pub open spec fn holds_token(&self, token: Token) -> bool {
        &&& self.location.range.start <= token.location.range.start <= token.location.range.end
        &&& is_char_boundary(self.text@, token.location.range.start - self.location.range.start)
        &&& is_char_boundary(self.text@, token.location.range.end - self.location.range.start)
    }
}

#[derive(Debug)]
pub struct DocumentAnalysis {
    paragraphs: Vec<ParagraphUnit>,
}

#[derive(Debug)]
pub struct ParagraphUnit {
    pub block: usize,
    pub location: LocatedRange,
    pub sentences: Vec<SentenceUnit>,
}

#[derive(Debug)]
pub struct SentenceUnit {
    pub text: String,
    pub language: Language,
    pub location: LocatedRange,
    pub tokens: Vec<Token>,
}

/// The sentences of the paragraphs, in reading order.
pub open spec fn sentences_of(ps: Seq<ParagraphUnit>) -> Seq<SentenceUnit>
    decreases ps.len(),
{
    if ps.len() == 0 {
        Seq::empty()
    } else {
        sentences_of(ps.drop_last()) + ps.last().sentences@
    }
}

impl DocumentAnalysis {
    pub closed spec fn spec_paragraphs(&self) -> Seq<ParagraphUnit> {
        self.paragraphs@
    }

    pub open spec fn spec_sentences(&self) -> Seq<SentenceUnit> {
        sentences_of(self.spec_paragraphs())
    }

    /// Each sentence's offsets fit in `usize` and its tokens lie on its boundaries.
    pub open spec fn well_formed(&self) -> bool {
        forall|i: int|
            0 <= i < self.spec_sentences().len() ==> (#[trigger] self.spec_sentences()[i]).fits()
                && self.spec_sentences()[i].tokens_fit()
    }

    /// The sentences of every paragraph, in reading order.
    pub fn sentence_list(&self) -> (r: Vec<&SentenceUnit>)
        ensures
            r@.len() == self.spec_sentences().len(),
            forall|i: int| 0 <= i < r@.len() ==> *(#[trigger] r@[i]) == self.spec_sentences()[i],
    {
        let ghost ps = self.paragraphs@;
        let mut r: Vec<&SentenceUnit> = Vec::new();
        let mut p: usize = 0;
        while p < self.paragraphs.len()
            invariant
                ps == self.paragraphs@,
                p <= ps.len(),
                r@.len() == sentences_of(ps.take(p as int)).len(),
                forall|i: int| 0 <= i < r@.len() ==> *(#[trigger] r@[i]) == sentences_of(ps.take(p as int))[i],
            decreases ps.len() - p,
        {
            let paragraph = &self.paragraphs[p];
            let ghost before = sentences_of(ps.take(p as int));
            assert(ps.take(p + 1).drop_last() =~= ps.take(p as int));
            assert(sentences_of(ps.take(p + 1)) == before + paragraph.sentences@);
            let mut q: usize = 0;
            while q < paragraph.sentences.len()
                invariant
                    q <= paragraph.sentences@.len(),
                    r@.len() == before.len() + q,
                    forall|i: int| 0 <= i < before.len() ==> *(#[trigger] r@[i]) == before[i],
                    forall|i: int| before.len() <= i < r@.len() ==> *(#[trigger] r@[i]) == paragraph.sentences@[i - before.len()],
                decreases paragraph.sentences@.len() - q,
            {
                r.push(&paragraph.sentences[q]);
                q = q + 1;
            }
            p = p + 1;
        }
        assert(ps.take(ps.len() as int) =~= ps);
        r
    }

    /// The analyzed paragraphs, one per text block.
    pub fn paragraphs(&self) -> (p: &[ParagraphUnit])
        ensures
            p@ == self.spec_paragraphs(),
    {
        self.paragraphs.as_slice()
    }

    /// An analysis made of the given paragraphs.
    pub fn from_paragraphs_for_tests(paragraphs: Vec<ParagraphUnit>) -> (a: Self)
        ensures
            a.spec_paragraphs() == paragraphs@,
    {
        DocumentAnalysis { paragraphs }
    }
}

/// The analysis of one sentence of a block: its text and byte range, its
/// language, and the tokens of some tagging of its text.
pub open spec fn sentence_analyzed(u: SentenceUnit, text: Seq<char>, r: (int, int), block: usize) -> bool {
    &&& u.text@ == text.subrange(r.0, r.1)
    &&& u.location == (LocatedRange { block, range: (byte_pos(text, r.0) as usize)..(byte_pos(text, r.1) as usize) })
    &&& u.language == spec_detect_language(u.text@)
    &&& exists|words: Seq<(Seq<char>, Seq<char>)>|
        joined_words(words) == u.text@ && token_views(u.tokens@) == (#[trigger] analyzed(
            words,
            u.text@,
            u.location,
            words.len() as int,
        )).0
}

/// The analysis of a block: one sentence unit per sentence of its text.
pub open spec fn paragraph_analyzed(p: ParagraphUnit, text: Seq<char>, block: usize) -> bool {
    &&& p.block == block
    &&& p.location == (LocatedRange { block, range: 0..(byte_len(text) as usize) })
    &&& p.sentences@.len() == sentence_ranges(text).len()
    &&& forall|k: int|
        0 <= k < p.sentences@.len() ==> sentence_analyzed(
            #[trigger] p.sentences@[k],
            text,
            sentence_ranges(text)[k],
            block,
        )
}

fn analyze_block<A: LexicalAnalyzer>(block_index: usize, block: &TextBlock, analyzer: &A) -> (p: ParagraphUnit)
    requires
        byte_len(block.text@) < usize::MAX,
    ensures
        paragraph_analyzed(p, block.text@, block_index),
        forall|k: int|
            0 <= k < p.sentences@.len() ==> (#[trigger] p.sentences@[k]).fits() && p.sentences@[k].tokens_fit()
                && byte_len(p.sentences@[k].text@) < usize::MAX,
{
    let text = block.text.as_str();
    let len = crate::latex::loader::byte_length(&block.text);
    let base = logical_base_span();
    let found = segment_sentences(text, &base);
    let ghost s = text@;
    let ghost rs = sentence_ranges(s);
    let mut sentences: Vec<SentenceUnit> = Vec::new();
    let mut k: usize = 0;
    while k < found.len()
        invariant
            k <= found@.len(),
            s == block.text@,
            rs == sentence_ranges(s),
            len == byte_len(s),
            byte_len(s) < usize::MAX,
            found@.len() == rs.len(),
            forall|j: int| 0 <= j < found@.len() ==> is_sentence_of(#[trigger] found@[j], s, rs[j], base),
            sentences@.len() == k,
            forall|j: int|
                0 <= j < k ==> sentence_analyzed(#[trigger] sentences@[j], s, rs[j], block_index)
                    && sentences@[j].fits() && sentences@[j].tokens_fit() && byte_len(sentences@[j].text@) < usize::MAX,
        decreases found@.len() - k,
    {
        let sentence = &found[k];
        assert(is_sentence_of(found@[k as int], s, rs[k as int], base));
        proof {
            crate::text::sentence::lemma_sentence_ranges_bounds(s);
            crate::text::unicode::lemma_byte_pos_le_len(s, rs[k as int].1);
            crate::text::unicode::lemma_byte_pos_mono(s, rs[k as int].0, rs[k as int].1);
            crate::text::unicode::lemma_byte_len_subrange(s, rs[k as int].0, rs[k as int].1);
        }
        let location = LocatedRange { block: block_index, range: sentence.range.start..sentence.range.end };
        let analysis = analyzer.analyze(sentence.text.as_str(), location.copy());
        let language = detect_language(analysis.text.as_str());
        let unit = SentenceUnit { text: analysis.text, language, location, tokens: analysis.tokens };
        proof {
            let words = choose|words: Seq<(Seq<char>, Seq<char>)>|
                joined_words(words) == unit.text@ && token_views(unit.tokens@) == (#[trigger] analyzed(
                    words,
                    unit.text@,
                    unit.location,
                    words.len() as int,
                )).0;
            lemma_analyzed_located(words, unit.text@, unit.location, words.len() as int);
            assert forall|j: int|
                0 <= j < unit.tokens@.len() && (#[trigger] unit.tokens@[j]).pos != PosTag::Punctuation
                implies unit.holds_token(unit.tokens@[j]) by {
                assert(token_views(unit.tokens@)[j] == analyzed(words, unit.text@, unit.location, words.len() as int).0[j]);
            }
        }
        sentences.push(unit);
        k = k + 1;
    }
    ParagraphUnit {
        block: block_index,
        location: LocatedRange { block: block_index, range: 0..len },
        sentences,
    }
}

/// A document's blocks have byte lengths below `usize::MAX`.
pub open spec fn blocks_fit(blocks: Seq<TextBlock>) -> bool {
    forall|b: int| 0 <= b < blocks.len() ==> byte_len((#[trigger] blocks[b]).text@) < usize::MAX
}

impl DocumentAnalysis {
    /// Segments every block into sentences and tags each sentence with the
    /// configured analyzer (jieba, which also learns the workspace lexicon).
    pub fn new(document: &Document, config: &PaperlintConfig, lexicon: &Lexicon) -> (a: Self)
        requires
            blocks_fit(document.blocks@),
        ensures
            a.well_formed(),
            crate::lint::terms::candidates::context::all_scannable(a),
            a.spec_paragraphs().len() == document.blocks@.len(),
            forall|b: int|
                0 <= b < document.blocks@.len() ==> paragraph_analyzed(
                    #[trigger] a.spec_paragraphs()[b],
                    document.blocks@[b].text@,
                    b as usize,
                ),
    {
        match config.nlp.syntax {
            NlpSyntaxBackend::Off => {},
        }
        let analyzer = match (config.nlp.tokenizer, config.nlp.pos) {
            (NlpTokenizerBackend::Jieba, NlpPosBackend::Jieba) => JiebaAnalyzer::with_workspace_lexicon(lexicon),
        };
        let ghost blocks = document.blocks@;
        let mut paragraphs: Vec<ParagraphUnit> = Vec::new();
        let mut b: usize = 0;
        while b < document.blocks.len()
            invariant
                b <= blocks.len(),
                blocks == document.blocks@,
                blocks_fit(blocks),
                paragraphs@.len() == b,
                forall|j: int| 0 <= j < b ==> paragraph_analyzed(#[trigger] paragraphs@[j], blocks[j].text@, j as usize),
                forall|j: int, k: int|
                    0 <= j < b && 0 <= k < paragraphs@[j].sentences@.len() ==> (#[trigger] paragraphs@[j].sentences@[k]).fits()
                        && paragraphs@[j].sentences@[k].tokens_fit() && byte_len(paragraphs@[j].sentences@[k].text@) < usize::MAX,
            decreases blocks.len() - b,
        {
            assert(byte_len(blocks[b as int].text@) < usize::MAX);
            let p = analyze_block(b, &document.blocks[b], &analyzer);
            paragraphs.push(p);
            b = b + 1;
        }
        let a = DocumentAnalysis { paragraphs };
        proof {
            lemma_sentences_of_fit(a.paragraphs@);
        }
        a
    }

    /// The analysis under the default configuration.
    pub fn with_default_config(document: &Document, lexicon: &Lexicon) -> (a: Self)
        requires
            blocks_fit(document.blocks@),
        ensures
            a.well_formed(),
            crate::lint::terms::candidates::context::all_scannable(a),
            a.spec_paragraphs().len() == document.blocks@.len(),
            forall|b: int|
                0 <= b < document.blocks@.len() ==> paragraph_analyzed(
                    #[trigger] a.spec_paragraphs()[b],
                    document.blocks@[b].text@,
                    b as usize,
                ),
    {
        Self::new(document, &DefaultConfig::load(), lexicon)
    }
}

proof fn lemma_sentences_of_fit(ps: Seq<ParagraphUnit>)
    requires
        forall|j: int, k: int|
            0 <= j < ps.len() && 0 <= k < ps[j].sentences@.len() ==> (#[trigger] ps[j].sentences@[k]).fits()
                && ps[j].sentences@[k].tokens_fit() && byte_len(ps[j].sentences@[k].text@) < usize::MAX,
    ensures
        forall|i: int|
            0 <= i < sentences_of(ps).len() ==> (#[trigger] sentences_of(ps)[i]).fits() && sentences_of(ps)[i].tokens_fit()
                && byte_len(sentences_of(ps)[i].text@) < usize::MAX,
    decreases ps.len(),
{
    if ps.len() > 0 {
        let rest = ps.drop_last();
        assert forall|j: int, k: int|
            0 <= j < rest.len() && 0 <= k < rest[j].sentences@.len() implies (#[trigger] rest[j].sentences@[k]).fits()
                && rest[j].sentences@[k].tokens_fit() && byte_len(rest[j].sentences@[k].text@) < usize::MAX by {
            assert(rest[j] == ps[j]);
        }
        lemma_sentences_of_fit(rest);
        let prev = sentences_of(rest);
        let last = ps.last().sentences@;
        assert forall|i: int| 0 <= i < sentences_of(ps).len() implies (#[trigger] sentences_of(ps)[i]).fits()
            && sentences_of(ps)[i].tokens_fit() && byte_len(sentences_of(ps)[i].text@) < usize::MAX by {
            if i >= prev.len() {
                assert(sentences_of(ps)[i] == ps[ps.len() - 1].sentences@[i - prev.len()]);
            } else {
                assert(sentences_of(ps)[i] == prev[i]);
            }
        }
    }
}

} // verus!
