//! STYLE001: sentences that are too long.
use super::{concat, decimal, decimal_string, joined_pieces, Rule};
use crate::config::Level;
use crate::latex::parser::{spec_source_span, Document};
use crate::lint::context::LintContext;
use crate::lint::diagnostic::{Diagnostic, DiagnosticView};
use crate::order::views;
use crate::rule_id::RuleId;
use crate::text::chars::{effective_length, spec_effective_length, word_count};
use crate::text::language::spec_detect_language;
use crate::text::sentence::{is_sentence_of, logical_base_span, sentence_ranges};
use crate::text::unicode::byte_pos;
use crate::text::{detect_language, segment_sentences, Language};
use vstd::prelude::*;

verus! {

pub struct Style001;

pub open spec fn style_message(length: nat, unit: Seq<char>, max: nat) -> Seq<char> {
    "sentence has "@ + decimal(length) + " "@ + unit + "; max is "@ + decimal(max)
}

/// The finding for one sentence, when it is too long: English sentences
/// count words, others effective characters.
pub open spec fn sentence_finding(
    doc: Document,
    b: int,
    r: (int, int),
    max_words: usize,
    max_chars: usize,
    level: Level,
) -> Seq<DiagnosticView> {
    let s = doc.blocks@[b].text@;
    let text = s.subrange(r.0, r.1);
    let language = spec_detect_language(text);
    let length = spec_effective_length(text, language);
    let max = if language == Language::English { max_words } else { max_chars };
    let unit = if language == Language::English { "words"@ } else { "effective characters"@ };
    if length <= max {
        Seq::empty()
    } else {
        match spec_source_span(doc, doc.blocks@[b], byte_pos(s, r.0) as int, byte_pos(s, r.1) as int) {
            Some(span) => seq![
                DiagnosticView {
                    rule: RuleId::Style001,
                    severity: level,
                    message: style_message(length as nat, unit, max as nat),
                    span,
                },
            ],
            None => Seq::empty(),
        }
    }
}

/// The findings of the first `k` sentences of block `b`.
pub open spec fn block_sentences(
    doc: Document,
    b: int,
    max_words: usize,
    max_chars: usize,
    level: Level,
    k: int,
) -> Seq<DiagnosticView>
    decreases k,
{
    if k <= 0 {
        Seq::empty()
    } else {
        block_sentences(doc, b, max_words, max_chars, level, k - 1) + sentence_finding(
            doc,
            b,
            sentence_ranges(doc.blocks@[b].text@)[k - 1],
            max_words,
            max_chars,
            level,
        )
    }
}

/// The findings of the first `n` blocks, in reading order.
pub open spec fn style_findings(doc: Document, max_words: usize, max_chars: usize, level: Level, n: int) -> Seq<
    DiagnosticView,
>
    decreases n,
{
    if n <= 0 {
        Seq::empty()
    } else {
        style_findings(doc, max_words, max_chars, level, n - 1) + block_sentences(
            doc,
            n - 1,
            max_words,
            max_chars,
            level,
            sentence_ranges(doc.blocks@[n - 1].text@).len() as int,
        )
    }
}

fn message_of(length: usize, english: bool, max: usize) -> (m: String)
    ensures
        m@ == style_message(
            length as nat,
            if english { "words"@ } else { "effective characters"@ },
            max as nat,
        ),
{
    let l = decimal_string(length);
    let x = decimal_string(max);
    let unit = if english { "words" } else { "effective characters" };
    let pieces: [&str; 6] = ["sentence has ", l.as_str(), " ", unit, "; max is ", x.as_str()];
    let m = concat(&pieces);
    proof {
        reveal_strlit("sentence has ");
        reveal_strlit(" ");
        reveal_strlit("words");
        reveal_strlit("effective characters");
        reveal_strlit("; max is ");
        let ps = pieces@.map_values(|p: &str| p@);
        reveal_with_fuel(joined_pieces, 7);
        assert(ps.drop_last().drop_last().drop_last().drop_last().drop_last().drop_last() =~= Seq::<Seq<char>>::empty());
    }
    m
}

impl Style001 {
    /// Every sentence longer than allowed, block by block.
    pub fn findings(&self, context: &LintContext) -> (r: Vec<Diagnostic>)
        requires
            context.well_formed(),
        ensures
            context.spec_config().rules.style001.level == Level::Off ==> r@.len() == 0,
            context.spec_config().rules.style001.level != Level::Off ==> views(r@) == style_findings(
                context.spec_document(),
                context.spec_config().rules.style001.max_english_words,
                context.spec_config().rules.style001.max_chars,
                context.spec_config().rules.style001.level,
                context.spec_document().blocks@.len() as int,
            ),
    {
        let rule = &context.config().rules.style001;
        let level = rule.level;
        if !level.is_enabled() {
            return Vec::new();
        }
        let document = context.document();
        let ghost doc = context.spec_document();
        let base_span = logical_base_span();
        let mut diagnostics: Vec<Diagnostic> = Vec::new();
        let mut b: usize = 0;
        while b < document.blocks.len()
            invariant
                b <= doc.blocks@.len(),
                *document == doc,
                context.well_formed(),
                context.spec_document() == doc,
                base_span.start == 0,
                views(diagnostics@) == style_findings(doc, rule.max_english_words, rule.max_chars, level, b as int),
            decreases doc.blocks@.len() - b,
        {
            let block = &document.blocks[b];
            let text = block.text.as_str();
            proof {
                assert(crate::lint::analysis::blocks_fit(doc.blocks@));
                assert(crate::text::unicode::byte_len(doc.blocks@[b as int].text@) < usize::MAX);
            }
            let sentences = segment_sentences(text, &base_span);
            let ghost rs = sentence_ranges(text@);
            let ghost base = views(diagnostics@);
            let mut k: usize = 0;
            while k < sentences.len()
                invariant
                    k <= sentences@.len(),
                    b < doc.blocks@.len(),
                    *block == doc.blocks@[b as int],
                    *document == doc,
                    context.well_formed(),
                    context.spec_document() == doc,
                    text@ == doc.blocks@[b as int].text@,
                    rs == sentence_ranges(text@),
                    sentences@.len() == rs.len(),
                    forall|j: int| 0 <= j < sentences@.len() ==> is_sentence_of(#[trigger] sentences@[j], text@, rs[j], base_span),
                    views(diagnostics@) == base + block_sentences(doc, b as int, rule.max_english_words, rule.max_chars, level, k as int),
                decreases sentences@.len() - k,
            {
                let sentence = &sentences[k];
                assert(is_sentence_of(sentences@[k as int], text@, rs[k as int], base_span));
                let language = detect_language(sentence.text.as_str());
                let length = effective_length(sentence.text.as_str(), language);
                let english = match language {
                    Language::English => true,
                    _ => false,
                };
                let max = if english { rule.max_english_words } else { rule.max_chars };
                let ghost prev = diagnostics@;
                if length > max {
                    match document.source_span(block, sentence.range.start..sentence.range.end) {
                        Some(span) => {
                            let d = Diagnostic {
                                rule: RuleId::Style001,
                                severity: level,
                                message: message_of(length, english, max),
                                span,
                            };
                            diagnostics.push(d);
                            proof {
                                crate::order::lemma_views_push(prev, d);
                            }
                        },
                        None => {},
                    }
                }
                proof {
                    assert(views(diagnostics@) =~= base + block_sentences(
                        doc,
                        b as int,
                        rule.max_english_words,
                        rule.max_chars,
                        level,
                        k + 1,
                    ));
                }
                k = k + 1;
            }
            b = b + 1;
        }
        diagnostics
    }
}

impl Rule for Style001 {
    fn id(&self) -> (r: RuleId)
        ensures
            r == RuleId::Style001,
    {
        RuleId::Style001
    }

    fn check(&self, context: &LintContext) -> (r: Vec<Diagnostic>)
        ensures
            context.spec_config().rules.style001.level == Level::Off ==> r@.len() == 0,
            context.spec_config().rules.style001.level != Level::Off ==> views(r@) == style_findings(
                context.spec_document(),
                context.spec_config().rules.style001.max_english_words,
                context.spec_config().rules.style001.max_chars,
                context.spec_config().rules.style001.level,
                context.spec_document().blocks@.len() as int,
            ),
    {
        self.findings(context)
    }
}

/// An English sentence is measured in whitespace-separated words against
/// the English limit: it is reported exactly when it has more words than
/// `max_words` (and its source can be located), whatever `max_chars` is,
/// and the report gives its word count and `max_words`. Any other sentence
/// is measured in effective characters against `max_chars`.
pub proof fn lemma_sentence_limits(
    doc: Document,
    b: int,
    r: (int, int),
    max_words: usize,
    max_chars: usize,
    level: Level,
)
    ensures
        ({
            let s = doc.blocks@[b].text@;
            let text = s.subrange(r.0, r.1);
            let found = sentence_finding(doc, b, r, max_words, max_chars, level);
            let located = spec_source_span(doc, doc.blocks@[b], byte_pos(s, r.0) as int, byte_pos(s, r.1) as int);
            &&& spec_detect_language(text) == Language::English ==> {
                &&& word_count(text) <= max_words ==> found.len() == 0
                &&& word_count(text) > max_words && located is Some ==> found.len() == 1
                    && found[0].rule == RuleId::Style001 && found[0].severity == level
                    && found[0].span == located->0 && found[0].message == "sentence has "@ + decimal(
                    word_count(text),
                ) + " "@ + "words"@ + "; max is "@ + decimal(max_words as nat)
                &&& located is None ==> found.len() == 0
            }
            &&& spec_detect_language(text) != Language::English ==> {
                &&& spec_effective_length(text, spec_detect_language(text)) <= max_chars ==> found.len() == 0
                &&& spec_effective_length(text, spec_detect_language(text)) > max_chars && located is Some
                    ==> found.len() == 1 && found[0].message == "sentence has "@ + decimal(
                    spec_effective_length(text, spec_detect_language(text)) as nat,
                ) + " "@ + "effective characters"@ + "; max is "@ + decimal(max_chars as nat)
            }
        }),
{
}

} // verus!
