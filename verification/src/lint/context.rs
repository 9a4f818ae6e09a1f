//! Everything a rule needs for one lint run.
use crate::config::PaperlintConfig;
use crate::latex::parser::{spec_source_span, Document};
use crate::latex::span::{LocatedRange, Span};
use crate::lint::analysis::{blocks_fit, DocumentAnalysis};
use crate::lint::terms::candidates::spec_candidates;
use crate::lint::terms::registry::{doc_definitions, doc_occurrences, doc_usages, DocumentTermRegistry};
use crate::lint::terms::acronyms::spec_first_definitions;
use crate::text::lexicon::Lexicon;
use std::ops::Range;
use vstd::prelude::*;

verus! {

/// Everything a rule needs for one lint run: the document, the
/// configuration, the lexicon, and the analyses built once from them.
pub struct LintContext<'a> {
    document: &'a Document,
    config: &'a PaperlintConfig,
    lexicon: &'a Lexicon,
    registry: DocumentTermRegistry,
    analysis: DocumentAnalysis,
}

/// The source span of a block's logical range, when the block exists.
pub open spec fn block_span(doc: Document, block: usize, lo: int, hi: int) -> Option<Span> {
    if block < doc.blocks@.len() {
        spec_source_span(doc, doc.blocks@[block as int], lo, hi)
    } else {
        None
    }
}

impl<'a> LintContext<'a> {
    pub closed spec fn spec_document(&self) -> Document {
        *self.document
    }

    pub closed spec fn spec_config(&self) -> PaperlintConfig {
        *self.config
    }

    pub closed spec fn spec_lexicon(&self) -> Lexicon {
        *self.lexicon
    }

    pub closed spec fn spec_registry(&self) -> DocumentTermRegistry {
        self.registry
    }

    pub closed spec fn spec_analysis(&self) -> DocumentAnalysis {
        self.analysis
    }

    /// The document's sources and blocks fit in memory, so spans can be mapped.
    pub open spec fn well_formed(&self) -> bool {
        self.spec_document().sources_fit() && blocks_fit(self.spec_document().blocks@)
    }

    /// Analyzes the document once and builds the term registry from that analysis.
    pub fn new(document: &'a Document, config: &'a PaperlintConfig, lexicon: &'a Lexicon) -> (c: Self)
        requires
            document.sources_fit(),
            blocks_fit(document.blocks@),
        ensures
            c.well_formed(),
            c.spec_document() == *document,
            c.spec_config() == *config,
            c.spec_lexicon() == *lexicon,
            c.spec_analysis().well_formed(),
            c.spec_registry().spec_definitions() == doc_definitions(document.blocks@, document.blocks@.len() as int),
            c.spec_registry().spec_usages() == doc_usages(document.blocks@, document.blocks@.len() as int),
            c.spec_registry().spec_first_definitions() == spec_first_definitions(c.spec_registry().spec_definitions()),
            c.spec_registry().spec_occurrences() == doc_occurrences(lexicon@, document.blocks@, document.blocks@.len() as int),
            c.spec_registry().spec_candidates() == spec_candidates(
                c.spec_analysis(),
                *lexicon,
                c.spec_registry().spec_definitions(),
            ),
    {
        let analysis = DocumentAnalysis::new(document, config, lexicon);
        let registry = DocumentTermRegistry::with_analysis(document, lexicon, &analysis);
        LintContext { document, config, lexicon, registry, analysis }
    }

    pub fn document(&self) -> (d: &'a Document)
        ensures
            *d == self.spec_document(),
    {
        self.document
    }

    pub fn config(&self) -> (c: &'a PaperlintConfig)
        ensures
            *c == self.spec_config(),
    {
        self.config
    }

    pub fn lexicon(&self) -> (l: &'a Lexicon)
        ensures
            *l == self.spec_lexicon(),
    {
        self.lexicon
    }

    pub fn registry(&self) -> (r: &DocumentTermRegistry)
        ensures
            *r == self.spec_registry(),
    {
        &self.registry
    }

    pub fn analysis(&self) -> (a: &DocumentAnalysis)
        ensures
            *a == self.spec_analysis(),
    {
        &self.analysis
    }

    /// Maps a block-relative logical range to its LaTeX source span.
    pub fn span(&self, block: usize, range: Range<usize>) -> (r: Option<Span>)
        requires
            self.well_formed(),
        ensures
            r == block_span(self.spec_document(), block, range.start as int, range.end as int),
    {
        if block >= self.document.blocks.len() {
            return None;
        }
        self.document.source_span(&self.document.blocks[block], range)
    }

    /// Maps a located range to its LaTeX source span.
    pub fn span_of(&self, located: &LocatedRange) -> (r: Option<Span>)
        requires
            self.well_formed(),
        ensures
            r == block_span(self.spec_document(), located.block, located.range.start as int, located.range.end as int),
    {
        self.span(located.block, located.range.start..located.range.end)
    }
}

} // verus!
