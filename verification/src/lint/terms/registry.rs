//! Shared term registry built once per lint run.
use super::acronyms::{
    block_definitions, block_usages, collect_acronyms, earliest_per_acronym, first_definitions_in_reading_order,
    lemma_earliest_per_acronym, spec_first_definitions, AcronymDefinitionEntry, AcronymUsageEntry,
    DefinitionEntryView, DefinitionPositionOrder, UsageEntryView,
};
use super::candidates::context::all_scannable;
use super::candidates::model::{CandidateOrder, CandidateView};
use super::candidates::prune::kept;
use super::candidates::{collect, spec_candidates, TermCandidate};
use super::lexicon_occurrences::{block_occurrences, collect_block_occurrences, LexiconOccurrence, OccurrenceView};
use crate::latex::parser::Document;
use crate::latex::span::{position_lt, ReadingPosition, TextBlock};
use crate::lint::analysis::{blocks_fit, DocumentAnalysis};
use crate::order::{is_sorted, stable_sorted, views, Order};
use crate::text::lexicon::{LexemeView, Lexicon};
use crate::text::terminology::{
    lemma_definitions_point_at_acronyms, lemma_usages_point_at_acronyms, points_at, spec_definitions, spec_usages,
};
use crate::text::unicode::str_eq;
use vstd::prelude::*;

verus! {

/// The acronym definitions of the first `n` blocks, block by block.
pub open spec fn doc_definitions(blocks: Seq<TextBlock>, n: int) -> Seq<DefinitionEntryView>
    decreases n,
{
    if n <= 0 {
        Seq::empty()
    } else {
        doc_definitions(blocks, n - 1) + block_definitions(blocks[n - 1].text@, (n - 1) as usize)
    }
}

/// The acronym uses of the first `n` blocks, block by block.
pub open spec fn doc_usages(blocks: Seq<TextBlock>, n: int) -> Seq<UsageEntryView>
    decreases n,
{
    if n <= 0 {
        Seq::empty()
    } else {
        doc_usages(blocks, n - 1) + block_usages(blocks[n - 1].text@, (n - 1) as usize)
    }
}

/// The lexicon occurrences of the first `n` blocks, block by block.
pub open spec fn doc_occurrences(ls: Seq<LexemeView>, blocks: Seq<TextBlock>, n: int) -> Seq<OccurrenceView>
    decreases n,
{
    if n <= 0 {
        Seq::empty()
    } else {
        doc_occurrences(ls, blocks, n - 1) + block_occurrences(ls, blocks[n - 1].text@, (n - 1) as usize)
    }
}

/// The first entry with this acronym.
pub open spec fn find_definition(es: Seq<DefinitionEntryView>, acronym: Seq<char>) -> Option<DefinitionEntryView>
    decreases es.len(),
{
    if es.len() == 0 {
        None
    } else if es[0].acronym == acronym {
        Some(es[0])
    } else {
        find_definition(es.drop_first(), acronym)
    }
}

/// The first occurrence with this canonical form.
pub open spec fn find_occurrence(os: Seq<OccurrenceView>, canonical: Seq<char>) -> Option<OccurrenceView>
    decreases os.len(),
{
    if os.len() == 0 {
        None
    } else if os[0].canonical == canonical {
        Some(os[0])
    } else {
        find_occurrence(os.drop_first(), canonical)
    }
}

/// Shared term analysis for one document, built once per lint run.
#[derive(Debug)]
pub struct DocumentTermRegistry {
    definitions: Vec<AcronymDefinitionEntry>,
    usages: Vec<AcronymUsageEntry>,
    first_definitions: Vec<AcronymDefinitionEntry>,
    lexicon_occurrences: Vec<LexiconOccurrence>,
    term_candidates: Vec<TermCandidate>,
}

impl DocumentTermRegistry {
    pub closed spec fn spec_definitions(&self) -> Seq<DefinitionEntryView> {
        views(self.definitions@)
    }

    pub closed spec fn spec_usages(&self) -> Seq<UsageEntryView> {
        views(self.usages@)
    }

    pub closed spec fn spec_first_definitions(&self) -> Seq<DefinitionEntryView> {
        views(self.first_definitions@)
    }

    pub closed spec fn spec_occurrences(&self) -> Seq<OccurrenceView> {
        views(self.lexicon_occurrences@)
    }

    pub closed spec fn spec_candidates(&self) -> Seq<CandidateView> {
        views(self.term_candidates@)
    }

    /// The registry of a document: its acronym definitions and uses, the
    /// earliest definition of each acronym, its lexicon occurrences, and
    /// its term candidates from the given analysis.
    pub fn with_analysis(document: &Document, lexicon: &Lexicon, analysis: &DocumentAnalysis) -> (r: Self)
        requires
            analysis.well_formed(),
            all_scannable(*analysis),
        ensures
            r.spec_definitions() == doc_definitions(document.blocks@, document.blocks@.len() as int),
            r.spec_usages() == doc_usages(document.blocks@, document.blocks@.len() as int),
            r.spec_first_definitions() == spec_first_definitions(r.spec_definitions()),
            r.spec_occurrences() == doc_occurrences(lexicon@, document.blocks@, document.blocks@.len() as int),
            r.spec_candidates() == spec_candidates(*analysis, *lexicon, r.spec_definitions()),
            reading_ordered(definition_positions(r.spec_definitions())),
            reading_ordered(definition_positions(r.spec_first_definitions())),
            reading_ordered(candidate_positions(r.spec_candidates())),
            blocks_fit(document.blocks@) ==> reading_ordered(usage_positions(r.spec_usages()))
                && reading_ordered(occurrence_positions(r.spec_occurrences())),
    {
        let ghost blocks = document.blocks@;
        let mut definitions: Vec<AcronymDefinitionEntry> = Vec::new();
        let mut usages: Vec<AcronymUsageEntry> = Vec::new();
        let mut lexicon_occurrences: Vec<LexiconOccurrence> = Vec::new();
        let mut b: usize = 0;
        while b < document.blocks.len()
            invariant
                b <= blocks.len(),
                blocks == document.blocks@,
                views(definitions@) == doc_definitions(blocks, b as int),
                views(usages@) == doc_usages(blocks, b as int),
                views(lexicon_occurrences@) == doc_occurrences(lexicon@, blocks, b as int),
            decreases blocks.len() - b,
        {
            let text = document.blocks[b].text.as_str();
            let (mut ds, mut us) = collect_acronyms(text, b);
            let mut os = collect_block_occurrences(lexicon, text, b);
            let ghost (d0, u0, o0) = (definitions@, usages@, lexicon_occurrences@);
            let ghost (d1, u1, o1) = (ds@, us@, os@);
            definitions.append(&mut ds);
            usages.append(&mut us);
            lexicon_occurrences.append(&mut os);
            proof {
                crate::order::lemma_views_add(d0, d1);
                crate::order::lemma_views_add(u0, u1);
                crate::order::lemma_views_add(o0, o1);
            }
            b = b + 1;
        }
        let first_definitions = first_definitions_in_reading_order(&definitions);
        let term_candidates = collect(analysis, lexicon, &definitions);
        proof {
            lemma_definitions_in_reading_order(blocks);
            lemma_first_definitions_in_reading_order(views(definitions@));
            lemma_candidates_in_reading_order(*analysis, *lexicon, views(definitions@));
            if blocks_fit(blocks) {
                lemma_usages_in_reading_order(blocks);
                lemma_occurrences_in_reading_order(lexicon@, blocks);
            }
        }
        DocumentTermRegistry { definitions, usages, first_definitions, lexicon_occurrences, term_candidates }
    }

    /// Builds every term analysis with one analysis of the document under
    /// the default configuration.
    pub fn new(document: &Document, lexicon: &Lexicon) -> (r: Self)
        requires
            crate::lint::analysis::blocks_fit(document.blocks@),
        ensures
            r.spec_definitions() == doc_definitions(document.blocks@, document.blocks@.len() as int),
            r.spec_usages() == doc_usages(document.blocks@, document.blocks@.len() as int),
            r.spec_first_definitions() == spec_first_definitions(r.spec_definitions()),
            r.spec_occurrences() == doc_occurrences(lexicon@, document.blocks@, document.blocks@.len() as int),
            reading_ordered(definition_positions(r.spec_definitions())),
            reading_ordered(usage_positions(r.spec_usages())),
            reading_ordered(definition_positions(r.spec_first_definitions())),
            reading_ordered(occurrence_positions(r.spec_occurrences())),
            reading_ordered(candidate_positions(r.spec_candidates())),
    {
        let analysis = DocumentAnalysis::with_default_config(document, lexicon);
        Self::with_analysis(document, lexicon, &analysis)
    }

    /// All acronym definitions in reading order.
    pub fn definitions(&self) -> (r: &[AcronymDefinitionEntry])
        ensures
            views(r@) == self.spec_definitions(),
    {
        self.definitions.as_slice()
    }

    /// All acronym occurrences in reading order, definition occurrences
    /// included and flagged.
    pub fn usages(&self) -> (r: &[AcronymUsageEntry])
        ensures
            views(r@) == self.spec_usages(),
    {
        self.usages.as_slice()
    }

    /// Earliest definition per acronym, in reading order.
    pub fn first_definitions(&self) -> (r: &[AcronymDefinitionEntry])
        ensures
            views(r@) == self.spec_first_definitions(),
    {
        self.first_definitions.as_slice()
    }

    /// The earliest definition of `acronym`, if any.
    pub fn first_definition(&self, acronym: &str) -> (r: Option<&AcronymDefinitionEntry>)
        ensures
            match r {
                Some(d) => find_definition(self.spec_first_definitions(), acronym@) == Some(d@),
                None => find_definition(self.spec_first_definitions(), acronym@) is None,
            },
    {
        let ghost fs = self.spec_first_definitions();
        let mut i: usize = 0;
        assert(fs.skip(0) =~= fs);
        while i < self.first_definitions.len()
            invariant
                i <= fs.len(),
                fs == views(self.first_definitions@),
                find_definition(fs, acronym@) == find_definition(fs.skip(i as int), acronym@),
            decreases fs.len() - i,
        {
            let d = &self.first_definitions[i];
            assert(fs.skip(i as int)[0] == d@);
            if str_eq(d.acronym.as_str(), acronym) {
                return Some(d);
            }
            assert(fs.skip(i as int).drop_first() =~= fs.skip(i + 1));
            i = i + 1;
        }
        None
    }

    /// Non-definition occurrences of `acronym` strictly after `position`,
    /// in reading order.
    pub fn usages_after(&self, acronym: &str, position: ReadingPosition) -> (r: Vec<&AcronymUsageEntry>)
        ensures
            r@.map_values(|u: &AcronymUsageEntry| u@) == self.spec_usages().filter(
                |u: UsageEntryView| !u.is_definition && u.acronym == acronym@ && position_lt(position, u.location.spec_position()),
            ),
    {
        let ghost us = self.spec_usages();
        let mut r: Vec<&AcronymUsageEntry> = Vec::new();
        let mut i: usize = 0;
        while i < self.usages.len()
            invariant
                i <= us.len(),
                us == views(self.usages@),
                r@.map_values(|u: &AcronymUsageEntry| u@) == us.take(i as int).filter(
                    |u: UsageEntryView| !u.is_definition && u.acronym == acronym@ && position_lt(position, u.location.spec_position()),
                ),
            decreases us.len() - i,
        {
            let u = &self.usages[i];
            proof {
                assert(us.take(i + 1) =~= us.take(i as int).push(u@));
                us.take(i as int).lemma_filter_push(
                    u@,
                    |u: UsageEntryView| !u.is_definition && u.acronym == acronym@ && position_lt(position, u.location.spec_position()),
                );
            }
            if !u.is_definition && str_eq(u.acronym.as_str(), acronym) && position.precedes(&u.location.position()) {
                let ghost before = r@;
                r.push(u);
                assert(r@.map_values(|u: &AcronymUsageEntry| u@) =~= before.map_values(|u: &AcronymUsageEntry| u@).push(u@));
            }
            i = i + 1;
        }
        assert(us.take(i as int) =~= us);
        r
    }

    /// All lexicon-resolved occurrences in reading order.
    pub fn lexicon_occurrences(&self) -> (r: &[LexiconOccurrence])
        ensures
            views(r@) == self.spec_occurrences(),
    {
        self.lexicon_occurrences.as_slice()
    }

    /// Lexicon-resolved occurrences of one canonical form, in reading order.
    pub fn lexicon_occurrences_of(&self, canonical: &str) -> (r: Vec<&LexiconOccurrence>)
        ensures
            r@.map_values(|o: &LexiconOccurrence| o@) == self.spec_occurrences().filter(
                |o: OccurrenceView| o.canonical == canonical@,
            ),
    {
        let ghost os = self.spec_occurrences();
        let mut r: Vec<&LexiconOccurrence> = Vec::new();
        let mut i: usize = 0;
        while i < self.lexicon_occurrences.len()
            invariant
                i <= os.len(),
                os == views(self.lexicon_occurrences@),
                r@.map_values(|o: &LexiconOccurrence| o@) == os.take(i as int).filter(
                    |o: OccurrenceView| o.canonical == canonical@,
                ),
            decreases os.len() - i,
        {
            let o = &self.lexicon_occurrences[i];
            proof {
                assert(os.take(i + 1) =~= os.take(i as int).push(o@));
                os.take(i as int).lemma_filter_push(o@, |o: OccurrenceView| o.canonical == canonical@);
            }
            if str_eq(o.canonical.as_str(), canonical) {
                let ghost before = r@;
                r.push(o);
                assert(r@.map_values(|o: &LexiconOccurrence| o@) =~= before.map_values(|o: &LexiconOccurrence| o@).push(o@));
            }
            i = i + 1;
        }
        assert(os.take(i as int) =~= os);
        r
    }

    /// The first lexicon-resolved occurrence of `canonical` in reading order.
    pub fn first_lexicon_occurrence(&self, canonical: &str) -> (r: Option<&LexiconOccurrence>)
        ensures
            match r {
                Some(o) => find_occurrence(self.spec_occurrences(), canonical@) == Some(o@),
                None => find_occurrence(self.spec_occurrences(), canonical@) is None,
            },
    {
        let ghost os = self.spec_occurrences();
        let mut i: usize = 0;
        assert(os.skip(0) =~= os);
        while i < self.lexicon_occurrences.len()
            invariant
                i <= os.len(),
                os == views(self.lexicon_occurrences@),
                find_occurrence(os, canonical@) == find_occurrence(os.skip(i as int), canonical@),
            decreases os.len() - i,
        {
            let o = &self.lexicon_occurrences[i];
            assert(os.skip(i as int)[0] == o@);
            if str_eq(o.canonical.as_str(), canonical) {
                return Some(o);
            }
            assert(os.skip(i as int).drop_first() =~= os.skip(i + 1));
            i = i + 1;
        }
        None
    }

    /// Unknown term candidates in deterministic reading order.
    pub fn term_candidates(&self) -> (r: &[TermCandidate])
        ensures
            views(r@) == self.spec_candidates(),
    {
        self.term_candidates.as_slice()
    }
}

proof fn lemma_find_definition(es: Seq<DefinitionEntryView>, acronym: Seq<char>)
    ensures
        find_definition(es, acronym) matches Some(e) ==> es.contains(e) && e.acronym == acronym,
        find_definition(es, acronym) is None ==> forall|k: int| 0 <= k < es.len() ==> (#[trigger] es[k]).acronym
            != acronym,
    decreases es.len(),
{
    if es.len() > 0 {
        lemma_find_definition(es.drop_first(), acronym);
        if es[0].acronym != acronym {
            match find_definition(es.drop_first(), acronym) {
                Some(e) => {
                    let k = choose|k: int| 0 <= k < es.drop_first().len() && es.drop_first()[k] == e;
                    assert(es[k + 1] == e);
                },
                None => {
                    assert forall|k: int| 0 <= k < es.len() implies (#[trigger] es[k]).acronym != acronym by {
                        if k > 0 {
                            assert(es.drop_first()[k - 1] == es[k]);
                        }
                    }
                },
            }
        } else {
            assert(es[0] == es[0]);
        }
    }
}

/// The earliest definition of an acronym is a definition of it, and no
/// definition of the acronym comes before it in reading order; an acronym
/// has none exactly when it is never defined.
pub proof fn lemma_first_definition_is_earliest(defs: Seq<DefinitionEntryView>, acronym: Seq<char>)
    ensures
        match find_definition(spec_first_definitions(defs), acronym) {
            Some(e) => e.acronym == acronym && defs.contains(e) && forall|k: int|
                0 <= k < defs.len() && (#[trigger] defs[k]).acronym == acronym ==> !position_lt(
                    defs[k].location.spec_position(),
                    e.location.spec_position(),
                ),
            None => forall|k: int| 0 <= k < defs.len() ==> (#[trigger] defs[k]).acronym != acronym,
        },
{
    let firsts = earliest_per_acronym(defs);
    let sorted = spec_first_definitions(defs);
    lemma_earliest_per_acronym(defs);
    crate::order::lemma_stable_sorted_permutes::<AcronymDefinitionEntry, DefinitionPositionOrder>(firsts);
    lemma_find_definition(sorted, acronym);
    match find_definition(sorted, acronym) {
        Some(e) => {
            vstd::seq_lib::to_multiset_contains(sorted, e);
            vstd::seq_lib::to_multiset_contains(firsts, e);
            let w = choose|w: int| 0 <= w < firsts.len() && firsts[w] == e;
            assert(firsts[w] == e);
        },
        None => {
            assert forall|k: int| 0 <= k < defs.len() implies (#[trigger] defs[k]).acronym != acronym by {
                if defs[k].acronym == acronym {
                    let w = super::acronyms::acronym_index(firsts, defs[k].acronym).unwrap();
                    super::acronyms::lemma_acronym_index(firsts, defs[k].acronym);
                    vstd::seq_lib::to_multiset_contains(sorted, firsts[w]);
                    vstd::seq_lib::to_multiset_contains(firsts, firsts[w]);
                    let v = choose|v: int| 0 <= v < sorted.len() && sorted[v] == firsts[w];
                    assert(sorted[v].acronym == acronym);
                }
            }
        },
    }
}

/// Positions in reading order: none comes before one listed earlier.
pub open spec fn reading_ordered(ps: Seq<ReadingPosition>) -> bool {
    forall|i: int, j: int| 0 <= i < j < ps.len() ==> !position_lt(#[trigger] ps[j], #[trigger] ps[i])
}

pub open spec fn definition_positions(ds: Seq<DefinitionEntryView>) -> Seq<ReadingPosition> {
    ds.map_values(|d: DefinitionEntryView| d.location.spec_position())
}

pub open spec fn usage_positions(us: Seq<UsageEntryView>) -> Seq<ReadingPosition> {
    us.map_values(|u: UsageEntryView| u.location.spec_position())
}

pub open spec fn occurrence_positions(os: Seq<OccurrenceView>) -> Seq<ReadingPosition> {
    os.map_values(|o: OccurrenceView| o.location.spec_position())
}

pub open spec fn candidate_positions(cs: Seq<CandidateView>) -> Seq<ReadingPosition> {
    cs.map_values(|c: CandidateView| c.location.spec_position())
}

/// Positions of earlier blocks followed by ordered positions of one later block.
proof fn lemma_reading_ordered_append(a: Seq<ReadingPosition>, b: Seq<ReadingPosition>, blk: int)
    requires
        reading_ordered(a),
        forall|i: int| 0 <= i < a.len() ==> (#[trigger] a[i]).block < blk,
        forall|i: int| 0 <= i < b.len() ==> (#[trigger] b[i]).block == blk,
        forall|i: int, j: int| 0 <= i < j < b.len() ==> (#[trigger] b[i]).byte <= (#[trigger] b[j]).byte,
    ensures
        reading_ordered(a + b),
        forall|i: int| 0 <= i < (a + b).len() ==> (#[trigger] (a + b)[i]).block <= blk,
{
    let c = a + b;
    assert forall|i: int, j: int| 0 <= i < j < c.len() implies !position_lt(#[trigger] c[j], #[trigger] c[i]) by {
        if j < a.len() {
            assert(c[i] == a[i] && c[j] == a[j]);
        } else if i < a.len() {
            assert(c[i] == a[i] && c[j] == b[j - a.len()]);
        } else {
            assert(c[i] == b[i - a.len()] && c[j] == b[j - a.len()]);
        }
    }
    assert forall|i: int| 0 <= i < c.len() implies (#[trigger] c[i]).block <= blk by {
        if i < a.len() {
            assert(c[i] == a[i]);
        } else {
            assert(c[i] == b[i - a.len()]);
        }
    }
}

proof fn lemma_doc_occurrences_ordered(ls: Seq<LexemeView>, blocks: Seq<TextBlock>, n: int)
    requires
        0 <= n <= blocks.len(),
        blocks.len() <= usize::MAX,
        blocks_fit(blocks),
    ensures
        reading_ordered(occurrence_positions(doc_occurrences(ls, blocks, n))),
        forall|i: int|
            0 <= i < doc_occurrences(ls, blocks, n).len() ==> (#[trigger] occurrence_positions(
                doc_occurrences(ls, blocks, n),
            )[i]).block < n,
    decreases n,
{
    if n > 0 {
        lemma_doc_occurrences_ordered(ls, blocks, n - 1);
        let text = blocks[n - 1].text@;
        let blk = (n - 1) as usize;
        super::lexicon_occurrences::lemma_block_occurrences_ordered(ls, text, blk);
        let here = super::lexicon_occurrences::block_occurrences(ls, text, blk);
        let a = occurrence_positions(doc_occurrences(ls, blocks, n - 1));
        let b = occurrence_positions(here);
        assert(occurrence_positions(doc_occurrences(ls, blocks, n)) =~= a + b);
        assert forall|i: int| 0 <= i < b.len() implies (#[trigger] b[i]).block == n - 1 by {
            assert(here[i].location.block == blk);
        }
        assert forall|i: int, j: int| 0 <= i < j < b.len() implies (#[trigger] b[i]).byte <= (#[trigger] b[j]).byte by {
            assert(here[i].location.range.start <= here[j].location.range.start);
        }
        lemma_reading_ordered_append(a, b, n - 1);
    }
}

/// The lexicon occurrences of a document come in reading order.
pub proof fn lemma_occurrences_in_reading_order(ls: Seq<LexemeView>, blocks: Seq<TextBlock>)
    requires
        blocks.len() <= usize::MAX,
        blocks_fit(blocks),
    ensures
        reading_ordered(occurrence_positions(doc_occurrences(ls, blocks, blocks.len() as int))),
{
    lemma_doc_occurrences_ordered(ls, blocks, blocks.len() as int);
}

proof fn lemma_doc_definitions_ordered(blocks: Seq<TextBlock>, n: int)
    requires
        0 <= n <= blocks.len(),
        blocks.len() <= usize::MAX,
    ensures
        reading_ordered(definition_positions(doc_definitions(blocks, n))),
        forall|i: int|
            0 <= i < doc_definitions(blocks, n).len() ==> (#[trigger] definition_positions(
                doc_definitions(blocks, n),
            )[i]).block < n,
    decreases n,
{
    if n > 0 {
        lemma_doc_definitions_ordered(blocks, n - 1);
        let text = blocks[n - 1].text@;
        let blk = (n - 1) as usize;
        crate::text::terminology::lemma_definitions_ordered(text);
        let ds = crate::text::terminology::spec_definitions(text);
        let here = block_definitions(text, blk);
        let a = definition_positions(doc_definitions(blocks, n - 1));
        let b = definition_positions(here);
        assert(definition_positions(doc_definitions(blocks, n)) =~= a + b);
        assert forall|i: int| 0 <= i < b.len() implies (#[trigger] b[i]).block == n - 1 by {
            assert(here[i].location.block == blk);
        }
        assert forall|i: int, j: int| 0 <= i < j < b.len() implies (#[trigger] b[i]).byte <= (#[trigger] b[j]).byte by {
            assert(here[i].location.range == ds[i].range && here[j].location.range == ds[j].range);
        }
        lemma_reading_ordered_append(a, b, n - 1);
    }
}

/// The acronym definitions of a document come in reading order.
pub proof fn lemma_definitions_in_reading_order(blocks: Seq<TextBlock>)
    requires
        blocks.len() <= usize::MAX,
    ensures
        reading_ordered(definition_positions(doc_definitions(blocks, blocks.len() as int))),
{
    lemma_doc_definitions_ordered(blocks, blocks.len() as int);
}

proof fn lemma_doc_usages_ordered(blocks: Seq<TextBlock>, n: int)
    requires
        0 <= n <= blocks.len(),
        blocks.len() <= usize::MAX,
        blocks_fit(blocks),
    ensures
        reading_ordered(usage_positions(doc_usages(blocks, n))),
        forall|i: int|
            0 <= i < doc_usages(blocks, n).len() ==> (#[trigger] usage_positions(doc_usages(blocks, n))[i]).block
                < n,
    decreases n,
{
    if n > 0 {
        lemma_doc_usages_ordered(blocks, n - 1);
        let text = blocks[n - 1].text@;
        let blk = (n - 1) as usize;
        crate::text::terminology::lemma_usages_ordered(text);
        let us = crate::text::terminology::spec_usages(text);
        let here = block_usages(text, blk);
        let a = usage_positions(doc_usages(blocks, n - 1));
        let b = usage_positions(here);
        assert(usage_positions(doc_usages(blocks, n)) =~= a + b);
        assert forall|i: int| 0 <= i < b.len() implies (#[trigger] b[i]).block == n - 1 by {
            assert(here[i].location.block == blk);
        }
        assert forall|i: int, j: int| 0 <= i < j < b.len() implies (#[trigger] b[i]).byte <= (#[trigger] b[j]).byte by {
            assert(here[i].location.range == us[i].range && here[j].location.range == us[j].range);
        }
        lemma_reading_ordered_append(a, b, n - 1);
    }
}

/// The acronym uses of a document come in reading order.
pub proof fn lemma_usages_in_reading_order(blocks: Seq<TextBlock>)
    requires
        blocks.len() <= usize::MAX,
        blocks_fit(blocks),
    ensures
        reading_ordered(usage_positions(doc_usages(blocks, blocks.len() as int))),
{
    lemma_doc_usages_ordered(blocks, blocks.len() as int);
}

/// The earliest definition of each acronym is listed in reading order.
pub proof fn lemma_first_definitions_in_reading_order(defs: Seq<DefinitionEntryView>)
    ensures
        reading_ordered(definition_positions(spec_first_definitions(defs))),
{
    let firsts = spec_first_definitions(defs);
    crate::order::lemma_stable_sorted_is_sorted::<AcronymDefinitionEntry, DefinitionPositionOrder>(
        earliest_per_acronym(defs),
    );
    let ps = definition_positions(firsts);
    assert forall|i: int, j: int| 0 <= i < j < ps.len() implies !position_lt(#[trigger] ps[j], #[trigger] ps[i]) by {
        assert(DefinitionPositionOrder::ordered(firsts[i], firsts[j]));
    }
}

/// The term candidates of a document come in reading order.
pub proof fn lemma_candidates_in_reading_order(analysis: DocumentAnalysis, lexicon: Lexicon, decls: Seq<DefinitionEntryView>)
    ensures
        reading_ordered(candidate_positions(spec_candidates(analysis, lexicon, decls))),
{
    let grouped = super::candidates::aggregate::spec_group(
        super::candidates::unsuppressed(
            super::candidates::spec_raw_occurrences(analysis),
            decls,
            lexicon,
        ),
    );
    crate::order::lemma_stable_sorted_is_sorted::<TermCandidate, CandidateOrder>(
        super::candidates::aggregate::group_candidates(super::candidates::aggregate::groups_of(
            super::candidates::unsuppressed(
                super::candidates::spec_raw_occurrences(analysis),
                decls,
                lexicon,
            ),
        )),
    );
    lemma_kept_sorted(grouped, grouped.len() as int);
    let cs = spec_candidates(analysis, lexicon, decls);
    let ps = candidate_positions(cs);
    assert forall|i: int, j: int| 0 <= i < j < ps.len() implies !position_lt(#[trigger] ps[j], #[trigger] ps[i]) by {
        assert(CandidateOrder::ordered(cs[i], cs[j]));
    }
}

/// Pruning keeps the order of the candidates: what survives of a list
/// sorted by reading position and surface stays so sorted.
proof fn lemma_kept_sorted(all: Seq<CandidateView>, n: int)
    requires
        0 <= n <= all.len(),
        is_sorted::<TermCandidate, CandidateOrder>(all),
    ensures
        is_sorted::<TermCandidate, CandidateOrder>(kept(all, n)),
        forall|k: int|
            0 <= k < kept(all, n).len() ==> exists|i: int| 0 <= i < n && #[trigger] kept(all, n)[k] == #[trigger] all[i],
    decreases n,
{
    if n > 0 {
        lemma_kept_sorted(all, n - 1);
        let prev = kept(all, n - 1);
        let now = kept(all, n);
        assert forall|k: int| 0 <= k < now.len() implies exists|i: int| 0 <= i < n && #[trigger] now[k] == #[trigger] all[i] by {
            if k < prev.len() {
                assert(now[k] == prev[k]);
                let i = choose|i: int| 0 <= i < n - 1 && prev[k] == #[trigger] all[i];
                assert(now[k] == all[i]);
            } else {
                assert(now[k] == all[n - 1]);
            }
        }
        assert forall|a: int, b: int| 0 <= a < b < now.len() implies CandidateOrder::ordered(
            #[trigger] now[a],
            #[trigger] now[b],
        ) by {
            if b < prev.len() {
                assert(now[a] == prev[a] && now[b] == prev[b]);
            } else {
                assert(now[a] == prev[a] && now[b] == all[n - 1]);
                let i = choose|i: int| 0 <= i < n - 1 && prev[a] == #[trigger] all[i];
                assert(CandidateOrder::ordered(all[i], all[n - 1]));
            }
        }
    }
}

proof fn lemma_doc_entries_point(blocks: Seq<TextBlock>, n: int)
    requires
        0 <= n <= blocks.len(),
        blocks.len() <= usize::MAX,
        blocks_fit(blocks),
    ensures
        forall|k: int|
            0 <= k < doc_definitions(blocks, n).len() ==> {
                let d = #[trigger] doc_definitions(blocks, n)[k];
                &&& d.location.block < n
                &&& points_at(blocks[d.location.block as int].text@, d.location.range, d.acronym)
            },
        forall|k: int|
            0 <= k < doc_usages(blocks, n).len() ==> {
                let u = #[trigger] doc_usages(blocks, n)[k];
                &&& u.location.block < n
                &&& points_at(blocks[u.location.block as int].text@, u.location.range, u.acronym)
            },
    decreases n,
{
    if n > 0 {
        lemma_doc_entries_point(blocks, n - 1);
        let text = blocks[n - 1].text@;
        let blk = (n - 1) as usize;
        lemma_definitions_point_at_acronyms(text);
        lemma_usages_point_at_acronyms(text);
        let ds = spec_definitions(text);
        let us = spec_usages(text);
        let pd = doc_definitions(blocks, n - 1);
        let hd = block_definitions(text, blk);
        let all_d = doc_definitions(blocks, n);
        assert(all_d == pd + hd);
        assert forall|k: int| 0 <= k < all_d.len() implies {
            let d = #[trigger] all_d[k];
            &&& d.location.block < n
            &&& points_at(blocks[d.location.block as int].text@, d.location.range, d.acronym)
        } by {
            if k < pd.len() {
                assert(all_d[k] == pd[k]);
            } else {
                assert(all_d[k] == hd[k - pd.len()]);
                assert(hd[k - pd.len()].location.range == ds[k - pd.len()].range);
            }
        }
        let pu = doc_usages(blocks, n - 1);
        let hu = block_usages(text, blk);
        let all_u = doc_usages(blocks, n);
        assert(all_u == pu + hu);
        assert forall|k: int| 0 <= k < all_u.len() implies {
            let u = #[trigger] all_u[k];
            &&& u.location.block < n
            &&& points_at(blocks[u.location.block as int].text@, u.location.range, u.acronym)
        } by {
            if k < pu.len() {
                assert(all_u[k] == pu[k]);
            } else {
                assert(all_u[k] == hu[k - pu.len()]);
                assert(hu[k - pu.len()].location.range == us[k - pu.len()].range);
            }
        }
    }
}

/// Every acronym definition and use of a document names the block it was
/// found in, and its byte range there is where the acronym itself stands,
/// so a diagnostic can point at it.
pub proof fn lemma_acronym_entries_point_at_acronyms(blocks: Seq<TextBlock>)
    requires
        blocks.len() <= usize::MAX,
        blocks_fit(blocks),
    ensures
        forall|k: int|
            0 <= k < doc_definitions(blocks, blocks.len() as int).len() ==> {
                let d = #[trigger] doc_definitions(blocks, blocks.len() as int)[k];
                &&& d.location.block < blocks.len()
                &&& points_at(blocks[d.location.block as int].text@, d.location.range, d.acronym)
            },
        forall|k: int|
            0 <= k < doc_usages(blocks, blocks.len() as int).len() ==> {
                let u = #[trigger] doc_usages(blocks, blocks.len() as int)[k];
                &&& u.location.block < blocks.len()
                &&& points_at(blocks[u.location.block as int].text@, u.location.range, u.acronym)
            },
{
    lemma_doc_entries_point(blocks, blocks.len() as int);
}

} // verus!
