pub mod aggregate;
pub mod context;
pub mod context_index;
pub mod model;
pub mod ngrams;
pub mod prune;
pub mod score;
pub mod shapes;
pub mod suffix_index;
pub mod suppression;
pub mod text;

pub use model::{RawTermOccurrence, TermCandidate, TermCandidateEvidence, TermCandidateKindHint};
pub use score::CandidateScore;

use crate::lint::analysis::DocumentAnalysis;
use crate::lint::terms::acronyms::{AcronymDefinitionEntry, DefinitionEntryView};
use crate::order::{stable_sort, stable_sorted, views};
use crate::text::lexicon::Lexicon;
use model::{CandidateView, PositionOrder, RawView, ReadingOrder};
use vstd::prelude::*;

verus! {

/// Every raw occurrence of the document, ordered by reading position:
/// identifier shapes, then definition contexts, then repeated phrases
/// among equals.
pub open spec fn spec_raw_occurrences(analysis: DocumentAnalysis) -> Seq<RawView> {
    stable_sorted::<RawTermOccurrence, PositionOrder>(
        stable_sorted::<RawTermOccurrence, ReadingOrder>(shapes::shapes_of(analysis.spec_sentences()))
            + stable_sorted::<RawTermOccurrence, PositionOrder>(context::contexts_of(analysis.spec_sentences()))
            + ngrams::spec_ngrams(analysis.spec_sentences()),
    )
}

/// The occurrences whose surface is not suppressed, in order.
pub open spec fn unsuppressed(occ: Seq<RawView>, decls: Seq<DefinitionEntryView>, lexicon: Lexicon) -> Seq<RawView>
    decreases occ.len(),
{
    if occ.len() == 0 {
        Seq::empty()
    } else {
        unsuppressed(occ.drop_last(), decls, lexicon) + if suppression::suppressed(decls, lexicon, occ.last().surface) {
            Seq::empty()
        } else {
            seq![occ.last()]
        }
    }
}

/// The term candidates of a document: raw occurrences that are neither
/// declared nor known to the lexicon, grouped per surface, with repeated
/// phrases that a better candidate contains dropped.
pub open spec fn spec_candidates(
    analysis: DocumentAnalysis,
    lexicon: Lexicon,
    decls: Seq<DefinitionEntryView>,
) -> Seq<CandidateView> {
    let grouped = aggregate::spec_group(unsuppressed(spec_raw_occurrences(analysis), decls, lexicon));
    prune::kept(grouped, grouped.len() as int)
}

/// The term candidates of an analyzed document.
pub fn collect(
    analysis: &DocumentAnalysis,
    lexicon: &Lexicon,
    declarations: &Vec<AcronymDefinitionEntry>,
) -> (r: Vec<TermCandidate>)
    requires
        analysis.well_formed(),
        context::all_scannable(*analysis),
    ensures
        views(r@) == spec_candidates(*analysis, *lexicon, views(declarations@)),
{
    let mut raw = shapes::collect(analysis);
    let ghost s1 = views(raw@);
    let contexts = context::collect(analysis);
    let ghost s2 = views(contexts@);
    let mut more = contexts;
    let ghost a = raw@;
    let ghost b = more@;
    raw.append(&mut more);
    proof {
        crate::order::lemma_views_add(a, b);
    }
    let phrases = ngrams::collect(analysis);
    let ghost c = raw@;
    let ghost d = phrases@;
    let mut phrases = phrases;
    raw.append(&mut phrases);
    proof {
        crate::order::lemma_views_add(c, d);
    }
    let sorted = stable_sort::<RawTermOccurrence, PositionOrder>(raw);
    let ghost sv = views(sorted@);
    let mut kept: Vec<RawTermOccurrence> = Vec::new();
    let mut input = sorted;
    let n = input.len();
    let mut done: usize = 0;
    assert(views(input@) =~= sv.skip(0));
    assert(sv.take(0) =~= Seq::<RawView>::empty());
    while input.len() > 0
        invariant
            done + input@.len() == n,
            n == sv.len(),
            views(input@) == sv.skip(done as int),
            views(kept@) == unsuppressed(sv.take(done as int), views(declarations@), *lexicon),
        decreases input@.len(),
    {
        let ghost old_input = input@;
        let x = input.remove(0);
        proof {
            assert(input@ =~= old_input.subrange(1, old_input.len() as int));
            assert(views(old_input)[0] == sv[done as int]);
            assert forall|k: int| 0 <= k < input@.len() implies views(input@)[k] == sv.skip(done + 1)[k] by {
                assert(views(old_input)[k + 1] == sv.skip(done as int)[k + 1]);
            }
            assert(views(input@) =~= sv.skip(done + 1));
            assert(sv.take(done + 1).drop_last() =~= sv.take(done as int));
            assert(sv.take(done + 1).last() == x@);
        }
        if !suppression::is_suppressed(declarations, lexicon, x.surface.as_str()) {
            let ghost before = kept@;
            kept.push(x);
            proof {
                crate::order::lemma_views_push(before, x);
            }
        }
        done = done + 1;
    }
    assert(sv.take(done as int) =~= sv);
    let grouped = aggregate::group(kept);
    prune::contained_repeated_only(grouped)
}

} // verus!
