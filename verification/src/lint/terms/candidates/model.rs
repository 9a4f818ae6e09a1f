//! Term candidates and the evidence behind them.
use super::score::{normalized_evidence, spec_normalized, spec_score, CandidateScore};
use crate::latex::span::{position_lt, LocatedRange};
use crate::order::{
    lemma_text_irreflexive, lemma_text_total, lemma_text_trans, text_le, text_less, text_lt, Order,
};
use vstd::prelude::*;

verus! {

/// A kind of evidence that a surface is a term.
#[derive(Debug, Clone, Copy, PartialEq, Eq, PartialOrd, Ord, Hash, Structural)]
pub enum TermCandidateEvidence {
    AllCaps,
    CamelOrPascalCase,
    LetterDigit,
    MixedScript,
    DefinitionContext,
    Emphasis,
    RepeatedNgram { occurrences: usize },
}

/// The most telling kind of a candidate's evidence.
#[derive(Debug, Clone, Copy, PartialEq, Eq, Structural)]
pub enum TermCandidateKindHint {
    DefinitionLike,
    MixedScript,
    RepeatedNgram,
    EnglishAcronym,
    EnglishIdentifier,
    ChineseCompound,
    Unknown,
}

/// Kind precedence: definition context, mixed script, repetition, all caps,
/// identifier shape, emphasis.
pub open spec fn spec_kind_hint(ev: Seq<TermCandidateEvidence>) -> TermCandidateKindHint {
    if ev.contains(TermCandidateEvidence::DefinitionContext) {
        TermCandidateKindHint::DefinitionLike
    } else if ev.contains(TermCandidateEvidence::MixedScript) {
        TermCandidateKindHint::MixedScript
    } else if exists|i: int| 0 <= i < ev.len() && ev[i] is RepeatedNgram {
        TermCandidateKindHint::RepeatedNgram
    } else if ev.contains(TermCandidateEvidence::AllCaps) {
        TermCandidateKindHint::EnglishAcronym
    } else if ev.contains(TermCandidateEvidence::CamelOrPascalCase) || ev.contains(
        TermCandidateEvidence::LetterDigit,
    ) {
        TermCandidateKindHint::EnglishIdentifier
    } else if ev.contains(TermCandidateEvidence::Emphasis) {
        TermCandidateKindHint::ChineseCompound
    } else {
        TermCandidateKindHint::Unknown
    }
}

impl TermCandidateKindHint {
    /// The kind hint that the evidence supports.
    pub fn from_evidence(evidence: &[TermCandidateEvidence]) -> (hint: Self)
        ensures
            hint == spec_kind_hint(evidence@),
    {
        let mut has_definition_context = false;
        let mut has_mixed_script = false;
        let mut has_repeated_ngram = false;
        let mut has_all_caps = false;
        let mut has_english_identifier = false;
        let mut has_chinese_compound = false;
        let ghost ev = evidence@;
        let mut i: usize = 0;
        while i < evidence.len()
            invariant
                ev == evidence@,
                i <= evidence.len(),
                has_definition_context == exists|k: int|
                    0 <= k < i && ev[k] == TermCandidateEvidence::DefinitionContext,
                has_mixed_script == exists|k: int|
                    0 <= k < i && ev[k] == TermCandidateEvidence::MixedScript,
                has_repeated_ngram == exists|k: int| 0 <= k < i && ev[k] is RepeatedNgram,
                has_all_caps == exists|k: int| 0 <= k < i && ev[k] == TermCandidateEvidence::AllCaps,
                has_english_identifier == exists|k: int|
                    0 <= k < i && (ev[k] == TermCandidateEvidence::CamelOrPascalCase || ev[k]
                        == TermCandidateEvidence::LetterDigit),
                has_chinese_compound == exists|k: int|
                    0 <= k < i && ev[k] == TermCandidateEvidence::Emphasis,
            decreases evidence.len() - i,
        {
            match evidence[i] {
                TermCandidateEvidence::AllCaps => has_all_caps = true,
                TermCandidateEvidence::CamelOrPascalCase | TermCandidateEvidence::LetterDigit => {
                    has_english_identifier = true;
                },
                TermCandidateEvidence::MixedScript => has_mixed_script = true,
                TermCandidateEvidence::DefinitionContext => has_definition_context = true,
                TermCandidateEvidence::Emphasis => has_chinese_compound = true,
                TermCandidateEvidence::RepeatedNgram { occurrences: _ } => {
                    has_repeated_ngram = true;
                },
            }
            i = i + 1;
        }
        if has_definition_context {
            return Self::DefinitionLike;
        }
        if has_mixed_script {
            return Self::MixedScript;
        }
        if has_repeated_ngram {
            return Self::RepeatedNgram;
        }
        if has_all_caps {
            return Self::EnglishAcronym;
        }
        if has_english_identifier {
            proof {
                let k = choose|k: int|
                    0 <= k < ev.len() && (ev[k] == TermCandidateEvidence::CamelOrPascalCase || ev[k]
                        == TermCandidateEvidence::LetterDigit);
                if ev[k] == TermCandidateEvidence::CamelOrPascalCase {
                    assert(ev.contains(TermCandidateEvidence::CamelOrPascalCase));
                } else {
                    assert(ev.contains(TermCandidateEvidence::LetterDigit));
                }
            }
            return Self::EnglishIdentifier;
        }
        if has_chinese_compound {
            return Self::ChineseCompound;
        }
        Self::Unknown
    }
}

/// The value of a raw occurrence.
#[verifier::ext_equal]
pub struct RawView {
    pub surface: Seq<char>,
    pub location: LocatedRange,
    pub evidence: Seq<TermCandidateEvidence>,
}

impl View for RawTermOccurrence {
    type V = RawView;

    open spec fn view(&self) -> RawView {
        RawView { surface: self.surface@, location: self.location, evidence: self.evidence@ }
    }
}

/// One occurrence of a surface with the evidence seen at that place.
#[derive(Debug, PartialEq, Eq)]
pub struct RawTermOccurrence {
    pub surface: String,
    pub location: LocatedRange,
    pub evidence: Vec<TermCandidateEvidence>,
}

impl Clone for RawTermOccurrence {
    fn clone(&self) -> (r: Self)
        ensures
            r.surface == self.surface,
            r.location == self.location,
            r.evidence@ == self.evidence@,
    {
        RawTermOccurrence {
            surface: self.surface.clone(),
            location: self.location.copy(),
            evidence: copy_evidence(&self.evidence),
        }
    }
}

/// A copy of an evidence list.
pub fn copy_evidence(evidence: &Vec<TermCandidateEvidence>) -> (r: Vec<TermCandidateEvidence>)
    ensures
        r@ == evidence@,
{
    let mut r = Vec::new();
    let mut i: usize = 0;
    while i < evidence.len()
        invariant
            i <= evidence.len(),
            r@ == evidence@.take(i as int),
        decreases evidence.len() - i,
    {
        r.push(evidence[i]);
        assert(evidence@.take(i + 1) =~= evidence@.take(i as int).push(evidence@[i as int]));
        i = i + 1;
    }
    assert(evidence@.take(evidence@.len() as int) =~= evidence@);
    r
}

/// A completed term candidate: a surface, its first location, and its
/// normalized evidence with the kind hint and score it implies.
#[derive(Debug, PartialEq, Eq)]
pub struct TermCandidate {
    surface: String,
    location: LocatedRange,
    evidence: Vec<TermCandidateEvidence>,
    kind_hint: TermCandidateKindHint,
    score: CandidateScore,
}

/// The value of a candidate.
#[verifier::ext_equal]
pub struct CandidateView {
    pub surface: Seq<char>,
    pub location: LocatedRange,
    pub evidence: Seq<TermCandidateEvidence>,
    pub kind_hint: TermCandidateKindHint,
    pub score: u8,
}

impl View for TermCandidate {
    type V = CandidateView;

    open spec fn view(&self) -> CandidateView {
        CandidateView {
            surface: self.spec_surface(),
            location: self.spec_location(),
            evidence: self.spec_evidence(),
            kind_hint: self.spec_kind_hint(),
            score: self.spec_score().spec_value(),
        }
    }
}

/// The candidate completed from a surface, location and evidence.
pub open spec fn completed(surface: Seq<char>, location: LocatedRange, evidence: Seq<TermCandidateEvidence>) -> CandidateView {
    CandidateView {
        surface,
        location,
        evidence: spec_normalized(evidence),
        kind_hint: spec_kind_hint(spec_normalized(evidence)),
        score: spec_score(spec_normalized(evidence)) as u8,
    }
}

/// Candidates ordered by reading position, then by surface text.
pub struct CandidateOrder;

impl Order<TermCandidate> for CandidateOrder {
    open spec fn ordered(a: CandidateView, b: CandidateView) -> bool {
        position_lt(a.location.spec_position(), b.location.spec_position()) || (
        a.location.spec_position() == b.location.spec_position() && text_le(a.surface, b.surface))
    }

    fn le(a: &TermCandidate, b: &TermCandidate) -> (r: bool) {
        let pa = a.location().position();
        let pb = b.location().position();
        if pa.precedes(&pb) {
            true
        } else if pb.precedes(&pa) {
            false
        } else {
            proof {
                lemma_text_total(a@.surface, b@.surface);
                lemma_text_irreflexive(a@.surface);
                if text_lt(a@.surface, b@.surface) && text_lt(b@.surface, a@.surface) {
                    lemma_text_trans(a@.surface, b@.surface, a@.surface);
                }
            }
            !text_less(b.surface(), a.surface())
        }
    }

    proof fn lemma_total(a: CandidateView, b: CandidateView) {
        lemma_text_total(a.surface, b.surface);
    }

    proof fn lemma_trans(a: CandidateView, b: CandidateView, c: CandidateView) {
        if a.location.spec_position() == b.location.spec_position()
            && b.location.spec_position() == c.location.spec_position() {
            if text_lt(a.surface, b.surface) && text_lt(b.surface, c.surface) {
                lemma_text_trans(a.surface, b.surface, c.surface);
            }
        }
    }
}

impl Clone for TermCandidate {
    fn clone(&self) -> (r: Self)
        ensures
            r.spec_surface() == self.spec_surface(),
            r.spec_location() == self.spec_location(),
            r.spec_evidence() == self.spec_evidence(),
            r.spec_kind_hint() == self.spec_kind_hint(),
            r.spec_score() == self.spec_score(),
    {
        TermCandidate {
            surface: self.surface.clone(),
            location: self.location.copy(),
            evidence: copy_evidence(&self.evidence),
            kind_hint: self.kind_hint,
            score: self.score,
        }
    }
}

impl TermCandidate {
    pub closed spec fn spec_surface(&self) -> Seq<char> {
        self.surface@
    }

    pub closed spec fn spec_location(&self) -> LocatedRange {
        self.location
    }

    pub closed spec fn spec_evidence(&self) -> Seq<TermCandidateEvidence> {
        self.evidence@
    }

    pub closed spec fn spec_kind_hint(&self) -> TermCandidateKindHint {
        self.kind_hint
    }

    pub closed spec fn spec_score(&self) -> CandidateScore {
        self.score
    }

    /// The candidate built from `raw`: the normalized evidence and the kind
    /// hint and score it implies.
    pub open spec fn completes(&self, raw: RawTermOccurrence) -> bool {
        &&& self.spec_surface() == raw.surface@
        &&& self.spec_location() == raw.location
        &&& self.spec_evidence() == spec_normalized(raw.evidence@)
        &&& self.spec_kind_hint() == spec_kind_hint(spec_normalized(raw.evidence@))
        &&& self.spec_score().spec_value() == spec_score(spec_normalized(raw.evidence@))
    }

    pub fn surface(&self) -> (s: &str)
        ensures
            s@ == self.spec_surface(),
    {
        self.surface.as_str()
    }

    pub fn location(&self) -> (l: &LocatedRange)
        ensures
            *l == self.spec_location(),
    {
        &self.location
    }

    pub fn evidence(&self) -> (e: &[TermCandidateEvidence])
        ensures
            e@ == self.spec_evidence(),
    {
        self.evidence.as_slice()
    }

    pub fn kind_hint(&self) -> (k: TermCandidateKindHint)
        ensures
            k == self.spec_kind_hint(),
    {
        self.kind_hint
    }

    pub fn score(&self) -> (s: CandidateScore)
        ensures
            s == self.spec_score(),
    {
        self.score
    }

    /// Completes a raw occurrence; fails exactly when it carries no evidence.
    pub fn try_from(occurrence: RawTermOccurrence) -> (r: Result<TermCandidate, ()>)
        ensures
            r is Err <==> occurrence.evidence@.len() == 0,
            r matches Ok(c) ==> c.completes(occurrence),
    {
        let ghost raw = occurrence;
        let evidence = normalized_evidence(occurrence.evidence.as_slice());
        proof {
            lemma_normalized_empty(raw.evidence@);
        }
        if evidence.len() == 0 {
            return Err(());
        }
        let kind_hint = TermCandidateKindHint::from_evidence(evidence.as_slice());
        let score = CandidateScore::from_evidence(evidence.as_slice());
        Ok(
            TermCandidate {
                surface: occurrence.surface,
                location: occurrence.location,
                evidence,
                kind_hint,
                score,
            },
        )
    }
}

/// Completing a candidate does not depend on the order of its evidence: the
/// same items in any order give the same evidence, kind hint and score.
pub proof fn lemma_completion_ignores_evidence_order(
    surface: Seq<char>,
    location: LocatedRange,
    a: Seq<TermCandidateEvidence>,
    b: Seq<TermCandidateEvidence>,
)
    requires
        a.to_multiset() =~= b.to_multiset(),
    ensures
        completed(surface, location, a) == completed(surface, location, b),
{
    super::score::lemma_normalized_ignores_order(a, b);
}

/// Normalizing drops nothing but duplicates: it is empty exactly when the input is.
pub proof fn lemma_normalized_empty(ev: Seq<TermCandidateEvidence>)
    ensures
        spec_normalized(ev).len() == 0 <==> ev.len() == 0,
{
    if ev.len() > 0 {
        let e = ev[0];
        assert(ev.contains(e));
        match e {
            TermCandidateEvidence::RepeatedNgram { occurrences } => {
                lemma_has_repeated_witness(ev, 0);
            },
            _ => {},
        }
    }
}

proof fn lemma_has_repeated_witness(ev: Seq<TermCandidateEvidence>, k: int)
    requires
        0 <= k < ev.len(),
        ev[k] is RepeatedNgram,
    ensures
        super::score::has_repeated(ev),
    decreases ev.len(),
{
    if k < ev.len() - 1 {
        lemma_has_repeated_witness(ev.drop_last(), k);
    }
}

/// Occurrences ordered by reading position, then by surface text.
pub struct ReadingOrder;

impl Order<RawTermOccurrence> for ReadingOrder {
    open spec fn ordered(a: RawView, b: RawView) -> bool {
        position_lt(a.location.spec_position(), b.location.spec_position()) || (
        a.location.spec_position() == b.location.spec_position() && text_le(a.surface, b.surface))
    }

    fn le(a: &RawTermOccurrence, b: &RawTermOccurrence) -> (r: bool) {
        let pa = a.location.position();
        let pb = b.location.position();
        if pa.precedes(&pb) {
            true
        } else if pb.precedes(&pa) {
            false
        } else {
            proof {
                lemma_text_total(a.surface@, b.surface@);
                lemma_text_irreflexive(a.surface@);
                if text_lt(a.surface@, b.surface@) && text_lt(b.surface@, a.surface@) {
                    lemma_text_trans(a.surface@, b.surface@, a.surface@);
                }
            }
            !text_less(b.surface.as_str(), a.surface.as_str())
        }
    }

    proof fn lemma_total(a: RawView, b: RawView) {
        lemma_text_total(a.surface, b.surface);
    }

    proof fn lemma_trans(a: RawView, b: RawView, c: RawView) {
        if a.location.spec_position() == b.location.spec_position()
            && b.location.spec_position() == c.location.spec_position() {
            if text_lt(a.surface, b.surface) && text_lt(b.surface, c.surface) {
                lemma_text_trans(a.surface, b.surface, c.surface);
            }
        }
    }
}

/// Occurrences ordered by reading position alone.
pub struct PositionOrder;

impl Order<RawTermOccurrence> for PositionOrder {
    open spec fn ordered(a: RawView, b: RawView) -> bool {
        !position_lt(b.location.spec_position(), a.location.spec_position())
    }

    fn le(a: &RawTermOccurrence, b: &RawTermOccurrence) -> (r: bool) {
        !b.location.position().precedes(&a.location.position())
    }

    proof fn lemma_total(a: RawView, b: RawView) {
    }

    proof fn lemma_trans(a: RawView, b: RawView, c: RawView) {
    }
}

} // verus!
