//! Evidence normalization and candidate scores.
use super::model::TermCandidateEvidence;
use vstd::prelude::*;

verus! {

/// A candidate's confidence score, 0 to 100.
#[derive(Debug, Clone, Copy, PartialEq, Eq, PartialOrd, Ord)]
pub struct CandidateScore(pub(crate) u8);

/// Whether some item of `ev` is repeated-n-gram evidence.
pub open spec fn has_repeated(ev: Seq<TermCandidateEvidence>) -> bool
    decreases ev.len(),
{
    if ev.len() == 0 {
        false
    } else {
        ev.last() is RepeatedNgram || has_repeated(ev.drop_last())
    }
}

/// The largest occurrence count among repeated-n-gram items (0 when there is none).
pub open spec fn max_repeated(ev: Seq<TermCandidateEvidence>) -> usize
    decreases ev.len(),
{
    if ev.len() == 0 {
        0
    } else {
        let rest = max_repeated(ev.drop_last());
        match ev.last() {
            TermCandidateEvidence::RepeatedNgram { occurrences } => if occurrences > rest {
                occurrences
            } else {
                rest
            },
            _ => rest,
        }
    }
}

pub open spec fn opt_ev(present: bool, e: TermCandidateEvidence) -> Seq<TermCandidateEvidence> {
    if present {
        seq![e]
    } else {
        Seq::empty()
    }
}

/// Each kind of evidence at most once, in declaration order; repeated-n-gram
/// evidence keeps the largest occurrence count.
pub open spec fn spec_normalized(ev: Seq<TermCandidateEvidence>) -> Seq<TermCandidateEvidence> {
    opt_ev(ev.contains(TermCandidateEvidence::AllCaps), TermCandidateEvidence::AllCaps) + opt_ev(
        ev.contains(TermCandidateEvidence::CamelOrPascalCase),
        TermCandidateEvidence::CamelOrPascalCase,
    ) + opt_ev(ev.contains(TermCandidateEvidence::LetterDigit), TermCandidateEvidence::LetterDigit)
        + opt_ev(ev.contains(TermCandidateEvidence::MixedScript), TermCandidateEvidence::MixedScript)
        + opt_ev(
        ev.contains(TermCandidateEvidence::DefinitionContext),
        TermCandidateEvidence::DefinitionContext,
    ) + opt_ev(ev.contains(TermCandidateEvidence::Emphasis), TermCandidateEvidence::Emphasis)
        + opt_ev(
        has_repeated(ev),
        TermCandidateEvidence::RepeatedNgram { occurrences: max_repeated(ev) },
    )
}

pub open spec fn spec_repeated_weight(occurrences: usize) -> nat {
    20 + 5 * if occurrences < 4 {
        occurrences as nat
    } else {
        4
    }
}

pub open spec fn spec_weight(e: TermCandidateEvidence) -> nat {
    match e {
        TermCandidateEvidence::AllCaps => 40,
        TermCandidateEvidence::CamelOrPascalCase => 35,
        TermCandidateEvidence::LetterDigit => 35,
        TermCandidateEvidence::MixedScript => 45,
        TermCandidateEvidence::DefinitionContext => 35,
        TermCandidateEvidence::Emphasis => 25,
        TermCandidateEvidence::RepeatedNgram { occurrences } => spec_repeated_weight(occurrences),
    }
}

pub open spec fn weight_sum(ev: Seq<TermCandidateEvidence>) -> nat
    decreases ev.len(),
{
    if ev.len() == 0 {
        0
    } else {
        weight_sum(ev.drop_last()) + spec_weight(ev.last())
    }
}

/// The score of some evidence: the summed weights of its normalized form, capped at 100.
pub open spec fn spec_score(ev: Seq<TermCandidateEvidence>) -> nat {
    let total = weight_sum(spec_normalized(ev));
    if total < 100 {
        total
    } else {
        100
    }
}

pub proof fn lemma_contains_push(s: Seq<TermCandidateEvidence>, x: TermCandidateEvidence, e: TermCandidateEvidence)
    ensures
        s.push(x).contains(e) == (s.contains(e) || x == e),
{
    if s.contains(e) {
        let k = choose|k: int| 0 <= k < s.len() && s[k] == e;
        assert(s.push(x)[k] == e);
    }
    if x == e {
        assert(s.push(x)[s.len() as int] == e);
    }
    if s.push(x).contains(e) {
        let k = choose|k: int| 0 <= k < s.len() + 1 && s.push(x)[k] == e;
        if k < s.len() {
            assert(s[k] == e);
        }
    }
}

impl CandidateScore {
    const MAX: u8 = 100;

    pub closed spec fn spec_value(self) -> u8 {
        self.0
    }

    /// The score as a number from 0 to 100.
    pub fn value(self) -> (v: u8)
        ensures
            v == self.spec_value(),
    {
        self.0
    }

    /// Sum of the weights of the normalized evidence, capped at 100.
    pub fn from_evidence(evidence: &[TermCandidateEvidence]) -> (score: CandidateScore)
        ensures
            score.spec_value() == spec_score(evidence@),
    {
        let normalized = normalized_evidence(evidence);
        let ghost n = normalized@;
        let mut score: u8 = 0;
        let mut i: usize = 0;
        assert(n.take(0) =~= Seq::<TermCandidateEvidence>::empty());
        while i < normalized.len()
            invariant
                n == normalized@,
                i <= normalized.len(),
                score as nat == if weight_sum(n.take(i as int)) < 100 {
                    weight_sum(n.take(i as int))
                } else {
                    100
                },
            decreases normalized.len() - i,
        {
            assert(n.take(i + 1).drop_last() =~= n.take(i as int));
            let w = normalized[i].weight();
            let sum = score.saturating_add(w);
            score = if sum < Self::MAX { sum } else { Self::MAX };
            i = i + 1;
        }
        assert(n.take(n.len() as int) =~= n);
        CandidateScore(score)
    }
}

impl TermCandidateEvidence {
    /// The score weight of one kind of evidence.
    pub fn weight(&self) -> (w: u8)
        ensures
            w == spec_weight(*self),
    {
        match self {
            Self::AllCaps => 40,
            Self::CamelOrPascalCase => 35,
            Self::LetterDigit => 35,
            Self::MixedScript => 45,
            Self::DefinitionContext => 35,
            Self::Emphasis => 25,
            Self::RepeatedNgram { occurrences } => repeated_ngram_weight(*occurrences),
        }
    }
}

/// Each kind of evidence once, in declaration order, keeping the largest
/// repeated-n-gram count.
pub fn normalized_evidence(evidence: &[TermCandidateEvidence]) -> (normalized: Vec<TermCandidateEvidence>)
    ensures
        normalized@ == spec_normalized(evidence@),
{
    let ghost ev = evidence@;
    let mut has_all_caps = false;
    let mut has_camel_or_pascal_case = false;
    let mut has_letter_digit = false;
    let mut has_mixed_script = false;
    let mut has_definition_context = false;
    let mut has_emphasis = false;
    let mut has_rep = false;
    let mut repeated_occurrences: usize = 0;
    let mut i: usize = 0;
    assert(ev.take(0) =~= Seq::<TermCandidateEvidence>::empty());
    while i < evidence.len()
        invariant
            ev == evidence@,
            i <= evidence.len(),
            has_all_caps == ev.take(i as int).contains(TermCandidateEvidence::AllCaps),
            has_camel_or_pascal_case == ev.take(i as int).contains(
                TermCandidateEvidence::CamelOrPascalCase,
            ),
            has_letter_digit == ev.take(i as int).contains(TermCandidateEvidence::LetterDigit),
            has_mixed_script == ev.take(i as int).contains(TermCandidateEvidence::MixedScript),
            has_definition_context == ev.take(i as int).contains(
                TermCandidateEvidence::DefinitionContext,
            ),
            has_emphasis == ev.take(i as int).contains(TermCandidateEvidence::Emphasis),
            has_rep == has_repeated(ev.take(i as int)),
            repeated_occurrences == max_repeated(ev.take(i as int)),
        decreases evidence.len() - i,
    {
        let ghost prev = ev.take(i as int);
        let ghost next = ev.take(i + 1);
        assert(next =~= prev.push(ev[i as int]));
        assert(next.drop_last() =~= prev);
        proof {
            lemma_contains_push(prev, ev[i as int], TermCandidateEvidence::AllCaps);
            lemma_contains_push(prev, ev[i as int], TermCandidateEvidence::CamelOrPascalCase);
            lemma_contains_push(prev, ev[i as int], TermCandidateEvidence::LetterDigit);
            lemma_contains_push(prev, ev[i as int], TermCandidateEvidence::MixedScript);
            lemma_contains_push(prev, ev[i as int], TermCandidateEvidence::DefinitionContext);
            lemma_contains_push(prev, ev[i as int], TermCandidateEvidence::Emphasis);
        }
        match evidence[i] {
            TermCandidateEvidence::AllCaps => has_all_caps = true,
            TermCandidateEvidence::CamelOrPascalCase => has_camel_or_pascal_case = true,
            TermCandidateEvidence::LetterDigit => has_letter_digit = true,
            TermCandidateEvidence::MixedScript => has_mixed_script = true,
            TermCandidateEvidence::DefinitionContext => has_definition_context = true,
            TermCandidateEvidence::Emphasis => has_emphasis = true,
            TermCandidateEvidence::RepeatedNgram { occurrences } => {
                has_rep = true;
                if occurrences > repeated_occurrences {
                    repeated_occurrences = occurrences;
                }
            },
        }
        i = i + 1;
    }
    assert(ev.take(ev.len() as int) =~= ev);
    let mut normalized = Vec::new();
    if has_all_caps {
        normalized.push(TermCandidateEvidence::AllCaps);
    }
    if has_camel_or_pascal_case {
        normalized.push(TermCandidateEvidence::CamelOrPascalCase);
    }
    if has_letter_digit {
        normalized.push(TermCandidateEvidence::LetterDigit);
    }
    if has_mixed_script {
        normalized.push(TermCandidateEvidence::MixedScript);
    }
    if has_definition_context {
        normalized.push(TermCandidateEvidence::DefinitionContext);
    }
    if has_emphasis {
        normalized.push(TermCandidateEvidence::Emphasis);
    }
    if has_rep {
        normalized.push(TermCandidateEvidence::RepeatedNgram { occurrences: repeated_occurrences });
    }
    assert(normalized@ =~= spec_normalized(ev));
    normalized
}

/// 20 points plus 5 per occurrence, counting at most four occurrences.
pub fn repeated_ngram_weight(occurrences: usize) -> (w: u8)
    ensures
        w == spec_repeated_weight(occurrences),
{
    let bonus_steps = if occurrences < 4 { occurrences } else { 4 };
    let mut bonus: u8 = 0;
    let mut step: usize = 0;
    while step < bonus_steps
        invariant
            step <= bonus_steps <= 4,
            bonus == 5 * step,
        decreases bonus_steps - step,
    {
        bonus = bonus + 5;
        step = step + 1;
    }
    20 + bonus
}

proof fn lemma_has_repeated_iff(ev: Seq<TermCandidateEvidence>)
    ensures
        has_repeated(ev) <==> exists|o: usize| ev.contains(TermCandidateEvidence::RepeatedNgram { occurrences: o }),
    decreases ev.len(),
{
    if ev.len() > 0 {
        let prev = ev.drop_last();
        lemma_has_repeated_iff(prev);
        assert(prev.push(ev.last()) =~= ev);
        if has_repeated(ev) {
            if ev.last() is RepeatedNgram {
                let o = ev.last()->occurrences;
                lemma_contains_push(prev, ev.last(), TermCandidateEvidence::RepeatedNgram { occurrences: o });
            } else {
                let o = choose|o: usize| prev.contains(TermCandidateEvidence::RepeatedNgram { occurrences: o });
                lemma_contains_push(prev, ev.last(), TermCandidateEvidence::RepeatedNgram { occurrences: o });
            }
        }
        if exists|o: usize| ev.contains(TermCandidateEvidence::RepeatedNgram { occurrences: o }) {
            let o = choose|o: usize| ev.contains(TermCandidateEvidence::RepeatedNgram { occurrences: o });
            lemma_contains_push(prev, ev.last(), TermCandidateEvidence::RepeatedNgram { occurrences: o });
        }
    }
}

proof fn lemma_max_repeated_bounds(ev: Seq<TermCandidateEvidence>)
    ensures
        forall|o: usize| #[trigger] ev.contains(TermCandidateEvidence::RepeatedNgram { occurrences: o }) ==> o
            <= max_repeated(ev),
        max_repeated(ev) == 0 || ev.contains(TermCandidateEvidence::RepeatedNgram { occurrences: max_repeated(ev) }),
    decreases ev.len(),
{
    if ev.len() > 0 {
        let prev = ev.drop_last();
        lemma_max_repeated_bounds(prev);
        assert(prev.push(ev.last()) =~= ev);
        assert forall|o: usize| #[trigger] ev.contains(TermCandidateEvidence::RepeatedNgram { occurrences: o }) implies o
            <= max_repeated(ev) by {
            lemma_contains_push(prev, ev.last(), TermCandidateEvidence::RepeatedNgram { occurrences: o });
        }
        lemma_contains_push(prev, ev.last(), TermCandidateEvidence::RepeatedNgram { occurrences: max_repeated(ev) });
        lemma_contains_push(prev, ev.last(), TermCandidateEvidence::RepeatedNgram { occurrences: max_repeated(prev) });
    }
}

/// The order of the evidence does not matter: two lists with the same items,
/// counted with repetition, normalize to the same evidence and so to the same
/// score.
pub proof fn lemma_normalized_ignores_order(a: Seq<TermCandidateEvidence>, b: Seq<TermCandidateEvidence>)
    requires
        a.to_multiset() =~= b.to_multiset(),
    ensures
        spec_normalized(a) == spec_normalized(b),
        spec_score(a) == spec_score(b),
{
    broadcast use vstd::seq_lib::to_multiset_contains;

    assert forall|e: TermCandidateEvidence| #[trigger] a.contains(e) == b.contains(e) by {
        assert(a.to_multiset().count(e) == b.to_multiset().count(e));
    }
    lemma_has_repeated_iff(a);
    lemma_has_repeated_iff(b);
    lemma_max_repeated_bounds(a);
    lemma_max_repeated_bounds(b);
    let (ma, mb) = (max_repeated(a), max_repeated(b));
    assert(a.contains(TermCandidateEvidence::RepeatedNgram { occurrences: ma }) == b.contains(
        TermCandidateEvidence::RepeatedNgram { occurrences: ma },
    ));
    assert(a.contains(TermCandidateEvidence::RepeatedNgram { occurrences: mb }) == b.contains(
        TermCandidateEvidence::RepeatedNgram { occurrences: mb },
    ));
    assert(ma == mb);
    if has_repeated(a) {
        let o = choose|o: usize| a.contains(TermCandidateEvidence::RepeatedNgram { occurrences: o });
        assert(b.contains(TermCandidateEvidence::RepeatedNgram { occurrences: o }));
    }
    if has_repeated(b) {
        let o = choose|o: usize| b.contains(TermCandidateEvidence::RepeatedNgram { occurrences: o });
        assert(a.contains(TermCandidateEvidence::RepeatedNgram { occurrences: o }));
    }
    assert(spec_normalized(a) =~= spec_normalized(b));
}

} // verus!
