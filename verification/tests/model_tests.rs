use paperlint::latex::span::LocatedRange;
use paperlint::lint::terms::candidates::model::{
    RawTermOccurrence, TermCandidate, TermCandidateEvidence, TermCandidateKindHint,
};
use paperlint::lint::terms::candidates::score::normalized_evidence;

fn raw(surface: &str, evidence: Vec<TermCandidateEvidence>) -> RawTermOccurrence {
    RawTermOccurrence {
        surface: surface.to_string(),
        location: LocatedRange { block: 0, range: 4..13 },
        evidence,
    }
}

#[test]
fn raw_occurrence_builds_completed_candidate_with_read_only_accessors() {
    let result = TermCandidate::try_from(raw(
        "GraphRAG2",
        vec![TermCandidateEvidence::LetterDigit, TermCandidateEvidence::MixedScript],
    ));
    let Ok(candidate) = result else {
        panic!("non-empty evidence should emit candidate");
    };

    assert_eq!(candidate.location(), &LocatedRange { block: 0, range: 4..13 });
    assert_eq!(candidate.surface(), "GraphRAG2");
    assert_eq!(candidate.kind_hint(), TermCandidateKindHint::MixedScript);
    assert_eq!(candidate.score().value(), 80);
    assert_eq!(
        candidate.evidence(),
        &[TermCandidateEvidence::LetterDigit, TermCandidateEvidence::MixedScript]
    );
}

#[test]
fn rejects_empty_evidence_before_completed_candidate_construction() {
    assert!(TermCandidate::try_from(raw("GraphRAG2", Vec::new())).is_err());
    let evidence = normalized_evidence(&[]);
    assert!(evidence.is_empty());
    assert_eq!(TermCandidateKindHint::from_evidence(&evidence), TermCandidateKindHint::Unknown);
}

#[test]
fn deduplicates_evidence_and_merges_repeated_ngram_occurrences() {
    let result = TermCandidate::try_from(raw(
        "GraphRAG2",
        vec![
            TermCandidateEvidence::LetterDigit,
            TermCandidateEvidence::LetterDigit,
            TermCandidateEvidence::RepeatedNgram { occurrences: 2 },
            TermCandidateEvidence::RepeatedNgram { occurrences: 7 },
        ],
    ));
    let Ok(candidate) = result else {
        panic!("non-empty evidence should emit candidate");
    };

    assert_eq!(
        candidate.evidence(),
        &[TermCandidateEvidence::LetterDigit, TermCandidateEvidence::RepeatedNgram { occurrences: 7 }]
    );
    assert_eq!(candidate.score().value(), 75);
}

#[test]
fn saturates_score_at_one_hundred() {
    let result = TermCandidate::try_from(raw(
        "GraphRAG2",
        vec![
            TermCandidateEvidence::AllCaps,
            TermCandidateEvidence::MixedScript,
            TermCandidateEvidence::DefinitionContext,
            TermCandidateEvidence::Emphasis,
            TermCandidateEvidence::RepeatedNgram { occurrences: usize::MAX },
        ],
    ));
    let Ok(candidate) = result else {
        panic!("non-empty evidence should emit candidate");
    };

    assert_eq!(candidate.score().value(), 100);
}

#[test]
fn applies_kind_precedence_and_uses_unknown_only_for_empty_evidence() {
    let cases = [
        (vec![TermCandidateEvidence::DefinitionContext], TermCandidateKindHint::DefinitionLike),
        (
            vec![TermCandidateEvidence::MixedScript, TermCandidateEvidence::DefinitionContext],
            TermCandidateKindHint::DefinitionLike,
        ),
        (
            vec![TermCandidateEvidence::RepeatedNgram { occurrences: 2 }, TermCandidateEvidence::MixedScript],
            TermCandidateKindHint::MixedScript,
        ),
        (
            vec![TermCandidateEvidence::AllCaps, TermCandidateEvidence::RepeatedNgram { occurrences: 2 }],
            TermCandidateKindHint::RepeatedNgram,
        ),
        (vec![TermCandidateEvidence::AllCaps], TermCandidateKindHint::EnglishAcronym),
        (vec![TermCandidateEvidence::CamelOrPascalCase], TermCandidateKindHint::EnglishIdentifier),
        (vec![TermCandidateEvidence::LetterDigit], TermCandidateKindHint::EnglishIdentifier),
        (vec![TermCandidateEvidence::Emphasis], TermCandidateKindHint::ChineseCompound),
    ];

    for (evidence, expected) in cases {
        assert_eq!(TermCandidateKindHint::from_evidence(&evidence), expected);
        let result = TermCandidate::try_from(raw("GraphRAG2", evidence));
        let Ok(candidate) = result else {
            panic!("non-empty evidence should emit candidate");
        };
        assert_eq!(candidate.kind_hint(), expected);
    }
    assert_eq!(TermCandidateKindHint::from_evidence(&[]), TermCandidateKindHint::Unknown);
}

#[test]
fn permuted_evidence_gives_the_same_completed_candidate() {
    let evidence = vec![
        TermCandidateEvidence::RepeatedNgram { occurrences: 3 },
        TermCandidateEvidence::Emphasis,
        TermCandidateEvidence::AllCaps,
        TermCandidateEvidence::RepeatedNgram { occurrences: 9 },
        TermCandidateEvidence::Emphasis,
        TermCandidateEvidence::CamelOrPascalCase,
    ];
    let original = TermCandidate::try_from(raw("GraphRAG2", evidence.clone())).expect("evidence present");
    for shift in 1..evidence.len() {
        let mut rotated = evidence.clone();
        rotated.rotate_left(shift);
        let permuted = TermCandidate::try_from(raw("GraphRAG2", rotated)).expect("evidence present");
        assert_eq!(original.evidence(), permuted.evidence());
        assert_eq!(original.score(), permuted.score());
        assert_eq!(original.kind_hint(), permuted.kind_hint());
    }
    let reversed: Vec<_> = evidence.iter().rev().cloned().collect();
    let permuted = TermCandidate::try_from(raw("GraphRAG2", reversed)).expect("evidence present");
    assert_eq!(original, permuted);
    assert_eq!(
        original.evidence(),
        &[
            TermCandidateEvidence::AllCaps,
            TermCandidateEvidence::CamelOrPascalCase,
            TermCandidateEvidence::Emphasis,
            TermCandidateEvidence::RepeatedNgram { occurrences: 9 },
        ]
    );
    assert_eq!(original.score().value(), 100);
}

#[test]
fn repeated_ngram_weight_counts_at_most_four_occurrences() {
    let score = |occurrences| {
        TermCandidate::try_from(raw("跨模态", vec![TermCandidateEvidence::RepeatedNgram { occurrences }]))
            .expect("evidence present")
            .score()
            .value()
    };
    assert_eq!(score(0), 20);
    assert_eq!(score(2), 30);
    assert_eq!(score(4), 40);
    assert_eq!(score(100), 40);
}
