use paperlint::text::lexicon::{Lexeme, LexemeKind, LexemeSource, Lexicon};

fn lexeme(canonical: &str, kind: LexemeKind, case_sensitive: bool) -> Lexeme {
    Lexeme {
        canonical: canonical.to_string(),
        aliases: Vec::new(),
        kind,
        source: LexemeSource::Workspace,
        case_sensitive,
        requires_explanation: false,
    }
}

#[test]
fn builtin_lexicon_holds_default_acr001_ignore_acronyms() {
    let lexicon = Lexicon::builtin();
    for acronym in ["AI", "CPU", "GPU", "API"] {
        let found = lexicon.lookup(acronym).expect(acronym);
        assert_eq!(found.kind, LexemeKind::Acronym, "{acronym}");
        assert_eq!(found.source, LexemeSource::Builtin, "{acronym}");
        assert!(!found.requires_explanation, "{acronym}");
    }
    assert_eq!(lexicon.entries().iter().collect::<Vec<_>>().len(), 4);
    assert!(lexicon.lookup("LLM").is_none());
}

#[test]
fn workspace_entry_overrides_builtin_with_same_canonical() {
    let mut lexicon = Lexicon::builtin();
    let mut entry = lexeme("AI", LexemeKind::Term, false);
    entry.source = LexemeSource::Workspace;
    entry.requires_explanation = true;
    lexicon.insert(entry);

    let found = lexicon.lookup("AI").expect("overridden entry");
    assert_eq!(found.kind, LexemeKind::Term);
    assert_eq!(found.source, LexemeSource::Workspace);
    assert!(found.requires_explanation);
    assert_eq!(
        lexicon
            .entries()
            .iter()
            .filter(|lexeme| lexeme.canonical == "AI")
            .count(),
        1
    );
    // The override replaced the case-sensitive built-in keys entirely.
    assert!(lexicon.lookup("ai").is_some());
}

#[test]
fn aliases_resolve_to_their_canonical_lexeme() {
    let mut lexicon = Lexicon::default();
    let mut entry = lexeme("dataset", LexemeKind::Common, false);
    entry.aliases = vec!["data set".to_string()];
    lexicon.insert(entry);

    for surface in ["dataset", "Dataset", "data set", "DATA SET"] {
        let found = lexicon.lookup(surface).expect(surface);
        assert_eq!(found.canonical, "dataset");
    }
    assert!(lexicon.lookup("datasets").is_none());
}

#[test]
fn case_sensitive_lookup_is_exact_only() {
    let mut lexicon = Lexicon::default();
    let mut entry = lexeme("GitHub", LexemeKind::ProperNoun, true);
    entry.aliases = vec!["Github".to_string()];
    lexicon.insert(entry);

    assert!(lexicon.lookup("GitHub").is_some());
    assert!(lexicon.lookup("Github").is_some());
    assert!(lexicon.lookup("github").is_none());
    assert!(lexicon.lookup("GITHUB").is_none());
}

#[test]
fn ensure_known_acronym_adds_missing_and_keeps_existing() {
    let mut lexicon = Lexicon::builtin();
    lexicon.ensure_known_acronyms(&["XYZ", "AI"]);

    let added = lexicon.lookup("XYZ").expect("stacked acronym");
    assert_eq!(added.kind, LexemeKind::Acronym);
    assert_eq!(added.source, LexemeSource::AcronymIgnore);
    assert_eq!(
        lexicon.lookup("AI").expect("builtin kept").source,
        LexemeSource::Builtin
    );
    assert_eq!(lexicon.entries().len(), 5);
}

#[test]
fn entries_iterate_in_insertion_order() {
    let mut lexicon = Lexicon::builtin();
    lexicon.insert(lexeme("dataset", LexemeKind::Common, false));
    lexicon.insert(lexeme("GHz", LexemeKind::Unit, true));

    let canonicals: Vec<_> = lexicon
        .entries()
        .iter()
        .map(|lexeme| lexeme.canonical.as_str())
        .collect();
    assert_eq!(canonicals, ["AI", "CPU", "GPU", "API", "dataset", "GHz"]);
}

#[test]
fn duplicate_batch_canonicals_keep_the_later_entry() {
    let mut lexicon = Lexicon::builtin();
    let mut first = lexeme("LLM", LexemeKind::Term, false);
    first.aliases = Vec::new();
    let mut second = lexeme("LLM", LexemeKind::Acronym, true);
    second.aliases = vec!["large language model".to_string()];
    second.requires_explanation = true;
    lexicon.overlay_workspace(vec![first, second]);

    assert_eq!(
        lexicon
            .entries()
            .iter()
            .filter(|lexeme| lexeme.canonical == "LLM")
            .count(),
        1,
        "batch dedupes repeated canonicals"
    );
    let found = lexicon.lookup("LLM").expect("LLM resolves");
    assert_eq!(found.kind, LexemeKind::Acronym);
    assert!(found.case_sensitive);
    assert!(found.requires_explanation);
    assert!(lexicon.lookup("large language model").is_some());
    assert_eq!(lexicon.entries().len(), 5);
}

#[test]
fn exact_key_shadows_folded_key_over_the_same_letters() {
    let mut lexicon = Lexicon::default();
    lexicon.insert(lexeme("cnn", LexemeKind::Term, false));
    lexicon.insert(lexeme("CNN", LexemeKind::Acronym, true));

    // The exact map answers first for the letters it owns.
    assert_eq!(lexicon.lookup("CNN").expect("exact wins").canonical, "CNN");
    assert_eq!(lexicon.lookup("cnn").expect("folded kept").canonical, "cnn");
    // Mixed case still folds onto the case-insensitive lexeme.
    assert_eq!(lexicon.lookup("Cnn").expect("folded kept").canonical, "cnn");
}

#[test]
fn later_inserts_win_a_folded_key_conflict() {
    let mut lexicon = Lexicon::default();
    lexicon.insert(lexeme("Dataset", LexemeKind::Common, false));
    lexicon.insert(lexeme("dataset", LexemeKind::Term, false));

    let found = lexicon.lookup("DATASET").expect("folded hit");
    assert_eq!(found.canonical, "dataset", "last writer owns the key");
    // Both lexemes remain listed; only the disputed key is frozen.
    assert_eq!(lexicon.entries().len(), 2);
}

#[test]
fn empty_surfaces_never_reach_the_scan_index() {
    let mut lexicon = Lexicon::default();
    let mut empty = lexeme("", LexemeKind::Term, false);
    empty.aliases = vec!["   ".to_string()];
    lexicon.insert(empty);
    lexicon.ensure_known_acronyms(&["", "   "]);

    assert!(lexicon.lookup("").is_none());
    assert_eq!(lexicon.scan_keys().len(), 0);
}

#[test]
fn scan_keys_mirror_the_frozen_index() {
    let mut lexicon = Lexicon::builtin();
    let mut entry = lexeme("dataset", LexemeKind::Common, false);
    entry.aliases = vec!["dataset".to_string(), "data set".to_string()];
    lexicon.insert(entry);

    let mut exact = std::collections::BTreeSet::new();
    let mut folded = std::collections::BTreeSet::new();
    for key in lexicon.scan_keys() {
        if key.folded {
            folded.insert((key.needle.to_string(), key.canonical.to_string()));
        } else {
            exact.insert((key.needle.to_string(), key.canonical.to_string()));
        }
    }
    // Alias equal to the canonical collapses to one folded key.
    assert_eq!(
        folded,
        [
            ("data set".to_string(), "dataset".to_string()),
            ("dataset".to_string(), "dataset".to_string())
        ]
        .into()
    );
    assert_eq!(
        exact,
        [
            ("AI".to_string(), "AI".to_string()),
            ("API".to_string(), "API".to_string()),
            ("CPU".to_string(), "CPU".to_string()),
            ("GPU".to_string(), "GPU".to_string()),
        ]
        .into()
    );
}
