use paperlint::rule_id::RuleId;

#[test]
fn every_rule_name_parses_back_to_its_rule() {
    for id in RuleId::all() {
        assert_eq!(RuleId::parse(id.as_str()), Ok(id));
        assert_eq!(id.as_str().parse::<RuleId>(), Ok(id));
    }
    assert_eq!(RuleId::all().len(), 15);
    assert_eq!(RuleId::Punc002.as_str(), "PUNC002");
}

#[test]
fn unknown_or_differently_cased_names_are_refused() {
    let error = RuleId::parse("acr001").unwrap_err();
    assert_eq!(error.message(), "unknown rule id `acr001`");
    assert!(RuleId::parse("ACR009").is_err());
    assert!(RuleId::parse("").is_err());
}
