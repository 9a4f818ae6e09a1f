//! The resolved configuration every lint run uses.
use super::level::{resolve_opt, resolved_opt};
use super::nlp::NlpConfig;
use super::raw::RawPaperlintConfig;
use super::rules::{
    Acr001Config, Acr002Config, Case001Config, Func001Config, Func002Config, HasLevel, Level,
    LexiconEntryConfig, Punc002Config, Style001Config, Style002Config, Syn001Config, Syn002Config,
    Syn003Config, Syn004Config, Syn005Config, Term001Config, Term002Config,
};
use crate::rule_id::{RuleId, lemma_names_distinct};
use vstd::prelude::*;

verus! {

#[derive(Debug, Clone, PartialEq, Eq)]
pub struct LexiconConfig {
    pub entries: Vec<LexiconEntryConfig>,
}

#[derive(Debug, Clone, PartialEq, Eq)]
pub struct LatexConfig {
    pub ignore_environments: Vec<String>,
}

#[derive(Debug, Clone, PartialEq, Eq)]
pub struct PaperlintConfig {
    pub rules: RulesConfig,
    pub latex: LatexConfig,
    pub nlp: NlpConfig,
    pub lexicon: LexiconConfig,
}

#[derive(Debug, Clone, PartialEq, Eq)]
pub struct RulesConfig {
    pub acr001: Acr001Config,
    pub acr002: Acr002Config,
    pub term001: Term001Config,
    pub term002: Term002Config,
    pub style001: Style001Config,
    pub punc002: Punc002Config,
    pub case001: Case001Config,
    pub func001: Func001Config,
    pub func002: Func002Config,
    pub style002: Style002Config,
    pub syn001: Syn001Config,
    pub syn002: Syn002Config,
    pub syn003: Syn003Config,
    pub syn004: Syn004Config,
    pub syn005: Syn005Config,
}

/// The level a rule is configured at.
pub open spec fn rule_level(rules: RulesConfig, id: RuleId) -> Level {
    match id {
        RuleId::Acr001 => rules.acr001.level,
        RuleId::Acr002 => rules.acr002.level,
        RuleId::Term001 => rules.term001.level,
        RuleId::Term002 => rules.term002.level,
        RuleId::Style001 => rules.style001.level,
        RuleId::Punc002 => rules.punc002.level,
        RuleId::Case001 => rules.case001.level,
        RuleId::Func001 => rules.func001.level,
        RuleId::Func002 => rules.func002.level,
        RuleId::Style002 => rules.style002.level,
        RuleId::Syn001 => rules.syn001.level,
        RuleId::Syn002 => rules.syn002.level,
        RuleId::Syn003 => rules.syn003.level,
        RuleId::Syn004 => rules.syn004.level,
        RuleId::Syn005 => rules.syn005.level,
    }
}

/// The rules with one rule moved to another level.
pub open spec fn with_rule_level(rules: RulesConfig, id: RuleId, level: Level) -> RulesConfig {
    match id {
        RuleId::Acr001 => RulesConfig { acr001: rules.acr001.leveled(level), ..rules },
        RuleId::Acr002 => RulesConfig { acr002: rules.acr002.leveled(level), ..rules },
        RuleId::Term001 => RulesConfig { term001: rules.term001.leveled(level), ..rules },
        RuleId::Term002 => RulesConfig { term002: rules.term002.leveled(level), ..rules },
        RuleId::Style001 => RulesConfig { style001: rules.style001.leveled(level), ..rules },
        RuleId::Punc002 => RulesConfig { punc002: rules.punc002.leveled(level), ..rules },
        RuleId::Case001 => RulesConfig { case001: rules.case001.leveled(level), ..rules },
        RuleId::Func001 => RulesConfig { func001: rules.func001.leveled(level), ..rules },
        RuleId::Func002 => RulesConfig { func002: rules.func002.leveled(level), ..rules },
        RuleId::Style002 => RulesConfig { style002: rules.style002.leveled(level), ..rules },
        RuleId::Syn001 => RulesConfig { syn001: rules.syn001.leveled(level), ..rules },
        RuleId::Syn002 => RulesConfig { syn002: rules.syn002.leveled(level), ..rules },
        RuleId::Syn003 => RulesConfig { syn003: rules.syn003.leveled(level), ..rules },
        RuleId::Syn004 => RulesConfig { syn004: rules.syn004.leveled(level), ..rules },
        RuleId::Syn005 => RulesConfig { syn005: rules.syn005.leveled(level), ..rules },
    }
}

/// The rule a name denotes, if any.
pub open spec fn named_rule(name: Seq<char>) -> Option<RuleId> {
    if exists|id: RuleId| #[trigger] id.spec_name() == name {
        Some(choose|id: RuleId| #[trigger] id.spec_name() == name)
    } else {
        None
    }
}

/// The rules after moving each named rule, in order, to `level`; unknown
/// names are ignored.
pub open spec fn apply_levels(rules: RulesConfig, names: Seq<String>, level: Level) -> RulesConfig
    decreases names.len(),
{
    if names.len() == 0 {
        rules
    } else {
        let before = apply_levels(rules, names.drop_last(), level);
        match named_rule(names.last()@) {
            Some(id) => with_rule_level(before, id, level),
            None => before,
        }
    }
}

/// Some name of the list denotes the rule.
pub open spec fn names_rule(names: Seq<String>, id: RuleId) -> bool {
    exists|i: int| 0 <= i < names.len() && (#[trigger] names[i])@ == id.spec_name()
}

/// Moving one rule changes that rule's level alone.
pub proof fn lemma_with_rule_level(rules: RulesConfig, id: RuleId, level: Level, other: RuleId)
    ensures
        rule_level(with_rule_level(rules, id, level), other) == if id == other {
            level
        } else {
            rule_level(rules, other)
        },
{
    match id {
        RuleId::Acr001 => match other {
            RuleId::Acr001 => {},
            RuleId::Acr002 => {},
            RuleId::Term001 => {},
            RuleId::Term002 => {},
            RuleId::Style001 => {},
            RuleId::Punc002 => {},
            RuleId::Case001 => {},
            RuleId::Func001 => {},
            RuleId::Func002 => {},
            RuleId::Style002 => {},
            RuleId::Syn001 => {},
            RuleId::Syn002 => {},
            RuleId::Syn003 => {},
            RuleId::Syn004 => {},
            RuleId::Syn005 => {},
        },
        RuleId::Acr002 => match other {
            RuleId::Acr001 => {},
            RuleId::Acr002 => {},
            RuleId::Term001 => {},
            RuleId::Term002 => {},
            RuleId::Style001 => {},
            RuleId::Punc002 => {},
            RuleId::Case001 => {},
            RuleId::Func001 => {},
            RuleId::Func002 => {},
            RuleId::Style002 => {},
            RuleId::Syn001 => {},
            RuleId::Syn002 => {},
            RuleId::Syn003 => {},
            RuleId::Syn004 => {},
            RuleId::Syn005 => {},
        },
        RuleId::Term001 => match other {
            RuleId::Acr001 => {},
            RuleId::Acr002 => {},
            RuleId::Term001 => {},
            RuleId::Term002 => {},
            RuleId::Style001 => {},
            RuleId::Punc002 => {},
            RuleId::Case001 => {},
            RuleId::Func001 => {},
            RuleId::Func002 => {},
            RuleId::Style002 => {},
            RuleId::Syn001 => {},
            RuleId::Syn002 => {},
            RuleId::Syn003 => {},
            RuleId::Syn004 => {},
            RuleId::Syn005 => {},
        },
        RuleId::Term002 => match other {
            RuleId::Acr001 => {},
            RuleId::Acr002 => {},
            RuleId::Term001 => {},
            RuleId::Term002 => {},
            RuleId::Style001 => {},
            RuleId::Punc002 => {},
            RuleId::Case001 => {},
            RuleId::Func001 => {},
            RuleId::Func002 => {},
            RuleId::Style002 => {},
            RuleId::Syn001 => {},
            RuleId::Syn002 => {},
            RuleId::Syn003 => {},
            RuleId::Syn004 => {},
            RuleId::Syn005 => {},
        },
        RuleId::Style001 => match other {
            RuleId::Acr001 => {},
            RuleId::Acr002 => {},
            RuleId::Term001 => {},
            RuleId::Term002 => {},
            RuleId::Style001 => {},
            RuleId::Punc002 => {},
            RuleId::Case001 => {},
            RuleId::Func001 => {},
            RuleId::Func002 => {},
            RuleId::Style002 => {},
            RuleId::Syn001 => {},
            RuleId::Syn002 => {},
            RuleId::Syn003 => {},
            RuleId::Syn004 => {},
            RuleId::Syn005 => {},
        },
        RuleId::Punc002 => match other {
            RuleId::Acr001 => {},
            RuleId::Acr002 => {},
            RuleId::Term001 => {},
            RuleId::Term002 => {},
            RuleId::Style001 => {},
            RuleId::Punc002 => {},
            RuleId::Case001 => {},
            RuleId::Func001 => {},
            RuleId::Func002 => {},
            RuleId::Style002 => {},
            RuleId::Syn001 => {},
            RuleId::Syn002 => {},
            RuleId::Syn003 => {},
            RuleId::Syn004 => {},
            RuleId::Syn005 => {},
        },
        RuleId::Case001 => match other {
            RuleId::Acr001 => {},
            RuleId::Acr002 => {},
            RuleId::Term001 => {},
            RuleId::Term002 => {},
            RuleId::Style001 => {},
            RuleId::Punc002 => {},
            RuleId::Case001 => {},
            RuleId::Func001 => {},
            RuleId::Func002 => {},
            RuleId::Style002 => {},
            RuleId::Syn001 => {},
            RuleId::Syn002 => {},
            RuleId::Syn003 => {},
            RuleId::Syn004 => {},
            RuleId::Syn005 => {},
        },
        RuleId::Func001 => match other {
            RuleId::Acr001 => {},
            RuleId::Acr002 => {},
            RuleId::Term001 => {},
            RuleId::Term002 => {},
            RuleId::Style001 => {},
            RuleId::Punc002 => {},
            RuleId::Case001 => {},
            RuleId::Func001 => {},
            RuleId::Func002 => {},
            RuleId::Style002 => {},
            RuleId::Syn001 => {},
            RuleId::Syn002 => {},
            RuleId::Syn003 => {},
            RuleId::Syn004 => {},
            RuleId::Syn005 => {},
        },
        RuleId::Func002 => match other {
            RuleId::Acr001 => {},
            RuleId::Acr002 => {},
            RuleId::Term001 => {},
            RuleId::Term002 => {},
            RuleId::Style001 => {},
            RuleId::Punc002 => {},
            RuleId::Case001 => {},
            RuleId::Func001 => {},
            RuleId::Func002 => {},
            RuleId::Style002 => {},
            RuleId::Syn001 => {},
            RuleId::Syn002 => {},
            RuleId::Syn003 => {},
            RuleId::Syn004 => {},
            RuleId::Syn005 => {},
        },
        RuleId::Style002 => match other {
            RuleId::Acr001 => {},
            RuleId::Acr002 => {},
            RuleId::Term001 => {},
            RuleId::Term002 => {},
            RuleId::Style001 => {},
            RuleId::Punc002 => {},
            RuleId::Case001 => {},
            RuleId::Func001 => {},
            RuleId::Func002 => {},
            RuleId::Style002 => {},
            RuleId::Syn001 => {},
            RuleId::Syn002 => {},
            RuleId::Syn003 => {},
            RuleId::Syn004 => {},
            RuleId::Syn005 => {},
        },
        RuleId::Syn001 => match other {
            RuleId::Acr001 => {},
            RuleId::Acr002 => {},
            RuleId::Term001 => {},
            RuleId::Term002 => {},
            RuleId::Style001 => {},
            RuleId::Punc002 => {},
            RuleId::Case001 => {},
            RuleId::Func001 => {},
            RuleId::Func002 => {},
            RuleId::Style002 => {},
            RuleId::Syn001 => {},
            RuleId::Syn002 => {},
            RuleId::Syn003 => {},
            RuleId::Syn004 => {},
            RuleId::Syn005 => {},
        },
        RuleId::Syn002 => match other {
            RuleId::Acr001 => {},
            RuleId::Acr002 => {},
            RuleId::Term001 => {},
            RuleId::Term002 => {},
            RuleId::Style001 => {},
            RuleId::Punc002 => {},
            RuleId::Case001 => {},
            RuleId::Func001 => {},
            RuleId::Func002 => {},
            RuleId::Style002 => {},
            RuleId::Syn001 => {},
            RuleId::Syn002 => {},
            RuleId::Syn003 => {},
            RuleId::Syn004 => {},
            RuleId::Syn005 => {},
        },
        RuleId::Syn003 => match other {
            RuleId::Acr001 => {},
            RuleId::Acr002 => {},
            RuleId::Term001 => {},
            RuleId::Term002 => {},
            RuleId::Style001 => {},
            RuleId::Punc002 => {},
            RuleId::Case001 => {},
            RuleId::Func001 => {},
            RuleId::Func002 => {},
            RuleId::Style002 => {},
            RuleId::Syn001 => {},
            RuleId::Syn002 => {},
            RuleId::Syn003 => {},
            RuleId::Syn004 => {},
            RuleId::Syn005 => {},
        },
        RuleId::Syn004 => match other {
            RuleId::Acr001 => {},
            RuleId::Acr002 => {},
            RuleId::Term001 => {},
            RuleId::Term002 => {},
            RuleId::Style001 => {},
            RuleId::Punc002 => {},
            RuleId::Case001 => {},
            RuleId::Func001 => {},
            RuleId::Func002 => {},
            RuleId::Style002 => {},
            RuleId::Syn001 => {},
            RuleId::Syn002 => {},
            RuleId::Syn003 => {},
            RuleId::Syn004 => {},
            RuleId::Syn005 => {},
        },
        RuleId::Syn005 => match other {
            RuleId::Acr001 => {},
            RuleId::Acr002 => {},
            RuleId::Term001 => {},
            RuleId::Term002 => {},
            RuleId::Style001 => {},
            RuleId::Punc002 => {},
            RuleId::Case001 => {},
            RuleId::Func001 => {},
            RuleId::Func002 => {},
            RuleId::Style002 => {},
            RuleId::Syn001 => {},
            RuleId::Syn002 => {},
            RuleId::Syn003 => {},
            RuleId::Syn004 => {},
            RuleId::Syn005 => {},
        },
    }
}

/// After the named rules are moved to `level`, a rule is at `level` exactly
/// when some name denotes it, and keeps its level otherwise.
pub proof fn lemma_apply_levels(rules: RulesConfig, names: Seq<String>, level: Level, id: RuleId)
    ensures
        rule_level(apply_levels(rules, names, level), id) == if names_rule(names, id) {
            level
        } else {
            rule_level(rules, id)
        },
    decreases names.len(),
{
    if names.len() > 0 {
        let init = names.drop_last();
        lemma_apply_levels(rules, init, level, id);
        let before = apply_levels(rules, init, level);
        match named_rule(names.last()@) {
            Some(found) => {
                lemma_with_rule_level(before, found, level, id);
                if found == id {
                    assert(names[names.len() - 1]@ == id.spec_name());
                }
            },
            None => {},
        }
        if names_rule(names, id) && !names_rule(init, id) {
            let i = choose|i: int| 0 <= i < names.len() && (#[trigger] names[i])@ == id.spec_name();
            if i < names.len() - 1 {
                assert(init[i] == names[i]);
            }
            assert(named_rule(names.last()@) is Some);
            let found = named_rule(names.last()@)->0;
            lemma_names_distinct(found, id);
        }
        if names_rule(init, id) {
            let i = choose|i: int| 0 <= i < init.len() && (#[trigger] init[i])@ == id.spec_name();
            assert(names[i] == init[i]);
        }
    }
}

/// After overrides a rule is off when some disable name denotes it, at
/// warning level when only an enable name does, and keeps its level otherwise.
pub proof fn lemma_override_levels(
    rules: RulesConfig,
    enable: Seq<String>,
    disable: Seq<String>,
    id: RuleId,
)
    ensures
        rule_level(apply_levels(apply_levels(rules, enable, Level::Warning), disable, Level::Off), id)
            == if names_rule(disable, id) {
            Level::Off
        } else if names_rule(enable, id) {
            Level::Warning
        } else {
            rule_level(rules, id)
        },
{
    lemma_apply_levels(rules, enable, Level::Warning, id);
    lemma_apply_levels(apply_levels(rules, enable, Level::Warning), disable, Level::Off, id);
}

impl PaperlintConfig {
    fn set_rule_level(self, rule: &str, level: Level) -> (r: Self)
        ensures
            r == (match named_rule(rule@) {
                Some(id) => PaperlintConfig { rules: with_rule_level(self.rules, id, level), ..self },
                None => self,
            }),
    {
        let mut config = self;
        let parsed = RuleId::parse(rule);
        proof {
            if let Ok(id) = parsed {
                let c = choose|c: RuleId| #[trigger] c.spec_name() == rule@;
                lemma_names_distinct(c, id);
            }
        }
        match parsed {
            Ok(RuleId::Acr001) => config.rules.acr001.set_level(level),
            Ok(RuleId::Acr002) => config.rules.acr002.set_level(level),
            Ok(RuleId::Term001) => config.rules.term001.set_level(level),
            Ok(RuleId::Term002) => config.rules.term002.set_level(level),
            Ok(RuleId::Style001) => config.rules.style001.set_level(level),
            Ok(RuleId::Punc002) => config.rules.punc002.set_level(level),
            Ok(RuleId::Case001) => config.rules.case001.set_level(level),
            Ok(RuleId::Func001) => config.rules.func001.set_level(level),
            Ok(RuleId::Func002) => config.rules.func002.set_level(level),
            Ok(RuleId::Style002) => config.rules.style002.set_level(level),
            Ok(RuleId::Syn001) => config.rules.syn001.set_level(level),
            Ok(RuleId::Syn002) => config.rules.syn002.set_level(level),
            Ok(RuleId::Syn003) => config.rules.syn003.set_level(level),
            Ok(RuleId::Syn004) => config.rules.syn004.set_level(level),
            Ok(RuleId::Syn005) => config.rules.syn005.set_level(level),
            Err(_) => {},
        }
        config
    }

    /// Turns the `enable` rules on at warning level, then the `disable` rules off.
    pub fn with_overrides(self, enable: &[String], disable: &[String]) -> (r: Self)
        ensures
            r == (PaperlintConfig {
                rules: apply_levels(apply_levels(self.rules, enable@, Level::Warning), disable@, Level::Off),
                ..self
            }),
    {
        let mut config = self;
        let ghost initial = self;
        let mut i: usize = 0;
        while i < enable.len()
            invariant
                i <= enable@.len(),
                config == (PaperlintConfig {
                    rules: apply_levels(initial.rules, enable@.take(i as int), Level::Warning),
                    ..initial
                }),
            decreases enable@.len() - i,
        {
            proof {
                assert(enable@.take(i + 1).drop_last() =~= enable@.take(i as int));
            }
            config = config.set_rule_level(enable[i].as_str(), Level::Warning);
            i = i + 1;
        }
        assert(enable@.take(i as int) =~= enable@);
        let ghost enabled = config;
        let mut i: usize = 0;
        while i < disable.len()
            invariant
                i <= disable@.len(),
                config == (PaperlintConfig {
                    rules: apply_levels(enabled.rules, disable@.take(i as int), Level::Off),
                    ..enabled
                }),
            decreases disable@.len() - i,
        {
            proof {
                assert(disable@.take(i + 1).drop_last() =~= disable@.take(i as int));
            }
            config = config.set_rule_level(disable[i].as_str(), Level::Off);
            i = i + 1;
        }
        assert(disable@.take(i as int) =~= disable@);
        config
    }

    /// The configuration a file describes: each rule, section or list that
    /// the file sets replaces the default; the rest keeps it.
    pub fn from_raw(raw: RawPaperlintConfig, defaults: Self) -> (config: Self)
        ensures
            config.rules.acr001 == resolved_opt(raw.rules.acr001, defaults.rules.acr001),
            config.rules.acr002 == resolved_opt(raw.rules.acr002, defaults.rules.acr002),
            config.rules.term001 == resolved_opt(raw.rules.term001, defaults.rules.term001),
            config.rules.term002 == resolved_opt(raw.rules.term002, defaults.rules.term002),
            config.rules.style001 == resolved_opt(raw.rules.style001, defaults.rules.style001),
            config.rules.punc002 == resolved_opt(raw.rules.punc002, defaults.rules.punc002),
            config.rules.case001 == resolved_opt(raw.rules.case001, defaults.rules.case001),
            config.rules.func001 == resolved_opt(raw.rules.func001, defaults.rules.func001),
            config.rules.func002 == resolved_opt(raw.rules.func002, defaults.rules.func002),
            config.rules.style002 == resolved_opt(raw.rules.style002, defaults.rules.style002),
            config.rules.syn001 == resolved_opt(raw.rules.syn001, defaults.rules.syn001),
            config.rules.syn002 == resolved_opt(raw.rules.syn002, defaults.rules.syn002),
            config.rules.syn003 == resolved_opt(raw.rules.syn003, defaults.rules.syn003),
            config.rules.syn004 == resolved_opt(raw.rules.syn004, defaults.rules.syn004),
            config.rules.syn005 == resolved_opt(raw.rules.syn005, defaults.rules.syn005),
            config.latex.ignore_environments == (match raw.latex.ignore_environments {
                Some(v) => v,
                None => defaults.latex.ignore_environments,
            }),
            config.nlp == (match raw.nlp {
                Some(n) => n,
                None => defaults.nlp,
            }),
            config.lexicon == (match raw.lexicon {
                Some(l) => LexiconConfig { entries: l.entries },
                None => defaults.lexicon,
            }),
    {
        let PaperlintConfig { rules, latex, nlp, lexicon } = defaults;
        let RawPaperlintConfig { rules: raw_rules, latex: raw_latex, nlp: raw_nlp, lexicon: raw_lexicon } = raw;
        let rules = RulesConfig {
            acr001: resolve_opt(raw_rules.acr001, rules.acr001),
            acr002: resolve_opt(raw_rules.acr002, rules.acr002),
            term001: resolve_opt(raw_rules.term001, rules.term001),
            term002: resolve_opt(raw_rules.term002, rules.term002),
            style001: resolve_opt(raw_rules.style001, rules.style001),
            punc002: resolve_opt(raw_rules.punc002, rules.punc002),
            case001: resolve_opt(raw_rules.case001, rules.case001),
            func001: resolve_opt(raw_rules.func001, rules.func001),
            func002: resolve_opt(raw_rules.func002, rules.func002),
            style002: resolve_opt(raw_rules.style002, rules.style002),
            syn001: resolve_opt(raw_rules.syn001, rules.syn001),
            syn002: resolve_opt(raw_rules.syn002, rules.syn002),
            syn003: resolve_opt(raw_rules.syn003, rules.syn003),
            syn004: resolve_opt(raw_rules.syn004, rules.syn004),
            syn005: resolve_opt(raw_rules.syn005, rules.syn005),
        };
        let latex = match raw_latex.ignore_environments {
            Some(ignore_environments) => LatexConfig { ignore_environments },
            None => latex,
        };
        let nlp = match raw_nlp {
            Some(n) => n,
            None => nlp,
        };
        let lexicon = match raw_lexicon {
            Some(l) => LexiconConfig { entries: l.entries },
            None => lexicon,
        };
        PaperlintConfig { rules, latex, nlp, lexicon }
    }
}

} // verus!
