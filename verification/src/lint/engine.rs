//! Running the enabled rules over a document.
use crate::config::{Level, PaperlintConfig};
use crate::latex::parser::Document;
use crate::lint::analysis::blocks_fit;
use crate::lint::context::LintContext;
use crate::lint::diagnostic::{Diagnostic, DiagnosticView, SpanOrder};
use crate::lint::terms::acronyms::spec_first_definitions;
use crate::lint::terms::registry::{doc_definitions, doc_occurrences, doc_usages};
use crate::order::{stable_sorted, views};
use crate::rule_id::RuleId;
use crate::rules::{acronyms, case001, punc002, style001, term001, term002};
use crate::rules::{Acr001, Acr002, Case001, Punc002, Style001, Term001, Term002};
use crate::text::lexicon::{LexemeView, Lexicon};
use vstd::prelude::*;

verus! {

/// The rules to run, in order.
pub struct RuleRegistry {
    rules: Vec<RuleId>,
}

impl RuleRegistry {
    pub closed spec fn spec_rules(&self) -> Seq<RuleId> {
        self.rules@
    }

    /// The default rules: ACR001, ACR002, TERM001, STYLE001, CASE001, PUNC002.
    pub fn default_rules() -> (r: Self)
        ensures
            r.spec_rules() == seq![
                RuleId::Acr001,
                RuleId::Acr002,
                RuleId::Term001,
                RuleId::Style001,
                RuleId::Case001,
                RuleId::Punc002,
            ],
    {
        let rules = vec![
            RuleId::Acr001,
            RuleId::Acr002,
            RuleId::Term001,
            RuleId::Style001,
            RuleId::Case001,
            RuleId::Punc002,
        ];
        assert(rules@ =~= seq![
            RuleId::Acr001,
            RuleId::Acr002,
            RuleId::Term001,
            RuleId::Style001,
            RuleId::Case001,
            RuleId::Punc002,
        ]);
        RuleRegistry { rules }
    }

    /// The rules to run, in order.
    pub fn enabled_rules(&self) -> (r: &[RuleId])
        ensures
            r@ == self.spec_rules(),
    {
        self.rules.as_slice()
    }
}

impl Default for RuleRegistry {
    fn default() -> (r: Self)
        ensures
            r.spec_rules() == seq![
                RuleId::Acr001,
                RuleId::Acr002,
                RuleId::Term001,
                RuleId::Style001,
                RuleId::Case001,
                RuleId::Punc002,
            ],
    {
        Self::default_rules()
    }
}

/// What one rule finds in a document, under a configuration and a lexicon;
/// identifiers without an implementation find nothing.
pub open spec fn spec_rule_findings(id: RuleId, doc: Document, config: PaperlintConfig, ls: Seq<LexemeView>) -> Seq<
    DiagnosticView,
> {
    let blocks = doc.blocks@;
    let n = blocks.len() as int;
    let defs = doc_definitions(blocks, n);
    let rules = config.rules;
    match id {
        RuleId::Acr001 => if rules.acr001.level == Level::Off {
            Seq::empty()
        } else {
            acronyms::acr001_findings(
                doc,
                doc_usages(blocks, n),
                spec_first_definitions(defs),
                rules.acr001.min_length,
                rules.acr001.ignore@.map_values(|s: String| s@),
                rules.acr001.level,
                doc_usages(blocks, n).len() as int,
            )
        },
        RuleId::Acr002 => if rules.acr002.level == Level::Off {
            Seq::empty()
        } else {
            acronyms::acr002_findings(
                doc,
                doc_usages(blocks, n),
                spec_first_definitions(defs),
                rules.acr002.min_usages_after_definition,
                rules.acr002.level,
                spec_first_definitions(defs).len() as int,
            )
        },
        RuleId::Term001 => if rules.term001.level == Level::Off {
            Seq::empty()
        } else {
            stable_sorted::<Diagnostic, SpanOrder>(
                term001::term001_findings(
                    doc,
                    term001::uncovered_pairs(
                        ls,
                        stable_sorted::<(String, String), term001::WrongOrder>(views(rules.term001.replace@)),
                    ),
                    rules.term001.level,
                    n,
                ),
            )
        },
        RuleId::Term002 => if rules.term002.level == Level::Off {
            Seq::empty()
        } else {
            stable_sorted::<Diagnostic, SpanOrder>(
                term002::term_findings(
                    doc,
                    doc_occurrences(ls, blocks, n),
                    defs,
                    rules.term002.level,
                    rules.term002.context_chars as int,
                    doc_occurrences(ls, blocks, n).len() as int,
                ),
            )
        },
        RuleId::Style001 => if rules.style001.level == Level::Off {
            Seq::empty()
        } else {
            style001::style_findings(
                doc,
                rules.style001.max_english_words,
                rules.style001.max_chars,
                rules.style001.level,
                n,
            )
        },
        RuleId::Case001 => if rules.case001.level == Level::Off {
            Seq::empty()
        } else {
            case001::case_findings(doc, ls, defs, rules.case001.level, n)
        },
        RuleId::Punc002 => if rules.punc002.level == Level::Off {
            Seq::empty()
        } else {
            stable_sorted::<Diagnostic, SpanOrder>(
                punc002::punc_findings(
                    doc,
                    punc002::valid_patterns(rules.punc002.ignore_patterns@.map_values(|p: String| p@)),
                    rules.punc002.level,
                    n,
                ),
            )
        },
        _ => Seq::empty(),
    }
}

/// What the first `k` rules find, rule after rule.
pub open spec fn spec_engine_findings(
    ids: Seq<RuleId>,
    doc: Document,
    config: PaperlintConfig,
    ls: Seq<LexemeView>,
    k: int,
) -> Seq<DiagnosticView>
    decreases k,
{
    if k <= 0 {
        Seq::empty()
    } else {
        spec_engine_findings(ids, doc, config, ls, k - 1) + spec_rule_findings(ids[k - 1], doc, config, ls)
    }
}

/// Same input and same configuration give the same diagnostics: what a run
/// finds depends on the rules, the document and the configuration alone.
pub proof fn lemma_runs_are_reproducible(
    rules: Seq<RuleId>,
    doc: Document,
    config: PaperlintConfig,
    first: Seq<DiagnosticView>,
    second: Seq<DiagnosticView>,
)
    requires
        first == spec_engine_findings(
            rules,
            doc,
            config,
            crate::text::lexicon::config_lexicon(config),
            rules.len() as int,
        ),
        second == spec_engine_findings(
            rules,
            doc,
            config,
            crate::text::lexicon::config_lexicon(config),
            rules.len() as int,
        ),
    ensures
        first == second,
{
}

/// Runs one rule.
pub fn check_rule(id: RuleId, context: &LintContext) -> (r: Vec<Diagnostic>)
    requires
        context.well_formed(),
        context.spec_registry().spec_definitions() == doc_definitions(
            context.spec_document().blocks@,
            context.spec_document().blocks@.len() as int,
        ),
        context.spec_registry().spec_usages() == doc_usages(
            context.spec_document().blocks@,
            context.spec_document().blocks@.len() as int,
        ),
        context.spec_registry().spec_first_definitions() == spec_first_definitions(
            context.spec_registry().spec_definitions(),
        ),
        context.spec_registry().spec_occurrences() == doc_occurrences(
            context.spec_lexicon()@,
            context.spec_document().blocks@,
            context.spec_document().blocks@.len() as int,
        ),
    ensures
        views(r@) == spec_rule_findings(id, context.spec_document(), context.spec_config(), context.spec_lexicon()@),
{
    match id {
        RuleId::Acr001 => Acr001.findings(context),
        RuleId::Acr002 => Acr002.findings(context),
        RuleId::Term001 => Term001.findings(context),
        RuleId::Term002 => Term002.findings(context),
        RuleId::Style001 => Style001.findings(context),
        RuleId::Case001 => Case001.findings(context),
        RuleId::Punc002 => Punc002.findings(context),
        _ => Vec::new(),
    }
}

/// Runs the registry's rules over documents.
pub struct RuleEngine {
    registry: RuleRegistry,
}

impl RuleEngine {
    pub closed spec fn spec_registry(&self) -> RuleRegistry {
        self.registry
    }

    pub fn new(registry: RuleRegistry) -> (e: Self)
        ensures
            e.spec_registry() == registry,
    {
        RuleEngine { registry }
    }

    /// Every rule's findings, rule after rule, with the lexicon of the configuration.
    pub fn run(&self, document: &Document, config: &PaperlintConfig) -> (r: Vec<Diagnostic>)
        requires
            document.sources_fit(),
            blocks_fit(document.blocks@),
        ensures
            views(r@) == spec_engine_findings(
                self.spec_registry().spec_rules(),
                *document,
                *config,
                crate::text::lexicon::config_lexicon(*config),
                self.spec_registry().spec_rules().len() as int,
            ),
    {
        let lexicon = Lexicon::from_config(config);
        let context = LintContext::new(document, config, &lexicon);
        let ids = self.registry.enabled_rules();
        let ghost rules = self.spec_registry().spec_rules();
        let mut diagnostics: Vec<Diagnostic> = Vec::new();
        let mut i: usize = 0;
        while i < ids.len()
            invariant
                i <= ids@.len(),
                ids@ == rules,
                context.well_formed(),
                context.spec_document() == *document,
                context.spec_config() == *config,
                context.spec_lexicon() == lexicon,
                context.spec_registry().spec_definitions() == doc_definitions(
                    document.blocks@,
                    document.blocks@.len() as int,
                ),
                context.spec_registry().spec_usages() == doc_usages(document.blocks@, document.blocks@.len() as int),
                context.spec_registry().spec_first_definitions() == spec_first_definitions(
                    context.spec_registry().spec_definitions(),
                ),
                context.spec_registry().spec_occurrences() == doc_occurrences(
                    lexicon@,
                    document.blocks@,
                    document.blocks@.len() as int,
                ),
                views(diagnostics@) == spec_engine_findings(rules, *document, *config, lexicon@, i as int),
            decreases ids@.len() - i,
        {
            let mut found = check_rule(ids[i], &context);
            let ghost (a, b) = (diagnostics@, found@);
            diagnostics.append(&mut found);
            proof {
                crate::order::lemma_views_add(a, b);
            }
            i = i + 1;
        }
        diagnostics
    }
}

} // verus!
