//! ACR001 and ACR002: acronyms are defined before use, and used after
//! their definition.
use super::{concat, decimal, decimal_string, joined_pieces, Rule};
use crate::config::Level;
use crate::latex::parser::Document;
use crate::latex::span::position_lt;
use crate::lint::context::{block_span, LintContext};
use crate::lint::diagnostic::{Diagnostic, DiagnosticView};
use crate::lint::terms::acronyms::{DefinitionEntryView, UsageEntryView};
use crate::lint::terms::acronyms::spec_first_definitions;
use crate::lint::terms::registry::{find_definition, lemma_first_definition_is_earliest};
use crate::order::views;
use crate::rule_id::RuleId;
use crate::text::unicode::{byte_len, str_eq};
use vstd::prelude::*;

verus! {

pub struct Acr001;

pub struct Acr002;

/// The acronym is one of the ignored ones.
pub open spec fn ignored(ignore: Seq<Seq<char>>, acronym: Seq<char>) -> bool {
    ignore.contains(acronym)
}

/// A use reported by ACR001: not part of a definition, long enough, not
/// ignored, and before the acronym's first definition (or never defined).
pub open spec fn used_before_definition(
    u: UsageEntryView,
    firsts: Seq<DefinitionEntryView>,
    min_length: usize,
    ignore: Seq<Seq<char>>,
) -> bool {
    &&& !u.is_definition
    &&& byte_len(u.acronym) >= min_length
    &&& !ignored(ignore, u.acronym)
    &&& match find_definition(firsts, u.acronym) {
        Some(d) => position_lt(u.location.spec_position(), d.location.spec_position()),
        None => true,
    }
}

pub open spec fn acr001_message(acronym: Seq<char>) -> Seq<char> {
    "acronym `"@ + acronym + "` used before definition"@
}

/// ACR001's findings among the first `k` uses.
pub open spec fn acr001_findings(
    doc: Document,
    us: Seq<UsageEntryView>,
    firsts: Seq<DefinitionEntryView>,
    min_length: usize,
    ignore: Seq<Seq<char>>,
    level: Level,
    k: int,
) -> Seq<DiagnosticView>
    decreases k,
{
    if k <= 0 {
        Seq::empty()
    } else {
        let u = us[k - 1];
        acr001_findings(doc, us, firsts, min_length, ignore, level, k - 1) + if used_before_definition(
            u,
            firsts,
            min_length,
            ignore,
        ) {
            match block_span(doc, u.location.block, u.location.range.start as int, u.location.range.end as int) {
                Some(span) => seq![
                    DiagnosticView { rule: RuleId::Acr001, severity: level, message: acr001_message(u.acronym), span },
                ],
                None => Seq::empty(),
            }
        } else {
            Seq::empty()
        }
    }
}

/// Uses of the acronym, not in a definition, strictly after the position.
pub open spec fn uses_after(us: Seq<UsageEntryView>, d: DefinitionEntryView) -> nat {
    us.filter(
        |u: UsageEntryView|
            !u.is_definition && u.acronym == d.acronym && position_lt(d.location.spec_position(), u.location.spec_position()),
    ).len()
}

pub open spec fn acr002_message(acronym: Seq<char>, count: nat, minimum: nat) -> Seq<char> {
    "acronym `"@ + acronym + "` has "@ + decimal(count) + (if count == 1 {
        " use"@
    } else {
        " uses"@
    }) + " after its definition; minimum is "@ + decimal(minimum)
}

/// ACR002's findings among the first `k` first definitions.
pub open spec fn acr002_findings(
    doc: Document,
    us: Seq<UsageEntryView>,
    firsts: Seq<DefinitionEntryView>,
    minimum: usize,
    level: Level,
    k: int,
) -> Seq<DiagnosticView>
    decreases k,
{
    if k <= 0 {
        Seq::empty()
    } else {
        let d = firsts[k - 1];
        acr002_findings(doc, us, firsts, minimum, level, k - 1) + if uses_after(us, d) < minimum {
            match block_span(doc, d.location.block, d.location.range.start as int, d.location.range.end as int) {
                Some(span) => seq![
                    DiagnosticView {
                        rule: RuleId::Acr002,
                        severity: level,
                        message: acr002_message(d.acronym, uses_after(us, d), minimum as nat),
                        span,
                    },
                ],
                None => Seq::empty(),
            }
        } else {
            Seq::empty()
        }
    }
}

fn is_ignored(ignore: &Vec<String>, acronym: &str) -> (r: bool)
    ensures
        r == ignored(ignore@.map_values(|s: String| s@), acronym@),
{
    let ghost m = ignore@.map_values(|s: String| s@);
    let mut i: usize = 0;
    while i < ignore.len()
        invariant
            i <= ignore@.len(),
            m == ignore@.map_values(|s: String| s@),
            forall|k: int| 0 <= k < i ==> m[k] != acronym@,
        decreases ignore@.len() - i,
    {
        if str_eq(ignore[i].as_str(), acronym) {
            assert(m[i as int] == acronym@);
            return true;
        }
        i = i + 1;
    }
    false
}

fn backticked(prefix: &str, acronym: &str, suffix: &str) -> (m: String)
    ensures
        m@ == prefix@ + acronym@ + suffix@,
{
    let pieces: [&str; 3] = [prefix, acronym, suffix];
    let m = concat(&pieces);
    proof {
        let ps = pieces@.map_values(|p: &str| p@);
        reveal_with_fuel(joined_pieces, 4);
        assert(ps.drop_last().drop_last().drop_last() =~= Seq::<Seq<char>>::empty());
        assert(joined_pieces(ps) =~= prefix@ + acronym@ + suffix@);
    }
    m
}

impl Acr001 {
    /// Every use of an acronym before its definition, in reading order.
    pub fn findings(&self, context: &LintContext) -> (r: Vec<Diagnostic>)
        requires
            context.well_formed(),
        ensures
            context.spec_config().rules.acr001.level == Level::Off ==> r@.len() == 0,
            context.spec_config().rules.acr001.level != Level::Off ==> views(r@) == acr001_findings(
                context.spec_document(),
                context.spec_registry().spec_usages(),
                context.spec_registry().spec_first_definitions(),
                context.spec_config().rules.acr001.min_length,
                context.spec_config().rules.acr001.ignore@.map_values(|s: String| s@),
                context.spec_config().rules.acr001.level,
                context.spec_registry().spec_usages().len() as int,
            ),
    {
        let rule = &context.config().rules.acr001;
        let level = rule.level;
        if !level.is_enabled() {
            return Vec::new();
        }
        let registry = context.registry();
        let usages = registry.usages();
        let ghost us = views(usages@);
        let ghost firsts = registry.spec_first_definitions();
        let ghost doc = context.spec_document();
        let ghost ig = rule.ignore@.map_values(|s: String| s@);
        let mut diagnostics: Vec<Diagnostic> = Vec::new();
        let mut k: usize = 0;
        while k < usages.len()
            invariant
                k <= us.len(),
                us == views(usages@),
                firsts == registry.spec_first_definitions(),
                ig == rule.ignore@.map_values(|s: String| s@),
                context.well_formed(),
                context.spec_document() == doc,
                views(diagnostics@) == acr001_findings(doc, us, firsts, rule.min_length, ig, level, k as int),
            decreases us.len() - k,
        {
            let u = &usages[k];
            assert(us[k as int] == u@);
            let a = u.acronym.as_str();
            proof {
                crate::text::unicode::lemma_str_len(a);
            }
            let mut report = !u.is_definition && a.as_bytes().len() >= rule.min_length && !is_ignored(&rule.ignore, a);
            if report {
                match registry.first_definition(u.acronym.as_str()) {
                    Some(d) => {
                        report = u.location.position().precedes(&d.location.position());
                    },
                    None => {},
                }
            }
            assert(report == used_before_definition(u@, firsts, rule.min_length, ig));
            let ghost prev = diagnostics@;
            if report {
                match context.span(u.location.block, u.location.range.start..u.location.range.end) {
                    Some(span) => {
                        let d = Diagnostic {
                            rule: RuleId::Acr001,
                            severity: level,
                            message: backticked("acronym `", u.acronym.as_str(), "` used before definition"),
                            span,
                        };
                        proof {
                            reveal_strlit("acronym `");
                            reveal_strlit("` used before definition");
                        }
                        diagnostics.push(d);
                        proof {
                            crate::order::lemma_views_push(prev, d);
                        }
                    },
                    None => {},
                }
            }
            proof {
                assert(views(diagnostics@) =~= acr001_findings(doc, us, firsts, rule.min_length, ig, level, k + 1));
            }
            k = k + 1;
        }
        diagnostics
    }
}

impl Rule for Acr001 {
    fn id(&self) -> (r: RuleId)
        ensures
            r == RuleId::Acr001,
    {
        RuleId::Acr001
    }

    fn check(&self, context: &LintContext) -> (r: Vec<Diagnostic>)
        ensures
            context.spec_config().rules.acr001.level == Level::Off ==> r@.len() == 0,
            context.spec_config().rules.acr001.level != Level::Off ==> views(r@) == acr001_findings(
                context.spec_document(),
                context.spec_registry().spec_usages(),
                context.spec_registry().spec_first_definitions(),
                context.spec_config().rules.acr001.min_length,
                context.spec_config().rules.acr001.ignore@.map_values(|s: String| s@),
                context.spec_config().rules.acr001.level,
                context.spec_registry().spec_usages().len() as int,
            ),
    {
        self.findings(context)
    }
}

fn acr002_message_of(acronym: &str, count: usize, minimum: usize) -> (m: String)
    ensures
        m@ == acr002_message(acronym@, count as nat, minimum as nat),
{
    let c = decimal_string(count);
    let mn = decimal_string(minimum);
    let word = if count == 1 {
        " use"
    } else {
        " uses"
    };
    let pieces: [&str; 7] = [
        "acronym `",
        acronym,
        "` has ",
        c.as_str(),
        word,
        " after its definition; minimum is ",
        mn.as_str(),
    ];
    let m = concat(&pieces);
    proof {
        reveal_strlit("acronym `");
        reveal_strlit("` has ");
        reveal_strlit(" use");
        reveal_strlit(" uses");
        reveal_strlit(" after its definition; minimum is ");
        let ps = pieces@.map_values(|p: &str| p@);
        reveal_with_fuel(joined_pieces, 8);
        assert(ps.drop_last().drop_last().drop_last().drop_last().drop_last().drop_last().drop_last()
            =~= Seq::<Seq<char>>::empty());
        assert(joined_pieces(ps) =~= acr002_message(acronym@, count as nat, minimum as nat));
    }
    m
}

impl Acr002 {
    /// Every first definition followed by too few uses, in reading order.
    pub fn findings(&self, context: &LintContext) -> (r: Vec<Diagnostic>)
        requires
            context.well_formed(),
        ensures
            context.spec_config().rules.acr002.level == Level::Off ==> r@.len() == 0,
            context.spec_config().rules.acr002.level != Level::Off ==> views(r@) == acr002_findings(
                context.spec_document(),
                context.spec_registry().spec_usages(),
                context.spec_registry().spec_first_definitions(),
                context.spec_config().rules.acr002.min_usages_after_definition,
                context.spec_config().rules.acr002.level,
                context.spec_registry().spec_first_definitions().len() as int,
            ),
    {
        let rule = &context.config().rules.acr002;
        let level = rule.level;
        if !level.is_enabled() {
            return Vec::new();
        }
        let registry = context.registry();
        let firsts = registry.first_definitions();
        let ghost fv = views(firsts@);
        let ghost us = registry.spec_usages();
        let ghost doc = context.spec_document();
        let mut diagnostics: Vec<Diagnostic> = Vec::new();
        let mut k: usize = 0;
        while k < firsts.len()
            invariant
                k <= fv.len(),
                fv == views(firsts@),
                fv == registry.spec_first_definitions(),
                us == registry.spec_usages(),
                context.well_formed(),
                context.spec_document() == doc,
                views(diagnostics@) == acr002_findings(doc, us, fv, rule.min_usages_after_definition, level, k as int),
            decreases fv.len() - k,
        {
            let d = &firsts[k];
            assert(fv[k as int] == d@);
            let after = registry.usages_after(d.acronym.as_str(), d.location.position());
            let count = after.len();
            proof {
                assert(after@.map_values(|u: &crate::lint::terms::acronyms::AcronymUsageEntry| u@).len() == after@.len());
            }
            let ghost prev = diagnostics@;
            if count < rule.min_usages_after_definition {
                match context.span(d.location.block, d.location.range.start..d.location.range.end) {
                    Some(span) => {
                        let g = Diagnostic {
                            rule: RuleId::Acr002,
                            severity: level,
                            message: acr002_message_of(d.acronym.as_str(), count, rule.min_usages_after_definition),
                            span,
                        };
                        diagnostics.push(g);
                        proof {
                            crate::order::lemma_views_push(prev, g);
                        }
                    },
                    None => {},
                }
            }
            proof {
                assert(views(diagnostics@) =~= acr002_findings(
                    doc,
                    us,
                    fv,
                    rule.min_usages_after_definition,
                    level,
                    k + 1,
                ));
            }
            k = k + 1;
        }
        diagnostics
    }
}

impl Rule for Acr002 {
    fn id(&self) -> (r: RuleId)
        ensures
            r == RuleId::Acr002,
    {
        RuleId::Acr002
    }

    fn check(&self, context: &LintContext) -> (r: Vec<Diagnostic>)
        ensures
            context.spec_config().rules.acr002.level == Level::Off ==> r@.len() == 0,
            context.spec_config().rules.acr002.level != Level::Off ==> views(r@) == acr002_findings(
                context.spec_document(),
                context.spec_registry().spec_usages(),
                context.spec_registry().spec_first_definitions(),
                context.spec_config().rules.acr002.min_usages_after_definition,
                context.spec_config().rules.acr002.level,
                context.spec_registry().spec_first_definitions().len() as int,
            ),
    {
        self.findings(context)
    }
}

/// `a` is read strictly before `b`: in an earlier block, or earlier in the same block.
pub open spec fn read_before(a: crate::latex::span::LocatedRange, b: crate::latex::span::LocatedRange) -> bool {
    a.block < b.block || (a.block == b.block && a.range.start < b.range.start)
}

/// ACR001 reports a use that is not itself part of a definition, is long
/// enough and not ignored, exactly when it is read before every definition
/// of its acronym in the document (in particular when there is none): a use
/// earlier in the same paragraph as the definition is reported, one after
/// any definition is not.
pub proof fn lemma_reported_before_every_definition(
    u: UsageEntryView,
    defs: Seq<DefinitionEntryView>,
    min_length: usize,
    ignore: Seq<Seq<char>>,
)
    ensures
        used_before_definition(u, spec_first_definitions(defs), min_length, ignore) <==> {
            &&& !u.is_definition
            &&& byte_len(u.acronym) >= min_length
            &&& !ignored(ignore, u.acronym)
            &&& forall|k: int|
                0 <= k < defs.len() && (#[trigger] defs[k]).acronym == u.acronym ==> read_before(
                    u.location,
                    defs[k].location,
                )
        },
{
    lemma_first_definition_is_earliest(defs, u.acronym);
    match find_definition(spec_first_definitions(defs), u.acronym) {
        Some(e) => {
            let j = choose|j: int| 0 <= j < defs.len() && defs[j] == e;
            assert(defs[j].acronym == u.acronym);
        },
        None => {},
    }
}

/// A use before the first definition of its acronym, in the same block
/// and at a smaller byte offset, or in an earlier block, is reported.
pub proof fn lemma_use_before_first_definition_is_reported(
    u: UsageEntryView,
    firsts: Seq<DefinitionEntryView>,
    min_length: usize,
    ignore: Seq<Seq<char>>,
)
    requires
        !u.is_definition,
        byte_len(u.acronym) >= min_length,
        !ignored(ignore, u.acronym),
        find_definition(firsts, u.acronym) matches Some(d) && read_before(u.location, d.location),
    ensures
        used_before_definition(u, firsts, min_length, ignore),
{
}

/// ACR002 counts, for a definition, the uses of its acronym that are not
/// themselves definitions and are read strictly after it: none among no
/// uses, and one more for each further such use.
pub proof fn lemma_uses_after_counts(us: Seq<UsageEntryView>, u: UsageEntryView, d: DefinitionEntryView)
    ensures
        uses_after(Seq::empty(), d) == 0,
        uses_after(us.push(u), d) == uses_after(us, d) + if !u.is_definition && u.acronym == d.acronym && read_before(
            d.location,
            u.location,
        ) {
            1int
        } else {
            0int
        },
{
    reveal_with_fuel(Seq::filter, 1);
    let pred = |x: UsageEntryView|
        !x.is_definition && x.acronym == d.acronym && position_lt(d.location.spec_position(), x.location.spec_position());
    assert(us.push(u).drop_last() =~= us);
    assert(Seq::<UsageEntryView>::empty().filter(pred) =~= Seq::<UsageEntryView>::empty());
}

/// ACR002 reports the first definition of an acronym exactly when fewer
/// than `minimum` uses follow it (and it can be located), saying how many
/// do; a definition followed by `minimum` uses or more is never reported.
pub proof fn lemma_acr002_threshold(
    doc: Document,
    us: Seq<UsageEntryView>,
    firsts: Seq<DefinitionEntryView>,
    minimum: usize,
    level: Level,
    k: int,
)
    requires
        0 < k <= firsts.len(),
    ensures
        ({
            let d = firsts[k - 1];
            let before = acr002_findings(doc, us, firsts, minimum, level, k - 1);
            let now = acr002_findings(doc, us, firsts, minimum, level, k);
            let located = block_span(doc, d.location.block, d.location.range.start as int, d.location.range.end as int);
            &&& uses_after(us, d) >= minimum ==> now == before
            &&& located is None ==> now == before
            &&& uses_after(us, d) < minimum && located is Some ==> now.len() == before.len() + 1
                && now.last().rule == RuleId::Acr002 && now.last().span == located->0 && now.last().message
                == "acronym `"@ + d.acronym + "` has "@ + decimal(uses_after(us, d)) + (if uses_after(us, d) == 1 {
                " use"@
            } else {
                " uses"@
            }) + " after its definition; minimum is "@ + decimal(minimum as nat)
        }),
{
}

} // verus!
