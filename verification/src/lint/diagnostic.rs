//! A finding of a rule, located in a source file.
use crate::config::Level;
use crate::latex::span::Span;
use crate::order::Order;
use crate::output::path::{lemma_path_irreflexive, lemma_path_total, lemma_path_trans, path_less, path_lt, same_path};
use crate::rule_id::RuleId;
use vstd::prelude::*;

verus! {

/// A rule's finding: which rule, how severe, what it says, and where.
#[derive(Debug, PartialEq, Eq)]
pub struct Diagnostic {
    pub rule: RuleId,
    pub severity: Level,
    pub message: String,
    pub span: Span,
}

/// The value of a diagnostic.
pub struct DiagnosticView {
    pub rule: RuleId,
    pub severity: Level,
    pub message: Seq<char>,
    pub span: Span,
}

impl View for Diagnostic {
    type V = DiagnosticView;

    open spec fn view(&self) -> DiagnosticView {
        DiagnosticView { rule: self.rule, severity: self.severity, message: self.message@, span: self.span }
    }
}

impl Clone for Diagnostic {
    fn clone(&self) -> (r: Self)
        ensures
            r@ == self@,
    {
        Diagnostic { rule: self.rule, severity: self.severity, message: self.message.clone(), span: self.span.copy() }
    }
}

/// Diagnostics ordered by file (component by component, as paths compare),
/// then start, then end.
pub struct SpanOrder;

pub open spec fn span_le(a: Span, b: Span) -> bool {
    path_lt(a.file@, b.file@) || (same_path(a.file@, b.file@) && (a.start < b.start || (a.start
        == b.start && a.end <= b.end)))
}

impl Order<Diagnostic> for SpanOrder {
    open spec fn ordered(a: DiagnosticView, b: DiagnosticView) -> bool {
        span_le(a.span, b.span)
    }

    fn le(a: &Diagnostic, b: &Diagnostic) -> (r: bool) {
        proof {
            lemma_path_total(a.span.file@, b.span.file@);
            lemma_path_irreflexive(a.span.file@);
        }
        if path_less(a.span.file.as_str(), b.span.file.as_str()) {
            true
        } else if path_less(b.span.file.as_str(), a.span.file.as_str()) {
            false
        } else {
            a.span.start < b.span.start || (a.span.start == b.span.start && a.span.end <= b.span.end)
        }
    }

    proof fn lemma_total(a: DiagnosticView, b: DiagnosticView) {
        lemma_path_total(a.span.file@, b.span.file@);
    }

    proof fn lemma_trans(a: DiagnosticView, b: DiagnosticView, c: DiagnosticView) {
        if path_lt(a.span.file@, b.span.file@) && path_lt(b.span.file@, c.span.file@) {
            lemma_path_trans(a.span.file@, b.span.file@, c.span.file@);
        }
    }
}

} // verus!
