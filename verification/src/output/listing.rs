//! The order in which diagnostics are reported.
use super::path::{display_path, spec_display_path};
use crate::lint::diagnostic::{Diagnostic, DiagnosticView};
use crate::order::{
    lemma_text_irreflexive, lemma_text_total, lemma_text_trans, stable_sort, stable_sorted, text_less, text_lt, views,
    Order,
};
use vstd::prelude::*;

verus! {

/// Report order: by displayed path, start, end, rule name, then message.
pub open spec fn report_le(a: (Seq<char>, DiagnosticView), b: (Seq<char>, DiagnosticView)) -> bool {
    text_lt(a.0, b.0) || (a.0 == b.0 && (a.1.span.start < b.1.span.start || (a.1.span.start == b.1.span.start && (
    a.1.span.end < b.1.span.end || (a.1.span.end == b.1.span.end && (text_lt(a.1.rule.spec_name(), b.1.rule.spec_name())
        || (a.1.rule.spec_name() == b.1.rule.spec_name() && (text_lt(a.1.message, b.1.message) || a.1.message
        == b.1.message))))))))
}

/// Diagnostics keyed by their displayed path, in report order.
pub struct ReportOrder;

proof fn lemma_text_facts(a: Seq<char>, b: Seq<char>)
    ensures
        text_lt(a, b) || text_lt(b, a) || a == b,
        !(text_lt(a, b) && text_lt(b, a)),
        !text_lt(a, a),
{
    lemma_text_total(a, b);
    lemma_text_irreflexive(a);
    if text_lt(a, b) && text_lt(b, a) {
        lemma_text_trans(a, b, a);
    }
}

impl Order<(String, Diagnostic)> for ReportOrder {
    open spec fn ordered(a: (Seq<char>, DiagnosticView), b: (Seq<char>, DiagnosticView)) -> bool {
        report_le(a, b)
    }

    fn le(a: &(String, Diagnostic), b: &(String, Diagnostic)) -> (r: bool) {
        proof {
            lemma_text_facts(a.0@, b.0@);
            lemma_text_facts(a.1.rule.spec_name(), b.1.rule.spec_name());
            lemma_text_facts(a.1.message@, b.1.message@);
        }
        if text_less(a.0.as_str(), b.0.as_str()) {
            return true;
        }
        if text_less(b.0.as_str(), a.0.as_str()) {
            return false;
        }
        if a.1.span.start != b.1.span.start {
            return a.1.span.start < b.1.span.start;
        }
        if a.1.span.end != b.1.span.end {
            return a.1.span.end < b.1.span.end;
        }
        if text_less(a.1.rule.as_str(), b.1.rule.as_str()) {
            return true;
        }
        if text_less(b.1.rule.as_str(), a.1.rule.as_str()) {
            return false;
        }
        !text_less(b.1.message.as_str(), a.1.message.as_str())
    }

    proof fn lemma_total(a: (Seq<char>, DiagnosticView), b: (Seq<char>, DiagnosticView)) {
        lemma_text_facts(a.0, b.0);
        lemma_text_facts(a.1.rule.spec_name(), b.1.rule.spec_name());
        lemma_text_facts(a.1.message, b.1.message);
    }

    proof fn lemma_trans(a: (Seq<char>, DiagnosticView), b: (Seq<char>, DiagnosticView), c: (Seq<char>, DiagnosticView)) {
        lemma_text_facts(a.0, b.0);
        lemma_text_facts(b.0, c.0);
        lemma_text_facts(a.0, c.0);
        if text_lt(a.0, b.0) && text_lt(b.0, c.0) {
            lemma_text_trans(a.0, b.0, c.0);
        }
        let (ra, rb, rc) = (a.1.rule.spec_name(), b.1.rule.spec_name(), c.1.rule.spec_name());
        if text_lt(ra, rb) && text_lt(rb, rc) {
            lemma_text_trans(ra, rb, rc);
        }
        let (ma, mb, mc) = (a.1.message, b.1.message, c.1.message);
        if text_lt(ma, mb) && text_lt(mb, mc) {
            lemma_text_trans(ma, mb, mc);
        }
    }
}

/// Each diagnostic keyed by its path as displayed against the root.
pub open spec fn keyed(ds: Seq<DiagnosticView>, root: Seq<char>) -> Seq<(Seq<char>, DiagnosticView)> {
    ds.map_values(|d: DiagnosticView| (spec_display_path(d.span.file@, root), d))
}

/// The diagnostics in report order, equal ones keeping their order.
pub fn sort_diagnostics(diagnostics: Vec<Diagnostic>, root: &str) -> (r: Vec<Diagnostic>)
    ensures
        keyed(views(r@), root@) == stable_sorted::<(String, Diagnostic), ReportOrder>(
            keyed(views(diagnostics@), root@),
        ),
{
    let ghost dv = views(diagnostics@);
    let mut pairs: Vec<(String, Diagnostic)> = Vec::new();
    let mut input = diagnostics;
    let n = input.len();
    let mut done: usize = 0;
    assert(views(input@) =~= dv.skip(0));
    while input.len() > 0
        invariant
            done + input@.len() == n,
            n == dv.len(),
            views(input@) == dv.skip(done as int),
            views(pairs@) == keyed(dv.take(done as int), root@),
        decreases input@.len(),
    {
        let ghost old_input = input@;
        let d = input.remove(0);
        proof {
            assert(input@ =~= old_input.subrange(1, old_input.len() as int));
            assert(views(old_input)[0] == dv[done as int]);
            assert forall|k: int| 0 <= k < input@.len() implies views(input@)[k] == dv.skip(done + 1)[k] by {
                assert(views(old_input)[k + 1] == dv.skip(done as int)[k + 1]);
            }
            assert(views(input@) =~= dv.skip(done + 1));
        }
        let key = display_path(d.span.file.as_str(), root);
        let ghost before = pairs@;
        let pair = (key, d);
        pairs.push(pair);
        proof {
            crate::order::lemma_views_push(before, pair);
            assert(keyed(dv.take(done + 1), root@) =~= keyed(dv.take(done as int), root@).push(
                (spec_display_path(dv[done as int].span.file@, root@), dv[done as int]),
            ));
        }
        done = done + 1;
    }
    assert(dv.take(done as int) =~= dv);
    let sorted = stable_sort::<(String, Diagnostic), ReportOrder>(pairs);
    let ghost sv = views(sorted@);
    let mut out: Vec<Diagnostic> = Vec::new();
    let mut rest = sorted;
    let m = rest.len();
    let mut k: usize = 0;
    assert(views(rest@) =~= sv.skip(0));
    proof {
        lemma_sorted_keys(keyed(dv, root@), root@);
    }
    while rest.len() > 0
        invariant
            k + rest@.len() == m,
            m == sv.len(),
            views(rest@) == sv.skip(k as int),
            forall|j: int| 0 <= j < sv.len() ==> (#[trigger] sv[j]).0 == spec_display_path(sv[j].1.span.file@, root@),
            keyed(views(out@), root@) == sv.take(k as int),
        decreases rest@.len(),
    {
        let ghost old_rest = rest@;
        let pair = rest.remove(0);
        assert(pair == old_rest[0]);
        let (_, d) = pair;
        proof {
            assert(rest@ =~= old_rest.subrange(1, old_rest.len() as int));
            assert(views(old_rest)[0] == sv[k as int]);
            assert forall|j: int| 0 <= j < rest@.len() implies views(rest@)[j] == sv.skip(k + 1)[j] by {
                assert(views(old_rest)[j + 1] == sv.skip(k as int)[j + 1]);
            }
            assert(views(rest@) =~= sv.skip(k + 1));
        }
        let ghost before = out@;
        proof {
            assert(sv[k as int] == (old_rest[0].0@, old_rest[0].1@));
            assert(sv[k as int].1 == d@);
        }
        out.push(d);
        proof {
            assert(views(out@) =~= views(before).push(d@));
            let entry = (spec_display_path(d@.span.file@, root@), d@);
            assert(sv[k as int] == entry);
            assert(keyed(views(before).push(d@), root@) =~= keyed(views(before), root@).push(entry));
            assert(sv.take(k + 1) =~= sv.take(k as int).push(sv[k as int]));
            assert(keyed(views(out@), root@) =~= sv.take(k + 1));
        }
        k = k + 1;
    }
    assert(sv.take(k as int) =~= sv);
    out
}

/// Sorting keeps every key the displayed path of its diagnostic.
proof fn lemma_sorted_keys(items: Seq<(Seq<char>, DiagnosticView)>, root: Seq<char>)
    requires
        forall|j: int| 0 <= j < items.len() ==> (#[trigger] items[j]).0 == spec_display_path(items[j].1.span.file@, root),
    ensures
        forall|j: int|
            0 <= j < stable_sorted::<(String, Diagnostic), ReportOrder>(items).len() ==> (#[trigger] stable_sorted::<
                (String, Diagnostic),
                ReportOrder,
            >(items)[j]).0 == spec_display_path(
                stable_sorted::<(String, Diagnostic), ReportOrder>(items)[j].1.span.file@,
                root,
            ),
{
    let sorted = stable_sorted::<(String, Diagnostic), ReportOrder>(items);
    crate::order::lemma_stable_sorted_permutes::<(String, Diagnostic), ReportOrder>(items);
    assert forall|j: int| 0 <= j < sorted.len() implies (#[trigger] sorted[j]).0 == spec_display_path(
        sorted[j].1.span.file@,
        root,
    ) by {
        vstd::seq_lib::to_multiset_contains(sorted, sorted[j]);
        vstd::seq_lib::to_multiset_contains(items, sorted[j]);
        assert(sorted.contains(sorted[j]));
    }
}

} // verus!
