//! Plain one-line-per-diagnostic output.
use crate::config::Level;
use crate::lint::diagnostic::{Diagnostic, DiagnosticView};
use crate::order::views;
use crate::rules::{concat, joined_pieces};
use vstd::prelude::*;

verus! {

/// The word for a severity.
pub open spec fn severity_text(level: Level) -> Seq<char> {
    match level {
        Level::Off => "off"@,
        Level::Warning => "warning"@,
        Level::Error => "error"@,
    }
}

fn severity_label(level: Level) -> (s: &'static str)
    ensures
        s@ == severity_text(level),
{
    match level {
        Level::Off => "off",
        Level::Warning => "warning",
        Level::Error => "error",
    }
}

/// `severity[RULE]: message` and a line break.
pub open spec fn diagnostic_line(d: DiagnosticView) -> Seq<char> {
    severity_text(d.severity) + "["@ + d.rule.spec_name() + "]: "@ + d.message + "\n"@
}

/// The lines of the diagnostics, in order.
pub open spec fn rendered(ds: Seq<DiagnosticView>) -> Seq<char>
    decreases ds.len(),
{
    if ds.len() == 0 {
        Seq::empty()
    } else {
        rendered(ds.drop_last()) + diagnostic_line(ds.last())
    }
}

/// One line per diagnostic: severity, rule and message.
pub fn render(diagnostics: &[Diagnostic]) -> (out: String)
    ensures
        out@ == rendered(views(diagnostics@)),
{
    let ghost dv = views(diagnostics@);
    let mut out = String::new();
    let mut i: usize = 0;
    while i < diagnostics.len()
        invariant
            i <= diagnostics@.len(),
            dv == views(diagnostics@),
            out@ == rendered(dv.take(i as int)),
        decreases diagnostics@.len() - i,
    {
        let d = &diagnostics[i];
        let pieces: [&str; 6] = [severity_label(d.severity), "[", d.rule.as_str(), "]: ", d.message.as_str(), "\n"];
        let line = concat(&pieces);
        proof {
            reveal_strlit("[");
            reveal_strlit("]: ");
            reveal_strlit("\n");
            let ps = pieces@.map_values(|p: &str| p@);
            reveal_with_fuel(joined_pieces, 7);
            assert(ps.drop_last().drop_last().drop_last().drop_last().drop_last().drop_last() =~= Seq::<Seq<char>>::empty());
            assert(line@ =~= diagnostic_line(d@));
            assert(dv.take(i + 1).drop_last() =~= dv.take(i as int));
            assert(dv.take(i + 1).last() == d@);
        }
        out.append(line.as_str());
        i = i + 1;
    }
    assert(dv.take(i as int) =~= dv);
    out
}

} // verus!
