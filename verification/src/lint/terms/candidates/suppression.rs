//! Surfaces that never become candidates: declared acronyms and their full
//! forms, and anything the lexicon already knows.
use crate::lint::terms::acronyms::{AcronymDefinitionEntry, DefinitionEntryView};
use crate::order::views;
use crate::text::lexicon::{spec_lookup, Lexicon};
use crate::text::unicode::str_eq;
use vstd::prelude::*;

verus! {

/// Some declaration names the surface as its acronym or one of its full forms.
pub open spec fn declared(decls: Seq<DefinitionEntryView>, surface: Seq<char>) -> bool {
    exists|i: int|
        0 <= i < decls.len() && ((#[trigger] decls[i]).acronym == surface || decls[i].chinese == Some(surface)
            || decls[i].english == Some(surface))
}

/// A surface is suppressed when it is declared or the lexicon resolves it.
pub open spec fn suppressed(decls: Seq<DefinitionEntryView>, lexicon: Lexicon, surface: Seq<char>) -> bool {
    declared(decls, surface) || spec_lookup(lexicon@, surface) is Some
}

fn same_text(o: &Option<String>, surface: &str) -> (r: bool)
    ensures
        r == (crate::text::terminology::opt_text(*o) == Some(surface@)),
{
    match o {
        Some(t) => str_eq(t.as_str(), surface),
        None => false,
    }
}

/// Whether a surface is suppressed for these declarations and lexicon.
pub fn is_suppressed(decls: &Vec<AcronymDefinitionEntry>, lexicon: &Lexicon, surface: &str) -> (r: bool)
    ensures
        r == suppressed(views(decls@), *lexicon, surface@),
{
    let ghost dv = views(decls@);
    let mut i: usize = 0;
    while i < decls.len()
        invariant
            i <= decls@.len(),
            dv == views(decls@),
            forall|k: int|
                0 <= k < i ==> !((#[trigger] dv[k]).acronym == surface@ || dv[k].chinese == Some(surface@)
                    || dv[k].english == Some(surface@)),
        decreases decls@.len() - i,
    {
        let d = &decls[i];
        assert(dv[i as int] == d@);
        if str_eq(d.acronym.as_str(), surface) || same_text(&d.chinese, surface) || same_text(&d.english, surface) {
            return true;
        }
        i = i + 1;
    }
    lexicon.lookup(surface).is_some()
}

} // verus!
