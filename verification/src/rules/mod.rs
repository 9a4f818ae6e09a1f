//! The lint rules.
pub mod acronyms;
pub mod case001;
pub mod punc002;
pub mod style001;
pub mod term001;
pub mod term002;

pub use acronyms::{Acr001, Acr002};
pub use case001::Case001;
pub use punc002::Punc002;
pub use style001::Style001;
pub use term001::Term001;
pub use term002::Term002;

use crate::lint::context::LintContext;
use crate::lint::diagnostic::Diagnostic;
use crate::rule_id::RuleId;
use vstd::prelude::*;

verus! {

/// A lint rule: its identifier, and the diagnostics it finds in a context.
pub trait Rule {
    fn id(&self) -> RuleId;

    fn check(&self, context: &LintContext) -> Vec<Diagnostic>
        requires
            context.well_formed(),
    ;
}

/// The decimal digits of `n`.
pub open spec fn decimal(n: nat) -> Seq<char>
    decreases n,
{
    if n < 10 {
        seq![digit_char(n)]
    } else {
        decimal(n / 10) + seq![digit_char(n % 10)]
    }
}

pub open spec fn digit_char(d: nat) -> char {
    if d == 0 { '0' } else if d == 1 { '1' } else if d == 2 { '2' } else if d == 3 { '3' } else if d == 4 { '4' } else if d == 5 { '5' } else if d == 6 { '6' } else if d == 7 { '7' } else if d == 8 { '8' } else { '9' }
}

fn digit(d: usize) -> (c: char)
    requires
        d < 10,
    ensures
        c == digit_char(d as nat),
{
    if d == 0 { '0' } else if d == 1 { '1' } else if d == 2 { '2' } else if d == 3 { '3' } else if d == 4 { '4' } else if d == 5 { '5' } else if d == 6 { '6' } else if d == 7 { '7' } else if d == 8 { '8' } else { '9' }
}

/// `n` written in decimal.
pub fn decimal_string(n: usize) -> (s: String)
    ensures
        s@ == decimal(n as nat),
    decreases n,
{
    if n < 10 {
        let mut s = String::new();
        crate::text::unicode::push_char(&mut s, digit(n));
        assert(s@ =~= seq![digit_char(n as nat)]);
        s
    } else {
        let mut s = decimal_string(n / 10);
        let ghost before = s@;
        crate::text::unicode::push_char(&mut s, digit(n % 10));
        assert(s@ =~= before + seq![digit_char((n % 10) as nat)]);
        s
    }
}

/// The concatenation of the pieces.
pub fn concat(pieces: &[&str]) -> (s: String)
    ensures
        s@ == joined_pieces(pieces@.map_values(|p: &str| p@)),
{
    let ghost ps = pieces@.map_values(|p: &str| p@);
    let mut s = String::new();
    let mut i: usize = 0;
    while i < pieces.len()
        invariant
            i <= pieces@.len(),
            ps == pieces@.map_values(|p: &str| p@),
            s@ == joined_pieces(ps.take(i as int)),
        decreases pieces@.len() - i,
    {
        s.append(pieces[i]);
        assert(ps.take(i + 1).drop_last() =~= ps.take(i as int));
        i = i + 1;
    }
    assert(ps.take(i as int) =~= ps);
    s
}

/// The pieces one after the other.
pub open spec fn joined_pieces(ps: Seq<Seq<char>>) -> Seq<char>
    decreases ps.len(),
{
    if ps.len() == 0 {
        Seq::empty()
    } else {
        joined_pieces(ps.drop_last()) + ps.last()
    }
}

} // verus!
