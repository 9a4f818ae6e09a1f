//! CASE001: canonical casing for known acronyms, proper nouns, and units.
//!
//! The rule walks every block's logical text as `[A-Za-z][A-Za-z0-9]*`
//! tokens and reports a token only when it is a case variant of a canonical
//! form owned by the shared lexicon or by a document acronym definition.
//! Unknown mixed-case words stay silent, and fully lowercase variants of
//! all-uppercase canonicals stay silent so ordinary words that merely share
//! letters (e.g. `rag` vs `RAG`) are never flagged.
use super::{concat, joined_pieces, Rule};
use crate::config::Level;
use crate::latex::parser::Document;
use crate::lint::context::{block_span, LintContext};
use crate::lint::diagnostic::{Diagnostic, DiagnosticView};
use crate::lint::terms::acronyms::{AcronymDefinitionEntry, DefinitionEntryView};
use crate::order::views;
use crate::rule_id::RuleId;
use crate::text::lexicon::{fold, fold_str, LexemeKind, LexemeView, Lexicon};
use crate::text::runs::{char_runs, class_runs, lemma_class_runs_bounds, CharClass};
use crate::text::unicode::{
    byte_offsets, byte_pos, chars_of, is_ascii_alnum, is_ascii_alpha, is_ascii_lower, is_ascii_upper, str_eq,
    string_of,
};
use vstd::prelude::*;

verus! {

pub struct Case001;

/// One ASCII letter followed by ASCII letters and digits.
pub open spec fn is_ascii_token(s: Seq<char>) -> bool {
    s.len() > 0 && is_ascii_alpha(s[0]) && forall|i: int| 1 <= i < s.len() ==> is_ascii_alnum(#[trigger] s[i])
}

pub open spec fn has_upper(s: Seq<char>) -> bool {
    exists|i: int| 0 <= i < s.len() && is_ascii_upper(#[trigger] s[i])
}

pub open spec fn has_lower(s: Seq<char>) -> bool {
    exists|i: int| 0 <= i < s.len() && is_ascii_lower(#[trigger] s[i])
}

/// Lexemes whose canonical casing the rule enforces: inherently
/// case-sensitive kinds, case sensitive, with a single ASCII token
/// canonical that carries an uppercase letter.
pub open spec fn case_eligible(l: LexemeView) -> bool {
    &&& (l.kind == LexemeKind::Acronym || l.kind == LexemeKind::ProperNoun || l.kind == LexemeKind::Unit
        || l.kind == LexemeKind::Symbol)
    &&& l.case_sensitive
    &&& is_ascii_token(l.canonical)
    &&& has_upper(l.canonical)
}

/// Whether `surface` is a reportable case variant of `canonical`:
/// mixed-case canonicals own every other casing of their letters, and
/// all-uppercase canonicals report only mixed-case surfaces.
pub open spec fn variant_reports(canonical: Seq<char>, surface: Seq<char>) -> bool {
    if surface == canonical {
        false
    } else if has_upper(canonical) && has_lower(canonical) {
        true
    } else if has_upper(canonical) {
        has_upper(surface) && has_lower(surface)
    } else {
        false
    }
}

/// The canonical form of the first eligible lexeme with these folded letters.
pub open spec fn letters_owner(ls: Seq<LexemeView>, key: Seq<char>) -> Option<Seq<char>>
    decreases ls.len(),
{
    if ls.len() == 0 {
        None
    } else if case_eligible(ls[0]) && fold(ls[0].canonical) == key {
        Some(ls[0].canonical)
    } else {
        letters_owner(ls.drop_first(), key)
    }
}

/// The first defined acronym equal to the surface up to ASCII case.
pub open spec fn defined_alike(defs: Seq<DefinitionEntryView>, surface: Seq<char>) -> Option<Seq<char>>
    decreases defs.len(),
{
    if defs.len() == 0 {
        None
    } else if fold(defs[0].acronym) == fold(surface) {
        Some(defs[0].acronym)
    } else {
        defined_alike(defs.drop_first(), surface)
    }
}

/// The canonical form a token should take, when it is a reportable variant.
pub open spec fn canonical_for(ls: Seq<LexemeView>, defs: Seq<DefinitionEntryView>, surface: Seq<char>) -> Option<Seq<char>> {
    match letters_owner(ls, fold(surface)) {
        Some(c) if variant_reports(c, surface) => Some(c),
        _ => match defined_alike(defs, surface) {
            Some(a) if variant_reports(a, surface) => Some(a),
            _ => None,
        },
    }
}

/// The first ASCII letter in `a..b`, or `b`.
pub open spec fn first_letter(s: Seq<char>, a: int, b: int) -> int
    decreases b - a,
{
    if a >= b {
        b
    } else if is_ascii_alpha(s[a]) {
        a
    } else {
        first_letter(s, a + 1, b)
    }
}

/// The tokens of the first `k` ASCII letter-and-digit runs: each run from
/// its first letter to its end, runs without a letter skipped.
pub open spec fn tokens_upto(s: Seq<char>, runs: Seq<(int, int)>, k: int) -> Seq<(int, int)>
    decreases k,
{
    if k <= 0 {
        Seq::empty()
    } else {
        let r = runs[k - 1];
        let f = first_letter(s, r.0, r.1);
        tokens_upto(s, runs, k - 1) + if f < r.1 {
            seq![(f, r.1)]
        } else {
            Seq::empty()
        }
    }
}

/// The `[A-Za-z][A-Za-z0-9]*` tokens of a text, as character ranges, in order.
pub open spec fn ascii_tokens(s: Seq<char>) -> Seq<(int, int)> {
    tokens_upto(s, class_runs(s, CharClass::AsciiAlnum), class_runs(s, CharClass::AsciiAlnum).len() as int)
}

/// The message for a surface that should read `canonical`.
pub open spec fn case_message(canonical: Seq<char>, surface: Seq<char>) -> Seq<char> {
    "use `"@ + canonical + "` instead of `"@ + surface + "`"@
}

/// The findings among the first `k` tokens of block `b`.
pub open spec fn block_findings(
    doc: Document,
    ls: Seq<LexemeView>,
    defs: Seq<DefinitionEntryView>,
    level: Level,
    b: int,
    k: int,
) -> Seq<DiagnosticView>
    decreases k,
{
    if k <= 0 {
        Seq::empty()
    } else {
        let s = doc.blocks@[b].text@;
        let t = ascii_tokens(s)[k - 1];
        let surface = s.subrange(t.0, t.1);
        block_findings(doc, ls, defs, level, b, k - 1) + match canonical_for(ls, defs, surface) {
            Some(c) => match block_span(doc, b as usize, byte_pos(s, t.0) as int, byte_pos(s, t.1) as int) {
                Some(span) => seq![
                    DiagnosticView { rule: RuleId::Case001, severity: level, message: case_message(c, surface), span },
                ],
                None => Seq::empty(),
            },
            None => Seq::empty(),
        }
    }
}

/// The findings of the first `n` blocks.
pub open spec fn case_findings(
    doc: Document,
    ls: Seq<LexemeView>,
    defs: Seq<DefinitionEntryView>,
    level: Level,
    n: int,
) -> Seq<DiagnosticView>
    decreases n,
{
    if n <= 0 {
        Seq::empty()
    } else {
        case_findings(doc, ls, defs, level, n - 1) + block_findings(
            doc,
            ls,
            defs,
            level,
            n - 1,
            ascii_tokens(doc.blocks@[n - 1].text@).len() as int,
        )
    }
}

fn any_upper(s: &Vec<char>) -> (r: bool)
    ensures
        r == has_upper(s@),
{
    let mut i: usize = 0;
    while i < s.len()
        invariant
            i <= s@.len(),
            forall|k: int| 0 <= k < i ==> !is_ascii_upper(#[trigger] s@[k]),
        decreases s@.len() - i,
    {
        if is_ascii_upper(s[i]) {
            return true;
        }
        i = i + 1;
    }
    false
}

fn any_lower(s: &Vec<char>) -> (r: bool)
    ensures
        r == has_lower(s@),
{
    let mut i: usize = 0;
    while i < s.len()
        invariant
            i <= s@.len(),
            forall|k: int| 0 <= k < i ==> !is_ascii_lower(#[trigger] s@[k]),
        decreases s@.len() - i,
    {
        if is_ascii_lower(s[i]) {
            return true;
        }
        i = i + 1;
    }
    false
}

fn ascii_token(s: &Vec<char>) -> (r: bool)
    ensures
        r == is_ascii_token(s@),
{
    if s.len() == 0 || !is_ascii_alpha(s[0]) {
        return false;
    }
    let mut i: usize = 1;
    while i < s.len()
        invariant
            1 <= i <= s@.len(),
            forall|k: int| 1 <= k < i ==> is_ascii_alnum(#[trigger] s@[k]),
        decreases s@.len() - i,
    {
        if !is_ascii_alnum(s[i]) {
            return false;
        }
        i = i + 1;
    }
    true
}

fn reports(canonical: &str, surface: &str) -> (r: bool)
    ensures
        r == variant_reports(canonical@, surface@),
{
    if str_eq(surface, canonical) {
        return false;
    }
    let c = chars_of(canonical);
    let s = chars_of(surface);
    if any_upper(&c) && any_lower(&c) {
        true
    } else if any_upper(&c) {
        any_upper(&s) && any_lower(&s)
    } else {
        false
    }
}

fn eligible(l: &crate::text::lexicon::Lexeme) -> (r: bool)
    ensures
        r == case_eligible(l@),
{
    let kind_ok = match l.kind {
        LexemeKind::Acronym | LexemeKind::ProperNoun | LexemeKind::Unit | LexemeKind::Symbol => true,
        _ => false,
    };
    if !kind_ok || !l.case_sensitive {
        return false;
    }
    let c = chars_of(l.canonical.as_str());
    ascii_token(&c) && any_upper(&c)
}

/// The rule reports `surface` against some lexicon canonical with the same
/// letters, so TERM001 leaves a replacement of it to this rule.
pub open spec fn case_covered(ls: Seq<LexemeView>, surface: Seq<char>) -> bool {
    is_ascii_token(surface) && exists|i: int|
        0 <= i < ls.len() && case_eligible(#[trigger] ls[i]) && fold(ls[i].canonical) == fold(surface)
            && variant_reports(ls[i].canonical, surface)
}

/// Whether the rule would report `surface` against a lexicon canonical
/// with the same letters.
pub fn lexicon_case_covered(lexicon: &Lexicon, surface: &str) -> (r: bool)
    ensures
        r == case_covered(lexicon@, surface@),
{
    let sc = chars_of(surface);
    if !ascii_token(&sc) {
        return false;
    }
    let entries = lexicon.entries();
    let folded = fold_str(surface);
    let ghost ls = lexicon@;
    let mut i: usize = 0;
    while i < entries.len()
        invariant
            i <= entries@.len(),
            views(entries@) == ls,
            ls == lexicon@,
            is_ascii_token(surface@),
            folded@ == fold(surface@),
            forall|k: int|
                0 <= k < i ==> !(case_eligible(#[trigger] ls[k]) && fold(ls[k].canonical) == fold(surface@)
                    && variant_reports(ls[k].canonical, surface@)),
        decreases entries@.len() - i,
    {
        let l = &entries[i];
        assert(ls[i as int] == l@);
        if eligible(l) {
            let lf = fold_str(l.canonical.as_str());
            if str_eq(lf.as_str(), folded.as_str()) && reports(l.canonical.as_str(), surface) {
                assert(case_eligible(lexicon@[i as int]) && fold(lexicon@[i as int].canonical) == fold(surface@)
                    && variant_reports(lexicon@[i as int].canonical, surface@));
                return true;
            }
        }
        i = i + 1;
    }
    false
}

/// The canonical forms of the eligible lexemes, keyed by folded letters,
/// the first lexeme winning.
fn eligible_canonicals(lexicon: &Lexicon) -> (r: Vec<(String, String)>)
    ensures
        forall|key: Seq<char>| #[trigger] owner_of(r@, key) == letters_owner(lexicon@, key),
{
    let entries = lexicon.entries();
    let ghost ls = lexicon@;
    let mut out: Vec<(String, String)> = Vec::new();
    let mut i: usize = 0;
    while i < entries.len()
        invariant
            i <= entries@.len(),
            views(entries@) == ls,
            forall|key: Seq<char>| #[trigger] owner_of(out@, key) == letters_owner(ls.take(i as int), key),
        decreases entries@.len() - i,
    {
        let l = &entries[i];
        assert(ls[i as int] == l@);
        if eligible(l) {
            let ghost before = out@;
            out.push((fold_str(l.canonical.as_str()), l.canonical.clone()));
            proof {
                assert forall|key: Seq<char>| #[trigger] owner_of(out@, key) == letters_owner(ls.take(i + 1), key) by {
                    lemma_owner_of_push(before, out@.last(), key);
                    lemma_letters_owner_push(ls.take(i as int), ls[i as int], key);
                    assert(ls.take(i + 1) =~= ls.take(i as int).push(ls[i as int]));
                }
            }
        } else {
            proof {
                assert forall|key: Seq<char>| #[trigger] owner_of(out@, key) == letters_owner(ls.take(i + 1), key) by {
                    lemma_letters_owner_push(ls.take(i as int), ls[i as int], key);
                    assert(ls.take(i + 1) =~= ls.take(i as int).push(ls[i as int]));
                }
            }
        }
        i = i + 1;
    }
    assert(ls.take(i as int) =~= ls);
    out
}

/// The canonical form of the first pair with this key.
pub open spec fn owner_of(pairs: Seq<(String, String)>, key: Seq<char>) -> Option<Seq<char>>
    decreases pairs.len(),
{
    if pairs.len() == 0 {
        None
    } else if pairs[0].0@ == key {
        Some(pairs[0].1@)
    } else {
        owner_of(pairs.drop_first(), key)
    }
}

proof fn lemma_owner_of_push(pairs: Seq<(String, String)>, p: (String, String), key: Seq<char>)
    ensures
        owner_of(pairs.push(p), key) == match owner_of(pairs, key) {
            Some(c) => Some(c),
            None => if p.0@ == key {
                Some(p.1@)
            } else {
                None
            },
        },
    decreases pairs.len(),
{
    reveal_with_fuel(owner_of, 2);
    if pairs.len() > 0 {
        assert(pairs.push(p)[0] == pairs[0]);
        assert(pairs.push(p).drop_first() =~= pairs.drop_first().push(p));
        lemma_owner_of_push(pairs.drop_first(), p, key);
        if pairs[0].0@ != key {
            assert(owner_of(pairs.push(p), key) == owner_of(pairs.drop_first().push(p), key));
            assert(owner_of(pairs, key) == owner_of(pairs.drop_first(), key));
        }
    } else {
        assert(pairs.push(p)[0] == p);
        assert(pairs.push(p).drop_first() =~= Seq::<(String, String)>::empty());
    }
}

proof fn lemma_letters_owner_push(ls: Seq<LexemeView>, l: LexemeView, key: Seq<char>)
    ensures
        letters_owner(ls.push(l), key) == match letters_owner(ls, key) {
            Some(c) => Some(c),
            None => if case_eligible(l) && fold(l.canonical) == key {
                Some(l.canonical)
            } else {
                None
            },
        },
    decreases ls.len(),
{
    assert(ls.push(l)[0] == if ls.len() > 0 { ls[0] } else { l });
    if ls.len() > 0 {
        assert(ls.push(l).drop_first() =~= ls.drop_first().push(l));
        lemma_letters_owner_push(ls.drop_first(), l, key);
    } else {
        assert(ls.push(l).drop_first() =~= Seq::<LexemeView>::empty());
    }
}

fn find_owner<'a>(pairs: &'a Vec<(String, String)>, key: &str) -> (r: Option<&'a String>)
    ensures
        match r {
            Some(c) => owner_of(pairs@, key@) == Some(c@),
            None => owner_of(pairs@, key@) is None,
        },
{
    let mut i: usize = 0;
    assert(pairs@.skip(0) =~= pairs@);
    while i < pairs.len()
        invariant
            i <= pairs@.len(),
            owner_of(pairs@, key@) == owner_of(pairs@.skip(i as int), key@),
        decreases pairs@.len() - i,
    {
        assert(pairs@.skip(i as int)[0] == pairs@[i as int]);
        if str_eq(pairs[i].0.as_str(), key) {
            return Some(&pairs[i].1);
        }
        assert(pairs@.skip(i as int).drop_first() =~= pairs@.skip(i + 1));
        i = i + 1;
    }
    None
}

fn find_defined<'a>(defs: &'a [AcronymDefinitionEntry], folded: &str) -> (r: Option<&'a String>)
    requires
        exists|s: Seq<char>| folded@ == fold(s),
    ensures
        forall|surface: Seq<char>|
            fold(surface) == folded@ ==> match r {
                Some(a) => defined_alike(views(defs@), surface) == Some(a@),
                None => defined_alike(views(defs@), surface) is None,
            },
{
    let ghost dv = views(defs@);
    let mut i: usize = 0;
    assert(dv.skip(0) =~= dv);
    while i < defs.len()
        invariant
            i <= defs@.len(),
            dv == views(defs@),
            forall|surface: Seq<char>|
                fold(surface) == folded@ ==> defined_alike(dv, surface) == defined_alike(
                    #[trigger] dv.skip(i as int),
                    surface,
                ),
        decreases defs@.len() - i,
    {
        let a = &defs[i];
        assert(dv.skip(i as int)[0] == a@);
        let af = fold_str(a.acronym.as_str());
        if str_eq(af.as_str(), folded) {
            return Some(&a.acronym);
        }
        assert(dv.skip(i as int).drop_first() =~= dv.skip(i + 1));
        i = i + 1;
    }
    None
}

fn first_letter_in(s: &Vec<char>, a: usize, b: usize) -> (f: usize)
    requires
        a <= b <= s@.len(),
    ensures
        f == first_letter(s@, a as int, b as int),
        a <= f <= b,
{
    let mut i = a;
    while i < b && !is_ascii_alpha(s[i])
        invariant
            a <= i <= b <= s@.len(),
            first_letter(s@, a as int, b as int) == first_letter(s@, i as int, b as int),
        decreases b - i,
    {
        i = i + 1;
    }
    i
}

/// The `[A-Za-z][A-Za-z0-9]*` tokens of the characters, in order.
pub fn token_ranges(s: &Vec<char>) -> (r: Vec<(usize, usize)>)
    ensures
        r@.len() == ascii_tokens(s@).len(),
        forall|k: int|
            0 <= k < r@.len() ==> (#[trigger] r@[k]).0 == ascii_tokens(s@)[k].0 && r@[k].1 == ascii_tokens(s@)[k].1,
        forall|k: int| 0 <= k < r@.len() ==> (#[trigger] r@[k]).0 < r@[k].1 <= s@.len(),
{
    let runs = char_runs(s, CharClass::AsciiAlnum);
    let ghost rr = class_runs(s@, CharClass::AsciiAlnum);
    let mut out: Vec<(usize, usize)> = Vec::new();
    let mut k: usize = 0;
    while k < runs.len()
        invariant
            k <= runs@.len(),
            runs@.len() == rr.len(),
            rr == class_runs(s@, CharClass::AsciiAlnum),
            forall|j: int| 0 <= j < runs@.len() ==> (#[trigger] runs@[j]).0 == rr[j].0 && runs@[j].1 == rr[j].1,
            forall|j: int| 0 <= j < runs@.len() ==> (#[trigger] runs@[j]).0 < runs@[j].1 <= s@.len(),
            out@.len() == tokens_upto(s@, rr, k as int).len(),
            forall|j: int|
                0 <= j < out@.len() ==> (#[trigger] out@[j]).0 == tokens_upto(s@, rr, k as int)[j].0 && out@[j].1
                    == tokens_upto(s@, rr, k as int)[j].1,
            forall|j: int| 0 <= j < out@.len() ==> (#[trigger] out@[j]).0 < out@[j].1 <= s@.len(),
        decreases runs@.len() - k,
    {
        let (a, b) = runs[k];
        let f = first_letter_in(s, a, b);
        let ghost prev = tokens_upto(s@, rr, k as int);
        if f < b {
            out.push((f, b));
        }
        proof {
            let cur = tokens_upto(s@, rr, k + 1);
            assert forall|j: int| 0 <= j < out@.len() implies (#[trigger] out@[j]).0 == cur[j].0 && out@[j].1 == cur[j].1 by {
                if j < prev.len() {
                    assert(cur[j] == prev[j]);
                }
            }
        }
        k = k + 1;
    }
    out
}

fn case_message_of(canonical: &str, surface: &str) -> (m: String)
    ensures
        m@ == case_message(canonical@, surface@),
{
    let pieces: [&str; 5] = ["use `", canonical, "` instead of `", surface, "`"];
    let m = concat(&pieces);
    proof {
        reveal_strlit("use `");
        reveal_strlit("` instead of `");
        reveal_strlit("`");
        let ps = pieces@.map_values(|p: &str| p@);
        reveal_with_fuel(joined_pieces, 6);
        assert(ps.drop_last().drop_last().drop_last().drop_last().drop_last() =~= Seq::<Seq<char>>::empty());
        assert(joined_pieces(ps) =~= case_message(canonical@, surface@));
    }
    m
}

impl Case001 {
    /// The case variants of canonical forms in every block, in reading order.
    pub fn findings(&self, context: &LintContext) -> (r: Vec<Diagnostic>)
        requires
            context.well_formed(),
        ensures
            context.spec_config().rules.case001.level == Level::Off ==> r@.len() == 0,
            context.spec_config().rules.case001.level != Level::Off ==> views(r@) == case_findings(
                context.spec_document(),
                context.spec_lexicon()@,
                context.spec_registry().spec_definitions(),
                context.spec_config().rules.case001.level,
                context.spec_document().blocks@.len() as int,
            ),
    {
        let level = context.config().rules.case001.level;
        if !level.is_enabled() {
            return Vec::new();
        }
        let canonicals = eligible_canonicals(context.lexicon());
        let definitions = context.registry().definitions();
        let document = context.document();
        let ghost doc = context.spec_document();
        let ghost ls = context.spec_lexicon()@;
        let ghost defs = context.spec_registry().spec_definitions();
        let mut diagnostics: Vec<Diagnostic> = Vec::new();
        let mut b: usize = 0;
        while b < document.blocks.len()
            invariant
                b <= doc.blocks@.len(),
                *document == doc,
                context.well_formed(),
                context.spec_document() == doc,
                views(definitions@) == defs,
                forall|key: Seq<char>| #[trigger] owner_of(canonicals@, key) == letters_owner(ls, key),
                views(diagnostics@) == case_findings(doc, ls, defs, level, b as int),
            decreases doc.blocks@.len() - b,
        {
            let text = document.blocks[b].text.as_str();
            let s = chars_of(text);
            let offsets = byte_offsets(&s);
            let tokens = token_ranges(&s);
            let ghost base = views(diagnostics@);
            let mut k: usize = 0;
            while k < tokens.len()
                invariant
                    k <= tokens@.len(),
                    b < doc.blocks@.len(),
                    *document == doc,
                    context.well_formed(),
                    context.spec_document() == doc,
                    s@ == doc.blocks@[b as int].text@,
                    offsets@.len() == s@.len() + 1,
                    forall|j: int| 0 <= j <= s@.len() ==> offsets@[j] == byte_pos(s@, j),
                    tokens@.len() == ascii_tokens(s@).len(),
                    forall|j: int|
                        0 <= j < tokens@.len() ==> (#[trigger] tokens@[j]).0 == ascii_tokens(s@)[j].0 && tokens@[j].1
                            == ascii_tokens(s@)[j].1,
                    forall|j: int| 0 <= j < tokens@.len() ==> (#[trigger] tokens@[j]).0 < tokens@[j].1 <= s@.len(),
                    views(definitions@) == defs,
                    forall|key: Seq<char>| #[trigger] owner_of(canonicals@, key) == letters_owner(ls, key),
                    views(diagnostics@) == base + block_findings(doc, ls, defs, level, b as int, k as int),
                decreases tokens@.len() - k,
            {
                let (i, j) = tokens[k];
                let surface = string_of(&s, i, j);
                let folded = fold_str(surface.as_str());
                let canonical: Option<&String> = match find_owner(&canonicals, folded.as_str()) {
                    Some(c) => if reports(c.as_str(), surface.as_str()) {
                        Some(c)
                    } else {
                        None
                    },
                    None => None,
                };
                let canonical = match canonical {
                    Some(c) => Some(c),
                    None => match find_defined(definitions, folded.as_str()) {
                        Some(a) => if reports(a.as_str(), surface.as_str()) {
                            Some(a)
                        } else {
                            None
                        },
                        None => None,
                    },
                };
                let ghost prev = views(diagnostics@);
                match canonical {
                    Some(c) => {
                        assert(canonical_for(ls, defs, surface@) == Some(c@));
                        match context.span(b, offsets[i]..offsets[j]) {
                            Some(span) => {
                                let message = case_message_of(c.as_str(), surface.as_str());
                                let d = Diagnostic { rule: RuleId::Case001, severity: level, message, span };
                                let ghost before = diagnostics@;
                                diagnostics.push(d);
                                proof {
                                    crate::order::lemma_views_push(before, d);
                                }
                            },
                            None => {},
                        }
                    },
                    None => {
                        assert(canonical_for(ls, defs, surface@) is None);
                    },
                }
                proof {
                    assert(views(diagnostics@) =~= base + block_findings(doc, ls, defs, level, b as int, k + 1));
                }
                k = k + 1;
            }
            b = b + 1;
        }
        diagnostics
    }
}

impl Rule for Case001 {
    fn id(&self) -> (r: RuleId)
        ensures
            r == RuleId::Case001,
    {
        RuleId::Case001
    }

    fn check(&self, context: &LintContext) -> (r: Vec<Diagnostic>)
        ensures
            context.spec_config().rules.case001.level == Level::Off ==> r@.len() == 0,
            context.spec_config().rules.case001.level != Level::Off ==> views(r@) == case_findings(
                context.spec_document(),
                context.spec_lexicon()@,
                context.spec_registry().spec_definitions(),
                context.spec_config().rules.case001.level,
                context.spec_document().blocks@.len() as int,
            ),
    {
        self.findings(context)
    }
}

/// How a surface that differs from a canonical form only in the case of
/// its letters is judged: a canonical mixing upper and lower case letters
/// owns every other casing (`github`, `GITHUB` and `Github` all read
/// `GitHub`); an all-uppercase canonical reports only surfaces that mix
/// cases, so its all-lowercase and all-uppercase forms stay silent; the
/// canonical itself is never reported.
pub proof fn lemma_case_variants(c: Seq<char>, s: Seq<char>)
    requires
        fold(s) == fold(c),
    ensures
        s == c ==> !variant_reports(c, s),
        has_upper(c) && has_lower(c) && s != c ==> variant_reports(c, s),
        has_upper(c) && !has_lower(c) ==> (variant_reports(c, s) <==> (has_upper(s) && has_lower(s))),
        has_upper(c) && !has_lower(c) && !has_upper(s) ==> !variant_reports(c, s),
        !has_upper(c) ==> !variant_reports(c, s),
{
}

proof fn lemma_letters_owner_first(ls: Seq<LexemeView>, key: Seq<char>, i: int)
    requires
        0 <= i < ls.len(),
        case_eligible(ls[i]),
        fold(ls[i].canonical) == key,
        forall|j: int| 0 <= j < i ==> !(case_eligible(#[trigger] ls[j]) && fold(ls[j].canonical) == key),
    ensures
        letters_owner(ls, key) == Some(ls[i].canonical),
    decreases i,
{
    if i > 0 {
        assert(!(case_eligible(ls[0]) && fold(ls[0].canonical) == key));
        assert forall|j: int| 0 <= j < i - 1 implies !(case_eligible(#[trigger] ls.drop_first()[j]) && fold(
            ls.drop_first()[j].canonical,
        ) == key) by {
            assert(ls.drop_first()[j] == ls[j + 1]);
        }
        lemma_letters_owner_first(ls.drop_first(), key, i - 1);
    }
}

/// A token whose letters, up to case, are those of the first case-enforced
/// lexicon entry with such letters, and whose canonical form mixes upper
/// and lower case, is to be written as that canonical form unless it
/// already is: `github` against the lexicon's `GitHub` reads `GitHub`.
pub proof fn lemma_mixed_case_canonical_owns_variants(
    ls: Seq<LexemeView>,
    defs: Seq<DefinitionEntryView>,
    surface: Seq<char>,
    i: int,
)
    requires
        0 <= i < ls.len(),
        case_eligible(ls[i]),
        fold(ls[i].canonical) == fold(surface),
        forall|j: int| 0 <= j < i ==> !(case_eligible(#[trigger] ls[j]) && fold(ls[j].canonical) == fold(surface)),
        has_lower(ls[i].canonical),
        surface != ls[i].canonical,
    ensures
        canonical_for(ls, defs, surface) == Some(ls[i].canonical),
{
    lemma_letters_owner_first(ls, fold(surface), i);
}

} // verus!
