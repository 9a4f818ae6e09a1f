//! Acronym definitions and uses of a document, located in reading order.
use crate::latex::span::{position_lt, LocatedRange, ReadingPosition};
use crate::order::{stable_sort, stable_sorted, views, Order};
use crate::text::terminology::{
    extract_acronym_definitions, find_acronym_usages, opt_text, spec_definitions, spec_usages,
    AcronymDefinition, DefinitionView, UsageView,
};
use crate::text::unicode::str_eq;
use vstd::prelude::*;

verus! {

/// An acronym definition found in reading order.
#[derive(Debug, PartialEq, Eq)]
pub struct AcronymDefinitionEntry {
    pub acronym: String,
    /// Expanded form preceding the definition, when recognized.
    pub chinese: Option<String>,
    pub english: Option<String>,
    pub location: LocatedRange,
}

/// An acronym occurrence; `is_definition` marks occurrences that are part of
/// a definition pattern in the same block.
#[derive(Debug, PartialEq, Eq)]
pub struct AcronymUsageEntry {
    pub acronym: String,
    pub location: LocatedRange,
    pub is_definition: bool,
}

/// The value of a definition entry.
#[verifier::ext_equal]
pub struct DefinitionEntryView {
    pub acronym: Seq<char>,
    pub chinese: Option<Seq<char>>,
    pub english: Option<Seq<char>>,
    pub location: LocatedRange,
}

/// The value of a usage entry.
#[verifier::ext_equal]
pub struct UsageEntryView {
    pub acronym: Seq<char>,
    pub location: LocatedRange,
    pub is_definition: bool,
}

impl View for AcronymDefinitionEntry {
    type V = DefinitionEntryView;

    open spec fn view(&self) -> DefinitionEntryView {
        DefinitionEntryView {
            acronym: self.acronym@,
            chinese: opt_text(self.chinese),
            english: opt_text(self.english),
            location: self.location,
        }
    }
}

impl View for AcronymUsageEntry {
    type V = UsageEntryView;

    open spec fn view(&self) -> UsageEntryView {
        UsageEntryView { acronym: self.acronym@, location: self.location, is_definition: self.is_definition }
    }
}

fn copy_text(o: &Option<String>) -> (r: Option<String>)
    ensures
        opt_text(r) == opt_text(*o),
{
    match o {
        Some(t) => Some(t.clone()),
        None => None,
    }
}

impl Clone for AcronymDefinitionEntry {
    fn clone(&self) -> (r: Self)
        ensures
            r@ == self@,
    {
        AcronymDefinitionEntry {
            acronym: self.acronym.clone(),
            chinese: copy_text(&self.chinese),
            english: copy_text(&self.english),
            location: self.location.copy(),
        }
    }
}

impl Clone for AcronymUsageEntry {
    fn clone(&self) -> (r: Self)
        ensures
            r@ == self@,
    {
        AcronymUsageEntry {
            acronym: self.acronym.clone(),
            location: self.location.copy(),
            is_definition: self.is_definition,
        }
    }
}

/// A block's definition placed in reading order.
pub open spec fn definition_entry(d: DefinitionView, block: usize) -> DefinitionEntryView {
    DefinitionEntryView {
        acronym: d.acronym,
        chinese: d.chinese,
        english: d.english,
        location: LocatedRange { block, range: d.range },
    }
}

/// Some definition of the block has this acronym at this range.
pub open spec fn is_definition_use(defs: Seq<DefinitionView>, u: UsageView) -> bool {
    exists|i: int| 0 <= i < defs.len() && (#[trigger] defs[i]).acronym == u.acronym && defs[i].range == u.range
}

/// The definitions of one block's text.
pub open spec fn block_definitions(text: Seq<char>, block: usize) -> Seq<DefinitionEntryView> {
    spec_definitions(text).map_values(|d: DefinitionView| definition_entry(d, block))
}

/// The acronym uses of one block's text, each marked when a definition
/// of the block holds it.
pub open spec fn block_usages(text: Seq<char>, block: usize) -> Seq<UsageEntryView> {
    spec_usages(text).map_values(
        |u: UsageView|
            UsageEntryView {
                acronym: u.acronym,
                location: LocatedRange { block, range: u.range },
                is_definition: is_definition_use(spec_definitions(text), u),
            },
    )
}

fn holds_definition(defs: &Vec<AcronymDefinition>, acronym: &str, start: usize, end: usize) -> (r: bool)
    ensures
        r == is_definition_use(views(defs@), UsageView { acronym: acronym@, range: start..end }),
{
    let ghost dv = views(defs@);
    let mut i: usize = 0;
    while i < defs.len()
        invariant
            i <= defs@.len(),
            dv == views(defs@),
            forall|k: int| 0 <= k < i ==> !((#[trigger] dv[k]).acronym == acronym@ && dv[k].range == (start..end)),
        decreases defs@.len() - i,
    {
        let d = &defs[i];
        assert(dv[i as int] == d@);
        if d.range.start == start && d.range.end == end && str_eq(d.acronym.as_str(), acronym) {
            return true;
        }
        i = i + 1;
    }
    false
}

/// The acronym definitions and uses of one block.
pub fn collect_acronyms(text: &str, block: usize) -> (r: (Vec<AcronymDefinitionEntry>, Vec<AcronymUsageEntry>))
    ensures
        views(r.0@) == block_definitions(text@, block),
        views(r.1@) == block_usages(text@, block),
{
    let found = extract_acronym_definitions(text);
    let mut definitions: Vec<AcronymDefinitionEntry> = Vec::new();
    let ghost dv = views(found@);
    let mut i: usize = 0;
    while i < found.len()
        invariant
            i <= found@.len(),
            dv == views(found@),
            dv == spec_definitions(text@),
            views(definitions@) == dv.take(i as int).map_values(|d: DefinitionView| definition_entry(d, block)),
        decreases found@.len() - i,
    {
        let d = &found[i];
        let e = AcronymDefinitionEntry {
            acronym: d.acronym.clone(),
            chinese: copy_text(&d.chinese),
            english: copy_text(&d.english),
            location: LocatedRange { block, range: d.range.start..d.range.end },
        };
        proof {
            assert(dv[i as int] == d@);
            assert(e@ == definition_entry(dv[i as int], block));
        }
        let ghost before = definitions@;
        definitions.push(e);
        proof {
            crate::order::lemma_views_push(before, e);
            assert(dv.take(i + 1).map_values(|d: DefinitionView| definition_entry(d, block)) =~= dv.take(
                i as int,
            ).map_values(|d: DefinitionView| definition_entry(d, block)).push(definition_entry(dv[i as int], block)));
            assert(views(definitions@) =~= dv.take(i + 1).map_values(
                |d: DefinitionView| definition_entry(d, block),
            ));
        }
        i = i + 1;
    }
    assert(dv.take(i as int) =~= dv);
    let uses = find_acronym_usages(text);
    let ghost uv = views(uses@);
    let mut usages: Vec<AcronymUsageEntry> = Vec::new();
    let mut k: usize = 0;
    while k < uses.len()
        invariant
            k <= uses@.len(),
            uv == views(uses@),
            uv == spec_usages(text@),
            dv == views(found@),
            dv == spec_definitions(text@),
            views(usages@) == block_usages(text@, block).take(k as int),
        decreases uses@.len() - k,
    {
        let u = &uses[k];
        let is_definition = holds_definition(&found, u.acronym.as_str(), u.range.start, u.range.end);
        let e = AcronymUsageEntry {
            acronym: u.acronym.clone(),
            location: LocatedRange { block, range: u.range.start..u.range.end },
            is_definition,
        };
        proof {
            assert(uv[k as int] == u@);
            assert((u.range.start..u.range.end) == u.range);
            assert(e@ == block_usages(text@, block)[k as int]);
        }
        let ghost before_uses = usages@;
        usages.push(e);
        proof {
            crate::order::lemma_views_push(before_uses, e);
            assert(views(usages@) =~= block_usages(text@, block).take(k + 1));
        }
        k = k + 1;
    }
    assert(block_usages(text@, block).take(k as int) =~= block_usages(text@, block));
    (definitions, usages)
}

/// Definitions ordered by the reading position of their acronym.
pub struct DefinitionPositionOrder;

impl Order<AcronymDefinitionEntry> for DefinitionPositionOrder {
    open spec fn ordered(a: DefinitionEntryView, b: DefinitionEntryView) -> bool {
        !position_lt(b.location.spec_position(), a.location.spec_position())
    }

    fn le(a: &AcronymDefinitionEntry, b: &AcronymDefinitionEntry) -> (r: bool) {
        !b.location.position().precedes(&a.location.position())
    }

    proof fn lemma_total(a: DefinitionEntryView, b: DefinitionEntryView) {
    }

    proof fn lemma_trans(a: DefinitionEntryView, b: DefinitionEntryView, c: DefinitionEntryView) {
    }
}

/// Index of the entry with this acronym, if any.
pub open spec fn acronym_index(es: Seq<DefinitionEntryView>, acronym: Seq<char>) -> Option<int>
    decreases es.len(),
{
    if es.len() == 0 {
        None
    } else if es.last().acronym == acronym {
        Some(es.len() - 1)
    } else {
        acronym_index(es.drop_last(), acronym)
    }
}

/// One entry per acronym, in order of each acronym's first appearance in
/// the list: the definition at the earliest reading position, the first
/// listed one among equals.
pub open spec fn earliest_per_acronym(defs: Seq<DefinitionEntryView>) -> Seq<DefinitionEntryView>
    decreases defs.len(),
{
    if defs.len() == 0 {
        Seq::empty()
    } else {
        let prev = earliest_per_acronym(defs.drop_last());
        let d = defs.last();
        match acronym_index(prev, d.acronym) {
            Some(i) => if position_lt(d.location.spec_position(), prev[i].location.spec_position()) {
                prev.update(i, d)
            } else {
                prev
            },
            None => prev.push(d),
        }
    }
}

/// The earliest definition of each acronym, in reading order.
pub open spec fn spec_first_definitions(defs: Seq<DefinitionEntryView>) -> Seq<DefinitionEntryView> {
    stable_sorted::<AcronymDefinitionEntry, DefinitionPositionOrder>(earliest_per_acronym(defs))
}

pub proof fn lemma_acronym_index(es: Seq<DefinitionEntryView>, acronym: Seq<char>)
    ensures
        match acronym_index(es, acronym) {
            Some(i) => 0 <= i < es.len() && es[i].acronym == acronym,
            None => forall|k: int| 0 <= k < es.len() ==> (#[trigger] es[k]).acronym != acronym,
        },
    decreases es.len(),
{
    if es.len() > 0 {
        lemma_acronym_index(es.drop_last(), acronym);
        if es.last().acronym != acronym && acronym_index(es.drop_last(), acronym) is None {
            let r = es.drop_last();
            assert(forall|k: int| 0 <= k < r.len() ==> (#[trigger] r[k]).acronym != acronym);
            assert forall|k: int| 0 <= k < es.len() implies (#[trigger] es[k]).acronym != acronym by {
                if k < es.len() - 1 {
                    assert(r[k] == es[k]);
                }
            }
        }
    }
}

fn find_acronym(es: &Vec<AcronymDefinitionEntry>, acronym: &str) -> (r: Option<usize>)
    ensures
        match r {
            Some(i) => acronym_index(views(es@), acronym@) == Some(i as int),
            None => acronym_index(views(es@), acronym@) is None,
        },
{
    let ghost ev = views(es@);
    let mut j = es.len();
    assert(ev.take(j as int) =~= ev);
    while j > 0
        invariant
            j <= es@.len(),
            ev == views(es@),
            acronym_index(ev, acronym@) == acronym_index(ev.take(j as int), acronym@),
        decreases j,
    {
        proof {
            assert(ev.take(j as int).drop_last() =~= ev.take(j - 1));
            assert(ev.take(j as int).last() == es@[j - 1]@);
        }
        if str_eq(es[j - 1].acronym.as_str(), acronym) {
            return Some(j - 1);
        }
        j = j - 1;
    }
    None
}

/// The earliest definition of each acronym, in reading order.
pub fn first_definitions_in_reading_order(definitions: &Vec<AcronymDefinitionEntry>) -> (r: Vec<AcronymDefinitionEntry>)
    ensures
        views(r@) == spec_first_definitions(views(definitions@)),
{
    let ghost dv = views(definitions@);
    let mut firsts: Vec<AcronymDefinitionEntry> = Vec::new();
    let mut i: usize = 0;
    while i < definitions.len()
        invariant
            i <= definitions@.len(),
            dv == views(definitions@),
            views(firsts@) == earliest_per_acronym(dv.take(i as int)),
        decreases definitions@.len() - i,
    {
        let d = &definitions[i];
        proof {
            assert(dv.take(i + 1).drop_last() =~= dv.take(i as int));
            assert(dv.take(i + 1).last() == d@);
        }
        match find_acronym(&firsts, d.acronym.as_str()) {
            Some(j) => {
                proof {
                    lemma_acronym_index(views(firsts@), d.acronym@);
                }
                if d.location.position().precedes(&firsts[j].location.position()) {
                    let ghost before = views(firsts@);
                    firsts.set(j, d.clone());
                    proof {
                        assert(views(firsts@) =~= before.update(j as int, d@));
                    }
                }
            },
            None => {
                let ghost before = views(firsts@);
                firsts.push(d.clone());
                proof {
                    assert(views(firsts@) =~= before.push(d@));
                }
            },
        }
        i = i + 1;
    }
    assert(dv.take(i as int) =~= dv);
    stable_sort::<AcronymDefinitionEntry, DefinitionPositionOrder>(firsts)
}

/// Every entry of the list is one of the definitions, no acronym appears
/// twice, every defined acronym appears, and no definition of an acronym
/// comes before its entry.
pub proof fn lemma_earliest_per_acronym(defs: Seq<DefinitionEntryView>)
    ensures
        forall|k: int| 0 <= k < earliest_per_acronym(defs).len() ==> defs.contains(
            #[trigger] earliest_per_acronym(defs)[k],
        ),
        forall|k: int, l: int|
            0 <= k < l < earliest_per_acronym(defs).len() ==> (#[trigger] earliest_per_acronym(defs)[k]).acronym
                != (#[trigger] earliest_per_acronym(defs)[l]).acronym,
        forall|m: int|
            0 <= m < defs.len() ==> (#[trigger] acronym_index(earliest_per_acronym(defs), defs[m].acronym)) is Some,
        forall|m: int, k: int|
            0 <= m < defs.len() && 0 <= k < earliest_per_acronym(defs).len() && (#[trigger] defs[m]).acronym
                == (#[trigger] earliest_per_acronym(defs)[k]).acronym ==> !position_lt(
                defs[m].location.spec_position(),
                earliest_per_acronym(defs)[k].location.spec_position(),
            ),
    decreases defs.len(),
{
    if defs.len() > 0 {
        let rest = defs.drop_last();
        lemma_earliest_per_acronym(rest);
        let prev = earliest_per_acronym(rest);
        let d = defs.last();
        let cur = earliest_per_acronym(defs);
        lemma_acronym_index(prev, d.acronym);
        assert forall|k: int| 0 <= k < cur.len() implies defs.contains(#[trigger] cur[k]) by {
            if cur[k] == d {
                assert(defs[defs.len() - 1] == d);
            } else {
                assert(prev.contains(cur[k]));
                let w = choose|w: int| 0 <= w < rest.len() && rest[w] == cur[k];
                assert(defs[w] == rest[w]);
            }
        }
        assert forall|m: int| 0 <= m < defs.len() implies (#[trigger] acronym_index(cur, defs[m].acronym)) is Some by {
            lemma_acronym_index(cur, defs[m].acronym);
            if m < defs.len() - 1 {
                assert(rest[m] == defs[m]);
                lemma_acronym_index(prev, rest[m].acronym);
                let w = acronym_index(prev, rest[m].acronym).unwrap();
                assert(cur[w].acronym == defs[m].acronym);
            } else {
                match acronym_index(prev, d.acronym) {
                    Some(w) => {
                        assert(cur[w].acronym == d.acronym);
                    },
                    None => {
                        assert(cur[cur.len() - 1] == d);
                    },
                }
            }
        }
        assert forall|m: int, k: int|
            0 <= m < defs.len() && 0 <= k < cur.len() && (#[trigger] defs[m]).acronym == (#[trigger] cur[k]).acronym
            implies !position_lt(defs[m].location.spec_position(), cur[k].location.spec_position()) by {
            if m < defs.len() - 1 {
                assert(rest[m] == defs[m]);
                match acronym_index(prev, d.acronym) {
                    Some(w) => {
                        if k == w && position_lt(d.location.spec_position(), prev[w].location.spec_position()) {
                            assert(prev[w].acronym == defs[m].acronym);
                        }
                    },
                    None => {
                        if k == prev.len() {
                            lemma_acronym_index(prev, rest[m].acronym);
                        }
                    },
                }
            } else {
                match acronym_index(prev, d.acronym) {
                    Some(w) => {
                        if k != w {
                            assert(prev[k].acronym != prev[w].acronym);
                        }
                    },
                    None => {},
                }
            }
        }
    }
}

} // verus!
