//! Dropping repeated n-grams that a better candidate already contains.
use super::model::{CandidateView, TermCandidate, TermCandidateEvidence};
use super::suffix_index::{
    build_index, entry_valid, has_prefix, lemma_first_not_below, lemma_le_lt, lemma_lookup, lemma_suffix_index, lookup, scan,
    first_not_below, suffix_index, surfaces_fit, surfaces_of, SuffixOrder,
};
use crate::order::{is_sorted, text_le, text_less, text_lt, views, Order};
use crate::text::unicode::str_eq;
use crate::text::unicode::chars_of;
use crate::lint::terms::lexicon_occurrences::matches_at;
use vstd::prelude::*;

verus! {

/// The only evidence is one repeated n-gram.
pub open spec fn is_repeated_only(ev: Seq<TermCandidateEvidence>) -> bool {
    ev.len() == 1 && ev[0] is RepeatedNgram
}

/// `small` occurs inside `big`.
pub open spec fn contains_text(big: Seq<char>, small: Seq<char>) -> bool {
    exists|k: int| 0 <= k && k + small.len() <= big.len() && #[trigger] big.subrange(k, k + small.len()) == small
}

/// `o` ranks at least as high as `c`: by score, then by length in
/// characters, then by the reverse of the surface text.
pub open spec fn rank_ge(o: CandidateView, c: CandidateView) -> bool {
    o.score > c.score || (o.score == c.score && (o.surface.len() > c.surface.len() || (o.surface.len()
        == c.surface.len() && text_le(o.surface, c.surface))))
}

/// A repeated-only candidate is pruned when another surface contains it
/// and ranks at least as high.
pub open spec fn pruned(c: CandidateView, all: Seq<CandidateView>) -> bool {
    is_repeated_only(c.evidence) && exists|i: int|
        0 <= i < all.len() && (#[trigger] all[i]).surface != c.surface && contains_text(all[i].surface, c.surface)
            && rank_ge(all[i], c)
}

/// The candidates among the first `n` that are not pruned, in order.
pub open spec fn kept(all: Seq<CandidateView>, n: int) -> Seq<CandidateView>
    decreases n,
{
    if n <= 0 {
        Seq::empty()
    } else {
        kept(all, n - 1) + if pruned(all[n - 1], all) {
            Seq::empty()
        } else {
            seq![all[n - 1]]
        }
    }
}

fn ranks_at_least(o: &TermCandidate, o_len: usize, c: &TermCandidate, c_len: usize) -> (r: bool)
    requires
        o_len == o@.surface.len(),
        c_len == c@.surface.len(),
    ensures
        r == rank_ge(o@, c@),
{
    let so = o.score().value();
    let sc = c.score().value();
    if so != sc {
        return so > sc;
    }
    if o_len != c_len {
        return o_len > c_len;
    }
    proof {
        crate::order::lemma_text_total(o@.surface, c@.surface);
        crate::order::lemma_text_irreflexive(o@.surface);
        if crate::order::text_lt(o@.surface, c@.surface) && crate::order::text_lt(c@.surface, o@.surface) {
            crate::order::lemma_text_trans(o@.surface, c@.surface, o@.surface);
        }
    }
    !text_less(c.surface(), o.surface())
}

fn repeated_only(ev: &[TermCandidateEvidence]) -> (r: bool)
    ensures
        r == is_repeated_only(ev@),
{
    ev.len() == 1 && match ev[0] {
        TermCandidateEvidence::RepeatedNgram { .. } => true,
        _ => false,
    }
}

/// A count that stops at the largest `usize`.
pub open spec fn capped(x: nat) -> usize {
    if x > usize::MAX {
        usize::MAX
    } else {
        x as usize
    }
}

/// The suffixes inspected while pruning the first `n` candidates: each
/// repeated-only candidate is looked up in the suffix index, the others are
/// not.
pub open spec fn inspections(all: Seq<CandidateView>, n: int) -> nat
    decreases n,
{
    if n <= 0 {
        0
    } else {
        inspections(all, n - 1) + if is_repeated_only(all[n - 1].evidence) {
            lookup(all, all[n - 1]).1
        } else {
            0
        }
    }
}

/// Looks candidate `c` up in the suffix index: a binary search for the first
/// suffix that does not sort before its surface, then a scan of the suffixes
/// that start with it.
fn find_outranking(
    idx: &Vec<(String, usize, usize)>,
    candidates: &Vec<TermCandidate>,
    surfaces: &Vec<Vec<char>>,
    c: usize,
) -> (r: (bool, usize))
    requires
        c < candidates@.len(),
        surfaces@.len() == candidates@.len(),
        forall|k: int| 0 <= k < surfaces@.len() ==> (#[trigger] surfaces@[k])@ == candidates@[k]@.surface,
        views(idx@) == suffix_index(surfaces_of(views(candidates@))),
    ensures
        r.0 == lookup(views(candidates@), candidates@[c as int]@).0,
        r.1 == lookup(views(candidates@), candidates@[c as int]@).1,
{
    let ghost all = views(candidates@);
    let ghost iv = views(idx@);
    let ghost cv = all[c as int];
    let ghost p = cv.surface;
    let n = candidates.len();
    proof {
        assert forall|o: int| 0 <= o < surfaces_of(all).len() implies #[trigger] surfaces_of(all)[o].len()
            <= usize::MAX by {
            assert(surfaces_of(all)[o] == surfaces@[o]@);
            assert(surfaces@[o]@.len() == surfaces@[o].len());
        }
        assert(surfaces_of(all).len() == n);
        lemma_suffix_index(surfaces_of(all));
    }
    assert(cv == candidates@[c as int]@);
    assert(lookup(all, cv) == scan(iv, all, cv, first_not_below(iv, p, 0)));
    let needle = candidates[c].surface();
    let pc = &surfaces[c];
    let len = idx.len();
    let mut lo: usize = 0;
    let mut hi: usize = len;
    while lo < hi
        invariant
            lo <= hi <= len,
            len == iv.len(),
            iv == views(idx@),
            needle@ == p,
            is_sorted::<(String, usize, usize), SuffixOrder>(iv),
            forall|m: int| 0 <= m < lo ==> text_lt(#[trigger] iv[m].0, p),
            forall|m: int| hi <= m < len ==> !text_lt(#[trigger] iv[m].0, p),
        decreases hi - lo,
    {
        let mid = lo + (hi - lo) / 2;
        assert(iv[mid as int].0 == idx@[mid as int].0@);
        if text_less(idx[mid].0.as_str(), needle) {
            proof {
                assert forall|m: int| 0 <= m < mid + 1 implies text_lt(#[trigger] iv[m].0, p) by {
                    if m < mid {
                        assert(SuffixOrder::ordered(iv[m], iv[mid as int]));
                        lemma_le_lt(iv[m].0, iv[mid as int].0, p);
                    }
                }
            }
            lo = mid + 1;
        } else {
            proof {
                assert forall|m: int| mid <= m < len implies !text_lt(#[trigger] iv[m].0, p) by {
                    if m > mid {
                        assert(SuffixOrder::ordered(iv[mid as int], iv[m]));
                        if text_lt(iv[m].0, p) {
                            lemma_le_lt(iv[mid as int].0, iv[m].0, p);
                        }
                    }
                }
            }
            hi = mid;
        }
    }
    proof {
        lemma_first_not_below(iv, p, 0);
        let f = first_not_below(iv, p, 0);
        if f < lo {
            assert(text_lt(iv[f].0, p));
        }
        if lo < f {
            assert(text_lt(iv[lo as int].0, p));
        }
    }
    let first = lo;
    let mut j = lo;
    let mut steps: usize = 0;
    while j < len
        invariant
            first <= j <= len,
            len == iv.len(),
            iv == views(idx@),
            all == views(candidates@),
            cv == all[c as int],
            c < all.len(),
            p == cv.surface,
            needle@ == p,
            pc@ == p,
            surfaces@.len() == candidates@.len(),
            forall|k: int| 0 <= k < surfaces@.len() ==> (#[trigger] surfaces@[k])@ == candidates@[k]@.surface,
            forall|m: int| 0 <= m < iv.len() ==> entry_valid(surfaces_of(all), #[trigger] iv[m]),
            steps <= j - first,
            first == first_not_below(iv, p, 0),
            lookup(all, cv) == scan(iv, all, cv, first as int),
            cv == candidates@[c as int]@,
            scan(iv, all, cv, first as int).0 == scan(iv, all, cv, j as int).0,
            scan(iv, all, cv, first as int).1 == scan(iv, all, cv, j as int).1 + steps,
        decreases len - j,
    {
        steps = steps + 1;
        let xs = chars_of(idx[j].0.as_str());
        assert(xs@ == iv[j as int].0);
        if !matches_at(&xs, 0, pc) {
            assert(!has_prefix(iv[j as int].0, p));
            assert(scan(iv, all, cv, j as int).1 == 1);
            assert(!scan(iv, all, cv, j as int).0);
            assert(scan(iv, all, cv, first as int).1 == steps);
            return (false, steps);
        }
        let owner = idx[j].1;
        assert(entry_valid(surfaces_of(all), iv[j as int]));
        assert(owner == iv[j as int].1);
        let other = &candidates[owner];
        let so = &surfaces[owner];
        assert(all[owner as int] == other@);
        if (so.len() != pc.len() || !str_eq(other.surface(), needle)) && ranks_at_least(
            other,
            so.len(),
            &candidates[c],
            pc.len(),
        ) {
            return (true, steps);
        }
        j = j + 1;
    }
    (false, steps)
}

/// Drops every repeated-only candidate contained in a distinct surface of
/// equal or higher rank; the others keep their order.
pub fn contained_repeated_only(candidates: Vec<TermCandidate>) -> (r: Vec<TermCandidate>)
    ensures
        views(r@) == kept(views(candidates@), candidates@.len() as int),
{
    contained_repeated_only_with_inspection_count(candidates).0
}

/// Pruning as `contained_repeated_only` does it, with the number of suffixes
/// inspected: each repeated-only candidate scans only the suffixes that start
/// with its surface, and one more.
pub fn contained_repeated_only_with_inspection_count(candidates: Vec<TermCandidate>) -> (r: (
    Vec<TermCandidate>,
    usize,
))
    ensures
        views(r.0@) == kept(views(candidates@), candidates@.len() as int),
        r.1 == capped(inspections(views(candidates@), candidates@.len() as int)),
{
    let ghost all = views(candidates@);
    let n = candidates.len();
    let mut surfaces: Vec<Vec<char>> = Vec::new();
    let mut i: usize = 0;
    while i < n
        invariant
            i <= n,
            n == candidates@.len(),
            all == views(candidates@),
            surfaces@.len() == i,
            forall|k: int| 0 <= k < i ==> (#[trigger] surfaces@[k])@ == all[k].surface,
        decreases n - i,
    {
        surfaces.push(chars_of(candidates[i].surface()));
        i = i + 1;
    }
    let idx = build_index(&surfaces);
    proof {
        assert(surfaces@.map_values(|v: Vec<char>| v@) =~= surfaces_of(all));
        assert forall|o: int| 0 <= o < surfaces_of(all).len() implies #[trigger] surfaces_of(all)[o].len()
            <= usize::MAX by {
            assert(surfaces_of(all)[o] == surfaces@[o]@);
            assert(surfaces@[o]@.len() == surfaces@[o].len());
        }
    }
    let mut keep: Vec<bool> = Vec::new();
    let mut count: usize = 0;
    let mut c: usize = 0;
    while c < n
        invariant
            c <= n,
            n == candidates@.len(),
            all == views(candidates@),
            surfaces@.len() == n,
            forall|k: int| 0 <= k < n ==> (#[trigger] surfaces@[k])@ == all[k].surface,
            views(idx@) == suffix_index(surfaces_of(all)),
            surfaces_fit(surfaces_of(all)),
            keep@.len() == c,
            forall|k: int| 0 <= k < c ==> keep@[k] == !pruned(all[k], all),
            count == capped(inspections(all, c as int)),
        decreases n - c,
    {
        let cand = &candidates[c];
        assert(all[c as int] == cand@);
        let mut is_pruned = false;
        if repeated_only(cand.evidence()) {
            let (found, steps) = find_outranking(&idx, &candidates, &surfaces, c);
            proof {
                lemma_lookup(all, all[c as int]);
            }
            is_pruned = found;
            count = if count > usize::MAX - steps {
                usize::MAX
            } else {
                count + steps
            };
        }
        keep.push(!is_pruned);
        c = c + 1;
    }
    let mut out: Vec<TermCandidate> = Vec::new();
    let mut input = candidates;
    let mut done: usize = 0;
    assert(views(input@) =~= all.skip(0));
    while input.len() > 0
        invariant
            done + input@.len() == n,
            n == all.len(),
            keep@.len() == n,
            forall|k: int| 0 <= k < n ==> keep@[k] == !pruned(all[k], all),
            views(input@) == all.skip(done as int),
            views(out@) == kept(all, done as int),
            count == capped(inspections(all, n as int)),
        decreases input@.len(),
    {
        let ghost old_input = input@;
        let x = input.remove(0);
        proof {
            assert(input@ =~= old_input.subrange(1, old_input.len() as int));
            assert(views(old_input)[0] == all[done as int]);
            assert forall|k: int| 0 <= k < input@.len() implies views(input@)[k] == all.skip(done + 1)[k] by {
                assert(views(old_input)[k + 1] == all.skip(done as int)[k + 1]);
            }
            assert(views(input@) =~= all.skip(done + 1));
        }
        if keep[done] {
            let ghost before = out@;
            out.push(x);
            proof {
                crate::order::lemma_views_push(before, x);
                assert(views(out@) =~= kept(all, done + 1));
            }
        } else {
            assert(kept(all, done + 1) =~= kept(all, done as int));
        }
        done = done + 1;
    }
    (out, count)
}

} // verus!
