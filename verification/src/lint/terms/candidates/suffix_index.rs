//! A sorted index of every suffix of the candidates' surfaces, so that the
//! surfaces containing a text are found by scanning the suffixes that start
//! with it.
use super::model::CandidateView;
use super::prune::{contains_text, rank_ge};
use crate::order::{
    lemma_views_push, stable_sort, views,
    is_sorted, lemma_stable_sorted_is_sorted, lemma_stable_sorted_permutes, lemma_text_irreflexive,
    lemma_text_total, lemma_text_trans, stable_sorted, text_le, text_less, text_lt, Order,
};
use vstd::prelude::*;

verus! {

/// `p` is the beginning of `x`.
pub open spec fn has_prefix(x: Seq<char>, p: Seq<char>) -> bool {
    p.len() <= x.len() && x.subrange(0, p.len() as int) == p
}

/// Suffix entries ordered by their text.
pub struct SuffixOrder;

impl Order<(String, usize, usize)> for SuffixOrder {
    open spec fn ordered(a: (Seq<char>, usize, usize), b: (Seq<char>, usize, usize)) -> bool {
        text_le(a.0, b.0)
    }

    fn le(a: &(String, usize, usize), b: &(String, usize, usize)) -> (r: bool) {
        proof {
            lemma_text_total(a.0@, b.0@);
            lemma_text_irreflexive(a.0@);
            if text_lt(a.0@, b.0@) && text_lt(b.0@, a.0@) {
                lemma_text_trans(a.0@, b.0@, a.0@);
            }
        }
        !text_less(b.0.as_str(), a.0.as_str())
    }

    proof fn lemma_total(a: (Seq<char>, usize, usize), b: (Seq<char>, usize, usize)) {
        lemma_text_total(a.0, b.0);
    }

    proof fn lemma_trans(a: (Seq<char>, usize, usize), b: (Seq<char>, usize, usize), c: (Seq<char>, usize, usize)) {
        if text_lt(a.0, b.0) && text_lt(b.0, c.0) {
            lemma_text_trans(a.0, b.0, c.0);
        }
    }
}

/// The first `k` suffixes of surface `o`: the suffix text, `o`, and where
/// the suffix starts.
pub open spec fn surface_suffixes(s: Seq<char>, o: usize, k: int) -> Seq<(Seq<char>, usize, usize)>
    decreases k,
{
    if k <= 0 {
        Seq::empty()
    } else {
        surface_suffixes(s, o, k - 1).push((s.skip(k - 1), o, (k - 1) as usize))
    }
}

/// The suffixes of the first `n` surfaces, surface by surface.
pub open spec fn suffix_list(surfaces: Seq<Seq<char>>, n: int) -> Seq<(Seq<char>, usize, usize)>
    decreases n,
{
    if n <= 0 {
        Seq::empty()
    } else {
        suffix_list(surfaces, n - 1) + surface_suffixes(
            surfaces[n - 1],
            (n - 1) as usize,
            surfaces[n - 1].len() as int,
        )
    }
}

/// The surfaces of the candidates.
pub open spec fn surfaces_of(all: Seq<CandidateView>) -> Seq<Seq<char>> {
    all.map_values(|c: CandidateView| c.surface)
}

/// Every suffix of every surface, in text order.
pub open spec fn suffix_index(surfaces: Seq<Seq<char>>) -> Seq<(Seq<char>, usize, usize)> {
    stable_sorted::<(String, usize, usize), SuffixOrder>(suffix_list(surfaces, surfaces.len() as int))
}

/// The first position at or after `i` whose text does not sort before `p`.
pub open spec fn first_not_below(idx: Seq<(Seq<char>, usize, usize)>, p: Seq<char>, i: int) -> int
    decreases idx.len() - i,
{
    if 0 <= i < idx.len() && text_lt(idx[i].0, p) {
        first_not_below(idx, p, i + 1)
    } else {
        i
    }
}

/// Another surface that ranks at least as high as `c`.
pub open spec fn outranks(o: CandidateView, c: CandidateView) -> bool {
    o.surface != c.surface && rank_ge(o, c)
}

/// Scanning the index from position `j` while the suffixes start with `c`'s
/// surface: whether a suffix of an outranking surface turns up, and how
/// many suffixes were inspected, the first one that does not start with the
/// surface included.
pub open spec fn scan(idx: Seq<(Seq<char>, usize, usize)>, all: Seq<CandidateView>, c: CandidateView, j: int) -> (
    bool,
    nat,
)
    decreases idx.len() - j,
{
    if j < 0 || j >= idx.len() {
        (false, 0)
    } else if !has_prefix(idx[j].0, c.surface) {
        (false, 1)
    } else if outranks(all[idx[j].1 as int], c) {
        (true, 1)
    } else {
        let r = scan(idx, all, c, j + 1);
        (r.0, r.1 + 1)
    }
}

/// The lookup of `c` in the index of all the surfaces.
pub open spec fn lookup(all: Seq<CandidateView>, c: CandidateView) -> (bool, nat) {
    let idx = suffix_index(surfaces_of(all));
    scan(idx, all, c, first_not_below(idx, c.surface, 0))
}

/// Some other surface contains `c`'s and ranks at least as high.
pub open spec fn outranked(c: CandidateView, all: Seq<CandidateView>) -> bool {
    exists|i: int|
        0 <= i < all.len() && (#[trigger] all[i]).surface != c.surface && contains_text(all[i].surface, c.surface)
            && rank_ge(all[i], c)
}

/// Every surface and every suffix position can be numbered by a `usize`.
pub open spec fn surfaces_fit(surfaces: Seq<Seq<char>>) -> bool {
    surfaces.len() <= usize::MAX && forall|o: int| 0 <= o < surfaces.len() ==> #[trigger] surfaces[o].len() <= usize::MAX
}

pub open spec fn entry_valid(surfaces: Seq<Seq<char>>, e: (Seq<char>, usize, usize)) -> bool {
    e.1 < surfaces.len() && e.2 < surfaces[e.1 as int].len() && e.0 == surfaces[e.1 as int].skip(e.2 as int)
}

proof fn lemma_le_trans(a: Seq<char>, b: Seq<char>, c: Seq<char>)
    requires
        text_le(a, b),
        text_le(b, c),
    ensures
        text_le(a, c),
{
    if text_lt(a, b) && text_lt(b, c) {
        lemma_text_trans(a, b, c);
    }
}

proof fn lemma_le_not_lt(a: Seq<char>, b: Seq<char>)
    requires
        text_le(a, b),
    ensures
        !text_lt(b, a),
{
    lemma_text_irreflexive(a);
    if text_lt(a, b) && text_lt(b, a) {
        lemma_text_trans(a, b, a);
    }
}

proof fn lemma_prefix_first(x: Seq<char>, p: Seq<char>)
    requires
        p.len() > 0,
        has_prefix(x, p),
    ensures
        x.len() > 0,
        x[0] == p[0],
        has_prefix(x.drop_first(), p.drop_first()),
{
    assert(x.subrange(0, p.len() as int)[0] == x[0]);
    assert(x.drop_first().subrange(0, p.len() - 1) =~= x.subrange(0, p.len() as int).drop_first());
}

/// A text sorts no later than any text it begins.
proof fn lemma_prefix_le(x: Seq<char>, p: Seq<char>)
    requires
        has_prefix(x, p),
    ensures
        text_le(p, x),
    decreases p.len(),
{
    if p.len() == 0 {
        if x.len() == 0 {
            assert(x =~= p);
        }
    } else {
        lemma_prefix_first(x, p);
        lemma_prefix_le(x.drop_first(), p.drop_first());
        if x.drop_first() == p.drop_first() {
            assert(x =~= seq![x[0]] + x.drop_first());
            assert(p =~= seq![p[0]] + p.drop_first());
        }
    }
}

/// The texts that begin with `p` lie together in text order: a text between
/// `p` and one that begins with `p` begins with it too.
proof fn lemma_prefix_between(p: Seq<char>, y: Seq<char>, z: Seq<char>)
    requires
        text_le(p, y),
        text_le(y, z),
        has_prefix(z, p),
    ensures
        has_prefix(y, p),
    decreases p.len(),
{
    if p.len() == 0 {
        assert(y.subrange(0, 0) =~= p);
    } else if y == z {
    } else if p == y {
        assert(y.subrange(0, y.len() as int) =~= y);
    } else {
        lemma_prefix_first(z, p);
        assert(text_lt(p, y) && text_lt(y, z));
        assert(y.len() > 0);
        if y[0] != p[0] {
            assert(p[0] < y[0]);
            assert(y[0] <= z[0]);
            assert(false);
        }
        assert(y[0] == z[0]);
        lemma_prefix_between(p.drop_first(), y.drop_first(), z.drop_first());
        let n = p.len() as int;
        assert(y.subrange(0, n) =~= seq![y[0]] + y.drop_first().subrange(0, n - 1));
        assert(p =~= seq![p[0]] + p.drop_first());
    }
}

pub(crate) proof fn lemma_first_not_below(idx: Seq<(Seq<char>, usize, usize)>, p: Seq<char>, i: int)
    requires
        0 <= i <= idx.len(),
    ensures
        i <= first_not_below(idx, p, i) <= idx.len(),
        forall|m: int| i <= m < first_not_below(idx, p, i) ==> text_lt(#[trigger] idx[m].0, p),
        first_not_below(idx, p, i) < idx.len() ==> !text_lt(idx[first_not_below(idx, p, i)].0, p),
    decreases idx.len() - i,
{
    if i < idx.len() && text_lt(idx[i].0, p) {
        lemma_first_not_below(idx, p, i + 1);
    }
}

proof fn lemma_surface_suffixes(s: Seq<char>, o: usize, k: int)
    requires
        0 <= k,
    ensures
        surface_suffixes(s, o, k).len() == k,
        forall|m: int| 0 <= m < k ==> #[trigger] surface_suffixes(s, o, k)[m] == (s.skip(m), o, m as usize),
    decreases k,
{
    if k > 0 {
        lemma_surface_suffixes(s, o, k - 1);
    }
}

proof fn lemma_suffix_list(surfaces: Seq<Seq<char>>, n: int)
    requires
        0 <= n <= surfaces.len(),
        surfaces_fit(surfaces),
    ensures
        forall|m: int|
            0 <= m < suffix_list(surfaces, n).len() ==> entry_valid(surfaces, #[trigger] suffix_list(surfaces, n)[m]),
        forall|o: int, k: int|
            0 <= o < n && 0 <= k < surfaces[o].len() ==> #[trigger] suffix_list(surfaces, n).contains(
                (surfaces[o].skip(k), o as usize, k as usize),
            ),
    decreases n,
{
    if n > 0 {
        let prev = suffix_list(surfaces, n - 1);
        let s = surfaces[n - 1];
        let tail = surface_suffixes(s, (n - 1) as usize, s.len() as int);
        lemma_suffix_list(surfaces, n - 1);
        lemma_surface_suffixes(s, (n - 1) as usize, s.len() as int);
        let all = prev + tail;
        assert(suffix_list(surfaces, n) == all);
        assert forall|m: int| 0 <= m < all.len() implies entry_valid(surfaces, #[trigger] all[m]) by {
            if m < prev.len() {
                assert(all[m] == prev[m]);
            } else {
                let q = m - prev.len();
                assert(all[m] == tail[q]);
                assert(tail[q] == (s.skip(q), (n - 1) as usize, q as usize));
                assert(s.len() <= usize::MAX);
            }
        }
        assert forall|o: int, k: int| 0 <= o < n && 0 <= k < surfaces[o].len() implies #[trigger] all.contains(
            (surfaces[o].skip(k), o as usize, k as usize),
        ) by {
            let e = (surfaces[o].skip(k), o as usize, k as usize);
            if o < n - 1 {
                assert(prev.contains(e));
                let m = choose|m: int| 0 <= m < prev.len() && prev[m] == e;
                assert(all[m] == e);
            } else {
                assert(tail[k] == e);
                assert(all[prev.len() + k] == e);
            }
        }
    }
}

/// The index holds exactly the suffixes of the surfaces, in text order.
pub(crate) proof fn lemma_suffix_index(surfaces: Seq<Seq<char>>)
    requires
        surfaces_fit(surfaces),
    ensures
        is_sorted::<(String, usize, usize), SuffixOrder>(suffix_index(surfaces)),
        forall|m: int|
            0 <= m < suffix_index(surfaces).len() ==> entry_valid(surfaces, #[trigger] suffix_index(surfaces)[m]),
        forall|o: int, k: int|
            0 <= o < surfaces.len() && 0 <= k < surfaces[o].len() ==> #[trigger] suffix_index(surfaces).contains(
                (surfaces[o].skip(k), o as usize, k as usize),
            ),
{
    broadcast use vstd::seq_lib::to_multiset_contains;

    let list = suffix_list(surfaces, surfaces.len() as int);
    let idx = suffix_index(surfaces);
    lemma_suffix_list(surfaces, surfaces.len() as int);
    lemma_stable_sorted_is_sorted::<(String, usize, usize), SuffixOrder>(list);
    lemma_stable_sorted_permutes::<(String, usize, usize), SuffixOrder>(list);
    assert forall|m: int| 0 <= m < idx.len() implies entry_valid(surfaces, #[trigger] idx[m]) by {
        assert(idx.contains(idx[m]));
        assert(idx.to_multiset().count(idx[m]) > 0);
        assert(list.contains(idx[m]));
        let j = choose|j: int| 0 <= j < list.len() && list[j] == idx[m];
        assert(entry_valid(surfaces, list[j]));
    }
    assert forall|o: int, k: int| 0 <= o < surfaces.len() && 0 <= k < surfaces[o].len() implies #[trigger] idx.contains(
        (surfaces[o].skip(k), o as usize, k as usize),
    ) by {
        let e = (surfaces[o].skip(k), o as usize, k as usize);
        assert(list.contains(e));
        assert(list.to_multiset().count(e) > 0);
    }
}

proof fn lemma_scan_sound(idx: Seq<(Seq<char>, usize, usize)>, all: Seq<CandidateView>, c: CandidateView, j: int)
    requires
        forall|m: int| 0 <= m < idx.len() ==> entry_valid(surfaces_of(all), #[trigger] idx[m]),
    ensures
        scan(idx, all, c, j).0 ==> outranked(c, all),
    decreases idx.len() - j,
{
    if 0 <= j < idx.len() && has_prefix(idx[j].0, c.surface) {
        if outranks(all[idx[j].1 as int], c) {
            let e = idx[j];
            assert(entry_valid(surfaces_of(all), e));
            let o = e.1 as int;
            let k = e.2 as int;
            let s = all[o].surface;
            assert(surfaces_of(all)[o] == s);
            let p = c.surface;
            assert(e.0.subrange(0, p.len() as int) =~= s.subrange(k, k + p.len()));
            assert(s.subrange(k, k + p.len()) == p);
            assert(contains_text(s, p));
        } else {
            lemma_scan_sound(idx, all, c, j + 1);
        }
    }
}

proof fn lemma_scan_reaches(
    idx: Seq<(Seq<char>, usize, usize)>,
    all: Seq<CandidateView>,
    c: CandidateView,
    j: int,
    pos: int,
)
    requires
        0 <= j <= pos < idx.len(),
        forall|m: int| j <= m <= pos ==> has_prefix(#[trigger] idx[m].0, c.surface),
        outranks(all[idx[pos].1 as int], c),
    ensures
        scan(idx, all, c, j).0,
    decreases pos - j,
{
    assert(has_prefix(idx[j].0, c.surface));
    if j < pos && !outranks(all[idx[j].1 as int], c) {
        lemma_scan_reaches(idx, all, c, j + 1, pos);
    }
}

/// The lookup finds an outranking surface exactly when one contains `c`'s.
pub proof fn lemma_lookup(all: Seq<CandidateView>, c: CandidateView)
    requires
        surfaces_fit(surfaces_of(all)),
    ensures
        lookup(all, c).0 == outranked(c, all),
{
    let surfaces = surfaces_of(all);
    let idx = suffix_index(surfaces);
    let p = c.surface;
    let lo = first_not_below(idx, p, 0);
    lemma_suffix_index(surfaces);
    lemma_first_not_below(idx, p, 0);
    lemma_scan_sound(idx, all, c, lo);
    if outranked(c, all) {
        let i = choose|i: int|
            0 <= i < all.len() && (#[trigger] all[i]).surface != c.surface && contains_text(all[i].surface, c.surface)
                && rank_ge(all[i], c);
        let s = all[i].surface;
        assert(surfaces[i] == s);
        let k0 = choose|k: int| 0 <= k && k + p.len() <= s.len() && #[trigger] s.subrange(k, k + p.len()) == p;
        let k = if k0 < s.len() {
            k0
        } else {
            0
        };
        if k0 >= s.len() {
            assert(p.len() == 0);
            assert(s.len() > 0) by {
                if s.len() == 0 {
                    assert(s =~= p);
                }
            }
        }
        let e = (s.skip(k), i as usize, k as usize);
        assert(s.len() <= usize::MAX);
        if k0 < s.len() {
            assert(s.subrange(k, k + p.len()) == p);
        } else {
            assert(s.subrange(0, 0) =~= p);
        }
        assert(has_prefix(e.0, p)) by {
            assert(e.0.subrange(0, p.len() as int) =~= s.subrange(k, k + p.len()));
        }
        assert(idx.contains(e));
        let pos = choose|m: int| 0 <= m < idx.len() && idx[m] == e;
        lemma_prefix_le(e.0, p);
        if pos < lo {
            assert(text_lt(idx[pos].0, p));
            lemma_le_not_lt(p, e.0);
        }
        assert(lo <= pos);
        assert(!text_lt(idx[lo].0, p));
        lemma_text_total(idx[lo].0, p);
        assert(text_le(p, idx[lo].0));
        assert forall|m: int| lo <= m <= pos implies has_prefix(#[trigger] idx[m].0, p) by {
            if m > lo {
                assert(SuffixOrder::ordered(idx[lo], idx[m]));
                lemma_le_trans(p, idx[lo].0, idx[m].0);
            }
            if m < pos {
                assert(SuffixOrder::ordered(idx[m], idx[pos]));
            }
            lemma_prefix_between(p, idx[m].0, e.0);
        }
        assert(all[idx[pos].1 as int] == all[i]);
        lemma_scan_reaches(idx, all, c, lo, pos);
    }
}

pub(crate) proof fn lemma_le_lt(a: Seq<char>, b: Seq<char>, c: Seq<char>)
    requires
        text_le(a, b),
        text_lt(b, c),
    ensures
        text_lt(a, c),
{
    if text_lt(a, b) {
        lemma_text_trans(a, b, c);
    }
}

/// The suffixes of the surfaces, each with its surface's number and where
/// it starts, sorted by text.
pub fn build_index(surfaces: &Vec<Vec<char>>) -> (idx: Vec<(String, usize, usize)>)
    ensures
        views(idx@) == suffix_index(surfaces@.map_values(|v: Vec<char>| v@)),
{
    let ghost sv = surfaces@.map_values(|v: Vec<char>| v@);
    let n = surfaces.len();
    let mut entries: Vec<(String, usize, usize)> = Vec::new();
    let mut o: usize = 0;
    while o < n
        invariant
            o <= n,
            n == sv.len(),
            sv == surfaces@.map_values(|v: Vec<char>| v@),
            views(entries@) == suffix_list(sv, o as int),
        decreases n - o,
    {
        let len = surfaces[o].len();
        assert(sv[o as int] == surfaces@[o as int]@);
        let ghost base = views(entries@);
        let mut k: usize = 0;
        while k < len
            invariant
                k <= len,
                o < n,
                n == sv.len(),
                sv == surfaces@.map_values(|v: Vec<char>| v@),
                len == sv[o as int].len(),
                sv[o as int] == surfaces@[o as int]@,
                base == suffix_list(sv, o as int),
                views(entries@) == base + surface_suffixes(sv[o as int], o, k as int),
            decreases len - k,
        {
            let text = crate::text::unicode::string_of(&surfaces[o], k, len);
            let entry = (text, o, k);
            let ghost before = entries@;
            entries.push(entry);
            proof {
                lemma_views_push(before, entry);
                assert(text@ =~= sv[o as int].skip(k as int));
                assert(views(entries@) =~= base + surface_suffixes(sv[o as int], o, k + 1));
            }
            k = k + 1;
        }
        assert(suffix_list(sv, o + 1) == base + surface_suffixes(sv[o as int], o, len as int));
        o = o + 1;
    }
    stable_sort::<(String, usize, usize), SuffixOrder>(entries)
}

} // verus!
