//! Stable sorting by a chosen total preorder, and the lexicographic order of text.
use vstd::prelude::*;
use vstd::seq_lib::{to_multiset_build, to_multiset_insert};

verus! {

/// The views of a list.
pub open spec fn views<T: View>(s: Seq<T>) -> Seq<T::V> {
    s.map_values(|t: T| t@)
}

pub proof fn lemma_views_push<T: View>(s: Seq<T>, x: T)
    ensures
        views(s.push(x)) == views(s).push(x@),
{
    assert(views(s.push(x)) =~= views(s).push(x@));
}

pub proof fn lemma_views_add<T: View>(a: Seq<T>, b: Seq<T>)
    ensures
        views(a + b) == views(a) + views(b),
{
    assert(views(a + b) =~= views(a) + views(b));
}

/// A total preorder on the views of `T`, decided by `le`.
pub trait Order<T: View> {
    spec fn ordered(a: T::V, b: T::V) -> bool;

    fn le(a: &T, b: &T) -> (r: bool)
        ensures
            r == Self::ordered(a@, b@),
    ;

    proof fn lemma_total(a: T::V, b: T::V)
        ensures
            Self::ordered(a, b) || Self::ordered(b, a),
    ;

    proof fn lemma_trans(a: T::V, b: T::V, c: T::V)
        requires
            Self::ordered(a, b),
            Self::ordered(b, c),
        ensures
            Self::ordered(a, c),
    ;
}

/// Where a stable insertion puts `x` into `s`: after the last element that
/// is not greater than `x`, scanning from the back.
pub open spec fn insert_pos<T: View, O: Order<T>>(s: Seq<T::V>, x: T::V) -> int
    decreases s.len(),
{
    if s.len() == 0 {
        0
    } else if O::ordered(s.last(), x) {
        s.len() as int
    } else {
        insert_pos::<T, O>(s.drop_last(), x)
    }
}

pub open spec fn sorted_insert<T: View, O: Order<T>>(s: Seq<T::V>, x: T::V) -> Seq<T::V> {
    s.insert(insert_pos::<T, O>(s, x), x)
}

/// Stable sort: insert each element in turn, equal elements keeping their order.
pub open spec fn stable_sorted<T: View, O: Order<T>>(s: Seq<T::V>) -> Seq<T::V>
    decreases s.len(),
{
    if s.len() == 0 {
        s
    } else {
        sorted_insert::<T, O>(stable_sorted::<T, O>(s.drop_last()), s.last())
    }
}

pub open spec fn is_sorted<T: View, O: Order<T>>(s: Seq<T::V>) -> bool {
    forall|i: int, j: int| 0 <= i < j < s.len() ==> O::ordered(#[trigger] s[i], #[trigger] s[j])
}

proof fn lemma_insert_pos<T: View, O: Order<T>>(s: Seq<T::V>, x: T::V)
    ensures
        0 <= insert_pos::<T, O>(s, x) <= s.len(),
        insert_pos::<T, O>(s, x) > 0 ==> O::ordered(s[insert_pos::<T, O>(s, x) - 1], x),
        forall|k: int| insert_pos::<T, O>(s, x) <= k < s.len() ==> !O::ordered(#[trigger] s[k], x),
    decreases s.len(),
{
    if s.len() > 0 && !O::ordered(s.last(), x) {
        lemma_insert_pos::<T, O>(s.drop_last(), x);
        assert forall|k: int| insert_pos::<T, O>(s, x) <= k < s.len() implies !O::ordered(
            #[trigger] s[k],
            x,
        ) by {
            if k < s.len() - 1 {
                assert(s[k] == s.drop_last()[k]);
            }
        }
    }
}

proof fn lemma_sorted_insert<T: View, O: Order<T>>(s: Seq<T::V>, x: T::V)
    requires
        is_sorted::<T, O>(s),
    ensures
        is_sorted::<T, O>(sorted_insert::<T, O>(s, x)),
{
    lemma_insert_pos::<T, O>(s, x);
    let p = insert_pos::<T, O>(s, x);
    let r = sorted_insert::<T, O>(s, x);
    assert forall|i: int, j: int| 0 <= i < j < r.len() implies O::ordered(
        #[trigger] r[i],
        #[trigger] r[j],
    ) by {
        if i < p && j == p {
            if i < p - 1 {
                O::lemma_trans(s[i], s[p - 1], x);
            }
        } else if i == p && j > p {
            O::lemma_total(s[j - 1], x);
        } else if i < p && j > p {
            O::lemma_total(s[j - 1], x);
            if i < p - 1 {
                O::lemma_trans(s[i], s[p - 1], x);
            }
            O::lemma_trans(s[i], x, s[j - 1]);
        } else if i > p {
            assert(r[i] == s[i - 1] && r[j] == s[j - 1]);
        } else {
            assert(r[i] == s[i] && r[j] == s[j]);
        }
    }
}

/// A stable sort returns its input in sorted order.
pub proof fn lemma_stable_sorted_is_sorted<T: View, O: Order<T>>(s: Seq<T::V>)
    ensures
        is_sorted::<T, O>(stable_sorted::<T, O>(s)),
    decreases s.len(),
{
    if s.len() > 0 {
        lemma_stable_sorted_is_sorted::<T, O>(s.drop_last());
        lemma_sorted_insert::<T, O>(stable_sorted::<T, O>(s.drop_last()), s.last());
    }
}

/// A stable sort neither drops nor adds elements.
pub proof fn lemma_stable_sorted_permutes<T: View, O: Order<T>>(s: Seq<T::V>)
    ensures
        stable_sorted::<T, O>(s).to_multiset() == s.to_multiset(),
        stable_sorted::<T, O>(s).len() == s.len(),
    decreases s.len(),
{
    if s.len() > 0 {
        let prev = stable_sorted::<T, O>(s.drop_last());
        lemma_stable_sorted_permutes::<T, O>(s.drop_last());
        lemma_insert_pos::<T, O>(prev, s.last());
        to_multiset_insert(prev, insert_pos::<T, O>(prev, s.last()), s.last());
        to_multiset_build(s.drop_last(), s.last());
        assert(s.drop_last().push(s.last()) =~= s);
    }
}

fn insertion_point<T: View, O: Order<T>>(v: &Vec<T>, x: &T) -> (p: usize)
    ensures
        p == insert_pos::<T, O>(views(v@), x@),
{
    let ghost vs = views(v@);
    let mut j = v.len();
    assert(vs.take(j as int) =~= vs);
    while j > 0
        invariant
            j <= v.len(),
            vs == views(v@),
            insert_pos::<T, O>(vs, x@) == insert_pos::<T, O>(vs.take(j as int), x@),
        decreases j,
    {
        if O::le(&v[j - 1], x) {
            assert(vs.take(j as int).last() == v@[j - 1]@);
            return j;
        }
        assert(vs.take(j as int).drop_last() =~= vs.take(j - 1));
        j = j - 1;
    }
    j
}

/// Sorts `v` stably by the order `O`.
pub fn stable_sort<T: View, O: Order<T>>(v: Vec<T>) -> (r: Vec<T>)
    ensures
        views(r@) == stable_sorted::<T, O>(views(v@)),
{
    let ghost given = views(v@);
    let ghost items = v@;
    let mut input = v;
    let n = input.len();
    let mut out: Vec<T> = Vec::new();
    let mut i: usize = 0;
    assert(given.take(0) =~= Seq::<T::V>::empty());
    assert(views(out@) =~= Seq::<T::V>::empty());
    assert(items.skip(0) =~= items);
    while input.len() > 0
        invariant
            n == items.len(),
            given == views(items),
            i + input@.len() == n,
            input@ == items.skip(i as int),
            views(out@) == stable_sorted::<T, O>(given.take(i as int)),
        decreases input@.len(),
    {
        let x = input.remove(0);
        proof {
            assert(given.take(i + 1).drop_last() =~= given.take(i as int));
            assert(given.take(i + 1).last() == x@);
            assert(items.skip(i + 1) =~= items.skip(i as int).remove(0));
        }
        let p = insertion_point::<T, O>(&out, &x);
        proof {
            lemma_insert_pos::<T, O>(views(out@), x@);
        }
        let ghost before = out@;
        out.insert(p, x);
        proof {
            assert(views(out@) =~= views(before).insert(p as int, x@));
        }
        i = i + 1;
    }
    assert(given.take(i as int) =~= given);
    out
}

/// Strict lexicographic order of texts by character code.
pub open spec fn text_lt(a: Seq<char>, b: Seq<char>) -> bool
    decreases a.len(),
{
    if a.len() == 0 {
        b.len() > 0
    } else if b.len() == 0 {
        false
    } else if a[0] != b[0] {
        a[0] < b[0]
    } else {
        text_lt(a.drop_first(), b.drop_first())
    }
}

pub open spec fn text_le(a: Seq<char>, b: Seq<char>) -> bool {
    text_lt(a, b) || a == b
}

pub proof fn lemma_text_total(a: Seq<char>, b: Seq<char>)
    ensures
        text_lt(a, b) || text_lt(b, a) || a == b,
    decreases a.len(),
{
    if a.len() == 0 && b.len() == 0 {
        assert(a =~= b);
    }
    if a.len() > 0 && b.len() > 0 && a[0] == b[0] {
        lemma_text_total(a.drop_first(), b.drop_first());
        if a.drop_first() == b.drop_first() {
            assert(a =~= seq![a[0]] + a.drop_first());
            assert(b =~= seq![b[0]] + b.drop_first());
        }
    }
}

pub proof fn lemma_text_trans(a: Seq<char>, b: Seq<char>, c: Seq<char>)
    requires
        text_lt(a, b),
        text_lt(b, c),
    ensures
        text_lt(a, c),
    decreases a.len(),
{
    if a.len() > 0 && b.len() > 0 && c.len() > 0 && a[0] == b[0] && b[0] == c[0] {
        lemma_text_trans(a.drop_first(), b.drop_first(), c.drop_first());
    }
}

pub proof fn lemma_text_irreflexive(a: Seq<char>)
    ensures
        !text_lt(a, a),
    decreases a.len(),
{
    if a.len() > 0 {
        lemma_text_irreflexive(a.drop_first());
    }
}

/// Whether `a` sorts strictly before `b` (Rust's `str` order: UTF-8 bytes
/// compare as character codes do).
pub fn text_less(a: &str, b: &str) -> (r: bool)
    ensures
        r == text_lt(a@, b@),
{
    let x = crate::text::unicode::chars_of(a);
    let y = crate::text::unicode::chars_of(b);
    let mut i: usize = 0;
    assert(a@.skip(0) =~= a@);
    assert(b@.skip(0) =~= b@);
    while i < x.len() && i < y.len()
        invariant
            x@ == a@,
            y@ == b@,
            i <= x.len(),
            i <= y.len(),
            text_lt(a@, b@) == text_lt(a@.skip(i as int), b@.skip(i as int)),
        decreases x.len() - i,
    {
        if x[i] != y[i] {
            proof {
                let sa = a@.skip(i as int);
                let sb = b@.skip(i as int);
                assert(sa[0] == x@[i as int] && sb[0] == y@[i as int]);
            }
            return x[i] < y[i];
        }
        proof {
            assert(a@.skip(i as int).drop_first() =~= a@.skip(i + 1));
            assert(b@.skip(i as int).drop_first() =~= b@.skip(i + 1));
        }
        i = i + 1;
    }
    i < y.len()
}

} // verus!
