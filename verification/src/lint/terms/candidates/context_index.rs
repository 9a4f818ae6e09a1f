//! A per-sentence index that answers the definition scanner's questions in
//! constant time, so scanning a sentence stays linear however dense its
//! markers are.
use super::text::is_context_boundary;
use crate::lint::analysis::SentenceUnit;
use crate::nlp::Token;
use crate::text::terminology::{lemma_skip_ws, lemma_trim_end, skip_ws, trim_end};
use crate::text::unicode::{byte_len, chars_of, is_whitespace, len_utf8};
use vstd::prelude::*;

verus! {

/// `w` occurs in `s` at index `p`.
pub open spec fn occurs_at(s: Seq<char>, p: int, w: Seq<char>) -> bool {
    0 <= p && p + w.len() <= s.len() && s.subrange(p, p + w.len()) == w
}

/// A definition predicate starts at `p`: " 是", "是指", "指的是" or "定义为".
pub open spec fn is_predicate_at(s: Seq<char>, p: int) -> bool {
    occurs_at(s, p, " 是"@) || occurs_at(s, p, "是指"@) || occurs_at(s, p, "指的是"@) || occurs_at(
        s,
        p,
        "定义为"@,
    )
}

/// Indices below `n` of context boundaries, in order.
pub open spec fn boundary_positions(s: Seq<char>, n: int) -> Seq<int>
    decreases n,
{
    if n <= 0 {
        Seq::empty()
    } else if is_context_boundary(s[n - 1]) {
        boundary_positions(s, n - 1).push(n - 1)
    } else {
        boundary_positions(s, n - 1)
    }
}

/// Indices below `n` where a definition predicate starts, in order.
pub open spec fn predicate_positions(s: Seq<char>, n: int) -> Seq<int>
    decreases n,
{
    if n <= 0 {
        Seq::empty()
    } else if is_predicate_at(s, n - 1) {
        predicate_positions(s, n - 1).push(n - 1)
    } else {
        predicate_positions(s, n - 1)
    }
}

/// The first entry of `list` at or after `start`, or `none`.
pub open spec fn first_at_least(list: Seq<int>, start: int, none: int) -> int
    decreases list.len(),
{
    if list.len() == 0 {
        none
    } else if list[0] >= start {
        list[0]
    } else {
        first_at_least(list.drop_first(), start, none)
    }
}

/// One past the last entry of `list` before `end`, or 0.
pub open spec fn last_end_before(list: Seq<int>, end: int) -> int
    decreases list.len(),
{
    if list.len() == 0 {
        0
    } else if list.last() < end {
        list.last() + 1
    } else {
        last_end_before(list.drop_last(), end)
    }
}

/// Where a capture that starts at `start` ends: at the first boundary, or at
/// an earlier predicate.
pub open spec fn spec_end_after(s: Seq<char>, start: int) -> int {
    let b = first_at_least(boundary_positions(s, s.len() as int), start, s.len() as int);
    let q = first_at_least(predicate_positions(s, s.len() as int), start, s.len() as int);
    if q < b {
        q
    } else {
        b
    }
}

/// Where a capture that ends at `end` starts: after the last boundary before it.
pub open spec fn spec_start_before(s: Seq<char>, end: int) -> int {
    last_end_before(boundary_positions(s, s.len() as int), end)
}

/// Entries are strictly increasing and below `n`.
pub open spec fn increasing_below(list: Seq<int>, n: int) -> bool {
    &&& forall|i: int, j: int| 0 <= i < j < list.len() ==> #[trigger] list[i] < #[trigger] list[j]
    &&& forall|i: int| 0 <= i < list.len() ==> 0 <= #[trigger] list[i] < n
}

proof fn lemma_boundary_positions(s: Seq<char>, n: int)
    requires
        0 <= n <= s.len(),
    ensures
        increasing_below(boundary_positions(s, n), n),
    decreases n,
{
    if n > 0 {
        lemma_boundary_positions(s, n - 1);
    }
}

proof fn lemma_predicate_positions(s: Seq<char>, n: int)
    requires
        0 <= n <= s.len(),
    ensures
        increasing_below(predicate_positions(s, n), n),
    decreases n,
{
    if n > 0 {
        lemma_predicate_positions(s, n - 1);
    }
}

/// Skipping entries that are all before `start` keeps the first entry at or after it.
proof fn lemma_first_at_least_skip(list: Seq<int>, start: int, none: int, c: int)
    requires
        0 <= c <= list.len(),
        forall|k: int| 0 <= k < c ==> #[trigger] list[k] < start,
    ensures
        first_at_least(list, start, none) == first_at_least(list.skip(c), start, none),
    decreases c,
{
    if c > 0 {
        assert(list.skip(1) =~= list.drop_first());
        lemma_first_at_least_skip(list.drop_first(), start, none, c - 1);
        assert(list.drop_first().skip(c - 1) =~= list.skip(c));
    } else {
        assert(list.skip(0) =~= list);
    }
}

/// Taking the entries before `c` keeps the last one before `end` when the
/// rest are at or after `end`.
proof fn lemma_last_end_before_take(list: Seq<int>, end: int, c: int)
    requires
        0 <= c <= list.len(),
        forall|k: int| c <= k < list.len() ==> #[trigger] list[k] >= end,
    ensures
        last_end_before(list, end) == last_end_before(list.take(c), end),
    decreases list.len() - c,
{
    if c < list.len() {
        assert(list.drop_last().take(c) =~= list.take(c));
        lemma_last_end_before_take(list.drop_last(), end, c);
    } else {
        assert(list.take(c) =~= list);
    }
}

/// A boundary search that only moves forward.
pub struct BoundaryCursor {
    pub at: usize,
}

/// A boundary and predicate search that only moves forward.
pub struct ForwardCursor {
    pub boundary: usize,
    pub predicate: usize,
}

/// Byte offset of `t`'s start inside the sentence.
pub open spec fn rel_start(sentence: SentenceUnit, t: Token) -> int {
    t.location.range.start - sentence.location.range.start
}

/// Byte offset of `t`'s end inside the sentence.
pub open spec fn rel_end(sentence: SentenceUnit, t: Token) -> int {
    t.location.range.end - sentence.location.range.start
}

/// A token the index counts: in the sentence's block, with both ends inside
/// the sentence's text.
pub open spec fn token_counted(sentence: SentenceUnit, t: Token) -> bool {
    &&& t.location.block == sentence.location.block
    &&& 0 <= rel_start(sentence, t) <= byte_len(sentence.text@)
    &&& 0 <= rel_end(sentence, t) <= byte_len(sentence.text@)
}

/// Counted tokens among `ts` that start before byte `p`.
pub open spec fn starting_before(sentence: SentenceUnit, ts: Seq<Token>, p: int) -> nat
    decreases ts.len(),
{
    if ts.len() == 0 {
        0
    } else {
        starting_before(sentence, ts.drop_last(), p) + if token_counted(sentence, ts.last())
            && rel_start(sentence, ts.last()) < p {
            1nat
        } else {
            0nat
        }
    }
}

/// Counted tokens among `ts` that start at byte `p`.
pub open spec fn starting_at(sentence: SentenceUnit, ts: Seq<Token>, p: int) -> nat
    decreases ts.len(),
{
    if ts.len() == 0 {
        0
    } else {
        starting_at(sentence, ts.drop_last(), p) + if token_counted(sentence, ts.last()) && rel_start(
            sentence,
            ts.last(),
        ) == p {
            1nat
        } else {
            0nat
        }
    }
}

/// Counted tokens among `ts` that end at or before byte `p`.
pub open spec fn ending_through(sentence: SentenceUnit, ts: Seq<Token>, p: int) -> nat
    decreases ts.len(),
{
    if ts.len() == 0 {
        0
    } else {
        ending_through(sentence, ts.drop_last(), p) + if token_counted(sentence, ts.last())
            && rel_end(sentence, ts.last()) <= p {
            1nat
        } else {
            0nat
        }
    }
}

/// Counted tokens among `ts` that end at byte `p`.
pub open spec fn ending_at(sentence: SentenceUnit, ts: Seq<Token>, p: int) -> nat
    decreases ts.len(),
{
    if ts.len() == 0 {
        0
    } else {
        ending_at(sentence, ts.drop_last(), p) + if token_counted(sentence, ts.last()) && rel_end(
            sentence,
            ts.last(),
        ) == p {
            1nat
        } else {
            0nat
        }
    }
}

proof fn lemma_counts_step(sentence: SentenceUnit, ts: Seq<Token>, p: int)
    ensures
        starting_before(sentence, ts, p + 1) == starting_before(sentence, ts, p) + starting_at(
            sentence,
            ts,
            p,
        ),
        ending_through(sentence, ts, p) == ending_through(sentence, ts, p - 1) + ending_at(
            sentence,
            ts,
            p,
        ),
        starting_at(sentence, ts, p) <= ts.len(),
        ending_at(sentence, ts, p) <= ts.len(),
        starting_before(sentence, ts, p) <= ts.len(),
        ending_through(sentence, ts, p) <= ts.len(),
    decreases ts.len(),
{
    if ts.len() > 0 {
        lemma_counts_step(sentence, ts.drop_last(), p);
    }
}

proof fn lemma_counts_base(sentence: SentenceUnit, ts: Seq<Token>)
    ensures
        starting_before(sentence, ts, 0) == 0,
        ending_through(sentence, ts, -1) == 0,
    decreases ts.len(),
{
    if ts.len() > 0 {
        lemma_counts_base(sentence, ts.drop_last());
    }
}

/// For every byte offset `p` of the sentence text: how many counted tokens
/// start before `p`, and how many end at or before `p`.
pub fn token_prefixes(sentence: &SentenceUnit) -> (r: (Vec<usize>, Vec<usize>))
    requires
        byte_len(sentence.text@) < usize::MAX,
    ensures
        r.0@.len() == byte_len(sentence.text@) + 1,
        r.1@.len() == byte_len(sentence.text@) + 1,
        forall|p: int|
            0 <= p <= byte_len(sentence.text@) ==> r.0@[p] == starting_before(
                *sentence,
                sentence.tokens@,
                p,
            ) && r.1@[p] == ending_through(*sentence, sentence.tokens@, p),
{
    let text = sentence.text.as_str();
    proof {
        crate::text::unicode::lemma_str_len(text);
    }
    let text_len = text.len();
    let ghost ts = sentence.tokens@;
    let ghost tl = byte_len(sentence.text@) as int;
    let mut starts: Vec<usize> = Vec::new();
    let mut ends: Vec<usize> = Vec::new();
    let mut i: usize = 0;
    while i <= text_len
        invariant
            text_len == tl,
            tl < usize::MAX,
            i <= text_len + 1,
            starts@.len() == i,
            ends@.len() == i,
            forall|p: int| 0 <= p < i ==> starts@[p] == 0 && ends@[p] == 0,
        decreases text_len + 1 - i,
    {
        starts.push(0);
        ends.push(0);
        i = i + 1;
    }
    let base = sentence.location.range.start;
    let ntok = sentence.tokens.len();
    let mut k: usize = 0;
    assert(ts.take(0) =~= Seq::<Token>::empty());
    while k < sentence.tokens.len()
        invariant
            text_len == tl,
            tl == byte_len(sentence.text@),
            tl < usize::MAX,
            ts == sentence.tokens@,
            base == sentence.location.range.start,
            k <= ts.len(),
            starts@.len() == tl + 1,
            ends@.len() == tl + 1,
            forall|p: int|
                0 <= p <= tl ==> starts@[p] == starting_at(*sentence, ts.take(k as int), p)
                    && ends@[p] == ending_at(*sentence, ts.take(k as int), p),
        decreases ts.len() - k,
    {
        let token = &sentence.tokens[k];
        proof {
            assert(ts.take(k + 1).drop_last() =~= ts.take(k as int));
            assert(ts.take(k + 1).last() == *token);
        }
        let ghost old_starts = starts@;
        let ghost old_ends = ends@;
        if token.location.block == sentence.location.block && token.location.range.start >= base
            && token.location.range.end >= base && token.location.range.start - base <= text_len
            && token.location.range.end - base <= text_len {
            let s = token.location.range.start - base;
            let e = token.location.range.end - base;
            proof {
                lemma_counts_step(*sentence, ts.take(k as int), s as int);
                lemma_counts_step(*sentence, ts.take(k as int), e as int);
                assert(token_counted(*sentence, *token));
            }
            starts[s] = starts[s] + 1;
            ends[e] = ends[e] + 1;
            proof {
                assert forall|p: int| 0 <= p <= tl implies starts@[p] == starting_at(*sentence, ts.take(k + 1), p)
                    && ends@[p] == ending_at(*sentence, ts.take(k + 1), p) by {
                    assert(starting_at(*sentence, ts.take(k + 1), p) == starting_at(*sentence, ts.take(k as int), p)
                        + if rel_start(*sentence, *token) == p { 1nat } else { 0nat });
                    assert(ending_at(*sentence, ts.take(k + 1), p) == ending_at(*sentence, ts.take(k as int), p)
                        + if rel_end(*sentence, *token) == p { 1nat } else { 0nat });
                    if p != s {
                        assert(starts@[p] == old_starts[p]);
                    }
                    if p != e {
                        assert(ends@[p] == old_ends[p]);
                    }
                }
            }
        } else {
            proof {
                assert(!token_counted(*sentence, *token));
                assert forall|p: int| 0 <= p <= tl implies starts@[p] == starting_at(*sentence, ts.take(k + 1), p)
                    && ends@[p] == ending_at(*sentence, ts.take(k + 1), p) by {
                    assert(starting_at(*sentence, ts.take(k + 1), p) == starting_at(*sentence, ts.take(k as int), p));
                    assert(ending_at(*sentence, ts.take(k + 1), p) == ending_at(*sentence, ts.take(k as int), p));
                }
            }
        }
        k = k + 1;
    }
    assert(ts.take(k as int) =~= ts);
    let mut started: usize = 0;
    let mut ended: usize = 0;
    let mut position: usize = 0;
    proof {
        lemma_counts_base(*sentence, ts);
    }
    while position <= text_len
        invariant
            text_len == tl,
            tl < usize::MAX,
            ts == sentence.tokens@,
            position <= text_len + 1,
            starts@.len() == tl + 1,
            ends@.len() == tl + 1,
            ntok == ts.len(),
            started == starting_before(*sentence, ts, position as int),
            ended == ending_through(*sentence, ts, position - 1),
            forall|p: int|
                0 <= p < position ==> starts@[p] == starting_before(*sentence, ts, p) && ends@[p]
                    == ending_through(*sentence, ts, p),
            forall|p: int|
                position <= p <= tl ==> starts@[p] == starting_at(*sentence, ts, p) && ends@[p]
                    == ending_at(*sentence, ts, p),
        decreases text_len + 1 - position,
    {
        proof {
            lemma_counts_step(*sentence, ts, position as int);
            lemma_counts_step(*sentence, ts, position + 1);
        }
        let starts_here = starts[position];
        starts[position] = started;
        started = started + starts_here;
        ended = ended + ends[position];
        ends[position] = ended;
        position = position + 1;
    }
    (starts, ends)
}

/// The answers to the definition scanner's questions about one sentence.
pub struct DefinitionIndex {
    len: usize,
    boundaries: Vec<usize>,
    predicates: Vec<usize>,
    next_non_whitespace: Vec<usize>,
    previous_non_whitespace_end: Vec<usize>,
    token_starts_before: Vec<usize>,
    token_ends_through: Vec<usize>,
    scanned: u128,
}

/// The index's positions, as integers.
pub open spec fn positions(v: Seq<usize>) -> Seq<int> {
    v.map_values(|p: usize| p as int)
}

impl DefinitionIndex {
    /// The index describes the characters `s` of the sentence.
    pub closed spec fn describes(&self, sentence: SentenceUnit, s: Seq<char>) -> bool {
        &&& s == sentence.text@
        &&& self.len == s.len()
        &&& positions(self.boundaries@) == boundary_positions(s, s.len() as int)
        &&& positions(self.predicates@) == predicate_positions(s, s.len() as int)
        &&& self.next_non_whitespace@.len() == s.len() + 1
        &&& self.previous_non_whitespace_end@.len() == s.len() + 1
        &&& forall|i: int|
            0 <= i <= s.len() ==> #[trigger] self.next_non_whitespace@[i] == skip_ws(
                s,
                i,
                s.len() as int,
            )
        &&& forall|i: int|
            0 <= i <= s.len() ==> #[trigger] self.previous_non_whitespace_end@[i] == trim_end(s, 0, i)
        &&& self.token_starts_before@.len() == byte_len(s) + 1
        &&& self.token_ends_through@.len() == byte_len(s) + 1
        &&& forall|p: int|
            0 <= p <= byte_len(s) ==> #[trigger] self.token_starts_before@[p] == starting_before(
                sentence,
                sentence.tokens@,
                p,
            )
        &&& forall|p: int|
            0 <= p <= byte_len(s) ==> #[trigger] self.token_ends_through@[p] == ending_through(
                sentence,
                sentence.tokens@,
                p,
            )
    }

    /// Bytes of text the index read while it was built.
    pub closed spec fn spec_scanned(&self) -> nat {
        self.scanned as nat
    }

    /// Builds the index of a sentence's characters `s`: one forward pass for
    /// boundaries, predicates and trailing trims, one backward pass for
    /// leading trims, and the token prefix counts.
    pub fn new(sentence: &SentenceUnit, s: &Vec<char>) -> (index: Self)
        requires
            s@ == sentence.text@,
            byte_len(sentence.text@) < usize::MAX,
        ensures
            index.describes(*sentence, s@),
            index.spec_scanned() == 2 * byte_len(s@),
    {
        let n = s.len();
        let ghost sq = s@;
        proof {
            crate::text::unicode::lemma_byte_pos_le_len(sq, n as int);
            crate::text::unicode::lemma_byte_pos_mono(sq, 0, n as int);
            assert(sq.take(n as int) =~= sq);
            assert(sq.take(0) =~= Seq::<char>::empty());
        }
        let mut boundaries: Vec<usize> = Vec::new();
        let mut predicates: Vec<usize> = Vec::new();
        let mut previous_non_whitespace_end: Vec<usize> = Vec::new();
        let mut previous_end: usize = 0;
        let mut scanned: u128 = 0;
        let mut i: usize = 0;
        while i < n
            invariant
                n == sq.len(),
                sq == s@,
                byte_len(sq) < usize::MAX,
                i <= n,
                scanned == crate::text::unicode::byte_pos(sq, i as int),
                positions(boundaries@) == boundary_positions(sq, i as int),
                positions(predicates@) == predicate_positions(sq, i as int),
                previous_non_whitespace_end@.len() == i,
                forall|k: int| 0 <= k < i ==> #[trigger] previous_non_whitespace_end@[k] == trim_end(sq, 0, k),
                previous_end == trim_end(sq, 0, i as int),
            decreases n - i,
        {
            proof {
                crate::text::unicode::lemma_byte_pos_step(sq, i as int);
                crate::text::unicode::lemma_byte_pos_le_len(sq, i + 1);
                lemma_trim_end(sq, 0, i as int);
            }
            scanned = scanned + len_utf8(s[i]) as u128;
            previous_non_whitespace_end.push(previous_end);
            if !is_whitespace(s[i]) {
                previous_end = i + 1;
            }
            if is_context_boundary(s[i]) {
                boundaries.push(i);
            }
            if predicate_at(s, i) {
                predicates.push(i);
            }
            proof {
                assert(positions(boundaries@) =~= boundary_positions(sq, i + 1));
                assert(positions(predicates@) =~= predicate_positions(sq, i + 1));
            }
            i = i + 1;
        }
        previous_non_whitespace_end.push(previous_end);
        let mut next_non_whitespace: Vec<usize> = Vec::new();
        let mut k: usize = 0;
        while k <= n
            invariant
                n == sq.len(),
                n < usize::MAX,
                k <= n + 1,
                next_non_whitespace@.len() == k,
                forall|j: int| 0 <= j < k ==> next_non_whitespace@[j] == n,
            decreases n + 1 - k,
        {
            next_non_whitespace.push(n);
            k = k + 1;
        }
        let mut next_start = n;
        let mut j = n;
        proof {
            assert(skip_ws(sq, n as int, n as int) == n);
        }
        while j > 0
            invariant
                n == sq.len(),
                sq == s@,
                byte_len(sq) < usize::MAX,
                j <= n,
                scanned == byte_len(sq) + (crate::text::unicode::byte_len(sq) - crate::text::unicode::byte_pos(sq, j as int)),
                next_non_whitespace@.len() == n + 1,
                next_start == skip_ws(sq, j as int, n as int),
                forall|q: int| j <= q <= n ==> #[trigger] next_non_whitespace@[q] == skip_ws(sq, q, n as int),
            decreases j,
        {
            proof {
                crate::text::unicode::lemma_byte_pos_step(sq, j - 1);
                crate::text::unicode::lemma_byte_pos_le_len(sq, j as int);
            }
            scanned = scanned + len_utf8(s[j - 1]) as u128;
            if !is_whitespace(s[j - 1]) {
                next_start = j - 1;
            }
            next_non_whitespace[j - 1] = next_start;
            j = j - 1;
        }
        let (token_starts_before, token_ends_through) = token_prefixes(sentence);
        proof {
            lemma_boundary_positions(sq, n as int);
            lemma_predicate_positions(sq, n as int);
        }
        DefinitionIndex {
            len: n,
            boundaries,
            predicates,
            next_non_whitespace,
            previous_non_whitespace_end,
            token_starts_before,
            token_ends_through,
            scanned,
        }
    }

    /// A cursor at the start of the sentence.
    pub fn forward_cursor(&self) -> (c: ForwardCursor)
        ensures
            c.boundary == 0 && c.predicate == 0,
    {
        ForwardCursor { boundary: 0, predicate: 0 }
    }

    /// Where a capture that starts at `start` ends: at the first boundary at
    /// or after it, or at an earlier predicate. Calls must come with
    /// nondecreasing starts.
    pub fn end_after(&self, start: usize, cursor: &mut ForwardCursor, Ghost(sentence): Ghost<SentenceUnit>, Ghost(s): Ghost<Seq<char>>) -> (end: usize)
        requires
            self.describes(sentence, s),
            start <= s.len(),
            old(cursor).boundary <= boundary_positions(s, s.len() as int).len(),
            old(cursor).predicate <= predicate_positions(s, s.len() as int).len(),
            forall|k: int| 0 <= k < old(cursor).boundary ==> #[trigger] boundary_positions(s, s.len() as int)[k] < start,
            forall|k: int| 0 <= k < old(cursor).predicate ==> #[trigger] predicate_positions(s, s.len() as int)[k] < start,
        ensures
            end == spec_end_after(s, start as int),
            start <= end <= s.len(),
            final(cursor).boundary <= boundary_positions(s, s.len() as int).len(),
            final(cursor).predicate <= predicate_positions(s, s.len() as int).len(),
            forall|k: int| 0 <= k < final(cursor).boundary ==> #[trigger] boundary_positions(s, s.len() as int)[k] < start,
            forall|k: int| 0 <= k < final(cursor).predicate ==> #[trigger] predicate_positions(s, s.len() as int)[k] < start,
    {
        let ghost bs = boundary_positions(s, s.len() as int);
        let ghost ps = predicate_positions(s, s.len() as int);
        proof {
            lemma_boundary_positions(s, s.len() as int);
            lemma_predicate_positions(s, s.len() as int);
        }
        while cursor.boundary < self.boundaries.len() && self.boundaries[cursor.boundary] < start
            invariant
                self.describes(sentence, s),
                bs == boundary_positions(s, s.len() as int),
                positions(self.boundaries@) == bs,
                ps == predicate_positions(s, s.len() as int),
                cursor.boundary <= bs.len(),
                forall|k: int| 0 <= k < cursor.boundary ==> #[trigger] bs[k] < start,
                cursor.predicate <= ps.len(),
                forall|k: int| 0 <= k < cursor.predicate ==> #[trigger] ps[k] < start,
            decreases bs.len() - cursor.boundary,
        {
            assert(bs[cursor.boundary as int] == self.boundaries@[cursor.boundary as int]);
            cursor.boundary = cursor.boundary + 1;
        }
        proof {
            if cursor.boundary < bs.len() {
                assert(bs[cursor.boundary as int] == self.boundaries@[cursor.boundary as int] as int);
            }
        }
        while cursor.predicate < self.predicates.len() && self.predicates[cursor.predicate] < start
            invariant
                self.describes(sentence, s),
                ps == predicate_positions(s, s.len() as int),
                positions(self.predicates@) == ps,
                bs == boundary_positions(s, s.len() as int),
                positions(self.boundaries@) == bs,
                cursor.boundary < bs.len() ==> bs[cursor.boundary as int] >= start,
                cursor.boundary <= bs.len(),
                forall|k: int| 0 <= k < cursor.boundary ==> #[trigger] bs[k] < start,
                cursor.predicate <= ps.len(),
                forall|k: int| 0 <= k < cursor.predicate ==> #[trigger] ps[k] < start,
            decreases ps.len() - cursor.predicate,
        {
            assert(ps[cursor.predicate as int] == self.predicates@[cursor.predicate as int]);
            cursor.predicate = cursor.predicate + 1;
        }
        proof {
            lemma_first_at_least_skip(bs, start as int, s.len() as int, cursor.boundary as int);
            lemma_first_at_least_skip(ps, start as int, s.len() as int, cursor.predicate as int);
            if cursor.boundary < bs.len() {
                assert(bs[cursor.boundary as int] == self.boundaries@[cursor.boundary as int]);
                assert(bs.skip(cursor.boundary as int)[0] == bs[cursor.boundary as int]);
            } else {
                assert(bs.skip(cursor.boundary as int) =~= Seq::<int>::empty());
            }
            if cursor.predicate < ps.len() {
                assert(ps[cursor.predicate as int] == self.predicates@[cursor.predicate as int]);
                assert(ps.skip(cursor.predicate as int)[0] == ps[cursor.predicate as int]);
            } else {
                assert(ps.skip(cursor.predicate as int) =~= Seq::<int>::empty());
            }
        }
        proof {
            let c = cursor.boundary as int;
            let d = cursor.predicate as int;
            assert(bs.len() == self.boundaries@.len());
            if c < bs.len() {
                assert(bs[c] == self.boundaries@[c] as int);
                assert(bs[c] >= start);
                assert(bs.skip(c).len() > 0);
                assert(bs.skip(c)[0] >= start);
                assert(first_at_least(bs.skip(c), start as int, s.len() as int) == bs.skip(c)[0]);
                assert(first_at_least(bs, start as int, s.len() as int) == first_at_least(bs.skip(c), start as int, s.len() as int));
            }
            assert(first_at_least(bs, start as int, s.len() as int) == if c < bs.len() { bs[c] } else { s.len() as int });
            assert(first_at_least(ps, start as int, s.len() as int) == if d < ps.len() { ps[d] } else { s.len() as int });
        }
        let punctuation = if cursor.boundary < self.boundaries.len() {
            self.boundaries[cursor.boundary]
        } else {
            self.len
        };
        if cursor.predicate < self.predicates.len() && self.predicates[cursor.predicate] < punctuation {
            self.predicates[cursor.predicate]
        } else {
            punctuation
        }
    }

    /// Where a capture that ends at `end` starts: just after the last boundary
    /// before it, or at the sentence start. Calls must come with
    /// nondecreasing ends.
    pub fn start_before(&self, end: usize, cursor: &mut BoundaryCursor, Ghost(sentence): Ghost<SentenceUnit>, Ghost(s): Ghost<Seq<char>>) -> (start: usize)
        requires
            self.describes(sentence, s),
            end <= s.len(),
            old(cursor).at <= boundary_positions(s, s.len() as int).len(),
            forall|k: int| 0 <= k < old(cursor).at ==> #[trigger] boundary_positions(s, s.len() as int)[k] < end,
        ensures
            start == spec_start_before(s, end as int),
            start <= end,
            final(cursor).at <= boundary_positions(s, s.len() as int).len(),
            forall|k: int| 0 <= k < final(cursor).at ==> #[trigger] boundary_positions(s, s.len() as int)[k] < end,
    {
        let ghost bs = boundary_positions(s, s.len() as int);
        proof {
            lemma_boundary_positions(s, s.len() as int);
        }
        while cursor.at < self.boundaries.len() && self.boundaries[cursor.at] < end
            invariant
                self.describes(sentence, s),
                bs == boundary_positions(s, s.len() as int),
                positions(self.boundaries@) == bs,
                increasing_below(bs, s.len() as int),
                cursor.at <= bs.len(),
                forall|k: int| 0 <= k < cursor.at ==> #[trigger] bs[k] < end,
            decreases bs.len() - cursor.at,
        {
            assert(bs[cursor.at as int] == self.boundaries@[cursor.at as int]);
            cursor.at = cursor.at + 1;
        }
        proof {
            if cursor.at < bs.len() {
                assert(bs[cursor.at as int] == self.boundaries@[cursor.at as int]);
            }
            assert forall|k: int| cursor.at <= k < bs.len() implies #[trigger] bs[k] >= end by {
                if k > cursor.at {
                    assert(bs[cursor.at as int] < bs[k]);
                }
            }
            lemma_last_end_before_take(bs, end as int, cursor.at as int);
            if cursor.at > 0 {
                let t = bs.take(cursor.at as int);
                assert(t.last() == bs[cursor.at - 1]);
            } else {
                assert(bs.take(0) =~= Seq::<int>::empty());
            }
        }
        if cursor.at > 0 {
            assert(self.boundaries@[cursor.at - 1] == bs[cursor.at - 1]);
            self.boundaries[cursor.at - 1] + 1
        } else {
            0
        }
    }

    /// The range `lo..hi` without leading and trailing whitespace, unless
    /// nothing is left.
    pub fn trimmed(&self, lo: usize, hi: usize, Ghost(sentence): Ghost<SentenceUnit>, Ghost(s): Ghost<Seq<char>>) -> (r: Option<(usize, usize)>)
        requires
            self.describes(sentence, s),
            lo <= hi <= s.len(),
        ensures
            r == spec_trimmed(s, lo as int, hi as int),
            r matches Some(t) ==> lo <= t.0 < t.1 <= hi,
    {
        let start = self.next_non_whitespace[lo];
        let end = self.previous_non_whitespace_end[hi];
        proof {
            lemma_skip_ws(s, lo as int, s.len() as int);
            lemma_trim_end(s, 0, hi as int);
        }
        if start < end && end <= hi {
            proof {
                lemma_trim_ge(s, lo as int, hi as int);
            }
            Some((start, end))
        } else {
            None
        }
    }

    /// How many counted tokens overlap the byte range `lo..hi`, when the counts allow it.
    pub fn token_count(&self, lo: usize, hi: usize, Ghost(sentence): Ghost<SentenceUnit>, Ghost(s): Ghost<Seq<char>>) -> (r: Option<usize>)
        requires
            self.describes(sentence, s),
            lo <= hi <= byte_len(s),
        ensures
            r == spec_token_count(sentence, lo as int, hi as int),
    {
        let starts = self.token_starts_before[hi];
        let ends = self.token_ends_through[lo];
        if starts >= ends {
            Some(starts - ends)
        } else {
            None
        }
    }

    /// Bytes of text read while the index was built.
    pub fn scanned_bytes(&self) -> (r: u128)
        ensures
            r == self.spec_scanned(),
    {
        self.scanned
    }
}

/// The trimmed range `lo..hi`, when it holds a non-whitespace character.
pub open spec fn spec_trimmed(s: Seq<char>, lo: int, hi: int) -> Option<(usize, usize)> {
    let start = skip_ws(s, lo, s.len() as int);
    let end = trim_end(s, 0, hi);
    if start < end && end <= hi {
        Some((start as usize, end as usize))
    } else {
        None
    }
}

/// Tokens that start before `hi` less those that end by `lo`, when not negative.
pub open spec fn spec_token_count(sentence: SentenceUnit, lo: int, hi: int) -> Option<usize> {
    let starts = starting_before(sentence, sentence.tokens@, hi);
    let ends = ending_through(sentence, sentence.tokens@, lo);
    if starts >= ends {
        Some((starts - ends) as usize)
    } else {
        None
    }
}

proof fn lemma_trim_ge(s: Seq<char>, lo: int, hi: int)
    requires
        0 <= lo <= hi <= s.len(),
        skip_ws(s, lo, s.len() as int) < trim_end(s, 0, hi),
    ensures
        lo <= skip_ws(s, lo, s.len() as int),
{
    lemma_skip_ws(s, lo, s.len() as int);
}

/// Whether a definition predicate starts at index `p`.
fn predicate_at(s: &Vec<char>, p: usize) -> (r: bool)
    requires
        p < s.len(),
    ensures
        r == is_predicate_at(s@, p as int),
{
    occurs(s, p, " 是") || occurs(s, p, "是指") || occurs(s, p, "指的是") || occurs(s, p, "定义为")
}

/// Whether `w` occurs in `s` at index `p`.
pub fn occurs(s: &Vec<char>, p: usize, w: &str) -> (r: bool)
    ensures
        r == occurs_at(s@, p as int, w@),
{
    let wc = chars_of(w);
    if p > s.len() || wc.len() > s.len() - p {
        return false;
    }
    let mut i: usize = 0;
    while i < wc.len()
        invariant
            wc@ == w@,
            p + wc.len() <= s.len(),
            i <= wc.len(),
            forall|k: int| 0 <= k < i ==> s@[p + k] == wc@[k],
        decreases wc.len() - i,
    {
        if s[p + i] != wc[i] {
            assert(s@.subrange(p as int, p + wc.len())[i as int] != w@[i as int]);
            return false;
        }
        i = i + 1;
    }
    assert(s@.subrange(p as int, p + wc.len()) =~= w@);
    true
}

} // verus!
