//! Occurrences of lexicon terms in a document's logical text.
use crate::latex::span::LocatedRange;
use crate::text::lexicon::{
    fold, is_blank, key_of, owner, scanned, spec_lookup, surfaces, writes_key, LexemeKind, LexemeSource,
    LexemeView, Lexicon, ScanKey,
};
use crate::text::unicode::{
    ascii_lower, byte_offsets, byte_pos, chars_of, is_ascii_alnum, str_eq, string_of,
};
use vstd::prelude::*;

verus! {

/// One lexicon-resolved term occurrence in the document.
#[derive(Debug, PartialEq, Eq)]
pub struct LexiconOccurrence {
    /// The surface actually appearing in the text.
    pub surface: String,
    /// The canonical form of the matched lexeme.
    pub canonical: String,
    pub kind: LexemeKind,
    pub source: LexemeSource,
    /// Whether the lexeme matched this surface with case sensitivity.
    pub case_sensitive: bool,
    /// Whether the lexeme marks terms that must be explained on first use.
    pub requires_explanation: bool,
    pub location: LocatedRange,
}

/// The value of an occurrence.
#[verifier::ext_equal]
pub struct OccurrenceView {
    pub surface: Seq<char>,
    pub canonical: Seq<char>,
    pub kind: LexemeKind,
    pub source: LexemeSource,
    pub case_sensitive: bool,
    pub requires_explanation: bool,
    pub location: LocatedRange,
}

impl View for LexiconOccurrence {
    type V = OccurrenceView;

    open spec fn view(&self) -> OccurrenceView {
        OccurrenceView {
            surface: self.surface@,
            canonical: self.canonical@,
            kind: self.kind,
            source: self.source,
            case_sensitive: self.case_sensitive,
            requires_explanation: self.requires_explanation,
            location: self.location,
        }
    }
}

impl Clone for LexiconOccurrence {
    fn clone(&self) -> (r: Self)
        ensures
            r@ == self@,
    {
        LexiconOccurrence {
            surface: self.surface.clone(),
            canonical: self.canonical.clone(),
            kind: self.kind,
            source: self.source,
            case_sensitive: self.case_sensitive,
            requires_explanation: self.requires_explanation,
            location: self.location.copy(),
        }
    }
}

/// An ASCII identifier character, which a match may not touch on either side.
pub open spec fn is_ident(c: char) -> bool {
    is_ascii_alnum(c) || c == '_'
}

/// The characters `i..j` stand apart from identifier characters around them.
pub open spec fn bounded(s: Seq<char>, i: int, j: int) -> bool {
    (i == 0 || !is_ident(s[i - 1])) && (j >= s.len() || !is_ident(s[j]))
}

/// The occurrence at characters `i..j` of a block: a bounded window whose
/// text the lexicon resolves.
pub open spec fn occurrence_at(ls: Seq<LexemeView>, s: Seq<char>, block: usize, i: int, j: int) -> Option<
    OccurrenceView,
> {
    if 0 <= i < j <= s.len() && bounded(s, i, j) {
        match spec_lookup(ls, s.subrange(i, j)) {
            Some(l) => Some(
                OccurrenceView {
                    surface: s.subrange(i, j),
                    canonical: l.canonical,
                    kind: l.kind,
                    source: l.source,
                    case_sensitive: l.case_sensitive,
                    requires_explanation: l.requires_explanation,
                    location: LocatedRange {
                        block,
                        range: (byte_pos(s, i) as usize)..(byte_pos(s, j) as usize),
                    },
                },
            ),
            None => None,
        }
    } else {
        None
    }
}

pub open spec fn opt_seq<A>(o: Option<A>) -> Seq<A> {
    match o {
        Some(a) => seq![a],
        None => Seq::empty(),
    }
}

/// The occurrences starting at character `i` and ending at or before `j`,
/// shortest first.
pub open spec fn occurrences_from(ls: Seq<LexemeView>, s: Seq<char>, block: usize, i: int, j: int) -> Seq<
    OccurrenceView,
>
    decreases j - i,
{
    if j <= i {
        Seq::empty()
    } else {
        occurrences_from(ls, s, block, i, j - 1) + opt_seq(occurrence_at(ls, s, block, i, j))
    }
}

/// The occurrences starting before character `n`, by start and then by end.
pub open spec fn occurrences_before(ls: Seq<LexemeView>, s: Seq<char>, block: usize, n: int) -> Seq<
    OccurrenceView,
>
    decreases n,
{
    if n <= 0 {
        Seq::empty()
    } else {
        occurrences_before(ls, s, block, n - 1) + occurrences_from(ls, s, block, n - 1, s.len() as int)
    }
}

/// Every lexicon occurrence of a block's text, in reading order.
pub open spec fn block_occurrences(ls: Seq<LexemeView>, s: Seq<char>, block: usize) -> Seq<OccurrenceView> {
    occurrences_before(ls, s, block, s.len() as int)
}

/// Every occurrence found from character `i` lies in the block and starts at `i`.
proof fn lemma_occurrences_from_start(ls: Seq<LexemeView>, s: Seq<char>, block: usize, i: int, j: int)
    ensures
        forall|k: int|
            0 <= k < occurrences_from(ls, s, block, i, j).len() ==> (#[trigger] occurrences_from(
                ls,
                s,
                block,
                i,
                j,
            )[k]).location.block == block && occurrences_from(ls, s, block, i, j)[k].location.range.start
                == byte_pos(s, i) as usize,
    decreases j - i,
{
    if j > i {
        lemma_occurrences_from_start(ls, s, block, i, j - 1);
        let prev = occurrences_from(ls, s, block, i, j - 1);
        let all = occurrences_from(ls, s, block, i, j);
        assert forall|k: int| 0 <= k < all.len() implies (#[trigger] all[k]).location.block == block
            && all[k].location.range.start == byte_pos(s, i) as usize by {
            if k < prev.len() {
                assert(all[k] == prev[k]);
            }
        }
    }
}

/// The occurrences starting before character `n` lie in the block and
/// come by their start byte, none starting after character `n - 1`.
proof fn lemma_occurrences_before_ordered(ls: Seq<LexemeView>, s: Seq<char>, block: usize, n: int)
    requires
        0 <= n <= s.len(),
        crate::text::unicode::byte_len(s) <= usize::MAX,
    ensures
        forall|k: int|
            0 <= k < occurrences_before(ls, s, block, n).len() ==> (#[trigger] occurrences_before(
                ls,
                s,
                block,
                n,
            )[k]).location.block == block && occurrences_before(ls, s, block, n)[k].location.range.start
                <= byte_pos(s, n - 1),
        forall|a: int, b: int|
            0 <= a < b < occurrences_before(ls, s, block, n).len() ==> (#[trigger] occurrences_before(
                ls,
                s,
                block,
                n,
            )[a]).location.range.start <= (#[trigger] occurrences_before(ls, s, block, n)[b]).location.range.start,
    decreases n,
{
    if n > 0 {
        lemma_occurrences_before_ordered(ls, s, block, n - 1);
        lemma_occurrences_from_start(ls, s, block, n - 1, s.len() as int);
        crate::text::unicode::lemma_byte_pos_le_len(s, n - 1);
        if n > 1 {
            crate::text::unicode::lemma_byte_pos_mono(s, n - 2, n - 1);
        }
        let prev = occurrences_before(ls, s, block, n - 1);
        let here = occurrences_from(ls, s, block, n - 1, s.len() as int);
        let all = occurrences_before(ls, s, block, n);
        assert(all == prev + here);
        assert forall|k: int| 0 <= k < all.len() implies (#[trigger] all[k]).location.block == block
            && all[k].location.range.start <= byte_pos(s, n - 1) by {
            if k < prev.len() {
                assert(all[k] == prev[k]);
            } else {
                assert(all[k] == here[k - prev.len()]);
            }
        }
        assert forall|a: int, b: int| 0 <= a < b < all.len() implies (#[trigger] all[a]).location.range.start
            <= (#[trigger] all[b]).location.range.start by {
            if b < prev.len() {
                assert(all[a] == prev[a] && all[b] == prev[b]);
            } else if a < prev.len() {
                assert(all[a] == prev[a] && all[b] == here[b - prev.len()]);
            } else {
                assert(all[a] == here[a - prev.len()] && all[b] == here[b - prev.len()]);
            }
        }
    }
}

/// The occurrences of a block lie in it and come by their start byte.
pub proof fn lemma_block_occurrences_ordered(ls: Seq<LexemeView>, s: Seq<char>, block: usize)
    requires
        crate::text::unicode::byte_len(s) <= usize::MAX,
    ensures
        forall|k: int|
            0 <= k < block_occurrences(ls, s, block).len() ==> (#[trigger] block_occurrences(ls, s, block)[k]).location.block
                == block,
        forall|a: int, b: int|
            0 <= a < b < block_occurrences(ls, s, block).len() ==> (#[trigger] block_occurrences(
                ls,
                s,
                block,
            )[a]).location.range.start <= (#[trigger] block_occurrences(ls, s, block)[b]).location.range.start,
{
    lemma_occurrences_before_ordered(ls, s, block, s.len() as int);
}

/// A window the lexicon resolves is one of the scan keys, exact or folded.
proof fn lemma_resolved_is_scanned(ls: Seq<LexemeView>, keys: Seq<ScanKey>, w: Seq<char>)
    requires
        spec_lookup(ls, w) is Some,
        forall|j: int, k: int|
            0 <= j < ls.len() && 0 <= k < surfaces(ls[j]).len() && !is_blank(surfaces(ls[j])[k])
                ==> #[trigger] crate::text::lexicon::surface_scanned(keys, ls[j], surfaces(ls[j])[k]),
    ensures
        scanned(keys, w, false) || scanned(keys, fold(w), true),
{
    crate::text::lexicon::lemma_owner_bounds(ls, w, true);
    crate::text::lexicon::lemma_owner_bounds(ls, fold(w), false);
    match owner(ls, w, true) {
        Some(o) => {
            let k = choose|k: int|
                0 <= k < surfaces(ls[o]).len() && !is_blank(surfaces(ls[o])[k]) && #[trigger] key_of(
                    ls[o],
                    surfaces(ls[o])[k],
                ) == w;
            assert(crate::text::lexicon::surface_scanned(keys, ls[o], surfaces(ls[o])[k]));
        },
        None => {
            let o = owner(ls, fold(w), false).unwrap();
            let k = choose|k: int|
                0 <= k < surfaces(ls[o]).len() && !is_blank(surfaces(ls[o])[k]) && #[trigger] key_of(
                    ls[o],
                    surfaces(ls[o])[k],
                ) == fold(w);
            assert(crate::text::lexicon::surface_scanned(keys, ls[o], surfaces(ls[o])[k]));
        },
    }
}

/// Whether the needle occurs in `t` at character `i`.
pub(crate) fn matches_at(t: &Vec<char>, i: usize, needle: &Vec<char>) -> (r: bool)
    requires
        i <= t@.len(),
    ensures
        r == (i + needle@.len() <= t@.len() && t@.subrange(i as int, i + needle@.len()) == needle@),
{
    if needle.len() > t.len() - i {
        return false;
    }
    let mut k: usize = 0;
    while k < needle.len()
        invariant
            k <= needle@.len(),
            i + needle@.len() <= t@.len(),
            i + needle.len() <= t.len(),
            forall|m: int| 0 <= m < k ==> t@[i + m] == needle@[m],
        decreases needle@.len() - k,
    {
        if t[i + k] != needle[k] {
            assert(t@.subrange(i as int, i + needle@.len())[k as int] != needle@[k as int]);
            return false;
        }
        k = k + 1;
    }
    assert(t@.subrange(i as int, i + needle@.len()) =~= needle@);
    true
}

fn ident(c: char) -> (r: bool)
    ensures
        r == is_ident(c),
{
    is_ascii_alnum(c) || c == '_'
}

/// The lexicon occurrences of one block's text, in reading order: every
/// window that stands apart from identifier characters and that the
/// lexicon resolves, located by its byte range.
pub fn collect_block_occurrences(lexicon: &Lexicon, text: &str, block: usize) -> (r: Vec<LexiconOccurrence>)
    ensures
        crate::order::views(r@) == block_occurrences(lexicon@, text@, block),
{
    let ghost ls = lexicon@;
    let s = chars_of(text);
    let offsets = byte_offsets(&s);
    let n = s.len();
    let mut folded: Vec<char> = Vec::new();
    let mut p: usize = 0;
    while p < n
        invariant
            p <= n,
            n == s@.len(),
            folded@ == fold(s@.take(p as int)),
        decreases n - p,
    {
        folded.push(ascii_lower(s[p]));
        assert(fold(s@.take(p + 1)) =~= fold(s@.take(p as int)).push(ascii_lower(s@[p as int])));
        p = p + 1;
    }
    assert(s@.take(n as int) =~= s@);
    let keys = lexicon.scan_keys();
    let mut needles: Vec<Vec<char>> = Vec::new();
    let mut longest: usize = 0;
    let mut q: usize = 0;
    while q < keys.len()
        invariant
            q <= keys@.len(),
            needles@.len() == q,
            forall|m: int| 0 <= m < q ==> (#[trigger] needles@[m])@ == keys@[m].needle@,
            forall|m: int| 0 <= m < q ==> (#[trigger] needles@[m])@.len() <= longest,
        decreases keys@.len() - q,
    {
        let c = chars_of(keys[q].needle.as_str());
        if c.len() > longest {
            longest = c.len();
        }
        needles.push(c);
        q = q + 1;
    }
    let mut out: Vec<LexiconOccurrence> = Vec::new();
    let mut i: usize = 0;
    while i < n
        invariant
            i <= n,
            n == s@.len(),
            s@ == text@,
            ls == lexicon@,
            folded@ == fold(s@),
            offsets@.len() == n + 1,
            forall|k: int| 0 <= k <= n ==> offsets@[k] == byte_pos(s@, k),
            needles@.len() == keys@.len(),
            forall|m: int| 0 <= m < keys@.len() ==> (#[trigger] needles@[m])@ == keys@[m].needle@,
            forall|m: int| 0 <= m < keys@.len() ==> (#[trigger] needles@[m])@.len() <= longest,
            forall|j: int, k: int|
                0 <= j < ls.len() && 0 <= k < surfaces(ls[j]).len() && !is_blank(surfaces(ls[j])[k])
                    ==> #[trigger] crate::text::lexicon::surface_scanned(keys@, ls[j], surfaces(ls[j])[k]),
            crate::order::views(out@) == occurrences_before(ls, s@, block, i as int),
        decreases n - i,
    {
        // hit[len - 1]: some key of `len` characters matches at `i`.
        let mut hit: Vec<bool> = Vec::new();
        let mut h: usize = 0;
        while h < longest
            invariant
                h <= longest,
                hit@.len() == h,
                forall|m: int| 0 <= m < h ==> !hit@[m],
            decreases longest - h,
        {
            hit.push(false);
            h = h + 1;
        }
        let mut q: usize = 0;
        while q < keys.len()
            invariant
                i < n,
                n == s@.len(),
                folded@ == fold(s@),
                q <= keys@.len(),
                hit@.len() == longest,
                needles@.len() == keys@.len(),
                forall|m: int| 0 <= m < keys@.len() ==> (#[trigger] needles@[m])@ == keys@[m].needle@,
                forall|m: int| 0 <= m < keys@.len() ==> (#[trigger] needles@[m])@.len() <= longest,
                forall|m: int|
                    0 <= m < q && 1 <= keys@[m].needle@.len() && i + keys@[m].needle@.len() <= n && (if keys@[m].folded {
                        folded@
                    } else {
                        s@
                    }).subrange(i as int, i + keys@[m].needle@.len()) == keys@[m].needle@
                        ==> #[trigger] hit@[keys@[m].needle@.len() - 1],
            decreases keys@.len() - q,
        {
            let ghost hit0 = hit@;
            let needle = &needles[q];
            assert(needle@ == keys@[q as int].needle@);
            let found = if keys[q].folded {
                matches_at(&folded, i, needle)
            } else {
                matches_at(&s, i, needle)
            };
            if found && needle.len() >= 1 {
                let ghost before = hit@;
                hit.set(needle.len() - 1, true);
                assert(forall|x: int| 0 <= x < before.len() && before[x] ==> hit@[x]);
            }
            proof {
                let t = if keys@[q as int].folded { folded@ } else { s@ };
                let kq = keys@[q as int].needle@;
                assert(found == (i + kq.len() <= t.len() && t.subrange(i as int, i + kq.len()) == kq));
                assert(needles@[q as int]@.len() <= longest);
                assert forall|m: int|
                    0 <= m < q + 1 && 1 <= keys@[m].needle@.len() && i + keys@[m].needle@.len() <= n && (if keys@[m].folded {
                        folded@
                    } else {
                        s@
                    }).subrange(i as int, i + keys@[m].needle@.len()) == keys@[m].needle@
                    implies #[trigger] hit@[keys@[m].needle@.len() - 1] by {
                    assert(needles@[m]@.len() <= longest);
                    if m < q {
                        assert(hit0[keys@[m].needle@.len() - 1]);
                    }
                }
            }
            q = q + 1;
        }
        let ghost before_i = crate::order::views(out@);
        let mut len: usize = 0;
        while len < longest && len < n - i
            invariant
                i < n,
                i + len <= n,
                n == s@.len(),
                s@ == text@,
                ls == lexicon@,
                folded@ == fold(s@),
                hit@.len() == longest,
                offsets@.len() == n + 1,
                forall|k: int| 0 <= k <= n ==> offsets@[k] == byte_pos(s@, k),
                forall|m: int| 0 <= m < keys@.len() ==> (#[trigger] needles@[m])@ == keys@[m].needle@,
                forall|m: int|
                    0 <= m < keys@.len() && 1 <= keys@[m].needle@.len() && i + keys@[m].needle@.len() <= n && (if keys@[m].folded {
                        folded@
                    } else {
                        s@
                    }).subrange(i as int, i + keys@[m].needle@.len()) == keys@[m].needle@
                        ==> #[trigger] hit@[keys@[m].needle@.len() - 1],
                forall|j: int, k: int|
                    0 <= j < ls.len() && 0 <= k < surfaces(ls[j]).len() && !is_blank(surfaces(ls[j])[k])
                        ==> #[trigger] crate::text::lexicon::surface_scanned(keys@, ls[j], surfaces(ls[j])[k]),
                crate::order::views(out@) == before_i + occurrences_from(ls, s@, block, i as int, i + len),
            decreases longest - len,
        {
            let j = i + len + 1;
            let ghost w = s@.subrange(i as int, j as int);
            proof {
                if spec_lookup(ls, w) is Some {
                    lemma_resolved_is_scanned(ls, keys@, w);
                    assert(fold(s@).subrange(i as int, j as int) =~= fold(w));
                    if scanned(keys@, w, false) {
                        let m = choose|m: int| 0 <= m < keys@.len() && (#[trigger] keys@[m]).needle@ == w && keys@[m].folded == false;
                        assert(hit@[keys@[m].needle@.len() - 1]);
                    } else {
                        let m = choose|m: int| 0 <= m < keys@.len() && (#[trigger] keys@[m]).needle@ == fold(w) && keys@[m].folded == true;
                        assert(hit@[keys@[m].needle@.len() - 1]);
                    }
                }
            }
            let ghost prev = crate::order::views(out@);
            if hit[len] && (i == 0 || !ident(s[i - 1])) && (j >= n || !ident(s[j])) {
                let surface = string_of(&s, i, j);
                match lexicon.lookup(surface.as_str()) {
                    Some(l) => {
                        let o = LexiconOccurrence {
                            surface,
                            canonical: l.canonical.clone(),
                            kind: l.kind,
                            source: l.source,
                            case_sensitive: l.case_sensitive,
                            requires_explanation: l.requires_explanation,
                            location: LocatedRange { block, range: offsets[i]..offsets[j] },
                        };
                        assert(occurrence_at(ls, s@, block, i as int, j as int) == Some(o@));
                        let ghost before_push = out@;
                        out.push(o);
                        proof {
                            crate::order::lemma_views_push(before_push, o);
                        }
                    },
                    None => {},
                }
            }
            proof {
                let t = occurrence_at(ls, s@, block, i as int, j as int);
                assert(crate::order::views(out@) =~= prev + opt_seq(t));
                assert(occurrences_from(ls, s@, block, i as int, j as int) == occurrences_from(
                    ls,
                    s@,
                    block,
                    i as int,
                    j - 1,
                ) + opt_seq(t));
                assert(before_i + occurrences_from(ls, s@, block, i as int, j as int) =~= before_i
                    + occurrences_from(ls, s@, block, i as int, j - 1) + opt_seq(t));
            }
            len = len + 1;
        }
        proof {
            let last = (i + len) as int;
            assert forall|t: int| last < t <= n implies occurrence_at(ls, s@, block, i as int, t) is None by {
                let w = s@.subrange(i as int, t);
                if spec_lookup(ls, w) is Some {
                    lemma_resolved_is_scanned(ls, keys@, w);
                    if scanned(keys@, w, false) {
                        let m = choose|m: int| 0 <= m < keys@.len() && (#[trigger] keys@[m]).needle@ == w && keys@[m].folded == false;
                        assert(needles@[m]@.len() <= longest);
                    } else {
                        let m = choose|m: int| 0 <= m < keys@.len() && (#[trigger] keys@[m]).needle@ == fold(w) && keys@[m].folded == true;
                        assert(needles@[m]@.len() <= longest);
                    }
                }
            }
            lemma_from_unchanged(ls, s@, block, i as int, last, n as int);
            assert(crate::order::views(out@) =~= occurrences_before(ls, s@, block, i + 1));
        }
        i = i + 1;
    }
    out
}

proof fn lemma_from_unchanged(ls: Seq<LexemeView>, s: Seq<char>, block: usize, i: int, k: int, j: int)
    requires
        i <= k <= j,
        forall|t: int| k < t <= j ==> occurrence_at(ls, s, block, i, t) is None,
    ensures
        occurrences_from(ls, s, block, i, j) == occurrences_from(ls, s, block, i, k),
    decreases j - k,
{
    if j > k {
        lemma_from_unchanged(ls, s, block, i, k, j - 1);
        assert(occurrences_from(ls, s, block, i, j) =~= occurrences_from(ls, s, block, i, j - 1));
    }
}

} // verus!
