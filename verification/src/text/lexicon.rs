//! Shared term lexicon for semantic lint rules.
//!
//! The lexicon merges three layers, later layers overriding earlier ones per
//! canonical form: built-in entries, workspace config entries, and acronyms
//! stacked from `ACR001.ignore` so the legacy ignore list keeps working.
//! Rules resolve surfaces through [`Lexicon::lookup`] instead of re-deriving
//! term knowledge on their own.
//!
//! # Surface attribution (freeze policy)
//!
//! - Blank surfaces (empty or whitespace only) never become keys, so an empty
//!   needle can never reach occurrence scanning.
//! - Case-sensitive lexemes register exact keys, case-insensitive ones
//!   register ASCII-folded keys. [`Lexicon::lookup`] tries exact keys first,
//!   so an exact key shadows a folded key over the same letters.
//! - When two lexemes claim the same key, the lexeme inserted later wins:
//!   workspace entries override built-ins, and within the workspace the last
//!   entry in config order wins.
use crate::config::{LexiconEntryConfig, PaperlintConfig};
use crate::config::defaults::texts;
use crate::text::unicode::{ascii_lower, chars_of, is_whitespace, push_char, str_eq};
use vstd::prelude::*;

verus! {

/// The semantic class of a lexeme.
#[derive(Debug, Clone, Copy, PartialEq, Eq, Hash, Structural)]
pub enum LexemeKind {
    Common,
    Term,
    Acronym,
    ProperNoun,
    Unit,
    Symbol,
}

impl LexemeKind {
    /// Whether surface matching for this kind keeps letter case by default.
    #[verifier::allow_in_spec]
    pub fn default_case_sensitive(self) -> bool
        returns
            match self {
                LexemeKind::Common | LexemeKind::Term => false,
                _ => true,
            },
    {
        match self {
            LexemeKind::Common | LexemeKind::Term => false,
            LexemeKind::Acronym | LexemeKind::ProperNoun | LexemeKind::Unit | LexemeKind::Symbol => true,
        }
    }
}

/// Which layer a lexeme came from.
#[derive(Debug, Clone, Copy, PartialEq, Eq, Hash, Structural)]
pub enum LexemeSource {
    /// Ships with paperlint.
    Builtin,
    /// Declared in workspace config.
    Workspace,
    /// Stacked from `ACR001.ignore` for backward compatibility.
    AcronymIgnore,
}

/// One entry of the shared lexicon.
#[derive(Debug, PartialEq, Eq, Hash)]
pub struct Lexeme {
    /// Canonical spelling used as the entry identity.
    pub canonical: String,
    /// Additional surfaces resolving to this lexeme.
    pub aliases: Vec<String>,
    pub kind: LexemeKind,
    pub source: LexemeSource,
    pub case_sensitive: bool,
    pub requires_explanation: bool,
}

/// The value of a lexeme.
#[verifier::ext_equal]
pub struct LexemeView {
    pub canonical: Seq<char>,
    pub aliases: Seq<Seq<char>>,
    pub kind: LexemeKind,
    pub source: LexemeSource,
    pub case_sensitive: bool,
    pub requires_explanation: bool,
}

impl View for Lexeme {
    type V = LexemeView;

    open spec fn view(&self) -> LexemeView {
        LexemeView {
            canonical: self.canonical@,
            aliases: texts(self.aliases@),
            kind: self.kind,
            source: self.source,
            case_sensitive: self.case_sensitive,
            requires_explanation: self.requires_explanation,
        }
    }
}

fn copy_strings(v: &Vec<String>) -> (r: Vec<String>)
    ensures
        r@ == v@,
{
    let mut r: Vec<String> = Vec::new();
    let mut i: usize = 0;
    while i < v.len()
        invariant
            i <= v.len(),
            r@ == v@.take(i as int),
        decreases v.len() - i,
    {
        r.push(v[i].clone());
        assert(v@.take(i + 1) =~= v@.take(i as int).push(v@[i as int]));
        i = i + 1;
    }
    assert(v@.take(i as int) =~= v@);
    r
}

impl Clone for Lexeme {
    fn clone(&self) -> (r: Self)
        ensures
            r@ == self@,
    {
        Lexeme {
            canonical: self.canonical.clone(),
            aliases: copy_strings(&self.aliases),
            kind: self.kind,
            source: self.source,
            case_sensitive: self.case_sensitive,
            requires_explanation: self.requires_explanation,
        }
    }
}

impl Lexeme {
    /// A workspace lexeme made from its config entry; an unset case
    /// sensitivity takes the kind's default.
    pub fn from_entry(entry: &LexiconEntryConfig) -> (l: Self)
        ensures
            l@ == (LexemeView {
                canonical: entry.canonical@,
                aliases: texts(entry.aliases@),
                kind: entry.kind,
                source: LexemeSource::Workspace,
                case_sensitive: match entry.case_sensitive {
                    Some(b) => b,
                    None => entry.kind.default_case_sensitive(),
                },
                requires_explanation: entry.requires_explanation,
            }),
    {
        Lexeme {
            canonical: entry.canonical.clone(),
            aliases: copy_strings(&entry.aliases),
            kind: entry.kind,
            source: LexemeSource::Workspace,
            case_sensitive: match entry.case_sensitive {
                Some(b) => b,
                None => entry.kind.default_case_sensitive(),
            },
            requires_explanation: entry.requires_explanation,
        }
    }
}

/// Empty or whitespace only.
pub open spec fn is_blank(s: Seq<char>) -> bool {
    forall|i: int| 0 <= i < s.len() ==> is_whitespace(#[trigger] s[i])
}

/// ASCII lowercase of every character.
pub open spec fn fold(s: Seq<char>) -> Seq<char> {
    s.map_values(|c: char| ascii_lower(c))
}

/// The surfaces of a lexeme: its canonical form, then its aliases.
pub open spec fn surfaces(l: LexemeView) -> Seq<Seq<char>> {
    seq![l.canonical] + l.aliases
}

/// The key a surface registers: itself for case-sensitive lexemes, its
/// ASCII-folded form otherwise.
pub open spec fn key_of(l: LexemeView, surface: Seq<char>) -> Seq<char> {
    if l.case_sensitive {
        surface
    } else {
        fold(surface)
    }
}

/// Some non-blank surface of the lexeme registers `key`.
pub open spec fn writes_key(l: LexemeView, key: Seq<char>) -> bool {
    exists|i: int|
        0 <= i < surfaces(l).len() && !is_blank(surfaces(l)[i]) && #[trigger] key_of(
            l,
            surfaces(l)[i],
        ) == key
}

/// The index of the lexeme owning `key` in the exact (case-sensitive) or the
/// folded index: the last one, in order, that registers it.
pub open spec fn owner(ls: Seq<LexemeView>, key: Seq<char>, case_sensitive: bool) -> Option<int>
    decreases ls.len(),
{
    if ls.len() == 0 {
        None
    } else if ls.last().case_sensitive == case_sensitive && writes_key(ls.last(), key) {
        Some(ls.len() - 1)
    } else {
        owner(ls.drop_last(), key, case_sensitive)
    }
}

/// What a lookup finds: the owner of the exact key, or else the owner of the
/// folded key.
pub open spec fn spec_lookup(ls: Seq<LexemeView>, surface: Seq<char>) -> Option<LexemeView> {
    match owner(ls, surface, true) {
        Some(i) => Some(ls[i]),
        None => match owner(ls, fold(surface), false) {
            Some(i) => Some(ls[i]),
            None => None,
        },
    }
}

pub proof fn lemma_owner_bounds(ls: Seq<LexemeView>, key: Seq<char>, case_sensitive: bool)
    ensures
        owner(ls, key, case_sensitive) matches Some(i) ==> 0 <= i < ls.len()
            && ls[i].case_sensitive == case_sensitive && writes_key(ls[i], key),
        owner(ls, key, case_sensitive) matches Some(i) ==> forall|j: int|
            i < j < ls.len() ==> !(#[trigger] ls[j].case_sensitive == case_sensitive && writes_key(
                ls[j],
                key,
            )),
        owner(ls, key, case_sensitive) is None ==> forall|j: int|
            0 <= j < ls.len() ==> !(#[trigger] ls[j].case_sensitive == case_sensitive && writes_key(
                ls[j],
                key,
            )),
    decreases ls.len(),
{
    if ls.len() > 0 {
        lemma_owner_bounds(ls.drop_last(), key, case_sensitive);
        assert forall|j: int| 0 <= j < ls.len() - 1 implies ls[j] == ls.drop_last()[j] by {}
    }
}

/// Canonical forms are pairwise distinct.
pub open spec fn canonicals_unique(ls: Seq<LexemeView>) -> bool {
    forall|i: int, j: int|
        0 <= i < j < ls.len() ==> (#[trigger] ls[i]).canonical != (#[trigger] ls[j]).canonical
}

/// A batch with repeated canonical forms merged: the later entry replaces
/// the earlier one in the earlier one's place.
pub open spec fn batch_merge(batch: Seq<LexemeView>) -> Seq<LexemeView>
    decreases batch.len(),
{
    if batch.len() == 0 {
        batch
    } else {
        let merged = batch_merge(batch.drop_last());
        let l = batch.last();
        if exists|i: int| 0 <= i < merged.len() && (#[trigger] merged[i]).canonical == l.canonical {
            let i = choose|i: int| 0 <= i < merged.len() && (#[trigger] merged[i]).canonical == l.canonical;
            merged.update(i, l)
        } else {
            merged.push(l)
        }
    }
}

/// Some lexeme of `cs` has the canonical form `c`.
pub open spec fn has_canonical(cs: Seq<LexemeView>, c: Seq<char>) -> bool {
    exists|i: int| 0 <= i < cs.len() && (#[trigger] cs[i]).canonical == c
}

/// The lexemes of `ls` whose canonical form no lexeme of `cs` has.
pub open spec fn without(ls: Seq<LexemeView>, cs: Seq<LexemeView>) -> Seq<LexemeView>
    decreases ls.len(),
{
    if ls.len() == 0 {
        ls
    } else if has_canonical(cs, ls.last().canonical) {
        without(ls.drop_last(), cs)
    } else {
        without(ls.drop_last(), cs).push(ls.last())
    }
}

/// The lexemes after inserting a batch: lexemes replaced by the batch drop
/// out, and the merged batch follows the rest.
pub open spec fn inserted(ls: Seq<LexemeView>, batch: Seq<LexemeView>) -> Seq<LexemeView> {
    if batch.len() == 0 {
        ls
    } else {
        without(ls, batch_merge(batch)) + batch_merge(batch)
    }
}

proof fn lemma_batch_merge(batch: Seq<LexemeView>)
    ensures
        canonicals_unique(batch_merge(batch)),
        forall|c: Seq<char>| has_canonical(batch_merge(batch), c) == has_canonical(batch, c),
    decreases batch.len(),
{
    if batch.len() > 0 {
        let init = batch.drop_last();
        lemma_batch_merge(init);
        let merged = batch_merge(init);
        let l = batch.last();
        assert forall|c: Seq<char>| has_canonical(batch_merge(batch), c) == has_canonical(batch, c) by {
            if has_canonical(batch, c) {
                let k = choose|k: int| 0 <= k < batch.len() && (#[trigger] batch[k]).canonical == c;
                if k < batch.len() - 1 {
                    assert(init[k] == batch[k]);
                    assert(has_canonical(init, c));
                    let m = choose|m: int| 0 <= m < merged.len() && (#[trigger] merged[m]).canonical == c;
                    if exists|i: int| 0 <= i < merged.len() && (#[trigger] merged[i]).canonical == l.canonical {
                        let i = choose|i: int| 0 <= i < merged.len() && (#[trigger] merged[i]).canonical == l.canonical;
                        if m == i {
                            assert(batch_merge(batch)[i].canonical == c);
                        } else {
                            assert(batch_merge(batch)[m].canonical == c);
                        }
                    } else {
                        assert(batch_merge(batch)[m].canonical == c);
                    }
                } else {
                    if exists|i: int| 0 <= i < merged.len() && (#[trigger] merged[i]).canonical == l.canonical {
                        let i = choose|i: int| 0 <= i < merged.len() && (#[trigger] merged[i]).canonical == l.canonical;
                        assert(batch_merge(batch)[i].canonical == c);
                    } else {
                        assert(batch_merge(batch)[merged.len() as int].canonical == c);
                    }
                }
            }
            if has_canonical(batch_merge(batch), c) {
                let k = choose|k: int| 0 <= k < batch_merge(batch).len() && (#[trigger] batch_merge(batch)[k]).canonical == c;
                if c == l.canonical {
                    assert(batch[batch.len() - 1].canonical == c);
                } else {
                    assert(k < merged.len() && merged[k].canonical == c);
                    assert(has_canonical(init, c));
                    let m = choose|m: int| 0 <= m < init.len() && (#[trigger] init[m]).canonical == c;
                    assert(batch[m] == init[m]);
                }
            }
        }
    }
}

proof fn lemma_without(ls: Seq<LexemeView>, cs: Seq<LexemeView>)
    requires
        canonicals_unique(ls),
    ensures
        canonicals_unique(without(ls, cs)),
        forall|i: int|
            0 <= i < without(ls, cs).len() ==> !has_canonical(cs, (#[trigger] without(ls, cs)[i]).canonical),
        forall|c: Seq<char>| has_canonical(without(ls, cs), c) ==> has_canonical(ls, c),
    decreases ls.len(),
{
    if ls.len() > 0 {
        let init = ls.drop_last();
        assert(canonicals_unique(init)) by {
            assert forall|i: int, j: int| 0 <= i < j < init.len() implies (#[trigger] init[i]).canonical
                != (#[trigger] init[j]).canonical by {
                assert(init[i] == ls[i] && init[j] == ls[j]);
            }
        }
        lemma_without(init, cs);
        let w = without(init, cs);
        assert forall|c: Seq<char>| has_canonical(without(ls, cs), c) implies has_canonical(ls, c) by {
            let k = choose|k: int| 0 <= k < without(ls, cs).len() && (#[trigger] without(ls, cs)[k]).canonical == c;
            if k < w.len() {
                assert(without(ls, cs)[k] == w[k]);
                assert(has_canonical(w, c));
                assert(has_canonical(init, c));
                let m = choose|m: int| 0 <= m < init.len() && (#[trigger] init[m]).canonical == c;
                assert(ls[m] == init[m]);
            } else {
                assert(ls[ls.len() - 1].canonical == c);
            }
        }
        if !has_canonical(cs, ls.last().canonical) {
            let r = w.push(ls.last());
            assert forall|i: int, j: int| 0 <= i < j < r.len() implies (#[trigger] r[i]).canonical
                != (#[trigger] r[j]).canonical by {
                if j == r.len() - 1 {
                    assert(r[i] == w[i]);
                    if w[i].canonical == ls.last().canonical {
                        assert(has_canonical(w, ls.last().canonical));
                        assert(has_canonical(init, ls.last().canonical));
                        let m = choose|m: int| 0 <= m < init.len() && (#[trigger] init[m]).canonical == ls.last().canonical;
                        assert(ls[m] == init[m]);
                    }
                } else {
                    assert(r[i] == w[i] && r[j] == w[j]);
                }
            }
            assert forall|i: int| 0 <= i < r.len() implies !has_canonical(cs, (#[trigger] r[i]).canonical) by {
                if i < w.len() {
                    assert(r[i] == w[i]);
                }
            }
        }
    }
}

proof fn lemma_inserted_unique(ls: Seq<LexemeView>, batch: Seq<LexemeView>)
    requires
        canonicals_unique(ls),
    ensures
        canonicals_unique(inserted(ls, batch)),
{
    if batch.len() > 0 {
        let m = batch_merge(batch);
        lemma_batch_merge(batch);
        lemma_without(ls, m);
        let w = without(ls, m);
        let r = w + m;
        assert forall|i: int, j: int| 0 <= i < j < r.len() implies (#[trigger] r[i]).canonical
            != (#[trigger] r[j]).canonical by {
            if j < w.len() {
                assert(r[i] == w[i] && r[j] == w[j]);
            } else if i >= w.len() {
                assert(r[i] == m[i - w.len()] && r[j] == m[j - w.len()]);
            } else {
                assert(r[i] == w[i] && r[j] == m[j - w.len()]);
                assert(has_canonical(m, m[j - w.len()].canonical));
            }
        }
    }
}

/// One surface to scan for during occurrence collection. Keys come from the
/// lookup index, so scan attribution and [`Lexicon::lookup`] never disagree.
#[derive(Debug, Clone, PartialEq, Eq)]
pub struct ScanKey {
    /// The text to search for: the exact surface for case-sensitive lexemes,
    /// or its ASCII-folded form otherwise.
    pub needle: String,
    /// The canonical form the index attributes this surface to.
    pub canonical: String,
    /// Whether `needle` must be searched in ASCII-lowercased text.
    pub folded: bool,
}

/// A lookup table from term surfaces to their canonical lexemes.
#[derive(Debug)]
pub struct Lexicon {
    lexemes: Vec<Lexeme>,
}

impl View for Lexicon {
    type V = Seq<LexemeView>;

    closed spec fn view(&self) -> Seq<LexemeView> {
        crate::order::views(self.lexemes@)
    }
}

impl Default for Lexicon {
    fn default() -> (r: Self)
        ensures
            r@ == Seq::<LexemeView>::empty(),
    {
        let r = Lexicon { lexemes: Vec::new() };
        assert(r@ =~= Seq::<LexemeView>::empty());
        r
    }
}

pub fn is_blank_text(s: &str) -> (r: bool)
    ensures
        r == is_blank(s@),
{
    let chars = chars_of(s);
    let mut i: usize = 0;
    while i < chars.len()
        invariant
            chars@ == s@,
            i <= chars.len(),
            forall|k: int| 0 <= k < i ==> is_whitespace(#[trigger] chars@[k]),
        decreases chars.len() - i,
    {
        if !is_whitespace(chars[i]) {
            return false;
        }
        i = i + 1;
    }
    true
}

/// `str::to_ascii_lowercase`.
pub fn fold_str(s: &str) -> (r: String)
    ensures
        r@ == fold(s@),
{
    let chars = chars_of(s);
    let mut r = String::new();
    let mut i: usize = 0;
    while i < chars.len()
        invariant
            chars@ == s@,
            i <= chars.len(),
            r@ == fold(s@).take(i as int),
        decreases chars.len() - i,
    {
        push_char(&mut r, ascii_lower(chars[i]));
        assert(fold(s@).take(i + 1) =~= fold(s@).take(i as int).push(ascii_lower(chars@[i as int])));
        i = i + 1;
    }
    assert(fold(s@).take(i as int) =~= fold(s@));
    r
}

/// Whether the surface registers `key`.
fn surface_writes(surface: &String, case_sensitive: bool, key: &str) -> (r: bool)
    ensures
        r == (!is_blank(surface@) && (if case_sensitive {
            surface@
        } else {
            fold(surface@)
        }) == key@),
{
    if is_blank_text(surface.as_str()) {
        return false;
    }
    if case_sensitive {
        str_eq(surface.as_str(), key)
    } else {
        let folded = fold_str(surface.as_str());
        str_eq(folded.as_str(), key)
    }
}

impl Lexeme {
    /// Whether some non-blank surface registers `key`.
    fn writes(&self, key: &str) -> (r: bool)
        ensures
            r == writes_key(self@, key@),
    {
        let ghost ss = surfaces(self@);
        if surface_writes(&self.canonical, self.case_sensitive, key) {
            assert(ss[0] == self.canonical@);
            assert(key_of(self@, ss[0]) == key@);
            return true;
        }
        let mut i: usize = 0;
        while i < self.aliases.len()
            invariant
                ss == surfaces(self@),
                i <= self.aliases.len(),
                forall|k: int| 0 <= k <= i ==> !(!is_blank(ss[k]) && #[trigger] key_of(self@, ss[k]) == key@),
            decreases self.aliases.len() - i,
        {
            assert(ss[i + 1] == self.aliases@[i as int]@);
            if surface_writes(&self.aliases[i], self.case_sensitive, key) {
                assert(key_of(self@, ss[i + 1]) == key@);
                return true;
            }
            i = i + 1;
        }
        proof {
            assert forall|k: int| 0 <= k < ss.len() implies !(!is_blank(ss[k]) && #[trigger] key_of(self@, ss[k]) == key@) by {}
        }
        false
    }
}

impl Lexicon {
    #[verifier::type_invariant]
    closed spec fn well_formed(self) -> bool {
        canonicals_unique(crate::order::views(self.lexemes@))
    }

    /// Index of the lexeme owning `key` in the exact or the folded index.
    fn owner_index(&self, key: &str, case_sensitive: bool) -> (r: Option<usize>)
        ensures
            match r {
                Some(i) => owner(self@, key@, case_sensitive) == Some(i as int),
                None => owner(self@, key@, case_sensitive) is None,
            },
    {
        let ghost ls = self@;
        let mut j = self.lexemes.len();
        assert(ls.take(j as int) =~= ls);
        while j > 0
            invariant
                j <= self.lexemes.len(),
                ls == self@,
                ls.len() == self.lexemes.len(),
                owner(ls, key@, case_sensitive) == owner(ls.take(j as int), key@, case_sensitive),
            decreases j,
        {
            let l = &self.lexemes[j - 1];
            proof {
                assert(ls.take(j as int).last() == l@);
                assert(ls.take(j as int).drop_last() =~= ls.take(j - 1));
            }
            if l.case_sensitive == case_sensitive && l.writes(key) {
                return Some(j - 1);
            }
            j = j - 1;
        }
        None
    }

    /// Resolves a surface to its lexeme, trying the exact key first and then
    /// the ASCII-folded key.
    pub fn lookup(&self, surface: &str) -> (r: Option<&Lexeme>)
        ensures
            match r {
                Some(l) => spec_lookup(self@, surface@) == Some(l@),
                None => spec_lookup(self@, surface@) is None,
            },
    {
        proof {
            lemma_owner_bounds(self@, surface@, true);
        }
        match self.owner_index(surface, true) {
            Some(i) => Some(&self.lexemes[i]),
            None => {
                let folded = fold_str(surface);
                proof {
                    lemma_owner_bounds(self@, folded@, false);
                }
                match self.owner_index(folded.as_str(), false) {
                    Some(i) => Some(&self.lexemes[i]),
                    None => None,
                }
            },
        }
    }

    /// The lexemes in insertion order (built-ins first).
    pub fn entries(&self) -> (r: &[Lexeme])
        ensures
            crate::order::views(r@) == self@,
    {
        self.lexemes.as_slice()
    }

    /// Inserts a batch of lexemes. Afterwards each canonical form appears at
    /// most once: later batch entries override earlier ones, and every
    /// existing lexeme with a canonical form of the batch is replaced.
    fn insert_all(&mut self, entries: Vec<Lexeme>)
        ensures
            final(self)@ == inserted(old(self)@, crate::order::views(entries@)),
    {
        proof {
            use_type_invariant(&*self);
        }
        let ghost items = entries@;
        let ghost batch = crate::order::views(entries@);
        let mut input = entries;
        let n = input.len();
        let mut merged: Vec<Lexeme> = Vec::new();
        let mut i: usize = 0;
        assert(batch.take(0) =~= Seq::<LexemeView>::empty());
        assert(crate::order::views(merged@) =~= Seq::<LexemeView>::empty());
        assert(items.skip(0) =~= items);
        while input.len() > 0
            invariant
                n == items.len(),
                batch == crate::order::views(items),
                i + input@.len() == n,
                input@ == items.skip(i as int),
                crate::order::views(merged@) == batch_merge(batch.take(i as int)),
            decreases input@.len(),
        {
            let l = input.remove(0);
            proof {
                assert(batch.take(i + 1).drop_last() =~= batch.take(i as int));
                assert(batch.take(i + 1).last() == l@);
                assert(items.skip(i + 1) =~= items.skip(i as int).remove(0));
                lemma_batch_merge(batch.take(i as int));
            }
            let ghost before = crate::order::views(merged@);
            match find_canonical(&merged, &l.canonical) {
                Some(k) => {
                    proof {
                        let c = choose|c: int| 0 <= c < before.len() && (#[trigger] before[c]).canonical == l@.canonical;
                        assert(before[k as int].canonical == l@.canonical);
                        if c != k {
                            if c < k {
                                assert(before[c].canonical != before[k as int].canonical);
                            } else {
                                assert(before[k as int].canonical != before[c].canonical);
                            }
                        }
                    }
                    merged.remove(k);
                    merged.insert(k, l);
                    proof {
                        assert(crate::order::views(merged@) =~= before.update(k as int, l@));
                    }
                },
                None => {
                    proof {
                        crate::order::lemma_views_push(merged@, l);
                    }
                    merged.push(l);
                },
            }
            i = i + 1;
        }
        assert(batch.take(i as int) =~= batch);
        if merged.len() == 0 {
            return;
        }
        let ghost m = crate::order::views(merged@);
        let mut old: Vec<Lexeme> = Vec::new();
        std::mem::swap(&mut old, &mut self.lexemes);
        let ghost old_items = old@;
        let ghost ls = crate::order::views(old@);
        let mut kept: Vec<Lexeme> = Vec::new();
        let on = old.len();
        let mut j: usize = 0;
        assert(ls.take(0) =~= Seq::<LexemeView>::empty());
        assert(crate::order::views(kept@) =~= Seq::<LexemeView>::empty());
        assert(old_items.skip(0) =~= old_items);
        while old.len() > 0
            invariant
                on == old_items.len(),
                ls == crate::order::views(old_items),
                m == crate::order::views(merged@),
                j + old@.len() == on,
                old@ == old_items.skip(j as int),
                crate::order::views(kept@) == without(ls.take(j as int), m),
            decreases old@.len(),
        {
            let l = old.remove(0);
            proof {
                assert(ls.take(j + 1).drop_last() =~= ls.take(j as int));
                assert(ls.take(j + 1).last() == l@);
                assert(old_items.skip(j + 1) =~= old_items.skip(j as int).remove(0));
            }
            if find_canonical(&merged, &l.canonical).is_none() {
                proof {
                    crate::order::lemma_views_push(kept@, l);
                }
                kept.push(l);
            }
            j = j + 1;
        }
        assert(ls.take(j as int) =~= ls);
        proof {
            crate::order::lemma_views_add(kept@, merged@);
            lemma_inserted_unique(ls, batch);
        }
        kept.append(&mut merged);
        self.lexemes = kept;
    }

    /// Inserts one lexeme, replacing any lexeme with the same canonical form.
    pub fn insert(&mut self, lexeme: Lexeme)
        ensures
            final(self)@ == inserted(old(self)@, seq![lexeme@]),
    {
        let mut batch: Vec<Lexeme> = Vec::new();
        batch.push(lexeme);
        assert(crate::order::views(batch@) =~= seq![lexeme@]);
        self.insert_all(batch);
    }

    /// Overlays workspace entries in one batch. Entries with a canonical form
    /// already present replace the earlier lexeme entirely; when the batch
    /// itself repeats a canonical form, the later entry in config order wins.
    pub fn overlay_workspace(&mut self, entries: Vec<Lexeme>)
        ensures
            final(self)@ == inserted(old(self)@, crate::order::views(entries@)),
    {
        self.insert_all(entries);
    }

    /// Stacks `ACR001.ignore` acronyms as known acronyms in one batch.
    /// Surfaces that already resolve to some lexeme are kept as they are, and
    /// blank entries are ignored so they never produce empty scan keys.
    pub fn ensure_known_acronyms(&mut self, acronyms: &[&str])
        ensures
            final(self)@ == inserted(old(self)@, fresh_acronyms(old(self)@, str_slice_views(acronyms@), acronyms@.len() as int)),
    {
        let ghost ls = self@;
        let mut fresh: Vec<Lexeme> = Vec::new();
        let mut i: usize = 0;
        assert(crate::order::views(fresh@) =~= Seq::<LexemeView>::empty());
        while i < acronyms.len()
            invariant
                i <= acronyms@.len(),
                ls == self@,
                crate::order::views(fresh@) == fresh_acronyms(ls, str_slice_views(acronyms@), i as int),
            decreases acronyms@.len() - i,
        {
            let acronym = acronyms[i];
            if !is_blank_text(acronym) && self.lookup(acronym).is_none() {
                let l = Lexeme {
                    canonical: acronym.to_owned(),
                    aliases: Vec::new(),
                    kind: LexemeKind::Acronym,
                    source: LexemeSource::AcronymIgnore,
                    case_sensitive: LexemeKind::Acronym.default_case_sensitive(),
                    requires_explanation: false,
                };
                proof {
                    assert(l@ =~= acronym_lexeme(acronym@));
                    crate::order::lemma_views_push(fresh@, l);
                }
                fresh.push(l);
            }
            i = i + 1;
        }
        self.insert_all(fresh);
    }

    /// The built-in entries: the default `ACR001.ignore` acronyms.
    pub fn builtin() -> (r: Self)
        ensures
            r@ == seq![
                builtin_acronym("AI"@),
                builtin_acronym("CPU"@),
                builtin_acronym("GPU"@),
                builtin_acronym("API"@),
            ],
    {
        let mut lexemes: Vec<Lexeme> = Vec::new();
        lexemes.push(builtin_lexeme("AI"));
        lexemes.push(builtin_lexeme("CPU"));
        lexemes.push(builtin_lexeme("GPU"));
        lexemes.push(builtin_lexeme("API"));
        let ghost vs = crate::order::views(lexemes@);
        proof {
            reveal_strlit("AI");
            reveal_strlit("CPU");
            reveal_strlit("GPU");
            reveal_strlit("API");
            assert(vs =~= seq![
                builtin_acronym("AI"@),
                builtin_acronym("CPU"@),
                builtin_acronym("GPU"@),
                builtin_acronym("API"@),
            ]);
            assert(vs[0].canonical.len() != vs[1].canonical.len());
            assert(vs[0].canonical.len() != vs[2].canonical.len());
            assert(vs[0].canonical.len() != vs[3].canonical.len());
            assert(vs[1].canonical[0] != vs[2].canonical[0]);
            assert(vs[1].canonical[0] != vs[3].canonical[0]);
            assert(vs[2].canonical[0] != vs[3].canonical[0]);
        }
        Lexicon { lexemes }
    }

    /// The run lexicon: built-ins, then workspace entries (overriding
    /// built-ins with the same canonical form), then `ACR001.ignore` acronyms
    /// stacked as known acronyms when not already known.
    pub fn from_config(config: &PaperlintConfig) -> (r: Self)
        ensures
            r@ == config_lexicon(*config),
    {
        let mut lexicon = Lexicon::builtin();
        let mut workspace: Vec<Lexeme> = Vec::new();
        let mut i: usize = 0;
        while i < config.lexicon.entries.len()
            invariant
                i <= config.lexicon.entries@.len(),
                crate::order::views(workspace@) == workspace_views(config.lexicon.entries@).take(i as int),
            decreases config.lexicon.entries@.len() - i,
        {
            let l = Lexeme::from_entry(&config.lexicon.entries[i]);
            proof {
                crate::order::lemma_views_push(workspace@, l);
                assert(workspace_views(config.lexicon.entries@).take(i + 1) =~= workspace_views(config.lexicon.entries@).take(i as int).push(l@));
            }
            workspace.push(l);
            i = i + 1;
        }
        assert(workspace_views(config.lexicon.entries@).take(i as int) =~= workspace_views(config.lexicon.entries@));
        lexicon.overlay_workspace(workspace);
        let mut names: Vec<&str> = Vec::new();
        let mut k: usize = 0;
        while k < config.rules.acr001.ignore.len()
            invariant
                k <= config.rules.acr001.ignore@.len(),
                names@.len() == k,
                forall|j: int| 0 <= j < k ==> (#[trigger] names@[j])@ == config.rules.acr001.ignore@[j]@,
            decreases config.rules.acr001.ignore@.len() - k,
        {
            names.push(config.rules.acr001.ignore[k].as_str());
            k = k + 1;
        }
        assert(str_slice_views(names@) =~= str_views(config.rules.acr001.ignore@));
        lexicon.ensure_known_acronyms(names.as_slice());
        lexicon
    }

    pub closed spec fn builtin_view() -> Seq<LexemeView> {
        seq![
            builtin_acronym("AI"@),
            builtin_acronym("CPU"@),
            builtin_acronym("GPU"@),
            builtin_acronym("API"@),
        ]
    }

    /// The keys to scan for during occurrence collection, each with the
    /// canonical form that owns it: every key the lexemes register, once.
    pub fn scan_keys(&self) -> (keys: Vec<ScanKey>)
        ensures
            forall|i: int| 0 <= i < keys@.len() ==> #[trigger] scan_key_owned(self@, keys@[i]),
            forall|i: int, j: int|
                0 <= i < j < keys@.len() ==> !((#[trigger] keys@[i]).needle@ == (#[trigger] keys@[j]).needle@
                    && keys@[i].folded == keys@[j].folded),
            forall|j: int, k: int|
                0 <= j < self@.len() && 0 <= k < surfaces(self@[j]).len() && !is_blank(
                    surfaces(self@[j])[k],
                ) ==> #[trigger] surface_scanned(keys@, self@[j], surfaces(self@[j])[k]),
    {
        let ghost ls = self@;
        let mut keys: Vec<ScanKey> = Vec::new();
        let mut j: usize = 0;
        while j < self.lexemes.len()
            invariant
                ls == self@,
                ls.len() == self.lexemes.len(),
                j <= ls.len(),
                forall|i: int| 0 <= i < keys@.len() ==> #[trigger] scan_key_owned(ls, keys@[i]),
                forall|a: int, b: int|
                    0 <= a < b < keys@.len() ==> !((#[trigger] keys@[a]).needle@ == (#[trigger] keys@[b]).needle@
                        && keys@[a].folded == keys@[b].folded),
                forall|x: int, k: int|
                    0 <= x < j && 0 <= k < surfaces(ls[x]).len() && !is_blank(surfaces(ls[x])[k])
                        ==> #[trigger] surface_scanned(keys@, ls[x], surfaces(ls[x])[k]),
            decreases ls.len() - j,
        {
            let l = &self.lexemes[j];
            let ghost ss = surfaces(l@);
            let ghost start = keys@;
            assert(ls[j as int] == l@);
            assert(ss[0] == l.canonical@);
            self.add_scan_key(&mut keys, j, &l.canonical);
            let mut k: usize = 0;
            while k < l.aliases.len()
                invariant
                    ls == self@,
                    ls.len() == self.lexemes.len(),
                    j < ls.len(),
                    l@ == ls[j as int],
                    ss == surfaces(l@),
                    ss.len() == l.aliases@.len() + 1,
                    k <= l.aliases.len(),
                    forall|i: int| 0 <= i < keys@.len() ==> #[trigger] scan_key_owned(ls, keys@[i]),
                    forall|a: int, b: int|
                        0 <= a < b < keys@.len() ==> !((#[trigger] keys@[a]).needle@ == (#[trigger] keys@[b]).needle@
                            && keys@[a].folded == keys@[b].folded),
                    forall|needle: Seq<char>, folded: bool| scanned(start, needle, folded) ==> #[trigger] scanned(keys@, needle, folded),
                    forall|y: int|
                        0 <= y <= k && !is_blank(ss[y]) ==> #[trigger] surface_scanned(keys@, l@, ss[y]),
                decreases l.aliases.len() - k,
            {
                assert(ss[k + 1] == l.aliases@[k as int]@);
                let ghost before = keys@;
                self.add_scan_key(&mut keys, j, &l.aliases[k]);
                proof {
                    assert forall|y: int| 0 <= y <= k + 1 && !is_blank(ss[y]) implies #[trigger] surface_scanned(keys@, l@, ss[y]) by {
                        if y <= k {
                            assert(surface_scanned(before, l@, ss[y]));
                        }
                    }
                    assert forall|needle: Seq<char>, folded: bool| scanned(start, needle, folded) implies #[trigger] scanned(keys@, needle, folded) by {
                        assert(scanned(before, needle, folded));
                    }
                }
                k = k + 1;
            }
            proof {
                assert forall|x: int, y: int|
                    0 <= x <= j && 0 <= y < surfaces(ls[x]).len() && !is_blank(surfaces(ls[x])[y])
                        implies #[trigger] surface_scanned(keys@, ls[x], surfaces(ls[x])[y]) by {
                    if x < j {
                        assert(surface_scanned(start, ls[x], surfaces(ls[x])[y]));
                    }
                }
            }
            j = j + 1;
        }
        keys
    }

    /// Adds the key a surface of lexeme `j` registers, unless it is blank or
    /// already listed.
    fn add_scan_key(&self, keys: &mut Vec<ScanKey>, j: usize, surface: &String)
        requires
            j < self@.len(),
            exists|y: int| 0 <= y < surfaces(self@[j as int]).len() && surfaces(self@[j as int])[y] == surface@,
            forall|i: int| 0 <= i < old(keys)@.len() ==> #[trigger] scan_key_owned(self@, old(keys)@[i]),
            forall|a: int, b: int|
                0 <= a < b < old(keys)@.len() ==> !((#[trigger] old(keys)@[a]).needle@ == (#[trigger] old(keys)@[b]).needle@
                    && old(keys)@[a].folded == old(keys)@[b].folded),
        ensures
            forall|i: int| 0 <= i < final(keys)@.len() ==> #[trigger] scan_key_owned(self@, final(keys)@[i]),
            forall|a: int, b: int|
                0 <= a < b < final(keys)@.len() ==> !((#[trigger] final(keys)@[a]).needle@ == (#[trigger] final(keys)@[b]).needle@
                    && final(keys)@[a].folded == final(keys)@[b].folded),
            forall|needle: Seq<char>, folded: bool| scanned(old(keys)@, needle, folded) ==> #[trigger] scanned(final(keys)@, needle, folded),
            !is_blank(surface@) ==> surface_scanned(final(keys)@, self@[j as int], surface@),
    {
        let ghost ls = self@;
        let l = &self.lexemes[j];
        if is_blank_text(surface.as_str()) {
            return;
        }
        let key = if l.case_sensitive { surface.clone() } else { fold_str(surface.as_str()) };
        assert(key@ == key_of(l@, surface@));
        let folded = !l.case_sensitive;
        if has_scan_key(keys, key.as_str(), folded) {
            return;
        }
        proof {
            lemma_owner_bounds(ls, key@, l.case_sensitive);
            let y = choose|y: int| 0 <= y < surfaces(ls[j as int]).len() && surfaces(ls[j as int])[y] == surface@;
            assert(key_of(l@, surfaces(l@)[y]) == key@);
            assert(writes_key(l@, key@));
        }
        match self.owner_index(key.as_str(), l.case_sensitive) {
            Some(o) => {
                let entry = ScanKey { needle: key, canonical: self.lexemes[o].canonical.clone(), folded };
                let ghost before = keys@;
                keys.push(entry);
                proof {
                    assert(keys@[keys@.len() - 1] == entry);
                    assert forall|needle: Seq<char>, f: bool| scanned(before, needle, f) implies #[trigger] scanned(keys@, needle, f) by {
                        let w = choose|w: int| 0 <= w < before.len() && (#[trigger] before[w]).needle@ == needle && before[w].folded == f;
                        assert(keys@[w] == before[w]);
                    }
                    assert forall|i: int| 0 <= i < keys@.len() implies #[trigger] scan_key_owned(ls, keys@[i]) by {
                        if i < before.len() {
                            assert(keys@[i] == before[i]);
                        }
                    }
                    assert(scanned(keys@, key@, folded));
                }
            },
            None => {},
        }
    }
}

/// The key is owned, in the index it belongs to, by a lexeme with its canonical form.
pub open spec fn scan_key_owned(ls: Seq<LexemeView>, key: ScanKey) -> bool {
    match owner(ls, key.needle@, !key.folded) {
        Some(i) => ls[i].canonical == key.canonical@,
        None => false,
    }
}

/// Some scan key is the key the lexeme registers for the surface.
pub open spec fn surface_scanned(keys: Seq<ScanKey>, l: LexemeView, surface: Seq<char>) -> bool {
    scanned(keys, key_of(l, surface), !l.case_sensitive)
}

/// Some scan key has this needle and foldedness.
pub open spec fn scanned(keys: Seq<ScanKey>, needle: Seq<char>, folded: bool) -> bool {
    exists|i: int| 0 <= i < keys.len() && (#[trigger] keys[i]).needle@ == needle && keys[i].folded == folded
}

fn has_scan_key(keys: &Vec<ScanKey>, needle: &str, folded: bool) -> (r: bool)
    ensures
        r == scanned(keys@, needle@, folded),
{
    let mut i: usize = 0;
    while i < keys.len()
        invariant
            i <= keys.len(),
            forall|k: int| 0 <= k < i ==> !((#[trigger] keys@[k]).needle@ == needle@ && keys@[k].folded == folded),
        decreases keys.len() - i,
    {
        if keys[i].folded == folded && str_eq(keys[i].needle.as_str(), needle) {
            return true;
        }
        i = i + 1;
    }
    false
}

/// A built-in acronym lexeme.
pub open spec fn builtin_acronym(canonical: Seq<char>) -> LexemeView {
    LexemeView {
        canonical,
        aliases: Seq::empty(),
        kind: LexemeKind::Acronym,
        source: LexemeSource::Builtin,
        case_sensitive: true,
        requires_explanation: false,
    }
}

fn builtin_lexeme(canonical: &str) -> (l: Lexeme)
    ensures
        l@ == builtin_acronym(canonical@),
{
    let l = Lexeme {
        canonical: canonical.to_owned(),
        aliases: Vec::new(),
        kind: LexemeKind::Acronym,
        source: LexemeSource::Builtin,
        case_sensitive: LexemeKind::Acronym.default_case_sensitive(),
        requires_explanation: false,
    };
    assert(l@ =~= builtin_acronym(canonical@));
    l
}

/// A lexeme stacked from `ACR001.ignore`.
pub open spec fn acronym_lexeme(canonical: Seq<char>) -> LexemeView {
    LexemeView {
        canonical,
        aliases: Seq::empty(),
        kind: LexemeKind::Acronym,
        source: LexemeSource::AcronymIgnore,
        case_sensitive: true,
        requires_explanation: false,
    }
}

/// The acronyms among the first `n` that are not blank and do not resolve in `ls`.
pub open spec fn fresh_acronyms(ls: Seq<LexemeView>, acronyms: Seq<Seq<char>>, n: int) -> Seq<LexemeView>
    decreases n,
{
    if n <= 0 {
        Seq::empty()
    } else {
        let prev = fresh_acronyms(ls, acronyms, n - 1);
        let a = acronyms[n - 1];
        if !is_blank(a) && spec_lookup(ls, a) is None {
            prev.push(acronym_lexeme(a))
        } else {
            prev
        }
    }
}

/// The workspace lexemes of the config entries.
pub open spec fn workspace_views(entries: Seq<LexiconEntryConfig>) -> Seq<LexemeView> {
    entries.map_values(|e: LexiconEntryConfig| LexemeView {
        canonical: e.canonical@,
        aliases: texts(e.aliases@),
        kind: e.kind,
        source: LexemeSource::Workspace,
        case_sensitive: match e.case_sensitive {
            Some(b) => b,
            None => e.kind.default_case_sensitive(),
        },
        requires_explanation: e.requires_explanation,
    })
}

/// String slices standing for the strings.
pub open spec fn str_views(v: Seq<String>) -> Seq<Seq<char>> {
    texts(v)
}

/// The characters of each string slice.
pub open spec fn str_slice_views(v: Seq<&str>) -> Seq<Seq<char>> {
    v.map_values(|a: &str| a@)
}

fn find_canonical(v: &Vec<Lexeme>, c: &String) -> (r: Option<usize>)
    ensures
        match r {
            Some(k) => k < v@.len() && crate::order::views(v@)[k as int].canonical == c@,
            None => !has_canonical(crate::order::views(v@), c@),
        },
{
    let ghost vs = crate::order::views(v@);
    let mut i: usize = 0;
    while i < v.len()
        invariant
            i <= v.len(),
            vs == crate::order::views(v@),
            forall|k: int| 0 <= k < i ==> (#[trigger] vs[k]).canonical != c@,
        decreases v.len() - i,
    {
        if str_eq(v[i].canonical.as_str(), c.as_str()) {
            return Some(i);
        }
        i = i + 1;
    }
    None
}

/// The lexemes of a configuration's lexicon: built-ins, then workspace
/// entries, then the `ACR001.ignore` acronyms not already known.
pub open spec fn config_lexicon(config: PaperlintConfig) -> Seq<LexemeView> {
    inserted(
        inserted(Lexicon::builtin_view(), workspace_views(config.lexicon.entries@)),
        fresh_acronyms(
            inserted(Lexicon::builtin_view(), workspace_views(config.lexicon.entries@)),
            str_views(config.rules.acr001.ignore@),
            config.rules.acr001.ignore@.len() as int,
        ),
    )
}

} // verus!
