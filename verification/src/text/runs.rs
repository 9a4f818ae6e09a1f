//! Maximal runs of characters drawn from a fixed class.
use crate::text::unicode::{is_ascii_alnum, is_ascii_alpha};
use vstd::prelude::*;

verus! {

/// A set of characters whose maximal runs are of interest.
#[derive(Debug, Clone, Copy, PartialEq, Eq, Structural)]
pub enum CharClass {
    /// `[A-Za-z0-9_-]`
    Identifier,
    /// `[A-Za-z0-9_]`, the ASCII word characters.
    AsciiWord,
    /// `[A-Za-z]`
    AsciiLetter,
    /// `[A-Za-z0-9]`
    AsciiAlnum,
}

impl CharClass {
    #[verifier::allow_in_spec]
    pub fn contains(self, c: char) -> bool
        returns
            match self {
                CharClass::Identifier => is_ascii_alnum(c) || c == '_' || c == '-',
                CharClass::AsciiWord => is_ascii_alnum(c) || c == '_',
                CharClass::AsciiLetter => is_ascii_alpha(c),
                CharClass::AsciiAlnum => is_ascii_alnum(c),
            },
    {
        match self {
            CharClass::Identifier => is_ascii_alnum(c) || c == '_' || c == '-',
            CharClass::AsciiWord => is_ascii_alnum(c) || c == '_',
            CharClass::AsciiLetter => is_ascii_alpha(c),
            CharClass::AsciiAlnum => is_ascii_alnum(c),
        }
    }
}

/// Start of the run still open after the first `n` characters.
pub open spec fn run_start(s: Seq<char>, n: int, class: CharClass) -> int
    decreases n,
{
    if n <= 0 {
        0
    } else if !class.contains(s[n - 1]) {
        n
    } else {
        run_start(s, n - 1, class)
    }
}

/// Runs closed by a character outside the class within the first `n` characters.
pub open spec fn closed_runs(s: Seq<char>, n: int, class: CharClass) -> Seq<(int, int)>
    decreases n,
{
    if n <= 0 {
        Seq::empty()
    } else if !class.contains(s[n - 1]) && run_start(s, n - 1, class) < n - 1 {
        closed_runs(s, n - 1, class).push((run_start(s, n - 1, class), n - 1))
    } else {
        closed_runs(s, n - 1, class)
    }
}

/// Maximal runs of characters of the class, as character ranges, in order.
pub open spec fn class_runs(s: Seq<char>, class: CharClass) -> Seq<(int, int)> {
    let n = s.len() as int;
    if run_start(s, n, class) < n {
        closed_runs(s, n, class).push((run_start(s, n, class), n))
    } else {
        closed_runs(s, n, class)
    }
}

pub proof fn lemma_run_start_bounds(s: Seq<char>, n: int, class: CharClass)
    requires
        0 <= n <= s.len(),
    ensures
        0 <= run_start(s, n, class) <= n,
    decreases n,
{
    if n > 0 && class.contains(s[n - 1]) {
        lemma_run_start_bounds(s, n - 1, class);
    }
}

pub proof fn lemma_closed_runs_bounds(s: Seq<char>, n: int, class: CharClass)
    requires
        0 <= n <= s.len(),
    ensures
        forall|k: int|
            0 <= k < closed_runs(s, n, class).len() ==> 0 <= (#[trigger] closed_runs(s, n, class)[k]).0
                < closed_runs(s, n, class)[k].1 <= n,
    decreases n,
{
    if n > 0 {
        lemma_closed_runs_bounds(s, n - 1, class);
        lemma_run_start_bounds(s, n - 1, class);
        let prev = closed_runs(s, n - 1, class);
        if !class.contains(s[n - 1]) && run_start(s, n - 1, class) < n - 1 {
            let x = (run_start(s, n - 1, class), n - 1);
            assert forall|k: int| 0 <= k < prev.push(x).len() implies 0 <= (#[trigger] prev.push(
                x,
            )[k]).0 < prev.push(x)[k].1 <= n by {
                if k < prev.len() {
                    assert(prev.push(x)[k] == prev[k]);
                }
            }
        }
    }
}

pub proof fn lemma_class_runs_bounds(s: Seq<char>, class: CharClass)
    ensures
        forall|k: int|
            0 <= k < class_runs(s, class).len() ==> 0 <= (#[trigger] class_runs(s, class)[k]).0 < class_runs(s, class)[k].1
                <= s.len(),
{
    lemma_closed_runs_bounds(s, s.len() as int, class);
    lemma_run_start_bounds(s, s.len() as int, class);
}

/// The maximal runs of the class in `chars`, as character ranges.
pub fn char_runs(chars: &Vec<char>, class: CharClass) -> (runs: Vec<(usize, usize)>)
    ensures
        runs@.len() == class_runs(chars@, class).len(),
        forall|k: int|
            0 <= k < runs@.len() ==> (#[trigger] runs@[k]).0 == class_runs(chars@, class)[k].0 && runs@[k].1
                == class_runs(chars@, class)[k].1,
        forall|k: int| 0 <= k < runs@.len() ==> (#[trigger] runs@[k]).0 < runs@[k].1 <= chars.len(),
{
    let ghost s = chars@;
    let mut runs: Vec<(usize, usize)> = Vec::new();
    let mut start: usize = 0;
    let mut i: usize = 0;
    while i < chars.len()
        invariant
            s == chars@,
            i <= chars.len(),
            start == run_start(s, i as int, class),
            start <= i,
            runs@.len() == closed_runs(s, i as int, class).len(),
            forall|k: int|
                0 <= k < runs@.len() ==> (#[trigger] runs@[k]).0 == closed_runs(s, i as int, class)[k].0
                    && runs@[k].1 == closed_runs(s, i as int, class)[k].1,
        decreases chars.len() - i,
    {
        if !class.contains(chars[i]) {
            if start < i {
                runs.push((start, i));
            }
            start = i + 1;
        }
        i = i + 1;
    }
    if start < chars.len() {
        runs.push((start, chars.len()));
    }
    proof {
        lemma_class_runs_bounds(s, class);
        assert forall|k: int| 0 <= k < runs@.len() implies (#[trigger] runs@[k]).0 < runs@[k].1
            <= chars.len() by {
            assert(0 <= class_runs(s, class)[k].0 < class_runs(s, class)[k].1 <= s.len());
        }
    }
    runs
}

proof fn lemma_closed_runs_before_start(s: Seq<char>, n: int, class: CharClass)
    requires
        0 <= n <= s.len(),
    ensures
        forall|k: int|
            0 <= k < closed_runs(s, n, class).len() ==> (#[trigger] closed_runs(s, n, class)[k]).1
                < run_start(s, n, class),
        forall|i: int, j: int|
            0 <= i < j < closed_runs(s, n, class).len() ==> (#[trigger] closed_runs(s, n, class)[i]).1
                < (#[trigger] closed_runs(s, n, class)[j]).0,
    decreases n,
{
    if n > 0 {
        lemma_closed_runs_before_start(s, n - 1, class);
        lemma_closed_runs_bounds(s, n - 1, class);
        lemma_run_start_bounds(s, n - 1, class);
        let prev = closed_runs(s, n - 1, class);
        if !class.contains(s[n - 1]) && run_start(s, n - 1, class) < n - 1 {
            let x = (run_start(s, n - 1, class), n - 1);
            let cur = prev.push(x);
            assert forall|i: int, j: int| 0 <= i < j < cur.len() implies (#[trigger] cur[i]).1
                < (#[trigger] cur[j]).0 by {
                assert(cur[i] == prev[i]);
                if j < prev.len() {
                    assert(cur[j] == prev[j]);
                }
            }
        }
    }
}

/// Runs come in order, each ending before the next begins.
pub proof fn lemma_class_runs_ordered(s: Seq<char>, class: CharClass)
    ensures
        forall|i: int, j: int|
            0 <= i < j < class_runs(s, class).len() ==> (#[trigger] class_runs(s, class)[i]).1 < (
            #[trigger] class_runs(s, class)[j]).0,
{
    let n = s.len() as int;
    lemma_closed_runs_before_start(s, n, class);
    let prev = closed_runs(s, n, class);
    if run_start(s, n, class) < n {
        let cur = prev.push((run_start(s, n, class), n));
        assert forall|i: int, j: int| 0 <= i < j < cur.len() implies (#[trigger] cur[i]).1
            < (#[trigger] cur[j]).0 by {
            assert(cur[i] == prev[i]);
            if j < prev.len() {
                assert(cur[j] == prev[j]);
            }
        }
    }
}

/// A run of the class: every character of `r.0..r.1` is in it, and the
/// characters just outside are not.
pub open spec fn is_maximal_run(s: Seq<char>, class: CharClass, r: (int, int)) -> bool {
    &&& 0 <= r.0 < r.1 <= s.len()
    &&& forall|j: int| r.0 <= j < r.1 ==> class.contains(#[trigger] s[j])
    &&& (r.0 == 0 || !class.contains(s[r.0 - 1]))
    &&& (r.1 == s.len() || !class.contains(s[r.1]))
}

proof fn lemma_run_start_props(s: Seq<char>, n: int, class: CharClass)
    requires
        0 <= n <= s.len(),
    ensures
        forall|j: int| run_start(s, n, class) <= j < n ==> class.contains(#[trigger] s[j]),
        run_start(s, n, class) == 0 || !class.contains(s[run_start(s, n, class) - 1]),
    decreases n,
{
    lemma_run_start_bounds(s, n, class);
    if n > 0 && class.contains(s[n - 1]) {
        lemma_run_start_props(s, n - 1, class);
    }
}

proof fn lemma_closed_runs_maximal(s: Seq<char>, n: int, class: CharClass)
    requires
        0 <= n <= s.len(),
    ensures
        forall|k: int|
            0 <= k < closed_runs(s, n, class).len() ==> is_maximal_run(s, class, #[trigger] closed_runs(s, n, class)[k])
                && closed_runs(s, n, class)[k].1 < n,
        forall|i: int|
            0 <= i < n && class.contains(#[trigger] s[i]) ==> run_start(s, n, class) <= i || exists|k: int|
                0 <= k < closed_runs(s, n, class).len() && #[trigger] closed_runs(s, n, class)[k].0 <= i
                    < closed_runs(s, n, class)[k].1,
    decreases n,
{
    if n > 0 {
        lemma_closed_runs_maximal(s, n - 1, class);
        lemma_run_start_props(s, n - 1, class);
        lemma_run_start_bounds(s, n - 1, class);
        let prev = closed_runs(s, n - 1, class);
        let cur = closed_runs(s, n, class);
        let rs = run_start(s, n - 1, class);
        if !class.contains(s[n - 1]) && rs < n - 1 {
            assert(cur == prev.push((rs, n - 1)));
            assert forall|k: int| 0 <= k < cur.len() implies is_maximal_run(s, class, #[trigger] cur[k]) && cur[k].1 < n by {
                if k < prev.len() {
                    assert(cur[k] == prev[k]);
                }
            }
            assert forall|i: int| 0 <= i < n && class.contains(#[trigger] s[i]) implies run_start(s, n, class)
                <= i || exists|k: int| 0 <= k < cur.len() && #[trigger] cur[k].0 <= i < cur[k].1 by {
                if i < n - 1 && rs > i {
                    let k = choose|k: int| 0 <= k < prev.len() && #[trigger] prev[k].0 <= i < prev[k].1;
                    assert(cur[k] == prev[k]);
                } else if i < n - 1 {
                    assert(cur[prev.len() as int] == (rs, n - 1));
                }
            }
        } else {
            assert(cur == prev);
            assert forall|i: int| 0 <= i < n && class.contains(#[trigger] s[i]) implies run_start(s, n, class)
                <= i || exists|k: int| 0 <= k < cur.len() && #[trigger] cur[k].0 <= i < cur[k].1 by {
                if i < n - 1 && rs > i {
                    let k = choose|k: int| 0 <= k < prev.len() && #[trigger] prev[k].0 <= i < prev[k].1;
                    assert(cur[k] == prev[k]);
                }
            }
        }
    }
}

/// The runs are exactly the maximal runs of the class: each one is a
/// maximal run, and every character of the class lies in one of them.
pub proof fn lemma_class_runs_maximal(s: Seq<char>, class: CharClass)
    ensures
        forall|k: int| 0 <= k < class_runs(s, class).len() ==> is_maximal_run(s, class, #[trigger] class_runs(s, class)[k]),
        forall|i: int|
            0 <= i < s.len() && class.contains(#[trigger] s[i]) ==> exists|k: int|
                0 <= k < class_runs(s, class).len() && #[trigger] class_runs(s, class)[k].0 <= i < class_runs(
                    s,
                    class,
                )[k].1,
{
    let n = s.len() as int;
    lemma_closed_runs_maximal(s, n, class);
    lemma_run_start_props(s, n, class);
    lemma_run_start_bounds(s, n, class);
    let prev = closed_runs(s, n, class);
    let runs = class_runs(s, class);
    let rs = run_start(s, n, class);
    if rs < n {
        assert(runs == prev.push((rs, n)));
        assert forall|k: int| 0 <= k < runs.len() implies is_maximal_run(s, class, #[trigger] runs[k]) by {
            if k < prev.len() {
                assert(runs[k] == prev[k]);
            }
        }
        assert forall|i: int| 0 <= i < n && class.contains(#[trigger] s[i]) implies exists|k: int|
            0 <= k < runs.len() && #[trigger] runs[k].0 <= i < runs[k].1 by {
            if rs <= i {
                assert(runs[prev.len() as int] == (rs, n));
            } else {
                let k = choose|k: int| 0 <= k < prev.len() && #[trigger] prev[k].0 <= i < prev[k].1;
                assert(runs[k] == prev[k]);
            }
        }
    } else {
        assert(runs == prev);
    }
}

} // verus!
