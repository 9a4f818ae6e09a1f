//! PUNC002: missing space between CJK and Latin/number.
//!
//! The rule scans each text block for logically adjacent character pairs
//! where a CJK ideograph directly touches an ASCII Latin letter or digit.
//! Boundaries are only reported when both characters are kept inside one
//! source mapping, or in two mappings whose source bytes are contiguous:
//! a gap means the parser dropped source bytes between the characters.
//! A pair is exempt when its span overlaps a match of a configured ignore
//! pattern in the block's text; invalid patterns are dropped.
use super::Rule;
use crate::config::Level;
use crate::latex::parser::Document;
use crate::latex::span::{SourceMapping, TextBlock};
use crate::lint::context::{block_span, LintContext};
use crate::lint::diagnostic::{Diagnostic, DiagnosticView, SpanOrder};
use crate::order::{stable_sort, stable_sorted, views};
use crate::rule_id::RuleId;
use crate::text::unicode::{byte_offsets, byte_pos, chars_of, is_ascii_alnum, is_cjk, str_eq};
use vstd::prelude::*;

verus! {

pub struct Punc002;

/// Whether `regex::Regex::new` accepts the pattern.
pub uninterp spec fn regex_compiles(pattern: Seq<char>) -> bool;

/// The byte ranges of the successive non-overlapping matches that
/// `regex::Regex::find_iter` yields for a pattern that compiles.
pub uninterp spec fn regex_match_ranges(pattern: Seq<char>, text: Seq<char>) -> Seq<(usize, usize)>;

/// `regex::Regex::new(pattern).is_ok()`.
#[verifier::external_body]
fn regex_valid(pattern: &str) -> (r: bool)
    ensures
        r == regex_compiles(pattern@),
{
    regex::Regex::new(pattern).is_ok()
}

/// `regex::Regex::new(pattern)`, then the start and end of each match of
/// `find_iter(text)`; `None` when the pattern does not compile. Each match
/// has `start <= end`, as the crate documents.
#[verifier::external_body]
fn regex_ranges(pattern: &str, text: &str) -> (r: Option<Vec<(usize, usize)>>)
    ensures
        r is Some <==> regex_compiles(pattern@),
        r matches Some(v) ==> v@ == regex_match_ranges(pattern@, text@),
        r matches Some(v) ==> forall|k: int| 0 <= k < v@.len() ==> (#[trigger] v@[k]).0 <= v@[k].1,
{
    let re = match regex::Regex::new(pattern) {
        Ok(re) => re,
        Err(_) => return None,
    };
    Some(re.find_iter(text).map(|m| (m.start(), m.end())).collect())
}

/// The patterns that compile, in order.
pub open spec fn valid_patterns(ps: Seq<Seq<char>>) -> Seq<Seq<char>>
    decreases ps.len(),
{
    if ps.len() == 0 {
        Seq::empty()
    } else {
        valid_patterns(ps.drop_last()) + if regex_compiles(ps.last()) {
            seq![ps.last()]
        } else {
            Seq::empty()
        }
    }
}

/// Keeps the configured ignore patterns that compile, dropping invalid ones.
pub fn compile_ignore_patterns(patterns: &[String]) -> (r: Vec<String>)
    ensures
        r@.map_values(|p: String| p@) == valid_patterns(patterns@.map_values(|p: String| p@)),
{
    let ghost ps = patterns@.map_values(|p: String| p@);
    let mut out: Vec<String> = Vec::new();
    let mut i: usize = 0;
    while i < patterns.len()
        invariant
            i <= patterns@.len(),
            ps == patterns@.map_values(|p: String| p@),
            out@.map_values(|p: String| p@) == valid_patterns(ps.take(i as int)),
        decreases patterns@.len() - i,
    {
        assert(ps.take(i + 1).drop_last() =~= ps.take(i as int));
        assert(ps.take(i + 1).last() == patterns@[i as int]@);
        if regex_valid(patterns[i].as_str()) {
            let ghost before = out@;
            out.push(patterns[i].clone());
            assert(out@.map_values(|p: String| p@) =~= before.map_values(|p: String| p@).push(patterns@[i as int]@));
        }
        i = i + 1;
    }
    assert(ps.take(i as int) =~= ps);
    out
}

/// A CJK ideograph touching an ASCII letter or digit, in either order.
pub open spec fn spec_missing_space(left: char, right: char) -> bool {
    (is_cjk(left) && is_ascii_alnum(right)) || (is_ascii_alnum(left) && is_cjk(right))
}

/// Whether the pair of characters needs a space between them.
pub fn is_missing_space_boundary(left: char, right: char) -> (r: bool)
    ensures
        r == spec_missing_space(left, right),
{
    (is_cjk(left) && is_ascii_alnum(right)) || (is_ascii_alnum(left) && is_cjk(right))
}

/// Index of the first mapping whose logical range covers `lo..hi`.
pub open spec fn covering(ms: Seq<SourceMapping>, lo: int, hi: int) -> Option<int>
    decreases ms.len(),
{
    if ms.len() == 0 {
        None
    } else {
        match covering(ms.drop_last(), lo, hi) {
            Some(i) => Some(i),
            None => if ms.last().logical.start <= lo && hi <= ms.last().logical.end {
                Some(ms.len() - 1)
            } else {
                None
            },
        }
    }
}

/// Both characters are covered, by one mapping or by two whose source bytes
/// are contiguous in one file.
pub open spec fn boundary_supported(ms: Seq<SourceMapping>, a: int, m: int, e: int) -> bool {
    match (covering(ms, a, m), covering(ms, m, e)) {
        (Some(l), Some(r)) => l == r || (ms[l].source.file@ == ms[r].source.file@ && ms[l].source.end
            == ms[r].source.start),
        _ => false,
    }
}

/// Some match of a valid pattern overlaps bytes `a..e`.
pub open spec fn exempt(patterns: Seq<Seq<char>>, text: Seq<char>, a: int, e: int) -> bool {
    exists|p: int, k: int|
        0 <= p < patterns.len() && 0 <= k < regex_match_ranges(patterns[p], text).len() && a < (
        #[trigger] regex_match_ranges(patterns[p], text)[k]).1 && regex_match_ranges(patterns[p], text)[k].0 < e
}

/// The findings among the first `n` character pairs of a block, as byte ranges.
pub open spec fn pair_findings(block: TextBlock, patterns: Seq<Seq<char>>, n: int) -> Seq<(usize, usize)>
    decreases n,
{
    if n <= 0 {
        Seq::empty()
    } else {
        let s = block.text@;
        let i = n - 1;
        let a = byte_pos(s, i) as int;
        let m = byte_pos(s, i + 1) as int;
        let e = byte_pos(s, i + 2) as int;
        pair_findings(block, patterns, n - 1) + if spec_missing_space(s[i], s[i + 1]) && boundary_supported(
            block.mappings@,
            a,
            m,
            e,
        ) && !exempt(patterns, s, a, e) {
            seq![(a as usize, e as usize)]
        } else {
            Seq::empty()
        }
    }
}

/// The findings of a block: every pair, in order.
pub open spec fn spec_block_findings(block: TextBlock, patterns: Seq<Seq<char>>) -> Seq<(usize, usize)> {
    if block.text@.len() < 2 {
        Seq::empty()
    } else {
        pair_findings(block, patterns, block.text@.len() - 1)
    }
}

fn covering_index(ms: &Vec<SourceMapping>, lo: usize, hi: usize) -> (r: Option<usize>)
    ensures
        match r {
            Some(i) => covering(ms@, lo as int, hi as int) == Some(i as int) && i < ms@.len(),
            None => covering(ms@, lo as int, hi as int) is None,
        },
{
    let mut i: usize = 0;
    while i < ms.len()
        invariant
            i <= ms@.len(),
            covering(ms@.take(i as int), lo as int, hi as int) is None,
        decreases ms@.len() - i,
    {
        assert(ms@.take(i + 1).drop_last() =~= ms@.take(i as int));
        if ms[i].logical.start <= lo && hi <= ms[i].logical.end {
            proof {
                lemma_covering_prefix(ms@, i as int + 1, lo as int, hi as int, i as int);
            }
            return Some(i);
        }
        i = i + 1;
    }
    assert(ms@.take(i as int) =~= ms@);
    None
}

proof fn lemma_covering_prefix(ms: Seq<SourceMapping>, n: int, lo: int, hi: int, j: int)
    requires
        0 < n <= ms.len(),
        covering(ms.take(n), lo, hi) == Some(j),
    ensures
        covering(ms, lo, hi) == Some(j),
    decreases ms.len() - n,
{
    if n < ms.len() {
        assert(ms.take(n + 1).drop_last() =~= ms.take(n));
        lemma_covering_prefix(ms, n + 1, lo, hi, j);
    } else {
        assert(ms.take(n) =~= ms);
    }
}

fn any_overlap(ranges: &Vec<(usize, usize)>, a: usize, e: usize) -> (r: bool)
    ensures
        r == exists|k: int| 0 <= k < ranges@.len() && a < (#[trigger] ranges@[k]).1 && ranges@[k].0 < e,
{
    let mut k: usize = 0;
    while k < ranges.len()
        invariant
            k <= ranges@.len(),
            forall|j: int| 0 <= j < k ==> !(a < (#[trigger] ranges@[j]).1 && ranges@[j].0 < e),
        decreases ranges@.len() - k,
    {
        if a < ranges[k].1 && ranges[k].0 < e {
            return true;
        }
        k = k + 1;
    }
    false
}

/// Ordered boundary findings for one block, as logical byte ranges.
pub fn block_findings(block: &TextBlock, patterns: &[String]) -> (r: Vec<(usize, usize)>)
    ensures
        r@ == spec_block_findings(*block, valid_patterns(patterns@.map_values(|p: String| p@))),
{
    let valid = compile_ignore_patterns(patterns);
    let ghost vp = valid_patterns(patterns@.map_values(|p: String| p@));
    let text = block.text.as_str();
    let s = chars_of(text);
    let offsets = byte_offsets(&s);
    let mut findings: Vec<(usize, usize)> = Vec::new();
    if s.len() < 2 {
        return findings;
    }
    // The matches of every valid pattern, pattern by pattern.
    let mut exemptions: Vec<Vec<(usize, usize)>> = Vec::new();
    let mut p: usize = 0;
    while p < valid.len()
        invariant
            p <= valid@.len(),
            valid@.map_values(|p: String| p@) == vp,
            vp == valid_patterns(patterns@.map_values(|p: String| p@)),
            exemptions@.len() == p,
            forall|q: int| 0 <= q < p ==> (#[trigger] exemptions@[q])@ == regex_match_ranges(vp[q], text@),
        decreases valid@.len() - p,
    {
        assert(vp[p as int] == valid@[p as int]@);
        assert(vp.len() == valid@.len());
        proof {
            lemma_valid_compiles(patterns@.map_values(|p: String| p@), p as int);
        }
        let v = match regex_ranges(valid[p].as_str(), text) {
            Some(v) => v,
            None => Vec::new(),
        };
        exemptions.push(v);
        p = p + 1;
    }
    let n = s.len() - 1;
    let mut i: usize = 0;
    while i < n
        invariant
            i <= n,
            n == s@.len() - 1,
            s@ == block.text@,
            text@ == block.text@,
            offsets@.len() == s@.len() + 1,
            forall|k: int| 0 <= k <= s@.len() ==> offsets@[k] == byte_pos(s@, k),
            exemptions@.len() == vp.len(),
            forall|q: int| 0 <= q < vp.len() ==> (#[trigger] exemptions@[q])@ == regex_match_ranges(vp[q], text@),
            findings@ == pair_findings(*block, vp, i as int),
        decreases n - i,
    {
        assert(i + 2 < offsets@.len() && offsets@.len() == offsets.len());
        let a = offsets[i];
        let m = offsets[i + 1];
        let e = offsets[i + 2];
        let mut found = false;
        if is_missing_space_boundary(s[i], s[i + 1]) {
            let supported = match (covering_index(&block.mappings, a, m), covering_index(&block.mappings, m, e)) {
                (Some(l), Some(r)) => l == r || (str_eq(
                    block.mappings[l].source.file.as_str(),
                    block.mappings[r].source.file.as_str(),
                ) && block.mappings[l].source.end == block.mappings[r].source.start),
                _ => false,
            };
            if supported {
                let mut exempted = false;
                let mut q: usize = 0;
                while q < exemptions.len() && !exempted
                    invariant
                        q <= exemptions@.len(),
                        exemptions@.len() == vp.len(),
                        forall|x: int| 0 <= x < vp.len() ==> (#[trigger] exemptions@[x])@ == regex_match_ranges(vp[x], text@),
                        exempted ==> exempt(vp, text@, a as int, e as int),
                        !exempted ==> forall|x: int, k: int|
                            0 <= x < q && 0 <= k < regex_match_ranges(vp[x], text@).len() ==> !(a < (
                            #[trigger] regex_match_ranges(vp[x], text@)[k]).1 && regex_match_ranges(vp[x], text@)[k].0
                                < e),
                    decreases exemptions@.len() - q + if exempted { 0int } else { 1int },
                {
                    if any_overlap(&exemptions[q], a, e) {
                        exempted = true;
                    } else {
                        q = q + 1;
                    }
                }
                found = !exempted;
                proof {
                    if !exempted {
                        assert(!exempt(vp, text@, a as int, e as int));
                    }
                }
            }
            assert(supported == boundary_supported(block.mappings@, a as int, m as int, e as int));
        }
        proof {
            assert(found == (spec_missing_space(s@[i as int], s@[i + 1]) && boundary_supported(
                block.mappings@,
                a as int,
                m as int,
                e as int,
            ) && !exempt(vp, text@, a as int, e as int)));
        }
        if found {
            findings.push((a, e));
        }
        proof {
            assert(findings@ =~= pair_findings(*block, vp, i + 1));
        }
        i = i + 1;
    }
    findings
}

proof fn lemma_valid_compiles(ps: Seq<Seq<char>>, q: int)
    requires
        0 <= q < valid_patterns(ps).len(),
    ensures
        regex_compiles(valid_patterns(ps)[q]),
    decreases ps.len(),
{
    if ps.len() > 0 {
        let prev = valid_patterns(ps.drop_last());
        if q < prev.len() {
            lemma_valid_compiles(ps.drop_last(), q);
        }
    }
}

pub open spec fn punc_message() -> Seq<char> {
    "missing space between CJK and Latin/number"@
}

/// The findings of the first `nb` blocks, located in the sources.
pub open spec fn punc_findings(doc: Document, patterns: Seq<Seq<char>>, level: Level, nb: int) -> Seq<DiagnosticView>
    decreases nb,
{
    if nb <= 0 {
        Seq::empty()
    } else {
        punc_findings(doc, patterns, level, nb - 1) + located(
            doc,
            (nb - 1) as usize,
            level,
            spec_block_findings(doc.blocks@[nb - 1], patterns),
            spec_block_findings(doc.blocks@[nb - 1], patterns).len() as int,
        )
    }
}

/// The first `k` findings of block `b` that map to a source span.
pub open spec fn located(doc: Document, b: usize, level: Level, fs: Seq<(usize, usize)>, k: int) -> Seq<DiagnosticView>
    decreases k,
{
    if k <= 0 {
        Seq::empty()
    } else {
        located(doc, b, level, fs, k - 1) + match block_span(doc, b, fs[k - 1].0 as int, fs[k - 1].1 as int) {
            Some(span) => seq![DiagnosticView { rule: RuleId::Punc002, severity: level, message: punc_message(), span }],
            None => Seq::empty(),
        }
    }
}

impl Punc002 {
    /// Every reportable boundary of every block, ordered by file and position.
    pub fn findings(&self, context: &LintContext) -> (r: Vec<Diagnostic>)
        requires
            context.well_formed(),
        ensures
            context.spec_config().rules.punc002.level == Level::Off ==> r@.len() == 0,
            context.spec_config().rules.punc002.level != Level::Off ==> views(r@) == stable_sorted::<Diagnostic, SpanOrder>(
                punc_findings(
                    context.spec_document(),
                    valid_patterns(context.spec_config().rules.punc002.ignore_patterns@.map_values(|p: String| p@)),
                    context.spec_config().rules.punc002.level,
                    context.spec_document().blocks@.len() as int,
                ),
            ),
    {
        let rule = &context.config().rules.punc002;
        let level = rule.level;
        let document = context.document();
        if !level.is_enabled() {
            return Vec::new();
        }
        let ghost doc = context.spec_document();
        let ghost vp = valid_patterns(rule.ignore_patterns@.map_values(|p: String| p@));
        let mut diagnostics: Vec<Diagnostic> = Vec::new();
        let mut b: usize = 0;
        while b < document.blocks.len()
            invariant
                b <= doc.blocks@.len(),
                *document == doc,
                context.well_formed(),
                context.spec_document() == doc,
                vp == valid_patterns(rule.ignore_patterns@.map_values(|p: String| p@)),
                views(diagnostics@) == punc_findings(doc, vp, level, b as int),
            decreases doc.blocks@.len() - b,
        {
            let fs = block_findings(&document.blocks[b], rule.ignore_patterns.as_slice());
            let ghost base = views(diagnostics@);
            let mut k: usize = 0;
            while k < fs.len()
                invariant
                    k <= fs@.len(),
                    b < doc.blocks@.len(),
                    *document == doc,
                    context.well_formed(),
                    context.spec_document() == doc,
                    fs@ == spec_block_findings(doc.blocks@[b as int], vp),
                    views(diagnostics@) == base + located(doc, b, level, fs@, k as int),
                decreases fs@.len() - k,
            {
                let ghost prev = diagnostics@;
                match context.span(b, fs[k].0..fs[k].1) {
                    Some(span) => {
                        let d = Diagnostic {
                            rule: RuleId::Punc002,
                            severity: level,
                            message: message(),
                            span,
                        };
                        diagnostics.push(d);
                        proof {
                            crate::order::lemma_views_push(prev, d);
                        }
                    },
                    None => {},
                }
                proof {
                    assert(views(diagnostics@) =~= base + located(doc, b, level, fs@, k + 1));
                }
                k = k + 1;
            }
            b = b + 1;
        }
        stable_sort::<Diagnostic, SpanOrder>(diagnostics)
    }
}

fn message() -> (m: String)
    ensures
        m@ == punc_message(),
{
    let m = "missing space between CJK and Latin/number".to_owned();
    m
}

impl Rule for Punc002 {
    fn id(&self) -> (r: RuleId)
        ensures
            r == RuleId::Punc002,
    {
        RuleId::Punc002
    }

    fn check(&self, context: &LintContext) -> (r: Vec<Diagnostic>)
        ensures
            context.spec_config().rules.punc002.level == Level::Off ==> r@.len() == 0,
            context.spec_config().rules.punc002.level != Level::Off ==> views(r@) == stable_sorted::<Diagnostic, SpanOrder>(
                punc_findings(
                    context.spec_document(),
                    valid_patterns(context.spec_config().rules.punc002.ignore_patterns@.map_values(|p: String| p@)),
                    context.spec_config().rules.punc002.level,
                    context.spec_document().blocks@.len() as int,
                ),
            ),
    {
        self.findings(context)
    }
}

/// PUNC002 wants a space exactly between a Han character and an ASCII
/// letter or digit, in either order: `用L` and `M推` need one; two Han
/// characters, two ASCII characters, and any pair with whitespace or
/// punctuation do not.
pub proof fn lemma_missing_space_pairs(left: char, right: char)
    ensures
        spec_missing_space(left, right) == spec_missing_space(right, left),
        ('\u{4E00}' <= left && left <= '\u{9FFF}') && (('a' <= right && right <= 'z') || ('A' <= right && right
            <= 'Z') || ('0' <= right && right <= '9')) ==> spec_missing_space(left, right),
        (left as u32) < 0x80 && (right as u32) < 0x80 ==> !spec_missing_space(left, right),
        ('\u{4E00}' <= left && left <= '\u{9FFF}') && ('\u{4E00}' <= right && right <= '\u{9FFF}')
            ==> !spec_missing_space(left, right),
        !(('a' <= right && right <= 'z') || ('A' <= right && right <= 'Z') || ('0' <= right && right <= '9'))
            && !(('a' <= left && left <= 'z') || ('A' <= left && left <= 'Z') || ('0' <= left && left <= '9'))
            ==> !spec_missing_space(left, right),
{
}

} // verus!
