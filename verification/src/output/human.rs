//! Human-readable diagnostic reports: a header per diagnostic, the source
//! line cropped around the span, a marker under the span, and a summary.
use super::path::{display_path, spec_display_path};
use crate::config::Level;
use crate::latex::span::SourceFile;
use crate::lint::analysis::{char_index, is_char_boundary};
use crate::lint::diagnostic::{Diagnostic, DiagnosticView};
use crate::order::views;
use crate::rules::{concat, decimal, decimal_string, joined_pieces};
use crate::text::unicode::{byte_len, byte_offsets, byte_pos, chars_of, is_control, push_char, str_eq, string_of};
use vstd::prelude::*;

verus! {

pub const TAB_WIDTH: usize = 4;
pub const MAX_SNIPPET_WIDTH: usize = 80;
pub const MAX_HEADER_WIDTH: usize = 100;
pub const MAX_MARKER_WIDTH: usize = 24;
pub const ELLIPSIS_WIDTH: usize = 1;

/// Controls ANSI styling in human-readable diagnostic output.
#[derive(Debug, Clone, Copy, PartialEq, Eq, Structural)]
pub enum ColorMode {
    Auto,
    Always,
    Never,
}

/// Why a report could not be rendered.
#[derive(Debug, PartialEq, Eq)]
pub enum HumanRenderError {
    /// A diagnostic names a source that was not loaded.
    MissingSource(String),
    /// A diagnostic's byte range does not fit its source.
    InvalidByteRange { path: String, start: usize, end: usize, source_len: usize },
}

/// The text a render error is shown with.
pub open spec fn render_error_text(e: HumanRenderError) -> Seq<char> {
    match e {
        HumanRenderError::MissingSource(path) => "diagnostic source was not loaded: "@ + path@,
        HumanRenderError::InvalidByteRange { path, start, end, source_len } => "invalid byte range "@
            + decimal(start as nat) + ".."@ + decimal(end as nat) + " for diagnostic source "@ + path@
            + " (source length "@ + decimal(source_len as nat) + ")"@,
    }
}

impl HumanRenderError {
    /// The error as it is shown to the user.
    pub fn message(&self) -> (m: String)
        ensures
            m@ == render_error_text(*self),
    {
        match self {
            HumanRenderError::MissingSource(path) => {
                let mut m = "diagnostic source was not loaded: ".to_owned();
                m.append(path.as_str());
                m
            },
            HumanRenderError::InvalidByteRange { path, start, end, source_len } => {
                let mut m = "invalid byte range ".to_owned();
                m.append(decimal_string(*start).as_str());
                m.append("..");
                m.append(decimal_string(*end).as_str());
                m.append(" for diagnostic source ");
                m.append(path.as_str());
                m.append(" (source length ");
                m.append(decimal_string(*source_len).as_str());
                m.append(")");
                m
            },
        }
    }
}

/// The display width that `unicode_width` gives a text.
pub uninterp spec fn str_width(text: Seq<char>) -> usize;

/// The extended grapheme clusters that `unicode_segmentation` splits a text into.
pub uninterp spec fn grapheme_split(text: Seq<char>) -> Seq<Seq<char>>;

/// `UnicodeWidthStr::width`: the text's width in terminal columns, named
/// by its result.
#[verifier::external_body]
fn display_width(text: &str) -> (w: usize)
    ensures
        w == str_width(text@),
{
    unicode_width::UnicodeWidthStr::width(text)
}

/// `UnicodeSegmentation::graphemes(text, true)`: the extended grapheme
/// clusters, which are consecutive slices of the text, so that together
/// they give it back.
#[verifier::external_body]
fn graphemes(text: &str) -> (g: Vec<String>)
    ensures
        g@.map_values(|s: String| s@) == grapheme_split(text@),
        g@.map_values(|s: String| s@).flatten() == text@,
{
    unicode_segmentation::UnicodeSegmentation::graphemes(text, true).map(|s| s.to_string()).collect()
}

/// A source line cropped for display, with where its marker goes.
#[derive(Debug, PartialEq, Eq)]
pub struct Snippet {
    pub text: String,
    pub marker_start: usize,
    pub marker_width: usize,
    pub continues: bool,
}

/// The columns of a text kept between two columns, and where they begin and end.
#[derive(Debug)]
pub struct ColumnSlice {
    pub text: String,
    pub start: usize,
    pub end: usize,
}

/// Slicing state after some graphemes: the next column, the first kept
/// column, the end of the last kept grapheme, the kept text, and whether
/// the end column was reached.
pub struct SliceState {
    pub column: int,
    pub first: Option<int>,
    pub last: int,
    pub text: Seq<char>,
    pub done: bool,
}

pub open spec fn slice_step(st: SliceState, g: Seq<char>, start: int, end: int) -> SliceState {
    if st.done {
        st
    } else {
        let next = st.column + str_width(g);
        let take = st.column >= start && next <= end;
        SliceState {
            column: next,
            first: if take && st.first is None { Some(st.column) } else { st.first },
            last: if take { next } else { st.last },
            text: if take { st.text + g } else { st.text },
            done: next >= end,
        }
    }
}

pub open spec fn slice_fold(gs: Seq<Seq<char>>, start: int, end: int, k: int) -> SliceState
    decreases k,
{
    if k <= 0 {
        SliceState { column: 0, first: None, last: start, text: Seq::empty(), done: false }
    } else {
        slice_step(slice_fold(gs, start, end, k - 1), gs[k - 1], start, end)
    }
}

/// The graphemes lying wholly within columns `start..end`: their text, the
/// column where they begin (`start` when none), and where they end.
pub open spec fn spec_slice(text: Seq<char>, start: int, end: int) -> (Seq<char>, int, int) {
    let st = slice_fold(grapheme_split(text), start, end, grapheme_split(text).len() as int);
    (st.text, match st.first {
        Some(f) => f,
        None => start,
    }, st.last)
}

proof fn lemma_slice_fold_first(gs: Seq<Seq<char>>, start: int, end: int, k: int)
    ensures
        slice_fold(gs, start, end, k).first matches Some(f) ==> f >= start,
    decreases k,
{
    if k > 0 {
        lemma_slice_fold_first(gs, start, end, k - 1);
    }
}

/// The slice begins at or after the column asked for.
pub proof fn lemma_slice_start(text: Seq<char>, start: int, end: int)
    ensures
        spec_slice(text, start, end).1 >= start,
{
    lemma_slice_fold_first(grapheme_split(text), start, end, grapheme_split(text).len() as int);
}

/// Keeps the graphemes of `text` that lie wholly within columns `start..end`.
pub fn slice_columns(text: &str, start: usize, end: usize) -> (r: ColumnSlice)
    ensures
        (r.text@, r.start as int, r.end as int) == spec_slice(text@, start as int, end as int),
{
    let gs = graphemes(text);
    let ghost gv = grapheme_split(text@);
    let mut output = String::new();
    let mut column: u128 = 0;
    let mut first: Option<usize> = None;
    let mut last: usize = start;
    let mut done = false;
    let mut k: usize = 0;
    while k < gs.len()
        invariant
            k <= gs@.len(),
            gs@.map_values(|s: String| s@) == gv,
            column <= k * 0xffff_ffff_ffff_ffffu128,
            ({
                let st = slice_fold(gv, start as int, end as int, k as int);
                &&& st.column == column
                &&& st.first == match first {
                    Some(f) => Some(f as int),
                    None => None::<int>,
                }
                &&& st.last == last
                &&& st.text == output@
                &&& st.done == done
            }),
        decreases gs@.len() - k,
    {
        assert(gv[k as int] == gs@[k as int]@);
        if !done {
            let w = display_width(gs[k].as_str());
            let next = column + (w as u128);
            let take = column >= start as u128 && next <= end as u128;
            if take {
                if first.is_none() {
                    first = Some(column as usize);
                }
                last = next as usize;
                output.append(gs[k].as_str());
            }
            column = next;
            done = next >= end as u128;
        }
        proof {
            assert(k * 0xffff_ffff_ffff_ffffu128 + 0xffff_ffff_ffff_ffffu128 == (k + 1) * 0xffff_ffff_ffff_ffffu128) by (nonlinear_arith);
        }
        k = k + 1;
    }
    let s = match first {
        Some(f) => f,
        None => start,
    };
    ColumnSlice { text: output, start: s, end: last }
}

/// The snippet that shows a span of a display line: the whole line when it
/// fits, otherwise a window of the line around the span with an ellipsis on
/// each clipped side.
pub open spec fn spec_crop(text: Seq<char>, span_start: int, span_width: int, continues: bool) -> (
    Seq<char>,
    int,
    int,
    bool,
) {
    let total = str_width(text) as int;
    if total <= MAX_SNIPPET_WIDTH {
        let visible = max1(min(span_width, sat_sub(total, span_start)));
        (text, span_start, min(visible, MAX_MARKER_WIDTH as int), continues || visible > MAX_MARKER_WIDTH)
    } else {
        let effective = max1(min(span_width, MAX_SNIPPET_WIDTH - 2));
        let context = MAX_SNIPPET_WIDTH - effective;
        let desired = sat_sub(span_start, context / 2);
        let max_start = total - MAX_SNIPPET_WIDTH;
        let window_start = min(desired, max_start);
        let window_end = window_start + MAX_SNIPPET_WIDTH;
        let left = window_start > 0;
        let right = window_end < total;
        let content_start = window_start + if left { ELLIPSIS_WIDTH as int } else { 0 };
        let content_end = window_end - if right { ELLIPSIS_WIDTH as int } else { 0 };
        let (sliced, slice_start, slice_end) = spec_slice(text, content_start, content_end);
        let cropped = (if left { "…"@ } else { Seq::empty() }) + sliced + (if right { "…"@ } else { Seq::empty() });
        let vstart = if span_start > slice_start { span_start } else { slice_start };
        let vend = min(span_start + span_width, slice_end);
        let marker_start = (if left { ELLIPSIS_WIDTH as int } else { 0 }) + sat_sub(vstart, slice_start);
        let visible = max1(sat_sub(vend, vstart));
        (
            cropped,
            marker_start,
            min(visible, MAX_MARKER_WIDTH as int),
            continues || span_start < slice_start || span_start + span_width > slice_end || visible > MAX_MARKER_WIDTH,
        )
    }
}

pub open spec fn min(a: int, b: int) -> int {
    if a < b { a } else { b }
}

pub open spec fn max1(a: int) -> int {
    if a < 1 { 1 } else { a }
}

pub open spec fn sat_sub(a: int, b: int) -> int {
    if a > b { a - b } else { 0 }
}

fn crop_window(text: &str, total: usize, span_start: usize, span_width: usize, continues: bool) -> (r: Snippet)
    requires
        span_start + span_width <= usize::MAX,
        total == str_width(text@),
        total > MAX_SNIPPET_WIDTH,
    ensures
        (r.text@, r.marker_start as int, r.marker_width as int, r.continues) == spec_crop(
            text@,
            span_start as int,
            span_width as int,
            continues,
        ),
{
    let m = if span_width < MAX_SNIPPET_WIDTH - 2 { span_width } else { MAX_SNIPPET_WIDTH - 2 };
    let effective = if m < 1 { 1 } else { m };
    let context = MAX_SNIPPET_WIDTH - effective;
    let desired = if span_start > context / 2 { span_start - context / 2 } else { 0 };
    let max_start = total - MAX_SNIPPET_WIDTH;
    let window_start = if desired < max_start { desired } else { max_start };
    let window_end = window_start + MAX_SNIPPET_WIDTH;
    let left = window_start > 0;
    let right = window_end < total;
    let content_start = window_start + if left { ELLIPSIS_WIDTH } else { 0 };
    let content_end = window_end - if right { ELLIPSIS_WIDTH } else { 0 };
    let slice = slice_columns(text, content_start, content_end);
    proof {
        lemma_slice_start(text@, content_start as int, content_end as int);
    }
    let mut cropped = String::new();
    if left {
        cropped.append("…");
    }
    cropped.append(slice.text.as_str());
    if right {
        cropped.append("…");
    }
    proof {
        reveal_strlit("…");
    }
    let vstart = if span_start > slice.start { span_start } else { slice.start };
    let end = span_start + span_width;
    let vend = if end < slice.end { end } else { slice.end };
    let offset = if vstart > slice.start { vstart - slice.start } else { 0 };
    let marker_start = if left { offset + ELLIPSIS_WIDTH } else { offset };
    let width = if vend > vstart { vend - vstart } else { 0 };
    let visible = if width < 1 { 1 } else { width };
    assert(cropped@ =~= (if left { "…"@ } else { Seq::empty() }) + slice.text@ + (if right { "…"@ } else { Seq::empty() }));
    Snippet {
        text: cropped,
        marker_start,
        marker_width: if visible < MAX_MARKER_WIDTH { visible } else { MAX_MARKER_WIDTH },
        continues: continues || span_start < slice.start || end > slice.end || visible > MAX_MARKER_WIDTH,
    }
}

/// Crops a display line to at most `MAX_SNIPPET_WIDTH` columns around the
/// span at columns `span_start..span_start + span_width`.
pub fn crop_snippet(text: &str, span_start: usize, span_width: usize, continues: bool) -> (r: Snippet)
    requires
        span_start + span_width <= usize::MAX,
    ensures
        (r.text@, r.marker_start as int, r.marker_width as int, r.continues) == spec_crop(
            text@,
            span_start as int,
            span_width as int,
            continues,
        ),
{
    let total = display_width(text);
    if total <= MAX_SNIPPET_WIDTH {
        let rest = if total > span_start { total - span_start } else { 0 };
        let m = if span_width < rest { span_width } else { rest };
        let visible = if m < 1 { 1 } else { m };
        return Snippet {
            text: text.to_owned(),
            marker_start: span_start,
            marker_width: if visible < MAX_MARKER_WIDTH { visible } else { MAX_MARKER_WIDTH },
            continues: continues || visible > MAX_MARKER_WIDTH,
        };
    }
    crop_window(text, total, span_start, span_width, continues)
}

/// `a + b`, capped at `usize::MAX`.
pub open spec fn sat_add(a: int, b: int) -> int {
    if a + b > usize::MAX { usize::MAX as int } else { a + b }
}

/// The text cut to `max_width` columns, with an ellipsis when cut.
pub open spec fn spec_truncate(text: Seq<char>, max_width: int) -> Seq<char> {
    if str_width(text) <= max_width {
        text
    } else if max_width <= ELLIPSIS_WIDTH {
        "…"@
    } else {
        spec_slice(text, 0, max_width - ELLIPSIS_WIDTH).0 + "…"@
    }
}

/// Cuts a text to `max_width` columns, ending with an ellipsis when cut.
pub fn truncate_text(text: &str, max_width: usize) -> (r: String)
    ensures
        r@ == spec_truncate(text@, max_width as int),
{
    proof {
        reveal_strlit("…");
    }
    if display_width(text) <= max_width {
        return text.to_owned();
    }
    if max_width <= ELLIPSIS_WIDTH {
        return "…".to_owned();
    }
    let slice = slice_columns(text, 0, max_width - ELLIPSIS_WIDTH);
    let mut out = slice.text;
    out.append("…");
    out
}

/// `n` copies of a character.
pub open spec fn repeated(c: char, n: nat) -> Seq<char> {
    Seq::new(n, |i: int| c)
}

fn repeat_char(c: char, n: usize) -> (s: String)
    ensures
        s@ == repeated(c, n as nat),
{
    let mut s = String::new();
    let mut i: usize = 0;
    while i < n
        invariant
            i <= n,
            s@ == repeated(c, i as nat),
        decreases n - i,
    {
        push_char(&mut s, c);
        assert(s@ =~= repeated(c, (i + 1) as nat));
        i = i + 1;
    }
    s
}

/// The marker under a span: carets, and an ellipsis when the span goes on.
pub open spec fn spec_marker(width: nat, continues: bool) -> Seq<char> {
    repeated('^', width) + if continues { "…"@ } else { Seq::empty() }
}

fn marker(width: usize, continues: bool) -> (s: String)
    ensures
        s@ == spec_marker(width as nat, continues),
{
    let mut s = repeat_char('^', width);
    if continues {
        s.append("…");
    }
    proof {
        reveal_strlit("…");
    }
    s
}

/// The ANSI colors of the report.
pub open spec fn error_color() -> Seq<char> {
    seq!['\u{1b}', '[', '3', '1', 'm']
}

pub open spec fn warning_color() -> Seq<char> {
    seq!['\u{1b}', '[', '3', '3', 'm']
}

pub open spec fn location_color() -> Seq<char> {
    seq!['\u{1b}', '[', '3', '6', 'm']
}

pub open spec fn reset_color() -> Seq<char> {
    seq!['\u{1b}', '[', '0', 'm']
}

fn ansi(code: char, second: Option<char>) -> (s: String)
    ensures
        s@ == seq!['\u{1b}', '['] + match second {
            Some(d) => seq![code, d],
            None => seq![code],
        } + seq!['m'],
{
    let mut s = String::new();
    push_char(&mut s, '\u{1b}');
    push_char(&mut s, '[');
    push_char(&mut s, code);
    match second {
        Some(d) => push_char(&mut s, d),
        None => {},
    }
    push_char(&mut s, 'm');
    assert(s@ =~= seq!['\u{1b}', '['] + match second {
        Some(d) => seq![code, d],
        None => seq![code],
    } + seq!['m']);
    s
}

/// The color of a severity.
pub open spec fn severity_color(level: Level) -> Seq<char> {
    match level {
        Level::Error => error_color(),
        Level::Warning => warning_color(),
        Level::Off => reset_color(),
    }
}

fn color_of(level: Level) -> (s: String)
    ensures
        s@ == severity_color(level),
{
    let s = match level {
        Level::Error => ansi('3', Some('1')),
        Level::Warning => ansi('3', Some('3')),
        Level::Off => ansi('0', None),
    };
    assert(s@ =~= severity_color(level));
    s
}

/// The text in a color, when colors are on.
pub open spec fn spec_paint(text: Seq<char>, color: Seq<char>, enabled: bool) -> Seq<char> {
    if enabled {
        color + text + reset_color()
    } else {
        text
    }
}

fn paint(text: &str, color: &str, enabled: bool) -> (s: String)
    ensures
        s@ == spec_paint(text@, color@, enabled),
{
    if enabled {
        let reset = ansi('0', None);
        let mut s = color.to_owned();
        s.append(text);
        s.append(reset.as_str());
        assert(reset@ =~= reset_color());
        s
    } else {
        text.to_owned()
    }
}

/// The label of a reported severity; `Off` is not reported.
pub open spec fn severity_label(level: Level) -> Option<Seq<char>> {
    match level {
        Level::Error => Some("error"@),
        Level::Warning => Some("warning"@),
        Level::Off => None,
    }
}

/// How many diagnostics have this severity.
pub open spec fn count_level(ds: Seq<DiagnosticView>, level: Level) -> nat
    decreases ds.len(),
{
    if ds.len() == 0 {
        0
    } else {
        count_level(ds.drop_last(), level) + if ds.last().severity == level { 1nat } else { 0nat }
    }
}

pub open spec fn plural(count: nat, singular: Seq<char>, plural: Seq<char>) -> Seq<char> {
    if count == 1 { singular } else { plural }
}

/// The closing summary: the number of problems, errors and warnings.
pub open spec fn spec_summary(ds: Seq<DiagnosticView>) -> Seq<char> {
    let errors = count_level(ds, Level::Error);
    let warnings = count_level(ds, Level::Warning);
    let problems = errors + warnings;
    if problems == 0 {
        "No problems found.\n"@
    } else {
        "\nFound "@ + decimal(problems) + " "@ + plural(problems, "problem"@, "problems"@) + ": "@ + decimal(errors)
            + " "@ + plural(errors, "error"@, "errors"@) + ", "@ + decimal(warnings) + " "@ + plural(
            warnings,
            "warning"@,
            "warnings"@,
        ) + "\n"@
    }
}

fn summary(diagnostics: &[Diagnostic]) -> (s: String)
    ensures
        s@ == spec_summary(views(diagnostics@)),
{
    let ghost dv = views(diagnostics@);
    let mut errors: usize = 0;
    let mut warnings: usize = 0;
    let mut i: usize = 0;
    while i < diagnostics.len()
        invariant
            i <= diagnostics@.len(),
            dv == views(diagnostics@),
            errors == count_level(dv.take(i as int), Level::Error),
            warnings == count_level(dv.take(i as int), Level::Warning),
            errors + warnings <= i,
        decreases diagnostics@.len() - i,
    {
        assert(dv.take(i + 1).drop_last() =~= dv.take(i as int));
        assert(dv.take(i + 1).last() == diagnostics@[i as int]@);
        match diagnostics[i].severity {
            Level::Error => errors = errors + 1,
            Level::Warning => warnings = warnings + 1,
            Level::Off => {},
        }
        i = i + 1;
    }
    assert(dv.take(i as int) =~= dv);
    let problems = errors + warnings;
    if problems == 0 {
        return "No problems found.\n".to_owned();
    }
    let p = decimal_string(problems);
    let e = decimal_string(errors);
    let w = decimal_string(warnings);
    let pieces: [&str; 13] = [
        "\nFound ",
        p.as_str(),
        " ",
        if problems == 1 { "problem" } else { "problems" },
        ": ",
        e.as_str(),
        " ",
        if errors == 1 { "error" } else { "errors" },
        ", ",
        w.as_str(),
        " ",
        if warnings == 1 { "warning" } else { "warnings" },
        "\n",
    ];
    let s = concat(&pieces);
    proof {
        reveal_strlit("\nFound ");
        reveal_strlit(" ");
        reveal_strlit("problem");
        reveal_strlit("problems");
        reveal_strlit(": ");
        reveal_strlit("error");
        reveal_strlit("errors");
        reveal_strlit(", ");
        reveal_strlit("warning");
        reveal_strlit("warnings");
        reveal_strlit("\n");
        let ps = pieces@.map_values(|x: &str| x@);
        reveal_with_fuel(joined_pieces, 14);
        assert(ps.take(0) =~= Seq::<Seq<char>>::empty());
        assert(ps.drop_last().drop_last().drop_last().drop_last().drop_last().drop_last().drop_last().drop_last()
            .drop_last().drop_last().drop_last().drop_last().drop_last() =~= Seq::<Seq<char>>::empty());
    }
    s
}

/// A line break character.
pub open spec fn is_break(c: char) -> bool {
    c == '\n' || c == '\r'
}

/// The first character of the line holding character `i`.
pub open spec fn report_line_start(s: Seq<char>, i: int) -> int
    decreases i,
{
    if i <= 0 || i > s.len() || is_break(s[i - 1]) {
        i
    } else {
        report_line_start(s, i - 1)
    }
}

/// One past the last character of the line holding character `i`.
pub open spec fn report_line_end(s: Seq<char>, i: int) -> int
    decreases s.len() - i,
{
    if i < 0 || i >= s.len() || is_break(s[i]) {
        i
    } else {
        report_line_end(s, i + 1)
    }
}

/// Line breaks among the first `n` characters.
pub open spec fn breaks(s: Seq<char>, n: int) -> nat
    decreases n,
{
    if n <= 0 {
        0
    } else {
        breaks(s, n - 1) + if is_break(s[n - 1]) { 1nat } else { 0nat }
    }
}

/// `\r\n` pairs among the first `n` characters.
pub open spec fn crlf_pairs(s: Seq<char>, n: int) -> nat
    decreases n,
{
    if n <= 1 {
        0
    } else {
        crlf_pairs(s, n - 1) + if s[n - 2] == '\r' && s[n - 1] == '\n' { 1nat } else { 0nat }
    }
}

/// The 1-based line and column of character `i`: a `\r\n` pair ends one line.
pub open spec fn report_line_column(s: Seq<char>, i: int) -> (int, int) {
    let ls = report_line_start(s, i);
    (breaks(s, ls) + 1 - crlf_pairs(s, ls), i - ls + 1)
}

proof fn lemma_line_bounds(s: Seq<char>, i: int)
    requires
        0 <= i <= s.len(),
    ensures
        0 <= report_line_start(s, i) <= i <= report_line_end(s, i) <= s.len(),
    decreases s.len() - i + i,
{
    lemma_line_start_bounds(s, i);
    lemma_line_end_bounds(s, i);
}

proof fn lemma_line_start_bounds(s: Seq<char>, i: int)
    requires
        0 <= i <= s.len(),
    ensures
        0 <= report_line_start(s, i) <= i,
    decreases i,
{
    if i > 0 && !is_break(s[i - 1]) {
        lemma_line_start_bounds(s, i - 1);
    }
}

proof fn lemma_line_end_bounds(s: Seq<char>, i: int)
    requires
        0 <= i <= s.len(),
    ensures
        i <= report_line_end(s, i) <= s.len(),
    decreases s.len() - i,
{
    if i < s.len() && !is_break(s[i]) {
        lemma_line_end_bounds(s, i + 1);
    }
}

proof fn lemma_counts_bounded(s: Seq<char>, n: int)
    requires
        0 <= n <= s.len(),
    ensures
        crlf_pairs(s, n) <= breaks(s, n) <= n,
    decreases n,
{
    if n > 0 {
        lemma_counts_bounded(s, n - 1);
        if n >= 2 {
            lemma_crlf_le(s, n);
        }
    }
}

proof fn lemma_crlf_le(s: Seq<char>, n: int)
    requires
        2 <= n <= s.len(),
        crlf_pairs(s, n - 1) <= breaks(s, n - 1),
    ensures
        crlf_pairs(s, n) <= breaks(s, n),
{
}

/// The line and column of the character at index `i`.
fn line_column_at(s: &Vec<char>, i: usize) -> (r: (usize, usize))
    requires
        i <= s@.len(),
        s@.len() < usize::MAX,
    ensures
        r.0 == report_line_column(s@, i as int).0,
        r.1 == report_line_column(s@, i as int).1,
{
    let mut ls = i;
    while ls > 0 && !(s[ls - 1] == '\n' || s[ls - 1] == '\r')
        invariant
            ls <= i <= s@.len(),
            report_line_start(s@, i as int) == report_line_start(s@, ls as int),
        decreases ls,
    {
        ls = ls - 1;
    }
    let mut b: usize = 0;
    let mut pairs: usize = 0;
    let mut k: usize = 0;
    while k < ls
        invariant
            k <= ls <= s@.len(),
            s@.len() < usize::MAX,
            b == breaks(s@, k as int),
            pairs == crlf_pairs(s@, k as int),
            pairs <= b <= k,
        decreases ls - k,
    {
        if s[k] == '\n' || s[k] == '\r' {
            b = b + 1;
        }
        if k >= 1 && s[k - 1] == '\r' && s[k] == '\n' {
            pairs = pairs + 1;
        }
        k = k + 1;
    }
    (b + 1 - pairs, i - ls + 1)
}

/// Expansion state after some graphemes: the display text, the segments
/// (source byte range and column range of each grapheme), the next column
/// and the next source byte.
pub struct ExpandState {
    pub text: Seq<char>,
    pub segments: Seq<(int, int, int, int)>,
    pub column: int,
    pub byte: int,
}

/// A grapheme holds a control character.
pub open spec fn has_control(g: Seq<char>) -> bool {
    exists|i: int| 0 <= i < g.len() && is_control(#[trigger] g[i])
}

pub open spec fn expand_step(st: ExpandState, g: Seq<char>) -> ExpandState {
    let (shown, next) = if g == "\t"@ {
        let spaces = TAB_WIDTH - st.column % (TAB_WIDTH as int);
        (repeated(' ', spaces as nat), sat_add(st.column, spaces))
    } else if has_control(g) {
        (seq![' '], sat_add(st.column, 1))
    } else {
        (g, sat_add(st.column, str_width(g) as int))
    };
    ExpandState {
        text: st.text + shown,
        segments: st.segments.push((st.byte, st.byte + byte_len(g), st.column, next)),
        column: next,
        byte: st.byte + byte_len(g),
    }
}

pub open spec fn expand_fold(gs: Seq<Seq<char>>, k: int) -> ExpandState
    decreases k,
{
    if k <= 0 {
        ExpandState { text: Seq::empty(), segments: Seq::empty(), column: 0, byte: 0 }
    } else {
        expand_step(expand_fold(gs, k - 1), gs[k - 1])
    }
}

/// A line with tabs expanded to the next multiple of `TAB_WIDTH` columns and
/// control characters shown as spaces.
pub open spec fn spec_expand(line: Seq<char>) -> ExpandState {
    expand_fold(grapheme_split(line), grapheme_split(line).len() as int)
}

/// The column where the grapheme holding source byte `b` starts, or the width.
pub open spec fn start_column(segs: Seq<(int, int, int, int)>, width: int, b: int) -> int
    decreases segs.len(),
{
    if segs.len() == 0 {
        width
    } else if segs[0].0 <= b < segs[0].1 {
        segs[0].2
    } else {
        start_column(segs.drop_first(), width, b)
    }
}

/// The column where the grapheme ending at or after source byte `b` ends, or the width.
pub open spec fn end_column_from(segs: Seq<(int, int, int, int)>, width: int, b: int) -> int
    decreases segs.len(),
{
    if segs.len() == 0 {
        width
    } else if segs[0].0 < b <= segs[0].1 {
        segs[0].3
    } else {
        end_column_from(segs.drop_first(), width, b)
    }
}

pub open spec fn end_column(segs: Seq<(int, int, int, int)>, width: int, b: int) -> int {
    if b == 0 { 0 } else { end_column_from(segs, width, b) }
}

/// The exec form of an expanded line.
struct Expanded {
    text: String,
    segments: Vec<(usize, usize, usize, usize)>,
    width: usize,
}

spec fn segment_views(v: Seq<(usize, usize, usize, usize)>) -> Seq<(int, int, int, int)> {
    v.map_values(|x: (usize, usize, usize, usize)| (x.0 as int, x.1 as int, x.2 as int, x.3 as int))
}

fn any_control(g: &Vec<char>) -> (r: bool)
    ensures
        r == has_control(g@),
{
    let mut i: usize = 0;
    while i < g.len()
        invariant
            i <= g@.len(),
            forall|k: int| 0 <= k < i ==> !is_control(#[trigger] g@[k]),
        decreases g@.len() - i,
    {
        if is_control(g[i]) {
            return true;
        }
        i = i + 1;
    }
    false
}

fn saturating(a: usize, b: usize) -> (r: usize)
    ensures
        r == sat_add(a as int, b as int),
{
    if a > usize::MAX - b { usize::MAX } else { a + b }
}

fn expand_tabs(line: &str) -> (r: Expanded)
    requires
        byte_len(line@) <= usize::MAX,
    ensures
        r.text@ == spec_expand(line@).text,
        segment_views(r.segments@) == spec_expand(line@).segments,
        r.width == spec_expand(line@).column,
{
    let gs = graphemes(line);
    let ghost gv = grapheme_split(line@);
    let mut text = String::new();
    let mut segments: Vec<(usize, usize, usize, usize)> = Vec::new();
    let mut column: usize = 0;
    let mut byte: usize = 0;
    let mut k: usize = 0;
    proof {
        lemma_flatten_prefix_len(gv, 0);
    }
    while k < gs.len()
        invariant
            k <= gs@.len(),
            gs@.map_values(|s: String| s@) == gv,
            gv.flatten() == line@,
            byte_len(line@) <= usize::MAX,
            byte == byte_len(gv.take(k as int).flatten()),
            ({
                let st = expand_fold(gv, k as int);
                &&& st.text == text@
                &&& st.segments == segment_views(segments@)
                &&& st.column == column
                &&& st.byte == byte
            }),
        decreases gs@.len() - k,
    {
        let g = &gs[k];
        assert(gv[k as int] == g@);
        let gstr = g.as_str();
        let gc = chars_of(gstr);
        let glen = gstr.as_bytes().len();
        proof {
            crate::text::unicode::lemma_str_len(gstr);
            lemma_flatten_prefix_len(gv, k as int + 1);
            assert(gv.take(k + 1) =~= gv.take(k as int).push(gv[k as int]));
            crate::text::unicode::lemma_byte_len_concat(gv.take(k as int).flatten(), gv[k as int]);
            gv.take(k as int).lemma_flatten_push(gv[k as int]);
        }
        let start_col = column;
        proof {
            reveal_strlit("\t");
        }
        if gc.len() == 1 && gc[0] == '\t' {
            assert(g@ =~= "\t"@);
            let spaces = TAB_WIDTH - column % TAB_WIDTH;
            let pad = repeat_char(' ', spaces);
            text.append(pad.as_str());
            column = saturating(column, spaces);
        } else {
            proof {
                if g@ == "\t"@ {
                    assert(gc@.len() == 1 && gc@[0] == '\t');
                }
            }
            if any_control(&gc) {
                push_char(&mut text, ' ');
                column = saturating(column, 1);
            } else {
                text.append(g.as_str());
                column = saturating(column, display_width(g.as_str()));
            }
        }
        let ghost before = segments@;
        segments.push((byte, byte + glen, start_col, column));
        proof {
            assert(segment_views(segments@) =~= segment_views(before).push((byte as int, byte + glen, start_col as int, column as int)));
        }
        byte = byte + glen;
        k = k + 1;
    }
    Expanded { text, segments, width: column }
}

/// The bytes of the first `k` pieces never exceed those of all of them.
proof fn lemma_flatten_prefix_len(gv: Seq<Seq<char>>, k: int)
    requires
        0 <= k <= gv.len(),
    ensures
        byte_len(gv.take(k).flatten()) <= byte_len(gv.flatten()),
    decreases gv.len() - k,
{
    if k < gv.len() {
        lemma_flatten_prefix_len(gv, k + 1);
        assert(gv.take(k + 1) =~= gv.take(k).push(gv[k]));
        gv.take(k).lemma_flatten_push(gv[k]);
        crate::text::unicode::lemma_byte_len_concat(gv.take(k).flatten(), gv[k]);
    } else {
        assert(gv.take(k) =~= gv);
    }
}

fn start_column_of(e: &Expanded, b: usize) -> (c: usize)
    ensures
        c == start_column(segment_views(e.segments@), e.width as int, b as int),
{
    let ghost sv = segment_views(e.segments@);
    let mut i: usize = 0;
    assert(sv.skip(0) =~= sv);
    while i < e.segments.len()
        invariant
            i <= e.segments@.len(),
            sv == segment_views(e.segments@),
            start_column(sv, e.width as int, b as int) == start_column(sv.skip(i as int), e.width as int, b as int),
        decreases e.segments@.len() - i,
    {
        let seg = e.segments[i];
        assert(sv.skip(i as int)[0] == (seg.0 as int, seg.1 as int, seg.2 as int, seg.3 as int));
        if seg.0 <= b && b < seg.1 {
            return seg.2;
        }
        assert(sv.skip(i as int).drop_first() =~= sv.skip(i + 1));
        i = i + 1;
    }
    e.width
}

fn end_column_of(e: &Expanded, b: usize) -> (c: usize)
    ensures
        c == end_column(segment_views(e.segments@), e.width as int, b as int),
{
    if b == 0 {
        return 0;
    }
    let ghost sv = segment_views(e.segments@);
    let mut i: usize = 0;
    assert(sv.skip(0) =~= sv);
    while i < e.segments.len()
        invariant
            i <= e.segments@.len(),
            b != 0,
            sv == segment_views(e.segments@),
            end_column_from(sv, e.width as int, b as int) == end_column_from(sv.skip(i as int), e.width as int, b as int),
        decreases e.segments@.len() - i,
    {
        let seg = e.segments[i];
        assert(sv.skip(i as int)[0] == (seg.0 as int, seg.1 as int, seg.2 as int, seg.3 as int));
        if seg.0 < b && b <= seg.1 {
            return seg.3;
        }
        assert(sv.skip(i as int).drop_first() =~= sv.skip(i + 1));
        i = i + 1;
    }
    e.width
}

/// The snippet of a source for the span at bytes `start..end`: its line,
/// tab-expanded and cropped around the span.
pub open spec fn spec_snippet(s: Seq<char>, start: int, end: int) -> (Seq<char>, int, int, bool) {
    let i = char_index(s, start);
    let ls = report_line_start(s, i);
    let le = report_line_end(s, i);
    let lsb = byte_pos(s, ls) as int;
    let leb = byte_pos(s, le) as int;
    let start_in_line = sat_sub(start, lsb);
    let end_in_line = sat_sub(min(end, leb), lsb);
    let e = spec_expand(s.subrange(ls, le));
    let span_start = start_column(e.segments, e.column, start_in_line);
    let span_end = end_column(e.segments, e.column, end_in_line);
    let wanted = max1(sat_sub(span_end, span_start));
    let width = min(wanted, usize::MAX - span_start);
    spec_crop(e.text, span_start, width, end > leb)
}

proof fn lemma_expand_fold_bounds(gs: Seq<Seq<char>>, k: int)
    ensures
        0 <= expand_fold(gs, k).column <= usize::MAX,
        forall|j: int| 0 <= j < expand_fold(gs, k).segments.len() ==> 0 <= (#[trigger] expand_fold(gs, k).segments[j]).2 <= usize::MAX,
    decreases k,
{
    if k > 0 {
        lemma_expand_fold_bounds(gs, k - 1);
        let prev = expand_fold(gs, k - 1);
        let cur = expand_fold(gs, k);
        assert forall|j: int| 0 <= j < cur.segments.len() implies 0 <= (#[trigger] cur.segments[j]).2 <= usize::MAX by {
            if j < prev.segments.len() {
                assert(cur.segments[j] == prev.segments[j]);
            }
        }
    }
}

fn source_snippet(s: &Vec<char>, offsets: &Vec<usize>, start: usize, end: usize) -> (r: Snippet)
    requires
        offsets@.len() == s@.len() + 1,
        forall|k: int| 0 <= k <= s@.len() ==> offsets@[k] == byte_pos(s@, k),
        is_char_boundary(s@, start as int),
        byte_len(s@) <= usize::MAX,
    ensures
        (r.text@, r.marker_start as int, r.marker_width as int, r.continues) == spec_snippet(s@, start as int, end as int),
{
    let i = match crate::latex::walk::boundary_index(offsets, Ghost(s@), start) {
        Some(i) => i,
        None => 0,
    };
    proof {
        crate::text::unicode::lemma_byte_pos_injective(s@, i as int, char_index(s@, start as int));
        lemma_line_bounds(s@, i as int);
    }
    let mut ls = i;
    while ls > 0 && !(s[ls - 1] == '\n' || s[ls - 1] == '\r')
        invariant
            ls <= i <= s@.len(),
            report_line_start(s@, i as int) == report_line_start(s@, ls as int),
        decreases ls,
    {
        ls = ls - 1;
    }
    let mut le = i;
    while le < s.len() && !(s[le] == '\n' || s[le] == '\r')
        invariant
            i <= le <= s@.len(),
            report_line_end(s@, i as int) == report_line_end(s@, le as int),
        decreases s@.len() - le,
    {
        le = le + 1;
    }
    proof {
        crate::text::unicode::lemma_byte_pos_mono(s@, ls as int, i as int);
        crate::text::unicode::lemma_byte_pos_mono(s@, ls as int, le as int);
        crate::text::unicode::lemma_byte_len_subrange(s@, ls as int, le as int);
        crate::text::unicode::lemma_byte_pos_le_len(s@, le as int);
    }
    let lsb = offsets[ls];
    let leb = offsets[le];
    let start_in_line = start - lsb;
    let capped_end = if end < leb { end } else { leb };
    let end_in_line = if capped_end > lsb { capped_end - lsb } else { 0 };
    let line = string_of(s, ls, le);
    let e = expand_tabs(line.as_str());
    proof {
        lemma_expand_fold_bounds(grapheme_split(line@), grapheme_split(line@).len() as int);
    }
    let span_start = start_column_of(&e, start_in_line);
    let span_end = end_column_of(&e, end_in_line);
    let diff = if span_end > span_start { span_end - span_start } else { 0 };
    let wanted = if diff < 1 { 1 } else { diff };
    let width = if wanted < usize::MAX - span_start { wanted } else { usize::MAX - span_start };
    crop_snippet(e.text.as_str(), span_start, width, end > leb)
}

/// The index of the last source with this path.
pub open spec fn last_source(sources: Seq<SourceFile>, path: Seq<char>) -> Option<int>
    decreases sources.len(),
{
    if sources.len() == 0 {
        None
    } else if sources.last().path@ == path {
        Some(sources.len() - 1)
    } else {
        last_source(sources.drop_last(), path)
    }
}

fn find_source(sources: &[SourceFile], path: &str) -> (r: Option<usize>)
    ensures
        match r {
            Some(i) => last_source(sources@, path@) == Some(i as int) && i < sources@.len(),
            None => last_source(sources@, path@) is None,
        },
{
    let mut j = sources.len();
    assert(sources@.take(j as int) =~= sources@);
    while j > 0
        invariant
            j <= sources@.len(),
            last_source(sources@, path@) == last_source(sources@.take(j as int), path@),
        decreases j,
    {
        assert(sources@.take(j as int).drop_last() =~= sources@.take(j - 1));
        if str_eq(sources[j - 1].path.as_str(), path) {
            return Some(j - 1);
        }
        j = j - 1;
    }
    None
}

/// The range fits the source text and falls on character boundaries.
pub open spec fn range_valid(text: Seq<char>, start: int, end: int) -> bool {
    start <= end && end <= byte_len(text) && is_char_boundary(text, start) && is_char_boundary(text, end)
}

/// The first problem with the diagnostics' sources, if any.
pub open spec fn first_render_error(sources: Seq<SourceFile>, ds: Seq<DiagnosticView>, k: int) -> Option<(int, bool)>
    decreases k,
{
    if k <= 0 {
        None
    } else {
        match first_render_error(sources, ds, k - 1) {
            Some(e) => Some(e),
            None => {
                let d = ds[k - 1];
                match last_source(sources, d.span.file@) {
                    None => Some((k - 1, true)),
                    Some(i) => if range_valid(sources[i].text@, d.span.start as int, d.span.end as int) {
                        None
                    } else {
                        Some((k - 1, false))
                    },
                }
            },
        }
    }
}

/// The header, snippet and marker lines of one diagnostic.
pub open spec fn spec_report(sources: Seq<SourceFile>, root: Seq<char>, d: DiagnosticView, use_color: bool) -> Seq<char> {
    match (severity_label(d.severity), last_source(sources, d.span.file@)) {
        (Some(label), Some(si)) => {
            let s = sources[si].text@;
            let snippet = spec_snippet(s, d.span.start as int, d.span.end as int);
            let lc = report_line_column(s, char_index(s, d.span.start as int));
            let severity_plain = label + "["@ + d.rule.spec_name() + "]"@;
            let location_plain = spec_display_path(d.span.file@, root) + ":"@ + decimal(lc.0 as nat) + ":"@ + decimal(
                lc.1 as nat,
            );
            let fixed = sat_add(sat_add(str_width(severity_plain) as int, str_width(location_plain) as int), 3);
            let message = spec_truncate(d.message, sat_sub(MAX_HEADER_WIDTH as int, fixed));
            spec_paint(severity_plain, severity_color(d.severity), use_color) + " "@ + spec_paint(
                location_plain,
                location_color(),
                use_color,
            ) + ": "@ + message + "\n"@ + "  "@ + snippet.0 + "\n"@ + "  "@ + repeated(' ', snippet.1 as nat)
                + spec_marker(snippet.2 as nat, snippet.3) + "\n"@
        },
        _ => Seq::empty(),
    }
}

/// The reports of the first `k` diagnostics.
pub open spec fn spec_reports(sources: Seq<SourceFile>, root: Seq<char>, ds: Seq<DiagnosticView>, use_color: bool, k: int) -> Seq<
    char,
>
    decreases k,
{
    if k <= 0 {
        Seq::empty()
    } else {
        spec_reports(sources, root, ds, use_color, k - 1) + spec_report(sources, root, ds[k - 1], use_color)
    }
}

/// Every source's bytes fit below `usize::MAX`.
pub open spec fn sources_fit(sources: Seq<SourceFile>) -> bool {
    forall|k: int| 0 <= k < sources.len() ==> byte_len(#[trigger] sources[k].text@) < usize::MAX
}

fn report(sources: &[SourceFile], root: &str, d: &Diagnostic, use_color: bool) -> (r: String)
    requires
        sources_fit(sources@),
        last_source(sources@, d.span.file@) matches Some(i) ==> range_valid(
            sources@[i].text@,
            d.span.start as int,
            d.span.end as int,
        ),
    ensures
        r@ == spec_report(sources@, root@, d@, use_color),
{
    let label = match d.severity {
        Level::Error => "error",
        Level::Warning => "warning",
        Level::Off => return String::new(),
    };
    let si = match find_source(sources, d.span.file.as_str()) {
        Some(i) => i,
        None => return String::new(),
    };
    let source = &sources[si];
    assert(sources@[si as int] == *source);
    let s = chars_of(source.text.as_str());
    let offsets = byte_offsets(&s);
    proof {
        crate::text::unicode::lemma_len_le_byte_len(s@);
        crate::text::unicode::lemma_byte_pos_le_len(s@, s@.len() as int);
        assert(s@.take(s@.len() as int) =~= s@);
    }
    let snippet = source_snippet(&s, &offsets, d.span.start, d.span.end);
    let i = match crate::latex::walk::boundary_index(&offsets, Ghost(s@), d.span.start) {
        Some(i) => i,
        None => 0,
    };
    proof {
        crate::text::unicode::lemma_byte_pos_injective(s@, i as int, char_index(s@, d.span.start as int));
    }
    let (line, column) = line_column_at(&s, i);
    let sev_pieces: [&str; 4] = [label, "[", d.rule.as_str(), "]"];
    let severity_plain = concat(&sev_pieces);
    let path = display_path(d.span.file.as_str(), root);
    let line_text = decimal_string(line);
    let column_text = decimal_string(column);
    let loc_pieces: [&str; 5] = [path.as_str(), ":", line_text.as_str(), ":", column_text.as_str()];
    let location_plain = concat(&loc_pieces);
    let fixed = saturating(saturating(display_width(severity_plain.as_str()), display_width(location_plain.as_str())), 3);
    let message_width = if MAX_HEADER_WIDTH > fixed { MAX_HEADER_WIDTH - fixed } else { 0 };
    let message = truncate_text(d.message.as_str(), message_width);
    let color = color_of(d.severity);
    let severity = paint(severity_plain.as_str(), color.as_str(), use_color);
    let location_color_text = ansi('3', Some('6'));
    let location = paint(location_plain.as_str(), location_color_text.as_str(), use_color);
    let pad = repeat_char(' ', snippet.marker_start);
    let mark = marker(snippet.marker_width, snippet.continues);
    let pieces: [&str; 13] = [
        severity.as_str(),
        " ",
        location.as_str(),
        ": ",
        message.as_str(),
        "\n",
        "  ",
        snippet.text.as_str(),
        "\n",
        "  ",
        pad.as_str(),
        mark.as_str(),
        "\n",
    ];
    let out = concat(&pieces);
    proof {
        reveal_strlit("[");
        reveal_strlit("]");
        reveal_strlit(":");
        reveal_strlit(" ");
        reveal_strlit(": ");
        reveal_strlit("\n");
        reveal_strlit("  ");
        reveal_strlit("error");
        reveal_strlit("warning");
        assert(location_color_text@ =~= location_color());
        let sp = sev_pieces@.map_values(|x: &str| x@);
        let lp = loc_pieces@.map_values(|x: &str| x@);
        let ps = pieces@.map_values(|x: &str| x@);
        reveal_with_fuel(joined_pieces, 14);
        assert(sp.drop_last().drop_last().drop_last().drop_last() =~= Seq::<Seq<char>>::empty());
        assert(lp.drop_last().drop_last().drop_last().drop_last().drop_last() =~= Seq::<Seq<char>>::empty());
        assert(ps.drop_last().drop_last().drop_last().drop_last().drop_last().drop_last().drop_last().drop_last()
            .drop_last().drop_last().drop_last().drop_last().drop_last() =~= Seq::<Seq<char>>::empty());
        assert(out@ =~= spec_report(sources@, root@, d@, use_color));
    }
    out
}

/// Renders every diagnostic with its source snippet, then the summary;
/// fails on the first diagnostic whose source is missing or whose byte
/// range does not fit its source.
pub fn render(sources: &[SourceFile], root: &str, diagnostics: &[Diagnostic], use_color: bool) -> (r: Result<
    String,
    HumanRenderError,
>)
    requires
        sources_fit(sources@),
    ensures
        match first_render_error(sources@, views(diagnostics@), diagnostics@.len() as int) {
            Some((k, missing)) => r matches Err(e) && if missing {
                e == HumanRenderError::MissingSource(diagnostics@[k].span.file)
            } else {
                e matches HumanRenderError::InvalidByteRange { path, start, end, source_len } && path
                    == diagnostics@[k].span.file && start == diagnostics@[k].span.start && end
                    == diagnostics@[k].span.end && source_len == byte_len(
                    sources@[last_source(sources@, diagnostics@[k].span.file@).unwrap()].text@,
                )
            },
            None => r matches Ok(out) && out@ == spec_reports(
                sources@,
                root@,
                views(diagnostics@),
                use_color,
                diagnostics@.len() as int,
            ) + spec_summary(views(diagnostics@)),
        },
{
    let ghost dv = views(diagnostics@);
    let mut k: usize = 0;
    while k < diagnostics.len()
        invariant
            k <= diagnostics@.len(),
            dv == views(diagnostics@),
            first_render_error(sources@, dv, k as int) is None,
        decreases diagnostics@.len() - k,
    {
        let d = &diagnostics[k];
        assert(dv[k as int] == d@);
        match find_source(sources, d.span.file.as_str()) {
            None => {
                proof {
                    lemma_error_stays(sources@, dv, k as int + 1, dv.len() as int);
                }
                return Err(HumanRenderError::MissingSource(d.span.file.clone()));
            },
            Some(i) => {
                let text = sources[i].text.as_str();
                let len = text.as_bytes().len();
                let s = chars_of(text);
                let offsets = byte_offsets(&s);
                proof {
                    crate::text::unicode::lemma_str_len(text);
                }
                let ok = d.span.start <= d.span.end && d.span.end <= len && crate::latex::walk::boundary_index(
                    &offsets,
                    Ghost(s@),
                    d.span.start,
                ).is_some() && crate::latex::walk::boundary_index(&offsets, Ghost(s@), d.span.end).is_some();
                if !ok {
                    proof {
                        assert(!range_valid(sources@[i as int].text@, d.span.start as int, d.span.end as int));
                        lemma_error_stays(sources@, dv, k as int + 1, dv.len() as int);
                    }
                    return Err(
                        HumanRenderError::InvalidByteRange {
                            path: d.span.file.clone(),
                            start: d.span.start,
                            end: d.span.end,
                            source_len: len,
                        },
                    );
                }
            },
        }
        k = k + 1;
    }
    let mut out = String::new();
    let mut j: usize = 0;
    while j < diagnostics.len()
        invariant
            j <= diagnostics@.len(),
            dv == views(diagnostics@),
            sources_fit(sources@),
            first_render_error(sources@, dv, dv.len() as int) is None,
            out@ == spec_reports(sources@, root@, dv, use_color, j as int),
        decreases diagnostics@.len() - j,
    {
        let d = &diagnostics[j];
        assert(dv[j as int] == d@);
        proof {
            lemma_no_error_prefix(sources@, dv, dv.len() as int, j as int + 1);
        }
        let rep = report(sources, root, d, use_color);
        out.append(rep.as_str());
        j = j + 1;
    }
    let tail = summary(diagnostics);
    out.append(tail.as_str());
    Ok(out)
}

proof fn lemma_error_stays(sources: Seq<SourceFile>, ds: Seq<DiagnosticView>, k: int, m: int)
    requires
        0 < k <= m,
        first_render_error(sources, ds, k) is Some,
    ensures
        first_render_error(sources, ds, m) == first_render_error(sources, ds, k),
    decreases m - k,
{
    if m > k {
        lemma_error_stays(sources, ds, k, m - 1);
    }
}

proof fn lemma_no_error_prefix(sources: Seq<SourceFile>, ds: Seq<DiagnosticView>, n: int, k: int)
    requires
        0 < k <= n,
        first_render_error(sources, ds, n) is None,
    ensures
        first_render_error(sources, ds, k) is None,
        last_source(sources, ds[k - 1].span.file@) matches Some(i) ==> range_valid(
            sources[i].text@,
            ds[k - 1].span.start as int,
            ds[k - 1].span.end as int,
        ),
    decreases n - k,
{
    if k < n {
        lemma_no_error_prefix(sources, ds, n, k + 1);
    }
}

} // verus!
