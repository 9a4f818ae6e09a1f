# paperlint

A linter for Chinese and English academic papers written in LaTeX, with its
logic written in Verus: every rule, the LaTeX walk that turns sources into
logical text blocks, sentence segmentation, term extraction, diagnostic
ordering and the human-readable report carry contracts that Verus proves.

## Layout

- `src/` — the verified library.
  - `latex/` — syntax events from the LaTeX grammar, the walk that turns
    them into prose, whitespace, paragraph breaks and include requests, the
    block builder with its source mappings, include tracking with cycle
    detection, and the mapping of logical ranges back to source spans.
  - `text/` — Unicode helpers, language detection, sentence segmentation,
    character statistics, acronym definitions and the lexicon.
  - `nlp/` — the lexical analyzer interface and its jieba implementation.
  - `lint/` — document analysis, the term registry (acronym definitions and
    usages, lexicon occurrences, term candidates), diagnostics and the engine.
  - `rules/` — ACR001, ACR002, TERM001, TERM002, STYLE001, CASE001, PUNC002.
  - `config/` — defaults, rule settings, overrides and lexicon entries.
  - `output/` — displayed paths, report order and the human-readable report.
- `app/` — the `paperlint` command: argument parsing, reading files and
  standard input, the configuration file, JSON output and terminal colors.
- `tests/` — tests of the library.

## Known limitation

The `tree-sitter-latex` 0.1.0 package on crates.io ships its generated
parser without the external scanner it declares, so a binary that calls
the grammar does not link. The library's call into it compiles and is
verified against a named outcome; tests build documents from text blocks
directly.
