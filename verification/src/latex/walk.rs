//! Which parts of a LaTeX syntax tree are prose: the walk turns a file's
//! tree into the text pieces, paragraph breaks and includes that make up
//! its logical text, in reading order.
use super::tree::{NodeView, SyntaxTree, TreeNodeView, tree_ordered};
use crate::text::unicode::{byte_offsets, byte_pos, chars_of, str_eq, string_of};
use vstd::prelude::*;

verus! {

/// One piece of a file's logical text, in reading order.
#[derive(Debug, PartialEq, Eq)]
pub enum WalkItem {
    /// Prose copied from the source bytes `start..end`.
    Text { start: usize, end: usize },
    /// Whitespace between prose nodes, at the source bytes `start..end`.
    Whitespace { start: usize, end: usize },
    /// The current paragraph ends.
    Flush,
    /// Another file is read here, as the include command names it.
    Include { requested: String },
    /// An include command whose path the syntax tree does not hold.
    UnnamedInclude,
}

/// The value of a walk item.
pub enum ItemView {
    Text { start: usize, end: usize },
    Whitespace { start: usize, end: usize },
    Flush,
    Include { requested: Seq<char> },
    UnnamedInclude,
}

impl View for WalkItem {
    type V = ItemView;

    open spec fn view(&self) -> ItemView {
        match self {
            WalkItem::Text { start, end } => ItemView::Text { start: *start, end: *end },
            WalkItem::Whitespace { start, end } => ItemView::Whitespace { start: *start, end: *end },
            WalkItem::Flush => ItemView::Flush,
            WalkItem::Include { requested } => ItemView::Include { requested: requested@ },
            WalkItem::UnnamedInclude => ItemView::UnnamedInclude,
        }
    }
}

/// Subtrees that hold no prose: comments, math, definitions, references,
/// includes of packages and graphics, and code listings.
pub open spec fn spec_should_skip_subtree(kind: Seq<char>) -> bool {
    kind == "comment"@ || kind == "block_comment"@ || kind == "comment_environment"@ || kind
        == "inline_formula"@ || kind == "displayed_equation"@ || kind == "math_delimiter"@ || kind
        == "math_environment"@ || kind == "citation"@ || kind == "label_definition"@ || kind
        == "label_reference"@ || kind == "new_command_definition"@ || kind
        == "renew_command_definition"@ || kind == "new_environment_definition"@ || kind
        == "environment_definition"@ || kind == "old_command_definition"@ || kind
        == "let_command_definition"@ || kind == "paired_delimiter_definition"@ || kind
        == "theorem_definition"@ || kind == "acronym_definition"@ || kind == "acronym_reference"@
        || kind == "glossary_entry_definition"@ || kind == "glossary_entry_reference"@ || kind
        == "color_definition"@ || kind == "color_set_definition"@ || kind == "counter_addition"@
        || kind == "counter_declaration"@ || kind == "counter_definition"@ || kind
        == "counter_increment"@ || kind == "counter_typesetting"@ || kind == "counter_value"@
        || kind == "counter_within_declaration"@ || kind == "counter_without_declaration"@ || kind
        == "class_include"@ || kind == "package_include"@ || kind == "biblatex_include"@ || kind
        == "bibliography"@ || kind == "graphics_include"@ || kind == "listing_environment"@ || kind
        == "minted_environment"@ || kind == "verbatim_environment"@ || kind
        == "luacode_environment"@ || kind == "pycode_environment"@ || kind
        == "sageblock_environment"@ || kind == "sagesilent_environment"@ || kind
        == "asy_environment"@ || kind == "asydef_environment"@ || kind == "source_code"@
}

/// Whether a subtree of this kind holds no prose.
pub fn should_skip_subtree(kind: &str) -> (r: bool)
    ensures
        r == spec_should_skip_subtree(kind@),
{
    str_eq(kind, "comment") || str_eq(kind, "block_comment") || str_eq(kind, "comment_environment")
        || str_eq(kind, "inline_formula") || str_eq(kind, "displayed_equation") || str_eq(
        kind,
        "math_delimiter",
    ) || str_eq(kind, "math_environment") || str_eq(kind, "citation") || str_eq(
        kind,
        "label_definition",
    ) || str_eq(kind, "label_reference") || str_eq(kind, "new_command_definition") || str_eq(
        kind,
        "renew_command_definition",
    ) || str_eq(kind, "new_environment_definition") || str_eq(kind, "environment_definition")
        || str_eq(kind, "old_command_definition") || str_eq(kind, "let_command_definition")
        || str_eq(kind, "paired_delimiter_definition") || str_eq(kind, "theorem_definition")
        || str_eq(kind, "acronym_definition") || str_eq(kind, "acronym_reference") || str_eq(
        kind,
        "glossary_entry_definition",
    ) || str_eq(kind, "glossary_entry_reference") || str_eq(kind, "color_definition") || str_eq(
        kind,
        "color_set_definition",
    ) || str_eq(kind, "counter_addition") || str_eq(kind, "counter_declaration") || str_eq(
        kind,
        "counter_definition",
    ) || str_eq(kind, "counter_increment") || str_eq(kind, "counter_typesetting") || str_eq(
        kind,
        "counter_value",
    ) || str_eq(kind, "counter_within_declaration") || str_eq(kind, "counter_without_declaration")
        || str_eq(kind, "class_include") || str_eq(kind, "package_include") || str_eq(
        kind,
        "biblatex_include",
    ) || str_eq(kind, "bibliography") || str_eq(kind, "graphics_include") || str_eq(
        kind,
        "listing_environment",
    ) || str_eq(kind, "minted_environment") || str_eq(kind, "verbatim_environment") || str_eq(
        kind,
        "luacode_environment",
    ) || str_eq(kind, "pycode_environment") || str_eq(kind, "sageblock_environment") || str_eq(
        kind,
        "sagesilent_environment",
    ) || str_eq(kind, "asy_environment") || str_eq(kind, "asydef_environment") || str_eq(
        kind,
        "source_code",
    )
}

/// Sectioning commands whose title is a paragraph of its own.
pub open spec fn spec_is_structural(kind: Seq<char>) -> bool {
    kind == "part"@ || kind == "chapter"@ || kind == "section"@ || kind == "subsection"@ || kind
        == "subsubsection"@ || kind == "paragraph"@ || kind == "subparagraph"@
}

fn is_structural_prose_node(kind: &str) -> (r: bool)
    ensures
        r == spec_is_structural(kind@),
{
    str_eq(kind, "part") || str_eq(kind, "chapter") || str_eq(kind, "section") || str_eq(
        kind,
        "subsection",
    ) || str_eq(kind, "subsubsection") || str_eq(kind, "paragraph") || str_eq(kind, "subparagraph")
}

/// Commands whose arguments are not prose.
pub open spec fn spec_is_non_prose_command(command: Seq<char>) -> bool {
    command == "cite"@ || command == "citep"@ || command == "citet"@ || command == "label"@
        || command == "ref"@ || command == "pageref"@ || command == "eqref"@ || command
        == "includegraphics"@ || command == "bibliography"@ || command == "bibliographystyle"@
        || command == "documentclass"@ || command == "usepackage"@ || command == "newcommand"@
        || command == "renewcommand"@ || command == "providecommand"@ || command
        == "newenvironment"@ || command == "renewenvironment"@
}

fn is_non_prose_command(command: &str) -> (r: bool)
    ensures
        r == spec_is_non_prose_command(command@),
{
    str_eq(command, "cite") || str_eq(command, "citep") || str_eq(command, "citet") || str_eq(
        command,
        "label",
    ) || str_eq(command, "ref") || str_eq(command, "pageref") || str_eq(command, "eqref")
        || str_eq(command, "includegraphics") || str_eq(command, "bibliography") || str_eq(
        command,
        "bibliographystyle",
    ) || str_eq(command, "documentclass") || str_eq(command, "usepackage") || str_eq(
        command,
        "newcommand",
    ) || str_eq(command, "renewcommand") || str_eq(command, "providecommand") || str_eq(
        command,
        "newenvironment",
    ) || str_eq(command, "renewenvironment")
}

/// Punctuation leaves that stay in the prose.
pub open spec fn spec_is_retained_punctuation(kind: Seq<char>) -> bool {
    kind == "."@ || kind == ","@ || kind == "!"@ || kind == "?"@ || kind == ";"@ || kind == ":"@
        || kind == "\u{3002}"@ || kind == "\u{FF0C}"@ || kind == "\u{FF01}"@ || kind
        == "\u{FF1F}"@ || kind == "\u{FF1B}"@ || kind == "\u{FF1A}"@
}

fn is_retained_punctuation(kind: &str) -> (r: bool)
    ensures
        r == spec_is_retained_punctuation(kind@),
{
    str_eq(kind, ".") || str_eq(kind, ",") || str_eq(kind, "!") || str_eq(kind, "?") || str_eq(
        kind,
        ";",
    ) || str_eq(kind, ":") || str_eq(kind, "\u{3002}") || str_eq(kind, "\u{FF0C}") || str_eq(
        kind,
        "\u{FF01}",
    ) || str_eq(kind, "\u{FF1F}") || str_eq(kind, "\u{FF1B}") || str_eq(kind, "\u{FF1A}")
}

/// The characters of the source bytes `start..end`, or nothing when the
/// range does not start and end on character boundaries.
pub open spec fn node_text(text: Seq<char>, n: NodeView) -> Seq<char> {
    if n.start <= n.end && crate::lint::analysis::is_char_boundary(text, n.start as int)
        && crate::lint::analysis::is_char_boundary(text, n.end as int) {
        text.subrange(
            crate::lint::analysis::char_index(text, n.start as int),
            crate::lint::analysis::char_index(text, n.end as int),
        )
    } else {
        Seq::empty()
    }
}

/// The first child filling the field.
pub open spec fn field_child(ns: Seq<TreeNodeView>, cs: Seq<int>, f: Seq<char>) -> Option<int>
    decreases cs.len(),
{
    if cs.len() == 0 {
        None
    } else if 0 <= cs[0] < ns.len() && ns[cs[0]].node.field == Some(f) {
        Some(cs[0])
    } else {
        field_child(ns, cs.drop_first(), f)
    }
}

/// The named nodes among `cs`, in order.
pub open spec fn named_of(ns: Seq<TreeNodeView>, cs: Seq<int>) -> Seq<int>
    decreases cs.len(),
{
    if cs.len() == 0 {
        Seq::empty()
    } else if 0 <= cs.last() < ns.len() && ns[cs.last()].node.named {
        named_of(ns, cs.drop_last()).push(cs.last())
    } else {
        named_of(ns, cs.drop_last())
    }
}

/// The named children of node `i`.
pub open spec fn named_children(ns: Seq<TreeNodeView>, i: int) -> Seq<int> {
    named_of(ns, ns[i].children)
}

/// The first node of the kind in a preorder search of `i` and its named
/// descendants.
pub open spec fn find_descendant(ns: Seq<TreeNodeView>, i: int, kind: Seq<char>) -> Option<int>
    decreases ns.len() - i, 1int,
{
    if !(0 <= i < ns.len()) {
        None
    } else if ns[i].node.kind == kind {
        Some(i)
    } else {
        find_in(ns, i, named_children(ns, i), kind)
    }
}

/// The first match among the subtrees of the children `cs` of `i`.
pub open spec fn find_in(ns: Seq<TreeNodeView>, i: int, cs: Seq<int>, kind: Seq<char>) -> Option<int>
    decreases ns.len() - i, 0int, cs.len(),
{
    if cs.len() == 0 || !(0 <= i < ns.len()) {
        None
    } else if cs[0] <= i || cs[0] >= ns.len() {
        None
    } else {
        match find_descendant(ns, cs[0], kind) {
            Some(d) => Some(d),
            None => find_in(ns, i, cs.drop_first(), kind),
        }
    }
}

/// The node is an old-style command definition, or its last named child
/// ends with one.
pub open spec fn ends_with_old_definition(ns: Seq<TreeNodeView>, i: int) -> bool
    decreases ns.len() - i,
{
    if !(0 <= i < ns.len()) {
        false
    } else if ns[i].node.kind == "old_command_definition"@ {
        true
    } else {
        let named = named_children(ns, i);
        named.len() > 0 && i < named.last() < ns.len() && ends_with_old_definition(ns, named.last())
    }
}

/// Text with every leading and trailing brace removed.
pub open spec fn trim_braces(s: Seq<char>) -> Seq<char>
    decreases s.len(),
{
    if s.len() > 0 && (s[0] == '{' || s[0] == '}') {
        trim_braces(s.drop_first())
    } else if s.len() > 0 && (s.last() == '{' || s.last() == '}') {
        trim_braces(s.drop_last())
    } else {
        s
    }
}

/// Text without its leading backslashes.
pub open spec fn trim_backslashes(s: Seq<char>) -> Seq<char>
    decreases s.len(),
{
    if s.len() > 0 && s[0] == '\\' {
        trim_backslashes(s.drop_first())
    } else {
        s
    }
}

/// Both results, joined, when both are there.
pub open spec fn cat(a: Option<Seq<ItemView>>, b: Option<Seq<ItemView>>) -> Option<Seq<ItemView>> {
    match (a, b) {
        (Some(x), Some(y)) => Some(x + y),
        _ => None,
    }
}

/// The name of an environment node: the text node under its `\begin`.
pub open spec fn environment_name(ns: Seq<TreeNodeView>, text: Seq<char>, i: int) -> Option<Seq<char>> {
    let named = named_children(ns, i);
    if named.len() == 0 || named[0] <= i {
        None
    } else {
        match find_descendant(ns, named[0], "text"@) {
            Some(t) => Some(node_text(text, ns[t].node)),
            None => None,
        }
    }
}

/// What walking node `i` gives; an include ends the paragraph, and one
/// whose path the tree lacks gives an unnamed include in place of the path.
pub open spec fn walk_node(ns: Seq<TreeNodeView>, text: Seq<char>, ignore: Seq<Seq<char>>, i: int) -> Option<
    Seq<ItemView>,
>
    decreases ns.len() - i, 2int, 0int,
{
    if !(0 <= i < ns.len()) {
        None
    } else {
        let n = ns[i].node;
        let kind = n.kind;
        if kind == "latex_include"@ {
            let path = match field_child(ns, ns[i].children, "path"@) {
                Some(c) => Some(c),
                None => find_descendant(ns, i, "path"@),
            };
            match path {
                Some(p) => if 0 <= p < ns.len() {
                    Some(
                        seq![
                            ItemView::Flush,
                            ItemView::Include { requested: trim_braces(node_text(text, ns[p].node)) },
                        ],
                    )
                } else {
                    Some(seq![ItemView::Flush, ItemView::UnnamedInclude])
                },
                None => Some(seq![ItemView::Flush, ItemView::UnnamedInclude]),
            }
        } else if spec_should_skip_subtree(kind) {
            Some(Seq::empty())
        } else if kind == "generic_environment"@ && (match environment_name(ns, text, i) {
            Some(name) => ignore.contains(name),
            None => false,
        }) {
            Some(Seq::empty())
        } else if spec_is_structural(kind) {
            let prose = field_child(ns, ns[i].children, "text"@);
            let head = match prose {
                Some(p) => if i < p < ns.len() {
                    cat(
                        cat(Some(seq![ItemView::Flush]), walk_node(ns, text, ignore, p)),
                        Some(seq![ItemView::Flush]),
                    )
                } else {
                    None
                },
                None => Some(seq![ItemView::Flush]),
            };
            cat(
                head,
                walk_structural(
                    ns,
                    text,
                    ignore,
                    i,
                    0,
                    match prose {
                        Some(p) => if 0 <= p < ns.len() {
                            Some(ns[p].node.end)
                        } else {
                            None
                        },
                        None => None,
                    },
                ),
            )
        } else if kind == "caption"@ {
            cat(
                cat(Some(seq![ItemView::Flush]), walk_field(ns, text, ignore, i, "long"@)),
                Some(seq![ItemView::Flush]),
            )
        } else if kind == "color_reference"@ {
            walk_field(ns, text, ignore, i, "text"@)
        } else if kind == "generic_command"@ {
            let named = named_children(ns, i);
            let command = if named.len() > 0 && 0 <= named[0] < ns.len() {
                trim_backslashes(node_text(text, ns[named[0]].node))
            } else {
                Seq::empty()
            };
            if spec_is_non_prose_command(command) {
                Some(Seq::empty())
            } else {
                walk_list(ns, text, ignore, i, named, 1)
            }
        } else if kind == "begin"@ || kind == "end"@ || kind == "command_name"@ || kind == "path"@ {
            Some(Seq::empty())
        } else if ns[i].children.len() == 0 {
            if kind == "word"@ || spec_is_retained_punctuation(kind) {
                Some(seq![ItemView::Text { start: n.start, end: n.end }])
            } else {
                Some(Seq::empty())
            }
        } else {
            walk_children(ns, text, ignore, i, 0, None)
        }
    }
}

/// The walk of the child of `i` that fills the field, if there is one.
pub open spec fn walk_field(
    ns: Seq<TreeNodeView>,
    text: Seq<char>,
    ignore: Seq<Seq<char>>,
    i: int,
    f: Seq<char>,
) -> Option<Seq<ItemView>>
    decreases ns.len() - i, 1int, 0int,
{
    if !(0 <= i < ns.len()) {
        None
    } else {
        match field_child(ns, ns[i].children, f) {
            Some(c) => if i < c < ns.len() {
                walk_node(ns, text, ignore, c)
            } else {
                None
            },
            None => Some(Seq::empty()),
        }
    }
}

/// The walks of the nodes `cs[k..]`, children of `i`, one after another.
pub open spec fn walk_list(
    ns: Seq<TreeNodeView>,
    text: Seq<char>,
    ignore: Seq<Seq<char>>,
    i: int,
    cs: Seq<int>,
    k: int,
) -> Option<Seq<ItemView>>
    decreases ns.len() - i, 0int, cs.len() - k,
{
    if k < 0 || k >= cs.len() {
        Some(Seq::empty())
    } else if cs[k] <= i || cs[k] >= ns.len() {
        None
    } else {
        cat(walk_node(ns, text, ignore, cs[k]), walk_list(ns, text, ignore, i, cs, k + 1))
    }
}

/// The walks of the children `k..` of `i`, with the whitespace between
/// them; a curly group right after an old-style definition is skipped.
pub open spec fn walk_children(
    ns: Seq<TreeNodeView>,
    text: Seq<char>,
    ignore: Seq<Seq<char>>,
    i: int,
    k: int,
    previous_end: Option<usize>,
) -> Option<Seq<ItemView>>
    decreases ns.len() - i, 0int, ns[i].children.len() - k,
{
    if !(0 <= i < ns.len()) || k < 0 || k >= ns[i].children.len() {
        Some(Seq::empty())
    } else {
        let cs = ns[i].children;
        let c = cs[k];
        if c <= i || c >= ns.len() {
            None
        } else {
            let gap = match previous_end {
                Some(e) => seq![ItemView::Whitespace { start: e, end: ns[c].node.start }],
                None => Seq::empty(),
            };
            let skip_next = ends_with_old_definition(ns, c) && k + 1 < cs.len() && 0 <= cs[k + 1]
                < ns.len() && ns[cs[k + 1]].node.kind == "curly_group"@;
            let rest = if skip_next {
                walk_children(ns, text, ignore, i, k + 2, Some(ns[cs[k + 1]].node.end))
            } else {
                walk_children(ns, text, ignore, i, k + 1, Some(ns[c].node.end))
            };
            cat(cat(Some(gap), walk_node(ns, text, ignore, c)), rest)
        }
    }
}

/// The walks of the named children `k..` of a sectioning node `i`, skipping
/// its title and table-of-contents fields, with the whitespace between them.
pub open spec fn walk_structural(
    ns: Seq<TreeNodeView>,
    text: Seq<char>,
    ignore: Seq<Seq<char>>,
    i: int,
    k: int,
    previous_end: Option<usize>,
) -> Option<Seq<ItemView>>
    decreases ns.len() - i, 0int, named_children(ns, i).len() - k,
{
    if !(0 <= i < ns.len()) || k < 0 || k >= named_children(ns, i).len() {
        Some(Seq::empty())
    } else {
        let c = named_children(ns, i)[k];
        if c <= i || c >= ns.len() {
            None
        } else if Some(c) == field_child(ns, ns[i].children, "text"@) || Some(c) == field_child(
            ns,
            ns[i].children,
            "toc"@,
        ) {
            walk_structural(ns, text, ignore, i, k + 1, previous_end)
        } else {
            let gap = match previous_end {
                Some(e) => seq![ItemView::Whitespace { start: e, end: ns[c].node.start }],
                None => Seq::empty(),
            };
            cat(
                cat(Some(gap), walk_node(ns, text, ignore, c)),
                walk_structural(ns, text, ignore, i, k + 1, Some(ns[c].node.end)),
            )
        }
    }
}

/// What the walk reads: a file's syntax tree, its characters with the byte
/// offset of each character boundary, and the environments to leave out.
pub struct WalkInput<'a> {
    pub tree: &'a SyntaxTree,
    pub chars: Vec<char>,
    pub offsets: Vec<usize>,
    pub ignore: &'a [String],
}

impl<'a> WalkInput<'a> {
    pub open spec fn ns(&self) -> Seq<TreeNodeView> {
        self.tree.spec_nodes()
    }

    pub open spec fn ignored(&self) -> Seq<Seq<char>> {
        self.ignore@.map_values(|s: String| s@)
    }

    /// The offsets are those of the characters and the tree is ordered.
    pub open spec fn ready(&self) -> bool {
        &&& self.tree.well_formed()
        &&& self.offsets@.len() == self.chars@.len() + 1
        &&& forall|k: int| 0 <= k <= self.chars@.len() ==> self.offsets@[k] == byte_pos(self.chars@, k)
    }
}

/// Index of the character boundary at byte `b`, by binary search.
pub(crate) fn boundary_index(offsets: &Vec<usize>, Ghost(s): Ghost<Seq<char>>, b: usize) -> (r: Option<usize>)
    requires
        offsets@.len() == s.len() + 1,
        forall|k: int| 0 <= k <= s.len() ==> offsets@[k] == byte_pos(s, k),
    ensures
        match r {
            Some(i) => i <= s.len() && byte_pos(s, i as int) == b,
            None => !crate::lint::analysis::is_char_boundary(s, b as int),
        },
{
    let mut lo: usize = 0;
    let mut hi: usize = offsets.len();
    while lo < hi
        invariant
            offsets@.len() == s.len() + 1,
            forall|k: int| 0 <= k <= s.len() ==> offsets@[k] == byte_pos(s, k),
            lo <= hi <= offsets@.len(),
            forall|k: int| 0 <= k < lo ==> byte_pos(s, k) < b,
            forall|k: int| hi <= k <= s.len() ==> byte_pos(s, k) > b,
        decreases hi - lo,
    {
        let mid = lo + (hi - lo) / 2;
        if offsets[mid] == b {
            return Some(mid);
        } else if offsets[mid] < b {
            proof {
                assert forall|k: int| 0 <= k < mid + 1 implies byte_pos(s, k) < b by {
                    if k < mid {
                        crate::text::unicode::lemma_byte_pos_mono(s, k, mid as int);
                    }
                }
            }
            lo = mid + 1;
        } else {
            proof {
                assert forall|k: int| mid <= k <= s.len() implies byte_pos(s, k) > b by {
                    if k > mid {
                        crate::text::unicode::lemma_byte_pos_mono(s, mid as int, k);
                    }
                }
            }
            hi = mid;
        }
    }
    None
}

fn node_text_of(input: &WalkInput, i: usize) -> (r: String)
    requires
        input.ready(),
        i < input.ns().len(),
    ensures
        r@ == node_text(input.chars@, input.ns()[i as int].node),
{
    let n = &input.tree.nodes[i].node;
    assert(input.ns()[i as int].node == n@);
    if n.start > n.end {
        return String::new();
    }
    let a = boundary_index(&input.offsets, Ghost(input.chars@), n.start);
    let b = boundary_index(&input.offsets, Ghost(input.chars@), n.end);
    match (a, b) {
        (Some(a), Some(b)) => {
            proof {
                let s = input.chars@;
                let wa = crate::lint::analysis::char_index(s, n.start as int);
                let wb = crate::lint::analysis::char_index(s, n.end as int);
                crate::text::unicode::lemma_byte_pos_injective(s, a as int, wa);
                crate::text::unicode::lemma_byte_pos_injective(s, b as int, wb);
                if a > b {
                    crate::text::unicode::lemma_byte_pos_mono(s, b as int, a as int);
                }
            }
            string_of(&input.chars, a, b)
        },
        _ => String::new(),
    }
}

fn field_is(field: &Option<String>, f: &str) -> (r: bool)
    ensures
        r == (match field {
            Some(x) => Some(x@),
            None => None::<Seq<char>>,
        } == Some(f@)),
{
    match field {
        Some(x) => str_eq(x.as_str(), f),
        None => false,
    }
}

fn field_child_of(input: &WalkInput, i: usize, f: &str) -> (r: Option<usize>)
    requires
        input.ready(),
        i < input.ns().len(),
    ensures
        match r {
            Some(c) => field_child(input.ns(), input.ns()[i as int].children, f@) == Some(c as int)
                && i < c < input.ns().len(),
            None => field_child(input.ns(), input.ns()[i as int].children, f@) is None,
        },
{
    let ghost ns = input.ns();
    let ghost cs = ns[i as int].children;
    let children = &input.tree.nodes[i].children;
    assert(cs == children@.map_values(|c: usize| c as int));
    let mut k: usize = 0;
    assert(cs.skip(0) =~= cs);
    while k < children.len()
        invariant
            input.ready(),
            ns == input.ns(),
            i < ns.len(),
            cs == ns[i as int].children,
            cs == children@.map_values(|c: usize| c as int),
            k <= children@.len(),
            field_child(ns, cs, f@) == field_child(ns, cs.skip(k as int), f@),
        decreases children@.len() - k,
    {
        let c = children[k];
        proof {
            assert(cs.skip(k as int)[0] == c as int);
            assert(cs.skip(k as int).drop_first() =~= cs.skip(k + 1));
            assert(tree_ordered(ns));
            assert(i < ns[i as int].children[k as int] < ns.len());
        }
        if field_is(&input.tree.nodes[c].node.field, f) {
            assert(ns[c as int].node == input.tree.nodes@[c as int].node@);
            return Some(c);
        }
        assert(ns[c as int].node == input.tree.nodes@[c as int].node@);
        k = k + 1;
    }
    assert(cs.skip(k as int) =~= Seq::<int>::empty());
    None
}

fn named_children_of(input: &WalkInput, i: usize) -> (r: Vec<usize>)
    requires
        input.ready(),
        i < input.ns().len(),
    ensures
        r@.map_values(|c: usize| c as int) == named_children(input.ns(), i as int),
        forall|k: int| 0 <= k < r@.len() ==> i < #[trigger] r@[k] < input.ns().len(),
{
    let ghost ns = input.ns();
    let ghost cs = ns[i as int].children;
    let children = &input.tree.nodes[i].children;
    assert(cs == children@.map_values(|c: usize| c as int));
    let mut r: Vec<usize> = Vec::new();
    let mut k: usize = 0;
    assert(cs.take(0) =~= Seq::<int>::empty());
    assert(r@.map_values(|c: usize| c as int) =~= Seq::<int>::empty());
    while k < children.len()
        invariant
            input.ready(),
            ns == input.ns(),
            i < ns.len(),
            cs == ns[i as int].children,
            cs == children@.map_values(|c: usize| c as int),
            k <= children@.len(),
            r@.map_values(|c: usize| c as int) == named_of(ns, cs.take(k as int)),
            forall|j: int| 0 <= j < r@.len() ==> i < #[trigger] r@[j] < ns.len(),
        decreases children@.len() - k,
    {
        let c = children[k];
        proof {
            assert(cs.take(k + 1).drop_last() =~= cs.take(k as int));
            assert(cs.take(k + 1).last() == c as int);
            assert(tree_ordered(ns));
            assert(i < ns[i as int].children[k as int] < ns.len());
        }
        assert(ns[c as int].node == input.tree.nodes@[c as int].node@);
        if input.tree.nodes[c].node.named {
            let ghost before = r@;
            r.push(c);
            assert(r@.map_values(|x: usize| x as int) =~= before.map_values(|x: usize| x as int).push(c as int));
        }
        k = k + 1;
    }
    assert(cs.take(k as int) =~= cs);
    r
}

fn find_descendant_of(input: &WalkInput, i: usize, kind: &str) -> (r: Option<usize>)
    requires
        input.ready(),
        i < input.ns().len(),
    ensures
        match r {
            Some(d) => find_descendant(input.ns(), i as int, kind@) == Some(d as int) && d < input.ns().len(),
            None => find_descendant(input.ns(), i as int, kind@) is None,
        },
    decreases input.ns().len() - i, 1int,
{
    assert(input.ns()[i as int].node == input.tree.nodes@[i as int].node@);
    if str_eq(input.tree.nodes[i].node.kind.as_str(), kind) {
        return Some(i);
    }
    let named = named_children_of(input, i);
    let ghost ns = input.ns();
    let ghost cs = named_children(ns, i as int);
    let mut k: usize = 0;
    assert(cs.skip(0) =~= cs);
    while k < named.len()
        invariant
            input.ready(),
            ns == input.ns(),
            i < ns.len(),
            cs == named_children(ns, i as int),
            cs == named@.map_values(|c: usize| c as int),
            forall|j: int| 0 <= j < named@.len() ==> i < #[trigger] named@[j] < ns.len(),
            k <= named@.len(),
            ns[i as int].node.kind != kind@,
            find_in(ns, i as int, cs, kind@) == find_in(ns, i as int, cs.skip(k as int), kind@),
        decreases named@.len() - k,
    {
        let c = named[k];
        proof {
            assert(cs.skip(k as int)[0] == c as int);
            assert(cs.skip(k as int).drop_first() =~= cs.skip(k + 1));
        }
        match find_descendant_of(input, c, kind) {
            Some(d) => return Some(d),
            None => {},
        }
        k = k + 1;
    }
    assert(cs.skip(k as int) =~= Seq::<int>::empty());
    None
}

fn ends_with_old_definition_of(input: &WalkInput, i: usize) -> (r: bool)
    requires
        input.ready(),
        i < input.ns().len(),
    ensures
        r == ends_with_old_definition(input.ns(), i as int),
    decreases input.ns().len() - i,
{
    assert(input.ns()[i as int].node == input.tree.nodes@[i as int].node@);
    if str_eq(input.tree.nodes[i].node.kind.as_str(), "old_command_definition") {
        return true;
    }
    let named = named_children_of(input, i);
    if named.len() == 0 {
        return false;
    }
    let last = named[named.len() - 1];
    assert(named_children(input.ns(), i as int).last() == last as int);
    ends_with_old_definition_of(input, last)
}

fn trim_braces_of(s: String) -> (r: String)
    ensures
        r@ == trim_braces(s@),
{
    let chars = chars_of(s.as_str());
    let mut lo: usize = 0;
    let mut hi: usize = chars.len();
    assert(chars@.subrange(0, chars@.len() as int) =~= chars@);
    while lo < hi && (chars[lo] == '{' || chars[lo] == '}' || chars[hi - 1] == '{' || chars[hi - 1] == '}')
        invariant
            lo <= hi <= chars.len(),
            chars@ == s@,
            trim_braces(s@) == trim_braces(chars@.subrange(lo as int, hi as int)),
        decreases hi - lo,
    {
        let ghost cur = chars@.subrange(lo as int, hi as int);
        if chars[lo] == '{' || chars[lo] == '}' {
            assert(cur.drop_first() =~= chars@.subrange(lo + 1, hi as int));
            lo = lo + 1;
        } else {
            assert(cur.drop_last() =~= chars@.subrange(lo as int, hi - 1));
            hi = hi - 1;
        }
    }
    proof {
        let cur = chars@.subrange(lo as int, hi as int);
        if lo == hi {
            assert(cur.len() == 0);
        }
    }
    string_of(&chars, lo, hi)
}

fn trim_backslashes_of(s: String) -> (r: String)
    ensures
        r@ == trim_backslashes(s@),
{
    let chars = chars_of(s.as_str());
    let mut lo: usize = 0;
    assert(chars@.subrange(0, chars@.len() as int) =~= chars@);
    while lo < chars.len() && chars[lo] == '\\'
        invariant
            lo <= chars.len(),
            chars@ == s@,
            trim_backslashes(s@) == trim_backslashes(chars@.subrange(lo as int, chars@.len() as int)),
        decreases chars.len() - lo,
    {
        assert(chars@.subrange(lo as int, chars@.len() as int).drop_first() =~= chars@.subrange(lo + 1, chars@.len() as int));
        lo = lo + 1;
    }
    string_of(&chars, lo, chars.len())
}

fn environment_name_of(input: &WalkInput, i: usize) -> (r: Option<String>)
    requires
        input.ready(),
        i < input.ns().len(),
    ensures
        match r {
            Some(name) => environment_name(input.ns(), input.chars@, i as int) == Some(name@),
            None => environment_name(input.ns(), input.chars@, i as int) is None,
        },
{
    let named = named_children_of(input, i);
    if named.len() == 0 {
        return None;
    }
    assert(named_children(input.ns(), i as int)[0] == named@[0] as int);
    match find_descendant_of(input, named[0], "text") {
        Some(t) => Some(node_text_of(input, t)),
        None => None,
    }
}

fn is_ignored(ignore: &[String], name: &String) -> (r: bool)
    ensures
        r == ignore@.map_values(|s: String| s@).contains(name@),
{
    let mut k: usize = 0;
    while k < ignore.len()
        invariant
            k <= ignore@.len(),
            forall|j: int| 0 <= j < k ==> ignore@[j]@ != name@,
        decreases ignore@.len() - k,
    {
        if str_eq(ignore[k].as_str(), name.as_str()) {
            assert(ignore@.map_values(|s: String| s@)[k as int] == name@);
            return true;
        }
        k = k + 1;
    }
    proof {
        let m = ignore@.map_values(|s: String| s@);
        if m.contains(name@) {
            let j = choose|j: int| 0 <= j < m.len() && #[trigger] m[j] == name@;
            assert(ignore@[j]@ == name@);
        }
    }
    false
}

fn flush_item() -> (r: WalkItem)
    ensures
        r@ == ItemView::Flush,
{
    WalkItem::Flush
}

/// Walks node `i`: the items of its prose.
pub fn walk(input: &WalkInput, i: usize) -> (r: Option<Vec<WalkItem>>)
    requires
        input.ready(),
        i < input.ns().len(),
    ensures
        match r {
            Some(items) => walk_node(input.ns(), input.chars@, input.ignored(), i as int) == Some(
                crate::order::views(items@),
            ),
            None => walk_node(input.ns(), input.chars@, input.ignored(), i as int) is None,
        },
    decreases input.ns().len() - i, 2int, 0int,
{
    let ghost ns = input.ns();
    let n = &input.tree.nodes[i].node;
    assert(ns[i as int].node == n@);
    let kind = n.kind.as_str();
    if str_eq(kind, "latex_include") {
        let path = match field_child_of(input, i, "path") {
            Some(c) => Some(c),
            None => find_descendant_of(input, i, "path"),
        };
        return match path {
            Some(p) => {
                let requested = trim_braces_of(node_text_of(input, p));
                let items = vec![WalkItem::Flush, WalkItem::Include { requested }];
                assert(crate::order::views(items@) =~= seq![
                    ItemView::Flush,
                    ItemView::Include { requested: trim_braces(node_text(input.chars@, ns[p as int].node)) },
                ]);
                Some(items)
            },
            None => {
                let items = vec![WalkItem::Flush, WalkItem::UnnamedInclude];
                assert(crate::order::views(items@) =~= seq![ItemView::Flush, ItemView::UnnamedInclude]);
                Some(items)
            },
        };
    }
    if should_skip_subtree(kind) {
        let items: Vec<WalkItem> = Vec::new();
        assert(crate::order::views(items@) =~= Seq::<ItemView>::empty());
        return Some(items);
    }
    if str_eq(kind, "generic_environment") {
        match environment_name_of(input, i) {
            Some(name) => {
                if is_ignored(input.ignore, &name) {
                    let items: Vec<WalkItem> = Vec::new();
                    assert(crate::order::views(items@) =~= Seq::<ItemView>::empty());
                    return Some(items);
                }
            },
            None => {},
        }
    }
    if is_structural_prose_node(kind) {
        return walk_structural_node(input, i);
    }
    if str_eq(kind, "caption") {
        let mut items: Vec<WalkItem> = Vec::new();
        items.push(flush_item());
        let mut field = match walk_field_of(input, i, "long") {
            Some(f) => f,
            None => return None,
        };
        let ghost first = crate::order::views(items@);
        proof {
            crate::order::lemma_views_add(items@, field@);
        }
        items.append(&mut field);
        let ghost mid = crate::order::views(items@);
        let last = flush_item();
        proof {
            crate::order::lemma_views_push(items@, last);
        }
        items.push(last);
        assert(first =~= seq![ItemView::Flush]);
        return Some(items);
    }
    if str_eq(kind, "color_reference") {
        return walk_field_of(input, i, "text");
    }
    if str_eq(kind, "generic_command") {
        let named = named_children_of(input, i);
        let command = if named.len() > 0 {
            assert(named_children(ns, i as int)[0] == named@[0] as int);
            trim_backslashes_of(node_text_of(input, named[0]))
        } else {
            String::new()
        };
        if is_non_prose_command(command.as_str()) {
            let items: Vec<WalkItem> = Vec::new();
            assert(crate::order::views(items@) =~= Seq::<ItemView>::empty());
            return Some(items);
        }
        return walk_list_of(input, i, &named, 1);
    }
    if str_eq(kind, "begin") || str_eq(kind, "end") || str_eq(kind, "command_name") || str_eq(kind, "path") {
        let items: Vec<WalkItem> = Vec::new();
        assert(crate::order::views(items@) =~= Seq::<ItemView>::empty());
        return Some(items);
    }
    if input.tree.nodes[i].children.len() == 0 {
        let mut items: Vec<WalkItem> = Vec::new();
        if str_eq(kind, "word") || is_retained_punctuation(kind) {
            items.push(WalkItem::Text { start: n.start, end: n.end });
        }
        assert(crate::order::views(items@) =~= walk_node(ns, input.chars@, input.ignored(), i as int)->0);
        return Some(items);
    }
    walk_children_of(input, i)
}

fn walk_field_of(input: &WalkInput, i: usize, f: &str) -> (r: Option<Vec<WalkItem>>)
    requires
        input.ready(),
        i < input.ns().len(),
    ensures
        match r {
            Some(items) => walk_field(input.ns(), input.chars@, input.ignored(), i as int, f@) == Some(
                crate::order::views(items@),
            ),
            None => walk_field(input.ns(), input.chars@, input.ignored(), i as int, f@) is None,
        },
    decreases input.ns().len() - i, 1int, 0int,
{
    match field_child_of(input, i, f) {
        Some(c) => walk(input, c),
        None => {
            let items: Vec<WalkItem> = Vec::new();
            assert(crate::order::views(items@) =~= Seq::<ItemView>::empty());
            Some(items)
        },
    }
}

fn walk_list_of(input: &WalkInput, i: usize, cs: &Vec<usize>, from: usize) -> (r: Option<Vec<WalkItem>>)
    requires
        input.ready(),
        i < input.ns().len(),
        forall|k: int| 0 <= k < cs@.len() ==> i < #[trigger] cs@[k] < input.ns().len(),
    ensures
        match r {
            Some(items) => walk_list(input.ns(), input.chars@, input.ignored(), i as int, cs@.map_values(|c: usize| c as int), from as int) == Some(
                crate::order::views(items@),
            ),
            None => walk_list(input.ns(), input.chars@, input.ignored(), i as int, cs@.map_values(|c: usize| c as int), from as int) is None,
        },
    decreases input.ns().len() - i, 0int, 0int,
{
    let ghost ns = input.ns();
    let ghost csi = cs@.map_values(|c: usize| c as int);
    let ghost total = walk_list(ns, input.chars@, input.ignored(), i as int, csi, from as int);
    let mut items: Vec<WalkItem> = Vec::new();
    let mut k = from;
    assert(crate::order::views(items@) =~= Seq::<ItemView>::empty());
    while k < cs.len()
        invariant
            input.ready(),
            ns == input.ns(),
            i < ns.len(),
            csi == cs@.map_values(|c: usize| c as int),
            forall|j: int| 0 <= j < cs@.len() ==> i < #[trigger] cs@[j] < ns.len(),
            from <= k,
            total == walk_list(ns, input.chars@, input.ignored(), i as int, csi, from as int),
            total == cat(Some(crate::order::views(items@)), walk_list(ns, input.chars@, input.ignored(), i as int, csi, k as int)),
        decreases cs@.len() - k,
    {
        let c = cs[k];
        assert(csi[k as int] == c as int);
        let mut sub = match walk(input, c) {
            Some(sub) => sub,
            None => return None,
        };
        proof {
            crate::order::lemma_views_add(items@, sub@);
        }
        items.append(&mut sub);
        k = k + 1;
    }
    Some(items)
}

fn walk_children_of(input: &WalkInput, i: usize) -> (r: Option<Vec<WalkItem>>)
    requires
        input.ready(),
        i < input.ns().len(),
    ensures
        match r {
            Some(items) => walk_children(input.ns(), input.chars@, input.ignored(), i as int, 0, None) == Some(
                crate::order::views(items@),
            ),
            None => walk_children(input.ns(), input.chars@, input.ignored(), i as int, 0, None) is None,
        },
    decreases input.ns().len() - i, 0int, 0int,
{
    let ghost ns = input.ns();
    let ghost total = walk_children(ns, input.chars@, input.ignored(), i as int, 0, None);
    let children = &input.tree.nodes[i].children;
    let ghost cs = ns[i as int].children;
    assert(cs == children@.map_values(|c: usize| c as int));
    let mut items: Vec<WalkItem> = Vec::new();
    let mut previous_end: Option<usize> = None;
    let mut k: usize = 0;
    assert(crate::order::views(items@) =~= Seq::<ItemView>::empty());
    while k < children.len()
        invariant
            input.ready(),
            ns == input.ns(),
            i < ns.len(),
            cs == ns[i as int].children,
            cs == children@.map_values(|c: usize| c as int),
            total == walk_children(ns, input.chars@, input.ignored(), i as int, 0, None),
            total == cat(Some(crate::order::views(items@)), walk_children(ns, input.chars@, input.ignored(), i as int, k as int, previous_end)),
        decreases children@.len() - k,
    {
        let c = children[k];
        proof {
            assert(tree_ordered(ns));
            assert(i < ns[i as int].children[k as int] < ns.len());
            assert(cs[k as int] == c as int);
        }
        let ghost before = crate::order::views(items@);
        let start_c = input.tree.nodes[c].node.start;
        assert(ns[c as int].node == input.tree.nodes@[c as int].node@);
        match previous_end {
            Some(e) => {
                let gap = WalkItem::Whitespace { start: e, end: start_c };
                proof {
                    crate::order::lemma_views_push(items@, gap);
                }
                items.push(gap);
            },
            None => {},
        }
        let mut sub = match walk(input, c) {
            Some(sub) => sub,
            None => return None,
        };
        proof {
            crate::order::lemma_views_add(items@, sub@);
        }
        items.append(&mut sub);
        let old = ends_with_old_definition_of(input, c);
        let skip_next = old && k + 1 < children.len() && {
            let next = children[k + 1];
            proof {
                assert(i < ns[i as int].children[k + 1] < ns.len());
                assert(cs[k + 1] == next as int);
            }
            assert(ns[next as int].node == input.tree.nodes@[next as int].node@);
            str_eq(input.tree.nodes[next].node.kind.as_str(), "curly_group")
        };
        if skip_next {
            let next = children[k + 1];
            assert(ns[next as int].node == input.tree.nodes@[next as int].node@);
            previous_end = Some(input.tree.nodes[next].node.end);
            k = k + 2;
        } else {
            previous_end = Some(input.tree.nodes[c].node.end);
            k = k + 1;
        }
    }
    Some(items)
}

fn walk_structural_node(input: &WalkInput, i: usize) -> (r: Option<Vec<WalkItem>>)
    requires
        input.ready(),
        i < input.ns().len(),
        spec_is_structural(input.ns()[i as int].node.kind),
        input.ns()[i as int].node.kind != "latex_include"@,
        !spec_should_skip_subtree(input.ns()[i as int].node.kind),
        !(input.ns()[i as int].node.kind == "generic_environment"@ && (match environment_name(
            input.ns(),
            input.chars@,
            i as int,
        ) {
            Some(name) => input.ignored().contains(name),
            None => false,
        })),
    ensures
        match r {
            Some(items) => walk_node(input.ns(), input.chars@, input.ignored(), i as int) == Some(
                crate::order::views(items@),
            ),
            None => walk_node(input.ns(), input.chars@, input.ignored(), i as int) is None,
        },
    decreases input.ns().len() - i, 1int, 1int,
{
    let ghost ns = input.ns();
    let prose = field_child_of(input, i, "text");
    let toc = field_child_of(input, i, "toc");
    let mut items: Vec<WalkItem> = Vec::new();
    items.push(flush_item());
    let mut previous_end: Option<usize> = None;
    match prose {
        Some(p) => {
            let mut sub = match walk(input, p) {
                Some(sub) => sub,
                None => return None,
            };
            proof {
                crate::order::lemma_views_add(items@, sub@);
            }
            items.append(&mut sub);
            let f = flush_item();
            proof {
                crate::order::lemma_views_push(items@, f);
            }
            items.push(f);
            assert(ns[p as int].node == input.tree.nodes@[p as int].node@);
            previous_end = Some(input.tree.nodes[p].node.end);
        },
        None => {},
    }
    let ghost head = crate::order::views(items@);
    let named = named_children_of(input, i);
    let ghost cs = named_children(ns, i as int);
    let ghost total = walk_structural(ns, input.chars@, input.ignored(), i as int, 0, previous_end);
    proof {
        match prose {
            Some(p) => {
                assert(head =~= seq![ItemView::Flush] + walk_node(ns, input.chars@, input.ignored(), p as int)->0 + seq![ItemView::Flush]);
            },
            None => {
                assert(head =~= seq![ItemView::Flush]);
            },
        }
    }
    let mut k: usize = 0;
    while k < named.len()
        invariant
            input.ready(),
            ns == input.ns(),
            i < ns.len(),
            cs == named_children(ns, i as int),
            cs == named@.map_values(|c: usize| c as int),
            forall|j: int| 0 <= j < named@.len() ==> i < #[trigger] named@[j] < ns.len(),
            walk_node(ns, input.chars@, input.ignored(), i as int) == cat(Some(head), total),
            match prose {
                Some(p) => field_child(ns, ns[i as int].children, "text"@) == Some(p as int),
                None => field_child(ns, ns[i as int].children, "text"@) is None,
            },
            match toc {
                Some(t) => field_child(ns, ns[i as int].children, "toc"@) == Some(t as int),
                None => field_child(ns, ns[i as int].children, "toc"@) is None,
            },
            cat(Some(head), total) == cat(Some(crate::order::views(items@)), walk_structural(ns, input.chars@, input.ignored(), i as int, k as int, previous_end)),
        decreases named@.len() - k,
    {
        let c = named[k];
        assert(cs[k as int] == c as int);
        let is_prose = match prose {
            Some(p) => p == c,
            None => false,
        };
        let is_toc = match toc {
            Some(t) => t == c,
            None => false,
        };
        if is_prose || is_toc {
            k = k + 1;
        } else {
            assert(ns[c as int].node == input.tree.nodes@[c as int].node@);
            match previous_end {
                Some(e) => {
                    let gap = WalkItem::Whitespace { start: e, end: input.tree.nodes[c].node.start };
                    proof {
                        crate::order::lemma_views_push(items@, gap);
                    }
                    items.push(gap);
                },
                None => {},
            }
            let mut sub = match walk(input, c) {
                Some(sub) => sub,
                None => return None,
            };
            proof {
                crate::order::lemma_views_add(items@, sub@);
            }
            items.append(&mut sub);
            previous_end = Some(input.tree.nodes[c].node.end);
            k = k + 1;
        }
    }
    Some(items)
}

/// Math, comments, citations, labels, definitions, package and file
/// includes, bibliographies and code listings hold no prose: a node of any
/// of these kinds contributes nothing to the walk, so no text inside it
/// reaches a block.
pub proof fn lemma_non_prose_nodes_give_nothing(
    ns: Seq<TreeNodeView>,
    text: Seq<char>,
    ignore: Seq<Seq<char>>,
    i: int,
)
    requires
        0 <= i < ns.len(),
        ({
            let kind = ns[i].node.kind;
            kind == "comment"@
            || kind == "block_comment"@
            || kind == "comment_environment"@
            || kind == "inline_formula"@
            || kind == "displayed_equation"@
            || kind == "math_delimiter"@
            || kind == "math_environment"@
            || kind == "citation"@
            || kind == "label_definition"@
            || kind == "label_reference"@
            || kind == "new_command_definition"@
            || kind == "renew_command_definition"@
            || kind == "new_environment_definition"@
            || kind == "environment_definition"@
            || kind == "old_command_definition"@
            || kind == "let_command_definition"@
            || kind == "paired_delimiter_definition"@
            || kind == "theorem_definition"@
            || kind == "acronym_definition"@
            || kind == "acronym_reference"@
            || kind == "glossary_entry_definition"@
            || kind == "glossary_entry_reference"@
            || kind == "color_definition"@
            || kind == "color_set_definition"@
            || kind == "counter_addition"@
            || kind == "counter_declaration"@
            || kind == "counter_definition"@
            || kind == "counter_increment"@
            || kind == "counter_typesetting"@
            || kind == "counter_value"@
            || kind == "counter_within_declaration"@
            || kind == "counter_without_declaration"@
            || kind == "class_include"@
            || kind == "package_include"@
            || kind == "biblatex_include"@
            || kind == "bibliography"@
            || kind == "graphics_include"@
            || kind == "listing_environment"@
            || kind == "minted_environment"@
            || kind == "verbatim_environment"@
            || kind == "luacode_environment"@
            || kind == "pycode_environment"@
            || kind == "sageblock_environment"@
            || kind == "sagesilent_environment"@
            || kind == "asy_environment"@
            || kind == "asydef_environment"@
            || kind == "source_code"@
        }),
    ensures
        walk_node(ns, text, ignore, i) == Some(Seq::<ItemView>::empty()),
{
    let kind = ns[i].node.kind;
    reveal_strlit("latex_include");
    reveal_strlit("comment");
    reveal_strlit("block_comment");
    reveal_strlit("comment_environment");
    reveal_strlit("inline_formula");
    reveal_strlit("displayed_equation");
    reveal_strlit("math_delimiter");
    reveal_strlit("math_environment");
    reveal_strlit("citation");
    reveal_strlit("label_definition");
    reveal_strlit("label_reference");
    reveal_strlit("new_command_definition");
    reveal_strlit("renew_command_definition");
    reveal_strlit("new_environment_definition");
    reveal_strlit("environment_definition");
    reveal_strlit("old_command_definition");
    reveal_strlit("let_command_definition");
    reveal_strlit("paired_delimiter_definition");
    reveal_strlit("theorem_definition");
    reveal_strlit("acronym_definition");
    reveal_strlit("acronym_reference");
    reveal_strlit("glossary_entry_definition");
    reveal_strlit("glossary_entry_reference");
    reveal_strlit("color_definition");
    reveal_strlit("color_set_definition");
    reveal_strlit("counter_addition");
    reveal_strlit("counter_declaration");
    reveal_strlit("counter_definition");
    reveal_strlit("counter_increment");
    reveal_strlit("counter_typesetting");
    reveal_strlit("counter_value");
    reveal_strlit("counter_within_declaration");
    reveal_strlit("counter_without_declaration");
    reveal_strlit("class_include");
    reveal_strlit("package_include");
    reveal_strlit("biblatex_include");
    reveal_strlit("bibliography");
    reveal_strlit("graphics_include");
    reveal_strlit("listing_environment");
    reveal_strlit("minted_environment");
    reveal_strlit("verbatim_environment");
    reveal_strlit("luacode_environment");
    reveal_strlit("pycode_environment");
    reveal_strlit("sageblock_environment");
    reveal_strlit("sagesilent_environment");
    reveal_strlit("asy_environment");
    reveal_strlit("asydef_environment");
    reveal_strlit("source_code");
    assert(kind.len() != 13 || kind[0] != 'l' || kind[1] != 'a');
    assert(kind != "latex_include"@);
}

} // verus!
