//! LaTeX syntax trees: the parser's output as a preorder list of events,
//! and the tree those events describe.
use vstd::prelude::*;

verus! {

/// One node of the syntax tree: its kind, whether the grammar names it, the
/// field it fills in its parent, and its source byte range.
#[derive(Debug, PartialEq, Eq)]
pub struct SyntaxNode {
    pub kind: String,
    pub named: bool,
    pub field: Option<String>,
    pub start: usize,
    pub end: usize,
}

/// A preorder walk over the tree: a node opens, or the last open node closes.
#[derive(Debug, PartialEq, Eq)]
pub enum SyntaxEvent {
    Open(SyntaxNode),
    Close,
}

/// Why no tree came out of the parser.
#[derive(Debug, Clone, PartialEq, Eq)]
pub enum SyntaxFailure {
    /// The LaTeX grammar could not be loaded; the parser's message.
    Language(String),
    /// The parser returned no tree.
    NoTree,
}

/// The value of a syntax node.
#[verifier::ext_equal]
pub struct NodeView {
    pub kind: Seq<char>,
    pub named: bool,
    pub field: Option<Seq<char>>,
    pub start: usize,
    pub end: usize,
}

/// The value of a syntax event.
pub enum EventView {
    Open(NodeView),
    Close,
}

/// What parsing a text gives: the events of its tree, or a failure.
pub enum SyntaxOutcome {
    Parsed(Seq<EventView>),
    Language(Seq<char>),
    NoTree,
}

impl View for SyntaxNode {
    type V = NodeView;

    open spec fn view(&self) -> NodeView {
        NodeView {
            kind: self.kind@,
            named: self.named,
            field: match self.field {
                Some(f) => Some(f@),
                None => None,
            },
            start: self.start,
            end: self.end,
        }
    }
}

impl View for SyntaxEvent {
    type V = EventView;

    open spec fn view(&self) -> EventView {
        match self {
            SyntaxEvent::Open(n) => EventView::Open(n@),
            SyntaxEvent::Close => EventView::Close,
        }
    }
}

impl SyntaxEvent {
    /// The event that opens a node with these parts.
    pub fn open(kind: &str, named: bool, field: Option<&str>, start: usize, end: usize) -> (e: SyntaxEvent)
        ensures
            e@ == EventView::Open(
                NodeView {
                    kind: kind@,
                    named,
                    field: match field {
                        Some(f) => Some(f@),
                        None => None,
                    },
                    start,
                    end,
                },
            ),
    {
        let field = match field {
            Some(f) => Some(f.to_string()),
            None => None,
        };
        SyntaxEvent::Open(SyntaxNode { kind: kind.to_string(), named, field, start, end })
    }
}

/// The outcome a parse result stands for.
pub open spec fn outcome_of(r: Result<Vec<SyntaxEvent>, SyntaxFailure>) -> SyntaxOutcome {
    match r {
        Ok(events) => SyntaxOutcome::Parsed(crate::order::views(events@)),
        Err(SyntaxFailure::Language(m)) => SyntaxOutcome::Language(m@),
        Err(SyntaxFailure::NoTree) => SyntaxOutcome::NoTree,
    }
}

/// What the tree-sitter LaTeX grammar makes of a text. The parser is
/// deterministic: the same text always gives the same tree.
pub uninterp spec fn latex_syntax(text: Seq<char>) -> SyntaxOutcome;

/// Parses `text` with `tree_sitter::Parser` and the `tree_sitter_latex`
/// grammar and lists the tree's nodes in preorder (`TreeCursor` walk), each
/// `Close` ending the last open node. The contract names the outcome only.
#[verifier::external_body]
pub(crate) fn latex_events(text: &str) -> (r: Result<Vec<SyntaxEvent>, SyntaxFailure>)
    ensures
        outcome_of(r) == latex_syntax(text@),
{
    let mut parser = tree_sitter::Parser::new();
    parser.set_language(&tree_sitter_latex::LANGUAGE.into()).map_err(|e| SyntaxFailure::Language(e.to_string()))?;
    let tree = parser.parse(text, None).ok_or(SyntaxFailure::NoTree)?;
    let (mut c, mut events) = (tree.walk(), Vec::new());
    loop {
        let n = c.node();
        events.push(SyntaxEvent::open(n.kind(), n.is_named(), c.field_name(), n.start_byte(), n.end_byte()));
        if c.goto_first_child() { continue; }
        events.push(SyntaxEvent::Close);
        while !c.goto_next_sibling() {
            if !c.goto_parent() { return Ok(events); }
            events.push(SyntaxEvent::Close);
        }
    }
}

/// A node and the indices of its children.
#[derive(Debug)]
pub struct TreeNode {
    pub node: SyntaxNode,
    pub children: Vec<usize>,
}

/// The value of a tree node.
#[verifier::ext_equal]
pub struct TreeNodeView {
    pub node: NodeView,
    pub children: Seq<int>,
}

impl View for TreeNode {
    type V = TreeNodeView;

    open spec fn view(&self) -> TreeNodeView {
        TreeNodeView {
            node: self.node@,
            children: self.children@.map_values(|c: usize| c as int),
        }
    }
}

/// A syntax tree: node 0 is the root, and nodes come in preorder.
#[derive(Debug)]
pub struct SyntaxTree {
    pub nodes: Vec<TreeNode>,
}

/// The nodes made so far and the stack of open nodes after the events, or
/// `None` when the events are malformed (a close with nothing open, or a
/// second root).
pub open spec fn replay(events: Seq<EventView>) -> Option<(Seq<TreeNodeView>, Seq<int>)>
    decreases events.len(),
{
    if events.len() == 0 {
        Some((Seq::empty(), Seq::empty()))
    } else {
        match replay(events.drop_last()) {
            None => None,
            Some(state) => {
                let nodes = state.0;
                let stack = state.1;
                match events.last() {
                    EventView::Open(n) => {
                        let i = nodes.len() as int;
                        if stack.len() == 0 && nodes.len() > 0 {
                            None
                        } else {
                            let linked = if stack.len() > 0 {
                                nodes.update(
                                    stack.last(),
                                    TreeNodeView {
                                        node: nodes[stack.last()].node,
                                        children: nodes[stack.last()].children.push(i),
                                    },
                                )
                            } else {
                                nodes
                            };
                            Some(
                                (
                                    linked.push(TreeNodeView { node: n, children: Seq::empty() }),
                                    stack.push(i),
                                ),
                            )
                        }
                    },
                    EventView::Close => if stack.len() == 0 {
                        None
                    } else {
                        Some((nodes, stack.drop_last()))
                    },
                }
            },
        }
    }
}

/// The tree the events describe, when they are well formed and every node closes.
pub open spec fn spec_tree(events: Seq<EventView>) -> Option<Seq<TreeNodeView>> {
    match replay(events) {
        Some(state) => if state.1.len() == 0 && state.0.len() > 0 {
            Some(state.0)
        } else {
            None
        },
        None => None,
    }
}

/// Children come after their parent and within the tree.
pub open spec fn tree_ordered(nodes: Seq<TreeNodeView>) -> bool {
    forall|i: int, k: int|
        0 <= i < nodes.len() && 0 <= k < nodes[i].children.len() ==> i < #[trigger] nodes[i].children[k]
            < nodes.len()
}

impl SyntaxTree {
    pub open spec fn spec_nodes(&self) -> Seq<TreeNodeView> {
        crate::order::views(self.nodes@)
    }

    /// The tree is ordered and its views are those of the nodes.
    pub open spec fn well_formed(&self) -> bool {
        &&& self.nodes@.len() > 0
        &&& tree_ordered(self.spec_nodes())
    }
}

fn copy_node(n: &SyntaxNode) -> (r: SyntaxNode)
    ensures
        r@ == n@,
{
    SyntaxNode {
        kind: n.kind.clone(),
        named: n.named,
        field: match &n.field {
            Some(f) => Some(f.clone()),
            None => None,
        },
        start: n.start,
        end: n.end,
    }
}

/// The tree the events describe.
pub fn build_tree(events: &Vec<SyntaxEvent>) -> (r: Option<SyntaxTree>)
    ensures
        match r {
            Some(t) => spec_tree(views_of(events@)) == Some(t.spec_nodes()) && t.well_formed(),
            None => spec_tree(views_of(events@)) is None,
        },
{
    let ghost ev = views_of(events@);
    let mut nodes: Vec<TreeNode> = Vec::new();
    let mut stack: Vec<usize> = Vec::new();
    let mut k: usize = 0;
    assert(ev.take(0) =~= Seq::<EventView>::empty());
    assert(crate::order::views(nodes@) =~= Seq::<TreeNodeView>::empty());
    assert(stack@.map_values(|c: usize| c as int) =~= Seq::<int>::empty());
    while k < events.len()
        invariant
            ev == views_of(events@),
            k <= events@.len(),
            replay(ev.take(k as int)) == Some(
                (crate::order::views(nodes@), stack@.map_values(|c: usize| c as int)),
            ),
            tree_ordered(crate::order::views(nodes@)),
            forall|j: int| 0 <= j < stack@.len() ==> (#[trigger] stack@[j]) < nodes@.len(),
        decreases events@.len() - k,
    {
        proof {
            assert(ev.take(k + 1).drop_last() =~= ev.take(k as int));
            assert(ev.take(k + 1).last() == events@[k as int]@);
        }
        let ghost before_nodes = crate::order::views(nodes@);
        let ghost before_stack = stack@.map_values(|c: usize| c as int);
        match &events[k] {
            SyntaxEvent::Open(n) => {
                if stack.len() == 0 && nodes.len() > 0 {
                    proof {
                        lemma_replay_none(ev, k + 1);
                    }
                    return None;
                }
                let i = nodes.len();
                let ghost raw_before = nodes@;
                if stack.len() > 0 {
                    let p = stack[stack.len() - 1];
                    nodes[p].children.push(i);
                    proof {
                        assert(nodes@.len() == raw_before.len());
                        assert(forall|j: int| 0 <= j < nodes@.len() && j != p ==> nodes@[j] == raw_before[j]);
                        assert(nodes@[p as int].node == raw_before[p as int].node);
                        assert(nodes@[p as int].children@ == raw_before[p as int].children@.push(i));
                        assert(nodes@[p as int]@.children =~= before_nodes[p as int].children.push(i as int));
                        assert(crate::order::views(nodes@) =~= before_nodes.update(
                            p as int,
                            TreeNodeView {
                                node: before_nodes[p as int].node,
                                children: before_nodes[p as int].children.push(i as int),
                            },
                        ));
                    }
                }
                let fresh = TreeNode { node: copy_node(n), children: Vec::new() };
                assert(fresh@.children =~= Seq::<int>::empty());
                nodes.push(fresh);
                stack.push(i);
                proof {
                    assert(stack@.map_values(|c: usize| c as int) =~= before_stack.push(i as int));
                    if before_stack.len() > 0 {
                        let p = before_stack.last();
                        assert(crate::order::views(nodes@) =~= before_nodes.update(
                            p,
                            TreeNodeView {
                                node: before_nodes[p].node,
                                children: before_nodes[p].children.push(i as int),
                            },
                        ).push(TreeNodeView { node: n@, children: Seq::empty() }));
                    } else {
                        assert(crate::order::views(nodes@) =~= before_nodes.push(
                            TreeNodeView { node: n@, children: Seq::empty() },
                        ));
                    }
                    let vs = crate::order::views(nodes@);
                    assert forall|a: int, c: int|
                        0 <= a < vs.len() && 0 <= c < vs[a].children.len() implies a
                        < #[trigger] vs[a].children[c] < vs.len() by {
                        if a < before_nodes.len() && !(before_stack.len() > 0 && a == before_stack.last()) {
                            assert(vs[a] == before_nodes[a]);
                        } else if a < before_nodes.len() {
                            if c < before_nodes[a].children.len() {
                                assert(vs[a].children[c] == before_nodes[a].children[c]);
                            }
                        }
                    }
                }
            },
            SyntaxEvent::Close => {
                if stack.len() == 0 {
                    proof {
                        lemma_replay_none(ev, k + 1);
                    }
                    return None;
                }
                stack.pop();
                proof {
                    assert(stack@.map_values(|c: usize| c as int) =~= before_stack.drop_last());
                }
            },
        }
        k = k + 1;
    }
    assert(ev.take(k as int) =~= ev);
    if stack.len() == 0 && nodes.len() > 0 {
        Some(SyntaxTree { nodes })
    } else {
        None
    }
}

/// Once a prefix of the events is malformed, so are the events.
pub proof fn lemma_replay_none(ev: Seq<EventView>, k: int)
    requires
        0 <= k <= ev.len(),
        replay(ev.take(k)) is None,
    ensures
        replay(ev) is None,
    decreases ev.len() - k,
{
    if k < ev.len() {
        assert(ev.take(k + 1).drop_last() =~= ev.take(k));
        lemma_replay_none(ev, k + 1);
    } else {
        assert(ev.take(k) =~= ev);
    }
}

/// The values of a list of events.
pub open spec fn views_of(events: Seq<SyntaxEvent>) -> Seq<EventView> {
    crate::order::views(events)
}

} // verus!
