//! The parsed document as a tree of nodes, and the walk that replaces its
//! diagrams by rendered markup.
//!
//! The nodes stand in one vector, each with the index of its parent, which
//! stands before it.  A code block whose info string begins with `mermaid`
//! holds a diagram.  Rendering one is the caller's part: the walk stops at
//! each diagram with its source, and goes on when it is handed the markup.

use crate::error::CompileError;
use crate::text::{append, from_chars, matches_at, occurs_at, to_chars};
use vstd::prelude::*;

verus! {

/// What a node of the parsed document holds, as far as the walk reads it.
pub enum NodeValue {
    /// A block of code with its info string and its text.
    CodeBlock { info: String, literal: String },
    /// Markup that is written out as it stands.
    RawMarkup(String),
    /// Any other node.
    Other,
}

/// What a node holds.
pub enum NodeModel {
    /// A block of code with its info string and its text.
    CodeBlock { info: Seq<char>, literal: Seq<char> },
    /// Markup that is written out as it stands.
    RawMarkup(Seq<char>),
    /// Any other node.
    Other,
}

impl View for NodeValue {
    type V = NodeModel;

    open spec fn view(&self) -> NodeModel {
        match self {
            NodeValue::CodeBlock { info, literal } => NodeModel::CodeBlock {
                info: info@,
                literal: literal@,
            },
            NodeValue::RawMarkup(markup) => NodeModel::RawMarkup(markup@),
            NodeValue::Other => NodeModel::Other,
        }
    }
}

/// A tree of nodes: node 0 is the root, and `parents[i]` is the parent of
/// node `i`.
pub struct TreeModel {
    /// What each node holds.
    pub values: Seq<NodeModel>,
    /// The parent of each node; the root is its own.
    pub parents: Seq<int>,
}

impl TreeModel {
    /// There is a root, and every other node has a parent that stands
    /// before it: in the order of the indices a node comes before its
    /// children, and going up from any node ends at the root.
    pub open spec fn well_formed(self) -> bool {
        &&& self.values.len() == self.parents.len()
        &&& self.values.len() > 0
        &&& self.parents[0] == 0
        &&& forall|i: int| 0 < i < self.parents.len() ==> 0 <= #[trigger] self.parents[i] < i
    }
}

/// The info string with which a code block that holds a diagram begins.
pub open spec fn diagram_tag() -> Seq<char> {
    "mermaid"@
}

/// Whether `value` holds a diagram.
pub open spec fn is_diagram(value: NodeModel) -> bool {
    value matches NodeModel::CodeBlock { info, .. } && occurs_at(info, diagram_tag(), 0)
}

/// The source of the diagram that `value` holds.
pub open spec fn diagram_source(value: NodeModel) -> Seq<char> {
    match value {
        NodeModel::CodeBlock { literal, .. } => literal,
        _ => Seq::empty(),
    }
}

/// Rendered markup inside the element that marks it as a diagram.
pub open spec fn wrap(markup: Seq<char>) -> Seq<char> {
    "<figure class='mermaid-graph'>"@ + markup + "</figure>"@
}

/// The index of the first node at or after `from` that holds a diagram, or
/// the number of nodes where there is none.
pub open spec fn next_diagram(values: Seq<NodeModel>, from: int) -> int
    decreases values.len() - from,
{
    if from < 0 || from >= values.len() {
        values.len() as int
    } else if is_diagram(values[from]) {
        from
    } else {
        next_diagram(values, from + 1)
    }
}

/// A walk that waits for the diagram of node `at` to be rendered.
pub struct WalkModel {
    /// The tree as it stands.
    pub tree: TreeModel,
    /// The node whose diagram is to be rendered.
    pub at: int,
}

/// Where a walk stands when it hands control back.
pub enum WalkStep {
    /// A diagram is to be rendered.
    Rendering(WalkModel),
    /// Every node was visited: the tree with its diagrams replaced.
    Finished(TreeModel),
    /// The walk failed.
    Failed(CompileError),
}

/// How the walk over `tree` goes on at node `from`: it stops at the next
/// node that holds a diagram, and is finished where none is left.
pub open spec fn walk_from(tree: TreeModel, from: int) -> WalkStep {
    let k = next_diagram(tree.values, from);
    if k < tree.values.len() {
        WalkStep::Rendering(WalkModel { tree, at: k })
    } else {
        WalkStep::Finished(tree)
    }
}

/// How the walk `w` goes on when it is told what came of rendering: the
/// markup, or `None` where the renderer failed.  The markup, wrapped, takes
/// the place of the code block; no other node and no parent changes.
pub open spec fn after_rendering(w: WalkModel, markup: Option<Seq<char>>) -> WalkStep {
    match markup {
        None => WalkStep::Failed(CompileError::RenderError),
        Some(markup) => walk_from(
            TreeModel {
                values: w.tree.values.update(w.at, NodeModel::RawMarkup(wrap(markup))),
                parents: w.tree.parents,
            },
            w.at + 1,
        ),
    }
}

/// `next_diagram` lies between `from` and the end, no node before it holds
/// a diagram, and it does where it is a node.
pub proof fn lemma_next_diagram(values: Seq<NodeModel>, from: int)
    requires
        0 <= from <= values.len(),
    ensures
        from <= next_diagram(values, from) <= values.len(),
        forall|j: int| from <= j < next_diagram(values, from) ==> !is_diagram(values[j]),
        next_diagram(values, from) < values.len() ==> is_diagram(
            values[next_diagram(values, from)],
        ),
    decreases values.len() - from,
{
    if from < values.len() && !is_diagram(values[from]) {
        lemma_next_diagram(values, from + 1);
    }
}

/// A tree without diagrams is walked at once, with nothing rendered, and
/// comes out as it went in.
pub proof fn lemma_without_diagrams(tree: TreeModel)
    requires
        forall|i: int| 0 <= i < tree.values.len() ==> !is_diagram(#[trigger] tree.values[i]),
    ensures
        walk_from(tree, 0) == WalkStep::Finished(tree),
{
    lemma_next_diagram(tree.values, 0);
}

/// `values` with the wrapped rendering in place of every diagram at or
/// after `from`, where `render` gives the markup for a source.
pub open spec fn with_renderings(
    values: Seq<NodeModel>,
    render: spec_fn(Seq<char>) -> Option<Seq<char>>,
    from: int,
) -> Seq<NodeModel> {
    Seq::new(
        values.len(),
        |i: int|
            if from <= i && is_diagram(values[i]) {
                NodeModel::RawMarkup(wrap(render(diagram_source(values[i]))->0))
            } else {
                values[i]
            },
    )
}

/// `render` gives markup for every diagram of `values` at or after `from`.
pub open spec fn renders_all(
    values: Seq<NodeModel>,
    render: spec_fn(Seq<char>) -> Option<Seq<char>>,
    from: int,
) -> bool {
    forall|i: int|
        from <= i < values.len() && is_diagram(#[trigger] values[i]) ==> render(
            diagram_source(values[i]),
        ) is Some
}

/// What the walk over `tree` from node `from` on comes to, where `render`
/// gives the markup for a source, or `None` where the renderer fails on it:
/// the tree with the wrapped rendering in place of every diagram, and every
/// other node and every parent as before; or a failure, where the renderer
/// fails on a diagram.
pub open spec fn walked(
    tree: TreeModel,
    render: spec_fn(Seq<char>) -> Option<Seq<char>>,
    from: int,
) -> WalkStep {
    if renders_all(tree.values, render, from) {
        WalkStep::Finished(
            TreeModel {
                values: with_renderings(tree.values, render, from),
                parents: tree.parents,
            },
        )
    } else {
        WalkStep::Failed(CompileError::RenderError)
    }
}

/// Where `step` has come after at most `fuel` diagrams were rendered by
/// `render` as the walk asked for them.
pub open spec fn drive(
    render: spec_fn(Seq<char>) -> Option<Seq<char>>,
    step: WalkStep,
    fuel: nat,
) -> WalkStep
    decreases fuel,
{
    match step {
        WalkStep::Rendering(w) => if fuel == 0 {
            step
        } else {
            drive(
                render,
                after_rendering(w, render(diagram_source(w.tree.values[w.at]))),
                (fuel - 1) as nat,
            )
        },
        _ => step,
    }
}

/// A walk that goes on at node `from` and whose diagrams are rendered by
/// `render` comes to what the walk from `from` on is stated to come to,
/// unless it still waits for a rendering after `fuel` of them; it does not
/// where `fuel` is the number of nodes that are left.
pub proof fn lemma_walk_from(
    tree: TreeModel,
    render: spec_fn(Seq<char>) -> Option<Seq<char>>,
    from: int,
    fuel: nat,
)
    requires
        0 <= from <= tree.values.len(),
    ensures
        drive(render, walk_from(tree, from), fuel) is Rendering || drive(
            render,
            walk_from(tree, from),
            fuel,
        ) == walked(tree, render, from),
        fuel >= tree.values.len() - from ==> !(drive(render, walk_from(tree, from), fuel)
            is Rendering),
    decreases fuel,
{
    lemma_next_diagram(tree.values, from);
    let k = next_diagram(tree.values, from);
    let step = walk_from(tree, from);
    if k < tree.values.len() {
        let w = WalkModel { tree, at: k };
        if fuel > 0 {
            let markup = render(diagram_source(tree.values[k]));
            let answered = after_rendering(w, markup);
            assert(drive(render, step, fuel) == drive(render, answered, (fuel - 1) as nat));
            match markup {
                None => {
                    assert(drive(render, answered, (fuel - 1) as nat) == answered);
                    assert(is_diagram(tree.values[k]));
                },
                Some(markup) => {
                    let next = TreeModel {
                        values: tree.values.update(k, NodeModel::RawMarkup(wrap(markup))),
                        parents: tree.parents,
                    };
                    lemma_walk_from(next, render, k + 1, (fuel - 1) as nat);
                    assert(renders_all(next.values, render, k + 1) == renders_all(
                        tree.values,
                        render,
                        from,
                    )) by {
                        if renders_all(next.values, render, k + 1) {
                            assert forall|i: int|
                                from <= i < tree.values.len() && is_diagram(
                                    #[trigger] tree.values[i],
                                ) implies render(diagram_source(tree.values[i])) is Some by {
                                if i > k {
                                    assert(next.values[i] == tree.values[i]);
                                }
                            }
                        }
                        if renders_all(tree.values, render, from) {
                            assert forall|i: int|
                                k + 1 <= i < next.values.len() && is_diagram(
                                    #[trigger] next.values[i],
                                ) implies render(diagram_source(next.values[i])) is Some by {
                                assert(next.values[i] == tree.values[i]);
                            }
                        }
                    }
                    assert(with_renderings(next.values, render, k + 1) =~= with_renderings(
                        tree.values,
                        render,
                        from,
                    ));
                },
            }
        }
    } else {
        assert(drive(render, step, fuel) == step);
        assert(tree.values =~= with_renderings(tree.values, render, from));
    }
}

/// A walk whose diagrams are rendered by `render` ends with the wrapped
/// rendering of its source in place of every diagram, and with every other
/// node and every parent as before; it fails where the renderer fails on a
/// diagram.  It asks for no more renderings than the tree has nodes.
pub proof fn lemma_walk(tree: TreeModel, render: spec_fn(Seq<char>) -> Option<Seq<char>>)
    ensures
        drive(render, walk_from(tree, 0), tree.values.len()) == walked(tree, render, 0),
{
    lemma_walk_from(tree, render, 0, tree.values.len());
}

/// A node of the tree.
struct Node {
    value: NodeValue,
    parent: usize,
}

/// The parsed document: a tree of nodes.
pub struct NodeTree {
    nodes: Vec<Node>,
}

impl View for NodeTree {
    type V = TreeModel;

    closed spec fn view(&self) -> TreeModel {
        TreeModel {
            values: Seq::new(self.nodes.len() as nat, |i: int| self.nodes[i].value@),
            parents: Seq::new(self.nodes.len() as nat, |i: int| self.nodes[i].parent as int),
        }
    }
}

impl NodeTree {
    #[verifier::type_invariant]
    spec fn well_formed(self) -> bool {
        &&& self.nodes.len() > 0
        &&& self.nodes[0].parent == 0
        &&& forall|i: int| 0 < i < self.nodes.len() ==> (#[trigger] self.nodes[i]).parent < i
    }

    /// The tree that has `root` as its only node.
    pub fn new(root: NodeValue) -> (tree: NodeTree)
        ensures
            tree@.values == seq![root@],
            tree@.parents == seq![0int],
            tree@.well_formed(),
    {
        let mut nodes: Vec<Node> = Vec::new();
        nodes.push(Node { value: root, parent: 0 });
        let tree = NodeTree { nodes };
        proof {
            assert(tree@.values =~= seq![root@]);
            assert(tree@.parents =~= seq![0int]);
        }
        tree
    }

    /// The number of nodes.  Every tree is well formed.
    pub fn len(&self) -> (n: usize)
        ensures
            n == self@.values.len(),
            n > 0,
            self@.well_formed(),
    {
        proof {
            use_type_invariant(self);
        }
        self.nodes.len()
    }

    /// What node `i` holds; `None` where there is no such node.
    pub fn value(&self, i: usize) -> (r: Option<&NodeValue>)
        ensures
            match r {
                Some(value) => i < self@.values.len() && value@ == self@.values[i as int],
                None => i >= self@.values.len(),
            },
    {
        if i < self.nodes.len() {
            Some(&self.nodes[i].value)
        } else {
            None
        }
    }

    /// The parent of node `i`; `None` for the root and where there is no
    /// such node.
    pub fn parent(&self, i: usize) -> (r: Option<usize>)
        ensures
            match r {
                Some(p) => 0 < i < self@.parents.len() && p == self@.parents[i as int] && p < i,
                None => i == 0 || i >= self@.parents.len(),
            },
    {
        proof {
            use_type_invariant(self);
        }
        if 0 < i && i < self.nodes.len() {
            Some(self.nodes[i].parent)
        } else {
            None
        }
    }

    /// Adds a node that holds `value` as the last child of node `parent`,
    /// and gives its index; adds nothing and gives `None` where there is no
    /// node `parent`.
    pub fn add_child(self, parent: usize, value: NodeValue) -> (r: (NodeTree, Option<usize>))
        ensures
            r.0@.well_formed(),
            parent < self@.values.len() ==> r.1 == Some(self@.values.len() as usize)
                && r.0@.values == self@.values.push(value@) && r.0@.parents
                == self@.parents.push(parent as int),
            parent >= self@.values.len() ==> r.1 is None && r.0@ == self@,
    {
        proof {
            use_type_invariant(&self);
        }
        let ghost before = self@;
        let NodeTree { mut nodes } = self;
        if parent < nodes.len() {
            let index = nodes.len();
            nodes.push(Node { value, parent });
            let tree = NodeTree { nodes };
            proof {
                assert(tree@.values =~= before.values.push(value@));
                assert(tree@.parents =~= before.parents.push(parent as int));
            }
            (tree, Some(index))
        } else {
            let tree = NodeTree { nodes };
            proof {
                assert(tree@.values =~= before.values);
                assert(tree@.parents =~= before.parents);
            }
            (tree, None)
        }
    }
}

/// A walk that waits for a diagram to be rendered.
pub struct DiagramWalk {
    tree: NodeTree,
    at: usize,
}

impl View for DiagramWalk {
    type V = WalkModel;

    closed spec fn view(&self) -> WalkModel {
        WalkModel { tree: self.tree@, at: self.at as int }
    }
}

/// Where a walk stands when it hands control back.
pub enum WalkProgress {
    /// A diagram is to be rendered: `DiagramWalk::source` gives its source,
    /// and `DiagramWalk::supply` takes the markup.
    Rendering(DiagramWalk),
    /// Every node was visited: the tree with its diagrams replaced.
    Finished(NodeTree),
    /// The walk failed.
    Failed(CompileError),
}

impl View for WalkProgress {
    type V = WalkStep;

    open spec fn view(&self) -> WalkStep {
        match self {
            WalkProgress::Rendering(w) => WalkStep::Rendering(w@),
            WalkProgress::Finished(tree) => WalkStep::Finished(tree@),
            WalkProgress::Failed(e) => WalkStep::Failed(*e),
        }
    }
}

/// Whether `value` holds a diagram.
pub fn holds_diagram(value: &NodeValue) -> (b: bool)
    ensures
        b == is_diagram(value@),
{
    match value {
        NodeValue::CodeBlock { info, .. } => matches_at(
            &to_chars(info.as_str()),
            &to_chars("mermaid"),
            0,
        ),
        _ => false,
    }
}

/// Goes on with the walk over `tree` at node `from`.
fn walk(tree: NodeTree, from: usize) -> (r: WalkProgress)
    ensures
        r@ == walk_from(tree@, from as int),
{
    let mut i: usize = from;
    while i < tree.nodes.len() && !holds_diagram(&tree.nodes[i].value)
        invariant
            from <= i,
            next_diagram(tree@.values, from as int) == next_diagram(tree@.values, i as int),
        decreases tree.nodes.len() - i,
    {
        i += 1;
    }
    if i < tree.nodes.len() {
        WalkProgress::Rendering(DiagramWalk { tree, at: i })
    } else {
        WalkProgress::Finished(tree)
    }
}

/// Begins the walk over `tree`: it visits the nodes in the order of their
/// indices, each node before its children, up to the first diagram.
pub fn substitute_diagrams(tree: NodeTree) -> (r: WalkProgress)
    ensures
        r@ == walk_from(tree@, 0),
{
    walk(tree, 0)
}

impl DiagramWalk {
    #[verifier::type_invariant]
    spec fn well_formed(self) -> bool {
        self.at < self.tree.nodes.len()
    }

    /// The source of the diagram that is to be rendered.
    pub fn source(&self) -> (s: &str)
        ensures
            s@ == diagram_source(self@.tree.values[self@.at]),
    {
        proof {
            use_type_invariant(self);
            reveal_strlit("");
        }
        match &self.tree.nodes[self.at].value {
            NodeValue::CodeBlock { literal, .. } => literal.as_str(),
            _ => {
                assert(""@ =~= Seq::<char>::empty());
                ""
            },
        }
    }

    /// Goes on with what came of rendering the diagram: its markup, or
    /// `None` where the renderer failed.
    pub fn supply(self, markup: Option<&str>) -> (r: WalkProgress)
        ensures
            r@ == after_rendering(
                self@,
                match markup {
                    Some(markup) => Some(markup@),
                    None => None,
                },
            ),
    {
        proof {
            use_type_invariant(&self);
            use_type_invariant(&self.tree);
        }
        let markup = match markup {
            Some(markup) => markup,
            None => { return WalkProgress::Failed(CompileError::RenderError); },
        };
        let ghost before = self@;
        let DiagramWalk { tree, at } = self;
        let NodeTree { mut nodes } = tree;
        let mut wrapped = to_chars("<figure class='mermaid-graph'>");
        append(&mut wrapped, &to_chars(markup));
        append(&mut wrapped, &to_chars("</figure>"));
        let parent = nodes[at].parent;
        nodes.set(at, Node { value: NodeValue::RawMarkup(from_chars(&wrapped)), parent });
        let tree = NodeTree { nodes };
        proof {
            assert(tree@.values =~= before.tree.values.update(
                before.at,
                NodeModel::RawMarkup(wrap(markup@)),
            ));
            assert(tree@.parents =~= before.tree.parents);
        }
        walk(tree, at + 1)
    }
}

} // verus!
