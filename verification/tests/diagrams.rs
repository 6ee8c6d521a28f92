use thener::diagrams::{holds_diagram, substitute_diagrams, NodeTree, NodeValue, WalkProgress};
use thener::error::CompileError;

fn code(info: &str, literal: &str) -> NodeValue {
    NodeValue::CodeBlock { info: info.to_string(), literal: literal.to_string() }
}

fn tree_of(values: Vec<(usize, NodeValue)>) -> NodeTree {
    let mut tree = NodeTree::new(NodeValue::Other);
    for (parent, value) in values {
        let (grown, index) = tree.add_child(parent, value);
        assert!(index.is_some());
        tree = grown;
    }
    tree
}

fn describe(tree: &NodeTree) -> Vec<String> {
    (0..tree.len())
        .map(|i| {
            let value = match tree.value(i).unwrap() {
                NodeValue::CodeBlock { info, literal } => format!("code[{}]({})", info, literal),
                NodeValue::RawMarkup(markup) => format!("raw({})", markup),
                NodeValue::Other => "other".to_string(),
            };
            format!("{:?} {}", tree.parent(i), value)
        })
        .collect()
}

/// Walks `tree` with a renderer that gives `<svg>` + source + `</svg>`, and
/// fails on the source `bad`; notes the sources in the order they came.
fn walk(tree: NodeTree) -> (Result<NodeTree, CompileError>, Vec<String>) {
    let mut sources = Vec::new();
    let mut progress = substitute_diagrams(tree);
    loop {
        match progress {
            WalkProgress::Finished(tree) => return (Ok(tree), sources),
            WalkProgress::Failed(error) => return (Err(error), sources),
            WalkProgress::Rendering(walk) => {
                let source = walk.source().to_string();
                sources.push(source.clone());
                progress = if source == "bad" {
                    walk.supply(None)
                } else {
                    walk.supply(Some(&format!("<svg>{}</svg>", source)))
                };
            },
        }
    }
}

#[test]
fn a_tree_is_built_node_by_node() {
    let tree = NodeTree::new(NodeValue::Other);
    assert_eq!(tree.len(), 1);
    assert_eq!(tree.parent(0), None);
    let (tree, first) = tree.add_child(0, code("rust", "fn main() {}"));
    assert_eq!(first, Some(1));
    let (tree, second) = tree.add_child(1, NodeValue::RawMarkup("<b>".to_string()));
    assert_eq!(second, Some(2));
    let (tree, third) = tree.add_child(0, NodeValue::Other);
    assert_eq!(third, Some(3));
    assert_eq!(tree.len(), 4);
    assert_eq!(
        describe(&tree),
        vec!["None other", "Some(0) code[rust](fn main() {})", "Some(1) raw(<b>)", "Some(0) other"]
    );
    assert!(tree.value(4).is_none());
    assert_eq!(tree.parent(4), None);
}

#[test]
fn a_child_of_a_node_that_is_not_there_is_not_added() {
    let tree = NodeTree::new(NodeValue::Other);
    let (tree, index) = tree.add_child(1, NodeValue::Other);
    assert_eq!(index, None);
    assert_eq!(tree.len(), 1);
    let (tree, index) = tree.add_child(usize::MAX, NodeValue::Other);
    assert_eq!(index, None);
    assert_eq!(describe(&tree), vec!["None other"]);
}

#[test]
fn a_code_block_whose_info_begins_with_mermaid_holds_a_diagram() {
    assert!(holds_diagram(&code("mermaid", "")));
    assert!(holds_diagram(&code("mermaid {theme: dark}", "graph")));
    assert!(holds_diagram(&code("mermaidjs", "graph")));
    assert!(!holds_diagram(&code("", "graph")));
    assert!(!holds_diagram(&code("merma", "graph")));
    assert!(!holds_diagram(&code(" mermaid", "graph")));
    assert!(!holds_diagram(&code("Mermaid", "graph")));
    assert!(!holds_diagram(&code("rust", "mermaid")));
    assert!(!holds_diagram(&NodeValue::RawMarkup("mermaid".to_string())));
    assert!(!holds_diagram(&NodeValue::Other));
}

#[test]
fn a_tree_without_diagrams_comes_out_as_it_went_in() {
    let values = || {
        vec![
            (0, NodeValue::Other),
            (1, code("rust", "let x = 1;")),
            (0, code("", "plain")),
            (0, NodeValue::RawMarkup("<i>x</i>".to_string())),
        ]
    };
    let before = describe(&tree_of(values()));
    match substitute_diagrams(tree_of(values())) {
        WalkProgress::Finished(tree) => assert_eq!(describe(&tree), before),
        _ => panic!("the walk asked for a rendering, or failed"),
    }
}

#[test]
fn a_diagram_is_replaced_by_its_wrapped_rendering() {
    let tree = tree_of(vec![(0, NodeValue::Other), (0, code("mermaid", "graph TD; A-->B")), (0, NodeValue::Other)]);
    let (walked, sources) = walk(tree);
    assert_eq!(sources, vec!["graph TD; A-->B"]);
    assert_eq!(
        describe(&walked.unwrap()),
        vec![
            "None other",
            "Some(0) other",
            "Some(0) raw(<figure class='mermaid-graph'><svg>graph TD; A-->B</svg></figure>)",
            "Some(0) other",
        ]
    );
}

#[test]
fn every_diagram_is_rendered_once_in_the_order_of_the_nodes() {
    let tree = tree_of(vec![
        (0, code("mermaid", "one")),
        (0, NodeValue::Other),
        (2, code("mermaid", "two")),
        (2, code("python", "not a diagram")),
        (0, code("mermaid", "three")),
    ]);
    let (walked, sources) = walk(tree);
    assert_eq!(sources, vec!["one", "two", "three"]);
    assert_eq!(
        describe(&walked.unwrap()),
        vec![
            "None other",
            "Some(0) raw(<figure class='mermaid-graph'><svg>one</svg></figure>)",
            "Some(0) other",
            "Some(2) raw(<figure class='mermaid-graph'><svg>two</svg></figure>)",
            "Some(2) code[python](not a diagram)",
            "Some(0) raw(<figure class='mermaid-graph'><svg>three</svg></figure>)",
        ]
    );
}

#[test]
fn a_rendering_that_looks_like_a_diagram_is_not_rendered_again() {
    let tree = tree_of(vec![(0, code("mermaid", "x"))]);
    let walk = match substitute_diagrams(tree) {
        WalkProgress::Rendering(walk) => walk,
        _ => panic!("no rendering was asked for"),
    };
    match walk.supply(Some("```mermaid\nx\n```")) {
        WalkProgress::Finished(tree) => assert_eq!(
            describe(&tree)[1],
            "Some(0) raw(<figure class='mermaid-graph'>```mermaid\nx\n```</figure>)"
        ),
        _ => panic!("the walk did not finish"),
    }
}

#[test]
fn a_renderer_that_fails_ends_the_walk() {
    let tree = tree_of(vec![
        (0, code("mermaid", "good")),
        (0, code("mermaid", "bad")),
        (0, code("mermaid", "never reached")),
    ]);
    let (walked, sources) = walk(tree);
    assert_eq!(walked.err(), Some(CompileError::RenderError));
    assert_eq!(sources, vec!["good", "bad"]);
}

#[test]
fn a_root_that_is_a_diagram_is_rendered() {
    let (walked, sources) = walk(NodeTree::new(code("mermaid", "root")));
    assert_eq!(sources, vec!["root"]);
    assert_eq!(
        describe(&walked.unwrap()),
        vec!["None raw(<figure class='mermaid-graph'><svg>root</svg></figure>)"]
    );
}
