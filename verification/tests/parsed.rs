use thener::diagrams::{substitute_diagrams, NodeTree, NodeValue, WalkProgress};

fn value_of(node: comrak::Node<'_>) -> NodeValue {
    match &node.data().value {
        comrak::nodes::NodeValue::CodeBlock(block) => {
            NodeValue::CodeBlock { info: block.info.clone(), literal: block.literal.clone() }
        },
        _ => NodeValue::Other,
    }
}

fn add_children<'a>(
    node: comrak::Node<'a>,
    index: usize,
    mut tree: NodeTree,
    order: &mut Vec<comrak::Node<'a>>,
) -> NodeTree {
    for child in node.children() {
        let (grown, at) = tree.add_child(index, value_of(child));
        order.push(child);
        tree = add_children(child, at.unwrap(), grown, order);
    }
    tree
}

/// Parses `md`, walks its tree with a renderer that gives `<svg/>`, writes
/// the renderings back, and gives the markup together with the number of
/// diagrams that were rendered.
fn html_after_the_walk(md: &str) -> (String, usize) {
    let arena = comrak::Arena::new();
    let options = comrak::Options::default();
    let root = comrak::parse_document(&arena, md, &options);
    let mut order = vec![root];
    let tree = add_children(root, 0, NodeTree::new(value_of(root)), &mut order);
    assert_eq!(tree.len(), order.len());
    let mut rendered = 0;
    let mut progress = substitute_diagrams(tree);
    let tree = loop {
        match progress {
            WalkProgress::Finished(tree) => break tree,
            WalkProgress::Failed(_) => panic!("the walk failed"),
            WalkProgress::Rendering(walk) => {
                rendered += 1;
                progress = walk.supply(Some("<svg/>"));
            },
        }
    };
    for (i, node) in order.iter().enumerate() {
        if let Some(NodeValue::RawMarkup(markup)) = tree.value(i) {
            node.data_mut().value = comrak::nodes::NodeValue::Raw(markup.clone());
        }
    }
    let mut html = String::new();
    comrak::format_html(root, &options, &mut html).unwrap();
    (html, rendered)
}

#[test]
fn a_document_without_diagrams_is_written_as_if_it_was_not_walked() {
    let md = "# Title\n\nSome *text* with `code`.\n\n```rust\nfn main() {}\n```\n\n```\nplain\n```\n\n- a\n- b\n\n    indented code\n\n<span id='x'></span> raw\n";
    let (html, rendered) = html_after_the_walk(md);
    assert_eq!(rendered, 0);
    assert_eq!(html, comrak::markdown_to_html(md, &comrak::Options::default()));
}

#[test]
fn the_diagrams_of_a_parsed_document_are_found() {
    let md = "intro\n\n```mermaid\ngraph TD;\n```\n\n> quoted\n>\n> ```mermaid title\n> pie\n> ```\n\n```rust\nlet x = 1;\n```\n";
    let (html, rendered) = html_after_the_walk(md);
    assert_eq!(rendered, 2);
    assert_eq!(
        html,
        "<p>intro</p>\n<figure class='mermaid-graph'><svg/></figure>\n<blockquote>\n<p>quoted</p>\n<figure class='mermaid-graph'><svg/></figure>\n</blockquote>\n<pre><code class=\"language-rust\">let x = 1;\n</code></pre>\n"
    );
}
