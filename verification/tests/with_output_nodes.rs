use literate_docs::document::MdNode;
use literate_docs::output_node::{is_output_node, OutputInfo};
use literate_docs::parse_markdown::parse_markdown;
use literate_docs::with_output_nodes::with_output_nodes;

fn children(info: &OutputInfo) -> &Vec<MdNode> {
    match &info.ast {
        MdNode::Element { children, .. } => children,
        _ => panic!("a document is a root element"),
    }
}

#[test]
fn test_adds_placeholder_after_executable() {
    let input = "```sh exec\necho hello\n```";
    let ast = parse_markdown(input);
    let info = with_output_nodes(&ast);
    assert_eq!(children(&info).len(), 2);
    assert!(is_output_node(&children(&info)[1]));
    assert!(info.orphans.is_empty());
}

#[test]
fn test_marks_orphan_output_node() {
    let input = "```output\nstale\n```";
    let ast = parse_markdown(input);
    let info = with_output_nodes(&ast);
    assert_eq!(children(&info).len(), 1);
    assert_eq!(info.orphans.len(), 1);
}

#[test]
fn test_keeps_valid_output_between_executables() {
    let input = "```sh exec\necho one\n```\n\n```output\none\n```\n\n```sh exec\necho two\n```";
    let ast = parse_markdown(input);
    let info = with_output_nodes(&ast);
    let children = children(&info);
    assert_eq!(children.len(), 4);
    assert!(is_output_node(&children[1]));
    assert!(info.orphans.is_empty());
}

#[test]
fn with_output_nodes_test_output_separated_by_text() {
    let input = "```sh exec\necho hello\n```\n\nSome text here.\n\n```output\nhello\n```";
    let ast = parse_markdown(input);
    let info = with_output_nodes(&ast);
    let children = children(&info);
    assert_eq!(children.len(), 3);
    assert!(is_output_node(&children[2]));
    assert!(info.orphans.is_empty());
}

#[test]
fn with_output_nodes_test_output_separated_by_heading() {
    let input = "```sh exec\necho hello\n```\n\n## Results\n\n```output\nhello\n```";
    let ast = parse_markdown(input);
    let info = with_output_nodes(&ast);
    let children = children(&info);
    assert_eq!(children.len(), 3);
    assert!(is_output_node(&children[2]));
    assert!(info.orphans.is_empty());
}

#[test]
fn test_output_separated_by_multiple_nodes() {
    let input = "```sh exec\necho hello\n```\n\nText\n\n## Heading\n\nMore text\n\n```output\nhello\n```";
    let ast = parse_markdown(input);
    let info = with_output_nodes(&ast);
    let children = children(&info);
    assert_eq!(children.len(), 5);
    assert!(is_output_node(&children[4]));
    assert!(info.orphans.is_empty());
}

#[test]
fn test_orphan_output_after_text_marked() {
    let input = "Some text\n\n```output\norphan\n```";
    let ast = parse_markdown(input);
    let info = with_output_nodes(&ast);
    let children = children(&info);
    assert_eq!(children.len(), 2);
    assert_eq!(info.orphans.len(), 1);
}

#[test]
fn test_placeholder_added_when_no_output_in_sight() {
    let input = "```sh exec\necho hello\n```\n\nSome text after.";
    let ast = parse_markdown(input);
    let info = with_output_nodes(&ast);
    let children = children(&info);
    assert_eq!(children.len(), 3);
    assert!(is_output_node(&children[1]));
    assert!(info.orphans.is_empty());
}

#[test]
fn placeholder_is_empty_output_block() {
    let ast = parse_markdown("```sh exec\necho hello\n```");
    let info = with_output_nodes(&ast);
    match &children(&info)[1] {
        MdNode::Code { lang, value, .. } => {
            assert_eq!(lang.as_deref(), Some("output"));
            assert_eq!(value, "");
        }
        _ => panic!("the placeholder is a code block"),
    }
}

#[test]
fn each_executable_gets_its_own_output() {
    let input = "```sh exec\necho one\n```\n\n```sh exec\necho two\n```";
    let ast = parse_markdown(input);
    let info = with_output_nodes(&ast);
    let children = children(&info);
    assert_eq!(children.len(), 4);
    assert!(is_output_node(&children[1]));
    assert!(is_output_node(&children[3]));
    assert!(info.orphans.is_empty());
}
