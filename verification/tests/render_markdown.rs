use literate_docs::document::{MdNode, NodeInfo};
use literate_docs::parse_markdown::parse_markdown;
use literate_docs::render_markdown::{ends_with_newline, finish_rendering, render_markdown};

fn render_unchanged(input: &str) -> String {
    render_markdown(input, parse_markdown(input)).expect("the document can be written")
}

#[test]
fn test_render_unmodified() {
    let input = "# Hello World\n\nSome text here.";
    let output = render_unchanged(input);
    assert_eq!(output, input);
}

#[test]
fn test_render_preserves_trailing_newline() {
    let input = "Hello\n";
    let output = render_unchanged(input);
    assert_eq!(output, input);
}

#[test]
fn test_render_strips_trailing_newline() {
    let input = "Hello";
    let output = render_unchanged(input);
    assert_eq!(output, input);
}

#[test]
fn finish_rendering_strips_every_trailing_newline() {
    assert_eq!(finish_rendering("a\n\n\n".to_string(), false), "a");
    assert_eq!(finish_rendering("a\n\n".to_string(), true), "a\n\n");
    assert_eq!(finish_rendering("\n".to_string(), false), "");
}

#[test]
fn ends_with_newline_cases() {
    assert!(ends_with_newline("x\n"));
    assert!(!ends_with_newline("x"));
    assert!(!ends_with_newline(""));
}

#[test]
fn render_keeps_code_and_html() {
    let input = "```sh exec\necho hi\n```\n\n<!-- note -->";
    assert_eq!(render_unchanged(input), input);
}

#[test]
fn unordered_list_starting_with_a_code_block_is_not_written() {
    let list = markdown::mdast::Node::List(markdown::mdast::List {
        children: vec![],
        position: None,
        ordered: false,
        start: None,
        spread: false,
    });
    let node = MdNode::Element {
        info: NodeInfo::List { ordered: false },
        source: list,
        children: vec![MdNode::Code { lang: Some("sh".to_string()), meta: None, value: "echo".to_string() }],
    };
    assert_eq!(render_markdown("x", node), None);
}

#[test]
fn read_lists_are_written_back() {
    let input = "- a\n- b";
    assert_eq!(render_unchanged(input), "* a\n* b");
}

#[test]
fn text_escaped_after_non_ascii_text_is_not_written() {
    let input = "é*éé *";
    assert_eq!(render_markdown(input, parse_markdown(input)), None);
}

#[test]
fn non_ascii_text_without_escapes_is_written_back() {
    let input = "Voilà, café au lait.";
    assert_eq!(render_unchanged(input), input);
}
