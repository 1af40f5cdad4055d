use literate_docs::document::MdNode;
use literate_docs::parse_markdown::{from_mdast, parse_markdown};
use literate_docs::tui::output_box::OutputState;
use literate_docs::tui::render::{build_render_nodes, extract_spans, Color, RenderNode, Style, StyledSpan, TextKind};
use literate_docs::tui::TuiApp;

fn app_for(input: &str) -> TuiApp {
    TuiApp::new(input, None).expect("the document can be shown")
}

fn build_nodes(ast: &MdNode) -> Vec<RenderNode> {
    build_render_nodes(ast, &Vec::new())
}

fn spans_to_text(spans: &[StyledSpan]) -> String {
    spans.iter().map(|s| s.content.as_str()).collect()
}

fn first_paragraph_children(root: MdNode) -> Vec<MdNode> {
    if let MdNode::Element { children, .. } = root {
        if let Some(MdNode::Element { children: inner, .. }) = children.into_iter().next() {
            return inner;
        }
    }
    panic!("Expected paragraph in root");
}

fn extract_paragraph_children(input: &str) -> Vec<MdNode> {
    first_paragraph_children(parse_markdown(input))
}

// Parsing

#[test]
fn test_parses_executable_blocks() {
    let input = "```sh exec\necho hi\n```\n\n```python exec\nprint(1)\n```";
    let app = app_for(input);
    let exec_codes: Vec<_> = app.nodes.iter().filter(|n| matches!(n, RenderNode::ExecutableCode { .. })).collect();
    assert_eq!(exec_codes.len(), 2);
}

#[test]
fn test_parses_output_blocks() {
    let input = "```sh exec\necho hi\n```";
    let app = app_for(input);
    let output_blocks: Vec<_> = app.nodes.iter().filter(|n| matches!(n, RenderNode::OutputBlock { .. })).collect();
    assert_eq!(output_blocks.len(), 1);
}

#[test]
fn test_parses_non_executable_as_code_block() {
    let input = "```mermaid\ngraph TD; A-->B;\n```";
    let app = app_for(input);
    assert_eq!(app.nodes.len(), 1);
    assert!(matches!(&app.nodes[0], RenderNode::CodeBlock { lang, .. } if lang == "mermaid"));
}

#[test]
fn test_parses_headings() {
    let input = "# Title\n\n## Subtitle\n\nSome text";
    let app = app_for(input);
    let headings: Vec<_> = app
        .nodes
        .iter()
        .filter(|n| matches!(n, RenderNode::Text { kind: TextKind::Heading(_), .. }))
        .collect();
    assert_eq!(headings.len(), 2);
}

#[test]
fn test_parses_paragraphs() {
    let input = "First paragraph.\n\nSecond paragraph.";
    let app = app_for(input);
    let paragraphs: Vec<_> = app
        .nodes
        .iter()
        .filter(|n| matches!(n, RenderNode::Text { kind: TextKind::Paragraph, .. }))
        .collect();
    assert_eq!(paragraphs.len(), 2);
}

#[test]
fn test_mixed_content_parses_correctly() {
    let input = "# Title\n\nSome text.\n\n```sh exec\necho hi\n```\n\nMore text.";
    let app = app_for(input);
    assert_eq!(app.nodes.len(), 5);
    assert!(matches!(&app.nodes[0], RenderNode::Text { kind: TextKind::Heading(1), .. }));
    assert!(matches!(&app.nodes[1], RenderNode::Text { kind: TextKind::Paragraph, .. }));
    assert!(matches!(&app.nodes[2], RenderNode::ExecutableCode { .. }));
    assert!(matches!(&app.nodes[3], RenderNode::OutputBlock { .. }));
    assert!(matches!(&app.nodes[4], RenderNode::Text { kind: TextKind::Paragraph, .. }));
}

#[test]
fn test_output_blocks_start_as_pending() {
    let input = "```sh exec\necho hi\n```";
    let app = app_for(input);
    let output_block = app
        .nodes
        .iter()
        .find(|n| matches!(n, RenderNode::OutputBlock { .. }))
        .expect("Expected OutputBlock");
    if let RenderNode::OutputBlock { state, .. } = output_block {
        assert!(matches!(state, OutputState::Pending));
    }
}

#[test]
fn test_text_between_code_and_output() {
    let input = "```sh exec\necho hello\n```\n\nSome text here.\n\n```output\nhello\n```";
    let app = app_for(input);
    assert_eq!(app.nodes.len(), 3);
    assert!(matches!(&app.nodes[0], RenderNode::ExecutableCode { .. }));
    assert!(matches!(&app.nodes[1], RenderNode::Text { kind: TextKind::Paragraph, .. }));
    assert!(matches!(&app.nodes[2], RenderNode::OutputBlock { .. }));
}

#[test]
fn test_code_and_output_linked_by_index() {
    let input = "```sh exec\necho hi\n```";
    let app = app_for(input);
    let exec_code = app
        .nodes
        .iter()
        .find_map(|n| if let RenderNode::ExecutableCode { index, .. } = n { Some(*index) } else { None })
        .expect("Expected ExecutableCode");
    let output_block = app
        .nodes
        .iter()
        .find_map(|n| if let RenderNode::OutputBlock { code_index, .. } = n { Some(*code_index) } else { None })
        .expect("Expected OutputBlock");
    assert_eq!(exec_code, output_block);
}

// Inline spans

#[test]
fn test_extract_plain_text() {
    let children = extract_paragraph_children("Hello world");
    let spans = extract_spans(&children, Style::new());
    assert_eq!(spans_to_text(&spans), "Hello world");
}

#[test]
fn test_extract_bold() {
    let children = extract_paragraph_children("**bold text**");
    let spans = extract_spans(&children, Style::new());
    assert_eq!(spans_to_text(&spans), "bold text");
    assert!(spans[0].style.bold);
}

#[test]
fn test_extract_italic() {
    let children = extract_paragraph_children("*italic text*");
    let spans = extract_spans(&children, Style::new());
    assert_eq!(spans_to_text(&spans), "italic text");
    assert!(spans[0].style.italic);
}

#[test]
fn test_extract_inline_code() {
    let children = extract_paragraph_children("use `foo` here");
    let spans = extract_spans(&children, Style::new());
    assert_eq!(spans_to_text(&spans), "use `foo` here");
    assert_eq!(spans[1].style.fg, Some(Color::Green));
}

#[test]
fn test_extract_strikethrough() {
    let mut opts = markdown::ParseOptions::default();
    opts.constructs.gfm_strikethrough = true;
    let ast = markdown::to_mdast("~~deleted~~", &opts).unwrap();
    let children = first_paragraph_children(from_mdast(ast, 64));
    let spans = extract_spans(&children, Style::new());
    assert_eq!(spans_to_text(&spans), "deleted");
    assert!(spans[0].style.crossed_out);
}

#[test]
fn test_extract_link() {
    let children = extract_paragraph_children("[click here](https://example.com)");
    let spans = extract_spans(&children, Style::new());
    assert_eq!(spans_to_text(&spans), "click here");
    assert!(spans[0].style.underlined);
}

#[test]
fn test_extract_nested_bold_italic() {
    let children = extract_paragraph_children("**_bold italic_**");
    let spans = extract_spans(&children, Style::new());
    assert_eq!(spans_to_text(&spans), "bold italic");
    assert!(spans[0].style.bold);
    assert!(spans[0].style.italic);
}

#[test]
fn test_extract_mixed_inline() {
    let children = extract_paragraph_children("Use **`bold code`** and *italic* here");
    let spans = extract_spans(&children, Style::new());
    let text = spans_to_text(&spans);
    assert!(text.contains("bold code"));
    assert!(text.contains("italic"));
    let bold_code_span = spans.iter().find(|s| s.content.contains("bold code")).unwrap();
    assert!(bold_code_span.style.bold);
    assert_eq!(bold_code_span.style.fg, Some(Color::Green));
}

// Render nodes

#[test]
fn test_build_render_nodes_skips_output_blocks() {
    let input = "```sh exec\necho hi\n```\n\n```output\nhi\n```";
    let ast = parse_markdown(input);
    let nodes = build_nodes(&ast);
    let exec: Vec<_> = nodes.iter().filter(|n| matches!(n, RenderNode::ExecutableCode { .. })).collect();
    let output: Vec<_> = nodes.iter().filter(|n| matches!(n, RenderNode::OutputBlock { .. })).collect();
    assert_eq!(exec.len(), 1);
    assert_eq!(output.len(), 1);
}

#[test]
fn test_build_render_nodes_marks_executable_correctly() {
    let langs = ["sh", "bash", "python", "js", "node"];
    for lang in langs {
        let input = format!("```{} exec\ncode\n```", lang);
        let ast = parse_markdown(&input);
        let nodes = build_nodes(&ast);
        assert!(nodes.iter().any(|n| matches!(n, RenderNode::ExecutableCode { .. })), "{} should be executable", lang);
    }
}

#[test]
fn test_build_render_nodes_marks_non_executable_correctly() {
    let langs = ["mermaid", "json", "yaml", "css", "html"];
    for lang in langs {
        let input = format!("```{}\ncode\n```", lang);
        let ast = parse_markdown(&input);
        let nodes = build_nodes(&ast);
        assert!(nodes.iter().any(|n| matches!(n, RenderNode::CodeBlock { .. })), "{} should NOT be executable", lang);
    }
}

#[test]
fn test_text_between_code_and_output_preserved() {
    let input = "```sh exec\necho hello\n```\n\nText between.\n\n```output\nhello\n```";
    let ast = parse_markdown(input);
    let nodes = build_nodes(&ast);
    assert!(nodes.iter().any(|n| matches!(n, RenderNode::ExecutableCode { .. })));
    assert!(nodes.iter().any(|n| matches!(n, RenderNode::Text { kind: TextKind::Paragraph, .. })));
    assert!(nodes.iter().any(|n| matches!(n, RenderNode::OutputBlock { .. })));
}

#[test]
fn test_executable_and_output_nodes_created() {
    let input = "```sh exec\necho hello\n```";
    let app = app_for(input);
    let has_exec = app.nodes.iter().any(|n| matches!(n, RenderNode::ExecutableCode { .. }));
    let has_output = app.nodes.iter().any(|n| matches!(n, RenderNode::OutputBlock { .. }));
    assert!(has_exec);
    assert!(has_output);
}

#[test]
fn leading_stale_output_is_the_only_orphan() {
    let input = "Some text\n\n```output\nstale\n```\n\n```sh exec\necho hi\n```\n\n```output\nhi\n```";
    let app = app_for(input);
    assert!(matches!(&app.nodes[0], RenderNode::Text { kind: TextKind::Paragraph, .. }));
    match &app.nodes[1] {
        RenderNode::OutputBlock { is_orphan, state: OutputState::Orphaned { content }, .. } => {
            assert!(*is_orphan);
            assert_eq!(content, "stale");
        }
        other => panic!("expected an orphan output box, got {:?}", other),
    }
    assert!(matches!(&app.nodes[2], RenderNode::ExecutableCode { index: 0, .. }));
    match &app.nodes[3] {
        RenderNode::OutputBlock { code_index, is_orphan, state } => {
            assert_eq!(*code_index, 0);
            assert!(!*is_orphan);
            assert!(matches!(state, OutputState::Pending));
        }
        other => panic!("expected the block's output box, got {:?}", other),
    }
}

#[test]
fn second_output_after_a_block_is_an_orphan() {
    let input = "```sh exec\necho hi\n```\n\n```output\nhi\n```\n\n```output\nold\n```";
    let app = app_for(input);
    let boxes: Vec<bool> = app
        .nodes
        .iter()
        .filter_map(|n| if let RenderNode::OutputBlock { is_orphan, .. } = n { Some(*is_orphan) } else { None })
        .collect();
    assert_eq!(boxes, vec![false, true]);
}
