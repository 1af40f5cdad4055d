use literate_docs::document::MdNode;
use literate_docs::execute_code_blocks::language_config::{
    is_executable_code_node, is_executable_node, is_hidden_executable_comment, ExecutableCodeBlock,
};
use literate_docs::parse_markdown::parse_markdown;

fn parse(input: &str) -> Vec<MdNode> {
    match parse_markdown(input) {
        MdNode::Element { children, .. } => children,
        _ => panic!("a document parses to a root element"),
    }
}

#[test]
fn test_executable_code_block_from_code_with_exec() {
    let nodes = parse("```sh exec\necho hello\n```");
    let result = ExecutableCodeBlock::try_from(&nodes[0]);
    assert!(result.is_ok());
    let block = result.unwrap();
    assert_eq!(block.lang, "sh");
    assert_eq!(block.code, "echo hello");
    assert!(!block.hidden);
}

#[test]
fn test_executable_code_block_from_code_without_exec() {
    let nodes = parse("```sh\ncode\n```");
    let result = ExecutableCodeBlock::try_from(&nodes[0]);
    assert!(result.is_err());
}

#[test]
fn test_executable_code_block_from_code_unknown_lang() {
    let nodes = parse("```mermaid exec\ngraph TD; A-->B;\n```");
    let result = ExecutableCodeBlock::try_from(&nodes[0]);
    assert!(result.is_err());
}

#[test]
fn test_executable_code_block_from_hidden_comment() {
    let nodes = parse("<!-- sh exec: echo hello -->");
    let result = ExecutableCodeBlock::try_from(&nodes[0]);
    assert!(result.is_ok());
    let block = result.unwrap();
    assert_eq!(block.lang, "sh");
    assert_eq!(block.code, "echo hello");
    assert!(block.hidden);
}

#[test]
fn test_executable_code_block_from_non_exec_comment() {
    let nodes = parse("<!-- some comment -->");
    let result = ExecutableCodeBlock::try_from(&nodes[0]);
    assert!(result.is_err());
}

#[test]
fn test_executable_code_block_from_invalid_comment() {
    let nodes = parse("<!-- sh: echo hello -->");
    let result = ExecutableCodeBlock::try_from(&nodes[0]);
    assert!(result.is_err());
}

#[test]
fn test_is_executable_code_node_with_exec() {
    let nodes = parse("```sh exec\ncode\n```");
    assert!(is_executable_code_node(&nodes[0]));
}

#[test]
fn test_is_executable_code_node_without_exec() {
    let nodes = parse("```sh\ncode\n```");
    assert!(!is_executable_code_node(&nodes[0]));
}

#[test]
fn test_is_hidden_executable_comment_valid() {
    let nodes = parse("<!-- sh exec: echo hello -->");
    let result = is_hidden_executable_comment(&nodes[0]);
    assert!(result.is_some());
    let (lang, code) = result.unwrap();
    assert_eq!(lang, "sh");
    assert_eq!(code, "echo hello");
}

#[test]
fn test_is_hidden_executable_comment_invalid() {
    let nodes = parse("<!-- not exec: echo hello -->");
    let result = is_hidden_executable_comment(&nodes[0]);
    assert!(result.is_none());
}

#[test]
fn test_is_executable_node_code() {
    let nodes = parse("```sh exec\ncode\n```");
    assert!(is_executable_node(&nodes[0]));
}

#[test]
fn test_is_executable_node_hidden_comment() {
    let nodes = parse("<!-- sh exec: echo hello -->");
    assert!(is_executable_node(&nodes[0]));
}

#[test]
fn hidden_comment_needs_language_and_code() {
    let nodes = parse("<!-- sh exec:  -->");
    assert!(is_hidden_executable_comment(&nodes[0]).is_none());
    let nodes = parse("<!--  exec: echo hi -->");
    assert!(is_hidden_executable_comment(&nodes[0]).is_none());
}

#[test]
fn hidden_comment_code_is_trimmed() {
    let nodes = parse("<!--   python exec:   print(1)   -->");
    let (lang, code) = is_hidden_executable_comment(&nodes[0]).unwrap();
    assert_eq!(lang, "python");
    assert_eq!(code, "print(1)");
}

#[test]
fn exec_word_anywhere_in_info_string() {
    let nodes = parse("```sh title=x exec\necho hi\n```");
    assert!(is_executable_code_node(&nodes[0]));
    let nodes = parse("```sh executable\necho hi\n```");
    assert!(!is_executable_code_node(&nodes[0]));
}
