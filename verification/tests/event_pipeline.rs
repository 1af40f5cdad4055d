use literate_docs::event_pipeline::{
    command_for, detect_existing_output, execute_code, first_word_of, interpreter_args, process_events_with,
    render_markdown, rust_build, should_execute, MdEvent, OutputStyle,
};

#[test]
fn lib_test_shell_execution() {
    let result = execute_code("sh", "echo hello");
    assert_eq!(result, "hello");
}

#[test]
fn lib_test_python_execution() {
    let result = execute_code("python", "print(2 + 2)");
    assert_eq!(result, "4");
}

#[test]
fn lib_test_node_execution() {
    let result = execute_code("node", "console.log(1 + 1)");
    assert_eq!(result, "2");
}

#[test]
fn lib_test_unknown_language_skipped() {
    let result = execute_code("mermaid", "graph TD; A-->B;");
    assert!(result.is_empty(), "Unknown language should return empty string, not error");
}

#[test]
fn lib_test_shell_block_produces_output() {
    let input = "```sh\necho hello\n```";
    let output = render_markdown(input);

    let expected = r#"
```sh
echo hello
```

```output
hello
```"#;
    assert_eq!(output, expected);
}

#[test]
fn lib_test_unknown_language_block_unchanged() {
    let input = "```mermaid\ngraph TD; A-->B;\n```";
    let output = render_markdown(input);

    assert_eq!(output, "\n```mermaid\ngraph TD; A-->B;\n```");
}

#[test]
fn lib_test_no_language_block_unchanged() {
    let input = "```\nsome code\n```";
    let output = render_markdown(input);

    assert_eq!(output, "\n```\nsome code\n```");
}

#[test]
fn lib_test_multiple_code_blocks() {
    let input = "```sh\necho one\n```\n\n```sh\necho two\n```";
    let output = render_markdown(input);

    let expected = r#"
```sh
echo one
```

```output
one
```

```sh
echo two
```

```output
two
```"#;
    assert_eq!(output, expected);
}

#[test]
fn lib_test_text_preserved() {
    let input = "# Hello World\n\nSome text here.\n\n```sh\necho test\n```";
    let output = render_markdown(input);

    let expected = r#"# Hello World

Some text here.

```sh
echo test
```

```output
test
```"#;
    assert_eq!(output, expected);
}

#[test]
fn lib_test_idempotency() {
    let input = "```sh\necho hello\n```";
    let output1 = render_markdown(input);
    let output2 = render_markdown(&output1);

    assert_eq!(output1, output2);
}

#[test]
fn lib_test_comment_output_format() {
    let input = "```sh\necho hello\n```\n\n<!-- output: hello -->";
    let output = render_markdown(input);

    assert!(output.contains("<!-- output: hello -->"), "Should contain comment output");
    assert!(!output.contains("```output"), "Should not have code block output");
}

#[test]
fn lib_test_comment_output_idempotency() {
    let input = "```sh\necho hello\n```\n\n<!-- output: hello -->";
    let output1 = render_markdown(input);
    assert!(!output1.contains("Error:"), "First run should not have error: {}", output1);
    let output2 = render_markdown(&output1);
    assert_eq!(output1, output2, "Running twice with comment format should be idempotent");
}

#[test]
fn first_word_skips_leading_whitespace() {
    assert_eq!(first_word_of("  sh exec"), "sh");
    assert_eq!(first_word_of("output"), "output");
    assert_eq!(first_word_of("   "), "");
}

#[test]
fn languages_run_by_the_pipeline() {
    assert!(should_execute("sh"));
    assert!(should_execute("rust"));
    assert!(!should_execute("ts"));
    assert!(!should_execute("mermaid"));
    assert_eq!(command_for("php"), Some(("php", "-r")));
    assert_eq!(command_for("go"), Some(("go", "run")));
    assert_eq!(command_for("rust"), None);
}

#[test]
fn existing_comment_output_is_detected() {
    let events = vec![
        MdEvent::StartFenced("sh".to_string()),
        MdEvent::Text("echo hi\n".to_string()),
        MdEvent::EndCode,
        MdEvent::Html("<!-- output: hi -->\n".to_string()),
    ];
    assert_eq!(detect_existing_output(&events, 2), Some(OutputStyle::Comment));
    assert_eq!(detect_existing_output(&events, 3), None);
}

#[test]
fn given_outputs_are_written_after_their_blocks() {
    let events = vec![
        MdEvent::StartFenced("sh".to_string()),
        MdEvent::Text("echo hi\n".to_string()),
        MdEvent::EndCode,
        MdEvent::StartFenced("output".to_string()),
        MdEvent::Text("stale\n".to_string()),
        MdEvent::EndCode,
    ];
    let out = process_events_with(&events, &vec!["hi".to_string()]);
    let texts: Vec<String> = out
        .iter()
        .map(|e| match e {
            MdEvent::StartFenced(s) => format!("start {}", s),
            MdEvent::Text(s) => format!("text {}", s),
            MdEvent::EndCode => "end".to_string(),
            other => format!("{:?}", other),
        })
        .collect();
    assert_eq!(
        texts,
        vec!["start sh", "text echo hi\n", "end", "start output", "text hi", "end"]
    );
}

#[test]
fn paragraph_after_a_replaced_output_is_kept() {
    let input = "```sh\necho hi\n```\n\n```output\nhi\n```\n\nSome text.";
    let output = render_markdown(input);
    assert!(output.contains("Some text."), "got: {}", output);
    assert_eq!(output.matches("```output").count(), 1, "got: {}", output);
}

#[test]
fn interpreters_get_the_flag_then_the_code() {
    assert_eq!(interpreter_args("-c", "echo hi"), vec!["-c".to_string(), "echo hi".to_string()]);
}

#[test]
fn rust_is_built_from_main_rs_into_output() {
    let b = rust_build("fn main() {}");
    assert_eq!(b.source, "/tmp/main.rs");
    assert_eq!(b.program, "/tmp/output");
    assert_eq!(b.contents, "fn main() {}");
    assert_eq!(b.args, vec!["-o".to_string(), "/tmp/output".to_string(), "/tmp/main.rs".to_string()]);
}
