use literate_docs::literate_docs::literate_docs;

fn run(input: &str) -> String {
    literate_docs(input).expect("the document can be processed")
}

#[test]
fn literate_docs_test_shell_block_produces_output() {
    let input = "```sh exec\necho hello\n```";
    let output = run(input);

    let expected = r#"```sh exec
echo hello
```

```output
hello
```"#;
    assert_eq!(output, expected);
}

#[test]
fn literate_docs_test_unknown_language_block_unchanged() {
    let input = "```mermaid\ngraph TD; A-->B;\n```";
    let output = run(input);

    assert_eq!(output, "```mermaid\ngraph TD; A-->B;\n```");
}

#[test]
fn literate_docs_test_no_language_block_unchanged() {
    let input = "```\nsome code\n```";
    let output = run(input);

    assert_eq!(output, "```\nsome code\n```");
}

#[test]
fn literate_docs_test_multiple_code_blocks() {
    let input = "```sh exec\necho one\n```\n\n```sh exec\necho two\n```";
    let output = run(input);

    let expected = r#"```sh exec
echo one
```

```output
one
```

```sh exec
echo two
```

```output
two
```"#;
    assert_eq!(output, expected);
}

#[test]
fn literate_docs_test_text_preserved() {
    let input = "# Hello World\n\nSome text here.\n\n```sh exec\necho test\n```";
    let output = run(input);

    let expected = r#"# Hello World

Some text here.

```sh exec
echo test
```

```output
test
```"#;
    assert_eq!(output, expected);
}

#[test]
fn literate_docs_test_idempotency() {
    let input = "```sh exec\necho hello\n```";
    let output1 = run(input);
    let output2 = run(&output1);

    assert_eq!(output1, output2);
}

#[test]
fn literate_docs_test_comment_output_format() {
    let input = "```sh exec\necho hello\n```\n\n<!-- output: hello -->";
    let output = run(input);

    assert!(
        output.contains("<!-- output: hello -->"),
        "Should contain comment output"
    );
    assert!(
        !output.contains("```output"),
        "Should not have code block output"
    );
}

#[test]
fn literate_docs_test_comment_output_idempotency() {
    let input = "```sh exec\necho hello\n```\n\n<!-- output: hello -->";

    let output1 = run(input);

    assert!(
        !output1.contains("Error:"),
        "First run should not have error: {}",
        output1
    );

    let output2 = run(&output1);

    assert_eq!(
        output1, output2,
        "Running twice with comment format should be idempotent"
    );
}

#[test]
fn test_stale_comment_output_updated() {
    let input = "```sh exec\necho hello\n```\n\n<!-- output: stale_value -->";
    let output = run(input);

    assert!(
        output.contains("<!-- output: hello -->"),
        "Should update stale comment to correct output: {}",
        output
    );
    assert!(
        !output.contains("stale_value"),
        "Should not contain stale value: {}",
        output
    );
    assert!(
        !output.contains("```output"),
        "Should not add code block output when comment exists: {}",
        output
    );
}

#[test]
fn test_stale_code_block_output_updated() {
    let input = "```sh exec\necho hello\n```\n\n```output\nstale_value\n```";
    let output = run(input);

    assert!(
        output.contains("```output\nhello\n```"),
        "Should update stale code block output to correct value: {}",
        output
    );
    assert!(
        !output.contains("stale_value"),
        "Should not contain stale value: {}",
        output
    );
}

#[test]
fn test_fresh_output_becomes_code_block() {
    let input = "```sh exec\necho hello\n```";
    let output = run(input);

    assert!(
        output.contains("```output\nhello\n```"),
        "Should create code block output for fresh execution: {}",
        output
    );
}

#[test]
fn test_idempotent_code_block_output() {
    let input = "```sh exec\necho hello\n```";
    let output1 = run(input);
    let output2 = run(&output1);

    assert_eq!(
        output1, output2,
        "Running twice with code block output should be idempotent"
    );
}

#[test]
fn literate_docs_test_output_separated_by_text() {
    let input = "```sh exec\necho hello\n```\n\nSome text here.\n\n```output\nhello\n```";
    let output = run(input);

    assert!(
        output.contains("```output\nhello\n```"),
        "Should preserve existing output separated by text"
    );
    assert!(
        !output.contains("```output\n\n```"),
        "Should not add placeholder when output exists"
    );
}

#[test]
fn literate_docs_test_output_separated_by_heading() {
    let input = "```sh exec\necho hello\n```\n\n## Results\n\n```output\nhello\n```";
    let output = run(input);

    assert!(
        output.contains("## Results"),
        "Should preserve heading between code and output"
    );
    assert!(
        output.contains("```output\nhello\n```"),
        "Should preserve existing output separated by heading"
    );
    assert!(
        !output.contains("```output\n\n```"),
        "Should not add placeholder when output exists"
    );
}

#[test]
fn test_orphan_output_block_removed() {
    let input = "Some text\n\n```output\nstale\n```";
    let output = run(input);

    assert!(
        !output.contains("```output"),
        "Should remove orphan output block"
    );
    assert!(
        output.contains("Some text"),
        "Should preserve surrounding text"
    );
}

#[test]
fn test_orphan_comment_output_removed() {
    let input = "Some text\n\n<!-- output: stale -->";
    let output = run(input);

    assert!(
        !output.contains("<!-- output:"),
        "Should remove orphan comment output"
    );
    assert!(
        output.contains("Some text"),
        "Should preserve surrounding text"
    );
}

#[test]
fn test_executable_language_without_exec_keyword_unchanged() {
    let input = "```sh\necho hello\n```";
    let output = run(input);

    assert_eq!(output, "```sh\necho hello\n```");
    assert!(
        !output.contains("```output"),
        "Should not produce output without exec keyword"
    );
}

#[test]
fn test_hidden_exec_comment_idempotency() {
    let input = "<!-- sh exec: echo hello -->";
    let output1 = run(input);

    assert!(
        output1.contains("```output\nhello\n```"),
        "First run should produce output: {}",
        output1
    );

    let output2 = run(&output1);

    assert!(
        !output2.contains("stale"),
        "Second run should not have stale content: {}",
        output2
    );
}

#[test]
fn test_hidden_exec_comment_removed_from_output() {
    let input = "<!-- sh exec: echo hello -->";
    let output = run(input);

    assert!(
        output.contains("<!-- sh exec:"),
        "Should keep hidden exec comment: {}",
        output
    );
}

#[test]
fn test_hidden_exec_comment_mixed_with_visible() {
    let input = "<!-- sh exec: echo hidden -->\n\n```sh exec\necho visible\n```";
    let output = run(input);

    assert!(
        output.contains("```output\nhidden\n```"),
        "Should have hidden output: {}",
        output
    );
    assert!(
        output.contains("```output\nvisible\n```"),
        "Should have visible output: {}",
        output
    );
}

#[test]
fn test_hidden_exec_comment_stale_output_updated() {
    let input = "<!-- sh exec: echo hello -->\n\n```output\nstale\n```";
    let output = run(input);

    assert!(
        output.contains("hello"),
        "Should update stale output: {}",
        output
    );
}

#[test]
fn test_hidden_exec_multiple_languages() {
    let input = "<!-- python exec: print(2 + 2) -->";
    let output = run(input);

    assert!(output.contains("4"), "Should execute python: {}", output);
}

#[test]
fn test_hidden_exec_invalid_language_unchanged() {
    let input = "<!-- mermaid exec: graph TD; A-->B; -->";
    let output = run(input);

    assert_eq!(output, "<!-- mermaid exec: graph TD; A-->B; -->");
    assert!(
        !output.contains("output:"),
        "Should not produce output for invalid language"
    );
}

#[test]
fn leading_stale_output_is_dropped_and_the_block_gets_its_output() {
    let input = "```output\nstale\n```\n\n```sh exec\necho hello\n```";
    let output = run(input);
    assert!(output.contains("```sh exec\necho hello\n```\n\n```output\nhello\n```"), "got: {}", output);
    assert!(!output.contains("stale"), "got: {}", output);
}

#[test]
fn processing_a_document_with_a_leading_orphan_twice_changes_nothing_more() {
    let input = "```output\nstale\n```\n\n```sh exec\necho hello\n```";
    let once = run(input);
    let twice = run(&once);
    assert_eq!(once, twice);
}

#[test]
fn second_output_after_a_block_is_removed() {
    let input = "```sh exec\necho hi\n```\n\n```output\nold\n```\n\n```output\nolder\n```";
    let output = run(input);
    assert_eq!(output, "```sh exec\necho hi\n```\n\n```output\nhi\n```");
}
