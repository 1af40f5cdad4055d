use literate_docs::code_runner::{execute_code, execute_code_blocks, find_language, is_executable};
use literate_docs::execute_code_blocks::ExecutableCodeBlock;

#[test]
fn execute_code_blocks_test_shell_execution() {
    let result = execute_code("sh", "echo hello");
    assert_eq!(result, "hello");
}

#[test]
fn execute_code_blocks_test_python_execution() {
    let result = execute_code("python", "print(2 + 2)");
    assert_eq!(result, "4");
}

#[test]
fn execute_code_blocks_test_node_execution() {
    let result = execute_code("node", "console.log(1 + 1)");
    assert_eq!(result, "2");
}

#[test]
fn execute_code_blocks_test_unknown_language_skipped() {
    let result = execute_code("mermaid", "graph TD; A-->B;");
    assert!(
        result.is_empty(),
        "Unknown language should return empty string, not error"
    );
}

#[test]
fn execute_code_blocks_test_find_language_shell() {
    let lang = find_language("sh");
    assert!(lang.is_some());
    assert_eq!(lang.unwrap().commands[0].tool, "/bin/sh");
}

#[test]
fn execute_code_blocks_test_find_language_python() {
    let lang = find_language("python");
    assert!(lang.is_some());
    assert_eq!(lang.unwrap().commands[0].tool, "python3");
}

#[test]
fn execute_code_blocks_test_find_language_rust() {
    let lang = find_language("rust");
    assert!(lang.is_some());
    assert!(lang.unwrap().aliases.contains(&"rust"));
}

#[test]
fn execute_code_blocks_test_find_language_typescript() {
    let lang = find_language("ts");
    assert!(lang.is_some());
    assert!(lang.unwrap().aliases.contains(&"ts"));
    let lang2 = find_language("typescript");
    assert!(lang2.is_some());
}

#[test]
fn execute_code_blocks_test_find_language_unknown() {
    assert!(find_language("mermaid").is_none());
}

#[test]
fn rust_is_compiled_then_run() {
    let lang = find_language("rust").unwrap();
    let cmd = &lang.commands[0];
    assert_eq!(cmd.tool, "rustc");
    assert_eq!(cmd.args, vec!["-o", "{output}", "{input}"]);
    assert!(!cmd.inline);
    let (after, after_args) = cmd.run_after.as_ref().unwrap();
    assert_eq!(*after, "{output}");
    assert!(after_args.is_empty());
}

#[test]
fn javascript_tries_local_tools_first() {
    let lang = find_language("javascript").unwrap();
    let tools: Vec<&str> = lang.commands.iter().map(|c| c.tool).collect();
    assert_eq!(
        tools,
        vec!["node_modules/.bin/node", "node_modules/.bin/bun", "node", "bun"]
    );
}

#[test]
fn flat_table_knows_the_same_languages() {
    for lang in ["sh", "bash", "shell", "python", "python3", "js", "javascript", "node", "ts", "typescript", "ruby", "perl", "php", "go", "rust"] {
        assert!(is_executable(lang), "{} should be known", lang);
    }
    assert!(!is_executable("mermaid"));
}

#[test]
fn blocks_with_no_output_keep_their_place() {
    let blocks = vec![
        ExecutableCodeBlock { lang: "sh".to_string(), code: "echo one".to_string(), hidden: false },
        ExecutableCodeBlock { lang: "mermaid".to_string(), code: "graph TD".to_string(), hidden: false },
        ExecutableCodeBlock { lang: "sh".to_string(), code: "true".to_string(), hidden: true },
        ExecutableCodeBlock { lang: "sh".to_string(), code: "echo two".to_string(), hidden: false },
    ];
    assert_eq!(
        execute_code_blocks(&blocks),
        vec!["one".to_string(), String::new(), String::new(), "two".to_string()]
    );
}

#[test]
fn failing_file_program_reports_its_output() {
    // `go` is not installed here: no runtime is found.
    let out = execute_code("go", "package main");
    assert!(out.starts_with("Error: No runtime found for go. Available: go"), "{}", out);
}

#[test]
fn execute_code_blocks_test_detect_tool_global() {
    let rt = tokio::runtime::Builder::new_current_thread().enable_all().build().expect("a runtime");
    let result = literate_docs::execute_code_blocks::detect_tool(&rt, "node");
    assert!(result.is_some(), "node should be found globally");
}

#[test]
fn execute_code_blocks_test_detect_tool_missing() {
    let rt = tokio::runtime::Builder::new_current_thread().enable_all().build().expect("a runtime");
    let result = literate_docs::execute_code_blocks::detect_tool(&rt, "nonexistent_binary_xyz");
    assert!(result.is_none(), "nonexistent tool should not be found");
}
