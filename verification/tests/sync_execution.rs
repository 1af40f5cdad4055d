use literate_docs::execute_code_blocks::sync_execution::{
    compile_decision, compile_run, execute_code_blocks, file_run, first_or, probe_args, result_compiled, result_file,
    result_inline,
};
use literate_docs::execute_code_blocks::language_config::ExecCommand;
use literate_docs::execute_code_blocks::language_config::ExecutableCodeBlock;
use literate_docs::execute_code_blocks::{execute_code, find_language};

#[test]
fn sync_execution_test_find_language_shell() {
    let lang = find_language("sh");
    assert!(lang.is_some());
    assert_eq!(lang.unwrap().commands[0].run.tool, "/bin/sh");
}

#[test]
fn sync_execution_test_find_language_python() {
    let lang = find_language("python");
    assert!(lang.is_some());
    assert_eq!(lang.unwrap().commands[0].run.tool, "python3");
}

#[test]
fn sync_execution_test_find_language_rust() {
    let lang = find_language("rust");
    assert!(lang.is_some());
    assert!(lang.unwrap().aliases.contains(&"rust"));
}

#[test]
fn sync_execution_test_find_language_typescript() {
    let lang = find_language("ts");
    assert!(lang.is_some());
}

#[test]
fn sync_execution_test_find_language_unknown() {
    let lang = find_language("unknownlang");
    assert!(lang.is_none());
}

#[test]
fn sync_execution_test_shell_execution() {
    let result = execute_code("sh", "echo hello");
    assert!(result.is_some());
    assert!(result.unwrap().contains("hello"));
}

#[test]
fn sync_execution_test_python_execution() {
    let result = execute_code("python", "print(1 + 1)");
    assert!(result.is_some());
    assert!(result.unwrap().contains("2"));
}

#[test]
fn sync_execution_test_node_execution() {
    let result = execute_code("js", "console.log(1 + 1)");
    assert!(result.is_some());
}

#[test]
fn sync_execution_test_typescript_execution() {
    let result = execute_code("ts", "console.log(1 + 1)");
    assert!(result.is_some());
}

#[test]
fn sync_execution_test_rust_execution() {
    let result = execute_code("rust", "fn main() { println!(\"hello\"); }");
    assert!(result.is_some());
}

#[test]
fn sync_execution_test_unknown_language_skipped() {
    let lang = find_language("mermaid");
    assert!(lang.is_none());
}

#[test]
fn unknown_language_is_not_executed() {
    assert!(execute_code("mermaid", "graph TD").is_none());
}

#[test]
fn sync_execution_test_detect_tool_global() {
    let rt = tokio::runtime::Builder::new_current_thread().enable_all().build().expect("a runtime");
    let result = literate_docs::execute_code_blocks::detect_tool(&rt, "node");
    assert!(result.is_some(), "node should be found globally");
}

#[test]
fn sync_execution_test_detect_tool_missing() {
    let rt = tokio::runtime::Builder::new_current_thread().enable_all().build().expect("a runtime");
    let result = literate_docs::execute_code_blocks::detect_tool(&rt, "nonexistent_binary_xyz");
    assert!(result.is_none(), "nonexistent tool should not be found");
}

fn finished(success: bool, stdout: &str, stderr: &str) -> Result<literate_docs::process::ProcessOutput, String> {
    Ok(literate_docs::process::ProcessOutput { success, stdout: stdout.as_bytes().to_vec(), stderr: stderr.as_bytes().to_vec() })
}

#[test]
fn run_results_become_outputs() {
    assert_eq!(result_inline(&finished(true, " hi\n", "")), Some("hi".to_string()));
    assert_eq!(result_inline(&finished(false, "hi", "err")), None);
    assert_eq!(result_inline(&Err("missing".to_string())), None);
    assert_eq!(result_file(&finished(false, "out ", "err\n")), Some("out err".to_string()));
    assert_eq!(result_file(&finished(false, "", "")), None);
    assert_eq!(result_compiled(&finished(false, "", "")), Some(String::new()));
    assert_eq!(result_compiled(&finished(true, "x\n", "warn")), Some("x".to_string()));
}

#[test]
fn compile_decision_stops_on_a_failed_compilation() {
    assert_eq!(compile_decision(&finished(true, "", "")), None);
    assert_eq!(compile_decision(&finished(false, "out ", "bad\n")), Some(Some("Compile error: out bad".to_string())));
    assert_eq!(compile_decision(&Err("no compiler".to_string())), Some(None));
}

#[test]
fn tools_are_probed_with_version_flag() {
    assert_eq!(probe_args(), vec!["--version".to_string()]);
}

#[test]
fn unknown_languages_get_the_no_runtime_entry() {
    let blocks = vec![
        ExecutableCodeBlock { lang: "mermaid".to_string(), code: "graph".to_string(), hidden: false },
        ExecutableCodeBlock { lang: "sh".to_string(), code: "echo two".to_string(), hidden: false },
    ];
    let out = execute_code_blocks(&blocks);
    assert_eq!(out, vec!["Error: No runtime found".to_string(), "two".to_string()]);
}

#[test]
fn first_command_with_an_output_wins() {
    let tried = vec![None, Some("two".to_string()), Some("three".to_string())];
    assert_eq!(first_or(&tried, "none".to_string()), "two");
    assert_eq!(first_or(&vec![None, None], "none".to_string()), "none");
}

#[test]
fn file_and_compile_runs_use_main_and_output_in_the_directory() {
    let f = file_run(&vec!["{input}", "-q"], "print(1)", "/tmp/d");
    assert_eq!(f.input, "/tmp/d/main");
    assert_eq!(f.contents, "print(1)");
    assert_eq!(f.args, vec!["/tmp/d/main".to_string(), "-q".to_string()]);
    let compile = ExecCommand { tool: "rustc", args: vec!["{input}", "-o", "{output}"], inline: false };
    let run = ExecCommand { tool: "{output}", args: vec!["{dir}"], inline: false };
    let c = compile_run(&compile, &run, "fn main() {}", "/tmp/d/");
    assert_eq!(c.input, "/tmp/d/main");
    assert_eq!(c.output, "/tmp/d/output");
    assert_eq!(c.contents, "fn main() {}");
    assert_eq!(c.compile_args, vec!["/tmp/d/main".to_string(), "-o".to_string(), "/tmp/d/output".to_string()]);
    assert_eq!(c.run_tool, "/tmp/d/output");
    assert_eq!(c.run_args, vec!["/tmp/d/".to_string()]);
}
