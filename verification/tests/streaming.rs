use literate_docs::execute_code_blocks::find_language;
use literate_docs::execute_code_blocks::streaming_execution::{
    after_compile, append_compile_line, append_stream_line, compile_error_output, compile_failed_message,
    file_args, input_extension, no_command_message, not_found_message, source_file, stream_output, stream_plan,
    AfterCompile, StreamPlan,
};

#[test]
fn plans_by_language() {
    assert!(matches!(stream_plan("mermaid"), StreamPlan::Unknown));
    match stream_plan("sh") {
        StreamPlan::Inline(cmd) => assert_eq!(cmd.run.tool, "/bin/sh"),
        _ => panic!("sh runs inline"),
    }
    assert!(matches!(stream_plan("rust"), StreamPlan::Compile(_)));
}

#[test]
fn messages() {
    assert_eq!(no_command_message(), "Error: No command configured");
    assert_eq!(not_found_message("ruby"), "Error: ruby not found");
    assert_eq!(compile_failed_message("oops"), "Compile error: oops");
    assert_eq!(compile_error_output("  error[E0]: x \n"), "error[E0]: x");
    assert_eq!(compile_error_output(" warning \n"), "Compile error: warning");
}

#[test]
fn lines_add_up_to_the_output() {
    let mut all = String::new();
    append_stream_line(&mut all, "a");
    append_stream_line(&mut all, "b");
    assert_eq!(all, "a\nb");
    assert_eq!(stream_output("  a\nb \n"), "a\nb");
    let mut c = String::new();
    append_compile_line(&mut c, "x");
    append_compile_line(&mut c, "y");
    assert_eq!(c, "x\ny\n");
}

#[test]
fn compile_files_and_arguments() {
    assert_eq!(input_extension("rustc"), "rs");
    assert_eq!(input_extension("/usr/bin/tsc"), "ts");
    assert_eq!(input_extension("gcc"), "");
    assert_eq!(source_file("/tmp", "rs"), "/tmp/main.rs");
    assert_eq!(source_file("/tmp/", ""), "/tmp/main");
    let args = vec!["-o", "{input}", "{dir}", "{output}"];
    assert_eq!(file_args(&args, "/d", "/d/main"), vec!["-o", "/d/main", "/d", "{output}"]);
}

#[test]
fn what_runs_after_compiling() {
    let rust = find_language("rust").unwrap();
    let cmd = &rust.commands[0];
    match after_compile(&cmd.run, "rustc", "/d", "/d/main", "/d/output") {
        AfterCompile::Run { tool, args } => {
            assert_eq!(tool, "/d/output");
            assert!(args.len() + 1 == cmd.run.args.len() || (cmd.run.args.is_empty() && args.is_empty()));
        }
        AfterCompile::Stop => assert!(cmd.run.inline),
        AfterCompile::NoTool => panic!("a program runs after rustc"),
    }
}
