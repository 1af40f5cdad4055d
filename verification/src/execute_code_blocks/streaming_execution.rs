//! Running code while reporting what it prints, line by line: the events a
//! run reports, and the decisions taken along the way (which command runs
//! the code, how the lines add up to the output, what each failure reports).
//! The runs themselves, which wait on processes, are driven by the caller.
use crate::execute_code_blocks::default_language_config::{find_language, spec_find_language};
use crate::execute_code_blocks::language_config::{CommandTemplate, CommandTemplateView, LanguageConfig};
use crate::execute_code_blocks::language_config::{strs_view, ExecCommand};
use crate::execute_code_blocks::sync_execution::{join_path, path_join, resolve_arg_compile, resolve_args, spec_resolve_arg};
use crate::text::{chars_of, concat, contains, str_contains, str_eq, to_owned_string, trim, trim_string};
use vstd::prelude::*;

verus! {

/// What a run of one executable block reports.
#[derive(Debug)]
pub enum ExecutionEvent {
    /// The run began.
    Started,
    /// The program printed a line to stdout.
    StdoutLine(String),
    /// The program printed a line to stderr.
    StderrLine(String),
    /// The run ended: the whole output, whether it succeeded, and how long it took.
    Completed { output: String, success: bool, duration: std::time::Duration },
}

/// How a block in a given language is run.
pub enum StreamPlan {
    /// The language is unknown: the run ends at once, successfully, with no output.
    Unknown,
    /// The language has no command: the run ends at once with an error.
    NoCommand,
    /// The first command of the language, which compiles the code, then runs the result.
    Compile(CommandTemplate),
    /// The first command of the language, which takes the code as its last argument.
    Inline(CommandTemplate),
    /// The first command of the language, which reads the code from a file.
    File(CommandTemplate),
}

/// The plan for `lang`: its first command, sorted by how it runs the code.
pub open spec fn spec_stream_plan(lang: Seq<char>) -> (Option<Option<CommandTemplateView>>) {
    match spec_find_language(lang) {
        None => None,
        Some(c) => if c.commands.len() == 0 {
            Some(None)
        } else {
            Some(Some(c.commands[0]))
        },
    }
}

/// How a block in `lang` is run (see `StreamPlan`).
pub fn stream_plan(lang: &str) -> (r: StreamPlan)
    ensures
        match spec_stream_plan(lang@) {
            None => r is Unknown,
            Some(None) => r is NoCommand,
            Some(Some(c)) => match r {
                StreamPlan::Compile(t) => t@ == c && c.compile is Some,
                StreamPlan::Inline(t) => t@ == c && c.compile is None && c.run.inline,
                StreamPlan::File(t) => t@ == c && c.compile is None && !c.run.inline,
                _ => false,
            },
        },
{
    match find_language(lang) {
        None => StreamPlan::Unknown,
        Some(config) => {
            let LanguageConfig { aliases: _, mut commands } = config;
            if commands.len() == 0 {
                StreamPlan::NoCommand
            } else {
                let cmd = commands.remove(0);
                if cmd.compile.is_some() {
                    StreamPlan::Compile(cmd)
                } else if cmd.run.inline {
                    StreamPlan::Inline(cmd)
                } else {
                    StreamPlan::File(cmd)
                }
            }
        },
    }
}

/// The output a run with no command reports.
pub fn no_command_message() -> (r: String)
    ensures
        r@ == "Error: No command configured"@,
{
    to_owned_string("Error: No command configured")
}

/// The output reported when `tool` cannot be started: `Error: {tool} not found`.
pub fn not_found_message(tool: &str) -> (r: String)
    ensures
        r@ == "Error: "@ + tool@ + " not found"@,
{
    let a = concat("Error: ", tool);
    concat(a.as_str(), " not found")
}

/// The output reported when the code cannot be written to its file.
pub fn write_failed_message(error: &str) -> (r: String)
    ensures
        r@ == "Error: Failed to write temp file: "@ + error@,
{
    concat("Error: Failed to write temp file: ", error)
}

/// The output reported when a program cannot be spawned or waited for.
pub fn process_error_message(error: &str) -> (r: String)
    ensures
        r@ == "Error: "@ + error@,
{
    concat("Error: ", error)
}

/// The output reported when compiling fails: `Compile error: ` and what the
/// compiler printed.
pub fn compile_failed_message(output: &str) -> (r: String)
    ensures
        r@ == "Compile error: "@ + output@,
{
    concat("Compile error: ", output)
}

/// What a failed compile reports, where the compiler's output is read for
/// the word `error`: what the compiler printed, trimmed, if it
/// mentions `error`; otherwise the same after `Compile error: `.
pub open spec fn spec_compile_error(output: Seq<char>) -> Seq<char> {
    if contains(output, "error"@) {
        trim(output)
    } else {
        "Compile error: "@ + trim(output)
    }
}

/// The output reported when compiling fails (see `spec_compile_error`).
pub fn compile_error_output(output: &str) -> (r: String)
    ensures
        r@ == spec_compile_error(output@),
{
    let t = trim_string(output);
    if str_contains(output, "error") {
        t
    } else {
        concat("Compile error: ", t.as_str())
    }
}

/// Adds a line the compiler printed to what it printed so far: every line
/// is followed by a newline.
pub fn append_compile_line(all: &mut String, line: &str)
    ensures
        final(all)@ == old(all)@ + line@ + seq!['\n'],
{
    let with_line = concat(all.as_str(), line);
    let next = concat(with_line.as_str(), "\n");
    proof {
        reveal_strlit("\n");
    }
    *all = next;
}

/// The output reported when, after compiling, there is no program to run.
pub fn no_run_tool_message() -> (r: String)
    ensures
        r@ == "Error: No tool to run after compilation"@,
{
    to_owned_string("Error: No tool to run after compilation")
}

/// Adds a printed line to the output gathered so far: lines are separated by
/// a newline.
pub fn append_stream_line(all: &mut String, line: &str)
    ensures
        final(all)@ == if old(all)@.len() == 0 {
            line@
        } else {
            old(all)@ + seq!['\n'] + line@
        },
{
    if !all.as_str().is_empty() {
        let joined = concat(all.as_str(), "\n");
        proof {
            reveal_strlit("\n");
        }
        *all = joined;
    }
    let next = concat(all.as_str(), line);
    *all = next;
}

/// The output of a streamed run: everything it printed, trimmed.
pub fn stream_output(all: &str) -> (r: String)
    ensures
        r@ == trim(all@),
{
    trim_string(all)
}

/// The extension of the file a compiler reads its source from: `rs` for a
/// `rustc` compiler, `ts` for a `tsc` one, none otherwise.
pub open spec fn spec_input_extension(compile_tool: Seq<char>) -> Seq<char> {
    if contains(compile_tool, "rustc"@) {
        "rs"@
    } else if contains(compile_tool, "tsc"@) {
        "ts"@
    } else {
        Seq::empty()
    }
}

/// The extension of the file `compile_tool` reads (see `spec_input_extension`).
pub fn input_extension(compile_tool: &str) -> (r: &'static str)
    ensures
        r@ == spec_input_extension(compile_tool@),
{
    proof {
        reveal_strlit("rs");
        reveal_strlit("ts");
        reveal_strlit("");
    }
    if str_contains(compile_tool, "rustc") {
        "rs"
    } else if str_contains(compile_tool, "tsc") {
        "ts"
    } else {
        ""
    }
}

/// The file the code to compile is written to: `main` in `dir`, with the
/// extension `ext` where there is one.
pub open spec fn spec_source_file(dir: Seq<char>, ext: Seq<char>) -> Seq<char> {
    if ext.len() == 0 {
        path_join(dir, "main"@)
    } else {
        path_join(dir, "main"@) + seq!['.'] + ext
    }
}

/// The file the code to compile is written to (see `spec_source_file`).
pub fn source_file(dir: &str, ext: &str) -> (r: String)
    ensures
        r@ == spec_source_file(dir@, ext@),
{
    let main = join_path(dir, "main");
    if chars_of(ext).len() == 0 {
        main
    } else {
        let dotted = concat(main.as_str(), ".");
        proof {
            reveal_strlit(".");
        }
        concat(dotted.as_str(), ext)
    }
}

/// An argument of a command that reads the code from a file: `{input}` is
/// the file, `{dir}` the directory it is in; any other argument is used as it is.
pub open spec fn spec_file_arg(arg: Seq<char>, dir: Seq<char>, input: Seq<char>) -> Seq<char> {
    if arg == "{input}"@ {
        input
    } else if arg == "{dir}"@ {
        dir
    } else {
        arg
    }
}

/// The arguments of a command that reads the code from `input` in `dir`
/// (see `spec_file_arg`).
pub fn file_args(args: &Vec<&'static str>, dir: &str, input: &str) -> (r: Vec<String>)
    ensures
        r@.len() == args@.len(),
        forall|i: int| 0 <= i < args@.len() ==> (#[trigger] r@[i])@ == spec_file_arg(args@[i]@, dir@, input@),
{
    let mut r: Vec<String> = Vec::new();
    let mut i: usize = 0;
    while i < args.len()
        invariant
            i <= args.len(),
            r@.len() == i,
            forall|j: int| 0 <= j < i ==> (#[trigger] r@[j])@ == spec_file_arg(args@[j]@, dir@, input@),
        decreases args.len() - i,
    {
        let a = args[i];
        let v = if str_eq(a, "{input}") {
            to_owned_string(input)
        } else if str_eq(a, "{dir}") {
            to_owned_string(dir)
        } else {
            to_owned_string(a)
        };
        proof {
            reveal_strlit("{input}");
            reveal_strlit("{dir}");
        }
        r.push(v);
        i += 1;
    }
    r
}

/// What happens once the code compiled.
pub enum AfterCompile {
    /// The run ends here, reporting nothing more.
    Stop,
    /// There is no program to run.
    NoTool,
    /// This program runs with these arguments.
    Run { tool: String, args: Vec<String> },
}

/// The program that runs after compiling, if any: for a command that takes
/// the code inline, the compiled `output` file where the compiler is `rustc`
/// (none otherwise); else the command's first argument, placeholders
/// replaced. `None` stands for "stop here".
pub open spec fn spec_run_tool(run: crate::execute_code_blocks::language_config::ExecCommandView, compile_tool: Seq<char>, dir: Seq<char>, input: Seq<char>, output: Seq<char>) -> Option<Seq<char>> {
    if run.inline {
        if contains(compile_tool, "rustc"@) {
            Some(output)
        } else {
            None
        }
    } else {
        Some(spec_resolve_arg(if run.args.len() > 0 { run.args[0] } else { Seq::empty() }, dir, input, output))
    }
}

/// What happens once the code compiled: stop (see `spec_run_tool`), report
/// that there is no program to run (an empty one), or run the program with
/// the command's arguments after the first, placeholders replaced.
pub fn after_compile(run: &ExecCommand, compile_tool: &str, dir: &str, input: &str, output: &str) -> (r: AfterCompile)
    ensures
        match spec_run_tool(run@, compile_tool@, dir@, input@, output@) {
            None => r is Stop,
            Some(t) => if t.len() == 0 {
                r is NoTool
            } else {
                r matches AfterCompile::Run { tool, args } && tool@ == t
                    && args@.len() == (if run.args@.len() > 0 { run.args@.len() - 1 } else { 0 })
                    && forall|i: int| 0 <= i < args@.len() ==> (#[trigger] args@[i])@
                        == spec_resolve_arg(run.args@[i + 1]@, dir@, input@, output@)
            },
        },
{
    proof {
        assert(run@.args == strs_view(run.args@));
        assert(run.args@.len() > 0 ==> run@.args[0] == run.args@[0]@);
        assert(run@.args.len() == run.args@.len());
    }
    let tool = if run.inline {
        if str_contains(compile_tool, "rustc") {
            to_owned_string(output)
        } else {
            return AfterCompile::Stop;
        }
    } else {
        let first: &str = if run.args.len() > 0 { run.args[0] } else { "" };
        proof {
            reveal_strlit("");
            assert(first@ == (if run@.args.len() > 0 { run@.args[0] } else { Seq::<char>::empty() }));
        }
        resolve_arg_compile(first, dir, input, output)
    };
    assert(spec_run_tool(run@, compile_tool@, dir@, input@, output@) == Some(tool@));
    if chars_of(tool.as_str()).len() == 0 {
        return AfterCompile::NoTool;
    }
    let mut args: Vec<String> = Vec::new();
    let mut i: usize = 1;
    while i < run.args.len()
        invariant
            1 <= i,
            run.args@.len() > 0 ==> i <= run.args@.len(),
            run.args@.len() == 0 ==> i == 1,
            args@.len() == i - 1,
            forall|j: int| 0 <= j < args@.len() ==> (#[trigger] args@[j])@
                == spec_resolve_arg(run.args@[j + 1]@, dir@, input@, output@),
        decreases run.args.len() - i,
    {
        args.push(resolve_arg_compile(run.args[i], dir, input, output));
        i += 1;
    }
    AfterCompile::Run { tool, args }
}

} // verus!
