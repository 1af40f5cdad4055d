//! Running code to completion: trying a language's commands in order until
//! one is available, and turning what the program printed into the output.
use crate::execute_code_blocks::default_language_config::{find_language, spec_find_language};
use crate::execute_code_blocks::language_config::{
    CommandTemplate, ExecCommand, ExecutableCodeBlock, LanguageConfig, LanguageConfigView,
    strs_view,
};
use crate::extract_code_blocks::block_views;
use crate::process::{
    FileWrite, ProcessRun, create_dir_all, lossy_utf8, new_runtime, remove_dir_all, remove_file, run_process,
    utf8_lossy, write_file, ProcessOutput,
};
use crate::text::{chars_of, concat, str_eq, to_owned_string, trim, trim_string};
use vstd::prelude::*;

verus! {

/// `a` joined with the relative path `b` (`Path::join` on Unix).
pub open spec fn path_join(a: Seq<char>, b: Seq<char>) -> Seq<char> {
    if a.len() == 0 {
        b
    } else if a.last() == '/' {
        a + b
    } else {
        a + seq!['/'] + b
    }
}

/// `a` joined with the relative path `b`.
pub fn join_path(a: &str, b: &str) -> (r: String)
    ensures
        r@ == path_join(a@, b@),
{
    let av = chars_of(a);
    if av.len() == 0 {
        to_owned_string(b)
    } else if av[av.len() - 1] == '/' {
        concat(a, b)
    } else {
        let with_sep = concat(a, "/");
        proof {
            reveal_strlit("/");
        }
        let r = concat(with_sep.as_str(), b);
        assert(r@ =~= a@ + seq!['/'] + b@);
        r
    }
}

/// A command argument with its placeholder replaced: `{input}` by the input
/// file, `{output}` by the output file, `{dir}` by the temporary directory;
/// any other argument is used as it is.
pub open spec fn spec_resolve_arg(arg: Seq<char>, dir: Seq<char>, input: Seq<char>, output: Seq<char>) -> Seq<char> {
    if arg == "{input}"@ {
        input
    } else if arg == "{output}"@ {
        output
    } else if arg == "{dir}"@ {
        dir
    } else {
        arg
    }
}

/// The argument `arg` with its placeholder replaced (see `spec_resolve_arg`).
pub fn resolve_arg_compile(arg: &str, temp_dir: &str, input_file: &str, output_file: &str) -> (r: String)
    ensures
        r@ == spec_resolve_arg(arg@, temp_dir@, input_file@, output_file@),
{
    if str_eq(arg, "{input}") {
        to_owned_string(input_file)
    } else if str_eq(arg, "{output}") {
        to_owned_string(output_file)
    } else if str_eq(arg, "{dir}") {
        to_owned_string(temp_dir)
    } else {
        to_owned_string(arg)
    }
}

/// The argument `arg` with its placeholder replaced, the output file being
/// `output` in the temporary directory.
pub(crate) fn resolve_arg(arg: &str, temp_dir: &str, input_file: &str) -> (r: String)
    ensures
        r@ == spec_resolve_arg(arg@, temp_dir@, input_file@, path_join(temp_dir@, "output"@)),
{
    let output_file = join_path(temp_dir, "output");
    resolve_arg_compile(arg, temp_dir, input_file, output_file.as_str())
}

/// All arguments with their placeholders replaced.
pub fn resolve_args(args: &Vec<&'static str>, temp_dir: &str, input_file: &str, output_file: &str) -> (r: Vec<String>)
    ensures
        r@.len() == args@.len(),
        forall|i: int| 0 <= i < args@.len() ==> (#[trigger] r@[i])@ == spec_resolve_arg(args@[i]@, temp_dir@, input_file@, output_file@),
{
    let mut r: Vec<String> = Vec::new();
    let mut i: usize = 0;
    while i < args.len()
        invariant
            i <= args.len(),
            r@.len() == i,
            forall|j: int| 0 <= j < i ==> (#[trigger] r@[j])@ == spec_resolve_arg(args@[j]@, temp_dir@, input_file@, output_file@),
        decreases args.len() - i,
    {
        r.push(resolve_arg_compile(args[i], temp_dir, input_file, output_file));
        i += 1;
    }
    r
}

/// The directory where code that has to be written to a file is run.
pub fn unique_temp_dir() -> (r: &'static str)
    ensures
        r@ == "/tmp/literate_docs"@,
{
    "/tmp/literate_docs"
}

/// What a program printed to stdout, trimmed.
pub fn stdout_text(out: &ProcessOutput) -> (r: String)
    ensures
        r@ == trim(lossy_utf8(out.stdout@)),
{
    let s = utf8_lossy(&out.stdout);
    trim_string(s.as_str())
}

/// What a program printed to stdout and then to stderr, trimmed.
pub fn all_text(out: &ProcessOutput) -> (r: String)
    ensures
        r@ == trim(lossy_utf8(out.stdout@) + lossy_utf8(out.stderr@)),
{
    let a = utf8_lossy(&out.stdout);
    let b = utf8_lossy(&out.stderr);
    let s = concat(a.as_str(), b.as_str());
    trim_string(s.as_str())
}

/// The output of a program given the code as its last argument: its trimmed
/// stdout if it succeeded, nothing if it failed or could not be started.
pub open spec fn inline_output(r: Result<ProcessOutput, String>) -> Option<Seq<char>> {
    match r {
        Ok(o) => if o.success {
            Some(trim(lossy_utf8(o.stdout@)))
        } else {
            None
        },
        Err(_) => None,
    }
}

/// The output of a program run on a file: its trimmed stdout if it
/// succeeded; if it failed, its stdout and stderr together, trimmed, unless
/// it printed nothing at all.
pub open spec fn file_output(r: Result<ProcessOutput, String>) -> Option<Seq<char>> {
    match r {
        Ok(o) => if o.success {
            Some(trim(lossy_utf8(o.stdout@)))
        } else if o.stdout@.len() > 0 || o.stderr@.len() > 0 {
            Some(trim(lossy_utf8(o.stdout@) + lossy_utf8(o.stderr@)))
        } else {
            None
        },
        Err(_) => None,
    }
}

/// The output of a compiled program: its trimmed stdout if it succeeded,
/// otherwise its stdout and stderr together, trimmed.
pub open spec fn compiled_output(r: Result<ProcessOutput, String>) -> Option<Seq<char>> {
    match r {
        Ok(o) => if o.success {
            Some(trim(lossy_utf8(o.stdout@)))
        } else {
            Some(trim(lossy_utf8(o.stdout@) + lossy_utf8(o.stderr@)))
        },
        Err(_) => None,
    }
}

/// What a run of a program given the code inline gives (see `inline_output`).
/// What a run of a compiler that failed gives: `Compile error: ` followed by
/// its stdout and stderr, trimmed.
pub open spec fn compile_error_message(o: ProcessOutput) -> Seq<char> {
    trim("Compile error: "@ + lossy_utf8(o.stdout@) + lossy_utf8(o.stderr@))
}

/// The plain contents of an optional string.
pub open spec fn opt_str(o: Option<String>) -> Option<Seq<char>> {
    match o {
        Some(s) => Some(s@),
        None => None,
    }
}

/// What running a program given the code inline can give, whatever it did (see `inline_output`).
pub open spec fn inline_outcome(r: Option<Seq<char>>) -> bool {
    exists|out: Result<ProcessOutput, String>| #[trigger] inline_output(out) == r
}

/// What running a program on a file can give, whatever it did (see `file_output`).
pub open spec fn file_outcome(r: Option<Seq<char>>) -> bool {
    exists|out: Result<ProcessOutput, String>| #[trigger] file_output(out) == r
}

/// What compiling and running can give, whatever the compiler and the
/// program did: the compile error of a failed compilation, or what the run
/// gives (see `compiled_output`).
pub open spec fn compiled_outcome(r: Option<Seq<char>>) -> bool {
    ||| (exists|o: ProcessOutput| !o.success && r == Some(#[trigger] compile_error_message(o)))
    ||| (exists|out: Result<ProcessOutput, String>| #[trigger] compiled_output(out) == r)
}

pub fn result_inline(r: &Result<ProcessOutput, String>) -> (out: Option<String>)
    ensures
        match inline_output(*r) {
            Some(s) => out matches Some(x) && x@ == s,
            None => out is None,
        },
{
    match r {
        Ok(o) => if o.success {
            Some(stdout_text(o))
        } else {
            None
        },
        Err(_) => None,
    }
}

/// What a run of a program on a file gives (see `file_output`).
pub fn result_file(r: &Result<ProcessOutput, String>) -> (out: Option<String>)
    ensures
        match file_output(*r) {
            Some(s) => out matches Some(x) && x@ == s,
            None => out is None,
        },
{
    match r {
        Ok(o) => if o.success {
            Some(stdout_text(o))
        } else if o.stdout.len() > 0 || o.stderr.len() > 0 {
            Some(all_text(o))
        } else {
            None
        },
        Err(_) => None,
    }
}

/// What a run of a compiled program gives (see `compiled_output`).
pub fn result_compiled(r: &Result<ProcessOutput, String>) -> (out: Option<String>)
    ensures
        match compiled_output(*r) {
            Some(s) => out matches Some(x) && x@ == s,
            None => out is None,
        },
{
    match r {
        Ok(o) => if o.success {
            Some(stdout_text(o))
        } else {
            Some(all_text(o))
        },
        Err(_) => None,
    }
}

/// The arguments a program is started with to find out whether it is there: `--version`.
pub fn probe_args() -> (r: Vec<String>)
    ensures
        strings_of(r@) == seq!["--version"@],
{
    let mut args: Vec<String> = Vec::new();
    let a = to_owned_string("--version");
    args.push(a);
    assert(strings_of(args@) =~= seq!["--version"@]);
    args
}

/// The program `tool`, when it can be started with the arguments of
/// `probe_args` (`tool --version`); whether it can depends on the machine.
pub fn detect_tool(rt: &tokio::runtime::Runtime, tool: &str) -> (r: Option<String>)
    ensures
        r matches Some(p) ==> p@ == tool@,
{
    let args = probe_args();
    if run_process(rt, tool, &args).into_result().is_ok() {
        Some(to_owned_string(tool))
    } else {
        None
    }
}

fn with_code(args: &Vec<&'static str>, code: &str) -> (r: Vec<String>)
    ensures
        strings_of(r@) == strs_view(args@).push(code@),
{
    let mut r: Vec<String> = Vec::new();
    let mut i: usize = 0;
    while i < args.len()
        invariant
            i <= args.len(),
            strings_of(r@) == strs_view(args@).take(i as int),
        decreases args.len() - i,
    {
        let ghost b = r@;
        assert(strings_of(b).len() == b.len());
        let a = to_owned_string(args[i]);
        r.push(a);
        assert(r@ == b.push(a));
        assert(strings_of(r@) =~= strs_view(args@).take(i + 1));
        i += 1;
    }
    let ghost b = r@;
    assert(strings_of(b).len() == b.len());
    let c = to_owned_string(code);
    r.push(c);
    assert(r@ == b.push(c));
    assert(strs_view(args@).take(args@.len() as int) =~= strs_view(args@));
    assert(strings_of(r@) =~= strs_view(args@).push(code@));
    r
}

/// The plain contents of a sequence of strings.
pub open spec fn strings_of(s: Seq<String>) -> Seq<Seq<char>> {
    s.map_values(|x: String| x@)
}

/// Runs `tool` with `args` and the whole code as last argument, and gives
/// what that run gives (see `inline_output`), with the run itself: it was
/// made with `tool`, and with the command's arguments followed by the code.
pub(crate) fn run_inline(rt: &tokio::runtime::Runtime, tool: &str, args: &Vec<&'static str>, code: &str) -> (r: (Option<String>, ProcessRun))
    ensures
        r.1.program() == tool@,
        r.1.arguments() == strs_view(args@).push(code@),
        opt_str(r.0) == inline_output(r.1.outcome()),
        inline_outcome(opt_str(r.0)),
{
    let full = with_code(args, code);
    let run = run_process(rt, tool, &full);
    assert(strings_of(full@) == full@.map_values(|a: String| a@));
    let r = result_inline(run.result());
    assert(inline_output(run.outcome()) == opt_str(r));
    (r, run)
}

/// The arguments with their placeholders replaced, for the input file
/// `input` and the output file `output` in `dir` (see `spec_resolve_arg`).
pub open spec fn resolved(args: Seq<Seq<char>>, dir: Seq<char>, input: Seq<char>, output: Seq<char>) -> Seq<Seq<char>> {
    Seq::new(args.len(), |i: int| spec_resolve_arg(args[i], dir, input, output))
}

/// What running code from a file takes: the file, what it holds, and the
/// program's arguments.
pub struct FileRun {
    pub input: String,
    pub contents: String,
    pub args: Vec<String>,
}

/// How code is run from a file in `temp_dir`: the file is `main` there and
/// holds the code; the arguments have their placeholders replaced (the
/// output file being `output` there).
pub fn file_run(args: &Vec<&'static str>, code: &str, temp_dir: &str) -> (r: FileRun)
    ensures
        r.input@ == path_join(temp_dir@, "main"@),
        r.contents@ == code@,
        strings_of(r.args@) == resolved(strs_view(args@), temp_dir@, path_join(temp_dir@, "main"@), path_join(temp_dir@, "output"@)),
{
    let input = join_path(temp_dir, "main");
    let output = join_path(temp_dir, "output");
    let a = resolve_args(args, temp_dir, input.as_str(), output.as_str());
    proof {
        reveal_strlit("main");
        reveal_strlit("output");
        assert(strings_of(a@) =~= resolved(strs_view(args@), temp_dir@, input@, output@));
    }
    FileRun { input, contents: to_owned_string(code), args: a }
}

/// What compiling and running code takes: the source file and what it
/// holds, the program built, the compiler's arguments, and the program run
/// with its arguments.
pub struct CompileRun {
    pub input: String,
    pub output: String,
    pub contents: String,
    pub compile_args: Vec<String>,
    pub run_tool: String,
    pub run_args: Vec<String>,
}

/// How code is compiled and run in `temp_dir`: the source is `main` there
/// and holds the code, the program built is `output` there, and every
/// argument, and the program run, have their placeholders replaced.
pub fn compile_run(compile: &ExecCommand, run: &ExecCommand, code: &str, temp_dir: &str) -> (r: CompileRun)
    ensures
        r.input@ == path_join(temp_dir@, "main"@),
        r.output@ == path_join(temp_dir@, "output"@),
        r.contents@ == code@,
        strings_of(r.compile_args@) == resolved(compile@.args, temp_dir@, r.input@, r.output@),
        r.run_tool@ == spec_resolve_arg(run@.tool, temp_dir@, r.input@, r.output@),
        strings_of(r.run_args@) == resolved(run@.args, temp_dir@, r.input@, r.output@),
{
    let input = join_path(temp_dir, "main");
    let output = join_path(temp_dir, "output");
    let ca = resolve_args(&compile.args, temp_dir, input.as_str(), output.as_str());
    let tool = resolve_arg_compile(run.tool, temp_dir, input.as_str(), output.as_str());
    let ra = resolve_args(&run.args, temp_dir, input.as_str(), output.as_str());
    proof {
        assert(compile@.args == strs_view(compile.args@));
        assert(run@.args == strs_view(run.args@));
        assert(strings_of(ca@) =~= resolved(compile@.args, temp_dir@, input@, output@));
        assert(strings_of(ra@) =~= resolved(run@.args, temp_dir@, input@, output@));
    }
    CompileRun { input, output, contents: to_owned_string(code), compile_args: ca, run_tool: tool, run_args: ra }
}

/// Writes the code to `main` in the temporary directory and runs `tool` with
/// `args` (see `file_run` and `file_output`); the directory is removed
/// afterwards. Comes back with the write of the file, when the directory
/// could be made: it wrote the whole code to `main` there; and with the run,
/// made exactly when the write succeeded, with `tool` and the arguments of
/// `file_run`: the result is what it gives.
pub(crate) fn run_with_file(rt: &tokio::runtime::Runtime, tool: &str, args: &Vec<&'static str>, code: &str, temp_dir: &str) -> (r: (Option<String>, Option<ProcessRun>, Option<FileWrite>))
    ensures
        r.2 matches Some(w) ==> {
            &&& w.target() == path_join(temp_dir@, "main"@)
            &&& w.written() == code@
            &&& (r.1 is Some <==> w.outcome() is Ok)
        },
        r.2 is None ==> r.1 is None,
        r.1 matches Some(run) ==> {
            &&& run.program() == tool@
            &&& run.arguments() == resolved(strs_view(args@), temp_dir@, path_join(temp_dir@, "main"@), path_join(temp_dir@, "output"@))
            &&& opt_str(r.0) == file_output(run.outcome())
        },
        r.1 is None ==> r.0 is None,
        file_outcome(opt_str(r.0)),
{
    if let Err(e) = create_dir_all(rt, temp_dir) {
        assert(file_output(Err(e)) == opt_str(None));
        return (None, None, None);
    }
    let plan = file_run(args, code, temp_dir);
    let write = write_file(rt, plan.input.as_str(), plan.contents.as_str());
    if write.is_err() {
        assert(file_output(Err(write.outcome()->Err_0)) == opt_str(None));
        return (None, None, Some(write));
    }
    let run = run_process(rt, tool, &plan.args);
    assert(strings_of(plan.args@) == plan.args@.map_values(|a: String| a@));
    let _ = remove_dir_all(rt, temp_dir);
    let r = result_file(run.result());
    assert(file_output(run.outcome()) == opt_str(r));
    (r, Some(run), Some(write))
}

/// What a compilation decides (`compiled` is what running the compiler gave):
/// `None` when it succeeded and the program is to be run; otherwise the
/// result of the whole run, the program not being run: nothing when the
/// compiler could not be started, `Compile error: ` with what it printed
/// (see `compile_error_message`) when it failed.
pub fn compile_decision(compiled: &Result<ProcessOutput, String>) -> (r: Option<Option<String>>)
    ensures
        match *compiled {
            Err(_) => r == Some(None::<String>),
            Ok(o) => if o.success {
                r is None
            } else {
                r matches Some(Some(t)) && t@ == compile_error_message(o)
            },
        },
{
    match compiled {
        Err(_) => Some(None),
        Ok(o) => {
            if o.success {
                None
            } else {
                let text = concat("Compile error: ", utf8_lossy(&o.stdout).as_str());
                let text = concat(text.as_str(), utf8_lossy(&o.stderr).as_str());
                Some(Some(trim_string(text.as_str())))
            }
        },
    }
}

/// Writes the code to `main` in the temporary directory, compiles it, and
/// runs the result (see `compile_run`): a failed compilation gives `Compile
/// error: ...` and the program is not run (see `compile_decision`), a run
/// gives its output (see `compiled_output`). Comes back with the write of
/// the file, when the directory could be made: it wrote the whole code to
/// `main` there; the compiler's run, made exactly when the write succeeded;
/// and the program's run, made exactly when the compilation succeeded; each
/// run with the program and arguments of `compile_run`.
fn run_with_compile(
    rt: &tokio::runtime::Runtime,
    compile: &ExecCommand,
    run: &ExecCommand,
    code: &str,
    temp_dir: &str,
) -> (r: (Option<String>, Option<ProcessRun>, Option<ProcessRun>, Option<FileWrite>))
    ensures
        ({
            let input = path_join(temp_dir@, "main"@);
            let output = path_join(temp_dir@, "output"@);
            &&& r.3 matches Some(w) ==> {
                &&& w.target() == input
                &&& w.written() == code@
                &&& (r.1 is Some <==> w.outcome() is Ok)
            }
            &&& r.3 is None ==> r.1 is None
            &&& r.1 matches Some(c) ==> {
                &&& c.program() == compile@.tool
                &&& c.arguments() == resolved(compile@.args, temp_dir@, input, output)
                &&& (r.2 is Some <==> (c.outcome() is Ok && c.outcome()->Ok_0.success))
                &&& (c.outcome() is Err ==> r.0 is None)
                &&& ((c.outcome() is Ok && !c.outcome()->Ok_0.success) ==> opt_str(r.0) == Some(compile_error_message(c.outcome()->Ok_0)))
            }
            &&& r.2 matches Some(x) ==> {
                &&& r.1 is Some
                &&& x.program() == spec_resolve_arg(run@.tool, temp_dir@, input, output)
                &&& x.arguments() == resolved(run@.args, temp_dir@, input, output)
                &&& opt_str(r.0) == compiled_output(x.outcome())
            }
            &&& r.1 is None ==> r.0 is None && r.2 is None
        }),
        compiled_outcome(opt_str(r.0)),
{
    if let Err(e) = create_dir_all(rt, temp_dir) {
        assert(compiled_output(Err(e)) == opt_str(None));
        return (None, None, None, None);
    }
    let plan = compile_run(compile, run, code, temp_dir);
    let write = write_file(rt, plan.input.as_str(), plan.contents.as_str());
    if write.is_err() {
        assert(compiled_output(Err(write.outcome()->Err_0)) == opt_str(None));
        return (None, None, None, Some(write));
    }
    let compiler = run_process(rt, compile.tool, &plan.compile_args);
    assert(strings_of(plan.compile_args@) == plan.compile_args@.map_values(|a: String| a@));
    if let Some(r) = compile_decision(compiler.result()) {
        proof {
            match compiler.outcome() {
                Err(e) => assert(compiled_output(Err(e)) == opt_str(r)),
                Ok(o) => assert(opt_str(r) == Some(compile_error_message(o))),
            }
        }
        return (r, Some(compiler), None, Some(write));
    }
    let program = run_process(rt, plan.run_tool.as_str(), &plan.run_args);
    assert(strings_of(plan.run_args@) == plan.run_args@.map_values(|a: String| a@));
    let _ = remove_file(rt, plan.input.as_str());
    let _ = remove_file(rt, plan.output.as_str());
    let r = result_compiled(program.result());
    assert(compiled_output(program.outcome()) == opt_str(r));
    (r, Some(compiler), Some(program), Some(write))
}

/// The tool whose presence decides whether a command can be used: the
/// compiler for compiled languages, the runner otherwise.
pub fn tool_to_check(cmd: &CommandTemplate) -> (r: &'static str)
    ensures
        r@ == match cmd@.compile {
            Some(c) => c.tool,
            None => cmd@.run.tool,
        },
{
    match &cmd.compile {
        Some(c) => c.tool,
        None => cmd.run.tool,
    }
}

/// The strings of a sequence joined with `, `.
pub open spec fn join_comma(s: Seq<Seq<char>>) -> Seq<char>
    decreases s.len(),
{
    if s.len() == 0 {
        Seq::empty()
    } else if s.len() == 1 {
        s[0]
    } else {
        join_comma(s.drop_last()) + seq![',', ' '] + s.last()
    }
}

/// The run tools of a language's commands.
pub open spec fn run_tools(c: LanguageConfigView) -> Seq<Seq<char>> {
    c.commands.map_values(|t: crate::execute_code_blocks::language_config::CommandTemplateView| t.run.tool)
}

/// `Error: No runtime found for {first alias}. Available: {run tools, comma-separated}`.
pub open spec fn no_runtime_message(c: LanguageConfigView) -> Seq<char> {
    "Error: No runtime found for "@ + c.aliases[0] + ". Available: "@ + join_comma(run_tools(c))
}

/// The message for a language none of whose commands could be used.
pub fn no_runtime_found(config: &LanguageConfig) -> (r: String)
    requires
        config.aliases@.len() > 0,
    ensures
        r@ == no_runtime_message(config@),
{
    let mut r = concat("Error: No runtime found for ", config.aliases[0]);
    r = concat(r.as_str(), ". Available: ");
    let ghost tools = run_tools(config@);
    let ghost start = r@;
    let mut i: usize = 0;
    while i < config.commands.len()
        invariant
            i <= config.commands@.len(),
            tools == run_tools(config@),
            r@ == start + join_comma(tools.take(i as int)),
        decreases config.commands@.len() - i,
    {
        if i > 0 {
            r = concat(r.as_str(), ", ");
        }
        r = concat(r.as_str(), config.commands[i].run.tool);
        proof {
            reveal_strlit(", ");
            let t = tools.take(i + 1);
            assert(t.drop_last() =~= tools.take(i as int));
            assert(t.last() == config.commands@[i as int].run.tool@);
            if i == 0 {
                assert(t =~= seq![config.commands@[0].run.tool@]);
            }
        }
        i += 1;
    }
    assert(tools.take(config.commands@.len() as int) =~= tools);
    r
}

/// What a command can give, whatever its programs did: for a compiled
/// language what compiling and running gives, otherwise what running its
/// program, with the code inline or on a file, gives.
pub open spec fn command_result(c: crate::execute_code_blocks::language_config::CommandTemplateView, t: Seq<char>) -> bool {
    match c.compile {
        Some(_) => compiled_outcome(Some(t)),
        None => if c.run.inline {
            inline_outcome(Some(t))
        } else {
            file_outcome(Some(t))
        },
    }
}

/// What running code in a language can give, whatever its programs did:
/// what one of its commands gives, or the message of `no_runtime_message`.
pub open spec fn language_result(c: LanguageConfigView, t: Seq<char>) -> bool {
    t == no_runtime_message(c) || exists|i: int| 0 <= i < c.commands.len() && #[trigger] command_result(c.commands[i], t)
}

/// Every output a run can give is trimmed (it has no whitespace at either
/// end): that of a program given the code inline or on a file, or of a
/// compiled program, or a compile error.
pub proof fn lemma_outcomes_trimmed(t: Seq<char>)
    requires
        compiled_outcome(Some(t)) || inline_outcome(Some(t)) || file_outcome(Some(t)),
    ensures
        trim(t) == t,
{
    if exists|o: ProcessOutput| !o.success && Some(t) == Some(#[trigger] compile_error_message(o)) {
        let o = choose|o: ProcessOutput| !o.success && Some(t) == Some(#[trigger] compile_error_message(o));
        crate::text::lemma_trim_idempotent("Compile error: "@ + lossy_utf8(o.stdout@) + lossy_utf8(o.stderr@));
    } else if exists|out: Result<ProcessOutput, String>| #[trigger] compiled_output(out) == Some(t) {
        let out = choose|out: Result<ProcessOutput, String>| #[trigger] compiled_output(out) == Some(t);
        if let Ok(o) = out {
            crate::text::lemma_trim_idempotent(lossy_utf8(o.stdout@));
            crate::text::lemma_trim_idempotent(lossy_utf8(o.stdout@) + lossy_utf8(o.stderr@));
        }
    } else if inline_outcome(Some(t)) {
        let out = choose|out: Result<ProcessOutput, String>| #[trigger] inline_output(out) == Some(t);
        if let Ok(o) = out {
            crate::text::lemma_trim_idempotent(lossy_utf8(o.stdout@));
        }
    } else {
        let out = choose|out: Result<ProcessOutput, String>| #[trigger] file_output(out) == Some(t);
        if let Ok(o) = out {
            crate::text::lemma_trim_idempotent(lossy_utf8(o.stdout@));
            crate::text::lemma_trim_idempotent(lossy_utf8(o.stdout@) + lossy_utf8(o.stderr@));
        }
    }
}

/// Every output a command can give is trimmed: it has no whitespace at
/// either end.
pub proof fn lemma_command_result_trimmed(c: crate::execute_code_blocks::language_config::CommandTemplateView, t: Seq<char>)
    requires
        command_result(c, t),
    ensures
        trim(t) == t,
{
    lemma_outcomes_trimmed(t);
}

/// The first output among the results of the commands tried, from `i` on,
/// in order.
pub open spec fn first_output(results: Seq<Option<Seq<char>>>, i: int) -> Option<Seq<char>>
    decreases results.len() - i,
{
    if i < 0 || i >= results.len() {
        None
    } else if results[i] is Some {
        results[i]
    } else {
        first_output(results, i + 1)
    }
}

/// The plain contents of a sequence of optional strings.
pub open spec fn opt_strs(s: Seq<Option<String>>) -> Seq<Option<Seq<char>>> {
    s.map_values(|o: Option<String>| opt_str(o))
}

/// The output of the first command that gave one (`results` holds what each
/// command tried gave, in order), or `fallback` when none did.
pub fn first_or(results: &Vec<Option<String>>, fallback: String) -> (r: String)
    ensures
        r@ == match first_output(opt_strs(results@), 0) {
            Some(t) => t,
            None => fallback@,
        },
{
    let ghost v = opt_strs(results@);
    let mut i: usize = 0;
    while i < results.len()
        invariant
            i <= results@.len(),
            v == opt_strs(results@),
            first_output(v, 0) == first_output(v, i as int),
        decreases results@.len() - i,
    {
        assert(v[i as int] == opt_str(results@[i as int]));
        match &results[i] {
            Some(t) => {
                return to_owned_string(t.as_str());
            },
            None => {},
        }
        i += 1;
    }
    fallback
}

/// When the results before `m` are all `None` from `j` on, the first output
/// from `j` is that of `m`.
pub proof fn lemma_first_output_at(s: Seq<Option<Seq<char>>>, j: int, m: int)
    requires
        0 <= j <= m < s.len(),
        forall|k: int| j <= k < m ==> s[k] is None,
    ensures
        first_output(s, j) == (if s[m] is Some { s[m] } else { first_output(s, m + 1) }),
    decreases m - j,
{
    if j < m {
        lemma_first_output_at(s, j + 1, m);
    }
}

/// When every result from `j` on is `None`, there is no first output.
pub proof fn lemma_first_output_none(s: Seq<Option<Seq<char>>>, j: int)
    requires
        0 <= j,
        forall|k: int| j <= k < s.len() ==> s[k] is None,
    ensures
        first_output(s, j) is None,
    decreases s.len() - j,
{
    if j < s.len() {
        lemma_first_output_none(s, j + 1);
    }
}

/// What trying the commands of language `c` in order can give, whatever the
/// programs did: `results` holds what each command tried gave (nothing when
/// its tool was not found or its run gave no output, otherwise what the
/// command can give, see `command_result`); the commands are tried until one
/// gives an output; the result is that output, or the message of
/// `no_runtime_message` when none gave one.
pub open spec fn tried_commands(c: LanguageConfigView, results: Seq<Option<Seq<char>>>, t: Seq<char>) -> bool {
    &&& results.len() <= c.commands.len()
    &&& forall|k: int| 0 <= k < results.len() ==> (#[trigger] results[k] matches Some(x) ==> command_result(c.commands[k], x))
    &&& forall|k: int| 0 <= k < results.len() - 1 ==> #[trigger] results[k] is None
    &&& results.len() < c.commands.len() ==> results.len() > 0 && results.last() is Some
    &&& t == match first_output(results, 0) {
        Some(x) => x,
        None => no_runtime_message(c),
    }
}

/// Runs `code` with the first of the language's commands whose tool is
/// available and that produces an output; when none does, the message of
/// `no_runtime_found` (see `tried_commands`, and `first_or`, which picks the
/// output). Which tools are there and what the programs print depend on the
/// machine. Any output is trimmed.
pub fn execute_language(rt: &tokio::runtime::Runtime, config: &LanguageConfig, code: &str) -> (r: String)
    requires
        config.aliases@.len() > 0,
    ensures
        exists|results: Seq<Option<Seq<char>>>| #[trigger] tried_commands(config@, results, r@),
        config.commands@.len() == 0 ==> r@ == no_runtime_message(config@),
        language_result(config@, r@),
        r@ == no_runtime_message(config@) || trim(r@) == r@,
{
    let mut results: Vec<Option<String>> = Vec::new();
    let mut done = false;
    let mut i: usize = 0;
    while i < config.commands.len() && !done
        invariant
            i <= config.commands@.len(),
            results@.len() == i,
            forall|k: int| 0 <= k < i ==> (#[trigger] opt_strs(results@)[k] matches Some(x) ==> command_result(config@.commands[k], x)),
            !done ==> forall|k: int| 0 <= k < i ==> #[trigger] opt_strs(results@)[k] is None,
            done ==> i > 0 && opt_strs(results@)[i - 1] is Some && forall|k: int| 0 <= k < i - 1 ==> #[trigger] opt_strs(results@)[k] is None,
        decreases config.commands@.len() - i,
    {
        let cmd = &config.commands[i];
        assert(config@.commands[i as int] == cmd@);
        let attempt = if detect_tool(rt, tool_to_check(cmd)).is_some() {
            match &cmd.compile {
                Some(compile) => run_with_compile(rt, compile, &cmd.run, code, unique_temp_dir()).0,
                None => if cmd.run.inline {
                    run_inline(rt, cmd.run.tool, &cmd.run.args, code).0
                } else {
                    run_with_file(rt, cmd.run.tool, &cmd.run.args, code, unique_temp_dir()).0
                },
            }
        } else {
            None
        };
        proof {
            if let Some(x) = opt_str(attempt) {
                assert(command_result(config@.commands[i as int], x));
            }
        }
        done = attempt.is_some();
        let ghost before = results@;
        results.push(attempt);
        assert(opt_strs(results@) =~= opt_strs(before).push(opt_str(attempt)));
        i += 1;
    }
    let ghost v = opt_strs(results@);
    let message = no_runtime_found(config);
    let r = first_or(&results, message);
    proof {
        if done {
            lemma_first_output_at(v, 0, i - 1);
            let x = v[i - 1]->Some_0;
            assert(command_result(config@.commands[i - 1], x));
            lemma_command_result_trimmed(config@.commands[i - 1], x);
        } else {
            lemma_first_output_none(v, 0);
        }
        assert(tried_commands(config@, v, r@));
    }
    r
}

/// Every language of the built-in table has at least one alias.
proof fn lemma_table_aliases(lang: Seq<char>)
    ensures
        spec_find_language(lang) matches Some(c) ==> c.aliases.len() > 0,
{
    crate::execute_code_blocks::language_config::lemma_first_config_with(
        crate::execute_code_blocks::default_language_config::language_table(),
        lang,
        0,
    );
}

/// Runs `code` as the language `lang`: `None` when the built-in table does
/// not know `lang` (nothing is run), otherwise what `execute_language` gives
/// for the language (the message of `no_runtime_found` when no runtime for
/// running programs can be set up, as when none of its tools can be run;
/// see `block_result`).
pub fn execute_code(lang: &str, code: &str) -> (r: Option<String>)
    ensures
        r is Some <==> spec_find_language(lang@) is Some,
        r matches Some(s) ==> block_result(lang@, s@),
        r matches Some(s) ==> language_result(spec_find_language(lang@)->Some_0, s@),
        r matches Some(s) ==> s@ == no_runtime_message(spec_find_language(lang@)->Some_0) || trim(s@) == s@,
{
    let config = find_language(lang);
    match config {
        None => None,
        Some(config) => {
            proof {
                lemma_table_aliases(lang@);
            }
            match new_runtime() {
                Ok(rt) => {
                    let t = execute_language(&rt, &config, code);
                    proof {
                        let w = choose|results: Seq<Option<Seq<char>>>| tried_commands(config@, results, t@);
                        assert(config@ == spec_find_language(lang@)->Some_0);
                        assert(tried_commands(spec_find_language(lang@)->Some_0, w, t@));
                        assert(block_result(lang@, t@));
                    }
                    Some(t)
                },
                Err(_) => {
                    let t = no_runtime_found(&config);
                    proof {
                        let none: Seq<Option<Seq<char>>> = Seq::new(config@.commands.len(), |k: int| None::<Seq<char>>);
                        assert forall|k: int| 0 <= k < none.len() implies #[trigger] none[k] is None by {}
                        lemma_first_output_none(none, 0);
                        assert(first_output(none, 0) is None);
                        assert(tried_commands(config@, none, t@));
                        assert(config@ == spec_find_language(lang@)->Some_0);
                        assert(tried_commands(spec_find_language(lang@)->Some_0, none, t@));
                        assert(block_result(lang@, t@));
                    }
                    Some(t)
                },
            }
        },
    }
}

/// `Error: No runtime found`
pub open spec fn no_runtime_error() -> Seq<char> {
    "Error: No runtime found"@
}

/// What running a block in `lang` can give, whatever the programs did:
/// `Error: No runtime found` for a language the built-in table does not
/// know, otherwise what trying its commands can give (see `tried_commands`).
pub open spec fn block_result(lang: Seq<char>, t: Seq<char>) -> bool {
    match spec_find_language(lang) {
        None => t == no_runtime_error(),
        Some(c) => exists|results: Seq<Option<Seq<char>>>| #[trigger] tried_commands(c, results, t),
    }
}

/// The output of each block, in order: entry `i` is what running block `i`
/// gives (see `block_result`); a block whose language is unknown gets
/// `Error: No runtime found`.
pub fn execute_code_blocks(blocks: &Vec<ExecutableCodeBlock>) -> (r: Vec<String>)
    ensures
        r@.len() == blocks@.len(),
        forall|i: int|
            0 <= i < blocks@.len() && spec_find_language(#[trigger] blocks@[i].lang@) is None
                ==> r@[i]@ == no_runtime_error(),
        forall|i: int| 0 <= i < blocks@.len() ==> block_result(blocks@[i].lang@, #[trigger] r@[i]@),
{
    let mut r: Vec<String> = Vec::new();
    let mut i: usize = 0;
    while i < blocks.len()
        invariant
            i <= blocks@.len(),
            r@.len() == i,
            forall|j: int|
                0 <= j < i && spec_find_language(#[trigger] blocks@[j].lang@) is None
                    ==> r@[j]@ == no_runtime_error(),
            forall|j: int| 0 <= j < i ==> block_result(blocks@[j].lang@, #[trigger] r@[j]@),
        decreases blocks@.len() - i,
    {
        let out = execute_code(blocks[i].lang.as_str(), blocks[i].code.as_str());
        let s = match out {
            Some(s) => s,
            None => to_owned_string("Error: No runtime found"),
        };
        r.push(s);
        i += 1;
    }
    r
}

} // verus!
