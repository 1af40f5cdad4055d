//! Running code with a flat command table: each way of running a language
//! is one program with its arguments, and a compiled language names the
//! program that runs what it built. The table holds the same languages and
//! programs as the built-in table of `execute_code_blocks`.
use crate::execute_code_blocks::default_language_config::{spec_find_language, find_language as find_config};
use crate::execute_code_blocks::language_config::{
    strs_view, CommandTemplateView, ExecutableCodeBlock, LanguageConfig as Config,
};
use crate::execute_code_blocks::sync_execution::{
    compile_decision, compile_error_message, compiled_outcome, compiled_output, detect_tool, file_outcome, first_or,
    first_output, inline_outcome, join_path, join_comma, lemma_first_output_at, lemma_first_output_none,
    lemma_outcomes_trimmed, opt_str, opt_strs, path_join, resolve_arg_compile, resolve_args, resolved,
    result_compiled, run_inline, run_with_file, spec_resolve_arg, strings_of, unique_temp_dir, CompileRun,
};
use crate::process::{create_dir_all, new_runtime, remove_file, run_process, write_file, FileWrite, ProcessRun};
use crate::text::{concat, to_owned_string, trim};
use vstd::prelude::*;

verus! {

/// One way to run code: the program, its arguments, whether the code is
/// its last argument (otherwise it is written to a file first), and, for a
/// compiled language, the program (and its arguments) that runs what was built.
pub struct CommandTemplate {
    pub tool: &'static str,
    pub args: Vec<&'static str>,
    pub inline: bool,
    pub run_after: Option<(&'static str, Vec<&'static str>)>,
}

/// The names a language goes by and the ways to run it, in order of preference.
pub struct LanguageConfig {
    pub aliases: Vec<&'static str>,
    pub commands: Vec<CommandTemplate>,
}

/// The plain contents of a `CommandTemplate`.
pub struct FlatCommandView {
    pub tool: Seq<char>,
    pub args: Seq<Seq<char>>,
    pub inline: bool,
    pub run_after: Option<(Seq<char>, Seq<Seq<char>>)>,
}

/// The plain contents of a `LanguageConfig`.
pub struct FlatConfigView {
    pub aliases: Seq<Seq<char>>,
    pub commands: Seq<FlatCommandView>,
}

impl View for CommandTemplate {
    type V = FlatCommandView;

    open spec fn view(&self) -> FlatCommandView {
        FlatCommandView {
            tool: self.tool@,
            args: strs_view(self.args@),
            inline: self.inline,
            run_after: match &self.run_after {
                Some((t, a)) => Some((t@, strs_view(a@))),
                None => None,
            },
        }
    }
}

impl View for LanguageConfig {
    type V = FlatConfigView;

    open spec fn view(&self) -> FlatConfigView {
        FlatConfigView { aliases: strs_view(self.aliases@), commands: command_views(self.commands@) }
    }
}

/// A command of the built-in table as one flat command: a compiled
/// language's compiler, run by the program it names.
pub open spec fn flat_command(c: CommandTemplateView) -> FlatCommandView {
    match c.compile {
        Some(k) => FlatCommandView { tool: k.tool, args: k.args, inline: k.inline, run_after: Some((c.run.tool, c.run.args)) },
        None => FlatCommandView { tool: c.run.tool, args: c.run.args, inline: c.run.inline, run_after: None },
    }
}

/// The plain contents of a list of commands.
pub open spec fn command_views(s: Seq<CommandTemplate>) -> Seq<FlatCommandView> {
    s.map_values(|c: CommandTemplate| c@)
}

/// Commands of the built-in table, made flat.
pub open spec fn flat_commands(s: Seq<CommandTemplateView>) -> Seq<FlatCommandView> {
    s.map_values(|t: CommandTemplateView| flat_command(t))
}

/// The plain contents of a list of commands of the built-in table.
pub open spec fn table_views(s: Seq<crate::execute_code_blocks::language_config::CommandTemplate>) -> Seq<CommandTemplateView> {
    s.map_values(|t: crate::execute_code_blocks::language_config::CommandTemplate| t@)
}

/// A language of the built-in table with its commands made flat.
pub open spec fn flat_config(c: crate::execute_code_blocks::language_config::LanguageConfigView) -> FlatConfigView {
    FlatConfigView { aliases: c.aliases, commands: flat_commands(c.commands) }
}

fn flatten(config: Config) -> (r: LanguageConfig)
    ensures
        r@ == flat_config(config@),
{
    let Config { aliases, commands } = config;
    let ghost cv = table_views(commands@);
    assert(config@.commands == cv);
    let mut out: Vec<CommandTemplate> = Vec::new();
    let ghost mut pos: int = 0;
    for t in it: commands.into_iter()
        invariant
            table_views(it.seq()) == cv,
            pos == it.index(),
            command_views(out@) == flat_commands(cv.take(pos)),
    {
        assert(t == it.seq()[pos]);
        assert(t@ == cv[pos]);
        let f = match t.compile {
            Some(k) => CommandTemplate { tool: k.tool, args: k.args, inline: k.inline, run_after: Some((t.run.tool, t.run.args)) },
            None => CommandTemplate { tool: t.run.tool, args: t.run.args, inline: t.run.inline, run_after: None },
        };
        assert(f@ == flat_command(cv[pos]));
        let ghost ob = out@;
        out.push(f);
        proof {
            assert(out@ == ob.push(f));
            assert(cv.take(pos + 1) =~= cv.take(pos).push(cv[pos]));
            assert(command_views(out@) =~= command_views(ob).push(f@));
            assert(flat_commands(cv.take(pos + 1)) =~= flat_commands(cv.take(pos)).push(flat_command(cv[pos])));
            pos = pos + 1;
        }
    }
    assert(cv.take(cv.len() as int) =~= cv);
    LanguageConfig { aliases, commands: out }
}

/// The configuration for `lang`: the built-in table's, made flat; `None`
/// when no language is called `lang`.
pub fn find_language(lang: &str) -> (r: Option<LanguageConfig>)
    ensures
        match spec_find_language(lang@) {
            Some(c) => r matches Some(x) && x@ == flat_config(c),
            None => r is None,
        },
{
    match find_config(lang) {
        Some(c) => Some(flatten(c)),
        None => None,
    }
}

/// Whether a language is called `lang`.
pub fn is_executable(lang: &str) -> (r: bool)
    ensures
        r == spec_find_language(lang@) is Some,
{
    find_language(lang).is_some()
}

/// The programs of a language's commands.
pub open spec fn flat_tools(c: FlatConfigView) -> Seq<Seq<char>> {
    c.commands.map_values(|t: FlatCommandView| t.tool)
}

/// `Error: No runtime found for {first alias}. Available: {programs, comma-separated}`.
pub open spec fn flat_no_runtime(c: FlatConfigView) -> Seq<char> {
    "Error: No runtime found for "@ + c.aliases[0] + ". Available: "@ + join_comma(flat_tools(c))
}

fn no_runtime(config: &LanguageConfig) -> (r: String)
    requires
        config.aliases@.len() > 0,
    ensures
        r@ == flat_no_runtime(config@),
{
    let mut r = concat("Error: No runtime found for ", config.aliases[0]);
    r = concat(r.as_str(), ". Available: ");
    let ghost tools = flat_tools(config@);
    let ghost start = r@;
    let mut i: usize = 0;
    while i < config.commands.len()
        invariant
            i <= config.commands@.len(),
            tools == flat_tools(config@),
            r@ == start + join_comma(tools.take(i as int)),
        decreases config.commands@.len() - i,
    {
        if i > 0 {
            r = concat(r.as_str(), ", ");
        }
        r = concat(r.as_str(), config.commands[i].tool);
        proof {
            reveal_strlit(", ");
            let t = tools.take(i + 1);
            assert(t.drop_last() =~= tools.take(i as int));
            assert(t.last() == config.commands@[i as int].tool@);
            if i == 0 {
                assert(t =~= seq![config.commands@[0].tool@]);
            }
        }
        i += 1;
    }
    assert(tools.take(config.commands@.len() as int) =~= tools);
    r
}

/// How code is built and run in `temp_dir` by a command that runs what it
/// built: the source is `main` there and holds the code, what is built is
/// `output` there, and the arguments of both programs, and the program run,
/// have their placeholders replaced.
pub fn build_run(args: &Vec<&'static str>, after_tool: &str, after_args: &Vec<&'static str>, code: &str, temp_dir: &str) -> (r: CompileRun)
    ensures
        r.input@ == path_join(temp_dir@, "main"@),
        r.output@ == path_join(temp_dir@, "output"@),
        r.contents@ == code@,
        strings_of(r.compile_args@) == resolved(strs_view(args@), temp_dir@, r.input@, r.output@),
        r.run_tool@ == spec_resolve_arg(after_tool@, temp_dir@, r.input@, r.output@),
        strings_of(r.run_args@) == resolved(strs_view(after_args@), temp_dir@, r.input@, r.output@),
{
    let input = join_path(temp_dir, "main");
    let output = join_path(temp_dir, "output");
    let ca = resolve_args(args, temp_dir, input.as_str(), output.as_str());
    let tool = resolve_arg_compile(after_tool, temp_dir, input.as_str(), output.as_str());
    let ra = resolve_args(after_args, temp_dir, input.as_str(), output.as_str());
    proof {
        assert(strings_of(ca@) =~= resolved(strs_view(args@), temp_dir@, input@, output@));
        assert(strings_of(ra@) =~= resolved(strs_view(after_args@), temp_dir@, input@, output@));
    }
    CompileRun { input, output, contents: to_owned_string(code), compile_args: ca, run_tool: tool, run_args: ra }
}

/// Writes the code to `main` in the temporary directory, runs `tool` with
/// `args`, and runs what it built with `after_tool` and `after_args` (see
/// `build_run`): a failed build gives `Compile error: ` with what the
/// compiler printed, trimmed, and nothing more is run (see
/// `compile_decision`); a run gives its output (see `compiled_output` of the
/// built-in runner). Comes back with the write of the file, when the
/// directory could be made: it wrote the whole code to `main` there; the
/// build, made exactly when the write succeeded; and the run of what it
/// built, made exactly when the build succeeded; each with the program and
/// arguments of `build_run`.
fn run_with_file_and_after(
    rt: &tokio::runtime::Runtime,
    tool: &str,
    args: &Vec<&'static str>,
    code: &str,
    temp_dir: &str,
    after_tool: &str,
    after_args: &Vec<&'static str>,
) -> (r: (Option<String>, Option<ProcessRun>, Option<ProcessRun>, Option<FileWrite>))
    ensures
        ({
            let input = path_join(temp_dir@, "main"@);
            let output = path_join(temp_dir@, "output"@);
            &&& r.3 matches Some(w) ==> {
                &&& w.target() == input
                &&& w.written() == code@
                &&& (r.1 is Some <==> w.outcome() is Ok)
            }
            &&& r.3 is None ==> r.1 is None
            &&& r.1 matches Some(c) ==> {
                &&& c.program() == tool@
                &&& c.arguments() == resolved(strs_view(args@), temp_dir@, input, output)
                &&& (r.2 is Some <==> (c.outcome() is Ok && c.outcome()->Ok_0.success))
                &&& (c.outcome() is Err ==> r.0 is None)
                &&& ((c.outcome() is Ok && !c.outcome()->Ok_0.success) ==> opt_str(r.0) == Some(compile_error_message(c.outcome()->Ok_0)))
            }
            &&& r.2 matches Some(x) ==> {
                &&& r.1 is Some
                &&& x.program() == spec_resolve_arg(after_tool@, temp_dir@, input, output)
                &&& x.arguments() == resolved(strs_view(after_args@), temp_dir@, input, output)
                &&& opt_str(r.0) == compiled_output(x.outcome())
            }
            &&& r.1 is None ==> r.0 is None && r.2 is None
        }),
        compiled_outcome(opt_str(r.0)),
{
    if let Err(e) = create_dir_all(rt, temp_dir) {
        assert(compiled_output(Err(e)) == opt_str(None));
        return (None, None, None, None);
    }
    let plan = build_run(args, after_tool, after_args, code, temp_dir);
    let write = write_file(rt, plan.input.as_str(), plan.contents.as_str());
    if write.is_err() {
        assert(compiled_output(Err(write.outcome()->Err_0)) == opt_str(None));
        return (None, None, None, Some(write));
    }
    let compiler = run_process(rt, tool, &plan.compile_args);
    assert(strings_of(plan.compile_args@) == plan.compile_args@.map_values(|a: String| a@));
    let _ = remove_file(rt, plan.input.as_str());
    if let Some(r) = compile_decision(compiler.result()) {
        proof {
            match compiler.outcome() {
                Err(e) => assert(compiled_output(Err(e)) == opt_str(r)),
                Ok(o) => assert(opt_str(r) == Some(compile_error_message(o))),
            }
        }
        return (r, Some(compiler), None, Some(write));
    }
    let program = run_process(rt, plan.run_tool.as_str(), &plan.run_args);
    assert(strings_of(plan.run_args@) == plan.run_args@.map_values(|a: String| a@));
    let _ = remove_file(rt, plan.output.as_str());
    let r = result_compiled(program.result());
    assert(compiled_output(program.outcome()) == opt_str(r));
    (r, Some(compiler), Some(program), Some(write))
}

/// What a command can give, whatever its programs did: a compiled language
/// what compiling and running gives, otherwise what running its program,
/// with the code inline or on a file, gives.
pub open spec fn command_outcome(c: FlatCommandView, t: Seq<char>) -> bool {
    match c.run_after {
        Some(_) => compiled_outcome(Some(t)),
        None => if c.inline {
            inline_outcome(Some(t))
        } else {
            file_outcome(Some(t))
        },
    }
}

/// What running code in a language can give, whatever its programs did:
/// what one of its commands gives, or the message of `flat_no_runtime`.
pub open spec fn language_outcome(c: FlatConfigView, t: Seq<char>) -> bool {
    t == flat_no_runtime(c) || exists|i: int| 0 <= i < c.commands.len() && #[trigger] command_outcome(c.commands[i], t)
}

/// What trying the commands of a language in order can give, whatever the
/// programs did (see `tried_commands` of the built-in runner): `results`
/// holds what each command tried gave; the commands are tried until one gives
/// an output; the result is that output, or the message of `flat_no_runtime`.
pub open spec fn flat_tried(c: FlatConfigView, results: Seq<Option<Seq<char>>>, t: Seq<char>) -> bool {
    &&& results.len() <= c.commands.len()
    &&& forall|k: int| 0 <= k < results.len() ==> (#[trigger] results[k] matches Some(x) ==> command_outcome(c.commands[k], x))
    &&& forall|k: int| 0 <= k < results.len() - 1 ==> #[trigger] results[k] is None
    &&& results.len() < c.commands.len() ==> results.len() > 0 && results.last() is Some
    &&& t == match first_output(results, 0) {
        Some(x) => x,
        None => flat_no_runtime(c),
    }
}

/// What running code in language `c` can give (see `flat_tried`).
pub open spec fn flat_result(c: FlatConfigView, t: Seq<char>) -> bool {
    exists|results: Seq<Option<Seq<char>>>| #[trigger] flat_tried(c, results, t)
}

/// Runs `code` with the first of the language's commands whose program is
/// available and that gives an output; when none does, the message of
/// `flat_no_runtime` (see `flat_tried`, and `first_or`, which picks the
/// output). Any output is trimmed.
pub fn execute_language(rt: &tokio::runtime::Runtime, config: &LanguageConfig, code: &str) -> (r: String)
    requires
        config.aliases@.len() > 0,
    ensures
        flat_result(config@, r@),
        config.commands@.len() == 0 ==> r@ == flat_no_runtime(config@),
        language_outcome(config@, r@),
        r@ == flat_no_runtime(config@) || trim(r@) == r@,
{
    let mut results: Vec<Option<String>> = Vec::new();
    let mut done = false;
    let mut i: usize = 0;
    while i < config.commands.len() && !done
        invariant
            i <= config.commands@.len(),
            results@.len() == i,
            forall|k: int| 0 <= k < i ==> (#[trigger] opt_strs(results@)[k] matches Some(x) ==> command_outcome(config@.commands[k], x)),
            !done ==> forall|k: int| 0 <= k < i ==> #[trigger] opt_strs(results@)[k] is None,
            done ==> i > 0 && opt_strs(results@)[i - 1] is Some && forall|k: int| 0 <= k < i - 1 ==> #[trigger] opt_strs(results@)[k] is None,
        decreases config.commands@.len() - i,
    {
        let cmd = &config.commands[i];
        assert(config@.commands[i as int] == cmd@);
        let attempt = if detect_tool(rt, cmd.tool).is_some() {
            match &cmd.run_after {
                Some((after_tool, after_args)) => run_with_file_and_after(rt, cmd.tool, &cmd.args, code, unique_temp_dir(), after_tool, after_args).0,
                None => if cmd.inline {
                    run_inline(rt, cmd.tool, &cmd.args, code).0
                } else {
                    run_with_file(rt, cmd.tool, &cmd.args, code, unique_temp_dir()).0
                },
            }
        } else {
            None
        };
        proof {
            if let Some(x) = opt_str(attempt) {
                assert(command_outcome(config@.commands[i as int], x));
            }
        }
        done = attempt.is_some();
        let ghost before = results@;
        results.push(attempt);
        assert(opt_strs(results@) =~= opt_strs(before).push(opt_str(attempt)));
        i += 1;
    }
    let ghost v = opt_strs(results@);
    let message = no_runtime(config);
    let r = first_or(&results, message);
    proof {
        if done {
            lemma_first_output_at(v, 0, i - 1);
            let x = v[i - 1]->Some_0;
            assert(command_outcome(config@.commands[i - 1], x));
            lemma_outcomes_trimmed(x);
        } else {
            lemma_first_output_none(v, 0);
        }
        assert(flat_tried(config@, v, r@));
    }
    r
}

/// What running a block in `lang` can give, whatever the programs did:
/// nothing when no language is called `lang`, otherwise what trying the
/// language's commands can give (see `flat_result`).
pub open spec fn code_result(lang: Seq<char>, t: Seq<char>) -> bool {
    match spec_find_language(lang) {
        None => t.len() == 0,
        Some(c) => flat_result(flat_config(c), t),
    }
}

/// Runs `code` as the language `lang`: nothing when no language is called
/// `lang`, otherwise what `execute_language` gives (the message of
/// `flat_no_runtime` when no runtime for running programs can be set up, as
/// when none of its programs can be run; see `code_result`).
pub fn execute_code(lang: &str, code: &str) -> (r: String)
    ensures
        code_result(lang@, r@),
        spec_find_language(lang@) is None ==> r@ == Seq::<char>::empty(),
        spec_find_language(lang@) matches Some(c) ==> language_outcome(flat_config(c), r@),
        spec_find_language(lang@) matches Some(c) ==> r@ == flat_no_runtime(flat_config(c)) || trim(r@) == r@,
{
    match find_language(lang) {
        None => String::new(),
        Some(config) => {
            proof {
                crate::execute_code_blocks::language_config::lemma_first_config_with(
                    crate::execute_code_blocks::default_language_config::language_table(),
                    lang@,
                    0,
                );
            }
            match new_runtime() {
                Ok(rt) => execute_language(&rt, &config, code),
                Err(_) => {
                    let t = no_runtime(&config);
                    proof {
                        let none: Seq<Option<Seq<char>>> = Seq::new(config@.commands.len(), |k: int| None::<Seq<char>>);
                        assert forall|k: int| 0 <= k < none.len() implies #[trigger] none[k] is None by {}
                        lemma_first_output_none(none, 0);
                        assert(flat_tried(config@, none, t@));
                    }
                    t
                },
            }
        },
    }
}

/// The output of each block, in order: output `i` is what running block `i`
/// gives (see `execute_code` and `code_result`); a block whose language is
/// unknown gets an empty output, kept in its place.
pub fn execute_code_blocks(blocks: &Vec<ExecutableCodeBlock>) -> (r: Vec<String>)
    ensures
        r@.len() == blocks@.len(),
        forall|i: int| 0 <= i < blocks@.len() ==> code_result(blocks@[i].lang@, #[trigger] r@[i]@),
{
    let mut r: Vec<String> = Vec::new();
    let mut i: usize = 0;
    while i < blocks.len()
        invariant
            i <= blocks@.len(),
            r@.len() == i,
            forall|j: int| 0 <= j < i ==> code_result(blocks@[j].lang@, #[trigger] r@[j]@),
        decreases blocks@.len() - i,
    {
        let out = execute_code(blocks[i].lang.as_str(), blocks[i].code.as_str());
        r.push(out);
        i += 1;
    }
    r
}

} // verus!
