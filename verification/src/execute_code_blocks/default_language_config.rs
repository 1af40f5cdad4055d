//! The built-in table of languages and how to run them.
use crate::execute_code_blocks::language_config::{
    find_language_index, first_config_with, lemma_first_config_with, CommandTemplate,
    CommandTemplateView, ExecCommand, ExecCommandView, LanguageConfig, LanguageConfigView,
    strs_view,
};
use vstd::prelude::*;

verus! {

/// A command line's plain contents.
pub open spec fn cmd_view(tool: Seq<char>, args: Seq<Seq<char>>, inline: bool) -> ExecCommandView {
    ExecCommandView { tool, args, inline }
}

/// A way to run code with a run step and no compile step.
pub open spec fn run_only(run: ExecCommandView) -> CommandTemplateView {
    CommandTemplateView { run, compile: None }
}

/// Shell: `/bin/sh -c code`.
pub open spec fn shell_spec() -> LanguageConfigView {
    LanguageConfigView {
        aliases: seq!["sh"@, "bash"@, "shell"@],
        commands: seq![run_only(cmd_view("/bin/sh"@, seq!["-c"@], true))],
    }
}

/// Python: `python3 -c code`.
pub open spec fn python_spec() -> LanguageConfigView {
    LanguageConfigView {
        aliases: seq!["python"@, "python3"@],
        commands: seq![run_only(cmd_view("python3"@, seq!["-c"@], true))],
    }
}

/// JavaScript: a local node, a local bun, then the global ones, each with `-e code`.
pub open spec fn javascript_spec() -> LanguageConfigView {
    LanguageConfigView {
        aliases: seq!["js"@, "javascript"@, "node"@],
        commands: seq![
            run_only(cmd_view("node_modules/.bin/node"@, seq!["-e"@], true)),
            run_only(cmd_view("node_modules/.bin/bun"@, seq!["-e"@], true)),
            run_only(cmd_view("node"@, seq!["-e"@], true)),
            run_only(cmd_view("bun"@, seq!["-e"@], true)),
        ],
    }
}

/// Ruby: `ruby -e code`.
pub open spec fn ruby_spec() -> LanguageConfigView {
    LanguageConfigView {
        aliases: seq!["ruby"@],
        commands: seq![run_only(cmd_view("ruby"@, seq!["-e"@], true))],
    }
}

/// Perl: `perl -e code`.
pub open spec fn perl_spec() -> LanguageConfigView {
    LanguageConfigView {
        aliases: seq!["perl"@],
        commands: seq![run_only(cmd_view("perl"@, seq!["-e"@], true))],
    }
}

/// PHP: `php -r code`.
pub open spec fn php_spec() -> LanguageConfigView {
    LanguageConfigView {
        aliases: seq!["php"@],
        commands: seq![run_only(cmd_view("php"@, seq!["-r"@], true))],
    }
}

/// Go: `go run <file>`.
pub open spec fn go_spec() -> LanguageConfigView {
    LanguageConfigView {
        aliases: seq!["go"@],
        commands: seq![run_only(cmd_view("go"@, seq!["run"@, "{input}"@], false))],
    }
}

/// Rust: `rustc -o <output> <input>`, then the compiled program.
pub open spec fn rust_spec() -> LanguageConfigView {
    LanguageConfigView {
        aliases: seq!["rust"@],
        commands: seq![
            CommandTemplateView {
                run: cmd_view("{output}"@, seq![], true),
                compile: Some(cmd_view("rustc"@, seq!["-o"@, "{output}"@, "{input}"@], false)),
            },
        ],
    }
}

/// TypeScript: local ts-node, tsx, bun, node, then the global ones.
pub open spec fn typescript_spec() -> LanguageConfigView {
    LanguageConfigView {
        aliases: seq!["ts"@, "typescript"@],
        commands: seq![
            run_only(cmd_view("node_modules/.bin/ts-node"@, seq!["-e"@], true)),
            run_only(cmd_view("node_modules/.bin/tsx"@, seq![], false)),
            run_only(cmd_view("node_modules/.bin/bun"@, seq!["-e"@], true)),
            run_only(cmd_view("node_modules/.bin/node"@, seq!["--experimental-strip-types"@], false)),
            run_only(cmd_view("ts-node"@, seq!["-e"@], true)),
            run_only(cmd_view("tsx"@, seq![], false)),
            run_only(cmd_view("bun"@, seq!["-e"@], true)),
            run_only(cmd_view("node"@, seq!["--experimental-strip-types"@], false)),
        ],
    }
}

/// The built-in language table, in lookup order.
pub open spec fn language_table() -> Seq<LanguageConfigView> {
    seq![
        shell_spec(),
        python_spec(),
        javascript_spec(),
        ruby_spec(),
        perl_spec(),
        php_spec(),
        go_spec(),
        rust_spec(),
        typescript_spec(),
    ]
}

/// The languages the built-in table knows, by any alias.
pub open spec fn executable_languages() -> Seq<Seq<char>> {
    seq![
        "sh"@,
        "bash"@,
        "shell"@,
        "python"@,
        "python3"@,
        "js"@,
        "javascript"@,
        "node"@,
        "ts"@,
        "typescript"@,
        "ruby"@,
        "perl"@,
        "php"@,
        "go"@,
        "rust"@,
    ]
}

/// `lang` names a language of the built-in table.
pub open spec fn is_executable_lang(lang: Seq<char>) -> bool {
    first_config_with(language_table(), lang, 0) is Some
}

/// The configuration the built-in table holds for `lang`, if any.
pub open spec fn spec_find_language(lang: Seq<char>) -> Option<LanguageConfigView> {
    match first_config_with(language_table(), lang, 0) {
        Some(k) => Some(language_table()[k]),
        None => None,
    }
}

/// A language is executable exactly when it is one of the listed executable languages.
pub proof fn lemma_executable_languages(lang: Seq<char>)
    ensures
        is_executable_lang(lang) <==> executable_languages().contains(lang),
{
    lemma_first_config_with(language_table(), lang, 0);
    let t = language_table();
    let e = executable_languages();
    if is_executable_lang(lang) {
        let k = first_config_with(t, lang, 0)->0;
        let j = choose|j: int| 0 <= j < t[k].aliases.len() && t[k].aliases[j] == lang;
        if k == 0 { assert(e[j] == lang); }
        else if k == 1 { assert(e[3 + j] == lang); }
        else if k == 2 { assert(e[5 + j] == lang); }
        else if k == 3 { assert(e[10] == lang); }
        else if k == 4 { assert(e[11] == lang); }
        else if k == 5 { assert(e[12] == lang); }
        else if k == 6 { assert(e[13] == lang); }
        else if k == 7 { assert(e[14] == lang); }
        else { assert(e[8 + j] == lang); }
    }
    if e.contains(lang) {
        let j = choose|j: int| 0 <= j < e.len() && e[j] == lang;
        if j < 3 { assert(t[0].aliases[j] == lang); }
        else if j < 5 { assert(t[1].aliases[j - 3] == lang); }
        else if j < 8 { assert(t[2].aliases[j - 5] == lang); }
        else if j < 10 { assert(t[8].aliases[j - 8] == lang); }
        else if j == 10 { assert(t[3].aliases[0] == lang); }
        else if j == 11 { assert(t[4].aliases[0] == lang); }
        else if j == 12 { assert(t[5].aliases[0] == lang); }
        else if j == 13 { assert(t[6].aliases[0] == lang); }
        else { assert(t[7].aliases[0] == lang); }
    }
}

fn strs1(a: &'static str) -> (v: Vec<&'static str>)
    ensures
        strs_view(v@) == seq![a@],
{
    let mut v = Vec::new();
    v.push(a);
    assert(strs_view(v@) =~= seq![a@]);
    v
}

fn strs2(a: &'static str, b: &'static str) -> (v: Vec<&'static str>)
    ensures
        strs_view(v@) == seq![a@, b@],
{
    let mut v = Vec::new();
    v.push(a);
    v.push(b);
    assert(strs_view(v@) =~= seq![a@, b@]);
    v
}

fn strs3(a: &'static str, b: &'static str, c: &'static str) -> (v: Vec<&'static str>)
    ensures
        strs_view(v@) == seq![a@, b@, c@],
{
    let mut v = Vec::new();
    v.push(a);
    v.push(b);
    v.push(c);
    assert(strs_view(v@) =~= seq![a@, b@, c@]);
    v
}

fn no_strs() -> (v: Vec<&'static str>)
    ensures
        strs_view(v@) == Seq::<Seq<char>>::empty(),
{
    let v = Vec::new();
    assert(strs_view(v@) =~= Seq::<Seq<char>>::empty());
    v
}

fn run(tool: &'static str, args: Vec<&'static str>, inline: bool) -> (c: CommandTemplate)
    ensures
        c@ == run_only(cmd_view(tool@, strs_view(args@), inline)),
{
    CommandTemplate { run: ExecCommand { tool, args, inline }, compile: None }
}

fn config(aliases: Vec<&'static str>, commands: Vec<CommandTemplate>) -> (c: LanguageConfig)
    ensures
        c@ == (LanguageConfigView {
            aliases: strs_view(aliases@),
            commands: commands@.map_values(|t: CommandTemplate| t@),
        }),
{
    LanguageConfig { aliases, commands }
}

fn one(c: CommandTemplate) -> (v: Vec<CommandTemplate>)
    ensures
        v@.map_values(|t: CommandTemplate| t@) == seq![c@],
{
    let mut v = Vec::new();
    v.push(c);
    assert(v@.map_values(|t: CommandTemplate| t@) =~= seq![c@]);
    v
}

fn shell_config() -> (c: LanguageConfig)
    ensures
        c@ == shell_spec(),
{
    config(strs3("sh", "bash", "shell"), one(run("/bin/sh", strs1("-c"), true)))
}

fn python_config() -> (c: LanguageConfig)
    ensures
        c@ == python_spec(),
{
    config(strs2("python", "python3"), one(run("python3", strs1("-c"), true)))
}

fn javascript_config() -> (c: LanguageConfig)
    ensures
        c@ == javascript_spec(),
{
    let mut v = Vec::new();
    v.push(run("node_modules/.bin/node", strs1("-e"), true));
    v.push(run("node_modules/.bin/bun", strs1("-e"), true));
    v.push(run("node", strs1("-e"), true));
    v.push(run("bun", strs1("-e"), true));
    assert(v@.map_values(|t: CommandTemplate| t@) =~= javascript_spec().commands);
    config(strs3("js", "javascript", "node"), v)
}

fn ruby_config() -> (c: LanguageConfig)
    ensures
        c@ == ruby_spec(),
{
    config(strs1("ruby"), one(run("ruby", strs1("-e"), true)))
}

fn perl_config() -> (c: LanguageConfig)
    ensures
        c@ == perl_spec(),
{
    config(strs1("perl"), one(run("perl", strs1("-e"), true)))
}

fn php_config() -> (c: LanguageConfig)
    ensures
        c@ == php_spec(),
{
    config(strs1("php"), one(run("php", strs1("-r"), true)))
}

fn go_config() -> (c: LanguageConfig)
    ensures
        c@ == go_spec(),
{
    config(strs1("go"), one(run("go", strs2("run", "{input}"), false)))
}

fn rust_config() -> (c: LanguageConfig)
    ensures
        c@ == rust_spec(),
{
    let t = CommandTemplate {
        run: ExecCommand { tool: "{output}", args: no_strs(), inline: true },
        compile: Some(ExecCommand { tool: "rustc", args: strs3("-o", "{output}", "{input}"), inline: false }),
    };
    config(strs1("rust"), one(t))
}

fn typescript_config() -> (c: LanguageConfig)
    ensures
        c@ == typescript_spec(),
{
    let mut v = Vec::new();
    v.push(run("node_modules/.bin/ts-node", strs1("-e"), true));
    v.push(run("node_modules/.bin/tsx", no_strs(), false));
    v.push(run("node_modules/.bin/bun", strs1("-e"), true));
    v.push(run("node_modules/.bin/node", strs1("--experimental-strip-types"), false));
    v.push(run("ts-node", strs1("-e"), true));
    v.push(run("tsx", no_strs(), false));
    v.push(run("bun", strs1("-e"), true));
    v.push(run("node", strs1("--experimental-strip-types"), false));
    assert(v@.map_values(|t: CommandTemplate| t@) =~= typescript_spec().commands);
    config(strs2("ts", "typescript"), v)
}

/// The built-in language table.
pub fn languages() -> (v: Vec<LanguageConfig>)
    ensures
        v@.map_values(|c: LanguageConfig| c@) == language_table(),
{
    let mut v = Vec::new();
    v.push(shell_config());
    v.push(python_config());
    v.push(javascript_config());
    v.push(ruby_config());
    v.push(perl_config());
    v.push(php_config());
    v.push(go_config());
    v.push(rust_config());
    v.push(typescript_config());
    assert(v@.map_values(|c: LanguageConfig| c@) =~= language_table());
    v
}

/// The configuration for `lang` in the built-in table: the first one that
/// lists `lang` among its aliases, or `None` when no language is called `lang`.
pub fn find_language(lang: &str) -> (r: Option<LanguageConfig>)
    ensures
        match spec_find_language(lang@) {
            Some(c) => r matches Some(x) && x@ == c,
            None => r is None,
        },
{
    let mut table = languages();
    match find_language_index(&table, lang) {
        Some(k) => {
            proof {
                lemma_first_config_with(language_table(), lang@, 0);
            }
            Some(table.swap_remove(k))
        },
        None => None,
    }
}

/// Whether the built-in table knows `lang`.
pub fn is_executable(lang: &str) -> (r: bool)
    ensures
        r == is_executable_lang(lang@),
{
    let table = languages();
    find_language_index(&table, lang).is_some()
}

} // verus!
