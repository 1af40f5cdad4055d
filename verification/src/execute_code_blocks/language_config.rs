//! How code in each language is run, and which nodes of a document are
//! executable code.
use crate::document::{
    exec_word, is_exec_code, is_hidden_exec, parse_hidden_comment, spec_block_of, MdNode,
    SpecBlock, comment_safe, head_safe,
};
use crate::execute_code_blocks::default_language_config::{is_executable, is_executable_lang};
use crate::text::{chars_of, has_word_chars, string_of, trim_bounds, find_chars, matches_at,
    has_prefix, has_suffix, trim, find_from, occurs_at, lemma_find_from_none,
    lemma_find_from_some};
use vstd::prelude::*;

verus! {

/// One command line: the program, its fixed arguments, and whether the
/// code is passed as the last argument (`inline`) or written to a file first.
pub struct ExecCommand {
    pub tool: &'static str,
    pub args: Vec<&'static str>,
    pub inline: bool,
}

/// A way to run code: a run step, preceded by a compile step for compiled languages.
pub struct CommandTemplate {
    pub run: ExecCommand,
    pub compile: Option<ExecCommand>,
}

/// The names a language goes by and the ways to run it, in order of preference.
pub struct LanguageConfig {
    pub aliases: Vec<&'static str>,
    pub commands: Vec<CommandTemplate>,
}

/// The plain contents of an `ExecCommand`.
pub struct ExecCommandView {
    pub tool: Seq<char>,
    pub args: Seq<Seq<char>>,
    pub inline: bool,
}

/// The plain contents of a `CommandTemplate`.
pub struct CommandTemplateView {
    pub run: ExecCommandView,
    pub compile: Option<ExecCommandView>,
}

/// The plain contents of a `LanguageConfig`.
pub struct LanguageConfigView {
    pub aliases: Seq<Seq<char>>,
    pub commands: Seq<CommandTemplateView>,
}

/// The plain contents of a sequence of string slices.
pub open spec fn strs_view(v: Seq<&'static str>) -> Seq<Seq<char>> {
    v.map_values(|s: &'static str| s@)
}

impl View for ExecCommand {
    type V = ExecCommandView;

    open spec fn view(&self) -> ExecCommandView {
        ExecCommandView { tool: self.tool@, args: strs_view(self.args@), inline: self.inline }
    }
}

impl View for CommandTemplate {
    type V = CommandTemplateView;

    open spec fn view(&self) -> CommandTemplateView {
        CommandTemplateView {
            run: self.run@,
            compile: match self.compile {
                Some(c) => Some(c@),
                None => None,
            },
        }
    }
}

impl View for LanguageConfig {
    type V = LanguageConfigView;

    open spec fn view(&self) -> LanguageConfigView {
        LanguageConfigView {
            aliases: strs_view(self.aliases@),
            commands: self.commands@.map_values(|c: CommandTemplate| c@),
        }
    }
}

/// Index of the first configuration in `configs` that knows `lang` as an alias.
pub open spec fn first_config_with(configs: Seq<LanguageConfigView>, lang: Seq<char>, i: int) -> Option<int>
    decreases configs.len() - i,
{
    if i < 0 || i >= configs.len() {
        None
    } else if configs[i].aliases.contains(lang) {
        Some(i)
    } else {
        first_config_with(configs, lang, i + 1)
    }
}

/// `first_config_with` finds none exactly when no configuration from `i`
/// on knows `lang`, and what it finds knows `lang`.
pub proof fn lemma_first_config_with(configs: Seq<LanguageConfigView>, lang: Seq<char>, i: int)
    requires
        0 <= i,
    ensures
        first_config_with(configs, lang, i) is None <==> (forall|j: int|
            i <= j < configs.len() ==> !(#[trigger] configs[j]).aliases.contains(lang)),
        first_config_with(configs, lang, i) matches Some(k) ==> i <= k < configs.len()
            && configs[k].aliases.contains(lang),
    decreases configs.len() - i,
{
    if i < configs.len() && !configs[i].aliases.contains(lang) {
        lemma_first_config_with(configs, lang, i + 1);
    }
}

/// `lang` is one of the aliases in `aliases`.
pub fn has_alias(aliases: &Vec<&'static str>, lang: &str) -> (r: bool)
    ensures
        r == strs_view(aliases@).contains(lang@),
{
    let lv = chars_of(lang);
    let mut i: usize = 0;
    while i < aliases.len()
        invariant
            i <= aliases.len(),
            lv@ == lang@,
            forall|j: int| 0 <= j < i ==> aliases@[j]@ != lang@,
        decreases aliases.len() - i,
    {
        let av = chars_of(aliases[i]);
        if crate::text::chars_eq(&av, &lv) {
            assert(strs_view(aliases@)[i as int] == lang@);
            return true;
        }
        i += 1;
    }
    proof {
        if strs_view(aliases@).contains(lang@) {
            let k = choose|k: int| 0 <= k < strs_view(aliases@).len() && strs_view(aliases@)[k] == lang@;
            assert(aliases@[k]@ == lang@);
        }
    }
    false
}

/// Position of the first configuration in `configs` that knows `lang`.
pub fn find_language_index(configs: &Vec<LanguageConfig>, lang: &str) -> (r: Option<usize>)
    ensures
        r matches Some(k) ==> first_config_with(configs@.map_values(|c: LanguageConfig| c@), lang@, 0) == Some(k as int),
        r is None ==> first_config_with(configs@.map_values(|c: LanguageConfig| c@), lang@, 0) is None,
{
    let ghost views = configs@.map_values(|c: LanguageConfig| c@);
    let mut i: usize = 0;
    while i < configs.len()
        invariant
            i <= configs.len(),
            views == configs@.map_values(|c: LanguageConfig| c@),
            first_config_with(views, lang@, 0) == first_config_with(views, lang@, i as int),
        decreases configs.len() - i,
    {
        if has_alias(&configs[i].aliases, lang) {
            assert(views[i as int].aliases.contains(lang@));
            return Some(i);
        }
        assert(!views[i as int].aliases.contains(lang@));
        i += 1;
    }
    None
}

/// A piece of code to run: its language, its source, and whether it came from
/// a hidden `<!-- lang exec: code -->` comment rather than a visible code block.
#[derive(Debug, Clone)]
pub struct ExecutableCodeBlock {
    pub lang: String,
    pub code: String,
    pub hidden: bool,
}

impl View for ExecutableCodeBlock {
    type V = SpecBlock;

    open spec fn view(&self) -> SpecBlock {
        SpecBlock { lang: self.lang@, code: self.code@, hidden: self.hidden }
    }
}

impl ExecutableCodeBlock {
    /// The executable block a node stands for: a code block with a known
    /// language and the `exec` word in its info string, or a hidden
    /// `<!-- lang exec: code -->` comment. Any other node gives `Err(())`.
    pub fn try_from(node: &MdNode) -> (r: Result<ExecutableCodeBlock, ()>)
        requires
            head_safe(node@),
        ensures
            match spec_block_of(node@) {
                Some(b) => r matches Ok(x) && x@ == b,
                None => r is Err,
            },
    {
        match node {
            MdNode::Code { lang, meta, value } => {
                match lang {
                    None => Err(()),
                    Some(l) => {
                        if is_executable(l.as_str()) && meta_has_exec(meta) {
                            Ok(
                                ExecutableCodeBlock {
                                    lang: crate::text::to_owned_string(l.as_str()),
                                    code: crate::text::to_owned_string(value.as_str()),
                                    hidden: false,
                                },
                            )
                        } else {
                            Err(())
                        }
                    },
                }
            },
            MdNode::Html { value } => {
                match parse_hidden_exec_comment(value.as_str()) {
                    Some((lang, code)) => Ok(ExecutableCodeBlock { lang, code, hidden: true }),
                    None => Err(()),
                }
            },
            MdNode::Element { .. } => Err(()),
        }
    }
}

/// The info-string words after the language hold `exec`.
fn meta_has_exec(meta: &Option<String>) -> (r: bool)
    ensures
        r == (meta matches Some(m) && crate::text::has_word(m@, exec_word())),
{
    match meta {
        None => false,
        Some(m) => {
            let mv = chars_of(m.as_str());
            let mut w: Vec<char> = Vec::new();
            w.push('e');
            w.push('x');
            w.push('e');
            w.push('c');
            assert(w@ =~= exec_word());
            has_word_chars(&mv, &w)
        },
    }
}

/// A code block whose language is executable and whose info string holds the word `exec`.
pub fn is_executable_code_node(node: &MdNode) -> (r: bool)
    ensures
        r == is_exec_code(node@),
{
    match node {
        MdNode::Code { lang: Some(l), meta, .. } => is_executable(l.as_str()) && meta_has_exec(meta),
        _ => false,
    }
}

/// An executable code block or a hidden exec comment.
pub fn is_executable_node(node: &MdNode) -> (r: bool)
    requires
        head_safe(node@),
    ensures
        r == (is_exec_code(node@) || is_hidden_exec(node@)),
{
    is_executable_code_node(node) || is_hidden_executable_comment(node).is_some()
}

/// The language and code of a hidden `<!-- lang exec: code -->` comment node.
pub fn is_hidden_executable_comment(node: &MdNode) -> (r: Option<(String, String)>)
    requires
        head_safe(node@),
    ensures
        match node {
            MdNode::Html { value } => match parse_hidden_comment(value@) {
                Some((l, c)) => r matches Some((a, b)) && a@ == l && b@ == c,
                None => r is None,
            },
            _ => r is None,
        },
{
    match node {
        MdNode::Html { value } => parse_hidden_exec_comment(value.as_str()),
        _ => None,
    }
}

/// Parses `<!-- lang exec: code -->`: the comment, trimmed, must open with `<!--`
/// and close with `-->`; the text between, trimmed, must hold ` exec: `; the
/// trimmed text before its first occurrence is the language, which must be
/// executable, and the trimmed text after it is the code; neither may be empty.
pub fn parse_hidden_exec_comment(comment: &str) -> (r: Option<(String, String)>)
    requires
        comment_safe(comment@),
    ensures
        match parse_hidden_comment(comment@) {
            Some((l, c)) => r matches Some((a, b)) && a@ == l && b@ == c,
            None => r is None,
        },
{
    let v = chars_of(comment);
    let (a, b) = trim_bounds(&v, 0, v.len());
    assert(v@.subrange(0, v@.len() as int) == v@);
    let ghost t = trim(comment@);
    assert(t == v@.subrange(a as int, b as int));
    let mut open: Vec<char> = Vec::new();
    open.push('<');
    open.push('!');
    open.push('-');
    open.push('-');
    let mut close: Vec<char> = Vec::new();
    close.push('-');
    close.push('-');
    close.push('>');
    assert(open@ =~= crate::document::comment_open());
    assert(close@ =~= crate::document::comment_close());
    if b - a < 4 || !matches_at(&v, &open, a) {
        assert(!has_prefix(t, open@)) by {
            if has_prefix(t, open@) {
                assert(t.subrange(0, 4) =~= v@.subrange(a as int, a + 4));
            }
        }
        return None;
    }
    assert(has_prefix(t, open@)) by {
        assert(t.subrange(0, 4) =~= v@.subrange(a as int, a + 4));
    }
    if b - a < 3 || !matches_at(&v, &close, b - 3) {
        assert(!has_suffix(t, close@)) by {
            if has_suffix(t, close@) {
                assert(t.subrange(t.len() - 3, t.len() as int) =~= v@.subrange(b - 3, b as int));
            }
        }
        return None;
    }
    assert(has_suffix(t, close@)) by {
        assert(t.subrange(t.len() - 3, t.len() as int) =~= v@.subrange(b - 3, b as int));
    }
    let (ia, ib) = trim_bounds(&v, a + 4, b - 3);
    let ghost inner = trim(t.subrange(4, t.len() - 3));
    assert(t.subrange(4, t.len() - 3) =~= v@.subrange(a + 4, b - 3));
    let iv = crate::text::to_vec_range(&v, ia, ib);
    assert(iv@ == inner);
    let mut sep: Vec<char> = Vec::new();
    sep.push(' ');
    sep.push('e');
    sep.push('x');
    sep.push('e');
    sep.push('c');
    sep.push(':');
    sep.push(' ');
    assert(sep@ =~= crate::document::exec_separator());
    match find_chars(&iv, &sep, 0) {
        None => None,
        Some(k) => {
            proof {
                lemma_find_from_some(iv@, sep@, 0);
            }
            let (la, lb) = trim_bounds(&iv, 0, k);
            let (ca, cb) = trim_bounds(&iv, k + 7, iv.len());
            if lb == la || cb == ca {
                return None;
            }
            let lang = string_of(&iv, la, lb);
            if !is_executable(lang.as_str()) {
                return None;
            }
            let code = string_of(&iv, ca, cb);
            Some((lang, code))
        },
    }
}

} // verus!
