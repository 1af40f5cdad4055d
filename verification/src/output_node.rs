//! Output nodes: the `output` code blocks and `<!-- output: ... -->` comments
//! that hold what a run printed, and the removal of outputs that belong to
//! no executable node.
use crate::document::{
    docs, head_safe, is_exec, is_output, kids, lemma_children_view, output_marker, output_word,
    Doc, MdNode, InfoView, safe, all_safe,
};
use crate::execute_code_blocks::language_config::is_executable_node;
use crate::text::{chars_eq, chars_of, contains_chars, has_prefix, has_suffix, matches_at,
    push_char, string_of};
use vstd::prelude::*;

verus! {

/// How an output is written in the document.
#[derive(Debug, Clone, Copy, PartialEq, Eq, Structural)]
pub enum OutputFormat {
    CodeBlock,
    HtmlComment,
}

/// An output node that follows no executable node: the number of executable
/// nodes before it in its list, less one (saturating), and its format.
#[derive(Debug, Clone, Copy, PartialEq, Eq, Structural)]
pub struct OutputEntry {
    pub code_index: usize,
    pub format: OutputFormat,
}

/// A document with an output node for every executable node, and the output
/// nodes found that belong to none.
pub struct OutputInfo {
    pub ast: MdNode,
    pub orphans: Vec<OutputEntry>,
}

/// `<!-- output: `
pub open spec fn output_comment_open() -> Seq<char> {
    output_marker().push(' ')
}

/// ` -->`
pub open spec fn output_comment_close() -> Seq<char> {
    seq![' ', '-', '-', '>']
}

/// The comment that holds `out`: `<!-- output: {out} -->`.
pub open spec fn output_comment(out: Seq<char>) -> Seq<char> {
    output_comment_open() + out + output_comment_close()
}

/// The format of an output node.
pub open spec fn spec_output_format(n: Doc) -> Option<OutputFormat> {
    match n {
        Doc::Code { lang: Some(l), .. } => if l == output_word() {
            Some(OutputFormat::CodeBlock)
        } else {
            None
        },
        Doc::Html { value } => if is_output(n) {
            Some(OutputFormat::HtmlComment)
        } else {
            None
        },
        _ => None,
    }
}

/// An empty `output` code block.
pub open spec fn placeholder() -> Doc {
    Doc::Code { lang: Some(output_word()), meta: None, value: Seq::empty() }
}

/// An output node holding `out` in place of what it held; other nodes are unchanged.
pub open spec fn updated(n: Doc, out: Seq<char>) -> Doc {
    match n {
        Doc::Code { lang: Some(l), meta, value } => if l == output_word() {
            Doc::Code { lang: Some(l), meta: None, value: out }
        } else {
            n
        },
        Doc::Html { value } => if is_output(n) {
            Doc::Html { value: output_comment(out) }
        } else {
            n
        },
        _ => n,
    }
}

/// The text an output node holds: a code block's text, or the text of an
/// `<!-- output: ... -->` comment between its markers (the whole comment when
/// the markers are not both there).
pub open spec fn spec_output_content(n: Doc) -> Seq<char> {
    match n {
        Doc::Code { value, .. } => value,
        Doc::Html { value } => {
            let p = output_comment_open();
            let q = output_comment_close();
            if has_prefix(value, p) && has_suffix(value.subrange(p.len() as int, value.len() as int), q) {
                value.subrange(p.len() as int, value.len() - q.len())
            } else {
                value
            }
        },
        _ => Seq::empty(),
    }
}

/// The children of `cs` from `i` on that `clean_orphans` keeps, each cleaned.
/// `mode` is 0 before the first executable node of the list, 1 after an
/// executable node whose output has not been seen yet, 2 once it has.
pub open spec fn clean_list(cs: Seq<Doc>, i: int, mode: int) -> Seq<Doc>
    decreases cs, cs.len() - i,
{
    if i < 0 || i >= cs.len() {
        Seq::empty()
    } else if mode == 0 {
        if is_exec(cs[i]) {
            seq![clean_tree(cs[i])] + clean_list(cs, i + 1, 1)
        } else if is_output(cs[i]) {
            clean_list(cs, i + 1, 0)
        } else {
            seq![clean_tree(cs[i])] + clean_list(cs, i + 1, 0)
        }
    } else {
        if is_output(cs[i]) {
            if mode == 1 {
                seq![clean_tree(cs[i])] + clean_list(cs, i + 1, 2)
            } else {
                clean_list(cs, i + 1, 2)
            }
        } else if is_exec(cs[i]) {
            seq![clean_tree(cs[i])] + clean_list(cs, i + 1, 1)
        } else {
            seq![clean_tree(cs[i])] + clean_list(cs, i + 1, mode)
        }
    }
}

/// The tree with, in every list of children, the output nodes before the
/// first executable node removed, and after each executable node all but the
/// first output node before the next executable node removed.
pub open spec fn clean_tree(n: Doc) -> Doc
    decreases n, 0int,
{
    match n {
        Doc::Element { info, source, children } => Doc::Element {
            info,
            source,
            children: clean_list(children, 0, 0),
        },
        _ => n,
    }
}

fn output_word_chars() -> (v: Vec<char>)
    ensures
        v@ == output_word(),
{
    let mut v = Vec::new();
    v.push('o');
    v.push('u');
    v.push('t');
    v.push('p');
    v.push('u');
    v.push('t');
    assert(v@ =~= output_word());
    v
}

fn output_marker_chars() -> (v: Vec<char>)
    ensures
        v@ == output_marker(),
{
    let mut v = Vec::new();
    v.push('<');
    v.push('!');
    v.push('-');
    v.push('-');
    v.push(' ');
    v.push('o');
    v.push('u');
    v.push('t');
    v.push('p');
    v.push('u');
    v.push('t');
    v.push(':');
    assert(v@ =~= output_marker());
    v
}

fn output_comment_open_chars() -> (v: Vec<char>)
    ensures
        v@ == output_comment_open(),
{
    let mut v = output_marker_chars();
    v.push(' ');
    v
}

fn output_comment_close_chars() -> (v: Vec<char>)
    ensures
        v@ == output_comment_close(),
{
    let mut v = Vec::new();
    v.push(' ');
    v.push('-');
    v.push('-');
    v.push('>');
    assert(v@ =~= output_comment_close());
    v
}

fn push_all(s: &mut String, v: &Vec<char>)
    ensures
        final(s)@ == old(s)@ + v@,
{
    let mut i: usize = 0;
    while i < v.len()
        invariant
            i <= v.len(),
            s@ == old(s)@ + v@.take(i as int),
        decreases v.len() - i,
    {
        push_char(s, v[i]);
        assert(v@.take(i + 1) == v@.take(i as int).push(v@[i as int]));
        i += 1;
    }
    assert(v@.take(v@.len() as int) == v@);
}

/// `<!-- output: {out} -->`
pub fn make_output_comment(out: &str) -> (r: String)
    ensures
        r@ == output_comment(out@),
{
    let mut r = String::new();
    push_all(&mut r, &output_comment_open_chars());
    push_all(&mut r, &chars_of(out));
    push_all(&mut r, &output_comment_close_chars());
    r
}

/// Whether `node` holds the output of a run.
pub fn is_output_node(node: &MdNode) -> (r: bool)
    ensures
        r == is_output(node@),
{
    match node {
        MdNode::Code { lang: Some(l), .. } => chars_eq(&chars_of(l.as_str()), &output_word_chars()),
        MdNode::Html { value } => contains_chars(&chars_of(value.as_str()), &output_marker_chars()),
        _ => false,
    }
}

/// The format of an output node, or `None` for other nodes.
pub fn output_format(node: &MdNode) -> (r: Option<OutputFormat>)
    ensures
        r == spec_output_format(node@),
{
    match node {
        MdNode::Code { lang: Some(l), .. } => {
            if chars_eq(&chars_of(l.as_str()), &output_word_chars()) {
                Some(OutputFormat::CodeBlock)
            } else {
                None
            }
        },
        MdNode::Html { value } => {
            if contains_chars(&chars_of(value.as_str()), &output_marker_chars()) {
                Some(OutputFormat::HtmlComment)
            } else {
                None
            }
        },
        _ => None,
    }
}

/// An empty `output` code block, to be filled with the output of the
/// executable node before it.
pub fn create_output_placeholder() -> (r: MdNode)
    ensures
        r@ == placeholder(),
{
    let l = string_of(&output_word_chars(), 0, 6);
    proof {
        assert(output_word().subrange(0, 6) =~= output_word());
    }
    MdNode::Code { lang: Some(l), meta: None, value: String::new() }
}

/// Writes `output` into an output node: an `output` code block gets it as its
/// text and loses the rest of its info string; an output comment becomes
/// `<!-- output: {output} -->`. Returns whether `node` was an output node;
/// other nodes are left as they are.
pub fn update_output_value(node: &mut MdNode, output: &str) -> (r: bool)
    ensures
        r == is_output(old(node)@),
        final(node)@ == updated(old(node)@, output@),
{
    let is_out = is_output_node(node);
    if !is_out {
        return false;
    }
    match node {
        MdNode::Code { lang, meta, value } => {
            *meta = None;
            *value = crate::text::to_owned_string(output);
            true
        },
        MdNode::Html { value } => {
            *value = make_output_comment(output);
            true
        },
        MdNode::Element { .. } => false,
    }
}

/// The text an output node holds (see `spec_output_content`).
pub fn extract_output_content(node: &MdNode) -> (r: String)
    ensures
        r@ == spec_output_content(node@),
{
    match node {
        MdNode::Code { value, .. } => crate::text::to_owned_string(value.as_str()),
        MdNode::Html { value } => {
            let v = chars_of(value.as_str());
            let p = output_comment_open_chars();
            let q = output_comment_close_chars();
            let ghost s = value@;
            if v.len() >= 13 && matches_at(&v, &p, 0) {
                assert(has_prefix(s, p@)) by {
                    assert(s.subrange(0, 13) =~= v@.subrange(0, 13));
                }
                let ghost rest = s.subrange(13, s.len() as int);
                if v.len() - 13 >= 4 && matches_at(&v, &q, v.len() - 4) {
                    assert(has_suffix(rest, q@)) by {
                        assert(rest.subrange(rest.len() - 4, rest.len() as int) =~= v@.subrange(
                            v.len() - 4,
                            v.len() as int,
                        ));
                    }
                    return string_of(&v, 13, v.len() - 4);
                }
                assert(!has_suffix(rest, q@)) by {
                    if has_suffix(rest, q@) {
                        assert(rest.subrange(rest.len() - 4, rest.len() as int) =~= v@.subrange(
                            v.len() - 4,
                            v.len() as int,
                        ));
                    }
                }
            } else {
                assert(!has_prefix(s, p@)) by {
                    if has_prefix(s, p@) {
                        assert(s.subrange(0, 13) =~= v@.subrange(0, 13));
                    }
                }
            }
            crate::text::to_owned_string(value.as_str())
        },
        MdNode::Element { .. } => String::new(),
    }
}

/// The children of a list that `clean_orphans` keeps, each cleaned.
fn clean_children(children: Vec<MdNode>) -> (r: Vec<MdNode>)
    requires
        all_safe(docs(children@)),
    ensures
        docs(r@) == clean_list(docs(children@), 0, 0),
    decreases children@,
{
    let ghost cs = docs(children@);
    let mut result: Vec<MdNode> = Vec::new();
    let mut mode: u8 = 0;
    let ghost mut idx: int = 0;
    for child in it: children.into_iter()
        invariant
            it.seq() == children@,
            idx == it.index(),
            cs == docs(children@),
            all_safe(cs),
            mode <= 2,
            clean_list(cs, 0, 0) == docs(result@) + clean_list(cs, idx as int, mode as int),
    {
        assert(child == children@[idx]);
        assert(cs[idx] == child@);
        assert(safe(child@));
        let exec = is_executable_node(&child);
        let out = is_output_node(&child);
        let ghost before = docs(result@);
        if mode == 0 {
            if exec {
                let c = clean_node(child);
                result.push(c);
                mode = 1;
            } else if out {
            } else {
                let c = clean_node(child);
                result.push(c);
            }
        } else {
            if out {
                if mode == 1 {
                    let c = clean_node(child);
                    result.push(c);
                }
                mode = 2;
            } else if exec {
                let c = clean_node(child);
                result.push(c);
                mode = 1;
            } else {
                let c = clean_node(child);
                result.push(c);
            }
        }
        assert(docs(result@) =~= before + (docs(result@).subrange(before.len() as int, docs(result@).len() as int)));
        proof {
            idx = idx + 1;
        }
    }
    assert(clean_list(cs, idx, mode as int) =~= Seq::empty());
    assert(docs(result@) =~= docs(result@) + Seq::<Doc>::empty());
    result
}

/// `node` with its children cleaned (see `clean_tree`).
fn clean_node(node: MdNode) -> (r: MdNode)
    requires
        safe(node@),
    ensures
        r@ == clean_tree(node@),
    decreases node,
{
    match node {
        MdNode::Element { info, source, children } => {
            proof {
                assert(docs(children@) =~= kids(node@));
            }
            let cs = clean_children(children);
            let r = MdNode::Element { info, source, children: cs };
            proof {
                lemma_children_view(r);
            }
            r
        },
        other => other,
    }
}

/// Removes the output nodes that belong to no executable node: in every list
/// of children, those before the first executable node, and after each
/// executable node all but the first output node before the next executable node.
pub fn clean_orphans(ast: MdNode) -> (r: MdNode)
    requires
        safe(ast@),
    ensures
        r@ == clean_tree(ast@),
{
    clean_node(ast)
}

} // verus!
