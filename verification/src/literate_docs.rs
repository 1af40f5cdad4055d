//! The literate-document pipeline: read the document, run its executable
//! blocks, write each output after its block, drop outputs that belong to
//! no block, and write the document back.
use crate::document::{opt_view, comment_close, comment_open, comment_safe, docs, head_safe, lemma_children_view, safe, Doc, MdNode};
use crate::extract_code_blocks::{blocks_tree, block_views, extract_executable_code_blocks};
use crate::execute_code_blocks::language_config::ExecutableCodeBlock;
use crate::fill_output_blocks::{fill_output_blocks, fill_tree, strings};
use crate::output_node::{clean_orphans, clean_tree, OutputInfo};
use crate::text::{chars_of, has_prefix, has_suffix, matches_at, trim, trim_bounds};
use crate::with_output_nodes::{lemma_wo_safe, with_output_nodes, wo_tree};
use std::collections::VecDeque;
use crate::parse_markdown::markdown_doc;
use crate::render_markdown::rendered;
use crate::execute_code_blocks::sync_execution::block_result;
use vstd::prelude::*;

verus! {

/// The document after its outputs have been written: every executable node
/// paired with an output node, the outputs that belong to no executable node
/// removed, and the outputs filled in order into the output nodes left, one
/// per executable node.
pub open spec fn transformed(t: Doc, outs: Seq<Seq<char>>) -> Doc {
    fill_tree(clean_tree(wo_tree(t).0), outs, 0).0
}

/// Writes `outputs` (the outputs of the document's executable blocks, in
/// document order) into the document (see `transformed`).
pub fn transform_ast(ast: MdNode, outputs: Vec<String>) -> (r: MdNode)
    requires
        safe(ast@),
    ensures
        r@ == transformed(ast@, strings(outputs@)),
{
    let info = with_output_nodes(&ast);
    let mut queue: VecDeque<String> = VecDeque::new();
    let ghost outs = outputs@;
    for o in it: outputs.into_iter()
        invariant
            it.seq() == outs,
            queue@ == outs.take(it.index() as int),
    {
        queue.push_back(o);
        assert(outs.take(it.index() + 1) =~= outs.take(it.index() as int).push(o));
    }
    assert(outs.take(outs.len() as int) =~= outs);
    proof {
        lemma_wo_safe(ast@);
    }
    let OutputInfo { ast: paired, orphans } = info;
    let cleaned = clean_orphans(paired);
    fill_output_blocks(OutputInfo { ast: cleaned, orphans }, &mut queue)
}

/// Whether an HTML comment can be read as a hidden exec comment (see `comment_safe`).
pub fn is_comment_safe(comment: &str) -> (r: bool)
    ensures
        r == comment_safe(comment@),
{
    let v = chars_of(comment);
    let (a, b) = trim_bounds(&v, 0, v.len());
    assert(v@.subrange(0, v@.len() as int) == v@);
    let ghost t = trim(comment@);
    if b - a >= 7 {
        return true;
    }
    let mut open: Vec<char> = Vec::new();
    open.push('<');
    open.push('!');
    open.push('-');
    open.push('-');
    let mut close: Vec<char> = Vec::new();
    close.push('-');
    close.push('-');
    close.push('>');
    assert(open@ =~= comment_open());
    assert(close@ =~= comment_close());
    let p = b - a >= 4 && matches_at(&v, &open, a);
    let q = b - a >= 3 && matches_at(&v, &close, b - 3);
    proof {
        if b - a >= 4 {
            assert(t.subrange(0, 4) =~= v@.subrange(a as int, a + 4));
        }
        if b - a >= 3 {
            assert(t.subrange(t.len() - 3, t.len() as int) =~= v@.subrange(b - 3, b as int));
        }
    }
    !(p && q)
}

/// Whether every HTML node of the document can be read as a hidden exec comment.
pub fn is_safe_document(node: &MdNode) -> (r: bool)
    ensures
        r == safe(node@),
    decreases node,
{
    match node {
        MdNode::Html { value } => is_comment_safe(value.as_str()),
        MdNode::Code { .. } => true,
        MdNode::Element { children, .. } => {
            proof {
                lemma_children_view(*node);
            }
            let mut i: usize = 0;
            #[verifier::loop_isolation(false)]
            while i < children.len()
                invariant
                    i <= children.len(),
                    forall|j: int| 0 <= j < i ==> safe(#[trigger] docs(children@)[j]),
                decreases children.len() - i,
            {
                assert(decreases_to!(*node => children@[i as int]));
                if !is_safe_document(&children[i]) {
                    assert(node@->children[i as int] == children@[i as int]@);
                    assert(!safe(node@->children[i as int]));
                    return false;
                }
                i += 1;
            }
            true
        },
    }
}

/// The executable blocks of a markdown text, in document order, with the
/// text's document tree (see `markdown_doc`); `None` exactly when the text
/// holds an HTML comment that cannot be read as a hidden exec comment
/// (`<!-->`, `<!--->`).
pub fn prepare(input: &str) -> (r: Option<(MdNode, Vec<ExecutableCodeBlock>)>)
    ensures
        r is None <==> !safe(markdown_doc(input@)),
        r matches Some((ast, blocks)) ==> ast@ == markdown_doc(input@) && safe(ast@) && block_views(blocks@) == blocks_tree(ast@),
{
    let ast = crate::parse_markdown::parse_markdown(input);
    if !is_safe_document(&ast) {
        return None;
    }
    let blocks = extract_executable_code_blocks(&ast);
    Some((ast, blocks))
}

/// The text `literate_docs` writes for `input` when the blocks' outputs,
/// in document order, are `outs` (see `transformed` and `rendered`).
pub open spec fn literate_text(input: Seq<char>, outs: Seq<Seq<char>>) -> Option<Seq<char>> {
    rendered(input, transformed(markdown_doc(input), outs))
}

/// Runs the executable blocks of a markdown text and writes their outputs
/// into it: each output goes into the output node that follows its block
/// (an `output` code block is added where there is none), outputs that belong
/// to no block are removed, and the text is written back, ending with a
/// newline only if the input did. Output `i` is what running block `i` gives
/// (see `block_result`). `None` when the text holds an HTML comment that
/// cannot be read as a hidden exec comment (`<!-->`, `<!--->`), when the
/// document cannot be given to the markdown writer (see `writable`), or when
/// the writer reports an error for it.
pub fn literate_docs(input: &str) -> (r: Option<String>)
    ensures
        !safe(markdown_doc(input@)) ==> r is None,
        safe(markdown_doc(input@)) ==> exists|outs: Seq<Seq<char>>| {
            &&& outs.len() == blocks_tree(markdown_doc(input@)).len()
            &&& forall|i: int| 0 <= i < outs.len() ==> block_result(blocks_tree(markdown_doc(input@))[i].lang, #[trigger] outs[i])
            &&& opt_view(r) == literate_text(input@, outs)
        },
        r matches Some(s) ==> !(input@.len() > 0 && input@.last() == '\n') ==> s@ == crate::text::trim_end_char(s@, '\n'),
{
    match prepare(input) {
        None => None,
        Some((ast, blocks)) => {
            let outputs = crate::execute_code_blocks::sync_execution::execute_code_blocks(&blocks);
            let ghost outs = strings(outputs@);
            proof {
                assert forall|i: int| 0 <= i < outs.len()
                    implies block_result(blocks_tree(markdown_doc(input@))[i].lang, #[trigger] outs[i]) by {
                    assert(block_views(blocks@)[i] == blocks@[i]@);
                    assert(outs[i] == outputs@[i]@);
                }
            }
            let ast = transform_ast(ast, outputs);
            let r = crate::render_markdown::render_markdown(input, ast);
            assert(opt_view(r) == literate_text(input@, outs));
            r
        },
    }
}

} // verus!
