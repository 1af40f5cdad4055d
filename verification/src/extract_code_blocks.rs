//! Collecting the executable code of a document.
use crate::document::{all_safe, docs, lemma_children_view, safe, spec_block_of, Doc, MdNode,
    SpecBlock};
use crate::execute_code_blocks::language_config::ExecutableCodeBlock;
use vstd::prelude::*;

verus! {

/// The executable block of a node, as a sequence of zero or one blocks.
pub open spec fn block_seq(n: Doc) -> Seq<SpecBlock> {
    match spec_block_of(n) {
        Some(b) => seq![b],
        None => Seq::empty(),
    }
}

/// The executable blocks below `n`, in document order (`n` itself not included).
pub open spec fn blocks_tree(n: Doc) -> Seq<SpecBlock>
    decreases n, 0int,
{
    match n {
        Doc::Element { children, .. } => blocks_list(children, 0),
        _ => Seq::empty(),
    }
}

/// For each of `cs[i..]` in order: its own executable block, then those below it.
pub open spec fn blocks_list(cs: Seq<Doc>, i: int) -> Seq<SpecBlock>
    decreases cs, cs.len() - i,
{
    if i < 0 || i >= cs.len() {
        Seq::empty()
    } else {
        block_seq(cs[i]) + blocks_tree(cs[i]) + blocks_list(cs, i + 1)
    }
}

/// The plain contents of a sequence of blocks.
pub open spec fn block_views(v: Seq<ExecutableCodeBlock>) -> Seq<SpecBlock> {
    v.map_values(|b: ExecutableCodeBlock| b@)
}

fn collect(node: &MdNode, acc: &mut Vec<ExecutableCodeBlock>)
    requires
        safe(node@),
    ensures
        block_views(final(acc)@) == block_views(old(acc)@) + blocks_tree(node@),
    decreases node, 0int,
{
    match node {
        MdNode::Element { children, .. } => {
            proof {
                lemma_children_view(*node);
            }
            let ghost cs = docs(children@);
            let ghost start = block_views(acc@);
            let mut i: usize = 0;
            #[verifier::loop_isolation(false)]
            while i < children.len()
                invariant
                    i <= children.len(),
                    cs == docs(children@),
                    all_safe(cs),
                    blocks_tree(node@) == blocks_list(cs, 0),
                    start + blocks_list(cs, 0) == block_views(acc@) + blocks_list(cs, i as int),
                decreases children.len() - i,
            {
                assert(decreases_to!(*node => children@[i as int]));
                assert(cs[i as int] == children@[i as int]@);
                let ghost before = block_views(acc@);
                match ExecutableCodeBlock::try_from(&children[i]) {
                    Ok(b) => {
                        acc.push(b);
                        assert(block_views(acc@) =~= before + block_seq(cs[i as int]));
                    },
                    Err(_) => {
                        assert(block_views(acc@) =~= before + block_seq(cs[i as int]));
                    },
                }
                let ghost mid = block_views(acc@);
                collect(&children[i], acc);
                assert(block_views(acc@) =~= before + block_seq(cs[i as int]) + blocks_tree(cs[i as int]));
                i += 1;
            }
            assert(block_views(acc@) + Seq::<SpecBlock>::empty() =~= block_views(acc@));
        },
        _ => {
            assert(block_views(acc@) + Seq::<SpecBlock>::empty() =~= block_views(acc@));
        },
    }
}

/// The executable blocks of the document, in document order: every code block
/// with an executable language and the `exec` word, and every hidden
/// `<!-- lang exec: code -->` comment, at any depth.
pub fn extract_executable_code_blocks(node: &MdNode) -> (r: Vec<ExecutableCodeBlock>)
    requires
        safe(node@),
    ensures
        block_views(r@) == blocks_tree(node@),
{
    let mut acc = Vec::new();
    collect(node, &mut acc);
    assert(block_views(acc@) =~= Seq::<SpecBlock>::empty() + blocks_tree(node@));
    acc
}

} // verus!
