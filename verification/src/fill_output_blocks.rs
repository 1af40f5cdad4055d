//! Writing run outputs into the output nodes of a document.
use crate::document::{docs, is_output, lemma_children_view, Doc, MdNode};
use crate::output_node::{is_output_node, update_output_value, updated, OutputInfo};
use std::collections::VecDeque;
use vstd::prelude::*;

verus! {

/// The plain contents of a sequence of strings.
pub open spec fn strings(s: Seq<String>) -> Seq<Seq<char>> {
    s.map_values(|x: String| x@)
}

/// The tree with its output nodes, in document order, given `outs[k]`,
/// `outs[k + 1]`, ... until the outputs run out; also the index of the first
/// output not used.
pub open spec fn fill_tree(n: Doc, outs: Seq<Seq<char>>, k: int) -> (Doc, int)
    decreases n, 0int,
{
    match n {
        Doc::Element { info, source, children } => {
            let r = fill_list(children, 0, outs, k);
            (Doc::Element { info, source, children: r.0 }, r.1)
        },
        _ => if is_output(n) && 0 <= k < outs.len() {
            (updated(n, outs[k]), k + 1)
        } else {
            (n, k)
        },
    }
}

/// `fill_tree` over `cs[i..]`, in order.
pub open spec fn fill_list(cs: Seq<Doc>, i: int, outs: Seq<Seq<char>>, k: int) -> (Seq<Doc>, int)
    decreases cs, cs.len() - i,
{
    if i < 0 || i >= cs.len() {
        (Seq::empty(), k)
    } else {
        let a = fill_tree(cs[i], outs, k);
        let b = fill_list(cs, i + 1, outs, a.1);
        (seq![a.0] + b.0, b.1)
    }
}

/// Filling uses the outputs from `k` on, and no further than there are.
pub proof fn lemma_fill_index(n: Doc, outs: Seq<Seq<char>>, k: int)
    requires
        0 <= k <= outs.len(),
    ensures
        k <= fill_tree(n, outs, k).1 <= outs.len(),
    decreases n, 0int,
{
    match n {
        Doc::Element { children, .. } => lemma_fill_list_index(children, 0, outs, k),
        _ => {},
    }
}

/// `lemma_fill_index` for a list.
pub proof fn lemma_fill_list_index(cs: Seq<Doc>, i: int, outs: Seq<Seq<char>>, k: int)
    requires
        0 <= k <= outs.len(),
    ensures
        k <= fill_list(cs, i, outs, k).1 <= outs.len(),
    decreases cs, cs.len() - i,
{
    if 0 <= i < cs.len() {
        lemma_fill_index(cs[i], outs, k);
        lemma_fill_list_index(cs, i + 1, outs, fill_tree(cs[i], outs, k).1);
    }
}

fn fill_node(node: MdNode, outputs: &mut VecDeque<String>) -> (r: MdNode)
    ensures
        ({
            let f = fill_tree(node@, strings(old(outputs)@), 0);
            &&& r@ == f.0
            &&& final(outputs)@ == old(outputs)@.skip(f.1)
        }),
    decreases node, 0int,
{
    proof {
        lemma_fill_index(node@, strings(old(outputs)@), 0);
    }
    match node {
        MdNode::Element { info, source, children } => {
            proof {
                lemma_children_view(MdNode::Element { info, source, children });
            }
            let cs = fill_children(children, outputs);
            let r = MdNode::Element { info, source, children: cs };
            proof {
                lemma_children_view(r);
            }
            r
        },
        other => {
            let mut other = other;
            if is_output_node(&other) {
                let ghost before = outputs@;
                match outputs.pop_front() {
                    Some(out) => {
                        proof {
                            assert(out@ == strings(before)[0]);
                            assert(outputs@ =~= before.skip(1));
                        }
                        update_output_value(&mut other, out.as_str());
                        other
                    },
                    None => {
                        assert(old(outputs)@.skip(0) =~= old(outputs)@);
                        other
                    },
                }
            } else {
                assert(old(outputs)@.skip(0) =~= old(outputs)@);
                other
            }
        },
    }
}

fn fill_children(children: Vec<MdNode>, outputs: &mut VecDeque<String>) -> (r: Vec<MdNode>)
    ensures
        ({
            let f = fill_list(docs(children@), 0, strings(old(outputs)@), 0);
            &&& docs(r@) == f.0
            &&& final(outputs)@ == old(outputs)@.skip(f.1)
        }),
    decreases children@, 0int,
{
    let ghost cs = docs(children@);
    let ghost outs = strings(old(outputs)@);
    let ghost target = fill_list(cs, 0, outs, 0);
    proof {
        lemma_fill_list_index(cs, 0, outs, 0);
    }
    let mut result: Vec<MdNode> = Vec::new();
    let ghost mut idx: int = 0;
    let ghost mut used: int = 0;
    for child in it: children.into_iter()
        invariant
            it.seq() == children@,
            idx == it.index(),
            cs == docs(children@),
            outs == strings(old(outputs)@),
            0 <= used <= outs.len(),
            outputs@ == old(outputs)@.skip(used),
            target == fill_list(cs, 0, outs, 0),
            target.0 == docs(result@) + fill_list(cs, idx, outs, used).0,
            target.1 == fill_list(cs, idx, outs, used).1,
    {
        assert(child == children@[idx]);
        assert(cs[idx] == child@);
        proof {
            lemma_fill_index(child@, outs, used);
            assert(strings(outputs@) =~= outs.skip(used));
        }
        let ghost a = fill_tree(child@, outs, used);
        let ghost before = docs(result@);
        let c = fill_node(child, outputs);
        proof {
            // filling against the remaining outputs equals filling against all of them from `used`
            lemma_fill_shift(child@, outs, used);
        }
        result.push(c);
        proof {
            assert(docs(result@) =~= before.push(a.0));
            assert(outputs@ =~= old(outputs)@.skip(a.1));
            used = a.1;
            idx = idx + 1;
        }
    }
    proof {
        assert(docs(result@) + Seq::<Doc>::empty() =~= docs(result@));
    }
    result
}

/// Filling with `outs` from position `k` is filling with the outputs left after `k`.
pub proof fn lemma_fill_shift(n: Doc, outs: Seq<Seq<char>>, k: int)
    requires
        0 <= k <= outs.len(),
    ensures
        fill_tree(n, outs.skip(k), 0).0 == fill_tree(n, outs, k).0,
        fill_tree(n, outs.skip(k), 0).1 + k == fill_tree(n, outs, k).1,
    decreases n, 0int,
{
    match n {
        Doc::Element { children, .. } => lemma_fill_list_shift(children, 0, outs, k, 0),
        _ => {},
    }
}

/// Filling from output `j` of `outs` without its first `k` is filling from output `k + j` (a list).
pub proof fn lemma_fill_list_shift(cs: Seq<Doc>, i: int, outs: Seq<Seq<char>>, k: int, j: int)
    requires
        0 <= k,
        0 <= j,
        k + j <= outs.len(),
    ensures
        fill_list(cs, i, outs.skip(k), j).0 == fill_list(cs, i, outs, k + j).0,
        fill_list(cs, i, outs.skip(k), j).1 + k == fill_list(cs, i, outs, k + j).1,
    decreases cs, cs.len() - i,
{
    if 0 <= i < cs.len() {
        lemma_fill_gen_shift(cs[i], outs, k, j);
        lemma_fill_index(cs[i], outs, k + j);
        let a = fill_tree(cs[i], outs, k + j);
        lemma_fill_list_shift(cs, i + 1, outs, k, a.1 - k);
    }
}

/// Filling from output `j` of `outs` without its first `k` is filling from output `k + j`.
pub proof fn lemma_fill_gen_shift(n: Doc, outs: Seq<Seq<char>>, k: int, j: int)
    requires
        0 <= k,
        0 <= j,
        k + j <= outs.len(),
    ensures
        fill_tree(n, outs.skip(k), j).0 == fill_tree(n, outs, k + j).0,
        fill_tree(n, outs.skip(k), j).1 + k == fill_tree(n, outs, k + j).1,
    decreases n, 0int,
{
    match n {
        Doc::Element { children, .. } => lemma_fill_list_shift(children, 0, outs, k, j),
        _ => {},
    }
}

/// The number of output nodes of a node and its subtree.
pub open spec fn output_count(n: Doc) -> int
    decreases n, 0int,
{
    match n {
        Doc::Element { children, .. } => output_count_list(children, 0),
        _ => if is_output(n) { 1 } else { 0 },
    }
}

/// The number of output nodes among `cs[i..]` and their subtrees.
pub open spec fn output_count_list(cs: Seq<Doc>, i: int) -> int
    decreases cs, cs.len() - i,
{
    if i < 0 || i >= cs.len() {
        0
    } else {
        output_count(cs[i]) + output_count_list(cs, i + 1)
    }
}

/// Filling takes exactly as many outputs as the tree has output nodes, or as
/// there are outputs left, whichever is fewer: from output `k` on, it stops
/// at `min(k + output_count(n), outs.len())`.
pub proof fn lemma_fill_uses(n: Doc, outs: Seq<Seq<char>>, k: int)
    requires
        0 <= k <= outs.len(),
    ensures
        output_count(n) >= 0,
        fill_tree(n, outs, k).1 == (if k + output_count(n) <= outs.len() { k + output_count(n) } else { outs.len() as int }),
    decreases n, 0int,
{
    match n {
        Doc::Element { children, .. } => lemma_fill_list_uses(children, 0, outs, k),
        _ => {},
    }
}

/// `lemma_fill_uses` for a list.
pub proof fn lemma_fill_list_uses(cs: Seq<Doc>, i: int, outs: Seq<Seq<char>>, k: int)
    requires
        0 <= k <= outs.len(),
    ensures
        output_count_list(cs, i) >= 0,
        fill_list(cs, i, outs, k).1 == (if k + output_count_list(cs, i) <= outs.len() {
            k + output_count_list(cs, i)
        } else {
            outs.len() as int
        }),
    decreases cs, cs.len() - i,
{
    if 0 <= i < cs.len() {
        lemma_fill_uses(cs[i], outs, k);
        let a = fill_tree(cs[i], outs, k).1;
        lemma_fill_list_uses(cs, i + 1, outs, a);
    }
}

/// Writes the outputs, in order, into the output nodes of the document, in
/// document order, until the outputs run out; the outputs used are taken off
/// the front of `outputs`.
pub fn fill_output_blocks(info: OutputInfo, outputs: &mut VecDeque<String>) -> (r: MdNode)
    ensures
        ({
            let f = fill_tree(info.ast@, strings(old(outputs)@), 0);
            &&& r@ == f.0
            &&& final(outputs)@ == old(outputs)@.skip(f.1)
        }),
{
    fill_node(info.ast, outputs)
}

} // verus!

verus! {

/// An output comment has no surrounding whitespace and is long enough to be
/// read as a comment.
pub proof fn lemma_output_comment_safe(out: Seq<char>)
    ensures
        crate::document::comment_safe(crate::output_node::output_comment(out)),
{
    let s = crate::output_node::output_comment(out);
    assert(s[0] == '<');
    assert(s[s.len() - 1] == '>');
    assert(!crate::text::is_ws('<'));
    assert(!crate::text::is_ws('>'));
    assert(crate::text::lead_ws_from(s, 0) == 0);
    assert(crate::text::trim_start(s) =~= s);
    assert(crate::text::trim_end_index(s, s.len() as int) == s.len());
    assert(crate::text::trim(s) =~= s);
}

/// Filling output nodes keeps a safe document safe.
pub proof fn lemma_fill_safe(n: Doc, outs: Seq<Seq<char>>, k: int)
    requires
        crate::document::safe(n),
    ensures
        crate::document::safe(fill_tree(n, outs, k).0),
    decreases n, 0int,
{
    match n {
        Doc::Element { children, .. } => {
            lemma_fill_list_safe(children, 0, outs, k);
        },
        Doc::Html { value } => {
            if is_output(n) && 0 <= k < outs.len() {
                lemma_output_comment_safe(outs[k]);
            }
        },
        _ => {},
    }
}

/// `lemma_fill_safe` for a list.
pub proof fn lemma_fill_list_safe(cs: Seq<Doc>, i: int, outs: Seq<Seq<char>>, k: int)
    requires
        crate::document::all_safe(cs),
    ensures
        crate::document::all_safe(fill_list(cs, i, outs, k).0),
    decreases cs, cs.len() - i,
{
    if 0 <= i < cs.len() {
        lemma_fill_safe(cs[i], outs, k);
        let a = fill_tree(cs[i], outs, k);
        lemma_fill_list_safe(cs, i + 1, outs, a.1);
        let b = fill_list(cs, i + 1, outs, a.1).0;
        let all = seq![a.0] + b;
        assert forall|m: int| 0 <= m < all.len() implies crate::document::safe(#[trigger] all[m]) by {
            if m >= 1 {
                assert(all[m] == b[m - 1]);
            }
        }
    }
}

} // verus!
