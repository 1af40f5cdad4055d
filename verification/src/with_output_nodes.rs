//! Pairing every executable node with an output node.
use crate::document::{all_safe, docs, is_exec, is_output, kids, lemma_children_view, safe, Doc,
    MdNode};
use crate::execute_code_blocks::language_config::is_executable_node;
use crate::output_node::{
    create_output_placeholder, is_output_node, output_format, placeholder, spec_output_format,
    OutputEntry, OutputFormat, OutputInfo,
};
use vstd::prelude::*;

verus! {

/// Position of the first output node in `cs` from `j` on, if one comes
/// before the next executable node.
pub open spec fn first_output(cs: Seq<Doc>, j: int) -> Option<int>
    decreases cs.len() - j,
{
    if j < 0 || j >= cs.len() || is_exec(cs[j]) {
        None
    } else if is_output(cs[j]) {
        Some(j)
    } else {
        first_output(cs, j + 1)
    }
}

/// The entry recorded for an output node that follows no executable node,
/// after `ci` executable nodes of its list.
pub open spec fn orphan_entry(n: Doc, ci: int) -> OutputEntry {
    OutputEntry {
        code_index: (if ci > 0 { ci - 1 } else { 0 }) as usize,
        format: match spec_output_format(n) {
            Some(f) => f,
            None => OutputFormat::CodeBlock,
        },
    }
}

/// The tree with an output node after every executable node that lacks one,
/// and the orphan entries found, in document order.
pub open spec fn wo_tree(n: Doc) -> (Doc, Seq<OutputEntry>)
    decreases n, 0int,
{
    match n {
        Doc::Element { info, source, children } => {
            let r = wo_list(children, 0, 0);
            (Doc::Element { info, source, children: r.0 }, r.1)
        },
        _ => (n, Seq::empty()),
    }
}

/// `wo_tree` of each of `cs[j..k]`, concatenated.
pub open spec fn wo_range(cs: Seq<Doc>, j: int, k: int) -> (Seq<Doc>, Seq<OutputEntry>)
    decreases cs, k - j,
{
    if j < 0 || j >= k || j >= cs.len() {
        (Seq::empty(), Seq::empty())
    } else {
        let a = wo_tree(cs[j]);
        let b = wo_range(cs, j + 1, k);
        (seq![a.0] + b.0, a.1 + b.1)
    }
}

/// The list `cs` from position `i` on, with `ci` executable nodes before `i`:
/// an executable node keeps the first output node before the next executable
/// node, with what lies between, or gets an empty `output` code block right
/// after it; an output node that follows no executable node stays where it is
/// and is recorded as an orphan.
pub open spec fn wo_list(cs: Seq<Doc>, i: int, ci: int) -> (Seq<Doc>, Seq<OutputEntry>)
    decreases cs, cs.len() - i,
{
    if i < 0 || i >= cs.len() {
        (Seq::empty(), Seq::empty())
    } else if is_exec(cs[i]) {
        let p = wo_tree(cs[i]);
        match first_output(cs, i + 1) {
            Some(k) => {
                if i + 1 <= k < cs.len() {
                    let mid = wo_range(cs, i + 1, k);
                    let rest = wo_list(cs, k + 1, ci + 1);
                    (seq![p.0] + mid.0 + seq![cs[k]] + rest.0, p.1 + mid.1 + rest.1)
                } else {
                    (Seq::empty(), Seq::empty())
                }
            },
            None => {
                let rest = wo_list(cs, i + 1, ci + 1);
                (seq![p.0, placeholder()] + rest.0, p.1 + rest.1)
            },
        }
    } else if is_output(cs[i]) {
        let rest = wo_list(cs, i + 1, ci);
        (seq![cs[i]] + rest.0, seq![orphan_entry(cs[i], ci)] + rest.1)
    } else {
        let p = wo_tree(cs[i]);
        let rest = wo_list(cs, i + 1, ci);
        (seq![p.0] + rest.0, p.1 + rest.1)
    }
}

/// What `first_output` finds is an output node with neither output nor
/// executable nodes before it; when it finds none, every output node from
/// `j` on comes after an executable node.
pub proof fn lemma_first_output(cs: Seq<Doc>, j: int)
    requires
        0 <= j,
    ensures
        first_output(cs, j) matches Some(k) ==> j <= k < cs.len() && is_output(cs[k]) && !is_exec(
            cs[k],
        ) && forall|m: int| j <= m < k ==> !is_exec(#[trigger] cs[m]) && !is_output(cs[m]),
        first_output(cs, j) is None ==> forall|m: int|
            j <= m < cs.len() ==> is_exec(#[trigger] cs[m]) || !is_output(cs[m]) || exists|e: int|
                j <= e < m && is_exec(cs[e]),
    decreases cs.len() - j,
{
    if j < cs.len() && !is_exec(cs[j]) && !is_output(cs[j]) {
        lemma_first_output(cs, j + 1);
        if first_output(cs, j) is None {
            assert forall|m: int|
                j <= m < cs.len() implies is_exec(#[trigger] cs[m]) || !is_output(cs[m]) || exists|
                e: int,
            | j <= e < m && is_exec(cs[e]) by {
                if m > j && !is_exec(cs[m]) && is_output(cs[m]) {
                    let e = choose|e: int| j + 1 <= e < m && is_exec(cs[e]);
                    assert(j <= e < m && is_exec(cs[e]));
                }
            }
        }
    } else if j < cs.len() && is_exec(cs[j]) {
        assert forall|m: int|
            j <= m < cs.len() implies is_exec(#[trigger] cs[m]) || !is_output(cs[m]) || exists|
            e: int,
        | j <= e < m && is_exec(cs[e]) by {
            if m > j {
                assert(j <= j < m && is_exec(cs[j]));
            }
        }
    }
}

/// Position of the first output node in `children` from `start` on, if one
/// comes before the next executable node.
fn find_output_before_next_executable(children: &Vec<MdNode>, start: usize) -> (r: Option<usize>)
    requires
        all_safe(docs(children@)),
    ensures
        r matches Some(k) ==> first_output(docs(children@), start as int) == Some(k as int),
        r is None ==> first_output(docs(children@), start as int) is None,
{
    let ghost cs = docs(children@);
    let mut j = start;
    while j < children.len()
        invariant
            start <= j,
            cs == docs(children@),
            all_safe(cs),
            first_output(cs, start as int) == first_output(cs, j as int),
        decreases children.len() - j,
    {
        assert(cs[j as int] == children@[j as int]@);
        if is_executable_node(&children[j]) {
            return None;
        }
        if is_output_node(&children[j]) {
            return Some(j);
        }
        j += 1;
    }
    None
}

/// `wo_tree` of `node`; its orphan entries are appended to `orphans`.
fn process_node(node: &MdNode, orphans: &mut Vec<OutputEntry>) -> (r: MdNode)
    requires
        safe(node@),
    ensures
        r@ == wo_tree(node@).0,
        final(orphans)@ == old(orphans)@ + wo_tree(node@).1,
    decreases node, 0int,
{
    match node {
        MdNode::Element { info, source, children } => {
            proof {
                lemma_children_view(*node);
            }
            let (cs, _) = process_children(children, orphans);
            let r = MdNode::Element {
                info: info.duplicate(),
                source: crate::document::clone_source(source),
                children: cs,
            };
            proof {
                lemma_children_view(r);
            }
            r
        },
        _ => {
            proof {
                assert(old(orphans)@ + Seq::<OutputEntry>::empty() =~= old(orphans)@);
            }
            node.duplicate()
        },
    }
}

/// `wo_list` of a whole list; also returns the number of executable nodes in it.
fn process_children(children: &Vec<MdNode>, orphans: &mut Vec<OutputEntry>) -> (r: (
    Vec<MdNode>,
    usize,
))
    requires
        all_safe(docs(children@)),
    ensures
        docs(r.0@) == wo_list(docs(children@), 0, 0).0,
        final(orphans)@ == old(orphans)@ + wo_list(docs(children@), 0, 0).1,
    decreases children@, 0int,
{
    let ghost cs = docs(children@);
    let ghost target = wo_list(cs, 0, 0);
    let mut result: Vec<MdNode> = Vec::new();
    let mut code_index: usize = 0;
    let mut i: usize = 0;
    while i < children.len()
        invariant
            i <= children.len(),
            code_index <= i,
            cs == docs(children@),
            all_safe(cs),
            target == wo_list(cs, 0, 0),
            target.0 == docs(result@) + wo_list(cs, i as int, code_index as int).0,
            old(orphans)@ + target.1 == orphans@ + wo_list(cs, i as int, code_index as int).1,
        decreases children.len() - i,
    {
        let ghost rest_before = wo_list(cs, i as int, code_index as int);
        let ghost res_before = docs(result@);
        let ghost orph_before = orphans@;
        assert(cs[i as int] == children@[i as int]@);
        assert(decreases_to!(children@ => children@[i as int]));
        if is_executable_node(&children[i]) {
            let placed = process_node(&children[i], orphans);
            result.push(placed);
            proof {
                assert(docs(result@) =~= res_before.push(wo_tree(cs[i as int]).0));
            }
            code_index += 1;
            match find_output_before_next_executable(children, i + 1) {
                Some(output_idx) => {
                    proof {
                        lemma_first_output(cs, i + 1);
                    }
                    let ghost mid_target = wo_range(cs, i + 1, output_idx as int);
                    let ghost res_mid = docs(result@);
                    let ghost orph_mid = orphans@;
                    let mut j = i + 1;
                    while j < output_idx
                        invariant
                            i + 1 <= j <= output_idx,
                            output_idx < children.len(),
                            cs == docs(children@),
                            all_safe(cs),
                            mid_target == wo_range(cs, i + 1, output_idx as int),
                            mid_target.0 == docs(result@).subrange(res_mid.len() as int, docs(result@).len() as int)
                                + wo_range(cs, j as int, output_idx as int).0,
                            res_mid == docs(result@).subrange(0, res_mid.len() as int),
                            res_mid.len() <= docs(result@).len(),
                            orph_mid + mid_target.1 == orphans@ + wo_range(cs, j as int, output_idx as int).1,
                        decreases output_idx - j,
                    {
                        assert(decreases_to!(children@ => children@[j as int]));
                        assert(cs[j as int] == children@[j as int]@);
                        let ghost rb = docs(result@);
                        let ghost ob = orphans@;
                        let p = process_node(&children[j], orphans);
                        result.push(p);
                        proof {
                            assert(docs(result@) =~= rb.push(p@));
                            assert(docs(result@).subrange(0, res_mid.len() as int) =~= rb.subrange(0, res_mid.len() as int));
                            assert(docs(result@).subrange(res_mid.len() as int, docs(result@).len() as int)
                                =~= rb.subrange(res_mid.len() as int, rb.len() as int).push(p@));
                            assert(orphans@ =~= ob + wo_tree(cs[j as int]).1);
                        }
                        j += 1;
                    }
                    proof {
                        let d = docs(result@);
                        assert(d =~= d.subrange(0, res_mid.len() as int) + d.subrange(res_mid.len() as int, d.len() as int));
                        assert(wo_range(cs, j as int, output_idx as int).0 =~= Seq::<Doc>::empty());
                        assert(d =~= res_mid + mid_target.0);
                    }
                    let ghost res_end = docs(result@);
                    let out = children[output_idx].duplicate();
                    result.push(out);
                    proof {
                        assert(docs(result@) =~= res_end.push(cs[output_idx as int]));
                        assert(wo_range(cs, j as int, output_idx as int).0 =~= Seq::<Doc>::empty());
                        assert(wo_range(cs, j as int, output_idx as int).1 =~= Seq::<OutputEntry>::empty());
                        let p = wo_tree(cs[i as int]);
                        let rest = wo_list(cs, output_idx + 1, code_index as int);
                        assert(rest_before.0 == seq![p.0] + mid_target.0 + seq![cs[output_idx as int]] + rest.0);
                        assert(docs(result@) =~= res_before + seq![p.0] + mid_target.0 + seq![cs[output_idx as int]]);
                        assert(orphans@ =~= orph_before + p.1 + mid_target.1);
                    }
                    i = output_idx + 1;
                },
                None => {
                    let ph = create_output_placeholder();
                    result.push(ph);
                    proof {
                        let p = wo_tree(cs[i as int]);
                        assert(docs(result@) =~= res_before + seq![p.0, placeholder()]);
                    }
                    i += 1;
                },
            }
        } else if is_output_node(&children[i]) {
            let f = output_format(&children[i]);
            match f {
                Some(format) => {
                    let e = OutputEntry {
                        code_index: if code_index > 0 { code_index - 1 } else { 0 },
                        format,
                    };
                    orphans.push(e);
                    let c = children[i].duplicate();
                    result.push(c);
                    proof {
                        assert(docs(result@) =~= res_before + seq![cs[i as int]]);
                        assert(orphans@ =~= orph_before + seq![orphan_entry(cs[i as int], code_index as int)]);
                    }
                },
                None => {},
            }
            i += 1;
        } else {
            let placed = process_node(&children[i], orphans);
            result.push(placed);
            proof {
                assert(docs(result@) =~= res_before + seq![wo_tree(cs[i as int]).0]);
            }
            i += 1;
        }
    }
    proof {
        assert(docs(result@) + Seq::<Doc>::empty() =~= docs(result@));
        assert(orphans@ + Seq::<OutputEntry>::empty() =~= orphans@);
    }
    (result, code_index)
}

/// The document with an output node after every executable node: the first
/// output node before the next executable node is kept as that node's output,
/// and where there is none an empty `output` code block is put right after it.
/// Output nodes that follow no executable node stay and are listed as orphans.
pub fn with_output_nodes(node: &MdNode) -> (r: OutputInfo)
    requires
        safe(node@),
    ensures
        r.ast@ == wo_tree(node@).0,
        r.orphans@ == wo_tree(node@).1,
{
    let mut orphans = Vec::new();
    let ast = process_node(node, &mut orphans);
    proof {
        assert(Seq::<OutputEntry>::empty() + wo_tree(node@).1 =~= wo_tree(node@).1);
    }
    OutputInfo { ast, orphans }
}

} // verus!

verus! {

/// Adding output nodes keeps a safe document safe.
pub proof fn lemma_wo_safe(n: Doc)
    requires
        safe(n),
    ensures
        safe(wo_tree(n).0),
    decreases n, 0int,
{
    match n {
        Doc::Element { children, .. } => {
            lemma_wo_list_safe(children, 0, 0);
        },
        _ => {},
    }
}

/// `wo_range` keeps the nodes safe.
pub proof fn lemma_wo_range_safe(cs: Seq<Doc>, j: int, k: int)
    requires
        all_safe(cs),
    ensures
        all_safe(wo_range(cs, j, k).0),
    decreases cs, k - j,
{
    if !(j < 0 || j >= k || j >= cs.len()) {
        lemma_wo_safe(cs[j]);
        lemma_wo_range_safe(cs, j + 1, k);
        let a = wo_tree(cs[j]).0;
        let b = wo_range(cs, j + 1, k).0;
        assert forall|m: int| 0 <= m < (seq![a] + b).len() implies safe(#[trigger] (seq![a] + b)[m]) by {
            if m > 0 {
                assert((seq![a] + b)[m] == b[m - 1]);
            }
        }
    }
}

/// `wo_list` keeps the nodes safe.
pub proof fn lemma_wo_list_safe(cs: Seq<Doc>, i: int, ci: int)
    requires
        all_safe(cs),
    ensures
        all_safe(wo_list(cs, i, ci).0),
    decreases cs, cs.len() - i,
{
    if !(i < 0 || i >= cs.len()) {
        if is_exec(cs[i]) {
            lemma_wo_safe(cs[i]);
            let p = wo_tree(cs[i]).0;
            match first_output(cs, i + 1) {
                Some(k) => {
                    if i + 1 <= k < cs.len() {
                        lemma_wo_range_safe(cs, i + 1, k);
                        lemma_wo_list_safe(cs, k + 1, ci + 1);
                        let mid = wo_range(cs, i + 1, k).0;
                        let rest = wo_list(cs, k + 1, ci + 1).0;
                        let all = seq![p] + mid + seq![cs[k]] + rest;
                        assert forall|m: int| 0 <= m < all.len() implies safe(#[trigger] all[m]) by {
                            if m == 0 {
                            } else if m < 1 + mid.len() {
                                assert(all[m] == mid[m - 1]);
                            } else if m == 1 + mid.len() {
                                assert(all[m] == cs[k]);
                            } else {
                                assert(all[m] == rest[m - 2 - mid.len()]);
                            }
                        }
                    }
                },
                None => {
                    lemma_wo_list_safe(cs, i + 1, ci + 1);
                    let rest = wo_list(cs, i + 1, ci + 1).0;
                    let all = seq![p, placeholder()] + rest;
                    assert forall|m: int| 0 <= m < all.len() implies safe(#[trigger] all[m]) by {
                        if m >= 2 {
                            assert(all[m] == rest[m - 2]);
                        }
                    }
                },
            }
        } else if is_output(cs[i]) {
            lemma_wo_list_safe(cs, i + 1, ci);
            let rest = wo_list(cs, i + 1, ci).0;
            let all = seq![cs[i]] + rest;
            assert forall|m: int| 0 <= m < all.len() implies safe(#[trigger] all[m]) by {
                if m >= 1 {
                    assert(all[m] == rest[m - 1]);
                }
            }
        } else {
            lemma_wo_safe(cs[i]);
            lemma_wo_list_safe(cs, i + 1, ci);
            let p = wo_tree(cs[i]).0;
            let rest = wo_list(cs, i + 1, ci).0;
            let all = seq![p] + rest;
            assert forall|m: int| 0 <= m < all.len() implies safe(#[trigger] all[m]) by {
                if m >= 1 {
                    assert(all[m] == rest[m - 1]);
                }
            }
        }
    }
}

} // verus!
