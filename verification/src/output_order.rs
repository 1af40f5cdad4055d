//! Where the outputs land: in a processed document the executable nodes and
//! the output nodes alternate in document order, and the output node after
//! the `j`-th executable node holds the `j`-th output.
use crate::document::{is_exec, is_output, spec_block_of, Doc, SpecBlock};
use crate::extract_code_blocks::{block_seq, blocks_list, blocks_tree};
use crate::fill_output_blocks::{fill_list, fill_tree};
use crate::output_node::{clean_list, clean_tree, output_comment, output_comment_close, output_comment_open, placeholder, spec_output_content, spec_output_format, updated};
use crate::with_output_nodes::{first_output, lemma_first_output, wo_list, wo_range, wo_tree};
use crate::literate_docs::transformed;
use crate::stability::{all_unambiguous, inert, paired_list, paired_tree, unambiguous};
use vstd::prelude::*;

verus! {

/// The executable nodes and output nodes of the tree, in document order.
pub open spec fn trail_tree(n: Doc) -> Seq<Doc>
    decreases n, 0int,
{
    match n {
        Doc::Element { children, .. } => trail_list(children, 0),
        _ => if is_exec(n) || is_output(n) {
            seq![n]
        } else {
            Seq::empty()
        },
    }
}

/// `trail_tree` of each of `cs[i..]`, in order.
pub open spec fn trail_list(cs: Seq<Doc>, i: int) -> Seq<Doc>
    decreases cs, cs.len() - i,
{
    if i < 0 || i >= cs.len() {
        Seq::empty()
    } else {
        trail_tree(cs[i]) + trail_list(cs, i + 1)
    }
}

/// `trail_list` depends only on the nodes from the position on.
proof fn lemma_trail_same_tail(s: Seq<Doc>, i: int, t: Seq<Doc>, j: int)
    requires
        0 <= i <= s.len(),
        0 <= j <= t.len(),
        s.subrange(i, s.len() as int) == t.subrange(j, t.len() as int),
    ensures
        trail_list(s, i) == trail_list(t, j),
    decreases s.len() - i,
{
    let a = s.subrange(i, s.len() as int);
    let b = t.subrange(j, t.len() as int);
    if i < s.len() {
        assert(a.len() == b.len());
        assert(a[0] == s[i]);
        assert(b[0] == t[j]);
        assert(s.subrange(i + 1, s.len() as int) =~= a.subrange(1, a.len() as int));
        assert(t.subrange(j + 1, t.len() as int) =~= b.subrange(1, b.len() as int));
        lemma_trail_same_tail(s, i + 1, t, j + 1);
    } else {
        assert(b.len() == 0);
    }
}

proof fn lemma_trail_concat_from(a: Seq<Doc>, b: Seq<Doc>, i: int)
    requires
        0 <= i <= a.len(),
    ensures
        trail_list(a + b, i) == trail_list(a, i) + trail_list(b, 0),
    decreases a.len() - i,
{
    if i < a.len() {
        lemma_trail_concat_from(a, b, i + 1);
        assert((a + b)[i] == a[i]);
        assert(trail_tree(a[i]) + (trail_list(a, i + 1) + trail_list(b, 0))
            =~= (trail_tree(a[i]) + trail_list(a, i + 1)) + trail_list(b, 0));
    } else {
        assert((a + b).subrange(a.len() as int, (a + b).len() as int) =~= b.subrange(0, b.len() as int));
        lemma_trail_same_tail(a + b, a.len() as int, b, 0);
        assert(trail_list(a, i) =~= Seq::<Doc>::empty());
        assert(Seq::<Doc>::empty() + trail_list(b, 0) =~= trail_list(b, 0));
    }
}

/// The trail of a concatenation of lists.
proof fn lemma_trail_concat(a: Seq<Doc>, b: Seq<Doc>)
    ensures
        trail_list(a + b, 0) == trail_list(a, 0) + trail_list(b, 0),
{
    lemma_trail_concat_from(a, b, 0);
}

/// The trail of a one-node list.
proof fn lemma_trail_one(x: Doc)
    ensures
        trail_list(seq![x], 0) == trail_tree(x),
{
    assert(trail_list(seq![x], 1) =~= Seq::<Doc>::empty());
    assert(trail_tree(x) + Seq::<Doc>::empty() =~= trail_tree(x));
}

/// Filling a concatenation: the first part, then the second from where the first stopped.
proof fn lemma_fill_concat_from(a: Seq<Doc>, b: Seq<Doc>, i: int, outs: Seq<Seq<char>>, k: int)
    requires
        0 <= i <= a.len(),
    ensures
        fill_list(a + b, i, outs, k).0 == fill_list(a, i, outs, k).0 + fill_list(b, 0, outs, fill_list(a, i, outs, k).1).0,
        fill_list(a + b, i, outs, k).1 == fill_list(b, 0, outs, fill_list(a, i, outs, k).1).1,
    decreases a.len() - i,
{
    if i < a.len() {
        let x = fill_tree(a[i], outs, k);
        lemma_fill_concat_from(a, b, i + 1, outs, x.1);
        assert((a + b)[i] == a[i]);
        let r = fill_list(a, i + 1, outs, x.1);
        assert(seq![x.0] + (r.0 + fill_list(b, 0, outs, r.1).0) =~= (seq![x.0] + r.0) + fill_list(b, 0, outs, r.1).0);
    } else {
        assert((a + b).subrange(a.len() as int, (a + b).len() as int) =~= b.subrange(0, b.len() as int));
        lemma_fill_same_tail(a + b, a.len() as int, b, 0, outs, k);
        assert(fill_list(a, i, outs, k).0 =~= Seq::<Doc>::empty());
        assert(Seq::<Doc>::empty() + fill_list(b, 0, outs, k).0 =~= fill_list(b, 0, outs, k).0);
    }
}

/// `fill_list` depends only on the nodes from the position on.
proof fn lemma_fill_same_tail(s: Seq<Doc>, i: int, t: Seq<Doc>, j: int, outs: Seq<Seq<char>>, k: int)
    requires
        0 <= i <= s.len(),
        0 <= j <= t.len(),
        s.subrange(i, s.len() as int) == t.subrange(j, t.len() as int),
    ensures
        fill_list(s, i, outs, k) == fill_list(t, j, outs, k),
    decreases s.len() - i,
{
    let a = s.subrange(i, s.len() as int);
    let b = t.subrange(j, t.len() as int);
    if i < s.len() {
        assert(a.len() == b.len());
        assert(a[0] == s[i]);
        assert(b[0] == t[j]);
        assert(s.subrange(i + 1, s.len() as int) =~= a.subrange(1, a.len() as int));
        assert(t.subrange(j + 1, t.len() as int) =~= b.subrange(1, b.len() as int));
        lemma_fill_same_tail(s, i + 1, t, j + 1, outs, fill_tree(s[i], outs, k).1);
    } else {
        assert(b.len() == 0);
    }
}

/// Filling a one-node list.
proof fn lemma_fill_one(x: Doc, outs: Seq<Seq<char>>, k: int)
    ensures
        fill_list(seq![x], 0, outs, k).0 == seq![fill_tree(x, outs, k).0],
        fill_list(seq![x], 0, outs, k).1 == fill_tree(x, outs, k).1,
{
    assert(fill_list(seq![x], 1, outs, fill_tree(x, outs, k).1).0 =~= Seq::<Doc>::empty());
    assert(seq![fill_tree(x, outs, k).0] + Seq::<Doc>::empty() =~= seq![fill_tree(x, outs, k).0]);
}

/// Filling a tree fills its trail the same way: the trail of the filled
/// tree is the filled trail, and the same outputs are used.
pub proof fn lemma_fill_trail_tree(n: Doc, outs: Seq<Seq<char>>, k: int)
    requires
        unambiguous(n),
    ensures
        trail_tree(fill_tree(n, outs, k).0) == fill_list(trail_tree(n), 0, outs, k).0,
        fill_tree(n, outs, k).1 == fill_list(trail_tree(n), 0, outs, k).1,
    decreases n, 0int,
{
    match n {
        Doc::Element { children, .. } => {
            lemma_fill_trail_list(children, 0, outs, k);
        },
        _ => {
            if is_exec(n) || is_output(n) {
                lemma_fill_one(n, outs, k);
                if is_output(n) && 0 <= k < outs.len() {
                    crate::stability::lemma_updated_class(n, outs[k]);
                }
            } else {
                assert(fill_list(Seq::<Doc>::empty(), 0, outs, k).0 =~= Seq::<Doc>::empty());
            }
        },
    }
}

proof fn lemma_fill_trail_list(cs: Seq<Doc>, i: int, outs: Seq<Seq<char>>, k: int)
    requires
        0 <= i,
        forall|m: int| 0 <= m < cs.len() ==> unambiguous(#[trigger] cs[m]),
    ensures
        trail_list(fill_list(cs, i, outs, k).0, 0) == fill_list(trail_list(cs, i), 0, outs, k).0,
        fill_list(cs, i, outs, k).1 == fill_list(trail_list(cs, i), 0, outs, k).1,
    decreases cs, cs.len() - i,
{
    let r = fill_list(cs, i, outs, k);
    if i < cs.len() {
        let a = fill_tree(cs[i], outs, k);
        let b = fill_list(cs, i + 1, outs, a.1);
        assert(unambiguous(cs[i]));
        lemma_fill_trail_tree(cs[i], outs, k);
        lemma_fill_trail_list(cs, i + 1, outs, a.1);
        assert(r.0 == seq![a.0] + b.0);
        lemma_trail_concat(seq![a.0], b.0);
        lemma_trail_one(a.0);
        lemma_fill_concat_from(trail_tree(cs[i]), trail_list(cs, i + 1), 0, outs, k);
    } else {
        assert(r.0 =~= Seq::<Doc>::empty());
        assert(trail_list(cs, i) =~= Seq::<Doc>::empty());
    }
}

// ---------------------------------------------------------------------------
// Alternating trails.

/// Executable nodes and output nodes alternate in `s` (none both), starting
/// with an output node when `pending` and otherwise with an executable node,
/// and the last executable node is followed by an output node.
pub open spec fn alternating(s: Seq<Doc>, pending: bool) -> bool
    decreases s.len(),
{
    if s.len() == 0 {
        !pending
    } else if pending {
        is_output(s[0]) && !is_exec(s[0]) && alternating(s.drop_first(), false)
    } else {
        is_exec(s[0]) && !is_output(s[0]) && alternating(s.drop_first(), true)
    }
}

/// The `j`-th executable node of an alternating trail.
pub open spec fn exec_at(s: Seq<Doc>, j: int) -> Doc {
    s[2 * j]
}

/// The output node after the `j`-th executable node of an alternating trail.
pub open spec fn output_at(s: Seq<Doc>, j: int) -> Doc {
    s[2 * j + 1]
}

/// Alternating trails can be put one after the other.
proof fn lemma_alternating_concat(a: Seq<Doc>, b: Seq<Doc>, pending: bool)
    requires
        alternating(a, pending),
        alternating(b, false),
    ensures
        alternating(a + b, pending),
    decreases a.len(),
{
    if a.len() > 0 {
        lemma_alternating_concat(a.drop_first(), b, !pending);
        assert((a + b).drop_first() =~= a.drop_first() + b);
        assert((a + b)[0] == a[0]);
    } else {
        assert(a + b =~= b);
    }
}

/// Filling an alternating trail from output `k` on: it stays alternating,
/// its executable nodes stay as they are, and the output node after the
/// `j`-th executable node is given output `k + j` while there is one.
proof fn lemma_fill_alternating(s: Seq<Doc>, outs: Seq<Seq<char>>, k: int)
    requires
        alternating(s, false),
        0 <= k,
    ensures
        alternating(fill_list(s, 0, outs, k).0, false),
        fill_list(s, 0, outs, k).0.len() == s.len(),
        forall|j: int| 0 <= j && 2 * j + 1 < s.len() ==> #[trigger] exec_at(fill_list(s, 0, outs, k).0, j) == exec_at(s, j),
        forall|j: int| 0 <= j && 2 * j + 1 < s.len() ==> #[trigger] output_at(fill_list(s, 0, outs, k).0, j)
            == if k + j < outs.len() { updated(output_at(s, j), outs[k + j]) } else { output_at(s, j) },
    decreases s.len(),
{
    let f = fill_list(s, 0, outs, k).0;
    if s.len() == 0 {
        assert(f =~= Seq::<Doc>::empty());
    } else {
        let e = s[0];
        assert(alternating(s.drop_first(), true));
        assert(s.drop_first().len() > 0);
        let o = s[1];
        assert(s.drop_first()[0] == o);
        let rest = s.subrange(2, s.len() as int);
        assert(s.drop_first().drop_first() =~= rest);
        assert(alternating(rest, false));
        assert(s =~= seq![e, o] + rest);
        assert(!(e is Element) && !(o is Element));
        let k1 = if 0 <= k < outs.len() { k + 1 } else { k };
        let o1 = if 0 <= k < outs.len() { updated(o, outs[k]) } else { o };
        assert(fill_tree(e, outs, k) == (e, k));
        assert(fill_tree(o, outs, k) == (o1, k1));
        let two = seq![e, o];
        assert(fill_list(two, 2, outs, k1).0 =~= Seq::<Doc>::empty());
        assert(fill_list(two, 1, outs, k).0 =~= seq![o1]);
        assert(fill_list(two, 0, outs, k).0 =~= seq![e, o1]);
        assert(fill_list(two, 0, outs, k).1 == k1);
        lemma_fill_concat_from(two, rest, 0, outs, k);
        assert(s == two + rest);
        lemma_fill_alternating(rest, outs, k1);
        let fr = fill_list(rest, 0, outs, k1).0;
        assert(f =~= seq![e, o1] + fr);
        if 0 <= k < outs.len() {
            crate::stability::lemma_updated_class(o, outs[k]);
        }
        assert(is_output(o) && !is_exec(o));
        assert(is_output(o1) && !is_exec(o1));
        assert(alternating(seq![e, o1], false)) by {
            assert(seq![e, o1].drop_first() =~= seq![o1]);
            assert(seq![o1].drop_first() =~= Seq::<Doc>::empty());
            assert(alternating(Seq::<Doc>::empty(), false));
            assert(alternating(seq![o1], true));
        }
        lemma_alternating_concat(seq![e, o1], fr, false);
        assert forall|j: int| 0 <= j && 2 * j + 1 < s.len() implies #[trigger] exec_at(f, j) == exec_at(s, j) by {
            if j > 0 {
                assert(exec_at(fr, j - 1) == exec_at(rest, j - 1));
                assert(f[2 * j] == fr[2 * (j - 1)]);
                assert(s[2 * j] == rest[2 * (j - 1)]);
            }
        }
        assert forall|j: int| 0 <= j && 2 * j + 1 < s.len() implies #[trigger] output_at(f, j)
            == if k + j < outs.len() { updated(output_at(s, j), outs[k + j]) } else { output_at(s, j) } by {
            if j > 0 {
                assert(output_at(fr, j - 1) == if k1 + (j - 1) < outs.len() { updated(output_at(rest, j - 1), outs[k1 + (j - 1)]) } else { output_at(rest, j - 1) });
                assert(f[2 * j + 1] == fr[2 * (j - 1) + 1]);
                assert(s[2 * j + 1] == rest[2 * (j - 1) + 1]);
            }
        }
    }
}

// ---------------------------------------------------------------------------
// The blocks of a trail.

/// The executable blocks of the nodes of `s`, in order.
pub open spec fn trail_blocks(s: Seq<Doc>) -> Seq<SpecBlock>
    decreases s.len(),
{
    if s.len() == 0 {
        Seq::empty()
    } else {
        block_seq(s[0]) + trail_blocks(s.drop_first())
    }
}

proof fn lemma_trail_blocks_concat(a: Seq<Doc>, b: Seq<Doc>)
    ensures
        trail_blocks(a + b) == trail_blocks(a) + trail_blocks(b),
    decreases a.len(),
{
    if a.len() > 0 {
        lemma_trail_blocks_concat(a.drop_first(), b);
        assert((a + b).drop_first() =~= a.drop_first() + b);
        assert((a + b)[0] == a[0]);
        assert(block_seq(a[0]) + (trail_blocks(a.drop_first()) + trail_blocks(b))
            =~= (block_seq(a[0]) + trail_blocks(a.drop_first())) + trail_blocks(b));
    } else {
        assert(a + b =~= b);
        assert(trail_blocks(a) + trail_blocks(b) =~= trail_blocks(b));
    }
}

/// The executable blocks of a tree, its own included, are those of its trail.
pub proof fn lemma_blocks_trail_tree(n: Doc)
    ensures
        n is Element ==> blocks_tree(n) == trail_blocks(trail_tree(n)),
        block_seq(n) + blocks_tree(n) == trail_blocks(trail_tree(n)),
    decreases n, 0int,
{
    match n {
        Doc::Element { children, .. } => {
            lemma_blocks_trail_list(children, 0);
            assert(blocks_tree(n) == blocks_list(children, 0));
            assert(trail_tree(n) == trail_list(children, 0));
            assert(block_seq(n) =~= Seq::<SpecBlock>::empty());
            assert(block_seq(n) + blocks_tree(n) =~= blocks_tree(n));
        },
        _ => {
            assert(blocks_tree(n) =~= Seq::<SpecBlock>::empty());
            if is_exec(n) || is_output(n) {
                assert(trail_tree(n) == seq![n]);
                assert(seq![n].drop_first() =~= Seq::<Doc>::empty());
                assert(trail_blocks(Seq::<Doc>::empty()) =~= Seq::<SpecBlock>::empty());
                assert(trail_blocks(seq![n]) =~= block_seq(n) + Seq::<SpecBlock>::empty());
            } else {
                assert(spec_block_of(n) is None);
            }
            assert(block_seq(n) + blocks_tree(n) =~= block_seq(n));
        },
    }
}

proof fn lemma_blocks_trail_list(cs: Seq<Doc>, i: int)
    requires
        0 <= i,
    ensures
        blocks_list(cs, i) == trail_blocks(trail_list(cs, i)),
    decreases cs, cs.len() - i,
{
    if i < cs.len() {
        lemma_blocks_trail_tree(cs[i]);
        lemma_blocks_trail_list(cs, i + 1);
        lemma_trail_blocks_concat(trail_tree(cs[i]), trail_list(cs, i + 1));
    }
}

/// The blocks of an alternating trail are those of its executable nodes, in order.
proof fn lemma_alternating_blocks(s: Seq<Doc>)
    requires
        alternating(s, false),
    ensures
        s.len() == 2 * trail_blocks(s).len(),
        forall|j: int| 0 <= j < trail_blocks(s).len() ==> spec_block_of(#[trigger] exec_at(s, j)) == Some(trail_blocks(s)[j]),
    decreases s.len(),
{
    if s.len() > 0 {
        let e = s[0];
        assert(alternating(s.drop_first(), true));
        assert(s.drop_first().len() > 0);
        let o = s[1];
        let rest = s.subrange(2, s.len() as int);
        assert(s.drop_first()[0] == o);
        assert(s.drop_first().drop_first() =~= rest);
        lemma_alternating_blocks(rest);
        assert(s =~= seq![e, o] + rest);
        lemma_trail_blocks_concat(seq![e, o], rest);
        assert(seq![e, o].drop_first() =~= seq![o]);
        assert(seq![o].drop_first() =~= Seq::<Doc>::empty());
        assert(!(o is Element) && spec_block_of(o) is None);
        assert(spec_block_of(e) is Some);
        assert(trail_blocks(Seq::<Doc>::empty()) =~= Seq::<SpecBlock>::empty());
        assert(block_seq(o) =~= Seq::<SpecBlock>::empty());
        assert(trail_blocks(seq![o]) =~= Seq::<SpecBlock>::empty());
        assert(block_seq(e) =~= seq![spec_block_of(e)->0]);
        assert(trail_blocks(seq![e, o]) =~= seq![spec_block_of(e)->0]);
        let tb = trail_blocks(s);
        assert(tb =~= seq![spec_block_of(e)->0] + trail_blocks(rest));
        assert forall|j: int| 0 <= j < tb.len() implies spec_block_of(#[trigger] exec_at(s, j)) == Some(tb[j]) by {
            if j > 0 {
                assert(spec_block_of(exec_at(rest, j - 1)) == Some(trail_blocks(rest)[j - 1]));
                assert(s[2 * j] == rest[2 * (j - 1)]);
            }
        }
    } else {
        assert(trail_blocks(s) =~= Seq::<SpecBlock>::empty());
    }
}

// ---------------------------------------------------------------------------
// Trees whose outputs follow their blocks.

/// No node of the tree is an executable node.
pub open spec fn no_exec(n: Doc) -> bool
    decreases n,
{
    match n {
        Doc::Element { children, .. } => forall|i: int| 0 <= i < children.len() ==> no_exec(#[trigger] children[i]),
        _ => !is_exec(n),
    }
}

/// In every list of children of the tree, the nodes between an executable
/// node and the output node that is taken as its output (the first one
/// before the next executable node) hold no executable node.
pub open spec fn spaced_tree(n: Doc) -> bool
    decreases n, 0int,
{
    match n {
        Doc::Element { children, .. } => spaced_list(children, 0),
        _ => true,
    }
}

/// `spaced_tree` for the list `cs` from position `i` on.
pub open spec fn spaced_list(cs: Seq<Doc>, i: int) -> bool
    decreases cs, cs.len() - i,
{
    if i < 0 || i >= cs.len() {
        true
    } else if is_exec(cs[i]) {
        match first_output(cs, i + 1) {
            Some(k) => if i + 1 <= k < cs.len() {
                (forall|m: int| i + 1 <= m < k ==> no_exec(#[trigger] cs[m])) && spaced_list(cs, k + 1)
            } else {
                true
            },
            None => spaced_list(cs, i + 1),
        }
    } else if is_output(cs[i]) {
        spaced_list(cs, i + 1)
    } else {
        spaced_tree(cs[i]) && spaced_list(cs, i + 1)
    }
}

/// Every list of children of the tree pairs its executable nodes with output
/// nodes, and the nodes between an executable node and its output node hold
/// no executable or output node.
pub open spec fn interleaved_tree(n: Doc) -> bool
    decreases n, 0int,
{
    match n {
        Doc::Element { children, .. } => interleaved_list(children, 0, false),
        _ => true,
    }
}

/// `interleaved_tree` for the list `cs` from position `i` on, `pending`
/// telling whether the last executable node before `i` still lacks its output node.
pub open spec fn interleaved_list(cs: Seq<Doc>, i: int, pending: bool) -> bool
    decreases cs, cs.len() - i,
{
    if i < 0 || i >= cs.len() {
        !pending
    } else if is_exec(cs[i]) {
        !pending && interleaved_list(cs, i + 1, true)
    } else if is_output(cs[i]) {
        pending && interleaved_list(cs, i + 1, false)
    } else if pending {
        inert(cs[i]) && interleaved_list(cs, i + 1, true)
    } else {
        interleaved_tree(cs[i]) && interleaved_list(cs, i + 1, false)
    }
}

/// Every executable node has an output node after it in its list, and the
/// nodes between hold no executable node.
spec fn cov2_tree(n: Doc) -> bool
    decreases n, 0int,
{
    match n {
        Doc::Element { children, .. } => cov2_list(children, 0, false),
        _ => true,
    }
}

spec fn cov2_list(cs: Seq<Doc>, i: int, pending: bool) -> bool
    decreases cs, cs.len() - i,
{
    if i < 0 || i >= cs.len() {
        !pending
    } else if is_exec(cs[i]) {
        !pending && cov2_list(cs, i + 1, true)
    } else if is_output(cs[i]) {
        cov2_list(cs, i + 1, false)
    } else if pending {
        no_exec(cs[i]) && cov2_list(cs, i + 1, true)
    } else {
        cov2_tree(cs[i]) && cov2_list(cs, i + 1, false)
    }
}

proof fn lemma_cov2_suffix(a: Seq<Doc>, s: Seq<Doc>, j: int, pending: bool)
    requires
        0 <= j,
    ensures
        cov2_list(a + s, a.len() + j, pending) == cov2_list(s, j, pending),
    decreases s.len() - j,
{
    if j < s.len() {
        assert((a + s)[a.len() + j] == s[j]);
        lemma_cov2_suffix(a, s, j + 1, true);
        lemma_cov2_suffix(a, s, j + 1, false);
    }
}

proof fn lemma_interleaved_suffix(a: Seq<Doc>, s: Seq<Doc>, j: int, pending: bool)
    requires
        0 <= j,
    ensures
        interleaved_list(a + s, a.len() + j, pending) == interleaved_list(s, j, pending),
    decreases s.len() - j,
{
    if j < s.len() {
        assert((a + s)[a.len() + j] == s[j]);
        lemma_interleaved_suffix(a, s, j + 1, true);
        lemma_interleaved_suffix(a, s, j + 1, false);
    }
}

/// Adding output nodes to a tree without executable nodes changes nothing.
proof fn lemma_wo_no_exec(n: Doc)
    requires
        no_exec(n),
    ensures
        wo_tree(n).0 == n,
    decreases n, 0int,
{
    match n {
        Doc::Element { children, .. } => {
            lemma_wo_no_exec_list(children, 0, 0);
            assert(children.subrange(0, children.len() as int) =~= children);
        },
        _ => {},
    }
}

proof fn lemma_wo_no_exec_list(cs: Seq<Doc>, i: int, ci: int)
    requires
        0 <= i <= cs.len(),
        forall|m: int| 0 <= m < cs.len() ==> no_exec(#[trigger] cs[m]),
    ensures
        wo_list(cs, i, ci).0 == cs.subrange(i, cs.len() as int),
    decreases cs, cs.len() - i,
{
    if i < cs.len() {
        let x = cs[i];
        assert(no_exec(x));
        assert(!is_exec(x)) by {
            if x is Element {
            }
        }
        lemma_wo_no_exec(x);
        lemma_wo_no_exec_list(cs, i + 1, ci);
        assert(cs.subrange(i, cs.len() as int) =~= seq![x] + cs.subrange(i + 1, cs.len() as int));
    } else {
        assert(cs.subrange(i, cs.len() as int) =~= Seq::<Doc>::empty());
    }
}

/// Adding output nodes to a spaced tree puts after every executable node an
/// output node, with no executable node in between.
proof fn lemma_wo_cov2_tree(n: Doc)
    requires
        unambiguous(n),
        spaced_tree(n),
    ensures
        cov2_tree(wo_tree(n).0),
    decreases n, 0int,
{
    match n {
        Doc::Element { children, .. } => {
            lemma_wo_cov2_list(children, 0, 0);
        },
        _ => {},
    }
}

proof fn lemma_wo_cov2_list(cs: Seq<Doc>, i: int, ci: int)
    requires
        0 <= i,
        all_unambiguous(cs),
        spaced_list(cs, i),
    ensures
        cov2_list(wo_list(cs, i, ci).0, 0, false),
    decreases cs, cs.len() - i,
{
    let r = wo_list(cs, i, ci);
    if i < cs.len() {
        assert(unambiguous(cs[i]));
        if is_exec(cs[i]) {
            let p = wo_tree(cs[i]);
            assert(p.0 == cs[i]);
            lemma_first_output(cs, i + 1);
            match first_output(cs, i + 1) {
                Some(k) => {
                    let mid = wo_range(cs, i + 1, k);
                    let rest = wo_list(cs, k + 1, ci + 1);
                    lemma_wo_cov2_list(cs, k + 1, ci + 1);
                    crate::stability::lemma_wo_range_items(cs, i + 1, k);
                    let m = mid.0.len() as int;
                    assert forall|t: int| 0 <= t < m implies !is_exec(#[trigger] mid.0[t]) && !is_output(mid.0[t])
                        && no_exec(mid.0[t]) by {
                        let x = cs[i + 1 + t];
                        assert(no_exec(x));
                        lemma_wo_no_exec(x);
                    }
                    let left = seq![cs[i]] + mid.0 + seq![cs[k]];
                    assert(r.0 == left + rest.0);
                    lemma_cov2_suffix(left, rest.0, 0, false);
                    assert(r.0[1 + m] == cs[k]);
                    assert(cov2_list(r.0, 2 + m, false));
                    assert(cov2_list(r.0, 1 + m, true));
                    assert forall|t: int| 1 <= t <= 1 + m implies cov2_list(r.0, t, true) by {
                        lemma_cov2_down(r.0, t, 1 + m, mid.0);
                    }
                    assert(cov2_list(r.0, 1, true));
                    assert(r.0[0] == cs[i]);
                    assert(cov2_list(r.0, 0, false));
                },
                None => {
                    let rest = wo_list(cs, i + 1, ci + 1);
                    lemma_wo_cov2_list(cs, i + 1, ci + 1);
                    crate::stability::lemma_placeholder_class();
                    let left = seq![cs[i], placeholder()];
                    assert(r.0 == left + rest.0);
                    lemma_cov2_suffix(left, rest.0, 0, false);
                    assert(cov2_list(r.0, 2, false));
                    assert(r.0[0] == cs[i]);
                    assert(r.0[1] == placeholder());
                    assert(cov2_list(r.0, 1, true));
                    assert(cov2_list(r.0, 0, false));
                },
            }
        } else if is_output(cs[i]) {
            let rest = wo_list(cs, i + 1, ci);
            lemma_wo_cov2_list(cs, i + 1, ci);
            assert(r.0 == seq![cs[i]] + rest.0);
            lemma_cov2_suffix(seq![cs[i]], rest.0, 0, false);
            assert(r.0[0] == cs[i]);
        } else {
            let p = wo_tree(cs[i]);
            let rest = wo_list(cs, i + 1, ci);
            lemma_wo_cov2_tree(cs[i]);
            crate::stability::lemma_wo_class(cs[i]);
            lemma_wo_cov2_list(cs, i + 1, ci);
            assert(r.0 == seq![p.0] + rest.0);
            lemma_cov2_suffix(seq![p.0], rest.0, 0, false);
            assert(r.0[0] == p.0);
        }
    }
}

/// Going back over the nodes that lie between an executable node and its
/// output node keeps `cov2_list` pending.
proof fn lemma_cov2_down(s: Seq<Doc>, t: int, top: int, mid: Seq<Doc>)
    requires
        1 <= t <= top,
        top == 1 + mid.len(),
        top < s.len(),
        cov2_list(s, top, true),
        forall|u: int| 1 <= u < top ==> s[u] == mid[u - 1],
        forall|u: int| 0 <= u < mid.len() ==> !is_exec(#[trigger] mid[u]) && !is_output(mid[u]) && no_exec(mid[u]),
    ensures
        cov2_list(s, t, true),
    decreases top - t,
{
    if t < top {
        lemma_cov2_down(s, t + 1, top, mid);
        assert(s[t] == mid[t - 1]);
        assert(!is_exec(mid[t - 1]) && !is_output(mid[t - 1]) && no_exec(mid[t - 1]));
    }
}

/// Removing the output nodes of a tree without executable nodes leaves
/// nothing executable and no output: every list of children of the tree
/// stays before its first executable node, where outputs are removed.
proof fn lemma_clean_no_exec(n: Doc)
    requires
        no_exec(n),
        !is_output(n),
    ensures
        inert(clean_tree(n)),
    decreases n, 0int,
{
    match n {
        Doc::Element { info, source, children } => {
            lemma_clean_no_exec_list(children, 0);
            let cl = clean_list(children, 0, 0);
            assert(clean_tree(n) == Doc::Element { info, source, children: cl });
            assert forall|m: int| 0 <= m < cl.len() implies inert(#[trigger] cl[m]) by {
                assert(inert(clean_list(children, 0, 0)[m]));
            }
        },
        _ => {},
    }
}

proof fn lemma_clean_no_exec_list(cs: Seq<Doc>, i: int)
    requires
        0 <= i,
        forall|m: int| 0 <= m < cs.len() ==> no_exec(#[trigger] cs[m]),
    ensures
        forall|m: int| 0 <= m < clean_list(cs, i, 0).len() ==> inert(#[trigger] clean_list(cs, i, 0)[m]),
    decreases cs, cs.len() - i,
{
    if i < cs.len() {
        let x = cs[i];
        assert(no_exec(x));
        assert(!is_exec(x)) by {
            if x is Element {
            }
        }
        lemma_clean_no_exec_list(cs, i + 1);
        let rest = clean_list(cs, i + 1, 0);
        if !is_output(x) {
            lemma_clean_no_exec(x);
            let r = clean_list(cs, i, 0);
            assert(r == seq![clean_tree(x)] + rest);
            assert forall|m: int| 0 <= m < r.len() implies inert(#[trigger] r[m]) by {
                if m >= 1 {
                    assert(r[m] == rest[m - 1]);
                }
            }
        }
    }
}

/// Removing the orphan outputs from a tree in which every executable node
/// has an output node after it, with no executable node in between, leaves
/// an interleaved tree.
proof fn lemma_clean_cov2_tree(n: Doc)
    requires
        cov2_tree(n),
        unambiguous(n),
    ensures
        interleaved_tree(clean_tree(n)),
    decreases n, 0int,
{
    match n {
        Doc::Element { children, .. } => {
            lemma_clean_cov2_list(children, 0, 0);
        },
        _ => {},
    }
}

proof fn lemma_clean_cov2_list(cs: Seq<Doc>, i: int, mode: int)
    requires
        0 <= i,
        0 <= mode <= 2,
        cov2_list(cs, i, mode == 1),
        all_unambiguous(cs),
    ensures
        interleaved_list(clean_list(cs, i, mode), 0, mode == 1),
    decreases cs, cs.len() - i,
{
    let r = clean_list(cs, i, mode);
    if i < cs.len() {
        let x = cs[i];
        assert(unambiguous(x));
        let c = clean_tree(x);
        if is_exec(x) || is_output(x) {
            assert(!(x is Element));
            assert(c == x);
        } else {
            assert(!is_exec(c) && !is_output(c)) by {
                if x is Element {
                    assert(c is Element);
                }
            }
        }
        if mode == 0 || mode == 2 {
            if is_exec(x) {
                let rest = clean_list(cs, i + 1, 1);
                lemma_clean_cov2_list(cs, i + 1, 1);
                assert(r == seq![c] + rest);
                lemma_interleaved_suffix(seq![c], rest, 0, true);
                assert(r[0] == c);
            } else if is_output(x) {
                lemma_clean_cov2_list(cs, i + 1, mode);
            } else {
                let rest = clean_list(cs, i + 1, mode);
                lemma_clean_cov2_tree(x);
                lemma_clean_cov2_list(cs, i + 1, mode);
                assert(r == seq![c] + rest);
                lemma_interleaved_suffix(seq![c], rest, 0, false);
                assert(r[0] == c);
            }
        } else {
            if is_output(x) {
                let rest = clean_list(cs, i + 1, 2);
                lemma_clean_cov2_list(cs, i + 1, 2);
                assert(r == seq![c] + rest);
                lemma_interleaved_suffix(seq![c], rest, 0, false);
                assert(r[0] == c);
            } else {
                let rest = clean_list(cs, i + 1, 1);
                lemma_clean_no_exec(x);
                lemma_clean_cov2_list(cs, i + 1, 1);
                assert(r == seq![c] + rest);
                lemma_interleaved_suffix(seq![c], rest, 0, true);
                assert(r[0] == c);
            }
        }
    }
}

/// A tree without executable and output nodes has an empty trail.
proof fn lemma_inert_trail(n: Doc)
    requires
        inert(n),
    ensures
        trail_tree(n) == Seq::<Doc>::empty(),
    decreases n, 0int,
{
    match n {
        Doc::Element { children, .. } => {
            lemma_inert_trail_list(children, 0);
        },
        _ => {},
    }
}

proof fn lemma_inert_trail_list(cs: Seq<Doc>, i: int)
    requires
        0 <= i,
        forall|m: int| 0 <= m < cs.len() ==> inert(#[trigger] cs[m]),
    ensures
        trail_list(cs, i) == Seq::<Doc>::empty(),
    decreases cs, cs.len() - i,
{
    if i < cs.len() {
        assert(inert(cs[i]));
        lemma_inert_trail(cs[i]);
        lemma_inert_trail_list(cs, i + 1);
        assert(trail_list(cs, i) =~= Seq::<Doc>::empty());
    }
}

/// The trail of an interleaved tree alternates.
proof fn lemma_interleaved_alternating(n: Doc)
    requires
        interleaved_tree(n),
        unambiguous(n),
        n is Element,
    ensures
        alternating(trail_tree(n), false),
    decreases n, 0int,
{
    match n {
        Doc::Element { children, .. } => {
            lemma_interleaved_alternating_list(children, 0, false);
        },
        _ => {},
    }
}

proof fn lemma_interleaved_alternating_list(cs: Seq<Doc>, i: int, pending: bool)
    requires
        0 <= i,
        interleaved_list(cs, i, pending),
        all_unambiguous(cs),
    ensures
        alternating(trail_list(cs, i), pending),
    decreases cs, cs.len() - i,
{
    if i < cs.len() {
        let x = cs[i];
        assert(unambiguous(x));
        let rest = trail_list(cs, i + 1);
        if is_exec(x) || is_output(x) {
            assert(!(x is Element));
            assert(trail_tree(x) == seq![x]);
            let next = is_exec(x);
            lemma_interleaved_alternating_list(cs, i + 1, next);
            assert((seq![x] + rest).drop_first() =~= rest);
            assert((seq![x] + rest)[0] == x);
        } else if pending {
            lemma_inert_trail(x);
            lemma_interleaved_alternating_list(cs, i + 1, true);
            assert(trail_list(cs, i) =~= rest);
        } else {
            lemma_interleaved_alternating_list(cs, i + 1, false);
            if x is Element {
                lemma_interleaved_alternating(x);
            } else {
                assert(trail_tree(x) =~= Seq::<Doc>::empty());
            }
            lemma_alternating_concat(trail_tree(x), rest, false);
        }
    } else {
        assert(trail_list(cs, i) =~= Seq::<Doc>::empty());
    }
}

/// The text an output node holds once given an output is that output.
pub proof fn lemma_updated_content(n: Doc, out: Seq<char>)
    requires
        is_output(n),
    ensures
        spec_output_content(updated(n, out)) == out,
{
    match n {
        Doc::Html { value } => {
            let v = output_comment(out);
            let p = output_comment_open();
            let q = output_comment_close();
            assert(p.len() == 13);
            assert(v.subrange(0, p.len() as int) =~= p);
            let w = v.subrange(p.len() as int, v.len() as int);
            assert(w =~= out + q);
            assert(w.subrange(w.len() - q.len(), w.len() as int) =~= q);
            assert(v.subrange(p.len() as int, v.len() - q.len()) =~= out);
        },
        _ => {},
    }
}

// ---------------------------------------------------------------------------
// The law.

/// In a processed document, the executable nodes and the output nodes
/// alternate in document order, starting with an executable node and ending
/// with an output node; the `j`-th executable node is the `j`-th executable
/// block of the document before processing, and the output node after it
/// holds the `j`-th output (while there are outputs). This holds when no
/// executable node lies between an executable node and the output node taken
/// as its output (`spaced_tree`).
pub proof fn lemma_outputs_follow_blocks(t: Doc, outs: Seq<Seq<char>>)
    requires
        t is Element,
        unambiguous(t),
        spaced_tree(t),
    ensures
        alternating(trail_tree(transformed(t, outs)), false),
        trail_tree(transformed(t, outs)).len() == 2 * blocks_tree(t).len(),
        forall|j: int| 0 <= j < blocks_tree(t).len() ==>
            spec_block_of(#[trigger] exec_at(trail_tree(transformed(t, outs)), j)) == Some(blocks_tree(t)[j]),
        forall|j: int| 0 <= j < blocks_tree(t).len() && j < outs.len() ==>
            spec_output_content(#[trigger] output_at(trail_tree(transformed(t, outs)), j)) == outs[j],
{
    let w = wo_tree(t).0;
    crate::stability::lemma_wo_covered_tree(t);
    lemma_wo_cov2_tree(t);
    let p = clean_tree(w);
    crate::stability::lemma_clean_covered_tree(w);
    lemma_clean_cov2_tree(w);
    assert(w is Element && p is Element);
    lemma_interleaved_alternating(p);
    let sp = trail_tree(p);
    let big_t = transformed(t, outs);
    assert(big_t == fill_tree(p, outs, 0).0);
    lemma_fill_trail_tree(p, outs, 0);
    let st = trail_tree(big_t);
    assert(st == fill_list(sp, 0, outs, 0).0);
    lemma_fill_alternating(sp, outs, 0);
    assert(big_t is Element);
    lemma_blocks_trail_tree(big_t);
    lemma_alternating_blocks(st);
    crate::stability::lemma_transform_keeps_blocks(t, outs);
    assert(blocks_tree(big_t) == blocks_tree(t));
    assert forall|j: int| 0 <= j < blocks_tree(t).len() && j < outs.len() implies
        spec_output_content(#[trigger] output_at(st, j)) == outs[j] by {
        assert(output_at(st, j) == updated(output_at(sp, j), outs[0 + j]));
        lemma_alternating_output(sp, j);
        lemma_updated_content(output_at(sp, j), outs[j]);
    }
}

/// In an alternating trail, the node after the `j`-th executable node is an output node.
proof fn lemma_alternating_output(s: Seq<Doc>, j: int)
    requires
        alternating(s, false),
        0 <= j,
        2 * j + 1 < s.len(),
    ensures
        is_output(output_at(s, j)),
    decreases j,
{
    assert(alternating(s.drop_first(), true));
    assert(s.drop_first().len() > 0);
    let rest = s.subrange(2, s.len() as int);
    assert(s.drop_first().drop_first() =~= rest);
    if j == 0 {
        assert(s.drop_first()[0] == s[1]);
    } else {
        lemma_alternating_output(rest, j - 1);
        assert(rest[2 * (j - 1) + 1] == s[2 * j + 1]);
    }
}

/// An interleaved tree is paired.
proof fn lemma_interleaved_paired(n: Doc)
    requires
        interleaved_tree(n),
    ensures
        paired_tree(n),
    decreases n, 0int,
{
    match n {
        Doc::Element { children, .. } => {
            lemma_interleaved_paired_list(children, 0, false);
        },
        _ => {},
    }
}

proof fn lemma_interleaved_paired_list(cs: Seq<Doc>, i: int, pending: bool)
    requires
        0 <= i,
        interleaved_list(cs, i, pending),
    ensures
        paired_list(cs, i, pending),
    decreases cs, cs.len() - i,
{
    if i < cs.len() {
        let x = cs[i];
        if is_exec(x) {
            lemma_interleaved_paired_list(cs, i + 1, true);
        } else if is_output(x) {
            lemma_interleaved_paired_list(cs, i + 1, false);
        } else if pending {
            crate::stability::lemma_inert_paired(x);
            lemma_interleaved_paired_list(cs, i + 1, true);
        } else {
            lemma_interleaved_paired(x);
            lemma_interleaved_paired_list(cs, i + 1, false);
        }
    }
}

/// Processing a document whose outputs already follow their blocks
/// (`interleaved_tree`) keeps every output in its format: the output node
/// after the `j`-th executable node stays an `output` code block or an output
/// comment, as it was, and holds the `j`-th output while there are outputs.
pub proof fn lemma_processing_keeps_formats(t: Doc, outs: Seq<Seq<char>>)
    requires
        t is Element,
        unambiguous(t),
        interleaved_tree(t),
    ensures
        alternating(trail_tree(transformed(t, outs)), false),
        trail_tree(transformed(t, outs)).len() == trail_tree(t).len(),
        forall|j: int| 0 <= j && 2 * j + 1 < trail_tree(t).len() ==>
            spec_output_format(#[trigger] output_at(trail_tree(transformed(t, outs)), j)) == spec_output_format(output_at(trail_tree(t), j)),
        forall|j: int| 0 <= j && 2 * j + 1 < trail_tree(t).len() && j < outs.len() ==>
            spec_output_content(#[trigger] output_at(trail_tree(transformed(t, outs)), j)) == outs[j],
{
    lemma_interleaved_paired(t);
    crate::stability::lemma_wo_paired_tree(t);
    crate::stability::lemma_clean_paired_tree(t);
    let big_t = transformed(t, outs);
    assert(big_t == fill_tree(t, outs, 0).0);
    lemma_interleaved_alternating(t);
    let sp = trail_tree(t);
    lemma_fill_trail_tree(t, outs, 0);
    let st = trail_tree(big_t);
    assert(st == fill_list(sp, 0, outs, 0).0);
    lemma_fill_alternating(sp, outs, 0);
    assert forall|j: int| 0 <= j && 2 * j + 1 < sp.len() implies
        spec_output_format(#[trigger] output_at(st, j)) == spec_output_format(output_at(sp, j)) by {
        lemma_alternating_output(sp, j);
        if j < outs.len() {
            assert(output_at(st, j) == updated(output_at(sp, j), outs[0 + j]));
            crate::stability::lemma_updated_keeps_format(output_at(sp, j), outs[j]);
        }
    }
    assert forall|j: int| 0 <= j && 2 * j + 1 < sp.len() && j < outs.len() implies
        spec_output_content(#[trigger] output_at(st, j)) == outs[j] by {
        lemma_alternating_output(sp, j);
        assert(output_at(st, j) == updated(output_at(sp, j), outs[0 + j]));
        lemma_updated_content(output_at(sp, j), outs[j]);
    }
}

} // verus!
