//! Stability of a processed document: once every executable node has its
//! output node, processing the document again with the same outputs gives
//! it back unchanged.
use crate::document::{
    exec_separator, is_exec, is_exec_code, is_hidden_exec, is_output, output_marker, output_word,
    parse_hidden_comment, Doc,
};
use crate::execute_code_blocks::default_language_config::{
    executable_languages, is_executable_lang, lemma_executable_languages,
};
use crate::fill_output_blocks::{fill_list, fill_tree};
use crate::literate_docs::transformed;
use crate::output_node::{clean_list, clean_tree, output_comment, placeholder, spec_output_format, updated, OutputEntry};
use crate::with_output_nodes::{first_output, lemma_first_output, wo_list, wo_range, wo_tree};
use crate::extract_code_blocks::{block_seq, blocks_list, blocks_tree};
use crate::text::{
    contains, find_from, is_ws, lead_ws_from, lemma_find_from_some, lemma_trim_end_bounds,
    occurs_at, trim, trim_end, trim_end_index, trim_start,
};
use vstd::prelude::*;

verus! {

/// No executable language starts with `o`, so neither `output` nor anything
/// that begins like an output comment names one.
pub proof fn lemma_executable_lang_first(l: Seq<char>)
    requires
        is_executable_lang(l),
    ensures
        l.len() > 0,
        l[0] != 'o',
{
    lemma_executable_languages(l);
    let e = executable_languages();
    let j = choose|j: int| 0 <= j < e.len() && e[j] == l;
    reveal_strlit("sh");
    reveal_strlit("bash");
    reveal_strlit("shell");
    reveal_strlit("python");
    reveal_strlit("python3");
    reveal_strlit("js");
    reveal_strlit("javascript");
    reveal_strlit("node");
    reveal_strlit("ts");
    reveal_strlit("typescript");
    reveal_strlit("ruby");
    reveal_strlit("perl");
    reveal_strlit("php");
    reveal_strlit("go");
    reveal_strlit("rust");
    assert(e[j] == l);
}

/// `output` is not an executable language.
pub proof fn lemma_output_not_executable()
    ensures
        !is_executable_lang(output_word()),
{
    if is_executable_lang(output_word()) {
        lemma_executable_lang_first(output_word());
    }
}

/// Trimming a text that starts with a non-whitespace character keeps that
/// character first.
proof fn lemma_trim_keeps_first(s: Seq<char>)
    requires
        s.len() > 0,
        !is_ws(s[0]),
    ensures
        trim(s).len() > 0,
        trim(s)[0] == s[0],
{
    assert(lead_ws_from(s, 0) == 0);
    assert(trim_start(s) =~= s);
    lemma_trim_end_bounds(s, s.len() as int);
    let e = trim_end_index(s, s.len() as int);
    if e == 0 {
        assert(is_ws(s[0]));
    }
}

/// An output comment is never read as a hidden exec comment: the text
/// before ` exec: ` would start with `output:`, which is no language.
pub proof fn lemma_output_comment_not_exec(out: Seq<char>)
    ensures
        parse_hidden_comment(crate::output_node::output_comment(out)) is None,
{
    let c = crate::output_node::output_comment(out);
    let n = c.len();
    assert(c[0] == '<');
    assert(c[n - 1] == '>');
    assert(c[4] == ' ');
    assert(c[5] == 'o');
    assert(!is_ws('<'));
    assert(!is_ws('>'));
    assert(!is_ws('o'));
    assert(is_ws(' '));
    // The comment has no surrounding whitespace.
    assert(lead_ws_from(c, 0) == 0);
    assert(trim_start(c) =~= c);
    assert(trim_end_index(c, n as int) == n);
    assert(trim(c) =~= c);
    let t = trim(c);
    if n >= 7 {
        let x = t.subrange(4, t.len() - 3);
        assert(x[0] == ' ');
        assert(x[1] == 'o');
        assert(lead_ws_from(x, 1) == 0);
        assert(lead_ws_from(x, 0) == 1);
        let y = x.subrange(1, x.len() as int);
        assert(trim_start(x) =~= y);
        lemma_trim_keeps_first(y);
        assert(trim_start(y) =~= y) by {
            assert(lead_ws_from(y, 0) == 0);
        }
        assert(trim(x) == trim(y));
        let inner = trim(x);
        assert(inner[0] == 'o');
        match find_from(inner, exec_separator(), 0) {
            None => {},
            Some(k) => {
                lemma_find_from_some(inner, exec_separator(), 0);
                assert(occurs_at(inner, exec_separator(), k));
                assert(inner.subrange(k, k + 7)[0] == ' ');
                assert(k != 0);
                let z = inner.subrange(0, k);
                lemma_trim_keeps_first(z);
                let lang = trim(z);
                assert(lang[0] == 'o');
                if is_executable_lang(lang) {
                    lemma_executable_lang_first(lang);
                }
            },
        }
    }
}

/// No node of the tree is both an executable node and an output node.
pub open spec fn unambiguous(n: Doc) -> bool
    decreases n,
{
    match n {
        Doc::Element { children, .. } => forall|i: int|
            0 <= i < children.len() ==> unambiguous(#[trigger] children[i]),
        _ => !(is_exec(n) && is_output(n)),
    }
}

/// Every node of `s` is unambiguous.
pub open spec fn all_unambiguous(s: Seq<Doc>) -> bool {
    forall|i: int| 0 <= i < s.len() ==> unambiguous(#[trigger] s[i])
}

/// Every list of children of the tree pairs each executable node with
/// exactly one output node: no output node comes before the first
/// executable node, and between an executable node and the next (or the end
/// of the list) there is exactly one output node.
pub open spec fn paired_tree(n: Doc) -> bool
    decreases n, 0int,
{
    match n {
        Doc::Element { children, .. } => paired_list(children, 0, false),
        _ => true,
    }
}

/// `paired_tree` for the list `cs` from position `i` on, `pending` telling
/// whether the last executable node before `i` still lacks its output node.
pub open spec fn paired_list(cs: Seq<Doc>, i: int, pending: bool) -> bool
    decreases cs, cs.len() - i,
{
    if i < 0 || i >= cs.len() {
        !pending
    } else if is_exec(cs[i]) {
        !pending && paired_list(cs, i + 1, true)
    } else if is_output(cs[i]) {
        pending && paired_list(cs, i + 1, false)
    } else {
        paired_tree(cs[i]) && paired_list(cs, i + 1, pending)
    }
}

/// A node that is neither executable nor an output node, and is paired.
pub open spec fn plain(n: Doc) -> bool {
    !is_exec(n) && !is_output(n) && paired_tree(n)
}

/// What lies before position `a.len()` does not matter to `paired_list`.
proof fn lemma_paired_suffix(a: Seq<Doc>, s: Seq<Doc>, j: int, pending: bool)
    requires
        0 <= j,
    ensures
        paired_list(a + s, a.len() + j, pending) == paired_list(s, j, pending),
    decreases s.len() - j,
{
    if j < s.len() {
        assert((a + s)[a.len() + j] == s[j]);
        lemma_paired_suffix(a, s, j + 1, true);
        lemma_paired_suffix(a, s, j + 1, false);
    }
}

/// Plain nodes can be skipped over by `paired_list`.
proof fn lemma_paired_skip_plain(cs: Seq<Doc>, a: int, b: int, pending: bool)
    requires
        0 <= a <= b <= cs.len(),
        forall|m: int| a <= m < b ==> plain(#[trigger] cs[m]),
    ensures
        paired_list(cs, a, pending) == paired_list(cs, b, pending),
    decreases b - a,
{
    if a < b {
        assert(plain(cs[a]));
        lemma_paired_skip_plain(cs, a + 1, b, pending);
    }
}

// ---------------------------------------------------------------------------
// Adding output nodes to a paired tree changes nothing.

/// An executable node still waiting for its output node finds it as the
/// first output node before the next executable node.
proof fn lemma_pending_first_output(cs: Seq<Doc>, j: int)
    requires
        0 <= j <= cs.len(),
        paired_list(cs, j, true),
        all_unambiguous(cs),
    ensures
        first_output(cs, j) matches Some(k) && j <= k < cs.len() && is_output(cs[k]) && !is_exec(
            cs[k],
        ) && paired_list(cs, k + 1, false) && forall|m: int| j <= m < k ==> plain(#[trigger] cs[m]),
    decreases cs.len() - j,
{
    if j < cs.len() {
        assert(unambiguous(cs[j]));
        if !is_exec(cs[j]) && !is_output(cs[j]) {
            lemma_pending_first_output(cs, j + 1);
        }
    }
}

/// `wo_tree` leaves a paired tree as it is and finds no orphan.
pub proof fn lemma_wo_paired_tree(n: Doc)
    requires
        paired_tree(n),
        unambiguous(n),
    ensures
        wo_tree(n) == (n, Seq::<OutputEntry>::empty()),
    decreases n, 0int,
{
    match n {
        Doc::Element { info, source, children } => {
            lemma_wo_paired_list(children, 0, 0);
            assert(children.subrange(0, children.len() as int) =~= children);
        },
        _ => {},
    }
}

proof fn lemma_wo_paired_range(cs: Seq<Doc>, j: int, k: int)
    requires
        0 <= j <= k <= cs.len(),
        forall|m: int| j <= m < k ==> plain(#[trigger] cs[m]),
        all_unambiguous(cs),
    ensures
        wo_range(cs, j, k) == (cs.subrange(j, k), Seq::<OutputEntry>::empty()),
    decreases cs, k - j,
{
    if j < k {
        assert(plain(cs[j]));
        assert(unambiguous(cs[j]));
        lemma_wo_paired_tree(cs[j]);
        lemma_wo_paired_range(cs, j + 1, k);
        assert(cs.subrange(j, k) =~= seq![cs[j]] + cs.subrange(j + 1, k));
        assert(Seq::<OutputEntry>::empty() + Seq::<OutputEntry>::empty() =~= Seq::<OutputEntry>::empty());
    } else {
        assert(cs.subrange(j, k) =~= Seq::<Doc>::empty());
    }
}

proof fn lemma_wo_paired_list(cs: Seq<Doc>, i: int, ci: int)
    requires
        0 <= i <= cs.len(),
        paired_list(cs, i, false),
        all_unambiguous(cs),
    ensures
        wo_list(cs, i, ci) == (cs.subrange(i, cs.len() as int), Seq::<OutputEntry>::empty()),
    decreases cs, cs.len() - i,
{
    let e = Seq::<OutputEntry>::empty();
    if i < cs.len() {
        assert(unambiguous(cs[i]));
        if is_exec(cs[i]) {
            lemma_pending_first_output(cs, i + 1);
            let k = first_output(cs, i + 1)->0;
            lemma_wo_paired_range(cs, i + 1, k);
            lemma_wo_paired_list(cs, k + 1, ci + 1);
            assert(wo_tree(cs[i]) == (cs[i], e));
            assert(cs.subrange(i, cs.len() as int) =~= seq![cs[i]] + cs.subrange(i + 1, k) + seq![cs[k]]
                + cs.subrange(k + 1, cs.len() as int));
            assert(e + e + e =~= e);
        } else {
            lemma_wo_paired_tree(cs[i]);
            lemma_wo_paired_list(cs, i + 1, ci);
            assert(cs.subrange(i, cs.len() as int) =~= seq![cs[i]] + cs.subrange(i + 1, cs.len() as int));
            assert(e + e =~= e);
        }
    } else {
        assert(cs.subrange(i, cs.len() as int) =~= Seq::<Doc>::empty());
    }
}

// ---------------------------------------------------------------------------
// Cleaning a paired tree changes nothing.

/// `clean_tree` leaves a paired tree as it is.
pub proof fn lemma_clean_paired_tree(n: Doc)
    requires
        paired_tree(n),
        unambiguous(n),
    ensures
        clean_tree(n) == n,
    decreases n, 0int,
{
    match n {
        Doc::Element { info, source, children } => {
            lemma_clean_paired_list(children, 0, 0);
            assert(children.subrange(0, children.len() as int) =~= children);
        },
        _ => {},
    }
}

proof fn lemma_clean_paired_list(cs: Seq<Doc>, i: int, mode: int)
    requires
        0 <= i <= cs.len(),
        0 <= mode <= 2,
        paired_list(cs, i, mode == 1),
        all_unambiguous(cs),
    ensures
        clean_list(cs, i, mode) == cs.subrange(i, cs.len() as int),
    decreases cs, cs.len() - i,
{
    if i < cs.len() {
        assert(unambiguous(cs[i]));
        if is_exec(cs[i]) {
            lemma_clean_paired_list(cs, i + 1, 1);
        } else if is_output(cs[i]) {
            lemma_clean_paired_list(cs, i + 1, 2);
        } else {
            lemma_clean_paired_tree(cs[i]);
            lemma_clean_paired_list(cs, i + 1, mode);
        }
        assert(clean_tree(cs[i]) == cs[i]) by {
            if is_exec(cs[i]) || is_output(cs[i]) {
                assert(!(cs[i] is Element));
            }
        }
        assert(cs.subrange(i, cs.len() as int) =~= seq![cs[i]] + cs.subrange(i + 1, cs.len() as int));
    } else {
        assert(cs.subrange(i, cs.len() as int) =~= Seq::<Doc>::empty());
    }
}

// ---------------------------------------------------------------------------
// Without orphans, adding output nodes pairs the tree.

/// The placeholder is an output node and not an executable one.
pub proof fn lemma_placeholder_class()
    ensures
        is_output(placeholder()),
        !is_exec(placeholder()),
        unambiguous(placeholder()),
{
    lemma_output_not_executable();
}

/// What `wo_range` gives: `wo_tree` of each node of the range.
pub proof fn lemma_wo_range_items(cs: Seq<Doc>, j: int, k: int)
    requires
        0 <= j <= k <= cs.len(),
    ensures
        wo_range(cs, j, k).0.len() == k - j,
        forall|t: int| 0 <= t < k - j ==> wo_range(cs, j, k).0[t] == (#[trigger] wo_tree(cs[j + t])).0,
        wo_range(cs, j, k).1.len() == 0 ==> forall|t: int|
            0 <= t < k - j ==> (#[trigger] wo_tree(cs[j + t])).1.len() == 0,
    decreases k - j,
{
    if j < k {
        lemma_wo_range_items(cs, j + 1, k);
        let a = wo_tree(cs[j]);
        let b = wo_range(cs, j + 1, k);
        assert forall|t: int| 0 <= t < k - j implies wo_range(cs, j, k).0[t] == (#[trigger] wo_tree(cs[j + t])).0 by {
            if t > 0 {
                assert(wo_tree(cs[(j + 1) + (t - 1)]) == wo_tree(cs[j + t]));
            }
        }
        if wo_range(cs, j, k).1.len() == 0 {
            assert(a.1.len() == 0);
            assert(b.1.len() == 0);
            assert forall|t: int| 0 <= t < k - j implies (#[trigger] wo_tree(cs[j + t])).1.len() == 0 by {
                if t > 0 {
                    assert(wo_tree(cs[(j + 1) + (t - 1)]) == wo_tree(cs[j + t]));
                }
            }
        }
    }
}

/// `wo_tree` keeps whether a node is executable or an output node.
pub proof fn lemma_wo_class(n: Doc)
    ensures
        is_exec(wo_tree(n).0) == is_exec(n),
        is_output(wo_tree(n).0) == is_output(n),
{
}

/// Without orphans, `wo_tree` gives a paired tree.
pub proof fn lemma_wo_pairs_tree(n: Doc)
    requires
        unambiguous(n),
        wo_tree(n).1.len() == 0,
    ensures
        paired_tree(wo_tree(n).0),
        unambiguous(wo_tree(n).0),
    decreases n, 0int,
{
    match n {
        Doc::Element { info, source, children } => {
            lemma_wo_pairs_list(children, 0, 0);
        },
        _ => {},
    }
}

proof fn lemma_wo_pairs_list(cs: Seq<Doc>, i: int, ci: int)
    requires
        0 <= i,
        all_unambiguous(cs),
        wo_list(cs, i, ci).1.len() == 0,
    ensures
        paired_list(wo_list(cs, i, ci).0, 0, false),
        all_unambiguous(wo_list(cs, i, ci).0),
    decreases cs, cs.len() - i,
{
    let r = wo_list(cs, i, ci);
    if i < cs.len() {
        assert(unambiguous(cs[i]));
        if is_exec(cs[i]) {
            let p = wo_tree(cs[i]);
            assert(p == (cs[i], Seq::<OutputEntry>::empty()));
            lemma_first_output(cs, i + 1);
            match first_output(cs, i + 1) {
                Some(k) => {
                    let mid = wo_range(cs, i + 1, k);
                    let rest = wo_list(cs, k + 1, ci + 1);
                    assert(mid.1.len() == 0);
                    assert(rest.1.len() == 0);
                    lemma_wo_pairs_list(cs, k + 1, ci + 1);
                    lemma_wo_range_items(cs, i + 1, k);
                    let m = mid.0.len() as int;
                    assert forall|t: int| 0 <= t < m implies plain(#[trigger] mid.0[t]) && unambiguous(mid.0[t]) by {
                        let x = cs[i + 1 + t];
                        assert(wo_tree(x).1.len() == 0);
                        assert(unambiguous(x));
                        lemma_wo_pairs_tree(x);
                        lemma_wo_class(x);
                    }
                    let left = seq![cs[i]] + mid.0 + seq![cs[k]];
                    assert(r.0 == left + rest.0);
                    lemma_paired_suffix(left, rest.0, 0, false);
                    assert forall|t: int| 1 <= t < 1 + m implies plain(#[trigger] r.0[t]) by {
                        assert(r.0[t] == mid.0[t - 1]);
                    }
                    lemma_paired_skip_plain(r.0, 1, 1 + m, true);
                    assert(r.0[1 + m] == cs[k]);
                    assert(paired_list(r.0, 2 + m, false));
                    assert(paired_list(r.0, 1 + m, true));
                    assert(paired_list(r.0, 0, false));
                    assert forall|t: int| 0 <= t < r.0.len() implies unambiguous(#[trigger] r.0[t]) by {
                        if t == 0 {
                        } else if t < 1 + m {
                            assert(r.0[t] == mid.0[t - 1]);
                        } else if t == 1 + m {
                            assert(unambiguous(cs[k]));
                        } else {
                            assert(r.0[t] == rest.0[t - 2 - m]);
                        }
                    }
                },
                None => {
                    let rest = wo_list(cs, i + 1, ci + 1);
                    lemma_wo_pairs_list(cs, i + 1, ci + 1);
                    lemma_placeholder_class();
                    let left = seq![cs[i], placeholder()];
                    assert(r.0 == left + rest.0);
                    lemma_paired_suffix(left, rest.0, 0, false);
                    assert(paired_list(r.0, 2, false));
                    assert(r.0[0] == cs[i]);
                    assert(r.0[1] == placeholder());
                    assert(paired_list(r.0, 1, true));
                    assert(paired_list(r.0, 0, false));
                    assert forall|t: int| 0 <= t < r.0.len() implies unambiguous(#[trigger] r.0[t]) by {
                        if t >= 2 {
                            assert(r.0[t] == rest.0[t - 2]);
                        }
                    }
                },
            }
        } else if is_output(cs[i]) {
            assert(r.1.len() > 0);
        } else {
            let p = wo_tree(cs[i]);
            let rest = wo_list(cs, i + 1, ci);
            lemma_wo_pairs_tree(cs[i]);
            lemma_wo_class(cs[i]);
            lemma_wo_pairs_list(cs, i + 1, ci);
            assert(r.0 == seq![p.0] + rest.0);
            lemma_paired_suffix(seq![p.0], rest.0, 0, false);
            assert forall|t: int| 0 <= t < r.0.len() implies unambiguous(#[trigger] r.0[t]) by {
                if t >= 1 {
                    assert(r.0[t] == rest.0[t - 1]);
                }
            }
        }
    }
}

// ---------------------------------------------------------------------------
// Filling keeps a tree paired, and filling twice is filling once.

/// An output comment is an output node.
proof fn lemma_output_comment_is_output(out: Seq<char>)
    ensures
        contains(output_comment(out), output_marker()),
{
    let c = output_comment(out);
    assert(c.subrange(0, 12) =~= output_marker());
    assert(occurs_at(c, output_marker(), 0));
}

/// An output node given an output stays an output node, and is not executable.
pub proof fn lemma_updated_class(n: Doc, out: Seq<char>)
    requires
        is_output(n),
    ensures
        is_output(updated(n, out)),
        !is_exec(updated(n, out)),
{
    lemma_output_not_executable();
    match n {
        Doc::Html { value } => {
            lemma_output_comment_is_output(out);
            lemma_output_comment_not_exec(out);
        },
        _ => {},
    }
}

/// Giving an output node the same output twice is giving it once.
proof fn lemma_updated_twice(n: Doc, out: Seq<char>)
    requires
        is_output(n),
    ensures
        updated(updated(n, out), out) == updated(n, out),
{
    lemma_updated_class(n, out);
}

/// `fill_tree` keeps whether a node is executable or an output node.
proof fn lemma_fill_class(n: Doc, outs: Seq<Seq<char>>, k: int)
    requires
        unambiguous(n),
    ensures
        is_exec(fill_tree(n, outs, k).0) == is_exec(n),
        is_output(fill_tree(n, outs, k).0) == is_output(n),
{
    if is_output(n) && 0 <= k < outs.len() {
        lemma_updated_class(n, outs[k]);
    }
}

/// What lies before position `a.len()` does not matter to `fill_list`.
proof fn lemma_fill_suffix(a: Seq<Doc>, s: Seq<Doc>, j: int, outs: Seq<Seq<char>>, k: int)
    requires
        0 <= j,
    ensures
        fill_list(a + s, a.len() + j, outs, k) == fill_list(s, j, outs, k),
    decreases s.len() - j,
{
    if j < s.len() {
        assert((a + s)[a.len() + j] == s[j]);
        lemma_fill_suffix(a, s, j + 1, outs, fill_tree(s[j], outs, k).1);
    }
}

/// Filling keeps a tree paired and unambiguous.
pub proof fn lemma_fill_pairs_tree(n: Doc, outs: Seq<Seq<char>>, k: int)
    requires
        paired_tree(n),
        unambiguous(n),
    ensures
        paired_tree(fill_tree(n, outs, k).0),
        unambiguous(fill_tree(n, outs, k).0),
    decreases n, 0int,
{
    match n {
        Doc::Element { children, .. } => {
            lemma_fill_pairs_list(children, 0, outs, k, false);
        },
        _ => {
            lemma_fill_class(n, outs, k);
        },
    }
}

proof fn lemma_fill_pairs_list(cs: Seq<Doc>, i: int, outs: Seq<Seq<char>>, k: int, pending: bool)
    requires
        0 <= i,
        paired_list(cs, i, pending),
        all_unambiguous(cs),
    ensures
        paired_list(fill_list(cs, i, outs, k).0, 0, pending),
        all_unambiguous(fill_list(cs, i, outs, k).0),
    decreases cs, cs.len() - i,
{
    let r = fill_list(cs, i, outs, k);
    if i < cs.len() {
        let a = fill_tree(cs[i], outs, k);
        let b = fill_list(cs, i + 1, outs, a.1);
        assert(unambiguous(cs[i]));
        lemma_fill_class(cs[i], outs, k);
        lemma_fill_pairs_tree(cs[i], outs, k);
        let next = if is_exec(cs[i]) {
            true
        } else if is_output(cs[i]) {
            false
        } else {
            pending
        };
        lemma_fill_pairs_list(cs, i + 1, outs, a.1, next);
        assert(r.0 == seq![a.0] + b.0);
        lemma_paired_suffix(seq![a.0], b.0, 0, next);
        assert(r.0[0] == a.0);
        assert forall|t: int| 0 <= t < r.0.len() implies unambiguous(#[trigger] r.0[t]) by {
            if t >= 1 {
                assert(r.0[t] == b.0[t - 1]);
            }
        }
    }
}

/// Filling a filled tree again with the same outputs changes nothing.
pub proof fn lemma_fill_twice_tree(n: Doc, outs: Seq<Seq<char>>, k: int)
    ensures
        fill_tree(fill_tree(n, outs, k).0, outs, k) == fill_tree(n, outs, k),
    decreases n, 0int,
{
    match n {
        Doc::Element { children, .. } => {
            lemma_fill_twice_list(children, 0, outs, k);
        },
        _ => {
            if is_output(n) && 0 <= k < outs.len() {
                lemma_updated_twice(n, outs[k]);
                lemma_updated_class(n, outs[k]);
            }
        },
    }
}

proof fn lemma_fill_twice_list(cs: Seq<Doc>, i: int, outs: Seq<Seq<char>>, k: int)
    requires
        0 <= i,
    ensures
        fill_list(fill_list(cs, i, outs, k).0, 0, outs, k) == fill_list(cs, i, outs, k),
    decreases cs, cs.len() - i,
{
    let r = fill_list(cs, i, outs, k);
    if i < cs.len() {
        let a = fill_tree(cs[i], outs, k);
        let b = fill_list(cs, i + 1, outs, a.1);
        lemma_fill_twice_tree(cs[i], outs, k);
        lemma_fill_twice_list(cs, i + 1, outs, a.1);
        assert(r.0 == seq![a.0] + b.0);
        assert(r.0[0] == a.0);
        lemma_fill_suffix(seq![a.0], b.0, 0, outs, a.1);
        assert(fill_list(r.0, 1, outs, a.1) == fill_list(b.0, 0, outs, a.1));
        assert(fill_list(r.0, 0, outs, k).0 =~= seq![a.0] + b.0);
    } else {
        assert(r.0 =~= Seq::<Doc>::empty());
    }
}

// ---------------------------------------------------------------------------
// Every executable node has an output node after it: adding output nodes
// gives this, filling keeps it, and cleaning such a tree pairs it.

/// In every list of children of the tree, every executable node has an
/// output node after it before the next executable node (or the end of the
/// list).
pub open spec fn covered_tree(n: Doc) -> bool
    decreases n, 0int,
{
    match n {
        Doc::Element { children, .. } => covered_list(children, 0, false),
        _ => true,
    }
}

/// `covered_tree` for the list `cs` from position `i` on, `pending` telling
/// whether the last executable node before `i` has not been followed by an
/// output node yet.
pub open spec fn covered_list(cs: Seq<Doc>, i: int, pending: bool) -> bool
    decreases cs, cs.len() - i,
{
    if i < 0 || i >= cs.len() {
        !pending
    } else if is_exec(cs[i]) {
        !pending && covered_list(cs, i + 1, true)
    } else if is_output(cs[i]) {
        covered_list(cs, i + 1, false)
    } else {
        covered_tree(cs[i]) && covered_list(cs, i + 1, pending)
    }
}

/// What lies before position `a.len()` does not matter to `covered_list`.
proof fn lemma_covered_suffix(a: Seq<Doc>, s: Seq<Doc>, j: int, pending: bool)
    requires
        0 <= j,
    ensures
        covered_list(a + s, a.len() + j, pending) == covered_list(s, j, pending),
    decreases s.len() - j,
{
    if j < s.len() {
        assert((a + s)[a.len() + j] == s[j]);
        lemma_covered_suffix(a, s, j + 1, true);
        lemma_covered_suffix(a, s, j + 1, false);
    }
}

/// Nodes that are neither executable nor output nodes, and are covered, can
/// be skipped over by `covered_list`.
proof fn lemma_covered_skip(cs: Seq<Doc>, a: int, b: int, pending: bool)
    requires
        0 <= a <= b <= cs.len(),
        forall|m: int| a <= m < b ==> !is_exec(#[trigger] cs[m]) && !is_output(cs[m]) && covered_tree(cs[m]),
    ensures
        covered_list(cs, a, pending) == covered_list(cs, b, pending),
    decreases b - a,
{
    if a < b {
        assert(!is_exec(cs[a]) && !is_output(cs[a]) && covered_tree(cs[a]));
        lemma_covered_skip(cs, a + 1, b, pending);
    }
}

/// Adding output nodes covers every executable node, and keeps the tree unambiguous.
pub proof fn lemma_wo_covered_tree(n: Doc)
    requires
        unambiguous(n),
    ensures
        covered_tree(wo_tree(n).0),
        unambiguous(wo_tree(n).0),
    decreases n, 0int,
{
    match n {
        Doc::Element { children, .. } => {
            lemma_wo_covered_list(children, 0, 0);
        },
        _ => {},
    }
}

proof fn lemma_wo_covered_list(cs: Seq<Doc>, i: int, ci: int)
    requires
        0 <= i,
        all_unambiguous(cs),
    ensures
        covered_list(wo_list(cs, i, ci).0, 0, false),
        all_unambiguous(wo_list(cs, i, ci).0),
    decreases cs, cs.len() - i,
{
    let r = wo_list(cs, i, ci);
    if i < cs.len() {
        assert(unambiguous(cs[i]));
        if is_exec(cs[i]) {
            let p = wo_tree(cs[i]);
            assert(p.0 == cs[i]);
            lemma_first_output(cs, i + 1);
            match first_output(cs, i + 1) {
                Some(k) => {
                    let mid = wo_range(cs, i + 1, k);
                    let rest = wo_list(cs, k + 1, ci + 1);
                    lemma_wo_covered_list(cs, k + 1, ci + 1);
                    lemma_wo_range_items(cs, i + 1, k);
                    let m = mid.0.len() as int;
                    assert forall|t: int| 0 <= t < m implies !is_exec(#[trigger] mid.0[t]) && !is_output(mid.0[t])
                        && covered_tree(mid.0[t]) && unambiguous(mid.0[t]) by {
                        let x = cs[i + 1 + t];
                        assert(unambiguous(x));
                        lemma_wo_covered_tree(x);
                        lemma_wo_class(x);
                    }
                    let left = seq![cs[i]] + mid.0 + seq![cs[k]];
                    assert(r.0 == left + rest.0);
                    lemma_covered_suffix(left, rest.0, 0, false);
                    assert forall|t: int| 1 <= t < 1 + m implies !is_exec(#[trigger] r.0[t]) && !is_output(r.0[t])
                        && covered_tree(r.0[t]) by {
                        assert(r.0[t] == mid.0[t - 1]);
                    }
                    lemma_covered_skip(r.0, 1, 1 + m, true);
                    assert(r.0[1 + m] == cs[k]);
                    assert(covered_list(r.0, 2 + m, false));
                    assert(covered_list(r.0, 1 + m, true));
                    assert(covered_list(r.0, 0, false));
                    assert forall|t: int| 0 <= t < r.0.len() implies unambiguous(#[trigger] r.0[t]) by {
                        if t == 0 {
                        } else if t < 1 + m {
                            assert(r.0[t] == mid.0[t - 1]);
                        } else if t == 1 + m {
                            assert(unambiguous(cs[k]));
                        } else {
                            assert(r.0[t] == rest.0[t - 2 - m]);
                        }
                    }
                },
                None => {
                    let rest = wo_list(cs, i + 1, ci + 1);
                    lemma_wo_covered_list(cs, i + 1, ci + 1);
                    lemma_placeholder_class();
                    let left = seq![cs[i], placeholder()];
                    assert(r.0 == left + rest.0);
                    lemma_covered_suffix(left, rest.0, 0, false);
                    assert(covered_list(r.0, 2, false));
                    assert(r.0[0] == cs[i]);
                    assert(r.0[1] == placeholder());
                    assert(covered_list(r.0, 1, true));
                    assert(covered_list(r.0, 0, false));
                    assert forall|t: int| 0 <= t < r.0.len() implies unambiguous(#[trigger] r.0[t]) by {
                        if t >= 2 {
                            assert(r.0[t] == rest.0[t - 2]);
                        }
                    }
                },
            }
        } else if is_output(cs[i]) {
            let rest = wo_list(cs, i + 1, ci);
            lemma_wo_covered_list(cs, i + 1, ci);
            assert(r.0 == seq![cs[i]] + rest.0);
            lemma_covered_suffix(seq![cs[i]], rest.0, 0, false);
            assert(r.0[0] == cs[i]);
            assert forall|t: int| 0 <= t < r.0.len() implies unambiguous(#[trigger] r.0[t]) by {
                if t >= 1 {
                    assert(r.0[t] == rest.0[t - 1]);
                }
            }
        } else {
            let p = wo_tree(cs[i]);
            let rest = wo_list(cs, i + 1, ci);
            lemma_wo_covered_tree(cs[i]);
            lemma_wo_class(cs[i]);
            lemma_wo_covered_list(cs, i + 1, ci);
            assert(r.0 == seq![p.0] + rest.0);
            lemma_covered_suffix(seq![p.0], rest.0, 0, false);
            assert(r.0[0] == p.0);
            assert forall|t: int| 0 <= t < r.0.len() implies unambiguous(#[trigger] r.0[t]) by {
                if t >= 1 {
                    assert(r.0[t] == rest.0[t - 1]);
                }
            }
        }
    }
}

/// Filling keeps a tree covered and unambiguous.
pub proof fn lemma_fill_covered_tree(n: Doc, outs: Seq<Seq<char>>, k: int)
    requires
        covered_tree(n),
        unambiguous(n),
    ensures
        covered_tree(fill_tree(n, outs, k).0),
        unambiguous(fill_tree(n, outs, k).0),
    decreases n, 0int,
{
    match n {
        Doc::Element { children, .. } => {
            lemma_fill_covered_list(children, 0, outs, k, false);
        },
        _ => {
            lemma_fill_class(n, outs, k);
        },
    }
}

proof fn lemma_fill_covered_list(cs: Seq<Doc>, i: int, outs: Seq<Seq<char>>, k: int, pending: bool)
    requires
        0 <= i,
        covered_list(cs, i, pending),
        all_unambiguous(cs),
    ensures
        covered_list(fill_list(cs, i, outs, k).0, 0, pending),
        all_unambiguous(fill_list(cs, i, outs, k).0),
    decreases cs, cs.len() - i,
{
    let r = fill_list(cs, i, outs, k);
    if i < cs.len() {
        let a = fill_tree(cs[i], outs, k);
        let b = fill_list(cs, i + 1, outs, a.1);
        assert(unambiguous(cs[i]));
        lemma_fill_class(cs[i], outs, k);
        if !is_exec(cs[i]) && !is_output(cs[i]) {
            lemma_fill_covered_tree(cs[i], outs, k);
        } else {
            lemma_fill_covered_tree(cs[i], outs, k);
        }
        let next = if is_exec(cs[i]) {
            true
        } else if is_output(cs[i]) {
            false
        } else {
            pending
        };
        lemma_fill_covered_list(cs, i + 1, outs, a.1, next);
        assert(r.0 == seq![a.0] + b.0);
        lemma_covered_suffix(seq![a.0], b.0, 0, next);
        assert(r.0[0] == a.0);
        assert forall|t: int| 0 <= t < r.0.len() implies unambiguous(#[trigger] r.0[t]) by {
            if t >= 1 {
                assert(r.0[t] == b.0[t - 1]);
            }
        }
    }
}

/// Removing the output nodes that belong to no executable node from a
/// covered tree pairs it.
pub proof fn lemma_clean_covered_tree(n: Doc)
    requires
        covered_tree(n),
        unambiguous(n),
    ensures
        paired_tree(clean_tree(n)),
        unambiguous(clean_tree(n)),
    decreases n, 0int,
{
    match n {
        Doc::Element { children, .. } => {
            lemma_clean_covered_list(children, 0, 0);
        },
        _ => {},
    }
}

proof fn lemma_clean_covered_list(cs: Seq<Doc>, i: int, mode: int)
    requires
        0 <= i,
        0 <= mode <= 2,
        covered_list(cs, i, mode == 1),
        all_unambiguous(cs),
    ensures
        paired_list(clean_list(cs, i, mode), 0, mode == 1),
        all_unambiguous(clean_list(cs, i, mode)),
    decreases cs, cs.len() - i,
{
    let r = clean_list(cs, i, mode);
    if i < cs.len() {
        let x = cs[i];
        assert(unambiguous(x));
        let c = clean_tree(x);
        if is_exec(x) || is_output(x) {
            assert(!(x is Element));
            assert(c == x);
        } else {
            lemma_clean_covered_tree(x);
            assert(!is_exec(c) && !is_output(c)) by {
                if x is Element {
                    assert(c is Element);
                }
            }
        }
        if mode == 0 || mode == 2 {
            if is_exec(x) {
                let rest = clean_list(cs, i + 1, 1);
                lemma_clean_covered_list(cs, i + 1, 1);
                assert(r == seq![c] + rest);
                lemma_paired_suffix(seq![c], rest, 0, true);
                assert(r[0] == c);
                assert forall|t: int| 0 <= t < r.len() implies unambiguous(#[trigger] r[t]) by {
                    if t >= 1 {
                        assert(r[t] == rest[t - 1]);
                    }
                }
            } else if is_output(x) {
                lemma_clean_covered_list(cs, i + 1, mode);
            } else {
                let rest = clean_list(cs, i + 1, mode);
                lemma_clean_covered_list(cs, i + 1, mode);
                assert(r == seq![c] + rest);
                lemma_paired_suffix(seq![c], rest, 0, false);
                assert(r[0] == c);
                assert forall|t: int| 0 <= t < r.len() implies unambiguous(#[trigger] r[t]) by {
                    if t >= 1 {
                        assert(r[t] == rest[t - 1]);
                    }
                }
            }
        } else {
            if is_output(x) {
                let rest = clean_list(cs, i + 1, 2);
                lemma_clean_covered_list(cs, i + 1, 2);
                assert(r == seq![c] + rest);
                lemma_paired_suffix(seq![c], rest, 0, false);
                assert(r[0] == c);
                assert forall|t: int| 0 <= t < r.len() implies unambiguous(#[trigger] r[t]) by {
                    if t >= 1 {
                        assert(r[t] == rest[t - 1]);
                    }
                }
            } else {
                let rest = clean_list(cs, i + 1, 1);
                lemma_clean_covered_list(cs, i + 1, 1);
                assert(r == seq![c] + rest);
                lemma_paired_suffix(seq![c], rest, 0, true);
                assert(r[0] == c);
                assert forall|t: int| 0 <= t < r.len() implies unambiguous(#[trigger] r[t]) by {
                    if t >= 1 {
                        assert(r[t] == rest[t - 1]);
                    }
                }
            }
        }
    }
}

// ---------------------------------------------------------------------------
// The laws.

/// A processed document pairs every executable node with exactly one output
/// node (in every list of children: no output node before the first
/// executable node, exactly one between an executable node and the next),
/// whatever outputs were written in.
pub proof fn lemma_transform_pairs(t: Doc, outs: Seq<Seq<char>>)
    requires
        unambiguous(t),
    ensures
        paired_tree(transformed(t, outs)),
        unambiguous(transformed(t, outs)),
{
    let w = wo_tree(t).0;
    lemma_wo_covered_tree(t);
    let p = clean_tree(w);
    lemma_clean_covered_tree(w);
    lemma_fill_pairs_tree(p, outs, 0);
}

/// Processing a document is idempotent: processing the processed document
/// again with the same outputs gives it back unchanged.
pub proof fn lemma_transform_idempotent(t: Doc, outs: Seq<Seq<char>>)
    requires
        unambiguous(t),
    ensures
        transformed(transformed(t, outs), outs) == transformed(t, outs),
{
    let w = wo_tree(t).0;
    lemma_wo_covered_tree(t);
    let p = clean_tree(w);
    lemma_clean_covered_tree(w);
    let f = fill_tree(p, outs, 0).0;
    assert(transformed(t, outs) == f);
    lemma_fill_pairs_tree(p, outs, 0);
    lemma_wo_paired_tree(f);
    lemma_clean_paired_tree(f);
    lemma_fill_twice_tree(p, outs, 0);
    assert(fill_tree(f, outs, 0).0 == f);
}

/// Removing the output nodes that belong to no executable node a second
/// time removes nothing more.
pub proof fn lemma_clean_idempotent(n: Doc)
    ensures
        clean_tree(clean_tree(n)) == clean_tree(n),
    decreases n, 0int,
{
    match n {
        Doc::Element { info, source, children } => {
            lemma_clean_list_idempotent(children, 0, 0);
        },
        _ => {},
    }
}

proof fn lemma_clean_suffix(a: Seq<Doc>, r: Seq<Doc>, j: int, mode: int)
    requires
        0 <= j,
    ensures
        clean_list(a + r, a.len() + j, mode) == clean_list(r, j, mode),
    decreases r.len() - j,
{
    if j < r.len() {
        assert((a + r)[a.len() + j] == r[j]);
        lemma_clean_suffix(a, r, j + 1, 0);
        lemma_clean_suffix(a, r, j + 1, 1);
        lemma_clean_suffix(a, r, j + 1, 2);
        lemma_clean_suffix(a, r, j + 1, mode);
    }
}

proof fn lemma_clean_cons(c: Doc, rest: Seq<Doc>, mode: int, next: int)
    requires
        clean_list(rest, 0, next) == rest,
        clean_tree(c) == c,
        clean_list(seq![c] + rest, 0, mode) == seq![clean_tree(c)] + clean_list(seq![c] + rest, 1, next),
    ensures
        clean_list(seq![c] + rest, 0, mode) == seq![c] + rest,
{
    lemma_clean_suffix(seq![c], rest, 0, next);
}

proof fn lemma_clean_list_idempotent(cs: Seq<Doc>, i: int, mode: int)
    requires
        0 <= i,
        0 <= mode <= 2,
    ensures
        clean_list(clean_list(cs, i, mode), 0, mode) == clean_list(cs, i, mode),
    decreases cs, cs.len() - i,
{
    if i < cs.len() {
        let x = cs[i];
        lemma_clean_idempotent(x);
        let c = clean_tree(x);
        assert(is_exec(c) == is_exec(x) && is_output(c) == is_output(x));
        if mode == 0 {
            if is_exec(x) {
                lemma_clean_list_idempotent(cs, i + 1, 1);
                let rest = clean_list(cs, i + 1, 1);
                assert((seq![c] + rest)[0] == c);
                lemma_clean_cons(c, rest, mode, 1);
            } else if is_output(x) {
                lemma_clean_list_idempotent(cs, i + 1, 0);
            } else {
                lemma_clean_list_idempotent(cs, i + 1, 0);
                let rest = clean_list(cs, i + 1, 0);
                assert((seq![c] + rest)[0] == c);
                lemma_clean_cons(c, rest, mode, 0);
            }
        } else if is_output(x) {
            if mode == 1 {
                lemma_clean_list_idempotent(cs, i + 1, 2);
                let rest = clean_list(cs, i + 1, 2);
                assert((seq![c] + rest)[0] == c);
                lemma_clean_cons(c, rest, mode, 2);
            } else {
                lemma_clean_list_idempotent(cs, i + 1, 2);
            }
        } else if is_exec(x) {
            lemma_clean_list_idempotent(cs, i + 1, 1);
            let rest = clean_list(cs, i + 1, 1);
            assert((seq![c] + rest)[0] == c);
            lemma_clean_cons(c, rest, mode, 1);
        } else {
            lemma_clean_list_idempotent(cs, i + 1, mode);
            let rest = clean_list(cs, i + 1, mode);
            assert((seq![c] + rest)[0] == c);
            lemma_clean_cons(c, rest, mode, mode);
        }
    }
}

/// Every executable language is a non-empty word of lower-case letters and digits.
pub proof fn lemma_executable_lang_word(l: Seq<char>)
    requires
        is_executable_lang(l),
    ensures
        l.len() > 0,
        forall|i: int| 0 <= i < l.len() ==> ('a' <= #[trigger] l[i] <= 'z' || '0' <= l[i] <= '9'),
{
    lemma_executable_languages(l);
    let e = executable_languages();
    let j = choose|j: int| 0 <= j < e.len() && e[j] == l;
    reveal_strlit("sh");
    reveal_strlit("bash");
    reveal_strlit("shell");
    reveal_strlit("python");
    reveal_strlit("python3");
    reveal_strlit("js");
    reveal_strlit("javascript");
    reveal_strlit("node");
    reveal_strlit("ts");
    reveal_strlit("typescript");
    reveal_strlit("ruby");
    reveal_strlit("perl");
    reveal_strlit("php");
    reveal_strlit("go");
    reveal_strlit("rust");
    assert(e[j] == l);
}

proof fn lemma_find_first(s: Seq<char>, n: Seq<char>, i: int, k: int)
    requires
        0 <= i <= k,
        occurs_at(s, n, k),
        forall|p: int| i <= p < k ==> !occurs_at(s, n, p),
    ensures
        find_from(s, n, i) == Some(k),
    decreases k - i,
{
    if i < k {
        lemma_find_first(s, n, i + 1, k);
    }
}

/// A text with no whitespace at either end, or empty, is its own trim.
proof fn lemma_trim_of_ends(s: Seq<char>)
    requires
        s.len() > 0 ==> !is_ws(s[0]) && !is_ws(s[s.len() - 1]),
    ensures
        trim(s) == s,
{
    assert(lead_ws_from(s, 0) == 0);
    assert(trim_start(s) =~= s);
    assert(trim_end_index(s, s.len() as int) == s.len());
    assert(trim_end(s) =~= s);
}

/// A non-empty text that is its own trim has no whitespace at either end.
proof fn lemma_trimmed_ends(s: Seq<char>)
    requires
        trim(s) == s,
        s.len() > 0,
    ensures
        !is_ws(s[0]),
        !is_ws(s[s.len() - 1]),
{
    crate::text::lemma_lead_ws_bounds(s, 0);
    lemma_trim_end_bounds(trim_start(s), trim_start(s).len() as int);
    if is_ws(s[0]) {
        assert(lead_ws_from(s, 0) >= 1);
        assert(trim(s).len() < s.len());
    }
    if is_ws(s[s.len() - 1]) {
        let u = trim_start(s);
        if u.len() > 0 {
            assert(u[u.len() - 1] == s[s.len() - 1]);
            assert(trim_end_index(u, u.len() as int) < u.len());
        }
        assert(trim(s).len() < s.len());
    }
}

/// A hidden exec comment written for an executable language and a code that
/// is not empty and has no whitespace at either end reads back as that
/// language and that code: `<!-- {lang} exec: {code} -->`.
pub proof fn lemma_hidden_comment_round_trip(lang: Seq<char>, code: Seq<char>)
    requires
        is_executable_lang(lang),
        code.len() > 0,
        trim(code) == code,
    ensures
        parse_hidden_comment("<!-- "@ + lang + " exec: "@ + code + " -->"@) == Some((lang, code)),
{
    reveal_strlit("<!-- ");
    reveal_strlit(" exec: ");
    reveal_strlit(" -->");
    lemma_executable_lang_word(lang);
    lemma_trimmed_ends(code);
    let c = "<!-- "@ + lang + " exec: "@ + code + " -->"@;
    let sep = exec_separator();
    assert(" exec: "@ =~= sep);
    assert(c[0] == '<');
    assert(c[c.len() - 1] == '>');
    lemma_trim_of_ends(c);
    let t = trim(c);
    assert(t.subrange(0, 4) =~= crate::document::comment_open());
    assert(t.subrange(t.len() - 3, t.len() as int) =~= crate::document::comment_close());
    let inner0 = t.subrange(4, t.len() - 3);
    let mid = lang + sep + code;
    assert(inner0 =~= seq![' '] + mid + seq![' ']);
    assert(mid[0] == lang[0]);
    assert(mid[mid.len() - 1] == code[code.len() - 1]);
    assert(lead_ws_from(inner0, 1) == 0);
    assert(lead_ws_from(inner0, 0) == 1);
    let u = trim_start(inner0);
    assert(u =~= mid + seq![' ']);
    assert(trim_end_index(u, u.len() - 1) == u.len() - 1);
    assert(trim_end_index(u, u.len() as int) == u.len() - 1);
    let inner = trim(inner0);
    assert(inner =~= mid);
    let k = lang.len() as int;
    assert(inner.subrange(k, k + 7) =~= sep);
    assert forall|p: int| 0 <= p < k implies !occurs_at(inner, sep, p) by {
        assert(inner[p] == lang[p]);
        if occurs_at(inner, sep, p) {
            assert(inner.subrange(p, p + 7)[0] == sep[0]);
        }
    }
    lemma_find_first(inner, sep, 0, k);
    assert(inner.subrange(0, k) =~= lang);
    assert(inner.subrange(k + 7, inner.len() as int) =~= code);
    lemma_trim_of_ends(lang);
}

/// The output nodes of the tree that belong to no executable node (those
/// `clean_tree` removes): in every list of children, those before the first
/// executable node, and after each executable node all but the first output
/// node before the next executable node.
pub open spec fn orphan_count(n: Doc) -> int
    decreases n, 0int,
{
    match n {
        Doc::Element { children, .. } => orphan_count_list(children, 0, 0),
        _ => 0,
    }
}

/// `orphan_count` over `cs[i..]`, from place `mode` in the list (as in
/// `clean_list`: 0 before the first executable node, 1 after an executable
/// node whose output has not come yet, 2 once it has).
pub open spec fn orphan_count_list(cs: Seq<Doc>, i: int, mode: int) -> int
    decreases cs, cs.len() - i,
{
    if i < 0 || i >= cs.len() {
        0
    } else if mode == 0 {
        if is_exec(cs[i]) {
            orphan_count(cs[i]) + orphan_count_list(cs, i + 1, 1)
        } else if is_output(cs[i]) {
            1 + orphan_count_list(cs, i + 1, 0)
        } else {
            orphan_count(cs[i]) + orphan_count_list(cs, i + 1, 0)
        }
    } else if is_output(cs[i]) {
        (if mode == 1 { 0int } else { 1int }) + orphan_count_list(cs, i + 1, 2)
    } else if is_exec(cs[i]) {
        orphan_count(cs[i]) + orphan_count_list(cs, i + 1, 1)
    } else {
        orphan_count(cs[i]) + orphan_count_list(cs, i + 1, mode)
    }
}

/// Pairing the executable nodes with output nodes records one orphan entry
/// per output node that belongs to no executable node.
pub proof fn lemma_wo_orphan_count(n: Doc)
    requires
        unambiguous(n),
    ensures
        wo_tree(n).1.len() == orphan_count(n),
    decreases n, 0int,
{
    match n {
        Doc::Element { children, .. } => {
            lemma_wo_orphan_list(children, 0, 0);
        },
        _ => {},
    }
}

/// Between an executable node and no output before the next executable
/// node, places 1 and 2 count alike.
proof fn lemma_orphan_no_output(cs: Seq<Doc>, j: int)
    requires
        0 <= j,
        first_output(cs, j) is None,
        all_unambiguous(cs),
    ensures
        orphan_count_list(cs, j, 1) == orphan_count_list(cs, j, 2),
    decreases cs.len() - j,
{
    if j < cs.len() {
        assert(unambiguous(cs[j]));
        if !is_exec(cs[j]) {
            lemma_orphan_no_output(cs, j + 1);
        }
    }
}

/// From just after an executable node to the output node `k` it takes, only
/// the nodes in between count.
proof fn lemma_orphan_range(cs: Seq<Doc>, j: int, k: int)
    requires
        0 <= j <= k < cs.len(),
        is_output(cs[k]),
        all_unambiguous(cs),
        forall|m: int| j <= m < k ==> !is_exec(#[trigger] cs[m]) && !is_output(cs[m]),
    ensures
        orphan_count_list(cs, j, 1) == wo_range(cs, j, k).1.len() + orphan_count_list(cs, k + 1, 2),
    decreases cs, k - j,
{
    if j < k {
        assert(!is_exec(cs[j]) && !is_output(cs[j]));
        assert(unambiguous(cs[j]));
        lemma_wo_orphan_count(cs[j]);
        lemma_orphan_range(cs, j + 1, k);
    }
}

proof fn lemma_wo_orphan_list(cs: Seq<Doc>, i: int, ci: int)
    requires
        0 <= i,
        0 <= ci,
        all_unambiguous(cs),
    ensures
        wo_list(cs, i, ci).1.len() == orphan_count_list(cs, i, if ci == 0 { 0 } else { 2 }),
    decreases cs, cs.len() - i,
{
    if i < cs.len() {
        let x = cs[i];
        assert(unambiguous(x));
        let mode = if ci == 0 { 0int } else { 2int };
        if is_exec(x) {
            assert(!is_output(x));
            lemma_first_output(cs, i + 1);
            assert(wo_tree(x).1.len() == 0);
            assert(orphan_count(x) == 0);
            assert(orphan_count_list(cs, i, mode) == orphan_count_list(cs, i + 1, 1));
            match first_output(cs, i + 1) {
                Some(k) => {
                    lemma_orphan_range(cs, i + 1, k);
                    lemma_wo_orphan_list(cs, k + 1, ci + 1);
                    let mid = wo_range(cs, i + 1, k);
                    let rest = wo_list(cs, k + 1, ci + 1);
                    assert(wo_list(cs, i, ci).1 == wo_tree(x).1 + mid.1 + rest.1);
                },
                None => {
                    lemma_orphan_no_output(cs, i + 1);
                    lemma_wo_orphan_list(cs, i + 1, ci + 1);
                    assert(wo_list(cs, i, ci).1 == wo_tree(x).1 + wo_list(cs, i + 1, ci + 1).1);
                },
            }
        } else if is_output(x) {
            lemma_wo_orphan_list(cs, i + 1, ci);
        } else {
            lemma_wo_orphan_count(x);
            lemma_wo_orphan_list(cs, i + 1, ci);
            assert(wo_list(cs, i, ci).1 == wo_tree(x).1 + wo_list(cs, i + 1, ci).1);
        }
    }
}

/// The tree with every node equal to the empty `output` code block that
/// pairing adds (`placeholder`) removed from its lists.
pub open spec fn strip_tree(n: Doc) -> Doc
    decreases n, 0int,
{
    match n {
        Doc::Element { info, source, children } => Doc::Element { info, source, children: strip_list(children, 0) },
        _ => n,
    }
}

/// `strip_tree` over `cs[i..]`, the nodes equal to `placeholder` left out.
pub open spec fn strip_list(cs: Seq<Doc>, i: int) -> Seq<Doc>
    decreases cs, cs.len() - i,
{
    if i < 0 || i >= cs.len() {
        Seq::empty()
    } else if cs[i] == placeholder() {
        strip_list(cs, i + 1)
    } else {
        seq![strip_tree(cs[i])] + strip_list(cs, i + 1)
    }
}

/// No node of the tree is equal to `placeholder`.
pub open spec fn no_placeholder(n: Doc) -> bool
    decreases n,
{
    match n {
        Doc::Element { children, .. } => forall|i: int| 0 <= i < children.len() ==> no_placeholder(#[trigger] children[i]),
        _ => n != placeholder(),
    }
}

proof fn lemma_strip_shift(a: Seq<Doc>, b: Seq<Doc>, m: int)
    requires
        0 <= m,
    ensures
        strip_list(a + b, a.len() + m) == strip_list(b, m),
    decreases b.len() - m,
{
    if m < b.len() {
        assert((a + b)[a.len() + m] == b[m]);
        lemma_strip_shift(a, b, m + 1);
    }
}

proof fn lemma_strip_concat(a: Seq<Doc>, b: Seq<Doc>, j: int)
    requires
        0 <= j <= a.len(),
    ensures
        strip_list(a + b, j) == strip_list(a, j) + strip_list(b, 0),
    decreases a.len() - j,
{
    if j < a.len() {
        assert((a + b)[j] == a[j]);
        lemma_strip_concat(a, b, j + 1);
        assert(strip_list(a + b, j) =~= strip_list(a, j) + strip_list(b, 0));
    } else {
        lemma_strip_shift(a, b, 0);
        assert(strip_list(a, j) =~= Seq::<Doc>::empty());
        assert(strip_list(a + b, j) =~= strip_list(a, j) + strip_list(b, 0));
    }
}

/// Stripping a single node that is not a placeholder.
proof fn lemma_strip_one(x: Doc)
    requires
        x != placeholder(),
    ensures
        strip_list(seq![x], 0) == seq![strip_tree(x)],
{
    assert(strip_list(seq![x], 1) =~= Seq::<Doc>::empty());
    assert(strip_list(seq![x], 0) =~= seq![strip_tree(x)]);
}

/// Pairing only adds placeholders: removing them from the paired tree gives
/// back a tree that had none.
pub proof fn lemma_wo_strip(n: Doc)
    requires
        no_placeholder(n),
    ensures
        strip_tree(wo_tree(n).0) == n,
        wo_tree(n).0 != placeholder(),
    decreases n, 0int,
{
    match n {
        Doc::Element { info, source, children } => {
            lemma_wo_strip_list(children, 0, 0);
            assert(children.subrange(0, children.len() as int) =~= children);
        },
        _ => {},
    }
}

proof fn lemma_wo_strip_range(cs: Seq<Doc>, j: int, k: int)
    requires
        0 <= j <= k <= cs.len(),
        forall|m: int| 0 <= m < cs.len() ==> no_placeholder(#[trigger] cs[m]),
    ensures
        strip_list(wo_range(cs, j, k).0, 0) == cs.subrange(j, k),
    decreases cs, k - j,
{
    if j < k {
        let a = wo_tree(cs[j]);
        let b = wo_range(cs, j + 1, k);
        lemma_wo_strip(cs[j]);
        lemma_wo_strip_range(cs, j + 1, k);
        lemma_strip_concat(seq![a.0], b.0, 0);
        lemma_strip_one(a.0);
        assert(cs.subrange(j, k) =~= seq![cs[j]] + cs.subrange(j + 1, k));
    } else {
        assert(wo_range(cs, j, k).0 =~= Seq::<Doc>::empty());
        assert(cs.subrange(j, k) =~= Seq::<Doc>::empty());
    }
}

proof fn lemma_wo_strip_list(cs: Seq<Doc>, i: int, ci: int)
    requires
        0 <= i <= cs.len(),
        forall|m: int| 0 <= m < cs.len() ==> no_placeholder(#[trigger] cs[m]),
    ensures
        strip_list(wo_list(cs, i, ci).0, 0) == cs.subrange(i, cs.len() as int),
    decreases cs, cs.len() - i,
{
    if i < cs.len() {
        let x = cs[i];
        assert(no_placeholder(x));
        let p = wo_tree(x);
        lemma_wo_strip(x);
        if is_exec(x) {
            lemma_first_output(cs, i + 1);
            match first_output(cs, i + 1) {
                Some(k) => {
                    let mid = wo_range(cs, i + 1, k);
                    let rest = wo_list(cs, k + 1, ci + 1);
                    lemma_wo_strip_range(cs, i + 1, k);
                    lemma_wo_strip_list(cs, k + 1, ci + 1);
                    assert(no_placeholder(cs[k]));
                    let w = seq![p.0] + mid.0 + seq![cs[k]] + rest.0;
                    lemma_strip_concat(seq![p.0] + mid.0 + seq![cs[k]], rest.0, 0);
                    lemma_strip_concat(seq![p.0] + mid.0, seq![cs[k]], 0);
                    lemma_strip_concat(seq![p.0], mid.0, 0);
                    lemma_strip_one(p.0);
                    lemma_strip_one(cs[k]);
                    assert(cs.subrange(i, cs.len() as int) =~= seq![x] + cs.subrange(i + 1, k) + seq![cs[k]] + cs.subrange(k + 1, cs.len() as int));
                },
                None => {
                    let rest = wo_list(cs, i + 1, ci + 1);
                    lemma_wo_strip_list(cs, i + 1, ci + 1);
                    lemma_strip_concat(seq![p.0, placeholder()], rest.0, 0);
                    assert(strip_list(seq![p.0, placeholder()], 1) =~= Seq::<Doc>::empty()) by {
                        assert(strip_list(seq![p.0, placeholder()], 2) =~= Seq::<Doc>::empty());
                    }
                    assert(strip_list(seq![p.0, placeholder()], 0) =~= seq![strip_tree(p.0)]);
                    assert(cs.subrange(i, cs.len() as int) =~= seq![x] + cs.subrange(i + 1, cs.len() as int));
                },
            }
        } else if is_output(x) {
            let rest = wo_list(cs, i + 1, ci);
            lemma_wo_strip_list(cs, i + 1, ci);
            lemma_strip_concat(seq![x], rest.0, 0);
            lemma_strip_one(x);
            assert(cs.subrange(i, cs.len() as int) =~= seq![x] + cs.subrange(i + 1, cs.len() as int));
        } else {
            let rest = wo_list(cs, i + 1, ci);
            lemma_wo_strip_list(cs, i + 1, ci);
            lemma_strip_concat(seq![p.0], rest.0, 0);
            lemma_strip_one(p.0);
            assert(cs.subrange(i, cs.len() as int) =~= seq![x] + cs.subrange(i + 1, cs.len() as int));
        }
    } else {
        assert(cs.subrange(i, cs.len() as int) =~= Seq::<Doc>::empty());
    }
}

// ---------------------------------------------------------------------------
// Processing keeps the executable blocks.

/// The executable blocks of a node and below it, in document order.
pub open spec fn node_blocks(d: Doc) -> Seq<crate::document::SpecBlock> {
    block_seq(d) + blocks_tree(d)
}

/// `blocks_list` depends only on the nodes from the position on.
proof fn lemma_blocks_same_tail(s: Seq<Doc>, i: int, t: Seq<Doc>, j: int)
    requires
        0 <= i <= s.len(),
        0 <= j <= t.len(),
        s.subrange(i, s.len() as int) == t.subrange(j, t.len() as int),
    ensures
        blocks_list(s, i) == blocks_list(t, j),
    decreases s.len() - i,
{
    let a = s.subrange(i, s.len() as int);
    let b = t.subrange(j, t.len() as int);
    if i < s.len() {
        assert(a.len() == b.len());
        assert(a[0] == s[i]);
        assert(b[0] == t[j]);
        assert(s.subrange(i + 1, s.len() as int) =~= a.subrange(1, a.len() as int));
        assert(t.subrange(j + 1, t.len() as int) =~= b.subrange(1, b.len() as int));
        lemma_blocks_same_tail(s, i + 1, t, j + 1);
    } else {
        assert(b.len() == 0);
    }
}

proof fn lemma_blocks_concat_from(a: Seq<Doc>, b: Seq<Doc>, i: int)
    requires
        0 <= i <= a.len(),
    ensures
        blocks_list(a + b, i) == blocks_list(a, i) + blocks_list(b, 0),
    decreases a.len() - i,
{
    if i < a.len() {
        lemma_blocks_concat_from(a, b, i + 1);
        assert((a + b)[i] == a[i]);
        assert(blocks_list(a + b, i) == node_blocks(a[i]) + blocks_list(a + b, i + 1));
        assert(blocks_list(a, i) == node_blocks(a[i]) + blocks_list(a, i + 1));
        assert(node_blocks(a[i]) + (blocks_list(a, i + 1) + blocks_list(b, 0))
            =~= (node_blocks(a[i]) + blocks_list(a, i + 1)) + blocks_list(b, 0));
    } else {
        assert((a + b).subrange(a.len() as int, (a + b).len() as int) =~= b.subrange(0, b.len() as int));
        lemma_blocks_same_tail(a + b, a.len() as int, b, 0);
        assert(blocks_list(a, i) =~= Seq::empty());
        assert(Seq::<crate::document::SpecBlock>::empty() + blocks_list(b, 0) =~= blocks_list(b, 0));
    }
}

/// The executable blocks of a concatenation of lists.
proof fn lemma_blocks_concat(a: Seq<Doc>, b: Seq<Doc>)
    ensures
        blocks_list(a + b, 0) == blocks_list(a, 0) + blocks_list(b, 0),
{
    lemma_blocks_concat_from(a, b, 0);
}

/// The executable blocks of a one-node list.
proof fn lemma_blocks_one(x: Doc)
    ensures
        blocks_list(seq![x], 0) == node_blocks(x),
{
    assert(blocks_list(seq![x], 1) =~= Seq::empty());
    assert(node_blocks(x) + Seq::<crate::document::SpecBlock>::empty() =~= node_blocks(x));
}

/// The executable blocks of the list from `i` on: those of `cs[i..k]`, then those from `k` on.
proof fn lemma_blocks_split(cs: Seq<Doc>, i: int, k: int)
    requires
        0 <= i <= k <= cs.len(),
    ensures
        blocks_list(cs, i) == blocks_list(cs.subrange(i, k), 0) + blocks_list(cs, k),
{
    let a = cs.subrange(i, k);
    let b = cs.subrange(k, cs.len() as int);
    lemma_blocks_concat(a, b);
    assert(cs.subrange(i, cs.len() as int) =~= (a + b).subrange(0, (a + b).len() as int));
    lemma_blocks_same_tail(cs, i, a + b, 0);
    assert(cs.subrange(k, cs.len() as int) =~= b.subrange(0, b.len() as int));
    lemma_blocks_same_tail(cs, k, b, 0);
}

/// A node that is not executable has no executable block of its own; the
/// placeholder has none at all.
proof fn lemma_no_block(x: Doc)
    ensures
        !is_exec(x) ==> block_seq(x) == Seq::<crate::document::SpecBlock>::empty(),
        node_blocks(placeholder()) == Seq::<crate::document::SpecBlock>::empty(),
{
    lemma_placeholder_class();
    assert(node_blocks(placeholder()) =~= Seq::<crate::document::SpecBlock>::empty());
}

/// Adding output nodes keeps the executable blocks.
pub proof fn lemma_wo_blocks_tree(n: Doc)
    ensures
        blocks_tree(wo_tree(n).0) == blocks_tree(n),
        node_blocks(wo_tree(n).0) == node_blocks(n),
    decreases n, 0int,
{
    match n {
        Doc::Element { children, .. } => {
            lemma_wo_blocks_list(children, 0, 0);
        },
        _ => {},
    }
}

proof fn lemma_wo_blocks_range(cs: Seq<Doc>, j: int, k: int)
    requires
        0 <= j <= k <= cs.len(),
    ensures
        blocks_list(wo_range(cs, j, k).0, 0) == blocks_list(cs.subrange(j, k), 0),
    decreases cs, k - j,
{
    if j < k {
        let a = wo_tree(cs[j]);
        let b = wo_range(cs, j + 1, k);
        lemma_wo_blocks_tree(cs[j]);
        lemma_wo_blocks_range(cs, j + 1, k);
        lemma_blocks_concat(seq![a.0], b.0);
        lemma_blocks_one(a.0);
        assert(cs.subrange(j, k) =~= seq![cs[j]] + cs.subrange(j + 1, k));
        lemma_blocks_concat(seq![cs[j]], cs.subrange(j + 1, k));
        lemma_blocks_one(cs[j]);
    } else {
        assert(cs.subrange(j, k) =~= Seq::<Doc>::empty());
        assert(wo_range(cs, j, k).0 =~= Seq::<Doc>::empty());
    }
}

proof fn lemma_wo_blocks_list(cs: Seq<Doc>, i: int, ci: int)
    requires
        0 <= i,
    ensures
        blocks_list(wo_list(cs, i, ci).0, 0) == blocks_list(cs, i),
    decreases cs, cs.len() - i,
{
    let r = wo_list(cs, i, ci);
    if i < cs.len() {
        if is_exec(cs[i]) {
            let p = wo_tree(cs[i]);
            lemma_wo_blocks_tree(cs[i]);
            lemma_first_output(cs, i + 1);
            match first_output(cs, i + 1) {
                Some(k) => {
                    let mid = wo_range(cs, i + 1, k);
                    let rest = wo_list(cs, k + 1, ci + 1);
                    lemma_wo_blocks_list(cs, k + 1, ci + 1);
                    lemma_wo_blocks_range(cs, i + 1, k);
                    assert(r.0 == seq![p.0] + mid.0 + seq![cs[k]] + rest.0);
                    lemma_blocks_concat(seq![p.0] + mid.0 + seq![cs[k]], rest.0);
                    lemma_blocks_concat(seq![p.0] + mid.0, seq![cs[k]]);
                    lemma_blocks_concat(seq![p.0], mid.0);
                    lemma_blocks_one(p.0);
                    lemma_blocks_one(cs[k]);
                    lemma_blocks_split(cs, i + 1, k);
                    assert(blocks_list(cs, k) == node_blocks(cs[k]) + blocks_list(cs, k + 1));
                    assert(blocks_list(cs, i) == node_blocks(cs[i]) + blocks_list(cs, i + 1));
                    assert(blocks_list(r.0, 0) =~= blocks_list(cs, i));
                },
                None => {
                    let rest = wo_list(cs, i + 1, ci + 1);
                    lemma_wo_blocks_list(cs, i + 1, ci + 1);
                    lemma_no_block(cs[i]);
                    assert(r.0 == seq![p.0, placeholder()] + rest.0);
                    assert(seq![p.0, placeholder()] =~= seq![p.0] + seq![placeholder()]);
                    lemma_blocks_concat(seq![p.0, placeholder()], rest.0);
                    lemma_blocks_concat(seq![p.0], seq![placeholder()]);
                    lemma_blocks_one(p.0);
                    lemma_blocks_one(placeholder());
                    assert(blocks_list(cs, i) == node_blocks(cs[i]) + blocks_list(cs, i + 1));
                    assert(blocks_list(r.0, 0) =~= blocks_list(cs, i));
                },
            }
        } else if is_output(cs[i]) {
            let rest = wo_list(cs, i + 1, ci);
            lemma_wo_blocks_list(cs, i + 1, ci);
            assert(r.0 == seq![cs[i]] + rest.0);
            lemma_blocks_concat(seq![cs[i]], rest.0);
            lemma_blocks_one(cs[i]);
        } else {
            let p = wo_tree(cs[i]);
            let rest = wo_list(cs, i + 1, ci);
            lemma_wo_blocks_tree(cs[i]);
            lemma_wo_blocks_list(cs, i + 1, ci);
            assert(r.0 == seq![p.0] + rest.0);
            lemma_blocks_concat(seq![p.0], rest.0);
            lemma_blocks_one(p.0);
        }
    } else {
        assert(r.0 =~= Seq::<Doc>::empty());
    }
}

/// Writing outputs keeps the executable blocks.
pub proof fn lemma_fill_blocks_tree(n: Doc, outs: Seq<Seq<char>>, k: int)
    requires
        unambiguous(n),
    ensures
        blocks_tree(fill_tree(n, outs, k).0) == blocks_tree(n),
        node_blocks(fill_tree(n, outs, k).0) == node_blocks(n),
    decreases n, 0int,
{
    match n {
        Doc::Element { children, .. } => {
            lemma_fill_blocks_list(children, 0, outs, k);
        },
        _ => {
            if is_output(n) && 0 <= k < outs.len() {
                lemma_updated_class(n, outs[k]);
                lemma_no_block(n);
                lemma_no_block(updated(n, outs[k]));
            }
        },
    }
}

proof fn lemma_fill_blocks_list(cs: Seq<Doc>, i: int, outs: Seq<Seq<char>>, k: int)
    requires
        0 <= i,
        all_unambiguous(cs),
    ensures
        blocks_list(fill_list(cs, i, outs, k).0, 0) == blocks_list(cs, i),
    decreases cs, cs.len() - i,
{
    let r = fill_list(cs, i, outs, k);
    if i < cs.len() {
        let a = fill_tree(cs[i], outs, k);
        let b = fill_list(cs, i + 1, outs, a.1);
        assert(unambiguous(cs[i]));
        lemma_fill_blocks_tree(cs[i], outs, k);
        lemma_fill_blocks_list(cs, i + 1, outs, a.1);
        assert(r.0 == seq![a.0] + b.0);
        lemma_blocks_concat(seq![a.0], b.0);
        lemma_blocks_one(a.0);
    } else {
        assert(r.0 =~= Seq::<Doc>::empty());
    }
}

/// Removing output nodes keeps the executable blocks.
pub proof fn lemma_clean_blocks_tree(n: Doc)
    requires
        unambiguous(n),
    ensures
        blocks_tree(clean_tree(n)) == blocks_tree(n),
        node_blocks(clean_tree(n)) == node_blocks(n),
    decreases n, 0int,
{
    match n {
        Doc::Element { children, .. } => {
            lemma_clean_blocks_list(children, 0, 0);
        },
        _ => {},
    }
}

proof fn lemma_clean_blocks_list(cs: Seq<Doc>, i: int, mode: int)
    requires
        0 <= i,
        all_unambiguous(cs),
    ensures
        blocks_list(clean_list(cs, i, mode), 0) == blocks_list(cs, i),
    decreases cs, cs.len() - i,
{
    let r = clean_list(cs, i, mode);
    if i < cs.len() {
        let x = cs[i];
        assert(unambiguous(x));
        lemma_clean_blocks_tree(x);
        let next = if mode == 0 {
            if is_exec(x) { 1int } else { 0int }
        } else if is_output(x) {
            2int
        } else if is_exec(x) {
            1int
        } else {
            mode
        };
        lemma_clean_blocks_list(cs, i + 1, next);
        let rest = clean_list(cs, i + 1, next);
        if r == rest {
            assert(is_output(x) && !is_exec(x));
            assert(!(x is Element));
            lemma_no_block(x);
            assert(node_blocks(x) =~= Seq::<crate::document::SpecBlock>::empty());
            assert(blocks_list(cs, i) =~= blocks_list(cs, i + 1));
        } else {
            assert(r == seq![clean_tree(x)] + rest);
            lemma_blocks_concat(seq![clean_tree(x)], rest);
            lemma_blocks_one(clean_tree(x));
        }
    } else {
        assert(r =~= Seq::<Doc>::empty());
    }
}

/// Processing a document keeps its executable blocks: the same code, in the
/// same languages and the same order, hidden or not as before. So running the
/// processed document runs the same code again.
pub proof fn lemma_transform_keeps_blocks(t: Doc, outs: Seq<Seq<char>>)
    requires
        unambiguous(t),
    ensures
        blocks_tree(transformed(t, outs)) == blocks_tree(t),
{
    let w = wo_tree(t).0;
    lemma_wo_blocks_tree(t);
    lemma_wo_covered_tree(t);
    let p = clean_tree(w);
    lemma_clean_blocks_tree(w);
    lemma_clean_covered_tree(w);
    lemma_fill_blocks_tree(p, outs, 0);
}

// ---------------------------------------------------------------------------
// A document with nothing to run and no output is left as it is.

/// No node of the tree is an executable node or an output node.
pub open spec fn inert(n: Doc) -> bool
    decreases n,
{
    match n {
        Doc::Element { children, .. } => forall|i: int| 0 <= i < children.len() ==> inert(#[trigger] children[i]),
        _ => !is_exec(n) && !is_output(n),
    }
}

/// A tree without executable and output nodes is paired and unambiguous.
pub proof fn lemma_inert_paired(n: Doc)
    requires
        inert(n),
    ensures
        paired_tree(n),
        unambiguous(n),
    decreases n, 0int,
{
    match n {
        Doc::Element { children, .. } => {
            lemma_inert_paired_list(children, 0);
            assert forall|i: int| 0 <= i < children.len() implies unambiguous(#[trigger] children[i]) by {
                assert(inert(children[i]));
                lemma_inert_paired(children[i]);
            }
        },
        _ => {},
    }
}

proof fn lemma_inert_paired_list(cs: Seq<Doc>, i: int)
    requires
        0 <= i,
        forall|m: int| 0 <= m < cs.len() ==> inert(#[trigger] cs[m]),
    ensures
        paired_list(cs, i, false),
    decreases cs, cs.len() - i,
{
    if i < cs.len() {
        let x = cs[i];
        assert(inert(x));
        lemma_inert_paired(x);
        assert(!is_exec(x) && !is_output(x)) by {
            if x is Element {
            }
        }
        lemma_inert_paired_list(cs, i + 1);
    }
}

/// Filling a tree without output nodes changes nothing and uses no output.
proof fn lemma_inert_fill(n: Doc, outs: Seq<Seq<char>>, k: int)
    requires
        inert(n),
    ensures
        fill_tree(n, outs, k) == (n, k),
    decreases n, 0int,
{
    match n {
        Doc::Element { children, .. } => {
            lemma_inert_fill_list(children, 0, outs, k);
            assert(children.subrange(0, children.len() as int) =~= children);
        },
        _ => {},
    }
}

proof fn lemma_inert_fill_list(cs: Seq<Doc>, i: int, outs: Seq<Seq<char>>, k: int)
    requires
        0 <= i <= cs.len(),
        forall|m: int| 0 <= m < cs.len() ==> inert(#[trigger] cs[m]),
    ensures
        fill_list(cs, i, outs, k) == (cs.subrange(i, cs.len() as int), k),
    decreases cs, cs.len() - i,
{
    if i < cs.len() {
        assert(inert(cs[i]));
        lemma_inert_fill(cs[i], outs, k);
        lemma_inert_fill_list(cs, i + 1, outs, k);
        assert(cs.subrange(i, cs.len() as int) =~= seq![cs[i]] + cs.subrange(i + 1, cs.len() as int));
    } else {
        assert(cs.subrange(i, cs.len() as int) =~= Seq::<Doc>::empty());
    }
}

/// A document with no executable node and no output node (code blocks in
/// unknown languages, or without `exec`, included) comes back unchanged.
pub proof fn lemma_transform_inert(t: Doc, outs: Seq<Seq<char>>)
    requires
        inert(t),
    ensures
        transformed(t, outs) == t,
{
    lemma_inert_paired(t);
    lemma_wo_paired_tree(t);
    lemma_clean_paired_tree(t);
    lemma_inert_fill(t, outs, 0);
}

/// Writing an output keeps the output node's format: an `output` code block
/// stays a code block, an output comment stays a comment.
pub proof fn lemma_updated_keeps_format(n: Doc, out: Seq<char>)
    requires
        is_output(n),
    ensures
        spec_output_format(updated(n, out)) == spec_output_format(n),
{
    lemma_updated_class(n, out);
}

} // verus!
