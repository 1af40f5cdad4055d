//! Writing a document tree back as markdown text.
//!
//! Syntax nodes of the `markdown` crate are opaque here: the nodes built for
//! a document (`code_node`, `html_node`, `with_children`) and the text that
//! `mdast_util_to_markdown` writes for a syntax tree (`markdown_text`) are
//! named, and what the library does around them is stated over those names.
use crate::document::{docs, lemma_children_view, Doc, InfoView, MdNode, NodeInfo, opt_view};
use crate::parse_markdown::{block_info_of, info_of, mdast_block_info, source_info};
use crate::escaping::{alarm, calm, flat, flat_chars, flat_list, info_text, is_ascii, is_calm, is_flow, lang_alarm, lang_calm, opt_text};
use crate::text::{chars_of, concat, trim_end_char, trim_trailing_newlines};
use vstd::prelude::*;

verus! {

/// The code syntax node with this language, info string and text, and no
/// position (`markdown::mdast::Code`).
pub uninterp spec fn code_node(lang: Option<Seq<char>>, meta: Option<Seq<char>>, value: Seq<char>) -> markdown::mdast::Node;

/// The HTML syntax node with this text, and no position (`markdown::mdast::Html`).
pub uninterp spec fn html_node(value: Seq<char>) -> markdown::mdast::Node;

/// The syntax node `n` with `children` in place of its children (a node that
/// cannot have children is `n` itself).
pub uninterp spec fn with_children(n: markdown::mdast::Node, children: Seq<markdown::mdast::Node>) -> markdown::mdast::Node;

/// The markdown text `mdast_util_to_markdown::to_markdown` writes for a
/// syntax tree, or `None` where it reports an error.
pub uninterp spec fn markdown_text(n: markdown::mdast::Node) -> Option<Seq<char>>;

/// A code syntax node with no position (`markdown::mdast::Code`).
#[verifier::external_body]
fn mdast_code(lang: Option<String>, meta: Option<String>, value: String) -> (r: markdown::mdast::Node)
    ensures
        r == code_node(opt_view(lang), opt_view(meta), value@),
{
    markdown::mdast::Node::Code(markdown::mdast::Code { value, position: None, lang, meta })
}

/// An HTML syntax node with no position (`markdown::mdast::Html`).
#[verifier::external_body]
fn mdast_html(value: String) -> (r: markdown::mdast::Node)
    ensures
        r == html_node(value@),
{
    markdown::mdast::Node::Html(markdown::mdast::Html { value, position: None })
}

/// The syntax node `n` with `children` as its children
/// (`markdown::mdast::Node::children_mut`); a node that cannot have children
/// is returned as it is.
#[verifier::external_body]
fn mdast_with_children(n: markdown::mdast::Node, children: Vec<markdown::mdast::Node>) -> (r: markdown::mdast::Node)
    ensures
        r == with_children(n, children@),
{
    let mut n = n;
    if let Some(c) = n.children_mut() {
        *c = children;
    }
    n
}

/// The syntax node of a document node is an item of a list.
pub open spec fn starts_item(d: Doc) -> bool {
    d matches Doc::Element { source, .. } && block_info_of(source) == InfoView::ListItem
}

/// A document tree the markdown writer can be given: no part of it was left
/// unread; every unordered list with children starts with a list item (the
/// writer stops with a panic on an unordered list whose first child is a node
/// without children, such as a code block); and every text the writer
/// escapes in one run is calm (see `calm`; otherwise its escaping can cut a
/// character in two and panic): the texts of each node that is not a
/// document, list, list item or block quote, together, and the language and
/// the rest of the info string of each fenced code block.
pub open spec fn writable(d: Doc) -> bool
    decreases d,
{
    match d {
        Doc::Element { info, source, children } => {
            &&& !(info is Unread)
            &&& (block_info_of(source) == (InfoView::List { ordered: false }) && children.len() > 0 ==> starts_item(children[0]))
            &&& (!is_flow(info_of(source)) ==> calm(flat(d)))
            &&& forall|i: int| 0 <= i < children.len() ==> writable(#[trigger] children[i])
        },
        Doc::Code { lang, meta, .. } => lang_calm(opt_text(lang)) && calm(opt_text(lang) + opt_text(meta)),
        _ => true,
    }
}

/// A document built from nodes the writer takes: every element was read,
/// whatever its kind (document, paragraph, heading, text, inline code, link,
/// image, reference, definition, emphasis, strong or deleted text, line
/// break, block quote, list, list item, table, math, ...), each unordered
/// list with children starts with a list item, and every code block's
/// language, if any, is ASCII; HTML nodes of any kind.
pub open spec fn ordinary(d: Doc) -> bool
    decreases d,
{
    match d {
        Doc::Element { info, source, children } => {
            &&& !(info is Unread)
            &&& (info_of(source) == (InfoView::List { ordered: false }) && children.len() > 0 ==> starts_item(children[0]))
            &&& forall|i: int| 0 <= i < children.len() ==> ordinary(#[trigger] children[i])
        },
        Doc::Code { lang, .. } => forall|k: int| 0 <= k < opt_text(lang).len() ==> is_ascii(#[trigger] opt_text(lang)[k]),
        Doc::Html { .. } => true,
    }
}

proof fn lemma_calm_parts(a: Seq<char>, b: Seq<char>)
    requires
        calm(a + b),
    ensures
        calm(a),
        calm(b),
{
    assert forall|i: int, j: int| 0 <= i < j < a.len() && !is_ascii(#[trigger] a[i]) implies !alarm(#[trigger] a[j]) by {
        assert((a + b)[i] == a[i] && (a + b)[j] == a[j]);
    }
    assert forall|i: int, j: int| 0 <= i < j < b.len() && !is_ascii(#[trigger] b[i]) implies !alarm(#[trigger] b[j]) by {
        assert((a + b)[a.len() + i] == b[i] && (a + b)[a.len() + j] == b[j]);
    }
}

proof fn lemma_calm_children(cs: Seq<Doc>, i: int)
    requires
        0 <= i,
        calm(flat_list(cs, i)),
    ensures
        forall|k: int| i <= k < cs.len() ==> calm(#[trigger] flat(cs[k])),
    decreases cs.len() - i,
{
    if i < cs.len() {
        lemma_calm_parts(flat(cs[i]), flat_list(cs, i + 1));
        lemma_calm_children(cs, i + 1);
    }
}

/// Writability depends only on what the writer cannot take: every document
/// built from ordinary nodes (see `ordinary`) whose texts are calm together
/// (see `calm`) can be given to the markdown writer.
pub proof fn lemma_ordinary_writable(d: Doc)
    requires
        ordinary(d),
        calm(flat(d)),
    ensures
        writable(d),
    decreases d,
{
    match d {
        Doc::Element { info, source, children } => {
            let t = info_text(info_of(source));
            lemma_calm_parts(t + flat_list(children, 0), t);
            lemma_calm_parts(t, flat_list(children, 0));
            lemma_calm_children(children, 0);
            assert forall|i: int| 0 <= i < children.len() implies writable(#[trigger] children[i]) by {
                assert(ordinary(children[i]));
                assert(calm(flat(children[i])));
                lemma_ordinary_writable(children[i]);
            }
            if block_info_of(source) == (InfoView::List { ordered: false }) {
                assert(info_of(source) == (InfoView::List { ordered: false }));
            }
        },
        Doc::Code { lang, meta, value } => {
            let l = opt_text(lang);
            lemma_calm_parts(l + opt_text(meta), value);
            assert forall|i: int, j: int| 0 <= i < j < l.len() && !is_ascii(#[trigger] l[i]) implies !lang_alarm(#[trigger] l[j]) by {}
        },
        _ => {},
    }
}

/// Whether the markdown writer can be given the document tree (see `writable`).
pub fn is_writable(n: &MdNode) -> (r: bool)
    ensures
        r == writable(n@),
    decreases n,
{
    match n {
        MdNode::Element { info, source, children } => {
            proof {
                lemma_children_view(*n);
            }
            if let NodeInfo::Unread = info {
                return false;
            }
            let unordered = match mdast_block_info(source) {
                NodeInfo::List { ordered } => !ordered,
                _ => false,
            };
            let kind = source_info(source);
            let flow = match kind {
                NodeInfo::Root | NodeInfo::List { .. } | NodeInfo::ListItem | NodeInfo::Blockquote => true,
                _ => false,
            };
            if !flow && !is_calm(&flat_chars(n), false) {
                return false;
            }
            if unordered && children.len() > 0 {
                assert(n@->children[0] == children@[0]@);
                let first_item = match &children[0] {
                    MdNode::Element { source: s0, .. } => match mdast_block_info(s0) {
                        NodeInfo::ListItem => true,
                        _ => false,
                    },
                    _ => false,
                };
                if !first_item {
                    return false;
                }
            }
            let mut i: usize = 0;
            #[verifier::loop_isolation(false)]
            while i < children.len()
                invariant
                    i <= children.len(),
                    forall|j: int| 0 <= j < i ==> writable(#[trigger] docs(children@)[j]),
                decreases children.len() - i,
            {
                assert(decreases_to!(*n => children@[i as int]));
                if !is_writable(&children[i]) {
                    assert(n@->children[i as int] == children@[i as int]@);
                    return false;
                }
                i += 1;
            }
            proof {
                assert forall|j: int| 0 <= j < n@->children.len() implies writable(#[trigger] n@->children[j]) by {
                    assert(n@->children[j] == docs(children@)[j]);
                }
            }
            true
        },
        MdNode::Code { lang, meta, .. } => {
            let l = match lang {
                Some(x) => chars_of(x.as_str()),
                None => Vec::new(),
            };
            let m = match meta {
                Some(x) => concat(x.as_str(), ""),
                None => String::new(),
            };
            let lm = match lang {
                Some(x) => concat(x.as_str(), m.as_str()),
                None => m,
            };
            proof {
                reveal_strlit("");
            }
            is_calm(&l, true) && is_calm(&chars_of(lm.as_str()), false)
        },
        MdNode::Html { .. } => true,
    }
}

/// The markdown text of a syntax tree (`mdast_util_to_markdown::to_markdown`),
/// or `None` where it reports an error (for node kinds it does not write, such
/// as tables). It is given only the tree of a writable document (see
/// `writable`): on such a tree neither its list handling (which expects the
/// first child of an unordered list to have children) nor its escaping
/// (which reads the character at a byte offset as if the offset counted
/// characters, see `calm`) panics.
#[verifier::external_body]
fn mdast_to_markdown(n: &markdown::mdast::Node) -> (r: Option<String>)
    requires
        exists|d: Doc| writable(d) && mdast_of(d) == *n,
    ensures
        opt_view(r) == markdown_text(*n),
{
    mdast_util_to_markdown::to_markdown(n).ok()
}

/// The syntax tree for a document tree: code and HTML nodes are built
/// afresh, a subtree that was not read comes back as it was read, and any
/// other node is its syntax node with the trees of its children in place of
/// its children.
pub open spec fn mdast_of(d: Doc) -> markdown::mdast::Node
    decreases d, 0int,
{
    match d {
        Doc::Code { lang, meta, value } => code_node(lang, meta, value),
        Doc::Html { value } => html_node(value),
        Doc::Element { info, source, children } => if info is Unread {
            source
        } else {
            with_children(source, mdast_list(children, source))
        },
    }
}

/// The syntax trees of a list of document nodes (see `mdast_of`).
pub open spec fn mdast_list(cs: Seq<Doc>, source: markdown::mdast::Node) -> Seq<markdown::mdast::Node>
    decreases cs, 1int,
{
    Seq::new(cs.len(), |i: int| if 0 <= i < cs.len() { mdast_of(cs[i]) } else { source })
}

/// Writing keeps every element's children: an element that was read, of
/// whatever kind, is written as its syntax node with the written forms of
/// all its children, in order, as its children; code and HTML nodes are
/// built from their own contents, and only a part left unread comes back
/// as it was read.
pub proof fn lemma_written_children(d: Doc)
    ensures
        d matches Doc::Element { info, source, children } ==> (!(info is Unread) ==> mdast_of(d) == with_children(
            source,
            Seq::new(children.len(), |i: int| mdast_of(children[i])),
        )),
        d matches Doc::Element { info, source, .. } ==> (info is Unread ==> mdast_of(d) == source),
        d matches Doc::Code { lang, meta, value } ==> mdast_of(d) == code_node(lang, meta, value),
        d matches Doc::Html { value } ==> mdast_of(d) == html_node(value),
{
    match d {
        Doc::Element { info, source, children } => {
            assert(mdast_list(children, source) =~= Seq::new(children.len(), |i: int| mdast_of(children[i])));
        },
        _ => {},
    }
}

/// The syntax tree for a document tree (see `mdast_of`).
pub fn to_mdast(n: MdNode) -> (r: markdown::mdast::Node)
    ensures
        r == mdast_of(n@),
    decreases n,
{
    let ghost whole = n;
    match n {
        MdNode::Code { lang, meta, value } => {
            assert(whole@ == Doc::Code { lang: opt_view(lang), meta: opt_view(meta), value: value@ });
            mdast_code(lang, meta, value)
        },
        MdNode::Html { value } => {
            assert(whole@ == Doc::Html { value: value@ });
            mdast_html(value)
        },
        MdNode::Element { info, source, children } => {
            assert(whole@->info == info@ && whole@->source == source);
            if let NodeInfo::Unread = info {
                assert(whole@->info is Unread);
                return source;
            }
            assert(!(whole@->info is Unread));
            let mut kids: Vec<markdown::mdast::Node> = Vec::new();
            let ghost cs = children@;
            let ghost mut idx: int = 0;
            #[verifier::loop_isolation(false)]
            for c in it: children.into_iter()
                invariant
                    it.seq() == cs,
                    idx == it.index(),
                    decreases_to!(whole => cs),
                    kids@ =~= Seq::new(idx as nat, |j: int| mdast_of(cs[j]@)),
            {
                assert(c == cs[idx]);
                assert(decreases_to!(whole => c));
                let k = to_mdast(c);
                let ghost before = kids@;
                kids.push(k);
                proof {
                    assert(kids@ =~= Seq::new((idx + 1) as nat, |j: int| mdast_of(cs[j]@)));
                    idx = idx + 1;
                }
            }
            proof {
                let d = whole@;
                assert(d->children.len() == cs.len());
                assert forall|j: int| 0 <= j < cs.len() implies d->children[j] == cs[j]@ by {}
                assert(kids@ =~= mdast_list(d->children, source));
            }
            mdast_with_children(source, kids)
        },
    }
}

/// The rendered text, with its trailing newlines removed unless the input
/// text ended with a newline.
pub fn finish_rendering(rendered: String, keep_trailing_newline: bool) -> (r: String)
    ensures
        r@ == if keep_trailing_newline { rendered@ } else { trim_end_char(rendered@, '\n') },
{
    if keep_trailing_newline {
        rendered
    } else {
        trim_trailing_newlines(rendered.as_str())
    }
}

/// Whether a text ends with a newline.
pub fn ends_with_newline(input: &str) -> (r: bool)
    ensures
        r == (input@.len() > 0 && input@.last() == '\n'),
{
    let v = chars_of(input);
    v.len() > 0 && v[v.len() - 1] == '\n'
}

/// The text written for the document `d` read from `input`: the markdown
/// text of its syntax tree, its trailing newlines removed unless `input`
/// ends with a newline; `None` where the document is not writable (see
/// `writable`) or the writer reports an error.
pub open spec fn rendered(input: Seq<char>, d: Doc) -> Option<Seq<char>> {
    if !writable(d) {
        None
    } else {
        match markdown_text(mdast_of(d)) {
            Some(t) => Some(if input.len() > 0 && input.last() == '\n' { t } else { trim_end_char(t, '\n') }),
            None => None,
        }
    }
}

/// The markdown text of `ast`, which was read from `input` (see `rendered`):
/// it ends with a newline only if `input` does.
pub fn render_markdown(input: &str, ast: MdNode) -> (r: Option<String>)
    ensures
        opt_view(r) == rendered(input@, ast@),
        r matches Some(s) ==> !(input@.len() > 0 && input@.last() == '\n') ==> s@ == trim_end_char(s@, '\n'),
{
    if !is_writable(&ast) {
        return None;
    }
    let keep = ends_with_newline(input);
    let ghost d = ast@;
    let tree = to_mdast(ast);
    assert(writable(d) && mdast_of(d) == tree);
    match mdast_to_markdown(&tree) {
        Some(text) => {
            let r = finish_rendering(text, keep);
            proof {
                if !keep {
                    lemma_trim_end_char_idempotent(text@, '\n');
                }
            }
            Some(r)
        },
        None => None,
    }
}

/// Removing the trailing `c`s twice is removing them once.
pub proof fn lemma_trim_end_char_idempotent(s: Seq<char>, c: char)
    ensures
        trim_end_char(trim_end_char(s, c), c) == trim_end_char(s, c),
    decreases s.len(),
{
    if s.len() > 0 && s.last() == c {
        lemma_trim_end_char_idempotent(s.drop_last(), c);
    }
}

} // verus!
