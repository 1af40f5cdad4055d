//! Reading markdown text into a document tree.
//!
//! A syntax node of the `markdown` crate is opaque here: the tree read from
//! a text (`markdown_tree`) and what the library reads of a node
//! (`leaf_of`, `children_of`, `block_info_of`, `inline_info_of`,
//! `reference_info_of`, `definition_info_of`) are named,
//! and the document tree is stated over those names (`doc_of`).
use crate::document::{docs, lemma_children_view, Doc, InfoView, MdNode, NodeInfo};
use markdown::mdast::Node as SyntaxNode;
use vstd::prelude::*;

verus! {

/// How deep the reader looks into the syntax tree; deeper subtrees are kept
/// as read (`NodeInfo::Unread`) and written back unchanged.
pub const READ_DEPTH: usize = 100_000;

/// The syntax tree `markdown::to_mdast` reads from `input` with the default,
/// CommonMark, options.
pub uninterp spec fn markdown_tree(input: Seq<char>) -> markdown::mdast::Node;

/// The children of a syntax node, in order (none for a node that cannot have any).
pub uninterp spec fn children_of(n: markdown::mdast::Node) -> Seq<markdown::mdast::Node>;

/// A code or HTML syntax node as a document node; `None` for other nodes.
pub uninterp spec fn leaf_of(n: markdown::mdast::Node) -> Option<Doc>;

/// What the library reads of a block-level syntax node (`Other` for the rest).
pub uninterp spec fn block_info_of(n: markdown::mdast::Node) -> InfoView;

/// What the library reads of an inline syntax node (`Other` for the rest).
pub uninterp spec fn inline_info_of(n: markdown::mdast::Node) -> InfoView;

/// What the library reads of an image or a reference (`Other` for the rest).
pub uninterp spec fn reference_info_of(n: markdown::mdast::Node) -> InfoView;

/// What the library reads of a definition or math (`Other` for the rest).
pub uninterp spec fn definition_info_of(n: markdown::mdast::Node) -> InfoView;

/// The plain contents of an optional document node.
pub open spec fn opt_doc(o: Option<MdNode>) -> Option<Doc> {
    match o {
        Some(n) => Some(n@),
        None => None,
    }
}

/// What the library reads of a syntax node: its block-level kind, or else
/// its inline kind, or else its kind among images, references, definitions
/// and math.
pub open spec fn info_of(n: markdown::mdast::Node) -> InfoView {
    let b = block_info_of(n);
    if b is Other {
        let i = inline_info_of(n);
        if !(i is Other) {
            i
        } else if !(reference_info_of(n) is Other) {
            reference_info_of(n)
        } else {
            definition_info_of(n)
        }
    } else {
        b
    }
}

/// The document node for a syntax node read `depth` levels deep: a code or
/// HTML node as itself; at depth 0 any other node is kept unread; otherwise
/// the node with what the library reads of it and its children read one
/// level less deep.
pub open spec fn doc_of(n: markdown::mdast::Node, depth: nat) -> Doc
    decreases depth, 0int,
{
    match leaf_of(n) {
        Some(l) => l,
        None => if depth == 0 {
            Doc::Element { info: InfoView::Unread, source: n, children: Seq::empty() }
        } else {
            Doc::Element { info: info_of(n), source: n, children: doc_list(children_of(n), (depth - 1) as nat) }
        },
    }
}

/// The document nodes for a list of syntax nodes, read `depth` levels deep.
pub open spec fn doc_list(ks: Seq<markdown::mdast::Node>, depth: nat) -> Seq<Doc>
    decreases depth, 1int,
{
    Seq::new(ks.len(), |i: int| if 0 <= i < ks.len() { doc_of(ks[i], depth) } else { Doc::Html { value: Seq::empty() } })
}

/// The document tree of a markdown text, read `READ_DEPTH` levels deep.
pub open spec fn markdown_doc(input: Seq<char>) -> Doc {
    doc_of(markdown_tree(input), READ_DEPTH as nat)
}

/// The syntax tree of `input` (`markdown::to_mdast` with the default,
/// CommonMark, options). Its documentation states that it never fails on
/// markdown without MDX, which the default options do not turn on.
#[verifier::external_body]
fn mdast_parse(input: &str) -> (r: Option<markdown::mdast::Node>)
    ensures
        r == Some(markdown_tree(input@)),
{
    markdown::to_mdast(input, &markdown::ParseOptions::default()).ok()
}

/// The children of a syntax node (`markdown::mdast::Node::children`), copied;
/// none for a node that cannot have children.
#[verifier::external_body]
fn mdast_children(n: &markdown::mdast::Node) -> (r: Vec<markdown::mdast::Node>)
    ensures
        r@ == children_of(*n),
{
    n.children().cloned().unwrap_or_default()
}

/// A code or HTML syntax node as a document node.
#[verifier::external_body]
fn mdast_leaf(n: &markdown::mdast::Node) -> (r: Option<MdNode>)
    ensures
        opt_doc(r) == leaf_of(*n),
{
    match n {
        markdown::mdast::Node::Code(c) => Some(
            MdNode::Code { lang: c.lang.clone(), meta: c.meta.clone(), value: c.value.clone() },
        ),
        markdown::mdast::Node::Html(h) => Some(MdNode::Html { value: h.value.clone() }),
        _ => None,
    }
}

/// What the library reads of a block-level syntax node.
#[verifier::external_body]
pub(crate) fn mdast_block_info(n: &markdown::mdast::Node) -> (r: NodeInfo)
    ensures
        r@ == block_info_of(*n),
{
    match n {
        markdown::mdast::Node::Root(_) => NodeInfo::Root,
        markdown::mdast::Node::Paragraph(_) => NodeInfo::Paragraph,
        markdown::mdast::Node::Heading(h) => NodeInfo::Heading { depth: h.depth },
        markdown::mdast::Node::Table(_) => NodeInfo::Table,
        markdown::mdast::Node::TableRow(_) => NodeInfo::TableRow,
        markdown::mdast::Node::TableCell(_) => NodeInfo::TableCell,
        markdown::mdast::Node::Blockquote(_) => NodeInfo::Blockquote,
        markdown::mdast::Node::List(l) => NodeInfo::List { ordered: l.ordered },
        markdown::mdast::Node::ListItem(_) => NodeInfo::ListItem,
        _ => NodeInfo::Other,
    }
}

/// What the library reads of an inline syntax node.
#[verifier::external_body]
fn mdast_inline_info(n: &markdown::mdast::Node) -> (r: NodeInfo)
    ensures
        r@ == inline_info_of(*n),
{
    match n {
        markdown::mdast::Node::Text(t) => NodeInfo::Text { value: t.value.clone() },
        markdown::mdast::Node::InlineCode(c) => NodeInfo::InlineCode { value: c.value.clone() },
        markdown::mdast::Node::Break(_) => NodeInfo::Break,
        markdown::mdast::Node::Strong(_) => NodeInfo::Strong,
        markdown::mdast::Node::Emphasis(_) => NodeInfo::Emphasis,
        markdown::mdast::Node::Delete(_) => NodeInfo::Delete,
        markdown::mdast::Node::Link(l) => NodeInfo::Link { url: l.url.clone(), title: l.title.clone() },
        _ => NodeInfo::Other,
    }
}

/// What the library reads of an image or a reference: the texts the node holds.
#[verifier::external_body]
fn mdast_reference_info(n: &markdown::mdast::Node) -> (r: NodeInfo)
    ensures
        r@ == reference_info_of(*n),
{
    match n {
        SyntaxNode::Image(i) => NodeInfo::Image { alt: i.alt.clone(), url: i.url.clone(), title: i.title.clone() },
        SyntaxNode::LinkReference(l) => NodeInfo::LinkReference { identifier: l.identifier.clone(), label: l.label.clone() },
        SyntaxNode::ImageReference(i) => NodeInfo::ImageReference { alt: i.alt.clone(), identifier: i.identifier.clone(), label: i.label.clone() },
        _ => NodeInfo::Other,
    }
}

/// What the library reads of a definition or math: the texts the node holds.
#[verifier::external_body]
fn mdast_definition_info(n: &markdown::mdast::Node) -> (r: NodeInfo)
    ensures
        r@ == definition_info_of(*n),
{
    match n {
        SyntaxNode::Definition(d) => NodeInfo::Definition { url: d.url.clone(), title: d.title.clone(), identifier: d.identifier.clone(), label: d.label.clone() },
        SyntaxNode::Math(m) => NodeInfo::Math { meta: m.meta.clone(), value: m.value.clone() },
        SyntaxNode::InlineMath(m) => NodeInfo::InlineMath { value: m.value.clone() },
        _ => NodeInfo::Other,
    }
}

/// What the library reads of a syntax node (see `info_of`).
pub(crate) fn source_info(n: &markdown::mdast::Node) -> (r: NodeInfo)
    ensures
        r@ == info_of(*n),
{
    let mut info = mdast_block_info(n);
    if let NodeInfo::Other = info {
        info = mdast_inline_info(n);
        if let NodeInfo::Other = info {
            info = mdast_reference_info(n);
            if let NodeInfo::Other = info {
                info = mdast_definition_info(n);
            }
        }
    }
    info
}

/// The document node for a syntax node, read `depth` levels deep (see `doc_of`).
pub fn from_mdast(n: markdown::mdast::Node, depth: usize) -> (r: MdNode)
    ensures
        r@ == doc_of(n, depth as nat),
    decreases depth,
{
    match mdast_leaf(&n) {
        Some(leaf) => {
            return leaf;
        },
        None => {},
    }
    if depth == 0 {
        let r = MdNode::Element { info: NodeInfo::Unread, source: n, children: Vec::new() };
        assert(r@->children =~= Seq::<Doc>::empty());
        return r;
    }
    let info = source_info(&n);
    let kids = mdast_children(&n);
    let ghost ks = kids@;
    let mut children: Vec<MdNode> = Vec::new();
    let ghost mut idx: int = 0;
    for k in it: kids.into_iter()
        invariant
            depth > 0,
            it.seq() == ks,
            idx == it.index(),
            docs(children@) =~= Seq::new(idx as nat, |j: int| doc_of(ks[j], (depth - 1) as nat)),
    {
        assert(k == ks[idx]);
        let c = from_mdast(k, depth - 1);
        let ghost before = children@;
        children.push(c);
        proof {
            assert(children@ == before.push(c));
            assert(docs(children@) =~= docs(before).push(c@));
            assert(docs(children@) =~= Seq::new((idx + 1) as nat, |j: int| doc_of(ks[j], (depth - 1) as nat)));
            idx = idx + 1;
        }
    }
    let r = MdNode::Element { info, source: n, children };
    proof {
        assert(idx == ks.len());
        assert(docs(children@) =~= doc_list(ks, (depth - 1) as nat));
        assert(r@->children =~= docs(children@));
        assert(r@->info == info_of(n));
    }
    r
}

/// The document tree of a markdown text (see `markdown_doc`).
pub fn parse_markdown(input: &str) -> (r: MdNode)
    ensures
        r@ == markdown_doc(input@),
{
    let n = mdast_parse(input);
    match n {
        Some(n) => from_mdast(n, READ_DEPTH),
        None => MdNode::Html { value: String::new() },
    }
}

} // verus!
