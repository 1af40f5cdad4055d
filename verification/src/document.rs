//! The document tree the library works on.
//!
//! Code blocks and HTML nodes, which the literate-document logic reads and
//! rewrites, are held as plain values. Every other node keeps the syntax
//! node it was read from (`source`), so that it is written back exactly as
//! it was, together with what the logic reads of it (`info`) and its
//! children in this same form.
use crate::execute_code_blocks::default_language_config::is_executable_lang;
use crate::text::{contains, find_from, has_prefix, has_suffix, has_word, trim};
use vstd::prelude::*;

verus! {

#[verifier::external_type_specification]
#[verifier::external_body]
pub struct ExMdastNode(markdown::mdast::Node);

/// What the library reads of a node that is neither a code block nor HTML.
#[derive(Debug)]
pub enum NodeInfo {
    Root,
    Paragraph,
    Heading { depth: u8 },
    Text { value: String },
    InlineCode { value: String },
    Break,
    Strong,
    Emphasis,
    Delete,
    Link { url: String, title: Option<String> },
    /// An image: its alternative text, its address and its title.
    Image { alt: String, url: String, title: Option<String> },
    /// A link by reference: the identifier and label of its definition.
    LinkReference { identifier: String, label: Option<String> },
    /// An image by reference: its alternative text, the identifier and label of its definition.
    ImageReference { alt: String, identifier: String, label: Option<String> },
    /// A definition of a reference: its address, title, identifier and label.
    Definition { url: String, title: Option<String>, identifier: String, label: Option<String> },
    /// A math block: the rest of its opening line and its text.
    Math { meta: Option<String>, value: String },
    /// Inline math: its text.
    InlineMath { value: String },
    /// A block quote.
    Blockquote,
    Table,
    TableRow,
    TableCell,
    /// A list, ordered or not.
    List { ordered: bool },
    /// An item of a list.
    ListItem,
    Other,
    /// A subtree deeper than the reading limit: not looked into, written back as it was read.
    Unread,
}

/// A node of a markdown document.
#[derive(Debug)]
pub enum MdNode {
    /// A fenced or indented code block: its language, the rest of its info string, its text.
    Code { lang: Option<String>, meta: Option<String>, value: String },
    /// Raw HTML, comments included.
    Html { value: String },
    /// Any other node, with the syntax node it was read from and its children.
    Element { info: NodeInfo, source: markdown::mdast::Node, children: Vec<MdNode> },
}

/// `<!--`
pub open spec fn comment_open() -> Seq<char> {
    seq!['<', '!', '-', '-']
}

/// `-->`
pub open spec fn comment_close() -> Seq<char> {
    seq!['-', '-', '>']
}

/// ` exec: `, which separates the language from the code in a hidden exec comment.
pub open spec fn exec_separator() -> Seq<char> {
    seq![' ', 'e', 'x', 'e', 'c', ':', ' ']
}

/// `exec`, the info-string word that marks a code block for execution.
pub open spec fn exec_word() -> Seq<char> {
    seq!['e', 'x', 'e', 'c']
}

/// `output`, the language of an output code block.
pub open spec fn output_word() -> Seq<char> {
    seq!['o', 'u', 't', 'p', 'u', 't']
}

/// `<!-- output:`, which marks an HTML comment as an output comment.
pub open spec fn output_marker() -> Seq<char> {
    seq!['<', '!', '-', '-', ' ', 'o', 'u', 't', 'p', 'u', 't', ':']
}

/// A comment that cannot be cut into `<!--`, inner text and `-->` because the
/// two markers overlap (`<!-->`, `<!--->`): reading it as a hidden exec
/// comment slices out of bounds.
pub open spec fn comment_safe(c: Seq<char>) -> bool {
    let t = trim(c);
    !(has_prefix(t, comment_open()) && has_suffix(t, comment_close()) && t.len() < 7)
}

/// The language and code of a hidden `<!-- lang exec: code -->` comment.
pub open spec fn parse_hidden_comment(c: Seq<char>) -> Option<(Seq<char>, Seq<char>)> {
    let t = trim(c);
    if !has_prefix(t, comment_open()) || !has_suffix(t, comment_close()) || t.len() < 7 {
        None
    } else {
        let inner = trim(t.subrange(4, t.len() - 3));
        match find_from(inner, exec_separator(), 0) {
            None => None,
            Some(k) => {
                let lang = trim(inner.subrange(0, k));
                let code = trim(inner.subrange(k + 7, inner.len() as int));
                if lang.len() == 0 || code.len() == 0 || !is_executable_lang(lang) {
                    None
                } else {
                    Some((lang, code))
                }
            },
        }
    }
}

/// The plain contents of an executable block.
pub struct SpecBlock {
    pub lang: Seq<char>,
    pub code: Seq<char>,
    pub hidden: bool,
}

/// What the library reads of an element node, as plain values.
pub enum InfoView {
    Root,
    Paragraph,
    Heading { depth: u8 },
    Text { value: Seq<char> },
    InlineCode { value: Seq<char> },
    Break,
    Strong,
    Emphasis,
    Delete,
    Link { url: Seq<char>, title: Option<Seq<char>> },
    Image { alt: Seq<char>, url: Seq<char>, title: Option<Seq<char>> },
    LinkReference { identifier: Seq<char>, label: Option<Seq<char>> },
    ImageReference { alt: Seq<char>, identifier: Seq<char>, label: Option<Seq<char>> },
    Definition { url: Seq<char>, title: Option<Seq<char>>, identifier: Seq<char>, label: Option<Seq<char>> },
    Math { meta: Option<Seq<char>>, value: Seq<char> },
    InlineMath { value: Seq<char> },
    Blockquote,
    Table,
    TableRow,
    TableCell,
    List { ordered: bool },
    ListItem,
    Other,
    Unread,
}

/// The mathematical model of a document tree.
pub enum Doc {
    Code { lang: Option<Seq<char>>, meta: Option<Seq<char>>, value: Seq<char> },
    Html { value: Seq<char> },
    Element { info: InfoView, source: markdown::mdast::Node, children: Seq<Doc> },
}

/// The plain contents of an optional string.
pub open spec fn opt_view(o: Option<String>) -> Option<Seq<char>> {
    match o {
        Some(s) => Some(s@),
        None => None,
    }
}

impl View for NodeInfo {
    type V = InfoView;

    open spec fn view(&self) -> InfoView {
        match self {
            NodeInfo::Root => InfoView::Root,
            NodeInfo::Paragraph => InfoView::Paragraph,
            NodeInfo::Heading { depth } => InfoView::Heading { depth: *depth },
            NodeInfo::Text { value } => InfoView::Text { value: value@ },
            NodeInfo::InlineCode { value } => InfoView::InlineCode { value: value@ },
            NodeInfo::Break => InfoView::Break,
            NodeInfo::Strong => InfoView::Strong,
            NodeInfo::Emphasis => InfoView::Emphasis,
            NodeInfo::Delete => InfoView::Delete,
            NodeInfo::Link { url, title } => InfoView::Link { url: url@, title: opt_view(*title) },
            NodeInfo::Image { alt, url, title } => InfoView::Image { alt: alt@, url: url@, title: opt_view(*title) },
            NodeInfo::LinkReference { identifier, label } => InfoView::LinkReference { identifier: identifier@, label: opt_view(*label) },
            NodeInfo::ImageReference { alt, identifier, label } => InfoView::ImageReference {
                alt: alt@,
                identifier: identifier@,
                label: opt_view(*label),
            },
            NodeInfo::Definition { url, title, identifier, label } => InfoView::Definition {
                url: url@,
                title: opt_view(*title),
                identifier: identifier@,
                label: opt_view(*label),
            },
            NodeInfo::Math { meta, value } => InfoView::Math { meta: opt_view(*meta), value: value@ },
            NodeInfo::InlineMath { value } => InfoView::InlineMath { value: value@ },
            NodeInfo::Blockquote => InfoView::Blockquote,
            NodeInfo::Table => InfoView::Table,
            NodeInfo::TableRow => InfoView::TableRow,
            NodeInfo::TableCell => InfoView::TableCell,
            NodeInfo::List { ordered } => InfoView::List { ordered: *ordered },
            NodeInfo::ListItem => InfoView::ListItem,
            NodeInfo::Other => InfoView::Other,
            NodeInfo::Unread => InfoView::Unread,
        }
    }
}

impl MdNode {
    /// The model of this node and its subtree.
    pub open spec fn doc(self) -> Doc
        decreases self,
    {
        match self {
            MdNode::Code { lang, meta, value } => Doc::Code {
                lang: opt_view(lang),
                meta: opt_view(meta),
                value: value@,
            },
            MdNode::Html { value } => Doc::Html { value: value@ },
            MdNode::Element { info, source, children } => Doc::Element {
                info: info@,
                source,
                children: Seq::new(
                    children@.len(),
                    |i: int|
                        if 0 <= i < children@.len() {
                            children@[i].doc()
                        } else {
                            Doc::Html { value: Seq::empty() }
                        },
                ),
            },
        }
    }
}

impl View for MdNode {
    type V = Doc;

    open spec fn view(&self) -> Doc {
        self.doc()
    }
}

/// The models of a sequence of nodes.
pub open spec fn docs(s: Seq<MdNode>) -> Seq<Doc> {
    s.map_values(|n: MdNode| n@)
}

/// A copy of a syntax node (`Clone::clone` of `markdown::mdast::Node`, which
/// is derived and copies the whole subtree).
#[verifier::external_body]
pub(crate) fn clone_source(n: &markdown::mdast::Node) -> (r: markdown::mdast::Node)
    ensures
        r == *n,
{
    n.clone()
}

fn clone_opt(o: &Option<String>) -> (r: Option<String>)
    ensures
        opt_view(r) == opt_view(*o),
{
    match o {
        Some(s) => Some(s.clone()),
        None => None,
    }
}

impl NodeInfo {
    /// A copy of this information.
    pub fn duplicate(&self) -> (r: NodeInfo)
        ensures
            r@ == self@,
    {
        match self {
            NodeInfo::Root => NodeInfo::Root,
            NodeInfo::Paragraph => NodeInfo::Paragraph,
            NodeInfo::Heading { depth } => NodeInfo::Heading { depth: *depth },
            NodeInfo::Text { value } => NodeInfo::Text { value: value.clone() },
            NodeInfo::InlineCode { value } => NodeInfo::InlineCode { value: value.clone() },
            NodeInfo::Break => NodeInfo::Break,
            NodeInfo::Strong => NodeInfo::Strong,
            NodeInfo::Emphasis => NodeInfo::Emphasis,
            NodeInfo::Delete => NodeInfo::Delete,
            NodeInfo::Link { url, title } => NodeInfo::Link { url: url.clone(), title: clone_opt(title) },
            NodeInfo::Image { alt, url, title } => NodeInfo::Image { alt: alt.clone(), url: url.clone(), title: clone_opt(title) },
            NodeInfo::LinkReference { identifier, label } => NodeInfo::LinkReference { identifier: identifier.clone(), label: clone_opt(label) },
            NodeInfo::ImageReference { alt, identifier, label } => NodeInfo::ImageReference {
                alt: alt.clone(),
                identifier: identifier.clone(),
                label: clone_opt(label),
            },
            NodeInfo::Definition { url, title, identifier, label } => NodeInfo::Definition {
                url: url.clone(),
                title: clone_opt(title),
                identifier: identifier.clone(),
                label: clone_opt(label),
            },
            NodeInfo::Math { meta, value } => NodeInfo::Math { meta: clone_opt(meta), value: value.clone() },
            NodeInfo::InlineMath { value } => NodeInfo::InlineMath { value: value.clone() },
            NodeInfo::Blockquote => NodeInfo::Blockquote,
            NodeInfo::Table => NodeInfo::Table,
            NodeInfo::TableRow => NodeInfo::TableRow,
            NodeInfo::TableCell => NodeInfo::TableCell,
            NodeInfo::List { ordered } => NodeInfo::List { ordered: *ordered },
            NodeInfo::ListItem => NodeInfo::ListItem,
            NodeInfo::Other => NodeInfo::Other,
            NodeInfo::Unread => NodeInfo::Unread,
        }
    }
}

impl MdNode {
    /// A copy of this node and its whole subtree.
    pub fn duplicate(&self) -> (r: MdNode)
        ensures
            r@ == self@,
        decreases self,
    {
        match self {
            MdNode::Code { lang, meta, value } => MdNode::Code {
                lang: clone_opt(lang),
                meta: clone_opt(meta),
                value: value.clone(),
            },
            MdNode::Html { value } => MdNode::Html { value: value.clone() },
            MdNode::Element { info, source, children } => {
                let mut cs: Vec<MdNode> = Vec::new();
                let mut i: usize = 0;
                #[verifier::loop_isolation(false)]
                while i < children.len()
                    invariant
                        i <= children.len(),
                        docs(cs@) == docs(children@).take(i as int),
                    decreases children.len() - i,
                {
                    assert(decreases_to!(*self => children@[i as int]));
                    let c = children[i].duplicate();
                    let ghost before = cs@;
                    cs.push(c);
                    assert(cs@ == before.push(c));
                    assert(docs(cs@) =~= docs(children@).take(i + 1));
                    i += 1;
                }
                let r = MdNode::Element { info: info.duplicate(), source: clone_source(source), children: cs };
                proof {
                    lemma_children_view(r);
                    lemma_children_view(*self);
                    assert(docs(children@).take(children@.len() as int) =~= docs(children@));
                }
                r
            },
        }
    }
}

/// The children of an element node, by model.
pub proof fn lemma_children_view(n: MdNode)
    requires
        n is Element,
    ensures
        n@ is Element,
        n@->children == docs(n->children@),
{
    assert(n@->children =~= docs(n->children@));
}

/// The children of a model node (none for code and HTML).
pub open spec fn kids(d: Doc) -> Seq<Doc> {
    match d {
        Doc::Element { children, .. } => children,
        _ => Seq::empty(),
    }
}

/// A code block with an executable language whose info string holds the word `exec`.
pub open spec fn is_exec_code(n: Doc) -> bool {
    match n {
        Doc::Code { lang: Some(l), meta: Some(m), .. } => is_executable_lang(l) && has_word(
            m,
            exec_word(),
        ),
        _ => false,
    }
}

/// A hidden `<!-- lang exec: code -->` comment.
pub open spec fn is_hidden_exec(n: Doc) -> bool {
    match n {
        Doc::Html { value } => parse_hidden_comment(value) is Some,
        _ => false,
    }
}

/// A node whose code the document runs.
pub open spec fn is_exec(n: Doc) -> bool {
    is_exec_code(n) || is_hidden_exec(n)
}

/// A node that holds the output of a run: an `output` code block or an
/// HTML node holding `<!-- output:`.
pub open spec fn is_output(n: Doc) -> bool {
    match n {
        Doc::Code { lang: Some(l), .. } => l == output_word(),
        Doc::Html { value } => contains(value, output_marker()),
        _ => false,
    }
}

/// The executable block a node stands for, if any.
pub open spec fn spec_block_of(n: Doc) -> Option<SpecBlock> {
    match n {
        Doc::Code { lang: Some(l), meta, value } => if is_exec_code(n) {
            Some(SpecBlock { lang: l, code: value, hidden: false })
        } else {
            None
        },
        Doc::Html { value } => match parse_hidden_comment(value) {
            Some((l, c)) => Some(SpecBlock { lang: l, code: c, hidden: true }),
            None => None,
        },
        _ => None,
    }
}

/// An HTML node can be read as a hidden exec comment without slicing out of bounds.
pub open spec fn head_safe(n: Doc) -> bool {
    match n {
        Doc::Html { value } => comment_safe(value),
        _ => true,
    }
}

/// Every HTML node of the tree can be read as a hidden exec comment.
pub open spec fn safe(n: Doc) -> bool
    decreases n,
{
    match n {
        Doc::Element { children, .. } => forall|i: int|
            0 <= i < children.len() ==> safe(#[trigger] children[i]),
        _ => head_safe(n),
    }
}

/// Every node of `s` is safe.
pub open spec fn all_safe(s: Seq<Doc>) -> bool {
    forall|i: int| 0 <= i < s.len() ==> safe(#[trigger] s[i])
}

} // verus!
