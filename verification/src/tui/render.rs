//! The nodes the interactive view shows: styled text, tables, code blocks,
//! executable code and output boxes, read off the document tree.
use crate::document::{docs, is_exec, is_output, kids, lemma_children_view, safe, spec_block_of, Doc, InfoView, MdNode, NodeInfo};
use crate::execute_code_blocks::language_config::{is_executable_node, ExecutableCodeBlock};
use crate::extract_code_blocks::{block_seq, blocks_list, blocks_tree};
use crate::output_node::{extract_output_content, is_output_node, spec_output_content, OutputEntry};
use crate::text::{concat, to_owned_string};
use crate::tui::output_box::{OutputState, StateView};
use vstd::prelude::*;

verus! {

/// A colour of the terminal palette.
#[derive(Debug, Clone, Copy, PartialEq, Eq, Structural)]
pub enum Color {
    Green,
    Blue,
    Red,
    Yellow,
    Cyan,
    White,
    DarkGray,
    LightMagenta,
}

/// How a piece of text is drawn: its foreground colour, if any, and its modifiers.
#[derive(Debug, Clone, Copy, PartialEq, Eq, Structural)]
pub struct Style {
    pub fg: Option<Color>,
    pub bold: bool,
    pub italic: bool,
    pub underlined: bool,
    pub crossed_out: bool,
}

/// The plain style: no colour, no modifier.
pub open spec fn plain_style() -> Style {
    Style { fg: None, bold: false, italic: false, underlined: false, crossed_out: false }
}

impl Style {
    /// The plain style.
    pub fn new() -> (r: Style)
        ensures
            r == plain_style(),
    {
        Style { fg: None, bold: false, italic: false, underlined: false, crossed_out: false }
    }

    /// This style, bold.
    pub fn with_bold(self) -> (r: Style)
        ensures
            r == (Style { bold: true, ..self }),
    {
        Style { bold: true, ..self }
    }

    /// This style, italic.
    pub fn with_italic(self) -> (r: Style)
        ensures
            r == (Style { italic: true, ..self }),
    {
        Style { italic: true, ..self }
    }

    /// This style, crossed out.
    pub fn with_crossed_out(self) -> (r: Style)
        ensures
            r == (Style { crossed_out: true, ..self }),
    {
        Style { crossed_out: true, ..self }
    }

    /// This style in colour `c`.
    pub fn with_fg(self, c: Color) -> (r: Style)
        ensures
            r == (Style { fg: Some(c), ..self }),
    {
        Style { fg: Some(c), ..self }
    }

    /// This style as a link: blue and underlined.
    pub fn as_link(self) -> (r: Style)
        ensures
            r == (Style { fg: Some(Color::Blue), underlined: true, ..self }),
    {
        Style { fg: Some(Color::Blue), underlined: true, ..self }
    }
}

/// A piece of text drawn in one style.
#[derive(Debug, Clone)]
pub struct StyledSpan {
    pub content: String,
    pub style: Style,
}

/// The plain contents of a styled span.
pub struct SpanView {
    pub content: Seq<char>,
    pub style: Style,
}

impl View for StyledSpan {
    type V = SpanView;

    open spec fn view(&self) -> SpanView {
        SpanView { content: self.content@, style: self.style }
    }
}

/// The plain contents of a sequence of spans.
pub open spec fn span_views(s: Seq<StyledSpan>) -> Seq<SpanView> {
    s.map_values(|x: StyledSpan| x@)
}

/// The spans an inline node gives in style `base`: text as it is (nothing
/// for empty text), strong text bold, emphasis italic, deleted text crossed
/// out, inline code green between backquotes, a link blue and underlined (its
/// URL when it has no text), a line break `\n`, and for anything else the
/// spans of its children.
pub open spec fn spans_tree(n: Doc, base: Style) -> Seq<SpanView>
    decreases n, 0int,
{
    match n {
        Doc::Element { info, children, .. } => match info {
            InfoView::Text { value } => if value.len() > 0 {
                seq![SpanView { content: value, style: base }]
            } else {
                Seq::empty()
            },
            InfoView::Strong => spans_list(children, 0, Style { bold: true, ..base }),
            InfoView::Emphasis => spans_list(children, 0, Style { italic: true, ..base }),
            InfoView::Delete => spans_list(children, 0, Style { crossed_out: true, ..base }),
            InfoView::InlineCode { value } => seq![
                SpanView { content: seq!['`'] + value + seq!['`'], style: Style { fg: Some(Color::Green), ..base } },
            ],
            InfoView::Link { url, .. } => {
                let st = Style { fg: Some(Color::Blue), underlined: true, ..base };
                let inner = spans_list(children, 0, st);
                if inner.len() == 0 {
                    seq![SpanView { content: url, style: st }]
                } else {
                    inner
                }
            },
            InfoView::Break => seq![SpanView { content: seq!['\n'], style: base }],
            _ => spans_list(children, 0, base),
        },
        _ => Seq::empty(),
    }
}

/// The spans of `cs[i..]`, in order.
pub open spec fn spans_list(cs: Seq<Doc>, i: int, base: Style) -> Seq<SpanView>
    decreases cs, cs.len() - i,
{
    if i < 0 || i >= cs.len() {
        Seq::empty()
    } else {
        spans_tree(cs[i], base) + spans_list(cs, i + 1, base)
    }
}

fn append_spans(a: &mut Vec<StyledSpan>, b: Vec<StyledSpan>)
    ensures
        span_views(final(a)@) == span_views(old(a)@) + span_views(b@),
{
    let ghost a0 = a@;
    let mut i: usize = 0;
    while i < b.len()
        invariant
            i <= b@.len(),
            span_views(a@) == span_views(a0) + span_views(b@).take(i as int),
        decreases b@.len() - i,
    {
        let ghost before = a@;
        a.push(b[i].clone_span());
        assert(a@ == before.push(a@.last()));
        assert(span_views(a@) =~= span_views(before).push(b@[i as int]@));
        assert(span_views(b@).take(i + 1) =~= span_views(b@).take(i as int).push(b@[i as int]@));
        i += 1;
    }
    assert(span_views(b@).take(b@.len() as int) =~= span_views(b@));
}

impl StyledSpan {
    /// A copy of this span.
    pub fn clone_span(&self) -> (r: StyledSpan)
        ensures
            r@ == self@,
    {
        StyledSpan { content: to_owned_string(self.content.as_str()), style: self.style }
    }
}

fn one_span(content: String, style: Style) -> (r: Vec<StyledSpan>)
    ensures
        span_views(r@) == seq![SpanView { content: content@, style }],
{
    let mut v: Vec<StyledSpan> = Vec::new();
    v.push(StyledSpan { content, style });
    assert(span_views(v@) =~= seq![SpanView { content: content@, style }]);
    v
}

/// The spans of a node's children.
fn child_spans(node: &MdNode, base: Style) -> (r: Vec<StyledSpan>)
    requires
        node is Element,
    ensures
        span_views(r@) == spans_list(kids(node@), 0, base),
    decreases node, 0int,
{
    let mut r: Vec<StyledSpan> = Vec::new();
    match node {
        MdNode::Element { children, .. } => {
            proof {
                lemma_children_view(*node);
            }
            let ghost cs = docs(children@);
            let mut i: usize = children.len();
            #[verifier::loop_isolation(false)]
            while i > 0
                invariant
                    i <= children@.len(),
                    span_views(r@) == spans_list(cs, i as int, base),
                decreases i,
            {
                i -= 1;
                assert(decreases_to!(*node => children@[i as int]));
                let mut s = node_spans(&children[i], base);
                append_spans(&mut s, r);
                r = s;
            }
        },
        _ => {},
    }
    r
}

/// The spans an inline node gives (see `spans_tree`).
fn node_spans(node: &MdNode, base: Style) -> (r: Vec<StyledSpan>)
    ensures
        span_views(r@) == spans_tree(node@, base),
    decreases node, 1int,
{
    match node {
        MdNode::Element { info, .. } => {
            proof {
                lemma_children_view(*node);
            }
            match info {
                NodeInfo::Text { value } => {
                    if !value.as_str().is_empty() {
                        one_span(to_owned_string(value.as_str()), base)
                    } else {
                        Vec::new()
                    }
                },
                NodeInfo::Strong => child_spans(node, base.with_bold()),
                NodeInfo::Emphasis => child_spans(node, base.with_italic()),
                NodeInfo::Delete => child_spans(node, base.with_crossed_out()),
                NodeInfo::InlineCode { value } => {
                    let t = concat("`", value.as_str());
                    let t = concat(t.as_str(), "`");
                    proof {
                        reveal_strlit("`");
                    }
                    assert(t@ =~= seq!['`'] + value@ + seq!['`']);
                    one_span(t, base.with_fg(Color::Green))
                },
                NodeInfo::Link { url, .. } => {
                    let st = base.as_link();
                    let inner = child_spans(node, st);
                    if inner.len() == 0 {
                        one_span(to_owned_string(url.as_str()), st)
                    } else {
                        inner
                    }
                },
                NodeInfo::Break => {
                    proof {
                        reveal_strlit("\n");
                    }
                    let nl = to_owned_string("\n");
                    assert(nl@ =~= seq!['\n']);
                    one_span(nl, base)
                },
                _ => child_spans(node, base),
            }
        },
        _ => Vec::new(),
    }
}

/// The spans of a list of inline nodes in style `base`, in order (see `spans_tree`).
pub fn extract_spans(children: &Vec<MdNode>, base: Style) -> (r: Vec<StyledSpan>)
    ensures
        span_views(r@) == spans_list(docs(children@), 0, base),
{
    let ghost cs = docs(children@);
    let mut r: Vec<StyledSpan> = Vec::new();
    let mut i: usize = children.len();
    while i > 0
        invariant
            i <= children@.len(),
            cs == docs(children@),
            span_views(r@) == spans_list(cs, i as int, base),
        decreases i,
    {
        i -= 1;
        let mut s = node_spans(&children[i], base);
        append_spans(&mut s, r);
        r = s;
    }
    r
}

/// What kind of text a text node is.
#[derive(Debug, Clone, Copy, PartialEq, Eq, Structural)]
pub enum TextKind {
    Heading(u16),
    Paragraph,
    Other,
}

/// A node of the interactive view.
#[derive(Debug)]
pub enum RenderNode {
    /// A heading or paragraph, as styled spans.
    Text { content: Vec<StyledSpan>, kind: TextKind },
    /// A table: rows of cells, each cell a list of spans.
    Table { rows: Vec<Vec<Vec<StyledSpan>>> },
    /// A code block that is not run.
    CodeBlock { lang: String, code: String, executable: bool },
    /// An executable block: its number among the executable blocks, its
    /// language and code, and whether it is a hidden comment.
    ExecutableCode { index: usize, lang: String, code: String, hidden: bool },
    /// The output box of the executable block numbered `code_index`.
    OutputBlock { code_index: usize, state: OutputState, is_orphan: bool },
}

/// The plain contents of a render node.
pub enum RenderView {
    Text { content: Seq<SpanView>, kind: TextKind },
    Table { rows: Seq<Seq<Seq<SpanView>>> },
    CodeBlock { lang: Seq<char>, code: Seq<char>, executable: bool },
    ExecutableCode { index: int, lang: Seq<char>, code: Seq<char>, hidden: bool },
    OutputBlock { code_index: int, state: StateView, is_orphan: bool },
}

/// The plain contents of the cells of a row.
pub open spec fn cells_view(c: Seq<Vec<StyledSpan>>) -> Seq<Seq<SpanView>> {
    c.map_values(|x: Vec<StyledSpan>| span_views(x@))
}

/// The plain contents of the rows of a table.
pub open spec fn rows_view(r: Seq<Vec<Vec<StyledSpan>>>) -> Seq<Seq<Seq<SpanView>>> {
    r.map_values(|x: Vec<Vec<StyledSpan>>| cells_view(x@))
}

impl View for RenderNode {
    type V = RenderView;

    open spec fn view(&self) -> RenderView {
        match self {
            RenderNode::Text { content, kind } => RenderView::Text { content: span_views(content@), kind: *kind },
            RenderNode::Table { rows } => RenderView::Table { rows: rows_view(rows@) },
            RenderNode::CodeBlock { lang, code, executable } => RenderView::CodeBlock {
                lang: lang@,
                code: code@,
                executable: *executable,
            },
            RenderNode::ExecutableCode { index, lang, code, hidden } => RenderView::ExecutableCode {
                index: *index as int,
                lang: lang@,
                code: code@,
                hidden: *hidden,
            },
            RenderNode::OutputBlock { code_index, state, is_orphan } => RenderView::OutputBlock {
                code_index: *code_index as int,
                state: state@,
                is_orphan: *is_orphan,
            },
        }
    }
}

/// The plain contents of a sequence of render nodes.
pub open spec fn render_views(s: Seq<RenderNode>) -> Seq<RenderView> {
    s.map_values(|x: RenderNode| x@)
}

/// The spans of a table cell (a single empty span for a child that is not a cell).
pub open spec fn cell_spans(c: Doc) -> Seq<SpanView> {
    match c {
        Doc::Element { info: InfoView::TableCell, children, .. } => spans_list(children, 0, plain_style()),
        _ => seq![SpanView { content: Seq::empty(), style: plain_style() }],
    }
}

/// The cells of `cs[i..]`.
pub open spec fn cells_list(cs: Seq<Doc>, i: int) -> Seq<Seq<SpanView>>
    decreases cs.len() - i,
{
    if i < 0 || i >= cs.len() {
        Seq::empty()
    } else {
        seq![cell_spans(cs[i])] + cells_list(cs, i + 1)
    }
}

/// The rows of the table rows among `cs[i..]`; other children are skipped.
pub open spec fn table_rows(cs: Seq<Doc>, i: int) -> Seq<Seq<Seq<SpanView>>>
    decreases cs.len() - i,
{
    if i < 0 || i >= cs.len() {
        Seq::empty()
    } else {
        match cs[i] {
            Doc::Element { info: InfoView::TableRow, children, .. } => seq![cells_list(children, 0)]
                + table_rows(cs, i + 1),
            _ => table_rows(cs, i + 1),
        }
    }
}

/// The text node a heading or paragraph gives, when it has spans.
pub open spec fn text_part(n: Doc) -> Seq<RenderView> {
    match n {
        Doc::Element { info: InfoView::Heading { depth }, children, .. } => {
            let sp = spans_list(children, 0, plain_style());
            if sp.len() > 0 {
                seq![RenderView::Text { content: sp, kind: TextKind::Heading(depth as u16) }]
            } else {
                Seq::empty()
            }
        },
        Doc::Element { info: InfoView::Paragraph, children, .. } => {
            let sp = spans_list(children, 0, plain_style());
            if sp.len() > 0 {
                seq![RenderView::Text { content: sp, kind: TextKind::Paragraph }]
            } else {
                Seq::empty()
            }
        },
        _ => Seq::empty(),
    }
}

/// The block node a node gives, numbered `ci` when executable, and the
/// number of the next executable block.
pub open spec fn block_part(n: Doc, ci: int) -> (Seq<RenderView>, int) {
    match spec_block_of(n) {
        Some(b) => (seq![RenderView::ExecutableCode { index: ci, lang: b.lang, code: b.code, hidden: b.hidden }], ci + 1),
        None => match n {
            Doc::Code { lang, value, .. } => (
                seq![RenderView::CodeBlock {
                    lang: match lang {
                        Some(l) => l,
                        None => Seq::empty(),
                    },
                    code: value,
                    executable: false,
                }],
                ci,
            ),
            Doc::Element { info: InfoView::Table, children, .. } => {
                let rows = table_rows(children, 0);
                if rows.len() > 0 {
                    (seq![RenderView::Table { rows }], ci)
                } else {
                    (Seq::empty(), ci)
                }
            },
            _ => (Seq::empty(), ci),
        },
    }
}

/// The place in its list after node `x`, from place `mode`: 0 before the
/// list's first executable node, 1 after an executable node whose output
/// node has not come yet, 2 once it has.
pub open spec fn next_mode(x: Doc, mode: int) -> int {
    if is_output(x) {
        if mode == 0 { 0 } else { 2 }
    } else if is_exec(x) {
        1
    } else {
        mode
    }
}

/// The render nodes of `n` and its subtree, in document order, the
/// executable blocks numbered from `ci` on; also the number after the last.
/// An output node becomes the output box of the block before it: an orphan
/// box with its content when `orphan` (it belongs to no executable node), a
/// pending box otherwise; any other node gives its text node, then its block
/// node, then the nodes of its children.
pub open spec fn collect_tree(n: Doc, ci: int, orphan: bool) -> (Seq<RenderView>, int)
    decreases n, 0int,
{
    if is_output(n) {
        (
            seq![RenderView::OutputBlock {
                code_index: if ci > 0 { ci - 1 } else { 0 },
                state: if orphan {
                    StateView::Orphaned { content: spec_output_content(n) }
                } else {
                    StateView::Pending
                },
                is_orphan: orphan,
            }],
            ci,
        )
    } else {
        let b = block_part(n, ci);
        match n {
            Doc::Element { children, .. } => {
                let rest = collect_list(children, 0, b.1, 0);
                (text_part(n) + b.0 + rest.0, rest.1)
            },
            _ => (text_part(n) + b.0, b.1),
        }
    }
}

/// `collect_tree` over `cs[i..]`, in order, the numbering carried along, from
/// place `mode` in the list (see `next_mode`): an output node is an orphan
/// unless it is the first output node after an executable node of the list.
pub open spec fn collect_list(cs: Seq<Doc>, i: int, ci: int, mode: int) -> (Seq<RenderView>, int)
    decreases cs, cs.len() - i,
{
    if i < 0 || i >= cs.len() {
        (Seq::empty(), ci)
    } else {
        let a = collect_tree(cs[i], ci, mode != 1);
        let b = collect_list(cs, i + 1, a.1, next_mode(cs[i], mode));
        (a.0 + b.0, b.1)
    }
}

/// The numbering of executable blocks moves on by at most the number of
/// executable blocks of the subtree.
pub proof fn lemma_collect_count(n: Doc, ci: int, orphan: bool)
    ensures
        ci <= collect_tree(n, ci, orphan).1 <= ci + block_seq(n).len() + blocks_tree(n).len(),
    decreases n, 0int,
{
    if !is_output(n) {
        match n {
            Doc::Element { children, .. } => {
                lemma_collect_list_count(children, 0, block_part(n, ci).1, 0);
            },
            _ => {},
        }
    }
}

/// `lemma_collect_count` for a list.
pub proof fn lemma_collect_list_count(cs: Seq<Doc>, i: int, ci: int, mode: int)
    ensures
        ci <= collect_list(cs, i, ci, mode).1 <= ci + blocks_list(cs, i).len(),
    decreases cs, cs.len() - i,
{
    if 0 <= i < cs.len() {
        lemma_collect_count(cs[i], ci, mode != 1);
        lemma_collect_list_count(cs, i + 1, collect_tree(cs[i], ci, mode != 1).1, next_mode(cs[i], mode));
    }
}

fn cell_node_spans(c: &MdNode) -> (r: Vec<StyledSpan>)
    ensures
        span_views(r@) == cell_spans(c@),
{
    match c {
        MdNode::Element { info: NodeInfo::TableCell, children, .. } => {
            proof {
                lemma_children_view(*c);
            }
            extract_spans(children, Style::new())
        },
        _ => one_span(String::new(), Style::new()),
    }
}

fn row_cells(children: &Vec<MdNode>) -> (r: Vec<Vec<StyledSpan>>)
    ensures
        cells_view(r@) == cells_list(docs(children@), 0),
{
    let ghost cs = docs(children@);
    let mut r: Vec<Vec<StyledSpan>> = Vec::new();
    let mut i: usize = 0;
    while i < children.len()
        invariant
            i <= children@.len(),
            cs == docs(children@),
            cells_view(r@) + cells_list(cs, i as int) == cells_list(cs, 0),
        decreases children@.len() - i,
    {
        let c = cell_node_spans(&children[i]);
        let ghost before = r@;
        r.push(c);
        assert(cells_view(r@) =~= cells_view(before).push(span_views(c@)));
        assert(cells_view(before) + cells_list(cs, i as int) =~= cells_view(r@) + cells_list(cs, i + 1));
        i += 1;
    }
    assert(cells_view(r@) + cells_list(cs, i as int) =~= cells_view(r@));
    r
}

fn table_rows_of(children: &Vec<MdNode>) -> (r: Vec<Vec<Vec<StyledSpan>>>)
    ensures
        rows_view(r@) == table_rows(docs(children@), 0),
{
    let ghost cs = docs(children@);
    let mut r: Vec<Vec<Vec<StyledSpan>>> = Vec::new();
    let mut i: usize = 0;
    while i < children.len()
        invariant
            i <= children@.len(),
            cs == docs(children@),
            rows_view(r@) + table_rows(cs, i as int) == table_rows(cs, 0),
        decreases children@.len() - i,
    {
        let ghost before = r@;
        match &children[i] {
            MdNode::Element { info: NodeInfo::TableRow, children: cells, .. } => {
                proof {
                    lemma_children_view(children@[i as int]);
                }
                let row = row_cells(cells);
                r.push(row);
                assert(rows_view(r@) =~= rows_view(before).push(cells_view(row@)));
                assert(rows_view(before) + table_rows(cs, i as int) =~= rows_view(r@) + table_rows(cs, i + 1));
            },
            _ => {},
        }
        i += 1;
    }
    assert(rows_view(r@) + table_rows(cs, i as int) =~= rows_view(r@));
    r
}

fn push_view(nodes: &mut Vec<RenderNode>, n: RenderNode)
    ensures
        render_views(final(nodes)@) == render_views(old(nodes)@).push(n@),
{
    let ghost before = nodes@;
    nodes.push(n);
    assert(render_views(nodes@) =~= render_views(before).push(n@));
}

/// Appends the render nodes of `node` and its subtree (see `collect_tree`),
/// numbering executable blocks from `*code_index` on; an output node is an
/// orphan box when `orphan`.
#[verifier::spinoff_prover]
#[verifier::rlimit(40)]
fn collect_nodes(node: &MdNode, nodes: &mut Vec<RenderNode>, code_index: &mut usize, orphan: bool)
    requires
        safe(node@),
        *old(code_index) + block_seq(node@).len() + blocks_tree(node@).len() <= usize::MAX,
    ensures
        ({
            let c = collect_tree(node@, *old(code_index) as int, orphan);
            &&& render_views(final(nodes)@) == render_views(old(nodes)@) + c.0
            &&& *final(code_index) == c.1
        }),
    decreases node, 0int,
{
    let ghost start = render_views(nodes@);
    let ghost ci0 = *code_index as int;
    if is_output_node(node) {
        let idx: usize = if *code_index > 0 { *code_index - 1 } else { 0 };
        let state = if orphan {
            OutputState::Orphaned { content: extract_output_content(node) }
        } else {
            OutputState::Pending
        };
        push_view(nodes, RenderNode::OutputBlock { code_index: idx, state, is_orphan: orphan });
        assert(render_views(nodes@) =~= start + collect_tree(node@, ci0, orphan).0);
        return;
    }
    proof {
        if node is Element {
            lemma_children_view(*node);
        }
    }
    match node {
        MdNode::Element { info: NodeInfo::Heading { depth }, children, .. } => {
            let spans = extract_spans(children, Style::new());
            if spans.len() > 0 {
                push_view(nodes, RenderNode::Text { content: spans, kind: TextKind::Heading(*depth as u16) });
            }
        },
        MdNode::Element { info: NodeInfo::Paragraph, children, .. } => {
            let spans = extract_spans(children, Style::new());
            if spans.len() > 0 {
                push_view(nodes, RenderNode::Text { content: spans, kind: TextKind::Paragraph });
            }
        },
        _ => {},
    }
    assert(render_views(nodes@) =~= start + text_part(node@));
    let ghost after_text = render_views(nodes@);
    match ExecutableCodeBlock::try_from(node) {
        Ok(block) => {
            push_view(nodes, RenderNode::ExecutableCode { index: *code_index, lang: block.lang, code: block.code, hidden: block.hidden });
            *code_index = *code_index + 1;
        },
        Err(()) => {
            match node {
                MdNode::Code { lang, value, .. } => {
                    let l = match lang {
                        Some(l) => to_owned_string(l.as_str()),
                        None => String::new(),
                    };
                    push_view(nodes, RenderNode::CodeBlock { lang: l, code: to_owned_string(value.as_str()), executable: false });
                },
                MdNode::Element { info: NodeInfo::Table, children, .. } => {
                    let rows = table_rows_of(children);
                    if rows.len() > 0 {
                        push_view(nodes, RenderNode::Table { rows });
                    }
                },
                _ => {},
            }
        },
    }
    let ghost b = block_part(node@, ci0);
    assert(render_views(nodes@) =~= start + text_part(node@) + b.0);
    assert(*code_index == b.1);
    match node {
        MdNode::Element { children, .. } => {
            let ghost cs = docs(children@);
            let ghost total = collect_list(cs, 0, b.1, 0);
            let ghost prefix = render_views(nodes@);
            proof {
                assert(blocks_tree(node@) == crate::extract_code_blocks::blocks_list(cs, 0));
            }
            let mut mode: u8 = 0;
            let mut i: usize = 0;
            #[verifier::loop_isolation(false)]
            while i < children.len()
                invariant
                    i <= children@.len(),
                    cs == docs(children@),
                    mode <= 2,
                    render_views(nodes@) + collect_list(cs, i as int, *code_index as int, mode as int).0 == prefix + total.0,
                    collect_list(cs, i as int, *code_index as int, mode as int).1 == total.1,
                    *code_index + crate::extract_code_blocks::blocks_list(cs, i as int).len() <= usize::MAX,
                decreases children@.len() - i,
            {
                assert(decreases_to!(*node => children@[i as int]));
                let ghost ci = *code_index as int;
                let ghost m = mode as int;
                let ghost before = render_views(nodes@);
                proof {
                    assert(safe(cs[i as int]));
                    assert(cs[i as int] == children@[i as int]@);
                    lemma_collect_count(cs[i as int], ci, m != 1);
                }
                let child = &children[i];
                let is_out = is_output_node(child);
                let is_ex = is_executable_node(child);
                collect_nodes(child, nodes, code_index, mode != 1);
                let ghost a = collect_tree(cs[i as int], ci, m != 1);
                mode = if is_out {
                    if mode == 0 { 0 } else { 2 }
                } else if is_ex {
                    1
                } else {
                    mode
                };
                assert(mode as int == next_mode(cs[i as int], m));
                assert(before + collect_list(cs, i as int, ci, m).0 =~= render_views(nodes@) + collect_list(cs, i + 1, *code_index as int, mode as int).0);
                i += 1;
            }
            assert(render_views(nodes@) + collect_list(cs, i as int, *code_index as int, mode as int).0 =~= render_views(nodes@));
        },
        _ => {},
    }
}

/// The render nodes of a document (see `collect_tree`), the executable blocks
/// numbered from 0. The orphan outputs (those `with_output_nodes` records in
/// `orphans`) are told by their place: an output node is an orphan unless it
/// is the first output node after an executable node of its list.
pub fn build_render_nodes(ast: &MdNode, orphans: &Vec<OutputEntry>) -> (r: Vec<RenderNode>)
    requires
        safe(ast@),
        block_seq(ast@).len() + blocks_tree(ast@).len() <= usize::MAX,
    ensures
        render_views(r@) == collect_tree(ast@, 0, true).0,
{
    let mut nodes: Vec<RenderNode> = Vec::new();
    let mut code_index: usize = 0;
    collect_nodes(ast, &mut nodes, &mut code_index, true);
    assert(render_views(Seq::<RenderNode>::empty()) + collect_tree(ast@, 0, true).0 =~= collect_tree(ast@, 0, true).0);
    nodes
}

} // verus!
