//! The interactive view's state and its decisions: which nodes are shown,
//! how many lines each takes, what the keys do, how events of the running
//! blocks change the output boxes, and what the document becomes.
use crate::tui::render::collect_tree;
use crate::with_output_nodes::wo_tree;
use crate::document::{docs, is_exec, is_output, lemma_children_view, safe, Doc, MdNode};
use crate::output_node::{is_output_node, update_output_value, updated};
use crate::text::{chars_of, spec_lines, text_lines};
use crate::tui::output_box::{lines_view, OutputState, OutputType, StateView};
use crate::tui::render::{render_views, RenderNode, RenderView, SpanView, StyledSpan, TextKind, span_views};
use crate::tui::scroll::ScrollState;
use crate::execute_code_blocks::streaming_execution::ExecutionEvent;
use std::collections::HashMap;
use vstd::prelude::*;
use vstd::utf8::encode_utf8;

verus! {

/// Which modal window is open: none (`Closed`), the output of a block, or its logs.
#[derive(Debug, Clone, Copy, PartialEq, Eq, Structural)]
pub enum ModalView {
    Closed,
    Output(usize),
    Logs(usize),
}

/// A key, as the view reads it.
#[derive(Debug, Clone, Copy, PartialEq, Eq, Structural)]
pub enum KeyCode {
    Char(char),
    Esc,
    Up,
    Down,
    PageUp,
    PageDown,
    Other,
}

/// A key press: the key, and whether Control was held.
#[derive(Debug, Clone, Copy, PartialEq, Eq, Structural)]
pub struct KeyPress {
    pub code: KeyCode,
    pub ctrl: bool,
}

/// The state of the interactive view: the document, its render nodes, the
/// scroll position and focus, the output type chosen for each output box
/// (by node position), whether blocks are still running, whether the user
/// quit or aborted, and the open modal window with its scroll position.
pub struct TuiApp {
    pub ast: MdNode,
    pub nodes: Vec<RenderNode>,
    pub scroll: ScrollState,
    pub output_types: HashMap<usize, OutputType>,
    pub running: bool,
    pub quit: bool,
    pub aborted: bool,
    pub modal: ModalView,
    pub modal_scroll: usize,
}

// ---------------------------------------------------------------------------
// How many lines a node takes.

/// The number of bytes of `s` in UTF-8.
pub open spec fn bytes_of(s: Seq<char>) -> int {
    encode_utf8(s).len() as int
}

/// The number of `\n` in `s`.
pub open spec fn newlines_of(s: Seq<char>) -> int
    decreases s.len(),
{
    if s.len() == 0 {
        0
    } else {
        newlines_of(s.drop_last()) + if s.last() == '\n' { 1int } else { 0int }
    }
}

/// The number of bytes of the spans' texts.
pub open spec fn spans_bytes(c: Seq<SpanView>) -> int
    decreases c.len(),
{
    if c.len() == 0 {
        0
    } else {
        spans_bytes(c.drop_last()) + bytes_of(c.last().content)
    }
}

/// The number of `\n` in the spans' texts.
pub open spec fn spans_newlines(c: Seq<SpanView>) -> int
    decreases c.len(),
{
    if c.len() == 0 {
        0
    } else {
        spans_newlines(c.drop_last()) + newlines_of(c.last().content)
    }
}

/// `x`, at least `m`.
pub open spec fn at_least(x: int, m: int) -> int {
    if x > m { x } else { m }
}

/// The number of lines of an output box in state `st`: its content lines
/// and two border lines, at least three in all.
pub open spec fn box_lines(st: StateView) -> int {
    match st {
        StateView::Pending => 3,
        StateView::Running { out, err, .. } => at_least(
            out.len() + (if err.len() == 0 { 0int } else { err.len() + 1int }) + 2int,
            3,
        ),
        StateView::Completed { output, .. } => at_least(spec_lines(output).len() + 2int, 3),
        StateView::Failed { error } => at_least(spec_lines(error).len() + 2int, 3),
        StateView::Orphaned { content } => at_least(spec_lines(content).len() + 2int, 3),
    }
}

/// The number of lines a node takes, `w` columns wide. A text takes the
/// number of widths its bytes (with a heading's `#`s and space) fill, at
/// least one, plus one, plus one per newline, plus one more above a heading;
/// a table its rows and two borders; a code block its lines and two borders;
/// an output box `box_lines`.
pub open spec fn spec_node_lines(n: RenderView, w: int) -> int {
    match n {
        RenderView::Text { content, kind } => {
            let prefix = match kind {
                TextKind::Heading(level) => level + 1int,
                _ => 0int,
            };
            let total = spans_bytes(content) + prefix;
            let wrapped = total / (if w > 1 { w } else { 1 });
            let base = at_least(wrapped, 1) + 1 + spans_newlines(content);
            if kind is Heading {
                base + 1
            } else {
                base
            }
        },
        RenderView::Table { rows } => rows.len() + 2int,
        RenderView::CodeBlock { code, .. } => spec_lines(code).len() + 2int,
        RenderView::ExecutableCode { code, .. } => spec_lines(code).len() + 2int,
        RenderView::OutputBlock { state, .. } => box_lines(state),
    }
}

/// The line count of a node can be computed in `usize`: every partial sum fits.
pub open spec fn node_lines_fit(n: RenderView) -> bool {
    match n {
        RenderView::Text { content, .. } => spans_bytes(content) + spans_newlines(content) + 65540
            <= usize::MAX,
        RenderView::Table { rows } => rows.len() + 2 <= usize::MAX,
        RenderView::CodeBlock { code, .. } => spec_lines(code).len() + 2 <= usize::MAX,
        RenderView::ExecutableCode { code, .. } => spec_lines(code).len() + 2 <= usize::MAX,
        RenderView::OutputBlock { state, .. } => match state {
            StateView::Running { out, err, .. } => out.len() + err.len() + 3 <= usize::MAX,
            StateView::Completed { output, .. } => spec_lines(output).len() + 2 <= usize::MAX,
            StateView::Failed { error } => spec_lines(error).len() + 2 <= usize::MAX,
            StateView::Orphaned { content } => spec_lines(content).len() + 2 <= usize::MAX,
            StateView::Pending => true,
        },
    }
}

proof fn lemma_spans_prefix(c: Seq<SpanView>, i: int)
    requires
        0 <= i <= c.len(),
    ensures
        0 <= spans_bytes(c.take(i)) <= spans_bytes(c),
        0 <= spans_newlines(c.take(i)) <= spans_newlines(c),
    decreases c.len() - i,
{
    assert(c.take(c.len() as int) =~= c);
    if i < c.len() {
        lemma_spans_prefix(c, i + 1);
        let t = c.take(i + 1);
        assert(t.drop_last() =~= c.take(i));
        assert(t.last() == c[i]);
        lemma_newlines_nonneg(c[i].content);
        assert(spans_bytes(t) == spans_bytes(c.take(i)) + bytes_of(c[i].content));
        assert(spans_newlines(t) == spans_newlines(c.take(i)) + newlines_of(c[i].content));
        lemma_spans_nonneg(c.take(i));
    } else {
        lemma_spans_nonneg(c);
    }
}

proof fn lemma_spans_nonneg(c: Seq<SpanView>)
    ensures
        spans_bytes(c) >= 0,
        spans_newlines(c) >= 0,
    decreases c.len(),
{
    if c.len() > 0 {
        lemma_spans_nonneg(c.drop_last());
        lemma_newlines_nonneg(c.last().content);
    }
}

proof fn lemma_newlines_nonneg(s: Seq<char>)
    ensures
        0 <= newlines_of(s) <= s.len(),
    decreases s.len(),
{
    if s.len() > 0 {
        lemma_newlines_nonneg(s.drop_last());
    }
}

/// The number of `\n` in `s`.
fn count_newlines(s: &str) -> (r: usize)
    ensures
        r == newlines_of(s@),
{
    let v = chars_of(s);
    let mut n: usize = 0;
    let mut i: usize = 0;
    while i < v.len()
        invariant
            i <= v@.len(),
            v@ == s@,
            n == newlines_of(v@.take(i as int)),
            n <= i,
        decreases v@.len() - i,
    {
        assert(v@.take(i + 1).drop_last() =~= v@.take(i as int));
        if v[i] == '\n' {
            n += 1;
        }
        i += 1;
    }
    assert(v@.take(v@.len() as int) =~= v@);
    n
}

/// The number of lines of `s`.
fn count_lines(s: &str) -> (r: usize)
    ensures
        r == spec_lines(s@).len(),
{
    let ls = text_lines(s);
    assert(ls@.map_values(|x: String| x@).len() == ls@.len());
    ls.len()
}

impl TuiApp {
    /// The number of lines `node` takes, `terminal_width` columns wide (see `spec_node_lines`).
    pub fn node_rendered_lines(&self, node: &RenderNode, terminal_width: usize) -> (r: usize)
        requires
            node_lines_fit(node@),
        ensures
            r == spec_node_lines(node@, terminal_width as int),
    {
        node_lines(node, terminal_width)
    }
}

/// The number of lines `node` takes (see `spec_node_lines`).
pub fn node_lines(node: &RenderNode, terminal_width: usize) -> (r: usize)
    requires
        node_lines_fit(node@),
    ensures
        r == spec_node_lines(node@, terminal_width as int),
{
    match node {
        RenderNode::Text { content, kind } => {
            let ghost c = span_views(content@);
            let prefix_len: usize = match kind {
                TextKind::Heading(level) => *level as usize + 1,
                _ => 0,
            };
            proof {
                lemma_spans_nonneg(c);
            }
            let mut total: usize = 0;
            let mut newlines: usize = 0;
            let mut i: usize = 0;
            while i < content.len()
                invariant
                    i <= content@.len(),
                    c == span_views(content@),
                    total == spans_bytes(c.take(i as int)),
                    newlines == spans_newlines(c.take(i as int)),
                    spans_bytes(c) + spans_newlines(c) + 65540 <= usize::MAX,
                decreases content@.len() - i,
            {
                proof {
                    lemma_spans_prefix(c, i + 1);
                    assert(c.take(i + 1).drop_last() =~= c.take(i as int));
                    lemma_spans_prefix(c, i as int);
                }
                let b = content[i].content.as_str().as_bytes().len();
                total = total + b;
                newlines = newlines + count_newlines(content[i].content.as_str());
                i += 1;
            }
            assert(c.take(content@.len() as int) =~= c);
            total = total + prefix_len;
            let w: usize = if terminal_width > 1 { terminal_width } else { 1 };
            let wrapped = total / w;
            let base = (if wrapped > 1 { wrapped } else { 1 }) + 1 + newlines;
            match kind {
                TextKind::Heading(_) => base + 1,
                _ => base,
            }
        },
        RenderNode::Table { rows } => rows.len() + 2,
        RenderNode::CodeBlock { code, .. } => count_lines(code.as_str()) + 2,
        RenderNode::ExecutableCode { code, .. } => count_lines(code.as_str()) + 2,
        RenderNode::OutputBlock { state, .. } => {
            let n = match state {
                OutputState::Pending => 1,
                OutputState::Running { live_lines, stderr_lines, .. } => {
                    live_lines.len() + if stderr_lines.len() == 0 { 0 } else { stderr_lines.len() + 1 }
                },
                OutputState::Completed { output, .. } => count_lines(output.as_str()),
                OutputState::Failed { error } => count_lines(error.as_str()),
                OutputState::Orphaned { content } => count_lines(content.as_str()),
            };
            let with_borders = n + 2;
            if with_borders > 3 { with_borders } else { 3 }
        },
    }
}

// ---------------------------------------------------------------------------
// Output boxes, focus and the line count of the whole view.

/// The positions of the output boxes among `v[i..]`, in order.
pub open spec fn ob_positions(v: Seq<RenderView>, i: int) -> Seq<int>
    decreases v.len() - i,
{
    if i < 0 || i >= v.len() {
        Seq::empty()
    } else {
        (if v[i] is OutputBlock { seq![i] } else { Seq::empty() }) + ob_positions(v, i + 1)
    }
}

/// The position of the focused output box: the box numbered by the focus,
/// or the last box when the focus lies beyond; none when there is no box.
pub open spec fn focused_position(v: Seq<RenderView>, focused: int) -> Option<int> {
    let p = ob_positions(v, 0);
    if p.len() == 0 {
        None
    } else {
        Some(p[if focused < p.len() - 1 { focused } else { p.len() - 1 }])
    }
}

/// The sum of the line counts of the nodes.
pub open spec fn lines_sum(v: Seq<RenderView>, w: int) -> int
    decreases v.len(),
{
    if v.len() == 0 {
        0
    } else {
        lines_sum(v.drop_last(), w) + spec_node_lines(v.last(), w)
    }
}

/// The line counts of all nodes, and their sum, can be computed in `usize`.
pub open spec fn lines_fit(v: Seq<RenderView>, w: int) -> bool {
    &&& forall|i: int| 0 <= i < v.len() ==> node_lines_fit(#[trigger] v[i])
    &&& lines_sum(v, w) <= usize::MAX
}

/// The number of lines of the whole view: the sum over its nodes, at least one.
pub open spec fn spec_total_lines(v: Seq<RenderView>, w: int) -> int {
    at_least(lines_sum(v, w), 1)
}

/// `a - b`, or 0 when `b > a`.
pub open spec fn minus(a: int, b: int) -> int {
    if a >= b { a - b } else { 0 }
}

proof fn lemma_node_lines_nonneg(n: RenderView, w: int)
    ensures
        spec_node_lines(n, w) >= 0,
{
    match n {
        RenderView::Text { content, .. } => {
            lemma_spans_nonneg(content);
        },
        _ => {},
    }
}

proof fn lemma_lines_sum_prefix(v: Seq<RenderView>, w: int, i: int)
    requires
        0 <= i <= v.len(),
    ensures
        0 <= lines_sum(v.take(i), w) <= lines_sum(v, w),
    decreases v.len() - i,
{
    assert(v.take(v.len() as int) =~= v);
    if i < v.len() {
        lemma_lines_sum_prefix(v, w, i + 1);
        let t = v.take(i + 1);
        assert(t.drop_last() =~= v.take(i));
        assert(t.last() == v[i]);
        lemma_node_lines_nonneg(v[i], w);
        lemma_lines_sum_nonneg(v.take(i), w);
        assert(lines_sum(t, w) == lines_sum(v.take(i), w) + spec_node_lines(v[i], w));
    } else {
        lemma_lines_sum_nonneg(v, w);
    }
}

proof fn lemma_lines_sum_nonneg(v: Seq<RenderView>, w: int)
    ensures
        lines_sum(v, w) >= 0,
    decreases v.len(),
{
    if v.len() > 0 {
        lemma_lines_sum_nonneg(v.drop_last(), w);
        lemma_node_lines_nonneg(v.last(), w);
    }
}

/// The status of the block numbered `index`, as its code header shows it.
#[derive(Debug, Clone, Copy, PartialEq, Eq, Structural)]
pub enum CodeStatus {
    Running,
    Done,
    Error,
    Pending,
    Orphan,
}

/// The position of the first output box of the block numbered `index` in `v[i..]`.
pub open spec fn first_box_of(v: Seq<RenderView>, index: int, i: int) -> Option<int>
    decreases v.len() - i,
{
    if i < 0 || i >= v.len() {
        None
    } else if v[i] matches RenderView::OutputBlock { code_index, .. } && code_index == index {
        Some(i)
    } else {
        first_box_of(v, index, i + 1)
    }
}

/// The status of a block: that of its first output box; pending when it has none.
pub open spec fn spec_code_status(v: Seq<RenderView>, index: int) -> CodeStatus {
    match first_box_of(v, index, 0) {
        Some(i) => match v[i] {
            RenderView::OutputBlock { state, .. } => match state {
                StateView::Running { .. } => CodeStatus::Running,
                StateView::Completed { .. } => CodeStatus::Done,
                StateView::Failed { .. } => CodeStatus::Error,
                StateView::Pending => CodeStatus::Pending,
                StateView::Orphaned { .. } => CodeStatus::Orphan,
            },
            _ => CodeStatus::Pending,
        },
        None => CodeStatus::Pending,
    }
}

/// The label of a block's status: `▶ {elapsed}`, `✓ done`, `✗ error`,
/// `○ pending` or `○ orphan`; `elapsed` is the running time, as the caller writes it.
pub fn code_status_label(status: CodeStatus, elapsed: &str) -> (r: String)
    ensures
        r@ == match status {
            CodeStatus::Running => "▶ "@ + elapsed@,
            CodeStatus::Done => "✓ done"@,
            CodeStatus::Error => "✗ error"@,
            CodeStatus::Pending => "○ pending"@,
            CodeStatus::Orphan => "○ orphan"@,
        },
{
    match status {
        CodeStatus::Running => crate::text::concat("▶ ", elapsed),
        CodeStatus::Done => crate::text::to_owned_string("✓ done"),
        CodeStatus::Error => crate::text::to_owned_string("✗ error"),
        CodeStatus::Pending => crate::text::to_owned_string("○ pending"),
        CodeStatus::Orphan => crate::text::to_owned_string("○ orphan"),
    }
}

impl TuiApp {
    /// The positions of the output boxes among the nodes, in order.
    pub fn output_block_indices(&self) -> (r: Vec<usize>)
        ensures
            r@.map_values(|x: usize| x as int) == ob_positions(render_views(self.nodes@), 0),
    {
        let ghost v = render_views(self.nodes@);
        let mut r: Vec<usize> = Vec::new();
        let mut i: usize = 0;
        assert(r@.map_values(|x: usize| x as int) + ob_positions(v, 0) =~= ob_positions(v, 0));
        while i < self.nodes.len()
            invariant
                i <= self.nodes@.len(),
                v == render_views(self.nodes@),
                r@.map_values(|x: usize| x as int) + ob_positions(v, i as int) == ob_positions(v, 0),
            decreases self.nodes@.len() - i,
        {
            let ghost before = r@;
            match &self.nodes[i] {
                RenderNode::OutputBlock { .. } => {
                    r.push(i);
                    assert(r@.map_values(|x: usize| x as int) =~= before.map_values(|x: usize| x as int).push(i as int));
                },
                _ => {},
            }
            assert(r@.map_values(|x: usize| x as int) + ob_positions(v, i + 1) =~= before.map_values(|x: usize| x as int) + ob_positions(v, i as int));
            i += 1;
        }
        assert(r@.map_values(|x: usize| x as int) + ob_positions(v, i as int) =~= r@.map_values(|x: usize| x as int));
        r
    }

    /// The position of the focused output box (see `focused_position`).
    pub fn current_output_block_index(&self) -> (r: Option<usize>)
        ensures
            match focused_position(render_views(self.nodes@), self.scroll.focused_index as int) {
                Some(p) => r matches Some(q) && q as int == p && 0 <= p < self.nodes@.len(),
                None => r is None,
            },
    {
        let indices = self.output_block_indices();
        let ghost m = indices@.map_values(|x: usize| x as int);
        assert(m.len() == indices@.len());
        if indices.len() == 0 {
            return None;
        }
        let count = indices.len();
        let k = if self.scroll.focused_index < count - 1 { self.scroll.focused_index } else { count - 1 };
        proof {
            lemma_ob_positions_bounds(render_views(self.nodes@), 0);
            assert(m[k as int] == indices@[k as int] as int);
        }
        Some(indices[k])
    }

    /// The number of lines of the whole view, `terminal_width` columns wide
    /// (see `spec_total_lines`).
    pub fn total_rendered_lines(&self, terminal_width: usize) -> (r: usize)
        requires
            lines_fit(render_views(self.nodes@), terminal_width as int),
        ensures
            r == spec_total_lines(render_views(self.nodes@), terminal_width as int),
    {
        let ghost v = render_views(self.nodes@);
        let mut sum: usize = 0;
        let mut i: usize = 0;
        while i < self.nodes.len()
            invariant
                i <= self.nodes@.len(),
                v == render_views(self.nodes@),
                lines_fit(v, terminal_width as int),
                sum == lines_sum(v.take(i as int), terminal_width as int),
            decreases self.nodes@.len() - i,
        {
            proof {
                lemma_lines_sum_prefix(v, terminal_width as int, i + 1);
                let t = v.take(i + 1);
                assert(t.drop_last() =~= v.take(i as int));
                assert(t.last() == v[i as int]);
                assert(node_lines_fit(v[i as int]));
            }
            sum = sum + node_lines(&self.nodes[i], terminal_width);
            i += 1;
        }
        assert(v.take(self.nodes@.len() as int) =~= v);
        if sum > 1 { sum } else { 1 }
    }

    /// The largest scroll offset for a view `viewport_height` lines high: the
    /// lines of the whole view at 80 columns, less the height.
    pub fn max_scroll_offset(&self, viewport_height: usize) -> (r: usize)
        requires
            lines_fit(render_views(self.nodes@), 80),
        ensures
            r == minus(spec_total_lines(render_views(self.nodes@), 80), viewport_height as int),
    {
        let total = self.total_rendered_lines(80);
        if total >= viewport_height { total - viewport_height } else { 0 }
    }

    /// The status of the block numbered `index` (see `spec_code_status`).
    pub fn get_code_status(&self, index: usize) -> (r: CodeStatus)
        ensures
            r == spec_code_status(render_views(self.nodes@), index as int),
    {
        let ghost v = render_views(self.nodes@);
        let mut i: usize = 0;
        while i < self.nodes.len()
            invariant
                i <= self.nodes@.len(),
                v == render_views(self.nodes@),
                first_box_of(v, index as int, 0) == first_box_of(v, index as int, i as int),
            decreases self.nodes@.len() - i,
        {
            match &self.nodes[i] {
                RenderNode::OutputBlock { code_index, state, .. } => {
                    if *code_index == index {
                        return match state {
                            OutputState::Running { .. } => CodeStatus::Running,
                            OutputState::Completed { .. } => CodeStatus::Done,
                            OutputState::Failed { .. } => CodeStatus::Error,
                            OutputState::Pending => CodeStatus::Pending,
                            OutputState::Orphaned { .. } => CodeStatus::Orphan,
                        };
                    }
                },
                _ => {},
            }
            i += 1;
        }
        CodeStatus::Pending
    }
}

proof fn lemma_ob_positions_bounds(v: Seq<RenderView>, i: int)
    requires
        0 <= i,
    ensures
        forall|k: int| 0 <= k < ob_positions(v, i).len() ==> i <= #[trigger] ob_positions(v, i)[k] < v.len(),
    decreases v.len() - i,
{
    if i < v.len() {
        lemma_ob_positions_bounds(v, i + 1);
        let head: Seq<int> = if v[i] is OutputBlock { seq![i] } else { Seq::empty() };
        let rest = ob_positions(v, i + 1);
        assert(ob_positions(v, i) == head + rest);
        assert forall|k: int| 0 <= k < ob_positions(v, i).len() implies i <= #[trigger] ob_positions(v, i)[k] < v.len() by {
            if k < head.len() {
                assert(ob_positions(v, i)[k] == head[k]);
            } else {
                assert(ob_positions(v, i)[k] == rest[k - head.len()]);
            }
        }
    }
}

// ---------------------------------------------------------------------------
// Keys.

/// `q` or Esc: quit, or close the modal window.
pub open spec fn is_quit_key(k: KeyCode) -> bool {
    k == KeyCode::Char('q') || k == KeyCode::Esc
}

/// `j` or Down: scroll down.
pub open spec fn is_down_key(k: KeyCode) -> bool {
    k == KeyCode::Char('j') || k == KeyCode::Down
}

/// `k` or Up: scroll up.
pub open spec fn is_up_key(k: KeyCode) -> bool {
    k == KeyCode::Char('k') || k == KeyCode::Up
}

/// Control-C: abort, leaving the document as it was.
pub open spec fn is_abort_key(key: KeyPress) -> bool {
    !is_quit_key(key.code) && key.code == KeyCode::Char('c') && key.ctrl
}

/// The scroll state after a key in the document view: down and up by one
/// line (`j`/Down, `k`/Up) or five (PageDown, PageUp), never past
/// `max_offset` nor above the top; the focus to the next output box (`n`,
/// when there is one) or the previous one (`p`).
pub open spec fn scrolled(s: ScrollState, key: KeyPress, max_offset: int, boxes: int) -> ScrollState {
    let k = key.code;
    if is_quit_key(k) || is_abort_key(key) {
        s
    } else if is_down_key(k) {
        ScrollState { offset: (if s.offset + 1 < max_offset { s.offset + 1 } else { max_offset }) as usize, ..s }
    } else if is_up_key(k) {
        ScrollState { offset: minus(s.offset as int, 1) as usize, ..s }
    } else if k == KeyCode::PageDown {
        ScrollState { offset: (if s.offset + 5 < max_offset { s.offset + 5 } else { max_offset }) as usize, ..s }
    } else if k == KeyCode::PageUp {
        ScrollState { offset: minus(s.offset as int, 5) as usize, ..s }
    } else if k == KeyCode::Char('n') {
        if boxes > 0 && s.focused_index + 1 < boxes {
            ScrollState { focused_index: (s.focused_index + 1) as usize, ..s }
        } else {
            s
        }
    } else if k == KeyCode::Char('p') {
        ScrollState { focused_index: minus(s.focused_index as int, 1) as usize, ..s }
    } else {
        s
    }
}

/// The modal window after a key: in the modal window, `q`/Esc closes it; in
/// the document view, `m` opens the output and `l` the logs of the focused
/// output box's block.
pub open spec fn modal_after(m: ModalView, key: KeyPress, v: Seq<RenderView>, focus: Option<int>) -> ModalView {
    if m != ModalView::Closed {
        if is_quit_key(key.code) {
            ModalView::Closed
        } else {
            m
        }
    } else if !is_quit_key(key.code) && !is_abort_key(key) && (key.code == KeyCode::Char('m') || key.code == KeyCode::Char('l')) {
        match focus {
            Some(p) => match v[p] {
                RenderView::OutputBlock { code_index, .. } => if key.code == KeyCode::Char('m') {
                    ModalView::Output(code_index as usize)
                } else {
                    ModalView::Logs(code_index as usize)
                },
                _ => m,
            },
            None => m,
        }
    } else {
        m
    }
}

/// The modal scroll position after a key: `j`/Down and `k`/Up move it in an
/// open modal window, closing the window resets it, and so does opening one.
pub open spec fn modal_scroll_after(m: ModalView, ms: int, key: KeyPress, v: Seq<RenderView>, focus: Option<int>) -> int {
    if m != ModalView::Closed {
        if is_quit_key(key.code) {
            0
        } else if is_down_key(key.code) {
            ms + 1
        } else if is_up_key(key.code) {
            minus(ms, 1)
        } else {
            ms
        }
    } else if modal_after(m, key, v, focus) != m {
        0
    } else {
        ms
    }
}

/// The output types after a key: `t` in the document view switches the type
/// of the focused output box (a box with no type yet has `output`).
pub open spec fn types_after(t: Map<usize, OutputType>, m: ModalView, key: KeyPress, focus: Option<int>) -> Map<usize, OutputType> {
    if m == ModalView::Closed && key.code == KeyCode::Char('t') {
        match focus {
            Some(p) => {
                let cur = if t.contains_key(p as usize) { t[p as usize] } else { OutputType::Block };
                t.insert(p as usize, crate::tui::output_box::toggled(cur))
            },
            None => t,
        }
    } else {
        t
    }
}

impl TuiApp {
    /// What a key press does (see `scrolled`, `modal_after`,
    /// `modal_scroll_after`, `types_after`); in the document view `q`/Esc
    /// quits and Control-C aborts. `viewport_height` is the terminal's height.
    /// Returns whether the view is to close.
    pub fn handle_key(&mut self, key: KeyPress, viewport_height: usize) -> (close: bool)
        requires
            old(self).modal_scroll < usize::MAX,
            old(self).scroll.offset + 5 <= usize::MAX,
            old(self).scroll.focused_index < usize::MAX,
            lines_fit(render_views(old(self).nodes@), 80),
        ensures
            final(self).nodes@ == old(self).nodes@,
            final(self).ast == old(self).ast,
            final(self).running == old(self).running,
            final(self).quit == (old(self).quit || (old(self).modal == ModalView::Closed && (is_quit_key(key.code) || is_abort_key(key)))),
            final(self).aborted == (old(self).aborted || (old(self).modal == ModalView::Closed && is_abort_key(key))),
            close == (old(self).modal == ModalView::Closed && final(self).quit),
            final(self).scroll == (if old(self).modal == ModalView::Closed {
                scrolled(
                    old(self).scroll,
                    key,
                    minus(spec_total_lines(render_views(old(self).nodes@), 80), viewport_height as int),
                    ob_positions(render_views(old(self).nodes@), 0).len() as int,
                )
            } else {
                old(self).scroll
            }),
            final(self).modal == modal_after(
                old(self).modal,
                key,
                render_views(old(self).nodes@),
                focused_position(render_views(old(self).nodes@), old(self).scroll.focused_index as int),
            ),
            final(self).modal_scroll == modal_scroll_after(
                old(self).modal,
                old(self).modal_scroll as int,
                key,
                render_views(old(self).nodes@),
                focused_position(render_views(old(self).nodes@), old(self).scroll.focused_index as int),
            ),
            final(self).output_types@ == types_after(
                old(self).output_types@,
                old(self).modal,
                key,
                focused_position(render_views(old(self).nodes@), old(self).scroll.focused_index as int),
            ),
            old(self).modal == ModalView::Closed && (key.code == KeyCode::Down || key.code == KeyCode::Char('j')) ==> {
                let m = minus(spec_total_lines(render_views(old(self).nodes@), 80), viewport_height as int);
                &&& old(self).scroll.offset < m ==> final(self).scroll.offset == old(self).scroll.offset + 1
                &&& old(self).scroll.offset >= m ==> final(self).scroll.offset == m
                &&& final(self).scroll.focused_index == old(self).scroll.focused_index
            },
            old(self).modal == ModalView::Closed && (key.code == KeyCode::Up || key.code == KeyCode::Char('k')) ==> {
                &&& old(self).scroll.offset > 0 ==> final(self).scroll.offset == old(self).scroll.offset - 1
                &&& old(self).scroll.offset == 0 ==> final(self).scroll.offset == 0
                &&& final(self).scroll.focused_index == old(self).scroll.focused_index
            },
            old(self).modal == ModalView::Closed && key.code == KeyCode::PageDown ==> {
                let m = minus(spec_total_lines(render_views(old(self).nodes@), 80), viewport_height as int);
                &&& old(self).scroll.offset + 5 < m ==> final(self).scroll.offset == old(self).scroll.offset + 5
                &&& old(self).scroll.offset + 5 >= m ==> final(self).scroll.offset == m
            },
            old(self).modal == ModalView::Closed && key.code == KeyCode::PageUp ==> {
                &&& old(self).scroll.offset >= 5 ==> final(self).scroll.offset == old(self).scroll.offset - 5
                &&& old(self).scroll.offset < 5 ==> final(self).scroll.offset == 0
            },
            old(self).modal != ModalView::Closed ==> final(self).scroll == old(self).scroll,
            old(self).modal == ModalView::Closed && key.code == KeyCode::Char('n') ==> {
                let boxes = ob_positions(render_views(old(self).nodes@), 0).len();
                &&& final(self).scroll.offset == old(self).scroll.offset
                &&& old(self).scroll.focused_index + 1 < boxes ==> final(self).scroll.focused_index == old(self).scroll.focused_index + 1
                &&& old(self).scroll.focused_index + 1 >= boxes ==> final(self).scroll.focused_index == old(self).scroll.focused_index
            },
            old(self).modal == ModalView::Closed && key.code == KeyCode::Char('p') ==> {
                &&& final(self).scroll.offset == old(self).scroll.offset
                &&& old(self).scroll.focused_index > 0 ==> final(self).scroll.focused_index == old(self).scroll.focused_index - 1
                &&& old(self).scroll.focused_index == 0 ==> final(self).scroll.focused_index == 0
            },
            old(self).modal != ModalView::Closed && (key.code == KeyCode::Down || key.code == KeyCode::Char('j')) ==> {
                &&& final(self).modal_scroll == old(self).modal_scroll + 1
                &&& final(self).modal == old(self).modal
            },
            old(self).modal != ModalView::Closed && (key.code == KeyCode::Up || key.code == KeyCode::Char('k')) ==> {
                &&& old(self).modal_scroll > 0 ==> final(self).modal_scroll == old(self).modal_scroll - 1
                &&& old(self).modal_scroll == 0 ==> final(self).modal_scroll == 0
                &&& final(self).modal == old(self).modal
            },
            old(self).modal != ModalView::Closed && (key.code == KeyCode::Esc || key.code == KeyCode::Char('q')) ==> {
                &&& final(self).modal == ModalView::Closed
                &&& final(self).modal_scroll == 0
                &&& final(self).quit == old(self).quit
                &&& !close
            },
    {
        broadcast use vstd::std_specs::hash::group_hash_axioms;
        let ghost v = render_views(self.nodes@);
        if self.modal != ModalView::Closed {
            match key.code {
                KeyCode::Char('q') | KeyCode::Esc => {
                    self.modal = ModalView::Closed;
                    self.modal_scroll = 0;
                },
                KeyCode::Char('j') | KeyCode::Down => {
                    self.modal_scroll = self.modal_scroll + 1;
                },
                KeyCode::Char('k') | KeyCode::Up => {
                    self.modal_scroll = if self.modal_scroll >= 1 { self.modal_scroll - 1 } else { 0 };
                },
                _ => {},
            }
            return false;
        }
        match key.code {
            KeyCode::Char('q') | KeyCode::Esc => {
                self.quit = true;
                return true;
            },
            KeyCode::Char('c') if key.ctrl => {
                self.aborted = true;
                self.quit = true;
                return true;
            },
            KeyCode::Char('j') | KeyCode::Down => {
                let max_offset = self.max_scroll_offset(viewport_height);
                self.scroll.scroll_down(1, max_offset);
            },
            KeyCode::Char('k') | KeyCode::Up => {
                self.scroll.scroll_up(1);
            },
            KeyCode::PageDown => {
                let max_offset = self.max_scroll_offset(viewport_height);
                self.scroll.scroll_down(5, max_offset);
            },
            KeyCode::PageUp => {
                self.scroll.scroll_up(5);
            },
            KeyCode::Char('n') => {
                let indices = self.output_block_indices();
                assert(indices@.map_values(|x: usize| x as int).len() == indices@.len());
                let output_count = indices.len();
                if output_count > 0 {
                    self.scroll.focus_next(output_count);
                }
            },
            KeyCode::Char('p') => {
                self.scroll.focus_prev();
            },
            KeyCode::Char('t') => {
                if let Some(node_idx) = self.current_output_block_index() {
                    let cur = match self.output_types.get(&node_idx) {
                        Some(t) => *t,
                        None => OutputType::Block,
                    };
                    let mut t = cur;
                    t.toggle();
                    self.output_types.insert(node_idx, t);
                }
            },
            KeyCode::Char('m') => {
                if let Some(node_idx) = self.current_output_block_index() {
                    assert(render_views(self.nodes@)[node_idx as int] == self.nodes@[node_idx as int]@);
                    match &self.nodes[node_idx] {
                        RenderNode::OutputBlock { code_index, .. } => {
                            self.modal = ModalView::Output(*code_index);
                            self.modal_scroll = 0;
                        },
                        _ => {},
                    }
                }
            },
            KeyCode::Char('l') => {
                if let Some(node_idx) = self.current_output_block_index() {
                    assert(render_views(self.nodes@)[node_idx as int] == self.nodes@[node_idx as int]@);
                    match &self.nodes[node_idx] {
                        RenderNode::OutputBlock { code_index, .. } => {
                            self.modal = ModalView::Logs(*code_index);
                            self.modal_scroll = 0;
                        },
                        _ => {},
                    }
                }
            },
            _ => {},
        }
        self.quit
    }
}

// ---------------------------------------------------------------------------
// Writing a finished block's output into the document.

/// The number of executable nodes (code blocks marked for execution and
/// hidden exec comments) below `n` (`n` itself not included).
pub open spec fn code_tree(n: Doc) -> int
    decreases n, 0int,
{
    match n {
        Doc::Element { children, .. } => code_list(children, 0),
        _ => 0,
    }
}

/// The number of executable nodes among `cs[i..]` and below them.
pub open spec fn code_list(cs: Seq<Doc>, i: int) -> int
    decreases cs, cs.len() - i,
{
    if i < 0 || i >= cs.len() {
        0
    } else {
        (if is_exec(cs[i]) { 1int } else { 0int }) + code_tree(cs[i]) + code_list(cs, i + 1)
    }
}

/// The tree with the output of the block numbered `target` written into the
/// first output node that follows it, counting executable nodes (visible
/// blocks and hidden exec comments, numbered as the render nodes number
/// them) from `idx` on, in document order; also the count reached and
/// whether a node was written. In each list of children, an output node
/// that comes after the block numbered `target`, before the next executable
/// node, is written and the walk stops (an output node that comes before
/// every executable node is never written); otherwise an executable node
/// moves the count on and the walk goes down into the node.
pub open spec fn upd_tree(n: Doc, target: int, out: Seq<char>, idx: int) -> (Doc, int, bool)
    decreases n, 0int,
{
    match n {
        Doc::Element { info, source, children } => {
            let r = upd_list(children, 0, target, out, idx);
            (Doc::Element { info, source, children: r.0 }, r.1, r.2)
        },
        _ => (n, idx, false),
    }
}

/// `upd_tree` over `cs[i..]` (see `upd_tree`).
pub open spec fn upd_list(cs: Seq<Doc>, i: int, target: int, out: Seq<char>, idx: int) -> (Seq<Doc>, int, bool)
    decreases cs, cs.len() - i,
{
    if i < 0 || i >= cs.len() {
        (Seq::empty(), idx, false)
    } else if is_output(cs[i]) && idx >= 1 && idx - 1 == target {
        (seq![updated(cs[i], out)] + cs.subrange(i + 1, cs.len() as int), idx, true)
    } else {
        let idx2 = if is_exec(cs[i]) { idx + 1 } else { idx };
        let w = upd_tree(cs[i], target, out, idx2);
        if w.2 {
            (seq![w.0] + cs.subrange(i + 1, cs.len() as int), w.1, true)
        } else {
            let rest = upd_list(cs, i + 1, target, out, w.1);
            (seq![w.0] + rest.0, rest.1, rest.2)
        }
    }
}

proof fn lemma_upd_count(n: Doc, target: int, out: Seq<char>, idx: int)
    ensures
        idx <= upd_tree(n, target, out, idx).1 <= idx + code_tree(n),
        !upd_tree(n, target, out, idx).2 ==> upd_tree(n, target, out, idx).0 == n,
    decreases n, 0int,
{
    match n {
        Doc::Element { info, source, children } => {
            lemma_upd_list_count(children, 0, target, out, idx);
            if !upd_tree(n, target, out, idx).2 {
                assert(children.subrange(0, children.len() as int) =~= children);
            }
        },
        _ => {},
    }
}

proof fn lemma_upd_list_count(cs: Seq<Doc>, i: int, target: int, out: Seq<char>, idx: int)
    requires
        0 <= i <= cs.len(),
    ensures
        idx <= upd_list(cs, i, target, out, idx).1 <= idx + code_list(cs, i),
        !upd_list(cs, i, target, out, idx).2 ==> upd_list(cs, i, target, out, idx).0 == cs.subrange(i, cs.len() as int),
    decreases cs, cs.len() - i,
{
    if i < cs.len() {
        lemma_code_nonneg(cs[i]);
        lemma_code_list_nonneg(cs, i + 1);
        if !(is_output(cs[i]) && idx >= 1 && idx - 1 == target) {
            let idx2 = if is_exec(cs[i]) { idx + 1 } else { idx };
            lemma_upd_count(cs[i], target, out, idx2);
            let w = upd_tree(cs[i], target, out, idx2);
            if !w.2 {
                lemma_upd_list_count(cs, i + 1, target, out, w.1);
                assert(cs.subrange(i, cs.len() as int) =~= seq![cs[i]] + cs.subrange(i + 1, cs.len() as int));
            }
        }
    } else {
        assert(cs.subrange(i, cs.len() as int) =~= Seq::<Doc>::empty());
    }
}

proof fn lemma_code_nonneg(n: Doc)
    ensures
        code_tree(n) >= 0,
    decreases n, 0int,
{
    match n {
        Doc::Element { children, .. } => lemma_code_list_nonneg(children, 0),
        _ => {},
    }
}

proof fn lemma_code_list_nonneg(cs: Seq<Doc>, i: int)
    ensures
        code_list(cs, i) >= 0,
    decreases cs, cs.len() - i,
{
    if 0 <= i < cs.len() {
        lemma_code_nonneg(cs[i]);
        lemma_code_list_nonneg(cs, i + 1);
    }
}

/// Writes the output of the block numbered `target` into `node` (see `upd_tree`).
fn walk_node(node: MdNode, target: usize, output: &str, idx: &mut usize) -> (r: (MdNode, bool))
    requires
        safe(node@),
        *old(idx) + code_tree(node@) <= usize::MAX,
    ensures
        (r.0@, *final(idx) as int, r.1) == upd_tree(node@, target as int, output@, *old(idx) as int),
    decreases node, 0int,
{
    proof {
        lemma_upd_count(node@, target as int, output@, *idx as int);
    }
    match node {
        MdNode::Element { info, source, children } => {
            proof {
                lemma_children_view(MdNode::Element { info, source, children });
            }
            let (cs, found) = walk_children(children, target, output, idx);
            let r = MdNode::Element { info, source, children: cs };
            proof {
                lemma_children_view(r);
            }
            (r, found)
        },
        other => (other, false),
    }
}

fn walk_children(children: Vec<MdNode>, target: usize, output: &str, idx: &mut usize) -> (r: (Vec<MdNode>, bool))
    requires
        crate::document::all_safe(docs(children@)),
        *old(idx) + code_list(docs(children@), 0) <= usize::MAX,
    ensures
        (docs(r.0@), *final(idx) as int, r.1) == upd_list(docs(children@), 0, target as int, output@, *old(idx) as int),
    decreases children@, 0int,
{
    let ghost cs = docs(children@);
    let ghost total = upd_list(cs, 0, target as int, output@, *idx as int);
    let mut result: Vec<MdNode> = Vec::new();
    let mut found = false;
    let ghost mut pos: int = 0;
    proof {
        lemma_upd_list_count(cs, 0, target as int, output@, *idx as int);
        assert(cs.subrange(0, cs.len() as int) =~= cs);
    }
    for child in it: children.into_iter()
        invariant
            it.seq() == children@,
            pos == it.index(),
            cs == docs(children@),
            crate::document::all_safe(cs),
            total == upd_list(cs, 0, target as int, output@, *old(idx) as int),
            0 <= pos <= cs.len(),
            !found ==> {
                &&& docs(result@) + upd_list(cs, pos, target as int, output@, *idx as int).0 == total.0
                &&& upd_list(cs, pos, target as int, output@, *idx as int).1 == total.1
                &&& upd_list(cs, pos, target as int, output@, *idx as int).2 == total.2
                &&& *idx + code_list(cs, pos) <= usize::MAX
            },
            found ==> {
                &&& total.2
                &&& total.1 == *idx
                &&& docs(result@) + cs.subrange(pos, cs.len() as int) == total.0
            },
    {
        assert(child == children@[pos]);
        assert(cs[pos] == child@);
        let ghost before = docs(result@);
        if found {
            result.push(child);
            proof {
                assert(docs(result@) =~= before.push(cs[pos]));
                assert(before + cs.subrange(pos, cs.len() as int) =~= docs(result@) + cs.subrange(pos + 1, cs.len() as int));
            }
        } else {
            let ghost i0 = *idx as int;
            proof {
                lemma_code_nonneg(cs[pos]);
                lemma_code_list_nonneg(cs, pos + 1);
            }
            if is_output_node(&child) && *idx >= 1 && *idx - 1 == target {
                let mut c = child;
                update_output_value(&mut c, output);
                result.push(c);
                found = true;
                proof {
                    assert(docs(result@) =~= before.push(updated(cs[pos], output@)));
                    assert(before + upd_list(cs, pos, target as int, output@, i0).0 =~= docs(result@) + cs.subrange(pos + 1, cs.len() as int));
                }
            } else {
                assert(safe(cs[pos]));
                if crate::execute_code_blocks::language_config::is_executable_node(&child) {
                    *idx = *idx + 1;
                }
                let ghost i2 = *idx as int;
                proof {
                    lemma_upd_count(cs[pos], target as int, output@, i2);
                }
                let (c, f) = walk_node(child, target, output, idx);
                result.push(c);
                proof {
                    let w = upd_tree(cs[pos], target as int, output@, i2);
                    assert(docs(result@) =~= before.push(w.0));
                    if f {
                        assert(before + upd_list(cs, pos, target as int, output@, i0).0 =~= docs(result@) + cs.subrange(pos + 1, cs.len() as int));
                    } else {
                        assert(before + upd_list(cs, pos, target as int, output@, i0).0 =~= docs(result@) + upd_list(cs, pos + 1, target as int, output@, w.1).0);
                    }
                }
                found = f;
            }
        }
        proof {
            pos = pos + 1;
        }
    }
    proof {
        assert(cs.subrange(pos, cs.len() as int) =~= Seq::<Doc>::empty());
        assert(docs(result@) + Seq::<Doc>::empty() =~= docs(result@));
    }
    (result, found)
}

proof fn lemma_code_suffix(a: Seq<Doc>, b: Seq<Doc>, j: int)
    requires
        0 <= j,
    ensures
        code_list(a + b, a.len() + j) == code_list(b, j),
    decreases b.len() - j,
{
    if j < b.len() {
        assert((a + b)[a.len() + j] == b[j]);
        lemma_code_suffix(a, b, j + 1);
    }
}

proof fn lemma_code_subrange(cs: Seq<Doc>, k: int, j: int)
    requires
        0 <= k <= cs.len(),
        0 <= j,
    ensures
        code_list(cs.subrange(k, cs.len() as int), j) == code_list(cs, k + j),
    decreases cs.len() - k - j,
{
    if k + j < cs.len() {
        assert(cs.subrange(k, cs.len() as int)[j] == cs[k + j]);
        lemma_code_subrange(cs, k, j + 1);
    }
}

/// Writing an output into a safe document keeps it safe, and keeps its
/// executable code blocks.
pub proof fn lemma_upd_keeps(n: Doc, target: int, out: Seq<char>, idx: int)
    requires
        safe(n),
    ensures
        safe(upd_tree(n, target, out, idx).0),
        code_tree(upd_tree(n, target, out, idx).0) <= code_tree(n),
    decreases n, 0int,
{
    match n {
        Doc::Element { info, source, children } => {
            lemma_upd_list_keeps(children, 0, target, out, idx);
            let r = upd_list(children, 0, target, out, idx);
            assert(code_list(r.0, 0) <= code_list(children, 0));
        },
        _ => {},
    }
}

proof fn lemma_upd_list_keeps(cs: Seq<Doc>, i: int, target: int, out: Seq<char>, idx: int)
    requires
        0 <= i <= cs.len(),
        crate::document::all_safe(cs),
    ensures
        crate::document::all_safe(upd_list(cs, i, target, out, idx).0),
        code_list(upd_list(cs, i, target, out, idx).0, 0) <= code_list(cs, i),
    decreases cs, cs.len() - i,
{
    let r = upd_list(cs, i, target, out, idx);
    if i < cs.len() {
        assert(safe(cs[i]));
        let tail = cs.subrange(i + 1, cs.len() as int);
        lemma_code_subrange(cs, i + 1, 0);
        if is_output(cs[i]) && idx >= 1 && idx - 1 == target {
            let u = updated(cs[i], out);
            crate::stability::lemma_output_not_executable();
            match cs[i] {
                Doc::Html { .. } => crate::fill_output_blocks::lemma_output_comment_safe(out),
                _ => {},
            }
            crate::stability::lemma_updated_class(cs[i], out);
            assert(!is_exec(u));
            assert(r.0 == seq![u] + tail);
            lemma_code_suffix(seq![u], tail, 0);
            assert(r.0[0] == u);
            assert(!(cs[i] is Element));
            assert(code_tree(u) == 0);
            assert(code_tree(cs[i]) == 0);
            assert forall|t: int| 0 <= t < r.0.len() implies safe(#[trigger] r.0[t]) by {
                if t > 0 {
                    assert(r.0[t] == cs[i + t]);
                }
            }
        } else {
            let idx2 = if is_exec(cs[i]) { idx + 1 } else { idx };
            let w = upd_tree(cs[i], target, out, idx2);
            lemma_upd_keeps(cs[i], target, out, idx2);
            lemma_upd_count(cs[i], target, out, idx2);
            assert(is_exec(w.0) == is_exec(cs[i])) by {
                if !(cs[i] is Element) {
                    assert(w.0 == cs[i]);
                }
            }
            if w.2 {
                assert(r.0 == seq![w.0] + tail);
                assert(r.0[0] == w.0);
                lemma_code_suffix(seq![w.0], tail, 0);
                assert forall|t: int| 0 <= t < r.0.len() implies safe(#[trigger] r.0[t]) by {
                    if t > 0 {
                        assert(r.0[t] == cs[i + t]);
                    }
                }
            } else {
                let rest = upd_list(cs, i + 1, target, out, w.1);
                lemma_upd_list_keeps(cs, i + 1, target, out, w.1);
                assert(r.0 == seq![w.0] + rest.0);
                assert(r.0[0] == w.0);
                lemma_code_suffix(seq![w.0], rest.0, 0);
                assert forall|t: int| 0 <= t < r.0.len() implies safe(#[trigger] r.0[t]) by {
                    if t > 0 {
                        assert(r.0[t] == rest.0[t - 1]);
                    }
                }
            }
        }
    }
}

/// Executable nodes are executable blocks.
pub proof fn lemma_code_le_blocks(n: Doc)
    ensures
        code_tree(n) <= crate::extract_code_blocks::blocks_tree(n).len(),
    decreases n, 0int,
{
    match n {
        Doc::Element { children, .. } => lemma_code_list_le_blocks(children, 0),
        _ => {},
    }
}

proof fn lemma_code_list_le_blocks(cs: Seq<Doc>, i: int)
    ensures
        code_list(cs, i) <= crate::extract_code_blocks::blocks_list(cs, i).len(),
    decreases cs, cs.len() - i,
{
    if 0 <= i < cs.len() {
        lemma_code_le_blocks(cs[i]);
        lemma_code_list_le_blocks(cs, i + 1);
    }
}

// ---------------------------------------------------------------------------
// Events of running blocks.

/// A running state with a line added: to what went to stderr or to stdout.
pub open spec fn with_line(st: StateView, line: Seq<char>, to_err: bool) -> StateView {
    match st {
        StateView::Running { out, err, start } => if to_err {
            StateView::Running { out, err: err.push(line), start }
        } else {
            StateView::Running { out: out.push(line), err, start }
        },
        _ => st,
    }
}

/// A node after a line printed by the block numbered `idx`: its output box,
/// unless an orphan, takes the line when running.
pub open spec fn node_with_line(n: RenderView, idx: int, line: Seq<char>, to_err: bool) -> RenderView {
    match n {
        RenderView::OutputBlock { code_index, state, is_orphan } => if code_index == idx && !is_orphan {
            RenderView::OutputBlock { code_index, state: with_line(state, line, to_err), is_orphan }
        } else {
            n
        },
        _ => n,
    }
}

/// The position of the last output box of the block numbered `idx` that is no orphan.
pub open spec fn last_live_box(v: Seq<RenderView>, idx: int) -> Option<int>
    decreases v.len(),
{
    if v.len() == 0 {
        None
    } else if v.last() matches RenderView::OutputBlock { code_index, is_orphan, .. } && code_index == idx && !is_orphan {
        Some(v.len() - 1)
    } else {
        last_live_box(v.drop_last(), idx)
    }
}

/// The state of a finished run, from the state before: completed with the
/// output, no previous output, the time the run took, and what went to
/// stderr (its lines joined), or failed with the output.
pub open spec fn finished(st: StateView, output: Seq<char>, success: bool, duration: core::time::Duration) -> StateView {
    if success {
        StateView::Completed {
            output,
            previous: None,
            duration,
            stderr: match st {
                StateView::Running { err, .. } => crate::tui::output_box::join(err, seq!['\n']),
                _ => Seq::empty(),
            },
        }
    } else {
        StateView::Failed { error: output }
    }
}

/// The state of an output box (pending for any other node).
pub open spec fn state_of(n: RenderView) -> StateView {
    match n {
        RenderView::OutputBlock { state, .. } => state,
        _ => StateView::Pending,
    }
}

/// A node with its output box state replaced.
pub open spec fn with_state(n: RenderView, st: StateView) -> RenderView {
    match n {
        RenderView::OutputBlock { code_index, is_orphan, .. } => RenderView::OutputBlock { code_index, state: st, is_orphan },
        _ => n,
    }
}

/// The document and nodes after the run of the block numbered `idx` ended
/// with `output`: when the block has an output box that is no orphan, the
/// output is written into the document, and its first output box takes the
/// finished state computed from its last such box.
pub open spec fn completed_nodes(v: Seq<RenderView>, idx: int, output: Seq<char>, success: bool, duration: core::time::Duration) -> Seq<RenderView> {
    match last_live_box(v, idx) {
        None => v,
        Some(m) => match first_box_of(v, idx, 0) {
            Some(f) => v.update(f, with_state(v[f], finished(state_of(v[m]), output, success, duration))),
            None => v,
        },
    }
}

proof fn lemma_last_live_box(v: Seq<RenderView>, idx: int)
    ensures
        last_live_box(v, idx) matches Some(m) ==> 0 <= m < v.len() && (v[m] matches RenderView::OutputBlock { code_index, is_orphan, .. } && code_index == idx && !is_orphan),
        last_live_box(v, idx) matches Some(m) ==> first_box_of(v, idx, 0) is Some,
    decreases v.len(),
{
    if v.len() > 0 {
        lemma_last_live_box(v.drop_last(), idx);
        if let Some(m) = last_live_box(v, idx) {
            lemma_first_box_exists(v, idx, 0, m);
        }
    }
}

proof fn lemma_first_box_exists(v: Seq<RenderView>, idx: int, i: int, m: int)
    requires
        0 <= i <= m < v.len(),
        v[m] matches RenderView::OutputBlock { code_index, .. } && code_index == idx,
    ensures
        first_box_of(v, idx, i) matches Some(f) && i <= f <= m,
    decreases m - i,
{
    if i < m && !(v[i] matches RenderView::OutputBlock { code_index, .. } && code_index == idx) {
        lemma_first_box_exists(v, idx, i + 1, m);
    }
}

proof fn lemma_first_box_of_bounds(v: Seq<RenderView>, idx: int, i: int)
    requires
        0 <= i,
    ensures
        first_box_of(v, idx, i) matches Some(f) ==> i <= f < v.len() && (v[f] matches RenderView::OutputBlock { code_index, .. } && code_index == idx),
    decreases v.len() - i,
{
    if i < v.len() {
        lemma_first_box_of_bounds(v, idx, i + 1);
    }
}

fn node_add_line(node: RenderNode, idx: usize, line: &str, to_err: bool) -> (r: RenderNode)
    ensures
        r@ == node_with_line(node@, idx as int, line@, to_err),
{
    match node {
        RenderNode::OutputBlock { code_index, state, is_orphan } => {
            if code_index == idx && !is_orphan {
                let st = match state {
                    OutputState::Running { mut live_lines, mut stderr_lines, start } => {
                        let l = crate::text::to_owned_string(line);
                        let ghost o = live_lines@;
                        let ghost e = stderr_lines@;
                        if to_err {
                            stderr_lines.push_back(l);
                            assert(crate::tui::output_box::deque_strings(stderr_lines) =~= crate::tui::output_box::deque_strings(
                                OutputState::Running { live_lines: live_lines, stderr_lines: stderr_lines, start }->stderr_lines)) by {}
                        } else {
                            live_lines.push_back(l);
                        }
                        proof {
                            assert(crate::fill_output_blocks::strings(e.push(l)) =~= crate::fill_output_blocks::strings(e).push(line@));
                            assert(crate::fill_output_blocks::strings(o.push(l)) =~= crate::fill_output_blocks::strings(o).push(line@));
                        }
                        OutputState::Running { live_lines, stderr_lines, start }
                    },
                    other => other,
                };
                RenderNode::OutputBlock { code_index, state: st, is_orphan }
            } else {
                RenderNode::OutputBlock { code_index, state, is_orphan }
            }
        },
        other => other,
    }
}

impl TuiApp {
    /// The document is safe to read, and its executable nodes can be
    /// counted in `usize`.
    pub open spec fn wf(&self) -> bool {
        &&& safe(self.ast@)
        &&& code_tree(self.ast@) <= usize::MAX
    }

    /// Writes the output of the block numbered `target_code_index` into the
    /// document (see `upd_tree`).
    pub fn update_ast_output(&mut self, target_code_index: usize, output: &str)
        requires
            old(self).wf(),
        ensures
            final(self).ast@ == upd_tree(old(self).ast@, target_code_index as int, output@, 0).0,
            final(self).wf(),
            final(self).nodes@ == old(self).nodes@,
            final(self).scroll == old(self).scroll,
            final(self).output_types@ == old(self).output_types@,
            final(self).running == old(self).running,
            final(self).quit == old(self).quit,
            final(self).aborted == old(self).aborted,
            final(self).modal == old(self).modal,
            final(self).modal_scroll == old(self).modal_scroll,
    {
        let mut ast = MdNode::Html { value: String::new() };
        std::mem::swap(&mut ast, &mut self.ast);
        let mut idx: usize = 0;
        proof {
            lemma_upd_keeps(ast@, target_code_index as int, output@, 0);
        }
        let (new_ast, _found) = walk_node(ast, target_code_index, output, &mut idx);
        self.ast = new_ast;
    }

    /// What an event of the run of the block numbered `idx` does: a printed
    /// line goes into the block's running output boxes (see
    /// `node_with_line`); the end of the run writes the output into the
    /// document and finishes the block's output box (see `completed_nodes`).
    pub fn handle_execution_event(&mut self, idx: usize, event: ExecutionEvent)
        requires
            old(self).wf(),
        ensures
            final(self).wf(),
            final(self).scroll == old(self).scroll,
            final(self).output_types@ == old(self).output_types@,
            final(self).running == old(self).running,
            final(self).quit == old(self).quit,
            final(self).aborted == old(self).aborted,
            final(self).modal == old(self).modal,
            final(self).modal_scroll == old(self).modal_scroll,
            ({
                let v = render_views(old(self).nodes@);
                match event {
                    ExecutionEvent::Started => render_views(final(self).nodes@) == v && final(self).ast == old(self).ast,
                    ExecutionEvent::StdoutLine(l) => render_views(final(self).nodes@) == Seq::new(
                        v.len(),
                        |i: int| node_with_line(v[i], idx as int, l@, false),
                    ) && final(self).ast == old(self).ast,
                    ExecutionEvent::StderrLine(l) => render_views(final(self).nodes@) == Seq::new(
                        v.len(),
                        |i: int| node_with_line(v[i], idx as int, l@, true),
                    ) && final(self).ast == old(self).ast,
                    ExecutionEvent::Completed { output, success, duration } => {
                        &&& render_views(final(self).nodes@) == completed_nodes(v, idx as int, output@, success, duration)
                        &&& final(self).ast@ == if last_live_box(v, idx as int) is Some {
                            upd_tree(old(self).ast@, idx as int, output@, 0).0
                        } else {
                            old(self).ast@
                        }
                    },
                }
            }),
    {
        let ghost v = render_views(self.nodes@);
        match event {
            ExecutionEvent::Started => {},
            ExecutionEvent::StdoutLine(line) => {
                self.add_line(idx, line.as_str(), false);
            },
            ExecutionEvent::StderrLine(line) => {
                self.add_line(idx, line.as_str(), true);
            },
            ExecutionEvent::Completed { output, success, duration } => {
                let mut last: Option<usize> = None;
                let mut i: usize = 0;
                while i < self.nodes.len()
                    invariant
                        i <= self.nodes@.len(),
                        v == render_views(self.nodes@),
                        match last {
                            Some(m) => m < i && last_live_box(v.take(i as int), idx as int) == Some(m as int),
                            None => last_live_box(v.take(i as int), idx as int) is None,
                        },
                    decreases self.nodes@.len() - i,
                {
                    proof {
                        assert(v.take(i + 1).drop_last() =~= v.take(i as int));
                        assert(v.take(i + 1).last() == v[i as int]);
                    }
                    match &self.nodes[i] {
                        RenderNode::OutputBlock { code_index, is_orphan, .. } => {
                            if *code_index == idx && !*is_orphan {
                                last = Some(i);
                            }
                        },
                        _ => {},
                    }
                    i += 1;
                }
                assert(v.take(self.nodes@.len() as int) =~= v);
                proof {
                    lemma_last_live_box(v, idx as int);
                }
                if let Some(m) = last {
                    let stderr = match &self.nodes[m] {
                        RenderNode::OutputBlock { state: OutputState::Running { stderr_lines, .. }, .. } => {
                            crate::tui::output_box::join_lines(&crate::tui::output_box::deque_to_vec(stderr_lines))
                        },
                        _ => String::new(),
                    };
                    assert(v[m as int] == self.nodes@[m as int]@);
                    let new_state = if success {
                        OutputState::Completed { output: output.clone(), previous_output: None, duration, stderr }
                    } else {
                        OutputState::Failed { error: output.clone() }
                    };
                    assert(new_state@ == finished(state_of(v[m as int]), output@, success, duration));
                    self.update_ast_output(idx, output.as_str());
                    let mut f: usize = 0;
                    proof {
                        lemma_first_box_of_bounds(v, idx as int, 0);
                    }
                    while f < self.nodes.len()
                        invariant
                            f <= self.nodes@.len(),
                            v == render_views(self.nodes@),
                            first_box_of(v, idx as int, 0) == first_box_of(v, idx as int, f as int),
                            first_box_of(v, idx as int, 0) is Some,
                        ensures
                            f < self.nodes@.len(),
                            first_box_of(v, idx as int, 0) == Some(f as int),
                        decreases self.nodes@.len() - f,
                    {
                        let hit = match &self.nodes[f] {
                            RenderNode::OutputBlock { code_index, .. } => *code_index == idx,
                            _ => false,
                        };
                        assert(v[f as int] == self.nodes@[f as int]@);
                        if hit {
                            assert(first_box_of(v, idx as int, f as int) == Some(f as int));
                            break;
                        }
                        f += 1;
                    }
                    proof {
                        lemma_first_box_of_bounds(v, idx as int, f as int);
                    }
                    assert(first_box_of(v, idx as int, 0) == Some(f as int));
                    let (ci, orphan) = match &self.nodes[f] {
                        RenderNode::OutputBlock { code_index, is_orphan, .. } => (*code_index, *is_orphan),
                        _ => (0, false),
                    };
                    let ghost before = self.nodes@;
                    self.nodes.set(f, RenderNode::OutputBlock { code_index: ci, state: new_state, is_orphan: orphan });
                    assert(render_views(self.nodes@) =~= completed_nodes(v, idx as int, output@, success, duration));
                } else {
                }
            },
        }
    }

    fn add_line(&mut self, idx: usize, line: &str, to_err: bool)
        ensures
            render_views(final(self).nodes@) == Seq::new(
                render_views(old(self).nodes@).len(),
                |i: int| node_with_line(render_views(old(self).nodes@)[i], idx as int, line@, to_err),
            ),
            final(self).ast == old(self).ast,
            final(self).scroll == old(self).scroll,
            final(self).output_types@ == old(self).output_types@,
            final(self).running == old(self).running,
            final(self).quit == old(self).quit,
            final(self).aborted == old(self).aborted,
            final(self).modal == old(self).modal,
            final(self).modal_scroll == old(self).modal_scroll,
    {
        let ghost v = render_views(self.nodes@);
        let mut nodes: Vec<RenderNode> = Vec::new();
        std::mem::swap(&mut nodes, &mut self.nodes);
        let ghost n0 = nodes@;
        let mut result: Vec<RenderNode> = Vec::new();
        let ghost mut pos: int = 0;
        for node in it: nodes.into_iter()
            invariant
                it.seq() == n0,
                pos == it.index(),
                v == render_views(n0),
                render_views(result@) == Seq::new(pos as nat, |i: int| node_with_line(v[i], idx as int, line@, to_err)),
        {
            assert(node == n0[pos]);
            assert(v[pos] == node@);
            let ghost rb = result@;
            let nn = node_add_line(node, idx, line, to_err);
            result.push(nn);
            assert(result@ == rb.push(nn));
            assert(render_views(result@) =~= render_views(rb).push(nn@));
            proof {
                assert(render_views(result@) =~= Seq::new((pos + 1) as nat, |i: int| node_with_line(v[i], idx as int, line@, to_err)));
                pos = pos + 1;
            }
        }
        self.nodes = result;
    }
}

// ---------------------------------------------------------------------------
// Building the view, starting the runs, and the document it leaves.

/// The executable blocks among `v[i..]`: number, language and code, in order.
pub open spec fn exec_list(v: Seq<RenderView>, i: int) -> Seq<(int, Seq<char>, Seq<char>)>
    decreases v.len() - i,
{
    if i < 0 || i >= v.len() {
        Seq::empty()
    } else {
        (match v[i] {
            RenderView::ExecutableCode { index, lang, code, .. } => seq![(index, lang, code)],
            _ => Seq::empty(),
        }) + exec_list(v, i + 1)
    }
}

/// The plain contents of a list of (number, language, code).
pub open spec fn triples_view(t: Seq<(usize, String, String)>) -> Seq<(int, Seq<char>, Seq<char>)> {
    t.map_values(|x: (usize, String, String)| (x.0 as int, x.1@, x.2@))
}

impl TuiApp {
    /// The view of a document tree: an output node after every executable
    /// node (see `wo_tree`), the render nodes of the result with the orphans
    /// found (see `collect_tree`), scrolled to the top, nothing running yet.
    /// `None` when the document holds an HTML comment that cannot be read as
    /// a hidden exec comment (`<!-->`, `<!--->`).
    pub fn from_document(ast: MdNode) -> (r: Option<TuiApp>)
        ensures
            r is Some <==> safe(ast@),
            r matches Some(app) ==> {
                &&& app.wf()
                &&& app.ast@ == wo_tree(ast@).0
                &&& render_views(app.nodes@) == collect_tree(wo_tree(ast@).0, 0, true).0
                &&& app.scroll.offset == 0
                &&& app.scroll.focused_index == 0
                &&& app.output_types@ == Map::<usize, OutputType>::empty()
                &&& !app.running && !app.quit && !app.aborted
                &&& app.modal == ModalView::Closed
                &&& app.modal_scroll == 0
            },
    {
        if !crate::literate_docs::is_safe_document(&ast) {
            return None;
        }
        let info = crate::with_output_nodes::with_output_nodes(&ast);
        proof {
            crate::with_output_nodes::lemma_wo_safe(ast@);
        }
        let blocks = crate::extract_code_blocks::extract_executable_code_blocks(&info.ast);
        // The blocks are held in a vector, so how many there are fits in a `usize`.
        let _count: usize = blocks.len();
        proof {
            assert(crate::extract_code_blocks::block_views(blocks@).len() == blocks@.len());
            lemma_code_le_blocks(info.ast@);
            if info.ast@ is Element {
                assert(crate::extract_code_blocks::block_seq(info.ast@).len() == 0);
            } else {
                assert(crate::extract_code_blocks::blocks_tree(info.ast@).len() == 0);
            }
        }
        let nodes = crate::tui::render::build_render_nodes(&info.ast, &info.orphans);
        Some(TuiApp {
            ast: info.ast,
            nodes,
            scroll: ScrollState::new(),
            output_types: HashMap::new(),
            running: false,
            quit: false,
            aborted: false,
            modal: ModalView::Closed,
            modal_scroll: 0,
        })
    }

    /// The view of a markdown text (see `from_document`).
    pub fn new(input: &str, _previous_content: Option<&str>) -> (r: Option<TuiApp>)
        ensures
            r is Some <==> safe(crate::parse_markdown::markdown_doc(input@)),
            r matches Some(app) ==> {
                &&& app.wf()
                &&& app.ast@ == wo_tree(crate::parse_markdown::markdown_doc(input@)).0
                &&& render_views(app.nodes@) == collect_tree(wo_tree(crate::parse_markdown::markdown_doc(input@)).0, 0, true).0
                &&& app.scroll.offset == 0
                &&& app.scroll.focused_index == 0
                &&& app.output_types@ == Map::<usize, OutputType>::empty()
                &&& !app.running && !app.quit && !app.aborted
                &&& app.modal == ModalView::Closed
                &&& app.modal_scroll == 0
            },
    {
        TuiApp::from_document(crate::parse_markdown::parse_markdown(input))
    }

    /// The executable blocks of the view, in order: number, language and code.
    pub fn exec_codes(&self) -> (r: Vec<(usize, String, String)>)
        ensures
            triples_view(r@) == exec_list(render_views(self.nodes@), 0),
    {
        let ghost v = render_views(self.nodes@);
        let mut r: Vec<(usize, String, String)> = Vec::new();
        let mut i: usize = 0;
        assert(triples_view(r@) + exec_list(v, 0) =~= exec_list(v, 0));
        while i < self.nodes.len()
            invariant
                i <= self.nodes@.len(),
                v == render_views(self.nodes@),
                triples_view(r@) + exec_list(v, i as int) == exec_list(v, 0),
            decreases self.nodes@.len() - i,
        {
            let ghost before = triples_view(r@);
            assert(v[i as int] == self.nodes@[i as int]@);
            match &self.nodes[i] {
                RenderNode::ExecutableCode { index, lang, code, .. } => {
                    let t = (*index, crate::text::to_owned_string(lang.as_str()), crate::text::to_owned_string(code.as_str()));
                    let ghost rb = r@;
                    r.push(t);
                    assert(r@ == rb.push(t));
                    assert(triples_view(r@) =~= before.push((*index as int, lang@, code@)));
                },
                _ => {},
            }
            assert(triples_view(r@) + exec_list(v, i + 1) =~= before + exec_list(v, i as int));
            i += 1;
        }
        assert(triples_view(r@) + exec_list(v, i as int) =~= triples_view(r@));
        r
    }

    /// Marks the run of the block numbered `idx` as started at `start`: its
    /// first output box becomes running, with no lines yet.
    pub fn mark_running(&mut self, idx: usize, start: std::time::Instant)
        requires
            old(self).wf(),
        ensures
            final(self).wf(),
            final(self).ast == old(self).ast,
            render_views(final(self).nodes@) == match first_box_of(render_views(old(self).nodes@), idx as int, 0) {
                Some(f) => render_views(old(self).nodes@).update(
                    f,
                    with_state(render_views(old(self).nodes@)[f], StateView::Running { out: Seq::empty(), err: Seq::empty(), start }),
                ),
                None => render_views(old(self).nodes@),
            },
            final(self).scroll == old(self).scroll,
            final(self).output_types@ == old(self).output_types@,
            final(self).running == old(self).running,
            final(self).quit == old(self).quit,
            final(self).aborted == old(self).aborted,
            final(self).modal == old(self).modal,
            final(self).modal_scroll == old(self).modal_scroll,
    {
        let ghost v = render_views(self.nodes@);
        proof {
            lemma_first_box_of_bounds(v, idx as int, 0);
        }
        match self.first_box_index(idx) {
            Some(f) => {
                assert(v[f as int] == self.nodes@[f as int]@);
                let orphan = match &self.nodes[f] {
                    RenderNode::OutputBlock { is_orphan, .. } => *is_orphan,
                    _ => false,
                };
                let st = OutputState::Running { live_lines: std::collections::VecDeque::new(), stderr_lines: std::collections::VecDeque::new(), start };
                assert(st@ == StateView::Running { out: Seq::empty(), err: Seq::empty(), start }) by {
                    assert(crate::fill_output_blocks::strings(Seq::<String>::empty()) =~= Seq::<Seq<char>>::empty());
                }
                let ghost before = self.nodes@;
                let nn = RenderNode::OutputBlock { code_index: idx, state: st, is_orphan: orphan };
                assert(nn@ == with_state(v[f as int], StateView::Running { out: Seq::empty(), err: Seq::empty(), start }));
                self.nodes.set(f, nn);
                assert(self.nodes@ == before.update(f as int, nn));
                assert(render_views(self.nodes@) =~= v.update(f as int, with_state(v[f as int], StateView::Running { out: Seq::empty(), err: Seq::empty(), start })));
            },
            None => {},
        }
    }

    /// The position of the first output box of the block numbered `idx`.
    pub fn first_box_index(&self, idx: usize) -> (r: Option<usize>)
        ensures
            match first_box_of(render_views(self.nodes@), idx as int, 0) {
                Some(f) => r matches Some(g) && g as int == f && f < self.nodes@.len(),
                None => r is None,
            },
    {
        let ghost v = render_views(self.nodes@);
        let mut f: usize = 0;
        proof {
            lemma_first_box_of_bounds(v, idx as int, 0);
        }
        while f < self.nodes.len()
            invariant
                f <= self.nodes@.len(),
                v == render_views(self.nodes@),
                first_box_of(v, idx as int, 0) == first_box_of(v, idx as int, f as int),
            decreases self.nodes@.len() - f,
        {
            assert(v[f as int] == self.nodes@[f as int]@);
            let hit = match &self.nodes[f] {
                RenderNode::OutputBlock { code_index, .. } => *code_index == idx,
                _ => false,
            };
            if hit {
                return Some(f);
            }
            f += 1;
        }
        None
    }

    /// The document the view leaves: `None` when the user aborted, otherwise
    /// the document with the outputs written so far and the orphan outputs
    /// removed (see `clean_tree`).
    pub fn finish(self) -> (r: Option<MdNode>)
        requires
            self.wf(),
        ensures
            match r {
                Some(t) => !self.aborted && t@ == crate::output_node::clean_tree(self.ast@),
                None => self.aborted,
            },
    {
        if self.aborted {
            None
        } else {
            Some(crate::output_node::clean_orphans(self.ast))
        }
    }
}

// ---------------------------------------------------------------------------
// Laying out a frame.

/// Where a node is drawn in a frame: its position among the nodes, its top
/// row and height, how many of its own lines are scrolled away above, and
/// whether it holds the focus.
#[derive(Debug, Clone, Copy, PartialEq, Eq, Structural)]
pub struct Placement {
    pub node: usize,
    pub y: u16,
    pub height: u16,
    pub skip: usize,
    pub focused: bool,
}

/// The placements of the nodes `v[i..]`, the node `i` starting at line
/// `cur` of the whole view after `obi` output boxes, for a frame `height`
/// rows high showing the view from line `offset`. A node that ends above
/// the frame is skipped; a node starting at a row at or past the frame's
/// height (rows counted in `u16`, as the frame does) is skipped; any other
/// node is drawn at its row, as high as its lines left after those scrolled
/// away and the rows left allow, when that is at least one row. A node is
/// focused when the output boxes before it number the focused index.
pub open spec fn plan_list(
    v: Seq<RenderView>,
    w: int,
    i: int,
    cur: int,
    obi: int,
    offset: int,
    height: int,
    focused_index: int,
) -> Seq<Placement>
    decreases v.len() - i,
{
    if i < 0 || i >= v.len() {
        Seq::empty()
    } else {
        let nl = spec_node_lines(v[i], w);
        let obi2 = if v[i] is OutputBlock { obi + 1 } else { obi };
        let rest = plan_list(v, w, i + 1, cur + nl, obi2, offset, height, focused_index);
        if cur + nl <= offset {
            rest
        } else {
            let skip = minus(offset, cur);
            let row = (minus(cur, offset) as u16) as int;
            let remaining = minus(height, row);
            if remaining == 0 {
                rest
            } else {
                let visible = minus(nl, skip);
                let h = if visible < remaining { visible } else { remaining };
                if h > 0 && cur < offset + height && row < height {
                    seq![Placement { node: i as usize, y: row as u16, height: h as u16, skip: skip as usize, focused: focused_index == obi }]
                        + rest
                } else {
                    rest
                }
            }
        }
    }
}

/// The first line of the view a frame `height` rows high shows: the scroll
/// offset, but no further than the view's lines less the height.
pub open spec fn frame_offset(v: Seq<RenderView>, w: int, scroll_offset: int, height: int) -> int {
    let max_offset = minus(spec_total_lines(v, w), height);
    if scroll_offset < max_offset { scroll_offset } else { max_offset }
}

impl TuiApp {
    /// Where each node is drawn in a frame `width` columns wide and `height`
    /// rows high (see `plan_list`, `frame_offset`).
    pub fn plan_frame(&self, width: u16, height: u16) -> (r: Vec<Placement>)
        requires
            lines_fit(render_views(self.nodes@), width as int),
            lines_sum(render_views(self.nodes@), width as int) + 65536 <= usize::MAX,
        ensures
            r@ == plan_list(
                render_views(self.nodes@),
                width as int,
                0,
                0,
                0,
                frame_offset(render_views(self.nodes@), width as int, self.scroll.offset as int, height as int),
                height as int,
                self.scroll.focused_index as int,
            ),
    {
        let ghost v = render_views(self.nodes@);
        let ghost w = width as int;
        let total = self.total_rendered_lines(width as usize);
        let h: usize = height as usize;
        let max_offset: usize = if total >= h { total - h } else { 0 };
        let offset: usize = if self.scroll.offset < max_offset { self.scroll.offset } else { max_offset };
        let ghost target = plan_list(v, w, 0, 0, 0, offset as int, h as int, self.scroll.focused_index as int);
        let mut r: Vec<Placement> = Vec::new();
        let mut current_line: usize = 0;
        let mut output_box_index: usize = 0;
        let mut i: usize = 0;
        proof {
            lemma_lines_sum_prefix(v, w, 0);
            lemma_lines_sum_nonneg(v, w);
            assert(v.take(0) =~= Seq::<RenderView>::empty());
        }
        while i < self.nodes.len()
            invariant
                i <= self.nodes@.len(),
                v == render_views(self.nodes@),
                w == width as int,
                lines_fit(v, w),
                lines_sum(v, w) + 65536 <= usize::MAX,
                current_line == lines_sum(v.take(i as int), w),
                output_box_index <= i,
                offset <= total,
                total == spec_total_lines(v, w),
                total <= lines_sum(v, w) + 1,
                h == height as usize,
                h <= 65535,
                r@ + plan_list(v, w, i as int, current_line as int, output_box_index as int, offset as int, h as int, self.scroll.focused_index as int) == target,
            decreases self.nodes@.len() - i,
        {
            proof {
                lemma_lines_sum_prefix(v, w, i + 1);
                let t = v.take(i + 1);
                assert(t.drop_last() =~= v.take(i as int));
                assert(t.last() == v[i as int]);
                assert(node_lines_fit(v[i as int]));
                assert(v[i as int] == self.nodes@[i as int]@);
            }
            let node_lines = node_lines(&self.nodes[i], width as usize);
            let is_box = match &self.nodes[i] {
                RenderNode::OutputBlock { .. } => true,
                _ => false,
            };
            let next_box: usize = if is_box { output_box_index + 1 } else { output_box_index };
            let ghost before = r@;
            if current_line + node_lines > offset {
                let skip: usize = if offset > current_line { offset - current_line } else { 0 };
                let rel: usize = if current_line >= offset { current_line - offset } else { 0 };
                let row: u16 = rel as u16;
                let remaining: usize = if height >= row { (height - row) as usize } else { 0 };
                if remaining > 0 {
                    let visible: usize = if node_lines >= skip { node_lines - skip } else { 0 };
                    let hh: usize = if visible < remaining { visible } else { remaining };
                    if hh > 0 && current_line < offset + h && row < height {
                        r.push(Placement {
                            node: i,
                            y: row,
                            height: hh as u16,
                            skip,
                            focused: self.scroll.focused_index == output_box_index,
                        });
                    }
                }
            }
            proof {
                assert(r@ + plan_list(v, w, i + 1, current_line + node_lines, next_box as int, offset as int, h as int, self.scroll.focused_index as int)
                    =~= before + plan_list(v, w, i as int, current_line as int, output_box_index as int, offset as int, h as int, self.scroll.focused_index as int));
            }
            current_line = current_line + node_lines;
            output_box_index = next_box;
            i += 1;
        }
        assert(r@ + plan_list(v, w, i as int, current_line as int, output_box_index as int, offset as int, h as int, self.scroll.focused_index as int) =~= r@);
        r
    }

    /// How many output boxes have finished (completed or failed), and how many there are.
    pub fn box_counts(&self) -> (r: (usize, usize))
        ensures
            r.0 == finished_boxes(render_views(self.nodes@)),
            r.1 == ob_positions(render_views(self.nodes@), 0).len(),
    {
        let ghost v = render_views(self.nodes@);
        let mut done: usize = 0;
        let mut total: usize = 0;
        let mut i: usize = 0;
        while i < self.nodes.len()
            invariant
                i <= self.nodes@.len(),
                v == render_views(self.nodes@),
                done == finished_boxes(v.take(i as int)),
                total + ob_positions(v, i as int).len() == ob_positions(v, 0).len(),
                done <= i,
                total <= i,
            decreases self.nodes@.len() - i,
        {
            assert(v[i as int] == self.nodes@[i as int]@);
            assert(v.take(i + 1).drop_last() =~= v.take(i as int));
            assert(v.take(i + 1).last() == v[i as int]);
            match &self.nodes[i] {
                RenderNode::OutputBlock { state, .. } => {
                    total = total + 1;
                    match state {
                        OutputState::Completed { .. } | OutputState::Failed { .. } => {
                            done = done + 1;
                        },
                        _ => {},
                    }
                },
                _ => {},
            }
            i += 1;
        }
        assert(v.take(self.nodes@.len() as int) =~= v);
        (done, total)
    }
}

/// The number of output boxes of `v` whose run has finished (completed or failed).
pub open spec fn finished_boxes(v: Seq<RenderView>) -> int
    decreases v.len(),
{
    if v.len() == 0 {
        0
    } else {
        finished_boxes(v.drop_last()) + (if v.last() matches RenderView::OutputBlock { state, .. } && (state is Completed || state is Failed) { 1int } else { 0int })
    }
}

// ---------------------------------------------------------------------------
// The lines of text and code nodes.

/// The pieces of `s` between its `\n`s (`str::split('\n')`): one more than
/// the number of `\n`, empty pieces included.
pub open spec fn split_parts(s: Seq<char>) -> Seq<Seq<char>>
    decreases s.len(),
{
    match crate::text::find_from(s, seq!['\n'], 0) {
        Some(i) => if 0 <= i < s.len() {
            seq![s.subrange(0, i)] + split_parts(s.subrange(i + 1, s.len() as int))
        } else {
            seq![s]
        },
        None => seq![s],
    }
}

/// The lines after the pieces `parts[j..]` of a span in style `style` are
/// added: each piece after the first starts a new line; a piece goes into the
/// last line when it is not empty, or when it is the span's only piece.
pub open spec fn add_parts(lines: Seq<Seq<SpanView>>, parts: Seq<Seq<char>>, j: int, style: crate::tui::render::Style) -> Seq<Seq<SpanView>>
    decreases parts.len() - j,
{
    if j < 0 || j >= parts.len() {
        lines
    } else {
        let l1 = if j > 0 { lines.push(Seq::empty()) } else { lines };
        let l2 = if parts[j].len() > 0 || (j == 0 && parts.len() == 1) {
            l1.update(l1.len() - 1, l1.last().push(SpanView { content: parts[j], style }))
        } else {
            l1
        };
        add_parts(l2, parts, j + 1, style)
    }
}

/// The lines of a list of spans cut at their newlines (see `add_parts`),
/// starting from one empty line.
pub open spec fn split_lines_of(spans: Seq<SpanView>) -> Seq<Seq<SpanView>>
    decreases spans.len(),
{
    if spans.len() == 0 {
        seq![Seq::empty()]
    } else {
        add_parts(split_lines_of(spans.drop_last()), split_parts(spans.last().content), 0, spans.last().style)
    }
}

/// The pieces of `s` between its newlines (see `split_parts`).
pub fn split_on_newline(s: &str) -> (r: Vec<String>)
    ensures
        r@.map_values(|x: String| x@) == split_parts(s@),
{
    let v = chars_of(s);
    let ghost sv = s@;
    let mut r: Vec<String> = Vec::new();
    let mut start: usize = 0;
    let mut i: usize = 0;
    assert(sv.subrange(0, sv.len() as int) =~= sv);
    assert(r@.map_values(|x: String| x@) + split_parts(sv) =~= split_parts(sv));
    while i < v.len()
        invariant
            start <= i <= v.len(),
            v@ == sv,
            r@.map_values(|x: String| x@) + split_parts(sv.subrange(start as int, sv.len() as int)) == split_parts(sv),
            forall|k: int| start <= k < i ==> sv[k] != '\n',
        decreases v.len() - i,
    {
        if v[i] == '\n' {
            let ghost sub = sv.subrange(start as int, sv.len() as int);
            proof {
                crate::text::lemma_find_newline(sub, 0, i - start);
                assert(sub.subrange(0, i - start) =~= sv.subrange(start as int, i as int));
                assert(sub.subrange(i - start + 1, sub.len() as int) =~= sv.subrange(i + 1, sv.len() as int));
            }
            let piece = crate::text::string_of(&v, start, i);
            let ghost before = r@;
            r.push(piece);
            assert(r@.map_values(|x: String| x@) =~= before.map_values(|x: String| x@).push(piece@));
            assert(r@.map_values(|x: String| x@) + split_parts(sv.subrange(i + 1, sv.len() as int)) =~= before.map_values(|x: String| x@) + split_parts(sub));
            start = i + 1;
        }
        i += 1;
    }
    let ghost sub = sv.subrange(start as int, sv.len() as int);
    proof {
        crate::text::lemma_find_no_newline(sub, 0);
    }
    let piece = crate::text::string_of(&v, start, v.len());
    let ghost before = r@;
    r.push(piece);
    assert(r@.map_values(|x: String| x@) =~= before.map_values(|x: String| x@).push(piece@));
    assert(r@.map_values(|x: String| x@) =~= before.map_values(|x: String| x@) + split_parts(sub));
    r
}

/// The lines of a list of spans cut at their newlines (see `split_lines_of`).
pub fn split_spans_on_newlines(spans: &Vec<StyledSpan>) -> (r: Vec<Vec<StyledSpan>>)
    ensures
        lines_view(r@) == split_lines_of(span_views(spans@)),
{
    let ghost sv = span_views(spans@);
    let mut lines: Vec<Vec<StyledSpan>> = Vec::new();
    lines.push(Vec::new());
    assert(lines_view(lines@) =~= seq![Seq::<SpanView>::empty()]) by {
        assert(span_views(Seq::<StyledSpan>::empty()) =~= Seq::<SpanView>::empty());
    }
    assert(sv.take(0) =~= Seq::<SpanView>::empty());
    let mut k: usize = 0;
    while k < spans.len()
        invariant
            k <= spans@.len(),
            sv == span_views(spans@),
            lines@.len() > 0,
            lines_view(lines@) == split_lines_of(sv.take(k as int)),
        decreases spans@.len() - k,
    {
        let parts = split_on_newline(spans[k].content.as_str());
        let style = spans[k].style;
        let ghost ps = parts@.map_values(|x: String| x@);
        let ghost l0 = lines_view(lines@);
        assert(ps.len() == parts@.len());
        let mut j: usize = 0;
        while j < parts.len()
            invariant
                j <= parts@.len(),
                ps == parts@.map_values(|x: String| x@),
                ps.len() == parts@.len(),
                lines@.len() > 0,
                add_parts(lines_view(lines@), ps, j as int, style) == add_parts(l0, ps, 0, style),
            decreases parts@.len() - j,
        {
            let ghost cur = lines_view(lines@);
            if j > 0 {
                let ghost lb = lines@;
                let fresh: Vec<StyledSpan> = Vec::new();
                lines.push(fresh);
                assert(lines_view(lines@) =~= cur.push(Seq::empty())) by {
                    assert(lines@ == lb.push(fresh));
                    assert(span_views(fresh@) =~= Seq::<SpanView>::empty());
                }
            }
            let ghost l1 = lines_view(lines@);
            if !parts[j].as_str().is_empty() || (j == 0 && parts.len() == 1) {
                let ghost lb = lines@;
                let mut last = lines.pop().unwrap();
                let ghost lastb = last@;
                assert(last == lb.last());
                last.push(StyledSpan { content: crate::text::to_owned_string(parts[j].as_str()), style });
                lines.push(last);
                assert(lines@ == lb.drop_last().push(last));
                assert(span_views(last@) =~= span_views(lastb).push(SpanView { content: ps[j as int], style }));
                assert(lines_view(lines@) =~= l1.update(l1.len() - 1, l1.last().push(SpanView { content: ps[j as int], style })));
            }
            j += 1;
        }
        proof {
            let t = sv.take(k + 1);
            assert(t.drop_last() =~= sv.take(k as int));
            assert(t.last() == sv[k as int]);
            assert(sv[k as int] == spans@[k as int]@);
        }
        k += 1;
    }
    assert(sv.take(spans@.len() as int) =~= sv);
    lines
}

/// The lines of a text node, the `index`-th node of the view: a heading
/// starts with as many `#` as its level and a space, in bold, and has an
/// empty line above it unless it is the first node; the spans are cut at
/// their newlines (see `split_lines_of`).
pub open spec fn text_lines_spec(content: Seq<SpanView>, kind: TextKind, index: int) -> Seq<Seq<SpanView>> {
    let prefix = match kind {
        TextKind::Heading(level) => seq![
            SpanView {
                content: Seq::new(level as nat, |k: int| '#').push(' '),
                style: crate::tui::render::Style { bold: true, ..crate::tui::render::plain_style() },
            },
        ],
        _ => Seq::empty(),
    };
    let ls = split_lines_of(prefix + content);
    if kind is Heading && index > 0 {
        seq![Seq::empty()] + ls
    } else {
        ls
    }
}

/// The lines of a text node (see `text_lines_spec`).
pub fn text_node_lines(content: &Vec<StyledSpan>, kind: TextKind, index: usize) -> (r: Vec<Vec<StyledSpan>>)
    ensures
        lines_view(r@) == text_lines_spec(span_views(content@), kind, index as int),
{
    let mut spans: Vec<StyledSpan> = Vec::new();
    match kind {
        TextKind::Heading(level) => {
            let mut p = String::new();
            let mut k: u16 = 0;
            while k < level
                invariant
                    k <= level,
                    p@ == Seq::new(k as nat, |j: int| '#'),
                decreases level - k,
            {
                crate::text::push_char(&mut p, '#');
                assert(p@ =~= Seq::new((k + 1) as nat, |j: int| '#'));
                k += 1;
            }
            crate::text::push_char(&mut p, ' ');
            spans.push(StyledSpan { content: p, style: crate::tui::render::Style::new().with_bold() });
        },
        _ => {},
    }
    let ghost prefix = span_views(spans@);
    let mut i: usize = 0;
    while i < content.len()
        invariant
            i <= content@.len(),
            span_views(spans@) == prefix + span_views(content@).take(i as int),
        decreases content@.len() - i,
    {
        let ghost sb = spans@;
        let c = content[i].clone_span();
        spans.push(c);
        assert(spans@ == sb.push(c));
        assert(span_views(spans@) =~= span_views(sb).push(c@));
        assert(span_views(content@).take(i + 1) =~= span_views(content@).take(i as int).push(content@[i as int]@));
        i += 1;
    }
    assert(span_views(content@).take(content@.len() as int) =~= span_views(content@));
    assert(span_views(spans@) =~= (match kind {
        TextKind::Heading(level) => seq![
            SpanView {
                content: Seq::new(level as nat, |k: int| '#').push(' '),
                style: crate::tui::render::Style { bold: true, ..crate::tui::render::plain_style() },
            },
        ],
        _ => Seq::<SpanView>::empty(),
    }) + span_views(content@));
    let lines = split_spans_on_newlines(&spans);
    match kind {
        TextKind::Heading(_) => {
            if index > 0 {
                let mut r: Vec<Vec<StyledSpan>> = Vec::new();
                r.push(Vec::new());
                let ghost first = r@;
                let mut j: usize = 0;
                let mut ls = lines;
                let ghost lv = lines_view(ls@);
                r.append(&mut ls);
                assert(lines_view(r@) =~= seq![Seq::<SpanView>::empty()] + lv) by {
                    assert(span_views(first[0]@) =~= Seq::<SpanView>::empty());
                }
                r
            } else {
                lines
            }
        },
        _ => lines,
    }
}

/// The lines of a code box: the code's lines, each in colour `color`.
pub open spec fn code_lines_spec(code: Seq<char>, color: crate::tui::render::Color) -> Seq<Seq<SpanView>> {
    let ls = spec_lines(code);
    Seq::new(ls.len(), |i: int| crate::tui::output_box::single(ls[i], crate::tui::output_box::colored(color)))
}

/// The lines of a code box (see `code_lines_spec`).
pub fn code_box_lines(code: &str, color: crate::tui::render::Color) -> (r: Vec<Vec<StyledSpan>>)
    ensures
        lines_view(r@) == code_lines_spec(code@, color),
{
    let ls = text_lines(code);
    let ghost lv = ls@.map_values(|x: String| x@);
    let mut r: Vec<Vec<StyledSpan>> = Vec::new();
    let mut i: usize = 0;
    while i < ls.len()
        invariant
            i <= ls@.len(),
            lv == ls@.map_values(|x: String| x@),
            lv == spec_lines(code@),
            lines_view(r@) == code_lines_spec(code@, color).take(i as int),
        decreases ls@.len() - i,
    {
        let ghost rb = r@;
        let mut l: Vec<StyledSpan> = Vec::new();
        l.push(StyledSpan { content: crate::text::to_owned_string(ls[i].as_str()), style: crate::tui::render::Style::new().with_fg(color) });
        r.push(l);
        assert(r@ == rb.push(l));
        assert(lv[i as int] == ls@[i as int]@);
        assert(span_views(l@) =~= crate::tui::output_box::single(lv[i as int], crate::tui::output_box::colored(color)));
        assert(lines_view(r@) =~= lines_view(rb).push(span_views(l@)));
        assert(code_lines_spec(code@, color).take(i + 1) =~= code_lines_spec(code@, color).take(i as int).push(span_views(l@)));
        assert(lines_view(r@) =~= code_lines_spec(code@, color).take(i + 1));
        i += 1;
    }
    assert(code_lines_spec(code@, color).take(ls@.len() as int) =~= code_lines_spec(code@, color));
    r
}

/// The header of a code box: ` {lang}{ (hidden)} │ {status} `.
pub fn code_header(lang: &str, hidden: bool, status: &str) -> (r: String)
    ensures
        r@ == " "@ + lang@ + (if hidden { " (hidden)"@ } else { ""@ }) + " │ "@ + status@ + " "@,
{
    let a = crate::text::concat(" ", lang);
    let b = crate::text::concat(a.as_str(), if hidden { " (hidden)" } else { "" });
    let c = crate::text::concat(b.as_str(), " │ ");
    let d = crate::text::concat(c.as_str(), status);
    crate::text::concat(d.as_str(), " ")
}

// ---------------------------------------------------------------------------
// The modal window.

/// The whole output of a box in state `st` (see `spec_all_output`).
pub open spec fn state_text(st: StateView) -> Seq<char> {
    match st {
        StateView::Completed { output, .. } => output,
        StateView::Failed { error } => error,
        StateView::Running { out, .. } => crate::tui::output_box::join(out, seq!['\n']),
        StateView::Pending => Seq::empty(),
        StateView::Orphaned { content } => content,
    }
}




/// The plain contents of a list of sections.
pub open spec fn sections_view(s: Seq<(String, Vec<String>)>) -> Seq<(Seq<char>, Seq<Seq<char>>)> {
    s.map_values(|x: (String, Vec<String>)| (x.0@, crate::fill_output_blocks::strings(x.1@)))
}

/// The title and sections of the modal window for the block's first output
/// box: its output (or a note when there is none yet), or its logs (the time
/// line, then what it printed, what went to stderr apart; the output of a
/// completed run; the error of a failed one; a note for a pending or an
/// orphan box); a note when the block has no box.
pub open spec fn modal_spec(modal: ModalView, v: Seq<RenderView>, time_line: Seq<char>) -> (Seq<char>, Seq<(Seq<char>, Seq<Seq<char>>)>) {
    match modal {
        ModalView::Output(ci) => match first_box_of(v, ci as int, 0) {
            Some(f) => {
                let t = state_text(state_of(v[f]));
                if t.len() == 0 {
                    ("Output"@, seq![("output"@, seq!["(no output yet)"@])])
                } else {
                    ("Output"@, seq![("output"@, spec_lines(t))])
                }
            },
            None => ("Output"@, seq![("output"@, seq!["(not found)"@])]),
        },
        ModalView::Logs(ci) => match first_box_of(v, ci as int, 0) {
            Some(f) => match state_of(v[f]) {
                StateView::Running { out, err, .. } => (
                    "Build Logs"@,
                    seq![("logs"@, seq![time_line, Seq::empty()] + out)] + (if err.len() > 0 {
                        seq![("stderr"@, seq![Seq::empty(), "--- stderr ---"@] + err)]
                    } else {
                        Seq::empty()
                    }),
                ),
                StateView::Completed { output, stderr, .. } => (
                    "Output"@,
                    seq![("output"@, seq![time_line, Seq::empty()] + spec_lines(output))] + (if stderr.len() > 0 {
                        seq![("stderr"@, seq![Seq::empty(), "--- stderr ---"@] + spec_lines(stderr))]
                    } else {
                        Seq::empty()
                    }),
                ),
                StateView::Failed { error } => ("Error"@, seq![("error"@, seq!["failed"@, Seq::empty()] + spec_lines(error))]),
                StateView::Pending => ("Build Logs"@, seq![("logs"@, seq!["(waiting...)"@])]),
                StateView::Orphaned { content } => (
                    "Orphaned Output"@,
                    seq![("note"@, seq!["(will be removed on quit)"@, Seq::empty()]), ("content"@, spec_lines(content))],
                ),
            },
            None => ("Build Logs"@, seq![("logs"@, seq!["(not found)"@])]),
        },
        ModalView::Closed => (Seq::empty(), Seq::empty()),
    }
}

fn one_line(s: &str) -> (r: Vec<String>)
    ensures
        crate::fill_output_blocks::strings(r@) == seq![s@],
{
    let mut r: Vec<String> = Vec::new();
    r.push(crate::text::to_owned_string(s));
    assert(crate::fill_output_blocks::strings(r@) =~= seq![s@]);
    r
}

fn lines_after(first: Vec<String>, rest: Vec<String>) -> (r: Vec<String>)
    ensures
        crate::fill_output_blocks::strings(r@) == crate::fill_output_blocks::strings(first@) + crate::fill_output_blocks::strings(rest@),
{
    let mut a = first;
    let mut b = rest;
    let ghost a0 = a@;
    let ghost b0 = b@;
    a.append(&mut b);
    assert(a@ == a0 + b0);
    assert(crate::fill_output_blocks::strings(a@) =~= crate::fill_output_blocks::strings(a0) + crate::fill_output_blocks::strings(b0));
    a
}

fn line_then_blank(x: &str) -> (r: Vec<String>)
    ensures
        crate::fill_output_blocks::strings(r@) == seq![x@, Seq::<char>::empty()],
{
    let mut r: Vec<String> = Vec::new();
    r.push(crate::text::to_owned_string(x));
    r.push(String::new());
    assert(crate::fill_output_blocks::strings(r@) =~= seq![x@, Seq::<char>::empty()]);
    r
}

fn blank_then_line(y: &str) -> (r: Vec<String>)
    ensures
        crate::fill_output_blocks::strings(r@) == seq![Seq::<char>::empty(), y@],
{
    let mut r: Vec<String> = Vec::new();
    r.push(String::new());
    r.push(crate::text::to_owned_string(y));
    assert(crate::fill_output_blocks::strings(r@) =~= seq![Seq::<char>::empty(), y@]);
    r
}

fn lines_of_text(t: &str) -> (r: Vec<String>)
    ensures
        crate::fill_output_blocks::strings(r@) == spec_lines(t@),
{
    let r = text_lines(t);
    assert(crate::fill_output_blocks::strings(r@) =~= r@.map_values(|x: String| x@));
    r
}

fn section(name: &str, lines: Vec<String>) -> (r: (String, Vec<String>))
    ensures
        r.0@ == name@,
        r.1@ == lines@,
{
    (crate::text::to_owned_string(name), lines)
}

fn sections1(a: (String, Vec<String>)) -> (r: Vec<(String, Vec<String>)>)
    ensures
        sections_view(r@) == seq![(a.0@, crate::fill_output_blocks::strings(a.1@))],
{
    let mut r: Vec<(String, Vec<String>)> = Vec::new();
    r.push(a);
    assert(sections_view(r@) =~= seq![(a.0@, crate::fill_output_blocks::strings(a.1@))]);
    r
}

fn push_section(r: &mut Vec<(String, Vec<String>)>, a: (String, Vec<String>))
    ensures
        sections_view(final(r)@) == sections_view(old(r)@).push((a.0@, crate::fill_output_blocks::strings(a.1@))),
{
    let ghost b = r@;
    r.push(a);
    assert(r@ == b.push(a));
    assert(sections_view(r@) =~= sections_view(b).push((a.0@, crate::fill_output_blocks::strings(a.1@))));
}

impl TuiApp {
    /// The title and sections of the open modal window (see `modal_spec`);
    /// `time_line` is the line that tells how long the run has taken, as the
    /// caller writes it.
    pub fn modal_sections(&self, time_line: &str) -> (r: (String, Vec<(String, Vec<String>)>))
        ensures
            (r.0@, sections_view(r.1@)) == modal_spec(self.modal, render_views(self.nodes@), time_line@),
    {
        let ghost v = render_views(self.nodes@);
        proof {
            match self.modal {
                ModalView::Output(ci) => lemma_first_box_of_bounds(v, ci as int, 0),
                ModalView::Logs(ci) => lemma_first_box_of_bounds(v, ci as int, 0),
                _ => {},
            }
        }
        match self.modal {
            ModalView::Output(ci) => {
                match self.first_box_index(ci) {
                    Some(f) => {
                        assert(v[f as int] == self.nodes@[f as int]@);
                        match &self.nodes[f] {
                            RenderNode::OutputBlock { state, .. } => {
                                let t = state.all_output();
                                assert(t@ == state_text(state@));
                                if t.as_str().is_empty() {
                                    (crate::text::to_owned_string("Output"), sections1(section("output", one_line("(no output yet)"))))
                                } else {
                                    (crate::text::to_owned_string("Output"), sections1(section("output", lines_of_text(t.as_str()))))
                                }
                            },
                            _ => (crate::text::to_owned_string("Output"), sections1(section("output", one_line("(not found)")))),
                        }
                    },
                    None => (crate::text::to_owned_string("Output"), sections1(section("output", one_line("(not found)")))),
                }
            },
            ModalView::Logs(ci) => {
                match self.first_box_index(ci) {
                    Some(f) => {
                        assert(v[f as int] == self.nodes@[f as int]@);
                        match &self.nodes[f] {
                            RenderNode::OutputBlock { state, .. } => match state {
                                OutputState::Running { live_lines, stderr_lines, .. } => {
                                    let head = line_then_blank(time_line);
                                    let out = crate::tui::output_box::deque_to_vec(live_lines);
                                    let ghost out_v = crate::fill_output_blocks::strings(out@);
                                    let ghost head_v = crate::fill_output_blocks::strings(head@);
                                    let joined = lines_after(head, out);
                                    assert(crate::fill_output_blocks::strings(joined@) == head_v + out_v);
                                    let sec = section("logs", joined);
                                    assert(sec.1@ == joined@);
                                    let mut r = sections1(sec);
                                    assert(crate::tui::output_box::deque_strings(*stderr_lines).len() == stderr_lines@.len());
                                    assert(state_of(v[f as int]) == state@);
                                    assert(out_v == crate::tui::output_box::deque_strings(*live_lines));
                                    assert(head_v =~= seq![time_line@, Seq::<char>::empty()]);
                                    assert(sections_view(r@)[0].1 =~= seq![time_line@, Seq::<char>::empty()] + crate::tui::output_box::deque_strings(*live_lines));
                                    if stderr_lines.len() > 0 {
                                        let h2 = blank_then_line("--- stderr ---");
                                        let err = crate::tui::output_box::deque_to_vec(stderr_lines);
                                        push_section(&mut r, section("stderr", lines_after(h2, err)));
                                        assert(sections_view(r@) =~= modal_spec(self.modal, v, time_line@).1);
                                    } else {
                                        assert(sections_view(r@) =~= modal_spec(self.modal, v, time_line@).1);
                                    }
                                    (crate::text::to_owned_string("Build Logs"), r)
                                },
                                OutputState::Completed { output, stderr, .. } => {
                                    let head = line_then_blank(time_line);
                                    let mut r = sections1(section("output", lines_after(head, lines_of_text(output.as_str()))));
                                    if !stderr.as_str().is_empty() {
                                        let h2 = blank_then_line("--- stderr ---");
                                        push_section(&mut r, section("stderr", lines_after(h2, lines_of_text(stderr.as_str()))));
                                        assert(sections_view(r@) =~= modal_spec(self.modal, v, time_line@).1);
                                    } else {
                                        assert(sections_view(r@) =~= modal_spec(self.modal, v, time_line@).1);
                                    }
                                    (crate::text::to_owned_string("Output"), r)
                                },
                                OutputState::Failed { error } => {
                                    let head = line_then_blank("failed");
                                    (crate::text::to_owned_string("Error"), sections1(section("error", lines_after(head, lines_of_text(error.as_str())))))
                                },
                                OutputState::Pending => (crate::text::to_owned_string("Build Logs"), sections1(section("logs", one_line("(waiting...)")))),
                                OutputState::Orphaned { content } => {
                                    let mut r = sections1(section("note", line_then_blank("(will be removed on quit)")));
                                    push_section(&mut r, section("content", lines_of_text(content.as_str())));
                                    assert(sections_view(r@) =~= modal_spec(self.modal, v, time_line@).1);
                                    (crate::text::to_owned_string("Orphaned Output"), r)
                                },
                            },
                            _ => (crate::text::to_owned_string("Build Logs"), sections1(section("logs", one_line("(not found)")))),
                        }
                    },
                    None => (crate::text::to_owned_string("Build Logs"), sections1(section("logs", one_line("(not found)")))),
                }
            },
            ModalView::Closed => (String::new(), Vec::new()),
        }
    }
}

/// The lines of the modal window: each section's header line
/// `─── {name} ───`, then its lines.
pub open spec fn modal_lines_spec(s: Seq<(Seq<char>, Seq<Seq<char>>)>) -> Seq<Seq<char>>
    decreases s.len(),
{
    if s.len() == 0 {
        Seq::empty()
    } else {
        modal_lines_spec(s.drop_last()) + seq!["─── "@ + s.last().0 + " ───"@] + s.last().1
    }
}

/// The lines of the modal window (see `modal_lines_spec`).
pub fn modal_lines(sections: &Vec<(String, Vec<String>)>) -> (r: Vec<String>)
    ensures
        crate::fill_output_blocks::strings(r@) == modal_lines_spec(sections_view(sections@)),
{
    let ghost sv = sections_view(sections@);
    let mut r: Vec<String> = Vec::new();
    let mut i: usize = 0;
    assert(sv.take(0) =~= Seq::<(Seq<char>, Seq<Seq<char>>)>::empty());
    while i < sections.len()
        invariant
            i <= sections@.len(),
            sv == sections_view(sections@),
            crate::fill_output_blocks::strings(r@) == modal_lines_spec(sv.take(i as int)),
        decreases sections@.len() - i,
    {
        let a = crate::text::concat("─── ", sections[i].0.as_str());
        let header = crate::text::concat(a.as_str(), " ───");
        let ghost rb = r@;
        r.push(header);
        let mut j: usize = 0;
        while j < sections[i].1.len()
            invariant
                j <= sections@[i as int].1@.len(),
                i < sections@.len(),
                crate::fill_output_blocks::strings(r@) == crate::fill_output_blocks::strings(rb).push(header@) + crate::fill_output_blocks::strings(sections@[i as int].1@).take(j as int),
            decreases sections@[i as int].1@.len() - j,
        {
            let ghost rj = r@;
            let line = crate::text::to_owned_string(sections[i].1[j].as_str());
            r.push(line);
            assert(r@ == rj.push(line));
            assert(crate::fill_output_blocks::strings(r@) =~= crate::fill_output_blocks::strings(rj).push(line@));
            assert(crate::fill_output_blocks::strings(sections@[i as int].1@).take(j + 1) =~= crate::fill_output_blocks::strings(sections@[i as int].1@).take(j as int).push(line@));
            j += 1;
        }
        proof {
            let t = sv.take(i + 1);
            assert(t.drop_last() =~= sv.take(i as int));
            assert(t.last() == sv[i as int]);
            assert(crate::fill_output_blocks::strings(sections@[i as int].1@).take(sections@[i as int].1@.len() as int) =~= crate::fill_output_blocks::strings(sections@[i as int].1@));
            assert(crate::fill_output_blocks::strings(rb.push(header)) =~= crate::fill_output_blocks::strings(rb).push(header@));
            assert(crate::fill_output_blocks::strings(r@) =~= modal_lines_spec(sv.take(i + 1)));
        }
        i += 1;
    }
    assert(sv.take(sections@.len() as int) =~= sv);
    r
}

/// The lines of the modal window shown in a window `height` lines high:
/// from the scroll position, but no further than the lines less the height,
/// to the end of the window or of the lines. Returns where they start and end.
pub fn modal_window(total: usize, modal_scroll: usize, height: usize) -> (r: (usize, usize))
    ensures
        r.0 == (if modal_scroll < minus(total as int, height as int) { modal_scroll as int } else { minus(total as int, height as int) }),
        r.1 == (if r.0 + height < total { r.0 + height } else { total as int }),
        r.0 <= r.1 <= total,
{
    let max_scroll: usize = if total >= height { total - height } else { 0 };
    let start: usize = if modal_scroll < max_scroll { modal_scroll } else { max_scroll };
    let end: usize = if height < total - start { start + height } else { total };
    (start, end)
}

// ---------------------------------------------------------------------------
// Whether the line counts fit in `usize`.

#[verifier::loop_isolation(false)]
fn node_fits(node: &RenderNode) -> (r: bool)
    ensures
        r == node_lines_fit(node@),
{
    match node {
        RenderNode::Text { content, .. } => {
            let ghost c = span_views(content@);
            let mut total: usize = 0;
            let mut newlines: usize = 0;
            let mut i: usize = 0;
            proof {
                lemma_spans_nonneg(c);
            }
            while i < content.len()
                invariant
                    i <= content@.len(),
                    c == span_views(content@),
                    total == spans_bytes(c.take(i as int)),
                    newlines == spans_newlines(c.take(i as int)),
                    spans_bytes(c) >= 0,
                    spans_newlines(c) >= 0,
                decreases content@.len() - i,
            {
                proof {
                    assert(c.take(i + 1).drop_last() =~= c.take(i as int));
                    lemma_spans_prefix(c, i + 1);
                    lemma_spans_prefix(c, i as int);
                    lemma_newlines_nonneg(c[i as int].content);
                }
                let b = content[i].content.as_str().as_bytes().len();
                let n = count_newlines(content[i].content.as_str());
                assert(c[i as int].content == content@[i as int].content@);
                assert(spans_bytes(c.take(i + 1)) == total + b);
                assert(spans_newlines(c.take(i + 1)) == newlines + n);
                if total > usize::MAX - b {
                    proof {
                        lemma_spans_prefix(c, i + 1);
                        assert(spans_bytes(c) > usize::MAX - 65540);
                    }
                    return false;
                }
                total = total + b;
                if newlines > usize::MAX - n {
                    proof {
                        lemma_spans_prefix(c, i + 1);
                        assert(spans_newlines(c) > usize::MAX - 65540);
                    }
                    return false;
                }
                newlines = newlines + n;
                i += 1;
            }
            assert(c.take(content@.len() as int) =~= c);
            match total.checked_add(newlines) {
                Some(t) => t <= usize::MAX - 65540,
                None => false,
            }
        },
        RenderNode::Table { rows } => rows.len() <= usize::MAX - 2,
        RenderNode::CodeBlock { code, .. } => count_lines(code.as_str()) <= usize::MAX - 2,
        RenderNode::ExecutableCode { code, .. } => count_lines(code.as_str()) <= usize::MAX - 2,
        RenderNode::OutputBlock { state, .. } => match state {
            OutputState::Running { live_lines, stderr_lines, .. } => {
                assert(crate::tui::output_box::deque_strings(*live_lines).len() == live_lines@.len());
                assert(crate::tui::output_box::deque_strings(*stderr_lines).len() == stderr_lines@.len());
                match live_lines.len().checked_add(stderr_lines.len()) {
                    Some(t) => t <= usize::MAX - 3,
                    None => false,
                }
            },
            OutputState::Completed { output, .. } => count_lines(output.as_str()) <= usize::MAX - 2,
            OutputState::Failed { error } => count_lines(error.as_str()) <= usize::MAX - 2,
            OutputState::Orphaned { content } => count_lines(content.as_str()) <= usize::MAX - 2,
            OutputState::Pending => true,
        },
    }
}

impl TuiApp {
    /// Whether the line counts of the view, `width` columns wide, and a
    /// frame's rows past them, fit in `usize` (what `plan_frame` and the
    /// scrolling keys need).
    pub fn layout_fits(&self, width: usize) -> (r: bool)
        ensures
            r == (lines_fit(render_views(self.nodes@), width as int) && lines_sum(render_views(self.nodes@), width as int) + 65536 <= usize::MAX),
    {
        let ghost v = render_views(self.nodes@);
        let ghost w = width as int;
        let mut sum: usize = 0;
        let mut i: usize = 0;
        while i < self.nodes.len()
            invariant
                i <= self.nodes@.len(),
                v == render_views(self.nodes@),
                w == width as int,
                forall|j: int| 0 <= j < i ==> node_lines_fit(#[trigger] v[j]),
                sum == lines_sum(v.take(i as int), w),
            decreases self.nodes@.len() - i,
        {
            assert(v[i as int] == self.nodes@[i as int]@);
            proof {
                lemma_lines_sum_prefix(v, w, i + 1);
                let t = v.take(i + 1);
                assert(t.drop_last() =~= v.take(i as int));
                assert(t.last() == v[i as int]);
            }
            if !node_fits(&self.nodes[i]) {
                return false;
            }
            let n = node_lines(&self.nodes[i], width);
            assert(lines_sum(v.take(i + 1), w) == sum + n);
            match sum.checked_add(n) {
                Some(t) => {
                    sum = t;
                },
                None => {
                    proof {
                        lemma_lines_sum_prefix(v, w, i + 1);
                    }
                    return false;
                },
            }
            i += 1;
        }
        assert(v.take(self.nodes@.len() as int) =~= v);
        sum <= usize::MAX - 65536
    }
}

/// The keys the status bar lists.
pub open spec fn key_help() -> Seq<char> {
    "↑/↓:scroll  n/p:focus  t:type  m:modal  l:logs  q:quit"@
}

/// The status bar: while blocks run, ` [{finished}/{boxes}] running... | `
/// and the keys; once they are done, ` done | ` and the keys.
pub open spec fn spec_status_bar(running: bool, finished: int, boxes: int) -> Seq<char> {
    if running {
        " ["@ + crate::text::decimal(finished as nat) + "/"@ + crate::text::decimal(boxes as nat) + "] running... | "@ + key_help()
    } else {
        " done | "@ + key_help()
    }
}

impl TuiApp {
    /// The status bar of the view (see `spec_status_bar`).
    pub fn status_bar(&self) -> (r: String)
        ensures
            r@ == spec_status_bar(self.running, finished_boxes(render_views(self.nodes@)), ob_positions(render_views(self.nodes@), 0).len() as int),
    {
        let help = "↑/↓:scroll  n/p:focus  t:type  m:modal  l:logs  q:quit";
        if self.running {
            let (done, total) = self.box_counts();
            let a = crate::text::concat(" [", crate::text::decimal_string(done).as_str());
            let b = crate::text::concat(a.as_str(), "/");
            let c = crate::text::concat(b.as_str(), crate::text::decimal_string(total).as_str());
            let d = crate::text::concat(c.as_str(), "] running... | ");
            crate::text::concat(d.as_str(), help)
        } else {
            crate::text::concat(" done | ", help)
        }
    }
}

} // verus!
