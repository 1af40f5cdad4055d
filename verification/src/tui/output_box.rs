//! Output boxes: the state of one executable block's output while it runs,
//! and the lines shown for it.
use crate::fill_output_blocks::strings;
use crate::text::{chars_of, concat, push_char, spec_lines, string_of, to_owned_string, trim_end_char};
use crate::tui::render::{plain_style, span_views, Color, SpanView, Style, StyledSpan};
use vstd::string::StringSliceAdditionalSpecFns;
use vstd::utf8::{decode_utf8, encode_utf8, is_char_boundary};
use std::collections::VecDeque;
use vstd::prelude::*;

verus! {

#[verifier::external_type_specification]
#[verifier::external_body]
pub struct ExInstant(std::time::Instant);

/// How an output box writes its output back: as an `output` code block or as
/// an `<!-- output: ... -->` comment.
#[derive(Debug, Clone, Copy, PartialEq, Eq, Structural)]
pub enum OutputType {
    Block,
    Comment,
}

impl OutputType {
    /// Switches between the two output types.
    pub fn toggle(&mut self)
        ensures
            *final(self) == match *old(self) {
                OutputType::Block => OutputType::Comment,
                OutputType::Comment => OutputType::Block,
            },
    {
        *self = match self {
            OutputType::Block => OutputType::Comment,
            OutputType::Comment => OutputType::Block,
        };
    }

    /// The name shown for the output type.
    pub fn label(&self) -> (r: &'static str)
        ensures
            r@ == match *self {
                OutputType::Block => "output"@,
                OutputType::Comment => "comment"@,
            },
    {
        match self {
            OutputType::Block => "output",
            OutputType::Comment => "comment",
        }
    }
}

/// Toggling twice gives back the output type one started with.
pub proof fn lemma_toggle_twice(t: OutputType)
    ensures
        toggled(toggled(t)) == t,
{
}

/// The other output type.
pub open spec fn toggled(t: OutputType) -> OutputType {
    match t {
        OutputType::Block => OutputType::Comment,
        OutputType::Comment => OutputType::Block,
    }
}

/// Where an executable block's run stands.
#[derive(Debug)]
pub enum OutputState {
    /// Not started yet.
    Pending,
    /// Running: the lines printed so far, to stdout and to stderr.
    Running { live_lines: VecDeque<String>, stderr_lines: VecDeque<String>, start: std::time::Instant },
    /// Finished successfully.
    Completed { output: String, previous_output: Option<String>, duration: std::time::Duration, stderr: String },
    /// Finished with an error.
    Failed { error: String },
    /// An output found in the document that belongs to no executable block.
    Orphaned { content: String },
}

/// The plain contents of an output state.
pub enum StateView {
    Pending,
    Running { out: Seq<Seq<char>>, err: Seq<Seq<char>>, start: std::time::Instant },
    Completed { output: Seq<char>, previous: Option<Seq<char>>, duration: core::time::Duration, stderr: Seq<char> },
    Failed { error: Seq<char> },
    Orphaned { content: Seq<char> },
}

impl View for OutputState {
    type V = StateView;

    open spec fn view(&self) -> StateView {
        match self {
            OutputState::Pending => StateView::Pending,
            OutputState::Running { live_lines, stderr_lines, start } => StateView::Running {
                out: deque_strings(*live_lines),
                err: deque_strings(*stderr_lines),
                start: *start,
            },
            OutputState::Completed { output, previous_output, duration, stderr } => StateView::Completed {
                output: output@,
                previous: match previous_output {
                    Some(p) => Some(p@),
                    None => None,
                },
                duration: *duration,
                stderr: stderr@,
            },
            OutputState::Failed { error } => StateView::Failed { error: error@ },
            OutputState::Orphaned { content } => StateView::Orphaned { content: content@ },
        }
    }
}

/// The strings of a sequence, joined with `sep` between them.
pub open spec fn join(lines: Seq<Seq<char>>, sep: Seq<char>) -> Seq<char>
    decreases lines.len(),
{
    if lines.len() == 0 {
        Seq::empty()
    } else if lines.len() == 1 {
        lines[0]
    } else {
        join(lines.drop_last(), sep) + sep + lines.last()
    }
}

/// The plain contents of a queue of strings.
pub open spec fn deque_strings(q: VecDeque<String>) -> Seq<Seq<char>> {
    strings(q@)
}

/// `--- stderr ---`
pub open spec fn stderr_banner() -> Seq<char> {
    "--- stderr ---"@
}

/// The whole output a box shows in its modal view.
pub open spec fn spec_all_output(s: OutputState) -> Seq<char> {
    match s {
        OutputState::Completed { output, .. } => output@,
        OutputState::Failed { error } => error@,
        OutputState::Running { live_lines, .. } => join(deque_strings(live_lines), seq!['\n']),
        OutputState::Pending => Seq::empty(),
        OutputState::Orphaned { content } => content@,
    }
}

/// The output with what went to stderr, as shown in the logs view.
pub open spec fn spec_all_logs(s: OutputState) -> Seq<char> {
    match s {
        OutputState::Completed { output, stderr, .. } => if stderr@.len() == 0 {
            output@
        } else {
            output@ + seq!['\n', '\n'] + stderr_banner() + seq!['\n'] + stderr@
        },
        OutputState::Failed { error } => error@,
        OutputState::Running { live_lines, stderr_lines, .. } => {
            let out = deque_strings(live_lines);
            let err = deque_strings(stderr_lines);
            if err.len() == 0 {
                join(out, seq!['\n'])
            } else {
                join(out + seq![Seq::empty(), stderr_banner()] + err, seq!['\n'])
            }
        },
        OutputState::Pending => Seq::empty(),
        OutputState::Orphaned { content } => content@,
    }
}

fn append_str(s: &mut String, t: &str)
    ensures
        final(s)@ == old(s)@ + t@,
{
    let v = chars_of(t);
    let mut i: usize = 0;
    while i < v.len()
        invariant
            i <= v.len(),
            v@ == t@,
            s@ == old(s)@ + t@.take(i as int),
        decreases v.len() - i,
    {
        push_char(s, v[i]);
        assert(t@.take(i + 1) == t@.take(i as int).push(t@[i as int]));
        i += 1;
    }
    assert(t@.take(v@.len() as int) == t@);
}

/// The strings of `lines` joined with newlines.
pub fn join_lines(lines: &Vec<String>) -> (r: String)
    ensures
        r@ == join(strings(lines@), seq!['\n']),
{
    let ghost ls = strings(lines@);
    let mut r = String::new();
    let mut i: usize = 0;
    while i < lines.len()
        invariant
            i <= lines.len(),
            ls == strings(lines@),
            r@ == join(ls.take(i as int), seq!['\n']),
        decreases lines.len() - i,
    {
        if i > 0 {
            push_char(&mut r, '\n');
        }
        append_str(&mut r, lines[i].as_str());
        proof {
            let t = ls.take(i + 1);
            assert(t.drop_last() =~= ls.take(i as int));
            assert(t.last() == lines@[i as int]@);
            if i == 0 {
                assert(t =~= seq![lines@[0]@]);
            }
        }
        i += 1;
    }
    assert(ls.take(lines.len() as int) =~= ls);
    r
}

/// The lines of a queue, in order, as a vector.
pub fn deque_to_vec(q: &VecDeque<String>) -> (r: Vec<String>)
    ensures
        strings(r@) == deque_strings(*q),
{
    let mut r: Vec<String> = Vec::new();
    let mut i: usize = 0;
    while i < q.len()
        invariant
            i <= q@.len(),
            strings(r@) == deque_strings(*q).take(i as int),
        decreases q@.len() - i,
    {
        let s = q[i].clone();
        assert(s@ == q@[i as int]@);
        let ghost before = r@;
        assert(strings(before).len() == i);
        r.push(s);
        assert(r@ == before.push(s));
        assert(strings(r@).len() == i + 1);
        assert(strings(r@)[i as int] == s@);
        assert(deque_strings(*q).take(i + 1)[i as int] == q@[i as int]@);
        assert(forall|j: int| 0 <= j < i ==> strings(r@)[j] == strings(before)[j]);
        assert(strings(r@) =~= deque_strings(*q).take(i + 1));
        i += 1;
    }
    assert(deque_strings(*q).take(q@.len() as int) =~= deque_strings(*q));
    r
}

impl OutputState {
    /// A short word for the state.
    pub fn status_label(&self) -> (r: &'static str)
        ensures
            r@ == match *self {
                OutputState::Pending => "waiting"@,
                OutputState::Running { .. } => "running"@,
                OutputState::Completed { .. } => "done"@,
                OutputState::Failed { .. } => "error"@,
                OutputState::Orphaned { .. } => "orphan"@,
            },
    {
        match self {
            OutputState::Pending => "waiting",
            OutputState::Running { .. } => "running",
            OutputState::Completed { .. } => "done",
            OutputState::Failed { .. } => "error",
            OutputState::Orphaned { .. } => "orphan",
        }
    }

    /// The run finished successfully.
    pub fn is_done(&self) -> (r: bool)
        ensures
            r == (*self is Completed),
    {
        match self {
            OutputState::Completed { .. } => true,
            _ => false,
        }
    }

    /// The run finished with an error.
    pub fn is_failed(&self) -> (r: bool)
        ensures
            r == (*self is Failed),
    {
        match self {
            OutputState::Failed { .. } => true,
            _ => false,
        }
    }

    /// The whole output (see `spec_all_output`).
    pub fn all_output(&self) -> (r: String)
        ensures
            r@ == spec_all_output(*self),
    {
        match self {
            OutputState::Completed { output, .. } => output.clone(),
            OutputState::Failed { error } => error.clone(),
            OutputState::Running { live_lines, .. } => join_lines(&deque_to_vec(live_lines)),
            OutputState::Pending => String::new(),
            OutputState::Orphaned { content } => content.clone(),
        }
    }

    /// The output with what went to stderr (see `spec_all_logs`).
    pub fn all_logs(&self) -> (r: String)
        ensures
            r@ == spec_all_logs(*self),
    {
        match self {
            OutputState::Completed { output, stderr, .. } => {
                if stderr.as_str().is_empty() {
                    output.clone()
                } else {
                    let mut r = output.clone();
                    append_str(&mut r, "\n\n--- stderr ---\n");
                    append_str(&mut r, stderr.as_str());
                    proof {
                        reveal_strlit("\n\n--- stderr ---\n");
                        reveal_strlit("--- stderr ---");
                        assert("\n\n--- stderr ---\n"@ =~= seq!['\n', '\n'] + stderr_banner() + seq!['\n']);
                        assert(r@ =~= output@ + seq!['\n', '\n'] + stderr_banner() + seq!['\n'] + stderr@);
                    }
                    r
                }
            },
            OutputState::Failed { error } => error.clone(),
            OutputState::Running { live_lines, stderr_lines, .. } => {
                let mut lines = deque_to_vec(live_lines);
                if stderr_lines.len() > 0 {
                    let ghost before = strings(lines@);
                    lines.push(String::new());
                    lines.push(crate::text::to_owned_string("--- stderr ---"));
                    let err = deque_to_vec(stderr_lines);
                    let mut i: usize = 0;
                    while i < err.len()
                        invariant
                            i <= err.len(),
                            strings(lines@) == before + seq![Seq::<char>::empty(), stderr_banner()] + strings(err@).take(i as int),
                        decreases err.len() - i,
                    {
                        let ghost lb = lines@;
                        assert(strings(lb).len() == lb.len());
                        let e = err[i].clone();
                        assert(e@ == err@[i as int]@);
                        lines.push(e);
                        assert(lines@ == lb.push(e));
                        assert(strings(err@).len() == err@.len());
                        assert(strings(lines@) =~= strings(lb).push(e@));
                        assert(strings(err@).take(i + 1) =~= strings(err@).take(i as int).push(err@[i as int]@));
                        assert(strings(lines@) =~= before + seq![Seq::<char>::empty(), stderr_banner()] + strings(err@).take(i + 1));
                        i += 1;
                    }
                    assert(strings(err@).take(err@.len() as int) =~= strings(err@));
                }
                join_lines(&lines)
            },
            OutputState::Pending => String::new(),
            OutputState::Orphaned { content } => content.clone(),
        }
    }
}

/// An output box as drawn: the state it shows, whether it has the focus, the
/// output type chosen for it, and how many of its lines are scrolled away.
pub struct OutputBox<'a> {
    pub state: &'a OutputState,
    pub is_focused: bool,
    pub output_type: OutputType,
    pub skip_lines: usize,
}

/// The largest character boundary of `b` at or below `i` (0 when there is none above 0).
pub open spec fn boundary_below(b: Seq<u8>, i: int) -> int
    decreases i,
{
    if i <= 0 {
        0
    } else if is_char_boundary(b, i) {
        i
    } else {
        boundary_below(b, i - 1)
    }
}

/// `s` cut to fit in `max` bytes of UTF-8: unchanged when it fits, otherwise
/// its longest prefix of at most `max - 1` bytes (cut at a character
/// boundary) followed by `…`.
pub open spec fn truncated(s: Seq<char>, max: int) -> Seq<char> {
    let b = encode_utf8(s);
    if b.len() <= max {
        s
    } else {
        decode_utf8(b.subrange(0, boundary_below(b, if max > 0 { max - 1 } else { 0 }))) + seq!['…']
    }
}

/// `s` cut to fit in `max` bytes (see `truncated`).
pub fn truncate(s: &str, max: usize) -> (r: String)
    ensures
        r@ == truncated(s@, max as int),
{
    broadcast use vstd::utf8::group_utf8_lib;
    let byte_len = s.as_bytes().len();
    if byte_len <= max {
        return to_owned_string(s);
    }
    let ghost b = s.spec_bytes();
    let mut end: usize = if max > 0 { max - 1 } else { 0 };
    let ghost target = boundary_below(b, end as int);
    while end > 0 && !s.is_char_boundary(end)
        invariant
            end < b.len(),
            boundary_below(b, end as int) == target,
            b == s.spec_bytes(),
        decreases end,
    {
        end -= 1;
    }
    assert(is_char_boundary(b, end as int));
    assert(end as int == target);
    let (prefix, _rest) = s.split_at(end);
    proof {
        reveal_strlit("…");
        vstd::utf8::encode_utf8_decode_utf8(prefix@);
    }
    concat(prefix, "…")
}

/// How a line of a line diff changed.
#[derive(Debug, Clone, Copy, PartialEq, Eq, Structural)]
pub enum ChangeKind {
    Delete,
    Insert,
    Equal,
}

/// The line changes that turn `old` into `new`, in order, each with its line
/// (ending with its `\n` when it has one), as `similar`'s line diff computes them.
pub uninterp spec fn line_diff(old: Seq<char>, new: Seq<char>) -> Seq<(ChangeKind, Seq<char>)>;

/// The plain contents of a list of line changes.
pub open spec fn changes_view(c: Seq<(ChangeKind, String)>) -> Seq<(ChangeKind, Seq<char>)> {
    c.map_values(|x: (ChangeKind, String)| (x.0, x.1@))
}

/// The changes of `similar::TextDiff::from_lines(old, new).iter_all_changes()`,
/// each as its tag and value.
#[verifier::external_body]
fn diff_lines(old: &str, new: &str) -> (r: Vec<(ChangeKind, String)>)
    ensures
        changes_view(r@) == line_diff(old@, new@),
{
    let diff = similar::TextDiff::from_lines(old, new);
    let mut out = Vec::new();
    for change in diff.iter_all_changes() {
        let kind = match change.tag() {
            similar::ChangeTag::Delete => ChangeKind::Delete,
            similar::ChangeTag::Insert => ChangeKind::Insert,
            similar::ChangeTag::Equal => ChangeKind::Equal,
        };
        out.push((kind, change.value().to_string()));
    }
    out
}

/// `w - k`, or 0 when `w < k`.
pub open spec fn sat_sub(w: int, k: int) -> int {
    if w >= k { w - k } else { 0 }
}

/// A line holding one span.
pub open spec fn single(content: Seq<char>, style: Style) -> Seq<SpanView> {
    seq![SpanView { content, style }]
}

/// A line of output: two spaces, then the line cut to the width left.
pub open spec fn body_line(l: Seq<char>, w: int, style: Style) -> Seq<SpanView> {
    single(seq![' ', ' '] + truncated(l, sat_sub(w, 2)), style)
}

/// `body_line` of each of `ls`.
pub open spec fn body_lines(ls: Seq<Seq<char>>, w: int, style: Style) -> Seq<Seq<SpanView>> {
    Seq::new(ls.len(), |i: int| body_line(ls[i], w, style))
}

/// The lines of one change of a diff, if it shows: `  - `, `  + ` or `    `
/// before the line (its final newlines removed, cut to the width left), red,
/// green or grey; an unchanged empty line is not shown.
pub open spec fn change_line(c: (ChangeKind, Seq<char>), w: int) -> Seq<Seq<SpanView>> {
    let text = trim_end_char(c.1, '\n');
    let prefix = match c.0 {
        ChangeKind::Delete => '-',
        ChangeKind::Insert => '+',
        ChangeKind::Equal => ' ',
    };
    let color = match c.0 {
        ChangeKind::Delete => Color::Red,
        ChangeKind::Insert => Color::Green,
        ChangeKind::Equal => Color::DarkGray,
    };
    if text.len() > 0 || c.0 != ChangeKind::Equal {
        seq![single(seq![' ', ' ', prefix, ' '] + truncated(text, sat_sub(w, 4)), Style { fg: Some(color), ..plain_style() })]
    } else {
        Seq::empty()
    }
}

/// The lines of the changes `cs[i..]`.
pub open spec fn change_lines(cs: Seq<(ChangeKind, Seq<char>)>, i: int, w: int) -> Seq<Seq<SpanView>>
    decreases cs.len() - i,
{
    if i < 0 || i >= cs.len() {
        Seq::empty()
    } else {
        change_line(cs[i], w) + change_lines(cs, i + 1, w)
    }
}

/// The grey style.
pub open spec fn grey() -> Style {
    Style { fg: Some(Color::DarkGray), ..plain_style() }
}

/// The lines of a diff: those of its changes, or `  (no changes)` when none shows.
pub open spec fn diff_view(cs: Seq<(ChangeKind, Seq<char>)>, w: int) -> Seq<Seq<SpanView>> {
    let l = change_lines(cs, 0, w);
    if l.len() == 0 {
        seq![single("  (no changes)"@, grey())]
    } else {
        l
    }
}

/// The plain contents of a list of lines.
pub open spec fn lines_view(ls: Seq<Vec<StyledSpan>>) -> Seq<Seq<SpanView>> {
    ls.map_values(|l: Vec<StyledSpan>| span_views(l@))
}

fn push_line(ls: &mut Vec<Vec<StyledSpan>>, content: String, style: Style)
    ensures
        lines_view(final(ls)@) == lines_view(old(ls)@).push(single(content@, style)),
{
    let mut l: Vec<StyledSpan> = Vec::new();
    l.push(StyledSpan { content, style });
    let ghost before = ls@;
    ls.push(l);
    assert(span_views(l@) =~= single(content@, style));
    assert(lines_view(ls@) =~= lines_view(before).push(single(content@, style)));
}

/// The lines shown for the changes of a diff (see `diff_view`).
pub fn diff_view_lines(changes: &Vec<(ChangeKind, String)>, max_width: usize) -> (r: Vec<Vec<StyledSpan>>)
    ensures
        lines_view(r@) == diff_view(changes_view(changes@), max_width as int),
{
    let ghost cs = changes_view(changes@);
    let mut r: Vec<Vec<StyledSpan>> = Vec::new();
    let mut i: usize = 0;
    let w4: usize = if max_width >= 4 { max_width - 4 } else { 0 };
    assert(lines_view(r@) + change_lines(cs, 0, max_width as int) =~= change_lines(cs, 0, max_width as int));
    while i < changes.len()
        invariant
            i <= changes@.len(),
            cs == changes_view(changes@),
            w4 == sat_sub(max_width as int, 4),
            lines_view(r@) + change_lines(cs, i as int, max_width as int) == change_lines(cs, 0, max_width as int),
        decreases changes@.len() - i,
    {
        let kind = changes[i].0;
        let text = trim_end_matches_newline(changes[i].1.as_str());
        let ghost before = lines_view(r@);
        if !text.as_str().is_empty() || kind != ChangeKind::Equal {
            let prefix = match kind {
                ChangeKind::Delete => "  - ",
                ChangeKind::Insert => "  + ",
                ChangeKind::Equal => "    ",
            };
            let color = match kind {
                ChangeKind::Delete => Color::Red,
                ChangeKind::Insert => Color::Green,
                ChangeKind::Equal => Color::DarkGray,
            };
            let line = concat(prefix, truncate(text.as_str(), w4).as_str());
            proof {
                reveal_strlit("  - ");
                reveal_strlit("  + ");
                reveal_strlit("    ");
            }
            let ghost c = cs[i as int];
            assert(c == (kind, changes@[i as int].1@));
            let ghost pc = match kind {
                ChangeKind::Delete => '-',
                ChangeKind::Insert => '+',
                ChangeKind::Equal => ' ',
            };
            assert(prefix@ =~= seq![' ', ' ', pc, ' ']);
            assert(line@ =~= seq![' ', ' ', pc, ' '] + truncated(trim_end_char(c.1, '\n'), sat_sub(max_width as int, 4)));
            assert(change_line(c, max_width as int) == seq![single(line@, Style { fg: Some(color), ..plain_style() })]);
            push_line(&mut r, line, Style::new().with_fg(color));
            assert(lines_view(r@) + change_lines(cs, i + 1, max_width as int) =~= before + change_lines(cs, i as int, max_width as int));
        } else {
            assert(change_line(cs[i as int], max_width as int) =~= Seq::<Seq<SpanView>>::empty());
            assert(lines_view(r@) + change_lines(cs, i + 1, max_width as int) =~= before + change_lines(cs, i as int, max_width as int));
        }
        i += 1;
    }
    assert(lines_view(r@) + change_lines(cs, i as int, max_width as int) =~= lines_view(r@));
    if r.len() == 0 {
        proof {
            reveal_strlit("  (no changes)");
        }
        push_line(&mut r, to_owned_string("  (no changes)"), Style::new().with_fg(Color::DarkGray));
    }
    r
}

fn trim_end_matches_newline(s: &str) -> (r: String)
    ensures
        r@ == trim_end_char(s@, '\n'),
{
    let v = chars_of(s);
    let mut end: usize = v.len();
    assert(v@.subrange(0, v@.len() as int) =~= s@);
    while end > 0 && v[end - 1] == '\n'
        invariant
            end <= v@.len(),
            v@ == s@,
            trim_end_char(s@, '\n') == trim_end_char(v@.subrange(0, end as int), '\n'),
        decreases end,
    {
        assert(v@.subrange(0, end as int).drop_last() =~= v@.subrange(0, end - 1));
        end -= 1;
    }
    assert(v@.subrange(0, v@.len() as int) =~= v@);
    string_of(&v, 0, end)
}

/// The diff lines between the previous and the new output (see `diff_view`
/// over `line_diff`).
pub fn render_diff_lines(prev: &str, curr: &str, max_width: usize) -> (r: Vec<Vec<StyledSpan>>)
    ensures
        lines_view(r@) == diff_view(line_diff(prev@, curr@), max_width as int),
{
    let changes = diff_lines(prev, curr);
    diff_view_lines(&changes, max_width)
}

/// The style of normal output lines: none.
pub open spec fn colored(c: Color) -> Style {
    Style { fg: Some(c), ..plain_style() }
}

/// The style of an orphan's lines: grey and crossed out.
pub open spec fn orphan_style() -> Style {
    Style { fg: Some(Color::DarkGray), crossed_out: true, ..plain_style() }
}

/// The lines an output box shows for its state, `w` columns wide: a waiting
/// note; the lines printed so far (what went to stderr in yellow after an
/// empty line), or a running note when there are none; a diff against the
/// previous output when there is one and the box writes a code block,
/// otherwise the output's lines; the error's lines in red; an orphan's
/// lines grey and crossed out.
pub open spec fn spec_render_lines(st: StateView, t: OutputType, w: int) -> Seq<Seq<SpanView>> {
    match st {
        StateView::Pending => seq![single("  (waiting...)"@, grey())],
        StateView::Running { out, err, .. } => {
            let a = body_lines(out, w, plain_style());
            let b = if err.len() == 0 {
                a
            } else {
                a + seq![Seq::empty()] + body_lines(err, w, colored(Color::Yellow))
            };
            if b.len() == 0 {
                seq![single("  ⠋ running..."@, grey())]
            } else {
                b
            }
        },
        StateView::Completed { output, previous, .. } => match previous {
            Some(p) => if t != OutputType::Comment {
                diff_view(line_diff(p, output), w)
            } else {
                body_lines(spec_lines(output), w, plain_style())
            },
            None => body_lines(spec_lines(output), w, plain_style()),
        },
        StateView::Failed { error } => body_lines(spec_lines(error), w, colored(Color::Red)),
        StateView::Orphaned { content } => body_lines(spec_lines(content), w, orphan_style()),
    }
}

/// Appends the body lines of `lines` (see `body_line`).
fn push_body_lines(r: &mut Vec<Vec<StyledSpan>>, lines: &Vec<String>, w: usize, style: Style)
    ensures
        lines_view(final(r)@) == lines_view(old(r)@) + body_lines(strings(lines@), w as int, style),
{
    let ghost start = lines_view(r@);
    let ghost ls = strings(lines@);
    let w2: usize = if w >= 2 { w - 2 } else { 0 };
    let mut i: usize = 0;
    while i < lines.len()
        invariant
            i <= lines@.len(),
            ls == strings(lines@),
            w2 == sat_sub(w as int, 2),
            lines_view(r@) == start + body_lines(ls, w as int, style).take(i as int),
        decreases lines@.len() - i,
    {
        let t = truncate(lines[i].as_str(), w2);
        let line = concat("  ", t.as_str());
        proof {
            reveal_strlit("  ");
        }
        assert(line@ =~= seq![' ', ' '] + truncated(ls[i as int], sat_sub(w as int, 2)));
        push_line(r, line, style);
        assert(body_lines(ls, w as int, style).take(i + 1) =~= body_lines(ls, w as int, style).take(i as int).push(single(line@, style)));
        i += 1;
    }
    assert(body_lines(ls, w as int, style).take(lines@.len() as int) =~= body_lines(ls, w as int, style));
}

fn body_lines_of(text: &str, w: usize, style: Style) -> (r: Vec<Vec<StyledSpan>>)
    ensures
        lines_view(r@) == body_lines(spec_lines(text@), w as int, style),
{
    let ls = crate::text::text_lines(text);
    assert(strings(ls@) =~= ls@.map_values(|x: String| x@));
    let mut r: Vec<Vec<StyledSpan>> = Vec::new();
    push_body_lines(&mut r, &ls, w, style);
    assert(lines_view(Seq::<Vec<StyledSpan>>::empty()) + body_lines(spec_lines(text@), w as int, style) =~= body_lines(spec_lines(text@), w as int, style));
    r
}

/// The state of an output box, as its header shows it.
#[derive(Debug, Clone, Copy, PartialEq, Eq, Structural)]
pub enum Status {
    Pending,
    Running,
    Changed,
    Done,
    Failed,
    Orphaned,
}

impl OutputBox<'_> {
    /// The lines the box shows, `max_width` columns wide (see `spec_render_lines`).
    pub fn render_lines(&self, max_width: usize) -> (r: Vec<Vec<StyledSpan>>)
        ensures
            lines_view(r@) == spec_render_lines(self.state@, self.output_type, max_width as int),
    {
        match self.state {
            OutputState::Pending => {
                let mut r: Vec<Vec<StyledSpan>> = Vec::new();
                proof {
                    reveal_strlit("  (waiting...)");
                }
                push_line(&mut r, to_owned_string("  (waiting...)"), Style::new().with_fg(Color::DarkGray));
                assert(lines_view(r@) =~= seq![single("  (waiting...)"@, grey())]);
                r
            },
            OutputState::Running { live_lines, stderr_lines, .. } => {
                let mut r: Vec<Vec<StyledSpan>> = Vec::new();
                let out = deque_to_vec(live_lines);
                push_body_lines(&mut r, &out, max_width, Style::new());
                assert(lines_view(r@) =~= body_lines(deque_strings(*live_lines), max_width as int, plain_style()));
                if stderr_lines.len() > 0 {
                    let ghost before = lines_view(r@);
                    r.push(Vec::new());
                    assert(lines_view(r@) =~= before + seq![Seq::<SpanView>::empty()]) by {
                        assert(span_views(Seq::<StyledSpan>::empty()) =~= Seq::<SpanView>::empty());
                    }
                    let err = deque_to_vec(stderr_lines);
                    push_body_lines(&mut r, &err, max_width, Style::new().with_fg(Color::Yellow));
                }
                if r.len() == 0 {
                    proof {
                        reveal_strlit("  ⠋ running...");
                    }
                    push_line(&mut r, to_owned_string("  ⠋ running..."), Style::new().with_fg(Color::DarkGray));
                    assert(lines_view(r@) =~= seq![single("  ⠋ running..."@, grey())]);
                }
                r
            },
            OutputState::Completed { output, previous_output, .. } => {
                match previous_output {
                    Some(prev) => {
                        if self.output_type != OutputType::Comment {
                            render_diff_lines(prev.as_str(), output.as_str(), max_width)
                        } else {
                            body_lines_of(output.as_str(), max_width, Style::new())
                        }
                    },
                    None => body_lines_of(output.as_str(), max_width, Style::new()),
                }
            },
            OutputState::Failed { error } => body_lines_of(error.as_str(), max_width, Style::new().with_fg(Color::Red)),
            OutputState::Orphaned { content } => {
                let st = Style { fg: Some(Color::DarkGray), crossed_out: true, ..Style::new() };
                body_lines_of(content.as_str(), max_width, st)
            },
        }
    }

    /// The lines of the box's content (those of `render_lines`).
    pub fn content_lines(&self, max_width: usize) -> (r: Vec<Vec<StyledSpan>>)
        ensures
            lines_view(r@) == spec_render_lines(self.state@, self.output_type, max_width as int),
    {
        self.render_lines(max_width)
    }

    /// Where the run stands, as the header shows it: a finished run whose
    /// previous output is known shows as changed.
    pub fn status(&self) -> (r: Status)
        ensures
            r == match self.state@ {
                StateView::Pending => Status::Pending,
                StateView::Running { .. } => Status::Running,
                StateView::Completed { previous, .. } => if previous is Some {
                    Status::Changed
                } else {
                    Status::Done
                },
                StateView::Failed { .. } => Status::Failed,
                StateView::Orphaned { .. } => Status::Orphaned,
            },
    {
        match self.state {
            OutputState::Pending => Status::Pending,
            OutputState::Running { .. } => Status::Running,
            OutputState::Completed { previous_output, .. } => if previous_output.is_some() {
                Status::Changed
            } else {
                Status::Done
            },
            OutputState::Failed { .. } => Status::Failed,
            OutputState::Orphaned { .. } => Status::Orphaned,
        }
    }

    /// The status shown in the box's header: `○ pending` grey, `▶ {time}`
    /// yellow, `~ changed {time}` magenta, `✓ {time}` green, `✗ error` red,
    /// `○ orphan` grey and crossed out; `time` is the elapsed or total time
    /// of the run, as the caller writes it.
    pub fn status_indicator(&self, time: &str) -> (r: StyledSpan)
        ensures
            r@ == match self.state@ {
                StateView::Pending => SpanView { content: "○ pending"@, style: grey() },
                StateView::Running { .. } => SpanView { content: "▶ "@ + time@, style: colored(Color::Yellow) },
                StateView::Completed { previous, .. } => if previous is Some {
                    SpanView { content: "~ changed "@ + time@, style: colored(Color::LightMagenta) }
                } else {
                    SpanView { content: "✓ "@ + time@, style: colored(Color::Green) }
                },
                StateView::Failed { .. } => SpanView { content: "✗ error"@, style: colored(Color::Red) },
                StateView::Orphaned { .. } => SpanView { content: "○ orphan"@, style: orphan_style() },
            },
    {
        match self.state {
            OutputState::Pending => StyledSpan { content: to_owned_string("○ pending"), style: Style::new().with_fg(Color::DarkGray) },
            OutputState::Running { .. } => StyledSpan { content: concat("▶ ", time), style: Style::new().with_fg(Color::Yellow) },
            OutputState::Completed { previous_output, .. } => if previous_output.is_some() {
                StyledSpan { content: concat("~ changed ", time), style: Style::new().with_fg(Color::LightMagenta) }
            } else {
                StyledSpan { content: concat("✓ ", time), style: Style::new().with_fg(Color::Green) }
            },
            OutputState::Failed { .. } => StyledSpan { content: to_owned_string("✗ error"), style: Style::new().with_fg(Color::Red) },
            OutputState::Orphaned { .. } => StyledSpan {
                content: to_owned_string("○ orphan"),
                style: Style { fg: Some(Color::DarkGray), crossed_out: true, ..Style::new() },
            },
        }
    }

    /// The box's header: ` {status} │ {output type} `.
    pub fn header(&self, status: &str) -> (r: String)
        ensures
            r@ == " "@ + status@ + " │ "@ + (if self.output_type == OutputType::Block { "output"@ } else { "comment"@ }) + " "@,
    {
        let a = concat(" ", status);
        let b = concat(a.as_str(), " │ ");
        let c = concat(b.as_str(), self.output_type.label());
        concat(c.as_str(), " ")
    }
}

/// How a box is drawn in an area `width` columns wide and `height` rows
/// high, holding `lines` lines of which the first `skip` are scrolled away.
#[derive(Debug, PartialEq, Eq)]
pub enum BoxDraw {
    /// Only the box's bottom edge shows, the given characters wide.
    BottomEdge(String),
    /// The area is too narrow for the bottom edge: nothing shows.
    Blank,
    /// The box is framed, and `count` of its lines show inside, from line `first` on.
    Framed { first: usize, count: usize },
}

/// A bottom edge `width` characters wide: `└`, then `─`s, then `┘`.
pub open spec fn bottom_edge(width: int) -> Seq<char> {
    seq!['└'] + Seq::new((width - 2) as nat, |i: int| '─') + seq!['┘']
}

/// How the box is drawn: a box scrolled into a single row shows only its
/// bottom edge (nothing when that row is under two columns wide); otherwise
/// it is framed and its inside, two rows and two columns smaller, shows its
/// lines from the first one not scrolled away, as many as fit.
pub open spec fn spec_box_draw(skip: int, width: int, height: int, lines: int) -> (Option<Option<Seq<char>>>, int, int) {
    if skip > 0 && height == 1 {
        if width >= 2 {
            (Some(Some(bottom_edge(width))), 0, 0)
        } else {
            (Some(None), 0, 0)
        }
    } else {
        let inner = if height >= 2 && width >= 2 { height - 2 } else { 0 };
        let first = if skip < lines { skip } else { lines };
        let count = if lines - first < inner { lines - first } else { inner };
        (None, first, count)
    }
}

/// How a box is drawn (see `spec_box_draw`).
pub fn box_draw(skip: usize, width: u16, height: u16, lines: usize) -> (r: BoxDraw)
    ensures
        match spec_box_draw(skip as int, width as int, height as int, lines as int) {
            (Some(Some(e)), _, _) => r matches BoxDraw::BottomEdge(s) && s@ == e,
            (Some(None), _, _) => r is Blank,
            (None, first, count) => r matches BoxDraw::Framed { first: f, count: c } && f == first && c == count,
        },
{
    if skip > 0 && height == 1 {
        if width >= 2 {
            let mut s = to_owned_string("└");
            proof {
                reveal_strlit("└");
                reveal_strlit("─");
                reveal_strlit("┘");
            }
            let mut i: u16 = 0;
            while i < width - 2
                invariant
                    width >= 2,
                    i <= width - 2,
                    s@ == seq!['└'] + Seq::new(i as nat, |k: int| '─'),
                decreases width - 2 - i,
            {
                let next = concat(s.as_str(), "─");
                proof {
                    reveal_strlit("─");
                }
                assert(next@ =~= seq!['└'] + Seq::new((i + 1) as nat, |k: int| '─'));
                s = next;
                i += 1;
            }
            let r = concat(s.as_str(), "┘");
            proof {
                reveal_strlit("┘");
            }
            assert(r@ =~= bottom_edge(width as int));
            BoxDraw::BottomEdge(r)
        } else {
            BoxDraw::Blank
        }
    } else {
        let inner: usize = if height >= 2 && width >= 2 { (height - 2) as usize } else { 0 };
        let first: usize = if skip < lines { skip } else { lines };
        let count: usize = if lines - first < inner { lines - first } else { inner };
        BoxDraw::Framed { first, count }
    }
}

} // verus!
