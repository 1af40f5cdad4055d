//! The event-stream pipeline: markdown read as a stream of events
//! (`pulldown-cmark`), every fenced code block in a known language run, its
//! output written after it (as an `output` code block, or as an output
//! comment when one already follows), and the events written back as
//! markdown (`pulldown-cmark-to-cmark`).
use crate::document::{output_marker, output_word};
use crate::process::{lossy_utf8, new_runtime, remove_file, run_process, utf8_lossy, write_file, FileWrite, ProcessOutput, ProcessRun};
use crate::text::{str_eq, chars_of, concat, contains, is_whitespace_char, is_ws, lead_ws_from, str_contains, string_of, to_owned_string, trim, trim_start, trim_string};
use pulldown_cmark::CodeBlockKind::Fenced;
use pulldown_cmark::Tag::CodeBlock;
use pulldown_cmark::{Event, Parser, Tag, TagEnd};
use pulldown_cmark_to_cmark::{calculate_code_block_token_count, cmark_with_options, Options as CmarkOptions};
use self::MdEvent::{EndCode, Html, Other, StartFenced, StartHtmlBlock, Text};
use vstd::prelude::*;

verus! {

/// An event of the stream, as the pipeline reads it.
#[derive(Debug)]
pub enum MdEvent {
    /// The start of a fenced code block, with its info string.
    StartFenced(String),
    /// The end of a code block.
    EndCode,
    /// The start of an HTML block: its position in the stream the text was read into.
    StartHtmlBlock(usize),
    /// Text.
    Text(String),
    /// HTML.
    Html(String),
    /// Any other event: its position in the stream the text was read into.
    Other(usize),
}

/// The plain contents of an event.
pub enum EventView {
    StartFenced(Seq<char>),
    EndCode,
    StartHtmlBlock(int),
    Text(Seq<char>),
    Html(Seq<char>),
    Other(int),
}

impl View for MdEvent {
    type V = EventView;

    open spec fn view(&self) -> EventView {
        match self {
            MdEvent::StartFenced(s) => EventView::StartFenced(s@),
            MdEvent::EndCode => EventView::EndCode,
            MdEvent::StartHtmlBlock(i) => EventView::StartHtmlBlock(*i as int),
            MdEvent::Text(s) => EventView::Text(s@),
            MdEvent::Html(s) => EventView::Html(s@),
            MdEvent::Other(i) => EventView::Other(*i as int),
        }
    }
}

/// The plain contents of a sequence of events.
pub open spec fn events_view(s: Seq<MdEvent>) -> Seq<EventView> {
    s.map_values(|e: MdEvent| e@)
}

/// The events `pulldown_cmark::Parser::new` reads `input` into (default
/// options), each as the pipeline reads it.
pub uninterp spec fn md_events(input: Seq<char>) -> Seq<EventView>;

/// The position an event holds, if any (an `Other` or an HTML-block start), is below `n`.
pub open spec fn index_ok(e: EventView, n: int) -> bool {
    match e {
        EventView::Other(i) => 0 <= i < n,
        EventView::StartHtmlBlock(i) => 0 <= i < n,
        _ => true,
    }
}

/// Every position the events hold is below `n`.
pub open spec fn indices_below(evs: Seq<EventView>, n: int) -> bool {
    forall|k: int| 0 <= k < evs.len() ==> index_ok(#[trigger] evs[k], n)
}

/// The events of `input` (`pulldown_cmark::Parser::new`), as the pipeline
/// reads them; an event held by its position holds the position it was read at.
#[verifier::external_body]
fn parse_events(input: &str) -> (r: Vec<MdEvent>)
    ensures
        events_view(r@) == md_events(input@),
        forall|k: int|
            0 <= k < r@.len() ==> match #[trigger] r@[k] {
                MdEvent::Other(i) => i == k,
                MdEvent::StartHtmlBlock(i) => i == k,
                _ => true,
            },
{
    let mut out = Vec::new();
    for (i, e) in Parser::new(input).enumerate() {
        out.push(match e {
            Event::Start(CodeBlock(Fenced(info))) => StartFenced(info.to_string()),
            Event::End(TagEnd::CodeBlock) => EndCode,
            Event::Start(Tag::HtmlBlock) => StartHtmlBlock(i),
            Event::Text(t) => Text(t.to_string()),
            Event::Html(h) => Html(h.to_string()),
            _ => Other(i),
        });
    }
    out
}

/// The first whitespace-separated word of `s`, or nothing
/// (`s.split_whitespace().next().unwrap_or("")`).
pub open spec fn first_word(s: Seq<char>) -> Seq<char> {
    let t = trim_start(s);
    t.subrange(0, word_end(t, 0))
}

/// The position of the first whitespace character of `t` from `i` on, or its length.
pub open spec fn word_end(t: Seq<char>, i: int) -> int
    decreases t.len() - i,
{
    if i < 0 || i >= t.len() || is_ws(t[i]) {
        if i < 0 { 0 } else if i > t.len() { t.len() as int } else { i }
    } else {
        word_end(t, i + 1)
    }
}

/// The first word of `s` (see `first_word`).
pub fn first_word_of(s: &str) -> (r: String)
    ensures
        r@ == first_word(s@),
{
    let v = chars_of(s);
    let mut a: usize = 0;
    while a < v.len() && is_whitespace_char(v[a])
        invariant
            a <= v@.len(),
            v@ == s@,
            lead_ws_from(v@, 0) == a + lead_ws_from(v@, a as int),
        decreases v@.len() - a,
    {
        a += 1;
    }
    let ghost t = trim_start(s@);
    assert(t =~= v@.subrange(a as int, v@.len() as int));
    let mut b: usize = a;
    while b < v.len() && !is_whitespace_char(v[b])
        invariant
            a <= b <= v@.len(),
            v@ == s@,
            t == v@.subrange(a as int, v@.len() as int),
            word_end(t, 0) == word_end(t, b - a),
        decreases v@.len() - b,
    {
        b += 1;
    }
    assert(t.subrange(0, word_end(t, 0)) =~= v@.subrange(a as int, b as int));
    string_of(&v, a, b)
}

/// The languages the pipeline runs.
pub open spec fn runs_language(lang: Seq<char>) -> bool {
    ||| lang == "sh"@
    ||| lang == "bash"@
    ||| lang == "shell"@
    ||| lang == "python"@
    ||| lang == "python3"@
    ||| lang == "js"@
    ||| lang == "javascript"@
    ||| lang == "node"@
    ||| lang == "ruby"@
    ||| lang == "perl"@
    ||| lang == "php"@
    ||| lang == "go"@
    ||| lang == "rust"@
}

/// Whether the pipeline runs code in `lang` (see `runs_language`).
pub fn should_execute(lang: &str) -> (r: bool)
    ensures
        r == runs_language(lang@),
{
    str_eq(lang, "sh") || str_eq(lang, "bash") || str_eq(lang, "shell") || str_eq(lang, "python") || str_eq(lang, "python3")
        || str_eq(lang, "js") || str_eq(lang, "javascript") || str_eq(lang, "node") || str_eq(lang, "ruby") || str_eq(lang, "perl")
        || str_eq(lang, "php") || str_eq(lang, "go") || str_eq(lang, "rust")
}

/// How an existing output is written after a code block.
#[derive(Debug, Clone, Copy, PartialEq, Eq, Structural)]
pub enum OutputStyle {
    CodeBlock,
    Comment,
}

/// The style of the output that follows the code block ending at `after`,
/// looking from `j` on: text and code-block ends are passed over; an
/// `output` code block or HTML holding `<!-- output:` is an existing output
/// (for an HTML block, the event two after `after` is the one looked at);
/// anything else means there is none.
pub open spec fn detect_from(all: Seq<EventView>, j: int, after: int) -> Option<OutputStyle>
    decreases all.len() - j,
{
    if j < 0 || j >= all.len() {
        None
    } else {
        match all[j] {
            EventView::StartFenced(info) => if first_word(info) == output_word() {
                Some(OutputStyle::CodeBlock)
            } else {
                None
            },
            EventView::StartHtmlBlock(_) => if 0 <= after + 2 < all.len() && (all[after + 2] matches EventView::Html(c) && contains(c, output_marker())) {
                Some(OutputStyle::Comment)
            } else {
                None
            },
            EventView::Html(c) => if contains(c, output_marker()) {
                Some(OutputStyle::Comment)
            } else {
                None
            },
            EventView::Text(_) => detect_from(all, j + 1, after),
            EventView::EndCode => detect_from(all, j + 1, after),
            _ => None,
        }
    }
}

fn is_output_html(c: &str) -> (r: bool)
    ensures
        r == contains(c@, output_marker()),
{
    let r = str_contains(c, "<!-- output:");
    proof {
        reveal_strlit("<!-- output:");
        assert("<!-- output:"@ =~= output_marker());
    }
    r
}

fn is_output_info(info: &str) -> (r: bool)
    ensures
        r == (first_word(info@) == output_word()),
{
    let w = first_word_of(info);
    let r = crate::text::str_eq(w.as_str(), "output");
    proof {
        reveal_strlit("output");
        assert("output"@ =~= output_word());
    }
    r
}

/// The style of the output that already follows the code block ending at
/// event `after_idx` (see `detect_from`).
pub fn detect_existing_output(events: &Vec<MdEvent>, after_idx: usize) -> (r: Option<OutputStyle>)
    ensures
        r == detect_from(events_view(events@), after_idx + 1, after_idx as int),
{
    let ghost all = events_view(events@);
    let mut j: usize = after_idx;
    while j < events.len()
        invariant
            all == events_view(events@),
            after_idx <= j,
            detect_from(all, after_idx + 1, after_idx as int) == detect_from(all, j + 1, after_idx as int),
        decreases events@.len() - j,
    {
        if j + 1 >= events.len() {
            return None;
        }
        let k = j + 1;
        assert(all[k as int] == events@[k as int]@);
        match &events[k] {
            MdEvent::StartFenced(info) => {
                return if is_output_info(info.as_str()) { Some(OutputStyle::CodeBlock) } else { None };
            },
            MdEvent::StartHtmlBlock(_) => {
                if events.len() >= 3 && after_idx <= events.len() - 3 {
                    assert(all[after_idx + 2] == events@[after_idx + 2]@);
                    match &events[after_idx + 2] {
                        MdEvent::Html(c) => {
                            return if is_output_html(c.as_str()) { Some(OutputStyle::Comment) } else { None };
                        },
                        _ => {
                            return None;
                        },
                    }
                }
                return None;
            },
            MdEvent::Html(c) => {
                return if is_output_html(c.as_str()) { Some(OutputStyle::Comment) } else { None };
            },
            MdEvent::Text(_) => {},
            MdEvent::EndCode => {},
            _ => {
                return None;
            },
        }
        j = j + 1;
    }
    None
}

/// The state of the pass over the events: the events written so far,
/// whether a fenced code block is open, its text and language so far, how
/// many more ends close the existing output being skipped, whether the
/// start of that output has been passed, how many outputs were used, and the
/// code run so far (language and code).
pub struct PassState {
    pub out: Seq<EventView>,
    pub in_code: bool,
    pub code: Seq<char>,
    pub lang: Seq<char>,
    pub skip: int,
    pub opened: bool,
    pub used: int,
    pub runs: Seq<(Seq<char>, Seq<char>)>,
}

/// The state before the first event.
pub open spec fn pass_start() -> PassState {
    PassState { out: Seq::empty(), in_code: false, code: Seq::empty(), lang: Seq::empty(), skip: 0, opened: false, used: 0, runs: Seq::empty() }
}

/// The output number `k`, or nothing when there are fewer outputs.
pub open spec fn output_at(outs: Seq<Seq<char>>, k: int) -> Seq<char> {
    if 0 <= k < outs.len() { outs[k] } else { Seq::empty() }
}

/// `\n<!-- output: {out} -->\n`
pub open spec fn output_comment_html(out: Seq<char>) -> Seq<char> {
    "\n<!-- output: "@ + out + " -->\n"@
}

/// The events written after a code block in language `lang` whose output
/// is `output`: the code as one text event and the end of the block, then,
/// when the output is not empty, the output as an `output` code block or as
/// an output comment.
pub open spec fn after_block(out: Seq<EventView>, code: Seq<char>, output: Seq<char>, style: OutputStyle) -> Seq<EventView> {
    let base = out.push(EventView::Text(code)).push(EventView::EndCode);
    if output.len() > 0 {
        match style {
            OutputStyle::CodeBlock => base + seq![EventView::StartFenced(output_word()), EventView::Text(output), EventView::EndCode],
            OutputStyle::Comment => base.push(EventView::Html(output_comment_html(output))),
        }
    } else {
        base
    }
}

/// One step of the pass, at event `idx`, the outputs of the code run being
/// `outs`, in order. While an existing output is skipped, only the nesting
/// is followed: the start of the skipped output itself opens nothing, a
/// further `output` block opens one more level, and a code-block end or an
/// output comment closes one. Otherwise: text inside a fenced block is gathered; a fenced
/// block opens (its language the first word of its info string); at its end,
/// an `output` block is written back as it was, and any other block is
/// written with its text, its code run when its language is one the
/// pipeline runs, and its output after it (see `after_block`), in the style
/// of an output that already follows it (which is then skipped); every
/// other event is written as it is.
pub open spec fn pass_step(all: Seq<EventView>, idx: int, s: PassState, outs: Seq<Seq<char>>) -> PassState {
    let e = all[idx];
    if s.skip > 0 {
        if e matches EventView::StartFenced(info) && first_word(info) == output_word() {
            if s.opened {
                PassState { skip: s.skip + 1, ..s }
            } else {
                PassState { opened: true, ..s }
            }
        } else if e is EndCode {
            PassState { skip: s.skip - 1, ..s }
        } else if e matches EventView::Html(c) && contains(c, output_marker()) {
            PassState { skip: s.skip - 1, ..s }
        } else {
            s
        }
    } else {
        match e {
            EventView::Text(t) => if s.in_code {
                PassState { code: s.code + t, ..s }
            } else {
                PassState { out: s.out.push(e), ..s }
            },
            EventView::StartFenced(info) => PassState { in_code: true, code: Seq::empty(), lang: first_word(info), out: s.out.push(e), ..s },
            EventView::EndCode => if s.in_code {
                if s.lang == output_word() {
                    PassState {
                        out: (if s.code.len() > 0 { s.out.push(EventView::Text(s.code)) } else { s.out }).push(EventView::EndCode),
                        in_code: false,
                        ..s
                    }
                } else {
                    let run = runs_language(s.lang);
                    let output = if run { output_at(outs, s.used) } else { Seq::empty() };
                    let existing = detect_from(all, idx + 1, idx);
                    let style = match existing {
                        Some(st) => st,
                        None => OutputStyle::CodeBlock,
                    };
                    PassState {
                        out: after_block(s.out, s.code, output, style),
                        in_code: false,
                        used: if run { s.used + 1 } else { s.used },
                        runs: if run { s.runs.push((s.lang, s.code)) } else { s.runs },
                        skip: if existing is Some { 1 } else { s.skip },
                        opened: false,
                        ..s
                    }
                }
            } else {
                PassState { out: s.out.push(e), ..s }
            },
            _ => PassState { out: s.out.push(e), ..s },
        }
    }
}

/// The pass over `all[i..]` from state `s`.
pub open spec fn pass_from(all: Seq<EventView>, i: int, s: PassState, outs: Seq<Seq<char>>) -> PassState
    decreases all.len() - i,
{
    if i < 0 || i >= all.len() {
        s
    } else {
        pass_from(all, i + 1, pass_step(all, i, s, outs), outs)
    }
}

/// The events the pipeline writes for `all`, the code it runs giving `outs`.
pub open spec fn spec_process(all: Seq<EventView>, outs: Seq<Seq<char>>) -> Seq<EventView> {
    pass_from(all, 0, pass_start(), outs).out
}

/// The code the pipeline runs for `all`, in order: language and code.
pub open spec fn spec_runs(all: Seq<EventView>) -> Seq<(Seq<char>, Seq<char>)> {
    pass_from(all, 0, pass_start(), Seq::empty()).runs
}

/// The strings of `ts` joined in order.
pub open spec fn joined(ts: Seq<Seq<char>>) -> Seq<char>
    decreases ts.len(),
{
    if ts.len() == 0 {
        Seq::empty()
    } else {
        joined(ts.drop_last()) + ts.last()
    }
}

/// Text events holding the strings of `ts`, in order.
pub open spec fn text_events(ts: Seq<Seq<char>>) -> Seq<EventView> {
    ts.map_values(|t: Seq<char>| EventView::Text(t))
}

/// `longer` begins with `shorter`.
pub open spec fn begins_with<A>(longer: Seq<A>, shorter: Seq<A>) -> bool {
    shorter.len() <= longer.len() && longer.subrange(0, shorter.len() as int) == shorter
}

proof fn lemma_begins_trans<A>(c: Seq<A>, b: Seq<A>, a: Seq<A>)
    requires
        begins_with(c, b),
        begins_with(b, a),
    ensures
        begins_with(c, a),
{
    assert(c.subrange(0, a.len() as int) =~= b.subrange(0, a.len() as int));
}

/// One step of the pass only adds to the events written and the code run.
proof fn lemma_step_extends(all: Seq<EventView>, idx: int, s: PassState, outs: Seq<Seq<char>>)
    requires
        0 <= idx < all.len(),
    ensures
        begins_with(pass_step(all, idx, s, outs).out, s.out),
        begins_with(pass_step(all, idx, s, outs).runs, s.runs),
{
    let t = pass_step(all, idx, s, outs);
    assert(t.out.subrange(0, s.out.len() as int) =~= s.out);
    assert(t.runs.subrange(0, s.runs.len() as int) =~= s.runs);
}

/// The pass only adds to the events written and the code run.
pub proof fn lemma_pass_extends(all: Seq<EventView>, i: int, s: PassState, outs: Seq<Seq<char>>)
    ensures
        begins_with(pass_from(all, i, s, outs).out, s.out),
        begins_with(pass_from(all, i, s, outs).runs, s.runs),
    decreases all.len() - i,
{
    if 0 <= i < all.len() {
        let t = pass_step(all, i, s, outs);
        lemma_step_extends(all, i, s, outs);
        lemma_pass_extends(all, i + 1, t, outs);
        lemma_begins_trans(pass_from(all, i + 1, t, outs).out, t.out, s.out);
        lemma_begins_trans(pass_from(all, i + 1, t, outs).runs, t.runs, s.runs);
    } else {
        assert(s.out.subrange(0, s.out.len() as int) =~= s.out);
        assert(s.runs.subrange(0, s.runs.len() as int) =~= s.runs);
    }
}

/// Inside an open fenced block that starts at `p`, the text events from
/// `p + 1 + j` on are gathered one after the other onto the code.
proof fn lemma_gather_texts(all: Seq<EventView>, p: int, ts: Seq<Seq<char>>, s1: PassState, outs: Seq<Seq<char>>, j: int)
    requires
        0 <= p,
        0 <= j <= ts.len(),
        p + 1 + ts.len() <= all.len(),
        forall|m: int| 0 <= m < ts.len() ==> all[p + 1 + m] == EventView::Text(ts[m]),
        s1.skip == 0,
        s1.in_code,
        s1.code == Seq::<char>::empty(),
    ensures
        pass_from(all, p + 1, s1, outs) == pass_from(all, p + 1 + j, PassState { code: joined(ts.take(j)), ..s1 }, outs),
    decreases j,
{
    if j == 0 {
        assert(ts.take(0) =~= Seq::<Seq<char>>::empty());
        assert(PassState { code: joined(ts.take(0)), ..s1 } == s1);
    } else {
        lemma_gather_texts(all, p, ts, s1, outs, j - 1);
        let sj = PassState { code: joined(ts.take(j - 1)), ..s1 };
        assert(all[p + 1 + (j - 1)] == EventView::Text(ts[j - 1]));
        assert(ts.take(j).drop_last() =~= ts.take(j - 1));
        assert(ts.take(j).last() == ts[j - 1]);
        assert(pass_step(all, p + j, sj, outs) == PassState { code: joined(ts.take(j)), ..s1 });
    }
}

/// Before the first fenced block every event is written as it is.
proof fn lemma_plain_prefix(all: Seq<EventView>, p: int, outs: Seq<Seq<char>>)
    requires
        0 <= p <= all.len(),
        forall|i: int| 0 <= i < p ==> !(#[trigger] all[i] is StartFenced),
    ensures
        pass_from(all, 0, pass_start(), outs) == pass_from(all, p, PassState { out: all.take(p), ..pass_start() }, outs),
    decreases p,
{
    if p == 0 {
        assert(all.take(0) =~= Seq::<EventView>::empty());
        assert(PassState { out: all.take(0), ..pass_start() } == pass_start());
    } else {
        lemma_plain_prefix(all, p - 1, outs);
        let sp = PassState { out: all.take(p - 1), ..pass_start() };
        assert(!(all[p - 1] is StartFenced));
        assert(all.take(p - 1).push(all[p - 1]) =~= all.take(p));
        assert(pass_step(all, p - 1, sp, outs) == PassState { out: all.take(p), ..pass_start() });
    }
}

/// A fenced code block keeps all its text: for a stream that starts with a
/// fenced block (not an `output` block) whose text comes as the text events
/// `ts`, followed by anything, the pipeline writes the block back with the
/// texts of `ts` joined as its one text, and, when it runs the block's
/// language, runs that joined text first.
pub proof fn lemma_block_keeps_its_text(info: Seq<char>, ts: Seq<Seq<char>>, rest: Seq<EventView>, outs: Seq<Seq<char>>)
    requires
        first_word(info) != output_word(),
    ensures
        ({
            let all = seq![EventView::StartFenced(info)] + text_events(ts) + seq![EventView::EndCode] + rest;
            &&& begins_with(spec_process(all, outs), seq![EventView::StartFenced(info), EventView::Text(joined(ts)), EventView::EndCode])
            &&& runs_language(first_word(info)) ==> spec_runs(all).len() > 0 && spec_runs(all)[0] == (first_word(info), joined(ts))
        }),
{
    let all = seq![EventView::StartFenced(info)] + text_events(ts) + seq![EventView::EndCode] + rest;
    let n = ts.len() as int;
    assert(all[0] == EventView::StartFenced(info));
    assert forall|m: int| 0 <= m < n implies all[1 + m] == EventView::Text(ts[m]) by {
        assert(all[1 + m] == text_events(ts)[m]);
    }
    assert(all[1 + n] == EventView::EndCode);
    assert(ts.take(n) =~= ts);
    let head = seq![EventView::StartFenced(info), EventView::Text(joined(ts)), EventView::EndCode];
    // Any outputs: the events written.
    let s1 = pass_step(all, 0, pass_start(), outs);
    lemma_gather_texts(all, 0, ts, s1, outs, n);
    let sn = PassState { code: joined(ts), ..s1 };
    let s2 = pass_step(all, 1 + n, sn, outs);
    assert(s2.out.subrange(0, 3) =~= head);
    lemma_pass_extends(all, 2 + n, s2, outs);
    lemma_begins_trans(spec_process(all, outs), s2.out, s2.out.subrange(0, 3));
    // No outputs: the code run.
    let e: Seq<Seq<char>> = Seq::empty();
    let r1 = pass_step(all, 0, pass_start(), e);
    lemma_gather_texts(all, 0, ts, r1, e, n);
    let rn = PassState { code: joined(ts), ..r1 };
    let r2 = pass_step(all, 1 + n, rn, e);
    lemma_pass_extends(all, 2 + n, r2, e);
    if runs_language(first_word(info)) {
        assert(r2.runs =~= seq![(first_word(info), joined(ts))]);
        assert(spec_runs(all).subrange(0, 1) == r2.runs);
        assert(spec_runs(all)[0] == spec_runs(all).subrange(0, 1)[0]);
    }
}

/// A fenced code block keeps all its text wherever it stands after events
/// that open no fenced block (such as a list item and its paragraph): for a
/// stream `pre`, then a fenced block (not an `output` block) whose text comes
/// as the text events `ts`, then anything, the pipeline writes `pre` as it
/// is and the block back with the texts of `ts` joined as its one text, and,
/// when it runs the block's language, that joined text is the first code it
/// runs.
pub proof fn lemma_block_keeps_its_text_after(
    pre: Seq<EventView>,
    info: Seq<char>,
    ts: Seq<Seq<char>>,
    rest: Seq<EventView>,
    outs: Seq<Seq<char>>,
)
    requires
        forall|i: int| 0 <= i < pre.len() ==> !(#[trigger] pre[i] is StartFenced),
        first_word(info) != output_word(),
    ensures
        ({
            let all = pre + seq![EventView::StartFenced(info)] + text_events(ts) + seq![EventView::EndCode] + rest;
            &&& begins_with(spec_process(all, outs), pre + seq![EventView::StartFenced(info), EventView::Text(joined(ts)), EventView::EndCode])
            &&& runs_language(first_word(info)) ==> spec_runs(all).len() > 0 && spec_runs(all)[0] == (first_word(info), joined(ts))
        }),
{
    let all = pre + seq![EventView::StartFenced(info)] + text_events(ts) + seq![EventView::EndCode] + rest;
    let p = pre.len() as int;
    let n = ts.len() as int;
    assert forall|i: int| 0 <= i < p implies !(#[trigger] all[i] is StartFenced) by {
        assert(all[i] == pre[i]);
    }
    assert(all.take(p) =~= pre);
    assert(all[p] == EventView::StartFenced(info));
    assert forall|m: int| 0 <= m < n implies all[p + 1 + m] == EventView::Text(ts[m]) by {
        assert(all[p + 1 + m] == text_events(ts)[m]);
    }
    assert(all[p + 1 + n] == EventView::EndCode);
    assert(ts.take(n) =~= ts);
    let expect = pre + seq![EventView::StartFenced(info), EventView::Text(joined(ts)), EventView::EndCode];
    // Any outputs: the events written.
    lemma_plain_prefix(all, p, outs);
    let sp = PassState { out: pre, ..pass_start() };
    let s1 = pass_step(all, p, sp, outs);
    lemma_gather_texts(all, p, ts, s1, outs, n);
    let sn = PassState { code: joined(ts), ..s1 };
    let s2 = pass_step(all, p + 1 + n, sn, outs);
    assert(s2.out.subrange(0, p + 3) =~= expect);
    lemma_pass_extends(all, p + 2 + n, s2, outs);
    lemma_begins_trans(spec_process(all, outs), s2.out, s2.out.subrange(0, p + 3));
    // No outputs: the code run.
    let e: Seq<Seq<char>> = Seq::empty();
    lemma_plain_prefix(all, p, e);
    let r1 = pass_step(all, p, sp, e);
    lemma_gather_texts(all, p, ts, r1, e, n);
    let rn = PassState { code: joined(ts), ..r1 };
    let r2 = pass_step(all, p + 1 + n, rn, e);
    lemma_pass_extends(all, p + 2 + n, r2, e);
    if runs_language(first_word(info)) {
        assert(r2.runs =~= seq![(first_word(info), joined(ts))]);
        assert(spec_runs(all).subrange(0, 1) == r2.runs);
        assert(spec_runs(all)[0] == spec_runs(all).subrange(0, 1)[0]);
    }
}

/// What code runs does not depend on what the runs print.
pub proof fn lemma_runs_independent(all: Seq<EventView>, i: int, s: PassState, outs: Seq<Seq<char>>, outs2: Seq<Seq<char>>)
    ensures
        pass_from(all, i, s, outs).runs == pass_from(all, i, PassState { out: Seq::empty(), ..s }, outs2).runs,
        pass_from(all, i, s, outs).used == pass_from(all, i, PassState { out: Seq::empty(), ..s }, outs2).used,
    decreases all.len() - i,
{
    if 0 <= i < all.len() {
        let a = pass_step(all, i, s, outs);
        let b = pass_step(all, i, PassState { out: Seq::empty(), ..s }, outs2);
        assert(PassState { out: Seq::empty(), ..a } == PassState { out: Seq::empty(), ..b });
        lemma_runs_independent(all, i + 1, a, outs, outs2);
        lemma_runs_independent(all, i + 1, b, outs2, outs2);
    }
}

proof fn lemma_concat_below(a: Seq<EventView>, b: Seq<EventView>, n: int)
    requires
        indices_below(a, n),
        indices_below(b, n),
    ensures
        indices_below(a + b, n),
{
    assert forall|k: int| 0 <= k < (a + b).len() implies index_ok(#[trigger] (a + b)[k], n) by {
        if k < a.len() {
            assert((a + b)[k] == a[k]);
        } else {
            assert((a + b)[k] == b[k - a.len()]);
        }
    }
}

proof fn lemma_push_below(a: Seq<EventView>, e: EventView, n: int)
    requires
        indices_below(a, n),
        index_ok(e, n),
    ensures
        indices_below(a.push(e), n),
{
    assert forall|k: int| 0 <= k < a.push(e).len() implies index_ok(#[trigger] a.push(e)[k], n) by {
        if k < a.len() {
            assert(a.push(e)[k] == a[k]);
        }
    }
}

/// One step of the pass writes no event holding a position its input does not hold.
proof fn lemma_step_keeps_indices(all: Seq<EventView>, idx: int, s: PassState, outs: Seq<Seq<char>>, n: int)
    requires
        0 <= idx < all.len(),
        indices_below(all, n),
        indices_below(s.out, n),
    ensures
        indices_below(pass_step(all, idx, s, outs).out, n),
{
    let e = all[idx];
    assert(index_ok(e, n));
    lemma_push_below(s.out, e, n);
    lemma_push_below(s.out, EventView::Text(s.code), n);
    lemma_push_below(s.out.push(EventView::Text(s.code)), EventView::EndCode, n);
    lemma_push_below(s.out, EventView::EndCode, n);
    let base = s.out.push(EventView::Text(s.code)).push(EventView::EndCode);
    let run = runs_language(s.lang);
    let output = if run { output_at(outs, s.used) } else { Seq::empty() };
    let tail = seq![EventView::StartFenced(output_word()), EventView::Text(output), EventView::EndCode];
    assert(indices_below(tail, n)) by {
        assert forall|k: int| 0 <= k < tail.len() implies index_ok(#[trigger] tail[k], n) by {
            if k == 0 {} else if k == 1 {} else {}
        }
    }
    lemma_concat_below(base, tail, n);
    lemma_push_below(base, EventView::Html(output_comment_html(output)), n);
}

/// The pass writes no event holding a position its input does not hold.
pub proof fn lemma_pass_keeps_indices(all: Seq<EventView>, i: int, s: PassState, outs: Seq<Seq<char>>, n: int)
    requires
        indices_below(all, n),
        indices_below(s.out, n),
    ensures
        indices_below(pass_from(all, i, s, outs).out, n),
    decreases all.len() - i,
{
    if 0 <= i < all.len() {
        lemma_step_keeps_indices(all, i, s, outs, n);
        lemma_pass_keeps_indices(all, i + 1, pass_step(all, i, s, outs), outs, n);
    }
}

fn push_event(out: &mut Vec<MdEvent>, e: MdEvent)
    ensures
        events_view(final(out)@) == events_view(old(out)@).push(e@),
{
    let ghost b = out@;
    out.push(e);
    assert(out@ == b.push(e));
    assert(events_view(out@) =~= events_view(b).push(e@));
}

fn copy_event(e: &MdEvent) -> (r: MdEvent)
    ensures
        r@ == e@,
{
    match e {
        MdEvent::StartFenced(s) => MdEvent::StartFenced(to_owned_string(s.as_str())),
        MdEvent::EndCode => MdEvent::EndCode,
        MdEvent::StartHtmlBlock(i) => MdEvent::StartHtmlBlock(*i),
        MdEvent::Text(s) => MdEvent::Text(to_owned_string(s.as_str())),
        MdEvent::Html(s) => MdEvent::Html(to_owned_string(s.as_str())),
        MdEvent::Other(i) => MdEvent::Other(*i),
    }
}

/// The pass over the events (see `pass_from`), with the outputs of the code
/// run given in order; also the code run.
fn run_pass(all: &Vec<MdEvent>, outs: &Vec<String>) -> (r: (Vec<MdEvent>, Vec<(String, String)>))
    ensures
        ({
            let f = pass_from(events_view(all@), 0, pass_start(), crate::fill_output_blocks::strings(outs@));
            &&& events_view(r.0@) == f.out
            &&& r.1@.map_values(|x: (String, String)| (x.0@, x.1@)) == f.runs
        }),
{
    let ghost av = events_view(all@);
    let ghost ov = crate::fill_output_blocks::strings(outs@);
    let ghost target = pass_from(av, 0, pass_start(), ov);
    let mut out: Vec<MdEvent> = Vec::new();
    let mut runs: Vec<(String, String)> = Vec::new();
    let mut in_code = false;
    let mut code = String::new();
    let mut lang = String::new();
    let mut skip: usize = 0;
    let mut opened = false;
    let mut used: usize = 0;
    let mut idx: usize = 0;
    assert(events_view(out@) =~= Seq::<EventView>::empty());
    assert(runs@.map_values(|x: (String, String)| (x.0@, x.1@)) =~= Seq::<(Seq<char>, Seq<char>)>::empty());
    while idx < all.len()
        invariant
            idx <= all@.len(),
            av == events_view(all@),
            ov == crate::fill_output_blocks::strings(outs@),
            skip <= idx,
            used <= idx,
            pass_from(av, idx as int, PassState {
                out: events_view(out@),
                in_code,
                code: code@,
                lang: lang@,
                skip: skip as int,
                opened,
                used: used as int,
                runs: runs@.map_values(|x: (String, String)| (x.0@, x.1@)),
            }, ov) == target,
        decreases all@.len() - idx,
    {
        let ghost s = PassState {
            out: events_view(out@),
            in_code,
            code: code@,
            lang: lang@,
            skip: skip as int,
            opened,
            used: used as int,
            runs: runs@.map_values(|x: (String, String)| (x.0@, x.1@)),
        };
        let ghost next = pass_step(av, idx as int, s, ov);
        let e = &all[idx];
        assert(av[idx as int] == e@);
        if skip > 0 {
            match e {
                MdEvent::StartFenced(info) => {
                    if is_output_info(info.as_str()) {
                        if opened {
                            skip = skip + 1;
                        } else {
                            opened = true;
                        }
                    }
                },
                MdEvent::EndCode => {
                    skip = skip - 1;
                },
                MdEvent::Html(c) => {
                    if is_output_html(c.as_str()) {
                        skip = skip - 1;
                    }
                },
                _ => {},
            }
        } else {
            match e {
                MdEvent::Text(t) => {
                    if in_code {
                        code = concat(code.as_str(), t.as_str());
                    } else {
                        push_event(&mut out, copy_event(e));
                    }
                },
                MdEvent::StartFenced(info) => {
                    in_code = true;
                    code = String::new();
                    lang = first_word_of(info.as_str());
                    push_event(&mut out, copy_event(e));
                },
                MdEvent::EndCode => {
                    if in_code {
                        if crate::text::str_eq(lang.as_str(), "output") {
                            proof {
                                reveal_strlit("output");
                                assert("output"@ =~= output_word());
                            }
                            if !code.as_str().is_empty() {
                                push_event(&mut out, MdEvent::Text(to_owned_string(code.as_str())));
                            }
                            push_event(&mut out, MdEvent::EndCode);
                            in_code = false;
                        } else {
                            proof {
                                reveal_strlit("output");
                                assert("output"@ =~= output_word());
                            }
                            let run = should_execute(lang.as_str());
                            let output = if run {
                                if used < outs.len() {
                                    to_owned_string(outs[used].as_str())
                                } else {
                                    String::new()
                                }
                            } else {
                                String::new()
                            };
                            assert(output@ == (if run { output_at(ov, used as int) } else { Seq::<char>::empty() }));
                            let existing = detect_existing_output(all, idx);
                            let style = match existing {
                                Some(st) => st,
                                None => OutputStyle::CodeBlock,
                            };
                            if run {
                                let ghost rb = runs@;
                                let pair = (to_owned_string(lang.as_str()), to_owned_string(code.as_str()));
                                runs.push(pair);
                                assert(runs@ == rb.push(pair));
                                assert(runs@.map_values(|x: (String, String)| (x.0@, x.1@)) =~= rb.map_values(|x: (String, String)| (x.0@, x.1@)).push((lang@, code@)));
                                used = used + 1;
                            }
                            push_event(&mut out, MdEvent::Text(to_owned_string(code.as_str())));
                            push_event(&mut out, MdEvent::EndCode);
                            if !output.as_str().is_empty() {
                                match style {
                                    OutputStyle::CodeBlock => {
                                        let ghost ob = events_view(out@);
                                        push_event(&mut out, MdEvent::StartFenced(to_owned_string("output")));
                                        push_event(&mut out, MdEvent::Text(to_owned_string(output.as_str())));
                                        push_event(&mut out, MdEvent::EndCode);
                                        assert(events_view(out@) =~= ob + seq![EventView::StartFenced(output_word()), EventView::Text(output@), EventView::EndCode]);
                                    },
                                    OutputStyle::Comment => {
                                        let h = concat("\n<!-- output: ", output.as_str());
                                        let h = concat(h.as_str(), " -->\n");
                                        push_event(&mut out, MdEvent::Html(h));
                                    },
                                }
                            }
                            in_code = false;
                            if existing.is_some() {
                                skip = 1;
                            }
                            opened = false;
                        }
                    } else {
                        push_event(&mut out, copy_event(e));
                    }
                },
                _ => {
                    push_event(&mut out, copy_event(e));
                },
            }
        }
        proof {
            assert(PassState {
                out: events_view(out@),
                in_code,
                code: code@,
                lang: lang@,
                skip: skip as int,
                opened,
                used: used as int,
                runs: runs@.map_values(|x: (String, String)| (x.0@, x.1@)),
            } == next);
        }
        idx = idx + 1;
    }
    (out, runs)
}

/// The events the pipeline writes for `events`, the code it runs having
/// printed `outputs`, in order (see `spec_process`).
pub fn process_events_with(events: &Vec<MdEvent>, outputs: &Vec<String>) -> (r: Vec<MdEvent>)
    ensures
        events_view(r@) == spec_process(events_view(events@), crate::fill_output_blocks::strings(outputs@)),
{
    let (out, _runs) = run_pass(events, outputs);
    out
}

/// The code the pipeline runs for `events`, in order: language and code (see `spec_runs`).
pub fn code_to_run(events: &Vec<MdEvent>) -> (r: Vec<(String, String)>)
    ensures
        r@.map_values(|x: (String, String)| (x.0@, x.1@)) == spec_runs(events_view(events@)),
{
    let none: Vec<String> = Vec::new();
    assert(crate::fill_output_blocks::strings(none@) =~= Seq::<Seq<char>>::empty());
    let (_out, runs) = run_pass(events, &none);
    runs
}

/// Runs the code of the event stream and writes the outputs in: the events
/// of `spec_process` for the outputs the runs printed, one per run, each what
/// running that run's code can give (see `code_outcome`). No event written
/// holds a position that the input events do not hold.
pub fn process_events(events: &Vec<MdEvent>) -> (r: Vec<MdEvent>)
    ensures
        exists|outs: Seq<Seq<char>>|
            #![trigger spec_process(events_view(events@), outs)]
            outs.len() == spec_runs(events_view(events@)).len()
                && (forall|i: int| 0 <= i < outs.len() ==> code_outcome(spec_runs(events_view(events@))[i].0, #[trigger] outs[i]))
                && events_view(r@) == spec_process(events_view(events@), outs),
        indices_below(events_view(events@), events@.len() as int) ==> indices_below(events_view(r@), events@.len() as int),
{
    let runs = code_to_run(events);
    let ghost rv = runs@.map_values(|x: (String, String)| (x.0@, x.1@));
    let mut outputs: Vec<String> = Vec::new();
    let mut i: usize = 0;
    while i < runs.len()
        invariant
            i <= runs@.len(),
            outputs@.len() == i,
            rv == runs@.map_values(|x: (String, String)| (x.0@, x.1@)),
            forall|j: int| 0 <= j < i ==> code_outcome(rv[j].0, #[trigger] outputs@[j]@),
        decreases runs@.len() - i,
    {
        let out = execute_code(runs[i].0.as_str(), runs[i].1.as_str());
        assert(rv[i as int].0 == runs@[i as int].0@);
        outputs.push(out);
        i += 1;
    }
    let ghost ov = crate::fill_output_blocks::strings(outputs@);
    assert(rv.len() == runs@.len());
    assert(ov.len() == outputs@.len());
    assert forall|j: int| 0 <= j < ov.len() implies code_outcome(rv[j].0, #[trigger] ov[j]) by {
        assert(ov[j] == outputs@[j]@);
    }
    let r = process_events_with(events, &outputs);
    proof {
        let n = events@.len() as int;
        if indices_below(events_view(events@), n) {
            lemma_pass_keeps_indices(events_view(events@), 0, pass_start(), ov, n);
        }
    }
    r
}

// ---------------------------------------------------------------------------
// Running code.

/// The program and the flag before the code that run code in `lang`.
pub open spec fn spec_command(lang: Seq<char>) -> Option<(Seq<char>, Seq<char>)> {
    if lang == "sh"@ || lang == "bash"@ || lang == "shell"@ {
        Some(("/bin/sh"@, "-c"@))
    } else if lang == "python"@ || lang == "python3"@ {
        Some(("python3"@, "-c"@))
    } else if lang == "js"@ || lang == "javascript"@ || lang == "node"@ {
        Some(("node"@, "-e"@))
    } else if lang == "ruby"@ {
        Some(("ruby"@, "-e"@))
    } else if lang == "perl"@ {
        Some(("perl"@, "-e"@))
    } else if lang == "php"@ {
        Some(("php"@, "-r"@))
    } else if lang == "go"@ {
        Some(("go"@, "run"@))
    } else {
        None
    }
}

/// The program and flag that run code in `lang` (see `spec_command`).
pub fn command_for(lang: &str) -> (r: Option<(&'static str, &'static str)>)
    ensures
        match spec_command(lang@) {
            Some((t, f)) => r matches Some((a, b)) && a@ == t && b@ == f,
            None => r is None,
        },
{
    if str_eq(lang, "sh") || str_eq(lang, "bash") || str_eq(lang, "shell") {
        Some(("/bin/sh", "-c"))
    } else if str_eq(lang, "python") || str_eq(lang, "python3") {
        Some(("python3", "-c"))
    } else if str_eq(lang, "js") || str_eq(lang, "javascript") || str_eq(lang, "node") {
        Some(("node", "-e"))
    } else if str_eq(lang, "ruby") {
        Some(("ruby", "-e"))
    } else if str_eq(lang, "perl") {
        Some(("perl", "-e"))
    } else if str_eq(lang, "php") {
        Some(("php", "-r"))
    } else if str_eq(lang, "go") {
        Some(("go", "run"))
    } else {
        None
    }
}

/// The text a run gives: its stdout, trimmed, when it succeeded; otherwise
/// `Error: ` with its stdout and stderr; `Error: ` and the error when it
/// could not be started.
pub open spec fn run_text(r: Result<ProcessOutput, String>) -> Seq<char> {
    match r {
        Ok(o) => if o.success {
            trim(lossy_utf8(o.stdout@))
        } else {
            "Error: "@ + lossy_utf8(o.stdout@) + lossy_utf8(o.stderr@)
        },
        Err(e) => "Error: "@ + e@,
    }
}

/// The text a run gives (see `run_text`).
pub fn run_result_text(r: &Result<ProcessOutput, String>) -> (t: String)
    ensures
        t@ == run_text(*r),
{
    match r {
        Ok(o) => if o.success {
            trim_string(utf8_lossy(&o.stdout).as_str())
        } else {
            let a = concat("Error: ", utf8_lossy(&o.stdout).as_str());
            concat(a.as_str(), utf8_lossy(&o.stderr).as_str())
        },
        Err(e) => concat("Error: ", e.as_str()),
    }
}

/// What a run can give, whatever the program did or printed (see `run_text`).
pub open spec fn run_outcome(t: Seq<char>) -> bool {
    exists|out: Result<ProcessOutput, String>| #[trigger] run_text(out) == t
}

/// What compiling and running Rust can give, whatever the compiler and the
/// program did: the text of a failed write, the text of a failed compilation
/// (see `compile_text`), or what the run gives.
pub open spec fn rust_outcome(t: Seq<char>) -> bool {
    ||| crate::text::has_prefix(t, "Error: Failed to write temp file: "@)
    ||| (exists|c: Result<ProcessOutput, String>| #[trigger] compile_text(c) == Some(t))
    ||| run_outcome(t)
}

/// What running code as `lang` can give, whatever the programs did: for
/// Rust what compiling and running gives, for a language of `spec_command`
/// what its program gives, and nothing for any other language.
pub open spec fn code_outcome(lang: Seq<char>, t: Seq<char>) -> bool {
    if lang == "rust"@ {
        rust_outcome(t)
    } else if spec_command(lang) is Some {
        run_outcome(t)
    } else {
        t.len() == 0
    }
}

/// The arguments an interpreter is given: the flag that makes it take code,
/// then the code.
pub fn interpreter_args(flag: &str, code: &str) -> (r: Vec<String>)
    ensures
        crate::fill_output_blocks::strings(r@) == seq![flag@, code@],
{
    let mut args: Vec<String> = Vec::new();
    args.push(to_owned_string(flag));
    args.push(to_owned_string(code));
    assert(crate::fill_output_blocks::strings(args@) =~= seq![flag@, code@]);
    args
}

/// What compiling Rust code takes: the source file and what it holds, the
/// program built, and the compiler's arguments.
pub struct RustBuild {
    pub source: String,
    pub contents: String,
    pub program: String,
    pub args: Vec<String>,
}

/// `/tmp/main.rs`
pub open spec fn rust_source() -> Seq<char> {
    "/tmp/main.rs"@
}

/// `/tmp/output`
pub open spec fn rust_program() -> Seq<char> {
    "/tmp/output"@
}

/// How Rust code is compiled: the source is `main.rs` in the temporary
/// directory and holds the code; `rustc -o <program> <source>` builds the
/// program `output` there.
pub fn rust_build(code: &str) -> (r: RustBuild)
    ensures
        r.source@ == rust_source(),
        r.program@ == rust_program(),
        r.contents@ == code@,
        crate::fill_output_blocks::strings(r.args@) == seq!["-o"@, rust_program(), rust_source()],
{
    let source = crate::execute_code_blocks::sync_execution::join_path("/tmp", "main.rs");
    let program = crate::execute_code_blocks::sync_execution::join_path("/tmp", "output");
    proof {
        reveal_strlit("/tmp");
        reveal_strlit("main.rs");
        reveal_strlit("output");
        reveal_strlit("/tmp/main.rs");
        reveal_strlit("/tmp/output");
        assert(source@ =~= rust_source());
        assert(program@ =~= rust_program());
    }
    let mut args: Vec<String> = Vec::new();
    args.push(to_owned_string("-o"));
    args.push(to_owned_string(program.as_str()));
    args.push(to_owned_string(source.as_str()));
    assert(crate::fill_output_blocks::strings(args@) =~= seq!["-o"@, rust_program(), rust_source()]);
    RustBuild { source, contents: to_owned_string(code), program, args }
}

/// Runs `tool` with the arguments of `interpreter_args`: its flag, then the
/// whole code; the text is what that run gives (see `run_text`). Comes back
/// with the run.
fn run_interpreter(rt: &tokio::runtime::Runtime, tool: &str, flag: &str, code: &str) -> (r: (String, ProcessRun))
    ensures
        r.1.program() == tool@,
        r.1.arguments() == seq![flag@, code@],
        r.0@ == run_text(r.1.outcome()),
{
    let args = interpreter_args(flag, code);
    let run = run_process(rt, tool, &args);
    assert(crate::fill_output_blocks::strings(args@) == args@.map_values(|a: String| a@));
    let r = run_result_text(run.result());
    (r, run)
}

/// Runs `code` as `lang`: Rust is compiled and run (see `execute_rust`); a
/// language of `spec_command` is run with its program, given the arguments
/// of `interpreter_args` (see `run_text`); any other language gives nothing.
pub fn execute_code(lang: &str, code: &str) -> (r: String)
    ensures
        code_outcome(lang@, r@),
{
    if str_eq(lang, "rust") {
        return execute_rust(code);
    }
    match command_for(lang) {
        None => String::new(),
        Some((tool, flag)) => {
            match new_runtime() {
                Err(e) => {
                    let r = concat("Error: ", e.as_str());
                    assert(run_text(Err(e)) == r@);
                    r
                },
                Ok(rt) => run_interpreter(&rt, tool, flag, code).0,
            }
        },
    }
}

/// The text of a failed compilation: `Error compiling: ` and what the
/// compiler wrote to stderr; `Error: ` and the error when it could not be
/// started; nothing when it succeeded.
pub open spec fn compile_text(r: Result<ProcessOutput, String>) -> Option<Seq<char>> {
    match r {
        Ok(o) => if o.success {
            None
        } else {
            Some("Error compiling: "@ + lossy_utf8(o.stderr@))
        },
        Err(e) => Some("Error: "@ + e@),
    }
}

/// The text of a failed compilation (see `compile_text`).
pub fn compile_result_text(r: &Result<ProcessOutput, String>) -> (t: Option<String>)
    ensures
        match compile_text(*r) {
            Some(s) => t matches Some(x) && x@ == s,
            None => t is None,
        },
{
    match r {
        Ok(o) => if o.success {
            None
        } else {
            Some(concat("Error compiling: ", utf8_lossy(&o.stderr).as_str()))
        },
        Err(e) => Some(concat("Error: ", e.as_str())),
    }
}

/// Compiles `code` with `rustc` (see `rust_build`) and runs the program:
/// the text of a failed write or compilation, or what the run gives (see
/// `run_text`). Comes back with the write of the source, which wrote the
/// whole code to `rust_source`; the compiler's run, made exactly when the
/// write succeeded, with the arguments of `rust_build`; and the program's
/// run, made exactly when the compilation succeeded, with no arguments.
fn compile_and_run_rust(rt: &tokio::runtime::Runtime, code: &str) -> (r: (String, FileWrite, Option<ProcessRun>, Option<ProcessRun>))
    ensures
        r.1.target() == rust_source(),
        r.1.written() == code@,
        r.1.outcome() is Err ==> r.2 is None && r.0@ == "Error: Failed to write temp file: "@ + r.1.outcome()->Err_0@,
        r.1.outcome() is Ok ==> r.2 is Some,
        r.2 matches Some(c) ==> {
            &&& c.program() == "rustc"@
            &&& c.arguments() == seq!["-o"@, rust_program(), rust_source()]
            &&& (r.3 is Some <==> compile_text(c.outcome()) is None)
            &&& compile_text(c.outcome()) matches Some(t) ==> r.0@ == t
        },
        r.3 matches Some(x) ==> {
            &&& r.2 is Some
            &&& x.program() == rust_program()
            &&& x.arguments() == Seq::<Seq<char>>::empty()
            &&& r.0@ == run_text(x.outcome())
        },
        rust_outcome(r.0@),
{
    let build = rust_build(code);
    let write = write_file(rt, build.source.as_str(), build.contents.as_str());
    if write.is_err() {
        let e = write.error_text();
        let r = concat("Error: Failed to write temp file: ", e.as_str());
        assert(r@.subrange(0, "Error: Failed to write temp file: "@.len() as int) =~= "Error: Failed to write temp file: "@);
        return (r, write, None, None);
    }
    let compiler = run_process(rt, "rustc", &build.args);
    assert(crate::fill_output_blocks::strings(build.args@) == build.args@.map_values(|a: String| a@));
    if let Some(t) = compile_result_text(compiler.result()) {
        assert(compile_text(compiler.outcome()) == Some(t@));
        return (t, write, Some(compiler), None);
    }
    let no_args: Vec<String> = Vec::new();
    let program = run_process(rt, build.program.as_str(), &no_args);
    assert(no_args@.map_values(|a: String| a@) =~= Seq::<Seq<char>>::empty());
    let _ = remove_file(rt, build.source.as_str());
    let _ = remove_file(rt, build.program.as_str());
    let r = run_result_text(program.result());
    assert(run_text(program.outcome()) == r@);
    (r, write, Some(compiler), Some(program))
}

/// Compiles `code` with `rustc` in the temporary directory (see
/// `rust_build`) and runs the program: the text of a failed write or
/// compilation, or what the run gives (see `run_text`). The files are removed
/// afterwards.
pub fn execute_rust(code: &str) -> (r: String)
    ensures
        rust_outcome(r@),
{
    let rt = match new_runtime() {
        Err(e) => {
            let r = concat("Error: ", e.as_str());
            assert(run_text(Err(e)) == r@);
            return r;
        },
        Ok(rt) => rt,
    };
    compile_and_run_rust(&rt, code).0
}

// ---------------------------------------------------------------------------
// Writing the events back as markdown.

/// The number of fence characters `pulldown_cmark_to_cmark::calculate_code_block_token_count`
/// finds for the events (the events of `input` standing for those read as `Other`).
pub uninterp spec fn fence_count(input: Seq<char>, events: Seq<EventView>) -> Option<usize>;

/// The markdown `pulldown_cmark_to_cmark::cmark_with_options` writes for the
/// events (those read as `Other` taken from `input`), with `count` fence characters.
pub uninterp spec fn cmark_text(input: Seq<char>, events: Seq<EventView>, count: usize) -> Seq<char>;

/// `pulldown_cmark_to_cmark::calculate_code_block_token_count` of the
/// events, an `Other` event being the event at its position in `input`'s
/// stream (every such position lies in that stream).
#[verifier::external_body]
fn count_fences(input: &str, events: &Vec<MdEvent>) -> (r: Option<usize>)
    requires
        indices_below(events_view(events@), md_events(input@).len() as int),
    ensures
        r == fence_count(input@, events_view(events@)),
{
    let read: Vec<Event> = Parser::new(input).collect();
    let evs: Vec<Event> = events.iter().map(|e| match e {
        StartFenced(s) => Event::Start(CodeBlock(Fenced(s.as_str().into()))),
        EndCode => Event::End(TagEnd::CodeBlock),
        Text(t) => Event::Text(t.as_str().into()),
        Html(h) => Event::Html(h.as_str().into()),
        StartHtmlBlock(i) | Other(i) => read[*i].clone(),
    }).collect();
    calculate_code_block_token_count(evs.iter())
}

/// `pulldown_cmark_to_cmark::DEFAULT_CODE_BLOCK_TOKEN_COUNT`, which its source sets to 3.
#[verifier::external_body]
fn default_fence_count() -> (r: usize)
    ensures
        r == 3,
{
    pulldown_cmark_to_cmark::DEFAULT_CODE_BLOCK_TOKEN_COUNT
}

/// The markdown `pulldown_cmark_to_cmark::cmark_with_options` writes for the
/// events (with `count` fence characters, an `Other` event being the event at
/// its position in `input`'s stream, which every such position lies in); what
/// it wrote before reporting an error is kept.
#[verifier::external_body]
fn write_cmark(input: &str, events: &Vec<MdEvent>, count: usize) -> (r: String)
    requires
        indices_below(events_view(events@), md_events(input@).len() as int),
    ensures
        r@ == cmark_text(input@, events_view(events@), count),
{
    let read: Vec<Event> = Parser::new(input).collect();
    let evs: Vec<Event> = events.iter().map(|e| match e {
        StartFenced(s) => Event::Start(CodeBlock(Fenced(s.as_str().into()))),
        EndCode => Event::End(TagEnd::CodeBlock),
        Text(t) => Event::Text(t.as_str().into()),
        Html(h) => Event::Html(h.as_str().into()),
        StartHtmlBlock(i) | Other(i) => read[*i].clone(),
    }).collect();
    let mut out = String::new();
    let _ = cmark_with_options(evs.iter(), &mut out, CmarkOptions { code_block_token_count: count, ..Default::default() });
    out
}

/// The markdown written for the events of `input`'s stream: with the fence
/// count found in them, or 3.
pub open spec fn markdown_of(input: Seq<char>, events: Seq<EventView>) -> Seq<char> {
    cmark_text(input, events, match fence_count(input, events) {
        Some(c) => c,
        None => 3,
    })
}

/// Writes events of `input`'s stream back as markdown (see `markdown_of`);
/// every position the events hold lies in that stream.
pub fn render_events(input: &str, events: &Vec<MdEvent>) -> (r: String)
    requires
        indices_below(events_view(events@), md_events(input@).len() as int),
    ensures
        r@ == markdown_of(input@, events_view(events@)),
{
    let count = match count_fences(input, events) {
        Some(c) => c,
        None => default_fence_count(),
    };
    write_cmark(input, events, count)
}

/// Reads `input` as events, runs its code and writes the outputs in (see
/// `process_events`), and writes the events back as markdown.
pub fn render_markdown(input: &str) -> (r: String)
    ensures
        exists|outs: Seq<Seq<char>>|
            #![trigger markdown_of(input@, spec_process(md_events(input@), outs))]
            outs.len() == spec_runs(md_events(input@)).len()
                && (forall|i: int| 0 <= i < outs.len() ==> code_outcome(spec_runs(md_events(input@))[i].0, #[trigger] outs[i]))
                && r@ == markdown_of(input@, spec_process(md_events(input@), outs)),
{
    let events = parse_events(input);
    proof {
        let n = events@.len() as int;
        assert forall|k: int| 0 <= k < events_view(events@).len() implies index_ok(#[trigger] events_view(events@)[k], n) by {
            assert(events_view(events@)[k] == events@[k]@);
        }
    }
    let processed = process_events(&events);
    render_events(input, &processed)
}

} // verus!
