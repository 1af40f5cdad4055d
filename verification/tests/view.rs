use literate_docs::execute_code_blocks::ExecutionEvent;
use literate_docs::text::decimal_string;
use literate_docs::tui::output_box::{
    box_draw, render_diff_lines, truncate, BoxDraw, OutputBox, OutputState, OutputType,
};
use literate_docs::tui::render::{Color, RenderNode, Style, StyledSpan, TextKind};
use literate_docs::tui::view_state::{
    code_box_lines, code_header, code_status_label, modal_lines, modal_window, split_on_newline,
    split_spans_on_newlines, text_node_lines, CodeStatus, KeyCode, KeyPress, ModalView,
};
use literate_docs::tui::TuiApp;
use std::time::Duration;

fn app_for(input: &str) -> TuiApp {
    TuiApp::new(input, None).expect("the document can be shown")
}

fn key(c: char) -> KeyPress {
    KeyPress { code: KeyCode::Char(c), ctrl: false }
}

fn text(line: &[StyledSpan]) -> String {
    line.iter().map(|s| s.content.as_str()).collect()
}

#[test]
fn truncate_keeps_short_text_and_cuts_long_text() {
    assert_eq!(truncate("hello", 5), "hello");
    assert_eq!(truncate("hello world", 6), "hello…");
    assert_eq!(truncate("héllo", 3), "h…");
    assert_eq!(truncate("abc", 0), "…");
}

#[test]
fn decimal_string_writes_numbers() {
    assert_eq!(decimal_string(0), "0");
    assert_eq!(decimal_string(7), "7");
    assert_eq!(decimal_string(1203), "1203");
}

#[test]
fn box_draw_cases() {
    assert_eq!(box_draw(2, 5, 1, 10), BoxDraw::BottomEdge("└───┘".to_string()));
    assert_eq!(box_draw(2, 1, 1, 10), BoxDraw::Blank);
    assert_eq!(box_draw(0, 10, 5, 10), BoxDraw::Framed { first: 0, count: 3 });
    assert_eq!(box_draw(8, 10, 5, 10), BoxDraw::Framed { first: 8, count: 2 });
    assert_eq!(box_draw(20, 10, 5, 10), BoxDraw::Framed { first: 10, count: 0 });
}

#[test]
fn code_header_and_status_labels() {
    assert_eq!(code_header("sh", false, "✓ done"), " sh │ ✓ done ");
    assert_eq!(code_header("python", true, "○ pending"), " python (hidden) │ ○ pending ");
    assert_eq!(code_status_label(CodeStatus::Running, "12ms"), "▶ 12ms");
    assert_eq!(code_status_label(CodeStatus::Done, "x"), "✓ done");
    assert_eq!(code_status_label(CodeStatus::Error, "x"), "✗ error");
    assert_eq!(code_status_label(CodeStatus::Orphan, "x"), "○ orphan");
}

#[test]
fn code_box_lines_colour_each_line() {
    let ls = code_box_lines("a\nb", Color::Cyan);
    assert_eq!(ls.len(), 2);
    assert_eq!(text(&ls[1]), "b");
    assert_eq!(ls[0][0].style.fg, Some(Color::Cyan));
}

#[test]
fn split_text_on_newlines() {
    assert_eq!(split_on_newline("a\nb\n"), vec!["a".to_string(), "b".to_string(), String::new()]);
    let spans = vec![
        StyledSpan { content: "one\ntwo".to_string(), style: Style::new() },
        StyledSpan { content: " three".to_string(), style: Style::new().with_bold() },
    ];
    let lines = split_spans_on_newlines(&spans);
    assert_eq!(lines.len(), 2);
    assert_eq!(text(&lines[0]), "one");
    assert_eq!(text(&lines[1]), "two three");
    assert!(lines[1][1].style.bold);
}

#[test]
fn heading_lines_have_prefix_and_blank_line() {
    let content = vec![StyledSpan { content: "Title".to_string(), style: Style::new() }];
    let first = text_node_lines(&content, TextKind::Heading(2), 0);
    assert_eq!(first.len(), 1);
    assert_eq!(text(&first[0]), "## Title");
    assert!(first[0][0].style.bold);
    let later = text_node_lines(&content, TextKind::Heading(1), 3);
    assert_eq!(later.len(), 2);
    assert!(later[0].is_empty());
    assert_eq!(text(&later[1]), "# Title");
}

#[test]
fn modal_lines_and_window() {
    let sections = vec![("output".to_string(), vec!["a".to_string(), "b".to_string()])];
    assert_eq!(modal_lines(&sections), vec!["─── output ───".to_string(), "a".to_string(), "b".to_string()]);
    assert_eq!(modal_window(10, 0, 4), (0, 4));
    assert_eq!(modal_window(10, 100, 4), (6, 10));
    assert_eq!(modal_window(3, 2, 5), (0, 3));
}

#[test]
fn diff_lines_mark_changes() {
    let ls = render_diff_lines("a\nb\n", "a\nc\n", 80);
    let shown: Vec<String> = ls.iter().map(|l| text(l)).collect();
    assert_eq!(shown, vec!["    a".to_string(), "  - b".to_string(), "  + c".to_string()]);
    let none = render_diff_lines("", "", 80);
    assert_eq!(text(&none[0]), "  (no changes)");
}

#[test]
fn output_box_header_and_status() {
    let state = OutputState::Completed { output: "hi".to_string(), previous_output: None, duration: Duration::from_millis(1500), stderr: String::new() };
    let ob = OutputBox { state: &state, is_focused: false, output_type: OutputType::Comment, skip_lines: 0 };
    let status = ob.status_indicator("1.5s");
    assert_eq!(status.content, "✓ 1.5s");
    assert_eq!(status.style.fg, Some(Color::Green));
    assert_eq!(ob.header(&status.content), " ✓ 1.5s │ comment ");
    let failed = OutputState::Failed { error: "boom".to_string() };
    let fb = OutputBox { state: &failed, is_focused: false, output_type: OutputType::Block, skip_lines: 0 };
    assert_eq!(fb.status_indicator("").content, "✗ error");
    let lines = fb.render_lines(80);
    assert_eq!(text(&lines[0]), "  boom");
    assert_eq!(lines[0][0].style.fg, Some(Color::Red));
}

#[test]
fn output_type_toggles_back() {
    let mut t = OutputType::Block;
    t.toggle();
    assert_eq!(t, OutputType::Comment);
    assert_eq!(t.label(), "comment");
    t.toggle();
    assert_eq!(t, OutputType::Block);
}

#[test]
fn keys_quit_and_abort() {
    let mut app = app_for("```sh exec\necho hi\n```");
    assert!(!app.handle_key(key('x'), 24));
    assert!(app.handle_key(key('q'), 24));
    assert!(app.quit);
    assert!(!app.aborted);

    let mut app = app_for("```sh exec\necho hi\n```");
    assert!(app.handle_key(KeyPress { code: KeyCode::Char('c'), ctrl: true }, 24));
    assert!(app.aborted);
    assert!(app.finish().is_none());
}

#[test]
fn keys_open_and_scroll_the_modal() {
    let mut app = app_for("```sh exec\necho hi\n```");
    assert!(!app.handle_key(key('m'), 24));
    assert_eq!(app.modal, ModalView::Output(0));
    app.handle_key(KeyPress { code: KeyCode::Down, ctrl: false }, 24);
    assert_eq!(app.modal_scroll, 1);
    assert!(!app.handle_key(key('q'), 24));
    assert_eq!(app.modal, ModalView::Closed);
    assert_eq!(app.modal_scroll, 0);
    assert!(!app.quit);
    app.handle_key(key('l'), 24);
    assert_eq!(app.modal, ModalView::Logs(0));
}

#[test]
fn key_t_toggles_the_focused_output_type() {
    let mut app = app_for("```sh exec\necho hi\n```");
    app.handle_key(key('t'), 24);
    assert_eq!(app.output_types.get(&1), Some(&OutputType::Comment));
    app.handle_key(key('t'), 24);
    assert_eq!(app.output_types.get(&1), Some(&OutputType::Block));
}

#[test]
fn scrolling_stays_within_the_view() {
    let mut app = app_for("```sh exec\necho hi\n```");
    let total = app.total_rendered_lines(80);
    app.handle_key(KeyPress { code: KeyCode::PageDown, ctrl: false }, 1);
    assert_eq!(app.scroll.offset, 5.min(total - 1));
    app.handle_key(KeyPress { code: KeyCode::PageUp, ctrl: false }, 1);
    assert_eq!(app.scroll.offset, 0);
}

#[test]
fn run_events_fill_the_output_box() {
    let mut app = app_for("```sh exec\necho hi\n```");
    app.mark_running(0, std::time::Instant::now());
    app.handle_execution_event(0, ExecutionEvent::StdoutLine("hi".to_string()));
    match &app.nodes[1] {
        RenderNode::OutputBlock { state: OutputState::Running { live_lines, .. }, .. } => {
            assert_eq!(live_lines.len(), 1);
        }
        _ => panic!("the box is running"),
    }
    app.handle_execution_event(0, ExecutionEvent::Completed { output: "hi".to_string(), success: true, duration: Duration::from_millis(3) });
    match &app.nodes[1] {
        RenderNode::OutputBlock { state: OutputState::Completed { output, .. }, .. } => assert_eq!(output, "hi"),
        _ => panic!("the box is done"),
    }
    assert_eq!(app.box_counts(), (1, 1));
    app.running = true;
    assert_eq!(app.status_bar(), " [1/1] running... | ↑/↓:scroll  n/p:focus  t:type  m:modal  l:logs  q:quit");
    app.running = false;
    assert_eq!(app.status_bar(), " done | ↑/↓:scroll  n/p:focus  t:type  m:modal  l:logs  q:quit");
    let doc = app.finish().expect("not aborted");
    let rendered = literate_docs::render_markdown::render_markdown("x", doc).unwrap();
    assert!(rendered.contains("```output\nhi\n```"), "{}", rendered);
}

#[test]
fn plan_frame_places_nodes_top_down() {
    let app = app_for("# Title\n\n```sh exec\necho hi\n```");
    assert!(app.layout_fits(80));
    let plan = app.plan_frame(80, 40);
    assert_eq!(plan.len(), 3);
    assert_eq!(plan[0].y, 0);
    assert!(plan[1].y > plan[0].y);
    assert!(plan[2].y > plan[1].y);
    assert!(plan.iter().all(|p| p.skip == 0));
}

#[test]
fn modal_sections_for_an_output() {
    let mut app = app_for("```sh exec\necho hi\n```");
    app.handle_key(key('m'), 24);
    let (title, sections) = app.modal_sections("");
    assert_eq!(title, "Output");
    assert_eq!(sections[0].1, vec!["(no output yet)".to_string()]);
}

#[test]
fn output_state_summaries() {
    let running = OutputState::Running {
        live_lines: vec!["a".to_string(), "b".to_string()].into(),
        stderr_lines: vec!["oops".to_string()].into(),
        start: std::time::Instant::now(),
    };
    assert_eq!(running.status_label(), "running");
    assert!(!running.is_done());
    assert_eq!(running.all_output(), "a\nb");
    assert_eq!(running.all_logs(), "a\nb\n\n--- stderr ---\noops");
    let done = OutputState::Completed { output: "x".to_string(), previous_output: None, duration: Duration::from_secs(1), stderr: "w".to_string() };
    assert!(done.is_done());
    assert_eq!(done.status_label(), "done");
    assert_eq!(done.all_logs(), "x\n\n--- stderr ---\nw");
    let failed = OutputState::Failed { error: "e".to_string() };
    assert!(failed.is_failed());
    assert_eq!(failed.status_label(), "error");
    assert_eq!(OutputState::Pending.status_label(), "waiting");
    assert_eq!(OutputState::Orphaned { content: "c".to_string() }.all_output(), "c");
}

#[test]
fn rendered_line_counts() {
    let app = app_for("# Title\n\n```sh exec\necho a\necho b\n```");
    assert_eq!(app.node_rendered_lines(&app.nodes[1], 80), 4);
    assert_eq!(app.node_rendered_lines(&app.nodes[2], 80), 3);
    assert_eq!(app.node_rendered_lines(&app.nodes[0], 80), 3);
    assert_eq!(app.total_rendered_lines(80), 10);
}

#[test]
fn completed_box_keeps_the_run_time_and_stderr() {
    let mut app = app_for("```sh exec\necho hi\n```");
    app.mark_running(0, std::time::Instant::now());
    app.handle_execution_event(0, ExecutionEvent::StderrLine("warn".to_string()));
    app.handle_execution_event(0, ExecutionEvent::Completed { output: "hi".to_string(), success: true, duration: Duration::from_millis(1500) });
    match &app.nodes[1] {
        RenderNode::OutputBlock { state: OutputState::Completed { output, duration, stderr, previous_output }, .. } => {
            assert_eq!(output, "hi");
            assert_eq!(*duration, Duration::from_millis(1500));
            assert_eq!(stderr, "warn");
            assert!(previous_output.is_none());
        }
        _ => panic!("the box is done"),
    }
}

#[test]
fn output_of_a_block_after_a_hidden_block_lands_after_it() {
    let mut app = app_for("<!-- sh exec: echo a -->\n\n```sh exec\necho b\n```");
    app.update_ast_output(1, "b");
    app.update_ast_output(0, "a");
    let doc = app.finish().expect("not aborted");
    let rendered = literate_docs::render_markdown::render_markdown("x", doc).unwrap();
    assert!(rendered.contains("```sh exec\necho b\n```\n\n```output\nb\n```"), "{}", rendered);
    assert!(rendered.contains("<!-- sh exec: echo a -->\n\n```output\na\n```"), "{}", rendered);
}

#[test]
fn output_before_every_block_is_not_written() {
    let mut app = app_for("```output\nstale\n```\n\n```sh exec\necho b\n```");
    app.update_ast_output(0, "b");
    let doc = app.finish().expect("not aborted");
    let rendered = literate_docs::render_markdown::render_markdown("x", doc).unwrap();
    assert!(rendered.starts_with("```sh exec\necho b\n```\n\n```output\nb\n```"), "{}", rendered);
}
