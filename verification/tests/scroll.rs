use literate_docs::tui::scroll::ScrollState;

#[test]
fn test_scroll_starts_at_zero() {
    let scroll = ScrollState::new();
    assert_eq!(scroll.offset, 0);
    assert_eq!(scroll.focused_index, 0);
}

#[test]
fn test_scroll_down_respects_max() {
    let mut scroll = ScrollState::new();
    scroll.scroll_down(100, 10);
    assert_eq!(scroll.offset, 10);
}

#[test]
fn test_scroll_up_does_not_go_negative() {
    let mut scroll = ScrollState::new();
    scroll.offset = 5;
    scroll.scroll_up(100);
    assert_eq!(scroll.offset, 0);
}

#[test]
fn test_scroll_down_by_one() {
    let mut scroll = ScrollState::new();
    scroll.scroll_down(1, 100);
    assert_eq!(scroll.offset, 1);
}

#[test]
fn test_scroll_up_by_one() {
    let mut scroll = ScrollState::new();
    scroll.offset = 5;
    scroll.scroll_up(1);
    assert_eq!(scroll.offset, 4);
}

#[test]
fn test_focus_next_stays_in_bounds() {
    let mut scroll = ScrollState::new();
    scroll.focus_next(3);
    scroll.focus_next(3);
    scroll.focus_next(3);
    assert_eq!(scroll.focused_index, 2);
}

#[test]
fn test_focus_prev_stays_in_bounds() {
    let mut scroll = ScrollState::new();
    scroll.focused_index = 5;
    scroll.focus_prev();
    scroll.focus_prev();
    scroll.focus_prev();
    scroll.focus_prev();
    scroll.focus_prev();
    scroll.focus_prev();
    assert_eq!(scroll.focused_index, 0);
}

#[test]
fn reset_focus_returns_to_first_block() {
    let mut scroll = ScrollState::new();
    scroll.focus_next(4);
    scroll.focus_next(4);
    scroll.reset_focus();
    assert_eq!(scroll.focused_index, 0);
}

#[test]
fn focus_next_on_empty_list_stays_put() {
    let mut scroll = ScrollState::new();
    scroll.focus_next(0);
    assert_eq!(scroll.focused_index, 0);
}
