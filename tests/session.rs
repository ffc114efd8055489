use deltective::dashboard::{event_for_key, Dashboard, Event, Fetch, Key, Slot};

fn session(n: usize) -> Dashboard<usize, String, String> {
    Dashboard::new((0..n).collect())
}

#[test]
fn next_view_cycles_through_five_views() {
    let mut d = session(3);
    let mut seen = Vec::new();
    for _ in 0..5 {
        d.handle_event(Event::NextView);
        seen.push(d.current_tab);
    }
    assert_eq!(seen, vec![1, 2, 3, 4, 0]);
}

#[test]
fn four_next_views_from_overview_reach_timeline() {
    let mut d = session(3);
    for _ in 0..4 {
        d.handle_event(Event::NextView);
    }
    assert_eq!(d.current_tab, 4);
}

#[test]
fn prev_view_wraps_to_last() {
    let mut d = session(3);
    d.handle_event(Event::PrevView);
    assert_eq!(d.current_tab, 4);
}

#[test]
fn view_change_resets_destination_scroll() {
    let mut d = session(3);
    d.handle_event(Event::NextView);
    d.handle_event(Event::PageDown);
    d.handle_event(Event::ScrollDown);
    assert_eq!(d.scroll_positions[1], 11);
    d.handle_event(Event::NextView);
    d.handle_event(Event::ScrollDown);
    d.handle_event(Event::PrevView);
    assert_eq!(d.current_tab, 1);
    assert_eq!(d.scroll_positions[1], 0);
    assert_eq!(d.scroll_positions[2], 1);
}

#[test]
fn scrolling_clamps_at_zero() {
    let mut d = session(0);
    d.handle_event(Event::ScrollUp);
    assert_eq!(d.scroll_positions[0], 0);
    d.handle_event(Event::PageDown);
    d.handle_event(Event::ScrollUp);
    assert_eq!(d.scroll_positions[0], 9);
    d.handle_event(Event::PageUp);
    assert_eq!(d.scroll_positions[0], 0);
    d.handle_event(Event::PageDown);
    d.handle_event(Event::Home);
    assert_eq!(d.scroll_positions[0], 0);
}

#[test]
fn history_pages_of_twenty_three() {
    let mut d = session(23);
    assert_eq!(d.total_history_pages(), 3);
    d.handle_event(Event::NextView);
    d.handle_event(Event::NextHistoryPage);
    d.handle_event(Event::NextHistoryPage);
    assert_eq!(d.history_page, 2);
    assert_eq!(d.history_page_range(), (20, 23));
    d.handle_event(Event::ScrollDown);
    d.handle_event(Event::NextHistoryPage);
    assert_eq!(d.history_page, 2);
    assert_eq!(d.scroll_positions[1], 1);
    d.handle_event(Event::PrevHistoryPage);
    assert_eq!(d.history_page, 1);
    assert_eq!(d.scroll_positions[1], 0);
    assert_eq!(d.history_page_range(), (10, 20));
}

#[test]
fn toggle_sort_reverses_and_resets_page() {
    let mut d = session(23);
    d.handle_event(Event::NextView);
    d.handle_event(Event::NextHistoryPage);
    d.handle_event(Event::ToggleHistorySort);
    assert!(d.history_reversed);
    assert_eq!(d.history_page, 0);
    assert_eq!(d.history[0], 22);
    assert_eq!(d.history[22], 0);
    d.handle_event(Event::ToggleHistorySort);
    assert!(!d.history_reversed);
    assert_eq!(d.history, (0..23).collect::<Vec<usize>>());
}

#[test]
fn history_keys_ignored_elsewhere() {
    let mut d = session(23);
    d.handle_event(Event::NextHistoryPage);
    d.handle_event(Event::ToggleHistorySort);
    assert_eq!(d.history_page, 0);
    assert!(!d.history_reversed);
    assert_eq!(d.history[0], 0);
}

#[test]
fn empty_history_has_no_pages() {
    let mut d = session(0);
    assert_eq!(d.total_history_pages(), 0);
    d.handle_event(Event::NextView);
    d.handle_event(Event::NextHistoryPage);
    assert_eq!(d.history_page, 0);
}

#[test]
fn keymap() {
    assert_eq!(event_for_key(Key::Char('q')), Some(Event::Quit));
    assert_eq!(event_for_key(Key::Tab), Some(Event::NextView));
    assert_eq!(event_for_key(Key::Right), Some(Event::NextView));
    assert_eq!(event_for_key(Key::Left), Some(Event::PrevView));
    assert_eq!(event_for_key(Key::Char('k')), Some(Event::ScrollUp));
    assert_eq!(event_for_key(Key::Down), Some(Event::ScrollDown));
    assert_eq!(event_for_key(Key::PageDown), Some(Event::PageDown));
    assert_eq!(event_for_key(Key::Home), Some(Event::Home));
    assert_eq!(event_for_key(Key::Char('n')), Some(Event::NextHistoryPage));
    assert_eq!(event_for_key(Key::Char('p')), Some(Event::PrevHistoryPage));
    assert_eq!(event_for_key(Key::Char('r')), Some(Event::ToggleHistorySort));
    assert_eq!(event_for_key(Key::F5), Some(Event::Refresh));
    assert_eq!(event_for_key(Key::Char('x')), None);
    assert_eq!(event_for_key(Key::Other), None);
}

#[test]
fn quit_sets_flag() {
    let mut d = session(1);
    d.handle_event(Event::Quit);
    assert!(d.should_quit);
}

#[test]
fn lazy_snapshots_are_fetched_once_and_retried_after_failure() {
    let mut d = session(1);
    assert_eq!(d.pending_fetch(), None);
    d.handle_event(Event::NextView);
    d.handle_event(Event::NextView);
    d.handle_event(Event::NextView);
    assert_eq!(d.pending_fetch(), Some(Fetch::Configuration));
    d.store_configuration(Some("config".to_string()));
    assert_eq!(d.pending_fetch(), None);
    d.handle_event(Event::ScrollDown);
    assert_eq!(d.pending_fetch(), None);
    d.handle_event(Event::NextView);
    assert_eq!(d.pending_fetch(), Some(Fetch::Timeline));
    d.store_timeline(None);
    assert!(matches!(d.timeline, Slot::Unavailable));
    assert_eq!(d.pending_fetch(), None);
    d.handle_event(Event::PrevView);
    assert!(matches!(d.configuration, Slot::Ready(_)));
    d.handle_event(Event::NextView);
    assert_eq!(d.pending_fetch(), Some(Fetch::Timeline));
}

#[test]
fn refresh_drops_the_active_snapshot() {
    let mut d = session(1);
    for _ in 0..3 {
        d.handle_event(Event::NextView);
    }
    d.store_configuration(Some("config".to_string()));
    d.handle_event(Event::Refresh);
    assert!(matches!(d.configuration, Slot::Empty));
    assert_eq!(d.pending_fetch(), Some(Fetch::Configuration));
}
