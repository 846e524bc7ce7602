use portit::app::{App, Mode};
use portit::layout::cycle_index;
use portit::ports::PortEntry;

fn test_app(n: usize) -> App {
    let entries: Vec<PortEntry> = (0..n)
        .map(|i| PortEntry {
            pid: 1000 + i as u32,
            process_name: format!("proc{}", i),
            port: 3000 + i as u16,
            address: "127.0.0.1".to_string(),
            command: String::new(),
        })
        .collect();
    let filtered_entries: Vec<usize> = (0..n).collect();
    App {
        entries,
        selected: 0,
        scroll_offset: 0,
        filter: String::new(),
        filtered_entries,
        mode: Mode::Normal,
        should_quit: false,
        status_msg: None,
        start_row: 0,
        height: 0,
        visible_rows: 5,
        terminal_rows: 0,
    }
}

#[test]
fn cycle_forward() {
    assert_eq!(cycle_index(0, 5, 1), 1);
    assert_eq!(cycle_index(4, 5, 1), 0);
}

#[test]
fn cycle_backward() {
    assert_eq!(cycle_index(2, 5, -1), 1);
    assert_eq!(cycle_index(0, 5, -1), 4);
}

#[test]
fn cycle_empty() {
    assert_eq!(cycle_index(0, 0, 1), 0);
    assert_eq!(cycle_index(0, 0, -1), 0);
}

#[test]
fn cycle_single() {
    assert_eq!(cycle_index(0, 1, 1), 0);
    assert_eq!(cycle_index(0, 1, -1), 0);
}

#[test]
fn layout_small_terminal() {
    let mut app = test_app(10);
    app.recalc_layout(10);
    assert_eq!(app.height, 8);
    assert_eq!(app.visible_rows, 5);
}

#[test]
fn layout_large_terminal() {
    let mut app = test_app(10);
    app.recalc_layout(50);
    assert_eq!(app.height, 13);
    assert_eq!(app.visible_rows, 10);
}

#[test]
fn layout_tiny_terminal() {
    let mut app = test_app(10);
    app.recalc_layout(4);
    assert_eq!(app.height, 4);
    assert_eq!(app.visible_rows, 1);
}

#[test]
fn layout_no_entries() {
    let mut app = test_app(0);
    app.recalc_layout(20);
    assert_eq!(app.height, 4);
    assert_eq!(app.visible_rows, 1);
}

#[test]
fn next_row_moves_forward() {
    let mut app = test_app(5);
    app.next_row();
    assert_eq!(app.selected, 1);
}

#[test]
fn next_row_wraps() {
    let mut app = test_app(3);
    app.selected = 2;
    app.next_row();
    assert_eq!(app.selected, 0);
}

#[test]
fn prev_row_wraps() {
    let mut app = test_app(3);
    app.prev_row();
    assert_eq!(app.selected, 2);
}

#[test]
fn scroll_follows_selection_down() {
    let mut app = test_app(10);
    app.visible_rows = 3;
    for _ in 0..5 {
        app.next_row();
    }
    assert_eq!(app.selected, 5);
    assert!(app.scroll_offset + app.visible_rows > app.selected);
}

#[test]
fn scroll_follows_selection_up() {
    let mut app = test_app(10);
    app.visible_rows = 3;
    app.selected = 5;
    app.scroll_offset = 5;
    app.prev_row();
    assert_eq!(app.selected, 4);
    assert!(app.scroll_offset <= app.selected);
}

#[test]
fn empty_list_selection() {
    let mut app = test_app(0);
    app.next_row();
    app.prev_row();
    assert_eq!(app.selected, 0);
}

#[test]
fn filter_by_name() {
    let mut app = test_app(5);
    app.filter = "proc2".to_string();
    app.apply_filter();
    assert_eq!(app.filtered_entries, vec![2]);
}

#[test]
fn filter_case_insensitive() {
    let mut app = test_app(5);
    app.filter = "PROC1".to_string();
    app.apply_filter();
    assert_eq!(app.filtered_entries, vec![1]);
}

#[test]
fn filter_by_port() {
    let mut app = test_app(5);
    app.filter = "3002".to_string();
    app.apply_filter();
    assert_eq!(app.filtered_entries, vec![2]);
}

#[test]
fn filter_empty_shows_all() {
    let mut app = test_app(5);
    app.filter = String::new();
    app.apply_filter();
    assert_eq!(app.filtered_entries, vec![0, 1, 2, 3, 4]);
}

#[test]
fn filter_no_match() {
    let mut app = test_app(5);
    app.filter = "zzzzz".to_string();
    app.apply_filter();
    assert!(app.filtered_entries.is_empty());
    assert_eq!(app.selected, 0);
}

#[test]
fn filter_clamps_selection() {
    let mut app = test_app(5);
    app.selected = 4;
    app.filter = "proc0".to_string();
    app.apply_filter();
    assert_eq!(app.selected, 0);
}

#[test]
fn selected_entry_valid() {
    let app = test_app(3);
    let entry = app.selected_entry().unwrap();
    assert_eq!(entry.pid, 1000);
}

#[test]
fn selected_entry_empty() {
    let mut app = test_app(0);
    app.filtered_entries.clear();
    assert!(app.selected_entry().is_none());
}
