use portit::app::{ActionMenu, App, Effect, Event, Key, KeyKind, Mode};
use portit::layout::{compute_layout, cycle_index};
use portit::ports::{
    attach_commands, entry_matches_query, kill_signal, parse_addr_port, parse_listing,
    parse_lsof_line, pid_list, PortEntry,
};
use portit::text::{
    char_is_space, chars_of, contains_ascii_case_insensitive, decimal_string, parse_number,
    split_into_lines, split_whitespace, string_of, to_lower,
};

fn entry(pid: u32, name: &str, port: u16) -> PortEntry {
    PortEntry {
        pid,
        process_name: name.to_string(),
        port,
        address: "127.0.0.1".to_string(),
        command: String::new(),
    }
}

fn entries(n: usize) -> Vec<PortEntry> {
    (0..n).map(|i| entry(1000 + i as u32, &format!("proc{}", i), 3000 + i as u16)).collect()
}

fn session(n: usize, rows: usize) -> App {
    let mut app = App::new(entries(n));
    app.recalc_layout(rows);
    app
}

fn press(app: &mut App, key: Key) -> Effect {
    app.handle_event(Event::Key { key, kind: KeyKind::Press })
}

fn type_text(app: &mut App, text: &str) {
    for c in text.chars() {
        press(app, Key::Char(c));
    }
}

fn is_nothing(effect: &Effect) -> bool {
    matches!(effect, Effect::Nothing)
}

#[test]
fn new_session_shows_everything() {
    let app = App::new(entries(4));
    assert_eq!(app.filtered_entries, vec![0, 1, 2, 3]);
    assert_eq!(app.selected, 0);
    assert_eq!(app.scroll_offset, 0);
    assert_eq!(app.filter, "");
    assert!(matches!(app.mode, Mode::Normal));
    assert!(!app.should_quit);
    assert!(app.status_msg.is_none());
    assert_eq!(app.height, 0);
    assert_eq!(app.visible_rows, 0);
    assert_eq!(app.terminal_rows, 0);
    assert_eq!(app.start_row, 0);
}

#[test]
fn layout_table_of_values() {
    assert_eq!(compute_layout(10, 10), (8, 5));
    assert_eq!(compute_layout(50, 10), (13, 10));
    assert_eq!(compute_layout(4, 10), (4, 1));
    assert_eq!(compute_layout(20, 0), (4, 1));
    assert_eq!(compute_layout(0, 7), (0, 0));
    assert_eq!(compute_layout(2, 7), (2, 0));
    assert_eq!(compute_layout(3, 7), (3, 0));
    assert_eq!(compute_layout(100, 500), (23, 20));
    assert_eq!(compute_layout(40, 20), (23, 20));
    assert_eq!(compute_layout(41, 21), (23, 20));
    assert_eq!(compute_layout(usize::MAX, usize::MAX), (23, 20));
}

#[test]
fn layout_same_inputs_same_result() {
    assert_eq!(compute_layout(17, 9), compute_layout(17, 9));
}

#[test]
fn cycle_by_larger_steps() {
    assert_eq!(cycle_index(3, 5, 7), 0);
    assert_eq!(cycle_index(3, 5, -9), 4);
    assert_eq!(cycle_index(12, 5, 1), 3);
    assert_eq!(cycle_index(0, 3, isize::MIN), (3 - (1usize << (usize::BITS - 1)) % 3) % 3);
    assert_eq!(cycle_index(usize::MAX, 7, isize::MAX), ((usize::MAX % 7) + (isize::MAX as usize % 7)) % 7);
}

#[test]
fn moves_keep_selection_in_window() {
    let mut app = session(10, 8);
    assert_eq!(app.visible_rows, 4);
    let steps: [isize; 14] = [1, 1, 1, 1, 1, 1, -1, -1, 1, 1, 1, 1, 1, 1];
    for step in steps {
        app.move_selection(step);
        assert!(app.scroll_offset <= app.selected);
        assert!(app.selected < app.scroll_offset + app.visible_rows);
        assert!(app.selected < 10);
    }
    assert_eq!(app.selected, 0);
    assert_eq!(app.scroll_offset, 0);
    app.prev_row();
    assert_eq!(app.selected, 9);
    assert_eq!(app.scroll_offset, 6);
}

#[test]
fn scroll_moves_as_little_as_possible() {
    let mut app = session(10, 8);
    for _ in 0..4 {
        app.next_row();
    }
    assert_eq!(app.selected, 4);
    assert_eq!(app.scroll_offset, 1);
    app.prev_row();
    assert_eq!(app.scroll_offset, 1);
    app.prev_row();
    app.prev_row();
    app.prev_row();
    assert_eq!(app.selected, 0);
    assert_eq!(app.scroll_offset, 0);
}

#[test]
fn no_visible_rows_no_scrolling() {
    let mut app = session(5, 3);
    assert_eq!(app.visible_rows, 0);
    app.scroll_offset = 2;
    app.next_row();
    assert_eq!(app.selected, 1);
    assert_eq!(app.scroll_offset, 2);
}

#[test]
fn full_turn_returns_to_start() {
    for start in 0..7 {
        let mut app = session(7, 30);
        app.selected = start;
        for _ in 0..7 {
            app.next_row();
        }
        assert_eq!(app.selected, start);
        for _ in 0..7 {
            app.prev_row();
        }
        assert_eq!(app.selected, start);
    }
}

#[test]
fn filter_twice_is_filter_once() {
    let mut app = session(12, 30);
    app.selected = 11;
    app.filter = "proc1".to_string();
    app.apply_filter();
    let once = (app.filtered_entries.clone(), app.selected, app.scroll_offset, app.height, app.visible_rows);
    assert_eq!(once.0, vec![1, 10, 11]);
    assert_eq!(once.1, 2);
    app.apply_filter();
    let twice = (app.filtered_entries.clone(), app.selected, app.scroll_offset, app.height, app.visible_rows);
    assert_eq!(once, twice);
}

#[test]
fn filter_resizes_region() {
    let mut app = session(12, 30);
    assert_eq!((app.height, app.visible_rows), (15, 12));
    app.filter = "proc1".to_string();
    app.apply_filter();
    assert_eq!((app.height, app.visible_rows), (6, 3));
    assert_eq!(app.terminal_rows, 30);
}

#[test]
fn filter_resets_scroll() {
    let mut app = session(10, 8);
    for _ in 0..9 {
        app.next_row();
    }
    assert_eq!(app.scroll_offset, 6);
    app.apply_filter();
    assert_eq!(app.scroll_offset, 0);
    assert_eq!(app.selected, 9);
}

#[test]
fn filter_by_number_needs_the_whole_number() {
    let list = vec![entry(1, "a", 300), entry(2, "b", 30), entry(3, "c", 3002), entry(4, "d", 13002)];
    let mut app = App::new(list);
    app.filter = "3002".to_string();
    app.apply_filter();
    assert_eq!(app.filtered_entries, vec![2, 3]);
    app.filter = "30".to_string();
    app.apply_filter();
    assert_eq!(app.filtered_entries, vec![0, 1, 2, 3]);
}

#[test]
fn filter_searches_command_but_not_address() {
    let mut e = entry(7, "node", 80);
    e.command = "/usr/bin/Node Server.js".to_string();
    e.address = "10.9.8.7".to_string();
    assert!(entry_matches_query(&e, "server"));
    assert!(entry_matches_query(&e, "NODE"));
    assert!(entry_matches_query(&e, "80"));
    assert!(entry_matches_query(&e, ""));
    assert!(!entry_matches_query(&e, "10.9"));
    assert!(!entry_matches_query(&e, "7"));
}

#[test]
fn empty_result_stops_navigation() {
    let mut app = session(5, 30);
    app.selected = 3;
    app.filter = "zzzzz".to_string();
    app.apply_filter();
    assert_eq!(app.selected, 0);
    assert!(app.selected_entry().is_none());
    let effect = press(&mut app, Key::Down);
    assert!(is_nothing(&effect));
    press(&mut app, Key::Up);
    press(&mut app, Key::Char('j'));
    press(&mut app, Key::Char('k'));
    assert_eq!(app.selected, 0);
    assert_eq!(app.scroll_offset, 0);
    press(&mut app, Key::Enter);
    assert!(matches!(app.mode, Mode::Normal));
    press(&mut app, Key::Char('K'));
    assert!(matches!(app.mode, Mode::Normal));
}

#[test]
fn end_to_end_filter_menu_cancel() {
    let mut app = session(5, 30);
    press(&mut app, Key::Char('/'));
    assert!(matches!(app.mode, Mode::FilterEditing));
    type_text(&mut app, "proc2");
    assert_eq!(app.filtered_entries, vec![0, 1, 2, 3, 4]);
    press(&mut app, Key::Enter);
    assert!(matches!(app.mode, Mode::Normal));
    assert_eq!(app.filtered_entries, vec![2]);
    assert_eq!(app.selected, 0);
    assert_eq!(app.selected_entry().unwrap().process_name, "proc2");

    press(&mut app, Key::Enter);
    match &app.mode {
        Mode::ActionMenu(menu) => {
            assert_eq!(menu.pid, 1002);
            assert_eq!(menu.name, "proc2");
            assert_eq!(menu.selected, 0);
        }
        _ => panic!("menu expected"),
    }
    press(&mut app, Key::Down);
    match &app.mode {
        Mode::ActionMenu(menu) => assert_eq!(menu.selected, 1),
        _ => panic!("menu expected"),
    }
    press(&mut app, Key::Enter);
    match &app.mode {
        Mode::ConfirmKill { pid, name, force } => {
            assert_eq!(*pid, 1002);
            assert_eq!(name, "proc2");
            assert!(*force);
        }
        _ => panic!("confirmation expected"),
    }
    let effect = press(&mut app, Key::Char('n'));
    assert!(is_nothing(&effect));
    assert!(matches!(app.mode, Mode::Normal));
    assert_eq!(app.entries.len(), 5);
    assert_eq!(app.entries[2].process_name, "proc2");
    assert_eq!(app.filtered_entries, vec![2]);
    assert!(app.status_msg.is_none());
}

#[test]
fn refresh_applies_filter_to_new_entries() {
    let mut app = session(5, 30);
    app.filter = "proc3".to_string();
    app.apply_filter();
    assert_eq!(app.filtered_entries, vec![3]);
    let effect = press(&mut app, Key::Char('r'));
    assert!(matches!(effect, Effect::Refresh));
    let fresh = vec![entry(1, "proc3", 10), entry(2, "other", 11), entry(3, "xproc3x", 12)];
    let effect = app.handle_event(Event::Listing { entries: fresh });
    assert!(is_nothing(&effect));
    assert_eq!(app.entries.len(), 3);
    assert_eq!(app.filter, "proc3");
    assert_eq!(app.filtered_entries, vec![0, 2]);
    assert_eq!(app.selected, 0);
    app.refresh(Vec::new());
    assert!(app.filtered_entries.is_empty());
    assert!(app.selected_entry().is_none());
}

#[test]
fn filter_keys_edit_the_text() {
    let mut app = session(5, 30);
    press(&mut app, Key::Char('/'));
    type_text(&mut app, "aBc");
    assert_eq!(app.filter, "aBc");
    press(&mut app, Key::Backspace);
    assert_eq!(app.filter, "aB");
    press(&mut app, Key::Char('\u{e9}'));
    assert_eq!(app.filter, "aB\u{e9}");
    press(&mut app, Key::Backspace);
    press(&mut app, Key::Backspace);
    press(&mut app, Key::Backspace);
    assert_eq!(app.filter, "");
    press(&mut app, Key::Backspace);
    assert_eq!(app.filter, "");
    press(&mut app, Key::Up);
    press(&mut app, Key::Other);
    assert_eq!(app.selected, 0);
    assert!(matches!(app.mode, Mode::FilterEditing));
    type_text(&mut app, "qjkr/KF");
    assert_eq!(app.filter, "qjkr/KF");
    assert!(!app.should_quit);
}

#[test]
fn filter_escape_clears_the_text() {
    let mut app = session(5, 30);
    app.filter = "proc1".to_string();
    app.apply_filter();
    press(&mut app, Key::Char('/'));
    type_text(&mut app, "x");
    press(&mut app, Key::Esc);
    assert!(matches!(app.mode, Mode::Normal));
    assert_eq!(app.filter, "");
    assert_eq!(app.filtered_entries, vec![0, 1, 2, 3, 4]);
    assert!(!app.should_quit);
}

#[test]
fn normal_keys() {
    let mut app = session(5, 30);
    press(&mut app, Key::Char('j'));
    press(&mut app, Key::Down);
    assert_eq!(app.selected, 2);
    press(&mut app, Key::Char('k'));
    assert_eq!(app.selected, 1);
    press(&mut app, Key::Up);
    press(&mut app, Key::Up);
    assert_eq!(app.selected, 4);
    let effect = press(&mut app, Key::Char('x'));
    assert!(is_nothing(&effect));
    press(&mut app, Key::Backspace);
    press(&mut app, Key::Other);
    assert_eq!(app.selected, 4);
    assert!(matches!(app.mode, Mode::Normal));
    assert!(!app.should_quit);
    press(&mut app, Key::Char('q'));
    assert!(app.should_quit);
    let mut other = session(5, 30);
    press(&mut other, Key::Esc);
    assert!(other.should_quit);
}

#[test]
fn kill_keys_open_confirmation() {
    let mut app = session(5, 30);
    press(&mut app, Key::Down);
    press(&mut app, Key::Char('K'));
    match &app.mode {
        Mode::ConfirmKill { pid, name, force } => {
            assert_eq!(*pid, 1001);
            assert_eq!(name, "proc1");
            assert!(!*force);
        }
        _ => panic!("confirmation expected"),
    }
    press(&mut app, Key::Esc);
    assert!(matches!(app.mode, Mode::Normal));
    assert!(!app.should_quit);
    press(&mut app, Key::Char('F'));
    match &app.mode {
        Mode::ConfirmKill { force, .. } => assert!(*force),
        _ => panic!("confirmation expected"),
    }
}

#[test]
fn confirm_yes_asks_for_the_signal() {
    for answer in ['y', 'Y'] {
        let mut app = session(5, 30);
        app.request_kill(true);
        let effect = press(&mut app, Key::Char(answer));
        match effect {
            Effect::Kill { pid, name, force } => {
                assert_eq!(pid, 1000);
                assert_eq!(name, "proc0");
                assert!(force);
            }
            _ => panic!("kill expected"),
        }
        assert!(matches!(app.mode, Mode::Normal));
    }
}

#[test]
fn confirm_comes_before_other_modes() {
    let mut app = session(5, 30);
    app.request_kill(false);
    let effect = press(&mut app, Key::Char('q'));
    assert!(is_nothing(&effect));
    assert!(!app.should_quit);
    assert!(matches!(app.mode, Mode::Normal));
    assert_eq!(app.selected, 0);
}

#[test]
fn kill_report_and_refresh() {
    let mut app = session(5, 30);
    let effect = app.handle_event(Event::KillDone { pid: 42, name: "node".to_string(), ok: true });
    assert!(matches!(effect, Effect::Refresh));
    assert_eq!(app.status_msg.as_deref(), Some("Killed node (PID 42)"));
    let effect = app.kill_done(4294967295, "x y", false);
    assert!(matches!(effect, Effect::Refresh));
    assert_eq!(app.status_msg.as_deref(), Some("Failed to kill x y (PID 4294967295)"));
    app.handle_event(Event::Listing { entries: entries(2) });
    assert!(app.status_msg.is_some());
    app.handle_event(Event::Resize { rows: 12 });
    assert!(app.status_msg.is_some());
    app.handle_event(Event::Key { key: Key::Down, kind: KeyKind::Release });
    assert!(app.status_msg.is_some());
    press(&mut app, Key::Other);
    assert!(app.status_msg.is_none());
}

#[test]
fn menu_keys() {
    let mut app = session(5, 30);
    app.open_action_menu();
    let pick = |app: &App| match &app.mode {
        Mode::ActionMenu(menu) => menu.selected,
        _ => panic!("menu expected"),
    };
    assert_eq!(pick(&app), 0);
    press(&mut app, Key::Char('j'));
    assert_eq!(pick(&app), 1);
    press(&mut app, Key::Char('j'));
    assert_eq!(pick(&app), 0);
    press(&mut app, Key::Up);
    assert_eq!(pick(&app), 1);
    press(&mut app, Key::Char('k'));
    assert_eq!(pick(&app), 0);
    press(&mut app, Key::Char('x'));
    press(&mut app, Key::Backspace);
    assert_eq!(pick(&app), 0);
    assert_eq!(app.selected, 0);
    press(&mut app, Key::Enter);
    match &app.mode {
        Mode::ConfirmKill { pid, force, .. } => {
            assert_eq!(*pid, 1000);
            assert!(!*force);
        }
        _ => panic!("confirmation expected"),
    }
    let mut second = session(5, 30);
    second.open_action_menu();
    press(&mut second, Key::Esc);
    assert!(matches!(second.mode, Mode::Normal));
    assert!(!second.should_quit);
    second.open_action_menu();
    press(&mut second, Key::Char('q'));
    assert!(matches!(second.mode, Mode::Normal));
    assert!(!second.should_quit);
}

#[test]
fn move_action_selection_wraps() {
    let mut app = session(3, 30);
    app.mode = Mode::ActionMenu(ActionMenu { pid: 9, name: "n".to_string(), selected: 1 });
    app.move_action_selection(1);
    match &app.mode {
        Mode::ActionMenu(menu) => {
            assert_eq!(menu.selected, 0);
            assert_eq!(menu.pid, 9);
            assert_eq!(menu.name, "n");
        }
        _ => panic!("menu expected"),
    }
    app.move_action_selection(-1);
    match &app.mode {
        Mode::ActionMenu(menu) => assert_eq!(menu.selected, 1),
        _ => panic!("menu expected"),
    }
    app.mode = Mode::Normal;
    app.move_action_selection(1);
    assert!(matches!(app.mode, Mode::Normal));
}

#[test]
fn resize_works_in_every_mode() {
    let mut app = session(10, 50);
    app.request_kill(false);
    let effect = app.handle_event(Event::Resize { rows: 10 });
    assert!(is_nothing(&effect));
    assert_eq!((app.height, app.visible_rows, app.terminal_rows), (8, 5, 10));
    assert!(matches!(app.mode, Mode::ConfirmKill { .. }));
    app.mode = Mode::FilterEditing;
    app.handle_event(Event::Resize { rows: 4 });
    assert_eq!((app.height, app.visible_rows), (4, 1));
    assert!(matches!(app.mode, Mode::FilterEditing));
}

#[test]
fn only_presses_count() {
    let mut app = session(5, 30);
    let effect = app.handle_event(Event::Key { key: Key::Down, kind: KeyKind::Release });
    assert!(is_nothing(&effect));
    app.handle_event(Event::Key { key: Key::Down, kind: KeyKind::Repeat });
    app.handle_event(Event::Other);
    assert_eq!(app.selected, 0);
    app.handle_event(Event::Key { key: Key::Down, kind: KeyKind::Press });
    assert_eq!(app.selected, 1);
}

#[test]
fn anchor_places_region_above_cursor() {
    let mut app = session(10, 50);
    assert_eq!(app.height, 13);
    app.anchor(20);
    assert_eq!(app.start_row, 8);
    app.anchor(12);
    assert_eq!(app.start_row, 0);
    app.anchor(5);
    assert_eq!(app.start_row, 0);
    app.anchor(u16::MAX);
    assert_eq!(app.start_row, u16::MAX - 13);
}

#[test]
fn selected_entry_with_dangling_index() {
    let mut app = session(3, 30);
    app.filtered_entries = vec![7];
    assert!(app.selected_entry().is_none());
    app.filtered_entries = vec![2];
    app.selected = 1;
    assert!(app.selected_entry().is_none());
    app.selected = 0;
    assert_eq!(app.selected_entry().unwrap().pid, 1002);
}

#[test]
fn search_ignores_ascii_case_only() {
    assert!(contains_ascii_case_insensitive("proc1", "PROC1"));
    assert!(contains_ascii_case_insensitive("Hello World", "LO wO"));
    assert!(contains_ascii_case_insensitive("abc", ""));
    assert!(contains_ascii_case_insensitive("", ""));
    assert!(!contains_ascii_case_insensitive("", "a"));
    assert!(!contains_ascii_case_insensitive("ab", "abc"));
    assert!(contains_ascii_case_insensitive("xxabc", "abc"));
    assert!(!contains_ascii_case_insensitive("caf\u{c9}", "caf\u{e9}"));
    assert!(contains_ascii_case_insensitive("CAF\u{e9}", "caf\u{e9}"));
    assert!(!contains_ascii_case_insensitive("a[b", "a{b"));
    assert!(!contains_ascii_case_insensitive("a@b", "a`b"));
    assert_eq!(to_lower('A'), 'a');
    assert_eq!(to_lower('Z'), 'z');
    assert_eq!(to_lower('a'), 'a');
    assert_eq!(to_lower('@'), '@');
    assert_eq!(to_lower('['), '[');
    assert_eq!(to_lower('\u{c9}'), '\u{c9}');
}

#[test]
fn decimal_text() {
    assert_eq!(decimal_string(0), "0");
    assert_eq!(decimal_string(7), "7");
    assert_eq!(decimal_string(10), "10");
    assert_eq!(decimal_string(65535), "65535");
    assert_eq!(decimal_string(4294967295), "4294967295");
    assert_eq!(decimal_string(1002003), "1002003");
}

#[test]
fn number_reading() {
    let read = |s: &str, max: u32| {
        let v = chars_of(s);
        parse_number(&v, 0, v.len(), max)
    };
    assert_eq!(read("0", 65535), Some(0));
    assert_eq!(read("65535", 65535), Some(65535));
    assert_eq!(read("65536", 65535), None);
    assert_eq!(read("+80", 65535), Some(80));
    assert_eq!(read("0080", 65535), Some(80));
    assert_eq!(read("", 65535), None);
    assert_eq!(read("+", 65535), None);
    assert_eq!(read("-1", 65535), None);
    assert_eq!(read("++1", 65535), None);
    assert_eq!(read("12a", 65535), None);
    assert_eq!(read(" 12", 65535), None);
    assert_eq!(read("4294967295", u32::MAX), Some(4294967295));
    assert_eq!(read("4294967296", u32::MAX), None);
    assert_eq!(read("99999999999999999999999", u32::MAX), None);
    assert_eq!(read("\u{661}", 65535), None);
    let v = chars_of("ab123cd");
    assert_eq!(parse_number(&v, 2, 5, 1000), Some(123));
    assert_eq!(parse_number(&v, 2, 2, 1000), None);
    assert_eq!(string_of(&v, 1, 4), "b12");
}

#[test]
fn address_and_port_edge_cases() {
    assert_eq!(parse_addr_port(":80"), Some((String::new(), 80)));
    assert_eq!(parse_addr_port("a:b:81"), Some(("a:b".to_string(), 81)));
    assert_eq!(parse_addr_port("host:"), None);
    assert_eq!(parse_addr_port("host:65536"), None);
    assert_eq!(parse_addr_port("host:65535"), Some(("host".to_string(), 65535)));
    assert_eq!(parse_addr_port("host:+7"), Some(("host".to_string(), 7)));
    assert_eq!(parse_addr_port("[]:5"), Some((String::new(), 5)));
    assert_eq!(parse_addr_port("[::1]:x"), None);
    assert_eq!(parse_addr_port("[::1]:"), None);
    assert_eq!(parse_addr_port("[x:80"), Some(("[x".to_string(), 80)));
    assert_eq!(parse_addr_port("[a]:1]:2"), Some(("a]:1".to_string(), 2)));
    assert_eq!(parse_addr_port("[fe80::1%lo0]:53"), Some(("fe80::1%lo0".to_string(), 53)));
    assert_eq!(parse_addr_port("["), None);
    assert_eq!(parse_addr_port(":"), None);
}

#[test]
fn white_space() {
    for c in [' ', '\t', '\n', '\r', '\u{b}', '\u{c}', '\u{85}', '\u{a0}', '\u{1680}', '\u{2000}', '\u{200a}', '\u{2028}', '\u{2029}', '\u{202f}', '\u{205f}', '\u{3000}'] {
        assert!(char_is_space(c));
        assert!(c.is_whitespace());
    }
    for c in ['a', '0', '\u{8}', '\u{e}', '\u{1f}', '\u{200b}', '\u{feff}', '\u{2060}', '\u{180e}'] {
        assert!(!char_is_space(c));
        assert!(!c.is_whitespace());
    }
    let mut code: u32 = 0;
    while code < 0x3100 {
        if let Some(c) = char::from_u32(code) {
            assert_eq!(char_is_space(c), c.is_whitespace());
        }
        code += 1;
    }
}

#[test]
fn words_and_lines() {
    let as_strings = |rows: Vec<Vec<char>>| -> Vec<String> {
        rows.iter().map(|r| r.iter().collect()).collect()
    };
    let v = chars_of("  one\ttwo \u{a0} three  ");
    assert_eq!(as_strings(split_whitespace(&v, 0, v.len())), vec!["one", "two", "three"]);
    assert_eq!(as_strings(split_whitespace(&v, 3, 9)), vec!["ne", "two"]);
    let empty = chars_of(" \t ");
    assert!(split_whitespace(&empty, 0, empty.len()).is_empty());
    let text = "a\r\nb\n\nc\r";
    assert_eq!(as_strings(split_into_lines(&chars_of(text))), text.lines().collect::<Vec<_>>());
    assert_eq!(as_strings(split_into_lines(&chars_of(text))), vec!["a", "b", "", "c\r"]);
    for text in ["", "\n", "x", "x\n", "\r\n", "a\r\r\nb", "\n\n", "a\nb\n"] {
        assert_eq!(as_strings(split_into_lines(&chars_of(text))), text.lines().collect::<Vec<_>>());
    }
}

#[test]
fn lsof_line_field_count_and_pid_range() {
    assert!(parse_lsof_line("a 1 c d e f g h *:80").is_none());
    let e = parse_lsof_line("a 1 c d e f g h *:80 (LISTEN)").unwrap();
    assert_eq!((e.pid, e.port), (1, 80));
    let e = parse_lsof_line("a 4294967295 c d e f g h i *:80 (LISTEN)").unwrap();
    assert_eq!((e.pid, e.port), (4294967295, 80));
    assert_eq!(e.process_name, "a");
    assert!(parse_lsof_line("a 4294967296 c d e f g h *:80 (LISTEN)").is_none());
    assert!(parse_lsof_line("a 1 c d e f g h *:x (LISTEN)").is_none());
    assert!(parse_lsof_line("a 1 c d e f g h nocolon (LISTEN)").is_none());
}

#[test]
fn listing_is_sorted_and_without_repeats() {
    let out = "COMMAND PID USER FD TYPE DEVICE SIZE/OFF NODE NAME\n\
node 30 u 1u IPv4 0x1 0t0 TCP *:8080 (LISTEN)\n\
garbage line\n\
nginx 20 u 1u IPv4 0x1 0t0 TCP *:80 (LISTEN)\n\
node 30 u 2u IPv6 0x1 0t0 TCP [::]:8080 (LISTEN)\n\
apache 10 u 1u IPv4 0x1 0t0 TCP 127.0.0.1:8080 (LISTEN)\n\
nginx 21 u 1u IPv4 0x1 0t0 TCP *:80 (LISTEN)\r\n\
bad notapid u 1u IPv4 0x1 0t0 TCP *:81 (LISTEN)\n\
last 5 u 1u IPv4 0x1 0t0 TCP *:65535 (LISTEN)";
    let list = parse_listing(out);
    let keys: Vec<(u16, u32)> = list.iter().map(|e| (e.port, e.pid)).collect();
    assert_eq!(keys, vec![(80, 20), (80, 21), (8080, 10), (8080, 30), (65535, 5)]);
    assert_eq!(list[3].address, "*");
    assert_eq!(list[3].process_name, "node");
    assert_eq!(list[1].process_name, "nginx");
    assert!(list.iter().all(|e| e.command.is_empty()));
    assert!(parse_listing("").is_empty());
    assert!(parse_listing("node 30 u 1u IPv4 0x1 0t0 TCP *:8080 (LISTEN)").is_empty());
    assert!(parse_listing("header\n").is_empty());
}

#[test]
fn commands_are_attached_by_pid() {
    let mut list = vec![entry(12, "a", 1), entry(123, "b", 2), entry(7, "c", 3), entry(99, "d", 4)];
    list[3].command = "kept".to_string();
    assert_eq!(pid_list(&list), "12,123,7,99");
    assert_eq!(pid_list(&Vec::new()), "");
    assert_eq!(pid_list(&vec![entry(5, "x", 1)]), "5");
    let ps = "  123 /usr/bin/b --flag  x\n12\t/bin/a\r\n 7\n7x /no\n    7    /bin/c  \n12 /second\n";
    attach_commands(&mut list, ps);
    assert_eq!(list[0].command, "/bin/a");
    assert_eq!(list[1].command, "/usr/bin/b --flag  x");
    assert_eq!(list[2].command, "/bin/c  ");
    assert_eq!(list[3].command, "kept");
    assert_eq!(list[0].process_name, "a");
    assert_eq!((list[1].pid, list[1].port), (123, 2));
    assert_eq!(list[2].address, "127.0.0.1");
    let mut one = vec![entry(7, "c", 3)];
    attach_commands(&mut one, "7 ");
    assert_eq!(one[0].command, "");
}

#[test]
fn kill_signal_option() {
    assert_eq!(kill_signal(false), "-TERM");
    assert_eq!(kill_signal(true), "-KILL");
}
