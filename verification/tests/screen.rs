use portit::app::{App, Event, Key, KeyKind, Mode};
use portit::ports::PortEntry;
use portit::ui::{
    action_label, format_row, pad_line, popup_layout, render, render_action_popup,
    render_col_headers, render_confirm_popup, render_footer, render_header, render_row_line,
    render_rows, render_status_line, truncate, Attr, Color, Draw, FILTER_HELP, MAIN_HELP,
};

fn app_with(n: usize, rows: usize) -> App {
    let entries: Vec<PortEntry> = (0..n)
        .map(|i| PortEntry {
            pid: 1000 + i as u32,
            process_name: format!("proc{}", i),
            port: 3000 + i as u16,
            address: "127.0.0.1".to_string(),
            command: format!("/bin/proc{} --serve", i),
        })
        .collect();
    let mut app = App::new(entries);
    app.recalc_layout(rows);
    app
}

fn print(text: &str) -> Draw {
    Draw::Print(text.to_string())
}

fn padded(text: &str, width: usize) -> String {
    let mut s: String = text.chars().take(width).collect();
    while s.chars().count() < width {
        s.push(' ');
    }
    s
}

#[test]
fn widths_count_characters() {
    assert_eq!(truncate("h\u{e9}llo", 2), "h\u{e9}");
    assert_eq!(truncate("abc", 0), "");
    assert_eq!(pad_line("h\u{e9}", 4), "h\u{e9}  ");
    assert_eq!(pad_line("h\u{e9}llo", 3), "h\u{e9}l");
    assert_eq!(pad_line("", 0), "");
    assert_eq!(pad_line("abc", 0), "");
}

#[test]
fn format_row_exact() {
    let row = format_row("1234", "node", "TCP", "127.0.0.1", "3000", "/usr/bin/node app.js", 24);
    assert_eq!(
        row,
        " 1234    node          TCP   127.0.0.1         3000  /usr/bin/node app.js    "
    );
    let cut = format_row("123456789", "a-very-long-process-name", "TCPv6+", "1234567890123456789", "1234567", "/a/very/long/command/path", 8);
    assert_eq!(cut, " 12345678a-very-long-prTCPv6+123456789012345678123456/a/very/");
    assert_eq!(cut.chars().count(), 53 + 8);
}

#[test]
fn popup_layout_values() {
    let layout = popup_layout(81, 0, 20);
    assert_eq!((layout.x, layout.y), (29, 1));
    assert_eq!(layout.h_bar, "\u{2500}".repeat(20));
    let layout = popup_layout(22, 7, 20);
    assert_eq!((layout.x, layout.y), (0, 8));
    let layout = popup_layout(21, 70000, 20);
    assert_eq!((layout.x, layout.y), (0, u16::MAX));
    let layout = popup_layout(usize::MAX, 65534, 0);
    assert_eq!((layout.x, layout.y), (u16::MAX, u16::MAX));
    assert_eq!(layout.h_bar, "");
    let layout = popup_layout(10, usize::MAX, 3);
    assert_eq!((layout.x, layout.y, layout.h_bar.chars().count()), (2, u16::MAX, 3));
}

#[test]
fn narrow_terminal_is_not_drawn() {
    let app = app_with(3, 30);
    assert!(render(&app, 39).is_empty());
    assert!(render(&app, 0).is_empty());
    assert!(!render(&app, 40).is_empty());
}

#[test]
fn header_shows_count_filter_or_status() {
    let mut app = app_with(3, 30);
    let mut ops = Vec::new();
    render_header(&mut ops, 40, &app);
    assert_eq!(
        ops,
        vec![
            Draw::ClearLine,
            Draw::SetForeground(Color::White),
            Draw::SetBackground(Color::Blue),
            print(&padded(" portit \u{2014} 3 ports", 40)),
            Draw::ResetColor,
            Draw::MoveToNextLine,
        ]
    );
    app.filter = "pro".to_string();
    let mut ops = Vec::new();
    render_header(&mut ops, 40, &app);
    assert_eq!(ops[3], print(&padded(" portit \u{2014} filter: [pro]", 40)));
    app.mode = Mode::FilterEditing;
    let mut ops = Vec::new();
    render_header(&mut ops, 40, &app);
    assert_eq!(ops[3], print(&padded(" portit \u{2014} filter: pro\u{258c}", 40)));
    app.status_msg = Some("Killed x (PID 1)".to_string());
    let mut ops = vec![Draw::ResetColor];
    render_header(&mut ops, 12, &app);
    assert_eq!(ops.len(), 7);
    assert_eq!(ops[0], Draw::ResetColor);
    assert_eq!(ops[4], print(" portit \u{2014} Ki"));
}

#[test]
fn column_header_line() {
    let mut ops = Vec::new();
    render_col_headers(&mut ops, 70, 17);
    assert_eq!(
        ops,
        vec![
            Draw::ClearLine,
            Draw::SetForeground(Color::Yellow),
            Draw::SetAttr(Attr::Bold),
            print(" PID     Process       Proto Address           Port  Command          "),
            Draw::SetAttr(Attr::Reset),
            Draw::ResetColor,
            Draw::MoveToNextLine,
        ]
    );
}

#[test]
fn row_lines() {
    let mut ops = Vec::new();
    render_row_line(&mut ops, 6, "abc", false);
    assert_eq!(ops, vec![Draw::ClearLine, print("abc   "), Draw::MoveToNextLine]);
    let mut ops = Vec::new();
    render_row_line(&mut ops, 2, "abc", true);
    assert_eq!(
        ops,
        vec![
            Draw::ClearLine,
            Draw::SetAttr(Attr::Reverse),
            print("ab"),
            Draw::SetAttr(Attr::Reset),
            Draw::ResetColor,
            Draw::MoveToNextLine,
        ]
    );
}

#[test]
fn table_shows_the_scroll_window() {
    let mut app = app_with(6, 8);
    assert_eq!(app.visible_rows, 4);
    for _ in 0..4 {
        app.next_row();
    }
    assert_eq!((app.selected, app.scroll_offset), (4, 1));
    let mut ops = Vec::new();
    render_rows(&mut ops, 80, 27, &app);
    let mut expected = Vec::new();
    for i in 1..5 {
        let line = format_row(
            &format!("{}", 1000 + i),
            &format!("proc{}", i),
            "TCP",
            "127.0.0.1",
            &format!("{}", 3000 + i),
            &format!("/bin/proc{} --serve", i),
            27,
        );
        render_row_line(&mut expected, 80, &line, i == 4);
    }
    assert_eq!(ops, expected);
    assert_eq!(ops.len(), 3 + 3 + 3 + 6);
}

#[test]
fn table_blanks_left_over_rows() {
    let mut app = app_with(2, 30);
    app.visible_rows = 4;
    let mut ops = Vec::new();
    render_rows(&mut ops, 60, 8, &app);
    assert_eq!(ops.len(), 6 + 3 + 2 + 2);
    assert_eq!(&ops[9..], &[Draw::ClearLine, Draw::MoveToNextLine, Draw::ClearLine, Draw::MoveToNextLine]);
    app.scroll_offset = 5;
    let mut ops = Vec::new();
    render_rows(&mut ops, 60, 8, &app);
    assert_eq!(ops.len(), 8);
    app.scroll_offset = 0;
    app.filtered_entries = vec![9, 1];
    let mut ops = Vec::new();
    render_rows(&mut ops, 60, 8, &app);
    assert_eq!(&ops[..2], &[Draw::ClearLine, Draw::MoveToNextLine]);
    assert_eq!(ops.len(), 2 + 3 + 4);
    let empty = app_with(0, 30);
    let mut ops = Vec::new();
    render_rows(&mut ops, 60, 8, &empty);
    assert_eq!(ops, vec![Draw::ClearLine, Draw::MoveToNextLine]);
}

#[test]
fn footer_follows_mode() {
    let mut app = app_with(1, 30);
    let mut ops = Vec::new();
    render_footer(&mut ops, 90, &app);
    assert_eq!(
        ops,
        vec![
            Draw::ClearLine,
            Draw::SetForeground(Color::DarkGrey),
            Draw::SetBackground(Color::Black),
            print(&padded(MAIN_HELP, 90)),
            Draw::ResetColor,
        ]
    );
    app.mode = Mode::FilterEditing;
    let mut ops = Vec::new();
    render_footer(&mut ops, 90, &app);
    assert_eq!(ops[3], print(&padded(FILTER_HELP, 90)));
    let mut ops = Vec::new();
    render_status_line(&mut ops, 3, "abcdef");
    assert_eq!(ops[2], print("abc"));
    assert_eq!(ops.len(), 4);
}

#[test]
fn confirm_popup() {
    let mut ops = Vec::new();
    render_confirm_popup(&mut ops, 80, 5, true, 42, "node");
    let question = " Kill node (PID 42) with SIGKILL? [y/n] ";
    let width = question.chars().count();
    let x = ((80 - (width + 2)) / 2) as u16;
    let bar = "\u{2500}".repeat(width);
    assert_eq!(
        ops,
        vec![
            Draw::MoveTo { x, y: 6 },
            Draw::SetForeground(Color::White),
            Draw::SetBackground(Color::Red),
            print(&format!("\u{250c}{}\u{2510}", bar)),
            Draw::MoveTo { x, y: 7 },
            print(&format!("\u{2502}{}\u{2502}", question)),
            Draw::MoveTo { x, y: 8 },
            print(&format!("\u{2514}{}\u{2518}", bar)),
            Draw::ResetColor,
            Draw::SetAttr(Attr::Reset),
        ]
    );
    let mut ops = Vec::new();
    render_confirm_popup(&mut ops, 20, 65534, false, 7, "x");
    assert_eq!(ops[0], Draw::MoveTo { x: 0, y: 65535 });
    assert_eq!(ops[4], Draw::MoveTo { x: 0, y: 65535 });
    assert_eq!(ops[5], print("\u{2502} Kill x (PID 7) with SIGTERM? [y/n] \u{2502}"));
}

#[test]
fn action_popup() {
    assert_eq!(action_label(0), "Kill (SIGTERM)");
    assert_eq!(action_label(1), "Force Kill (SIGKILL)");
    let mut ops = Vec::new();
    render_action_popup(&mut ops, 80, 3, 1);
    let bar = "\u{2500}".repeat(24);
    assert_eq!(
        ops,
        vec![
            Draw::MoveTo { x: 27, y: 4 },
            Draw::SetForeground(Color::Cyan),
            Draw::SetBackground(Color::Black),
            print(&format!("\u{250c}{}\u{2510}", bar)),
            Draw::MoveTo { x: 27, y: 5 },
            print("\u{2502}   Kill (SIGTERM)       \u{2502}"),
            Draw::MoveTo { x: 27, y: 6 },
            print("\u{2502}"),
            Draw::SetForeground(Color::Black),
            Draw::SetBackground(Color::Cyan),
            print(" \u{25b8} Force Kill (SIGKILL)"),
            Draw::SetForeground(Color::Cyan),
            Draw::SetBackground(Color::Black),
            print(" \u{2502}"),
            Draw::MoveTo { x: 27, y: 7 },
            print(&format!("\u{2514}{}\u{2518}", bar)),
            Draw::ResetColor,
            Draw::SetAttr(Attr::Reset),
        ]
    );
}

#[test]
fn full_redraw() {
    let mut app = app_with(3, 30);
    app.anchor(9);
    assert_eq!(app.start_row, 4);
    app.next_row();
    let ops = render(&app, 60);
    let mut expected = vec![Draw::MoveTo { x: 0, y: 4 }];
    render_header(&mut expected, 60, &app);
    render_col_headers(&mut expected, 60, 8);
    render_rows(&mut expected, 60, 8, &app);
    render_footer(&mut expected, 60, &app);
    assert_eq!(ops, expected);

    app.handle_event(Event::Key { key: Key::Enter, kind: KeyKind::Press });
    let ops = render(&app, 100);
    let mut expected = vec![Draw::MoveTo { x: 0, y: 4 }];
    render_header(&mut expected, 100, &app);
    render_col_headers(&mut expected, 100, 47);
    render_rows(&mut expected, 100, 47, &app);
    render_footer(&mut expected, 100, &app);
    render_action_popup(&mut expected, 100, 4 + 2 + 1, 0);
    assert_eq!(ops, expected);

    app.handle_event(Event::Key { key: Key::Enter, kind: KeyKind::Press });
    let ops = render(&app, 100);
    let mut expected = vec![Draw::MoveTo { x: 0, y: 4 }];
    render_header(&mut expected, 100, &app);
    render_col_headers(&mut expected, 100, 47);
    render_rows(&mut expected, 100, 47, &app);
    render_footer(&mut expected, 100, &app);
    render_confirm_popup(&mut expected, 100, 7, false, 1001, "proc1");
    assert_eq!(ops, expected);
}

#[test]
fn popup_row_when_selection_is_above_window() {
    let mut app = app_with(5, 30);
    app.request_kill(false);
    app.start_row = 3;
    app.selected = 1;
    app.scroll_offset = 4;
    let ops = render(&app, 50);
    let at = ops.len() - 10;
    assert!(matches!(ops[at], Draw::MoveTo { y: 3, .. }));
    app.scroll_offset = 9;
    let ops = render(&app, 50);
    let at = ops.len() - 10;
    assert!(matches!(ops[at], Draw::MoveTo { y: 1, .. }));
}
