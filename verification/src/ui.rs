//! Turning a session into draw instructions.
//!
//! Nothing here writes to a terminal. `render` gives the instructions for
//! one full redraw; the caller carries them out in order. Widths and
//! positions count characters.

use crate::app::{App, Mode, ModeView, SessionView, ACTION_COUNT, ACTION_TERMINATE};
use crate::ports::{EntryView, PortEntry};
use crate::text::{
    chars_of, decimal, decimal_chars, decimal_string, fit, push_char, push_chars, push_fitted,
};
use vstd::prelude::*;

verus! {

/// Width of the process-identifier column.
pub const PID_W: usize = 8;

/// Width of the process-name column.
pub const PROC_W: usize = 14;

/// Width of the protocol column.
pub const PROTO_W: usize = 6;

/// Width of the address column.
pub const ADDR_W: usize = 18;

/// Width of the port column.
pub const PORT_W: usize = 6;

/// Width of a row before its command column: one blank and the five fixed
/// columns.
pub const FIXED_W: usize = 1 + PID_W + PROC_W + PROTO_W + ADDR_W + PORT_W;

/// Narrowest terminal that is drawn to.
pub const MIN_COLS: usize = 40;

/// Narrowest command column.
pub const MIN_CMD_W: usize = 8;

/// Start of every title.
pub const TITLE: &'static str = " portit \u{2014} ";

/// Footer while the filter is edited.
pub const FILTER_HELP: &'static str =
    " Type to filter \u{00b7} Enter to apply \u{00b7} Esc to cancel";

/// Footer in every other mode.
pub const MAIN_HELP: &'static str =
    " q quit \u{00b7} j/k nav \u{00b7} Enter select \u{00b7} / filter \u{00b7} K kill \u{00b7} F force \u{00b7} r refresh";

/// Label of the graceful-terminate action.
pub const TERMINATE_LABEL: &'static str = "Kill (SIGTERM)";

/// Label of the force-terminate action.
pub const FORCE_LABEL: &'static str = "Force Kill (SIGKILL)";

/// A colour of text or background.
#[derive(Debug, Clone, Copy, PartialEq, Eq)]
pub enum Color {
    White,
    Blue,
    Yellow,
    DarkGrey,
    Black,
    Red,
    Cyan,
}

/// A text attribute; `Reset` switches all attributes off.
#[derive(Debug, Clone, Copy, PartialEq, Eq)]
pub enum Attr {
    Bold,
    Reverse,
    Reset,
}

/// One draw instruction.
#[derive(Debug, PartialEq, Eq)]
pub enum Draw {
    /// Put the cursor at column `x` of row `y`.
    MoveTo { x: u16, y: u16 },
    /// Put the cursor at the start of the next row.
    MoveToNextLine,
    /// Blank the row the cursor is on.
    ClearLine,
    /// Write text in this colour from now on.
    SetForeground(Color),
    /// Write on this background from now on.
    SetBackground(Color),
    /// Back to the terminal's own colours.
    ResetColor,
    /// Switch a text attribute on, or all of them off.
    SetAttr(Attr),
    /// Write the text at the cursor.
    Print(String),
}

/// A `Draw` with its text as a character sequence.
pub enum DrawView {
    MoveTo { x: u16, y: u16 },
    MoveToNextLine,
    ClearLine,
    SetForeground(Color),
    SetBackground(Color),
    ResetColor,
    SetAttr(Attr),
    Print(Seq<char>),
}

impl View for Draw {
    type V = DrawView;

    open spec fn view(&self) -> DrawView {
        match *self {
            Draw::MoveTo { x, y } => DrawView::MoveTo { x, y },
            Draw::MoveToNextLine => DrawView::MoveToNextLine,
            Draw::ClearLine => DrawView::ClearLine,
            Draw::SetForeground(c) => DrawView::SetForeground(c),
            Draw::SetBackground(c) => DrawView::SetBackground(c),
            Draw::ResetColor => DrawView::ResetColor,
            Draw::SetAttr(a) => DrawView::SetAttr(a),
            Draw::Print(text) => DrawView::Print(text@),
        }
    }
}

/// The views of the instructions of `v`, in order.
pub open spec fn draw_views(v: Seq<Draw>) -> Seq<DrawView> {
    Seq::new(v.len(), |i: int| v[i]@)
}

fn emit(out: &mut Vec<Draw>, op: Draw)
    ensures
        draw_views(final(out)@) == draw_views(old(out)@).push(op@),
{
    out.push(op);
    assert(draw_views(out@) =~= draw_views(old(out)@).push(op@));
}

/// The first `max` characters of `s`; all of `s` if it has no more.
pub fn truncate(s: &str, max: usize) -> (r: &str)
    ensures
        r@ == s@.take(
            if s@.len() <= max {
                s@.len() as int
            } else {
                max as int
            },
        ),
{
    let len: usize = s.unicode_len();
    if len <= max {
        assert(s@.take(s@.len() as int) == s@);
        s
    } else {
        s.substring_char(0, max)
    }
}

/// `s` cut or padded with blanks to exactly `width` characters.
pub fn pad_line(s: &str, width: usize) -> (r: String)
    ensures
        r@ == fit(s@, width as nat),
{
    let chars = chars_of(s);
    let mut r = String::new();
    push_fitted(&mut r, &chars, width);
    r
}

/// `s` followed by as many blanks as it lacks to `width` characters; `s`
/// itself if it is that long or longer.
pub open spec fn padded(s: Seq<char>, width: nat) -> Seq<char> {
    if s.len() >= width {
        s
    } else {
        fit(s, width)
    }
}

fn push_padded(out: &mut String, s: &str, width: usize)
    ensures
        final(out)@ == old(out)@ + padded(s@, width as nat),
{
    let chars = chars_of(s);
    if chars.len() >= width {
        push_chars(out, &chars, 0, chars.len());
        assert(chars@.subrange(0, chars@.len() as int) == chars@);
    } else {
        push_fitted(out, &chars, width);
    }
}

/// A table row: a blank, then each of the five fixed columns cut or padded
/// to its width, then the command cut or padded to `cmd_w`.
pub open spec fn row_text(
    pid: Seq<char>,
    process: Seq<char>,
    proto: Seq<char>,
    addr: Seq<char>,
    port: Seq<char>,
    cmd: Seq<char>,
    cmd_w: nat,
) -> Seq<char> {
    seq![' '] + fit(pid, PID_W as nat) + fit(process, PROC_W as nat) + fit(proto, PROTO_W as nat)
        + fit(addr, ADDR_W as nat) + fit(port, PORT_W as nat) + fit(cmd, cmd_w)
}

/// A table row is exactly as wide as its columns, whatever the texts.
pub proof fn lemma_row_width(
    pid: Seq<char>,
    process: Seq<char>,
    proto: Seq<char>,
    addr: Seq<char>,
    port: Seq<char>,
    cmd: Seq<char>,
    cmd_w: nat,
)
    ensures
        row_text(pid, process, proto, addr, port, cmd, cmd_w).len() == FIXED_W + cmd_w,
{
}

/// Lays the six texts out as one table row.
pub fn format_row(
    pid: &str,
    process: &str,
    proto: &str,
    addr: &str,
    port: &str,
    cmd: &str,
    cmd_w: usize,
) -> (r: String)
    ensures
        r@ == row_text(pid@, process@, proto@, addr@, port@, cmd@, cmd_w as nat),
{
    let mut r = String::new();
    push_char(&mut r, ' ');
    assert(r@ == seq![' ']);
    push_fitted(&mut r, &chars_of(pid), PID_W);
    push_fitted(&mut r, &chars_of(process), PROC_W);
    push_fitted(&mut r, &chars_of(proto), PROTO_W);
    push_fitted(&mut r, &chars_of(addr), ADDR_W);
    push_fitted(&mut r, &chars_of(port), PORT_W);
    push_fitted(&mut r, &chars_of(cmd), cmd_w);
    r
}

/// The row that names the columns.
pub open spec fn heading_text(cmd_w: nat) -> Seq<char> {
    row_text("PID"@, "Process"@, "Proto"@, "Address"@, "Port"@, "Command"@, cmd_w)
}

/// The row of one entry.
pub open spec fn entry_text(entry: EntryView, cmd_w: nat) -> Seq<char> {
    row_text(
        decimal(entry.pid as nat),
        entry.process_name,
        "TCP"@,
        entry.address,
        decimal(entry.port as nat),
        entry.command,
        cmd_w,
    )
}

fn entry_row(entry: &PortEntry, cmd_w: usize) -> (r: String)
    ensures
        r@ == entry_text(entry@, cmd_w as nat),
{
    let pid = decimal_string(entry.pid as usize);
    let port = decimal_string(entry.port as usize);
    format_row(
        pid.as_str(),
        entry.process_name.as_str(),
        "TCP",
        entry.address.as_str(),
        port.as_str(),
        entry.command.as_str(),
        cmd_w,
    )
}

/// The title: the status message if there is one; else the filter text
/// with a cursor while it is edited; else the filter text in brackets if it
/// is not empty; else the number of entries in view.
pub open spec fn title_text(s: SessionView) -> Seq<char> {
    match s.status {
        Some(message) => TITLE@ + message,
        None => if s.mode == ModeView::FilterEditing {
            TITLE@ + "filter: "@ + s.filter + "\u{258c}"@
        } else if s.filter.len() > 0 {
            TITLE@ + "filter: ["@ + s.filter + "]"@
        } else {
            TITLE@ + decimal(s.filtered.len()) + " ports"@
        },
    }
}

fn title(app: &App) -> (r: String)
    ensures
        r@ == title_text(app@),
{
    let mut r = String::from_str(TITLE);
    match &app.status_msg {
        Some(message) => {
            r.append(message.as_str());
        },
        None => {
            let editing = match &app.mode {
                Mode::FilterEditing => true,
                _ => false,
            };
            if editing {
                r.append("filter: ");
                r.append(app.filter.as_str());
                r.append("\u{258c}");
            } else if !app.filter.as_str().is_empty() {
                r.append("filter: [");
                r.append(app.filter.as_str());
                r.append("]");
            } else {
                let count = decimal_chars(app.filtered_entries.len());
                push_chars(&mut r, &count, 0, count.len());
                assert(count@.subrange(0, count@.len() as int) == count@);
                r.append(" ports");
            }
        },
    }
    r
}

/// The title line, white on blue.
pub open spec fn header_ops(s: SessionView, cols: nat) -> Seq<DrawView> {
    seq![
        DrawView::ClearLine,
        DrawView::SetForeground(Color::White),
        DrawView::SetBackground(Color::Blue),
        DrawView::Print(fit(title_text(s), cols)),
        DrawView::ResetColor,
        DrawView::MoveToNextLine,
    ]
}

/// Appends the title line.
pub fn render_header(out: &mut Vec<Draw>, cols: usize, app: &App)
    ensures
        draw_views(final(out)@) == draw_views(old(out)@) + header_ops(app@, cols as nat),
{
    let text = title(app);
    emit(out, Draw::ClearLine);
    emit(out, Draw::SetForeground(Color::White));
    emit(out, Draw::SetBackground(Color::Blue));
    emit(out, Draw::Print(pad_line(text.as_str(), cols)));
    emit(out, Draw::ResetColor);
    emit(out, Draw::MoveToNextLine);
    assert(draw_views(out@) =~= draw_views(old(out)@) + header_ops(app@, cols as nat));
}

/// The line that names the columns, bold yellow.
pub open spec fn col_header_ops(cols: nat, cmd_w: nat) -> Seq<DrawView> {
    seq![
        DrawView::ClearLine,
        DrawView::SetForeground(Color::Yellow),
        DrawView::SetAttr(Attr::Bold),
        DrawView::Print(fit(heading_text(cmd_w), cols)),
        DrawView::SetAttr(Attr::Reset),
        DrawView::ResetColor,
        DrawView::MoveToNextLine,
    ]
}

/// Appends the line that names the columns.
pub fn render_col_headers(out: &mut Vec<Draw>, cols: usize, cmd_w: usize)
    ensures
        draw_views(final(out)@) == draw_views(old(out)@) + col_header_ops(
            cols as nat,
            cmd_w as nat,
        ),
{
    let line = format_row("PID", "Process", "Proto", "Address", "Port", "Command", cmd_w);
    emit(out, Draw::ClearLine);
    emit(out, Draw::SetForeground(Color::Yellow));
    emit(out, Draw::SetAttr(Attr::Bold));
    emit(out, Draw::Print(pad_line(line.as_str(), cols)));
    emit(out, Draw::SetAttr(Attr::Reset));
    emit(out, Draw::ResetColor);
    emit(out, Draw::MoveToNextLine);
    assert(draw_views(out@) =~= draw_views(old(out)@) + col_header_ops(cols as nat, cmd_w as nat));
}

/// One table line: `line` cut or padded to the terminal width, in reverse
/// video if it is the selected one.
pub open spec fn row_line_ops(cols: nat, line: Seq<char>, selected: bool) -> Seq<DrawView> {
    if selected {
        seq![
            DrawView::ClearLine,
            DrawView::SetAttr(Attr::Reverse),
            DrawView::Print(fit(line, cols)),
            DrawView::SetAttr(Attr::Reset),
            DrawView::ResetColor,
            DrawView::MoveToNextLine,
        ]
    } else {
        seq![DrawView::ClearLine, DrawView::Print(fit(line, cols)), DrawView::MoveToNextLine]
    }
}

/// Appends one table line.
pub fn render_row_line(out: &mut Vec<Draw>, cols: usize, line: &str, selected: bool)
    ensures
        draw_views(final(out)@) == draw_views(old(out)@) + row_line_ops(
            cols as nat,
            line@,
            selected,
        ),
{
    emit(out, Draw::ClearLine);
    if selected {
        emit(out, Draw::SetAttr(Attr::Reverse));
        emit(out, Draw::Print(pad_line(line, cols)));
        emit(out, Draw::SetAttr(Attr::Reset));
        emit(out, Draw::ResetColor);
    } else {
        emit(out, Draw::Print(pad_line(line, cols)));
    }
    emit(out, Draw::MoveToNextLine);
    assert(draw_views(out@) =~= draw_views(old(out)@) + row_line_ops(cols as nat, line@, selected));
}

/// A row slot without an entry.
pub open spec fn blank_row_ops() -> Seq<DrawView> {
    seq![DrawView::ClearLine, DrawView::MoveToNextLine]
}

/// `n` row slots without an entry.
pub open spec fn blank_rows_ops(n: nat) -> Seq<DrawView>
    decreases n,
{
    if n == 0 {
        Seq::empty()
    } else {
        blank_rows_ops((n - 1) as nat) + blank_row_ops()
    }
}

/// Position in the filtered view just past the last row on screen.
pub open spec fn window_end(s: SessionView) -> nat {
    if s.scroll_offset + s.visible_rows <= s.filtered.len() {
        s.scroll_offset + s.visible_rows
    } else {
        s.filtered.len()
    }
}

/// The line of row `i` of the filtered view. A row whose index points at no
/// entry is left blank.
pub open spec fn entry_row_ops(s: SessionView, cols: nat, cmd_w: nat, i: int) -> Seq<DrawView> {
    if s.filtered[i] < s.entries.len() {
        row_line_ops(cols, entry_text(s.entries[s.filtered[i] as int], cmd_w), i == s.selected)
    } else {
        blank_row_ops()
    }
}

/// The lines of the rows from the top of the scroll window up to, not
/// including, row `upto`.
pub open spec fn entry_rows_ops(s: SessionView, cols: nat, cmd_w: nat, upto: nat) -> Seq<DrawView>
    decreases upto,
{
    if upto <= s.scroll_offset {
        Seq::empty()
    } else {
        entry_rows_ops(s, cols, cmd_w, (upto - 1) as nat) + entry_row_ops(s, cols, cmd_w, upto - 1)
    }
}

/// Number of rows of the scroll window that hold an entry.
pub open spec fn rows_shown(s: SessionView) -> nat {
    if window_end(s) >= s.scroll_offset {
        (window_end(s) - s.scroll_offset) as nat
    } else {
        0
    }
}

/// The table: the rows of the scroll window, then a blank line for each
/// visible row that is left over.
pub open spec fn rows_ops(s: SessionView, cols: nat, cmd_w: nat) -> Seq<DrawView> {
    entry_rows_ops(s, cols, cmd_w, window_end(s)) + blank_rows_ops(
        (s.visible_rows - rows_shown(s)) as nat,
    )
}

/// Appends the table.
pub fn render_rows(out: &mut Vec<Draw>, cols: usize, cmd_w: usize, app: &App)
    ensures
        draw_views(final(out)@) == draw_views(old(out)@) + rows_ops(
            app@,
            cols as nat,
            cmd_w as nat,
        ),
{
    let visible: usize = app.visible_rows;
    let len: usize = app.filtered_entries.len();
    let end: usize = if app.scroll_offset <= len && visible <= len - app.scroll_offset {
        app.scroll_offset + visible
    } else {
        len
    };
    assert(end == window_end(app@));
    let mut i: usize = app.scroll_offset;
    assert(draw_views(out@) =~= draw_views(old(out)@) + entry_rows_ops(
        app@,
        cols as nat,
        cmd_w as nat,
        i as nat,
    ));
    while i < end
        invariant
            end <= app.filtered_entries.len(),
            end == window_end(app@),
            app.scroll_offset <= i,
            i <= end || i == app.scroll_offset,
            draw_views(out@) == draw_views(old(out)@) + entry_rows_ops(
                app@,
                cols as nat,
                cmd_w as nat,
                i as nat,
            ),
        decreases end - i,
    {
        let ghost before = draw_views(out@);
        let index: usize = app.filtered_entries[i];
        if index < app.entries.len() {
            let line = entry_row(&app.entries[index], cmd_w);
            render_row_line(out, cols, line.as_str(), i == app.selected);
        } else {
            emit(out, Draw::ClearLine);
            emit(out, Draw::MoveToNextLine);
        }
        assert(draw_views(out@) =~= before + entry_row_ops(
            app@,
            cols as nat,
            cmd_w as nat,
            i as int,
        ));
        i = i + 1;
        assert(draw_views(out@) =~= draw_views(old(out)@) + entry_rows_ops(
            app@,
            cols as nat,
            cmd_w as nat,
            i as nat,
        ));
    }
    let shown: usize = if end >= app.scroll_offset {
        end - app.scroll_offset
    } else {
        0
    };
    assert(entry_rows_ops(app@, cols as nat, cmd_w as nat, i as nat) == entry_rows_ops(
        app@,
        cols as nat,
        cmd_w as nat,
        end as nat,
    ));
    assert(shown == rows_shown(app@));
    let ghost table = draw_views(out@);
    let mut blank: usize = shown;
    assert(table =~= table + blank_rows_ops(0));
    while blank < visible
        invariant
            shown <= blank,
            shown <= visible || blank == shown,
            blank <= visible || blank == shown,
            draw_views(out@) == table + blank_rows_ops((blank - shown) as nat),
        decreases visible - blank,
    {
        emit(out, Draw::ClearLine);
        emit(out, Draw::MoveToNextLine);
        blank = blank + 1;
        assert(draw_views(out@) =~= table + blank_rows_ops((blank - shown) as nat));
    }
    assert(shown <= visible);
    assert(blank - shown == app@.visible_rows - rows_shown(app@));
    assert(draw_views(out@) =~= draw_views(old(out)@) + rows_ops(app@, cols as nat, cmd_w as nat));
}

/// A line of help, dark grey on black.
pub open spec fn status_line_ops(cols: nat, text: Seq<char>) -> Seq<DrawView> {
    seq![
        DrawView::SetForeground(Color::DarkGrey),
        DrawView::SetBackground(Color::Black),
        DrawView::Print(fit(text, cols)),
        DrawView::ResetColor,
    ]
}

/// Appends a line of help.
pub fn render_status_line(out: &mut Vec<Draw>, cols: usize, text: &str)
    ensures
        draw_views(final(out)@) == draw_views(old(out)@) + status_line_ops(cols as nat, text@),
{
    emit(out, Draw::SetForeground(Color::DarkGrey));
    emit(out, Draw::SetBackground(Color::Black));
    emit(out, Draw::Print(pad_line(text, cols)));
    emit(out, Draw::ResetColor);
    assert(draw_views(out@) =~= draw_views(old(out)@) + status_line_ops(cols as nat, text@));
}

/// The footer: the keys of filter editing while the filter is edited, the
/// keys of normal mode otherwise.
pub open spec fn footer_ops(s: SessionView, cols: nat) -> Seq<DrawView> {
    seq![DrawView::ClearLine] + status_line_ops(
        cols,
        if s.mode == ModeView::FilterEditing {
            FILTER_HELP@
        } else {
            MAIN_HELP@
        },
    )
}

/// Appends the footer.
pub fn render_footer(out: &mut Vec<Draw>, cols: usize, app: &App)
    ensures
        draw_views(final(out)@) == draw_views(old(out)@) + footer_ops(app@, cols as nat),
{
    emit(out, Draw::ClearLine);
    let text = match &app.mode {
        Mode::FilterEditing => FILTER_HELP,
        _ => MAIN_HELP,
    };
    render_status_line(out, cols, text);
    assert(draw_views(out@) =~= draw_views(old(out)@) + footer_ops(app@, cols as nat));
}

/// Where a popup goes, and the horizontal bar of its border.
#[derive(Debug)]
pub struct PopupLayout {
    /// Column of the popup's left border.
    pub x: u16,
    /// Row of the popup's top border.
    pub y: u16,
    /// As many horizontal bars as the popup is wide inside.
    pub h_bar: String,
}

/// `n`, or the largest `u16` if `n` is larger.
pub open spec fn clamp_u16(n: int) -> u16 {
    if n <= 0 {
        0
    } else if n >= u16::MAX {
        u16::MAX
    } else {
        n as u16
    }
}

/// Column of the left border of a popup `inner_w` wide inside, centred in a
/// terminal `cols` wide; `0` where the popup is wider than the terminal.
pub open spec fn popup_x(cols: nat, inner_w: nat) -> u16 {
    if cols >= inner_w + 2 {
        clamp_u16((cols - (inner_w + 2)) / 2)
    } else {
        0
    }
}

/// The character `c`, `n` times.
pub open spec fn repeated(c: char, n: nat) -> Seq<char> {
    Seq::new(n, |i: int| c)
}

/// Places a popup `inner_w` wide inside: centred in the `cols` columns, its
/// top border on the row after `sel_y`. Positions stop at the largest
/// `u16`.
pub fn popup_layout(cols: usize, sel_y: usize, inner_w: usize) -> (r: PopupLayout)
    ensures
        r.x == popup_x(cols as nat, inner_w as nat),
        r.y == clamp_u16(sel_y + 1),
        r.h_bar@ == repeated('\u{2500}', inner_w as nat),
{
    let room: usize = if inner_w <= usize::MAX - 2 && cols >= inner_w + 2 {
        cols - (inner_w + 2)
    } else {
        0
    };
    let half: usize = room / 2;
    let x: u16 = if half >= 0xffff {
        0xffff
    } else {
        half as u16
    };
    let y: u16 = if sel_y >= 0xffff {
        0xffff
    } else {
        (sel_y + 1) as u16
    };
    let mut h_bar = String::new();
    let mut i: usize = 0;
    while i < inner_w
        invariant
            i <= inner_w,
            h_bar@ == repeated('\u{2500}', i as nat),
        decreases inner_w - i,
    {
        push_char(&mut h_bar, '\u{2500}');
        i = i + 1;
        assert(h_bar@ =~= repeated('\u{2500}', i as nat));
    }
    PopupLayout { x, y, h_bar }
}

/// The top border of a popup whose horizontal bar is `h_bar`.
pub open spec fn top_text(h_bar: Seq<char>) -> Seq<char> {
    seq!['\u{250c}'] + h_bar + seq!['\u{2510}']
}

/// The bottom border of a popup whose horizontal bar is `h_bar`.
pub open spec fn bottom_text(h_bar: Seq<char>) -> Seq<char> {
    seq!['\u{2514}'] + h_bar + seq!['\u{2518}']
}

/// `body` between two vertical bars.
pub open spec fn framed_text(body: Seq<char>) -> Seq<char> {
    seq!['\u{2502}'] + body + seq!['\u{2502}']
}

/// The top border of a popup.
pub fn popup_top(h_bar: &str) -> (r: String)
    ensures
        r@ == top_text(h_bar@),
{
    let mut r = String::new();
    push_char(&mut r, '\u{250c}');
    r.append(h_bar);
    push_char(&mut r, '\u{2510}');
    assert(r@ =~= top_text(h_bar@));
    r
}

/// The bottom border of a popup.
pub fn popup_bottom(h_bar: &str) -> (r: String)
    ensures
        r@ == bottom_text(h_bar@),
{
    let mut r = String::new();
    push_char(&mut r, '\u{2514}');
    r.append(h_bar);
    push_char(&mut r, '\u{2518}');
    assert(r@ =~= bottom_text(h_bar@));
    r
}

/// Name of the signal that a kill sends.
pub open spec fn signal_name(force: bool) -> Seq<char> {
    if force {
        "SIGKILL"@
    } else {
        "SIGTERM"@
    }
}

/// The question the kill confirmation asks.
pub open spec fn confirm_text(pid: u32, name: Seq<char>, force: bool) -> Seq<char> {
    " Kill "@ + name + " (PID "@ + decimal(pid as nat) + ") with "@ + signal_name(force)
        + "? [y/n] "@
}

fn confirm_message(pid: u32, name: &str, force: bool) -> (r: String)
    ensures
        r@ == confirm_text(pid, name@, force),
{
    let mut r = String::from_str(" Kill ");
    r.append(name);
    r.append(" (PID ");
    let digits = decimal_chars(pid as usize);
    push_chars(&mut r, &digits, 0, digits.len());
    assert(digits@.subrange(0, digits@.len() as int) == digits@);
    r.append(") with ");
    if force {
        r.append("SIGKILL");
    } else {
        r.append("SIGTERM");
    }
    r.append("? [y/n] ");
    r
}

/// The kill confirmation: a box, white on red, as wide as its question,
/// centred, its top border on the row after `sel_y`.
pub open spec fn confirm_popup_ops(
    cols: nat,
    sel_y: nat,
    force: bool,
    pid: u32,
    name: Seq<char>,
) -> Seq<DrawView> {
    let question = confirm_text(pid, name, force);
    let x = popup_x(cols, question.len());
    let y = clamp_u16(sel_y as int + 1);
    let h_bar = repeated('\u{2500}', question.len());
    seq![
        DrawView::MoveTo { x, y },
        DrawView::SetForeground(Color::White),
        DrawView::SetBackground(Color::Red),
        DrawView::Print(top_text(h_bar)),
        DrawView::MoveTo { x, y: clamp_u16(y + 1) },
        DrawView::Print(framed_text(question)),
        DrawView::MoveTo { x, y: clamp_u16(y + 2) },
        DrawView::Print(bottom_text(h_bar)),
        DrawView::ResetColor,
        DrawView::SetAttr(Attr::Reset),
    ]
}

fn row_below(y: u16, n: u16) -> (r: u16)
    ensures
        r == clamp_u16(y + n),
{
    if y > u16::MAX - n {
        u16::MAX
    } else {
        y + n
    }
}

/// Appends the kill confirmation.
pub fn render_confirm_popup(
    out: &mut Vec<Draw>,
    cols: usize,
    sel_y: usize,
    force: bool,
    pid: u32,
    name: &str,
)
    ensures
        draw_views(final(out)@) == draw_views(old(out)@) + confirm_popup_ops(
            cols as nat,
            sel_y as nat,
            force,
            pid,
            name@,
        ),
{
    let question = confirm_message(pid, name, force);
    let width: usize = question.as_str().unicode_len();
    let layout = popup_layout(cols, sel_y, width);
    let mut middle = String::new();
    push_char(&mut middle, '\u{2502}');
    middle.append(question.as_str());
    push_char(&mut middle, '\u{2502}');
    assert(middle@ =~= framed_text(question@));
    emit(out, Draw::MoveTo { x: layout.x, y: layout.y });
    emit(out, Draw::SetForeground(Color::White));
    emit(out, Draw::SetBackground(Color::Red));
    emit(out, Draw::Print(popup_top(layout.h_bar.as_str())));
    emit(out, Draw::MoveTo { x: layout.x, y: row_below(layout.y, 1) });
    emit(out, Draw::Print(middle));
    emit(out, Draw::MoveTo { x: layout.x, y: row_below(layout.y, 2) });
    emit(out, Draw::Print(popup_bottom(layout.h_bar.as_str())));
    emit(out, Draw::ResetColor);
    emit(out, Draw::SetAttr(Attr::Reset));
    assert(draw_views(out@) =~= draw_views(old(out)@) + confirm_popup_ops(
        cols as nat,
        sel_y as nat,
        force,
        pid,
        name@,
    ));
}

/// Label of action `i` of the action menu.
pub open spec fn action_text(i: int) -> Seq<char> {
    if i == ACTION_TERMINATE {
        TERMINATE_LABEL@
    } else {
        FORCE_LABEL@
    }
}

/// Label of action `i` of the action menu.
pub fn action_label(i: usize) -> (r: &'static str)
    ensures
        r@ == action_text(i as int),
{
    if i == ACTION_TERMINATE {
        TERMINATE_LABEL
    } else {
        FORCE_LABEL
    }
}

/// Inner width of the action menu: the longest label and four more.
pub open spec fn menu_inner_width() -> nat {
    if TERMINATE_LABEL@.len() >= FORCE_LABEL@.len() {
        TERMINATE_LABEL@.len() + 4
    } else {
        FORCE_LABEL@.len() + 4
    }
}

/// The text of action `i` in a menu `inner_w` wide inside: a blank, an
/// arrow if the action is highlighted, the label padded to the width.
pub open spec fn action_item_text(i: int, highlighted: bool, inner_w: nat) -> Seq<char> {
    seq![' '] + (if highlighted {
        seq!['\u{25b8}', ' ']
    } else {
        seq![' ', ' ']
    }) + padded(action_text(i), (inner_w - 4) as nat)
}

/// The line of action `i`: between the borders, black on cyan if it is the
/// highlighted one.
pub open spec fn action_line_ops(x: u16, y: u16, i: int, highlighted: bool, inner_w: nat) -> Seq<
    DrawView,
> {
    if highlighted {
        seq![
            DrawView::MoveTo { x, y: clamp_u16(y + 1 + i) },
            DrawView::Print(seq!['\u{2502}']),
            DrawView::SetForeground(Color::Black),
            DrawView::SetBackground(Color::Cyan),
            DrawView::Print(action_item_text(i, true, inner_w)),
            DrawView::SetForeground(Color::Cyan),
            DrawView::SetBackground(Color::Black),
            DrawView::Print(seq![' ', '\u{2502}']),
        ]
    } else {
        seq![
            DrawView::MoveTo { x, y: clamp_u16(y + 1 + i) },
            DrawView::Print(
                seq!['\u{2502}'] + action_item_text(i, false, inner_w) + seq![' ', '\u{2502}'],
            ),
        ]
    }
}

/// The lines of the actions before action `upto`.
pub open spec fn action_lines_ops(x: u16, y: u16, selected: nat, inner_w: nat, upto: nat) -> Seq<
    DrawView,
>
    decreases upto,
{
    if upto == 0 {
        Seq::empty()
    } else {
        action_lines_ops(x, y, selected, inner_w, (upto - 1) as nat) + action_line_ops(
            x,
            y,
            upto - 1,
            upto - 1 == selected,
            inner_w,
        )
    }
}

/// The action menu: a box, cyan on black, centred, its top border on the
/// row after `sel_y`, with one line for each action.
pub open spec fn action_popup_ops(cols: nat, sel_y: nat, selected: nat) -> Seq<DrawView> {
    let inner_w = menu_inner_width();
    let x = popup_x(cols, inner_w);
    let y = clamp_u16(sel_y as int + 1);
    let h_bar = repeated('\u{2500}', inner_w);
    seq![
        DrawView::MoveTo { x, y },
        DrawView::SetForeground(Color::Cyan),
        DrawView::SetBackground(Color::Black),
        DrawView::Print(top_text(h_bar)),
    ] + action_lines_ops(x, y, selected, inner_w, ACTION_COUNT as nat) + seq![
        DrawView::MoveTo { x, y: clamp_u16(y + 1 + ACTION_COUNT) },
        DrawView::Print(bottom_text(h_bar)),
        DrawView::ResetColor,
        DrawView::SetAttr(Attr::Reset),
    ]
}

fn action_item(i: usize, highlighted: bool, inner_w: usize) -> (r: String)
    requires
        inner_w >= 4,
    ensures
        r@ == action_item_text(i as int, highlighted, inner_w as nat),
{
    let mut r = String::new();
    push_char(&mut r, ' ');
    if highlighted {
        push_char(&mut r, '\u{25b8}');
    } else {
        push_char(&mut r, ' ');
    }
    push_char(&mut r, ' ');
    assert(r@ =~= seq![' '] + (if highlighted {
        seq!['\u{25b8}', ' ']
    } else {
        seq![' ', ' ']
    }));
    push_padded(&mut r, action_label(i), inner_w - 4);
    r
}

/// Appends the action menu with action `selected` highlighted.
pub fn render_action_popup(out: &mut Vec<Draw>, cols: usize, sel_y: usize, selected: usize)
    ensures
        draw_views(final(out)@) == draw_views(old(out)@) + action_popup_ops(
            cols as nat,
            sel_y as nat,
            selected as nat,
        ),
{
    let first: usize = action_label(0).unicode_len();
    let second: usize = action_label(1).unicode_len();
    let longest: usize = if first >= second {
        first
    } else {
        second
    };
    proof {
        reveal_strlit("Kill (SIGTERM)");
        reveal_strlit("Force Kill (SIGKILL)");
    }
    let inner_w: usize = longest + 4;
    let layout = popup_layout(cols, sel_y, inner_w);
    emit(out, Draw::MoveTo { x: layout.x, y: layout.y });
    emit(out, Draw::SetForeground(Color::Cyan));
    emit(out, Draw::SetBackground(Color::Black));
    emit(out, Draw::Print(popup_top(layout.h_bar.as_str())));
    let ghost head = draw_views(out@);
    let mut i: usize = 0;
    assert(head =~= head + action_lines_ops(
        layout.x,
        layout.y,
        selected as nat,
        inner_w as nat,
        0,
    ));
    while i < ACTION_COUNT
        invariant
            i <= ACTION_COUNT,
            inner_w >= 4,
            draw_views(out@) == head + action_lines_ops(
                layout.x,
                layout.y,
                selected as nat,
                inner_w as nat,
                i as nat,
            ),
        decreases ACTION_COUNT - i,
    {
        let ghost before = draw_views(out@);
        let row: u16 = row_below(row_below(layout.y, 1), i as u16);
        emit(out, Draw::MoveTo { x: layout.x, y: row });
        if i == selected {
            let mut bar = String::new();
            push_char(&mut bar, '\u{2502}');
            assert(bar@ =~= seq!['\u{2502}']);
            emit(out, Draw::Print(bar));
            emit(out, Draw::SetForeground(Color::Black));
            emit(out, Draw::SetBackground(Color::Cyan));
            emit(out, Draw::Print(action_item(i, true, inner_w)));
            emit(out, Draw::SetForeground(Color::Cyan));
            emit(out, Draw::SetBackground(Color::Black));
            let mut end = String::new();
            push_char(&mut end, ' ');
            push_char(&mut end, '\u{2502}');
            assert(end@ =~= seq![' ', '\u{2502}']);
            emit(out, Draw::Print(end));
        } else {
            let mut line = String::new();
            push_char(&mut line, '\u{2502}');
            let item = action_item(i, false, inner_w);
            line.append(item.as_str());
            push_char(&mut line, ' ');
            push_char(&mut line, '\u{2502}');
            assert(line@ =~= seq!['\u{2502}'] + action_item_text(i as int, false, inner_w as nat)
                + seq![' ', '\u{2502}']);
            emit(out, Draw::Print(line));
        }
        assert(draw_views(out@) =~= before + action_line_ops(
            layout.x,
            layout.y,
            i as int,
            i == selected,
            inner_w as nat,
        ));
        i = i + 1;
    }
    let last: u16 = row_below(row_below(layout.y, 1), ACTION_COUNT as u16);
    emit(out, Draw::MoveTo { x: layout.x, y: last });
    emit(out, Draw::Print(popup_bottom(layout.h_bar.as_str())));
    emit(out, Draw::ResetColor);
    emit(out, Draw::SetAttr(Attr::Reset));
    assert(draw_views(out@) =~= draw_views(old(out)@) + action_popup_ops(
        cols as nat,
        sel_y as nat,
        selected as nat,
    ));
}

/// Width of the command column in a terminal `cols` wide: what the fixed
/// columns leave, but at least `MIN_CMD_W`.
pub open spec fn command_width(cols: nat) -> nat {
    if cols >= FIXED_W + MIN_CMD_W {
        (cols - FIXED_W) as nat
    } else {
        MIN_CMD_W as nat
    }
}

/// Terminal row of the selected entry: below the title and the column
/// header, as far down as the selection is from the top of the scroll
/// window.
pub open spec fn selected_row(s: SessionView) -> nat {
    if s.start_row + 2 + s.selected >= s.scroll_offset {
        (s.start_row + 2 + s.selected - s.scroll_offset) as nat
    } else {
        0
    }
}

/// The popup of the current mode, just below the selected row; nothing in
/// normal mode and while the filter is edited.
pub open spec fn popup_ops(s: SessionView, cols: nat) -> Seq<DrawView> {
    match s.mode {
        ModeView::ConfirmKill { pid, name, force } => confirm_popup_ops(
            cols,
            selected_row(s),
            force,
            pid,
            name,
        ),
        ModeView::ActionMenu { selected, .. } => action_popup_ops(cols, selected_row(s), selected),
        _ => Seq::empty(),
    }
}

/// One full redraw of the session in a terminal `cols` wide: from the first
/// row of the region on, the title, the column header, the table and the
/// footer, then the popup of the current mode on top. A terminal narrower
/// than `MIN_COLS` is not drawn to at all.
pub open spec fn render_ops(s: SessionView, cols: nat) -> Seq<DrawView> {
    if cols < MIN_COLS {
        Seq::empty()
    } else {
        seq![DrawView::MoveTo { x: 0, y: s.start_row as u16 }] + header_ops(s, cols)
            + col_header_ops(cols, command_width(cols)) + rows_ops(s, cols, command_width(cols))
            + footer_ops(s, cols) + popup_ops(s, cols)
    }
}

fn popup_anchor(app: &App) -> (r: usize)
    ensures
        clamp_u16(r + 1) == clamp_u16(selected_row(app@) as int + 1),
        r <= selected_row(app@),
        r == selected_row(app@) || r == usize::MAX,
{
    let base: usize = app.start_row as usize + 2;
    if app.selected >= app.scroll_offset {
        let down: usize = app.selected - app.scroll_offset;
        if down > usize::MAX - base {
            usize::MAX
        } else {
            base + down
        }
    } else {
        let up: usize = app.scroll_offset - app.selected;
        if base >= up {
            base - up
        } else {
            0
        }
    }
}

/// The draw instructions for one full redraw of `app` in a terminal `cols`
/// columns wide.
pub fn render(app: &App, cols: usize) -> (ops: Vec<Draw>)
    ensures
        draw_views(ops@) == render_ops(app@, cols as nat),
{
    let mut ops: Vec<Draw> = Vec::new();
    if cols < MIN_COLS {
        assert(draw_views(ops@) =~= render_ops(app@, cols as nat));
        return ops;
    }
    let cmd_w: usize = if cols >= FIXED_W + MIN_CMD_W {
        cols - FIXED_W
    } else {
        MIN_CMD_W
    };
    emit(&mut ops, Draw::MoveTo { x: 0, y: app.start_row });
    render_header(&mut ops, cols, app);
    render_col_headers(&mut ops, cols, cmd_w);
    render_rows(&mut ops, cols, cmd_w, app);
    render_footer(&mut ops, cols, app);
    let ghost body = draw_views(ops@);
    assert(body =~= seq![DrawView::MoveTo { x: 0, y: app@.start_row as u16 }] + header_ops(
        app@,
        cols as nat,
    ) + col_header_ops(cols as nat, command_width(cols as nat)) + rows_ops(
        app@,
        cols as nat,
        command_width(cols as nat),
    ) + footer_ops(app@, cols as nat));
    let sel_y: usize = popup_anchor(app);
    match &app.mode {
        Mode::ConfirmKill { pid, name, force } => {
            render_confirm_popup(&mut ops, cols, sel_y, *force, *pid, name.as_str());
            assert(confirm_popup_ops(cols as nat, sel_y as nat, *force, *pid, name@)
                == confirm_popup_ops(cols as nat, selected_row(app@), *force, *pid, name@));
        },
        Mode::ActionMenu(menu) => {
            render_action_popup(&mut ops, cols, sel_y, menu.selected);
            assert(action_popup_ops(cols as nat, sel_y as nat, menu.selected as nat)
                == action_popup_ops(cols as nat, selected_row(app@), menu.selected as nat));
        },
        _ => {
            assert(body =~= body + popup_ops(app@, cols as nat));
        },
    }
    ops
}

} // verus!
