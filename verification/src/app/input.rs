//! What each event does to the session.

use crate::app::{
    ActionMenu, App, Effect, EffectView, Event, EventView, Key, KeyKind, Mode, ModeView,
    SessionView, ACTION_COUNT, ACTION_FORCE,
};
use crate::app::state::{lemma_moved_wf, lemma_refiltered_wf, lemma_refreshed_wf};
use crate::layout::{cycle, cycle_index};
use crate::text::{decimal, decimal_chars, pop_char, push_char, push_chars};
use vstd::arithmetic::div_mod::lemma_mod_bound;
use vstd::prelude::*;

verus! {

/// The status line that reports how killing process `pid`, named `name`,
/// went.
pub open spec fn kill_report(pid: u32, name: Seq<char>, ok: bool) -> Seq<char> {
    (if ok {
        "Killed "@
    } else {
        "Failed to kill "@
    }) + name + " (PID "@ + decimal(pid as nat) + ")"@
}

impl SessionView {
    /// The session with the action menu open for the selected entry, the
    /// first action highlighted; unchanged without a selected entry.
    pub open spec fn menu_opened(self) -> SessionView {
        match self.selected_entry() {
            Some(entry) => SessionView {
                mode: ModeView::ActionMenu {
                    pid: entry.pid,
                    name: entry.process_name,
                    selected: 0,
                },
                ..self
            },
            None => self,
        }
    }

    /// The session with the highlight of the action menu moved by `step`,
    /// wrapping at both ends; unchanged while no menu is open.
    pub open spec fn menu_moved(self, step: int) -> SessionView {
        match self.mode {
            ModeView::ActionMenu { pid, name, selected } => SessionView {
                mode: ModeView::ActionMenu {
                    pid,
                    name,
                    selected: cycle(selected as int, ACTION_COUNT as int, step) as nat,
                },
                ..self
            },
            _ => self,
        }
    }

    /// A key while the kill confirmation is open: `y` or `Y` asks the caller
    /// to send the signal, every other key cancels; either way the session
    /// is back in normal mode.
    pub open spec fn after_confirm_key(self, key: Key) -> (SessionView, EffectView) {
        match self.mode {
            ModeView::ConfirmKill { pid, name, force } => {
                let closed = SessionView { mode: ModeView::Normal, ..self };
                match key {
                    Key::Char(c) if c == 'y' || c == 'Y' => (
                        closed,
                        EffectView::Kill { pid, name, force },
                    ),
                    _ => (closed, EffectView::Nothing),
                }
            },
            _ => (self, EffectView::Nothing),
        }
    }

    /// A key while the action menu is open: `j`/down and `k`/up move the
    /// highlight, enter opens the kill confirmation for the highlighted
    /// action, escape or `q` closes the menu; other keys do nothing.
    pub open spec fn after_menu_key(self, key: Key) -> SessionView {
        match self.mode {
            ModeView::ActionMenu { pid, name, selected } => match key {
                Key::Down => self.menu_moved(1),
                Key::Up => self.menu_moved(-1),
                Key::Char(c) if c == 'j' => self.menu_moved(1),
                Key::Char(c) if c == 'k' => self.menu_moved(-1),
                Key::Enter => SessionView {
                    mode: ModeView::ConfirmKill { pid, name, force: selected == ACTION_FORCE },
                    ..self
                },
                Key::Esc => SessionView { mode: ModeView::Normal, ..self },
                Key::Char(c) if c == 'q' => SessionView { mode: ModeView::Normal, ..self },
                _ => self,
            },
            _ => self,
        }
    }

    /// A key while the filter is edited: a character is appended to the
    /// filter text, backspace removes its last character, enter leaves the
    /// mode and applies the filter, escape leaves the mode, empties the
    /// filter text and applies that; other keys do nothing.
    pub open spec fn after_filter_key(self, key: Key) -> SessionView {
        match key {
            Key::Enter => SessionView { mode: ModeView::Normal, ..self }.refiltered(),
            Key::Esc => SessionView {
                mode: ModeView::Normal,
                filter: Seq::empty(),
                ..self
            }.refiltered(),
            Key::Backspace => SessionView {
                filter: if self.filter.len() > 0 {
                    self.filter.drop_last()
                } else {
                    self.filter
                },
                ..self
            },
            Key::Char(c) => SessionView { filter: self.filter.push(c), ..self },
            _ => self,
        }
    }

    /// A key in normal mode: `q` or escape asks to quit, `j`/down and
    /// `k`/up move the selection, enter opens the action menu, `/` starts
    /// editing the filter, `K` and `F` open the kill confirmation (`F` for
    /// the forced signal), `r` asks the caller for fresh entries; other keys
    /// do nothing.
    pub open spec fn after_normal_key(self, key: Key) -> (SessionView, EffectView) {
        match key {
            Key::Esc => (SessionView { should_quit: true, ..self }, EffectView::Nothing),
            Key::Down => (self.moved(1), EffectView::Nothing),
            Key::Up => (self.moved(-1), EffectView::Nothing),
            Key::Enter => (self.menu_opened(), EffectView::Nothing),
            Key::Char(c) => if c == 'q' {
                (SessionView { should_quit: true, ..self }, EffectView::Nothing)
            } else if c == 'j' {
                (self.moved(1), EffectView::Nothing)
            } else if c == 'k' {
                (self.moved(-1), EffectView::Nothing)
            } else if c == '/' {
                (SessionView { mode: ModeView::FilterEditing, ..self }, EffectView::Nothing)
            } else if c == 'K' {
                (self.kill_requested(false), EffectView::Nothing)
            } else if c == 'F' {
                (self.kill_requested(true), EffectView::Nothing)
            } else if c == 'r' {
                (self, EffectView::Refresh)
            } else {
                (self, EffectView::Nothing)
            },
            _ => (self, EffectView::Nothing),
        }
    }

    /// A pressed key: the status message is cleared, then the key goes to
    /// the handler of the current mode. The kill confirmation comes before
    /// the action menu, that before filter editing, that before normal
    /// mode.
    pub open spec fn after_key(self, key: Key) -> (SessionView, EffectView) {
        let cleared = SessionView { status: None, ..self };
        match self.mode {
            ModeView::ConfirmKill { .. } => cleared.after_confirm_key(key),
            ModeView::ActionMenu { .. } => (cleared.after_menu_key(key), EffectView::Nothing),
            ModeView::FilterEditing => (cleared.after_filter_key(key), EffectView::Nothing),
            ModeView::Normal => cleared.after_normal_key(key),
        }
    }

    /// The session once the caller reported how sending the signal went:
    /// the status message says so, and the caller is asked for fresh
    /// entries.
    pub open spec fn after_kill(self, pid: u32, name: Seq<char>, ok: bool) -> SessionView {
        SessionView { status: Some(kill_report(pid, name, ok)), ..self }
    }

    /// The session after `event`, and what the caller has to do next. A
    /// resize sizes the region anew whatever the mode; of the key events
    /// only presses count.
    pub open spec fn after_event(self, event: EventView) -> (SessionView, EffectView) {
        match event {
            EventView::Key { key, kind } => match kind {
                KeyKind::Press => self.after_key(key),
                _ => (self, EffectView::Nothing),
            },
            EventView::Resize { rows } => (self.laid_out(rows), EffectView::Nothing),
            EventView::KillDone { pid, name, ok } => (
                self.after_kill(pid, name, ok),
                EffectView::Refresh,
            ),
            EventView::Listing { entries } => (self.refreshed(entries), EffectView::Nothing),
            EventView::Other => (self, EffectView::Nothing),
        }
    }
}

impl App {
    /// Handles one event and says what the caller has to do next.
    pub fn handle_event(&mut self, event: Event) -> (effect: Effect)
        ensures
            final(self)@ == old(self)@.after_event(event@).0,
            effect@ == old(self)@.after_event(event@).1,
            old(self)@.wf() ==> final(self)@.wf(),
    {
        proof {
            if old(self)@.wf() {
                lemma_event_preserves_wf(old(self)@, event@);
            }
        }
        match event {
            Event::Key { key, kind } => match kind {
                KeyKind::Press => self.handle_key(key),
                _ => Effect::Nothing,
            },
            Event::Resize { rows } => {
                self.recalc_layout(rows as usize);
                Effect::Nothing
            },
            Event::KillDone { pid, name, ok } => self.kill_done(pid, name.as_str(), ok),
            Event::Listing { entries } => {
                self.refresh(entries);
                Effect::Nothing
            },
            Event::Other => Effect::Nothing,
        }
    }

    /// Handles a pressed key: clears the status message, then lets the
    /// current mode handle the key.
    pub fn handle_key(&mut self, key: Key) -> (effect: Effect)
        ensures
            final(self)@ == old(self)@.after_key(key).0,
            effect@ == old(self)@.after_key(key).1,
            old(self)@.wf() ==> final(self)@.wf(),
    {
        proof {
            if old(self)@.wf() {
                lemma_key_wf(old(self)@, key);
            }
        }
        self.status_msg = None;
        match &self.mode {
            Mode::ConfirmKill { .. } => self.handle_confirm(key),
            Mode::ActionMenu(_) => {
                self.handle_action_menu(key);
                Effect::Nothing
            },
            Mode::FilterEditing => {
                self.handle_filter_input(key);
                Effect::Nothing
            },
            Mode::Normal => self.handle_normal(key),
        }
    }

    /// Handles a key in normal mode.
    pub fn handle_normal(&mut self, key: Key) -> (effect: Effect)
        ensures
            final(self)@ == old(self)@.after_normal_key(key).0,
            effect@ == old(self)@.after_normal_key(key).1,
            old(self)@.wf() && old(self)@.mode == ModeView::Normal ==> final(self)@.wf(),
    {
        proof {
            if old(self)@.wf() && old(self)@.mode == ModeView::Normal {
                lemma_normal_key_wf(old(self)@, key);
            }
        }
        match key {
            Key::Esc => {
                self.should_quit = true;
            },
            Key::Down => {
                self.next_row();
            },
            Key::Up => {
                self.prev_row();
            },
            Key::Enter => {
                self.open_action_menu();
            },
            Key::Char(c) => {
                if c == 'q' {
                    self.should_quit = true;
                } else if c == 'j' {
                    self.next_row();
                } else if c == 'k' {
                    self.prev_row();
                } else if c == '/' {
                    self.mode = Mode::FilterEditing;
                } else if c == 'K' {
                    self.request_kill(false);
                } else if c == 'F' {
                    self.request_kill(true);
                } else if c == 'r' {
                    return Effect::Refresh;
                }
            },
            _ => {},
        }
        Effect::Nothing
    }

    /// Handles a key while the action menu is open.
    pub fn handle_action_menu(&mut self, key: Key)
        ensures
            final(self)@ == old(self)@.after_menu_key(key),
            old(self)@.wf() ==> final(self)@.wf(),
    {
        proof {
            if old(self)@.wf() {
                lemma_menu_key_wf(old(self)@, key);
            }
        }
        let chosen = match &self.mode {
            Mode::ActionMenu(menu) => Some((menu.pid, menu.name.clone(), menu.selected)),
            _ => None,
        };
        if let Some((pid, name, selected)) = chosen {
            match key {
                Key::Down => {
                    self.move_action_selection(1);
                },
                Key::Up => {
                    self.move_action_selection(-1);
                },
                Key::Enter => {
                    self.mode = Mode::ConfirmKill { pid, name, force: selected == ACTION_FORCE };
                },
                Key::Esc => {
                    self.mode = Mode::Normal;
                },
                Key::Char(c) => {
                    if c == 'j' {
                        self.move_action_selection(1);
                    } else if c == 'k' {
                        self.move_action_selection(-1);
                    } else if c == 'q' {
                        self.mode = Mode::Normal;
                    }
                },
                _ => {},
            }
        }
    }

    /// Moves the highlight of the action menu by `step`, wrapping at both
    /// ends.
    pub fn move_action_selection(&mut self, step: isize)
        ensures
            final(self)@ == old(self)@.menu_moved(step as int),
            old(self)@.wf() ==> final(self)@.wf(),
    {
        proof {
            if old(self)@.wf() {
                lemma_menu_moved_wf(old(self)@, step as int);
            }
        }
        let moved = match &self.mode {
            Mode::ActionMenu(menu) => Some(
                ActionMenu {
                    pid: menu.pid,
                    name: menu.name.clone(),
                    selected: cycle_index(menu.selected, ACTION_COUNT, step),
                },
            ),
            _ => None,
        };
        if let Some(menu) = moved {
            self.mode = Mode::ActionMenu(menu);
        }
    }

    /// Opens the action menu for the selected entry; does nothing without
    /// one.
    pub fn open_action_menu(&mut self)
        ensures
            final(self)@ == old(self)@.menu_opened(),
            old(self)@.wf() && old(self)@.mode == ModeView::Normal ==> final(self)@.wf(),
    {
        let target = match self.selected_entry() {
            Some(entry) => Some((entry.pid, entry.process_name.clone())),
            None => None,
        };
        if let Some((pid, name)) = target {
            self.mode = Mode::ActionMenu(ActionMenu { pid, name, selected: 0 });
        }
    }

    /// Handles a key while the kill confirmation is open.
    pub fn handle_confirm(&mut self, key: Key) -> (effect: Effect)
        ensures
            final(self)@ == old(self)@.after_confirm_key(key).0,
            effect@ == old(self)@.after_confirm_key(key).1,
            old(self)@.wf() ==> final(self)@.wf(),
    {
        let target = match &self.mode {
            Mode::ConfirmKill { pid, name, force } => Some((*pid, name.clone(), *force)),
            _ => None,
        };
        match target {
            Some((pid, name, force)) => {
                self.mode = Mode::Normal;
                match key {
                    Key::Char(c) => {
                        if c == 'y' || c == 'Y' {
                            Effect::Kill { pid, name, force }
                        } else {
                            Effect::Nothing
                        }
                    },
                    _ => Effect::Nothing,
                }
            },
            None => Effect::Nothing,
        }
    }

    /// Handles a key while the filter is edited.
    pub fn handle_filter_input(&mut self, key: Key)
        ensures
            final(self)@ == old(self)@.after_filter_key(key),
            old(self)@.wf() && old(self)@.mode == ModeView::FilterEditing ==> final(self)@.wf(),
    {
        proof {
            if old(self)@.wf() && old(self)@.mode == ModeView::FilterEditing {
                lemma_filter_key_wf(old(self)@, key);
            }
        }
        match key {
            Key::Enter => {
                self.mode = Mode::Normal;
                self.apply_filter();
            },
            Key::Esc => {
                self.mode = Mode::Normal;
                self.filter = String::new();
                self.apply_filter();
            },
            Key::Backspace => {
                let _ = pop_char(&mut self.filter);
            },
            Key::Char(c) => {
                push_char(&mut self.filter, c);
            },
            _ => {},
        }
    }

    /// Records how sending the signal to process `pid`, named `name`, went,
    /// and asks for fresh entries.
    pub fn kill_done(&mut self, pid: u32, name: &str, ok: bool) -> (effect: Effect)
        ensures
            final(self)@ == old(self)@.after_kill(pid, name@, ok),
            effect@ == EffectView::Refresh,
            old(self)@.wf() ==> final(self)@.wf(),
    {
        let mut message = if ok {
            String::from_str("Killed ")
        } else {
            String::from_str("Failed to kill ")
        };
        message.append(name);
        message.append(" (PID ");
        let digits = decimal_chars(pid as usize);
        push_chars(&mut message, &digits, 0, digits.len());
        assert(digits@.subrange(0, digits@.len() as int) == digits@);
        message.append(")");
        self.status_msg = Some(message);
        Effect::Refresh
    }
}

/// Opening the action menu keeps a session well formed.
pub proof fn lemma_menu_opened_wf(s: SessionView)
    requires
        s.wf(),
        s.mode == ModeView::Normal,
    ensures
        s.menu_opened().wf(),
{
}

/// Moving the highlight of the action menu keeps a session well formed.
pub proof fn lemma_menu_moved_wf(s: SessionView, step: int)
    requires
        s.wf(),
    ensures
        s.menu_moved(step).wf(),
{
    if s.mode is ActionMenu {
        lemma_mod_bound(s.mode->ActionMenu_selected + step, ACTION_COUNT as int);
    }
}

/// A key in normal mode keeps a session well formed.
pub proof fn lemma_normal_key_wf(s: SessionView, key: Key)
    requires
        s.wf(),
        s.mode == ModeView::Normal,
    ensures
        s.after_normal_key(key).0.wf(),
{
    lemma_moved_wf(s, 1);
    lemma_moved_wf(s, -1);
}

/// A key while the filter is edited keeps a session well formed.
pub proof fn lemma_filter_key_wf(s: SessionView, key: Key)
    requires
        s.wf(),
        s.mode == ModeView::FilterEditing,
    ensures
        s.after_filter_key(key).wf(),
{
    lemma_refiltered_wf(SessionView { mode: ModeView::Normal, ..s });
    lemma_refiltered_wf(SessionView { mode: ModeView::Normal, filter: Seq::empty(), ..s });
}

/// A key while the action menu is open keeps a session well formed.
pub proof fn lemma_menu_key_wf(s: SessionView, key: Key)
    requires
        s.wf(),
    ensures
        s.after_menu_key(key).wf(),
{
    lemma_menu_moved_wf(s, 1);
    lemma_menu_moved_wf(s, -1);
}

/// A key while the kill confirmation is open keeps a session well formed.
pub proof fn lemma_confirm_key_wf(s: SessionView, key: Key)
    requires
        s.wf(),
    ensures
        s.after_confirm_key(key).0.wf(),
{
}

/// A pressed key keeps a session well formed.
pub proof fn lemma_key_wf(s: SessionView, key: Key)
    requires
        s.wf(),
    ensures
        s.after_key(key).0.wf(),
{
    let cleared = SessionView { status: None, ..s };
    match s.mode {
        ModeView::ConfirmKill { .. } => {
            lemma_confirm_key_wf(cleared, key);
        },
        ModeView::ActionMenu { .. } => {
            lemma_menu_key_wf(cleared, key);
        },
        ModeView::FilterEditing => {
            lemma_filter_key_wf(cleared, key);
        },
        ModeView::Normal => {
            lemma_normal_key_wf(cleared, key);
        },
    }
}

/// Every event leaves a well-formed session well formed.
pub proof fn lemma_event_preserves_wf(s: SessionView, event: EventView)
    requires
        s.wf(),
    ensures
        s.after_event(event).0.wf(),
{
    match event {
        EventView::Key { key, kind } => {
            lemma_key_wf(s, key);
        },
        EventView::Resize { rows } => {},
        EventView::KillDone { pid, name, ok } => {},
        EventView::Listing { entries } => {
            lemma_refreshed_wf(s, entries);
        },
        EventView::Other => {},
    }
}

/// A kill confirmation that is answered with anything but `y` or `Y` is
/// closed without a trace: the session is the one before it was opened,
/// and the caller is asked for nothing.
pub proof fn lemma_cancel_leaves_no_trace(s: SessionView, force: bool, key: Key)
    requires
        s.mode == ModeView::Normal,
        s.status.is_none(),
        s.selected_entry().is_some(),
        key != Key::Char('y'),
        key != Key::Char('Y'),
    ensures
        s.kill_requested(force).after_key(key).0 == s,
        s.kill_requested(force).after_key(key).1 == EffectView::Nothing,
{
}

/// The kill confirmation takes every key: while it is open no key moves
/// the selection, edits the filter or quits.
pub proof fn lemma_confirmation_comes_first(s: SessionView, key: Key)
    requires
        s.mode is ConfirmKill,
    ensures
        s.after_key(key).0 == (SessionView { mode: ModeView::Normal, status: None, ..s }),
{
}

} // verus!
