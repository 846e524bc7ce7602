//! The session: the entries, the filtered view over them, the selection, the
//! scroll window, the input mode and the size of the on-screen region.

pub mod input;
pub mod state;

use crate::app::state::lemma_initial_wf;
use crate::layout::{compute_layout, region_height, visible_rows};
use crate::ports::{entry_views, EntryView, PortEntry};
use crate::text::option_text;
use vstd::prelude::*;

verus! {

/// Number of actions the action menu offers.
pub const ACTION_COUNT: usize = 2;

/// Position of the graceful-terminate action in the menu.
pub const ACTION_TERMINATE: usize = 0;

/// Position of the force-terminate action in the menu.
pub const ACTION_FORCE: usize = 1;

/// The popup that offers the actions for one process.
#[derive(Debug)]
pub struct ActionMenu {
    /// Process the chosen action will apply to.
    pub pid: u32,
    /// Display name of that process.
    pub name: String,
    /// Highlighted action, below `ACTION_COUNT`.
    pub selected: usize,
}

/// What the session currently does with input. Exactly one mode is active.
#[derive(Debug)]
pub enum Mode {
    /// Keys navigate the list.
    Normal,
    /// Keys edit the filter text.
    FilterEditing,
    /// The action menu is open.
    ActionMenu(ActionMenu),
    /// The session waits for the answer to "kill this process?".
    ConfirmKill { pid: u32, name: String, force: bool },
}

/// A key, as far as the session tells keys apart.
#[derive(Debug, Clone, Copy)]
pub enum Key {
    Char(char),
    Enter,
    Esc,
    Backspace,
    Up,
    Down,
    Other,
}

/// What happened to a key.
#[derive(Debug, Clone, Copy)]
pub enum KeyKind {
    Press,
    Repeat,
    Release,
}

/// Something the session is told about.
#[derive(Debug)]
pub enum Event {
    /// The terminal reported a key.
    Key { key: Key, kind: KeyKind },
    /// The terminal now has `rows` rows.
    Resize { rows: u16 },
    /// The signal asked for by `Effect::Kill` was dispatched (`ok`) or could
    /// not be.
    KillDone { pid: u32, name: String, ok: bool },
    /// The entries were fetched anew.
    Listing { entries: Vec<PortEntry> },
    /// Any other terminal event.
    Other,
}

/// What the caller has to do after an event was handled.
#[derive(Debug)]
pub enum Effect {
    /// Nothing.
    Nothing,
    /// Send the termination signal (the forced one if `force`) to process
    /// `pid`, then report `Event::KillDone`.
    Kill { pid: u32, name: String, force: bool },
    /// Fetch the entries and report `Event::Listing`.
    Refresh,
}

/// The interactive session.
#[derive(Debug)]
pub struct App {
    /// All entries, as last fetched.
    pub entries: Vec<PortEntry>,
    /// Position of the cursor in `filtered_entries`; `0` when that is empty.
    pub selected: usize,
    /// Position in `filtered_entries` of the first row on screen.
    pub scroll_offset: usize,
    /// The filter text; empty for no filtering.
    pub filter: String,
    /// Indices into `entries` of the entries that pass the filter, ascending.
    pub filtered_entries: Vec<usize>,
    /// The input mode.
    pub mode: Mode,
    /// Set once the user asked to leave.
    pub should_quit: bool,
    /// Outcome of the last action, shown until the next key.
    pub status_msg: Option<String>,
    /// Terminal row of the first line of the region.
    pub start_row: u16,
    /// Height of the region in rows.
    pub height: usize,
    /// Rows of the region that show entries.
    pub visible_rows: usize,
    /// Rows of the terminal, as last reported.
    pub terminal_rows: usize,
}

/// A `Mode` with its texts as character sequences.
pub enum ModeView {
    Normal,
    FilterEditing,
    ActionMenu { pid: u32, name: Seq<char>, selected: nat },
    ConfirmKill { pid: u32, name: Seq<char>, force: bool },
}

impl View for Mode {
    type V = ModeView;

    open spec fn view(&self) -> ModeView {
        match *self {
            Mode::Normal => ModeView::Normal,
            Mode::FilterEditing => ModeView::FilterEditing,
            Mode::ActionMenu(menu) => ModeView::ActionMenu {
                pid: menu.pid,
                name: menu.name@,
                selected: menu.selected as nat,
            },
            Mode::ConfirmKill { pid, name, force } => ModeView::ConfirmKill {
                pid,
                name: name@,
                force,
            },
        }
    }
}

/// An `Event` with its texts and entries as sequences.
pub enum EventView {
    Key { key: Key, kind: KeyKind },
    Resize { rows: nat },
    KillDone { pid: u32, name: Seq<char>, ok: bool },
    Listing { entries: Seq<EntryView> },
    Other,
}

impl View for Event {
    type V = EventView;

    open spec fn view(&self) -> EventView {
        match *self {
            Event::Key { key, kind } => EventView::Key { key, kind },
            Event::Resize { rows } => EventView::Resize { rows: rows as nat },
            Event::KillDone { pid, name, ok } => EventView::KillDone { pid, name: name@, ok },
            Event::Listing { entries } => EventView::Listing { entries: entry_views(entries@) },
            Event::Other => EventView::Other,
        }
    }
}

/// An `Effect` with its text as a character sequence.
pub enum EffectView {
    Nothing,
    Kill { pid: u32, name: Seq<char>, force: bool },
    Refresh,
}

impl View for Effect {
    type V = EffectView;

    open spec fn view(&self) -> EffectView {
        match *self {
            Effect::Nothing => EffectView::Nothing,
            Effect::Kill { pid, name, force } => EffectView::Kill { pid, name: name@, force },
            Effect::Refresh => EffectView::Refresh,
        }
    }
}

/// The session as a mathematical value.
pub struct SessionView {
    pub entries: Seq<EntryView>,
    pub filtered: Seq<nat>,
    pub selected: nat,
    pub scroll_offset: nat,
    pub filter: Seq<char>,
    pub mode: ModeView,
    pub should_quit: bool,
    pub status: Option<Seq<char>>,
    pub start_row: nat,
    pub height: nat,
    pub visible_rows: nat,
    pub terminal_rows: nat,
}

/// The indices held by `v`, as natural numbers.
pub open spec fn index_views(v: Seq<usize>) -> Seq<nat> {
    Seq::new(v.len(), |i: int| v[i] as nat)
}

impl View for App {
    type V = SessionView;

    open spec fn view(&self) -> SessionView {
        SessionView {
            entries: entry_views(self.entries@),
            filtered: index_views(self.filtered_entries@),
            selected: self.selected as nat,
            scroll_offset: self.scroll_offset as nat,
            filter: self.filter@,
            mode: self.mode@,
            should_quit: self.should_quit,
            status: option_text(self.status_msg),
            start_row: self.start_row as nat,
            height: self.height as nat,
            visible_rows: self.visible_rows as nat,
            terminal_rows: self.terminal_rows as nat,
        }
    }
}

impl SessionView {
    /// The session in a terminal of `rows` rows: region height and visible
    /// rows follow from `rows` and the number of filtered entries.
    pub open spec fn laid_out(self, rows: nat) -> SessionView {
        SessionView {
            terminal_rows: rows,
            height: region_height(rows as int, self.filtered.len() as int) as nat,
            visible_rows: visible_rows(rows as int, self.filtered.len() as int) as nat,
            ..self
        }
    }

    /// Whether region height and visible rows are those of the current
    /// terminal height and filtered list.
    pub open spec fn layout_current(self) -> bool {
        &&& self.height == region_height(self.terminal_rows as int, self.filtered.len() as int)
        &&& self.visible_rows == visible_rows(
            self.terminal_rows as int,
            self.filtered.len() as int,
        )
    }

    /// The session placed so that its region ends on the row of the cursor,
    /// `cursor_row`; rows are counted up to `u16::MAX`.
    pub open spec fn anchored(self, cursor_row: nat) -> SessionView {
        let below: nat = if cursor_row + 1 <= u16::MAX {
            cursor_row + 1
        } else {
            u16::MAX as nat
        };
        SessionView {
            start_row: if below >= self.height {
                (below - self.height) as nat
            } else {
                0
            },
            ..self
        }
    }
}

impl App {
    /// A session over `entries`: nothing filtered out, the first entry
    /// selected, normal mode, and no region laid out yet.
    pub fn new(entries: Vec<PortEntry>) -> (app: App)
        ensures
            app@ == SessionView::initial(entry_views(entries@)),
            app@.wf(),
    {
        proof {
            lemma_initial_wf(entry_views(entries@));
        }
        let mut filtered_entries: Vec<usize> = Vec::new();
        let mut i: usize = 0;
        while i < entries.len()
            invariant
                i <= entries.len(),
                filtered_entries@.len() == i,
                forall|k: int| 0 <= k < i ==> filtered_entries@[k] == k,
            decreases entries.len() - i,
        {
            filtered_entries.push(i);
            i = i + 1;
        }
        let app = App {
            entries,
            selected: 0,
            scroll_offset: 0,
            filter: String::new(),
            filtered_entries,
            mode: Mode::Normal,
            should_quit: false,
            status_msg: None,
            start_row: 0,
            height: 0,
            visible_rows: 0,
            terminal_rows: 0,
        };
        assert(app@.filtered == Seq::new(entries@.len(), |i: int| i as nat));
        app
    }

    /// Sizes the region for a terminal of `term_rows` rows.
    pub fn recalc_layout(&mut self, term_rows: usize)
        ensures
            final(self)@ == old(self)@.laid_out(term_rows as nat),
            old(self)@.wf() ==> final(self)@.wf(),
    {
        let (height, visible) = compute_layout(term_rows, self.filtered_entries.len());
        self.terminal_rows = term_rows;
        self.height = height;
        self.visible_rows = visible;
    }

    /// Places the region so that it ends on the terminal row `cursor_row`,
    /// the row the cursor is on after the region's lines were written.
    pub fn anchor(&mut self, cursor_row: u16)
        ensures
            final(self)@ == old(self)@.anchored(cursor_row as nat),
            old(self)@.wf() ==> final(self)@.wf(),
    {
        let below: u16 = if cursor_row < u16::MAX {
            cursor_row + 1
        } else {
            u16::MAX
        };
        if self.height <= below as usize {
            self.start_row = below - (self.height as u16);
        } else {
            self.start_row = 0;
        }
    }
}

} // verus!
