//! Filtering, selection and scrolling.

use crate::app::{index_views, App, Mode, ModeView, SessionView, ACTION_COUNT};
use crate::layout::{cycle, cycle_backward, cycle_forward, cycle_index, lemma_cycle_full_turn};
use crate::ports::{entry_matches, entry_matches_chars, entry_views, EntryView, PortEntry};
use crate::text::{
    chars_of, contains_ignore_case, decimal, lemma_search_ignores_case, same_but_case,
};
use vstd::arithmetic::div_mod::lemma_mod_bound;
use vstd::prelude::*;

verus! {

/// The indices below `upto` of the entries that pass the filter `query`,
/// ascending.
pub open spec fn matching(entries: Seq<EntryView>, query: Seq<char>, upto: nat) -> Seq<nat>
    decreases upto,
{
    if upto == 0 {
        Seq::empty()
    } else {
        let before = matching(entries, query, (upto - 1) as nat);
        if entry_matches(entries[upto - 1], query) {
            before.push((upto - 1) as nat)
        } else {
            before
        }
    }
}

/// The filtered view of `entries` under the filter `query`.
pub open spec fn filtered_indices(entries: Seq<EntryView>, query: Seq<char>) -> Seq<nat> {
    matching(entries, query, entries.len())
}

impl SessionView {
    /// The session with the filter applied anew: the filtered view is
    /// derived from the entries and the filter text alone, the selection is
    /// kept if it still points into the view and else moved to its last
    /// row (to `0` in an empty view), the scroll window returns to the top,
    /// and the region is sized for the new view.
    pub open spec fn refiltered(self) -> SessionView {
        let filtered = filtered_indices(self.entries, self.filter);
        SessionView {
            filtered,
            selected: if filtered.len() == 0 {
                0
            } else if self.selected < filtered.len() {
                self.selected
            } else {
                (filtered.len() - 1) as nat
            },
            scroll_offset: 0,
            ..self
        }.laid_out(self.terminal_rows)
    }

    /// The session over freshly fetched `entries`, filtered by the filter
    /// text it had.
    pub open spec fn refreshed(self, entries: Seq<EntryView>) -> SessionView {
        SessionView { entries, ..self }.refiltered()
    }

    /// The session with the scroll window moved, as little as possible, so
    /// that it holds the selected row. Without visible rows nothing moves.
    pub open spec fn made_visible(self) -> SessionView {
        if self.visible_rows == 0 {
            self
        } else if self.selected < self.scroll_offset {
            SessionView { scroll_offset: self.selected, ..self }
        } else if self.selected >= self.scroll_offset + self.visible_rows {
            SessionView { scroll_offset: (self.selected - self.visible_rows + 1) as nat, ..self }
        } else {
            self
        }
    }

    /// The session after the selection moved by `step` rows, wrapping at
    /// both ends of the filtered view. An empty view leaves the session as
    /// it is.
    pub open spec fn moved(self, step: int) -> SessionView {
        if self.filtered.len() == 0 {
            self
        } else {
            SessionView {
                selected: cycle(self.selected as int, self.filtered.len() as int, step) as nat,
                ..self
            }.made_visible()
        }
    }

    /// The entry under the cursor, if the cursor points at one.
    pub open spec fn selected_entry(self) -> Option<EntryView> {
        if self.selected < self.filtered.len() && self.filtered[self.selected as int]
            < self.entries.len() {
            Some(self.entries[self.filtered[self.selected as int] as int])
        } else {
            None
        }
    }

    /// The session asking whether to kill the selected process; unchanged
    /// without a selected entry.
    pub open spec fn kill_requested(self, force: bool) -> SessionView {
        match self.selected_entry() {
            Some(entry) => SessionView {
                mode: ModeView::ConfirmKill { pid: entry.pid, name: entry.process_name, force },
                ..self
            },
            None => self,
        }
    }

    /// Whether the selected row lies in the scroll window. Holds trivially
    /// of an empty view and where no row is visible.
    pub open spec fn selection_visible(self) -> bool {
        self.visible_rows > 0 && self.filtered.len() > 0 ==> self.scroll_offset <= self.selected
            < self.scroll_offset + self.visible_rows
    }
}

impl SessionView {
    /// The session a program starts with: every entry in view, the first
    /// one selected, normal mode, no region laid out.
    pub open spec fn initial(entries: Seq<EntryView>) -> SessionView {
        SessionView {
            entries,
            filtered: Seq::new(entries.len(), |i: int| i as nat),
            selected: 0,
            scroll_offset: 0,
            filter: Seq::empty(),
            mode: ModeView::Normal,
            should_quit: false,
            status: None,
            start_row: 0,
            height: 0,
            visible_rows: 0,
            terminal_rows: 0,
        }
    }

    /// Whether the filtered view is an ascending list of indices into the
    /// entries.
    pub open spec fn view_in_order(self) -> bool {
        &&& forall|k: int|
            0 <= k < self.filtered.len() ==> (#[trigger] self.filtered[k]) < self.entries.len()
        &&& forall|j: int, k: int|
            0 <= j < k < self.filtered.len() ==> self.filtered[j] < self.filtered[k]
    }

    /// Whether an open action menu highlights one of its actions.
    pub open spec fn menu_in_range(self) -> bool {
        match self.mode {
            ModeView::ActionMenu { selected, .. } => selected < ACTION_COUNT,
            _ => true,
        }
    }

    /// What holds of a session between events: the filtered view is an
    /// ascending list of indices into the entries and, unless the filter
    /// text is being edited, the one that the filter text gives; the
    /// selection points into the view, or is `0` in an empty view; an open
    /// action menu highlights one of its actions; and the region is sized
    /// for the terminal and the view.
    pub open spec fn wf(self) -> bool {
        &&& self.view_in_order()
        &&& self.mode != ModeView::FilterEditing ==> self.filtered == filtered_indices(
            self.entries,
            self.filter,
        )
        &&& if self.filtered.len() == 0 {
            self.selected == 0
        } else {
            self.selected < self.filtered.len()
        }
        &&& self.menu_in_range()
        &&& self.layout_current()
    }
}

impl App {
    /// Moves the selection to the next row, wrapping to the first.
    pub fn next_row(&mut self)
        ensures
            final(self)@ == old(self)@.moved(1),
            old(self)@.wf() ==> final(self)@.wf(),
    {
        self.move_selection(1);
    }

    /// Moves the selection to the previous row, wrapping to the last.
    pub fn prev_row(&mut self)
        ensures
            final(self)@ == old(self)@.moved(-1),
            old(self)@.wf() ==> final(self)@.wf(),
    {
        self.move_selection(-1);
    }

    /// Moves the selection by `step` rows, wrapping at both ends, and
    /// scrolls so that the selected row is on screen.
    pub fn move_selection(&mut self, step: isize)
        ensures
            final(self)@ == old(self)@.moved(step as int),
            final(self)@.visible_rows > 0 ==> final(self)@.selection_visible(),
            old(self)@.wf() ==> final(self)@.wf(),
    {
        proof {
            if old(self)@.wf() {
                lemma_moved_wf(old(self)@, step as int);
            }
        }
        if self.filtered_entries.len() == 0 {
            return ;
        }
        self.selected = cycle_index(self.selected, self.filtered_entries.len(), step);
        self.ensure_visible();
    }

    /// Scrolls, as little as possible, so that the selected row is on
    /// screen.
    pub fn ensure_visible(&mut self)
        ensures
            final(self)@ == old(self)@.made_visible(),
            final(self)@.visible_rows > 0 ==> final(self)@.scroll_offset <= final(self)@.selected
                < final(self)@.scroll_offset + final(self)@.visible_rows,
            old(self)@.wf() ==> final(self)@.wf(),
    {
        if self.visible_rows == 0 {
            return ;
        }
        if self.selected < self.scroll_offset {
            self.scroll_offset = self.selected;
        } else if self.selected - self.scroll_offset >= self.visible_rows {
            self.scroll_offset = self.selected - self.visible_rows + 1;
        }
    }

    /// Opens the kill confirmation for the selected entry; does nothing
    /// without one.
    pub fn request_kill(&mut self, force: bool)
        ensures
            final(self)@ == old(self)@.kill_requested(force),
            old(self)@.wf() && old(self)@.mode == ModeView::Normal ==> final(self)@.wf(),
    {
        let target = match self.selected_entry() {
            Some(entry) => Some((entry.pid, entry.process_name.clone())),
            None => None,
        };
        if let Some((pid, name)) = target {
            self.mode = Mode::ConfirmKill { pid, name, force };
        }
    }

    /// Replaces the entries by freshly fetched ones and applies the filter
    /// to them.
    pub fn refresh(&mut self, entries: Vec<PortEntry>)
        ensures
            final(self)@ == old(self)@.refreshed(entry_views(entries@)),
            old(self)@.menu_in_range() ==> final(self)@.wf(),
    {
        proof {
            if old(self)@.menu_in_range() {
                lemma_refreshed_wf(old(self)@, entry_views(entries@));
            }
        }
        self.entries = entries;
        self.apply_filter();
    }

    /// Derives the filtered view from the entries and the filter text,
    /// clamps the selection into it, scrolls to the top and sizes the
    /// region for the new view.
    pub fn apply_filter(&mut self)
        ensures
            final(self)@ == old(self)@.refiltered(),
            old(self)@.menu_in_range() ==> final(self)@.wf(),
    {
        proof {
            if old(self)@.menu_in_range() {
                lemma_refiltered_wf(old(self)@);
            }
        }
        let query = chars_of(self.filter.as_str());
        let mut filtered: Vec<usize> = Vec::new();
        let mut i: usize = 0;
        while i < self.entries.len()
            invariant
                i <= self.entries.len(),
                *self == *old(self),
                query@ == self.filter@,
                index_views(filtered@) == matching(entry_views(self.entries@), query@, i as nat),
            decreases self.entries.len() - i,
        {
            let ghost before = index_views(filtered@);
            if entry_matches_chars(&self.entries[i], &query) {
                filtered.push(i);
                assert(index_views(filtered@) == before.push(i as nat));
            }
            i = i + 1;
        }
        if filtered.len() == 0 {
            self.selected = 0;
        } else if self.selected >= filtered.len() {
            self.selected = filtered.len() - 1;
        }
        self.filtered_entries = filtered;
        self.scroll_offset = 0;
        let rows: usize = self.terminal_rows;
        self.recalc_layout(rows);
    }

    /// The entry under the cursor, if the cursor points at one.
    pub fn selected_entry(&self) -> (r: Option<&PortEntry>)
        ensures
            r.is_some() == self@.selected_entry().is_some(),
            r.is_some() ==> r.unwrap()@ == self@.selected_entry().unwrap(),
    {
        if self.selected < self.filtered_entries.len() {
            let index: usize = self.filtered_entries[self.selected];
            if index < self.entries.len() {
                return Some(&self.entries[index]);
            }
        }
        None
    }
}

/// What the filtered view is: an ascending list, without repeats, of exactly
/// the indices below `upto` whose entries pass the filter.
pub proof fn lemma_matching_exact(entries: Seq<EntryView>, query: Seq<char>, upto: nat)
    ensures
        matching(entries, query, upto).len() <= upto,
        forall|k: int|
            0 <= k < matching(entries, query, upto).len() ==> {
                &&& (#[trigger] matching(entries, query, upto)[k]) < upto
                &&& entry_matches(entries[matching(entries, query, upto)[k] as int], query)
            },
        forall|j: int, k: int|
            0 <= j < k < matching(entries, query, upto).len() ==> matching(entries, query, upto)[j]
                < matching(entries, query, upto)[k],
        forall|i: nat|
            i < upto && entry_matches(entries[i as int], query) ==> matching(
                entries,
                query,
                upto,
            ).contains(i),
    decreases upto,
{
    if upto > 0 {
        let before = matching(entries, query, (upto - 1) as nat);
        let now = matching(entries, query, upto);
        lemma_matching_exact(entries, query, (upto - 1) as nat);
        assert forall|i: nat|
            i < upto && entry_matches(entries[i as int], query) implies now.contains(i) by {
            if i < upto - 1 {
                assert(before.contains(i));
                let k = choose|k: int| 0 <= k < before.len() && before[k] == i;
                assert(now[k] == i);
            } else {
                assert(now[now.len() - 1] == i);
            }
        }
    }
}

/// With an empty filter text every entry below `upto` passes.
pub proof fn lemma_empty_filter_keeps_all(entries: Seq<EntryView>, upto: nat)
    ensures
        matching(entries, Seq::empty(), upto) == Seq::new(upto, |i: int| i as nat),
    decreases upto,
{
    if upto > 0 {
        lemma_empty_filter_keeps_all(entries, (upto - 1) as nat);
        let entry = entries[upto - 1];
        assert(crate::text::matches_at(entry.process_name, Seq::empty(), 0));
        assert(entry_matches(entry, Seq::empty()));
    }
    assert(matching(entries, Seq::empty(), upto) == Seq::new(upto, |i: int| i as nat));
}

/// With an empty filter text, applying the filter puts every index in the
/// view, in the order of the entries.
pub proof fn lemma_empty_filter_shows_all(s: SessionView)
    requires
        s.filter.len() == 0,
    ensures
        s.refiltered().filtered == Seq::new(s.entries.len(), |i: int| i as nat),
{
    assert(s.filter == Seq::<char>::empty());
    lemma_empty_filter_keeps_all(s.entries, s.entries.len());
}

/// Two filter texts that differ in the case of ASCII letters only give the
/// same filtered view.
pub proof fn lemma_filter_ignores_case(
    entries: Seq<EntryView>,
    query: Seq<char>,
    other: Seq<char>,
    upto: nat,
)
    requires
        same_but_case(query, other),
    ensures
        matching(entries, query, upto) == matching(entries, other, upto),
    decreases upto,
{
    if upto > 0 {
        lemma_filter_ignores_case(entries, query, other, (upto - 1) as nat);
        let entry = entries[upto - 1];
        lemma_search_ignores_case(entry.process_name, entry.process_name, query, other);
        lemma_search_ignores_case(
            decimal(entry.port as nat),
            decimal(entry.port as nat),
            query,
            other,
        );
        lemma_search_ignores_case(entry.command, entry.command, query, other);
    }
}

/// An entry is in view whenever the decimal text of its port contains the
/// filter text.
pub proof fn lemma_port_text_is_searched(entries: Seq<EntryView>, query: Seq<char>, i: nat)
    requires
        i < entries.len(),
        contains_ignore_case(decimal(entries[i as int].port as nat), query),
    ensures
        filtered_indices(entries, query).contains(i),
{
    lemma_matching_exact(entries, query, entries.len());
}

/// Applying the filter a second time changes nothing.
pub proof fn lemma_refilter_idempotent(s: SessionView)
    ensures
        s.refiltered().refiltered() == s.refiltered(),
{
}

/// A refresh derives the filtered view from the new entries and the filter
/// text the session had; neither the old entries nor the old view play a
/// part.
pub proof fn lemma_refresh_rederives(s: SessionView, t: SessionView, entries: Seq<EntryView>)
    requires
        s.filter == t.filter,
    ensures
        s.refreshed(entries).entries == entries,
        s.refreshed(entries).filter == s.filter,
        s.refreshed(entries).filtered == filtered_indices(entries, s.filter),
        s.refreshed(entries).filtered == t.refreshed(entries).filtered,
{
}

/// Once the filter left no entry, the selection is `0` and moving it
/// changes nothing.
pub proof fn lemma_empty_view_stops_navigation(s: SessionView, step: int)
    requires
        s.refiltered().filtered.len() == 0,
    ensures
        s.refiltered().selected == 0,
        s.refiltered().scroll_offset == 0,
        s.refiltered().selected_entry().is_none(),
        s.refiltered().moved(step) == s.refiltered(),
{
}

/// The session after the selection moved by each of `steps` in turn.
pub open spec fn moved_all(s: SessionView, steps: Seq<int>) -> SessionView
    decreases steps.len(),
{
    if steps.len() == 0 {
        s
    } else {
        moved_all(s, steps.drop_last()).moved(steps.last())
    }
}

/// Moving the selection touches the selection and the scroll window only.
pub proof fn lemma_moved_all_frame(s: SessionView, steps: Seq<int>)
    ensures
        moved_all(s, steps) == (SessionView {
            selected: moved_all(s, steps).selected,
            scroll_offset: moved_all(s, steps).scroll_offset,
            ..s
        }),
    decreases steps.len(),
{
    if steps.len() > 0 {
        lemma_moved_all_frame(s, steps.drop_last());
    }
}

/// In a view that is not empty and with at least one visible row, the
/// selected row is inside the scroll window after any run of moves; after
/// no move at all it is where it was.
pub proof fn lemma_moves_keep_selection_visible(s: SessionView, steps: Seq<int>)
    requires
        s.filtered.len() > 0,
        s.visible_rows > 0,
        steps.len() > 0 || s.selection_visible(),
    ensures
        moved_all(s, steps).selection_visible(),
        moved_all(s, steps).scroll_offset <= moved_all(s, steps).selected < moved_all(
            s,
            steps,
        ).scroll_offset + s.visible_rows,
        moved_all(s, steps).selected < s.filtered.len() || steps.len() == 0,
{
    if steps.len() > 0 {
        lemma_moved_all_frame(s, steps);
        lemma_moved_all_frame(s, steps.drop_last());
        let before = moved_all(s, steps.drop_last());
        lemma_mod_bound(before.selected + steps.last(), s.filtered.len() as int);
    }
}

/// The session after `n` moves of one row, forwards or backwards.
pub open spec fn moved_times(s: SessionView, forward: bool, n: nat) -> SessionView
    decreases n,
{
    if n == 0 {
        s
    } else {
        moved_times(s, forward, (n - 1) as nat).moved(
            if forward {
                1
            } else {
                -1
            },
        )
    }
}

/// Where the selection is after `n` moves of one row.
pub proof fn lemma_moved_times_selected(s: SessionView, forward: bool, n: nat)
    requires
        s.selected < s.filtered.len(),
    ensures
        moved_times(s, forward, n).filtered == s.filtered,
        moved_times(s, forward, n).selected == (if forward {
            cycle_forward(s.selected as int, s.filtered.len() as int, n)
        } else {
            cycle_backward(s.selected as int, s.filtered.len() as int, n)
        }),
        moved_times(s, forward, n).selected < s.filtered.len(),
    decreases n,
{
    if n > 0 {
        lemma_moved_times_selected(s, forward, (n - 1) as nat);
        let before = moved_times(s, forward, (n - 1) as nat);
        lemma_mod_bound(
            before.selected + (if forward {
                1int
            } else {
                -1int
            }),
            s.filtered.len() as int,
        );
    }
}

/// Moving forwards as many times as the view has rows returns to the row
/// the selection started from, and so does moving backwards as many times.
pub proof fn lemma_full_turn_returns(s: SessionView, forward: bool)
    requires
        s.selected < s.filtered.len(),
    ensures
        moved_times(s, forward, s.filtered.len()).selected == s.selected,
{
    lemma_moved_times_selected(s, forward, s.filtered.len());
    lemma_cycle_full_turn(s.selected as int, s.filtered.len() as int);
}

/// The initial session is well formed.
pub proof fn lemma_initial_wf(entries: Seq<EntryView>)
    ensures
        SessionView::initial(entries).wf(),
{
    lemma_empty_filter_keeps_all(entries, entries.len());
}

/// Applying the filter gives a well-formed session, whatever the selection,
/// the view and the layout were before.
pub proof fn lemma_refiltered_wf(s: SessionView)
    requires
        s.menu_in_range(),
    ensures
        s.refiltered().wf(),
        s.refiltered().filtered == filtered_indices(s.entries, s.filter),
{
    lemma_matching_exact(s.entries, s.filter, s.entries.len());
}

/// A refresh gives a well-formed session, whatever the entries are.
pub proof fn lemma_refreshed_wf(s: SessionView, entries: Seq<EntryView>)
    requires
        s.menu_in_range(),
    ensures
        s.refreshed(entries).wf(),
{
    lemma_refiltered_wf(SessionView { entries, ..s });
}

/// Moving the selection keeps a session well formed.
pub proof fn lemma_moved_wf(s: SessionView, step: int)
    requires
        s.wf(),
    ensures
        s.moved(step).wf(),
{
    if s.filtered.len() > 0 {
        lemma_mod_bound(s.selected + step, s.filtered.len() as int);
    }
}

} // verus!
