//! Sizing of the on-screen region and circular index stepping.

use vstd::arithmetic::div_mod::{
    lemma_add_mod_noop, lemma_mod_add_multiples_vanish, lemma_mod_self_0,
    lemma_mod_sub_multiples_vanish, lemma_small_mod, lemma_sub_mod_noop,
};
use vstd::prelude::*;

verus! {

/// `x` restricted to the range `lo ..= hi`.
pub open spec fn clamp(x: int, lo: int, hi: int) -> int {
    if x < lo {
        lo
    } else if x > hi {
        hi
    } else {
        x
    }
}

/// Most table rows a terminal of `terminal_rows` rows may show: half of the
/// terminal, but never fewer than 3 nor more than 20.
pub open spec fn max_table_rows(terminal_rows: int) -> int {
    clamp(terminal_rows / 2, 3, 20)
}

/// Rows the table takes for `entry_count` entries; one row is kept even for
/// an empty list.
pub open spec fn table_rows(terminal_rows: int, entry_count: int) -> int {
    clamp(entry_count, 1, max_table_rows(terminal_rows))
}

/// Height of the whole region: the table plus title, column header and
/// footer, cut to the terminal.
pub open spec fn region_height(terminal_rows: int, entry_count: int) -> int {
    let wanted = table_rows(terminal_rows, entry_count) + 3;
    if wanted <= terminal_rows {
        wanted
    } else {
        terminal_rows
    }
}

/// Rows left for entries once the three fixed lines are taken.
pub open spec fn visible_rows(terminal_rows: int, entry_count: int) -> int {
    let height = region_height(terminal_rows, entry_count);
    if height >= 3 {
        height - 3
    } else {
        0
    }
}

/// Computes `(region_height, visible_rows)` for a terminal of
/// `terminal_rows` rows showing `entry_count` entries.
pub fn compute_layout(terminal_rows: usize, entry_count: usize) -> (r: (usize, usize))
    ensures
        r.0 == region_height(terminal_rows as int, entry_count as int),
        r.1 == visible_rows(terminal_rows as int, entry_count as int),
{
    let half: usize = terminal_rows / 2;
    let max_table: usize = if half < 3 {
        3
    } else if half > 20 {
        20
    } else {
        half
    };
    let table: usize = if entry_count < 1 {
        1
    } else if entry_count > max_table {
        max_table
    } else {
        entry_count
    };
    let wanted: usize = table + 3;
    let height: usize = if wanted <= terminal_rows {
        wanted
    } else {
        terminal_rows
    };
    let visible: usize = if height >= 3 {
        height - 3
    } else {
        0
    };
    (height, visible)
}

/// The region never exceeds the terminal nor 23 rows; at most 20 rows are
/// visible, at least one in a terminal of four rows or more, and never more
/// than there are entries unless it is the one row kept for an empty list.
pub proof fn lemma_layout_bounds(terminal_rows: int, entry_count: int)
    requires
        0 <= terminal_rows,
        0 <= entry_count,
    ensures
        0 <= region_height(terminal_rows, entry_count) <= terminal_rows,
        region_height(terminal_rows, entry_count) <= 23,
        0 <= visible_rows(terminal_rows, entry_count) <= 20,
        terminal_rows >= 4 ==> visible_rows(terminal_rows, entry_count) >= 1,
        visible_rows(terminal_rows, entry_count) <= entry_count || visible_rows(
            terminal_rows,
            entry_count,
        ) <= 1,
{
}

/// Index reached from `current` by `step` positions on a ring of `len`
/// slots; `0` on an empty ring.
pub open spec fn cycle(current: int, len: int, step: int) -> int {
    if len <= 0 {
        0
    } else {
        (current + step) % len
    }
}

/// Steps `current` by `step` (forwards when positive, backwards when
/// negative) on a ring of `len` slots, wrapping at both ends.
pub fn cycle_index(current: usize, len: usize, step: isize) -> (r: usize)
    ensures
        r == cycle(current as int, len as int, step as int),
        len > 0 ==> r < len,
{
    if len == 0 {
        return 0;
    }
    let base: usize = current % len;
    if step >= 0 {
        let ahead: usize = (step as usize) % len;
        proof {
            lemma_add_mod_noop(current as int, step as int, len as int);
            if base + ahead < len {
                lemma_small_mod((base + ahead) as nat, len as nat);
            } else {
                lemma_mod_sub_multiples_vanish((base + ahead) as int, len as int);
                lemma_small_mod((base + ahead - len) as nat, len as nat);
            }
        }
        if ahead > 0 && base >= len - ahead {
            base - (len - ahead)
        } else {
            base + ahead
        }
    } else {
        let distance: usize = (-(step + 1)) as usize + 1;
        let back: usize = distance % len;
        proof {
            lemma_sub_mod_noop(current as int, distance as int, len as int);
            if base >= back {
                lemma_small_mod((base - back) as nat, len as nat);
            } else {
                lemma_mod_add_multiples_vanish((base - back) as int, len as int);
                lemma_small_mod((base - back + len) as nat, len as nat);
            }
        }
        if base >= back {
            base - back
        } else {
            len - (back - base)
        }
    }
}

/// `n` steps of `+1` from `current` on a ring of `len` slots.
pub open spec fn cycle_forward(current: int, len: int, n: nat) -> int
    decreases n,
{
    if n == 0 {
        current
    } else {
        cycle(cycle_forward(current, len, (n - 1) as nat), len, 1)
    }
}

/// `n` steps of `-1` from `current` on a ring of `len` slots.
pub open spec fn cycle_backward(current: int, len: int, n: nat) -> int
    decreases n,
{
    if n == 0 {
        current
    } else {
        cycle(cycle_backward(current, len, (n - 1) as nat), len, -1)
    }
}

/// After `n` single steps the index has moved by `n` modulo `len`, in either
/// direction.
pub proof fn lemma_cycle_steps(current: int, len: int, n: nat)
    requires
        0 <= current < len,
    ensures
        cycle_forward(current, len, n) == (current + n) % len,
        cycle_backward(current, len, n) == (current - n) % len,
    decreases n,
{
    if n == 0 {
        lemma_small_mod(current as nat, len as nat);
    } else {
        lemma_cycle_steps(current, len, (n - 1) as nat);
        lemma_add_mod_noop(current + n - 1, 1, len);
        lemma_sub_mod_noop(current - (n - 1), 1, len);
        if len > 1 {
            lemma_small_mod(1nat, len as nat);
        }
    }
}

/// Stepping forwards `len` times, or backwards `len` times, on a ring of
/// `len` slots returns to the starting index.
pub proof fn lemma_cycle_full_turn(current: int, len: int)
    requires
        0 <= current < len,
    ensures
        cycle_forward(current, len, len as nat) == current,
        cycle_backward(current, len, len as nat) == current,
{
    lemma_cycle_steps(current, len, len as nat);
    lemma_add_mod_noop(current, len, len);
    lemma_sub_mod_noop(current, len, len);
    lemma_small_mod(current as nat, len as nat);
    lemma_mod_self_0(len);
}

} // verus!
