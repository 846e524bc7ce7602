//! Records of listening sockets.

use crate::text::{
    char_is_space, chars_of, contains_chars, contains_ignore_case, decimal, decimal_chars,
    is_space, lines, option_text, parse_number, parse_unsigned, push_char, push_chars, skip_spaces,
    split_into_lines, split_whitespace, string_of, trim_start, views, words,
};
use vstd::prelude::*;

verus! {

/// One listening socket, as it was when the list was fetched.
#[derive(Debug)]
pub struct PortEntry {
    /// Identifier of the process that holds the socket.
    pub pid: u32,
    /// Display name of that process.
    pub process_name: String,
    /// Port the socket listens on.
    pub port: u16,
    /// Address the socket is bound to: a dotted address, `*`, or an IPv6
    /// literal without its brackets.
    pub address: String,
    /// Command line of the process; empty while unknown.
    pub command: String,
}

/// A `PortEntry` with its texts as character sequences.
pub struct EntryView {
    pub pid: u32,
    pub process_name: Seq<char>,
    pub port: u16,
    pub address: Seq<char>,
    pub command: Seq<char>,
}

impl View for PortEntry {
    type V = EntryView;

    open spec fn view(&self) -> EntryView {
        EntryView {
            pid: self.pid,
            process_name: self.process_name@,
            port: self.port,
            address: self.address@,
            command: self.command@,
        }
    }
}

/// The views of the entries of `v`, in order.
pub open spec fn entry_views(v: Seq<PortEntry>) -> Seq<EntryView> {
    Seq::new(v.len(), |i: int| v[i]@)
}

/// Whether `entry` passes the filter `query`: its process name, the decimal
/// text of its port, or its command line contains `query`, ignoring ASCII
/// case. The bound address is not searched.
pub open spec fn entry_matches(entry: EntryView, query: Seq<char>) -> bool {
    ||| contains_ignore_case(entry.process_name, query)
    ||| contains_ignore_case(decimal(entry.port as nat), query)
    ||| contains_ignore_case(entry.command, query)
}

/// Whether `entry` passes the filter whose characters are `query`.
pub fn entry_matches_chars(entry: &PortEntry, query: &Vec<char>) -> (r: bool)
    ensures
        r == entry_matches(entry@, query@),
{
    let name = chars_of(entry.process_name.as_str());
    if contains_chars(&name, query) {
        return true;
    }
    let port = decimal_chars(entry.port as usize);
    if contains_chars(&port, query) {
        return true;
    }
    let command = chars_of(entry.command.as_str());
    contains_chars(&command, query)
}

/// Whether `entry` passes the filter `query`.
pub fn entry_matches_query(entry: &PortEntry, query: &str) -> (r: bool)
    ensures
        r == entry_matches(entry@, query@),
{
    let pattern = chars_of(query);
    entry_matches_chars(entry, &pattern)
}

/// Position of the last `c` in `s`.
pub open spec fn rfind_char(s: Seq<char>, c: char) -> Option<int>
    decreases s.len(),
{
    if s.len() == 0 {
        None
    } else if s.last() == c {
        Some(s.len() - 1)
    } else {
        rfind_char(s.drop_last(), c)
    }
}

/// Position of the last `a` that is directly followed by `b` in `s`.
pub open spec fn rfind_pair(s: Seq<char>, a: char, b: char) -> Option<int>
    decreases s.len(),
{
    if s.len() < 2 {
        None
    } else if s[s.len() - 2] == a && s.last() == b {
        Some(s.len() - 2)
    } else {
        rfind_pair(s.drop_last(), a, b)
    }
}

/// What `rfind_char` finds is the last `c` of `s`, and it finds none only
/// where `s` has none.
pub proof fn lemma_rfind_char(s: Seq<char>, c: char)
    ensures
        match rfind_char(s, c) {
            Some(i) => 0 <= i < s.len() && s[i] == c && forall|j: int|
                i < j < s.len() ==> s[j] != c,
            None => forall|j: int| 0 <= j < s.len() ==> s[j] != c,
        },
    decreases s.len(),
{
    if s.len() > 0 && s.last() != c {
        let front = s.drop_last();
        lemma_rfind_char(front, c);
        assert forall|j: int| 0 <= j < front.len() implies front[j] == s[j] by {}
        match rfind_char(front, c) {
            Some(i) => {
                assert forall|j: int| i < j < s.len() implies s[j] != c by {
                    if j < front.len() {
                        assert(front[j] != c);
                    }
                }
            },
            None => {
                assert forall|j: int| 0 <= j < s.len() implies s[j] != c by {
                    if j < front.len() {
                        assert(front[j] != c);
                    }
                }
            },
        }
    }
}

fn last_char(v: &Vec<char>, c: char) -> (r: Option<usize>)
    ensures
        match r {
            Some(i) => rfind_char(v@, c) == Some(i as int) && i < v.len(),
            None => rfind_char(v@, c).is_none(),
        },
{
    let mut i: usize = v.len();
    assert(v@.take(i as int) == v@);
    while i > 0
        invariant
            i <= v.len(),
            rfind_char(v@, c) == rfind_char(v@.take(i as int), c),
        decreases i,
    {
        if v[i - 1] == c {
            return Some(i - 1);
        }
        assert(v@.take(i as int).drop_last() == v@.take(i - 1));
        i = i - 1;
    }
    None
}

fn last_pair(v: &Vec<char>, a: char, b: char) -> (r: Option<usize>)
    ensures
        match r {
            Some(i) => rfind_pair(v@, a, b) == Some(i as int) && i + 1 < v.len(),
            None => rfind_pair(v@, a, b).is_none(),
        },
{
    let mut i: usize = v.len();
    assert(v@.take(i as int) == v@);
    while i >= 2
        invariant
            i <= v.len(),
            rfind_pair(v@, a, b) == rfind_pair(v@.take(i as int), a, b),
        decreases i,
    {
        if v[i - 2] == a && v[i - 1] == b {
            return Some(i - 2);
        }
        assert(v@.take(i as int).drop_last() == v@.take(i - 1));
        i = i - 1;
    }
    None
}

/// The address and the port that `s` names.
///
/// `s` is either `[address]:port`, an IPv6 literal in brackets, cut at its
/// last `]:`, or `address:port`, cut at its last colon. The port is an
/// unsigned decimal number of at most 65535. Anything else names nothing.
pub open spec fn addr_port(s: Seq<char>) -> Option<(Seq<char>, u16)> {
    if s.len() > 0 && s[0] == '[' && rfind_pair(s, ']', ':').is_some() {
        let close = rfind_pair(s, ']', ':').unwrap();
        match parse_unsigned(s.subrange(close + 2, s.len() as int), 65535) {
            Some(port) => Some((s.subrange(1, close), port as u16)),
            None => None,
        }
    } else {
        match rfind_char(s, ':') {
            Some(colon) => match parse_unsigned(s.subrange(colon + 1, s.len() as int), 65535) {
                Some(port) => Some((s.subrange(0, colon), port as u16)),
                None => None,
            },
            None => None,
        }
    }
}

/// An optional address and port with the address as a character sequence.
pub open spec fn addr_port_view(r: Option<(String, u16)>) -> Option<(Seq<char>, u16)> {
    match r {
        Some((addr, port)) => Some((addr@, port)),
        None => None,
    }
}

fn parse_addr_port_chars(v: &Vec<char>) -> (r: Option<(String, u16)>)
    ensures
        addr_port_view(r) == addr_port(v@),
{
    if v.len() > 0 && v[0] == '[' {
        if let Some(close) = last_pair(v, ']', ':') {
            proof {
                lemma_rfind_pair_bounds(v@, ']', ':');
            }
            return match parse_number(v, close + 2, v.len(), 65535) {
                Some(port) => Some((string_of(v, 1, close), port as u16)),
                None => None,
            };
        }
    }
    match last_char(v, ':') {
        Some(colon) => match parse_number(v, colon + 1, v.len(), 65535) {
            Some(port) => Some((string_of(v, 0, colon), port as u16)),
            None => None,
        },
        None => None,
    }
}

/// A pair found by `rfind_pair` lies within `s`, and not at its start
/// where `s` starts with another character.
pub proof fn lemma_rfind_pair_bounds(s: Seq<char>, a: char, b: char)
    ensures
        match rfind_pair(s, a, b) {
            Some(i) => 0 <= i && i + 2 <= s.len() && s[i] == a && s[i + 1] == b,
            None => true,
        },
    decreases s.len(),
{
    if s.len() >= 2 && !(s[s.len() - 2] == a && s.last() == b) {
        lemma_rfind_pair_bounds(s.drop_last(), a, b);
    }
}

/// Reads `address:port` or `[address]:port`.
pub fn parse_addr_port(s: &str) -> (r: Option<(String, u16)>)
    ensures
        addr_port_view(r) == addr_port(s@),
{
    let v = chars_of(s);
    parse_addr_port_chars(&v)
}

/// Fewest fields a line must have to describe a socket.
pub const MIN_FIELDS: usize = 10;

/// The entry that one line of the socket listing describes.
///
/// The line is split into fields at white space. It describes an entry if
/// it has at least `MIN_FIELDS` fields, its second field is a process
/// identifier (an unsigned decimal number that fits 32 bits) and its last
/// field but one names an address and a port. The first field is the
/// process name. The command is left empty.
pub open spec fn lsof_entry(line: Seq<char>) -> Option<EntryView> {
    let fields = words(line);
    if fields.len() < MIN_FIELDS {
        None
    } else {
        match parse_unsigned(fields[1], u32::MAX as nat) {
            None => None,
            Some(pid) => match addr_port(fields[fields.len() - 2]) {
                None => None,
                Some((address, port)) => Some(
                    EntryView {
                        pid: pid as u32,
                        process_name: fields[0],
                        port,
                        address,
                        command: Seq::empty(),
                    },
                ),
            },
        }
    }
}

/// The view of an optional entry.
pub open spec fn entry_option_view(r: Option<PortEntry>) -> Option<EntryView> {
    match r {
        Some(entry) => Some(entry@),
        None => None,
    }
}

fn parse_lsof_chars(line: &Vec<char>) -> (r: Option<PortEntry>)
    ensures
        entry_option_view(r) == lsof_entry(line@),
{
    let fields = split_whitespace(line, 0, line.len());
    assert(line@.subrange(0, line@.len() as int) == line@);
    if fields.len() < MIN_FIELDS {
        return None;
    }
    assert(views(fields@)[0] == fields@[0]@);
    assert(views(fields@)[1] == fields@[1]@);
    assert(views(fields@)[fields@.len() - 2] == fields@[fields@.len() - 2]@);
    let name = &fields[0];
    let pid_text = &fields[1];
    assert(pid_text@.subrange(0, pid_text@.len() as int) == pid_text@);
    assert(name@.subrange(0, name@.len() as int) == name@);
    let pid: u32 = match parse_number(pid_text, 0, pid_text.len(), u32::MAX) {
        Some(pid) => pid,
        None => {
            return None;
        },
    };
    match parse_addr_port_chars(&fields[fields.len() - 2]) {
        Some((address, port)) => Some(
            PortEntry {
                pid,
                process_name: string_of(name, 0, name.len()),
                port,
                address,
                command: String::new(),
            },
        ),
        None => None,
    }
}

/// Reads one line of the socket listing.
pub fn parse_lsof_line(line: &str) -> (r: Option<PortEntry>)
    ensures
        entry_option_view(r) == lsof_entry(line@),
{
    let v = chars_of(line);
    parse_lsof_chars(&v)
}

/// Whether `a` comes before `b` in a listing: by port, and among equal
/// ports by process identifier.
pub open spec fn key_less(a: EntryView, b: EntryView) -> bool {
    a.port < b.port || (a.port == b.port && a.pid < b.pid)
}

/// Whether `a` and `b` are the same socket of the same process.
pub open spec fn same_key(a: EntryView, b: EntryView) -> bool {
    a.port == b.port && a.pid == b.pid
}

/// Whether `list` is in listing order, no two entries being the same
/// socket of the same process.
pub open spec fn in_listing_order(list: Seq<EntryView>) -> bool {
    forall|i: int, j: int| 0 <= i < j < list.len() ==> key_less(list[i], list[j])
}

/// First position at or after `from` whose entry does not come before `e`.
pub open spec fn insert_pos(list: Seq<EntryView>, e: EntryView, from: nat) -> nat
    decreases list.len() - from,
{
    if from >= list.len() || !key_less(list[from as int], e) {
        from
    } else {
        insert_pos(list, e, from + 1)
    }
}

/// `list` with `e` put in its place; `list` itself if it already holds the
/// same socket of the same process.
pub open spec fn placed(list: Seq<EntryView>, e: EntryView) -> Seq<EntryView> {
    let at = insert_pos(list, e, 0);
    if at < list.len() && same_key(list[at as int], e) {
        list
    } else {
        list.insert(at as int, e)
    }
}

/// The first `upto` of `found`, each put in its place in turn.
pub open spec fn placed_all(found: Seq<EntryView>, upto: nat) -> Seq<EntryView>
    decreases upto,
{
    if upto == 0 {
        Seq::empty()
    } else {
        placed(placed_all(found, (upto - 1) as nat), found[upto - 1])
    }
}

/// The entries that the first `upto` of `rows` describe, in their order;
/// rows that describe none are passed over.
pub open spec fn parsed(rows: Seq<Seq<char>>, upto: nat) -> Seq<EntryView>
    decreases upto,
{
    if upto == 0 {
        Seq::empty()
    } else {
        let before = parsed(rows, (upto - 1) as nat);
        match lsof_entry(rows[upto - 1]) {
            Some(e) => before.push(e),
            None => before,
        }
    }
}

/// The rows of a socket listing: its lines but the first, which names the
/// columns.
pub open spec fn listing_rows(output: Seq<char>) -> Seq<Seq<char>> {
    if lines(output).len() == 0 {
        Seq::empty()
    } else {
        lines(output).skip(1)
    }
}

/// The entries of a socket listing: what its rows describe, each socket of
/// each process once (the first row that describes it), ordered by port
/// and among equal ports by process identifier.
pub open spec fn listing(output: Seq<char>) -> Seq<EntryView> {
    let found = parsed(listing_rows(output), listing_rows(output).len());
    placed_all(found, found.len())
}

/// Where `e` is put, every entry before comes before `e` and no entry
/// from there on does.
pub proof fn lemma_insert_pos(list: Seq<EntryView>, e: EntryView, from: nat)
    requires
        from <= list.len(),
        in_listing_order(list),
    ensures
        from <= insert_pos(list, e, from) <= list.len(),
        forall|k: int| from <= k < insert_pos(list, e, from) ==> key_less(list[k], e),
        forall|k: int|
            insert_pos(list, e, from) <= k < list.len() ==> !key_less(#[trigger] list[k], e),
    decreases list.len() - from,
{
    if from < list.len() && key_less(list[from as int], e) {
        lemma_insert_pos(list, e, from + 1);
    } else {
        assert forall|k: int| from <= k < list.len() implies !key_less(#[trigger] list[k], e) by {
            if k > from {
                assert(key_less(list[from as int], list[k]));
            }
        }
    }
}

/// Where `e` is put lies within the list.
pub proof fn lemma_insert_pos_bound(list: Seq<EntryView>, e: EntryView, from: nat)
    requires
        from <= list.len(),
    ensures
        from <= insert_pos(list, e, from) <= list.len(),
    decreases list.len() - from,
{
    if from < list.len() && key_less(list[from as int], e) {
        lemma_insert_pos_bound(list, e, from + 1);
    }
}

/// Whether `list` holds the socket of `e`.
pub open spec fn holds_key(list: Seq<EntryView>, e: EntryView) -> bool {
    exists|k: int| 0 <= k < list.len() && same_key(#[trigger] list[k], e)
}

/// Putting an entry in its place keeps a listing in order.
pub proof fn lemma_placed_ordered(list: Seq<EntryView>, e: EntryView)
    requires
        in_listing_order(list),
    ensures
        in_listing_order(placed(list, e)),
{
    lemma_insert_pos(list, e, 0);
    let at = insert_pos(list, e, 0) as int;
    let next = placed(list, e);
    if !(at < list.len() && same_key(list[at], e)) {
        assert forall|i: int, j: int| 0 <= i < j < next.len() implies key_less(
            next[i],
            next[j],
        ) by {
            if j < at {
                assert(next[i] == list[i] && next[j] == list[j]);
            } else if j == at {
                assert(next[i] == list[i]);
                assert(key_less(list[i], e));
            } else if i == at {
                assert(next[i] == e);
                assert(next[j] == list[j - 1]);
                assert(!key_less(list[j - 1], e));
                if j - 1 > at {
                    assert(key_less(list[at], list[j - 1]));
                    assert(!key_less(list[at], e));
                }
            } else if i < at {
                assert(next[i] == list[i] && next[j] == list[j - 1]);
                if i < j - 1 {
                    assert(key_less(list[i], list[j - 1]));
                }
            } else {
                assert(next[i] == list[i - 1] && next[j] == list[j - 1]);
                assert(key_less(list[i - 1], list[j - 1]));
            }
        }
    }
}

/// Putting an entry in its place makes a listing hold the entry's socket,
/// and loses no entry.
pub proof fn lemma_placed_keeps(list: Seq<EntryView>, e: EntryView)
    ensures
        holds_key(placed(list, e), e),
        forall|i: int| 0 <= i < list.len() ==> placed(list, e).contains(#[trigger] list[i]),
{
    lemma_insert_pos_bound(list, e, 0);
    let at = insert_pos(list, e, 0) as int;
    let next = placed(list, e);
    if at < list.len() && same_key(list[at], e) {
        assert(same_key(next[at], e));
    } else {
        assert(next[at] == e);
        assert(same_key(next[at], e));
        assert forall|i: int| 0 <= i < list.len() implies next.contains(#[trigger] list[i]) by {
            if i < at {
                assert(next[i] == list[i]);
            } else {
                assert(next[i + 1] == list[i]);
            }
        }
    }
}

/// Putting an entry in its place adds no other entry.
pub proof fn lemma_placed_adds_one(list: Seq<EntryView>, e: EntryView)
    ensures
        forall|k: int|
            0 <= k < placed(list, e).len() ==> (#[trigger] placed(list, e)[k]) == e
                || list.contains(placed(list, e)[k]),
{
    lemma_insert_pos_bound(list, e, 0);
    let at = insert_pos(list, e, 0) as int;
    let next = placed(list, e);
    if !(at < list.len() && same_key(list[at], e)) {
        assert forall|k: int| 0 <= k < next.len() implies (#[trigger] next[k]) == e
            || list.contains(next[k]) by {
            if k < at {
                assert(list[k] == next[k]);
            } else if k > at {
                assert(list[k - 1] == next[k]);
            }
        }
    }
}

/// A listing is in order: ascending by port, and among equal ports by
/// process identifier, so that no socket of a process occurs twice.
pub proof fn lemma_listing_ordered(found: Seq<EntryView>, upto: nat)
    requires
        upto <= found.len(),
    ensures
        in_listing_order(placed_all(found, upto)),
    decreases upto,
{
    if upto > 0 {
        lemma_listing_ordered(found, (upto - 1) as nat);
        lemma_placed_ordered(placed_all(found, (upto - 1) as nat), found[upto - 1]);
    }
}

/// A listing holds the socket of every entry that went into it.
pub proof fn lemma_listing_holds_all(found: Seq<EntryView>, upto: nat, i: int)
    requires
        0 <= i < upto <= found.len(),
    ensures
        holds_key(placed_all(found, upto), found[i]),
    decreases upto,
{
    let now = placed_all(found, upto);
    let before = placed_all(found, (upto - 1) as nat);
    lemma_placed_keeps(before, found[upto - 1]);
    if i < upto - 1 {
        lemma_listing_holds_all(found, (upto - 1) as nat, i);
        let kb = choose|kb: int|
            0 <= kb < before.len() && same_key(#[trigger] before[kb], found[i]);
        assert(now.contains(before[kb]));
        let k = choose|k: int| 0 <= k < now.len() && now[k] == before[kb];
        assert(same_key(now[k], found[i]));
    }
}

/// A listing holds no entry but those that went into it.
pub proof fn lemma_listing_holds_only(found: Seq<EntryView>, upto: nat, k: int)
    requires
        upto <= found.len(),
        0 <= k < placed_all(found, upto).len(),
    ensures
        exists|i: int| 0 <= i < upto && #[trigger] found[i] == placed_all(found, upto)[k],
    decreases upto,
{
    let now = placed_all(found, upto);
    if upto > 0 {
        let before = placed_all(found, (upto - 1) as nat);
        lemma_placed_adds_one(before, found[upto - 1]);
        if now[k] == found[upto - 1] {
        } else {
            assert(before.contains(now[k]));
            let kb = choose|kb: int| 0 <= kb < before.len() && before[kb] == now[k];
            lemma_listing_holds_only(found, (upto - 1) as nat, kb);
            let i = choose|i: int| 0 <= i < upto - 1 && #[trigger] found[i] == before[kb];
            assert(found[i] == now[k]);
        }
    }
}

/// The entries of a socket listing are ascending by port and, among equal
/// ports, by process identifier: no socket of a process occurs twice.
pub proof fn lemma_listing_sorted(output: Seq<char>, i: int, j: int)
    requires
        0 <= i < j < listing(output).len(),
    ensures
        listing(output)[i].port <= listing(output)[j].port,
        !same_key(listing(output)[i], listing(output)[j]),
        key_less(listing(output)[i], listing(output)[j]),
{
    let found = parsed(listing_rows(output), listing_rows(output).len());
    let list = placed_all(found, found.len());
    lemma_listing_ordered(found, found.len());
    assert(key_less(list[i], list[j]));
}

/// Every socket that a row of a socket listing describes is among the
/// entries of the listing.
pub proof fn lemma_listing_complete(output: Seq<char>, i: int)
    requires
        0 <= i < listing_rows(output).len(),
        lsof_entry(listing_rows(output)[i]).is_some(),
    ensures
        holds_key(listing(output), lsof_entry(listing_rows(output)[i]).unwrap()),
{
    let rows = listing_rows(output);
    let found = parsed(rows, rows.len());
    lemma_parsed_holds(rows, rows.len(), i);
    let at = choose|at: int|
        0 <= at < found.len() && #[trigger] found[at] == lsof_entry(rows[i]).unwrap();
    lemma_listing_holds_all(found, found.len(), at);
}

/// Each entry of a socket listing is what one of its rows describes.
pub proof fn lemma_listing_sound(output: Seq<char>, k: int)
    requires
        0 <= k < listing(output).len(),
    ensures
        exists|i: int|
            0 <= i < listing_rows(output).len() && lsof_entry(#[trigger] listing_rows(output)[i])
                == Some(listing(output)[k]),
{
    let rows = listing_rows(output);
    let found = parsed(rows, rows.len());
    lemma_listing_holds_only(found, found.len(), k);
    let at = choose|at: int| 0 <= at < found.len() && #[trigger] found[at] == listing(output)[k];
    lemma_parsed_only(rows, rows.len(), at);
    let i = choose|i: int| 0 <= i < rows.len() && lsof_entry(#[trigger] rows[i]) == Some(found[at]);
    assert(lsof_entry(rows[i]) == Some(listing(output)[k]));
}

/// What a row describes is among the entries read from the rows.
pub proof fn lemma_parsed_holds(rows: Seq<Seq<char>>, upto: nat, i: int)
    requires
        0 <= i < upto <= rows.len(),
        lsof_entry(rows[i]).is_some(),
    ensures
        exists|at: int|
            0 <= at < parsed(rows, upto).len() && #[trigger] parsed(rows, upto)[at] == lsof_entry(
                rows[i],
            ).unwrap(),
    decreases upto,
{
    let now = parsed(rows, upto);
    let before = parsed(rows, (upto - 1) as nat);
    if i < upto - 1 {
        lemma_parsed_holds(rows, (upto - 1) as nat, i);
        let at = choose|at: int|
            0 <= at < before.len() && #[trigger] before[at] == lsof_entry(rows[i]).unwrap();
        assert(now[at] == before[at]);
    } else {
        assert(now[now.len() - 1] == lsof_entry(rows[i]).unwrap());
    }
}

/// Each entry read from the rows is what one of the rows describes.
pub proof fn lemma_parsed_only(rows: Seq<Seq<char>>, upto: nat, at: int)
    requires
        upto <= rows.len(),
        0 <= at < parsed(rows, upto).len(),
    ensures
        exists|i: int|
            0 <= i < upto && lsof_entry(#[trigger] rows[i]) == Some(parsed(rows, upto)[at]),
    decreases upto,
{
    if upto > 0 {
        let before = parsed(rows, (upto - 1) as nat);
        if at < before.len() {
            lemma_parsed_only(rows, (upto - 1) as nat, at);
            let i = choose|i: int|
                0 <= i < upto - 1 && lsof_entry(#[trigger] rows[i]) == Some(before[at]);
            assert(lsof_entry(rows[i]) == Some(parsed(rows, upto)[at]));
        } else {
            assert(lsof_entry(rows[upto - 1]) == Some(parsed(rows, upto)[at]));
        }
    }
}

fn comes_before(a: &PortEntry, b: &PortEntry) -> (r: bool)
    ensures
        r == key_less(a@, b@),
{
    a.port < b.port || (a.port == b.port && a.pid < b.pid)
}

fn place(list: &mut Vec<PortEntry>, entry: PortEntry)
    ensures
        entry_views(final(list)@) == placed(entry_views(old(list)@), entry@),
{
    let ghost before = entry_views(list@);
    let mut at: usize = 0;
    while at < list.len() && comes_before(&list[at], &entry)
        invariant
            at <= list.len(),
            *list == *old(list),
            insert_pos(before, entry@, 0) == insert_pos(before, entry@, at as nat),
            before == entry_views(list@),
        decreases list.len() - at,
    {
        assert(before[at as int] == list@[at as int]@);
        at = at + 1;
    }
    if at < list.len() {
        assert(before[at as int] == list@[at as int]@);
        if list[at].port == entry.port && list[at].pid == entry.pid {
            return ;
        }
    }
    list.insert(at, entry);
    assert(entry_views(list@) =~= before.insert(at as int, entry@));
}

/// Putting the first `upto` entries in place does not look at the others.
pub proof fn lemma_placed_all_prefix(a: Seq<EntryView>, b: Seq<EntryView>, upto: nat)
    requires
        upto <= a.len(),
        upto <= b.len(),
        forall|i: int| 0 <= i < upto ==> a[i] == b[i],
    ensures
        placed_all(a, upto) == placed_all(b, upto),
    decreases upto,
{
    if upto > 0 {
        lemma_placed_all_prefix(a, b, (upto - 1) as nat);
    }
}

/// Reads a socket listing: every row that describes an entry, each socket
/// of each process once, ordered by port and then by process identifier.
pub fn parse_listing(output: &str) -> (r: Vec<PortEntry>)
    ensures
        entry_views(r@) == listing(output@),
{
    let text = chars_of(output);
    let rows = split_into_lines(&text);
    let mut list: Vec<PortEntry> = Vec::new();
    if rows.len() == 0 {
        assert(entry_views(list@) =~= listing(output@));
        return list;
    }
    let ghost body = listing_rows(output@);
    let mut i: usize = 1;
    assert(entry_views(list@) =~= placed_all(parsed(body, 0), 0));
    while i < rows.len()
        invariant
            1 <= i <= rows.len(),
            views(rows@) == lines(output@),
            body == lines(output@).skip(1),
            entry_views(list@) == placed_all(
                parsed(body, (i - 1) as nat),
                parsed(body, (i - 1) as nat).len(),
            ),
        decreases rows.len() - i,
    {
        let ghost found = parsed(body, (i - 1) as nat);
        assert(body[i - 1] == views(rows@)[i as int]);
        match parse_lsof_chars(&rows[i]) {
            Some(entry) => {
                proof {
                    lemma_placed_all_prefix(found, found.push(entry@), found.len());
                }
                place(&mut list, entry);
            },
            None => {},
        }
        i = i + 1;
    }
    list
}

/// The process identifiers of the first `upto` entries, in decimal,
/// separated by commas.
pub open spec fn joined_pids(entries: Seq<EntryView>, upto: nat) -> Seq<char>
    decreases upto,
{
    if upto == 0 {
        Seq::empty()
    } else if upto == 1 {
        decimal(entries[0].pid as nat)
    } else {
        joined_pids(entries, (upto - 1) as nat) + seq![','] + decimal(entries[upto - 1].pid as nat)
    }
}

/// The process identifiers of `entries`, in decimal, separated by commas:
/// the processes whose command lines are to be asked for.
pub fn pid_list(entries: &Vec<PortEntry>) -> (r: String)
    ensures
        r@ == joined_pids(entry_views(entries@), entries@.len()),
{
    let mut r = String::new();
    let mut i: usize = 0;
    while i < entries.len()
        invariant
            i <= entries.len(),
            r@ == joined_pids(entry_views(entries@), i as nat),
        decreases entries.len() - i,
    {
        let ghost before = r@;
        if i > 0 {
            push_char(&mut r, ',');
        }
        let digits = decimal_chars(entries[i].pid as usize);
        push_chars(&mut r, &digits, 0, digits.len());
        assert(digits@.subrange(0, digits@.len() as int) == digits@);
        assert(entry_views(entries@)[i as int] == entries@[i as int]@);
        i = i + 1;
        assert(r@ =~= joined_pids(entry_views(entries@), i as nat));
    }
    r
}

/// Whether `s` begins with `prefix`.
pub open spec fn starts_with(s: Seq<char>, prefix: Seq<char>) -> bool {
    prefix.len() <= s.len() && s.subrange(0, prefix.len() as int) == prefix
}

/// The command line that `line` of a process listing gives for process
/// `pid`: `line` is, after any white space, the decimal identifier, then
/// white space, then the command line.
pub open spec fn command_in(line: Seq<char>, pid: u32) -> Option<Seq<char>> {
    let rest = trim_start(line);
    let id = decimal(pid as nat);
    if starts_with(rest, id) && rest.len() > id.len() && is_space(rest[id.len() as int]) {
        Some(trim_start(rest.skip(id.len() as int)))
    } else {
        None
    }
}

/// The command line that the first of `rows`, from row `from` on, gives
/// for process `pid`.
pub open spec fn command_of(rows: Seq<Seq<char>>, pid: u32, from: nat) -> Option<Seq<char>>
    decreases rows.len() - from,
{
    if from >= rows.len() {
        None
    } else {
        match command_in(rows[from as int], pid) {
            Some(command) => Some(command),
            None => command_of(rows, pid, from + 1),
        }
    }
}

/// `entry` with the command line that `rows` give for its process; `entry`
/// itself where they give none.
pub open spec fn with_command(entry: EntryView, rows: Seq<Seq<char>>) -> EntryView {
    match command_of(rows, entry.pid, 0) {
        Some(command) => EntryView { command, ..entry },
        None => entry,
    }
}

/// `entries`, each with the command line that the process listing `output`
/// gives for its process.
pub open spec fn with_commands(entries: Seq<EntryView>, output: Seq<char>) -> Seq<EntryView> {
    Seq::new(entries.len(), |i: int| with_command(entries[i], lines(output)))
}

fn command_in_line(line: &Vec<char>, id: &Vec<char>, pid: u32) -> (r: Option<String>)
    requires
        id@ == decimal(pid as nat),
    ensures
        option_text(r) == command_in(line@, pid),
{
    let len: usize = line.len();
    let start: usize = skip_spaces(line, 0, len);
    assert(line@.subrange(0, len as int) == line@);
    let ghost rest = trim_start(line@);
    assert(rest == line@.subrange(start as int, len as int));
    if id.len() >= len - start {
        return None;
    }
    let mut k: usize = 0;
    while k < id.len()
        invariant
            k <= id.len(),
            start + id.len() < len,
            len == line.len(),
            rest == line@.subrange(start as int, len as int),
            rest == trim_start(line@),
            id@ == decimal(pid as nat),
            rest.subrange(0, k as int) == id@.subrange(0, k as int),
        decreases id.len() - k,
    {
        if line[start + k] != id[k] {
            assert(rest.subrange(0, id@.len() as int)[k as int] != id@[k as int]);
            return None;
        }
        k = k + 1;
        assert(rest.subrange(0, k as int) =~= id@.subrange(0, k as int)) by {
            assert(rest.subrange(0, k - 1) == id@.subrange(0, k - 1));
            assert forall|j: int| 0 <= j < k implies rest.subrange(0, k as int)[j] == id@.subrange(
                0,
                k as int,
            )[j] by {
                if j < k - 1 {
                    assert(rest.subrange(0, k - 1)[j] == id@.subrange(0, k - 1)[j]);
                }
            }
        }
    }
    assert(id@.subrange(0, id@.len() as int) == id@);
    let after: usize = start + id.len();
    if !char_is_space(line[after]) {
        return None;
    }
    let from: usize = skip_spaces(line, after, len);
    assert(rest.skip(id@.len() as int) == line@.subrange(after as int, len as int));
    let command = string_of(line, from, len);
    assert(line@.subrange(after as int, len as int).skip(from - after) == line@.subrange(
        from as int,
        len as int,
    ));
    Some(command)
}

fn find_command(rows: &Vec<Vec<char>>, pid: u32) -> (r: Option<String>)
    ensures
        option_text(r) == command_of(views(rows@), pid, 0),
{
    let id = decimal_chars(pid as usize);
    let mut i: usize = 0;
    while i < rows.len()
        invariant
            i <= rows.len(),
            id@ == decimal(pid as nat),
            command_of(views(rows@), pid, 0) == command_of(views(rows@), pid, i as nat),
        decreases rows.len() - i,
    {
        assert(views(rows@)[i as int] == rows@[i as int]@);
        let found = command_in_line(&rows[i], &id, pid);
        if found.is_some() {
            return found;
        }
        i = i + 1;
    }
    None
}

/// Gives each of `entries` the command line that the process listing
/// `ps_output` holds for its process; an entry whose process the listing
/// does not hold stays as it is.
pub fn attach_commands(entries: &mut Vec<PortEntry>, ps_output: &str)
    ensures
        entry_views(final(entries)@) == with_commands(entry_views(old(entries)@), ps_output@),
{
    let text = chars_of(ps_output);
    let rows = split_into_lines(&text);
    let mut out: Vec<PortEntry> = Vec::new();
    let mut i: usize = 0;
    while i < entries.len()
        invariant
            i <= entries.len(),
            *entries == *old(entries),
            views(rows@) == lines(ps_output@),
            out@.len() == i,
            forall|k: int|
                0 <= k < i ==> (#[trigger] out@[k])@ == with_command(
                    old(entries)@[k]@,
                    lines(ps_output@),
                ),
        decreases entries.len() - i,
    {
        let entry = &entries[i];
        let command = match find_command(&rows, entry.pid) {
            Some(command) => command,
            None => entry.command.clone(),
        };
        out.push(
            PortEntry {
                pid: entry.pid,
                process_name: entry.process_name.clone(),
                port: entry.port,
                address: entry.address.clone(),
                command,
            },
        );
        i = i + 1;
    }
    *entries = out;
    assert(entry_views(entries@) =~= with_commands(entry_views(old(entries)@), ps_output@));
}

/// The option that tells the `kill` utility which signal to send.
pub open spec fn signal_option(force: bool) -> Seq<char> {
    if force {
        "-KILL"@
    } else {
        "-TERM"@
    }
}

/// The option that tells the `kill` utility which signal to send: the
/// forced one if `force`, the one a process may handle otherwise.
pub fn kill_signal(force: bool) -> (r: &'static str)
    ensures
        r@ == signal_option(force),
{
    if force {
        "-KILL"
    } else {
        "-TERM"
    }
}

} // verus!
