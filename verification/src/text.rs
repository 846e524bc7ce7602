//! Text handled as sequences of characters: case-insensitive search, decimal
//! numbers, and fixed-width columns.

use vstd::prelude::*;

verus! {

/// Appends `c` to `s`.
///
/// Wraps `String::push`: the string afterwards is the string before with `c`
/// added at its end.
#[verifier::external_body]
pub(crate) fn push_char(s: &mut String, c: char)
    ensures
        final(s)@ == old(s)@.push(c),
{
    s.push(c)
}

/// Removes the last character of `s`, if there is one.
///
/// Wraps `String::pop`: an empty string stays empty and `None` is returned;
/// otherwise the last character is removed and returned.
#[verifier::external_body]
pub(crate) fn pop_char(s: &mut String) -> (r: Option<char>)
    ensures
        old(s)@.len() == 0 ==> r.is_none() && final(s)@ == old(s)@,
        old(s)@.len() > 0 ==> r == Some(old(s)@.last()) && final(s)@ == old(s)@.drop_last(),
{
    s.pop()
}

/// The characters of an optional text.
pub open spec fn option_text(text: Option<String>) -> Option<Seq<char>> {
    match text {
        Some(text) => Some(text@),
        None => None,
    }
}

/// The characters of `s`, in order.
pub fn chars_of(s: &str) -> (v: Vec<char>)
    ensures
        v@ == s@,
{
    let mut v: Vec<char> = Vec::new();
    for c in it: s.chars()
        invariant
            it.seq() == s@,
            v@ == s@.take(it.index() as int),
    {
        v.push(c);
    }
    assert(s@.take(s@.len() as int) == s@);
    v
}

/// Appends the characters `v[from..to]` to `s`.
pub fn push_chars(s: &mut String, v: &Vec<char>, from: usize, to: usize)
    requires
        from <= to <= v.len(),
    ensures
        final(s)@ == old(s)@ + v@.subrange(from as int, to as int),
{
    let mut i: usize = from;
    while i < to
        invariant
            from <= i <= to <= v.len(),
            s@ == old(s)@ + v@.subrange(from as int, i as int),
        decreases to - i,
    {
        push_char(s, v[i]);
        i = i + 1;
        assert(v@.subrange(from as int, i as int) == v@.subrange(from as int, i - 1).push(
            v@[i - 1],
        ));
    }
}

/// The string made of the characters `v[from..to]`.
pub fn string_of(v: &Vec<char>, from: usize, to: usize) -> (s: String)
    requires
        from <= to <= v.len(),
    ensures
        s@ == v@.subrange(from as int, to as int),
{
    let mut s = String::new();
    push_chars(&mut s, v, from, to);
    s
}

/// ASCII lower-case form of `c`: `'A'..='Z'` map to `'a'..='z'`, every other
/// character to itself.
pub open spec fn lower(c: char) -> char {
    if 'A' <= c && c <= 'Z' {
        ((c as u32) + 32) as char
    } else {
        c
    }
}

/// ASCII lower-case form of `c`.
pub fn to_lower(c: char) -> (r: char)
    ensures
        r == lower(c),
{
    if c >= 'A' && c <= 'Z' {
        let code: u32 = c as u32 + 32;
        let byte: u8 = code as u8;
        byte as char
    } else {
        c
    }
}

/// `needle` occurs in `hay` at offset `at`, letters compared without regard
/// to ASCII case.
pub open spec fn matches_at(hay: Seq<char>, needle: Seq<char>, at: int) -> bool {
    &&& 0 <= at
    &&& at + needle.len() <= hay.len()
    &&& forall|j: int| 0 <= j < needle.len() ==> lower(#[trigger] hay[at + j]) == lower(needle[j])
}

/// `needle` occurs somewhere in `hay`, letters compared without regard to
/// ASCII case. The empty needle occurs in every text.
pub open spec fn contains_ignore_case(hay: Seq<char>, needle: Seq<char>) -> bool {
    exists|at: int| matches_at(hay, needle, at)
}

/// Whether `a` and `b` are the same text but for the case of ASCII letters.
pub open spec fn same_but_case(a: Seq<char>, b: Seq<char>) -> bool {
    &&& a.len() == b.len()
    &&& forall|i: int| 0 <= i < a.len() ==> lower(#[trigger] a[i]) == lower(b[i])
}

/// The search does not tell upper-case ASCII letters from lower-case ones,
/// neither in the text that is searched nor in the text that is looked
/// for.
pub proof fn lemma_search_ignores_case(
    hay: Seq<char>,
    hay2: Seq<char>,
    needle: Seq<char>,
    needle2: Seq<char>,
)
    requires
        same_but_case(hay, hay2),
        same_but_case(needle, needle2),
    ensures
        contains_ignore_case(hay, needle) == contains_ignore_case(hay2, needle2),
{
    assert forall|at: int| matches_at(hay, needle, at) == matches_at(hay2, needle2, at) by {
        if 0 <= at && at + needle.len() <= hay.len() {
            if matches_at(hay, needle, at) {
                assert forall|j: int| 0 <= j < needle2.len() implies lower(
                    #[trigger] hay2[at + j],
                ) == lower(needle2[j]) by {
                    assert(lower(hay[at + j]) == lower(needle[j]));
                }
            }
            if matches_at(hay2, needle2, at) {
                assert forall|j: int| 0 <= j < needle.len() implies lower(#[trigger] hay[at + j])
                    == lower(needle[j]) by {
                    assert(lower(hay2[at + j]) == lower(needle2[j]));
                }
            }
        }
    }
    if contains_ignore_case(hay, needle) {
        let at = choose|at: int| matches_at(hay, needle, at);
        assert(matches_at(hay2, needle2, at));
    }
    if contains_ignore_case(hay2, needle2) {
        let at = choose|at: int| matches_at(hay2, needle2, at);
        assert(matches_at(hay, needle, at));
    }
}

fn matches_here(hay: &Vec<char>, needle: &Vec<char>, at: usize) -> (r: bool)
    requires
        at + needle.len() <= hay.len(),
    ensures
        r == matches_at(hay@, needle@, at as int),
{
    let mut j: usize = 0;
    while j < needle.len()
        invariant
            j <= needle.len(),
            at + needle.len() <= hay.len(),
            forall|k: int| 0 <= k < j ==> lower(#[trigger] hay@[at + k]) == lower(needle@[k]),
        decreases needle.len() - j,
    {
        if to_lower(hay[at + j]) != to_lower(needle[j]) {
            assert(lower(hay@[at + j]) != lower(needle@[j as int]));
            return false;
        }
        j = j + 1;
    }
    true
}

/// Whether `needle` occurs in `hay`, ignoring ASCII case.
pub fn contains_chars(hay: &Vec<char>, needle: &Vec<char>) -> (r: bool)
    ensures
        r == contains_ignore_case(hay@, needle@),
{
    let n: usize = needle.len();
    let h: usize = hay.len();
    if n == 0 {
        assert(matches_at(hay@, needle@, 0));
        return true;
    }
    if n > h {
        return false;
    }
    let last: usize = h - n;
    let mut at: usize = 0;
    while at <= last
        invariant
            0 < n <= h,
            n == needle.len(),
            h == hay.len(),
            last == h - n,
            at <= last + 1,
            forall|k: int| 0 <= k < at ==> !matches_at(hay@, needle@, k),
        decreases last + 1 - at,
    {
        if matches_here(hay, needle, at) {
            return true;
        }
        at = at + 1;
    }
    false
}

/// Whether `needle` occurs in `haystack`, ignoring ASCII case.
pub fn contains_ascii_case_insensitive(haystack: &str, needle: &str) -> (r: bool)
    ensures
        r == contains_ignore_case(haystack@, needle@),
{
    let hay = chars_of(haystack);
    let pattern = chars_of(needle);
    contains_chars(&hay, &pattern)
}

/// The character for the decimal digit `d`.
pub open spec fn digit(d: int) -> char {
    (48 + d) as char
}

/// Decimal text of `n`, without sign or leading zeros.
pub open spec fn decimal(n: nat) -> Seq<char>
    decreases n,
{
    if n < 10 {
        seq![digit(n as int)]
    } else {
        decimal(n / 10).push(digit((n % 10) as int))
    }
}

/// Appends the decimal text of `n` to `out`.
pub fn push_decimal(out: &mut Vec<char>, n: usize)
    ensures
        final(out)@ == old(out)@ + decimal(n as nat),
    decreases n,
{
    if n >= 10 {
        push_decimal(out, n / 10);
    }
    let d: u8 = (n % 10) as u8;
    out.push((48u8 + d) as char);
}

/// Decimal text of `n` as characters.
pub fn decimal_chars(n: usize) -> (v: Vec<char>)
    ensures
        v@ == decimal(n as nat),
{
    let mut v: Vec<char> = Vec::new();
    push_decimal(&mut v, n);
    v
}

/// Decimal text of `n`.
pub fn decimal_string(n: usize) -> (s: String)
    ensures
        s@ == decimal(n as nat),
{
    let v = decimal_chars(n);
    let s = string_of(&v, 0, v.len());
    assert(v@.subrange(0, v@.len() as int) == v@);
    s
}

/// Whether `c` is white space: the characters that separate the fields of a
/// line.
pub open spec fn is_space(c: char) -> bool {
    let code = c as u32;
    ||| 0x09 <= code <= 0x0D
    ||| code == 0x20
    ||| code == 0x85
    ||| code == 0xA0
    ||| code == 0x1680
    ||| 0x2000 <= code <= 0x200A
    ||| code == 0x2028
    ||| code == 0x2029
    ||| code == 0x202F
    ||| code == 0x205F
    ||| code == 0x3000
}

/// Whether `c` is white space.
pub fn char_is_space(c: char) -> (r: bool)
    ensures
        r == is_space(c),
{
    let code: u32 = c as u32;
    (0x09 <= code && code <= 0x0D) || code == 0x20 || code == 0x85 || code == 0xA0 || code
        == 0x1680 || (0x2000 <= code && code <= 0x200A) || code == 0x2028 || code == 0x2029
        || code == 0x202F || code == 0x205F || code == 0x3000
}

/// Number of white-space characters at the start of `s`.
pub open spec fn leading_spaces(s: Seq<char>) -> nat
    decreases s.len(),
{
    if s.len() == 0 || !is_space(s[0]) {
        0
    } else {
        1 + leading_spaces(s.drop_first())
    }
}

/// `s` without its leading white space.
pub open spec fn trim_start(s: Seq<char>) -> Seq<char> {
    s.skip(leading_spaces(s) as int)
}

/// First index at or after `from` that holds no white space, or `to` if
/// there is none before it.
pub fn skip_spaces(v: &Vec<char>, from: usize, to: usize) -> (r: usize)
    requires
        from <= to <= v.len(),
    ensures
        from <= r <= to,
        r == from + leading_spaces(v@.subrange(from as int, to as int)),
{
    let mut i: usize = from;
    while i < to && char_is_space(v[i])
        invariant
            from <= i <= to <= v.len(),
            leading_spaces(v@.subrange(from as int, to as int)) == (i - from) + leading_spaces(
                v@.subrange(i as int, to as int),
            ),
        decreases to - i,
    {
        assert(v@.subrange(i as int, to as int).drop_first() == v@.subrange(i + 1, to as int));
        i = i + 1;
    }
    i
}

/// A finished word, if it has any character.
pub open spec fn finish(cur: Seq<char>) -> Seq<Seq<char>> {
    if cur.len() > 0 {
        seq![cur]
    } else {
        seq![]
    }
}

/// The words of `s` that follow a word begun as `cur`.
pub open spec fn split_words(s: Seq<char>, cur: Seq<char>) -> Seq<Seq<char>>
    decreases s.len(),
{
    if s.len() == 0 {
        finish(cur)
    } else if is_space(s[0]) {
        finish(cur) + split_words(s.drop_first(), Seq::empty())
    } else {
        split_words(s.drop_first(), cur.push(s[0]))
    }
}

/// The words of `s`: its maximal runs of characters that are not white
/// space, in order.
pub open spec fn words(s: Seq<char>) -> Seq<Seq<char>> {
    split_words(s, Seq::empty())
}

/// The character sequences held by `v`.
pub open spec fn views(v: Seq<Vec<char>>) -> Seq<Seq<char>> {
    Seq::new(v.len(), |i: int| v[i]@)
}

/// Splits `v[from..to]` into its words.
pub fn split_whitespace(v: &Vec<char>, from: usize, to: usize) -> (out: Vec<Vec<char>>)
    requires
        from <= to <= v.len(),
    ensures
        views(out@) == words(v@.subrange(from as int, to as int)),
{
    let mut out: Vec<Vec<char>> = Vec::new();
    let mut cur: Vec<char> = Vec::new();
    let mut i: usize = from;
    while i < to
        invariant
            from <= i <= to <= v.len(),
            words(v@.subrange(from as int, to as int)) == views(out@) + split_words(
                v@.subrange(i as int, to as int),
                cur@,
            ),
        decreases to - i,
    {
        let ghost rest = v@.subrange(i as int, to as int);
        let ghost done = views(out@);
        let ghost word = cur@;
        assert(rest.drop_first() == v@.subrange(i + 1, to as int));
        let c = v[i];
        assert(rest[0] == c);
        if char_is_space(c) {
            if cur.len() > 0 {
                out.push(cur);
                assert(views(out@) == done + finish(word));
                cur = Vec::new();
            }
            assert(cur@ == Seq::<char>::empty());
            assert(views(out@) == done + finish(word));
            assert(done + (finish(word) + split_words(rest.drop_first(), Seq::empty())) == (done
                + finish(word)) + split_words(rest.drop_first(), Seq::empty()));
        } else {
            cur.push(c);
        }
        i = i + 1;
    }
    if cur.len() > 0 {
        let ghost before = views(out@);
        out.push(cur);
        assert(views(out@) == before + finish(cur@));
    }
    out
}

/// Whether `word` has at least one character and no white space.
pub open spec fn is_word(word: Seq<char>) -> bool {
    &&& word.len() > 0
    &&& forall|i: int| 0 <= i < word.len() ==> !is_space(#[trigger] word[i])
}

/// Every word of a text has at least one character and no white space.
pub proof fn lemma_words_are_words(s: Seq<char>, cur: Seq<char>)
    requires
        forall|i: int| 0 <= i < cur.len() ==> !is_space(#[trigger] cur[i]),
    ensures
        forall|k: int|
            0 <= k < split_words(s, cur).len() ==> is_word(#[trigger] split_words(s, cur)[k]),
    decreases s.len(),
{
    let all = split_words(s, cur);
    if s.len() == 0 {
        assert forall|k: int| 0 <= k < all.len() implies is_word(#[trigger] all[k]) by {
            assert(all[k] == cur);
        }
    } else if is_space(s[0]) {
        let rest = split_words(s.drop_first(), Seq::empty());
        lemma_words_are_words(s.drop_first(), Seq::empty());
        assert forall|k: int| 0 <= k < all.len() implies is_word(#[trigger] all[k]) by {
            if k < finish(cur).len() {
                assert(all[k] == cur);
            } else {
                assert(all[k] == rest[k - finish(cur).len()]);
            }
        }
    } else {
        let longer = cur.push(s[0]);
        assert forall|i: int| 0 <= i < longer.len() implies !is_space(#[trigger] longer[i]) by {
            if i < cur.len() {
                assert(longer[i] == cur[i]);
            }
        }
        lemma_words_are_words(s.drop_first(), longer);
        let same = split_words(s.drop_first(), longer);
        assert(all == same);
        assert forall|k: int| 0 <= k < all.len() implies is_word(#[trigger] all[k]) by {
            assert(is_word(same[k]));
        }
    }
}

/// `line` without one trailing carriage return.
pub open spec fn strip_cr(line: Seq<char>) -> Seq<char> {
    if line.len() > 0 && line.last() == '\r' {
        line.drop_last()
    } else {
        line
    }
}

/// The lines of `s` that follow a line begun as `cur`.
pub open spec fn split_lines(s: Seq<char>, cur: Seq<char>) -> Seq<Seq<char>>
    decreases s.len(),
{
    if s.len() == 0 {
        finish(cur)
    } else if s[0] == '\n' {
        seq![strip_cr(cur)] + split_lines(s.drop_first(), Seq::empty())
    } else {
        split_lines(s.drop_first(), cur.push(s[0]))
    }
}

/// The lines of `s`: the pieces between line feeds, each without the
/// carriage return that may precede its line feed. Text after the last line
/// feed is a line only if it is not empty.
pub open spec fn lines(s: Seq<char>) -> Seq<Seq<char>> {
    split_lines(s, Seq::empty())
}

/// Splits `v` into its lines.
pub fn split_into_lines(v: &Vec<char>) -> (out: Vec<Vec<char>>)
    ensures
        views(out@) == lines(v@),
{
    let mut out: Vec<Vec<char>> = Vec::new();
    let mut cur: Vec<char> = Vec::new();
    let mut i: usize = 0;
    assert(v@.subrange(0, v@.len() as int) == v@);
    while i < v.len()
        invariant
            i <= v.len(),
            lines(v@) == views(out@) + split_lines(v@.subrange(i as int, v@.len() as int), cur@),
        decreases v.len() - i,
    {
        let ghost rest = v@.subrange(i as int, v@.len() as int);
        let ghost done = views(out@);
        let ghost line = cur@;
        assert(rest.drop_first() == v@.subrange(i + 1, v@.len() as int));
        let c = v[i];
        assert(rest[0] == c);
        if c == '\n' {
            if cur.len() > 0 && cur[cur.len() - 1] == '\r' {
                cur.pop();
            }
            assert(cur@ == strip_cr(line));
            out.push(cur);
            assert(views(out@) == done + seq![strip_cr(line)]);
            cur = Vec::new();
            assert(done + (seq![strip_cr(line)] + split_lines(rest.drop_first(), Seq::empty()))
                == (done + seq![strip_cr(line)]) + split_lines(rest.drop_first(), Seq::empty()));
        } else {
            cur.push(c);
        }
        i = i + 1;
    }
    if cur.len() > 0 {
        let ghost before = views(out@);
        out.push(cur);
        assert(views(out@) == before + finish(cur@));
    }
    out
}

/// Whether `c` is one of `'0'..='9'`.
pub open spec fn is_digit(c: char) -> bool {
    '0' <= c && c <= '9'
}

/// Whether `s` holds decimal digits only.
pub open spec fn all_digits(s: Seq<char>) -> bool {
    forall|i: int| 0 <= i < s.len() ==> is_digit(#[trigger] s[i])
}

/// The number that the decimal digits `s` spell; `0` for no digits.
pub open spec fn digits_value(s: Seq<char>) -> nat
    decreases s.len(),
{
    if s.len() == 0 {
        0
    } else {
        digits_value(s.drop_last()) * 10 + ((s.last() as u32 - 48) as nat)
    }
}

/// `s` without a leading plus sign.
pub open spec fn unsigned_digits(s: Seq<char>) -> Seq<char> {
    if s.len() > 0 && s[0] == '+' {
        s.drop_first()
    } else {
        s
    }
}

/// The number written in `s`, if `s` is an optional plus sign followed by
/// one or more decimal digits spelling a number of at most `max`.
pub open spec fn parse_unsigned(s: Seq<char>, max: nat) -> Option<nat> {
    let d = unsigned_digits(s);
    if d.len() > 0 && all_digits(d) && digits_value(d) <= max {
        Some(digits_value(d))
    } else {
        None
    }
}

/// A run of digits spells at least what any of its prefixes spells.
pub proof fn lemma_digits_value_prefix(s: Seq<char>, k: int)
    requires
        0 <= k <= s.len(),
        all_digits(s),
    ensures
        digits_value(s.take(k)) <= digits_value(s),
    decreases s.len() - k,
{
    if k == s.len() {
        assert(s.take(k) == s);
    } else {
        lemma_digits_value_prefix(s, k + 1);
        assert(s.take(k + 1).drop_last() == s.take(k));
        assert(is_digit(s[k]));
    }
}

/// The decimal text of a number is made of digits and reads back as that
/// number.
pub proof fn lemma_decimal_reads_back(n: nat, max: nat)
    ensures
        decimal(n).len() > 0,
        all_digits(decimal(n)),
        digits_value(decimal(n)) == n,
        parse_unsigned(decimal(n), max) == (if n <= max {
            Some(n)
        } else {
            None
        }),
    decreases n,
{
    let all = decimal(n);
    if n >= 10 {
        lemma_decimal_reads_back(n / 10, max);
        let front = decimal(n / 10);
        assert(all.drop_last() == front);
        assert(all.last() == digit((n % 10) as int));
        assert forall|i: int| 0 <= i < all.len() implies is_digit(#[trigger] all[i]) by {
            if i < front.len() {
                assert(all[i] == front[i]);
            }
        }
        assert(digits_value(all) == digits_value(front) * 10 + (n % 10));
    } else {
        assert(all.drop_last() == Seq::<char>::empty());
        assert(all.last() == digit(n as int));
        assert(digits_value(all.drop_last()) == 0);
        assert(digits_value(all) == n);
    }
    assert(is_digit(all[0]));
    assert(unsigned_digits(all) == all);
}

/// Reads `v[from..to]` as an unsigned decimal number of at most `max`.
pub fn parse_number(v: &Vec<char>, from: usize, to: usize, max: u32) -> (r: Option<u32>)
    requires
        from <= to <= v.len(),
    ensures
        r.is_some() == parse_unsigned(v@.subrange(from as int, to as int), max as nat).is_some(),
        r.is_some() ==> r.unwrap() == parse_unsigned(
            v@.subrange(from as int, to as int),
            max as nat,
        ).unwrap(),
{
    let ghost s = v@.subrange(from as int, to as int);
    let start: usize = if from < to && v[from] == '+' {
        from + 1
    } else {
        from
    };
    let ghost d = unsigned_digits(s);
    assert(d == v@.subrange(start as int, to as int));
    if start == to {
        return None;
    }
    let mut acc: u64 = 0;
    let mut i: usize = start;
    while i < to
        invariant
            start < to,
            start <= i <= to <= v.len(),
            d == v@.subrange(start as int, to as int),
            d == unsigned_digits(v@.subrange(from as int, to as int)),
            all_digits(d.take(i - start)),
            acc == digits_value(d.take(i - start)),
            acc <= max,
        decreases to - i,
    {
        let c = v[i];
        assert(d[i - start] == c);
        if !(c >= '0' && c <= '9') {
            assert(!is_digit(d[i - start]));
            return None;
        }
        let value: u64 = (c as u32 - 48) as u64;
        let next: u64 = acc * 10 + value;
        assert(d.take(i - start + 1).drop_last() == d.take(i - start));
        assert(next == digits_value(d.take(i - start + 1)));
        if next > max as u64 {
            proof {
                if all_digits(d) {
                    lemma_digits_value_prefix(d, i - start + 1);
                }
            }
            return None;
        }
        acc = next;
        i = i + 1;
    }
    assert(d.take(to - start) == d);
    Some(acc as u32)
}

/// `s` cut or padded with blanks to exactly `width` characters.
pub open spec fn fit(s: Seq<char>, width: nat) -> Seq<char> {
    Seq::new(
        width,
        |i: int|
            if i < s.len() {
                s[i]
            } else {
                ' '
            },
    )
}

/// Appends `v`, cut or padded with blanks to exactly `width` characters, to
/// `out`.
pub fn push_fitted(out: &mut String, v: &Vec<char>, width: usize)
    ensures
        final(out)@ == old(out)@ + fit(v@, width as nat),
{
    let kept: usize = if v.len() < width {
        v.len()
    } else {
        width
    };
    push_chars(out, v, 0, kept);
    let mut i: usize = kept;
    while i < width
        invariant
            kept <= i <= width,
            kept <= v.len(),
            kept == v.len() || kept == width,
            out@ == old(out)@ + fit(v@, i as nat),
        decreases width - i,
    {
        push_char(out, ' ');
        i = i + 1;
        assert(fit(v@, i as nat) == fit(v@, (i - 1) as nat).push(' '));
    }
}

} // verus!
