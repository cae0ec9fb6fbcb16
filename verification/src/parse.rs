//! The small grammars of the configuration: lines, `key=value` pairs,
//! decimal numbers and hexadecimal digits.

use vstd::prelude::*;

verus! {

/// What reading a configuration value can fail with.
#[derive(Clone, Copy, Debug, PartialEq, Eq, Structural)]
pub enum ParseError {
    /// A colour is neither `#RRGGBB` nor one of the colour names.
    Color,
    /// A font size is not a decimal number that fits in `u32`.
    FontSize,
}

/// The first position at or after `from` at which `s` holds `c`, or the
/// length of `s` if there is none.
pub open spec fn find(s: Seq<char>, c: char, from: int) -> int
    decreases s.len() - from,
{
    if from < 0 || from >= s.len() {
        s.len() as int
    } else if s[from] == c {
        from
    } else {
        find(s, c, from + 1)
    }
}

/// The last position at which `s` holds `c`, or -1 if there is none.
pub open spec fn find_last(s: Seq<char>, c: char) -> int
    decreases s.len(),
{
    if s.len() == 0 {
        -1
    } else if s.last() == c {
        s.len() - 1
    } else {
        find_last(s.drop_last(), c)
    }
}

/// A line without the carriage return that preceded its line feed.
pub open spec fn without_return(line: Seq<char>) -> Seq<char> {
    if line.len() > 0 && line.last() == '\r' {
        line.drop_last()
    } else {
        line
    }
}

/// The lines of `s`. A line ends at a line feed, or at the end of the text
/// if characters are left there; the line feed, and a carriage return just
/// before it, are not part of the line.
pub open spec fn lines(s: Seq<char>) -> Seq<Seq<char>>
    decreases s.len(),
{
    if s.len() == 0 {
        Seq::empty()
    } else {
        let end = find(s, '\n', 0);
        if end < 0 || end >= s.len() {
            seq![s]
        } else {
            seq![without_return(s.take(end))] + lines(s.skip(end + 1))
        }
    }
}

/// The key and the value of a line: what stands before the first `=`, and
/// what stands between it and the next `=` or the end of the line. A line
/// without `=` has neither.
pub open spec fn pair_of(line: Seq<char>) -> Option<(Seq<char>, Seq<char>)> {
    let eq = find(line, '=', 0);
    if eq >= line.len() {
        None
    } else {
        let rest = line.skip(eq + 1);
        Some((line.take(eq), rest.take(find(rest, '=', 0))))
    }
}

/// The words of `s`: the stretches between its spaces, empty ones
/// included. There is always at least one.
pub open spec fn words(s: Seq<char>) -> Seq<Seq<char>>
    decreases s.len(),
{
    let end = find(s, ' ', 0);
    if end < 0 || end >= s.len() {
        seq![s]
    } else {
        seq![s.take(end)] + words(s.skip(end + 1))
    }
}

/// The last word of `s`: what follows its last space, or all of it.
pub open spec fn last_word(s: Seq<char>) -> Seq<char> {
    s.skip(find_last(s, ' ') + 1)
}

/// The value of a decimal digit.
pub open spec fn digit_value(c: char) -> Option<int> {
    if '0' <= c <= '9' {
        Some(c as int - '0' as int)
    } else {
        None
    }
}

/// The value of a hexadecimal digit of either case.
pub open spec fn hex_value(c: char) -> Option<int> {
    if '0' <= c <= '9' {
        Some(c as int - '0' as int)
    } else if 'a' <= c <= 'f' {
        Some(c as int - 'a' as int + 10)
    } else if 'A' <= c <= 'F' {
        Some(c as int - 'A' as int + 10)
    } else {
        None
    }
}

/// The number that the decimal digits `s` spell, if all of `s` are digits.
/// No digits spell zero.
pub open spec fn decimal(s: Seq<char>) -> Option<int>
    decreases s.len(),
{
    if s.len() == 0 {
        Some(0)
    } else {
        match (decimal(s.drop_last()), digit_value(s.last())) {
            (Some(front), Some(d)) => Some(front * 10 + d),
            _ => None,
        }
    }
}

/// The number that `s` spells as a `u32`: `s` holds at least one character,
/// decimal digits only, and their number fits.
pub open spec fn number(s: Seq<char>) -> Option<u32> {
    match decimal(s) {
        Some(n) => if s.len() > 0 && n <= u32::MAX {
            Some(n as u32)
        } else {
            None
        },
        None => None,
    }
}

/// The numbers that decimal digits spell never shrink as digits are added.
pub proof fn lemma_decimal_grows(s: Seq<char>)
    requires
        s.len() > 0,
        decimal(s) is Some,
    ensures
        decimal(s.drop_last()) is Some,
        0 <= decimal(s.drop_last())->Some_0 <= decimal(s)->Some_0,
    decreases s.len(),
{
    if s.drop_last().len() > 0 {
        lemma_decimal_grows(s.drop_last());
    }
}

/// Finds the first `c` in `s` at or after `from`.
pub fn position(s: &Vec<char>, c: char, from: usize) -> (at: usize)
    requires
        from <= s@.len(),
    ensures
        at == find(s@, c, from as int),
        from <= at <= s@.len(),
        at < s@.len() ==> s@[at as int] == c,
        forall|i: int| from <= i < at ==> s@[i] != c,
{
    let mut at = from;
    while at < s.len() && s[at] != c
        invariant
            from <= at <= s@.len(),
            find(s@, c, from as int) == find(s@, c, at as int),
            forall|i: int| from <= i < at ==> s@[i] != c,
        decreases s@.len() - at,
    {
        at += 1;
    }
    at
}

/// Copies the characters of `s` from `from` up to `to`.
pub fn slice(s: &Vec<char>, from: usize, to: usize) -> (part: Vec<char>)
    requires
        from <= to <= s@.len(),
    ensures
        part@ == s@.subrange(from as int, to as int),
{
    let mut part: Vec<char> = Vec::new();
    let mut i = from;
    while i < to
        invariant
            from <= i <= to,
            to <= s@.len(),
            part@ == s@.subrange(from as int, i as int),
        decreases to - i,
    {
        part.push(s[i]);
        proof {
            assert(s@.subrange(from as int, i + 1) == s@.subrange(from as int, i as int).push(
                s@[i as int],
            ));
        }
        i += 1;
    }
    part
}

/// Splits `s` into its lines.
pub fn split_lines(s: &Vec<char>) -> (r: Vec<Vec<char>>)
    ensures
        r@.len() == lines(s@).len(),
        forall|i: int| 0 <= i < r@.len() ==> (#[trigger] r@[i])@ == lines(s@)[i],
{
    let mut r: Vec<Vec<char>> = Vec::new();
    let mut start: usize = 0;
    let ghost mut done: Seq<Seq<char>> = Seq::empty();
    proof {
        assert(s@.skip(0) == s@);
    }
    while start < s.len()
        invariant
            start <= s@.len(),
            lines(s@) == done + lines(s@.skip(start as int)),
            r@.len() == done.len(),
            forall|i: int| 0 <= i < r@.len() ==> (#[trigger] r@[i])@ == done[i],
        decreases s@.len() - start,
    {
        let ghost rest = s@.skip(start as int);
        let end = position(s, '\n', start);
        proof {
            lemma_find_skip(s@, '\n', start as int, start as int);
        }
        if end >= s.len() {
            let line = slice(s, start, s.len());
            proof {
                assert(line@ == rest);
                assert(lines(rest) == seq![rest]);
                assert(s@.skip(s@.len() as int).len() == 0);
                done = done.push(rest);
                assert(lines(s@) == done + lines(s@.skip(s@.len() as int)));
            }
            r.push(line);
            start = s.len();
        } else {
            let stop = if end > start && s[end - 1] == '\r' {
                end - 1
            } else {
                end
            };
            let line = slice(s, start, stop);
            proof {
                assert(rest.take(end - start) == s@.subrange(start as int, end as int));
                assert(line@ == without_return(rest.take(end - start)));
                assert(rest.skip(end - start + 1) == s@.skip(end + 1));
                assert(lines(rest) == seq![line@] + lines(s@.skip(end + 1)));
                done = done.push(line@);
                assert(lines(s@) == done + lines(s@.skip(end + 1)));
            }
            r.push(line);
            start = end + 1;
        }
    }
    proof {
        assert(lines(s@.skip(start as int)) == Seq::<Seq<char>>::empty());
        assert(lines(s@) == done);
    }
    r
}

/// Splits `s` into its words.
pub fn split_words(s: &Vec<char>) -> (r: Vec<Vec<char>>)
    ensures
        r@.len() == words(s@).len(),
        forall|i: int| 0 <= i < r@.len() ==> (#[trigger] r@[i])@ == words(s@)[i],
{
    let mut r: Vec<Vec<char>> = Vec::new();
    let mut start: usize = 0;
    let ghost mut done: Seq<Seq<char>> = Seq::empty();
    proof {
        assert(s@.skip(0) == s@);
    }
    loop
        invariant_except_break
            start <= s@.len(),
            words(s@) == done + words(s@.skip(start as int)),
            r@.len() == done.len(),
            forall|i: int| 0 <= i < r@.len() ==> (#[trigger] r@[i])@ == done[i],
        ensures
            r@.len() == words(s@).len(),
            forall|i: int| 0 <= i < r@.len() ==> (#[trigger] r@[i])@ == words(s@)[i],
        decreases s@.len() - start,
    {
        let ghost rest = s@.skip(start as int);
        let end = position(s, ' ', start);
        proof {
            lemma_find_skip(s@, ' ', start as int, start as int);
        }
        if end >= s.len() {
            let word = slice(s, start, s.len());
            proof {
                assert(word@ == rest);
                assert(words(rest) == seq![rest]);
                assert(words(s@) == done.push(rest));
            }
            r.push(word);
            break;
        }
        let word = slice(s, start, end);
        proof {
            assert(rest.take(end - start) == s@.subrange(start as int, end as int));
            assert(rest.skip(end - start + 1) == s@.skip(end + 1));
            assert(words(rest) == seq![word@] + words(s@.skip(end + 1)));
            done = done.push(word@);
            assert(words(s@) == done + words(s@.skip(end + 1)));
        }
        r.push(word);
        start = end + 1;
    }
    r
}

/// Searching a tail of `s` finds what searching `s` from the tail's start
/// finds, measured from there.
pub proof fn lemma_find_skip(s: Seq<char>, c: char, start: int, from: int)
    requires
        0 <= start <= from <= s.len(),
    ensures
        find(s.skip(start), c, from - start) == find(s, c, from) - start,
    decreases s.len() - from,
{
    if from < s.len() {
        assert(s.skip(start)[from - start] == s[from]);
        if s[from] != c {
            lemma_find_skip(s, c, start, from + 1);
        }
    }
}

/// Splits a line into its key and its value.
pub fn split_pair(line: &Vec<char>) -> (r: Option<(Vec<char>, Vec<char>)>)
    ensures
        r is Some <==> pair_of(line@) is Some,
        r matches Some(pair) ==> (pair.0@, pair.1@) == pair_of(line@)->Some_0,
{
    let eq = position(line, '=', 0);
    if eq >= line.len() {
        return None;
    }
    let next = position(line, '=', eq + 1);
    proof {
        lemma_find_skip(line@, '=', eq + 1, eq + 1);
        assert(line@.skip(eq + 1).take(next - eq - 1) == line@.subrange(eq + 1, next as int));
        assert(line@.take(eq as int) == line@.subrange(0, eq as int));
    }
    Some((slice(line, 0, eq), slice(line, eq + 1, next)))
}

/// The last word of `s`.
pub fn final_word(s: &Vec<char>) -> (word: Vec<char>)
    ensures
        word@ == last_word(s@),
{
    let mut at: usize = s.len();
    proof {
        assert(s@.take(s@.len() as int) == s@);
    }
    while at > 0 && s[at - 1] != ' '
        invariant
            at <= s@.len(),
            find_last(s@, ' ') == find_last(s@.take(at as int), ' '),
        decreases at,
    {
        proof {
            assert(s@.take(at as int).drop_last() == s@.take(at - 1));
            assert(s@.take(at as int).last() == s@[at - 1]);
        }
        at -= 1;
    }
    proof {
        assert(s@.take(s@.len() as int) == s@);
        if at > 0 {
            assert(s@.take(at as int).last() == s@[at - 1]);
        }
        assert(find_last(s@, ' ') == at - 1);
        assert(s@.skip(at as int) == s@.subrange(at as int, s@.len() as int));
    }
    slice(s, at, s.len())
}

/// The code point of `c`.
pub fn code_of(c: char) -> (code: u32)
    ensures
        code == c as int,
{
    c as u32
}

/// Reads `s` as a decimal number.
pub fn parse_number(s: &Vec<char>) -> (r: Option<u32>)
    ensures
        r == number(s@),
{
    if s.len() == 0 {
        return None;
    }
    let mut value: u64 = 0;
    let mut i: usize = 0;
    while i < s.len()
        invariant
            i <= s@.len(),
            s@.len() > 0,
            decimal(s@.take(i as int)) == Some(value as int),
            value <= u32::MAX,
        decreases s@.len() - i,
    {
        let c = s[i];
        proof {
            assert(s@.take(i + 1).drop_last() == s@.take(i as int));
            assert(s@.take(i + 1).last() == c);
        }
        let code = code_of(c);
        proof {
            assert('0' as int == 0x30 && '9' as int == 0x39);
        }
        if code < 0x30 || code > 0x39 {
            proof {
                assert(digit_value(c) is None);
                assert(decimal(s@.take(i + 1)) is None);
                lemma_decimal_none(s@, i + 1);
            }
            return None;
        }
        let next: u64 = value * 10 + (code - 0x30) as u64;
        proof {
            assert(digit_value(c) == Some(code - 0x30));
        }
        if next > 0xffff_ffff {
            proof {
                assert(decimal(s@.take(i + 1)) == Some(next as int));
                lemma_decimal_large(s@, i + 1);
            }
            return None;
        }
        value = next;
        i += 1;
    }
    proof {
        assert(s@.take(s@.len() as int) == s@);
    }
    Some(value as u32)
}

/// Digits that spell nothing up to some point spell nothing as a whole.
pub proof fn lemma_decimal_none(s: Seq<char>, n: int)
    requires
        0 <= n <= s.len(),
        decimal(s.take(n)) is None,
    ensures
        decimal(s) is None,
    decreases s.len() - n,
{
    if n < s.len() {
        assert(s.take(n + 1).drop_last() == s.take(n));
        lemma_decimal_none(s, n + 1);
    } else {
        assert(s.take(n) == s);
    }
}

/// Digits that spell more than a bound up to some point spell more than
/// it as a whole, if they spell anything.
pub proof fn lemma_decimal_large(s: Seq<char>, n: int)
    requires
        0 <= n <= s.len(),
        decimal(s.take(n)) is Some,
    ensures
        decimal(s) matches Some(v) ==> v >= decimal(s.take(n))->Some_0,
    decreases s.len() - n,
{
    if n < s.len() {
        assert(s.take(n + 1).drop_last() == s.take(n));
        if decimal(s.take(n + 1)) is Some {
            lemma_decimal_grows(s.take(n + 1));
            lemma_decimal_large(s, n + 1);
        } else {
            lemma_decimal_none(s, n + 1);
        }
    } else {
        assert(s.take(n) == s);
    }
}

/// Reads `c` as a hexadecimal digit.
pub fn parse_hex(c: char) -> (r: Option<u8>)
    ensures
        r is Some <==> hex_value(c) is Some,
        r matches Some(v) ==> v == hex_value(c)->Some_0,
{
    let code = code_of(c);
    if 0x30 <= code && code <= 0x39 {
        Some((code - 0x30) as u8)
    } else if 0x61 <= code && code <= 0x66 {
        Some((code - 0x61 + 10) as u8)
    } else if 0x41 <= code && code <= 0x46 {
        Some((code - 0x41 + 10) as u8)
    } else {
        None
    }
}

/// Whether `chars` are the characters of `word`.
pub fn spells(chars: &Vec<char>, word: &str) -> (same: bool)
    ensures
        same == (chars@ == word@),
{
    let other = crate::text::chars_of(word);
    if chars.len() != other.len() {
        return false;
    }
    let mut i: usize = 0;
    while i < chars.len()
        invariant
            i <= chars@.len(),
            chars@.len() == other@.len(),
            other@ == word@,
            forall|j: int| 0 <= j < i ==> chars@[j] == other@[j],
        decreases chars@.len() - i,
    {
        if chars[i] != other[i] {
            return false;
        }
        i += 1;
    }
    proof {
        assert(chars@ =~= other@);
    }
    true
}

/// The string of the characters `chars`.
pub fn string_of(chars: &Vec<char>) -> (s: String)
    ensures
        s@ == chars@,
{
    let mut s = String::new();
    let mut i: usize = 0;
    while i < chars.len()
        invariant
            i <= chars@.len(),
            s@ == chars@.take(i as int),
        decreases chars@.len() - i,
    {
        s.push(chars[i]);
        proof {
            assert(chars@.take(i + 1) == chars@.take(i as int).push(chars@[i as int]));
        }
        i += 1;
    }
    proof {
        assert(chars@.take(chars@.len() as int) == chars@);
    }
    s
}

} // verus!
