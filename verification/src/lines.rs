//! Lines of text, and the words in them.

use crate::text::{chars_of, find_char, part, same_chars};
use vstd::prelude::*;

verus! {

/// Whether a character is white space.
pub open spec fn is_space(c: char) -> bool {
    let code = c as int;
    ||| 0x09 <= code <= 0x0d
    ||| code == 0x20
    ||| code == 0x85
    ||| code == 0xa0
    ||| code == 0x1680
    ||| 0x2000 <= code <= 0x200a
    ||| code == 0x2028
    ||| code == 0x2029
    ||| code == 0x202f
    ||| code == 0x205f
    ||| code == 0x3000
}

/// Whether a character is white space.
pub fn char_is_space(c: char) -> (yes: bool)
    ensures
        yes == is_space(c),
{
    let code: u32 = c as u32;
    (0x09 <= code && code <= 0x0d) || code == 0x20 || code == 0x85 || code == 0xa0 || code == 0x1680
        || (0x2000 <= code && code <= 0x200a) || code == 0x2028 || code == 0x2029 || code == 0x202f
        || code == 0x205f || code == 0x3000
}

/// Whether a part is the whole text but for white space around it, and has none at its ends.
pub open spec fn is_trimmed_part(text: Seq<char>, from: int, to: int) -> bool {
    &&& 0 <= from <= to <= text.len()
    &&& forall|i: int| 0 <= i < from ==> is_space(#[trigger] text[i])
    &&& forall|i: int| to <= i < text.len() ==> is_space(#[trigger] text[i])
    &&& from < to ==> !is_space(text[from]) && !is_space(text[to - 1])
}

/// A text without the white space around it.
pub open spec fn trimmed(text: Seq<char>) -> Seq<char> {
    let (from, to) = choose|from: int, to: int| is_trimmed_part(text, from, to);
    text.subrange(from, to)
}

/// There is one text without white space around it.
pub proof fn lemma_trimmed(text: Seq<char>, from: int, to: int)
    requires
        is_trimmed_part(text, from, to),
    ensures
        trimmed(text) == text.subrange(from, to),
{
    let (a, b) = choose|from: int, to: int| is_trimmed_part(text, from, to);
    assert(is_trimmed_part(text, a, b));
    if a < b && from < to {
        if a < from {
            assert(is_space(text[a]));
        }
        if from < a {
            assert(is_space(text[from]));
        }
        if b < to {
            assert(is_space(text[to - 1]));
        }
        if to < b {
            assert(is_space(text[b - 1]));
        }
    } else if a < b {
        assert(a < from ==> is_space(text[a]));
        assert(a >= to ==> is_space(text[a]));
    } else if from < to {
        assert(from < a ==> is_space(text[from]));
        assert(from >= b ==> is_space(text[from]));
    }
    assert(text.subrange(a, b) =~= text.subrange(from, to));
}

/// Takes the white space off around a text.
pub fn trim(chars: &[char]) -> (rest: Vec<char>)
    ensures
        rest@ == trimmed(chars@),
{
    let mut from: usize = 0;
    while from < chars.len() && char_is_space(chars[from])
        invariant
            from <= chars@.len(),
            forall|i: int| 0 <= i < from ==> is_space(#[trigger] chars@[i]),
        decreases chars@.len() - from,
    {
        from = from + 1;
    }
    let mut to: usize = chars.len();
    while to > from && char_is_space(chars[to - 1])
        invariant
            from <= to <= chars@.len(),
            forall|i: int| to <= i < chars@.len() ==> is_space(#[trigger] chars@[i]),
        decreases to,
    {
        to = to - 1;
    }
    proof {
        lemma_trimmed(chars@, from as int, to as int);
    }
    part(chars, from, to)
}

/// A letter in lower case, where it is one of the ASCII ones.
pub open spec fn lower(c: char) -> char {
    if 'A' as int <= c as int <= 'Z' as int {
        (c as int + 32) as char
    } else {
        c
    }
}

/// A text whose ASCII letters are in lower case.
pub open spec fn lowered(text: Seq<char>) -> Seq<char> {
    text.map_values(|c: char| lower(c))
}

/// Brings the ASCII letters into lower case.
pub fn to_ascii_lowercase(chars: &[char]) -> (text: Vec<char>)
    ensures
        text@ == lowered(chars@),
{
    let mut text: Vec<char> = Vec::new();
    let mut index: usize = 0;
    while index < chars.len()
        invariant
            index <= chars@.len(),
            text@.len() == index,
            forall|i: int| 0 <= i < index ==> text@[i] == lower(chars@[i]),
        decreases chars@.len() - index,
    {
        let c: char = chars[index];
        if 'A' <= c && c <= 'Z' {
            text.push((c as u8 + 32) as char);
        } else {
            text.push(c);
        }
        index = index + 1;
    }
    proof {
        assert(text@ =~= lowered(chars@));
    }
    text
}

/// Whether a text stands at a place of another.
pub open spec fn occurs_at(text: Seq<char>, sought: Seq<char>, at: int) -> bool {
    &&& 0 <= at
    &&& at + sought.len() <= text.len()
    &&& text.subrange(at, at + sought.len()) == sought
}

/// Whether a text stands somewhere in another.
pub open spec fn occurs_in(text: Seq<char>, sought: Seq<char>) -> bool {
    exists|at: int| occurs_at(text, sought, at)
}

/// Tells whether a text stands somewhere in another.
pub fn contains(text: &[char], sought: &[char]) -> (found: bool)
    ensures
        found == occurs_in(text@, sought@),
{
    if sought.len() > text.len() {
        return false;
    }
    let length: usize = text.len();
    let last: usize = length - sought.len();
    let mut at: usize = 0;
    while at <= last
        invariant
            at <= last + 1,
            length == text@.len(),
            last + sought@.len() == length,
            forall|i: int| 0 <= i < at ==> !occurs_at(text@, sought@, i),
        decreases last + 1 - at,
    {
        let candidate: Vec<char> = part(text, at, at + sought.len());
        if same_chars(candidate.as_slice(), sought) {
            assert(occurs_at(text@, sought@, at as int));
            return true;
        }
        if at == last {
            assert forall|i: int| !occurs_at(text@, sought@, i) by {}
            return false;
        }
        at = at + 1;
    }
    false
}

/// A line without the carriage return at its end.
pub open spec fn without_return(line: Seq<char>) -> Seq<char> {
    if line.len() > 0 && line.last() == '\r' {
        line.drop_last()
    } else {
        line
    }
}

/// The lines of a text from a place on. Each ends with a line feed, or with a carriage return and
/// a line feed, and the last with the text, if anything is left for it.
pub open spec fn lines_from(text: Seq<char>, from: int) -> Seq<Seq<char>>
    decreases text.len() - from,
{
    let end = crate::text::first_at(text, '\n', from);
    if from < 0 || from >= text.len() || !(from <= end <= text.len()) {
        Seq::empty()
    } else if end == text.len() {
        seq![text.subrange(from, end)]
    } else {
        seq![without_return(text.subrange(from, end))] + lines_from(text, end + 1)
    }
}

/// The lines of a text.
pub open spec fn lines_of(text: Seq<char>) -> Seq<Seq<char>> {
    lines_from(text, 0)
}

/// The texts that vectors of characters hold.
pub open spec fn texts(lines: Seq<Vec<char>>) -> Seq<Seq<char>> {
    lines.map_values(|line: Vec<char>| line@)
}

/// Takes a text apart into its lines.
pub fn split_lines(chars: &[char]) -> (lines: Vec<Vec<char>>)
    ensures
        texts(lines@) == lines_of(chars@),
{
    let mut lines: Vec<Vec<char>> = Vec::new();
    let mut from: usize = 0;
    proof {
        assert(texts(lines@) + lines_from(chars@, 0) =~= lines_of(chars@));
    }
    while from < chars.len()
        invariant
            from <= chars@.len(),
            texts(lines@) + lines_from(chars@, from as int) == lines_of(chars@),
        decreases chars@.len() - from,
    {
        let ghost before = lines@;
        let end: usize = find_char(chars, '\n', from);
        if end == chars.len() {
            lines.push(part(chars, from, end));
            proof {
                assert(texts(lines@) =~= texts(before) + lines_from(chars@, from as int));
            }
            return lines;
        }
        let stop: usize = if end > from && chars[end - 1] == '\r' {
            end - 1
        } else {
            end
        };
        lines.push(part(chars, from, stop));
        proof {
            let line = chars@.subrange(from as int, end as int);
            assert(chars@.subrange(from as int, stop as int) =~= without_return(line));
            assert(texts(lines@) + lines_from(chars@, end + 1) =~= texts(before) + lines_from(
                chars@,
                from as int,
            ));
        }
        from = end + 1;
    }
    proof {
        assert(texts(lines@) + lines_from(chars@, from as int) =~= texts(lines@));
    }
    lines
}

/// Whether a line gives a value to a key.
pub open spec fn has_key(line: Seq<char>) -> bool {
    crate::text::first_at(line, '=', 0) < line.len()
}

/// The key of a line: what stands before the first equals sign.
pub open spec fn key_of(line: Seq<char>) -> Seq<char> {
    line.take(crate::text::first_at(line, '=', 0))
}

/// The value in a line: what stands behind the first equals sign.
pub open spec fn value_of(line: Seq<char>) -> Seq<char> {
    line.skip(crate::text::first_at(line, '=', 0) + 1)
}

/// The last value that the first `count` lines give to one of some keys, or nothing.
pub open spec fn last_value(lines: Seq<Seq<char>>, keys: Seq<Seq<char>>, count: nat) -> Seq<char>
    decreases count,
{
    if count == 0 {
        Seq::empty()
    } else {
        let line = lines[count - 1];
        if has_key(line) && keys.contains(key_of(line)) {
            value_of(line)
        } else {
            last_value(lines, keys, (count - 1) as nat)
        }
    }
}

/// The value that lines give to one of some keys.
pub open spec fn value_for(lines: Seq<Seq<char>>, keys: Seq<Seq<char>>) -> Seq<char> {
    last_value(lines, keys, lines.len())
}

/// The texts of words.
pub open spec fn words(list: Seq<&str>) -> Seq<Seq<char>> {
    list.map_values(|word: &str| word@)
}

/// Whether a text is one of some words.
pub fn is_one_of(chars: &[char], list: &[&str]) -> (found: bool)
    ensures
        found == words(list@).contains(chars@),
{
    let mut index: usize = 0;
    while index < list.len()
        invariant
            index <= list@.len(),
            forall|i: int| 0 <= i < index ==> words(list@)[i] != chars@,
        decreases list@.len() - index,
    {
        let word: Vec<char> = chars_of(list[index]);
        assert(words(list@)[index as int] == word@);
        if same_chars(word.as_slice(), chars) {
            return true;
        }
        index = index + 1;
    }
    false
}

/// Finds the last value that lines give to one of some keys.
pub fn find_value(lines: &Vec<Vec<char>>, keys: &[&str]) -> (value: Vec<char>)
    ensures
        value@ == value_for(texts(lines@), words(keys@)),
{
    let mut value: Vec<char> = Vec::new();
    let mut index: usize = 0;
    while index < lines.len()
        invariant
            index <= lines@.len(),
            value@ == last_value(texts(lines@), words(keys@), index as nat),
        decreases lines@.len() - index,
    {
        let line: &[char] = lines[index].as_slice();
        assert(line@ == texts(lines@)[index as int]);
        let at: usize = find_char(line, '=', 0);
        if at < line.len() {
            let found: Vec<char> = part(line, 0, at);
            assert(found@ =~= key_of(line@));
            if is_one_of(found.as_slice(), keys) {
                value = part(line, at + 1, line.len());
                assert(value@ =~= value_of(line@));
            }
        }
        index = index + 1;
    }
    value
}

/// A line that gives a value to a key.
pub open spec fn keyed_line(key: Seq<char>, value: Seq<char>) -> Seq<char> {
    key + seq!['='] + value
}

/// Whether a text can stand in a line without ending it.
pub open spec fn fits_line(text: Seq<char>) -> bool {
    &&& forall|i: int| 0 <= i < text.len() ==> #[trigger] text[i] != '\n'
    &&& text.len() > 0 ==> text.last() != '\r'
}

/// Whether a text can be a key.
pub open spec fn fits_key(text: Seq<char>) -> bool {
    forall|i: int| 0 <= i < text.len() ==> #[trigger] text[i] != '=' && text[i] != '\n'
}

/// Lines, each ended with a line feed.
pub open spec fn joined_lines(lines: Seq<Seq<char>>) -> Seq<char>
    decreases lines.len(),
{
    if lines.len() == 0 {
        Seq::empty()
    } else {
        joined_lines(lines.drop_last()) + lines.last() + seq!['\n']
    }
}

/// The lines of a text in front of which another line stands.
proof fn lemma_lines_from_shift(front: Seq<char>, back: Seq<char>, from: int)
    requires
        0 <= from <= back.len(),
    ensures
        lines_from(front + back, front.len() + from) == lines_from(back, from),
    decreases back.len() - from,
{
    let text = front + back;
    let end = crate::text::first_at(back, '\n', from);
    crate::text::lemma_first_at(back, '\n', from);
    if from < back.len() {
        crate::text::lemma_is_first_at(text, '\n', front.len() + from, front.len() + end);
        assert(text.subrange(front.len() + from, front.len() + end) =~= back.subrange(from, end));
        if end < back.len() {
            lemma_lines_from_shift(front, back, end + 1);
        }
    } else {
        assert(crate::text::first_at(text, '\n', front.len() + from) == text.len());
    }
}

/// A line in front of a text is its first line.
proof fn lemma_first_line(line: Seq<char>, rest: Seq<char>)
    requires
        fits_line(line),
    ensures
        lines_of(line + seq!['\n'] + rest) == seq![line] + lines_of(rest),
{
    let front = line + seq!['\n'];
    let text = front + rest;
    crate::text::lemma_is_first_at(text, '\n', 0, line.len() as int);
    assert(text.subrange(0, line.len() as int) =~= line);
    assert(without_return(line) == line);
    lemma_lines_from_shift(front, rest, 0);
}

/// Lines that were written one after the other are read back.
pub proof fn law_lines_round_trip(lines: Seq<Seq<char>>)
    requires
        forall|i: int| 0 <= i < lines.len() ==> fits_line(#[trigger] lines[i]),
    ensures
        lines_of(joined_lines(lines)) == lines,
    decreases lines.len(),
{
    lemma_lines_behind(lines, Seq::empty());
    assert(joined_lines(lines) + Seq::<char>::empty() =~= joined_lines(lines));
    assert(lines_of(Seq::<char>::empty()) =~= Seq::<Seq<char>>::empty());
    assert(lines + Seq::<Seq<char>>::empty() =~= lines);
}

proof fn lemma_lines_behind(lines: Seq<Seq<char>>, rest: Seq<char>)
    requires
        forall|i: int| 0 <= i < lines.len() ==> fits_line(#[trigger] lines[i]),
    ensures
        lines_of(joined_lines(lines) + rest) == lines + lines_of(rest),
    decreases lines.len(),
{
    if lines.len() == 0 {
        assert(joined_lines(lines) + rest =~= rest);
        assert(lines + lines_of(rest) =~= lines_of(rest));
    } else {
        let front = lines.drop_last();
        let line = lines.last();
        let behind = line + seq!['\n'] + rest;
        lemma_lines_behind(front, behind);
        lemma_first_line(line, rest);
        assert(joined_lines(lines) + rest =~= joined_lines(front) + behind);
        assert(front + (seq![line] + lines_of(rest)) =~= lines + lines_of(rest));
    }
}

/// A key and a value that were written in a line are read back.
pub proof fn law_keyed_line_round_trip(key: Seq<char>, value: Seq<char>)
    requires
        fits_key(key),
    ensures
        has_key(keyed_line(key, value)),
        key_of(keyed_line(key, value)) == key,
        value_of(keyed_line(key, value)) == value,
        fits_line(value) ==> fits_line(keyed_line(key, value)),
{
    let line = keyed_line(key, value);
    crate::text::lemma_is_first_at(line, '=', 0, key.len() as int);
    assert(line.take(key.len() as int) =~= key);
    assert(line.skip(key.len() as int + 1) =~= value);
}

/// Lines that give values to keys.
pub open spec fn keyed_lines(keys: Seq<Seq<char>>, values: Seq<Seq<char>>) -> Seq<Seq<char>> {
    Seq::new(keys.len(), |i: int| keyed_line(keys[i], values[i]))
}

/// A report of keys and values is read back line by line.
pub proof fn law_report_round_trip(keys: Seq<Seq<char>>, values: Seq<Seq<char>>)
    requires
        keys.len() == values.len(),
        forall|i: int| 0 <= i < keys.len() ==> fits_key(#[trigger] keys[i]),
        forall|i: int| 0 <= i < values.len() ==> fits_line(#[trigger] values[i]),
    ensures
        lines_of(joined_lines(keyed_lines(keys, values))) == keyed_lines(keys, values),
{
    let report = keyed_lines(keys, values);
    assert forall|i: int| 0 <= i < report.len() implies fits_line(#[trigger] report[i]) by {
        assert(fits_key(keys[i]) && fits_line(values[i]));
        law_keyed_line_round_trip(keys[i], values[i]);
    }
    law_lines_round_trip(report);
}

/// A report gives the wanted key the value that was written for it.
pub proof fn law_value_is_found(
    keys: Seq<Seq<char>>,
    values: Seq<Seq<char>>,
    wanted: Seq<Seq<char>>,
    at: int,
)
    requires
        keys.len() == values.len(),
        forall|i: int| 0 <= i < keys.len() ==> fits_key(#[trigger] keys[i]),
        0 <= at < keys.len(),
        wanted.contains(keys[at]),
        forall|i: int| at < i < keys.len() ==> !wanted.contains(#[trigger] keys[i]),
    ensures
        value_for(keyed_lines(keys, values), wanted) == values[at],
{
    lemma_value_is_found(keys, values, wanted, at, keys.len());
}

proof fn lemma_value_is_found(
    keys: Seq<Seq<char>>,
    values: Seq<Seq<char>>,
    wanted: Seq<Seq<char>>,
    at: int,
    count: nat,
)
    requires
        keys.len() == values.len(),
        forall|i: int| 0 <= i < keys.len() ==> fits_key(#[trigger] keys[i]),
        0 <= at < count <= keys.len(),
        wanted.contains(keys[at]),
        forall|i: int| at < i < keys.len() ==> !wanted.contains(#[trigger] keys[i]),
    ensures
        last_value(keyed_lines(keys, values), wanted, count) == values[at],
    decreases count,
{
    let last = count - 1;
    assert(fits_key(keys[last]));
    law_keyed_line_round_trip(keys[last], values[last]);
    if last > at {
        lemma_value_is_found(keys, values, wanted, at, last as nat);
    }
}

/// The letters from A to Z become those from a to z, and nothing else changes.
pub proof fn law_lower_case_is_of_the_same_length(text: Seq<char>, index: int)
    requires
        0 <= index < text.len(),
    ensures
        lowered(text).len() == text.len(),
        'A' <= text[index] && text[index] <= 'Z' ==> lowered(text)[index] as int - 'a' as int
            == text[index] as int - 'A' as int,
        !('A' <= text[index] && text[index] <= 'Z') ==> lowered(text)[index] == text[index],
{
}

/// A text is its trimmed part with nothing but white space before and behind, and that part neither
/// begins nor ends with any.
pub proof fn law_trimming_takes_the_space_around(text: Seq<char>)
    ensures
        exists|from: int, to: int|
            {
                &&& 0 <= from <= to <= text.len()
                &&& trimmed(text) == #[trigger] text.subrange(from, to)
                &&& forall|i: int| 0 <= i < from ==> is_space(#[trigger] text[i])
                &&& forall|i: int| to <= i < text.len() ==> is_space(#[trigger] text[i])
            },
        trimmed(text).len() > 0 ==> !is_space(trimmed(text)[0]) && !is_space(trimmed(text).last()),
        is_space(' ') && is_space('\t') && is_space('\n') && is_space('\r'),
        forall|c: char| '!' <= c && c <= '~' ==> !#[trigger] is_space(c),
{
    lemma_has_trimmed_part(text, 0, text.len() as int);
    let (from, to) = choose|from: int, to: int| is_trimmed_part(text, from, to);
    assert(is_trimmed_part(text, from, to));
    assert(trimmed(text) == text.subrange(from, to));
}

/// Every text has a part without white space around it.
proof fn lemma_has_trimmed_part(text: Seq<char>, from: int, to: int)
    requires
        0 <= from <= to <= text.len(),
        forall|i: int| 0 <= i < from ==> is_space(#[trigger] text[i]),
        forall|i: int| to <= i < text.len() ==> is_space(#[trigger] text[i]),
    ensures
        exists|a: int, b: int| is_trimmed_part(text, a, b),
    decreases to - from,
{
    if from < to && is_space(text[from]) {
        lemma_has_trimmed_part(text, from + 1, to);
    } else if from < to && is_space(text[to - 1]) {
        lemma_has_trimmed_part(text, from, to - 1);
    } else {
        assert(is_trimmed_part(text, from, to));
    }
}

/// Of several lines that give a value to the wanted keys, the last counts. Where none does, there is
/// no value.
pub proof fn law_the_last_value_counts(
    lines: Seq<Seq<char>>,
    wanted: Seq<Seq<char>>,
    key: Seq<char>,
    value: Seq<char>,
)
    requires
        fits_key(key),
    ensures
        value_for(Seq::empty(), wanted) == Seq::<char>::empty(),
        wanted.contains(key) ==> value_for(lines.push(key + seq!['='] + value), wanted) == value,
        !wanted.contains(key) ==> value_for(lines.push(key + seq!['='] + value), wanted)
            == value_for(lines, wanted),
{
    let line = keyed_line(key, value);
    law_keyed_line_round_trip(key, value);
    let longer = lines.push(line);
    lemma_last_value_same(longer, lines, wanted, lines.len());
}

/// Only the lines that are looked at make a difference.
proof fn lemma_last_value_same(
    one: Seq<Seq<char>>,
    other: Seq<Seq<char>>,
    wanted: Seq<Seq<char>>,
    count: nat,
)
    requires
        forall|i: int| 0 <= i < count ==> #[trigger] one[i] == other[i],
    ensures
        last_value(one, wanted, count) == last_value(other, wanted, count),
    decreases count,
{
    if count > 0 {
        assert(one[count - 1] == other[count - 1]);
        lemma_last_value_same(one, other, wanted, (count - 1) as nat);
    }
}

/// A line ends with a line feed, or with a carriage return and a line feed, which are no part of it. What
/// is left at the end of a text is a line too.
pub proof fn law_lines_end_with_line_feeds(line: Seq<char>, rest: Seq<char>)
    requires
        fits_line(line),
    ensures
        lines_of(line + seq!['\n'] + rest) == seq![line] + lines_of(rest),
        lines_of(line + seq!['\r', '\n'] + rest) == seq![line] + lines_of(rest),
        line.len() > 0 ==> lines_of(line) == seq![line],
        lines_of(Seq::<char>::empty()).len() == 0,
{
    lemma_first_line(line, rest);
    let returned = line.push('\r');
    let text = line + seq!['\r', '\n'] + rest;
    let front = returned + seq!['\n'];
    assert(text =~= front + rest);
    let end = returned.len() as int;
    assert forall|i: int| 0 <= i < end implies text[i] != '\n' by {}
    crate::text::lemma_is_first_at(text, '\n', 0, end);
    assert(text.subrange(0, end) =~= returned);
    assert(without_return(returned) =~= line);
    lemma_lines_from_shift(front, rest, 0);
    if line.len() > 0 {
        crate::text::lemma_is_first_at(line, '\n', 0, line.len() as int);
        assert(line.subrange(0, line.len() as int) =~= line);
    }
}

} // verus!
