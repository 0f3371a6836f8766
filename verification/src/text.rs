//! Text: numbers and addresses written out and read back, lines, and the searches and comparisons
//! that commands, devices and reports need.

use vstd::prelude::*;
use vstd::string::*;

verus! {

/// `String::push` adds a character at the end.
pub assume_specification[ String::push ](text: &mut String, c: char)
    ensures
        final(text)@ == old(text)@.push(c),
;

/// The characters of a text.
pub fn chars_of(text: &str) -> (chars: Vec<char>)
    ensures
        chars@ == text@,
{
    let mut chars: Vec<char> = Vec::new();
    for c in iter: text.chars()
        invariant
            chars@ == text@.take(iter.index()),
            iter.seq() == text@,
    {
        chars.push(c);
        proof {
            assert(text@.take(iter.index() + 1) =~= text@.take(iter.index()).push(c));
        }
    }
    proof {
        assert(text@.take(text@.len() as int) =~= text@);
    }
    chars
}

/// Whether two texts are the same.
pub fn same_text(a: &str, b: &str) -> (same: bool)
    ensures
        same == (a@ == b@),
{
    let left: Vec<char> = chars_of(a);
    let right: Vec<char> = chars_of(b);
    same_chars(left.as_slice(), right.as_slice())
}

/// Whether two sequences of characters are the same.
pub fn same_chars(a: &[char], b: &[char]) -> (same: bool)
    ensures
        same == (a@ == b@),
{
    if a.len() != b.len() {
        return false;
    }
    let mut index: usize = 0;
    while index < a.len()
        invariant
            index <= a@.len(),
            a@.len() == b@.len(),
            forall|i: int| 0 <= i < index ==> a@[i] == b@[i],
        decreases a@.len() - index,
    {
        if a[index] != b[index] {
            return false;
        }
        index = index + 1;
    }
    proof {
        assert(a@ =~= b@);
    }
    true
}

/// Adds characters at the end of a text.
pub fn push_chars(text: &mut String, chars: &[char])
    ensures
        final(text)@ == old(text)@ + chars@,
{
    let mut index: usize = 0;
    proof {
        assert(text@ =~= text@ + chars@.take(0));
    }
    while index < chars.len()
        invariant
            index <= chars@.len(),
            text@ == old(text)@ + chars@.take(index as int),
        decreases chars@.len() - index,
    {
        text.push(chars[index]);
        proof {
            assert(old(text)@ + chars@.take(index + 1) =~= (old(text)@ + chars@.take(
                index as int,
            )).push(chars@[index as int]));
        }
        index = index + 1;
    }
    proof {
        assert(chars@.take(chars@.len() as int) =~= chars@);
    }
}

/// A decimal digit.
pub open spec fn digit_char(digit: int) -> char {
    ('0' as int + digit) as char
}

/// A number written out in decimal.
pub open spec fn decimal(number: nat) -> Seq<char>
    decreases number,
{
    if number < 10 {
        seq![digit_char(number as int)]
    } else {
        decimal(number / 10).push(digit_char(number as int % 10))
    }
}

/// A decimal digit.
fn digit(value: u64) -> (c: char)
    requires
        value < 10,
    ensures
        c == digit_char(value as int),
{
    match value {
        0 => '0',
        1 => '1',
        2 => '2',
        3 => '3',
        4 => '4',
        5 => '5',
        6 => '6',
        7 => '7',
        8 => '8',
        _ => '9',
    }
}

/// Writes out a number.
pub fn push_decimal(text: &mut String, number: u64)
    ensures
        final(text)@ == old(text)@ + decimal(number as nat),
    decreases number,
{
    let ghost before = text@;
    if number >= 10 {
        push_decimal(text, number / 10);
        text.push(digit(number % 10));
        proof {
            assert(text@ =~= before + decimal(number as nat));
        }
    } else {
        text.push(digit(number));
        proof {
            assert(text@ =~= before + decimal(number as nat));
        }
    }
}

/// A number written out.
pub fn decimal_text(number: u64) -> (text: String)
    ensures
        text@ == decimal(number as nat),
{
    let mut text: String = String::new();
    push_decimal(&mut text, number);
    proof {
        assert(text@ =~= decimal(number as nat));
    }
    text
}

/// A number written out with at least two digits.
pub open spec fn two_digits(number: nat) -> Seq<char> {
    if number < 10 {
        seq!['0', digit_char(number as int)]
    } else {
        decimal(number)
    }
}

/// Writes out a number with at least two digits.
pub fn push_two_digits(text: &mut String, number: u64)
    ensures
        final(text)@ == old(text)@ + two_digits(number as nat),
{
    let ghost before = text@;
    if number < 10 {
        text.push('0');
        text.push(digit(number));
        proof {
            assert(text@ =~= before + two_digits(number as nat));
        }
    } else {
        push_decimal(text, number);
    }
}

/// An address written out.
pub open spec fn dotted(ip: [u8; 4]) -> Seq<char> {
    decimal(ip@[0] as nat) + seq!['.'] + decimal(ip@[1] as nat) + seq!['.'] + decimal(
        ip@[2] as nat,
    ) + seq!['.'] + decimal(ip@[3] as nat)
}

/// Writes out an address.
pub fn push_dotted(text: &mut String, ip: [u8; 4])
    ensures
        final(text)@ == old(text)@ + dotted(ip),
{
    let ghost before = text@;
    push_decimal(text, ip[0] as u64);
    text.push('.');
    push_decimal(text, ip[1] as u64);
    text.push('.');
    push_decimal(text, ip[2] as u64);
    text.push('.');
    push_decimal(text, ip[3] as u64);
    proof {
        assert(text@ =~= before + dotted(ip));
    }
}

/// An address written out.
pub fn dotted_text(ip: [u8; 4]) -> (text: String)
    ensures
        text@ == dotted(ip),
{
    let mut text: String = String::new();
    push_dotted(&mut text, ip);
    proof {
        assert(text@ =~= dotted(ip));
    }
    text
}

/// Why a text is not a number.
#[derive(Clone, Copy, Debug, PartialEq, Eq, Structural)]
pub enum NumberError {
    Empty,
    InvalidDigit,
    TooLarge,
}

impl NumberError {
    /// The error in words.
    pub open spec fn words(self) -> Seq<char> {
        match self {
            NumberError::Empty => "cannot parse integer from empty string"@,
            NumberError::InvalidDigit => "invalid digit found in string"@,
            NumberError::TooLarge => "number too large to fit in target type"@,
        }
    }

    pub fn message(self) -> (text: &'static str)
        ensures
            text@ == self.words(),
    {
        match self {
            NumberError::Empty => "cannot parse integer from empty string",
            NumberError::InvalidDigit => "invalid digit found in string",
            NumberError::TooLarge => "number too large to fit in target type",
        }
    }
}

/// Whether a character is a decimal digit.
pub open spec fn is_digit(c: char) -> bool {
    '0' as int <= c as int <= '9' as int
}

/// What the first `count` digits of a text are worth, or the first thing that is wrong with them.
pub open spec fn digits_worth(digits: Seq<char>, max: nat, count: nat) -> Result<nat, NumberError>
    decreases count,
{
    if count == 0 {
        Ok(0)
    } else {
        match digits_worth(digits, max, (count - 1) as nat) {
            Err(error) => Err(error),
            Ok(worth) => {
                let c = digits[count - 1];
                let next = worth * 10 + (c as int - '0' as int);
                if !is_digit(c) {
                    Err(NumberError::InvalidDigit)
                } else if next > max {
                    Err(NumberError::TooLarge)
                } else {
                    Ok(next as nat)
                }
            },
        }
    }
}

/// The number that a text stands for: decimal digits, behind a plus sign or not.
pub open spec fn number_of(text: Seq<char>, max: nat) -> Result<nat, NumberError> {
    if text.len() == 0 {
        Err(NumberError::Empty)
    } else if text.len() > 1 && text[0] == '+' {
        digits_worth(text.skip(1), max, (text.len() - 1) as nat)
    } else {
        digits_worth(text, max, text.len())
    }
}

/// Reads a number that is no larger than `max`.
pub fn parse_number(chars: &[char], max: u64) -> (number: Result<u64, NumberError>)
    ensures
        match number_of(chars@, max as nat) {
            Ok(worth) => number == Ok::<u64, NumberError>(worth as u64) && worth <= max,
            Err(error) => number == Err::<u64, NumberError>(error),
        },
{
    if chars.len() == 0 {
        return Err(NumberError::Empty);
    }
    let start: usize = if chars.len() > 1 && chars[0] == '+' {
        1
    } else {
        0
    };
    let ghost digits = chars@.skip(start as int);
    proof {
        assert(chars@.skip(0) =~= chars@);
    }
    let mut worth: u64 = 0;
    let mut index: usize = start;
    while index < chars.len()
        invariant
            start <= index <= chars@.len(),
            start <= 1,
            digits == chars@.skip(start as int),
            worth <= max,
            digits_worth(digits, max as nat, (index - start) as nat) == Ok::<nat, NumberError>(
                worth as nat,
            ),
            number_of(chars@, max as nat) == digits_worth(digits, max as nat, digits.len()),
        decreases chars@.len() - index,
    {
        let c: char = chars[index];
        assert(c == digits[index - start]);
        if !('0' <= c && c <= '9') {
            proof {
                lemma_error_stays(
                    digits,
                    max as nat,
                    (index - start + 1) as nat,
                    digits.len(),
                );
            }
            return Err(NumberError::InvalidDigit);
        }
        let value: u64 = c as u64 - '0' as u64;
        if worth > (u64::MAX - value) / 10 || worth * 10 + value > max {
            proof {
                assert(worth * 10 + value > max);
                lemma_error_stays(
                    digits,
                    max as nat,
                    (index - start + 1) as nat,
                    digits.len(),
                );
            }
            return Err(NumberError::TooLarge);
        }
        worth = worth * 10 + value;
        index = index + 1;
    }
    Ok(worth)
}

/// An error early in a text is the text's error.
proof fn lemma_error_stays(digits: Seq<char>, max: nat, early: nat, late: nat)
    requires
        early <= late,
        digits_worth(digits, max, early) is Err,
    ensures
        digits_worth(digits, max, late) == digits_worth(digits, max, early),
    decreases late - early,
{
    if early < late {
        lemma_error_stays(digits, max, early, (late - 1) as nat);
    }
}

/// A number that is written out is read back.
pub proof fn law_decimal_round_trip(number: nat, max: nat)
    requires
        number <= max,
    ensures
        number_of(decimal(number), max) == Ok::<nat, NumberError>(number),
{
    lemma_decimal_digits(number);
    lemma_decimal_worth(number, max);
}

/// A number is written out in digits.
pub proof fn lemma_decimal_digits(number: nat)
    ensures
        decimal(number).len() >= 1,
        forall|i: int| 0 <= i < decimal(number).len() ==> is_digit(#[trigger] decimal(number)[i]),
    decreases number,
{
    if number >= 10 {
        lemma_decimal_digits(number / 10);
    }
}

proof fn lemma_decimal_worth(number: nat, max: nat)
    requires
        number <= max,
    ensures
        digits_worth(decimal(number), max, decimal(number).len()) == Ok::<nat, NumberError>(number),
    decreases number,
{
    let digits = decimal(number);
    if number < 10 {
        reveal_with_fuel(digits_worth, 2);
    } else {
        let front = decimal(number / 10);
        lemma_decimal_worth(number / 10, max);
        lemma_worth_of_prefix(front, digits, max, front.len());
    }
}

proof fn lemma_worth_of_prefix(a: Seq<char>, b: Seq<char>, max: nat, count: nat)
    requires
        count <= a.len(),
        count <= b.len(),
        forall|i: int| 0 <= i < count ==> a[i] == b[i],
    ensures
        digits_worth(a, max, count) == digits_worth(b, max, count),
    decreases count,
{
    if count > 0 {
        lemma_worth_of_prefix(a, b, max, (count - 1) as nat);
    }
}

/// A number that is written out with at least two digits is read back.
pub proof fn law_two_digits_round_trip(number: nat, max: nat)
    requires
        number <= max,
    ensures
        number_of(two_digits(number), max) == Ok::<nat, NumberError>(number),
{
    if number < 10 {
        reveal_with_fuel(digits_worth, 3);
    } else {
        law_decimal_round_trip(number, max);
    }
}

/// Numbers that are written out the same are the same.
pub proof fn law_decimal_is_injective(a: nat, b: nat)
    requires
        decimal(a) == decimal(b),
    ensures
        a == b,
{
    let max = if a < b {
        b
    } else {
        a
    };
    law_decimal_round_trip(a, max);
    law_decimal_round_trip(b, max);
}

/// The place of the first such character from a place on, or the end.
pub open spec fn first_at(text: Seq<char>, c: char, from: int) -> int
    decreases text.len() - from,
{
    if from >= text.len() {
        text.len() as int
    } else if text[from] == c {
        from
    } else {
        first_at(text, c, from + 1)
    }
}

/// What the first place is.
pub proof fn lemma_first_at(text: Seq<char>, c: char, from: int)
    requires
        0 <= from <= text.len(),
    ensures
        from <= first_at(text, c, from) <= text.len(),
        forall|i: int| from <= i < first_at(text, c, from) ==> text[i] != c,
        first_at(text, c, from) < text.len() ==> text[first_at(text, c, from)] == c,
    decreases text.len() - from,
{
    if from < text.len() && text[from] != c {
        lemma_first_at(text, c, from + 1);
    }
}

/// A place before which there is no such character is the first.
pub proof fn lemma_is_first_at(text: Seq<char>, c: char, from: int, at: int)
    requires
        0 <= from <= at <= text.len(),
        forall|i: int| from <= i < at ==> text[i] != c,
        at < text.len() ==> text[at] == c,
    ensures
        first_at(text, c, from) == at,
    decreases at - from,
{
    if from < at {
        lemma_is_first_at(text, c, from + 1, at);
    }
}

/// Finds a character from a place on. Gives the end where there is none.
pub fn find_char(chars: &[char], c: char, from: usize) -> (at: usize)
    requires
        from <= chars@.len(),
    ensures
        at == first_at(chars@, c, from as int),
        from <= at <= chars@.len(),
{
    let mut at: usize = from;
    while at < chars.len() && chars[at] != c
        invariant
            from <= at <= chars@.len(),
            forall|i: int| from <= i < at ==> chars@[i] != c,
        decreases chars@.len() - at,
    {
        at = at + 1;
    }
    proof {
        lemma_is_first_at(chars@, c, from as int, at as int);
    }
    at
}

/// A part of a text.
pub fn part(chars: &[char], from: usize, to: usize) -> (piece: Vec<char>)
    requires
        from <= to <= chars@.len(),
    ensures
        piece@ == chars@.subrange(from as int, to as int),
{
    let mut piece: Vec<char> = Vec::new();
    let mut index: usize = from;
    while index < to
        invariant
            from <= index <= to <= chars@.len(),
            piece@ == chars@.subrange(from as int, index as int),
        decreases to - index,
    {
        piece.push(chars[index]);
        index = index + 1;
        proof {
            assert(chars@.subrange(from as int, index as int) =~= chars@.subrange(
                from as int,
                index - 1,
            ).push(chars@[index - 1]));
        }
    }
    piece
}

/// What an octet looks like: at most three digits, and no zero in front.
proof fn lemma_octet(value: nat)
    requires
        value <= 999,
    ensures
        value < 10 ==> decimal(value) == seq![digit_char(value as int)],
        10 <= value < 100 ==> decimal(value) == seq![
            digit_char(value as int / 10),
            digit_char(value as int % 10),
        ],
        100 <= value ==> decimal(value) == seq![
            digit_char(value as int / 100),
            digit_char(value as int / 10 % 10),
            digit_char(value as int % 10),
        ],
{
    reveal_with_fuel(decimal, 3);
    if value >= 100 {
        assert(decimal(value) =~= seq![
            digit_char(value as int / 100),
            digit_char(value as int / 10 % 10),
            digit_char(value as int % 10),
        ]);
    } else if value >= 10 {
        assert(decimal(value) =~= seq![
            digit_char(value as int / 10),
            digit_char(value as int % 10),
        ]);
    }
}

/// What every octet looks like when it is written out.
proof fn lemma_octet_shape(value: u8)
    ensures
        1 <= decimal(value as nat).len() <= 3,
        decimal(value as nat).len() > 1 ==> decimal(value as nat)[0] != '0',
        forall|i: int|
            0 <= i < decimal(value as nat).len() ==> is_digit(#[trigger] decimal(value as nat)[i]),
{
    lemma_octet(value as nat);
    lemma_decimal_digits(value as nat);
}

/// What up to three digits with no zero in front are worth when they are read from the left.
spec fn octet_worth(segment: Seq<char>, count: int) -> int {
    if count <= 0 {
        0
    } else if count == 1 {
        segment[0] as int - '0' as int
    } else if count == 2 {
        (segment[0] as int - '0' as int) * 10 + (segment[1] as int - '0' as int)
    } else {
        (segment[0] as int - '0' as int) * 100 + (segment[1] as int - '0' as int) * 10 + (
        segment[2] as int - '0' as int)
    }
}

/// Such digits are how their worth is written out.
proof fn lemma_octet_is_read(segment: Seq<char>)
    requires
        1 <= segment.len() <= 3,
        segment.len() > 1 ==> segment[0] != '0',
        forall|i: int| 0 <= i < segment.len() ==> is_digit(#[trigger] segment[i]),
    ensures
        0 <= octet_worth(segment, segment.len() as int) <= 999,
        segment == decimal(octet_worth(segment, segment.len() as int) as nat),
{
    let worth = octet_worth(segment, segment.len() as int);
    assert(is_digit(segment[0]));
    if segment.len() > 1 {
        assert(is_digit(segment[1]));
    }
    if segment.len() > 2 {
        assert(is_digit(segment[2]));
    }
    lemma_octet(worth as nat);
    assert(segment =~= decimal(worth as nat));
}

/// Reads a number of an address: exactly as it is written out.
fn parse_octet(chars: &[char], from: usize, to: usize) -> (octet: Option<u8>)
    requires
        from <= to <= chars@.len(),
    ensures
        match octet {
            Some(value) => chars@.subrange(from as int, to as int) == decimal(value as nat),
            None => forall|value: u8|
                chars@.subrange(from as int, to as int) != #[trigger] decimal(value as nat),
        },
{
    let ghost segment = chars@.subrange(from as int, to as int);
    let count: usize = to - from;
    if count == 0 || count > 3 || (count > 1 && chars[from] == '0') {
        proof {
            assert forall|value: u8| segment != #[trigger] decimal(value as nat) by {
                lemma_octet_shape(value);
                assert(count > 0 ==> segment[0] == chars@[from as int]);
            }
        }
        return None;
    }
    assert(segment[0] == chars@[from as int]);
    let mut worth: u32 = 0;
    let mut index: usize = from;
    while index < to
        invariant
            from <= index <= to <= chars@.len(),
            1 <= to - from <= 3,
            segment == chars@.subrange(from as int, to as int),
            forall|i: int| 0 <= i < index - from ==> is_digit(#[trigger] segment[i]),
            worth == octet_worth(segment, index - from),
            worth <= 999,
            index == from ==> worth <= 0,
            index == from + 1 ==> worth <= 9,
            index == from + 2 ==> worth <= 99,
        decreases to - index,
    {
        let c: char = chars[index];
        assert(c == segment[index - from]);
        if !('0' <= c && c <= '9') {
            proof {
                assert forall|value: u8| segment != #[trigger] decimal(value as nat) by {
                    lemma_octet_shape(value);
                    if segment == decimal(value as nat) {
                        assert(is_digit(decimal(value as nat)[index - from]));
                    }
                }
            }
            return None;
        }
        worth = worth * 10 + (c as u32 - '0' as u32);
        index = index + 1;
    }
    proof {
        lemma_octet_is_read(segment);
    }
    if worth > 255 {
        proof {
            assert forall|value: u8| segment != #[trigger] decimal(value as nat) by {
                if segment == decimal(value as nat) {
                    law_decimal_is_injective(value as nat, worth as nat);
                }
            }
        }
        return None;
    }
    Some(worth as u8)
}

/// Where the dots of an address are, and what stands between them.
proof fn lemma_dotted(text: Seq<char>, ip: [u8; 4])
    requires
        text == dotted(ip),
    ensures
        ({
            let a = first_at(text, '.', 0);
            let b = first_at(text, '.', a + 1);
            let c = first_at(text, '.', b + 1);
            let d = first_at(text, '.', c + 1);
            &&& 0 <= a < b < c < d == text.len()
            &&& text.subrange(0, a) == decimal(ip@[0] as nat)
            &&& text.subrange(a + 1, b) == decimal(ip@[1] as nat)
            &&& text.subrange(b + 1, c) == decimal(ip@[2] as nat)
            &&& text.subrange(c + 1, d) == decimal(ip@[3] as nat)
        }),
{
    let d0 = decimal(ip@[0] as nat);
    let d1 = decimal(ip@[1] as nat);
    let d2 = decimal(ip@[2] as nat);
    let d3 = decimal(ip@[3] as nat);
    lemma_decimal_digits(ip@[0] as nat);
    lemma_decimal_digits(ip@[1] as nat);
    lemma_decimal_digits(ip@[2] as nat);
    lemma_decimal_digits(ip@[3] as nat);
    let a = d0.len() as int;
    let b = a + 1 + d1.len();
    let c = b + 1 + d2.len();
    let d = c + 1 + d3.len();
    assert(text.len() == d);
    assert forall|i: int| 0 <= i < a implies text[i] != '.' by {
        assert(is_digit(d0[i]));
    }
    assert forall|i: int| a + 1 <= i < b implies text[i] != '.' by {
        assert(is_digit(d1[i - a - 1]));
    }
    assert forall|i: int| b + 1 <= i < c implies text[i] != '.' by {
        assert(is_digit(d2[i - b - 1]));
    }
    assert forall|i: int| c + 1 <= i < d implies text[i] != '.' by {
        assert(is_digit(d3[i - c - 1]));
    }
    lemma_is_first_at(text, '.', 0, a);
    lemma_is_first_at(text, '.', a + 1, b);
    lemma_is_first_at(text, '.', b + 1, c);
    lemma_is_first_at(text, '.', c + 1, d);
    assert(text.subrange(0, a) =~= d0);
    assert(text.subrange(a + 1, b) =~= d1);
    assert(text.subrange(b + 1, c) =~= d2);
    assert(text.subrange(c + 1, d) =~= d3);
}

/// Reads an address. It has to be exactly as an address is written out.
pub fn parse_ipv4(text: &str) -> (ip: Option<[u8; 4]>)
    ensures
        match ip {
            Some(address) => text@ == dotted(address),
            None => forall|address: [u8; 4]| text@ != #[trigger] dotted(address),
        },
{
    let chars: Vec<char> = chars_of(text);
    let all: &[char] = chars.as_slice();
    let ghost whole = text@;
    proof {
        lemma_first_at(whole, '.', 0);
        assert forall|address: [u8; 4]| whole == #[trigger] dotted(address) implies {
            let a = first_at(whole, '.', 0);
            let b = first_at(whole, '.', a + 1);
            let c = first_at(whole, '.', b + 1);
            let d = first_at(whole, '.', c + 1);
            &&& 0 <= a < b < c < d == whole.len()
            &&& whole.subrange(0, a) == decimal(address@[0] as nat)
            &&& whole.subrange(a + 1, b) == decimal(address@[1] as nat)
            &&& whole.subrange(b + 1, c) == decimal(address@[2] as nat)
            &&& whole.subrange(c + 1, d) == decimal(address@[3] as nat)
        } by {
            lemma_dotted(whole, address);
        }
    }
    let a: usize = find_char(all, '.', 0);
    if a == all.len() {
        return None;
    }
    let b: usize = find_char(all, '.', a + 1);
    if b == all.len() {
        return None;
    }
    let c: usize = find_char(all, '.', b + 1);
    if c == all.len() {
        return None;
    }
    let d: usize = find_char(all, '.', c + 1);
    if d != all.len() {
        return None;
    }
    match (
        parse_octet(all, 0, a),
        parse_octet(all, a + 1, b),
        parse_octet(all, b + 1, c),
        parse_octet(all, c + 1, d),
    ) {
        (Some(first), Some(second), Some(third), Some(fourth)) => {
            let ip: [u8; 4] = [first, second, third, fourth];
            proof {
                lemma_first_at(whole, '.', a + 1);
                lemma_first_at(whole, '.', b + 1);
                lemma_first_at(whole, '.', c + 1);
                assert(whole =~= dotted(ip));
            }
            Some(ip)
        },
        _ => None,
    }
}

/// An address that is written out is read back, and no other is.
pub proof fn law_dotted_is_injective(a: [u8; 4], b: [u8; 4])
    requires
        dotted(a) == dotted(b),
    ensures
        a == b,
{
    lemma_dotted(dotted(a), a);
    lemma_dotted(dotted(a), b);
    law_decimal_is_injective(a@[0] as nat, b@[0] as nat);
    law_decimal_is_injective(a@[1] as nat, b@[1] as nat);
    law_decimal_is_injective(a@[2] as nat, b@[2] as nat);
    law_decimal_is_injective(a@[3] as nat, b@[3] as nat);
    assert(a@ =~= b@);
    assert(a =~= b);
}

/// Numbers are written in decimal: a digit by its character, and a longer number as what comes before
/// its last digit, and that digit.
pub proof fn law_numbers_are_written_in_decimal(number: nat, digit: nat)
    requires
        digit < 10,
    ensures
        decimal(digit).len() == 1,
        decimal(digit)[0] as int == '0' as int + digit,
        number > 0 ==> decimal(10 * number + digit) == decimal(number) + decimal(digit),
{
    if number > 0 {
        let whole = 10 * number + digit;
        assert(whole / 10 == number && whole % 10 == digit);
        assert(decimal(whole) =~= decimal(number) + decimal(digit));
    }
}

/// Numbers are read in decimal: a digit more makes a number ten times as large, and adds the digit. A
/// plus sign in front makes no difference, and anything else than a digit is refused.
pub proof fn law_numbers_are_read_in_decimal(text: Seq<char>, worth: nat, max: nat, c: char)
    requires
        number_of(text, max) == Ok::<nat, NumberError>(worth),
    ensures
        text.len() > 0,
        '0' <= c && c <= '9' && 10 * worth + (c as int - '0' as int) <= max ==> number_of(
            text.push(c),
            max,
        ) == Ok::<nat, NumberError>((10 * worth + (c as int - '0' as int)) as nat),
        '0' <= c && c <= '9' && 10 * worth + (c as int - '0' as int) > max ==> number_of(
            text.push(c),
            max,
        ) == Err::<nat, NumberError>(NumberError::TooLarge),
        !('0' <= c && c <= '9') ==> number_of(text.push(c), max) == Err::<nat, NumberError>(
            NumberError::InvalidDigit,
        ),
        text[0] != '+' ==> number_of(seq!['+'] + text, max) == Ok::<nat, NumberError>(worth),
{
    let longer = text.push(c);
    if text[0] == '+' {
        if text.len() == 1 {
            reveal_with_fuel(digits_worth, 2);
        } else {
            assert(longer.skip(1) =~= text.skip(1).push(c));
            lemma_worth_of_prefix(text.skip(1), longer.skip(1), max, (text.len() - 1) as nat);
        }
    } else {
        lemma_worth_of_prefix(text, longer, max, text.len());
        let signed = seq!['+'] + text;
        assert(signed.skip(1) =~= text);
    }
}

/// One digit alone is its worth, and no text is no number.
pub proof fn law_a_digit_is_its_worth(c: char, max: nat)
    requires
        max >= 9,
    ensures
        number_of(Seq::empty(), max) == Err::<nat, NumberError>(NumberError::Empty),
        '0' <= c && c <= '9' ==> number_of(seq![c], max) == Ok::<nat, NumberError>(
            (c as int - '0' as int) as nat,
        ),
        !('0' <= c && c <= '9') ==> number_of(seq![c], max) == Err::<nat, NumberError>(
            NumberError::InvalidDigit,
        ),
{
    reveal_with_fuel(digits_worth, 2);
}

/// An address is written as its four octets, with dots between them.
pub proof fn law_addresses_are_four_octets_and_dots(ip: [u8; 4])
    ensures
        dotted(ip) == decimal(ip@[0] as nat) + seq!['.'] + (decimal(ip@[1] as nat) + seq!['.'] + (
        decimal(ip@[2] as nat) + seq!['.'] + decimal(ip@[3] as nat))),
{
    assert(dotted(ip) =~= decimal(ip@[0] as nat) + seq!['.'] + (decimal(ip@[1] as nat) + seq!['.']
        + (decimal(ip@[2] as nat) + seq!['.'] + decimal(ip@[3] as nat))));
}

/// A number with at least two digits is the number, behind a zero where it has one digit.
pub proof fn law_two_digits_are_padded_with_a_zero(number: nat)
    ensures
        number < 10 ==> two_digits(number) == seq!['0'] + decimal(number),
        number >= 10 ==> two_digits(number) == decimal(number),
        two_digits(number).len() >= 2,
{
    if number < 10 {
        assert(two_digits(number) =~= seq!['0'] + decimal(number));
    } else {
        lemma_decimal_digits(number / 10);
    }
}

/// What is wrong with a number is told in words.
pub proof fn law_errors_in_numbers_are_told_in_words()
    ensures
        NumberError::Empty.words() == "cannot parse integer from empty string"@,
        NumberError::InvalidDigit.words() == "invalid digit found in string"@,
        NumberError::TooLarge.words() == "number too large to fit in target type"@,
{
}

} // verus!
