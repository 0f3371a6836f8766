//! Text in the buffers of a host: UTF-16 units or bytes, ended with a zero.

use crate::text::chars_of;
use vstd::prelude::*;
use vstd::string::*;

verus! {

/// The UTF-16 units of a character: one, or two where it lies beyond the first 65536.
pub open spec fn units_of(c: char) -> Seq<u16> {
    let code = c as int;
    if code < 0x1_0000 {
        seq![code as u16]
    } else {
        let rest = code - 0x1_0000;
        seq![(0xd800 + rest / 0x400) as u16, (0xdc00 + rest % 0x400) as u16]
    }
}

/// A text in UTF-16.
pub open spec fn utf16(text: Seq<char>) -> Seq<u16>
    decreases text.len(),
{
    if text.len() == 0 {
        Seq::empty()
    } else {
        utf16(text.drop_last()) + units_of(text.last())
    }
}

/// Writes a character in UTF-16.
fn push_units(units: &mut Vec<u16>, c: char)
    ensures
        final(units)@ == old(units)@ + units_of(c),
{
    let code: u32 = c as u32;
    if code < 0x1_0000 {
        units.push(code as u16);
    } else {
        let rest: u32 = code - 0x1_0000;
        units.push((0xd800 + rest / 0x400) as u16);
        units.push((0xdc00 + rest % 0x400) as u16);
    }
    proof {
        assert(units@ =~= old(units)@ + units_of(c));
    }
}

/// Writes a text in UTF-16.
pub fn encode_utf16(text: &str) -> (units: Vec<u16>)
    ensures
        units@ == utf16(text@),
{
    let chars: Vec<char> = chars_of(text);
    let mut units: Vec<u16> = Vec::new();
    let mut index: usize = 0;
    while index < chars.len()
        invariant
            chars@ == text@,
            index <= chars@.len(),
            units@ == utf16(chars@.take(index as int)),
        decreases chars@.len() - index,
    {
        push_units(&mut units, chars[index]);
        index = index + 1;
        proof {
            let longer = chars@.take(index as int);
            assert(longer.drop_last() =~= chars@.take(index - 1));
            assert(longer.last() == chars@[index - 1]);
        }
    }
    proof {
        assert(chars@.take(chars@.len() as int) =~= chars@);
    }
    units
}

/// A text in UTF-16 with a zero at the end.
pub fn wide_null(text: &str) -> (units: Vec<u16>)
    ensures
        units@ == utf16(text@).push(0),
{
    let mut units: Vec<u16> = encode_utf16(text);
    units.push(0);
    units
}

/// `String::from_utf16` gives the text that units are the UTF-16 of, and nothing where they are
/// of none.
#[verifier::external_body]
fn decode_utf16(units: &[u16]) -> (text: Option<String>)
    ensures
        text matches Some(t) ==> utf16(t@) == units@,
        text is None ==> forall|t: Seq<char>| #[trigger] utf16(t) != units@,
{
    String::from_utf16(units).ok()
}

/// Reads a text in UTF-16.
pub fn read_wide(units: &[u16]) -> (text: Option<String>)
    ensures
        text matches Some(t) ==> utf16(t@) == units@,
        text is None ==> forall|t: Seq<char>| #[trigger] utf16(t) != units@,
{
    decode_utf16(units)
}

/// A buffer after a text was put into it, cut off where it does not fit, and ended with a zero.
pub open spec fn placed<T>(content: Seq<T>, zero: T, buffer: Seq<T>) -> Seq<T> {
    Seq::new(
        buffer.len(),
        |i: int|
            if i < content.len() && i < buffer.len() - 1 {
                content[i]
            } else if i == content.len() || i == buffer.len() - 1 && content.len() >= buffer.len() {
                zero
            } else {
                buffer[i]
            },
    )
}

/// Puts a text into a buffer of UTF-16 units.
pub fn copy_wstring(src: &str, dst: &mut [u16])
    ensures
        final(dst)@ == placed(utf16(src@), 0u16, old(dst)@),
{
    let units: Vec<u16> = encode_utf16(src);
    let ghost before = dst@;
    let mut index: usize = 0;
    while index < units.len() && index < dst.len()
        invariant
            units@ == utf16(src@),
            index <= units@.len(),
            index <= dst@.len(),
            dst@.len() == before.len(),
            forall|i: int| 0 <= i < index ==> dst@[i] == units@[i],
            forall|i: int| index <= i < dst@.len() ==> dst@[i] == before[i],
        decreases units@.len() - index,
    {
        dst[index] = units[index];
        index = index + 1;
    }
    if index < dst.len() {
        dst[index] = 0;
    } else if index > 0 {
        dst[index - 1] = 0;
    }
    proof {
        assert(dst@ =~= placed(utf16(src@), 0u16, before));
    }
}

/// The bytes that a text has in a buffer that a zero ends: none where it holds a zero itself.
pub open spec fn zero_ended(text: Seq<char>) -> Seq<u8> {
    let bytes = vstd::utf8::encode_utf8(text);
    if bytes.contains(0u8) {
        Seq::empty()
    } else {
        bytes
    }
}

/// Puts a text into a buffer of bytes.
pub fn copy_cstring(src: &str, dst: &mut [u8])
    ensures
        final(dst)@ == placed(zero_ended(src@), 0u8, old(dst)@),
{
    let bytes: &[u8] = src.as_bytes();
    let ghost before = dst@;
    let mut count: usize = 0;
    while count < bytes.len() && bytes[count] != 0
        invariant
            count <= bytes@.len(),
            forall|i: int| 0 <= i < count ==> bytes@[i] != 0u8,
        decreases bytes@.len() - count,
    {
        count = count + 1;
    }
    if count < bytes.len() {
        assert(bytes@[count as int] == 0u8);
        count = 0;
    } else {
        assert(!bytes@.contains(0u8));
    }
    proof {
        assert(zero_ended(src@) =~= bytes@.take(count as int));
    }
    let mut index: usize = 0;
    while index < count && index < dst.len()
        invariant
            count <= bytes@.len(),
            index <= count,
            index <= dst@.len(),
            dst@.len() == before.len(),
            forall|i: int| 0 <= i < index ==> dst@[i] == bytes@[i],
            forall|i: int| index <= i < dst@.len() ==> dst@[i] == before[i],
        decreases count - index,
    {
        dst[index] = bytes[index];
        index = index + 1;
    }
    if index < dst.len() {
        dst[index] = 0;
    } else if index > 0 {
        dst[index - 1] = 0;
    }
    proof {
        assert(dst@ =~= placed(zero_ended(src@), 0u8, before));
    }
}

/// What is put into a buffer ends with a zero, whatever the text and the buffer.
pub proof fn law_placed_text_is_ended<T>(content: Seq<T>, zero: T, buffer: Seq<T>)
    requires
        buffer.len() > 0,
    ensures
        placed(content, zero, buffer).contains(zero),
        placed(content, zero, buffer).len() == buffer.len(),
{
    let after = placed(content, zero, buffer);
    if content.len() < buffer.len() {
        assert(after[content.len() as int] == zero);
    } else {
        assert(after[buffer.len() - 1] == zero);
    }
}

/// A text has its own UTF-16.
pub proof fn law_utf16_is_injective(a: Seq<char>, b: Seq<char>)
    requires
        utf16(a) == utf16(b),
    ensures
        a == b,
    decreases a.len(),
{
    if a.len() == 0 || b.len() == 0 {
        assert(a =~= b);
    } else {
        let front_a = utf16(a.drop_last());
        let front_b = utf16(b.drop_last());
        let units = utf16(a);
        let last = units.len() - 1;
        let c = a.last();
        let d = b.last();
        lemma_units(c);
        lemma_units(d);
        assert(units[last] == units_of(c).last());
        assert(units[last] == units_of(d).last());
        assert(units_of(c).len() == units_of(d).len());
        assert(front_a =~= units.take(units.len() - units_of(c).len()));
        assert(front_b =~= units.take(units.len() - units_of(c).len()));
        assert(units_of(c) =~= units.skip(units.len() - units_of(c).len()));
        assert(units_of(d) =~= units.skip(units.len() - units_of(c).len()));
        lemma_units_are_injective(c, d);
        law_utf16_is_injective(a.drop_last(), b.drop_last());
        assert(a =~= a.drop_last().push(c));
        assert(b =~= b.drop_last().push(d));
    }
}

/// A unit of two is a surrogate, and one alone is none.
proof fn lemma_units(c: char)
    ensures
        1 <= units_of(c).len() <= 2,
        units_of(c).len() == 2 <==> 0xdc00 <= units_of(c).last() < 0xe000,
{
}

proof fn lemma_units_are_injective(c: char, d: char)
    requires
        units_of(c) == units_of(d),
    ensures
        c == d,
{
    let first = units_of(c)[0] as int;
    assert(first == units_of(d)[0]);
    if units_of(c).len() == 2 {
        let second = units_of(c)[1] as int;
        assert(second == units_of(d)[1]);
        assert(c as int == 0x1_0000 + (first - 0xd800) * 0x400 + (second - 0xdc00));
        assert(d as int == 0x1_0000 + (first - 0xd800) * 0x400 + (second - 0xdc00));
    } else {
        assert(c as int == first && d as int == first);
    }
}

/// Characters are one unit of their number up to 65535, and beyond that two surrogates, the first with
/// the upper ten bits of what is left and the second with the lower ten.
pub proof fn law_wide_characters_are_two_surrogates(text: Seq<char>, c: char)
    ensures
        utf16(Seq::empty()).len() == 0,
        (c as int) < 65_536 ==> utf16(text.push(c)) == utf16(text).push(c as u16),
        (c as int) >= 65_536 ==> {
            let units = utf16(text.push(c));
            let count = utf16(text).len() as int;
            &&& units.len() == count + 2
            &&& units.take(count) == utf16(text)
            &&& 0xd800 <= units[count] < 0xdc00
            &&& 0xdc00 <= units[count + 1] < 0xe000
            &&& 65_536 + (units[count] - 0xd800) * 1024 + (units[count + 1] - 0xdc00) == c as int
        },
{
    assert(text.push(c).drop_last() =~= text);
    let units = utf16(text.push(c));
    if (c as int) < 65_536 {
        assert(units =~= utf16(text).push(c as u16));
    } else {
        let count = utf16(text).len() as int;
        assert(units.take(count) =~= utf16(text));
        assert(units[count] == units_of(c)[0] && units[count + 1] == units_of(c)[1]);
    }
}

/// A text that fits is put into a buffer whole, with a zero behind it. One that does not is cut off, and
/// the last place is the zero. What lies behind stays as it was.
pub proof fn law_texts_are_placed_from_the_start<T>(
    content: Seq<T>,
    zero: T,
    buffer: Seq<T>,
    index: int,
)
    requires
        0 <= index < buffer.len(),
    ensures
        placed(content, zero, buffer).len() == buffer.len(),
        index < content.len() && index < buffer.len() - 1 ==> placed(content, zero, buffer)[index]
            == content[index],
        index == content.len() ==> placed(content, zero, buffer)[index] == zero,
        index == buffer.len() - 1 && content.len() >= buffer.len() ==> placed(content, zero, buffer)[
            index] == zero,
        index > content.len() ==> placed(content, zero, buffer)[index] == buffer[index],
{
}

/// A text without a zero in it has its own bytes in a buffer, and one with a zero none.
pub proof fn law_texts_with_a_zero_have_no_bytes(text: Seq<char>)
    ensures
        !vstd::utf8::encode_utf8(text).contains(0u8) ==> zero_ended(text) == vstd::utf8::encode_utf8(
            text,
        ),
        vstd::utf8::encode_utf8(text).contains(0u8) ==> zero_ended(text).len() == 0,
        !zero_ended(text).contains(0u8),
{
}

} // verus!
