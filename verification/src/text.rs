//! Comparing names and writing numbers.
use vstd::prelude::*;
use vstd::string::*;

verus! {

/// Whether `needle` occurs in `text`.
pub open spec fn occurs_in(needle: Seq<char>, text: Seq<char>) -> bool {
    exists|at: int|
        0 <= at && at + needle.len() <= text.len() && #[trigger] text.subrange(
            at,
            at + needle.len(),
        ) == needle
}

/// The hexadecimal digit of a number below 16.
pub open spec fn hex_digit(value: int) -> char {
    if value < 10 {
        (48 + value) as char
    } else {
        (87 + value) as char
    }
}

/// A number in hexadecimal, in lower case and without leading zeros.
pub open spec fn hex(value: nat) -> Seq<char>
    decreases value,
{
    if value < 16 {
        seq![hex_digit(value as int)]
    } else {
        hex(value / 16).push(hex_digit(value as int % 16))
    }
}

/// Whether `name` is `expected`.
pub fn name_is(name: &String, expected: &str) -> (same: bool)
    ensures
        same == (name@ == expected@),
{
    let owned: String = expected.to_owned();
    *name == owned
}

/// Whether `needle` occurs in `text` at the position `at`.
fn occurs_at(needle: &str, text: &str, at: usize) -> (found: bool)
    requires
        at + needle@.len() <= text@.len(),
    ensures
        found == (text@.subrange(at as int, at + needle@.len()) == needle@),
{
    let count: usize = needle.unicode_len();
    let text_len: usize = text.unicode_len();
    let mut i: usize = 0;
    while i < count
        invariant
            count == needle@.len(),
            i <= count,
            text_len == text@.len(),
            at + count <= text_len,
            forall|j: int| 0 <= j < i ==> text@[at + j] == needle@[j],
        decreases count - i,
    {
        if text.get_char(at + i) != needle.get_char(i) {
            assert(text@.subrange(at as int, at + needle@.len())[i as int] != needle@[i as int]);
            return false;
        }
        i += 1;
    }
    assert(text@.subrange(at as int, at + needle@.len()) =~= needle@);
    true
}

/// Whether `needle` occurs in `text`.
pub fn contains(text: &str, needle: &str) -> (found: bool)
    ensures
        found == occurs_in(needle@, text@),
{
    let text_len: usize = text.unicode_len();
    let needle_len: usize = needle.unicode_len();
    if needle_len > text_len {
        return false;
    }
    let last: usize = text_len - needle_len;
    let mut at: usize = 0;
    while at < last
        invariant
            needle_len == needle@.len(),
            last + needle_len == text@.len(),
            at <= last,
            forall|j: int|
                0 <= j < at ==> #[trigger] text@.subrange(j, j + needle@.len()) != needle@,
        decreases last - at,
    {
        if occurs_at(needle, text, at) {
            return true;
        }
        at += 1;
    }
    occurs_at(needle, text, last)
}

/// The hexadecimal digit of a number below 16.
fn digit(value: u32) -> (text: &'static str)
    requires
        value < 16,
    ensures
        text@ == seq![hex_digit(value as int)],
{
    proof {
        reveal_strlit("0");
        reveal_strlit("1");
        reveal_strlit("2");
        reveal_strlit("3");
        reveal_strlit("4");
        reveal_strlit("5");
        reveal_strlit("6");
        reveal_strlit("7");
        reveal_strlit("8");
        reveal_strlit("9");
        reveal_strlit("a");
        reveal_strlit("b");
        reveal_strlit("c");
        reveal_strlit("d");
        reveal_strlit("e");
        reveal_strlit("f");
    }
    let text: &'static str = match value {
        0 => "0",
        1 => "1",
        2 => "2",
        3 => "3",
        4 => "4",
        5 => "5",
        6 => "6",
        7 => "7",
        8 => "8",
        9 => "9",
        10 => "a",
        11 => "b",
        12 => "c",
        13 => "d",
        14 => "e",
        _ => "f",
    };
    assert(text@ =~= seq![hex_digit(value as int)]);
    text
}

/// Appends `value` in hexadecimal to `output`.
pub fn append_hex(output: &mut String, value: u32)
    ensures
        final(output)@ == old(output)@ + hex(value as nat),
    decreases value,
{
    if value >= 16 {
        append_hex(output, value / 16);
    }
    output.append(digit(value % 16));
    assert(output@ =~= old(output)@ + hex(value as nat));
}

} // verus!
