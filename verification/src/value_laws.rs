//! What holds of alignment, byte order, and the texts of numbers.
use crate::text::{hex, hex_digit, occurs_in};
use crate::util::{
    aligned_down, aligned_up, aligned_up_is_least_multiple, alignment_gap, le16, le32, le32_at,
    low16, low32, zeros,
};
use vstd::prelude::*;

verus! {

/// Rounding down gives a multiple that is not above the value, and the next
/// multiple is.
pub proof fn aligned_down_is_greatest_multiple(value: int, align: int)
    requires
        0 <= value,
        0 < align,
    ensures
        aligned_down(value, align) <= value < aligned_down(value, align) + align,
        aligned_down(value, align) % align == 0,
{
    let q = value / align;
    assert(value == align * q + value % align && 0 <= value % align < align) by (nonlinear_arith)
        requires
            0 < align,
            q == value / align,
    ;
    assert((align * q) % align == 0) by (nonlinear_arith)
        requires
            0 < align,
    ;
}

/// The gap to the next multiple is shorter than the distance of multiples, and
/// leads to one.
pub proof fn alignment_gap_leads_to_multiple(value: int, align: int)
    requires
        0 <= value,
        0 < align,
    ensures
        0 <= alignment_gap(value, align) < align,
        (value + alignment_gap(value, align)) % align == 0,
{
    aligned_up_is_least_multiple(value, align);
    assert(aligned_up(value, align) == value + alignment_gap(value, align));
}

/// The low bits of a number differ from it by a multiple of what the type can
/// hold, and are all of a number that fits.
pub proof fn low_bits_are_the_rest(value: int)
    ensures
        (value - low32(value)) % 0x1_0000_0000 == 0,
        (value - low16(value)) % 0x1_0000 == 0,
        0 <= value < 0x1_0000_0000 ==> low32(value) == value,
        0 <= value < 0x1_0000 ==> low16(value) == value,
{
}

/// Zero bytes are as many as asked for, and zero.
pub proof fn zeros_are_zero(count: int, i: int)
    requires
        0 <= count,
    ensures
        zeros(count).len() == count,
        0 <= i < count ==> zeros(count)[i] == 0,
{
}

/// The bytes of a number, each with the weight of its place, add up to it.
pub proof fn bytes_add_up(short: u16, long: u32)
    ensures
        le16(short).len() == 2,
        le16(short)[0] + 0x100 * le16(short)[1] == short,
        le32(long).len() == 4,
        le32(long)[0] + 0x100 * le32(long)[1] + 0x1_0000 * le32(long)[2] + 0x100_0000 * le32(
            long,
        )[3] == long,
{
}

/// A number is read with the weight of the place of each byte.
pub proof fn number_is_read_by_places(bytes: Seq<u8>, at: int)
    requires
        0 <= at,
        at + 4 <= bytes.len(),
    ensures
        le32_at(bytes, at) == bytes[at] + 0x100 * (bytes[at + 1] + 0x100 * (bytes[at + 2] + 0x100
            * bytes[at + 3])),
{
}

/// The number that a hexadecimal digit stands for.
pub open spec fn digit_value(digit: char) -> int {
    if '0' <= digit && digit <= '9' {
        digit as int - '0' as int
    } else {
        digit as int - 'a' as int + 10
    }
}

/// The number that hexadecimal digits stand for.
pub open spec fn digits_value(digits: Seq<char>) -> int
    decreases digits.len(),
{
    if digits.len() == 0 {
        0
    } else {
        16 * digits_value(digits.drop_last()) + digit_value(digits.last())
    }
}

/// Whether a character is a hexadecimal digit in lower case.
pub open spec fn is_hex_digit(digit: char) -> bool {
    ('0' <= digit && digit <= '9') || ('a' <= digit && digit <= 'f')
}

/// A number in hexadecimal stands for the number, is made of digits in lower case,
/// and does not start with a zero unless it is one.
pub proof fn hex_stands_for_number(value: nat)
    ensures
        digits_value(hex(value)) == value,
        hex(value).len() > 0,
        value > 0 ==> hex(value)[0] != '0',
        value == 0 ==> hex(value).len() == 1,
        forall|i: int| 0 <= i < hex(value).len() ==> is_hex_digit(#[trigger] hex(value)[i]),
    decreases value,
{
    let digits = hex(value);
    let last = hex_digit(value as int % 16);
    assert(is_hex_digit(last) && digit_value(last) == value as int % 16);
    if value < 16 {
        assert(digits.drop_last() =~= Seq::<char>::empty());
        assert(digits_value(digits.drop_last()) == 0);
    } else {
        hex_stands_for_number(value / 16);
        assert(digits.drop_last() =~= hex(value / 16));
        assert forall|i: int| 0 <= i < digits.len() implies is_hex_digit(#[trigger] digits[i]) by {
            if i < digits.len() - 1 {
                assert(digits[i] == hex(value / 16)[i]);
            }
        }
        assert(digits[0] == hex(value / 16)[0]);
    }
}

/// A text between any other texts occurs in the whole.
pub proof fn part_occurs(before: Seq<char>, needle: Seq<char>, after: Seq<char>)
    ensures
        occurs_in(needle, before + needle + after),
{
    let whole = before + needle + after;
    let at = before.len() as int;
    assert(whole.subrange(at, at + needle.len()) =~= needle);
}

/// A text that occurs in another is between two parts of it.
pub proof fn occurring_text_is_part(needle: Seq<char>, text: Seq<char>)
    requires
        occurs_in(needle, text),
    ensures
        exists|before: Seq<char>, after: Seq<char>| text == #[trigger] (before + needle + after),
{
    let at = choose|at: int|
        0 <= at && at + needle.len() <= text.len() && #[trigger] text.subrange(
            at,
            at + needle.len(),
        ) == needle;
    let before = text.take(at);
    let after = text.skip(at + needle.len());
    assert(text =~= before + needle + after);
}

} // verus!
