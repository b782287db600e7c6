//! Alignment, padding and byte order.
use vstd::prelude::*;

verus! {

/// The number of bytes from `value` up to the next multiple of `align`.
pub open spec fn alignment_gap(value: int, align: int) -> int {
    (align - value % align) % align
}

/// The least multiple of `align` that is not below `value`.
pub open spec fn aligned_up(value: int, align: int) -> int {
    value + alignment_gap(value, align)
}

/// The greatest multiple of `align` that is not above `value`.
pub open spec fn aligned_down(value: int, align: int) -> int {
    value - value % align
}

/// The low 32 bits of a number.
pub open spec fn low32(value: int) -> u32 {
    (value % 0x1_0000_0000) as u32
}

/// The low 16 bits of a number.
pub open spec fn low16(value: int) -> u16 {
    (value % 0x1_0000) as u16
}

/// `count` zero bytes.
pub open spec fn zeros(count: int) -> Seq<u8> {
    Seq::new(count as nat, |i: int| 0u8)
}

/// The two bytes of a 16-bit number, the lowest first.
pub open spec fn le16(value: u16) -> Seq<u8> {
    seq![(value % 256) as u8, (value / 256) as u8]
}

/// The four bytes of a 32-bit number, the lowest first.
pub open spec fn le32(value: u32) -> Seq<u8> {
    seq![
        (value % 256) as u8,
        (value / 256 % 256) as u8,
        (value / 65536 % 256) as u8,
        (value / 16777216) as u8,
    ]
}

/// The 32-bit number that the four bytes at `at` stand for, the lowest first.
pub open spec fn le32_at(bytes: Seq<u8>, at: int) -> int {
    bytes[at] + 256 * bytes[at + 1] + 65536 * bytes[at + 2] + 16777216 * bytes[at + 3]
}

/// `aligned_up` is a multiple of `align`, not below `value`, and closer to it
/// than `align`.
pub proof fn aligned_up_is_least_multiple(value: int, align: int)
    requires
        0 <= value,
        0 < align,
    ensures
        value <= aligned_up(value, align) < value + align,
        aligned_up(value, align) % align == 0,
{
    let rest = value % align;
    assert(0 <= rest < align && value == align * (value / align) + rest) by (nonlinear_arith)
        requires
            0 < align,
            rest == value % align,
    ;
    if rest == 0 {
        assert((align - 0) % align == 0) by (nonlinear_arith)
            requires
                0 < align,
        ;
    } else {
        assert((align - rest) % align == align - rest) by (nonlinear_arith)
            requires
                0 < rest < align,
        ;
        let q = value / align;
        assert((align * (q + 1)) % align == 0) by (nonlinear_arith)
            requires
                0 < align,
        ;
        assert(align * (q + 1) == align * q + align) by (nonlinear_arith);
    }
}

/// Decoding the four bytes of a 32-bit number gives the number back.
pub proof fn le32_round_trip(value: u32, bytes: Seq<u8>, at: int)
    requires
        0 <= at,
        at + 4 <= bytes.len(),
        bytes.subrange(at, at + 4) == le32(value),
    ensures
        le32_at(bytes, at) == value,
{
    let part = bytes.subrange(at, at + 4);
    assert(bytes[at] == part[0] && bytes[at + 1] == part[1]);
    assert(bytes[at + 2] == part[2] && bytes[at + 3] == part[3]);
}

/// Rounds `value` up to a multiple of `align`, where the result fits.
pub fn align_to(value: u32, align: u32) -> (aligned: Option<u32>)
    requires
        align > 0,
    ensures
        match aligned {
            Some(a) => a == aligned_up(value as int, align as int),
            None => aligned_up(value as int, align as int) > u32::MAX,
        },
{
    proof {
        aligned_up_is_least_multiple(value as int, align as int);
    }
    value.checked_add(amount_alignment_needed(value, align))
}

/// The number of bytes from `value` up to the next multiple of `align`.
pub fn amount_alignment_needed(value: u32, align: u32) -> (gap: u32)
    requires
        align > 0,
    ensures
        gap == alignment_gap(value as int, align as int),
{
    (align - value % align) % align
}

/// Rounds `value` down to a multiple of `align`.
pub fn align_down(value: u32, align: u32) -> (aligned: u32)
    requires
        align > 0,
    ensures
        aligned == aligned_down(value as int, align as int),
{
    assert(0 <= value % align <= value) by (nonlinear_arith)
        requires
            align > 0,
    ;
    value - value % align
}

/// Appends `count` zero bytes to `output`.
pub fn do_pad(output: &mut Vec<u8>, count: usize)
    ensures
        final(output)@ == old(output)@ + zeros(count as int),
{
    let mut padding: Vec<u8> = vec![0u8; count];
    assert(padding@ =~= zeros(count as int));
    output.append(&mut padding);
}

/// Appends `bytes` to `output`.
pub fn append_bytes(output: &mut Vec<u8>, bytes: &[u8])
    ensures
        final(output)@ == old(output)@ + bytes@,
{
    output.extend_from_slice(bytes);
    assert(output@ =~= old(output)@ + bytes@);
}

/// The low 32 bits of a 64-bit number.
pub fn low32_of(value: u64) -> (low: u32)
    ensures
        low == low32(value as int),
{
    assert(value as u32 == value % 0x1_0000_0000) by (bit_vector);
    #[verifier::truncate]
    (value as u32)
}

/// The low 16 bits of a 64-bit number.
pub fn low16_of(value: u64) -> (low: u16)
    ensures
        low == low16(value as int),
{
    assert(value as u16 == value % 0x1_0000) by (bit_vector);
    #[verifier::truncate]
    (value as u16)
}

/// Appends a 16-bit number to `output`, the lowest byte first.
pub fn append_u16(output: &mut Vec<u8>, value: u16)
    ensures
        final(output)@ == old(output)@ + le16(value),
{
    output.push((value % 256) as u8);
    output.push((value / 256) as u8);
    assert(output@ =~= old(output)@ + le16(value));
}

/// Appends a 32-bit number to `output`, the lowest byte first.
pub fn append_u32(output: &mut Vec<u8>, value: u32)
    ensures
        final(output)@ == old(output)@ + le32(value),
{
    output.push((value % 256) as u8);
    output.push((value / 256 % 256) as u8);
    output.push((value / 65536 % 256) as u8);
    output.push((value / 16777216) as u8);
    assert(output@ =~= old(output)@ + le32(value));
}

/// The 32-bit number at `at` in `bytes`, the lowest byte first.
pub fn read_u32(bytes: &[u8], at: usize) -> (value: u32)
    requires
        at + 4 <= bytes@.len(),
    ensures
        value == le32_at(bytes@, at as int),
{
    bytes[at] as u32 + 256 * (bytes[at + 1] as u32) + 65536 * (bytes[at + 2] as u32) + 16777216 * (
    bytes[at + 3] as u32)
}

} // verus!
