//! What the footer of a TBF holds, byte by byte and part by part.
use crate::crypto::{rsa_modulus, rsa_signature, sha256_digest, sha384_digest, sha512_digest};
use crate::error::ConvertError;
use crate::footer::{
    credential, credentials_length, credentials_over, footer_reserve, footer_rest,
    padding_is_not_negative, power_from, reserve_is_not_negative, rsa_credential, sizes_of,
    tbf_after, tbf_body, trailing_padding, Sizes, TbfFooterCredentialsType,
};
use crate::layout::LayoutView;
use crate::plan::ConvertOptions;
use crate::util::{aligned_up_is_least_multiple, le32, low32, zeros};
use crate::value_laws::alignment_gap_leads_to_multiple;
use vstd::arithmetic::power2::{
    lemma2_to64, lemma_pow2_pos, lemma_pow2_strictly_increases, lemma_pow2_unfold, pow2,
};
use vstd::prelude::*;

verus! {

/// A credential has the type of credentials, the length of what follows, the number
/// of its format, and the data.
pub proof fn credential_has_parts(format: TbfFooterCredentialsType, data: Seq<u8>)
    ensures
        ({
            let bytes = credential(format, data);
            &&& bytes.len() == 8 + data.len()
            &&& bytes[0] == 128 && bytes[1] == 0
            &&& (bytes[2] + 256 * bytes[3]) == (data.len() + 4) % 65536
            &&& bytes[4] == match format {
                TbfFooterCredentialsType::Reserved => 0int,
                TbfFooterCredentialsType::Rsa4096Key => 2,
                TbfFooterCredentialsType::SHA256 => 3,
                TbfFooterCredentialsType::SHA384 => 4,
                TbfFooterCredentialsType::SHA512 => 5,
            }
            &&& bytes[5] == 0 && bytes[6] == 0 && bytes[7] == 0
            &&& bytes.skip(8) == data
        }),
{
    assert(credential(format, data).skip(8) =~= data);
}

/// Each credential that the caller asks for takes its size, whatever else is asked
/// for.
pub proof fn credentials_take_their_sizes(options: &ConvertOptions)
    ensures
        credentials_length(options) == 40 * (if options.sha256 {
            1int
        } else {
            0
        }) + 56 * (if options.sha384 {
            1int
        } else {
            0
        }) + 72 * (if options.sha512 {
            1int
        } else {
            0
        }) + 1032 * (if options.rsa4096_private_key is Some {
            1int
        } else {
            0
        }),
{
}

/// Room is reserved exactly if the footer would be smaller than asked for. It is then
/// what is missing, or the size of an empty credential if that is more, rounded up
/// to a multiple of four.
pub proof fn reserve_is_what_is_missing(minimum: u32, initial: int)
    requires
        0 <= initial,
    ensures
        ({
            let reserve = footer_reserve(minimum, initial);
            &&& minimum <= initial ==> reserve == 0
            &&& minimum > initial ==> {
                &&& reserve % 4 == 0
                &&& reserve >= 8
                &&& initial + reserve >= minimum
                &&& reserve == 8 || initial + reserve < minimum + 4
            }
        }),
{
    if minimum > initial {
        aligned_up_is_least_multiple(minimum - initial, 4);
        aligned_up_is_least_multiple(8, 4);
    }
}

/// The sizes of a TBF are those of its parts: what is laid out, the relocation data
/// with its length, the credentials, and the room that is reserved. The padding is
/// the rest.
pub proof fn sizes_are_those_of_parts(layout: LayoutView, options: &ConvertOptions, machine: u16)
    requires
        layout.end >= 0,
        sizes_of(layout, options, machine) is Ok,
    ensures
        ({
            let sizes = sizes_of(layout, options, machine)->Ok_0;
            &&& sizes.end == layout.end + 4 + layout.relocation_data.len()
            &&& sizes.credentials == credentials_length(options)
            &&& sizes.total == sizes.end + sizes.credentials + sizes.reserved + sizes.padding
            &&& sizes.end <= u32::MAX ==> sizes.reserved == footer_reserve(
                options.minimum_footer_size,
                sizes.credentials as int,
            )
        }),
{
    let end = layout.end + 4 + layout.relocation_data.len();
    let credentials = credentials_length(options);
    let initial = end + credentials - low32(end);
    let reserved = footer_reserve(options.minimum_footer_size, initial);
    reserve_is_not_negative(options.minimum_footer_size, initial);
    padding_is_not_negative(machine, end + credentials + reserved);
}

/// A TBF has sizes unless they are too large, for every machine.
pub proof fn sizes_fail_for_reason(layout: LayoutView, options: &ConvertOptions, machine: u16)
    requires
        layout.end >= 0,
        sizes_of(layout, options, machine) is Err,
    ensures
        sizes_of(layout, options, machine)->Err_0 == ConvertError::Overflow,
        layout.end + 4 + layout.relocation_data.len() + options.minimum_footer_size + 8192
            > 0x8000_0000,
{
    let end = layout.end + 4 + layout.relocation_data.len();
    let credentials = credentials_length(options);
    let initial = end + credentials - low32(end);
    let reserved = footer_reserve(options.minimum_footer_size, initial);
    let size = end + credentials + reserved;
    if end + options.minimum_footer_size + 8192 <= 0x8000_0000 {
        assert(low32(end) == end);
        assert(initial == credentials);
        if options.minimum_footer_size > initial {
            aligned_up_is_least_multiple(options.minimum_footer_size - initial, 4);
            aligned_up_is_least_multiple(8, 4);
        }
        assert(0 <= reserved <= options.minimum_footer_size + 12);
        padding_is_small(machine, size);
    }
}

proof fn padding_is_small(machine: u16, size: int)
    requires
        0 <= size <= 0x8000_0000 - 4096,
    ensures
        trailing_padding(machine, size) is Ok,
        size + trailing_padding(machine, size)->Ok_0 <= 0x8000_0000,
{
    alignment_gap_leads_to_multiple(size, 4);
    alignment_gap_leads_to_multiple(size, 4096);
    lemma2_to64();
    power_stays_small(1, size, 0);
}

proof fn power_stays_small(power: int, size: int, e: nat)
    requires
        e <= 31,
        power == pow2(e),
        size <= 0x8000_0000,
    ensures
        power_from(power, size) <= 0x8000_0000,
    decreases 31 - e,
{
    lemma2_to64();
    lemma_pow2_pos(e);
    if e < 31 {
        lemma_pow2_unfold(e + 1);
        lemma_pow2_strictly_increases(e, 31);
        power_stays_small(2 * power, size, e + 1);
    }
}

/// The credentials are in a fixed order, each over the same bytes, and each there
/// exactly if the caller asks for it.
pub proof fn credentials_are_in_order(options: &ConvertOptions, covered: Seq<u8>)
    requires
        credentials_over(options, covered) is Ok,
    ensures
        ({
            let all = credentials_over(options, covered)->Ok_0;
            let one = if options.sha256 {
                credential(TbfFooterCredentialsType::SHA256, sha256_digest(covered))
            } else {
                Seq::empty()
            };
            let two = if options.sha384 {
                credential(TbfFooterCredentialsType::SHA384, sha384_digest(covered))
            } else {
                Seq::empty()
            };
            let three = if options.sha512 {
                credential(TbfFooterCredentialsType::SHA512, sha512_digest(covered))
            } else {
                Seq::empty()
            };
            let four = match options.rsa4096_private_key {
                Some(key) => credential(
                    TbfFooterCredentialsType::Rsa4096Key,
                    rsa_modulus(key@)->0 + rsa_signature(key@, covered)->0,
                ),
                None => Seq::empty(),
            };
            &&& all == one + two + three + four
            &&& options.rsa4096_private_key matches Some(key) ==> {
                &&& rsa_modulus(key@) matches Some(n)
                &&& n.len() == 512
                &&& rsa_signature(key@, covered) is Some
            }
        }),
{
    if options.rsa4096_private_key is None {
        let all = credentials_over(options, covered)->Ok_0;
        assert(all + Seq::<u8>::empty() =~= all);
    }
}

/// A key that is refused, one of another length, and a signature that cannot be
/// computed are errors, in this order. Otherwise there is a credential.
pub proof fn rsa_credential_fails_for_reason(modulus: Option<Seq<u8>>, signature: Option<Seq<u8>>)
    ensures
        rsa_credential(modulus, signature) == match (modulus, signature) {
            (None, _) => Err::<Seq<u8>, ConvertError>(ConvertError::RsaKeyRejected),
            (Some(n), s) => if n.len() != 512 {
                Err(ConvertError::RsaKeyLength { bytes: n.len() as usize })
            } else if s is None {
                Err(ConvertError::RsaSignature)
            } else {
                Ok(credential(TbfFooterCredentialsType::Rsa4096Key, n + s->0))
            },
        },
{
}

/// What fills the footer after the credentials is as long as the reserved room and the
/// padding together. If that is enough for a credential, it is one for reserved room
/// with nothing but zeros in it. Otherwise it is zeros.
pub proof fn footer_is_filled(layout: LayoutView, options: &ConvertOptions, machine: u16)
    requires
        layout.end >= 0,
        sizes_of(layout, options, machine) is Ok,
        sizes_of(layout, options, machine)->Ok_0.total <= u32::MAX,
    ensures
        ({
            let sizes = sizes_of(layout, options, machine)->Ok_0;
            let room = sizes.reserved + sizes.padding;
            &&& footer_rest(sizes).len() == room
            &&& room >= 8 ==> footer_rest(sizes) == credential(
                TbfFooterCredentialsType::Reserved,
                zeros(room - 8),
            )
            &&& room < 8 ==> footer_rest(sizes) == zeros(room)
        }),
{
    let sizes = sizes_of(layout, options, machine)->Ok_0;
    let room = sizes.reserved + sizes.padding;
    sizes_are_those_of_parts(layout, options, machine);
    reserve_is_what_is_missing(options.minimum_footer_size, sizes.credentials as int);
    let rest = footer_rest(sizes);
    if room >= 8 {
        assert(rest =~= credential(TbfFooterCredentialsType::Reserved, zeros(room - 8)));
    } else {
        assert(rest =~= zeros(room));
    }
}

/// What is before the footer is what was there before, the header, what follows the
/// header, the length of the relocation data, and the relocation data.
pub proof fn body_has_parts(before: Seq<u8>, header: Seq<u8>, layout: LayoutView)
    ensures
        ({
            let body = tbf_body(before, header, layout);
            let a = before.len() as int;
            let b = a + header.len();
            let c = b + layout.binary.len();
            &&& body.len() == c + 4 + layout.relocation_data.len()
            &&& body.subrange(0, a) == before
            &&& body.subrange(a, b) == header
            &&& body.subrange(b, c) == layout.binary
            &&& body.subrange(c, c + 4) == le32(low32(layout.relocation_data.len() as int))
            &&& body.skip(c + 4) == layout.relocation_data
        }),
{
    let body = tbf_body(before, header, layout);
    let a = before.len() as int;
    let b = a + header.len();
    let c = b + layout.binary.len();
    assert(body.subrange(0, a) =~= before);
    assert(body.subrange(a, b) =~= header);
    assert(body.subrange(b, c) =~= layout.binary);
    assert(body.subrange(c, c + 4) =~= le32(low32(layout.relocation_data.len() as int)));
    assert(body.skip(c + 4) =~= layout.relocation_data);
}

/// A TBF is what is before the footer, the credentials over the first part of it, and
/// what fills the footer. It cannot be made exactly if a credential is asked for and
/// the part is not there, or a credential cannot be made.
pub proof fn tbf_has_parts(
    before: Seq<u8>,
    header: Seq<u8>,
    layout: LayoutView,
    sizes: Sizes,
    options: &ConvertOptions,
)
    requires
        sizes.end <= u32::MAX,
    ensures
        ({
            let body = tbf_body(before, header, layout);
            let asked = options.sha256 || options.sha384 || options.sha512
                || options.rsa4096_private_key is Some;
            let covered = body.subrange(0, sizes.end as int);
            let made = credentials_over(options, covered);
            &&& !asked ==> tbf_after(before, header, layout, sizes, options) == Ok::<
                Seq<u8>,
                ConvertError,
            >(body + footer_rest(sizes))
            &&& asked && sizes.end > body.len() ==> tbf_after(
                before,
                header,
                layout,
                sizes,
                options,
            ) == Err::<Seq<u8>, ConvertError>(ConvertError::HeaderTooShort)
            &&& asked && sizes.end <= body.len() && made is Ok ==> tbf_after(
                before,
                header,
                layout,
                sizes,
                options,
            ) == Ok::<Seq<u8>, ConvertError>(body + made->Ok_0 + footer_rest(sizes))
            &&& asked && sizes.end <= body.len() && made is Err ==> tbf_after(
                before,
                header,
                layout,
                sizes,
                options,
            ) == Err::<Seq<u8>, ConvertError>(made->Err_0)
        }),
{
}

/// Credentials fail only for the signature: digests can always be made.
pub proof fn credentials_fail_for_reason(options: &ConvertOptions, covered: Seq<u8>)
    requires
        credentials_over(options, covered) is Err,
    ensures
        options.rsa4096_private_key is Some,
        rsa_credential(
            rsa_modulus(options.rsa4096_private_key->0@),
            rsa_signature(options.rsa4096_private_key->0@, covered),
        ) == Err::<Seq<u8>, ConvertError>(credentials_over(options, covered)->Err_0),
{
}

} // verus!
