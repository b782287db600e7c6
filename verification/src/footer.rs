//! The footer of a TBF: credentials over the rest of it, and padding.
use crate::abi::{EM_386, EM_ARM, EM_RISCV};
use crate::crypto::{
    rsa_modulus, rsa_public_modulus, rsa_sign, rsa_signature, sha256, sha256_digest, sha384,
    sha384_digest, sha512, sha512_digest,
};
use crate::error::ConvertError;
use crate::layout::{Layout, LayoutView};
use crate::object::optional;
use crate::plan::ConvertOptions;
use crate::util::{
    align_to, aligned_up, aligned_up_is_least_multiple, alignment_gap, append_bytes, append_u16,
    append_u32, do_pad, le16, le32, low16, low16_of, low32, low32_of, zeros,
};
use vstd::arithmetic::power2::pow2;
use vstd::prelude::*;
use vstd::slice::slice_subrange;

verus! {

/// The type of a TLV (type, length, value) element that holds a credential.
pub const TLV_CREDENTIALS: u16 = 128;

/// The size of the base of a TLV element: its type and its length.
pub const TLV_BASE_SIZE: usize = 4;

/// The size of a credential without data: the base and the format.
pub const CREDENTIAL_BASE_SIZE: usize = 8;

/// The size of the data of an RSA credential: the modulus and the signature.
pub const RSA4096_DATA_SIZE: usize = 1024;

/// The number of bytes of the modulus of a 4096-bit key.
pub const RSA4096_MODULUS_SIZE: usize = 512;

/// The least size that a TBF is padded to where its size has to be a power of
/// two.
pub const LEAST_PADDED_SIZE: usize = 512;

/// The formats of credentials.
#[derive(Clone, Copy, Debug, PartialEq, Eq)]
pub enum TbfFooterCredentialsType {
    /// Room for other credentials.
    Reserved,
    /// The public key and signature of a 4096-bit RSA key.
    Rsa4096Key,
    /// A SHA-256 digest.
    SHA256,
    /// A SHA-384 digest.
    SHA384,
    /// A SHA-512 digest.
    SHA512,
}

impl TbfFooterCredentialsType {
    /// The number that stands for a format.
    pub open spec fn number(self) -> u32 {
        match self {
            TbfFooterCredentialsType::Reserved => 0,
            TbfFooterCredentialsType::Rsa4096Key => 2,
            TbfFooterCredentialsType::SHA256 => 3,
            TbfFooterCredentialsType::SHA384 => 4,
            TbfFooterCredentialsType::SHA512 => 5,
        }
    }

    /// The number that stands for the format.
    pub fn code(self) -> (code: u32)
        ensures
            code == self.number(),
    {
        match self {
            TbfFooterCredentialsType::Reserved => 0,
            TbfFooterCredentialsType::Rsa4096Key => 2,
            TbfFooterCredentialsType::SHA256 => 3,
            TbfFooterCredentialsType::SHA384 => 4,
            TbfFooterCredentialsType::SHA512 => 5,
        }
    }
}

/// A credential as it stands in the footer. The length in it is that of the
/// format and the data.
pub open spec fn credential(format: TbfFooterCredentialsType, data: Seq<u8>) -> Seq<u8> {
    le16(TLV_CREDENTIALS) + le16(low16((data.len() + 4) as int)) + le32(format.number()) + data
}

/// The number of bytes that the credentials take that the caller asks for.
pub open spec fn credentials_length(options: &ConvertOptions) -> int {
    (if options.sha256 {
        CREDENTIAL_BASE_SIZE + 32
    } else {
        0
    }) + (if options.sha384 {
        CREDENTIAL_BASE_SIZE + 48
    } else {
        0
    }) + (if options.sha512 {
        CREDENTIAL_BASE_SIZE + 64
    } else {
        0
    }) + (if options.rsa4096_private_key is Some {
        CREDENTIAL_BASE_SIZE + RSA4096_DATA_SIZE
    } else {
        0
    })
}

/// The room to reserve in a footer that takes `initial` bytes otherwise, so
/// that it has at least the size that the caller asks for. Reserved room is a
/// credential itself, so there is a least amount of it.
pub open spec fn footer_reserve(minimum: u32, initial: int) -> int {
    if minimum > initial {
        let needed = minimum - initial;
        aligned_up(
            if needed > CREDENTIAL_BASE_SIZE {
                needed
            } else {
                CREDENTIAL_BASE_SIZE as int
            },
            4,
        )
    } else {
        0
    }
}

/// The first number that is not below `size` among those that doubling `power`
/// gives.
pub open spec fn power_from(power: int, size: int) -> int
    decreases
            (if size > power {
                size - power
            } else {
                0
            }),
{
    if power <= 0 || power >= size {
        power
    } else {
        power_from(2 * power, size)
    }
}

/// The least power of two that is not below a number.
pub open spec fn least_power(size: int) -> int {
    power_from(1, size)
}

/// The padding that the architecture asks for: for ARM, the size of a TBF is a
/// power of two that is not less than a least size, for RISC-V it is a multiple
/// of 4, and for x86 a multiple of the page size.
pub open spec fn trailing_padding(machine: u16, size: int) -> Result<int, ConvertError> {
    if machine == EM_ARM {
        if size > u32::MAX && least_power(size) != size {
            Err(ConvertError::Overflow)
        } else if least_power(size) < LEAST_PADDED_SIZE {
            Ok(LEAST_PADDED_SIZE - size)
        } else {
            Ok(least_power(size) - size)
        }
    } else if machine == EM_RISCV {
        Ok(alignment_gap(size, 4))
    } else if machine == EM_386 {
        Ok(alignment_gap(size, 4096))
    } else {
        Ok(0)
    }
}

/// The sizes of the parts of a TBF.
#[derive(Clone, Copy, Debug, PartialEq, Eq)]
pub struct Sizes {
    /// The size of all that is before the footer.
    pub end: usize,
    /// The size of the credentials.
    pub credentials: usize,
    /// The size of the reserved room that the caller asks for.
    pub reserved: usize,
    /// The size of the padding for the architecture.
    pub padding: usize,
    /// The size of the TBF.
    pub total: usize,
}

/// The sizes of the parts of a TBF, or why it cannot have a size.
pub open spec fn sizes_of(layout: LayoutView, options: &ConvertOptions, machine: u16) -> Result<
    Sizes,
    ConvertError,
> {
    let end = layout.end + 4 + layout.relocation_data.len();
    let credentials = credentials_length(options);
    let reserved = footer_reserve(
        options.minimum_footer_size,
        end + credentials - low32(end),
    );
    let size = end + credentials + reserved;
    if end + credentials > usize::MAX || reserved > u32::MAX || size > usize::MAX {
        Err(ConvertError::Overflow)
    } else {
        match trailing_padding(machine, size) {
            Err(e) => Err(e),
            Ok(padding) => if size + padding > usize::MAX {
                Err(ConvertError::Overflow)
            } else {
                Ok(
                    Sizes {
                        end: end as usize,
                        credentials: credentials as usize,
                        reserved: reserved as usize,
                        padding: padding as usize,
                        total: (size + padding) as usize,
                    },
                )
            },
        }
    }
}

/// The digests that the caller asks for, as credentials.
pub open spec fn digest_credentials(options: &ConvertOptions, covered: Seq<u8>) -> Seq<u8> {
    (if options.sha256 {
        credential(TbfFooterCredentialsType::SHA256, sha256_digest(covered))
    } else {
        Seq::empty()
    }) + (if options.sha384 {
        credential(TbfFooterCredentialsType::SHA384, sha384_digest(covered))
    } else {
        Seq::empty()
    }) + (if options.sha512 {
        credential(TbfFooterCredentialsType::SHA512, sha512_digest(covered))
    } else {
        Seq::empty()
    })
}

/// The credential for an RSA signature, given what came of parsing the key and
/// of signing.
pub open spec fn rsa_credential(modulus: Option<Seq<u8>>, signature: Option<Seq<u8>>) -> Result<
    Seq<u8>,
    ConvertError,
> {
    match modulus {
        None => Err(ConvertError::RsaKeyRejected),
        Some(n) => if n.len() != RSA4096_MODULUS_SIZE {
            Err(ConvertError::RsaKeyLength { bytes: n.len() as usize })
        } else {
            match signature {
                None => Err(ConvertError::RsaSignature),
                Some(s) => Ok(credential(TbfFooterCredentialsType::Rsa4096Key, n + s)),
            }
        },
    }
}

/// The credentials that the caller asks for, over the part of the TBF that they
/// cover.
pub open spec fn credentials_over(options: &ConvertOptions, covered: Seq<u8>) -> Result<
    Seq<u8>,
    ConvertError,
> {
    match options.rsa4096_private_key {
        None => Ok(digest_credentials(options, covered)),
        Some(key) => match rsa_credential(rsa_modulus(key@), rsa_signature(key@, covered)) {
            Err(e) => Err(e),
            Ok(more) => Ok(digest_credentials(options, covered) + more),
        },
    }
}

/// Whether what the credentials hold that the caller asks for has the lengths
/// that their formats fix.
pub open spec fn credentials_fit_formats(options: &ConvertOptions, covered: Seq<u8>) -> bool {
    &&& options.sha256 ==> sha256_digest(covered).len() == 32
    &&& options.sha384 ==> sha384_digest(covered).len() == 48
    &&& options.sha512 ==> sha512_digest(covered).len() == 64
    &&& options.rsa4096_private_key matches Some(key) ==> {
        &&& rsa_modulus(key@) matches Some(n)
        &&& n.len() == RSA4096_MODULUS_SIZE
        &&& rsa_signature(key@, covered) matches Some(s)
        &&& s.len() == RSA4096_MODULUS_SIZE
    }
}

/// The part of a TBF that credentials cover, after what is already there.
pub open spec fn covered_part(
    before: Seq<u8>,
    header: Seq<u8>,
    layout: LayoutView,
    sizes: Sizes,
) -> Seq<u8> {
    tbf_body(before, header, layout).subrange(0, low32(sizes.end as int) as int)
}

/// Whether the caller asks for any credential.
pub open spec fn any_credential(options: &ConvertOptions) -> bool {
    options.sha256 || options.sha384 || options.sha512 || options.rsa4096_private_key is Some
}

/// The number of bytes in the footer after the credentials.
pub open spec fn room_after_credentials(sizes: Sizes) -> int {
    sizes.total - low32(sizes.end as int) - sizes.credentials
}

/// What fills the footer after the credentials: reserved room, as far as there
/// is enough room for it, or else plain padding.
pub open spec fn footer_rest(sizes: Sizes) -> Seq<u8> {
    let room = room_after_credentials(sizes);
    (if room >= CREDENTIAL_BASE_SIZE {
        credential(TbfFooterCredentialsType::Reserved, zeros(room - CREDENTIAL_BASE_SIZE))
    } else {
        Seq::empty()
    }) + (if sizes.reserved > 0 || sizes.padding >= CREDENTIAL_BASE_SIZE {
        Seq::empty()
    } else {
        zeros(sizes.padding as int)
    })
}

/// All of a TBF that is before the footer, after what is already there.
pub open spec fn tbf_body(before: Seq<u8>, header: Seq<u8>, layout: LayoutView) -> Seq<u8> {
    before + header + layout.binary + le32(low32(layout.relocation_data.len() as int))
        + layout.relocation_data
}

/// A TBF after what is already there, or why it cannot be finished.
pub open spec fn tbf_after(
    before: Seq<u8>,
    header: Seq<u8>,
    layout: LayoutView,
    sizes: Sizes,
    options: &ConvertOptions,
) -> Result<Seq<u8>, ConvertError> {
    let body = tbf_body(before, header, layout);
    let end = low32(sizes.end as int) as int;
    if !any_credential(options) {
        Ok(body + footer_rest(sizes))
    } else if end > body.len() {
        Err(ConvertError::HeaderTooShort)
    } else {
        match credentials_over(options, covered_part(before, header, layout, sizes)) {
            Err(e) => Err(e),
            Ok(credentials) => Ok(body + credentials + footer_rest(sizes)),
        }
    }
}

/// Doubling a power of two until it is large enough gives a power of two that
/// is less than twice as large as needed.
pub proof fn power_from_is_power(power: int, size: int, e: nat)
    requires
        power == pow2(e),
    ensures
        exists|f: nat| power_from(power, size) == #[trigger] pow2(f),
        power_from(power, size) >= size,
        power_from(power, size) >= power,
        power < size ==> power_from(power, size) < 2 * size,
    decreases
            (if size > power {
                size - power
            } else {
                0
            }),
{
    vstd::arithmetic::power2::lemma_pow2_pos(e);
    if power < size {
        vstd::arithmetic::power2::lemma_pow2_unfold(e + 1);
        power_from_is_power(2 * power, size, e + 1);
    }
}

/// Padding is not negative.
pub proof fn padding_is_not_negative(machine: u16, size: int)
    requires
        size >= 0,
    ensures
        trailing_padding(machine, size) matches Ok(padding) ==> padding >= 0,
{
    vstd::arithmetic::power2::lemma2_to64();
    power_from_is_power(1, size, 0);
}

/// Reserved room is not negative.
pub proof fn reserve_is_not_negative(minimum: u32, initial: int)
    ensures
        footer_reserve(minimum, initial) >= 0,
{
    if minimum > initial {
        aligned_up_is_least_multiple(minimum - initial, 4);
    }
}

/// Computes the least power of two that is not below a number.
fn compute_least_power(size: usize) -> (power: u128)
    ensures
        power == least_power(size as int),
        power >= size,
        power <= 2 * size || power == 1,
{
    let mut power: u128 = 1;
    while power < size as u128
        invariant
            0 < power <= 2 * size || power == 1,
            least_power(size as int) == power_from(power as int, size as int),
        decreases 2 * size - power,
    {
        power = 2 * power;
    }
    power
}

/// Computes the padding that the architecture asks for.
pub fn compute_trailing_padding(machine: u16, size: usize) -> (padding: Result<
    usize,
    ConvertError,
>)
    ensures
        match padding {
            Ok(p) => trailing_padding(machine, size as int) == Ok::<int, ConvertError>(p as int),
            Err(e) => trailing_padding(machine, size as int) == Err::<int, ConvertError>(e),
        },
{
    if machine == EM_ARM {
        let power: u128 = compute_least_power(size);
        if size as u64 > u32::MAX as u64 && power != size as u128 {
            return Err(ConvertError::Overflow);
        }
        if power < LEAST_PADDED_SIZE as u128 {
            return Ok(LEAST_PADDED_SIZE - size);
        }
        Ok((power - size as u128) as usize)
    } else if machine == EM_RISCV {
        Ok((4 - size % 4) % 4)
    } else if machine == EM_386 {
        Ok((4096 - size % 4096) % 4096)
    } else {
        Ok(0)
    }
}

/// Computes the size of the credentials that the caller asks for.
fn compute_credentials_length(options: &ConvertOptions) -> (length: usize)
    ensures
        length == credentials_length(options),
{
    let mut length: usize = 0;
    if options.sha256 {
        length += CREDENTIAL_BASE_SIZE + 32;
    }
    if options.sha384 {
        length += CREDENTIAL_BASE_SIZE + 48;
    }
    if options.sha512 {
        length += CREDENTIAL_BASE_SIZE + 64;
    }
    if options.rsa4096_private_key.is_some() {
        length += CREDENTIAL_BASE_SIZE + RSA4096_DATA_SIZE;
    }
    length
}

/// Computes the room to reserve in a footer that takes `initial` bytes
/// otherwise, where it fits.
pub fn compute_footer_reserve(minimum: u32, initial: usize) -> (reserve: Option<u32>)
    ensures
        match reserve {
            Some(r) => r == footer_reserve(minimum, initial as int),
            None => footer_reserve(minimum, initial as int) > u32::MAX,
        },
{
    if minimum as u64 > initial as u64 {
        let needed: u32 = minimum - initial as u32;
        if needed > CREDENTIAL_BASE_SIZE as u32 {
            align_to(needed, 4)
        } else {
            align_to(CREDENTIAL_BASE_SIZE as u32, 4)
        }
    } else {
        Some(0)
    }
}

/// Computes the sizes of the parts of a TBF.
pub fn compute_sizes(layout: &Layout, options: &ConvertOptions, machine: u16) -> (sizes: Result<
    Sizes,
    ConvertError,
>)
    ensures
        sizes == sizes_of(layout@, options, machine),
{
    let credentials: usize = compute_credentials_length(options);
    let trailer: usize = match layout.relocation_data.len().checked_add(4) {
        Some(trailer) => trailer,
        None => { return Err(ConvertError::Overflow); },
    };
    let end: usize = match layout.end.checked_add(trailer) {
        Some(end) => end,
        None => { return Err(ConvertError::Overflow); },
    };
    let signed: usize = match end.checked_add(credentials) {
        Some(signed) => signed,
        None => { return Err(ConvertError::Overflow); },
    };
    let initial: usize = signed - low32_of(end as u64) as usize;
    let reserved: u32 = match compute_footer_reserve(options.minimum_footer_size, initial) {
        Some(reserved) => reserved,
        None => { return Err(ConvertError::Overflow); },
    };
    proof {
        if options.minimum_footer_size > initial {
            let needed = options.minimum_footer_size - initial;
            aligned_up_is_least_multiple(needed, 4);
            aligned_up_is_least_multiple(8, 4);
        }
    }
    let size: usize = match signed.checked_add(reserved as usize) {
        Some(size) => size,
        None => { return Err(ConvertError::Overflow); },
    };
    let padding: usize = match compute_trailing_padding(machine, size) {
        Ok(padding) => padding,
        Err(e) => { return Err(e); },
    };
    let total: usize = match size.checked_add(padding) {
        Some(total) => total,
        None => { return Err(ConvertError::Overflow); },
    };
    Ok(Sizes { end, credentials, reserved: reserved as usize, padding, total })
}

/// Appends a credential.
pub fn append_credential(output: &mut Vec<u8>, format: TbfFooterCredentialsType, data: &Vec<u8>)
    ensures
        final(output)@ == old(output)@ + credential(format, data@),
{
    append_u16(output, TLV_CREDENTIALS);
    let low: u16 = low16_of(data.len() as u64);
    assert(low16((data@.len() + 4) as int) == (low + 4) % 0x1_0000);
    append_u16(output, low.wrapping_add(4));
    append_u32(output, format.code());
    append_bytes(output, data.as_slice());
    assert(output@ =~= old(output)@ + credential(format, data@));
}

/// Appends the digests that the caller asks for.
fn append_digests(output: &mut Vec<u8>, options: &ConvertOptions, covered: &[u8])
    ensures
        final(output)@ == old(output)@ + digest_credentials(options, covered@),
        options.sha256 ==> sha256_digest(covered@).len() == 32,
        options.sha384 ==> sha384_digest(covered@).len() == 48,
        options.sha512 ==> sha512_digest(covered@).len() == 64,
        digest_credentials(options, covered@).len() + (
        if options.rsa4096_private_key is Some {
            CREDENTIAL_BASE_SIZE + RSA4096_DATA_SIZE
        } else {
            0
        }) == credentials_length(options),
{
    if options.sha256 {
        append_credential(output, TbfFooterCredentialsType::SHA256, &sha256(covered));
    }
    if options.sha384 {
        append_credential(output, TbfFooterCredentialsType::SHA384, &sha384(covered));
    }
    if options.sha512 {
        append_credential(output, TbfFooterCredentialsType::SHA512, &sha512(covered));
    }
    assert(output@ =~= old(output)@ + digest_credentials(options, covered@));
}

/// Appends the credential for an RSA signature, given what came of parsing the
/// key and of signing.
pub fn append_rsa_credential(
    output: &mut Vec<u8>,
    modulus: &Option<Vec<u8>>,
    signature: &Option<Vec<u8>>,
) -> (done: Result<(), ConvertError>)
    ensures
        match rsa_credential(optional(*modulus), optional(*signature)) {
            Ok(added) => done is Ok && final(output)@ == old(output)@ + added,
            Err(e) => done == Err::<(), ConvertError>(e) && final(output)@ == old(output)@,
        },
{
    let n: &Vec<u8> = match modulus {
        Some(n) => n,
        None => { return Err(ConvertError::RsaKeyRejected); },
    };
    if n.len() != RSA4096_MODULUS_SIZE {
        return Err(ConvertError::RsaKeyLength { bytes: n.len() });
    }
    let s: &Vec<u8> = match signature {
        Some(s) => s,
        None => { return Err(ConvertError::RsaSignature); },
    };
    let mut data: Vec<u8> = Vec::new();
    append_bytes(&mut data, n.as_slice());
    append_bytes(&mut data, s.as_slice());
    assert(data@ =~= n@ + s@);
    append_credential(output, TbfFooterCredentialsType::Rsa4096Key, &data);
    Ok(())
}

/// Appends the credentials that the caller asks for, over the part of the TBF
/// that they cover.
fn append_credentials(output: &mut Vec<u8>, options: &ConvertOptions, covered: &[u8]) -> (done:
    Result<(), ConvertError>)
    ensures
        match credentials_over(options, covered@) {
            Ok(added) => {
                &&& done is Ok
                &&& final(output)@ == old(output)@ + added
                &&& added.len() == credentials_length(options)
                &&& credentials_fit_formats(options, covered@)
            },
            Err(e) => done == Err::<(), ConvertError>(e),
        },
{
    append_digests(output, options, covered);
    match &options.rsa4096_private_key {
        None => Ok(()),
        Some(key) => {
            let modulus: Option<Vec<u8>> = rsa_public_modulus(key.as_slice());
            let signature: Option<Vec<u8>> = rsa_sign(key.as_slice(), covered);
            let done: Result<(), ConvertError> = append_rsa_credential(
                output,
                &modulus,
                &signature,
            );
            proof {
                if let Ok(added) = rsa_credential(optional(modulus), optional(signature)) {
                    assert(output@ =~= old(output)@ + (digest_credentials(options, covered@)
                        + added));
                }
            }
            done
        },
    }
}

/// Appends what fills the footer after the credentials.
fn append_footer_rest(output: &mut Vec<u8>, sizes: &Sizes)
    requires
        room_after_credentials(*sizes) >= 0,
    ensures
        final(output)@ == old(output)@ + footer_rest(*sizes),
{
    let room: usize = sizes.total - low32_of(sizes.end as u64) as usize - sizes.credentials;
    if room >= CREDENTIAL_BASE_SIZE {
        let mut reserved: Vec<u8> = Vec::new();
        do_pad(&mut reserved, room - CREDENTIAL_BASE_SIZE);
        assert(reserved@ =~= zeros(room - CREDENTIAL_BASE_SIZE));
        append_credential(output, TbfFooterCredentialsType::Reserved, &reserved);
    }
    if sizes.reserved == 0 && sizes.padding < CREDENTIAL_BASE_SIZE {
        do_pad(output, sizes.padding);
    }
    assert(output@ =~= old(output)@ + footer_rest(*sizes));
}

/// Appends a TBF with an encoded header to `output`. Where that fails, `output`
/// stays as it is.
pub fn write_tbf(
    header: &Vec<u8>,
    layout: &Layout,
    sizes: &Sizes,
    options: &ConvertOptions,
    output: &mut Vec<u8>,
) -> (done: Result<(), ConvertError>)
    requires
        room_after_credentials(*sizes) >= 0,
    ensures
        match tbf_after(old(output)@, header@, layout@, *sizes, options) {
            Ok(all) => {
                &&& done is Ok
                &&& final(output)@ == all
                &&& all.len() == tbf_body(old(output)@, header@, layout@).len()
                    + credentials_length(options) + footer_rest(*sizes).len()
                &&& credentials_fit_formats(
                    options,
                    covered_part(old(output)@, header@, layout@, *sizes),
                )
            },
            Err(e) => done == Err::<(), ConvertError>(e) && final(output)@ == old(output)@,
        },
{
    let mut added: Vec<u8> = Vec::new();
    append_bytes(&mut added, output.as_slice());
    append_bytes(&mut added, header.as_slice());
    append_bytes(&mut added, layout.binary.as_slice());
    append_u32(&mut added, low32_of(layout.relocation_data.len() as u64));
    append_bytes(&mut added, layout.relocation_data.as_slice());
    let ghost body = tbf_body(old(output)@, header@, layout@);
    assert(added@ =~= body);
    if options.sha256 || options.sha384 || options.sha512 || options.rsa4096_private_key.is_some() {
        let end: usize = low32_of(sizes.end as u64) as usize;
        if end > added.len() {
            return Err(ConvertError::HeaderTooShort);
        }
        let mut credentials: Vec<u8> = Vec::new();
        let done: Result<(), ConvertError> = append_credentials(
            &mut credentials,
            options,
            slice_subrange(added.as_slice(), 0, end),
        );
        if done.is_err() {
            return done;
        }
        assert(credentials@ =~= credentials_over(options, body.subrange(0, end as int))->Ok_0);
        added.append(&mut credentials);
    }
    append_footer_rest(&mut added, sizes);
    *output = added;
    Ok(())
}

} // verus!
