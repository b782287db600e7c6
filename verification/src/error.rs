//! The reasons for which a conversion fails.
use vstd::prelude::*;

verus! {

/// Why an ELF file could not be converted.
#[derive(Clone, Copy, Debug, PartialEq, Eq)]
pub enum ConvertError {
    /// The file is not an ELF file.
    NotElf,
    /// The file has no section headers, or no names for them.
    NoSectionHeaders,
    /// The name of a section could not be read.
    SectionName,
    /// The file has no program headers.
    NoProgramHeaders,
    /// The name of a symbol that had to be looked at could not be read.
    SymbolName,
    /// The string table for the names of the needed libraries lies outside the
    /// file.
    DynamicStringTable,
    /// A size or an address does not fit in the type that holds it.
    Overflow,
    /// The protected region does not have room for the TBF header.
    ProtectedRegionTooSmall {
        /// The size that was asked for.
        protected_region_size: u32,
        /// The size of the header.
        header_length: usize,
    },
    /// The contents of a segment lie outside the file.
    SegmentData,
    /// More than one segment contains the entry point.
    DuplicateEntryPoint,
    /// The part of the output that credentials cover is not complete, because
    /// the encoded header is shorter than announced.
    HeaderTooShort,
    /// The RSA private key could not be parsed.
    RsaKeyRejected,
    /// The RSA key does not have 4096 bits.
    RsaKeyLength {
        /// The number of bytes of its modulus.
        bytes: usize,
    },
    /// The RSA signature could not be computed.
    RsaSignature,
    /// No loaded segment contains a `.got` section.
    NoGlobalOffsetTable,
    /// The file has no symbol table.
    NoSymbolTable,
    /// A relocation names a symbol that the symbol table does not have.
    SymbolIndex,
    /// A relocation needs the `.text` section, whose contents could not be
    /// read.
    NoText,
    /// A relocation points outside the file.
    RelocationTarget,
}

} // verus!
