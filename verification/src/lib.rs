//! Conversion of ELF files to the Tock Binary Format (TBF).
pub mod abi;
pub mod convert;
pub mod convert_laws;
pub mod crypto;
pub mod error;
pub mod footer;
pub mod footer_laws;
pub mod laws;
pub mod layout;
pub mod layout_laws;
pub mod object;
pub mod object_laws;
pub mod plan;
pub mod plan_laws;
pub mod reloc_laws;
pub mod relocs;
pub mod section;
pub mod section_laws;
pub mod symbol_laws;
pub mod symbols;
pub mod tables;
pub mod text;
pub mod util;
pub mod value_laws;
