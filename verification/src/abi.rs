//! The constants of the ELF format that the conversion depends on.
use vstd::prelude::*;

verus! {

/// `e_type`: a shared object.
pub const ET_DYN: u16 = 3;

/// `e_machine`: 32-bit x86.
pub const EM_386: u16 = 3;

/// `e_machine`: 32-bit ARM.
pub const EM_ARM: u16 = 40;

/// `e_machine`: RISC-V.
pub const EM_RISCV: u16 = 243;

/// `p_type`: a loadable segment.
pub const PT_LOAD: u32 = 1;

/// `p_type`: dynamic linking tables.
pub const PT_DYNAMIC: u32 = 2;

/// `p_type`: thread-local storage.
pub const PT_TLS: u32 = 7;

/// `p_type`: the location of the exception handling frames.
pub const PT_GNU_EH_FRAME: u32 = 0x6474e550;

/// `p_type`: the permissions of the stack.
pub const PT_GNU_STACK: u32 = 0x6474e551;

/// `p_type`: memory that is read-only after relocation.
pub const PT_GNU_RELRO: u32 = 0x6474e552;

/// `p_flags`: executable.
pub const PF_X: u32 = 1;

/// `p_flags`: writable.
pub const PF_W: u32 = 2;

/// `sh_type`: a section that occupies no space in the file.
pub const SHT_NOBITS: u32 = 8;

/// `sh_flags`: writable at run time.
pub const SHF_WRITE: u32 = 1;

/// `sh_flags`: occupies memory at run time.
pub const SHF_ALLOC: u32 = 2;

/// `sh_flags`: thread-local storage.
pub const SHF_TLS: u32 = 0x400;

/// `sh_flags`: compressed contents.
pub const SHF_COMPRESSED: u64 = 0x800;

/// `d_tag`: the name of a needed library, as an offset into the string table.
pub const DT_NEEDED: i64 = 1;

/// `d_tag`: the address of the string table.
pub const DT_STRTAB: i64 = 5;

/// The binding of a symbol that is visible to every object.
pub const STB_GLOBAL: u8 = 1;

/// The type of a symbol that names executable code.
pub const STT_FUNC: u8 = 2;

} // verus!
