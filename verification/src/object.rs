//! ELF files as plain values.
//!
//! The parsing itself is done by the `elf` crate. The functions here that call
//! it return plain values, and the names that stand for their results say only
//! that a result depends on nothing but the arguments.
use crate::abi::{SHF_COMPRESSED, SHT_NOBITS};
use crate::error::ConvertError;
use vstd::prelude::*;
use vstd::utf8::*;

verus! {

/// The fields of the ELF file header that matter for a conversion.
#[derive(Clone, Copy, Debug, PartialEq, Eq)]
pub struct FileHeader {
    /// The type of the object.
    pub e_type: u16,
    /// The architecture.
    pub e_machine: u16,
    /// The address of the entry point.
    pub e_entry: u64,
}

/// An ELF section header.
#[derive(Clone, Copy, Debug, PartialEq, Eq)]
pub struct SectionHeader {
    /// The offset of the name in the string table for section names.
    pub sh_name: u32,
    /// The type of the section.
    pub sh_type: u32,
    /// The flags of the section.
    pub sh_flags: u64,
    /// The address of the section in memory.
    pub sh_addr: u64,
    /// The offset of the contents in the file.
    pub sh_offset: u64,
    /// The size in bytes.
    pub sh_size: u64,
    /// Depends on the type.
    pub sh_link: u32,
    /// Depends on the type.
    pub sh_info: u32,
    /// The alignment of the address.
    pub sh_addralign: u64,
    /// The size of an entry, where the contents are a table.
    pub sh_entsize: u64,
}

/// An ELF program header, which describes a segment.
#[derive(Clone, Copy, Debug, PartialEq, Eq)]
pub struct ProgramHeader {
    /// The type of the segment.
    pub p_type: u32,
    /// The offset of the contents in the file.
    pub p_offset: u64,
    /// The virtual address.
    pub p_vaddr: u64,
    /// The physical (load) address.
    pub p_paddr: u64,
    /// The size in the file.
    pub p_filesz: u64,
    /// The size in memory.
    pub p_memsz: u64,
    /// The flags of the segment.
    pub p_flags: u32,
}

/// An entry of a symbol table.
#[derive(Clone, Copy, Debug, PartialEq, Eq)]
pub struct SymbolEntry {
    /// The offset of the name in the string table of the symbol table.
    pub st_name: u32,
    /// What the symbol names.
    pub st_type: u8,
    /// Where the symbol is visible.
    pub st_bind: u8,
    /// The value of the symbol.
    pub st_value: u64,
}

/// An entry of the dynamic section.
#[derive(Clone, Copy, Debug, PartialEq, Eq)]
pub struct DynamicEntry {
    /// The kind of the entry.
    pub d_tag: i64,
    /// The number or address that the entry holds.
    pub d_val: u64,
}

/// A relocation without addend.
#[derive(Clone, Copy, Debug, PartialEq, Eq)]
pub struct Rel {
    /// The address of the place to relocate.
    pub r_offset: u64,
    /// The index of the symbol.
    pub r_sym: u32,
    /// The kind of the relocation.
    pub r_type: u32,
}

/// The sequence that an optional vector holds.
pub open spec fn optional<T>(values: Option<Vec<T>>) -> Option<Seq<T>> {
    match values {
        Some(v) => Some(v@),
        None => None,
    }
}

/// The characters of an optional string.
pub open spec fn optional_text(text: Option<String>) -> Option<Seq<char>> {
    match text {
        Some(t) => Some(t@),
        None => None,
    }
}

/// The bytes from `start` on, `len` of them, where the file has them all.
pub open spec fn range_of(file: Seq<u8>, start: int, len: int) -> Option<Seq<u8>> {
    if start + len <= file.len() {
        Some(file.subrange(start, start + len))
    } else {
        None
    }
}

/// Whether the first zero byte of `table` from `offset` on is at `end`.
pub open spec fn ends_at(table: Seq<u8>, offset: int, end: int) -> bool {
    &&& offset <= end < table.len()
    &&& table[end] == 0
    &&& forall|i: int| offset <= i < end ==> table[i] != 0
}

/// The text in a string table from `offset` up to the next zero byte, where
/// there is one and the bytes before it are UTF-8.
pub open spec fn text_at(table: Seq<u8>, offset: int) -> Option<Seq<char>> {
    if exists|end: int| ends_at(table, offset, end) {
        let end = choose|end: int| ends_at(table, offset, end);
        let raw = table.subrange(offset, end);
        if valid_utf8(raw) {
            Some(decode_utf8(raw))
        } else {
            None
        }
    } else {
        None
    }
}

/// The text in an optional string table from `offset` up to the next zero byte.
pub open spec fn text_in(table: Option<Seq<u8>>, offset: int) -> Option<Seq<char>> {
    match table {
        Some(t) => text_at(t, offset),
        None => None,
    }
}

/// The file header of an ELF file, where the `elf` crate accepts the file.
pub uninterp spec fn elf_file_header(file: Seq<u8>) -> Option<FileHeader>;

/// The section headers of an ELF file that also has names for them.
pub uninterp spec fn elf_section_headers(file: Seq<u8>) -> Option<Seq<SectionHeader>>;

/// The string table for the section names of an ELF file.
pub uninterp spec fn elf_section_strings(file: Seq<u8>) -> Option<Seq<u8>>;

/// The program headers of an ELF file.
pub uninterp spec fn elf_program_headers(file: Seq<u8>) -> Option<Seq<ProgramHeader>>;

/// The symbol table of an ELF file.
pub uninterp spec fn elf_symbols(file: Seq<u8>) -> Option<Seq<SymbolEntry>>;

/// The string table of the symbol table of an ELF file.
pub uninterp spec fn elf_symbol_strings(file: Seq<u8>) -> Option<Seq<u8>>;

/// The dynamic symbol table of an ELF file.
pub uninterp spec fn elf_dynamic_symbols(file: Seq<u8>) -> Option<Seq<SymbolEntry>>;

/// The string table of the dynamic symbol table of an ELF file.
pub uninterp spec fn elf_dynamic_symbol_strings(file: Seq<u8>) -> Option<Seq<u8>>;

/// The entries of the dynamic section of an ELF file.
pub uninterp spec fn elf_dynamic_entries(file: Seq<u8>) -> Option<Seq<DynamicEntry>>;

/// The contents of a section of an ELF file.
pub uninterp spec fn elf_section_data(file: Seq<u8>, shdr: SectionHeader) -> Option<Seq<u8>>;

/// The contents of a section of an ELF file as relocations.
pub uninterp spec fn elf_section_rels(file: Seq<u8>, shdr: SectionHeader) -> Option<Seq<Rel>>;

/// Calls `elf::ElfBytes::minimal_parse`.
///
/// The contract says that the type, machine and entry point in the header of
/// the parsed file, or the refusal of the file, depend on the bytes alone.
#[verifier::external_body]
fn file_header(file: &[u8]) -> (header: Option<FileHeader>)
    ensures
        header == elf_file_header(file@),
{
    let elf = elf::ElfBytes::<elf::endian::AnyEndian>::minimal_parse(file).ok()?;
    Some(FileHeader {
        e_type: elf.ehdr.e_type,
        e_machine: elf.ehdr.e_machine,
        e_entry: elf.ehdr.e_entry,
    })
}

/// Calls `elf::ElfBytes::section_headers_with_strtab` and lists the headers.
///
/// The contract says that the headers in their order, or the lack of headers
/// or of a string table for their names, depend on the bytes alone.
#[verifier::external_body]
fn section_headers(file: &[u8]) -> (headers: Option<Vec<SectionHeader>>)
    ensures
        optional(headers) == elf_section_headers(file@),
{
    let elf = elf::ElfBytes::<elf::endian::AnyEndian>::minimal_parse(file).ok()?;
    match elf.section_headers_with_strtab() {
        Ok((Some(table), Some(_))) => Some(table.iter().map(|s| SectionHeader {
            sh_name: s.sh_name, sh_type: s.sh_type, sh_flags: s.sh_flags, sh_addr: s.sh_addr,
            sh_offset: s.sh_offset, sh_size: s.sh_size, sh_link: s.sh_link, sh_info: s.sh_info,
            sh_addralign: s.sh_addralign, sh_entsize: s.sh_entsize,
        }).collect()),
        _ => None,
    }
}

/// Calls `elf::string_table::StringTable::get` on the string table that
/// `elf::ElfBytes::section_headers_with_strtab` returns.
///
/// The contract says that the string table, or the lack of one, depends on the
/// bytes of the file alone, and that the name is the UTF-8 text in the table from
/// `offset` up to the next zero byte, where there is such a text.
#[verifier::external_body]
fn section_name(file: &[u8], offset: usize) -> (name: Option<String>)
    ensures
        optional_text(name) == text_in(elf_section_strings(file@), offset as int),
{
    let elf = elf::ElfBytes::<elf::endian::AnyEndian>::minimal_parse(file).ok()?;
    let strtab = elf.section_headers_with_strtab().ok()?.1?;
    Some(strtab.get(offset).ok()?.to_string())
}

/// Calls `elf::ElfBytes::segments` and lists the program headers.
///
/// The contract says that the headers in their order, or the lack of a table,
/// depend on the bytes alone.
#[verifier::external_body]
fn program_headers(file: &[u8]) -> (headers: Option<Vec<ProgramHeader>>)
    ensures
        optional(headers) == elf_program_headers(file@),
{
    let elf = elf::ElfBytes::<elf::endian::AnyEndian>::minimal_parse(file).ok()?;
    Some(elf.segments()?.iter().map(|p| ProgramHeader {
        p_type: p.p_type, p_offset: p.p_offset, p_vaddr: p.p_vaddr, p_paddr: p.p_paddr,
        p_filesz: p.p_filesz, p_memsz: p.p_memsz, p_flags: p.p_flags,
    }).collect())
}

/// Calls `elf::ElfBytes::symbol_table` and lists the symbols.
///
/// The contract says that the symbols in their order, or the lack of a readable
/// table, depend on the bytes alone.
#[verifier::external_body]
fn symbols(file: &[u8]) -> (entries: Option<Vec<SymbolEntry>>)
    ensures
        optional(entries) == elf_symbols(file@),
{
    let elf = elf::ElfBytes::<elf::endian::AnyEndian>::minimal_parse(file).ok()?;
    Some(elf.symbol_table().ok()??.0.iter().map(|s| SymbolEntry {
        st_name: s.st_name,
        st_type: s.st_symtype(),
        st_bind: s.st_bind(),
        st_value: s.st_value,
    }).collect())
}

/// Calls `elf::string_table::StringTable::get` on the string table that
/// `elf::ElfBytes::symbol_table` returns.
///
/// The contract says that the string table, or the lack of one, depends on the
/// bytes of the file alone, and that the name is the UTF-8 text in the table from
/// `offset` up to the next zero byte, where there is such a text.
#[verifier::external_body]
fn symbol_name(file: &[u8], offset: usize) -> (name: Option<String>)
    ensures
        optional_text(name) == text_in(elf_symbol_strings(file@), offset as int),
{
    let elf = elf::ElfBytes::<elf::endian::AnyEndian>::minimal_parse(file).ok()?;
    Some(elf.symbol_table().ok()??.1.get(offset).ok()?.to_string())
}

/// Calls `elf::ElfBytes::dynamic_symbol_table` and lists the symbols.
///
/// The contract says that the symbols in their order, or the lack of a readable
/// table, depend on the bytes alone.
#[verifier::external_body]
fn dynamic_symbols(file: &[u8]) -> (entries: Option<Vec<SymbolEntry>>)
    ensures
        optional(entries) == elf_dynamic_symbols(file@),
{
    let elf = elf::ElfBytes::<elf::endian::AnyEndian>::minimal_parse(file).ok()?;
    Some(elf.dynamic_symbol_table().ok()??.0.iter().map(|s| SymbolEntry {
        st_name: s.st_name,
        st_type: s.st_symtype(),
        st_bind: s.st_bind(),
        st_value: s.st_value,
    }).collect())
}

/// Calls `elf::string_table::StringTable::get` on the string table that
/// `elf::ElfBytes::dynamic_symbol_table` returns.
///
/// The contract says that the string table, or the lack of one, depends on the
/// bytes of the file alone, and that the name is the UTF-8 text in the table from
/// `offset` up to the next zero byte, where there is such a text.
#[verifier::external_body]
fn dynamic_symbol_name(file: &[u8], offset: usize) -> (name: Option<String>)
    ensures
        optional_text(name) == text_in(elf_dynamic_symbol_strings(file@), offset as int),
{
    let elf = elf::ElfBytes::<elf::endian::AnyEndian>::minimal_parse(file).ok()?;
    Some(elf.dynamic_symbol_table().ok()??.1.get(offset).ok()?.to_string())
}

/// Calls `elf::ElfBytes::dynamic` and lists the entries.
///
/// The contract says that the entries in their order, or the lack of a readable
/// table, depend on the bytes alone.
#[verifier::external_body]
fn dynamic_entries(file: &[u8]) -> (entries: Option<Vec<DynamicEntry>>)
    ensures
        optional(entries) == elf_dynamic_entries(file@),
{
    let elf = elf::ElfBytes::<elf::endian::AnyEndian>::minimal_parse(file).ok()?;
    Some(elf.dynamic().ok()??.iter().map(|d| DynamicEntry {
        d_tag: d.d_tag,
        d_val: d.d_val(),
    }).collect())
}

/// Calls `elf::ElfBytes::section_data`.
///
/// The contract says that the contents, or the lack of readable contents,
/// depend on the bytes and the section header alone. In a file that the `elf`
/// crate accepts, a section without space in the file has no contents, and a
/// section that is not compressed has the bytes of the file that its header
/// gives, where the file has them all.
#[verifier::external_body]
fn section_data(file: &[u8], shdr: &SectionHeader) -> (data: Option<Vec<u8>>)
    ensures
        optional(data) == elf_section_data(file@, *shdr),
        elf_file_header(file@) is Some && shdr.sh_type == SHT_NOBITS ==> optional(data) == Some(
            Seq::<u8>::empty(),
        ),
        elf_file_header(file@) is Some && shdr.sh_type != SHT_NOBITS && shdr.sh_flags
            & SHF_COMPRESSED == 0 ==> optional(data) == range_of(
            file@,
            shdr.sh_offset as int,
            shdr.sh_size as int,
        ),
{
    let elf = elf::ElfBytes::<elf::endian::AnyEndian>::minimal_parse(file).ok()?;
    let header = elf::section::SectionHeader {
        sh_name: shdr.sh_name, sh_type: shdr.sh_type, sh_flags: shdr.sh_flags,
        sh_addr: shdr.sh_addr, sh_offset: shdr.sh_offset, sh_size: shdr.sh_size,
        sh_link: shdr.sh_link, sh_info: shdr.sh_info, sh_addralign: shdr.sh_addralign,
        sh_entsize: shdr.sh_entsize,
    };
    Some(elf.section_data(&header).ok()?.0.to_vec())
}

/// Calls `elf::ElfBytes::section_data_as_rels` and lists the relocations.
///
/// The contract says that the relocations in their order, or the lack of
/// relocations that can be read, depend on the bytes and the section header
/// alone.
#[verifier::external_body]
fn section_rels(file: &[u8], shdr: &SectionHeader) -> (rels: Option<Vec<Rel>>)
    ensures
        optional(rels) == elf_section_rels(file@, *shdr),
{
    let elf = elf::ElfBytes::<elf::endian::AnyEndian>::minimal_parse(file).ok()?;
    let header = elf::section::SectionHeader {
        sh_name: shdr.sh_name, sh_type: shdr.sh_type, sh_flags: shdr.sh_flags,
        sh_addr: shdr.sh_addr, sh_offset: shdr.sh_offset, sh_size: shdr.sh_size,
        sh_link: shdr.sh_link, sh_info: shdr.sh_info, sh_addralign: shdr.sh_addralign,
        sh_entsize: shdr.sh_entsize,
    };
    Some(elf.section_data_as_rels(&header).ok()?.map(|r| Rel {
        r_offset: r.r_offset, r_sym: r.r_sym, r_type: r.r_type,
    }).collect())
}

/// Calls `elf::string_table::StringTable::get`.
///
/// The contract says that the result is the UTF-8 text from `offset` up to the
/// next zero byte, and that there is none where there is no zero byte from
/// `offset` on or the bytes before it are not UTF-8.
#[verifier::external_body]
pub(crate) fn string_at(table: &[u8], offset: usize) -> (text: Option<String>)
    ensures
        optional_text(text) == text_at(table@, offset as int),
{
    Some(elf::string_table::StringTable::new(table).get(offset).ok()?.to_string())
}

/// A section with its name and contents.
#[derive(Debug)]
pub struct Section {
    /// The name.
    pub name: String,
    /// The header.
    pub header: SectionHeader,
    /// The contents, where they could be read.
    pub data: Option<Vec<u8>>,
    /// The contents as relocations, where they could be read so.
    pub rels: Option<Vec<Rel>>,
}

/// What a `Section` stands for.
pub struct SectionView {
    /// The name.
    pub name: Seq<char>,
    /// The header.
    pub header: SectionHeader,
    /// The contents, where they could be read.
    pub data: Option<Seq<u8>>,
    /// The contents as relocations, where they could be read so.
    pub rels: Option<Seq<Rel>>,
}

impl View for Section {
    type V = SectionView;

    open spec fn view(&self) -> SectionView {
        SectionView {
            name: self.name@,
            header: self.header,
            data: optional(self.data),
            rels: optional(self.rels),
        }
    }
}

/// A symbol with its name.
#[derive(Debug)]
pub struct Symbol {
    /// The name, where it could be read.
    pub name: Option<String>,
    /// What the symbol names.
    pub st_type: u8,
    /// Where the symbol is visible.
    pub st_bind: u8,
    /// The value.
    pub st_value: u64,
}

/// What a `Symbol` stands for.
pub struct SymbolView {
    /// The name, where it could be read.
    pub name: Option<Seq<char>>,
    /// What the symbol names.
    pub st_type: u8,
    /// Where the symbol is visible.
    pub st_bind: u8,
    /// The value.
    pub st_value: u64,
}

impl View for Symbol {
    type V = SymbolView;

    open spec fn view(&self) -> SymbolView {
        SymbolView {
            name: optional_text(self.name),
            st_type: self.st_type,
            st_bind: self.st_bind,
            st_value: self.st_value,
        }
    }
}

/// What a list of sections stands for.
pub open spec fn section_views(sections: Seq<Section>) -> Seq<SectionView> {
    Seq::new(sections.len(), |i: int| sections[i]@)
}

/// What a list of symbols stands for.
pub open spec fn symbol_views(symbols: Seq<Symbol>) -> Seq<SymbolView> {
    Seq::new(symbols.len(), |i: int| symbols[i]@)
}

/// What an optional list of symbols stands for.
pub open spec fn optional_symbols(symbols: Option<Vec<Symbol>>) -> Option<Seq<SymbolView>> {
    match symbols {
        Some(s) => Some(symbol_views(s@)),
        None => None,
    }
}

/// What a conversion reads of an ELF file, apart from the bytes themselves.
#[derive(Debug)]
pub struct ElfObject {
    /// The file header.
    pub header: FileHeader,
    /// The sections.
    pub sections: Vec<Section>,
    /// The segments, where there is a table of them.
    pub segments: Option<Vec<ProgramHeader>>,
    /// The symbols, where there is a table of them that can be read.
    pub symbols: Option<Vec<Symbol>>,
    /// The dynamic symbols, where there is a table of them that can be read.
    pub dynamic_symbols: Option<Vec<Symbol>>,
    /// The dynamic section, where there is one that can be read.
    pub dynamic: Option<Vec<DynamicEntry>>,
}

/// What an `ElfObject` stands for.
pub struct ElfView {
    /// The file header.
    pub header: FileHeader,
    /// The sections.
    pub sections: Seq<SectionView>,
    /// The segments, where there is a table of them.
    pub segments: Option<Seq<ProgramHeader>>,
    /// The symbols, where there is a table of them that can be read.
    pub symbols: Option<Seq<SymbolView>>,
    /// The dynamic symbols, where there is a table of them that can be read.
    pub dynamic_symbols: Option<Seq<SymbolView>>,
    /// The dynamic section, where there is one that can be read.
    pub dynamic: Option<Seq<DynamicEntry>>,
}

impl View for ElfObject {
    type V = ElfView;

    open spec fn view(&self) -> ElfView {
        ElfView {
            header: self.header,
            sections: section_views(self.sections@),
            segments: optional(self.segments),
            symbols: optional_symbols(self.symbols),
            dynamic_symbols: optional_symbols(self.dynamic_symbols),
            dynamic: optional(self.dynamic),
        }
    }
}

/// The section that a section header of a file describes, where its name can
/// be read.
pub open spec fn section_of(file: Seq<u8>, header: SectionHeader) -> SectionView {
    SectionView {
        name: text_in(elf_section_strings(file), header.sh_name as int)->0,
        header,
        data: elf_section_data(file, header),
        rels: elf_section_rels(file, header),
    }
}

/// Whether the contents of a section are the bytes of the file that its header
/// gives, unless it is compressed. A section without space in the file has no
/// contents.
pub open spec fn has_file_contents(file: Seq<u8>, section: SectionView) -> bool {
    &&& section.header.sh_type == SHT_NOBITS ==> section.data == Some(Seq::<u8>::empty())
    &&& section.header.sh_type != SHT_NOBITS && section.header.sh_flags & SHF_COMPRESSED == 0
        ==> section.data == range_of(
        file,
        section.header.sh_offset as int,
        section.header.sh_size as int,
    )
}

/// The sections that section headers of a file describe, where all their names
/// can be read.
pub open spec fn sections_of(file: Seq<u8>, headers: Seq<SectionHeader>) -> Option<
    Seq<SectionView>,
> {
    if forall|i: int|
        0 <= i < headers.len() ==> text_in(
            elf_section_strings(file),
            (#[trigger] headers[i]).sh_name as int,
        ) is Some {
        Some(Seq::new(headers.len(), |i: int| section_of(file, headers[i])))
    } else {
        None
    }
}

/// The symbol that an entry of the symbol table of a file describes.
pub open spec fn symbol_of(file: Seq<u8>, entry: SymbolEntry) -> SymbolView {
    SymbolView {
        name: text_in(elf_symbol_strings(file), entry.st_name as int),
        st_type: entry.st_type,
        st_bind: entry.st_bind,
        st_value: entry.st_value,
    }
}

/// The symbols of a file, where there is a table of them that can be read.
pub open spec fn symbols_of(file: Seq<u8>) -> Option<Seq<SymbolView>> {
    match elf_symbols(file) {
        Some(entries) => Some(Seq::new(entries.len(), |i: int| symbol_of(file, entries[i]))),
        None => None,
    }
}

/// The symbol that an entry of the dynamic symbol table of a file describes.
pub open spec fn dynamic_symbol_of(file: Seq<u8>, entry: SymbolEntry) -> SymbolView {
    SymbolView {
        name: text_in(elf_dynamic_symbol_strings(file), entry.st_name as int),
        st_type: entry.st_type,
        st_bind: entry.st_bind,
        st_value: entry.st_value,
    }
}

/// The dynamic symbols of a file, where there is a table of them that can be
/// read.
pub open spec fn dynamic_symbols_of(file: Seq<u8>) -> Option<Seq<SymbolView>> {
    match elf_dynamic_symbols(file) {
        Some(entries) => Some(
            Seq::new(entries.len(), |i: int| dynamic_symbol_of(file, entries[i])),
        ),
        None => None,
    }
}

/// What a conversion reads of an ELF file, or why it cannot be read.
pub open spec fn elf_object(file: Seq<u8>) -> Result<ElfView, ConvertError> {
    match elf_file_header(file) {
        None => Err(ConvertError::NotElf),
        Some(header) => match elf_section_headers(file) {
            None => Err(ConvertError::NoSectionHeaders),
            Some(headers) => match sections_of(file, headers) {
                None => Err(ConvertError::SectionName),
                Some(sections) => Ok(
                    ElfView {
                        header,
                        sections,
                        segments: elf_program_headers(file),
                        symbols: symbols_of(file),
                        dynamic_symbols: dynamic_symbols_of(file),
                        dynamic: elf_dynamic_entries(file),
                    },
                ),
            },
        },
    }
}

/// Reads the sections that section headers describe.
fn load_sections(file: &[u8], headers: &Vec<SectionHeader>) -> (sections: Option<Vec<Section>>)
    ensures
        match sections {
            Some(s) => {
                &&& sections_of(file@, headers@) == Some(section_views(s@))
                &&& elf_file_header(file@) is Some ==> forall|i: int|
                    0 <= i < s@.len() ==> has_file_contents(file@, (#[trigger] s@[i])@)
            },
            None => sections_of(file@, headers@) is None,
        },
{
    let mut sections: Vec<Section> = Vec::new();
    let count: usize = headers.len();
    let mut i: usize = 0;
    while i < count
        invariant
            count == headers@.len(),
            i <= count,
            sections@.len() == i,
            forall|j: int|
                #![trigger headers@[j]]
                0 <= j < i ==> text_in(
                    elf_section_strings(file@),
                    headers@[j].sh_name as int,
                ) is Some,
            forall|j: int|
                0 <= j < i ==> (#[trigger] sections@[j])@ == section_of(file@, headers@[j]),
            elf_file_header(file@) is Some ==> forall|j: int|
                0 <= j < i ==> has_file_contents(file@, (#[trigger] sections@[j])@),
        decreases count - i,
    {
        let header: SectionHeader = headers[i];
        match section_name(file, header.sh_name as usize) {
            Some(name) => {
                let data: Option<Vec<u8>> = section_data(file, &header);
                let rels: Option<Vec<Rel>> = section_rels(file, &header);
                sections.push(Section { name, header, data, rels });
            },
            None => {
                assert(text_in(
                    elf_section_strings(file@),
                    headers@[i as int].sh_name as int,
                ) is None);
                return None;
            },
        }
        i += 1;
    }
    assert(section_views(sections@) =~= Seq::new(
        headers@.len(),
        |k: int| section_of(file@, headers@[k]),
    ));
    Some(sections)
}

/// Reads the symbol table.
fn load_symbols(file: &[u8]) -> (loaded: Option<Vec<Symbol>>)
    ensures
        optional_symbols(loaded) == symbols_of(file@),
{
    let entries: Vec<SymbolEntry> = match symbols(file) {
        Some(entries) => entries,
        None => { return None; },
    };
    let mut loaded: Vec<Symbol> = Vec::new();
    let count: usize = entries.len();
    let mut i: usize = 0;
    while i < count
        invariant
            count == entries@.len(),
            i <= count,
            loaded@.len() == i,
            forall|j: int| 0 <= j < i ==> (#[trigger] loaded@[j])@ == symbol_of(file@, entries@[j]),
        decreases count - i,
    {
        let entry: SymbolEntry = entries[i];
        let name: Option<String> = symbol_name(file, entry.st_name as usize);
        loaded.push(
            Symbol {
                name,
                st_type: entry.st_type,
                st_bind: entry.st_bind,
                st_value: entry.st_value,
            },
        );
        i += 1;
    }
    assert(symbol_views(loaded@) =~= Seq::new(
        entries@.len(),
        |k: int| symbol_of(file@, entries@[k]),
    ));
    Some(loaded)
}

/// Reads the dynamic symbol table.
fn load_dynamic_symbols(file: &[u8]) -> (loaded: Option<Vec<Symbol>>)
    ensures
        optional_symbols(loaded) == dynamic_symbols_of(file@),
{
    let entries: Vec<SymbolEntry> = match dynamic_symbols(file) {
        Some(entries) => entries,
        None => { return None; },
    };
    let mut loaded: Vec<Symbol> = Vec::new();
    let count: usize = entries.len();
    let mut i: usize = 0;
    while i < count
        invariant
            count == entries@.len(),
            i <= count,
            loaded@.len() == i,
            forall|j: int|
                0 <= j < i ==> (#[trigger] loaded@[j])@ == dynamic_symbol_of(file@, entries@[j]),
        decreases count - i,
    {
        let entry: SymbolEntry = entries[i];
        let name: Option<String> = dynamic_symbol_name(file, entry.st_name as usize);
        loaded.push(
            Symbol {
                name,
                st_type: entry.st_type,
                st_bind: entry.st_bind,
                st_value: entry.st_value,
            },
        );
        i += 1;
    }
    assert(symbol_views(loaded@) =~= Seq::new(
        entries@.len(),
        |k: int| dynamic_symbol_of(file@, entries@[k]),
    ));
    Some(loaded)
}

impl ElfObject {
    /// Reads an ELF file.
    pub fn parse(file: &[u8]) -> (object: Result<ElfObject, ConvertError>)
        ensures
            match object {
                Ok(o) => {
                    &&& elf_object(file@) == Ok::<ElfView, ConvertError>(o@)
                    &&& forall|i: int|
                        0 <= i < o.sections@.len() ==> has_file_contents(
                            file@,
                            (#[trigger] o.sections@[i])@,
                        )
                },
                Err(e) => elf_object(file@) == Err::<ElfView, ConvertError>(e),
            },
    {
        let header: FileHeader = match file_header(file) {
            Some(header) => header,
            None => { return Err(ConvertError::NotElf); },
        };
        let headers: Vec<SectionHeader> = match section_headers(file) {
            Some(headers) => headers,
            None => { return Err(ConvertError::NoSectionHeaders); },
        };
        let sections: Vec<Section> = match load_sections(file, &headers) {
            Some(sections) => sections,
            None => { return Err(ConvertError::SectionName); },
        };
        Ok(
            ElfObject {
                header,
                sections,
                segments: program_headers(file),
                symbols: load_symbols(file),
                dynamic_symbols: load_dynamic_symbols(file),
                dynamic: dynamic_entries(file),
            },
        )
    }
}

/// A shared library that an app may depend on.
#[derive(Debug)]
pub struct SharedLibrary {
    /// The name.
    pub name: String,
    /// The symbols, where there is a table of them that can be read.
    pub symbols: Option<Vec<Symbol>>,
}

/// What a `SharedLibrary` stands for.
pub struct SharedLibraryView {
    /// The name.
    pub name: Seq<char>,
    /// The symbols, where there is a table of them that can be read.
    pub symbols: Option<Seq<SymbolView>>,
}

impl View for SharedLibrary {
    type V = SharedLibraryView;

    open spec fn view(&self) -> SharedLibraryView {
        SharedLibraryView { name: self.name@, symbols: optional_symbols(self.symbols) }
    }
}

/// What a list of shared libraries stands for.
pub open spec fn library_views(libraries: Seq<SharedLibrary>) -> Seq<SharedLibraryView> {
    Seq::new(libraries.len(), |i: int| libraries[i]@)
}

/// The shared library that an ELF file holds, which is to be known as `name`, or why
/// it cannot be read.
pub open spec fn shared_library(name: Seq<char>, file: Seq<u8>) -> Result<
    SharedLibraryView,
    ConvertError,
> {
    match elf_file_header(file) {
        Some(_) => Ok(SharedLibraryView { name, symbols: symbols_of(file) }),
        None => Err(ConvertError::NotElf),
    }
}

impl SharedLibrary {
    /// Reads a shared library, an ELF file, which is to be known as `name`.
    pub fn parse(name: String, file: &[u8]) -> (library: Result<SharedLibrary, ConvertError>)
        ensures
            match library {
                Ok(l) => shared_library(name@, file@) == Ok::<SharedLibraryView, ConvertError>(l@),
                Err(e) => shared_library(name@, file@) == Err::<SharedLibraryView, ConvertError>(e),
            },
            match library {
                Ok(l) => elf_file_header(file@) is Some && l@ == (SharedLibraryView {
                    name: name@,
                    symbols: symbols_of(file@),
                }),
                Err(e) => elf_file_header(file@) is None && e == ConvertError::NotElf,
            },
    {
        match file_header(file) {
            Some(_) => Ok(SharedLibrary { name, symbols: load_symbols(file) }),
            None => Err(ConvertError::NotElf),
        }
    }
}

} // verus!
