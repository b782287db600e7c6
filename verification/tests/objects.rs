use elf2tab::convert::{elf_to_tbf, Report, TbfHeader};
use elf2tab::error::ConvertError;
use elf2tab::layout::Notice;
use elf2tab::object::{ElfObject, SharedLibrary};
use elf2tab::plan::{ConvertOptions, HeaderPlan};
use elf2tab::symbols::find_fn_in_shlib;
use sha2::Digest;

const SHT_PROGBITS: u32 = 1;
const SHT_SYMTAB: u32 = 2;
const SHT_STRTAB: u32 = 3;
const SHT_DYNAMIC: u32 = 6;
const SHT_NOBITS: u32 = 8;
const SHT_REL: u32 = 9;
const SHT_DYNSYM: u32 = 11;
const WRITE: u32 = 1;
const ALLOC: u32 = 2;
const EXEC: u32 = 4;
const PF_X: u32 = 1;
const PF_W: u32 = 2;
const PF_R: u32 = 4;
const EM_386: u16 = 3;
const EM_ARM: u16 = 40;
const EM_RISCV: u16 = 243;
const EM_X86_64: u16 = 62;
const ET_EXEC: u16 = 2;
const ET_DYN: u16 = 3;

#[derive(Clone)]
struct Sec {
    name: &'static str,
    kind: u32,
    flags: u32,
    addr: u32,
    data: Vec<u8>,
    nobits_size: u32,
    link: &'static str,
    entsize: u32,
    align: usize,
}

fn sec(name: &'static str, kind: u32, flags: u32, addr: u32, data: Vec<u8>) -> Sec {
    Sec { name, kind, flags, addr, data, nobits_size: 0, link: "", entsize: 0, align: 4 }
}

#[derive(Clone)]
struct Seg {
    flags: u32,
    vaddr: u32,
    paddr: u32,
    first: &'static str,
    last: &'static str,
    more_memory: u32,
}

#[derive(Clone)]
struct Elf {
    kind: u16,
    machine: u16,
    entry: u32,
    sections: Vec<Sec>,
    segments: Vec<Seg>,
}

fn put16(out: &mut Vec<u8>, value: u16) {
    out.extend_from_slice(&value.to_le_bytes());
}

fn put32(out: &mut Vec<u8>, value: u32) {
    out.extend_from_slice(&value.to_le_bytes());
}

impl Elf {
    fn index(&self, name: &str) -> u32 {
        match self.sections.iter().position(|s| s.name == name) {
            Some(i) => i as u32 + 1,
            None => 0,
        }
    }

    fn replace(&mut self, name: &str, data: Vec<u8>) {
        let i = self.index(name) as usize - 1;
        self.sections[i].data = data;
    }

    fn remove(&mut self, name: &str) {
        let i = self.index(name) as usize - 1;
        self.sections[i].name = ".gone";
        self.sections[i].kind = SHT_PROGBITS;
    }

    /// A 32-bit little-endian ELF file.
    fn build(&self) -> Vec<u8> {
        let mut names = vec![0u8];
        let mut name_offsets = Vec::new();
        for s in &self.sections {
            name_offsets.push(names.len() as u32);
            names.extend_from_slice(s.name.as_bytes());
            names.push(0);
        }
        let names_name = names.len() as u32;
        names.extend_from_slice(b".shstrtab\0");

        let mut body = vec![0u8; 52 + 32 * self.segments.len()];
        let mut offsets = Vec::new();
        for s in &self.sections {
            while body.len() % s.align != 0 {
                body.push(0);
            }
            offsets.push(body.len() as u32);
            body.extend_from_slice(&s.data);
        }
        let names_offset = body.len() as u32;
        body.extend_from_slice(&names);
        while body.len() % 4 != 0 {
            body.push(0);
        }
        let shoff = body.len() as u32;
        body.extend_from_slice(&[0u8; 40]);
        for (i, s) in self.sections.iter().enumerate() {
            put32(&mut body, name_offsets[i]);
            put32(&mut body, s.kind);
            put32(&mut body, s.flags);
            put32(&mut body, s.addr);
            put32(&mut body, offsets[i]);
            let size = if s.kind == SHT_NOBITS { s.nobits_size } else { s.data.len() as u32 };
            put32(&mut body, size);
            put32(&mut body, self.index(s.link));
            put32(&mut body, 0);
            put32(&mut body, 4);
            put32(&mut body, s.entsize);
        }
        put32(&mut body, names_name);
        put32(&mut body, SHT_STRTAB);
        put32(&mut body, 0);
        put32(&mut body, 0);
        put32(&mut body, names_offset);
        put32(&mut body, names.len() as u32);
        put32(&mut body, 0);
        put32(&mut body, 0);
        put32(&mut body, 1);
        put32(&mut body, 0);

        let mut head = vec![0x7f, b'E', b'L', b'F', 1, 1, 1, 0, 0, 0, 0, 0, 0, 0, 0, 0];
        put16(&mut head, self.kind);
        put16(&mut head, self.machine);
        put32(&mut head, 1);
        put32(&mut head, self.entry);
        put32(&mut head, 52);
        put32(&mut head, shoff);
        put32(&mut head, 0);
        put16(&mut head, 52);
        put16(&mut head, 32);
        put16(&mut head, self.segments.len() as u16);
        put16(&mut head, 40);
        put16(&mut head, self.sections.len() as u16 + 2);
        put16(&mut head, self.sections.len() as u16 + 1);
        for g in &self.segments {
            let first = self.index(g.first) as usize - 1;
            let last = self.index(g.last) as usize - 1;
            let end = offsets[last] + self.sections[last].data.len() as u32;
            let size = end - offsets[first];
            put32(&mut head, 1);
            put32(&mut head, offsets[first]);
            put32(&mut head, g.vaddr);
            put32(&mut head, g.paddr);
            put32(&mut head, size);
            put32(&mut head, size + g.more_memory);
            put32(&mut head, g.flags);
            put32(&mut head, 4);
        }
        body[..head.len()].copy_from_slice(&head);
        body
    }
}

fn strings(texts: &[&str]) -> (Vec<u8>, Vec<u32>) {
    let mut table = vec![0u8];
    let mut offsets = Vec::new();
    for t in texts {
        offsets.push(table.len() as u32);
        table.extend_from_slice(t.as_bytes());
        table.push(0);
    }
    (table, offsets)
}

/// A symbol table with a first entry that is all zero.
fn symbol_table(entries: &[(u32, u32, u8)]) -> Vec<u8> {
    let mut table = vec![0u8; 16];
    for (name, value, info) in entries {
        put32(&mut table, *name);
        put32(&mut table, *value);
        put32(&mut table, 0);
        table.push(*info);
        table.push(0);
        put16(&mut table, 1);
    }
    table
}

fn text_bytes() -> Vec<u8> {
    let mut text: Vec<u8> = (0..0x40).map(|i| 0x40 + i as u8).collect();
    // The offset in the global offset table that the relocation looks at.
    text[0x10..0x14].copy_from_slice(&4u32.to_le_bytes());
    text
}

fn got_bytes() -> Vec<u8> {
    vec![0xa0, 0xa1, 0xa2, 0xa3, 0xa4, 0xa5, 0xa6, 0xa7, 0xa8, 0xa9, 0xaa, 0xab, 0xac, 0xad, 0xae, 0xaf]
}

fn symbols(flash: Option<u32>, sram: Option<u32>, protected: Option<u32>) -> (Vec<u8>, Vec<u8>) {
    let (table, at) =
        strings(&["ml_func", "_flash_origin", "_sram_origin", "tbf_protected_region_size"]);
    let mut entries = vec![(at[0], 0, 0x12)];
    if let Some(value) = flash {
        entries.push((at[1], value, 0x10));
    }
    if let Some(value) = sram {
        entries.push((at[2], value, 0x10));
    }
    if let Some(value) = protected {
        entries.push((at[3], value, 0x10));
    }
    (symbol_table(&entries), table)
}

/// A position-independent app for ARM.
fn app() -> Elf {
    let (symtab, strtab) = symbols(Some(0x8000_0000), Some(0), None);
    let (dynstr, at) = strings(&["ml_func", "libml.so", "libother.so"]);
    let dynsym = symbol_table(&[(at[0], 0, 0x12)]);
    let mut dynamic = Vec::new();
    for (tag, value) in [(1, at[1]), (5, 0x8000_0000), (1, 0xffff), (1, at[2]), (0, 0)] {
        put32(&mut dynamic, tag);
        put32(&mut dynamic, value);
    }
    let mut rel = Vec::new();
    put32(&mut rel, 0x8000_0010);
    put32(&mut rel, (1 << 8) | 2);
    Elf {
        kind: ET_EXEC,
        machine: EM_ARM,
        entry: 0x8000_0004,
        sections: vec![
            sec(".text", SHT_PROGBITS, ALLOC | EXEC, 0x8000_0000, text_bytes()),
            sec(".got", SHT_PROGBITS, ALLOC | WRITE, 0x8000_0040, got_bytes()),
            sec(".wfr.store", SHT_PROGBITS, ALLOC | WRITE, 0x8000_0050, vec![0x77; 0x20]),
            sec(".data", SHT_PROGBITS, ALLOC | WRITE, 0x2000_0000, vec![0x55; 0x10]),
            Sec { nobits_size: 0x300, ..sec(".stack", SHT_NOBITS, ALLOC | WRITE, 0x2000_1000, vec![]) },
            sec(".rel.got", SHT_PROGBITS, 0, 0, b"GOTREL!!".to_vec()),
            Sec { entsize: 8, ..sec(".rel.text", SHT_REL, 0, 0, rel) },
            Sec { link: ".strtab", entsize: 16, ..sec(".symtab", SHT_SYMTAB, 0, 0, symtab) },
            sec(".strtab", SHT_STRTAB, 0, 0, strtab),
            Sec { align: 0x1000, ..sec(".dynstr", SHT_STRTAB, 0, 0, dynstr) },
            Sec { link: ".dynstr", entsize: 16, ..sec(".dynsym", SHT_DYNSYM, 0, 0, dynsym) },
            Sec { link: ".dynstr", entsize: 8, ..sec(".dynamic", SHT_DYNAMIC, 0, 0, dynamic) },
        ],
        segments: vec![
            Seg { flags: PF_R | PF_X, vaddr: 0x8000_0000, paddr: 0x8000_0000, first: ".text", last: ".wfr.store", more_memory: 0 },
            Seg { flags: PF_R | PF_W, vaddr: 0x2000_0000, paddr: 0x8000_0070, first: ".data", last: ".data", more_memory: 0 },
        ],
    }
}

/// The same app for a fixed address, without the symbols that say so.
fn fixed_app(address: u32) -> Elf {
    let mut elf = app();
    let (symtab, strtab) = symbols(None, Some(0x2000_4000), None);
    elf.replace(".symtab", symtab);
    elf.replace(".strtab", strtab);
    elf.entry = address + 4;
    for s in elf.sections.iter_mut() {
        if s.addr >= 0x8000_0000 {
            s.addr = s.addr - 0x8000_0000 + address;
        }
    }
    let mut rel = Vec::new();
    put32(&mut rel, address + 0x10);
    put32(&mut rel, (1 << 8) | 2);
    elf.replace(".rel.text", rel);
    elf.segments[0].vaddr = address;
    elf.segments[0].paddr = address;
    elf.segments[1].paddr = address + 0x70;
    elf
}

fn options() -> ConvertOptions {
    ConvertOptions {
        package_name: "blink".to_string(),
        stack_len: None,
        app_heap_len: 1022,
        kernel_heap_len: 1024,
        protected_region_size: None,
        disabled: false,
        minimum_footer_size: 0,
        sha256: false,
        sha384: false,
        sha512: false,
        rsa4096_private_key: None,
    }
}

const HEADER: usize = 48;

fn header_bytes(header: &TbfHeader) -> Vec<u8> {
    let mut bytes = vec![0xee; HEADER];
    bytes[0..4].copy_from_slice(&header.total_size.to_le_bytes());
    bytes[4..8].copy_from_slice(&header.binary_end_offset.to_le_bytes());
    bytes
}

fn convert(elf: &[u8], options: &ConvertOptions) -> Result<(Report, Vec<u8>), ConvertError> {
    let mut output = Vec::new();
    let mut text = String::new();
    let length = |_: &HeaderPlan| HEADER;
    let report = elf_to_tbf(elf, options, &vec![], length, header_bytes, &mut output, &mut text)?;
    assert_eq!(text, "");
    Ok((report, output))
}

fn library(name: &str, functions: &[(&str, u32)]) -> SharedLibrary {
    let names: Vec<&str> = functions.iter().map(|f| f.0).collect();
    let (strtab, at) = strings(&names);
    let entries: Vec<(u32, u32, u8)> =
        functions.iter().enumerate().map(|(i, f)| (at[i], f.1, 0x12)).collect();
    let elf = Elf {
        kind: ET_DYN,
        machine: EM_ARM,
        entry: 0,
        sections: vec![
            Sec { link: ".strtab", entsize: 16, ..sec(".symtab", SHT_SYMTAB, 0, 0, symbol_table(&entries)) },
            sec(".strtab", SHT_STRTAB, 0, 0, strtab),
        ],
        segments: vec![],
    };
    SharedLibrary::parse(name.to_string(), &elf.build()).unwrap()
}

fn unhex(text: &str) -> Vec<u8> {
    let digits: Vec<u8> = text.chars().filter_map(|c| c.to_digit(16)).map(|d| d as u8).collect();
    digits.chunks(2).map(|d| d[0] * 16 + d[1]).collect()
}

#[test]
fn app_is_read_from_its_file() {
    let object = ElfObject::parse(&app().build()).unwrap();
    assert_eq!(object.header.e_machine, EM_ARM);
    assert_eq!(object.header.e_type, ET_EXEC);
    assert_eq!(object.header.e_entry, 0x8000_0004);
    assert_eq!(object.sections.len(), 14);
    assert_eq!(object.sections[0].name, "");
    assert_eq!(object.sections[1].name, ".text");
    assert_eq!(object.sections[1].data, Some(text_bytes()));
    assert_eq!(object.sections[1].header.sh_addr, 0x8000_0000);
    assert_eq!(object.sections[1].header.sh_size, 0x40);
    assert_eq!(object.sections[5].name, ".stack");
    assert_eq!(object.sections[5].data, Some(vec![]));
    assert!(object.sections[6].rels.is_none());
    let rels = object.sections[7].rels.as_ref().unwrap();
    assert_eq!(rels.len(), 1);
    assert_eq!((rels[0].r_offset, rels[0].r_sym, rels[0].r_type), (0x8000_0010, 1, 2));
    let segments = object.segments.as_ref().unwrap();
    assert_eq!(segments.len(), 2);
    assert_eq!(segments[1].p_vaddr, 0x2000_0000);
    assert_eq!(segments[1].p_paddr, 0x8000_0070);
    assert_eq!((segments[1].p_filesz, segments[1].p_flags), (0x10, 6));
    let symbols = object.symbols.as_ref().unwrap();
    assert_eq!(symbols.len(), 4);
    assert_eq!(symbols[0].name.as_deref(), Some(""));
    assert_eq!(symbols[1].name.as_deref(), Some("ml_func"));
    assert_eq!((symbols[1].st_type, symbols[1].st_bind), (2, 1));
    assert_eq!(symbols[2].st_value, 0x8000_0000);
    let dynamic_symbols = object.dynamic_symbols.as_ref().unwrap();
    assert_eq!(dynamic_symbols[1].name.as_deref(), Some("ml_func"));
    let dynamic = object.dynamic.as_ref().unwrap();
    assert_eq!((dynamic[1].d_tag, dynamic[1].d_val), (5, 0x8000_0000));
}

#[test]
fn other_files_are_not_read() {
    assert_eq!(ElfObject::parse(b"not an elf file").unwrap_err(), ConvertError::NotElf);
    let mut file = app().build();
    file[32..36].copy_from_slice(&[0, 0, 0, 0]);
    assert_eq!(ElfObject::parse(&file).unwrap_err(), ConvertError::NoSectionHeaders);
    // No string table for the section names.
    let mut file = app().build();
    file[50..52].copy_from_slice(&[0, 0]);
    assert_eq!(ElfObject::parse(&file).unwrap_err(), ConvertError::NoSectionHeaders);
    // A section name past the end of the string table.
    let mut file = app().build();
    let shoff = u32::from_le_bytes([file[32], file[33], file[34], file[35]]) as usize;
    file[shoff + 40..shoff + 44].copy_from_slice(&[0xff, 0xff, 0, 0]);
    assert_eq!(ElfObject::parse(&file).unwrap_err(), ConvertError::SectionName);
    assert_eq!(
        SharedLibrary::parse("lib".to_string(), b"junk").unwrap_err(),
        ConvertError::NotElf
    );
}

#[test]
fn pic_app_is_converted() {
    let (report, output) = convert(&app().build(), &options()).unwrap();
    let header = &report.header;
    assert_eq!(report.header_length, HEADER);
    assert_eq!(report.dependencies, Some(vec!["libml.so".to_string(), "libother.so".to_string()]));
    assert_eq!(header.plan.minimum_ram_size, 0x10 + 0x300 + 1024 + 1024);
    assert_eq!(header.plan.writeable_flash_regions_count, 1);
    assert_eq!(header.plan.fixed_address_ram, None);
    assert_eq!(header.plan.fixed_address_flash, None);
    assert!(!header.plan.is_shared_library);
    assert_eq!(header.protected_size, None);
    assert_eq!(header.init_fn_offset, Some(4));
    assert_eq!(header.writeable_flash_regions, vec![(48 + 0x50, 0x20)]);
    assert_eq!(header.binary_end_offset, 48 + 0x80 + 4 + 8);
    assert_eq!(header.total_size, 512);
    assert!(report.notices.is_empty());

    let mut expected = header_bytes(header);
    expected.extend(text_bytes());
    expected.extend(got_bytes());
    expected.extend(vec![0x77; 0x20]);
    expected.extend(vec![0x55; 0x10]);
    expected.extend(8u32.to_le_bytes());
    expected.extend(b"GOTREL!!");
    assert_eq!(expected.len(), 188);
    // Reserved room up to a power of two.
    expected.extend([128, 0]);
    expected.extend(320u16.to_le_bytes());
    expected.extend([0, 0, 0, 0]);
    expected.resize(512, 0);
    assert_eq!(output, expected);
}

#[test]
fn entry_offset_points_at_the_entry() {
    let (report, output) = convert(&app().build(), &options()).unwrap();
    let at = HEADER + report.header.init_fn_offset.unwrap() as usize;
    assert_eq!(output[at], text_bytes()[4]);
}

#[test]
fn output_is_appended() {
    let mut output = vec![1, 2, 3];
    let mut text = "# tables\n".to_string();
    let libraries = vec![library("libml", &[("other", 1), ("ml_func", 0x123)])];
    let report = elf_to_tbf(
        &app().build(),
        &options(),
        &libraries,
        |_: &HeaderPlan| HEADER,
        header_bytes,
        &mut output,
        &mut text,
    )
    .unwrap();
    assert_eq!(output.len(), 3 + 512);
    assert_eq!(output[..3], [1, 2, 3]);
    assert_eq!(report.relocs.len(), 1);
    assert_eq!(report.relocs[0].fn_name, "ml_func");
    // The table is at 0x30 + 0x40, and the code asks for the entry at 4.
    assert_eq!(report.relocs[0].app_got_addr, 0x74);
    assert_eq!(
        text,
        "# tables\n[ml_func]\napp_name = \"blink\"\napp_got_addr = 0x74\nlib_name = \"libml\"\nlib_func_offset = 0x123\n"
    );
}

#[test]
fn first_library_with_a_function_counts() {
    let mut output = vec![];
    let mut text = String::new();
    let libraries = vec![
        library("libnone", &[("other", 1)]),
        library("libfirst", &[("ml_func", 0xab)]),
        library("libsecond", &[("ml_func", 0xcd)]),
    ];
    elf_to_tbf(
        &app().build(),
        &options(),
        &libraries,
        |_: &HeaderPlan| HEADER,
        header_bytes,
        &mut output,
        &mut text,
    )
    .unwrap();
    assert!(text.contains("lib_name = \"libfirst\"\nlib_func_offset = 0xab\n"));
    assert!(!text.contains("libsecond"));
}

#[test]
fn failure_leaves_output_alone() {
    let mut output = vec![1, 2, 3];
    let mut text = "before".to_string();
    let mut elf = app();
    elf.remove(".got");
    let failed = elf_to_tbf(
        &elf.build(),
        &options(),
        &vec![],
        |_: &HeaderPlan| HEADER,
        header_bytes,
        &mut output,
        &mut text,
    );
    assert_eq!(failed.unwrap_err(), ConvertError::NoGlobalOffsetTable);
    assert_eq!(output, vec![1, 2, 3]);
    assert_eq!(text, "before");
}

/// A file of 32-bit words.
fn file_of(words: &[u32]) -> Vec<u8> {
    words.iter().flat_map(|word| word.to_le_bytes()).collect()
}

#[test]
fn arm_is_padded_to_the_least_size() {
    // One segment of four bytes, which is a section named `.got`.
    let mut words = vec![
        0x464c_457f, 0x1_0101, 0, 0, 0x28_0002, 1, 0x8000_0000, 0x34, 0x54, 0, 0x20_0034,
        0x28_0001, 0x3_0004, 1, 0, 0x8000_0000, 0x8000_0000, 4, 4, 5, 4,
    ];
    words.extend([0; 10]);
    words.extend([1, 1, 2, 0x8000_0000, 0, 4, 0, 0, 4, 0]);
    words.extend([0, 2, 0, 0, 0, 0, 3, 0, 4, 0x10]);
    words.extend([0, 3, 0, 0, 0xf4, 6, 0, 0, 1, 0]);
    words.extend([0x6f67_2e00, 0x74]);
    let mut wanted = options();
    wanted.protected_region_size = Some(248);
    // All but the footer takes 248 + 4 + 4 bytes, which is a power of two.
    let (report, output) = convert(&file_of(&words), &wanted).unwrap();
    assert_eq!(report.header.binary_end_offset, 256);
    assert_eq!(report.header.total_size, 512);
    assert_eq!(output.len(), 512);
    assert_eq!(output[256..264], [128, 0, 252, 0, 0, 0, 0, 0]);
}

#[test]
fn data_object_is_not_a_function() {
    let mut words = vec![
        0x464c_457f, 0x1_0101, 0, 0, 0x28_0003, 1, 0, 0, 0x34, 0, 0x34, 0x28_0000, 0x2_0003,
    ];
    words.extend([0; 10]);
    words.extend([0, 2, 0, 0, 0xac, 0x20, 2, 0, 4, 0x10]);
    words.extend([0, 3, 0, 0, 0xcc, 3, 0, 0, 1, 0]);
    words.extend([0, 0, 0, 0, 1, 0x11, 0, 0x1_0011, 0x6600]);
    let library = SharedLibrary::parse("lib".to_string(), &file_of(&words)).unwrap();
    let symbols = library.symbols.as_ref().unwrap();
    assert_eq!(symbols[1].name.as_deref(), Some("f"));
    assert_eq!((symbols[1].st_type, symbols[1].st_value), (1, 0x11));
    assert_eq!(find_fn_in_shlib(&library, &"f".to_string()), Ok(None));
}

#[test]
fn function_with_two_relocations_has_one_table() {
    let mut elf = app();
    let mut rel = Vec::new();
    for offset in [0x8000_0010, 0x8000_0010] {
        put32(&mut rel, offset);
        put32(&mut rel, (1 << 8) | 2);
    }
    elf.replace(".rel.text", rel);
    let mut output = vec![];
    let mut text = String::new();
    let libraries = vec![library("libml", &[("ml_func", 0x123)])];
    let report = elf_to_tbf(
        &elf.build(),
        &options(),
        &libraries,
        |_: &HeaderPlan| HEADER,
        header_bytes,
        &mut output,
        &mut text,
    )
    .unwrap();
    assert_eq!(report.relocs.len(), 2);
    assert_eq!(text.matches("[ml_func]").count(), 1);
}

#[test]
fn riscv_is_padded_to_multiples_of_four() {
    let mut elf = app();
    elf.machine = EM_RISCV;
    elf.replace(".rel.got", b"12345".to_vec());
    let (report, output) = convert(&elf.build(), &options()).unwrap();
    // 48 + 128 + 4 + 5 = 185, and 3 bytes are not enough for reserved room.
    assert_eq!(report.header.total_size, 188);
    assert_eq!(output.len(), 188);
    assert_eq!(output[176..], [5, 0, 0, 0, b'1', b'2', b'3', b'4', b'5', 0, 0, 0]);
}

#[test]
fn x86_is_padded_to_pages() {
    let mut elf = app();
    elf.machine = EM_386;
    let (report, output) = convert(&elf.build(), &options()).unwrap();
    assert_eq!(report.header.total_size, 4096);
    assert_eq!(output.len(), 4096);
    assert_eq!(output[188..192], [128, 0, 0x40, 0x0f]);
}

#[test]
fn other_machines_are_not_padded() {
    let mut elf = app();
    elf.machine = EM_X86_64;
    let (report, output) = convert(&elf.build(), &options()).unwrap();
    assert_eq!(report.header.total_size, 188);
    assert_eq!(output.len(), 188);
}

#[test]
fn footer_has_the_minimum_size() {
    let mut elf = app();
    elf.machine = EM_X86_64;
    let mut wanted = options();
    wanted.minimum_footer_size = 21;
    let (report, output) = convert(&elf.build(), &wanted).unwrap();
    assert_eq!(report.header.total_size, 188 + 24);
    assert_eq!(output.len(), 188 + 24);
    assert_eq!(output[188..196], [128, 0, 20, 0, 0, 0, 0, 0]);
    // There is no reserved room of less than 8 bytes.
    wanted.minimum_footer_size = 1;
    let (report, output) = convert(&elf.build(), &wanted).unwrap();
    assert_eq!(report.header.total_size, 188 + 8);
    assert_eq!(output[188..], [128, 0, 4, 0, 0, 0, 0, 0]);
}

#[test]
fn digests_cover_all_before_the_footer() {
    let mut elf = app();
    elf.machine = EM_X86_64;
    let mut wanted = options();
    wanted.sha256 = true;
    wanted.sha384 = true;
    wanted.sha512 = true;
    let (report, output) = convert(&elf.build(), &wanted).unwrap();
    assert_eq!(report.header.binary_end_offset, 188);
    assert_eq!(report.header.total_size as usize, 188 + 40 + 56 + 72);
    let covered = &output[..188];
    let mut footer = vec![128, 0, 36, 0, 3, 0, 0, 0];
    footer.extend_from_slice(&sha2::Sha256::digest(covered));
    footer.extend([128, 0, 52, 0, 4, 0, 0, 0]);
    footer.extend_from_slice(&sha2::Sha384::digest(covered));
    footer.extend([128, 0, 68, 0, 5, 0, 0, 0]);
    footer.extend_from_slice(&sha2::Sha512::digest(covered));
    assert_eq!(output[188..], footer);
}

#[test]
fn one_digest_is_followed_by_reserved_room() {
    let mut wanted = options();
    wanted.sha256 = true;
    let (_, output) = convert(&app().build(), &wanted).unwrap();
    assert_eq!(output.len(), 512);
    assert_eq!(output[188..196], [128, 0, 36, 0, 3, 0, 0, 0]);
    assert_eq!(output[196..228], sha2::Sha256::digest(&output[..188])[..]);
    // 512 - 188 - 40 = 284
    assert_eq!(output[228..236], [128, 0, 24, 1, 0, 0, 0, 0]);
}

#[test]
fn signature_covers_all_before_the_footer() {
    let mut elf = app();
    elf.machine = EM_X86_64;
    let mut wanted = options();
    wanted.rsa4096_private_key = Some(unhex(KEY_4096));
    let (report, output) = convert(&elf.build(), &wanted).unwrap();
    assert_eq!(report.header.total_size as usize, 188 + 1032);
    assert_eq!(output[188..196], [128, 0, 4, 4, 2, 0, 0, 0]);
    let public = ring::signature::RsaPublicKeyComponents {
        n: output[196..708].to_vec(),
        e: vec![1, 0, 1],
    };
    public
        .verify(
            &ring::signature::RSA_PKCS1_2048_8192_SHA512,
            &output[..188],
            &output[708..],
        )
        .unwrap();
}

#[test]
fn other_keys_are_refused() {
    let mut wanted = options();
    wanted.rsa4096_private_key = Some(unhex(KEY_2048));
    assert_eq!(
        convert(&app().build(), &wanted).unwrap_err(),
        ConvertError::RsaKeyLength { bytes: 256 }
    );
    wanted.rsa4096_private_key = Some(b"no key".to_vec());
    assert_eq!(convert(&app().build(), &wanted).unwrap_err(), ConvertError::RsaKeyRejected);
}

#[test]
fn short_header_cannot_be_covered() {
    let mut wanted = options();
    wanted.sha256 = true;
    let mut output = vec![];
    let mut text = String::new();
    let failed = elf_to_tbf(
        &app().build(),
        &wanted,
        &vec![],
        |_: &HeaderPlan| HEADER,
        |_: &TbfHeader| vec![0; HEADER - 1],
        &mut output,
        &mut text,
    );
    assert_eq!(failed.unwrap_err(), ConvertError::HeaderTooShort);
}

#[test]
fn fixed_address_is_taken_from_segments() {
    let (report, output) = convert(&fixed_app(0x0003_0080).build(), &options()).unwrap();
    let plan = &report.header.plan;
    assert_eq!(plan.fixed_address_flash, Some(0x0003_0080));
    assert_eq!(plan.fixed_address_ram, Some(0x2000_4000));
    // The TBF starts on a boundary of 256 bytes.
    assert_eq!(report.header.protected_size, Some(0x80 - 48));
    assert_eq!(output[48..128], [0u8; 80]);
    assert_eq!(output[128..192], text_bytes()[..]);
    assert_eq!(report.header.init_fn_offset, Some(0x80 + 4 - 48));
    assert_eq!(report.header.writeable_flash_regions, vec![(0x80 + 0x50, 0x20)]);
}

#[test]
fn protected_region_has_room_for_the_header() {
    // The rest of the address after a multiple of 256 is 16.
    assert_eq!(
        convert(&fixed_app(0x0003_0010).build(), &options()).unwrap_err(),
        ConvertError::ProtectedRegionTooSmall { protected_region_size: 16, header_length: 48 }
    );
    let mut wanted = options();
    wanted.protected_region_size = Some(47);
    assert_eq!(
        convert(&app().build(), &wanted).unwrap_err(),
        ConvertError::ProtectedRegionTooSmall { protected_region_size: 47, header_length: 48 }
    );
    wanted.protected_region_size = Some(64);
    let (report, output) = convert(&app().build(), &wanted).unwrap();
    assert_eq!(report.header.protected_size, Some(16));
    assert_eq!(output[48..64], [0u8; 16]);
    assert_eq!(output[64..128], text_bytes()[..]);
}

#[test]
fn protected_region_symbol_comes_first() {
    let mut elf = app();
    let (symtab, strtab) = symbols(Some(0x8000_0000), None, Some(96));
    elf.replace(".symtab", symtab);
    elf.replace(".strtab", strtab);
    let (report, _) = convert(&elf.build(), &options()).unwrap();
    assert_eq!(report.header.protected_size, Some(48));
    assert!(report.notices.is_empty());
    let mut wanted = options();
    wanted.protected_region_size = Some(64);
    let (report, _) = convert(&elf.build(), &wanted).unwrap();
    assert_eq!(report.header.protected_size, Some(48));
    assert_eq!(report.notices, vec![Notice::ProtectedSizeOverridden(96)]);
}

#[test]
fn segment_before_flash_is_cut() {
    let mut elf = fixed_app(0x0003_0080);
    let (symtab, strtab) = symbols(Some(0x0003_00a0), None, None);
    elf.replace(".symtab", symtab);
    elf.replace(".strtab", strtab);
    elf.entry = 0x0003_00a8;
    let (report, output) = convert(&elf.build(), &options()).unwrap();
    assert_eq!(report.header.plan.fixed_address_flash, Some(0x0003_00a0));
    // 0xa0 bytes of protected region, then the code without its first 0x20.
    assert_eq!(output[0xa0..0xc0], text_bytes()[0x20..]);
    assert_eq!(output[0xc0..0xd0], got_bytes()[..]);
    assert_eq!(report.header.init_fn_offset, Some(0xa0 + 8 - 48));
    assert_eq!(report.header.writeable_flash_regions, vec![(0xa0 + 0x30, 0x20)]);
}

#[test]
fn segment_that_ends_before_flash_is_left_out() {
    let mut elf = fixed_app(0x0003_0080);
    let (symtab, strtab) = symbols(Some(0x0003_0080), None, None);
    elf.replace(".symtab", symtab);
    elf.replace(".strtab", strtab);
    elf.segments[1].paddr = 0x0002_0000;
    let (report, _) = convert(&elf.build(), &options()).unwrap();
    assert_eq!(report.header.binary_end_offset, 0x80 + 0x70 + 4 + 8);
}

#[test]
fn distances_between_segments_are_kept() {
    let mut elf = app();
    elf.segments[1].paddr = 0x8000_0070 + 0x30;
    let (report, output) = convert(&elf.build(), &options()).unwrap();
    assert_eq!(output[48 + 0x70..48 + 0xa0], [0u8; 0x30]);
    assert_eq!(output[48 + 0xa0..48 + 0xb0], [0x55u8; 0x10]);
    assert!(report.notices.is_empty());
    elf.segments[1].paddr = 0x8000_1070;
    let (report, output) = convert(&elf.build(), &options()).unwrap();
    assert_eq!(report.notices, vec![Notice::LargePadding]);
    assert_eq!(output[48 + 0x1070..48 + 0x1080], [0x55u8; 0x10]);
    assert_eq!(output.len(), 8192);
    elf.segments[1].paddr = 0x8000_0060;
    let (report, output) = convert(&elf.build(), &options()).unwrap();
    assert_eq!(report.notices, vec![Notice::OutOfOrder]);
    assert_eq!(output[48 + 0x70..48 + 0x80], [0x55u8; 0x10]);
}

#[test]
fn relocation_data_out_of_step_is_noticed() {
    let mut elf = app();
    elf.replace(".data", vec![0x55; 0x0f]);
    let (report, output) = convert(&elf.build(), &options()).unwrap();
    assert_eq!(report.notices, vec![Notice::UnalignedRelocationData(48 + 0x7f)]);
    assert_eq!(output[48 + 0x7f..48 + 0x83], [8, 0, 0, 0]);
}

#[test]
fn shared_library_has_its_relocations_listed() {
    let mut elf = app();
    elf.kind = ET_DYN;
    let (report, _) = convert(&elf.build(), &options()).unwrap();
    assert!(report.header.plan.is_shared_library);
    assert_eq!(report.dependencies, None);
    // One relocation, for each of the four sections in the segments.
    assert_eq!(report.notices, vec![Notice::RelocationType(2); 4]);
}

#[test]
fn two_entry_points_need_a_disabled_app() {
    let mut elf = app();
    elf.segments[1].paddr = 0x8000_0000;
    assert_eq!(
        convert(&elf.build(), &options()).unwrap_err(),
        ConvertError::DuplicateEntryPoint
    );
    let mut wanted = options();
    wanted.disabled = true;
    let (report, _) = convert(&elf.build(), &wanted).unwrap();
    assert_eq!(report.header.init_fn_offset, Some(4));
    assert_eq!(report.notices, vec![Notice::OutOfOrder, Notice::DuplicateEntryPoint]);
    elf.entry = 0x1000;
    let (report, _) = convert(&elf.build(), &wanted).unwrap();
    assert_eq!(report.header.init_fn_offset, None);
}

#[test]
fn sizes_of_stack_and_heaps_count() {
    let mut wanted = options();
    wanted.stack_len = Some(4001);
    let (report, _) = convert(&app().build(), &wanted).unwrap();
    assert_eq!(report.header.plan.minimum_ram_size, 0x10 + 4008 + 1024 + 1024);
    let mut elf = app();
    elf.remove(".stack");
    let (report, _) = convert(&elf.build(), &options()).unwrap();
    assert_eq!(report.header.plan.minimum_ram_size, 0x10 + 2048 + 1024 + 1024);
    wanted.app_heap_len = u32::MAX;
    assert_eq!(convert(&app().build(), &wanted).unwrap_err(), ConvertError::Overflow);
}

#[test]
fn broken_parts_are_refused() {
    let mut elf = app();
    elf.remove(".symtab");
    assert_eq!(convert(&elf.build(), &options()).unwrap_err(), ConvertError::NoSymbolTable);
    // A symbol before the one that is looked for has no name.
    let mut elf = app();
    let (strtab, at) = strings(&["ml_func"]);
    elf.replace(".symtab", symbol_table(&[(at[0], 0, 0x12), (0xffff, 0, 0)]));
    elf.replace(".strtab", strtab);
    assert_eq!(convert(&elf.build(), &options()).unwrap_err(), ConvertError::SymbolName);
    // A relocation with a symbol that there is not.
    let mut elf = app();
    let mut rel = Vec::new();
    put32(&mut rel, 0x8000_0010);
    put32(&mut rel, (99 << 8) | 2);
    elf.replace(".rel.text", rel);
    assert_eq!(convert(&elf.build(), &options()).unwrap_err(), ConvertError::SymbolIndex);
    // Relocations past the end of the file, and before the code.
    for (offset, error) in
        [(0x8001_0000, ConvertError::RelocationTarget), (0x10, ConvertError::Overflow)]
    {
        let mut rel = Vec::new();
        put32(&mut rel, offset);
        put32(&mut rel, (1 << 8) | 2);
        elf.replace(".rel.text", rel);
        assert_eq!(convert(&elf.build(), &options()).unwrap_err(), error);
    }
    // No section of that name for the code.
    let mut elf = app();
    elf.sections[0].name = ".code";
    elf.segments[0].first = ".code";
    assert_eq!(convert(&elf.build(), &options()).unwrap_err(), ConvertError::NoText);
    // No program headers.
    let mut file = app().build();
    file[28..32].copy_from_slice(&[0, 0, 0, 0]);
    assert_eq!(convert(&file, &options()).unwrap_err(), ConvertError::NoProgramHeaders);
    // Contents past the end of the file.
    let mut file = app().build();
    file[52 + 4..52 + 8].copy_from_slice(&[0, 0, 0xff, 0]);
    assert_eq!(convert(&file, &options()).unwrap_err(), ConvertError::SegmentData);
    // A string table for the needed libraries past the end of the file.
    let mut elf = app();
    let mut dynamic = Vec::new();
    put32(&mut dynamic, 5);
    put32(&mut dynamic, 0x80f0_0000);
    elf.replace(".dynamic", dynamic);
    assert_eq!(convert(&elf.build(), &options()).unwrap_err(), ConvertError::DynamicStringTable);
}

const KEY_4096: &str = "\
    30820943020100300d06092a864886f70d01010105000482092d308209290201000282020100d4bfe782fa2e5e\
    7615b2c8af1d8677cfcaac8cd6aba762c381d5ef72ed70651a038f10078c4dec9693516c000c8d31172d27c4bd\
    3277f1c6ebd7c741464dc707a88c12273a16dff77d1d36155ebf0c4987e962a22d9d1d6bcc3322389230302470\
    ed379674cadc98e75ee41cb3804164fb269521860e43a3af33a1e9385121396bdc824119faf2bdb7c946a8cfb3\
    c2e9e476e7172c569503cde2e40d607c972254c6b74930186b00b2a882de52298a15b116a67daa2db7a87f4c7f\
    4edcf17c7fada0b47aab2530838ade445c3fa87bee298e8dedb983919665ea4f2e99beb4e699a998aac67a67c2\
    a07d36895a06d43a005ac09e990066aa753b19627e69dc30831150c7017783e66e4f0c3564e7d5f91ba2499b7b\
    1c870d3db4f3e77131ff5236f89edfe489c0bb09162ae771aa1f933d0e2f93e4de014e778bd1134e5e6ecab11e\
    ed871b6f3961c01b10cbf6f8cb38488df0192b15f837df48c1a6d18f202f9fbb94ddf89e7975eb2a0ae101f0b0\
    63a3dfe15e999436d69394397805ddfe9ffce66d490428c8af79e613a7ff5d10a3b7992e2ed20d5163777b7969\
    043b558d1f49ef22a164287809aba0f60cf85e68425599499930dfdfb688fa369cc5133a5b36f936590a4b7017\
    9d6c49b857669ec4e867664af9b5d95a7cb51fdf884319ed93ec9471d37fccadad54f0b2dd03d98a05776ffd0e\
    c5afd4a561984c2f89a902030100010282020002b9a896096d61a1629ac52e5512fd62e8863851a1a645c21a5e\
    2ab08eb11362776c3438dc87bd019ac67ebb2b6dfd947dec15fd94716be3efee762b746297ab95f1a163e63f17\
    c45c526cf86e1bc56505bc2c1ac6b9ce002cfff4aec3d4a1313e4f1398b64b48f31e779d356ee9342d3e785a8d\
    b0e16ae5645fa571ceda5f32149b2102037aaef4562fda5b5c39c1c3ec3cc7ae08cfdd1dccdbdcaefd2eeb62b1\
    b24ff3bc8d7b8569447654b1b9bd7e94a3a52353f43cf78815eb458fd7fa0fcaa215ddc2667a0e1d4fc69165f1\
    5b110c703a8a3287a86c4446f197b7b97528c50c229c0169dcfd65bfe4dc728e46d6ad5d7c3d2bd990f71b0454\
    496a3421f16927b27af9be91b9737810b813761f4a4e8ac4db16a435e74dcb2ed8cf174909ba9af165a387b69f\
    0872c2088c261396639583398fea8f2240689f714396a4586e58afb0905b2797da4ccdd6b618d1b9481be21bc3\
    0b5321f6b7535f3526bad5d7ec87d1d3bc261d0b37be6cc91cd6538df035783e0099876ef49f2ae010350a4094\
    3c35e75342e92dcb9810540513d0d6e9ad59da8cf7e297f0c66e72dcee9ec6535f9da31cb122801f549694f340\
    8f43079b3d48f82ac787d0faf65ccbc2b23d6b462273b292b4817440d415fca4da5ea4c9f148e5f36e5d731176\
    06759813f1d75031ea04a83c1e7d3c2ced28a3e797a671df6468dda33fc7debb81bca5810282010100f5e49172\
    5c1c24b8007fde225ae93f45ebe1ea81a230fd3dde12d33a3094dd1cd911ce81e996e10e81e016e61a3baeb9f5\
    df872faf253c8b80c4baf8457bdd2e8fcca6e0fa305d5a9ae14ee5f20bc2b7fbf2be9e23a7e0ec9b35a609dfab\
    f8834560fcab8487614bfd3043e8db5b6f864624e81055b3f6e3d0a316f856fcb8f06504b1564074a24d83ef75\
    79ff99040deb0447acd300a5c9ef721360b4bd27be83f463d87e207850f757ccacb5334c03adb53b4581f6edc4\
    edef89b15614bccff69fcbbb3c8a029792334a57da17d77729d878523f3545e0015fe78d61d3c904cef2cb6f50\
    efa0e8ec6d5d57375fd6f00cd799e3a107ce70bfde96cecb9124090282010100dd7e955926caaf871bc6477e7a\
    003069bf0d3f9532a27d9ba022022f546808bdc9096ca02cda208d401219b4bec4f90439084b0e5343a7b27bec\
    7cc0ea1d4a6221e53f680f56f72a662178dc20d1a499f72bf9a1b5d4cd8fec9ebebf657ade4fe043312b6c524c\
    b5300f8983a69f2ec0ecf935da1718f5af38a21decef59b17eeb22994b7df94cd2e124dc1b5f3dec9768190350\
    c7258af3b201a95b515be0beeb2f239b07df224b961d5526df5e2683cf5e43d2ee60e710ff07496220fda4a229\
    946ab4a4f4a6707ca50d9009a1f3c828d0059f2612b5198e58725d9b8d95d20e8a8d7baadaf33c93db97302ccb\
    11b37f4d6b8c940ee14164a2a6fe6b60e0a10282010100961617791823cd7dca404213f22da0834b412fe4445d\
    669596b122e0c7ba75642052b01bb7ba72506a919f288026a1b5bc0fddf20b13cd6ad10443a33ab62a013ba08c\
    d391a267b8e0045a261ca1750edbe804d57daa00ae2ae68a1c48bc2d09e31519e48f161b1b48c5670e00a644e2\
    4e7a447383fc3edc3b02f10850001dda0daed9976dec430cd1551dfd8337a0b3e6194cae7e744cbd7f3bbffc2d\
    15afe6a7a04a396072ed3d6e5bd7002bf1cd9a09332fa473798713c6af88fa0732cd349ab25aa6448370a59785\
    5b01588b68e6c151f1cf31e99066f42fd7a4026c44ac7cacd1e376216db3fe6b9aa79b93121c9f9a11c2510df4\
    c1f93b220dc34f2a110282010003df84c90c4e9b0727cb2dd0de5d467b72e5ce68d37bd7ea72c0657d62627754\
    aa4149eefb19cd5beaf4e6122d0bd0b6ec3062ef9b3121ab93532d534a44bcda3e717dcc5a08514622870f4ffa\
    1af05fe8dc91feebe90eb72792170fcdbc7a4ab7473582e6e0018b618dc3ffd358113f3a6599357915eca5e5bd\
    9ffc56ab20d9714f2793145ed9a30e60d0a081e7d94d447abb7e1c1d61f2a4f83677ec5248f9cdaf035660aadc\
    34aa295525dade109a5973f287abb77212f002b69bcaabe4c71927093ea36bcbc547c8b31603b51b4832be807a\
    a9f5c5c8ee9e4951adb8aa18043d1400479a908a4ca3985f35494fc3edc3f2cf807f4a1d149f6b80236c8c4102\
    82010100c97afd39cdc00a06fc3fd2ff26efb70c3a0a1e05b82963fd8d3354037fb9c298f7613d54169bcd46bd\
    dd75b5198ff024cd9ac6bc7b2aec4a798b4925933518346b46dce5c3b747eec176ca8739e973109314230d5cce\
    aefe5a8ff88519d59af039f56b936f0242c306c88091f579b820295aa8317f650eedd85dc31199ee7d51605aec\
    677bfa647694edb6ef12aa3f96b804a150c138aa144debf2a79b27bf805445a27a8ee044553e4277854e83588d\
    92dc54a96bbc52d4e62fdde2ae6df405683d380509ed4a4a109f25e0f260e039b21756419186e60de970aa21a4\
    35ee296cab029108611f81c732e3cd3809d48c072079df0e03a2949470588a8265dcc4";

const KEY_2048: &str = "\
    308204bd020100300d06092a864886f70d0101010500048204a7308204a30201000282010100bb26400efde6e9\
    47782ba7f5f20b2dcbfe6a355ce1b5f225b0fcf6369781ffcd0e27acac003d34341f798f169ea6f33d3d156aba\
    88cbf369b0a378133c23e4741a4744de88579dccb33c0b2667dd64a28824f914baa04f628053cae872d89a373c\
    3158dd8c25372a577e1d20fdd566d54ff05c057cc38042635872c6b0806293f2ed8afcd148e272609919be22d3\
    e940a1d089df0851f128de32f06d61b869bec06dc83359ac1eb9a3a5c8db5c01aa802e5c3f96406a533c9837d1\
    a81b549532cea8534f3baf5233af9f1cde195d8a4bd8a48226fc177ac46987a034658df854d798694347272ca8\
    3d5cd7b351a9b7001efe3b3390e1d262bc5839332999eaed0203010001028201001dff0a3eece6bd26b9a5e3a8\
    a9c82d69b8283d4fdb148ed0883eef56be2f75b8dfe72f87ad0d22482570562525be3417f169b49edbccb6c1ce\
    b050cf62710d4da7a59b2e00d3ec44b248b22fd06f7d910879c69b92331e2e374bd6e6ad7bb6b21a397d991afc\
    9f0c301454666490f707c3258f1649124bc53847a5b3df77e074b88346657d6ce00ecfeefc1a4fbfeebbf9e904\
    588cb4922d2bb066e54689e3faf5290950a9f0817cf1ea26cc108fe0b0ca61efd27b25419b8516490725f9f0bb\
    c3ef3c4279c8e47bab9904f87716694815bd00006384894921b084937ef81ea5226ce4d6d474cc8e1d21b8163f\
    5f2e4da6f32d589766985d4e2eaaaab20c39b102818100e251be8c2110d5893f8e2df7406da8816b0f4c495ab9\
    4f28107a6872d99a48fbd48f803b51c0d0d96144c509181cec19acece21a0b56fc255d2af83e717297fb824def\
    4f99bda280feec33f232d4ec70919c7d41fc4f5695b511f1421c03821323af56cd05cdc4ad80094c2de69c4bec\
    db85c6778bacb3fce46447f2b048145d02818100d3b172cbffbd2f1ad588a68b29181094670d6b18979ddd0178\
    9293c519861388179bc2c6a7ae002099f122609ec33585ae37aa89504c6172a451dbfabb7eabfcfe0f9a6b8f12\
    67713a3ea23bc80c667f6a8ff2f8e8ec6db7d5e6376c97abf82aa87f7be90163e8eab47597990cd2c6f3c51ac1\
    0ee361c8d3c7c88a8983d1c7d102818040cc3ece483955aa3234371cefa975f17801ad49e35be33a095dc2c1ff\
    639939e1262504d6e769e49360e9392d5a3a8f2f5fb36cd98a522f3079b911c7d1938a4348a51819609e4268ba\
    a034dc30f271587f81ad7edc08625cb1826df72f59f2b8e8dee55ca0098bd378d602de6029aceb3d66119c401a\
    5871dbf46d9be347510281807c1a070678c25b9f0b97b4aad848774fc8aa2122a59fb2346e8edf7a28e0650adf\
    6c3cdf60e5acc56ff9e1016b915d0b257b14cab2fc541475285821c1511d5a8f466e6ca7cf4e3d1ebc213792ab\
    525b5809539380593a690f488b2d6a2d32ab2f64ad2b87d91e6e99a4665f1f1961f0fe98149db9c755887212aa\
    c4bb367c41028181009971400e97ad60de3036017270def1e69ae0e63e899c029dab0457971395f7a96c7e9413\
    47f3b84f255e8af99083f7234705b165f47893cff68cbe917bccbc16ef21867d312b0d30979d4c3f2139b020ce\
    054f56fa9356fa5519e51c5abf4e61fc422ddd7fc8f2a2db85d573f64e0af0f82d2c15b2083b27ee8f1c7df284\
    462f";
