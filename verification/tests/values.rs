use elf2tab::convert::{convert_object, make_header, TbfHeader};
use elf2tab::error::ConvertError;
use elf2tab::footer::{
    append_credential, append_rsa_credential, compute_footer_reserve, compute_sizes,
    compute_trailing_padding, write_tbf, Sizes, TbfFooterCredentialsType,
};
use elf2tab::layout::{find_protected_notice, lay_out, Layout, Notice};
use elf2tab::object::{
    DynamicEntry, ElfObject, FileHeader, ProgramHeader, Rel, Section, SectionHeader,
    SharedLibrary, Symbol,
};
use elf2tab::plan::{make_plan, needed_by_segments, ConvertOptions, HeaderPlan, Plan};
use elf2tab::relocs::{get_fn_relocs, output_relocation_file, AppFuncReloc};
use elf2tab::section::{section_exists_in_segment, section_in_segment};
use elf2tab::symbols::{find_fn_in_shlib, find_section, find_symbol, get_shared_library_deps};
use elf2tab::text::{append_hex, contains, name_is};
use elf2tab::util::{
    align_down, align_to, amount_alignment_needed, append_bytes, append_u16, append_u32, do_pad,
    low16_of, low32_of, read_u32,
};

const PT_LOAD: u32 = 1;
const PT_TLS: u32 = 7;
const PT_NOTE: u32 = 4;
const PT_GNU_RELRO: u32 = 0x6474_e552;
const SHF_WRITE: u64 = 1;
const SHF_ALLOC: u64 = 2;
const SHF_TLS: u64 = 0x400;
const SHT_PROGBITS: u32 = 1;
const SHT_NOBITS: u32 = 8;
const EM_386: u16 = 3;
const EM_ARM: u16 = 40;
const EM_X86_64: u16 = 62;
const EM_RISCV: u16 = 243;

fn section_header(flags: u64, addr: u64, offset: u64, size: u64) -> SectionHeader {
    SectionHeader {
        sh_name: 0,
        sh_type: SHT_PROGBITS,
        sh_flags: flags,
        sh_addr: addr,
        sh_offset: offset,
        sh_size: size,
        sh_link: 0,
        sh_info: 0,
        sh_addralign: 4,
        sh_entsize: 0,
    }
}

fn section(name: &str, header: SectionHeader) -> Section {
    Section { name: name.to_string(), header, data: None, rels: None }
}

fn segment(vaddr: u64, paddr: u64, offset: u64, size: u64, flags: u32) -> ProgramHeader {
    ProgramHeader {
        p_type: PT_LOAD,
        p_offset: offset,
        p_vaddr: vaddr,
        p_paddr: paddr,
        p_filesz: size,
        p_memsz: size,
        p_flags: flags,
    }
}

fn symbol(name: &str, value: u64) -> Symbol {
    Symbol { name: Some(name.to_string()), st_type: 2, st_bind: 1, st_value: value }
}

fn object(sections: Vec<Section>, segments: Vec<ProgramHeader>, symbols: Vec<Symbol>) -> ElfObject {
    ElfObject {
        header: FileHeader { e_type: 2, e_machine: EM_ARM, e_entry: 0x1004 },
        sections,
        segments: Some(segments),
        symbols: Some(symbols),
        dynamic_symbols: None,
        dynamic: None,
    }
}

fn options() -> ConvertOptions {
    ConvertOptions {
        package_name: "app".to_string(),
        stack_len: Some(100),
        app_heap_len: 10,
        kernel_heap_len: 20,
        protected_region_size: None,
        disabled: false,
        minimum_footer_size: 0,
        sha256: false,
        sha384: false,
        sha512: false,
        rsa4096_private_key: None,
    }
}

fn plan(flash: Option<u32>) -> Plan {
    Plan {
        header: HeaderPlan {
            minimum_ram_size: 0,
            writeable_flash_regions_count: 0,
            fixed_address_ram: None,
            fixed_address_flash: flash,
            is_shared_library: false,
        },
        pic: flash.is_none(),
    }
}

fn layout(end: usize, relocation_data: Vec<u8>) -> Layout {
    Layout {
        protected: 16,
        binary: vec![],
        segments: vec![],
        positions: vec![],
        end,
        init_fn_offset: None,
        regions: vec![],
        relocation_data,
        got: None,
        notices: vec![],
    }
}

#[test]
fn constants_are_those_of_the_elf_crate() {
    assert_eq!(elf2tab::abi::ET_DYN, elf::abi::ET_DYN);
    assert_eq!(elf2tab::abi::EM_386, elf::abi::EM_386);
    assert_eq!(elf2tab::abi::EM_ARM, elf::abi::EM_ARM);
    assert_eq!(elf2tab::abi::EM_RISCV, elf::abi::EM_RISCV);
    assert_eq!(elf2tab::abi::PT_LOAD, elf::abi::PT_LOAD);
    assert_eq!(elf2tab::abi::PT_DYNAMIC, elf::abi::PT_DYNAMIC);
    assert_eq!(elf2tab::abi::PT_TLS, elf::abi::PT_TLS);
    assert_eq!(elf2tab::abi::PT_GNU_EH_FRAME, elf::abi::PT_GNU_EH_FRAME);
    assert_eq!(elf2tab::abi::PT_GNU_STACK, elf::abi::PT_GNU_STACK);
    assert_eq!(elf2tab::abi::PT_GNU_RELRO, elf::abi::PT_GNU_RELRO);
    assert_eq!(elf2tab::abi::PF_X, elf::abi::PF_X);
    assert_eq!(elf2tab::abi::PF_W, elf::abi::PF_W);
    assert_eq!(elf2tab::abi::SHT_NOBITS, elf::abi::SHT_NOBITS);
    assert_eq!(elf2tab::abi::SHF_WRITE, elf::abi::SHF_WRITE);
    assert_eq!(elf2tab::abi::SHF_ALLOC, elf::abi::SHF_ALLOC);
    assert_eq!(elf2tab::abi::SHF_TLS, elf::abi::SHF_TLS);
    assert_eq!(elf2tab::abi::SHF_COMPRESSED, elf::abi::SHF_COMPRESSED as u64);
    assert_eq!(elf2tab::abi::STT_FUNC, elf::abi::STT_FUNC);
    assert_eq!(elf2tab::abi::STB_GLOBAL, elf::abi::STB_GLOBAL);
    assert_eq!(elf2tab::abi::DT_NEEDED, elf::abi::DT_NEEDED);
    assert_eq!(elf2tab::abi::DT_STRTAB, elf::abi::DT_STRTAB);
}

#[test]
fn alignment_rounds_up() {
    assert_eq!(align_to(0, 8), Some(0));
    assert_eq!(align_to(13, 8), Some(16));
    assert_eq!(align_to(16, 8), Some(16));
    assert_eq!(align_to(u32::MAX - 3, 4), Some(u32::MAX - 3));
    assert_eq!(align_to(u32::MAX - 2, 4), None);
    assert_eq!(amount_alignment_needed(13, 4), 3);
    assert_eq!(amount_alignment_needed(12, 4), 0);
}

#[test]
fn alignment_rounds_down() {
    assert_eq!(align_down(0x0003_0080, 256), 0x0003_0000);
    assert_eq!(align_down(0x0003_0000, 256), 0x0003_0000);
    assert_eq!(align_down(255, 256), 0);
}

#[test]
fn numbers_are_written_lowest_byte_first() {
    let mut bytes = vec![9];
    append_u16(&mut bytes, 0x1234);
    append_u32(&mut bytes, 0x89ab_cdef);
    assert_eq!(bytes, vec![9, 0x34, 0x12, 0xef, 0xcd, 0xab, 0x89]);
    assert_eq!(read_u32(&bytes, 3), 0x89ab_cdef);
    do_pad(&mut bytes, 2);
    append_bytes(&mut bytes, &[5, 6]);
    assert_eq!(bytes[7..], [0, 0, 5, 6]);
    assert_eq!(low32_of(0x1_2345_6789), 0x2345_6789);
    assert_eq!(low16_of(0x1_2345), 0x2345);
}

#[test]
fn names_are_compared() {
    assert!(name_is(&".got".to_string(), ".got"));
    assert!(!name_is(&".got".to_string(), ".got.plt"));
    assert!(contains(".app.wfr.store", ".wfr"));
    assert!(contains(".wfr", ".wfr"));
    assert!(contains("ende.wfr", ".wfr"));
    assert!(!contains(".wf", ".wfr"));
    assert!(!contains("wfr.wf.r", ".wfr"));
    assert!(contains("\u{e4}.wfr", ".wfr"));
    assert!(contains("x", ""));
}

#[test]
fn hexadecimal_has_no_leading_zeros() {
    for value in [0, 9, 10, 15, 16, 255, 256, 0xdead_beef, u32::MAX] {
        let mut text = "0x".to_string();
        append_hex(&mut text, value);
        assert_eq!(text, format!("0x{:x}", value));
    }
}

#[test]
fn sections_are_in_segments_that_contain_them() {
    let whole = segment(0x1000, 0x1000, 0x100, 0x40, 5);
    assert!(section_in_segment(&section_header(SHF_ALLOC, 0x1000, 0x100, 0x40), &whole));
    assert!(section_in_segment(&section_header(SHF_ALLOC, 0x1010, 0x110, 0x30), &whole));
    assert!(!section_in_segment(&section_header(SHF_ALLOC, 0x1010, 0x110, 0x31), &whole));
    assert!(!section_in_segment(&section_header(SHF_ALLOC, 0xff0, 0x100, 0x10), &whole));
    // Outside the part of the file, although inside the memory.
    assert!(!section_in_segment(&section_header(SHF_ALLOC, 0x1000, 0xff, 0x10), &whole));
    let mut nobits = section_header(SHF_ALLOC, 0x1000, 0xffff, 0x10);
    nobits.sh_type = SHT_NOBITS;
    assert!(section_in_segment(&nobits, &whole));
    // Without memory.
    assert!(!section_in_segment(&section_header(0, 0x1000, 0x100, 0x10), &whole));
    let mut note = whole;
    note.p_type = PT_NOTE;
    assert!(section_in_segment(&section_header(0, 0x9000, 0x100, 0x10), &note));
    // Sums that do not fit in 64 bits.
    assert!(!section_in_segment(&section_header(SHF_ALLOC, 0x1001, 0x100, u64::MAX), &whole));
}

#[test]
fn empty_sections_are_not_at_the_end_of_a_segment() {
    let whole = segment(0x1000, 0x1000, 0x100, 0x40, 5);
    assert!(section_in_segment(&section_header(SHF_ALLOC, 0x103f, 0x13f, 0), &whole));
    assert!(!section_in_segment(&section_header(SHF_ALLOC, 0x1040, 0x140, 0), &whole));
    // But they are in a segment that is empty too.
    let empty = segment(0x1000, 0x1000, 0x100, 0, 5);
    assert!(section_in_segment(&section_header(SHF_ALLOC, 0x1000, 0x100, 0), &empty));
    assert!(!section_in_segment(&section_header(SHF_ALLOC, 0x1000, 0x100, 1), &empty));
}

#[test]
fn thread_local_storage_is_where_it_may_be() {
    let tls = section_header(SHF_ALLOC | SHF_TLS, 0x1000, 0x100, 0x10);
    let plain = section_header(SHF_ALLOC, 0x1000, 0x100, 0x10);
    let mut whole = segment(0x1000, 0x1000, 0x100, 0x40, 5);
    assert!(section_in_segment(&tls, &whole));
    for kind in [PT_TLS, PT_GNU_RELRO] {
        whole.p_type = kind;
        assert!(section_in_segment(&tls, &whole));
        assert!(!section_in_segment(&plain, &whole));
    }
    whole.p_type = PT_NOTE;
    assert!(!section_in_segment(&tls, &whole));
    assert!(section_in_segment(&plain, &whole));
}

#[test]
fn only_sections_with_a_size_count() {
    let whole = segment(0x1000, 0x1000, 0x100, 0x40, 5);
    let empty = section(".empty", section_header(SHF_ALLOC, 0x1000, 0x100, 0));
    let other = section(".other", section_header(SHF_ALLOC, 0x2000, 0x100, 8));
    let inside = section(".inside", section_header(SHF_ALLOC, 0x1000, 0x100, 8));
    assert!(!section_exists_in_segment(&vec![], &whole));
    assert!(!section_exists_in_segment(&vec![empty, other], &whole));
    let empty = section(".empty", section_header(SHF_ALLOC, 0x1000, 0x100, 0));
    assert!(section_exists_in_segment(&vec![empty, inside], &whole));
}

#[test]
fn first_section_of_a_name_is_found() {
    let header = section_header(0, 0, 0, 0);
    let sections = vec![section(".a", header), section(".b", header), section(".b", header)];
    assert_eq!(find_section(&sections, ".b"), Some(1));
    assert_eq!(find_section(&sections, ".c"), None);
}

#[test]
fn first_symbol_of_a_name_is_found() {
    let symbols = Some(vec![
        symbol("a", 1),
        symbol("b", 0x1_0000_0002),
        symbol("b", 3),
        Symbol { name: None, st_type: 0, st_bind: 0, st_value: 0 },
        symbol("c", 4),
    ]);
    assert_eq!(find_symbol(&symbols, "a"), Ok(Some(1)));
    assert_eq!(find_symbol(&symbols, "b"), Ok(Some(2)));
    // A symbol without a name comes before.
    assert_eq!(find_symbol(&symbols, "c"), Err(ConvertError::SymbolName));
    assert_eq!(find_symbol(&None, "a"), Ok(None));
    let library = SharedLibrary { name: "lib".to_string(), symbols: Some(vec![symbol("f", 7)]) };
    assert_eq!(find_fn_in_shlib(&library, &"f".to_string()), Ok(Some(7)));
    assert_eq!(find_fn_in_shlib(&library, &"g".to_string()), Ok(None));
}

#[test]
fn only_function_symbols_are_functions() {
    let data = |name: &str, value: u64| Symbol { st_type: 1, ..symbol(name, value) };
    let library = |symbols: Vec<Symbol>| SharedLibrary {
        name: "lib".to_string(),
        symbols: Some(symbols),
    };
    let unnamed = || Symbol { name: None, st_type: 0, st_bind: 0, st_value: 0 };
    let f = "f".to_string();
    assert_eq!(find_fn_in_shlib(&library(vec![data("f", 17)]), &f), Ok(None));
    let both = library(vec![data("f", 17), symbol("f", 18), symbol("f", 19), unnamed()]);
    assert_eq!(find_fn_in_shlib(&both, &f), Ok(Some(18)));
    let broken = library(vec![data("f", 17), unnamed(), symbol("f", 18)]);
    assert_eq!(find_fn_in_shlib(&broken, &f), Err(ConvertError::SymbolName));
    let without = SharedLibrary { name: "lib".to_string(), symbols: None };
    assert_eq!(find_fn_in_shlib(&without, &f), Ok(None));
    // Any symbol counts where no function is asked for.
    assert_eq!(find_symbol(&Some(vec![data("f", 17)]), "f"), Ok(Some(17)));
}

#[test]
fn repeated_function_has_one_table() {
    let libraries = vec![SharedLibrary {
        name: "lib".to_string(),
        symbols: Some(vec![symbol("a", 1), symbol("b", 2)]),
    }];
    let reloc = |name: &str, addr: u32| AppFuncReloc {
        fn_name: name.to_string(),
        app_got_addr: addr,
    };
    let relocs = vec![reloc("a", 0x10), reloc("b", 0x20), reloc("a", 0x30), reloc("b", 0x20)];
    let mut text = String::new();
    output_relocation_file(&libraries, &relocs, &"app".to_string(), &mut text).unwrap();
    assert_eq!(
        text,
        "[a]\napp_name = \"app\"\napp_got_addr = 0x10\nlib_name = \"lib\"\nlib_func_offset = 0x1\n\
         [b]\napp_name = \"app\"\napp_got_addr = 0x20\nlib_name = \"lib\"\nlib_func_offset = 0x2\n"
    );
}

#[test]
fn needed_libraries_are_listed() {
    let mut file = vec![0u8; 0x1000];
    file.extend_from_slice(b"\0liba.so\0libb.so\0\xff\0tail");
    let entry = |d_tag: i64, d_val: u64| DynamicEntry { d_tag, d_val };
    let names = |list: Vec<DynamicEntry>| get_shared_library_deps(&Some(list), &file);
    assert_eq!(
        names(vec![entry(1, 9), entry(5, 0x8000_0000), entry(1, 1)]),
        Ok(Some(vec!["libb.so".to_string(), "liba.so".to_string()]))
    );
    // Names that are not UTF-8, have no end or start outside are left out.
    assert_eq!(
        names(vec![entry(1, 17), entry(1, 19), entry(1, 999), entry(5, 0), entry(1, 5)]),
        Ok(Some(vec![".so".to_string()]))
    );
    // The last string table counts.
    assert_eq!(
        names(vec![entry(5, 0x8fff_0000), entry(5, 0x8000_0000)]),
        Ok(Some(vec![]))
    );
    assert_eq!(names(vec![entry(5, 0x80ff_0000)]), Err(ConvertError::DynamicStringTable));
    assert_eq!(names(vec![entry(1, 1)]), Ok(None));
    assert_eq!(get_shared_library_deps(&None, &file), Ok(None));
}

#[test]
fn relocations_lead_to_the_offset_table() {
    let mut file = vec![0u8; 64];
    file[20..24].copy_from_slice(&0x18u32.to_le_bytes());
    let mut text = section(".text", section_header(SHF_ALLOC, 0x1000, 16, 32));
    text.data = Some(vec![0; 32]);
    let mut rels = section(".rel.text", section_header(0, 0, 0, 16));
    rels.rels = Some(vec![
        Rel { r_offset: 0x1000, r_sym: 1, r_type: 0 },
        Rel { r_offset: 0x1004, r_sym: 0, r_type: 0 },
    ]);
    let got = section(".got", section_header(SHF_ALLOC, 0x1020, 48, 16));
    let mut app = object(vec![text, rels, got], vec![], vec![symbol("f", 0), symbol("local", 0)]);
    // A function that is there twice counts twice, and others do not count.
    app.dynamic_symbols = Some(vec![
        symbol("f", 0),
        symbol("g", 0),
        symbol("f", 0),
        Symbol { name: None, st_type: 1, st_bind: 1, st_value: 0 },
        Symbol { name: Some("local".to_string()), st_type: 2, st_bind: 0, st_value: 0 },
    ]);
    let relocs = get_fn_relocs(&app, &file, 0x100).unwrap();
    assert_eq!(relocs.len(), 2);
    for reloc in &relocs {
        assert_eq!(reloc.fn_name, "f");
        assert_eq!(reloc.app_got_addr, 0x118);
    }
    assert_eq!(get_fn_relocs(&app, &file, 0xffff_ffff).unwrap_err(), ConvertError::Overflow);
    app.sections[2].name = ".other".to_string();
    assert_eq!(
        get_fn_relocs(&app, &file, 0x100).unwrap_err(),
        ConvertError::NoGlobalOffsetTable
    );
    app.sections[0].data = None;
    assert_eq!(get_fn_relocs(&app, &file, 0x100).unwrap_err(), ConvertError::NoText);
    app.dynamic_symbols = None;
    assert_eq!(get_fn_relocs(&app, &file, 0x100).unwrap().len(), 0);
    app.dynamic_symbols = Some(vec![Symbol { name: None, st_type: 2, st_bind: 1, st_value: 0 }]);
    assert_eq!(get_fn_relocs(&app, &file, 0x100).unwrap_err(), ConvertError::SymbolName);
}

#[test]
fn relocation_tables_are_in_the_order_of_the_relocations() {
    let library = |name: &str, symbols: Vec<Symbol>| SharedLibrary {
        name: name.to_string(),
        symbols: Some(symbols),
    };
    let libraries = vec![library("one", vec![symbol("b", 0)]), library("two", vec![symbol("a", 0xfe)])];
    let reloc = |name: &str, addr: u32| AppFuncReloc {
        fn_name: name.to_string(),
        app_got_addr: addr,
    };
    let relocs = vec![reloc("a", 0x10), reloc("missing", 0x20), reloc("b", 0x30)];
    let mut text = String::new();
    output_relocation_file(&libraries, &relocs, &"app".to_string(), &mut text).unwrap();
    assert_eq!(
        text,
        "[a]\napp_name = \"app\"\napp_got_addr = 0x10\nlib_name = \"two\"\nlib_func_offset = 0xfe\n\
         [b]\napp_name = \"app\"\napp_got_addr = 0x30\nlib_name = \"one\"\nlib_func_offset = 0x0\n"
    );
    let broken = Symbol { name: None, st_type: 0, st_bind: 0, st_value: 0 };
    let libraries = vec![library("broken", vec![broken])];
    let mut text = "kept".to_string();
    assert_eq!(
        output_relocation_file(&libraries, &relocs, &"app".to_string(), &mut text),
        Err(ConvertError::SymbolName)
    );
    assert_eq!(text, "kept");
}

#[test]
fn lowest_code_segment_is_the_fixed_address() {
    let sections = || {
        vec![
            section(".a", section_header(SHF_ALLOC, 0x5000, 0x100, 0x10)),
            section(".b.wfr", section_header(SHF_ALLOC, 0x4000, 0x200, 0x10)),
        ]
    };
    let code = vec![
        segment(0x5000, 0x5000, 0x100, 0x10, 5),
        segment(0x4000, 0x4000, 0x200, 0x10, 5),
        // No section is in this one.
        segment(0x1000, 0x1000, 0x300, 0x10, 5),
        // In RAM.
        segment(0x2000_0000, 0x6000, 0x400, 0x33, 6),
    ];
    assert_eq!(needed_by_segments(&code), Some(0x33));
    let made = make_plan(&object(sections(), code.clone(), vec![]), &options()).unwrap();
    assert!(!made.pic);
    assert_eq!(made.header.fixed_address_flash, Some(0x4000));
    assert_eq!(made.header.fixed_address_ram, None);
    assert_eq!(made.header.writeable_flash_regions_count, 1);
    assert_eq!(made.header.minimum_ram_size, 0x33 + 104 + 12 + 20);
    // The symbols come first.
    let symbols = vec![symbol("_flash_origin", 0x3000), symbol("_sram_origin", 0x2000_0000)];
    let made = make_plan(&object(sections(), code.clone(), symbols), &options()).unwrap();
    assert_eq!(made.header.fixed_address_flash, Some(0x3000));
    assert_eq!(made.header.fixed_address_ram, Some(0x2000_0000));
    let mut without = object(sections(), code, vec![]);
    without.segments = None;
    assert_eq!(make_plan(&without, &options()).unwrap_err(), ConvertError::NoProgramHeaders);
}

#[test]
fn code_at_the_pic_address_can_be_anywhere() {
    let sections = vec![
        section(".a", section_header(SHF_ALLOC, 0x8000_0000, 0x100, 0x10)),
        section(".b", section_header(SHF_ALLOC, 0x4000, 0x200, 0x10)),
    ];
    let code = vec![
        segment(0x4000, 0x4000, 0x200, 0x10, 5),
        segment(0x8000_0000, 0x8000_0000, 0x100, 0x10, 5),
    ];
    let made = make_plan(&object(sections, code, vec![]), &options()).unwrap();
    assert!(made.pic);
    assert_eq!(made.header.fixed_address_flash, None);
}

#[test]
fn segments_are_cut_at_the_start_of_flash() {
    let file: Vec<u8> = (0..64).collect();
    let segments = vec![
        // Ends before flash, ends at its start, is cut, and is whole.
        segment(0x0e00, 0x0e00, 0, 0x10, 5),
        segment(0x0ff0, 0x0ff0, 0, 0x10, 5),
        segment(0x0ff8, 0x0ff8, 0x10, 0x10, 5),
        segment(0x100a, 0x100a, 0x30, 4, 5),
    ];
    let app = object(vec![], segments, vec![symbol("tbf_protected_region_size", 20)]);
    let made = lay_out(&app, &file, &options(), &plan(Some(0x1000)), 16).unwrap();
    let mut expected = vec![0; 4];
    expected.extend_from_slice(&file[0x18..0x20]);
    expected.extend_from_slice(&[0, 0]);
    expected.extend_from_slice(&file[0x30..0x34]);
    assert_eq!(made.binary, expected);
    assert_eq!(made.protected, 20);
    let placed: Vec<(u64, u64)> = made.segments.iter().map(|s| (s.p_paddr, s.p_filesz)).collect();
    assert_eq!(placed, vec![(0x1000, 0), (0x1000, 8), (0x100a, 4)]);
    assert_eq!(made.positions, vec![20, 20, 30]);
    assert_eq!(made.end, 20 + 14);
    assert_eq!(made.init_fn_offset, Some(4 + 4));
    assert_eq!(made.got, None);
    assert!(made.notices.is_empty());
    let mut small = segment(0x0ff8, 0x0ff8, 0x10, 0x10, 5);
    small.p_memsz = 4;
    let app = object(vec![], vec![small], vec![]);
    assert_eq!(
        lay_out(&app, &file, &options(), &plan(Some(0x1000)), 0).unwrap_err(),
        ConvertError::Overflow
    );
}

#[test]
fn contents_have_to_be_in_the_file() {
    let app = object(vec![], vec![segment(0x1000, 0x1000, 60, 5, 5)], vec![]);
    assert_eq!(
        lay_out(&app, &[0; 64], &options(), &plan(None), 16).unwrap_err(),
        ConvertError::SegmentData
    );
    assert!(lay_out(&app, &[0; 65], &options(), &plan(None), 16).is_ok());
    let mut app = app;
    app.segments = None;
    assert_eq!(
        lay_out(&app, &[0; 65], &options(), &plan(None), 16).unwrap_err(),
        ConvertError::NoProgramHeaders
    );
}

#[test]
fn relocation_data_is_for_writable_sections() {
    let mut list = vec![
        section(".w", section_header(SHF_ALLOC | SHF_WRITE, 0x1000, 0, 4)),
        section(".r", section_header(SHF_ALLOC, 0x1004, 4, 4)),
        section(".rel.w", section_header(0, 0, 0, 3)),
        section(".rel.r", section_header(0, 0, 0, 3)),
    ];
    list[2].data = Some(vec![1, 2, 3]);
    list[3].data = Some(vec![4, 5, 6]);
    let app = object(list, vec![segment(0x1000, 0x1000, 0, 8, 7)], vec![]);
    let made = lay_out(&app, &[0; 8], &options(), &plan(None), 17).unwrap();
    assert_eq!(made.relocation_data, vec![1, 2, 3]);
    assert_eq!(made.notices, vec![Notice::UnalignedRelocationData(25)]);
}

#[test]
fn padding_depends_on_the_architecture() {
    assert_eq!(compute_trailing_padding(EM_ARM, 0), Ok(512));
    assert_eq!(compute_trailing_padding(EM_ARM, 3), Ok(509));
    assert_eq!(compute_trailing_padding(EM_ARM, 500), Ok(12));
    assert_eq!(compute_trailing_padding(EM_ARM, 512), Ok(0));
    assert_eq!(compute_trailing_padding(EM_ARM, 513), Ok(511));
    assert_eq!(compute_trailing_padding(EM_ARM, 5000), Ok(3192));
    // A power of two is not padded, unless it is less than the least size.
    assert_eq!(compute_trailing_padding(EM_ARM, 1), Ok(511));
    assert_eq!(compute_trailing_padding(EM_ARM, 256), Ok(256));
    assert_eq!(compute_trailing_padding(EM_ARM, 1024), Ok(0));
    assert_eq!(compute_trailing_padding(EM_ARM, 0xffff_ffff), Ok(1));
    assert_eq!(compute_trailing_padding(EM_ARM, 0x1_0000_0000), Ok(0));
    assert_eq!(compute_trailing_padding(EM_ARM, 0x1_0000_0001), Err(ConvertError::Overflow));
    assert_eq!(compute_trailing_padding(EM_RISCV, 13), Ok(3));
    assert_eq!(compute_trailing_padding(EM_RISCV, 16), Ok(0));
    assert_eq!(compute_trailing_padding(EM_386, 4097), Ok(4095));
    assert_eq!(compute_trailing_padding(EM_X86_64, 13), Ok(0));
}

#[test]
fn reserved_room_is_aligned() {
    assert_eq!(compute_footer_reserve(0, 0), Some(0));
    assert_eq!(compute_footer_reserve(40, 40), Some(0));
    assert_eq!(compute_footer_reserve(41, 40), Some(8));
    assert_eq!(compute_footer_reserve(49, 40), Some(12));
    assert_eq!(compute_footer_reserve(3000, 40), Some(2960));
    assert_eq!(compute_footer_reserve(u32::MAX, 0), None);
}

#[test]
fn sizes_are_added_up() {
    let mut wanted = options();
    wanted.sha256 = true;
    wanted.sha512 = true;
    wanted.minimum_footer_size = 200;
    let sizes = compute_sizes(&layout(100, vec![0; 6]), &wanted, EM_386).unwrap();
    let expected = Sizes { end: 110, credentials: 112, reserved: 88, padding: 3786, total: 4096 };
    assert_eq!(sizes, expected);
    assert_eq!(
        compute_sizes(&layout(usize::MAX - 4, vec![0]), &wanted, EM_386).unwrap_err(),
        ConvertError::Overflow
    );
}

#[test]
fn credentials_have_type_length_and_format() {
    let mut output = vec![7];
    append_credential(&mut output, TbfFooterCredentialsType::SHA256, &vec![1, 2, 3]);
    assert_eq!(output, vec![7, 128, 0, 7, 0, 3, 0, 0, 0, 1, 2, 3]);
    let codes = [
        TbfFooterCredentialsType::Reserved.code(),
        TbfFooterCredentialsType::Rsa4096Key.code(),
        TbfFooterCredentialsType::SHA256.code(),
        TbfFooterCredentialsType::SHA384.code(),
        TbfFooterCredentialsType::SHA512.code(),
    ];
    assert_eq!(codes, [0, 2, 3, 4, 5]);
}

#[test]
fn rsa_credential_needs_a_key_and_a_signature() {
    let mut output = vec![];
    let modulus = Some(vec![1u8; 512]);
    let signature = Some(vec![2u8; 512]);
    assert_eq!(append_rsa_credential(&mut output, &modulus, &signature), Ok(()));
    let mut expected = vec![128, 0, 4, 4, 2, 0, 0, 0];
    expected.extend(vec![1; 512]);
    expected.extend(vec![2; 512]);
    assert_eq!(output, expected);
    assert_eq!(
        append_rsa_credential(&mut output, &None, &signature),
        Err(ConvertError::RsaKeyRejected)
    );
    assert_eq!(
        append_rsa_credential(&mut output, &Some(vec![1; 384]), &signature),
        Err(ConvertError::RsaKeyLength { bytes: 384 })
    );
    assert_eq!(
        append_rsa_credential(&mut output, &modulus, &None),
        Err(ConvertError::RsaSignature)
    );
    assert_eq!(output, expected);
}

#[test]
fn header_is_made_of_plan_layout_and_sizes() {
    let mut laid = layout(100, vec![]);
    laid.regions = vec![(3, 4), (5, 6)];
    laid.init_fn_offset = Some(9);
    let sizes = Sizes { end: 104, credentials: 0, reserved: 0, padding: 24, total: 128 };
    let header = make_header(&plan(Some(0x3000)), 12, &laid, &sizes);
    assert_eq!(header.plan, plan(Some(0x3000)).header);
    assert_eq!(header.protected_size, Some(4));
    assert_eq!(header.init_fn_offset, Some(9));
    assert_eq!(header.writeable_flash_regions, vec![(3, 4), (5, 6)]);
    assert_eq!(header.binary_end_offset, 104);
    assert_eq!(header.total_size, 128);
    assert_eq!(make_header(&plan(None), 16, &laid, &sizes).protected_size, None);
}

#[test]
fn small_room_is_plain_padding() {
    let mut laid = layout(20, vec![]);
    laid.binary = vec![1, 2, 3, 4];
    let sizes = Sizes { end: 24, credentials: 0, reserved: 0, padding: 4, total: 28 };
    let mut output = vec![];
    write_tbf(&vec![9; 16], &laid, &sizes, &options(), &mut output).unwrap();
    let mut expected = vec![9; 16];
    expected.extend_from_slice(&[1, 2, 3, 4, 0, 0, 0, 0, 0, 0, 0, 0]);
    assert_eq!(output, expected);
}

#[test]
fn object_is_converted_without_its_file_format() {
    let file: Vec<u8> = (0..32).collect();
    let sections = vec![
        section(".text", section_header(SHF_ALLOC, 0x8000_0000, 4, 8)),
        section(".got", section_header(SHF_ALLOC | SHF_WRITE, 0x8000_0008, 12, 4)),
    ];
    let segments = vec![segment(0x8000_0000, 0x8000_0000, 4, 12, 5)];
    let mut app = object(sections, segments, vec![]);
    app.header.e_machine = EM_RISCV;
    app.header.e_entry = 0x8000_0002;
    let mut output = vec![];
    let mut text = String::new();
    let report = convert_object(
        &app,
        &file,
        &options(),
        &vec![],
        |plan: &HeaderPlan| plan.minimum_ram_size as usize - 116,
        |header: &TbfHeader| vec![header.total_size as u8; 20],
        &mut output,
        &mut text,
    )
    .unwrap();
    assert_eq!(report.header_length, 20);
    assert_eq!(report.header.init_fn_offset, Some(2));
    assert_eq!(report.relocs.len(), 0);
    let mut expected = vec![36; 20];
    expected.extend_from_slice(&file[4..16]);
    expected.extend_from_slice(&[0, 0, 0, 0]);
    assert_eq!(output, expected);
}

#[test]
fn overridden_size_is_told() {
    let app = object(vec![], vec![], vec![symbol("tbf_protected_region_size", 20)]);
    let mut wanted = options();
    assert_eq!(find_protected_notice(&app, &wanted), None);
    wanted.protected_region_size = Some(64);
    assert_eq!(
        find_protected_notice(&app, &wanted),
        Some(Notice::ProtectedSizeOverridden(20))
    );
    assert_eq!(find_protected_notice(&object(vec![], vec![], vec![]), &wanted), None);
}
