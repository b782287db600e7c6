//! The functions that an app takes from shared libraries, and the places where
//! their addresses have to be filled in.
use crate::abi::{STB_GLOBAL, STT_FUNC};
use crate::error::ConvertError;
use crate::object::{
    library_views, optional_symbols, symbol_views, ElfObject, ElfView, Rel, SectionView,
    SharedLibrary, SharedLibraryView, Symbol, SymbolView,
};
use crate::symbols::{find_fn_in_shlib, find_section, fn_value, section_named, texts};
use crate::text::{append_hex, hex};
use crate::util::{le32_at, low32, low32_of, read_u32};
use vstd::prelude::*;
use vstd::string::*;

verus! {

/// A function whose address has to be filled in.
#[derive(Debug)]
pub struct AppFuncReloc {
    /// The name of the function.
    pub fn_name: String,
    /// The address of the entry for the function in the global offset table,
    /// within the flash of the app.
    pub app_got_addr: u32,
}

/// What an `AppFuncReloc` stands for.
pub struct AppFuncRelocView {
    /// The name of the function.
    pub fn_name: Seq<char>,
    /// The address of the entry for the function in the global offset table.
    pub app_got_addr: u32,
}

impl View for AppFuncReloc {
    type V = AppFuncRelocView;

    open spec fn view(&self) -> AppFuncRelocView {
        AppFuncRelocView { fn_name: self.fn_name@, app_got_addr: self.app_got_addr }
    }
}

/// What a list of relocations stands for.
pub open spec fn reloc_views(relocs: Seq<AppFuncReloc>) -> Seq<AppFuncRelocView> {
    Seq::new(relocs.len(), |i: int| relocs[i]@)
}

/// A function in a shared library.
#[derive(Debug)]
pub struct ShLibFnReloc {
    /// The name of the library.
    pub lib_name: String,
    /// The offset of the function in the flash of the library.
    pub lib_fn_offset: u32,
}

/// What a `ShLibFnReloc` stands for.
pub struct ShLibFnRelocView {
    /// The name of the library.
    pub lib_name: Seq<char>,
    /// The offset of the function in the flash of the library.
    pub lib_fn_offset: u32,
}

impl View for ShLibFnReloc {
    type V = ShLibFnRelocView;

    open spec fn view(&self) -> ShLibFnRelocView {
        ShLibFnRelocView { lib_name: self.lib_name@, lib_fn_offset: self.lib_fn_offset }
    }
}

/// Whether a symbol is a function that every object can see.
pub open spec fn is_global_fn(symbol: SymbolView) -> bool {
    symbol.st_type == STT_FUNC && symbol.st_bind == STB_GLOBAL
}

/// The names of the global functions among symbols, in their order, where they
/// can all be read.
pub open spec fn global_fn_names(symbols: Seq<SymbolView>) -> Option<Seq<Seq<char>>>
    decreases symbols.len(),
{
    if symbols.len() == 0 {
        Some(Seq::empty())
    } else {
        match global_fn_names(symbols.drop_last()) {
            None => None,
            Some(before) => if is_global_fn(symbols.last()) {
                match symbols.last().name {
                    Some(name) => Some(before.push(name)),
                    None => None,
                }
            } else {
                Some(before)
            },
        }
    }
}

/// The names of the dynamic functions of an object, where they can all be read.
pub open spec fn dynamic_fn_names(dynamic_symbols: Option<Seq<SymbolView>>) -> Option<
    Seq<Seq<char>>,
> {
    match dynamic_symbols {
        Some(symbols) => global_fn_names(symbols),
        None => Some(Seq::empty()),
    }
}

/// The relocations of the code of an object.
pub open spec fn text_rels(sections: Seq<SectionView>) -> Seq<Rel> {
    match section_named(sections, ".rel.text"@) {
        Some(section) => match section.rels {
            Some(rels) => rels,
            None => Seq::empty(),
        },
        None => Seq::empty(),
    }
}

/// How often a name is in a list of names.
pub open spec fn occurrences(names: Seq<Seq<char>>, name: Seq<char>) -> nat
    decreases names.len(),
{
    if names.len() == 0 {
        0
    } else {
        occurrences(names.drop_last(), name) + (if names.last() == name {
            1nat
        } else {
            0nat
        })
    }
}

/// The address of the entry in the global offset table that the code at a
/// relocation refers to. The code holds the offset of the entry in the table.
pub open spec fn got_entry(
    sections: Seq<SectionView>,
    file: Seq<u8>,
    rel: Rel,
    got_start: int,
) -> Result<u32, ConvertError> {
    match section_named(sections, ".text"@) {
        None => Err(ConvertError::NoText),
        Some(code) => {
            let at = rel.r_offset - code.header.sh_addr + code.header.sh_offset;
            if code.data is None {
                Err(ConvertError::NoText)
            } else if rel.r_offset < code.header.sh_addr || at > u64::MAX {
                Err(ConvertError::Overflow)
            } else if at + 4 > file.len() {
                Err(ConvertError::RelocationTarget)
            } else if section_named(sections, ".got"@) is None {
                Err(ConvertError::NoGlobalOffsetTable)
            } else if low32(got_start) + le32_at(file, at) > u32::MAX {
                Err(ConvertError::Overflow)
            } else {
                Ok((low32(got_start) + le32_at(file, at)) as u32)
            }
        },
    }
}

/// The places to fill in that come of a relocation: one for each time that its
/// symbol is among the dynamic functions.
pub open spec fn relocs_of_rel(
    sections: Seq<SectionView>,
    symbols: Seq<SymbolView>,
    names: Seq<Seq<char>>,
    file: Seq<u8>,
    rel: Rel,
    got_start: int,
) -> Result<Seq<AppFuncRelocView>, ConvertError> {
    if rel.r_sym >= symbols.len() {
        Err(ConvertError::SymbolIndex)
    } else {
        match symbols[rel.r_sym as int].name {
            None => Err(ConvertError::SymbolName),
            Some(name) => if occurrences(names, name) == 0 {
                Ok(Seq::empty())
            } else {
                match got_entry(sections, file, rel, got_start) {
                    Err(e) => Err(e),
                    Ok(addr) => Ok(
                        Seq::new(
                            occurrences(names, name),
                            |i: int| AppFuncRelocView { fn_name: name, app_got_addr: addr },
                        ),
                    ),
                }
            },
        }
    }
}

/// The places to fill in that come of relocations, in their order.
pub open spec fn relocs_of_rels(
    sections: Seq<SectionView>,
    symbols: Seq<SymbolView>,
    names: Seq<Seq<char>>,
    file: Seq<u8>,
    rels: Seq<Rel>,
    got_start: int,
) -> Result<Seq<AppFuncRelocView>, ConvertError>
    decreases rels.len(),
{
    if rels.len() == 0 {
        Ok(Seq::empty())
    } else {
        match relocs_of_rels(sections, symbols, names, file, rels.drop_last(), got_start) {
            Err(e) => Err(e),
            Ok(before) => match relocs_of_rel(
                sections,
                symbols,
                names,
                file,
                rels.last(),
                got_start,
            ) {
                Err(e) => Err(e),
                Ok(more) => Ok(before + more),
            },
        }
    }
}

/// The places in an object where the address of a function of a shared library
/// has to be filled in, where the global offset table is at `got_start` in the
/// TBF.
pub open spec fn fn_relocs(object: ElfView, file: Seq<u8>, got_start: int) -> Result<
    Seq<AppFuncRelocView>,
    ConvertError,
> {
    match dynamic_fn_names(object.dynamic_symbols) {
        None => Err(ConvertError::SymbolName),
        Some(names) => match object.symbols {
            None => Err(ConvertError::NoSymbolTable),
            Some(symbols) => relocs_of_rels(
                object.sections,
                symbols,
                names,
                file,
                text_rels(object.sections),
                got_start,
            ),
        },
    }
}

/// The first library from `from` on that has a function, and where.
pub open spec fn provider_from(
    libraries: Seq<SharedLibraryView>,
    fn_name: Seq<char>,
    from: int,
) -> Result<Option<ShLibFnRelocView>, ConvertError>
    decreases libraries.len() - from,
{
    if from >= libraries.len() {
        Ok(None)
    } else {
        match fn_value(libraries[from].symbols, fn_name) {
            Err(e) => Err(e),
            Ok(Some(offset)) => Ok(
                Some(ShLibFnRelocView { lib_name: libraries[from].name, lib_fn_offset: offset }),
            ),
            Ok(None) => provider_from(libraries, fn_name, from + 1),
        }
    }
}

/// The table that tells a loader of one place to fill in.
pub open spec fn reloc_text(
    reloc: AppFuncRelocView,
    package_name: Seq<char>,
    provider: ShLibFnRelocView,
) -> Seq<char> {
    "["@ + reloc.fn_name + "]\napp_name = \""@ + package_name + "\"\napp_got_addr = 0x"@ + hex(
        reloc.app_got_addr as nat,
    ) + "\nlib_name = \""@ + provider.lib_name + "\"\nlib_func_offset = 0x"@ + hex(
        provider.lib_fn_offset as nat,
    ) + "\n"@
}

/// A place to fill in, and the library that has its function.
pub struct RelocTable {
    /// The place to fill in.
    pub reloc: AppFuncRelocView,
    /// The function in the library.
    pub provider: ShLibFnRelocView,
}

/// Whether a place to fill in is for a function.
pub open spec fn is_for(relocs: Seq<AppFuncRelocView>, fn_name: Seq<char>) -> bool {
    exists|i: int| 0 <= i < relocs.len() && (#[trigger] relocs[i]).fn_name == fn_name
}

/// The places to fill in that get a table: for each function that a library has,
/// the first place, in the order of the places. No TOML document has two tables
/// of one name.
pub open spec fn reloc_tables(
    libraries: Seq<SharedLibraryView>,
    relocs: Seq<AppFuncRelocView>,
) -> Result<Seq<RelocTable>, ConvertError>
    decreases relocs.len(),
{
    if relocs.len() == 0 {
        Ok(Seq::empty())
    } else {
        let last = relocs.last();
        match reloc_tables(libraries, relocs.drop_last()) {
            Err(e) => Err(e),
            Ok(before) => if is_for(relocs.drop_last(), last.fn_name) {
                Ok(before)
            } else {
                match provider_from(libraries, last.fn_name, 0) {
                    Err(e) => Err(e),
                    Ok(None) => Ok(before),
                    Ok(Some(provider)) => Ok(before.push(RelocTable { reloc: last, provider })),
                }
            },
        }
    }
}

/// The text of tables, one after the other.
pub open spec fn tables_text(tables: Seq<RelocTable>, package_name: Seq<char>) -> Seq<char>
    decreases tables.len(),
{
    if tables.len() == 0 {
        Seq::empty()
    } else {
        tables_text(tables.drop_last(), package_name) + reloc_text(
            tables.last().reloc,
            package_name,
            tables.last().provider,
        )
    }
}

/// The relocation information for places to fill in.
pub open spec fn relocation_text(
    libraries: Seq<SharedLibraryView>,
    relocs: Seq<AppFuncRelocView>,
    package_name: Seq<char>,
) -> Result<Seq<char>, ConvertError> {
    match reloc_tables(libraries, relocs) {
        Ok(tables) => Ok(tables_text(tables, package_name)),
        Err(e) => Err(e),
    }
}

/// What a result that holds a list of relocations stands for.
pub open spec fn reloc_result(relocs: Result<Vec<AppFuncReloc>, ConvertError>) -> Result<
    Seq<AppFuncRelocView>,
    ConvertError,
> {
    match relocs {
        Ok(r) => Ok(reloc_views(r@)),
        Err(e) => Err(e),
    }
}

/// Once some relocations cannot be dealt with, more of them change nothing.
proof fn relocs_error_stays(
    sections: Seq<SectionView>,
    symbols: Seq<SymbolView>,
    names: Seq<Seq<char>>,
    file: Seq<u8>,
    rels: Seq<Rel>,
    got_start: int,
    count: int,
)
    requires
        0 <= count <= rels.len(),
        relocs_of_rels(sections, symbols, names, file, rels.take(count), got_start) is Err,
    ensures
        relocs_of_rels(sections, symbols, names, file, rels, got_start) == relocs_of_rels(
            sections,
            symbols,
            names,
            file,
            rels.take(count),
            got_start,
        ),
    decreases rels.len() - count,
{
    if count == rels.len() {
        assert(rels.take(count) =~= rels);
    } else {
        assert(rels.take(count + 1).drop_last() =~= rels.take(count));
        relocs_error_stays(sections, symbols, names, file, rels, got_start, count + 1);
    }
}

/// Once the names of some symbols cannot be read, more symbols change nothing.
proof fn names_error_stays(symbols: Seq<SymbolView>, count: int)
    requires
        0 <= count <= symbols.len(),
        global_fn_names(symbols.take(count)) is None,
    ensures
        global_fn_names(symbols) is None,
    decreases symbols.len() - count,
{
    if count == symbols.len() {
        assert(symbols.take(count) =~= symbols);
    } else {
        assert(symbols.take(count + 1).drop_last() =~= symbols.take(count));
        names_error_stays(symbols, count + 1);
    }
}

/// Once the provider of a function cannot be found out, more places to fill in
/// change nothing.
proof fn tables_error_stays(
    libraries: Seq<SharedLibraryView>,
    relocs: Seq<AppFuncRelocView>,
    count: int,
)
    requires
        0 <= count <= relocs.len(),
        reloc_tables(libraries, relocs.take(count)) is Err,
    ensures
        reloc_tables(libraries, relocs) == reloc_tables(libraries, relocs.take(count)),
    decreases relocs.len() - count,
{
    if count == relocs.len() {
        assert(relocs.take(count) =~= relocs);
    } else {
        assert(relocs.take(count + 1).drop_last() =~= relocs.take(count));
        tables_error_stays(libraries, relocs, count + 1);
    }
}

/// Lists the names of the dynamic functions of an object.
fn dynamic_functions(dynamic_symbols: &Option<Vec<Symbol>>) -> (names: Option<Vec<String>>)
    ensures
        match names {
            Some(n) => dynamic_fn_names(optional_symbols(*dynamic_symbols)) == Some(texts(n@)),
            None => dynamic_fn_names(optional_symbols(*dynamic_symbols)) is None,
        },
{
    let mut names: Vec<String> = Vec::new();
    let symbols: &Vec<Symbol> = match dynamic_symbols {
        Some(symbols) => symbols,
        None => {
            assert(texts(names@) =~= Seq::<Seq<char>>::empty());
            return Some(names);
        },
    };
    let ghost views = symbol_views(symbols@);
    let count: usize = symbols.len();
    let mut i: usize = 0;
    assert(texts(names@) =~= Seq::<Seq<char>>::empty());
    while i < count
        invariant
            count == symbols@.len(),
            i <= count,
            views == symbol_views(symbols@),
            optional_symbols(*dynamic_symbols) == Some(views),
            global_fn_names(views.take(i as int)) == Some(texts(names@)),
        decreases count - i,
    {
        assert(views.take(i + 1).drop_last() =~= views.take(i as int));
        assert(views[i as int] == symbols@[i as int]@);
        if symbols[i].st_type == STT_FUNC && symbols[i].st_bind == STB_GLOBAL {
            match &symbols[i].name {
                Some(name) => {
                    let ghost before = texts(names@);
                    names.push(name.clone());
                    assert(texts(names@) =~= before.push(name@));
                },
                None => {
                    proof {
                        names_error_stays(views, i + 1);
                    }
                    return None;
                },
            }
        }
        i += 1;
    }
    assert(views.take(count as int) =~= views);
    Some(names)
}

/// Counts how often a name is in a list of names.
fn count_name(names: &Vec<String>, name: &String) -> (found: usize)
    ensures
        found == occurrences(texts(names@), name@),
{
    let count: usize = names.len();
    let mut found: usize = 0;
    let mut i: usize = 0;
    while i < count
        invariant
            count == names@.len(),
            i <= count,
            found <= i,
            found == occurrences(texts(names@).take(i as int), name@),
        decreases count - i,
    {
        assert(texts(names@).take(i + 1).drop_last() =~= texts(names@).take(i as int));
        if names[i] == *name {
            found += 1;
        }
        i += 1;
    }
    assert(texts(names@).take(count as int) =~= texts(names@));
    found
}

/// Computes the address of the entry in the global offset table that the code
/// at a relocation refers to.
fn find_got_entry(object: &ElfObject, file: &[u8], rel: &Rel, got_start: usize) -> (addr: Result<
    u32,
    ConvertError,
>)
    ensures
        addr == got_entry(object@.sections, file@, *rel, got_start as int),
{
    let code: usize = match find_section(&object.sections, ".text") {
        Some(code) => code,
        None => { return Err(ConvertError::NoText); },
    };
    assert(object@.sections[code as int] == object.sections@[code as int]@);
    if object.sections[code].data.is_none() {
        return Err(ConvertError::NoText);
    }
    let sh_addr: u64 = object.sections[code].header.sh_addr;
    let sh_offset: u64 = object.sections[code].header.sh_offset;
    if rel.r_offset < sh_addr {
        return Err(ConvertError::Overflow);
    }
    let at: u64 = match (rel.r_offset - sh_addr).checked_add(sh_offset) {
        Some(at) => at,
        None => { return Err(ConvertError::Overflow); },
    };
    if file.len() < 4 || at > (file.len() - 4) as u64 {
        return Err(ConvertError::RelocationTarget);
    }
    let got_offset: u32 = read_u32(file, at as usize);
    if find_section(&object.sections, ".got").is_none() {
        return Err(ConvertError::NoGlobalOffsetTable);
    }
    match low32_of(got_start as u64).checked_add(got_offset) {
        Some(addr) => Ok(addr),
        None => Err(ConvertError::Overflow),
    }
}

/// Lists each function that needs relocation, and where its address has to be
/// filled in.
///
/// A loader can take this information and fill in the addresses at which the
/// functions of the libraries are in flash.
pub fn get_fn_relocs(object: &ElfObject, file: &[u8], got_start: usize) -> (relocs: Result<
    Vec<AppFuncReloc>,
    ConvertError,
>)
    ensures
        reloc_result(relocs) == fn_relocs(object@, file@, got_start as int),
{
    let names: Vec<String> = match dynamic_functions(&object.dynamic_symbols) {
        Some(names) => names,
        None => { return Err(ConvertError::SymbolName); },
    };
    let symbols: &Vec<Symbol> = match &object.symbols {
        Some(symbols) => symbols,
        None => { return Err(ConvertError::NoSymbolTable); },
    };
    let mut relocs: Vec<AppFuncReloc> = Vec::new();
    assert(reloc_views(relocs@) =~= Seq::<AppFuncRelocView>::empty());
    let index: usize = match find_section(&object.sections, ".rel.text") {
        Some(index) => index,
        None => { return Ok(relocs); },
    };
    assert(object@.sections[index as int] == object.sections@[index as int]@);
    let rels: &Vec<Rel> = match &object.sections[index].rels {
        Some(rels) => rels,
        None => { return Ok(relocs); },
    };
    let ghost sections = object@.sections;
    let ghost views = symbol_views(symbols@);
    let ghost wanted = texts(names@);
    let count: usize = rels.len();
    let mut i: usize = 0;
    while i < count
        invariant
            count == rels@.len(),
            i <= count,
            sections == object@.sections,
            views == symbol_views(symbols@),
            wanted == texts(names@),
            rels@ == text_rels(sections),
            fn_relocs(object@, file@, got_start as int) == relocs_of_rels(
                sections,
                views,
                wanted,
                file@,
                rels@,
                got_start as int,
            ),
            relocs_of_rels(sections, views, wanted, file@, rels@.take(i as int), got_start as int)
                == Ok::<Seq<AppFuncRelocView>, ConvertError>(reloc_views(relocs@)),
        decreases count - i,
    {
        let rel: &Rel = &rels[i];
        let ghost before = reloc_views(relocs@);
        proof {
            assert(rels@.take(i + 1).drop_last() =~= rels@.take(i as int));
            if relocs_of_rel(sections, views, wanted, file@, *rel, got_start as int) is Err {
                relocs_error_stays(
                    sections,
                    views,
                    wanted,
                    file@,
                    rels@,
                    got_start as int,
                    i + 1,
                );
            }
        }
        if rel.r_sym as u64 >= symbols.len() as u64 {
            return Err(ConvertError::SymbolIndex);
        }
        let sym: usize = rel.r_sym as usize;
        assert(views[sym as int] == symbols@[sym as int]@);
        let name: &String = match &symbols[sym].name {
            Some(name) => name,
            None => { return Err(ConvertError::SymbolName); },
        };
        let wanted_count: usize = count_name(&names, name);
        if wanted_count > 0 {
            let addr: u32 = match find_got_entry(object, file, rel, got_start) {
                Ok(addr) => addr,
                Err(e) => { return Err(e); },
            };
            let ghost entry = AppFuncRelocView { fn_name: name@, app_got_addr: addr };
            let mut k: usize = 0;
            while k < wanted_count
                invariant
                    k <= wanted_count,
                    entry == (AppFuncRelocView { fn_name: name@, app_got_addr: addr }),
                    reloc_views(relocs@) =~= before + Seq::new(k as nat, |j: int| entry),
                decreases wanted_count - k,
            {
                let ghost prior = reloc_views(relocs@);
                relocs.push(AppFuncReloc { fn_name: name.clone(), app_got_addr: addr });
                assert(reloc_views(relocs@) =~= prior.push(entry));
                assert(Seq::new((k + 1) as nat, |j: int| entry) =~= Seq::new(
                    k as nat,
                    |j: int| entry,
                ).push(entry));
                k += 1;
            }
        } else {
            assert(reloc_views(relocs@) =~= before + Seq::<AppFuncRelocView>::empty());
        }
        i += 1;
    }
    assert(rels@.take(count as int) =~= rels@);
    Ok(relocs)
}

/// Finds the first library that has a function, and where.
fn find_provider(libraries: &Vec<SharedLibrary>, fn_name: &String) -> (provider: Result<
    Option<ShLibFnReloc>,
    ConvertError,
>)
    ensures
        match provider {
            Ok(Some(p)) => provider_from(library_views(libraries@), fn_name@, 0) == Ok::<
                Option<ShLibFnRelocView>,
                ConvertError,
            >(Some(p@)),
            Ok(None) => provider_from(library_views(libraries@), fn_name@, 0) == Ok::<
                Option<ShLibFnRelocView>,
                ConvertError,
            >(None),
            Err(e) => provider_from(library_views(libraries@), fn_name@, 0) == Err::<
                Option<ShLibFnRelocView>,
                ConvertError,
            >(e),
        },
{
    let count: usize = libraries.len();
    let mut i: usize = 0;
    while i < count
        invariant
            count == libraries@.len(),
            i <= count,
            provider_from(library_views(libraries@), fn_name@, 0) == provider_from(
                library_views(libraries@),
                fn_name@,
                i as int,
            ),
        decreases count - i,
    {
        assert(library_views(libraries@)[i as int] == libraries@[i as int]@);
        match find_fn_in_shlib(&libraries[i], fn_name) {
            Ok(Some(lib_fn_offset)) => {
                let lib_name: String = libraries[i].name.clone();
                return Ok(Some(ShLibFnReloc { lib_name, lib_fn_offset }));
            },
            Ok(None) => {},
            Err(e) => { return Err(e); },
        }
        i += 1;
    }
    Ok(None)
}

/// Appends the table for one place to fill in.
fn append_reloc(
    output: &mut String,
    reloc: &AppFuncReloc,
    package_name: &String,
    provider: &ShLibFnReloc,
)
    ensures
        final(output)@ == old(output)@ + reloc_text(reloc@, package_name@, provider@),
{
    output.append("[");
    output.append(reloc.fn_name.as_str());
    output.append("]\napp_name = \"");
    output.append(package_name.as_str());
    output.append("\"\napp_got_addr = 0x");
    append_hex(output, reloc.app_got_addr);
    output.append("\nlib_name = \"");
    output.append(provider.lib_name.as_str());
    output.append("\"\nlib_func_offset = 0x");
    append_hex(output, provider.lib_fn_offset);
    output.append("\n");
    assert(output@ =~= old(output)@ + reloc_text(reloc@, package_name@, provider@));
}

/// Whether one of the first `count` places to fill in is for a function.
fn is_for_earlier(relocs: &Vec<AppFuncReloc>, count: usize, fn_name: &String) -> (found: bool)
    requires
        count <= relocs@.len(),
    ensures
        found == is_for(reloc_views(relocs@).take(count as int), fn_name@),
{
    let ghost views = reloc_views(relocs@).take(count as int);
    let mut i: usize = 0;
    while i < count
        invariant
            i <= count <= relocs@.len(),
            views == reloc_views(relocs@).take(count as int),
            forall|j: int| 0 <= j < i ==> (#[trigger] views[j]).fn_name != fn_name@,
        decreases count - i,
    {
        assert(views[i as int] == relocs@[i as int]@);
        if relocs[i].fn_name == *fn_name {
            return true;
        }
        i += 1;
    }
    false
}

/// Appends relocation information in TOML format to `output_relocation`.
///
/// For each function to fill in that one of the libraries has, there is a table
/// such as this, with the first place to fill in:
///
/// ```toml
/// [ml_func]
/// app_name = "app"
/// app_got_addr = 0x1000
/// lib_name = "libtest"
/// lib_func_offset = 0x40
/// ```
pub fn output_relocation_file(
    libraries: &Vec<SharedLibrary>,
    app_relocs: &Vec<AppFuncReloc>,
    package_name: &String,
    output_relocation: &mut String,
) -> (done: Result<(), ConvertError>)
    ensures
        match relocation_text(library_views(libraries@), reloc_views(app_relocs@), package_name@) {
            Ok(text) => done is Ok && final(output_relocation)@ == old(output_relocation)@ + text,
            Err(e) => done == Err::<(), ConvertError>(e) && final(output_relocation)@ == old(
                output_relocation,
            )@,
        },
{
    let ghost views = reloc_views(app_relocs@);
    let ghost libs = library_views(libraries@);
    let ghost mut tables = Seq::<RelocTable>::empty();
    let mut text: String = String::new();
    let count: usize = app_relocs.len();
    let mut i: usize = 0;
    while i < count
        invariant
            count == app_relocs@.len(),
            i <= count,
            views == reloc_views(app_relocs@),
            libs == library_views(libraries@),
            output_relocation@ == old(output_relocation)@,
            reloc_tables(libs, views.take(i as int)) == Ok::<Seq<RelocTable>, ConvertError>(tables),
            tables_text(tables, package_name@) == text@,
        decreases count - i,
    {
        assert(views.take(i + 1).drop_last() =~= views.take(i as int));
        assert(views[i as int] == app_relocs@[i as int]@);
        if !is_for_earlier(app_relocs, i, &app_relocs[i].fn_name) {
            match find_provider(libraries, &app_relocs[i].fn_name) {
                Ok(Some(provider)) => {
                    append_reloc(&mut text, &app_relocs[i], package_name, &provider);
                    proof {
                        let table = RelocTable { reloc: views[i as int], provider: provider@ };
                        assert(tables.push(table).drop_last() =~= tables);
                        tables = tables.push(table);
                    }
                },
                Ok(None) => {},
                Err(e) => {
                    proof {
                        tables_error_stays(libs, views, i + 1);
                    }
                    return Err(e);
                },
            }
        }
        i += 1;
    }
    assert(views.take(count as int) =~= views);
    output_relocation.append(text.as_str());
    Ok(())
}

} // verus!
