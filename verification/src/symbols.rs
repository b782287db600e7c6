//! Looking up sections and symbols by name, and the libraries that an object
//! needs.
use crate::abi::{DT_NEEDED, DT_STRTAB, STT_FUNC};
use crate::error::ConvertError;
use crate::object::{
    optional, optional_symbols, section_views, string_at, symbol_views, text_at, DynamicEntry,
    Section, SectionView, SharedLibrary, Symbol, SymbolView,
};
use crate::text::name_is;
use crate::util::{low32, low32_of};
use vstd::prelude::*;
use vstd::slice::slice_subrange;

verus! {

/// The index of the first section from `from` on that has a name.
pub open spec fn section_index_from(
    sections: Seq<SectionView>,
    name: Seq<char>,
    from: int,
) -> Option<int>
    decreases sections.len() - from,
{
    if from >= sections.len() {
        None
    } else if sections[from].name == name {
        Some(from)
    } else {
        section_index_from(sections, name, from + 1)
    }
}

/// The first section that has a name.
pub open spec fn section_named(sections: Seq<SectionView>, name: Seq<char>) -> Option<SectionView> {
    match section_index_from(sections, name, 0) {
        Some(i) => Some(sections[i]),
        None => None,
    }
}

/// The value of the first symbol from `from` on that has a name. A symbol
/// without a readable name before that one is an error.
pub open spec fn symbol_value_from(
    symbols: Seq<SymbolView>,
    name: Seq<char>,
    from: int,
) -> Result<Option<u64>, ConvertError>
    decreases symbols.len() - from,
{
    if from >= symbols.len() {
        Ok(None)
    } else {
        match symbols[from].name {
            None => Err(ConvertError::SymbolName),
            Some(n) => if n == name {
                Ok(Some(symbols[from].st_value))
            } else {
                symbol_value_from(symbols, name, from + 1)
            },
        }
    }
}

/// The low 32 bits of the value of the first symbol that has a name, where
/// there is a symbol table and it has such a symbol.
pub open spec fn symbol_value(symbols: Option<Seq<SymbolView>>, name: Seq<char>) -> Result<
    Option<u32>,
    ConvertError,
> {
    match symbols {
        None => Ok(None),
        Some(s) => match symbol_value_from(s, name, 0) {
            Ok(Some(value)) => Ok(Some(low32(value as int))),
            Ok(None) => Ok(None),
            Err(e) => Err(e),
        },
    }
}

/// The value of the first symbol from `from` on that has a name and is a
/// function. A symbol without a readable name before that one is an error.
pub open spec fn fn_value_from(symbols: Seq<SymbolView>, name: Seq<char>, from: int) -> Result<
    Option<u64>,
    ConvertError,
>
    decreases symbols.len() - from,
{
    if from >= symbols.len() {
        Ok(None)
    } else {
        match symbols[from].name {
            None => Err(ConvertError::SymbolName),
            Some(n) => if n == name && symbols[from].st_type == STT_FUNC {
                Ok(Some(symbols[from].st_value))
            } else {
                fn_value_from(symbols, name, from + 1)
            },
        }
    }
}

/// The low 32 bits of the value of the first symbol that has a name and is a
/// function, where there is a symbol table and it has such a symbol.
pub open spec fn fn_value(symbols: Option<Seq<SymbolView>>, name: Seq<char>) -> Result<
    Option<u32>,
    ConvertError,
> {
    match symbols {
        None => Ok(None),
        Some(s) => match fn_value_from(s, name, 0) {
            Ok(Some(value)) => Ok(Some(low32(value as int))),
            Ok(None) => Ok(None),
            Err(e) => Err(e),
        },
    }
}

/// The offset in the file of the string table at the address in an entry.
///
/// The address is in flash, at `0x8_______`, and the table starts at an offset
/// of `0x1000` from it in the file.
pub open spec fn string_table_offset(entry: DynamicEntry) -> int {
    ((entry.d_val & 0x0FFF_FFFF) | 0x1000) as int
}

/// The offset in the file of the string table that the last entry for one
/// gives.
pub open spec fn string_table(entries: Seq<DynamicEntry>) -> Option<int>
    decreases entries.len(),
{
    if entries.len() == 0 {
        None
    } else if entries.last().d_tag == DT_STRTAB {
        Some(string_table_offset(entries.last()))
    } else {
        string_table(entries.drop_last())
    }
}

/// The names of the needed libraries, in their order, without those that
/// cannot be read.
pub open spec fn needed_names(entries: Seq<DynamicEntry>, table: Seq<u8>) -> Seq<Seq<char>>
    decreases entries.len(),
{
    if entries.len() == 0 {
        Seq::empty()
    } else {
        let before = needed_names(entries.drop_last(), table);
        let last = entries.last();
        if last.d_tag == DT_NEEDED {
            match text_at(table, (last.d_val as usize) as int) {
                Some(name) => before.push(name),
                None => before,
            }
        } else {
            before
        }
    }
}

/// The names of the shared libraries that an object needs, where its dynamic
/// section can be read and gives a string table.
pub open spec fn library_names(dynamic: Option<Seq<DynamicEntry>>, file: Seq<u8>) -> Result<
    Option<Seq<Seq<char>>>,
    ConvertError,
> {
    match dynamic {
        None => Ok(None),
        Some(entries) => match string_table(entries) {
            None => Ok(None),
            Some(offset) => if offset > file.len() {
                Err(ConvertError::DynamicStringTable)
            } else {
                Ok(Some(needed_names(entries, file.subrange(offset, file.len() as int))))
            },
        },
    }
}

/// The texts of a list of strings.
pub open spec fn texts(strings: Seq<String>) -> Seq<Seq<char>> {
    Seq::new(strings.len(), |i: int| strings[i]@)
}

/// The texts of an optional list of strings.
pub open spec fn optional_texts(strings: Option<Vec<String>>) -> Option<Seq<Seq<char>>> {
    match strings {
        Some(s) => Some(texts(s@)),
        None => None,
    }
}

/// A section that is found by name is the first of that name.
pub proof fn section_index_is_first(sections: Seq<SectionView>, name: Seq<char>, from: int)
    requires
        0 <= from,
    ensures
        match section_index_from(sections, name, from) {
            Some(i) => from <= i < sections.len() && sections[i].name == name && forall|j: int|
                from <= j < i ==> (#[trigger] sections[j]).name != name,
            None => forall|j: int| from <= j < sections.len() ==> (#[trigger] sections[j]).name
                != name,
        },
    decreases sections.len() - from,
{
    if from < sections.len() && sections[from].name != name {
        section_index_is_first(sections, name, from + 1);
    }
}

/// Whether a symbol is a function with a name.
pub open spec fn is_fn_named(symbol: SymbolView, name: Seq<char>) -> bool {
    symbol.name == Some(name) && symbol.st_type == STT_FUNC
}

/// What is found as the address of a function is the value of a function symbol
/// of that name, and no earlier symbol is one. If none is found, there is none.
/// It is an error exactly if a symbol without a readable name comes before.
pub proof fn fn_value_is_first_function(symbols: Seq<SymbolView>, name: Seq<char>, from: int)
    requires
        0 <= from,
    ensures
        match fn_value_from(symbols, name, from) {
            Ok(Some(value)) => exists|i: int|
                {
                    &&& from <= i < symbols.len()
                    &&& is_fn_named(#[trigger] symbols[i], name)
                    &&& symbols[i].st_value == value
                    &&& forall|j: int|
                        from <= j < i ==> (#[trigger] symbols[j]).name is Some && !is_fn_named(
                            symbols[j],
                            name,
                        )
                },
            Ok(None) => forall|j: int|
                from <= j < symbols.len() ==> (#[trigger] symbols[j]).name is Some && !is_fn_named(
                    symbols[j],
                    name,
                ),
            Err(e) => e == ConvertError::SymbolName && exists|i: int|
                {
                    &&& from <= i < symbols.len()
                    &&& (#[trigger] symbols[i]).name is None
                    &&& forall|j: int|
                        from <= j < i ==> !is_fn_named(#[trigger] symbols[j], name)
                },
        },
    decreases symbols.len() - from,
{
    if from < symbols.len() && symbols[from].name is Some && !is_fn_named(symbols[from], name) {
        fn_value_is_first_function(symbols, name, from + 1);
    }
}

/// Finds the first section that has a name.
pub fn find_section(sections: &Vec<Section>, name: &str) -> (index: Option<usize>)
    ensures
        match index {
            Some(i) => i < sections@.len() && section_index_from(
                section_views(sections@),
                name@,
                0,
            ) == Some(i as int),
            None => section_index_from(section_views(sections@), name@, 0) is None,
        },
{
    let count: usize = sections.len();
    let mut i: usize = 0;
    while i < count
        invariant
            count == sections@.len(),
            i <= count,
            section_index_from(section_views(sections@), name@, 0) == section_index_from(
                section_views(sections@),
                name@,
                i as int,
            ),
        decreases count - i,
    {
        if name_is(&sections[i].name, name) {
            return Some(i);
        }
        i += 1;
    }
    None
}

/// Finds the low 32 bits of the value of the first symbol that has a name.
pub fn find_symbol(symbols: &Option<Vec<Symbol>>, name: &str) -> (value: Result<
    Option<u32>,
    ConvertError,
>)
    ensures
        value == symbol_value(optional_symbols(*symbols), name@),
{
    let table: &Vec<Symbol> = match symbols {
        Some(table) => table,
        None => { return Ok(None); },
    };
    let count: usize = table.len();
    let mut i: usize = 0;
    while i < count
        invariant
            count == table@.len(),
            i <= count,
            symbol_value_from(symbol_views(table@), name@, 0) == symbol_value_from(
                symbol_views(table@),
                name@,
                i as int,
            ),
            optional_symbols(*symbols) == Some(symbol_views(table@)),
        decreases count - i,
    {
        assert(symbol_views(table@)[i as int] == table@[i as int]@);
        match &table[i].name {
            Some(found) => {
                if name_is(found, name) {
                    return Ok(Some(low32_of(table[i].st_value)));
                }
            },
            None => { return Err(ConvertError::SymbolName); },
        }
        i += 1;
    }
    Ok(None)
}

/// Finds the address of a function in a shared library. A symbol of that name
/// that is not a function does not count.
pub fn find_fn_in_shlib(library: &SharedLibrary, fn_name: &String) -> (address: Result<
    Option<u32>,
    ConvertError,
>)
    ensures
        address == fn_value(library@.symbols, fn_name@),
{
    let table: &Vec<Symbol> = match &library.symbols {
        Some(table) => table,
        None => { return Ok(None); },
    };
    let count: usize = table.len();
    let mut i: usize = 0;
    while i < count
        invariant
            count == table@.len(),
            i <= count,
            fn_value_from(symbol_views(table@), fn_name@, 0) == fn_value_from(
                symbol_views(table@),
                fn_name@,
                i as int,
            ),
            library@.symbols == Some(symbol_views(table@)),
        decreases count - i,
    {
        assert(symbol_views(table@)[i as int] == table@[i as int]@);
        match &table[i].name {
            Some(found) => {
                if *found == *fn_name && table[i].st_type == STT_FUNC {
                    return Ok(Some(low32_of(table[i].st_value)));
                }
            },
            None => { return Err(ConvertError::SymbolName); },
        }
        i += 1;
    }
    Ok(None)
}

/// Finds the names of the shared libraries that an object depends on. The names
/// have their file extension.
///
/// There are none to be had where the dynamic section cannot be read or does
/// not give a string table.
pub fn get_shared_library_deps(dynamic: &Option<Vec<DynamicEntry>>, file: &[u8]) -> (deps: Result<
    Option<Vec<String>>,
    ConvertError,
>)
    ensures
        match deps {
            Ok(names) => library_names(optional(*dynamic), file@) == Ok::<
                Option<Seq<Seq<char>>>,
                ConvertError,
            >(optional_texts(names)),
            Err(e) => library_names(optional(*dynamic), file@) == Err::<
                Option<Seq<Seq<char>>>,
                ConvertError,
            >(e),
        },
{
    let entries: &Vec<DynamicEntry> = match dynamic {
        Some(entries) => entries,
        None => { return Ok(None); },
    };
    let count: usize = entries.len();
    let mut found: Option<usize> = None;
    let mut i: usize = 0;
    while i < count
        invariant
            count == entries@.len(),
            i <= count,
            match found {
                Some(offset) => string_table(entries@.take(i as int)) == Some(offset as int),
                None => string_table(entries@.take(i as int)) is None,
            },
        decreases count - i,
    {
        assert(entries@.take(i + 1).drop_last() =~= entries@.take(i as int));
        if entries[i].d_tag == DT_STRTAB {
            let address: u64 = entries[i].d_val;
            assert((address & 0x0FFF_FFFF) | 0x1000 <= 0x0FFF_FFFF) by (bit_vector);
            found = Some(((address & 0x0FFF_FFFF) | 0x1000) as usize);
        }
        i += 1;
    }
    assert(entries@.take(count as int) =~= entries@);
    let start: usize = match found {
        Some(start) => start,
        None => { return Ok(None); },
    };
    if start > file.len() {
        return Err(ConvertError::DynamicStringTable);
    }
    let table: &[u8] = slice_subrange(file, start, file.len());
    let mut names: Vec<String> = Vec::new();
    let mut k: usize = 0;
    while k < count
        invariant
            count == entries@.len(),
            k <= count,
            texts(names@) == needed_names(entries@.take(k as int), table@),
        decreases count - k,
    {
        assert(entries@.take(k + 1).drop_last() =~= entries@.take(k as int));
        if entries[k].d_tag == DT_NEEDED {
            #[verifier::truncate]
            let offset: usize = entries[k].d_val as usize;
            if let Some(name) = string_at(table, offset) {
                let ghost before = texts(names@);
                names.push(name);
                assert(texts(names@) =~= before.push(name@));
            }
        }
        k += 1;
    }
    Ok(Some(names))
}

} // verus!
