//! Which symbols, sections and libraries are found, by the entries of the tables.
use crate::abi::{DT_NEEDED, DT_STRTAB, ET_DYN, STT_FUNC};
use crate::convert::dependencies_of;
use crate::error::ConvertError;
use crate::object::{ends_at, text_at, DynamicEntry, ElfView, SectionView, SymbolView};
use crate::symbols::{
    fn_value, fn_value_from, fn_value_is_first_function, is_fn_named, library_names, needed_names,
    section_index_is_first, section_named, string_table, symbol_value, symbol_value_from,
};
use vstd::prelude::*;
use vstd::utf8::*;

verus! {

/// A text in a string table is what the bytes up to the next zero byte encode, and
/// there is none exactly if there is no zero byte or the bytes are not UTF-8.
pub proof fn text_ends_at_zero(table: Seq<u8>, offset: int)
    requires
        0 <= offset,
    ensures
        match text_at(table, offset) {
            Some(text) => exists|end: int|
                {
                    &&& offset <= end < table.len()
                    &&& #[trigger] table[end] == 0
                    &&& forall|i: int| offset <= i < end ==> table[i] != 0
                    &&& valid_utf8(table.subrange(offset, end))
                    &&& text == decode_utf8(table.subrange(offset, end))
                },
            None => forall|end: int|
                {
                    &&& offset <= end < table.len()
                    &&& #[trigger] table[end] == 0
                    &&& forall|i: int| offset <= i < end ==> table[i] != 0
                } ==> !valid_utf8(table.subrange(offset, end)),
        },
{
    assert forall|end: int|
        {
            &&& offset <= end < table.len()
            &&& #[trigger] table[end] == 0
            &&& forall|i: int| offset <= i < end ==> table[i] != 0
        } implies ends_at(table, offset, end) && end == choose|e: int| ends_at(
        table,
        offset,
        e,
    ) by {
        assert(ends_at(table, offset, end));
        let e = choose|e: int| ends_at(table, offset, e);
        assert(ends_at(table, offset, e));
        if e < end {
            assert(table[e] != 0);
        } else if end < e {
            assert(table[end] != 0);
        }
    }
    if exists|e: int| ends_at(table, offset, e) {
        let e = choose|e: int| ends_at(table, offset, e);
        assert(table[e] == 0);
    }
}

/// The section of a name is the first of those that have it.
pub proof fn section_named_is_first(sections: Seq<SectionView>, name: Seq<char>)
    ensures
        match section_named(sections, name) {
            Some(section) => exists|i: int|
                {
                    &&& 0 <= i < sections.len()
                    &&& #[trigger] sections[i] == section
                    &&& section.name == name
                    &&& forall|j: int| 0 <= j < i ==> (#[trigger] sections[j]).name != name
                },
            None => forall|j: int|
                0 <= j < sections.len() ==> (#[trigger] sections[j]).name != name,
        },
{
    section_index_is_first(sections, name, 0);
}

proof fn symbol_value_from_is_first(symbols: Seq<SymbolView>, name: Seq<char>, from: int)
    requires
        0 <= from,
    ensures
        match symbol_value_from(symbols, name, from) {
            Ok(Some(value)) => exists|i: int|
                {
                    &&& from <= i < symbols.len()
                    &&& (#[trigger] symbols[i]).name == Some(name)
                    &&& symbols[i].st_value == value
                    &&& forall|j: int|
                        from <= j < i ==> (#[trigger] symbols[j]).name is Some && symbols[j].name
                            != Some(name)
                },
            Ok(None) => forall|j: int|
                from <= j < symbols.len() ==> (#[trigger] symbols[j]).name is Some
                    && symbols[j].name != Some(name),
            Err(e) => e == ConvertError::SymbolName && exists|i: int|
                {
                    &&& from <= i < symbols.len()
                    &&& (#[trigger] symbols[i]).name is None
                    &&& forall|j: int|
                        from <= j < i ==> (#[trigger] symbols[j]).name is Some && symbols[j].name
                            != Some(name)
                },
        },
    decreases symbols.len() - from,
{
    if from < symbols.len() && symbols[from].name is Some && symbols[from].name != Some(name) {
        symbol_value_from_is_first(symbols, name, from + 1);
    }
}

/// What is found as the value of a symbol is the low half of the value of the first
/// symbol of that name. Nothing is found exactly if no symbol has the name, and it
/// is an error exactly if a symbol without a readable name comes before.
pub proof fn symbol_value_is_first(symbols: Seq<SymbolView>, name: Seq<char>)
    ensures
        symbol_value(None, name) == Ok::<Option<u32>, ConvertError>(None),
        match symbol_value(Some(symbols), name) {
            Ok(Some(value)) => exists|i: int|
                {
                    &&& 0 <= i < symbols.len()
                    &&& (#[trigger] symbols[i]).name == Some(name)
                    &&& value == symbols[i].st_value % 0x1_0000_0000
                    &&& forall|j: int|
                        0 <= j < i ==> (#[trigger] symbols[j]).name is Some && symbols[j].name
                            != Some(name)
                },
            Ok(None) => forall|j: int|
                0 <= j < symbols.len() ==> (#[trigger] symbols[j]).name is Some && symbols[j].name
                    != Some(name),
            Err(e) => e == ConvertError::SymbolName && exists|i: int|
                {
                    &&& 0 <= i < symbols.len()
                    &&& (#[trigger] symbols[i]).name is None
                    &&& forall|j: int|
                        0 <= j < i ==> (#[trigger] symbols[j]).name is Some && symbols[j].name
                            != Some(name)
                },
        },
{
    symbol_value_from_is_first(symbols, name, 0);
    if let Ok(Some(value)) = symbol_value_from(symbols, name, 0) {
        let i = choose|i: int|
            {
                &&& 0 <= i < symbols.len()
                &&& (#[trigger] symbols[i]).name == Some(name)
                &&& symbols[i].st_value == value
                &&& forall|j: int|
                    0 <= j < i ==> (#[trigger] symbols[j]).name is Some && symbols[j].name != Some(
                        name,
                    )
            };
        assert(symbols[i].st_value == value);
    }
}

/// What is found as the address of a function is the low half of the value of the
/// first symbol that has the name and is a function.
pub proof fn fn_value_is_first(symbols: Seq<SymbolView>, name: Seq<char>)
    ensures
        fn_value(None, name) == Ok::<Option<u32>, ConvertError>(None),
        match fn_value(Some(symbols), name) {
            Ok(Some(value)) => exists|i: int|
                {
                    &&& 0 <= i < symbols.len()
                    &&& (#[trigger] symbols[i]).name == Some(name)
                    &&& symbols[i].st_type == STT_FUNC
                    &&& value == symbols[i].st_value % 0x1_0000_0000
                    &&& forall|j: int|
                        0 <= j < i ==> (#[trigger] symbols[j]).name is Some && !(symbols[j].name
                            == Some(name) && symbols[j].st_type == STT_FUNC)
                },
            Ok(None) => forall|j: int|
                0 <= j < symbols.len() ==> (#[trigger] symbols[j]).name is Some
                    && !(symbols[j].name == Some(name) && symbols[j].st_type == STT_FUNC),
            Err(e) => e == ConvertError::SymbolName && exists|i: int|
                {
                    &&& 0 <= i < symbols.len()
                    &&& (#[trigger] symbols[i]).name is None
                    &&& forall|j: int|
                        0 <= j < i ==> !((#[trigger] symbols[j]).name == Some(name)
                            && symbols[j].st_type == STT_FUNC)
                },
        },
{
    fn_value_is_first_function(symbols, name, 0);
    if let Ok(Some(value)) = fn_value_from(symbols, name, 0) {
        let i = choose|i: int|
            {
                &&& 0 <= i < symbols.len()
                &&& is_fn_named(#[trigger] symbols[i], name)
                &&& symbols[i].st_value == value
                &&& forall|j: int|
                    0 <= j < i ==> (#[trigger] symbols[j]).name is Some
                        && !is_fn_named(symbols[j], name)
            };
        assert(symbols[i].name == Some(name));
    }
    if fn_value_from(symbols, name, 0) is Err {
        let i = choose|i: int|
            {
                &&& 0 <= i < symbols.len()
                &&& (#[trigger] symbols[i]).name is None
                &&& forall|j: int|
                    0 <= j < i ==> !is_fn_named(#[trigger] symbols[j], name)
            };
        assert(symbols[i].name is None);
    }
}

/// The string table of a dynamic section is where the last entry for one says: at
/// its address without the highest four bits, and with the bit for the distance of
/// the table from it.
pub proof fn string_table_is_last(entries: Seq<DynamicEntry>)
    ensures
        match string_table(entries) {
            Some(offset) => exists|i: int|
                {
                    &&& 0 <= i < entries.len()
                    &&& (#[trigger] entries[i]).d_tag == DT_STRTAB
                    &&& offset == (entries[i].d_val & 0x0FFF_FFFF) | 0x1000
                    &&& forall|j: int|
                        i < j < entries.len() ==> (#[trigger] entries[j]).d_tag != DT_STRTAB
                },
            None => forall|j: int|
                0 <= j < entries.len() ==> (#[trigger] entries[j]).d_tag != DT_STRTAB,
        },
    decreases entries.len(),
{
    if entries.len() > 0 {
        let rest = entries.drop_last();
        string_table_is_last(rest);
        assert(entries[entries.len() - 1] == entries.last());
        assert forall|j: int| 0 <= j < rest.len() implies rest[j] == #[trigger] entries[j] by {}
        if entries.last().d_tag != DT_STRTAB && string_table(rest) is Some {
            let offset = string_table(rest)->0;
            let i = choose|i: int|
                {
                    &&& 0 <= i < rest.len()
                    &&& (#[trigger] rest[i]).d_tag == DT_STRTAB
                    &&& offset == (rest[i].d_val & 0x0FFF_FFFF) | 0x1000
                    &&& forall|j: int|
                        i < j < rest.len() ==> (#[trigger] rest[j]).d_tag != DT_STRTAB
                };
            assert(entries[i] == rest[i]);
            assert forall|j: int| i < j < entries.len() implies (#[trigger] entries[j]).d_tag
                != DT_STRTAB by {
                if j < rest.len() {
                    assert(rest[j].d_tag != DT_STRTAB);
                }
            }
        }
    }
}

/// Each entry for a needed library whose name can be read gives that name, no other
/// entry gives any, and the names are in the order of the entries.
pub proof fn needed_names_come_of_entries(
    before: Seq<DynamicEntry>,
    entry: DynamicEntry,
    after: Seq<DynamicEntry>,
    table: Seq<u8>,
)
    ensures
        needed_names(Seq::empty(), table) == Seq::<Seq<char>>::empty(),
        needed_names(before + after, table) == needed_names(before, table) + needed_names(
            after,
            table,
        ),
        needed_names(seq![entry], table) == if entry.d_tag == DT_NEEDED {
            match text_at(table, (entry.d_val as usize) as int) {
                Some(name) => seq![name],
                None => Seq::empty(),
            }
        } else {
            Seq::empty()
        },
    decreases after.len(),
{
    let one = seq![entry];
    assert(one.drop_last() =~= Seq::<DynamicEntry>::empty());
    assert(needed_names(one.drop_last(), table) =~= Seq::<Seq<char>>::empty());
    if entry.d_tag == DT_NEEDED {
        if let Some(name) = text_at(table, (entry.d_val as usize) as int) {
            assert(needed_names(one, table) =~= seq![name]);
        }
    }
    if after.len() == 0 {
        assert(before + after =~= before);
        assert(needed_names(before, table) + needed_names(after, table) =~= needed_names(
            before,
            table,
        ));
    } else {
        needed_names_come_of_entries(before, entry, after.drop_last(), table);
        assert((before + after).drop_last() =~= before + after.drop_last());
        assert((before + after).last() == after.last());
        assert(needed_names(before + after, table) =~= needed_names(before, table) + needed_names(
            after,
            table,
        ));
    }
}

/// The needed libraries of an object are told exactly if it has a dynamic section
/// with a string table that starts in the file. The names are in the table.
pub proof fn library_names_are_in_last_table(entries: Seq<DynamicEntry>, file: Seq<u8>, i: int)
    requires
        0 <= i < entries.len(),
        entries[i].d_tag == DT_STRTAB,
        forall|j: int| i < j < entries.len() ==> (#[trigger] entries[j]).d_tag != DT_STRTAB,
    ensures
        ({
            let offset = ((entries[i].d_val & 0x0FFF_FFFF) | 0x1000) as int;
            if offset <= file.len() {
                library_names(Some(entries), file) == Ok::<Option<Seq<Seq<char>>>, ConvertError>(
                    Some(needed_names(entries, file.skip(offset))),
                )
            } else {
                library_names(Some(entries), file) == Err::<Option<Seq<Seq<char>>>, ConvertError>(
                    ConvertError::DynamicStringTable,
                )
            }
        }),
{
    string_table_is_last(entries);
    let k = choose|k: int|
        {
            &&& 0 <= k < entries.len()
            &&& (#[trigger] entries[k]).d_tag == DT_STRTAB
            &&& string_table(entries)->0 == (entries[k].d_val & 0x0FFF_FFFF) | 0x1000
            &&& forall|j: int|
                k < j < entries.len() ==> (#[trigger] entries[j]).d_tag != DT_STRTAB
        };
    assert(entries[i].d_tag == DT_STRTAB);
    assert(string_table(entries) is Some);
    assert(k == i);
    let offset = ((entries[i].d_val & 0x0FFF_FFFF) | 0x1000) as int;
    if offset <= file.len() {
        assert(file.subrange(offset, file.len() as int) =~= file.skip(offset));
    }
}

/// Without a dynamic section, or without a string table in it, no needed libraries
/// can be told, and that is no error. A shared library is not asked.
pub proof fn libraries_that_cannot_be_told(
    object: ElfView,
    entries: Seq<DynamicEntry>,
    file: Seq<u8>,
)
    ensures
        library_names(None, file) == Ok::<Option<Seq<Seq<char>>>, ConvertError>(None),
        (forall|j: int| 0 <= j < entries.len() ==> (#[trigger] entries[j]).d_tag != DT_STRTAB)
            ==> library_names(Some(entries), file) == Ok::<Option<Seq<Seq<char>>>, ConvertError>(
            None,
        ),
        object.header.e_type == ET_DYN ==> dependencies_of(object, file) == Ok::<
            Option<Seq<Seq<char>>>,
            ConvertError,
        >(None),
        object.header.e_type != ET_DYN ==> dependencies_of(object, file) == library_names(
            object.dynamic,
            file,
        ),
{
    string_table_is_last(entries);
}

} // verus!
