//! Which places to fill in are listed, by the relocations and the symbols of an
//! object, and what is written of them.
use crate::abi::{STB_GLOBAL, STT_FUNC};
use crate::error::ConvertError;
use crate::object::{ElfView, Rel, SectionView, SharedLibraryView, SymbolView};
use crate::relocs::{
    dynamic_fn_names, fn_relocs, global_fn_names, got_entry, occurrences, provider_from,
    reloc_tables, reloc_text, relocation_text, relocs_of_rel, relocs_of_rels, tables_text,
    text_rels, AppFuncRelocView, RelocTable, ShLibFnRelocView,
};
use crate::symbols::section_named;
use crate::tables::table_is_for_first_place;
use crate::text::hex;
use crate::util::{le32_at, low32};
use vstd::prelude::*;

verus! {

/// The names of global functions are in the order of the symbols. A symbol gives its
/// name exactly if it is a function that every object can see, and no list exists if
/// such a name cannot be read.
pub proof fn global_names_are_in_order(
    first: Seq<SymbolView>,
    second: Seq<SymbolView>,
    symbol: SymbolView,
)
    ensures
        global_fn_names(Seq::empty()) == Some(Seq::<Seq<char>>::empty()),
        global_fn_names(first + second) == match (
            global_fn_names(first),
            global_fn_names(second),
        ) {
            (Some(a), Some(b)) => Some(a + b),
            _ => None,
        },
        global_fn_names(seq![symbol]) == if symbol.st_type == STT_FUNC && symbol.st_bind
            == STB_GLOBAL {
            match symbol.name {
                Some(name) => Some(seq![name]),
                None => None,
            }
        } else {
            Some(Seq::empty())
        },
        dynamic_fn_names(None) == Some(Seq::<Seq<char>>::empty()),
        dynamic_fn_names(Some(first)) == global_fn_names(first),
    decreases second.len(),
{
    let one = seq![symbol];
    assert(one.drop_last() =~= Seq::<SymbolView>::empty());
    assert(global_fn_names(one.drop_last()) == Some(Seq::<Seq<char>>::empty()));
    if let Some(name) = symbol.name {
        assert(Seq::<Seq<char>>::empty().push(name) =~= seq![name]);
    }
    let both = first + second;
    if second.len() == 0 {
        assert(both =~= first);
        if let Some(a) = global_fn_names(first) {
            assert(a + Seq::<Seq<char>>::empty() =~= a);
        }
    } else {
        global_names_are_in_order(first, second.drop_last(), symbol);
        assert(both.drop_last() =~= first + second.drop_last());
        assert(both.last() == second.last());
        if let (Some(a), Some(b)) = (global_fn_names(first), global_fn_names(second)) {
            assert(global_fn_names(both)->0 =~= a + b);
        }
    }
}

/// A name is counted once for each time that it is in a list.
pub proof fn names_are_counted(
    first: Seq<Seq<char>>,
    second: Seq<Seq<char>>,
    one: Seq<char>,
    name: Seq<char>,
)
    ensures
        occurrences(Seq::empty(), name) == 0,
        occurrences(first + second, name) == occurrences(first, name) + occurrences(second, name),
        occurrences(seq![one], name) == if one == name {
            1nat
        } else {
            0nat
        },
    decreases second.len(),
{
    let single = seq![one];
    assert(single.drop_last() =~= Seq::<Seq<char>>::empty());
    assert(occurrences(single.drop_last(), name) == 0);
    if second.len() == 0 {
        assert(first + second =~= first);
    } else {
        names_are_counted(first, second.drop_last(), one, name);
        assert((first + second).drop_last() =~= first + second.drop_last());
        assert((first + second).last() == second.last());
    }
}

proof fn name_in_list_is_counted(names: Seq<Seq<char>>, name: Seq<char>)
    ensures
        occurrences(names, name) > 0 <==> names.contains(name),
    decreases names.len(),
{
    if names.len() > 0 {
        let rest = names.drop_last();
        name_in_list_is_counted(rest, name);
        if rest.contains(name) {
            let i = choose|i: int| 0 <= i < rest.len() && rest[i] == name;
            assert(names[i] == name);
        }
        if names.last() == name {
            assert(names[names.len() - 1] == name);
        } else if names.contains(name) {
            let i = choose|i: int| 0 <= i < names.len() && names[i] == name;
            assert(rest[i] == name);
        }
    }
}

/// Whether a symbol is a function of a name that every object can see.
pub open spec fn is_shared_fn(symbol: SymbolView, name: Seq<char>) -> bool {
    symbol.st_type == STT_FUNC && symbol.st_bind == STB_GLOBAL && symbol.name == Some(name)
}

proof fn listed_name_is_of_symbol(symbols: Seq<SymbolView>, name: Seq<char>)
    requires
        global_fn_names(symbols) is Some,
    ensures
        (global_fn_names(symbols)->0).contains(name) <==> exists|m: int|
            0 <= m < symbols.len() && is_shared_fn(#[trigger] symbols[m], name),
    decreases symbols.len(),
{
    if symbols.len() > 0 {
        let rest = symbols.drop_last();
        let names = global_fn_names(symbols)->0;
        let before = global_fn_names(rest)->0;
        listed_name_is_of_symbol(rest, name);
        assert(symbols[symbols.len() - 1] == symbols.last());
        if before.contains(name) {
            let i = choose|i: int| 0 <= i < before.len() && before[i] == name;
            assert(names[i] == name);
            let m = choose|m: int| 0 <= m < rest.len() && is_shared_fn(#[trigger] rest[m], name);
            assert(is_shared_fn(symbols[m], name));
        }
        if is_shared_fn(symbols.last(), name) {
            assert(names[names.len() - 1] == name);
        } else {
            if names.contains(name) {
                let i = choose|i: int| 0 <= i < names.len() && names[i] == name;
                assert(before[i] == name);
            }
            if exists|m: int| 0 <= m < symbols.len() && is_shared_fn(#[trigger] symbols[m], name) {
                let m = choose|m: int|
                    0 <= m < symbols.len() && is_shared_fn(#[trigger] symbols[m], name);
                assert(is_shared_fn(rest[m], name));
            }
        }
    }
}

proof fn relocs_have_those_of_rel(
    sections: Seq<SectionView>,
    symbols: Seq<SymbolView>,
    names: Seq<Seq<char>>,
    file: Seq<u8>,
    rels: Seq<Rel>,
    got_start: int,
    k: int,
)
    requires
        relocs_of_rels(sections, symbols, names, file, rels, got_start) is Ok,
        0 <= k < rels.len(),
    ensures
        relocs_of_rel(sections, symbols, names, file, rels[k], got_start) is Ok,
        forall|i: int|
            0 <= i < relocs_of_rel(
                sections,
                symbols,
                names,
                file,
                rels[k],
                got_start,
            )->Ok_0.len() ==> relocs_of_rels(
                sections,
                symbols,
                names,
                file,
                rels,
                got_start,
            )->Ok_0.contains(
                #[trigger] relocs_of_rel(
                    sections,
                    symbols,
                    names,
                    file,
                    rels[k],
                    got_start,
                )->Ok_0[i],
            ),
    decreases rels.len(),
{
    let rest = rels.drop_last();
    let all = relocs_of_rels(sections, symbols, names, file, rels, got_start)->Ok_0;
    let before = relocs_of_rels(sections, symbols, names, file, rest, got_start)->Ok_0;
    let own = relocs_of_rel(sections, symbols, names, file, rels[k], got_start);
    if k < rels.len() - 1 {
        relocs_have_those_of_rel(sections, symbols, names, file, rest, got_start, k);
        assert(rest[k] == rels[k]);
        assert forall|i: int| 0 <= i < own->Ok_0.len() implies all.contains(
            #[trigger] own->Ok_0[i],
        ) by {
            assert(before.contains(own->Ok_0[i]));
            let j = choose|j: int| 0 <= j < before.len() && before[j] == own->Ok_0[i];
            assert(all[j] == own->Ok_0[i]);
        }
    } else {
        assert(rels[k] == rels.last());
        assert forall|i: int| 0 <= i < own->Ok_0.len() implies all.contains(
            #[trigger] own->Ok_0[i],
        ) by {
            assert(all[before.len() + i] == own->Ok_0[i]);
        }
    }
}

proof fn relocs_are_those_of_rels(
    sections: Seq<SectionView>,
    symbols: Seq<SymbolView>,
    names: Seq<Seq<char>>,
    file: Seq<u8>,
    rels: Seq<Rel>,
    got_start: int,
    e: int,
)
    requires
        relocs_of_rels(sections, symbols, names, file, rels, got_start) is Ok,
        0 <= e < relocs_of_rels(
            sections,
            symbols,
            names,
            file,
            rels,
            got_start,
        )->Ok_0.len(),
    ensures
        exists|k: int|
            {
                let own = relocs_of_rel(
                    sections,
                    symbols,
                    names,
                    file,
                    #[trigger] rels[k],
                    got_start,
                );
                &&& 0 <= k < rels.len()
                &&& own is Ok
                &&& own->Ok_0.contains(
                    relocs_of_rels(sections, symbols, names, file, rels, got_start)->Ok_0[e],
                )
            },
    decreases rels.len(),
{
    let rest = rels.drop_last();
    let all = relocs_of_rels(sections, symbols, names, file, rels, got_start)->Ok_0;
    let before = relocs_of_rels(sections, symbols, names, file, rest, got_start)->Ok_0;
    if e < before.len() {
        relocs_are_those_of_rels(sections, symbols, names, file, rest, got_start, e);
        let k = choose|k: int|
            {
                let own = relocs_of_rel(
                    sections,
                    symbols,
                    names,
                    file,
                    #[trigger] rest[k],
                    got_start,
                );
                &&& 0 <= k < rest.len()
                &&& own is Ok
                &&& own->Ok_0.contains(before[e])
            };
        assert(rels[k] == rest[k]);
    } else {
        let last = relocs_of_rel(sections, symbols, names, file, rels.last(), got_start)->Ok_0;
        assert(last[e - before.len()] == all[e]);
        assert(rels[rels.len() - 1] == rels.last());
    }
}

/// Every relocation of the code whose symbol has the name of a function that the
/// dynamic symbols share gives a place to fill in: the function, and the address in
/// the global offset table that the word at the relocated place is the offset of.
pub proof fn relocation_gives_entry(
    object: ElfView,
    file: Seq<u8>,
    got_start: int,
    table: SectionView,
    k: int,
    m: int,
)
    requires
        fn_relocs(object, file, got_start) is Ok,
        section_named(object.sections, ".rel.text"@) == Some(table),
        table.rels is Some,
        0 <= k < (table.rels->0).len(),
        object.symbols is Some,
        (table.rels->0)[k].r_sym < (object.symbols->0).len(),
        (object.symbols->0)[(table.rels->0)[k].r_sym as int].name is Some,
        object.dynamic_symbols is Some,
        0 <= m < (object.dynamic_symbols->0).len(),
        (object.dynamic_symbols->0)[m].st_type == STT_FUNC,
        (object.dynamic_symbols->0)[m].st_bind == STB_GLOBAL,
        (object.dynamic_symbols->0)[m].name == (object.symbols->0)[(
        table.rels->0)[k].r_sym as int].name,
    ensures
        section_named(object.sections, ".text"@) is Some,
        ({
            let rel = (table.rels->0)[k];
            let code = section_named(object.sections, ".text"@)->0;
            let at = rel.r_offset - code.header.sh_addr + code.header.sh_offset;
            let address = low32(got_start) + le32_at(file, at);
            &&& code.header.sh_addr <= rel.r_offset
            &&& at + 4 <= file.len()
            &&& address <= u32::MAX
            &&& fn_relocs(object, file, got_start)->Ok_0.contains(
                AppFuncRelocView {
                    fn_name: (object.symbols->0)[rel.r_sym as int].name->0,
                    app_got_addr: address as u32,
                },
            )
        }),
{
    let rels = table.rels->0;
    let symbols = object.symbols->0;
    let dynamic = object.dynamic_symbols->0;
    let rel = rels[k];
    let name = symbols[rel.r_sym as int].name->0;
    let names = global_fn_names(dynamic)->0;
    assert(is_shared_fn(dynamic[m], name));
    listed_name_is_of_symbol(dynamic, name);
    name_in_list_is_counted(names, name);
    relocs_have_those_of_rel(object.sections, symbols, names, file, rels, got_start, k);
    let own = relocs_of_rel(object.sections, symbols, names, file, rel, got_start);
    assert(got_entry(object.sections, file, rel, got_start) is Ok);
    let address = got_entry(object.sections, file, rel, got_start)->Ok_0;
    assert(own->Ok_0.len() > 0);
    assert(own->Ok_0[0] == AppFuncRelocView { fn_name: name, app_got_addr: address });
}

/// Every place to fill in comes of such a relocation.
pub proof fn entry_comes_of_relocation(object: ElfView, file: Seq<u8>, got_start: int, e: int)
    requires
        fn_relocs(object, file, got_start) is Ok,
        0 <= e < fn_relocs(object, file, got_start)->Ok_0.len(),
    ensures
        section_named(object.sections, ".rel.text"@) is Some,
        section_named(object.sections, ".text"@) is Some,
        ({
            let entry = fn_relocs(object, file, got_start)->Ok_0[e];
            let rels = (section_named(object.sections, ".rel.text"@)->0).rels->0;
            let code = section_named(object.sections, ".text"@)->0;
            let symbols = object.symbols->0;
            let dynamic = object.dynamic_symbols->0;
            exists|k: int, m: int|
                {
                    let rel = #[trigger] rels[k];
                    let at = rel.r_offset - code.header.sh_addr + code.header.sh_offset;
                    &&& 0 <= k < rels.len()
                    &&& 0 <= m < dynamic.len()
                    &&& rel.r_sym < symbols.len()
                    &&& symbols[rel.r_sym as int].name == Some(entry.fn_name)
                    &&& (#[trigger] dynamic[m]).st_type == STT_FUNC
                    &&& dynamic[m].st_bind == STB_GLOBAL
                    &&& dynamic[m].name == Some(entry.fn_name)
                    &&& entry.app_got_addr == low32(got_start) + le32_at(file, at)
                }
        }),
{
    let symbols = object.symbols->0;
    let sections = object.sections;
    let rels = text_rels(sections);
    let names = dynamic_fn_names(object.dynamic_symbols)->0;
    let entry = fn_relocs(object, file, got_start)->Ok_0[e];
    relocs_are_those_of_rels(sections, symbols, names, file, rels, got_start, e);
    let k = choose|k: int|
        {
            let own = relocs_of_rel(sections, symbols, names, file, #[trigger] rels[k], got_start);
            &&& 0 <= k < rels.len()
            &&& own is Ok
            &&& own->Ok_0.contains(entry)
        };
    let rel = rels[k];
    let own = relocs_of_rel(sections, symbols, names, file, rel, got_start)->Ok_0;
    let i = choose|i: int| 0 <= i < own.len() && own[i] == entry;
    assert(own[i] == entry);
    assert(occurrences(names, entry.fn_name) > 0);
    name_in_list_is_counted(names, entry.fn_name);
    if object.dynamic_symbols is Some {
        let dynamic = object.dynamic_symbols->0;
        listed_name_is_of_symbol(dynamic, entry.fn_name);
        let m = choose|m: int|
            0 <= m < dynamic.len() && is_shared_fn(#[trigger] dynamic[m], entry.fn_name);
        assert(dynamic[m].st_type == STT_FUNC);
        assert(rels == (section_named(sections, ".rel.text"@)->0).rels->0);
        assert(rels[k] == rel);
    } else {
        assert(names =~= Seq::<Seq<char>>::empty());
    }
}

/// The places to fill in are in the order of the relocations. A relocation gives as
/// many as there are dynamic functions of the name of its symbol, all alike.
pub proof fn entries_are_in_order(
    sections: Seq<SectionView>,
    symbols: Seq<SymbolView>,
    names: Seq<Seq<char>>,
    file: Seq<u8>,
    first: Seq<Rel>,
    second: Seq<Rel>,
    rel: Rel,
    got_start: int,
)
    requires
        relocs_of_rels(sections, symbols, names, file, first, got_start) is Ok,
        relocs_of_rels(sections, symbols, names, file, second, got_start) is Ok,
    ensures
        relocs_of_rels(sections, symbols, names, file, first + second, got_start) == Ok::<
            Seq<AppFuncRelocView>,
            ConvertError,
        >(
            relocs_of_rels(sections, symbols, names, file, first, got_start)->Ok_0
                + relocs_of_rels(sections, symbols, names, file, second, got_start)->Ok_0,
        ),
        relocs_of_rels(sections, symbols, names, file, seq![rel], got_start) == relocs_of_rel(
            sections,
            symbols,
            names,
            file,
            rel,
            got_start,
        ),
        relocs_of_rel(sections, symbols, names, file, rel, got_start) matches Ok(own) ==> {
            &&& rel.r_sym < symbols.len()
            &&& symbols[rel.r_sym as int].name is Some
            &&& own.len() == occurrences(names, symbols[rel.r_sym as int].name->0)
            &&& forall|i: int| 0 <= i < own.len() ==> #[trigger] own[i] == own[0]
        },
    decreases second.len(),
{
    let one = seq![rel];
    let none = Seq::<AppFuncRelocView>::empty();
    assert(one.drop_last() =~= Seq::<Rel>::empty());
    assert(relocs_of_rels(sections, symbols, names, file, one.drop_last(), got_start) == Ok::<
        Seq<AppFuncRelocView>,
        ConvertError,
    >(none));
    if let Ok(own) = relocs_of_rel(sections, symbols, names, file, rel, got_start) {
        assert(none + own =~= own);
    }
    let both = first + second;
    let a = relocs_of_rels(sections, symbols, names, file, first, got_start)->Ok_0;
    let b = relocs_of_rels(sections, symbols, names, file, second, got_start)->Ok_0;
    if second.len() == 0 {
        assert(both =~= first);
        assert(a + none =~= a);
    } else {
        entries_are_in_order(
            sections,
            symbols,
            names,
            file,
            first,
            second.drop_last(),
            rel,
            got_start,
        );
        assert(both.drop_last() =~= first + second.drop_last());
        assert(both.last() == second.last());
        assert(relocs_of_rels(sections, symbols, names, file, both, got_start)->Ok_0 =~= a + b);
    }
}

/// The places to fill in of an object are those of the relocations of its code, for
/// its symbols and the names of its dynamic functions.
pub proof fn entries_are_those_of_code(object: ElfView, file: Seq<u8>, got_start: int)
    requires
        fn_relocs(object, file, got_start) is Ok,
    ensures
        object.symbols is Some,
        dynamic_fn_names(object.dynamic_symbols) is Some,
        ({
            let rels = match section_named(object.sections, ".rel.text"@) {
                Some(table) => match table.rels {
                    Some(rels) => rels,
                    None => Seq::<Rel>::empty(),
                },
                None => Seq::<Rel>::empty(),
            };
            fn_relocs(object, file, got_start) == relocs_of_rels(
                object.sections,
                object.symbols->0,
                dynamic_fn_names(object.dynamic_symbols)->0,
                file,
                rels,
                got_start,
            )
        }),
{
}

proof fn rels_fail_for_reason(
    sections: Seq<SectionView>,
    symbols: Seq<SymbolView>,
    names: Seq<Seq<char>>,
    file: Seq<u8>,
    rels: Seq<Rel>,
    got_start: int,
)
    requires
        relocs_of_rels(sections, symbols, names, file, rels, got_start) is Err,
    ensures
        exists|k: int|
            0 <= k < rels.len() && relocs_of_rel(
                sections,
                symbols,
                names,
                file,
                #[trigger] rels[k],
                got_start,
            ) == relocs_of_rels(sections, symbols, names, file, rels, got_start),
    decreases rels.len(),
{
    let rest = rels.drop_last();
    if relocs_of_rels(sections, symbols, names, file, rest, got_start) is Err {
        rels_fail_for_reason(sections, symbols, names, file, rest, got_start);
        let k = choose|k: int|
            0 <= k < rest.len() && relocs_of_rel(
                sections,
                symbols,
                names,
                file,
                #[trigger] rest[k],
                got_start,
            ) == relocs_of_rels(sections, symbols, names, file, rest, got_start);
        assert(rels[k] == rest[k]);
    } else {
        assert(rels[rels.len() - 1] == rels.last());
    }
}

/// Whether a relocation is for a function of the names.
pub open spec fn is_wanted(symbols: Seq<SymbolView>, names: Seq<Seq<char>>, rel: Rel) -> bool {
    rel.r_sym < symbols.len() && symbols[rel.r_sym as int].name is Some && names.contains(
        symbols[rel.r_sym as int].name->0,
    )
}

/// The places to fill in cannot be listed only for a reason that the object shows: a
/// symbol table or a name that cannot be read, a relocation for a symbol that is not
/// there, or, for a relocation of a dynamic function, code that cannot be read or an
/// address that cannot be told.
pub proof fn entries_fail_for_reason(object: ElfView, file: Seq<u8>, got_start: int)
    requires
        fn_relocs(object, file, got_start) is Err,
    ensures
        ({
            let symbols = object.symbols->0;
            let names = dynamic_fn_names(object.dynamic_symbols)->0;
            let rels = (section_named(object.sections, ".rel.text"@)->0).rels->0;
            let code = section_named(object.sections, ".text"@);
            match fn_relocs(object, file, got_start)->Err_0 {
                ConvertError::NoSymbolTable => object.symbols is None,
                ConvertError::SymbolName => {
                    ||| dynamic_fn_names(object.dynamic_symbols) is None
                    ||| exists|k: int|
                        0 <= k < rels.len() && (#[trigger] rels[k]).r_sym < symbols.len()
                            && symbols[rels[k].r_sym as int].name is None
                },
                ConvertError::SymbolIndex => exists|k: int|
                    0 <= k < rels.len() && (#[trigger] rels[k]).r_sym >= symbols.len(),
                error => exists|k: int|
                    {
                        let rel = #[trigger] rels[k];
                        let at = rel.r_offset - (code->0).header.sh_addr + (
                        code->0).header.sh_offset;
                        &&& 0 <= k < rels.len()
                        &&& is_wanted(symbols, names, rel)
                        &&& match error {
                            ConvertError::NoText => code is None || (code->0).data is None,
                            ConvertError::NoGlobalOffsetTable => section_named(
                                object.sections,
                                ".got"@,
                            ) is None,
                            ConvertError::RelocationTarget => at + 4 > file.len(),
                            ConvertError::Overflow => rel.r_offset < (code->0).header.sh_addr
                                || at > u64::MAX || (at + 4 <= file.len() && low32(got_start)
                                + le32_at(file, at) > u32::MAX),
                            _ => false,
                        }
                    },
            }
        }),
{
    if dynamic_fn_names(object.dynamic_symbols) is Some && object.symbols is Some {
        let symbols = object.symbols->0;
        let names = dynamic_fn_names(object.dynamic_symbols)->0;
        let rels = text_rels(object.sections);
        rels_fail_for_reason(object.sections, symbols, names, file, rels, got_start);
        let k = choose|k: int|
            0 <= k < rels.len() && relocs_of_rel(
                object.sections,
                symbols,
                names,
                file,
                #[trigger] rels[k],
                got_start,
            ) == relocs_of_rels(object.sections, symbols, names, file, rels, got_start);
        let rel = rels[k];
        assert(rels == (section_named(object.sections, ".rel.text"@)->0).rels->0);
        if rel.r_sym < symbols.len() && symbols[rel.r_sym as int].name is Some {
            name_in_list_is_counted(names, symbols[rel.r_sym as int].name->0);
            assert(is_wanted(symbols, names, rel));
        }
    }
}

/// The table for a place to fill in has five lines: the function, the app, the
/// address, the library, and where the function is in it.
pub proof fn table_has_five_lines(
    reloc: AppFuncRelocView,
    package_name: Seq<char>,
    provider: ShLibFnRelocView,
)
    ensures
        ({
            let quote = seq!['"'];
            let end = seq!['\n'];
            reloc_text(reloc, package_name, provider) == (seq!['['] + reloc.fn_name + seq![']']
                + end) + ("app_name = "@ + quote + package_name + quote + end) + (
            "app_got_addr = 0x"@ + hex(reloc.app_got_addr as nat) + end) + ("lib_name = "@ + quote
                + provider.lib_name + quote + end) + ("lib_func_offset = 0x"@ + hex(
                provider.lib_fn_offset as nat,
            ) + end)
        }),
{
    reveal_strlit("[");
    reveal_strlit("]\napp_name = \"");
    reveal_strlit("\"\napp_got_addr = 0x");
    reveal_strlit("\nlib_name = \"");
    reveal_strlit("\"\nlib_func_offset = 0x");
    reveal_strlit("\n");
    reveal_strlit("app_name = ");
    reveal_strlit("app_got_addr = 0x");
    reveal_strlit("lib_name = ");
    reveal_strlit("lib_func_offset = 0x");
    let quote = seq!['"'];
    let end = seq!['\n'];
    assert("["@ =~= seq!['[']);
    assert("]\napp_name = \""@ =~= seq![']'] + end + "app_name = "@ + quote);
    assert("\"\napp_got_addr = 0x"@ =~= quote + end + "app_got_addr = 0x"@);
    assert("\nlib_name = \""@ =~= end + "lib_name = "@ + quote);
    assert("\"\nlib_func_offset = 0x"@ =~= quote + end + "lib_func_offset = 0x"@);
    assert("\n"@ =~= end);
    assert(reloc_text(reloc, package_name, provider) =~= (seq!['['] + reloc.fn_name + seq![']']
        + end) + ("app_name = "@ + quote + package_name + quote + end) + ("app_got_addr = 0x"@
        + hex(reloc.app_got_addr as nat) + end) + ("lib_name = "@ + quote + provider.lib_name
        + quote + end) + ("lib_func_offset = 0x"@ + hex(provider.lib_fn_offset as nat) + end));
}

/// The text of tables is that of each, one after the other, and the relocation
/// information is the text of the tables.
pub proof fn text_is_that_of_tables(
    libraries: Seq<SharedLibraryView>,
    relocs: Seq<AppFuncRelocView>,
    first: Seq<RelocTable>,
    second: Seq<RelocTable>,
    table: RelocTable,
    package_name: Seq<char>,
)
    ensures
        tables_text(Seq::empty(), package_name) == Seq::<char>::empty(),
        tables_text(first + second, package_name) == tables_text(first, package_name)
            + tables_text(second, package_name),
        tables_text(seq![table], package_name) == reloc_text(
            table.reloc,
            package_name,
            table.provider,
        ),
        reloc_tables(libraries, relocs) matches Ok(tables) ==> relocation_text(
            libraries,
            relocs,
            package_name,
        ) == Ok::<Seq<char>, ConvertError>(tables_text(tables, package_name)),
    decreases second.len(),
{
    let one = seq![table];
    let none = Seq::<char>::empty();
    assert(one.drop_last() =~= Seq::<RelocTable>::empty());
    assert(tables_text(one.drop_last(), package_name) =~= none);
    let text = reloc_text(table.reloc, package_name, table.provider);
    assert(none + text =~= text);
    let both = first + second;
    if second.len() == 0 {
        assert(both =~= first);
        assert(tables_text(first, package_name) + tables_text(second, package_name)
            =~= tables_text(first, package_name));
    } else {
        text_is_that_of_tables(libraries, relocs, first, second.drop_last(), table, package_name);
        assert(both.drop_last() =~= first + second.drop_last());
        assert(both.last() == second.last());
        assert(tables_text(both, package_name) =~= tables_text(first, package_name)
            + tables_text(second, package_name));
    }
}

/// The tables are in the order of the places to fill in.
pub proof fn tables_are_in_order(
    libraries: Seq<SharedLibraryView>,
    relocs: Seq<AppFuncRelocView>,
    s: int,
    t: int,
)
    requires
        reloc_tables(libraries, relocs) is Ok,
        0 <= s < t < reloc_tables(libraries, relocs)->Ok_0.len(),
    ensures
        exists|i: int, j: int|
            {
                &&& 0 <= i < j < relocs.len()
                &&& #[trigger] relocs[i] == reloc_tables(libraries, relocs)->Ok_0[s].reloc
                &&& #[trigger] relocs[j] == reloc_tables(libraries, relocs)->Ok_0[t].reloc
            },
    decreases relocs.len(),
{
    let rest = relocs.drop_last();
    let tables = reloc_tables(libraries, relocs)->Ok_0;
    let before = reloc_tables(libraries, rest)->Ok_0;
    if t < before.len() {
        tables_are_in_order(libraries, rest, s, t);
        let (i, j) = choose|i: int, j: int|
            {
                &&& 0 <= i < j < rest.len()
                &&& #[trigger] rest[i] == before[s].reloc
                &&& #[trigger] rest[j] == before[t].reloc
            };
        assert(relocs[i] == rest[i] && relocs[j] == rest[j]);
    } else {
        table_is_for_first_place(libraries, rest, s);
        let i = choose|i: int|
            {
                &&& 0 <= i < rest.len()
                &&& #[trigger] rest[i] == before[s].reloc
                &&& forall|j: int|
                    0 <= j < i ==> (#[trigger] rest[j]).fn_name != before[s].reloc.fn_name
            };
        assert(relocs[i] == rest[i]);
        assert(relocs[relocs.len() - 1] == tables[t].reloc);
    }
}

/// The relocation information cannot be written only if a library cannot be searched
/// for one of the functions.
pub proof fn text_fails_for_reason(
    libraries: Seq<SharedLibraryView>,
    relocs: Seq<AppFuncRelocView>,
    package_name: Seq<char>,
)
    requires
        relocation_text(libraries, relocs, package_name) is Err,
    ensures
        exists|i: int|
            0 <= i < relocs.len() && provider_from(
                libraries,
                (#[trigger] relocs[i]).fn_name,
                0,
            ) == Err::<Option<ShLibFnRelocView>, ConvertError>(
                relocation_text(libraries, relocs, package_name)->Err_0,
            ),
    decreases relocs.len(),
{
    let rest = relocs.drop_last();
    if reloc_tables(libraries, rest) is Err {
        text_fails_for_reason(libraries, rest, package_name);
        let i = choose|i: int|
            0 <= i < rest.len() && provider_from(
                libraries,
                (#[trigger] rest[i]).fn_name,
                0,
            ) == Err::<Option<ShLibFnRelocView>, ConvertError>(
                relocation_text(libraries, rest, package_name)->Err_0,
            );
        assert(relocs[i] == rest[i]);
    } else {
        assert(relocs[relocs.len() - 1] == relocs.last());
    }
}

} // verus!
