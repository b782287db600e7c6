//! What holds of the tables in the relocation information.
use crate::laws::provider_is_first;
use crate::object::SharedLibraryView;
use crate::relocs::{
    is_for, provider_from, reloc_tables, reloc_text, relocation_text, tables_text,
    AppFuncRelocView, RelocTable, ShLibFnRelocView,
};
use crate::text::hex;
use vstd::prelude::*;

verus! {

/// A table is for the first place to fill in that is for its function, and names
/// the library that provides the function.
pub proof fn table_is_for_first_place(
    libraries: Seq<SharedLibraryView>,
    relocs: Seq<AppFuncRelocView>,
    t: int,
)
    requires
        reloc_tables(libraries, relocs) is Ok,
        0 <= t < reloc_tables(libraries, relocs)->Ok_0.len(),
    ensures
        ({
            let table = reloc_tables(libraries, relocs)->Ok_0[t];
            &&& provider_from(libraries, table.reloc.fn_name, 0) matches Ok(Some(provider))
            &&& provider == table.provider
            &&& exists|i: int|
                {
                    &&& 0 <= i < relocs.len()
                    &&& #[trigger] relocs[i] == table.reloc
                    &&& forall|j: int|
                        0 <= j < i ==> (#[trigger] relocs[j]).fn_name != table.reloc.fn_name
                }
        }),
    decreases relocs.len(),
{
    let rest = relocs.drop_last();
    let before = reloc_tables(libraries, rest)->Ok_0;
    let table = reloc_tables(libraries, relocs)->Ok_0[t];
    if t < before.len() {
        table_is_for_first_place(libraries, rest, t);
        let i = choose|i: int|
            {
                &&& 0 <= i < rest.len()
                &&& #[trigger] rest[i] == table.reloc
                &&& forall|j: int|
                    0 <= j < i ==> (#[trigger] rest[j]).fn_name != table.reloc.fn_name
            };
        assert(relocs[i] == rest[i]);
        assert forall|j: int| 0 <= j < i implies (#[trigger] relocs[j]).fn_name
            != table.reloc.fn_name by {
            assert(relocs[j] == rest[j]);
        }
    } else {
        let i = relocs.len() - 1;
        assert(relocs[i] == table.reloc);
        assert forall|j: int| 0 <= j < i implies (#[trigger] relocs[j]).fn_name
            != table.reloc.fn_name by {
            assert(relocs[j] == rest[j]);
        }
    }
}

/// Every function to fill in that a library has gets a table.
pub proof fn provided_function_has_table(
    libraries: Seq<SharedLibraryView>,
    relocs: Seq<AppFuncRelocView>,
    i: int,
)
    requires
        reloc_tables(libraries, relocs) is Ok,
        0 <= i < relocs.len(),
        provider_from(libraries, relocs[i].fn_name, 0) matches Ok(Some(_)),
    ensures
        exists|t: int|
            0 <= t < reloc_tables(libraries, relocs)->Ok_0.len() && (#[trigger] reloc_tables(
                libraries,
                relocs,
            )->Ok_0[t]).reloc.fn_name == relocs[i].fn_name,
    decreases relocs.len(),
{
    let rest = relocs.drop_last();
    let before = reloc_tables(libraries, rest)->Ok_0;
    let tables = reloc_tables(libraries, relocs)->Ok_0;
    let name = relocs[i].fn_name;
    if is_for(rest, name) {
        let j = choose|j: int| 0 <= j < rest.len() && (#[trigger] rest[j]).fn_name == name;
        provided_function_has_table(libraries, rest, j);
        let t = choose|t: int|
            0 <= t < before.len() && (#[trigger] before[t]).reloc.fn_name == name;
        assert(tables[t] == before[t]);
    } else {
        if i < relocs.len() - 1 {
            assert(rest[i] == relocs[i]);
        }
        assert(tables[tables.len() - 1].reloc.fn_name == name);
    }
}

/// No two tables are for the same function.
pub proof fn tables_have_distinct_names(
    libraries: Seq<SharedLibraryView>,
    relocs: Seq<AppFuncRelocView>,
    s: int,
    t: int,
)
    requires
        reloc_tables(libraries, relocs) is Ok,
        0 <= s < t < reloc_tables(libraries, relocs)->Ok_0.len(),
    ensures
        reloc_tables(libraries, relocs)->Ok_0[s].reloc.fn_name != reloc_tables(
            libraries,
            relocs,
        )->Ok_0[t].reloc.fn_name,
    decreases relocs.len(),
{
    let rest = relocs.drop_last();
    let before = reloc_tables(libraries, rest)->Ok_0;
    if t < before.len() {
        tables_have_distinct_names(libraries, rest, s, t);
    } else {
        table_is_for_first_place(libraries, rest, s);
        let i = choose|i: int|
            {
                &&& 0 <= i < rest.len()
                &&& #[trigger] rest[i] == before[s].reloc
                &&& forall|j: int|
                    0 <= j < i ==> (#[trigger] rest[j]).fn_name != before[s].reloc.fn_name
            };
        assert(rest[i].fn_name == before[s].reloc.fn_name);
        assert(is_for(rest, before[s].reloc.fn_name));
    }
}

/// Whether a text is in one line.
pub open spec fn in_one_line(text: Seq<char>) -> bool {
    forall|i: int| 0 <= i < text.len() ==> #[trigger] text[i] != '\n'
}

/// The line that starts the table of a name.
pub open spec fn table_header(name: Seq<char>) -> Seq<char> {
    seq!['['] + name + seq![']', '\n']
}

/// Whether the line at a position of a text starts the table of a name.
pub open spec fn starts_table(text: Seq<char>, at: int, name: Seq<char>) -> bool {
    &&& 0 <= at
    &&& at + table_header(name).len() <= text.len()
    &&& at == 0 || text[at - 1] == '\n'
    &&& text.subrange(at, at + table_header(name).len()) == table_header(name)
}

/// Whether a line that starts with a bracket is at a position of a text.
spec fn bracket_line_at(text: Seq<char>, at: int) -> bool {
    text[at - 1] == '\n' && text[at] == '['
}

/// Whether no line but the first starts with a bracket.
spec fn has_no_later_bracket(text: Seq<char>) -> bool {
    forall|i: int| 0 < i < text.len() ==> !#[trigger] bracket_line_at(text, i)
}

/// Whether, besides, the last line has not ended.
spec fn can_go_on(text: Seq<char>) -> bool {
    has_no_later_bracket(text) && (text.len() > 0 ==> text.last() != '\n')
}

proof fn going_on(first: Seq<char>, second: Seq<char>)
    requires
        can_go_on(first),
        has_no_later_bracket(second),
    ensures
        has_no_later_bracket(first + second),
        can_go_on(second) ==> can_go_on(first + second),
{
    let all = first + second;
    assert forall|i: int| 0 < i < all.len() implies !#[trigger] bracket_line_at(all, i) by {
        if i < first.len() {
            assert(!bracket_line_at(first, i));
        } else if i > first.len() {
            assert(!bracket_line_at(second, i - first.len()));
        }
    }
    if second.len() > 0 {
        assert(all.last() == second.last());
    } else {
        assert(all =~= first);
    }
}

proof fn one_line_can_go_on(text: Seq<char>)
    requires
        in_one_line(text),
    ensures
        can_go_on(text),
{
    if text.len() > 0 {
        assert(text[text.len() - 1] != '\n');
    }
}

proof fn hex_is_in_one_line(value: nat)
    ensures
        in_one_line(hex(value)),
    decreases value,
{
    if value >= 16 {
        hex_is_in_one_line(value / 16);
    }
}

/// The texts between the names of a table have no line that starts with a
/// bracket but the first.
proof fn literals_can_go_on()
    ensures
        can_go_on("["@),
        can_go_on("]\napp_name = \""@),
        can_go_on("\"\napp_got_addr = 0x"@),
        can_go_on("\nlib_name = \""@),
        can_go_on("\"\nlib_func_offset = 0x"@),
        has_no_later_bracket("\n"@),
        "\n"@ == seq!['\n'],
        "["@ == seq!['['],
        "]\napp_name = \""@.take(2) == seq![']', '\n'],
        "]\napp_name = \""@.len() > 2,
{
    reveal_strlit("[");
    reveal_strlit("]\napp_name = \"");
    reveal_strlit("\"\napp_got_addr = 0x");
    reveal_strlit("\nlib_name = \"");
    reveal_strlit("\"\nlib_func_offset = 0x");
    reveal_strlit("\n");
    assert("\n"@ =~= seq!['\n']);
    assert("["@ =~= seq!['[']);
    assert("]\napp_name = \""@.take(2) =~= seq![']', '\n']);
}

/// The text of a table whose names are in one line each starts with the header,
/// ends with a line, and has no other header.
proof fn table_has_one_header(
    reloc: AppFuncRelocView,
    package_name: Seq<char>,
    provider: ShLibFnRelocView,
)
    requires
        in_one_line(reloc.fn_name),
        in_one_line(package_name),
        in_one_line(provider.lib_name),
    ensures
        ({
            let text = reloc_text(reloc, package_name, provider);
            let header = table_header(reloc.fn_name);
            &&& header.len() <= text.len()
            &&& text.take(header.len() as int) == header
            &&& text.last() == '\n'
            &&& has_no_later_bracket(text)
        }),
{
    literals_can_go_on();
    let text = reloc_text(reloc, package_name, provider);
    let addr = hex(reloc.app_got_addr as nat);
    let offset = hex(provider.lib_fn_offset as nat);
    hex_is_in_one_line(reloc.app_got_addr as nat);
    hex_is_in_one_line(provider.lib_fn_offset as nat);
    one_line_can_go_on(reloc.fn_name);
    one_line_can_go_on(package_name);
    one_line_can_go_on(provider.lib_name);
    one_line_can_go_on(addr);
    one_line_can_go_on(offset);
    let t0 = "["@;
    let t1 = t0 + reloc.fn_name;
    let t2 = t1 + "]\napp_name = \""@;
    let t3 = t2 + package_name;
    let t4 = t3 + "\"\napp_got_addr = 0x"@;
    let t5 = t4 + addr;
    let t6 = t5 + "\nlib_name = \""@;
    let t7 = t6 + provider.lib_name;
    let t8 = t7 + "\"\nlib_func_offset = 0x"@;
    let t9 = t8 + offset;
    going_on(t0, reloc.fn_name);
    going_on(t1, "]\napp_name = \""@);
    going_on(t2, package_name);
    going_on(t3, "\"\napp_got_addr = 0x"@);
    going_on(t4, addr);
    going_on(t5, "\nlib_name = \""@);
    going_on(t6, provider.lib_name);
    going_on(t7, "\"\nlib_func_offset = 0x"@);
    going_on(t8, offset);
    going_on(t9, "\n"@);
    assert(text == t9 + "\n"@);
    let header = table_header(reloc.fn_name);
    let between = "]\napp_name = \""@;
    assert(t2.take(header.len() as int) =~= t1 + between.take(2));
    assert(t1 + between.take(2) =~= header);
    assert(text.take(header.len() as int) =~= t2.take(header.len() as int));
}

/// Headers of names in one line that a text starts with are for the same name.
proof fn header_tells_name(text: Seq<char>, one: Seq<char>, other: Seq<char>)
    requires
        in_one_line(one),
        in_one_line(other),
        one.len() <= other.len(),
        table_header(other).len() <= text.len(),
        text.take(table_header(one).len() as int) == table_header(one),
        text.take(table_header(other).len() as int) == table_header(other),
    ensures
        one == other,
{
    let first = table_header(one);
    let second = table_header(other);
    let last = first.len() - 1;
    assert(text[last] == text.take(first.len() as int)[last]);
    assert(text[last] == text.take(second.len() as int)[last]);
    assert(first[last] == '\n');
    if one.len() < other.len() {
        if last - 1 < other.len() {
            assert(second[last] == other[last - 1]);
        } else {
            assert(second[last] == ']');
        }
    }
    assert forall|i: int| 0 <= i < one.len() implies one[i] == other[i] by {
        assert(first[i + 1] == one[i]);
        assert(second[i + 1] == other[i]);
        assert(text.take(first.len() as int)[i + 1] == text.take(second.len() as int)[i + 1]);
    }
    assert(one =~= other);
}

/// Whether all names in a table are in one line each.
pub open spec fn table_is_plain(table: RelocTable) -> bool {
    in_one_line(table.reloc.fn_name) && in_one_line(table.provider.lib_name)
}

/// A line of the text that starts a table is where one of the tables starts.
proof fn header_is_of_table(
    tables: Seq<RelocTable>,
    package_name: Seq<char>,
    at: int,
    name: Seq<char>,
)
    requires
        forall|t: int| 0 <= t < tables.len() ==> table_is_plain(#[trigger] tables[t]),
        in_one_line(package_name),
        in_one_line(name),
        starts_table(tables_text(tables, package_name), at, name),
    ensures
        exists|t: int|
            {
                &&& 0 <= t < tables.len()
                &&& (#[trigger] tables[t]).reloc.fn_name == name
                &&& at == tables_text(tables.take(t), package_name).len()
            },
    decreases tables.len(),
{
    let all = tables_text(tables, package_name);
    let header = table_header(name);
    assert(tables.len() > 0);
    let rest = tables.drop_last();
    let before = tables_text(rest, package_name);
    let last = tables.last();
    let text = reloc_text(last.reloc, package_name, last.provider);
    assert(table_is_plain(tables[tables.len() - 1]));
    table_has_one_header(last.reloc, package_name, last.provider);
    assert forall|i: int| 0 <= i < header.len() implies all[at + i] == header[i] by {
        assert(all.subrange(at, at + header.len())[i] == header[i]);
    }
    if at >= before.len() {
        let r = at - before.len();
        if r > 0 {
            assert(header[0] == '[' && all[at + 0] == header[0]);
            assert(bracket_line_at(text, r));
        }
        assert(text.take(header.len() as int) =~= all.subrange(at, at + header.len()));
        if name.len() <= last.reloc.fn_name.len() {
            header_tells_name(text, name, last.reloc.fn_name);
        } else {
            header_tells_name(text, last.reloc.fn_name, name);
        }
        assert(tables.take(tables.len() - 1) =~= rest);
        assert(tables[tables.len() - 1].reloc.fn_name == name);
    } else {
        tables_end_with_line(rest, package_name);
        if at + header.len() > before.len() {
            let i = before.len() - 1 - at;
            assert(all[at + i] == before.last());
            assert(header[i] != '\n');
        }
        assert(before.subrange(at, at + header.len()) =~= all.subrange(at, at + header.len()));
        assert forall|t: int| 0 <= t < rest.len() implies table_is_plain(#[trigger] rest[t]) by {
            assert(tables[t] == rest[t]);
        }
        header_is_of_table(rest, package_name, at, name);
        let t = choose|t: int|
            {
                &&& 0 <= t < rest.len()
                &&& (#[trigger] rest[t]).reloc.fn_name == name
                &&& at == tables_text(rest.take(t), package_name).len()
            };
        assert(tables[t] == rest[t]);
        assert(rest.take(t) =~= tables.take(t));
    }
}

/// The text of tables ends with a line.
proof fn tables_end_with_line(tables: Seq<RelocTable>, package_name: Seq<char>)
    ensures
        tables_text(tables, package_name).len() > 0 ==> tables_text(tables, package_name).last()
            == '\n',
{
    if tables.len() > 0 {
        reveal_strlit("\n");
        let text = reloc_text(tables.last().reloc, package_name, tables.last().provider);
        assert(text.last() == "\n"@.last());
        assert(tables_text(tables, package_name).last() == text.last());
    }
}

/// In the text of tables, each table starts after those before it.
pub proof fn table_starts_after_others(tables: Seq<RelocTable>, package_name: Seq<char>, t: int)
    requires
        0 <= t < tables.len(),
    ensures
        starts_table(
            tables_text(tables, package_name),
            tables_text(tables.take(t), package_name).len() as int,
            tables[t].reloc.fn_name,
        ),
    decreases tables.len(),
{
    let rest = tables.drop_last();
    let before = tables_text(rest, package_name);
    let all = tables_text(tables, package_name);
    let at = tables_text(tables.take(t), package_name).len() as int;
    let name = tables[t].reloc.fn_name;
    let header = table_header(name);
    if t < tables.len() - 1 {
        table_starts_after_others(rest, package_name, t);
        assert(rest.take(t) =~= tables.take(t));
        assert(all.subrange(at, at + header.len()) =~= before.subrange(at, at + header.len()));
    } else {
        let text = reloc_text(tables[t].reloc, package_name, tables[t].provider);
        literals_can_go_on();
        tables_end_with_line(rest, package_name);
        assert(tables.take(t) =~= rest);
        let between = "]\napp_name = \""@;
        let start = seq!['['] + name + between;
        assert(start.take(header.len() as int) =~= seq!['['] + name + between.take(2));
        assert(text.take(start.len() as int) =~= start);
        assert(text.take(header.len() as int) =~= start.take(header.len() as int));
        assert(all.subrange(at, at + header.len()) =~= text.take(header.len() as int));
    }
}

/// The relocation information does not start the table of a name twice, if the
/// names of the functions, of the libraries and of the app are in one line each.
pub proof fn table_starts_once(
    libraries: Seq<SharedLibraryView>,
    relocs: Seq<AppFuncRelocView>,
    package_name: Seq<char>,
    name: Seq<char>,
    p: int,
    q: int,
)
    requires
        relocation_text(libraries, relocs, package_name) is Ok,
        forall|i: int| 0 <= i < relocs.len() ==> in_one_line((#[trigger] relocs[i]).fn_name),
        forall|i: int| 0 <= i < libraries.len() ==> in_one_line((#[trigger] libraries[i]).name),
        in_one_line(package_name),
        in_one_line(name),
        starts_table(relocation_text(libraries, relocs, package_name)->Ok_0, p, name),
        starts_table(relocation_text(libraries, relocs, package_name)->Ok_0, q, name),
    ensures
        p == q,
{
    let tables = reloc_tables(libraries, relocs)->Ok_0;
    assert forall|t: int| 0 <= t < tables.len() implies table_is_plain(#[trigger] tables[t]) by {
        let table = tables[t];
        table_is_for_first_place(libraries, relocs, t);
        let i = choose|i: int|
            {
                &&& 0 <= i < relocs.len()
                &&& #[trigger] relocs[i] == table.reloc
                &&& forall|j: int|
                    0 <= j < i ==> (#[trigger] relocs[j]).fn_name != table.reloc.fn_name
            };
        assert(in_one_line(relocs[i].fn_name));
        provider_is_first(libraries, table.reloc.fn_name, 0);
        let k = choose|k: int|
            0 <= k < libraries.len() && table.provider.lib_name == (#[trigger] libraries[k]).name;
        assert(in_one_line(libraries[k].name));
    }
    header_is_of_table(tables, package_name, p, name);
    header_is_of_table(tables, package_name, q, name);
    let s = choose|t: int|
        {
            &&& 0 <= t < tables.len()
            &&& (#[trigger] tables[t]).reloc.fn_name == name
            &&& p == tables_text(tables.take(t), package_name).len()
        };
    let t = choose|t: int|
        {
            &&& 0 <= t < tables.len()
            &&& (#[trigger] tables[t]).reloc.fn_name == name
            &&& q == tables_text(tables.take(t), package_name).len()
        };
    if s < t {
        tables_have_distinct_names(libraries, relocs, s, t);
    } else if t < s {
        tables_have_distinct_names(libraries, relocs, t, s);
    }
}

} // verus!
