//! What an object has of the file that it is read from.
use crate::error::ConvertError;
use crate::object::{
    elf_dynamic_entries, elf_dynamic_symbol_strings, elf_dynamic_symbols, elf_file_header,
    elf_object, elf_program_headers, elf_section_data, elf_section_headers, elf_section_rels,
    elf_section_strings, elf_symbol_strings, elf_symbols, library_views, section_views,
    shared_library, text_in, ElfObject, Section, SharedLibrary, SharedLibraryView, Symbol,
};
use vstd::prelude::*;

verus! {

/// A file is refused exactly if it is no ELF file, has no section headers with
/// names, or has a section whose name cannot be read.
pub proof fn file_is_refused_for_reason(file: Seq<u8>)
    ensures
        match elf_object(file) {
            Err(e) => {
                ||| e == ConvertError::NotElf && elf_file_header(file) is None
                ||| e == ConvertError::NoSectionHeaders && elf_file_header(file) is Some
                    && elf_section_headers(file) is None
                ||| e == ConvertError::SectionName && elf_file_header(file) is Some
                    && elf_section_headers(file) is Some && exists|i: int|
                    0 <= i < (elf_section_headers(file)->0).len() && text_in(
                        elf_section_strings(file),
                        (#[trigger] (elf_section_headers(file)->0)[i]).sh_name as int,
                    ) is None
            },
            Ok(_) => elf_file_header(file) is Some && elf_section_headers(file) is Some,
        },
{
}

/// An object has the file header, and one section for each section header, in the
/// same order, with its name, its contents and its relocations.
pub proof fn object_has_sections(file: Seq<u8>, i: int)
    requires
        elf_object(file) is Ok,
    ensures
        ({
            let object = elf_object(file)->Ok_0;
            let headers = elf_section_headers(file)->0;
            &&& elf_file_header(file) == Some(object.header)
            &&& elf_section_headers(file) is Some
            &&& object.sections.len() == headers.len()
            &&& 0 <= i < headers.len() ==> {
                &&& object.sections[i].header == headers[i]
                &&& text_in(elf_section_strings(file), headers[i].sh_name as int) == Some(
                    object.sections[i].name,
                )
                &&& object.sections[i].data == elf_section_data(file, headers[i])
                &&& object.sections[i].rels == elf_section_rels(file, headers[i])
            }
        }),
{
    let headers = elf_section_headers(file)->0;
    if 0 <= i < headers.len() {
        assert(text_in(elf_section_strings(file), headers[i].sh_name as int) is Some);
    }
}

/// An object has the segments, the symbols, the dynamic symbols and the dynamic
/// entries of the file, in the same order, with names from the string table of each
/// table.
pub proof fn object_has_tables(file: Seq<u8>, i: int)
    requires
        elf_object(file) is Ok,
    ensures
        ({
            let object = elf_object(file)->Ok_0;
            &&& object.segments == elf_program_headers(file)
            &&& object.dynamic == elf_dynamic_entries(file)
            &&& object.symbols is Some <==> elf_symbols(file) is Some
            &&& elf_symbols(file) matches Some(entries) ==> {
                let symbols = object.symbols->0;
                &&& symbols.len() == entries.len()
                &&& 0 <= i < entries.len() ==> {
                    &&& symbols[i].name == text_in(
                        elf_symbol_strings(file),
                        entries[i].st_name as int,
                    )
                    &&& symbols[i].st_type == entries[i].st_type
                    &&& symbols[i].st_bind == entries[i].st_bind
                    &&& symbols[i].st_value == entries[i].st_value
                }
            }
            &&& object.dynamic_symbols is Some <==> elf_dynamic_symbols(file) is Some
            &&& elf_dynamic_symbols(file) matches Some(entries) ==> {
                let symbols = object.dynamic_symbols->0;
                &&& symbols.len() == entries.len()
                &&& 0 <= i < entries.len() ==> {
                    &&& symbols[i].name == text_in(
                        elf_dynamic_symbol_strings(file),
                        entries[i].st_name as int,
                    )
                    &&& symbols[i].st_type == entries[i].st_type
                    &&& symbols[i].st_bind == entries[i].st_bind
                    &&& symbols[i].st_value == entries[i].st_value
                }
            }
        }),
{
}

/// A shared library has its name and the symbols of the file, in the same order, and
/// can be read exactly if the file is an ELF file.
pub proof fn library_has_symbols(name: Seq<char>, file: Seq<u8>, i: int)
    ensures
        elf_file_header(file) is None ==> shared_library(name, file) == Err::<
            SharedLibraryView,
            ConvertError,
        >(ConvertError::NotElf),
        elf_file_header(file) is Some ==> {
            let library = shared_library(name, file)->Ok_0;
            &&& shared_library(name, file) is Ok
            &&& library.name == name
            &&& library.symbols is Some <==> elf_symbols(file) is Some
            &&& elf_symbols(file) matches Some(entries) ==> {
                let symbols = library.symbols->0;
                &&& symbols.len() == entries.len()
                &&& 0 <= i < entries.len() ==> {
                    &&& symbols[i].name == text_in(
                        elf_symbol_strings(file),
                        entries[i].st_name as int,
                    )
                    &&& symbols[i].st_type == entries[i].st_type
                    &&& symbols[i].st_bind == entries[i].st_bind
                    &&& symbols[i].st_value == entries[i].st_value
                }
            }
        },
{
}

/// What a section and a symbol stand for is what they hold.
pub proof fn section_and_symbol_stand_for_fields(section: Section, symbol: Symbol)
    ensures
        section@.name == section.name@,
        section@.header == section.header,
        section@.data is Some <==> section.data is Some,
        section.data is Some ==> section@.data->0 == section.data->0@,
        section@.rels is Some <==> section.rels is Some,
        section.rels is Some ==> section@.rels->0 == section.rels->0@,
        symbol@.name is Some <==> symbol.name is Some,
        symbol.name is Some ==> symbol@.name->0 == symbol.name->0@,
        symbol@.st_type == symbol.st_type,
        symbol@.st_bind == symbol.st_bind,
        symbol@.st_value == symbol.st_value,
{
}

/// What an object stands for is what it holds.
pub proof fn object_stands_for_fields(object: ElfObject, i: int)
    ensures
        object@.header == object.header,
        object@.sections.len() == object.sections@.len(),
        0 <= i < object.sections@.len() ==> object@.sections[i] == object.sections@[i]@,
        object@.segments is Some <==> object.segments is Some,
        object.segments is Some ==> object@.segments->0 == object.segments->0@,
        object@.dynamic is Some <==> object.dynamic is Some,
        object.dynamic is Some ==> object@.dynamic->0 == object.dynamic->0@,
        object@.symbols is Some <==> object.symbols is Some,
        object.symbols is Some ==> (object@.symbols->0).len() == object.symbols->0@.len(),
        object.symbols is Some && 0 <= i < object.symbols->0@.len() ==> (object@.symbols->0)[i]
            == object.symbols->0@[i]@,
        object@.dynamic_symbols is Some <==> object.dynamic_symbols is Some,
        object.dynamic_symbols is Some ==> (object@.dynamic_symbols->0).len()
            == object.dynamic_symbols->0@.len(),
        object.dynamic_symbols is Some && 0 <= i < object.dynamic_symbols->0@.len() ==> (
        object@.dynamic_symbols->0)[i] == object.dynamic_symbols->0@[i]@,
{
}

/// What a shared library stands for is what it holds.
pub proof fn library_stands_for_fields(library: SharedLibrary, i: int)
    ensures
        library@.name == library.name@,
        library@.symbols is Some <==> library.symbols is Some,
        library.symbols is Some ==> (library@.symbols->0).len() == library.symbols->0@.len(),
        library.symbols is Some && 0 <= i < library.symbols->0@.len() ==> (library@.symbols->0)[i]
            == library.symbols->0@[i]@,
{
}

/// What lists of sections and libraries stand for is what each of them does.
pub proof fn lists_stand_for_elements(
    sections: Seq<Section>,
    libraries: Seq<SharedLibrary>,
    i: int,
)
    ensures
        section_views(sections).len() == sections.len(),
        0 <= i < sections.len() ==> section_views(sections)[i] == sections[i]@,
        library_views(libraries).len() == libraries.len(),
        0 <= i < libraries.len() ==> library_views(libraries)[i] == libraries[i]@,
{
}

} // verus!
