//! Which sections are in which segments, by the fields of their headers.
use crate::abi::{
    PT_DYNAMIC, PT_GNU_EH_FRAME, PT_GNU_RELRO, PT_GNU_STACK, PT_LOAD, PT_TLS, SHF_ALLOC, SHF_TLS,
    SHT_NOBITS,
};
use crate::object::{ProgramHeader, SectionHeader, SectionView};
use crate::section::{any_in_segment, in_segment, nonempty_in_segment};
use vstd::prelude::*;

verus! {

/// A section that occupies memory and space in the file, is not empty and has no
/// thread-local storage is in a segment that is loaded exactly if it is inside it
/// both in memory and in the file.
pub proof fn stored_section_is_inside(section: SectionHeader, segment: ProgramHeader)
    requires
        segment.p_type == PT_LOAD,
        (section.sh_flags as u32) & SHF_ALLOC != 0,
        section.sh_type != SHT_NOBITS,
        section.sh_size > 0,
    ensures
        in_segment(section, segment) <==> {
            &&& segment.p_vaddr <= section.sh_addr
            &&& section.sh_addr + section.sh_size <= segment.p_vaddr + segment.p_memsz
            &&& segment.p_offset <= section.sh_offset
            &&& section.sh_offset + section.sh_size <= segment.p_offset + segment.p_filesz
        },
{
}

/// A section that occupies memory but no space in the file, and is not empty, is in
/// a segment that is loaded exactly if it is inside it in memory.
pub proof fn unstored_section_is_inside(section: SectionHeader, segment: ProgramHeader)
    requires
        segment.p_type == PT_LOAD,
        (section.sh_flags as u32) & SHF_ALLOC != 0,
        section.sh_type == SHT_NOBITS,
        section.sh_size > 0,
    ensures
        in_segment(section, segment) <==> {
            &&& segment.p_vaddr <= section.sh_addr
            &&& section.sh_addr + section.sh_size <= segment.p_vaddr + segment.p_memsz
        },
{
}

/// A section that occupies no memory is in no segment that holds only what does, and
/// in others exactly if it is inside in the file.
pub proof fn section_without_memory(section: SectionHeader, segment: ProgramHeader)
    requires
        (section.sh_flags as u32) & SHF_ALLOC == 0,
        (section.sh_flags as u32) & SHF_TLS == 0,
        section.sh_type != SHT_NOBITS,
        section.sh_size > 0,
    ensures
        segment.p_type == PT_LOAD || segment.p_type == PT_DYNAMIC || segment.p_type
            == PT_GNU_EH_FRAME || segment.p_type == PT_GNU_RELRO || segment.p_type
            == PT_GNU_STACK || segment.p_type == PT_TLS ==> !in_segment(section, segment),
        segment.p_type != PT_LOAD && segment.p_type != PT_DYNAMIC && segment.p_type
            != PT_GNU_EH_FRAME && segment.p_type != PT_GNU_RELRO && segment.p_type
            != PT_GNU_STACK && segment.p_type != PT_TLS ==> (in_segment(section, segment) <==> {
            &&& segment.p_offset <= section.sh_offset
            &&& section.sh_offset + section.sh_size <= segment.p_offset + segment.p_filesz
        }),
{
}

/// Thread-local storage is in no segment but those that can hold it, and nothing
/// else is in the segments that are only for it.
pub proof fn thread_local_storage_is_kept_apart(section: SectionHeader, segment: ProgramHeader)
    requires
        in_segment(section, segment),
    ensures
        (section.sh_flags as u32) & SHF_TLS != 0 ==> segment.p_type == PT_TLS || segment.p_type
            == PT_GNU_RELRO || segment.p_type == PT_LOAD,
        (section.sh_flags as u32) & SHF_TLS == 0 ==> segment.p_type != PT_TLS && segment.p_type
            != PT_GNU_RELRO,
{
}

/// The type of a segment that can hold thread-local storage does not matter for a
/// section that has it and occupies memory.
pub proof fn thread_local_storage_is_inside(section: SectionHeader, segment: ProgramHeader)
    requires
        segment.p_type == PT_TLS || segment.p_type == PT_GNU_RELRO,
        (section.sh_flags as u32) & SHF_TLS != 0,
        (section.sh_flags as u32) & SHF_ALLOC != 0,
        section.sh_size > 0,
    ensures
        in_segment(section, segment) <==> {
            &&& segment.p_vaddr <= section.sh_addr
            &&& section.sh_addr + section.sh_size <= segment.p_vaddr + segment.p_memsz
            &&& section.sh_type == SHT_NOBITS || {
                &&& segment.p_offset <= section.sh_offset
                &&& section.sh_offset + section.sh_size <= segment.p_offset + segment.p_filesz
            }
        },
{
}

/// A section that occupies memory is in a segment of a type that is for nothing
/// special exactly if it is inside it in memory, and in the file if it takes space
/// there.
pub proof fn section_in_other_segment(section: SectionHeader, segment: ProgramHeader)
    requires
        segment.p_type != PT_TLS,
        segment.p_type != PT_GNU_RELRO,
        (section.sh_flags as u32) & SHF_TLS == 0,
        (section.sh_flags as u32) & SHF_ALLOC != 0,
        section.sh_size > 0,
    ensures
        in_segment(section, segment) <==> {
            &&& segment.p_vaddr <= section.sh_addr
            &&& section.sh_addr + section.sh_size <= segment.p_vaddr + segment.p_memsz
            &&& section.sh_type == SHT_NOBITS || {
                &&& segment.p_offset <= section.sh_offset
                &&& section.sh_offset + section.sh_size <= segment.p_offset + segment.p_filesz
            }
        },
{
}

/// An empty section in memory is in a segment that is loaded exactly if it starts
/// inside it, or if the segment is empty too and at the same place.
pub proof fn empty_section_starts_inside(section: SectionHeader, segment: ProgramHeader)
    requires
        segment.p_type == PT_LOAD,
        (section.sh_flags as u32) & SHF_ALLOC != 0,
        section.sh_type != SHT_NOBITS,
        section.sh_size == 0,
    ensures
        in_segment(section, segment) <==> {
            &&& segment.p_vaddr <= section.sh_addr
            &&& section.sh_addr < segment.p_vaddr + segment.p_memsz || (segment.p_memsz == 0
                && section.sh_addr == segment.p_vaddr)
            &&& segment.p_offset <= section.sh_offset
            &&& section.sh_offset < segment.p_offset + segment.p_filesz || (segment.p_filesz == 0
                && section.sh_offset == segment.p_offset)
        },
{
}

/// What is asked of the types, of the memory and of the file does not depend on each
/// other: a section is in a segment exactly if each is as it has to be.
pub proof fn section_is_in_segment_exactly(section: SectionHeader, segment: ProgramHeader)
    ensures
        in_segment(section, segment) <==> {
            let flags = section.sh_flags as u32;
            let memory_end = segment.p_vaddr + segment.p_memsz;
            let file_end = segment.p_offset + segment.p_filesz;
            &&& if flags & SHF_TLS != 0 {
                segment.p_type == PT_TLS || segment.p_type == PT_GNU_RELRO || segment.p_type
                    == PT_LOAD
            } else {
                segment.p_type != PT_TLS && segment.p_type != PT_GNU_RELRO
            }
            &&& if flags & SHF_ALLOC != 0 {
                &&& segment.p_vaddr <= section.sh_addr
                &&& section.sh_addr + section.sh_size <= memory_end
                &&& section.sh_addr < memory_end || segment.p_memsz == 0
            } else {
                segment.p_type != PT_LOAD && segment.p_type != PT_DYNAMIC && segment.p_type
                    != PT_GNU_EH_FRAME && segment.p_type != PT_GNU_RELRO && segment.p_type
                    != PT_GNU_STACK
            }
            &&& section.sh_type == SHT_NOBITS || {
                &&& segment.p_offset <= section.sh_offset
                &&& section.sh_offset + section.sh_size <= file_end
                &&& section.sh_offset < file_end || segment.p_filesz == 0
            }
        },
{
}

/// A section counts for a segment exactly if it has a size and is in it, and a
/// segment has any exactly if one of the sections counts.
pub proof fn sections_with_size_count(sections: Seq<SectionView>, segment: ProgramHeader)
    ensures
        forall|section: SectionView|
            #[trigger] nonempty_in_segment(section, segment) <==> section.header.sh_size > 0
                && in_segment(section.header, segment),
        any_in_segment(sections, segment) <==> exists|i: int|
            0 <= i < sections.len() && (#[trigger] sections[i]).header.sh_size > 0 && in_segment(
                sections[i].header,
                segment,
            ),
{
    if exists|i: int|
        0 <= i < sections.len() && (#[trigger] sections[i]).header.sh_size > 0 && in_segment(
            sections[i].header,
            segment,
        ) {
        let i = choose|i: int|
            0 <= i < sections.len() && (#[trigger] sections[i]).header.sh_size > 0 && in_segment(
                sections[i].header,
                segment,
            );
        assert(nonempty_in_segment(sections[i], segment));
    }
}

} // verus!
