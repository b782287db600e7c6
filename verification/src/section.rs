//! Which sections belong to which segments.
use crate::abi::{
    PT_DYNAMIC, PT_GNU_EH_FRAME, PT_GNU_RELRO, PT_GNU_STACK, PT_LOAD, PT_TLS, SHF_ALLOC, SHF_TLS,
    SHT_NOBITS,
};
use crate::object::{section_views, ProgramHeader, Section, SectionHeader, SectionView};
use vstd::prelude::*;

verus! {

/// Whether a section has a flag.
pub open spec fn has_flag(section: SectionHeader, flag: u32) -> bool {
    (section.sh_flags as u32) & flag != 0
}

/// Whether `size` units from `start` on lie among the `len` units from `base`
/// on. Nothing, as a part, does not lie at the very end, unless the whole is
/// empty too.
pub open spec fn lies_within(start: int, size: int, base: int, len: int) -> bool {
    &&& base <= start
    &&& start + size <= base + len
    &&& start < base + len || len == 0
}

/// Whether segments of a type can contain sections with thread-local storage.
pub open spec fn may_hold_tls(p_type: u32) -> bool {
    p_type == PT_TLS || p_type == PT_GNU_RELRO || p_type == PT_LOAD
}

/// Whether segments of a type contain only sections that occupy memory.
pub open spec fn holds_only_alloc(p_type: u32) -> bool {
    p_type == PT_LOAD || p_type == PT_DYNAMIC || p_type == PT_GNU_EH_FRAME || p_type
        == PT_GNU_RELRO || p_type == PT_GNU_STACK
}

/// Whether a section is within a segment.
pub open spec fn in_segment(section: SectionHeader, segment: ProgramHeader) -> bool {
    // Thread-local storage is only where it may be, and nothing else is in the
    // segments that are for it.
    &&& has_flag(section, SHF_TLS) ==> may_hold_tls(segment.p_type)
    &&& !has_flag(section, SHF_TLS) ==> segment.p_type != PT_TLS && segment.p_type != PT_GNU_RELRO
    // What occupies no memory is not in a segment that is loaded.
    &&& !has_flag(section, SHF_ALLOC) ==> !holds_only_alloc(segment.p_type)
    // What occupies memory is in the memory of the segment.
    &&& has_flag(section, SHF_ALLOC) ==> lies_within(
        section.sh_addr as int,
        section.sh_size as int,
        segment.p_vaddr as int,
        segment.p_memsz as int,
    )
    // What occupies space in the file is in that of the segment.
    &&& section.sh_type == SHT_NOBITS || lies_within(
        section.sh_offset as int,
        section.sh_size as int,
        segment.p_offset as int,
        segment.p_filesz as int,
    )
}

/// Whether a section that is not empty is within a segment.
pub open spec fn nonempty_in_segment(section: SectionView, segment: ProgramHeader) -> bool {
    section.header.sh_size > 0 && in_segment(section.header, segment)
}

/// Whether any section that is not empty is within a segment.
pub open spec fn any_in_segment(sections: Seq<SectionView>, segment: ProgramHeader) -> bool {
    exists|i: int| 0 <= i < sections.len() && #[trigger] nonempty_in_segment(sections[i], segment)
}

/// Whether `size` units from `start` on lie among the `len` units from `base`
/// on.
fn is_within(start: u64, size: u64, base: u64, len: u64) -> (within: bool)
    ensures
        within == lies_within(start as int, size as int, base as int, len as int),
{
    start >= base && start - base <= len && size <= len - (start - base) && (start - base < len
        || len == 0)
}

/// Determines whether a section is within a segment.
pub fn section_in_segment(section: &SectionHeader, segment: &ProgramHeader) -> (within: bool)
    ensures
        within == in_segment(*section, *segment),
{
    let segtype: u32 = segment.p_type;
    #[verifier::truncate]
    let secflags: u32 = section.sh_flags as u32;

    // Only PT_LOAD, PT_GNU_RELRO and PT_TLS segments can contain SHF_TLS
    // sections.
    if secflags & SHF_TLS != 0 {
        if segtype != PT_TLS && segtype != PT_GNU_RELRO && segtype != PT_LOAD {
            return false;
        }
    } else if segtype == PT_TLS || segtype == PT_GNU_RELRO {
        return false;
    }
    // PT_LOAD and similar segments only have SHF_ALLOC sections.
    if secflags & SHF_ALLOC == 0 {
        if segtype == PT_LOAD || segtype == PT_DYNAMIC || segtype == PT_GNU_EH_FRAME || segtype
            == PT_GNU_RELRO || segtype == PT_GNU_STACK {
            return false;
        }
    } else if !is_within(section.sh_addr, section.sh_size, segment.p_vaddr, segment.p_memsz) {
        return false;
    }
    section.sh_type == SHT_NOBITS || is_within(
        section.sh_offset,
        section.sh_size,
        segment.p_offset,
        segment.p_filesz,
    )
}

/// Determines whether any section that is not empty is inside a segment.
///
/// Some loadable segments should not exist: they are at addresses outside of
/// what the linker script specifies. A segment that no section is in can be
/// skipped.
pub fn section_exists_in_segment(sections: &Vec<Section>, segment: &ProgramHeader) -> (exist: bool)
    ensures
        exist == any_in_segment(section_views(sections@), *segment),
{
    let count: usize = sections.len();
    let mut i: usize = 0;
    while i < count
        invariant
            count == sections@.len(),
            i <= count,
            forall|j: int|
                0 <= j < i ==> !nonempty_in_segment(
                    #[trigger] section_views(sections@)[j],
                    *segment,
                ),
        decreases count - i,
    {
        if sections[i].header.sh_size > 0 && section_in_segment(&sections[i].header, segment) {
            assert(nonempty_in_segment(section_views(sections@)[i as int], *segment));
            return true;
        }
        i += 1;
    }
    false
}

/// A section within a segment lies in its part of the file, unless it occupies
/// no space there.
pub proof fn in_segment_lies_in_file_part(section: SectionHeader, segment: ProgramHeader)
    requires
        in_segment(section, segment),
        section.sh_type != SHT_NOBITS,
    ensures
        segment.p_offset <= section.sh_offset,
        section.sh_offset + section.sh_size <= segment.p_offset + segment.p_filesz,
{
}

} // verus!
