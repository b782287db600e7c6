//! What the header of a TBF says, by the segments, sections and symbols of the
//! object.
use crate::abi::{ET_DYN, PF_W, PF_X, PT_LOAD};
use crate::error::ConvertError;
use crate::object::{ElfView, ProgramHeader, SectionView};
use crate::plan::{
    any_pic, is_flash_code, lowest_code, lowest_code_is_lowest, plan_of, ram_is_not_negative,
    ram_of_segments, ram_size, region_count, regions_in_segment, stack_size, ConvertOptions,
    PIC_FLASH_ADDRESS,
};
use crate::section::in_segment;
use crate::section_laws::sections_with_size_count;
use crate::symbols::{section_named, symbol_value};
use crate::text::occurs_in;
use crate::util::{aligned_up, aligned_up_is_least_multiple, low32};
use vstd::prelude::*;

verus! {

/// The RAM of segments adds up: each writable one that is loaded to another address
/// than it is at counts with its size in memory, and no other counts.
pub proof fn ram_adds_up(
    first: Seq<ProgramHeader>,
    second: Seq<ProgramHeader>,
    segment: ProgramHeader,
)
    ensures
        ram_of_segments(Seq::empty()) == 0,
        ram_of_segments(first + second) == ram_of_segments(first) + ram_of_segments(second),
        ram_of_segments(seq![segment]) == if segment.p_type == PT_LOAD && segment.p_vaddr
            != segment.p_paddr && segment.p_flags & PF_W != 0 {
            segment.p_memsz as int % 0x1_0000_0000
        } else {
            0
        },
    decreases second.len(),
{
    let one = seq![segment];
    assert(one.drop_last() =~= Seq::<ProgramHeader>::empty());
    assert(ram_of_segments(one.drop_last()) == 0);
    if second.len() == 0 {
        assert(first + second =~= first);
    } else {
        ram_adds_up(first, second.drop_last(), segment);
        assert((first + second).drop_last() =~= first + second.drop_last());
        assert((first + second).last() == second.last());
    }
}

/// The RAM that an app needs is that of its segments, and besides the stack and the
/// heaps, each rounded up. The stack is as large as the caller says, or else as the
/// first section `.stack`, or else as the default.
pub proof fn minimum_ram_is_sum(object: ElfView, options: &ConvertOptions, stack: u32)
    requires
        plan_of(object, options) is Ok,
        match options.stack_len {
            Some(len) => stack == len,
            None => match section_named(object.sections, ".stack"@) {
                Some(section) => stack == section.header.sh_size % 0x1_0000_0000,
                None => stack == 2048,
            },
        },
    ensures
        object.segments is Some,
        plan_of(object, options)->Ok_0.header.minimum_ram_size == ram_of_segments(
            object.segments->0,
        ) + aligned_up(stack as int, 8) + aligned_up(options.app_heap_len as int, 4) + aligned_up(
            options.kernel_heap_len as int,
            4,
        ),
{
    assert(stack == stack_size(options.stack_len, object.sections));
    aligned_up_is_least_multiple(stack as int, 8);
    aligned_up_is_least_multiple(options.app_heap_len as int, 4);
    aligned_up_is_least_multiple(options.kernel_heap_len as int, 4);
    ram_is_not_negative(object.segments->0);
    assert(ram_size(
        object.segments->0,
        stack,
        options.app_heap_len,
        options.kernel_heap_len,
    ) >= 0);
}

/// The RAM of two different segments that reside there fits beside each other, and
/// beside the stack and the heaps.
pub proof fn ram_has_room_for_two(
    object: ElfView,
    options: &ConvertOptions,
    stack: u32,
    i: int,
    j: int,
)
    requires
        plan_of(object, options) is Ok,
        match options.stack_len {
            Some(len) => stack == len,
            None => match section_named(object.sections, ".stack"@) {
                Some(section) => stack == section.header.sh_size % 0x1_0000_0000,
                None => stack == 2048,
            },
        },
        0 <= i < j < (object.segments->0).len(),
        ({
            let one = (object.segments->0)[i];
            let other = (object.segments->0)[j];
            &&& one.p_type == PT_LOAD && one.p_vaddr != one.p_paddr && one.p_flags & PF_W != 0
            &&& other.p_type == PT_LOAD && other.p_vaddr != other.p_paddr && other.p_flags & PF_W
                != 0
            &&& one.p_memsz <= u32::MAX && other.p_memsz <= u32::MAX
        }),
    ensures
        plan_of(object, options)->Ok_0.header.minimum_ram_size >= (object.segments->0)[i].p_memsz
            + (object.segments->0)[j].p_memsz + stack + options.app_heap_len
            + options.kernel_heap_len,
{
    let segments = object.segments->0;
    let none = Seq::<ProgramHeader>::empty();
    minimum_ram_is_sum(object, options, stack);
    aligned_up_is_least_multiple(stack as int, 8);
    aligned_up_is_least_multiple(options.app_heap_len as int, 4);
    aligned_up_is_least_multiple(options.kernel_heap_len as int, 4);
    let a = segments.take(i);
    let b = segments.subrange(i + 1, j);
    let c = segments.skip(j + 1);
    let one = seq![segments[i]];
    let other = seq![segments[j]];
    assert(segments =~= a + one + b + other + c);
    ram_adds_up(a + one + b + other, c, segments[i]);
    ram_adds_up(a + one + b, other, segments[j]);
    ram_adds_up(a + one, b, segments[i]);
    ram_adds_up(a, one, segments[i]);
    ram_is_not_negative(a);
    ram_is_not_negative(b);
    ram_is_not_negative(c);
}

/// The address in RAM is what `_sram_origin` says, unless that is zero or not there.
pub proof fn ram_address_is_origin(object: ElfView, options: &ConvertOptions)
    requires
        plan_of(object, options) is Ok,
    ensures
        ({
            let address = plan_of(object, options)->Ok_0.header.fixed_address_ram;
            match symbol_value(object.symbols, "_sram_origin"@) {
                Ok(Some(origin)) => if origin == 0 {
                    address is None
                } else {
                    address == Some(origin)
                },
                Ok(None) => address is None,
                Err(_) => false,
            }
        }),
{
}

/// An object is a shared library exactly if its type says so.
pub proof fn shared_library_is_by_type(object: ElfView, options: &ConvertOptions)
    requires
        plan_of(object, options) is Ok,
    ensures
        plan_of(object, options)->Ok_0.header.is_shared_library <==> object.header.e_type
            == ET_DYN,
{
}

/// If there is a symbol `_flash_origin`, its value is the address in flash, unless
/// it is that of position-independent code.
pub proof fn flash_address_is_origin(object: ElfView, options: &ConvertOptions, origin: u32)
    requires
        plan_of(object, options) is Ok,
        symbol_value(object.symbols, "_flash_origin"@) == Ok::<Option<u32>, ConvertError>(
            Some(origin),
        ),
    ensures
        ({
            let plan = plan_of(object, options)->Ok_0;
            if origin == 0x8000_0000 {
                plan.pic && plan.header.fixed_address_flash is None
            } else {
                !plan.pic && plan.header.fixed_address_flash == Some(origin)
            }
        }),
{
}

/// Whether a segment is loaded into flash to be run there: it is executable, has
/// contents, and some section with a size is in it.
pub open spec fn runs_in_flash(sections: Seq<SectionView>, segment: ProgramHeader) -> bool {
    &&& segment.p_type == PT_LOAD
    &&& segment.p_filesz > 0
    &&& segment.p_flags & PF_X != 0
    &&& exists|i: int|
        0 <= i < sections.len() && (#[trigger] sections[i]).header.sh_size > 0 && in_segment(
            sections[i].header,
            segment,
        )
}

/// Without a symbol `_flash_origin`, an app is position-independent if one of the
/// segments that run in flash is at the address for that. Otherwise it has to be
/// at the lowest load address of these segments, if there are any.
pub proof fn flash_address_is_lowest(object: ElfView, options: &ConvertOptions)
    requires
        plan_of(object, options) is Ok,
        symbol_value(object.symbols, "_flash_origin"@) == Ok::<Option<u32>, ConvertError>(None),
    ensures
        ({
            let plan = plan_of(object, options)->Ok_0;
            let segments = object.segments->0;
            &&& plan.pic <==> exists|k: int|
                0 <= k < segments.len() && runs_in_flash(object.sections, #[trigger] segments[k])
                    && segments[k].p_vaddr == 0x8000_0000
            &&& plan.pic ==> plan.header.fixed_address_flash is None
            &&& !plan.pic ==> match plan.header.fixed_address_flash {
                Some(address) => {
                    &&& exists|k: int|
                        0 <= k < segments.len() && runs_in_flash(
                            object.sections,
                            #[trigger] segments[k],
                        ) && address == segments[k].p_paddr % 0x1_0000_0000
                    &&& forall|k: int|
                        0 <= k < segments.len() && runs_in_flash(
                            object.sections,
                            #[trigger] segments[k],
                        ) ==> address <= segments[k].p_paddr % 0x1_0000_0000
                },
                None => forall|k: int|
                    0 <= k < segments.len() ==> !runs_in_flash(
                        object.sections,
                        #[trigger] segments[k],
                    ),
            }
        }),
{
    let segments = object.segments->0;
    let sections = object.sections;
    assert forall|k: int| 0 <= k < segments.len() implies runs_in_flash(
        sections,
        #[trigger] segments[k],
    ) == is_flash_code(sections, segments[k]) by {
        sections_with_size_count(sections, segments[k]);
    }
    lowest_code_is_lowest(sections, segments);
    let plan = plan_of(object, options)->Ok_0;
    assert(plan.pic == any_pic(sections, segments));
    if !plan.pic {
        if let Some(lowest) = lowest_code(sections, segments) {
            let k = choose|k: int|
                0 <= k < segments.len() && is_flash_code(sections, #[trigger] segments[k])
                    && low32(segments[k].p_paddr as int) == lowest;
            assert(runs_in_flash(sections, segments[k]));
        }
    } else {
        let k = choose|k: int|
            0 <= k < segments.len() && is_flash_code(sections, #[trigger] segments[k])
                && segments[k].p_vaddr == PIC_FLASH_ADDRESS;
        assert(runs_in_flash(sections, segments[k]));
    }
}

/// The writeable flash regions of a segment add up over its sections: each with a
/// size and `.wfr` in its name that is in the segment counts.
pub proof fn regions_add_up_over_sections(
    first: Seq<SectionView>,
    second: Seq<SectionView>,
    section: SectionView,
    segment: ProgramHeader,
)
    ensures
        regions_in_segment(Seq::empty(), segment) == 0,
        regions_in_segment(first + second, segment) == regions_in_segment(first, segment)
            + regions_in_segment(second, segment),
        regions_in_segment(seq![section], segment) == if section.header.sh_size > 0 && in_segment(
            section.header,
            segment,
        ) && occurs_in(".wfr"@, section.name) {
            1nat
        } else {
            0nat
        },
    decreases second.len(),
{
    let one = seq![section];
    assert(one.drop_last() =~= Seq::<SectionView>::empty());
    assert(regions_in_segment(one.drop_last(), segment) == 0);
    if second.len() == 0 {
        assert(first + second =~= first);
    } else {
        regions_add_up_over_sections(first, second.drop_last(), section, segment);
        assert((first + second).drop_last() =~= first + second.drop_last());
        assert((first + second).last() == second.last());
    }
}

/// The writeable flash regions add up over the segments with contents that are
/// loaded, whatever their flags are.
pub proof fn regions_add_up_over_segments(
    sections: Seq<SectionView>,
    first: Seq<ProgramHeader>,
    second: Seq<ProgramHeader>,
    segment: ProgramHeader,
)
    ensures
        region_count(sections, Seq::empty()) == 0,
        region_count(sections, first + second) == region_count(sections, first) + region_count(
            sections,
            second,
        ),
        region_count(sections, seq![segment]) == if segment.p_type == PT_LOAD && segment.p_filesz
            > 0 {
            regions_in_segment(sections, segment)
        } else {
            0nat
        },
    decreases second.len(),
{
    let one = seq![segment];
    assert(one.drop_last() =~= Seq::<ProgramHeader>::empty());
    assert(region_count(sections, one.drop_last()) == 0);
    if second.len() == 0 {
        assert(first + second =~= first);
    } else {
        regions_add_up_over_segments(sections, first, second.drop_last(), segment);
        assert((first + second).drop_last() =~= first + second.drop_last());
        assert((first + second).last() == second.last());
    }
}

/// The header has room for all writeable flash regions that the segments have.
pub proof fn all_regions_are_counted(object: ElfView, options: &ConvertOptions)
    requires
        plan_of(object, options) is Ok,
    ensures
        plan_of(object, options)->Ok_0.header.writeable_flash_regions_count == region_count(
            object.sections,
            object.segments->0,
        ),
{
}

/// There is a plan for an object exactly if it has segments, the RAM and the number
/// of regions can be told in their types, and the symbols can be looked up.
pub proof fn plan_fails_for_reason(object: ElfView, options: &ConvertOptions, stack: u32)
    requires
        match options.stack_len {
            Some(len) => stack == len,
            None => match section_named(object.sections, ".stack"@) {
                Some(section) => stack == section.header.sh_size % 0x1_0000_0000,
                None => stack == 2048,
            },
        },
    ensures
        ({
            let segments = object.segments->0;
            let ram = ram_of_segments(segments) + aligned_up(stack as int, 8) + aligned_up(
                options.app_heap_len as int,
                4,
            ) + aligned_up(options.kernel_heap_len as int, 4);
            match plan_of(object, options) {
                Err(e) => {
                    ||| e == ConvertError::NoProgramHeaders && object.segments is None
                    ||| e == ConvertError::Overflow && object.segments is Some && (ram > u32::MAX
                        || region_count(object.sections, segments) > usize::MAX)
                    ||| object.segments is Some && symbol_value(
                        object.symbols,
                        "_flash_origin"@,
                    ) == Err::<Option<u32>, ConvertError>(e)
                    ||| object.segments is Some && symbol_value(
                        object.symbols,
                        "_sram_origin"@,
                    ) == Err::<Option<u32>, ConvertError>(e)
                },
                Ok(_) => {
                    &&& object.segments is Some
                    &&& ram <= u32::MAX
                    &&& region_count(object.sections, segments) <= usize::MAX
                    &&& symbol_value(object.symbols, "_flash_origin"@) is Ok
                    &&& symbol_value(object.symbols, "_sram_origin"@) is Ok
                },
            }
        }),
{
    assert(stack == stack_size(options.stack_len, object.sections));
}

} // verus!
