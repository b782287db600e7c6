//! Where an app is in a TBF, by the fields of its segments and sections.
use crate::abi::{PT_LOAD, SHF_WRITE};
use crate::error::ConvertError;
use crate::laws::{
    every_part_is_placed, image_has_contents, is_part_of, only_parts_are_placed, region_is_listed,
    region_is_section, region_values, relocation_data_is_there,
};
use crate::layout::{
    any_lost_at, any_lost_in_image, clipped, entry_notices, entry_offset, gap_notices,
    got_in_segment, got_is_lost, got_position, holds_address, image, image_length, is_missing,
    layout_of, load_end, placed_segments, placing_fault, placing_notices, position,
    protected_region, reached, reached_grows, region_is_lost, regions, regions_of_segment,
    relocation_data, relocation_data_of_segment, segment_at_from, segment_notices, type_notices,
    LayoutView, Notice,
};
use crate::object::{ElfView, ProgramHeader, Rel, SectionView};
use crate::plan::{is_region_of, ConvertOptions, Plan};
use crate::relocs::text_rels;
use crate::section::in_segment;
use crate::symbol_laws::{section_named_is_first, symbol_value_is_first};
use crate::symbols::{section_named, symbol_value};
use crate::text::occurs_in;
use crate::util::{low32, zeros};
use vstd::prelude::*;

verus! {

/// The protected region is as large as the symbol in the app says, or else as the
/// caller says, be the app position-independent or not. If neither says so, it is
/// as large as the header for a position-independent app, and otherwise as the
/// distance of the app from the boundary before it.
pub proof fn protected_region_is_as_asked(
    object: ElfView,
    file: Seq<u8>,
    options: &ConvertOptions,
    plan: Plan,
    header_length: usize,
)
    requires
        layout_of(object, file, options, plan, header_length) is Ok,
    ensures
        ({
            let protected = layout_of(object, file, options, plan, header_length)->Ok_0.protected;
            &&& header_length <= protected
            &&& match symbol_value(object.symbols, "tbf_protected_region_size"@) {
                Ok(Some(size)) => protected == size,
                Ok(None) => match (options.protected_region_size, plan.header.fixed_address_flash) {
                    (Some(size), _) => protected == size,
                    (None, Some(address)) => !plan.pic ==> protected == address % 256,
                    (None, None) => !plan.pic ==> protected == 0,
                },
                Err(_) => false,
            }
            &&& symbol_value(object.symbols, "tbf_protected_region_size"@) == Ok::<
                Option<u32>,
                ConvertError,
            >(None) && options.protected_region_size is None && plan.pic ==> protected
                == header_length
        }),
{
}

/// A protected region that is too small for the header is refused, whoever asks for
/// it.
pub proof fn small_protected_region_is_refused(
    object: ElfView,
    file: Seq<u8>,
    options: &ConvertOptions,
    plan: Plan,
    header_length: usize,
    size: u32,
)
    requires
        object.segments is Some,
        size < header_length <= u32::MAX,
        match symbol_value(object.symbols, "tbf_protected_region_size"@) {
            Ok(Some(said)) => size == said,
            Ok(None) => match (options.protected_region_size, plan.header.fixed_address_flash) {
                (Some(said), _) => size == said,
                (None, Some(address)) => !plan.pic && size == address % 256,
                (None, None) => !plan.pic && size == 0,
            },
            Err(_) => false,
        },
    ensures
        layout_of(object, file, options, plan, header_length) == Err::<LayoutView, ConvertError>(
            ConvertError::ProtectedRegionTooSmall { protected_region_size: size, header_length },
        ),
{
}

proof fn placed_parts_are_clipped(segments: Seq<ProgramHeader>, flash: Option<u32>, i: int)
    requires
        placed_segments(segments, flash) is Ok,
        0 <= i < segments.len(),
    ensures
        clipped(segments[i], flash) is Ok,
    decreases segments.len(),
{
    if i < segments.len() - 1 {
        placed_parts_are_clipped(segments.drop_last(), flash, i);
    }
}

/// Every segment with contents to load is in the binary, whatever its flags are: as
/// it is if it is loaded at the start of flash or after, or if there is no such
/// start, and otherwise the part from the start of flash on. Only a segment that
/// ends before that is left out.
pub proof fn every_loaded_segment_is_placed(
    object: ElfView,
    file: Seq<u8>,
    options: &ConvertOptions,
    plan: Plan,
    header_length: usize,
    i: int,
)
    requires
        layout_of(object, file, options, plan, header_length) is Ok,
        0 <= i < (object.segments->0).len(),
        (object.segments->0)[i].p_type == PT_LOAD,
        (object.segments->0)[i].p_filesz > 0,
    ensures
        ({
            let segment = (object.segments->0)[i];
            let placed = layout_of(object, file, options, plan, header_length)->Ok_0.segments;
            match plan.header.fixed_address_flash {
                None => placed.contains(segment),
                Some(start) => {
                    &&& start <= segment.p_paddr ==> placed.contains(segment)
                    &&& segment.p_paddr < start <= segment.p_paddr + segment.p_filesz ==> exists|
                        k: int,
                    |
                        {
                            let part = #[trigger] placed[k];
                            let cut = start - segment.p_paddr;
                            &&& 0 <= k < placed.len()
                            &&& part.p_type == segment.p_type
                            &&& part.p_flags == segment.p_flags
                            &&& part.p_paddr == start
                            &&& part.p_vaddr == segment.p_vaddr + cut
                            &&& part.p_offset == segment.p_offset + cut
                            &&& part.p_filesz == segment.p_filesz - cut
                            &&& part.p_memsz == segment.p_memsz - cut
                        }
                },
            }
        }),
{
    let segments = object.segments->0;
    let flash = plan.header.fixed_address_flash;
    let segment = segments[i];
    let placed = layout_of(object, file, options, plan, header_length)->Ok_0.segments;
    placed_parts_are_clipped(segments, flash, i);
    if clipped(segment, flash)->Ok_0 is Some {
        every_part_is_placed(segments, flash, i);
        let part = clipped(segment, flash)->Ok_0->0;
        let k = choose|k: int| 0 <= k < placed.len() && placed[k] == part;
        assert(placed[k] == part);
    }
}

/// What is in the binary is a segment with contents to load, or the part of one from
/// the start of flash on.
pub proof fn only_loaded_segments_are_placed(
    object: ElfView,
    file: Seq<u8>,
    options: &ConvertOptions,
    plan: Plan,
    header_length: usize,
    k: int,
)
    requires
        layout_of(object, file, options, plan, header_length) is Ok,
        0 <= k < layout_of(object, file, options, plan, header_length)->Ok_0.segments.len(),
    ensures
        ({
            let segments = object.segments->0;
            let part = layout_of(object, file, options, plan, header_length)->Ok_0.segments[k];
            exists|i: int|
                {
                    let segment = #[trigger] segments[i];
                    let cut = part.p_paddr - segment.p_paddr;
                    &&& 0 <= i < segments.len()
                    &&& segment.p_type == PT_LOAD
                    &&& segment.p_filesz > 0
                    &&& part.p_type == segment.p_type
                    &&& part.p_flags == segment.p_flags
                    &&& part.p_vaddr == segment.p_vaddr + cut
                    &&& part.p_offset == segment.p_offset + cut
                    &&& part.p_filesz == segment.p_filesz - cut
                    &&& part.p_memsz == segment.p_memsz - cut
                    &&& cut >= 0
                    &&& cut > 0 ==> plan.header.fixed_address_flash == Some(part.p_paddr as u32)
                        && part.p_paddr <= u32::MAX
                    &&& plan.header.fixed_address_flash matches Some(start) ==> start
                        <= part.p_paddr
                }
        }),
{
    let segments = object.segments->0;
    let flash = plan.header.fixed_address_flash;
    only_parts_are_placed(segments, flash, k);
    let part = layout_of(object, file, options, plan, header_length)->Ok_0.segments[k];
    let i = choose|i: int|
        0 <= i < segments.len() && clipped(#[trigger] segments[i], flash) == Ok::<
            Option<ProgramHeader>,
            ConvertError,
        >(Some(part));
    assert(clipped(segments[i], flash) == Ok::<Option<ProgramHeader>, ConvertError>(Some(part)));
}

/// The parts of segments that are placed are in the order of the segments: those of
/// some segments come before those of later ones. A single segment gives at most one.
pub proof fn segments_are_placed_in_order(
    first: Seq<ProgramHeader>,
    second: Seq<ProgramHeader>,
    segment: ProgramHeader,
    flash: Option<u32>,
)
    requires
        placed_segments(first, flash) is Ok,
        placed_segments(second, flash) is Ok,
    ensures
        placed_segments(first + second, flash) == Ok::<Seq<ProgramHeader>, ConvertError>(
            placed_segments(first, flash)->Ok_0 + placed_segments(second, flash)->Ok_0,
        ),
        placed_segments(seq![segment], flash) matches Ok(placed) ==> placed.len() <= 1,
    decreases second.len(),
{
    let one = seq![segment];
    assert(one.drop_last() =~= Seq::<ProgramHeader>::empty());
    assert(placed_segments(one.drop_last(), flash) == Ok::<Seq<ProgramHeader>, ConvertError>(
        Seq::empty(),
    ));
    let both = first + second;
    if second.len() == 0 {
        assert(both =~= first);
        assert(placed_segments(first, flash)->Ok_0 + placed_segments(second, flash)->Ok_0
            =~= placed_segments(first, flash)->Ok_0);
    } else {
        segments_are_placed_in_order(first, second.drop_last(), segment, flash);
        assert(both.drop_last() =~= first + second.drop_last());
        assert(both.last() == second.last());
        assert(placed_segments(both, flash)->Ok_0 =~= placed_segments(first, flash)->Ok_0
            + placed_segments(second, flash)->Ok_0);
    }
}

/// A layout has the parts of all segments of the object.
pub proof fn layout_places_all_segments(
    object: ElfView,
    file: Seq<u8>,
    options: &ConvertOptions,
    plan: Plan,
    header_length: usize,
)
    requires
        layout_of(object, file, options, plan, header_length) is Ok,
    ensures
        object.segments is Some,
        placed_segments(object.segments->0, plan.header.fixed_address_flash) == Ok::<
            Seq<ProgramHeader>,
            ConvertError,
        >(layout_of(object, file, options, plan, header_length)->Ok_0.segments),
{
}

/// The first segment follows the protected region. Each further one comes after the
/// end of the one before it, as far as its load address is after the end of that one
/// in memory, and right after it if it is not.
pub proof fn segments_follow_each_other(
    object: ElfView,
    file: Seq<u8>,
    options: &ConvertOptions,
    plan: Plan,
    header_length: usize,
    k: int,
)
    requires
        layout_of(object, file, options, plan, header_length) is Ok,
    ensures
        ({
            let layout = layout_of(object, file, options, plan, header_length)->Ok_0;
            let count = layout.segments.len();
            &&& layout.positions.len() == count
            &&& count > 0 ==> layout.positions[0] == layout.protected
            &&& 0 < k < count ==> {
                let last = layout.segments[k - 1];
                let distance = layout.segments[k].p_paddr - (last.p_paddr + last.p_filesz);
                let end = layout.positions[k - 1] + last.p_filesz;
                &&& distance >= 0 ==> layout.positions[k] == end + distance
                &&& distance < 0 ==> layout.positions[k] == end
            }
            &&& count == 0 ==> layout.end == layout.protected
            &&& count > 0 ==> layout.end == layout.positions[count - 1] + layout.segments[count
                - 1].p_filesz
        }),
{
    let layout = layout_of(object, file, options, plan, header_length)->Ok_0;
    let placed = layout.segments;
    let protected = layout.protected as int;
    assert(reached(placed, protected, 0) == protected);
    if 0 < k < placed.len() {
        assert(layout.positions[k - 1] == position(placed, protected, k - 1));
        assert(layout.positions[k] == position(placed, protected, k));
        assert(reached(placed, protected, k) == position(placed, protected, k - 1) + placed[k
            - 1].p_filesz);
    }
    if placed.len() > 0 {
        let n = placed.len() as int;
        assert(layout.positions[n - 1] == position(placed, protected, n - 1));
        assert(layout.positions[0] == position(placed, protected, 0));
        assert(reached(placed, protected, n) == position(placed, protected, n - 1) + placed[n
            - 1].p_filesz);
    }
}

proof fn image_is_zero_elsewhere(
    placed: Seq<ProgramHeader>,
    file: Seq<u8>,
    protected: int,
    n: int,
    x: int,
)
    requires
        0 <= n <= placed.len(),
        forall|j: int| 0 <= j < placed.len() ==> !is_missing(file, #[trigger] placed[j]),
        0 <= x < image(placed, file, n).len(),
        forall|k: int|
            0 <= k < n ==> !(position(placed, protected, k) - protected <= x < position(
                placed,
                protected,
                k,
            ) - protected + (#[trigger] placed[k]).p_filesz),
    ensures
        image(placed, file, n)[x] == 0,
    decreases n,
{
    if n > 0 {
        let shorter = image(placed, file, n - 1);
        image_length(placed, file, protected, n);
        image_length(placed, file, protected, n - 1);
        assert(!is_missing(file, placed[n - 1]));
        if x < shorter.len() {
            image_is_zero_elsewhere(placed, file, protected, n - 1, x);
        } else {
            let last = placed[n - 1];
            assert(!(position(placed, protected, n - 1) - protected <= x < position(
                placed,
                protected,
                n - 1,
            ) - protected + last.p_filesz));
        }
    }
}

/// No part that is placed in a layout lacks contents.
proof fn placed_parts_are_in_file(
    object: ElfView,
    file: Seq<u8>,
    options: &ConvertOptions,
    plan: Plan,
    header_length: usize,
)
    requires
        layout_of(object, file, options, plan, header_length) is Ok,
    ensures
        ({
            let layout = layout_of(object, file, options, plan, header_length)->Ok_0;
            &&& forall|j: int|
                0 <= j < layout.segments.len() ==> !is_missing(
                    file,
                    #[trigger] layout.segments[j],
                )
            &&& layout.binary.len() == layout.end - header_length
            &&& header_length <= layout.protected <= layout.end
            &&& layout.binary == zeros(layout.protected - header_length) + image(
                layout.segments,
                file,
                layout.segments.len() as int,
            )
            &&& layout.end == reached(
                layout.segments,
                layout.protected as int,
                layout.segments.len() as int,
            )
        }),
{
    let layout = layout_of(object, file, options, plan, header_length)->Ok_0;
    let placed = layout.segments;
    let protected = layout.protected as int;
    let count = placed.len() as int;
    assert(placing_fault(placed, file, protected) is None);
    assert forall|j: int| 0 <= j < placed.len() implies !is_missing(file, #[trigger] placed[j]) by {
        if is_missing(file, placed[j]) {
            assert(placing_fault(placed, file, protected) is Some);
        }
    }
    image_length(placed, file, protected, count);
    reached_grows(placed, protected, 0, count);
}

/// What follows the header has every byte of each segment at its position.
pub proof fn binary_has_bytes_of_segments(
    object: ElfView,
    file: Seq<u8>,
    options: &ConvertOptions,
    plan: Plan,
    header_length: usize,
    k: int,
    x: int,
)
    requires
        layout_of(object, file, options, plan, header_length) is Ok,
        0 <= k < layout_of(object, file, options, plan, header_length)->Ok_0.segments.len(),
        0 <= x < layout_of(object, file, options, plan, header_length)->Ok_0.segments[k].p_filesz,
    ensures
        ({
            let layout = layout_of(object, file, options, plan, header_length)->Ok_0;
            let at = layout.positions[k] - header_length + x;
            &&& layout.binary.len() == layout.end - header_length
            &&& 0 <= at < layout.binary.len()
            &&& layout.segments[k].p_offset + x < file.len()
            &&& layout.binary[at] == file[layout.segments[k].p_offset + x]
        }),
{
    let layout = layout_of(object, file, options, plan, header_length)->Ok_0;
    let placed = layout.segments;
    let protected = layout.protected as int;
    let count = placed.len() as int;
    placed_parts_are_in_file(object, file, options, plan, header_length);
    let whole = image(placed, file, count);
    image_has_contents(placed, file, protected, k, count);
    assert(!is_missing(file, placed[k]));
    assert(layout.positions[k] == position(placed, protected, k));
    let at = position(placed, protected, k) - protected;
    assert(whole[at + x] == whole.subrange(at, at + placed[k].p_filesz)[x]);
}

/// Where no segment is, what follows the header is zero.
pub proof fn binary_is_zero_elsewhere(
    object: ElfView,
    file: Seq<u8>,
    options: &ConvertOptions,
    plan: Plan,
    header_length: usize,
    x: int,
)
    requires
        layout_of(object, file, options, plan, header_length) is Ok,
        0 <= x < layout_of(object, file, options, plan, header_length)->Ok_0.binary.len(),
        ({
            let layout = layout_of(object, file, options, plan, header_length)->Ok_0;
            forall|j: int|
                0 <= j < layout.segments.len() ==> !(layout.positions[j] <= x + header_length
                    < layout.positions[j] + (#[trigger] layout.segments[j]).p_filesz)
        }),
    ensures
        layout_of(object, file, options, plan, header_length)->Ok_0.binary[x] == 0,
{
    let layout = layout_of(object, file, options, plan, header_length)->Ok_0;
    let placed = layout.segments;
    let protected = layout.protected as int;
    let count = placed.len() as int;
    placed_parts_are_in_file(object, file, options, plan, header_length);
    let y = x - (protected - header_length);
    if y >= 0 {
        assert forall|j: int| 0 <= j < count implies !(position(placed, protected, j) - protected
            <= y < position(placed, protected, j) - protected + (
        #[trigger] placed[j]).p_filesz) by {
            assert(layout.positions[j] == position(placed, protected, j));
        }
        image_is_zero_elsewhere(placed, file, protected, count, y);
        assert(layout.binary[x] == image(placed, file, count)[y]);
    }
}

proof fn segment_at_is_first(placed: Seq<ProgramHeader>, address: u64, from: int)
    requires
        0 <= from,
    ensures
        match segment_at_from(placed, address, from) {
            Some(k) => {
                &&& from <= k < placed.len()
                &&& placed[k].p_paddr <= address < placed[k].p_paddr + placed[k].p_filesz
                &&& forall|j: int|
                    from <= j < k ==> !((#[trigger] placed[j]).p_paddr <= address
                        < placed[j].p_paddr + placed[j].p_filesz)
            },
            None => forall|j: int|
                from <= j < placed.len() ==> !((#[trigger] placed[j]).p_paddr <= address
                    < placed[j].p_paddr + placed[j].p_filesz),
        },
    decreases placed.len() - from,
{
    if from < placed.len() && !(placed[from].p_paddr <= address < placed[from].p_paddr
        + placed[from].p_filesz) {
        segment_at_is_first(placed, address, from + 1);
    }
}

/// The entry point in the header is the distance from the end of the header to the
/// entry point in the first segment that has its address. There is none exactly if
/// no segment has it, and only a disabled app has it in two.
pub proof fn entry_point_is_in_first_segment(
    object: ElfView,
    file: Seq<u8>,
    options: &ConvertOptions,
    plan: Plan,
    header_length: usize,
    i: int,
    j: int,
)
    requires
        layout_of(object, file, options, plan, header_length) is Ok,
    ensures
        ({
            let layout = layout_of(object, file, options, plan, header_length)->Ok_0;
            let placed = layout.segments;
            let entry = object.header.e_entry;
            &&& match layout.init_fn_offset {
                Some(offset) => exists|k: int|
                    {
                        &&& 0 <= k < placed.len()
                        &&& (#[trigger] placed[k]).p_paddr <= entry < placed[k].p_paddr
                            + placed[k].p_filesz
                        &&& offset == low32(
                            layout.positions[k] + (entry - placed[k].p_paddr) - header_length,
                        )
                        &&& forall|m: int|
                            0 <= m < k ==> !((#[trigger] placed[m]).p_paddr <= entry
                                < placed[m].p_paddr + placed[m].p_filesz)
                    },
                None => forall|m: int|
                    0 <= m < placed.len() ==> !((#[trigger] placed[m]).p_paddr <= entry
                        < placed[m].p_paddr + placed[m].p_filesz),
            }
            &&& 0 <= i < j < placed.len() && placed[i].p_paddr <= entry < placed[i].p_paddr
                + placed[i].p_filesz && placed[j].p_paddr <= entry < placed[j].p_paddr
                + placed[j].p_filesz ==> options.disabled
        }),
{
    let layout = layout_of(object, file, options, plan, header_length)->Ok_0;
    let placed = layout.segments;
    let protected = layout.protected as int;
    let entry = object.header.e_entry;
    segment_at_is_first(placed, entry, 0);
    if let Some(k) = segment_at_from(placed, entry, 0) {
        segment_at_is_first(placed, entry, k + 1);
        assert(layout.positions[k] == position(placed, protected, k));
    }
}

proof fn got_in_segment_is_last(sections: Seq<SectionView>, segment: ProgramHeader, start: int)
    ensures
        match got_in_segment(sections, segment, start) {
            Some(at) => exists|i: int|
                {
                    &&& 0 <= i < sections.len()
                    &&& is_offset_table(#[trigger] sections[i], segment)
                    &&& at == start + (sections[i].header.sh_offset - segment.p_offset)
                    &&& forall|j: int|
                        i < j < sections.len() ==> !is_offset_table(
                            #[trigger] sections[j],
                            segment,
                        )
                },
            None => forall|j: int|
                0 <= j < sections.len() ==> !is_offset_table(#[trigger] sections[j], segment),
        },
    decreases sections.len(),
{
    if sections.len() > 0 {
        let rest = sections.drop_last();
        got_in_segment_is_last(rest, segment, start);
        assert(sections[sections.len() - 1] == sections.last());
        assert forall|j: int| 0 <= j < rest.len() implies rest[j] == #[trigger] sections[j] by {}
        if !is_offset_table(sections.last(), segment) {
            if let Some(at) = got_in_segment(rest, segment, start) {
                let i = choose|i: int|
                    {
                        &&& 0 <= i < rest.len()
                        &&& is_offset_table(#[trigger] rest[i], segment)
                        &&& at == start + (rest[i].header.sh_offset - segment.p_offset)
                        &&& forall|j: int|
                            i < j < rest.len() ==> !is_offset_table(#[trigger] rest[j], segment)
                    };
                assert(sections[i] == rest[i]);
                assert forall|j: int| i < j < sections.len() implies !is_offset_table(
                    #[trigger] sections[j],
                    segment,
                ) by {
                    if j < rest.len() {
                        assert(!is_offset_table(rest[j], segment));
                    }
                }
            }
        }
    }
}

/// Whether a section is the global offset table of a segment, by its name and size.
pub open spec fn is_offset_table(section: SectionView, segment: ProgramHeader) -> bool {
    section.header.sh_size > 0 && in_segment(section.header, segment) && section.name == ".got"@
}

proof fn got_position_is_last(
    sections: Seq<SectionView>,
    placed: Seq<ProgramHeader>,
    protected: int,
    n: int,
)
    requires
        0 <= n <= placed.len(),
    ensures
        match got_position(sections, placed, protected, n) {
            Some(at) => exists|i: int, k: int|
                {
                    &&& 0 <= i < sections.len()
                    &&& 0 <= k < n
                    &&& #[trigger] is_offset_table(sections[i], placed[k])
                    &&& at == position(placed, protected, k) + (sections[i].header.sh_offset
                        - placed[k].p_offset)
                    &&& forall|j: int, m: int|
                        0 <= j < sections.len() && (k < m < n || (m == k && i < j))
                            ==> !#[trigger] is_offset_table(sections[j], placed[m])
                },
            None => forall|j: int, m: int|
                0 <= j < sections.len() && 0 <= m < n ==> !#[trigger] is_offset_table(
                    sections[j],
                    placed[m],
                ),
        },
    decreases n,
{
    if n > 0 {
        let start = position(placed, protected, n - 1);
        got_in_segment_is_last(sections, placed[n - 1], start);
        if let Some(at) = got_in_segment(sections, placed[n - 1], start) {
            let i = choose|i: int|
                {
                    &&& 0 <= i < sections.len()
                    &&& is_offset_table(#[trigger] sections[i], placed[n - 1])
                    &&& at == start + (sections[i].header.sh_offset - placed[n - 1].p_offset)
                    &&& forall|j: int|
                        i < j < sections.len() ==> !is_offset_table(
                            #[trigger] sections[j],
                            placed[n - 1],
                        )
                };
            assert(is_offset_table(sections[i], placed[n - 1]));
        } else {
            got_position_is_last(sections, placed, protected, n - 1);
            if let Some(at) = got_position(sections, placed, protected, n - 1) {
                let (i, k) = choose|i: int, k: int|
                    {
                        &&& 0 <= i < sections.len()
                        &&& 0 <= k < n - 1
                        &&& #[trigger] is_offset_table(sections[i], placed[k])
                        &&& at == position(placed, protected, k) + (sections[i].header.sh_offset
                            - placed[k].p_offset)
                        &&& forall|j: int, m: int|
                            0 <= j < sections.len() && (k < m < n - 1 || (m == k && i < j))
                                ==> !#[trigger] is_offset_table(sections[j], placed[m])
                    };
                assert(is_offset_table(sections[i], placed[k]));
                assert forall|j: int, m: int|
                    0 <= j < sections.len() && (k < m < n || (m == k && i < j)) implies
                    !#[trigger] is_offset_table(sections[j], placed[m]) by {
                    if m == n - 1 {
                        assert(!is_offset_table(sections[j], placed[n - 1]));
                    }
                }
            }
        }
    }
}

/// The global offset table is the last section `.got` with a size in the last of the
/// segments that have one, at the distance from the segment that it has in the file.
/// There is none exactly if no segment has one.
pub proof fn offset_table_is_last(
    object: ElfView,
    file: Seq<u8>,
    options: &ConvertOptions,
    plan: Plan,
    header_length: usize,
)
    requires
        layout_of(object, file, options, plan, header_length) is Ok,
    ensures
        ({
            let layout = layout_of(object, file, options, plan, header_length)->Ok_0;
            let sections = object.sections;
            let placed = layout.segments;
            match layout.got {
                Some(at) => exists|i: int, k: int|
                    {
                        &&& 0 <= i < sections.len()
                        &&& 0 <= k < placed.len()
                        &&& #[trigger] is_offset_table(sections[i], placed[k])
                        &&& at == layout.positions[k] + (sections[i].header.sh_offset
                            - placed[k].p_offset)
                        &&& forall|j: int, m: int|
                            0 <= j < sections.len() && (k < m < placed.len() || (m == k && i < j))
                                ==> !#[trigger] is_offset_table(sections[j], placed[m])
                    },
                None => forall|j: int, m: int|
                    0 <= j < sections.len() && 0 <= m < placed.len()
                        ==> !#[trigger] is_offset_table(sections[j], placed[m]),
            }
        }),
{
    let layout = layout_of(object, file, options, plan, header_length)->Ok_0;
    let placed = layout.segments;
    let protected = layout.protected as int;
    got_position_is_last(object.sections, placed, protected, placed.len() as int);
    if let Some(at) = layout.got {
        let (i, k) = choose|i: int, k: int|
            {
                &&& 0 <= i < object.sections.len()
                &&& 0 <= k < placed.len()
                &&& #[trigger] is_offset_table(object.sections[i], placed[k])
                &&& at == position(placed, protected, k) + (object.sections[i].header.sh_offset
                    - placed[k].p_offset)
                &&& forall|j: int, m: int|
                    0 <= j < object.sections.len() && (k < m < placed.len() || (m == k && i < j))
                        ==> !#[trigger] is_offset_table(object.sections[j], placed[m])
            };
        assert(layout.positions[k] == position(placed, protected, k));
        assert(is_offset_table(object.sections[i], placed[k]));
    }
}

/// A section with a size and `.wfr` in its name that is in a segment of the binary
/// is in the header, at its distance from the segment in memory and with its size.
pub proof fn every_region_is_in_header(
    object: ElfView,
    file: Seq<u8>,
    options: &ConvertOptions,
    plan: Plan,
    header_length: usize,
    i: int,
    k: int,
)
    requires
        layout_of(object, file, options, plan, header_length) is Ok,
        0 <= i < object.sections.len(),
        0 <= k < layout_of(object, file, options, plan, header_length)->Ok_0.segments.len(),
        object.sections[i].header.sh_size > 0,
        in_segment(
            object.sections[i].header,
            layout_of(object, file, options, plan, header_length)->Ok_0.segments[k],
        ),
        occurs_in(".wfr"@, object.sections[i].name),
    ensures
        ({
            let layout = layout_of(object, file, options, plan, header_length)->Ok_0;
            let header = object.sections[i].header;
            layout.regions.contains(
                (
                    low32(layout.positions[k] + (header.sh_addr - layout.segments[k].p_vaddr)),
                    low32(header.sh_size as int),
                ),
            )
        }),
{
    let layout = layout_of(object, file, options, plan, header_length)->Ok_0;
    let placed = layout.segments;
    let protected = layout.protected as int;
    assert(layout.positions[k] == position(placed, protected, k));
    region_is_listed(object.sections, placed, protected, placed.len() as int, i, k);
}

/// Every writeable flash region in the header is such a section.
pub proof fn only_regions_are_in_header(
    object: ElfView,
    file: Seq<u8>,
    options: &ConvertOptions,
    plan: Plan,
    header_length: usize,
    r: int,
)
    requires
        layout_of(object, file, options, plan, header_length) is Ok,
        0 <= r < layout_of(object, file, options, plan, header_length)->Ok_0.regions.len(),
    ensures
        ({
            let layout = layout_of(object, file, options, plan, header_length)->Ok_0;
            exists|i: int, k: int|
                {
                    let section = #[trigger] object.sections[i];
                    let segment = #[trigger] layout.segments[k];
                    &&& 0 <= i < object.sections.len()
                    &&& 0 <= k < layout.segments.len()
                    &&& section.header.sh_size > 0
                    &&& in_segment(section.header, segment)
                    &&& occurs_in(".wfr"@, section.name)
                    &&& layout.regions[r].0 == low32(
                        layout.positions[k] + (section.header.sh_addr - segment.p_vaddr),
                    )
                    &&& layout.regions[r].1 == low32(section.header.sh_size as int)
                }
        }),
{
    let layout = layout_of(object, file, options, plan, header_length)->Ok_0;
    let placed = layout.segments;
    let protected = layout.protected as int;
    let n = placed.len() as int;
    region_is_section(object.sections, placed, protected, n, r);
    let (i, k) = choose|i: int, k: int|
        {
            &&& 0 <= i < object.sections.len()
            &&& 0 <= k < n
            &&& is_region_of(#[trigger] object.sections[i], #[trigger] placed[k])
            &&& regions(object.sections, placed, protected, n)[r] == region_values(
                object.sections[i],
                placed[k],
                position(placed, protected, k),
            )
        };
    assert(layout.positions[k] == position(placed, protected, k));
    assert(object.sections[i].header.sh_size > 0 && layout.segments[k] == placed[k]);
}

/// The regions of a segment are in the order of its sections, and those of segments
/// in their order, each once.
pub proof fn regions_are_in_order(
    first: Seq<SectionView>,
    second: Seq<SectionView>,
    section: SectionView,
    segment: ProgramHeader,
    start: int,
)
    ensures
        regions_of_segment(Seq::empty(), segment, start) == Seq::<(u32, u32)>::empty(),
        regions_of_segment(first + second, segment, start) == regions_of_segment(
            first,
            segment,
            start,
        ) + regions_of_segment(second, segment, start),
        regions_of_segment(seq![section], segment, start) == if section.header.sh_size > 0
            && in_segment(section.header, segment) && occurs_in(".wfr"@, section.name) {
            seq![
                (
                    low32(start + (section.header.sh_addr - segment.p_vaddr)),
                    low32(section.header.sh_size as int),
                ),
            ]
        } else {
            Seq::empty()
        },
    decreases second.len(),
{
    let one = seq![section];
    assert(one.drop_last() =~= Seq::<SectionView>::empty());
    assert(regions_of_segment(one.drop_last(), segment, start) =~= Seq::<(u32, u32)>::empty());
    let both = first + second;
    if second.len() == 0 {
        assert(both =~= first);
        assert(regions_of_segment(first, segment, start) + regions_of_segment(
            second,
            segment,
            start,
        ) =~= regions_of_segment(first, segment, start));
    } else {
        regions_are_in_order(first, second.drop_last(), section, segment, start);
        assert(both.drop_last() =~= first + second.drop_last());
        assert(both.last() == second.last());
        assert(regions_of_segment(both, segment, start) =~= regions_of_segment(
            first,
            segment,
            start,
        ) + regions_of_segment(second, segment, start));
    }
}

/// The header lists the regions of one segment after the other.
pub proof fn header_lists_regions_of_segments(
    object: ElfView,
    file: Seq<u8>,
    options: &ConvertOptions,
    plan: Plan,
    header_length: usize,
    k: int,
)
    requires
        layout_of(object, file, options, plan, header_length) is Ok,
    ensures
        ({
            let layout = layout_of(object, file, options, plan, header_length)->Ok_0;
            let sections = object.sections;
            let placed = layout.segments;
            let protected = layout.protected as int;
            &&& layout.regions == regions(sections, placed, protected, placed.len() as int)
            &&& regions(sections, placed, protected, 0) == Seq::<(u32, u32)>::empty()
            &&& 0 <= k < placed.len() ==> regions(sections, placed, protected, k + 1) == regions(
                sections,
                placed,
                protected,
                k,
            ) + regions_of_segment(sections, placed[k], layout.positions[k])
        }),
{
    let layout = layout_of(object, file, options, plan, header_length)->Ok_0;
    if 0 <= k < layout.segments.len() {
        assert(layout.positions[k] == position(layout.segments, layout.protected as int, k));
    }
}

/// For every writable section with a size that is in a segment of the binary,
/// whatever the addresses of the segment are, the contents of the first section with
/// the same name after `.rel` are in the relocation data.
pub proof fn writable_section_has_relocation_data(
    object: ElfView,
    file: Seq<u8>,
    options: &ConvertOptions,
    plan: Plan,
    header_length: usize,
    i: int,
    k: int,
    r: int,
)
    requires
        layout_of(object, file, options, plan, header_length) is Ok,
        0 <= i < object.sections.len(),
        0 <= k < layout_of(object, file, options, plan, header_length)->Ok_0.segments.len(),
        object.sections[i].header.sh_size > 0,
        (object.sections[i].header.sh_flags as u32) & SHF_WRITE != 0,
        in_segment(
            object.sections[i].header,
            layout_of(object, file, options, plan, header_length)->Ok_0.segments[k],
        ),
        0 <= r < object.sections.len(),
        object.sections[r].name == ".rel"@ + object.sections[i].name,
        forall|j: int|
            0 <= j < r ==> (#[trigger] object.sections[j]).name != ".rel"@
                + object.sections[i].name,
        object.sections[r].data is Some,
    ensures
        ({
            let data = object.sections[r].data->0;
            let all = layout_of(object, file, options, plan, header_length)->Ok_0.relocation_data;
            exists|at: int|
                {
                    &&& 0 <= at
                    &&& at + data.len() <= all.len()
                    &&& #[trigger] all.subrange(at, at + data.len()) == data
                }
        }),
{
    let layout = layout_of(object, file, options, plan, header_length)->Ok_0;
    let placed = layout.segments;
    let name = object.sections[i].name;
    let data = object.sections[r].data->0;
    section_named_is_first(object.sections, ".rel"@ + name);
    let found = section_named(object.sections, ".rel"@ + name);
    if found is None {
        assert(object.sections[r].name != ".rel"@ + name);
    } else {
        let m = choose|m: int|
            {
                &&& 0 <= m < object.sections.len()
                &&& #[trigger] object.sections[m] == found->0
                &&& (found->0).name == ".rel"@ + name
                &&& forall|j: int|
                    0 <= j < m ==> (#[trigger] object.sections[j]).name != ".rel"@ + name
            };
        assert(object.sections[m].name == ".rel"@ + name);
        assert(object.sections[r].name == ".rel"@ + name);
        assert(m == r);
    }
    relocation_data_is_there(object.sections, placed, i, k, placed.len() as int);
    let all = layout.relocation_data;
    assert(is_part_of(data, all));
    let at = choose|at: int|
        0 <= at && at + data.len() <= all.len() && #[trigger] all.subrange(at, at + data.len())
            == data;
    assert(all.subrange(at, at + data.len()) == data);
}

/// The relocation data is that of one segment after the other, and within one that of
/// one section after the other. A section gives data exactly if it is writable, has a
/// size and is in the segment. It is what the section after `.rel` holds, if there
/// is one that can be read.
pub proof fn relocation_data_is_in_order(
    sections: Seq<SectionView>,
    placed: Seq<ProgramHeader>,
    k: int,
    n: int,
)
    requires
        0 <= k < placed.len(),
        0 <= n < sections.len(),
    ensures
        relocation_data(sections, placed, 0) == Seq::<u8>::empty(),
        relocation_data(sections, placed, k + 1) == relocation_data(sections, placed, k)
            + relocation_data_of_segment(sections, placed[k], sections.len() as int),
        relocation_data_of_segment(sections, placed[k], 0) == Seq::<u8>::empty(),
        relocation_data_of_segment(sections, placed[k], n + 1) == relocation_data_of_segment(
            sections,
            placed[k],
            n,
        ) + (if sections[n].header.sh_size > 0 && in_segment(sections[n].header, placed[k])
            && (sections[n].header.sh_flags as u32) & SHF_WRITE != 0 {
            match section_named(sections, ".rel"@ + sections[n].name) {
                Some(found) => match found.data {
                    Some(data) => data,
                    None => Seq::empty(),
                },
                None => Seq::empty(),
            }
        } else {
            Seq::<u8>::empty()
        }),
{
    let before = relocation_data_of_segment(sections, placed[k], n);
    assert(before + Seq::<u8>::empty() =~= before);
}

/// A layout has the relocation data for all its segments.
pub proof fn layout_has_all_relocation_data(
    object: ElfView,
    file: Seq<u8>,
    options: &ConvertOptions,
    plan: Plan,
    header_length: usize,
)
    requires
        layout_of(object, file, options, plan, header_length) is Ok,
    ensures
        ({
            let layout = layout_of(object, file, options, plan, header_length)->Ok_0;
            layout.relocation_data == relocation_data(
                object.sections,
                layout.segments,
                layout.segments.len() as int,
            )
        }),
{
}

/// Parts that are placed one before the other come of segments one before the other.
pub proof fn parts_come_in_order(segments: Seq<ProgramHeader>, flash: Option<u32>, k: int, m: int)
    requires
        placed_segments(segments, flash) is Ok,
        0 <= k < m < placed_segments(segments, flash)->Ok_0.len(),
    ensures
        exists|i: int, j: int|
            {
                &&& 0 <= i < j < segments.len()
                &&& clipped(#[trigger] segments[i], flash) == Ok::<
                    Option<ProgramHeader>,
                    ConvertError,
                >(Some(placed_segments(segments, flash)->Ok_0[k]))
                &&& clipped(#[trigger] segments[j], flash) == Ok::<
                    Option<ProgramHeader>,
                    ConvertError,
                >(Some(placed_segments(segments, flash)->Ok_0[m]))
            },
    decreases segments.len(),
{
    let placed = placed_segments(segments, flash)->Ok_0;
    let rest = segments.drop_last();
    let before = placed_segments(rest, flash)->Ok_0;
    if m < before.len() {
        parts_come_in_order(rest, flash, k, m);
        let (i, j) = choose|i: int, j: int|
            {
                &&& 0 <= i < j < rest.len()
                &&& clipped(#[trigger] rest[i], flash) == Ok::<
                    Option<ProgramHeader>,
                    ConvertError,
                >(Some(before[k]))
                &&& clipped(#[trigger] rest[j], flash) == Ok::<
                    Option<ProgramHeader>,
                    ConvertError,
                >(Some(before[m]))
            };
        assert(segments[i] == rest[i] && segments[j] == rest[j]);
    } else {
        only_parts_are_placed(rest, flash, k);
        let i = choose|i: int|
            0 <= i < rest.len() && clipped(#[trigger] rest[i], flash) == Ok::<
                Option<ProgramHeader>,
                ConvertError,
            >(Some(before[k]));
        assert(segments[i] == rest[i]);
        assert(segments[segments.len() - 1] == segments.last());
    }
}

/// Whether a segment or its place is too large for the types that hold it.
pub open spec fn is_oversized(segment: ProgramHeader) -> bool {
    ||| segment.p_paddr + segment.p_filesz > u64::MAX
    ||| segment.p_offset + segment.p_filesz > u64::MAX
    ||| segment.p_vaddr + segment.p_filesz > u64::MAX
    ||| segment.p_memsz < segment.p_filesz
}

/// Whether the place of a section that is needed by its name cannot be told from its
/// distance to the start of the segment.
pub open spec fn is_out_of_reach(
    section: SectionView,
    segment: ProgramHeader,
    start: int,
) -> bool {
    &&& section.header.sh_size > 0
    &&& in_segment(section.header, segment)
    &&& {
        ||| section.name == ".got"@ && (section.header.sh_offset < segment.p_offset || start + (
        section.header.sh_offset - segment.p_offset) > usize::MAX)
        ||| occurs_in(".wfr"@, section.name) && (section.header.sh_addr < segment.p_vaddr || start
            + (section.header.sh_addr - segment.p_vaddr) > usize::MAX)
    }
}

proof fn segments_fail_for_reason(segments: Seq<ProgramHeader>, flash: Option<u32>)
    requires
        placed_segments(segments, flash) is Err,
    ensures
        placed_segments(segments, flash)->Err_0 == ConvertError::Overflow,
        exists|i: int|
            0 <= i < segments.len() && (#[trigger] segments[i]).p_type == PT_LOAD
                && segments[i].p_filesz > 0 && is_oversized(segments[i]),
    decreases segments.len(),
{
    let rest = segments.drop_last();
    if placed_segments(rest, flash) is Err {
        segments_fail_for_reason(rest, flash);
        let i = choose|i: int|
            0 <= i < rest.len() && (#[trigger] rest[i]).p_type == PT_LOAD && rest[i].p_filesz > 0
                && is_oversized(rest[i]);
        assert(segments[i] == rest[i]);
    } else {
        assert(segments[segments.len() - 1] == segments.last());
    }
}

/// A layout fails only for a reason that the object and the options show: no
/// segments, a symbol that cannot be looked up, a protected region that is too small,
/// contents outside the file, an entry point in two segments of an app that is not
/// disabled, or something that is too large.
pub proof fn layout_fails_for_reason(
    object: ElfView,
    file: Seq<u8>,
    options: &ConvertOptions,
    plan: Plan,
    header_length: usize,
)
    requires
        layout_of(object, file, options, plan, header_length) is Err,
    ensures
        ({
            let segments = object.segments->0;
            let flash = plan.header.fixed_address_flash;
            let entry = object.header.e_entry;
            match layout_of(object, file, options, plan, header_length)->Err_0 {
                ConvertError::NoProgramHeaders => object.segments is None,
                ConvertError::SymbolName => symbol_value(
                    object.symbols,
                    "tbf_protected_region_size"@,
                ) is Err,
                ConvertError::ProtectedRegionTooSmall {
                    protected_region_size,
                    header_length: needed,
                } => {
                    &&& protected_region_size < header_length
                    &&& needed == header_length
                    &&& match symbol_value(object.symbols, "tbf_protected_region_size"@) {
                        Ok(Some(said)) => protected_region_size == said,
                        Ok(None) => match (options.protected_region_size, flash) {
                            (Some(said), _) => protected_region_size == said,
                            (None, Some(address)) => !plan.pic && protected_region_size == address
                                % 256,
                            (None, None) => !plan.pic && protected_region_size == 0,
                        },
                        Err(_) => false,
                    }
                },
                ConvertError::SegmentData => exists|i: int|
                    0 <= i < segments.len() && (#[trigger] segments[i]).p_type == PT_LOAD
                        && segments[i].p_filesz > 0 && segments[i].p_offset + segments[i].p_filesz
                        > file.len(),
                ConvertError::DuplicateEntryPoint => !options.disabled && exists|i: int, j: int|
                    {
                        let one = #[trigger] segments[i];
                        let other = #[trigger] segments[j];
                        &&& 0 <= i < j < segments.len()
                        &&& one.p_type == PT_LOAD && other.p_type == PT_LOAD
                        &&& one.p_paddr <= entry < one.p_paddr + one.p_filesz
                        &&& other.p_paddr <= entry < other.p_paddr + other.p_filesz
                    },
                ConvertError::Overflow => {
                    ||| header_length > u32::MAX
                    ||| exists|i: int|
                        0 <= i < segments.len() && (#[trigger] segments[i]).p_type == PT_LOAD
                            && segments[i].p_filesz > 0 && is_oversized(segments[i])
                    ||| placed_segments(segments, flash) matches Ok(placed) && exists|
                        protected: u32,
                    |
                        {
                            ||| #[trigger] reached(placed, protected as int, placed.len() as int)
                                > usize::MAX
                            ||| exists|i: int, k: int|
                                0 <= i < object.sections.len() && 0 <= k < placed.len()
                                    && #[trigger] is_out_of_reach(
                                    object.sections[i],
                                    placed[k],
                                    position(placed, protected as int, k),
                                )
                        }
                },
                _ => false,
            }
        }),
{
    let segments = object.segments->0;
    let flash = plan.header.fixed_address_flash;
    let entry = object.header.e_entry;
    symbol_value_is_first(
        match object.symbols {
            Some(s) => s,
            None => Seq::empty(),
        },
        "tbf_protected_region_size"@,
    );
    if object.segments is Some && protected_region(
        object,
        options,
        plan,
        header_length,
    ) is Ok {
        let protected = protected_region(
            object,
            options,
            plan,
            header_length,
        )->Ok_0;
        if placed_segments(segments, flash) is Err {
            segments_fail_for_reason(segments, flash);
        } else {
            let placed = placed_segments(segments, flash)->Ok_0;
            placing_fails_for_reason(
                object,
                file,
                segments,
                flash,
                placed,
                protected,
                header_length,
                options.disabled,
            );
        }
    }
}

proof fn placing_fails_for_reason(
    object: ElfView,
    file: Seq<u8>,
    segments: Seq<ProgramHeader>,
    flash: Option<u32>,
    placed: Seq<ProgramHeader>,
    protected: u32,
    header_length: usize,
    disabled: bool,
)
    requires
        placed_segments(segments, flash) == Ok::<Seq<ProgramHeader>, ConvertError>(placed),
    ensures
        match placing_fault(placed, file, protected as int) {
            Some(e) => {
                ||| e == ConvertError::SegmentData && exists|i: int|
                    0 <= i < segments.len() && (#[trigger] segments[i]).p_type == PT_LOAD
                        && segments[i].p_filesz > 0 && segments[i].p_offset + segments[i].p_filesz
                        > file.len()
                ||| e == ConvertError::Overflow && exists|i: int|
                    0 <= i < segments.len() && (#[trigger] segments[i]).p_type == PT_LOAD
                        && segments[i].p_filesz > 0 && is_oversized(segments[i])
                ||| e == ConvertError::Overflow && reached(
                    placed,
                    protected as int,
                    placed.len() as int,
                ) > usize::MAX
            },
            None => true,
        },
        entry_offset(
            placed,
            object.header.e_entry,
            protected as int,
            header_length as int,
            disabled,
        ) matches Err(e) ==> {
            &&& e == ConvertError::DuplicateEntryPoint
            &&& !disabled
            &&& exists|i: int, j: int|
                {
                    let one = #[trigger] segments[i];
                    let other = #[trigger] segments[j];
                    &&& 0 <= i < j < segments.len()
                    &&& one.p_type == PT_LOAD && other.p_type == PT_LOAD
                    &&& one.p_paddr <= object.header.e_entry < one.p_paddr + one.p_filesz
                    &&& other.p_paddr <= object.header.e_entry < other.p_paddr + other.p_filesz
                }
        },
        any_lost_in_image(object.sections, placed, protected as int) ==> exists|i: int, k: int|
            0 <= i < object.sections.len() && 0 <= k < placed.len()
                && #[trigger] is_out_of_reach(
                object.sections[i],
                placed[k],
                position(placed, protected as int, k),
            ),
{
    let entry = object.header.e_entry;
    if exists|k: int| 0 <= k < placed.len() && is_missing(file, #[trigger] placed[k]) {
        let k = choose|k: int| 0 <= k < placed.len() && is_missing(file, #[trigger] placed[k]);
        only_parts_are_placed(segments, flash, k);
        let i = choose|i: int|
            0 <= i < segments.len() && clipped(#[trigger] segments[i], flash) == Ok::<
                Option<ProgramHeader>,
                ConvertError,
            >(Some(placed[k]));
        assert(segments[i].p_offset + segments[i].p_filesz > file.len());
    } else if exists|k: int|
        0 <= k < placed.len() && load_end(#[trigger] placed[k]) > u64::MAX {
        let k = choose|k: int|
            0 <= k < placed.len() && load_end(#[trigger] placed[k]) > u64::MAX;
        only_parts_are_placed(segments, flash, k);
        let i = choose|i: int|
            0 <= i < segments.len() && clipped(#[trigger] segments[i], flash) == Ok::<
                Option<ProgramHeader>,
                ConvertError,
            >(Some(placed[k]));
        assert(is_oversized(segments[i]));
    }
    segment_at_is_first(placed, entry, 0);
    if let Some(k) = segment_at_from(placed, entry, 0) {
        segment_at_is_first(placed, entry, k + 1);
        if let Some(m) = segment_at_from(placed, entry, k + 1) {
            parts_come_in_order(segments, flash, k, m);
            let (i, j) = choose|i: int, j: int|
                {
                    &&& 0 <= i < j < segments.len()
                    &&& clipped(#[trigger] segments[i], flash) == Ok::<
                        Option<ProgramHeader>,
                        ConvertError,
                    >(Some(placed[k]))
                    &&& clipped(#[trigger] segments[j], flash) == Ok::<
                        Option<ProgramHeader>,
                        ConvertError,
                    >(Some(placed[m]))
                };
            assert(segments[i].p_paddr <= entry && segments[j].p_paddr <= entry);
        }
    }
    if any_lost_in_image(object.sections, placed, protected as int) {
        let k = choose|k: int|
            0 <= k < placed.len() && #[trigger] any_lost_at(
                object.sections,
                placed,
                protected as int,
                k,
            );
        let start = position(placed, protected as int, k);
        let i = choose|i: int|
            0 <= i < object.sections.len() && (got_is_lost(
                #[trigger] object.sections[i],
                placed[k],
                start,
            ) || region_is_lost(object.sections[i], placed[k], start));
        assert(is_out_of_reach(object.sections[i], placed[k], start));
    }
}

/// What there is to say about the gap before a segment is by the distance of the load
/// addresses.
pub open spec fn gap_said(placed: Seq<ProgramHeader>, k: int) -> Seq<Notice> {
    if k > 0 && placed[k].p_paddr < placed[k - 1].p_paddr + placed[k - 1].p_filesz {
        seq![Notice::OutOfOrder]
    } else if k > 0 && placed[k].p_paddr - (placed[k - 1].p_paddr + placed[k - 1].p_filesz)
        >= 4096 {
        seq![Notice::LargePadding]
    } else {
        Seq::empty()
    }
}

/// What there is to say about the entry point in a segment is by those before it that
/// have it.
pub open spec fn entry_said(placed: Seq<ProgramHeader>, entry: u64, k: int) -> Seq<Notice> {
    if placed[k].p_paddr <= entry < placed[k].p_paddr + placed[k].p_filesz && exists|j: int|
        0 <= j < k && (#[trigger] placed[j]).p_paddr <= entry < placed[j].p_paddr
            + placed[j].p_filesz {
        seq![Notice::DuplicateEntryPoint]
    } else {
        Seq::empty()
    }
}

/// The caller is told of an overridden size first, then of each segment in its order,
/// and last of unaligned relocation data.
#[verifier::rlimit(30)]
pub proof fn notices_are_in_order(
    object: ElfView,
    file: Seq<u8>,
    options: &ConvertOptions,
    plan: Plan,
    header_length: usize,
    k: int,
)
    requires
        layout_of(object, file, options, plan, header_length) is Ok,
    ensures
        ({
            let layout = layout_of(object, file, options, plan, header_length)->Ok_0;
            let placed = layout.segments;
            let sections = object.sections;
            let entry = object.header.e_entry;
            let shared = plan.header.is_shared_library;
            let symbol = symbol_value(object.symbols, "tbf_protected_region_size"@);
            let overridden = symbol->Ok_0 is Some && options.protected_region_size is Some;
            &&& layout.notices == (if overridden {
                seq![Notice::ProtectedSizeOverridden(layout.protected)]
            } else {
                Seq::empty()
            }) + placing_notices(sections, placed, entry, shared, placed.len() as int) + (
            if layout.relocation_data.len() > 0 && layout.end % 4 != 0 {
                seq![Notice::UnalignedRelocationData(layout.end as usize)]
            } else {
                Seq::empty()
            })
            &&& placing_notices(sections, placed, entry, shared, 0) == Seq::<Notice>::empty()
            &&& 0 <= k < placed.len() ==> placing_notices(sections, placed, entry, shared, k + 1)
                == placing_notices(sections, placed, entry, shared, k) + gap_said(placed, k)
                + entry_said(placed, entry, k) + (if shared {
                segment_notices(sections, placed[k], sections.len() as int)
            } else {
                Seq::empty()
            })
        }),
{
    let layout = layout_of(object, file, options, plan, header_length)->Ok_0;
    let placed = layout.segments;
    let entry = object.header.e_entry;
    if 0 <= k < placed.len() {
        assert(gap_notices(placed, k) =~= gap_said(placed, k));
        if exists|j: int|
            0 <= j < k && (#[trigger] placed[j]).p_paddr <= entry < placed[j].p_paddr
                + placed[j].p_filesz {
            let j = choose|j: int|
                0 <= j < k && (#[trigger] placed[j]).p_paddr <= entry < placed[j].p_paddr
                    + placed[j].p_filesz;
            assert(holds_address(placed[j], entry));
        }
        assert(entry_notices(placed, entry, k) =~= entry_said(placed, entry, k));
    }
}

/// For a shared library, the kinds of all relocations of its code are told for each
/// section with a size in a segment.
pub proof fn relocation_kinds_are_told(
    sections: Seq<SectionView>,
    segment: ProgramHeader,
    n: int,
)
    requires
        0 <= n < sections.len(),
    ensures
        ({
            let rels = match section_named(sections, ".rel.text"@) {
                Some(section) => match section.rels {
                    Some(rels) => rels,
                    None => Seq::<Rel>::empty(),
                },
                None => Seq::<Rel>::empty(),
            };
            let kinds = Seq::new(rels.len(), |j: int| Notice::RelocationType(rels[j].r_type));
            &&& segment_notices(sections, segment, 0) == Seq::<Notice>::empty()
            &&& segment_notices(sections, segment, n + 1)
                == segment_notices(sections, segment, n) + (
            if sections[n].header.sh_size > 0 && in_segment(sections[n].header, segment) {
                kinds
            } else {
                Seq::empty()
            })
        }),
{
    let before = segment_notices(sections, segment, n);
    assert(before + Seq::<Notice>::empty() =~= before);
    let rels = text_rels(sections);
    assert(type_notices(rels) =~= Seq::new(
        rels.len(),
        |j: int| Notice::RelocationType(rels[j].r_type),
    ));
}

} // verus!
