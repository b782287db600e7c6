//! What holds of every conversion.
use crate::abi::{EM_386, EM_ARM, EM_RISCV, SHT_NOBITS};
use crate::error::ConvertError;
use crate::footer::{
    any_credential, credentials_length, credentials_over, footer_reserve, footer_rest, least_power,
    padding_is_not_negative, power_from_is_power, reserve_is_not_negative, room_after_credentials,
    sizes_of, tbf_after, tbf_body, Sizes, CREDENTIAL_BASE_SIZE, LEAST_PADDED_SIZE,
};
use crate::layout::{
    address_position, clipped, contents, file_position, gap_before, got_in_segment, got_position,
    holds_address, image, image_length, is_got_of, is_missing, layout_of, load_end,
    needs_relocation_data, placed_segments, placing_fault, position, protected_region, reached,
    reached_grows, regions, regions_of_segment, relocation_data, relocation_data_for,
    relocation_data_of_segment, segment_at_from, LayoutView, TBF_START_ALIGNMENT,
};
use crate::object::{ElfView, ProgramHeader, SectionView, SharedLibraryView};
use crate::plan::{
    is_loaded, is_region_of, plan_of, ram_is_not_negative, ram_size, region_count,
    regions_in_segment, resides_in_ram, ConvertOptions, Plan,
};
use crate::relocs::provider_from;
use crate::section::{in_segment_lies_in_file_part, nonempty_in_segment};
use crate::symbols::{fn_value, symbol_value};
use crate::util::{aligned_up_is_least_multiple, le32, low32, zeros};
use vstd::arithmetic::power2::pow2;
use vstd::prelude::*;

verus! {

/// The segments that a layout places.
pub open spec fn placed_by(object: ElfView, plan: Plan) -> Seq<ProgramHeader> {
    placed_segments(object.segments->0, plan.header.fixed_address_flash)->Ok_0
}

/// The protected region of a layout has room for the header, and the segments
/// come right after it.
pub proof fn binary_starts_after_protected_region(
    object: ElfView,
    file: Seq<u8>,
    options: &ConvertOptions,
    plan: Plan,
    header_length: usize,
)
    requires
        layout_of(object, file, options, plan, header_length) is Ok,
    ensures
        ({
            let layout = layout_of(object, file, options, plan, header_length)->Ok_0;
            &&& header_length <= layout.protected <= layout.end
            &&& layout.binary.len() == layout.end - header_length
            &&& layout.binary.take(layout.protected - header_length) == zeros(
                layout.protected - header_length,
            )
        }),
{
    let layout = layout_of(object, file, options, plan, header_length)->Ok_0;
    let placed = placed_by(object, plan);
    let protected = layout.protected as int;
    assert(placing_fault(placed, file, protected) is None);
    assert forall|j: int| 0 <= j < placed.len() implies !is_missing(file, #[trigger] placed[j]) by {
        if is_missing(file, placed[j]) {
            assert(placing_fault(placed, file, protected) is Some);
        }
    }
    image_length(placed, file, protected, placed.len() as int);
    reached_grows(placed, protected, 0, placed.len() as int);
    assert(layout.binary.take(protected - header_length) =~= zeros(protected - header_length));
}

/// What is before the footer ends where the sizes say that the footer starts,
/// if the header is as long as announced.
pub proof fn body_ends_at_footer(
    object: ElfView,
    file: Seq<u8>,
    options: &ConvertOptions,
    plan: Plan,
    before: Seq<u8>,
    header: Seq<u8>,
    machine: u16,
)
    requires
        header.len() <= usize::MAX,
        layout_of(object, file, options, plan, header.len() as usize) is Ok,
        sizes_of(
            layout_of(object, file, options, plan, header.len() as usize)->Ok_0,
            options,
            machine,
        ) is Ok,
    ensures
        ({
            let layout = layout_of(object, file, options, plan, header.len() as usize)->Ok_0;
            let sizes = sizes_of(layout, options, machine)->Ok_0;
            tbf_body(before, header, layout).len() == before.len() + sizes.end
        }),
{
    binary_starts_after_protected_region(object, file, options, plan, header.len() as usize);
}

/// The credentials cover all that is before the footer and nothing else, if the
/// output was empty before, the header is as long as announced, and what is
/// before the footer fits in 32 bits.
pub proof fn credentials_cover_body(
    object: ElfView,
    file: Seq<u8>,
    options: &ConvertOptions,
    plan: Plan,
    header: Seq<u8>,
    machine: u16,
)
    requires
        header.len() <= usize::MAX,
        layout_of(object, file, options, plan, header.len() as usize) is Ok,
        sizes_of(
            layout_of(object, file, options, plan, header.len() as usize)->Ok_0,
            options,
            machine,
        ) is Ok,
        sizes_of(
            layout_of(object, file, options, plan, header.len() as usize)->Ok_0,
            options,
            machine,
        )->Ok_0.end <= u32::MAX,
        any_credential(options),
    ensures
        ({
            let layout = layout_of(object, file, options, plan, header.len() as usize)->Ok_0;
            let sizes = sizes_of(layout, options, machine)->Ok_0;
            let body = tbf_body(Seq::empty(), header, layout);
            tbf_after(Seq::empty(), header, layout, sizes, options) == match credentials_over(
                options,
                body,
            ) {
                Ok(credentials) => Ok(body + credentials + footer_rest(sizes)),
                Err(e) => Err(e),
            }
        }),
{
    let layout = layout_of(object, file, options, plan, header.len() as usize)->Ok_0;
    let body = tbf_body(Seq::empty(), header, layout);
    body_ends_at_footer(object, file, options, plan, Seq::empty(), header, machine);
    assert(body.subrange(0, body.len() as int) =~= body);
}

/// The parts of a TBF take as much as its total size, if that fits in 32 bits:
/// all before the footer, the credentials, and what fills the footer.
pub proof fn parts_add_up(layout: LayoutView, options: &ConvertOptions, machine: u16)
    requires
        layout.end >= 0,
        sizes_of(layout, options, machine) is Ok,
        sizes_of(layout, options, machine)->Ok_0.total <= u32::MAX,
    ensures
        ({
            let sizes = sizes_of(layout, options, machine)->Ok_0;
            sizes.end + sizes.credentials + footer_rest(sizes).len() == sizes.total
        }),
{
    let sizes = sizes_of(layout, options, machine)->Ok_0;
    let end = layout.end + 4 + layout.relocation_data.len();
    let credentials = credentials_length(options);
    let initial = end + credentials - low32(end);
    let reserved = footer_reserve(options.minimum_footer_size, initial);
    reserve_is_not_negative(options.minimum_footer_size, initial);
    padding_is_not_negative(machine, end + credentials + reserved);
    if options.minimum_footer_size > initial {
        let needed = options.minimum_footer_size - initial;
        aligned_up_is_least_multiple(needed, 4);
        aligned_up_is_least_multiple(8, 4);
    }
    assert(low32(end) == end);
    assert(sizes.reserved == 0 || sizes.reserved >= CREDENTIAL_BASE_SIZE);
    assert(room_after_credentials(sizes) == sizes.reserved + sizes.padding);
}

/// The total size is what the architecture asks for: for ARM a power of two that
/// is not less than the least size, for RISC-V a multiple of 4, for x86 a multiple
/// of the page size. It is the least such size that all parts fit in. Other
/// architectures ask for nothing.
pub proof fn total_size_fits_architecture(
    layout: LayoutView,
    options: &ConvertOptions,
    machine: u16,
)
    requires
        layout.end >= 0,
        sizes_of(layout, options, machine) is Ok,
    ensures
        ({
            let sizes = sizes_of(layout, options, machine)->Ok_0;
            let total = sizes.total;
            let size = sizes.end + sizes.credentials + sizes.reserved;
            &&& size <= total
            &&& machine == EM_ARM ==> {
                &&& total >= LEAST_PADDED_SIZE
                &&& exists|e: nat| total == #[trigger] pow2(e)
                &&& total == LEAST_PADDED_SIZE || total < 2 * size
            }
            &&& machine == EM_RISCV ==> total % 4 == 0 && total < size + 4
            &&& machine == EM_386 ==> total % 4096 == 0 && total < size + 4096
            &&& machine != EM_ARM && machine != EM_RISCV && machine != EM_386 ==> total == size
        }),
{
    let end = layout.end + 4 + layout.relocation_data.len();
    let credentials = credentials_length(options);
    let initial = end + credentials - low32(end);
    let reserved = footer_reserve(options.minimum_footer_size, initial);
    let size = end + credentials + reserved;
    reserve_is_not_negative(options.minimum_footer_size, initial);
    padding_is_not_negative(machine, size);
    vstd::arithmetic::power2::lemma2_to64();
    power_from_is_power(1, size, 0);
    let total = sizes_of(layout, options, machine)->Ok_0.total;
    if machine == EM_ARM {
        if least_power(size) < LEAST_PADDED_SIZE {
            assert(total == pow2(9));
        } else {
            let e = choose|e: nat| least_power(size) == #[trigger] pow2(e);
            assert(total == pow2(e));
        }
    }
}

/// The footer has at least the size that the caller asks for, if the TBF fits in
/// 32 bits.
pub proof fn footer_has_minimum_size(layout: LayoutView, options: &ConvertOptions, machine: u16)
    requires
        layout.end >= 0,
        sizes_of(layout, options, machine) is Ok,
        sizes_of(layout, options, machine)->Ok_0.total <= u32::MAX,
    ensures
        ({
            let sizes = sizes_of(layout, options, machine)->Ok_0;
            sizes.total - sizes.end >= options.minimum_footer_size
        }),
{
    let end = layout.end + 4 + layout.relocation_data.len();
    let credentials = credentials_length(options);
    let initial = end + credentials - low32(end);
    let reserved = footer_reserve(options.minimum_footer_size, initial);
    reserve_is_not_negative(options.minimum_footer_size, initial);
    padding_is_not_negative(machine, end + credentials + reserved);
    if options.minimum_footer_size > initial {
        let needed = options.minimum_footer_size - initial;
        aligned_up_is_least_multiple(needed, 4);
    }
    assert(low32(end) == end);
}

/// In the first `n` segments with their gaps, the contents of each segment are at
/// its position.
pub proof fn image_has_contents(
    placed: Seq<ProgramHeader>,
    file: Seq<u8>,
    protected: int,
    k: int,
    n: int,
)
    requires
        0 <= k < n <= placed.len(),
        forall|j: int| 0 <= j < placed.len() ==> !is_missing(file, #[trigger] placed[j]),
    ensures
        ({
            let at = position(placed, protected, k) - protected;
            &&& 0 <= at
            &&& at + placed[k].p_filesz <= image(placed, file, n).len()
            &&& image(placed, file, n).subrange(at, at + placed[k].p_filesz) == contents(
                file,
                placed[k],
            )
        }),
    decreases n,
{
    let at = position(placed, protected, k) - protected;
    let whole = image(placed, file, n);
    let shorter = image(placed, file, n - 1);
    image_length(placed, file, protected, n);
    image_length(placed, file, protected, n - 1);
    reached_grows(placed, protected, 0, k);
    assert(!is_missing(file, placed[k]));
    if k < n - 1 {
        image_has_contents(placed, file, protected, k, n - 1);
        assert(whole.subrange(at, at + placed[k].p_filesz) =~= shorter.subrange(
            at,
            at + placed[k].p_filesz,
        ));
    } else {
        assert(whole.subrange(at, at + placed[k].p_filesz) =~= contents(file, placed[k]));
    }
}

/// Each segment that is placed is in the TBF, at its position, just as it is in
/// the file, if the header is as long as announced.
pub proof fn segment_is_at_its_position(
    object: ElfView,
    file: Seq<u8>,
    options: &ConvertOptions,
    plan: Plan,
    before: Seq<u8>,
    header: Seq<u8>,
    k: int,
)
    requires
        header.len() <= usize::MAX,
        layout_of(object, file, options, plan, header.len() as usize) is Ok,
        0 <= k < placed_by(object, plan).len(),
    ensures
        ({
            let layout = layout_of(object, file, options, plan, header.len() as usize)->Ok_0;
            let segment = placed_by(object, plan)[k];
            let at = before.len() + position(placed_by(object, plan), layout.protected as int, k);
            let body = tbf_body(before, header, layout);
            &&& 0 <= at
            &&& at + segment.p_filesz <= body.len()
            &&& body.subrange(at, at + segment.p_filesz) == contents(file, segment)
        }),
{
    let layout = layout_of(object, file, options, plan, header.len() as usize)->Ok_0;
    let placed = placed_by(object, plan);
    let protected = layout.protected as int;
    binary_starts_after_protected_region(object, file, options, plan, header.len() as usize);
    assert forall|j: int| 0 <= j < placed.len() implies !is_missing(file, #[trigger] placed[j]) by {
        if is_missing(file, placed[j]) {
            assert(placing_fault(placed, file, protected) is Some);
        }
    }
    image_has_contents(placed, file, protected, k, placed.len() as int);
    let whole = image(placed, file, placed.len() as int);
    let at = position(placed, protected, k) - protected;
    let body = tbf_body(before, header, layout);
    let start = before.len() + position(placed, protected, k);
    assert(body.subrange(start, start + placed[k].p_filesz) =~= whole.subrange(
        at,
        at + placed[k].p_filesz,
    ));
}

/// In the first `n` segments with their gaps, the gap before each segment is
/// zero.
proof fn image_has_gap(
    placed: Seq<ProgramHeader>,
    file: Seq<u8>,
    protected: int,
    k: int,
    n: int,
)
    requires
        0 <= k < n <= placed.len(),
        forall|j: int| 0 <= j < placed.len() ==> !is_missing(file, #[trigger] placed[j]),
    ensures
        ({
            let from = reached(placed, protected, k) - protected;
            let to = position(placed, protected, k) - protected;
            &&& 0 <= from <= to <= image(placed, file, n).len()
            &&& image(placed, file, n).subrange(from, to) == zeros(gap_before(placed, k))
        }),
    decreases n,
{
    let from = reached(placed, protected, k) - protected;
    let to = position(placed, protected, k) - protected;
    let whole = image(placed, file, n);
    let shorter = image(placed, file, n - 1);
    image_length(placed, file, protected, n);
    image_length(placed, file, protected, n - 1);
    reached_grows(placed, protected, 0, k);
    if k < n - 1 {
        image_has_gap(placed, file, protected, k, n - 1);
        assert(whole.subrange(from, to) =~= shorter.subrange(from, to));
    } else {
        assert(whole.subrange(from, to) =~= zeros(gap_before(placed, k)));
    }
}

/// The bytes in the gap before a segment that is placed are zero, if the header is
/// as long as announced. The gap starts where the segment before it ends.
pub proof fn gap_before_segment_is_zero(
    object: ElfView,
    file: Seq<u8>,
    options: &ConvertOptions,
    plan: Plan,
    before: Seq<u8>,
    header: Seq<u8>,
    k: int,
)
    requires
        header.len() <= usize::MAX,
        layout_of(object, file, options, plan, header.len() as usize) is Ok,
        0 <= k < placed_by(object, plan).len(),
    ensures
        ({
            let layout = layout_of(object, file, options, plan, header.len() as usize)->Ok_0;
            let placed = placed_by(object, plan);
            let protected = layout.protected as int;
            let from = before.len() + reached(placed, protected, k);
            let to = before.len() + position(placed, protected, k);
            let body = tbf_body(before, header, layout);
            &&& 0 <= from <= to <= body.len()
            &&& body.subrange(from, to) == zeros(gap_before(placed, k))
            &&& k > 0 ==> from == before.len() + position(placed, protected, k - 1) + placed[k
                - 1].p_filesz
        }),
{
    let layout = layout_of(object, file, options, plan, header.len() as usize)->Ok_0;
    let placed = placed_by(object, plan);
    let protected = layout.protected as int;
    binary_starts_after_protected_region(object, file, options, plan, header.len() as usize);
    assert forall|j: int| 0 <= j < placed.len() implies !is_missing(file, #[trigger] placed[j]) by {
        if is_missing(file, placed[j]) {
            assert(placing_fault(placed, file, protected) is Some);
        }
    }
    image_has_gap(placed, file, protected, k, placed.len() as int);
    let whole = image(placed, file, placed.len() as int);
    let from = reached(placed, protected, k);
    let to = position(placed, protected, k);
    let body = tbf_body(before, header, layout);
    assert(body.subrange(before.len() + from, before.len() + to) =~= whole.subrange(
        from - protected,
        to - protected,
    ));
}

/// A section that is in a segment that is placed, and that takes space in the
/// file, is in the TBF just as it is in the file. It is where the global offset
/// table is said to be, and where a writeable flash region is said to be, if the
/// section is as far from the start of the segment in the file as in memory.
pub proof fn section_is_at_its_position(
    object: ElfView,
    file: Seq<u8>,
    options: &ConvertOptions,
    plan: Plan,
    before: Seq<u8>,
    header: Seq<u8>,
    section: SectionView,
    k: int,
)
    requires
        header.len() <= usize::MAX,
        layout_of(object, file, options, plan, header.len() as usize) is Ok,
        0 <= k < placed_by(object, plan).len(),
        nonempty_in_segment(section, placed_by(object, plan)[k]),
        section.header.sh_type != SHT_NOBITS,
    ensures
        ({
            let layout = layout_of(object, file, options, plan, header.len() as usize)->Ok_0;
            let segment = placed_by(object, plan)[k];
            let start = position(placed_by(object, plan), layout.protected as int, k);
            let at = file_position(section, segment, start);
            let body = tbf_body(before, header, layout);
            &&& layout.protected <= at
            &&& at + section.header.sh_size <= layout.end
            &&& body.subrange(
                before.len() + at,
                before.len() + at + section.header.sh_size,
            ) == file.subrange(
                section.header.sh_offset as int,
                section.header.sh_offset + section.header.sh_size,
            )
            &&& section.header.sh_addr - segment.p_vaddr == section.header.sh_offset
                - segment.p_offset ==> address_position(section, segment, start) == at
        }),
{
    let layout = layout_of(object, file, options, plan, header.len() as usize)->Ok_0;
    let placed = placed_by(object, plan);
    let segment = placed[k];
    let protected = layout.protected as int;
    let start = position(placed, protected, k);
    let size = section.header.sh_size as int;
    let inside = section.header.sh_offset - segment.p_offset;
    in_segment_lies_in_file_part(section.header, segment);
    segment_is_at_its_position(object, file, options, plan, before, header, k);
    reached_grows(placed, protected, 0, k);
    reached_grows(placed, protected, k + 1, placed.len() as int);
    if is_missing(file, segment) {
        assert(placing_fault(placed, file, protected) is Some);
    }
    let body = tbf_body(before, header, layout);
    let whole = body.subrange(before.len() + start, before.len() + start + segment.p_filesz);
    let at = before.len() + start + inside;
    assert(body.subrange(at, at + size) =~= whole.subrange(inside, inside + size));
    assert(contents(file, segment).subrange(inside, inside + size) =~= file.subrange(
        section.header.sh_offset as int,
        section.header.sh_offset + size,
    ));
}

/// The global offset table that is found in a segment is a section of it.
proof fn got_in_segment_is_section(
    sections: Seq<SectionView>,
    segment: ProgramHeader,
    start: int,
)
    ensures
        got_in_segment(sections, segment, start) matches Some(at) ==> exists|i: int|
            0 <= i < sections.len() && is_got_of(#[trigger] sections[i], segment) && at
                == file_position(sections[i], segment, start),
    decreases sections.len(),
{
    if sections.len() > 0 {
        let rest = sections.drop_last();
        assert(sections[sections.len() - 1] == sections.last());
        if !is_got_of(sections.last(), segment) {
            got_in_segment_is_section(rest, segment, start);
            if let Some(at) = got_in_segment(rest, segment, start) {
                let i = choose|i: int|
                    0 <= i < rest.len() && is_got_of(#[trigger] rest[i], segment) && at
                        == file_position(rest[i], segment, start);
                assert(sections[i] == rest[i]);
            }
        }
    }
}

/// Where the global offset table is said to be, there is a section `.got` of one
/// of the segments.
pub proof fn got_position_is_section(
    sections: Seq<SectionView>,
    placed: Seq<ProgramHeader>,
    protected: int,
    n: int,
)
    requires
        0 <= n <= placed.len(),
    ensures
        got_position(sections, placed, protected, n) matches Some(at) ==> exists|i: int, k: int|
            {
                &&& 0 <= i < sections.len()
                &&& 0 <= k < n
                &&& is_got_of(#[trigger] sections[i], #[trigger] placed[k])
                &&& at == file_position(sections[i], placed[k], position(placed, protected, k))
            },
    decreases n,
{
    if n > 0 {
        let start = position(placed, protected, n - 1);
        got_in_segment_is_section(sections, placed[n - 1], start);
        if let Some(at) = got_in_segment(sections, placed[n - 1], start) {
            let i = choose|i: int|
                0 <= i < sections.len() && is_got_of(#[trigger] sections[i], placed[n - 1]) && at
                    == file_position(sections[i], placed[n - 1], start);
            assert(is_got_of(sections[i], placed[n - 1]));
        } else {
            got_position_is_section(sections, placed, protected, n - 1);
        }
    }
}

/// A writeable flash region that is listed for a segment is a section of it.
proof fn region_of_segment_is_section(
    sections: Seq<SectionView>,
    segment: ProgramHeader,
    start: int,
    r: int,
)
    requires
        0 <= r < regions_of_segment(sections, segment, start).len(),
    ensures
        exists|i: int|
            {
                &&& 0 <= i < sections.len()
                &&& is_region_of(#[trigger] sections[i], segment)
                &&& regions_of_segment(sections, segment, start)[r] == region_values(
                    sections[i],
                    segment,
                    start,
                )
            },
    decreases sections.len(),
{
    let rest = sections.drop_last();
    let before = regions_of_segment(rest, segment, start);
    assert(sections[sections.len() - 1] == sections.last());
    if r < before.len() {
        region_of_segment_is_section(rest, segment, start, r);
        let i = choose|i: int|
            {
                &&& 0 <= i < rest.len()
                &&& is_region_of(#[trigger] rest[i], segment)
                &&& before[r] == region_values(rest[i], segment, start)
            };
        assert(sections[i] == rest[i]);
    }
}

/// The position and size that the header gives for a section that is a writeable
/// flash region.
pub open spec fn region_values(section: SectionView, segment: ProgramHeader, start: int) -> (
    u32,
    u32,
) {
    (low32(address_position(section, segment, start)), low32(section.header.sh_size as int))
}

/// Every writeable flash region in the header is at the position, and has the
/// size, of a section of one of the segments with `.wfr` in its name.
pub proof fn region_is_section(
    sections: Seq<SectionView>,
    placed: Seq<ProgramHeader>,
    protected: int,
    n: int,
    r: int,
)
    requires
        0 <= n <= placed.len(),
        0 <= r < regions(sections, placed, protected, n).len(),
    ensures
        exists|i: int, k: int|
            {
                &&& 0 <= i < sections.len()
                &&& 0 <= k < n
                &&& is_region_of(#[trigger] sections[i], #[trigger] placed[k])
                &&& regions(sections, placed, protected, n)[r] == region_values(
                    sections[i],
                    placed[k],
                    position(placed, protected, k),
                )
            },
    decreases n,
{
    if n > 0 {
        let before = regions(sections, placed, protected, n - 1);
        let start = position(placed, protected, n - 1);
        if r < before.len() {
            region_is_section(sections, placed, protected, n - 1, r);
            let (i, k) = choose|i: int, k: int|
                {
                    &&& 0 <= i < sections.len()
                    &&& 0 <= k < n - 1
                    &&& is_region_of(#[trigger] sections[i], #[trigger] placed[k])
                    &&& before[r] == region_values(
                        sections[i],
                        placed[k],
                        position(placed, protected, k),
                    )
                };
            assert(is_region_of(sections[i], placed[k]));
        } else {
            let q = r - before.len();
            region_of_segment_is_section(sections, placed[n - 1], start, q);
            let i = choose|i: int|
                {
                    &&& 0 <= i < sections.len()
                    &&& is_region_of(#[trigger] sections[i], placed[n - 1])
                    &&& regions_of_segment(sections, placed[n - 1], start)[q] == region_values(
                        sections[i],
                        placed[n - 1],
                        start,
                    )
                };
            assert(is_region_of(sections[i], placed[n - 1]));
        }
    }
}

/// A section of a segment that is a writeable flash region is listed for it.
proof fn region_is_listed_for_segment(
    sections: Seq<SectionView>,
    segment: ProgramHeader,
    start: int,
    i: int,
)
    requires
        0 <= i < sections.len(),
        is_region_of(sections[i], segment),
    ensures
        regions_of_segment(sections, segment, start).contains(
            region_values(sections[i], segment, start),
        ),
    decreases sections.len(),
{
    let rest = sections.drop_last();
    let before = regions_of_segment(rest, segment, start);
    let all = regions_of_segment(sections, segment, start);
    let values = region_values(sections[i], segment, start);
    if i < sections.len() - 1 {
        region_is_listed_for_segment(rest, segment, start, i);
        let r = choose|r: int| 0 <= r < before.len() && before[r] == values;
        assert(all[r] == values);
    } else {
        assert(all[all.len() - 1] == values);
    }
}

/// Every section with `.wfr` in its name that is not empty and is in one of the
/// segments is in the header as a writeable flash region, with its position and
/// size.
pub proof fn region_is_listed(
    sections: Seq<SectionView>,
    placed: Seq<ProgramHeader>,
    protected: int,
    n: int,
    i: int,
    k: int,
)
    requires
        0 <= k < n <= placed.len(),
        0 <= i < sections.len(),
        is_region_of(sections[i], placed[k]),
    ensures
        regions(sections, placed, protected, n).contains(
            region_values(sections[i], placed[k], position(placed, protected, k)),
        ),
    decreases n,
{
    let before = regions(sections, placed, protected, n - 1);
    let start = position(placed, protected, n - 1);
    let added = regions_of_segment(sections, placed[n - 1], start);
    let all = regions(sections, placed, protected, n);
    let values = region_values(sections[i], placed[k], position(placed, protected, k));
    if k < n - 1 {
        region_is_listed(sections, placed, protected, n - 1, i, k);
        let r = choose|r: int| 0 <= r < before.len() && before[r] == values;
        assert(all[r] == values);
    } else {
        region_is_listed_for_segment(sections, placed[k], start, i);
        let r = choose|r: int| 0 <= r < added.len() && added[r] == values;
        assert(all[before.len() + r] == values);
    }
}

/// If no segment is loaded before the end of the one before it, all of them are
/// as far from each other in the TBF as their load addresses are.
pub proof fn distances_are_kept(placed: Seq<ProgramHeader>, protected: int, j: int, k: int)
    requires
        0 <= j <= k < placed.len(),
        forall|i: int|
            0 < i < placed.len() ==> load_end(placed[i - 1]) <= #[trigger] placed[i].p_paddr,
    ensures
        position(placed, protected, k) - position(placed, protected, j) == placed[k].p_paddr
            - placed[j].p_paddr,
    decreases k,
{
    if j < k {
        distances_are_kept(placed, protected, j, k - 1);
        assert(load_end(placed[k - 1]) <= placed[k].p_paddr);
    }
}

/// The relocation data is the end of what is before the footer, after its length
/// in 32 bits.
pub proof fn relocation_data_follows_its_length(
    before: Seq<u8>,
    header: Seq<u8>,
    layout: LayoutView,
)
    ensures
        ({
            let body = tbf_body(before, header, layout);
            let start = body.len() - layout.relocation_data.len();
            &&& 4 <= start
            &&& body.skip(start) == layout.relocation_data
            &&& body.subrange(start - 4, start) == le32(
                low32(layout.relocation_data.len() as int),
            )
        }),
{
    let body = tbf_body(before, header, layout);
    let start = body.len() - layout.relocation_data.len();
    assert(body.skip(start) =~= layout.relocation_data);
    assert(body.subrange(start - 4, start) =~= le32(low32(layout.relocation_data.len() as int)));
}

/// The first segment whose contents have an address has it.
proof fn segment_at_holds(placed: Seq<ProgramHeader>, address: u64, from: int)
    requires
        0 <= from,
    ensures
        segment_at_from(placed, address, from) matches Some(k) ==> from <= k < placed.len()
            && holds_address(placed[k], address),
    decreases placed.len() - from,
{
    if from < placed.len() && !holds_address(placed[from], address) {
        segment_at_holds(placed, address, from + 1);
    }
}

/// The entry point in the header leads, from the end of the header, to the byte
/// of the file that the first segment with the entry point has at its address, if
/// what is before the footer fits in 32 bits and the header is as long as
/// announced.
pub proof fn entry_offset_leads_to_entry(
    object: ElfView,
    file: Seq<u8>,
    options: &ConvertOptions,
    plan: Plan,
    before: Seq<u8>,
    header: Seq<u8>,
)
    requires
        header.len() <= usize::MAX,
        layout_of(object, file, options, plan, header.len() as usize) is Ok,
        layout_of(object, file, options, plan, header.len() as usize)->Ok_0.end <= u32::MAX,
        layout_of(
            object,
            file,
            options,
            plan,
            header.len() as usize,
        )->Ok_0.init_fn_offset is Some,
    ensures
        ({
            let layout = layout_of(object, file, options, plan, header.len() as usize)->Ok_0;
            let body = tbf_body(before, header, layout);
            let at = before.len() + header.len() + layout.init_fn_offset->0;
            exists|k: int|
                {
                    let segment = #[trigger] placed_by(object, plan)[k];
                    &&& 0 <= k < placed_by(object, plan).len()
                    &&& segment_at_from(placed_by(object, plan), object.header.e_entry, 0)
                        == Some(k)
                    &&& holds_address(segment, object.header.e_entry)
                    &&& at < body.len()
                    &&& body[at] == file[segment.p_offset + (object.header.e_entry
                        - segment.p_paddr)]
                }
        }),
{
    let layout = layout_of(object, file, options, plan, header.len() as usize)->Ok_0;
    let placed = placed_by(object, plan);
    let protected = layout.protected as int;
    let entry = object.header.e_entry;
    segment_at_holds(placed, entry, 0);
    let k = segment_at_from(placed, entry, 0)->0;
    let segment = placed[k];
    segment_is_at_its_position(object, file, options, plan, before, header, k);
    binary_starts_after_protected_region(object, file, options, plan, header.len() as usize);
    reached_grows(placed, protected, 0, k);
    reached_grows(placed, protected, k + 1, placed.len() as int);
    let inside = entry - segment.p_paddr;
    let start = position(placed, protected, k);
    assert(layout.init_fn_offset == Some(low32(start + inside - header.len())));
    assert(start + inside - header.len() <= layout.end);
    let body = tbf_body(before, header, layout);
    let at = before.len() + header.len() + layout.init_fn_offset->0;
    assert(at == before.len() + start + inside);
    if is_missing(file, segment) {
        assert(placing_fault(placed, file, protected) is Some);
    }
    assert(body[at] == body.subrange(
        before.len() + start,
        before.len() + start + segment.p_filesz,
    )[inside]);
    assert(placed_by(object, plan)[k] == segment);
}

/// A segment lists as many writeable flash regions as are counted in it.
proof fn regions_of_segment_count(
    sections: Seq<SectionView>,
    segment: ProgramHeader,
    start: int,
)
    ensures
        regions_of_segment(sections, segment, start).len() == regions_in_segment(
            sections,
            segment,
        ),
    decreases sections.len(),
{
    if sections.len() > 0 {
        regions_of_segment_count(sections.drop_last(), segment, start);
    }
}

/// The writeable flash regions of the first `k` segments are counted.
proof fn regions_count(
    sections: Seq<SectionView>,
    placed: Seq<ProgramHeader>,
    protected: int,
    k: int,
)
    requires
        0 <= k <= placed.len(),
        forall|i: int| 0 <= i < placed.len() ==> is_loaded(#[trigger] placed[i]),
    ensures
        regions(sections, placed, protected, k).len() == region_count(sections, placed.take(k)),
    decreases k,
{
    if k > 0 {
        regions_count(sections, placed, protected, k - 1);
        regions_of_segment_count(
            sections,
            placed[k - 1],
            position(placed, protected, k - 1),
        );
        assert(placed.take(k).drop_last() =~= placed.take(k - 1));
        assert(is_loaded(placed[k - 1]));
    }
}

/// If no loaded segment is cut or left out, what is placed are the loaded
/// segments, and has the same writeable flash regions.
proof fn unclipped_segments_are_placed(
    sections: Seq<SectionView>,
    segments: Seq<ProgramHeader>,
    flash: Option<u32>,
)
    requires
        forall|i: int|
            0 <= i < segments.len() && is_loaded(#[trigger] segments[i]) ==> clipped(
                segments[i],
                flash,
            ) == Ok::<Option<ProgramHeader>, ConvertError>(Some(segments[i])),
    ensures
        placed_segments(segments, flash) is Ok,
        ({
            let placed = placed_segments(segments, flash)->Ok_0;
            &&& forall|i: int| 0 <= i < placed.len() ==> is_loaded(#[trigger] placed[i])
            &&& region_count(sections, placed) == region_count(sections, segments)
        }),
    decreases segments.len(),
{
    if segments.len() > 0 {
        let rest = segments.drop_last();
        let last = segments.last();
        assert forall|i: int| 0 <= i < rest.len() && is_loaded(#[trigger] rest[i]) implies clipped(
            rest[i],
            flash,
        ) == Ok::<Option<ProgramHeader>, ConvertError>(Some(rest[i])) by {
            assert(segments[i] == rest[i]);
        }
        unclipped_segments_are_placed(sections, rest, flash);
        if is_loaded(last) {
            assert(segments[segments.len() - 1] == last);
            let before = placed_segments(rest, flash)->Ok_0;
            assert(before.push(last).drop_last() =~= before);
        }
    }
}

/// The header has as many writeable flash regions as room was reserved for, if no
/// loaded segment is cut or left out for being before the start of flash.
pub proof fn regions_fill_reserved_room(
    object: ElfView,
    file: Seq<u8>,
    options: &ConvertOptions,
    header_length: usize,
)
    requires
        plan_of(object, options) is Ok,
        layout_of(object, file, options, plan_of(object, options)->Ok_0, header_length) is Ok,
        forall|i: int|
            0 <= i < (object.segments->0).len() && is_loaded(#[trigger] (object.segments->0)[i])
                ==> clipped(
                (object.segments->0)[i],
                plan_of(object, options)->Ok_0.header.fixed_address_flash,
            ) == Ok::<Option<ProgramHeader>, ConvertError>(Some((object.segments->0)[i])),
    ensures
        ({
            let plan = plan_of(object, options)->Ok_0;
            let layout = layout_of(object, file, options, plan, header_length)->Ok_0;
            layout.regions.len() == plan.header.writeable_flash_regions_count
        }),
{
    let plan = plan_of(object, options)->Ok_0;
    let layout = layout_of(object, file, options, plan, header_length)->Ok_0;
    let placed = placed_by(object, plan);
    unclipped_segments_are_placed(
        object.sections,
        object.segments->0,
        plan.header.fixed_address_flash,
    );
    regions_count(object.sections, placed, layout.protected as int, placed.len() as int);
    assert(placed.take(placed.len() as int) =~= placed);
}

/// What is before the footer is where the TBF starts, after what was there before.
pub proof fn tbf_starts_with_body(
    before: Seq<u8>,
    header: Seq<u8>,
    layout: LayoutView,
    sizes: Sizes,
    options: &ConvertOptions,
)
    requires
        tbf_after(before, header, layout, sizes, options) is Ok,
    ensures
        tbf_body(before, header, layout).is_prefix_of(
            tbf_after(before, header, layout, sizes, options)->Ok_0,
        ),
        before.is_prefix_of(tbf_body(before, header, layout)),
        (before + header).is_prefix_of(tbf_body(before, header, layout)),
{
    let body = tbf_body(before, header, layout);
    let all = tbf_after(before, header, layout, sizes, options)->Ok_0;
    assert(body =~= all.take(body.len() as int));
    assert(before =~= body.take(before.len() as int));
    assert(before + header =~= body.take((before + header).len() as int));
}

/// Every part of a segment that goes into the binary is placed.
pub proof fn every_part_is_placed(segments: Seq<ProgramHeader>, flash: Option<u32>, i: int)
    requires
        placed_segments(segments, flash) is Ok,
        0 <= i < segments.len(),
        clipped(segments[i], flash) matches Ok(Some(_)),
    ensures
        placed_segments(segments, flash)->Ok_0.contains(clipped(segments[i], flash)->Ok_0->0),
    decreases segments.len(),
{
    let placed = placed_segments(segments, flash)->Ok_0;
    let rest = segments.drop_last();
    let before = placed_segments(rest, flash)->Ok_0;
    let part = clipped(segments[i], flash)->Ok_0->0;
    if i < segments.len() - 1 {
        every_part_is_placed(rest, flash, i);
        let k = choose|k: int| 0 <= k < before.len() && before[k] == part;
        assert(placed[k] == part);
    } else {
        assert(placed[placed.len() - 1] == part);
    }
}

/// Nothing is placed but parts of segments that go into the binary.
pub proof fn only_parts_are_placed(segments: Seq<ProgramHeader>, flash: Option<u32>, k: int)
    requires
        placed_segments(segments, flash) is Ok,
        0 <= k < placed_segments(segments, flash)->Ok_0.len(),
    ensures
        exists|i: int|
            0 <= i < segments.len() && clipped(#[trigger] segments[i], flash) == Ok::<
                Option<ProgramHeader>,
                ConvertError,
            >(Some(placed_segments(segments, flash)->Ok_0[k])),
    decreases segments.len(),
{
    let placed = placed_segments(segments, flash)->Ok_0;
    let rest = segments.drop_last();
    let before = placed_segments(rest, flash)->Ok_0;
    if k < before.len() {
        only_parts_are_placed(rest, flash, k);
        let i = choose|i: int|
            0 <= i < rest.len() && clipped(#[trigger] rest[i], flash) == Ok::<
                Option<ProgramHeader>,
                ConvertError,
            >(Some(before[k]));
        assert(segments[i] == rest[i]);
    } else {
        assert(segments[segments.len() - 1] == segments.last());
    }
}

/// Whether some bytes are in others, one after the other.
pub open spec fn is_part_of(part: Seq<u8>, whole: Seq<u8>) -> bool {
    exists|at: int|
        0 <= at && at + part.len() <= whole.len() && #[trigger] whole.subrange(
            at,
            at + part.len(),
        ) == part
}

proof fn part_stays(part: Seq<u8>, before: Seq<u8>, whole: Seq<u8>, after: Seq<u8>)
    requires
        is_part_of(part, whole),
    ensures
        is_part_of(part, before + whole + after),
{
    let at = choose|at: int|
        0 <= at && at + part.len() <= whole.len() && #[trigger] whole.subrange(
            at,
            at + part.len(),
        ) == part;
    let all = before + whole + after;
    let moved = before.len() + at;
    assert(all.subrange(moved, moved + part.len()) =~= whole.subrange(at, at + part.len()));
}

proof fn relocation_data_is_in_segment(
    sections: Seq<SectionView>,
    segment: ProgramHeader,
    i: int,
    n: int,
)
    requires
        0 <= i < n <= sections.len(),
        needs_relocation_data(sections[i], segment),
    ensures
        is_part_of(
            relocation_data_for(sections, sections[i].name),
            relocation_data_of_segment(sections, segment, n),
        ),
    decreases n,
{
    let part = relocation_data_for(sections, sections[i].name);
    let whole = relocation_data_of_segment(sections, segment, n);
    let before = relocation_data_of_segment(sections, segment, n - 1);
    let none = Seq::<u8>::empty();
    if i < n - 1 {
        relocation_data_is_in_segment(sections, segment, i, n - 1);
        if needs_relocation_data(sections[n - 1], segment) {
            let added = relocation_data_for(sections, sections[n - 1].name);
            part_stays(part, none, before, added);
            assert(none + before + added =~= whole);
        }
    } else {
        assert(part.subrange(0, 0int + part.len()) =~= part);
        assert(is_part_of(part, part));
        part_stays(part, before, part, none);
        assert(before + part + none =~= whole);
    }
}

/// For every writable section in a segment that is placed, the contents of the
/// section with the same name after `.rel` are in the relocation data.
pub proof fn relocation_data_is_there(
    sections: Seq<SectionView>,
    placed: Seq<ProgramHeader>,
    i: int,
    k: int,
    n: int,
)
    requires
        0 <= k < n <= placed.len(),
        0 <= i < sections.len(),
        needs_relocation_data(sections[i], placed[k]),
    ensures
        is_part_of(
            relocation_data_for(sections, sections[i].name),
            relocation_data(sections, placed, n),
        ),
    decreases n,
{
    let part = relocation_data_for(sections, sections[i].name);
    let whole = relocation_data(sections, placed, n);
    let before = relocation_data(sections, placed, n - 1);
    let added = relocation_data_of_segment(sections, placed[n - 1], sections.len() as int);
    let none = Seq::<u8>::empty();
    if k < n - 1 {
        relocation_data_is_there(sections, placed, i, k, n - 1);
        part_stays(part, none, before, added);
        assert(none + before + added =~= whole);
    } else {
        relocation_data_is_in_segment(sections, placed[k], i, sections.len() as int);
        part_stays(part, before, added, none);
        assert(before + added + none =~= whole);
    }
}

/// Reserved room has a size that is a multiple of 4, so what follows it is
/// aligned, and is either nothing or enough for a credential.
pub proof fn reserve_is_aligned(minimum: u32, initial: int)
    ensures
        footer_reserve(minimum, initial) % 4 == 0,
        footer_reserve(minimum, initial) == 0 || footer_reserve(minimum, initial)
            >= CREDENTIAL_BASE_SIZE,
{
    if minimum > initial {
        aligned_up_is_least_multiple(minimum - initial, 4);
        aligned_up_is_least_multiple(8, 4);
    }
}

/// The RAM that an app needs is enough for each segment that resides in RAM, and
/// besides for the stack and the heaps.
pub proof fn ram_is_enough(
    segments: Seq<ProgramHeader>,
    stack: u32,
    app_heap: u32,
    kernel_heap: u32,
    i: int,
)
    requires
        0 <= i < segments.len(),
        resides_in_ram(segments[i]),
    ensures
        ram_size(segments, stack, app_heap, kernel_heap) >= low32(segments[i].p_memsz as int)
            + stack + app_heap + kernel_heap,
    decreases segments.len(),
{
    aligned_up_is_least_multiple(stack as int, 8);
    aligned_up_is_least_multiple(app_heap as int, 4);
    aligned_up_is_least_multiple(kernel_heap as int, 4);
    if i < segments.len() - 1 {
        ram_is_enough(segments.drop_last(), stack, app_heap, kernel_heap, i);
    } else {
        ram_is_not_negative(segments.drop_last());
    }
}

/// Cutting a segment leaves the part from the start of flash on: it ends at the
/// same address, is moved by as much in the file as in memory, and has the last
/// of the contents.
pub proof fn clipping_keeps_the_rest(segment: ProgramHeader, flash: u32, file: Seq<u8>)
    requires
        clipped(segment, Some(flash)) matches Ok(Some(_)),
        !is_missing(file, segment),
    ensures
        ({
            let part = clipped(segment, Some(flash))->Ok_0->0;
            &&& flash <= part.p_paddr
            &&& load_end(part) == load_end(segment)
            &&& part.p_paddr - segment.p_paddr == part.p_offset - segment.p_offset
            &&& part.p_vaddr - segment.p_vaddr == part.p_offset - segment.p_offset
            &&& part.p_offset + part.p_filesz == segment.p_offset + segment.p_filesz
            &&& contents(file, part) == contents(file, segment).skip(
                part.p_offset - segment.p_offset,
            )
        }),
{
    let part = clipped(segment, Some(flash))->Ok_0->0;
    assert(contents(file, part) =~= contents(file, segment).skip(
        part.p_offset - segment.p_offset,
    ));
}

/// Position-independent code has no fixed address in flash.
pub proof fn pic_has_no_fixed_address(object: ElfView, options: &ConvertOptions)
    requires
        plan_of(object, options) is Ok,
    ensures
        ({
            let plan = plan_of(object, options)->Ok_0;
            plan.pic ==> plan.header.fixed_address_flash is None
        }),
{
}

/// If neither the app nor the caller says how large the protected region is, a
/// TBF for a fixed address starts on a boundary when its binary is at that
/// address.
pub proof fn fixed_address_start_is_aligned(
    object: ElfView,
    options: &ConvertOptions,
    plan: Plan,
    header_length: usize,
)
    requires
        protected_region(object, options, plan, header_length) is Ok,
        symbol_value(object.symbols, "tbf_protected_region_size"@) == Ok::<
            Option<u32>,
            ConvertError,
        >(None),
        options.protected_region_size is None,
        !plan.pic,
        plan.header.fixed_address_flash is Some,
    ensures
        ({
            let start = plan.header.fixed_address_flash->0 - protected_region(
                object,
                options,
                plan,
                header_length,
            )->Ok_0;
            start >= 0 && start % (TBF_START_ALIGNMENT as int) == 0
        }),
{
}

/// A function is taken from the first library that has it. It is an error exactly if
/// a library before that one cannot be searched.
pub proof fn provider_is_first(libraries: Seq<SharedLibraryView>, fn_name: Seq<char>, from: int)
    requires
        0 <= from,
    ensures
        match provider_from(libraries, fn_name, from) {
            Ok(Some(provider)) => exists|i: int|
                {
                    &&& from <= i < libraries.len()
                    &&& provider.lib_name == (#[trigger] libraries[i]).name
                    &&& fn_value(libraries[i].symbols, fn_name) == Ok::<
                        Option<u32>,
                        ConvertError,
                    >(Some(provider.lib_fn_offset))
                    &&& forall|j: int|
                        from <= j < i ==> fn_value(
                            (#[trigger] libraries[j]).symbols,
                            fn_name,
                        ) == Ok::<Option<u32>, ConvertError>(None)
                },
            Ok(None) => forall|j: int|
                from <= j < libraries.len() ==> fn_value(
                    (#[trigger] libraries[j]).symbols,
                    fn_name,
                ) == Ok::<Option<u32>, ConvertError>(None),
            Err(e) => exists|i: int|
                {
                    &&& from <= i < libraries.len()
                    &&& fn_value((#[trigger] libraries[i]).symbols, fn_name) == Err::<
                        Option<u32>,
                        ConvertError,
                    >(e)
                    &&& forall|j: int|
                        from <= j < i ==> fn_value(
                            (#[trigger] libraries[j]).symbols,
                            fn_name,
                        ) == Ok::<Option<u32>, ConvertError>(None)
                },
        },
    decreases libraries.len() - from,
{
    if from < libraries.len() {
        if fn_value(libraries[from].symbols, fn_name) == Ok::<Option<u32>, ConvertError>(None) {
            provider_is_first(libraries, fn_name, from + 1);
        }
    }
}

} // verus!
