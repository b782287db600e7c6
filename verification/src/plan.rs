//! What the header of a TBF has to say before the binary is laid out: how much
//! RAM the app needs, at which addresses it has to be, and how many writeable
//! flash regions it has.
use crate::abi::{ET_DYN, PF_W, PF_X, PT_LOAD};
use crate::error::ConvertError;
use crate::object::{
    section_views, ElfObject, ElfView, ProgramHeader, Section, SectionHeader, SectionView,
};
use crate::section::{
    any_in_segment, nonempty_in_segment, section_exists_in_segment, section_in_segment,
};
use crate::symbols::{find_section, find_symbol, section_named, symbol_value};
use crate::text::{contains, occurs_in};
use crate::util::{align_to, aligned_up, aligned_up_is_least_multiple, low32, low32_of};
use vstd::prelude::*;

verus! {

/// The address in flash that position-independent code is linked for.
pub const PIC_FLASH_ADDRESS: u32 = 0x8000_0000;

/// The size of the stack where neither the caller nor the app says one.
pub const DEFAULT_STACK_LEN: u32 = 2048;

/// What the caller asks of a conversion.
#[derive(Debug)]
pub struct ConvertOptions {
    /// The name of the app.
    pub package_name: String,
    /// The size of the stack, if it is not to be taken from the app.
    pub stack_len: Option<u32>,
    /// The size of the heap of the app.
    pub app_heap_len: u32,
    /// The size of the heap of the kernel for the app.
    pub kernel_heap_len: u32,
    /// The size of the protected region, if the app does not say one.
    pub protected_region_size: Option<u32>,
    /// Whether the app is disabled.
    pub disabled: bool,
    /// The least size of the footer.
    pub minimum_footer_size: u32,
    /// Whether to add a SHA-256 digest to the footer.
    pub sha256: bool,
    /// Whether to add a SHA-384 digest to the footer.
    pub sha384: bool,
    /// Whether to add a SHA-512 digest to the footer.
    pub sha512: bool,
    /// The private key for the signature in the footer, in PKCS#8 format, if
    /// there is to be one.
    pub rsa4096_private_key: Option<Vec<u8>>,
}

/// What the header of a TBF has to say before the binary is laid out.
#[derive(Clone, Copy, Debug, PartialEq, Eq)]
pub struct HeaderPlan {
    /// The least amount of RAM that the app needs.
    pub minimum_ram_size: u32,
    /// The number of writeable flash regions to reserve room for.
    pub writeable_flash_regions_count: usize,
    /// The address in RAM at which the app has to be, if it has to be at one.
    pub fixed_address_ram: Option<u32>,
    /// The address in flash at which the app has to be, if it has to be at one.
    pub fixed_address_flash: Option<u32>,
    /// Whether the object is a shared library.
    pub is_shared_library: bool,
}

/// Where in flash an app has to be.
#[derive(Clone, Copy, Debug, PartialEq, Eq)]
pub struct FlashPlacement {
    /// Whether the code is position-independent.
    pub pic: bool,
    /// The address at which the app has to be, if it has to be at one.
    pub address: Option<u32>,
}

/// Whether a segment has contents that are loaded.
pub open spec fn is_loaded(segment: ProgramHeader) -> bool {
    segment.p_type == PT_LOAD && segment.p_filesz != 0
}

/// Whether a segment is loaded into flash but resides in RAM.
pub open spec fn resides_in_ram(segment: ProgramHeader) -> bool {
    segment.p_type == PT_LOAD && segment.p_vaddr != segment.p_paddr && segment.p_memsz > 0
        && segment.p_flags & PF_W != 0
}

/// The RAM that segments take.
pub open spec fn ram_of_segments(segments: Seq<ProgramHeader>) -> int
    decreases segments.len(),
{
    if segments.len() == 0 {
        0
    } else {
        ram_of_segments(segments.drop_last()) + (if resides_in_ram(segments.last()) {
            low32(segments.last().p_memsz as int) as int
        } else {
            0
        })
    }
}

/// The size of the stack: what the caller says, or the size of the `.stack`
/// section, or a default.
pub open spec fn stack_size(stack_len: Option<u32>, sections: Seq<SectionView>) -> u32 {
    match stack_len {
        Some(len) => len,
        None => match section_named(sections, ".stack"@) {
            Some(section) => low32(section.header.sh_size as int),
            None => DEFAULT_STACK_LEN,
        },
    }
}

/// The RAM that an app needs: its segments in RAM, the stack and the heaps.
pub open spec fn ram_size(
    segments: Seq<ProgramHeader>,
    stack: u32,
    app_heap: u32,
    kernel_heap: u32,
) -> int {
    ram_of_segments(segments) + aligned_up(stack as int, 8) + aligned_up(app_heap as int, 4)
        + aligned_up(kernel_heap as int, 4)
}

/// Whether a segment holds code for flash.
pub open spec fn is_flash_code(sections: Seq<SectionView>, segment: ProgramHeader) -> bool {
    is_loaded(segment) && segment.p_flags & PF_X != 0 && any_in_segment(sections, segment)
}

/// Whether a segment with code for flash is at the address for
/// position-independent code.
pub open spec fn any_pic(sections: Seq<SectionView>, segments: Seq<ProgramHeader>) -> bool {
    exists|i: int|
        0 <= i < segments.len() && is_flash_code(sections, #[trigger] segments[i])
            && segments[i].p_vaddr == PIC_FLASH_ADDRESS
}

/// The lowest load address of the segments with code for flash.
pub open spec fn lowest_code(sections: Seq<SectionView>, segments: Seq<ProgramHeader>) -> Option<
    u32,
>
    decreases segments.len(),
{
    if segments.len() == 0 {
        None
    } else {
        let before = lowest_code(sections, segments.drop_last());
        let address = low32(segments.last().p_paddr as int);
        if !is_flash_code(sections, segments.last()) {
            before
        } else {
            match before {
                Some(lowest) => if address < lowest {
                    Some(address)
                } else {
                    Some(lowest)
                },
                None => Some(address),
            }
        }
    }
}

/// Where in flash an app has to be: where the symbol `_flash_origin` says, or
/// else where its segments with code are. At the address for
/// position-independent code, an app can be anywhere.
pub open spec fn flash_placement(object: ElfView, segments: Seq<ProgramHeader>) -> Result<
    FlashPlacement,
    ConvertError,
> {
    match symbol_value(object.symbols, "_flash_origin"@) {
        Err(e) => Err(e),
        Ok(Some(origin)) => if origin == PIC_FLASH_ADDRESS {
            Ok(FlashPlacement { pic: true, address: None })
        } else {
            Ok(FlashPlacement { pic: false, address: Some(origin) })
        },
        Ok(None) => if any_pic(object.sections, segments) {
            Ok(FlashPlacement { pic: true, address: None })
        } else {
            Ok(FlashPlacement { pic: false, address: lowest_code(object.sections, segments) })
        },
    }
}

/// Where in RAM an app has to be: where the symbol `_sram_origin` says, unless
/// that is 0.
pub open spec fn ram_placement(object: ElfView) -> Result<Option<u32>, ConvertError> {
    match symbol_value(object.symbols, "_sram_origin"@) {
        Err(e) => Err(e),
        Ok(Some(origin)) => if origin == 0 {
            Ok(None)
        } else {
            Ok(Some(origin))
        },
        Ok(None) => Ok(None),
    }
}

/// Whether a section is a writeable flash region of a segment.
pub open spec fn is_region_of(section: SectionView, segment: ProgramHeader) -> bool {
    nonempty_in_segment(section, segment) && occurs_in(".wfr"@, section.name)
}

/// The number of writeable flash regions in a segment.
pub open spec fn regions_in_segment(sections: Seq<SectionView>, segment: ProgramHeader) -> nat
    decreases sections.len(),
{
    if sections.len() == 0 {
        0
    } else {
        regions_in_segment(sections.drop_last(), segment) + (if is_region_of(
            sections.last(),
            segment,
        ) {
            1nat
        } else {
            0nat
        })
    }
}

/// The number of writeable flash regions in segments.
pub open spec fn region_count(sections: Seq<SectionView>, segments: Seq<ProgramHeader>) -> nat
    decreases segments.len(),
{
    if segments.len() == 0 {
        0
    } else {
        region_count(sections, segments.drop_last()) + (if is_loaded(segments.last()) {
            regions_in_segment(sections, segments.last())
        } else {
            0nat
        })
    }
}

/// What a conversion knows before the length of the header is known.
#[derive(Clone, Copy, Debug, PartialEq, Eq)]
pub struct Plan {
    /// What the header has to say.
    pub header: HeaderPlan,
    /// Whether the code is position-independent.
    pub pic: bool,
}

/// What a conversion knows before the length of the header is known, or why
/// there can be no conversion.
pub open spec fn plan_of(object: ElfView, options: &ConvertOptions) -> Result<Plan, ConvertError> {
    match object.segments {
        None => Err(ConvertError::NoProgramHeaders),
        Some(segments) => {
            let ram = ram_size(
                segments,
                stack_size(options.stack_len, object.sections),
                options.app_heap_len,
                options.kernel_heap_len,
            );
            let regions = region_count(object.sections, segments);
            if ram > u32::MAX {
                Err(ConvertError::Overflow)
            } else {
                match (flash_placement(object, segments), ram_placement(object)) {
                    (Err(e), _) => Err(e),
                    (Ok(_), Err(e)) => Err(e),
                    (Ok(flash), Ok(fixed_address_ram)) => if regions > usize::MAX {
                        Err(ConvertError::Overflow)
                    } else {
                        Ok(
                            Plan {
                                header: HeaderPlan {
                                    minimum_ram_size: ram as u32,
                                    writeable_flash_regions_count: regions as usize,
                                    fixed_address_ram,
                                    fixed_address_flash: flash.address,
                                    is_shared_library: object.header.e_type == ET_DYN,
                                },
                                pic: flash.pic,
                            },
                        )
                    },
                }
            }
        },
    }
}

/// More segments do not take less RAM.
proof fn ram_grows(segments: Seq<ProgramHeader>, count: int)
    requires
        0 <= count <= segments.len(),
    ensures
        0 <= ram_of_segments(segments.take(count)) <= ram_of_segments(segments),
    decreases segments.len() - count, count,
{
    if count < segments.len() {
        assert(segments.take(count + 1).drop_last() =~= segments.take(count));
        ram_grows(segments, count + 1);
        ram_is_not_negative(segments.take(count));
    } else {
        assert(segments.take(count) =~= segments);
        ram_is_not_negative(segments);
    }
}

/// Segments do not take less than no RAM.
pub proof fn ram_is_not_negative(segments: Seq<ProgramHeader>)
    ensures
        0 <= ram_of_segments(segments),
    decreases segments.len(),
{
    if segments.len() > 0 {
        ram_is_not_negative(segments.drop_last());
    }
}

/// More segments do not have fewer writeable flash regions.
proof fn region_count_grows(
    sections: Seq<SectionView>,
    segments: Seq<ProgramHeader>,
    count: int,
)
    requires
        0 <= count <= segments.len(),
    ensures
        region_count(sections, segments.take(count)) <= region_count(sections, segments),
    decreases segments.len() - count,
{
    if count < segments.len() {
        assert(segments.take(count + 1).drop_last() =~= segments.take(count));
        region_count_grows(sections, segments, count + 1);
    } else {
        assert(segments.take(count) =~= segments);
    }
}

/// The lowest load address of the code for flash is one of those addresses, and
/// none of them is lower.
pub proof fn lowest_code_is_lowest(sections: Seq<SectionView>, segments: Seq<ProgramHeader>)
    ensures
        match lowest_code(sections, segments) {
            Some(lowest) => {
                &&& exists|i: int|
                    0 <= i < segments.len() && is_flash_code(sections, #[trigger] segments[i])
                        && low32(segments[i].p_paddr as int) == lowest
                &&& forall|i: int|
                    0 <= i < segments.len() && is_flash_code(sections, #[trigger] segments[i])
                        ==> lowest <= low32(segments[i].p_paddr as int)
            },
            None => forall|i: int|
                0 <= i < segments.len() ==> !is_flash_code(sections, #[trigger] segments[i]),
        },
    decreases segments.len(),
{
    if segments.len() > 0 {
        let rest = segments.drop_last();
        lowest_code_is_lowest(sections, rest);
        assert(forall|i: int| 0 <= i < rest.len() ==> rest[i] == #[trigger] segments[i]);
        if lowest_code(sections, rest) is Some {
            let i = choose|i: int|
                0 <= i < rest.len() && is_flash_code(sections, #[trigger] rest[i]) && low32(
                    rest[i].p_paddr as int,
                ) == lowest_code(sections, rest)->0;
            assert(segments[i] == rest[i]);
        }
        assert(segments[segments.len() - 1] == segments.last());
    }
}

/// Computes the RAM that segments take, where it fits.
pub fn needed_by_segments(segments: &Vec<ProgramHeader>) -> (ram: Option<u32>)
    ensures
        match ram {
            Some(r) => r == ram_of_segments(segments@),
            None => ram_of_segments(segments@) > u32::MAX,
        },
{
    let mut ram: u32 = 0;
    let count: usize = segments.len();
    let mut i: usize = 0;
    while i < count
        invariant
            count == segments@.len(),
            i <= count,
            ram == ram_of_segments(segments@.take(i as int)),
        decreases count - i,
    {
        let segment: &ProgramHeader = &segments[i];
        proof {
            assert(segments@.take(i + 1).drop_last() =~= segments@.take(i as int));
            ram_grows(segments@, i + 1);
        }
        if segment.p_type == PT_LOAD && segment.p_vaddr != segment.p_paddr && segment.p_memsz > 0
            && segment.p_flags & PF_W != 0 {
            ram = match ram.checked_add(low32_of(segment.p_memsz)) {
                Some(sum) => sum,
                None => { return None; },
            };
        }
        i += 1;
    }
    assert(segments@.take(count as int) =~= segments@);
    Some(ram)
}

/// Computes the RAM that an app needs, where it fits.
fn needed_ram(
    segments: &Vec<ProgramHeader>,
    stack: u32,
    app_heap: u32,
    kernel_heap: u32,
) -> (ram: Option<u32>)
    ensures
        match ram {
            Some(r) => r == ram_size(segments@, stack, app_heap, kernel_heap),
            None => ram_size(segments@, stack, app_heap, kernel_heap) > u32::MAX,
        },
{
    proof {
        aligned_up_is_least_multiple(stack as int, 8);
        aligned_up_is_least_multiple(app_heap as int, 4);
        aligned_up_is_least_multiple(kernel_heap as int, 4);
    }
    let ram: u32 = match needed_by_segments(segments) {
        Some(ram) => ram,
        None => { return None; },
    };
    proof {
        ram_is_not_negative(segments@);
    }
    let stack_room: u32 = match align_to(stack, 8) {
        Some(room) => room,
        None => { return None; },
    };
    let app_room: u32 = match align_to(app_heap, 4) {
        Some(room) => room,
        None => { return None; },
    };
    let kernel_room: u32 = match align_to(kernel_heap, 4) {
        Some(room) => room,
        None => { return None; },
    };
    let sum: u64 = ram as u64 + stack_room as u64 + app_room as u64 + kernel_room as u64;
    if sum > u32::MAX as u64 {
        return None;
    }
    Some(sum as u32)
}

/// Determines the size of the stack.
fn needed_stack(stack_len: Option<u32>, sections: &Vec<Section>) -> (len: u32)
    ensures
        len == stack_size(stack_len, section_views(sections@)),
{
    match stack_len {
        Some(len) => len,
        None => match find_section(sections, ".stack") {
            Some(i) => low32_of(sections[i].header.sh_size),
            None => DEFAULT_STACK_LEN,
        },
    }
}

/// Determines where in flash an app has to be.
fn place_in_flash(object: &ElfObject, segments: &Vec<ProgramHeader>) -> (placement: Result<
    FlashPlacement,
    ConvertError,
>)
    ensures
        placement == flash_placement(object@, segments@),
{
    match find_symbol(&object.symbols, "_flash_origin") {
        Err(e) => { return Err(e); },
        Ok(Some(origin)) => {
            if origin == PIC_FLASH_ADDRESS {
                return Ok(FlashPlacement { pic: true, address: None });
            }
            return Ok(FlashPlacement { pic: false, address: Some(origin) });
        },
        Ok(None) => {},
    }
    let ghost sections = object@.sections;
    let mut address: Option<u32> = None;
    let count: usize = segments.len();
    let mut i: usize = 0;
    while i < count
        invariant
            count == segments@.len(),
            i <= count,
            sections == section_views(object.sections@),
            address == lowest_code(sections, segments@.take(i as int)),
            forall|j: int|
                0 <= j < i ==> !(is_flash_code(sections, #[trigger] segments@[j])
                    && segments@[j].p_vaddr == PIC_FLASH_ADDRESS),
            flash_placement(object@, segments@) == (if any_pic(sections, segments@) {
                Ok::<FlashPlacement, ConvertError>(FlashPlacement { pic: true, address: None })
            } else {
                Ok(FlashPlacement { pic: false, address: lowest_code(sections, segments@) })
            }),
        decreases count - i,
    {
        assert(segments@.take(i + 1).drop_last() =~= segments@.take(i as int));
        let segment: &ProgramHeader = &segments[i];
        if segment.p_type == PT_LOAD && segment.p_filesz != 0 && segment.p_flags & PF_X != 0
            && section_exists_in_segment(&object.sections, segment) {
            assert(is_flash_code(sections, segments@[i as int]));
            if segment.p_vaddr == PIC_FLASH_ADDRESS as u64 {
                return Ok(FlashPlacement { pic: true, address: None });
            }
            let start: u32 = low32_of(segment.p_paddr);
            address =
            match address {
                Some(lowest) => if start < lowest {
                    Some(start)
                } else {
                    Some(lowest)
                },
                None => Some(start),
            };
        }
        i += 1;
    }
    assert(segments@.take(count as int) =~= segments@);
    Ok(FlashPlacement { pic: false, address })
}

/// Counts the writeable flash regions in a segment.
fn count_regions_in_segment(sections: &Vec<Section>, segment: &ProgramHeader) -> (found: usize)
    ensures
        found == regions_in_segment(section_views(sections@), *segment),
{
    let ghost views = section_views(sections@);
    let count: usize = sections.len();
    let mut found: usize = 0;
    let mut i: usize = 0;
    while i < count
        invariant
            count == sections@.len(),
            i <= count,
            views == section_views(sections@),
            found <= i,
            found == regions_in_segment(views.take(i as int), *segment),
        decreases count - i,
    {
        assert(views.take(i + 1).drop_last() =~= views.take(i as int));
        let header: &SectionHeader = &sections[i].header;
        if header.sh_size > 0 && section_in_segment(header, segment) && contains(
            sections[i].name.as_str(),
            ".wfr",
        ) {
            found += 1;
        }
        i += 1;
    }
    assert(views.take(count as int) =~= views);
    found
}

/// Counts the writeable flash regions, where the number fits.
fn count_regions(sections: &Vec<Section>, segments: &Vec<ProgramHeader>) -> (found: Option<usize>)
    ensures
        match found {
            Some(f) => f == region_count(section_views(sections@), segments@),
            None => region_count(section_views(sections@), segments@) > usize::MAX,
        },
{
    let count: usize = segments.len();
    let mut found: usize = 0;
    let mut i: usize = 0;
    while i < count
        invariant
            count == segments@.len(),
            i <= count,
            found == region_count(section_views(sections@), segments@.take(i as int)),
        decreases count - i,
    {
        proof {
            assert(segments@.take(i + 1).drop_last() =~= segments@.take(i as int));
            region_count_grows(section_views(sections@), segments@, i + 1);
        }
        if segments[i].p_type == PT_LOAD && segments[i].p_filesz != 0 {
            let here: usize = count_regions_in_segment(sections, &segments[i]);
            found = match found.checked_add(here) {
                Some(sum) => sum,
                None => { return None; },
            };
        }
        i += 1;
    }
    assert(segments@.take(count as int) =~= segments@);
    Some(found)
}

/// Determines what the header of the TBF has to say before the binary is laid
/// out.
pub fn make_plan(object: &ElfObject, options: &ConvertOptions) -> (plan: Result<
    Plan,
    ConvertError,
>)
    ensures
        plan == plan_of(object@, options),
{
    let segments: &Vec<ProgramHeader> = match &object.segments {
        Some(segments) => segments,
        None => { return Err(ConvertError::NoProgramHeaders); },
    };
    let stack: u32 = needed_stack(options.stack_len, &object.sections);
    let minimum_ram_size: u32 = match needed_ram(
        segments,
        stack,
        options.app_heap_len,
        options.kernel_heap_len,
    ) {
        Some(ram) => ram,
        None => { return Err(ConvertError::Overflow); },
    };
    let flash: FlashPlacement = match place_in_flash(object, segments) {
        Ok(flash) => flash,
        Err(e) => { return Err(e); },
    };
    let fixed_address_ram: Option<u32> = match find_symbol(&object.symbols, "_sram_origin") {
        Ok(Some(origin)) => if origin == 0 {
            None
        } else {
            Some(origin)
        },
        Ok(None) => None,
        Err(e) => { return Err(e); },
    };
    let regions: usize = match count_regions(&object.sections, segments) {
        Some(regions) => regions,
        None => { return Err(ConvertError::Overflow); },
    };
    Ok(
        Plan {
            header: HeaderPlan {
                minimum_ram_size,
                writeable_flash_regions_count: regions,
                fixed_address_ram,
                fixed_address_flash: flash.address,
                is_shared_library: object.header.e_type == ET_DYN,
            },
            pic: flash.pic,
        },
    )
}

} // verus!
