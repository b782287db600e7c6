//! Where the segments of an app go in the TBF, and what follows from that.
//!
//! ```text
//! /----- protected region ------------\
//! |------------|----------------------|----------------------|-----------------|
//! | TBF header | rest of the region   | segments and gaps    | relocation data |
//! |------------|----------------------|----------------------|-----------------|
//! ```
use crate::abi::{PT_LOAD, SHF_WRITE};
use crate::error::ConvertError;
use crate::object::{
    section_views, ElfObject, ElfView, ProgramHeader, Rel, Section, SectionHeader, SectionView,
};
use crate::plan::{is_loaded, is_region_of, ConvertOptions, Plan};
use crate::relocs::text_rels;
use crate::section::{has_flag, nonempty_in_segment, section_in_segment};
use crate::symbols::{find_section, find_symbol, section_named, symbol_value};
use crate::text::{contains, name_is};
use crate::util::{align_down, aligned_down, append_bytes, do_pad, low32, low32_of, zeros};
use vstd::prelude::*;
use vstd::slice::slice_subrange;
use vstd::string::*;

verus! {

/// The boundary that the start of a TBF for a fixed address is put on.
pub const TBF_START_ALIGNMENT: u32 = 256;

/// The size of the protected region: what the symbol
/// `tbf_protected_region_size` says, or what the caller says, or else as much
/// as the header takes. If the app has to be at a fixed address, it is as much
/// as puts the start of the TBF on a boundary.
pub open spec fn protected_size(
    object: ElfView,
    options: &ConvertOptions,
    plan: Plan,
    header_length: usize,
) -> Result<u32, ConvertError> {
    match symbol_value(object.symbols, "tbf_protected_region_size"@) {
        Err(e) => Err(e),
        Ok(Some(size)) => Ok(size),
        Ok(None) => match options.protected_region_size {
            Some(size) => Ok(size),
            None => if plan.pic {
                Ok(low32(header_length as int))
            } else {
                let address: u32 = match plan.header.fixed_address_flash {
                    Some(address) => address,
                    None => 0,
                };
                Ok(
                    (address - aligned_down(
                        address as int,
                        TBF_START_ALIGNMENT as int,
                    )) as u32,
                )
            },
        },
    }
}

/// The size of the protected region, where the header fits in it.
pub open spec fn protected_region(
    object: ElfView,
    options: &ConvertOptions,
    plan: Plan,
    header_length: usize,
) -> Result<u32, ConvertError> {
    match protected_size(object, options, plan, header_length) {
        Err(e) => Err(e),
        Ok(size) => if size < low32(header_length as int) {
            Err(
                ConvertError::ProtectedRegionTooSmall {
                    protected_region_size: size,
                    header_length,
                },
            )
        } else if size < header_length {
            Err(ConvertError::Overflow)
        } else {
            Ok(size)
        },
    }
}

/// The part of a segment that goes into the binary, if any: a segment without
/// contents to load has none, nor has one that ends before the start of flash.
/// What is before the start of flash is cut off.
pub open spec fn clipped(segment: ProgramHeader, flash: Option<u32>) -> Result<
    Option<ProgramHeader>,
    ConvertError,
> {
    if !is_loaded(segment) {
        Ok(None)
    } else {
        match flash {
            None => Ok(Some(segment)),
            Some(start) => {
                let cut = start - segment.p_paddr;
                if load_end(segment) > u64::MAX {
                    Err(ConvertError::Overflow)
                } else if load_end(segment) < start {
                    Ok(None)
                } else if cut <= 0 {
                    Ok(Some(segment))
                } else if segment.p_offset + cut > u64::MAX || segment.p_vaddr + cut > u64::MAX
                    || segment.p_memsz < cut {
                    Err(ConvertError::Overflow)
                } else {
                    Ok(
                        Some(
                            ProgramHeader {
                                p_type: segment.p_type,
                                p_offset: (segment.p_offset + cut) as u64,
                                p_vaddr: (segment.p_vaddr + cut) as u64,
                                p_paddr: start as u64,
                                p_filesz: (segment.p_filesz - cut) as u64,
                                p_memsz: (segment.p_memsz - cut) as u64,
                                p_flags: segment.p_flags,
                            },
                        ),
                    )
                }
            },
        }
    }
}

/// The parts of segments that go into the binary, in their order.
pub open spec fn placed_segments(segments: Seq<ProgramHeader>, flash: Option<u32>) -> Result<
    Seq<ProgramHeader>,
    ConvertError,
>
    decreases segments.len(),
{
    if segments.len() == 0 {
        Ok(Seq::empty())
    } else {
        match placed_segments(segments.drop_last(), flash) {
            Err(e) => Err(e),
            Ok(before) => match clipped(segments.last(), flash) {
                Err(e) => Err(e),
                Ok(None) => Ok(before),
                Ok(Some(segment)) => Ok(before.push(segment)),
            },
        }
    }
}

/// The load address after the contents of a segment.
pub open spec fn load_end(segment: ProgramHeader) -> int {
    segment.p_paddr + segment.p_filesz
}

/// The number of bytes to put before a segment, so that its distance from the
/// segment before it is the same as between the load addresses.
pub open spec fn gap_before(placed: Seq<ProgramHeader>, k: int) -> int {
    if k <= 0 {
        0
    } else {
        let gap = placed[k].p_paddr - load_end(placed[k - 1]);
        if gap > 0 {
            gap
        } else {
            0
        }
    }
}

/// The position in the TBF after `k` segments.
pub open spec fn reached(placed: Seq<ProgramHeader>, protected: int, k: int) -> int
    decreases k,
{
    if k <= 0 {
        protected
    } else {
        reached(placed, protected, k - 1) + gap_before(placed, k - 1) + placed[k - 1].p_filesz
    }
}

/// The position in the TBF of a segment.
pub open spec fn position(placed: Seq<ProgramHeader>, protected: int, k: int) -> int {
    reached(placed, protected, k) + gap_before(placed, k)
}

/// Whether the file does not have all contents of a segment.
pub open spec fn is_missing(file: Seq<u8>, segment: ProgramHeader) -> bool {
    segment.p_filesz > 0 && segment.p_offset + segment.p_filesz > file.len()
}

/// The contents of a segment.
pub open spec fn contents(file: Seq<u8>, segment: ProgramHeader) -> Seq<u8> {
    if segment.p_filesz == 0 {
        Seq::empty()
    } else {
        file.subrange(segment.p_offset as int, segment.p_offset + segment.p_filesz)
    }
}

/// The first `k` segments with the gaps before them.
pub open spec fn image(placed: Seq<ProgramHeader>, file: Seq<u8>, k: int) -> Seq<u8>
    decreases k,
{
    if k <= 0 {
        Seq::empty()
    } else {
        image(placed, file, k - 1) + zeros(gap_before(placed, k - 1)) + contents(
            file,
            placed[k - 1],
        )
    }
}

/// Why segments cannot be put into the binary.
pub open spec fn placing_fault(placed: Seq<ProgramHeader>, file: Seq<u8>, protected: int) -> Option<
    ConvertError,
> {
    if exists|k: int| 0 <= k < placed.len() && is_missing(file, #[trigger] placed[k]) {
        Some(ConvertError::SegmentData)
    } else if (exists|k: int| 0 <= k < placed.len() && load_end(#[trigger] placed[k]) > u64::MAX)
        || reached(placed, protected, placed.len() as int) > usize::MAX {
        Some(ConvertError::Overflow)
    } else {
        None
    }
}

/// Whether the contents of a segment have an address.
pub open spec fn holds_address(segment: ProgramHeader, address: u64) -> bool {
    segment.p_paddr <= address < load_end(segment)
}

/// The first segment from `from` on whose contents have an address.
pub open spec fn segment_at_from(placed: Seq<ProgramHeader>, address: u64, from: int) -> Option<int>
    decreases placed.len() - from,
{
    if from >= placed.len() {
        None
    } else if holds_address(placed[from], address) {
        Some(from)
    } else {
        segment_at_from(placed, address, from + 1)
    }
}

/// The offset of the entry point from the end of the header.
///
/// Only a disabled app may have the entry point in more than one segment. The
/// first one counts.
pub open spec fn entry_offset(
    placed: Seq<ProgramHeader>,
    entry: u64,
    protected: int,
    header_length: int,
    disabled: bool,
) -> Result<Option<u32>, ConvertError> {
    match segment_at_from(placed, entry, 0) {
        None => Ok(None),
        Some(k) => if segment_at_from(placed, entry, k + 1) is Some && !disabled {
            Err(ConvertError::DuplicateEntryPoint)
        } else {
            Ok(
                Some(
                    low32(
                        position(placed, protected, k) + (entry - placed[k].p_paddr)
                            - header_length,
                    ),
                ),
            )
        },
    }
}

/// Whether a section is the global offset table of a segment.
pub open spec fn is_got_of(section: SectionView, segment: ProgramHeader) -> bool {
    nonempty_in_segment(section, segment) && section.name == ".got"@
}

/// The position in the TBF of the place in the file where a section starts.
pub open spec fn file_position(section: SectionView, segment: ProgramHeader, start: int) -> int {
    start + (section.header.sh_offset - segment.p_offset)
}

/// The position in the TBF of the address at which a section starts.
pub open spec fn address_position(section: SectionView, segment: ProgramHeader, start: int) -> int {
    start + (section.header.sh_addr - segment.p_vaddr)
}

/// The position in the TBF of the last global offset table among sections, of
/// those in a segment that is at `start`.
pub open spec fn got_in_segment(
    sections: Seq<SectionView>,
    segment: ProgramHeader,
    start: int,
) -> Option<int>
    decreases sections.len(),
{
    if sections.len() == 0 {
        None
    } else if is_got_of(sections.last(), segment) {
        Some(file_position(sections.last(), segment, start))
    } else {
        got_in_segment(sections.drop_last(), segment, start)
    }
}

/// The position in the TBF of the last global offset table in the first `k`
/// segments.
pub open spec fn got_position(
    sections: Seq<SectionView>,
    placed: Seq<ProgramHeader>,
    protected: int,
    k: int,
) -> Option<int>
    decreases k,
{
    if k <= 0 {
        None
    } else {
        match got_in_segment(sections, placed[k - 1], position(placed, protected, k - 1)) {
            Some(at) => Some(at),
            None => got_position(sections, placed, protected, k - 1),
        }
    }
}

/// Whether a global offset table of a segment is at no position in the TBF that
/// can be told.
pub open spec fn got_is_lost(section: SectionView, segment: ProgramHeader, start: int) -> bool {
    is_got_of(section, segment) && (section.header.sh_offset < segment.p_offset || file_position(
        section,
        segment,
        start,
    ) > usize::MAX)
}

/// Whether a writeable flash region of a segment is at no position in the TBF
/// that can be told.
pub open spec fn region_is_lost(section: SectionView, segment: ProgramHeader, start: int) -> bool {
    is_region_of(section, segment) && (section.header.sh_addr < segment.p_vaddr || address_position(
        section,
        segment,
        start,
    ) > usize::MAX)
}

/// Whether any section of a segment is at no position in the TBF that can be
/// told, although the position is needed.
pub open spec fn any_lost(
    sections: Seq<SectionView>,
    segment: ProgramHeader,
    start: int,
) -> bool {
    exists|i: int|
        0 <= i < sections.len() && (got_is_lost(#[trigger] sections[i], segment, start)
            || region_is_lost(sections[i], segment, start))
}

/// Whether any section of the segment `k` is at no position in the TBF that can
/// be told, although the position is needed.
pub open spec fn any_lost_at(
    sections: Seq<SectionView>,
    placed: Seq<ProgramHeader>,
    protected: int,
    k: int,
) -> bool {
    any_lost(sections, placed[k], position(placed, protected, k))
}

/// Whether any section is at no position in the TBF that can be told, although
/// the position is needed.
pub open spec fn any_lost_in_image(
    sections: Seq<SectionView>,
    placed: Seq<ProgramHeader>,
    protected: int,
) -> bool {
    exists|k: int|
        0 <= k < placed.len() && #[trigger] any_lost_at(sections, placed, protected, k)
}

/// The position and size of the writeable flash regions among sections, of
/// those in a segment that is at `start`.
pub open spec fn regions_of_segment(
    sections: Seq<SectionView>,
    segment: ProgramHeader,
    start: int,
) -> Seq<(u32, u32)>
    decreases sections.len(),
{
    if sections.len() == 0 {
        Seq::empty()
    } else {
        let before = regions_of_segment(sections.drop_last(), segment, start);
        let last = sections.last();
        if is_region_of(last, segment) {
            before.push(
                (
                    low32(address_position(last, segment, start)),
                    low32(last.header.sh_size as int),
                ),
            )
        } else {
            before
        }
    }
}

/// The position and size of the writeable flash regions in the first `k`
/// segments.
pub open spec fn regions(
    sections: Seq<SectionView>,
    placed: Seq<ProgramHeader>,
    protected: int,
    k: int,
) -> Seq<(u32, u32)>
    decreases k,
{
    if k <= 0 {
        Seq::empty()
    } else {
        regions(sections, placed, protected, k - 1) + regions_of_segment(
            sections,
            placed[k - 1],
            position(placed, protected, k - 1),
        )
    }
}

/// The relocation data for a section: the contents of the section with the same
/// name after `.rel`.
pub open spec fn relocation_data_for(sections: Seq<SectionView>, name: Seq<char>) -> Seq<u8> {
    match section_named(sections, ".rel"@ + name) {
        Some(section) => match section.data {
            Some(data) => data,
            None => Seq::empty(),
        },
        None => Seq::empty(),
    }
}

/// Whether relocation data for a section of a segment is needed: to be
/// relocated at run time, it has to be writable.
pub open spec fn needs_relocation_data(section: SectionView, segment: ProgramHeader) -> bool {
    nonempty_in_segment(section, segment) && has_flag(section.header, SHF_WRITE)
}

/// The relocation data for the first `n` sections, of those in a segment.
pub open spec fn relocation_data_of_segment(
    sections: Seq<SectionView>,
    segment: ProgramHeader,
    n: int,
) -> Seq<u8>
    decreases n,
{
    if n <= 0 {
        Seq::empty()
    } else {
        let before = relocation_data_of_segment(sections, segment, n - 1);
        if needs_relocation_data(sections[n - 1], segment) {
            before + relocation_data_for(sections, sections[n - 1].name)
        } else {
            before
        }
    }
}

/// The relocation data for the first `k` segments.
pub open spec fn relocation_data(
    sections: Seq<SectionView>,
    placed: Seq<ProgramHeader>,
    k: int,
) -> Seq<u8>
    decreases k,
{
    if k <= 0 {
        Seq::empty()
    } else {
        relocation_data(sections, placed, k - 1) + relocation_data_of_segment(
            sections,
            placed[k - 1],
            sections.len() as int,
        )
    }
}

/// Something that the caller should know about a conversion.
#[derive(Clone, Copy, Debug, PartialEq, Eq)]
pub enum Notice {
    /// The size of the protected region that the caller gives is overridden
    /// with this one, which the app gives.
    ProtectedSizeOverridden(u32),
    /// A large gap is put between two segments.
    LargePadding,
    /// A segment is loaded before the end of the one before it, so no gap is
    /// put between them.
    OutOfOrder,
    /// A segment of a disabled app contains the entry point, although a segment
    /// before it does.
    DuplicateEntryPoint,
    /// The kind of a relocation of the code of a shared library.
    RelocationType(u32),
    /// The relocation data starts at this position, which is not a multiple of
    /// 4.
    UnalignedRelocationData(usize),
}

/// The least gap between segments that is large.
pub const LARGE_PADDING: u64 = 4096;

/// What there is to say about the gap before a segment.
pub open spec fn gap_notices(placed: Seq<ProgramHeader>, k: int) -> Seq<Notice> {
    if k <= 0 {
        Seq::empty()
    } else if placed[k].p_paddr < load_end(placed[k - 1]) {
        seq![Notice::OutOfOrder]
    } else if gap_before(placed, k) >= LARGE_PADDING {
        seq![Notice::LargePadding]
    } else {
        Seq::empty()
    }
}

/// Whether the contents of a segment have the entry point, although those of a
/// segment before it have it.
pub open spec fn repeats_entry(placed: Seq<ProgramHeader>, entry: u64, k: int) -> bool {
    holds_address(placed[k], entry) && exists|j: int|
        0 <= j < k && holds_address(#[trigger] placed[j], entry)
}

/// What there is to say about the entry point in a segment.
pub open spec fn entry_notices(placed: Seq<ProgramHeader>, entry: u64, k: int) -> Seq<Notice> {
    if repeats_entry(placed, entry, k) {
        seq![Notice::DuplicateEntryPoint]
    } else {
        Seq::empty()
    }
}

/// The kinds of relocations.
pub open spec fn type_notices(rels: Seq<Rel>) -> Seq<Notice> {
    Seq::new(rels.len(), |i: int| Notice::RelocationType(rels[i].r_type))
}

/// The kinds of the relocations of the code, once for each of the first `n`
/// sections, of those in a segment.
pub open spec fn segment_notices(
    sections: Seq<SectionView>,
    segment: ProgramHeader,
    n: int,
) -> Seq<Notice>
    decreases n,
{
    if n <= 0 {
        Seq::empty()
    } else {
        let before = segment_notices(sections, segment, n - 1);
        if nonempty_in_segment(sections[n - 1], segment) {
            before + type_notices(text_rels(sections))
        } else {
            before
        }
    }
}

/// What there is to say about the first `k` segments.
pub open spec fn placing_notices(
    sections: Seq<SectionView>,
    placed: Seq<ProgramHeader>,
    entry: u64,
    shared_library: bool,
    k: int,
) -> Seq<Notice>
    decreases k,
{
    if k <= 0 {
        Seq::empty()
    } else {
        placing_notices(sections, placed, entry, shared_library, k - 1) + gap_notices(
            placed,
            k - 1,
        ) + entry_notices(placed, entry, k - 1) + (if shared_library {
            segment_notices(sections, placed[k - 1], sections.len() as int)
        } else {
            Seq::empty()
        })
    }
}

/// What there is to say about the size of the protected region.
pub open spec fn protected_notice(object: ElfView, options: &ConvertOptions) -> Option<Notice> {
    match (
        symbol_value(object.symbols, "tbf_protected_region_size"@),
        options.protected_region_size,
    ) {
        (Ok(Some(size)), Some(_)) => Some(Notice::ProtectedSizeOverridden(size)),
        _ => None,
    }
}

/// What there is to say about the size of the protected region, as a list.
pub open spec fn protected_notices(object: ElfView, options: &ConvertOptions) -> Seq<Notice> {
    match protected_notice(object, options) {
        Some(notice) => seq![notice],
        None => Seq::empty(),
    }
}

/// What there is to say about the position of the relocation data.
pub open spec fn alignment_notices(data: Seq<u8>, end: int) -> Seq<Notice> {
    if data.len() > 0 && low32(end) % 4 != 0 {
        seq![Notice::UnalignedRelocationData(end as usize)]
    } else {
        Seq::empty()
    }
}

/// An app laid out for a TBF.
#[derive(Debug)]
pub struct Layout {
    /// The size of the protected region.
    pub protected: u32,
    /// What follows the header: the rest of the protected region and the
    /// segments.
    pub binary: Vec<u8>,
    /// The parts of segments that are in the binary.
    pub segments: Vec<ProgramHeader>,
    /// The positions in the TBF of these parts.
    pub positions: Vec<usize>,
    /// The position in the TBF after the segments.
    pub end: usize,
    /// The offset of the entry point from the end of the header.
    pub init_fn_offset: Option<u32>,
    /// The position and size of the writeable flash regions.
    pub regions: Vec<(u32, u32)>,
    /// The relocation data.
    pub relocation_data: Vec<u8>,
    /// The position in the TBF of the global offset table.
    pub got: Option<usize>,
    /// What the caller should know.
    pub notices: Vec<Notice>,
}

/// What a `Layout` stands for.
pub struct LayoutView {
    /// The size of the protected region.
    pub protected: u32,
    /// What follows the header: the rest of the protected region and the
    /// segments.
    pub binary: Seq<u8>,
    /// The parts of segments that are in the binary.
    pub segments: Seq<ProgramHeader>,
    /// The positions in the TBF of these parts.
    pub positions: Seq<int>,
    /// The position in the TBF after the segments.
    pub end: int,
    /// The offset of the entry point from the end of the header.
    pub init_fn_offset: Option<u32>,
    /// The position and size of the writeable flash regions.
    pub regions: Seq<(u32, u32)>,
    /// The relocation data.
    pub relocation_data: Seq<u8>,
    /// The position in the TBF of the global offset table.
    pub got: Option<int>,
    /// What the caller should know.
    pub notices: Seq<Notice>,
}

/// A number that may be there.
pub open spec fn optional_int(value: Option<usize>) -> Option<int> {
    match value {
        Some(v) => Some(v as int),
        None => None,
    }
}

impl View for Layout {
    type V = LayoutView;

    open spec fn view(&self) -> LayoutView {
        LayoutView {
            protected: self.protected,
            binary: self.binary@,
            segments: self.segments@,
            positions: Seq::new(self.positions@.len(), |k: int| self.positions@[k] as int),
            end: self.end as int,
            init_fn_offset: self.init_fn_offset,
            regions: self.regions@,
            relocation_data: self.relocation_data@,
            got: optional_int(self.got),
            notices: self.notices@,
        }
    }
}

/// What a result that holds a layout stands for.
pub open spec fn layout_result(layout: Result<Layout, ConvertError>) -> Result<
    LayoutView,
    ConvertError,
> {
    match layout {
        Ok(l) => Ok(l@),
        Err(e) => Err(e),
    }
}

/// An app with these segments laid out for a TBF.
pub open spec fn layout_with(
    object: ElfView,
    file: Seq<u8>,
    options: &ConvertOptions,
    plan: Plan,
    header_length: usize,
    protected: u32,
    placed: Seq<ProgramHeader>,
    init_fn_offset: Option<u32>,
) -> LayoutView {
    let sections = object.sections;
    let count = placed.len() as int;
    let end = reached(placed, protected as int, count);
    let data = relocation_data(sections, placed, count);
    LayoutView {
        protected,
        binary: zeros(protected - header_length) + image(placed, file, count),
        segments: placed,
        positions: Seq::new(placed.len(), |k: int| position(placed, protected as int, k)),
        end,
        init_fn_offset,
        regions: regions(sections, placed, protected as int, count),
        relocation_data: data,
        got: got_position(sections, placed, protected as int, count),
        notices: protected_notices(object, options) + placing_notices(
            sections,
            placed,
            object.header.e_entry,
            plan.header.is_shared_library,
            count,
        ) + alignment_notices(data, end),
    }
}

/// An app laid out for a TBF whose header takes `header_length` bytes, or why
/// it cannot be laid out.
pub open spec fn layout_of(
    object: ElfView,
    file: Seq<u8>,
    options: &ConvertOptions,
    plan: Plan,
    header_length: usize,
) -> Result<LayoutView, ConvertError> {
    match object.segments {
        None => Err(ConvertError::NoProgramHeaders),
        Some(segments) => match protected_region(object, options, plan, header_length) {
            Err(e) => Err(e),
            Ok(protected) => match placed_segments(segments, plan.header.fixed_address_flash) {
                Err(e) => Err(e),
                Ok(placed) => match placing_fault(placed, file, protected as int) {
                    Some(e) => Err(e),
                    None => match entry_offset(
                        placed,
                        object.header.e_entry,
                        protected as int,
                        header_length as int,
                        options.disabled,
                    ) {
                        Err(e) => Err(e),
                        Ok(init_fn_offset) => if any_lost_in_image(
                            object.sections,
                            placed,
                            protected as int,
                        ) {
                            Err(ConvertError::Overflow)
                        } else {
                            Ok(
                                layout_with(
                                    object,
                                    file,
                                    options,
                                    plan,
                                    header_length,
                                    protected,
                                    placed,
                                    init_fn_offset,
                                ),
                            )
                        },
                    },
                },
            },
        },
    }
}

/// Once a segment cannot be clipped, more segments change nothing.
proof fn placing_error_stays(segments: Seq<ProgramHeader>, flash: Option<u32>, count: int)
    requires
        0 <= count <= segments.len(),
        placed_segments(segments.take(count), flash) is Err,
    ensures
        placed_segments(segments, flash) == placed_segments(segments.take(count), flash),
    decreases segments.len() - count,
{
    if count == segments.len() {
        assert(segments.take(count) =~= segments);
    } else {
        assert(segments.take(count + 1).drop_last() =~= segments.take(count));
        placing_error_stays(segments, flash, count + 1);
    }
}

/// The position after some segments is not before the position after fewer.
pub proof fn reached_grows(placed: Seq<ProgramHeader>, protected: int, j: int, k: int)
    requires
        0 <= j <= k,
    ensures
        protected <= reached(placed, protected, j) <= reached(placed, protected, k),
    decreases k,
{
    if j < k {
        reached_grows(placed, protected, j, k - 1);
    } else if k > 0 {
        reached_grows(placed, protected, k - 1, k - 1);
    }
}

/// The segments and gaps take as many bytes as the positions say.
pub proof fn image_length(placed: Seq<ProgramHeader>, file: Seq<u8>, protected: int, k: int)
    requires
        0 <= k <= placed.len(),
        forall|j: int| 0 <= j < placed.len() ==> !is_missing(file, #[trigger] placed[j]),
    ensures
        image(placed, file, k).len() == reached(placed, protected, k) - protected,
    decreases k,
{
    if k > 0 {
        image_length(placed, file, protected, k - 1);
        assert(!is_missing(file, placed[k - 1]));
    }
}

/// Determines the size of the protected region.
fn choose_protected_region(
    object: &ElfObject,
    options: &ConvertOptions,
    plan: &Plan,
    header_length: usize,
) -> (size: Result<u32, ConvertError>)
    ensures
        size == protected_region(object@, options, *plan, header_length),
{
    let symbol: Option<u32> = match find_symbol(&object.symbols, "tbf_protected_region_size") {
        Ok(symbol) => symbol,
        Err(e) => { return Err(e); },
    };
    let needed: u32 = low32_of(header_length as u64);
    let size: u32 = match symbol {
        Some(size) => size,
        None => match options.protected_region_size {
            Some(size) => size,
            None => if plan.pic {
                needed
            } else {
                let address: u32 = match plan.header.fixed_address_flash {
                    Some(address) => address,
                    None => 0,
                };
                address - align_down(address, TBF_START_ALIGNMENT)
            },
        },
    };
    if size < needed {
        return Err(
            ConvertError::ProtectedRegionTooSmall { protected_region_size: size, header_length },
        );
    }
    if (size as u64) < header_length as u64 {
        return Err(ConvertError::Overflow);
    }
    Ok(size)
}

/// Determines what there is to say about the size of the protected region.
pub fn find_protected_notice(object: &ElfObject, options: &ConvertOptions) -> (notice: Option<
    Notice,
>)
    ensures
        notice == protected_notice(object@, options),
{
    match (
        find_symbol(&object.symbols, "tbf_protected_region_size"),
        options.protected_region_size,
    ) {
        (Ok(Some(size)), Some(_)) => Some(Notice::ProtectedSizeOverridden(size)),
        _ => None,
    }
}

/// Determines the part of a segment that goes into the binary.
fn clip_segment(segment: &ProgramHeader, flash: Option<u32>) -> (part: Result<
    Option<ProgramHeader>,
    ConvertError,
>)
    ensures
        part == clipped(*segment, flash),
{
    if segment.p_type != PT_LOAD || segment.p_filesz == 0 {
        return Ok(None);
    }
    let start: u64 = match flash {
        Some(start) => start as u64,
        None => { return Ok(Some(*segment)); },
    };
    let end: u64 = match segment.p_paddr.checked_add(segment.p_filesz) {
        Some(end) => end,
        None => { return Err(ConvertError::Overflow); },
    };
    if end < start {
        return Ok(None);
    }
    if segment.p_paddr >= start {
        return Ok(Some(*segment));
    }
    let cut: u64 = start - segment.p_paddr;
    match (segment.p_offset.checked_add(cut), segment.p_vaddr.checked_add(cut)) {
        (Some(p_offset), Some(p_vaddr)) => {
            if segment.p_memsz < cut {
                return Err(ConvertError::Overflow);
            }
            Ok(
                Some(
                    ProgramHeader {
                        p_type: segment.p_type,
                        p_offset,
                        p_vaddr,
                        p_paddr: start,
                        p_filesz: segment.p_filesz - cut,
                        p_memsz: segment.p_memsz - cut,
                        p_flags: segment.p_flags,
                    },
                ),
            )
        },
        _ => Err(ConvertError::Overflow),
    }
}

/// Determines the parts of segments that go into the binary.
fn place_segments(segments: &Vec<ProgramHeader>, flash: Option<u32>) -> (placed: Result<
    Vec<ProgramHeader>,
    ConvertError,
>)
    ensures
        match placed {
            Ok(p) => placed_segments(segments@, flash) == Ok::<Seq<ProgramHeader>, ConvertError>(
                p@,
            ),
            Err(e) => placed_segments(segments@, flash) == Err::<Seq<ProgramHeader>, ConvertError>(
                e,
            ),
        },
{
    let mut placed: Vec<ProgramHeader> = Vec::new();
    let count: usize = segments.len();
    let mut i: usize = 0;
    while i < count
        invariant
            count == segments@.len(),
            i <= count,
            placed_segments(segments@.take(i as int), flash) == Ok::<
                Seq<ProgramHeader>,
                ConvertError,
            >(placed@),
        decreases count - i,
    {
        assert(segments@.take(i + 1).drop_last() =~= segments@.take(i as int));
        match clip_segment(&segments[i], flash) {
            Ok(Some(part)) => {
                placed.push(part);
            },
            Ok(None) => {},
            Err(e) => {
                proof {
                    placing_error_stays(segments@, flash, i + 1);
                }
                return Err(e);
            },
        }
        i += 1;
    }
    assert(segments@.take(count as int) =~= segments@);
    Ok(placed)
}

/// Whether the file has the contents of all segments.
fn all_in_file(placed: &Vec<ProgramHeader>, file: &[u8]) -> (all: bool)
    ensures
        all == !exists|k: int| 0 <= k < placed@.len() && is_missing(file@, #[trigger] placed@[k]),
{
    let file_len: usize = file.len();
    let count: usize = placed.len();
    let mut i: usize = 0;
    while i < count
        invariant
            count == placed@.len(),
            i <= count,
            file_len == file@.len(),
            forall|k: int| 0 <= k < i ==> !is_missing(file@, #[trigger] placed@[k]),
        decreases count - i,
    {
        let segment: &ProgramHeader = &placed[i];
        if segment.p_filesz > 0 {
            let in_file: bool = match segment.p_offset.checked_add(segment.p_filesz) {
                Some(end) => end <= file_len as u64,
                None => false,
            };
            if !in_file {
                assert(is_missing(file@, placed@[i as int]));
                return false;
            }
        }
        i += 1;
    }
    true
}

/// Computes the positions of segments, and the position after them, where they
/// fit.
fn measure(placed: &Vec<ProgramHeader>, protected: u32) -> (positions: Option<(Vec<usize>, usize)>)
    ensures
        match positions {
            Some((starts, end)) => {
                &&& starts@.len() == placed@.len()
                &&& forall|k: int|
                    0 <= k < placed@.len() ==> #[trigger] starts@[k] == position(
                        placed@,
                        protected as int,
                        k,
                    )
                &&& end == reached(placed@, protected as int, placed@.len() as int)
                &&& forall|k: int| 0 <= k < placed@.len() ==> load_end(#[trigger] placed@[k])
                    <= u64::MAX
            },
            None => (exists|k: int|
                0 <= k < placed@.len() && load_end(#[trigger] placed@[k]) > u64::MAX) || reached(
                placed@,
                protected as int,
                placed@.len() as int,
            ) > usize::MAX,
        },
{
    let mut starts: Vec<usize> = Vec::new();
    let mut end: usize = protected as usize;
    let mut last_end: u64 = 0;
    let count: usize = placed.len();
    let mut i: usize = 0;
    while i < count
        invariant
            count == placed@.len(),
            i <= count,
            starts@.len() == i,
            forall|k: int|
                0 <= k < i ==> #[trigger] starts@[k] == position(placed@, protected as int, k),
            end == reached(placed@, protected as int, i as int),
            forall|k: int| 0 <= k < i ==> load_end(#[trigger] placed@[k]) <= u64::MAX,
            i > 0 ==> last_end == load_end(placed@[i - 1]),
        decreases count - i,
    {
        let segment: &ProgramHeader = &placed[i];
        proof {
            reached_grows(placed@, protected as int, i + 1, count as int);
        }
        let gap: u64 = if i > 0 && segment.p_paddr > last_end {
            segment.p_paddr - last_end
        } else {
            0
        };
        assert(gap == gap_before(placed@, i as int));
        last_end = match segment.p_paddr.checked_add(segment.p_filesz) {
            Some(sum) => sum,
            None => {
                assert(load_end(placed@[i as int]) > u64::MAX);
                return None;
            },
        };
        if gap > usize::MAX as u64 || segment.p_filesz > usize::MAX as u64 {
            return None;
        }
        let start: usize = match end.checked_add(gap as usize) {
            Some(start) => start,
            None => { return None; },
        };
        end = match start.checked_add(segment.p_filesz as usize) {
            Some(end) => end,
            None => { return None; },
        };
        starts.push(start);
        i += 1;
    }
    Some((starts, end))
}

/// Appends segments with the gaps before them.
fn append_image(binary: &mut Vec<u8>, placed: &Vec<ProgramHeader>, file: &[u8])
    requires
        forall|k: int| 0 <= k < placed@.len() ==> !is_missing(file@, #[trigger] placed@[k]),
        forall|k: int| 0 <= k < placed@.len() ==> load_end(#[trigger] placed@[k]) <= u64::MAX,
        reached(placed@, 0, placed@.len() as int) <= usize::MAX,
    ensures
        final(binary)@ == old(binary)@ + image(placed@, file@, placed@.len() as int),
{
    let file_len: usize = file.len();
    let mut last_end: u64 = 0;
    let count: usize = placed.len();
    let mut i: usize = 0;
    while i < count
        invariant
            count == placed@.len(),
            i <= count,
            file_len == file@.len(),
            forall|k: int| 0 <= k < placed@.len() ==> !is_missing(file@, #[trigger] placed@[k]),
            forall|k: int| 0 <= k < placed@.len() ==> load_end(#[trigger] placed@[k]) <= u64::MAX,
            reached(placed@, 0, placed@.len() as int) <= usize::MAX,
            i > 0 ==> last_end == load_end(placed@[i - 1]),
            binary@ =~= old(binary)@ + image(placed@, file@, i as int),
        decreases count - i,
    {
        let segment: &ProgramHeader = &placed[i];
        proof {
            assert(!is_missing(file@, placed@[i as int]));
            assert(load_end(placed@[i as int]) <= u64::MAX);
            reached_grows(placed@, 0, i as int, i as int);
            reached_grows(placed@, 0, i + 1, count as int);
        }
        if i > 0 && segment.p_paddr > last_end {
            do_pad(binary, (segment.p_paddr - last_end) as usize);
        } else {
            assert(zeros(gap_before(placed@, i as int)) =~= Seq::<u8>::empty());
        }
        if segment.p_filesz > 0 {
            let start: usize = segment.p_offset as usize;
            append_bytes(
                binary,
                slice_subrange(file, start, start + segment.p_filesz as usize),
            );
        }
        last_end = segment.p_paddr + segment.p_filesz;
        i += 1;
    }
}

/// Where the segments start only shifts the positions.
pub proof fn reached_shifts(placed: Seq<ProgramHeader>, protected: int, k: int)
    ensures
        reached(placed, protected, k) == protected + reached(placed, 0, k),
    decreases k,
{
    if k > 0 {
        reached_shifts(placed, protected, k - 1);
    }
}

/// Finds the first segment from `from` on whose contents have an address.
fn find_segment_at(placed: &Vec<ProgramHeader>, address: u64, from: usize) -> (found: Option<usize>)
    requires
        forall|k: int| 0 <= k < placed@.len() ==> load_end(#[trigger] placed@[k]) <= u64::MAX,
    ensures
        match found {
            Some(k) => from <= k < placed@.len() && holds_address(placed@[k as int], address)
                && segment_at_from(placed@, address, from as int) == Some(k as int),
            None => segment_at_from(placed@, address, from as int) is None,
        },
{
    let count: usize = placed.len();
    let mut i: usize = from;
    while i < count
        invariant
            count == placed@.len(),
            from <= i,
            forall|k: int| 0 <= k < placed@.len() ==> load_end(#[trigger] placed@[k]) <= u64::MAX,
            segment_at_from(placed@, address, from as int) == segment_at_from(
                placed@,
                address,
                i as int,
            ),
        decreases count - i,
    {
        assert(load_end(placed@[i as int]) <= u64::MAX);
        if address >= placed[i].p_paddr && address < placed[i].p_paddr + placed[i].p_filesz {
            return Some(i);
        }
        i += 1;
    }
    None
}

/// Determines the offset of the entry point from the end of the header.
fn find_entry(
    placed: &Vec<ProgramHeader>,
    starts: &Vec<usize>,
    entry: u64,
    protected: u32,
    header_length: usize,
    disabled: bool,
) -> (offset: Result<Option<u32>, ConvertError>)
    requires
        header_length <= protected,
        forall|k: int| 0 <= k < placed@.len() ==> load_end(#[trigger] placed@[k]) <= u64::MAX,
        reached(placed@, protected as int, placed@.len() as int) <= usize::MAX,
        starts@.len() == placed@.len(),
        forall|k: int|
            0 <= k < placed@.len() ==> #[trigger] starts@[k] == position(
                placed@,
                protected as int,
                k,
            ),
    ensures
        offset == entry_offset(placed@, entry, protected as int, header_length as int, disabled),
{
    let k: usize = match find_segment_at(placed, entry, 0) {
        Some(k) => k,
        None => { return Ok(None); },
    };
    let count: usize = placed.len();
    assert(k < count);
    if !disabled && find_segment_at(placed, entry, k + 1).is_some() {
        return Err(ConvertError::DuplicateEntryPoint);
    }
    proof {
        reached_grows(placed@, protected as int, 0, k as int);
        reached_grows(placed@, protected as int, k + 1, placed@.len() as int);
    }
    let inside: u64 = entry - placed[k].p_paddr;
    let offset: usize = starts[k] + inside as usize - header_length;
    Ok(Some(low32_of(offset as u64)))
}

/// Finds the last global offset table of a segment, and appends its writeable
/// flash regions to `found`. There is no result where a position cannot be
/// told.
fn scan_segment(
    sections: &Vec<Section>,
    segment: &ProgramHeader,
    start: usize,
    found: &mut Vec<(u32, u32)>,
) -> (got: Result<Option<usize>, ConvertError>)
    ensures
        match got {
            Ok(g) => {
                &&& !any_lost(section_views(sections@), *segment, start as int)
                &&& optional_int(g) == got_in_segment(
                    section_views(sections@),
                    *segment,
                    start as int,
                )
                &&& final(found)@ == old(found)@ + regions_of_segment(
                    section_views(sections@),
                    *segment,
                    start as int,
                )
            },
            Err(e) => e == ConvertError::Overflow && any_lost(
                section_views(sections@),
                *segment,
                start as int,
            ),
        },
{
    let ghost views = section_views(sections@);
    let mut got: Option<usize> = None;
    let count: usize = sections.len();
    let mut i: usize = 0;
    while i < count
        invariant
            count == sections@.len(),
            i <= count,
            views == section_views(sections@),
            forall|j: int|
                0 <= j < i ==> !(got_is_lost(#[trigger] views[j], *segment, start as int)
                    || region_is_lost(views[j], *segment, start as int)),
            optional_int(got) == got_in_segment(views.take(i as int), *segment, start as int),
            found@ =~= old(found)@ + regions_of_segment(
                views.take(i as int),
                *segment,
                start as int,
            ),
        decreases count - i,
    {
        assert(views.take(i + 1).drop_last() =~= views.take(i as int));
        let header: &SectionHeader = &sections[i].header;
        if header.sh_size > 0 && section_in_segment(header, segment) {
            if name_is(&sections[i].name, ".got") {
                let at: Option<usize> = offset_from(start, header.sh_offset, segment.p_offset);
                if at.is_none() {
                    assert(got_is_lost(views[i as int], *segment, start as int));
                    return Err(ConvertError::Overflow);
                }
                got = at;
            }
            if contains(sections[i].name.as_str(), ".wfr") {
                match offset_from(start, header.sh_addr, segment.p_vaddr) {
                    Some(at) => {
                        found.push((low32_of(at as u64), low32_of(header.sh_size)));
                    },
                    None => {
                        assert(region_is_lost(views[i as int], *segment, start as int));
                        return Err(ConvertError::Overflow);
                    },
                }
            }
        }
        i += 1;
    }
    assert(views.take(count as int) =~= views);
    Ok(got)
}

/// The position that is as far from `start` as `to` is from `from`, where it
/// can be told.
fn offset_from(start: usize, to: u64, from: u64) -> (at: Option<usize>)
    ensures
        match at {
            Some(a) => to >= from && a == start + (to - from),
            None => to < from || start + (to - from) > usize::MAX,
        },
{
    if to < from || to - from > usize::MAX as u64 {
        return None;
    }
    start.checked_add((to - from) as usize)
}

/// Finds the last global offset table and the writeable flash regions of all
/// segments.
fn scan_segments(
    sections: &Vec<Section>,
    placed: &Vec<ProgramHeader>,
    starts: &Vec<usize>,
    protected: u32,
) -> (found: Result<(Option<usize>, Vec<(u32, u32)>), ConvertError>)
    requires
        starts@.len() == placed@.len(),
        forall|k: int|
            0 <= k < placed@.len() ==> #[trigger] starts@[k] == position(
                placed@,
                protected as int,
                k,
            ),
    ensures
        match found {
            Ok((got, list)) => {
                &&& !any_lost_in_image(section_views(sections@), placed@, protected as int)
                &&& optional_int(got) == got_position(
                    section_views(sections@),
                    placed@,
                    protected as int,
                    placed@.len() as int,
                )
                &&& list@ == regions(
                    section_views(sections@),
                    placed@,
                    protected as int,
                    placed@.len() as int,
                )
            },
            Err(e) => e == ConvertError::Overflow && any_lost_in_image(
                section_views(sections@),
                placed@,
                protected as int,
            ),
        },
{
    let ghost views = section_views(sections@);
    let mut got: Option<usize> = None;
    let mut list: Vec<(u32, u32)> = Vec::new();
    let count: usize = placed.len();
    let mut i: usize = 0;
    while i < count
        invariant
            count == placed@.len(),
            i <= count,
            views == section_views(sections@),
            starts@.len() == placed@.len(),
            forall|k: int|
                0 <= k < placed@.len() ==> #[trigger] starts@[k] == position(
                    placed@,
                    protected as int,
                    k,
                ),
            forall|k: int|
                0 <= k < i ==> !#[trigger] any_lost_at(views, placed@, protected as int, k),
            optional_int(got) == got_position(views, placed@, protected as int, i as int),
            list@ == regions(views, placed@, protected as int, i as int),
        decreases count - i,
    {
        assert(starts@[i as int] == position(placed@, protected as int, i as int));
        match scan_segment(sections, &placed[i], starts[i], &mut list) {
            Ok(Some(at)) => {
                got = Some(at);
            },
            Ok(None) => {},
            Err(e) => {
                assert(any_lost_at(views, placed@, protected as int, i as int));
                return Err(e);
            },
        }
        i += 1;
    }
    Ok((got, list))
}

/// Appends the relocation data for a section.
fn append_relocation_data_for(sections: &Vec<Section>, name: &String, data: &mut Vec<u8>)
    ensures
        final(data)@ == old(data)@ + relocation_data_for(section_views(sections@), name@),
{
    let mut wanted: String = ".rel".to_owned();
    wanted.append(name.as_str());
    if let Some(i) = find_section(sections, wanted.as_str()) {
        assert(section_views(sections@)[i as int] == sections@[i as int]@);
        if let Some(found) = &sections[i].data {
            append_bytes(data, found.as_slice());
            return;
        }
    }
    assert(data@ =~= old(data)@ + Seq::<u8>::empty());
}

/// Collects the relocation data for all segments.
fn collect_relocation_data(sections: &Vec<Section>, placed: &Vec<ProgramHeader>) -> (data: Vec<u8>)
    ensures
        data@ == relocation_data(section_views(sections@), placed@, placed@.len() as int),
{
    let ghost views = section_views(sections@);
    let mut data: Vec<u8> = Vec::new();
    let count: usize = placed.len();
    let section_count: usize = sections.len();
    let mut i: usize = 0;
    while i < count
        invariant
            count == placed@.len(),
            section_count == sections@.len(),
            i <= count,
            views == section_views(sections@),
            data@ == relocation_data(views, placed@, i as int),
        decreases count - i,
    {
        let ghost before = data@;
        let mut n: usize = 0;
        while n < section_count
            invariant
                count == placed@.len(),
                section_count == sections@.len(),
                i < count,
                n <= section_count,
                views == section_views(sections@),
                data@ =~= before + relocation_data_of_segment(views, placed@[i as int], n as int),
            decreases section_count - n,
        {
            let header: &SectionHeader = &sections[n].header;
            #[verifier::truncate]
            let flags: u32 = header.sh_flags as u32;
            if header.sh_size > 0 && section_in_segment(header, &placed[i]) && flags & SHF_WRITE
                != 0 {
                append_relocation_data_for(sections, &sections[n].name, &mut data);
            }
            n += 1;
        }
        i += 1;
    }
    data
}

/// Appends the kinds of the relocations of the code, once for each section in a
/// segment.
fn append_segment_notices(
    sections: &Vec<Section>,
    segment: &ProgramHeader,
    notices: &mut Vec<Notice>,
)
    ensures
        final(notices)@ == old(notices)@ + segment_notices(
            section_views(sections@),
            *segment,
            sections@.len() as int,
        ),
{
    let ghost views = section_views(sections@);
    let none: Vec<Rel> = Vec::new();
    let rels: &Vec<Rel> = match find_section(sections, ".rel.text") {
        Some(i) => match &sections[i].rels {
            Some(rels) => rels,
            None => &none,
        },
        None => &none,
    };
    assert(rels@ == text_rels(views));
    let count: usize = sections.len();
    let rel_count: usize = rels.len();
    let mut i: usize = 0;
    while i < count
        invariant
            count == sections@.len(),
            rel_count == rels@.len(),
            i <= count,
            views == section_views(sections@),
            rels@ == text_rels(views),
            notices@ =~= old(notices)@ + segment_notices(views, *segment, i as int),
        decreases count - i,
    {
        if sections[i].header.sh_size > 0 && section_in_segment(&sections[i].header, segment) {
            let ghost before = notices@;
            let mut k: usize = 0;
            while k < rel_count
                invariant
                    rel_count == rels@.len(),
                    k <= rel_count,
                    notices@ =~= before + type_notices(rels@).take(k as int),
                decreases rel_count - k,
            {
                notices.push(Notice::RelocationType(rels[k].r_type));
                k += 1;
            }
            assert(type_notices(rels@).take(rel_count as int) =~= type_notices(rels@));
        }
        i += 1;
    }
}

/// Appends what there is to say about the segments.
fn append_placing_notices(
    sections: &Vec<Section>,
    placed: &Vec<ProgramHeader>,
    entry: u64,
    shared_library: bool,
    notices: &mut Vec<Notice>,
)
    requires
        forall|k: int| 0 <= k < placed@.len() ==> load_end(#[trigger] placed@[k]) <= u64::MAX,
    ensures
        final(notices)@ == old(notices)@ + placing_notices(
            section_views(sections@),
            placed@,
            entry,
            shared_library,
            placed@.len() as int,
        ),
{
    let ghost views = section_views(sections@);
    let mut last_end: u64 = 0;
    let mut has_entry: bool = false;
    let count: usize = placed.len();
    let mut i: usize = 0;
    while i < count
        invariant
            count == placed@.len(),
            i <= count,
            views == section_views(sections@),
            forall|k: int| 0 <= k < placed@.len() ==> load_end(#[trigger] placed@[k]) <= u64::MAX,
            i > 0 ==> last_end == load_end(placed@[i - 1]),
            has_entry == exists|j: int| 0 <= j < i && holds_address(#[trigger] placed@[j], entry),
            notices@ =~= old(notices)@ + placing_notices(
                views,
                placed@,
                entry,
                shared_library,
                i as int,
            ),
        decreases count - i,
    {
        let segment: &ProgramHeader = &placed[i];
        let ghost had_entry = has_entry;
        assert(load_end(placed@[i as int]) <= u64::MAX);
        if i > 0 {
            if segment.p_paddr < last_end {
                notices.push(Notice::OutOfOrder);
            } else if segment.p_paddr - last_end >= LARGE_PADDING {
                notices.push(Notice::LargePadding);
            }
        }
        if entry >= segment.p_paddr && entry < segment.p_paddr + segment.p_filesz {
            assert(holds_address(placed@[i as int], entry));
            if has_entry {
                notices.push(Notice::DuplicateEntryPoint);
            }
            has_entry = true;
        }
        assert(repeats_entry(placed@, entry, i as int) == (had_entry && holds_address(
            placed@[i as int],
            entry,
        )));
        if shared_library {
            append_segment_notices(sections, segment, notices);
        }
        last_end = segment.p_paddr + segment.p_filesz;
        i += 1;
    }
}

/// Lays out an app for a TBF whose header takes `header_length` bytes.
pub fn lay_out(
    object: &ElfObject,
    file: &[u8],
    options: &ConvertOptions,
    plan: &Plan,
    header_length: usize,
) -> (layout: Result<Layout, ConvertError>)
    ensures
        layout_result(layout) == layout_of(object@, file@, options, *plan, header_length),
{
    let segments: &Vec<ProgramHeader> = match &object.segments {
        Some(segments) => segments,
        None => { return Err(ConvertError::NoProgramHeaders); },
    };
    let protected: u32 = match choose_protected_region(object, options, plan, header_length) {
        Ok(protected) => protected,
        Err(e) => { return Err(e); },
    };
    let placed: Vec<ProgramHeader> = match place_segments(
        segments,
        plan.header.fixed_address_flash,
    ) {
        Ok(placed) => placed,
        Err(e) => { return Err(e); },
    };
    if !all_in_file(&placed, file) {
        return Err(ConvertError::SegmentData);
    }
    let (starts, end) = match measure(&placed, protected) {
        Some(positions) => positions,
        None => { return Err(ConvertError::Overflow); },
    };
    let init_fn_offset: Option<u32> = match find_entry(
        &placed,
        &starts,
        object.header.e_entry,
        protected,
        header_length,
        options.disabled,
    ) {
        Ok(offset) => offset,
        Err(e) => { return Err(e); },
    };
    let (got, list) = match scan_segments(&object.sections, &placed, &starts, protected) {
        Ok(found) => found,
        Err(e) => { return Err(e); },
    };
    let mut binary: Vec<u8> = Vec::new();
    do_pad(&mut binary, protected as usize - header_length);
    proof {
        reached_shifts(placed@, protected as int, placed@.len() as int);
    }
    append_image(&mut binary, &placed, file);
    let data: Vec<u8> = collect_relocation_data(&object.sections, &placed);
    let mut notices: Vec<Notice> = Vec::new();
    if let Some(notice) = find_protected_notice(object, options) {
        notices.push(notice);
    }
    append_placing_notices(
        &object.sections,
        &placed,
        object.header.e_entry,
        plan.header.is_shared_library,
        &mut notices,
    );
    if data.len() > 0 && low32_of(end as u64) % 4 != 0 {
        notices.push(Notice::UnalignedRelocationData(end));
    }
    let layout: Layout = Layout {
        protected,
        binary,
        segments: placed,
        positions: starts,
        end,
        init_fn_offset,
        regions: list,
        relocation_data: data,
        got,
        notices,
    };
    proof {
        let expected = layout_with(
            object@,
            file@,
            options,
            *plan,
            header_length,
            protected,
            layout.segments@,
            init_fn_offset,
        );
        assert(layout@.binary =~= expected.binary);
        assert(layout@.positions =~= expected.positions);
        assert(layout@.notices =~= expected.notices);
    }
    Ok(layout)
}

} // verus!
