//! Conversion of an ELF file to a TBF.
use crate::abi::ET_DYN;
use crate::error::ConvertError;
use crate::footer::{
    compute_sizes, covered_part, credentials_fit_formats, credentials_length, footer_reserve,
    padding_is_not_negative, reserve_is_not_negative, room_after_credentials, sizes_of, tbf_after,
    write_tbf, Sizes,
};
use crate::laws::{body_ends_at_footer, parts_add_up};
use crate::layout::{lay_out, layout_of, Layout, LayoutView, Notice};
use crate::object::{
    elf_object, library_views, ElfObject, ElfView, SharedLibrary, SharedLibraryView,
};
use crate::plan::{make_plan, plan_of, ConvertOptions, HeaderPlan, Plan};
use crate::relocs::{
    fn_relocs, get_fn_relocs, output_relocation_file, reloc_views, relocation_text, AppFuncReloc,
    AppFuncRelocView,
};
use crate::symbols::{get_shared_library_deps, library_names, optional_texts};
use crate::util::{append_bytes, low32, low32_of};
use vstd::prelude::*;

verus! {

/// What the header of a TBF has to say.
#[derive(Debug)]
pub struct TbfHeader {
    /// What it has to say before the binary is laid out.
    pub plan: HeaderPlan,
    /// The size of the protected region after the header, if there is any.
    pub protected_size: Option<u32>,
    /// The offset of the entry point from the end of the header, if there is an
    /// entry point.
    pub init_fn_offset: Option<u32>,
    /// The position and size of the writeable flash regions.
    pub writeable_flash_regions: Vec<(u32, u32)>,
    /// The position at which the footer starts.
    pub binary_end_offset: u32,
    /// The size of the TBF.
    pub total_size: u32,
}

/// What a `TbfHeader` stands for.
pub struct TbfHeaderView {
    /// What it has to say before the binary is laid out.
    pub plan: HeaderPlan,
    /// The size of the protected region after the header, if there is any.
    pub protected_size: Option<u32>,
    /// The offset of the entry point from the end of the header, if there is an
    /// entry point.
    pub init_fn_offset: Option<u32>,
    /// The position and size of the writeable flash regions.
    pub writeable_flash_regions: Seq<(u32, u32)>,
    /// The position at which the footer starts.
    pub binary_end_offset: u32,
    /// The size of the TBF.
    pub total_size: u32,
}

impl View for TbfHeader {
    type V = TbfHeaderView;

    open spec fn view(&self) -> TbfHeaderView {
        TbfHeaderView {
            plan: self.plan,
            protected_size: self.protected_size,
            init_fn_offset: self.init_fn_offset,
            writeable_flash_regions: self.writeable_flash_regions@,
            binary_end_offset: self.binary_end_offset,
            total_size: self.total_size,
        }
    }
}

/// What the header of a TBF has to say.
pub open spec fn header_of(
    plan: Plan,
    header_length: usize,
    layout: LayoutView,
    sizes: Sizes,
) -> TbfHeaderView {
    TbfHeaderView {
        plan: plan.header,
        protected_size: if layout.protected > header_length {
            Some((layout.protected - header_length) as u32)
        } else {
            None
        },
        init_fn_offset: layout.init_fn_offset,
        writeable_flash_regions: layout.regions,
        binary_end_offset: low32(sizes.end as int),
        total_size: low32(sizes.total as int),
    }
}

/// What a conversion tells its caller.
#[derive(Debug)]
pub struct Report {
    /// The names of the shared libraries that the object depends on, where they
    /// can be told and it is not a shared library itself.
    pub dependencies: Option<Vec<String>>,
    /// The length of the header.
    pub header_length: usize,
    /// What the header says.
    pub header: TbfHeader,
    /// What the caller should know.
    pub notices: Vec<Notice>,
    /// The places where the address of a function of a shared library has to be
    /// filled in.
    pub relocs: Vec<AppFuncReloc>,
}

/// The names of the shared libraries that an object depends on.
pub open spec fn dependencies_of(object: ElfView, file: Seq<u8>) -> Result<
    Option<Seq<Seq<char>>>,
    ConvertError,
> {
    if object.header.e_type == ET_DYN {
        Ok(None)
    } else {
        library_names(object.dynamic, file)
    }
}

/// What a conversion knows before the length of the header is known.
pub struct Prepared {
    /// The object.
    pub object: ElfView,
    /// The names of the shared libraries that it depends on.
    pub dependencies: Option<Seq<Seq<char>>>,
    /// What the header has to say before the binary is laid out.
    pub plan: Plan,
}

/// What a conversion of an object knows before the length of the header is
/// known, or why there can be no conversion.
pub open spec fn prepared_object(
    object: ElfView,
    file: Seq<u8>,
    options: &ConvertOptions,
) -> Result<Prepared, ConvertError> {
    match dependencies_of(object, file) {
        Err(e) => Err(e),
        Ok(dependencies) => match plan_of(object, options) {
            Err(e) => Err(e),
            Ok(plan) => Ok(Prepared { object, dependencies, plan }),
        },
    }
}

/// What a conversion of a file knows before the length of the header is known,
/// or why there can be no conversion.
pub open spec fn prepared(file: Seq<u8>, options: &ConvertOptions) -> Result<
    Prepared,
    ConvertError,
> {
    match elf_object(file) {
        Err(e) => Err(e),
        Ok(object) => prepared_object(object, file, options),
    }
}

/// What a conversion knows before the header is encoded.
pub struct LaidOut {
    /// The layout.
    pub layout: LayoutView,
    /// The sizes.
    pub sizes: Sizes,
    /// What the header has to say.
    pub header: TbfHeaderView,
}

/// What a conversion knows before the header is encoded, or why there can be no
/// conversion.
pub open spec fn laid_out(
    known: Prepared,
    file: Seq<u8>,
    options: &ConvertOptions,
    header_length: usize,
) -> Result<LaidOut, ConvertError> {
    match layout_of(known.object, file, options, known.plan, header_length) {
        Err(e) => Err(e),
        Ok(layout) => match sizes_of(layout, options, known.object.header.e_machine) {
            Err(e) => Err(e),
            Ok(sizes) => Ok(
                LaidOut {
                    layout,
                    sizes,
                    header: header_of(known.plan, header_length, layout, sizes),
                },
            ),
        },
    }
}

/// What a conversion gives.
pub struct Finished {
    /// All of the output, with what was there before.
    pub output: Seq<u8>,
    /// The places to fill in.
    pub relocs: Seq<AppFuncRelocView>,
    /// The relocation information that is added.
    pub text: Seq<char>,
}

/// What a conversion gives, or why there can be no conversion.
pub open spec fn finished(
    known: Prepared,
    laid: LaidOut,
    file: Seq<u8>,
    options: &ConvertOptions,
    libraries: Seq<SharedLibraryView>,
    before: Seq<u8>,
    header: Seq<u8>,
) -> Result<Finished, ConvertError> {
    match tbf_after(before, header, laid.layout, laid.sizes, options) {
        Err(e) => Err(e),
        Ok(output) => match laid.layout.got {
            None => Err(ConvertError::NoGlobalOffsetTable),
            Some(got) => match fn_relocs(known.object, file, got) {
                Err(e) => Err(e),
                Ok(relocs) => match relocation_text(libraries, relocs, options.package_name@) {
                    Err(e) => Err(e),
                    Ok(text) => Ok(Finished { output, relocs, text }),
                },
            },
        },
    }
}

/// Whether a conversion that succeeds gives what it has to give, where
/// `header_length` and `generate` decide how the header is encoded.
pub open spec fn succeeds_with<L: Fn(&HeaderPlan) -> usize, G: Fn(&TbfHeader) -> Vec<u8>>(
    start: Result<Prepared, ConvertError>,
    file: Seq<u8>,
    options: &ConvertOptions,
    libraries: Seq<SharedLibraryView>,
    header_length: L,
    generate: G,
    before: (Seq<u8>, Seq<char>),
    after: (Seq<u8>, Seq<char>),
    report: Report,
) -> bool {
    &&& start matches Ok(known)
    &&& optional_texts(report.dependencies) == known.dependencies
    &&& call_ensures(header_length, (&known.plan.header,), report.header_length)
    &&& laid_out(known, file, options, report.header_length) matches Ok(laid)
    &&& report.header@ == laid.header
    &&& report.notices@ == laid.layout.notices
    &&& exists|header: Vec<u8>|
        {
            &&& #[trigger] call_ensures(generate, (&report.header,), header)
            &&& finished(known, laid, file, options, libraries, before.0, header@) == Ok::<
                Finished,
                ConvertError,
            >(
                Finished {
                    output: after.0,
                    relocs: reloc_views(report.relocs@),
                    text: after.1.skip(before.1.len() as int),
                },
            )
            &&& header@.len() == report.header_length && laid.sizes.total <= u32::MAX
                ==> after.0.len() == before.0.len() + laid.sizes.total
            &&& credentials_fit_formats(
                options,
                covered_part(before.0, header@, laid.layout, laid.sizes),
            )
        }
    &&& before.1.is_prefix_of(after.1)
}

/// Whether a conversion has to fail for a reason, where `header_length` and
/// `generate` decide how the header is encoded.
pub open spec fn fails_with<L: Fn(&HeaderPlan) -> usize, G: Fn(&TbfHeader) -> Vec<u8>>(
    start: Result<Prepared, ConvertError>,
    file: Seq<u8>,
    options: &ConvertOptions,
    libraries: Seq<SharedLibraryView>,
    header_length: L,
    generate: G,
    before: Seq<u8>,
    error: ConvertError,
) -> bool {
    match start {
        Err(early) => error == early,
        Ok(known) => exists|length: usize|
            {
                &&& #[trigger] call_ensures(header_length, (&known.plan.header,), length)
                &&& match laid_out(known, file, options, length) {
                    Err(middle) => error == middle,
                    Ok(laid) => exists|made: TbfHeader, header: Vec<u8>|
                        {
                            &&& made@ == laid.header
                            &&& #[trigger] call_ensures(generate, (&made,), header)
                            &&& finished(known, laid, file, options, libraries, before, header@)
                                == Err::<Finished, ConvertError>(error)
                        },
                }
            },
    }
}

/// The footer has room for the credentials that the sizes account for.
pub proof fn sizes_have_room(layout: LayoutView, options: &ConvertOptions, machine: u16)
    requires
        sizes_of(layout, options, machine) is Ok,
        layout.end >= 0,
    ensures
        room_after_credentials(sizes_of(layout, options, machine)->Ok_0) >= 0,
{
    let end = layout.end + 4 + layout.relocation_data.len();
    let reserved = footer_reserve(
        options.minimum_footer_size,
        end + credentials_length(options) - low32(end),
    );
    padding_is_not_negative(machine, end + credentials_length(options) + reserved);
    reserve_is_not_negative(
        options.minimum_footer_size,
        end + credentials_length(options) - low32(end),
    );
}

/// Makes the header of a TBF.
pub fn make_header(plan: &Plan, header_length: usize, layout: &Layout, sizes: &Sizes) -> (header:
    TbfHeader)
    ensures
        header@ == header_of(*plan, header_length, layout@, *sizes),
{
    let protected_size: Option<u32> = if layout.protected as u64 > header_length as u64 {
        Some(layout.protected - header_length as u32)
    } else {
        None
    };
    let mut regions: Vec<(u32, u32)> = Vec::new();
    let count: usize = layout.regions.len();
    let mut i: usize = 0;
    while i < count
        invariant
            count == layout.regions@.len(),
            i <= count,
            regions@ =~= layout.regions@.take(i as int),
        decreases count - i,
    {
        regions.push(layout.regions[i]);
        i += 1;
    }
    assert(layout.regions@.take(count as int) =~= layout.regions@);
    TbfHeader {
        plan: plan.header,
        protected_size,
        init_fn_offset: layout.init_fn_offset,
        writeable_flash_regions: regions,
        binary_end_offset: low32_of(sizes.end as u64),
        total_size: low32_of(sizes.total as u64),
    }
}

/// Converts an object to a TBF (Tock Binary Format) binary. The file is the one
/// that the object was read from.
///
/// The encoding of the header is up to the caller: `header_length` tells how
/// long it will be, and `generate` encodes it.
#[verifier::rlimit(40)]
pub fn convert_object<L: Fn(&HeaderPlan) -> usize, G: Fn(&TbfHeader) -> Vec<u8>>(
    object: &ElfObject,
    file: &[u8],
    options: &ConvertOptions,
    libraries: &Vec<SharedLibrary>,
    header_length: L,
    generate: G,
    output: &mut Vec<u8>,
    output_relocation: &mut String,
) -> (report: Result<Report, ConvertError>)
    requires
        forall|plan: &HeaderPlan| #[trigger] call_requires(header_length, (plan,)),
        forall|header: &TbfHeader| #[trigger] call_requires(generate, (header,)),
    ensures
        match report {
            Ok(r) => succeeds_with(
                prepared_object(object@, file@, options),
                file@,
                options,
                library_views(libraries@),
                header_length,
                generate,
                (old(output)@, old(output_relocation)@),
                (final(output)@, final(output_relocation)@),
                r,
            ),
            Err(e) => {
                &&& final(output)@ == old(output)@
                &&& final(output_relocation)@ == old(output_relocation)@
                &&& fails_with(
                    prepared_object(object@, file@, options),
                    file@,
                    options,
                    library_views(libraries@),
                    header_length,
                    generate,
                    old(output)@,
                    e,
                )
            },
        },
{
    let dependencies: Option<Vec<String>> = if object.header.e_type == ET_DYN {
        None
    } else {
        match get_shared_library_deps(&object.dynamic, file) {
            Ok(names) => names,
            Err(e) => { return Err(e); },
        }
    };
    let plan: Plan = match make_plan(object, options) {
        Ok(plan) => plan,
        Err(e) => { return Err(e); },
    };
    let length: usize = header_length(&plan.header);
    let layout: Layout = match lay_out(object, file, options, &plan, length) {
        Ok(layout) => layout,
        Err(e) => { return Err(e); },
    };
    let sizes: Sizes = match compute_sizes(&layout, options, object.header.e_machine) {
        Ok(sizes) => sizes,
        Err(e) => { return Err(e); },
    };
    let made: TbfHeader = make_header(&plan, length, &layout, &sizes);
    let header: Vec<u8> = generate(&made);
    let ghost known = prepared_object(object@, file@, options)->Ok_0;
    let ghost laid = laid_out(known, file@, options, length)->Ok_0;
    proof {
        sizes_have_room(layout@, options, object.header.e_machine);
        assert(call_ensures(header_length, (&known.plan.header,), length));
        assert(call_ensures(generate, (&made,), header));
        if header@.len() == length && sizes.total <= u32::MAX {
            body_ends_at_footer(
                object@,
                file@,
                options,
                plan,
                output@,
                header@,
                object.header.e_machine,
            );
            parts_add_up(layout@, options, object.header.e_machine);
        }
    }
    let mut all: Vec<u8> = Vec::new();
    append_bytes(&mut all, output.as_slice());
    assert(all@ =~= output@);
    match write_tbf(&header, &layout, &sizes, options, &mut all) {
        Ok(_) => {},
        Err(e) => { return Err(e); },
    }
    let got: usize = match layout.got {
        Some(got) => got,
        None => { return Err(ConvertError::NoGlobalOffsetTable); },
    };
    let relocs: Vec<AppFuncReloc> = match get_fn_relocs(object, file, got) {
        Ok(relocs) => relocs,
        Err(e) => { return Err(e); },
    };
    match output_relocation_file(libraries, &relocs, &options.package_name, output_relocation) {
        Ok(_) => {},
        Err(e) => { return Err(e); },
    }
    proof {
        let text = relocation_text(
            library_views(libraries@),
            reloc_views(relocs@),
            options.package_name@,
        )->Ok_0;
        assert(output_relocation@.skip(old(output_relocation)@.len() as int) =~= text);
    }
    *output = all;
    Ok(
        Report {
            dependencies,
            header_length: length,
            header: made,
            notices: layout.notices,
            relocs,
        },
    )
}

/// Converts an ELF file to a TBF (Tock Binary Format) binary.
///
/// All segments of the file are placed into a binary, after a TBF header. For
/// all writable sections in these segments, if there is a `.rel.X` section, it
/// is put at the end, after its 32-bit length.
///
/// - Segments that are writable and set to be loaded into flash but with a
///   different virtual address are in RAM and count towards the minimum
///   required RAM.
/// - Sections that are writeable flash regions have `.wfr` in their name.
///
/// The encoding of the header is up to the caller: `header_length` tells how
/// long it will be, and `generate` encodes it.
pub fn elf_to_tbf<L: Fn(&HeaderPlan) -> usize, G: Fn(&TbfHeader) -> Vec<u8>>(
    file: &[u8],
    options: &ConvertOptions,
    libraries: &Vec<SharedLibrary>,
    header_length: L,
    generate: G,
    output: &mut Vec<u8>,
    output_relocation: &mut String,
) -> (report: Result<Report, ConvertError>)
    requires
        forall|plan: &HeaderPlan| #[trigger] call_requires(header_length, (plan,)),
        forall|header: &TbfHeader| #[trigger] call_requires(generate, (header,)),
    ensures
        match report {
            Ok(r) => succeeds_with(
                prepared(file@, options),
                file@,
                options,
                library_views(libraries@),
                header_length,
                generate,
                (old(output)@, old(output_relocation)@),
                (final(output)@, final(output_relocation)@),
                r,
            ),
            Err(e) => {
                &&& final(output)@ == old(output)@
                &&& final(output_relocation)@ == old(output_relocation)@
                &&& fails_with(
                    prepared(file@, options),
                    file@,
                    options,
                    library_views(libraries@),
                    header_length,
                    generate,
                    old(output)@,
                    e,
                )
            },
        },
{
    let object: ElfObject = match ElfObject::parse(file) {
        Ok(object) => object,
        Err(e) => { return Err(e); },
    };
    convert_object(
        &object,
        file,
        options,
        libraries,
        header_length,
        generate,
        output,
        output_relocation,
    )
}

} // verus!
