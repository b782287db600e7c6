//! What a whole conversion gives, and what it fails for.
use crate::convert::{
    dependencies_of, fails_with, finished, header_of, laid_out, prepared, prepared_object,
    succeeds_with, Finished, Prepared, Report, TbfHeader,
};
use crate::error::ConvertError;
use crate::footer::{sizes_of, tbf_after, Sizes};
use crate::layout::{layout_of, Layout, LayoutView};
use crate::object::{elf_object, ElfView, SharedLibraryView};
use crate::plan::{plan_of, ConvertOptions, HeaderPlan, Plan};
use crate::relocs::{
    fn_relocs, reloc_views, relocation_text, AppFuncReloc, AppFuncRelocView, ShLibFnReloc,
};
use crate::symbols::optional_texts;
use vstd::prelude::*;

verus! {

/// The header says what was planned, how much of the protected region is after it, if
/// any is, where the entry point and the writeable flash regions are, where the
/// footer starts, and how large the TBF is.
pub proof fn header_says_what_is_there(
    plan: Plan,
    header_length: usize,
    layout: LayoutView,
    sizes: Sizes,
)
    ensures
        ({
            let header = header_of(plan, header_length, layout, sizes);
            &&& header.plan == plan.header
            &&& layout.protected > header_length ==> header.protected_size == Some(
                (layout.protected - header_length) as u32,
            )
            &&& layout.protected <= header_length ==> header.protected_size is None
            &&& header.init_fn_offset == layout.init_fn_offset
            &&& header.writeable_flash_regions == layout.regions
            &&& header.binary_end_offset == sizes.end as int % 0x1_0000_0000
            &&& header.total_size == sizes.total as int % 0x1_0000_0000
        }),
{
}

/// A conversion of an object that succeeds plans for the object, lays it out for the
/// header of the length that the caller gives, sizes it for the machine of the
/// object, and encodes the header that says so. The output is that TBF after what was
/// there, and the relocation information is that for the global offset table where
/// it is laid out.
pub proof fn conversion_goes_through_stages<
    L: Fn(&HeaderPlan) -> usize,
    G: Fn(&TbfHeader) -> Vec<u8>,
>(
    object: ElfView,
    file: Seq<u8>,
    options: &ConvertOptions,
    libraries: Seq<SharedLibraryView>,
    header_length: L,
    generate: G,
    before: (Seq<u8>, Seq<char>),
    after: (Seq<u8>, Seq<char>),
    report: Report,
)
    requires
        succeeds_with(
            prepared_object(object, file, options),
            file,
            options,
            libraries,
            header_length,
            generate,
            before,
            after,
            report,
        ),
    ensures
        dependencies_of(object, file) == Ok::<
            Option<Seq<Seq<char>>>,
            ConvertError,
        >(optional_texts(report.dependencies)),
        exists|plan: Plan, layout: LayoutView, sizes: Sizes, header: Vec<u8>|
            {
                &&& plan_of(object, options) == Ok::<Plan, ConvertError>(plan)
                &&& call_ensures(header_length, (&plan.header,), report.header_length)
                &&& layout_of(object, file, options, plan, report.header_length) == Ok::<
                    LayoutView,
                    ConvertError,
                >(layout)
                &&& sizes_of(layout, options, object.header.e_machine) == Ok::<
                    Sizes,
                    ConvertError,
                >(sizes)
                &&& report.header@ == #[trigger] header_of(
                    plan,
                    report.header_length,
                    layout,
                    sizes,
                )
                &&& report.notices@ == layout.notices
                &&& #[trigger] call_ensures(generate, (&report.header,), header)
                &&& tbf_after(before.0, header@, layout, sizes, options) == Ok::<
                    Seq<u8>,
                    ConvertError,
                >(after.0)
                &&& layout.got is Some
                &&& fn_relocs(object, file, layout.got->0) == Ok::<
                    Seq<AppFuncRelocView>,
                    ConvertError,
                >(reloc_views(report.relocs@))
                &&& relocation_text(
                    libraries,
                    reloc_views(report.relocs@),
                    options.package_name@,
                ) matches Ok(text) && after.1 == before.1 + text
            },
{
    let known = prepared_object(object, file, options)->Ok_0;
    let laid = laid_out(known, file, options, report.header_length)->Ok_0;
    let header = choose|header: Vec<u8>|
        {
            &&& #[trigger] call_ensures(generate, (&report.header,), header)
            &&& finished(known, laid, file, options, libraries, before.0, header@) == Ok::<
                Finished,
                ConvertError,
            >(
                Finished {
                    output: after.0,
                    relocs: reloc_views(report.relocs@),
                    text: after.1.skip(before.1.len() as int),
                },
            )
        };
    let text = after.1.skip(before.1.len() as int);
    assert(after.1 =~= before.1 + text);
    assert(report.header@ == header_of(
        known.plan,
        report.header_length,
        laid.layout,
        laid.sizes,
    ));
    assert(call_ensures(generate, (&report.header,), header));
}

/// A conversion of a file is that of the object that the file holds.
pub proof fn file_is_converted_as_object(file: Seq<u8>, options: &ConvertOptions)
    ensures
        elf_object(file) matches Ok(object) ==> prepared(file, options) == prepared_object(
            object,
            file,
            options,
        ),
        elf_object(file) matches Err(e) ==> prepared(file, options) == Err::<
            Prepared,
            ConvertError,
        >(e),
{
}

/// A conversion of an object fails only because one of its stages does, or because
/// there is no global offset table. The error is that of the first of them.
pub proof fn conversion_fails_at_stage<
    L: Fn(&HeaderPlan) -> usize,
    G: Fn(&TbfHeader) -> Vec<u8>,
>(
    object: ElfView,
    file: Seq<u8>,
    options: &ConvertOptions,
    libraries: Seq<SharedLibraryView>,
    header_length: L,
    generate: G,
    before: Seq<u8>,
    error: ConvertError,
)
    requires
        fails_with(
            prepared_object(object, file, options),
            file,
            options,
            libraries,
            header_length,
            generate,
            before,
            error,
        ),
    ensures
        ({
            let dependencies = dependencies_of(object, file);
            let planned = plan_of(object, options);
            let plan = planned->Ok_0;
            ||| dependencies == Err::<Option<Seq<Seq<char>>>, ConvertError>(error)
            ||| dependencies is Ok && planned == Err::<Plan, ConvertError>(error)
            ||| dependencies is Ok && planned is Ok && exists|length: usize|
                {
                    let layout = layout_of(object, file, options, plan, length);
                    let sizes = sizes_of(layout->Ok_0, options, object.header.e_machine);
                    &&& #[trigger] call_ensures(header_length, (&plan.header,), length)
                    &&& {
                        ||| layout == Err::<LayoutView, ConvertError>(error)
                        ||| layout is Ok && sizes == Err::<Sizes, ConvertError>(error)
                        ||| layout is Ok && sizes is Ok && exists|made: TbfHeader, header: Vec<u8>|
                            {
                                let output = tbf_after(
                                    before,
                                    header@,
                                    layout->Ok_0,
                                    sizes->Ok_0,
                                    options,
                                );
                                let got = layout->Ok_0.got;
                                let relocs = fn_relocs(object, file, got->0);
                                &&& made@ == header_of(plan, length, layout->Ok_0, sizes->Ok_0)
                                &&& #[trigger] call_ensures(generate, (&made,), header)
                                &&& {
                                    ||| output == Err::<Seq<u8>, ConvertError>(error)
                                    ||| output is Ok && got is None && error
                                        == ConvertError::NoGlobalOffsetTable
                                    ||| output is Ok && got is Some && relocs == Err::<
                                        Seq<AppFuncRelocView>,
                                        ConvertError,
                                    >(error)
                                    ||| output is Ok && got is Some && relocs is Ok
                                        && relocation_text(
                                        libraries,
                                        relocs->Ok_0,
                                        options.package_name@,
                                    ) == Err::<Seq<char>, ConvertError>(error)
                                }
                            }
                    }
                }
        }),
{
    if let Ok(known) = prepared_object(object, file, options) {
        let length = choose|length: usize|
            {
                &&& #[trigger] call_ensures(header_length, (&known.plan.header,), length)
                &&& match laid_out(known, file, options, length) {
                    Err(middle) => error == middle,
                    Ok(laid) => exists|made: TbfHeader, header: Vec<u8>|
                        {
                            &&& made@ == laid.header
                            &&& #[trigger] call_ensures(generate, (&made,), header)
                            &&& finished(known, laid, file, options, libraries, before, header@)
                                == Err::<Finished, ConvertError>(error)
                        },
                }
            };
        assert(call_ensures(header_length, (&known.plan.header,), length));
        if let Ok(laid) = laid_out(known, file, options, length) {
            let (made, header) = choose|made: TbfHeader, header: Vec<u8>|
                {
                    &&& made@ == laid.header
                    &&& #[trigger] call_ensures(generate, (&made,), header)
                    &&& finished(known, laid, file, options, libraries, before, header@) == Err::<
                        Finished,
                        ConvertError,
                    >(error)
                };
            assert(call_ensures(generate, (&made,), header));
        }
    }
}

/// What a header, a layout and a place to fill in stand for is what they hold.
pub proof fn results_stand_for_fields(
    header: TbfHeader,
    layout: Layout,
    relocs: Seq<AppFuncReloc>,
    provider: ShLibFnReloc,
    names: Vec<String>,
    i: int,
)
    ensures
        header@.plan == header.plan,
        header@.protected_size == header.protected_size,
        header@.init_fn_offset == header.init_fn_offset,
        header@.writeable_flash_regions == header.writeable_flash_regions@,
        header@.binary_end_offset == header.binary_end_offset,
        header@.total_size == header.total_size,
        layout@.protected == layout.protected,
        layout@.binary == layout.binary@,
        layout@.segments == layout.segments@,
        layout@.positions.len() == layout.positions@.len(),
        0 <= i < layout.positions@.len() ==> layout@.positions[i] == layout.positions@[i],
        layout@.end == layout.end,
        layout@.init_fn_offset == layout.init_fn_offset,
        layout@.regions == layout.regions@,
        layout@.relocation_data == layout.relocation_data@,
        layout@.got is Some <==> layout.got is Some,
        layout.got is Some ==> layout@.got->0 == layout.got->0,
        layout@.notices == layout.notices@,
        reloc_views(relocs).len() == relocs.len(),
        0 <= i < relocs.len() ==> reloc_views(relocs)[i].fn_name == relocs[i].fn_name@
            && reloc_views(relocs)[i].app_got_addr == relocs[i].app_got_addr,
        provider@.lib_name == provider.lib_name@,
        provider@.lib_fn_offset == provider.lib_fn_offset,
        optional_texts(None) is None,
        optional_texts(Some(names)) matches Some(list) && list.len() == names@.len() && (0 <= i
            < names@.len() ==> list[i] == names@[i]@),
{
}

} // verus!
