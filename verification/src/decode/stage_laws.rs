//! What decoding makes of headers and coefficients, stage by stage.

use crate::codestream::ParsedModel;
use crate::cpu::CpuCapabilities;
use crate::decode::alpha;
use crate::decode::arena::{ArenaModel, CoefficientPlane, PredictionMode};
use crate::decode::output;
use crate::decode::placement;
use crate::decode::policy;
use crate::decode::reconstruction;
use crate::decode::reconstruction::ReconstructionRules;
use crate::decode::route;
use crate::decode::route::DecodeRules;
use crate::decode::unpack;
use crate::decode::unpack::{HighPassDirection, HighPassKernel};
use crate::decode::window;
use crate::decode::window::WindowModel;
use crate::header::types::{HeaderFlags, ImageModel, PlaneModel};
use crate::metadata;
use crate::metadata::{InfoModel, PlaneInfo, Profile, SampleFormat};
use crate::output_format::channel_laws;
use crate::output_format::planar;
use crate::output_format::request::{OutputBitDepth, OutputFormatRequest, PlaneView};
use crate::plan::{DecodeRequest, PlanLimit, PlanModel};
use crate::prepare;
use crate::reconstruct::chroma;
use crate::reconstruct::chroma::ChromaReconstructionConfig;
use crate::reconstruct::contract::{
    ConfigModel, PlaneSamples, QuantizedMacroblock, ReconstructionError,
};
use crate::reconstruct::macroblock_laws;
use crate::reconstruct::pipeline;
use crate::types::{
    AlphaHandling, AlphaMode, BandPresence, BitstreamMode, ChromaSampling, ColorFormat, DecodeScale,
    JxrError, Orientation, OverlapMode,
};
use vstd::prelude::*;

verus! {

/// The number of overlap stages.
pub open spec fn stage_count(overlap: OverlapMode) -> int {
    match overlap {
        OverlapMode::Off => 0,
        OverlapMode::One => 1,
        OverlapMode::Two => 2,
    }
}

/// The number of bands that are missing, flexbits first.
pub open spec fn missing_bands(bands: BandPresence) -> int {
    match bands {
        BandPresence::All => 0,
        BandPresence::NoFlexbits => 1,
        BandPresence::NoHighPass => 2,
        BandPresence::DcOnly => 3,
    }
}

/// The code of an internal colour format.
pub open spec fn internal_code(color: ColorFormat) -> int {
    match color {
        ColorFormat::Luma => 0,
        ColorFormat::Yuv(ChromaSampling::Cs420) => 1,
        ColorFormat::Yuv(ChromaSampling::Cs422) => 2,
        ColorFormat::Yuv(ChromaSampling::Cs444) => 3,
        ColorFormat::YuvK => 4,
        _ => 6,
    }
}

/// Whether a sample format is the one of an output bit depth code.
pub open spec fn samples_described(format: SampleFormat, code: int) -> bool {
    match format {
        SampleFormat::Bit1 => code == 0 || code == 15,
        SampleFormat::Unsigned { bits } => {
            ||| code == 1 && bits == 8
            ||| code == 2 && bits == 16
            ||| code == 8 && bits == 5
            ||| code == 9 && bits == 10
            ||| code == 10 && bits == 6
        },
        SampleFormat::Signed { bits } => (code == 3 && bits == 16) || (code == 6 && bits == 32),
        SampleFormat::Float16 => code == 4,
        SampleFormat::Float32 => code == 7,
    }
}

/// Whether a description of a plane says what its headers say.
pub open spec fn plane_described(image: ImageModel, plane: PlaneModel, info: PlaneInfo) -> bool {
    &&& stage_count(info.overlap) == image.overlap_mode
    &&& missing_bands(info.bands) == plane.bands_present
    &&& samples_described(info.sample_format, image.output_bit_depth as int)
    &&& internal_code(info.color_format) == plane.internal_color_format
    &&& info.color_format matches ColorFormat::NComponent(count) ==> count == plane.components
    &&& info.scaled == plane.scaled
    &&& info.chroma_centering[0] == plane.chroma_centering_x
    &&& info.chroma_centering[1] == plane.chroma_centering_y
    &&& info.shift_bits == plane.shift_bits
    &&& info.mantissa_length == plane.mantissa_length
    &&& info.exponent_bias == plane.exponent_bias
    &&& info.width == image.width
    &&& info.height == image.height
    &&& forall|frequency: bool|
        call_ensures(HeaderFlags::frequency_mode, (image.flags,), frequency) ==> (
        info.bitstream_mode == BitstreamMode::Frequency <==> frequency)
    &&& forall|short: bool|
        call_ensures(HeaderFlags::short_header, (image.flags,), short) ==> info.short_header
            == short
    &&& forall|long: bool|
        call_ensures(HeaderFlags::long_word, (image.flags,), long) ==> info.long_word == long
}

/// Whether tile sizes are the explicit ones, with a last one that fills what is left.
pub open spec fn sizes_filled(sizes: Seq<u32>, explicit: Seq<u16>, total: int) -> bool {
    &&& sizes.len() == explicit.len() + 1
    &&& forall|index: int|
        0 <= index < explicit.len() ==> #[trigger] sizes[index] == explicit[index]
    &&& metadata::size_sum(sizes) == total
}

/// Whether a description of an image says what its headers say.
pub open spec fn image_described(parsed: ParsedModel, info: InfoModel) -> bool {
    let image = parsed.headers.image;
    &&& info.width == image.width
    &&& info.height == image.height
    &&& plane_described(image, parsed.headers.primary, info.primary)
    &&& 16 * metadata::size_sum(info.tiles.column_widths) == image.margins[1] + image.width
        + image.margins[3]
    &&& 16 * metadata::size_sum(info.tiles.row_heights) == image.margins[0] + image.height
        + image.margins[2]
    &&& sizes_filled(
        info.tiles.column_widths,
        image.tile_widths_mb,
        metadata::size_sum(info.tiles.column_widths) as int,
    )
    &&& sizes_filled(
        info.tiles.row_heights,
        image.tile_heights_mb,
        metadata::size_sum(info.tiles.row_heights) as int,
    )
    &&& forall|hard: bool|
        call_ensures(HeaderFlags::hard_tiling, (image.flags,), hard) ==> info.tiles.hard_tiles
            == hard
    &&& match (parsed.separate_alpha_headers, parsed.headers.alpha) {
        (Some(headers), _) => {
            &&& info.alpha_mode == AlphaMode::Separate
            &&& info.alpha is Some
            &&& plane_described(
                headers.image,
                match headers.alpha {
                    Some(alpha) => alpha,
                    None => headers.primary,
                },
                info.alpha->0,
            )
        },
        (None, Some(alpha)) => {
            &&& info.alpha_mode == AlphaMode::Integrated
            &&& info.alpha is Some
            &&& plane_described(image, alpha, info.alpha->0)
        },
        (None, None) => info.alpha_mode == AlphaMode::Absent && info.alpha is None,
    }
}

/// A description says what the headers say: the overlap stages, bands, colour format, scaling and
/// sizes of each plane, its margins and tiles, and where alpha is coded.
pub proof fn lemma_description_follows_headers(parsed: ParsedModel)
    ensures
        metadata::described(parsed) matches Ok(info) ==> image_described(parsed, info),
{
    if let Ok(info) = metadata::described(parsed) {
        let image = parsed.headers.image;
        let width = metadata::extended(image.width, image.margins[1], image.margins[3])->Ok_0 / 16;
        let height = metadata::extended(image.height, image.margins[0], image.margins[2])->Ok_0
            / 16;
        metadata::lemma_tiles_fill(image.tile_widths_mb, width, "tile columns");
        metadata::lemma_tiles_fill(image.tile_heights_mb, height, "tile rows");
        if let Some(headers) = parsed.separate_alpha_headers {
            assert(metadata::plane_of(
                headers.image,
                match headers.alpha {
                    Some(alpha) => alpha,
                    None => headers.primary,
                },
            ) is Ok);
        }
    }
}

/// The code of an orientation.
pub open spec fn orientation_code(orientation: Orientation) -> int {
    match orientation {
        Orientation::Identity => 0,
        Orientation::MirrorVertical => 1,
        Orientation::MirrorHorizontal => 2,
        Orientation::Rotate180 => 3,
        Orientation::Rotate90 => 4,
        Orientation::Transverse => 5,
        Orientation::Transpose => 6,
        Orientation::Rotate270 => 7,
    }
}

/// The identifier of a profile.
pub open spec fn profile_code(profile: Profile) -> int {
    match profile {
        Profile::SubBaseline => 44,
        Profile::Baseline => 55,
        Profile::Main => 66,
        Profile::Advanced => 111,
        Profile::Unknown(code) => code as int,
    }
}

/// A description has the orientation, colour profile and identifier of the container, as far as it
/// gives them, the orientation of the codestream where it does not, the first profile and level
/// that are declared, and the highest ones where none is.
pub proof fn lemma_description_follows_container(parsed: ParsedModel)
    ensures
        metadata::described(parsed) matches Ok(info) ==> {
            let given = match parsed.annex_a {
                Some(annex) => annex.metadata.transformation,
                None => None,
            };
            &&& orientation_code(info.metadata.orientation) == (match given {
                Some(code) => code as int,
                None => parsed.headers.image.orientation as int,
            })
            &&& info.metadata.icc_profile is Some <==> parsed.annex_a is Some
                && parsed.annex_a->0.metadata.icc_profile_range is Some
            &&& info.metadata.icc_profile matches Some(profile) ==> {
                let range = parsed.annex_a->0.metadata.icc_profile_range->0;
                &&& profile.offset == range.start
                &&& range.start <= range.end ==> profile.offset + profile.length == range.end
            }
            &&& info.metadata.container_pixel_format == (match parsed.annex_a {
                Some(annex) => Some(annex.pixel_format_guid),
                None => None,
            })
            &&& info.profile matches Some(profile) && profile_code(profile) == (
            if parsed.directory.profiles.len() > 0 {
                parsed.directory.profiles[0].profile_idc as int
            } else {
                111
            })
            &&& info.level matches Some(level) && level.0 == (
            if parsed.directory.profiles.len() > 0 {
                parsed.directory.profiles[0].level_idc as int
            } else {
                255
            })
            &&& parsed.separate_alpha_headers is None ==> forall|multiplied: bool|
                call_ensures(
                    HeaderFlags::premultiplied_alpha,
                    (parsed.headers.image.flags,),
                    multiplied,
                ) ==> info.premultiplied_alpha == multiplied
        },
{
}

/// Whether a plan is one for its headers and its request.
pub open spec fn plan_made(parsed: ParsedModel, request: DecodeRequest, plan: PlanModel) -> bool {
    let image = parsed.headers.image;
    &&& image_described(parsed, plan.info)
    &&& stage_count(plan.primary.overlap) == image.overlap_mode
    &&& plan.alpha matches Some(alpha) ==> stage_count(alpha.overlap) == image.overlap_mode
    &&& plan.primary.width == image.width
    &&& plan.primary.height == image.height
    &&& 16 * plan.primary.macroblocks_x == image.margins[1] + image.width + image.margins[3]
    &&& 16 * plan.primary.macroblocks_y == image.margins[0] + image.height + image.margins[2]
    &&& plan.scale == request.scale
    &&& match request.region {
        Some(region) => plan.output_region == region,
        None => {
            &&& plan.output_region.x == 0 && plan.output_region.y == 0
            &&& plan.output_region.w == image.width && plan.output_region.h == image.height
        },
    }
}

/// A plan follows the headers of its input and its request; in particular it has as many overlap
/// stages as the image header says.
pub proof fn lemma_plan_follows_headers(
    input_len: usize,
    parsed: ParsedModel,
    request: DecodeRequest,
    rule: spec_fn(InfoModel) -> bool,
    limits: spec_fn(PlanLimit) -> Result<(), JxrError>,
)
    ensures
        prepare::plan_of(input_len, parsed, request, rule, limits) matches Ok(plan) ==> plan_made(
            parsed,
            request,
            plan,
        ),
{
    lemma_description_follows_headers(parsed);
}

/// Whether a configuration is the one of a component of a plan: it has the overlap stages of the
/// plan, the blocks of the component, and the place, size and tiles of the window.
pub open spec fn configured(
    config: ConfigModel,
    plane: CoefficientPlane,
    doubled: bool,
    plan: PlanModel,
    window: WindowModel,
) -> bool {
    &&& stage_count(config.overlap) == stage_count(plan.primary.overlap)
    &&& config.block_columns == plane.block_columns
    &&& config.block_rows == plane.block_rows
    &&& config.scale_after_first_transform == doubled
    &&& config.macroblock_origin_x == window.origin_x
    &&& config.macroblock_origin_y == window.origin_y
    &&& config.macroblocks_x == window.width
    &&& config.macroblocks_y == window.height
    &&& config.tiles == window.tiles
}

/// A component is what reconstruction makes of its macroblocks with the overlap stages of the plan,
/// at the resolution of the plan.
pub proof fn lemma_component_is_reconstructed(
    arena: ArenaModel,
    plane: CoefficientPlane,
    doubled: bool,
    plan: PlanModel,
    window: WindowModel,
    rules: ReconstructionRules,
    config: ConfigModel,
)
    requires
        configured(config, plane, doubled, plan, window),
    ensures
        reconstruction::component_of(arena, plane, doubled, plan, window, rules) is Ok <==> {
            let macroblocks = placement::rastered_macroblocks(
                arena,
                plane,
                window,
                rules.prediction,
            );
            &&& macroblocks is Ok
            &&& pipeline::reconstructed(macroblocks->Ok_0, config, plan.scale, rules.kernels) is Ok
        },
        reconstruction::component_of(arena, plane, doubled, plan, window, rules) matches Ok(samples)
            ==> pipeline::reconstructed(
            placement::rastered_macroblocks(arena, plane, window, rules.prediction)->Ok_0,
            config,
            plan.scale,
            rules.kernels,
        ) == Ok::<PlaneSamples, ReconstructionError>(samples),
{
    assert(config.overlap == plan.primary.overlap);
    assert(config == reconstruction::config_for(plane, doubled, plan, window));
}

/// Whether a component of an input was decoded at full resolution in the stages that the headers
/// ask for.
pub open spec fn decoded_in_stages(
    parsed: ParsedModel,
    samples: PlaneSamples,
    macroblocks: Seq<QuantizedMacroblock>,
    plane: CoefficientPlane,
    doubled: bool,
    window: WindowModel,
    rules: ReconstructionRules,
) -> bool {
    forall|config: ConfigModel|
        #![trigger stage_count(config.overlap)]
        {
            &&& stage_count(config.overlap) == parsed.headers.image.overlap_mode
            &&& config.block_columns == plane.block_columns
            &&& config.block_rows == plane.block_rows
            &&& config.scale_after_first_transform == doubled
            &&& config.macroblock_origin_x == window.origin_x
            &&& config.macroblock_origin_y == window.origin_y
            &&& config.macroblocks_x == window.width
            &&& config.macroblocks_y == window.height
            &&& config.tiles == window.tiles
        } ==> macroblock_laws::in_stages(samples.samples, macroblocks, config, rules.kernels)
}

/// The overlap filters that the image header asks for run: with overlap mode zero none, with mode
/// one those between samples, and with mode two those between blocks as well.
pub proof fn lemma_header_overlap_is_filtered(
    input_len: usize,
    parsed: ParsedModel,
    request: DecodeRequest,
    rule: spec_fn(InfoModel) -> bool,
    limits: spec_fn(PlanLimit) -> Result<(), JxrError>,
    plan: PlanModel,
    arena: ArenaModel,
    plane: CoefficientPlane,
    doubled: bool,
    window: WindowModel,
    rules: ReconstructionRules,
)
    requires
        prepare::plan_of(input_len, parsed, request, rule, limits) == Ok::<PlanModel, JxrError>(
            plan,
        ),
        request.scale == DecodeScale::Full,
    ensures
        reconstruction::component_of(arena, plane, doubled, plan, window, rules) matches Ok(samples)
            ==> decoded_in_stages(
            parsed,
            samples,
            placement::rastered_macroblocks(arena, plane, window, rules.prediction)->Ok_0,
            plane,
            doubled,
            window,
            rules,
        ),
{
    lemma_plan_follows_headers(input_len, parsed, request, rule, limits);
    if let Ok(samples) = reconstruction::component_of(
        arena,
        plane,
        doubled,
        plan,
        window,
        rules,
    ) {
        let macroblocks = placement::rastered_macroblocks(
            arena,
            plane,
            window,
            rules.prediction,
        )->Ok_0;
        let own = reconstruction::config_for(plane, doubled, plan, window);
        macroblock_laws::lemma_component_in_stages(macroblocks, own, rules.kernels);
        assert forall|config: ConfigModel|
            #![trigger stage_count(config.overlap)]
            {
                &&& stage_count(config.overlap) == parsed.headers.image.overlap_mode
                &&& config.block_columns == plane.block_columns
                &&& config.block_rows == plane.block_rows
                &&& config.scale_after_first_transform == doubled
                &&& config.macroblock_origin_x == window.origin_x
                &&& config.macroblock_origin_y == window.origin_y
                &&& config.macroblocks_x == window.width
                &&& config.macroblocks_y == window.height
                &&& config.tiles == window.tiles
            } implies macroblock_laws::in_stages(
            samples.samples,
            macroblocks,
            config,
            rules.kernels,
        ) by {
            assert(config.overlap == own.overlap);
            assert(config == own);
        }
    }
}

/// Components come out in the order of their coefficient planes, and only chroma of scaled YUV is
/// doubled after the first transform.
pub proof fn lemma_components_in_order(
    arena: ArenaModel,
    plan: PlanModel,
    window: WindowModel,
    count: nat,
    rules: ReconstructionRules,
    index: int,
)
    requires
        0 <= index < count,
    ensures
        reconstruction::components_of(arena, plan, window, count, rules) matches Ok(components)
            ==> components.len() == count && reconstruction::component_of(
            arena,
            arena.planes[index],
            index >= 1 && plan.info.primary.scaled && plan.info.primary.color_format is Yuv,
            plan,
            window,
            rules,
        ) == Ok::<PlaneSamples, JxrError>(components[index]),
    decreases count,
{
    if index < count - 1 {
        lemma_components_in_order(arena, plan, window, (count - 1) as nat, rules, index);
    } else if count >= 2 {
        lemma_components_in_order(arena, plan, window, (count - 1) as nat, rules, 0);
    } else {
        assert(reconstruction::components_of(arena, plan, window, 0, rules) == Ok::<
            Seq<PlaneSamples>,
            JxrError,
        >(Seq::empty()));
    }
}

proof fn lemma_slot(
    positions: Seq<(usize, usize)>,
    width: int,
    places: int,
    offset: int,
    count: nat,
    index: int,
)
    requires
        placement::placed(positions, width, places, offset, count) is Ok,
        0 <= index < count,
        0 <= offset,
        0 <= width,
        0 <= places,
        offset + count <= usize::MAX,
    ensures
        ({
            let slots = placement::placed(positions, width, places, offset, count)->Ok_0;
            let place = positions[index].1 * width + positions[index].0;
            &&& slots.len() == places
            &&& 0 <= place < places
            &&& slots[place] == offset + index
        }),
    decreases count,
{
    lemma_slot_count(positions, width, places, offset, (count - 1) as nat);
    assert(positions[count - 1].1 * width >= 0) by (nonlinear_arith)
        requires
            width >= 0,
    ;
    if index < count - 1 {
        lemma_slot(positions, width, places, offset, (count - 1) as nat, index);
    }
}

proof fn lemma_slot_count(
    positions: Seq<(usize, usize)>,
    width: int,
    places: int,
    offset: int,
    count: nat,
)
    requires
        placement::placed(positions, width, places, offset, count) is Ok,
        0 <= width,
        0 <= places,
    ensures
        placement::placed(positions, width, places, offset, count)->Ok_0.len() == places,
    decreases count,
{
    if count > 0 {
        assert(positions[count - 1].1 * width >= 0) by (nonlinear_arith)
            requires
                width >= 0,
        ;
        lemma_slot_count(positions, width, places, offset, (count - 1) as nat);
    }
}

proof fn lemma_unpacked_at(
    arena: ArenaModel,
    plane: CoefficientPlane,
    slots: Seq<usize>,
    count: nat,
    rule: spec_fn(HighPassKernel, Seq<i32>) -> Option<Seq<i32>>,
    place: int,
)
    requires
        placement::unpacked_at(arena, plane, slots, count, rule) is Ok,
    ensures
        ({
            let macroblocks = placement::unpacked_at(arena, plane, slots, count, rule)->Ok_0;
            &&& macroblocks.len() == count
            &&& 0 <= place < count ==> unpack::unpacked(
                arena,
                slots[place] as int,
                plane.block_columns,
                plane.block_rows,
                rule,
            ) == Ok::<QuantizedMacroblock, JxrError>(macroblocks[place])
        }),
    decreases count,
{
    if count > 0 {
        lemma_unpacked_at(arena, plane, slots, (count - 1) as nat, rule, place);
    }
}

/// Each coded macroblock of a component comes to the place that it was coded for.
pub proof fn lemma_macroblocks_in_their_places(
    arena: ArenaModel,
    plane: CoefficientPlane,
    plan: PlanModel,
    rule: spec_fn(HighPassKernel, Seq<i32>) -> Option<Seq<i32>>,
    index: int,
)
    requires
        window::window_of(arena, plane, plan) is Ok,
        placement::rastered_macroblocks(
            arena,
            plane,
            window::window_of(arena, plane, plan)->Ok_0,
            rule,
        ) is Ok,
        0 <= index < plane.macroblock_count,
    ensures
        ({
            let window = window::window_of(arena, plane, plan)->Ok_0;
            let macroblocks = placement::rastered_macroblocks(arena, plane, window, rule)->Ok_0;
            let coded = plane.macroblock_offset + index;
            let x = arena.macroblocks.coded_x[coded] - window.origin_x;
            let y = arena.macroblocks.coded_y[coded] - window.origin_y;
            &&& 0 <= x < window.width
            &&& 0 <= y < window.height
            &&& macroblocks.len() == window.width * window.height
            &&& 0 <= y * window.width + x < macroblocks.len()
            &&& unpack::unpacked(arena, coded, plane.block_columns, plane.block_rows, rule) == Ok::<
                QuantizedMacroblock,
                JxrError,
            >(macroblocks[y * window.width + x])
        }),
{
    let window = window::window_of(arena, plane, plan)->Ok_0;
    let places = window.width * window.height;
    let offset = plane.macroblock_offset as int;
    window::lemma_positions_lie_in_window(arena, plane, plan);
    let slots = placement::placed(
        window.positions,
        window.width as int,
        places,
        offset,
        plane.macroblock_count as nat,
    )->Ok_0;
    assert(places >= 0) by (nonlinear_arith)
        requires
            places == window.width * window.height,
    ;
    lemma_slot(
        window.positions,
        window.width as int,
        places,
        offset,
        plane.macroblock_count as nat,
        index,
    );
    window::lemma_positions_are_coded(arena, plane, plan, index);
    let (x, y) = window.positions[index];
    assert(x < window.width && y < window.height);
    let place = y * window.width + x;
    lemma_unpacked_at(arena, plane, slots, places as nat, rule, place);
}

/// Whether all outputs of a prediction are the values of macroblocks.
pub open spec fn gives_macroblocks(
    rule: spec_fn(HighPassKernel, Seq<i32>) -> Option<Seq<i32>>,
) -> bool {
    forall|kernel: HighPassKernel, values: Seq<i32>|
        (#[trigger] rule(kernel, values)) is Some ==> exists|array: [i32; 256]| #[trigger]
            array@ == rule(kernel, values)->0
}

/// Where blocks are predicted from, by a coded prediction.
pub open spec fn predicted_from(mode: PredictionMode, direction: HighPassDirection) -> bool {
    match direction {
        HighPassDirection::Unpredicted => mode == PredictionMode::Unpredicted,
        HighPassDirection::FromLeft => mode == PredictionMode::FromLeft,
        HighPassDirection::FromTop => mode == PredictionMode::FromTop,
    }
}

/// The place of the low-pass coefficient of a block among the coefficients of a macroblock: they
/// are the first ones where there are no high-pass coefficients, and otherwise each begins its
/// block.
pub open spec fn low_place(bands: BandPresence, block: int) -> int {
    match bands {
        BandPresence::DcOnly => 0,
        BandPresence::NoHighPass => block,
        _ => 16 * block,
    }
}

/// The high-pass coefficients of a macroblock before prediction.
pub open spec fn coded_high_pass(arena: ArenaModel, index: int, blocks: int) -> Seq<i32> {
    let offset = arena.macroblocks.coefficient_offsets[index] as int;
    let bands = arena.macroblocks.bands[index];
    Seq::new(
        256,
        |place: int|
            if (bands == BandPresence::All || bands == BandPresence::NoFlexbits) && place < 16
                * blocks && place % 16 != 0 {
                arena.coefficients[offset + place]
            } else {
                0
            },
    )
}

/// A macroblock has the quantizers, the bands and the coefficients that it was coded with, and its
/// high-pass coefficients are predicted from where it was coded.
pub proof fn lemma_macroblock_keeps_what_was_coded(
    arena: ArenaModel,
    index: int,
    block_columns: u8,
    block_rows: u8,
    rule: spec_fn(HighPassKernel, Seq<i32>) -> Option<Seq<i32>>,
    direction: HighPassDirection,
    block: int,
)
    requires
        gives_macroblocks(rule),
        predicted_from(arena.macroblocks.hp_predictions[index], direction),
        block_columns * block_rows <= 16,
        0 <= block < block_columns * block_rows,
    ensures
        unpack::unpacked(arena, index, block_columns, block_rows, rule) matches Ok(macroblock)
            ==> {
            let offset = arena.macroblocks.coefficient_offsets[index] as int;
            let bands = arena.macroblocks.bands[index];
            &&& macroblock.quantizers == arena.macroblocks.quantizers[index]
            &&& macroblock.bands == bands
            &&& bands != BandPresence::DcOnly || block == 0 ==> macroblock.dc_low_pass@[block]
                == arena.coefficients[offset + low_place(bands, block)]
            &&& rule(
                HighPassKernel { direction, block_columns, block_rows },
                coded_high_pass(arena, index, block_columns * block_rows),
            ) == Some(macroblock.high_pass@)
        },
{
    let blocks = block_columns * block_rows;
    let bands = arena.macroblocks.bands[index];
    let offset = arena.macroblocks.coefficient_offsets[index] as int;
    if let Ok(macroblock) = unpack::unpacked(arena, index, block_columns, block_rows, rule) {
        let end = offset + unpack::packed_coefficient_count(bands, blocks as u8);
        let packed = arena.coefficients.subrange(offset, end);
        let low = unpack::low_of(packed, bands, blocks);
        let array: [i32; 16] = [
            low[0],
            low[1],
            low[2],
            low[3],
            low[4],
            low[5],
            low[6],
            low[7],
            low[8],
            low[9],
            low[10],
            low[11],
            low[12],
            low[13],
            low[14],
            low[15],
        ];
        assert(array@ =~= low);
        assert(macroblock.dc_low_pass@ == low);
        let high = unpack::high_of(packed, bands, blocks);
        assert(high =~= coded_high_pass(arena, index, blocks));
        let kernel = HighPassKernel { direction, block_columns, block_rows };
        let values = rule(kernel, high)->0;
        let chosen = choose|array: [i32; 256]| #[trigger] array@ == rule(kernel, high)->0;
        assert(chosen@ == values);
        assert(macroblock.high_pass@ == values);
    }
}

/// Whether chroma is interpolated: where it is coded with fewer samples than luma, unless the output
/// is to have fewer samples too or there is one sample for each macroblock.
pub open spec fn interpolates(parsed: ParsedModel, scale: DecodeScale) -> bool {
    let coded = parsed.headers.primary.internal_color_format;
    let output = parsed.headers.image.output_color_format;
    &&& coded == 1 || coded == 2
    &&& output != 1 && output != 2
    &&& scale == DecodeScale::Full || scale == DecodeScale::Quarter
}

/// Luma is kept; each chroma component is interpolated to the size of luma where that is needed,
/// with the centerings of its header, and otherwise kept too.
pub proof fn lemma_chroma_is_brought_to_luma(
    parsed: ParsedModel,
    components: Seq<PlaneSamples>,
    scale: DecodeScale,
    rules: ReconstructionRules,
    config: ChromaReconstructionConfig,
)
    requires
        config.sampling == (if parsed.headers.primary.internal_color_format == 1 {
            ChromaSampling::Cs420
        } else {
            ChromaSampling::Cs422
        }),
        config.full_width == components[0].width,
        config.full_height == components[0].height,
        config.centering_x == parsed.headers.primary.chroma_centering_x,
        config.centering_y == parsed.headers.primary.chroma_centering_y,
    ensures
        reconstruction::upsampled(parsed, components, scale, rules.kernels) matches Ok(planes)
            ==> if interpolates(parsed, scale) {
            &&& planes.len() == 3
            &&& planes[0] == components[0]
            &&& chroma::full_plane(components[1], config, rules.kernels) == Ok::<
                PlaneSamples,
                ReconstructionError,
            >(planes[1])
            &&& chroma::full_plane(components[2], config, rules.kernels) == Ok::<
                PlaneSamples,
                ReconstructionError,
            >(planes[2])
        } else {
            planes == components
        },
{
    if interpolates(parsed, scale) {
        assert(chroma::config_of(
            parsed.headers.primary,
            components[0].width,
            components[0].height,
        )->Ok_0 == config);
    }
}

/// The components of an image come from the first coefficient planes, and integrated alpha from the
/// one behind them; it is never doubled, and given out only where it is integrated.
pub proof fn lemma_planes_come_from_arena(
    arena: ArenaModel,
    parsed: ParsedModel,
    plan: PlanModel,
    integrated_alpha: bool,
    rules: ReconstructionRules,
    count: nat,
)
    requires
        plan.info.primary.color_format.components() == Some(count as u16),
        count <= u16::MAX,
    ensures
        reconstruction::arena_reconstructed(
            arena,
            parsed,
            plan,
            integrated_alpha,
            rules,
        ) matches Ok((components, alpha)) ==> {
            let window = window::window_of(arena, arena.planes[0], plan);
            let coded = reconstruction::components_of(arena, plan, window->Ok_0, count, rules);
            &&& window is Ok
            &&& coded is Ok
            &&& reconstruction::upsampled(
                parsed,
                coded->Ok_0,
                plan.scale,
                rules.kernels,
            ) == Ok::<Seq<PlaneSamples>, JxrError>(components)
            &&& alpha is Some <==> integrated_alpha
            &&& alpha matches Some(plane) ==> reconstruction::component_of(
                arena,
                arena.planes[count as int],
                false,
                plan,
                window->Ok_0,
                rules,
            ) == Ok::<PlaneSamples, JxrError>(plane)
        },
{
}

/// The code of an output colour format.
pub open spec fn output_code(color: ColorFormat) -> int {
    match color {
        ColorFormat::Luma => 0,
        ColorFormat::Yuv(ChromaSampling::Cs420) => 1,
        ColorFormat::Yuv(ChromaSampling::Cs422) => 2,
        ColorFormat::Yuv(ChromaSampling::Cs444) => 3,
        ColorFormat::Cmyk => 4,
        ColorFormat::CmykDirect => 5,
        ColorFormat::NComponent(_) => 6,
        ColorFormat::Rgb => 7,
        ColorFormat::Rgbe => 8,
        ColorFormat::YuvK => -1,
    }
}

/// Whether a bit depth is the one of a code and the fields of a plane header.
pub open spec fn depth_read(depth: OutputBitDepth, code: int, plane: PlaneModel) -> bool {
    match depth {
        OutputBitDepth::Bit1White => code == 0,
        OutputBitDepth::U8 => code == 1,
        OutputBitDepth::U16 { shift_bits } => code == 2 && shift_bits == plane.shift_bits,
        OutputBitDepth::I16 { shift_bits } => code == 3 && shift_bits == plane.shift_bits,
        OutputBitDepth::F16 => code == 4,
        OutputBitDepth::I32 { shift_bits } => code == 6 && shift_bits == plane.shift_bits,
        OutputBitDepth::F32 { mantissa_length, exponent_bias } => {
            &&& code == 7
            &&& mantissa_length == plane.mantissa_length
            &&& exponent_bias == plane.exponent_bias
        },
        OutputBitDepth::Rgb555 => code == 8,
        OutputBitDepth::U10 => code == 9,
        OutputBitDepth::Rgb101010 => code == 9,
        OutputBitDepth::Rgb565 => code == 10,
        OutputBitDepth::Bit1Black => code == 15,
    }
}

/// How many samples of the image stand for one in a row or a column.
pub open spec fn samples_per_sample(scale: DecodeScale) -> int {
    match scale {
        DecodeScale::Full => 1,
        DecodeScale::Quarter => 4,
        DecodeScale::Sixteenth => 16,
    }
}

/// Whether an output policy is the one that headers, a plan and a request ask for.
pub open spec fn policy_made(
    parsed: ParsedModel,
    plan: PlanModel,
    request: DecodeRequest,
    policy: OutputFormatRequest,
) -> bool {
    let image = parsed.headers.image;
    let primary = parsed.headers.primary;
    let unit = samples_per_sample(plan.scale);
    &&& output_code(policy.output_color) == image.output_color_format
    &&& policy.output_color matches ColorFormat::NComponent(count) ==> count == primary.components
    &&& depth_read(policy.bit_depth, image.output_bit_depth as int, primary)
    &&& image.output_bit_depth == 9 ==> (policy.bit_depth == OutputBitDepth::Rgb101010
        <==> policy.output_color == ColorFormat::Rgb)
    &&& policy.pixel_format == request.output
    &&& policy.scaled == primary.scaled
    &&& forall|kept: bool|
        call_ensures(HeaderFlags::red_blue_not_swapped, (image.flags,), kept)
            ==> policy.red_blue_not_swapped == kept
    &&& policy.premultiply_alpha <==> (request.alpha == AlphaHandling::Premultiply
        && !plan.info.premultiplied_alpha)
    &&& unit * policy.crop.x <= image.margins[1] + plan.output_region.x < unit * (policy.crop.x + 1)
    &&& unit * policy.crop.y <= image.margins[0] + plan.output_region.y < unit * (policy.crop.y + 1)
    &&& policy.crop.width == plan.decoded_region.w
    &&& policy.crop.height == plan.decoded_region.h
    &&& match plan.info.primary.color_format {
        ColorFormat::Yuv(_) => {
            ||| policy.internal_color == ColorFormat::Yuv(ChromaSampling::Cs444)
            ||| policy.internal_color == plan.info.primary.color_format && policy.output_color
                == plan.info.primary.color_format
        },
        color => policy.internal_color == color,
    }
    &&& match (parsed.headers.alpha, parsed.separate_alpha_headers) {
        (Some(alpha), _) => policy.alpha_format matches Some(format) && format.scaled
            == alpha.scaled && depth_read(format.bit_depth, image.output_bit_depth as int, alpha),
        (None, Some(headers)) => {
            let alpha = match headers.alpha {
                Some(alpha) => alpha,
                None => headers.primary,
            };
            policy.alpha_format matches Some(format) && format.scaled == alpha.scaled && depth_read(
                format.bit_depth,
                headers.image.output_bit_depth as int,
                alpha,
            )
        },
        (None, None) => policy.alpha_format is None,
    }
}

/// The output policy follows the headers, the plan and the request.
pub proof fn lemma_policy_follows_headers(
    parsed: ParsedModel,
    plan: PlanModel,
    request: DecodeRequest,
)
    ensures
        policy::policy_of(parsed, plan, request) matches Ok(policy) ==> policy_made(
            parsed,
            plan,
            request,
            policy,
        ),
{
    if let Ok(policy) = policy::policy_of(parsed, plan, request) {
        let x = parsed.headers.image.margins[1] + plan.output_region.x;
        let y = parsed.headers.image.margins[0] + plan.output_region.y;
        match plan.scale {
            DecodeScale::Full => {
                assert(policy.crop.x == x / 1 && policy.crop.y == y / 1);
            },
            DecodeScale::Quarter => {
                assert(policy.crop.x == x / 4 && policy.crop.y == y / 4);
            },
            DecodeScale::Sixteenth => {
                assert(policy.crop.x == x / 16 && policy.crop.y == y / 16);
            },
        }
        let unit = samples_per_sample(plan.scale);
        assert(unit * policy.crop.x <= x < unit * (policy.crop.x + 1));
        assert(unit * policy.crop.y <= y < unit * (policy.crop.y + 1));
        assert(depth_read(
            policy.bit_depth,
            parsed.headers.image.output_bit_depth as int,
            parsed.headers.primary,
        ));
        assert(policy_made(parsed, plan, request, policy));
    }
}

/// Alpha is given out if and only if there is some and it is not dropped: the integrated plane of
/// the primary codestream, or the plane of the separate one.
pub proof fn lemma_alpha_is_given_out(
    source: Seq<u8>,
    parsed: ParsedModel,
    plan: PlanModel,
    primary_plan: PlanModel,
    request: DecodeRequest,
    rules: DecodeRules,
)
    ensures
        route::route_planes(source, parsed, plan, primary_plan, request, rules) matches Ok(
            (components, alpha),
        ) ==> {
            let integrated = plan.info.alpha_mode == AlphaMode::Integrated;
            let primary = route::codestream_planes(
                source,
                parsed,
                primary_plan,
                integrated,
                rules,
            );
            &&& primary is Ok
            &&& components == primary->Ok_0.0
            &&& alpha is Some ==> plan.info.alpha_mode != AlphaMode::Absent && request.alpha
                != AlphaHandling::Drop
            &&& request.alpha == AlphaHandling::Drop ==> alpha is None
            &&& request.alpha != AlphaHandling::Drop && integrated ==> alpha == primary->Ok_0.1
            &&& request.alpha != AlphaHandling::Drop && plan.info.alpha_mode == AlphaMode::Separate
                ==> route::separate_alpha(source, parsed, plan, request, rules) == Ok::<
                PlaneSamples,
                JxrError,
            >(alpha->0) && alpha is Some
        },
{
}

/// A reconstructed plane as rows that follow one another without a gap.
pub open spec fn seen(plane: PlaneSamples) -> PlaneView {
    PlaneView {
        origin_x: plane.origin_x,
        origin_y: plane.origin_y,
        width: plane.width,
        height: plane.height,
        stride: plane.width as usize,
        samples: plane.samples,
    }
}

/// Each number of a decoded image is made of the sample that its pixel and its channel stand for,
/// in the components and the alpha plane that were reconstructed.
pub proof fn lemma_decoded_pixels_keep_their_meaning(
    source: Seq<u8>,
    parsed: ParsedModel,
    plan: PlanModel,
    primary_plan: PlanModel,
    request: DecodeRequest,
    cpu: CpuCapabilities,
    rules: DecodeRules,
    x: int,
    y: int,
    channel: int,
)
    requires
        channel_laws::has_channels(request.output),
        !planar::is_planar(policy::policy_of(parsed, plan, request)->Ok_0.output_color),
        !policy::policy_of(parsed, plan, request)->Ok_0.premultiply_alpha,
        0 <= x < plan.decoded_region.w,
        0 <= y < plan.decoded_region.h,
        0 <= channel < request.output.layout().channels(),
    ensures
        route::decoded(source, parsed, plan, primary_plan, request, cpu, rules) matches Ok(image)
            ==> {
            let planes = route::route_planes(source, parsed, plan, primary_plan, request, rules);
            let policy = policy::policy_of(parsed, plan, request);
            let (components, alpha) = planes->Ok_0;
            &&& planes is Ok
            &&& policy is Ok
            &&& image.format == request.output
            &&& image.decoded_region == plan.decoded_region
            &&& channel_laws::number_made(
                Seq::new(components.len(), |index: int| seen(components[index])),
                match alpha {
                    Some(plane) => Some(seen(plane)),
                    None => None,
                },
                policy->Ok_0,
                x,
                y,
                channel,
                channel_laws::number_at(image.samples.values, policy->Ok_0, x, y, channel),
            )
        },
{
    if let Ok(image) = route::decoded(source, parsed, plan, primary_plan, request, cpu, rules) {
        let policy = policy::policy_of(parsed, plan, request)->Ok_0;
        let (components, alpha) = route::route_planes(
            source,
            parsed,
            plan,
            primary_plan,
            request,
            rules,
        )->Ok_0;
        lemma_policy_follows_headers(parsed, plan, request);
        assert(output::views_of(components) =~= Seq::new(
            components.len(),
            |index: int| seen(components[index]),
        ));
        channel_laws::lemma_image_keeps_its_meaning(
            output::views_of(components),
            output::alpha_view(alpha),
            policy,
            rules.pixels,
            x,
            y,
            channel,
        );
    }
}

/// Bands of alpha are among those of the primary plane exactly if alpha leaves out as many bands or
/// more, and each band is coded unless it is left out.
pub proof fn lemma_bands_are_left_out_from_the_end(primary: BandPresence, alpha: BandPresence)
    ensures
        metadata::bands_are_subset(primary, alpha) <==> missing_bands(alpha) >= missing_bands(
            primary,
        ),
        alpha.has_flexbits() <==> missing_bands(alpha) < 1,
        alpha.has_high_pass() <==> missing_bands(alpha) < 2,
        alpha.has_low_pass() <==> missing_bands(alpha) < 3,
{
}

/// Alpha that is given out was prepared, alpha of the primary codestream is prepared in any case,
/// and no other alpha is prepared.
pub proof fn lemma_alpha_is_prepared_before_it_is_given_out(
    mode: AlphaMode,
    handling: AlphaHandling,
)
    ensures
        alpha::alpha_action(mode, handling) ==> prepare::should_prepare_alpha(mode, handling),
        alpha::alpha_action(mode, handling) <==> mode != AlphaMode::Absent && handling
            != AlphaHandling::Drop,
        mode == AlphaMode::Integrated ==> prepare::should_prepare_alpha(mode, handling),
        prepare::should_prepare_alpha(mode, handling) && !alpha::alpha_action(mode, handling)
            ==> mode == AlphaMode::Integrated,
{
}

/// A separate alpha codestream fits its image exactly if it has its size and margins, its bit depth
/// with the same shift, mantissa, exponent and scaling, and nothing but one component of luma.
pub proof fn lemma_separate_alpha_fits(primary: ParsedModel, other: ParsedModel)
    ensures
        alpha::compatibility_error(primary, other) is None <==> {
            let image = primary.headers.image;
            let plane = primary.headers.primary;
            let beside = other.headers.image;
            let gray = other.headers.primary;
            &&& beside.width == image.width && beside.height == image.height
            &&& beside.margins == image.margins
            &&& beside.output_bit_depth == image.output_bit_depth
            &&& gray.shift_bits == plane.shift_bits
            &&& gray.mantissa_length == plane.mantissa_length
            &&& gray.exponent_bias == plane.exponent_bias
            &&& gray.scaled == plane.scaled
            &&& beside.output_color_format == 0 && gray.internal_color_format == 0
            &&& gray.components == 1 && other.headers.alpha is None
        },
{
}

} // verus!
