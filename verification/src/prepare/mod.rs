//! Device-neutral decode-plan construction from parsed syntax.

pub mod accounting;
pub mod laws;
pub mod packets;
pub mod regions;
pub mod size_laws;
pub mod tiles;

use crate::codestream::{ParsedCodestream, ParsedModel};
use crate::error::NativeError;
use crate::metadata;
use crate::metadata::{image_info, ImageInfo, InfoModel, TileGrid, TileGridModel};
use crate::plan;
use crate::plan::{DecodeRequest, PlanLimit, PlanModel, PlanePlan, PreparedPlan, TilePlan};
use crate::tail;
use crate::types::{
    AlphaHandling, AlphaMode, BitstreamMode, ByteRange, DecodeScale, JxrError, JxrErrorKind, Rect,
};
use accounting::{coefficient_bytes, host_output_bytes};
use regions::{native_output_region, reconstruction_region};
use tiles::{sum_sizes, tile_plans};
use vstd::prelude::*;

verus! {

impl TileGridModel {
    /// The number of tiles.
    pub open spec fn tile_total(self) -> int {
        self.column_widths.len() as int * self.row_heights.len() as int
    }

    /// The number of tiles, if it fits.
    pub open spec fn counted(self) -> Result<usize, JxrError> {
        if self.tile_total() > usize::MAX {
            Err(JxrError::arithmetic("tile count"))
        } else {
            Ok(self.tile_total() as usize)
        }
    }
}

impl TileGrid {
    /// Returns the number of tiles.
    pub fn tile_count(&self) -> (result: Result<usize, JxrError>)
        ensures
            result == self@.counted(),
    {
        let columns: usize = self.column_widths.len();
        let rows: usize = self.row_heights.len();
        match columns.checked_mul(rows) {
            Some(count) => Ok(count),
            None => Err(JxrError::arithmetic("tile count")),
        }
    }
}

/// Whether alpha is decoded: always where it is part of the primary codestream, and otherwise
/// where it is asked for.
#[verifier::allow_in_spec]
pub fn should_prepare_alpha(mode: AlphaMode, handling: AlphaHandling) -> bool
    returns
        (mode == AlphaMode::Integrated || (mode == AlphaMode::Separate && handling
            != AlphaHandling::Drop)),
{
    mode == AlphaMode::Integrated || (mode == AlphaMode::Separate && handling
        != AlphaHandling::Drop)
}

/// The first coefficient plane of alpha: behind the primary components in the primary
/// codestream, and the only one in a codestream of its own.
pub open spec fn alpha_plane_index(info: InfoModel) -> usize {
    if info.alpha_mode == AlphaMode::Integrated {
        match info.primary.color_format.components() {
            Some(count) => count as usize,
            None => 0,
        }
    } else {
        0
    }
}

fn alpha_coefficient_plane(info: &ImageInfo) -> (index: usize)
    ensures
        index == alpha_plane_index(info@),
{
    if info.alpha_mode == AlphaMode::Integrated {
        match info.primary.color_format.component_count() {
            Some(count) => count as usize,
            None => 0,
        }
    } else {
        0
    }
}

/// Why an image cannot be decoded at a resolution, if it cannot.
pub open spec fn scale_error(parsed: ParsedModel, info: InfoModel, request: DecodeRequest) -> Option<
    JxrError,
> {
    if request.scale == DecodeScale::Full {
        None
    } else if info.primary.bitstream_mode != BitstreamMode::Frequency {
        Some(
            JxrError::new(
                JxrErrorKind::Unsupported,
                "native reduced resolution requires frequency-mode packets",
            ),
        )
    } else if request.scale == DecodeScale::Quarter && !info.primary.bands.has_low_pass() {
        Some(
            JxrError::new(
                JxrErrorKind::Unsupported,
                "quarter-resolution decode requires an LP band",
            ),
        )
    } else if request.scale == DecodeScale::Quarter && request.alpha != AlphaHandling::Drop
        && info.alpha is Some && !info.alpha->0.bands.has_low_pass() {
        Some(
            JxrError::new(
                JxrErrorKind::Unsupported,
                "quarter-resolution alpha decode requires an LP band",
            ),
        )
    } else if request.scale == DecodeScale::Sixteenth && (parsed.headers.image.output_color_format
        == 1 || parsed.headers.image.output_color_format == 2) {
        Some(
            JxrError::new(
                JxrErrorKind::Unsupported,
                "sixteenth-resolution subsampled planar YUV output",
            ),
        )
    } else {
        None
    }
}

fn validate_native_scale(parsed: &ParsedCodestream, info: &ImageInfo, request: &DecodeRequest) -> (
result: Result<(), JxrError>)
    ensures
        result == (match scale_error(parsed@, info@, *request) {
            Some(error) => Err::<(), JxrError>(error),
            None => Ok(()),
        }),
{
    if request.scale == DecodeScale::Full {
        return Ok(());
    }
    if info.primary.bitstream_mode != BitstreamMode::Frequency {
        return Err(
            JxrError::new(
                JxrErrorKind::Unsupported,
                "native reduced resolution requires frequency-mode packets",
            ),
        );
    }
    if request.scale == DecodeScale::Quarter && !info.primary.bands.has_low_pass() {
        return Err(
            JxrError::new(
                JxrErrorKind::Unsupported,
                "quarter-resolution decode requires an LP band",
            ),
        );
    }
    if request.scale == DecodeScale::Quarter && request.alpha != AlphaHandling::Drop {
        if let Some(alpha) = info.alpha {
            if !alpha.bands.has_low_pass() {
                return Err(
                    JxrError::new(
                        JxrErrorKind::Unsupported,
                        "quarter-resolution alpha decode requires an LP band",
                    ),
                );
            }
        }
    }
    if request.scale == DecodeScale::Sixteenth && (parsed.headers.image.output_color_format == 1
        || parsed.headers.image.output_color_format == 2) {
        return Err(
            JxrError::new(
                JxrErrorKind::Unsupported,
                "sixteenth-resolution subsampled planar YUV output",
            ),
        );
    }
    Ok(())
}

/// Why a request cannot be met for an image, if it cannot, before its region is looked at.
pub open spec fn request_error(
    input_len: usize,
    parsed: ParsedModel,
    info: InfoModel,
    request: DecodeRequest,
    limits: spec_fn(PlanLimit) -> Result<(), JxrError>,
) -> Option<JxrError> {
    let compressed = limits(PlanLimit::CompressedBytes(input_len));
    let dimensions = limits(PlanLimit::Dimensions(info.width, info.height));
    let components = limits(
        PlanLimit::Components(
            match info.primary.color_format.components() {
                Some(count) => count,
                None => 0,
            },
        ),
    );
    let tiles = limits(PlanLimit::Tiles(info.tiles.tile_total() as usize));
    if compressed is Err {
        Some(compressed->Err_0)
    } else if dimensions is Err {
        Some(dimensions->Err_0)
    } else if components is Err {
        Some(components->Err_0)
    } else if info.tiles.counted() is Err {
        Some(info.tiles.counted()->Err_0)
    } else if tiles is Err {
        Some(tiles->Err_0)
    } else {
        scale_error(parsed, info, request)
    }
}

fn validate_request<L: Fn(PlanLimit) -> Result<(), JxrError>>(
    input_len: usize,
    parsed: &ParsedCodestream,
    info: &ImageInfo,
    request: &DecodeRequest,
    limits: &L,
) -> (result: Result<(), JxrError>)
    requires
        forall|limit: PlanLimit| call_requires(*limits, (limit,)),
    ensures
        result is Ok ==> request_error(input_len, parsed@, info@, *request, plan::unlimited())
            is None,
        forall|rule: spec_fn(PlanLimit) -> Result<(), JxrError>| #[trigger]
            plan::limited(*limits, rule) ==> result == (match request_error(
                input_len,
                parsed@,
                info@,
                *request,
                rule,
            ) {
                Some(error) => Err::<(), JxrError>(error),
                None => Ok(()),
            }),
{
    limits(PlanLimit::CompressedBytes(input_len))?;
    limits(PlanLimit::Dimensions(info.width, info.height))?;
    let components: u16 = match info.primary.color_format.component_count() {
        Some(count) => count,
        None => 0,
    };
    limits(PlanLimit::Components(components))?;
    limits(PlanLimit::Tiles(info.tiles.tile_count()?))?;
    validate_native_scale(parsed, info, request)
}

/// The plan of a plane.
pub open spec fn plane_plan_of(info: InfoModel, coefficient_plane: usize) -> PlanePlan {
    PlanePlan {
        width: info.width,
        height: info.height,
        macroblocks_x: metadata::size_sum(info.tiles.column_widths) as u32,
        macroblocks_y: metadata::size_sum(info.tiles.row_heights) as u32,
        overlap: info.primary.overlap,
        coefficient_plane,
    }
}

fn plane_plan(info: &ImageInfo, coefficient_plane: usize) -> (plan: PlanePlan)
    requires
        tiles::grid_is_usable(info@),
    ensures
        plan == plane_plan_of(info@, coefficient_plane),
{
    PlanePlan {
        width: info.width,
        height: info.height,
        macroblocks_x: sum_sizes(&info.tiles.column_widths),
        macroblocks_y: sum_sizes(&info.tiles.row_heights),
        overlap: info.primary.overlap,
        coefficient_plane,
    }
}

/// The plan of the alpha plane, if it is decoded.
pub open spec fn alpha_plan_of(info: InfoModel, handling: AlphaHandling) -> Option<PlanePlan> {
    if should_prepare_alpha(info.alpha_mode, handling) && info.alpha is Some {
        Some(plane_plan_of(info, alpha_plane_index(info)))
    } else {
        None
    }
}

/// The macroblocks in the tiles that the requested region depends on.
pub open spec fn selected_total(plans: Seq<TilePlan>) -> int
    decreases plans.len(),
{
    if plans.len() == 0 {
        0
    } else {
        selected_total(plans.drop_last()) + if plans.last().required_for_reconstruction {
            plans.last().macroblock_count as int
        } else {
            0
        }
    }
}

/// More tiles do not have fewer macroblocks.
proof fn lemma_selected_grows(plans: Seq<TilePlan>, some: int)
    requires
        0 <= some <= plans.len(),
    ensures
        0 <= selected_total(plans.take(some)) <= selected_total(plans),
    decreases plans.len(),
{
    if some < plans.len() {
        assert(plans.drop_last().take(some) =~= plans.take(some));
        lemma_selected_grows(plans.drop_last(), some);
    } else {
        assert(plans.take(some) =~= plans);
        if plans.len() > 0 {
            lemma_selected_grows(plans.drop_last(), 0);
        }
    }
}

fn selected_macroblocks(plans: &Vec<TilePlan>) -> (result: Result<u32, JxrError>)
    ensures
        result == (if selected_total(plans@) > u32::MAX {
            Err::<u32, JxrError>(JxrError::arithmetic("selected macroblock count"))
        } else {
            Ok(selected_total(plans@) as u32)
        }),
{
    let mut total: u32 = 0;
    for index in 0..plans.len()
        invariant
            total == selected_total(plans@.take(index as int)),
    {
        proof {
            let next = plans@.take(index as int + 1);
            assert(next.drop_last() =~= plans@.take(index as int));
            lemma_selected_grows(plans@, index as int + 1);
        }
        if plans[index].required_for_reconstruction {
            total = match total.checked_add(plans[index].macroblock_count) {
                Some(total) => total,
                None => return Err(JxrError::arithmetic("selected macroblock count")),
            };
        }
    }
    assert(plans@.take(plans@.len() as int) =~= plans@);
    Ok(total)
}

/// The requested pixels: all of them if no region is named.
pub open spec fn requested_region(info: InfoModel, request: DecodeRequest) -> Rect {
    match request.region {
        Some(region) => region,
        None => Rect::full((info.width, info.height)),
    }
}

/// The plan for an image and a request, or the first reason why there is none.
pub open spec fn planned(
    input_len: usize,
    parsed: ParsedModel,
    info: InfoModel,
    request: DecodeRequest,
    limits: spec_fn(PlanLimit) -> Result<(), JxrError>,
) -> Result<PlanModel, JxrError> {
    let refused = request_error(input_len, parsed, info, request, limits);
    let region = requested_region(info, request);
    let decoded = regions::scaled_region(region, request.scale);
    let output = accounting::output_size(
        request.output,
        parsed.headers.image.output_color_format,
        info.alpha is Some && request.alpha != AlphaHandling::Drop,
        decoded->Ok_0,
    );
    let output_limit = limits(PlanLimit::HostAllocationBytes(output->Ok_0));
    let alpha = alpha_plan_of(info, request.alpha);
    let plans = tiles::tiles_of(parsed, info, region);
    let selected = selected_total(plans->Ok_0);
    let coefficients = accounting::coefficient_size(
        info,
        alpha is Some || info.alpha_mode == AlphaMode::Integrated,
        selected as u32,
        request.scale,
    );
    let coefficient_limit = limits(PlanLimit::CoefficientBytes(coefficients->Ok_0));
    let bytes = metadata::byte_range_of(parsed.codestream_range);
    let range = ByteRange::checked(bytes.offset, bytes.length, input_len);
    if refused is Some {
        Err(refused->0)
    } else if region.w == 0 || region.h == 0 || !region.within((info.width, info.height)) {
        Err(JxrError::new(JxrErrorKind::InvalidRequest, "decode region"))
    } else if decoded is Err {
        Err(decoded->Err_0)
    } else if output is Err {
        Err(output->Err_0)
    } else if output_limit is Err {
        Err(output_limit->Err_0)
    } else if plans is Err {
        Err(plans->Err_0)
    } else if selected > u32::MAX {
        Err(JxrError::arithmetic("selected macroblock count"))
    } else if coefficients is Err {
        Err(coefficients->Err_0)
    } else if coefficient_limit is Err {
        Err(coefficient_limit->Err_0)
    } else if range is Err {
        Err(range->Err_0)
    } else {
        Ok(
            PlanModel {
                info,
                codestream_range: range->Ok_0,
                primary: plane_plan_of(info, 0),
                alpha,
                tiles: plans->Ok_0,
                reconstruction_region: regions::surrounding_region(
                    region,
                    (info.width, info.height),
                    info.primary.overlap,
                ),
                output_region: region,
                decoded_region: decoded->Ok_0,
                scale: request.scale,
                coefficient_bytes: coefficients->Ok_0,
            },
        )
    }
}

/// The error of a plan for an image that cannot be described.
pub open spec fn plan_error(error: NativeError) -> JxrError {
    match error {
        NativeError::IntegerOverflow { .. } => JxrError::new(
            JxrErrorKind::ArithmeticOverflow,
            "prepare decode plan",
        ),
        NativeError::Unsupported { .. } => JxrError::new(
            JxrErrorKind::Unsupported,
            "prepare decode plan",
        ),
        _ => JxrError::new(JxrErrorKind::InvalidSyntax, "prepare decode plan"),
    }
}

fn native_plan_error(error: NativeError) -> (mapped: JxrError)
    ensures
        mapped == plan_error(error),
{
    match error {
        NativeError::IntegerOverflow { .. } => JxrError::new(
            JxrErrorKind::ArithmeticOverflow,
            "prepare decode plan",
        ),
        NativeError::Unsupported { .. } => JxrError::new(
            JxrErrorKind::Unsupported,
            "prepare decode plan",
        ),
        _ => JxrError::new(JxrErrorKind::InvalidSyntax, "prepare decode plan"),
    }
}

/// The plan for an input and a request, given the rules for image descriptions and the limits.
pub open spec fn plan_of(
    input_len: usize,
    parsed: ParsedModel,
    request: DecodeRequest,
    rule: spec_fn(InfoModel) -> bool,
    limits: spec_fn(PlanLimit) -> Result<(), JxrError>,
) -> Result<PlanModel, JxrError> {
    match metadata::info_of(parsed, rule) {
        Err(error) => Err(plan_error(error)),
        Ok(info) => planned(input_len, parsed, info, request, limits),
    }
}

/// Whether an input can be planned: if it can be described, its packets can be found.
pub open spec fn plannable(parsed: ParsedModel) -> bool {
    metadata::described(parsed) is Ok ==> tiles::packets_are_placed(parsed)
}

/// The tile sizes of a described image can be summed, and there are as many as announced.
proof fn lemma_described_grid(parsed: ParsedModel)
    requires
        metadata::described(parsed) is Ok,
    ensures
        ({
            let info = metadata::described(parsed)->Ok_0;
            &&& tiles::grid_is_usable(info)
            &&& info.tiles.column_widths.len() == parsed.headers.image.tile_widths_mb.len() + 1
            &&& info.tiles.row_heights.len() == parsed.headers.image.tile_heights_mb.len() + 1
            &&& info.tiles.tile_total() == tail::tile_total(parsed.headers)
        }),
{
    let image = parsed.headers.image;
    let width = metadata::extended(image.width, image.margins[1], image.margins[3])->Ok_0 / 16;
    let height = metadata::extended(image.height, image.margins[0], image.margins[2])->Ok_0 / 16;
    metadata::lemma_tiles_fill(image.tile_widths_mb, width, "tile columns");
    metadata::lemma_tiles_fill(image.tile_heights_mb, height, "tile rows");
}

fn finish_plan<L: Fn(PlanLimit) -> Result<(), JxrError>>(
    input_len: usize,
    parsed: &ParsedCodestream,
    info: ImageInfo,
    request: &DecodeRequest,
    limits: &L,
) -> (result: Result<PreparedPlan, JxrError>)
    requires
        tiles::packets_are_placed(parsed@),
        metadata::described(parsed@) == Ok::<InfoModel, NativeError>(info@),
        forall|limit: PlanLimit| call_requires(*limits, (limit,)),
    ensures
        result matches Ok(plan) ==> plan.info.metadata == info.metadata && planned(
            input_len,
            parsed@,
            info@,
            *request,
            plan::unlimited(),
        ) == Ok::<PlanModel, JxrError>(plan@),
        forall|rule: spec_fn(PlanLimit) -> Result<(), JxrError>| #[trigger]
            plan::limited(*limits, rule) ==> match (
                result,
                planned(input_len, parsed@, info@, *request, rule),
            ) {
                (Ok(plan), Ok(expected)) => plan@ == expected,
                (Err(error), Err(expected)) => error == expected,
                _ => false,
            },
{
    proof {
        lemma_described_grid(parsed@);
    }
    validate_request(input_len, parsed, &info, request, limits)?;
    let output_region: Rect = match request.region {
        Some(region) => region,
        None => Rect::full(info.dimensions()),
    };
    if output_region.w == 0 || output_region.h == 0 || !output_region.is_within(
        info.dimensions(),
    ) {
        return Err(JxrError::new(JxrErrorKind::InvalidRequest, "decode region"));
    }
    let decoded_region: Rect = native_output_region(output_region, request.scale)?;
    let output_bytes: usize = host_output_bytes(
        request.output,
        parsed.headers.image.output_color_format,
        info.alpha.is_some() && request.alpha != AlphaHandling::Drop,
        decoded_region,
    )?;
    limits(PlanLimit::HostAllocationBytes(output_bytes))?;
    let reconstruction_region: Rect = reconstruction_region(
        output_region,
        info.dimensions(),
        info.primary.overlap,
    );
    let primary: PlanePlan = plane_plan(&info, 0);
    let alpha: Option<PlanePlan> = if should_prepare_alpha(info.alpha_mode, request.alpha)
        && info.alpha.is_some() {
        Some(plane_plan(&info, alpha_coefficient_plane(&info)))
    } else {
        None
    };
    let tiles: Vec<TilePlan> = tile_plans(parsed, &info, output_region)?;
    let selected: u32 = selected_macroblocks(&tiles)?;
    let coefficient_bytes: usize = coefficient_bytes(
        &info,
        alpha.is_some() || info.alpha_mode == AlphaMode::Integrated,
        selected,
        request.scale,
    )?;
    limits(PlanLimit::CoefficientBytes(coefficient_bytes))?;
    let start: usize = parsed.codestream_range.start;
    let end: usize = parsed.codestream_range.end;
    let length: usize = if end > start {
        end - start
    } else {
        0
    };
    let codestream_range: ByteRange = ByteRange::new(start, length, input_len)?;
    Ok(
        PreparedPlan {
            info,
            codestream_range,
            primary,
            alpha,
            tiles,
            reconstruction_region,
            output_region,
            decoded_region,
            scale: request.scale,
            coefficient_bytes,
        },
    )
}

/// Validate a request and construct immutable tile/reconstruction geometry.
///
/// `consistent` answers whether a description obeys the rules that it shares with other decoders;
/// `limits` answers what the caller can afford.
pub fn prepare_plan<C: Fn(&ImageInfo) -> bool, L: Fn(PlanLimit) -> Result<(), JxrError>>(
    input_len: usize,
    parsed: &ParsedCodestream,
    request: &DecodeRequest,
    consistent: &C,
    limits: &L,
) -> (result: Result<PreparedPlan, JxrError>)
    requires
        plannable(parsed@),
        forall|info: &ImageInfo| call_requires(*consistent, (info,)),
        forall|limit: PlanLimit| call_requires(*limits, (limit,)),
    ensures
        result matches Ok(plan) ==> metadata::described(parsed@) == Ok::<InfoModel, NativeError>(
            plan.info@,
        ) && plan.info.metadata.wf() && planned(
            input_len,
            parsed@,
            plan.info@,
            *request,
            plan::unlimited(),
        ) == Ok::<PlanModel, JxrError>(plan@),
        forall|
            rule: spec_fn(InfoModel) -> bool,
            limit_rule: spec_fn(PlanLimit) -> Result<(), JxrError>,
        |
            #[trigger] metadata::checks(*consistent, rule) && #[trigger] plan::limited(
                *limits,
                limit_rule,
            ) ==> match (result, plan_of(input_len, parsed@, *request, rule, limit_rule)) {
                (Ok(plan), Ok(expected)) => plan@ == expected,
                (Err(error), Err(expected)) => error == expected,
                _ => false,
            },
{
    let info: ImageInfo = match image_info(parsed, consistent) {
        Ok(info) => info,
        Err(error) => return Err(native_plan_error(error)),
    };
    finish_plan(input_len, parsed, info, request, limits)
}

} // verus!
