//! Final scalar color/alpha conversion, packing, and route reporting.

use crate::codestream::{ParsedCodestream, ParsedModel};
use crate::cpu::CpuCapabilities;
use crate::decode::policy;
use crate::decode::policy::{map_output_error, prepare_output_format};
use crate::decode::reconstruction;
use crate::decode::report;
use crate::decode::report::{cpu_report, DecodeReport, ReportModel};
use crate::metadata::{ImageInfo, InfoModel};
use crate::output_format::packing;
use crate::output_format::packing::{format_components_into_with_cpu, format_components_with_cpu};
use crate::output_format::planar;
use crate::output_format::planar::{
    format_planar_yuv, format_planar_yuv_into, is_planar, PlaneDescriptor,
};
use crate::output_format::premultiply;
use crate::output_format::premultiply::PixelOperator;
use crate::output_format::request::{ComponentPlane, OutputBitDepth, OutputFormatRequest, PlaneView};
use crate::output_format::samples::{element_bytes, DecodedSamples, SamplesModel};
use crate::output_format::validate;
use crate::plan;
use crate::plan::{DecodeRequest, PlanLimit, PlanModel, PreparedPlan};
use crate::reconstruct::contract::{PlanarSamples, PlaneSamples};
use crate::types::{JxrError, PixelFormat, Rect};
use vstd::prelude::*;

verus! {

/// Decoded image.
#[derive(Debug)]
pub struct DecodedImage {
    /// Description of the source.
    pub info: ImageInfo,
    /// Decoded region.
    pub decoded_region: Rect,
    /// Storage of the pixels.
    pub format: PixelFormat,
    /// Places of the planes.
    pub planes: Vec<PlaneDescriptor>,
    /// Samples.
    pub samples: DecodedSamples,
    /// Route of the decode.
    pub report: DecodeReport,
}

/// Metadata returned after native CPU decode into caller-owned typed storage.
#[derive(Debug)]
pub struct CpuDecodeIntoOutput {
    /// Parsed source metadata.
    pub info: ImageInfo,
    /// Actual decoded display-space region.
    pub decoded_region: Rect,
    /// Exact pixel format written.
    pub format: PixelFormat,
    /// Plane layout within one image destination.
    pub planes: Vec<PlaneDescriptor>,
    /// CPU route and stage report.
    pub report: DecodeReport,
}

/// Decoded image.
pub struct DecodedModel {
    /// Description of the source.
    pub info: InfoModel,
    /// Decoded region.
    pub decoded_region: Rect,
    /// Storage of the pixels.
    pub format: PixelFormat,
    /// Places of the planes.
    pub planes: Seq<PlaneDescriptor>,
    /// Samples.
    pub samples: SamplesModel,
    /// Route of the decode.
    pub report: ReportModel,
}

impl View for DecodedImage {
    type V = DecodedModel;

    open spec fn view(&self) -> DecodedModel {
        DecodedModel {
            info: self.info@,
            decoded_region: self.decoded_region,
            format: self.format,
            planes: self.planes@,
            samples: self.samples@,
            report: self.report@,
        }
    }
}

/// Whether the executable check of image layouts answers as the rule does.
pub open spec fn inspects<D: Fn(&DecodedImage) -> Result<(), JxrError>>(
    layout: D,
    rule: spec_fn(DecodedModel) -> Result<(), JxrError>,
) -> bool {
    forall|image: &DecodedImage, answer: Result<(), JxrError>| #[trigger]
        call_ensures(layout, (image,), answer) ==> answer == rule(image@)
}

/// A reconstructed plane as input of the output formatter.
pub open spec fn plane_view(plane: PlaneSamples) -> PlaneView {
    PlaneView {
        origin_x: plane.origin_x,
        origin_y: plane.origin_y,
        width: plane.width,
        height: plane.height,
        stride: plane.width as usize,
        samples: plane.samples,
    }
}

/// Reconstructed planes as input of the output formatter.
pub open spec fn views_of(planes: Seq<PlaneSamples>) -> Seq<PlaneView> {
    Seq::new(planes.len(), |index: int| plane_view(planes[index]))
}

/// A reconstructed alpha plane as input of the output formatter.
pub open spec fn alpha_view(alpha: Option<PlaneSamples>) -> Option<PlaneView> {
    match alpha {
        Some(plane) => Some(plane_view(plane)),
        None => None,
    }
}

/// The place of the only plane of an interleaved image.
pub open spec fn whole_plane(format: PixelFormat, region: Rect) -> Result<
    Seq<PlaneDescriptor>,
    JxrError,
> {
    let bytes = format.row_size(region.w, format.layout().channels());
    if bytes > usize::MAX {
        Err(JxrError::arithmetic("output row size"))
    } else {
        Ok(
            seq![
                PlaneDescriptor {
                    byte_offset: 0,
                    row_stride_bytes: bytes as usize,
                    width: region.w,
                    height: region.h,
                    channels: format.layout().channels(),
                },
            ],
        )
    }
}

fn describe_whole_plane(format: PixelFormat, region: Rect) -> (result: Result<
    Vec<PlaneDescriptor>,
    JxrError,
>)
    ensures
        match (result, whole_plane(format, region)) {
            (Ok(planes), Ok(expected)) => planes@ == expected,
            (Err(error), Err(expected)) => error == expected,
            _ => false,
        },
{
    let row_stride_bytes: usize = format.row_bytes(region.w)?;
    let mut planes: Vec<PlaneDescriptor> = Vec::new();
    planes.push(
        PlaneDescriptor {
            byte_offset: 0,
            row_stride_bytes,
            width: region.w,
            height: region.h,
            channels: format.channel_count(),
        },
    );
    assert(planes@ =~= whole_plane(format, region)->Ok_0);
    Ok(planes)
}

/// The samples of an image, and where its planes lie.
pub open spec fn stored(
    planes: Seq<PlaneView>,
    alpha: Option<PlaneView>,
    policy: OutputFormatRequest,
    region: Rect,
    rule: spec_fn(PixelOperator, Seq<int>) -> Option<int>,
) -> Result<(SamplesModel, Seq<PlaneDescriptor>), JxrError> {
    let separate = planar::planar_formatted(planes, alpha, policy);
    let samples = packing::formatted(planes, alpha, policy, rule);
    let whole = whole_plane(policy.pixel_format, region);
    if is_planar(policy.output_color) {
        match separate {
            Err(error) => Err(map_output_error(error)),
            Ok(output) => Ok(
                (
                    SamplesModel {
                        storage: crate::output_format::samples::storage_of(policy.pixel_format),
                        values: output.values,
                    },
                    output.planes,
                ),
            ),
        }
    } else if samples is Err {
        Err(map_output_error(samples->Err_0))
    } else if whole is Err {
        Err(whole->Err_0)
    } else {
        Ok((samples->Ok_0, whole->Ok_0))
    }
}

/// Whether vector units are used to pack an image.
pub open spec fn stores_with_vectors(
    planes: Seq<PlaneView>,
    alpha: Option<PlaneView>,
    policy: OutputFormatRequest,
    cpu: CpuCapabilities,
) -> bool {
    if is_planar(policy.output_color) {
        policy.bit_depth == OutputBitDepth::U8 && planar::uses_vectors(
            planar::windows_of(planes, alpha, policy),
            cpu,
        )
    } else {
        packing::packs_with_vectors(cpu, policy, alpha is Some)
    }
}

/// The bytes of samples, but no more than the largest number of bytes that fits.
pub open spec fn sample_size(samples: SamplesModel) -> usize {
    let bytes = samples.values.len() * element_bytes(samples.storage);
    if bytes > usize::MAX {
        usize::MAX
    } else {
        bytes as usize
    }
}

/// The image that reconstructed planes are formatted to.
pub open spec fn image_of(
    parsed: ParsedModel,
    plan: PlanModel,
    request: DecodeRequest,
    reconstruction: Seq<PlaneSamples>,
    alpha: Option<PlaneSamples>,
    cpu: CpuCapabilities,
    rule: spec_fn(PixelOperator, Seq<int>) -> Option<int>,
    limits: spec_fn(PlanLimit) -> Result<(), JxrError>,
    layout: spec_fn(DecodedModel) -> Result<(), JxrError>,
) -> Result<DecodedModel, JxrError> {
    let policy = policy::policy_of(parsed, plan, request);
    let planes = views_of(reconstruction);
    let alpha_plane = alpha_view(alpha);
    let output = stored(planes, alpha_plane, policy->Ok_0, plan.decoded_region, rule);
    let limit = limits(PlanLimit::HostAllocationBytes(sample_size(output->Ok_0.0)));
    let image = DecodedModel {
        info: plan.info,
        decoded_region: plan.decoded_region,
        format: request.output,
        planes: output->Ok_0.1,
        samples: output->Ok_0.0,
        report: report::report_of(
            request.backend,
            stores_with_vectors(planes, alpha_plane, policy->Ok_0, cpu),
            cpu.vectorizes() && plan.info.primary.bands.has_high_pass(),
        ),
    };
    if policy is Err {
        Err(policy->Err_0)
    } else if output is Err {
        Err(output->Err_0)
    } else if limit is Err {
        Err(limit->Err_0)
    } else if layout(image) is Err {
        Err(layout(image)->Err_0)
    } else {
        Ok(image)
    }
}

fn component_planes<'a>(reconstruction: &'a Vec<PlanarSamples>) -> (planes: Vec<ComponentPlane<'a>>)
    ensures
        validate::plane_views(planes@) == views_of(reconstruction::plane_samples(reconstruction@)),
{
    let mut planes: Vec<ComponentPlane<'a>> = Vec::new();
    let ghost expected = views_of(reconstruction::plane_samples(reconstruction@));
    assert(validate::plane_views(planes@) =~= expected.take(0));
    for index in 0..reconstruction.len()
        invariant
            expected == views_of(reconstruction::plane_samples(reconstruction@)),
            validate::plane_views(planes@) == expected.take(index as int),
    {
        let ghost before = planes@;
        let plane: &'a PlanarSamples = &reconstruction[index];
        planes.push(
            ComponentPlane::positioned(
                plane.origin_x,
                plane.origin_y,
                plane.width,
                plane.height,
                plane.samples.as_slice(),
            ),
        );
        assert(validate::plane_views(planes@) =~= validate::plane_views(before).push(
            planes@[index as int]@,
        ));
        assert(validate::plane_views(planes@) =~= expected.take(index + 1));
    }
    assert(expected.take(reconstruction@.len() as int) =~= expected);
    planes
}

fn alpha_component_plane<'a>(alpha: &'a Option<PlanarSamples>) -> (plane: Option<ComponentPlane<'a>>)
    ensures
        validate::optional_view(plane) == alpha_view(reconstruction::optional_plane(*alpha)),
{
    match alpha {
        Some(plane) => Some(
            ComponentPlane::positioned(
                plane.origin_x,
                plane.origin_y,
                plane.width,
                plane.height,
                plane.samples.as_slice(),
            ),
        ),
        None => None,
    }
}

/// Whether an executable image is the one that is expected.
pub open spec fn image_agrees(
    result: Result<DecodedImage, JxrError>,
    expected: Result<DecodedModel, JxrError>,
) -> bool {
    match (result, expected) {
        (Ok(image), Ok(expected)) => image@ == expected,
        (Err(error), Err(expected)) => error == expected,
        _ => false,
    }
}

/// Formats reconstructed planes as an image.
pub fn format_image<
    O: Fn(PixelOperator, [i64; 3]) -> Option<i64>,
    L: Fn(PlanLimit) -> Result<(), JxrError>,
    D: Fn(&DecodedImage) -> Result<(), JxrError>,
>(
    parsed: &ParsedCodestream,
    plan: &PreparedPlan,
    request: &DecodeRequest,
    reconstruction: &Vec<PlanarSamples>,
    alpha_reconstruction: &Option<PlanarSamples>,
    cpu: CpuCapabilities,
    operators: &O,
    limits: &L,
    layout: &D,
) -> (result: Result<DecodedImage, JxrError>)
    requires
        premultiply::usable(*operators),
        forall|limit: PlanLimit| call_requires(*limits, (limit,)),
        forall|image: &DecodedImage| call_requires(*layout, (image,)),
    ensures
        result matches Ok(image) ==> image.info.metadata == plan.info.metadata,
        forall|
            rule: spec_fn(PixelOperator, Seq<int>) -> Option<int>,
            limit_rule: spec_fn(PlanLimit) -> Result<(), JxrError>,
            layout_rule: spec_fn(DecodedModel) -> Result<(), JxrError>,
        |
            #[trigger] premultiply::computes(*operators, rule) && #[trigger] plan::limited(
                *limits,
                limit_rule,
            ) && #[trigger] inspects(*layout, layout_rule) ==> image_agrees(
                result,
                image_of(
                    parsed@,
                    plan@,
                    *request,
                    reconstruction::plane_samples(reconstruction@),
                    reconstruction::optional_plane(*alpha_reconstruction),
                    cpu,
                    rule,
                    limit_rule,
                    layout_rule,
                ),
            ),
{
    let planes: Vec<ComponentPlane<'_>> = component_planes(reconstruction);
    let alpha_plane: Option<ComponentPlane<'_>> = alpha_component_plane(alpha_reconstruction);
    let policy: OutputFormatRequest = prepare_output_format(parsed, plan, request)?;
    let (samples, planes, used_simd) = if is_planar(policy.output_color) {
        match format_planar_yuv(planes.as_slice(), alpha_plane, policy, cpu) {
            Ok(output) => (output.samples, output.planes, output.used_simd),
            Err(error) => return Err(map_output_error(error)),
        }
    } else {
        match format_components_with_cpu(planes.as_slice(), alpha_plane, policy, cpu, operators) {
            Ok((samples, used_simd)) => (
                samples,
                describe_whole_plane(request.output, plan.decoded_region)?,
                used_simd,
            ),
            Err(error) => return Err(map_output_error(error)),
        }
    };
    limits(PlanLimit::HostAllocationBytes(samples.byte_len()))?;
    let image: DecodedImage = DecodedImage {
        info: plan.info.clone(),
        decoded_region: plan.decoded_region,
        format: request.output,
        planes,
        samples,
        report: cpu_report(
            request.backend,
            used_simd,
            cpu.accelerates_i32() && plan.info.primary.bands.has_high_pass(),
        ),
    };
    layout(&image)?;
    Ok(image)
}

/// What is known of an image that was decoded into storage that was already there.
pub struct StoredModel {
    /// Description of the source.
    pub info: InfoModel,
    /// Decoded region.
    pub decoded_region: Rect,
    /// Storage of the pixels.
    pub format: PixelFormat,
    /// Places of the planes.
    pub planes: Seq<PlaneDescriptor>,
    /// Route of the decode.
    pub report: ReportModel,
}

impl View for CpuDecodeIntoOutput {
    type V = StoredModel;

    open spec fn view(&self) -> StoredModel {
        StoredModel {
            info: self.info@,
            decoded_region: self.decoded_region,
            format: self.format,
            planes: self.planes@,
            report: self.report@,
        }
    }
}

/// The samples that are put into storage of a kind and size, and where the planes lie.
pub open spec fn stored_into(
    planes: Seq<PlaneView>,
    alpha: Option<PlaneView>,
    policy: OutputFormatRequest,
    region: Rect,
    destination: SamplesModel,
    rule: spec_fn(PixelOperator, Seq<int>) -> Option<int>,
) -> Result<(SamplesModel, Seq<PlaneDescriptor>), JxrError> {
    let separate = planar::planar_formatted_into(planes, alpha, policy, destination);
    let samples = packing::formatted_into(planes, alpha, policy, destination, rule);
    let whole = whole_plane(policy.pixel_format, region);
    if is_planar(policy.output_color) {
        match separate {
            Err(error) => Err(map_output_error(error)),
            Ok(output) => Ok(
                (
                    SamplesModel { storage: destination.storage, values: output.values },
                    output.planes,
                ),
            ),
        }
    } else if samples is Err {
        Err(map_output_error(samples->Err_0))
    } else if whole is Err {
        Err(whole->Err_0)
    } else {
        Ok((samples->Ok_0, whole->Ok_0))
    }
}

/// The samples that reconstructed planes are formatted to in storage of a kind and size, and what
/// is known of them.
pub open spec fn stored_image_of(
    parsed: ParsedModel,
    plan: PlanModel,
    request: DecodeRequest,
    reconstruction: Seq<PlaneSamples>,
    alpha: Option<PlaneSamples>,
    cpu: CpuCapabilities,
    destination: SamplesModel,
    rule: spec_fn(PixelOperator, Seq<int>) -> Option<int>,
) -> Result<(SamplesModel, StoredModel), JxrError> {
    let policy = policy::policy_of(parsed, plan, request);
    let planes = views_of(reconstruction);
    let alpha_plane = alpha_view(alpha);
    let output = stored_into(
        planes,
        alpha_plane,
        policy->Ok_0,
        plan.decoded_region,
        destination,
        rule,
    );
    if policy is Err {
        Err(policy->Err_0)
    } else if output is Err {
        Err(output->Err_0)
    } else {
        Ok(
            (
                output->Ok_0.0,
                StoredModel {
                    info: plan.info,
                    decoded_region: plan.decoded_region,
                    format: request.output,
                    planes: output->Ok_0.1,
                    report: report::report_of(
                        request.backend,
                        !is_planar(policy->Ok_0.output_color) && packing::packs_with_vectors(
                            cpu,
                            policy->Ok_0,
                            alpha is Some,
                        ),
                        cpu.vectorizes() && plan.info.primary.bands.has_high_pass(),
                    ),
                },
            ),
        )
    }
}

/// Whether an executable result and the storage left behind are the ones that are expected.
pub open spec fn stored_image_agrees(
    result: Result<CpuDecodeIntoOutput, JxrError>,
    destination: SamplesModel,
    expected: Result<(SamplesModel, StoredModel), JxrError>,
) -> bool {
    match (result, expected) {
        (Ok(output), Ok(expected)) => (destination, output@) == expected,
        (Err(error), Err(expected)) => error == expected,
        _ => false,
    }
}

/// Formats reconstructed planes into storage that is already there.
pub fn format_image_into<O: Fn(PixelOperator, [i64; 3]) -> Option<i64>>(
    parsed: &ParsedCodestream,
    plan: &PreparedPlan,
    request: &DecodeRequest,
    reconstruction: &Vec<PlanarSamples>,
    alpha_reconstruction: &Option<PlanarSamples>,
    cpu: CpuCapabilities,
    destination: &mut DecodedSamples,
    operators: &O,
) -> (result: Result<CpuDecodeIntoOutput, JxrError>)
    requires
        premultiply::usable(*operators),
    ensures
        final(destination)@.storage == old(destination)@.storage,
        final(destination)@.values.len() == old(destination)@.values.len(),
        result matches Ok(output) ==> output.info.metadata == plan.info.metadata,
        forall|rule: spec_fn(PixelOperator, Seq<int>) -> Option<int>| #[trigger]
            premultiply::computes(*operators, rule) ==> stored_image_agrees(
                result,
                final(destination)@,
                stored_image_of(
                    parsed@,
                    plan@,
                    *request,
                    reconstruction::plane_samples(reconstruction@),
                    reconstruction::optional_plane(*alpha_reconstruction),
                    cpu,
                    old(destination)@,
                    rule,
                ),
            ),
{
    let planes: Vec<ComponentPlane<'_>> = component_planes(reconstruction);
    let alpha_plane: Option<ComponentPlane<'_>> = alpha_component_plane(alpha_reconstruction);
    let policy: OutputFormatRequest = prepare_output_format(parsed, plan, request)?;
    let (planes, used_simd) = if is_planar(policy.output_color) {
        match format_planar_yuv_into(planes.as_slice(), alpha_plane, policy, destination) {
            Ok(output) => (output.planes, output.used_simd),
            Err(error) => return Err(map_output_error(error)),
        }
    } else {
        match format_components_into_with_cpu(
            planes.as_slice(),
            alpha_plane,
            policy,
            cpu,
            destination,
            operators,
        ) {
            Ok(used_simd) => (
                describe_whole_plane(request.output, plan.decoded_region)?,
                used_simd,
            ),
            Err(error) => return Err(map_output_error(error)),
        }
    };
    Ok(
        CpuDecodeIntoOutput {
            info: plan.info.clone(),
            decoded_region: plan.decoded_region,
            format: request.output,
            planes,
            report: cpu_report(
                request.backend,
                used_simd,
                cpu.accelerates_i32() && plan.info.primary.bands.has_high_pass(),
            ),
        },
    )
}

} // verus!
