//! The output policy that parsed headers, a plan and a request ask for.

use crate::codestream::{ParsedCodestream, ParsedModel};
use crate::decode::alpha::alpha_action;
use crate::header::types::{ImageModel, PlaneModel};
use crate::header::{CodestreamHeader, ImagePlaneHeader};
use crate::output_format::error::OutputFormatError;
use crate::output_format::request;
use crate::output_format::request::{AlphaFormatRequest, OutputBitDepth, OutputFormatRequest};
use crate::output_format::validate;
use crate::output_format::validate::validate_output_policy;
use crate::plan::{DecodeRequest, PlanModel, PreparedPlan};
use crate::types::{
    AlphaHandling, ChromaSampling, ColorFormat, CropWindow, DecodeScale, JxrError, JxrErrorKind,
};
use vstd::prelude::*;

verus! {

/// The decode failure for a formatting failure.
#[verifier::allow_in_spec]
pub fn map_output_error(error: OutputFormatError) -> JxrError
    returns
        (JxrError {
            kind: match error {
                OutputFormatError::UnsupportedCombination { .. } => JxrErrorKind::Unsupported,
                OutputFormatError::ArithmeticOverflow { .. } => JxrErrorKind::ArithmeticOverflow,
                OutputFormatError::InvalidPlane { .. }
                | OutputFormatError::ComponentCount { .. }
                | OutputFormatError::CropOutsidePlane { .. } => JxrErrorKind::InternalInvariant,
                OutputFormatError::AlphaMismatch => JxrErrorKind::InvalidRequest,
                OutputFormatError::InvalidFloatingPointSample => JxrErrorKind::InvalidSyntax,
            },
            operation: "format decoded samples",
        }),
{
    let kind: JxrErrorKind = match error {
        OutputFormatError::UnsupportedCombination { .. } => JxrErrorKind::Unsupported,
        OutputFormatError::ArithmeticOverflow { .. } => JxrErrorKind::ArithmeticOverflow,
        OutputFormatError::InvalidPlane { .. } | OutputFormatError::ComponentCount { .. }
        | OutputFormatError::CropOutsidePlane { .. } => JxrErrorKind::InternalInvariant,
        OutputFormatError::AlphaMismatch => JxrErrorKind::InvalidRequest,
        OutputFormatError::InvalidFloatingPointSample => JxrErrorKind::InvalidSyntax,
    };
    JxrError::new(kind, "format decoded samples")
}

/// The output colour format that an image header announces.
pub open spec fn output_color_of(code: u8, components: u16) -> Result<ColorFormat, JxrError> {
    if code == 0 {
        Ok(ColorFormat::Luma)
    } else if code == 1 {
        Ok(ColorFormat::Yuv(ChromaSampling::Cs420))
    } else if code == 2 {
        Ok(ColorFormat::Yuv(ChromaSampling::Cs422))
    } else if code == 3 {
        Ok(ColorFormat::Yuv(ChromaSampling::Cs444))
    } else if code == 4 {
        Ok(ColorFormat::Cmyk)
    } else if code == 5 {
        Ok(ColorFormat::CmykDirect)
    } else if code == 6 {
        Ok(ColorFormat::NComponent(components))
    } else if code == 7 {
        Ok(ColorFormat::Rgb)
    } else if code == 8 {
        Ok(ColorFormat::Rgbe)
    } else {
        Err(JxrError::new(JxrErrorKind::InvalidSyntax, "output color format"))
    }
}

fn output_color(parsed: &ParsedCodestream) -> (result: Result<ColorFormat, JxrError>)
    ensures
        result == output_color_of(
            parsed@.headers.image.output_color_format,
            parsed@.headers.primary.components,
        ),
{
    match parsed.headers.image.output_color_format {
        0 => Ok(ColorFormat::Luma),
        1 => Ok(ColorFormat::Yuv(ChromaSampling::Cs420)),
        2 => Ok(ColorFormat::Yuv(ChromaSampling::Cs422)),
        3 => Ok(ColorFormat::Yuv(ChromaSampling::Cs444)),
        4 => Ok(ColorFormat::Cmyk),
        5 => Ok(ColorFormat::CmykDirect),
        6 => Ok(ColorFormat::NComponent(parsed.headers.primary.components)),
        7 => Ok(ColorFormat::Rgb),
        8 => Ok(ColorFormat::Rgbe),
        _ => Err(JxrError::new(JxrErrorKind::InvalidSyntax, "output color format")),
    }
}

/// The colour format of reconstructed components. Subsampled chroma is interpolated unless the
/// output has the same subsampling; at the smallest resolution it has the size of luma anyway.
#[verifier::allow_in_spec]
pub fn reconstructed_color(color: ColorFormat, output: ColorFormat, scale: DecodeScale) -> ColorFormat
    returns
        (if color is Yuv && (scale == DecodeScale::Sixteenth || color != output) {
            ColorFormat::Yuv(ChromaSampling::Cs444)
        } else {
            color
        }),
{
    match color {
        ColorFormat::Yuv(_) => if scale == DecodeScale::Sixteenth || color != output {
            ColorFormat::Yuv(ChromaSampling::Cs444)
        } else {
            color
        },
        _ => color,
    }
}

/// How an alpha plane is formatted.
pub open spec fn alpha_format_of(image: ImageModel, plane: PlaneModel) -> Result<
    Option<AlphaFormatRequest>,
    JxrError,
> {
    match request::depth_of(
        image.output_bit_depth,
        plane.shift_bits,
        plane.mantissa_length,
        plane.exponent_bias,
    ) {
        None => Err(
            JxrError::new(JxrErrorKind::Unsupported, "reserved alpha output bit-depth code"),
        ),
        Some(bit_depth) => Ok(Some(AlphaFormatRequest { bit_depth, scaled: plane.scaled })),
    }
}

/// How the alpha plane of an input is formatted, if it has one: the integrated plane, or else the
/// one of the separate codestream.
pub open spec fn alpha_format(parsed: ParsedModel) -> Result<Option<AlphaFormatRequest>, JxrError> {
    match parsed.headers.alpha {
        Some(plane) => alpha_format_of(parsed.headers.image, plane),
        None => match parsed.separate_alpha_headers {
            Some(headers) => alpha_format_of(
                headers.image,
                match headers.alpha {
                    Some(plane) => plane,
                    None => headers.primary,
                },
            ),
            None => Ok(None),
        },
    }
}

fn plane_alpha_format(image: &CodestreamHeader, plane: &ImagePlaneHeader) -> (result: Result<
    Option<AlphaFormatRequest>,
    JxrError,
>)
    ensures
        result == alpha_format_of(image@, plane@),
{
    match OutputBitDepth::from_header_fields(
        image.output_bit_depth,
        plane.shift_bits,
        plane.mantissa_length,
        plane.exponent_bias,
    ) {
        None => Err(
            JxrError::new(JxrErrorKind::Unsupported, "reserved alpha output bit-depth code"),
        ),
        Some(bit_depth) => Ok(Some(AlphaFormatRequest { bit_depth, scaled: plane.scaled })),
    }
}

fn input_alpha_format(parsed: &ParsedCodestream) -> (result: Result<
    Option<AlphaFormatRequest>,
    JxrError,
>)
    ensures
        result == alpha_format(parsed@),
{
    match &parsed.headers.alpha {
        Some(plane) => plane_alpha_format(&parsed.headers.image, plane),
        None => match &parsed.separate_alpha_headers {
            Some(headers) => match &headers.alpha {
                Some(plane) => plane_alpha_format(&headers.image, plane),
                None => plane_alpha_format(&headers.image, &headers.primary),
            },
            None => Ok(None),
        },
    }
}

/// The window of the extended plane that is given out.
pub open spec fn crop_of(parsed: ParsedModel, plan: PlanModel) -> Result<CropWindow, JxrError> {
    let margins = parsed.headers.image.margins;
    let x = margins[1] + plan.output_region.x;
    let y = margins[0] + plan.output_region.y;
    let denominator = plan.scale.denominator() as int;
    if x > u32::MAX {
        Err(JxrError::arithmetic("output crop x"))
    } else if y > u32::MAX {
        Err(JxrError::arithmetic("output crop y"))
    } else {
        Ok(
            CropWindow {
                x: (x / denominator) as u32,
                y: (y / denominator) as u32,
                width: plan.decoded_region.w,
                height: plan.decoded_region.h,
            },
        )
    }
}

fn output_crop(parsed: &ParsedCodestream, plan: &PreparedPlan) -> (result: Result<
    CropWindow,
    JxrError,
>)
    ensures
        result == crop_of(parsed@, plan@),
{
    let denominator: u32 = plan.scale.denominator();
    let x: u32 = match (parsed.headers.image.margins[1] as u32).checked_add(plan.output_region.x) {
        Some(x) => x,
        None => return Err(JxrError::arithmetic("output crop x")),
    };
    let y: u32 = match (parsed.headers.image.margins[0] as u32).checked_add(plan.output_region.y) {
        Some(y) => y,
        None => return Err(JxrError::arithmetic("output crop y")),
    };
    Ok(
        CropWindow {
            x: x / denominator,
            y: y / denominator,
            width: plan.decoded_region.w,
            height: plan.decoded_region.h,
        },
    )
}

/// The output policy of an input, a plan and a request.
pub open spec fn policy_of(parsed: ParsedModel, plan: PlanModel, request: DecodeRequest) -> Result<
    OutputFormatRequest,
    JxrError,
> {
    let color = output_color_of(
        parsed.headers.image.output_color_format,
        parsed.headers.primary.components,
    );
    let depth = request::depth_of(
        parsed.headers.image.output_bit_depth,
        parsed.headers.primary.shift_bits,
        parsed.headers.primary.mantissa_length,
        parsed.headers.primary.exponent_bias,
    );
    let alpha = alpha_format(parsed);
    let crop = crop_of(parsed, plan);
    let policy = OutputFormatRequest {
        internal_color: reconstructed_color(
            plan.info.primary.color_format,
            color->Ok_0,
            plan.scale,
        ),
        output_color: color->Ok_0,
        bit_depth: if depth->0 == OutputBitDepth::U10 && color->Ok_0 == ColorFormat::Rgb {
            OutputBitDepth::Rgb101010
        } else {
            depth->0
        },
        pixel_format: request.output,
        scaled: parsed.headers.primary.scaled,
        alpha_format: alpha->Ok_0,
        red_blue_not_swapped: parsed.headers.image.flags.flag(6),
        premultiply_alpha: request.alpha == AlphaHandling::Premultiply
            && !plan.info.premultiplied_alpha,
        crop: crop->Ok_0,
    };
    let refused = validate::matrix_error(
        policy,
        alpha_action(plan.info.alpha_mode, request.alpha),
    );
    if color is Err {
        Err(color->Err_0)
    } else if depth is None {
        Err(JxrError::new(JxrErrorKind::Unsupported, "reserved output bit-depth code"))
    } else if alpha is Err {
        Err(alpha->Err_0)
    } else if crop is Err {
        Err(crop->Err_0)
    } else if refused is Some {
        Err(map_output_error(refused->0))
    } else {
        Ok(policy)
    }
}

/// Build the exact device-neutral output policy used by CPU and accelerator stores.
pub fn prepare_output_format(
    parsed: &ParsedCodestream,
    plan: &PreparedPlan,
    request: &DecodeRequest,
) -> (result: Result<OutputFormatRequest, JxrError>)
    ensures
        result == policy_of(parsed@, plan@, *request),
{
    let output_color: ColorFormat = output_color(parsed)?;
    let bit_depth: OutputBitDepth = match OutputBitDepth::from_header_fields(
        parsed.headers.image.output_bit_depth,
        parsed.headers.primary.shift_bits,
        parsed.headers.primary.mantissa_length,
        parsed.headers.primary.exponent_bias,
    ) {
        Some(bit_depth) => bit_depth,
        None => {
            return Err(
                JxrError::new(JxrErrorKind::Unsupported, "reserved output bit-depth code"),
            );
        },
    };
    let bit_depth: OutputBitDepth = if bit_depth == OutputBitDepth::U10 && output_color
        == ColorFormat::Rgb {
        OutputBitDepth::Rgb101010
    } else {
        bit_depth
    };
    let output: OutputFormatRequest = OutputFormatRequest {
        internal_color: reconstructed_color(
            plan.info.primary.color_format,
            output_color,
            plan.scale,
        ),
        output_color,
        bit_depth,
        pixel_format: request.output,
        scaled: parsed.headers.primary.scaled,
        alpha_format: input_alpha_format(parsed)?,
        red_blue_not_swapped: parsed.headers.image.flags.red_blue_not_swapped(),
        premultiply_alpha: request.alpha == AlphaHandling::Premultiply
            && !plan.info.premultiplied_alpha,
        crop: output_crop(parsed, plan)?,
    };
    match validate_output_policy(output, alpha_action(plan.info.alpha_mode, request.alpha)) {
        Ok(_) => Ok(output),
        Err(error) => Err(map_output_error(error)),
    }
}

} // verus!
