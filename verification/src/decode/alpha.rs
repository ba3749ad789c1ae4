//! Separate-alpha planning and policy for the scalar decode route.

use crate::codestream::{clone_directory, clone_headers, ParsedCodestream, ParsedModel};
use crate::header::{CodestreamHeader, ImagePlaneHeader};
use crate::metadata;
use crate::metadata::{ImageInfo, InfoModel};
use crate::plan;
use crate::plan::{DecodeRequest, PlanLimit, PlanModel, PreparedPlan};
use crate::prepare;
use crate::prepare::laws;
use crate::prepare::prepare_plan;
use crate::reconstruct::contract::{PlanarSamples, PlaneSamples};
use crate::types::{
    AlphaHandling, AlphaMode, BackendRequest, ChannelLayout, JxrError, JxrErrorKind, PixelFormat,
};
use std::ops::Range;
use vstd::prelude::*;

verus! {

/// Whether alpha is given out.
#[verifier::allow_in_spec]
pub fn alpha_action(mode: AlphaMode, handling: AlphaHandling) -> bool
    returns
        (mode != AlphaMode::Absent && handling != AlphaHandling::Drop),
{
    mode != AlphaMode::Absent && handling != AlphaHandling::Drop
}

/// The storage of the alpha plane of an output, which has one channel of the same kind.
pub open spec fn luma_storage(output: PixelFormat) -> Result<PixelFormat, JxrError> {
    match output {
        PixelFormat::BitPacked(_) => Ok(PixelFormat::BitPacked(ChannelLayout::Luma)),
        PixelFormat::U8(_) => Ok(PixelFormat::U8(ChannelLayout::Luma)),
        PixelFormat::U16(_) => Ok(PixelFormat::U16(ChannelLayout::Luma)),
        PixelFormat::I16(_) => Ok(PixelFormat::I16(ChannelLayout::Luma)),
        PixelFormat::I32(_) => Ok(PixelFormat::I32(ChannelLayout::Luma)),
        PixelFormat::F16(_) => Ok(PixelFormat::F16(ChannelLayout::Luma)),
        PixelFormat::F32(_) => Ok(PixelFormat::F32(ChannelLayout::Luma)),
        _ => Err(JxrError::new(JxrErrorKind::Unsupported, "alpha with packed pixel output")),
    }
}

/// Returns the storage of the alpha plane of an output.
pub fn luma_output(output: PixelFormat) -> (result: Result<PixelFormat, JxrError>)
    ensures
        result == luma_storage(output),
{
    match output {
        PixelFormat::BitPacked(_) => Ok(PixelFormat::BitPacked(ChannelLayout::Luma)),
        PixelFormat::U8(_) => Ok(PixelFormat::U8(ChannelLayout::Luma)),
        PixelFormat::U16(_) => Ok(PixelFormat::U16(ChannelLayout::Luma)),
        PixelFormat::I16(_) => Ok(PixelFormat::I16(ChannelLayout::Luma)),
        PixelFormat::I32(_) => Ok(PixelFormat::I32(ChannelLayout::Luma)),
        PixelFormat::F16(_) => Ok(PixelFormat::F16(ChannelLayout::Luma)),
        PixelFormat::F32(_) => Ok(PixelFormat::F32(ChannelLayout::Luma)),
        _ => Err(JxrError::new(JxrErrorKind::Unsupported, "alpha with packed pixel output")),
    }
}

/// Whether alpha that is given out was prepared.
pub open spec fn alpha_is_prepared(parsed: ParsedModel, plan: PlanModel) -> bool {
    match plan.info.alpha_mode {
        AlphaMode::Integrated => parsed.headers.alpha is Some && plan.alpha is Some,
        AlphaMode::Separate => parsed.separate_alpha_headers is Some
            && parsed.separate_alpha_directory is Some && plan.alpha is Some,
        AlphaMode::Absent => true,
    }
}

/// Whether alpha is given out, if it was prepared where it is.
pub open spec fn alpha_policy(parsed: ParsedModel, plan: PlanModel, handling: AlphaHandling) -> Result<
    bool,
    JxrError,
> {
    if alpha_action(plan.info.alpha_mode, handling) && !alpha_is_prepared(parsed, plan) {
        Err(JxrError::new(JxrErrorKind::InternalInvariant, "prepared alpha plane"))
    } else {
        Ok(alpha_action(plan.info.alpha_mode, handling))
    }
}

/// Returns whether alpha is given out.
pub fn validate_alpha_policy(
    parsed: &ParsedCodestream,
    plan: &PreparedPlan,
    handling: AlphaHandling,
) -> (result: Result<bool, JxrError>)
    ensures
        result == alpha_policy(parsed@, plan@, handling),
{
    let decode: bool = alpha_action(plan.info.alpha_mode, handling);
    if decode {
        let prepared: bool = match plan.info.alpha_mode {
            AlphaMode::Integrated => parsed.headers.alpha.is_some() && plan.alpha.is_some(),
            AlphaMode::Separate => parsed.separate_alpha_headers.is_some()
                && parsed.separate_alpha_directory.is_some() && plan.alpha.is_some(),
            AlphaMode::Absent => true,
        };
        if !prepared {
            return Err(JxrError::new(JxrErrorKind::InternalInvariant, "prepared alpha plane"));
        }
    }
    Ok(decode)
}

/// The range of the separate alpha codestream, if there is one.
pub open spec fn alpha_range(parsed: ParsedModel) -> Option<Range<usize>> {
    match parsed.annex_a {
        Some(annex) => annex.alpha_range,
        None => None,
    }
}

/// The separate alpha codestream as an input of its own.
pub open spec fn alpha_codestream(parsed: ParsedModel) -> Result<ParsedModel, JxrError> {
    if alpha_range(parsed) is None {
        Err(JxrError::new(JxrErrorKind::InternalInvariant, "separate alpha range"))
    } else if parsed.separate_alpha_headers is None {
        Err(JxrError::new(JxrErrorKind::InternalInvariant, "separate alpha headers"))
    } else if parsed.separate_alpha_directory is None {
        Err(JxrError::new(JxrErrorKind::InternalInvariant, "separate alpha directory"))
    } else {
        Ok(laws::alpha_input(parsed, alpha_range(parsed)->0))
    }
}

/// Returns the separate alpha codestream as an input of its own.
pub fn separate_alpha_codestream(parsed: &ParsedCodestream) -> (result: Result<
    ParsedCodestream,
    JxrError,
>)
    ensures
        match (result, alpha_codestream(parsed@)) {
            (Ok(alpha), Ok(expected)) => alpha@ == expected,
            (Err(error), Err(expected)) => error == expected,
            _ => false,
        },
{
    let range: Range<usize> = match &parsed.annex_a {
        Some(annex) => match &annex.alpha_range {
            Some(range) => Range { start: range.start, end: range.end },
            None => {
                return Err(
                    JxrError::new(JxrErrorKind::InternalInvariant, "separate alpha range"),
                );
            },
        },
        None => {
            return Err(JxrError::new(JxrErrorKind::InternalInvariant, "separate alpha range"));
        },
    };
    let headers = match clone_headers(&parsed.separate_alpha_headers) {
        Some(headers) => headers,
        None => {
            return Err(JxrError::new(JxrErrorKind::InternalInvariant, "separate alpha headers"));
        },
    };
    let directory = match clone_directory(&parsed.separate_alpha_directory) {
        Some(directory) => directory,
        None => {
            return Err(
                JxrError::new(JxrErrorKind::InternalInvariant, "separate alpha directory"),
            );
        },
    };
    Ok(
        ParsedCodestream {
            codestream_range: range,
            headers,
            directory,
            separate_alpha_headers: None,
            separate_alpha_directory: None,
            annex_a: None,
        },
    )
}

/// Why a separate alpha codestream does not fit its image, if it does not.
pub open spec fn compatibility_error(primary: ParsedModel, alpha: ParsedModel) -> Option<JxrError> {
    let image = primary.headers.image;
    let plane = primary.headers.primary;
    let alpha_image = alpha.headers.image;
    let alpha_plane = alpha.headers.primary;
    if alpha_image.width != image.width || alpha_image.height != image.height
        || alpha_image.margins != image.margins {
        Some(JxrError::new(JxrErrorKind::InvalidSyntax, "separate alpha coded geometry"))
    } else if alpha_image.output_bit_depth != image.output_bit_depth || alpha_plane.shift_bits
        != plane.shift_bits || alpha_plane.mantissa_length != plane.mantissa_length
        || alpha_plane.exponent_bias != plane.exponent_bias || alpha_plane.scaled != plane.scaled {
        Some(JxrError::new(JxrErrorKind::InvalidSyntax, "separate alpha output depth"))
    } else if alpha_image.output_color_format != 0 || alpha_plane.internal_color_format != 0
        || alpha_plane.components != 1 || alpha.headers.alpha is Some {
        Some(JxrError::new(JxrErrorKind::Unsupported, "separate alpha color format"))
    } else {
        None
    }
}

/// Checks that a separate alpha codestream fits its image.
pub fn validate_separate_alpha_compatibility(
    primary: &ParsedCodestream,
    alpha: &ParsedCodestream,
) -> (result: Result<(), JxrError>)
    ensures
        result == (match compatibility_error(primary@, alpha@) {
            Some(error) => Err::<(), JxrError>(error),
            None => Ok(()),
        }),
{
    let image: &CodestreamHeader = &primary.headers.image;
    let plane: &ImagePlaneHeader = &primary.headers.primary;
    let alpha_image: &CodestreamHeader = &alpha.headers.image;
    let alpha_plane: &ImagePlaneHeader = &alpha.headers.primary;
    let same_margins: bool = alpha_image.margins[0] == image.margins[0] && alpha_image.margins[1]
        == image.margins[1] && alpha_image.margins[2] == image.margins[2] && alpha_image.margins[3]
        == image.margins[3];
    proof {
        if same_margins {
            assert(alpha_image.margins@ =~= image.margins@);
        }
    }
    if alpha_image.width != image.width || alpha_image.height != image.height || !same_margins {
        return Err(JxrError::new(JxrErrorKind::InvalidSyntax, "separate alpha coded geometry"));
    }
    if alpha_image.output_bit_depth != image.output_bit_depth || alpha_plane.shift_bits
        != plane.shift_bits || alpha_plane.mantissa_length != plane.mantissa_length
        || alpha_plane.exponent_bias != plane.exponent_bias || alpha_plane.scaled != plane.scaled {
        return Err(JxrError::new(JxrErrorKind::InvalidSyntax, "separate alpha output depth"));
    }
    if alpha_image.output_color_format != 0 || alpha_plane.internal_color_format != 0
        || alpha_plane.components != 1 || alpha.headers.alpha.is_some() {
        return Err(JxrError::new(JxrErrorKind::Unsupported, "separate alpha color format"));
    }
    Ok(())
}

/// The request for the alpha plane of a request.
pub open spec fn alpha_request(request: DecodeRequest) -> DecodeRequest {
    DecodeRequest {
        output: luma_storage(request.output)->Ok_0,
        region: request.region,
        scale: request.scale,
        alpha: AlphaHandling::Drop,
        backend: BackendRequest::Cpu,
    }
}

/// The plan for the separate alpha codestream of an image.
pub open spec fn alpha_planned(
    input_len: usize,
    parsed: ParsedModel,
    primary_plan: PlanModel,
    request: DecodeRequest,
    rule: spec_fn(InfoModel) -> bool,
    limits: spec_fn(PlanLimit) -> Result<(), JxrError>,
) -> Result<(ParsedModel, PlanModel), JxrError> {
    let alpha = alpha_codestream(parsed);
    let mismatch = compatibility_error(parsed, alpha->Ok_0);
    let storage = luma_storage(request.output);
    let planned = prepare::plan_of(input_len, alpha->Ok_0, alpha_request(request), rule, limits);
    if alpha is Err {
        Err(alpha->Err_0)
    } else if mismatch is Some {
        Err(mismatch->0)
    } else if storage is Err {
        Err(storage->Err_0)
    } else if planned is Err {
        Err(planned->Err_0)
    } else if planned->Ok_0.output_region != primary_plan.output_region {
        Err(JxrError::new(JxrErrorKind::InvalidSyntax, "separate alpha output geometry"))
    } else {
        Ok((alpha->Ok_0, planned->Ok_0))
    }
}

/// Whether the separate alpha codestream of an input, if there is one, can be planned.
pub open spec fn alpha_is_plannable(parsed: ParsedModel) -> bool {
    alpha_codestream(parsed) matches Ok(alpha) ==> prepare::plannable(alpha)
}

/// The separate alpha codestream of every parsed input can be planned.
pub proof fn lemma_parsed_alpha_is_plannable(bytes: Seq<u8>)
    requires
        crate::codestream::parsed_of(bytes) is Ok,
        bytes.len() <= usize::MAX,
    ensures
        alpha_is_plannable(crate::codestream::parsed_of(bytes)->Ok_0),
{
    laws::lemma_parsed_is_plannable(bytes);
}

/// Plans the separate alpha codestream of an image.
pub fn prepare_separate_alpha<
    C: Fn(&ImageInfo) -> bool,
    L: Fn(PlanLimit) -> Result<(), JxrError>,
>(
    input_len: usize,
    parsed: &ParsedCodestream,
    primary_plan: &PreparedPlan,
    request: &DecodeRequest,
    consistent: &C,
    limits: &L,
) -> (result: Result<(ParsedCodestream, PreparedPlan), JxrError>)
    requires
        alpha_is_plannable(parsed@),
        forall|info: &ImageInfo| call_requires(*consistent, (info,)),
        forall|limit: PlanLimit| call_requires(*limits, (limit,)),
    ensures
        forall|
            rule: spec_fn(InfoModel) -> bool,
            limit_rule: spec_fn(PlanLimit) -> Result<(), JxrError>,
        |
            #[trigger] metadata::checks(*consistent, rule) && #[trigger] plan::limited(
                *limits,
                limit_rule,
            ) ==> match (
                result,
                alpha_planned(
                    input_len,
                    parsed@,
                    primary_plan@,
                    *request,
                    rule,
                    limit_rule,
                ),
            ) {
                (Ok((alpha, plan)), Ok(expected)) => (alpha@, plan@) == expected,
                (Err(error), Err(expected)) => error == expected,
                _ => false,
            },
{
    let alpha: ParsedCodestream = separate_alpha_codestream(parsed)?;
    validate_separate_alpha_compatibility(parsed, &alpha)?;
    let request: DecodeRequest = DecodeRequest {
        output: luma_output(request.output)?,
        region: request.region,
        scale: request.scale,
        alpha: AlphaHandling::Drop,
        backend: BackendRequest::Cpu,
    };
    let plan: PreparedPlan = prepare_plan(input_len, &alpha, &request, consistent, limits)?;
    if plan.output_region != primary_plan.output_region {
        return Err(JxrError::new(JxrErrorKind::InvalidSyntax, "separate alpha output geometry"));
    }
    Ok((alpha, plan))
}

/// The alpha plane among the components of a separate alpha codestream.
pub open spec fn alpha_component(components: Seq<PlaneSamples>) -> Result<PlaneSamples, JxrError> {
    if components.len() != 1 {
        Err(JxrError::new(JxrErrorKind::InternalInvariant, "separate alpha component count"))
    } else {
        Ok(components[0])
    }
}

/// Returns the alpha plane among the components of a separate alpha codestream.
pub fn take_alpha_component(components: Vec<PlanarSamples>) -> (result: Result<
    PlanarSamples,
    JxrError,
>)
    ensures
        match result {
            Ok(plane) => components@.len() == 1 && plane == components@[0],
            Err(error) => components@.len() != 1 && error == JxrError::new(
                JxrErrorKind::InternalInvariant,
                "separate alpha component count",
            ),
        },
{
    let mut components: Vec<PlanarSamples> = components;
    if components.len() != 1 {
        return Err(
            JxrError::new(JxrErrorKind::InternalInvariant, "separate alpha component count"),
        );
    }
    Ok(components.remove(0))
}

} // verus!
