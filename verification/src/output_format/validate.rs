//! Validation of output-format matrix and borrowed component extents.

use crate::output_format::error::OutputFormatError;
use crate::output_format::request::{
    ComponentPlane, OutputBitDepth, OutputFormatRequest, PlaneView,
};
use crate::types::{ChannelLayout, ChromaSampling, ColorFormat, CropWindow, PixelFormat};
use vstd::prelude::*;

verus! {

/// Whether a layout has an alpha channel.
#[verifier::allow_in_spec]
pub fn layout_has_alpha(layout: ChannelLayout) -> bool
    returns
        (match layout {
            ChannelLayout::LumaAlpha | ChannelLayout::Yuva(_) | ChannelLayout::Rgba
            | ChannelLayout::Bgra | ChannelLayout::Cmyka | ChannelLayout::NComponentAlpha(_) => true,
            _ => false,
        }),
{
    match layout {
        ChannelLayout::LumaAlpha | ChannelLayout::Yuva(_) | ChannelLayout::Rgba
        | ChannelLayout::Bgra | ChannelLayout::Cmyka | ChannelLayout::NComponentAlpha(_) => true,
        _ => false,
    }
}

/// Whether samples of a bit depth are stored in a pixel format.
#[verifier::allow_in_spec]
pub fn depth_fits_storage(depth: OutputBitDepth, format: PixelFormat) -> bool
    returns
        (match depth {
            OutputBitDepth::Bit1White | OutputBitDepth::Bit1Black => format
                == PixelFormat::BitPacked(ChannelLayout::Luma),
            OutputBitDepth::U8 => match format {
                PixelFormat::U8(_) | PixelFormat::Rgbe => true,
                _ => false,
            },
            OutputBitDepth::U10 | OutputBitDepth::U16 { .. } => match format {
                PixelFormat::U16(_) => true,
                _ => false,
            },
            OutputBitDepth::I16 { .. } => match format {
                PixelFormat::I16(_) => true,
                _ => false,
            },
            OutputBitDepth::I32 { .. } => match format {
                PixelFormat::I32(_) => true,
                _ => false,
            },
            OutputBitDepth::F16 => match format {
                PixelFormat::F16(_) => true,
                _ => false,
            },
            OutputBitDepth::F32 { .. } => match format {
                PixelFormat::F32(_) => true,
                _ => false,
            },
            OutputBitDepth::Rgb555 => format == PixelFormat::Rgb555,
            OutputBitDepth::Rgb565 => format == PixelFormat::Rgb565,
            OutputBitDepth::Rgb101010 => format == PixelFormat::Rgb101010,
        }),
{
    match depth {
        OutputBitDepth::Bit1White | OutputBitDepth::Bit1Black => format == PixelFormat::BitPacked(
            ChannelLayout::Luma,
        ),
        OutputBitDepth::U8 => match format {
            PixelFormat::U8(_) | PixelFormat::Rgbe => true,
            _ => false,
        },
        OutputBitDepth::U10 | OutputBitDepth::U16 { .. } => match format {
            PixelFormat::U16(_) => true,
            _ => false,
        },
        OutputBitDepth::I16 { .. } => match format {
            PixelFormat::I16(_) => true,
            _ => false,
        },
        OutputBitDepth::I32 { .. } => match format {
            PixelFormat::I32(_) => true,
            _ => false,
        },
        OutputBitDepth::F16 => match format {
            PixelFormat::F16(_) => true,
            _ => false,
        },
        OutputBitDepth::F32 { .. } => match format {
            PixelFormat::F32(_) => true,
            _ => false,
        },
        OutputBitDepth::Rgb555 => format == PixelFormat::Rgb555,
        OutputBitDepth::Rgb565 => format == PixelFormat::Rgb565,
        OutputBitDepth::Rgb101010 => format == PixelFormat::Rgb101010,
    }
}

/// Whether a pixel format has the channels of an output colour format.
#[verifier::allow_in_spec]
pub fn color_fits_layout(color: ColorFormat, format: PixelFormat) -> bool
    returns
        (match color {
            ColorFormat::Luma => format.layout() == ChannelLayout::Luma || format.layout()
                == ChannelLayout::LumaAlpha,
            ColorFormat::Rgb => match format.layout() {
                ChannelLayout::Rgb | ChannelLayout::Rgbx | ChannelLayout::Rgba | ChannelLayout::Bgr
                | ChannelLayout::Bgrx | ChannelLayout::Bgra => true,
                _ => false,
            },
            ColorFormat::Yuv(sampling) => format.layout() == ChannelLayout::Yuv(sampling)
                || format.layout() == ChannelLayout::Yuva(sampling),
            ColorFormat::Cmyk | ColorFormat::CmykDirect => format.layout() == ChannelLayout::Cmyk
                || format.layout() == ChannelLayout::Cmyka,
            ColorFormat::Rgbe => format == PixelFormat::Rgbe,
            ColorFormat::NComponent(count) => format.layout() == ChannelLayout::NComponent(count)
                || format.layout() == ChannelLayout::NComponentAlpha(count),
            ColorFormat::YuvK => false,
        }),
{
    match color {
        ColorFormat::Luma => format.layout() == ChannelLayout::Luma || format.layout()
            == ChannelLayout::LumaAlpha,
        ColorFormat::Rgb => match format.layout() {
            ChannelLayout::Rgb | ChannelLayout::Rgbx | ChannelLayout::Rgba | ChannelLayout::Bgr
            | ChannelLayout::Bgrx | ChannelLayout::Bgra => true,
            _ => false,
        },
        ColorFormat::Yuv(sampling) => format.layout() == ChannelLayout::Yuv(sampling)
            || format.layout() == ChannelLayout::Yuva(sampling),
        ColorFormat::Cmyk | ColorFormat::CmykDirect => format.layout() == ChannelLayout::Cmyk
            || format.layout() == ChannelLayout::Cmyka,
        ColorFormat::Rgbe => format == PixelFormat::Rgbe,
        ColorFormat::NComponent(count) => format.layout() == ChannelLayout::NComponent(count)
            || format.layout() == ChannelLayout::NComponentAlpha(count),
        ColorFormat::YuvK => false,
    }
}

/// Whether there is a conversion between two colour formats at a bit depth.
#[verifier::allow_in_spec]
pub fn conversion_exists(
    internal: ColorFormat,
    output: ColorFormat,
    depth: OutputBitDepth,
) -> bool
    returns
        (match (internal, output) {
            (ColorFormat::Luma, ColorFormat::Rgb) => match depth {
                OutputBitDepth::F16 | OutputBitDepth::F32 { .. } => false,
                _ => true,
            },
            (ColorFormat::Luma, ColorFormat::Luma)
            | (ColorFormat::Yuv(ChromaSampling::Cs444), ColorFormat::Rgb)
            | (ColorFormat::Yuv(ChromaSampling::Cs444), ColorFormat::Rgbe)
            | (ColorFormat::YuvK, ColorFormat::Cmyk)
            | (ColorFormat::YuvK, ColorFormat::CmykDirect) => true,
            (ColorFormat::Yuv(input), ColorFormat::Yuv(output)) => input == output,
            (ColorFormat::NComponent(input), ColorFormat::NComponent(output)) => input == output,
            _ => false,
        }),
{
    match (internal, output) {
        (ColorFormat::Luma, ColorFormat::Rgb) => match depth {
            OutputBitDepth::F16 | OutputBitDepth::F32 { .. } => false,
            _ => true,
        },
        (ColorFormat::Luma, ColorFormat::Luma)
        | (ColorFormat::Yuv(ChromaSampling::Cs444), ColorFormat::Rgb)
        | (ColorFormat::Yuv(ChromaSampling::Cs444), ColorFormat::Rgbe)
        | (ColorFormat::YuvK, ColorFormat::Cmyk)
        | (ColorFormat::YuvK, ColorFormat::CmykDirect) => true,
        (ColorFormat::Yuv(input), ColorFormat::Yuv(output)) => input == output,
        (ColorFormat::NComponent(input), ColorFormat::NComponent(output)) => input == output,
        _ => false,
    }
}

/// Whether an output colour format is defined at a bit depth.
#[verifier::allow_in_spec]
pub fn color_has_depth(color: ColorFormat, depth: OutputBitDepth) -> bool
    returns
        (match color {
            ColorFormat::Luma => match depth {
                OutputBitDepth::Rgb555 | OutputBitDepth::Rgb565
                | OutputBitDepth::Rgb101010 => false,
                _ => true,
            },
            ColorFormat::Rgb => true,
            ColorFormat::Yuv(_) => match depth {
                OutputBitDepth::U8 | OutputBitDepth::U10 | OutputBitDepth::U16 { .. }
                | OutputBitDepth::I16 { .. } => true,
                _ => false,
            },
            ColorFormat::Rgbe => depth == OutputBitDepth::U8,
            ColorFormat::Cmyk | ColorFormat::CmykDirect | ColorFormat::NComponent(_) => match depth {
                OutputBitDepth::U8 | OutputBitDepth::U16 { .. } => true,
                _ => false,
            },
            ColorFormat::YuvK => false,
        }),
{
    match color {
        ColorFormat::Luma => match depth {
            OutputBitDepth::Rgb555 | OutputBitDepth::Rgb565 | OutputBitDepth::Rgb101010 => false,
            _ => true,
        },
        ColorFormat::Rgb => true,
        ColorFormat::Yuv(_) => match depth {
            OutputBitDepth::U8 | OutputBitDepth::U10 | OutputBitDepth::U16 { .. }
            | OutputBitDepth::I16 { .. } => true,
            _ => false,
        },
        ColorFormat::Rgbe => depth == OutputBitDepth::U8,
        ColorFormat::Cmyk | ColorFormat::CmykDirect | ColorFormat::NComponent(_) => match depth {
            OutputBitDepth::U8 | OutputBitDepth::U16 { .. } => true,
            _ => false,
        },
        ColorFormat::YuvK => false,
    }
}

/// Why a request cannot be met, if it cannot, whatever the samples are.
pub open spec fn matrix_error(request: OutputFormatRequest, has_alpha: bool) -> Option<
    OutputFormatError,
> {
    if layout_has_alpha(request.pixel_format.layout()) != has_alpha || (request.premultiply_alpha
        && !has_alpha) {
        Some(OutputFormatError::AlphaMismatch)
    } else if request.premultiply_alpha && request.output_color is Yuv {
        Some(OutputFormatError::unsupported("premultiplied YUV output"))
    } else if !depth_fits_storage(request.bit_depth, request.pixel_format) {
        Some(OutputFormatError::unsupported("bit depth and typed storage"))
    } else if !color_fits_layout(request.output_color, request.pixel_format) {
        Some(OutputFormatError::unsupported("output colour and channel layout"))
    } else if !conversion_exists(request.internal_color, request.output_color, request.bit_depth) {
        Some(OutputFormatError::unsupported("internal and output colour formats"))
    } else if !color_has_depth(request.output_color, request.bit_depth) {
        Some(OutputFormatError::unsupported("output colour and bit depth matrix"))
    } else {
        None
    }
}

/// A failure, if there is one.
pub open spec fn outcome(error: Option<OutputFormatError>) -> Result<(), OutputFormatError> {
    match error {
        Some(error) => Err(error),
        None => Ok(()),
    }
}

pub(crate) fn validate_matrix(request: OutputFormatRequest, has_alpha: bool) -> (result: Result<
    (),
    OutputFormatError,
>)
    ensures
        result == outcome(matrix_error(request, has_alpha)),
{
    if layout_has_alpha(request.pixel_format.layout()) != has_alpha {
        return Err(OutputFormatError::AlphaMismatch);
    }
    if request.premultiply_alpha && !has_alpha {
        return Err(OutputFormatError::AlphaMismatch);
    }
    let yuv: bool = match request.output_color {
        ColorFormat::Yuv(_) => true,
        _ => false,
    };
    if request.premultiply_alpha && yuv {
        return Err(OutputFormatError::unsupported("premultiplied YUV output"));
    }
    if !depth_fits_storage(request.bit_depth, request.pixel_format) {
        return Err(OutputFormatError::unsupported("bit depth and typed storage"));
    }
    if !color_fits_layout(request.output_color, request.pixel_format) {
        return Err(OutputFormatError::unsupported("output colour and channel layout"));
    }
    if !conversion_exists(request.internal_color, request.output_color, request.bit_depth) {
        return Err(OutputFormatError::unsupported("internal and output colour formats"));
    }
    if !color_has_depth(request.output_color, request.bit_depth) {
        return Err(OutputFormatError::unsupported("output colour and bit depth matrix"));
    }
    Ok(())
}

/// Validate color, depth, storage, channel-order, and alpha policy without samples.
pub fn validate_output_policy(request: OutputFormatRequest, has_alpha: bool) -> (result: Result<
    (),
    OutputFormatError,
>)
    ensures
        result == outcome(matrix_error(request, has_alpha)),
{
    validate_matrix(request, has_alpha)
}

/// The samples that a plane needs to have.
pub open spec fn plane_extent(plane: PlaneView) -> int {
    if plane.height == 0 {
        0
    } else {
        plane.stride * (plane.height - 1) + plane.width
    }
}

/// Why a window cannot be taken from a plane, if it cannot.
pub open spec fn plane_error(plane: PlaneView, component: Option<usize>, crop: CropWindow) -> Option<
    OutputFormatError,
> {
    if plane.stride < plane.width {
        Some(
            OutputFormatError::InvalidPlane { component, reason: "stride is shorter than width" },
        )
    } else if plane_extent(plane) > usize::MAX {
        Some(OutputFormatError::arithmetic("calculating plane extent"))
    } else if plane.samples.len() < plane_extent(plane) {
        Some(
            OutputFormatError::InvalidPlane {
                component,
                reason: "backing slice is shorter than its extent",
            },
        )
    } else if plane.origin_x + plane.width > u32::MAX {
        Some(OutputFormatError::arithmetic("calculating plane right edge"))
    } else if plane.origin_y + plane.height > u32::MAX {
        Some(OutputFormatError::arithmetic("calculating plane bottom edge"))
    } else if crop.x < plane.origin_x || crop.y < plane.origin_y || crop.x + crop.width
        > plane.origin_x + plane.width || crop.y + crop.height > plane.origin_y + plane.height {
        Some(OutputFormatError::CropOutsidePlane { component })
    } else {
        None
    }
}

pub(crate) fn validate_plane(
    plane: &ComponentPlane<'_>,
    component: Option<usize>,
    crop: CropWindow,
) -> (result: Result<(), OutputFormatError>)
    ensures
        result == outcome(plane_error(plane@, component, crop)),
        result is Ok ==> plane@.wf(),
{
    let width: usize = plane.width as usize;
    let height: usize = plane.height as usize;
    if plane.stride < width {
        return Err(
            OutputFormatError::InvalidPlane { component, reason: "stride is shorter than width" },
        );
    }
    let required: usize = if height == 0 {
        0
    } else {
        match plane.stride.checked_mul(height - 1) {
            Some(rows) => match rows.checked_add(width) {
                Some(required) => required,
                None => return Err(OutputFormatError::arithmetic("calculating plane extent")),
            },
            None => return Err(OutputFormatError::arithmetic("calculating plane extent")),
        }
    };
    if plane.samples.len() < required {
        return Err(
            OutputFormatError::InvalidPlane {
                component,
                reason: "backing slice is shorter than its extent",
            },
        );
    }
    let plane_right: u32 = match plane.origin_x.checked_add(plane.width) {
        Some(right) => right,
        None => return Err(OutputFormatError::arithmetic("calculating plane right edge")),
    };
    let plane_bottom: u32 = match plane.origin_y.checked_add(plane.height) {
        Some(bottom) => bottom,
        None => return Err(OutputFormatError::arithmetic("calculating plane bottom edge")),
    };
    let right: u32 = match crop.x.checked_add(crop.width) {
        Some(right) => right,
        None => return Err(OutputFormatError::CropOutsidePlane { component }),
    };
    let bottom: u32 = match crop.y.checked_add(crop.height) {
        Some(bottom) => bottom,
        None => return Err(OutputFormatError::CropOutsidePlane { component }),
    };
    if crop.x < plane.origin_x || crop.y < plane.origin_y || right > plane_right || bottom
        > plane_bottom {
        return Err(OutputFormatError::CropOutsidePlane { component });
    }
    Ok(())
}

/// What planes say.
pub open spec fn plane_views(planes: Seq<ComponentPlane<'_>>) -> Seq<PlaneView> {
    Seq::new(planes.len(), |index: int| planes[index]@)
}

/// What an optional plane says.
pub open spec fn optional_view(plane: Option<ComponentPlane<'_>>) -> Option<PlaneView> {
    match plane {
        Some(plane) => Some(plane@),
        None => None,
    }
}

/// Why the first planes cannot be used together, if they cannot.
pub open spec fn planes_error(planes: Seq<PlaneView>, count: nat, crop: CropWindow) -> Option<
    OutputFormatError,
>
    decreases count,
{
    if count == 0 {
        None
    } else {
        let earlier = planes_error(planes, (count - 1) as nat, crop);
        let component = Some((count - 1) as usize);
        let plane = planes[count - 1];
        if earlier is Some {
            earlier
        } else if plane_error(plane, component, crop) is Some {
            plane_error(plane, component, crop)
        } else if plane.width != planes[0].width || plane.height != planes[0].height
            || plane.origin_x != planes[0].origin_x || plane.origin_y != planes[0].origin_y {
            Some(
                OutputFormatError::InvalidPlane {
                    component,
                    reason: "full-resolution component dimensions differ",
                },
            )
        } else {
            None
        }
    }
}

/// Once a plane is refused, later ones do not matter; and a plane that was not refused can be
/// used.
pub(crate) proof fn lemma_planes_error(
    planes: Seq<PlaneView>,
    some: nat,
    count: nat,
    crop: CropWindow,
)
    requires
        some <= count <= planes.len(),
    ensures
        planes_error(planes, some, crop) is Some ==> planes_error(planes, count, crop)
            == planes_error(planes, some, crop),
        planes_error(planes, count, crop) is None ==> forall|index: int|
            0 <= index < count ==> plane_error(
                #[trigger] planes[index],
                Some(index as usize),
                crop,
            ) is None,
    decreases count,
{
    if count > 0 {
        if some < count {
            lemma_planes_error(planes, some, (count - 1) as nat, crop);
        } else {
            lemma_planes_error(planes, (count - 1) as nat, (count - 1) as nat, crop);
        }
    }
}

/// Why planes cannot be formatted, if they cannot.
pub open spec fn request_error(
    planes: Seq<PlaneView>,
    alpha: Option<PlaneView>,
    request: OutputFormatRequest,
) -> Option<OutputFormatError> {
    let components = request.internal_color.components();
    if components is None {
        Some(OutputFormatError::unsupported("zero internal components"))
    } else if planes.len() != components->0 {
        Some(
            OutputFormatError::ComponentCount {
                expected: components->0 as usize,
                actual: planes.len() as usize,
            },
        )
    } else if matrix_error(request, alpha is Some) is Some {
        matrix_error(request, alpha is Some)
    } else if planes_error(planes, planes.len(), request.crop) is Some {
        planes_error(planes, planes.len(), request.crop)
    } else if alpha is Some {
        plane_error(alpha->0, None, request.crop)
    } else {
        None
    }
}

/// Returns the number of components, if the planes can be formatted.
pub(crate) fn validate_request(
    planes: &[ComponentPlane<'_>],
    alpha: &Option<ComponentPlane<'_>>,
    request: OutputFormatRequest,
) -> (result: Result<usize, OutputFormatError>)
    ensures
        match (result, request_error(plane_views(planes@), optional_view(*alpha), request)) {
            (Ok(count), None) => count == planes@.len(),
            (Err(error), Some(expected)) => error == expected,
            _ => false,
        },
        result is Ok ==> forall|index: int|
            0 <= index < planes@.len() ==> (#[trigger] planes@[index])@.wf(),
        result is Ok ==> (*alpha matches Some(plane) ==> plane@.wf()),
{
    let component_count: usize = match request.internal_color.component_count() {
        Some(count) => count as usize,
        None => return Err(OutputFormatError::unsupported("zero internal components")),
    };
    if planes.len() != component_count {
        return Err(
            OutputFormatError::ComponentCount {
                expected: component_count,
                actual: planes.len(),
            },
        );
    }
    validate_matrix(request, alpha.is_some())?;
    let ghost views = plane_views(planes@);
    for component in 0..component_count
        invariant
            component_count == planes@.len(),
            views == plane_views(planes@),
            request.internal_color.components() == Some(component_count as u16),
            component_count <= u16::MAX,
            matrix_error(request, *alpha is Some) is None,
            planes_error(views, component as nat, request.crop) is None,
            forall|index: int|
                0 <= index < component ==> (#[trigger] planes@[index])@.wf(),
    {
        proof {
            lemma_planes_error(
                views,
                (component + 1) as nat,
                component_count as nat,
                request.crop,
            );
            assert(views[component as int] == planes@[component as int]@);
            assert(views[0] == planes@[0]@);
        }
        validate_plane(&planes[component], Some(component), request.crop)?;
        if planes[component].width != planes[0].width || planes[component].height
            != planes[0].height || planes[component].origin_x != planes[0].origin_x
            || planes[component].origin_y != planes[0].origin_y {
            return Err(
                OutputFormatError::InvalidPlane {
                    component: Some(component),
                    reason: "full-resolution component dimensions differ",
                },
            );
        }
    }
    if let Some(alpha) = alpha {
        validate_plane(alpha, None, request.crop)?;
    }
    Ok(component_count)
}

} // verus!
