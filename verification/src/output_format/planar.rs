//! Native-resolution planar YUV clipping and typed packing.

use crate::cpu::CpuCapabilities;
use crate::output_format::error::OutputFormatError;
use crate::output_format::request::{
    ComponentPlane, OutputBitDepth, OutputFormatRequest, PlaneView,
};
use crate::output_format::samples;
use crate::output_format::samples::{storage_of, DecodedSamples, Element, SamplesModel};
use crate::output_format::scaling;
use crate::output_format::scaling::scale_integer_component;
use crate::output_format::simd_pack;
use crate::output_format::simd_pack::{append_u8, MIN_VECTOR_SAMPLES};
use crate::output_format::validate;
use crate::output_format::validate::{validate_matrix, validate_plane};
use crate::reconstruct::packing::clamp_sample;
use crate::reconstruct::raster;
use crate::types::{ChromaSampling, ColorFormat, CropWindow, PixelFormat};
use vstd::prelude::*;

verus! {

/// Where a plane lies in the samples.
#[derive(Debug, Clone, Copy, PartialEq, Eq, Structural)]
pub struct PlaneDescriptor {
    /// Bytes before the plane.
    pub byte_offset: usize,
    /// Bytes from one row to the next.
    pub row_stride_bytes: usize,
    /// Pixels in each row.
    pub width: u32,
    /// Rows.
    pub height: u32,
    /// Channels of each pixel.
    pub channels: u32,
}

/// Window of a plane that is packed.
#[derive(Clone, Copy)]
struct PlaneWindow<'a> {
    plane: ComponentPlane<'a>,
    crop: CropWindow,
    component: usize,
    alpha: bool,
}

/// Window of a plane.
pub struct WindowView {
    /// Plane.
    pub plane: PlaneView,
    /// Window of the extended plane.
    pub crop: CropWindow,
    /// Component that the plane holds.
    pub component: usize,
    /// Whether the plane holds alpha.
    pub alpha: bool,
}

impl WindowView {
    /// The samples of the window.
    pub open spec fn area(self) -> int {
        self.crop.height * self.crop.width
    }
}

impl<'a> View for PlaneWindow<'a> {
    type V = WindowView;

    closed spec fn view(&self) -> WindowView {
        WindowView {
            plane: self.plane@,
            crop: self.crop,
            component: self.component,
            alpha: self.alpha,
        }
    }
}

/// Whether the planes of a colour format have different sizes.
#[verifier::allow_in_spec]
pub fn is_planar(color: ColorFormat) -> bool
    returns
        (color == ColorFormat::Yuv(ChromaSampling::Cs420) || color == ColorFormat::Yuv(
            ChromaSampling::Cs422,
        )),
{
    color == ColorFormat::Yuv(ChromaSampling::Cs420) || color == ColorFormat::Yuv(
        ChromaSampling::Cs422,
    )
}

/// The window of the chroma planes: half as wide, and for 4:2:0 half as high.
#[verifier::allow_in_spec]
pub fn chroma_crop(request: OutputFormatRequest) -> CropWindow
    returns
        (CropWindow {
            x: request.crop.x / 2,
            y: if request.output_color == ColorFormat::Yuv(ChromaSampling::Cs420) {
                request.crop.y / 2
            } else {
                request.crop.y
            },
            width: request.crop.width / 2,
            height: if request.output_color == ColorFormat::Yuv(ChromaSampling::Cs420) {
                request.crop.height / 2
            } else {
                request.crop.height
            },
        }),
{
    let halved: bool = request.output_color == ColorFormat::Yuv(ChromaSampling::Cs420);
    CropWindow {
        x: request.crop.x / 2,
        y: if halved {
            request.crop.y / 2
        } else {
            request.crop.y
        },
        width: request.crop.width / 2,
        height: if halved {
            request.crop.height / 2
        } else {
            request.crop.height
        },
    }
}

/// The windows that are packed: luma, the chroma planes, and alpha if there is any.
pub open spec fn windows_of(
    planes: Seq<PlaneView>,
    alpha: Option<PlaneView>,
    request: OutputFormatRequest,
) -> Seq<WindowView> {
    let color = seq![
        WindowView { plane: planes[0], crop: request.crop, component: 0, alpha: false },
        WindowView { plane: planes[1], crop: chroma_crop(request), component: 1, alpha: false },
        WindowView { plane: planes[2], crop: chroma_crop(request), component: 2, alpha: false },
    ];
    match alpha {
        Some(plane) => color.push(
            WindowView { plane, crop: request.crop, component: 0, alpha: true },
        ),
        None => color,
    }
}

/// Why the first windows cannot be packed, if they cannot.
pub open spec fn windows_error(windows: Seq<WindowView>, count: nat) -> Option<OutputFormatError>
    decreases count,
{
    if count == 0 {
        None
    } else {
        let earlier = windows_error(windows, (count - 1) as nat);
        let window = windows[count - 1];
        if earlier is Some {
            earlier
        } else {
            validate::plane_error(window.plane, Some(window.component), window.crop)
        }
    }
}

/// Why planes cannot be packed, if they cannot.
pub open spec fn planar_error(
    planes: Seq<PlaneView>,
    alpha: Option<PlaneView>,
    request: OutputFormatRequest,
) -> Option<OutputFormatError> {
    let windows = windows_of(planes, alpha, request);
    if !is_planar(request.output_color) {
        Some(OutputFormatError::unsupported("native planar output colour"))
    } else if planes.len() != 3 {
        Some(OutputFormatError::ComponentCount { expected: 3, actual: planes.len() as usize })
    } else if validate::matrix_error(request, alpha is Some) is Some {
        validate::matrix_error(request, alpha is Some)
    } else {
        windows_error(windows, windows.len())
    }
}

/// Once a window is refused, later ones do not matter; and no refused window means that each
/// window lies in its plane.
pub(crate) proof fn lemma_windows_error(windows: Seq<WindowView>, some: nat, count: nat)
    requires
        some <= count,
    ensures
        windows_error(windows, some) is Some ==> windows_error(windows, count) == windows_error(
            windows,
            some,
        ),
        windows_error(windows, count) is None ==> forall|index: int|
            0 <= index < count ==> validate::plane_error(
                (#[trigger] windows[index]).plane,
                Some(windows[index].component),
                windows[index].crop,
            ) is None,
    decreases count,
{
    if count > 0 {
        if some < count {
            lemma_windows_error(windows, some, (count - 1) as nat);
        } else {
            lemma_windows_error(windows, (count - 1) as nat, (count - 1) as nat);
        }
    }
}

/// The windows as values of the model.
spec fn window_views(windows: Seq<PlaneWindow<'_>>) -> Seq<WindowView> {
    Seq::new(windows.len(), |index: int| windows[index]@)
}

fn validated_windows<'a>(
    planes: &'a [ComponentPlane<'a>],
    alpha: Option<ComponentPlane<'a>>,
    request: OutputFormatRequest,
) -> (result: Result<Vec<PlaneWindow<'a>>, OutputFormatError>)
    ensures
        match (
            result,
            planar_error(
                validate::plane_views(planes@),
                validate::optional_view(alpha),
                request,
            ),
        ) {
            (Ok(windows), None) => window_views(windows@) == windows_of(
                validate::plane_views(planes@),
                validate::optional_view(alpha),
                request,
            ),
            (Err(error), Some(expected)) => error == expected,
            _ => false,
        },
{
    if !is_planar(request.output_color) {
        return Err(OutputFormatError::unsupported("native planar output colour"));
    }
    if planes.len() != 3 {
        return Err(OutputFormatError::ComponentCount { expected: 3, actual: planes.len() });
    }
    validate_matrix(request, alpha.is_some())?;
    let mut windows: Vec<PlaneWindow<'a>> = Vec::new();
    windows.push(
        PlaneWindow { plane: planes[0], crop: request.crop, component: 0, alpha: false },
    );
    windows.push(
        PlaneWindow { plane: planes[1], crop: chroma_crop(request), component: 1, alpha: false },
    );
    windows.push(
        PlaneWindow { plane: planes[2], crop: chroma_crop(request), component: 2, alpha: false },
    );
    if let Some(plane) = alpha {
        windows.push(PlaneWindow { plane, crop: request.crop, component: 0, alpha: true });
    }
    let ghost expected = windows_of(
        validate::plane_views(planes@),
        validate::optional_view(alpha),
        request,
    );
    assert(window_views(windows@) =~= expected);
    for index in 0..windows.len()
        invariant
            is_planar(request.output_color),
            planes@.len() == 3,
            validate::matrix_error(request, alpha is Some) is None,
            expected == windows_of(
                validate::plane_views(planes@),
                validate::optional_view(alpha),
                request,
            ),
            window_views(windows@) == expected,
            windows_error(expected, index as nat) is None,
    {
        proof {
            lemma_windows_error(expected, (index + 1) as nat, expected.len());
            assert(expected[index as int] == windows@[index as int]@);
        }
        let window: PlaneWindow<'a> = windows[index];
        validate_plane(&window.plane, Some(window.component), window.crop)?;
    }
    Ok(windows)
}

/// Whether planes are packed at a bit depth into a pixel format.
#[verifier::allow_in_spec]
pub fn has_planar_storage(request: OutputFormatRequest) -> bool
    returns
        (match (request.bit_depth, request.pixel_format) {
            (OutputBitDepth::U8, PixelFormat::U8(_)) => true,
            (OutputBitDepth::U10, PixelFormat::U16(_)) => true,
            (OutputBitDepth::U16 { .. }, PixelFormat::U16(_)) => true,
            (OutputBitDepth::I16 { .. }, PixelFormat::I16(_)) => true,
            _ => false,
        }),
{
    match (request.bit_depth, request.pixel_format) {
        (OutputBitDepth::U8, PixelFormat::U8(_)) => true,
        (OutputBitDepth::U10, PixelFormat::U16(_)) => true,
        (OutputBitDepth::U16 { .. }, PixelFormat::U16(_)) => true,
        (OutputBitDepth::I16 { .. }, PixelFormat::I16(_)) => true,
        _ => false,
    }
}

/// The smallest sample of a bit depth.
#[verifier::allow_in_spec]
pub fn smallest(depth: OutputBitDepth) -> i32
    returns
        (match depth {
            OutputBitDepth::I16 { .. } => (-32_768) as i32,
            _ => 0,
        }),
{
    match depth {
        OutputBitDepth::I16 { .. } => -32_768,
        _ => 0,
    }
}

/// The largest sample of a bit depth.
#[verifier::allow_in_spec]
pub fn largest(depth: OutputBitDepth) -> i32
    returns
        (match depth {
            OutputBitDepth::U8 => 255i32,
            OutputBitDepth::U10 => 1_023,
            OutputBitDepth::I16 { .. } => 32_767,
            _ => 65_535,
        }),
{
    match depth {
        OutputBitDepth::U8 => 255,
        OutputBitDepth::U10 => 1_023,
        OutputBitDepth::I16 { .. } => 32_767,
        _ => 65_535,
    }
}

/// The bytes of a packed sample.
#[verifier::allow_in_spec]
pub fn sample_bytes(depth: OutputBitDepth) -> usize
    returns
        (if depth == OutputBitDepth::U8 {
            1usize
        } else {
            2usize
        }),
{
    if depth == OutputBitDepth::U8 {
        1
    } else {
        2
    }
}

/// The number of the sample at a place of a window.
pub open spec fn window_sample(
    window: WindowView,
    request: OutputFormatRequest,
    x: int,
    y: int,
) -> Result<int, OutputFormatError> {
    let sample = window.plane.sample_at(window.crop.x + x, window.crop.y + y);
    let scaled = if window.alpha {
        scaling::scaled_component(
            sample,
            window.component as int,
            ColorFormat::Luma,
            request.alpha_request().bit_depth,
            request.alpha_request().scaled,
        )
    } else {
        scaling::scaled_component(
            sample,
            window.component as int,
            request.output_color,
            request.bit_depth,
            request.scaled,
        )
    };
    match scaled {
        Err(error) => Err(error),
        Ok(value) => Ok(
            clamp_sample(value, smallest(request.bit_depth), largest(request.bit_depth)) as int,
        ),
    }
}

/// The numbers of the first samples of a window, row by row.
pub open spec fn window_values(
    window: WindowView,
    request: OutputFormatRequest,
    count: nat,
) -> Result<Seq<int>, OutputFormatError>
    decreases count,
{
    if count == 0 {
        Ok(Seq::empty())
    } else {
        let width = window.crop.width as int;
        match window_values(window, request, (count - 1) as nat) {
            Err(error) => Err(error),
            Ok(earlier) => match window_sample(
                window,
                request,
                (count - 1) % width,
                (count - 1) / width,
            ) {
                Err(error) => Err(error),
                Ok(value) => Ok(earlier.push(value)),
            },
        }
    }
}

/// There are as many numbers as samples, and once a sample is refused, later ones do not matter.
proof fn lemma_window_values(
    window: WindowView,
    request: OutputFormatRequest,
    some: nat,
    count: nat,
)
    requires
        some <= count,
    ensures
        window_values(window, request, some) is Err ==> window_values(window, request, count)
            == window_values(window, request, some),
        window_values(window, request, count) is Ok ==> window_values(
            window,
            request,
            count,
        )->Ok_0.len() == count,
    decreases count,
{
    if count > 0 {
        if some < count {
            lemma_window_values(window, request, some, (count - 1) as nat);
        } else {
            lemma_window_values(window, request, (count - 1) as nat, (count - 1) as nat);
        }
    }
}

/// The numbers of a window that is packed as bytes with vector units.
pub open spec fn vector_values(window: WindowView, request: OutputFormatRequest, offset: int) -> Result<
    Seq<int>,
    OutputFormatError,
> {
    let scaled = if window.alpha {
        request.alpha_request().scaled
    } else {
        request.scaled
    };
    let start = seq![
        (window.crop.x - window.plane.origin_x) as usize,
        (window.crop.y - window.plane.origin_y) as usize,
    ];
    if window.area() > usize::MAX {
        Err(OutputFormatError::arithmetic("calculating SIMD output length"))
    } else if offset + window.area() > usize::MAX {
        Err(OutputFormatError::arithmetic("growing SIMD output"))
    } else {
        match simd_pack::rows_error(
            window.plane.samples,
            window.plane.stride as int,
            start,
            window.crop.width as int,
            window.crop.height as nat,
            scaled,
        ) {
            Some(error) => Err(error),
            None => Ok(
                samples::numbers(
                    simd_pack::window_bytes(
                        window.plane.samples,
                        window.plane.stride as int,
                        start,
                        window.crop.width as int,
                        window.crop.height as int,
                        scaled,
                    ),
                ),
            ),
        }
    }
}

/// Numbers of packed planes, and where the planes lie.
pub struct PlanarModel {
    /// Numbers that the elements stand for.
    pub values: Seq<int>,
    /// Places of the planes.
    pub planes: Seq<PlaneDescriptor>,
}

/// The first planes, one behind the other.
pub open spec fn packed_planes(
    windows: Seq<WindowView>,
    request: OutputFormatRequest,
    vectors: bool,
    count: nat,
) -> Result<PlanarModel, OutputFormatError>
    decreases count,
{
    if count == 0 {
        Ok(PlanarModel { values: Seq::empty(), planes: Seq::empty() })
    } else {
        let earlier = packed_planes(windows, request, vectors, (count - 1) as nat);
        let window = windows[count - 1];
        let bytes = sample_bytes(request.bit_depth);
        let offset = earlier->Ok_0.values.len() as int;
        let values = if vectors {
            vector_values(window, request, offset)
        } else {
            window_values(window, request, window.area() as nat)
        };
        if earlier is Err {
            earlier
        } else if offset * bytes > usize::MAX {
            Err(OutputFormatError::arithmetic("calculating planar byte offset"))
        } else if window.crop.width * bytes > usize::MAX {
            Err(OutputFormatError::arithmetic("calculating planar row stride"))
        } else if values is Err {
            Err(values->Err_0)
        } else {
            Ok(
                PlanarModel {
                    values: earlier->Ok_0.values + values->Ok_0,
                    planes: earlier->Ok_0.planes.push(
                        PlaneDescriptor {
                            byte_offset: (offset * bytes) as usize,
                            row_stride_bytes: (window.crop.width * bytes) as usize,
                            width: window.crop.width,
                            height: window.crop.height,
                            channels: 1,
                        },
                    ),
                },
            )
        }
    }
}

/// Once a plane is refused, later ones do not matter.
proof fn lemma_packed_planes_stop(
    windows: Seq<WindowView>,
    request: OutputFormatRequest,
    vectors: bool,
    some: nat,
    count: nat,
)
    requires
        some <= count,
        packed_planes(windows, request, vectors, some) is Err,
    ensures
        packed_planes(windows, request, vectors, count) == packed_planes(
            windows,
            request,
            vectors,
            some,
        ),
    decreases count,
{
    if some < count {
        lemma_packed_planes_stop(windows, request, vectors, some, (count - 1) as nat);
    }
}

/// The place of the plane that comes next.
fn describe(window: &PlaneWindow<'_>, request: OutputFormatRequest, offset: usize) -> (result: Result<
    PlaneDescriptor,
    OutputFormatError,
>)
    ensures
        result == (if offset * sample_bytes(request.bit_depth) > usize::MAX {
            Err::<PlaneDescriptor, OutputFormatError>(
                OutputFormatError::arithmetic("calculating planar byte offset"),
            )
        } else if window@.crop.width * sample_bytes(request.bit_depth) > usize::MAX {
            Err(OutputFormatError::arithmetic("calculating planar row stride"))
        } else {
            Ok(
                PlaneDescriptor {
                    byte_offset: (offset * sample_bytes(request.bit_depth)) as usize,
                    row_stride_bytes: (window@.crop.width * sample_bytes(
                        request.bit_depth,
                    )) as usize,
                    width: window@.crop.width,
                    height: window@.crop.height,
                    channels: 1,
                },
            )
        }),
{
    let bytes: usize = sample_bytes(request.bit_depth);
    let byte_offset: usize = match offset.checked_mul(bytes) {
        Some(byte_offset) => byte_offset,
        None => return Err(OutputFormatError::arithmetic("calculating planar byte offset")),
    };
    let row_stride_bytes: usize = match (window.crop.width as usize).checked_mul(bytes) {
        Some(row_stride_bytes) => row_stride_bytes,
        None => return Err(OutputFormatError::arithmetic("calculating planar row stride")),
    };
    Ok(
        PlaneDescriptor {
            byte_offset,
            row_stride_bytes,
            width: window.crop.width,
            height: window.crop.height,
            channels: 1,
        },
    )
}

fn scale_sample(window: &PlaneWindow<'_>, request: OutputFormatRequest, x: usize, y: usize) -> (
result: Result<i64, OutputFormatError>)
    requires
        validate::plane_error(window@.plane, Some(window@.component), window@.crop) is None,
        x < window@.crop.width,
        y < window@.crop.height,
    ensures
        match (result, window_sample(window@, request, x as int, y as int)) {
            (Ok(number), Ok(expected)) => number == expected && smallest(request.bit_depth)
                <= number <= largest(request.bit_depth),
            (Err(error), Err(expected)) => error == expected,
            _ => false,
        },
{
    let source_x: usize = (window.crop.x as u64 + x as u64) as usize;
    let source_y: usize = (window.crop.y as u64 + y as u64) as usize;
    let sample: i32 = window.plane.sample(source_x, source_y);
    let scaled: i32 = if window.alpha {
        let format = request.alpha_request();
        scale_integer_component(
            sample,
            window.component,
            ColorFormat::Luma,
            format.bit_depth,
            format.scaled,
        )?
    } else {
        scale_integer_component(
            sample,
            window.component,
            request.output_color,
            request.bit_depth,
            request.scaled,
        )?
    };
    Ok(clamp_sample(scaled, smallest(request.bit_depth), largest(request.bit_depth)) as i64)
}

/// Appends the numbers of a window.
fn append_window<T: Element>(
    window: &PlaneWindow<'_>,
    request: OutputFormatRequest,
    output: &mut Vec<T>,
) -> (result: Result<(), OutputFormatError>)
    requires
        validate::plane_error(window@.plane, Some(window@.component), window@.crop) is None,
        forall|number: int|
            smallest(request.bit_depth) <= number <= largest(request.bit_depth)
                ==> #[trigger] T::holds(number),
    ensures
        match (result, window_values(window@, request, window@.area() as nat)) {
            (Ok(_), Ok(expected)) => samples::numbers(final(output)@) == samples::numbers(
                old(output)@,
            ) + expected,
            (Err(error), Err(expected)) => error == expected,
            _ => false,
        },
{
    let ghost view = window@;
    let ghost before = samples::numbers(output@);
    let ghost area = view.area();
    let width: usize = window.crop.width as usize;
    let height: usize = window.crop.height as usize;
    assert(samples::numbers(output@) =~= before + Seq::<int>::empty());
    assert(0 * width == 0) by (nonlinear_arith);
    for y in 0..height
        invariant
            view == window@,
            validate::plane_error(view.plane, Some(view.component), view.crop) is None,
            width == view.crop.width,
            height == view.crop.height,
            area == height * width,
            forall|number: int|
                smallest(request.bit_depth) <= number <= largest(request.bit_depth)
                    ==> #[trigger] T::holds(number),
            window_values(view, request, (y * width) as nat) is Ok,
            samples::numbers(output@) == before + window_values(
                view,
                request,
                (y * width) as nat,
            )->Ok_0,
    {
        proof {
            assert((y + 1) * width == y * width + width) by (nonlinear_arith);
            assert(0 <= y * width && y * width + width <= height * width) by (nonlinear_arith)
                requires
                    y + 1 <= height,
                    0 <= y,
                    0 <= width,
            ;
        }
        for x in 0..width
            invariant
                view == window@,
                validate::plane_error(view.plane, Some(view.component), view.crop) is None,
                width == view.crop.width,
                height == view.crop.height,
                area == height * width,
                y < height,
                0 <= y * width <= y * width + width <= area,
                forall|number: int|
                    smallest(request.bit_depth) <= number <= largest(request.bit_depth)
                        ==> #[trigger] T::holds(number),
                window_values(view, request, (y * width + x) as nat) is Ok,
                samples::numbers(output@) == before + window_values(
                    view,
                    request,
                    (y * width + x) as nat,
                )->Ok_0,
        {
            proof {
                raster::lemma_parts(y as int, x as int, width as int);
                lemma_window_values(view, request, (y * width + x + 1) as nat, area as nat);
            }
            let number: i64 = scale_sample(window, request, x, y)?;
            assert(T::holds(number as int));
            let ghost earlier = output@;
            output.push(T::from_number(number));
            assert(samples::numbers(output@) =~= samples::numbers(earlier).push(number as int));
            assert(samples::numbers(output@) =~= before + window_values(
                view,
                request,
                (y * width + x + 1) as nat,
            )->Ok_0);
        }
    }
    Ok(())
}

/// Puts the numbers of a window in a buffer, from a place on.
fn fill_window<T: Element>(
    window: &PlaneWindow<'_>,
    request: OutputFormatRequest,
    output: &mut Vec<T>,
    offset: usize,
) -> (result: Result<(), OutputFormatError>)
    requires
        validate::plane_error(window@.plane, Some(window@.component), window@.crop) is None,
        offset + window@.area() <= old(output)@.len(),
        forall|number: int|
            smallest(request.bit_depth) <= number <= largest(request.bit_depth)
                ==> #[trigger] T::holds(number),
    ensures
        final(output)@.len() == old(output)@.len(),
        match (result, window_values(window@, request, window@.area() as nat)) {
            (Ok(_), Ok(expected)) => samples::numbers(final(output)@).take(
                offset + window@.area(),
            ) == samples::numbers(old(output)@).take(offset as int) + expected,
            (Err(error), Err(expected)) => error == expected,
            _ => false,
        },
{
    let ghost view = window@;
    let ghost before = samples::numbers(output@).take(offset as int);
    let ghost area = view.area();
    let total: usize = output.len();
    let width: usize = window.crop.width as usize;
    let height: usize = window.crop.height as usize;
    let mut index: usize = offset;
    assert(before =~= before + Seq::<int>::empty());
    assert(0 * width == 0) by (nonlinear_arith);
    for y in 0..height
        invariant
            view == window@,
            validate::plane_error(view.plane, Some(view.component), view.crop) is None,
            width == view.crop.width,
            height == view.crop.height,
            area == height * width,
            total == output@.len(),
            total == old(output)@.len(),
            offset + area <= total,
            index == offset + y * width,
            forall|number: int|
                smallest(request.bit_depth) <= number <= largest(request.bit_depth)
                    ==> #[trigger] T::holds(number),
            window_values(view, request, (y * width) as nat) is Ok,
            samples::numbers(output@).take(index as int) == before + window_values(
                view,
                request,
                (y * width) as nat,
            )->Ok_0,
    {
        proof {
            assert((y + 1) * width == y * width + width) by (nonlinear_arith);
            assert(0 <= y * width && y * width + width <= height * width) by (nonlinear_arith)
                requires
                    y + 1 <= height,
                    0 <= y,
                    0 <= width,
            ;
        }
        for x in 0..width
            invariant
                view == window@,
                validate::plane_error(view.plane, Some(view.component), view.crop) is None,
                width == view.crop.width,
                height == view.crop.height,
                area == height * width,
                total == output@.len(),
                total == old(output)@.len(),
                offset + area <= total,
                y < height,
                0 <= y * width <= y * width + width <= area,
                index == offset + y * width + x,
                forall|number: int|
                    smallest(request.bit_depth) <= number <= largest(request.bit_depth)
                        ==> #[trigger] T::holds(number),
                window_values(view, request, (y * width + x) as nat) is Ok,
                samples::numbers(output@).take(index as int) == before + window_values(
                    view,
                    request,
                    (y * width + x) as nat,
                )->Ok_0,
        {
            proof {
                raster::lemma_parts(y as int, x as int, width as int);
                lemma_window_values(view, request, (y * width + x + 1) as nat, area as nat);
            }
            let number: i64 = scale_sample(window, request, x, y)?;
            assert(T::holds(number as int));
            let ghost earlier = output@;
            output.set(index, T::from_number(number));
            assert(samples::numbers(output@).take(index + 1) =~= samples::numbers(earlier).take(
                index as int,
            ).push(number as int));
            assert(samples::numbers(output@).take(index + 1) =~= before + window_values(
                view,
                request,
                (y * width + x + 1) as nat,
            )->Ok_0);
            index = index + 1;
        }
    }
    Ok(())
}

/// Whether every window lies in its plane.
spec fn windows_fit(windows: Seq<WindowView>) -> bool {
    windows_error(windows, windows.len()) is None
}

/// The samples of the first windows.
pub open spec fn total_area(windows: Seq<WindowView>, count: nat) -> int
    decreases count,
{
    if count == 0 {
        0
    } else {
        total_area(windows, (count - 1) as nat) + windows[count - 1].area()
    }
}

/// More windows have more samples.
proof fn lemma_total_area(windows: Seq<WindowView>, some: nat, count: nat)
    requires
        some <= count,
    ensures
        0 <= total_area(windows, some) <= total_area(windows, count),
    decreases count,
{
    if count > 0 {
        let window = windows[count - 1];
        assert(window.crop.height * window.crop.width >= 0) by (nonlinear_arith);
        if some < count {
            lemma_total_area(windows, some, (count - 1) as nat);
        } else {
            lemma_total_area(windows, (count - 1) as nat, (count - 1) as nat);
        }
    }
}

/// Whether vector units are used to pack some window.
pub open spec fn uses_vectors(windows: Seq<WindowView>, cpu: CpuCapabilities) -> bool {
    cpu.vectorizes() && exists|index: int|
        0 <= index < windows.len() && (#[trigger] windows[index]).area() >= MIN_VECTOR_SAMPLES
}

fn pack_u8_windows(windows: &Vec<PlaneWindow<'_>>, request: OutputFormatRequest, cpu: CpuCapabilities) -> (
result: Result<(Vec<u8>, Vec<PlaneDescriptor>, bool), OutputFormatError>)
    requires
        windows_fit(window_views(windows@)),
        request.bit_depth == OutputBitDepth::U8,
    ensures
        match (
            result,
            packed_planes(window_views(windows@), request, true, windows@.len()),
        ) {
            (Ok((output, planes, vectors)), Ok(expected)) => samples::numbers(output@)
                == expected.values && planes@ == expected.planes && vectors == uses_vectors(
                window_views(windows@),
                cpu,
            ),
            (Err(error), Err(expected)) => error == expected,
            _ => false,
        },
{
    let ghost views = window_views(windows@);
    let mut output: Vec<u8> = Vec::new();
    let mut planes: Vec<PlaneDescriptor> = Vec::new();
    let mut vectors: bool = false;
    proof {
        lemma_windows_error(views, views.len(), views.len());
        assert(samples::numbers(output@) =~= Seq::<int>::empty());
    }
    for index in 0..windows.len()
        invariant
            views == window_views(windows@),
            request.bit_depth == OutputBitDepth::U8,
            forall|index: int|
                0 <= index < views.len() ==> validate::plane_error(
                    (#[trigger] views[index]).plane,
                    Some(views[index].component),
                    views[index].crop,
                ) is None,
            packed_planes(views, request, true, index as nat) is Ok,
            samples::numbers(output@) == packed_planes(
                views,
                request,
                true,
                index as nat,
            )->Ok_0.values,
            planes@ == packed_planes(views, request, true, index as nat)->Ok_0.planes,
            vectors == (cpu.vectorizes() && exists|earlier: int|
                0 <= earlier < index && (#[trigger] views[earlier]).area() >= MIN_VECTOR_SAMPLES),
    {
        proof {
            assert(views[index as int] == windows@[index as int]@);
            if packed_planes(views, request, true, (index + 1) as nat) is Err {
                lemma_packed_planes_stop(views, request, true, (index + 1) as nat, views.len());
            }
        }
        let window: PlaneWindow<'_> = windows[index];
        let length: usize = output.len();
        planes.push(describe(&window, request, length)?);
        let start: [usize; 2] = [
            (window.crop.x - window.plane.origin_x) as usize,
            (window.crop.y - window.plane.origin_y) as usize,
        ];
        let scaled: bool = if window.alpha {
            request.alpha_request().scaled
        } else {
            request.scaled
        };
        assert(start@ =~= seq![
            (window.crop.x - window.plane.origin_x) as usize,
            (window.crop.y - window.plane.origin_y) as usize,
        ]);
        let ghost before = output@;
        let used: bool = append_u8(
            cpu,
            window.plane.samples,
            window.plane.stride,
            start,
            [window.crop.width as usize, window.crop.height as usize],
            scaled,
            &mut output,
        )?;
        vectors = vectors || used;
        assert(samples::numbers(output@) =~= samples::numbers(before) + vector_values(
            views[index as int],
            request,
            length as int,
        )->Ok_0);
    }
    Ok((output, planes, vectors))
}

fn pack_windows<T: Element>(windows: &Vec<PlaneWindow<'_>>, request: OutputFormatRequest) -> (
result: Result<(Vec<T>, Vec<PlaneDescriptor>), OutputFormatError>)
    requires
        windows_fit(window_views(windows@)),
        forall|number: int|
            smallest(request.bit_depth) <= number <= largest(request.bit_depth)
                ==> #[trigger] T::holds(number),
    ensures
        match (
            result,
            packed_planes(window_views(windows@), request, false, windows@.len()),
        ) {
            (Ok((output, planes)), Ok(expected)) => samples::numbers(output@) == expected.values
                && planes@ == expected.planes,
            (Err(error), Err(expected)) => error == expected,
            _ => false,
        },
{
    let ghost views = window_views(windows@);
    let mut output: Vec<T> = Vec::new();
    let mut planes: Vec<PlaneDescriptor> = Vec::new();
    proof {
        lemma_windows_error(views, views.len(), views.len());
        assert(samples::numbers(output@) =~= Seq::<int>::empty());
    }
    for index in 0..windows.len()
        invariant
            views == window_views(windows@),
            forall|number: int|
                smallest(request.bit_depth) <= number <= largest(request.bit_depth)
                    ==> #[trigger] T::holds(number),
            forall|index: int|
                0 <= index < views.len() ==> validate::plane_error(
                    (#[trigger] views[index]).plane,
                    Some(views[index].component),
                    views[index].crop,
                ) is None,
            packed_planes(views, request, false, index as nat) is Ok,
            samples::numbers(output@) == packed_planes(
                views,
                request,
                false,
                index as nat,
            )->Ok_0.values,
            planes@ == packed_planes(views, request, false, index as nat)->Ok_0.planes,
    {
        proof {
            assert(views[index as int] == windows@[index as int]@);
            if packed_planes(views, request, false, (index + 1) as nat) is Err {
                lemma_packed_planes_stop(views, request, false, (index + 1) as nat, views.len());
            }
        }
        let window: PlaneWindow<'_> = windows[index];
        planes.push(describe(&window, request, output.len())?);
        append_window(&window, request, &mut output)?;
    }
    Ok((output, planes))
}

fn fill_windows<T: Element>(
    windows: &Vec<PlaneWindow<'_>>,
    request: OutputFormatRequest,
    output: &mut Vec<T>,
) -> (result: Result<Vec<PlaneDescriptor>, OutputFormatError>)
    requires
        windows_fit(window_views(windows@)),
        total_area(window_views(windows@), windows@.len()) == old(output)@.len(),
        forall|number: int|
            smallest(request.bit_depth) <= number <= largest(request.bit_depth)
                ==> #[trigger] T::holds(number),
    ensures
        final(output)@.len() == old(output)@.len(),
        match (
            result,
            packed_planes(window_views(windows@), request, false, windows@.len()),
        ) {
            (Ok(planes), Ok(expected)) => samples::numbers(final(output)@) == expected.values
                && planes@ == expected.planes,
            (Err(error), Err(expected)) => error == expected,
            _ => false,
        },
{
    let ghost views = window_views(windows@);
    let total: usize = output.len();
    let mut planes: Vec<PlaneDescriptor> = Vec::new();
    let mut offset: usize = 0;
    proof {
        lemma_windows_error(views, views.len(), views.len());
        assert(samples::numbers(output@).take(0) =~= Seq::<int>::empty());
    }
    for index in 0..windows.len()
        invariant
            views == window_views(windows@),
            total == output@.len(),
            total == old(output)@.len(),
            total == total_area(views, views.len()),
            offset == total_area(views, index as nat),
            forall|number: int|
                smallest(request.bit_depth) <= number <= largest(request.bit_depth)
                    ==> #[trigger] T::holds(number),
            forall|index: int|
                0 <= index < views.len() ==> validate::plane_error(
                    (#[trigger] views[index]).plane,
                    Some(views[index].component),
                    views[index].crop,
                ) is None,
            packed_planes(views, request, false, index as nat) is Ok,
            samples::numbers(output@).take(offset as int) == packed_planes(
                views,
                request,
                false,
                index as nat,
            )->Ok_0.values,
            planes@ == packed_planes(views, request, false, index as nat)->Ok_0.planes,
    {
        proof {
            assert(views[index as int] == windows@[index as int]@);
            lemma_total_area(views, (index + 1) as nat, views.len());
            lemma_total_area(views, index as nat, (index + 1) as nat);
            if packed_planes(views, request, false, (index + 1) as nat) is Err {
                lemma_packed_planes_stop(views, request, false, (index + 1) as nat, views.len());
            }
        }
        let window: PlaneWindow<'_> = windows[index];
        planes.push(describe(&window, request, offset)?);
        let height: usize = window.crop.height as usize;
        let width: usize = window.crop.width as usize;
        fill_window(&window, request, output, offset)?;
        offset = offset + height * width;
    }
    assert(samples::numbers(output@).take(total as int) =~= samples::numbers(output@));
    Ok(planes)
}

/// Typed planes, and where they lie.
#[derive(Debug)]
pub struct PlanarFormattedOutput {
    /// Samples of all planes.
    pub samples: DecodedSamples,
    /// Places of the planes.
    pub planes: Vec<PlaneDescriptor>,
    /// Whether vector units were used.
    pub used_simd: bool,
}

/// Where planes lie in storage that was already there.
#[derive(Debug)]
pub struct PlanarDecodeIntoOutput {
    /// Places of the planes.
    pub planes: Vec<PlaneDescriptor>,
    /// Whether vector units were used.
    pub used_simd: bool,
}

/// The planes that are packed into new storage.
pub open spec fn planar_formatted(
    planes: Seq<PlaneView>,
    alpha: Option<PlaneView>,
    request: OutputFormatRequest,
) -> Result<PlanarModel, OutputFormatError> {
    let windows = windows_of(planes, alpha, request);
    if planar_error(planes, alpha, request) is Some {
        Err(planar_error(planes, alpha, request)->0)
    } else if !has_planar_storage(request) {
        Err(OutputFormatError::unsupported("native planar YUV typed storage"))
    } else {
        packed_planes(windows, request, request.bit_depth == OutputBitDepth::U8, windows.len())
    }
}

/// Packs luma, chroma and alpha planes one behind the other, each at its own size.
pub fn format_planar_yuv(
    planes: &[ComponentPlane<'_>],
    alpha: Option<ComponentPlane<'_>>,
    request: OutputFormatRequest,
    cpu: CpuCapabilities,
) -> (result: Result<PlanarFormattedOutput, OutputFormatError>)
    ensures
        match (
            result,
            planar_formatted(
                validate::plane_views(planes@),
                validate::optional_view(alpha),
                request,
            ),
        ) {
            (Ok(output), Ok(expected)) => output.samples@ == (SamplesModel {
                storage: storage_of(request.pixel_format),
                values: expected.values,
            }) && output.planes@ == expected.planes && output.used_simd == (request.bit_depth
                == OutputBitDepth::U8 && uses_vectors(
                windows_of(
                    validate::plane_views(planes@),
                    validate::optional_view(alpha),
                    request,
                ),
                cpu,
            )),
            (Err(error), Err(expected)) => error == expected,
            _ => false,
        },
{
    let windows: Vec<PlaneWindow<'_>> = validated_windows(planes, alpha, request)?;
    if !has_planar_storage(request) {
        return Err(OutputFormatError::unsupported("native planar YUV typed storage"));
    }
    match request.bit_depth {
        OutputBitDepth::U8 => {
            let (output, planes, used_simd) = pack_u8_windows(&windows, request, cpu)?;
            Ok(PlanarFormattedOutput { samples: DecodedSamples::U8(output), planes, used_simd })
        },
        OutputBitDepth::I16 { .. } => {
            let (output, planes) = pack_windows::<i16>(&windows, request)?;
            Ok(
                PlanarFormattedOutput {
                    samples: DecodedSamples::I16(output),
                    planes,
                    used_simd: false,
                },
            )
        },
        _ => {
            let (output, planes) = pack_windows::<u16>(&windows, request)?;
            Ok(
                PlanarFormattedOutput {
                    samples: DecodedSamples::U16(output),
                    planes,
                    used_simd: false,
                },
            )
        },
    }
}

/// Returns the samples of all windows, if there are not too many to count.
fn counted_area(windows: &Vec<PlaneWindow<'_>>) -> (area: Option<usize>)
    ensures
        match area {
            Some(area) => area == total_area(window_views(windows@), windows@.len()),
            None => total_area(window_views(windows@), windows@.len()) > usize::MAX,
        },
{
    let ghost views = window_views(windows@);
    let mut area: usize = 0;
    for index in 0..windows.len()
        invariant
            views == window_views(windows@),
            area == total_area(views, index as nat),
    {
        proof {
            assert(views[index as int] == windows@[index as int]@);
            lemma_total_area(views, (index + 1) as nat, views.len());
        }
        let window: PlaneWindow<'_> = windows[index];
        let samples: usize = match (window.crop.height as usize).checked_mul(
            window.crop.width as usize,
        ) {
            Some(samples) => samples,
            None => return None,
        };
        area = match area.checked_add(samples) {
            Some(area) => area,
            None => return None,
        };
    }
    Some(area)
}

/// The planes that are packed into storage of a kind and size.
pub open spec fn planar_formatted_into(
    planes: Seq<PlaneView>,
    alpha: Option<PlaneView>,
    request: OutputFormatRequest,
    destination: SamplesModel,
) -> Result<PlanarModel, OutputFormatError> {
    let windows = windows_of(planes, alpha, request);
    if planar_error(planes, alpha, request) is Some {
        Err(planar_error(planes, alpha, request)->0)
    } else if destination.storage != storage_of(request.pixel_format) {
        Err(
            OutputFormatError::unsupported(
                "direct planar destination type differs from the output format",
            ),
        )
    } else if destination.values.len() != total_area(windows, windows.len()) {
        Err(
            OutputFormatError::unsupported(
                "direct planar destination length differs from the output contract",
            ),
        )
    } else if !has_planar_storage(request) {
        Err(OutputFormatError::unsupported("native planar YUV direct typed storage"))
    } else {
        packed_planes(windows, request, false, windows.len())
    }
}

/// Packs luma, chroma and alpha planes one behind the other into storage that is already there.
pub fn format_planar_yuv_into(
    planes: &[ComponentPlane<'_>],
    alpha: Option<ComponentPlane<'_>>,
    request: OutputFormatRequest,
    destination: &mut DecodedSamples,
) -> (result: Result<PlanarDecodeIntoOutput, OutputFormatError>)
    ensures
        final(destination)@.storage == old(destination)@.storage,
        final(destination)@.values.len() == old(destination)@.values.len(),
        match (
            result,
            planar_formatted_into(
                validate::plane_views(planes@),
                validate::optional_view(alpha),
                request,
                old(destination)@,
            ),
        ) {
            (Ok(output), Ok(expected)) => final(destination)@.values == expected.values
                && output.planes@ == expected.planes && !output.used_simd,
            (Err(error), Err(expected)) => error == expected,
            _ => false,
        },
{
    let windows: Vec<PlaneWindow<'_>> = validated_windows(planes, alpha, request)?;
    if !destination.matches_format(request.pixel_format) {
        return Err(
            OutputFormatError::unsupported(
                "direct planar destination type differs from the output format",
            ),
        );
    }
    let length: usize = destination.len();
    let fits: bool = match counted_area(&windows) {
        Some(area) => area == length,
        None => false,
    };
    if !fits {
        return Err(
            OutputFormatError::unsupported(
                "direct planar destination length differs from the output contract",
            ),
        );
    }
    if !has_planar_storage(request) {
        return Err(OutputFormatError::unsupported("native planar YUV direct typed storage"));
    }
    let planes: Vec<PlaneDescriptor> = match destination {
        DecodedSamples::U8(output) => fill_windows(&windows, request, output)?,
        DecodedSamples::U16(output) => fill_windows(&windows, request, output)?,
        DecodedSamples::I16(output) => fill_windows(&windows, request, output)?,
        _ => vstd::pervasive::unreached(),
    };
    Ok(PlanarDecodeIntoOutput { planes, used_simd: false })
}

/// Packed planes lie one behind the other without gaps: a plane begins where the samples of the
/// planes before it end, and takes as many bytes as its rows.
pub proof fn lemma_planes_are_consecutive(
    windows: Seq<WindowView>,
    request: OutputFormatRequest,
    vectors: bool,
    count: nat,
)
    requires
        packed_planes(windows, request, vectors, count) is Ok,
    ensures
        packed_planes(windows, request, vectors, count)->Ok_0.planes.len() == count,
        packed_planes(windows, request, vectors, count)->Ok_0.values.len() == total_area(
            windows,
            count,
        ),
        forall|index: int|
            0 <= index < count ==> {
                let plane = #[trigger] packed_planes(
                    windows,
                    request,
                    vectors,
                    count,
                )->Ok_0.planes[index];
                &&& plane.byte_offset == total_area(windows, index as nat) * sample_bytes(
                    request.bit_depth,
                )
                &&& plane.byte_offset + plane.height * plane.row_stride_bytes == total_area(
                    windows,
                    (index + 1) as nat,
                ) * sample_bytes(request.bit_depth)
            },
    decreases count,
{
    if count > 0 {
        let window = windows[count - 1];
        let bytes = sample_bytes(request.bit_depth) as int;
        let offset = total_area(windows, (count - 1) as nat);
        let width = window.crop.width as int;
        let height = window.crop.height as int;
        lemma_planes_are_consecutive(windows, request, vectors, (count - 1) as nat);
        lemma_window_values(window, request, window.area() as nat, window.area() as nat);
        lemma_total_area(windows, (count - 1) as nat, count);
        assert(height * width >= 0) by (nonlinear_arith)
            requires
                height >= 0,
                width >= 0,
        ;
        assert(offset * bytes >= 0) by (nonlinear_arith)
            requires
                offset >= 0,
                bytes >= 0,
        ;
        assert(height * (width * bytes) == (height * width) * bytes) by (nonlinear_arith);
        assert((offset + height * width) * bytes == offset * bytes + (height * width) * bytes)
            by (nonlinear_arith);
        assert(width * bytes >= 0) by (nonlinear_arith)
            requires
                width >= 0,
                bytes >= 0,
        ;
    }
}

} // verus!
