//! The numbers of one formatted pixel.

use crate::output_format::color;
use crate::output_format::color::convert;
use crate::output_format::error::OutputFormatError;
use crate::output_format::premultiply;
use crate::output_format::premultiply::PixelOperator;
use crate::output_format::request::{
    ComponentPlane, OutputBitDepth, OutputFormatRequest, PlaneView,
};
use crate::output_format::samples;
use crate::output_format::samples::{storage_of, Storage};
use crate::output_format::scaling;
use crate::output_format::scaling::{float16_bits, float32_bits, scale_integer_component};
use crate::output_format::validate;
use crate::reconstruct::packing::clamp_sample;
use crate::types::{ChannelLayout, ColorFormat, PixelFormat};
use vstd::prelude::*;

verus! {

/// Whether components are stored without conversion.
#[verifier::allow_in_spec]
pub fn is_direct(internal: ColorFormat, output: ColorFormat) -> bool
    returns
        (match (internal, output) {
            (ColorFormat::Luma, ColorFormat::Luma) => true,
            (ColorFormat::Yuv(input), ColorFormat::Yuv(output)) => input == output,
            (ColorFormat::NComponent(input), ColorFormat::NComponent(output)) => input == output,
            _ => false,
        }),
{
    match (internal, output) {
        (ColorFormat::Luma, ColorFormat::Luma) => true,
        (ColorFormat::Yuv(input), ColorFormat::Yuv(output)) => input == output,
        (ColorFormat::NComponent(input), ColorFormat::NComponent(output)) => input == output,
        _ => false,
    }
}

/// Whether a bit depth packs red, green and blue in one word.
#[verifier::allow_in_spec]
pub fn is_packed_depth(depth: OutputBitDepth) -> bool
    returns
        (match depth {
            OutputBitDepth::Rgb555 | OutputBitDepth::Rgb565 | OutputBitDepth::Rgb101010 => true,
            _ => false,
        }),
{
    match depth {
        OutputBitDepth::Rgb555 | OutputBitDepth::Rgb565 | OutputBitDepth::Rgb101010 => true,
        _ => false,
    }
}

/// The first four component samples at a place of the crop; missing components are zero.
pub open spec fn component_samples(
    planes: Seq<PlaneView>,
    request: OutputFormatRequest,
    x: int,
    y: int,
) -> Seq<i32> {
    Seq::new(
        4,
        |component: int|
            if component < planes.len() {
                planes[component].sample_at(request.crop.x + x, request.crop.y + y)
            } else {
                0
            },
    )
}

/// Four components of the output colour format at a place of the crop.
pub open spec fn color_at(
    planes: Seq<PlaneView>,
    request: OutputFormatRequest,
    x: int,
    y: int,
) -> Result<Seq<i32>, OutputFormatError> {
    let input = component_samples(planes, request, x, y);
    if is_direct(request.internal_color, request.output_color) {
        Ok(input)
    } else {
        color::converted(
            request.internal_color,
            request.output_color,
            input,
            is_packed_depth(request.bit_depth),
            request.red_blue_not_swapped,
        )
    }
}

/// The components in the order of a layout, without alpha.
pub open spec fn arranged(colors: Seq<i32>, layout: ChannelLayout) -> Seq<i32> {
    match layout {
        ChannelLayout::Luma | ChannelLayout::LumaAlpha => seq![colors[0]],
        ChannelLayout::Bgr | ChannelLayout::Bgra => seq![colors[2], colors[1], colors[0]],
        ChannelLayout::Bgrx => seq![colors[2], colors[1], colors[0], 0],
        ChannelLayout::Yuv(_) | ChannelLayout::Yuva(_) | ChannelLayout::Rgb | ChannelLayout::Rgba => seq![
            colors[0],
            colors[1],
            colors[2],
        ],
        _ => seq![colors[0], colors[1], colors[2], colors[3]],
    }
}

/// The samples of the channels of the pixel at a place of the crop, alpha last.
pub open spec fn channels_at(
    planes: Seq<PlaneView>,
    alpha: Option<PlaneView>,
    request: OutputFormatRequest,
    x: int,
    y: int,
) -> Result<Seq<i32>, OutputFormatError> {
    let colors = color_at(planes, request, x, y);
    let primary = if request.output_color is NComponent {
        Ok(
            Seq::new(
                planes.len(),
                |component: int|
                    planes[component].sample_at(request.crop.x + x, request.crop.y + y),
            ),
        )
    } else if colors is Err {
        colors
    } else {
        Ok(arranged(colors->Ok_0, request.pixel_format.layout()))
    };
    match (primary, alpha) {
        (Ok(samples), Some(alpha)) => Ok(
            samples.push(alpha.sample_at(request.crop.x + x, request.crop.y + y)),
        ),
        _ => primary,
    }
}

/// Whether a channel is padding.
#[verifier::allow_in_spec]
pub fn is_padding(format: PixelFormat, channel: usize, alpha: bool) -> bool
    returns
        (!alpha && channel == 3 && (format.layout() == ChannelLayout::Rgbx || format.layout()
            == ChannelLayout::Bgrx)),
{
    !alpha && channel == 3 && (format.layout() == ChannelLayout::Rgbx || format.layout()
        == ChannelLayout::Bgrx)
}

/// The integer of a channel sample; padding is zero.
pub open spec fn integer_of(
    request: OutputFormatRequest,
    sample: i32,
    channel: usize,
    alpha: bool,
) -> Result<i32, OutputFormatError> {
    if is_padding(request.pixel_format, channel, alpha) {
        Ok(0)
    } else if alpha {
        scaling::scaled_component(
            sample,
            channel as int,
            ColorFormat::Luma,
            request.alpha_request().bit_depth,
            request.alpha_request().scaled,
        )
    } else {
        scaling::scaled_component(
            sample,
            channel as int,
            request.output_color,
            request.bit_depth,
            request.scaled,
        )
    }
}

/// A result, moved to the nearest number from `low` to `high`.
pub open spec fn clamped(result: Result<i32, OutputFormatError>, low: i32, high: i32) -> Result<
    int,
    OutputFormatError,
> {
    match result {
        Err(error) => Err(error),
        Ok(value) => Ok(clamp_sample(value, low, high) as int),
    }
}

/// The number that is stored for a channel sample.
pub open spec fn element_of(
    request: OutputFormatRequest,
    sample: i32,
    channel: usize,
    alpha: bool,
) -> Result<int, OutputFormatError> {
    let integer = integer_of(request, sample, channel, alpha);
    let padding = is_padding(request.pixel_format, channel, alpha);
    let scaled = if alpha {
        request.alpha_request().scaled
    } else {
        request.scaled
    };
    let depth = if alpha {
        request.alpha_request().bit_depth
    } else {
        request.bit_depth
    };
    match request.bit_depth {
        OutputBitDepth::U8 => clamped(integer, 0, 255),
        OutputBitDepth::U10 => clamped(integer, 0, 1_023),
        OutputBitDepth::U16 { .. } => clamped(integer, 0, 65_535),
        OutputBitDepth::I16 { .. } => clamped(integer, (-32_768) as i32, 32_767),
        OutputBitDepth::F16 => if padding {
            Ok(0)
        } else {
            match scaling::half_pattern(sample, scaled) {
                Err(error) => Err(error),
                Ok(bits) => Ok(bits as int),
            }
        },
        OutputBitDepth::F32 { .. } => if padding {
            Ok(0)
        } else {
            match depth {
                OutputBitDepth::F32 { mantissa_length, exponent_bias } => {
                    match scaling::single_pattern(sample, scaled, mantissa_length, exponent_bias) {
                        Err(error) => Err(error),
                        Ok(bits) => Ok(bits as int),
                    }
                },
                _ => Err(
                    OutputFormatError::unsupported("alpha and primary floating-point depth"),
                ),
            }
        },
        _ => match integer {
            Err(error) => Err(error),
            Ok(value) => Ok(value as int),
        },
    }
}

/// The numbers of the first channels of a pixel.
pub open spec fn channel_values(
    request: OutputFormatRequest,
    channels: Seq<i32>,
    has_alpha: bool,
    count: nat,
) -> Result<Seq<int>, OutputFormatError>
    decreases count,
{
    if count == 0 {
        Ok(Seq::empty())
    } else {
        let channel = count - 1;
        match channel_values(request, channels, has_alpha, (count - 1) as nat) {
            Err(error) => Err(error),
            Ok(earlier) => match element_of(
                request,
                channels[channel],
                channel as usize,
                has_alpha && count == channels.len(),
            ) {
                Err(error) => Err(error),
                Ok(value) => Ok(earlier.push(value)),
            },
        }
    }
}

/// The largest number of a packed field.
#[verifier::allow_in_spec]
pub fn field_maximum(depth: OutputBitDepth, component: usize) -> i32
    returns
        (match depth {
            OutputBitDepth::Rgb565 => if component == 1 {
                63i32
            } else {
                31i32
            },
            OutputBitDepth::Rgb101010 => 1_023i32,
            _ => 31i32,
        }),
{
    match depth {
        OutputBitDepth::Rgb565 => if component == 1 {
            63
        } else {
            31
        },
        OutputBitDepth::Rgb101010 => 1_023,
        _ => 31,
    }
}

/// The number of a packed field.
pub open spec fn field_of(request: OutputFormatRequest, sample: i32, component: usize) -> Result<
    int,
    OutputFormatError,
> {
    clamped(
        scaling::scaled_component(
            sample,
            component as int,
            ColorFormat::Rgb,
            request.bit_depth,
            request.scaled,
        ),
        0,
        field_maximum(request.bit_depth, component),
    )
}

/// The word of red, green and blue, with blue in the low field and red in the high field.
pub open spec fn word_of(request: OutputFormatRequest, colors: Seq<i32>) -> Result<
    int,
    OutputFormatError,
> {
    let red = field_of(request, colors[0], 0);
    let green = field_of(request, colors[1], 1);
    let blue = field_of(request, colors[2], 2);
    if red is Err {
        red
    } else if green is Err {
        green
    } else if blue is Err {
        blue
    } else {
        Ok(
            match request.bit_depth {
                OutputBitDepth::Rgb555 => blue->Ok_0 + 0x20 * green->Ok_0 + 0x400 * red->Ok_0,
                OutputBitDepth::Rgb565 => blue->Ok_0 + 0x20 * green->Ok_0 + 0x800 * red->Ok_0,
                _ => blue->Ok_0 + 0x400 * green->Ok_0 + 0x10_0000 * red->Ok_0,
            },
        )
    }
}

/// The scaled number that goes into a word with a shared exponent.
pub open spec fn shared_component(request: OutputFormatRequest, sample: i32, component: int) -> Result<
    i32,
    OutputFormatError,
> {
    scaling::scaled_component(
        sample,
        component,
        ColorFormat::Rgbe,
        OutputBitDepth::U8,
        request.scaled,
    )
}

/// The word with a shared exponent of red, green and blue.
pub open spec fn shared_word(
    request: OutputFormatRequest,
    colors: Seq<i32>,
    rule: spec_fn(PixelOperator, Seq<int>) -> Option<int>,
) -> Result<int, OutputFormatError> {
    let red = shared_component(request, colors[0], 0);
    let green = shared_component(request, colors[1], 1);
    let blue = shared_component(request, colors[2], 2);
    if red is Err {
        Err(red->Err_0)
    } else if green is Err {
        Err(green->Err_0)
    } else if blue is Err {
        Err(blue->Err_0)
    } else {
        Ok(
            rule(
                PixelOperator::PackRgbe,
                seq![red->Ok_0 as int, green->Ok_0 as int, blue->Ok_0 as int],
            )->0,
        )
    }
}

/// One number, or why there is none.
pub open spec fn single(result: Result<int, OutputFormatError>) -> Result<
    Seq<int>,
    OutputFormatError,
> {
    match result {
        Err(error) => Err(error),
        Ok(value) => Ok(seq![value]),
    }
}

/// The numbers of the pixel at a place of the crop: one word for packed storage, and otherwise one
/// number for each channel.
pub open spec fn pixel_values(
    planes: Seq<PlaneView>,
    alpha: Option<PlaneView>,
    request: OutputFormatRequest,
    x: int,
    y: int,
    rule: spec_fn(PixelOperator, Seq<int>) -> Option<int>,
) -> Result<Seq<int>, OutputFormatError> {
    let colors = color_at(planes, request, x, y);
    let channels = channels_at(planes, alpha, request, x, y);
    match storage_of(request.pixel_format) {
        Storage::Rgb555 | Storage::Rgb565 | Storage::Rgb101010 => if colors is Err {
            Err(colors->Err_0)
        } else {
            single(word_of(request, colors->Ok_0))
        },
        Storage::Rgbe => if colors is Err {
            Err(colors->Err_0)
        } else {
            single(shared_word(request, colors->Ok_0, rule))
        },
        _ => if channels is Err {
            Err(channels->Err_0)
        } else {
            channel_values(request, channels->Ok_0, alpha is Some, channels->Ok_0.len())
        },
    }
}

/// The numbers that a pixel has.
#[verifier::allow_in_spec]
pub fn values_per_pixel(format: PixelFormat) -> u32
    returns
        (match storage_of(format) {
            Storage::Rgb555 | Storage::Rgb565 | Storage::Rgb101010 | Storage::Rgbe => 1u32,
            _ => format.layout().channels(),
        }),
{
    match storage_of(format) {
        Storage::Rgb555 | Storage::Rgb565 | Storage::Rgb101010 | Storage::Rgbe => 1,
        _ => format.channel_count(),
    }
}

/// Whether a number can be stored in a kind of storage.
pub open spec fn storable(storage: Storage, number: int) -> bool {
    match storage {
        Storage::BitPacked | Storage::U8 => 0 <= number <= u8::MAX,
        Storage::U16 | Storage::F16 | Storage::Rgb555 | Storage::Rgb565 => 0 <= number <= u16::MAX,
        Storage::I16 => i16::MIN <= number <= i16::MAX,
        Storage::I32 => i32::MIN <= number <= i32::MAX,
        Storage::F32 | Storage::Rgb101010 | Storage::Rgbe => 0 <= number <= u32::MAX,
    }
}

/// Whether planes can be formatted.
pub open spec fn accepted(
    planes: Seq<PlaneView>,
    alpha: Option<PlaneView>,
    request: OutputFormatRequest,
) -> bool {
    validate::request_error(planes, alpha, request) is None
}

/// Accepted planes cover the crop.
pub(crate) proof fn lemma_accepted(
    planes: Seq<PlaneView>,
    alpha: Option<PlaneView>,
    request: OutputFormatRequest,
)
    requires
        accepted(planes, alpha, request),
    ensures
        forall|index: int, x: int, y: int|
            0 <= index < planes.len() && request.crop.x <= x < request.crop.x + request.crop.width
                && request.crop.y <= y < request.crop.y + request.crop.height
                ==> #[trigger] planes[index].covers(x, y),
        forall|index: int| 0 <= index < planes.len() ==> (#[trigger] planes[index]).wf(),
        alpha matches Some(plane) ==> plane.wf() && forall|x: int, y: int|
            request.crop.x <= x < request.crop.x + request.crop.width && request.crop.y <= y
                < request.crop.y + request.crop.height ==> #[trigger] plane.covers(x, y),
        planes.len() == request.internal_color.components()->0,
        request.crop.x + request.crop.width <= u32::MAX,
        request.crop.y + request.crop.height <= u32::MAX,
{
    validate::lemma_planes_error(planes, planes.len(), planes.len(), request.crop);
    assert forall|index: int| 0 <= index < planes.len() implies (#[trigger] planes[index]).wf() by {
        assert(validate::plane_error(planes[index], Some(index as usize), request.crop) is None);
    }
    assert forall|index: int, x: int, y: int|
        0 <= index < planes.len() && request.crop.x <= x < request.crop.x + request.crop.width
            && request.crop.y <= y < request.crop.y + request.crop.height implies #[trigger]
        planes[index].covers(x, y) by {
        assert(validate::plane_error(planes[index], Some(index as usize), request.crop) is None);
    }
    assert(planes.len() >= 1);
    assert(validate::plane_error(planes[0], Some(0), request.crop) is None);
}

/// A pixel has as many channels as its format says.
pub(crate) proof fn lemma_channel_total(
    planes: Seq<PlaneView>,
    alpha: Option<PlaneView>,
    request: OutputFormatRequest,
    x: int,
    y: int,
)
    requires
        accepted(planes, alpha, request),
        channels_at(planes, alpha, request, x, y) is Ok,
        request.pixel_format !is Rgbe,
    ensures
        channels_at(planes, alpha, request, x, y)->Ok_0.len()
            == request.pixel_format.layout().channels(),
{
    lemma_accepted(planes, alpha, request);
}

/// Returns four components of the output colour format at a place of the crop.
pub(crate) fn color_components(
    planes: &[ComponentPlane<'_>],
    request: OutputFormatRequest,
    x: usize,
    y: usize,
    Ghost(alpha): Ghost<Option<PlaneView>>,
) -> (result: Result<[i32; 4], OutputFormatError>)
    requires
        accepted(validate::plane_views(planes@), alpha, request),
        x < request.crop.width,
        y < request.crop.height,
    ensures
        match (
            result,
            color_at(validate::plane_views(planes@), request, x as int, y as int),
        ) {
            (Ok(colors), Ok(expected)) => colors@ == expected,
            (Err(error), Err(expected)) => error == expected,
            _ => false,
        },
{
    let ghost views = validate::plane_views(planes@);
    proof {
        lemma_accepted(views, alpha, request);
    }
    let source_x: usize = (request.crop.x as u64 + x as u64) as usize;
    let source_y: usize = (request.crop.y as u64 + y as u64) as usize;
    let count: usize = if planes.len() < 4 {
        planes.len()
    } else {
        4
    };
    let mut input: [i32; 4] = [0;4];
    for component in 0..count
        invariant
            count <= 4,
            count <= planes@.len(),
            source_x == request.crop.x + x,
            source_y == request.crop.y + y,
            x < request.crop.width,
            y < request.crop.height,
            views == validate::plane_views(planes@),
            forall|index: int| 0 <= index < views.len() ==> (#[trigger] views[index]).wf(),
            forall|index: int, x: int, y: int|
                0 <= index < views.len() && request.crop.x <= x < request.crop.x
                    + request.crop.width && request.crop.y <= y < request.crop.y
                    + request.crop.height ==> #[trigger] views[index].covers(x, y),
            forall|earlier: int|
                0 <= earlier < 4 ==> #[trigger] input@[earlier] == (if earlier < component {
                    views[earlier].sample_at(source_x as int, source_y as int)
                } else {
                    0
                }),
    {
        assert(views[component as int] == planes@[component as int]@);
        assert(views[component as int].covers(source_x as int, source_y as int));
        input[component] = planes[component].sample(source_x, source_y);
    }
    assert(input@ =~= component_samples(views, request, x as int, y as int));
    if is_direct(request.internal_color, request.output_color) {
        return Ok(input);
    }
    convert(
        request.internal_color,
        request.output_color,
        input.as_slice(),
        is_packed_depth(request.bit_depth),
        request.red_blue_not_swapped,
    )
}

/// Puts components in a buffer, in the order of a layout.
fn arrange(colors: [i32; 4], layout: ChannelLayout, channels: &mut Vec<i32>)
    requires
        old(channels)@.len() == 0,
    ensures
        final(channels)@ == arranged(colors@, layout),
{
    match layout {
        ChannelLayout::Luma | ChannelLayout::LumaAlpha => {
            channels.push(colors[0]);
        },
        ChannelLayout::Bgr | ChannelLayout::Bgra => {
            channels.push(colors[2]);
            channels.push(colors[1]);
            channels.push(colors[0]);
        },
        ChannelLayout::Bgrx => {
            channels.push(colors[2]);
            channels.push(colors[1]);
            channels.push(colors[0]);
            channels.push(0);
        },
        ChannelLayout::Yuv(_) | ChannelLayout::Yuva(_) | ChannelLayout::Rgb
        | ChannelLayout::Rgba => {
            channels.push(colors[0]);
            channels.push(colors[1]);
            channels.push(colors[2]);
        },
        _ => {
            channels.push(colors[0]);
            channels.push(colors[1]);
            channels.push(colors[2]);
            channels.push(colors[3]);
        },
    }
    assert(channels@ =~= arranged(colors@, layout));
}

/// Puts the samples of all planes at a place in a buffer.
fn gather_samples(planes: &[ComponentPlane<'_>], x: usize, y: usize, channels: &mut Vec<i32>)
    requires
        old(channels)@.len() == 0,
        forall|index: int|
            0 <= index < planes@.len() ==> (#[trigger] planes@[index])@.wf()
                && planes@[index]@.covers(x as int, y as int),
    ensures
        final(channels)@ == Seq::new(
            planes@.len(),
            |component: int| validate::plane_views(planes@)[component].sample_at(x as int, y as int),
        ),
{
    let ghost expected = Seq::new(
        planes@.len(),
        |component: int| validate::plane_views(planes@)[component].sample_at(x as int, y as int),
    );
    for component in 0..planes.len()
        invariant
            forall|index: int|
                0 <= index < planes@.len() ==> (#[trigger] planes@[index])@.wf()
                    && planes@[index]@.covers(x as int, y as int),
            expected == Seq::new(
                planes@.len(),
                |component: int|
                    validate::plane_views(planes@)[component].sample_at(x as int, y as int),
            ),
            channels@ == expected.take(component as int),
    {
        channels.push(planes[component].sample(x, y));
        assert(channels@ =~= expected.take(component as int + 1));
    }
    assert(channels@ =~= expected);
}

/// Puts the samples of the channels of a pixel in a buffer, alpha last.
fn ordered_components(
    planes: &[ComponentPlane<'_>],
    alpha: &Option<ComponentPlane<'_>>,
    request: OutputFormatRequest,
    x: usize,
    y: usize,
    channels: &mut Vec<i32>,
) -> (result: Result<(), OutputFormatError>)
    requires
        accepted(validate::plane_views(planes@), validate::optional_view(*alpha), request),
        x < request.crop.width,
        y < request.crop.height,
    ensures
        match (
            result,
            channels_at(
                validate::plane_views(planes@),
                validate::optional_view(*alpha),
                request,
                x as int,
                y as int,
            ),
        ) {
            (Ok(_), Ok(expected)) => final(channels)@ == expected,
            (Err(error), Err(expected)) => error == expected,
            _ => false,
        },
{
    let ghost views = validate::plane_views(planes@);
    let ghost alpha_view = validate::optional_view(*alpha);
    proof {
        lemma_accepted(views, alpha_view, request);
    }
    let source_x: usize = (request.crop.x as u64 + x as u64) as usize;
    let source_y: usize = (request.crop.y as u64 + y as u64) as usize;
    channels.clear();
    let counted: bool = match request.output_color {
        ColorFormat::NComponent(_) => true,
        _ => false,
    };
    if counted {
        assert forall|index: int| 0 <= index < planes@.len() implies (#[trigger] planes@[index])@.wf()
            && planes@[index]@.covers(source_x as int, source_y as int) by {
            assert(views[index] == planes@[index]@);
            assert(views[index].covers(source_x as int, source_y as int));
        }
        gather_samples(planes, source_x, source_y, channels);
    } else {
        let colors: [i32; 4] = color_components(planes, request, x, y, Ghost(alpha_view))?;
        arrange(colors, request.pixel_format.layout(), channels);
    }
    if let Some(plane) = alpha {
        assert(plane@.covers(source_x as int, source_y as int));
        channels.push(plane.sample(source_x, source_y));
    }
    Ok(())
}

fn clamp_result(value: i32, low: i32, high: i32) -> (number: i64)
    ensures
        number == clamp_sample(value, low, high),
{
    clamp_sample(value, low, high) as i64
}

fn scale_integer(request: OutputFormatRequest, sample: i32, channel: usize, alpha: bool) -> (result:
    Result<i32, OutputFormatError>)
    ensures
        result == integer_of(request, sample, channel, alpha),
{
    if is_padding(request.pixel_format, channel, alpha) {
        return Ok(0);
    }
    if alpha {
        let format = request.alpha_request();
        scale_integer_component(
            sample,
            channel,
            ColorFormat::Luma,
            format.bit_depth,
            format.scaled,
        )
    } else {
        scale_integer_component(
            sample,
            channel,
            request.output_color,
            request.bit_depth,
            request.scaled,
        )
    }
}

/// Whether an executable number is the one that is expected.
pub open spec fn numbers_agree(
    result: Result<i64, OutputFormatError>,
    expected: Result<int, OutputFormatError>,
) -> bool {
    match (result, expected) {
        (Ok(number), Ok(expected)) => number == expected,
        (Err(error), Err(expected)) => error == expected,
        _ => false,
    }
}

fn format_element(request: OutputFormatRequest, sample: i32, channel: usize, alpha: bool) -> (
result: Result<i64, OutputFormatError>)
    ensures
        numbers_agree(result, element_of(request, sample, channel, alpha)),
        result matches Ok(number) ==> validate::depth_fits_storage(
            request.bit_depth,
            request.pixel_format,
        ) && !(request.pixel_format is BitPacked) && !is_packed_depth(request.bit_depth)
            && !(request.pixel_format is Rgbe) ==> storable(
            storage_of(request.pixel_format),
            number as int,
        ),
{
    let scaled: bool = if alpha {
        request.alpha_request().scaled
    } else {
        request.scaled
    };
    let depth: OutputBitDepth = if alpha {
        request.alpha_request().bit_depth
    } else {
        request.bit_depth
    };
    match request.bit_depth {
        OutputBitDepth::F16 => {
            if is_padding(request.pixel_format, channel, alpha) {
                return Ok(0);
            }
            let bits: u16 = float16_bits(sample, scaled)?;
            Ok(bits as i64)
        },
        OutputBitDepth::F32 { .. } => {
            if is_padding(request.pixel_format, channel, alpha) {
                return Ok(0);
            }
            match depth {
                OutputBitDepth::F32 { mantissa_length, exponent_bias } => {
                    let bits: u32 = float32_bits(sample, scaled, mantissa_length, exponent_bias)?;
                    Ok(bits as i64)
                },
                _ => Err(
                    OutputFormatError::unsupported("alpha and primary floating-point depth"),
                ),
            }
        },
        _ => {
            let value: i32 = scale_integer(request, sample, channel, alpha)?;
            Ok(
                match request.bit_depth {
                    OutputBitDepth::U8 => clamp_result(value, 0, 255),
                    OutputBitDepth::U10 => clamp_result(value, 0, 1_023),
                    OutputBitDepth::U16 { .. } => clamp_result(value, 0, 65_535),
                    OutputBitDepth::I16 { .. } => clamp_result(value, -32_768, 32_767),
                    _ => value as i64,
                },
            )
        },
    }
}

fn packed_field(request: OutputFormatRequest, sample: i32, component: usize) -> (result: Result<
    i64,
    OutputFormatError,
>)
    ensures
        numbers_agree(result, field_of(request, sample, component)),
        result matches Ok(number) ==> 0 <= number <= field_maximum(request.bit_depth, component),
{
    let value: i32 = scale_integer_component(
        sample,
        component,
        ColorFormat::Rgb,
        request.bit_depth,
        request.scaled,
    )?;
    Ok(clamp_result(value, 0, field_maximum(request.bit_depth, component)))
}

fn packed_word(request: OutputFormatRequest, colors: [i32; 4]) -> (result: Result<
    i64,
    OutputFormatError,
>)
    ensures
        numbers_agree(result, word_of(request, colors@)),
        result matches Ok(number) ==> validate::depth_fits_storage(
            request.bit_depth,
            request.pixel_format,
        ) && is_packed_depth(request.bit_depth) ==> storable(
            storage_of(request.pixel_format),
            number as int,
        ),
{
    let red: i64 = packed_field(request, colors[0], 0)?;
    let green: i64 = packed_field(request, colors[1], 1)?;
    let blue: i64 = packed_field(request, colors[2], 2)?;
    Ok(
        match request.bit_depth {
            OutputBitDepth::Rgb555 => blue + 0x20 * green + 0x400 * red,
            OutputBitDepth::Rgb565 => blue + 0x20 * green + 0x800 * red,
            _ => blue + 0x400 * green + 0x10_0000 * red,
        },
    )
}

fn shared_exponent_word<O: Fn(PixelOperator, [i64; 3]) -> Option<i64>>(
    request: OutputFormatRequest,
    colors: [i32; 4],
    operators: &O,
) -> (result: Result<i64, OutputFormatError>)
    requires
        premultiply::usable(*operators),
    ensures
        result matches Ok(number) ==> 0 <= number <= u32::MAX,
        forall|rule: spec_fn(PixelOperator, Seq<int>) -> Option<int>| #[trigger]
            premultiply::computes(*operators, rule) ==> numbers_agree(
                result,
                shared_word(request, colors@, rule),
            ),
{
    let red: i32 = scale_integer_component(
        colors[0],
        0,
        ColorFormat::Rgbe,
        OutputBitDepth::U8,
        request.scaled,
    )?;
    let green: i32 = scale_integer_component(
        colors[1],
        1,
        ColorFormat::Rgbe,
        OutputBitDepth::U8,
        request.scaled,
    )?;
    let blue: i32 = scale_integer_component(
        colors[2],
        2,
        ColorFormat::Rgbe,
        OutputBitDepth::U8,
        request.scaled,
    )?;
    let values: [i64; 3] = [red as i64, green as i64, blue as i64];
    assert(seq![values[0] as int, values[1] as int, values[2] as int] =~= seq![
        red as int,
        green as int,
        blue as int,
    ]);
    match operators(PixelOperator::PackRgbe, values) {
        Some(word) => Ok(word),
        None => vstd::pervasive::unreached(),
    }
}

/// Whether an executable list of numbers is the one that is expected.
pub open spec fn lists_agree(
    result: Result<(), OutputFormatError>,
    numbers: Seq<i64>,
    expected: Result<Seq<int>, OutputFormatError>,
) -> bool {
    match (result, expected) {
        (Ok(_), Ok(expected)) => numbers.len() == expected.len() && forall|index: int|
            0 <= index < numbers.len() ==> #[trigger] numbers[index] == expected[index],
        (Err(error), Err(expected)) => error == expected,
        _ => false,
    }
}

/// Once a channel is refused, later ones do not matter.
proof fn lemma_channels_stop(
    request: OutputFormatRequest,
    channels: Seq<i32>,
    has_alpha: bool,
    some: nat,
    count: nat,
)
    requires
        some <= count,
    ensures
        channel_values(request, channels, has_alpha, some) is Err ==> channel_values(
            request,
            channels,
            has_alpha,
            count,
        ) == channel_values(request, channels, has_alpha, some),
        channel_values(request, channels, has_alpha, count) is Ok ==> channel_values(
            request,
            channels,
            has_alpha,
            count,
        )->Ok_0.len() == count,
    decreases count,
{
    if count > 0 {
        if some < count {
            lemma_channels_stop(request, channels, has_alpha, some, (count - 1) as nat);
        } else {
            lemma_channels_stop(
                request,
                channels,
                has_alpha,
                (count - 1) as nat,
                (count - 1) as nat,
            );
        }
    }
}

/// Puts the numbers of a pixel in a buffer.
pub(crate) fn format_pixel<O: Fn(PixelOperator, [i64; 3]) -> Option<i64>>(
    planes: &[ComponentPlane<'_>],
    alpha: &Option<ComponentPlane<'_>>,
    request: OutputFormatRequest,
    x: usize,
    y: usize,
    channels: &mut Vec<i32>,
    numbers: &mut Vec<i64>,
    operators: &O,
) -> (result: Result<(), OutputFormatError>)
    requires
        premultiply::usable(*operators),
        accepted(validate::plane_views(planes@), validate::optional_view(*alpha), request),
        x < request.crop.width,
        y < request.crop.height,
    ensures
        result is Ok ==> final(numbers)@.len() == values_per_pixel(request.pixel_format),
        result is Ok && !(request.pixel_format is BitPacked) ==> forall|index: int|
            0 <= index < final(numbers)@.len() ==> storable(
                storage_of(request.pixel_format),
                #[trigger] final(numbers)@[index] as int,
            ),
        forall|rule: spec_fn(PixelOperator, Seq<int>) -> Option<int>| #[trigger]
            premultiply::computes(*operators, rule) ==> lists_agree(
                result,
                final(numbers)@,
                pixel_values(
                    validate::plane_views(planes@),
                    validate::optional_view(*alpha),
                    request,
                    x as int,
                    y as int,
                    rule,
                ),
            ),
{
    let ghost views = validate::plane_views(planes@);
    let ghost alpha_view = validate::optional_view(*alpha);
    numbers.clear();
    match storage_of(request.pixel_format) {
        Storage::Rgb555 | Storage::Rgb565 | Storage::Rgb101010 => {
            let colors: [i32; 4] = color_components(planes, request, x, y, Ghost(alpha_view))?;
            numbers.push(packed_word(request, colors)?);
            return Ok(());
        },
        Storage::Rgbe => {
            let colors: [i32; 4] = color_components(planes, request, x, y, Ghost(alpha_view))?;
            numbers.push(shared_exponent_word(request, colors, operators)?);
            return Ok(());
        },
        _ => {},
    }
    ordered_components(planes, alpha, request, x, y, channels)?;
    let count: usize = channels.len();
    proof {
        lemma_channel_total(views, alpha_view, request, x as int, y as int);
    }
    let has_alpha: bool = alpha.is_some();
    let ghost inputs = channels@;
    for channel in 0..count
        invariant
            count == inputs.len(),
            inputs == channels@,
            has_alpha == (*alpha is Some),
            alpha_view == validate::optional_view(*alpha),
            views == validate::plane_views(planes@),
            channels_at(views, alpha_view, request, x as int, y as int) == Ok::<
                Seq<i32>,
                OutputFormatError,
            >(inputs),
            !(storage_of(request.pixel_format) is Rgb555),
            !(storage_of(request.pixel_format) is Rgb565),
            !(storage_of(request.pixel_format) is Rgb101010),
            !(storage_of(request.pixel_format) is Rgbe),
            numbers@.len() == channel,
            validate::depth_fits_storage(request.bit_depth, request.pixel_format),
            !(request.pixel_format is BitPacked) ==> forall|index: int|
                0 <= index < channel ==> storable(
                    storage_of(request.pixel_format),
                    #[trigger] numbers@[index] as int,
                ),
            channel_values(request, inputs, has_alpha, channel as nat) is Ok,
            channel_values(request, inputs, has_alpha, channel as nat)->Ok_0.len() == channel,
            forall|index: int|
                0 <= index < channel ==> #[trigger] numbers@[index] == channel_values(
                    request,
                    inputs,
                    has_alpha,
                    channel as nat,
                )->Ok_0[index],
    {
        proof {
            lemma_channels_stop(
                request,
                inputs,
                has_alpha,
                (channel + 1) as nat,
                count as nat,
            );
        }
        numbers.push(
            format_element(request, channels[channel], channel, has_alpha && channel + 1 == count)?,
        );
    }
    Ok(())
}

} // verus!
