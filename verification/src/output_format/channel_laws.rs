//! What the numbers of formatted pixels are made of.

use crate::output_format::bit_packing;
use crate::output_format::color;
use crate::output_format::crop_laws;
use crate::output_format::error::OutputFormatError;
use crate::output_format::packing;
use crate::output_format::pixels;
use crate::output_format::premultiply;
use crate::output_format::premultiply::PixelOperator;
use crate::output_format::request::{OutputBitDepth, OutputFormatRequest, PlaneView};
use crate::output_format::samples;
use crate::output_format::samples::{SamplesModel, Storage};
use crate::output_format::scaling;
use crate::output_format::simd_pack;
use crate::output_format::validate;
use crate::reconstruct::raster;
use crate::types::{ChannelLayout, ColorFormat, PixelFormat};
use vstd::arithmetic::power2::*;
use vstd::prelude::*;

verus! {

/// What a channel holds.
pub enum Meaning {
    /// A component of the output colour format.
    Color(int),
    /// Alpha.
    Alpha,
    /// Nothing.
    Padding,
}

/// What each channel of a layout holds: blue comes first in the layouts that are named so, alpha
/// comes last, and so does padding.
pub open spec fn meaning_of(layout: ChannelLayout, channel: int) -> Meaning {
    match layout {
        ChannelLayout::Luma => Meaning::Color(0),
        ChannelLayout::LumaAlpha => if channel == 0 {
            Meaning::Color(0)
        } else {
            Meaning::Alpha
        },
        ChannelLayout::Yuv(_) | ChannelLayout::Rgb | ChannelLayout::Cmyk
        | ChannelLayout::NComponent(_) => Meaning::Color(channel),
        ChannelLayout::Yuva(_) | ChannelLayout::Rgba => if channel < 3 {
            Meaning::Color(channel)
        } else {
            Meaning::Alpha
        },
        ChannelLayout::Rgbx => if channel < 3 {
            Meaning::Color(channel)
        } else {
            Meaning::Padding
        },
        ChannelLayout::Bgr => Meaning::Color(2 - channel),
        ChannelLayout::Bgra => if channel < 3 {
            Meaning::Color(2 - channel)
        } else {
            Meaning::Alpha
        },
        ChannelLayout::Bgrx => if channel < 3 {
            Meaning::Color(2 - channel)
        } else {
            Meaning::Padding
        },
        ChannelLayout::Cmyka => if channel < 4 {
            Meaning::Color(channel)
        } else {
            Meaning::Alpha
        },
        ChannelLayout::NComponentAlpha(count) => if channel < count {
            Meaning::Color(channel)
        } else {
            Meaning::Alpha
        },
    }
}

/// The sample of a plane at a place of the crop.
pub open spec fn sample_of(
    plane: PlaneView,
    request: OutputFormatRequest,
    x: int,
    y: int,
) -> i32 {
    plane.samples[(request.crop.y + y - plane.origin_y) * plane.stride + (request.crop.x + x
        - plane.origin_x)]
}

/// A component of the output colour format at a place of the crop.
pub open spec fn color_sample(
    planes: Seq<PlaneView>,
    request: OutputFormatRequest,
    x: int,
    y: int,
    component: int,
) -> i32 {
    if request.output_color is NComponent {
        sample_of(planes[component], request, x, y)
    } else {
        pixels::color_at(planes, request, x, y)->Ok_0[component]
    }
}

/// Half of the range of unsigned numbers, before their left shift.
pub open spec fn half_range(depth: OutputBitDepth) -> int {
    match depth {
        OutputBitDepth::Rgb555 => 16,
        OutputBitDepth::Rgb565 => 32,
        OutputBitDepth::U8 => 128,
        OutputBitDepth::U10 => 512,
        OutputBitDepth::Rgb101010 => 512,
        OutputBitDepth::U16 { shift_bits } => 0x8000int / (pow2(shift_bits as nat) as int),
        _ => 0,
    }
}

/// What a colour sample is moved by: half of the range, a quarter of it up for the inks of CMYK and
/// a quarter of it down for its black.
pub open spec fn color_bias(color: ColorFormat, component: int, depth: OutputBitDepth) -> int {
    if color == ColorFormat::Cmyk {
        if component == 3 {
            -(half_range(depth) / 2)
        } else {
            half_range(depth) / 2
        }
    } else {
        half_range(depth)
    }
}

/// A sample moved by a bias, and in scaled streams divided by eight and rounded.
pub open spec fn unscaled(sample: i32, bias: int, depth: OutputBitDepth, scaled: bool) -> int {
    let rounding = match depth {
        OutputBitDepth::Bit1White => 4int,
        OutputBitDepth::Bit1Black => 4,
        OutputBitDepth::U16 { shift_bits } => 4,
        _ => 3,
    };
    if scaled {
        (sample + 8 * bias + rounding) / 8
    } else {
        sample + bias
    }
}

/// The left shift of a bit depth.
pub open spec fn left_shift(depth: OutputBitDepth) -> nat {
    match depth {
        OutputBitDepth::U16 { shift_bits } => shift_bits as nat,
        OutputBitDepth::I16 { shift_bits } => shift_bits as nat,
        OutputBitDepth::I32 { shift_bits } => shift_bits as nat,
        _ => 0,
    }
}

/// Whether numbers of a bit depth are whole.
pub open spec fn is_whole(depth: OutputBitDepth) -> bool {
    match depth {
        OutputBitDepth::U8 | OutputBitDepth::U10 | OutputBitDepth::U16 { .. }
        | OutputBitDepth::I16 { .. } | OutputBitDepth::I32 { .. } => true,
        _ => false,
    }
}

/// A number, moved to the nearest one that a bit depth has.
pub open spec fn ranged(depth: OutputBitDepth, number: int) -> int {
    match depth {
        OutputBitDepth::U8 => nearest(number, 0, 255),
        OutputBitDepth::U10 => nearest(number, 0, 1023),
        OutputBitDepth::U16 { .. } => nearest(number, 0, 65535),
        OutputBitDepth::I16 { .. } => nearest(number, -32768, 32767),
        _ => number,
    }
}

/// The nearest number from `low` to `high`.
pub open spec fn nearest(number: int, low: int, high: int) -> int {
    if number < low {
        low
    } else if number > high {
        high
    } else {
        number
    }
}

/// The whole number of a sample.
pub open spec fn whole_number(sample: i32, bias: int, depth: OutputBitDepth, scaled: bool) -> int {
    unscaled(sample, bias, depth, scaled) * pow2(left_shift(depth))
}

pub(crate) proof fn lemma_scaled_component(
    sample: i32,
    component: int,
    color: ColorFormat,
    depth: OutputBitDepth,
    scaled: bool,
)
    requires
        depth != OutputBitDepth::Rgb565,
        color != ColorFormat::Rgbe,
        0 <= component < 4 || color != ColorFormat::Cmyk,
        scaling::scaled_component(sample, component, color, depth, scaled) is Ok,
    ensures
        scaling::scaled_component(sample, component, color, depth, scaled)->Ok_0 == whole_number(
            sample,
            color_bias(color, component, depth),
            depth,
            scaled,
        ),
{
}

proof fn lemma_channel(
    request: OutputFormatRequest,
    channels: Seq<i32>,
    has_alpha: bool,
    count: nat,
    channel: int,
)
    requires
        pixels::channel_values(request, channels, has_alpha, count) is Ok,
        0 <= channel < count,
    ensures
        pixels::channel_values(request, channels, has_alpha, count)->Ok_0.len() == count,
        pixels::element_of(
            request,
            channels[channel],
            channel as usize,
            has_alpha && channel + 1 == channels.len(),
        ) == Ok::<int, OutputFormatError>(
            pixels::channel_values(request, channels, has_alpha, count)->Ok_0[channel],
        ),
    decreases count,
{
    if count == 1 {
        assert(pixels::channel_values(request, channels, has_alpha, 0) == Ok::<
            Seq<int>,
            OutputFormatError,
        >(Seq::empty()));
    } else if channel < count - 1 {
        lemma_channel(request, channels, has_alpha, (count - 1) as nat, channel);
    } else {
        lemma_channel(request, channels, has_alpha, (count - 1) as nat, 0);
    }
}

/// Whether the number of a channel is made of the right sample: of a colour, of alpha, or of none.
pub open spec fn number_made(
    planes: Seq<PlaneView>,
    alpha: Option<PlaneView>,
    request: OutputFormatRequest,
    x: int,
    y: int,
    channel: int,
    number: int,
) -> bool {
    match meaning_of(request.pixel_format.layout(), channel) {
        Meaning::Padding => number == 0,
        Meaning::Alpha => {
            let format = request.alpha_request();
            let sample = sample_of(alpha->0, request, x, y);
            &&& alpha is Some
            &&& is_whole(request.bit_depth) && format.bit_depth != OutputBitDepth::Rgb565
                ==> number == ranged(
                request.bit_depth,
                whole_number(
                    sample,
                    half_range(format.bit_depth),
                    format.bit_depth,
                    format.scaled,
                ),
            )
            &&& request.bit_depth == OutputBitDepth::F16 ==> half_written(
                number,
                sample,
                format.scaled,
            )
            &&& request.bit_depth is F32 && format.bit_depth is F32 ==> single_written(
                number,
                sample,
                format.bit_depth,
                format.scaled,
            )
        },
        Meaning::Color(component) => {
            let sample = color_sample(planes, request, x, y, component);
            &&& is_whole(request.bit_depth) ==> number == ranged(
                request.bit_depth,
                whole_number(
                    sample,
                    color_bias(request.output_color, component, request.bit_depth),
                    request.bit_depth,
                    request.scaled,
                ),
            )
            &&& request.bit_depth == OutputBitDepth::F16 ==> half_written(
                number,
                sample,
                request.scaled,
            )
            &&& request.bit_depth is F32 ==> single_written(
                number,
                sample,
                request.bit_depth,
                request.scaled,
            )
        },
    }
}

/// Whether a number is the half-precision pattern of a sample: the sign in its highest bit, and the
/// size, as far as it fits, in the others.
pub open spec fn half_written(number: int, sample: i32, scaled: bool) -> bool {
    let value = unscaled(sample, 0, OutputBitDepth::F16, scaled);
    if value < 0 {
        number == 0x8000 + nearest(-value, 0, 0x7FFF)
    } else {
        number == nearest(value, 0, 0x7FFF)
    }
}

/// Whether a number is the single-precision pattern of a sample.
pub open spec fn single_written(
    number: int,
    sample: i32,
    depth: OutputBitDepth,
    scaled: bool,
) -> bool {
    depth matches OutputBitDepth::F32 { mantissa_length, exponent_bias } && scaling::single_pattern(
        sample,
        scaled,
        mantissa_length,
        exponent_bias,
    ) matches Ok(bits) && bits == number
}

/// Whether the numbers of a pixel stand for its channels, and are not packed in one word.
pub open spec fn has_channels(format: PixelFormat) -> bool {
    match format {
        PixelFormat::U8(_) | PixelFormat::U16(_) | PixelFormat::I16(_) | PixelFormat::I32(_)
        | PixelFormat::F16(_) | PixelFormat::F32(_) => true,
        _ => false,
    }
}

/// Each number of a pixel is made of the sample that its channel stands for: red, green and blue in
/// the order of the layout, alpha last, and zero for padding.
#[verifier::rlimit(60)]
pub proof fn lemma_channels_keep_their_meaning(
    planes: Seq<PlaneView>,
    alpha: Option<PlaneView>,
    request: OutputFormatRequest,
    x: int,
    y: int,
    rule: spec_fn(PixelOperator, Seq<int>) -> Option<int>,
    channel: int,
)
    requires
        pixels::accepted(planes, alpha, request),
        has_channels(request.pixel_format),
        0 <= channel < request.pixel_format.layout().channels(),
    ensures
        pixels::pixel_values(planes, alpha, request, x, y, rule) matches Ok(values)
            ==> values.len() == request.pixel_format.layout().channels() && number_made(
            planes,
            alpha,
            request,
            x,
            y,
            channel,
            values[channel],
        ),
{
    if let Ok(values) = pixels::pixel_values(planes, alpha, request, x, y, rule) {
        let channels = pixels::channels_at(planes, alpha, request, x, y)->Ok_0;
        pixels::lemma_channel_total(planes, alpha, request, x, y);
        lemma_channel(request, channels, alpha is Some, channels.len(), channel);
        pixels::lemma_accepted(planes, alpha, request);
        lemma_channel_sample(planes, alpha, request, x, y, channel);
        lemma_number(
            planes,
            alpha,
            request,
            x,
            y,
            channel,
            channels[channel],
            alpha is Some && channel + 1 == channels.len(),
            values[channel],
        );
    }
}

/// Whether the sample of a channel is the one that the channel stands for.
spec fn sample_fits(
    planes: Seq<PlaneView>,
    alpha: Option<PlaneView>,
    request: OutputFormatRequest,
    x: int,
    y: int,
    channel: int,
    sample: i32,
    is_alpha: bool,
) -> bool {
    match meaning_of(request.pixel_format.layout(), channel) {
        Meaning::Padding => !is_alpha && pixels::is_padding(
            request.pixel_format,
            channel as usize,
            false,
        ),
        Meaning::Alpha => is_alpha && alpha is Some && sample == sample_of(
            alpha->0,
            request,
            x,
            y,
        ),
        Meaning::Color(component) => {
            &&& !is_alpha
            &&& !pixels::is_padding(request.pixel_format, channel as usize, false)
            &&& sample == color_sample(planes, request, x, y, component)
            &&& request.output_color == ColorFormat::Cmyk ==> component == channel && channel < 4
        },
    }
}

#[verifier::rlimit(40)]
proof fn lemma_channel_sample(
    planes: Seq<PlaneView>,
    alpha: Option<PlaneView>,
    request: OutputFormatRequest,
    x: int,
    y: int,
    channel: int,
)
    requires
        validate::layout_has_alpha(request.pixel_format.layout()) == alpha is Some,
        validate::color_fits_layout(request.output_color, request.pixel_format),
        has_channels(request.pixel_format),
        request.output_color matches ColorFormat::NComponent(count) ==> planes.len() == count,
        pixels::channels_at(planes, alpha, request, x, y) is Ok,
        0 <= channel < pixels::channels_at(planes, alpha, request, x, y)->Ok_0.len(),
    ensures
        sample_fits(
            planes,
            alpha,
            request,
            x,
            y,
            channel,
            pixels::channels_at(planes, alpha, request, x, y)->Ok_0[channel],
            alpha is Some && channel + 1 == pixels::channels_at(
                planes,
                alpha,
                request,
                x,
                y,
            )->Ok_0.len(),
        ),
{
    let layout = request.pixel_format.layout();
    let colors = pixels::color_at(planes, request, x, y)->Ok_0;
    let arranged = pixels::arranged(colors, layout);
    match layout {
        ChannelLayout::NComponent(_) | ChannelLayout::NComponentAlpha(_) => {},
        ChannelLayout::Luma | ChannelLayout::LumaAlpha => {
            assert(arranged.len() == 1);
        },
        ChannelLayout::Bgr | ChannelLayout::Bgra => {
            assert(arranged.len() == 3);
            assert(arranged[0] == colors[2] && arranged[1] == colors[1] && arranged[2]
                == colors[0]);
        },
        ChannelLayout::Bgrx => {
            assert(arranged.len() == 4);
        },
        ChannelLayout::Yuv(_) | ChannelLayout::Yuva(_) | ChannelLayout::Rgb
        | ChannelLayout::Rgba => {
            assert(arranged.len() == 3);
        },
        _ => {
            assert(arranged.len() == 4);
        },
    }
}

proof fn lemma_number(
    planes: Seq<PlaneView>,
    alpha: Option<PlaneView>,
    request: OutputFormatRequest,
    x: int,
    y: int,
    channel: int,
    sample: i32,
    is_alpha: bool,
    number: int,
)
    requires
        pixels::accepted(planes, alpha, request),
        has_channels(request.pixel_format),
        0 <= channel < request.pixel_format.layout().channels(),
        sample_fits(planes, alpha, request, x, y, channel, sample, is_alpha),
        pixels::element_of(request, sample, channel as usize, is_alpha) == Ok::<
            int,
            OutputFormatError,
        >(number),
    ensures
        number_made(planes, alpha, request, x, y, channel, number),
{
    let color = request.output_color;
    let depth = request.bit_depth;
    let format = request.alpha_request();
    match meaning_of(request.pixel_format.layout(), channel) {
        Meaning::Padding => {},
        Meaning::Alpha => {
            if is_whole(depth) && format.bit_depth != OutputBitDepth::Rgb565 {
                lemma_scaled_component(
                    sample,
                    channel,
                    ColorFormat::Luma,
                    format.bit_depth,
                    format.scaled,
                );
            }
            if depth == OutputBitDepth::F16 {
                lemma_half(sample, format.scaled);
            }
        },
        Meaning::Color(component) => {
            if is_whole(depth) {
                lemma_scaled_component(sample, channel, color, depth, request.scaled);
                assert(color_bias(color, channel, depth) == color_bias(color, component, depth));
            }
            if depth == OutputBitDepth::F16 {
                lemma_half(sample, request.scaled);
            }
        },
    }
}

proof fn lemma_half(sample: i32, scaled: bool)
    ensures
        scaling::half_pattern(sample, scaled) matches Ok(bits) ==> half_written(
            bits as int,
            sample,
            scaled,
        ),
{
    if scaling::half_pattern(sample, scaled) is Ok {
        lemma_scaled_component(sample, 0, ColorFormat::Luma, OutputBitDepth::F16, scaled);
        lemma2_to64();
        let value = unscaled(sample, 0, OutputBitDepth::F16, scaled);
        assert(value * 1 == value);
    }
}

/// Whether a number is half of another one, rounded up.
pub open spec fn is_upper_half(half: int, whole: int) -> bool {
    2 * half == whole || 2 * half == whole + 1
}

/// Whether a number is half of another one, rounded down.
pub open spec fn is_lower_half(half: int, whole: int) -> bool {
    2 * half == whole || 2 * half == whole - 1
}

/// Whether red, green and blue belong to luma and two chroma samples: the second chroma sample is
/// what blue exceeds red by, the first one is what green exceeds red and half of that by, and luma
/// is what is left of green.
pub open spec fn rgb_made(red: int, green: int, blue: int, y: int, u: int, v: int) -> bool {
    &&& blue - red == v
    &&& is_upper_half(green - red - u, v)
    &&& is_upper_half(green - y, u)
}

/// Whether inks belong to luma, two chroma samples and black.
pub open spec fn cmyk_made(
    cyan: int,
    magenta: int,
    yellow: int,
    black: int,
    y: int,
    u: int,
    v: int,
    k: int,
) -> bool {
    &&& cyan - yellow == v
    &&& is_lower_half(cyan - magenta - u, v)
    &&& is_lower_half(black - magenta - y, u)
    &&& is_lower_half(black - k, y)
}

/// Whether components of the output colour format belong to the component samples at a place of the
/// crop. In packed words red and blue are exchanged, unless they keep their places.
pub open spec fn colors_made(
    planes: Seq<PlaneView>,
    request: OutputFormatRequest,
    x: int,
    y: int,
    colors: Seq<i32>,
) -> bool {
    let first = sample_of(planes[0], request, x, y) as int;
    let second = sample_of(planes[1], request, x, y) as int;
    let third = sample_of(planes[2], request, x, y) as int;
    let fourth = sample_of(planes[3], request, x, y) as int;
    let packed = request.bit_depth == OutputBitDepth::Rgb555 || request.bit_depth
        == OutputBitDepth::Rgb565 || request.bit_depth == OutputBitDepth::Rgb101010;
    match (request.internal_color, request.output_color) {
        (ColorFormat::Luma, ColorFormat::Luma) => colors[0] == first,
        (ColorFormat::Luma, ColorFormat::Rgb) => colors[0] == first && colors[1] == first
            && colors[2] == first,
        (ColorFormat::Yuv(_), ColorFormat::Yuv(_)) => colors[0] == first && colors[1] == second
            && colors[2] == third,
        (ColorFormat::Yuv(_), _) => if packed && !request.red_blue_not_swapped {
            rgb_made(
                colors[2] as int,
                colors[1] as int,
                colors[0] as int,
                first,
                second,
                third,
            )
        } else {
            rgb_made(
                colors[0] as int,
                colors[1] as int,
                colors[2] as int,
                first,
                second,
                third,
            )
        },
        (ColorFormat::YuvK, ColorFormat::Cmyk) => cmyk_made(
            colors[0] as int,
            colors[1] as int,
            colors[2] as int,
            colors[3] as int,
            first,
            second,
            third,
            fourth,
        ),
        (ColorFormat::YuvK, _) => colors[0] == second && colors[1] == third && colors[2] == fourth
            && colors[3] == first,
        _ => true,
    }
}

/// The components of the output colour format belong to the component samples.
pub proof fn lemma_colors_belong_to_samples(
    planes: Seq<PlaneView>,
    alpha: Option<PlaneView>,
    request: OutputFormatRequest,
    x: int,
    y: int,
)
    requires
        pixels::accepted(planes, alpha, request),
    ensures
        pixels::color_at(planes, request, x, y) matches Ok(colors) ==> colors_made(
            planes,
            request,
            x,
            y,
            colors,
        ),
{
    pixels::lemma_accepted(planes, alpha, request);
    let input = pixels::component_samples(planes, request, x, y);
    assert(planes.len() > 0 ==> input[0] == sample_of(planes[0], request, x, y));
    assert(planes.len() > 1 ==> input[1] == sample_of(planes[1], request, x, y));
    assert(planes.len() > 2 ==> input[2] == sample_of(planes[2], request, x, y));
    assert(planes.len() > 3 ==> input[3] == sample_of(planes[3], request, x, y));
    assert(validate::conversion_exists(
        request.internal_color,
        request.output_color,
        request.bit_depth,
    ));
}

/// The lower and the middle field of a packed word have so many numbers.
pub open spec fn field_sizes(depth: OutputBitDepth) -> (int, int) {
    match depth {
        OutputBitDepth::Rgb555 => (32, 32),
        OutputBitDepth::Rgb565 => (32, 64),
        _ => (1024, 1024),
    }
}

/// The number of a field of a packed word; red and blue have one bit less than green in words of 16
/// bits without a gap.
pub open spec fn field_number(request: OutputFormatRequest, sample: i32, green: bool) -> int {
    let depth = request.bit_depth;
    let number = unscaled(sample, half_range(depth), depth, request.scaled);
    let sizes = field_sizes(depth);
    if green {
        nearest(number, 0, sizes.1 - 1)
    } else if depth == OutputBitDepth::Rgb565 {
        nearest(number / 2, 0, sizes.0 - 1)
    } else {
        nearest(number, 0, sizes.0 - 1)
    }
}

proof fn lemma_field(request: OutputFormatRequest, sample: i32, component: usize)
    requires
        component < 3,
        request.bit_depth == OutputBitDepth::Rgb555 || request.bit_depth == OutputBitDepth::Rgb565
            || request.bit_depth == OutputBitDepth::Rgb101010,
        pixels::field_of(request, sample, component) is Ok,
    ensures
        pixels::field_of(request, sample, component)->Ok_0 == field_number(
            request,
            sample,
            component == 1,
        ),
{
    lemma2_to64();
    let depth = request.bit_depth;
    let halved = depth == OutputBitDepth::Rgb565 && component != 1;
    let divisor = scaling::divisor_of(depth, component as int, request.scaled);
    let number = unscaled(sample, half_range(depth), depth, request.scaled);
    let bias = scaling::component_bias(ColorFormat::Rgb, component as int, scaling::bias_of(depth));
    assert(bias == half_range(depth));
    if request.scaled {
        let sum = sample + 8 * half_range(depth) + 3;
        assert(sample + bias * 8 + scaling::rounding_of(depth, true) == sum);
        assert(sum / 16 == (sum / 8) / 2);
        assert(divisor == if halved {
            16int
        } else {
            8
        });
        assert(sum / divisor == if halved {
            sum / 16
        } else {
            sum / 8
        });
    } else {
        let sum = sample + half_range(depth);
        assert(sample + bias * 1 + scaling::rounding_of(depth, false) == sum);
        assert(divisor == if halved {
            2int
        } else {
            1
        });
        assert(sum / divisor == if halved {
            sum / 2
        } else {
            sum
        });
    }
    let divided = if halved {
        number / 2
    } else {
        number
    };
    assert(divided * pow2(0) == divided) by (nonlinear_arith)
        requires
            pow2(0) == 1,
    ;
    assert(scaling::shift_of(depth) == 0);
    assert(scaling::scaled_component(
        sample,
        component as int,
        ColorFormat::Rgb,
        depth,
        request.scaled,
    )->Ok_0 == divided);
}

proof fn lemma_word(red: int, green: int, blue: int)
    ensures
        0 <= blue < 32 && 0 <= green < 32 && 0 <= red ==> {
            let word = blue + 0x20 * green + 0x400 * red;
            word % 32 == blue && (word / 32) % 32 == green && (word / 32) / 32 == red
        },
        0 <= blue < 32 && 0 <= green < 64 && 0 <= red ==> {
            let word = blue + 0x20 * green + 0x800 * red;
            word % 32 == blue && (word / 32) % 64 == green && (word / 32) / 64 == red
        },
        0 <= blue < 1024 && 0 <= green < 1024 && 0 <= red ==> {
            let word = blue + 0x400 * green + 0x10_0000 * red;
            word % 1024 == blue && (word / 1024) % 1024 == green && (word / 1024) / 1024 == red
        },
{
}

/// A packed word holds three fields, none of which reaches into another: the third component in the
/// lowest field, the second one in the middle, and the first one in the highest.
#[verifier::rlimit(40)]
pub proof fn lemma_packed_word_holds_fields(
    planes: Seq<PlaneView>,
    alpha: Option<PlaneView>,
    request: OutputFormatRequest,
    x: int,
    y: int,
    rule: spec_fn(PixelOperator, Seq<int>) -> Option<int>,
)
    requires
        pixels::accepted(planes, alpha, request),
        request.bit_depth == OutputBitDepth::Rgb555 || request.bit_depth == OutputBitDepth::Rgb565
            || request.bit_depth == OutputBitDepth::Rgb101010,
    ensures
        pixels::pixel_values(planes, alpha, request, x, y, rule) matches Ok(values) ==> {
            let (low, middle) = field_sizes(request.bit_depth);
            let colors = pixels::color_at(planes, request, x, y)->Ok_0;
            &&& values.len() == 1
            &&& values[0] % low == field_number(request, colors[2], false)
            &&& (values[0] / low) % middle == field_number(request, colors[1], true)
            &&& (values[0] / low) / middle == field_number(request, colors[0], false)
        },
{
    if let Ok(values) = pixels::pixel_values(planes, alpha, request, x, y, rule) {
        let colors = pixels::color_at(planes, request, x, y)->Ok_0;
        lemma_field(request, colors[0], 0);
        lemma_field(request, colors[1], 1);
        lemma_field(request, colors[2], 2);
        lemma_word(
            field_number(request, colors[0], false),
            field_number(request, colors[1], true),
            field_number(request, colors[2], false),
        );
    }
}

/// Two pixel formats with the same storage, one of which has red first and the other blue.
pub open spec fn reverses(red_first: PixelFormat, blue_first: PixelFormat) -> bool {
    let named = |left: ChannelLayout, right: ChannelLayout|
        {
            ||| left == ChannelLayout::Rgb && right == ChannelLayout::Bgr
            ||| left == ChannelLayout::Rgba && right == ChannelLayout::Bgra
            ||| left == ChannelLayout::Rgbx && right == ChannelLayout::Bgrx
        };
    match (red_first, blue_first) {
        (PixelFormat::U8(left), PixelFormat::U8(right)) => named(left, right),
        (PixelFormat::U16(left), PixelFormat::U16(right)) => named(left, right),
        (PixelFormat::I16(left), PixelFormat::I16(right)) => named(left, right),
        (PixelFormat::I32(left), PixelFormat::I32(right)) => named(left, right),
        (PixelFormat::F16(left), PixelFormat::F16(right)) => named(left, right),
        (PixelFormat::F32(left), PixelFormat::F32(right)) => named(left, right),
        _ => false,
    }
}

/// A request for another pixel format.
pub open spec fn restored(request: OutputFormatRequest, format: PixelFormat) -> OutputFormatRequest {
    OutputFormatRequest { pixel_format: format, ..request }
}

/// Pixels with blue first are those with red first, with the first and the third number exchanged.
pub proof fn lemma_blue_first_is_reversed(
    planes: Seq<PlaneView>,
    alpha: Option<PlaneView>,
    request: OutputFormatRequest,
    format: PixelFormat,
    x: int,
    y: int,
    rule: spec_fn(PixelOperator, Seq<int>) -> Option<int>,
)
    requires
        pixels::accepted(planes, alpha, request),
        pixels::accepted(planes, alpha, restored(request, format)),
        reverses(request.pixel_format, format),
    ensures
        match (
            pixels::pixel_values(planes, alpha, request, x, y, rule),
            pixels::pixel_values(planes, alpha, restored(request, format), x, y, rule),
        ) {
            (Ok(red_first), Ok(blue_first)) => {
                &&& blue_first.len() == red_first.len()
                &&& blue_first[0] == red_first[2]
                &&& blue_first[1] == red_first[1]
                &&& blue_first[2] == red_first[0]
            },
            _ => true,
        },
{
    let other = restored(request, format);
    assert(pixels::component_samples(planes, request, x, y) =~= pixels::component_samples(
        planes,
        other,
        x,
        y,
    ));
    assert(pixels::color_at(planes, request, x, y) == pixels::color_at(planes, other, x, y));
    if pixels::pixel_values(planes, alpha, request, x, y, rule) is Ok && pixels::pixel_values(
        planes,
        alpha,
        other,
        x,
        y,
        rule,
    ) is Ok {
        lemma_channels_keep_their_meaning(planes, alpha, request, x, y, rule, 0);
        lemma_channels_keep_their_meaning(planes, alpha, request, x, y, rule, 1);
        lemma_channels_keep_their_meaning(planes, alpha, request, x, y, rule, 2);
        lemma_channels_keep_their_meaning(planes, alpha, other, x, y, rule, 0);
        lemma_channels_keep_their_meaning(planes, alpha, other, x, y, rule, 1);
        lemma_channels_keep_their_meaning(planes, alpha, other, x, y, rule, 2);
        lemma_rgb_depth(planes, alpha, request);
    }
}

proof fn lemma_rgb_depth(
    planes: Seq<PlaneView>,
    alpha: Option<PlaneView>,
    request: OutputFormatRequest,
)
    requires
        pixels::accepted(planes, alpha, request),
        has_channels(request.pixel_format),
        request.pixel_format.layout() == ChannelLayout::Rgb || request.pixel_format.layout()
            == ChannelLayout::Rgba || request.pixel_format.layout() == ChannelLayout::Rgbx,
    ensures
        request.output_color == ColorFormat::Rgb,
        is_whole(request.bit_depth) || request.bit_depth == OutputBitDepth::F16
            || request.bit_depth is F32,
{
}

/// The number of a channel of a pixel among the numbers of an image: pixels come row by row, and
/// the channels of a pixel one behind the other.
pub open spec fn number_at(
    values: Seq<int>,
    request: OutputFormatRequest,
    x: int,
    y: int,
    channel: int,
) -> int {
    let channels = request.pixel_format.layout().channels() as int;
    values[(y * request.crop.width + x) * channels + channel]
}

/// Each number of a formatted image is made of the sample that its pixel and its channel stand for.
#[verifier::rlimit(60)]
pub proof fn lemma_image_keeps_its_meaning(
    planes: Seq<PlaneView>,
    alpha: Option<PlaneView>,
    request: OutputFormatRequest,
    rule: spec_fn(PixelOperator, Seq<int>) -> Option<int>,
    x: int,
    y: int,
    channel: int,
)
    requires
        has_channels(request.pixel_format),
        !request.premultiply_alpha,
        0 <= x < request.crop.width,
        0 <= y < request.crop.height,
        0 <= channel < request.pixel_format.layout().channels(),
    ensures
        packing::formatted(planes, alpha, request, rule) matches Ok(samples) ==> number_made(
            planes,
            alpha,
            request,
            x,
            y,
            channel,
            number_at(samples.values, request, x, y, channel),
        ),
{
    if let Ok(samples) = packing::formatted(planes, alpha, request, rule) {
        if packing::packs_plain_luma(request, alpha is Some) {
            lemma_plain_luma(planes, alpha, request, x, y);
            assert((y * request.crop.width + x) * 1 + 0 == y * request.crop.width + x);
        } else {
            let width = request.crop.width as int;
            let height = request.crop.height as int;
            let index = y * width + x;
            let size = request.pixel_format.layout().channels() as int;
            assert(0 <= index < height * width) by (nonlinear_arith)
                requires
                    index == y * width + x,
                    0 <= x < width,
                    0 <= y,
                    y + 1 <= height,
            ;
            raster::lemma_parts(y, x, width);
            crop_laws::lemma_image_is_its_pixels(
                planes,
                alpha,
                request,
                (height * width) as nat,
                index,
                rule,
            );
            assert(samples.values.subrange(index * size, index * size + size)[channel]
                == samples.values[index * size + channel]);
            lemma_channels_keep_their_meaning(planes, alpha, request, x, y, rule, channel);
        }
    }
}

proof fn lemma_row_is_raised(
    input: Seq<i32>,
    stride: int,
    start: Seq<usize>,
    width: int,
    rows: nat,
    scaled: bool,
    row: int,
)
    requires
        simd_pack::rows_error(input, stride, start, width, rows, scaled) is None,
        0 <= row < rows,
    ensures
        simd_pack::row_can_be_raised(
            input,
            simd_pack::row_place(stride, start, row),
            width,
            scaled,
        ),
    decreases rows,
{
    if row < rows - 1 {
        lemma_row_is_raised(input, stride, start, width, (rows - 1) as nat, scaled, row);
    }
}

#[verifier::rlimit(40)]
proof fn lemma_plain_luma(
    planes: Seq<PlaneView>,
    alpha: Option<PlaneView>,
    request: OutputFormatRequest,
    x: int,
    y: int,
)
    requires
        pixels::accepted(planes, alpha, request),
        packing::packs_plain_luma(request, alpha is Some),
        0 <= x < request.crop.width,
        0 <= y < request.crop.height,
        simd_pack::rows_error(
            planes[0].samples,
            planes[0].stride as int,
            packing::crop_start(planes[0], request),
            request.crop.width as int,
            request.crop.height as nat,
            request.scaled,
        ) is None,
    ensures
        ({
            let plane = planes[0];
            let bytes = simd_pack::window_bytes(
                plane.samples,
                plane.stride as int,
                packing::crop_start(plane, request),
                request.crop.width as int,
                request.crop.height as int,
                request.scaled,
            );
            number_made(
                planes,
                alpha,
                request,
                x,
                y,
                0,
                samples::numbers(bytes)[y * request.crop.width + x],
            )
        }),
{
    pixels::lemma_accepted(planes, alpha, request);
    let plane = planes[0];
    let width = request.crop.width as int;
    let height = request.crop.height as int;
    let start = packing::crop_start(plane, request);
    assert(0 <= y * width + x < height * width) by (nonlinear_arith)
        requires
            0 <= x < width,
            0 <= y,
            y + 1 <= height,
    ;
    raster::lemma_parts(y, x, width);
    assert(plane.covers(request.crop.x + x, request.crop.y + y));
    assert(plane.covers(request.crop.x as int, request.crop.y as int));
    lemma_colors_belong_to_samples(planes, alpha, request, x, y);
    lemma_row_is_raised(
        plane.samples,
        plane.stride as int,
        start,
        width,
        height as nat,
        request.scaled,
        y,
    );
    let place = simd_pack::row_place(plane.stride as int, start, y);
    assert(plane.samples[place + x] <= i32::MAX - simd_pack::byte_addition(request.scaled));
    assert(place + x == (request.crop.y + y - plane.origin_y) * plane.stride + (request.crop.x + x
        - plane.origin_x));
    assert(request.bit_depth == OutputBitDepth::U8);
    lemma2_to64();
    let sample = sample_of(plane, request, x, y);
    assert(color_sample(planes, request, x, y, 0) == sample);
    let number = unscaled(sample, 128, OutputBitDepth::U8, request.scaled);
    assert(number * 1 == number);
}

/// Whether a kind of storage is multiplied by alpha with an operator.
pub open spec fn multiplies(storage: Storage, operator: PixelOperator) -> bool {
    match storage {
        Storage::U8 => operator == PixelOperator::PremultiplyUnsigned(0xFF),
        Storage::U16 => operator == PixelOperator::PremultiplyUnsigned(0xFFFF),
        Storage::I16 => operator == PixelOperator::PremultiplySigned(0x7FFF),
        Storage::I32 => operator == PixelOperator::PremultiplySigned(0x7FFF_FFFF),
        Storage::F16 => operator == PixelOperator::PremultiplySignMagnitude,
        Storage::F32 => operator == PixelOperator::PremultiplyFloat,
        _ => false,
    }
}

/// Premultiplication multiplies each colour of a pixel by the alpha of the same pixel, and keeps
/// alpha.
pub proof fn lemma_colors_are_multiplied_by_alpha(
    samples: SamplesModel,
    channels: int,
    rule: spec_fn(PixelOperator, Seq<int>) -> Option<int>,
    pixel: int,
    channel: int,
    operator: PixelOperator,
)
    requires
        channels >= 1,
        0 <= channel < channels,
        0 <= pixel,
        (pixel + 1) * channels <= samples.values.len(),
        multiplies(samples.storage, operator),
    ensures
        premultiply::premultiplied(samples, channels, rule) matches Ok(product) ==> {
            let place = pixel * channels + channel;
            let alpha = samples.values[pixel * channels + (channels - 1)];
            &&& product.storage == samples.storage
            &&& product.values.len() == samples.values.len()
            &&& channel == channels - 1 ==> product.values[place] == alpha
            &&& channel < channels - 1 ==> rule(operator, seq![samples.values[place], alpha, 0])
                == Some(product.values[place])
        },
{
    let place = pixel * channels + channel;
    raster::lemma_parts(pixel, channel, channels);
    assert(0 <= place < samples.values.len()) by (nonlinear_arith)
        requires
            place == pixel * channels + channel,
            0 <= pixel,
            0 <= channel < channels,
            (pixel + 1) * channels <= samples.values.len(),
    ;
    let product = premultiply::product(samples.values, channels, place, operator, rule);
    assert(pixel * channels + channels - 1 == pixel * channels + (channels - 1));
}

/// Whether a bit is the one of a sample: set for what is at least one, or the other way round where
/// black is set.
pub open spec fn bit_made(request: OutputFormatRequest, sample: i32, bit: int) -> bool {
    let lit = unscaled(sample, 0, request.bit_depth, request.scaled) >= 1;
    if request.bit_depth == OutputBitDepth::Bit1Black {
        bit == if lit {
            0int
        } else {
            1
        }
    } else {
        bit == if lit {
            1int
        } else {
            0
        }
    }
}

proof fn lemma_bit(
    planes: Seq<PlaneView>,
    alpha: Option<PlaneView>,
    request: OutputFormatRequest,
    x: int,
    y: int,
)
    requires
        pixels::accepted(planes, alpha, request),
        request.pixel_format is BitPacked,
    ensures
        bit_packing::bit_of(planes, request, x, y) matches Ok(bit) ==> bit_made(
            request,
            sample_of(planes[0], request, x, y),
            bit,
        ),
{
    lemma_colors_belong_to_samples(planes, alpha, request, x, y);
    if bit_packing::bit_of(planes, request, x, y) is Ok {
        let sample = pixels::color_at(planes, request, x, y)->Ok_0[0];
        lemma_scaled_component(sample, 0, ColorFormat::Luma, request.bit_depth, request.scaled);
        lemma2_to64();
        let number = unscaled(sample, 0, request.bit_depth, request.scaled);
        assert(number * 1 == number);
    }
}

proof fn lemma_image_bit(
    planes: Seq<PlaneView>,
    request: OutputFormatRequest,
    count: nat,
    index: int,
)
    requires
        bit_packing::image_bits(planes, request, count) is Ok,
        0 <= index < count,
    ensures
        bit_packing::image_bits(planes, request, count)->Ok_0.len() == count,
        bit_packing::bit_of(
            planes,
            request,
            index % (request.crop.width as int),
            index / (request.crop.width as int),
        ) == Ok::<int, OutputFormatError>(
            bit_packing::image_bits(planes, request, count)->Ok_0[index],
        ),
    decreases count,
{
    if count == 1 {
        assert(bit_packing::image_bits(planes, request, 0) == Ok::<Seq<int>, OutputFormatError>(
            Seq::empty(),
        ));
    } else if index < count - 1 {
        lemma_image_bit(planes, request, (count - 1) as nat, index);
    } else {
        lemma_image_bit(planes, request, (count - 1) as nat, 0);
    }
}

/// The bit of a byte, the first one most significant.
pub open spec fn bit_in_byte(byte: int, place: int) -> int {
    if place == 0 {
        byte / 128
    } else if place == 1 {
        (byte / 64) % 2
    } else if place == 2 {
        (byte / 32) % 2
    } else if place == 3 {
        (byte / 16) % 2
    } else if place == 4 {
        (byte / 8) % 2
    } else if place == 5 {
        (byte / 4) % 2
    } else if place == 6 {
        (byte / 2) % 2
    } else {
        byte % 2
    }
}

#[verifier::rlimit(40)]
proof fn lemma_byte_bits(bits: Seq<int>, start: int, count: nat, place: int)
    requires
        count <= 8,
        0 <= place < count,
        forall|index: int| start <= index < start + count ==> 0 <= #[trigger] bits[index] <= 1,
    ensures
        bit_in_byte(bit_packing::byte_of_bits(bits, start, count), place) == bits[start + place],
{
    let bit = |index: int|
        if index < count {
            bits[start + index]
        } else {
            0
        };
    assert forall|index: int| 0 <= index < count implies 0 <= #[trigger] bits[start + index]
        <= 1 by {}
    let sum = |known: int|
        {
            (if known >= 1 {
                128 * bit(0)
            } else {
                0
            }) + (if known >= 2 {
                64 * bit(1)
            } else {
                0
            }) + (if known >= 3 {
                32 * bit(2)
            } else {
                0
            }) + (if known >= 4 {
                16 * bit(3)
            } else {
                0
            }) + (if known >= 5 {
                8 * bit(4)
            } else {
                0
            }) + (if known >= 6 {
                4 * bit(5)
            } else {
                0
            }) + (if known >= 7 {
                2 * bit(6)
            } else {
                0
            }) + (if known >= 8 {
                bit(7)
            } else {
                0
            })
        };
    assert(bit_packing::byte_of_bits(bits, start, 0) == sum(0));
    if count >= 1 {
        lemma_next_bit(bits, start, 1);
    }
    if count >= 2 {
        lemma_next_bit(bits, start, 2);
    }
    if count >= 3 {
        lemma_next_bit(bits, start, 3);
    }
    if count >= 4 {
        lemma_next_bit(bits, start, 4);
    }
    if count >= 5 {
        lemma_next_bit(bits, start, 5);
    }
    if count >= 6 {
        lemma_next_bit(bits, start, 6);
    }
    if count >= 7 {
        lemma_next_bit(bits, start, 7);
    }
    if count >= 8 {
        lemma_next_bit(bits, start, 8);
    }
    assert(bit_packing::byte_of_bits(bits, start, count) == sum(count as int));
    assert(sum(count as int) == sum(8));
    lemma_eight_bits(bit(0), bit(1), bit(2), bit(3), bit(4), bit(5), bit(6), bit(7));
    assert(bit(place) == bits[start + place]);
}

proof fn lemma_eight_bits(
    b0: int,
    b1: int,
    b2: int,
    b3: int,
    b4: int,
    b5: int,
    b6: int,
    b7: int,
)
    requires
        0 <= b0 <= 1,
        0 <= b1 <= 1,
        0 <= b2 <= 1,
        0 <= b3 <= 1,
        0 <= b4 <= 1,
        0 <= b5 <= 1,
        0 <= b6 <= 1,
        0 <= b7 <= 1,
    ensures
        ({
            let byte = 128 * b0 + 64 * b1 + 32 * b2 + 16 * b3 + 8 * b4 + 4 * b5 + 2 * b6 + b7;
            &&& bit_in_byte(byte, 0) == b0
            &&& bit_in_byte(byte, 1) == b1
            &&& bit_in_byte(byte, 2) == b2
            &&& bit_in_byte(byte, 3) == b3
            &&& bit_in_byte(byte, 4) == b4
            &&& bit_in_byte(byte, 5) == b5
            &&& bit_in_byte(byte, 6) == b6
            &&& bit_in_byte(byte, 7) == b7
        }),
{
}

proof fn lemma_next_bit(bits: Seq<int>, start: int, count: nat)
    requires
        1 <= count <= 8,
        0 <= bits[start + count - 1] <= 1,
    ensures
        bit_packing::byte_of_bits(bits, start, count) == bit_packing::byte_of_bits(
            bits,
            start,
            (count - 1) as nat,
        ) + if bits[start + count - 1] == 1 {
            bit_packing::weight((count - 1) as u32) as int
        } else {
            0
        },
{
    let weight = bit_packing::weight((count - 1) as u32) as int;
    let bit = bits[start + count - 1];
    assert(bit * weight == if bit == 1 {
        weight
    } else {
        0
    }) by (nonlinear_arith)
        requires
            0 <= bit <= 1,
    ;
}

/// Each bit of a packed image is made of the sample that it stands for: rows begin with new bytes,
/// and the first pixel of a byte is its most significant bit.
pub proof fn lemma_packed_bits_keep_their_meaning(
    planes: Seq<PlaneView>,
    alpha: Option<PlaneView>,
    request: OutputFormatRequest,
    rule: spec_fn(PixelOperator, Seq<int>) -> Option<int>,
    x: int,
    y: int,
)
    requires
        request.pixel_format is BitPacked,
        !request.premultiply_alpha,
        0 <= x < request.crop.width,
        0 <= y < request.crop.height,
    ensures
        packing::formatted(planes, alpha, request, rule) matches Ok(samples) ==> bit_made(
            request,
            sample_of(planes[0], request, x, y),
            bit_in_byte(
                samples.values[y * ((request.crop.width + 7) / 8) + x / 8],
                x % 8,
            ),
        ),
{
    if let Ok(samples) = packing::formatted(planes, alpha, request, rule) {
        let width = request.crop.width as int;
        let height = request.crop.height as int;
        let columns = bit_packing::row_bytes(request.crop.width) as int;
        assert(columns == (width + 7) / 8);
        let bits = bit_packing::image_bits(planes, request, (height * width) as nat)->Ok_0;
        let column = x / 8;
        let start = y * width + 8 * column;
        let count = bit_packing::bits_in_byte(width, column);
        assert(0 <= y * width && y * width + width <= height * width) by (nonlinear_arith)
            requires
                0 <= y,
                y + 1 <= height,
                width >= 0,
        ;
        assert(0 <= y * columns + column < height * columns) by (nonlinear_arith)
            requires
                0 <= y,
                y + 1 <= height,
                0 <= column < columns,
        ;
        raster::lemma_parts(y, column, columns);
        lemma_image_bit(planes, request, (height * width) as nat, y * width + x);
        raster::lemma_parts(y, x, width);
        lemma_bit(planes, alpha, request, x, y);
        assert forall|index: int| start <= index < start + count implies 0 <= #[trigger] bits[index]
            <= 1 by {
            lemma_image_bit(planes, request, (height * width) as nat, index);
            raster::lemma_parts(y, index - y * width, width);
            lemma_bit(planes, alpha, request, index - y * width, y);
        }
        lemma_byte_bits(bits, start, count, x % 8);
    }
}

/// An image with blue first is the one with red first, with the first and the third number of each
/// pixel exchanged.
pub proof fn lemma_blue_first_image_is_reversed(
    planes: Seq<PlaneView>,
    alpha: Option<PlaneView>,
    request: OutputFormatRequest,
    format: PixelFormat,
    rule: spec_fn(PixelOperator, Seq<int>) -> Option<int>,
    x: int,
    y: int,
    channel: int,
)
    requires
        reverses(request.pixel_format, format),
        !request.premultiply_alpha,
        0 <= x < request.crop.width,
        0 <= y < request.crop.height,
        0 <= channel < 3,
    ensures
        match (
            packing::formatted(planes, alpha, request, rule),
            packing::formatted(planes, alpha, restored(request, format), rule),
        ) {
            (Ok(red_first), Ok(blue_first)) => number_at(
                blue_first.values,
                restored(request, format),
                x,
                y,
                channel,
            ) == number_at(red_first.values, request, x, y, 2 - channel),
            _ => true,
        },
{
    let other = restored(request, format);
    assert(pixels::component_samples(planes, request, x, y) =~= pixels::component_samples(
        planes,
        other,
        x,
        y,
    ));
    assert(pixels::color_at(planes, request, x, y) == pixels::color_at(planes, other, x, y));
    if packing::formatted(planes, alpha, request, rule) is Ok && packing::formatted(
        planes,
        alpha,
        other,
        rule,
    ) is Ok {
        lemma_image_keeps_its_meaning(planes, alpha, request, rule, x, y, 2 - channel);
        lemma_image_keeps_its_meaning(planes, alpha, other, rule, x, y, channel);
        lemma_rgb_depth(planes, alpha, request);
    }
}

} // verus!
