//! Laws that relate the ways of formatting.

use crate::output_format::bit_packing;
use crate::output_format::error::OutputFormatError;
use crate::output_format::packing;
use crate::output_format::packing::packs_plain_luma;
use crate::output_format::pixels;
use crate::output_format::premultiply::PixelOperator;
use crate::output_format::request::{OutputBitDepth, OutputFormatRequest, PlaneView};
use crate::output_format::samples;
use crate::output_format::samples::{storage_of, SamplesModel, Storage};
use crate::output_format::scaling;
use crate::output_format::simd_pack;
use crate::output_format::simd_pack::byte_addition;
use crate::output_format::validate;
use crate::reconstruct::raster;
use crate::types::ColorFormat;
use vstd::prelude::*;

verus! {

/// Formatting into storage of the right kind and size gives what formatting into new storage
/// gives.
pub proof fn lemma_direct_equals_owned(
    planes: Seq<PlaneView>,
    alpha: Option<PlaneView>,
    request: OutputFormatRequest,
    destination: SamplesModel,
    rule: spec_fn(PixelOperator, Seq<int>) -> Option<int>,
)
    requires
        destination.storage == storage_of(request.pixel_format),
        packing::size_error(request) is None ==> destination.values.len() == packing::number_count(
            request,
        ),
    ensures
        packing::formatted_into(planes, alpha, request, destination, rule) == packing::formatted(
            planes,
            alpha,
            request,
            rule,
        ),
{
}

/// The byte that vector units pack is the scaled and clipped sample.
pub proof fn lemma_byte_is_scaled_sample(request: OutputFormatRequest, sample: i32)
    requires
        request.bit_depth == OutputBitDepth::U8,
        request.output_color == ColorFormat::Luma,
        request.pixel_format.layout() == crate::types::ChannelLayout::Luma,
        sample <= i32::MAX - byte_addition(request.scaled),
    ensures
        pixels::element_of(request, sample, 0, false) == Ok::<int, OutputFormatError>(
            simd_pack::byte_of(sample, request.scaled) as int,
        ),
{
    vstd::arithmetic::power2::lemma2_to64();
    let scaled = scaling::scaled_component(
        sample,
        0,
        ColorFormat::Luma,
        OutputBitDepth::U8,
        request.scaled,
    );
    let raised = sample + byte_addition(request.scaled);
    let divided = if request.scaled {
        raised / 8
    } else {
        raised
    };
    assert(scaling::divisor_of(OutputBitDepth::U8, 0, request.scaled) == if request.scaled {
        8int
    } else {
        1
    });
    assert(divided * vstd::arithmetic::power2::pow2(0) == divided) by (nonlinear_arith)
        requires
            vstd::arithmetic::power2::pow2(0) == 1,
    ;
    assert(scaled == Ok::<i32, OutputFormatError>(divided as i32));
}

/// Packing a luma plane with vector units gives what packing it sample by sample gives, where no
/// sample of the crop is too large to be raised.
pub proof fn lemma_vector_packing_agrees(
    planes: Seq<PlaneView>,
    request: OutputFormatRequest,
    rule: spec_fn(PixelOperator, Seq<int>) -> Option<int>,
)
    requires
        pixels::accepted(planes, None, request),
        packs_plain_luma(request, false),
        forall|x: int, y: int|
            request.crop.x <= x < request.crop.x + request.crop.width && request.crop.y <= y
                < request.crop.y + request.crop.height ==> #[trigger] planes[0].sample_at(x, y)
                <= i32::MAX - byte_addition(request.scaled),
    ensures
        packing::plain_values(planes, None, request, rule) == packing::image_values(
            planes,
            None,
            request,
            (request.crop.height * request.crop.width) as nat,
            rule,
        ),
        packing::plain_values(planes, None, request, rule) is Ok,
{
    let plane = planes[0];
    let width = request.crop.width as int;
    let height = request.crop.height as int;
    let start = packing::crop_start(plane, request);
    pixels::lemma_accepted(planes, None, request);
    validate::lemma_planes_error(planes, planes.len(), planes.len(), request.crop);
    assert(validate::plane_error(plane, Some(0), request.crop) is None);
    lemma_rows_can_be_packed(planes, request, height as nat);
    let bytes = samples::numbers(
        simd_pack::window_bytes(
            plane.samples,
            plane.stride as int,
            start,
            width,
            height,
            request.scaled,
        ),
    );
    assert(height * width >= 0) by (nonlinear_arith)
        requires
            height >= 0,
            width >= 0,
    ;
    lemma_bytes_are_pixels(planes, request, (height * width) as nat, rule);
    assert(bytes.take(height * width) =~= bytes);
}

/// The rows of a plane that covers the crop can be packed.
proof fn lemma_rows_can_be_packed(planes: Seq<PlaneView>, request: OutputFormatRequest, rows: nat)
    requires
        planes.len() >= 1,
        validate::plane_error(planes[0], Some(0), request.crop) is None,
        rows <= request.crop.height,
        forall|x: int, y: int|
            request.crop.x <= x < request.crop.x + request.crop.width && request.crop.y <= y
                < request.crop.y + request.crop.height ==> #[trigger] planes[0].sample_at(x, y)
                <= i32::MAX - byte_addition(request.scaled),
    ensures
        simd_pack::rows_error(
            planes[0].samples,
            planes[0].stride as int,
            packing::crop_start(planes[0], request),
            request.crop.width as int,
            rows,
            request.scaled,
        ) is None,
    decreases rows,
{
    if rows > 0 {
        lemma_rows_can_be_packed(planes, request, (rows - 1) as nat);
        let plane = planes[0];
        let width = request.crop.width as int;
        let start = packing::crop_start(plane, request);
        let row = request.crop.y - plane.origin_y + rows - 1;
        let place = simd_pack::row_place(plane.stride as int, start, rows - 1);
        assert(place == row * plane.stride + (request.crop.x - plane.origin_x));
        assert(0 <= row * plane.stride <= plane.stride * (plane.height - 1)) by (nonlinear_arith)
            requires
                0 <= row <= plane.height - 1,
                0 <= plane.stride,
        ;
        assert forall|index: int| place <= index < place + width implies #[trigger]
            plane.samples[index] <= i32::MAX - byte_addition(request.scaled) by {
            let x = request.crop.x + (index - place);
            let y = request.crop.y + rows - 1;
            assert(plane.sample_at(x, y) <= i32::MAX - byte_addition(request.scaled));
        }
    }
}

/// The bytes of the first pixels are the numbers of the first pixels.
proof fn lemma_bytes_are_pixels(
    planes: Seq<PlaneView>,
    request: OutputFormatRequest,
    count: nat,
    rule: spec_fn(PixelOperator, Seq<int>) -> Option<int>,
)
    requires
        pixels::accepted(planes, None, request),
        packs_plain_luma(request, false),
        count <= request.crop.height * request.crop.width,
        forall|x: int, y: int|
            request.crop.x <= x < request.crop.x + request.crop.width && request.crop.y <= y
                < request.crop.y + request.crop.height ==> #[trigger] planes[0].sample_at(x, y)
                <= i32::MAX - byte_addition(request.scaled),
    ensures
        packing::image_values(planes, None, request, count, rule) == Ok::<
            Seq<int>,
            OutputFormatError,
        >(
            samples::numbers(
                simd_pack::window_bytes(
                    planes[0].samples,
                    planes[0].stride as int,
                    packing::crop_start(planes[0], request),
                    request.crop.width as int,
                    request.crop.height as int,
                    request.scaled,
                ),
            ).take(count as int),
        ),
    decreases count,
{
    let plane = planes[0];
    let width = request.crop.width as int;
    let height = request.crop.height as int;
    let start = packing::crop_start(plane, request);
    let bytes = samples::numbers(
        simd_pack::window_bytes(
            plane.samples,
            plane.stride as int,
            start,
            width,
            height,
            request.scaled,
        ),
    );
    if count == 0 {
        assert(bytes.take(0) =~= Seq::<int>::empty());
    } else {
        let index = count - 1;
        lemma_bytes_are_pixels(planes, request, index as nat, rule);
        pixels::lemma_accepted(planes, None, request);
        validate::lemma_planes_error(planes, planes.len(), planes.len(), request.crop);
        assert(validate::plane_error(plane, Some(0), request.crop) is None);
        assert(width > 0) by (nonlinear_arith)
            requires
                width >= 0,
                height * width > 0,
        ;
        raster::lemma_quotient(index, width, height);
        let x = index % width;
        let y = index / width;
        let sample = plane.sample_at(request.crop.x + x, request.crop.y + y);
        let channels = seq![sample];
        assert(pixels::component_samples(planes, request, x, y)[0] == sample);
        assert(pixels::channels_at(planes, None, request, x, y) == Ok::<
            Seq<i32>,
            OutputFormatError,
        >(channels));
        lemma_byte_is_scaled_sample(request, sample);
        reveal_with_fuel(pixels::channel_values, 2);
        assert(pixels::pixel_values(planes, None, request, x, y, rule) == Ok::<
            Seq<int>,
            OutputFormatError,
        >(Seq::<int>::empty().push(simd_pack::byte_of(sample, request.scaled) as int)));
        assert(bytes[index] == simd_pack::byte_of(sample, request.scaled) as int);
        assert(bytes.take(index) + Seq::<int>::empty().push(
            simd_pack::byte_of(sample, request.scaled) as int,
        ) =~= bytes.take(count as int));
    }
}

/// There are as many numbers as channels.
proof fn lemma_channel_length(
    request: OutputFormatRequest,
    channels: Seq<i32>,
    has_alpha: bool,
    count: nat,
)
    requires
        pixels::channel_values(request, channels, has_alpha, count) is Ok,
    ensures
        pixels::channel_values(request, channels, has_alpha, count)->Ok_0.len() == count,
    decreases count,
{
    if count > 0 {
        lemma_channel_length(request, channels, has_alpha, (count - 1) as nat);
    }
}

/// There are as many numbers as the first pixels have.
proof fn lemma_image_length(
    planes: Seq<PlaneView>,
    alpha: Option<PlaneView>,
    request: OutputFormatRequest,
    count: nat,
    rule: spec_fn(PixelOperator, Seq<int>) -> Option<int>,
)
    requires
        pixels::accepted(planes, alpha, request),
        packing::image_values(planes, alpha, request, count, rule) is Ok,
    ensures
        packing::image_values(planes, alpha, request, count, rule)->Ok_0.len() == count
            * pixels::values_per_pixel(request.pixel_format),
    decreases count,
{
    let each = pixels::values_per_pixel(request.pixel_format) as int;
    if count > 0 {
        let index = count - 1;
        let x = index % request.crop.width as int;
        let y = index / request.crop.width as int;
        lemma_image_length(planes, alpha, request, index as nat, rule);
        match storage_of(request.pixel_format) {
            Storage::Rgb555 | Storage::Rgb565 | Storage::Rgb101010 | Storage::Rgbe => {},
            _ => {
                let channels = pixels::channels_at(planes, alpha, request, x, y)->Ok_0;
                pixels::lemma_channel_total(planes, alpha, request, x, y);
                lemma_channel_length(request, channels, alpha is Some, channels.len());
            },
        }
        assert(count * each == index * each + each) by (nonlinear_arith)
            requires
                index == count - 1,
        ;
    } else {
        assert(0 * each == 0) by (nonlinear_arith);
    }
}

/// Formatted samples have the kind and the size that a destination for them must have.
pub proof fn lemma_formatted_size(
    planes: Seq<PlaneView>,
    alpha: Option<PlaneView>,
    request: OutputFormatRequest,
    rule: spec_fn(PixelOperator, Seq<int>) -> Option<int>,
)
    requires
        packing::formatted(planes, alpha, request, rule) is Ok,
    ensures
        packing::formatted(planes, alpha, request, rule)->Ok_0.storage == storage_of(
            request.pixel_format,
        ),
        packing::formatted(planes, alpha, request, rule)->Ok_0.values.len()
            == packing::number_count(request),
{
    let pixels = request.crop.height * request.crop.width;
    assert(pixels >= 0) by (nonlinear_arith)
        requires
            pixels == request.crop.height * request.crop.width,
    ;
    if request.pixel_format is BitPacked {
        let columns = packing::number_count(request);
        assert(columns >= 0) by (nonlinear_arith)
            requires
                columns == request.crop.height * bit_packing::row_bytes(request.crop.width),
        ;
    } else if packs_plain_luma(request, alpha is Some) {
        assert(pixels * 1 == pixels);
    } else {
        lemma_image_length(planes, alpha, request, pixels as nat, rule);
    }
}

} // verus!
