//! Checked crop, clipping, interleaving, and packed output.

use crate::cpu::CpuCapabilities;
use crate::output_format::bit_packing;
use crate::output_format::bit_packing::{fill_bits, row_bytes};
use crate::output_format::error::OutputFormatError;
use crate::output_format::pixels;
use crate::output_format::pixels::{format_pixel, values_per_pixel};
use crate::output_format::premultiply;
use crate::output_format::premultiply::{
    premultiply_elements, premultiply_output, PixelOperator,
};
use crate::output_format::request::{
    ComponentPlane, OutputBitDepth, OutputFormatRequest, PlaneView,
};
use crate::output_format::samples;
use crate::output_format::samples::{storage_of, DecodedSamples, Element, SamplesModel, Storage};
use crate::output_format::simd_pack;
use crate::output_format::simd_pack::pack_u8_into;
use crate::output_format::validate;
use crate::output_format::validate::validate_request;
use crate::reconstruct::raster;
use crate::types::{ChannelLayout, ColorFormat, PixelFormat};
use vstd::prelude::*;

verus! {

/// The numbers of the first pixels of the crop, row by row.
pub open spec fn image_values(
    planes: Seq<PlaneView>,
    alpha: Option<PlaneView>,
    request: OutputFormatRequest,
    count: nat,
    rule: spec_fn(PixelOperator, Seq<int>) -> Option<int>,
) -> Result<Seq<int>, OutputFormatError>
    decreases count,
{
    if count == 0 {
        Ok(Seq::empty())
    } else {
        let width = request.crop.width as int;
        match image_values(planes, alpha, request, (count - 1) as nat, rule) {
            Err(error) => Err(error),
            Ok(earlier) => match pixels::pixel_values(
                planes,
                alpha,
                request,
                (count - 1) % width,
                (count - 1) / width,
                rule,
            ) {
                Err(error) => Err(error),
                Ok(pixel) => Ok(earlier + pixel),
            },
        }
    }
}

/// Once a pixel is refused, later ones do not matter.
proof fn lemma_image_stops(
    planes: Seq<PlaneView>,
    alpha: Option<PlaneView>,
    request: OutputFormatRequest,
    some: nat,
    count: nat,
    rule: spec_fn(PixelOperator, Seq<int>) -> Option<int>,
)
    requires
        some <= count,
        image_values(planes, alpha, request, some, rule) is Err,
    ensures
        image_values(planes, alpha, request, count, rule) == image_values(
            planes,
            alpha,
            request,
            some,
            rule,
        ),
    decreases count,
{
    if some < count {
        lemma_image_stops(planes, alpha, request, some, (count - 1) as nat, rule);
    }
}

/// Whether an executable result is the one that is expected: the same error, or the numbers that
/// were left behind.
pub open spec fn fills(
    result: Result<(), OutputFormatError>,
    values: Seq<int>,
    expected: Result<Seq<int>, OutputFormatError>,
) -> bool {
    match (result, expected) {
        (Ok(_), Ok(expected)) => values == expected,
        (Err(error), Err(expected)) => error == expected,
        _ => false,
    }
}

/// Formats all pixels of the crop, row by row, into a buffer of their size.
fn fill_pixels<T: Element, O: Fn(PixelOperator, [i64; 3]) -> Option<i64>>(
    planes: &[ComponentPlane<'_>],
    alpha: &Option<ComponentPlane<'_>>,
    request: OutputFormatRequest,
    output: &mut Vec<T>,
    operators: &O,
) -> (result: Result<(), OutputFormatError>)
    requires
        premultiply::usable(*operators),
        pixels::accepted(validate::plane_views(planes@), validate::optional_view(*alpha), request),
        !(request.pixel_format is BitPacked),
        old(output)@.len() == (request.crop.height * request.crop.width) * values_per_pixel(
            request.pixel_format,
        ),
        forall|number: int|
            pixels::storable(storage_of(request.pixel_format), number) ==> #[trigger] T::holds(
                number,
            ),
    ensures
        final(output)@.len() == old(output)@.len(),
        forall|rule: spec_fn(PixelOperator, Seq<int>) -> Option<int>| #[trigger]
            premultiply::computes(*operators, rule) ==> fills(
                result,
                samples::numbers(final(output)@),
                image_values(
                    validate::plane_views(planes@),
                    validate::optional_view(*alpha),
                    request,
                    (request.crop.height * request.crop.width) as nat,
                    rule,
                ),
            ),
{
    let ghost views = validate::plane_views(planes@);
    let ghost alpha_view = validate::optional_view(*alpha);
    let ghost pixels = (request.crop.height * request.crop.width) as int;
    let width: usize = request.crop.width as usize;
    let height: usize = request.crop.height as usize;
    let per_pixel: usize = values_per_pixel(request.pixel_format) as usize;
    let total: usize = output.len();
    let mut channels: Vec<i32> = Vec::new();
    let mut numbers: Vec<i64> = Vec::new();
    let mut index: usize = 0;
    assert(samples::numbers(output@).take(0) =~= Seq::<int>::empty());
    assert(0 * width == 0) by (nonlinear_arith);
    assert(0 * per_pixel == 0) by (nonlinear_arith);
    for y in 0..height
        invariant
            premultiply::usable(*operators),
            views == validate::plane_views(planes@),
            alpha_view == validate::optional_view(*alpha),
            pixels::accepted(views, alpha_view, request),
            !(request.pixel_format is BitPacked),
            width == request.crop.width,
            height == request.crop.height,
            per_pixel == values_per_pixel(request.pixel_format),
            pixels == height * width,
            total == pixels * per_pixel,
            total == output@.len(),
            total == old(output)@.len(),
            index == (y * width) * per_pixel,
            forall|number: int|
                pixels::storable(storage_of(request.pixel_format), number) ==> #[trigger] T::holds(
                    number,
                ),
            forall|rule: spec_fn(PixelOperator, Seq<int>) -> Option<int>| #[trigger]
                premultiply::computes(*operators, rule) ==> image_values(
                    views,
                    alpha_view,
                    request,
                    (y * width) as nat,
                    rule,
                ) == Ok::<Seq<int>, OutputFormatError>(
                    samples::numbers(output@).take(index as int),
                ),
    {
        proof {
            assert((y + 1) * width == y * width + width) by (nonlinear_arith);
            assert(0 <= y * width && y * width + width <= height * width) by (nonlinear_arith)
                requires
                    y + 1 <= height,
                    0 <= y,
                    0 <= width,
            ;
        }
        for x in 0..width
            invariant
                premultiply::usable(*operators),
                views == validate::plane_views(planes@),
                alpha_view == validate::optional_view(*alpha),
                pixels::accepted(views, alpha_view, request),
                !(request.pixel_format is BitPacked),
                width == request.crop.width,
                height == request.crop.height,
                per_pixel == values_per_pixel(request.pixel_format),
                pixels == height * width,
                y < height,
                0 <= y * width <= y * width + width <= pixels,
                total == pixels * per_pixel,
                total == output@.len(),
                total == old(output)@.len(),
                index == (y * width + x) * per_pixel,
                forall|number: int|
                    pixels::storable(storage_of(request.pixel_format), number)
                        ==> #[trigger] T::holds(number),
                forall|rule: spec_fn(PixelOperator, Seq<int>) -> Option<int>| #[trigger]
                    premultiply::computes(*operators, rule) ==> image_values(
                        views,
                        alpha_view,
                        request,
                        (y * width + x) as nat,
                        rule,
                    ) == Ok::<Seq<int>, OutputFormatError>(
                        samples::numbers(output@).take(index as int),
                    ),
        {
            let ghost pixel = y * width + x;
            proof {
                raster::lemma_parts(y as int, x as int, width as int);
                assert((pixel + 1) * per_pixel == pixel * per_pixel + per_pixel)
                    by (nonlinear_arith);
                assert(0 <= pixel * per_pixel && pixel * per_pixel + per_pixel <= pixels
                    * per_pixel) by (nonlinear_arith)
                    requires
                        0 <= pixel,
                        pixel + 1 <= pixels,
                        0 <= per_pixel,
                ;
                assert forall|rule: spec_fn(PixelOperator, Seq<int>) -> Option<int>| #[trigger]
                    premultiply::computes(*operators, rule) && image_values(
                        views,
                        alpha_view,
                        request,
                        (pixel + 1) as nat,
                        rule,
                    ) is Err implies image_values(views, alpha_view, request, pixels as nat, rule)
                    == image_values(views, alpha_view, request, (pixel + 1) as nat, rule) by {
                    lemma_image_stops(
                        views,
                        alpha_view,
                        request,
                        (pixel + 1) as nat,
                        pixels as nat,
                        rule,
                    );
                }
            }
            format_pixel(
                planes,
                alpha,
                request,
                x,
                y,
                &mut channels,
                &mut numbers,
                operators,
            )?;
            let ghost before = samples::numbers(output@).take(index as int);
            for place in 0..per_pixel
                invariant
                    per_pixel == numbers@.len(),
                    total == output@.len(),
                    index + per_pixel <= total,
                    before.len() == index,
                    forall|earlier: int|
                        0 <= earlier < index ==> #[trigger] samples::numbers(output@)[earlier]
                            == before[earlier],
                    forall|earlier: int|
                        0 <= earlier < place ==> #[trigger] numbers@[earlier] == samples::numbers(
                            output@,
                        )[index + earlier],
                    forall|number: int|
                        pixels::storable(storage_of(request.pixel_format), number)
                            ==> #[trigger] T::holds(number),
                    forall|earlier: int|
                        0 <= earlier < per_pixel ==> pixels::storable(
                            storage_of(request.pixel_format),
                            #[trigger] numbers@[earlier] as int,
                        ),
            {
                assert(pixels::storable(
                    storage_of(request.pixel_format),
                    numbers@[place as int] as int,
                ));
                assert(T::holds(numbers@[place as int] as int));
                let element: T = T::from_number(numbers[place]);
                let ghost earlier_output = output@;
                output.set(index + place, element);
                proof {
                    assert forall|earlier: int| 0 <= earlier < index implies #[trigger]
                        samples::numbers(output@)[earlier] == before[earlier] by {
                        assert(samples::numbers(earlier_output)[earlier] == before[earlier]);
                    }
                    assert forall|earlier: int| 0 <= earlier < place + 1 implies #[trigger]
                        numbers@[earlier] == samples::numbers(output@)[index + earlier] by {
                        if earlier < place {
                            assert(numbers@[earlier] == samples::numbers(earlier_output)[index
                                + earlier]);
                        }
                    }
                }
            }
            proof {
                assert forall|rule: spec_fn(PixelOperator, Seq<int>) -> Option<int>| #[trigger]
                    premultiply::computes(*operators, rule) implies image_values(
                    views,
                    alpha_view,
                    request,
                    (pixel + 1) as nat,
                    rule,
                ) == Ok::<Seq<int>, OutputFormatError>(
                    samples::numbers(output@).take(index + per_pixel),
                ) by {
                    let expected = pixels::pixel_values(
                        views,
                        alpha_view,
                        request,
                        x as int,
                        y as int,
                        rule,
                    )->Ok_0;
                    let after = samples::numbers(output@).take(index + per_pixel);
                    assert forall|place: int| 0 <= place < index + per_pixel implies after[place]
                        == (before + expected)[place] by {
                        if place < index {
                            assert(samples::numbers(output@)[place] == before[place]);
                        } else {
                            assert(numbers@[place - index] == samples::numbers(output@)[index + (
                            place - index)]);
                            assert(numbers@[place - index] == expected[place - index]);
                        }
                    }
                    assert(after =~= before + expected);
                }
            }
            index = index + per_pixel;
        }
    }
    proof {
        assert(samples::numbers(output@).take(total as int) =~= samples::numbers(output@));
    }
    Ok(())
}

/// Whether bytes are packed from one luma plane.
#[verifier::allow_in_spec]
pub fn packs_plain_luma(request: OutputFormatRequest, has_alpha: bool) -> bool
    returns
        (request.internal_color == ColorFormat::Luma && request.output_color == ColorFormat::Luma
            && !has_alpha && request.pixel_format == PixelFormat::U8(ChannelLayout::Luma)),
{
    request.internal_color == ColorFormat::Luma && request.output_color == ColorFormat::Luma
        && !has_alpha && request.pixel_format == PixelFormat::U8(ChannelLayout::Luma)
}

/// Where the crop begins in a plane.
pub open spec fn crop_start(plane: PlaneView, request: OutputFormatRequest) -> Seq<usize> {
    seq![
        (request.crop.x - plane.origin_x) as usize,
        (request.crop.y - plane.origin_y) as usize,
    ]
}

/// The numbers of all pixels of the crop, before colours are multiplied by alpha.
pub open spec fn plain_values(
    planes: Seq<PlaneView>,
    alpha: Option<PlaneView>,
    request: OutputFormatRequest,
    rule: spec_fn(PixelOperator, Seq<int>) -> Option<int>,
) -> Result<Seq<int>, OutputFormatError> {
    let width = request.crop.width;
    let height = request.crop.height;
    if request.pixel_format is BitPacked {
        match bit_packing::image_bits(planes, request, (height * width) as nat) {
            Err(error) => Err(error),
            Ok(bits) => Ok(bit_packing::packed_bits(bits, width, height)),
        }
    } else if packs_plain_luma(request, alpha is Some) {
        let plane = planes[0];
        let start = crop_start(plane, request);
        match simd_pack::rows_error(
            plane.samples,
            plane.stride as int,
            start,
            width as int,
            height as nat,
            request.scaled,
        ) {
            Some(error) => Err(error),
            None => Ok(
                samples::numbers(
                    simd_pack::window_bytes(
                        plane.samples,
                        plane.stride as int,
                        start,
                        width as int,
                        height as int,
                        request.scaled,
                    ),
                ),
            ),
        }
    } else {
        image_values(planes, alpha, request, (height * width) as nat, rule)
    }
}

/// The numbers that a request asks for.
pub open spec fn number_count(request: OutputFormatRequest) -> int {
    if request.pixel_format is BitPacked {
        request.crop.height * row_bytes(request.crop.width)
    } else {
        (request.crop.height * request.crop.width) * values_per_pixel(request.pixel_format)
    }
}

/// Whether the numbers that are formatted are counted without loss.
pub open spec fn size_error(request: OutputFormatRequest) -> Option<OutputFormatError> {
    let pixels = request.crop.height * request.crop.width;
    if pixels > usize::MAX {
        Some(OutputFormatError::arithmetic("calculating output pixel count"))
    } else if pixels * request.pixel_format.layout().channels() > usize::MAX {
        Some(OutputFormatError::arithmetic("calculating output element count"))
    } else {
        None
    }
}

/// Numbers, with colours multiplied by alpha where that is asked for.
pub open spec fn finished(
    values: Result<Seq<int>, OutputFormatError>,
    request: OutputFormatRequest,
    rule: spec_fn(PixelOperator, Seq<int>) -> Option<int>,
) -> Result<SamplesModel, OutputFormatError> {
    match values {
        Err(error) => Err(error),
        Ok(values) => {
            let samples = SamplesModel { storage: storage_of(request.pixel_format), values };
            if request.premultiply_alpha {
                premultiply::premultiplied(
                    samples,
                    request.pixel_format.layout().channels() as int,
                    rule,
                )
            } else {
                Ok(samples)
            }
        },
    }
}

/// The samples that planes are formatted to.
pub open spec fn formatted(
    planes: Seq<PlaneView>,
    alpha: Option<PlaneView>,
    request: OutputFormatRequest,
    rule: spec_fn(PixelOperator, Seq<int>) -> Option<int>,
) -> Result<SamplesModel, OutputFormatError> {
    if validate::request_error(planes, alpha, request) is Some {
        Err(validate::request_error(planes, alpha, request)->0)
    } else if size_error(request) is Some {
        Err(size_error(request)->0)
    } else {
        finished(plain_values(planes, alpha, request, rule), request, rule)
    }
}

/// Whether vector units are used to pack a request.
pub open spec fn packs_with_vectors(
    cpu: CpuCapabilities,
    request: OutputFormatRequest,
    has_alpha: bool,
) -> bool {
    packs_plain_luma(request, has_alpha) && request.crop.height * request.crop.width
        >= simd_pack::MIN_VECTOR_SAMPLES && cpu.vectorizes()
}

/// Returns the count of numbers that a request asks for.
fn output_length(request: OutputFormatRequest) -> (result: Result<usize, OutputFormatError>)
    ensures
        match (result, size_error(request)) {
            (Ok(length), None) => length == number_count(request),
            (Err(error), Some(expected)) => error == expected,
            _ => false,
        },
{
    let width: usize = request.crop.width as usize;
    let height: usize = request.crop.height as usize;
    let pixels: usize = match height.checked_mul(width) {
        Some(pixels) => pixels,
        None => return Err(OutputFormatError::arithmetic("calculating output pixel count")),
    };
    let elements: usize = match pixels.checked_mul(request.pixel_format.channel_count() as usize) {
        Some(elements) => elements,
        None => return Err(OutputFormatError::arithmetic("calculating output element count")),
    };
    match storage_of(request.pixel_format) {
        Storage::BitPacked => {
            let columns: usize = row_bytes(request.crop.width) as usize;
            assert(height * columns <= height * width) by (nonlinear_arith)
                requires
                    0 <= columns <= width,
                    0 <= height,
            ;
            assert(height * columns >= 0) by (nonlinear_arith);
            Ok(height * columns)
        },
        Storage::Rgb555 | Storage::Rgb565 | Storage::Rgb101010 | Storage::Rgbe => Ok(pixels),
        _ => Ok(elements),
    }
}

/// Packs bytes into a buffer of their size.
fn fill_bytes<O: Fn(PixelOperator, [i64; 3]) -> Option<i64>>(
    planes: &[ComponentPlane<'_>],
    alpha: &Option<ComponentPlane<'_>>,
    request: OutputFormatRequest,
    cpu: CpuCapabilities,
    output: &mut Vec<u8>,
    operators: &O,
) -> (result: Result<bool, OutputFormatError>)
    requires
        premultiply::usable(*operators),
        pixels::accepted(validate::plane_views(planes@), validate::optional_view(*alpha), request),
        request.pixel_format is U8,
        size_error(request) is None,
        old(output)@.len() == number_count(request),
    ensures
        final(output)@.len() == old(output)@.len(),
        result matches Ok(vectors) ==> vectors == packs_with_vectors(cpu, request, *alpha is Some),
        forall|rule: spec_fn(PixelOperator, Seq<int>) -> Option<int>| #[trigger]
            premultiply::computes(*operators, rule) ==> fills(
                without_value(result),
                samples::numbers(final(output)@),
                plain_values(
                    validate::plane_views(planes@),
                    validate::optional_view(*alpha),
                    request,
                    rule,
                ),
            ),
{
    if packs_plain_luma(request, alpha.is_some()) {
        proof {
            pixels::lemma_accepted(
                validate::plane_views(planes@),
                validate::optional_view(*alpha),
                request,
            );
            assert(validate::plane_views(planes@)[0] == planes@[0]@);
            validate::lemma_planes_error(
                validate::plane_views(planes@),
                planes@.len(),
                planes@.len(),
                request.crop,
            );
            assert(validate::plane_error(planes@[0]@, Some(0), request.crop) is None);
        }
        let plane: ComponentPlane<'_> = planes[0];
        let start: [usize; 2] = [
            (request.crop.x - plane.origin_x) as usize,
            (request.crop.y - plane.origin_y) as usize,
        ];
        let dimensions: [usize; 2] = [request.crop.width as usize, request.crop.height as usize];
        assert(start@ =~= crop_start(plane@, request));
        assert(dimensions[0] == request.crop.width && dimensions[1] == request.crop.height);
        assert(values_per_pixel(request.pixel_format) == 1);
        let ghost area = request.crop.height * request.crop.width;
        assert(area * 1 == area) by (nonlinear_arith);
        assert(number_count(request) == area);
        let result: Result<bool, OutputFormatError> = pack_u8_into(
            cpu,
            plane.samples,
            plane.stride,
            start,
            dimensions,
            request.scaled,
            output,
        );
        assert(simd_pack::packing_error(
            plane@.samples,
            plane@.stride as int,
            start@,
            request.crop.width as int,
            request.crop.height as int,
            request.scaled,
            old(output)@.len() as int,
        ) == simd_pack::rows_error(
            plane@.samples,
            plane@.stride as int,
            start@,
            request.crop.width as int,
            request.crop.height as nat,
            request.scaled,
        ));
        result
    } else {
        fill_pixels(planes, alpha, request, output, operators)?;
        Ok(false)
    }
}

/// A result without its value.
pub open spec fn without_value<T>(result: Result<T, OutputFormatError>) -> Result<
    (),
    OutputFormatError,
> {
    match result {
        Ok(_) => Ok(()),
        Err(error) => Err(error),
    }
}

/// Packs all pixels of the crop into storage of their kind and size.
fn fill_storage<O: Fn(PixelOperator, [i64; 3]) -> Option<i64>>(
    planes: &[ComponentPlane<'_>],
    alpha: &Option<ComponentPlane<'_>>,
    request: OutputFormatRequest,
    cpu: CpuCapabilities,
    destination: &mut DecodedSamples,
    operators: &O,
) -> (result: Result<bool, OutputFormatError>)
    requires
        premultiply::usable(*operators),
        pixels::accepted(validate::plane_views(planes@), validate::optional_view(*alpha), request),
        size_error(request) is None,
        old(destination)@.storage == storage_of(request.pixel_format),
        old(destination)@.values.len() == number_count(request),
    ensures
        final(destination)@.storage == old(destination)@.storage,
        final(destination)@.values.len() == old(destination)@.values.len(),
        result matches Ok(vectors) ==> vectors == packs_with_vectors(cpu, request, *alpha is Some),
        forall|rule: spec_fn(PixelOperator, Seq<int>) -> Option<int>| #[trigger]
            premultiply::computes(*operators, rule) ==> fills(
                without_value(result),
                final(destination)@.values,
                plain_values(
                    validate::plane_views(planes@),
                    validate::optional_view(*alpha),
                    request,
                    rule,
                ),
            ),
{
    match destination {
        DecodedSamples::BitPacked(output) => {
            fill_bits(planes, request, output, Ghost(validate::optional_view(*alpha)))?;
        },
        DecodedSamples::U8(output) => {
            return fill_bytes(planes, alpha, request, cpu, output, operators);
        },
        DecodedSamples::U16(output) => {
            fill_pixels(planes, alpha, request, output, operators)?;
        },
        DecodedSamples::I16(output) => {
            fill_pixels(planes, alpha, request, output, operators)?;
        },
        DecodedSamples::I32(output) => {
            fill_pixels(planes, alpha, request, output, operators)?;
        },
        DecodedSamples::F16(output) => {
            fill_pixels(planes, alpha, request, output, operators)?;
        },
        DecodedSamples::F32(output) => {
            fill_pixels(planes, alpha, request, output, operators)?;
        },
        DecodedSamples::Rgb555(output) => {
            fill_pixels(planes, alpha, request, output, operators)?;
        },
        DecodedSamples::Rgb565(output) => {
            fill_pixels(planes, alpha, request, output, operators)?;
        },
        DecodedSamples::Rgb101010(output) => {
            fill_pixels(planes, alpha, request, output, operators)?;
        },
        DecodedSamples::Rgbe(output) => {
            fill_pixels(planes, alpha, request, output, operators)?;
        },
    }
    Ok(false)
}

/// Returns a buffer of elements that stand for zero.
fn zeros<T: Element>(length: usize) -> (elements: Vec<T>)
    requires
        T::holds(0),
    ensures
        elements@.len() == length,
        forall|index: int| 0 <= index < length ==> (#[trigger] elements@[index]).number() == 0,
{
    let mut elements: Vec<T> = Vec::with_capacity(length);
    for index in 0..length
        invariant
            T::holds(0),
            elements@.len() == index,
            forall|place: int| 0 <= place < index ==> (#[trigger] elements@[place]).number() == 0,
    {
        elements.push(T::from_number(0));
    }
    elements
}

/// Returns storage of a kind and size.
fn allocate(storage: Storage, length: usize) -> (samples: DecodedSamples)
    ensures
        samples@.storage == storage,
        samples@.values.len() == length,
{
    match storage {
        Storage::BitPacked => DecodedSamples::BitPacked(zeros(length)),
        Storage::U8 => DecodedSamples::U8(zeros(length)),
        Storage::U16 => DecodedSamples::U16(zeros(length)),
        Storage::I16 => DecodedSamples::I16(zeros(length)),
        Storage::I32 => DecodedSamples::I32(zeros(length)),
        Storage::F16 => DecodedSamples::F16(zeros(length)),
        Storage::F32 => DecodedSamples::F32(zeros(length)),
        Storage::Rgb555 => DecodedSamples::Rgb555(zeros(length)),
        Storage::Rgb565 => DecodedSamples::Rgb565(zeros(length)),
        Storage::Rgb101010 => DecodedSamples::Rgb101010(zeros(length)),
        Storage::Rgbe => DecodedSamples::Rgbe(zeros(length)),
    }
}

/// The elements of an image are a whole number of pixels.
proof fn lemma_whole_pixels(request: OutputFormatRequest)
    requires
        !(request.pixel_format is BitPacked),
        values_per_pixel(request.pixel_format) == request.pixel_format.layout().channels(),
        request.pixel_format.layout().channels() >= 1,
    ensures
        number_count(request) % (request.pixel_format.layout().channels() as int) == 0,
{
    let pixels = request.crop.height * request.crop.width;
    let channels = request.pixel_format.layout().channels() as int;
    assert(pixels >= 0) by (nonlinear_arith)
        requires
            pixels == request.crop.height * request.crop.width,
    ;
    raster::lemma_parts(pixels, 0, channels);
}

/// Whether executable samples are the ones that are expected.
pub open spec fn gives(
    result: Result<SamplesModel, OutputFormatError>,
    expected: Result<SamplesModel, OutputFormatError>,
) -> bool {
    match (result, expected) {
        (Ok(samples), Ok(expected)) => samples == expected,
        (Err(error), Err(expected)) => error == expected,
        _ => false,
    }
}

/// Samples, or why there are none.
pub open spec fn samples_of(result: Result<(DecodedSamples, bool), OutputFormatError>) -> Result<
    SamplesModel,
    OutputFormatError,
> {
    match result {
        Ok((samples, _)) => Ok(samples@),
        Err(error) => Err(error),
    }
}

/// Formats reconstructed signed planes into typed samples, and says whether vector units were
/// used.
pub fn format_components_with_cpu<O: Fn(PixelOperator, [i64; 3]) -> Option<i64>>(
    planes: &[ComponentPlane<'_>],
    alpha: Option<ComponentPlane<'_>>,
    request: OutputFormatRequest,
    cpu: CpuCapabilities,
    operators: &O,
) -> (result: Result<(DecodedSamples, bool), OutputFormatError>)
    requires
        premultiply::usable(*operators),
    ensures
        result matches Ok((_, vectors)) ==> vectors == packs_with_vectors(
            cpu,
            request,
            alpha is Some,
        ),
        forall|rule: spec_fn(PixelOperator, Seq<int>) -> Option<int>| #[trigger]
            premultiply::computes(*operators, rule) ==> gives(
                samples_of(result),
                formatted(
                    validate::plane_views(planes@),
                    validate::optional_view(alpha),
                    request,
                    rule,
                ),
            ),
{
    validate_request(planes, &alpha, request)?;
    let length: usize = output_length(request)?;
    let mut samples: DecodedSamples = allocate(storage_of(request.pixel_format), length);
    let vectors: bool = fill_storage(planes, &alpha, request, cpu, &mut samples, operators)?;
    if request.premultiply_alpha {
        proof {
            if premultiply::premultiplier(samples@.storage) is Some {
                lemma_whole_pixels(request);
            }
        }
        premultiply_output(&mut samples, request.pixel_format, operators)?;
    }
    Ok((samples, vectors))
}

/// Format reconstructed signed planes into typed host samples.
///
/// YUV input must already be 4:4:4. `alpha` is a reconstructed luma plane and
/// is formatted with the same depth, scaling flag, and crop as the primary image.
pub fn format_components<O: Fn(PixelOperator, [i64; 3]) -> Option<i64>>(
    planes: &[ComponentPlane<'_>],
    alpha: Option<ComponentPlane<'_>>,
    request: OutputFormatRequest,
    operators: &O,
) -> (result: Result<DecodedSamples, OutputFormatError>)
    requires
        premultiply::usable(*operators),
    ensures
        forall|rule: spec_fn(PixelOperator, Seq<int>) -> Option<int>| #[trigger]
            premultiply::computes(*operators, rule) ==> gives(
                (match result {
                    Ok(samples) => Ok(samples@),
                    Err(error) => Err(error),
                }),
                formatted(
                    validate::plane_views(planes@),
                    validate::optional_view(alpha),
                    request,
                    rule,
                ),
            ),
{
    let (samples, _) = format_components_with_cpu(
        planes,
        alpha,
        request,
        CpuCapabilities::detect(),
        operators,
    )?;
    Ok(samples)
}

/// The bytes that planes are formatted to in a buffer of so many bytes.
pub open spec fn bytes_formatted(
    planes: Seq<PlaneView>,
    alpha: Option<PlaneView>,
    request: OutputFormatRequest,
    available: int,
    rule: spec_fn(PixelOperator, Seq<int>) -> Option<int>,
) -> Result<SamplesModel, OutputFormatError> {
    if validate::request_error(planes, alpha, request) is Some {
        Err(validate::request_error(planes, alpha, request)->0)
    } else if !(request.pixel_format is U8) {
        Err(
            OutputFormatError::unsupported(
                "direct U8 output requires an eight-bit U8 pixel format",
            ),
        )
    } else if size_error(request) is Some {
        Err(OutputFormatError::arithmetic("calculating direct U8 output size"))
    } else if available != number_count(request) {
        Err(
            OutputFormatError::unsupported(
                "direct U8 destination length differs from the output contract",
            ),
        )
    } else {
        finished(plain_values(planes, alpha, request, rule), request, rule)
    }
}

/// Formats planes into a buffer of bytes, and says whether vector units were used.
pub fn format_components_u8_into_with_cpu<O: Fn(PixelOperator, [i64; 3]) -> Option<i64>>(
    planes: &[ComponentPlane<'_>],
    alpha: Option<ComponentPlane<'_>>,
    request: OutputFormatRequest,
    cpu: CpuCapabilities,
    output: &mut Vec<u8>,
    operators: &O,
) -> (result: Result<bool, OutputFormatError>)
    requires
        premultiply::usable(*operators),
    ensures
        final(output)@.len() == old(output)@.len(),
        result matches Ok(vectors) ==> vectors == packs_with_vectors(cpu, request, alpha is Some),
        forall|rule: spec_fn(PixelOperator, Seq<int>) -> Option<int>| #[trigger]
            premultiply::computes(*operators, rule) ==> gives(
                (match result {
                    Ok(_) => Ok(
                        SamplesModel {
                            storage: Storage::U8,
                            values: samples::numbers(final(output)@),
                        },
                    ),
                    Err(error) => Err(error),
                }),
                bytes_formatted(
                    validate::plane_views(planes@),
                    validate::optional_view(alpha),
                    request,
                    old(output)@.len() as int,
                    rule,
                ),
            ),
{
    validate_request(planes, &alpha, request)?;
    let bytes: bool = match request.pixel_format {
        PixelFormat::U8(_) => true,
        _ => false,
    };
    if !bytes || request.bit_depth != OutputBitDepth::U8 {
        return Err(
            OutputFormatError::unsupported(
                "direct U8 output requires an eight-bit U8 pixel format",
            ),
        );
    }
    let expected: usize = match output_length(request) {
        Ok(length) => length,
        Err(_) => {
            return Err(OutputFormatError::arithmetic("calculating direct U8 output size"));
        },
    };
    if output.len() != expected {
        return Err(
            OutputFormatError::unsupported(
                "direct U8 destination length differs from the output contract",
            ),
        );
    }
    let vectors: bool = fill_bytes(planes, &alpha, request, cpu, output, operators)?;
    if request.premultiply_alpha {
        proof {
            lemma_whole_pixels(request);
        }
        premultiply_elements(
            output,
            request.pixel_format.channel_count() as usize,
            PixelOperator::PremultiplyUnsigned(255),
            operators,
        )?;
    }
    Ok(vectors)
}

/// The samples that planes are formatted to in storage of a kind and size.
pub open spec fn formatted_into(
    planes: Seq<PlaneView>,
    alpha: Option<PlaneView>,
    request: OutputFormatRequest,
    destination: SamplesModel,
    rule: spec_fn(PixelOperator, Seq<int>) -> Option<int>,
) -> Result<SamplesModel, OutputFormatError> {
    if validate::request_error(planes, alpha, request) is Some {
        Err(validate::request_error(planes, alpha, request)->0)
    } else if destination.storage != storage_of(request.pixel_format) {
        Err(
            OutputFormatError::unsupported(
                "direct destination type differs from the output format",
            ),
        )
    } else if size_error(request) is Some {
        Err(size_error(request)->0)
    } else if destination.values.len() != number_count(request) {
        Err(
            OutputFormatError::unsupported(
                "direct destination length differs from the output contract",
            ),
        )
    } else {
        finished(plain_values(planes, alpha, request, rule), request, rule)
    }
}

/// Formats planes into storage that is already there, and says whether vector units were used.
pub fn format_components_into_with_cpu<O: Fn(PixelOperator, [i64; 3]) -> Option<i64>>(
    planes: &[ComponentPlane<'_>],
    alpha: Option<ComponentPlane<'_>>,
    request: OutputFormatRequest,
    cpu: CpuCapabilities,
    destination: &mut DecodedSamples,
    operators: &O,
) -> (result: Result<bool, OutputFormatError>)
    requires
        premultiply::usable(*operators),
    ensures
        final(destination)@.storage == old(destination)@.storage,
        final(destination)@.values.len() == old(destination)@.values.len(),
        result matches Ok(vectors) ==> vectors == packs_with_vectors(cpu, request, alpha is Some),
        forall|rule: spec_fn(PixelOperator, Seq<int>) -> Option<int>| #[trigger]
            premultiply::computes(*operators, rule) ==> gives(
                (match result {
                    Ok(_) => Ok(final(destination)@),
                    Err(error) => Err(error),
                }),
                formatted_into(
                    validate::plane_views(planes@),
                    validate::optional_view(alpha),
                    request,
                    old(destination)@,
                    rule,
                ),
            ),
{
    validate_request(planes, &alpha, request)?;
    if !destination.matches_format(request.pixel_format) {
        return Err(
            OutputFormatError::unsupported(
                "direct destination type differs from the output format",
            ),
        );
    }
    let expected: usize = output_length(request)?;
    if destination.len() != expected {
        return Err(
            OutputFormatError::unsupported(
                "direct destination length differs from the output contract",
            ),
        );
    }
    let vectors: bool = fill_storage(planes, &alpha, request, cpu, destination, operators)?;
    if request.premultiply_alpha {
        proof {
            if premultiply::premultiplier(destination@.storage) is Some {
                lemma_whole_pixels(request);
            }
        }
        premultiply_output(destination, request.pixel_format, operators)?;
    }
    Ok(vectors)
}

} // verus!
