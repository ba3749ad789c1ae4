//! Laws of crops.

use crate::output_format::error::OutputFormatError;
use crate::output_format::packing;
use crate::output_format::pixels;
use crate::output_format::premultiply::PixelOperator;
use crate::output_format::request::{OutputFormatRequest, PlaneView};
use crate::output_format::validate;
use crate::reconstruct::raster;
use crate::types::CropWindow;
use vstd::prelude::*;

verus! {

/// The same request for another window.
pub open spec fn cropped(request: OutputFormatRequest, crop: CropWindow) -> OutputFormatRequest {
    OutputFormatRequest { crop, ..request }
}

/// Whether a window lies in another one.
pub open spec fn within(inner: CropWindow, outer: CropWindow) -> bool {
    &&& outer.x <= inner.x
    &&& inner.x + inner.width <= outer.x + outer.width
    &&& outer.y <= inner.y
    &&& inner.y + inner.height <= outer.y + outer.height
}

/// The numbers of the pixel at a place of an image.
pub open spec fn pixel_of(
    values: Seq<int>,
    request: OutputFormatRequest,
    x: int,
    y: int,
) -> Seq<int> {
    let size = pixels::values_per_pixel(request.pixel_format) as int;
    let index = y * request.crop.width + x;
    values.subrange(index * size, index * size + size)
}

proof fn lemma_planes_accept_crop(
    planes: Seq<PlaneView>,
    count: nat,
    outer: CropWindow,
    inner: CropWindow,
)
    requires
        within(inner, outer),
        validate::planes_error(planes, count, outer) is None,
    ensures
        validate::planes_error(planes, count, inner) is None,
    decreases count,
{
    if count > 0 {
        lemma_planes_accept_crop(planes, (count - 1) as nat, outer, inner);
    }
}

/// Planes that can be formatted for a window can be formatted for a part of it.
pub proof fn lemma_part_is_accepted(
    planes: Seq<PlaneView>,
    alpha: Option<PlaneView>,
    request: OutputFormatRequest,
    crop: CropWindow,
)
    requires
        pixels::accepted(planes, alpha, request),
        within(crop, request.crop),
    ensures
        pixels::accepted(planes, alpha, cropped(request, crop)),
{
    lemma_planes_accept_crop(planes, planes.len(), request.crop, crop);
    assert(validate::matrix_error(cropped(request, crop), alpha is Some)
        == validate::matrix_error(request, alpha is Some));
}

/// How channels are formatted does not depend on the window.
proof fn lemma_channel_values_of_crop(
    request: OutputFormatRequest,
    crop: CropWindow,
    channels: Seq<i32>,
    has_alpha: bool,
    count: nat,
)
    ensures
        pixels::channel_values(cropped(request, crop), channels, has_alpha, count)
            == pixels::channel_values(request, channels, has_alpha, count),
    decreases count,
{
    if count > 0 {
        lemma_channel_values_of_crop(request, crop, channels, has_alpha, (count - 1) as nat);
        let channel = count - 1;
        let alpha = has_alpha && count == channels.len();
        assert(pixels::element_of(
            cropped(request, crop),
            channels[channel],
            channel as usize,
            alpha,
        ) == pixels::element_of(request, channels[channel], channel as usize, alpha));
    }
}

/// A pixel depends on its place in the planes, and not on the window that it is formatted for.
pub proof fn lemma_pixel_does_not_depend_on_crop(
    planes: Seq<PlaneView>,
    alpha: Option<PlaneView>,
    request: OutputFormatRequest,
    crop: CropWindow,
    x: int,
    y: int,
    rule: spec_fn(PixelOperator, Seq<int>) -> Option<int>,
)
    ensures
        pixels::pixel_values(
            planes,
            alpha,
            cropped(request, crop),
            x - crop.x,
            y - crop.y,
            rule,
        ) == pixels::pixel_values(
            planes,
            alpha,
            request,
            x - request.crop.x,
            y - request.crop.y,
            rule,
        ),
{
    let other = cropped(request, crop);
    let (first_x, first_y) = (x - request.crop.x, y - request.crop.y);
    let (other_x, other_y) = (x - crop.x, y - crop.y);
    assert(pixels::component_samples(planes, other, other_x, other_y)
        =~= pixels::component_samples(planes, request, first_x, first_y));
    let channels = pixels::channels_at(planes, alpha, request, first_x, first_y);
    let other_channels = pixels::channels_at(planes, alpha, other, other_x, other_y);
    if request.output_color is NComponent {
        let samples = Seq::new(
            planes.len(),
            |component: int|
                planes[component].sample_at(request.crop.x + first_x, request.crop.y + first_y),
        );
        let other_samples = Seq::new(
            planes.len(),
            |component: int|
                planes[component].sample_at(other.crop.x + other_x, other.crop.y + other_y),
        );
        assert(samples =~= other_samples);
    }
    assert(other_channels == channels);
    if channels is Ok {
        lemma_channel_values_of_crop(
            request,
            crop,
            channels->Ok_0,
            alpha is Some,
            channels->Ok_0.len(),
        );
    }
    let colors = pixels::color_at(planes, request, first_x, first_y);
    assert(pixels::color_at(planes, other, other_x, other_y) == colors);
    assert(pixels::word_of(other, colors->Ok_0) == pixels::word_of(request, colors->Ok_0));
    assert(pixels::shared_word(other, colors->Ok_0, rule) == pixels::shared_word(
        request,
        colors->Ok_0,
        rule,
    ));
}

proof fn lemma_channel_value_count(
    request: OutputFormatRequest,
    channels: Seq<i32>,
    has_alpha: bool,
    count: nat,
)
    ensures
        pixels::channel_values(request, channels, has_alpha, count) matches Ok(values)
            ==> values.len() == count,
    decreases count,
{
    if count > 0 {
        lemma_channel_value_count(request, channels, has_alpha, (count - 1) as nat);
    }
}

/// A pixel has as many numbers as its format says.
proof fn lemma_pixel_size(
    planes: Seq<PlaneView>,
    alpha: Option<PlaneView>,
    request: OutputFormatRequest,
    x: int,
    y: int,
    rule: spec_fn(PixelOperator, Seq<int>) -> Option<int>,
)
    requires
        pixels::accepted(planes, alpha, request),
    ensures
        pixels::pixel_values(planes, alpha, request, x, y, rule) matches Ok(values)
            ==> values.len() == pixels::values_per_pixel(request.pixel_format),
{
    let channels = pixels::channels_at(planes, alpha, request, x, y);
    if channels is Ok && !(request.pixel_format is Rgbe) {
        pixels::lemma_channel_total(planes, alpha, request, x, y);
        lemma_channel_value_count(
            request,
            channels->Ok_0,
            alpha is Some,
            channels->Ok_0.len(),
        );
    }
}

/// The numbers of an image are those of its pixels, one pixel behind the other.
pub(crate) proof fn lemma_image_is_its_pixels(
    planes: Seq<PlaneView>,
    alpha: Option<PlaneView>,
    request: OutputFormatRequest,
    count: nat,
    index: int,
    rule: spec_fn(PixelOperator, Seq<int>) -> Option<int>,
)
    requires
        pixels::accepted(planes, alpha, request),
        packing::image_values(planes, alpha, request, count, rule) is Ok,
    ensures
        ({
            let size = pixels::values_per_pixel(request.pixel_format) as int;
            let width = request.crop.width as int;
            let values = packing::image_values(planes, alpha, request, count, rule)->Ok_0;
            &&& values.len() == count * size
            &&& 0 <= index < count ==> {
                &&& 0 <= index * size
                &&& index * size + size <= values.len()
                &&& pixels::pixel_values(
                    planes,
                    alpha,
                    request,
                    index % width,
                    index / width,
                    rule,
                ) == Ok::<Seq<int>, OutputFormatError>(
                    values.subrange(index * size, index * size + size),
                )
            }
        }),
    decreases count,
{
    let size = pixels::values_per_pixel(request.pixel_format) as int;
    let width = request.crop.width as int;
    if count > 0 {
        let last = count - 1;
        let earlier = packing::image_values(planes, alpha, request, last as nat, rule)->Ok_0;
        let pixel = pixels::pixel_values(planes, alpha, request, last % width, last / width, rule);
        let values = packing::image_values(planes, alpha, request, count, rule)->Ok_0;
        lemma_image_is_its_pixels(planes, alpha, request, last as nat, index, rule);
        lemma_pixel_size(planes, alpha, request, last % width, last / width, rule);
        assert(count * size == last * size + size) by (nonlinear_arith)
            requires
                count == last + 1,
        ;
        if index == last {
            assert(values.subrange(index * size, index * size + size) =~= pixel->Ok_0);
            assert(0 <= index * size) by (nonlinear_arith)
                requires
                    0 <= index,
                    0 <= size,
            ;
        } else if 0 <= index < last {
            assert(values.subrange(index * size, index * size + size) =~= earlier.subrange(
                index * size,
                index * size + size,
            ));
        }
    }
}

/// Where all pixels before it can be formatted, a count of pixels can be formatted.
proof fn lemma_image_succeeds(
    planes: Seq<PlaneView>,
    alpha: Option<PlaneView>,
    request: OutputFormatRequest,
    count: nat,
    rule: spec_fn(PixelOperator, Seq<int>) -> Option<int>,
)
    requires
        forall|index: int|
            0 <= index < count ==> (#[trigger] pixels::pixel_values(
                planes,
                alpha,
                request,
                index % (request.crop.width as int),
                index / (request.crop.width as int),
                rule,
            )) is Ok,
    ensures
        packing::image_values(planes, alpha, request, count, rule) is Ok,
    decreases count,
{
    if count > 0 {
        lemma_image_succeeds(planes, alpha, request, (count - 1) as nat, rule);
        let width = request.crop.width as int;
        let last = count - 1;
        assert(pixels::pixel_values(
            planes,
            alpha,
            request,
            last % width,
            last / width,
            rule,
        ) is Ok);
    }
}

proof fn lemma_pixel_of_image(
    planes: Seq<PlaneView>,
    alpha: Option<PlaneView>,
    request: OutputFormatRequest,
    x: int,
    y: int,
    rule: spec_fn(PixelOperator, Seq<int>) -> Option<int>,
)
    requires
        pixels::accepted(planes, alpha, request),
        0 <= x < request.crop.width,
        0 <= y < request.crop.height,
        packing::image_values(
            planes,
            alpha,
            request,
            (request.crop.height * request.crop.width) as nat,
            rule,
        ) is Ok,
    ensures
        pixels::pixel_values(planes, alpha, request, x, y, rule) == Ok::<
            Seq<int>,
            OutputFormatError,
        >(
            pixel_of(
                packing::image_values(
                    planes,
                    alpha,
                    request,
                    (request.crop.height * request.crop.width) as nat,
                    rule,
                )->Ok_0,
                request,
                x,
                y,
            ),
        ),
{
    let width = request.crop.width as int;
    let index = y * width + x;
    assert(0 <= index < request.crop.height * request.crop.width) by (nonlinear_arith)
        requires
            index == y * width + x,
            0 <= x < width,
            0 <= y,
            y + 1 <= request.crop.height,
            width == request.crop.width,
    ;
    vstd::arithmetic::div_mod::lemma_fundamental_div_mod_converse(index, width, y, x);
    lemma_image_is_its_pixels(
        planes,
        alpha,
        request,
        (request.crop.height * request.crop.width) as nat,
        index,
        rule,
    );
}

/// Formatting a part of a window gives the pixels that formatting the whole window gives there.
/// Colours are taken before they are multiplied by alpha.
pub proof fn lemma_crop_is_part_of_image(
    planes: Seq<PlaneView>,
    alpha: Option<PlaneView>,
    request: OutputFormatRequest,
    crop: CropWindow,
    x: int,
    y: int,
    rule: spec_fn(PixelOperator, Seq<int>) -> Option<int>,
)
    requires
        pixels::accepted(planes, alpha, request),
        within(crop, request.crop),
        crop.x <= x < crop.x + crop.width,
        crop.y <= y < crop.y + crop.height,
        packing::image_values(
            planes,
            alpha,
            request,
            (request.crop.height * request.crop.width) as nat,
            rule,
        ) is Ok,
    ensures
        ({
            let whole = packing::image_values(
                planes,
                alpha,
                request,
                (request.crop.height * request.crop.width) as nat,
                rule,
            );
            let part = packing::image_values(
                planes,
                alpha,
                cropped(request, crop),
                (crop.height * crop.width) as nat,
                rule,
            );
            &&& part is Ok
            &&& pixel_of(part->Ok_0, cropped(request, crop), x - crop.x, y - crop.y) == pixel_of(
                whole->Ok_0,
                request,
                x - request.crop.x,
                y - request.crop.y,
            )
        }),
{
    lemma_part_is_accepted(planes, alpha, request, crop);
    let other = cropped(request, crop);
    let width = crop.width as int;
    let count = (crop.height * crop.width) as nat;
    assert(crop.height * crop.width >= 0) by (nonlinear_arith);
    assert forall|index: int| 0 <= index < count implies (#[trigger] pixels::pixel_values(
        planes,
        alpha,
        other,
        index % (other.crop.width as int),
        index / (other.crop.width as int),
        rule,
    )) is Ok by {
        raster::lemma_quotient(index, width, crop.height as int);
        let (inner_x, inner_y) = (crop.x + index % width, crop.y + index / width);
        lemma_pixel_does_not_depend_on_crop(planes, alpha, request, crop, inner_x, inner_y, rule);
        lemma_pixel_of_image(
            planes,
            alpha,
            request,
            inner_x - request.crop.x,
            inner_y - request.crop.y,
            rule,
        );
    }
    lemma_image_succeeds(planes, alpha, other, count, rule);
    lemma_pixel_of_image(planes, alpha, other, x - crop.x, y - crop.y, rule);
    lemma_pixel_of_image(planes, alpha, request, x - request.crop.x, y - request.crop.y, rule);
    lemma_pixel_does_not_depend_on_crop(planes, alpha, request, crop, x, y, rule);
}

} // verus!
