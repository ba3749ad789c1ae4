//! Laws of planar output.

use crate::output_format::channel_laws;
use crate::output_format::error::OutputFormatError;
use crate::output_format::planar;
use crate::output_format::planar::WindowView;
use crate::output_format::request::{OutputBitDepth, OutputFormatRequest, PlaneView};
use crate::output_format::samples;
use crate::output_format::samples::{storage_of, SamplesModel};
use crate::output_format::scaling;
use crate::output_format::simd_pack;
use crate::output_format::simd_pack::byte_addition;
use crate::output_format::validate;
use crate::reconstruct::kernels;
use crate::reconstruct::packing;
use crate::reconstruct::raster;
use crate::types::{ChromaSampling, ColorFormat};
use vstd::prelude::*;

verus! {

/// The byte that vector units pack is the scaled and clipped sample.
proof fn lemma_byte_is_scaled(sample: i32, component: int, color: ColorFormat, scaled: bool)
    requires
        color == ColorFormat::Luma || color is Yuv,
        sample <= i32::MAX - byte_addition(scaled),
    ensures
        scaling::scaled_component(sample, component, color, OutputBitDepth::U8, scaled) matches Ok(
            value,
        ) && packing::clamp_sample(value, 0, 255) == simd_pack::byte_of(
            sample,
            scaled,
        ),
{
    vstd::arithmetic::power2::lemma2_to64();
    let raised = sample + byte_addition(scaled);
    let divided = if scaled {
        raised / 8
    } else {
        raised
    };
    assert(scaling::divisor_of(OutputBitDepth::U8, component, scaled) == if scaled {
        8int
    } else {
        1
    });
    assert(divided * vstd::arithmetic::power2::pow2(0) == divided) by (nonlinear_arith)
        requires
            vstd::arithmetic::power2::pow2(0) == 1,
    ;
    assert(scaling::scaled_component(sample, component, color, OutputBitDepth::U8, scaled) == Ok::<
        i32,
        OutputFormatError,
    >(divided as i32));
}

/// Whether the samples of a window are bytes of a colour format that vector units can pack.
spec fn holds_bytes(window: WindowView, request: OutputFormatRequest) -> bool {
    &&& request.bit_depth == OutputBitDepth::U8
    &&& planar::is_planar(request.output_color)
    &&& window.alpha ==> request.alpha_request().bit_depth == OutputBitDepth::U8
    &&& validate::plane_error(window.plane, Some(window.component), window.crop) is None
}

/// The bytes of the first samples of a window are their numbers.
proof fn lemma_bytes_are_values(
    window: WindowView,
    request: OutputFormatRequest,
    offset: int,
    count: nat,
)
    requires
        holds_bytes(window, request),
        planar::vector_values(window, request, offset) is Ok,
        count <= window.area(),
    ensures
        planar::window_values(window, request, count) == Ok::<Seq<int>, OutputFormatError>(
            planar::vector_values(window, request, offset)->Ok_0.take(count as int),
        ),
    decreases count,
{
    let values = planar::vector_values(window, request, offset)->Ok_0;
    if count == 0 {
        assert(values.take(0) =~= Seq::<int>::empty());
    } else {
        let index = count - 1;
        lemma_bytes_are_values(window, request, offset, index as nat);
        let plane = window.plane;
        let width = window.crop.width as int;
        let height = window.crop.height as int;
        let scaled = if window.alpha {
            request.alpha_request().scaled
        } else {
            request.scaled
        };
        let start = seq![
            (window.crop.x - plane.origin_x) as usize,
            (window.crop.y - plane.origin_y) as usize,
        ];
        assert(width > 0) by (nonlinear_arith)
            requires
                width >= 0,
                height * width > 0,
        ;
        raster::lemma_quotient(index, width, height);
        let x = index % width;
        let y = index / width;
        simd_pack::lemma_rows_error(
            plane.samples,
            plane.stride as int,
            start,
            width,
            height as nat,
            height as nat,
            scaled,
        );
        let place = simd_pack::row_place(plane.stride as int, start, y);
        let row = window.crop.y - plane.origin_y + y;
        assert(place == row * plane.stride + (window.crop.x - plane.origin_x));
        let sample = plane.sample_at(window.crop.x + x, window.crop.y + y);
        assert(sample == plane.samples[place + x]);
        assert(simd_pack::row_can_be_raised(plane.samples, place, width, scaled));
        let color = if window.alpha {
            ColorFormat::Luma
        } else {
            request.output_color
        };
        lemma_byte_is_scaled(sample, window.component as int, color, scaled);
        assert(values[index] == simd_pack::byte_of(sample, scaled) as int);
        assert(values.take(index).push(values[index]) =~= values.take(count as int));
    }
}

/// Planes of bytes are the same whether or not they are packed with vector units.
proof fn lemma_vectors_do_not_matter(
    windows: Seq<WindowView>,
    request: OutputFormatRequest,
    count: nat,
)
    requires
        count <= windows.len(),
        forall|index: int|
            0 <= index < windows.len() ==> holds_bytes(#[trigger] windows[index], request),
        planar::packed_planes(windows, request, true, count) is Ok,
    ensures
        planar::packed_planes(windows, request, false, count) == planar::packed_planes(
            windows,
            request,
            true,
            count,
        ),
    decreases count,
{
    if count > 0 {
        lemma_vectors_do_not_matter(windows, request, (count - 1) as nat);
        let window = windows[count - 1];
        let earlier = planar::packed_planes(windows, request, true, (count - 1) as nat);
        let offset = earlier->Ok_0.values.len() as int;
        let values = planar::vector_values(window, request, offset);
        assert(holds_bytes(window, request));
        assert(window.area() >= 0) by (nonlinear_arith)
            requires
                window.area() == window.crop.height * window.crop.width,
        ;
        lemma_bytes_are_values(window, request, offset, window.area() as nat);
        assert(values->Ok_0.take(window.area()) =~= values->Ok_0);
    }
}

/// Planes that are packed into storage of the right kind and size are those that are packed into
/// new storage, where that succeeds. Alpha bytes must have been asked for as bytes.
pub proof fn lemma_planar_direct_equals_owned(
    planes: Seq<PlaneView>,
    alpha: Option<PlaneView>,
    request: OutputFormatRequest,
    destination: SamplesModel,
)
    requires
        planar::planar_formatted(planes, alpha, request) is Ok,
        alpha is Some && request.bit_depth == OutputBitDepth::U8
            ==> request.alpha_request().bit_depth == OutputBitDepth::U8,
        destination.storage == storage_of(request.pixel_format),
        destination.values.len() == planar::planar_formatted(
            planes,
            alpha,
            request,
        )->Ok_0.values.len(),
    ensures
        planar::planar_formatted_into(planes, alpha, request, destination)
            == planar::planar_formatted(planes, alpha, request),
{
    let windows = planar::windows_of(planes, alpha, request);
    let vectors = request.bit_depth == OutputBitDepth::U8;
    planar::lemma_planes_are_consecutive(windows, request, vectors, windows.len());
    if vectors {
        planar::lemma_windows_error(windows, windows.len(), windows.len());
        assert forall|index: int| 0 <= index < windows.len() implies holds_bytes(
            #[trigger] windows[index],
            request,
        ) by {
            assert(windows[index].alpha ==> alpha is Some);
        }
        lemma_vectors_do_not_matter(windows, request, windows.len());
    }
}

proof fn lemma_window_value(
    window: WindowView,
    request: OutputFormatRequest,
    count: nat,
    index: int,
)
    requires
        planar::window_values(window, request, count) is Ok,
        0 <= index < count,
    ensures
        planar::window_values(window, request, count)->Ok_0.len() == count,
        planar::window_sample(
            window,
            request,
            index % window.crop.width as int,
            index / window.crop.width as int,
        ) == Ok::<int, OutputFormatError>(
            planar::window_values(window, request, count)->Ok_0[index],
        ),
    decreases count,
{
    if index < count - 1 {
        lemma_window_value(window, request, (count - 1) as nat, index);
    } else if count > 1 {
        lemma_window_value(window, request, (count - 1) as nat, 0);
    } else {
        assert(planar::window_values(window, request, 0) == Ok::<Seq<int>, OutputFormatError>(
            Seq::empty(),
        ));
    }
}

proof fn lemma_plane_value(
    windows: Seq<WindowView>,
    request: OutputFormatRequest,
    count: nat,
    number: int,
    index: int,
)
    requires
        planar::packed_planes(windows, request, false, count) is Ok,
        0 <= number < count,
        0 <= index < windows[number].area(),
    ensures
        planar::window_sample(
            windows[number],
            request,
            index % windows[number].crop.width as int,
            index / windows[number].crop.width as int,
        ) == Ok::<int, OutputFormatError>(
            planar::packed_planes(windows, request, false, count)->Ok_0.values[planar::total_area(
                windows,
                number as nat,
            ) + index],
        ),
        0 <= planar::total_area(windows, number as nat),
        planar::total_area(windows, number as nat) + index < planar::packed_planes(
            windows,
            request,
            false,
            count,
        )->Ok_0.values.len(),
    decreases count,
{
    let earlier = (count - 1) as nat;
    planar::lemma_planes_are_consecutive(windows, request, false, earlier);
    planar::lemma_planes_are_consecutive(windows, request, false, count);
    if number < earlier {
        lemma_plane_value(windows, request, earlier, number, index);
        let window = windows[earlier as int];
        assert(window.crop.height * window.crop.width >= 0) by (nonlinear_arith);
    } else {
        lemma_window_value(
            windows[number],
            request,
            windows[number].area() as nat,
            index,
        );
    }
}

proof fn lemma_starts(windows: Seq<WindowView>, number: int)
    requires
        0 <= number < windows.len() <= 4,
        windows.len() >= 3,
    ensures
        planar::total_area(windows, number as nat) == if number == 0 {
            0
        } else if number == 1 {
            windows[0].area()
        } else if number == 2 {
            windows[0].area() + windows[1].area()
        } else {
            windows[0].area() + windows[1].area() + windows[2].area()
        },
{
    reveal_with_fuel(planar::total_area, 4);
}

proof fn lemma_window_number(window: WindowView, request: OutputFormatRequest, x: int, y: int)
    requires
        planar::window_sample(window, request, x, y) is Ok,
        planar::is_planar(request.output_color),
        planar::has_planar_storage(request),
        request.alpha_request().bit_depth != OutputBitDepth::Rgb565,
    ensures
        planar::window_sample(window, request, x, y)->Ok_0 == channel_laws::ranged(
            request.bit_depth,
            if window.alpha {
                channel_laws::whole_number(
                    window.plane.sample_at(window.crop.x + x, window.crop.y + y),
                    channel_laws::half_range(request.alpha_request().bit_depth),
                    request.alpha_request().bit_depth,
                    request.alpha_request().scaled,
                )
            } else {
                channel_laws::whole_number(
                    window.plane.sample_at(window.crop.x + x, window.crop.y + y),
                    channel_laws::half_range(request.bit_depth),
                    request.bit_depth,
                    request.scaled,
                )
            },
        ),
{
    let sample = window.plane.sample_at(window.crop.x + x, window.crop.y + y);
    if window.alpha {
        channel_laws::lemma_scaled_component(
            sample,
            window.component as int,
            ColorFormat::Luma,
            request.alpha_request().bit_depth,
            request.alpha_request().scaled,
        );
    } else {
        channel_laws::lemma_scaled_component(
            sample,
            window.component as int,
            request.output_color,
            request.bit_depth,
            request.scaled,
        );
    }
}

/// The samples of a planar image keep their places: luma first, then the two chroma planes, half as
/// wide and for 4:2:0 half as high, then alpha; each plane row by row from the corner of the crop,
/// and each sample moved by half of the range and brought to the nearest number. Alpha bytes must
/// have been asked for as bytes.
#[verifier::rlimit(60)]
pub proof fn lemma_planar_samples_keep_their_places(
    planes: Seq<PlaneView>,
    alpha: Option<PlaneView>,
    request: OutputFormatRequest,
    number: int,
    x: int,
    y: int,
)
    requires
        planar::planar_formatted(planes, alpha, request) is Ok,
        alpha is Some && request.bit_depth == OutputBitDepth::U8
            ==> request.alpha_request().bit_depth == OutputBitDepth::U8,
        request.alpha_request().bit_depth != OutputBitDepth::Rgb565,
        0 <= number < 3 || (number == 3 && alpha is Some),
    ensures
        ({
            let values = planar::planar_formatted(planes, alpha, request)->Ok_0.values;
            let crop = request.crop;
            let halved = request.output_color == ColorFormat::Yuv(ChromaSampling::Cs420);
            let narrow: int = crop.width as int / 2;
            let low: int = if halved {
                crop.height as int / 2
            } else {
                crop.height as int
            };
            let whole = crop.height * crop.width;
            let part = low * narrow;
            let chroma = number == 1 || number == 2;
            let plane = if number == 3 {
                alpha->0
            } else {
                planes[number]
            };
            let start = if number == 0 {
                0
            } else if number == 1 {
                whole
            } else if number == 2 {
                whole + part
            } else {
                whole + 2 * part
            };
            let left: int = if chroma {
                crop.x as int / 2
            } else {
                crop.x as int
            };
            let top: int = if chroma && halved {
                crop.y as int / 2
            } else {
                crop.y as int
            };
            let width: int = if chroma {
                narrow
            } else {
                crop.width as int
            };
            let height: int = if chroma {
                low
            } else {
                crop.height as int
            };
            let depth = if number == 3 {
                request.alpha_request().bit_depth
            } else {
                request.bit_depth
            };
            let scaled = if number == 3 {
                request.alpha_request().scaled
            } else {
                request.scaled
            };
            0 <= x < width && 0 <= y < height ==> {
                &&& 0 <= start + y * width + x < values.len()
                &&& values[start + y * width + x] == channel_laws::ranged(
                    request.bit_depth,
                    channel_laws::whole_number(
                        plane.samples[(top + y - plane.origin_y) * plane.stride + (left + x
                            - plane.origin_x)],
                        channel_laws::half_range(depth),
                        depth,
                        scaled,
                    ),
                )
            }
        }),
{
    let windows = planar::windows_of(planes, alpha, request);
    let window = windows[number];
    let width = window.crop.width as int;
    let height = window.crop.height as int;
    if request.bit_depth == OutputBitDepth::U8 {
        planar::lemma_windows_error(windows, windows.len(), windows.len());
        assert forall|index: int| 0 <= index < windows.len() implies holds_bytes(
            #[trigger] windows[index],
            request,
        ) by {
            assert(windows[index].alpha ==> alpha is Some);
        }
        lemma_vectors_do_not_matter(windows, request, windows.len());
    }
    if 0 <= x < width && 0 <= y < height {
        let index = y * width + x;
        kernels::lemma_in_plane(x, y, width, height);
        assert(width * height == window.area()) by (nonlinear_arith)
            requires
                width == window.crop.width,
                height == window.crop.height,
                window.area() == window.crop.height * window.crop.width,
        ;
        vstd::arithmetic::div_mod::lemma_fundamental_div_mod_converse(index, width, y, x);
        lemma_plane_value(windows, request, windows.len(), number, index);
        lemma_starts(windows, number);
        lemma_window_number(window, request, x, y);
        assert(windows[0].area() == request.crop.height * request.crop.width);
        assert(windows[1].area() == windows[2].area());
        assert(number < 3 ==> window.plane == planes[number]);
        assert(number == 3 ==> window.plane == alpha->0);
    }
}

} // verus!
